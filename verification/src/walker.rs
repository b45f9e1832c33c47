//! The dependency walker: from an entry template to the map of every
//! template that it reaches through `extends`, `import` and `include`.
//!
//! Reading a file, parsing a source and locating a template by name are done
//! by collaborators outside this crate. The walker therefore proceeds in
//! steps: each step names the one thing that it needs next, and is resumed
//! with the collaborator's answer.

use crate::error::{attribution_view, Attribution, AttributionView, CompileError, CompileErrorView};
use crate::graph::{cycle_found, cyclic_error, edges_view, has_edge, Edge};
use crate::map::PathMap;
use crate::node::{refs_view, scan, spec_scan, Node, RefKind, Reference, ReferenceView};
use vstd::prelude::*;

verus! {

/// A parsed template: its node list and the source text it was parsed from.
#[derive(Debug, PartialEq, Eq)]
pub struct ParseTree {
    pub source: String,
    pub nodes: Vec<Node>,
}

/// A template that waits to be parsed and searched: its path, its text, and
/// the path to hand to the parser (none for inline source).
#[derive(Debug, PartialEq, Eq)]
pub struct WorkItem {
    pub path: String,
    pub source: String,
    pub source_path: Option<String>,
}

/// The walker's output: each reached template's path with its tree.
pub type ResultMap = PathMap<ParseTree>;

/// What a walk has gathered so far.
pub struct WalkView {
    /// The paths claimed so far. A path without a tree is a placeholder: the
    /// template is scheduled, and its tree follows when it has been parsed.
    pub map: Map<Seq<char>, Option<ParseTree>>,
    /// The `extends` edges found so far, in order.
    pub edges: Seq<(Seq<char>, Seq<char>)>,
    /// The templates that wait to be parsed; the last is taken first.
    pub stack: Seq<WorkItem>,
}

/// The template that is being searched, and how far the search has come.
pub struct CurrentView {
    pub path: String,
    pub source: String,
    pub nodes: Vec<Node>,
    /// How many of the template's references have been dealt with.
    pub next: nat,
}

impl CurrentView {
    /// The reference that is dealt with next.
    pub open spec fn reference(self) -> ReferenceView {
        spec_scan(self.nodes)[self.next as int]
    }

    /// The same template with one more reference dealt with.
    pub open spec fn advanced(self) -> CurrentView {
        CurrentView { next: self.next + 1, ..self }
    }

    /// The template's tree.
    pub open spec fn tree(self) -> ParseTree {
        ParseTree { source: self.source, nodes: self.nodes }
    }
}

/// A walk that waits for the text of `target`. Without `cur` the target is
/// the entry template; with it, `target` is what the next reference of `cur`
/// resolved to.
pub struct LoadView {
    pub walk: WalkView,
    pub cur: Option<CurrentView>,
    pub target: String,
}

/// A walk that waits for the tree of `item`.
pub struct ParseView {
    pub walk: WalkView,
    pub item: WorkItem,
}

/// A walk that waits for the path that the next reference of `cur` names.
pub struct FindView {
    pub walk: WalkView,
    pub cur: CurrentView,
}

/// Where a walk stands.
pub enum StepView {
    Load(LoadView),
    Parse(ParseView),
    Find(FindView),
    Done(Map<Seq<char>, ParseTree>),
}

/// A walk that has gathered nothing yet.
pub open spec fn empty_walk() -> WalkView {
    WalkView { map: Map::empty(), edges: Seq::empty(), stack: Seq::empty() }
}

/// The result map of a walk in which no placeholder is left.
pub open spec fn finished(map: Map<Seq<char>, Option<ParseTree>>) -> Map<Seq<char>, ParseTree> {
    Map::new(|k: Seq<char>| map.contains_key(k), |k: Seq<char>| map[k]->0)
}

/// Goes on with the search of `cur`. If a reference is left, its path is to
/// be found next. Otherwise the template is done: its tree is recorded under
/// its path, and the template on top of the stack is to be parsed next; with
/// an empty stack the walk is complete.
pub open spec fn spec_resume(walk: WalkView, cur: CurrentView) -> StepView {
    if cur.next < spec_scan(cur.nodes).len() {
        StepView::Find(FindView { walk, cur })
    } else {
        let map = walk.map.insert(cur.path@, Some(cur.tree()));
        if walk.stack.len() > 0 {
            StepView::Parse(
                ParseView {
                    walk: WalkView { map, edges: walk.edges, stack: walk.stack.drop_last() },
                    item: walk.stack.last(),
                },
            )
        } else {
            StepView::Done(finished(map))
        }
    }
}

/// How a walk starts: inline source is parsed at once, under no path; the
/// text of a template file is loaded first.
pub open spec fn spec_resolve(entry_path: String, entry_source: Option<String>) -> StepView {
    match entry_source {
        Some(source) => StepView::Parse(
            ParseView {
                walk: empty_walk(),
                item: WorkItem { path: entry_path, source, source_path: None },
            },
        ),
        None => StepView::Load(LoadView { walk: empty_walk(), cur: None, target: entry_path }),
    }
}

/// The template to parse once the text of `target` has come.
pub open spec fn loaded_item(target: String, text: String) -> WorkItem {
    WorkItem { path: target, source: text, source_path: Some(target) }
}

/// What follows the answer to a load. A failure ends the walk with the error
/// as it came. The entry's text is parsed next. The text of a referenced
/// template is put on the stack, its path is claimed by a placeholder, and
/// the search of the referencing template goes on.
pub open spec fn spec_loaded(s: LoadView, reply: Result<String, CompileError>) -> Result<
    StepView,
    CompileErrorView,
> {
    match reply {
        Err(e) => Err(e@),
        Ok(text) => match s.cur {
            None => Ok(
                StepView::Parse(ParseView { walk: s.walk, item: loaded_item(s.target, text) }),
            ),
            Some(cur) => Ok(
                spec_resume(
                    WalkView {
                        map: s.walk.map.insert(s.target@, None),
                        edges: s.walk.edges,
                        stack: s.walk.stack.push(loaded_item(s.target, text)),
                    },
                    cur.advanced(),
                ),
            ),
        },
    }
}

/// What follows the parser's answer. A failure ends the walk with the error
/// as it came; a tree is searched from its first reference.
pub open spec fn spec_parsed(s: ParseView, reply: Result<Vec<Node>, CompileError>) -> Result<
    StepView,
    CompileErrorView,
> {
    match reply {
        Err(e) => Err(e@),
        Ok(nodes) => Ok(
            spec_resume(
                s.walk,
                CurrentView { path: s.item.path, source: s.item.source, nodes, next: 0 },
            ),
        ),
    }
}

/// What follows the resolver's answer for the next reference of `s.cur`.
///
/// A failure ends the walk with the error as it came. An `extends` that
/// names its own template, or repeats an edge of the chain, ends the walk
/// with a cyclic-dependency error; otherwise its edge joins the chain. A
/// target that is already claimed is not scheduled again; one that is not
/// is loaded next.
///
/// Inheritance that returns to a template over several templates, with no
/// edge found twice, is not rejected here: the templates are all claimed,
/// and the walk completes with each of them.
pub open spec fn spec_found(s: FindView, reply: Result<String, CompileError>) -> Result<
    StepView,
    CompileErrorView,
> {
    let cur = s.cur;
    let walk = s.walk;
    match reply {
        Err(e) => Err(e@),
        Ok(target) => {
            let edge = (cur.path@, target@);
            let inherits = cur.reference().kind == RefKind::Extends;
            if inherits && target@ == cur.path@ {
                Err(cyclic_error(walk.edges.push(edge)))
            } else if inherits && walk.edges.contains(edge) {
                Err(cyclic_error(walk.edges))
            } else {
                let walk = WalkView {
                    map: walk.map,
                    edges: if inherits {
                        walk.edges.push(edge)
                    } else {
                        walk.edges
                    },
                    stack: walk.stack,
                };
                if walk.map.contains_key(target@) {
                    Ok(spec_resume(walk, cur.advanced()))
                } else {
                    Ok(StepView::Load(LoadView { walk, cur: Some(cur), target }))
                }
            }
        },
    }
}

/// No edge of the chain occurs twice, and none leads from a template to
/// itself.
pub open spec fn edges_ok(edges: Seq<(Seq<char>, Seq<char>)>) -> bool {
    &&& edges.no_duplicates()
    &&& forall|i: int| 0 <= i < edges.len() ==> (#[trigger] edges[i]).0 != edges[i].1
}

/// Every placeholder belongs to a template that is still to be parsed: the
/// one in hand (`pending`), or one on the stack.
pub open spec fn placeholders_pending(walk: WalkView, pending: Seq<char>) -> bool {
    forall|k: Seq<char>| #[trigger]
        walk.map.contains_key(k) && walk.map[k] is None ==> k == pending || exists|i: int|
            0 <= i < walk.stack.len() && (#[trigger] walk.stack[i]).path@ == k
}

impl StepView {
    /// What holds of every step that a walk can reach.
    pub open spec fn wf(self) -> bool {
        match self {
            StepView::Load(s) => match s.cur {
                Some(cur) => {
                    &&& edges_ok(s.walk.edges)
                    &&& placeholders_pending(s.walk, cur.path@)
                    &&& cur.next < spec_scan(cur.nodes).len()
                },
                None => s.walk == empty_walk(),
            },
            StepView::Parse(s) => {
                &&& edges_ok(s.walk.edges)
                &&& placeholders_pending(s.walk, s.item.path@)
            },
            StepView::Find(s) => {
                &&& edges_ok(s.walk.edges)
                &&& placeholders_pending(s.walk, s.cur.path@)
                &&& s.cur.next < spec_scan(s.cur.nodes).len()
            },
            StepView::Done(_) => true,
        }
    }
}


/// Going on with a search keeps a walk well-formed, and a walk that is
/// complete has a tree for every path that it claimed.
pub proof fn lemma_resume_wf(walk: WalkView, cur: CurrentView)
    requires
        edges_ok(walk.edges),
        placeholders_pending(walk, cur.path@),
        cur.next <= spec_scan(cur.nodes).len(),
    ensures
        spec_resume(walk, cur).wf(),
        spec_resume(walk, cur) is Done ==> walk.stack.len() == 0 && forall|k: Seq<char>| #[trigger]
            walk.map.insert(cur.path@, Some(cur.tree())).contains_key(k) ==> walk.map.insert(
                cur.path@,
                Some(cur.tree()),
            )[k] is Some,
{
    if cur.next >= spec_scan(cur.nodes).len() {
        let map = walk.map.insert(cur.path@, Some(cur.tree()));
        if walk.stack.len() > 0 {
            let rest = WalkView { map, edges: walk.edges, stack: walk.stack.drop_last() };
            let item = walk.stack.last();
            assert forall|k: Seq<char>| #[trigger]
                rest.map.contains_key(k) && rest.map[k] is None implies k == item.path@
                || exists|i: int|
                0 <= i < rest.stack.len() && (#[trigger] rest.stack[i]).path@ == k by {
                assert(walk.map.contains_key(k) && walk.map[k] is None);
                let i = choose|i: int|
                    0 <= i < walk.stack.len() && (#[trigger] walk.stack[i]).path@ == k;
                if i < walk.stack.len() - 1 {
                    assert(rest.stack[i].path@ == k);
                }
            }
        } else {
            assert forall|k: Seq<char>| #[trigger] map.contains_key(k) implies map[k] is Some by {
                if k != cur.path@ {
                    if walk.map[k] is None {
                        assert(walk.map.contains_key(k) && walk.map[k] is None);
                    }
                }
            }
        }
    }
}

/// A template that is claimed and put on the stack in one step leaves no
/// placeholder without a template that is still to be parsed.
pub proof fn lemma_claim_is_pending(walk: WalkView, pending: Seq<char>, item: WorkItem)
    requires
        placeholders_pending(walk, pending),
    ensures
        placeholders_pending(
            WalkView {
                map: walk.map.insert(item.path@, None),
                edges: walk.edges,
                stack: walk.stack.push(item),
            },
            pending,
        ),
{
    let after = WalkView {
        map: walk.map.insert(item.path@, None),
        edges: walk.edges,
        stack: walk.stack.push(item),
    };
    assert forall|k: Seq<char>| #[trigger]
        after.map.contains_key(k) && after.map[k] is None implies k == pending || exists|i: int|
        0 <= i < after.stack.len() && (#[trigger] after.stack[i]).path@ == k by {
        if k == item.path@ {
            assert(after.stack[after.stack.len() - 1].path@ == k);
        } else if k != pending {
            assert(walk.map.contains_key(k) && walk.map[k] is None);
            let i = choose|i: int|
                0 <= i < walk.stack.len() && (#[trigger] walk.stack[i]).path@ == k;
            assert(after.stack[i].path@ == k);
        }
    }
}

/// The answer to a load keeps a walk well-formed.
pub proof fn lemma_loaded_wf(s: LoadView, reply: Result<String, CompileError>)
    requires
        StepView::Load(s).wf(),
    ensures
        spec_loaded(s, reply) matches Ok(step) ==> step.wf(),
{
    if let Ok(text) = reply {
        match s.cur {
            None => {},
            Some(cur) => {
                let item = loaded_item(s.target, text);
                let walk = WalkView {
                    map: s.walk.map.insert(s.target@, None),
                    edges: s.walk.edges,
                    stack: s.walk.stack.push(item),
                };
                lemma_claim_is_pending(s.walk, cur.path@, item);
                lemma_resume_wf(walk, cur.advanced());
            },
        }
    }
}

/// The parser's answer keeps a walk well-formed.
pub proof fn lemma_parsed_wf(s: ParseView, reply: Result<Vec<Node>, CompileError>)
    requires
        StepView::Parse(s).wf(),
    ensures
        spec_parsed(s, reply) matches Ok(step) ==> step.wf(),
{
    if let Ok(nodes) = reply {
        lemma_resume_wf(
            s.walk,
            CurrentView { path: s.item.path, source: s.item.source, nodes, next: 0 },
        );
    }
}

/// The resolver's answer keeps a walk well-formed: in particular the chain
/// of `extends` edges never holds an edge twice, nor one from a template to
/// itself.
pub proof fn lemma_found_wf(s: FindView, reply: Result<String, CompileError>)
    requires
        StepView::Find(s).wf(),
    ensures
        spec_found(s, reply) matches Ok(step) ==> step.wf(),
{
    if let Ok(target) = reply {
        if spec_found(s, reply) is Ok {
            let cur = s.cur;
            let edge = (cur.path@, target@);
            let inherits = cur.reference().kind == RefKind::Extends;
            let walk = WalkView {
                map: s.walk.map,
                edges: if inherits {
                    s.walk.edges.push(edge)
                } else {
                    s.walk.edges
                },
                stack: s.walk.stack,
            };
            assert(edges_ok(walk.edges));
            assert(placeholders_pending(walk, cur.path@));
            if walk.map.contains_key(target@) {
                lemma_resume_wf(walk, cur.advanced());
            }
        }
    }
}

/// Inheritance that returns to its own template, or that is found a second
/// time, ends the walk: the answer for such an `extends` is a
/// cyclic-dependency error, and the chain that it reports holds the edge.
pub proof fn lemma_cycle_is_reported(s: FindView, target: String)
    requires
        s.cur.reference().kind == RefKind::Extends,
        target@ == s.cur.path@ || s.walk.edges.contains((s.cur.path@, target@)),
    ensures
        exists|chain: Seq<(Seq<char>, Seq<char>)>|
            #![trigger cyclic_error(chain)]
            chain.contains((s.cur.path@, target@)) && spec_found(s, Ok(target)) == Err::<
                StepView,
                CompileErrorView,
            >(cyclic_error(chain)),
{
    let edge = (s.cur.path@, target@);
    if target@ == s.cur.path@ {
        let chain = s.walk.edges.push(edge);
        assert(chain[chain.len() - 1] == edge);
        assert(spec_found(s, Ok(target)) == Err::<StepView, CompileErrorView>(
            cyclic_error(chain),
        ));
    } else {
        assert(spec_found(s, Ok(target)) == Err::<StepView, CompileErrorView>(
            cyclic_error(s.walk.edges),
        ));
    }
}

/// Only inheritance can close a cycle: the answer for an `include` or an
/// `import` never ends the walk with an error of the walker's own, whatever
/// the target is, the referencing template itself included.
pub proof fn lemma_only_extends_is_cyclic(s: FindView, target: String)
    requires
        s.cur.reference().kind != RefKind::Extends,
    ensures
        spec_found(s, Ok(target)) is Ok,
{
}

/// A template that refers to no other template is a walk of its own: once
/// it is parsed, the walk is complete, and its result holds the template
/// and nothing else. With `lemma_nested_inheritance_makes_no_reference`
/// this holds of every entry whose `extends` and `import` directives all
/// stand inside blocks and which has no `include`.
pub proof fn lemma_walk_without_references(item: WorkItem, nodes: Vec<Node>)
    requires
        spec_scan(nodes).len() == 0,
    ensures
        spec_parsed(ParseView { walk: empty_walk(), item }, Ok(nodes)) == Ok::<
            StepView,
            CompileErrorView,
        >(
            StepView::Done(
                Map::<Seq<char>, ParseTree>::empty().insert(
                    item.path@,
                    ParseTree { source: item.source, nodes },
                ),
            ),
        ),
{
    let tree = ParseTree { source: item.source, nodes };
    let claimed = Map::<Seq<char>, Option<ParseTree>>::empty().insert(item.path@, Some(tree));
    assert(finished(claimed) =~= Map::<Seq<char>, ParseTree>::empty().insert(item.path@, tree));
}

impl StepView {
    /// The paths that the walk has claimed.
    pub open spec fn claims(self) -> Set<Seq<char>> {
        match self {
            StepView::Load(s) => s.walk.map.dom(),
            StepView::Parse(s) => s.walk.map.dom(),
            StepView::Find(s) => s.walk.map.dom(),
            StepView::Done(map) => map.dom(),
        }
    }
}

/// A claim is never given up: whatever the answers are, each step of a walk
/// has claimed every path that the step before it had claimed.
pub proof fn lemma_claims_stay(
    before: StepView,
    text: Result<String, CompileError>,
    nodes: Result<Vec<Node>, CompileError>,
    target: Result<String, CompileError>,
)
    ensures
        ({
            let after = match before {
                StepView::Load(s) => spec_loaded(s, text),
                StepView::Parse(s) => spec_parsed(s, nodes),
                StepView::Find(s) => spec_found(s, target),
                StepView::Done(map) => Ok(before),
            };
            after matches Ok(step) ==> before.claims().subset_of(step.claims())
        }),
{
}

/// A template is loaded at most once in a walk: a target that is claimed
/// already is never asked for again, and a target that is loaded is claimed
/// from then on.
pub proof fn lemma_load_claims(s: FindView, target: String, text: String)
    ensures
        s.walk.map.contains_key(target@) ==> !(spec_found(s, Ok(target)) matches Ok(
            StepView::Load(_),
        )),
        spec_found(s, Ok(target)) matches Ok(StepView::Load(l)) ==> match spec_loaded(
            l,
            Ok(text),
        ) {
            Ok(StepView::Find(n)) => n.walk.map.contains_key(target@),
            Ok(StepView::Parse(n)) => n.walk.map.contains_key(target@),
            Ok(StepView::Load(n)) => false,
            Ok(StepView::Done(m)) => false,
            Err(_) => false,
        },
{
}


struct Walk {
    map: PathMap<Option<ParseTree>>,
    edges: Vec<Edge>,
    stack: Vec<WorkItem>,
}

impl Walk {
    spec fn view(&self) -> WalkView {
        WalkView { map: self.map@, edges: edges_view(self.edges@), stack: self.stack@ }
    }
}

struct Current {
    path: String,
    source: String,
    nodes: Vec<Node>,
    refs: Vec<Reference>,
    next: usize,
}

impl Current {
    spec fn view(&self) -> CurrentView {
        CurrentView {
            path: self.path,
            source: self.source,
            nodes: self.nodes,
            next: self.next as nat,
        }
    }

    spec fn inv(&self) -> bool {
        &&& refs_view(self.refs@) == spec_scan(self.nodes)
        &&& self.next <= self.refs.len()
    }
}

spec fn current_view(cur: Option<Current>) -> Option<CurrentView> {
    match cur {
        Some(c) => Some(c@),
        None => None,
    }
}

/// A walk that needs the text of a template. Load the text of
/// [`path`](Self::path) through the source cache, with
/// [`attribution`](Self::attribution), and hand the outcome to
/// [`loaded`](Self::loaded).
pub struct AwaitLoad {
    walk: Walk,
    cur: Option<Current>,
    target: String,
}

/// A walk that needs a tree. Parse [`source`](Self::source) under
/// [`path`](Self::path) and hand the outcome to [`parsed`](Self::parsed).
pub struct AwaitParse {
    walk: Walk,
    item: WorkItem,
}

/// A walk that needs a template located. Resolve [`path`](Self::path)
/// relative to [`relative_to`](Self::relative_to) and hand the outcome to
/// [`found`](Self::found).
pub struct AwaitFind {
    walk: Walk,
    cur: Current,
}

/// Where a walk stands: what it needs next, or its result.
pub enum Step {
    Load(AwaitLoad),
    Parse(AwaitParse),
    Find(AwaitFind),
    Done(ResultMap),
}

impl Step {
    /// The mathematical value of the step.
    pub open spec fn view(&self) -> StepView {
        match self {
            Step::Load(s) => StepView::Load(s@),
            Step::Parse(s) => StepView::Parse(s@),
            Step::Find(s) => StepView::Find(s@),
            Step::Done(m) => StepView::Done(m@),
        }
    }
}

/// Turns a map without placeholders into the result map.
fn finish(map: PathMap<Option<ParseTree>>) -> (r: ResultMap)
    requires
        forall|k: Seq<char>| #[trigger] map@.contains_key(k) ==> map@[k] is Some,
    ensures
        r@ == finished(map@),
{
    let ghost orig = map@;
    let mut map = map;
    let mut out: ResultMap = PathMap::new();
    let mut left: usize = map.len();
    while left > 0
        invariant
            forall|k: Seq<char>| #[trigger] orig.contains_key(k) ==> orig[k] is Some,
            forall|k: Seq<char>| #[trigger]
                orig.contains_key(k) <==> map@.contains_key(k) || out@.contains_key(k),
            forall|k: Seq<char>| #[trigger]
                map@.contains_key(k) ==> !out@.contains_key(k) && map@[k] == orig[k],
            forall|k: Seq<char>| #[trigger] out@.contains_key(k) ==> orig[k] == Some(out@[k]),
            map@.dom().finite(),
            left == map@.dom().len(),
        decreases map@.dom().len(),
    {
        match map.pop_entry() {
            Some((key, value)) => {
                match value {
                    Some(tree) => {
                        out.insert(key, tree);
                    },
                    None => {
                        proof {
                            assert(orig.contains_key(key@));
                            assert(false);
                        }
                    },
                }
            },
            None => {},
        }
        left = map.len();
    }
    proof {
        assert(map@.dom().len() == 0);
        map@.dom().lemma_len0_is_empty();
        assert forall|k: Seq<char>| !map@.contains_key(k) by {
            assert(!map@.dom().contains(k));
        }
        assert(out@ =~= finished(orig));
    }
    out
}

/// Goes on with the search of `cur`.
fn resume(walk: Walk, cur: Current) -> (step: Step)
    requires
        cur.inv(),
        edges_ok(walk@.edges),
        placeholders_pending(walk@, cur.path@),
    ensures
        step@ == spec_resume(walk@, cur@),
{
    proof {
        lemma_resume_wf(walk@, cur@);
    }
    if cur.next < cur.refs.len() {
        Step::Find(AwaitFind { walk, cur })
    } else {
        let Walk { map, edges, stack } = walk;
        let Current { path, source, nodes, .. } = cur;
        let mut map = map;
        let mut stack = stack;
        map.insert(path, Some(ParseTree { source, nodes }));
        match stack.pop() {
            Some(item) => Step::Parse(AwaitParse { walk: Walk { map, edges, stack }, item }),
            None => Step::Done(finish(map)),
        }
    }
}

/// Starts the resolution of the template `entry_path`.
///
/// With `entry_source` the template's text is given inline and is parsed
/// under no path. Without it the text is loaded from `entry_path` first,
/// attributed to no referencing directive.
pub fn resolve(entry_path: String, entry_source: Option<String>) -> (step: Step)
    ensures
        step@ == spec_resolve(entry_path, entry_source),
        step@.wf(),
{
    let walk = Walk { map: PathMap::new(), edges: Vec::new(), stack: Vec::new() };
    proof {
        assert(walk@.edges =~= Seq::empty());
        assert(walk@ == empty_walk());
    }
    match entry_source {
        Some(source) => Step::Parse(
            AwaitParse { walk, item: WorkItem { path: entry_path, source, source_path: None } },
        ),
        None => Step::Load(AwaitLoad { walk, cur: None, target: entry_path }),
    }
}

impl AwaitLoad {
    /// The mathematical value of the step.
    pub closed spec fn view(&self) -> LoadView {
        LoadView { walk: self.walk@, cur: current_view(self.cur), target: self.target }
    }

    #[verifier::type_invariant]
    spec fn inv(&self) -> bool {
        &&& StepView::Load(self@).wf()
        &&& self.cur matches Some(c) ==> c.inv()
    }

    /// The path of the template whose text is needed.
    pub fn path(&self) -> (p: &String)
        ensures
            *p == self@.target,
    {
        &self.target
    }

    /// Where the reference to that template was made: the referencing
    /// template's path and text, and the span of the directive. None for the
    /// entry template.
    pub fn attribution(&self) -> (a: Option<Attribution>)
        ensures
            attribution_view(a) == match self@.cur {
                Some(cur) => Some(
                    AttributionView {
                        path: cur.path@,
                        source: cur.source@,
                        span: cur.reference().span,
                    },
                ),
                None => None,
            },
    {
        proof {
            use_type_invariant(self);
        }
        match &self.cur {
            Some(cur) => {
                let r = &cur.refs[cur.next];
                assert(refs_view(cur.refs@)[cur.next as int] == r@);
                Some(
                    Attribution {
                        path: cur.path.clone(),
                        source: cur.source.clone(),
                        span: r.span,
                    },
                )
            },
            None => None,
        }
    }

    /// Takes the outcome of the load and gives the walk's next step, or the
    /// error that ends it.
    pub fn loaded(self, reply: Result<String, CompileError>) -> (r: Result<Step, CompileError>)
        ensures
            match spec_loaded(self@, reply) {
                Ok(step) => r is Ok && r->Ok_0@ == step && step.wf(),
                Err(e) => r is Err && r->Err_0@ == e,
            },
    {
        proof {
            use_type_invariant(&self);
            lemma_loaded_wf(self@, reply);
        }
        let AwaitLoad { walk, cur, target } = self;
        match reply {
            Err(e) => Err(e),
            Ok(text) => {
                match cur {
                    None => {
                        let item = WorkItem {
                            path: target.clone(),
                            source: text,
                            source_path: Some(target),
                        };
                        Ok(Step::Parse(AwaitParse { walk, item }))
                    },
                    Some(cur) => {
                        let ghost before = walk@;
                        let ghost cur_before = cur@;
                        let Walk { map, edges, stack } = walk;
                        let mut map = map;
                        let mut stack = stack;
                        let mut cur = cur;
                        let item = WorkItem {
                            path: target.clone(),
                            source: text,
                            source_path: Some(target.clone()),
                        };
                        stack.push(item);
                        map.insert(target, None);
                        cur.next = cur.next + 1;
                        let walk = Walk { map, edges, stack };
                        proof {
                            assert(cur@ == cur_before.advanced());
                            assert(walk@.stack == before.stack.push(loaded_item(target, text)));
                            assert(walk@ == (WalkView {
                                map: before.map.insert(target@, None),
                                edges: before.edges,
                                stack: before.stack.push(loaded_item(target, text)),
                            }));
                            lemma_claim_is_pending(
                                before,
                                cur.path@,
                                loaded_item(target, text),
                            );
                        }
                        Ok(resume(walk, cur))
                    },
                }
            },
        }
    }
}

impl AwaitParse {
    /// The mathematical value of the step.
    pub closed spec fn view(&self) -> ParseView {
        ParseView { walk: self.walk@, item: self.item }
    }

    #[verifier::type_invariant]
    spec fn inv(&self) -> bool {
        StepView::Parse(self@).wf()
    }

    /// The text to parse.
    pub fn source(&self) -> (s: &String)
        ensures
            *s == self@.item.source,
    {
        &self.item.source
    }

    /// The path to hand to the parser with the text; none for inline source.
    pub fn path(&self) -> (p: &Option<String>)
        ensures
            *p == self@.item.source_path,
    {
        &self.item.source_path
    }

    /// Takes the parser's outcome and gives the walk's next step, or the
    /// error that ends it.
    pub fn parsed(self, reply: Result<Vec<Node>, CompileError>) -> (r: Result<
        Step,
        CompileError,
    >)
        ensures
            match spec_parsed(self@, reply) {
                Ok(step) => r is Ok && r->Ok_0@ == step && step.wf(),
                Err(e) => r is Err && r->Err_0@ == e,
            },
    {
        proof {
            use_type_invariant(&self);
            lemma_parsed_wf(self@, reply);
        }
        let AwaitParse { walk, item } = self;
        match reply {
            Err(e) => Err(e),
            Ok(nodes) => {
                let refs = scan(&nodes);
                let WorkItem { path, source, .. } = item;
                let cur = Current { path, source, nodes, refs, next: 0 };
                Ok(resume(walk, cur))
            },
        }
    }
}

impl AwaitFind {
    /// The mathematical value of the step.
    pub closed spec fn view(&self) -> FindView {
        FindView { walk: self.walk@, cur: self.cur@ }
    }

    #[verifier::type_invariant]
    spec fn inv(&self) -> bool {
        &&& StepView::Find(self@).wf()
        &&& self.cur.inv()
    }

    /// The path to locate, as the directive wrote it.
    pub fn path(&self) -> (p: &String)
        ensures
            p@ == self@.cur.reference().path,
    {
        proof {
            use_type_invariant(self);
        }
        let r = &self.cur.refs[self.cur.next];
        assert(refs_view(self.cur.refs@)[self.cur.next as int] == r@);
        &r.path
    }

    /// The template that holds the directive; the path is located relative
    /// to it.
    pub fn relative_to(&self) -> (p: &String)
        ensures
            *p == self@.cur.path,
    {
        &self.cur.path
    }

    /// Where the reference is made: the template that holds the directive,
    /// its text, and the span of the directive. A failure to locate the
    /// path is attributed to this place.
    pub fn attribution(&self) -> (a: Attribution)
        ensures
            a@ == (AttributionView {
                path: self@.cur.path@,
                source: self@.cur.source@,
                span: self@.cur.reference().span,
            }),
    {
        proof {
            use_type_invariant(self);
        }
        let r = &self.cur.refs[self.cur.next];
        assert(refs_view(self.cur.refs@)[self.cur.next as int] == r@);
        Attribution { path: self.cur.path.clone(), source: self.cur.source.clone(), span: r.span }
    }

    /// Takes the resolver's outcome and gives the walk's next step, or the
    /// error that ends it.
    pub fn found(self, reply: Result<String, CompileError>) -> (r: Result<Step, CompileError>)
        ensures
            match spec_found(self@, reply) {
                Ok(step) => r is Ok && r->Ok_0@ == step && step.wf(),
                Err(e) => r is Err && r->Err_0@ == e,
            },
    {
        proof {
            use_type_invariant(&self);
            lemma_found_wf(self@, reply);
        }
        let ghost view = self@;
        let AwaitFind { walk, cur } = self;
        match reply {
            Err(e) => Err(e),
            Ok(target) => {
                let Walk { map, edges, stack } = walk;
                let mut edges = edges;
                let mut cur = cur;
                let ghost edges_before = edges_view(edges@);
                let ghost cur_before = cur@;
                assert(refs_view(cur.refs@)[cur.next as int] == cur.refs[cur.next as int]@);
                let inherits = match cur.refs[cur.next].kind {
                    RefKind::Extends => true,
                    _ => false,
                };
                if inherits {
                    if target == cur.path {
                        edges.push((cur.path.clone(), target));
                        proof {
                            assert(edges_view(edges@) =~= edges_before.push(
                                (cur.path@, target@),
                            ));
                        }
                        return Err(cycle_found(&edges));
                    } else if has_edge(&edges, &cur.path, &target) {
                        return Err(cycle_found(&edges));
                    }
                    edges.push((cur.path.clone(), target.clone()));
                    proof {
                        assert(edges_view(edges@) =~= edges_before.push((cur.path@, target@)));
                    }
                }
                let walk = Walk { map, edges, stack };
                if walk.map.contains_key(&target) {
                    cur.next = cur.next + 1;
                    proof {
                        assert(cur@ == cur_before.advanced());
                    }
                    Ok(resume(walk, cur))
                } else {
                    Ok(Step::Load(AwaitLoad { walk, cur: Some(cur), target }))
                }
            },
        }
    }
}

} // verus!
