//! The syntax tree of a template, as far as dependency resolution reads it,
//! and the order in which a tree's references to other templates are found.

use crate::error::Span;
use vstd::prelude::*;

verus! {

/// One node of a parsed template.
///
/// Every node carries the span of its source text. The three directives that
/// name another template carry the path as written; the structural nodes
/// carry their child node lists.
#[derive(Debug, PartialEq, Eq)]
pub enum Node {
    Lit { span: Span },
    Comment { span: Span },
    Expr { span: Span },
    Call { span: Span },
    Let { span: Span },
    Raw { span: Span },
    Continue { span: Span },
    Break { span: Span },
    Extends { path: String, span: Span },
    Import { path: String, span: Span },
    Include { path: String, span: Span },
    Macro { nodes: Vec<Node>, span: Span },
    BlockDef { nodes: Vec<Node>, span: Span },
    FilterBlock { nodes: Vec<Node>, span: Span },
    If { branches: Vec<Vec<Node>>, span: Span },
    Loop { body: Vec<Node>, else_nodes: Vec<Node>, span: Span },
    Match { arms: Vec<Vec<Node>>, span: Span },
}

/// The directive through which one template refers to another.
#[derive(Debug, Clone, Copy, PartialEq, Eq, Structural)]
pub enum RefKind {
    Extends,
    Import,
    Include,
}

/// A reference to another template found in a tree: the directive's kind,
/// the path as written, and the directive's span.
#[derive(Debug, PartialEq, Eq)]
pub struct Reference {
    pub kind: RefKind,
    pub path: String,
    pub span: Span,
}

/// The mathematical value of a [`Reference`].
pub struct ReferenceView {
    pub kind: RefKind,
    pub path: Seq<char>,
    pub span: Span,
}

impl View for Reference {
    type V = ReferenceView;

    open spec fn view(&self) -> ReferenceView {
        ReferenceView { kind: self.kind, path: self.path@, span: self.span }
    }
}

/// The values of a sequence of references.
pub open spec fn refs_view(refs: Seq<Reference>) -> Seq<ReferenceView> {
    refs.map_values(|r: Reference| r@)
}

impl Node {
    /// The reference that the node itself makes. `extends` and `import` count
    /// only in the list at the root of a template (`top`); `include` counts
    /// at any depth.
    pub open spec fn directive(self, top: bool) -> Option<ReferenceView> {
        match self {
            Node::Extends { path, span } => if top {
                Some(ReferenceView { kind: RefKind::Extends, path: path@, span })
            } else {
                None
            },
            Node::Import { path, span } => if top {
                Some(ReferenceView { kind: RefKind::Import, path: path@, span })
            } else {
                None
            },
            Node::Include { path, span } => Some(
                ReferenceView { kind: RefKind::Include, path: path@, span },
            ),
            _ => None,
        }
    }

    /// The child node lists that are searched after the node's own list, in
    /// the order in which they are set aside. A macro's body is searched only
    /// when the macro stands at the root of a template.
    pub open spec fn bodies(self, top: bool) -> Seq<Vec<Node>> {
        match self {
            Node::Macro { nodes, .. } => if top {
                seq![nodes]
            } else {
                Seq::empty()
            },
            Node::BlockDef { nodes, .. } => seq![nodes],
            Node::FilterBlock { nodes, .. } => seq![nodes],
            Node::If { branches, .. } => branches@,
            Node::Loop { body, else_nodes, .. } => seq![body, else_nodes],
            Node::Match { arms, .. } => arms@,
            _ => Seq::empty(),
        }
    }
}

/// The references made by the nodes of `list` themselves, in order.
pub open spec fn directives(list: Seq<Node>, top: bool) -> Seq<ReferenceView>
    decreases list.len(),
{
    if list.len() == 0 {
        Seq::empty()
    } else {
        match list.last().directive(top) {
            Some(r) => directives(list.drop_last(), top).push(r),
            None => directives(list.drop_last(), top),
        }
    }
}

/// Every reference found from `list`, in the order of discovery: first the
/// directives of the list's own nodes, then what is found in the bodies of
/// its nodes, the body that was set aside last being searched first.
pub open spec fn list_refs(list: Vec<Node>, top: bool) -> Seq<ReferenceView>
    decreases list, list.len() + 1,
{
    directives(list@, top) + below(list, list.len() as nat, top)
}

/// What is found in the bodies of the nodes `list[..n]`, last node first.
pub open spec fn below(list: Vec<Node>, n: nat, top: bool) -> Seq<ReferenceView>
    decreases list, n,
{
    if n == 0 || n > list.len() {
        Seq::empty()
    } else {
        node_below(list[n - 1], top) + below(list, (n - 1) as nat, top)
    }
}

/// What is found in the bodies of one node, last body first.
pub open spec fn node_below(node: Node, top: bool) -> Seq<ReferenceView>
    decreases node, 0nat,
{
    match node {
        Node::Macro { nodes, .. } => if top {
            list_refs(nodes, false)
        } else {
            Seq::empty()
        },
        Node::BlockDef { nodes, .. } => list_refs(nodes, false),
        Node::FilterBlock { nodes, .. } => list_refs(nodes, false),
        Node::If { branches, .. } => lists_refs(branches, branches.len() as nat),
        Node::Loop { body, else_nodes, .. } => list_refs(else_nodes, false) + list_refs(
            body,
            false,
        ),
        Node::Match { arms, .. } => lists_refs(arms, arms.len() as nat),
        _ => Seq::empty(),
    }
}

/// What is found from the lists `lists[..n]`, last list first.
pub open spec fn lists_refs(lists: Vec<Vec<Node>>, n: nat) -> Seq<ReferenceView>
    decreases lists, n,
{
    if n == 0 || n > lists.len() {
        Seq::empty()
    } else {
        list_refs(lists[n - 1], false) + lists_refs(lists, (n - 1) as nat)
    }
}

/// The references of a whole template, whose root node list is `root`.
pub open spec fn spec_scan(root: Vec<Node>) -> Seq<ReferenceView> {
    list_refs(root, true)
}


/// The lists that are set aside while the nodes of `list` are swept, in the
/// order in which they are set aside.
pub open spec fn pushes(list: Seq<Node>, top: bool) -> Seq<Vec<Node>>
    decreases list.len(),
{
    if list.len() == 0 {
        Seq::empty()
    } else {
        pushes(list.drop_last(), top) + list.last().bodies(top)
    }
}

/// What is found from a stack of node lists that wait to be searched. The
/// list at the top of the stack (the last) is searched first, and the lists
/// that it sets aside are searched before the rest of the stack.
pub open spec fn pending(stack: Seq<Vec<Node>>) -> Seq<ReferenceView>
    decreases stack.len(),
{
    if stack.len() == 0 {
        Seq::empty()
    } else {
        list_refs(stack.last(), false) + pending(stack.drop_last())
    }
}

/// The lists that a stack of borrowed lists stands for.
pub open spec fn lists_of(stack: Seq<&Vec<Node>>) -> Seq<Vec<Node>> {
    stack.map_values(|r: &Vec<Node>| *r)
}

/// A stack made of two parts is searched from its upper part down.
pub proof fn lemma_pending_concat(a: Seq<Vec<Node>>, b: Seq<Vec<Node>>)
    ensures
        pending(a + b) == pending(b) + pending(a),
    decreases b.len(),
{
    if b.len() == 0 {
        assert(a + b =~= a);
    } else {
        assert((a + b).drop_last() =~= a + b.drop_last());
        assert((a + b).last() == b.last());
        lemma_pending_concat(a, b.drop_last());
        assert(pending(a + b) =~= pending(b) + pending(a));
    }
}

proof fn lemma_pending_lists(lists: Vec<Vec<Node>>, n: nat)
    requires
        n <= lists.len(),
    ensures
        pending(lists@.take(n as int)) == lists_refs(lists, n),
    decreases n,
{
    if n > 0 {
        lemma_pending_lists(lists, (n - 1) as nat);
        assert(lists@.take(n as int).drop_last() =~= lists@.take(n - 1));
        assert(lists@.take(n as int).last() == lists[n - 1]);
    }
}

proof fn lemma_pending_one(list: Vec<Node>)
    ensures
        pending(seq![list]) == list_refs(list, false),
{
    let one = seq![list];
    assert(one.drop_last() =~= Seq::<Vec<Node>>::empty());
    assert(one.last() == list);
    assert(pending(one.drop_last()) =~= Seq::<ReferenceView>::empty());
    assert(pending(one) =~= list_refs(list, false) + pending(one.drop_last()));
    assert(pending(one) =~= list_refs(list, false));
}

/// Searching the bodies that one node sets aside finds what lies below it.
pub proof fn lemma_pending_bodies(node: Node, top: bool)
    ensures
        pending(node.bodies(top)) == node_below(node, top),
{
    match node {
        Node::Macro { nodes, .. } => {
            lemma_pending_one(nodes);
        },
        Node::BlockDef { nodes, .. } => {
            lemma_pending_one(nodes);
        },
        Node::FilterBlock { nodes, .. } => {
            lemma_pending_one(nodes);
        },
        Node::If { branches, .. } => {
            lemma_pending_lists(branches, branches.len() as nat);
            assert(branches@.take(branches.len() as int) =~= branches@);
        },
        Node::Loop { body, else_nodes, .. } => {
            lemma_pending_one(body);
            lemma_pending_one(else_nodes);
            lemma_pending_concat(seq![body], seq![else_nodes]);
            assert(seq![body] + seq![else_nodes] =~= seq![body, else_nodes]);
        },
        Node::Match { arms, .. } => {
            lemma_pending_lists(arms, arms.len() as nat);
            assert(arms@.take(arms.len() as int) =~= arms@);
        },
        _ => {},
    }
}

/// Searching the lists that the first `n` nodes of a list set aside finds
/// what lies below those nodes.
pub proof fn lemma_pending_pushes(list: Vec<Node>, n: nat, top: bool)
    requires
        n <= list.len(),
    ensures
        pending(pushes(list@.take(n as int), top)) == below(list, n, top),
    decreases n,
{
    if n > 0 {
        let prev = list@.take(n - 1);
        assert(list@.take(n as int).drop_last() =~= prev);
        assert(list@.take(n as int).last() == list[n - 1]);
        lemma_pending_pushes(list, (n - 1) as nat, top);
        lemma_pending_concat(pushes(prev, top), list[n - 1].bodies(top));
        lemma_pending_bodies(list[n - 1], top);
    }
}

// A measure of the work that a stack of lists still holds: one for each list
// and one for each node, at every depth.

spec fn list_weight(list: Vec<Node>) -> nat
    decreases list, list.len() + 1,
{
    1 + nodes_weight(list, list.len() as nat)
}

spec fn nodes_weight(list: Vec<Node>, n: nat) -> nat
    decreases list, n,
{
    if n == 0 || n > list.len() {
        0
    } else {
        node_weight(list[n - 1]) + nodes_weight(list, (n - 1) as nat)
    }
}

spec fn node_weight(node: Node) -> nat
    decreases node, 0nat,
{
    1 + match node {
        Node::Macro { nodes, .. } => list_weight(nodes),
        Node::BlockDef { nodes, .. } => list_weight(nodes),
        Node::FilterBlock { nodes, .. } => list_weight(nodes),
        Node::If { branches, .. } => lists_weight(branches, branches.len() as nat),
        Node::Loop { body, else_nodes, .. } => list_weight(body) + list_weight(else_nodes),
        Node::Match { arms, .. } => lists_weight(arms, arms.len() as nat),
        _ => 0,
    }
}

spec fn lists_weight(lists: Vec<Vec<Node>>, n: nat) -> nat
    decreases lists, n,
{
    if n == 0 || n > lists.len() {
        0
    } else {
        list_weight(lists[n - 1]) + lists_weight(lists, (n - 1) as nat)
    }
}

spec fn stack_weight(stack: Seq<Vec<Node>>) -> nat
    decreases stack.len(),
{
    if stack.len() == 0 {
        0
    } else {
        list_weight(stack.last()) + stack_weight(stack.drop_last())
    }
}

proof fn lemma_weight_concat(a: Seq<Vec<Node>>, b: Seq<Vec<Node>>)
    ensures
        stack_weight(a + b) == stack_weight(a) + stack_weight(b),
    decreases b.len(),
{
    if b.len() == 0 {
        assert(a + b =~= a);
    } else {
        assert((a + b).drop_last() =~= a + b.drop_last());
        assert((a + b).last() == b.last());
        lemma_weight_concat(a, b.drop_last());
    }
}

proof fn lemma_weight_lists(lists: Vec<Vec<Node>>, n: nat)
    requires
        n <= lists.len(),
    ensures
        stack_weight(lists@.take(n as int)) == lists_weight(lists, n),
    decreases n,
{
    if n > 0 {
        lemma_weight_lists(lists, (n - 1) as nat);
        assert(lists@.take(n as int).drop_last() =~= lists@.take(n - 1));
        assert(lists@.take(n as int).last() == lists[n - 1]);
    }
}

proof fn lemma_weight_one(list: Vec<Node>)
    ensures
        stack_weight(seq![list]) == list_weight(list),
{
    let one = seq![list];
    assert(one.drop_last() =~= Seq::<Vec<Node>>::empty());
    assert(one.last() == list);
    assert(stack_weight(one.drop_last()) == 0);
    assert(stack_weight(one) == list_weight(one.last()) + stack_weight(one.drop_last()));
}

proof fn lemma_weight_bodies(node: Node, top: bool)
    ensures
        stack_weight(node.bodies(top)) < node_weight(node),
{
    match node {
        Node::Macro { nodes, .. } => {
            lemma_weight_one(nodes);
        },
        Node::BlockDef { nodes, .. } => {
            lemma_weight_one(nodes);
        },
        Node::FilterBlock { nodes, .. } => {
            lemma_weight_one(nodes);
        },
        Node::If { branches, .. } => {
            lemma_weight_lists(branches, branches.len() as nat);
            assert(branches@.take(branches.len() as int) =~= branches@);
        },
        Node::Loop { body, else_nodes, .. } => {
            lemma_weight_one(body);
            lemma_weight_one(else_nodes);
            lemma_weight_concat(seq![body], seq![else_nodes]);
            assert(seq![body] + seq![else_nodes] =~= seq![body, else_nodes]);
        },
        Node::Match { arms, .. } => {
            lemma_weight_lists(arms, arms.len() as nat);
            assert(arms@.take(arms.len() as int) =~= arms@);
        },
        _ => {},
    }
}

proof fn lemma_weight_pushes(list: Vec<Node>, n: nat, top: bool)
    requires
        n <= list.len(),
    ensures
        stack_weight(pushes(list@.take(n as int), top)) <= nodes_weight(list, n),
    decreases n,
{
    if n > 0 {
        let prev = list@.take(n - 1);
        assert(list@.take(n as int).drop_last() =~= prev);
        assert(list@.take(n as int).last() == list[n - 1]);
        lemma_weight_pushes(list, (n - 1) as nat, top);
        lemma_weight_concat(pushes(prev, top), list[n - 1].bodies(top));
        lemma_weight_bodies(list[n - 1], top);
    }
}

/// Sets every list of `lists` aside on the stack, in order.
fn set_aside<'a>(lists: &'a Vec<Vec<Node>>, nested: &mut Vec<&'a Vec<Node>>)
    ensures
        lists_of(final(nested)@) == lists_of(old(nested)@) + lists@,
{
    let n: usize = lists.len();
    let mut j: usize = 0;
    while j < n
        invariant
            j <= n,
            n == lists.len(),
            lists_of(nested@) == lists_of(old(nested)@) + lists@.take(j as int),
        decreases n - j,
    {
        let ghost before = nested@;
        nested.push(&lists[j]);
        proof {
            assert(lists_of(nested@) =~= lists_of(before).push(lists[j as int]));
            assert(lists@.take(j + 1) =~= lists@.take(j as int).push(lists[j as int]));
        }
        j = j + 1;
    }
    proof {
        assert(lists@.take(n as int) =~= lists@);
    }
}

/// Sets one list aside on the stack.
fn set_aside_one<'a>(list: &'a Vec<Node>, nested: &mut Vec<&'a Vec<Node>>)
    ensures
        lists_of(final(nested)@) == lists_of(old(nested)@) + seq![*list],
{
    nested.push(list);
    proof {
        assert(lists_of(nested@) =~= lists_of(old(nested)@) + seq![*list]);
    }
}

/// Records a reference.
fn found(out: &mut Vec<Reference>, kind: RefKind, path: &String, span: Span)
    ensures
        refs_view(final(out)@) == refs_view(old(out)@).push(
            ReferenceView { kind, path: path@, span },
        ),
{
    out.push(Reference { kind, path: path.clone(), span });
    proof {
        assert(refs_view(out@) =~= refs_view(old(out)@).push(
            ReferenceView { kind, path: path@, span },
        ));
    }
}

/// Sweeps one node list: records the references that its nodes make
/// themselves and sets their bodies aside for later sweeps.
fn sweep<'a>(
    nodes: &'a Vec<Node>,
    top: bool,
    out: &mut Vec<Reference>,
    nested: &mut Vec<&'a Vec<Node>>,
)
    ensures
        refs_view(final(out)@) == refs_view(old(out)@) + directives(nodes@, top),
        lists_of(final(nested)@) == lists_of(old(nested)@) + pushes(nodes@, top),
{
    let n: usize = nodes.len();
    let mut i: usize = 0;
    while i < n
        invariant
            i <= n,
            n == nodes.len(),
            refs_view(out@) == refs_view(old(out)@) + directives(nodes@.take(i as int), top),
            lists_of(nested@) == lists_of(old(nested)@) + pushes(nodes@.take(i as int), top),
        decreases n - i,
    {
        proof {
            assert(nodes@.take(i + 1).drop_last() =~= nodes@.take(i as int));
            assert(nodes@.take(i + 1).last() == nodes[i as int]);
        }
        let ghost out_before = refs_view(out@);
        let ghost nested_before = lists_of(nested@);
        match &nodes[i] {
            Node::Extends { path, span } => {
                if top {
                    found(out, RefKind::Extends, path, *span);
                }
            },
            Node::Import { path, span } => {
                if top {
                    found(out, RefKind::Import, path, *span);
                }
            },
            Node::Include { path, span } => {
                found(out, RefKind::Include, path, *span);
            },
            Node::Macro { nodes: body, .. } => {
                if top {
                    set_aside_one(body, nested);
                }
            },
            Node::BlockDef { nodes: body, .. } => {
                set_aside_one(body, nested);
            },
            Node::FilterBlock { nodes: body, .. } => {
                set_aside_one(body, nested);
            },
            Node::If { branches, .. } => {
                set_aside(branches, nested);
            },
            Node::Loop { body, else_nodes, .. } => {
                set_aside_one(body, nested);
                set_aside_one(else_nodes, nested);
                proof {
                    assert(seq![*body] + seq![*else_nodes] =~= seq![*body, *else_nodes]);
                }
            },
            Node::Match { arms, .. } => {
                set_aside(arms, nested);
            },
            _ => {},
        }
        proof {
            let node = nodes[i as int];
            assert(refs_view(out@) =~= match node.directive(top) {
                Some(r) => out_before.push(r),
                None => out_before,
            });
            assert(lists_of(nested@) =~= nested_before + node.bodies(top));
            assert(refs_view(out@) =~= refs_view(old(out)@) + directives(
                nodes@.take(i + 1),
                top,
            ));
            assert(lists_of(nested@) =~= lists_of(old(nested)@) + pushes(
                nodes@.take(i + 1),
                top,
            ));
        }
        i = i + 1;
    }
    proof {
        assert(nodes@.take(n as int) =~= nodes@);
    }
}

/// Finds every reference that a template makes to another template, in the
/// order of discovery.
///
/// The root list is swept first; `extends`, `import` and macro definitions
/// count there only. Bodies wait on a stack and are swept last in, first
/// out; `include` counts in each of them.
pub fn scan(root: &Vec<Node>) -> (refs: Vec<Reference>)
    ensures
        refs_view(refs@) == spec_scan(*root),
{
    let mut out: Vec<Reference> = Vec::new();
    let mut nested: Vec<&Vec<Node>> = Vec::new();
    sweep(root, true, &mut out, &mut nested);
    proof {
        assert(refs_view(Seq::<Reference>::empty()) =~= Seq::<ReferenceView>::empty());
        assert(lists_of(Seq::<&Vec<Node>>::empty()) =~= Seq::<Vec<Node>>::empty());
        assert(root@.take(root.len() as int) =~= root@);
        lemma_pending_pushes(*root, root.len() as nat, true);
        assert(lists_of(nested@) =~= pushes(root@, true));
        assert(refs_view(out@) =~= directives(root@, true));
    }
    while nested.len() > 0
        invariant
            refs_view(out@) + pending(lists_of(nested@)) == spec_scan(*root),
        decreases stack_weight(lists_of(nested@)),
    {
        let ghost stack = lists_of(nested@);
        let ghost out_before = refs_view(out@);
        let nodes = nested.pop().unwrap();
        let ghost rest = lists_of(nested@);
        proof {
            assert(rest =~= stack.drop_last());
            assert(*nodes == stack.last());
        }
        sweep(nodes, false, &mut out, &mut nested);
        proof {
            let set = pushes(nodes@, false);
            assert(nodes@.take(nodes.len() as int) =~= nodes@);
            lemma_pending_pushes(*nodes, nodes.len() as nat, false);
            lemma_pending_concat(rest, set);
            lemma_weight_pushes(*nodes, nodes.len() as nat, false);
            lemma_weight_concat(rest, set);
            assert(refs_view(out@) + pending(lists_of(nested@)) =~= out_before + pending(
                stack,
            ));
        }
    }
    proof {
        assert(pending(lists_of(nested@)) =~= Seq::<ReferenceView>::empty());
        assert(refs_view(out@) + Seq::<ReferenceView>::empty() =~= refs_view(out@));
    }
    out
}


/// The order of discovery is the order of a stack: after the root list has
/// been swept, the lists that it set aside are searched from the top of the
/// stack down.
pub proof fn lemma_scan_is_stack_order(root: Vec<Node>)
    ensures
        spec_scan(root) == directives(root@, true) + pending(pushes(root@, true)),
{
    assert(root@.take(root.len() as int) =~= root@);
    lemma_pending_pushes(root, root.len() as nat, true);
}

/// Whether every reference of `refs` is an `include`.
pub open spec fn only_includes(refs: Seq<ReferenceView>) -> bool {
    forall|k: int| 0 <= k < refs.len() ==> (#[trigger] refs[k]).kind == RefKind::Include
}

proof fn lemma_directives_nested(list: Seq<Node>)
    ensures
        only_includes(directives(list, false)),
    decreases list.len(),
{
    if list.len() > 0 {
        lemma_directives_nested(list.drop_last());
    }
}

proof fn lemma_list_nested(list: Vec<Node>)
    ensures
        only_includes(list_refs(list, false)),
    decreases list, list.len() + 1,
{
    lemma_directives_nested(list@);
    lemma_below_includes(list, list.len() as nat, false);
}

proof fn lemma_node_below_includes(node: Node, top: bool)
    ensures
        only_includes(node_below(node, top)),
    decreases node, 0nat,
{
    match node {
        Node::Macro { nodes, .. } => {
            lemma_list_nested(nodes);
        },
        Node::BlockDef { nodes, .. } => {
            lemma_list_nested(nodes);
        },
        Node::FilterBlock { nodes, .. } => {
            lemma_list_nested(nodes);
        },
        Node::If { branches, .. } => {
            lemma_lists_nested(branches, branches.len() as nat);
        },
        Node::Loop { body, else_nodes, .. } => {
            lemma_list_nested(body);
            lemma_list_nested(else_nodes);
        },
        Node::Match { arms, .. } => {
            lemma_lists_nested(arms, arms.len() as nat);
        },
        _ => {},
    }
}

proof fn lemma_lists_nested(lists: Vec<Vec<Node>>, n: nat)
    ensures
        only_includes(lists_refs(lists, n)),
    decreases lists, n,
{
    if n > 0 && n <= lists.len() {
        lemma_list_nested(lists[n - 1]);
        lemma_lists_nested(lists, (n - 1) as nat);
    }
}

/// Whatever is found in the bodies of a list's nodes is an `include`,
/// whether the list is the root of its template or not: below the root an
/// `extends` or an `import` is never taken for a reference.
pub proof fn lemma_below_includes(list: Vec<Node>, n: nat, top: bool)
    ensures
        only_includes(below(list, n, top)),
    decreases list, n,
{
    if n > 0 && n <= list.len() {
        lemma_node_below_includes(list[n - 1], top);
        lemma_below_includes(list, (n - 1) as nat, top);
    }
}

/// The references of a template are the directives of its root nodes,
/// followed by `include`s only. So an `extends` or `import` that stands
/// inside a block, a branch, a loop, a match arm or a macro contributes
/// nothing.
pub proof fn lemma_inheritance_is_top_level(root: Vec<Node>)
    ensures
        spec_scan(root) == directives(root@, true) + below(root, root.len() as nat, true),
        only_includes(below(root, root.len() as nat, true)),
{
    lemma_below_includes(root, root.len() as nat, true);
}


/// Whether no `include` stands in a list, at any depth.
pub open spec fn list_has_no_include(list: Vec<Node>) -> bool
    decreases list, list.len() + 1,
{
    nodes_have_no_include(list, list.len() as nat)
}

/// Whether no `include` stands in the nodes `list[..n]`, at any depth.
pub open spec fn nodes_have_no_include(list: Vec<Node>, n: nat) -> bool
    decreases list, n,
{
    n == 0 || n > list.len() || (node_has_no_include(list[n - 1]) && nodes_have_no_include(
        list,
        (n - 1) as nat,
    ))
}

/// Whether a node is no `include` and holds none, at any depth.
pub open spec fn node_has_no_include(node: Node) -> bool
    decreases node, 0nat,
{
    match node {
        Node::Include { .. } => false,
        Node::Macro { nodes, .. } => list_has_no_include(nodes),
        Node::BlockDef { nodes, .. } => list_has_no_include(nodes),
        Node::FilterBlock { nodes, .. } => list_has_no_include(nodes),
        Node::If { branches, .. } => lists_have_no_include(branches, branches.len() as nat),
        Node::Loop { body, else_nodes, .. } => list_has_no_include(body) && list_has_no_include(
            else_nodes,
        ),
        Node::Match { arms, .. } => lists_have_no_include(arms, arms.len() as nat),
        _ => true,
    }
}

/// Whether no `include` stands in the lists `lists[..n]`, at any depth.
pub open spec fn lists_have_no_include(lists: Vec<Vec<Node>>, n: nat) -> bool
    decreases lists, n,
{
    n == 0 || n > lists.len() || (list_has_no_include(lists[n - 1]) && lists_have_no_include(
        lists,
        (n - 1) as nat,
    ))
}

/// Whether a node is an `extends` or an `import`.
pub open spec fn is_inheritance(node: Node) -> bool {
    node is Extends || node is Import
}

proof fn lemma_no_directives(list: Vec<Node>, n: nat, top: bool)
    requires
        n <= list.len(),
        nodes_have_no_include(list, n),
        top ==> forall|i: int| 0 <= i < n ==> !is_inheritance(#[trigger] list[i]),
    ensures
        directives(list@.take(n as int), top).len() == 0,
    decreases n,
{
    if n > 0 {
        assert(list@.take(n as int).drop_last() =~= list@.take(n - 1));
        assert(list@.take(n as int).last() == list[n - 1]);
        assert(!top || !is_inheritance(list[n - 1]));
        assert(node_has_no_include(list[n - 1]));
        assert(list[n - 1].directive(top) is None);
        lemma_no_directives(list, (n - 1) as nat, top);
        assert(directives(list@.take(n as int), top) == directives(list@.take(n - 1), top));
    }
}

proof fn lemma_list_without_include(list: Vec<Node>)
    requires
        list_has_no_include(list),
    ensures
        list_refs(list, false).len() == 0,
    decreases list, list.len() + 1,
{
    lemma_no_directives(list, list.len() as nat, false);
    assert(list@.take(list.len() as int) =~= list@);
    lemma_nothing_below(list, list.len() as nat, false);
}

proof fn lemma_node_without_include(node: Node, top: bool)
    requires
        node_has_no_include(node),
    ensures
        node_below(node, top).len() == 0,
    decreases node, 0nat,
{
    match node {
        Node::Macro { nodes, .. } => {
            lemma_list_without_include(nodes);
        },
        Node::BlockDef { nodes, .. } => {
            lemma_list_without_include(nodes);
        },
        Node::FilterBlock { nodes, .. } => {
            lemma_list_without_include(nodes);
        },
        Node::If { branches, .. } => {
            lemma_lists_without_include(branches, branches.len() as nat);
        },
        Node::Loop { body, else_nodes, .. } => {
            lemma_list_without_include(body);
            lemma_list_without_include(else_nodes);
        },
        Node::Match { arms, .. } => {
            lemma_lists_without_include(arms, arms.len() as nat);
        },
        _ => {},
    }
}

proof fn lemma_lists_without_include(lists: Vec<Vec<Node>>, n: nat)
    requires
        lists_have_no_include(lists, n),
    ensures
        lists_refs(lists, n).len() == 0,
    decreases lists, n,
{
    if n > 0 && n <= lists.len() {
        lemma_list_without_include(lists[n - 1]);
        lemma_lists_without_include(lists, (n - 1) as nat);
    }
}

/// Where no `include` stands in the nodes of a list, nothing is found in
/// their bodies: whatever else stands there, an `extends` or an `import`
/// too, is passed over.
pub proof fn lemma_nothing_below(list: Vec<Node>, n: nat, top: bool)
    requires
        nodes_have_no_include(list, n),
    ensures
        below(list, n, top).len() == 0,
    decreases list, n,
{
    if n > 0 && n <= list.len() {
        lemma_node_without_include(list[n - 1], top);
        lemma_nothing_below(list, (n - 1) as nat, top);
    }
}

/// A template in which no `include` stands, and in which `extends` and
/// `import` stand only below the root, refers to no other template.
pub proof fn lemma_nested_inheritance_makes_no_reference(root: Vec<Node>)
    requires
        list_has_no_include(root),
        forall|i: int| 0 <= i < root.len() ==> !is_inheritance(#[trigger] root[i]),
    ensures
        spec_scan(root).len() == 0,
{
    lemma_no_directives(root, root.len() as nat, true);
    assert(root@.take(root.len() as int) =~= root@);
    lemma_nothing_below(root, root.len() as nat, true);
}

} // verus!
