//! Whole walks: what holds of the result of every walk, however long.
//!
//! A walk is a start and a sequence of answers. The theorems of this module
//! hold of each walk in which the resolver is a function: the same path,
//! written in the same template, is always located at the same place.

use crate::error::{CompileError, CompileErrorView};
use crate::node::{spec_scan, Node, RefKind};
use crate::walker::{
    lemma_claim_is_pending, edges_ok, empty_walk, finished, lemma_found_wf, lemma_loaded_wf, lemma_parsed_wf, lemma_resume_wf, loaded_item, placeholders_pending, spec_found, spec_loaded, spec_parsed, spec_resolve, spec_resume, CurrentView, ParseTree, StepView, WalkView,
};
use vstd::prelude::*;

verus! {

/// The answer of a collaborator: the text of a file, the tree of a source,
/// or the place of a template.
pub enum Answer {
    Text(Result<String, CompileError>),
    Tree(Result<Vec<Node>, CompileError>),
    Place(Result<String, CompileError>),
}

/// The step that follows an answer. An answer of a kind that the step does
/// not wait for changes nothing.
pub open spec fn spec_step(step: StepView, answer: Answer) -> Result<StepView, CompileErrorView> {
    match (step, answer) {
        (StepView::Load(s), Answer::Text(reply)) => spec_loaded(s, reply),
        (StepView::Parse(s), Answer::Tree(reply)) => spec_parsed(s, reply),
        (StepView::Find(s), Answer::Place(reply)) => spec_found(s, reply),
        _ => Ok(step),
    }
}

/// Where a walk stands after a sequence of answers, or the error that ended
/// it.
pub open spec fn spec_run(step: StepView, answers: Seq<Answer>) -> Result<
    StepView,
    CompileErrorView,
>
    decreases answers.len(),
{
    if answers.len() == 0 {
        Ok(step)
    } else {
        match spec_run(step, answers.drop_last()) {
            Ok(before) => spec_step(before, answers.last()),
            Err(e) => Err(e),
        }
    }
}

/// The place of the template that the reference `k` of a tree names; the
/// tree is that of the template at `path`.
pub open spec fn target_of(
    find: spec_fn(Seq<char>, Seq<char>) -> Seq<char>,
    path: Seq<char>,
    nodes: Vec<Node>,
    k: int,
) -> Seq<char> {
    find(spec_scan(nodes)[k].path, path)
}

/// Whether the first `n` references of a tree lead to claimed templates.
pub open spec fn leads_to_claims(
    find: spec_fn(Seq<char>, Seq<char>) -> Seq<char>,
    claims: Set<Seq<char>>,
    path: Seq<char>,
    nodes: Vec<Node>,
    n: int,
) -> bool {
    forall|k: int| 0 <= k < n ==> claims.contains(#[trigger] target_of(find, path, nodes, k))
}

/// Whether every reference of every recorded tree leads to a claimed
/// template.
pub open spec fn walk_is_closed(
    find: spec_fn(Seq<char>, Seq<char>) -> Seq<char>,
    walk: WalkView,
) -> bool {
    forall|p: Seq<char>| #[trigger]
        walk.map.contains_key(p) && walk.map[p] is Some ==> leads_to_claims(
            find,
            walk.map.dom(),
            p,
            walk.map[p]->0.nodes,
            spec_scan(walk.map[p]->0.nodes).len() as int,
        )
}

/// Whether a result is complete: every reference of every tree in it leads
/// to a template that is in it.
pub open spec fn result_is_closed(
    find: spec_fn(Seq<char>, Seq<char>) -> Seq<char>,
    map: Map<Seq<char>, ParseTree>,
) -> bool {
    forall|p: Seq<char>| #[trigger]
        map.contains_key(p) ==> leads_to_claims(
            find,
            map.dom(),
            p,
            map[p].nodes,
            spec_scan(map[p].nodes).len() as int,
        )
}

/// Whether the references that have been dealt with in `cur` lead to claimed
/// templates.
pub open spec fn dealt_with(
    find: spec_fn(Seq<char>, Seq<char>) -> Seq<char>,
    walk: WalkView,
    cur: CurrentView,
) -> bool {
    leads_to_claims(find, walk.map.dom(), cur.path@, cur.nodes, cur.next as int)
}

/// What holds of every step of a walk whose resolver is `find`.
pub open spec fn on_course(
    find: spec_fn(Seq<char>, Seq<char>) -> Seq<char>,
    step: StepView,
) -> bool {
    match step {
        StepView::Load(s) => walk_is_closed(find, s.walk) && match s.cur {
            Some(cur) => dealt_with(find, s.walk, cur) && s.target@ == target_of(
                find,
                cur.path@,
                cur.nodes,
                cur.next as int,
            ),
            None => true,
        },
        StepView::Parse(s) => walk_is_closed(find, s.walk),
        StepView::Find(s) => walk_is_closed(find, s.walk) && dealt_with(find, s.walk, s.cur),
        StepView::Done(map) => result_is_closed(find, map),
    }
}

/// Whether an answer is the resolver's: a template that is found is found
/// where `find` says.
pub open spec fn agrees(
    find: spec_fn(Seq<char>, Seq<char>) -> Seq<char>,
    step: StepView,
    answer: Answer,
) -> bool {
    step matches StepView::Find(s) && answer matches Answer::Place(Ok(target)) ==> target@
        == target_of(find, s.cur.path@, s.cur.nodes, s.cur.next as int)
}

/// Whether every answer of a walk is the resolver's.
pub open spec fn run_agrees(
    find: spec_fn(Seq<char>, Seq<char>) -> Seq<char>,
    step: StepView,
    answers: Seq<Answer>,
) -> bool
    decreases answers.len(),
{
    answers.len() == 0 || (run_agrees(find, step, answers.drop_last()) && (spec_run(
        step,
        answers.drop_last(),
    ) matches Ok(before) ==> agrees(find, before, answers.last())))
}

proof fn lemma_more_claims(
    find: spec_fn(Seq<char>, Seq<char>) -> Seq<char>,
    walk: WalkView,
    map: Map<Seq<char>, Option<ParseTree>>,
    changed: Seq<char>,
)
    requires
        walk_is_closed(find, walk),
        walk.map.dom().subset_of(map.dom()),
        forall|p: Seq<char>| #[trigger] walk.map.contains_key(p) && p != changed ==> map[p] == walk.map[p],
        forall|p: Seq<char>| #[trigger] map.contains_key(p) && p != changed ==> walk.map.contains_key(p),
        map.contains_key(changed) && map[changed] is Some ==> leads_to_claims(
            find,
            map.dom(),
            changed,
            map[changed]->0.nodes,
            spec_scan(map[changed]->0.nodes).len() as int,
        ),
    ensures
        walk_is_closed(find, WalkView { map, edges: walk.edges, stack: walk.stack }),
{
    let after = WalkView { map, edges: walk.edges, stack: walk.stack };
    assert forall|p: Seq<char>| #[trigger]
        after.map.contains_key(p) && after.map[p] is Some implies leads_to_claims(
        find,
        after.map.dom(),
        p,
        after.map[p]->0.nodes,
        spec_scan(after.map[p]->0.nodes).len() as int,
    ) by {
        if p != changed {
            assert(walk.map.contains_key(p) && walk.map[p] is Some);
            let nodes = walk.map[p]->0.nodes;
            assert forall|k: int| 0 <= k < spec_scan(nodes).len() implies map.dom().contains(
                #[trigger] target_of(find, p, nodes, k),
            ) by {
                assert(walk.map.dom().contains(target_of(find, p, nodes, k)));
            }
        }
    }
}

/// Going on with a search keeps a walk on course.
pub proof fn lemma_resume_on_course(
    find: spec_fn(Seq<char>, Seq<char>) -> Seq<char>,
    walk: WalkView,
    cur: CurrentView,
)
    requires
        edges_ok(walk.edges),
        placeholders_pending(walk, cur.path@),
        cur.next <= spec_scan(cur.nodes).len(),
        walk_is_closed(find, walk),
        dealt_with(find, walk, cur),
    ensures
        on_course(find, spec_resume(walk, cur)),
{
    lemma_resume_wf(walk, cur);
    if cur.next >= spec_scan(cur.nodes).len() {
        let map = walk.map.insert(cur.path@, Some(cur.tree()));
        assert forall|k: int| 0 <= k < spec_scan(cur.nodes).len() implies map.dom().contains(
            #[trigger] target_of(find, cur.path@, cur.nodes, k),
        ) by {
            assert(walk.map.dom().contains(target_of(find, cur.path@, cur.nodes, k)));
        }
        lemma_more_claims(find, walk, map, cur.path@);
        let after = WalkView { map, edges: walk.edges, stack: walk.stack };
        if walk.stack.len() == 0 {
            let result = finished(map);
            assert forall|p: Seq<char>| #[trigger] result.contains_key(p) implies leads_to_claims(
                find,
                result.dom(),
                p,
                result[p].nodes,
                spec_scan(result[p].nodes).len() as int,
            ) by {
                assert(map.contains_key(p) && map[p] is Some);
                assert(after.map.contains_key(p) && after.map[p] is Some);
                let nodes = map[p]->0.nodes;
                assert forall|k: int| 0 <= k < spec_scan(nodes).len() implies result.dom().contains(
                    #[trigger] target_of(find, p, nodes, k),
                ) by {
                    assert(map.dom().contains(target_of(find, p, nodes, k)));
                }
            }
        } else {
            let rest = WalkView { map, edges: walk.edges, stack: walk.stack.drop_last() };
            assert(walk_is_closed(find, after));
            assert(walk_is_closed(find, rest));
        }
    }
}

/// An answer of the resolver's keeps a walk on course and well-formed.
pub proof fn lemma_step_on_course(
    find: spec_fn(Seq<char>, Seq<char>) -> Seq<char>,
    step: StepView,
    answer: Answer,
)
    requires
        step.wf(),
        on_course(find, step),
        agrees(find, step, answer),
    ensures
        spec_step(step, answer) matches Ok(after) ==> after.wf() && on_course(find, after),
{
    match (step, answer) {
        (StepView::Load(s), Answer::Text(reply)) => {
            lemma_loaded_wf(s, reply);
            if let Ok(text) = reply {
                if let Some(cur) = s.cur {
                    let item = loaded_item(s.target, text);
                    let map = s.walk.map.insert(s.target@, None);
                    let walk = WalkView { map, edges: s.walk.edges, stack: s.walk.stack.push(item) };
                    lemma_more_claims(find, s.walk, map, s.target@);
                    assert(walk_is_closed(
                        find,
                        WalkView { map, edges: s.walk.edges, stack: s.walk.stack },
                    ));
                    assert(walk_is_closed(find, walk));
                    let next = cur.advanced();
                    assert forall|k: int| 0 <= k < next.next implies walk.map.dom().contains(
                        #[trigger] target_of(find, next.path@, next.nodes, k),
                    ) by {
                        if k < cur.next {
                            assert(s.walk.map.dom().contains(
                                target_of(find, cur.path@, cur.nodes, k),
                            ));
                        }
                    }
                    lemma_claim_is_pending(s.walk, cur.path@, item);
                    lemma_resume_on_course(find, walk, next);
                }
            }
        },
        (StepView::Parse(s), Answer::Tree(reply)) => {
            lemma_parsed_wf(s, reply);
            if let Ok(nodes) = reply {
                let cur = CurrentView { path: s.item.path, source: s.item.source, nodes, next: 0 };
                lemma_resume_on_course(find, s.walk, cur);
            }
        },
        (StepView::Find(s), Answer::Place(reply)) => {
            lemma_found_wf(s, reply);
            if let Ok(target) = reply {
                if spec_found(s, reply) is Ok {
                    let cur = s.cur;
                    let walk = match spec_found(s, reply) {
                        Ok(StepView::Load(l)) => l.walk,
                        _ => WalkView {
                            map: s.walk.map,
                            edges: if cur.reference().kind == RefKind::Extends {
                                s.walk.edges.push((cur.path@, target@))
                            } else {
                                s.walk.edges
                            },
                            stack: s.walk.stack,
                        },
                    };
                    assert(walk.map == s.walk.map);
                    assert(walk_is_closed(find, walk));
                    if s.walk.map.contains_key(target@) {
                        let next = cur.advanced();
                        assert forall|k: int| 0 <= k < next.next implies walk.map.dom().contains(
                            #[trigger] target_of(find, next.path@, next.nodes, k),
                        ) by {
                            if k < cur.next {
                                assert(s.walk.map.dom().contains(
                                    target_of(find, cur.path@, cur.nodes, k),
                                ));
                            }
                        }
                        lemma_resume_on_course(find, walk, next);
                    }
                }
            }
        },
        _ => {},
    }
}

/// Every walk stays well-formed and on course, from its start on and
/// whatever the answers are, as long as the resolver is a function.
pub proof fn lemma_run_on_course(
    find: spec_fn(Seq<char>, Seq<char>) -> Seq<char>,
    entry_path: String,
    entry_source: Option<String>,
    answers: Seq<Answer>,
)
    requires
        run_agrees(find, spec_resolve(entry_path, entry_source), answers),
    ensures
        spec_run(spec_resolve(entry_path, entry_source), answers) matches Ok(step) ==> step.wf()
            && on_course(find, step),
    decreases answers.len(),
{
    let start = spec_resolve(entry_path, entry_source);
    if answers.len() == 0 {
        assert(walk_is_closed(find, empty_walk()));
        assert(placeholders_pending(empty_walk(), entry_path@));
        assert(edges_ok(empty_walk().edges));
    } else {
        lemma_run_on_course(find, entry_path, entry_source, answers.drop_last());
        if let Ok(before) = spec_run(start, answers.drop_last()) {
            lemma_step_on_course(find, before, answers.last());
        }
    }
}

/// The result of a walk is complete: each template in it has its tree, and
/// every template that a tree in it refers to is in it too.
pub proof fn lemma_result_is_closed(
    find: spec_fn(Seq<char>, Seq<char>) -> Seq<char>,
    entry_path: String,
    entry_source: Option<String>,
    answers: Seq<Answer>,
)
    requires
        run_agrees(find, spec_resolve(entry_path, entry_source), answers),
    ensures
        spec_run(spec_resolve(entry_path, entry_source), answers) matches Ok(StepView::Done(map))
            ==> result_is_closed(find, map),
{
    lemma_run_on_course(find, entry_path, entry_source, answers);
}

} // verus!
