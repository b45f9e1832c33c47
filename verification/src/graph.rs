//! The chain of `extends` edges and the error that reports a cycle in it.

use crate::error::{CompileError, CompileErrorView, ErrorKind};
use vstd::prelude::*;
use vstd::string::StringExecFns;

verus! {

/// An `extends` edge: the extending template's path, then its parent's.
pub type Edge = (String, String);

/// The text that `Debug` formatting gives for a path: the path in quotes,
/// with escapes.
pub uninterp spec fn debug_text(s: Seq<char>) -> Seq<char>;

/// The text that pretty `Debug` formatting gives for a list of strings.
pub uninterp spec fn debug_list_text(lines: Seq<Seq<char>>) -> Seq<char>;

/// The values of a sequence of strings.
pub open spec fn lines_view(lines: Seq<String>) -> Seq<Seq<char>> {
    lines.map_values(|l: String| l@)
}

/// Formats a path with std's `{:#?}`, that is `<Path as Debug>::fmt`, on
/// the path that `Path::new` makes of the text. The contract only names the
/// result.
#[verifier::external_body]
fn debug_repr(s: &String) -> (r: String)
    ensures
        r@ == debug_text(s@),
{
    format!("{:#?}", std::path::Path::new(s))
}

/// Formats a list of strings with std's `{:#?}`, that is
/// `<Vec<String> as Debug>::fmt` in its pretty form. The contract only names
/// the result.
#[verifier::external_body]
fn debug_list(lines: &Vec<String>) -> (r: String)
    ensures
        r@ == debug_list_text(lines_view(lines@)),
{
    format!("{:#?}", lines)
}

/// The values of a sequence of edges.
pub open spec fn edges_view(edges: Seq<Edge>) -> Seq<(Seq<char>, Seq<char>)> {
    edges.map_values(|e: Edge| (e.0@, e.1@))
}

/// How one edge is rendered: `source --> target`, both as `Debug` text.
pub open spec fn edge_line(e: (Seq<char>, Seq<char>)) -> Seq<char> {
    debug_text(e.0) + " --> "@ + debug_text(e.1)
}

/// The message of a cyclic-dependency error: every edge of the chain, in the
/// order in which the edges were found.
pub open spec fn cyclic_message(edges: Seq<(Seq<char>, Seq<char>)>) -> Seq<char> {
    "cyclic dependency in graph "@ + debug_list_text(
        edges.map_values(|e: (Seq<char>, Seq<char>)| edge_line(e)),
    )
}

/// The cyclic-dependency error for a chain of edges.
pub open spec fn cyclic_error(edges: Seq<(Seq<char>, Seq<char>)>) -> CompileErrorView {
    CompileErrorView {
        kind: ErrorKind::CyclicDependency,
        message: cyclic_message(edges),
        attribution: None,
    }
}

/// Whether the chain holds the edge from `from` to `to`.
pub fn has_edge(edges: &Vec<Edge>, from: &String, to: &String) -> (b: bool)
    ensures
        b == edges_view(edges@).contains((from@, to@)),
{
    let n: usize = edges.len();
    let mut i: usize = 0;
    while i < n
        invariant
            i <= n,
            n == edges.len(),
            forall|j: int| 0 <= j < i ==> edges_view(edges@)[j] != (from@, to@),
        decreases n - i,
    {
        if edges[i].0 == *from && edges[i].1 == *to {
            assert(edges_view(edges@)[i as int] == (from@, to@));
            return true;
        }
        i = i + 1;
    }
    false
}

/// Reports a cycle among `extends` edges. Always fails; the error's message
/// lists the whole chain.
pub fn cyclic_graph_error(dependency_graph: &Vec<Edge>) -> (r: Result<(), CompileError>)
    ensures
        r is Err,
        r->Err_0@ == cyclic_error(edges_view(dependency_graph@)),
{
    Err(cycle_found(dependency_graph))
}

/// The error that reports a cycle in the chain `dependency_graph`.
pub fn cycle_found(dependency_graph: &Vec<Edge>) -> (e: CompileError)
    ensures
        e@ == cyclic_error(edges_view(dependency_graph@)),
{
    let n: usize = dependency_graph.len();
    let mut lines: Vec<String> = Vec::new();
    let mut i: usize = 0;
    let ghost edges = edges_view(dependency_graph@);
    while i < n
        invariant
            i <= n,
            n == dependency_graph.len(),
            edges == edges_view(dependency_graph@),
            lines_view(lines@) == edges.take(i as int).map_values(
                |e: (Seq<char>, Seq<char>)| edge_line(e),
            ),
        decreases n - i,
    {
        let mut line = debug_repr(&dependency_graph[i].0);
        line.append(" --> ");
        let target = debug_repr(&dependency_graph[i].1);
        line.append(target.as_str());
        proof {
            assert(line@ == edge_line(edges[i as int]));
        }
        let ghost before = lines_view(lines@);
        lines.push(line);
        proof {
            assert(lines_view(lines@) =~= before.push(edge_line(edges[i as int])));
            assert(edges.take(i + 1).map_values(|e: (Seq<char>, Seq<char>)| edge_line(e))
                =~= before.push(edge_line(edges[i as int])));
        }
        i = i + 1;
    }
    proof {
        assert(edges.take(n as int) =~= edges);
    }
    let mut message = String::from_str("cyclic dependency in graph ");
    let list = debug_list(&lines);
    message.append(list.as_str());
    CompileError::no_file_info(ErrorKind::CyclicDependency, message)
}

} // verus!
