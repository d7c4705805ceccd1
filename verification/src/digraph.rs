//! What the library takes from petgraph. Verus does not read petgraph's code:
//! the contracts in this file say what its source shows, and the proofs of the
//! library rest on them.

use crate::graph::{hop_cost, is_goal, remaining_estimate};
use crate::walk::{ids, reachable, shortest_between, EdgeMap, Successors};
use petgraph::algo::astar;
use petgraph::graphmap::DiGraphMap;
use petgraph::graphmap::GraphMap;
use petgraph::Directed;
use petgraph::Direction;
use std::hash::BuildHasher;
use vstd::prelude::*;

verus! {

/// petgraph's marker for graphs whose edges have a direction.
#[verifier::external_type_specification]
#[verifier::external_body]
pub struct ExDirected(Directed);

/// petgraph's `GraphMap`: a graph whose nodes are its keys, with at most one
/// edge for each ordered pair of nodes.
#[verifier::external_type_specification]
#[verifier::external_body]
#[verifier::reject_recursive_types(N)]
#[verifier::reject_recursive_types(E)]
#[verifier::reject_recursive_types(Ty)]
#[verifier::reject_recursive_types(S)]
pub struct ExGraphMap<N, E, Ty, S: BuildHasher>(GraphMap<N, E, Ty, S>);

/// The nodes of a graph, each as the identifier it spells out and each with
/// the nodes that its outgoing edges lead to, in the order in which the graph
/// walks them: a later edge stands behind the earlier ones of its node.
pub uninterp spec fn graph_successors(g: DiGraphMap<&str, &str>) -> Successors;

/// The edges of a graph: the ordered pairs of identifiers that an edge joins,
/// each with the label of its edge.
pub uninterp spec fn graph_edges(g: DiGraphMap<&str, &str>) -> EdgeMap;

/// The nodes of a graph.
pub open spec fn graph_nodes(g: DiGraphMap<&str, &str>) -> Set<Seq<char>> {
    graph_successors(g).dom()
}

/// The walk that petgraph's search returns from `start` to `end` in a graph
/// with these successors, where every edge costs the same and nothing is
/// estimated; none where it returns none. The search walks the successors of
/// a node in their order, and decides by nothing else.
pub uninterp spec fn astar_choice(successors: Successors, start: Seq<char>, end: Seq<char>) -> Option<Seq<Seq<char>>>;

/// `successors` with `n` as a node: a new node has no successors yet.
pub open spec fn with_node(successors: Successors, n: Seq<char>) -> Successors {
    if successors.contains_key(n) {
        successors
    } else {
        successors.insert(n, Seq::empty())
    }
}

/// `successors` with a new edge from `a` to `b`: both are nodes, and `b` is
/// the last successor of `a`.
pub open spec fn with_edge(successors: Successors, a: Seq<char>, b: Seq<char>) -> Successors {
    let both = with_node(with_node(successors, a), b);
    both.insert(a, both[a].push(b))
}

/// The walk of a search result, as the identifiers it spells out.
pub open spec fn chosen(found: Option<(i32, Vec<&str>)>) -> Option<Seq<Seq<char>>> {
    match found {
        Some((_, path)) => Some(ids(path@)),
        None => None,
    }
}

/// The largest number of nodes for which every hop count fits the cost type.
pub const MAX_NODES: usize = 0x7fff_ffff;

/// `s` has exactly `n` members.
pub open spec fn has_size(s: Set<Seq<char>>, n: nat) -> bool {
    s.finite() && s.len() == n
}

/// A graph small enough for hop counts to be told in the cost type.
pub open spec fn countable(g: DiGraphMap<&str, &str>) -> bool {
    graph_nodes(g).finite() && graph_nodes(g).len() <= MAX_NODES
}

/// `GraphMap::new`: a graph without nodes and without edges.
#[verifier::external_body]
pub(crate) fn graph_new<'a>() -> (g: DiGraphMap<&'a str, &'a str>)
    ensures
        graph_successors(g) == Successors::empty(),
        graph_edges(g) == EdgeMap::empty(),
{
    DiGraphMap::new()
}

/// `GraphMap::add_node`: the node is among the nodes afterwards, at first
/// without successors; the other nodes and all edges stay as they were.
#[verifier::external_body]
pub(crate) fn graph_add_node<'a>(g: &mut DiGraphMap<&'a str, &'a str>, n: &'a str)
    ensures
        graph_successors(*final(g)) == with_node(graph_successors(*old(g)), n@),
        graph_edges(*final(g)) == graph_edges(*old(g)),
{
    g.add_node(n);
}

/// `GraphMap::add_edge` on a directed graph: the edge from `a` to `b` carries
/// `label` afterwards, in place of the label that an earlier edge from `a` to
/// `b` carried, and the other edges stay as they were. An edge that is new
/// makes both ends nodes, and `b` the last successor of `a`; one that only
/// gets a new label leaves nodes and successors as they were.
#[verifier::external_body]
pub(crate) fn graph_add_edge<'a>(
    g: &mut DiGraphMap<&'a str, &'a str>,
    a: &'a str,
    b: &'a str,
    label: &'a str,
)
    ensures
        graph_successors(*final(g)) == if graph_edges(*old(g)).contains_key((a@, b@)) {
            graph_successors(*old(g))
        } else {
            with_edge(graph_successors(*old(g)), a@, b@)
        },
        graph_edges(*final(g)) == graph_edges(*old(g)).insert((a@, b@), label@),
{
    g.add_edge(a, b, label);
}

/// `GraphMap::contains_node`: whether `n` is a node of the graph.
#[verifier::external_body]
pub(crate) fn graph_contains_node<'a>(g: &DiGraphMap<&'a str, &'a str>, n: &'a str) -> (found: bool)
    ensures
        found == graph_nodes(*g).contains(n@),
{
    g.contains_node(n)
}

/// `GraphMap::node_count`: the number of nodes of the graph.
#[verifier::external_body]
pub(crate) fn graph_node_count<'a>(g: &DiGraphMap<&'a str, &'a str>) -> (count: usize)
    ensures
        has_size(graph_nodes(*g), count as nat),
{
    g.node_count()
}

/// The targets and labels that a list of string pairs spells out.
pub open spec fn pairs(out: Seq<(&str, &str)>) -> Seq<(Seq<char>, Seq<char>)> {
    out.map_values(|p: (&str, &str)| (p.0@, p.1@))
}

/// `out` lists the edges that leave `n`: each entry is the target and the
/// label of such an edge, and every such edge has an entry.
pub open spec fn lists_outgoing(edges: EdgeMap, n: Seq<char>, out: Seq<(Seq<char>, Seq<char>)>) -> bool {
    &&& forall|k: int|
        0 <= k < out.len() ==> edges.contains_key((n, (#[trigger] out[k]).0)) && edges[(n, out[k].0)]
            == out[k].1
    &&& forall|t: Seq<char>| #[trigger]
        edges.contains_key((n, t)) ==> exists|k: int| 0 <= k < out.len() && (#[trigger] out[k]).0 == t
}

/// `GraphMap::edges_directed` with `Direction::Outgoing`: the edges that leave
/// `n`, each as the node it leads to and its label. Every edge that leaves `n`
/// is among them; in which order they come is left open.
#[verifier::external_body]
pub(crate) fn graph_outgoing<'a>(g: &DiGraphMap<&'a str, &'a str>, n: &'a str) -> (out: Vec<(&'a str, &'a str)>)
    ensures
        lists_outgoing(graph_edges(*g), n@, pairs(out@)),
{
    g.edges_directed(n, Direction::Outgoing).map(|edge| (edge.1, *edge.2)).collect()
}

/// `petgraph::algo::astar` with `is_goal` as the goal, `hop_cost` for every
/// edge and `remaining_estimate` for every node. It finds a walk from `start`
/// to `end` whenever there is one, and the walk it returns is a shortest one;
/// the cost it returns is the number of edges of that walk. Which of several
/// shortest walks is returned follows from the order of the successors of each
/// node alone, and has the name `astar_choice`. The search adds up hop counts
/// of at most the number of nodes, so the graph has to be small enough for
/// those to fit the cost type.
#[verifier::external_body]
pub(crate) fn graph_astar<'a>(
    g: &'a DiGraphMap<&'a str, &'a str>,
    start: &'a str,
    end: &'a str,
) -> (found: Option<(i32, Vec<&'a str>)>)
    requires
        countable(*g),
    ensures
        found.is_some() <==> reachable(graph_edges(*g), start@, end@),
        found matches Some((cost, path)) ==> shortest_between(
            graph_edges(*g),
            ids(path@),
            start@,
            end@,
        ) && cost == path@.len() - 1,
        chosen(found) == astar_choice(graph_successors(*g), start@, end@),
{
    astar(g, start, |node| is_goal(node, end), |_| hop_cost(), |_| remaining_estimate())
}

} // verus!
