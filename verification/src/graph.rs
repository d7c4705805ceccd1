use crate::digraph::{
    astar_choice, chosen, countable, graph_add_edge, graph_add_node, graph_astar,
    graph_contains_node, graph_edges, graph_new, graph_node_count, graph_nodes, graph_outgoing,
    graph_successors, has_size, pairs, with_node, MAX_NODES,
};
use crate::error::Error;
use crate::relationship::{
    edge_labels, identifiers, lemma_edge_labels_push, lemma_edges_join_identifiers,
    lemma_identifiers_bounded, lemma_identifiers_push, lemma_successors_push, records,
    successors_of, Relationship,
};
use crate::text::str_eq;
use crate::walk::{
    annotated, annotated_len, has_hops, hop, ids, joins_nodes, lemma_shortest_is_simple,
    lemma_walk_within, reachable, shortest_between, within, Successors,
};
use petgraph::graphmap::DiGraphMap;
use vstd::prelude::*;
use vstd::string::StringExecFns;

verus! {

/// Every edge of the graph joins two of its nodes.
pub open spec fn closed(graph: DiGraphMap<&str, &str>) -> bool {
    joins_nodes(graph_nodes(graph), graph_edges(graph))
}

/// Builds the graph of a list of relationships. Its nodes are the identifiers
/// that occur in the list, as a source or as a target, each once. For each
/// relationship, in the order of the list, both identifiers are made nodes
/// where they are not nodes yet, and the edge from the source to the target
/// gets the relationship's label: where several relationships lead from one
/// identifier to one other, the label of the last of them stays, and the edge
/// keeps the place among the edges of its source that the first of them gave
/// it. The graph has at most two nodes for each relationship.
pub fn create_graph<'a>(relationships: &'a [Relationship]) -> (graph: DiGraphMap<&'a str, &'a str>)
    ensures
        graph_nodes(graph) == identifiers(records(relationships@)),
        graph_edges(graph) == edge_labels(records(relationships@)),
        graph_successors(graph) == successors_of(records(relationships@)),
        has_size(graph_nodes(graph), identifiers(records(relationships@)).len()),
        graph_nodes(graph).len() <= 2 * relationships@.len(),
        closed(graph),
{
    let ghost recs = records(relationships@);
    let mut graph = graph_new();
    proof {
        assert(identifiers(recs.take(0)) =~= Set::<Seq<char>>::empty());
        assert(edge_labels(recs.take(0)) =~= Map::<(Seq<char>, Seq<char>), Seq<char>>::empty());
        assert(successors_of(recs.take(0)) =~= Successors::empty());
    }
    let mut i: usize = 0;
    while i < relationships.len()
        invariant
            i <= relationships@.len(),
            recs == records(relationships@),
            graph_nodes(graph).finite(),
            graph_nodes(graph) == identifiers(recs.take(i as int)),
            graph_edges(graph) == edge_labels(recs.take(i as int)),
            graph_successors(graph) == successors_of(recs.take(i as int)),
        decreases relationships@.len() - i,
    {
        let ghost held = graph_successors(graph);
        let relationship = &relationships[i];
        let source = relationship.spdx_element_id.as_str();
        let target = relationship.related_spdx_element.as_str();
        if !graph_contains_node(&graph, source) {
            graph_add_node(&mut graph, source);
        }
        if !graph_contains_node(&graph, target) {
            graph_add_node(&mut graph, target);
        }
        proof {
            assert(graph_successors(graph) == with_node(with_node(held, source@), target@));
        }
        graph_add_edge(&mut graph, source, target, relationship.relationship_type.as_str());
        proof {
            assert(recs.take(i + 1) =~= recs.take(i as int).push(recs[i as int]));
            lemma_identifiers_push(recs.take(i as int), recs[i as int]);
            lemma_edge_labels_push(recs.take(i as int), recs[i as int]);
            lemma_successors_push(recs.take(i as int), recs[i as int]);
            assert(graph_nodes(graph) =~= identifiers(recs.take(i + 1)));
        }
        i += 1;
    }
    proof {
        assert(recs.take(i as int) =~= recs);
        lemma_edges_join_identifiers(recs);
        lemma_identifiers_bounded(recs);
    }
    graph
}

/// Both identifiers are nodes of the graph, and a directed walk leads from
/// `start` to `end`.
pub open spec fn connected(graph: DiGraphMap<&str, &str>, start: Seq<char>, end: Seq<char>) -> bool {
    &&& graph_nodes(graph).contains(start)
    &&& graph_nodes(graph).contains(end)
    &&& reachable(graph_edges(graph), start, end)
}

/// `path` is a shortest walk from `start` to `end` in the graph, between two
/// of its nodes, `cost` is the number of its hops, and no identifier occurs
/// in it twice. Where the edges of the graph join nodes of the graph, as they
/// do in a graph that `create_graph` built, the walk passes through nodes only.
pub open spec fn shortest_path(
    graph: DiGraphMap<&str, &str>,
    start: Seq<char>,
    end: Seq<char>,
    cost: int,
    path: Seq<Seq<char>>,
) -> bool {
    &&& graph_nodes(graph).contains(start)
    &&& graph_nodes(graph).contains(end)
    &&& shortest_between(graph_edges(graph), path, start, end)
    &&& path.no_duplicates()
    &&& cost == path.len() - 1
    &&& closed(graph) ==> within(graph_nodes(graph), path)
}

/// The walk that a search from `start` to `end` settles on: among the shortest
/// walks the one that the order of the successors of each node decides for,
/// and none where an end is no node of the graph or no walk joins them.
pub open spec fn choice(
    graph: DiGraphMap<&str, &str>,
    start: Seq<char>,
    end: Seq<char>,
) -> Option<Seq<Seq<char>>> {
    if graph_nodes(graph).contains(start) && graph_nodes(graph).contains(end) {
        astar_choice(graph_successors(graph), start, end)
    } else {
        None
    }
}

/// Whether a node is the one that the search is looking for.
pub fn is_goal(node: &str, end: &str) -> (hit: bool)
    ensures
        hit == (node@ == end@),
{
    str_eq(node, end)
}

/// What one hop costs: every edge counts the same.
pub fn hop_cost() -> (cost: i32)
    ensures
        cost == 1,
{
    1
}

/// The estimate of what is left to go from a node: none is made.
pub fn remaining_estimate() -> (cost: i32)
    ensures
        cost == 0,
{
    0
}

/// Finds a chain of relationships from `start` to `end` with as few hops as
/// any. Every hop costs one. There is a result exactly when both identifiers
/// are nodes of the graph and a directed walk leads from the one to the other;
/// the result is the number of hops and the identifiers along the chain, both
/// ends included. Of several shortest chains the one is returned that the
/// order of the edges in the graph decides for: the same graph gives the same
/// chain.
///
/// The graph must be small enough for a hop count to be told: `try_find_path`
/// asks the same of a graph of any size.
pub fn find_path<'a>(
    graph: &'a DiGraphMap<&'a str, &'a str>,
    start: &'a str,
    end: &'a str,
) -> (found: Option<(i32, Vec<&'a str>)>)
    requires
        countable(*graph),
    ensures
        found is Some <==> connected(*graph, start@, end@),
        found matches Some((cost, path)) ==> shortest_path(
            *graph,
            start@,
            end@,
            cost as int,
            ids(path@),
        ),
        chosen(found) == choice(*graph, start@, end@),
{
    if !graph_contains_node(graph, start) || !graph_contains_node(graph, end) {
        return None;
    }
    let found = graph_astar(graph, start, end);
    proof {
        if found is Some {
            let path = ids(found.unwrap().1@);
            lemma_shortest_is_simple(graph_edges(*graph), path, start@, end@);
            if closed(*graph) {
                lemma_walk_within(graph_nodes(*graph), graph_edges(*graph), path);
            }
        }
    }
    found
}

/// `find_path` for a graph of any size: it counts the nodes first, and fails
/// where they are too many for a hop count to be told.
pub fn try_find_path<'a>(
    graph: &'a DiGraphMap<&'a str, &'a str>,
    start: &'a str,
    end: &'a str,
) -> (res: Result<Option<(i32, Vec<&'a str>)>, Error>)
    ensures
        res is Ok <==> countable(*graph),
        res matches Ok(found) ==> (found is Some <==> connected(*graph, start@, end@)),
        res matches Ok(Some((cost, path))) ==> shortest_path(
            *graph,
            start@,
            end@,
            cost as int,
            ids(path@),
        ),
        res matches Ok(found) ==> chosen(found) == choice(*graph, start@, end@),
        res matches Err(e) ==> e.detail() == "too many nodes"@,
{
    if graph_node_count(graph) <= MAX_NODES {
        Ok(find_path(graph, start, end))
    } else {
        Err(Error::Graph(String::from_str("too many nodes")))
    }
}

/// A path that `find_path` returned can be written out with its labels: every
/// hop has its edge, the annotated form holds a label between each two
/// neighbours, and the path's identifiers stand at its even positions.
pub proof fn lemma_found_path_annotates(
    graph: DiGraphMap<&str, &str>,
    start: Seq<char>,
    end: Seq<char>,
    cost: int,
    path: Seq<Seq<char>>,
)
    requires
        shortest_path(graph, start, end, cost, path),
    ensures
        path.len() >= 1,
        has_hops(graph_edges(graph), path),
        annotated(graph_edges(graph), path).len() == 2 * path.len() - 1,
        forall|i: int|
            0 <= i < path.len() ==> #[trigger] annotated(graph_edges(graph), path)[2 * i] == path[i],
        forall|i: int|
            0 <= i < path.len() - 1 ==> #[trigger] annotated(graph_edges(graph), path)[2 * i + 1]
                == graph_edges(graph)[hop(path, i)],
{
}

/// Scans a list of outgoing edges, each a target and a label, for the first
/// one that leads to `target`, and returns its label.
pub fn label_to<'a>(out: &Vec<(&'a str, &'a str)>, target: &str) -> (label: Option<&'a str>)
    ensures
        match label {
            Some(found) => exists|k: int|
                0 <= k < out@.len() && (#[trigger] out@[k]).0@ == target@ && out@[k].1@ == found@
                    && forall|j: int| 0 <= j < k ==> (#[trigger] out@[j]).0@ != target@,
            None => forall|k: int| 0 <= k < out@.len() ==> (#[trigger] out@[k]).0@ != target@,
        },
{
    let mut k: usize = 0;
    while k < out.len()
        invariant
            k <= out@.len(),
            forall|j: int| 0 <= j < k ==> (#[trigger] out@[j]).0@ != target@,
        decreases out@.len() - k,
    {
        if str_eq(out[k].0, target) {
            return Some(out[k].1);
        }
        k += 1;
    }
    None
}

/// Writes a path out with the label of each hop between its identifiers:
/// for `[n0, n1, n2]` the result is `[n0, label(n0, n1), n1, label(n1, n2), n2]`.
/// The label of a hop is found among the edges that leave its first node.
/// A path of no or one identifier comes back as it is. Where two neighbours of
/// the path are not joined by an edge of the graph, the path does not belong
/// to the graph, and the call fails.
pub fn path_with_relationships<'a>(
    graph: &'a DiGraphMap<&'a str, &'a str>,
    path: Vec<&'a str>,
) -> (res: Result<Vec<&'a str>, Error>)
    ensures
        res is Ok <==> has_hops(graph_edges(*graph), ids(path@)),
        res matches Ok(out) ==> ids(out@) == annotated(graph_edges(*graph), ids(path@)),
        res matches Err(e) ==> e.detail() == "no edge found"@,
{
    let ghost edges = graph_edges(*graph);
    let ghost walk = ids(path@);
    let mut out: Vec<&'a str> = Vec::new();
    let mut i: usize = 0;
    while i < path.len()
        invariant
            i <= path@.len(),
            edges == graph_edges(*graph),
            walk == ids(path@),
            has_hops(edges, walk.take(i as int)),
            ids(out@) == annotated(edges, walk.take(i as int)),
        decreases path@.len() - i,
    {
        let node = path[i];
        let ghost labelled = out@;
        if i > 0 {
            let prev = path[i - 1];
            let leaving = graph_outgoing(graph, prev);
            proof {
                assert(hop(walk, i - 1) == (prev@, node@));
                assert(forall|k: int|
                    0 <= k < leaving@.len() ==> (#[trigger] pairs(leaving@)[k]) == ((
                        leaving@[k].0@,
                        leaving@[k].1@,
                    )));
            }
            match label_to(&leaving, node) {
                Some(label) => {
                    proof {
                        let k = choose|k: int|
                            0 <= k < leaving@.len() && (#[trigger] leaving@[k]).0@ == node@
                                && leaving@[k].1@ == label@;
                        assert(pairs(leaving@)[k].0 == node@);
                        assert(edges[(prev@, node@)] == label@);
                    }
                    out.push(label);
                },
                None => {
                    proof {
                        if edges.contains_key((prev@, node@)) {
                            let k = choose|k: int|
                                0 <= k < pairs(leaving@).len() && (#[trigger] pairs(leaving@)[k]).0
                                    == node@;
                            assert(leaving@[k].0@ == node@);
                        }
                        assert(!edges.contains_key(hop(walk, i - 1)));
                    }
                    return Err(Error::Graph(String::from_str("no edge found")));
                },
            }
        }
        out.push(node);
        proof {
            let before = walk.take(i as int);
            let after = walk.take(i + 1);
            assert forall|k: int| 0 <= k < after.len() - 1 implies edges.contains_key(
                #[trigger] hop(after, k),
            ) by {
                if k < i - 1 {
                    assert(hop(after, k) == hop(before, k));
                } else {
                    assert(hop(after, k) == hop(walk, i - 1));
                }
            }
            assert forall|j: int| 0 <= j < annotated(edges, after).len() implies ids(out@)[j]
                == annotated(edges, after)[j] by {
                if j < annotated(edges, before).len() {
                    assert(ids(out@)[j] == annotated(edges, before)[j]);
                    if j % 2 == 1 {
                        assert(hop(after, j / 2) == hop(before, j / 2));
                    }
                } else if j % 2 == 1 {
                    assert(hop(after, j / 2) == hop(walk, i - 1));
                }
            }
            assert(ids(labelled).len() == annotated_len(i as nat));
            assert(out@.len() == annotated_len((i + 1) as nat));
            assert(ids(out@) =~= annotated(edges, after));
        }
        i += 1;
    }
    proof {
        assert(walk.take(i as int) =~= walk);
    }
    Ok(out)
}

} // verus!
