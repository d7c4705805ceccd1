use vstd::prelude::*;

verus! {

/// The edges of a graph as a mathematical map: an ordered pair of identifiers
/// is mapped to the label of the edge between them.
pub type EdgeMap = Map<(Seq<char>, Seq<char>), Seq<char>>;

/// For each node of a graph, the nodes that its outgoing edges lead to, in the
/// order in which the graph holds those edges.
pub type Successors = Map<Seq<char>, Seq<Seq<char>>>;

/// The identifiers that a sequence of string slices spells out.
pub open spec fn ids(path: Seq<&str>) -> Seq<Seq<char>> {
    path.map_values(|s: &str| s@)
}

/// The ordered pair formed by position `i` of `w` and the one after it.
pub open spec fn hop(w: Seq<Seq<char>>, i: int) -> (Seq<char>, Seq<char>) {
    (w[i], w[i + 1])
}

/// Every two neighbours in `w` are joined by an edge, in the direction of `w`.
pub open spec fn has_hops(edges: EdgeMap, w: Seq<Seq<char>>) -> bool {
    forall|i: int| 0 <= i < w.len() - 1 ==> edges.contains_key(#[trigger] hop(w, i))
}

/// `w` is a directed walk from `a` to `b`: it begins at `a`, ends at `b`, and
/// follows an edge at each step. A single identifier is a walk to itself.
pub open spec fn walk_between(edges: EdgeMap, w: Seq<Seq<char>>, a: Seq<char>, b: Seq<char>) -> bool {
    &&& w.len() > 0
    &&& w.first() == a
    &&& w.last() == b
    &&& has_hops(edges, w)
}

/// Some directed walk leads from `a` to `b`.
pub open spec fn reachable(edges: EdgeMap, a: Seq<char>, b: Seq<char>) -> bool {
    exists|w: Seq<Seq<char>>| walk_between(edges, w, a, b)
}

/// `w` is a walk from `a` to `b`, and no walk from `a` to `b` is shorter.
pub open spec fn shortest_between(edges: EdgeMap, w: Seq<Seq<char>>, a: Seq<char>, b: Seq<char>) -> bool {
    &&& walk_between(edges, w, a, b)
    &&& forall|v: Seq<Seq<char>>| #[trigger] walk_between(edges, v, a, b) ==> w.len() <= v.len()
}

/// Every identifier of `w` is one of `nodes`.
pub open spec fn within(nodes: Set<Seq<char>>, w: Seq<Seq<char>>) -> bool {
    forall|i: int| 0 <= i < w.len() ==> nodes.contains(#[trigger] w[i])
}

/// Every edge joins two of `nodes`.
pub open spec fn joins_nodes(nodes: Set<Seq<char>>, edges: EdgeMap) -> bool {
    forall|a: Seq<char>, b: Seq<char>| #[trigger]
        edges.contains_key((a, b)) ==> nodes.contains(a) && nodes.contains(b)
}

/// Where every edge joins two nodes, a walk of at least one hop passes through
/// nodes only, and so does a walk that begins at a node.
pub proof fn lemma_walk_within(nodes: Set<Seq<char>>, edges: EdgeMap, w: Seq<Seq<char>>)
    requires
        joins_nodes(nodes, edges),
        has_hops(edges, w),
        w.len() == 1 ==> nodes.contains(w[0]),
    ensures
        within(nodes, w),
{
    assert forall|i: int| 0 <= i < w.len() implies nodes.contains(#[trigger] w[i]) by {
        if i < w.len() - 1 {
            assert(edges.contains_key(hop(w, i)));
        } else if i > 0 {
            assert(edges.contains_key(hop(w, i - 1)));
        }
    }
}

/// A shortest walk passes through no identifier twice: a walk that did could
/// leave out what lies between the two visits and be shorter.
pub proof fn lemma_shortest_is_simple(edges: EdgeMap, w: Seq<Seq<char>>, a: Seq<char>, b: Seq<char>)
    requires
        shortest_between(edges, w, a, b),
    ensures
        w.no_duplicates(),
{
    assert forall|i: int, j: int| 0 <= i < w.len() && 0 <= j < w.len() && i != j implies w[i] != w[j] by {
        if w[i] == w[j] {
            let (lo, hi) = if i < j {
                (i, j)
            } else {
                (j, i)
            };
            let v = w.take(lo + 1) + w.skip(hi + 1);
            assert(v.len() == w.len() - (hi - lo));
            assert(v.first() == w.first());
            assert(v.last() == w.last());
            assert forall|k: int| 0 <= k < v.len() - 1 implies edges.contains_key(#[trigger] hop(v, k)) by {
                if k < lo {
                    assert(hop(v, k) == hop(w, k));
                } else {
                    assert(v[k + 1] == w[k + 1 + (hi - lo)]);
                    assert(hop(v, k) == hop(w, k + (hi - lo)));
                }
            }
            assert(walk_between(edges, v, a, b));
        }
    }
}

/// How long the annotated form of a walk of `k` identifiers is: the `k`
/// identifiers and a label between each two neighbours.
pub open spec fn annotated_len(k: nat) -> nat {
    if k == 0 {
        0
    } else {
        (2 * k - 1) as nat
    }
}

/// The walk `w` with, between each two neighbours, the label of the edge that
/// joins them: identifiers at the even positions, labels at the odd ones.
pub open spec fn annotated(edges: EdgeMap, w: Seq<Seq<char>>) -> Seq<Seq<char>> {
    Seq::new(
        annotated_len(w.len()),
        |j: int|
            if j % 2 == 0 {
                w[j / 2]
            } else {
                edges[hop(w, j / 2)]
            },
    )
}

} // verus!
