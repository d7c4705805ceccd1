use crate::digraph::{with_edge, with_node};
use crate::walk::{joins_nodes, EdgeMap, Successors};
use vstd::prelude::*;
use vstd::string::StringExecFns;

verus! {

/// One relationship of a bill of materials: the element it starts from, the
/// element it leads to, and the kind of relationship as its label.
#[derive(Debug)]
pub struct Relationship {
    pub spdx_element_id: String,
    pub related_spdx_element: String,
    pub relationship_type: String,
}

/// A relationship as a triple of texts.
pub struct Record {
    pub source: Seq<char>,
    pub target: Seq<char>,
    pub label: Seq<char>,
}

impl View for Relationship {
    type V = Record;

    open spec fn view(&self) -> Record {
        Record {
            source: self.spdx_element_id@,
            target: self.related_spdx_element@,
            label: self.relationship_type@,
        }
    }
}

impl Relationship {
    /// A relationship from `source` to `target` with `label` as its kind.
    pub fn new(source: &str, target: &str, label: &str) -> (relationship: Relationship)
        ensures
            relationship@ == (Record { source: source@, target: target@, label: label@ }),
    {
        Relationship {
            spdx_element_id: String::from_str(source),
            related_spdx_element: String::from_str(target),
            relationship_type: String::from_str(label),
        }
    }
}

/// The triples that a list of relationships holds, in order.
pub open spec fn records(relationships: Seq<Relationship>) -> Seq<Record> {
    relationships.map_values(|r: Relationship| r@)
}

/// The identifiers that occur in `recs`, as a source or as a target.
pub open spec fn identifiers(recs: Seq<Record>) -> Set<Seq<char>> {
    Set::new(
        |id: Seq<char>|
            exists|i: int| 0 <= i < recs.len() && ((#[trigger] recs[i]).source == id || recs[i].target == id),
    )
}

/// Record `i` of `recs` leads from `a` to `b`.
pub open spec fn joins(recs: Seq<Record>, i: int, a: Seq<char>, b: Seq<char>) -> bool {
    0 <= i < recs.len() && recs[i].source == a && recs[i].target == b
}

/// Record `i` of `recs` leads from `a` to `b`, and no later record does.
pub open spec fn joins_last(recs: Seq<Record>, i: int, a: Seq<char>, b: Seq<char>) -> bool {
    joins(recs, i, a, b) && forall|j: int| i < j ==> !#[trigger] joins(recs, j, a, b)
}

/// The edges that `recs` describe: an ordered pair of identifiers has an edge
/// where some record leads from the first to the second, and the edge carries
/// the label of the last such record.
pub open spec fn edge_labels(recs: Seq<Record>) -> EdgeMap {
    Map::new(
        |k: (Seq<char>, Seq<char>)| exists|i: int| joins(recs, i, k.0, k.1),
        |k: (Seq<char>, Seq<char>)| recs[choose|i: int| joins_last(recs, i, k.0, k.1)].label,
    )
}

/// The identifiers to which the records of `recs` lead from `a`, each once, in
/// the order in which the records first name them.
pub open spec fn targets_of(recs: Seq<Record>, a: Seq<char>) -> Seq<Seq<char>>
    decreases recs.len(),
{
    if recs.len() == 0 {
        Seq::empty()
    } else {
        let earlier = targets_of(recs.drop_last(), a);
        if recs.last().source == a && !earlier.contains(recs.last().target) {
            earlier.push(recs.last().target)
        } else {
            earlier
        }
    }
}

/// The successors that `recs` describe: each identifier that occurs has the
/// identifiers to which records lead from it, in the order of `targets_of`.
pub open spec fn successors_of(recs: Seq<Record>) -> Successors {
    Map::new(|a: Seq<char>| identifiers(recs).contains(a), |a: Seq<char>| targets_of(recs, a))
}

/// Among the records that lead from `a` to `b` there is a last one.
pub proof fn lemma_last_record(recs: Seq<Record>, i: int, a: Seq<char>, b: Seq<char>)
    requires
        joins(recs, i, a, b),
    ensures
        exists|l: int| i <= l && joins_last(recs, l, a, b),
    decreases recs.len() - i,
{
    if exists|j: int| i < j && joins(recs, j, a, b) {
        let j = choose|j: int| i < j && joins(recs, j, a, b);
        lemma_last_record(recs, j, a, b);
        let l = choose|l: int| j <= l && joins_last(recs, l, a, b);
        assert(i <= l && joins_last(recs, l, a, b));
    } else {
        assert(joins_last(recs, i, a, b));
    }
}

/// The last record from `a` to `b` decides the label of the edge from `a` to
/// `b`, whatever earlier records said of that pair.
pub proof fn lemma_last_record_wins(recs: Seq<Record>, i: int, a: Seq<char>, b: Seq<char>)
    requires
        joins_last(recs, i, a, b),
    ensures
        edge_labels(recs).contains_key((a, b)),
        edge_labels(recs)[(a, b)] == recs[i].label,
{
    let k = (a, b);
    assert(joins(recs, i, k.0, k.1));
    let l = choose|l: int| joins_last(recs, l, k.0, k.1);
    assert(joins(recs, l, a, b));
    if l < i {
        assert(!joins(recs, i, a, b));
    }
    if i < l {
        assert(!joins(recs, l, a, b));
    }
}

/// The successors of `a` are the identifiers to which `a` has an edge.
pub proof fn lemma_targets_are_edges(recs: Seq<Record>, a: Seq<char>, b: Seq<char>)
    ensures
        targets_of(recs, a).contains(b) <==> edge_labels(recs).contains_key((a, b)),
    decreases recs.len(),
{
    let k = (a, b);
    if recs.len() > 0 {
        let before = recs.drop_last();
        let n = recs.len() - 1;
        let earlier = targets_of(before, a);
        lemma_targets_are_edges(before, a, b);
        if targets_of(recs, a).contains(b) {
            if earlier.contains(b) {
                let i = choose|i: int| joins(before, i, k.0, k.1);
                assert(joins(recs, i, k.0, k.1));
            } else {
                let j = choose|j: int| 0 <= j < targets_of(recs, a).len() && targets_of(recs, a)[j] == b;
                assert(j == earlier.len());
                assert(joins(recs, n, k.0, k.1));
            }
        }
        if edge_labels(recs).contains_key(k) {
            let i = choose|i: int| joins(recs, i, k.0, k.1);
            if i < n {
                assert(joins(before, i, k.0, k.1));
                let j = choose|j: int| 0 <= j < earlier.len() && earlier[j] == b;
                assert(targets_of(recs, a)[j] == b);
            } else if earlier.contains(b) {
                let j = choose|j: int| 0 <= j < earlier.len() && earlier[j] == b;
                assert(targets_of(recs, a)[j] == b);
            } else {
                assert(targets_of(recs, a)[earlier.len() as int] == b);
            }
        }
    } else {
        if edge_labels(recs).contains_key(k) {
            let i = choose|i: int| joins(recs, i, k.0, k.1);
        }
    }
}

/// An identifier from which no record starts has no successors.
pub proof fn lemma_no_record_no_targets(recs: Seq<Record>, a: Seq<char>)
    requires
        forall|i: int| 0 <= i < recs.len() ==> (#[trigger] recs[i]).source != a,
    ensures
        targets_of(recs, a) == Seq::<Seq<char>>::empty(),
    decreases recs.len(),
{
    if recs.len() > 0 {
        let before = recs.drop_last();
        assert forall|i: int| 0 <= i < before.len() implies (#[trigger] before[i]).source != a by {
            assert(before[i] == recs[i]);
        }
        lemma_no_record_no_targets(before, a);
        assert(recs.last() == recs[recs.len() - 1]);
    }
}

/// One more record makes both its identifiers nodes, and makes its target the
/// last successor of its source where no earlier record led from that source
/// to that target.
pub proof fn lemma_successors_push(recs: Seq<Record>, r: Record)
    ensures
        successors_of(recs.push(r)) == ({
            let both = with_node(with_node(successors_of(recs), r.source), r.target);
            if edge_labels(recs).contains_key((r.source, r.target)) {
                both
            } else {
                with_edge(both, r.source, r.target)
            }
        }),
{
    let more = recs.push(r);
    let both = with_node(with_node(successors_of(recs), r.source), r.target);
    let grown = if edge_labels(recs).contains_key((r.source, r.target)) {
        both
    } else {
        with_edge(both, r.source, r.target)
    };
    lemma_identifiers_push(recs, r);
    lemma_targets_are_edges(recs, r.source, r.target);
    assert(more.drop_last() =~= recs);
    assert(more.last() == r);
    assert forall|x: Seq<char>| successors_of(more).contains_key(x) implies #[trigger] grown.contains_key(x)
        && successors_of(more)[x] == grown[x] by {
        if !identifiers(recs).contains(x) {
            assert forall|i: int| 0 <= i < recs.len() implies (#[trigger] recs[i]).source != x by {}
            lemma_no_record_no_targets(recs, x);
        }
    }
    assert forall|x: Seq<char>| grown.contains_key(x) implies #[trigger] successors_of(more).contains_key(x) by {}
    assert(successors_of(more) =~= grown);
}

/// Every edge joins two identifiers that occur.
pub proof fn lemma_edges_join_identifiers(recs: Seq<Record>)
    ensures
        joins_nodes(identifiers(recs), edge_labels(recs)),
{
    assert forall|a: Seq<char>, b: Seq<char>| #[trigger]
        edge_labels(recs).contains_key((a, b)) implies identifiers(recs).contains(a) && identifiers(
        recs,
    ).contains(b) by {
        let k = (a, b);
        let i = choose|i: int| joins(recs, i, k.0, k.1);
        assert(recs[i].source == a && recs[i].target == b);
    }
}

/// One more record adds its two identifiers to those that occur.
pub proof fn lemma_identifiers_push(recs: Seq<Record>, r: Record)
    ensures
        identifiers(recs.push(r)) == identifiers(recs).insert(r.source).insert(r.target),
{
    let more = recs.push(r);
    assert forall|id: Seq<char>|
        identifiers(more).contains(id) <==> identifiers(recs).insert(r.source).insert(r.target).contains(
            id,
        ) by {
        if identifiers(more).contains(id) {
            let i = choose|i: int|
                0 <= i < more.len() && ((#[trigger] more[i]).source == id || more[i].target == id);
            if i < recs.len() {
                assert(recs[i] == more[i]);
            }
        }
        if identifiers(recs).contains(id) {
            let i = choose|i: int|
                0 <= i < recs.len() && ((#[trigger] recs[i]).source == id || recs[i].target == id);
            assert(more[i] == recs[i]);
        }
        if id == r.source || id == r.target {
            assert(more[recs.len() as int] == r);
        }
    }
    assert(identifiers(more) =~= identifiers(recs).insert(r.source).insert(r.target));
}

/// A list of records names at most two identifiers for each record.
pub proof fn lemma_identifiers_bounded(recs: Seq<Record>)
    ensures
        identifiers(recs).finite(),
        identifiers(recs).len() <= 2 * recs.len(),
    decreases recs.len(),
{
    if recs.len() == 0 {
        assert(identifiers(recs) =~= Set::<Seq<char>>::empty());
    } else {
        lemma_identifiers_bounded(recs.drop_last());
        lemma_identifiers_push(recs.drop_last(), recs.last());
        assert(recs.drop_last().push(recs.last()) =~= recs);
    }
}

/// One more record sets the label of the edge between its two identifiers and
/// leaves the other edges as they are.
pub proof fn lemma_edge_labels_push(recs: Seq<Record>, r: Record)
    ensures
        edge_labels(recs.push(r)) == edge_labels(recs).insert((r.source, r.target), r.label),
{
    let more = recs.push(r);
    let n = recs.len() as int;
    let grown = edge_labels(recs).insert((r.source, r.target), r.label);
    assert(more[n] == r);
    assert forall|k: (Seq<char>, Seq<char>)| edge_labels(more).contains_key(k) <==> grown.contains_key(
        k,
    ) by {
        if edge_labels(more).contains_key(k) {
            let i = choose|i: int| joins(more, i, k.0, k.1);
            if i < n {
                assert(more[i] == recs[i]);
                assert(joins(recs, i, k.0, k.1));
            }
        }
        if edge_labels(recs).contains_key(k) {
            let i = choose|i: int| joins(recs, i, k.0, k.1);
            assert(more[i] == recs[i]);
            assert(joins(more, i, k.0, k.1));
        }
        if k == (r.source, r.target) {
            assert(joins(more, n, k.0, k.1));
        }
    }
    assert forall|k: (Seq<char>, Seq<char>)| edge_labels(more).contains_key(k) implies edge_labels(
        more,
    )[k] == grown[k] by {
        if k == (r.source, r.target) {
            assert(joins_last(more, n, k.0, k.1));
            lemma_last_record_wins(more, n, k.0, k.1);
        } else {
            let i = choose|i: int| joins(more, i, k.0, k.1);
            assert(i < n);
            assert(more[i] == recs[i]);
            assert(joins(recs, i, k.0, k.1));
            lemma_last_record(recs, i, k.0, k.1);
            let l = choose|l: int| i <= l && joins_last(recs, l, k.0, k.1);
            assert(more[l] == recs[l]);
            assert forall|j: int| l < j implies !#[trigger] joins(more, j, k.0, k.1) by {
                if j < n {
                    assert(more[j] == recs[j]);
                    assert(!joins(recs, j, k.0, k.1));
                }
            }
            assert(joins_last(more, l, k.0, k.1));
            lemma_last_record_wins(more, l, k.0, k.1);
            lemma_last_record_wins(recs, l, k.0, k.1);
        }
    }
    assert(edge_labels(more) =~= grown);
}

} // verus!
