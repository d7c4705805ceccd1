use spdx_toolkit::error::Error;
use spdx_toolkit::graph::{create_graph, find_path, label_to, path_with_relationships, try_find_path};
use spdx_toolkit::relationship::Relationship;

fn rel(source: &str, label: &str, target: &str) -> Relationship {
    Relationship::new(source, target, label)
}

fn triangle() -> Vec<Relationship> {
    vec![
        rel("A", "DESCRIBES", "B"),
        rel("B", "CONTAINS", "C"),
        rel("A", "CONTAINS", "C"),
    ]
}

fn example_document() -> Vec<Relationship> {
    vec![
        rel("SPDXRef-DOCUMENT", "CONTAINS", "SPDXRef-Package"),
        rel("SPDXRef-DOCUMENT", "COPY_OF", "DocumentRef-spdx-tool-1.2:SPDXRef-ToolsElement"),
        rel("SPDXRef-DOCUMENT", "DESCRIBES", "SPDXRef-File"),
        rel("SPDXRef-DOCUMENT", "DESCRIBES", "SPDXRef-Package"),
        rel("SPDXRef-Package", "CONTAINS", "SPDXRef-JenaLib"),
        rel("SPDXRef-Package", "DYNAMIC_LINK", "SPDXRef-Saxon"),
        rel("SPDXRef-CommonsLangSrc", "GENERATED_FROM", "NOASSERTION"),
        rel("SPDXRef-JenaLib", "CONTAINS", "SPDXRef-Package"),
        rel("SPDXRef-File", "GENERATED_FROM", "SPDXRef-fromDoap-0"),
    ]
}

fn layered_document() -> Vec<Relationship> {
    vec![
        rel("SPDXRef-DOCUMENT", "DESCRIBES", "SPDXRef-Package-1"),
        rel("SPDXRef-Package-1", "CONTAINS", "SPDXRef-Package-2"),
        rel("SPDXRef-Package-1", "DEPENDS_ON", "SPDXRef-Package-3"),
        rel("SPDXRef-Package-2", "CONTAINS", "SPDXRef-Package-4"),
        rel("SPDXRef-Package-3", "CONTAINS", "SPDXRef-Package-4"),
        rel("SPDXRef-Package-4", "CONTAINS", "SPDXRef-File-1"),
        rel("SPDXRef-Package-2", "CONTAINS", "SPDXRef-File-2"),
    ]
}

#[test]
fn create_graph_succeeds() {
    let relationships = layered_document();
    let graph = create_graph(&relationships);
    assert_eq!(graph.node_count(), 7);
    assert_eq!(graph.edge_count(), 7);
    assert!(graph.contains_edge("SPDXRef-Package-4", "SPDXRef-File-1"));
    assert!(!graph.contains_edge("SPDXRef-File-1", "SPDXRef-Package-4"));
}

#[test]
fn create_complex_graph_succeeds() {
    let relationships = example_document();
    let graph = create_graph(&relationships);
    assert_eq!(graph.node_count(), 9);
    assert_eq!(graph.edge_count(), 8);
    assert_eq!(
        graph.edge_weight("SPDXRef-DOCUMENT", "SPDXRef-Package"),
        Some(&"DESCRIBES")
    );
    assert_eq!(
        graph.edge_weight("SPDXRef-JenaLib", "SPDXRef-Package"),
        Some(&"CONTAINS")
    );
}

#[test]
fn find_path_works() {
    let relationships = example_document();
    let graph = create_graph(&relationships);
    let path = find_path(&graph, "SPDXRef-DOCUMENT", "SPDXRef-Saxon").unwrap();
    assert_eq!(
        path,
        (2, vec!["SPDXRef-DOCUMENT", "SPDXRef-Package", "SPDXRef-Saxon"])
    );
}

#[test]
fn find_complex_path_works() {
    let relationships = layered_document();
    let graph = create_graph(&relationships);
    let (cost, path) = find_path(&graph, "SPDXRef-Package-1", "SPDXRef-File-1").unwrap();
    assert_eq!(cost, 3);
    assert_eq!(path.len(), 4);
    assert_eq!(path[0], "SPDXRef-Package-1");
    assert!(path[1] == "SPDXRef-Package-2" || path[1] == "SPDXRef-Package-3");
    assert_eq!(path[2], "SPDXRef-Package-4");
    assert_eq!(path[3], "SPDXRef-File-1");
}

#[test]
fn find_path_with_relationships_works() {
    let relationships = example_document();
    let graph = create_graph(&relationships);
    let path = find_path(&graph, "SPDXRef-DOCUMENT", "SPDXRef-Saxon").unwrap();
    let path = path_with_relationships(&graph, path.1).unwrap();
    assert_eq!(
        path,
        vec![
            "SPDXRef-DOCUMENT",
            "DESCRIBES",
            "SPDXRef-Package",
            "DYNAMIC_LINK",
            "SPDXRef-Saxon"
        ]
    );
}

#[test]
fn find_complex_path_with_relationships_works() {
    let relationships = layered_document();
    let graph = create_graph(&relationships);
    let path = find_path(&graph, "SPDXRef-Package-1", "SPDXRef-File-1").unwrap();
    let middle = path.1[1];
    let path = path_with_relationships(&graph, path.1).unwrap();
    let first_label = if middle == "SPDXRef-Package-2" { "CONTAINS" } else { "DEPENDS_ON" };
    assert_eq!(
        path,
        vec![
            "SPDXRef-Package-1",
            first_label,
            middle,
            "CONTAINS",
            "SPDXRef-Package-4",
            "CONTAINS",
            "SPDXRef-File-1"
        ]
    );
}

#[test]
fn direct_edge_beats_two_hops() {
    let relationships = triangle();
    let graph = create_graph(&relationships);
    let found = find_path(&graph, "A", "C");
    assert_eq!(found, Some((1, vec!["A", "C"])));
    let annotated = path_with_relationships(&graph, found.unwrap().1).unwrap();
    assert_eq!(annotated, vec!["A", "CONTAINS", "C"]);
}

#[test]
fn no_path_against_the_edges() {
    let relationships = triangle();
    let graph = create_graph(&relationships);
    assert_eq!(find_path(&graph, "C", "A"), None);
    assert_eq!(find_path(&graph, "C", "B"), None);
    assert_eq!(find_path(&graph, "B", "A"), None);
}

#[test]
fn empty_list_gives_empty_graph() {
    let relationships: Vec<Relationship> = Vec::new();
    let graph = create_graph(&relationships);
    assert_eq!(graph.node_count(), 0);
    assert_eq!(graph.edge_count(), 0);
    assert_eq!(find_path(&graph, "A", "B"), None);
    assert_eq!(find_path(&graph, "A", "A"), None);
    assert_eq!(find_path(&graph, "", ""), None);
}

#[test]
fn nodes_are_the_distinct_identifiers() {
    let relationships = vec![
        rel("A", "CONTAINS", "B"),
        rel("B", "CONTAINS", "A"),
        rel("A", "DESCRIBES", "B"),
        rel("A", "CONTAINS", "A"),
        rel("C", "CONTAINS", "B"),
    ];
    let graph = create_graph(&relationships);
    assert_eq!(graph.node_count(), 3);
    let mut nodes: Vec<&str> = graph.nodes().collect();
    nodes.sort();
    assert_eq!(nodes, vec!["A", "B", "C"]);
    assert_eq!(graph.edge_count(), 4);
}

#[test]
fn last_relationship_of_a_pair_gives_the_label() {
    let relationships = vec![
        rel("A", "CONTAINS", "B"),
        rel("B", "CONTAINS", "C"),
        rel("A", "DESCRIBES", "B"),
        rel("A", "DEPENDS_ON", "B"),
    ];
    let graph = create_graph(&relationships);
    assert_eq!(graph.edge_count(), 2);
    assert_eq!(graph.edge_weight("A", "B"), Some(&"DEPENDS_ON"));
    let annotated = path_with_relationships(&graph, vec!["A", "B", "C"]).unwrap();
    assert_eq!(annotated, vec!["A", "DEPENDS_ON", "B", "CONTAINS", "C"]);
}

#[test]
fn absent_identifier_has_no_path() {
    let relationships = triangle();
    let graph = create_graph(&relationships);
    assert_eq!(find_path(&graph, "A", "Z"), None);
    assert_eq!(find_path(&graph, "Z", "A"), None);
    assert_eq!(find_path(&graph, "Z", "Z"), None);
}

#[test]
fn node_reaches_itself_without_a_hop() {
    let relationships = triangle();
    let graph = create_graph(&relationships);
    assert_eq!(find_path(&graph, "A", "A"), Some((0, vec!["A"])));
    assert_eq!(find_path(&graph, "C", "C"), Some((0, vec!["C"])));
}

#[test]
fn shortest_of_several_routes_is_found() {
    let relationships = vec![
        rel("S", "CONTAINS", "L1"),
        rel("L1", "CONTAINS", "L2"),
        rel("L2", "CONTAINS", "L3"),
        rel("L3", "CONTAINS", "T"),
        rel("S", "DEPENDS_ON", "M"),
        rel("M", "DEPENDS_ON", "T"),
        rel("T", "CONTAINS", "S"),
    ];
    let graph = create_graph(&relationships);
    assert_eq!(find_path(&graph, "S", "T"), Some((2, vec!["S", "M", "T"])));
    assert_eq!(find_path(&graph, "T", "L3"), Some((4, vec!["T", "S", "L1", "L2", "L3"])));
    assert_eq!(find_path(&graph, "L1", "M"), Some((5, vec!["L1", "L2", "L3", "T", "S", "M"])));
}

#[test]
fn found_path_is_annotated_at_odd_positions() {
    let relationships = layered_document();
    let graph = create_graph(&relationships);
    let (cost, path) = find_path(&graph, "SPDXRef-DOCUMENT", "SPDXRef-File-2").unwrap();
    assert_eq!(cost, 3);
    let k = path.len();
    assert_eq!(k, 4);
    let annotated = path_with_relationships(&graph, path.clone()).unwrap();
    assert_eq!(annotated.len(), 2 * k - 1);
    for i in 0..k {
        assert_eq!(annotated[2 * i], path[i]);
    }
    for i in 0..k - 1 {
        assert_eq!(
            Some(&annotated[2 * i + 1]),
            graph.edge_weight(path[i], path[i + 1])
        );
    }
    assert_eq!(
        annotated,
        vec![
            "SPDXRef-DOCUMENT",
            "DESCRIBES",
            "SPDXRef-Package-1",
            "CONTAINS",
            "SPDXRef-Package-2",
            "CONTAINS",
            "SPDXRef-File-2"
        ]
    );
}

#[test]
fn fabricated_path_is_refused() {
    let relationships = triangle();
    let graph = create_graph(&relationships);
    let refused = path_with_relationships(&graph, vec!["A", "B", "A"]);
    match refused {
        Err(Error::Graph(text)) => assert_eq!(text, "no edge found"),
        Ok(path) => panic!("a path against an edge was annotated: {:?}", path),
    }
    assert!(path_with_relationships(&graph, vec!["C", "A"]).is_err());
    assert!(path_with_relationships(&graph, vec!["A", "Z"]).is_err());
    assert!(path_with_relationships(&graph, vec!["Z", "A"]).is_err());
    assert!(path_with_relationships(&graph, vec!["A", "A"]).is_err());
}

#[test]
fn short_paths_come_back_as_they_are() {
    let relationships = triangle();
    let graph = create_graph(&relationships);
    assert_eq!(path_with_relationships(&graph, Vec::new()).unwrap(), Vec::<&str>::new());
    assert_eq!(path_with_relationships(&graph, vec!["B"]).unwrap(), vec!["B"]);
    assert_eq!(path_with_relationships(&graph, vec!["Z"]).unwrap(), vec!["Z"]);
}

#[test]
fn walk_that_repeats_a_node_is_annotated() {
    let relationships = vec![
        rel("A", "CONTAINS", "B"),
        rel("B", "DESCRIBES", "A"),
        rel("A", "DEPENDS_ON", "A"),
    ];
    let graph = create_graph(&relationships);
    assert_eq!(
        path_with_relationships(&graph, vec!["A", "A", "B", "A"]).unwrap(),
        vec!["A", "DEPENDS_ON", "A", "CONTAINS", "B", "DESCRIBES", "A"]
    );
    assert_eq!(find_path(&graph, "A", "A"), Some((0, vec!["A"])));
    assert_eq!(find_path(&graph, "B", "A"), Some((1, vec!["B", "A"])));
}

#[test]
fn error_is_written_out_with_its_text() {
    let relationships = triangle();
    let graph = create_graph(&relationships);
    let error = path_with_relationships(&graph, vec!["C", "B"]).unwrap_err();
    assert_eq!(error.message(), "error with graph: no edge found");
    assert_eq!(Error::Graph(String::new()).message(), "error with graph: ");
}

#[test]
fn checked_search_agrees_with_the_plain_one() {
    let relationships = triangle();
    let graph = create_graph(&relationships);
    assert_eq!(try_find_path(&graph, "A", "C").unwrap(), Some((1, vec!["A", "C"])));
    assert_eq!(try_find_path(&graph, "A", "B").unwrap(), Some((1, vec!["A", "B"])));
    assert_eq!(try_find_path(&graph, "C", "A").unwrap(), None);
    assert_eq!(try_find_path(&graph, "Z", "Z").unwrap(), None);
    let nothing: Vec<Relationship> = Vec::new();
    let empty = create_graph(&nothing);
    assert_eq!(try_find_path(&empty, "A", "A").unwrap(), None);
}

#[test]
fn first_matching_entry_gives_the_label() {
    let leaving = vec![("B", "CONTAINS"), ("C", "DESCRIBES"), ("B", "DEPENDS_ON")];
    assert_eq!(label_to(&leaving, "B"), Some("CONTAINS"));
    assert_eq!(label_to(&leaving, "C"), Some("DESCRIBES"));
    assert_eq!(label_to(&leaving, "D"), None);
    assert_eq!(label_to(&Vec::new(), "B"), None);
}

#[test]
fn relationship_keeps_its_three_texts() {
    let relationship = Relationship::new("SPDXRef-A", "SPDXRef-B", "CONTAINS");
    assert_eq!(relationship.spdx_element_id, "SPDXRef-A");
    assert_eq!(relationship.related_spdx_element, "SPDXRef-B");
    assert_eq!(relationship.relationship_type, "CONTAINS");
    let written = Relationship {
        spdx_element_id: "SPDXRef-A".to_string(),
        related_spdx_element: "SPDXRef-B".to_string(),
        relationship_type: "CONTAINS".to_string(),
    };
    let relationships = vec![relationship, written];
    let graph = create_graph(&relationships);
    assert_eq!(graph.node_count(), 2);
    assert_eq!(graph.edge_count(), 1);
}

#[test]
fn identifiers_differ_by_case_and_length() {
    let relationships = vec![rel("a", "CONTAINS", "A"), rel("A", "CONTAINS", "AA")];
    let graph = create_graph(&relationships);
    assert_eq!(graph.node_count(), 3);
    assert_eq!(find_path(&graph, "a", "AA"), Some((2, vec!["a", "A", "AA"])));
    assert_eq!(find_path(&graph, "A", "a"), None);
}

#[test]
fn every_hop_costs_one_and_nothing_is_estimated() {
    assert_eq!(spdx_toolkit::graph::hop_cost(), 1);
    assert_eq!(spdx_toolkit::graph::remaining_estimate(), 0);
    assert!(spdx_toolkit::graph::is_goal("SPDXRef-A", "SPDXRef-A"));
    assert!(!spdx_toolkit::graph::is_goal("SPDXRef-A", "SPDXRef-B"));
    assert!(!spdx_toolkit::graph::is_goal("SPDXRef-A", "SPDXRef-"));
    assert!(!spdx_toolkit::graph::is_goal("", "SPDXRef-A"));
    assert!(spdx_toolkit::graph::is_goal("", ""));
}

#[test]
fn same_list_gives_the_same_path() {
    let relationships = vec![
        rel("S", "CONTAINS", "A"),
        rel("S", "CONTAINS", "B"),
        rel("S", "CONTAINS", "C"),
        rel("A", "CONTAINS", "T"),
        rel("B", "CONTAINS", "T"),
        rel("C", "CONTAINS", "T"),
    ];
    let copy = vec![
        rel("S", "CONTAINS", "A"),
        rel("S", "CONTAINS", "B"),
        rel("S", "CONTAINS", "C"),
        rel("A", "CONTAINS", "T"),
        rel("B", "CONTAINS", "T"),
        rel("C", "CONTAINS", "T"),
    ];
    let graph = create_graph(&relationships);
    let twin = create_graph(&copy);
    let first = find_path(&graph, "S", "T").unwrap();
    assert_eq!(first.0, 2);
    assert_eq!(first.1.len(), 3);
    assert_eq!(first.1[0], "S");
    assert!(first.1[1] == "A" || first.1[1] == "B" || first.1[1] == "C");
    assert_eq!(first.1[2], "T");
    for _ in 0..20 {
        assert_eq!(find_path(&graph, "S", "T"), Some(first.clone()));
        assert_eq!(find_path(&twin, "S", "T"), Some(first.clone()));
        assert_eq!(try_find_path(&twin, "S", "T").unwrap(), Some(first.clone()));
    }
}

#[test]
fn new_label_keeps_the_place_of_an_edge() {
    let plain = vec![
        rel("S", "CONTAINS", "A"),
        rel("S", "CONTAINS", "B"),
        rel("A", "CONTAINS", "T"),
        rel("B", "CONTAINS", "T"),
    ];
    let relabelled = vec![
        rel("S", "CONTAINS", "A"),
        rel("S", "CONTAINS", "B"),
        rel("A", "CONTAINS", "T"),
        rel("B", "CONTAINS", "T"),
        rel("S", "DESCRIBES", "A"),
        rel("A", "DESCRIBES", "T"),
    ];
    let graph = create_graph(&plain);
    let other = create_graph(&relabelled);
    let targets: Vec<&str> = graph.neighbors("S").collect();
    assert_eq!(targets, vec!["A", "B"]);
    let same_targets: Vec<&str> = other.neighbors("S").collect();
    assert_eq!(same_targets, vec!["A", "B"]);
    assert_eq!(find_path(&graph, "S", "T"), find_path(&other, "S", "T"));
    assert_eq!(other.edge_weight("S", "A"), Some(&"DESCRIBES"));
}
