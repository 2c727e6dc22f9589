use graphview::graph::{
    build, build_from_ids, EdgeData, EdgeInput, EdgeKind, GraphError, NodeData, NodeInput, NodeKind,
};

fn node(label: &str, kind: NodeKind) -> NodeData {
    NodeData { label: label.to_string(), kind }
}

fn edge(source: usize, target: usize) -> EdgeData {
    EdgeData { source, target, directed: true, kind: EdgeKind::DependsOn, weight: 1 }
}

#[test]
fn build_succeeds_when_endpoints_in_range() {
    let nodes = vec![
        node("core", NodeKind::Module),
        node("lib.rs", NodeKind::File),
        node("parse", NodeKind::Symbol),
    ];
    let edges = vec![edge(0, 1), edge(1, 2), edge(2, 0)];
    let g = build(nodes, edges).unwrap();
    assert_eq!(g.node_count(), 3);
    assert_eq!(g.edge_count(), 3);
    assert_eq!(g.nodes[0].label, "core");
    assert_eq!(g.nodes[1].kind, NodeKind::File);
    assert!(!g.nodes[0].pinned);
    assert!(!g.nodes[2].pinned);
}

#[test]
fn build_fails_on_out_of_range_source() {
    let nodes = vec![node("a", NodeKind::Other), node("b", NodeKind::Other)];
    let edges = vec![edge(2, 0)];
    match build(nodes, edges) {
        Err(e) => assert_eq!(e, GraphError::InvalidReference),
        Ok(_) => panic!("expected the build to fail"),
    }
}

#[test]
fn build_fails_on_out_of_range_target() {
    let nodes = vec![node("a", NodeKind::Other)];
    let edges = vec![edge(0, 1)];
    match build(nodes, edges) {
        Err(e) => assert_eq!(e, GraphError::InvalidReference),
        Ok(_) => panic!("expected the build to fail"),
    }
}

#[test]
fn build_empty_graph_is_not_an_error() {
    let g = build(vec![], vec![]).unwrap();
    assert_eq!(g.node_count(), 0);
    assert_eq!(g.edge_count(), 0);
}

#[test]
fn build_rejects_edge_into_empty_graph() {
    let edges = vec![edge(0, 0)];
    match build(vec![], edges) {
        Err(e) => assert_eq!(e, GraphError::InvalidReference),
        Ok(_) => panic!("expected the build to fail"),
    }
}

#[test]
fn build_places_nodes_on_distinct_grid_points() {
    let nodes = vec![
        node("a", NodeKind::Other),
        node("b", NodeKind::Other),
        node("c", NodeKind::Other),
    ];
    let g = build(nodes, vec![]).unwrap();
    assert_eq!((g.nodes[0].pos.x, g.nodes[0].pos.y), (0, 0));
    assert_eq!((g.nodes[1].pos.x, g.nodes[1].pos.y), (100, 0));
    assert_eq!((g.nodes[2].pos.x, g.nodes[2].pos.y), (200, 0));
}

#[test]
fn build_adjacency_lists_hold_incident_edges() {
    let nodes = vec![
        node("a", NodeKind::Other),
        node("b", NodeKind::Other),
        node("c", NodeKind::Other),
    ];
    let edges = vec![edge(0, 1), edge(1, 2)];
    let g = build(nodes, edges).unwrap();
    assert_eq!(g.adj[0], vec![0]);
    assert_eq!(g.adj[1], vec![0, 1]);
    assert_eq!(g.adj[2], vec![1]);
}

#[test]
fn build_clamps_edge_weights() {
    let nodes = vec![node("a", NodeKind::Other), node("b", NodeKind::Other)];
    let mut e1 = edge(0, 1);
    e1.weight = 0;
    let mut e2 = edge(1, 0);
    e2.weight = 99_999;
    let g = build(nodes, vec![e1, e2]).unwrap();
    assert_eq!(g.edges[0].weight, 1);
    assert_eq!(g.edges[1].weight, 1_000);
}

#[test]
fn read_access_matches_the_stored_data() {
    let nodes = vec![node("root", NodeKind::Module), node("leaf", NodeKind::File)];
    let edges = vec![edge(0, 1)];
    let g = build(nodes, edges).unwrap();
    assert_eq!(g.node(0).label, "root");
    assert_eq!(g.node(1).kind, NodeKind::File);
    assert_eq!(g.edge(0).source, 0);
    assert_eq!(g.edge(0).target, 1);
    assert_eq!(g.adjacency(0), &vec![0]);
    assert_eq!(g.adjacency(1), &vec![0]);
}

#[test]
fn build_from_ids_maps_ids_to_indices() {
    let nodes = vec![
        NodeInput { id: 900, label: "a".to_string(), kind: NodeKind::Module },
        NodeInput { id: 17, label: "b".to_string(), kind: NodeKind::File },
    ];
    let edges = vec![
        EdgeInput {
            source_id: 17,
            target_id: 900,
            directed: true,
            kind: EdgeKind::DependsOn,
            weight: 1,
        },
    ];
    let g = build_from_ids(nodes, edges).unwrap();
    assert_eq!(g.edge(0).source, 1);
    assert_eq!(g.edge(0).target, 0);
}

#[test]
fn build_from_ids_rejects_an_unknown_id() {
    let nodes = vec![NodeInput { id: 1, label: "a".to_string(), kind: NodeKind::Other }];
    let edges = vec![
        EdgeInput {
            source_id: 1,
            target_id: 2,
            directed: false,
            kind: EdgeKind::Other,
            weight: 1,
        },
    ];
    match build_from_ids(nodes, edges) {
        Err(e) => assert_eq!(e, GraphError::InvalidReference),
        Ok(_) => panic!("expected the build to fail"),
    }
}

#[test]
fn build_from_ids_takes_the_first_of_duplicate_ids() {
    let nodes = vec![
        NodeInput { id: 5, label: "first".to_string(), kind: NodeKind::Other },
        NodeInput { id: 5, label: "second".to_string(), kind: NodeKind::Other },
    ];
    let edges = vec![
        EdgeInput { source_id: 5, target_id: 5, directed: false, kind: EdgeKind::Other, weight: 1 },
    ];
    let g = build_from_ids(nodes, edges).unwrap();
    assert_eq!(g.edge(0).source, 0);
    assert_eq!(g.edge(0).target, 0);
}

#[test]
fn build_size_hint_grows_with_label_length() {
    let nodes = vec![node("ab", NodeKind::Other), node("abcdefgh", NodeKind::Other)];
    let g = build(nodes, vec![]).unwrap();
    assert_eq!(g.nodes[0].size.x, 20 + 8 * 2);
    assert_eq!(g.nodes[1].size.x, 20 + 8 * 8);
    assert_eq!(g.nodes[0].size.y, 24);
}
