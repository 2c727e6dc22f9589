use graphview::config::Config;
use graphview::geom::V2;
use graphview::graph::{build, EdgeData, EdgeKind, NodeData, NodeKind};
use graphview::render::{render, Draw};
use graphview::viewport::Viewport;

fn node(label: &str) -> NodeData {
    NodeData { label: label.to_string(), kind: NodeKind::Module }
}

fn edge(source: usize, target: usize) -> EdgeData {
    EdgeData { source, target, directed: true, kind: EdgeKind::Contains, weight: 1 }
}

fn view(zoom: i64) -> Viewport {
    Viewport { cam: V2 { x: 0, y: 0 }, zoom, width: 800, height: 600 }
}

#[test]
fn draw_order_is_edges_then_nodes_with_labels() {
    let cfg = Config::default();
    let mut g = build(vec![node("a"), node("b")], vec![edge(0, 1)]).unwrap();
    g.set_position(0, V2 { x: -50, y: 0 });
    g.set_position(1, V2 { x: 50, y: 0 });
    let cmds = render(&g, &view(2), &cfg);
    assert_eq!(cmds.len(), 5);
    assert!(matches!(cmds[0], Draw::EdgeLine { directed: true, .. }));
    assert!(matches!(cmds[1], Draw::NodeBox { index: 0, .. }));
    assert!(matches!(cmds[2], Draw::Label { .. }));
    assert!(matches!(cmds[3], Draw::NodeBox { index: 1, .. }));
    assert!(matches!(cmds[4], Draw::Label { .. }));
    match &cmds[2] {
        Draw::Label { text, .. } => assert_eq!(text, "a"),
        _ => unreachable!(),
    }
}

#[test]
fn labels_are_hidden_below_the_zoom_threshold() {
    let cfg = Config::default();
    let g = build(vec![node("a")], vec![]).unwrap();
    let cmds = render(&g, &view(1), &cfg);
    assert_eq!(cmds.len(), 1);
    assert!(matches!(cmds[0], Draw::NodeBox { .. }));
}

#[test]
fn off_screen_nodes_are_culled() {
    let cfg = Config::default();
    let mut g = build(vec![node("far"), node("near")], vec![]).unwrap();
    g.set_position(0, V2 { x: 900_000, y: 900_000 });
    g.set_position(1, V2 { x: 0, y: 0 });
    let cmds = render(&g, &view(2), &cfg);
    assert_eq!(cmds.len(), 2);
    assert!(matches!(cmds[0], Draw::NodeBox { index: 1, .. }));
}

#[test]
fn edges_are_culled_by_their_bounding_box() {
    let cfg = Config::default();
    let mut g = build(
        vec![node("a"), node("b"), node("c"), node("d")],
        vec![edge(0, 1), edge(2, 3)],
    )
    .unwrap();
    g.set_position(0, V2 { x: 500_000, y: 0 });
    g.set_position(1, V2 { x: 600_000, y: 0 });
    g.set_position(2, V2 { x: -500_000, y: 0 });
    g.set_position(3, V2 { x: 500_000, y: 0 });
    let cmds = render(&g, &view(2), &cfg);
    let lines = cmds
        .iter()
        .filter(|c| matches!(c, Draw::EdgeLine { .. }))
        .count();
    assert_eq!(lines, 1, "only the edge straddling the screen survives");
}

#[test]
fn edge_endpoints_are_screen_coordinates() {
    let cfg = Config::default();
    let mut g = build(vec![node("a"), node("b")], vec![edge(0, 1)]).unwrap();
    g.set_position(0, V2 { x: -100, y: 0 });
    g.set_position(1, V2 { x: 100, y: -50 });
    let cmds = render(&g, &view(2), &cfg);
    match &cmds[0] {
        Draw::EdgeLine { from, to, .. } => {
            assert_eq!((from.x, from.y), (-100 * 2 + 400, 0 * 2 + 300));
            assert_eq!((to.x, to.y), (100 * 2 + 400, -50 * 2 + 300));
        }
        _ => panic!("expected the edge first"),
    }
}

#[test]
fn empty_graph_renders_an_empty_frame() {
    let cfg = Config::default();
    let g = build(vec![], vec![]).unwrap();
    let cmds = render(&g, &view(1), &cfg);
    assert!(cmds.is_empty());
}

#[test]
fn node_box_uses_the_label_size_hint() {
    let cfg = Config::default();
    let g = build(vec![node("abcd")], vec![]).unwrap();
    let cmds = render(&g, &view(2), &cfg);
    match &cmds[0] {
        Draw::NodeBox { half, .. } => {
            assert_eq!(half.x, (20 + 8 * 4) * 2 / 2);
            assert_eq!(half.y, 24 * 2 / 2);
        }
        _ => panic!("expected a node box"),
    }
}
