use graphview::config::Config;
use graphview::geom::V2;
use graphview::graph::{build, EdgeData, EdgeKind, NodeData, NodeKind};
use graphview::interact::{Controller, PointerState};
use graphview::layout::relax;
use graphview::render::hit_test;
use graphview::viewport::world_to_screen;

fn node(label: &str) -> NodeData {
    NodeData { label: label.to_string(), kind: NodeKind::Symbol }
}

fn edge(source: usize, target: usize) -> EdgeData {
    EdgeData { source, target, directed: false, kind: EdgeKind::Other, weight: 1 }
}

#[test]
fn drag_pins_node_to_pointer_every_frame() {
    let cfg = Config { pin_on_release: false, ..Config::default() };
    let mut g = build(vec![node("a"), node("b")], vec![edge(0, 1)]).unwrap();
    g.set_position(0, V2 { x: 0, y: 0 });
    g.set_position(1, V2 { x: 200, y: 0 });
    let mut ctl = Controller::new(&cfg, 800, 600);

    let over_b = world_to_screen(&ctl.vp, &cfg, V2 { x: 200, y: 0 });
    ctl.pointer_down(&cfg, &mut g, over_b);
    assert_eq!(ctl.state, PointerState::DraggingNode { index: 1 });
    assert!(g.nodes[1].pinned);

    let target_world = V2 { x: 300, y: 250 };
    let target_screen = world_to_screen(&ctl.vp, &cfg, target_world);
    let moved = ctl.pointer_move(&cfg, &mut g, target_screen);
    assert!(moved);
    assert_eq!((g.nodes[1].pos.x, g.nodes[1].pos.y), (300, 250));

    for _ in 0..3 {
        relax(&mut g, &cfg, 2);
        assert_eq!((g.nodes[1].pos.x, g.nodes[1].pos.y), (300, 250));
    }

    ctl.pointer_up(&cfg, &mut g);
    assert_eq!(ctl.state, PointerState::Idle);
    assert!(!g.nodes[1].pinned);
    relax(&mut g, &cfg, 1);
    let p = (g.nodes[1].pos.x, g.nodes[1].pos.y);
    assert_ne!(p, (300, 250), "released node should move under the spring");
}

#[test]
fn pin_on_release_policy_keeps_the_pin() {
    let cfg = Config { pin_on_release: true, ..Config::default() };
    let mut g = build(vec![node("a"), node("b")], vec![edge(0, 1)]).unwrap();
    g.set_position(1, V2 { x: 200, y: 0 });
    let mut ctl = Controller::new(&cfg, 800, 600);
    let over_b = world_to_screen(&ctl.vp, &cfg, V2 { x: 200, y: 0 });
    ctl.pointer_down(&cfg, &mut g, over_b);
    assert_eq!(ctl.state, PointerState::DraggingNode { index: 1 });
    ctl.pointer_up(&cfg, &mut g);
    assert_eq!(ctl.state, PointerState::Idle);
    assert!(g.nodes[1].pinned);
    relax(&mut g, &cfg, 3);
    assert_eq!((g.nodes[1].pos.x, g.nodes[1].pos.y), (200, 0));
}

#[test]
fn drag_on_empty_space_pans_the_view() {
    let cfg = Config::default();
    let mut g = build(vec![node("a")], vec![]).unwrap();
    g.set_position(0, V2 { x: 900_000, y: 900_000 });
    let mut ctl = Controller::new(&cfg, 800, 600);
    ctl.pointer_down(&cfg, &mut g, V2 { x: 100, y: 100 });
    assert_eq!(ctl.state, PointerState::Panning { last: V2 { x: 100, y: 100 } });
    assert!(!g.nodes[0].pinned);
    let cam_before = (ctl.vp.cam.x, ctl.vp.cam.y);
    let moved = ctl.pointer_move(&cfg, &mut g, V2 { x: 130, y: 80 });
    assert!(moved);
    assert_ne!((ctl.vp.cam.x, ctl.vp.cam.y), cam_before);
    assert_eq!(ctl.state, PointerState::Panning { last: V2 { x: 130, y: 80 } });
    ctl.pointer_up(&cfg, &mut g);
    assert_eq!(ctl.state, PointerState::Idle);
}

#[test]
fn idle_motion_changes_nothing() {
    let cfg = Config::default();
    let mut g = build(vec![node("a")], vec![]).unwrap();
    let mut ctl = Controller::new(&cfg, 800, 600);
    let moved = ctl.pointer_move(&cfg, &mut g, V2 { x: 10, y: 10 });
    assert!(!moved);
    assert_eq!(ctl.state, PointerState::Idle);
}

#[test]
fn hit_test_prefers_the_topmost_node() {
    let cfg = Config::default();
    let mut g = build(vec![node("a"), node("b")], vec![]).unwrap();
    g.set_position(0, V2 { x: 0, y: 0 });
    g.set_position(1, V2 { x: 0, y: 0 });
    let ctl = Controller::new(&cfg, 800, 600);
    let center = world_to_screen(&ctl.vp, &cfg, V2 { x: 0, y: 0 });
    assert_eq!(hit_test(&g, &ctl.vp, &cfg, center), Some(1));
}

#[test]
fn hit_test_misses_empty_space() {
    let cfg = Config::default();
    let mut g = build(vec![node("a")], vec![]).unwrap();
    g.set_position(0, V2 { x: 0, y: 0 });
    let ctl = Controller::new(&cfg, 800, 600);
    assert_eq!(hit_test(&g, &ctl.vp, &cfg, V2 { x: 799, y: 599 }), None);
}

#[test]
fn zoom_input_keeps_cursor_anchored() {
    let cfg = Config::default();
    let g = build(vec![node("a")], vec![]).unwrap();
    let mut ctl = Controller::new(&cfg, 800, 600);
    let cursor = V2 { x: 200, y: 450 };
    let before = graphview::viewport::screen_to_world(&ctl.vp, &cfg, cursor);
    assert!(ctl.zoom_input(&cfg, &g, cursor, 16));
    assert_eq!(ctl.vp.zoom, 16);
    let after = graphview::viewport::screen_to_world(&ctl.vp, &cfg, cursor);
    assert_eq!((after.x, after.y), (before.x, before.y));
}
