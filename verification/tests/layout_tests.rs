use graphview::config::Config;
use graphview::geom::V2;
use graphview::graph::{build, EdgeData, EdgeKind, Graph, NodeData, NodeKind};
use graphview::layout::{relax, snap_pins, solve};

fn node(label: &str) -> NodeData {
    NodeData { label: label.to_string(), kind: NodeKind::Other }
}

fn edge(source: usize, target: usize) -> EdgeData {
    EdgeData { source, target, directed: false, kind: EdgeKind::Other, weight: 1 }
}

fn dist(g: &Graph, a: usize, b: usize) -> f64 {
    let dx = (g.nodes[a].pos.x - g.nodes[b].pos.x) as f64;
    let dy = (g.nodes[a].pos.y - g.nodes[b].pos.y) as f64;
    (dx * dx + dy * dy).sqrt()
}

#[test]
fn two_nodes_spring_settle_at_ideal_length() {
    let mut g = build(vec![node("a"), node("b")], vec![edge(0, 1)]).unwrap();
    g.set_position(0, V2 { x: 0, y: 0 });
    g.set_position(1, V2 { x: 300, y: 0 });
    let cfg = Config {
        repulsion: 0,
        ideal_edge_length: 100,
        damping_start: 500,
        damping_end: 500,
        iteration_budget: 300,
        convergence_epsilon: 0,
        centering: 0,
        ..Config::default()
    };
    let stats = solve(&mut g, &cfg);
    assert!(stats.converged);
    let d = dist(&g, 0, 1);
    assert!((d - 100.0).abs() <= 5.0, "distance {} not near 100", d);
}

#[test]
fn three_isolated_nodes_spread_but_stay_bounded() {
    let mut g = build(vec![node("a"), node("b"), node("c")], vec![]).unwrap();
    let cfg = Config {
        repulsion: 400_000,
        damping_start: 500,
        damping_end: 500,
        iteration_budget: 500,
        convergence_epsilon: 1,
        centering: 20,
        min_repulsion_dist: 10,
        ..Config::default()
    };
    solve(&mut g, &cfg);
    assert!(dist(&g, 0, 1) > 10.0);
    assert!(dist(&g, 0, 2) > 10.0);
    assert!(dist(&g, 1, 2) > 10.0);
    let cx = (g.nodes[0].pos.x + g.nodes[1].pos.x + g.nodes[2].pos.x) as f64 / 3.0;
    let cy = (g.nodes[0].pos.y + g.nodes[1].pos.y + g.nodes[2].pos.y) as f64 / 3.0;
    for i in 0..3 {
        let dx = g.nodes[i].pos.x as f64 - cx;
        let dy = g.nodes[i].pos.y as f64 - cy;
        let r = (dx * dx + dy * dy).sqrt();
        assert!(r < 50_000.0, "node {} drifted to radius {}", i, r);
    }
}

#[test]
fn chain_converges_within_default_budget() {
    let nodes = vec![node("a"), node("b"), node("c"), node("d")];
    let edges = vec![edge(0, 1), edge(1, 2), edge(2, 3)];
    let mut g = build(nodes, edges).unwrap();
    let cfg = Config::default();
    let stats = solve(&mut g, &cfg);
    assert!(stats.iterations >= 1);
    assert!(stats.iterations <= cfg.iteration_budget);
    assert!(stats.converged, "did not converge: {} iterations", stats.iterations);
    assert!(stats.last_disp <= cfg.convergence_epsilon);
}

#[test]
fn exhausted_budget_is_reported() {
    let mut g = build(vec![node("a"), node("b"), node("c")], vec![]).unwrap();
    let cfg = Config {
        repulsion: 400_000,
        iteration_budget: 3,
        convergence_epsilon: 0,
        ..Config::default()
    };
    let stats = solve(&mut g, &cfg);
    assert_eq!(stats.iterations, 3);
    assert!(!stats.converged);
    assert!(stats.last_disp > 0);
}

#[test]
fn pinned_node_holds_its_position_through_a_solve() {
    let mut g = build(vec![node("a"), node("b"), node("c")], vec![edge(0, 1), edge(1, 2)])
        .unwrap();
    g.set_pin(1, V2 { x: 4_000, y: -2_500 });
    let cfg = Config::default();
    solve(&mut g, &cfg);
    assert!(g.nodes[1].pinned);
    assert_eq!(g.nodes[1].pos.x, 4_000);
    assert_eq!(g.nodes[1].pos.y, -2_500);
}

#[test]
fn zero_budget_solve_only_snaps_pins() {
    let mut g = build(vec![node("a"), node("b")], vec![]).unwrap();
    g.set_pin(0, V2 { x: 77, y: 88 });
    let before = (g.nodes[1].pos.x, g.nodes[1].pos.y);
    let cfg = Config { iteration_budget: 0, ..Config::default() };
    let stats = solve(&mut g, &cfg);
    assert_eq!(stats.iterations, 0);
    assert!(stats.converged);
    assert_eq!((g.nodes[0].pos.x, g.nodes[0].pos.y), (77, 88));
    assert_eq!((g.nodes[1].pos.x, g.nodes[1].pos.y), before);
}

#[test]
fn relax_respects_pins_each_pass() {
    let mut g = build(vec![node("a"), node("b")], vec![edge(0, 1)]).unwrap();
    g.set_pin(0, V2 { x: 500, y: 500 });
    let cfg = Config::default();
    for _ in 0..4 {
        relax(&mut g, &cfg, 2);
        assert_eq!((g.nodes[0].pos.x, g.nodes[0].pos.y), (500, 500));
    }
}

#[test]
fn snap_pins_moves_only_pinned_nodes() {
    let mut g = build(vec![node("a"), node("b")], vec![]).unwrap();
    g.set_pin(0, V2 { x: 11, y: 22 });
    g.set_position(0, V2 { x: 0, y: 0 });
    let free = (g.nodes[1].pos.x, g.nodes[1].pos.y);
    snap_pins(&mut g);
    assert_eq!((g.nodes[0].pos.x, g.nodes[0].pos.y), (11, 22));
    assert_eq!((g.nodes[1].pos.x, g.nodes[1].pos.y), free);
}

#[test]
fn coincident_nodes_are_handled_without_a_direction() {
    let mut g = build(vec![node("a"), node("b")], vec![edge(0, 1)]).unwrap();
    g.set_position(0, V2 { x: 50, y: 50 });
    g.set_position(1, V2 { x: 50, y: 50 });
    let cfg = Config::default();
    let stats = solve(&mut g, &cfg);
    assert!(stats.iterations <= cfg.iteration_budget);
    for i in 0..2 {
        assert!(g.nodes[i].pos.x.abs() <= 1_000_000);
        assert!(g.nodes[i].pos.y.abs() <= 1_000_000);
    }
}

#[test]
fn positions_stay_inside_the_world_region() {
    let mut g = build(vec![node("a"), node("b"), node("c")], vec![]).unwrap();
    let cfg = Config { repulsion: 1_000_000_000, centering: 0, ..Config::default() };
    solve(&mut g, &cfg);
    for i in 0..3 {
        assert!(g.nodes[i].pos.x.abs() <= 1_000_000);
        assert!(g.nodes[i].pos.y.abs() <= 1_000_000);
    }
}
