//! The force-directed layout engine: inverse-distance repulsion
//! between node pairs, spring attraction along edges, a weak pull
//! toward the graph centroid, a cooling schedule, and pin overrides,
//! iterated until the movement falls under the convergence threshold
//! or the iteration budget runs out.

use vstd::prelude::*;
use crate::config::Config;
use crate::geom::{
    abs_i64, abs_spec, clamp_i64, clamp_spec, clamp_world, div_floor, in_world, isqrt, lemma_mul_abs_bounded,
    V2, DIST_LIMIT, POS_LIMIT,
};
use crate::graph::{edge_ok, lemma_wf_after_node_update, node_ok, same_topology, Graph, MAX_NODES};

verus! {

/// No node moves farther than this in one iteration, whatever the
/// forces add up to.
pub const MAX_STEP: i64 = 50_000;

/// One force term, after its division, is capped at this.
pub const TERM_CAP: i64 = 100_000_000;

/// An accumulated force component is capped at this.
pub const ACC_CAP: i64 = 1_000_000_000;

/// Chebyshev distance between two points: the per-node movement
/// measure of the convergence test.
pub open spec fn cheb(a: V2, b: V2) -> int {
    let dx = abs_spec(b.x - a.x);
    let dy = abs_spec(b.y - a.y);
    if dx >= dy {
        dx
    } else {
        dy
    }
}

/// Every pinned node sits exactly at its pinned position.
pub open spec fn pins_hold(g: Graph) -> bool {
    forall|i: int|
        0 <= i < g.n() && (#[trigger] g.nodes@[i]).pinned ==> g.nodes@[i].pos
            == g.nodes@[i].pin_pos
}

/// What one full solve reports.
#[derive(Clone, Copy, PartialEq, Eq, Structural, Debug)]
pub struct SolveStats {
    /// Iterations actually run.
    pub iterations: usize,
    /// Largest movement of an unpinned node in the last iteration
    /// that ran; zero when none did.
    pub last_disp: i64,
    /// Whether that movement was within the convergence threshold.
    pub converged: bool,
}

/// Sum of the x coordinates of the first `k` nodes.
pub open spec fn sum_x(g: Graph, k: int) -> int
    decreases k,
{
    if k <= 0 {
        0
    } else {
        sum_x(g, k - 1) + g.nodes@[k - 1].pos.x
    }
}

/// Sum of the y coordinates of the first `k` nodes.
pub open spec fn sum_y(g: Graph, k: int) -> int
    decreases k,
{
    if k <= 0 {
        0
    } else {
        sum_y(g, k - 1) + g.nodes@[k - 1].pos.y
    }
}

/// The centroid of all node positions, each coordinate the floored
/// average.
pub open spec fn centroid_spec(g: Graph) -> V2 {
    V2 { x: (sum_x(g, g.n()) / g.n()) as i64, y: (sum_y(g, g.n()) / g.n()) as i64 }
}

/// The repulsion a node at `q` applies to a node at `p`: an
/// inverse-distance push along the line between them, the distance
/// capped below at the configured minimum, each component capped.
pub open spec fn repulse_term(cfg: Config, p: V2, q: V2) -> (int, int) {
    let dx = p.x - q.x;
    let dy = p.y - q.y;
    if dx == 0 && dy == 0 {
        (0, 0)
    } else {
        let dist = crate::geom::isqrt_spec(dx * dx + dy * dy);
        let d = if dist < cfg.min_repulsion_dist {
            cfg.min_repulsion_dist as int
        } else {
            dist
        };
        (
            clamp_spec(cfg.repulsion * dx / (d * d), -TERM_CAP as int, TERM_CAP as int),
            clamp_spec(cfg.repulsion * dy / (d * d), -TERM_CAP as int, TERM_CAP as int),
        )
    }
}

/// The repulsion on node `i` accumulated over the first `k` nodes,
/// the running sum capped at each addition.
pub open spec fn repulse_acc(g: Graph, cfg: Config, i: int, k: int) -> (int, int)
    decreases k,
{
    if k <= 0 {
        (0, 0)
    } else {
        let prev = repulse_acc(g, cfg, i, k - 1);
        if k - 1 == i {
            prev
        } else {
            let dx = g.nodes@[i].pos.x - g.nodes@[k - 1].pos.x;
            let dy = g.nodes@[i].pos.y - g.nodes@[k - 1].pos.y;
            if dx == 0 && dy == 0 {
                prev
            } else {
                let t = repulse_term(cfg, g.nodes@[i].pos, g.nodes@[k - 1].pos);
                (
                    clamp_spec(prev.0 + t.0, -ACC_CAP as int, ACC_CAP as int),
                    clamp_spec(prev.1 + t.1, -ACC_CAP as int, ACC_CAP as int),
                )
            }
        }
    }
}

/// The spring pull toward the other endpoint `q` of an edge of
/// weight `w` on a node at `p`: proportional to how far the distance
/// is from the ideal edge length, along the edge, each component
/// capped.
pub open spec fn attract_term(cfg: Config, p: V2, q: V2, w: int) -> (int, int) {
    let dx = q.x - p.x;
    let dy = q.y - p.y;
    if dx == 0 && dy == 0 {
        (0, 0)
    } else {
        let dist = crate::geom::isqrt_spec(dx * dx + dy * dy);
        let delta = dist - cfg.ideal_edge_length;
        (
            clamp_spec(delta * w * dx / (2 * dist), -TERM_CAP as int, TERM_CAP as int),
            clamp_spec(delta * w * dy / (2 * dist), -TERM_CAP as int, TERM_CAP as int),
        )
    }
}

/// The repulsion on node `i` over all nodes, plus the attraction
/// accumulated over its first `k` incident edges.
pub open spec fn attract_acc(g: Graph, cfg: Config, i: int, k: int) -> (int, int)
    decreases k,
{
    if k <= 0 {
        repulse_acc(g, cfg, i, g.n())
    } else {
        let prev = attract_acc(g, cfg, i, k - 1);
        let e = g.edges@[g.adj@[i]@[k - 1] as int];
        let other = if e.source == i {
            e.target as int
        } else {
            e.source as int
        };
        let dx = g.nodes@[other].pos.x - g.nodes@[i].pos.x;
        let dy = g.nodes@[other].pos.y - g.nodes@[i].pos.y;
        if dx == 0 && dy == 0 {
            prev
        } else {
            let t = attract_term(cfg, g.nodes@[i].pos, g.nodes@[other].pos, e.weight as int);
            (
                clamp_spec(prev.0 + t.0, -ACC_CAP as int, ACC_CAP as int),
                clamp_spec(prev.1 + t.1, -ACC_CAP as int, ACC_CAP as int),
            )
        }
    }
}

/// The whole force on node `i`: repulsion from every other node,
/// attraction along every incident edge, then the centering pull
/// toward `c`, the sum capped at each addition.
pub open spec fn node_force_spec(g: Graph, cfg: Config, i: int, c: V2) -> (int, int) {
    let a = attract_acc(g, cfg, i, g.adj@[i]@.len() as int);
    let tx = clamp_spec(
        cfg.centering * (c.x - g.nodes@[i].pos.x) / 1000,
        -TERM_CAP as int,
        TERM_CAP as int,
    );
    let ty = clamp_spec(
        cfg.centering * (c.y - g.nodes@[i].pos.y) / 1000,
        -TERM_CAP as int,
        TERM_CAP as int,
    );
    (
        clamp_spec(a.0 + tx, -ACC_CAP as int, ACC_CAP as int),
        clamp_spec(a.1 + ty, -ACC_CAP as int, ACC_CAP as int),
    )
}

/// Where one iteration puts node `i`: a pinned node at its pin, any
/// other node moved by its damped, capped force and held inside the
/// world region.
pub open spec fn new_pos_spec(g: Graph, cfg: Config, damp: int, i: int) -> V2 {
    let nd = g.nodes@[i];
    if nd.pinned {
        nd.pin_pos
    } else {
        let f = node_force_spec(g, cfg, i, centroid_spec(g));
        let mx = clamp_spec(f.0 * damp / 1000, -MAX_STEP as int, MAX_STEP as int);
        let my = clamp_spec(f.1 * damp / 1000, -MAX_STEP as int, MAX_STEP as int);
        V2 {
            x: clamp_spec(nd.pos.x + mx, -POS_LIMIT as int, POS_LIMIT as int) as i64,
            y: clamp_spec(nd.pos.y + my, -POS_LIMIT as int, POS_LIMIT as int) as i64,
        }
    }
}

/// The average of all node positions, the anchor of the weak
/// centering force.
fn centroid(g: &Graph) -> (c: V2)
    requires
        g.wf(),
        g.n() > 0,
    ensures
        in_world(c),
        c == centroid_spec(*g),
{
    let n = g.nodes.len();
    let mut sx: i64 = 0;
    let mut sy: i64 = 0;
    let mut i: usize = 0;
    while i < n
        invariant
            g.wf(),
            n == g.nodes@.len(),
            n <= MAX_NODES,
            i <= n,
            abs_spec(sx as int) <= i * POS_LIMIT,
            abs_spec(sy as int) <= i * POS_LIMIT,
            sx == sum_x(*g, i as int),
            sy == sum_y(*g, i as int),
        decreases n - i,
    {
        proof {
            assert(node_ok(g.nodes@[i as int]));
        }
        sx = sx + g.nodes[i].pos.x;
        sy = sy + g.nodes[i].pos.y;
        i += 1;
    }
    proof {
        lemma_avg_in_range(sx as int, n as int, POS_LIMIT as int);
        lemma_avg_in_range(sy as int, n as int, POS_LIMIT as int);
    }
    let cx = div_floor(sx, n as i64);
    let cy = div_floor(sy, n as i64);
    V2 { x: cx, y: cy }
}

/// An average of values bounded by `lim` is bounded by `lim`.
proof fn lemma_avg_in_range(s: int, n: int, lim: int)
    requires
        1 <= n,
        0 <= lim,
        abs_spec(s) <= n * lim,
    ensures
        abs_spec(s / n) <= lim,
{
    vstd::arithmetic::div_mod::lemma_div_multiples_vanish(lim, n);
    vstd::arithmetic::div_mod::lemma_div_multiples_vanish(-lim, n);
    vstd::arithmetic::div_mod::lemma_div_is_ordered(s, n * lim, n);
    vstd::arithmetic::div_mod::lemma_div_is_ordered(-(n * lim), s, n);
    assert(n * (-lim) == -(n * lim)) by (nonlinear_arith);
}

/// The total force on node `i` from the current positions: repulsion
/// from every other node, spring attraction along each incident
/// edge, and the centering pull, each term capped, the sum capped.
fn node_force(g: &Graph, cfg: &Config, i: usize, center: V2) -> (f: V2)
    requires
        g.wf(),
        cfg.valid(),
        i < g.n(),
        in_world(center),
    ensures
        abs_spec(f.x as int) <= ACC_CAP,
        abs_spec(f.y as int) <= ACC_CAP,
        (f.x as int, f.y as int) == node_force_spec(*g, *cfg, i as int, center),
{
    let n = g.nodes.len();
    proof {
        assert(node_ok(g.nodes@[i as int]));
    }
    let p = g.nodes[i].pos;
    let mut ax: i64 = 0;
    let mut ay: i64 = 0;

    let mut j: usize = 0;
    while j < n
        invariant
            g.wf(),
            cfg.valid(),
            n == g.nodes@.len(),
            i < n,
            j <= n,
            p == g.nodes@[i as int].pos,
            in_world(p),
            abs_spec(ax as int) <= ACC_CAP,
            abs_spec(ay as int) <= ACC_CAP,
            (ax as int, ay as int) == repulse_acc(*g, *cfg, i as int, j as int),
        decreases n - j,
    {
        if j != i {
            proof {
                assert(node_ok(g.nodes@[j as int]));
            }
            let q = g.nodes[j].pos;
            let dx = p.x - q.x;
            let dy = p.y - q.y;
            if dx != 0 || dy != 0 {
                proof {
                    lemma_mul_abs_bounded(dx as int, dx as int, 2 * POS_LIMIT, 2 * POS_LIMIT);
                    lemma_mul_abs_bounded(dy as int, dy as int, 2 * POS_LIMIT, 2 * POS_LIMIT);
                    assert(dx * dx >= 0) by (nonlinear_arith);
                    assert(dy * dy >= 0) by (nonlinear_arith);
                }
                let d2 = dx * dx + dy * dy;
                let dist = isqrt(d2 as u64) as i64;
                let d = if dist < cfg.min_repulsion_dist {
                    cfg.min_repulsion_dist
                } else {
                    dist
                };
                proof {
                    assert(1 <= d <= DIST_LIMIT);
                    lemma_mul_abs_bounded(d as int, d as int, DIST_LIMIT as int, DIST_LIMIT as int);
                    assert(d * d >= 1) by (nonlinear_arith)
                        requires
                            d >= 1,
                    ;
                    lemma_mul_abs_bounded(
                        cfg.repulsion as int,
                        dx as int,
                        1_000_000_000,
                        2 * POS_LIMIT,
                    );
                    lemma_mul_abs_bounded(
                        cfg.repulsion as int,
                        dy as int,
                        1_000_000_000,
                        2 * POS_LIMIT,
                    );
                }
                let fx = clamp_i64(div_floor(cfg.repulsion * dx, d * d), -TERM_CAP, TERM_CAP);
                let fy = clamp_i64(div_floor(cfg.repulsion * dy, d * d), -TERM_CAP, TERM_CAP);
                ax = clamp_i64(ax + fx, -ACC_CAP, ACC_CAP);
                ay = clamp_i64(ay + fy, -ACC_CAP, ACC_CAP);
            }
        }
        j += 1;
    }

    proof {
        assert(g.adj_list_ok(i as int));
    }
    let deg = g.adj[i].len();
    let mut k: usize = 0;
    while k < deg
        invariant
            g.wf(),
            cfg.valid(),
            i < g.nodes@.len(),
            deg == g.adj@[i as int]@.len(),
            k <= deg,
            p == g.nodes@[i as int].pos,
            in_world(p),
            abs_spec(ax as int) <= ACC_CAP,
            abs_spec(ay as int) <= ACC_CAP,
            (ax as int, ay as int) == attract_acc(*g, *cfg, i as int, k as int),
        decreases deg - k,
    {
        proof {
            assert(g.adj_list_ok(i as int));
        }
        let e_idx = g.adj[i][k];
        let e = g.edges[e_idx];
        proof {
            assert(edge_ok(g.edges@[e_idx as int], g.n()));
        }
        let other = if e.source == i {
            e.target
        } else {
            e.source
        };
        proof {
            assert(node_ok(g.nodes@[other as int]));
        }
        let q = g.nodes[other].pos;
        let dx = q.x - p.x;
        let dy = q.y - p.y;
        if dx != 0 || dy != 0 {
            proof {
                lemma_mul_abs_bounded(dx as int, dx as int, 2 * POS_LIMIT, 2 * POS_LIMIT);
                lemma_mul_abs_bounded(dy as int, dy as int, 2 * POS_LIMIT, 2 * POS_LIMIT);
                assert(dx * dx >= 0) by (nonlinear_arith);
                assert(dy * dy >= 0) by (nonlinear_arith);
                assert(dx * dx + dy * dy >= 1) by (nonlinear_arith)
                    requires
                        dx != 0 || dy != 0,
                ;
            }
            let d2 = dx * dx + dy * dy;
            let d2u: u64 = d2 as u64;
            let dist_u = isqrt(d2u);
            proof {
                assert(d2u >= 1);
                assert(dist_u >= 1) by (nonlinear_arith)
                    requires
                        (dist_u + 1) * (dist_u + 1) > d2u,
                        d2u >= 1,
                ;
            }
            let dist = dist_u as i64;
            let delta = dist - cfg.ideal_edge_length;
            proof {
                lemma_mul_abs_bounded(
                    delta as int,
                    e.weight as int,
                    DIST_LIMIT as int + POS_LIMIT as int,
                    crate::graph::WEIGHT_LIMIT as int,
                );
                lemma_mul_abs_bounded(
                    (delta * e.weight) as int,
                    dx as int,
                    (DIST_LIMIT as int + POS_LIMIT as int) * crate::graph::WEIGHT_LIMIT as int,
                    2 * POS_LIMIT,
                );
                lemma_mul_abs_bounded(
                    (delta * e.weight) as int,
                    dy as int,
                    (DIST_LIMIT as int + POS_LIMIT as int) * crate::graph::WEIGHT_LIMIT as int,
                    2 * POS_LIMIT,
                );
            }
            let fx = clamp_i64(div_floor(delta * e.weight * dx, 2 * dist), -TERM_CAP, TERM_CAP);
            let fy = clamp_i64(div_floor(delta * e.weight * dy, 2 * dist), -TERM_CAP, TERM_CAP);
            ax = clamp_i64(ax + fx, -ACC_CAP, ACC_CAP);
            ay = clamp_i64(ay + fy, -ACC_CAP, ACC_CAP);
        }
        k += 1;
    }

    proof {
        lemma_mul_abs_bounded(cfg.centering as int, center.x - p.x, 1000, 2 * POS_LIMIT);
        lemma_mul_abs_bounded(cfg.centering as int, center.y - p.y, 1000, 2 * POS_LIMIT);
    }
    let fx = clamp_i64(div_floor(cfg.centering * (center.x - p.x), 1000), -TERM_CAP, TERM_CAP);
    let fy = clamp_i64(div_floor(cfg.centering * (center.y - p.y), 1000), -TERM_CAP, TERM_CAP);
    let ax = clamp_i64(ax + fx, -ACC_CAP, ACC_CAP);
    let ay = clamp_i64(ay + fy, -ACC_CAP, ACC_CAP);
    V2 { x: ax, y: ay }
}

/// One relaxation iteration over every node: pinned nodes snap to
/// their pins, every other node moves by its damped, capped force.
/// Returns the largest movement of an unpinned node, the exact
/// maximum over them.
pub fn step(g: &mut Graph, cfg: &Config, damp: i64) -> (max_disp: i64)
    requires
        old(g).wf(),
        cfg.valid(),
        0 <= damp <= 1000,
    ensures
        final(g).wf(),
        same_topology(*old(g), *final(g)),
        pins_hold(*final(g)),
        0 <= max_disp <= MAX_STEP,
        forall|i: int|
            0 <= i < final(g).n() && !(#[trigger] final(g).nodes@[i]).pinned ==> cheb(
                old(g).nodes@[i].pos,
                final(g).nodes@[i].pos,
            ) <= max_disp,
        max_disp == 0 || exists|i: int|
            0 <= i < final(g).n() && !(#[trigger] final(g).nodes@[i]).pinned && cheb(
                old(g).nodes@[i].pos,
                final(g).nodes@[i].pos,
            ) == max_disp,
        forall|i: int|
            0 <= i < final(g).n() ==> (#[trigger] final(g).nodes@[i]).pos == new_pos_spec(
                *old(g),
                *cfg,
                damp as int,
                i,
            ),
{
    let n = g.nodes.len();
    if n == 0 {
        return 0;
    }
    let c = centroid(g);

    let mut new_pos: Vec<V2> = Vec::new();
    let mut i: usize = 0;
    while i < n
        invariant
            *g == *old(g),
            g.wf(),
            cfg.valid(),
            0 <= damp <= 1000,
            n == g.nodes@.len(),
            in_world(c),
            i <= n,
            new_pos@.len() == i,
            forall|k: int| 0 <= k < i ==> in_world(#[trigger] new_pos@[k]),
            forall|k: int|
                0 <= k < i && g.nodes@[k].pinned ==> #[trigger] new_pos@[k]
                    == g.nodes@[k].pin_pos,
            forall|k: int|
                0 <= k < i && !g.nodes@[k].pinned ==> cheb(g.nodes@[k].pos, #[trigger] new_pos@[k])
                    <= MAX_STEP,
            c == centroid_spec(*g),
            forall|k: int|
                0 <= k < i ==> #[trigger] new_pos@[k] == new_pos_spec(*g, *cfg, damp as int, k),
        decreases n - i,
    {
        proof {
            assert(node_ok(g.nodes@[i as int]));
        }
        if g.nodes[i].pinned {
            let pp = g.nodes[i].pin_pos;
            new_pos.push(pp);
        } else {
            let f = node_force(g, cfg, i, c);
            proof {
                lemma_mul_abs_bounded(f.x as int, damp as int, ACC_CAP as int, 1000);
                lemma_mul_abs_bounded(f.y as int, damp as int, ACC_CAP as int, 1000);
            }
            let mx = clamp_i64(div_floor(f.x * damp, 1000), -MAX_STEP, MAX_STEP);
            let my = clamp_i64(div_floor(f.y * damp, 1000), -MAX_STEP, MAX_STEP);
            let p = g.nodes[i].pos;
            let q = clamp_world(V2 { x: p.x + mx, y: p.y + my });
            new_pos.push(q);
        }
        i += 1;
    }

    let mut max_disp: i64 = 0;
    let ghost mut wit: int = 0;
    let mut i: usize = 0;
    while i < n
        invariant
            cfg.valid(),
            n == g.nodes@.len(),
            new_pos@.len() == n,
            i <= n,
            g.wf(),
            same_topology(*old(g), *g),
            forall|k: int| i <= k < n ==> #[trigger] g.nodes@[k] == old(g).nodes@[k],
            forall|k: int| 0 <= k < i ==> (#[trigger] g.nodes@[k]).pos == new_pos@[k],
            forall|k: int| 0 <= k < n ==> in_world(#[trigger] new_pos@[k]),
            forall|k: int|
                0 <= k < n && old(g).nodes@[k].pinned ==> #[trigger] new_pos@[k] == old(g).nodes@[k].pin_pos,
            forall|k: int|
                0 <= k < n && !old(g).nodes@[k].pinned ==> cheb(
                    old(g).nodes@[k].pos,
                    #[trigger] new_pos@[k],
                ) <= MAX_STEP,
            forall|k: int|
                0 <= k < n ==> #[trigger] new_pos@[k] == new_pos_spec(*old(g), *cfg, damp as int, k),
            0 <= max_disp <= MAX_STEP,
            forall|k: int|
                0 <= k < i && !old(g).nodes@[k].pinned ==> cheb(
                    old(g).nodes@[k].pos,
                    #[trigger] new_pos@[k],
                ) <= max_disp,
            max_disp == 0 || (0 <= wit < i && !old(g).nodes@[wit].pinned && cheb(
                old(g).nodes@[wit].pos,
                new_pos@[wit],
            ) == max_disp),
        decreases n - i,
    {
        let ghost g_before = *g;
        let prev = g.nodes[i].pos;
        let np = new_pos[i];
        g.nodes[i].pos = np;
        proof {
            lemma_wf_after_node_update(g_before, *g, i as int);
        }
        if !g.nodes[i].pinned {
            let dxa = abs_i64(np.x - prev.x);
            let dya = abs_i64(np.y - prev.y);
            let d = if dxa >= dya {
                dxa
            } else {
                dya
            };
            if d > max_disp {
                max_disp = d;
                proof {
                    wit = i as int;
                }
            }
        }
        i += 1;
    }
    proof {
        if max_disp != 0 {
            assert(!g.nodes@[wit].pinned);
            assert(g.nodes@[wit].pos == new_pos@[wit]);
            assert(cheb(old(g).nodes@[wit].pos, g.nodes@[wit].pos) == max_disp);
        }
    }
    max_disp
}

/// Snap every pinned node to its pin; no other position changes.
pub fn snap_pins(g: &mut Graph)
    requires
        old(g).wf(),
    ensures
        final(g).wf(),
        same_topology(*old(g), *final(g)),
        pins_hold(*final(g)),
        forall|i: int|
            0 <= i < final(g).n() && !(#[trigger] final(g).nodes@[i]).pinned
                ==> final(g).nodes@[i].pos == old(g).nodes@[i].pos,
    {
    let n = g.nodes.len();
    let mut i: usize = 0;
    while i < n
        invariant
            n == g.nodes@.len(),
            i <= n,
            g.wf(),
            same_topology(*old(g), *g),
            forall|k: int| i <= k < n ==> #[trigger] g.nodes@[k] == old(g).nodes@[k],
            forall|k: int|
                0 <= k < i && g.nodes@[k].pinned ==> (#[trigger] g.nodes@[k]).pos
                    == g.nodes@[k].pin_pos,
            forall|k: int|
                0 <= k < i && !g.nodes@[k].pinned ==> (#[trigger] g.nodes@[k]).pos == old(g).nodes@[k].pos,
        decreases n - i,
    {
        let ghost g_before = *g;
        if g.nodes[i].pinned {
            let pp = g.nodes[i].pin_pos;
            g.nodes[i].pos = pp;
            proof {
                assert(node_ok(g_before.nodes@[i as int]));
                lemma_wf_after_node_update(g_before, *g, i as int);
            }
        }
        i += 1;
    }
}

/// The cooling schedule, as a value: a linear slide from
/// `damping_start` at the first iteration toward `damping_end` at
/// the budget.
pub open spec fn damp_spec(cfg: Config, it: int) -> int {
    cfg.damping_start - (cfg.damping_start - cfg.damping_end) * it / (
    cfg.iteration_budget as int)
}

/// The cooling schedule: the damping factor for iteration `it` of a
/// full solve.
fn damp_at(cfg: &Config, it: usize) -> (d: i64)
    requires
        cfg.valid(),
        it < cfg.iteration_budget,
    ensures
        cfg.damping_end <= d <= cfg.damping_start,
        d == damp_spec(*cfg, it as int),
{
    let span = cfg.damping_start - cfg.damping_end;
    let b = cfg.iteration_budget as i64;
    proof {
        lemma_mul_abs_bounded(span as int, it as int, 1000, 1_000_000);
        assert(span * it <= span * b) by (nonlinear_arith)
            requires
                0 <= span,
                0 <= it <= b,
        ;
        vstd::arithmetic::div_mod::lemma_div_is_ordered(
            span as int * it as int,
            span as int * b as int,
            b as int,
        );
        vstd::arithmetic::div_mod::lemma_div_multiples_vanish(span as int, b as int);
        assert(span as int * b as int == b as int * span as int);
        vstd::arithmetic::div_mod::lemma_div_pos_is_pos(span as int * it as int, b as int);
        assert(span as int * it as int >= 0) by (nonlinear_arith)
            requires
                0 <= span,
                0 <= it,
        ;
    }
    let q = div_floor(span * (it as i64), b);
    cfg.damping_start - q
}

/// One iteration's effect as a relation: `b` is `a` with every node
/// placed where a step at damping `damp` puts it.
pub open spec fn step_rel(a: Graph, b: Graph, cfg: Config, damp: int) -> bool {
    &&& same_topology(a, b)
    &&& forall|i: int|
        0 <= i < a.n() ==> (#[trigger] b.nodes@[i]).pos == new_pos_spec(a, cfg, damp, i)
}

/// Some node still free to move moved farther than `eps` between
/// the states `a` and `b`: the iteration `b` came from was not yet
/// convergent.
pub open spec fn moved_beyond(a: Graph, b: Graph, eps: int) -> bool {
    exists|i: int|
        0 <= i < a.n() && !(#[trigger] b.nodes@[i]).pinned && cheb(
            a.nodes@[i].pos,
            b.nodes@[i].pos,
        ) > eps
}

/// The full solve: relaxation iterations under the cooling schedule
/// until convergence or the budget, whichever first. Termination is
/// structural: the loop cannot run past the budget. The report says
/// either that the budget was exhausted or that the last iteration's
/// largest movement was within the threshold.
pub fn solve(g: &mut Graph, cfg: &Config) -> (r: SolveStats)
    requires
        old(g).wf(),
        cfg.valid(),
    ensures
        final(g).wf(),
        same_topology(*old(g), *final(g)),
        pins_hold(*final(g)),
        r.iterations <= cfg.iteration_budget,
        r.iterations == cfg.iteration_budget || r.last_disp <= cfg.convergence_epsilon,
        r.converged == (r.last_disp <= cfg.convergence_epsilon),
        0 <= r.last_disp <= MAX_STEP,
        r.iterations == 0 ==> forall|i: int|
            0 <= i < final(g).n() && !(#[trigger] final(g).nodes@[i]).pinned ==> final(g).nodes@[i].pos == old(g).nodes@[i].pos,
        cfg.iteration_budget > 0 ==> r.iterations >= 1,
        r.iterations > 0 ==> exists|gs: Seq<Graph>|
            #![auto]
            {
                &&& gs.len() == r.iterations + 1
                &&& gs[0] == *old(g)
                &&& gs[r.iterations as int] == *final(g)
                &&& forall|k: int|
                    0 <= k < r.iterations ==> step_rel(gs[k], gs[k + 1], *cfg, damp_spec(*cfg, k))
                &&& forall|k: int|
                    0 <= k < r.iterations - 1 ==> #[trigger] moved_beyond(
                        gs[k],
                        gs[k + 1],
                        cfg.convergence_epsilon as int,
                    )
                &&& forall|i: int|
                    0 <= i < final(g).n() && !(#[trigger] final(g).nodes@[i]).pinned ==> cheb(
                        gs[r.iterations - 1].nodes@[i].pos,
                        final(g).nodes@[i].pos,
                    ) <= r.last_disp
                &&& r.last_disp == 0 || exists|i: int|
                    0 <= i < final(g).n() && !(#[trigger] final(g).nodes@[i]).pinned && cheb(
                        gs[r.iterations - 1].nodes@[i].pos,
                        final(g).nodes@[i].pos,
                    ) == r.last_disp
            },
{
    let budget = cfg.iteration_budget;
    if budget == 0 {
        snap_pins(g);
        return SolveStats { iterations: 0, last_disp: 0, converged: true };
    }
    let mut it: usize = 0;
    let mut last: i64 = 0;
    let mut done = false;
    let ghost mut trace: Seq<Graph> = seq![*old(g)];
    while it < budget && !done
        invariant
            cfg.valid(),
            budget == cfg.iteration_budget,
            1 <= budget,
            it <= budget,
            g.wf(),
            same_topology(*old(g), *g),
            it > 0 ==> pins_hold(*g),
            0 <= last <= MAX_STEP,
            it > 0 ==> (done == (last <= cfg.convergence_epsilon)),
            it == 0 ==> !done,
            trace.len() == it + 1,
            trace[0] == *old(g),
            trace[it as int] == *g,
            forall|k: int|
                0 <= k < it ==> step_rel(trace[k], trace[k + 1], *cfg, damp_spec(*cfg, k)),
            it > 0 ==> forall|i: int|
                0 <= i < g.n() && !(#[trigger] g.nodes@[i]).pinned ==> cheb(
                    trace[it - 1].nodes@[i].pos,
                    g.nodes@[i].pos,
                ) <= last,
            it > 0 ==> (last == 0 || exists|i: int|
                0 <= i < g.n() && !(#[trigger] g.nodes@[i]).pinned && cheb(
                    trace[it - 1].nodes@[i].pos,
                    g.nodes@[i].pos,
                ) == last),
            forall|k: int|
                0 <= k < it - 1 ==> #[trigger] moved_beyond(
                    trace[k],
                    trace[k + 1],
                    cfg.convergence_epsilon as int,
                ),
            it > 0 && !done ==> moved_beyond(
                trace[it - 1],
                trace[it as int],
                cfg.convergence_epsilon as int,
            ),
        decreases budget - it,
    {
        let ghost g_mid = *g;
        let damp = damp_at(cfg, it);
        last = step(g, cfg, damp);
        proof {
            lemma_same_topology_trans(*old(g), g_mid, *g);
            trace = trace.push(*g);
            assert(step_rel(g_mid, *g, *cfg, damp_spec(*cfg, it as int)));
            if last > cfg.convergence_epsilon {
                assert(moved_beyond(g_mid, *g, cfg.convergence_epsilon as int)) by {
                    let i = choose|i: int|
                        0 <= i < g.n() && !(#[trigger] g.nodes@[i]).pinned && cheb(
                            g_mid.nodes@[i].pos,
                            g.nodes@[i].pos,
                        ) == last;
                    assert(0 <= i < g_mid.n() && !g.nodes@[i].pinned && cheb(
                        g_mid.nodes@[i].pos,
                        g.nodes@[i].pos,
                    ) > cfg.convergence_epsilon);
                }
            }
        }
        it += 1;
        if last <= cfg.convergence_epsilon {
            done = true;
        }
    }
    let r = SolveStats { iterations: it, last_disp: last, converged: done };
    proof {
        assert(trace.len() == r.iterations + 1 && trace[0] == *old(g) && trace[r.iterations as int]
            == *g && (forall|k: int|
            0 <= k < r.iterations ==> step_rel(trace[k], trace[k + 1], *cfg, damp_spec(*cfg, k)))
            && (forall|k: int|
            0 <= k < r.iterations - 1 ==> #[trigger] moved_beyond(
                trace[k],
                trace[k + 1],
                cfg.convergence_epsilon as int,
            )) && (forall|i: int|
            0 <= i < g.n() && !(#[trigger] g.nodes@[i]).pinned ==> cheb(
                trace[r.iterations - 1].nodes@[i].pos,
                g.nodes@[i].pos,
            ) <= r.last_disp) && (r.last_disp == 0 || exists|i: int|
            0 <= i < g.n() && !(#[trigger] g.nodes@[i]).pinned && cheb(
                trace[r.iterations - 1].nodes@[i].pos,
                g.nodes@[i].pos,
            ) == r.last_disp));
    }
    r
}

/// Incremental re-layout after a drag or pin change: a bounded
/// number of iterations at the final damping, starting from the
/// current positions rather than from scratch.
pub fn relax(g: &mut Graph, cfg: &Config, iterations: usize) -> (last: i64)
    requires
        old(g).wf(),
        cfg.valid(),
        iterations <= 1_000_000,
    ensures
        final(g).wf(),
        same_topology(*old(g), *final(g)),
        pins_hold(*final(g)),
        0 <= last <= MAX_STEP,
        iterations == 0 ==> forall|i: int|
            0 <= i < final(g).n() && !(#[trigger] final(g).nodes@[i]).pinned
                ==> final(g).nodes@[i].pos == old(g).nodes@[i].pos,
        iterations > 0 ==> exists|gs: Seq<Graph>|
            #![auto]
            {
                &&& gs.len() == iterations + 1
                &&& gs[0] == *old(g)
                &&& gs[iterations as int] == *final(g)
                &&& forall|k: int|
                    0 <= k < iterations ==> #[trigger] step_rel(
                        gs[k],
                        gs[k + 1],
                        *cfg,
                        cfg.damping_end as int,
                    )
                &&& forall|i: int|
                    0 <= i < final(g).n() && !(#[trigger] final(g).nodes@[i]).pinned ==> cheb(
                        gs[iterations - 1].nodes@[i].pos,
                        final(g).nodes@[i].pos,
                    ) <= last
                &&& last == 0 || exists|i: int|
                    0 <= i < final(g).n() && !(#[trigger] final(g).nodes@[i]).pinned && cheb(
                        gs[iterations - 1].nodes@[i].pos,
                        final(g).nodes@[i].pos,
                    ) == last
            },
{
    if iterations == 0 {
        snap_pins(g);
        return 0;
    }
    let mut it: usize = 0;
    let mut last: i64 = 0;
    let ghost mut trace: Seq<Graph> = seq![*old(g)];
    while it < iterations
        invariant
            cfg.valid(),
            it <= iterations,
            g.wf(),
            same_topology(*old(g), *g),
            it > 0 ==> pins_hold(*g),
            0 <= last <= MAX_STEP,
            trace.len() == it + 1,
            trace[0] == *old(g),
            trace[it as int] == *g,
            forall|k: int|
                0 <= k < it ==> #[trigger] step_rel(
                    trace[k],
                    trace[k + 1],
                    *cfg,
                    cfg.damping_end as int,
                ),
            it > 0 ==> forall|i: int|
                0 <= i < g.n() && !(#[trigger] g.nodes@[i]).pinned ==> cheb(
                    trace[it - 1].nodes@[i].pos,
                    g.nodes@[i].pos,
                ) <= last,
            it > 0 ==> (last == 0 || exists|i: int|
                0 <= i < g.n() && !(#[trigger] g.nodes@[i]).pinned && cheb(
                    trace[it - 1].nodes@[i].pos,
                    g.nodes@[i].pos,
                ) == last),
        decreases iterations - it,
    {
        let ghost g_mid = *g;
        last = step(g, cfg, cfg.damping_end);
        proof {
            lemma_same_topology_trans(*old(g), g_mid, *g);
            trace = trace.push(*g);
            assert(step_rel(g_mid, *g, *cfg, cfg.damping_end as int));
        }
        it += 1;
    }
    proof {
        assert(trace.len() == iterations + 1 && trace[0] == *old(g) && trace[iterations as int]
            == *g && (forall|k: int|
            0 <= k < iterations ==> #[trigger] step_rel(
                trace[k],
                trace[k + 1],
                *cfg,
                cfg.damping_end as int,
            )) && (forall|i: int|
            0 <= i < g.n() && !(#[trigger] g.nodes@[i]).pinned ==> cheb(
                trace[iterations - 1].nodes@[i].pos,
                g.nodes@[i].pos,
            ) <= last) && (last == 0 || exists|i: int|
            0 <= i < g.n() && !(#[trigger] g.nodes@[i]).pinned && cheb(
                trace[iterations - 1].nodes@[i].pos,
                g.nodes@[i].pos,
            ) == last));
    }
    last
}

/// Differing only in positions and pins is transitive.
pub proof fn lemma_same_topology_trans(a: Graph, b: Graph, c: Graph)
    requires
        same_topology(a, b),
        same_topology(b, c),
    ensures
        same_topology(a, c),
{
    assert forall|i: int| 0 <= i < a.n() implies (#[trigger] c.nodes@[i]).label == a.nodes@[i].label
        && c.nodes@[i].kind == a.nodes@[i].kind && c.nodes@[i].size == a.nodes@[i].size
        && c.nodes@[i].pinned == a.nodes@[i].pinned && c.nodes@[i].pin_pos
        == a.nodes@[i].pin_pos by {
        assert(b.nodes@[i].label == a.nodes@[i].label);
        assert(c.nodes@[i].label == b.nodes@[i].label);
    }
}

} // verus!
