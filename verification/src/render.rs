//! The renderer: turns graph, positions and viewport into the
//! ordered draw-primitive list (edge lines beneath, node boxes and
//! labels above), culled to the visible screen rectangle, and
//! answers hit-tests with the topmost node under a screen point.

use vstd::prelude::*;
use crate::config::Config;
use crate::geom::{abs_spec, div_floor, lemma_mul_abs_bounded, V2, ZOOM_LIMIT};
use crate::graph::{edge_ok, node_ok, EdgeKind, Graph, NodeKind};
use crate::viewport::{w2s_axis, world_to_screen, Viewport, SCREEN_IN_LIMIT};

verus! {

/// One primitive for a 2D drawing surface; the list order is the
/// paint order, back to front.
#[allow(inconsistent_fields)]
pub enum Draw {
    /// An edge as a line (an arrow when directed), beneath the nodes.
    EdgeLine { from: V2, to: V2, directed: bool, kind: EdgeKind },
    /// A node's box, centered at `at` with half-extents `half`.
    NodeBox { at: V2, half: V2, kind: NodeKind, index: usize },
    /// A node's label, centered like its box; emitted only at or
    /// above the configured zoom threshold.
    Label { at: V2, text: String },
}

/// Screen x of node `i`'s center.
pub open spec fn screen_x(g: Graph, vp: Viewport, i: int) -> int {
    w2s_axis(g.nodes@[i].pos.x as int, vp.cam.x as int, vp.zoom as int, vp.width as int / 2)
}

/// Screen y of node `i`'s center.
pub open spec fn screen_y(g: Graph, vp: Viewport, i: int) -> int {
    w2s_axis(g.nodes@[i].pos.y as int, vp.cam.y as int, vp.zoom as int, vp.height as int / 2)
}

/// Half-width of node `i`'s box on screen.
pub open spec fn half_x(g: Graph, vp: Viewport, i: int) -> int {
    g.nodes@[i].size.x * vp.zoom / 2
}

/// Half-height of node `i`'s box on screen.
pub open spec fn half_y(g: Graph, vp: Viewport, i: int) -> int {
    g.nodes@[i].size.y * vp.zoom / 2
}

/// Whether node `i`'s screen box meets the screen rectangle.
pub open spec fn node_visible(g: Graph, vp: Viewport, i: int) -> bool {
    &&& screen_x(g, vp, i) - half_x(g, vp, i) <= vp.width
    &&& screen_x(g, vp, i) + half_x(g, vp, i) >= 0
    &&& screen_y(g, vp, i) - half_y(g, vp, i) <= vp.height
    &&& screen_y(g, vp, i) + half_y(g, vp, i) >= 0
}

/// Whether screen point `pt` lies in node `i`'s screen box.
pub open spec fn node_contains(g: Graph, vp: Viewport, i: int, pt: V2) -> bool {
    &&& screen_x(g, vp, i) - half_x(g, vp, i) <= pt.x <= screen_x(g, vp, i) + half_x(g, vp, i)
    &&& screen_y(g, vp, i) - half_y(g, vp, i) <= pt.y <= screen_y(g, vp, i) + half_y(g, vp, i)
}

/// Whether the bounding box of edge `e`'s screen segment meets the
/// screen rectangle.
pub open spec fn edge_visible(g: Graph, vp: Viewport, e: int) -> bool {
    let ax = screen_x(g, vp, g.edges@[e].source as int);
    let ay = screen_y(g, vp, g.edges@[e].source as int);
    let bx = screen_x(g, vp, g.edges@[e].target as int);
    let by = screen_y(g, vp, g.edges@[e].target as int);
    &&& (if ax <= bx {
        ax
    } else {
        bx
    }) <= vp.width
    &&& (if ax >= bx {
        ax
    } else {
        bx
    }) >= 0
    &&& (if ay <= by {
        ay
    } else {
        by
    }) <= vp.height
    &&& (if ay >= by {
        ay
    } else {
        by
    }) >= 0
}

/// The primitive emitted for edge `e`.
pub open spec fn edge_draw(g: Graph, vp: Viewport, e: int) -> Draw {
    Draw::EdgeLine {
        from: V2 {
            x: screen_x(g, vp, g.edges@[e].source as int) as i64,
            y: screen_y(g, vp, g.edges@[e].source as int) as i64,
        },
        to: V2 {
            x: screen_x(g, vp, g.edges@[e].target as int) as i64,
            y: screen_y(g, vp, g.edges@[e].target as int) as i64,
        },
        directed: g.edges@[e].directed,
        kind: g.edges@[e].kind,
    }
}

/// The box primitive emitted for node `i`.
pub open spec fn node_draw(g: Graph, vp: Viewport, i: int) -> Draw {
    Draw::NodeBox {
        at: V2 { x: screen_x(g, vp, i) as i64, y: screen_y(g, vp, i) as i64 },
        half: V2 { x: half_x(g, vp, i) as i64, y: half_y(g, vp, i) as i64 },
        kind: g.nodes@[i].kind,
        index: i as usize,
    }
}

/// The label primitive emitted for node `i`.
pub open spec fn label_draw(g: Graph, vp: Viewport, i: int) -> Draw {
    Draw::Label {
        at: V2 { x: screen_x(g, vp, i) as i64, y: screen_y(g, vp, i) as i64 },
        text: g.nodes@[i].label,
    }
}

/// The draw list for the first `e` edges: visible ones only, in edge
/// order.
pub open spec fn edge_cmds(g: Graph, vp: Viewport, e: int) -> Seq<Draw>
    decreases e,
{
    if e <= 0 {
        Seq::empty()
    } else {
        edge_cmds(g, vp, e - 1) + (if edge_visible(g, vp, e - 1) {
            seq![edge_draw(g, vp, e - 1)]
        } else {
            Seq::empty()
        })
    }
}

/// The draw list for the first `i` nodes: for each visible node its
/// box, then its label when the zoom is at or above the label
/// threshold.
pub open spec fn node_cmds(g: Graph, vp: Viewport, cfg: Config, i: int) -> Seq<Draw>
    decreases i,
{
    if i <= 0 {
        Seq::empty()
    } else {
        node_cmds(g, vp, cfg, i - 1) + (if node_visible(g, vp, i - 1) {
            if vp.zoom >= cfg.label_zoom_threshold {
                seq![node_draw(g, vp, i - 1), label_draw(g, vp, i - 1)]
            } else {
                seq![node_draw(g, vp, i - 1)]
            }
        } else {
            Seq::empty()
        })
    }
}

/// The whole frame: every visible edge beneath every visible node.
pub open spec fn render_spec(g: Graph, vp: Viewport, cfg: Config) -> Seq<Draw> {
    edge_cmds(g, vp, g.m()) + node_cmds(g, vp, cfg, g.n())
}

/// The screen center of node `i`, and the proof-carrying bound on it.
fn node_screen(g: &Graph, vp: &Viewport, cfg: &Config, i: usize) -> (s: V2)
    requires
        g.wf(),
        vp.wf(*cfg),
        cfg.valid(),
        i < g.n(),
    ensures
        s.x == screen_x(*g, *vp, i as int),
        s.y == screen_y(*g, *vp, i as int),
        abs_spec(s.x as int) < SCREEN_IN_LIMIT,
        abs_spec(s.y as int) < SCREEN_IN_LIMIT,
{
    proof {
        assert(node_ok(g.nodes@[i as int]));
    }
    world_to_screen(vp, cfg, g.nodes[i].pos)
}

/// The screen half-extents of node `i`'s box.
fn node_half(g: &Graph, vp: &Viewport, cfg: &Config, i: usize) -> (h: V2)
    requires
        g.wf(),
        vp.wf(*cfg),
        cfg.valid(),
        i < g.n(),
    ensures
        h.x == half_x(*g, *vp, i as int),
        h.y == half_y(*g, *vp, i as int),
        0 <= h.x <= 1_000 * ZOOM_LIMIT,
        0 <= h.y <= 1_000 * ZOOM_LIMIT,
{
    proof {
        assert(node_ok(g.nodes@[i as int]));
        lemma_mul_abs_bounded(
            g.nodes@[i as int].size.x as int,
            vp.zoom as int,
            1_000,
            ZOOM_LIMIT as int,
        );
        lemma_mul_abs_bounded(
            g.nodes@[i as int].size.y as int,
            vp.zoom as int,
            1_000,
            ZOOM_LIMIT as int,
        );
        assert(g.nodes@[i as int].size.x * vp.zoom >= 0) by (nonlinear_arith)
            requires
                g.nodes@[i as int].size.x >= 0,
                vp.zoom >= 1,
        ;
        assert(g.nodes@[i as int].size.y * vp.zoom >= 0) by (nonlinear_arith)
            requires
                g.nodes@[i as int].size.y >= 0,
                vp.zoom >= 1,
        ;
        crate::geom::lemma_div_abs_bounded(
            g.nodes@[i as int].size.x as int * vp.zoom as int,
            2,
            1_000 * ZOOM_LIMIT as int,
        );
        crate::geom::lemma_div_abs_bounded(
            g.nodes@[i as int].size.y as int * vp.zoom as int,
            2,
            1_000 * ZOOM_LIMIT as int,
        );
        vstd::arithmetic::div_mod::lemma_div_pos_is_pos(
            g.nodes@[i as int].size.x as int * vp.zoom as int,
            2,
        );
        vstd::arithmetic::div_mod::lemma_div_pos_is_pos(
            g.nodes@[i as int].size.y as int * vp.zoom as int,
            2,
        );
    }
    let hx = div_floor(g.nodes[i].size.x * vp.zoom, 2);
    let hy = div_floor(g.nodes[i].size.y * vp.zoom, 2);
    V2 { x: hx, y: hy }
}

/// Produce the frame's ordered draw list: exactly the visible edges
/// in edge order, then for each visible node its box and, when the
/// zoom shows labels, its label.
pub fn render(g: &Graph, vp: &Viewport, cfg: &Config) -> (r: Vec<Draw>)
    requires
        g.wf(),
        vp.wf(*cfg),
        cfg.valid(),
    ensures
        r@ == render_spec(*g, *vp, *cfg),
{
    let mut out: Vec<Draw> = Vec::new();
    let m = g.edges.len();
    let mut e: usize = 0;
    while e < m
        invariant
            g.wf(),
            vp.wf(*cfg),
            cfg.valid(),
            m == g.edges@.len(),
            e <= m,
            out@ == edge_cmds(*g, *vp, e as int),
        decreases m - e,
    {
        let ed = g.edges[e];
        proof {
            assert(edge_ok(g.edges@[e as int], g.n()));
        }
        let a = node_screen(g, vp, cfg, ed.source);
        let b = node_screen(g, vp, cfg, ed.target);
        let lox = if a.x <= b.x {
            a.x
        } else {
            b.x
        };
        let hix = if a.x >= b.x {
            a.x
        } else {
            b.x
        };
        let loy = if a.y <= b.y {
            a.y
        } else {
            b.y
        };
        let hiy = if a.y >= b.y {
            a.y
        } else {
            b.y
        };
        if lox <= vp.width && hix >= 0 && loy <= vp.height && hiy >= 0 {
            out.push(Draw::EdgeLine { from: a, to: b, directed: ed.directed, kind: ed.kind });
        }
        e += 1;
        proof {
            assert(out@ == edge_cmds(*g, *vp, e as int));
        }
    }
    let n = g.nodes.len();
    let mut i: usize = 0;
    while i < n
        invariant
            g.wf(),
            vp.wf(*cfg),
            cfg.valid(),
            m == g.edges@.len(),
            n == g.nodes@.len(),
            i <= n,
            out@ == edge_cmds(*g, *vp, m as int) + node_cmds(*g, *vp, *cfg, i as int),
        decreases n - i,
    {
        let s = node_screen(g, vp, cfg, i);
        let h = node_half(g, vp, cfg, i);
        if s.x - h.x <= vp.width && s.x + h.x >= 0 && s.y - h.y <= vp.height && s.y + h.y >= 0 {
            out.push(
                Draw::NodeBox { at: s, half: h, kind: g.nodes[i].kind, index: i },
            );
            if vp.zoom >= cfg.label_zoom_threshold {
                let text = g.nodes[i].label.clone();
                out.push(Draw::Label { at: s, text });
            }
        }
        i += 1;
        proof {
            assert(out@ == edge_cmds(*g, *vp, m as int) + node_cmds(*g, *vp, *cfg, i as int));
        }
    }
    out
}

/// The topmost node whose screen box holds `pt`: the last drawn
/// wins, that is the highest index.
pub open spec fn topmost_hit(g: Graph, vp: Viewport, pt: V2, i: int) -> Option<int>
    decreases i,
{
    if i <= 0 {
        None
    } else if node_contains(g, vp, i - 1, pt) {
        Some(i - 1)
    } else {
        topmost_hit(g, vp, pt, i - 1)
    }
}

/// Find the topmost node under a screen point, if any: the node
/// drawn last (highest index) among those whose screen box holds the
/// point.
pub fn hit_test(g: &Graph, vp: &Viewport, cfg: &Config, pt: V2) -> (r: Option<usize>)
    requires
        g.wf(),
        vp.wf(*cfg),
        cfg.valid(),
    ensures
        match r {
            Some(i) => i < g.n() && node_contains(*g, *vp, i as int, pt) && (forall|j: int|
                i < j < g.n() ==> !node_contains(*g, *vp, j, pt)) && topmost_hit(
                *g,
                *vp,
                pt,
                g.n(),
            ) == Some(i as int),
            None => (forall|j: int| 0 <= j < g.n() ==> !node_contains(*g, *vp, j, pt))
                && topmost_hit(*g, *vp, pt, g.n()) is None,
        },
{
    let n = g.nodes.len();
    let mut i: usize = n;
    while i > 0
        invariant
            g.wf(),
            vp.wf(*cfg),
            cfg.valid(),
            n == g.nodes@.len(),
            i <= n,
            forall|j: int| i <= j < n ==> !node_contains(*g, *vp, j, pt),
            topmost_hit(*g, *vp, pt, n as int) == topmost_hit(*g, *vp, pt, i as int),
        decreases i,
    {
        let idx = i - 1;
        let s = node_screen(g, vp, cfg, idx);
        let h = node_half(g, vp, cfg, idx);
        if s.x - h.x <= pt.x && pt.x <= s.x + h.x && s.y - h.y <= pt.y && pt.y <= s.y + h.y {
            return Some(idx);
        }
        i = idx;
    }
    None
}

} // verus!
