//! The camera: a pan offset, a bounded zoom scale and the screen
//! size, with the world-to-screen transform, its inverse, and the
//! zoom-to-cursor and pan operations.

use vstd::prelude::*;
use crate::config::Config;
use crate::geom::{
    abs_spec, clamp_i64, clamp_spec, div_floor, in_world, V2, CAM_LIMIT, POS_LIMIT,
    SCREEN_DIM_LIMIT, ZOOM_LIMIT,
};

verus! {

/// Screen points handed to the inverse transform stay within this
/// bound, which covers everything the forward transform can emit.
pub const SCREEN_IN_LIMIT: i64 = 0x4000_0000_0000_0000;

/// A camera this far inside its bound can always absorb one pan or
/// zoom step, so those operations promise success there.
pub const CAM_SLACK: i64 = 0x40_0000;

/// The single active view: camera, zoom and screen size.
#[derive(Clone, Copy, PartialEq, Eq, Structural, Debug)]
pub struct Viewport {
    /// World point that sits at the screen center.
    pub cam: V2,
    /// Integer scale: world units to pixels.
    pub zoom: i64,
    /// Screen width in pixels.
    pub width: i64,
    /// Screen height in pixels.
    pub height: i64,
}

/// One axis of the world-to-screen transform:
/// `screen = (world - camera) * zoom + screen_center`.
pub open spec fn w2s_axis(w: int, cam: int, zoom: int, half: int) -> int {
    (w - cam) * zoom + half
}

/// One axis of the inverse transform, with floor division:
/// `world = (screen - screen_center) / zoom + camera`.
pub open spec fn s2w_axis(s: int, cam: int, zoom: int, half: int) -> int {
    (s - half) / zoom + cam
}

impl Viewport {
    /// Zoom within the configured bounds, camera and screen size
    /// within the machine bounds.
    pub open spec fn wf(self, cfg: Config) -> bool {
        &&& cfg.zoom_min <= self.zoom <= cfg.zoom_max
        &&& abs_spec(self.cam.x as int) <= CAM_LIMIT
        &&& abs_spec(self.cam.y as int) <= CAM_LIMIT
        &&& 1 <= self.width <= SCREEN_DIM_LIMIT
        &&& 1 <= self.height <= SCREEN_DIM_LIMIT
    }

    /// The world point mapped to screen point `s`, as a value.
    pub open spec fn s2w_spec(self, s: V2) -> (int, int) {
        (
            s2w_axis(s.x as int, self.cam.x as int, self.zoom as int, self.width as int / 2),
            s2w_axis(s.y as int, self.cam.y as int, self.zoom as int, self.height as int / 2),
        )
    }

    /// The world point mapped to screen point `s`, as a point.
    pub open spec fn world_at(self, s: V2) -> V2 {
        V2 {
            x: s2w_axis(s.x as int, self.cam.x as int, self.zoom as int, self.width as int / 2)
                as i64,
            y: s2w_axis(s.y as int, self.cam.y as int, self.zoom as int, self.height as int / 2)
                as i64,
        }
    }

    /// The fresh view, as a value.
    pub open spec fn new_spec(cfg: Config, width: i64, height: i64) -> Viewport {
        Viewport {
            cam: V2 { x: 0, y: 0 },
            zoom: cfg.zoom_min,
            width: clamp_spec(width as int, 1, SCREEN_DIM_LIMIT as int) as i64,
            height: clamp_spec(height as int, 1, SCREEN_DIM_LIMIT as int) as i64,
        }
    }

    /// The fresh view onto a newly loaded graph: camera at the
    /// origin, smallest zoom, the given screen size.
    pub fn new(cfg: &Config, width: i64, height: i64) -> (vp: Viewport)
        requires
            cfg.valid(),
        ensures
            vp.wf(*cfg),
            vp == Viewport::new_spec(*cfg, width, height),
    {
        Viewport {
            cam: V2 { x: 0, y: 0 },
            zoom: cfg.zoom_min,
            width: clamp_i64(width, 1, SCREEN_DIM_LIMIT),
            height: clamp_i64(height, 1, SCREEN_DIM_LIMIT),
        }
    }
}

/// Map a world point to screen coordinates.
pub fn world_to_screen(vp: &Viewport, cfg: &Config, p: V2) -> (r: V2)
    requires
        vp.wf(*cfg),
        cfg.valid(),
        in_world(p),
    ensures
        r.x == w2s_axis(p.x as int, vp.cam.x as int, vp.zoom as int, vp.width as int / 2),
        r.y == w2s_axis(p.y as int, vp.cam.y as int, vp.zoom as int, vp.height as int / 2),
        abs_spec(r.x as int) < SCREEN_IN_LIMIT,
        abs_spec(r.y as int) < SCREEN_IN_LIMIT,
{
    proof {
        lemma_w2s_in_bounds(p.x as int, vp.cam.x as int, vp.zoom as int, vp.width as int / 2);
        lemma_w2s_in_bounds(p.y as int, vp.cam.y as int, vp.zoom as int, vp.height as int / 2);
    }
    let sx: i64 = (p.x - vp.cam.x) * vp.zoom + vp.width / 2;
    let sy: i64 = (p.y - vp.cam.y) * vp.zoom + vp.height / 2;
    V2 { x: sx, y: sy }
}

/// The forward transform of an in-world point stays well within
/// `i64` and within the inverse transform's input bound.
proof fn lemma_w2s_in_bounds(w: int, cam: int, zoom: int, half: int)
    requires
        abs_spec(w) <= POS_LIMIT,
        abs_spec(cam) <= CAM_LIMIT,
        1 <= zoom <= ZOOM_LIMIT,
        0 <= half <= SCREEN_DIM_LIMIT,
    ensures
        abs_spec(w2s_axis(w, cam, zoom, half)) < SCREEN_IN_LIMIT,
{
    assert(abs_spec((w - cam) * zoom) <= (POS_LIMIT + CAM_LIMIT) * ZOOM_LIMIT)
        by (nonlinear_arith)
        requires
            abs_spec(w) <= POS_LIMIT,
            abs_spec(cam) <= CAM_LIMIT,
            1 <= zoom <= ZOOM_LIMIT,
    ;
}

/// Map a screen point back to the world point under it.
pub fn screen_to_world(vp: &Viewport, cfg: &Config, s: V2) -> (r: V2)
    requires
        vp.wf(*cfg),
        cfg.valid(),
        abs_spec(s.x as int) <= SCREEN_IN_LIMIT,
        abs_spec(s.y as int) <= SCREEN_IN_LIMIT,
    ensures
        (r.x as int, r.y as int) == vp.s2w_spec(s),
        r == vp.world_at(s),
{
    proof {
        crate::geom::lemma_div_abs_bounded(
            s.x as int - vp.width as int / 2,
            vp.zoom as int,
            SCREEN_IN_LIMIT as int + SCREEN_DIM_LIMIT as int,
        );
        crate::geom::lemma_div_abs_bounded(
            s.y as int - vp.height as int / 2,
            vp.zoom as int,
            SCREEN_IN_LIMIT as int + SCREEN_DIM_LIMIT as int,
        );
    }
    let wx: i64 = div_floor(s.x - vp.width / 2, vp.zoom) + vp.cam.x;
    let wy: i64 = div_floor(s.y - vp.height / 2, vp.zoom) + vp.cam.y;
    V2 { x: wx, y: wy }
}

/// Law: the inverse transform undoes the forward transform exactly,
/// for every world point and every valid camera and zoom state.
pub proof fn lemma_transform_round_trip(vp: Viewport, cfg: Config, p: V2)
    requires
        vp.wf(cfg),
        cfg.valid(),
    ensures
        s2w_axis(
            w2s_axis(p.x as int, vp.cam.x as int, vp.zoom as int, vp.width as int / 2),
            vp.cam.x as int,
            vp.zoom as int,
            vp.width as int / 2,
        ) == p.x,
        s2w_axis(
            w2s_axis(p.y as int, vp.cam.y as int, vp.zoom as int, vp.height as int / 2),
            vp.cam.y as int,
            vp.zoom as int,
            vp.height as int / 2,
        ) == p.y,
{
    vstd::arithmetic::div_mod::lemma_div_multiples_vanish(
        p.x as int - vp.cam.x as int,
        vp.zoom as int,
    );
    vstd::arithmetic::div_mod::lemma_div_multiples_vanish(
        p.y as int - vp.cam.y as int,
        vp.zoom as int,
    );
}

/// Change the zoom scale, anchored at the cursor: the world point
/// under the cursor before the zoom is still the world point under
/// it afterwards. Returns whether the change was applied; it is
/// refused only when the camera stands within one step of its outer
/// bound, and the view is then unchanged.
pub fn zoom_at(vp: &mut Viewport, cfg: &Config, cursor: V2, new_zoom: i64) -> (applied: bool)
    requires
        old(vp).wf(*cfg),
        cfg.valid(),
        0 <= cursor.x <= old(vp).width,
        0 <= cursor.y <= old(vp).height,
    ensures
        final(vp).wf(*cfg),
        applied ==> final(vp).zoom == clamp_spec(
            new_zoom as int,
            cfg.zoom_min as int,
            cfg.zoom_max as int,
        ),
        applied ==> final(vp).width == old(vp).width && final(vp).height == old(vp).height,
        applied ==> final(vp).s2w_spec(cursor) == old(vp).s2w_spec(cursor),
        !applied ==> *final(vp) == *old(vp),
        abs_spec(old(vp).cam.x as int) <= CAM_LIMIT - CAM_SLACK && abs_spec(old(vp).cam.y as int)
            <= CAM_LIMIT - CAM_SLACK ==> applied,
{
    let z2 = clamp_i64(new_zoom, cfg.zoom_min, cfg.zoom_max);
    let hx = vp.width / 2;
    let hy = vp.height / 2;
    proof {
        crate::geom::lemma_div_abs_bounded(cursor.x as int - hx as int, vp.zoom as int, SCREEN_DIM_LIMIT as int);
        crate::geom::lemma_div_abs_bounded(cursor.y as int - hy as int, vp.zoom as int, SCREEN_DIM_LIMIT as int);
        crate::geom::lemma_div_abs_bounded(cursor.x as int - hx as int, z2 as int, SCREEN_DIM_LIMIT as int);
        crate::geom::lemma_div_abs_bounded(cursor.y as int - hy as int, z2 as int, SCREEN_DIM_LIMIT as int);
    }
    let wx = div_floor(cursor.x - hx, vp.zoom) + vp.cam.x;
    let wy = div_floor(cursor.y - hy, vp.zoom) + vp.cam.y;
    let cx = wx - div_floor(cursor.x - hx, z2);
    let cy = wy - div_floor(cursor.y - hy, z2);
    if cx > CAM_LIMIT || cx < -CAM_LIMIT || cy > CAM_LIMIT || cy < -CAM_LIMIT {
        return false;
    }
    vp.cam = V2 { x: cx, y: cy };
    vp.zoom = z2;
    true
}

/// Pan the view by a screen-space drag delta: the camera moves by
/// the corresponding world offset, opposite to the drag, so the
/// content follows the pointer. There is no boundary on panning
/// beyond the machine bound on the camera itself; within one step of
/// that bound the pan is refused and the view unchanged.
pub fn pan(vp: &mut Viewport, cfg: &Config, delta: V2) -> (applied: bool)
    requires
        old(vp).wf(*cfg),
        cfg.valid(),
        abs_spec(delta.x as int) <= 2 * SCREEN_DIM_LIMIT,
        abs_spec(delta.y as int) <= 2 * SCREEN_DIM_LIMIT,
    ensures
        final(vp).wf(*cfg),
        applied ==> final(vp).cam.x == old(vp).cam.x - delta.x as int / old(vp).zoom as int
            && final(vp).cam.y == old(vp).cam.y - delta.y as int / old(vp).zoom as int,
        applied ==> final(vp).zoom == old(vp).zoom && final(vp).width == old(vp).width
            && final(vp).height == old(vp).height,
        !applied ==> *final(vp) == *old(vp),
        abs_spec(old(vp).cam.x as int) <= CAM_LIMIT - CAM_SLACK && abs_spec(old(vp).cam.y as int)
            <= CAM_LIMIT - CAM_SLACK ==> applied,
{
    proof {
        crate::geom::lemma_div_abs_bounded(delta.x as int, vp.zoom as int, 2 * SCREEN_DIM_LIMIT as int);
        crate::geom::lemma_div_abs_bounded(delta.y as int, vp.zoom as int, 2 * SCREEN_DIM_LIMIT as int);
    }
    let dx = div_floor(delta.x, vp.zoom);
    let dy = div_floor(delta.y, vp.zoom);
    let cx = vp.cam.x - dx;
    let cy = vp.cam.y - dy;
    if cx > CAM_LIMIT || cx < -CAM_LIMIT || cy > CAM_LIMIT || cy < -CAM_LIMIT {
        return false;
    }
    vp.cam = V2 { x: cx, y: cy };
    true
}

} // verus!
