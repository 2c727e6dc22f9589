//! The interaction controller: a state machine over the pointer
//! (idle, panning, dragging a node) that owns the viewport and turns
//! pointer events into camera changes or pinned node positions.

use vstd::prelude::*;
use crate::config::Config;
use crate::geom::{abs_spec, V2, CAM_LIMIT};
use crate::graph::{clamp_world_spec, same_shape, Graph};
use crate::render::{hit_test, topmost_hit};
use crate::viewport::{pan, screen_to_world, zoom_at, Viewport, CAM_SLACK};

verus! {

/// What the pointer is doing. A drag that started on a node moves
/// that node; one that started on empty space pans the camera.
#[derive(Clone, Copy, PartialEq, Eq, Structural, Debug)]
pub enum PointerState {
    /// No button held.
    Idle,
    /// Dragging empty space; `last` is the previous pointer position.
    Panning { last: V2 },
    /// Dragging node `index`, which is pinned to the pointer.
    DraggingNode { index: usize },
}

/// The per-view session state the shell drives with pointer events.
pub struct Controller {
    pub vp: Viewport,
    pub state: PointerState,
}

impl Controller {
    /// The viewport is well-formed, a remembered pan point is on
    /// screen, and a dragged node exists in `g`.
    pub open spec fn wf(self, cfg: Config, g: Graph) -> bool {
        &&& self.vp.wf(cfg)
        &&& match self.state {
            PointerState::Idle => true,
            PointerState::Panning { last } => 0 <= last.x <= self.vp.width && 0 <= last.y
                <= self.vp.height,
            PointerState::DraggingNode { index } => index < g.n(),
        }
    }

    /// A fresh controller over a fresh viewport, idle.
    pub fn new(cfg: &Config, width: i64, height: i64) -> (c: Controller)
        requires
            cfg.valid(),
        ensures
            forall|g: Graph| c.wf(*cfg, g),
            c.state == PointerState::Idle,
            c.vp == Viewport::new_spec(*cfg, width, height),
    {
        Controller { vp: Viewport::new(cfg, width, height), state: PointerState::Idle }
    }

    /// A button press at screen point `pt`: on a node it starts a
    /// drag and pins that node under the pointer; on empty space it
    /// starts a pan.
    pub fn pointer_down(&mut self, cfg: &Config, g: &mut Graph, pt: V2)
        requires
            old(self).wf(*cfg, *old(g)),
            old(g).wf(),
            cfg.valid(),
            0 <= pt.x <= old(self).vp.width,
            0 <= pt.y <= old(self).vp.height,
        ensures
            final(self).wf(*cfg, *final(g)),
            final(g).wf(),
            final(self).vp == old(self).vp,
            same_shape(*old(g), *final(g)),
            match topmost_hit(*old(g), old(self).vp, pt, old(g).n()) {
                Some(i) => final(self).state == (PointerState::DraggingNode { index: i as usize })
                    && final(g).nodes@[i].pinned && final(g).nodes@[i].pin_pos == clamp_world_spec(
                    old(self).vp.world_at(pt),
                ) && final(g).nodes@[i].pos == final(g).nodes@[i].pin_pos && (forall|j: int|
                    0 <= j < final(g).n() && j != i ==> #[trigger] final(g).nodes@[j] == old(g).nodes@[j]),
                None => final(self).state == (PointerState::Panning { last: pt }) && *final(g)
                    == *old(g),
            },
    {
        let hit = hit_test(g, &self.vp, cfg, pt);
        match hit {
            Some(i) => {
                let w = screen_to_world(&self.vp, cfg, pt);
                g.set_pin(i, w);
                self.state = PointerState::DraggingNode { index: i };
            },
            None => {
                self.state = PointerState::Panning { last: pt };
            },
        }
    }

    /// Pointer motion at `pt`. While dragging a node, the node is
    /// held pinned under the pointer; while panning, the camera
    /// follows; idle motion does nothing. Returns whether anything
    /// changed.
    pub fn pointer_move(&mut self, cfg: &Config, g: &mut Graph, pt: V2) -> (moved: bool)
        requires
            old(self).wf(*cfg, *old(g)),
            old(g).wf(),
            cfg.valid(),
            0 <= pt.x <= old(self).vp.width,
            0 <= pt.y <= old(self).vp.height,
        ensures
            final(self).wf(*cfg, *final(g)),
            final(g).wf(),
            same_shape(*old(g), *final(g)),
            final(self).vp.width == old(self).vp.width,
            final(self).vp.height == old(self).vp.height,
            final(self).vp.zoom == old(self).vp.zoom,
            match old(self).state {
                PointerState::Idle => !moved && *final(g) == *old(g) && *final(self) == *old(self),
                PointerState::Panning { last } => final(self).state == (PointerState::Panning {
                    last: pt,
                }) && *final(g) == *old(g) && (moved ==> final(self).vp.cam.x == old(self).vp.cam.x
                    - (pt.x - last.x) / old(self).vp.zoom as int && final(self).vp.cam.y == old(self).vp.cam.y - (pt.y - last.y) / old(self).vp.zoom as int) && (!moved ==> final(self).vp.cam == old(self).vp.cam) && (abs_spec(old(self).vp.cam.x as int) <= CAM_LIMIT
                    - CAM_SLACK && abs_spec(old(self).vp.cam.y as int) <= CAM_LIMIT - CAM_SLACK
                    ==> moved),
                PointerState::DraggingNode { index } => moved && final(self).state == old(self).state && final(self).vp == old(self).vp && final(g).nodes@[index as int].pinned
                    && final(g).nodes@[index as int].pin_pos == clamp_world_spec(
                    old(self).vp.world_at(pt),
                ) && final(g).nodes@[index as int].pos == final(g).nodes@[index as int].pin_pos && (
                forall|j: int|
                    0 <= j < final(g).n() && j != index ==> #[trigger] final(g).nodes@[j] == old(g).nodes@[j]),
            },
    {
        match self.state {
            PointerState::Idle => false,
            PointerState::Panning { last } => {
                let delta = V2 { x: pt.x - last.x, y: pt.y - last.y };
                let applied = pan(&mut self.vp, cfg, delta);
                self.state = PointerState::Panning { last: pt };
                applied
            },
            PointerState::DraggingNode { index } => {
                let w = screen_to_world(&self.vp, cfg, pt);
                g.set_pin(index, w);
                true
            },
        }
    }

    /// Button release: a pan simply ends; a drag ends and, under the
    /// pin-clearing policy, frees the node to move on the next
    /// layout pass, while the pin-keeping policy leaves it pinned
    /// where it was dropped.
    pub fn pointer_up(&mut self, cfg: &Config, g: &mut Graph)
        requires
            old(self).wf(*cfg, *old(g)),
            old(g).wf(),
            cfg.valid(),
        ensures
            final(self).wf(*cfg, *final(g)),
            final(g).wf(),
            same_shape(*old(g), *final(g)),
            final(self).state == PointerState::Idle,
            final(self).vp == old(self).vp,
            match old(self).state {
                PointerState::DraggingNode { index } => {
                    if cfg.pin_on_release {
                        *final(g) == *old(g)
                    } else {
                        !final(g).nodes@[index as int].pinned && final(g).nodes@[index as int].pos == old(g).nodes@[index as int].pos && (forall|
                            j: int,
                        |
                            0 <= j < final(g).n() && j != index ==> #[trigger] final(g).nodes@[j]
                                == old(g).nodes@[j])
                    }
                },
                _ => *final(g) == *old(g),
            },
    {
        match self.state {
            PointerState::DraggingNode { index } => {
                if !cfg.pin_on_release {
                    g.clear_pin(index);
                }
            },
            _ => {},
        }
        self.state = PointerState::Idle;
    }

    /// A zoom gesture at `cursor`: the zoom scale is clamped to the
    /// configured bounds and the world point under the cursor stays
    /// under it.
    pub fn zoom_input(&mut self, cfg: &Config, g: &Graph, cursor: V2, new_zoom: i64) -> (applied:
        bool)
        requires
            old(self).wf(*cfg, *g),
            cfg.valid(),
            0 <= cursor.x <= old(self).vp.width,
            0 <= cursor.y <= old(self).vp.height,
        ensures
            final(self).wf(*cfg, *g),
            final(self).state == old(self).state,
            applied ==> final(self).vp.zoom == crate::geom::clamp_spec(
                new_zoom as int,
                cfg.zoom_min as int,
                cfg.zoom_max as int,
            ),
            applied ==> final(self).vp.width == old(self).vp.width && final(self).vp.height == old(self).vp.height,
            applied ==> final(self).vp.s2w_spec(cursor) == old(self).vp.s2w_spec(cursor),
            !applied ==> final(self).vp == old(self).vp,
            abs_spec(old(self).vp.cam.x as int) <= CAM_LIMIT - CAM_SLACK && abs_spec(
                old(self).vp.cam.y as int,
            ) <= CAM_LIMIT - CAM_SLACK ==> applied,
    {
        zoom_at(&mut self.vp, cfg, cursor, new_zoom)
    }
}

} // verus!
