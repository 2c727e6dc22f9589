//! Tunable options for the layout engine and the viewport: force
//! constants, damping schedule, iteration budget, convergence
//! threshold, zoom bounds and the pin-on-release policy.

use vstd::prelude::*;
use crate::geom::{POS_LIMIT, ZOOM_LIMIT};

verus! {

/// Recognized options, all tunable without code change.
#[derive(Clone, Copy, PartialEq, Eq, Structural, Debug)]
pub struct Config {
    /// Strength of the inverse-distance repulsion between node pairs.
    pub repulsion: i64,
    /// Rest length of the spring force along each edge, world units.
    pub ideal_edge_length: i64,
    /// Cooling schedule: displacement scale in permille at the first
    /// iteration of a full solve...
    pub damping_start: i64,
    /// ...and at the last budgeted iteration.
    pub damping_end: i64,
    /// Upper bound on layout iterations in one full solve.
    pub iteration_budget: usize,
    /// A solve stops early once no node moved farther than this in an
    /// iteration (Chebyshev distance, world units).
    pub convergence_epsilon: i64,
    /// Smallest zoom scale the viewport accepts.
    pub zoom_min: i64,
    /// Largest zoom scale the viewport accepts.
    pub zoom_max: i64,
    /// Strength, in permille, of the weak pull of every node toward
    /// the graph centroid that keeps isolated nodes bounded.
    pub centering: i64,
    /// Distances below this are treated as this large when computing
    /// repulsion, so near-coincident nodes cannot blow the force up.
    pub min_repulsion_dist: i64,
    /// Whether releasing a dragged node keeps it pinned (`true`) or
    /// frees it to move on the next layout pass (`false`).
    pub pin_on_release: bool,
    /// Below this zoom scale the renderer emits no labels.
    pub label_zoom_threshold: i64,
}

impl Config {
    /// The bounds under which every force and transform computation
    /// stays within `i64`.
    pub open spec fn valid(self) -> bool {
        &&& 0 <= self.repulsion <= 1_000_000_000
        &&& 1 <= self.ideal_edge_length <= POS_LIMIT
        &&& 0 <= self.damping_end <= self.damping_start <= 1000
        &&& self.iteration_budget <= 1_000_000
        &&& 0 <= self.convergence_epsilon <= POS_LIMIT
        &&& 1 <= self.zoom_min <= self.zoom_max <= ZOOM_LIMIT
        &&& 0 <= self.centering <= 1000
        &&& 1 <= self.min_repulsion_dist <= POS_LIMIT
        &&& 0 <= self.label_zoom_threshold <= ZOOM_LIMIT
    }
}

/// The default option set: chosen so graphs of tens to low hundreds
/// of nodes converge within the iteration budget.
pub open spec fn default_config() -> Config {
    Config {
        repulsion: 400_000,
        ideal_edge_length: 100,
        damping_start: 900,
        damping_end: 300,
        iteration_budget: 300,
        convergence_epsilon: 1,
        zoom_min: 1,
        zoom_max: 64,
        centering: 20,
        min_repulsion_dist: 10,
        pin_on_release: false,
        label_zoom_threshold: 2,
    }
}

impl Default for Config {
    fn default() -> (c: Config)
        ensures
            c == default_config(),
            c.valid(),
    {
        Config {
            repulsion: 400_000,
            ideal_edge_length: 100,
            damping_start: 900,
            damping_end: 300,
            iteration_budget: 300,
            convergence_epsilon: 1,
            zoom_min: 1,
            zoom_max: 64,
            centering: 20,
            min_repulsion_dist: 10,
            pin_on_release: false,
            label_zoom_threshold: 2,
        }
    }
}

} // verus!
