//! An interactive node-and-edge graph viewer core: an indexed graph
//! model built from parsed node and edge lists, a force-directed
//! layout engine that assigns every node a bounded 2D position, a
//! renderer that turns graph, positions and viewport into an ordered
//! list of draw primitives with hit-testing, and a viewport and drag
//! controller over a pannable, zoomable camera.

pub mod config;
pub mod geom;
pub mod graph;
pub mod interact;
pub mod layout;
pub mod render;
pub mod viewport;
