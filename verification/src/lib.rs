//! Bookkeeping core of a 2D sprite and vector renderer: handles, render
//! queues, draw-call ordering, vertex-buffer merging and frame timing.
pub mod render;
pub mod ui;
pub mod util;
