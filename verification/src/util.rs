pub mod bounds;
pub mod handle;
pub mod key_order;
pub mod stopwatch;
