//! Arithmetic-drill helper: reads a formula recognised on screen, computes
//! its answer and plans the touch strokes that write the answer on a device.

pub mod color;
pub mod decimal;
pub mod text;
pub mod formula;
pub mod swipe;
pub mod device;
pub mod task;
pub mod capture;
