//! Core logic of a telemetry node: the single-wire RGB LED pulse encoder and
//! the bounded history of sensor samples shared between a sampling loop and
//! readers that render it.

pub mod led;
pub mod ring;
pub mod shared;
pub mod error;
pub mod page;
