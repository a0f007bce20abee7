//! A wheel of fortune whose segments lead on to further wheels.
//!
//! The library holds the state and the rules of the wheel: which wheels were
//! loaded, how the current wheel is cut into equal segments, whether a spin
//! may start, which segment a spin ends on and which wheel comes next, and
//! the running list of choices made so far. Drawing, animation, input and
//! file access belong to the engine that hosts it.

pub mod data;
pub mod segments;
pub mod choice;
pub mod selection_wheel;
pub mod ui;
