//! A whiteboard core: a pannable canvas of drawable units, each recording
//! freehand strokes as ordered point sequences, with an axis-aligned bounding
//! region per unit for hit-testing, a stroke-lifecycle state machine with a
//! stickiness timeout, a cyclic tool selector, and a picker that selects units
//! under the cursor.
//!
//! The host event loop (windowing, camera projection, rendering, the clock)
//! lives outside this crate. Each evaluation step it hands in plain values:
//! pointer-button edges, cursor samples already converted to world space
//! (`None` where the conversion failed), and the current time in
//! milliseconds. The crate returns the next state and, for the renderer, the
//! geometry to draw.

pub mod camera;
pub mod picker;
pub mod recorder;
pub mod region;
pub mod render;
pub mod stroke;
pub mod time;
pub mod tools;
pub mod unit;
