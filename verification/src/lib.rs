//! Auto-scaling strip-chart plotting engine.
//!
//! The engine ingests numeric samples, grows a rectangular domain window to
//! fit all data seen so far, accumulates each series as a connected polyline,
//! and lays out axis tick labels.  Domain values are fixed-point numbers with
//! six decimal places, held in `i64` micro-units (see [`fixed`]); screen
//! positions are exact rationals, so the domain-to-screen mapping and its
//! inverse can be stated and proved exactly.
//!
//! Drawing, windowing, text rasterization and image encoding are external
//! collaborators: the engine only produces lists of drawing commands and
//! consumes plain values, so a thin shell can drive any backend.
#![verifier::loop_isolation(false)]

pub mod chart;
pub mod fixed;
pub mod frame;
pub mod grid;
pub mod ingest;
pub mod line;
pub mod render;
