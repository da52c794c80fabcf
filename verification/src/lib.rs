//! Verified core of a small ray tracer.
//!
//! The floating-point numerics (vector algebra, camera projection, the
//! intersection formulas themselves) live outside this library; what is
//! verified here is the discrete logic the renderer is built around:
//! nearest-hit selection over candidate hit parameters, the pixel buffer
//! with its bottom-up row layout, and the classification of scene records.

pub mod buffer;
pub mod scene;
pub mod select;
