//! A choreographed animation engine and raster-to-grid image renderer for a
//! cell-based canvas: a round-robin palette cycler, timed slide transitions
//! composed into sequences with deferred palette-switch signals, a per-region
//! orchestrator, and a luminance-normalizing image sampler.

pub mod orchestrator;
pub mod palette;
pub mod raster;
pub mod signal;
pub mod transition;
