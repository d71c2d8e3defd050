//! Rewrites ACMI flight-recorder traces so they compress well: reference
//! coordinates are re-anchored near the data's true extent and per-entity
//! property updates are reduced to minimal diffs against committed state.
//!
//! Floating-point values travel through this crate as their IEEE-754 `u64`
//! bit patterns; the bit-level meaning of equality, ordering and positivity
//! lives in [`floatbits`]. The record model is in [`model`], the first-pass
//! minimum scan in [`scanner`], and the diffing rewriter in [`engine`].
//! Stream-level guarantees of the rewriter are proved in [`laws`].

pub mod floatbits;
pub mod model;
pub mod props;
pub mod engine;
pub mod scanner;
pub mod laws;
