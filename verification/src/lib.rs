//! Chunked commitment-and-constraint circuit engine.
//!
//! The library proves that a disclosed edited dataset was derived from an
//! undisclosed original by a publicly known transformation (a pixel-region
//! crop). Datasets are packed into Goldilocks field elements, hashed with a
//! sponge permutation chunk by chunk, and each chunk's hash transition and
//! per-element transformation constraints are compiled into one arithmetic
//! circuit; the per-chunk proofs are then recursively aggregated into a
//! single proof whose public inputs are exactly the two end-to-end digests.

pub mod builder;
pub mod cli;
pub mod field;
pub mod hash;
pub mod proofs;
pub mod sponge;
pub mod transformations;
