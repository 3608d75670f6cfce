//! A verifiable decentralized reputation protocol.
//!
//! Peers hold private local-trust opinions about one another; a global
//! reputation score per peer is computed by an iterative fixed-point
//! aggregation that blends neighbours' opinions, weighted by the neighbours'
//! own reputation, with a fixed pre-trust prior. Scores and weights are
//! fixed-point numbers with [`SCALE`] as the unit, so that one unit of
//! `SCALE` stands for the real number one.

use vstd::prelude::*;

pub mod absorb;
pub mod engine;
pub mod peer;

verus! {

/// Fixed-point unit: a score or weight of `SCALE` stands for the real
/// number one; weights lie in `[0, SCALE]`.
pub const SCALE: u64 = 1_000_000_000;

} // verus!
