//! Probability and simulation engine for group-partitioned peer networks.
//!
//! The crate answers one statistical question: how likely is it that an
//! adversary who controls a bounded number of nodes in a large network,
//! partitioned into groups with a local quorum rule, can compromise or
//! disrupt a group's quorum.  Two paths are offered: a closed-form
//! hypergeometric model for a static random allocation of malicious nodes,
//! and a discrete-time churn simulator that estimates the same probabilities
//! empirically over repeated randomized runs.
//!
//! All probabilities are carried as exact rationals; no floating point is
//! used anywhere in the library.

use vstd::prelude::*;

pub mod net;
pub mod prob;
pub mod quorum;
pub mod ratio;
pub mod rng;
pub mod sim;
pub mod sweep;
pub mod tools;

verus! {

/// Node counts and other whole-number quantities.
pub type NN = u64;

} // verus!
