//! Reconciliation of a desired set of network interfaces with the current
//! state of a host into one validated, ordered plan.

pub mod model;
pub mod plan;
pub mod proofs;
