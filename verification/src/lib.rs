//! Deterministic core of a client-predicted, server-reconciled character
//! simulation: the per-tick input history, the choice of the input a tick
//! runs on, the decisions of the motion resolver and the rollback controller.
//!
//! The crate decides; it does not integrate. Vector arithmetic, ray casts and
//! the physics step belong to the caller, who hands in what they produced and
//! carries out what the crate returns.

pub mod scalar;
pub mod tick;
pub mod action;
pub mod buffer;
pub mod history;
pub mod motion;
pub mod state;
pub mod driver;
pub mod reconcile;
