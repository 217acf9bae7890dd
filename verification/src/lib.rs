//! Client-side prediction and server reconciliation for fixed-tick simulations.
//!
//! An authoritative server advances a simulation one tick at a time. Every
//! client keeps a *template* world that follows what the server has said, a
//! *prediction* world that runs ahead of it under local input, and the main
//! world that is shown. This crate holds the decisions of that pipeline: the
//! tick clock, the ordered queue of tick-stamped world updates, the entity
//! index, the extraction of one world into another, the estimate of the
//! server clock and the prediction state machine. Each is stated over plain
//! values and proved against its contract; running schedules, moving bytes
//! and touching the entity store itself are left to the host.
//!
//! Wall-clock quantities are whole nanoseconds throughout.

pub mod client;
pub mod common;
pub mod example;
pub mod server;
