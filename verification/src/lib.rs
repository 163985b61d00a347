//! Requestor-side client engine for a decentralized compute marketplace.
//!
//! The crate models the parts of the engine with real state and ordering
//! guarantees — deferred resource cleanup, market negotiation, batch result
//! delivery, payment reconciliation and the output framing codec — as plain
//! data with verified contracts.  The surrounding transport (REST calls,
//! channels, tasks) stays outside the library and feeds it plain values.

pub mod cleanup;
pub mod codec;
pub mod batch;
pub mod payment;
pub mod market;
pub mod activity;
pub mod package;
pub mod transfer;
pub mod streaming;
pub mod requestor;
