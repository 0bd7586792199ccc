//! A lightweight publish/subscribe message broker core.
//!
//! The crate holds the verified engine of the broker: the wire codec for
//! requests and responses, the per-topic append-only log with bounded
//! retention, the topic registry, and the dispatcher that maps a request to
//! its effect on the registry and its response. The network front end (the
//! listener, the per-connection tasks and the timers) lives outside, calls
//! into this crate with decoded values, and writes back what the codec
//! produces.

pub mod broker;
pub mod config;
pub mod handler;
pub mod protocol;
pub mod router;
pub mod topic;
