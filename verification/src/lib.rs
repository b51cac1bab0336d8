//! Verified core of a network-benchmark driver.
//!
//! The library turns raw process logs into typed numeric samples, aggregates
//! samples into exact summary statistics and an empirical distribution, and
//! sequences a benchmark run (network profile lifecycle, server lifetime,
//! client trials) as a verified state machine that an unverified shell can
//! drive.

pub mod endpoint;
pub mod error;
pub mod network;
pub mod orchestrator;
pub mod report;
pub mod stats;
pub mod text;
