//! A real-time interception layer between a client and an upstream producer
//! of a multiplexed, line-oriented token stream.
//!
//! The library frames raw bytes into classified lines, buffers content
//! fragments in a bounded sliding window, validates the window against a pool
//! of session axioms, and drives a release/veto state machine that decides
//! what reaches the client and when rejected content is reported to a
//! recycle side-channel. Document-assembly helpers and a routing decision
//! used by the surrounding services are included as well.

pub mod assemble;
pub mod laws;
pub mod request;
pub mod routing;
pub mod session;
pub mod text;
pub mod validate;
