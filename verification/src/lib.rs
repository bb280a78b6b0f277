//! Client-side core of a container-control tool.
//!
//! Two verified components:
//! - the daemon registry (named remote hosts, one of them current), with its
//!   byte-level persistence codec, and
//! - the protocol client codec that frames `Run` / `Trace` / `Logs` requests
//!   for the wire and interprets framed responses.
//!
//! File and network I/O live outside this crate; every operation here is a
//! pure function from plain values to plain values, with a contract.

pub mod client;
pub mod codec;
pub mod daemon;
pub mod errors;
pub mod persist;
pub mod protocol;
