//! Core of a completion-queue-driven echo server: a fixed-size buffer arena
//! with ownership tracking, a bijective routing-tag codec that survives a
//! round trip through an opaque kernel token, and a per-connection state
//! machine driven entirely by asynchronous completion events.
//!
//! The kernel submission/completion interface itself (io_uring) is operated
//! by an unverified shell around this library; everything that decides what
//! to submit next, which connection a completion belongs to, and when a
//! connection and its buffer slot are reclaimed is verified here.

pub mod buffer;
pub mod client;
pub mod common;
pub mod server;
