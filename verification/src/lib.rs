//! A small asynchronous standard library for hosts whose only concurrency
//! primitive is level-triggered readiness polling.
//!
//! Everything here is written without I/O: a type takes what the host
//! reported as a plain value and answers with what to do next. A driver
//! outside this crate performs those actions and suspends computations.
//!
//! - [`runtime`]: the single-threaded reactor that turns readiness into resume
//!   points, and the race between an operation and a timer.
//! - [`io`]: the byte-stream contract and the in-memory streams.
//! - [`http`]: bodies, header fields, the one-shot response protocol of a
//!   server, and the exchange of a client.
//! - [`error`]: the errors of all of them.

pub mod error;
pub mod http;
pub mod io;
pub mod runtime;
