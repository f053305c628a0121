//! The single-threaded runtime: the reactor, and the race between an
//! operation and a timer.

pub mod reactor;

pub use reactor::{Action, EventKey, Reactor, Registration, Table, Turn, Winner};
