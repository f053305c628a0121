//! HTTP: bodies, header fields, and the one-shot response protocol.

pub mod body;
pub mod client;
pub mod fields;
pub mod method;
pub mod request;
pub mod response;
pub mod server;

pub use crate::error::Error;
pub use body::{Body, BoundedBody, IntoBody, StreamedBody};
pub use client::Client;
pub use fields::{Fields, Headers, Trailers};
pub use method::Method;
pub use request::Request;
pub use response::Response;

use vstd::prelude::*;

verus! {

/// The result of a request operation.
pub type Result<T> = core::result::Result<T, Error>;

} // verus!
