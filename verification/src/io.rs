//! The byte-stream contract and the streams that live in memory.

pub mod copy;
pub mod cursor;
pub mod read;
pub mod write;

pub use crate::error::Error;
pub use copy::copy;
pub use cursor::{AsBytes, Cursor};
pub use read::AsyncRead;
pub use write::AsyncWrite;

use vstd::prelude::*;

verus! {

/// The result of a stream operation.
pub type Result<T> = core::result::Result<T, Error>;

} // verus!
