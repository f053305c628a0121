//! A read position over a buffer that is wholly in memory.

use crate::error::Error;
use crate::io::read::AsyncRead;
use vstd::prelude::*;
use vstd::string::StringSliceAdditionalSpecFns;

verus! {

/// A value that holds a run of bytes in memory.
pub trait AsBytes {
    /// The bytes held. A value that does not say so leaves them open.
    open spec fn bytes(&self) -> Seq<u8> {
        arbitrary()
    }

    /// The bytes held, as a slice.
    fn byte_slice(&self) -> (b: &[u8])
        ensures
            b@ == self.bytes(),
    ;
}

impl AsBytes for Vec<u8> {
    open spec fn bytes(&self) -> Seq<u8> {
        self@
    }

    fn byte_slice(&self) -> (b: &[u8]) {
        self.as_slice()
    }
}

impl<'a> AsBytes for &'a [u8] {
    open spec fn bytes(&self) -> Seq<u8> {
        self@
    }

    fn byte_slice(&self) -> (b: &[u8]) {
        *self
    }
}

impl AsBytes for String {
    open spec fn bytes(&self) -> Seq<u8> {
        vstd::utf8::encode_utf8(self@)
    }

    fn byte_slice(&self) -> (b: &[u8]) {
        self.as_str().as_bytes()
    }
}

impl<'a> AsBytes for &'a str {
    open spec fn bytes(&self) -> Seq<u8> {
        self.spec_bytes()
    }

    fn byte_slice(&self) -> (b: &[u8]) {
        self.as_bytes()
    }
}

/// The bytes of `data` from position `pos` on; none once `pos` is at or past
/// the end.
pub open spec fn bytes_from(data: Seq<u8>, pos: u64) -> Seq<u8> {
    if pos <= data.len() {
        data.skip(pos as int)
    } else {
        Seq::empty()
    }
}

/// A buffer with a read position.
///
/// Reads hand out the bytes from the position on and advance it. The
/// position may be set past the end of the buffer; nothing is left to read
/// then.
#[derive(Debug)]
pub struct Cursor<T> {
    inner: T,
    pos: u64,
}

impl<T> Cursor<T> {
    /// The buffer.
    pub closed spec fn spec_get_ref(&self) -> &T {
        &self.inner
    }

    /// The read position, in bytes from the start of the buffer.
    pub closed spec fn spec_position(&self) -> u64 {
        self.pos
    }

    /// A cursor at the start of `inner`.
    pub fn new(inner: T) -> (c: Cursor<T>)
        ensures
            *c.spec_get_ref() == inner,
            c.spec_position() == 0,
    {
        Cursor { inner, pos: 0 }
    }

    /// The buffer.
    #[verifier::when_used_as_spec(spec_get_ref)]
    pub fn get_ref(&self) -> (t: &T)
        ensures
            t == self.spec_get_ref(),
    {
        &self.inner
    }

    /// Gives the buffer back and drops the position.
    pub fn into_inner(self) -> (t: T)
        ensures
            t == *self.spec_get_ref(),
    {
        self.inner
    }

    /// The read position, in bytes from the start of the buffer.
    #[verifier::when_used_as_spec(spec_position)]
    pub fn position(&self) -> (p: u64)
        ensures
            p == self.spec_position(),
    {
        self.pos
    }

    /// Moves the read position to `pos`. The buffer stays as it is.
    pub fn set_position(&mut self, pos: u64)
        ensures
            final(self).spec_position() == pos,
            final(self).spec_get_ref() == old(self).spec_get_ref(),
    {
        self.pos = pos;
    }
}

impl<T: AsBytes> Cursor<T> {
    /// The bytes from the read position to the end of the buffer.
    pub open spec fn remaining(&self) -> Seq<u8> {
        bytes_from(self.spec_get_ref().bytes(), self.spec_position())
    }
}

impl<T: AsBytes> AsyncRead for Cursor<T> {
    open spec fn pending(&self) -> Seq<u8> {
        self.remaining()
    }

    open spec fn reliable(&self) -> bool {
        true
    }

    /// Copies `min(remaining, buf.len())` bytes into the front of `buf` and
    /// advances the position by as much. Never fails and never waits.
    fn read(&mut self, buf: &mut [u8]) -> (r: Result<usize, Error>)
        ensures
            r matches Ok(n) && n == vstd::math::min(
                old(self).remaining().len() as int,
                old(buf)@.len() as int,
            ),
            final(self).spec_get_ref() == old(self).spec_get_ref(),
            final(self).spec_position() == old(self).spec_position() + r->Ok_0,
    {
        let data = self.inner.byte_slice();
        let len = data.len();
        let start: usize = if self.pos < len as u64 {
            self.pos as usize
        } else {
            len
        };
        let avail: usize = len - start;
        let n: usize = if avail < buf.len() {
            avail
        } else {
            buf.len()
        };
        let mut i: usize = 0;
        while i < n
            invariant
                i <= n,
                n <= buf@.len(),
                start + n <= data@.len() == len,
                buf@.len() == old(buf)@.len(),
                forall|j: int| 0 <= j < i ==> buf@[j] == data@[start + j],
                forall|j: int| i <= j < buf@.len() ==> buf@[j] == old(buf)@[j],
            decreases n - i,
        {
            buf[i] = data[start + i];
            i += 1;
        }
        proof {
            assert(old(self).remaining() =~= data@.skip(start as int));
            assert(buf@ =~= old(self).pending().take(n as int) + old(buf)@.skip(n as int));
        }
        self.pos = self.pos + n as u64;
        proof {
            assert(self.pending() =~= old(self).pending().skip(n as int));
            assert(self.reliable());
            assert(old(self).reliable());
        }
        Ok(n)
    }
}

} // verus!
