//! Reading bytes from a source.

use crate::error::Error;
use vstd::prelude::*;

verus! {

/// The number of bytes that [`AsyncRead::read_to_end`] asks for at a time.
pub const CHUNK_SIZE: usize = 1024;

/// A source of bytes.
///
/// A read may suspend the computation that calls it, until at least one byte
/// is available or the stream has ended; it never blocks the thread. The
/// contract speaks of the value that the computation resumes with.
pub trait AsyncRead {
    /// The bytes that the reads still to come produce, in order. A source
    /// that does not say so leaves them open.
    open spec fn pending(&self) -> Seq<u8> {
        arbitrary()
    }

    /// Whether no read of this source fails. A source that does not say so
    /// may fail.
    open spec fn reliable(&self) -> bool {
        false
    }

    /// Moves up to `buf.len()` bytes from the front of the source into the
    /// front of `buf` and returns their number, which is 0 only at the end of
    /// the stream or for an empty `buf`.
    fn read(&mut self, buf: &mut [u8]) -> (r: Result<usize, Error>)
        ensures
            final(buf)@.len() == old(buf)@.len(),
            final(self).reliable() == old(self).reliable(),
            old(self).reliable() ==> r is Ok,
            r matches Ok(n) ==> {
                &&& n <= old(buf)@.len()
                &&& n <= old(self).pending().len()
                &&& n == 0 <==> old(self).pending().len() == 0 || old(buf)@.len() == 0
                &&& final(buf)@ == old(self).pending().take(n as int) + old(buf)@.skip(n as int)
                &&& final(self).pending() == old(self).pending().skip(n as int)
            },
    ;

    /// Reads until the end of the stream, appends everything to `buf` and
    /// returns the number of bytes appended.
    fn read_to_end(&mut self, buf: &mut Vec<u8>) -> (r: Result<usize, Error>)
        requires
            old(buf)@.len() + old(self).pending().len() <= usize::MAX,
        ensures
            final(self).reliable() == old(self).reliable(),
            old(self).reliable() ==> r is Ok,
            r matches Ok(n) ==> {
                &&& n == old(self).pending().len()
                &&& final(buf)@ == old(buf)@ + old(self).pending()
                &&& final(self).pending().len() == 0
            },
            r is Err ==> exists|k: int|
                0 <= k <= old(self).pending().len() && #[trigger] old(self).pending().take(k)
                    == final(buf)@.skip(old(buf)@.len() as int),
    {
        let mut chunk: Vec<u8> = vec![0u8; CHUNK_SIZE];
        let mut total: usize = 0;
        loop
            invariant
                chunk@.len() == CHUNK_SIZE,
                self.reliable() == old(self).reliable(),
                total <= old(self).pending().len(),
                old(buf)@.len() + old(self).pending().len() <= usize::MAX,
                buf@ == old(buf)@ + old(self).pending().take(total as int),
                self.pending() == old(self).pending().skip(total as int),
            decreases self.pending().len(),
        {
            let ghost before = self.pending();
            match self.read(chunk.as_mut_slice()) {
                Err(e) => {
                    proof {
                        assert(old(self).pending().take(total as int) =~= buf@.skip(
                            old(buf)@.len() as int,
                        ));
                    }
                    return Err(e);
                },
                Ok(n) => {
                    if n == 0 {
                        proof {
                            assert(old(self).pending().take(total as int) =~= old(self).pending());
                        }
                        return Ok(total);
                    }
                    let part = vstd::slice::slice_subrange(chunk.as_slice(), 0, n);
                    buf.extend_from_slice(part);
                    proof {
                        assert(part@ =~= before.take(n as int));
                        assert(buf@ =~= old(buf)@ + old(self).pending().take(total + n));
                        assert(self.pending() =~= old(self).pending().skip(total + n));
                    }
                    total = total + n;
                },
            }
        }
    }
}

} // verus!
