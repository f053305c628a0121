//! Writing bytes to a sink.

use crate::error::Error;
use vstd::prelude::*;

verus! {

/// A sink for bytes.
///
/// A write may suspend the computation that calls it, until the sink has
/// accepted at least one byte; a flush, until everything accepted has been
/// handed on. The contract speaks of the value that the computation resumes
/// with.
pub trait AsyncWrite {
    /// Every byte that the sink has accepted so far, in order. A sink that
    /// does not say so leaves them open.
    open spec fn written(&self) -> Seq<u8> {
        arbitrary()
    }

    /// Whether no write or flush of this sink fails. A sink that does not say
    /// so may fail.
    open spec fn reliable(&self) -> bool {
        false
    }

    /// Hands the front of `buf` to the sink and returns how many bytes it
    /// accepted: at least one, unless `buf` is empty. A failed write accepts
    /// nothing.
    fn write(&mut self, buf: &[u8]) -> (r: Result<usize, Error>)
        ensures
            final(self).reliable() == old(self).reliable(),
            old(self).reliable() ==> r is Ok,
            r matches Ok(n) ==> {
                &&& n <= buf@.len()
                &&& n == 0 ==> buf@.len() == 0
                &&& final(self).written() == old(self).written() + buf@.take(n as int)
            },
            r is Err ==> final(self).written() == old(self).written(),
    ;

    /// Hands on what the sink has accepted and still holds back. The bytes
    /// accepted stay the same.
    fn flush(&mut self) -> (r: Result<(), Error>)
        ensures
            final(self).reliable() == old(self).reliable(),
            old(self).reliable() ==> r is Ok,
            final(self).written() == old(self).written(),
    ;

    /// Writes all of `buf`, in as many writes as the sink needs. After a
    /// failure the sink has accepted some front part of `buf`.
    fn write_all(&mut self, buf: &[u8]) -> (r: Result<(), Error>)
        ensures
            final(self).reliable() == old(self).reliable(),
            old(self).reliable() ==> r is Ok,
            r is Ok ==> final(self).written() == old(self).written() + buf@,
            r is Err ==> exists|k: int|
                0 <= k <= buf@.len() && final(self).written() == old(self).written()
                    + #[trigger] buf@.take(k),
    {
        let mut done: usize = 0;
        while done < buf.len()
            invariant
                done <= buf@.len(),
                self.reliable() == old(self).reliable(),
                self.written() == old(self).written() + buf@.take(done as int),
            decreases buf@.len() - done,
        {
            let rest = vstd::slice::slice_subrange(buf, done, buf.len());
            match self.write(rest) {
                Err(e) => {
                    return Err(e);
                },
                Ok(n) => {
                    proof {
                        assert(buf@.take(done as int) + rest@.take(n as int) =~= buf@.take(
                            done + n,
                        ));
                    }
                    done = done + n;
                },
            }
        }
        proof {
            assert(buf@.take(done as int) =~= buf@);
        }
        Ok(())
    }
}

} // verus!
