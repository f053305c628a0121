//! Moving a whole stream into a sink.

use crate::error::Error;
use crate::io::read::AsyncRead;
use crate::io::write::AsyncWrite;
use vstd::prelude::*;

verus! {

/// The number of bytes that [`copy`] moves at a time.
pub const COPY_CHUNK: usize = 1024;

/// Reads `reader` to its end and writes every byte to `writer`, in order.
///
/// After a failure of either side the writer has accepted some front part of
/// what the reader held.
pub fn copy<R: AsyncRead, W: AsyncWrite>(reader: &mut R, writer: &mut W) -> (r: Result<(), Error>)
    ensures
        final(reader).reliable() == old(reader).reliable(),
        final(writer).reliable() == old(writer).reliable(),
        old(reader).reliable() && old(writer).reliable() ==> r is Ok,
        r is Ok ==> {
            &&& final(writer).written() == old(writer).written() + old(reader).pending()
            &&& final(reader).pending().len() == 0
        },
        r is Err ==> exists|k: int|
            0 <= k <= old(reader).pending().len() && final(writer).written() == old(
                writer,
            ).written() + #[trigger] old(reader).pending().take(k),
{
    let mut chunk: Vec<u8> = vec![0u8; COPY_CHUNK];
    let ghost source = reader.pending();
    let ghost mut moved: int = 0;
    loop
        invariant
            chunk@.len() == COPY_CHUNK,
            reader.reliable() == old(reader).reliable(),
            writer.reliable() == old(writer).reliable(),
            source == old(reader).pending(),
            0 <= moved <= source.len(),
            reader.pending() == source.skip(moved),
            writer.written() == old(writer).written() + source.take(moved),
        decreases reader.pending().len(),
    {
        let ghost before = writer.written();
        match reader.read(chunk.as_mut_slice()) {
            Err(e) => {
                return Err(e);
            },
            Ok(n) => {
                if n == 0 {
                    proof {
                        assert(source.take(moved) =~= source);
                    }
                    return Ok(());
                }
                let part = vstd::slice::slice_subrange(chunk.as_slice(), 0, n);
                proof {
                    assert(part@ =~= source.skip(moved).take(n as int));
                    assert(reader.pending() =~= source.skip(moved + n));
                }
                match writer.write_all(part) {
                    Err(e) => {
                        proof {
                            let k = choose|k: int|
                                0 <= k <= part@.len() && writer.written() == before
                                    + #[trigger] part@.take(k);
                            assert(before + part@.take(k) =~= old(writer).written() + source.take(
                                moved + k,
                            ));
                        }
                        return Err(e);
                    },
                    Ok(()) => {
                        proof {
                            assert(before + part@ =~= old(writer).written() + source.take(
                                moved + n,
                            ));
                            moved = moved + n;
                        }
                    },
                }
            },
        }
    }
}

} // verus!
