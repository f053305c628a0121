//! The server side of an exchange: one response per request, and no more.
//!
//! A [`Responder`] is the right to answer one request. It is used up either by
//! [`Responder::respond`], which sends a whole response, or by
//! [`Responder::start_response`], which commits the head and hands out an
//! [`OutgoingBody`] to stream into. The stream is ended by
//! [`Finished::finish`] or [`Finished::fail`]. Each of these takes its
//! argument by value, and a [`Finished`] has no other source, so a handler
//! that must return one has ended a response exactly once. The [`Finished`]
//! carries the number of the request that its responder was made for, by
//! which the driver sees that it is the response to the handler's own request.

use crate::error::Error;
use crate::http::body::Body;
use crate::http::fields::Fields;
use crate::http::response::Response;
use crate::io::read::AsyncRead;
use crate::io::write::AsyncWrite;
use vstd::prelude::*;

verus! {

/// The number of bytes that [`Responder::respond`] moves at a time.
pub const CHUNK: usize = 1024;

/// How a response stream ended, as the receiver sees it.
#[derive(Debug, Clone, Copy, PartialEq, Eq, Structural)]
pub enum End {
    /// A valid terminator: the response is whole.
    Complete,
    /// The stream broke off: the transfer is incomplete.
    Aborted,
}

/// The body of a response whose bytes will be streamed.
#[derive(Debug, Clone, Copy, PartialEq, Eq, Structural)]
pub struct BodyForthcoming;

/// A response stream that is open: its head is on the wire and its body is
/// being written.
pub struct Streaming {
    /// The request that the response answers.
    pub request: u64,
    /// The status code, committed.
    pub status: u16,
    /// The header fields, committed.
    pub headers: Seq<(Seq<u8>, Seq<u8>)>,
    /// The body bytes handed to the transport: the receiver can see them.
    pub flushed: Seq<u8>,
    /// The body bytes accepted and still held back.
    pub buffered: Seq<u8>,
    /// The number of bytes that may be held back.
    pub capacity: usize,
}

/// A response as the receiver observes it once the stream has ended.
pub struct Transfer {
    /// The request that the response answers.
    pub request: u64,
    /// The status code.
    pub status: u16,
    /// The header fields.
    pub headers: Seq<(Seq<u8>, Seq<u8>)>,
    /// The body bytes that arrived.
    pub body: Seq<u8>,
    /// How the stream ended.
    pub end: End,
    /// The trailer fields that followed the body, if any.
    pub trailers: Option<Seq<(Seq<u8>, Seq<u8>)>>,
}

impl Streaming {
    /// The stream right after its head was committed: no body byte yet.
    pub open spec fn start(
        request: u64,
        status: u16,
        headers: Seq<(Seq<u8>, Seq<u8>)>,
        capacity: usize,
    ) -> Streaming {
        Streaming {
            request,
            status,
            headers,
            flushed: Seq::empty(),
            buffered: Seq::empty(),
            capacity,
        }
    }

    /// Every body byte accepted so far, in order.
    pub open spec fn written(self) -> Seq<u8> {
        self.flushed + self.buffered
    }

    /// The stream after it accepted `bytes`. They are held back while they
    /// fit; once more than `capacity` bytes would be held, all of them go to
    /// the transport.
    pub open spec fn write(self, bytes: Seq<u8>) -> Streaming {
        if self.buffered.len() + bytes.len() > self.capacity {
            Streaming { flushed: self.written() + bytes, buffered: Seq::empty(), ..self }
        } else {
            Streaming { buffered: self.buffered + bytes, ..self }
        }
    }

    /// The stream after everything held back went to the transport.
    pub open spec fn flush(self) -> Streaming {
        Streaming { flushed: self.written(), buffered: Seq::empty(), ..self }
    }

    /// What the receiver observes when the stream is ended.
    ///
    /// On success everything written arrives, then the trailers, then a valid
    /// terminator. On failure only what had reached the transport arrives, no
    /// trailers, and the stream breaks off.
    pub open spec fn finish(self, ok: bool, trailers: Option<Seq<(Seq<u8>, Seq<u8>)>>) -> Transfer {
        if ok {
            Transfer {
                request: self.request,
                status: self.status,
                headers: self.headers,
                body: self.written(),
                end: End::Complete,
                trailers,
            }
        } else {
            Transfer {
                request: self.request,
                status: self.status,
                headers: self.headers,
                body: self.flushed,
                end: End::Aborted,
                trailers: None,
            }
        }
    }
}

/// The view of optional trailers.
pub open spec fn trailers_view(trailers: Option<Fields>) -> Option<Seq<(Seq<u8>, Seq<u8>)>> {
    match trailers {
        Some(t) => Some(t@),
        None => None,
    }
}

/// The right to answer one request.
#[derive(Debug)]
pub struct Responder {
    request: u64,
    capacity: usize,
}

/// The write handle of a response whose head is committed.
#[derive(Debug)]
pub struct OutgoingBody {
    request: u64,
    status: u16,
    headers: Fields,
    flushed: Vec<u8>,
    buffer: Vec<u8>,
    capacity: usize,
}

/// The proof that a response was ended, and the record of what the receiver
/// observes of it.
#[derive(Debug)]
pub struct Finished {
    request: u64,
    status: u16,
    headers: Fields,
    body: Vec<u8>,
    end: End,
    trailers: Option<Fields>,
}

impl Responder {
    /// The number of body bytes that the transport holds back before it
    /// hands them on.
    pub closed spec fn capacity(&self) -> usize {
        self.capacity
    }

    /// The request that this responder answers.
    pub closed spec fn request(&self) -> u64 {
        self.request
    }

    /// The right to answer the request numbered `request`, over a transport
    /// that holds back up to `capacity` bytes.
    pub fn new(request: u64, capacity: usize) -> (r: Responder)
        ensures
            r.request() == request,
            r.capacity() == capacity,
    {
        Responder { request, capacity }
    }

    /// Commits the head of `response` and hands out the handle to write the
    /// body with. The head cannot be changed afterwards.
    pub fn start_response(self, response: Response<BodyForthcoming>) -> (body: OutgoingBody)
        ensures
            body@ == Streaming::start(
                self.request(),
                response.spec_status(),
                response.spec_headers()@,
                self.capacity(),
            ),
    {
        let (status, headers, _) = response.into_parts();
        OutgoingBody {
            request: self.request,
            status,
            headers,
            flushed: Vec::new(),
            buffer: Vec::new(),
            capacity: self.capacity,
        }
    }

    /// Sends a whole response: commits the head, writes the body to its end
    /// and ends the stream, with success if every read succeeded.
    ///
    /// If a read fails the stream is aborted; the receiver has then seen some
    /// front part of the body.
    pub fn respond<B: Body>(self, response: Response<B>) -> (done: Finished)
        ensures
            done@.request == self.request(),
            done@.status == response.spec_status(),
            done@.headers == response.spec_headers()@,
            done@.trailers is None,
            response.spec_body().reliable() ==> done@.end == End::Complete,
            done@.end == End::Complete ==> done@.body == response.spec_body().pending(),
            done@.end == End::Aborted ==> done@.body.is_prefix_of(response.spec_body().pending()),
            response.spec_body().reliable() ==> done@ == Streaming::start(
                self.request(),
                response.spec_status(),
                response.spec_headers()@,
                self.capacity(),
            ).write(response.spec_body().pending()).finish(true, None),
    {
        let (status, headers, mut source) = response.into_parts();
        let mut body = OutgoingBody {
            request: self.request,
            status,
            headers,
            flushed: Vec::new(),
            buffer: Vec::new(),
            capacity: self.capacity,
        };
        let ghost begun = body@;
        let ghost content = source.pending();
        let result = body.write_from(&mut source);
        proof {
            if result is Ok {
                assert(body@.written() =~= content);
                assert(begun.write(content).written() =~= content);
            } else {
                let k = choose|k: int|
                    0 <= k <= content.len() && body@.written() == begun.written()
                        + #[trigger] content.take(k);
                assert(body@.written() =~= content.take(k));
                assert(body@.flushed =~= content.take(body@.flushed.len() as int));
            }
        }
        Finished::finish(body, result, None)
    }
}

impl View for OutgoingBody {
    type V = Streaming;

    closed spec fn view(&self) -> Streaming {
        Streaming {
            request: self.request,
            status: self.status,
            headers: self.headers@,
            flushed: self.flushed@,
            buffered: self.buffer@,
            capacity: self.capacity,
        }
    }
}

impl OutgoingBody {
    /// The body bytes handed to the transport so far.
    pub fn flushed(&self) -> (bytes: &[u8])
        ensures
            bytes@ == self@.flushed,
    {
        self.flushed.as_slice()
    }

    /// The number of body bytes accepted and still held back.
    pub fn buffered_len(&self) -> (n: usize)
        ensures
            n == self@.buffered.len(),
    {
        self.buffer.len()
    }

    /// Reads `source` to its end and writes every byte to this body, chunk by
    /// chunk. After a failed read the body has accepted some front part of
    /// what the source held.
    fn write_from<R: AsyncRead>(&mut self, source: &mut R) -> (r: Result<(), Error>)
        ensures
            final(self)@.request == old(self)@.request,
            final(self)@.status == old(self)@.status,
            final(self)@.headers == old(self)@.headers,
            final(self)@.capacity == old(self)@.capacity,
            old(source).reliable() ==> r is Ok,
            r is Ok ==> final(self)@.written() == old(self)@.written() + old(source).pending(),
            r is Err ==> exists|k: int|
                0 <= k <= old(source).pending().len() && final(self)@.written() == old(
                    self,
                )@.written() + #[trigger] old(source).pending().take(k),
    {
        let mut chunk: Vec<u8> = vec![0u8; CHUNK];
        let ghost content = source.pending();
        let ghost mut moved: int = 0;
        loop
            invariant
                chunk@.len() == CHUNK,
                self@.request == old(self)@.request,
                self@.status == old(self)@.status,
                self@.headers == old(self)@.headers,
                self@.capacity == old(self)@.capacity,
                source.reliable() == old(source).reliable(),
                content == old(source).pending(),
                0 <= moved <= content.len(),
                source.pending() == content.skip(moved),
                self@.written() == old(self)@.written() + content.take(moved),
            decreases source.pending().len(),
        {
            let ghost before = self@.written();
            match source.read(chunk.as_mut_slice()) {
                Err(e) => {
                    return Err(e);
                },
                Ok(n) => {
                    if n == 0 {
                        proof {
                            assert(content.take(moved) =~= content);
                        }
                        return Ok(());
                    }
                    let part = vstd::slice::slice_subrange(chunk.as_slice(), 0, n);
                    let _ = self.write(part);
                    proof {
                        assert(part@ =~= content.skip(moved).take(n as int));
                        assert(source.pending() =~= content.skip(moved + n));
                        assert(self@.written() =~= before + part@);
                        assert(before + part@ =~= old(self)@.written() + content.take(
                            moved + n,
                        ));
                        moved = moved + n;
                    }
                },
            }
        }
    }
}

impl AsyncWrite for OutgoingBody {
    open spec fn written(&self) -> Seq<u8> {
        self@.written()
    }

    open spec fn reliable(&self) -> bool {
        true
    }

    /// Accepts all of `buf`. Never fails and never waits.
    fn write(&mut self, buf: &[u8]) -> (r: Result<usize, Error>)
        ensures
            r == Ok::<usize, Error>(buf@.len() as usize),
            final(self)@ == old(self)@.write(buf@),
    {
        if self.buffer.len() > self.capacity || buf.len() > self.capacity - self.buffer.len() {
            self.flushed.append(&mut self.buffer);
            self.flushed.extend_from_slice(buf);
            proof {
                assert(self.flushed@ =~= old(self)@.written() + buf@);
            }
        } else {
            self.buffer.extend_from_slice(buf);
            proof {
                assert(self.buffer@ =~= old(self)@.buffered + buf@);
            }
        }
        proof {
            assert(self@ == old(self)@.write(buf@));
            assert(buf@.take(buf@.len() as int) =~= buf@);
            assert(self@.written() =~= old(self)@.written() + buf@);
            assert(self.reliable());
            assert(old(self).reliable());
        }
        Ok(buf.len())
    }

    /// Hands everything held back to the transport. Never fails.
    fn flush(&mut self) -> (r: Result<(), Error>)
        ensures
            r is Ok,
            final(self)@ == old(self)@.flush(),
    {
        self.flushed.append(&mut self.buffer);
        proof {
            assert(self@ == old(self)@.flush());
            assert(self@.written() =~= old(self)@.written());
            assert(self.reliable());
            assert(old(self).reliable());
        }
        Ok(())
    }

    /// Accepts all of `buf`, as one write does.
    fn write_all(&mut self, buf: &[u8]) -> (r: Result<(), Error>)
        ensures
            r is Ok,
            final(self)@ == old(self)@.write(buf@),
    {
        let _ = self.write(buf);
        proof {
            assert(self@.written() =~= old(self)@.written() + buf@);
            assert(self.reliable());
            assert(old(self).reliable());
        }
        Ok(())
    }
}

impl View for Finished {
    type V = Transfer;

    closed spec fn view(&self) -> Transfer {
        Transfer {
            request: self.request,
            status: self.status,
            headers: self.headers@,
            body: self.body@,
            end: self.end,
            trailers: trailers_view(self.trailers),
        }
    }
}

impl Finished {
    /// Ends the stream of `body`.
    ///
    /// With `Ok` everything written is flushed, the trailers are attached if
    /// given, and the stream ends with a valid terminator. With `Err` the
    /// stream is aborted: what was flushed before stays visible to the
    /// receiver, what was held back is dropped, and no trailers are sent.
    pub fn finish(body: OutgoingBody, result: Result<(), Error>, trailers: Option<Fields>) -> (done:
        Finished)
        ensures
            done@ == body@.finish(result is Ok, trailers_view(trailers)),
    {
        let OutgoingBody { request, status, headers, flushed, buffer, capacity: _ } = body;
        let mut sent = flushed;
        let mut held = buffer;
        match result {
            Ok(()) => {
                sent.append(&mut held);
                Finished { request, status, headers, body: sent, end: End::Complete, trailers }
            },
            Err(_) => Finished { request, status, headers, body: sent, end: End::Aborted, trailers: None },
        }
    }

    /// Aborts the stream of `body` with no further byte written: the same as
    /// [`Finished::finish`] with an error and no trailers.
    pub fn fail(body: OutgoingBody) -> (done: Finished)
        ensures
            done@ == body@.finish(false, None),
    {
        let OutgoingBody { request, status, headers, flushed, buffer: _, capacity: _ } = body;
        Finished { request, status, headers, body: flushed, end: End::Aborted, trailers: None }
    }

    /// The request that the response answered.
    pub fn request(&self) -> (n: u64)
        ensures
            n == self@.request,
    {
        self.request
    }

    /// The status code that the receiver saw.
    pub fn status(&self) -> (s: u16)
        ensures
            s == self@.status,
    {
        self.status
    }

    /// The header fields that the receiver saw.
    pub fn headers(&self) -> (h: &Fields)
        ensures
            h@ == self@.headers,
    {
        &self.headers
    }

    /// The body bytes that the receiver saw.
    pub fn body(&self) -> (bytes: &[u8])
        ensures
            bytes@ == self@.body,
    {
        self.body.as_slice()
    }

    /// How the stream ended.
    pub fn end(&self) -> (e: End)
        ensures
            e == self@.end,
    {
        self.end
    }

    /// Whether the receiver saw a whole response.
    pub fn is_complete(&self) -> (b: bool)
        ensures
            b <==> self@.end == End::Complete,
    {
        self.end == End::Complete
    }

    /// The trailer fields that the receiver saw, if any.
    pub fn trailers(&self) -> (t: &Option<Fields>)
        ensures
            trailers_view(*t) == self@.trailers,
    {
        &self.trailers
    }
}

/// The stream after it accepted each of `chunks` in turn.
pub open spec fn write_each(s: Streaming, chunks: Seq<Seq<u8>>) -> Streaming
    decreases chunks.len(),
{
    if chunks.len() == 0 {
        s
    } else {
        write_each(s.write(chunks.first()), chunks.drop_first())
    }
}

/// Writing and flushing change the body only: the committed head and the
/// capacity stay as they were when the stream was started.
pub proof fn lemma_head_is_committed(s: Streaming, bytes: Seq<u8>)
    ensures
        s.write(bytes).request == s.request,
        s.write(bytes).status == s.status,
        s.write(bytes).headers == s.headers,
        s.write(bytes).capacity == s.capacity,
        s.flush().request == s.request,
        s.flush().status == s.status,
        s.flush().headers == s.headers,
        s.flush().capacity == s.capacity,
{
}

/// A write accepts exactly its bytes, after everything accepted before; a
/// flush accepts nothing and leaves nothing held back.
pub proof fn lemma_write_appends(s: Streaming, bytes: Seq<u8>)
    ensures
        s.write(bytes).written() == s.written() + bytes,
        s.flush().written() == s.written(),
        s.flush().flushed == s.written(),
        s.flush().buffered.len() == 0,
{
    assert(s.write(bytes).written() =~= s.written() + bytes);
    assert(s.flush().written() =~= s.written());
}

/// However a body is cut into chunks, the stream has accepted their
/// concatenation once each chunk was written.
pub proof fn lemma_write_each_appends(s: Streaming, chunks: Seq<Seq<u8>>)
    ensures
        write_each(s, chunks).written() == s.written() + chunks.flatten(),
        write_each(s, chunks).request == s.request,
        write_each(s, chunks).status == s.status,
        write_each(s, chunks).headers == s.headers,
    decreases chunks.len(),
{
    if chunks.len() == 0 {
        assert(s.written() + chunks.flatten() =~= s.written());
    } else {
        lemma_write_appends(s, chunks.first());
        lemma_write_each_appends(s.write(chunks.first()), chunks.drop_first());
        assert(s.written() + chunks.first() + chunks.drop_first().flatten() =~= s.written()
            + chunks.flatten());
    }
}

/// A stream ends in exactly one of two ways, and the result given to
/// `finish` alone decides which: the receiver sees a whole response if and
/// only if the result was a success.
pub proof fn lemma_one_terminal_outcome(
    s: Streaming,
    ok: bool,
    trailers: Option<Seq<(Seq<u8>, Seq<u8>)>>,
)
    ensures
        s.finish(ok, trailers).end == End::Complete <==> ok,
        s.finish(ok, trailers).end == End::Aborted <==> !ok,
        s.finish(ok, trailers).request == s.request,
        s.finish(ok, trailers).status == s.status,
        s.finish(ok, trailers).headers == s.headers,
        ok ==> s.finish(ok, trailers).trailers == trailers,
        !ok ==> s.finish(ok, trailers).trailers is None,
{
}

/// Sending a whole response at once is observed as starting the stream,
/// writing the body in any chunks, and finishing with success and no
/// trailers.
pub proof fn lemma_respond_is_start_write_finish(
    request: u64,
    status: u16,
    headers: Seq<(Seq<u8>, Seq<u8>)>,
    capacity: usize,
    chunks: Seq<Seq<u8>>,
)
    ensures
        Streaming::start(request, status, headers, capacity).write(chunks.flatten()).finish(true, None)
            == write_each(Streaming::start(request, status, headers, capacity), chunks).finish(true, None),
{
    let s = Streaming::start(request, status, headers, capacity);
    lemma_write_each_appends(s, chunks);
    lemma_write_appends(s, chunks.flatten());
}

/// A handler that streams a request body into the response and finishes with
/// success delivers exactly that body, whatever its length, the chunks it
/// arrived in and the capacity of the transport.
pub proof fn lemma_echo_delivers_body(
    request: u64,
    status: u16,
    headers: Seq<(Seq<u8>, Seq<u8>)>,
    capacity: usize,
    chunks: Seq<Seq<u8>>,
    trailers: Option<Seq<(Seq<u8>, Seq<u8>)>>,
)
    ensures
        write_each(Streaming::start(request, status, headers, capacity), chunks).finish(true, trailers).body
            == chunks.flatten(),
        write_each(Streaming::start(request, status, headers, capacity), chunks).finish(true, trailers).end
            == End::Complete,
{
    let s = Streaming::start(request, status, headers, capacity);
    lemma_write_each_appends(s, chunks);
    assert(s.written() + chunks.flatten() =~= chunks.flatten());
}

/// A stream that is failed before any byte was written shows the receiver an
/// aborted transfer with an empty body and no trailers.
pub proof fn lemma_fail_without_bytes(
    request: u64,
    status: u16,
    headers: Seq<(Seq<u8>, Seq<u8>)>,
    capacity: usize,
    trailers: Option<Seq<(Seq<u8>, Seq<u8>)>>,
)
    ensures
        Streaming::start(request, status, headers, capacity).finish(false, trailers).end == End::Aborted,
        Streaming::start(request, status, headers, capacity).finish(false, trailers).body.len() == 0,
        Streaming::start(request, status, headers, capacity).finish(false, trailers).trailers is None,
{
}

/// When a stream is failed, the receiver sees exactly what had been flushed:
/// a front part of what was written, never more. What was flushed explicitly
/// before the failure is all seen.
pub proof fn lemma_abort_shows_flushed_prefix(
    s: Streaming,
    trailers: Option<Seq<(Seq<u8>, Seq<u8>)>>,
)
    ensures
        s.finish(false, trailers).body == s.flushed,
        s.finish(false, trailers).body.is_prefix_of(s.written()),
        s.finish(false, trailers).body.len() <= s.written().len(),
        s.flush().finish(false, trailers).body == s.written(),
{
    assert(s.flushed =~= s.written().take(s.flushed.len() as int));
}

} // verus!
