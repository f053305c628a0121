//! HTTP bodies: byte streams that may know their length.

use crate::error::Error;
use crate::io::cursor::{AsBytes, Cursor};
use crate::io::read::AsyncRead;
use vstd::prelude::*;
use vstd::string::StringSliceAdditionalSpecFns;

verus! {

/// A byte stream that may know how many bytes it still holds.
pub trait Body: AsyncRead {
    /// The number of bytes still to be read, where the body knows it. A
    /// body that does not say so does not know.
    open spec fn spec_len(&self) -> Option<usize> {
        None
    }

    /// The exact number of bytes that the reads still to come produce, if it
    /// is known: no more and no fewer will come.
    fn len(&self) -> (n: Option<usize>)
        ensures
            n == self.spec_len(),
            n matches Some(k) ==> k == self.pending().len(),
    ;

    /// Whether the body is known to hold no bytes.
    fn is_empty(&self) -> (b: bool)
        ensures
            b <==> self.spec_len() == Some(0usize),
    {
        matches!(self.len(), Some(0))
    }
}

/// Conversion into a [`Body`].
pub trait IntoBody: Sized {
    /// The body that the conversion gives.
    type IntoBody: Body;

    /// The bytes that the body will produce. A value that does not say so
    /// leaves them open.
    open spec fn content(&self) -> Seq<u8> {
        arbitrary()
    }

    /// Converts into a body that produces exactly `content()`.
    fn into_body(self) -> (body: Self::IntoBody)
        ensures
            body.pending() == self.content(),
    ;
}

impl<T: Body> IntoBody for T {
    type IntoBody = T;

    open spec fn content(&self) -> Seq<u8> {
        self.pending()
    }

    /// A body is its own conversion.
    fn into_body(self) -> (body: T)
        ensures
            body == self,
    {
        self
    }
}

/// A body whose bytes are all in memory, so that its length is known.
///
/// Reads never wait. Each hands out the front of what is left; at the end of
/// the buffer every further read returns 0.
#[derive(Debug)]
pub struct BoundedBody<T>(Cursor<T>);

impl<T: AsBytes> BoundedBody<T> {
    /// The cursor over the buffer.
    pub closed spec fn cursor(&self) -> Cursor<T> {
        self.0
    }

    /// The bytes of the buffer that have not been read yet.
    pub open spec fn remaining(&self) -> Seq<u8> {
        self.cursor().remaining()
    }

    /// All bytes of the buffer, read or not.
    pub open spec fn bytes(&self) -> Seq<u8> {
        self.cursor().spec_get_ref().bytes()
    }

    /// The number of bytes read so far.
    pub open spec fn consumed(&self) -> nat {
        (self.bytes().len() - self.remaining().len()) as nat
    }
}

impl<T: AsBytes> AsyncRead for BoundedBody<T> {
    open spec fn pending(&self) -> Seq<u8> {
        self.remaining()
    }

    open spec fn reliable(&self) -> bool {
        true
    }

    /// Copies `min(remaining, buf.len())` bytes into the front of `buf`.
    /// Never fails and never waits.
    fn read(&mut self, buf: &mut [u8]) -> (r: Result<usize, Error>)
        ensures
            r matches Ok(n) && n == read_count(old(self).remaining().len(), old(buf)@.len()),
            final(self).bytes() == old(self).bytes(),
            final(self).remaining().len() == old(self).remaining().len() - read_count(
                old(self).remaining().len(),
                old(buf)@.len(),
            ),
    {
        let r = self.0.read(buf);
        proof {
            let n = r->Ok_0 as int;
            assert(self.0.pending() == old(self).0.pending().skip(n));
            assert(self.remaining() == old(self).remaining().skip(n));
            assert(self.reliable() && old(self).reliable());
        }
        r
    }
}

impl<T: AsBytes> Body for BoundedBody<T> {
    open spec fn spec_len(&self) -> Option<usize> {
        Some(self.remaining().len() as usize)
    }

    /// The number of bytes not read yet: always known.
    fn len(&self) -> (n: Option<usize>) {
        let total = self.0.get_ref().byte_slice().len();
        let pos = self.0.position();
        if pos < total as u64 {
            Some(total - pos as usize)
        } else {
            Some(0)
        }
    }
}

impl IntoBody for Vec<u8> {
    type IntoBody = BoundedBody<Vec<u8>>;

    open spec fn content(&self) -> Seq<u8> {
        self@
    }

    /// The body holds the vector itself; nothing is copied.
    fn into_body(self) -> (body: BoundedBody<Vec<u8>>)
        ensures
            body.bytes() == self@,
            body.spec_len() == Some(self@.len() as usize),
    {
        BoundedBody(Cursor::new(self))
    }
}

impl<'a> IntoBody for &'a [u8] {
    type IntoBody = BoundedBody<Vec<u8>>;

    open spec fn content(&self) -> Seq<u8> {
        self@
    }

    /// The body holds a copy of the slice.
    fn into_body(self) -> (body: BoundedBody<Vec<u8>>)
        ensures
            body.bytes() == self@,
            body.spec_len() == Some(self@.len() as usize),
    {
        BoundedBody(Cursor::new(vstd::slice::slice_to_vec(self)))
    }
}

impl IntoBody for String {
    type IntoBody = BoundedBody<Vec<u8>>;

    open spec fn content(&self) -> Seq<u8> {
        vstd::utf8::encode_utf8(self@)
    }

    /// The body holds the UTF-8 encoding of the string.
    fn into_body(self) -> (body: BoundedBody<Vec<u8>>)
        ensures
            body.bytes() == self.content(),
            body.spec_len() == Some(self.content().len() as usize),
    {
        BoundedBody(Cursor::new(vstd::slice::slice_to_vec(self.as_str().as_bytes())))
    }
}

impl<'a> IntoBody for &'a str {
    type IntoBody = BoundedBody<Vec<u8>>;

    open spec fn content(&self) -> Seq<u8> {
        self.spec_bytes()
    }

    /// The body holds the UTF-8 encoding of the string.
    fn into_body(self) -> (body: BoundedBody<Vec<u8>>)
        ensures
            body.bytes() == self.content(),
            body.spec_len() == Some(self.content().len() as usize),
    {
        BoundedBody(Cursor::new(vstd::slice::slice_to_vec(self.as_bytes())))
    }
}

/// A stream taken as a body of unknown length.
#[derive(Debug)]
pub struct StreamedBody<S>(S);

impl<S: AsyncRead> StreamedBody<S> {
    /// The stream behind the body.
    pub closed spec fn stream(&self) -> S {
        self.0
    }

    /// Takes `stream` as a body.
    pub fn new(stream: S) -> (body: StreamedBody<S>)
        ensures
            body.stream() == stream,
    {
        StreamedBody(stream)
    }

    /// Gives the stream back.
    pub fn into_inner(self) -> (stream: S)
        ensures
            stream == self.stream(),
    {
        self.0
    }
}

impl<S: AsyncRead> AsyncRead for StreamedBody<S> {
    open spec fn pending(&self) -> Seq<u8> {
        self.stream().pending()
    }

    open spec fn reliable(&self) -> bool {
        self.stream().reliable()
    }

    /// Reads from the stream behind the body.
    fn read(&mut self, buf: &mut [u8]) -> (r: Result<usize, Error>) {
        self.0.read(buf)
    }
}

impl<S: AsyncRead> Body for StreamedBody<S> {
    open spec fn spec_len(&self) -> Option<usize> {
        None
    }

    /// Unknown: the stream does not tell how much it holds.
    fn len(&self) -> (n: Option<usize>) {
        None
    }
}

/// The number of bytes that a read for `requested` bytes returns from a body
/// in memory that has `remaining` bytes left.
pub open spec fn read_count(remaining: nat, requested: nat) -> nat {
    if remaining <= requested {
        remaining
    } else {
        requested
    }
}

/// The numbers of bytes that successive reads return from a body in memory
/// that has `remaining` bytes left, where the reads ask for the numbers of
/// bytes in `requests`.
pub open spec fn read_counts(remaining: nat, requests: Seq<nat>) -> Seq<nat>
    decreases requests.len(),
{
    if requests.len() == 0 {
        Seq::empty()
    } else {
        let n = read_count(remaining, requests.first());
        seq![n] + read_counts((remaining - n) as nat, requests.drop_first())
    }
}

/// The sum of `counts`.
pub open spec fn total(counts: Seq<nat>) -> nat
    decreases counts.len(),
{
    if counts.len() == 0 {
        0
    } else {
        counts.first() + total(counts.drop_first())
    }
}

/// Whatever the reads of a body of `n` bytes ask for, together they return
/// as many bytes as were asked for, but never more than `n`; and exactly `n`
/// once at least `n` were asked for.
pub proof fn lemma_reads_sum_to_length(n: nat, requests: Seq<nat>)
    ensures
        read_counts(n, requests).len() == requests.len(),
        total(read_counts(n, requests)) == read_count(n, total(requests)),
        total(read_counts(n, requests)) <= n,
        total(requests) >= n ==> total(read_counts(n, requests)) == n,
    decreases requests.len(),
{
    if requests.len() > 0 {
        let first = read_count(n, requests.first());
        let rest = read_counts((n - first) as nat, requests.drop_first());
        lemma_reads_sum_to_length((n - first) as nat, requests.drop_first());
        let all = seq![first] + rest;
        assert(all.first() == first);
        assert(all.drop_first() =~= rest);
    }
}

/// Once a body is exhausted every further read returns 0, whatever it asks
/// for.
pub proof fn lemma_exhausted_reads_return_zero(requests: Seq<nat>, i: int)
    requires
        0 <= i < requests.len(),
    ensures
        read_counts(0, requests).len() == requests.len(),
        read_counts(0, requests)[i] == 0,
    decreases requests.len(),
{
    lemma_reads_sum_to_length(0, requests);
    if i > 0 {
        lemma_exhausted_reads_return_zero(requests.drop_first(), i - 1);
        lemma_reads_sum_to_length(0, requests.drop_first());
    }
}

} // verus!
