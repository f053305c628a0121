//! An HTTP response: a status, headers and a body.

use crate::http::fields::Fields;
use vstd::prelude::*;

verus! {

/// The status of a response that sets none: 200.
pub const STATUS_OK: u16 = 200;

/// An HTTP response.
#[derive(Debug)]
pub struct Response<B> {
    status: u16,
    headers: Fields,
    body: B,
}

impl<B> Response<B> {
    /// The status code.
    pub closed spec fn spec_status(&self) -> u16 {
        self.status
    }

    /// The header fields.
    pub closed spec fn spec_headers(&self) -> Fields {
        self.headers
    }

    /// The body.
    pub closed spec fn spec_body(&self) -> B {
        self.body
    }

    /// A response with status 200, no headers and the given body.
    pub fn new(body: B) -> (r: Response<B>)
        ensures
            r.spec_status() == STATUS_OK,
            r.spec_headers()@ == Seq::<(Seq<u8>, Seq<u8>)>::empty(),
            r.spec_body() == body,
    {
        Response { status: STATUS_OK, headers: Fields::new(), body }
    }

    /// A response made of the three parts.
    pub fn from_parts(status: u16, headers: Fields, body: B) -> (r: Response<B>)
        ensures
            r.spec_status() == status,
            r.spec_headers() == headers,
            r.spec_body() == body,
    {
        Response { status, headers, body }
    }

    /// The three parts of the response: status, headers and body.
    pub fn into_parts(self) -> (parts: (u16, Fields, B))
        ensures
            parts.0 == self.spec_status(),
            parts.1 == self.spec_headers(),
            parts.2 == self.spec_body(),
    {
        (self.status, self.headers, self.body)
    }

    /// The status code.
    #[verifier::when_used_as_spec(spec_status)]
    pub fn status(&self) -> (s: u16)
        ensures
            s == self.spec_status(),
    {
        self.status
    }

    /// Sets the status code. Headers and body stay.
    pub fn set_status(&mut self, status: u16)
        ensures
            final(self).spec_status() == status,
            final(self).spec_headers() == old(self).spec_headers(),
            final(self).spec_body() == old(self).spec_body(),
    {
        self.status = status;
    }

    /// The header fields.
    pub fn headers(&self) -> (h: &Fields)
        ensures
            *h == self.spec_headers(),
    {
        &self.headers
    }

    /// The header fields, to change them. Status and body stay.
    pub fn headers_mut(&mut self) -> (h: &mut Fields)
        ensures
            *h == old(self).spec_headers(),
            final(self).spec_headers() == *final(h),
            final(self).spec_status() == old(self).spec_status(),
            final(self).spec_body() == old(self).spec_body(),
    {
        &mut self.headers
    }

    /// The body.
    pub fn body(&self) -> (b: &B)
        ensures
            *b == self.spec_body(),
    {
        &self.body
    }

    /// The body, to read from it. Status and headers stay.
    pub fn body_mut(&mut self) -> (b: &mut B)
        ensures
            *b == old(self).spec_body(),
            final(self).spec_body() == *final(b),
            final(self).spec_status() == old(self).spec_status(),
            final(self).spec_headers() == old(self).spec_headers(),
    {
        &mut self.body
    }
}

} // verus!
