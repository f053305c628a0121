//! An HTTP request: a method, a target, headers and a body.

use crate::http::fields::Fields;
use crate::http::method::Method;
use vstd::prelude::*;

verus! {

/// An HTTP request.
#[derive(Debug)]
pub struct Request<B> {
    method: Method,
    uri: String,
    headers: Fields,
    body: B,
}

impl<B> Request<B> {
    /// The method.
    pub closed spec fn spec_method(&self) -> Method {
        self.method
    }

    /// The target, as it was given.
    pub closed spec fn spec_uri(&self) -> String {
        self.uri
    }

    /// The header fields.
    pub closed spec fn spec_headers(&self) -> Fields {
        self.headers
    }

    /// The body.
    pub closed spec fn spec_body(&self) -> B {
        self.body
    }

    /// A request with no headers.
    pub fn new(method: Method, uri: String, body: B) -> (r: Request<B>)
        ensures
            r.spec_method() == method,
            r.spec_uri() == uri,
            r.spec_headers()@ == Seq::<(Seq<u8>, Seq<u8>)>::empty(),
            r.spec_body() == body,
    {
        Request { method, uri, headers: Fields::new(), body }
    }

    /// The four parts of the request: method, target, headers and body.
    pub fn into_parts(self) -> (parts: (Method, String, Fields, B))
        ensures
            parts.0 == self.spec_method(),
            parts.1 == self.spec_uri(),
            parts.2 == self.spec_headers(),
            parts.3 == self.spec_body(),
    {
        (self.method, self.uri, self.headers, self.body)
    }

    /// The method.
    #[verifier::when_used_as_spec(spec_method)]
    pub fn method(&self) -> (m: Method)
        ensures
            m == self.spec_method(),
    {
        self.method
    }

    /// The target, as it was given.
    pub fn uri(&self) -> (u: &String)
        ensures
            *u == self.spec_uri(),
    {
        &self.uri
    }

    /// The header fields.
    pub fn headers(&self) -> (h: &Fields)
        ensures
            *h == self.spec_headers(),
    {
        &self.headers
    }

    /// The header fields, to change them. The other parts stay.
    pub fn headers_mut(&mut self) -> (h: &mut Fields)
        ensures
            *h == old(self).spec_headers(),
            final(self).spec_headers() == *final(h),
            final(self).spec_method() == old(self).spec_method(),
            final(self).spec_uri() == old(self).spec_uri(),
            final(self).spec_body() == old(self).spec_body(),
    {
        &mut self.headers
    }

    /// The body.
    pub fn body(&self) -> (b: &B)
        ensures
            *b == self.spec_body(),
    {
        &self.body
    }

    /// The body, to read from it. The other parts stay.
    pub fn body_mut(&mut self) -> (b: &mut B)
        ensures
            *b == old(self).spec_body(),
            final(self).spec_body() == *final(b),
            final(self).spec_method() == old(self).spec_method(),
            final(self).spec_uri() == old(self).spec_uri(),
            final(self).spec_headers() == old(self).spec_headers(),
    {
        &mut self.body
    }
}

} // verus!
