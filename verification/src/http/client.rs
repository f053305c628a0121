//! The client side of an exchange: send a request, wait, take the response.
//!
//! The client performs no I/O. The driver hands the request head to the host
//! and gets back a sink for the request body and a readiness handle for the
//! response. [`Client::send`] streams the body and registers the handle, on
//! which the calling computation suspends; once resumed it asks
//! [`Client::arrived`], and hands what the host delivered to
//! [`Client::receive`].

use crate::error::Error;
use crate::http::body::{Body, StreamedBody};
use crate::http::fields::Fields;
use crate::http::request::Request;
use crate::http::response::Response;
use crate::io::copy::copy;
use crate::io::read::AsyncRead;
use crate::io::write::AsyncWrite;
use crate::runtime::reactor::{EventKey, Reactor, Registration};
use vstd::prelude::*;

verus! {

/// Whether `status` is a status code: a number of three digits.
pub open spec fn valid_status(status: u16) -> bool {
    100 <= status <= 999
}

/// An HTTP client.
#[derive(Debug, Clone, Copy, PartialEq, Eq, Structural)]
pub struct Client;

/// A request that was sent and whose response has not been taken yet.
#[derive(Debug)]
pub struct Exchange {
    key: EventKey,
}

impl Exchange {
    /// The key under which the exchange waits for the response.
    pub closed spec fn spec_key(&self) -> EventKey {
        self.key
    }

    /// The key under which the exchange waits for the response.
    #[verifier::when_used_as_spec(spec_key)]
    pub fn key(&self) -> (k: EventKey)
        ensures
            k == self.spec_key(),
    {
        self.key
    }
}

impl Client {
    /// A client.
    pub fn new() -> (c: Client)
        ensures
            c == Client,
    {
        Client
    }

    /// Sends the body of `request` into `transport`, the sink that the host
    /// gave for it when it took the head of the request, and registers
    /// `handle`, the host's handle for the response, for the computation with
    /// resume slot `waker`.
    ///
    /// If the body cannot be sent whole the error is returned, nothing is
    /// registered, and the transport has accepted some front part of the
    /// body.
    pub fn send<B: Body, W: AsyncWrite>(
        &self,
        request: Request<B>,
        transport: &mut W,
        reactor: &mut Reactor,
        handle: u32,
        waker: u64,
    ) -> (r: Result<Exchange, Error>)
        requires
            old(reactor)@.wf(),
        ensures
            final(reactor)@.wf(),
            final(transport).reliable() == old(transport).reliable(),
            request.spec_body().reliable() && old(transport).reliable() ==> r is Ok,
            match r {
                Ok(exchange) => {
                    &&& final(transport).written() == old(transport).written()
                        + request.spec_body().pending()
                    &&& old(reactor)@.lowest_vacant(exchange.spec_key())
                    &&& final(reactor)@ == old(reactor)@.insert(
                        exchange.spec_key(),
                        Registration { handle, waker, ready: false },
                    )
                },
                Err(_) => {
                    &&& final(reactor)@ == old(reactor)@
                    &&& exists|k: int|
                        0 <= k <= request.spec_body().pending().len()
                            && final(transport).written() == old(transport).written()
                            + #[trigger] request.spec_body().pending().take(k)
                },
            },
    {
        let (_, _, _, mut body) = request.into_parts();
        match copy(&mut body, transport) {
            Err(e) => Err(e),
            Ok(()) => {
                let key = reactor.register(handle, waker);
                Ok(Exchange { key })
            },
        }
    }

    /// Asks, once the computation was resumed, whether the response has
    /// arrived. If it has, the registration of the exchange is consumed.
    pub fn arrived(&self, exchange: &Exchange, reactor: &mut Reactor) -> (came: bool)
        requires
            old(reactor)@.wf(),
        ensures
            came == old(reactor)@.is_ready(exchange.spec_key()),
            final(reactor)@ == if came {
                old(reactor)@.remove(exchange.spec_key())
            } else {
                old(reactor)@
            },
            final(reactor)@.wf(),
    {
        reactor.consume(exchange.key)
    }

    /// Makes the response out of what the host delivered: either its error
    /// code, or the status and the headers; `stream` is the transport's
    /// stream of the response body.
    ///
    /// The body of the response is that stream, of unknown length. The
    /// result is [`Error::Transport`] with the host's code if the host
    /// failed, else [`Error::MalformedStatus`] if the status is no status
    /// code, else [`Error::InvalidHeaderValue`] if a header value holds a
    /// byte that no value may hold, and the response otherwise.
    pub fn receive<S: AsyncRead>(
        &self,
        exchange: Exchange,
        head: Result<(u16, Fields), u32>,
        stream: S,
    ) -> (r: Result<Response<StreamedBody<S>>, Error>)
        ensures
            match head {
                Err(code) => r == Err::<Response<StreamedBody<S>>, Error>(Error::Transport(code)),
                Ok((status, headers)) => if !valid_status(status) {
                    r == Err::<Response<StreamedBody<S>>, Error>(Error::MalformedStatus)
                } else if !crate::http::fields::values_valid(headers@) {
                    r == Err::<Response<StreamedBody<S>>, Error>(Error::InvalidHeaderValue)
                } else {
                    r matches Ok(response) && response.spec_status() == status
                        && response.spec_headers() == headers && response.spec_body().stream()
                        == stream
                },
            },
    {
        let _ = exchange;
        match head {
            Err(code) => Err(Error::Transport(code)),
            Ok((status, headers)) => {
                if status < 100 || status > 999 {
                    Err(Error::MalformedStatus)
                } else if !headers.is_valid() {
                    Err(Error::InvalidHeaderValue)
                } else {
                    Ok(Response::from_parts(status, headers, StreamedBody::new(stream)))
                }
            },
        }
    }
}

} // verus!
