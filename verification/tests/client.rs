use wstd::error::Error;
use wstd::http::body::{Body, IntoBody};
use wstd::http::server::{BodyForthcoming, Finished, Responder};
use wstd::http::{Client, Fields, Method, Request, Response};
use wstd::io::{AsyncRead, AsyncWrite, Cursor};
use wstd::runtime::{Reactor, Registration, Turn};

struct Closed;

impl AsyncWrite for Closed {
    fn write(&mut self, _buf: &[u8]) -> Result<usize, Error> {
        Err(Error::Transport(2))
    }

    fn flush(&mut self) -> Result<(), Error> {
        Err(Error::Transport(2))
    }
}

fn sink() -> wstd::http::server::OutgoingBody {
    Responder::new(1, 0).start_response(Response::new(BodyForthcoming))
}

#[test]
fn a_request_keeps_its_parts() {
    let mut request = Request::new(
        Method::Get,
        String::from("https://postman-echo.com/get"),
        "".into_body(),
    );
    request.headers_mut().insert("my-header", b"my-value");
    assert_eq!(request.method(), Method::Get);
    assert_eq!(request.uri(), "https://postman-echo.com/get");
    assert_eq!(request.headers().get("My-Header"), vec![b"my-value".to_vec()]);
    assert_eq!(request.body().len(), Some(0));
    let mut buf = [0u8; 4];
    assert_eq!(request.body_mut().read(&mut buf), Ok(0));
    let (method, uri, headers, _) = request.into_parts();
    assert_eq!(method, Method::Get);
    assert_eq!(uri, "https://postman-echo.com/get");
    assert_eq!(headers.len(), 1);
}

#[test]
fn a_response_keeps_its_parts() {
    let mut headers = Fields::new();
    headers.append("a", b"b");
    let mut response = Response::from_parts(201, headers, vec![1u8, 2].into_body());
    assert_eq!(response.status(), 201);
    assert_eq!(response.headers().len(), 1);
    assert_eq!(response.body().len(), Some(2));
    let mut buf = [0u8; 1];
    assert_eq!(response.body_mut().read(&mut buf), Ok(1));
    let (status, headers, body) = response.into_parts();
    assert_eq!(status, 201);
    assert_eq!(headers.get("a"), vec![b"b".to_vec()]);
    assert_eq!(body.len(), Some(1));
}

#[test]
fn send_streams_the_body_and_registers_the_response() {
    let client = Client::new();
    let mut reactor = Reactor::new();
    let mut transport = sink();
    let request = Request::new(Method::Post, String::from("/upload"), "payload".into_body());
    let exchange = client.send(request, &mut transport, &mut reactor, 77, 3).unwrap();
    assert_eq!(exchange.key(), 0);
    assert_eq!(transport.flushed(), b"payload");
    assert_eq!(reactor.get(0), Some(Registration { handle: 77, waker: 3, ready: false }));
    assert!(!client.arrived(&exchange, &mut reactor));
    match reactor.turn(false) {
        Turn::Block(handles) => assert_eq!(handles, vec![77u32]),
        _ => panic!("the exchange waits for the host"),
    }
    reactor.notify(&[0]);
    match reactor.turn(false) {
        Turn::Resume(wakers) => assert_eq!(wakers, vec![3u64]),
        _ => panic!("the response resumes the computation"),
    }
    assert!(client.arrived(&exchange, &mut reactor));
    assert!(!reactor.is_registered(0));
    let mut headers = Fields::new();
    headers.append("Content-Type", b"application/json; charset=utf-8");
    let stream = Cursor::new(b"{\"url\":\"x\"}".to_vec());
    let mut response = client.receive(exchange, Ok((200, headers)), stream).unwrap();
    assert_eq!(response.status(), 200);
    assert_eq!(
        response.headers().require("content-type"),
        Ok(b"application/json; charset=utf-8".to_vec())
    );
    assert_eq!(response.headers().require("etag"), Err(Error::MissingHeader));
    assert_eq!(response.body().len(), None);
    let mut seen = Vec::new();
    assert_eq!(response.body_mut().read_to_end(&mut seen), Ok(11));
    assert_eq!(seen, b"{\"url\":\"x\"}");
}

#[test]
fn send_reports_a_transport_that_fails() {
    let client = Client::new();
    let mut reactor = Reactor::new();
    let mut transport = Closed;
    let request = Request::new(Method::Put, String::from("/"), "payload".into_body());
    let result = client.send(request, &mut transport, &mut reactor, 77, 3);
    assert_eq!(result.err(), Some(Error::Transport(2)));
    assert!(!reactor.is_registered(0));
}

#[test]
fn send_of_an_empty_body_needs_no_write() {
    let client = Client::new();
    let mut reactor = Reactor::new();
    let mut transport = Closed;
    let request = Request::new(Method::Get, String::from("/"), "".into_body());
    let exchange = client.send(request, &mut transport, &mut reactor, 5, 6).unwrap();
    assert_eq!(reactor.get(exchange.key()), Some(Registration { handle: 5, waker: 6, ready: false }));
}

fn received(head: Result<(u16, Fields), u32>) -> Result<u16, Error> {
    let client = Client::new();
    let mut reactor = Reactor::new();
    let mut transport = sink();
    let request = Request::new(Method::Get, String::from("/"), "".into_body());
    let exchange = client.send(request, &mut transport, &mut reactor, 1, 1).unwrap();
    let _ = Finished::fail(transport);
    client
        .receive(exchange, head, Cursor::new(Vec::<u8>::new()))
        .map(|response| response.status())
}

#[test]
fn receive_passes_on_the_hosts_error() {
    assert_eq!(received(Err(38)), Err(Error::Transport(38)));
}

#[test]
fn receive_rejects_a_malformed_status() {
    assert_eq!(received(Ok((99, Fields::new()))), Err(Error::MalformedStatus));
    assert_eq!(received(Ok((0, Fields::new()))), Err(Error::MalformedStatus));
    assert_eq!(received(Ok((1000, Fields::new()))), Err(Error::MalformedStatus));
    assert_eq!(received(Ok((100, Fields::new()))), Ok(100));
    assert_eq!(received(Ok((999, Fields::new()))), Ok(999));
    assert_eq!(received(Ok((404, Fields::new()))), Ok(404));
}

#[test]
fn receive_rejects_an_invalid_header_value() {
    let mut headers = Fields::new();
    headers.append("ok", b"fine");
    headers.append("bad", b"line\r\nbreak");
    assert_eq!(received(Ok((200, headers))), Err(Error::InvalidHeaderValue));
    let mut headers = Fields::new();
    headers.append("bad", b"x\0");
    assert_eq!(received(Ok((1000, headers))), Err(Error::MalformedStatus));
}
