use wstd::error::Error;
use wstd::http::body::{IntoBody, StreamedBody};
use wstd::http::server::{BodyForthcoming, End, Finished, Responder};
use wstd::http::{Fields, Response};
use wstd::io::{copy, AsyncRead, AsyncWrite};
use wstd::runtime::{Reactor, Turn};

const LINE: &[u8] = b"big big big big\n";

struct Broken {
    good: Vec<u8>,
    at: usize,
}

impl AsyncRead for Broken {
    fn read(&mut self, buf: &mut [u8]) -> Result<usize, Error> {
        if buf.is_empty() {
            return Ok(0);
        }
        if self.at == self.good.len() {
            return Err(Error::Transport(11));
        }
        let n = buf.len().min(self.good.len() - self.at);
        buf[..n].copy_from_slice(&self.good[self.at..self.at + n]);
        self.at += n;
        Ok(n)
    }
}

#[test]
fn respond_sends_head_and_whole_body() {
    let mut response = Response::new("Hello, wasi:http/proxy world!\n".into_body());
    response.headers_mut().append("Content-Type", b"text/plain");
    let done = Responder::new(1, 16).respond(response);
    assert_eq!(done.status(), 200);
    assert_eq!(done.headers().get("content-type"), vec![b"text/plain".to_vec()]);
    assert_eq!(done.body(), b"Hello, wasi:http/proxy world!\n");
    assert_eq!(done.end(), End::Complete);
    assert!(done.is_complete());
    assert!(done.trailers().is_none());
}

#[test]
fn respond_with_an_empty_body_is_complete() {
    let mut response = Response::new(Vec::<u8>::new().into_body());
    response.set_status(204);
    let done = Responder::new(1, 1024).respond(response);
    assert_eq!(done.status(), 204);
    assert_eq!(done.body(), b"");
    assert!(done.is_complete());
}

#[test]
fn respond_with_a_long_body_sends_every_byte() {
    let data: Vec<u8> = (0..10_000u32).map(|i| (i % 249) as u8).collect();
    for capacity in [0usize, 1, 1000, 1024, 4096, usize::MAX] {
        let done = Responder::new(1, capacity).respond(Response::new(data.clone().into_body()));
        assert_eq!(done.body(), &data[..]);
        assert!(done.is_complete());
    }
}

#[test]
fn respond_is_start_write_finish() {
    let data = b"one whole response".to_vec();
    let at_once = Responder::new(1, 8).respond(Response::new(data.clone().into_body()));
    let mut body = Responder::new(1, 8).start_response(Response::new(BodyForthcoming));
    body.write_all(&data).unwrap();
    let in_steps = Finished::finish(body, Ok(()), None);
    assert_eq!(at_once.status(), in_steps.status());
    assert_eq!(at_once.body(), in_steps.body());
    assert_eq!(at_once.end(), in_steps.end());
    assert_eq!(at_once.trailers().is_none(), in_steps.trailers().is_none());
}

#[test]
fn respond_aborts_when_the_body_breaks() {
    let source = Broken { good: b"partial".to_vec(), at: 0 };
    let done = Responder::new(1, 0).respond(Response::new(StreamedBody::new(source)));
    assert_eq!(done.end(), End::Aborted);
    assert!(!done.is_complete());
    assert_eq!(done.body(), b"partial");
    assert!(done.trailers().is_none());
}

#[test]
fn respond_aborts_and_drops_what_was_held_back() {
    let source = Broken { good: b"partial".to_vec(), at: 0 };
    let done = Responder::new(1, 100).respond(Response::new(StreamedBody::new(source)));
    assert_eq!(done.end(), End::Aborted);
    assert_eq!(done.body(), b"");
}

#[test]
fn start_response_commits_the_head() {
    let mut response = Response::new(BodyForthcoming);
    response.set_status(404);
    response.headers_mut().append("X-Reason", b"gone");
    assert_eq!(response.status(), 404);
    let body = Responder::new(1, 32).start_response(response);
    assert_eq!(body.flushed(), b"");
    assert_eq!(body.buffered_len(), 0);
    let done = Finished::finish(body, Ok(()), None);
    assert_eq!(done.status(), 404);
    assert_eq!(done.headers().len(), 1);
    assert_eq!(done.headers().get("x-reason"), vec![b"gone".to_vec()]);
    assert_eq!(done.body(), b"");
    assert!(done.is_complete());
}

#[test]
fn writes_are_held_back_up_to_the_capacity() {
    let mut body = Responder::new(1, 8).start_response(Response::new(BodyForthcoming));
    assert_eq!(body.write(b"12345"), Ok(5));
    assert_eq!(body.flushed(), b"");
    assert_eq!(body.buffered_len(), 5);
    assert_eq!(body.write(b"678"), Ok(3));
    assert_eq!(body.flushed(), b"");
    assert_eq!(body.buffered_len(), 8);
    assert_eq!(body.write(b"9"), Ok(1));
    assert_eq!(body.flushed(), b"123456789");
    assert_eq!(body.buffered_len(), 0);
    assert_eq!(body.write(b"ab"), Ok(2));
    assert_eq!(body.flushed(), b"123456789");
    assert_eq!(body.flush(), Ok(()));
    assert_eq!(body.flushed(), b"123456789ab");
    assert_eq!(body.buffered_len(), 0);
}

#[test]
fn finish_with_success_flushes_and_attaches_trailers() {
    let mut body = Responder::new(1, 1024).start_response(Response::new(BodyForthcoming));
    body.write_all(b"held back").unwrap();
    assert_eq!(body.flushed(), b"");
    let mut trailers = Fields::new();
    trailers.append("Checksum", b"abc123");
    let done = Finished::finish(body, Ok(()), Some(trailers));
    assert_eq!(done.body(), b"held back");
    assert_eq!(done.end(), End::Complete);
    let seen = done.trailers().as_ref().unwrap();
    assert_eq!(seen.get("checksum"), vec![b"abc123".to_vec()]);
}

#[test]
fn finish_with_failure_keeps_flushed_bytes_and_sends_no_trailers() {
    let mut body = Responder::new(1, 1024).start_response(Response::new(BodyForthcoming));
    body.write_all(b"sent;").unwrap();
    body.flush().unwrap();
    body.write_all(b"held back").unwrap();
    let mut trailers = Fields::new();
    trailers.append("Checksum", b"abc123");
    let done = Finished::finish(body, Err(Error::Application(5)), Some(trailers));
    assert_eq!(done.body(), b"sent;");
    assert_eq!(done.end(), End::Aborted);
    assert!(done.trailers().is_none());
    assert_eq!(done.status(), 200);
}

#[test]
fn echo_returns_the_request_body() {
    let bodies: Vec<Vec<u8>> = vec![
        Vec::new(),
        b"x".to_vec(),
        b"hello, echo".to_vec(),
        (0..1024u32).map(|i| i as u8).collect(),
        (0..1025u32).map(|i| i as u8).collect(),
        (0..70_000u32).map(|i| (i % 255) as u8).collect(),
    ];
    for sent in bodies {
        for capacity in [0usize, 7, 4096] {
            let mut request_body = StreamedBody::new(sent.clone().into_body());
            let mut body = Responder::new(1, capacity).start_response(Response::new(BodyForthcoming));
            let result = copy(&mut request_body, &mut body);
            assert_eq!(result, Ok(()));
            let done = Finished::finish(body, result, None);
            assert_eq!(done.body(), &sent[..]);
            assert_eq!(done.end(), End::Complete);
            assert_eq!(done.status(), 200);
        }
    }
}

#[test]
fn echo_of_a_broken_request_is_aborted() {
    let mut request_body = Broken { good: b"front".to_vec(), at: 0 };
    let mut body = Responder::new(1, 0).start_response(Response::new(BodyForthcoming));
    let result = copy(&mut request_body, &mut body);
    assert_eq!(result, Err(Error::Transport(11)));
    let done = Finished::finish(body, result, None);
    assert_eq!(done.end(), End::Aborted);
    assert_eq!(done.body(), b"front");
}

#[test]
fn wait_sleeps_then_reports_the_time() {
    let nanos: u64 = 1_000_000_000;
    let started: u64 = 5_000;
    let mut reactor = Reactor::new();
    let timer = reactor.register(42, 0);
    match reactor.turn(false) {
        Turn::Block(handles) => assert_eq!(handles, vec![42u32]),
        _ => panic!("the sleep must block"),
    }
    let now = started + nanos + 250_000;
    reactor.notify(&[0]);
    match reactor.turn(false) {
        Turn::Resume(wakers) => assert_eq!(wakers, vec![0u64]),
        _ => panic!("the timer must resume the handler"),
    }
    assert!(reactor.consume(timer));
    let elapsed = (now - started) / 1_000_000;
    assert!(elapsed >= 1000);
    let mut body = Responder::new(1, 64).start_response(Response::new(BodyForthcoming));
    let result = body.write_all(format!("slept for {} millis\n", elapsed).as_bytes());
    let done = Finished::finish(body, result, None);
    assert_eq!(done.body(), b"slept for 1000 millis\n");
    assert_eq!(done.end(), End::Complete);
    assert!(matches!(reactor.turn(true), Turn::Return));
}

#[test]
fn fail_without_bytes_shows_an_aborted_transfer() {
    for capacity in [0usize, 16, usize::MAX] {
        let body = Responder::new(1, capacity).start_response(Response::new(BodyForthcoming));
        let done = Finished::fail(body);
        assert_eq!(done.end(), End::Aborted);
        assert!(!done.is_complete());
        assert_eq!(done.body(), b"");
        assert!(done.trailers().is_none());
        assert_eq!(done.status(), 200);
    }
}

#[test]
fn fail_is_finish_with_an_error() {
    let mut a = Responder::new(1, 4).start_response(Response::new(BodyForthcoming));
    let mut b = Responder::new(1, 4).start_response(Response::new(BodyForthcoming));
    a.write_all(b"123456").unwrap();
    b.write_all(b"123456").unwrap();
    a.write_all(b"78").unwrap();
    b.write_all(b"78").unwrap();
    let failed = Finished::fail(a);
    let finished = Finished::finish(b, Err(Error::Transport(1)), None);
    assert_eq!(failed.body(), finished.body());
    assert_eq!(failed.body(), b"123456");
    assert_eq!(failed.end(), finished.end());
    assert_eq!(failed.status(), finished.status());
}

#[test]
fn bigfail_with_a_flush_shows_every_line() {
    let mut body = Responder::new(1, 4096).start_response(Response::new(BodyForthcoming));
    for _ in 0..0x10 {
        body.write_all(LINE).unwrap();
    }
    body.flush().unwrap();
    let done = Finished::fail(body);
    assert_eq!(done.end(), End::Aborted);
    assert_eq!(done.body().len(), 16 * LINE.len());
    assert_eq!(done.body(), LINE.repeat(16).as_slice());
}

#[test]
fn bigfail_without_a_flush_shows_a_front_part_only() {
    let written = LINE.repeat(16);
    for capacity in [0usize, 10, 16, 40, 100, 255, 256, 10_000] {
        let mut body = Responder::new(1, capacity).start_response(Response::new(BodyForthcoming));
        let mut flushed_before = 0usize;
        for _ in 0..0x10 {
            body.write_all(LINE).unwrap();
            flushed_before = body.flushed().len();
        }
        let done = Finished::fail(body);
        assert_eq!(done.end(), End::Aborted);
        assert!(done.body().len() <= written.len());
        assert_eq!(done.body().len(), flushed_before);
        assert_eq!(done.body(), &written[..done.body().len()]);
    }
    let mut held = Responder::new(1, 10_000).start_response(Response::new(BodyForthcoming));
    for _ in 0..0x10 {
        held.write_all(LINE).unwrap();
    }
    assert_eq!(Finished::fail(held).body(), b"");
    let mut through = Responder::new(1, 0).start_response(Response::new(BodyForthcoming));
    for _ in 0..0x10 {
        through.write_all(LINE).unwrap();
    }
    assert_eq!(Finished::fail(through).body(), written.as_slice());
}

#[test]
fn finished_names_the_request_it_answers() {
    let whole = Responder::new(7, 16).respond(Response::new("x".into_body()));
    assert_eq!(whole.request(), 7);
    let body = Responder::new(8, 16).start_response(Response::new(BodyForthcoming));
    assert_eq!(Finished::finish(body, Ok(()), None).request(), 8);
    let body = Responder::new(9, 16).start_response(Response::new(BodyForthcoming));
    assert_eq!(Finished::finish(body, Err(Error::Application(1)), None).request(), 9);
    let body = Responder::new(u64::MAX, 16).start_response(Response::new(BodyForthcoming));
    assert_eq!(Finished::fail(body).request(), u64::MAX);
}
