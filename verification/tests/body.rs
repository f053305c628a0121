use wstd::http::body::{Body, IntoBody, StreamedBody};
use wstd::io::{AsyncRead, Cursor};

#[test]
fn bounded_body_reports_its_length() {
    let body = vec![1u8, 2, 3, 4, 5].into_body();
    assert_eq!(body.len(), Some(5));
    assert!(!body.is_empty());
}

#[test]
fn bounded_body_reads_min_of_remaining_and_requested() {
    let mut body = "hello world".into_body();
    let mut buf = [0u8; 4];
    assert_eq!(body.read(&mut buf), Ok(4));
    assert_eq!(&buf, b"hell");
    assert_eq!(body.len(), Some(7));
    assert_eq!(body.read(&mut buf), Ok(4));
    assert_eq!(&buf, b"o wo");
    assert_eq!(body.read(&mut buf), Ok(3));
    assert_eq!(&buf[..3], b"rld");
    assert_eq!(buf[3], b'o');
    assert_eq!(body.len(), Some(0));
    assert!(body.is_empty());
    assert_eq!(body.read(&mut buf), Ok(0));
    assert_eq!(body.read(&mut buf), Ok(0));
}

#[test]
fn bounded_body_reads_sum_to_its_length() {
    let data: Vec<u8> = (0..=255u8).cycle().take(2500).collect();
    let mut body = data.clone().into_body();
    assert_eq!(body.len(), Some(2500));
    let mut seen: Vec<u8> = Vec::new();
    let mut sum = 0usize;
    for size in [1usize, 7, 0, 1000, 3, 2000, 5, 5] {
        let mut buf = vec![0u8; size];
        let n = body.read(&mut buf).unwrap();
        assert!(n <= size);
        seen.extend_from_slice(&buf[..n]);
        sum += n;
        assert_eq!(body.len(), Some(2500 - sum));
    }
    assert_eq!(sum, 2500);
    assert_eq!(seen, data);
    let mut buf = [0u8; 16];
    for _ in 0..5 {
        assert_eq!(body.read(&mut buf), Ok(0));
    }
}

#[test]
fn empty_body_is_empty_and_ends_at_once() {
    let mut body = Vec::<u8>::new().into_body();
    assert_eq!(body.len(), Some(0));
    assert!(body.is_empty());
    let mut buf = [9u8; 4];
    assert_eq!(body.read(&mut buf), Ok(0));
    assert_eq!(buf, [9u8; 4]);
}

#[test]
fn read_into_empty_buffer_takes_nothing() {
    let mut body = vec![1u8, 2, 3].into_body();
    let mut buf = [0u8; 0];
    assert_eq!(body.read(&mut buf), Ok(0));
    assert_eq!(body.len(), Some(3));
}

#[test]
fn conversions_into_body_keep_the_bytes() {
    let from_vec = vec![104u8, 105].into_body();
    let from_slice = (&[104u8, 105][..]).into_body();
    let from_str = "hi".into_body();
    let from_string = String::from("hi").into_body();
    for mut body in [from_vec, from_slice, from_str, from_string] {
        assert_eq!(body.len(), Some(2));
        let mut out = Vec::new();
        assert_eq!(body.read_to_end(&mut out), Ok(2));
        assert_eq!(out, b"hi");
    }
}

#[test]
fn string_body_holds_utf8_encoding() {
    let mut body = "h\u{e9}".into_body();
    assert_eq!(body.len(), Some(3));
    let mut out = Vec::new();
    assert_eq!(body.read_to_end(&mut out), Ok(3));
    assert_eq!(out, vec![0x68, 0xc3, 0xa9]);
}

#[test]
fn a_body_converts_into_itself() {
    let mut body = vec![1u8, 2, 3].into_body();
    let mut first = [0u8; 1];
    assert_eq!(body.read(&mut first), Ok(1));
    let mut same = body.into_body();
    assert_eq!(same.len(), Some(2));
    let mut rest = Vec::new();
    assert_eq!(same.read_to_end(&mut rest), Ok(2));
    assert_eq!(rest, vec![2u8, 3]);
}

#[test]
fn streamed_body_has_unknown_length() {
    let mut body = StreamedBody::new(Cursor::new(vec![1u8, 2, 3]));
    assert_eq!(body.len(), None);
    assert!(!body.is_empty());
    let mut buf = [0u8; 2];
    assert_eq!(body.read(&mut buf), Ok(2));
    assert_eq!(buf, [1, 2]);
    assert_eq!(body.len(), None);
    let cursor = body.into_inner();
    assert_eq!(cursor.position(), 2);
}

#[test]
fn streamed_body_over_nothing_is_not_known_empty() {
    let mut body = StreamedBody::new(Cursor::new(Vec::<u8>::new()));
    assert_eq!(body.len(), None);
    assert!(!body.is_empty());
    let mut buf = [0u8; 2];
    assert_eq!(body.read(&mut buf), Ok(0));
}
