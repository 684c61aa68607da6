use std::io::Read;

use http_core::compress::{accepts_gzip_exec, gzip_response_middleware, gzip_str};
use http_core::request::Request;
use http_core::response::{ResponseBuilder, ResponseError, Status};
use http_core::str_map::StrMap;

fn gunzip(bytes: &[u8]) -> Vec<u8> {
    let mut out = Vec::new();
    flate2::read::GzDecoder::new(bytes).read_to_end(&mut out).unwrap();
    out
}

#[test]
fn status_line_headers_length_and_body() {
    let r = ResponseBuilder::new()
        .status(200, "OK")
        .header("Content-Type", "text/plain")
        .body(b"hello")
        .build()
        .unwrap();
    assert_eq!(
        r.as_bytes(),
        b"HTTP/1.1 200 OK\r\nContent-Type: text/plain\r\nContent-Length: 5\r\n\r\nhello".to_vec()
    );
}

#[test]
fn empty_body_has_length_zero() {
    let r = ResponseBuilder::new().status(200, "OK").build().unwrap();
    assert_eq!(r.as_bytes(), b"HTTP/1.1 200 OK\r\nContent-Length: 0\r\n\r\n".to_vec());
}

#[test]
fn length_counts_bytes_not_characters() {
    let body = "héllo wörld, this body is longer than ten bytes".as_bytes();
    let r = ResponseBuilder::new().status(201, "Created").body(body).build().unwrap();
    let expected = format!("HTTP/1.1 201 Created\r\nContent-Length: {}\r\n\r\n", body.len());
    let mut expected = expected.into_bytes();
    expected.extend_from_slice(body);
    assert_eq!(r.as_bytes(), expected);
}

#[test]
fn user_supplied_length_is_replaced_by_the_computed_one() {
    let r = ResponseBuilder::new()
        .status(200, "OK")
        .header("Content-Length", "999")
        .body(b"abc")
        .build()
        .unwrap();
    assert_eq!(r.as_bytes(), b"HTTP/1.1 200 OK\r\nContent-Length: 3\r\n\r\nabc".to_vec());
}

#[test]
fn later_header_write_wins_on_the_wire() {
    let r = ResponseBuilder::new()
        .status(404, "Not Found")
        .header("X-A", "1")
        .header("X-B", "2")
        .header("X-A", "3")
        .build()
        .unwrap();
    assert_eq!(
        r.as_bytes(),
        b"HTTP/1.1 404 Not Found\r\nX-B: 2\r\nX-A: 3\r\nContent-Length: 0\r\n\r\n".to_vec()
    );
}

#[test]
fn headers_replace_all_earlier_fields() {
    let b = ResponseBuilder::new()
        .status(200, "OK")
        .header("Old", "x")
        .headers(&[("A", "1"), ("B", "2")]);
    let r = b.build().unwrap();
    assert!(r.headers().get("Old").is_none());
    assert_eq!(r.headers().get("A").unwrap(), "1");
    assert_eq!(r.code(), 200);
}

#[test]
fn building_without_status_fails() {
    let r = ResponseBuilder::new().body(b"x").build();
    assert!(matches!(r, Err(ResponseError::MissingStatus)));
    let d: ResponseBuilder = Default::default();
    assert!(matches!(d.build(), Err(ResponseError::MissingStatus)));
}

#[test]
fn get_body_returns_the_body() {
    let b = ResponseBuilder::new().body(b"xyz");
    assert_eq!(b.get_body().as_slice(), b"xyz");
}

#[test]
fn status_new_keeps_code_and_reason() {
    let s = Status::new(418, "I'm a teapot");
    let r = ResponseBuilder::new().status(418, "I'm a teapot").build().unwrap();
    assert_eq!(r.code(), 418);
    let _ = s;
    assert!(r.as_bytes().starts_with(b"HTTP/1.1 418 I'm a teapot\r\n"));
}

#[test]
fn gzip_str_compresses() {
    let z = gzip_str("hello world").unwrap();
    assert_ne!(z, b"hello world".to_vec());
    assert_eq!(&z[..2], &[0x1f, 0x8b]);
    assert_eq!(gunzip(&z), b"hello world".to_vec());
}

#[test]
fn accept_encoding_tokens() {
    assert!(accepts_gzip_exec("gzip"));
    assert!(accepts_gzip_exec("deflate, gzip"));
    assert!(accepts_gzip_exec(" br ,  gzip  ,deflate"));
    assert!(!accepts_gzip_exec("gzipped"));
    assert!(!accepts_gzip_exec("x-gzip"));
    assert!(!accepts_gzip_exec(""));
    assert!(!accepts_gzip_exec("GZIP"));
}

#[test]
fn middleware_compresses_when_accepted() {
    let q = Request::parse_request("GET / HTTP/1.1\r\nAccept-Encoding: deflate, gzip\r\n\r\n").unwrap();
    let b = ResponseBuilder::new().status(200, "OK").body(b"some text");
    let b = gzip_response_middleware(&q, b).unwrap();
    assert_eq!(gunzip(b.get_body()), b"some text".to_vec());
    let expected_body = gzip_str("some text").unwrap();
    assert_eq!(b.get_body(), &expected_body);
    let r = b.build().unwrap();
    assert_eq!(r.headers().get("Content-Encoding").unwrap(), "gzip");
    let wire = r.as_bytes();
    let length_line = format!("Content-Length: {}\r\n\r\n", expected_body.len());
    let mut tail = length_line.into_bytes();
    tail.extend_from_slice(&expected_body);
    assert!(wire.ends_with(&tail));
}

#[test]
fn middleware_leaves_response_alone_otherwise() {
    let q = Request::parse_request("GET / HTTP/1.1\r\nAccept-Encoding: br\r\n\r\n").unwrap();
    let b = gzip_response_middleware(&q, ResponseBuilder::new().status(200, "OK").body(b"t")).unwrap();
    assert_eq!(b.get_body().as_slice(), b"t");
    let q = Request::parse_request("GET / HTTP/1.1\r\n\r\n").unwrap();
    let b = gzip_response_middleware(&q, ResponseBuilder::new().status(200, "OK").body(b"t")).unwrap();
    let r = b.build().unwrap();
    assert!(r.headers().get("Content-Encoding").is_none());
    assert_eq!(r.body().as_slice(), b"t");
}

#[test]
fn str_map_last_write_wins() {
    let mut m = StrMap::new();
    assert!(!m.contains_key("a"));
    m.insert("a".to_string(), "1".to_string());
    m.insert("b".to_string(), "2".to_string());
    m.insert("a".to_string(), "3".to_string());
    assert_eq!(m.get("a").unwrap(), "3");
    assert_eq!(m.get("b").unwrap(), "2");
    assert!(m.contains_key("b"));
    assert_eq!(m.write_count(), 3);
    assert!(!m.is_last_write(0));
    assert!(m.is_last_write(2));
}
