use http_core::request::{HTTPError, HTTPMethod, Request, RequestLine};
use http_core::server::read_request;

fn chars(s: &str) -> Vec<char> {
    s.chars().collect()
}

#[test]
fn request_line_round_trips_every_method() {
    let cases = [
        ("GET", HTTPMethod::GET),
        ("POST", HTTPMethod::POST),
        ("PUT", HTTPMethod::PUT),
        ("PATCH", HTTPMethod::PATCH),
        ("DELETE", HTTPMethod::DELETE),
        ("HEAD", HTTPMethod::HEAD),
        ("OPTIONS", HTTPMethod::OPTIONS),
        ("CONNECT", HTTPMethod::CONNECT),
        ("TRACE", HTTPMethod::TRACE),
    ];
    for (name, method) in cases {
        let text = format!("{} /a/b%20c?x=1 HTTP/1.1", name);
        let line = RequestLine::parse_request_line(&chars(&text)).unwrap();
        assert_eq!(*line.method(), method);
        assert_eq!(line.path(), "/a/b%20c?x=1");
        assert_eq!(line.version(), "HTTP/1.1");
    }
}

#[test]
fn request_line_with_extra_whitespace_still_has_three_tokens() {
    let line = RequestLine::parse_request_line(&chars("  GET\t/index.html   HTTP/1.0 ")).unwrap();
    assert_eq!(*line.method(), HTTPMethod::GET);
    assert_eq!(line.path(), "/index.html");
    assert_eq!(line.version(), "HTTP/1.0");
}

#[test]
fn lowercase_method_is_illegal() {
    let r = RequestLine::parse_request_line(&chars("get / HTTP/1.1"));
    assert!(matches!(r, Err(HTTPError::IllegalMethod)));
}

#[test]
fn unknown_method_is_illegal() {
    let r = Request::parse_request("BREW /pot HTTP/1.1\r\n\r\n");
    assert!(matches!(r, Err(HTTPError::IllegalMethod)));
}

#[test]
fn request_line_with_two_tokens_is_malformed() {
    let r = Request::parse_request("GET /\r\n\r\n");
    assert!(matches!(r, Err(HTTPError::Malformed)));
}

#[test]
fn request_line_with_four_tokens_is_malformed() {
    let r = Request::parse_request("GET / HTTP/1.1 extra\r\n\r\n");
    assert!(matches!(r, Err(HTTPError::Malformed)));
}

#[test]
fn missing_blank_line_is_malformed() {
    for text in ["", "GET / HTTP/1.1", "GET / HTTP/1.1\r\nHost: a\r\n", "GET / HTTP/1.1\n\n"] {
        let r = Request::parse_request(text);
        assert!(matches!(r, Err(HTTPError::Malformed)), "{:?}", text);
    }
}

#[test]
fn header_line_without_separator_is_malformed() {
    let r = Request::parse_request("GET / HTTP/1.1\r\nHost:example\r\n\r\n");
    assert!(matches!(r, Err(HTTPError::Malformed)));
}

#[test]
fn headers_are_parsed_and_the_last_write_wins() {
    let q = Request::parse_request(
        "GET / HTTP/1.1\r\nHost: localhost\r\nX-Tag: one\r\nX-Tag: two\r\nNote: a: b\r\n\r\n",
    )
    .unwrap();
    assert_eq!(q.headers().get("Host").unwrap(), "localhost");
    assert_eq!(q.headers().get("X-Tag").unwrap(), "two");
    assert_eq!(q.headers().get("Note").unwrap(), "a: b");
    assert!(q.headers().get("host").is_none());
    assert!(q.body().is_none());
    assert!(q.params().get("anything").is_none());
}

#[test]
fn body_keeps_everything_after_the_first_blank_line() {
    let q = Request::parse_request("POST /files/x HTTP/1.1\r\nContent-Length: 9\r\n\r\nab\r\n\r\ncd!").unwrap();
    assert_eq!(*q.method(), HTTPMethod::POST);
    assert_eq!(q.body().unwrap().as_slice(), b"ab\r\n\r\ncd!");
}

#[test]
fn non_ascii_body_is_kept_as_its_bytes() {
    let q = Request::parse_request("POST / HTTP/1.1\r\n\r\nhé").unwrap();
    assert_eq!(q.body().unwrap().as_slice(), "hé".as_bytes());
}

#[test]
fn invalid_utf8_is_an_encoding_error() {
    let r = read_request(vec![b'G', b'E', b'T', b' ', 0xff, b'\r', b'\n', b'\r', b'\n']);
    assert!(matches!(r, Err(HTTPError::Encoding)));
}

#[test]
fn bytes_without_blank_line_are_malformed() {
    let r = read_request(b"GET / HTTP/1.1\r\nHost: a".to_vec());
    assert!(matches!(r, Err(HTTPError::Malformed)));
}

#[test]
fn valid_bytes_parse() {
    let q = read_request(b"GET /echo/hi HTTP/1.1\r\nUser-Agent: t\r\n\r\n".to_vec()).unwrap();
    assert_eq!(q.request_line().path(), "/echo/hi");
    assert_eq!(q.headers().get("User-Agent").unwrap(), "t");
}

#[test]
fn parse_method_names() {
    assert_eq!(HTTPMethod::parse_method("DELETE").unwrap(), HTTPMethod::DELETE);
    assert!(matches!(HTTPMethod::parse_method("Delete"), Err(HTTPError::IllegalMethod)));
    assert!(matches!(HTTPMethod::parse_method(""), Err(HTTPError::IllegalMethod)));
}
