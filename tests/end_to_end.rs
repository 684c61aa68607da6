use std::collections::HashMap;
use std::io::Read;

use http_core::compress::gzip_str;
use http_core::handlers::{
    echo_response, file_path, post_file_response, read_file_response, root_response,
    user_agent_response,
};
use http_core::router::Router;
use http_core::server::{absorb_chunk, finish, handle_request, Info, Step};

#[derive(Clone, Copy)]
enum Kind {
    Root,
    UserAgent,
    Echo,
    ReadFile,
    PostFile,
}

struct Server {
    router: Router<Kind>,
    info: Info,
    storage: HashMap<String, Vec<u8>>,
}

impl Server {
    fn new() -> Server {
        let mut router = Router::new();
        router
            .route_handlers(&[
                ("GET /", Kind::Root),
                ("GET /user-agent", Kind::UserAgent),
                ("GET /echo/:whatToEcho", Kind::Echo),
                ("GET /files/:filename", Kind::ReadFile),
                ("POST /files/:filename", Kind::PostFile),
            ])
            .unwrap();
        Server { router, info: Info::new("/srv/public".to_string()), storage: HashMap::new() }
    }

    fn serve(&mut self, raw: &[u8]) -> Vec<u8> {
        match handle_request(&self.router, &self.info, raw.to_vec()) {
            Step::Reply(b) => finish(Ok(b)),
            Step::Invoke(i, ri) => {
                let request = ri.request();
                let outcome = match *self.router.route_at(i).handler_fn() {
                    Kind::Root => Ok(root_response()),
                    Kind::UserAgent => Ok(user_agent_response(request)),
                    Kind::Echo => echo_response(request).map_err(|e| format!("{:?}", e)),
                    Kind::ReadFile => {
                        let name = request.params().get("filename").unwrap();
                        let path = file_path(ri.pub_dir(), name);
                        Ok(read_file_response(self.storage.get(&path).cloned()))
                    }
                    Kind::PostFile => {
                        let name = request.params().get("filename").unwrap();
                        let path = file_path(ri.pub_dir(), name);
                        let body = request.body().cloned().unwrap_or_default();
                        self.storage.insert(path, body);
                        Ok(post_file_response(true))
                    }
                };
                finish(outcome)
            }
        }
    }
}

fn split_response(wire: &[u8]) -> (String, Vec<u8>) {
    let pos = wire.windows(4).position(|w| w == b"\r\n\r\n").unwrap();
    (String::from_utf8(wire[..pos].to_vec()).unwrap(), wire[pos + 4..].to_vec())
}

#[test]
fn get_root_is_ok_with_empty_body() {
    let mut s = Server::new();
    let wire = s.serve(b"GET / HTTP/1.1\r\nHost: localhost\r\n\r\n");
    assert_eq!(wire, b"HTTP/1.1 200 OK\r\nContent-Length: 0\r\n\r\n".to_vec());
}

#[test]
fn echo_with_gzip_is_compressed() {
    let mut s = Server::new();
    let wire = s.serve(b"GET /echo/hello%20world HTTP/1.1\r\nAccept-Encoding: gzip\r\n\r\n");
    let (head, body) = split_response(&wire);
    assert!(head.starts_with("HTTP/1.1 200 OK\r\n"));
    assert!(head.contains("\r\nContent-Encoding: gzip"));
    assert!(head.contains("\r\nContent-Type: text/plain"));
    assert!(head.ends_with(&format!("Content-Length: {}", body.len())));
    assert_eq!(body, gzip_str("hello world").unwrap());
    let mut plain = Vec::new();
    flate2::read::GzDecoder::new(&body[..]).read_to_end(&mut plain).unwrap();
    assert_eq!(plain, b"hello world".to_vec());
}

#[test]
fn echo_without_gzip_is_plain() {
    let mut s = Server::new();
    let wire = s.serve(b"GET /echo/abc HTTP/1.1\r\n\r\n");
    assert_eq!(
        wire,
        b"HTTP/1.1 200 OK\r\nContent-Type: text/plain\r\nContent-Length: 3\r\n\r\nabc".to_vec()
    );
}

#[test]
fn missing_file_is_not_found() {
    let mut s = Server::new();
    let wire = s.serve(b"GET /files/missing.txt HTTP/1.1\r\n\r\n");
    assert!(wire.starts_with(b"HTTP/1.1 404 Not Found\r\n"));
}

#[test]
fn posted_file_can_be_read_back() {
    let mut s = Server::new();
    let wire = s.serve(b"POST /files/new.txt HTTP/1.1\r\nContent-Length: 3\r\n\r\nabc");
    assert!(wire.starts_with(b"HTTP/1.1 201 Created\r\n"));
    let wire = s.serve(b"GET /files/new.txt HTTP/1.1\r\n\r\n");
    let (head, body) = split_response(&wire);
    assert!(head.starts_with("HTTP/1.1 200 OK\r\n"));
    assert!(head.contains("Content-Type: application/octet-stream"));
    assert_eq!(body, b"abc".to_vec());
}

#[test]
fn user_agent_is_echoed() {
    let mut s = Server::new();
    let wire = s.serve(b"GET /user-agent HTTP/1.1\r\nUser-Agent: curl/8.0\r\n\r\n");
    let (_, body) = split_response(&wire);
    assert_eq!(body, b"curl/8.0".to_vec());
    let wire = s.serve(b"GET /user-agent HTTP/1.1\r\n\r\n");
    let (_, body) = split_response(&wire);
    assert_eq!(body, b"Unknown".to_vec());
}

#[test]
fn unknown_path_is_404_and_wrong_method_is_405() {
    let mut s = Server::new();
    let wire = s.serve(b"GET /nowhere HTTP/1.1\r\n\r\n");
    assert_eq!(wire, b"HTTP/1.1 404 Not Found\r\nContent-Length: 0\r\n\r\n".to_vec());
    let wire = s.serve(b"DELETE /files/a.txt HTTP/1.1\r\n\r\n");
    assert_eq!(wire, b"HTTP/1.1 405 Method Not Allowed\r\nContent-Length: 0\r\n\r\n".to_vec());
}

#[test]
fn bad_requests_get_error_statuses() {
    let mut s = Server::new();
    let wire = s.serve(b"FETCH / HTTP/1.1\r\n\r\n");
    assert_eq!(wire, b"HTTP/1.1 400 Bad Request\r\nContent-Length: 0\r\n\r\n".to_vec());
    let wire = s.serve(b"GET / HTTP/1.1\r\n");
    assert_eq!(wire, b"HTTP/1.1 400 Bad Request\r\nContent-Length: 0\r\n\r\n".to_vec());
    let wire = s.serve(&[0xc3, 0x28, b'\r', b'\n', b'\r', b'\n']);
    assert_eq!(wire, b"HTTP/1.1 500 Internal Server Error\r\nContent-Length: 0\r\n\r\n".to_vec());
}

#[test]
fn handler_failure_becomes_500_with_message() {
    let wire = finish(Err("disk on fire".to_string()));
    assert_eq!(
        wire,
        b"HTTP/1.1 500 Internal Server Error\r\nContent-Type: text/plain\r\nContent-Length: 12\r\n\r\ndisk on fire"
            .to_vec()
    );
}

#[test]
fn builder_without_status_becomes_fixed_500() {
    let wire = finish(Ok(http_core::response::ResponseBuilder::new().body(b"lost")));
    assert_eq!(wire, b"HTTP/1.1 500 Internal Server Error\r\nContent-Length: 0\r\n\r\n".to_vec());
}

#[test]
fn post_file_failure_explains() {
    let wire = finish(Ok(post_file_response(false)));
    let (head, body) = split_response(&wire);
    assert!(head.starts_with("HTTP/1.1 500 Internal Server Error\r\n"));
    assert_eq!(body, b"Error writing file".to_vec());
}

#[test]
fn file_path_joins_with_slash() {
    assert_eq!(file_path("/srv/public", "a.txt"), "/srv/public/a.txt");
}

#[test]
fn reading_stops_on_short_or_empty_chunk() {
    let mut buffer = Vec::new();
    assert!(!absorb_chunk(&mut buffer, &[1u8; 4], 4));
    assert!(absorb_chunk(&mut buffer, &[2u8; 3], 4));
    assert_eq!(buffer, vec![1, 1, 1, 1, 2, 2, 2]);
    assert!(absorb_chunk(&mut buffer, &[], 4));
    assert_eq!(buffer.len(), 7);
}

#[test]
fn read_file_response_found_and_missing() {
    let r = read_file_response(Some(b"data".to_vec())).build().unwrap();
    assert_eq!(r.code(), 200);
    assert_eq!(r.body().as_slice(), b"data");
    let r = read_file_response(None).build().unwrap();
    assert_eq!(r.code(), 404);
    assert!(r.body().is_empty());
}
