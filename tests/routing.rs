use http_core::request::{HTTPMethod, Request};
use http_core::router::{Route, RouteError, RouteHandler, RouteMatch, Router};

fn table() -> Router<u32> {
    let mut r = Router::new();
    r.route_handlers(&[
        ("GET /", 0),
        ("GET /echo/:whatToEcho", 1),
        ("GET /files/:filename", 2),
        ("POST /files/:filename", 3),
        ("GET /a/:x/b/:y", 4),
        ("GET /files/special", 5),
    ])
    .unwrap();
    r
}

fn found(m: RouteMatch) -> (usize, http_core::str_map::StrMap) {
    match m {
        RouteMatch::Found(i, p) => (i, p),
        RouteMatch::NoMatch => panic!("no match"),
        RouteMatch::MethodNotAllowed => panic!("method not allowed"),
    }
}

#[test]
fn capture_extracts_segment() {
    let r = table();
    let (i, p) = found(r.route(HTTPMethod::GET, "/echo/abc"));
    assert_eq!(i, 1);
    assert_eq!(*r.route_at(i).handler_fn(), 1);
    assert_eq!(p.get("whatToEcho").unwrap(), "abc");
}

#[test]
fn capture_decodes_only_escaped_spaces() {
    let r = table();
    let (_, p) = found(r.route(HTTPMethod::GET, "/echo/hello%20world%2Fx%41%2"));
    assert_eq!(p.get("whatToEcho").unwrap(), "hello world%2Fx%41%2");
    let (_, p) = found(r.route(HTTPMethod::GET, "/echo/%20%20"));
    assert_eq!(p.get("whatToEcho").unwrap(), "  ");
}

#[test]
fn several_captures() {
    let r = table();
    let (i, p) = found(r.route(HTTPMethod::GET, "/a/one/b/two"));
    assert_eq!(i, 4);
    assert_eq!(p.get("x").unwrap(), "one");
    assert_eq!(p.get("y").unwrap(), "two");
}

#[test]
fn first_registered_route_wins() {
    let r = table();
    let (i, p) = found(r.route(HTTPMethod::GET, "/files/special"));
    assert_eq!(i, 2);
    assert_eq!(p.get("filename").unwrap(), "special");
}

#[test]
fn method_selects_among_same_template() {
    let r = table();
    let (i, _) = found(r.route(HTTPMethod::POST, "/files/a.txt"));
    assert_eq!(i, 3);
}

#[test]
fn unregistered_method_is_not_allowed() {
    let r = table();
    assert!(matches!(r.route(HTTPMethod::DELETE, "/files/a.txt"), RouteMatch::MethodNotAllowed));
    assert!(matches!(r.route(HTTPMethod::PUT, "/"), RouteMatch::MethodNotAllowed));
}

#[test]
fn unregistered_path_is_not_found() {
    let r = table();
    assert!(matches!(r.route(HTTPMethod::GET, "/nothing/here"), RouteMatch::NoMatch));
    assert!(matches!(r.route(HTTPMethod::GET, "/files/a/b"), RouteMatch::NoMatch));
    assert!(matches!(r.route(HTTPMethod::GET, "/echo/"), RouteMatch::NoMatch));
    assert!(matches!(r.route(HTTPMethod::GET, "/echo"), RouteMatch::NoMatch));
    assert!(matches!(r.route(HTTPMethod::GET, ""), RouteMatch::NoMatch));
}

#[test]
fn literal_segments_match_literally() {
    let mut r: Router<u32> = Router::new();
    r.add_route_handler("GET /a.txt", 7).unwrap();
    assert!(matches!(r.route(HTTPMethod::GET, "/abtxt"), RouteMatch::NoMatch));
    assert!(matches!(r.route(HTTPMethod::GET, "/a.txt"), RouteMatch::Found(0, _)));
}

#[test]
fn route_request_attaches_params() {
    let r = table();
    let mut q = Request::parse_request("GET /echo/x%20y HTTP/1.1\r\n\r\n").unwrap();
    assert_eq!(r.route_request(&mut q).unwrap(), 1);
    assert_eq!(q.params().get("whatToEcho").unwrap(), "x y");
    let mut q = Request::parse_request("GET /missing HTTP/1.1\r\n\r\n").unwrap();
    assert_eq!(r.route_request(&mut q).unwrap_err(), 404);
    let mut q = Request::parse_request("PATCH /echo/x HTTP/1.1\r\n\r\n").unwrap();
    assert_eq!(r.route_request(&mut q).unwrap_err(), 405);
}

#[test]
fn bad_definitions_are_refused() {
    let mut r: Router<u32> = Router::new();
    assert!(matches!(r.add_route_handler("FETCH /x", 1), Err(RouteError::InvalidMethod)));
    assert!(matches!(r.add_route_handler("GET", 1), Err(RouteError::Malformed)));
    assert_eq!(r.len(), 0);
    let res = r.route_handlers(&[("GET /a", 1), ("get /b", 2), ("GET /c", 3)]);
    assert!(matches!(res, Err(RouteError::InvalidMethod)));
    assert_eq!(r.len(), 1);
}

#[test]
fn route_handler_pattern_and_method() {
    let h = RouteHandler::new(9u32, HTTPMethod::PUT, "/x/:id");
    assert_eq!(h.method(), HTTPMethod::PUT);
    assert_eq!(*h.handler_fn(), 9);
    let segs: Vec<String> = h.pattern().iter().map(|s| s.iter().collect()).collect();
    assert_eq!(segs, vec!["".to_string(), "x".to_string(), ":id".to_string()]);
}

#[test]
fn route_lists_its_params() {
    let mut route = Route::new("/users/:id/posts/:post");
    assert_eq!(route.path(), "/users/:id/posts/:post");
    assert_eq!(route.params().get("id").unwrap(), "");
    assert_eq!(route.params().get("post").unwrap(), "");
    assert!(route.params().get("users").is_none());
    route.add_param("id", "42");
    assert_eq!(route.params().get("id").unwrap(), "42");
}
