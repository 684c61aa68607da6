//! What a connection decides: when a read completes the request, how the
//! bytes become a request, which route handles it or which error status
//! answers it, and the bytes of the final response.
use vstd::prelude::*;
use vstd::string::StringSliceAdditionalSpecFns;
use vstd::utf8::{decode_utf8, decode_utf8_encode_utf8, encode_scalar, encode_utf8, valid_utf8};
use crate::request::{
    blank_line, lemma_no_blank_line_malformed, request_of, HTTPError, Request, RequestModel,
};
use crate::response::{wire_of, BuilderModel, ResponseBuilder, ResponseModel};
use crate::router::{params_of, resolve, slash, Resolution, Router};
use crate::text::{occurs_at, split};

verus! {

/// What the server knows of its setup: the public directory.
pub struct Info {
    pub_dir: String,
}

impl Info {
    /// The setup with public directory `pub_dir`.
    pub fn new(pub_dir: String) -> (r: Info)
        ensures
            r.pub_dir_view() == pub_dir@,
    {
        Info { pub_dir }
    }

    /// The public directory.
    pub closed spec fn pub_dir_view(&self) -> Seq<char> {
        self.pub_dir@
    }

    /// The public directory.
    pub fn pub_dir(&self) -> (r: &str)
        ensures
            r@ == self.pub_dir_view(),
    {
        self.pub_dir.as_str()
    }

    /// A second value of the same setup.
    pub fn duplicate(&self) -> (r: Info)
        ensures
            r.pub_dir_view() == self.pub_dir_view(),
    {
        Info { pub_dir: self.pub_dir.clone() }
    }
}

/// What a route handler receives: the routed request and the setup.
pub struct RequestInfo {
    request: Request,
    server_info: Info,
}

impl RequestInfo {
    /// Pairs a routed request with the setup.
    pub fn new(request: Request, server_info: Info) -> (r: RequestInfo)
        ensures
            r.request_view() == request@,
            r.pub_dir_view() == server_info.pub_dir_view(),
    {
        RequestInfo { request, server_info }
    }

    /// The request.
    pub closed spec fn request_view(&self) -> RequestModel {
        self.request@
    }

    /// The public directory.
    pub closed spec fn pub_dir_view(&self) -> Seq<char> {
        self.server_info.pub_dir_view()
    }

    /// The request.
    pub fn request(&self) -> (r: &Request)
        ensures
            r@ == self.request_view(),
    {
        &self.request
    }

    /// The public directory.
    pub fn pub_dir(&self) -> (r: &str)
        ensures
            r@ == self.pub_dir_view(),
    {
        self.server_info.pub_dir()
    }
}

/// Appends a chunk just read to `buffer` and says whether the request is
/// complete: the read gave nothing, or less than a full chunk.
pub fn absorb_chunk(buffer: &mut Vec<u8>, chunk: &[u8], chunk_size: usize) -> (done: bool)
    ensures
        final(buffer)@ == old(buffer)@ + chunk@,
        done == (chunk@.len() == 0 || chunk@.len() < chunk_size),
{
    let ghost start = buffer@;
    let mut i: usize = 0;
    while i < chunk.len()
        invariant
            i <= chunk@.len(),
            buffer@ == start + chunk@.subrange(0, i as int),
        decreases chunk@.len() - i,
    {
        buffer.push(chunk[i]);
        i = i + 1;
        assert(buffer@ =~= start + chunk@.subrange(0, i as int));
    }
    assert(chunk@.subrange(0, chunk@.len() as int) =~= chunk@);
    chunk.len() == 0 || chunk.len() < chunk_size
}

/// Relies on std's `String::from_utf8`: it succeeds exactly on valid UTF-8,
/// and the text then holds the characters that the bytes encode.
#[verifier::external_body]
fn utf8_text(bytes: Vec<u8>) -> (r: Option<String>)
    ensures
        r is Some <==> valid_utf8(bytes@),
        r matches Some(s) ==> s@ == decode_utf8(bytes@),
{
    String::from_utf8(bytes).ok()
}

/// The request that the bytes `b` hold, or why there is none.
pub open spec fn bytes_request_of(b: Seq<u8>) -> Result<RequestModel, HTTPError> {
    if valid_utf8(b) {
        request_of(decode_utf8(b))
    } else {
        Err(HTTPError::Encoding)
    }
}

/// Decodes and parses the bytes received on a connection.
pub fn read_request(buffer: Vec<u8>) -> (r: Result<Request, HTTPError>)
    ensures
        r matches Ok(q) ==> bytes_request_of(buffer@) == Ok::<RequestModel, HTTPError>(q@),
        r matches Err(e) ==> bytes_request_of(buffer@) == Err::<RequestModel, HTTPError>(e),
{
    match utf8_text(buffer) {
        Some(text) => Request::parse_request(text.as_str()),
        None => Err(HTTPError::Encoding),
    }
}

/// The status that answers a request that could not be read or parsed.
pub open spec fn error_status(e: HTTPError) -> (u16, Seq<char>) {
    match e {
        HTTPError::IllegalMethod | HTTPError::Malformed => (400, "Bad Request"@),
        HTTPError::IoError | HTTPError::Encoding => (500, "Internal Server Error"@),
    }
}

/// A response with status `s`, no header fields and an empty body.
pub open spec fn bare(s: (u16, Seq<char>)) -> BuilderModel {
    BuilderModel { status: Some(s), headers: Seq::empty(), body: Seq::empty() }
}

/// The response to a request that could not be read or parsed: 400 for a
/// bad method or structure, 500 for a failed read or non-UTF-8 bytes.
pub fn error_response(e: &HTTPError) -> (r: ResponseBuilder)
    ensures
        r@ == bare(error_status(*e)),
{
    let r = match e {
        HTTPError::IllegalMethod | HTTPError::Malformed => ResponseBuilder::new().status(
            400,
            "Bad Request",
        ),
        HTTPError::IoError | HTTPError::Encoding => ResponseBuilder::new().status(
            500,
            "Internal Server Error",
        ),
    };
    assert(r@.headers =~= Seq::<(Seq<char>, Seq<char>)>::empty());
    assert(r@.body =~= Seq::<u8>::empty());
    r
}

/// What a connection does next with the request it received.
pub enum Step {
    /// Call the handler of this route with this request.
    Invoke(usize, RequestInfo),
    /// Answer with this response.
    Reply(ResponseBuilder),
}

/// Decides what answers the bytes `buffer` received on a connection: an
/// error response when they are not a request, 404 when no route's template
/// matches the path, 405 when none of those is for the request's method,
/// and otherwise the first matching route, with its parameters attached.
pub fn handle_request<H>(router: &Router<H>, info: &Info, buffer: Vec<u8>) -> (r: Step)
    ensures
        match bytes_request_of(buffer@) {
            Err(e) => r matches Step::Reply(b) && b@ == bare(error_status(e)),
            Ok(q) => match resolve(router@, q.line.method, q.line.path) {
                Resolution::Handler(i) => r matches Step::Invoke(k, ri) && k == i
                    && ri.request_view() == (RequestModel {
                    params: params_of(router@[i].segments, split(q.line.path, slash())),
                    ..q
                }) && ri.pub_dir_view() == info.pub_dir_view(),
                Resolution::NotFound => r matches Step::Reply(b) && b@ == bare(
                    (404, "Not Found"@),
                ),
                Resolution::NotAllowed => r matches Step::Reply(b) && b@ == bare(
                    (405, "Method Not Allowed"@),
                ),
            },
        },
{
    let mut request = match read_request(buffer) {
        Ok(q) => q,
        Err(e) => return Step::Reply(error_response(&e)),
    };
    match router.route_request(&mut request) {
        Ok(i) => Step::Invoke(i, RequestInfo::new(request, info.duplicate())),
        Err(code) => {
            let b = if code == 404 {
                ResponseBuilder::new().status(404, "Not Found")
            } else {
                ResponseBuilder::new().status(405, "Method Not Allowed")
            };
            assert(b@.headers =~= Seq::<(Seq<char>, Seq<char>)>::empty());
            assert(b@.body =~= Seq::<u8>::empty());
            Step::Reply(b)
        },
    }
}

/// The response to a handler that failed with `message`: 500 with the
/// message as a plain-text body.
pub open spec fn failure_model(message: Seq<char>) -> ResponseModel {
    ResponseModel {
        code: 500,
        reason: "Internal Server Error"@,
        headers: seq![("Content-Type"@, "text/plain"@)],
        body: vstd::utf8::encode_utf8(message),
    }
}

/// The fixed response that stands in for a builder without a status.
pub open spec fn fallback_model() -> ResponseModel {
    ResponseModel {
        code: 500,
        reason: "Internal Server Error"@,
        headers: Seq::empty(),
        body: Seq::empty(),
    }
}

/// The response that a builder freezes into, or the fixed 500 when it has
/// no status.
pub open spec fn frozen(b: BuilderModel) -> ResponseModel {
    match b.status {
        Some(s) => ResponseModel { code: s.0, reason: s.1, headers: b.headers, body: b.body },
        None => fallback_model(),
    }
}

/// The bytes to write for the outcome of a handler: its response, or, when
/// it failed, a 500 that explains the failure.
pub fn finish(outcome: Result<ResponseBuilder, String>) -> (r: Vec<u8>)
    ensures
        match outcome {
            Ok(b) => r@ == wire_of(frozen(b@)),
            Err(m) => r@ == wire_of(failure_model(m@)),
        },
{
    let ghost expected = if outcome is Ok {
        frozen(outcome->Ok_0@)
    } else {
        failure_model(outcome->Err_0@)
    };
    let builder = match outcome {
        Ok(b) => b,
        Err(message) => {
            let b = ResponseBuilder::new().status(500, "Internal Server Error").header(
                "Content-Type",
                "text/plain",
            ).body(message.as_str().as_bytes());
            assert(b@.headers =~= seq![("Content-Type"@, "text/plain"@)]);
            b
        },
    };
    assert(frozen(builder@) == expected);
    match builder.build() {
        Ok(response) => response.as_bytes(),
        Err(_) => {
            let fallback = ResponseBuilder::new().status(500, "Internal Server Error");
            match fallback.build() {
                Ok(response) => {
                    assert(response@.headers =~= Seq::<(Seq<char>, Seq<char>)>::empty());
                    assert(response@.body =~= Seq::<u8>::empty());
                    response.as_bytes()
                },
                Err(_) => Vec::new(),
            }
        },
    }
}

/// Encoding text piecewise gives the bytes of the whole.
pub proof fn lemma_encode_concat(a: Seq<char>, b: Seq<char>)
    ensures
        encode_utf8(a + b) == encode_utf8(a) + encode_utf8(b),
    decreases a.len(),
{
    if a.len() == 0 {
        assert(a + b =~= b);
        assert(encode_utf8(a) + encode_utf8(b) =~= encode_utf8(b));
    } else {
        assert((a + b).drop_first() =~= a.drop_first() + b);
        assert((a + b)[0] == a[0]);
        lemma_encode_concat(a.drop_first(), b);
        assert(encode_scalar(a[0] as u32) + (encode_utf8(a.drop_first()) + encode_utf8(b))
            =~= (encode_scalar(a[0] as u32) + encode_utf8(a.drop_first())) + encode_utf8(b));
    }
}

/// The blank line that ends a head, in bytes.
pub open spec fn blank_line_bytes() -> Seq<u8> {
    seq![13u8, 10u8, 13u8, 10u8]
}

/// The blank line is encoded byte for byte.
proof fn lemma_blank_line_bytes()
    ensures
        encode_utf8(blank_line()) == blank_line_bytes(),
{
    assert((13u32 & 0x7Fu32) == 13u32) by (bit_vector);
    assert((10u32 & 0x7Fu32) == 10u32) by (bit_vector);
    let s = blank_line();
    assert(s.drop_first() =~= seq!['\n', '\r', '\n']);
    assert(s.drop_first().drop_first() =~= seq!['\r', '\n']);
    assert(s.drop_first().drop_first().drop_first() =~= seq!['\n']);
    assert(s.drop_first().drop_first().drop_first().drop_first() =~= Seq::<char>::empty());
    reveal_with_fuel(encode_utf8, 5);
    assert(encode_utf8(blank_line()) =~= blank_line_bytes());
}

/// Bytes that never hold CR LF CR LF are no request: they are malformed
/// when they are UTF-8 text, and an encoding error otherwise.
pub proof fn lemma_no_blank_line_bytes(b: Seq<u8>)
    requires
        forall|i: int| 0 <= i && i + 4 <= b.len() ==> #[trigger] b.subrange(i, i + 4) != blank_line_bytes(),
    ensures
        bytes_request_of(b) == Err::<RequestModel, HTTPError>(
            if valid_utf8(b) {
                HTTPError::Malformed
            } else {
                HTTPError::Encoding
            },
        ),
{
    if valid_utf8(b) {
        let s = decode_utf8(b);
        assert forall|i: int| !occurs_at(s, blank_line(), i) by {
            if occurs_at(s, blank_line(), i) {
                let x = s.subrange(0, i);
                let y = s.subrange(i + 4, s.len() as int);
                assert(s =~= x + blank_line() + y);
                lemma_encode_concat(x, blank_line());
                lemma_encode_concat(x + blank_line(), y);
                lemma_blank_line_bytes();
                decode_utf8_encode_utf8(b);
                let k = encode_utf8(x).len() as int;
                assert(b.subrange(k, k + 4) =~= blank_line_bytes());
            }
        }
        lemma_no_blank_line_malformed(s);
    }
}

} // verus!
