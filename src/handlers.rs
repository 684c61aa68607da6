//! The responses of the server's own routes: the root, the user agent echo,
//! the text echo, and the file routes (whose storage lies outside).
use vstd::prelude::*;
use vstd::string::StringSliceAdditionalSpecFns;
use crate::compress::{gzip_of, gzip_response_middleware, wants_gzip};
use crate::request::Request;
use crate::response::{BuilderModel, ResponseBuilder, ResponseError};

verus! {

/// A response with status `code` and `reason`, the header writes `headers`
/// and the body `body`.
pub open spec fn builder_model(
    code: u16,
    reason: Seq<char>,
    headers: Seq<(Seq<char>, Seq<char>)>,
    body: Seq<u8>,
) -> BuilderModel {
    BuilderModel { status: Some((code, reason)), headers, body }
}

/// The plain-text content type.
pub open spec fn plain_text() -> (Seq<char>, Seq<char>) {
    ("Content-Type"@, "text/plain"@)
}

/// The response of `GET /`: 200 with nothing else.
pub fn root_response() -> (r: ResponseBuilder)
    ensures
        r@ == builder_model(200, "OK"@, Seq::empty(), Seq::empty()),
{
    let r = ResponseBuilder::new().status(200, "OK");
    assert(r@.headers =~= Seq::<(Seq<char>, Seq<char>)>::empty());
    assert(r@.body =~= Seq::<u8>::empty());
    r
}

/// The response of `GET /user-agent`: the request's `User-Agent` value, or
/// `Unknown`, as plain text.
pub fn user_agent_response(request: &Request) -> (r: ResponseBuilder)
    ensures
        r@ == builder_model(
            200,
            "OK"@,
            seq![plain_text()],
            if request@.headers.contains_key("User-Agent"@) {
                vstd::utf8::encode_utf8(request@.headers["User-Agent"@])
            } else {
                "Unknown".spec_bytes()
            },
        ),
{
    let r = match request.headers().get("User-Agent") {
        Some(agent) => ResponseBuilder::new().status(200, "OK").header(
            "Content-Type",
            "text/plain",
        ).body(agent.as_str().as_bytes()),
        None => ResponseBuilder::new().status(200, "OK").header(
            "Content-Type",
            "text/plain",
        ).body("Unknown".as_bytes()),
    };
    assert(r@.headers =~= seq![plain_text()]);
    r
}

/// The response of `GET /echo/:whatToEcho`: the decoded parameter as plain
/// text, gzip-compressed when the request accepts it.
pub fn echo_response(request: &Request) -> (r: Result<ResponseBuilder, ResponseError>)
    ensures
        !request@.params.contains_key("whatToEcho"@) ==> r matches Err(
            ResponseError::MissingParameter,
        ),
        request@.params.contains_key("whatToEcho"@) && !wants_gzip(request@.headers) ==> (r matches Ok(
            b,
        ) && b@ == builder_model(
            200,
            "OK"@,
            seq![plain_text()],
            vstd::utf8::encode_utf8(request@.params["whatToEcho"@]),
        )),
        request@.params.contains_key("whatToEcho"@) && wants_gzip(request@.headers) ==> match gzip_of(
            vstd::utf8::encode_utf8(request@.params["whatToEcho"@]),
        ) {
            Some(z) => r matches Ok(b) && b@ == builder_model(
                200,
                "OK"@,
                seq![plain_text(), ("Content-Encoding"@, "gzip"@)],
                z,
            ),
            None => r matches Err(ResponseError::Compression),
        },
{
    let text = match request.params().get("whatToEcho") {
        Some(t) => t,
        None => return Err(ResponseError::MissingParameter),
    };
    let response = ResponseBuilder::new().status(200, "OK").header("Content-Type", "text/plain").body(
        text.as_str().as_bytes(),
    );
    assert(response@.headers =~= seq![plain_text()]);
    assert(response@.headers.push(("Content-Encoding"@, "gzip"@)) =~= seq![
        plain_text(),
        ("Content-Encoding"@, "gzip"@),
    ]);
    gzip_response_middleware(request, response)
}

/// `pub_dir`, a slash, and `filename`.
pub fn file_path(pub_dir: &str, filename: &str) -> (r: String)
    ensures
        r@ == pub_dir@ + seq!['/'] + filename@,
{
    let mut path = String::from_str(pub_dir);
    path.append("/");
    path.append(filename);
    proof {
        reveal_strlit("/");
    }
    path
}

/// The response of `GET /files/:filename`, given what reading the file gave:
/// its bytes (200, as an octet stream), or nothing (404).
pub fn read_file_response(contents: Option<Vec<u8>>) -> (r: ResponseBuilder)
    ensures
        match contents {
            Some(c) => r@ == builder_model(
                200,
                "OK"@,
                seq![("Content-Type"@, "application/octet-stream"@)],
                c@,
            ),
            None => r@ == builder_model(404, "Not Found"@, seq![plain_text()], Seq::empty()),
        },
{
    let r = match contents {
        Some(c) => ResponseBuilder::new().status(200, "OK").header(
            "Content-Type",
            "application/octet-stream",
        ).body(c.as_slice()),
        None => {
            let b = ResponseBuilder::new().status(404, "Not Found").header(
                "Content-Type",
                "text/plain",
            );
            assert(b@.body =~= Seq::<u8>::empty());
            b
        },
    };
    assert(r@.headers =~= seq![r@.headers[0]]);
    r
}

/// The response of `POST /files/:filename`, given whether writing the file
/// succeeded: 201, or 500 with an explanation.
pub fn post_file_response(written: bool) -> (r: ResponseBuilder)
    ensures
        written ==> r@ == builder_model(201, "Created"@, seq![plain_text()], Seq::empty()),
        !written ==> r@ == builder_model(
            500,
            "Internal Server Error"@,
            seq![plain_text()],
            "Error writing file".spec_bytes(),
        ),
{
    let r = if written {
        let b = ResponseBuilder::new().status(201, "Created").header("Content-Type", "text/plain");
        assert(b@.body =~= Seq::<u8>::empty());
        b
    } else {
        ResponseBuilder::new().status(500, "Internal Server Error").header(
            "Content-Type",
            "text/plain",
        ).body("Error writing file".as_bytes())
    };
    assert(r@.headers =~= seq![plain_text()]);
    r
}

} // verus!
