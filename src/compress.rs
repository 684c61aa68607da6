//! Gzip compression of response bodies, applied when the client accepts it.
use std::io::Write;
use vstd::prelude::*;
use vstd::string::StringSliceAdditionalSpecFns;
use crate::request::Request;
use crate::response::{BuilderModel, ResponseBuilder, ResponseError};
use crate::text::{chars_of, is_white, is_white_exec, same_chars, split, split_exec, views};

verus! {

/// What compressing `data` with flate2 gives: the gzip stream, or `None`
/// when the encoder reports a failure.
pub uninterp spec fn gzip_of(data: Seq<u8>) -> Option<Seq<u8>>;

/// Relies on flate2's `write::GzEncoder` at the default level with the
/// default header (no name, mtime 0, OS byte 255), writing into a `Vec`:
/// the outcome, stream or failure, depends on `data` alone.
#[verifier::external_body]
fn gzip_bytes(data: &[u8]) -> (r: Option<Vec<u8>>)
    ensures
        gzip_of(data@) == match r {
            Some(z) => Some(z@),
            None => None::<Seq<u8>>,
        },
{
    let mut encoder = flate2::write::GzEncoder::new(Vec::new(), flate2::Compression::default());
    match encoder.write_all(data) {
        Ok(()) => encoder.finish().ok(),
        Err(_) => None,
    }
}

/// The gzip stream of the bytes of `string`, or `None` when compression fails.
pub fn gzip_str(string: &str) -> (r: Option<Vec<u8>>)
    ensures
        gzip_of(string.spec_bytes()) == match r {
            Some(z) => Some(z@),
            None => None::<Seq<u8>>,
        },
{
    gzip_bytes(string.as_bytes())
}

/// `s` without its leading whitespace.
pub open spec fn trim_front(s: Seq<char>) -> Seq<char>
    decreases s.len(),
{
    if s.len() > 0 && is_white(s[0]) {
        trim_front(s.drop_first())
    } else {
        s
    }
}

/// `s` without its trailing whitespace.
pub open spec fn trim_back(s: Seq<char>) -> Seq<char>
    decreases s.len(),
{
    if s.len() > 0 && is_white(s.last()) {
        trim_back(s.drop_last())
    } else {
        s
    }
}

/// `s` without leading and trailing whitespace (the semantics of `str::trim`).
pub open spec fn trim(s: Seq<char>) -> Seq<char> {
    trim_back(trim_front(s))
}

/// Whether an `Accept-Encoding` value lists `gzip` among its
/// comma-separated, trimmed tokens.
pub open spec fn accepts_gzip(value: Seq<char>) -> bool {
    exists|k: int|
        0 <= k < split(value, seq![',']).len() && trim(#[trigger] split(value, seq![','])[k])
            == "gzip"@
}

/// Whether the request `headers` ask for gzip.
pub open spec fn wants_gzip(headers: Map<Seq<char>, Seq<char>>) -> bool {
    headers.contains_key("Accept-Encoding"@) && accepts_gzip(headers["Accept-Encoding"@])
}

/// `s` without leading and trailing whitespace.
pub fn trim_exec(s: &Vec<char>) -> (r: Vec<char>)
    ensures
        r@ == trim(s@),
{
    let mut a: usize = 0;
    assert(s@.subrange(0, s.len() as int) =~= s@);
    while a < s.len() && is_white_exec(s[a])
        invariant
            a <= s.len(),
            trim_front(s@) == trim_front(s@.subrange(a as int, s.len() as int)),
        decreases s.len() - a,
    {
        let ghost t = s@.subrange(a as int, s.len() as int);
        assert(t.drop_first() =~= s@.subrange(a + 1, s.len() as int));
        a = a + 1;
    }
    let ghost front = s@.subrange(a as int, s.len() as int);
    assert(trim_front(s@) == front);
    let mut b: usize = s.len();
    while b > a && is_white_exec(s[b - 1])
        invariant
            a <= b <= s.len(),
            trim(s@) == trim_back(s@.subrange(a as int, b as int)),
        decreases b - a,
    {
        let ghost t = s@.subrange(a as int, b as int);
        assert(t.drop_last() =~= s@.subrange(a as int, b - 1));
        b = b - 1;
    }
    crate::text::copy_range(s, a, b)
}

/// Adds the gzip encoding to `response`, given the outcome of compressing
/// its body: the compressed bytes become the body, or the failure is reported.
pub fn apply_gzip(response: ResponseBuilder, compressed: Option<Vec<u8>>) -> (r: Result<
    ResponseBuilder,
    ResponseError,
>)
    ensures
        match compressed {
            Some(z) => r matches Ok(b) && b@ == (BuilderModel {
                headers: response@.headers.push(("Content-Encoding"@, "gzip"@)),
                body: z@,
                ..response@
            }),
            None => r matches Err(ResponseError::Compression),
        },
{
    match compressed {
        Some(z) => Ok(response.header("Content-Encoding", "gzip").body(z.as_slice())),
        None => Err(ResponseError::Compression),
    }
}

/// Whether an `Accept-Encoding` value lists `gzip`.
pub fn accepts_gzip_exec(value: &str) -> (r: bool)
    ensures
        r == accepts_gzip(value@),
{
    let cs = chars_of(value);
    let mut comma: Vec<char> = Vec::new();
    comma.push(',');
    assert(comma@ =~= seq![',']);
    let parts = split_exec(&cs, &comma);
    let gzip = chars_of("gzip");
    let mut k: usize = 0;
    while k < parts.len()
        invariant
            k <= parts.len(),
            views(parts@) == split(value@, seq![',']),
            gzip@ == "gzip"@,
            forall|j: int| 0 <= j < k ==> trim(#[trigger] split(value@, seq![','])[j]) != "gzip"@,
        decreases parts.len() - k,
    {
        assert(views(parts@)[k as int] == parts@[k as int]@);
        if same_chars(&trim_exec(&parts[k]), &gzip) {
            return true;
        }
        k = k + 1;
    }
    false
}

/// Compresses the body of `response` with gzip when `request` accepts it
/// (its `Accept-Encoding` lists `gzip`), adding `Content-Encoding: gzip`,
/// and reports a compression failure; otherwise hands `response` back
/// unchanged.
pub fn gzip_response_middleware(request: &Request, response: ResponseBuilder) -> (r: Result<
    ResponseBuilder,
    ResponseError,
>)
    ensures
        !wants_gzip(request@.headers) ==> (r matches Ok(b) && b@ == response@),
        wants_gzip(request@.headers) ==> match gzip_of(response@.body) {
            Some(z) => r matches Ok(b) && b@ == (BuilderModel {
                headers: response@.headers.push(("Content-Encoding"@, "gzip"@)),
                body: z,
                ..response@
            }),
            None => r matches Err(ResponseError::Compression),
        },
{
    match request.headers().get("Accept-Encoding") {
        Some(value) => {
            if accepts_gzip_exec(value.as_str()) {
                let compressed = gzip_bytes(response.get_body().as_slice());
                apply_gzip(response, compressed)
            } else {
                Ok(response)
            }
        },
        None => Ok(response),
    }
}

} // verus!
