//! Building responses and writing them in HTTP/1.1 wire format.
use vstd::prelude::*;
use vstd::string::StringSliceAdditionalSpecFns;
use vstd::utf8::encode_utf8;
use crate::str_map::{is_live, map_of, StrMap};

verus! {

/// Why a response could not be built.
#[derive(Debug)]
pub enum ResponseError {
    /// The builder was never given a status.
    MissingStatus,
    /// The compression collaborator failed.
    Compression,
    /// A route parameter that the handler needs is absent.
    MissingParameter,
}

/// A status code and its reason phrase.
pub struct Status {
    code: u16,
    reason: String,
}

impl Status {
    /// The status `code` with the reason phrase `reason`.
    pub fn new(code: u16, reason: &str) -> (r: Status)
        ensures
            r.code() == code,
            r.reason() == reason@,
    {
        Status { code, reason: String::from_str(reason) }
    }

    /// The status code.
    pub closed spec fn code(&self) -> u16 {
        self.code
    }

    /// The reason phrase.
    pub closed spec fn reason(&self) -> Seq<char> {
        self.reason@
    }
}

/// What a response builder holds: an optional status (code and reason), the
/// header writes in order, and the body.
pub struct BuilderModel {
    pub status: Option<(u16, Seq<char>)>,
    pub headers: Seq<(Seq<char>, Seq<char>)>,
    pub body: Seq<u8>,
}

/// Accumulates the status, header fields and body of a response.
pub struct ResponseBuilder {
    status: Option<Status>,
    headers: StrMap,
    body: Vec<u8>,
}

impl View for ResponseBuilder {
    type V = BuilderModel;

    closed spec fn view(&self) -> BuilderModel {
        BuilderModel {
            status: match self.status {
                Some(s) => Some((s.code(), s.reason())),
                None => None,
            },
            headers: self.headers.writes(),
            body: self.body@,
        }
    }
}

impl Default for ResponseBuilder {
    fn default() -> (r: ResponseBuilder)
        ensures
            r@.status is None,
            r@.headers.len() == 0,
            r@.body.len() == 0,
    {
        Self::new()
    }
}

impl ResponseBuilder {
    /// A builder with no status, no header fields and an empty body.
    pub fn new() -> (r: ResponseBuilder)
        ensures
            r@.status is None,
            r@.headers.len() == 0,
            r@.body.len() == 0,
    {
        ResponseBuilder { status: None, headers: StrMap::new(), body: Vec::new() }
    }

    /// Sets the status.
    pub fn status(self, code: u16, reason: &str) -> (r: Self)
        ensures
            r@ == (BuilderModel { status: Some((code, reason@)), ..self@ }),
    {
        let mut b = self;
        b.status = Some(Status::new(code, reason));
        b
    }

    /// Sets the header field `key` to `value`; a later write of a name wins.
    pub fn header(self, key: &str, value: &str) -> (r: Self)
        ensures
            r@ == (BuilderModel { headers: self@.headers.push((key@, value@)), ..self@ }),
    {
        let mut b = self;
        b.headers.insert(String::from_str(key), String::from_str(value));
        b
    }

    /// Replaces all header fields with `headers`.
    pub fn headers(self, headers: &[(&str, &str)]) -> (r: Self)
        ensures
            r@ == (BuilderModel {
                headers: headers@.map_values(|p: (&str, &str)| (p.0@, p.1@)),
                ..self@
            }),
    {
        let mut headers_map = StrMap::new();
        let mut i: usize = 0;
        while i < headers.len()
            invariant
                i <= headers@.len(),
                headers_map.writes() == headers@.subrange(0, i as int).map_values(
                    |p: (&str, &str)| (p.0@, p.1@),
                ),
            decreases headers@.len() - i,
        {
            let (key, value) = headers[i];
            headers_map.insert(String::from_str(key), String::from_str(value));
            i = i + 1;
            assert(headers_map.writes() =~= headers@.subrange(0, i as int).map_values(
                |p: (&str, &str)| (p.0@, p.1@),
            ));
        }
        assert(headers@.subrange(0, headers@.len() as int) =~= headers@);
        let mut b = self;
        b.headers = headers_map;
        b
    }

    /// Sets the body.
    pub fn body(self, body: &[u8]) -> (r: Self)
        ensures
            r@ == (BuilderModel { body: body@, ..self@ }),
    {
        let mut b = self;
        b.body = vstd::slice::slice_to_vec(body);
        b
    }

    /// The body set so far.
    pub fn get_body(&self) -> (r: &Vec<u8>)
        ensures
            r@ == self@.body,
    {
        &self.body
    }

    /// Freezes the builder into a response; fails when no status was set.
    pub fn build(self) -> (r: Result<Response, ResponseError>)
        ensures
            match self@.status {
                Some(s) => r matches Ok(resp) && resp@ == (ResponseModel {
                    code: s.0,
                    reason: s.1,
                    headers: self@.headers,
                    body: self@.body,
                }),
                None => r matches Err(ResponseError::MissingStatus),
            },
    {
        match self.status {
            Some(status) => Ok(Response { status, headers: self.headers, body: self.body }),
            None => Err(ResponseError::MissingStatus),
        }
    }
}

/// What a response holds: status code, reason phrase, header writes in
/// order, and body.
pub struct ResponseModel {
    pub code: u16,
    pub reason: Seq<char>,
    pub headers: Seq<(Seq<char>, Seq<char>)>,
    pub body: Seq<u8>,
}

/// A finished response.
pub struct Response {
    status: Status,
    headers: StrMap,
    body: Vec<u8>,
}

impl View for Response {
    type V = ResponseModel;

    closed spec fn view(&self) -> ResponseModel {
        ResponseModel {
            code: self.status.code(),
            reason: self.status.reason(),
            headers: self.headers.writes(),
            body: self.body@,
        }
    }
}

/// The decimal digits of `n`, in ASCII.
pub open spec fn decimal(n: nat) -> Seq<u8>
    decreases n,
{
    if n < 10 {
        seq![(48 + n) as u8]
    } else {
        decimal(n / 10).push((48 + n % 10) as u8)
    }
}

/// The name of the length header that serialisation computes itself.
pub open spec fn content_length_name() -> Seq<char> {
    "Content-Length"@
}

/// Whether header write `i` is written out: it is the last write of its
/// name, and the name is not the computed length header.
pub open spec fn emitted(e: Seq<(Seq<char>, Seq<char>)>, i: int) -> bool {
    is_live(e, i) && e[i].0 != content_length_name()
}

/// `name: value` and CRLF, in bytes.
pub open spec fn field_line(name: Seq<char>, value: Seq<char>) -> Seq<u8> {
    encode_utf8(name) + seq![58u8, 32u8] + encode_utf8(value) + seq![13u8, 10u8]
}

/// The header lines of the first `n` writes of `e`.
pub open spec fn header_block(e: Seq<(Seq<char>, Seq<char>)>, n: int) -> Seq<u8>
    decreases n,
{
    if n <= 0 {
        Seq::empty()
    } else if emitted(e, n - 1) {
        header_block(e, n - 1) + field_line(e[n - 1].0, e[n - 1].1)
    } else {
        header_block(e, n - 1)
    }
}

/// The status line: `HTTP/1.1 <code> <reason>` and CRLF.
pub open spec fn status_line(code: u16, reason: Seq<char>) -> Seq<u8> {
    "HTTP/1.1 ".spec_bytes() + decimal(code as nat) + seq![32u8] + encode_utf8(reason) + seq![
        13u8,
        10u8,
    ]
}

/// The computed length line, the blank line, and the body.
pub open spec fn length_and_body(body: Seq<u8>) -> Seq<u8> {
    "Content-Length: ".spec_bytes() + decimal(body.len()) + seq![13u8, 10u8, 13u8, 10u8] + body
}

/// The wire form of a response.
pub open spec fn wire_of(r: ResponseModel) -> Seq<u8> {
    status_line(r.code, r.reason) + header_block(r.headers, r.headers.len() as int)
        + length_and_body(r.body)
}

/// Appends `bytes` to `out`.
fn push_bytes(out: &mut Vec<u8>, bytes: &[u8])
    ensures
        final(out)@ == old(out)@ + bytes@,
{
    let ghost start = out@;
    let mut i: usize = 0;
    while i < bytes.len()
        invariant
            i <= bytes@.len(),
            out@ == start + bytes@.subrange(0, i as int),
        decreases bytes@.len() - i,
    {
        out.push(bytes[i]);
        i = i + 1;
        assert(out@ =~= start + bytes@.subrange(0, i as int));
    }
    assert(bytes@.subrange(0, bytes@.len() as int) =~= bytes@);
}

/// Appends the decimal digits of `n` to `out`.
fn push_decimal(out: &mut Vec<u8>, n: usize)
    ensures
        final(out)@ == old(out)@ + decimal(n as nat),
    decreases n,
{
    let ghost start = out@;
    if n >= 10 {
        push_decimal(out, n / 10);
    }
    out.push(((n % 10) as u8) + 48);
    if n >= 10 {
        assert(out@ =~= start + decimal(n as nat));
    } else {
        assert(out@ =~= start + decimal(n as nat));
    }
}

impl Response {
    /// The status code.
    pub fn code(&self) -> (r: u16)
        ensures
            r == self@.code,
    {
        self.status.code
    }

    /// The header fields.
    pub fn headers(&self) -> (r: &StrMap)
        ensures
            r.writes() == self@.headers,
    {
        &self.headers
    }

    /// The body.
    pub fn body(&self) -> (r: &Vec<u8>)
        ensures
            r@ == self@.body,
    {
        &self.body
    }

    /// The response in wire format: status line, header lines, the computed
    /// `Content-Length` line, a blank line, then the body.
    pub fn as_bytes(&self) -> (r: Vec<u8>)
        ensures
            r@ == wire_of(self@),
    {
        let mut out: Vec<u8> = Vec::new();
        push_bytes(&mut out, "HTTP/1.1 ".as_bytes());
        push_decimal(&mut out, self.status.code as usize);
        out.push(32);
        push_bytes(&mut out, self.status.reason.as_str().as_bytes());
        out.push(13);
        out.push(10);
        let ghost e = self.headers.writes();
        assert(out@ =~= status_line(self@.code, self@.reason));
        let length_name = String::from_str("Content-Length");
        let n = self.headers.write_count();
        let mut i: usize = 0;
        while i < n
            invariant
                i <= n == e.len(),
                e == self.headers.writes(),
                length_name@ == content_length_name(),
                out@ == status_line(self@.code, self@.reason) + header_block(e, i as int),
            decreases n - i,
        {
            let (name, value) = self.headers.write_at(i);
            if self.headers.is_last_write(i) && !(*name == length_name) {
                let ghost before = out@;
                push_bytes(&mut out, name.as_str().as_bytes());
                out.push(58);
                out.push(32);
                push_bytes(&mut out, value.as_str().as_bytes());
                out.push(13);
                out.push(10);
                assert(out@ =~= before + field_line(name@, value@));
            }
            i = i + 1;
        }
        let ghost before = out@;
        push_bytes(&mut out, "Content-Length: ".as_bytes());
        push_decimal(&mut out, self.body.len());
        out.push(13);
        out.push(10);
        out.push(13);
        out.push(10);
        push_bytes(&mut out, self.body.as_slice());
        assert(out@ =~= before + length_and_body(self@.body));
        out
    }
}

/// The number that ASCII decimal digits `d` spell.
pub open spec fn digits_value(d: Seq<u8>) -> nat
    decreases d.len(),
{
    if d.len() == 0 {
        0
    } else {
        digits_value(d.drop_last()) * 10 + (d.last() - 48) as nat
    }
}

/// `decimal(n)` is made of ASCII digits that spell `n`.
pub proof fn lemma_decimal_value(n: nat)
    ensures
        decimal(n).len() > 0,
        forall|i: int| 0 <= i < decimal(n).len() ==> 48 <= #[trigger] decimal(n)[i] <= 57,
        digits_value(decimal(n)) == n,
    decreases n,
{
    if n >= 10 {
        lemma_decimal_value(n / 10);
        vstd::arithmetic::div_mod::lemma_fundamental_div_mod(n as int, 10);
        let d = decimal(n);
        assert(d.drop_last() =~= decimal(n / 10));
        assert(d.last() == (48 + n % 10) as u8);
        assert((n / 10) * 10 == 10 * (n / 10)) by (nonlinear_arith);
        assert(digits_value(d) == digits_value(decimal(n / 10)) * 10 + (d.last() - 48) as nat);
        assert forall|i: int| 0 <= i < d.len() implies 48 <= #[trigger] d[i] <= 57 by {
            if i < d.len() - 1 {
                assert(d[i] == decimal(n / 10)[i]);
            }
        }
    } else {
        let d = decimal(n);
        assert(d.drop_last() =~= Seq::<u8>::empty());
        assert(digits_value(d) == digits_value(d.drop_last()) * 10 + (d.last() - 48) as nat);
    }
}

/// The wire form of every response carries the computed length field,
/// whose digits spell the exact byte length of the body, right before the
/// blank line and the body itself; no header write named `Content-Length`
/// is written out beside it.
pub proof fn lemma_content_length(r: ResponseModel)
    ensures
        wire_of(r) == status_line(r.code, r.reason) + header_block(
            r.headers,
            r.headers.len() as int,
        ) + "Content-Length: ".spec_bytes() + decimal(r.body.len()) + seq![13u8, 10u8, 13u8, 10u8]
            + r.body,
        digits_value(decimal(r.body.len())) == r.body.len(),
        forall|i: int|
            0 <= i < r.headers.len() && #[trigger] emitted(r.headers, i) ==> r.headers[i].0
                != content_length_name(),
{
    lemma_decimal_value(r.body.len());
    let a = status_line(r.code, r.reason) + header_block(r.headers, r.headers.len() as int);
    let l = "Content-Length: ".spec_bytes();
    let d = decimal(r.body.len());
    let e = seq![13u8, 10u8, 13u8, 10u8];
    assert(a + (l + d + e + r.body) =~= a + l + d + e + r.body);
}

} // verus!
