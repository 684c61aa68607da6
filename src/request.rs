//! Parsing the text of an HTTP/1.1 request into a `Request`.
use vstd::prelude::*;
use vstd::utf8::encode_utf8;
use crate::str_map::{map_of, StrMap};
use crate::text::{
    chars_of, copy_range, find_exec, find_from, is_white, lemma_find_from, occurs_at, same_chars,
    split, split_exec, split_from, string_of, views, words, words_exec, words_from,
};

verus! {

/// Why a request could not be read or parsed.
#[derive(Debug)]
pub enum HTTPError {
    /// Reading from the connection failed.
    IoError,
    /// The request line names no method of the closed set.
    IllegalMethod,
    /// The request lacks the blank line after its head, its request line does
    /// not have three tokens, or a header line lacks `": "`.
    Malformed,
    /// The bytes received are not UTF-8 text.
    Encoding,
}

/// The request methods that the server knows.
#[derive(Clone, Copy, Debug, PartialEq, Eq, Structural)]
pub enum HTTPMethod {
    GET,
    POST,
    PUT,
    PATCH,
    DELETE,
    HEAD,
    OPTIONS,
    CONNECT,
    TRACE,
}

/// The token that names `m` on the wire.
pub open spec fn method_name(m: HTTPMethod) -> Seq<char> {
    match m {
        HTTPMethod::GET => "GET"@,
        HTTPMethod::POST => "POST"@,
        HTTPMethod::PUT => "PUT"@,
        HTTPMethod::PATCH => "PATCH"@,
        HTTPMethod::DELETE => "DELETE"@,
        HTTPMethod::HEAD => "HEAD"@,
        HTTPMethod::OPTIONS => "OPTIONS"@,
        HTTPMethod::CONNECT => "CONNECT"@,
        HTTPMethod::TRACE => "TRACE"@,
    }
}

/// The method that the token `t` names exactly (case-sensitive), if any.
pub open spec fn method_of(t: Seq<char>) -> Option<HTTPMethod> {
    if t == "GET"@ {
        Some(HTTPMethod::GET)
    } else if t == "POST"@ {
        Some(HTTPMethod::POST)
    } else if t == "PUT"@ {
        Some(HTTPMethod::PUT)
    } else if t == "PATCH"@ {
        Some(HTTPMethod::PATCH)
    } else if t == "DELETE"@ {
        Some(HTTPMethod::DELETE)
    } else if t == "HEAD"@ {
        Some(HTTPMethod::HEAD)
    } else if t == "OPTIONS"@ {
        Some(HTTPMethod::OPTIONS)
    } else if t == "CONNECT"@ {
        Some(HTTPMethod::CONNECT)
    } else if t == "TRACE"@ {
        Some(HTTPMethod::TRACE)
    } else {
        None
    }
}

impl HTTPMethod {
    /// The method named by the token `method`.
    pub fn parse_method(method: &str) -> (r: Result<HTTPMethod, HTTPError>)
        ensures
            r matches Ok(m) ==> method_of(method@) == Some(m),
            r is Err ==> method_of(method@) is None && r matches Err(HTTPError::IllegalMethod),
    {
        Self::from_chars(&chars_of(method))
    }

    /// The method named by the token `t`.
    pub fn from_chars(t: &Vec<char>) -> (r: Result<HTTPMethod, HTTPError>)
        ensures
            r matches Ok(m) ==> method_of(t@) == Some(m),
            r is Err ==> method_of(t@) is None && r matches Err(HTTPError::IllegalMethod),
    {
        if same_chars(t, &chars_of("GET")) {
            Ok(HTTPMethod::GET)
        } else if same_chars(t, &chars_of("POST")) {
            Ok(HTTPMethod::POST)
        } else if same_chars(t, &chars_of("PUT")) {
            Ok(HTTPMethod::PUT)
        } else if same_chars(t, &chars_of("PATCH")) {
            Ok(HTTPMethod::PATCH)
        } else if same_chars(t, &chars_of("DELETE")) {
            Ok(HTTPMethod::DELETE)
        } else if same_chars(t, &chars_of("HEAD")) {
            Ok(HTTPMethod::HEAD)
        } else if same_chars(t, &chars_of("OPTIONS")) {
            Ok(HTTPMethod::OPTIONS)
        } else if same_chars(t, &chars_of("CONNECT")) {
            Ok(HTTPMethod::CONNECT)
        } else if same_chars(t, &chars_of("TRACE")) {
            Ok(HTTPMethod::TRACE)
        } else {
            Err(HTTPError::IllegalMethod)
        }
    }
}

/// What a request line says.
pub struct RequestLineModel {
    pub method: HTTPMethod,
    pub path: Seq<char>,
    pub version: Seq<char>,
}

/// The request line that the text `line` holds: exactly three
/// whitespace-separated tokens, the first of them a method.
pub open spec fn request_line_of(line: Seq<char>) -> Result<RequestLineModel, HTTPError> {
    let w = words(line);
    if w.len() != 3 {
        Err(HTTPError::Malformed)
    } else {
        match method_of(w[0]) {
            None => Err(HTTPError::IllegalMethod),
            Some(m) => Ok(RequestLineModel { method: m, path: w[1], version: w[2] }),
        }
    }
}

/// The first line of a request: method, path and protocol version.
pub struct RequestLine {
    method: HTTPMethod,
    path: String,
    version: String,
}

impl View for RequestLine {
    type V = RequestLineModel;

    closed spec fn view(&self) -> RequestLineModel {
        RequestLineModel { method: self.method, path: self.path@, version: self.version@ }
    }
}

impl RequestLine {
    /// Parses the text of a request line.
    pub fn parse_request_line(request_line: &Vec<char>) -> (r: Result<RequestLine, HTTPError>)
        ensures
            r matches Ok(l) ==> request_line_of(request_line@) == Ok::<RequestLineModel, HTTPError>(l@),
            r matches Err(e) ==> request_line_of(request_line@) == Err::<RequestLineModel, HTTPError>(e),
    {
        let parts = words_exec(request_line);
        if parts.len() != 3 {
            return Err(HTTPError::Malformed);
        }
        assert(views(parts@)[0] == parts@[0]@);
        assert(views(parts@)[1] == parts@[1]@);
        assert(views(parts@)[2] == parts@[2]@);
        let method = match HTTPMethod::from_chars(&parts[0]) {
            Ok(m) => m,
            Err(e) => return Err(e),
        };
        let path = string_of(parts[1].as_slice());
        let version = string_of(parts[2].as_slice());
        Ok(RequestLine { method, path, version })
    }

    /// The request's method.
    pub fn method(&self) -> (r: &HTTPMethod)
        ensures
            *r == self@.method,
    {
        &self.method
    }

    /// The protocol version token, as received.
    pub fn version(&self) -> (r: &str)
        ensures
            r@ == self@.version,
    {
        self.version.as_str()
    }

    /// The request target, as received (percent escapes kept).
    pub fn path(&self) -> (r: &str)
        ensures
            r@ == self@.path,
    {
        self.path.as_str()
    }
}

/// Carriage return and line feed.
pub open spec fn crlf() -> Seq<char> {
    seq!['\r', '\n']
}

/// The blank line that ends the head of a request.
pub open spec fn blank_line() -> Seq<char> {
    seq!['\r', '\n', '\r', '\n']
}

/// The separator between a header's name and its value.
pub open spec fn colon_space() -> Seq<char> {
    seq![':', ' ']
}

/// The name and value of a header line, split at its first `": "`.
pub open spec fn header_of(line: Seq<char>) -> Option<(Seq<char>, Seq<char>)> {
    match find_from(line, colon_space(), 0) {
        Some(i) => Some((line.subrange(0, i), line.subrange(i + 2, line.len() as int))),
        None => None,
    }
}

/// The header writes of `lines`, in order, if every line is a header line.
pub open spec fn headers_of(lines: Seq<Seq<char>>) -> Option<Seq<(Seq<char>, Seq<char>)>>
    decreases lines.len(),
{
    if lines.len() == 0 {
        Some(Seq::empty())
    } else {
        match (headers_of(lines.drop_last()), header_of(lines.last())) {
            (Some(h), Some(p)) => Some(h.push(p)),
            _ => None,
        }
    }
}

/// The body of a request: absent when empty, else the bytes of its text.
pub open spec fn body_of(b: Seq<char>) -> Option<Seq<u8>> {
    if b.len() == 0 {
        None
    } else {
        Some(encode_utf8(b))
    }
}

/// What a request holds.
pub struct RequestModel {
    pub line: RequestLineModel,
    pub headers: Map<Seq<char>, Seq<char>>,
    pub body: Option<Seq<u8>>,
    pub params: Map<Seq<char>, Seq<char>>,
}

/// The request that the text `s` holds: the head up to the first blank line
/// (request line, then header lines, separated by CRLF), then the body.
pub open spec fn request_of(s: Seq<char>) -> Result<RequestModel, HTTPError> {
    match find_from(s, blank_line(), 0) {
        None => Err(HTTPError::Malformed),
        Some(i) => {
            let lines = split(s.subrange(0, i), crlf());
            match request_line_of(lines[0]) {
                Err(e) => Err(e),
                Ok(line) => match headers_of(lines.drop_first()) {
                    None => Err(HTTPError::Malformed),
                    Some(h) => Ok(
                        RequestModel {
                            line,
                            headers: map_of(h),
                            body: body_of(s.subrange(i + 4, s.len() as int)),
                            params: Map::empty(),
                        },
                    ),
                },
            }
        },
    }
}

/// Splitting gives at least one piece.
pub proof fn lemma_split_nonempty(s: Seq<char>, sep: Seq<char>, start: int, pos: int)
    ensures
        split_from(s, sep, start, pos).len() >= 1,
    decreases s.len() - pos,
{
    if sep.len() == 0 || pos + sep.len() > s.len() {
    } else if crate::text::occurs_at(s, sep, pos) {
        lemma_split_nonempty(s, sep, pos + sep.len(), pos + sep.len());
    } else {
        lemma_split_nonempty(s, sep, start, pos + 1);
    }
}

/// A parsed request, with the route parameters attached once it is routed.
pub struct Request {
    request_line: RequestLine,
    headers: StrMap,
    body: Option<Vec<u8>>,
    params: StrMap,
}

impl View for Request {
    type V = RequestModel;

    closed spec fn view(&self) -> RequestModel {
        RequestModel {
            line: self.request_line@,
            headers: self.headers@,
            body: match self.body {
                Some(b) => Some(b@),
                None => None,
            },
            params: self.params@,
        }
    }
}

impl Request {
    /// Parses the text of a whole request.
    pub fn parse_request(request: &str) -> (r: Result<Request, HTTPError>)
        ensures
            r matches Ok(q) ==> request_of(request@) == Ok::<RequestModel, HTTPError>(q@),
            r matches Err(e) ==> request_of(request@) == Err::<RequestModel, HTTPError>(e),
    {
        let cs = chars_of(request);
        let mut blank: Vec<char> = Vec::new();
        blank.push('\r');
        blank.push('\n');
        blank.push('\r');
        blank.push('\n');
        assert(blank@ =~= blank_line());
        let i = match find_exec(&cs, &blank, 0) {
            Some(i) => i,
            None => return Err(HTTPError::Malformed),
        };
        proof {
            lemma_find_from(cs@, blank@, 0);
        }
        let head = copy_range(&cs, 0, i);
        let mut eol: Vec<char> = Vec::new();
        eol.push('\r');
        eol.push('\n');
        assert(eol@ =~= crlf());
        let lines = split_exec(&head, &eol);
        proof {
            lemma_split_nonempty(head@, eol@, 0, 0);
        }
        assert(views(lines@)[0] == lines@[0]@);
        let request_line = match RequestLine::parse_request_line(&lines[0]) {
            Ok(l) => l,
            Err(e) => return Err(e),
        };
        let headers = match Request::parse_headers(&lines) {
            Some(h) => h,
            None => return Err(HTTPError::Malformed),
        };
        let rest = copy_range(&cs, i + 4, cs.len());
        let body = Request::parse_body(&rest);
        let params = StrMap::new();
        let r = Request { request_line, headers, body, params };
        assert(r@.params =~= Map::<Seq<char>, Seq<char>>::empty());
        Ok(r)
    }

    /// The header fields of `lines` after the first (the request line).
    fn parse_headers(lines: &Vec<Vec<char>>) -> (r: Option<StrMap>)
        requires
            lines.len() >= 1,
        ensures
            r matches Some(m) ==> headers_of(views(lines@).drop_first()) == Some(m.writes()),
            r is None ==> headers_of(views(lines@).drop_first()) is None,
    {
        let mut headers_map = StrMap::new();
        let mut sep: Vec<char> = Vec::new();
        sep.push(':');
        sep.push(' ');
        assert(sep@ =~= colon_space());
        let mut k: usize = 1;
        while k < lines.len()
            invariant
                1 <= k <= lines.len(),
                sep@ == colon_space(),
                headers_of(views(lines@).subrange(1, k as int)) == Some(headers_map.writes()),
            decreases lines.len() - k,
        {
            let line = &lines[k];
            let ghost prefix = views(lines@).subrange(1, k as int);
            let ghost next = views(lines@).subrange(1, k + 1);
            assert(next.drop_last() =~= prefix);
            assert(next.last() == line@);
            proof {
                lemma_find_from(line@, sep@, 0);
            }
            match find_exec(line, &sep, 0) {
                Some(i) => {
                    let name = string_of(copy_range(line, 0, i).as_slice());
                    let value = string_of(copy_range(line, i + 2, line.len()).as_slice());
                    headers_map.insert(name, value);
                },
                None => {
                    proof {
                        lemma_headers_none_extends(views(lines@).drop_first(), k - 1);
                        assert(views(lines@).drop_first().subrange(0, k as int) =~= next);
                        lemma_headers_prefix_none(views(lines@).drop_first(), k as int);
                    }
                    return None;
                },
            }
            k = k + 1;
        }
        assert(views(lines@).subrange(1, lines.len() as int) =~= views(lines@).drop_first());
        Some(headers_map)
    }

    /// The body: absent when `body` is empty, else the bytes of its text.
    fn parse_body(body: &Vec<char>) -> (r: Option<Vec<u8>>)
        ensures
            match r {
                Some(b) => body_of(body@) == Some(b@),
                None => body_of(body@) is None,
            },
    {
        if body.len() == 0 {
            None
        } else {
            let text = string_of(body.as_slice());
            Some(vstd::slice::slice_to_vec(text.as_str().as_bytes()))
        }
    }

    /// The request line.
    pub fn request_line(&self) -> (r: &RequestLine)
        ensures
            r@ == self@.line,
    {
        &self.request_line
    }

    /// The request's method.
    pub fn method(&self) -> (r: &HTTPMethod)
        ensures
            *r == self@.line.method,
    {
        self.request_line.method()
    }

    /// The header fields.
    pub fn headers(&self) -> (r: &StrMap)
        ensures
            r@ == self@.headers,
    {
        &self.headers
    }

    /// The body, if the request has one.
    pub fn body(&self) -> (r: Option<&Vec<u8>>)
        ensures
            match r {
                Some(b) => self@.body == Some(b@),
                None => self@.body is None,
            },
    {
        match &self.body {
            Some(b) => Some(b),
            None => None,
        }
    }

    /// The route parameters.
    pub fn params(&self) -> (r: &StrMap)
        ensures
            r@ == self@.params,
    {
        &self.params
    }

    /// Attaches the route parameters found when the request was routed.
    pub fn add_params(&mut self, params: StrMap)
        ensures
            final(self)@ == (RequestModel { params: params@, ..old(self)@ }),
    {
        self.params = params;
    }
}

/// Once a header line fails to parse, every longer run of lines fails too.
pub proof fn lemma_headers_none_extends(lines: Seq<Seq<char>>, n: int)
    requires
        0 <= n < lines.len(),
        header_of(lines[n]) is None,
    ensures
        headers_of(lines.subrange(0, n + 1)) is None,
{
    let l = lines.subrange(0, n + 1);
    assert(l.last() == lines[n]);
}

/// A run of lines whose prefix fails to parse fails too.
pub proof fn lemma_headers_prefix_none(lines: Seq<Seq<char>>, m: int)
    requires
        0 <= m <= lines.len(),
        headers_of(lines.subrange(0, m)) is None,
    ensures
        headers_of(lines) is None,
    decreases lines.len(),
{
    if m == lines.len() {
        assert(lines.subrange(0, m) =~= lines);
    } else {
        assert(lines.drop_last().subrange(0, m) =~= lines.subrange(0, m));
        lemma_headers_prefix_none(lines.drop_last(), m);
    }
}

/// A run of non-whitespace characters from `a` up to `b`, ended by the end
/// of `s` or by whitespace, is the next word.
pub proof fn lemma_word_run(s: Seq<char>, a: int, b: int)
    requires
        0 <= a < b <= s.len(),
        forall|i: int| a <= i < b ==> !is_white(s[i]),
        b == s.len() || is_white(s[b]),
    ensures
        words_from(s, a, None) == seq![s.subrange(a, b)] + if b == s.len() {
            Seq::<Seq<char>>::empty()
        } else {
            words_from(s, b + 1, None)
        },
{
    lemma_word_tail(s, a, a + 1, b);
}

proof fn lemma_word_tail(s: Seq<char>, a: int, p: int, b: int)
    requires
        0 <= a < p <= b <= s.len(),
        forall|i: int| a <= i < b ==> !is_white(s[i]),
        b == s.len() || is_white(s[b]),
    ensures
        words_from(s, p, Some(a)) == seq![s.subrange(a, b)] + if b == s.len() {
            Seq::<Seq<char>>::empty()
        } else {
            words_from(s, b + 1, None)
        },
    decreases b - p,
{
    if p < b {
        lemma_word_tail(s, a, p + 1, b);
    } else if b == s.len() {
        assert(seq![s.subrange(a, b)] + Seq::<Seq<char>>::empty() =~= seq![s.subrange(a, b)]);
    }
}

/// Each method's name is a non-empty token without whitespace that names it.
pub proof fn lemma_method_name(m: HTTPMethod)
    ensures
        method_name(m).len() > 0,
        forall|i: int| 0 <= i < method_name(m).len() ==> !is_white(#[trigger] method_name(m)[i]),
        method_of(method_name(m)) == Some(m),
{
    reveal_strlit("GET");
    reveal_strlit("POST");
    reveal_strlit("PUT");
    reveal_strlit("PATCH");
    reveal_strlit("DELETE");
    reveal_strlit("HEAD");
    reveal_strlit("OPTIONS");
    reveal_strlit("CONNECT");
    reveal_strlit("TRACE");
    assert("GET"@.len() == 3 && "POST"@.len() == 4 && "PUT"@.len() == 3 && "PATCH"@.len() == 5);
    assert("DELETE"@.len() == 6 && "HEAD"@.len() == 4 && "OPTIONS"@.len() == 7);
    assert("CONNECT"@.len() == 7 && "TRACE"@.len() == 5);
    assert("GET"@[0] == 'G' && "POST"@[0] == 'P' && "PUT"@[0] == 'P' && "PATCH"@[0] == 'P');
    assert("HEAD"@[0] == 'H' && "OPTIONS"@[0] == 'O' && "CONNECT"@[0] == 'C' && "TRACE"@[0] == 'T');
}

/// A request line made of a method's name, a path and a version, separated
/// by single spaces, parses back to that method, path and version, whenever
/// the path and the version are non-empty and hold no whitespace.
pub proof fn lemma_request_line_round_trip(m: HTTPMethod, path: Seq<char>, version: Seq<char>)
    requires
        path.len() > 0,
        version.len() > 0,
        forall|i: int| 0 <= i < path.len() ==> !is_white(#[trigger] path[i]),
        forall|i: int| 0 <= i < version.len() ==> !is_white(#[trigger] version[i]),
    ensures
        request_line_of(method_name(m) + seq![' '] + path + seq![' '] + version) == Ok::<
            RequestLineModel,
            HTTPError,
        >(RequestLineModel { method: m, path, version }),
{
    lemma_method_name(m);
    let n = method_name(m);
    let s = n + seq![' '] + path + seq![' '] + version;
    let a1 = n.len() as int;
    let a2 = a1 + 1 + path.len();
    assert(s.subrange(0, a1) =~= n);
    assert(s.subrange(a1 + 1, a2) =~= path);
    assert(s.subrange(a2 + 1, s.len() as int) =~= version);
    assert(forall|i: int| 0 <= i < a1 ==> s[i] == n[i]);
    assert(forall|i: int| a1 + 1 <= i < a2 ==> s[i] == path[i - a1 - 1]);
    assert(forall|i: int| a2 + 1 <= i < s.len() ==> s[i] == version[i - a2 - 1]);
    lemma_word_run(s, 0, a1);
    lemma_word_run(s, a1 + 1, a2);
    lemma_word_run(s, a2 + 1, s.len() as int);
    assert(words(s) =~= seq![n, path, version]);
}

/// Text without the blank line that ends a head is a malformed request.
pub proof fn lemma_no_blank_line_malformed(s: Seq<char>)
    requires
        forall|i: int| !occurs_at(s, blank_line(), i),
    ensures
        request_of(s) == Err::<RequestModel, HTTPError>(HTTPError::Malformed),
{
    lemma_find_from(s, blank_line(), 0);
}

/// Splitting text in which the separator no longer occurs leaves one piece.
pub proof fn lemma_split_without_separator(s: Seq<char>, sep: Seq<char>, start: int, pos: int)
    requires
        0 <= start <= pos,
        sep.len() > 0,
        forall|j: int| pos <= j ==> !occurs_at(s, sep, j),
    ensures
        split_from(s, sep, start, pos) == seq![s.subrange(start, s.len() as int)],
    decreases s.len() - pos,
{
    if pos + sep.len() <= s.len() {
        lemma_split_without_separator(s, sep, start, pos + 1);
    }
}

/// A request line made of a method's name, a path and a version, followed by
/// the blank line, parses to a request with that method, path and version,
/// no header fields and no body.
pub proof fn lemma_request_round_trip(m: HTTPMethod, path: Seq<char>, version: Seq<char>)
    requires
        path.len() > 0,
        version.len() > 0,
        forall|i: int| 0 <= i < path.len() ==> !is_white(#[trigger] path[i]),
        forall|i: int| 0 <= i < version.len() ==> !is_white(#[trigger] version[i]),
    ensures
        request_of(method_name(m) + seq![' '] + path + seq![' '] + version + blank_line()) == Ok::<
            RequestModel,
            HTTPError,
        >(
            RequestModel {
                line: RequestLineModel { method: m, path, version },
                headers: Map::empty(),
                body: None,
                params: Map::empty(),
            },
        ),
{
    lemma_request_line_round_trip(m, path, version);
    lemma_method_name(m);
    let n = method_name(m);
    let line = n + seq![' '] + path + seq![' '] + version;
    let s = line + blank_line();
    let len = line.len() as int;
    assert forall|i: int| 0 <= i < len implies line[i] != '\r' by {
        if i < n.len() {
            assert(line[i] == n[i]);
        } else if n.len() < i < n.len() + 1 + path.len() {
            assert(line[i] == path[i - n.len() - 1]);
        } else if n.len() + 1 + path.len() < i {
            assert(line[i] == version[i - n.len() - 2 - path.len()]);
        }
    }
    assert forall|j: int| 0 <= j < len implies !occurs_at(s, blank_line(), j) by {
        if occurs_at(s, blank_line(), j) {
            assert(s.subrange(j, j + 4)[0] == s[j]);
            assert(s[j] == line[j]);
        }
    }
    assert(s.subrange(len, len + 4) =~= blank_line());
    assert(occurs_at(s, blank_line(), len));
    lemma_find_from(s, blank_line(), 0);
    match find_from(s, blank_line(), 0) {
        Some(k) => {
            if k > len {
                assert(!occurs_at(s, blank_line(), len));
            }
            if k < len {
                assert(!occurs_at(s, blank_line(), k));
            }
        },
        None => {
            assert(!occurs_at(s, blank_line(), len));
        },
    }
    assert(find_from(s, blank_line(), 0) == Some(len));
    assert(s.subrange(0, len) =~= line);
    assert forall|j: int| 0 <= j implies !occurs_at(line, crlf(), j) by {
        if occurs_at(line, crlf(), j) {
            assert(line.subrange(j, j + 2)[0] == line[j]);
        }
    }
    lemma_split_without_separator(line, crlf(), 0, 0);
    assert(line.subrange(0, len) =~= line);
    let lines = split(line, crlf());
    assert(lines.drop_first() =~= Seq::<Seq<char>>::empty());
    assert(map_of(Seq::<(Seq<char>, Seq<char>)>::empty()) =~= Map::<Seq<char>, Seq<char>>::empty());
    assert(s.subrange(len + 4, s.len() as int).len() == 0);
}

} // verus!
