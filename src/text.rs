//! Character-sequence tools shared by the request parser and the router:
//! searching for a separator, splitting on it, splitting on whitespace, and
//! the `%20` decoding of path segments.
use vstd::prelude::*;

verus! {

/// Whether `sep` occurs in `s` at index `i`.
pub open spec fn occurs_at(s: Seq<char>, sep: Seq<char>, i: int) -> bool {
    0 <= i && i + sep.len() <= s.len() && s.subrange(i, i + sep.len()) == sep
}

/// The first index at or after `i` at which `sep` occurs in `s`.
pub open spec fn find_from(s: Seq<char>, sep: Seq<char>, i: int) -> Option<int>
    decreases s.len() - i,
{
    if i < 0 || i >= s.len() || i + sep.len() > s.len() {
        None
    } else if occurs_at(s, sep, i) {
        Some(i)
    } else {
        find_from(s, sep, i + 1)
    }
}

/// The pieces of `s` between the occurrences of `sep`, scanning from `pos`
/// with the current piece starting at `start` (the semantics of `str::split`).
pub open spec fn split_from(s: Seq<char>, sep: Seq<char>, start: int, pos: int) -> Seq<Seq<char>>
    decreases s.len() - pos,
{
    if sep.len() == 0 || pos + sep.len() > s.len() {
        seq![s.subrange(start, s.len() as int)]
    } else if occurs_at(s, sep, pos) {
        seq![s.subrange(start, pos)] + split_from(s, sep, pos + sep.len(), pos + sep.len())
    } else {
        split_from(s, sep, start, pos + 1)
    }
}

/// `s` split on every occurrence of the non-empty separator `sep`.
pub open spec fn split(s: Seq<char>, sep: Seq<char>) -> Seq<Seq<char>> {
    split_from(s, sep, 0, 0)
}

/// The characters that `char::is_whitespace` accepts (Unicode `White_Space`).
pub open spec fn is_white(c: char) -> bool {
    c == '\t' || c == '\n' || c == '\u{0B}' || c == '\u{0C}' || c == '\r' || c == ' '
        || c == '\u{85}' || c == '\u{A0}' || c == '\u{1680}' || ('\u{2000}' <= c
        && c <= '\u{200A}') || c == '\u{2028}' || c == '\u{2029}' || c == '\u{202F}'
        || c == '\u{205F}' || c == '\u{3000}'
}

/// The maximal runs of non-whitespace characters of `s` from `pos` on, where
/// `start` is the beginning of the run in progress, if any.
pub open spec fn words_from(s: Seq<char>, pos: int, start: Option<int>) -> Seq<Seq<char>>
    decreases s.len() - pos,
{
    if pos >= s.len() {
        match start {
            Some(a) => seq![s.subrange(a, s.len() as int)],
            None => seq![],
        }
    } else if is_white(s[pos]) {
        match start {
            Some(a) => seq![s.subrange(a, pos)] + words_from(s, pos + 1, None),
            None => words_from(s, pos + 1, None),
        }
    } else {
        words_from(s, pos + 1, if start is Some { start } else { Some(pos) })
    }
}

/// The whitespace-separated words of `s` (the semantics of `str::split_whitespace`).
pub open spec fn words(s: Seq<char>) -> Seq<Seq<char>> {
    words_from(s, 0, None)
}

/// The three characters `%20`.
pub open spec fn escaped_space() -> Seq<char> {
    seq!['%', '2', '0']
}

/// `s` with every `%20` (taken left to right, without overlap) replaced by a space.
pub open spec fn decode_spaces(s: Seq<char>) -> Seq<char>
    decreases s.len(),
{
    if s.len() < 3 {
        s
    } else if s.subrange(0, 3) == escaped_space() {
        seq![' '] + decode_spaces(s.subrange(3, s.len() as int))
    } else {
        seq![s[0]] + decode_spaces(s.subrange(1, s.len() as int))
    }
}

/// The views of a sequence of character vectors.
pub open spec fn views(v: Seq<Vec<char>>) -> Seq<Seq<char>> {
    v.map_values(|x: Vec<char>| x@)
}

/// Where `find_from` lands: the first occurrence at or after `i`, or none at all.
pub proof fn lemma_find_from(s: Seq<char>, sep: Seq<char>, i: int)
    requires
        0 <= i,
        sep.len() > 0,
    ensures
        match find_from(s, sep, i) {
            Some(k) => i <= k && occurs_at(s, sep, k) && forall|j: int|
                i <= j < k ==> !occurs_at(s, sep, j),
            None => forall|j: int| i <= j ==> !occurs_at(s, sep, j),
        },
    decreases s.len() - i,
{
    if i + sep.len() > s.len() {
    } else if !occurs_at(s, sep, i) {
        lemma_find_from(s, sep, i + 1);
    }
}

/// The characters of `s`, in order.
pub fn chars_of(s: &str) -> (r: Vec<char>)
    ensures
        r@ == s@,
{
    let mut r: Vec<char> = Vec::new();
    let mut it = s.chars();
    for c in iter: it
        invariant
            r@ == iter.seq().take(iter.index() as int),
            iter.seq() == s@,
    {
        r.push(c);
        assert(r@ =~= iter.seq().take(iter.index() + 1));
    }
    assert(r@ =~= s@);
    r
}

/// Relies on std's `String: FromIterator<char>`: collecting characters into
/// a `String` keeps them, in order.
#[verifier::external_body]
pub(crate) fn string_of(cs: &[char]) -> (r: String)
    ensures
        r@ == cs@,
{
    cs.iter().collect()
}

/// The characters of `s` from `from` up to `to`.
pub fn copy_range(s: &Vec<char>, from: usize, to: usize) -> (r: Vec<char>)
    requires
        from <= to <= s.len(),
    ensures
        r@ == s@.subrange(from as int, to as int),
{
    let mut r: Vec<char> = Vec::new();
    let mut i: usize = from;
    while i < to
        invariant
            from <= i <= to <= s.len(),
            r@ == s@.subrange(from as int, i as int),
        decreases to - i,
    {
        r.push(s[i]);
        i = i + 1;
        assert(r@ =~= s@.subrange(from as int, i as int));
    }
    r
}

/// Whether `a` and `b` hold the same characters.
pub fn same_chars(a: &Vec<char>, b: &Vec<char>) -> (r: bool)
    ensures
        r == (a@ == b@),
{
    if a.len() != b.len() {
        return false;
    }
    let mut i: usize = 0;
    while i < a.len()
        invariant
            a.len() == b.len(),
            i <= a.len(),
            a@.subrange(0, i as int) == b@.subrange(0, i as int),
        decreases a.len() - i,
    {
        if a[i] != b[i] {
            assert(a@[i as int] != b@[i as int]);
            return false;
        }
        assert(a@.subrange(0, i + 1) =~= a@.subrange(0, i as int).push(a@[i as int]));
        assert(b@.subrange(0, i + 1) =~= b@.subrange(0, i as int).push(b@[i as int]));
        i = i + 1;
    }
    assert(a@ =~= a@.subrange(0, a.len() as int));
    assert(b@ =~= b@.subrange(0, b.len() as int));
    true
}

/// Whether `sep` occurs in `s` at `pos`.
pub fn occurs_at_exec(s: &Vec<char>, sep: &Vec<char>, pos: usize) -> (r: bool)
    ensures
        r == occurs_at(s@, sep@, pos as int),
{
    if pos > s.len() || sep.len() > s.len() - pos {
        return false;
    }
    let mut j: usize = 0;
    while j < sep.len()
        invariant
            pos + sep.len() <= s.len(),
            j <= sep.len(),
            forall|k: int| 0 <= k < j ==> s@[pos + k] == sep@[k],
        decreases sep.len() - j,
    {
        if s[pos + j] != sep[j] {
            assert(s@.subrange(pos as int, pos + sep.len())[j as int] != sep@[j as int]);
            return false;
        }
        j = j + 1;
    }
    assert(s@.subrange(pos as int, pos + sep.len()) =~= sep@);
    true
}

/// The first index at or after `from` at which `sep` occurs in `s`.
pub fn find_exec(s: &Vec<char>, sep: &Vec<char>, from: usize) -> (r: Option<usize>)
    requires
        sep.len() > 0,
    ensures
        r matches Some(k) ==> find_from(s@, sep@, from as int) == Some(k as int),
        r is None ==> find_from(s@, sep@, from as int) is None,
{
    let mut i: usize = from;
    while i <= s.len() && sep.len() <= s.len() - i
        invariant
            from <= i,
            sep.len() > 0,
            find_from(s@, sep@, from as int) == find_from(s@, sep@, i as int),
        decreases s.len() - i,
    {
        if occurs_at_exec(s, sep, i) {
            return Some(i);
        }
        i = i + 1;
    }
    None
}

/// `s` split on every occurrence of the non-empty separator `sep`.
pub fn split_exec(s: &Vec<char>, sep: &Vec<char>) -> (r: Vec<Vec<char>>)
    requires
        sep.len() > 0,
    ensures
        views(r@) == split(s@, sep@),
{
    let mut pieces: Vec<Vec<char>> = Vec::new();
    let mut start: usize = 0;
    let mut pos: usize = 0;
    while pos <= s.len() && sep.len() <= s.len() - pos
        invariant
            sep.len() > 0,
            start <= pos <= s.len(),
            views(pieces@) + split_from(s@, sep@, start as int, pos as int) == split(s@, sep@),
        decreases s.len() - pos,
    {
        if occurs_at_exec(s, sep, pos) {
            let piece = copy_range(s, start, pos);
            let ghost before = views(pieces@);
            let ghost rest = split_from(s@, sep@, (pos + sep.len()) as int, (pos + sep.len()) as int);
            pieces.push(piece);
            pos = pos + sep.len();
            start = pos;
            assert(views(pieces@) =~= before.push(piece@));
            assert(before + (seq![piece@] + rest) =~= before.push(piece@) + rest);
        } else {
            pos = pos + 1;
        }
    }
    let ghost before = views(pieces@);
    let last = copy_range(s, start, s.len());
    pieces.push(last);
    assert(views(pieces@) =~= before.push(last@));
    assert(before + seq![last@] =~= before.push(last@));
    pieces
}

/// The whitespace-separated words of `s`.
pub fn words_exec(s: &Vec<char>) -> (r: Vec<Vec<char>>)
    ensures
        views(r@) == words(s@),
{
    let mut out: Vec<Vec<char>> = Vec::new();
    let mut start: Option<usize> = None;
    let mut pos: usize = 0;
    while pos < s.len()
        invariant
            pos <= s.len(),
            start matches Some(a) ==> a < pos,
            views(out@) + words_from(s@, pos as int, match start {
                Some(a) => Some(a as int),
                None => None,
            }) == words(s@),
        decreases s.len() - pos,
    {
        let c = s[pos];
        if is_white_exec(c) {
            if let Some(a) = start {
                let ghost before = views(out@);
                let ghost rest = words_from(s@, pos + 1, None);
                let w = copy_range(s, a, pos);
                out.push(w);
                assert(views(out@) =~= before.push(w@));
                assert(before + (seq![w@] + rest) =~= before.push(w@) + rest);
            }
            start = None;
        } else if start.is_none() {
            start = Some(pos);
        }
        pos = pos + 1;
    }
    if let Some(a) = start {
        let ghost before = views(out@);
        let w = copy_range(s, a, s.len());
        out.push(w);
        assert(views(out@) =~= before.push(w@));
        assert(before + seq![w@] =~= before.push(w@));
    } else {
        assert(views(out@) + seq![] =~= views(out@));
    }
    out
}

/// Whether `c` is whitespace, as `char::is_whitespace` decides it.
pub fn is_white_exec(c: char) -> (r: bool)
    ensures
        r == is_white(c),
{
    c == '\t' || c == '\n' || c == '\u{0B}' || c == '\u{0C}' || c == '\r' || c == ' '
        || c == '\u{85}' || c == '\u{A0}' || c == '\u{1680}' || ('\u{2000}' <= c && c
        <= '\u{200A}') || c == '\u{2028}' || c == '\u{2029}' || c == '\u{202F}' || c
        == '\u{205F}' || c == '\u{3000}'
}

/// `s` with every `%20` replaced by a space; nothing else is decoded.
pub fn decode_spaces_exec(s: &Vec<char>) -> (r: Vec<char>)
    ensures
        r@ == decode_spaces(s@),
{
    let mut out: Vec<char> = Vec::new();
    let mut i: usize = 0;
    assert(s@.subrange(0, s.len() as int) =~= s@);
    assert(out@ + decode_spaces(s@) =~= decode_spaces(s@));
    while i < s.len()
        invariant
            i <= s.len(),
            out@ + decode_spaces(s@.subrange(i as int, s.len() as int)) == decode_spaces(s@),
        decreases s.len() - i,
    {
        let ghost rest = s@.subrange(i as int, s.len() as int);
        let ghost before = out@;
        if s.len() - i >= 3 && s[i] == '%' && s[i + 1] == '2' && s[i + 2] == '0' {
            assert(rest.subrange(0, 3) =~= escaped_space());
            assert(rest.subrange(3, rest.len() as int) =~= s@.subrange(i + 3, s.len() as int));
            out.push(' ');
            i = i + 3;
            assert(before + (seq![' '] + decode_spaces(s@.subrange(i as int, s.len() as int)))
                =~= out@ + decode_spaces(s@.subrange(i as int, s.len() as int)));
        } else {
            let ghost tail = s@.subrange(i + 1, s.len() as int);
            assert(rest.subrange(1, rest.len() as int) =~= tail);
            proof {
                if rest.len() >= 3 {
                    assert(rest.subrange(0, 3)[0] == s@[i as int]);
                    assert(rest.subrange(0, 3)[1] == s@[i + 1]);
                    assert(rest.subrange(0, 3)[2] == s@[i + 2]);
                    assert(rest.subrange(0, 3) != escaped_space());
                } else {
                    assert(rest =~= seq![rest[0]] + tail);
                }
            }
            assert(decode_spaces(rest) == seq![rest[0]] + decode_spaces(tail));
            out.push(s[i]);
            i = i + 1;
            assert(before + (seq![rest[0]] + decode_spaces(tail)) =~= out@ + decode_spaces(tail));
        }
    }
    assert(out@ + decode_spaces(s@.subrange(i as int, s.len() as int)) =~= out@);
    out
}

/// Decoding leaves text without `%20` unchanged: no other escape is touched.
pub proof fn lemma_decode_without_escape(s: Seq<char>)
    requires
        forall|i: int| !occurs_at(s, escaped_space(), i),
    ensures
        decode_spaces(s) == s,
    decreases s.len(),
{
    if s.len() >= 3 {
        assert(!occurs_at(s, escaped_space(), 0));
        let t = s.subrange(1, s.len() as int);
        assert forall|i: int| !occurs_at(t, escaped_space(), i) by {
            if occurs_at(t, escaped_space(), i) {
                assert(s.subrange(i + 1, i + 4) =~= t.subrange(i, i + 3));
                assert(occurs_at(s, escaped_space(), i + 1));
            }
        }
        lemma_decode_without_escape(t);
        assert(seq![s[0]] + t =~= s);
    }
}

} // verus!
