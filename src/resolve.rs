use vstd::prelude::*;
use vstd::utf8::encode_utf8;
use vstd::slice::slice_subrange;
use crate::handler::{Handler, HandlerPart, HandlerType};
use crate::chunked::{
    chunks_from, decode_chunked_body, joined, lemma_chunks_within, lemma_map_back_within, map_back, map_to_body,
};
use crate::json::{find_json_path, lemma_json_path_span_bounds, is_json_document, json_path_span, pair_of, parses_as_json};
use crate::message::{
    is_crlf_at, is_first_crlf, is_first_sep, is_line_of, lines_from, message_at, parsed_from, HeaderLine,
    ParsedMessage,
};

verus! {

/// A half-open byte range `[start, end)` of one transcript.
#[derive(Clone, Copy, Debug, PartialEq, Eq, Structural)]
pub struct ByteRange {
    pub start: usize,
    pub end: usize,
}

impl ByteRange {
    /// `0 <= start <= end <= n`.
    pub open spec fn valid_for(self, n: int) -> bool {
        self.start <= self.end && self.end <= n
    }

    pub open spec fn pair(self) -> (int, int) {
        (self.start as int, self.end as int)
    }
}

pub open spec fn range_pair(r: Option<ByteRange>) -> Option<(int, int)> {
    match r {
        Some(t) => Some(t.pair()),
        None => None,
    }
}

pub open spec fn index_of(r: Option<usize>) -> Option<int> {
    match r {
        Some(i) => Some(i as int),
        None => None,
    }
}

pub open spec fn is_blank(c: u8) -> bool {
    c == 0x20 || c == 0x09
}

/// First position at or after `i` (up to `hi`) that is not a blank.
pub open spec fn skip_blanks(b: Seq<u8>, i: int, hi: int) -> int
    decreases hi - i,
{
    if i < hi && is_blank(b[i]) {
        skip_blanks(b, i + 1, hi)
    } else {
        i
    }
}

/// First position at or after `i` (up to `hi`) that is a blank.
pub open spec fn skip_word(b: Seq<u8>, i: int, hi: int) -> int
    decreases hi - i,
{
    if i < hi && !is_blank(b[i]) {
        skip_word(b, i + 1, hi)
    } else {
        i
    }
}

/// Last position at or before `hi` (down to `lo`) that follows a non-blank.
pub open spec fn trim_end(b: Seq<u8>, lo: int, hi: int) -> int
    decreases hi - lo,
{
    if lo < hi && is_blank(b[hi - 1]) {
        trim_end(b, lo, hi - 1)
    } else {
        hi
    }
}

/// The `k`-th blank-separated token of `b[i..hi]`.
pub open spec fn nth_token(b: Seq<u8>, i: int, hi: int, k: nat) -> Option<(int, int)>
    decreases k,
{
    let s = skip_blanks(b, i, hi);
    if s >= hi {
        None
    } else if k == 0 {
        Some((s, skip_word(b, s, hi)))
    } else {
        nth_token(b, skip_word(b, s, hi), hi, (k - 1) as nat)
    }
}

pub open spec fn ascii_lower(c: u8) -> u8 {
    if 0x41 <= c <= 0x5a {
        (c + 0x20) as u8
    } else {
        c
    }
}

/// The name of header `h` (the bytes before its first `:`) equals `key`,
/// ignoring ASCII case.
pub open spec fn name_matches(b: Seq<u8>, h: HeaderLine, key: Seq<u8>) -> bool {
    &&& h.colon matches Some(c)
    &&& c == key.len()
    &&& forall|j: int| 0 <= j < key.len() ==> ascii_lower(#[trigger] b[h.line.offset + j]) == ascii_lower(key[j])
}

/// Index of the first header from `i` on whose name matches `key`.
pub open spec fn first_named(b: Seq<u8>, hs: Seq<HeaderLine>, key: Seq<u8>, i: int) -> Option<int>
    decreases hs.len() - i,
{
    if i < 0 || i >= hs.len() {
        None
    } else if name_matches(b, hs[i], key) {
        Some(i)
    } else {
        first_named(b, hs, key, i + 1)
    }
}

/// The part of header `h` that a handler reveals: the value alone (blanks
/// trimmed), the name alone, or the whole line.
pub open spec fn header_part(b: Seq<u8>, h: HeaderLine, hide_key: bool, hide_value: bool) -> (int, int) {
    let lo = h.line.offset as int;
    let hi = h.line.end();
    let c = h.colon.unwrap() as int;
    if hide_key {
        let vs = skip_blanks(b, lo + c + 1, hi);
        (vs, trim_end(b, vs, hi))
    } else if hide_value {
        (lo, lo + c)
    } else {
        (lo, hi)
    }
}

/// From the first header line to the end of the last one.
pub open spec fn all_headers(hs: Seq<HeaderLine>) -> Option<(int, int)> {
    if hs.len() == 0 {
        None
    } else {
        Some((hs[0].line.offset as int, hs[hs.len() - 1].line.end()))
    }
}

/// The header key a handler selects, as bytes.
pub open spec fn header_key(h: Handler) -> Option<Seq<u8>> {
    match h.params {
        Some(p) => match p.key {
            Some(k) => Some(encode_utf8(k@)),
            None => None,
        },
        None => None,
    }
}

/// The range of the start line that a start-line sub-part refers to.
pub open spec fn start_line_token(h: Handler, b: Seq<u8>, m: ParsedMessage) -> Option<(int, int)> {
    let hi = m.start_line.length as int;
    match (h.part, h.handler_type) {
        (HandlerPart::Method, HandlerType::Sent) => nth_token(b, 0, hi, 0),
        (HandlerPart::RequestTarget, HandlerType::Sent) => nth_token(b, 0, hi, 1),
        (HandlerPart::StatusCode, HandlerType::Recv) => nth_token(b, 0, hi, 1),
        (HandlerPart::Protocol, HandlerType::Sent) => nth_token(b, 0, hi, 2),
        (HandlerPart::Protocol, HandlerType::Recv) => nth_token(b, 0, hi, 0),
        _ => None,
    }
}

/// The range of the headers that a Headers handler refers to.
pub open spec fn headers_range(h: Handler, b: Seq<u8>, m: ParsedMessage) -> Option<(int, int)> {
    match header_key(h) {
        None => all_headers(m.headers@),
        Some(k) => match first_named(b, m.headers@, k, 0) {
            Some(i) => Some(header_part(b, m.headers@[i], h.hides_key(), h.hides_value())),
            None => None,
        },
    }
}


pub(crate) fn scan_blanks(b: &[u8], i: usize, hi: usize) -> (r: usize)
    requires
        i <= hi <= b.len(),
    ensures
        r == skip_blanks(b@, i as int, hi as int),
        i <= r <= hi,
{
    let mut k: usize = i;
    while k < hi && (b[k] == 0x20 || b[k] == 0x09)
        invariant
            i <= k <= hi <= b.len(),
            skip_blanks(b@, k as int, hi as int) == skip_blanks(b@, i as int, hi as int),
        decreases hi - k,
    {
        k = k + 1;
    }
    k
}

fn scan_word(b: &[u8], i: usize, hi: usize) -> (r: usize)
    requires
        i <= hi <= b.len(),
    ensures
        r == skip_word(b@, i as int, hi as int),
        i <= r <= hi,
{
    let mut k: usize = i;
    while k < hi && !(b[k] == 0x20 || b[k] == 0x09)
        invariant
            i <= k <= hi <= b.len(),
            skip_word(b@, k as int, hi as int) == skip_word(b@, i as int, hi as int),
        decreases hi - k,
    {
        k = k + 1;
    }
    k
}

pub(crate) fn scan_trim_end(b: &[u8], lo: usize, hi: usize) -> (r: usize)
    requires
        lo <= hi <= b.len(),
    ensures
        r == trim_end(b@, lo as int, hi as int),
        lo <= r <= hi,
{
    let mut k: usize = hi;
    while lo < k && (b[k - 1] == 0x20 || b[k - 1] == 0x09)
        invariant
            lo <= k <= hi <= b.len(),
            trim_end(b@, lo as int, k as int) == trim_end(b@, lo as int, hi as int),
        decreases k - lo,
    {
        k = k - 1;
    }
    k
}

/// The `k`-th blank-separated token of `b[0..hi]`.
pub fn token_at(b: &[u8], hi: usize, k: usize) -> (r: Option<ByteRange>)
    requires
        hi <= b.len(),
    ensures
        range_pair(r) == nth_token(b@, 0, hi as int, k as nat),
        r matches Some(t) ==> t.valid_for(hi as int),
{
    let mut i: usize = 0;
    let mut n: usize = k;
    loop
        invariant
            i <= hi <= b.len(),
            n <= k,
            nth_token(b@, i as int, hi as int, n as nat) == nth_token(b@, 0, hi as int, k as nat),
        decreases n,
    {
        let s = scan_blanks(b, i, hi);
        if s >= hi {
            return None;
        }
        let e = scan_word(b, s, hi);
        if n == 0 {
            return Some(ByteRange { start: s, end: e });
        }
        n = n - 1;
        i = e;
    }
}

fn lower(c: u8) -> (r: u8)
    ensures
        r == ascii_lower(c),
{
    if 0x41 <= c && c <= 0x5a {
        c + 0x20
    } else {
        c
    }
}

/// Whether the name of header `h` equals `key`, ignoring ASCII case.
pub fn header_name_matches(b: &[u8], h: &HeaderLine, key: &[u8]) -> (r: bool)
    requires
        is_line_of(b@, *h),
        h.line.within(b@.len() as int),
    ensures
        r == name_matches(b@, *h, key@),
{
    let c = match h.colon {
        Some(c) => c,
        None => return false,
    };
    if c != key.len() {
        return false;
    }
    let mut j: usize = 0;
    while j < c
        invariant
            c == key.len(),
            h.colon == Some(c),
            c < h.line.length,
            h.line.offset + h.line.length <= b.len(),
            j <= c,
            forall|t: int| 0 <= t < j ==> ascii_lower(#[trigger] b@[h.line.offset + t]) == ascii_lower(key@[t]),
        decreases c - j,
    {
        if lower(b[h.line.offset + j]) != lower(key[j]) {
            return false;
        }
        j = j + 1;
    }
    true
}

/// Index of the first header whose name matches `key` (ASCII case-insensitive).
pub fn find_header(b: &[u8], hs: &Vec<HeaderLine>, key: &[u8]) -> (r: Option<usize>)
    requires
        forall|i: int| 0 <= i < hs@.len() ==> is_line_of(b@, #[trigger] hs@[i]) && hs@[i].line.within(b@.len() as int),
    ensures
        index_of(r) == first_named(b@, hs@, key@, 0),
        r matches Some(i) ==> i < hs@.len() && name_matches(b@, hs@[i as int], key@),
{
    let mut i: usize = 0;
    while i < hs.len()
        invariant
            i <= hs@.len(),
            forall|t: int| 0 <= t < hs@.len() ==> is_line_of(b@, #[trigger] hs@[t]) && hs@[t].line.within(b@.len() as int),
            first_named(b@, hs@, key@, i as int) == first_named(b@, hs@, key@, 0),
        decreases hs.len() - i,
    {
        if header_name_matches(b, &hs[i], key) {
            return Some(i);
        }
        i = i + 1;
    }
    None
}


/// `"json"`, the content type that enables JSON paths.
pub open spec fn json_word() -> Seq<u8> {
    seq![0x6a, 0x73, 0x6f, 0x6e]
}

/// The JSON path a Body handler selects, as bytes.
pub open spec fn json_path_of(h: Handler) -> Option<Seq<u8>> {
    match h.params {
        Some(p) => match (p.content_type, p.path) {
            (Some(ct), Some(path)) => if encode_utf8(ct@) == json_word() {
                Some(encode_utf8(path@))
            } else {
                None
            },
            _ => None,
        },
        None => None,
    }
}

/// The span at JSON path `path` of a chunked body whose joined chunks form a
/// JSON document, mapped back to the body; the span must lie within one
/// chunk, else resolution fails.
pub open spec fn chunked_path_span(body: Seq<u8>, path: Seq<u8>, hide_key: bool, hide_value: bool) -> Option<(int, int)> {
    match chunks_from(body, 0) {
        None => None,
        Some(cs) => {
            let d = joined(body, cs);
            if cs.len() == 0 || !is_json_document(d) {
                None
            } else {
                match json_path_span(d, path, hide_key, hide_value) {
                    None => None,
                    Some(t) => map_back(cs, t.0, t.1, 0, 0),
                }
            }
        },
    }
}

/// The range a Body handler refers to: the whole body, or the span at its
/// JSON path when the body, or failing that its chunked decoding, is a JSON
/// document.
pub open spec fn body_range(h: Handler, b: Seq<u8>, m: ParsedMessage) -> Option<(int, int)> {
    match m.body {
        None => None,
        Some(s) => match json_path_of(h) {
            None => Some((s.offset as int, s.end())),
            Some(path) => {
                let body = b.subrange(s.offset as int, s.end());
                if is_json_document(body) {
                    match json_path_span(body, path, h.hides_key(), h.hides_value()) {
                        Some(t) => Some((s.offset + t.0, s.offset + t.1)),
                        None => None,
                    }
                } else {
                    match chunked_path_span(body, path, h.hides_key(), h.hides_value()) {
                        Some(t) => Some((s.offset + t.0, s.offset + t.1)),
                        None => None,
                    }
                }
            },
        },
    }
}

/// The range of transcript `b` (decomposed as `m`) that handler `h` refers
/// to, or `None` when the handler is inapplicable or ambiguous.
pub open spec fn resolved(h: Handler, b: Seq<u8>, m: ParsedMessage) -> Option<(int, int)> {
    if h.is_ambiguous() {
        None
    } else {
        match h.part {
            HandlerPart::All => Some((0, b.len() as int)),
            HandlerPart::StartLine => Some((0, m.start_line.length as int)),
            HandlerPart::Headers => headers_range(h, b, m),
            HandlerPart::Body => body_range(h, b, m),
            _ => start_line_token(h, b, m),
        }
    }
}

/// Structural facts of a decomposition that bound its spans.
pub proof fn lemma_parsed_bounds(b: Seq<u8>, m: ParsedMessage)
    requires
        parsed_from(b, m),
    ensures
        m.start_line.offset == 0,
        m.start_line.length < b.len(),
        forall|i: int| 0 <= i < m.headers@.len() ==> is_line_of(b, #[trigger] m.headers@[i]) && m.headers@[i].line.within(b.len() as int),
        m.headers@.len() > 0 ==> m.headers@[0].line.offset <= m.headers@[m.headers@.len() - 1].line.end(),
        forall|i: int| 0 <= i < m.headers@.len() ==> is_crlf_at(b, (#[trigger] m.headers@[i]).line.offset - 2),
        m.body matches Some(s) ==> s.within(b.len() as int),
{
    let (p, q) = choose|p: int, q: int| is_first_crlf(b, p) && is_first_sep(b, q) && #[trigger] message_at(b, m, p, q);
    assert(is_crlf_at(b, q));
    assert(p <= q);
    if m.headers@.len() > 0 {
        assert(q != p);
        if q == p + 1 {
            assert(b[q] == 0x0d);
        }
    }
    assert forall|i: int| 0 <= i < m.headers@.len() implies is_crlf_at(b, (#[trigger] m.headers@[i]).line.offset - 2) by {
        assert(lines_from(b, m.headers@, p + 2));
        if i > 0 {
            let k = i - 1;
            assert(m.headers@[k + 1].line.offset == m.headers@[k].line.end() + 2);
            assert(is_line_of(b, m.headers@[k]));
        }
    }
    assert forall|i: int| 0 <= i < m.headers@.len() implies is_line_of(b, #[trigger] m.headers@[i]) && m.headers@[i].line.within(b.len() as int) by {
        assert(is_line_of(b, m.headers@[i]));
        assert(is_crlf_at(b, m.headers@[i].line.end()));
    }
}

/// The part of header `h` that the hide flags select.
fn header_slice(b: &[u8], h: &HeaderLine, hide_key: bool, hide_value: bool) -> (r: ByteRange)
    requires
        is_line_of(b@, *h),
        h.line.within(b@.len() as int),
        h.colon is Some,
    ensures
        r.pair() == header_part(b@, *h, hide_key, hide_value),
        h.line.offset <= r.start <= r.end <= h.line.end(),
{
    let n = b.len();
    assert(h.line.end() <= n);
    let lo = h.line.offset;
    let hi = h.line.offset + h.line.length;
    let c = h.colon.unwrap();
    if hide_key {
        let vs = scan_blanks(b, lo + c + 1, hi);
        let ve = scan_trim_end(b, vs, hi);
        ByteRange { start: vs, end: ve }
    } else if hide_value {
        ByteRange { start: lo, end: lo + c }
    } else {
        ByteRange { start: lo, end: hi }
    }
}

/// Whether the handler hides the key, and whether it hides the value.
fn hide_flags(h: &Handler) -> (r: (bool, bool))
    ensures
        r.0 == h.hides_key(),
        r.1 == h.hides_value(),
{
    match &h.params {
        Some(p) => (p.hide_key == Some(true), p.hide_value == Some(true)),
        None => (false, false),
    }
}

/// The JSON path of a handler whose content type is `json`, as bytes.
fn json_path_bytes(h: &Handler) -> (r: Option<&[u8]>)
    ensures
        match r {
            Some(x) => json_path_of(*h) == Some(x@),
            None => json_path_of(*h) is None,
        },
{
    match &h.params {
        Some(p) => match (&p.content_type, &p.path) {
            (Some(ct), Some(path)) => {
                let word: [u8; 4] = [0x6a, 0x73, 0x6f, 0x6e];
                let cb = ct.as_str().as_bytes();
                let mut same = cb.len() == 4;
                if same {
                    let mut i: usize = 0;
                    while i < 4
                        invariant
                            cb@.len() == 4,
                            word@ == json_word(),
                            i <= 4,
                            same == (forall|t: int| 0 <= t < i ==> cb@[t] == json_word()[t]),
                        decreases 4 - i,
                    {
                        same = same && cb[i] == word[i];
                        i = i + 1;
                    }
                    assert(same ==> cb@ =~= json_word());
                }
                if same {
                    Some(path.as_str().as_bytes())
                } else {
                    None
                }
            },
            _ => None,
        },
        None => None,
    }
}

/// Locates the span at JSON path `path` of a chunked body.
fn find_chunked_path(body: &[u8], path: &[u8], hide_key: bool, hide_value: bool) -> (r: Option<(usize, usize)>)
    ensures
        pair_of(r) == chunked_path_span(body@, path@, hide_key, hide_value),
        r matches Some(t) ==> t.0 <= t.1 <= body@.len(),
{
    let (spans, data) = match decode_chunked_body(body) {
        Some(d) => d,
        None => return None,
    };
    let ghost cs = spans@.map_values(|c: (usize, usize)| (c.0 as int, c.1 as int));
    if spans.len() == 0 {
        return None;
    }
    let t = match find_json_path(data.as_slice(), path, hide_key, hide_value) {
        Some(t) => t,
        None => return None,
    };
    assert forall|k: int| 0 <= k < spans@.len() implies (#[trigger] spans@[k]).0 <= spans@[k].1 by {
        assert(cs[k] == (spans@[k].0 as int, spans@[k].1 as int));
    }
    let r = map_to_body(&spans, t.0, t.1);
    proof {
        if let Some(u) = r {
            let k = choose|k: int| 0 <= k < spans@.len() && spans@[k].0 <= u.0 && u.1 <= spans@[k].1;
            assert(cs[k] == (spans@[k].0 as int, spans@[k].1 as int));
        }
    }
    r
}

/// Resolves handler `h` against transcript `b`, decomposed as `m`, to the
/// byte range it refers to. Every resolved range lies inside the transcript.
pub fn resolve(h: &Handler, b: &[u8], m: &ParsedMessage) -> (r: Option<ByteRange>)
    requires
        parsed_from(b@, *m),
    ensures
        range_pair(r) == resolved(*h, b@, *m),
        r matches Some(t) ==> t.valid_for(b@.len() as int),
{
    proof {
        lemma_parsed_bounds(b@, *m);
    }
    let n = b.len();
    if h.ambiguous() {
        return None;
    }
    match h.part {
        HandlerPart::All => Some(ByteRange { start: 0, end: b.len() }),
        HandlerPart::StartLine => Some(ByteRange { start: 0, end: m.start_line.length }),
        HandlerPart::Headers => {
            let key = match &h.params {
                Some(p) => match &p.key {
                    Some(k) => Some(k.as_str().as_bytes()),
                    None => None,
                },
                None => None,
            };
            match key {
                None => {
                    if m.headers.len() == 0 {
                        None
                    } else {
                        let last = m.headers.len() - 1;
                        assert(m.headers@[last as int].line.within(n as int));
                        Some(ByteRange {
                            start: m.headers[0].line.offset,
                            end: m.headers[last].line.offset + m.headers[last].line.length,
                        })
                    }
                },
                Some(k) => match find_header(b, &m.headers, k) {
                    Some(i) => {
                        let (hk, hv) = hide_flags(h);
                        Some(header_slice(b, &m.headers[i], hk, hv))
                    },
                    None => None,
                },
            }
        },
        HandlerPart::Body => match m.body {
            None => None,
            Some(s) => match json_path_bytes(h) {
                None => Some(ByteRange { start: s.offset, end: s.offset + s.length }),
                Some(path) => {
                    let body = slice_subrange(b, s.offset, s.offset + s.length);
                    let (hk, hv) = hide_flags(h);
                    let t = if parses_as_json(body) {
                        find_json_path(body, path, hk, hv)
                    } else {
                        find_chunked_path(body, path, hk, hv)
                    };
                    match t {
                        Some(t) => Some(ByteRange { start: s.offset + t.0, end: s.offset + t.1 }),
                        None => None,
                    }
                },
            },
        },
        _ => {
            let k: usize = match (h.part, h.handler_type) {
                (HandlerPart::Method, HandlerType::Sent) => 0,
                (HandlerPart::RequestTarget, HandlerType::Sent) => 1,
                (HandlerPart::StatusCode, HandlerType::Recv) => 1,
                (HandlerPart::Protocol, HandlerType::Sent) => 2,
                (HandlerPart::Protocol, HandlerType::Recv) => 0,
                _ => return None,
            };
            token_at(b, m.start_line.length, k)
        },
    }
}

} // verus!

verus! {

proof fn lemma_skip_bounds(b: Seq<u8>, i: int, hi: int)
    requires
        i <= hi,
    ensures
        i <= skip_blanks(b, i, hi) <= hi,
        i <= skip_word(b, i, hi) <= hi,
    decreases hi - i,
{
    if i < hi {
        lemma_skip_bounds(b, i + 1, hi);
    }
}

proof fn lemma_trim_end_bounds(b: Seq<u8>, lo: int, hi: int)
    requires
        lo <= hi,
    ensures
        lo <= trim_end(b, lo, hi) <= hi,
    decreases hi - lo,
{
    if lo < hi {
        lemma_trim_end_bounds(b, lo, hi - 1);
    }
}

proof fn lemma_nth_token_bounds(b: Seq<u8>, i: int, hi: int, k: nat)
    requires
        i <= hi,
    ensures
        nth_token(b, i, hi, k) matches Some(t) ==> i <= t.0 <= t.1 <= hi,
    decreases k,
{
    lemma_skip_bounds(b, i, hi);
    let s = skip_blanks(b, i, hi);
    if s < hi {
        lemma_skip_bounds(b, s, hi);
        if k > 0 {
            lemma_nth_token_bounds(b, skip_word(b, s, hi), hi, (k - 1) as nat);
        }
    }
}

proof fn lemma_first_named(b: Seq<u8>, hs: Seq<HeaderLine>, key: Seq<u8>, i: int)
    ensures
        first_named(b, hs, key, i) matches Some(k) ==> 0 <= i <= k < hs.len() && name_matches(b, hs[k], key),
    decreases hs.len() - i,
{
    if 0 <= i < hs.len() && !name_matches(b, hs[i], key) {
        lemma_first_named(b, hs, key, i + 1);
    }
}

/// Every range a handler resolves to lies inside its transcript and is not
/// inverted: `0 <= start <= end <= b.len()`.
pub proof fn lemma_resolved_within(h: Handler, b: Seq<u8>, m: ParsedMessage)
    requires
        parsed_from(b, m),
    ensures
        resolved(h, b, m) matches Some(t) ==> 0 <= t.0 <= t.1 <= b.len(),
{
    lemma_parsed_bounds(b, m);
    let hi = m.start_line.length as int;
    lemma_nth_token_bounds(b, 0, hi, 0);
    lemma_nth_token_bounds(b, 0, hi, 1);
    lemma_nth_token_bounds(b, 0, hi, 2);
    if let Some(k) = header_key(h) {
        lemma_first_named(b, m.headers@, k, 0);
        if let Some(i) = first_named(b, m.headers@, k, 0) {
            let hl = m.headers@[i];
            let c = hl.colon.unwrap() as int;
            lemma_skip_bounds(b, hl.line.offset + c + 1, hl.line.end());
            let vs = skip_blanks(b, hl.line.offset + c + 1, hl.line.end());
            lemma_trim_end_bounds(b, vs, hl.line.end());
        }
    }
    if let Some(s) = m.body {
        let body = b.subrange(s.offset as int, s.end());
        if let Some(path) = json_path_of(h) {
            lemma_json_path_span_bounds(body, path, h.hides_key(), h.hides_value());
            lemma_chunks_within(body, 0);
            if let Some(cs) = chunks_from(body, 0) {
                let d = joined(body, cs);
                lemma_json_path_span_bounds(d, path, h.hides_key(), h.hides_value());
                if let Some(t) = json_path_span(d, path, h.hides_key(), h.hides_value()) {
                    lemma_map_back_within(cs, t.0, t.1, 0, 0, body.len() as int);
                }
            }
        }
    }
}

} // verus!
