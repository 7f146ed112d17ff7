use vstd::prelude::*;

verus! {

/// `b[i..i+2]` is a line terminator `\r\n`.
pub open spec fn is_crlf_at(b: Seq<u8>, i: int) -> bool {
    0 <= i && i + 1 < b.len() && b[i] == 0x0d && b[i + 1] == 0x0a
}

/// `b[i..i+4]` is the header/body separator `\r\n\r\n`.
pub open spec fn is_sep_at(b: Seq<u8>, i: int) -> bool {
    is_crlf_at(b, i) && is_crlf_at(b, i + 2)
}

/// Position of the first line terminator at or after `from`.
pub fn find_crlf(b: &[u8], from: usize) -> (r: Option<usize>)
    ensures
        match r {
            Some(p) => from <= p && is_crlf_at(b@, p as int) && forall|j: int|
                from <= j < p ==> !is_crlf_at(b@, j),
            None => forall|j: int| from <= j ==> !is_crlf_at(b@, j),
        },
{
    let mut i: usize = from;
    while b.len() >= 2 && i < b.len() - 1
        invariant
            from <= i,
            forall|j: int| from <= j < i ==> !is_crlf_at(b@, j),
        decreases b.len() - i,
    {
        if b[i] == 0x0d && b[i + 1] == 0x0a {
            return Some(i);
        }
        i = i + 1;
    }
    None
}

/// Position of the first header/body separator in `b`.
pub fn find_separator(b: &[u8]) -> (r: Option<usize>)
    ensures
        match r {
            Some(q) => is_sep_at(b@, q as int) && forall|j: int| 0 <= j < q ==> !is_sep_at(b@, j),
            None => forall|j: int| !is_sep_at(b@, j),
        },
{
    let mut i: usize = 0;
    while b.len() >= 4 && i < b.len() - 3
        invariant
            forall|j: int| 0 <= j < i ==> !is_sep_at(b@, j),
        decreases b.len() - i,
    {
        if b[i] == 0x0d && b[i + 1] == 0x0a && b[i + 2] == 0x0d && b[i + 3] == 0x0a {
            return Some(i);
        }
        i = i + 1;
    }
    None
}


/// A structural region inside one transcript: raw byte offsets into the
/// full transcript.
#[derive(Clone, Copy, Debug, PartialEq, Eq)]
pub struct TranscriptSpan {
    pub offset: usize,
    pub length: usize,
}

impl TranscriptSpan {
    pub open spec fn end(self) -> int {
        self.offset + self.length
    }

    /// The span lies inside a transcript of `n` bytes.
    pub open spec fn within(self, n: int) -> bool {
        self.offset + self.length <= n
    }
}

/// One header line (without its terminator), and where its name ends.
#[derive(Clone, Copy, Debug, PartialEq, Eq)]
pub struct HeaderLine {
    pub line: TranscriptSpan,
    /// Offset of the first `:` relative to the start of the line.
    pub colon: Option<usize>,
}

/// The structural decomposition of one HTTP request or response.
#[derive(Clone, Debug)]
pub struct ParsedMessage {
    pub start_line: TranscriptSpan,
    pub headers: Vec<HeaderLine>,
    pub body: Option<TranscriptSpan>,
}

pub open spec fn no_crlf_in(b: Seq<u8>, lo: int, hi: int) -> bool {
    forall|j: int| lo <= j < hi ==> !is_crlf_at(b, j)
}

/// `p` is the first line terminator of `b`.
pub open spec fn is_first_crlf(b: Seq<u8>, p: int) -> bool {
    is_crlf_at(b, p) && no_crlf_in(b, 0, p)
}

/// `q` is the first header/body separator of `b`.
pub open spec fn is_first_sep(b: Seq<u8>, q: int) -> bool {
    is_sep_at(b, q) && forall|j: int| 0 <= j < q ==> !is_sep_at(b, j)
}

/// A transcript has an HTTP structure when it holds a header/body
/// separator (which also provides the start line's terminator).
pub open spec fn has_structure(b: Seq<u8>) -> bool {
    exists|q: int| is_sep_at(b, q)
}

pub open spec fn is_colon_of(b: Seq<u8>, h: HeaderLine) -> bool {
    match h.colon {
        Some(c) => c < h.line.length && b[h.line.offset + c] == 0x3a && forall|j: int|
            h.line.offset <= j < h.line.offset + c ==> b[j] != 0x3a,
        None => forall|j: int| h.line.offset <= j < h.line.end() ==> b[j] != 0x3a,
    }
}

/// `h` is a complete line of `b`: it ends at a terminator and holds none.
pub open spec fn is_line_of(b: Seq<u8>, h: HeaderLine) -> bool {
    is_crlf_at(b, h.line.end()) && no_crlf_in(b, h.line.offset as int, h.line.end())
        && is_colon_of(b, h)
}

/// `hs` are the consecutive lines of `b` that start at `lo`.
pub open spec fn lines_from(b: Seq<u8>, hs: Seq<HeaderLine>, lo: int) -> bool {
    &&& hs.len() > 0 ==> hs[0].line.offset == lo
    &&& forall|k: int| 0 <= k < hs.len() ==> is_line_of(b, #[trigger] hs[k])
    &&& forall|k: int|
        0 <= k < hs.len() - 1 ==> #[trigger] hs[k + 1].line.offset == hs[k].line.end() + 2
}

/// `hs` are exactly the header lines between the start line ending at `p`
/// and the separator at `q`.
pub open spec fn header_lines_of(b: Seq<u8>, hs: Seq<HeaderLine>, p: int, q: int) -> bool {
    if q == p {
        hs.len() == 0
    } else {
        hs.len() > 0 && lines_from(b, hs, p + 2) && hs[hs.len() - 1].line.end() == q
    }
}

/// `m` is the decomposition of `b`.
pub open spec fn parsed_from(b: Seq<u8>, m: ParsedMessage) -> bool {
    exists|p: int, q: int|
        is_first_crlf(b, p) && is_first_sep(b, q) && #[trigger] message_at(b, m, p, q)
}

/// `m` is the decomposition of `b` whose start line ends at `p` and whose
/// separator stands at `q`.
pub open spec fn message_at(b: Seq<u8>, m: ParsedMessage, p: int, q: int) -> bool {
    &&& m.start_line.offset == 0 && m.start_line.length == p
    &&& header_lines_of(b, m.headers@, p, q)
    &&& m.body == (if q + 4 < b.len() {
        Some(TranscriptSpan { offset: (q + 4) as usize, length: (b.len() - q - 4) as usize })
    } else {
        None::<TranscriptSpan>
    })
}

/// Offset of the first `:` in the line `[lo, hi)`.
fn find_colon(b: &[u8], lo: usize, hi: usize) -> (r: Option<usize>)
    requires
        lo <= hi <= b.len(),
    ensures
        is_colon_of(b@, HeaderLine { line: TranscriptSpan { offset: lo, length: (hi - lo) as usize }, colon: r }),
{
    let mut i: usize = lo;
    while i < hi
        invariant
            lo <= i <= hi <= b.len(),
            forall|j: int| lo <= j < i ==> b@[j] != 0x3a,
        decreases hi - i,
    {
        if b[i] == 0x3a {
            return Some(i - lo);
        }
        i = i + 1;
    }
    None
}

/// Splits an HTTP message into its start line, header lines and body.
/// Fails when the transcript holds no header/body separator.
pub fn parse_http_parts(b: &[u8]) -> (r: Option<ParsedMessage>)
    ensures
        r is None <==> !has_structure(b@),
        r matches Some(m) ==> parsed_from(b@, m),
{
    let q = match find_separator(b) {
        Some(q) => q,
        None => return None,
    };
    let p = match find_crlf(b, 0) {
        Some(p) => p,
        None => {
            assert(is_crlf_at(b@, q as int));
            return None;
        },
    };
    assert(p <= q) by {
        if p > q {
            assert(is_crlf_at(b@, q as int));
        }
    }
    let mut headers: Vec<HeaderLine> = Vec::new();
    if q > p {
        assert(q >= p + 2) by {
            if q == p + 1 {
                assert(b@[q as int] == 0x0d);
            }
        }
        let mut pos: usize = p + 2;
        loop
            invariant_except_break
                p + 2 <= pos <= q,
                q + 4 <= b.len(),
                is_sep_at(b@, q as int),
                lines_from(b@, headers@, p + 2),
                headers.len() == 0 ==> pos == p + 2,
                headers.len() > 0 ==> headers@[headers.len() - 1].line.end() + 2 == pos,
            ensures
                lines_from(b@, headers@, p + 2),
                headers.len() > 0,
                headers@[headers.len() - 1].line.end() == q,
            decreases q - pos,
        {
            let e = match find_crlf(b, pos) {
                Some(e) => e,
                None => {
                    assert(is_crlf_at(b@, q as int));
                    return None;
                },
            };
            assert(e <= q);
            let colon = find_colon(b, pos, e);
            let h = HeaderLine { line: TranscriptSpan { offset: pos, length: e - pos }, colon };
            let ghost old_headers = headers@;
            headers.push(h);
            assert forall|k: int| 0 <= k < headers@.len() - 1 implies
                #[trigger] headers@[k + 1].line.offset == headers@[k].line.end() + 2 by {
                if k < old_headers.len() - 1 {
                    assert(old_headers[k + 1] == headers@[k + 1]);
                }
            }
            if e == q {
                break;
            }
            assert(e + 2 <= q) by {
                if e + 1 == q {
                    assert(b@[q as int] == 0x0d);
                }
            }
            pos = e + 2;
        }
    }
    assert(is_crlf_at(b@, q + 2));
    assert(q + 4 <= b@.len());
    let body = if b.len() - q > 4 {
        Some(TranscriptSpan { offset: q + 4, length: b.len() - q - 4 })
    } else {
        None
    };
    let m = ParsedMessage { start_line: TranscriptSpan { offset: 0, length: p }, headers, body };
    assert(message_at(b@, m, p as int, q as int));
    Some(m)
}

} // verus!
