use vstd::prelude::*;
use vstd::slice::slice_subrange;
use crate::message::is_crlf_at;
use crate::resolve::{skip_blanks, trim_end};

verus! {

/// First line terminator at or after `i`.
pub open spec fn crlf_from(b: Seq<u8>, i: int) -> Option<int>
    decreases b.len() - i,
{
    if i < 0 || i + 1 >= b.len() {
        None
    } else if is_crlf_at(b, i) {
        Some(i)
    } else {
        crlf_from(b, i + 1)
    }
}

pub open spec fn is_hex_digit(c: u8) -> bool {
    (0x30 <= c <= 0x39) || (0x61 <= c <= 0x66) || (0x41 <= c <= 0x46)
}

pub open spec fn hex_digit_value(c: u8) -> nat {
    if 0x30 <= c <= 0x39 {
        (c - 0x30) as nat
    } else if 0x61 <= c <= 0x66 {
        (c - 0x61 + 10) as nat
    } else {
        (c - 0x41 + 10) as nat
    }
}

/// The hexadecimal number written in `b[lo..hi]`.
pub open spec fn hex_value(b: Seq<u8>, lo: int, hi: int) -> nat
    decreases hi - lo,
{
    if lo < hi {
        hex_value(b, lo, hi - 1) * 16 + hex_digit_value(b[hi - 1])
    } else {
        0
    }
}

/// The chunk size written on the line `b[lo..hi]` (blanks trimmed), if it
/// is a non-empty hexadecimal number of machine size.
pub open spec fn chunk_size(b: Seq<u8>, lo: int, hi: int) -> Option<nat> {
    let s = skip_blanks(b, lo, hi);
    let e = trim_end(b, s, hi);
    if s < e && (forall|k: int| s <= k < e ==> is_hex_digit(#[trigger] b[k])) && hex_value(b, s, e) <= usize::MAX {
        Some(hex_value(b, s, e))
    } else {
        None
    }
}

/// The data spans of the chunks of a chunked body, from offset `pos` on.
/// Decoding stops at the last (zero-size) chunk or at a chunk that runs past
/// the end; a size line without terminator or with a malformed size fails.
pub open spec fn chunks_from(b: Seq<u8>, pos: int) -> Option<Seq<(int, int)>>
    decreases b.len() - pos,
{
    if pos < 0 || pos >= b.len() {
        Some(Seq::empty())
    } else {
        match crlf_from(b, pos) {
            None => None,
            Some(e) => match chunk_size(b, pos, e) {
                None => None,
                Some(size) => {
                    let ds = e + 2;
                    let de = ds + size;
                    if size == 0 || de > b.len() {
                        Some(Seq::empty())
                    } else if de + 2 <= pos {
                        None
                    } else if de + 2 >= b.len() {
                        Some(seq![(ds, de)])
                    } else {
                        match chunks_from(b, de + 2) {
                            None => None,
                            Some(rest) => Some(seq![(ds, de)] + rest),
                        }
                    }
                },
            },
        }
    }
}

/// The bytes of the chunks `cs` of `b`, joined.
pub open spec fn joined(b: Seq<u8>, cs: Seq<(int, int)>) -> Seq<u8>
    decreases cs.len(),
{
    if cs.len() == 0 {
        Seq::empty()
    } else {
        joined(b, cs.drop_last()) + b.subrange(cs.last().0, cs.last().1)
    }
}

/// Maps the range `[s, e)` of the joined chunks back to the body, when it
/// lies within a single chunk; `at` is where chunk `k` starts in the
/// joined bytes.
pub open spec fn map_back(cs: Seq<(int, int)>, s: int, e: int, k: int, at: int) -> Option<(int, int)>
    decreases cs.len() - k,
{
    if k < 0 || k >= cs.len() {
        None
    } else {
        let len = cs[k].1 - cs[k].0;
        if at <= s && e <= at + len {
            Some((cs[k].0 + s - at, cs[k].0 + e - at))
        } else {
            map_back(cs, s, e, k + 1, at + len)
        }
    }
}

/// All chunk spans lie inside `b`, in order.
pub open spec fn spans_within(cs: Seq<(int, int)>, n: int) -> bool {
    forall|k: int| 0 <= k < cs.len() ==> 0 <= (#[trigger] cs[k]).0 <= cs[k].1 <= n
}

fn find_crlf_from(b: &[u8], i: usize) -> (r: Option<usize>)
    requires
        i <= b.len(),
    ensures
        crate::resolve::index_of(r) == crlf_from(b@, i as int),
        r matches Some(e) ==> i <= e && e + 2 <= b.len(),
{
    let mut k: usize = i;
    while b.len() >= 2 && k < b.len() - 1
        invariant
            i <= k <= b.len(),
            crlf_from(b@, k as int) == crlf_from(b@, i as int),
        decreases b.len() - k,
    {
        if b[k] == 0x0d && b[k + 1] == 0x0a {
            return Some(k);
        }
        k = k + 1;
    }
    None
}

fn parse_chunk_size(b: &[u8], lo: usize, hi: usize) -> (r: Option<usize>)
    requires
        lo <= hi <= b.len(),
    ensures
        match chunk_size(b@, lo as int, hi as int) {
            Some(n) => r == Some(n as usize),
            None => r is None,
        },
{
    let s = crate::resolve::scan_blanks(b, lo, hi);
    let e = crate::resolve::scan_trim_end(b, s, hi);
    if s >= e {
        return None;
    }
    let mut k: usize = s;
    let mut acc: usize = 0;
    while k < e
        invariant
            s <= k <= e <= b.len(),
            s < e,
            s == skip_blanks(b@, lo as int, hi as int),
            e == trim_end(b@, s as int, hi as int),
            forall|t: int| s <= t < k ==> is_hex_digit(#[trigger] b@[t]),
            acc == hex_value(b@, s as int, k as int),
        decreases e - k,
    {
        let c = b[k];
        let d: usize = if 0x30 <= c && c <= 0x39 {
            (c - 0x30) as usize
        } else if 0x61 <= c && c <= 0x66 {
            (c - 0x61 + 10) as usize
        } else if 0x41 <= c && c <= 0x46 {
            (c - 0x41 + 10) as usize
        } else {
            assert(!is_hex_digit(b@[k as int]));
            return None;
        };
        if acc > (usize::MAX - d) / 16 {
            proof {
                assert(hex_value(b@, s as int, k + 1) == acc * 16 + d);
                assert(acc * 16 + d > usize::MAX) by (nonlinear_arith)
                    requires
                        acc > (usize::MAX - d) / 16,
                        d <= 15,
                ;
                lemma_hex_grows(b@, s as int, k + 1, e as int);
            }
            return None;
        }
        acc = acc * 16 + d;
        k = k + 1;
    }
    Some(acc)
}

proof fn lemma_hex_grows(b: Seq<u8>, lo: int, k: int, hi: int)
    requires
        lo <= k <= hi <= b.len(),
    ensures
        hex_value(b, lo, k) <= hex_value(b, lo, hi),
    decreases hi - k,
{
    if k < hi {
        lemma_hex_grows(b, lo, k, hi - 1);
    }
}

/// Decodes a chunked transfer-encoded body: the data span of each chunk, in
/// order, and their bytes joined. `None` when a size line is malformed or
/// when no chunk carries data.
pub fn decode_chunked_body(b: &[u8]) -> (r: Option<(Vec<(usize, usize)>, Vec<u8>)>)
    ensures
        match chunks_from(b@, 0) {
            Some(cs) => if cs.len() > 0 {
                r matches Some(d) && d.0@.map_values(|c: (usize, usize)| (c.0 as int, c.1 as int)) == cs
                    && d.1@ == joined(b@, cs) && spans_within(cs, b@.len() as int)
            } else {
                r is None
            },
            None => r is None,
        },
{
    match split_chunks(b) {
        Some(d) => {
            if d.0.len() == 0 {
                assert(d.0@.map_values(|c: (usize, usize)| (c.0 as int, c.1 as int)).len() == 0);
                None
            } else {
                Some(d)
            }
        },
        None => None,
    }
}

/// The chunk spans and joined data of a chunked body, as `chunks_from`
/// gives them.
fn split_chunks(b: &[u8]) -> (r: Option<(Vec<(usize, usize)>, Vec<u8>)>)
    ensures
        match chunks_from(b@, 0) {
            Some(cs) => r matches Some(d) && d.0@.map_values(|c: (usize, usize)| (c.0 as int, c.1 as int)) == cs
                && d.1@ == joined(b@, cs) && spans_within(cs, b@.len() as int),
            None => r is None,
        },
{
    let mut spans: Vec<(usize, usize)> = Vec::new();
    let mut data: Vec<u8> = Vec::new();
    let mut pos: usize = 0;
    let ghost mut seen: Seq<(int, int)> = Seq::empty();
    loop
        invariant
            seen == spans@.map_values(|c: (usize, usize)| (c.0 as int, c.1 as int)),
            data@ == joined(b@, seen),
            spans_within(seen, b@.len() as int),
            chunks_from(b@, 0) == match chunks_from(b@, pos as int) {
                Some(rest) => Some(seen + rest),
                None => None::<Seq<(int, int)>>,
            },
        decreases b.len() - pos,
    {
        if pos >= b.len() {
            assert(seen + Seq::<(int, int)>::empty() =~= seen);
            return Some((spans, data));
        }
        let e = match find_crlf_from(b, pos) {
            Some(e) => e,
            None => return None,
        };
        let size = match parse_chunk_size(b, pos, e) {
            Some(n) => n,
            None => return None,
        };
        let ds = e + 2;
        if size == 0 || size > b.len() - ds {
            assert(seen + Seq::<(int, int)>::empty() =~= seen);
            return Some((spans, data));
        }
        let de = ds + size;
        let ghost old_seen = seen;
        let chunk = slice_subrange(b, ds, de);
        let mut i: usize = 0;
        let ghost start = data@;
        while i < chunk.len()
            invariant
                i <= chunk@.len(),
                data@ == start + chunk@.subrange(0, i as int),
            decreases chunk.len() - i,
        {
            data.push(chunk[i]);
            i = i + 1;
            assert(data@ =~= start + chunk@.subrange(0, i as int));
        }
        spans.push((ds, de));
        proof {
            seen = old_seen.push((ds as int, de as int));
            assert(seen.drop_last() =~= old_seen);
            assert(spans@.map_values(|c: (usize, usize)| (c.0 as int, c.1 as int)) =~= seen);
            assert(chunk@.subrange(0, chunk@.len() as int) =~= chunk@);
            assert forall|k: int| 0 <= k < seen.len() implies 0 <= (#[trigger] seen[k]).0 <= seen[k].1 <= b@.len() by {
                if k < old_seen.len() {
                    assert(seen[k] == old_seen[k]);
                }
            }
            if de + 2 >= b@.len() {
                assert(old_seen + seq![(ds as int, de as int)] =~= seen);
                assert(chunks_from(b@, de + 2) == Some(Seq::<(int, int)>::empty()));
                assert(seen + Seq::<(int, int)>::empty() =~= seen);
            } else if let Some(rest) = chunks_from(b@, de + 2) {
                assert(old_seen + (seq![(ds as int, de as int)] + rest) =~= seen + rest);
            }
        }
        if b.len() - de < 2 {
            return Some((spans, data));
        }
        pos = de + 2;
    }
}

proof fn lemma_map_back_past(cs: Seq<(int, int)>, s: int, e: int, k: int, at: int)
    requires
        s < at,
        forall|t: int| 0 <= t < cs.len() ==> (#[trigger] cs[t]).0 <= cs[t].1,
    ensures
        map_back(cs, s, e, k, at) is None,
    decreases cs.len() - k,
{
    if 0 <= k < cs.len() {
        lemma_map_back_past(cs, s, e, k + 1, at + cs[k].1 - cs[k].0);
    }
}

/// Maps the range `[s, e)` of the joined chunk bytes back to the body when
/// it lies within one chunk.
pub fn map_to_body(spans: &Vec<(usize, usize)>, s: usize, e: usize) -> (r: Option<(usize, usize)>)
    requires
        s <= e,
        forall|k: int| 0 <= k < spans@.len() ==> (#[trigger] spans@[k]).0 <= spans@[k].1,
    ensures
        crate::json::pair_of(r) == map_back(spans@.map_values(|c: (usize, usize)| (c.0 as int, c.1 as int)), s as int, e as int, 0, 0),
        r matches Some(t) ==> t.0 <= t.1 && exists|k: int| 0 <= k < spans@.len() && spans@[k].0 <= t.0 && t.1 <= spans@[k].1,
{
    let ghost cs = spans@.map_values(|c: (usize, usize)| (c.0 as int, c.1 as int));
    let mut k: usize = 0;
    let mut at: usize = 0;
    while k < spans.len()
        invariant
            s <= e,
            k <= spans@.len(),
            cs == spans@.map_values(|c: (usize, usize)| (c.0 as int, c.1 as int)),
            forall|t: int| 0 <= t < spans@.len() ==> (#[trigger] spans@[t]).0 <= spans@[t].1,
            forall|t: int| 0 <= t < cs.len() ==> (#[trigger] cs[t]).0 <= cs[t].1,
            map_back(cs, s as int, e as int, k as int, at as int) == map_back(cs, s as int, e as int, 0, 0),
        decreases spans.len() - k,
    {
        let (lo, hi) = spans[k];
        assert(cs[k as int] == (lo as int, hi as int));
        let len = hi - lo;
        if at <= s && e - at <= len {
            return Some((lo + (s - at), lo + (e - at)));
        }
        if len > usize::MAX - at {
            proof {
                lemma_map_back_past(cs, s as int, e as int, k + 1, at + len);
            }
            return None;
        }
        at = at + len;
        k = k + 1;
    }
    None
}

} // verus!

verus! {

proof fn lemma_crlf_from_bounds(b: Seq<u8>, i: int)
    ensures
        crlf_from(b, i) matches Some(e) ==> i <= e && e + 2 <= b.len(),
    decreases b.len() - i,
{
    if 0 <= i && i + 1 < b.len() && !is_crlf_at(b, i) {
        lemma_crlf_from_bounds(b, i + 1);
    }
}

/// The chunk spans of a body lie inside it, in order.
pub proof fn lemma_chunks_within(b: Seq<u8>, pos: int)
    ensures
        chunks_from(b, pos) matches Some(cs) ==> spans_within(cs, b.len() as int),
    decreases b.len() - pos,
{
    if 0 <= pos < b.len() {
        lemma_crlf_from_bounds(b, pos);
        if let Some(e) = crlf_from(b, pos) {
            if let Some(size) = chunk_size(b, pos, e) {
                let ds = e + 2;
                let de = ds + size;
                if !(size == 0 || de > b.len()) && !(de + 2 <= pos) && !(de + 2 >= b.len()) {
                    lemma_chunks_within(b, de + 2);
                    if let Some(rest) = chunks_from(b, de + 2) {
                        let cs = seq![(ds, de)] + rest;
                        assert forall|k: int| 0 <= k < cs.len() implies 0 <= (#[trigger] cs[k]).0 <= cs[k].1 <= b.len() by {
                            if k > 0 {
                                assert(cs[k] == rest[k - 1]);
                            }
                        }
                    }
                }
            }
        }
    }
}

/// A range mapped back from the joined chunks lies within one chunk.
pub proof fn lemma_map_back_within(cs: Seq<(int, int)>, s: int, e: int, k: int, at: int, n: int)
    requires
        s <= e,
        spans_within(cs, n),
    ensures
        map_back(cs, s, e, k, at) matches Some(t) ==> 0 <= t.0 <= t.1 <= n,
    decreases cs.len() - k,
{
    if 0 <= k < cs.len() {
        lemma_map_back_within(cs, s, e, k + 1, at + cs[k].1 - cs[k].0, n);
    }
}

} // verus!
