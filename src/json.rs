use vstd::prelude::*;
use vstd::slice::slice_subrange;
use crate::resolve::index_of;
use crate::chunked::{hex_value, is_hex_digit};

verus! {

/// Whether the bytes form one JSON document, as serde_json decides.
pub uninterp spec fn is_json_document(b: Seq<u8>) -> bool;

/// Relies on serde_json::from_slice: whether the bytes parse as a JSON value.
#[verifier::external_body]
pub(crate) fn parses_as_json(b: &[u8]) -> (r: bool)
    ensures
        r == is_json_document(b@),
{
    serde_json::from_slice::<serde_json::Value>(b).is_ok()
}

// ---------------------------------------------------------------------------
// Byte-level structure of a JSON document, enough to locate the span of a
// member or element. Whether a body is JSON at all is decided by serde_json.
// ---------------------------------------------------------------------------

pub open spec fn is_json_ws(c: u8) -> bool {
    c == 0x20 || c == 0x09 || c == 0x0a || c == 0x0d
}

/// First position at or after `i` that is not JSON whitespace.
pub open spec fn ws_end(j: Seq<u8>, i: int) -> int
    decreases j.len() - i,
{
    if 0 <= i < j.len() && is_json_ws(j[i]) {
        ws_end(j, i + 1)
    } else {
        i
    }
}

/// End (just past the closing quote) of a string whose contents start at
/// `i`; `esc` holds when the previous byte was an unconsumed backslash.
pub open spec fn string_close(j: Seq<u8>, i: int, esc: bool) -> Option<int>
    decreases j.len() - i,
{
    if i < 0 || i >= j.len() {
        None
    } else if esc {
        string_close(j, i + 1, false)
    } else if j[i] == 0x5c {
        string_close(j, i + 1, true)
    } else if j[i] == 0x22 {
        Some(i + 1)
    } else {
        string_close(j, i + 1, false)
    }
}

/// End of the container whose opening bracket precedes `i`, at nesting
/// `depth`, skipping over strings.
pub open spec fn container_close(j: Seq<u8>, i: int, depth: nat, in_str: bool, esc: bool) -> Option<int>
    decreases j.len() - i,
{
    if i < 0 || i >= j.len() {
        None
    } else if in_str {
        if esc {
            container_close(j, i + 1, depth, true, false)
        } else if j[i] == 0x5c {
            container_close(j, i + 1, depth, true, true)
        } else if j[i] == 0x22 {
            container_close(j, i + 1, depth, false, false)
        } else {
            container_close(j, i + 1, depth, true, false)
        }
    } else if j[i] == 0x22 {
        container_close(j, i + 1, depth, true, false)
    } else if j[i] == 0x7b || j[i] == 0x5b {
        container_close(j, i + 1, depth + 1, false, false)
    } else if j[i] == 0x7d || j[i] == 0x5d {
        if depth <= 1 {
            Some(i + 1)
        } else {
            container_close(j, i + 1, (depth - 1) as nat, false, false)
        }
    } else {
        container_close(j, i + 1, depth, false, false)
    }
}

pub open spec fn ends_scalar(c: u8) -> bool {
    is_json_ws(c) || c == 0x2c || c == 0x7d || c == 0x5d
}

/// End of a number or literal starting at `i`.
pub open spec fn scalar_end(j: Seq<u8>, i: int) -> int
    decreases j.len() - i,
{
    if 0 <= i < j.len() && !ends_scalar(j[i]) {
        scalar_end(j, i + 1)
    } else {
        i
    }
}

/// End of the JSON value that starts at `i`.
pub open spec fn value_end(j: Seq<u8>, i: int) -> Option<int> {
    if i < 0 || i >= j.len() {
        None
    } else if j[i] == 0x22 {
        string_close(j, i + 1, false)
    } else if j[i] == 0x7b || j[i] == 0x5b {
        container_close(j, i + 1, 1, false, false)
    } else if scalar_end(j, i) > i {
        Some(scalar_end(j, i))
    } else {
        None
    }
}

/// The byte that a one-character escape `\\c` stands for.
pub open spec fn simple_escape(c: u8) -> Option<u8> {
    if c == 0x22 || c == 0x5c || c == 0x2f {
        Some(c)
    } else if c == 0x62 {
        Some(0x08u8)
    } else if c == 0x66 {
        Some(0x0cu8)
    } else if c == 0x6e {
        Some(0x0au8)
    } else if c == 0x72 {
        Some(0x0du8)
    } else if c == 0x74 {
        Some(0x09u8)
    } else {
        None
    }
}

/// The four hexadecimal digits at `j[i..i+4]`, as a number.
pub open spec fn hex4(j: Seq<u8>, i: int) -> Option<nat> {
    if 0 <= i && i + 4 <= j.len() && (forall|k: int| i <= k < i + 4 ==> is_hex_digit(#[trigger] j[k])) {
        Some(hex_value(j, i, i + 4))
    } else {
        None
    }
}

/// The UTF-8 encoding of code point `cp`.
pub open spec fn utf8_of(cp: nat) -> Seq<u8> {
    if cp < 0x80 {
        seq![cp as u8]
    } else if cp < 0x800 {
        seq![(0xc0 + cp / 64) as u8, (0x80 + cp % 64) as u8]
    } else if cp < 0x10000 {
        seq![(0xe0 + cp / 4096) as u8, (0x80 + (cp / 64) % 64) as u8, (0x80 + cp % 64) as u8]
    } else {
        seq![
            (0xf0 + cp / 262144) as u8,
            (0x80 + (cp / 4096) % 64) as u8,
            (0x80 + (cp / 64) % 64) as u8,
            (0x80 + cp % 64) as u8,
        ]
    }
}

/// The code point that the escape `\\uXXXX` at `i` (with a following low
/// surrogate escape, for a high surrogate) stands for, and its length.
pub open spec fn unicode_escape(j: Seq<u8>, i: int, hi: int) -> Option<(nat, int)> {
    if i + 6 <= hi && j[i + 1] == 0x75 && hex4(j, i + 2) is Some {
        let u = hex4(j, i + 2).unwrap();
        if 0xd800 <= u < 0xdc00 && i + 12 <= hi && j[i + 6] == 0x5c && j[i + 7] == 0x75
            && (hex4(j, i + 8) matches Some(l) && 0xdc00 <= l < 0xe000) {
            Some(((0x10000 + (u - 0xd800) * 1024 + (hex4(j, i + 8).unwrap() - 0xdc00)) as nat, 12))
        } else {
            Some((u, 6))
        }
    } else {
        None
    }
}

/// The bytes that the string contents `j[i..hi]` stand for, escapes
/// decoded.
pub open spec fn unescape(j: Seq<u8>, i: int, hi: int) -> Seq<u8>
    decreases hi - i,
{
    if i < 0 || i >= hi || hi > j.len() {
        Seq::empty()
    } else if j[i] != 0x5c || i + 1 >= hi {
        seq![j[i]] + unescape(j, i + 1, hi)
    } else {
        match simple_escape(j[i + 1]) {
            Some(x) => seq![x] + unescape(j, i + 2, hi),
            None => match unicode_escape(j, i, hi) {
                Some(u) => utf8_of(u.0) + unescape(j, i + u.1, hi),
                None => seq![j[i]] + unescape(j, i + 1, hi),
            },
        }
    }
}

/// The member named `key` of the object whose members start at `i`:
/// `(key_start, key_end, value_start, value_end)`, the key with its quotes.
/// Keys are compared once their escapes are decoded; of members with the
/// same name the last one counts, as in serde_json's view of the document.
pub open spec fn member_at(j: Seq<u8>, i: int, key: Seq<u8>) -> Option<(int, int, int, int)>
    decreases j.len() - i,
{
    let s = ws_end(j, i);
    if !(0 <= s < j.len() && j[s] == 0x22) {
        None
    } else {
        match string_close(j, s + 1, false) {
            None => None,
            Some(ke) => {
                let c = ws_end(j, ke);
                if !(0 <= c < j.len() && j[c] == 0x3a) {
                    None
                } else {
                    let vs = ws_end(j, c + 1);
                    match value_end(j, vs) {
                        None => None,
                        Some(ve) => {
                            let here = if unescape(j, s + 1, ke - 1) == key {
                                Some((s, ke, vs, ve))
                            } else {
                                None
                            };
                            let n = ws_end(j, ve);
                            let later = if 0 <= i < n + 1 <= j.len() && j[n] == 0x2c {
                                member_at(j, n + 1, key)
                            } else {
                                None
                            };
                            if later is Some {
                                later
                            } else {
                                here
                            }
                        },
                    }
                }
            },
        }
    }
}

/// Element `idx` of the array whose elements start at `i`.
pub open spec fn element_at(j: Seq<u8>, i: int, idx: nat) -> Option<(int, int)>
    decreases j.len() - i,
{
    let s = ws_end(j, i);
    match value_end(j, s) {
        None => None,
        Some(ve) => if idx == 0 {
            Some((s, ve))
        } else {
            let n = ws_end(j, ve);
            if 0 <= i < n + 1 <= j.len() && j[n] == 0x2c {
                element_at(j, n + 1, (idx - 1) as nat)
            } else {
                None
            }
        },
    }
}


/// End of the path segment that starts at `lo` (the next `.`, or the end).
pub open spec fn seg_end(p: Seq<u8>, lo: int) -> int
    decreases p.len() - lo,
{
    if 0 <= lo < p.len() && p[lo] != 0x2e {
        seg_end(p, lo + 1)
    } else {
        lo
    }
}

/// Position of the first `[` in `p[lo..hi]`, or `hi`.
pub open spec fn bracket_at(p: Seq<u8>, lo: int, hi: int) -> int
    decreases hi - lo,
{
    if 0 <= lo < hi && p[lo] != 0x5b {
        bracket_at(p, lo + 1, hi)
    } else {
        lo
    }
}

pub open spec fn is_digit(c: u8) -> bool {
    0x30 <= c <= 0x39
}

/// The decimal number written in `p[lo..hi]`.
pub open spec fn dec_value(p: Seq<u8>, lo: int, hi: int) -> nat
    decreases hi - lo,
{
    if lo < hi {
        dec_value(p, lo, hi - 1) * 10 + (p[hi - 1] - 0x30) as nat
    } else {
        0
    }
}

/// The array index of segment `p[lo..hi]`: `Some(None)` for a plain key,
/// `Some(Some(n))` for `key[n]`, `None` for a malformed segment (an index
/// that is not a machine-size decimal is malformed).
pub open spec fn segment_index(p: Seq<u8>, lo: int, hi: int) -> Option<Option<nat>> {
    let bk = bracket_at(p, lo, hi);
    if bk == hi {
        Some(None)
    } else if hi - 1 > bk + 1 && p[hi - 1] == 0x5d && (forall|k: int| bk + 1 <= k < hi - 1 ==> is_digit(#[trigger] p[k]))
        && dec_value(p, bk + 1, hi - 1) <= usize::MAX {
        Some(Some(dec_value(p, bk + 1, hi - 1)))
    } else {
        None
    }
}

/// Follows the path `p[lo..]` from the value starting at `v`; yields the
/// quoted key of the last segment and the span of the selected value.
pub open spec fn navigate(j: Seq<u8>, v: int, p: Seq<u8>, lo: int) -> Option<(int, int, int, int)>
    decreases p.len() - lo,
{
    if lo < 0 || lo > p.len() {
        None
    } else {
        let e = seg_end(p, lo);
        let bk = bracket_at(p, lo, e);
        match segment_index(p, lo, e) {
            None => None,
            Some(ix) => if !(0 <= v < j.len() && j[v] == 0x7b) {
                None
            } else {
                match member_at(j, v + 1, p.subrange(lo, bk)) {
                    None => None,
                    Some(m) => {
                        let sel = match ix {
                            None => Some((m.2, m.3)),
                            Some(n) => if 0 <= m.2 < j.len() && j[m.2] == 0x5b {
                                element_at(j, m.2 + 1, n)
                            } else {
                                None
                            },
                        };
                        match sel {
                            None => None,
                            Some(c) => if e >= p.len() {
                                Some((m.0, m.1, c.0, c.1))
                            } else {
                                navigate(j, c.0, p, e + 1)
                            },
                        }
                    },
                }
            },
        }
    }
}

/// The span that a JSON-path handler reveals in document `j`: the value
/// alone, the quoted key alone, or from the key through the value.
pub open spec fn json_path_span(j: Seq<u8>, p: Seq<u8>, hide_key: bool, hide_value: bool) -> Option<(int, int)> {
    match navigate(j, ws_end(j, 0), p, 0) {
        None => None,
        Some(m) => Some(
            if hide_key {
                (m.2, m.3)
            } else if hide_value {
                (m.0, m.1)
            } else {
                (m.0, m.3)
            },
        ),
    }
}

fn skip_ws(j: &[u8], i: usize) -> (r: usize)
    requires
        i <= j.len(),
    ensures
        r == ws_end(j@, i as int),
        i <= r <= j.len(),
{
    let mut k: usize = i;
    while k < j.len() && (j[k] == 0x20 || j[k] == 0x09 || j[k] == 0x0a || j[k] == 0x0d)
        invariant
            i <= k <= j.len(),
            ws_end(j@, k as int) == ws_end(j@, i as int),
        decreases j.len() - k,
    {
        k = k + 1;
    }
    k
}

fn scan_string(j: &[u8], i: usize) -> (r: Option<usize>)
    requires
        i <= j.len(),
    ensures
        index_of(r) == string_close(j@, i as int, false),
        r matches Some(e) ==> i < e <= j.len(),
{
    let mut k: usize = i;
    let mut esc = false;
    while k < j.len()
        invariant
            i <= k <= j.len(),
            string_close(j@, k as int, esc) == string_close(j@, i as int, false),
        decreases j.len() - k,
    {
        if esc {
            esc = false;
        } else if j[k] == 0x5c {
            esc = true;
        } else if j[k] == 0x22 {
            return Some(k + 1);
        }
        k = k + 1;
    }
    None
}

fn scan_container(j: &[u8], i: usize) -> (r: Option<usize>)
    requires
        1 <= i <= j.len(),
    ensures
        index_of(r) == container_close(j@, i as int, 1, false, false),
        r matches Some(e) ==> i < e <= j.len(),
{
    let mut k: usize = i;
    let mut depth: usize = 1;
    let mut in_str = false;
    let mut esc = false;
    while k < j.len()
        invariant
            i <= k <= j.len(),
            1 <= i,
            1 <= depth <= k - i + 1,
            !in_str ==> !esc,
            container_close(j@, k as int, depth as nat, in_str, esc) == container_close(j@, i as int, 1, false, false),
        decreases j.len() - k,
    {
        let c = j[k];
        if in_str {
            if esc {
                esc = false;
            } else if c == 0x5c {
                esc = true;
            } else if c == 0x22 {
                in_str = false;
            }
        } else if c == 0x22 {
            in_str = true;
        } else if c == 0x7b || c == 0x5b {
            depth = depth + 1;
        } else if c == 0x7d || c == 0x5d {
            if depth <= 1 {
                return Some(k + 1);
            }
            depth = depth - 1;
        }
        k = k + 1;
    }
    None
}

fn scan_scalar(j: &[u8], i: usize) -> (r: usize)
    requires
        i <= j.len(),
    ensures
        r == scalar_end(j@, i as int),
        i <= r <= j.len(),
{
    let mut k: usize = i;
    while k < j.len() && !(j[k] == 0x20 || j[k] == 0x09 || j[k] == 0x0a || j[k] == 0x0d || j[k] == 0x2c
        || j[k] == 0x7d || j[k] == 0x5d)
        invariant
            i <= k <= j.len(),
            scalar_end(j@, k as int) == scalar_end(j@, i as int),
        decreases j.len() - k,
    {
        k = k + 1;
    }
    k
}

fn scan_value(j: &[u8], i: usize) -> (r: Option<usize>)
    requires
        i <= j.len(),
    ensures
        index_of(r) == value_end(j@, i as int),
        r matches Some(e) ==> i < e <= j.len(),
{
    if i >= j.len() {
        None
    } else if j[i] == 0x22 {
        scan_string(j, i + 1)
    } else if j[i] == 0x7b || j[i] == 0x5b {
        scan_container(j, i + 1)
    } else {
        let e = scan_scalar(j, i);
        if e > i {
            Some(e)
        } else {
            None
        }
    }
}


pub open spec fn quad(r: Option<(usize, usize, usize, usize)>) -> Option<(int, int, int, int)> {
    match r {
        Some(t) => Some((t.0 as int, t.1 as int, t.2 as int, t.3 as int)),
        None => None,
    }
}

pub open spec fn pair_of(r: Option<(usize, usize)>) -> Option<(int, int)> {
    match r {
        Some(t) => Some((t.0 as int, t.1 as int)),
        None => None,
    }
}

fn same_bytes(a: &[u8], b: &[u8]) -> (r: bool)
    ensures
        r == (a@ == b@),
{
    if a.len() != b.len() {
        return false;
    }
    let mut k: usize = 0;
    while k < a.len()
        invariant
            a@.len() == b@.len(),
            k <= a@.len(),
            forall|t: int| 0 <= t < k ==> a@[t] == b@[t],
        decreases a.len() - k,
    {
        if a[k] != b[k] {
            return false;
        }
        k = k + 1;
    }
    assert(a@ =~= b@);
    true
}

fn read_hex4(j: &[u8], i: usize) -> (r: Option<u32>)
    ensures
        match hex4(j@, i as int) {
            Some(v) => r == Some(v as u32) && v < 0x10000,
            None => r is None,
        },
{
    if i > j.len() || j.len() - i < 4 {
        return None;
    }
    let mut k: usize = i;
    let mut acc: u32 = 0;
    while k < i + 4
        invariant
            i <= k <= i + 4 <= j.len(),
            forall|t: int| i <= t < k ==> is_hex_digit(#[trigger] j@[t]),
            acc == hex_value(j@, i as int, k as int),
            acc < pow16(k - i),
        decreases i + 4 - k,
    {
        let c = j[k];
        let d: u32 = if 0x30 <= c && c <= 0x39 {
            (c - 0x30) as u32
        } else if 0x61 <= c && c <= 0x66 {
            (c - 0x61 + 10) as u32
        } else if 0x41 <= c && c <= 0x46 {
            (c - 0x41 + 10) as u32
        } else {
            assert(!is_hex_digit(j@[k as int]));
            return None;
        };
        assert(acc * 16 + d < pow16(k + 1 - i)) by (nonlinear_arith)
            requires
                acc < pow16(k - i),
                d < 16,
                pow16(k + 1 - i) == pow16(k - i) * 16,
        ;
        acc = acc * 16 + d;
        k = k + 1;
    }
    Some(acc)
}

/// `16` to the power `n`, for `n <= 4`.
pub open spec fn pow16(n: int) -> int {
    if n <= 0 {
        1
    } else if n == 1 {
        16
    } else if n == 2 {
        256
    } else if n == 3 {
        4096
    } else {
        65536
    }
}

fn push_utf8(out: &mut Vec<u8>, cp: u32)
    requires
        cp <= 0x10ffff,
    ensures
        final(out)@ == old(out)@ + utf8_of(cp as nat),
{
    if cp < 0x80 {
        out.push(cp as u8);
    } else if cp < 0x800 {
        out.push((0xc0 + cp / 64) as u8);
        out.push((0x80 + cp % 64) as u8);
    } else if cp < 0x10000 {
        out.push((0xe0 + cp / 4096) as u8);
        out.push((0x80 + (cp / 64) % 64) as u8);
        out.push((0x80 + cp % 64) as u8);
    } else {
        out.push((0xf0 + cp / 262144) as u8);
        out.push((0x80 + (cp / 4096) % 64) as u8);
        out.push((0x80 + (cp / 64) % 64) as u8);
        out.push((0x80 + cp % 64) as u8);
    }
    assert(final(out)@ =~= old(out)@ + utf8_of(cp as nat));
}

/// Decodes the escapes of the string contents `j[lo..hi]`.
fn unescape_bytes(j: &[u8], lo: usize, hi: usize) -> (r: Vec<u8>)
    requires
        lo <= hi <= j.len(),
    ensures
        r@ == unescape(j@, lo as int, hi as int),
{
    let mut out: Vec<u8> = Vec::new();
    let mut i: usize = lo;
    while i < hi
        invariant
            lo <= i <= hi <= j.len(),
            out@ + unescape(j@, i as int, hi as int) == unescape(j@, lo as int, hi as int),
        decreases hi - i,
    {
        let ghost before = out@;
        let c = j[i];
        if c != 0x5c || i + 1 >= hi {
            out.push(c);
            assert(out@ + unescape(j@, i + 1, hi as int) =~= before + unescape(j@, i as int, hi as int));
            i = i + 1;
        } else {
            let e = j[i + 1];
            let simple: Option<u8> = if e == 0x22 || e == 0x5c || e == 0x2f {
                Some(e)
            } else if e == 0x62 {
                Some(0x08)
            } else if e == 0x66 {
                Some(0x0c)
            } else if e == 0x6e {
                Some(0x0a)
            } else if e == 0x72 {
                Some(0x0d)
            } else if e == 0x74 {
                Some(0x09)
            } else {
                None
            };
            assert(simple == simple_escape(e));
            match simple {
                Some(x) => {
                    out.push(x);
                    assert(out@ + unescape(j@, i + 2, hi as int) =~= before + unescape(j@, i as int, hi as int));
                    i = i + 2;
                },
                None => {
                    let mut done = false;
                    if hi - i >= 6 && e == 0x75 {
                        match read_hex4(j, i + 2) {
                            Some(u) => {
                                let mut step: usize = 6;
                                let mut cp: u32 = u;
                                if 0xd800 <= u && u < 0xdc00 && hi - i >= 12 && j[i + 6] == 0x5c && j[i + 7] == 0x75 {
                                    match read_hex4(j, i + 8) {
                                        Some(l) => {
                                            if 0xdc00 <= l && l < 0xe000 {
                                                cp = 0x10000 + (u - 0xd800) * 1024 + (l - 0xdc00);
                                                step = 12;
                                            }
                                        },
                                        None => {},
                                    }
                                }
                                assert(unicode_escape(j@, i as int, hi as int) == Some((cp as nat, step as int)));
                                push_utf8(&mut out, cp);
                                assert(out@ + unescape(j@, i + step, hi as int) =~= before + unescape(j@, i as int, hi as int));
                                i = i + step;
                                done = true;
                            },
                            None => {},
                        }
                    }
                    if !done {
                        assert(unicode_escape(j@, i as int, hi as int) is None);
                        out.push(c);
                        assert(out@ + unescape(j@, i + 1, hi as int) =~= before + unescape(j@, i as int, hi as int));
                        i = i + 1;
                    }
                },
            }
        }
    }
    assert(out@ + unescape(j@, i as int, hi as int) =~= out@);
    out
}

/// Locates the member named `key` of the object whose members start at `i`
/// (the last one, when several have that name).
fn find_member(j: &[u8], i: usize, key: &[u8]) -> (r: Option<(usize, usize, usize, usize)>)
    requires
        i <= j.len(),
    ensures
        quad(r) == member_at(j@, i as int, key@),
        r matches Some(m) ==> i <= m.0 < m.1 <= m.2 < m.3 <= j.len(),
{
    let mut cur: usize = i;
    let mut best: Option<(usize, usize, usize, usize)> = None;
    loop
        invariant
            i <= cur <= j.len(),
            member_at(j@, i as int, key@) == match member_at(j@, cur as int, key@) {
                Some(m) => Some(m),
                None => quad(best),
            },
            best matches Some(m) ==> i <= m.0 < m.1 <= m.2 < m.3 <= j.len(),
        decreases j.len() - cur,
    {
        let s = skip_ws(j, cur);
        if !(s < j.len() && j[s] == 0x22) {
            return best;
        }
        let ke = match scan_string(j, s + 1) {
            Some(e) => e,
            None => return best,
        };
        let c = skip_ws(j, ke);
        if !(c < j.len() && j[c] == 0x3a) {
            return best;
        }
        let vs = skip_ws(j, c + 1);
        let ve = match scan_value(j, vs) {
            Some(e) => e,
            None => return best,
        };
        let name = unescape_bytes(j, s + 1, ke - 1);
        if same_bytes(name.as_slice(), key) {
            best = Some((s, ke, vs, ve));
        }
        let n = skip_ws(j, ve);
        if n < j.len() && j[n] == 0x2c {
            cur = n + 1;
        } else {
            return best;
        }
    }
}

/// Locates element `idx` of the array whose elements start at `i`.
fn find_element(j: &[u8], i: usize, idx: usize) -> (r: Option<(usize, usize)>)
    requires
        i <= j.len(),
    ensures
        pair_of(r) == element_at(j@, i as int, idx as nat),
        r matches Some(m) ==> i <= m.0 < m.1 <= j.len(),
{
    let mut cur: usize = i;
    let mut n: usize = idx;
    loop
        invariant
            i <= cur <= j.len(),
            element_at(j@, cur as int, n as nat) == element_at(j@, i as int, idx as nat),
        decreases j.len() - cur,
    {
        let s = skip_ws(j, cur);
        let ve = match scan_value(j, s) {
            Some(e) => e,
            None => return None,
        };
        if n == 0 {
            return Some((s, ve));
        }
        let t = skip_ws(j, ve);
        if t < j.len() && j[t] == 0x2c {
            cur = t + 1;
            n = n - 1;
        } else {
            return None;
        }
    }
}

fn scan_segment(p: &[u8], lo: usize) -> (r: usize)
    requires
        lo <= p.len(),
    ensures
        r == seg_end(p@, lo as int),
        lo <= r <= p.len(),
{
    let mut k: usize = lo;
    while k < p.len() && p[k] != 0x2e
        invariant
            lo <= k <= p.len(),
            seg_end(p@, k as int) == seg_end(p@, lo as int),
        decreases p.len() - k,
    {
        k = k + 1;
    }
    k
}

fn scan_bracket(p: &[u8], lo: usize, hi: usize) -> (r: usize)
    requires
        lo <= hi <= p.len(),
    ensures
        r == bracket_at(p@, lo as int, hi as int),
        lo <= r <= hi,
{
    let mut k: usize = lo;
    while k < hi && p[k] != 0x5b
        invariant
            lo <= k <= hi <= p.len(),
            bracket_at(p@, k as int, hi as int) == bracket_at(p@, lo as int, hi as int),
        decreases hi - k,
    {
        k = k + 1;
    }
    k
}

/// A decimal number only grows as digits are appended.
pub proof fn lemma_dec_grows(p: Seq<u8>, lo: int, k: int, hi: int)
    requires
        lo <= k <= hi <= p.len(),
    ensures
        dec_value(p, lo, k) <= dec_value(p, lo, hi),
    decreases hi - k,
{
    if k < hi {
        lemma_dec_grows(p, lo, k, hi - 1);
    }
}

/// The index of segment `p[lo..hi]`, as `segment_index` gives it.
fn parse_segment_index(p: &[u8], lo: usize, hi: usize) -> (r: Option<Option<usize>>)
    requires
        lo <= hi <= p.len(),
    ensures
        r == match segment_index(p@, lo as int, hi as int) {
            Some(Some(n)) => Some(Some(n as usize)),
            Some(None) => Some(None::<usize>),
            None => None::<Option<usize>>,
        },
{
    let bk = scan_bracket(p, lo, hi);
    if bk == hi {
        return Some(None);
    }
    if !(hi - 1 > bk + 1 && p[hi - 1] == 0x5d) {
        return None;
    }
    let mut k: usize = bk + 1;
    let mut acc: usize = 0;
    while k < hi - 1
        invariant
            lo <= bk < bk + 1 <= k <= hi - 1,
            hi <= p.len(),
            bk == bracket_at(p@, lo as int, hi as int),
            p@[hi - 1] == 0x5d,
            forall|t: int| bk + 1 <= t < k ==> is_digit(#[trigger] p@[t]),
            acc == dec_value(p@, bk + 1, k as int),
        decreases hi - 1 - k,
    {
        let c = p[k];
        if !(0x30 <= c && c <= 0x39) {
            assert(!is_digit(p@[k as int]));
            return None;
        }
        let d = (c - 0x30) as usize;
        if acc > (usize::MAX - d) / 10 {
            proof {
                assert(dec_value(p@, bk + 1, k + 1) == acc * 10 + d);
                assert(acc * 10 + d > usize::MAX) by (nonlinear_arith)
                    requires
                        acc > (usize::MAX - d) / 10,
                        d <= 9,
                ;
                lemma_dec_grows(p@, bk + 1, k + 1, hi - 1);
            }
            return None;
        }
        acc = acc * 10 + d;
        k = k + 1;
    }
    Some(Some(acc))
}

/// The span that a JSON-path handler reveals in `j`, which must be a JSON
/// document.
pub open spec fn json_document_span(j: Seq<u8>, p: Seq<u8>, hide_key: bool, hide_value: bool) -> Option<(int, int)> {
    if is_json_document(j) {
        json_path_span(j, p, hide_key, hide_value)
    } else {
        None
    }
}

/// Locates the value at JSON path `p` (such as `items[0].name`) in the JSON
/// document `j`, and returns the span that the hide flags select: the value
/// alone, the quoted key alone, or from the key through the value. Text that
/// is not a JSON document yields `None`.
pub fn find_json_path(j: &[u8], p: &[u8], hide_key: bool, hide_value: bool) -> (r: Option<(usize, usize)>)
    ensures
        pair_of(r) == json_document_span(j@, p@, hide_key, hide_value),
        r matches Some(t) ==> t.0 <= t.1 <= j.len(),
{
    if !parses_as_json(j) {
        return None;
    }
    locate_json_path(j, p, hide_key, hide_value)
}

/// Follows path `p` through `j` as `json_path_span` does.
fn locate_json_path(j: &[u8], p: &[u8], hide_key: bool, hide_value: bool) -> (r: Option<(usize, usize)>)
    ensures
        pair_of(r) == json_path_span(j@, p@, hide_key, hide_value),
        r matches Some(t) ==> t.0 <= t.1 <= j.len(),
{
    let v0 = skip_ws(j, 0);
    let mut v: usize = v0;
    let mut lo: usize = 0;
    let found: (usize, usize, usize, usize);
    loop
        invariant
            lo <= p.len(),
            v <= j.len(),
            navigate(j@, v as int, p@, lo as int) == navigate(j@, v0 as int, p@, 0),
            v0 == ws_end(j@, 0),
        ensures
            navigate(j@, v0 as int, p@, 0) == Some((found.0 as int, found.1 as int, found.2 as int, found.3 as int)),
            found.0 < found.1 < found.3 <= j.len(),
            found.2 < found.3,
        decreases p.len() - lo,
    {
        let e = scan_segment(p, lo);
        let bk = scan_bracket(p, lo, e);
        let ix = match parse_segment_index(p, lo, e) {
            Some(ix) => ix,
            None => {
                return None;
            },
        };
        if !(v < j.len() && j[v] == 0x7b) {
            return None;
        }
        let m = match find_member(j, v + 1, slice_subrange(p, lo, bk)) {
            Some(m) => m,
            None => return None,
        };
        let sel = match ix {
            None => (m.2, m.3),
            Some(n) => {
                if !(m.2 < j.len() && j[m.2] == 0x5b) {
                    return None;
                }
                match find_element(j, m.2 + 1, n) {
                    Some(c) => c,
                    None => return None,
                }
            },
        };
        if e >= p.len() {
            found = (m.0, m.1, sel.0, sel.1);
            break;
        }
        v = sel.0;
        lo = e + 1;
    }
    if hide_key {
        Some((found.2, found.3))
    } else if hide_value {
        Some((found.0, found.1))
    } else {
        Some((found.0, found.3))
    }
}

} // verus!

verus! {

proof fn lemma_ws_end_bounds(j: Seq<u8>, i: int)
    requires
        0 <= i <= j.len(),
    ensures
        i <= ws_end(j, i) <= j.len(),
    decreases j.len() - i,
{
    if i < j.len() && is_json_ws(j[i]) {
        lemma_ws_end_bounds(j, i + 1);
    }
}

proof fn lemma_string_close_bounds(j: Seq<u8>, i: int, esc: bool)
    ensures
        string_close(j, i, esc) matches Some(e) ==> i < e <= j.len(),
    decreases j.len() - i,
{
    if 0 <= i < j.len() {
        if esc || j[i] != 0x22 {
            lemma_string_close_bounds(j, i + 1, j[i] == 0x5c && !esc);
            lemma_string_close_bounds(j, i + 1, false);
            lemma_string_close_bounds(j, i + 1, true);
        }
    }
}

proof fn lemma_container_close_bounds(j: Seq<u8>, i: int, depth: nat, in_str: bool, esc: bool)
    ensures
        container_close(j, i, depth, in_str, esc) matches Some(e) ==> i < e <= j.len(),
    decreases j.len() - i,
{
    if 0 <= i < j.len() {
        lemma_container_close_bounds(j, i + 1, depth, true, false);
        lemma_container_close_bounds(j, i + 1, depth, true, true);
        lemma_container_close_bounds(j, i + 1, depth, false, false);
        lemma_container_close_bounds(j, i + 1, depth + 1, false, false);
        if depth > 1 {
            lemma_container_close_bounds(j, i + 1, (depth - 1) as nat, false, false);
        }
    }
}

proof fn lemma_scalar_end_bounds(j: Seq<u8>, i: int)
    requires
        0 <= i <= j.len(),
    ensures
        i <= scalar_end(j, i) <= j.len(),
    decreases j.len() - i,
{
    if i < j.len() && !ends_scalar(j[i]) {
        lemma_scalar_end_bounds(j, i + 1);
    }
}

proof fn lemma_value_end_bounds(j: Seq<u8>, i: int)
    ensures
        value_end(j, i) matches Some(e) ==> 0 <= i < e <= j.len(),
{
    if 0 <= i < j.len() {
        lemma_string_close_bounds(j, i + 1, false);
        lemma_container_close_bounds(j, i + 1, 1, false, false);
        lemma_scalar_end_bounds(j, i);
    }
}

proof fn lemma_member_at_bounds(j: Seq<u8>, i: int, key: Seq<u8>)
    requires
        0 <= i <= j.len(),
    ensures
        member_at(j, i, key) matches Some(m) ==> i <= m.0 < m.1 <= m.2 < m.3 <= j.len(),
    decreases j.len() - i,
{
    lemma_ws_end_bounds(j, i);
    let s = ws_end(j, i);
    if 0 <= s < j.len() && j[s] == 0x22 {
        lemma_string_close_bounds(j, s + 1, false);
        if let Some(ke) = string_close(j, s + 1, false) {
            lemma_ws_end_bounds(j, ke);
            let c = ws_end(j, ke);
            if 0 <= c < j.len() && j[c] == 0x3a {
                lemma_ws_end_bounds(j, c + 1);
                let vs = ws_end(j, c + 1);
                lemma_value_end_bounds(j, vs);
                if let Some(ve) = value_end(j, vs) {
                    let n = ws_end(j, ve);
                    lemma_ws_end_bounds(j, ve);
                    if 0 <= i < n + 1 <= j.len() && j[n] == 0x2c {
                        lemma_member_at_bounds(j, n + 1, key);
                    }
                }
            }
        }
    }
}

proof fn lemma_element_at_bounds(j: Seq<u8>, i: int, idx: nat)
    requires
        0 <= i <= j.len(),
    ensures
        element_at(j, i, idx) matches Some(m) ==> i <= m.0 < m.1 <= j.len(),
    decreases j.len() - i,
{
    lemma_ws_end_bounds(j, i);
    let s = ws_end(j, i);
    lemma_value_end_bounds(j, s);
    if let Some(ve) = value_end(j, s) {
        if idx != 0 {
            lemma_ws_end_bounds(j, ve);
            let n = ws_end(j, ve);
            if 0 <= i < n + 1 <= j.len() && j[n] == 0x2c {
                lemma_element_at_bounds(j, n + 1, (idx - 1) as nat);
            }
        }
    }
}

proof fn lemma_seg_end_bounds(p: Seq<u8>, lo: int)
    requires
        0 <= lo <= p.len(),
    ensures
        lo <= seg_end(p, lo) <= p.len(),
    decreases p.len() - lo,
{
    if lo < p.len() && p[lo] != 0x2e {
        lemma_seg_end_bounds(p, lo + 1);
    }
}

proof fn lemma_navigate_bounds(j: Seq<u8>, v: int, p: Seq<u8>, lo: int)
    ensures
        navigate(j, v, p, lo) matches Some(m) ==> 0 <= m.0 < m.1 <= m.2 < m.3 <= j.len(),
    decreases p.len() - lo,
{
    if 0 <= lo <= p.len() && 0 <= v < j.len() {
        lemma_seg_end_bounds(p, lo);
        let e = seg_end(p, lo);
        let bk = bracket_at(p, lo, e);
        lemma_member_at_bounds(j, v + 1, p.subrange(lo, bk));
        if let Some(m) = member_at(j, v + 1, p.subrange(lo, bk)) {
            if 0 <= m.2 < j.len() {
                if let Some(Some(n)) = segment_index(p, lo, e) {
                    lemma_element_at_bounds(j, m.2 + 1, n);
                }
            }
            if e < p.len() {
                if let Some(Some(n)) = segment_index(p, lo, e) {
                    if 0 <= m.2 < j.len() && j[m.2] == 0x5b {
                        if let Some(c) = element_at(j, m.2 + 1, n) {
                            lemma_navigate_bounds(j, c.0, p, e + 1);
                        }
                    }
                } else {
                    lemma_navigate_bounds(j, m.2, p, e + 1);
                }
            }
        }
    }
}

/// A JSON-path span lies inside its document, in order.
pub proof fn lemma_json_path_span_bounds(j: Seq<u8>, p: Seq<u8>, hide_key: bool, hide_value: bool)
    ensures
        json_path_span(j, p, hide_key, hide_value) matches Some(t) ==> 0 <= t.0 <= t.1 <= j.len(),
{
    lemma_navigate_bounds(j, ws_end(j, 0), p, 0);
}

} // verus!
