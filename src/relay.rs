use vstd::prelude::*;
use crate::json::{dec_value, is_digit, lemma_dec_grows};

verus! {

/// Port used when a proxy target names none (TLS).
pub const DEFAULT_TLS_PORT: u16 = 443;

/// First `:` at or after `i`, or the end.
pub open spec fn colon_from(b: Seq<u8>, i: int) -> int
    decreases b.len() - i,
{
    if 0 <= i < b.len() && b[i] != 0x3a {
        colon_from(b, i + 1)
    } else {
        i
    }
}

/// Where the digits of a port field starting at `p` begin: past one
/// optional `+` sign.
pub open spec fn digits_start(b: Seq<u8>, p: int, e: int) -> int {
    if p < e && b[p] == 0x2b {
        p + 1
    } else {
        p
    }
}

/// A proxy target `host[:port]`: where the host name ends, and the port,
/// which falls back to the TLS port when absent or not a decimal `u16`
/// (optionally signed with `+`).
pub open spec fn host_and_port(b: Seq<u8>) -> (int, int) {
    let c = colon_from(b, 0);
    if c >= b.len() {
        (c, DEFAULT_TLS_PORT as int)
    } else {
        let e = colon_from(b, c + 1);
        let d = digits_start(b, c + 1, e);
        if d < e && (forall|k: int| d <= k < e ==> is_digit(#[trigger] b[k])) && dec_value(b, d, e) <= u16::MAX {
            (c, dec_value(b, d, e) as int)
        } else {
            (c, DEFAULT_TLS_PORT as int)
        }
    }
}

fn scan_colon(b: &[u8], i: usize) -> (r: usize)
    requires
        i <= b.len(),
    ensures
        r == colon_from(b@, i as int),
        i <= r <= b.len(),
{
    let mut k: usize = i;
    while k < b.len() && b[k] != 0x3a
        invariant
            i <= k <= b.len(),
            colon_from(b@, k as int) == colon_from(b@, i as int),
        decreases b.len() - k,
    {
        k = k + 1;
    }
    k
}

/// Splits a proxy target `host[:port]` into the length of its host name and
/// its port.
pub fn split_host_port(host: &[u8]) -> (r: (usize, u16))
    ensures
        (r.0 as int, r.1 as int) == host_and_port(host@),
{
    let c = scan_colon(host, 0);
    if c >= host.len() {
        return (c, DEFAULT_TLS_PORT);
    }
    let e = scan_colon(host, c + 1);
    let d0: usize = if c + 1 < e && host[c + 1] == 0x2b { c + 2 } else { c + 1 };
    if e <= d0 {
        return (c, DEFAULT_TLS_PORT);
    }
    let mut k: usize = d0;
    let mut acc: u32 = 0;
    while k < e
        invariant
            d0 <= k <= e <= host.len(),
            d0 == digits_start(host@, c + 1, e as int),
            c < host.len(),
            c == colon_from(host@, 0),
            e == colon_from(host@, c + 1),
            forall|t: int| d0 <= t < k ==> is_digit(#[trigger] host@[t]),
            acc == dec_value(host@, d0 as int, k as int),
            acc <= u16::MAX,
        decreases e - k,
    {
        let d = host[k];
        if !(0x30 <= d && d <= 0x39) {
            assert(!is_digit(host@[k as int]));
            return (c, DEFAULT_TLS_PORT);
        }
        let next = acc * 10 + (d - 0x30) as u32;
        if next > 65535 {
            proof {
                assert(dec_value(host@, d0 as int, k + 1) == next);
                lemma_dec_grows(host@, d0 as int, k + 1, e as int);
            }
            return (c, DEFAULT_TLS_PORT);
        }
        acc = next;
        k = k + 1;
    }
    (c, acc as u16)
}

} // verus!
