use vstd::prelude::*;
use vstd::utf8::{decode_utf8, valid_utf8};
use vstd::slice::slice_subrange;
use vstd::string::StringExecFns;
use rangeset::set::RangeSet;
use crate::handler::{HandlerResult, HandlerTag, HandlerType, RangeWithHandler, RevealConfig};
use crate::validate::{authed_offsets, validation_outcome, verify_reveal_config};

verus! {

/// The text that `String::from_utf8_lossy` makes of some bytes.
pub uninterp spec fn lossy_text(b: Seq<u8>) -> Seq<char>;

/// Relies on String::from_utf8_lossy: the bytes as text, invalid sequences
/// replaced; valid UTF-8 comes back unchanged.
#[verifier::external_body]
pub(crate) fn lossy_string(b: &[u8]) -> (r: String)
    ensures
        r@ == lossy_text(b@),
        valid_utf8(b@) ==> r@ == decode_utf8(b@),
{
    String::from_utf8_lossy(b).to_string()
}

/// The character of decimal digit `d`.
pub open spec fn digit_char(d: nat) -> char {
    if d == 0 {
        '0'
    } else if d == 1 {
        '1'
    } else if d == 2 {
        '2'
    } else if d == 3 {
        '3'
    } else if d == 4 {
        '4'
    } else if d == 5 {
        '5'
    } else if d == 6 {
        '6'
    } else if d == 7 {
        '7'
    } else if d == 8 {
        '8'
    } else {
        '9'
    }
}

/// The decimal text of `n`: no sign, no leading zero.
pub open spec fn decimal(n: nat) -> Seq<char>
    decreases n,
{
    if n < 10 {
        seq![digit_char(n)]
    } else {
        decimal(n / 10).push(digit_char(n % 10))
    }
}

/// Relies on `usize::to_string` (integer `Display`): the decimal text of `n`.
#[verifier::external_body]
fn decimal_string(n: usize) -> (r: String)
    ensures
        r@ == decimal(n as nat),
{
    n.to_string()
}

/// The message that reports a range outside its transcript:
/// `ERROR: Invalid range [start, end)`.
pub open spec fn invalid_range_text(start: usize, end: usize) -> Seq<char> {
    "ERROR: Invalid range ["@ + decimal(start as nat) + ", "@ + decimal(end as nat) + ")"@
}

/// Renders the message that reports a range outside its transcript.
fn invalid_range_message(start: usize, end: usize) -> (r: String)
    ensures
        r@ == invalid_range_text(start, end),
{
    let mut msg = "ERROR: Invalid range [".to_owned();
    let a = decimal_string(start);
    msg.append(a.as_str());
    msg.append(", ");
    let b = decimal_string(end);
    msg.append(b.as_str());
    msg.append(")");
    msg
}

/// Relies on String::from_utf8: the bytes as text exactly when they are
/// valid UTF-8.
#[verifier::external_body]
fn utf8_string(b: &[u8]) -> (r: Option<String>)
    ensures
        r is Some <==> valid_utf8(b@),
        r matches Some(s) ==> s@ == decode_utf8(b@),
{
    String::from_utf8(b.to_vec()).ok()
}

/// `s` with every NUL character replaced by `to`.
pub open spec fn replace_nul(s: Seq<char>, to: Seq<char>) -> Seq<char>
    decreases s.len(),
{
    if s.len() == 0 {
        Seq::empty()
    } else {
        replace_nul(s.drop_last(), to) + if s.last() == '\0' {
            to
        } else {
            seq![s.last()]
        }
    }
}

/// Relies on str::replace: every NUL character replaced by `to`.
#[verifier::external_body]
fn replace_nul_chars(s: &str, to: &str) -> (r: String)
    ensures
        r@ == replace_nul(s@, to@),
{
    s.replace('\0', to)
}

/// A range that can be applied to a transcript of `n` bytes.
pub open spec fn applicable(r: RangeWithHandler, n: int) -> bool {
    r.start < n && r.end <= n
}

/// Offset `i` of a transcript of `n` bytes lies in an applicable range.
pub open spec fn revealed_at(rs: Seq<RangeWithHandler>, n: int, i: int) -> bool {
    exists|k: int| 0 <= k < rs.len() && applicable(#[trigger] rs[k], n) && rs[k].start <= i < rs[k].end
}

/// `b` with every byte outside the applicable ranges zeroed.
pub open spec fn projection(b: Seq<u8>, rs: Seq<RangeWithHandler>) -> Seq<u8> {
    Seq::new(b.len(), |i: int| if revealed_at(rs, b.len() as int, i) { b[i] } else { 0u8 })
}

/// Projecting a projection with the same ranges changes nothing.
pub proof fn lemma_projection_idempotent(b: Seq<u8>, rs: Seq<RangeWithHandler>)
    ensures
        projection(projection(b, rs), rs) == projection(b, rs),
{
    assert(projection(projection(b, rs), rs) =~= projection(b, rs));
}

/// Renders `b` with every byte outside the applicable ranges zeroed; the
/// result has the same length as `b`.
pub fn project(b: &[u8], ranges: &Vec<RangeWithHandler>) -> (r: Vec<u8>)
    ensures
        r@ == projection(b@, ranges@),
{
    let n = b.len();
    let mut out: Vec<u8> = vec![0u8; n];
    let mut k: usize = 0;
    while k < ranges.len()
        invariant
            n == b@.len(),
            out@.len() == n,
            k <= ranges@.len(),
            forall|i: int| 0 <= i < n ==> #[trigger] out@[i] == if revealed_at(ranges@.subrange(0, k as int), n as int, i) {
                b@[i]
            } else {
                0u8
            },
        decreases ranges.len() - k,
    {
        let rg = ranges[k];
        let ghost pre = ranges@.subrange(0, k as int);
        let ghost post = ranges@.subrange(0, k + 1);
        assert forall|i: int| #[trigger] revealed_at(pre, n as int, i) implies revealed_at(post, n as int, i) by {
            let t = choose|t: int| 0 <= t < pre.len() && applicable(#[trigger] pre[t], n as int) && pre[t].start <= i < pre[t].end;
            assert(post[t] == pre[t]);
        }
        if rg.start < n && rg.end <= n {
            let mut i: usize = rg.start;
            while i < rg.end
                invariant
                    n == b@.len(),
                    out@.len() == n,
                    rg == ranges@[k as int],
                    k < ranges@.len(),
                    rg.start <= i,
                    i <= rg.end || i == rg.start,
                    rg.start < n && rg.end <= n,
                    pre == ranges@.subrange(0, k as int),
                    post == ranges@.subrange(0, k + 1),
                    forall|t: int| 0 <= t < n ==> #[trigger] out@[t] == if revealed_at(pre, n as int, t) || (rg.start <= t < i) {
                        b@[t]
                    } else {
                        0u8
                    },
                decreases rg.end - i,
            {
                out.set(i, b[i]);
                i = i + 1;
            }
            assert forall|t: int| 0 <= t < n implies #[trigger] out@[t] == if revealed_at(post, n as int, t) {
                b@[t]
            } else {
                0u8
            } by {
                assert(post[k as int] == rg);
                if rg.start <= t < rg.end {
                    assert(revealed_at(post, n as int, t));
                } else if revealed_at(post, n as int, t) {
                    let s = choose|s: int| 0 <= s < post.len() && applicable(#[trigger] post[s], n as int) && post[s].start <= t < post[s].end;
                    assert(s != k);
                    assert(pre[s] == post[s]);
                    assert(revealed_at(pre, n as int, t));
                } else {
                    if revealed_at(pre, n as int, t) {
                        let s = choose|s: int| 0 <= s < pre.len() && applicable(#[trigger] pre[s], n as int) && pre[s].start <= t < pre[s].end;
                        assert(post[s] == pre[s]);
                        assert(revealed_at(post, n as int, t));
                    }
                }
            }
        } else {
            assert forall|t: int| 0 <= t < n implies #[trigger] out@[t] == if revealed_at(post, n as int, t) {
                b@[t]
            } else {
                0u8
            } by {
                assert(post[k as int] == rg);
                if revealed_at(post, n as int, t) {
                    let s = choose|s: int| 0 <= s < post.len() && applicable(#[trigger] post[s], n as int) && post[s].start <= t < post[s].end;
                    assert(s != k);
                    assert(pre[s] == post[s]);
                    assert(revealed_at(pre, n as int, t));
                } else if revealed_at(pre, n as int, t) {
                    let s = choose|s: int| 0 <= s < pre.len() && applicable(#[trigger] pre[s], n as int) && pre[s].start <= t < pre[s].end;
                    assert(post[s] == pre[s]);
                    assert(revealed_at(post, n as int, t));
                }
            }
        }
        k = k + 1;
    }
    assert(ranges@.subrange(0, k as int) =~= ranges@);
    assert(out@ =~= projection(b@, ranges@));
    out
}


/// A transcript pair rendered safe to share: bytes outside the revealed
/// ranges zeroed, with the lengths of the unredacted transcripts.
#[derive(Clone, Debug)]
pub struct RedactedTranscript {
    pub sent: String,
    pub recv: String,
    pub sent_length: usize,
    pub recv_length: usize,
}

impl RedactedTranscript {
    /// Renders the projection of `bytes` onto `ranges` as text.
    pub fn redact_bytes(bytes: &[u8], ranges: &Vec<RangeWithHandler>) -> (r: String)
        ensures
            r@ == lossy_text(projection(bytes@, ranges@)),
    {
        let p = project(bytes, ranges);
        lossy_string(p.as_slice())
    }

    /// Redacts both transcripts with the ranges of `config`.
    pub fn from_transcript(sent: &[u8], recv: &[u8], config: &RevealConfig) -> (r: Self)
        ensures
            r.sent@ == lossy_text(projection(sent@, config.sent@)),
            r.recv@ == lossy_text(projection(recv@, config.recv@)),
            r.sent_length == sent@.len(),
            r.recv_length == recv@.len(),
    {
        RedactedTranscript {
            sent: Self::redact_bytes(sent, &config.sent),
            recv: Self::redact_bytes(recv, &config.recv),
            sent_length: sent.len(),
            recv_length: recv.len(),
        }
    }
}

/// The text of bytes that must be valid UTF-8, with every NUL (an
/// unrevealed byte) shown as `to`; `None` when the bytes are not UTF-8.
pub fn bytes_to_redacted_string(bytes: &[u8], to: &str) -> (r: Option<String>)
    ensures
        r is Some <==> valid_utf8(bytes@),
        r matches Some(s) ==> s@ == replace_nul(decode_utf8(bytes@), to@),
{
    match utf8_string(bytes) {
        Some(s) => Some(replace_nul_chars(s.as_str(), to)),
        None => None,
    }
}

/// The value a range reveals from transcript `b`: its bytes as text, or a
/// message naming a range that does not fit.
pub open spec fn range_value(r: RangeWithHandler, b: Seq<u8>) -> Seq<char> {
    if r.start < b.len() && r.end <= b.len() && r.start < r.end {
        lossy_text(b.subrange(r.start as int, r.end as int))
    } else {
        invalid_range_text(r.start, r.end)
    }
}

/// Pairs each range with the value it reveals from `bytes`, in order.
pub fn process_ranges(ranges: &Vec<RangeWithHandler>, bytes: &[u8]) -> (r: Vec<HandlerResult>)
    ensures
        r@.len() == ranges@.len(),
        forall|i: int| 0 <= i < ranges@.len() ==> (#[trigger] r@[i]).handler == ranges@[i].handler
            && r@[i].value@ == range_value(ranges@[i], bytes@),
{
    let mut out: Vec<HandlerResult> = Vec::new();
    let mut k: usize = 0;
    while k < ranges.len()
        invariant
            k <= ranges@.len(),
            out@.len() == k,
            forall|i: int| 0 <= i < k ==> (#[trigger] out@[i]).handler == ranges@[i].handler
                && out@[i].value@ == range_value(ranges@[i], bytes@),
        decreases ranges.len() - k,
    {
        let rg = ranges[k];
        let value = if rg.start < bytes.len() && rg.end <= bytes.len() && rg.start < rg.end {
            lossy_string(slice_subrange(bytes, rg.start, rg.end))
        } else {
            invalid_range_message(rg.start, rg.end)
        };
        out.push(HandlerResult { handler: rg.handler, value });
        k = k + 1;
    }
    out
}

/// The values of all ranges of `c`: sent ranges first, then received ones.
pub open spec fn all_values(c: RevealConfig, sent: Seq<u8>, recv: Seq<u8>) -> Seq<(HandlerTag, Seq<char>)> {
    Seq::new(c.sent@.len(), |i: int| (c.sent@[i].handler, range_value(c.sent@[i], sent)))
        + Seq::new(c.recv@.len(), |i: int| (c.recv@[i].handler, range_value(c.recv@[i], recv)))
}

pub open spec fn result_pairs(rs: Seq<HandlerResult>) -> Seq<(HandlerTag, Seq<char>)> {
    Seq::new(rs.len(), |i: int| (rs[i].handler, rs[i].value@))
}

/// Completes a verified session: checks every range of `config` against the
/// authenticated offsets and, only when all are covered, returns the value
/// of each range. On a violation no value is disclosed.
pub fn complete_verification(
    config: &RevealConfig,
    sent: &[u8],
    recv: &[u8],
    sent_authed: &RangeSet<usize>,
    recv_authed: &RangeSet<usize>,
) -> (r: Result<Vec<HandlerResult>, (HandlerType, usize, usize)>)
    ensures
        validation_outcome(*config, authed_offsets(*sent_authed), authed_offsets(*recv_authed)) matches Err(e)
            ==> r == Err::<Vec<HandlerResult>, (HandlerType, usize, usize)>(e),
        validation_outcome(*config, authed_offsets(*sent_authed), authed_offsets(*recv_authed)) is Ok ==> (r matches Ok(v)
            && result_pairs(v@) == all_values(*config, sent@, recv@)),
{
    match verify_reveal_config(config, sent_authed, recv_authed) {
        Err(e) => Err(e),
        Ok(()) => {
            let mut results = process_ranges(&config.sent, sent);
            let mut more = process_ranges(&config.recv, recv);
            let ghost a = results@;
            let ghost b = more@;
            results.append(&mut more);
            assert(result_pairs(results@) =~= all_values(*config, sent@, recv@)) by {
                assert(results@ == a + b);
            }
            Ok(results)
        },
    }
}

} // verus!
