use vstd::prelude::*;
use rangeset::set::RangeSet;
use crate::handler::{HandlerType, RangeWithHandler, RevealConfig};

verus! {

#[verifier::external_type_specification]
#[verifier::external_body]
#[verifier::reject_recursive_types(T)]
pub struct ExRangeSet<T>(rangeset::set::RangeSet<T>);

/// The offsets that an authenticated set holds.
pub uninterp spec fn authed_offsets(s: RangeSet<usize>) -> Set<int>;

/// Relies on rangeset::RangeSet::contains: whether one offset is in the set.
#[verifier::external_body]
fn is_authenticated(s: &RangeSet<usize>, i: usize) -> (r: bool)
    ensures
        r == authed_offsets(*s).contains(i as int),
{
    s.contains(&i)
}

/// Every offset of `r` is authenticated.
pub open spec fn covered(r: RangeWithHandler, auth: Set<int>) -> bool {
    forall|i: int| r.start <= i < r.end ==> auth.contains(i)
}

/// Index of the first range from `k` on that is not covered by `auth`.
pub open spec fn first_uncovered(rs: Seq<RangeWithHandler>, auth: Set<int>, k: int) -> Option<int>
    decreases rs.len() - k,
{
    if k < 0 || k >= rs.len() {
        None
    } else if !covered(rs[k], auth) {
        Some(k)
    } else {
        first_uncovered(rs, auth, k + 1)
    }
}

/// The outcome of validating `c` against the authenticated offsets: the
/// first offending range, sent ranges before received ones, or success.
pub open spec fn validation_outcome(c: RevealConfig, sent: Set<int>, recv: Set<int>) -> Result<(), (HandlerType, usize, usize)> {
    match first_uncovered(c.sent@, sent, 0) {
        Some(k) => Err((HandlerType::Sent, c.sent@[k].start, c.sent@[k].end)),
        None => match first_uncovered(c.recv@, recv, 0) {
            Some(k) => Err((HandlerType::Recv, c.recv@[k].start, c.recv@[k].end)),
            None => Ok(()),
        },
    }
}

proof fn lemma_first_uncovered(rs: Seq<RangeWithHandler>, auth: Set<int>, k: int)
    requires
        0 <= k,
    ensures
        (forall|i: int| k <= i < rs.len() ==> covered(#[trigger] rs[i], auth)) ==> first_uncovered(rs, auth, k) is None,
        first_uncovered(rs, auth, k) matches Some(i) ==> k <= i < rs.len() && !covered(rs[i], auth)
            && forall|j: int| k <= j < i ==> covered(#[trigger] rs[j], auth),
        forall|j: int| k <= j < rs.len() && !covered(#[trigger] rs[j], auth) ==> first_uncovered(rs, auth, k) is Some,
    decreases rs.len() - k,
{
    if k < rs.len() {
        lemma_first_uncovered(rs, auth, k + 1);
    }
}

/// A configuration whose ranges all lie within the authenticated offsets
/// is accepted. Otherwise it is rejected with the first failing range: the
/// first uncovered sent range if there is one (every sent range before it
/// covered), else the first uncovered received range (every sent range and
/// every received range before it covered).
pub proof fn lemma_authentication_gate(c: RevealConfig, sent: Set<int>, recv: Set<int>)
    ensures
        (forall|i: int| 0 <= i < c.sent@.len() ==> covered(#[trigger] c.sent@[i], sent))
            && (forall|i: int| 0 <= i < c.recv@.len() ==> covered(#[trigger] c.recv@[i], recv))
            <==> validation_outcome(c, sent, recv) == Ok::<(), (HandlerType, usize, usize)>(()),
        validation_outcome(c, sent, recv) matches Err(e) ==> (
            (e.0 == HandlerType::Sent && exists|i: int| 0 <= i < c.sent@.len() && !covered(#[trigger] c.sent@[i], sent)
                && c.sent@[i].start == e.1 && c.sent@[i].end == e.2
                && forall|j: int| 0 <= j < i ==> covered(#[trigger] c.sent@[j], sent))
            || (e.0 == HandlerType::Recv && exists|i: int| 0 <= i < c.recv@.len() && !covered(#[trigger] c.recv@[i], recv)
                && c.recv@[i].start == e.1 && c.recv@[i].end == e.2
                && (forall|j: int| 0 <= j < i ==> covered(#[trigger] c.recv@[j], recv))
                && forall|j: int| 0 <= j < c.sent@.len() ==> covered(#[trigger] c.sent@[j], sent))),
{
    lemma_first_uncovered(c.sent@, sent, 0);
    lemma_first_uncovered(c.recv@, recv, 0);
}

/// Checks ranges in order and stops at the first one holding an offset
/// that is not authenticated.
pub fn validate_ranges_against_auth_set(ranges: &Vec<RangeWithHandler>, auth: &RangeSet<usize>) -> (r: Option<usize>)
    ensures
        crate::resolve::index_of(r) == first_uncovered(ranges@, authed_offsets(*auth), 0),
        r matches Some(k) ==> k < ranges@.len(),
{
    let ghost a = authed_offsets(*auth);
    let mut k: usize = 0;
    while k < ranges.len()
        invariant
            k <= ranges@.len(),
            a == authed_offsets(*auth),
            first_uncovered(ranges@, a, k as int) == first_uncovered(ranges@, a, 0),
        decreases ranges.len() - k,
    {
        let rg = ranges[k];
        let mut i: usize = rg.start;
        let mut ok = true;
        while i < rg.end
            invariant_except_break
                ok,
            invariant
                rg == ranges@[k as int],
                a == authed_offsets(*auth),
                rg.start <= i,
                k < ranges@.len(),
                forall|t: int| rg.start <= t < i ==> a.contains(t),
            ensures
                ok ==> forall|t: int| rg.start <= t < rg.end ==> a.contains(t),
                !ok ==> !covered(rg, a),
            decreases rg.end - i,
        {
            if !is_authenticated(auth, i) {
                assert(!a.contains(i as int));
                ok = false;
                break;
            }
            i = i + 1;
        }
        if !ok {
            return Some(k);
        }
        assert(covered(rg, a));
        k = k + 1;
    }
    None
}

/// Checks that every range of `config` lies entirely within the offsets
/// that the cryptographic layer authenticated, failing on the first range
/// that does not, with its direction and bounds.
pub fn verify_reveal_config(config: &RevealConfig, sent_authed: &RangeSet<usize>, recv_authed: &RangeSet<usize>) -> (r: Result<(), (HandlerType, usize, usize)>)
    ensures
        r == validation_outcome(*config, authed_offsets(*sent_authed), authed_offsets(*recv_authed)),
{
    match validate_ranges_against_auth_set(&config.sent, sent_authed) {
        Some(k) => return Err((HandlerType::Sent, config.sent[k].start, config.sent[k].end)),
        None => {},
    }
    match validate_ranges_against_auth_set(&config.recv, recv_authed) {
        Some(k) => Err((HandlerType::Recv, config.recv[k].start, config.recv[k].end)),
        None => Ok(()),
    }
}

} // verus!
