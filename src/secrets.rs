use vstd::prelude::*;
use crate::resolve::ByteRange;

verus! {

/// `s` occurs in `b` at offset `i`.
pub open spec fn occurs_at(b: Seq<u8>, s: Seq<u8>, i: int) -> bool {
    0 <= i && i + s.len() <= b.len() && b.subrange(i, i + s.len()) == s
}

/// The occurrences of `s` in `b` at offsets `i` and later, in order.
pub open spec fn occurrences_from(b: Seq<u8>, s: Seq<u8>, i: int) -> Seq<(int, int)>
    decreases b.len() - i,
{
    if i < 0 || i >= b.len() || i + s.len() > b.len() {
        Seq::empty()
    } else {
        (if occurs_at(b, s, i) {
            seq![(i, i + s.len())]
        } else {
            Seq::empty()
        }) + occurrences_from(b, s, i + 1)
    }
}

/// The occurrences of every secret in turn.
pub open spec fn all_occurrences(b: Seq<u8>, secrets: Seq<Seq<u8>>) -> Seq<(int, int)>
    decreases secrets.len(),
{
    if secrets.len() == 0 {
        Seq::empty()
    } else {
        all_occurrences(b, secrets.drop_last()) + occurrences_from(b, secrets.last(), 0)
    }
}

/// Inserts `x` after every range that starts no later than it.
pub open spec fn insert_by_start(s: Seq<(int, int)>, x: (int, int)) -> Seq<(int, int)>
    decreases s.len(),
{
    if s.len() == 0 {
        seq![x]
    } else if s.last().0 <= x.0 {
        s.push(x)
    } else {
        insert_by_start(s.drop_last(), x).push(s.last())
    }
}

/// `s` stably sorted by start.
pub open spec fn sorted_by_start(s: Seq<(int, int)>) -> Seq<(int, int)>
    decreases s.len(),
{
    if s.len() == 0 {
        Seq::empty()
    } else {
        insert_by_start(sorted_by_start(s.drop_last()), s.last())
    }
}

/// The gaps of a transcript of `n` bytes that ranges `s[k..]` leave, the
/// ranges before them reaching up to `last_end`.
pub open spec fn gaps_from(s: Seq<(int, int)>, k: int, last_end: int, n: int) -> Seq<(int, int)>
    decreases s.len() - k,
{
    if k < 0 || k >= s.len() {
        if last_end < n {
            seq![(last_end, n)]
        } else {
            Seq::empty()
        }
    } else {
        (if s[k].0 > last_end {
            seq![(last_end, s[k].0)]
        } else {
            Seq::empty()
        }) + gaps_from(s, k + 1, if s[k].1 > last_end { s[k].1 } else { last_end }, n)
    }
}

pub open spec fn pairs(v: Seq<ByteRange>) -> Seq<(int, int)> {
    v.map_values(|r: ByteRange| r.pair())
}

fn occurs(b: &[u8], s: &[u8], i: usize) -> (r: bool)
    requires
        i + s@.len() <= b@.len(),
    ensures
        r == occurs_at(b@, s@, i as int),
{
    let n = s.len();
    let bl = b.len();
    let mut k: usize = 0;
    while k < n
        invariant
            n == s@.len(),
            bl == b@.len(),
            i + n <= b@.len(),
            k <= n,
            forall|t: int| 0 <= t < k ==> b@[i + t] == s@[t],
        decreases n - k,
    {
        if b[i + k] != s[k] {
            assert(b@.subrange(i as int, i + n)[k as int] != s@[k as int]);
            return false;
        }
        k = k + 1;
    }
    assert(b@.subrange(i as int, i + n) =~= s@);
    true
}

/// Appends the occurrences of `s` in `b` to `out`.
fn push_occurrences(b: &[u8], s: &[u8], out: &mut Vec<ByteRange>)
    requires
        s@.len() > 0,
    ensures
        pairs(final(out)@) == pairs(old(out)@) + occurrences_from(b@, s@, 0),
{
    if s.len() > b.len() {
        assert(pairs(out@) + occurrences_from(b@, s@, 0) =~= pairs(out@));
        return;
    }
    let bl = b.len();
    let last = b.len() - s.len();
    let mut i: usize = 0;
    let ghost start = pairs(out@);
    while i <= last
        invariant
            last + s@.len() == b@.len(),
            bl == b@.len(),
            s@.len() > 0,
            start == pairs(old(out)@),
            start + occurrences_from(b@, s@, 0) == pairs(out@) + occurrences_from(b@, s@, i as int),
        decreases last + 1 - i,
    {
        let ghost before = pairs(out@);
        if occurs(b, s, i) {
            out.push(ByteRange { start: i, end: i + s.len() });
            assert(pairs(out@) =~= before + seq![(i as int, i + s@.len())]);
        }
        assert(before + occurrences_from(b@, s@, i as int) =~= pairs(out@) + occurrences_from(b@, s@, i + 1));
        if i == last {
            assert(occurrences_from(b@, s@, i + 1) =~= Seq::<(int, int)>::empty());
            assert(pairs(out@) + Seq::<(int, int)>::empty() =~= pairs(out@));
            return;
        }
        i = i + 1;
    }
}


proof fn lemma_insert_at(s: Seq<(int, int)>, x: (int, int), p: int)
    requires
        0 <= p <= s.len(),
        forall|j: int| p <= j < s.len() ==> (#[trigger] s[j]).0 > x.0,
        p > 0 ==> s[p - 1].0 <= x.0,
    ensures
        insert_by_start(s, x) == s.insert(p, x),
    decreases s.len(),
{
    if s.len() == p {
        assert(s.insert(p, x) =~= s.push(x));
    } else {
        let d = s.drop_last();
        assert forall|j: int| p <= j < d.len() implies (#[trigger] d[j]).0 > x.0 by {
            assert(d[j] == s[j]);
        }
        if p > 0 {
            assert(d[p - 1] == s[p - 1]);
        }
        lemma_insert_at(d, x, p);
        assert(d.insert(p, x).push(s.last()) =~= s.insert(p, x));
    }
}

/// Inserts `x` into `v`, sorted by start, after the ranges that start no
/// later than it.
fn insert_sorted(v: &mut Vec<ByteRange>, x: ByteRange)
    ensures
        pairs(final(v)@) == insert_by_start(pairs(old(v)@), x.pair()),
{
    let mut p: usize = v.len();
    while p > 0 && v[p - 1].start > x.start
        invariant
            p <= v@.len(),
            forall|j: int| p <= j < v@.len() ==> (#[trigger] v@[j]).start > x.start,
        decreases p,
    {
        p = p - 1;
    }
    let ghost s = pairs(v@);
    proof {
        assert forall|j: int| p <= j < s.len() implies (#[trigger] s[j]).0 > x.pair().0 by {
            assert(s[j] == v@[j].pair());
        }
        if p > 0 {
            assert(s[p - 1] == v@[p - 1].pair());
        }
        lemma_insert_at(s, x.pair(), p as int);
    }
    v.insert(p, x);
    assert(pairs(v@) =~= s.insert(p as int, x.pair()));
}

pub open spec fn secret_seqs(v: Seq<Vec<u8>>) -> Seq<Seq<u8>> {
    v.map_values(|s: Vec<u8>| s@)
}

/// Finds the ranges of `seq` that hold one of the `secrets` (private, in
/// order of secret and offset) and the ranges around them once sorted by
/// start (public).
pub fn find_ranges(seq: &[u8], secrets: &Vec<Vec<u8>>) -> (r: (Vec<ByteRange>, Vec<ByteRange>))
    requires
        forall|k: int| 0 <= k < secrets@.len() ==> (#[trigger] secrets@[k])@.len() > 0,
    ensures
        pairs(r.1@) == all_occurrences(seq@, secret_seqs(secrets@)),
        pairs(r.0@) == gaps_from(sorted_by_start(all_occurrences(seq@, secret_seqs(secrets@))), 0, 0, seq@.len() as int),
{
    let mut private: Vec<ByteRange> = Vec::new();
    let mut i: usize = 0;
    while i < secrets.len()
        invariant
            i <= secrets@.len(),
            forall|k: int| 0 <= k < secrets@.len() ==> (#[trigger] secrets@[k])@.len() > 0,
            pairs(private@) == all_occurrences(seq@, secret_seqs(secrets@.subrange(0, i as int))),
        decreases secrets.len() - i,
    {
        let ghost before = secrets@.subrange(0, i as int);
        proof {
            let after = secrets@.subrange(0, i + 1);
            assert(secret_seqs(after).drop_last() =~= secret_seqs(before));
            assert(secret_seqs(after).last() == secrets@[i as int]@);
        }
        push_occurrences(seq, secrets[i].as_slice(), &mut private);
        i = i + 1;
    }
    assert(secrets@.subrange(0, i as int) =~= secrets@);

    let ghost occ = pairs(private@);
    let mut sorted: Vec<ByteRange> = Vec::new();
    let mut k: usize = 0;
    while k < private.len()
        invariant
            k <= private@.len(),
            occ == pairs(private@),
            pairs(sorted@) == sorted_by_start(occ.subrange(0, k as int)),
        decreases private.len() - k,
    {
        proof {
            assert(occ.subrange(0, k + 1).drop_last() =~= occ.subrange(0, k as int));
            assert(occ.subrange(0, k + 1).last() == private@[k as int].pair());
        }
        insert_sorted(&mut sorted, private[k]);
        k = k + 1;
    }
    assert(occ.subrange(0, k as int) =~= occ);

    let ghost srt = pairs(sorted@);
    let n = seq.len();
    let mut public: Vec<ByteRange> = Vec::new();
    let mut last_end: usize = 0;
    let mut j: usize = 0;
    while j < sorted.len()
        invariant
            j <= sorted@.len(),
            srt == pairs(sorted@),
            n == seq@.len(),
            gaps_from(srt, 0, 0, n as int) == pairs(public@) + gaps_from(srt, j as int, last_end as int, n as int),
        decreases sorted.len() - j,
    {
        let r = sorted[j];
        let ghost before = pairs(public@);
        assert(srt[j as int] == r.pair());
        if r.start > last_end {
            public.push(ByteRange { start: last_end, end: r.start });
            assert(pairs(public@) =~= before + seq![(last_end as int, r.start as int)]);
        }
        let next_end = if r.end > last_end { r.end } else { last_end };
        if r.start > last_end {
            assert(gaps_from(srt, j as int, last_end as int, n as int) =~= seq![(last_end as int, r.start as int)]
                + gaps_from(srt, j + 1, next_end as int, n as int));
        } else {
            assert(gaps_from(srt, j as int, last_end as int, n as int) =~= gaps_from(srt, j + 1, next_end as int, n as int));
        }
        last_end = next_end;
        j = j + 1;
    }
    let ghost before = pairs(public@);
    if last_end < n {
        public.push(ByteRange { start: last_end, end: n });
        assert(pairs(public@) =~= before + seq![(last_end as int, n as int)]);
    } else {
        assert(before + Seq::<(int, int)>::empty() =~= before);
    }
    (public, private)
}

} // verus!
