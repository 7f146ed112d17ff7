use vstd::prelude::*;
use crate::protocol::{transition, SessionAction, SessionEvent, SessionMachine, SessionPhase};

verus! {

/// Whether `id` names an entry of `v`.
pub open spec fn holds_id<S>(v: Seq<(Seq<char>, S)>, id: Seq<char>) -> bool {
    exists|i: int| 0 <= i < v.len() && (#[trigger] v[i]).0 == id
}

/// No two entries of `v` share an id.
pub open spec fn ids_unique<S>(v: Seq<(Seq<char>, S)>) -> bool {
    forall|i: int, j: int| 0 <= i < j < v.len() ==> (#[trigger] v[i]).0 != (#[trigger] v[j]).0
}

/// Index of the entry of `v` named `id`, from `k` on.
pub open spec fn position_of<S>(v: Seq<(Seq<char>, S)>, id: Seq<char>, k: int) -> Option<int>
    decreases v.len() - k,
{
    if k < 0 || k >= v.len() {
        None
    } else if v[k].0 == id {
        Some(k)
    } else {
        position_of(v, id, k + 1)
    }
}

/// Pending sessions, each with the one-shot slot through which the
/// prover's verifier-side connection is handed to the waiting task.
pub struct SessionRegistry<S> {
    entries: Vec<(String, S)>,
}

impl<S> SessionRegistry<S> {
    /// The pending sessions, by id, in order of registration.
    pub closed spec fn view(&self) -> Seq<(Seq<char>, S)> {
        self.entries@.map_values(|e: (String, S)| (e.0@, e.1))
    }

    pub open spec fn wf(&self) -> bool {
        ids_unique(self@)
    }

    /// An empty registry.
    pub fn new() -> (r: Self)
        ensures
            r.wf(),
            r@.len() == 0,
    {
        let r = SessionRegistry { entries: Vec::new() };
        assert(r@ =~= Seq::<(Seq<char>, S)>::empty());
        r
    }

    /// Number of pending sessions.
    pub fn len(&self) -> (r: usize)
        ensures
            r == self@.len(),
    {
        self.entries.len()
    }

    /// Index of the session named `id`.
    fn find(&self, id: &String) -> (r: Option<usize>)
        ensures
            crate::resolve::index_of(r) == position_of(self@, id@, 0),
            r matches Some(i) ==> i < self@.len() && self@[i as int].0 == id@,
            r is None ==> !holds_id(self@, id@),
    {
        let mut k: usize = 0;
        while k < self.entries.len()
            invariant
                k <= self@.len(),
                self@.len() == self.entries@.len(),
                position_of(self@, id@, k as int) == position_of(self@, id@, 0),
                forall|t: int| 0 <= t < k ==> (#[trigger] self@[t]).0 != id@,
            decreases self.entries.len() - k,
        {
            if self.entries[k].0 == *id {
                return Some(k);
            }
            k = k + 1;
        }
        None
    }

    /// Whether a session named `id` is pending.
    pub fn contains(&self, id: &String) -> (r: bool)
        ensures
            r == holds_id(self@, id@),
    {
        match self.find(id) {
            Some(_) => true,
            None => false,
        }
    }

    /// Registers a session; an id already pending is refused and the slot
    /// handed back.
    pub fn register(&mut self, id: String, slot: S) -> (r: Result<(), S>)
        requires
            old(self).wf(),
        ensures
            final(self).wf(),
            holds_id(old(self)@, id@) ==> r == Err::<(), S>(slot) && final(self)@ == old(self)@,
            !holds_id(old(self)@, id@) ==> r is Ok && final(self)@ == old(self)@.push((id@, slot)),
    {
        if self.contains(&id) {
            return Err(slot);
        }
        let ghost v = self@;
        let ghost idv = id@;
        self.entries.push((id, slot));
        assert(self@ =~= v.push((idv, slot)));
        assert forall|i: int, j: int| 0 <= i < j < self@.len() implies (#[trigger] self@[i]).0 != (#[trigger] self@[j]).0 by {
            if j == v.len() {
                assert(v[i] == self@[i]);
            } else {
                assert(v[i] == self@[i] && v[j] == self@[j]);
            }
        }
        Ok(())
    }

    /// Takes the slot of the session named `id`, which stops being pending:
    /// at most one prover can claim a session.
    pub fn claim(&mut self, id: &String) -> (r: Option<S>)
        requires
            old(self).wf(),
        ensures
            final(self).wf(),
            match position_of(old(self)@, id@, 0) {
                Some(i) => r == Some(old(self)@[i].1) && final(self)@ == old(self)@.remove(i),
                None => r is None && final(self)@ == old(self)@,
            },
            !holds_id(final(self)@, id@),
    {
        match self.find(id) {
            Some(i) => {
                let ghost v = self@;
                let e = self.entries.remove(i);
                assert(self@ =~= v.remove(i as int));
                proof {
                    lemma_remove_keeps_unique(v, i as int);
                    lemma_removed_absent(v, i as int);
                }
                Some(e.1)
            },
            None => None,
        }
    }

    /// Drops the session named `id` if it is still pending; dropping an
    /// absent session is no error.
    pub fn remove(&mut self, id: &String)
        requires
            old(self).wf(),
        ensures
            final(self).wf(),
            match position_of(old(self)@, id@, 0) {
                Some(i) => final(self)@ == old(self)@.remove(i),
                None => final(self)@ == old(self)@,
            },
            !holds_id(final(self)@, id@),
    {
        let _ = self.claim(id);
    }
}

proof fn lemma_remove_keeps_unique<S>(v: Seq<(Seq<char>, S)>, i: int)
    requires
        ids_unique(v),
        0 <= i < v.len(),
    ensures
        ids_unique(v.remove(i)),
{
    let w = v.remove(i);
    assert forall|a: int, b: int| 0 <= a < b < w.len() implies (#[trigger] w[a]).0 != (#[trigger] w[b]).0 by {
        let a2 = if a < i { a } else { a + 1 };
        let b2 = if b < i { b } else { b + 1 };
        assert(w[a] == v[a2] && w[b] == v[b2]);
    }
}

proof fn lemma_removed_absent<S>(v: Seq<(Seq<char>, S)>, i: int)
    requires
        ids_unique(v),
        0 <= i < v.len(),
    ensures
        !holds_id(v.remove(i), v[i].0),
{
    let w = v.remove(i);
    if holds_id(w, v[i].0) {
        let a = choose|a: int| 0 <= a < w.len() && (#[trigger] w[a]).0 == v[i].0;
        let a2 = if a < i { a } else { a + 1 };
        assert(w[a] == v[a2]);
    }
}

/// Relies on uuid::Uuid::new_v4 and its `Display` (hyphenated form): a
/// random identifier of 36 characters.
#[verifier::external_body]
fn random_session_id() -> (r: String)
    ensures
        r@.len() == 36,
{
    uuid::Uuid::new_v4().to_string()
}

impl<S> SessionRegistry<S> {
    /// Registers a new session under a fresh random id and returns the id;
    /// on the (unlikely) event that the id is already pending, the slot is
    /// handed back. Fresh ids are 36 characters long, so a registry holding
    /// no id of that length always accepts.
    pub fn open_session(&mut self, slot: S) -> (r: Result<String, S>)
        requires
            old(self).wf(),
        ensures
            final(self).wf(),
            match r {
                Ok(id) => !holds_id(old(self)@, id@) && final(self)@ == old(self)@.push((id@, slot)),
                Err(s) => s == slot && final(self)@ == old(self)@
                    && exists|i: int| 0 <= i < old(self)@.len() && (#[trigger] old(self)@[i]).0.len() == 36,
            },
    {
        let id = random_session_id();
        let copy = id.clone();
        match self.register(id, slot) {
            Ok(()) => Ok(copy),
            Err(s) => Err(s),
        }
    }
}

/// Two sessions registered one after the other, both accepted, have
/// distinct ids.
pub proof fn lemma_registrations_distinct<S>(v: Seq<(Seq<char>, S)>, id1: Seq<char>, s1: S, id2: Seq<char>)
    requires
        !holds_id(v, id1),
        !holds_id(v.push((id1, s1)), id2),
    ensures
        id1 != id2,
{
    assert(v.push((id1, s1))[v.len() as int].0 == id1);
}

/// Once claimed, a session cannot be claimed again.
pub proof fn lemma_claim_once<S>(v: Seq<(Seq<char>, S)>, id: Seq<char>)
    requires
        ids_unique(v),
    ensures
        position_of(v, id, 0) matches Some(i) ==> position_of(v.remove(i), id, 0) is None,
{
    lemma_position_of(v, id, 0);
    if let Some(i) = position_of(v, id, 0) {
        lemma_removed_absent(v, i);
        lemma_position_of(v.remove(i), id, 0);
    }
}

/// Removing one session leaves every other pending session, and its slot,
/// in place.
pub proof fn lemma_removal_isolated<S>(v: Seq<(Seq<char>, S)>, i: int, other: Seq<char>)
    requires
        ids_unique(v),
        0 <= i < v.len(),
        other != v[i].0,
    ensures
        forall|k: int| 0 <= k < v.len() && (#[trigger] v[k]).0 == other ==> exists|t: int|
            0 <= t < v.remove(i).len() && #[trigger] v.remove(i)[t] == v[k],
{
    assert forall|k: int| 0 <= k < v.len() && (#[trigger] v[k]).0 == other implies exists|t: int|
        0 <= t < v.remove(i).len() && #[trigger] v.remove(i)[t] == v[k] by {
        let t = if k < i { k } else { k - 1 };
        assert(v.remove(i)[t] == v[k]);
    }
}

/// A session whose wait for the prover's connection runs out is aborted as
/// timed out and its entry removed; every other pending session keeps its
/// slot and can still be claimed.
pub proof fn lemma_timeout_isolated<S>(v: Seq<(Seq<char>, S)>, timed_out: Seq<char>, other: Seq<char>, m: SessionMachine)
    requires
        ids_unique(v),
        other != timed_out,
        m.phase == SessionPhase::AwaitingProverSocket,
    ensures
        transition(m, SessionEvent::WaitExpired).0.phase == SessionPhase::TimedOut,
        transition(m, SessionEvent::WaitExpired).1 == SessionAction::Abort,
        position_of(v, timed_out, 0) matches Some(i) ==> (position_of(v, other, 0) matches Some(k) ==> (
            position_of(v.remove(i), other, 0) matches Some(k2) && v.remove(i)[k2] == v[k])),
{
    lemma_position_of(v, timed_out, 0);
    lemma_position_of(v, other, 0);
    if let Some(i) = position_of(v, timed_out, 0) {
        if let Some(k) = position_of(v, other, 0) {
            let w = v.remove(i);
            lemma_remove_keeps_unique(v, i);
            let k2 = if k < i { k } else { k - 1 };
            assert(k != i);
            assert(w[k2] == v[k]);
            lemma_position_of(w, other, 0);
            if let Some(t) = position_of(w, other, 0) {
                if t != k2 {
                    if t < k2 {
                        assert(w[t].0 != w[k2].0);
                    } else {
                        assert(w[k2].0 != w[t].0);
                    }
                }
            }
        }
    }
}

proof fn lemma_position_of<S>(v: Seq<(Seq<char>, S)>, id: Seq<char>, k: int)
    requires
        0 <= k,
    ensures
        position_of(v, id, k) matches Some(i) ==> k <= i < v.len() && v[i].0 == id,
        position_of(v, id, k) is None ==> forall|j: int| k <= j < v.len() ==> (#[trigger] v[j]).0 != id,
    decreases v.len() - k,
{
    if k < v.len() {
        lemma_position_of(v, id, k + 1);
    }
}

} // verus!
