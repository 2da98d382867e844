//! A pool of named credentials with last-known rate-limit state.
//!
//! `select` hands back the entry with the most remaining quota, breaking ties
//! by the oldest `last_used`; `record` folds an observed outcome back into an
//! entry.  Every entry keeps the invariant `used + remaining <= limit` once a
//! rate-limit observation has been recorded for it.

use vstd::prelude::*;

use crate::text::str_eq;

verus! {

/// One credential and the rate-limit state last observed for it.
#[derive(Debug, Clone)]
pub struct TokenEntry {
    /// The name under which outcomes are recorded.
    pub identifier: String,
    /// The secret itself; never part of any message the library builds.
    pub secret: String,
    /// Last observed quota ceiling.
    pub limit: u32,
    /// Last observed remaining quota.
    pub remaining: u32,
    /// Last observed reset time, in Unix seconds.
    pub reset_time: u64,
    /// Last observed used count.
    pub used: u32,
    /// Whether a rate-limit observation has been recorded yet.
    pub observed: bool,
    /// When the entry was last selected for work, in Unix seconds.
    pub last_used: u64,
}

/// The mathematical value of an entry.
pub ghost struct EntryView {
    pub identifier: Seq<char>,
    pub secret: Seq<char>,
    pub limit: u32,
    pub remaining: u32,
    pub reset_time: u64,
    pub used: u32,
    pub observed: bool,
    pub last_used: u64,
}

impl View for TokenEntry {
    type V = EntryView;

    open spec fn view(&self) -> EntryView {
        EntryView {
            identifier: self.identifier@,
            secret: self.secret@,
            limit: self.limit,
            remaining: self.remaining,
            reset_time: self.reset_time,
            used: self.used,
            observed: self.observed,
            last_used: self.last_used,
        }
    }
}

impl EntryView {
    /// Once observed, the used and remaining counts fit under the limit.
    pub open spec fn wf(self) -> bool {
        self.observed ==> self.used + self.remaining <= self.limit
    }
}

impl TokenEntry {
    /// A fresh, never-observed entry.  Its remaining quota starts at the
    /// largest representable value so that an unobserved credential is
    /// preferred over an exhausted one.
    pub fn new(identifier: String, secret: String) -> (e: TokenEntry)
        ensures
            e@.identifier == identifier@,
            e@.secret == secret@,
            !e@.observed,
            e@.remaining == u32::MAX,
            e@.last_used == 0u64,
            e@.wf(),
    {
        TokenEntry {
            identifier,
            secret,
            limit: 0,
            remaining: u32::MAX,
            reset_time: 0,
            used: 0,
            observed: false,
            last_used: 0,
        }
    }

    /// A value copy of the entry.
    pub fn duplicate(&self) -> (e: TokenEntry)
        ensures
            e@ == self@,
    {
        TokenEntry {
            identifier: self.identifier.clone(),
            secret: self.secret.clone(),
            limit: self.limit,
            remaining: self.remaining,
            reset_time: self.reset_time,
            used: self.used,
            observed: self.observed,
            last_used: self.last_used,
        }
    }
}

/// The outcome of one piece of outbound work, to be folded into the entry it
/// was done with.
#[derive(Debug, Clone)]
pub enum RecordOutcome {
    /// The call succeeded and consumed one unit of quota.
    UsedOk,
    /// The remote reported a full rate-limit snapshot.
    Observed { limit: u32, remaining: u32, reset_time: u64, used: u32 },
    /// The remote rejected the call for exhausted quota, with its reset time.
    RateLimited { reset_time: u64 },
}

/// What an entry becomes when an outcome is recorded on it at time `now`.
/// An observed snapshot overwrites the fields, with `remaining` capped at
/// `limit` and `used` capped at `limit - remaining`, so the entry invariant
/// holds whatever the remote sent; `remaining` never grows except through
/// such a snapshot.
pub open spec fn apply_outcome(e: EntryView, outcome: RecordOutcome, now: u64) -> EntryView {
    match outcome {
        RecordOutcome::UsedOk => EntryView {
            remaining: if e.observed && e.remaining > 0 {
                (e.remaining - 1) as u32
            } else {
                e.remaining
            },
            used: if e.observed && e.remaining > 0 {
                (e.used + 1) as u32
            } else {
                e.used
            },
            last_used: now,
            ..e
        },
        RecordOutcome::Observed { limit, remaining, reset_time, used } => {
            let capped_remaining = if remaining <= limit {
                remaining
            } else {
                limit
            };
            let capped_used = if used <= limit - capped_remaining {
                used
            } else {
                (limit - capped_remaining) as u32
            };
            EntryView {
                limit,
                remaining: capped_remaining,
                reset_time,
                used: capped_used,
                observed: true,
                last_used: now,
                ..e
            }
        },
        RecordOutcome::RateLimited { reset_time } => EntryView {
            remaining: 0,
            reset_time,
            last_used: now,
            ..e
        },
    }
}

/// Some entry of the sequence carries this identifier.
pub open spec fn has_identifier(entries: Seq<EntryView>, id: Seq<char>) -> bool {
    exists|i: int| 0 <= i < entries.len() && entries[i].identifier == id
}

/// The credential pool.
#[derive(Debug, Clone)]
pub struct TokenPool {
    entries: Vec<TokenEntry>,
}

impl View for TokenPool {
    type V = Seq<EntryView>;

    closed spec fn view(&self) -> Seq<EntryView> {
        self.entries@.map_values(|e: TokenEntry| e@)
    }
}

impl TokenPool {
    /// Entries are well formed and named uniquely.
    pub open spec fn wf(self) -> bool {
        &&& forall|i: int| 0 <= i < self@.len() ==> (#[trigger] self@[i]).wf()
        &&& forall|i: int, j: int|
            0 <= i < j < self@.len() ==> self@[i].identifier != self@[j].identifier
    }

    /// An empty pool.
    pub fn new() -> (p: TokenPool)
        ensures
            p@.len() == 0,
            p.wf(),
    {
        TokenPool { entries: Vec::new() }
    }

    /// How many credentials the pool holds.
    pub fn len(&self) -> (n: usize)
        ensures
            n == self@.len(),
    {
        self.entries.len()
    }

    /// Adds a credential under a fresh identifier; an identifier already in
    /// the pool is refused.
    pub fn add(&mut self, identifier: String, secret: String) -> (r: bool)
        requires
            old(self).wf(),
        ensures
            final(self).wf(),
            r == !has_identifier(old(self)@, identifier@),
            r ==> final(self)@.len() == old(self)@.len() + 1 && final(self)@.last().identifier
                == identifier@ && final(self)@.last().secret == secret@
                && !final(self)@.last().observed && final(self)@.take(old(self)@.len() as int)
                == old(self)@,
            !r ==> final(self)@ == old(self)@,
    {
        let n = self.entries.len();
        let mut i: usize = 0;
        while i < n
            invariant
                0 <= i <= n,
                n == self@.len(),
                *self == *old(self),
                old(self).wf(),
                forall|k: int| 0 <= k < i ==> (#[trigger] self@[k]).identifier != identifier@,
            decreases n - i,
        {
            if str_eq(self.entries[i].identifier.as_str(), identifier.as_str()) {
                proof {
                    assert(self@[i as int] == self.entries@[i as int]@);
                    assert(has_identifier(old(self)@, identifier@)) by {
                        assert(old(self)@[i as int].identifier == identifier@);
                    }
                }
                return false;
            }
            proof {
                assert(self@[i as int] == self.entries@[i as int]@);
            }
            i = i + 1;
        }
        let entry = TokenEntry::new(identifier, secret);
        self.entries.push(entry);
        proof {
            assert(final(self)@ =~= old(self)@.push(entry@));
            assert(final(self)@.take(old(self)@.len() as int) =~= old(self)@);
        }
        true
    }

    /// Picks the entry with the most remaining quota, ties broken by the
    /// oldest `last_used`.  The second part of the result says whether even
    /// the best entry is exhausted: no quota left and a reset still in the
    /// future at time `now`.
    pub fn select(&self, now: u64) -> (r: Option<(usize, bool)>)
        ensures
            r is Some <==> self@.len() > 0,
            r is Some ==> {
                let (i, exhausted) = r->Some_0;
                &&& i < self@.len()
                &&& forall|j: int|
                    0 <= j < self@.len() ==> (#[trigger] self@[j]).remaining
                        <= self@[i as int].remaining
                &&& forall|j: int|
                    0 <= j < self@.len() && (#[trigger] self@[j]).remaining
                        == self@[i as int].remaining ==> self@[i as int].last_used
                        <= self@[j].last_used
                &&& exhausted == (self@[i as int].remaining == 0 && self@[i as int].reset_time
                    > now)
            },
    {
        let n = self.entries.len();
        if n == 0 {
            return None;
        }
        let mut best: usize = 0;
        let mut i: usize = 1;
        while i < n
            invariant
                0 <= best < i <= n,
                n == self@.len(),
                forall|j: int|
                    0 <= j < i ==> (#[trigger] self@[j]).remaining <= self@[best as int].remaining,
                forall|j: int|
                    0 <= j < i && (#[trigger] self@[j]).remaining == self@[best as int].remaining
                        ==> self@[best as int].last_used <= self@[j].last_used,
            decreases n - i,
        {
            let cand_rem = self.entries[i].remaining;
            let best_rem = self.entries[best].remaining;
            if cand_rem > best_rem || (cand_rem == best_rem && self.entries[i].last_used
                < self.entries[best].last_used) {
                best = i;
            }
            i = i + 1;
        }
        let exhausted = self.entries[best].remaining == 0 && self.entries[best].reset_time > now;
        Some((best, exhausted))
    }

    /// Returns a value copy of one entry.
    pub fn entry_at(&self, i: usize) -> (e: TokenEntry)
        requires
            i < self@.len(),
        ensures
            e@ == self@[i as int],
    {
        self.entries[i].duplicate()
    }

    /// Folds an outcome into the entry named by `identifier`; reports whether
    /// such an entry exists.  Every other entry is untouched, and the pool
    /// stays well formed.
    pub fn record(&mut self, identifier: &str, outcome: RecordOutcome, now: u64) -> (r: bool)
        requires
            old(self).wf(),
        ensures
            final(self).wf(),
            r == has_identifier(old(self)@, identifier@),
            final(self)@.len() == old(self)@.len(),
            forall|j: int|
                0 <= j < old(self)@.len() && (#[trigger] old(self)@[j]).identifier != identifier@
                    ==> final(self)@[j] == old(self)@[j],
            forall|j: int|
                0 <= j < old(self)@.len() && (#[trigger] old(self)@[j]).identifier == identifier@
                    ==> final(self)@[j] == apply_outcome(old(self)@[j], outcome, now),
    {
        let n = self.entries.len();
        let mut i: usize = 0;
        while i < n
            invariant
                0 <= i <= n,
                n == self@.len(),
                *self == *old(self),
                old(self).wf(),
                forall|k: int| 0 <= k < i ==> (#[trigger] self@[k]).identifier != identifier@,
            decreases n - i,
        {
            proof {
                assert(self@[i as int] == self.entries@[i as int]@);
                assert(self@[i as int].wf());
            }
            if str_eq(self.entries[i].identifier.as_str(), identifier) {
                let updated = apply_outcome_exec(&self.entries[i], &outcome, now);
                proof {
                    assert(updated@ == apply_outcome(old(self)@[i as int], outcome, now));
                }
                self.entries.set(i, updated);
                proof {
                    assert(final(self)@ =~= old(self)@.update(i as int, updated@));
                    assert(old(self)@[i as int].identifier == identifier@);
                    assert(has_identifier(old(self)@, identifier@)) by {
                        assert(old(self)@[i as int].identifier == identifier@);
                    }
                    assert(updated@.identifier == old(self)@[i as int].identifier);
                    assert forall|k: int|
                        0 <= k < old(self)@.len() && (#[trigger] old(self)@[k]).identifier
                            == identifier@ implies k == i as int by {
                        if k > i as int {
                            assert(old(self)@[i as int].identifier != old(self)@[k].identifier);
                        }
                    }
                }
                return true;
            }
            i = i + 1;
        }
        false
    }
}

/// The executable mirror of `apply_outcome`.
fn apply_outcome_exec(e: &TokenEntry, outcome: &RecordOutcome, now: u64) -> (r: TokenEntry)
    requires
        e@.wf(),
    ensures
        r@ == apply_outcome(e@, *outcome, now),
        r@.wf(),
{
    match outcome {
        RecordOutcome::UsedOk => {
            let (remaining, used) = if e.observed && e.remaining > 0 {
                (e.remaining - 1, e.used + 1)
            } else {
                (e.remaining, e.used)
            };
            TokenEntry { remaining, used, last_used: now, ..e.duplicate() }
        },
        RecordOutcome::Observed { limit, remaining, reset_time, used } => {
            let capped_remaining = if *remaining <= *limit {
                *remaining
            } else {
                *limit
            };
            let capped_used = if *used <= *limit - capped_remaining {
                *used
            } else {
                *limit - capped_remaining
            };
            TokenEntry {
                limit: *limit,
                remaining: capped_remaining,
                reset_time: *reset_time,
                used: capped_used,
                observed: true,
                last_used: now,
                ..e.duplicate()
            }
        },
        RecordOutcome::RateLimited { reset_time } => TokenEntry {
            remaining: 0,
            reset_time: *reset_time,
            last_used: now,
            ..e.duplicate()
        },
    }
}

} // verus!
