//! The lucky-assignment service: given a user and a day it returns that
//! day's (species, shiny) pair, drawing a fresh pair only on the first
//! request of the day and answering every later same-day request with
//! the stored pair unchanged.

use vstd::prelude::*;
use crate::clock::current_day_number;
use crate::random::{draw_shiny, draw_species_id, in_species_range};
use crate::store::{Assignment, DailyAssignmentStore};

verus! {

/// Every cached assignment holds a species identifier in the
/// configured range.
pub open spec fn ranged(m: Map<(u64, i64), Assignment>) -> bool {
    forall|k: (u64, i64)| #[trigger] m.contains_key(k) ==> in_species_range(m[k].species_id)
}

/// The pair a request observes: the cached pair when the (user, day)
/// key is present, else the request's own fresh draw.
pub open spec fn assign_result(
    m: Map<(u64, i64), Assignment>,
    user_id: u64,
    day: i64,
    fresh: Assignment,
) -> Assignment {
    if m.contains_key((user_id, day)) {
        m[(user_id, day)]
    } else {
        fresh
    }
}

/// The store after a request: the observed pair sits at the key, so a
/// fresh draw never overwrites an existing same-day entry.
pub open spec fn assign_store(
    m: Map<(u64, i64), Assignment>,
    user_id: u64,
    day: i64,
    fresh: Assignment,
) -> Map<(u64, i64), Assignment> {
    m.insert((user_id, day), assign_result(m, user_id, day, fresh))
}

/// Orchestrates the daily draw over an injected store.
pub struct LuckyAssignmentService {
    /// The injected daily-assignment store.
    pub store: DailyAssignmentStore,
}

impl LuckyAssignmentService {
    /// Well-formed: the store keeps its invariant and every cached
    /// species identifier lies in the configured range.
    pub open spec fn wf(self) -> bool {
        self.store.wf() && ranged(self.store@)
    }

    /// Creates a service over an empty store.
    pub fn new() -> (s: Self)
        ensures
            s.wf(),
            s.store@ == Map::<(u64, i64), Assignment>::empty(),
    {
        LuckyAssignmentService { store: DailyAssignmentStore::new() }
    }

    /// Returns the user's pair for the given day: the cached pair when
    /// one exists for (user, day), else a fresh in-range draw, which is
    /// stored.  Within a day the call is idempotent: an existing entry
    /// is returned unchanged and the store is untouched.
    pub fn get_or_assign(&mut self, user_id: u64, day: i64) -> (r: Assignment)
        requires
            old(self).wf(),
        ensures
            final(self).wf(),
            in_species_range(r.species_id),
            r == assign_result(old(self).store@, user_id, day, r),
            final(self).store@ == assign_store(old(self).store@, user_id, day, r),
            old(self).store@.contains_key((user_id, day)) ==> r == old(self).store@[(user_id, day)]
                && final(self).store@ == old(self).store@,
    {
        match self.store.get(user_id, day) {
            Some(v) => {
                proof {
                    assert(assign_store(self.store@, user_id, day, v) =~= self.store@);
                }
                v
            },
            None => {
                let species_id = draw_species_id();
                let shiny = draw_shiny();
                let v = Assignment { species_id, shiny };
                self.store.put(user_id, day, v);
                proof {
                    assert(ranged(self.store@)) by {
                        assert forall|k: (u64, i64)| #[trigger] self.store@.contains_key(
                            k,
                        ) implies in_species_range(self.store@[k].species_id) by {
                            if k != (user_id, day) {
                                assert(old(self).store@.contains_key(k));
                            }
                        }
                    }
                }
                v
            },
        }
    }

    /// Computes today from the injected clock, then assigns for that
    /// day.
    pub fn get_or_assign_today(&mut self, user_id: u64) -> (r: Assignment)
        requires
            old(self).wf(),
        ensures
            final(self).wf(),
            in_species_range(r.species_id),
            exists|day: i64|
                r == assign_result(old(self).store@, user_id, day, r) && final(self).store@
                    == assign_store(old(self).store@, user_id, day, r),
    {
        let day = current_day_number();
        let r = self.get_or_assign(user_id, day);
        r
    }
}

/// Law: within one day repeated requests are idempotent.  Whatever the
/// later request's own draw would have been, it observes the pair the
/// first request settled and leaves the store unchanged.
pub proof fn lemma_same_day_idempotent(
    m: Map<(u64, i64), Assignment>,
    user_id: u64,
    day: i64,
    first: Assignment,
    later: Assignment,
)
    ensures
        assign_result(assign_store(m, user_id, day, first), user_id, day, later) == assign_result(
            m,
            user_id,
            day,
            first,
        ),
        assign_store(assign_store(m, user_id, day, first), user_id, day, later) == assign_store(
            m,
            user_id,
            day,
            first,
        ),
{
    let m1 = assign_store(m, user_id, day, first);
    assert(m1.contains_key((user_id, day)));
    assert(assign_store(m1, user_id, day, later) =~= m1);
}

/// Law: a new day is independently assignable.  An entry stored for one
/// day never answers a request for a different day, so a user's first
/// request of an unassigned day observes that request's own fresh draw.
pub proof fn lemma_new_day_independent(
    m: Map<(u64, i64), Assignment>,
    user_id: u64,
    day_a: i64,
    day_b: i64,
    first: Assignment,
    fresh: Assignment,
)
    requires
        day_a != day_b,
        !m.contains_key((user_id, day_b)),
    ensures
        assign_result(assign_store(m, user_id, day_a, first), user_id, day_b, fresh) == fresh,
{
}

/// The store after a serialized run of same-key requests, one fresh
/// draw per request.
pub open spec fn run_requests(
    m: Map<(u64, i64), Assignment>,
    user_id: u64,
    day: i64,
    draws: Seq<Assignment>,
) -> Map<(u64, i64), Assignment>
    decreases draws.len(),
{
    if draws.len() == 0 {
        m
    } else {
        run_requests(assign_store(m, user_id, day, draws[0]), user_id, day, draws.drop_first())
    }
}

/// Once the key is present, further requests leave the store as it is.
proof fn lemma_run_on_present(
    m: Map<(u64, i64), Assignment>,
    user_id: u64,
    day: i64,
    draws: Seq<Assignment>,
)
    requires
        m.contains_key((user_id, day)),
    ensures
        run_requests(m, user_id, day, draws) == m,
    decreases draws.len(),
{
    if draws.len() > 0 {
        assert(assign_store(m, user_id, day, draws[0]) =~= m);
        lemma_run_on_present(m, user_id, day, draws.drop_first());
    }
}

/// Law: under the serialized critical section exactly one request wins.
/// After any number of same-day requests by one user the store is the
/// store after the first request alone, and every one of the requests
/// observes the pair the first request stored.
pub proof fn lemma_single_winner(
    m: Map<(u64, i64), Assignment>,
    user_id: u64,
    day: i64,
    draws: Seq<Assignment>,
)
    requires
        !m.contains_key((user_id, day)),
        draws.len() >= 1,
    ensures
        run_requests(m, user_id, day, draws) == assign_store(m, user_id, day, draws[0]),
        forall|i: int|
            0 <= i < draws.len() ==> assign_result(
                run_requests(m, user_id, day, #[trigger] draws.take(i)),
                user_id,
                day,
                draws[i],
            ) == draws[0],
{
    let m1 = assign_store(m, user_id, day, draws[0]);
    assert(m1.contains_key((user_id, day)));
    lemma_run_on_present(m1, user_id, day, draws.drop_first());
    assert forall|i: int|
        0 <= i < draws.len() implies assign_result(
        run_requests(m, user_id, day, draws.take(i)),
        user_id,
        day,
        draws[i],
    ) == draws[0] by {
        if i == 0 {
            assert(draws.take(0) =~= Seq::<Assignment>::empty());
        } else {
            assert(draws.take(i).len() == i);
            assert(draws.take(i)[0] == draws[0]);
            assert(draws.take(i).drop_first() =~= draws.drop_first().take(i - 1));
            lemma_run_on_present(m1, user_id, day, draws.drop_first().take(i - 1));
            assert(run_requests(m, user_id, day, draws.take(i)) == m1);
        }
    }
}

} // verus!
