//! The daily-assignment store: a keyed cache from (user, calendar day)
//! to the assignment drawn that day.  Key equality is exact on both the
//! user and the day, so entries of another day never answer a lookup
//! for today.  Entries are never evicted.

use vstd::prelude::*;

verus! {

/// One user's lucky draw for one day: the drawn species identifier and
/// the shiny flag.
#[derive(Clone, Copy, PartialEq, Eq, Structural, Debug)]
pub struct Assignment {
    /// The drawn species identifier.
    pub species_id: i64,
    /// Whether the draw came out shiny.
    pub shiny: bool,
}

/// One cached entry: a (user, day) key with its assignment.
#[derive(Clone, Copy, Debug)]
struct StoreEntry {
    user_id: u64,
    day: i64,
    value: Assignment,
}

impl StoreEntry {
    /// The entry's (user, day) key.
    spec fn key(self) -> (u64, i64) {
        (self.user_id, self.day)
    }
}

/// The map held by a sequence of entries.
spec fn map_of(s: Seq<StoreEntry>) -> Map<(u64, i64), Assignment>
    decreases s.len(),
{
    if s.len() == 0 {
        Map::empty()
    } else {
        map_of(s.drop_last()).insert(s.last().key(), s.last().value)
    }
}

/// No two entries share a (user, day) key.
spec fn unique_keys(s: Seq<StoreEntry>) -> bool {
    forall|i: int, j: int|
        0 <= i < j < s.len() ==> #[trigger] s[i].key() != #[trigger] s[j].key()
}

/// Each entry of a duplicate-free sequence is in the map it holds.
proof fn lemma_map_of_entry(s: Seq<StoreEntry>, i: int)
    requires
        unique_keys(s),
        0 <= i < s.len(),
    ensures
        map_of(s).contains_key(s[i].key()),
        map_of(s)[s[i].key()] == s[i].value,
    decreases s.len(),
{
    if i < s.len() - 1 {
        assert(unique_keys(s.drop_last())) by {
            assert forall|a: int, b: int|
                0 <= a < b < s.drop_last().len() implies #[trigger] s.drop_last()[a].key()
                != #[trigger] s.drop_last()[b].key() by {
                assert(s.drop_last()[a] == s[a]);
                assert(s.drop_last()[b] == s[b]);
            }
        }
        lemma_map_of_entry(s.drop_last(), i);
        assert(s.drop_last()[i] == s[i]);
        assert(s[i].key() != s.last().key());
    }
}

/// A key no entry holds is not in the map the sequence holds.
proof fn lemma_map_of_absent(s: Seq<StoreEntry>, k: (u64, i64))
    requires
        forall|i: int| 0 <= i < s.len() ==> #[trigger] s[i].key() != k,
    ensures
        !map_of(s).contains_key(k),
    decreases s.len(),
{
    if s.len() > 0 {
        assert forall|i: int| 0 <= i < s.drop_last().len() implies #[trigger] s.drop_last()[i].key()
            != k by {
            assert(s.drop_last()[i] == s[i]);
        }
        lemma_map_of_absent(s.drop_last(), k);
        assert(s.last() == s[s.len() - 1]);
    }
}

/// Appending an entry inserts its key.
proof fn lemma_map_of_push(s: Seq<StoreEntry>, e: StoreEntry)
    ensures
        map_of(s.push(e)) == map_of(s).insert(e.key(), e.value),
{
    assert(s.push(e).drop_last() =~= s);
    assert(s.push(e).last() == e);
}

/// Replacing the entry that holds a key overwrites that key alone.
proof fn lemma_map_of_update(s: Seq<StoreEntry>, i: int, e: StoreEntry)
    requires
        unique_keys(s),
        0 <= i < s.len(),
        e.key() == s[i].key(),
    ensures
        map_of(s.update(i, e)) == map_of(s).insert(e.key(), e.value),
    decreases s.len(),
{
    let t = s.update(i, e);
    if i == s.len() - 1 {
        assert(t.drop_last() =~= s.drop_last());
        assert(t.last() == e);
        assert(map_of(s.drop_last()).insert(s[i].key(), s[i].value).insert(e.key(), e.value)
            =~= map_of(s.drop_last()).insert(e.key(), e.value));
    } else {
        assert(unique_keys(s.drop_last())) by {
            assert forall|a: int, b: int|
                0 <= a < b < s.drop_last().len() implies #[trigger] s.drop_last()[a].key()
                != #[trigger] s.drop_last()[b].key() by {
                assert(s.drop_last()[a] == s[a]);
                assert(s.drop_last()[b] == s[b]);
            }
        }
        assert(s.drop_last()[i] == s[i]);
        lemma_map_of_update(s.drop_last(), i, e);
        assert(t.drop_last() =~= s.drop_last().update(i, e));
        assert(t.last() == s.last());
        assert(s.last().key() != e.key()) by {
            assert(s[i].key() != s[s.len() - 1].key());
        }
        assert(map_of(s.drop_last()).insert(e.key(), e.value).insert(s.last().key(), s.last().value)
            =~= map_of(s.drop_last()).insert(s.last().key(), s.last().value).insert(
            e.key(),
            e.value,
        ));
    }
}

/// The keyed cache of daily assignments.
pub struct DailyAssignmentStore {
    entries: Vec<StoreEntry>,
}

impl View for DailyAssignmentStore {
    type V = Map<(u64, i64), Assignment>;

    closed spec fn view(&self) -> Map<(u64, i64), Assignment> {
        map_of(self.entries@)
    }
}

impl DailyAssignmentStore {
    /// The store's internal invariant: at most one entry per key.
    pub closed spec fn wf(self) -> bool {
        unique_keys(self.entries@)
    }

    /// Creates an empty store.
    pub fn new() -> (s: Self)
        ensures
            s.wf(),
            s@ == Map::<(u64, i64), Assignment>::empty(),
    {
        DailyAssignmentStore { entries: Vec::new() }
    }

    /// Index of the entry holding the key, when one does.
    fn find(&self, user_id: u64, day: i64) -> (r: Option<usize>)
        requires
            self.wf(),
        ensures
            match r {
                Some(i) => {
                    &&& i < self.entries@.len()
                    &&& self.entries@[i as int].key() == (user_id, day)
                    &&& self@.contains_key((user_id, day))
                    &&& self@[(user_id, day)] == self.entries@[i as int].value
                },
                None => !self@.contains_key((user_id, day)),
            },
    {
        let n = self.entries.len();
        let mut i: usize = 0;
        while i < n
            invariant
                i <= n,
                n == self.entries@.len(),
                self.wf(),
                forall|j: int| 0 <= j < i ==> #[trigger] self.entries@[j].key() != (user_id, day),
            decreases n - i,
        {
            let e = self.entries[i];
            if e.user_id == user_id && e.day == day {
                proof {
                    lemma_map_of_entry(self.entries@, i as int);
                }
                return Some(i);
            }
            i += 1;
        }
        proof {
            lemma_map_of_absent(self.entries@, (user_id, day));
        }
        None
    }

    /// Returns the cached assignment for exactly this (user, day) key,
    /// or absence when none exists.  No side effects.
    pub fn get(&self, user_id: u64, day: i64) -> (r: Option<Assignment>)
        requires
            self.wf(),
        ensures
            r == if self@.contains_key((user_id, day)) {
                Some(self@[(user_id, day)])
            } else {
                None::<Assignment>
            },
    {
        match self.find(user_id, day) {
            Some(i) => Some(self.entries[i].value),
            None => None,
        }
    }

    /// Inserts or overwrites the entry for (user, day); no other key
    /// changes.
    pub fn put(&mut self, user_id: u64, day: i64, value: Assignment)
        requires
            old(self).wf(),
        ensures
            final(self).wf(),
            final(self)@ == old(self)@.insert((user_id, day), value),
    {
        let e = StoreEntry { user_id, day, value };
        match self.find(user_id, day) {
            Some(i) => {
                proof {
                    lemma_map_of_update(self.entries@, i as int, e);
                }
                self.entries.set(i, e);
                proof {
                    assert(unique_keys(self.entries@)) by {
                        assert forall|a: int, b: int|
                            0 <= a < b < self.entries@.len() implies #[trigger] self.entries@[a].key()
                            != #[trigger] self.entries@[b].key() by {
                            if a != i as int {
                                assert(self.entries@[a] == old(self).entries@[a]);
                            }
                            if b != i as int {
                                assert(self.entries@[b] == old(self).entries@[b]);
                            }
                        }
                    }
                }
            },
            None => {
                proof {
                    lemma_map_of_push(self.entries@, e);
                    assert forall|j: int|
                        0 <= j < self.entries@.len() implies #[trigger] self.entries@[j].key() != (
                        user_id,
                        day,
                    ) by {
                        if self.entries@[j].key() == (user_id, day) {
                            lemma_map_of_entry(self.entries@, j);
                        }
                    }
                }
                self.entries.push(e);
                proof {
                    assert(unique_keys(self.entries@)) by {
                        assert forall|a: int, b: int|
                            0 <= a < b < self.entries@.len() implies #[trigger] self.entries@[a].key()
                            != #[trigger] self.entries@[b].key() by {
                            assert(self.entries@[a] == old(self).entries@[a]);
                            if b < self.entries@.len() - 1 {
                                assert(self.entries@[b] == old(self).entries@[b]);
                            } else {
                                assert(self.entries@[b] == e);
                            }
                        }
                    }
                }
            },
        }
    }
}

} // verus!
