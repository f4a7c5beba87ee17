//! The durable key-value store that holds every record of both ledgers.
//!
//! Records are addressed by composite tagged keys: a tender and its bid list
//! share the tender's id under two different tags, an owner's note counter
//! and each of the owner's notes likewise. The store itself is a flat table
//! of key/value pairs with pairwise-distinct keys, and its contract speaks
//! only of the abstract map [`Store::contents`]: a value written under a key
//! is exactly the value read back from it until the next write to that key.

use vstd::prelude::*;

use crate::records::Bid;
use crate::records::Note;
use crate::records::Tender;

verus! {

/// A storage address. The tag distinguishes the four record kinds, so keys of
/// different kinds never collide even when they carry the same identifiers.
#[derive(Clone, Copy, PartialEq, Eq, Structural, Debug)]
pub enum StoreKey {
    /// The tender record with this tender id.
    Tender(u64),
    /// The bid list of the tender with this tender id.
    TenderBids(u64),
    /// The note counter of this owner.
    NoteCount(u64),
    /// The note of this owner (first field) with this note id (second field).
    Note(u64, u64),
}

/// A stored record.
pub enum StoreVal {
    Tender(Tender),
    Bids(Vec<Bid>),
    Count(u64),
    Note(Note),
}

/// The store: a table of key/value pairs whose keys are pairwise distinct.
pub struct Store {
    entries: Vec<(StoreKey, StoreVal)>,
}

/// The map an entry table denotes: later entries win, though with distinct
/// keys there is nothing to win over.
pub open spec fn entries_map(s: Seq<(StoreKey, StoreVal)>) -> Map<StoreKey, StoreVal>
    decreases s.len(),
{
    if s.len() == 0 {
        Map::empty()
    } else {
        entries_map(s.drop_last()).insert(s.last().0, s.last().1)
    }
}

/// Pairwise distinctness of the keys of an entry table.
pub open spec fn distinct_keys(s: Seq<(StoreKey, StoreVal)>) -> bool {
    forall|i: int, j: int| 0 <= i < j < s.len() ==> (#[trigger] s[i]).0 != (#[trigger] s[j]).0
}

/// Law (round trip): after a write, the written key holds exactly the
/// written record, and every other key still holds what it held before.
/// [`Store::set`] ends with `contents` as the insert below, and
/// [`Store::get`] returns `contents` at the key asked for, so a record
/// written and immediately read back comes back unchanged.
pub proof fn lemma_store_round_trip(before: Map<StoreKey, StoreVal>, k: StoreKey, v: StoreVal)
    ensures
        before.insert(k, v).contains_key(k),
        before.insert(k, v)[k] == v,
        forall|k2: StoreKey|
            k2 != k && before.contains_key(k2) ==> #[trigger] before.insert(k, v)[k2] == before[k2],
{
}

/// A key is in the map iff some entry holds it.
proof fn lemma_entries_map_contains(s: Seq<(StoreKey, StoreVal)>)
    ensures
        forall|k: StoreKey|
            #[trigger] entries_map(s).contains_key(k) <==> (exists|i: int|
                0 <= i < s.len() && (#[trigger] s[i]).0 == k),
    decreases s.len(),
{
    if s.len() > 0 {
        lemma_entries_map_contains(s.drop_last());
        assert forall|k: StoreKey| #[trigger]
            entries_map(s).contains_key(k) implies (exists|i: int|
            0 <= i < s.len() && (#[trigger] s[i]).0 == k) by {
            if k == s.last().0 {
                assert(s[s.len() - 1].0 == k);
            } else {
                assert(entries_map(s) == entries_map(s.drop_last()).insert(s.last().0, s.last().1));
                assert(entries_map(s.drop_last()).contains_key(k));
                let i = choose|i: int| 0 <= i < s.drop_last().len() && (#[trigger] s.drop_last()[i]).0 == k;
                assert(s.drop_last()[i] == s[i]);
                assert(s[i].0 == k);
            }
        }
        assert forall|k: StoreKey|
            (exists|i: int| 0 <= i < s.len() && (#[trigger] s[i]).0 == k) implies #[trigger]
            entries_map(s).contains_key(k) by {
            let i = choose|i: int| 0 <= i < s.len() && (#[trigger] s[i]).0 == k;
            assert(entries_map(s) == entries_map(s.drop_last()).insert(s.last().0, s.last().1));
            if i < s.len() - 1 {
                assert(s.drop_last()[i] == s[i]);
                assert(0 <= i < s.drop_last().len() && (#[trigger] s.drop_last()[i]).0 == k);
                assert(entries_map(s.drop_last()).contains_key(k));
            } else {
                assert(s.last().0 == k);
            }
        }
    }
}

/// With distinct keys, the map sends each entry's key to that entry's value.
proof fn lemma_entries_map_at(s: Seq<(StoreKey, StoreVal)>, i: int)
    requires
        distinct_keys(s),
        0 <= i < s.len(),
    ensures
        entries_map(s).contains_key(s[i].0),
        entries_map(s)[s[i].0] == s[i].1,
    decreases s.len(),
{
    if i == s.len() - 1 {
    } else {
        assert(distinct_keys(s.drop_last()));
        lemma_entries_map_at(s.drop_last(), i);
        assert(s.drop_last()[i] == s[i]);
        assert(s[s.len() - 1].0 != s[i].0);
    }
}

/// With distinct keys, overwriting one entry's value updates the map at that
/// entry's key alone.
proof fn lemma_entries_map_update(s: Seq<(StoreKey, StoreVal)>, i: int, v: StoreVal)
    requires
        distinct_keys(s),
        0 <= i < s.len(),
    ensures
        entries_map(s.update(i, (s[i].0, v))) == entries_map(s).insert(s[i].0, v),
    decreases s.len(),
{
    let k = s[i].0;
    let t = s.update(i, (k, v));
    if i == s.len() - 1 {
        assert(t.drop_last() =~= s.drop_last());
        assert(t.last() == (k, v));
        assert(entries_map(t) == entries_map(s.drop_last()).insert(k, v));
        assert(entries_map(s.drop_last()).insert(k, s[i].1).insert(k, v) =~= entries_map(
            s.drop_last(),
        ).insert(k, v));
    } else {
        assert(distinct_keys(s.drop_last()));
        assert(s.drop_last()[i] == s[i]);
        lemma_entries_map_update(s.drop_last(), i, v);
        assert(t.drop_last() =~= s.drop_last().update(i, (k, v)));
        assert(t.last() == s.last());
        assert(entries_map(t) == entries_map(s.drop_last()).insert(k, v).insert(
            s.last().0,
            s.last().1,
        ));
        assert(s[s.len() - 1].0 != k);
        assert(entries_map(s.drop_last()).insert(k, v).insert(s.last().0, s.last().1) =~= entries_map(
            s.drop_last(),
        ).insert(s.last().0, s.last().1).insert(k, v));
    }
}

impl Store {
    /// What the store holds, as a map from keys to records.
    pub closed spec fn contents(self) -> Map<StoreKey, StoreVal> {
        entries_map(self.entries@)
    }

    /// The store's own invariant: no key occurs twice in the table.
    pub closed spec fn wf(self) -> bool {
        distinct_keys(self.entries@)
    }

    /// An empty store.
    pub fn new() -> (s: Store)
        ensures
            s.wf(),
            s.contents() == Map::<StoreKey, StoreVal>::empty(),
    {
        let s = Store { entries: Vec::new() };
        proof {
            assert(s.entries@.len() == 0);
            assert(s.contents() =~= Map::<StoreKey, StoreVal>::empty());
        }
        s
    }

    /// Whether a record exists under `k`.
    pub fn has(&self, k: StoreKey) -> (r: bool)
        requires
            self.wf(),
        ensures
            r == self.contents().contains_key(k),
    {
        proof {
            lemma_entries_map_contains(self.entries@);
        }
        let mut i: usize = 0;
        while i < self.entries.len()
            invariant
                i <= self.entries@.len(),
                forall|j: int| 0 <= j < i ==> (#[trigger] self.entries@[j]).0 != k,
                forall|k2: StoreKey|
                    #[trigger] entries_map(self.entries@).contains_key(k2) <==> (exists|j: int|
                        0 <= j < self.entries@.len() && (#[trigger] self.entries@[j]).0 == k2),
            decreases self.entries@.len() - i,
        {
            if self.entries[i].0 == k {
                return true;
            }
            i += 1;
        }
        false
    }

    /// The record under `k`, if any.
    pub fn get(&self, k: StoreKey) -> (r: Option<&StoreVal>)
        requires
            self.wf(),
        ensures
            match r {
                Some(v) => self.contents().contains_key(k) && *v == self.contents()[k],
                None => !self.contents().contains_key(k),
            },
    {
        proof {
            lemma_entries_map_contains(self.entries@);
        }
        let mut i: usize = 0;
        while i < self.entries.len()
            invariant
                i <= self.entries@.len(),
                self.wf(),
                forall|j: int| 0 <= j < i ==> (#[trigger] self.entries@[j]).0 != k,
                forall|k2: StoreKey|
                    #[trigger] entries_map(self.entries@).contains_key(k2) <==> (exists|j: int|
                        0 <= j < self.entries@.len() && (#[trigger] self.entries@[j]).0 == k2),
            decreases self.entries@.len() - i,
        {
            if self.entries[i].0 == k {
                proof {
                    lemma_entries_map_at(self.entries@, i as int);
                }
                return Some(&self.entries[i].1);
            }
            i += 1;
        }
        None
    }

    /// Writes `v` under `k`, replacing any record already there.
    pub fn set(&mut self, k: StoreKey, v: StoreVal)
        requires
            old(self).wf(),
        ensures
            final(self).wf(),
            final(self).contents() == old(self).contents().insert(k, v),
    {
        proof {
            lemma_entries_map_contains(self.entries@);
        }
        let ghost s0 = self.entries@;
        let mut i: usize = 0;
        while i < self.entries.len()
            invariant
                i <= self.entries@.len(),
                self.entries@ == s0,
                s0 == old(self).entries@,
                distinct_keys(s0),
                forall|j: int| 0 <= j < i ==> (#[trigger] self.entries@[j]).0 != k,
            decreases self.entries@.len() - i,
        {
            if self.entries[i].0 == k {
                proof {
                    lemma_entries_map_update(s0, i as int, v);
                }
                self.entries[i] = (k, v);
                proof {
                    assert(s0[i as int].0 == k);
                    assert(self.entries@ =~= s0.update(i as int, (s0[i as int].0, v)));
                    assert(entries_map(self.entries@) == entries_map(s0).insert(k, v));
                    assert forall|a: int, b: int|
                        0 <= a < b < self.entries@.len() implies (#[trigger] self.entries@[a]).0
                        != (#[trigger] self.entries@[b]).0 by {
                        assert(self.entries@[a].0 == s0[a].0);
                        assert(self.entries@[b].0 == s0[b].0);
                    }
                }
                return ;
            }
            i += 1;
        }
        self.entries.push((k, v));
        proof {
            assert(self.entries@.drop_last() =~= s0);
            assert(self.entries@.last() == (k, v));
            assert(entries_map(self.entries@) == entries_map(s0).insert(k, v));
            assert forall|a: int, b: int|
                0 <= a < b < self.entries@.len() implies (#[trigger] self.entries@[a]).0 != (
            #[trigger] self.entries@[b]).0 by {
                if b == self.entries@.len() - 1 {
                    assert(self.entries@[a] == s0[a]);
                }
            }
        }
    }
}

} // verus!
