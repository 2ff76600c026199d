//! The in-memory tally of focus samples taken during one rolling window.

use vstd::prelude::*;

verus! {

/// The identity under which samples are counted: the application identifier
/// and the (already normalized) window title.
pub struct FocusKey {
    pub app_id: Seq<char>,
    pub title: Seq<char>,
}

/// A key together with the number of ticks on which it held the focus.
pub struct Tally {
    pub key: FocusKey,
    pub count: nat,
}

/// Whether some tally in `tallies` is kept under `key`.
pub open spec fn has_key(tallies: Seq<Tally>, key: FocusKey) -> bool {
    exists|i: int| 0 <= i < tallies.len() && (#[trigger] tallies[i]).key == key
}

/// The position of the tally kept under `key`; meaningful when `has_key` holds.
pub open spec fn position_of(tallies: Seq<Tally>, key: FocusKey) -> int {
    choose|i: int| 0 <= i < tallies.len() && (#[trigger] tallies[i]).key == key
}

/// The count kept under `key`, zero for a key that is not kept.
pub open spec fn count_of(tallies: Seq<Tally>, key: FocusKey) -> nat {
    if has_key(tallies, key) {
        tallies[position_of(tallies, key)].count
    } else {
        0
    }
}

/// No key is kept twice.
pub open spec fn distinct_keys(tallies: Seq<Tally>) -> bool {
    forall|i: int, j: int|
        0 <= i < j < tallies.len() ==> (#[trigger] tallies[i]).key != (#[trigger] tallies[j]).key
}

/// Every tally that is kept has been sampled at least once.
pub open spec fn positive_counts(tallies: Seq<Tally>) -> bool {
    forall|i: int| 0 <= i < tallies.len() ==> (#[trigger] tallies[i]).count >= 1
}

/// The sum of all counts.
pub open spec fn total(tallies: Seq<Tally>) -> nat
    decreases tallies.len(),
{
    if tallies.len() == 0 {
        0
    } else {
        total(tallies.drop_last()) + tallies.last().count
    }
}

/// The tallies after `amount` more samples of `key`: added to its count where
/// the key is already kept, appended as a new tally where it is not.
pub open spec fn credit(tallies: Seq<Tally>, key: FocusKey, amount: nat) -> Seq<Tally> {
    if has_key(tallies, key) {
        let i = position_of(tallies, key);
        tallies.update(i, Tally { key, count: tallies[i].count + amount })
    } else {
        tallies.push(Tally { key, count: amount })
    }
}

/// The tallies after one more sample of `key`. A count that has reached the
/// largest value that can be stored stays there.
pub open spec fn bump(tallies: Seq<Tally>, key: FocusKey) -> Seq<Tally> {
    if count_of(tallies, key) < u64::MAX {
        credit(tallies, key, 1)
    } else {
        tallies
    }
}

/// In tallies with distinct keys, a tally found under `key` is the one that
/// `position_of` names.
pub proof fn lemma_position_unique(tallies: Seq<Tally>, key: FocusKey, i: int)
    requires
        distinct_keys(tallies),
        0 <= i < tallies.len(),
        tallies[i].key == key,
    ensures
        has_key(tallies, key),
        position_of(tallies, key) == i,
{
    let p = position_of(tallies, key);
    if p < i {
        assert(tallies[p].key != tallies[i].key);
    } else if i < p {
        assert(tallies[i].key != tallies[p].key);
    }
}

/// What crediting a key does: the keys stay distinct, the key is kept with
/// its count raised by the amount, and every other key is kept as before.
pub proof fn lemma_credit(tallies: Seq<Tally>, key: FocusKey, amount: nat, other: FocusKey)
    requires
        distinct_keys(tallies),
    ensures
        distinct_keys(credit(tallies, key, amount)),
        has_key(credit(tallies, key, amount), key),
        count_of(credit(tallies, key, amount), key) == count_of(tallies, key) + amount,
        other != key ==> has_key(credit(tallies, key, amount), other) == has_key(tallies, other),
        other != key ==> count_of(credit(tallies, key, amount), other) == count_of(tallies, other),
        positive_counts(tallies) && amount >= 1 ==> positive_counts(credit(tallies, key, amount)),
{
    let after = credit(tallies, key, amount);
    if has_key(tallies, key) {
        let i = position_of(tallies, key);
        assert(after[i].key == key);
        assert(forall|j: int| 0 <= j < after.len() ==> (#[trigger] after[j]).key == tallies[j].key);
        lemma_position_unique(after, key, i);
        if positive_counts(tallies) && amount >= 1 {
            assert forall|j: int| 0 <= j < after.len() implies (#[trigger] after[j]).count
                >= 1 by {
                if j != i {
                    assert(after[j] == tallies[j]);
                }
            }
        }
    } else {
        let n = tallies.len() as int;
        assert(after[n].key == key);
        assert(forall|j: int| 0 <= j < n ==> (#[trigger] after[j]) == tallies[j]);
        assert forall|a: int, b: int| 0 <= a < b < after.len() implies (#[trigger] after[a]).key
            != (#[trigger] after[b]).key by {
            if b == n {
                assert(tallies[a].key != key);
            } else {
                assert(tallies[a].key != tallies[b].key);
            }
        }
        lemma_position_unique(after, key, n);
    }
    if other != key {
        if has_key(tallies, other) {
            let j = position_of(tallies, other);
            assert(after[j].key == other);
            lemma_position_unique(after, other, j);
        } else if has_key(after, other) {
            let j = position_of(after, other);
            assert(tallies[j].key == other);
        }
    }
}

/// Replacing a tally changes the total by the difference of the two counts.
pub proof fn lemma_total_update(tallies: Seq<Tally>, i: int, tally: Tally)
    requires
        0 <= i < tallies.len(),
    ensures
        total(tallies.update(i, tally)) == total(tallies) - tallies[i].count + tally.count,
    decreases tallies.len(),
{
    let updated = tallies.update(i, tally);
    if i == tallies.len() - 1 {
        assert(updated.drop_last() =~= tallies.drop_last());
    } else {
        lemma_total_update(tallies.drop_last(), i, tally);
        assert(updated.drop_last() =~= tallies.drop_last().update(i, tally));
    }
}

/// Crediting a key raises the total by the amount.
pub proof fn lemma_total_credit(tallies: Seq<Tally>, key: FocusKey, amount: nat)
    ensures
        total(credit(tallies, key, amount)) == total(tallies) + amount,
{
    if has_key(tallies, key) {
        let i = position_of(tallies, key);
        lemma_total_update(tallies, i, Tally { key, count: tallies[i].count + amount });
    } else {
        assert(tallies.push(Tally { key, count: amount }).drop_last() =~= tallies);
    }
}

/// One key with its count, as it is stored and handed out.
#[derive(Clone, Debug, PartialEq, Eq)]
pub struct CountEntry {
    pub app_id: String,
    pub title: String,
    pub count: u64,
}

impl View for CountEntry {
    type V = Tally;

    open spec fn view(&self) -> Tally {
        Tally { key: FocusKey { app_id: self.app_id@, title: self.title@ }, count: self.count as nat }
    }
}

/// Counts of focus samples by key, in the order in which the keys were first
/// seen.
pub struct FocusCounter {
    entries: Vec<CountEntry>,
}

impl View for FocusCounter {
    type V = Seq<Tally>;

    closed spec fn view(&self) -> Seq<Tally> {
        self.entries@.map_values(|e: CountEntry| e@)
    }
}

impl FocusCounter {
    /// What every counter built through this interface satisfies: no key is
    /// kept twice, and no key is kept with a count of zero.
    pub open spec fn wf(&self) -> bool {
        distinct_keys(self@) && positive_counts(self@)
    }

    /// A counter that holds nothing.
    pub fn new() -> (c: Self)
        ensures
            c.wf(),
            c@ == Seq::<Tally>::empty(),
    {
        let c = FocusCounter { entries: Vec::new() };
        assert(c@ =~= Seq::<Tally>::empty());
        c
    }

    /// The number of distinct keys.
    pub fn len(&self) -> (n: usize)
        ensures
            n == self@.len(),
    {
        self.entries.len()
    }

    /// Whether no key has been sampled.
    pub fn is_empty(&self) -> (b: bool)
        ensures
            b == (self@.len() == 0),
    {
        self.entries.len() == 0
    }

    /// The entry at position `i`, in the order in which the keys were first
    /// seen.
    pub fn entry(&self, i: usize) -> (e: &CountEntry)
        requires
            i < self@.len(),
        ensures
            e@ == self@[i as int],
    {
        &self.entries[i]
    }

    /// The position of the entry that is kept under the given key.
    fn find(&self, app_id: &String, title: &String) -> (found: Option<usize>)
        requires
            self.wf(),
        ensures
            match found {
                Some(i) => {
                    &&& has_key(self@, FocusKey { app_id: app_id@, title: title@ })
                    &&& i == position_of(self@, FocusKey { app_id: app_id@, title: title@ })
                    &&& i < self.entries@.len()
                },
                None => !has_key(self@, FocusKey { app_id: app_id@, title: title@ }),
            },
    {
        let ghost key = FocusKey { app_id: app_id@, title: title@ };
        let mut i: usize = 0;
        while i < self.entries.len()
            invariant
                i <= self.entries.len(),
                self.wf(),
                key == (FocusKey { app_id: app_id@, title: title@ }),
                forall|j: int| 0 <= j < i ==> (#[trigger] self@[j]).key != key,
            decreases self.entries.len() - i,
        {
            if self.entries[i].app_id == *app_id && self.entries[i].title == *title {
                proof {
                    assert(self@[i as int].key == key);
                    lemma_position_unique(self@, key, i as int);
                }
                return Some(i);
            }
            i += 1;
        }
        None
    }

    /// The count kept for the given window, zero if it was never sampled.
    pub fn get(&self, app_id: &String, title: &String) -> (count: u64)
        requires
            self.wf(),
        ensures
            count == count_of(self@, FocusKey { app_id: app_id@, title: title@ }),
    {
        match self.find(app_id, title) {
            Some(i) => self.entries[i].count,
            None => 0,
        }
    }

    /// Forgets every key.
    pub fn clear(&mut self)
        ensures
            final(self).wf(),
            final(self)@ == Seq::<Tally>::empty(),
    {
        self.entries.clear();
        assert(self@ =~= Seq::<Tally>::empty());
    }

    /// Counts one more sample of the given window.
    pub fn record(&mut self, app_id: String, title: String)
        requires
            old(self).wf(),
        ensures
            final(self).wf(),
            final(self)@ == bump(old(self)@, FocusKey { app_id: app_id@, title: title@ }),
    {
        let ghost key = FocusKey { app_id: app_id@, title: title@ };
        proof {
            lemma_credit(self@, key, 1, key);
        }
        match self.find(&app_id, &title) {
            Some(i) => {
                let count = self.entries[i].count;
                if count < u64::MAX {
                    self.entries.set(i, CountEntry { app_id, title, count: count + 1 });
                    assert(self@ =~= credit(old(self)@, key, 1));
                }
            },
            None => {
                self.entries.push(CountEntry { app_id, title, count: 1 });
                assert(self@ =~= credit(old(self)@, key, 1));
            },
        }
    }
}

} // verus!
