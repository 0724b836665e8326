//! The table of named parameters: every key is seeded before the panel runs,
//! and afterwards values are only read and overwritten.

use crate::text::same_text;
use vstd::prelude::*;

verus! {

/// The table that `entries` seeds when they are inserted one after another:
/// of two entries with the same key, the later one stays.
pub open spec fn seeded(entries: Seq<(String, i32)>) -> Map<Seq<char>, i32>
    decreases entries.len(),
{
    if entries.len() == 0 {
        Map::empty()
    } else {
        seeded(entries.drop_last()).insert(entries.last().0@, entries.last().1)
    }
}

/// Whether the entry at `slot` is the one for `key`.
spec fn holds_at(entries: Seq<(String, i32)>, slot: int, key: Seq<char>) -> bool {
    0 <= slot < entries.len() && entries[slot].0@ == key
}

/// The slot of the entry for `key`, where there is one.
spec fn slot_of(entries: Seq<(String, i32)>, key: Seq<char>) -> int {
    choose|slot: int| holds_at(entries, slot, key)
}

/// The table that a list of entries with distinct keys stands for.
spec fn table_of(entries: Seq<(String, i32)>) -> Map<Seq<char>, i32> {
    Map::new(
        |key: Seq<char>| exists|slot: int| holds_at(entries, slot, key),
        |key: Seq<char>| entries[slot_of(entries, key)].1,
    )
}

/// No two entries share a key.
spec fn distinct_keys(entries: Seq<(String, i32)>) -> bool {
    forall|i: int, j: int| 0 <= i < j < entries.len() ==> entries[i].0@ != entries[j].0@
}

/// With distinct keys, the entry at a slot is the one that the table shows
/// for that slot's key.
proof fn lemma_table_at(entries: Seq<(String, i32)>, slot: int)
    requires
        distinct_keys(entries),
        0 <= slot < entries.len(),
    ensures
        table_of(entries).contains_key(entries[slot].0@),
        table_of(entries)[entries[slot].0@] == entries[slot].1,
{
    let key = entries[slot].0@;
    assert(holds_at(entries, slot, key));
    let chosen = slot_of(entries, key);
    assert(holds_at(entries, chosen, key));
    if chosen < slot {
        assert(entries[chosen].0@ != entries[slot].0@);
    } else if slot < chosen {
        assert(entries[slot].0@ != entries[chosen].0@);
    }
}

/// Overwriting the value at one slot overwrites that key in the table.
proof fn lemma_table_update(entries: Seq<(String, i32)>, slot: int, entry: (String, i32))
    requires
        distinct_keys(entries),
        0 <= slot < entries.len(),
        entry.0@ == entries[slot].0@,
    ensures
        distinct_keys(entries.update(slot, entry)),
        table_of(entries.update(slot, entry)) == table_of(entries).insert(entry.0@, entry.1),
{
    let after = entries.update(slot, entry);
    assert(distinct_keys(after)) by {
        assert forall|i: int, j: int| 0 <= i < j < after.len() implies after[i].0@ != after[j].0@ by {
            assert(entries[i].0@ != entries[j].0@);
        }
    }
    let want = table_of(entries).insert(entry.0@, entry.1);
    assert forall|key: Seq<char>| table_of(after).contains_key(key) <==> want.contains_key(
        key,
    ) by {
        if table_of(after).contains_key(key) {
            let s = choose|s: int| holds_at(after, s, key);
            assert(holds_at(entries, s, key));
        }
        if want.contains_key(key) {
            if key == entry.0@ {
                assert(holds_at(after, slot, key));
            } else {
                let s = choose|s: int| holds_at(entries, s, key);
                assert(holds_at(after, s, key));
            }
        }
    }
    assert forall|key: Seq<char>| table_of(after).contains_key(key) implies table_of(after)[key]
        == want[key] by {
        let s = choose|s: int| holds_at(after, s, key);
        lemma_table_at(after, s);
        if s != slot {
            lemma_table_at(entries, s);
        }
    }
    assert(table_of(after) =~= want);
}

/// Appending an entry with a fresh key adds that key to the table.
proof fn lemma_table_push(entries: Seq<(String, i32)>, entry: (String, i32))
    requires
        distinct_keys(entries),
        forall|slot: int| 0 <= slot < entries.len() ==> entries[slot].0@ != entry.0@,
    ensures
        distinct_keys(entries.push(entry)),
        table_of(entries.push(entry)) == table_of(entries).insert(entry.0@, entry.1),
{
    let after = entries.push(entry);
    let last = entries.len() as int;
    assert(distinct_keys(after)) by {
        assert forall|i: int, j: int| 0 <= i < j < after.len() implies after[i].0@ != after[j].0@ by {
            if j < last {
                assert(entries[i].0@ != entries[j].0@);
            }
        }
    }
    let want = table_of(entries).insert(entry.0@, entry.1);
    assert forall|key: Seq<char>| table_of(after).contains_key(key) <==> want.contains_key(
        key,
    ) by {
        if table_of(after).contains_key(key) {
            let s = choose|s: int| holds_at(after, s, key);
            if s < last {
                assert(holds_at(entries, s, key));
            }
        }
        if want.contains_key(key) {
            if key == entry.0@ {
                assert(holds_at(after, last, key));
            } else {
                let s = choose|s: int| holds_at(entries, s, key);
                assert(holds_at(after, s, key));
            }
        }
    }
    assert forall|key: Seq<char>| table_of(after).contains_key(key) implies table_of(after)[key]
        == want[key] by {
        let s = choose|s: int| holds_at(after, s, key);
        lemma_table_at(after, s);
        if s < last {
            lemma_table_at(entries, s);
        }
    }
    assert(table_of(after) =~= want);
}

/// A table from parameter names to integer values.
///
/// Its view is the map from each name to its current value. Names are added
/// while the table is seeded; `get` and `set` work on names that are there.
pub struct ParamsState {
    entries: Vec<(String, i32)>,
}

impl View for ParamsState {
    type V = Map<Seq<char>, i32>;

    closed spec fn view(&self) -> Map<Seq<char>, i32> {
        table_of(self.entries@)
    }
}

impl ParamsState {
    #[verifier::type_invariant]
    spec fn well_formed(self) -> bool {
        distinct_keys(self.entries@)
    }

    /// A table without any name.
    pub fn new() -> (table: ParamsState)
        ensures
            table@ == Map::<Seq<char>, i32>::empty(),
    {
        let table = ParamsState { entries: Vec::new() };
        assert(table@ =~= Map::<Seq<char>, i32>::empty());
        table
    }

    /// The slot that holds `param_name`, if any does.
    fn position(&self, param_name: &str) -> (found: Option<usize>)
        ensures
            match found {
                Some(slot) => holds_at(self.entries@, slot as int, param_name@),
                None => forall|slot: int| !holds_at(self.entries@, slot, param_name@),
            },
    {
        let mut i: usize = 0;
        while i < self.entries.len()
            invariant
                i <= self.entries@.len(),
                forall|slot: int| 0 <= slot < i ==> self.entries@[slot].0@ != param_name@,
            decreases self.entries@.len() - i,
        {
            if same_text(self.entries[i].0.as_str(), param_name) {
                return Some(i);
            }
            i += 1;
        }
        None
    }

    /// Moves the entries out, leaving an empty table behind.
    fn take_entries(&mut self) -> (entries: Vec<(String, i32)>)
        ensures
            entries == old(self).entries,
    {
        let mut taken = ParamsState { entries: Vec::new() };
        core::mem::swap(self, &mut taken);
        taken.entries
    }

    /// Whether the table has the name `param_name`.
    pub fn contains_key(&self, param_name: &str) -> (present: bool)
        ensures
            present == self@.contains_key(param_name@),
    {
        self.position(param_name).is_some()
    }

    /// The number of names in the table.
    pub fn len(&self) -> (count: usize)
        ensures
            count == self@.dom().len(),
            self@.dom().finite(),
    {
        proof {
            use_type_invariant(self);
            lemma_table_size(self.entries@);
        }
        self.entries.len()
    }

    /// The current value of `param_name`.
    pub fn get(&self, param_name: &str) -> (value: i32)
        requires
            self@.contains_key(param_name@),
        ensures
            value == self@[param_name@],
    {
        proof {
            use_type_invariant(self);
        }
        match self.position(param_name) {
            Some(slot) => {
                proof {
                    lemma_table_at(self.entries@, slot as int);
                }
                self.entries[slot].1
            },
            None => {
                proof {
                    let slot = choose|slot: int| holds_at(self.entries@, slot, param_name@);
                    assert(holds_at(self.entries@, slot, param_name@));
                }
                vstd::pervasive::unreached()
            },
        }
    }

    /// The current value of `param_name`, or `None` where the table lacks
    /// that name.
    pub fn lookup(&self, param_name: &str) -> (value: Option<i32>)
        ensures
            value == (if self@.contains_key(param_name@) {
                Some(self@[param_name@])
            } else {
                None
            }),
    {
        proof {
            use_type_invariant(self);
        }
        match self.position(param_name) {
            Some(slot) => {
                proof {
                    lemma_table_at(self.entries@, slot as int);
                }
                Some(self.entries[slot].1)
            },
            None => None,
        }
    }

    /// Overwrites the value of `param_name`, a name that the table has.
    pub fn set(&mut self, param_name: &str, value: i32)
        requires
            old(self)@.contains_key(param_name@),
        ensures
            final(self)@ == old(self)@.insert(param_name@, value),
    {
        proof {
            use_type_invariant(&*self);
        }
        match self.position(param_name) {
            Some(slot) => {
                let entry = (self.entries[slot].0.clone(), value);
                proof {
                    lemma_table_update(self.entries@, slot as int, entry);
                }
                let mut entries = self.take_entries();
                entries.set(slot, entry);
                *self = ParamsState { entries };
            },
            None => {
                proof {
                    let slot = choose|slot: int| holds_at(self.entries@, slot, param_name@);
                    assert(holds_at(self.entries@, slot, param_name@));
                }
                vstd::pervasive::unreached()
            },
        }
    }

    /// Seeds `param_name` with `value`: adds the name where the table lacks
    /// it, and overwrites its value where it is there.
    pub fn insert(&mut self, param_name: String, value: i32)
        ensures
            final(self)@ == old(self)@.insert(param_name@, value),
    {
        proof {
            use_type_invariant(&*self);
        }
        match self.position(param_name.as_str()) {
            Some(slot) => {
                let entry = (param_name, value);
                proof {
                    lemma_table_update(self.entries@, slot as int, entry);
                }
                let mut entries = self.take_entries();
                entries.set(slot, entry);
                *self = ParamsState { entries };
            },
            None => {
                let entry = (param_name, value);
                proof {
                    assert forall|slot: int| 0 <= slot < self.entries@.len() implies self.entries@[slot].0@
                        != entry.0@ by {
                        assert(!holds_at(self.entries@, slot, entry.0@));
                    }
                    lemma_table_push(self.entries@, entry);
                }
                let mut entries = self.take_entries();
                entries.push(entry);
                *self = ParamsState { entries };
            },
        }
    }

    /// The table that `entries` seed, inserted in their order.
    pub fn from_entries(entries: Vec<(String, i32)>) -> (table: ParamsState)
        ensures
            table@ == seeded(entries@),
    {
        let mut table = ParamsState::new();
        let mut i: usize = 0;
        while i < entries.len()
            invariant
                i <= entries@.len(),
                table@ == seeded(entries@.take(i as int)),
            decreases entries@.len() - i,
        {
            proof {
                let upto = entries@.take(i as int + 1);
                assert(upto.drop_last() =~= entries@.take(i as int));
                assert(upto.last() == entries@[i as int]);
            }
            table.insert(entries[i].0.clone(), entries[i].1);
            i += 1;
        }
        proof {
            assert(entries@.take(entries@.len() as int) =~= entries@);
        }
        table
    }
}

/// A list of entries with distinct keys stands for a table of as many names.
proof fn lemma_table_size(entries: Seq<(String, i32)>)
    requires
        distinct_keys(entries),
    ensures
        table_of(entries).dom().finite(),
        table_of(entries).dom().len() == entries.len(),
    decreases entries.len(),
{
    if entries.len() == 0 {
        assert(table_of(entries).dom() =~= Set::<Seq<char>>::empty());
    } else {
        let front = entries.drop_last();
        let last = entries.last();
        assert(distinct_keys(front)) by {
            assert forall|i: int, j: int| 0 <= i < j < front.len() implies front[i].0@
                != front[j].0@ by {
                assert(entries[i].0@ != entries[j].0@);
            }
        }
        lemma_table_size(front);
        assert forall|slot: int| 0 <= slot < front.len() implies front[slot].0@ != last.0@ by {
            assert(entries[slot].0@ != entries[entries.len() - 1].0@);
        }
        lemma_table_push(front, last);
        assert(front.push(last) =~= entries);
        assert(!table_of(front).contains_key(last.0@)) by {
            if table_of(front).contains_key(last.0@) {
                let s = choose|s: int| holds_at(front, s, last.0@);
                assert(front[s].0@ != last.0@);
            }
        }
        assert(table_of(entries).dom() =~= table_of(front).dom().insert(last.0@));
    }
}

} // verus!
