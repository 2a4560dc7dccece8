//! The live entries of a map: one per key, held in the order of their keys.

use crate::key::{compare_keys, StickyEntry, StickyKey};
use crate::text::Relation;
use vstd::prelude::*;

verus! {

use crate::key::{
    key_before, lemma_key_order_asymmetric, lemma_key_order_transitive, StickyEntryView,
    StickyKeyView,
};
use crate::model::{listing, lists, live_entries};

/// A map from keys to entries, held as rows in the order of their keys.
#[derive(Debug)]
pub(crate) struct EntryTable<T> {
    rows: Vec<(StickyKey, StickyEntry<T>)>,
}

/// The rows are in strictly ascending order of their keys, so no key occurs
/// twice.
pub(crate) closed spec fn ascending<T>(rows: Seq<(StickyKey, StickyEntry<T>)>) -> bool {
    forall|i: int, j: int| 0 <= i < j < rows.len() ==> key_before(rows[i].0@, rows[j].0@)
}

/// The map that a sequence of rows stands for.
pub(crate) closed spec fn rows_map<T>(rows: Seq<(StickyKey, StickyEntry<T>)>) -> Map<
    StickyKeyView,
    StickyEntryView<T>,
>
    decreases rows.len(),
{
    if rows.len() == 0 {
        Map::empty()
    } else {
        rows_map(rows.drop_last()).insert(rows.last().0@, rows.last().1@)
    }
}

/// Each row is in the map, and the map holds nothing else.
proof fn lemma_rows_map<T>(rows: Seq<(StickyKey, StickyEntry<T>)>)
    requires
        ascending(rows),
    ensures
        forall|i: int|
            0 <= i < rows.len() ==> rows_map(rows).contains_key(#[trigger] rows[i].0@)
                && rows_map(rows)[rows[i].0@] == rows[i].1@,
        forall|key: StickyKeyView| #[trigger]
            rows_map(rows).contains_key(key) ==> exists|i: int|
                0 <= i < rows.len() && #[trigger] rows[i].0@ == key,
        rows_map(rows).dom().finite(),
        rows_map(rows).len() == rows.len(),
    decreases rows.len(),
{
    if rows.len() > 0 {
        let init = rows.drop_last();
        assert(ascending(init));
        lemma_rows_map(init);
        assert forall|i: int| 0 <= i < rows.len() implies rows_map(rows).contains_key(
            #[trigger] rows[i].0@,
        ) && rows_map(rows)[rows[i].0@] == rows[i].1@ by {
            if i < init.len() {
                assert(init[i] == rows[i]);
                lemma_key_order_asymmetric(rows[i].0@, rows.last().0@);
            }
        }
        assert forall|key: StickyKeyView| #[trigger]
            rows_map(rows).contains_key(key) implies exists|i: int|
            0 <= i < rows.len() && #[trigger] rows[i].0@ == key by {
            if key == rows.last().0@ {
                assert(rows[rows.len() - 1].0@ == key);
            } else {
                assert(rows_map(init).contains_key(key));
                let i = choose|i: int| 0 <= i < init.len() && #[trigger] init[i].0@ == key;
                assert(rows[i].0@ == key);
            }
        }
        assert(!rows_map(init).contains_key(rows.last().0@)) by {
            if rows_map(init).contains_key(rows.last().0@) {
                let i = choose|i: int|
                    0 <= i < init.len() && #[trigger] init[i].0@ == rows.last().0@;
                lemma_key_order_asymmetric(rows[i].0@, rows.last().0@);
            }
        }
    }
}

/// The rows stand for the map whose keys and entries they are.
proof fn lemma_rows_map_is<T>(
    rows: Seq<(StickyKey, StickyEntry<T>)>,
    map: Map<StickyKeyView, StickyEntryView<T>>,
)
    requires
        ascending(rows),
        forall|i: int|
            0 <= i < rows.len() ==> map.contains_key(#[trigger] rows[i].0@) && map[rows[i].0@]
                == rows[i].1@,
        forall|key: StickyKeyView| #[trigger]
            map.contains_key(key) ==> exists|i: int|
                0 <= i < rows.len() && #[trigger] rows[i].0@ == key,
    ensures
        rows_map(rows) == map,
{
    lemma_rows_map(rows);
    assert(rows_map(rows) =~= map);
}

impl<T> View for EntryTable<T> {
    type V = Map<StickyKeyView, StickyEntryView<T>>;

    closed spec fn view(&self) -> Map<StickyKeyView, StickyEntryView<T>> {
        rows_map(self.rows@)
    }
}

impl<T> EntryTable<T> {
    /// The rows are in order.
    pub(crate) closed spec fn wf(&self) -> bool {
        ascending(self.rows@)
    }

    /// A table without entries.
    pub(crate) fn new() -> (table: Self)
        ensures
            table.wf(),
            table@ == Map::<StickyKeyView, StickyEntryView<T>>::empty(),
    {
        EntryTable { rows: Vec::new() }
    }

    /// The row that holds `key`, or else the one before which it belongs.
    fn locate(&self, key: &StickyKey) -> (found: Result<usize, usize>)
        requires
            self.wf(),
        ensures
            match found {
                Ok(i) => i < self.rows@.len() && self.rows@[i as int].0@ == key@,
                Err(i) => {
                    &&& i <= self.rows@.len()
                    &&& forall|j: int| 0 <= j < i ==> key_before(#[trigger] self.rows@[j].0@, key@)
                    &&& forall|j: int|
                        i <= j < self.rows@.len() ==> key_before(key@, #[trigger] self.rows@[j].0@)
                },
            },
    {
        let mut low: usize = 0;
        let mut high: usize = self.rows.len();
        while low < high
            invariant
                self.wf(),
                low <= high <= self.rows@.len(),
                forall|j: int| 0 <= j < low ==> key_before(#[trigger] self.rows@[j].0@, key@),
                forall|j: int|
                    high <= j < self.rows@.len() ==> key_before(key@, #[trigger] self.rows@[j].0@),
            decreases high - low,
        {
            let middle: usize = low + (high - low) / 2;
            match compare_keys(&self.rows[middle].0, key) {
                Relation::Same => {
                    return Ok(middle);
                },
                Relation::Before => {
                    proof {
                        let pivot = self.rows@[middle as int].0@;
                        assert forall|j: int| 0 <= j < middle + 1 implies key_before(
                            #[trigger] self.rows@[j].0@,
                            key@,
                        ) by {
                            if j < middle {
                                lemma_key_order_transitive(self.rows@[j].0@, pivot, key@);
                            }
                        }
                    }
                    low = middle + 1;
                },
                Relation::After => {
                    proof {
                        let pivot = self.rows@[middle as int].0@;
                        assert forall|j: int| middle <= j < self.rows@.len() implies key_before(
                            key@,
                            #[trigger] self.rows@[j].0@,
                        ) by {
                            if j > middle {
                                lemma_key_order_transitive(key@, pivot, self.rows@[j].0@);
                            }
                        }
                    }
                    high = middle;
                },
            }
        }
        Err(low)
    }

    /// A key that belongs between two rows is not in the table.
    proof fn lemma_absent(&self, key: StickyKeyView, i: int)
        requires
            self.wf(),
            0 <= i <= self.rows@.len(),
            forall|j: int| 0 <= j < i ==> key_before(#[trigger] self.rows@[j].0@, key),
            forall|j: int| i <= j < self.rows@.len() ==> key_before(key, #[trigger] self.rows@[j].0@),
        ensures
            !self@.contains_key(key),
    {
        lemma_rows_map(self.rows@);
        if self@.contains_key(key) {
            let j = choose|j: int| 0 <= j < self.rows@.len() && #[trigger] self.rows@[j].0@ == key;
            if j < i {
                lemma_key_order_asymmetric(self.rows@[j].0@, key);
            } else {
                lemma_key_order_asymmetric(key, self.rows@[j].0@);
            }
        }
    }

    /// The entry for `key`, if there is one.
    pub(crate) fn get(&self, key: &StickyKey) -> (entry: Option<&StickyEntry<T>>)
        requires
            self.wf(),
        ensures
            match entry {
                Some(entry) => self@.contains_key(key@) && self@[key@] == entry@,
                None => !self@.contains_key(key@),
            },
    {
        match self.locate(key) {
            Ok(i) => {
                proof {
                    lemma_rows_map(self.rows@);
                }
                Some(&self.rows[i].1)
            },
            Err(i) => {
                proof {
                    self.lemma_absent(key@, i as int);
                }
                None
            },
        }
    }

    /// Set the entry for `key`, in place of the one it may have.
    pub(crate) fn insert(&mut self, key: StickyKey, entry: StickyEntry<T>)
        requires
            old(self).wf(),
        ensures
            final(self).wf(),
            final(self)@ == old(self)@.insert(key@, entry@),
    {
        let ghost before = self.rows@;
        let ghost row = (key, entry);
        let ghost target = self@.insert(key@, entry@);
        proof {
            lemma_rows_map(before);
        }
        match self.locate(&key) {
            Ok(i) => {
                self.rows.set(i, (key, entry));
                proof {
                    let after = self.rows@;
                    assert(after == before.update(i as int, row));
                    assert forall|a: int, b: int| 0 <= a < b < after.len() implies key_before(
                        after[a].0@,
                        after[b].0@,
                    ) by {
                        assert(key_before(before[a].0@, before[b].0@));
                    }
                    assert forall|j: int| 0 <= j < after.len() implies target.contains_key(
                        #[trigger] after[j].0@,
                    ) && target[after[j].0@] == after[j].1@ by {
                        if j < i {
                            lemma_key_order_asymmetric(before[j].0@, before[i as int].0@);
                        } else if j > i {
                            lemma_key_order_asymmetric(before[i as int].0@, before[j].0@);
                        }
                    }
                    assert forall|k: StickyKeyView| #[trigger] target.contains_key(k) implies exists|
                        j: int,
                    |
                        0 <= j < after.len() && #[trigger] after[j].0@ == k by {
                        if k == row.0@ {
                            assert(after[i as int].0@ == k);
                        } else {
                            let j = choose|j: int| 0 <= j < before.len() && #[trigger] before[j].0@ == k;
                            assert(after[j].0@ == k);
                        }
                    }
                    lemma_rows_map_is(after, target);
                }
            },
            Err(i) => {
                self.rows.insert(i, (key, entry));
                proof {
                    let after = self.rows@;
                    assert(after == before.insert(i as int, row));
                    assert forall|a: int, b: int| 0 <= a < b < after.len() implies key_before(
                        after[a].0@,
                        after[b].0@,
                    ) by {
                        if a != i {
                            assert(after[a] == before[if a < i { a } else { a - 1 }]);
                        }
                        if b != i {
                            assert(after[b] == before[if b < i { b } else { b - 1 }]);
                        }
                    }
                    assert forall|j: int| 0 <= j < after.len() implies target.contains_key(
                        #[trigger] after[j].0@,
                    ) && target[after[j].0@] == after[j].1@ by {
                        if j < i {
                            assert(after[j] == before[j]);
                            lemma_key_order_asymmetric(after[j].0@, row.0@);
                        } else if j > i {
                            assert(after[j] == before[j - 1]);
                            lemma_key_order_asymmetric(row.0@, after[j].0@);
                        }
                    }
                    assert forall|k: StickyKeyView| #[trigger] target.contains_key(k) implies exists|
                        j: int,
                    |
                        0 <= j < after.len() && #[trigger] after[j].0@ == k by {
                        if k == row.0@ {
                            assert(after[i as int].0@ == k);
                        } else {
                            let j = choose|j: int| 0 <= j < before.len() && #[trigger] before[j].0@ == k;
                            assert(after[if j < i { j } else { j + 1 }].0@ == k);
                        }
                    }
                    lemma_rows_map_is(after, target);
                }
            },
        }
    }

    /// Take out the entry for `key`, if there is one.
    pub(crate) fn remove(&mut self, key: &StickyKey) -> (entry: Option<StickyEntry<T>>)
        requires
            old(self).wf(),
        ensures
            final(self).wf(),
            final(self)@ == old(self)@.remove(key@),
            match entry {
                Some(entry) => old(self)@.contains_key(key@) && old(self)@[key@] == entry@,
                None => !old(self)@.contains_key(key@),
            },
    {
        let ghost before = self.rows@;
        let ghost target = self@.remove(key@);
        match self.locate(key) {
            Ok(i) => {
                let (_, entry) = self.rows.remove(i);
                proof {
                    let after = self.rows@;
                    lemma_rows_map(before);
                    assert(after == before.remove(i as int));
                    assert forall|a: int, b: int| 0 <= a < b < after.len() implies key_before(
                        after[a].0@,
                        after[b].0@,
                    ) by {
                        assert(after[a] == before[if a < i { a } else { a + 1 }]);
                        assert(after[b] == before[if b < i { b } else { b + 1 }]);
                    }
                    assert forall|j: int| 0 <= j < after.len() implies target.contains_key(
                        #[trigger] after[j].0@,
                    ) && target[after[j].0@] == after[j].1@ by {
                        if j < i {
                            assert(after[j] == before[j]);
                            lemma_key_order_asymmetric(before[j].0@, before[i as int].0@);
                        } else {
                            assert(after[j] == before[j + 1]);
                            lemma_key_order_asymmetric(before[i as int].0@, before[j + 1].0@);
                        }
                    }
                    assert forall|k: StickyKeyView| #[trigger] target.contains_key(k) implies exists|
                        j: int,
                    |
                        0 <= j < after.len() && #[trigger] after[j].0@ == k by {
                        let j = choose|j: int| 0 <= j < before.len() && #[trigger] before[j].0@ == k;
                        assert(after[if j < i { j } else { j - 1 }].0@ == k);
                    }
                    lemma_rows_map_is(after, target);
                }
                Some(entry)
            },
            Err(i) => {
                proof {
                    self.lemma_absent(key@, i as int);
                    assert(target =~= self@);
                }
                None
            },
        }
    }

    /// The entries that are live at the time `now`, with their keys.
    pub(crate) fn live(&self, now: u64) -> (live: Vec<(&StickyKey, &StickyEntry<T>)>)
        requires
            self.wf(),
        ensures
            lists(listing(live@), live_entries(self@, now)),
    {
        let mut live: Vec<(&StickyKey, &StickyEntry<T>)> = Vec::new();
        let ghost mut origin: Seq<int> = Seq::empty();
        let mut i: usize = 0;
        while i < self.rows.len()
            invariant
                i <= self.rows@.len(),
                origin.len() == live@.len(),
                forall|j: int|
                    0 <= j < live@.len() ==> {
                        &&& 0 <= #[trigger] origin[j] < i
                        &&& self.rows@[origin[j]] == (*live@[j].0, *live@[j].1)
                        &&& live@[j].1.end_time > now
                    },
                forall|a: int, b: int| 0 <= a < b < live@.len() ==> #[trigger] origin[a] < #[trigger] origin[b],
                forall|r: int|
                    0 <= r < i && (#[trigger] self.rows@[r]).1.end_time > now ==> origin.contains(r),
            decreases self.rows@.len() - i,
        {
            let row = &self.rows[i];
            let ghost before = origin;
            if row.1.end_time > now {
                live.push((&row.0, &row.1));
                proof {
                    origin = origin.push(i as int);
                    assert(origin[origin.len() - 1] == i);
                }
            }
            i = i + 1;
            proof {
                assert forall|r: int|
                    0 <= r < i && (#[trigger] self.rows@[r]).1.end_time > now implies origin.contains(
                    r,
                ) by {
                    if r < i - 1 {
                        let j = choose|j: int| 0 <= j < before.len() && before[j] == r;
                        assert(origin[j] == r);
                    }
                }
            }
        }
        proof {
            lemma_rows_map(self.rows@);
            let views = listing(live@);
            let target = live_entries(self@, now);
            assert forall|j: int| 0 <= j < views.len() implies target.contains_key(
                (#[trigger] views[j]).0,
            ) && target[views[j].0] == views[j].1 by {
                assert(self@.contains_key(self.rows@[origin[j]].0@));
            }
            assert forall|k: StickyKeyView| #[trigger] target.contains_key(k) implies exists|j: int|
                0 <= j < views.len() && (#[trigger] views[j]).0 == k by {
                assert(self@.contains_key(k));
                let r = choose|r: int| 0 <= r < self.rows@.len() && #[trigger] self.rows@[r].0@ == k;
                assert(origin.contains(r));
                let j = choose|j: int| 0 <= j < origin.len() && origin[j] == r;
                assert(views[j].0 == k);
            }
            assert forall|a: int, b: int| 0 <= a < b < views.len() implies (#[trigger] views[a]).0 != (
            #[trigger] views[b]).0 by {
                lemma_key_order_asymmetric(self.rows@[origin[a]].0@, self.rows@[origin[b]].0@);
            }
        }
        live
    }
}

} // verus!
