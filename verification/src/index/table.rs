//! The table of the index: each visited path with its rank and the time of
//! its last visit, in the order in which the paths came in.
//!
//! The rank is a number with a fraction. The table carries it as the 64
//! bits of its binary form and computes nothing with it: a path that is
//! visited for the first time gets the rank zero, whose bits are all zero,
//! and whoever records a later visit brings the new rank along.

use vstd::prelude::*;

verus! {

/// The name of the file of the index in the home directory.
pub const DEFAULT_INDEX_FILE_NAME: &'static str = ".tiny-dc";

/// What the index knows of one path.
#[derive(Debug, Clone, Copy, PartialEq, Eq, Structural)]
pub struct DirectoryIndexEntry {
    /// The rank, in its binary form.
    pub rank: u64,
    /// When the path was last visited, in seconds.
    pub last_accessed: u64,
}

impl DirectoryIndexEntry {
    /// The entry of a path that is visited for the first time, at `now`: its
    /// rank is zero.
    pub fn new(now: u64) -> (entry: Self)
        ensures
            entry.rank == 0,
            entry.last_accessed == now,
    {
        DirectoryIndexEntry { rank: 0, last_accessed: now }
    }

    /// Records another visit, at `now`, after which the rank is `rank`.
    pub fn update(&mut self, now: u64, rank: u64)
        ensures
            final(self).rank == rank,
            final(self).last_accessed == now,
    {
        self.last_accessed = now;
        self.rank = rank;
    }

    /// The seconds that have passed at `now` since the last visit; none
    /// where the last visit is not in the past.
    pub open spec fn spec_age(self, now: u64) -> u64 {
        if now >= self.last_accessed {
            (now - self.last_accessed) as u64
        } else {
            0
        }
    }

    /// Computes `spec_age`.
    pub fn age(&self, now: u64) -> (seconds: u64)
        ensures
            seconds == self.spec_age(now),
    {
        if now >= self.last_accessed {
            now - self.last_accessed
        } else {
            0
        }
    }
}

/// A path of the table with what is known of it.
pub type Row = (Seq<char>, DirectoryIndexEntry);

/// Whether a row of `rows` is the row of `path`.
pub open spec fn holds_path(rows: Seq<Row>, path: Seq<char>) -> bool {
    exists|i: int| 0 <= i < rows.len() && (#[trigger] rows[i]).0 == path
}

/// Where the row of `path` stands in `rows`, if it has one.
pub open spec fn position_of(rows: Seq<Row>, path: Seq<char>) -> Option<int> {
    if holds_path(rows, path) {
        Some(choose|i: int| 0 <= i < rows.len() && (#[trigger] rows[i]).0 == path)
    } else {
        None
    }
}

/// No path has two rows.
pub open spec fn distinct_paths(rows: Seq<Row>) -> bool {
    forall|i: int, j: int|
        0 <= i < j < rows.len() ==> (#[trigger] rows[i]).0 != (#[trigger] rows[j]).0
}

/// The rows after `path` was filed with `entry`: its row holds `entry`
/// now, at the place it had, or at the end if it had none.
pub open spec fn filed(rows: Seq<Row>, path: Seq<char>, entry: DirectoryIndexEntry) -> Seq<Row> {
    match position_of(rows, path) {
        Some(at) => rows.update(at, (path, entry)),
        None => rows.push((path, entry)),
    }
}

/// The rows after the first `upto` of `items` were filed, one after the
/// other.
pub open spec fn filed_all(items: Seq<Row>, upto: int) -> Seq<Row>
    decreases upto,
{
    if upto <= 0 {
        Seq::empty()
    } else {
        filed(filed_all(items, upto - 1), items[upto - 1].0, items[upto - 1].1)
    }
}

/// The rows after a visit of `path` at `now`: a path that had no row gets
/// one with the rank zero; a path that had one gets the rank `rank`.
pub open spec fn visited(rows: Seq<Row>, path: Seq<char>, now: u64, rank: u64) -> Seq<Row> {
    match position_of(rows, path) {
        Some(at) => rows.update(at, (path, DirectoryIndexEntry { rank, last_accessed: now })),
        None => rows.push((path, DirectoryIndexEntry { rank: 0, last_accessed: now })),
    }
}

/// The rows whose places are not in `removed`, in their order.
pub open spec fn without(rows: Seq<Row>, removed: Set<int>) -> Seq<Row>
    decreases rows.len(),
{
    if rows.len() == 0 {
        Seq::empty()
    } else if removed.contains(rows.len() - 1) {
        without(rows.drop_last(), removed)
    } else {
        without(rows.drop_last(), removed).push(rows.last())
    }
}

/// Every row that is left was a row, so that paths that were distinct stay
/// distinct.
pub proof fn lemma_without(rows: Seq<Row>, removed: Set<int>)
    ensures
        without(rows, removed).len() <= rows.len(),
        forall|i: int|
            0 <= i < without(rows, removed).len() ==> rows.contains(
                #[trigger] without(rows, removed)[i],
            ),
        forall|i: int|
            0 <= i < without(rows, removed).len() ==> exists|j: int|
                0 <= j < rows.len() && !removed.contains(j) && rows[j] == #[trigger] without(
                    rows,
                    removed,
                )[i],
        distinct_paths(rows) ==> distinct_paths(without(rows, removed)),
        removed.disjoint(Set::new(|p: int| 0 <= p < rows.len())) ==> without(rows, removed)
            == rows,
    decreases rows.len(),
{
    if rows.len() > 0 {
        let shorter = rows.drop_last();
        let left = without(shorter, removed);
        let now = without(rows, removed);
        lemma_without(shorter, removed);
        assert forall|i: int| 0 <= i < now.len() implies rows.contains(#[trigger] now[i]) by {
            if i < left.len() {
                assert(shorter.contains(left[i]));
                let j = choose|j: int| 0 <= j < shorter.len() && shorter[j] == left[i];
                assert(rows[j] == left[i]);
            } else {
                assert(rows[rows.len() - 1] == now[i]);
            }
        }
        assert forall|i: int| 0 <= i < now.len() implies exists|j: int|
            0 <= j < rows.len() && !removed.contains(j) && rows[j] == #[trigger] now[i] by {
            if i < left.len() {
                let j = choose|j: int|
                    0 <= j < shorter.len() && !removed.contains(j) && shorter[j] == left[i];
                assert(rows[j] == now[i]);
            } else {
                assert(rows[rows.len() - 1] == now[i]);
            }
        }
        if distinct_paths(rows) {
            assert(distinct_paths(shorter)) by {
                assert forall|i: int, j: int| 0 <= i < j < shorter.len() implies (
                #[trigger] shorter[i]).0 != (#[trigger] shorter[j]).0 by {
                    assert(rows[i].0 != rows[j].0);
                }
            }
            assert forall|i: int, j: int| 0 <= i < j < now.len() implies (#[trigger] now[i]).0 != (
            #[trigger] now[j]).0 by {
                if j < left.len() {
                } else {
                    assert(shorter.contains(left[i]));
                    let k = choose|k: int| 0 <= k < shorter.len() && shorter[k] == left[i];
                    assert(rows[k].0 != rows[rows.len() - 1].0);
                }
            }
        }
        if removed.disjoint(Set::new(|p: int| 0 <= p < rows.len())) {
            assert(Set::new(|p: int| 0 <= p < rows.len()).contains(rows.len() - 1));
            assert(removed.disjoint(Set::new(|p: int| 0 <= p < shorter.len()))) by {
                assert forall|p: int|
                    !(removed.contains(p) && Set::new(|p: int| 0 <= p < shorter.len()).contains(
                        p,
                    )) by {
                    if 0 <= p < shorter.len() {
                        assert(Set::new(|p: int| 0 <= p < rows.len()).contains(p));
                    }
                }
            }
            assert(left.push(rows.last()) =~= rows);
        }
    }
}

/// Items with distinct paths, filed one after the other, are the rows.
pub proof fn lemma_filed_all_distinct(items: Seq<Row>, upto: int)
    requires
        distinct_paths(items),
        0 <= upto <= items.len(),
    ensures
        filed_all(items, upto) == items.take(upto),
    decreases upto,
{
    if upto > 0 {
        lemma_filed_all_distinct(items, upto - 1);
        let before = items.take(upto - 1);
        let path = items[upto - 1].0;
        assert(!holds_path(before, path)) by {
            if holds_path(before, path) {
                let i = choose|i: int| 0 <= i < before.len() && (#[trigger] before[i]).0 == path;
                assert(items[i].0 != items[upto - 1].0);
            }
        }
        assert(before.push(items[upto - 1]) =~= items.take(upto));
    } else {
        assert(items.take(0) =~= Seq::<Row>::empty());
    }
}

/// The index: the file it is kept in, and the table.
#[derive(Debug)]
pub struct DirectoryIndex {
    /// Where the file of the index is.
    pub path: String,
    /// The rows of the table.
    pub data: Vec<(String, DirectoryIndexEntry)>,
}

impl DirectoryIndex {
    /// The rows of the table.
    pub open spec fn rows(self) -> Seq<Row> {
        Seq::new(self.data@.len(), |i: int| (self.data@[i].0@, self.data@[i].1))
    }

    /// No path has two rows.
    pub open spec fn well_formed(self) -> bool {
        distinct_paths(self.rows())
    }

    /// An index without rows, kept in the file at `path`.
    pub fn new(path: String) -> (index: Self)
        ensures
            index.path == path,
            index.rows() == Seq::<Row>::empty(),
            index.well_formed(),
    {
        let index = DirectoryIndex { path, data: Vec::new() };
        proof {
            assert(index.rows() =~= Seq::<Row>::empty());
        }
        index
    }

    /// The number of rows.
    pub fn len(&self) -> (count: usize)
        ensures
            count == self.rows().len(),
    {
        self.data.len()
    }

    /// Where the row of `path` stands, if it has one.
    pub fn find(&self, path: &str) -> (at: Option<usize>)
        ensures
            match at {
                Some(i) => i < self.rows().len() && self.rows()[i as int].0 == path@,
                None => !holds_path(self.rows(), path@),
            },
            self.well_formed() ==> at == match position_of(self.rows(), path@) {
                Some(i) => Some(i as usize),
                None => None,
            },
    {
        let wanted = path.to_owned();
        let mut i: usize = 0;
        while i < self.data.len()
            invariant
                i <= self.data@.len(),
                wanted@ == path@,
                forall|j: int| 0 <= j < i ==> (#[trigger] self.rows()[j]).0 != path@,
            decreases self.data@.len() - i,
        {
            if self.data[i].0 == wanted {
                proof {
                    assert(self.rows()[i as int].0 == path@);
                    if self.well_formed() {
                        let found = position_of(self.rows(), path@)->0;
                        assert(holds_path(self.rows(), path@));
                        if found < i {
                            assert(self.rows()[found].0 != self.rows()[i as int].0);
                        } else if found > i {
                            assert(self.rows()[i as int].0 != self.rows()[found].0);
                        }
                    }
                }
                return Some(i);
            }
            i += 1;
        }
        None
    }

    /// The rank of `path`, if the index has a row for it.
    pub fn rank_of(&self, path: &str) -> (rank: Option<u64>)
        requires
            self.well_formed(),
        ensures
            rank == match position_of(self.rows(), path@) {
                Some(i) => Some(self.rows()[i].1.rank),
                None => None,
            },
    {
        match self.find(path) {
            Some(i) => Some(self.data[i].1.rank),
            None => None,
        }
    }

    /// Files `path` with `entry`: the row of the path holds `entry` now, at
    /// the place it had, or at the end if it had none.
    pub fn insert(&mut self, path: String, entry: DirectoryIndexEntry)
        requires
            old(self).well_formed(),
        ensures
            final(self).rows() == filed(old(self).rows(), path@, entry),
            final(self).path == old(self).path,
            final(self).well_formed(),
    {
        match self.find(path.as_str()) {
            Some(i) => {
                self.data[i].1 = entry;
                proof {
                    assert(final(self).rows() =~= old(self).rows().update(i as int, (path@, entry)));
                    assert forall|a: int, b: int| 0 <= a < b < final(self).rows().len() implies (
                    #[trigger] final(self).rows()[a]).0 != (#[trigger] final(self).rows()[b]).0 by {
                        assert(old(self).rows()[a].0 != old(self).rows()[b].0);
                    }
                }
            },
            None => {
                self.data.push((path, entry));
                proof {
                    assert(final(self).rows() =~= old(self).rows().push((path@, entry)));
                    assert forall|a: int, b: int| 0 <= a < b < final(self).rows().len() implies (
                    #[trigger] final(self).rows()[a]).0 != (#[trigger] final(self).rows()[b]).0 by {
                        if b < old(self).rows().len() {
                            assert(old(self).rows()[a].0 != old(self).rows()[b].0);
                        } else {
                            assert(old(self).rows()[a].0 != path@);
                        }
                    }
                }
            },
        }
    }

    /// The index, kept in the file at `path`, that holds `items`, filed one
    /// after the other: of two items with the same path the later one stays.
    pub fn from_entries(path: String, items: Vec<(String, DirectoryIndexEntry)>) -> (index: Self)
        ensures
            index.path == path,
            index.rows() == filed_all(
                Seq::new(items@.len(), |i: int| (items@[i].0@, items@[i].1)),
                items@.len() as int,
            ),
            index.well_formed(),
    {
        let ghost all = Seq::new(items@.len(), |i: int| (items@[i].0@, items@[i].1));
        let mut index = DirectoryIndex::new(path);
        let mut i: usize = 0;
        while i < items.len()
            invariant
                i <= items@.len(),
                all == Seq::new(items@.len(), |i: int| (items@[i].0@, items@[i].1)),
                index.path == path,
                index.well_formed(),
                index.rows() == filed_all(all, i as int),
            decreases items@.len() - i,
        {
            index.insert(items[i].0.clone(), items[i].1);
            i += 1;
        }
        index
    }

    /// Records a visit of `path` at `now`. Nothing happens where the path
    /// does not exist any more. A path that is visited for the first time
    /// gets a row with the rank zero; the row of a path that was visited
    /// before gets the rank `rank`. Returns whether the index has changed
    /// and is to be saved.
    pub fn push(&mut self, path: String, exists: bool, now: u64, rank: u64) -> (changed: bool)
        requires
            old(self).well_formed(),
        ensures
            changed == exists,
            final(self).rows() == (if exists {
                visited(old(self).rows(), path@, now, rank)
            } else {
                old(self).rows()
            }),
            final(self).path == old(self).path,
            final(self).well_formed(),
    {
        if !exists {
            return false;
        }
        let entry = match self.find(path.as_str()) {
            Some(i) => {
                let mut entry = self.data[i].1;
                entry.update(now, rank);
                entry
            },
            None => DirectoryIndexEntry::new(now),
        };
        self.insert(path, entry);
        true
    }

    /// Takes out the rows whose places are marked in `doomed`.
    pub fn remove_marked(&mut self, doomed: &Vec<bool>)
        requires
            old(self).well_formed(),
            doomed@.len() == old(self).rows().len(),
        ensures
            final(self).rows() == without(
                old(self).rows(),
                Set::new(|p: int| 0 <= p < doomed@.len() && doomed@[p]),
            ),
            final(self).path == old(self).path,
            final(self).well_formed(),
    {
        let ghost removed = Set::new(|p: int| 0 <= p < doomed@.len() && doomed@[p]);
        let ghost rows = self.rows();
        let mut kept: Vec<(String, DirectoryIndexEntry)> = Vec::new();
        let mut i: usize = 0;
        proof {
            assert(rows.take(0) =~= Seq::<Row>::empty());
        }
        while i < self.data.len()
            invariant
                i <= self.data@.len(),
                rows == self.rows(),
                doomed@.len() == rows.len(),
                removed == Set::new(|p: int| 0 <= p < doomed@.len() && doomed@[p]),
                Seq::new(kept@.len(), |k: int| (kept@[k].0@, kept@[k].1)) == without(
                    rows.take(i as int),
                    removed,
                ),
            decreases self.data@.len() - i,
        {
            let ghost before = Seq::new(kept@.len(), |k: int| (kept@[k].0@, kept@[k].1));
            proof {
                assert(rows.take(i + 1).drop_last() =~= rows.take(i as int));
                assert(rows.take(i + 1).last() == rows[i as int]);
            }
            if !doomed[i] {
                kept.push((self.data[i].0.clone(), self.data[i].1));
                proof {
                    assert(Seq::new(kept@.len(), |k: int| (kept@[k].0@, kept@[k].1))
                        =~= before.push(rows[i as int]));
                }
            } else {
                proof {
                    assert(removed.contains(i as int));
                }
            }
            i += 1;
        }
        proof {
            assert(rows.take(rows.len() as int) =~= rows);
            lemma_without(rows, removed);
        }
        self.data = kept;
    }
}

impl Default for DirectoryIndex {
    fn default() -> (index: DirectoryIndex)
        ensures
            index.path@.len() == 0,
            index.rows() == Seq::<Row>::empty(),
            index.well_formed(),
    {
        DirectoryIndex::new(String::new())
    }
}

} // verus!
