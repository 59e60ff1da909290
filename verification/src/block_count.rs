//! The accumulator: counts per block type and vertical level over one fixed
//! range of levels, kept as rows sorted by name.

use crate::census::{
    bounded, counted, merged, non_negative, row_or_zeros, row_sum, shaped, sum_fits, zeros, Census,
};
use crate::names::{
    lemma_name_before_transitive, name_before, rank_names, Rank,
};
use crate::text::{decimal, push_decimal};
use crate::y_range::{valid_y_range, y_len, y_within};
use std::ops::Range;
use vstd::prelude::*;

verus! {

/// One block type with its counts, one per level.
pub type Row = (String, Vec<isize>);

/// A row of machine counts as mathematical integers.
pub open spec fn ints(v: Seq<isize>) -> Seq<int> {
    Seq::new(v.len(), |i: int| v[i] as int)
}

/// Each row's name comes before the names of all rows after it.
pub open spec fn rows_sorted(rows: Seq<Row>) -> bool {
    forall|i: int, j: int|
        0 <= i < j < rows.len() ==> name_before((#[trigger] rows[i]).0@, (#[trigger] rows[j]).0@)
}

/// Some row carries `name`.
pub open spec fn has_row(rows: Seq<Row>, name: Seq<char>) -> bool {
    exists|i: int| 0 <= i < rows.len() && (#[trigger] rows[i]).0@ == name
}

/// The index of a row that carries `name`.
pub open spec fn row_index(rows: Seq<Row>, name: Seq<char>) -> int {
    choose|i: int| 0 <= i < rows.len() && (#[trigger] rows[i]).0@ == name
}

/// The census that a sequence of rows stands for.
pub open spec fn rows_census(rows: Seq<Row>) -> Census {
    Map::new(
        |k: Seq<char>| has_row(rows, k),
        |k: Seq<char>| ints(rows[row_index(rows, k)].1@),
    )
}

/// In sorted rows no name occurs twice, so each row is found under its name.
pub proof fn lemma_rows_census(rows: Seq<Row>)
    requires
        rows_sorted(rows),
    ensures
        forall|i: int|
            0 <= i < rows.len() ==> rows_census(rows).contains_key((#[trigger] rows[i]).0@)
                && rows_census(rows)[rows[i].0@] == ints(rows[i].1@),
        forall|k: Seq<char>| #[trigger]
            rows_census(rows).contains_key(k) ==> 0 <= row_index(rows, k) < rows.len()
                && rows[row_index(rows, k)].0@ == k,
{
}

/// Giving one row new counts gives its name those counts in the census and
/// changes nothing else.
pub proof fn lemma_row_replaced(before: Seq<Row>, after: Seq<Row>, i: int)
    requires
        rows_sorted(before),
        0 <= i < before.len(),
        after.len() == before.len(),
        after[i].0@ == before[i].0@,
        forall|k: int| 0 <= k < before.len() && k != i ==> after[k] == before[k],
    ensures
        rows_sorted(after),
        rows_census(after) == rows_census(before).insert(before[i].0@, ints(after[i].1@)),
{
}

/// Putting a row with a new name in its place gives the census that name
/// with the row's counts and changes nothing else.
pub proof fn lemma_row_inserted(before: Seq<Row>, p: int, row: Row)
    requires
        rows_sorted(before),
        0 <= p <= before.len(),
        forall|i: int| 0 <= i < p ==> name_before((#[trigger] before[i]).0@, row.0@),
        forall|i: int| p <= i < before.len() ==> name_before(row.0@, (#[trigger] before[i]).0@),
    ensures
        rows_sorted(before.insert(p, row)),
        !rows_census(before).contains_key(row.0@),
        rows_census(before.insert(p, row)) == rows_census(before).insert(row.0@, ints(row.1@)),
{
    let after = before.insert(p, row);
    let goal = rows_census(before).insert(row.0@, ints(row.1@));
    assert forall|k: Seq<char>| #[trigger] goal.contains_key(k) implies has_row(after, k) by {
        if k == row.0@ {
            assert(after[p].0@ == k);
        } else {
            let j = row_index(before, k);
            let nj = if j < p { j } else { j + 1 };
            assert(after[nj] == before[j]);
        }
    }
}

/// The rows from `k - 1` on stand for the census of the rows from `k` on
/// with the row `k - 1` added under its name, which those do not hold.
pub proof fn lemma_census_of_tail(rows: Seq<Row>, k: int)
    requires
        rows_sorted(rows),
        0 < k <= rows.len(),
    ensures
        rows_sorted(rows.subrange(k, rows.len() as int)),
        !rows_census(rows.subrange(k, rows.len() as int)).contains_key(rows[k - 1].0@),
        rows_census(rows.subrange(k - 1, rows.len() as int)) == rows_census(
            rows.subrange(k, rows.len() as int),
        ).insert(rows[k - 1].0@, ints(rows[k - 1].1@)),
{
    let tail = rows.subrange(k, rows.len() as int);
    lemma_row_inserted(tail, 0, rows[k - 1]);
    assert(tail.insert(0, rows[k - 1]) =~= rows.subrange(k - 1, rows.len() as int));
}

/// Occurrence counts per block type and vertical level.
#[derive(Clone, Debug)]
pub struct BlockCount {
    count: Vec<Row>,
    y_start: isize,
    y_end: isize,
    capacity: usize,
}

impl View for BlockCount {
    type V = Census;

    closed spec fn view(&self) -> Census {
        rows_census(self.count@)
    }
}

impl BlockCount {
    /// The range of levels that the counts are indexed over.
    pub closed spec fn y_range(&self) -> Range<isize> {
        Range { start: self.y_start, end: self.y_end }
    }

    /// The rows as they are kept.
    pub closed spec fn rows(&self) -> Seq<Row> {
        self.count@
    }

    /// The number of levels, which is the length of every row.
    pub open spec fn levels(&self) -> nat {
        y_len(self.y_range())
    }

    /// The representation is sound: the range is valid, the rows are sorted
    /// by name, each row has one count per level, and no count is negative.
    pub closed spec fn wf(&self) -> bool {
        &&& valid_y_range(self.y_range())
        &&& self.capacity == y_len(self.y_range())
        &&& rows_sorted(self.count@)
        &&& forall|i: int|
            0 <= i < self.count.len() ==> (#[trigger] self.count[i]).1.len() == self.capacity
        &&& forall|i: int, j: int|
            0 <= i < self.count.len() && 0 <= j < self.capacity ==> 0
                <= #[trigger] self.count[i].1[j]
    }

    /// What a sound accumulator's census looks like.
    pub proof fn lemma_wf(&self)
        requires
            self.wf(),
        ensures
            valid_y_range(self.y_range()),
            self@ == rows_census(self.rows()),
            rows_sorted(self.rows()),
            shaped(self@, self.levels()),
            non_negative(self@),
            bounded(self@, isize::MAX as int),
    {
    }

    /// A fresh accumulator over `world_y_range`, with no name and no count.
    pub fn new(world_y_range: &Range<isize>) -> (r: BlockCount)
        requires
            valid_y_range(*world_y_range),
        ensures
            r.wf(),
            r.y_range() == *world_y_range,
            r@ == Map::<Seq<char>, Seq<int>>::empty(),
    {
        let r = BlockCount {
            count: Vec::new(),
            y_start: world_y_range.start,
            y_end: world_y_range.end,
            capacity: (world_y_range.end - world_y_range.start) as usize,
        };
        r
    }

    /// Finds the row of `name`, or the place where it would go.
    fn find(&self, name: &str) -> (r: Result<usize, usize>)
        requires
            rows_sorted(self.count@),
        ensures
            match r {
                Ok(i) => i < self.count.len() && self.count[i as int].0@ == name@,
                Err(p) => {
                    &&& p <= self.count.len()
                    &&& !has_row(self.count@, name@)
                    &&& forall|i: int| 0 <= i < p ==> name_before(self.count[i].0@, name@)
                    &&& forall|i: int|
                        p <= i < self.count.len() ==> name_before(name@, self.count[i].0@)
                },
            },
    {
        let mut lo: usize = 0;
        let mut hi: usize = self.count.len();
        while lo < hi
            invariant
                lo <= hi <= self.count.len(),
                rows_sorted(self.count@),
                forall|i: int| 0 <= i < lo ==> name_before(self.count[i].0@, name@),
                forall|i: int| hi <= i < self.count.len() ==> name_before(name@, self.count[i].0@),
            decreases hi - lo,
        {
            let mid: usize = lo + (hi - lo) / 2;
            match rank_names(self.count[mid].0.as_str(), name) {
                Rank::Same => {
                    return Ok(mid);
                },
                Rank::Before => {
                    assert forall|i: int| 0 <= i < mid + 1 implies name_before(
                        self.count[i].0@,
                        name@,
                    ) by {
                        if i < mid {
                            lemma_name_before_transitive(
                                self.count[i].0@,
                                self.count[mid as int].0@,
                                name@,
                            );
                        }
                    }
                    lo = mid + 1;
                },
                Rank::After => {
                    assert forall|i: int| mid <= i < self.count.len() implies name_before(
                        name@,
                        self.count[i].0@,
                    ) by {
                        if mid < i {
                            lemma_name_before_transitive(
                                name@,
                                self.count[mid as int].0@,
                                self.count[i].0@,
                            );
                        }
                    }
                    hi = mid;
                },
            }
        }
        Err(lo)
    }

    /// Counts one occurrence of `block_type` at level `y_coord`.
    ///
    /// The level must lie in the accumulator's range, and the count that
    /// grows must be below the largest that the machine can hold.
    pub fn count_block(&mut self, y_coord: isize, block_type: &str)
        requires
            old(self).wf(),
            y_within(old(self).y_range(), y_coord as int),
            row_or_zeros(old(self)@, old(self).levels(), block_type@)[y_coord - old(
                self,
            ).y_range().start] < isize::MAX,
        ensures
            final(self).wf(),
            final(self).y_range() == old(self).y_range(),
            final(self)@ == counted(
                old(self)@,
                old(self).levels(),
                y_coord - old(self).y_range().start,
                block_type@,
            ),
    {
        let counter_idx: usize = (y_coord - self.y_start) as usize;
        let ghost before = self.count@;
        match self.find(block_type) {
            Ok(i) => {
                self.count[i].1[counter_idx] += 1;
                proof {
                    lemma_row_replaced(before, self.count@, i as int);
                    assert(ints(self.count[i as int].1@) =~= ints(before[i as int].1@).update(
                        counter_idx as int,
                        before[i as int].1[counter_idx as int] + 1,
                    ));
                }
            },
            Err(p) => {
                let mut row: Vec<isize> = vec![0; self.capacity];
                row[counter_idx] = 1;
                let fresh: Row = (block_type.to_string(), row);
                proof {
                    lemma_row_inserted(before, p as int, fresh);
                    assert(ints(fresh.1@) =~= zeros(self.capacity as nat).update(
                        counter_idx as int,
                        1,
                    ));
                }
                self.count.insert(p, fresh);
            },
        }
    }

    /// Adds the counts of `other` to this accumulator.
    ///
    /// The two must be over the same range of levels, start and end both:
    /// otherwise nothing is changed and the two ranges are reported. Every
    /// name of `other` ends up here; where both hold a name, its counts are
    /// added level by level. No such sum may exceed what the machine can
    /// hold: `can_add` tests that.
    pub fn add_block_count(&mut self, other: BlockCount) -> (r: Result<(), BlockCountError>)
        requires
            old(self).wf(),
            other.wf(),
            old(self).y_range() == other.y_range() ==> sum_fits(
                old(self)@,
                other@,
                isize::MAX as int,
            ),
        ensures
            final(self).wf(),
            final(self).y_range() == old(self).y_range(),
            match r {
                Ok(()) => old(self).y_range() == other.y_range() && final(self)@ == merged(
                    old(self)@,
                    other@,
                ),
                Err(e) => old(self).y_range() != other.y_range() && *final(self) == *old(self)
                    && e == (BlockCountError::MismatchingYRange {
                    this: old(self).y_range(),
                    other: other.y_range(),
                }),
            },
    {
        if self.y_start != other.y_start || self.y_end != other.y_end {
            return Err(
                BlockCountError::MismatchingYRange {
                    this: self.y_start..self.y_end,
                    other: other.y_start..other.y_end,
                },
            );
        }
        let ghost mine = self@;
        let ghost theirs = other.count@;
        let mut rest = other.count;
        while rest.len() > 0
            invariant
                self.wf(),
                self.y_start == old(self).y_start,
                self.y_end == old(self).y_end,
                self.capacity == old(self).capacity,
                rows_sorted(theirs),
                rest.len() <= theirs.len(),
                rest@ == theirs.subrange(0, rest.len() as int),
                forall|i: int|
                    0 <= i < theirs.len() ==> (#[trigger] theirs[i]).1.len() == self.capacity,
                forall|i: int, j: int|
                    0 <= i < theirs.len() && 0 <= j < self.capacity ==> 0
                        <= #[trigger] theirs[i].1[j],
                sum_fits(mine, rows_census(theirs), isize::MAX as int),
                self@ == merged(
                    mine,
                    rows_census(theirs.subrange(rest.len() as int, theirs.len() as int)),
                ),
            decreases rest.len(),
        {
            let ghost k = rest.len() as int;
            let ghost before = self.count@;
            let (block_type, other_count) = rest.pop().unwrap();
            let ghost name = block_type@;
            let ghost added = ints(other_count@);
            proof {
                lemma_census_of_tail(theirs, k);
                lemma_rows_census(before);
            }
            match self.find(block_type.as_str()) {
                Ok(i) => {
                    let ghost this_count = before[i as int].1@;
                    proof {
                        assert forall|n: int| 0 <= n < self.capacity implies 0
                            <= #[trigger] other_count[n] && 0 <= this_count[n] && this_count[n]
                            + other_count[n] <= isize::MAX by {
                            assert(mine[name][n] + rows_census(theirs)[name][n] <= isize::MAX);
                        }
                    }
                    let mut j: usize = 0;
                    while j < self.capacity
                        invariant
                            j <= self.capacity,
                            i < before.len(),
                            self.count.len() == before.len(),
                            self.y_start == old(self).y_start,
                            self.y_end == old(self).y_end,
                            self.capacity == old(self).capacity,
                            this_count == before[i as int].1@,
                            this_count.len() == self.capacity,
                            other_count.len() == self.capacity,
                            self.count[i as int].0 == before[i as int].0,
                            self.count[i as int].1.len() == self.capacity,
                            forall|n: int|
                                0 <= n < before.len() && n != i ==> self.count[n] == before[n],
                            forall|n: int|
                                0 <= n < j ==> self.count[i as int].1[n] == this_count[n]
                                    + other_count[n],
                            forall|n: int|
                                j <= n < self.capacity ==> self.count[i as int].1[n]
                                    == this_count[n],
                            forall|n: int|
                                0 <= n < self.capacity ==> 0 <= #[trigger] other_count[n]
                                    && 0 <= this_count[n] && this_count[n] + other_count[n]
                                    <= isize::MAX,
                        decreases self.capacity - j,
                    {
                        self.count[i].1[j] += other_count[j];
                        j += 1;
                    }
                    proof {
                        lemma_row_replaced(before, self.count@, i as int);
                        assert(ints(self.count[i as int].1@) =~= row_sum(mine[name], added));
                        assert forall|n: int, m: int|
                            0 <= n < self.count.len() && 0 <= m < self.capacity implies 0
                            <= #[trigger] self.count[n].1[m] by {
                            if n != i {
                                assert(0 <= before[n].1[m]);
                            }
                        }
                        assert forall|n: int| 0 <= n < self.count.len() implies (
                        #[trigger] self.count[n]).1.len() == self.capacity by {
                            if n != i {
                                assert(self.count[n] == before[n]);
                            }
                        }
                    }
                },
                Err(p) => {
                    proof {
                        lemma_row_inserted(before, p as int, (block_type, other_count));
                    }
                    self.count.insert(p, (block_type, other_count));
                },
            }
        }
        proof {
            assert(theirs.subrange(0, theirs.len() as int) =~= theirs);
        }
        Ok(())
    }

    /// Whether `add_block_count` may be called with `other`: the two are over
    /// different ranges, so that nothing would be added, or no sum of two
    /// counts exceeds what the machine can hold.
    pub fn can_add(&self, other: &BlockCount) -> (b: bool)
        requires
            self.wf(),
            other.wf(),
        ensures
            b == (self.y_range() == other.y_range() ==> sum_fits(
                self@,
                other@,
                isize::MAX as int,
            )),
    {
        if self.y_start != other.y_start || self.y_end != other.y_end {
            return true;
        }
        let mut k: usize = 0;
        while k < other.count.len()
            invariant
                k <= other.count.len(),
                self.wf(),
                other.wf(),
                self.y_start == other.y_start,
                self.y_end == other.y_end,
                self.capacity == other.capacity,
                forall|n: int, j: int|
                    0 <= n < k && 0 <= j < self.capacity && self@.contains_key(
                        (#[trigger] other.count[n]).0@,
                    ) ==> (#[trigger] self@[other.count[n].0@][j]) + other.count[n].1[j]
                        <= isize::MAX,
            decreases other.count.len() - k,
        {
            match self.find(other.count[k].0.as_str()) {
                Ok(i) => {
                    let mut j: usize = 0;
                    while j < self.capacity
                        invariant
                            j <= self.capacity,
                            k < other.count.len(),
                            i < self.count.len(),
                            self.wf(),
                            other.wf(),
                            self.y_start == other.y_start,
                            self.y_end == other.y_end,
                            self.capacity == other.capacity,
                            self.count[i as int].0@ == other.count[k as int].0@,
                            self.count[i as int].1.len() == self.capacity,
                            other.count[k as int].1.len() == self.capacity,
                            forall|n: int|
                                0 <= n < j ==> (#[trigger] self.count[i as int].1[n])
                                    + other.count[k as int].1[n] <= isize::MAX,
                        decreases self.capacity - j,
                    {
                        if self.count[i].1[j] > isize::MAX - other.count[k].1[j] {
                            proof {
                                let name = other.count[k as int].0@;
                                assert(self@[name][j as int] + other@[name][j as int]
                                    > isize::MAX);
                            }
                            return false;
                        }
                        j += 1;
                    }
                },
                Err(_) => {},
            }
            k += 1;
        }
        true
    }

    /// Whether every count can still grow by `more`: none is above the
    /// largest that the machine can hold less `more`.
    pub fn has_room(&self, more: isize) -> (b: bool)
        requires
            self.wf(),
            0 <= more,
        ensures
            b == bounded(self@, isize::MAX - more),
    {
        let limit: isize = isize::MAX - more;
        proof {
            lemma_rows_census(self.count@);
        }
        let mut i: usize = 0;
        while i < self.count.len()
            invariant
                i <= self.count.len(),
                self.wf(),
                limit == isize::MAX - more,
                forall|n: int, j: int|
                    0 <= n < i && 0 <= j < self.capacity ==> #[trigger] self.count[n].1[j]
                        <= limit,
            decreases self.count.len() - i,
        {
            let mut j: usize = 0;
            while j < self.capacity
                invariant
                    i < self.count.len(),
                    j <= self.capacity,
                    self.wf(),
                    limit == isize::MAX - more,
                    self.count[i as int].1.len() == self.capacity,
                    forall|k: int| 0 <= k < j ==> #[trigger] self.count[i as int].1[k] <= limit,
                decreases self.capacity - j,
            {
                if self.count[i].1[j] > limit {
                    proof {
                        lemma_rows_census(self.count@);
                        let name = self.count[i as int].0@;
                        assert(self@.contains_key(name));
                        assert(self@[name] == ints(self.count[i as int].1@));
                        assert(self@[name][j as int] > limit);
                    }
                    return false;
                }
                j += 1;
            }
            i += 1;
        }
        proof {
            lemma_rows_census(self.count@);
            assert forall|k: Seq<char>, j: int|
                self@.contains_key(k) && 0 <= j < self@[k].len() implies #[trigger] self@[k][j]
                <= limit by {
                let n = row_index(self.count@, k);
                assert(self.count[n].1.len() == self.capacity);
                assert(self.count[n].1[j] <= limit);
            }
        }
        true
    }

    /// The range of levels that the counts are indexed over.
    pub fn world_y_range(&self) -> (r: Range<isize>)
        ensures
            r == self.y_range(),
    {
        self.y_start..self.y_end
    }

    /// The rows in the order of their names: each block type with its counts,
    /// one per level.
    pub fn block_count(&self) -> (r: &Vec<Row>)
        ensures
            r@ == self.rows(),
            self.wf() ==> rows_sorted(r@) && rows_census(r@) == self@,
    {
        &self.count
    }
}

/// Why two accumulators could not be merged.
#[derive(PartialEq, Debug)]
pub enum BlockCountError {
    /// The two are over different ranges of levels.
    MismatchingYRange { this: Range<isize>, other: Range<isize> },
}

impl BlockCountError {
    /// The error in words.
    pub open spec fn message_text(self) -> Seq<char> {
        match self {
            BlockCountError::MismatchingYRange { this, other } => {
                "Y ranges don't match: expected "@ + decimal(this.start as int) + ".."@ + decimal(
                    this.end as int,
                ) + ", but got "@ + decimal(other.start as int) + ".."@ + decimal(
                    other.end as int,
                )
            },
        }
    }

    /// The error in words, with both ranges.
    pub fn message(&self) -> (s: String)
        ensures
            s@ == self.message_text(),
    {
        match self {
            BlockCountError::MismatchingYRange { this, other } => {
                let mut s = "Y ranges don't match: expected ".to_string();
                push_decimal(&mut s, this.start);
                s.append("..");
                push_decimal(&mut s, this.end);
                s.append(", but got ");
                push_decimal(&mut s, other.start);
                s.append("..");
                push_decimal(&mut s, other.end);
                s
            },
        }
    }
}

} // verus!
