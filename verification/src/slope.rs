//! How far an edge has climbed or dropped after a number of columns.
//!
//! An edge that covers `rise` rows over `run` columns gains `rise / run` of a
//! row with every column. The rasterizer keeps that running sum exactly, as a
//! whole number of rows plus a remainder that is a fraction of `run`, and moves
//! a row whenever the sum reaches a whole cell. The whole part after `k`
//! columns is therefore `k * rise / run` rounded toward zero, which is what
//! [`row_offset`] says.

use vstd::prelude::*;
use vstd::arithmetic::div_mod::{
    lemma_div_basics, lemma_div_is_ordered, lemma_div_multiples_vanish, lemma_div_pos_is_pos,
    lemma_fundamental_div_mod, lemma_fundamental_div_mod_converse, lemma_mod_pos_bound,
};

verus! {

/// The largest distance between two `i32` values, as a bound on rises and runs.
pub open spec fn span_limit() -> int {
    0x1_0000_0000
}

/// Whole rows gained after `k` columns along an edge of `rise` rows over `run`
/// columns: `k * rise / run` rounded toward zero. An edge without width gains
/// nothing.
pub open spec fn row_offset(rise: int, run: int, k: int) -> int {
    if run <= 0 {
        0
    } else if rise >= 0 {
        (k * rise) / run
    } else {
        -((k * (-rise)) / run)
    }
}

/// The size of `rise`, whatever its direction.
pub open spec fn magnitude(rise: int) -> int {
    if rise >= 0 {
        rise
    } else {
        -rise
    }
}

/// An edge never gains more than twice its rise within one column past its run.
pub proof fn lemma_row_offset_bound(rise: int, run: int, k: int)
    requires
        0 < run,
        0 <= k <= run + 1,
    ensures
        rise >= 0 ==> 0 <= row_offset(rise, run, k) <= 2 * rise,
        rise < 0 ==> 2 * rise <= row_offset(rise, run, k) <= 0,
{
    let m = magnitude(rise);
    assert(0 <= k * m <= run * (2 * m)) by (nonlinear_arith)
        requires
            0 <= k <= run + 1,
            0 < run,
            0 <= m,
    ;
    lemma_div_pos_is_pos(k * m, run);
    lemma_div_is_ordered(k * m, run * (2 * m), run);
    lemma_div_multiples_vanish(2 * m, run);
}

/// Within its run an edge never gains more than its rise, and at the end of
/// the run it has gained all of it.
pub proof fn lemma_row_offset_within_run(rise: int, run: int, k: int)
    requires
        0 < run,
        0 <= k <= run,
    ensures
        rise >= 0 ==> 0 <= row_offset(rise, run, k) <= rise,
        rise < 0 ==> rise <= row_offset(rise, run, k) <= 0,
        row_offset(rise, run, run) == rise,
        row_offset(rise, run, 0) == 0,
{
    let m = magnitude(rise);
    assert(0 <= k * m <= run * m) by (nonlinear_arith)
        requires
            0 <= k <= run,
            0 <= m,
    ;
    lemma_div_pos_is_pos(k * m, run);
    lemma_div_is_ordered(k * m, run * m, run);
    lemma_div_multiples_vanish(m, run);
    assert(0 * m == 0);
    lemma_div_basics(run);
}

/// The whole rows an edge of `rise` rows over `run` columns has gained after
/// `k` of its columns.
pub fn offset_after(rise: i64, run: i64, k: i64) -> (offset: i64)
    requires
        0 < run < span_limit(),
        -span_limit() < rise < span_limit(),
        0 <= k <= run,
    ensures
        offset == row_offset(rise as int, run as int, k as int),
        rise >= 0 ==> 0 <= offset <= rise,
        rise < 0 ==> rise <= offset <= 0,
{
    let size: u64 = if rise >= 0 {
        rise as u64
    } else {
        (-rise) as u64
    };
    proof {
        lemma_row_offset_within_run(rise as int, run as int, k as int);
        assert(0 <= k * size <= 0xffff_ffff * 0xffff_ffff) by (nonlinear_arith)
            requires
                0 <= k <= 0xffff_ffff,
                0 <= size <= 0xffff_ffff,
        ;
    }
    let whole: u64 = (k as u64 * size) / (run as u64);
    if rise >= 0 {
        whole as i64
    } else {
        -(whole as i64)
    }
}

/// The running sum of an edge's slope, column by column: the row it has
/// reached and the fraction of a row carried over.
pub(crate) struct EdgeTracker {
    row: i64,
    carry: u64,
    size: u64,
    run: u64,
    falling: bool,
}

impl EdgeTracker {
    /// The tracker stands `k` columns along the edge that starts in
    /// `start_row` and covers `rise` rows over `run` columns.
    pub(crate) closed spec fn at(&self, start_row: int, rise: int, run: int, k: int) -> bool {
        &&& 0 < run < span_limit()
        &&& -span_limit() < rise < span_limit()
        &&& i32::MIN <= start_row <= i32::MAX
        &&& 0 <= k <= run + 1
        &&& self.run == run
        &&& self.size == magnitude(rise)
        &&& self.falling == (rise > 0)
        &&& self.carry == (k * magnitude(rise)) % run
        &&& self.row == start_row + row_offset(rise, run, k)
    }

    /// The row the tracker has reached.
    pub(crate) closed spec fn spec_row(&self) -> int {
        self.row as int
    }

    /// What `at` fixes of the row reached.
    pub(crate) proof fn lemma_at_row(&self, start_row: int, rise: int, run: int, k: int)
        requires
            self.at(start_row, rise, run, k),
        ensures
            self.spec_row() == start_row + row_offset(rise, run, k),
    {
    }

    /// A tracker at the first column of an edge.
    pub(crate) fn begin(start_row: i32, rise: i64, run: i64) -> (tracker: EdgeTracker)
        requires
            0 < run < span_limit(),
            -span_limit() < rise < span_limit(),
        ensures
            tracker.at(start_row as int, rise as int, run as int, 0),
    {
        let size: u64 = if rise >= 0 {
            rise as u64
        } else {
            (-rise) as u64
        };
        proof {
            assert(0 * magnitude(rise as int) == 0);
            lemma_div_basics(run as int);
            lemma_fundamental_div_mod(0, run as int);
            assert(run as int * 0 == 0);
            assert(0int % (run as int) == 0);
        }
        EdgeTracker { row: start_row as i64, carry: 0, size, run: run as u64, falling: rise > 0 }
    }

    /// The row the tracker has reached.
    pub(crate) fn row(&self) -> (row: i64)
        ensures
            row == self.spec_row(),
    {
        self.row
    }

    /// Moves one column along the edge and returns how many whole rows that
    /// column added to the running sum.
    pub(crate) fn advance(
        &mut self,
        Ghost(start_row): Ghost<int>,
        Ghost(rise): Ghost<int>,
        Ghost(run): Ghost<int>,
        Ghost(k): Ghost<int>,
    ) -> (moved: u64)
        requires
            old(self).at(start_row, rise, run, k),
            k <= run,
        ensures
            final(self).at(start_row, rise, run, k + 1),
            moved == magnitude(row_offset(rise, run, k + 1) - row_offset(rise, run, k)),
            rise > 0 ==> final(self).spec_row() == old(self).spec_row() + moved,
            rise <= 0 ==> final(self).spec_row() == old(self).spec_row() - moved,
            moved <= 2 * magnitude(rise),
    {
        let ghost m = magnitude(rise);
        let sum: u64 = self.carry + self.size;
        let moved: u64 = sum / self.run;
        let rest: u64 = sum % self.run;
        proof {
            let before = (k * m) / run;
            lemma_fundamental_div_mod(k * m, run);
            lemma_fundamental_div_mod(sum as int, run);
            lemma_mod_pos_bound(sum as int, run);
            assert((k + 1) * m == (before + moved) * run + rest) by (nonlinear_arith)
                requires
                    k * m == run * before + self.carry,
                    sum == self.carry + m,
                    sum == run * moved + rest,
            ;
            lemma_fundamental_div_mod_converse((k + 1) * m, run, before + moved, rest as int);
            lemma_row_offset_bound(rise, run, k);
            lemma_row_offset_bound(rise, run, k + 1);
            assert(rise == 0 ==> (k + 1) * m == 0 && k * m == 0) by (nonlinear_arith)
                requires
                    m == magnitude(rise),
            ;
        }
        if self.falling {
            self.row = self.row + moved as i64;
        } else {
            self.row = self.row - moved as i64;
        }
        self.carry = rest;
        moved
    }
}

} // verus!
