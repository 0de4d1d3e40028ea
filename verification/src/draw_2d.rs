//! Rasterization on a character grid: straight segments, the region between
//! two edges, and triangles.
//!
//! Nothing here touches a display. Every primitive appends the cells it
//! reaches, in the order it reaches them, to a list of [`Paint`]s; whoever owns
//! the display replays that list, so a later entry overdraws an earlier one.
//!
//! Slopes are kept as exact fractions (see [`crate::slope`]), so the row of an
//! edge in its `k`-th column is a closed formula and not the outcome of
//! accumulated rounding.

use vstd::prelude::*;
use vstd::arithmetic::div_mod::lemma_div_multiples_vanish;
use crate::slope::{
    lemma_row_offset_bound, lemma_row_offset_within_run, magnitude, offset_after, row_offset,
    EdgeTracker,
};

verus! {

/// A cell of the character grid, counted from the top-left corner.
#[derive(Copy, Clone, Debug, PartialEq, Eq, Structural)]
pub struct Coordinate {
    pub row: i32,
    pub col: i32,
}

/// One write to the display: `glyph` goes into the cell at (`row`, `col`).
///
/// Cells are addressed more widely than [`Coordinate`]s because the last
/// vertical run of a steep line may pass the rows its endpoints can name.
#[derive(Copy, Clone, Debug, PartialEq, Eq, Structural)]
pub struct Paint {
    pub row: i64,
    pub col: i64,
    pub glyph: char,
}

/// Why the region between two edges could not be filled.
#[derive(Copy, Clone, Debug, PartialEq, Eq, Structural)]
pub enum RegionFillErr {
    /// The two edges do not span the same columns.
    TopAndBottomDoNotAlign,
    /// At one end of the span the top edge lies below the bottom edge.
    TopIsBelowBottom,
}

/// A failed region fill inside a triangle: which half of the triangle it was
/// (`None` where the triangle is filled in one piece), the two edges handed
/// to the fill, and what the fill objected to.
#[derive(Copy, Clone, Debug)]
pub struct TriangleFillErr {
    pub part: Option<i8>,
    pub top_start: Coordinate,
    pub top_end: Coordinate,
    pub bottom_start: Coordinate,
    pub bottom_end: Coordinate,
    pub fill_err: RegionFillErr,
}

impl Coordinate {
    /// The cell `row_change` rows below and `col_change` columns right of
    /// this one.
    pub fn coord_shift(self, row_change: i32, col_change: i32) -> (shifted: Coordinate)
        requires
            i32::MIN <= self.row + row_change <= i32::MAX,
            i32::MIN <= self.col + col_change <= i32::MAX,
        ensures
            shifted.row == self.row + row_change,
            shifted.col == self.col + col_change,
    {
        Coordinate { row: self.row + row_change, col: self.col + col_change }
    }
}

/// The write of `glyph` into the cell at (`row`, `col`).
pub open spec fn paint_at(row: int, col: int, glyph: char) -> Paint {
    Paint { row: row as i64, col: col as i64, glyph }
}

/// `count` writes of `glyph` into column `col`, from `first_row` on, each one
/// row further down, or further up where `downwards` is false. No write where
/// `count` is not positive.
pub open spec fn column_run(
    col: int,
    first_row: int,
    downwards: bool,
    count: int,
    glyph: char,
) -> Seq<Paint> {
    Seq::new(
        if count > 0 {
            count as nat
        } else {
            0
        },
        |j: int|
            paint_at(
                if downwards {
                    first_row + j
                } else {
                    first_row - j
                },
                col,
                glyph,
            ),
    )
}

/// The smaller of two rows.
pub open spec fn upper_row(a: int, b: int) -> int {
    if a <= b {
        a
    } else {
        b
    }
}

/// The larger of two rows.
pub open spec fn lower_row(a: int, b: int) -> int {
    if a <= b {
        b
    } else {
        a
    }
}

/// What a sloped line writes in its `k`-th column, all of it in `glyph`: the
/// cell of the line, then, where the line changes rows there, every cell
/// from that one up to the row before the next column's.
pub open spec fn line_column(start: Coordinate, rise: int, run: int, glyph: char, k: int) -> Seq<
    Paint,
> {
    let here = start.row + row_offset(rise, run, k);
    let next = start.row + row_offset(rise, run, k + 1);
    seq![paint_at(here, start.col + k, glyph)] + column_run(
        start.col + k,
        here,
        rise > 0,
        magnitude(next - here),
        glyph,
    )
}

/// What a sloped line writes in its first `n` columns.
pub open spec fn line_columns(start: Coordinate, rise: int, run: int, glyph: char, n: nat) -> Seq<
    Paint,
>
    decreases n,
{
    if n == 0 {
        Seq::empty()
    } else {
        line_columns(start, rise, run, glyph, (n - 1) as nat) + line_column(
            start,
            rise,
            run,
            glyph,
            n - 1,
        )
    }
}

/// Everything [`draw_line`] writes.
///
/// Between two cells of one column: the rows strictly between them, top to
/// bottom, and neither of the two cells. Otherwise: from the endpoint with
/// the smaller column to the other, one column at a time and both included,
/// as [`line_column`] says.
pub open spec fn line_paints(from: Coordinate, to: Coordinate, glyph: char) -> Seq<Paint> {
    if from.col == to.col {
        let top = upper_row(from.row as int, to.row as int);
        let bottom = lower_row(from.row as int, to.row as int);
        column_run(from.col as int, top + 1, true, bottom - top - 1, glyph)
    } else {
        let start = if from.col < to.col {
            from
        } else {
            to
        };
        let end = if from.col < to.col {
            to
        } else {
            from
        };
        line_columns(
            start,
            end.row - start.row,
            end.col - start.col,
            glyph,
            (end.col - start.col + 1) as nat,
        )
    }
}

/// Appends `count` writes of `glyph` in column `col`, from `first_row` on and
/// downwards or upwards.
fn paint_run(
    canvas: &mut Vec<Paint>,
    col: i64,
    first_row: i64,
    downwards: bool,
    count: u64,
    glyph: char,
)
    requires
        -0x4_0000_0000 <= first_row <= 0x4_0000_0000,
        count <= 0x4_0000_0000,
    ensures
        final(canvas)@ == old(canvas)@ + column_run(
            col as int,
            first_row as int,
            downwards,
            count as int,
            glyph,
        ),
{
    let mut done: u64 = 0;
    let mut row: i64 = first_row;
    while done < count
        invariant
            done <= count <= 0x4_0000_0000,
            -0x4_0000_0000 <= first_row <= 0x4_0000_0000,
            row == if downwards {
                first_row + done
            } else {
                first_row - done
            },
            canvas@ == old(canvas)@ + column_run(
                col as int,
                first_row as int,
                downwards,
                done as int,
                glyph,
            ),
        decreases count - done,
    {
        canvas.push(Paint { row, col, glyph });
        if downwards {
            row = row + 1;
        } else {
            row = row - 1;
        }
        done = done + 1;
    }
}

/// Draws the line between two cells in the given character.
///
/// Any two cells can be joined. The cells written are those of
/// [`line_paints`], in that order. A line that stays in one column writes
/// the cells strictly between its ends and neither end; any other line
/// writes both of its ends.
pub fn draw_line(canvas: &mut Vec<Paint>, from: Coordinate, to: Coordinate, fill_char: char)
    ensures
        final(canvas)@ == old(canvas)@ + line_paints(from, to, fill_char),
{
    let start = if from.col < to.col {
        from
    } else {
        to
    };
    let end = if from.col < to.col {
        to
    } else {
        from
    };
    let run: i64 = end.col as i64 - start.col as i64;
    let rise: i64 = end.row as i64 - start.row as i64;

    // A line inside one column
    if run == 0 {
        let top: i64 = if from.row <= to.row {
            from.row as i64
        } else {
            to.row as i64
        };
        let bottom: i64 = if from.row <= to.row {
            to.row as i64
        } else {
            from.row as i64
        };
        if bottom - top > 1 {
            paint_run(canvas, from.col as i64, top + 1, true, (bottom - top - 1) as u64, fill_char);
        } else {
            assert(column_run(from.col as int, top + 1, true, bottom - top - 1, fill_char)
                =~= Seq::<Paint>::empty());
        }
        return ;
    }
    let mut tracker = EdgeTracker::begin(start.row, rise, run);
    let mut idx: i64 = 0;
    // One cell of the line in every column
    while idx <= run
        invariant
            0 <= idx <= run + 1,
            0 < run,
            run == end.col - start.col,
            rise == end.row - start.row,
            tracker.at(start.row as int, rise as int, run as int, idx as int),
            canvas@ == old(canvas)@ + line_columns(
                start,
                rise as int,
                run as int,
                fill_char,
                idx as nat,
            ),
        decreases run + 1 - idx,
    {
        let current_row = tracker.row();
        let current_col: i64 = start.col as i64 + idx;
        proof {
            tracker.lemma_at_row(start.row as int, rise as int, run as int, idx as int);
            lemma_row_offset_bound(rise as int, run as int, idx as int);
        }
        canvas.push(Paint { row: current_row, col: current_col, glyph: fill_char });
        // Move vertically once the slope has added up to a whole cell
        let moved = tracker.advance(
            Ghost(start.row as int),
            Ghost(rise as int),
            Ghost(run as int),
            Ghost(idx as int),
        );
        paint_run(canvas, current_col, current_row, rise > 0, moved, fill_char);
        idx = idx + 1;
    }
}

/// Of the two ends of an edge, the one in the smaller column; the first
/// where both are in one column.
pub open spec fn leftmost(start: Coordinate, end: Coordinate) -> Coordinate {
    if start.col > end.col {
        end
    } else {
        start
    }
}

/// Of the two ends of an edge, the one in the larger column; the second
/// where both are in one column.
pub open spec fn rightmost(start: Coordinate, end: Coordinate) -> Coordinate {
    if start.col > end.col {
        start
    } else {
        end
    }
}

/// The two edges begin in one column and end in one column.
pub open spec fn edges_align(
    top_start: Coordinate,
    top_end: Coordinate,
    bottom_start: Coordinate,
    bottom_end: Coordinate,
) -> bool {
    &&& leftmost(top_start, top_end).col == leftmost(bottom_start, bottom_end).col
    &&& rightmost(top_start, top_end).col == rightmost(bottom_start, bottom_end).col
}

/// At both ends of the span the top edge is in the row of the bottom edge or
/// above it.
pub open spec fn top_is_above(
    top_start: Coordinate,
    top_end: Coordinate,
    bottom_start: Coordinate,
    bottom_end: Coordinate,
) -> bool {
    &&& leftmost(top_start, top_end).row <= leftmost(bottom_start, bottom_end).row
    &&& rightmost(top_start, top_end).row <= rightmost(bottom_start, bottom_end).row
}

/// What a region fill writes in its `k`-th column: every row from the top
/// edge's to the bottom edge's, both included, top to bottom.
pub open spec fn region_column(
    top_left: Coordinate,
    top_right: Coordinate,
    bottom_left: Coordinate,
    bottom_right: Coordinate,
    glyph: char,
    k: int,
) -> Seq<Paint> {
    let run = top_right.col - top_left.col;
    let top = top_left.row + row_offset(top_right.row - top_left.row, run, k);
    let bottom = bottom_left.row + row_offset(bottom_right.row - bottom_left.row, run, k);
    column_run(top_left.col + k, top, true, bottom - top + 1, glyph)
}

/// What a region fill writes in its first `n` columns.
pub open spec fn region_columns(
    top_left: Coordinate,
    top_right: Coordinate,
    bottom_left: Coordinate,
    bottom_right: Coordinate,
    glyph: char,
    n: nat,
) -> Seq<Paint>
    decreases n,
{
    if n == 0 {
        Seq::empty()
    } else {
        region_columns(top_left, top_right, bottom_left, bottom_right, glyph, (n - 1) as nat)
            + region_column(top_left, top_right, bottom_left, bottom_right, glyph, n - 1)
    }
}

/// Everything a successful [`fill_region_between_lines`] writes: the columns
/// of the span from left to right, both ends included.
pub open spec fn region_paints(
    top_start: Coordinate,
    top_end: Coordinate,
    bottom_start: Coordinate,
    bottom_end: Coordinate,
    glyph: char,
) -> Seq<Paint> {
    let top_left = leftmost(top_start, top_end);
    let top_right = rightmost(top_start, top_end);
    region_columns(
        top_left,
        top_right,
        leftmost(bottom_start, bottom_end),
        rightmost(bottom_start, bottom_end),
        glyph,
        (top_right.col - top_left.col + 1) as nat,
    )
}

/// Fills the area between a top edge and a bottom edge in the given
/// character.
///
/// The edges may be given in either direction. The fill is refused, and
/// nothing is written, where the edges do not span the same columns or
/// where the top edge ends up below the bottom edge; the first objection
/// wins.
pub fn fill_region_between_lines(
    canvas: &mut Vec<Paint>,
    top_line_start: Coordinate,
    top_line_end: Coordinate,
    bottom_line_start: Coordinate,
    bottom_line_end: Coordinate,
    fill_char: char,
) -> (filled: Result<(), RegionFillErr>)
    ensures
        filled == Err::<(), RegionFillErr>(RegionFillErr::TopAndBottomDoNotAlign) <==> !edges_align(
            top_line_start,
            top_line_end,
            bottom_line_start,
            bottom_line_end,
        ),
        filled == Err::<(), RegionFillErr>(RegionFillErr::TopIsBelowBottom) <==> edges_align(
            top_line_start,
            top_line_end,
            bottom_line_start,
            bottom_line_end,
        ) && !top_is_above(top_line_start, top_line_end, bottom_line_start, bottom_line_end),
        filled is Ok ==> final(canvas)@ == old(canvas)@ + region_paints(
            top_line_start,
            top_line_end,
            bottom_line_start,
            bottom_line_end,
            fill_char,
        ),
        filled is Err ==> final(canvas)@ == old(canvas)@,
{
    // Take each edge from left to right
    let (top_leftmost, top_rightmost) = if top_line_start.col > top_line_end.col {
        (top_line_end, top_line_start)
    } else {
        (top_line_start, top_line_end)
    };
    let (bottom_leftmost, bottom_rightmost) = if bottom_line_start.col > bottom_line_end.col {
        (bottom_line_end, bottom_line_start)
    } else {
        (bottom_line_start, bottom_line_end)
    };

    // The edges have to span the same columns, the top one on top
    if top_leftmost.col != bottom_leftmost.col || top_rightmost.col != bottom_rightmost.col {
        return Err(RegionFillErr::TopAndBottomDoNotAlign);
    }
    if top_leftmost.row > bottom_leftmost.row || top_rightmost.row > bottom_rightmost.row {
        return Err(RegionFillErr::TopIsBelowBottom);
    }
    let horiz_change: i64 = top_rightmost.col as i64 - top_leftmost.col as i64;
    let top_vertchange: i64 = top_rightmost.row as i64 - top_leftmost.row as i64;
    let bottom_vertchange: i64 = bottom_rightmost.row as i64 - bottom_leftmost.row as i64;

    if horiz_change == 0 {
        // A span of one column: the edges have no room to move
        let rows: i64 = bottom_leftmost.row as i64 - top_leftmost.row as i64 + 1;
        paint_run(
            canvas,
            top_leftmost.col as i64,
            top_leftmost.row as i64,
            true,
            rows as u64,
            fill_char,
        );
        proof {
            let first = region_columns(
                top_leftmost,
                top_rightmost,
                bottom_leftmost,
                bottom_rightmost,
                fill_char,
                0,
            );
            assert(first =~= Seq::<Paint>::empty());
            assert(region_columns(
                top_leftmost,
                top_rightmost,
                bottom_leftmost,
                bottom_rightmost,
                fill_char,
                1,
            ) =~= first + region_column(
                top_leftmost,
                top_rightmost,
                bottom_leftmost,
                bottom_rightmost,
                fill_char,
                0,
            ));
        }
        return Ok(());
    }
    let mut top_tracker = EdgeTracker::begin(top_leftmost.row, top_vertchange, horiz_change);
    let mut bottom_tracker = EdgeTracker::begin(
        bottom_leftmost.row,
        bottom_vertchange,
        horiz_change,
    );
    let mut idx: i64 = 0;
    // Column by column, from the top edge down to the bottom edge
    while idx <= horiz_change
        invariant
            0 <= idx <= horiz_change + 1,
            0 < horiz_change,
            horiz_change == top_rightmost.col - top_leftmost.col,
            top_vertchange == top_rightmost.row - top_leftmost.row,
            bottom_vertchange == bottom_rightmost.row - bottom_leftmost.row,
            top_tracker.at(
                top_leftmost.row as int,
                top_vertchange as int,
                horiz_change as int,
                idx as int,
            ),
            bottom_tracker.at(
                bottom_leftmost.row as int,
                bottom_vertchange as int,
                horiz_change as int,
                idx as int,
            ),
            canvas@ == old(canvas)@ + region_columns(
                top_leftmost,
                top_rightmost,
                bottom_leftmost,
                bottom_rightmost,
                fill_char,
                idx as nat,
            ),
        decreases horiz_change + 1 - idx,
    {
        let top_row = top_tracker.row();
        let bottom_row = bottom_tracker.row();
        proof {
            top_tracker.lemma_at_row(
                top_leftmost.row as int,
                top_vertchange as int,
                horiz_change as int,
                idx as int,
            );
            bottom_tracker.lemma_at_row(
                bottom_leftmost.row as int,
                bottom_vertchange as int,
                horiz_change as int,
                idx as int,
            );
            lemma_row_offset_within_run(top_vertchange as int, horiz_change as int, idx as int);
            lemma_row_offset_within_run(bottom_vertchange as int, horiz_change as int, idx as int);
        }
        let rows: u64 = if bottom_row >= top_row {
            (bottom_row - top_row + 1) as u64
        } else {
            0
        };
        paint_run(canvas, top_leftmost.col as i64 + idx, top_row, true, rows, fill_char);
        proof {
            assert(column_run(
                top_leftmost.col + idx,
                top_row as int,
                true,
                rows as int,
                fill_char,
            ) =~= region_column(
                top_leftmost,
                top_rightmost,
                bottom_leftmost,
                bottom_rightmost,
                fill_char,
                idx as int,
            ));
        }
        top_tracker.advance(
            Ghost(top_leftmost.row as int),
            Ghost(top_vertchange as int),
            Ghost(horiz_change as int),
            Ghost(idx as int),
        );
        bottom_tracker.advance(
            Ghost(bottom_leftmost.row as int),
            Ghost(bottom_vertchange as int),
            Ghost(horiz_change as int),
            Ghost(idx as int),
        );
        idx = idx + 1;
    }
    Ok(())
}

/// The three corners in the order of their columns, corners of one column in
/// the order given.
pub open spec fn by_column(corner1: Coordinate, corner2: Coordinate, corner3: Coordinate) -> (
    Coordinate,
    Coordinate,
    Coordinate,
) {
    if corner1.col <= corner2.col {
        if corner2.col <= corner3.col {
            (corner1, corner2, corner3)
        } else if corner1.col <= corner3.col {
            (corner1, corner3, corner2)
        } else {
            (corner3, corner1, corner2)
        }
    } else {
        if corner1.col <= corner3.col {
            (corner2, corner1, corner3)
        } else if corner2.col <= corner3.col {
            (corner2, corner3, corner1)
        } else {
            (corner3, corner2, corner1)
        }
    }
}

/// The point in the middle corner's column on the long edge, the one from the
/// corner of the smallest column to the corner of the largest.
pub open spec fn long_edge_point(low: Coordinate, mid: Coordinate, high: Coordinate) -> Coordinate {
    Coordinate {
        row: (low.row + row_offset(high.row - low.row, high.col - low.col, mid.col - low.col)) as i32,
        col: mid.col,
    }
}

/// What filling a triangle writes once its corners are in the order of
/// their columns:
/// - all in one row: the line from `low` to `high`;
/// - all in one column: the line between the topmost and the bottommost;
/// - `low` and `mid` in one column: the region between the edges from each
///   of them to `high`, the upper of the two as the top;
/// - `mid` and `high` in one column: the same from `low` to each of them;
/// - otherwise the long edge is cut at `mid`'s column. Where the cut hits
///   `mid`'s row the triangle has no area and is the line from `low` to
///   `high`; else the region from `low` to the cut and to `mid`, then the
///   region from those two to `high`.
pub open spec fn ordered_triangle_paints(
    low: Coordinate,
    mid: Coordinate,
    high: Coordinate,
    glyph: char,
) -> Seq<Paint> {
    if low.row == mid.row && low.row == high.row {
        line_paints(low, high, glyph)
    } else if low.col == mid.col && low.col == high.col {
        let top = upper_row(upper_row(low.row as int, mid.row as int), high.row as int);
        let bottom = lower_row(lower_row(low.row as int, mid.row as int), high.row as int);
        line_paints(
            Coordinate { row: top as i32, col: low.col },
            Coordinate { row: bottom as i32, col: low.col },
            glyph,
        )
    } else if low.col == mid.col {
        if low.row <= mid.row {
            region_paints(low, high, mid, high, glyph)
        } else {
            region_paints(mid, high, low, high, glyph)
        }
    } else if mid.col == high.col {
        if mid.row <= high.row {
            region_paints(low, mid, low, high, glyph)
        } else {
            region_paints(low, high, low, mid, glyph)
        }
    } else {
        let cut = long_edge_point(low, mid, high);
        if cut.row == mid.row {
            line_paints(low, high, glyph)
        } else {
            let upper = if cut.row <= mid.row {
                cut
            } else {
                mid
            };
            let lower = if cut.row <= mid.row {
                mid
            } else {
                cut
            };
            region_paints(low, upper, low, lower, glyph) + region_paints(
                upper,
                high,
                lower,
                high,
                glyph,
            )
        }
    }
}

/// Everything [`fill_triangle`] writes: what [`ordered_triangle_paints`] says
/// of the corners taken by column.
pub open spec fn triangle_paints(
    corner1: Coordinate,
    corner2: Coordinate,
    corner3: Coordinate,
    glyph: char,
) -> Seq<Paint> {
    let (low, mid, high) = by_column(corner1, corner2, corner3);
    ordered_triangle_paints(low, mid, high, glyph)
}

/// Puts three corners in the order of their columns.
fn sort_by_column(corner1: Coordinate, corner2: Coordinate, corner3: Coordinate) -> (sorted: (
    Coordinate,
    Coordinate,
    Coordinate,
))
    ensures
        sorted == by_column(corner1, corner2, corner3),
        sorted.0.col <= sorted.1.col <= sorted.2.col,
{
    if corner1.col <= corner2.col {
        if corner2.col <= corner3.col {
            (corner1, corner2, corner3)
        } else if corner1.col <= corner3.col {
            (corner1, corner3, corner2)
        } else {
            (corner3, corner1, corner2)
        }
    } else {
        if corner1.col <= corner3.col {
            (corner2, corner1, corner3)
        } else if corner2.col <= corner3.col {
            (corner2, corner3, corner1)
        } else {
            (corner3, corner2, corner1)
        }
    }
}

/// Fills one region of a triangle and names the region in the error.
fn fill_part(
    canvas: &mut Vec<Paint>,
    part: Option<i8>,
    top_start: Coordinate,
    top_end: Coordinate,
    bottom_start: Coordinate,
    bottom_end: Coordinate,
    fill_char: char,
) -> (filled: Result<(), TriangleFillErr>)
    ensures
        filled is Ok <==> edges_align(top_start, top_end, bottom_start, bottom_end) && top_is_above(
            top_start,
            top_end,
            bottom_start,
            bottom_end,
        ),
        filled is Ok ==> final(canvas)@ == old(canvas)@ + region_paints(
            top_start,
            top_end,
            bottom_start,
            bottom_end,
            fill_char,
        ),
        filled matches Err(err) ==> {
            &&& final(canvas)@ == old(canvas)@
            &&& err.part == part
            &&& err.top_start == top_start
            &&& err.top_end == top_end
            &&& err.bottom_start == bottom_start
            &&& err.bottom_end == bottom_end
            &&& err.fill_err == if edges_align(top_start, top_end, bottom_start, bottom_end) {
                RegionFillErr::TopIsBelowBottom
            } else {
                RegionFillErr::TopAndBottomDoNotAlign
            }
        },
{
    match fill_region_between_lines(
        canvas,
        top_start,
        top_end,
        bottom_start,
        bottom_end,
        fill_char,
    ) {
        Ok(()) => Ok(()),
        Err(err) => Err(
            TriangleFillErr { part, top_start, top_end, bottom_start, bottom_end, fill_err: err },
        ),
    }
}

/// Fills the triangle between three cells in the given character.
///
/// The corners may come in any order and may coincide or lie in one line.
/// Every triangle can be filled: the regions it is cut into always have
/// their edges aligned and their top edge on top, so no region fill is ever
/// refused and the error is never returned.
pub fn fill_triangle(
    canvas: &mut Vec<Paint>,
    corner1: Coordinate,
    corner2: Coordinate,
    corner3: Coordinate,
    fill_char: char,
) -> (filled: Result<(), TriangleFillErr>)
    ensures
        filled is Ok,
        final(canvas)@ == old(canvas)@ + triangle_paints(corner1, corner2, corner3, fill_char),
{
    let (corner_lowcol, corner_midcol, corner_highcol) = sort_by_column(corner1, corner2, corner3);
    fill_ordered_triangle(canvas, corner_lowcol, corner_midcol, corner_highcol, fill_char)
}

/// Fills a triangle whose corners come in the order of their columns.
fn fill_ordered_triangle(
    canvas: &mut Vec<Paint>,
    corner_lowcol: Coordinate,
    corner_midcol: Coordinate,
    corner_highcol: Coordinate,
    fill_char: char,
) -> (filled: Result<(), TriangleFillErr>)
    requires
        corner_lowcol.col <= corner_midcol.col <= corner_highcol.col,
    ensures
        filled is Ok,
        final(canvas)@ == old(canvas)@ + ordered_triangle_paints(
            corner_lowcol,
            corner_midcol,
            corner_highcol,
            fill_char,
        ),
{
    // Corners in one row or in one column make a line
    if corner_lowcol.row == corner_midcol.row && corner_lowcol.row == corner_highcol.row {
        draw_line(canvas, corner_lowcol, corner_highcol, fill_char);
        return Ok(());
    }
    if corner_lowcol.col == corner_midcol.col && corner_lowcol.col == corner_highcol.col {
        let upper_pair = if corner_lowcol.row <= corner_midcol.row {
            corner_lowcol.row
        } else {
            corner_midcol.row
        };
        let lowest_row = if upper_pair <= corner_highcol.row {
            upper_pair
        } else {
            corner_highcol.row
        };
        let lower_pair = if corner_lowcol.row <= corner_midcol.row {
            corner_midcol.row
        } else {
            corner_lowcol.row
        };
        let highest_row = if lower_pair <= corner_highcol.row {
            corner_highcol.row
        } else {
            lower_pair
        };
        draw_line(
            canvas,
            Coordinate { row: lowest_row, col: corner_lowcol.col },
            Coordinate { row: highest_row, col: corner_lowcol.col },
            fill_char,
        );
        return Ok(());
    }
    // An upright edge on the left or on the right: one region
    if corner_lowcol.col == corner_midcol.col {
        let (top_start, bottom_start) = if corner_lowcol.row <= corner_midcol.row {
            (corner_lowcol, corner_midcol)
        } else {
            (corner_midcol, corner_lowcol)
        };
        return fill_part(
            canvas,
            None,
            top_start,
            corner_highcol,
            bottom_start,
            corner_highcol,
            fill_char,
        );
    }
    if corner_midcol.col == corner_highcol.col {
        let (top_end, bottom_end) = if corner_midcol.row <= corner_highcol.row {
            (corner_midcol, corner_highcol)
        } else {
            (corner_highcol, corner_midcol)
        };
        return fill_part(
            canvas,
            None,
            corner_lowcol,
            top_end,
            corner_lowcol,
            bottom_end,
            fill_char,
        );
    }
    // Otherwise cut the triangle in two at the column of the middle corner
    let midpoint_rowchange = offset_after(
        corner_highcol.row as i64 - corner_lowcol.row as i64,
        corner_highcol.col as i64 - corner_lowcol.col as i64,
        corner_midcol.col as i64 - corner_lowcol.col as i64,
    );
    let second_midpoint = Coordinate {
        row: (corner_lowcol.row as i64 + midpoint_rowchange) as i32,
        col: corner_midcol.col,
    };

    // The middle corner on the long edge: the triangle is flat
    if second_midpoint.row == corner_midcol.row {
        draw_line(canvas, corner_lowcol, corner_highcol, fill_char);
        return Ok(());
    }
    // Of the middle corner and the cut, which is above?
    let (upper_midpoint, lower_midpoint) = if second_midpoint.row <= corner_midcol.row {
        (second_midpoint, corner_midcol)
    } else {
        (corner_midcol, second_midpoint)
    };

    // The region left of the cut, then the region right of it
    match fill_part(
        canvas,
        Some(1),
        corner_lowcol,
        upper_midpoint,
        corner_lowcol,
        lower_midpoint,
        fill_char,
    ) {
        Ok(()) => {},
        Err(err) => {
            return Err(err);
        },
    }
    fill_part(
        canvas,
        Some(2),
        upper_midpoint,
        corner_highcol,
        lower_midpoint,
        corner_highcol,
        fill_char,
    )
}

/// A line inside one column leaves both of its ends unpainted: it writes the
/// rows strictly between them, each once and from the top down, in that
/// column and in the glyph asked for.
pub proof fn law_vertical_line_skips_its_ends(from: Coordinate, to: Coordinate, glyph: char)
    requires
        from.col == to.col,
    ensures
        ({
            let top = upper_row(from.row as int, to.row as int);
            let bottom = lower_row(from.row as int, to.row as int);
            let paints = line_paints(from, to, glyph);
            &&& paints.len() == if bottom - top > 1 {
                bottom - top - 1
            } else {
                0
            }
            &&& forall|i: int|
                0 <= i < paints.len() ==> {
                    &&& (#[trigger] paints[i]).row == top + 1 + i
                    &&& top < paints[i].row < bottom
                    &&& paints[i].col == from.col
                    &&& paints[i].glyph == glyph
                }
        }),
{
}

/// The three corners lie on one straight line.
pub open spec fn collinear(a: Coordinate, b: Coordinate, c: Coordinate) -> bool {
    (b.row - a.row) * (c.col - a.col) == (c.row - a.row) * (b.col - a.col)
}

/// All three corners are in one row, or all three in one column.
pub open spec fn in_one_row_or_column(a: Coordinate, b: Coordinate, c: Coordinate) -> bool {
    (a.row == b.row && b.row == c.row) || (a.col == b.col && b.col == c.col)
}

/// A triangle whose corners lie on one line is drawn as that line: between
/// the corners of the smallest and largest column, or, where all share a
/// column, between the topmost and the bottommost row.
///
/// Left out are the triangles with two corners in one cell and the third in
/// another row and another column: those are filled as a region without
/// height, which writes each of its cells once, where a line writes the
/// cells in which it changes rows a second time.
pub proof fn law_flat_triangle_is_a_line(
    corner1: Coordinate,
    corner2: Coordinate,
    corner3: Coordinate,
    glyph: char,
)
    requires
        collinear(corner1, corner2, corner3),
        corner1 == corner2 || corner2 == corner3 || corner1 == corner3 ==> in_one_row_or_column(
            corner1,
            corner2,
            corner3,
        ),
    ensures
        ({
            let (low, mid, high) = by_column(corner1, corner2, corner3);
            let top = upper_row(upper_row(low.row as int, mid.row as int), high.row as int);
            let bottom = lower_row(lower_row(low.row as int, mid.row as int), high.row as int);
            triangle_paints(corner1, corner2, corner3, glyph) == if low.col == high.col && !(low.row
                == mid.row && low.row == high.row) {
                line_paints(
                    Coordinate { row: top as i32, col: low.col },
                    Coordinate { row: bottom as i32, col: low.col },
                    glyph,
                )
            } else {
                line_paints(low, high, glyph)
            }
        }),
{
    let (low, mid, high) = by_column(corner1, corner2, corner3);
    let run = high.col - low.col;
    let rise = high.row - low.row;
    let k = mid.col - low.col;
    let climb = mid.row - low.row;
    assert(climb * run == rise * k) by (nonlinear_arith)
        requires
            collinear(corner1, corner2, corner3),
            (low, mid, high) == by_column(corner1, corner2, corner3),
            run == high.col - low.col,
            rise == high.row - low.row,
            k == mid.col - low.col,
            climb == mid.row - low.row,
    ;
    if low.row == mid.row && low.row == high.row {
    } else if low.col == mid.col && low.col == high.col {
    } else if low.col == mid.col {
        assert(climb * run == 0) by (nonlinear_arith)
            requires
                climb * run == rise * k,
                k == 0,
        ;
        assert(climb == 0) by (nonlinear_arith)
            requires
                climb * run == 0,
                run > 0,
        ;
        assert(low == mid);
    } else if mid.col == high.col {
        assert((climb - rise) * run == 0) by (nonlinear_arith)
            requires
                climb * run == rise * k,
                k == run,
        ;
        assert(climb == rise) by (nonlinear_arith)
            requires
                (climb - rise) * run == 0,
                run > 0,
        ;
        assert(mid == high);
    } else {
        if rise >= 0 {
            assert(k * rise == run * climb) by (nonlinear_arith)
                requires
                    climb * run == rise * k,
            ;
            lemma_div_multiples_vanish(climb, run);
        } else {
            assert(k * (-rise) == run * (-climb)) by (nonlinear_arith)
                requires
                    climb * run == rise * k,
            ;
            lemma_div_multiples_vanish(-climb, run);
        }
        assert(row_offset(rise, run, k) == climb);
    }
}

/// Every write of `paints` is in `glyph`.
pub open spec fn all_in_glyph(paints: Seq<Paint>, glyph: char) -> bool {
    forall|i: int| 0 <= i < paints.len() ==> (#[trigger] paints[i]).glyph == glyph
}

/// The first `n` columns of a sloped line are in the line's glyph.
proof fn lemma_line_columns_glyph(start: Coordinate, rise: int, run: int, glyph: char, n: nat)
    ensures
        all_in_glyph(line_columns(start, rise, run, glyph, n), glyph),
    decreases n,
{
    if n > 0 {
        lemma_line_columns_glyph(start, rise, run, glyph, (n - 1) as nat);
    }
}

/// The first `n` columns of a region are in the region's glyph.
proof fn lemma_region_columns_glyph(
    top_left: Coordinate,
    top_right: Coordinate,
    bottom_left: Coordinate,
    bottom_right: Coordinate,
    glyph: char,
    n: nat,
)
    ensures
        all_in_glyph(
            region_columns(top_left, top_right, bottom_left, bottom_right, glyph, n),
            glyph,
        ),
    decreases n,
{
    if n > 0 {
        lemma_region_columns_glyph(
            top_left,
            top_right,
            bottom_left,
            bottom_right,
            glyph,
            (n - 1) as nat,
        );
    }
}

/// A line is drawn in one character: every cell [`draw_line`] writes, the
/// cells in which the line changes rows included, gets the character asked
/// for.
pub proof fn law_line_is_in_its_glyph(from: Coordinate, to: Coordinate, glyph: char)
    ensures
        all_in_glyph(line_paints(from, to, glyph), glyph),
{
    if from.col != to.col {
        let start = if from.col < to.col {
            from
        } else {
            to
        };
        let end = if from.col < to.col {
            to
        } else {
            from
        };
        lemma_line_columns_glyph(
            start,
            end.row - start.row,
            end.col - start.col,
            glyph,
            (end.col - start.col + 1) as nat,
        );
    }
}

/// A region is filled in one character: every cell a successful
/// [`fill_region_between_lines`] writes gets the character asked for.
pub proof fn law_region_is_in_its_glyph(
    top_start: Coordinate,
    top_end: Coordinate,
    bottom_start: Coordinate,
    bottom_end: Coordinate,
    glyph: char,
)
    ensures
        all_in_glyph(region_paints(top_start, top_end, bottom_start, bottom_end, glyph), glyph),
{
    let top_left = leftmost(top_start, top_end);
    let top_right = rightmost(top_start, top_end);
    lemma_region_columns_glyph(
        top_left,
        top_right,
        leftmost(bottom_start, bottom_end),
        rightmost(bottom_start, bottom_end),
        glyph,
        (top_right.col - top_left.col + 1) as nat,
    );
}

/// A triangle is filled in one character: every cell [`fill_triangle`]
/// writes gets the character asked for, also where the triangle is flat and
/// drawn as a line.
pub proof fn law_triangle_is_in_its_glyph(
    corner1: Coordinate,
    corner2: Coordinate,
    corner3: Coordinate,
    glyph: char,
)
    ensures
        all_in_glyph(triangle_paints(corner1, corner2, corner3, glyph), glyph),
{
    let (low, mid, high) = by_column(corner1, corner2, corner3);
    let top = upper_row(upper_row(low.row as int, mid.row as int), high.row as int);
    let bottom = lower_row(lower_row(low.row as int, mid.row as int), high.row as int);
    let cut = long_edge_point(low, mid, high);
    law_line_is_in_its_glyph(low, high, glyph);
    law_line_is_in_its_glyph(
        Coordinate { row: top as i32, col: low.col },
        Coordinate { row: bottom as i32, col: low.col },
        glyph,
    );
    law_region_is_in_its_glyph(low, high, mid, high, glyph);
    law_region_is_in_its_glyph(mid, high, low, high, glyph);
    law_region_is_in_its_glyph(low, mid, low, high, glyph);
    law_region_is_in_its_glyph(low, high, low, mid, glyph);
    law_region_is_in_its_glyph(low, cut, low, mid, glyph);
    law_region_is_in_its_glyph(cut, high, mid, high, glyph);
    law_region_is_in_its_glyph(low, mid, low, cut, glyph);
    law_region_is_in_its_glyph(mid, high, cut, high, glyph);
}

} // verus!
