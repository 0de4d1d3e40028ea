//! Ways through a maze, and the flood that finds out whether there is one.
//!
//! A way is a walk from cell to cell, each step to a neighbour above,
//! below, left or right, inside the grid and through no wall. The flood
//! spreads from a cell to every cell it can step to and so settles whether
//! a way leads from one cell to another.

use std::collections::VecDeque;
use vstd::prelude::*;
use vstd::arithmetic::div_mod::lemma_fundamental_div_mod_converse;
use vstd::set_lib::{lemma_int_range, lemma_set_subset_finite, set_int_range};
use crate::maze::cell_set::CellSet;
use crate::maze::generation::{MazeCoordinate, MazeWall};
use crate::maze::wall_set::WallSet;

verus! {

/// The cell lies in a grid of `rows` rows and `cols` columns.
pub open spec fn in_grid(cell: MazeCoordinate, rows: int, cols: int) -> bool {
    0 <= cell.row < rows && 0 <= cell.col < cols
}

/// The cells of a grid.
pub open spec fn grid_cells(rows: int, cols: int) -> Set<MazeCoordinate> {
    Set::new(|cell: MazeCoordinate| in_grid(cell, rows, cols))
}

/// The two cells are neighbours: one row apart in one column, or one column
/// apart in one row.
pub open spec fn adjacent(a: MazeCoordinate, b: MazeCoordinate) -> bool {
    ||| (a.row == b.row && (a.col == b.col + 1 || b.col == a.col + 1))
    ||| (a.col == b.col && (a.row == b.row + 1 || b.row == a.row + 1))
}

/// One can step from `from` to `to`: both are cells of the grid, they are
/// neighbours, and no wall stands between them.
pub open spec fn can_step(
    walls: Set<MazeWall>,
    rows: int,
    cols: int,
    from: MazeCoordinate,
    to: MazeCoordinate,
) -> bool {
    &&& in_grid(from, rows, cols)
    &&& in_grid(to, rows, cols)
    &&& adjacent(from, to)
    &&& !walls.contains(MazeWall { coord1: from, coord2: to }.ordered())
}

/// `way` is a walk through the maze: it begins in a cell of the grid and
/// goes on by steps.
pub open spec fn is_way(walls: Set<MazeWall>, rows: int, cols: int, way: Seq<MazeCoordinate>) -> bool {
    &&& way.len() > 0
    &&& in_grid(way[0], rows, cols)
    &&& forall|i: int|
        0 <= i < way.len() - 1 ==> can_step(walls, rows, cols, #[trigger] way[i], way[i + 1])
}

/// A way leads from `from` to `to`.
pub open spec fn connected(
    walls: Set<MazeWall>,
    rows: int,
    cols: int,
    from: MazeCoordinate,
    to: MazeCoordinate,
) -> bool {
    exists|way: Seq<MazeCoordinate>|
        #[trigger] is_way(walls, rows, cols, way) && way.first() == from && way.last() == to
}

/// Only cells of the grid are connected.
pub proof fn lemma_ways_stay_in_the_grid(
    walls: Set<MazeWall>,
    rows: int,
    cols: int,
    from: MazeCoordinate,
    to: MazeCoordinate,
)
    ensures
        connected(walls, rows, cols, from, to) ==> in_grid(from, rows, cols) && in_grid(
            to,
            rows,
            cols,
        ),
{
    if connected(walls, rows, cols, from, to) {
        let way = choose|way: Seq<MazeCoordinate>|
            #[trigger] is_way(walls, rows, cols, way) && way.first() == from && way.last() == to;
        if way.len() > 1 {
            // the last step of the way leads into the grid
            assert(can_step(walls, rows, cols, way[way.len() - 2], way[way.len() - 2 + 1]));
        }
    }
}

/// Every cell of the grid is connected to itself.
pub proof fn lemma_connected_to_itself(
    walls: Set<MazeWall>,
    rows: int,
    cols: int,
    cell: MazeCoordinate,
)
    requires
        in_grid(cell, rows, cols),
    ensures
        connected(walls, rows, cols, cell, cell),
{
    let way = seq![cell];
    assert(is_way(walls, rows, cols, way));
    assert(way.first() == cell && way.last() == cell);
}

/// A way can be taken one step further.
pub proof fn lemma_one_step_further(
    walls: Set<MazeWall>,
    rows: int,
    cols: int,
    from: MazeCoordinate,
    by: MazeCoordinate,
    to: MazeCoordinate,
)
    requires
        connected(walls, rows, cols, from, by),
        can_step(walls, rows, cols, by, to),
    ensures
        connected(walls, rows, cols, from, to),
{
    let way = choose|way: Seq<MazeCoordinate>|
        #[trigger] is_way(walls, rows, cols, way) && way.first() == from && way.last() == by;
    let longer = way.push(to);
    assert forall|i: int| 0 <= i < longer.len() - 1 implies can_step(
        walls,
        rows,
        cols,
        #[trigger] longer[i],
        longer[i + 1],
    ) by {
        if i < way.len() - 1 {
            assert(longer[i] == way[i] && longer[i + 1] == way[i + 1]);
        }
    }
    assert(is_way(walls, rows, cols, longer));
    assert(longer.first() == from && longer.last() == to);
}

/// In a grid without walls a way leads from every cell to every cell.
pub proof fn lemma_open_grid_is_connected(
    rows: int,
    cols: int,
    from: MazeCoordinate,
    to: MazeCoordinate,
)
    requires
        in_grid(from, rows, cols),
        in_grid(to, rows, cols),
    ensures
        connected(Set::<MazeWall>::empty(), rows, cols, from, to),
    decreases
            (if to.row >= from.row {
                to.row - from.row
            } else {
                from.row - to.row
            }) + (if to.col >= from.col {
                to.col - from.col
            } else {
                from.col - to.col
            }),
{
    let walls = Set::<MazeWall>::empty();
    if from == to {
        lemma_connected_to_itself(walls, rows, cols, from);
    } else {
        let before = if to.row > from.row {
            MazeCoordinate { row: (to.row - 1) as i32, col: to.col }
        } else if to.row < from.row {
            MazeCoordinate { row: (to.row + 1) as i32, col: to.col }
        } else if to.col > from.col {
            MazeCoordinate { row: to.row, col: (to.col - 1) as i32 }
        } else {
            MazeCoordinate { row: to.row, col: (to.col + 1) as i32 }
        };
        lemma_open_grid_is_connected(rows, cols, from, before);
        lemma_one_step_further(walls, rows, cols, from, before, to);
    }
}

/// A grid has finitely many cells.
pub proof fn lemma_grid_is_finite(rows: int, cols: int)
    requires
        0 < rows,
        0 < cols,
    ensures
        grid_cells(rows, cols).finite(),
{
    assert(0 <= rows * cols) by (nonlinear_arith)
        requires
            0 < rows,
            0 < cols,
    ;
    let numbers = set_int_range(0, rows * cols);
    lemma_int_range(0, rows * cols);
    let cell_of = |i: int| MazeCoordinate { row: (i / cols) as i32, col: (i % cols) as i32 };
    numbers.lemma_map_finite(cell_of);
    assert forall|cell: MazeCoordinate| grid_cells(rows, cols).contains(cell) implies numbers.map(
        cell_of,
    ).contains(cell) by {
        let i = cell.row * cols + cell.col;
        assert(0 <= i < rows * cols) by (nonlinear_arith)
            requires
                0 <= cell.row < rows,
                0 <= cell.col < cols,
                i == cell.row * cols + cell.col,
        ;
        lemma_fundamental_div_mod_converse(i, cols, cell.row as int, cell.col as int);
        assert(numbers.contains(i));
        assert(cell_of(i) == cell);
    }
    assert(grid_cells(rows, cols).subset_of(numbers.map(cell_of)));
    lemma_set_subset_finite(numbers.map(cell_of), grid_cells(rows, cols));
}

/// How many cells of the grid the flood has not reached.
pub open spec fn dry_cells(rows: int, cols: int, flooded: Set<MazeCoordinate>) -> nat {
    grid_cells(rows, cols).difference(flooded).len()
}

/// The flood is done with the cell: it is not the cell looked for, and the
/// flood has reached every cell one can step to from it.
pub open spec fn settled(
    walls: Set<MazeWall>,
    rows: int,
    cols: int,
    end: MazeCoordinate,
    flooded: Set<MazeCoordinate>,
    cell: MazeCoordinate,
) -> bool {
    &&& cell != end
    &&& forall|next: MazeCoordinate| #[trigger]
        can_step(walls, rows, cols, cell, next) ==> flooded.contains(next)
}

/// What holds of a flood under way that started in `start` and is out for
/// `end`, while the cell `open` is being looked at: every flooded cell can
/// be reached from `start`, every cell in the queue is flooded, and the
/// flood is done with every flooded cell that is neither in the queue nor
/// `open`.
pub open spec fn flood_under_way(
    walls: Set<MazeWall>,
    rows: int,
    cols: int,
    start: MazeCoordinate,
    end: MazeCoordinate,
    flooded: Set<MazeCoordinate>,
    queue: Seq<MazeCoordinate>,
    open: Option<MazeCoordinate>,
) -> bool {
    &&& flooded.contains(start)
    &&& forall|cell: MazeCoordinate| #[trigger]
        flooded.contains(cell) ==> in_grid(cell, rows, cols) && connected(
            walls,
            rows,
            cols,
            start,
            cell,
        )
    &&& forall|i: int| 0 <= i < queue.len() ==> flooded.contains(#[trigger] queue[i])
    &&& forall|cell: MazeCoordinate| #[trigger]
        flooded.contains(cell) && !queue.contains(cell) && open != Some(cell) ==> settled(
            walls,
            rows,
            cols,
            end,
            flooded,
            cell,
        )
}

/// Once the flood is done with every cell it has reached, no way leads out
/// of the flooded cells, and the cell it was out for is not among them.
pub proof fn lemma_flood_ran_dry(
    walls: Set<MazeWall>,
    rows: int,
    cols: int,
    start: MazeCoordinate,
    end: MazeCoordinate,
    flooded: Set<MazeCoordinate>,
)
    requires
        flood_under_way(walls, rows, cols, start, end, flooded, Seq::empty(), None),
    ensures
        !connected(walls, rows, cols, start, end),
{
    if connected(walls, rows, cols, start, end) {
        let way = choose|way: Seq<MazeCoordinate>|
            #[trigger] is_way(walls, rows, cols, way) && way.first() == start && way.last() == end;
        lemma_way_stays_flooded(walls, rows, cols, start, end, flooded, way, way.len() - 1);
        assert(settled(walls, rows, cols, end, flooded, end));
    }
}

/// A way from the start of a flood that has run dry never leaves the
/// flooded cells.
proof fn lemma_way_stays_flooded(
    walls: Set<MazeWall>,
    rows: int,
    cols: int,
    start: MazeCoordinate,
    end: MazeCoordinate,
    flooded: Set<MazeCoordinate>,
    way: Seq<MazeCoordinate>,
    upto: int,
)
    requires
        flood_under_way(walls, rows, cols, start, end, flooded, Seq::empty(), None),
        is_way(walls, rows, cols, way),
        way.first() == start,
        0 <= upto < way.len(),
    ensures
        flooded.contains(way[upto]),
    decreases upto,
{
    if upto > 0 {
        lemma_way_stays_flooded(walls, rows, cols, start, end, flooded, way, upto - 1);
        let before = way[upto - 1];
        assert(!Seq::<MazeCoordinate>::empty().contains(before));
        assert(settled(walls, rows, cols, end, flooded, before));
        assert(can_step(walls, rows, cols, before, way[upto - 1 + 1]));
    }
}

/// Lets the flood through from `from` to its neighbour `row_change` rows
/// down and `col_change` columns right, where one can step there and the
/// flood has not been there.
fn flood_into(
    wall_set: &WallSet,
    rows: i32,
    cols: i32,
    queue: &mut VecDeque<MazeCoordinate>,
    flooded: &mut CellSet,
    from: MazeCoordinate,
    row_change: i32,
    col_change: i32,
    Ghost(start): Ghost<MazeCoordinate>,
    Ghost(end): Ghost<MazeCoordinate>,
)
    requires
        wall_set.wf(),
        0 < rows,
        0 < cols,
        in_grid(from, rows as int, cols as int),
        (row_change == 0 && (col_change == 1 || col_change == -1)) || (col_change == 0 && (
        row_change == 1 || row_change == -1)),
        flood_under_way(
            wall_set@,
            rows as int,
            cols as int,
            start,
            end,
            old(flooded)@,
            old(queue)@,
            Some(from),
        ),
        old(flooded)@.contains(from),
    ensures
        flood_under_way(
            wall_set@,
            rows as int,
            cols as int,
            start,
            end,
            final(flooded)@,
            final(queue)@,
            Some(from),
        ),
        old(flooded)@.subset_of(final(flooded)@),
        can_step(
            wall_set@,
            rows as int,
            cols as int,
            from,
            MazeCoordinate { row: (from.row + row_change) as i32, col: (from.col + col_change) as i32 },
        ) ==> final(flooded)@.contains(
            MazeCoordinate { row: (from.row + row_change) as i32, col: (from.col + col_change) as i32 },
        ),
        (final(flooded)@ == old(flooded)@ && final(queue)@ == old(queue)@) || dry_cells(
            rows as int,
            cols as int,
            final(flooded)@,
        ) < dry_cells(rows as int, cols as int, old(flooded)@),
{
    let new_coordinate = from.moved(row_change, col_change);
    // Nothing to do for a cell outside the grid or one the flood has been to
    if !in_maze(&new_coordinate, rows, cols) || flooded.contains(&new_coordinate) {
        return ;
    }
    let intended_move = MazeWall { coord1: from, coord2: new_coordinate };
    // A wall in the way keeps the flood out
    if wall_set.contains(&intended_move) {
        return ;
    }
    // The flood gets through: the cell is flooded and waits for its turn
    queue.push_front(new_coordinate);
    flooded.insert(new_coordinate);
    proof {
        let walls = wall_set@;
        let r = rows as int;
        let c = cols as int;
        lemma_one_step_further(walls, r, c, start, from, new_coordinate);
        lemma_grid_is_finite(r, c);
        let dry_before = grid_cells(r, c).difference(old(flooded)@);
        let dry_after = grid_cells(r, c).difference(flooded@);
        assert(dry_after =~= dry_before.remove(new_coordinate));
        assert(dry_before.contains(new_coordinate));
        assert forall|i: int| 0 <= i < queue@.len() implies flooded@.contains(
            #[trigger] queue@[i],
        ) by {
            if i > 0 {
                assert(queue@[i] == old(queue)@[i - 1]);
            }
        }
        assert forall|cell: MazeCoordinate| #[trigger]
            flooded@.contains(cell) && !queue@.contains(cell) && Some(from) != Some(
                cell,
            ) implies settled(walls, r, c, end, flooded@, cell) by {
            assert(queue@[0] == new_coordinate);
            assert(cell != new_coordinate);
            if old(queue)@.contains(cell) {
                let i = choose|i: int| 0 <= i < old(queue)@.len() && old(queue)@[i] == cell;
                assert(queue@[i + 1] == cell);
            }
            assert(settled(walls, r, c, end, old(flooded)@, cell));
        }
    }
}

/// Whether a cell lies in a maze of `rows` rows and `cols` columns.
pub fn in_maze(point: &MazeCoordinate, rows: i32, cols: i32) -> (inside: bool)
    ensures
        inside == in_grid(*point, rows as int, cols as int),
{
    0 <= point.row && point.row < rows && 0 <= point.col && point.col < cols
}

/// Floods the maze from `start` and says whether the flood gets to `end`:
/// whether a way leads from the one to the other. No way leads from or to a
/// cell outside the grid.
pub fn flood_reaches(
    wall_set: &WallSet,
    rows: i32,
    cols: i32,
    start: MazeCoordinate,
    end: MazeCoordinate,
) -> (reached: bool)
    requires
        wall_set.wf(),
    ensures
        reached == connected(wall_set@, rows as int, cols as int, start, end),
{
    if !in_maze(&start, rows, cols) || !in_maze(&end, rows, cols) {
        proof {
            lemma_ways_stay_in_the_grid(wall_set@, rows as int, cols as int, start, end);
        }
        return false;
    }
    let mut move_space_queue: VecDeque<MazeCoordinate> = VecDeque::new();
    let mut flooded_cells = CellSet::new();
    move_space_queue.push_front(start);
    flooded_cells.insert(start);
    proof {
        lemma_connected_to_itself(wall_set@, rows as int, cols as int, start);
        assert(move_space_queue@[0] == start);
        assert forall|cell: MazeCoordinate| #[trigger]
            flooded_cells@.contains(cell) && !move_space_queue@.contains(cell) implies false by {
            assert(cell == start);
        }
    }
    loop
        invariant
            wall_set.wf(),
            0 < rows,
            0 < cols,
            in_grid(start, rows as int, cols as int),
            in_grid(end, rows as int, cols as int),
            flood_under_way(
                wall_set@,
                rows as int,
                cols as int,
                start,
                end,
                flooded_cells@,
                move_space_queue@,
                None,
            ),
        decreases dry_cells(rows as int, cols as int, flooded_cells@), move_space_queue@.len(),
    {
        let ghost queue_before = move_space_queue@;
        let coordinate = match move_space_queue.pop_back() {
            Some(coordinate) => coordinate,
            None => {
                proof {
                    assert(move_space_queue@ =~= Seq::<MazeCoordinate>::empty());
                    lemma_flood_ran_dry(
                        wall_set@,
                        rows as int,
                        cols as int,
                        start,
                        end,
                        flooded_cells@,
                    );
                }
                return false;
            },
        };
        assert(flooded_cells@.contains(queue_before[queue_before.len() - 1]));
        // The flood has got to the cell it was out for
        if coordinate == end {
            return true;
        }
        proof {
            assert forall|cell: MazeCoordinate| #[trigger]
                flooded_cells@.contains(cell) && !move_space_queue@.contains(cell) && Some(
                    coordinate,
                ) != Some(cell) implies settled(
                wall_set@,
                rows as int,
                cols as int,
                end,
                flooded_cells@,
                cell,
            ) by {
                if queue_before.contains(cell) {
                    let i = choose|i: int| 0 <= i < queue_before.len() && queue_before[i] == cell;
                    assert(move_space_queue@[i] == cell);
                }
            }
        }
        // Try the four neighbours
        flood_into(
            wall_set,
            rows,
            cols,
            &mut move_space_queue,
            &mut flooded_cells,
            coordinate,
            -1,
            0,
            Ghost(start),
            Ghost(end),
        );
        flood_into(
            wall_set,
            rows,
            cols,
            &mut move_space_queue,
            &mut flooded_cells,
            coordinate,
            0,
            -1,
            Ghost(start),
            Ghost(end),
        );
        flood_into(
            wall_set,
            rows,
            cols,
            &mut move_space_queue,
            &mut flooded_cells,
            coordinate,
            0,
            1,
            Ghost(start),
            Ghost(end),
        );
        flood_into(
            wall_set,
            rows,
            cols,
            &mut move_space_queue,
            &mut flooded_cells,
            coordinate,
            1,
            0,
            Ghost(start),
            Ghost(end),
        );
        proof {
            assert(settled(
                wall_set@,
                rows as int,
                cols as int,
                end,
                flooded_cells@,
                coordinate,
            )) by {
                assert forall|next: MazeCoordinate| #[trigger]
                    can_step(
                        wall_set@,
                        rows as int,
                        cols as int,
                        coordinate,
                        next,
                    ) implies flooded_cells@.contains(next) by {
                    let up = MazeCoordinate { row: (coordinate.row - 1) as i32, col: coordinate.col };
                    let left = MazeCoordinate { row: coordinate.row, col: (coordinate.col - 1) as i32 };
                    let right = MazeCoordinate {
                        row: coordinate.row,
                        col: (coordinate.col + 1) as i32,
                    };
                    let down = MazeCoordinate {
                        row: (coordinate.row + 1) as i32,
                        col: coordinate.col,
                    };
                    assert(next == up || next == left || next == right || next == down);
                }
            }
        }
    }
}

} // verus!
