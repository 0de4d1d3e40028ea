//! Cells, walls and the maze made of them.
//!
//! A maze is a grid of cells with walls between neighbouring cells, a cell
//! to start from and a cell to finish in. It is made by walling in every
//! cell and then taking walls away at random until a way leads from the
//! start to the finish.

use rand::rngs::ThreadRng;
use std::hash::{Hash, Hasher};
use vstd::prelude::*;
use vstd::std_specs::cmp::PartialEqSpecImpl;
use crate::maze::flood::{
    connected, flood_reaches, in_grid, in_maze, lemma_open_grid_is_connected,
};
use crate::maze::random::{random_below, thread_random};
use crate::maze::wall_set::WallSet;

verus! {

/// A cell of the maze, by its row and its column in the grid, both counted
/// from zero.
#[derive(Eq, PartialEq, Hash, Copy, Clone, Debug, Structural)]
pub struct MazeCoordinate {
    pub row: i32,
    pub col: i32,
}

/// The Manhattan distance between two cells: how many rows plus how many
/// columns they are apart.
pub open spec fn manhattan(a: MazeCoordinate, b: MazeCoordinate) -> int {
    (if b.row >= a.row {
        b.row - a.row
    } else {
        a.row - b.row
    }) + (if b.col >= a.col {
        b.col - a.col
    } else {
        a.col - b.col
    })
}

impl MazeCoordinate {
    /// A cell drawn at random from a grid of `rows` rows and `cols`
    /// columns: its row and its column are drawn one after the other, and
    /// whatever comes out is a cell of the grid.
    pub fn random(rows: i32, cols: i32, rng: &mut ThreadRng) -> (cell: MazeCoordinate)
        requires
            rows > 0,
            cols > 0,
        ensures
            in_grid(cell, rows as int, cols as int),
    {
        let row = random_below(rng, rows);
        let col = random_below(rng, cols);
        MazeCoordinate { row, col }
    }

    /// The Manhattan distance from this cell to the other, which is never
    /// negative. It has to fit the type it is returned in.
    pub fn manhattan_to(&self, other: &MazeCoordinate) -> (distance: i32)
        requires
            manhattan(*self, *other) <= i32::MAX,
        ensures
            distance == manhattan(*self, *other),
    {
        Self::distance(self, other) as i32
    }

    /// The Manhattan distance between two cells, whatever its size.
    fn distance(from: &MazeCoordinate, to: &MazeCoordinate) -> (distance: i64)
        ensures
            distance == manhattan(*from, *to),
    {
        let rows_apart: i64 = if to.row >= from.row {
            to.row as i64 - from.row as i64
        } else {
            from.row as i64 - to.row as i64
        };
        let cols_apart: i64 = if to.col >= from.col {
            to.col as i64 - from.col as i64
        } else {
            from.col as i64 - to.col as i64
        };
        rows_apart + cols_apart
    }

    /// The cell `row_change` rows down and `col_change` columns right of
    /// this one.
    pub fn moved(&self, row_change: i32, col_change: i32) -> (cell: MazeCoordinate)
        requires
            i32::MIN <= self.row + row_change <= i32::MAX,
            i32::MIN <= self.col + col_change <= i32::MAX,
        ensures
            cell.row == self.row + row_change,
            cell.col == self.col + col_change,
    {
        MazeCoordinate { row: self.row + row_change, col: self.col + col_change }
    }
}

/// A MazeWall is a wall between two cells of the maze. It has no direction:
/// two walls with the same two cells are the same wall, whichever cell each
/// of them names first, and they compare and hash alike.
#[derive(Eq, Copy, Clone, Debug)]
pub struct MazeWall {
    pub coord1: MazeCoordinate,
    pub coord2: MazeCoordinate,
}

impl MazeWall {
    /// The wall with its two cells in order: the cell of the smaller row
    /// first, of two cells in one row the one of the smaller column.
    pub open spec fn ordered(self) -> MazeWall {
        if self.coord1.row < self.coord2.row || (self.coord1.row == self.coord2.row
            && self.coord1.col < self.coord2.col) {
            self
        } else {
            MazeWall { coord1: self.coord2, coord2: self.coord1 }
        }
    }

    /// The two walls have the same two cells.
    pub open spec fn same_wall(self, other: MazeWall) -> bool {
        (self.coord1 == other.coord1 && self.coord2 == other.coord2) || (self.coord1 == other.coord2
            && self.coord2 == other.coord1)
    }

    /// The wall with its two cells in order (see [`MazeWall::ordered`]).
    pub fn in_order(&self) -> (wall: MazeWall)
        ensures
            wall == self.ordered(),
    {
        if self.coord1.row < self.coord2.row || (self.coord1.row == self.coord2.row
            && self.coord1.col < self.coord2.col) {
            *self
        } else {
            MazeWall { coord1: self.coord2, coord2: self.coord1 }
        }
    }
}

impl PartialEq for MazeWall {
    fn eq(&self, other: &Self) -> (same: bool) {
        (self.coord1 == other.coord1 && self.coord2 == other.coord2) || (self.coord1 == other.coord2
            && self.coord2 == other.coord1)
    }
}

impl PartialEqSpecImpl for MazeWall {
    open spec fn obeys_eq_spec() -> bool {
        true
    }

    open spec fn eq_spec(&self, other: &Self) -> bool {
        self.same_wall(*other)
    }
}

/// `i32`'s `Hash::hash` of std feeds the number to the hasher. Nothing is
/// claimed of the state it leaves the hasher in.
pub assume_specification<H: Hasher>[ <i32 as Hash>::hash ](value: &i32, state: &mut H);

impl Hash for MazeWall {
    fn hash<H: Hasher>(&self, state: &mut H) {
        let wall = self.in_order();
        wall.coord1.row.hash(state);
        wall.coord1.col.hash(state);
        wall.coord2.row.hash(state);
        wall.coord2.col.hash(state);
    }
}

/// A parameter of a maze.
#[derive(Copy, Clone, Debug, PartialEq, Eq, Structural)]
pub enum MazeParam {
    Row,
    Col,
    PortalSpacing,
}

/// Why a maze could not be made.
#[derive(Copy, Clone, Debug, PartialEq, Eq, Structural)]
pub enum MazeConstructError {
    /// A parameter that has to be positive is not.
    ParameterInvalid { param: MazeParam, value: i32 },
    /// No two cells of the grid are as far apart as the start and the
    /// finish are asked to be.
    MazeTooSmallForSpacing { rows: i32, cols: i32, portal_space: i32 },
}

/// The two ends of a maze.
#[derive(Copy, Clone, Debug, PartialEq, Eq, Structural)]
pub struct MazePortals {
    pub start: MazeCoordinate,
    pub end: MazeCoordinate,
}

/// A maze: a grid of cells, the walls that stand between them, and the two
/// cells to go from and to.
pub struct Maze {
    start: MazeCoordinate,
    finish: MazeCoordinate,
    rows: i32,
    cols: i32,
    wall_edges: WallSet,
}

/// The wall separates two neighbouring cells of the grid and names the
/// upper or the left one first.
pub open spec fn is_grid_wall(wall: MazeWall, rows: int, cols: int) -> bool {
    &&& in_grid(wall.coord1, rows, cols)
    &&& in_grid(wall.coord2, rows, cols)
    &&& (wall.coord1.row == wall.coord2.row && wall.coord2.col == wall.coord1.col + 1) || (
    wall.coord1.col == wall.coord2.col && wall.coord2.row == wall.coord1.row + 1)
}

/// All the walls a grid has room for: one between any two neighbouring
/// cells.
pub open spec fn grid_walls(rows: int, cols: int) -> Set<MazeWall> {
    Set::new(|wall: MazeWall| is_grid_wall(wall, rows, cols))
}

/// The walls that stand where the walls of `walls` are put up: each of them
/// with its cells in order.
pub open spec fn standing(walls: Seq<MazeWall>) -> Set<MazeWall> {
    Set::new(
        |wall: MazeWall| exists|i: int| 0 <= i < walls.len() && (#[trigger] walls[i]).ordered() == wall,
    )
}

/// How often the two ends of a maze are drawn at random before the two
/// corners farthest apart are taken.
pub const PORTAL_DRAWS: u32 = 0xffff_ffff;

/// The error that stands in the way of a maze of `rows` rows and `cols`
/// columns with its ends `portal_space` apart, if any: the first parameter
/// that is not positive, in the order rows, columns, spacing; else a
/// spacing larger than the `rows + cols - 2` steps between opposite
/// corners.
pub open spec fn construction_error(rows: i32, cols: i32, portal_space: i32) -> Option<
    MazeConstructError,
> {
    if rows <= 0 {
        Some(MazeConstructError::ParameterInvalid { param: MazeParam::Row, value: rows })
    } else if cols <= 0 {
        Some(MazeConstructError::ParameterInvalid { param: MazeParam::Col, value: cols })
    } else if portal_space <= 0 {
        Some(
            MazeConstructError::ParameterInvalid {
                param: MazeParam::PortalSpacing,
                value: portal_space,
            },
        )
    } else if rows + cols - 2 < portal_space {
        Some(MazeConstructError::MazeTooSmallForSpacing { rows, cols, portal_space })
    } else {
        None
    }
}

impl Maze {
    /// The cell to start from.
    pub closed spec fn spec_start(&self) -> &MazeCoordinate {
        &self.start
    }

    /// The cell to finish in.
    pub closed spec fn spec_finish(&self) -> &MazeCoordinate {
        &self.finish
    }

    /// The number of rows.
    pub closed spec fn spec_rows(&self) -> i32 {
        self.rows
    }

    /// The number of columns.
    pub closed spec fn spec_cols(&self) -> i32 {
        self.cols
    }

    /// The walls that stand.
    pub closed spec fn spec_wall_edges(&self) -> &WallSet {
        &self.wall_edges
    }

    /// The maze is sound: the grid is not empty, both ends are cells of it,
    /// every wall separates two neighbouring cells of it, and a way leads
    /// from the start to the finish.
    pub open spec fn wf(&self) -> bool {
        &&& self.rows() > 0
        &&& self.cols() > 0
        &&& in_grid(*self.start(), self.rows() as int, self.cols() as int)
        &&& in_grid(*self.finish(), self.rows() as int, self.cols() as int)
        &&& self.wall_edges().wf()
        &&& self.wall_edges()@.subset_of(grid_walls(self.rows() as int, self.cols() as int))
        &&& connected(
            self.wall_edges()@,
            self.rows() as int,
            self.cols() as int,
            *self.start(),
            *self.finish(),
        )
    }

    /// Passes a parameter of a maze that is positive and names the parameter
    /// and its value in the error otherwise.
    fn assert_positive(param: MazeParam, value: i32) -> (checked: Result<(), MazeConstructError>)
        ensures
            value > 0 ==> checked is Ok,
            value <= 0 ==> checked == Err::<(), MazeConstructError>(
                MazeConstructError::ParameterInvalid { param, value },
            ),
    {
        if value <= 0 {
            return Err(MazeConstructError::ParameterInvalid { param, value });
        }
        return Ok(());
    }

    /// The walls of a maze in which nothing has been taken away yet: every
    /// cell is walled in on all sides.
    pub fn generate_initial_walls(rows: i32, cols: i32) -> (wall_set: WallSet)
        requires
            rows > 0,
            cols > 0,
        ensures
            wall_set.wf(),
            wall_set@ == grid_walls(rows as int, cols as int),
    {
        let mut wall_set = WallSet::new();
        let ghost r = rows as int;
        let ghost c = cols as int;
        for row in 0..(rows - 1)
            invariant
                rows > 0,
                cols > 0,
                r == rows,
                c == cols,
                wall_set.wf(),
                wall_set@ == Set::new(
                    |wall: MazeWall|
                        is_grid_wall(wall, r, c) && wall.coord1.col < c - 1 && wall.coord1.row
                            < row,
                ),
        {
            for col in 0..(cols - 1)
                invariant
                    rows > 0,
                    cols > 0,
                    r == rows,
                    c == cols,
                    0 <= row < rows - 1,
                    wall_set.wf(),
                    wall_set@ == Set::new(
                        |wall: MazeWall|
                            is_grid_wall(wall, r, c) && wall.coord1.col < c - 1 && (wall.coord1.row
                                < row || (wall.coord1.row == row && wall.coord1.col < col)),
                    ),
            {
                let next_row = row + 1;
                let next_col = col + 1;
                wall_set.insert(
                    MazeWall {
                        coord1: MazeCoordinate { row, col },
                        coord2: MazeCoordinate { row, col: next_col },
                    },
                );
                wall_set.insert(
                    MazeWall {
                        coord1: MazeCoordinate { row, col },
                        coord2: MazeCoordinate { row: next_row, col },
                    },
                );
                assert(wall_set@ =~= Set::new(
                    |wall: MazeWall|
                        is_grid_wall(wall, r, c) && wall.coord1.col < c - 1 && (wall.coord1.row
                            < row || (wall.coord1.row == row && wall.coord1.col < col + 1)),
                ));
            }
            assert(wall_set@ =~= Set::new(
                |wall: MazeWall|
                    is_grid_wall(wall, r, c) && wall.coord1.col < c - 1 && wall.coord1.row < row
                        + 1,
            ));
        }
        assert(wall_set@ =~= Set::new(
            |wall: MazeWall|
                is_grid_wall(wall, r, c) && ((wall.coord1.col < c - 1 && wall.coord1.row < r - 1)
                    || (wall.coord1.col == c - 1 && wall.coord1.row < 0)),
        ));

        // Last column
        for row in 0..(rows - 1)
            invariant
                rows > 0,
                cols > 0,
                r == rows,
                c == cols,
                wall_set.wf(),
                wall_set@ == Set::new(
                    |wall: MazeWall|
                        is_grid_wall(wall, r, c) && ((wall.coord1.col < c - 1 && wall.coord1.row < r
                            - 1) || (wall.coord1.col == c - 1 && wall.coord1.row < row)),
                ),
        {
            let next_row = row + 1;
            let last_col = cols - 1;
            wall_set.insert(
                MazeWall {
                    coord1: MazeCoordinate { row, col: last_col },
                    coord2: MazeCoordinate { row: next_row, col: last_col },
                },
            );
            assert(wall_set@ =~= Set::new(
                |wall: MazeWall|
                    is_grid_wall(wall, r, c) && ((wall.coord1.col < c - 1 && wall.coord1.row < r - 1)
                        || (wall.coord1.col == c - 1 && wall.coord1.row < row + 1)),
            ));
        }
        assert(wall_set@ =~= Set::new(
            |wall: MazeWall|
                is_grid_wall(wall, r, c) && (wall.coord1.row < r - 1 || (wall.coord1.row == r - 1
                    && wall.coord1.col < 0)),
        ));

        // Last row
        for col in 0..(cols - 1)
            invariant
                rows > 0,
                cols > 0,
                r == rows,
                c == cols,
                wall_set.wf(),
                wall_set@ == Set::new(
                    |wall: MazeWall|
                        is_grid_wall(wall, r, c) && (wall.coord1.row < r - 1 || (wall.coord1.row
                            == r - 1 && wall.coord1.col < col)),
                ),
        {
            let next_col = col + 1;
            let last_row = rows - 1;
            wall_set.insert(
                MazeWall {
                    coord1: MazeCoordinate { row: last_row, col },
                    coord2: MazeCoordinate { row: last_row, col: next_col },
                },
            );
            assert(wall_set@ =~= Set::new(
                |wall: MazeWall|
                    is_grid_wall(wall, r, c) && (wall.coord1.row < r - 1 || (wall.coord1.row == r
                        - 1 && wall.coord1.col < col + 1)),
            ));
        }
        assert(wall_set@ =~= grid_walls(r, c));
        return wall_set;
    }

    /// Picks the two ends of a maze, at least `portal_space` apart by
    /// Manhattan distance.
    ///
    /// The two cells are drawn at random until a pair is far enough apart.
    /// After [`PORTAL_DRAWS`] pairs that were not, the top-left and the
    /// bottom-right corner are taken: no two cells are farther apart.
    pub fn select_portal_coordinates(rows: i32, cols: i32, portal_space: i32) -> (portals:
        MazePortals)
        requires
            rows > 0,
            cols > 0,
            portal_space <= rows + cols - 2,
        ensures
            in_grid(portals.start, rows as int, cols as int),
            in_grid(portals.end, rows as int, cols as int),
            manhattan(portals.start, portals.end) >= portal_space,
    {
        let mut shared_rng_engine = thread_random();
        let mut draws_left = PORTAL_DRAWS;
        while draws_left > 0
            invariant
                rows > 0,
                cols > 0,
            decreases draws_left,
        {
            let point1 = MazeCoordinate::random(rows, cols, &mut shared_rng_engine);
            let point2 = MazeCoordinate::random(rows, cols, &mut shared_rng_engine);
            let manhattan_distance = MazeCoordinate::distance(&point1, &point2);
            if manhattan_distance >= portal_space as i64 {
                return MazePortals { start: point1, end: point2 };
            }
            draws_left = draws_left - 1;
        }
        MazePortals {
            start: MazeCoordinate { row: 0, col: 0 },
            end: MazeCoordinate { row: rows - 1, col: cols - 1 },
        }
    }

    /// Takes walls away, one at a time and at random, until a way leads
    /// from one portal to the other, and no longer: where a wall was taken
    /// away, the last one taken was in the way.
    pub fn remove_walls_for_valid_maze(
        wall_set: &mut WallSet,
        rows: i32,
        cols: i32,
        portals: &MazePortals,
    )
        requires
            old(wall_set).wf(),
            in_grid(portals.start, rows as int, cols as int),
            in_grid(portals.end, rows as int, cols as int),
        ensures
            final(wall_set).wf(),
            final(wall_set)@.subset_of(old(wall_set)@),
            connected(final(wall_set)@, rows as int, cols as int, portals.start, portals.end),
            final(wall_set)@ == old(wall_set)@ || exists|last: MazeWall|
                old(wall_set)@.contains(last) && !final(wall_set)@.contains(last) && !connected(
                    #[trigger] final(wall_set)@.insert(last),
                    rows as int,
                    cols as int,
                    portals.start,
                    portals.end,
                ),
    {
        // Flood the maze from the start. Where the flood gets to the end
        // the maze is done; where it does not, one more wall has to go.
        let mut rng = thread_random();
        let mut walls_left = wall_set.len();
        loop
            invariant
                wall_set.wf(),
                wall_set@.finite(),
                walls_left == wall_set@.len(),
                in_grid(portals.start, rows as int, cols as int),
                in_grid(portals.end, rows as int, cols as int),
                wall_set@.subset_of(old(wall_set)@),
                wall_set@ == old(wall_set)@ || exists|last: MazeWall|
                    old(wall_set)@.contains(last) && !wall_set@.contains(last) && !connected(
                        #[trigger] wall_set@.insert(last),
                        rows as int,
                        cols as int,
                        portals.start,
                        portals.end,
                    ),
            decreases walls_left,
        {
            if flood_reaches(wall_set, rows, cols, portals.start, portals.end) {
                return ;
            }
            let ghost blocked = wall_set@;
            match wall_set.pick(&mut rng) {
                Some(chosen_wall) => {
                    wall_set.remove(&chosen_wall);
                    proof {
                        assert(wall_set@.insert(chosen_wall) =~= blocked);
                    }
                },
                None => {
                    // Without a wall left there is a way between any two cells
                    proof {
                        assert(wall_set@ =~= Set::<MazeWall>::empty());
                        lemma_open_grid_is_connected(
                            rows as int,
                            cols as int,
                            portals.start,
                            portals.end,
                        );
                    }
                    return ;
                },
            }
            walls_left = wall_set.len();
        }
    }

    /// Makes a maze of `rows` rows and `cols` columns whose start and finish
    /// are at least `portal_space` apart, by Manhattan distance.
    ///
    /// All three have to be positive, and the grid has to hold two cells
    /// that far apart; [`construction_error`] says which error comes
    /// otherwise. Which cells become the ends and which walls stand is up
    /// to chance. Every maze made is sound ([`Maze::wf`]): its walls are
    /// among those the grid has room for, and a way leads from its start to
    /// its finish.
    pub fn new(rows: i32, cols: i32, portal_space: i32) -> (made: Result<Maze, MazeConstructError>)
        ensures
            made is Err <==> construction_error(rows, cols, portal_space) is Some,
            made matches Err(err) ==> construction_error(rows, cols, portal_space) == Some(err),
            made matches Ok(maze) ==> {
                &&& maze.wf()
                &&& maze.rows() == rows
                &&& maze.cols() == cols
                &&& manhattan(*maze.start(), *maze.finish()) >= portal_space
            },
    {
        match Self::assert_positive(MazeParam::Row, rows) {
            Ok(()) => {},
            Err(err) => {
                return Err(err);
            },
        }
        match Self::assert_positive(MazeParam::Col, cols) {
            Ok(()) => {},
            Err(err) => {
                return Err(err);
            },
        }
        match Self::assert_positive(MazeParam::PortalSpacing, portal_space) {
            Ok(()) => {},
            Err(err) => {
                return Err(err);
            },
        }
        if rows as i64 + cols as i64 - 2 < portal_space as i64 {
            return Err(MazeConstructError::MazeTooSmallForSpacing { rows, cols, portal_space });
        }
        let mut initial_walls = Self::generate_initial_walls(rows, cols);
        let portals = Self::select_portal_coordinates(rows, cols, portal_space);
        Self::remove_walls_for_valid_maze(&mut initial_walls, rows, cols, &portals);

        return Ok(
            Maze { start: portals.start, finish: portals.end, rows, cols, wall_edges: initial_walls },
        );
    }

    /// The maze of the given size and ends in which exactly the given walls
    /// stand, if that is a sound maze: if the grid is not empty, both ends
    /// are cells of it, every wall given separates two neighbouring cells of
    /// it, and a way leads from the start to the finish. A wall may name
    /// its cells in either order and may be given more than once.
    pub fn with_walls(
        rows: i32,
        cols: i32,
        start: MazeCoordinate,
        finish: MazeCoordinate,
        walls: &Vec<MazeWall>,
    ) -> (made: Option<Maze>)
        ensures
            made is Some <==> {
                &&& in_grid(start, rows as int, cols as int)
                &&& in_grid(finish, rows as int, cols as int)
                &&& forall|i: int|
                    0 <= i < walls.len() ==> is_grid_wall(
                        (#[trigger] walls[i]).ordered(),
                        rows as int,
                        cols as int,
                    )
                &&& connected(standing(walls@), rows as int, cols as int, start, finish)
            },
            made matches Some(maze) ==> {
                &&& maze.wf()
                &&& maze.rows() == rows
                &&& maze.cols() == cols
                &&& *maze.start() == start
                &&& *maze.finish() == finish
                &&& maze.wall_edges()@ == standing(walls@)
            },
    {
        if !in_maze(&start, rows, cols) || !in_maze(&finish, rows, cols) {
            return None;
        }
        let mut wall_edges = WallSet::new();
        let mut idx: usize = 0;
        while idx < walls.len()
            invariant
                idx <= walls.len(),
                wall_edges.wf(),
                wall_edges@ == standing(walls@.take(idx as int)),
                forall|i: int|
                    0 <= i < idx ==> is_grid_wall(
                        (#[trigger] walls[i]).ordered(),
                        rows as int,
                        cols as int,
                    ),
            decreases walls.len() - idx,
        {
            let wall = walls[idx].in_order();
            let separates = in_maze(&wall.coord1, rows, cols) && in_maze(&wall.coord2, rows, cols)
                && ((wall.coord1.row == wall.coord2.row && wall.coord2.col as i64
                == wall.coord1.col as i64 + 1) || (wall.coord1.col == wall.coord2.col
                && wall.coord2.row as i64 == wall.coord1.row as i64 + 1));
            if !separates {
                return None;
            }
            wall_edges.insert(wall);
            proof {
                let before = walls@.take(idx as int);
                let now = walls@.take(idx + 1);
                assert forall|other: MazeWall|
                    standing(now).contains(other) <==> standing(before).insert(
                        wall,
                    ).contains(other) by {
                    if standing(now).contains(other) {
                        let i = choose|i: int|
                            0 <= i < now.len() && (#[trigger] now[i]).ordered() == other;
                        if i < idx {
                            assert(before[i] == now[i]);
                        }
                    }
                    if standing(before).contains(other) {
                        let i = choose|i: int|
                            0 <= i < before.len() && (#[trigger] before[i]).ordered() == other;
                        assert(now[i] == before[i]);
                    }
                    if other == wall {
                        assert(now[idx as int].ordered() == other);
                    }
                }
                assert(wall_edges@ =~= standing(now));
            }
            idx = idx + 1;
        }
        assert(walls@.take(idx as int) =~= walls@);
        if !flood_reaches(&wall_edges, rows, cols, start, finish) {
            return None;
        }
        assert forall|wall: MazeWall| wall_edges@.contains(wall) implies grid_walls(
            rows as int,
            cols as int,
        ).contains(wall) by {
            let i = choose|i: int| 0 <= i < walls.len() && (#[trigger] walls[i]).ordered() == wall;
        }
        Some(Maze { start, finish, rows, cols, wall_edges })
    }

    /// The cell to start from.
    #[verifier::when_used_as_spec(spec_start)]
    pub fn start(&self) -> (cell: &MazeCoordinate)
        ensures
            cell == self.spec_start(),
    {
        &self.start
    }

    /// The cell to finish in.
    #[verifier::when_used_as_spec(spec_finish)]
    pub fn finish(&self) -> (cell: &MazeCoordinate)
        ensures
            cell == self.spec_finish(),
    {
        &self.finish
    }

    /// The number of rows.
    #[verifier::when_used_as_spec(spec_rows)]
    pub fn rows(&self) -> (rows: i32)
        ensures
            rows == self.spec_rows(),
    {
        self.rows
    }

    /// The number of columns.
    #[verifier::when_used_as_spec(spec_cols)]
    pub fn cols(&self) -> (cols: i32)
        ensures
            cols == self.spec_cols(),
    {
        self.cols
    }

    /// The walls that stand.
    #[verifier::when_used_as_spec(spec_wall_edges)]
    pub fn wall_edges(&self) -> (walls: &WallSet)
        ensures
            walls == self.spec_wall_edges(),
    {
        &self.wall_edges
    }
}

} // verus!
