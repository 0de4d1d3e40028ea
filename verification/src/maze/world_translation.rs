//! From the maze to the world: a pillar at every corner of every cell, and
//! a wall between two pillars wherever the maze has one.
//!
//! A cell is four units wide and four units deep. The pillar at the
//! top-left corner of the cell in row `r` and column `c` stands at
//! `x = 4 * c`, `y = 4 * r`.

use vstd::prelude::*;
use crate::maze::display::{stands, wall_between};
use crate::maze::generation::Maze;
use crate::world::pillar::{Pillar, Wall};

verus! {

/// The side of a cell in units of the world.
pub const CELL_SIZE: i64 = 4;

/// `pillars` has a row of pillars for every row of corners of the maze and
/// in each row a pillar for every corner.
pub open spec fn pillars_fit(maze: &Maze, pillars: &Vec<Vec<Pillar>>) -> bool {
    &&& pillars.len() == maze.rows() + 1
    &&& forall|row: int| 0 <= row <= maze.rows() ==> (#[trigger] pillars[row]).len() == maze.cols() + 1
}

/// `pillars` are the pillars of the maze: they fit it, and each stands at
/// the corner it is for.
pub open spec fn are_pillars_of(maze: &Maze, pillars: &Vec<Vec<Pillar>>) -> bool {
    &&& pillars_fit(maze, pillars)
    &&& forall|row: int, col: int|
        0 <= row <= maze.rows() && 0 <= col <= maze.cols() ==> {
            &&& (#[trigger] pillars[row][col]).x_pos() == CELL_SIZE * col
            &&& pillars[row][col].y_pos() == CELL_SIZE * row
        }
}

/// The wall from the pillar at corner (`row1`, `col1`) to the pillar at
/// corner (`row2`, `col2`).
pub open spec fn wall_at<'pillar>(
    pillars: &'pillar Vec<Vec<Pillar>>,
    row1: int,
    col1: int,
    row2: int,
    col2: int,
) -> Wall<'pillar, 'pillar> {
    Wall::spanning(&pillars[row1][col1], &pillars[row2][col2])
}

/// The walls along the top and the bottom of the maze up to column `upto`:
/// for every column the piece of the top edge, then the piece of the bottom
/// edge.
pub open spec fn top_and_bottom_walls<'pillar>(
    maze: &Maze,
    pillars: &'pillar Vec<Vec<Pillar>>,
    upto: int,
) -> Seq<Wall<'pillar, 'pillar>>
    decreases upto,
{
    if upto <= 0 {
        Seq::empty()
    } else {
        top_and_bottom_walls(maze, pillars, upto - 1) + seq![
            wall_at(pillars, 0, upto - 1, 0, upto),
            wall_at(pillars, maze.rows() as int, upto - 1, maze.rows() as int, upto),
        ]
    }
}

/// The walls along the left and the right of the maze up to row `upto`: for
/// every row the piece of the left edge, then the piece of the right edge.
pub open spec fn side_walls<'pillar>(
    maze: &Maze,
    pillars: &'pillar Vec<Vec<Pillar>>,
    upto: int,
) -> Seq<Wall<'pillar, 'pillar>>
    decreases upto,
{
    if upto <= 0 {
        Seq::empty()
    } else {
        side_walls(maze, pillars, upto - 1) + seq![
            wall_at(pillars, upto - 1, 0, upto, 0),
            wall_at(pillars, upto - 1, maze.cols() as int, upto, maze.cols() as int),
        ]
    }
}

/// The walls of the maze at one cell: the wall on its right where one
/// separates it from the next cell of its row, then the wall below it where
/// one separates it from the cell below.
pub open spec fn cell_walls<'pillar>(
    maze: &Maze,
    pillars: &'pillar Vec<Vec<Pillar>>,
    row: int,
    col: int,
) -> Seq<Wall<'pillar, 'pillar>> {
    (if stands(maze, row, col, row, col + 1) {
        seq![wall_at(pillars, row, col + 1, row + 1, col + 1)]
    } else {
        Seq::empty()
    }) + (if stands(maze, row, col, row + 1, col) {
        seq![wall_at(pillars, row + 1, col, row + 1, col + 1)]
    } else {
        Seq::empty()
    })
}

/// The walls of the maze at the cells of `row` up to column `upto`.
pub open spec fn row_walls<'pillar>(
    maze: &Maze,
    pillars: &'pillar Vec<Vec<Pillar>>,
    row: int,
    upto: int,
) -> Seq<Wall<'pillar, 'pillar>>
    decreases upto,
{
    if upto <= 0 {
        Seq::empty()
    } else {
        row_walls(maze, pillars, row, upto - 1) + cell_walls(maze, pillars, row, upto - 1)
    }
}

/// The walls of the maze at the cells of the rows up to `upto`.
pub open spec fn inner_walls<'pillar>(
    maze: &Maze,
    pillars: &'pillar Vec<Vec<Pillar>>,
    upto: int,
) -> Seq<Wall<'pillar, 'pillar>>
    decreases upto,
{
    if upto <= 0 {
        Seq::empty()
    } else {
        inner_walls(maze, pillars, upto - 1) + row_walls(
            maze,
            pillars,
            upto - 1,
            maze.cols() as int,
        )
    }
}

/// All the walls of the world of a maze: the edge of the maze, top and
/// bottom first and then the sides, and after it the walls inside, row by
/// row and cell by cell.
pub open spec fn world_walls<'pillar>(maze: &Maze, pillars: &'pillar Vec<Vec<Pillar>>) -> Seq<
    Wall<'pillar, 'pillar>,
> {
    top_and_bottom_walls(maze, pillars, maze.cols() as int) + side_walls(
        maze,
        pillars,
        maze.rows() as int,
    ) + inner_walls(maze, pillars, maze.rows() as int)
}

/// The pillars of a maze, row of corners by row of corners.
pub fn create_pillars_for_maze(maze: &Maze) -> (pillar_vec: Vec<Vec<Pillar>>)
    requires
        maze.wf(),
    ensures
        are_pillars_of(maze, &pillar_vec),
{
    let rows = maze.rows();
    let cols = maze.cols();
    let mut pillar_vec: Vec<Vec<Pillar>> = Vec::new();
    let mut row: i64 = 0;
    while row <= rows as i64
        invariant
            0 <= row <= rows + 1,
            0 < rows,
            0 < cols,
            pillar_vec.len() == row,
            forall|r: int| 0 <= r < row ==> (#[trigger] pillar_vec[r]).len() == cols + 1,
            forall|r: int, c: int|
                0 <= r < row && 0 <= c <= cols ==> {
                    &&& (#[trigger] pillar_vec[r][c]).x_pos() == CELL_SIZE * c
                    &&& pillar_vec[r][c].y_pos() == CELL_SIZE * r
                },
        decreases rows + 1 - row,
    {
        let mut row_vec: Vec<Pillar> = Vec::new();
        let mut col: i64 = 0;
        while col <= cols as i64
            invariant
                0 <= col <= cols + 1,
                0 <= row <= rows,
                row_vec.len() == col,
                forall|c: int|
                    0 <= c < col ==> {
                        &&& (#[trigger] row_vec[c]).x_pos() == CELL_SIZE * c
                        &&& row_vec[c].y_pos() == CELL_SIZE * row
                    },
            decreases cols + 1 - col,
        {
            row_vec.push(Pillar::at(col * CELL_SIZE, row * CELL_SIZE));
            col = col + 1;
        }
        pillar_vec.push(row_vec);
        row = row + 1;
    }
    return pillar_vec;
}

/// The walls of the world of a maze, each between two of `pillars`: see
/// [`world_walls`] for which and in what order.
pub fn create_walls_for_maze<'pillar>(maze: &Maze, pillars: &'pillar Vec<Vec<Pillar>>) -> (walls:
    Vec<Wall<'pillar, 'pillar>>)
    requires
        maze.wf(),
        pillars_fit(maze, pillars),
    ensures
        walls@ == world_walls(maze, pillars),
{
    let rows = maze.rows();
    let cols = maze.cols();
    let mut walls: Vec<Wall<'pillar, 'pillar>> = Vec::new();
    // The edge of the maze comes first: its top and bottom
    for col in 0..cols
        invariant
            maze.wf(),
            pillars_fit(maze, pillars),
            rows == maze.rows(),
            cols == maze.cols(),
            walls@ == top_and_bottom_walls(maze, pillars, col as int),
    {
        walls.push(Wall::from_pillars(&pillars[0][col as usize], &pillars[0][(col + 1) as usize]));
        walls.push(
            Wall::from_pillars(
                &pillars[rows as usize][col as usize],
                &pillars[rows as usize][(col + 1) as usize],
            ),
        );
        assert(walls@ =~= top_and_bottom_walls(maze, pillars, col + 1));
    }
    let ghost edge = walls@;

    // The left and the right side of the edge
    for row in 0..rows
        invariant
            maze.wf(),
            pillars_fit(maze, pillars),
            rows == maze.rows(),
            cols == maze.cols(),
            walls@ == edge + side_walls(maze, pillars, row as int),
    {
        walls.push(Wall::from_pillars(&pillars[row as usize][0], &pillars[(row + 1) as usize][0]));
        walls.push(
            Wall::from_pillars(
                &pillars[row as usize][cols as usize],
                &pillars[(row + 1) as usize][cols as usize],
            ),
        );
        assert(walls@ =~= edge + side_walls(maze, pillars, row + 1));
    }
    let ghost outside = walls@;

    // Then the walls inside, where the maze has them
    for row in 0..rows
        invariant
            maze.wf(),
            pillars_fit(maze, pillars),
            rows == maze.rows(),
            cols == maze.cols(),
            walls@ == outside + inner_walls(maze, pillars, row as int),
    {
        let ghost rows_before = walls@;
        for col in 0..cols
            invariant
                maze.wf(),
                pillars_fit(maze, pillars),
                rows == maze.rows(),
                cols == maze.cols(),
                0 <= row < rows,
                walls@ == rows_before + row_walls(maze, pillars, row as int, col as int),
        {
            // The wall between this cell and the next one of its row
            if wall_between(maze, row, col, row, col + 1) {
                walls.push(
                    Wall::from_pillars(
                        &pillars[row as usize][(col + 1) as usize],
                        &pillars[(row + 1) as usize][(col + 1) as usize],
                    ),
                );
            }
            // The wall between this cell and the one below it
            if wall_between(maze, row, col, row + 1, col) {
                walls.push(
                    Wall::from_pillars(
                        &pillars[(row + 1) as usize][col as usize],
                        &pillars[(row + 1) as usize][(col + 1) as usize],
                    ),
                );
            }
            assert(walls@ =~= rows_before + row_walls(maze, pillars, row as int, col + 1));
        }
        assert(walls@ =~= outside + inner_walls(maze, pillars, row + 1));
    }
    return walls;
}

} // verus!
