//! The maze as text, drawn with box characters: one line per row of cells
//! between lines of walls.

use vstd::prelude::*;
use crate::maze::generation::{Maze, MazeCoordinate, MazeWall};

verus! {

// Bars
pub const BAR_HORIZ: &'static str = "─";

pub const BAR_VERT: &'static str = "│";

// Corners
pub const CORNER_TL: &'static str = "┌";

pub const CORNER_TR: &'static str = "┐";

pub const CORNER_BL: &'static str = "└";

pub const CORNER_BR: &'static str = "┘";

// Tees
pub const TEE_RIGHT: &'static str = "├";

pub const TEE_LEFT: &'static str = "┤";

pub const TEE_DOWN: &'static str = "┬";

pub const TEE_UP: &'static str = "┴";

// Quads
pub const QUAD: &'static str = "┼";

/// A wall of the maze stands between the cell at (`row1`, `col1`) and the
/// cell at (`row2`, `col2`).
pub open spec fn stands(maze: &Maze, row1: int, col1: int, row2: int, col2: int) -> bool {
    maze.wall_edges()@.contains(
        MazeWall {
            coord1: MazeCoordinate { row: row1 as i32, col: col1 as i32 },
            coord2: MazeCoordinate { row: row2 as i32, col: col2 as i32 },
        }.ordered(),
    )
}

/// The inner part of the top or bottom border up to column `upto`: for each
/// column from the second on, `divide_tee` where a wall separates it from
/// the column before and a bar where none does, then a bar.
pub open spec fn border_text(maze: &Maze, row: int, divide_tee: Seq<char>, upto: int) -> Seq<char>
    decreases upto,
{
    if upto <= 1 {
        Seq::empty()
    } else {
        border_text(maze, row, divide_tee, upto - 1) + (if stands(
            maze,
            row,
            upto - 2,
            row,
            upto - 1,
        ) {
            divide_tee
        } else {
            BAR_HORIZ@
        }) + BAR_HORIZ@
    }
}

/// The top or bottom border of the maze along the cells of `row`: the left
/// corner and a bar, the inner part, the right corner.
pub open spec fn top_or_bottom_text(
    maze: &Maze,
    row: int,
    left_corner: Seq<char>,
    right_corner: Seq<char>,
    divide_tee: Seq<char>,
) -> Seq<char> {
    left_corner + BAR_HORIZ@ + border_text(maze, row, divide_tee, maze.cols() as int)
        + right_corner
}

/// What stands for a cell: `S` for the start, `F` for the finish, a blank
/// for any other.
pub open spec fn cell_symbol(maze: &Maze, row: int, col: int) -> Seq<char> {
    if row == maze.start().row && col == maze.start().col {
        "S"@
    } else if row == maze.finish().row && col == maze.finish().col {
        "F"@
    } else {
        " "@
    }
}

/// The cells of `row` up to column `upto`: each cell's symbol, then a bar
/// where a wall separates it from the next cell, a blank where none does,
/// and a bar after the last cell of the row.
pub open spec fn content_text(maze: &Maze, row: int, upto: int) -> Seq<char>
    decreases upto,
{
    if upto <= 0 {
        Seq::empty()
    } else {
        content_text(maze, row, upto - 1) + cell_symbol(maze, row, upto - 1) + (if upto - 1
            != maze.cols() - 1 && !stands(maze, row, upto - 1, row, upto) {
            " "@
        } else {
            BAR_VERT@
        })
    }
}

/// The line of the cells of `row`: a bar, then the cells.
pub open spec fn cell_content_text(maze: &Maze, row: int) -> Seq<char> {
    BAR_VERT@ + content_text(maze, row, maze.cols() as int)
}

/// The box character where four pieces of wall may meet: `left` and `right`
/// are the pieces along the line, `above` and `below` the pieces across it.
/// A blank where fewer than two of them stand.
pub open spec fn corner_text(left: bool, right: bool, above: bool, below: bool) -> Seq<char> {
    if left && right && above && below {
        QUAD@
    } else if left && right && above {
        TEE_UP@
    } else if left && right && below {
        TEE_DOWN@
    } else if left && right {
        BAR_HORIZ@
    } else if left && above && below {
        TEE_LEFT@
    } else if left && above {
        CORNER_BR@
    } else if left && below {
        CORNER_TR@
    } else if right && above && below {
        TEE_RIGHT@
    } else if right && above {
        CORNER_BL@
    } else if right && below {
        CORNER_TL@
    } else if above && below {
        BAR_VERT@
    } else {
        " "@
    }
}

/// The line below the cells of `row` up to column `upto`: under each cell a
/// bar where a wall separates it from the cell below and a blank where none
/// does, then the box character for the four pieces of wall that may meet
/// at its lower right corner.
pub open spec fn divider_body_text(maze: &Maze, row: int, upto: int) -> Seq<char>
    decreases upto,
{
    if upto <= 0 {
        Seq::empty()
    } else {
        let col = upto - 1;
        divider_body_text(maze, row, upto - 1) + (if stands(maze, row, col, row + 1, col) {
            BAR_HORIZ@
        } else {
            " "@
        }) + corner_text(
            stands(maze, row, col, row + 1, col),
            stands(maze, row, col + 1, row + 1, col + 1),
            stands(maze, row, col, row, col + 1),
            stands(maze, row + 1, col, row + 1, col + 1),
        )
    }
}

/// The line between the cells of `row` and the cells of the row below.
pub open spec fn cell_divider_text(maze: &Maze, row: int) -> Seq<char> {
    (if stands(maze, row, 0, row + 1, 0) {
        TEE_RIGHT@
    } else {
        BAR_VERT@
    }) + divider_body_text(maze, row, maze.cols() - 1) + (if stands(
        maze,
        row,
        maze.cols() - 1,
        row + 1,
        maze.cols() - 1,
    ) {
        BAR_HORIZ@ + TEE_LEFT@
    } else {
        " "@ + BAR_VERT@
    })
}

/// The top border of the maze.
pub open spec fn top_text(maze: &Maze) -> Seq<char> {
    top_or_bottom_text(maze, 0, CORNER_TL@, CORNER_TR@, TEE_DOWN@)
}

/// The bottom border of the maze.
pub open spec fn bottom_text(maze: &Maze) -> Seq<char> {
    top_or_bottom_text(maze, maze.rows() - 1, CORNER_BL@, CORNER_BR@, TEE_UP@)
}

/// The lines of the rows up to `upto`, each begun with a line feed: for
/// every row the line of its cells and the line below them, which is the
/// bottom border for the last row.
pub open spec fn rows_text(maze: &Maze, upto: int) -> Seq<char>
    decreases upto,
{
    if upto <= 0 {
        Seq::empty()
    } else {
        rows_text(maze, upto - 1) + "\n"@ + cell_content_text(maze, upto - 1) + "\n"@ + (if upto
            - 1 == maze.rows() - 1 {
            bottom_text(maze)
        } else {
            cell_divider_text(maze, upto - 1)
        })
    }
}

/// The whole maze as text: the top border, then the rows.
pub open spec fn maze_text(maze: &Maze) -> Seq<char> {
    top_text(maze) + rows_text(maze, maze.rows() as int)
}

/// Whether a wall of the maze stands between the two cells.
pub(crate) fn wall_between(maze: &Maze, row1: i32, col1: i32, row2: i32, col2: i32) -> (found: bool)
    requires
        maze.wf(),
    ensures
        found == stands(maze, row1 as int, col1 as int, row2 as int, col2 as int),
{
    let wall_to_test = MazeWall {
        coord1: MazeCoordinate { row: row1, col: col1 },
        coord2: MazeCoordinate { row: row2, col: col2 },
    };
    maze.wall_edges().contains(&wall_to_test)
}

/// The top or bottom border of the maze along the cells of `row`.
pub fn render_maze_top_or_bottom(
    maze: &Maze,
    row: i32,
    left_corner_str: &str,
    right_corner_str: &str,
    divide_tee: &str,
) -> (maze_border: String)
    requires
        maze.wf(),
    ensures
        maze_border@ == top_or_bottom_text(
            maze,
            row as int,
            left_corner_str@,
            right_corner_str@,
            divide_tee@,
        ),
{
    let mut maze_border = String::from_str(left_corner_str);
    maze_border.append(BAR_HORIZ);
    let cols = maze.cols();
    for col in 1..cols
        invariant
            maze.wf(),
            cols == maze.cols(),
            maze_border@ == left_corner_str@ + BAR_HORIZ@ + border_text(
                maze,
                row as int,
                divide_tee@,
                col as int,
            ),
    {
        if wall_between(maze, row, col - 1, row, col) {
            maze_border.append(divide_tee);
        } else {
            maze_border.append(BAR_HORIZ);
        }
        maze_border.append(BAR_HORIZ);
        assert(maze_border@ =~= left_corner_str@ + BAR_HORIZ@ + border_text(
            maze,
            row as int,
            divide_tee@,
            col + 1,
        ));
    }
    maze_border.append(right_corner_str);
    return maze_border;
}

/// The top border of the maze.
pub fn render_maze_top(maze: &Maze) -> (line: String)
    requires
        maze.wf(),
    ensures
        line@ == top_text(maze),
{
    render_maze_top_or_bottom(maze, 0, CORNER_TL, CORNER_TR, TEE_DOWN)
}

/// The bottom border of the maze.
pub fn render_maze_bottom(maze: &Maze) -> (line: String)
    requires
        maze.wf(),
    ensures
        line@ == bottom_text(maze),
{
    render_maze_top_or_bottom(maze, maze.rows() - 1, CORNER_BL, CORNER_BR, TEE_UP)
}

/// Appends what stands for a cell.
fn draw_cell_symbol(cell_content: &mut String, maze: &Maze, coordinate: &MazeCoordinate)
    ensures
        final(cell_content)@ == old(cell_content)@ + cell_symbol(
            maze,
            coordinate.row as int,
            coordinate.col as int,
        ),
{
    if coordinate.row == maze.start().row && coordinate.col == maze.start().col {
        cell_content.append("S");
    } else if coordinate.row == maze.finish().row && coordinate.col == maze.finish().col {
        cell_content.append("F");
    } else {
        cell_content.append(" ");
    }
}

/// The line of the cells of `row`.
pub fn render_maze_cell_content(maze: &Maze, row: i32) -> (cell_content: String)
    requires
        maze.wf(),
    ensures
        cell_content@ == cell_content_text(maze, row as int),
{
    let mut cell_content = String::from_str(BAR_VERT);
    let cols = maze.cols();
    for col in 0..cols
        invariant
            maze.wf(),
            cols == maze.cols(),
            cell_content@ == BAR_VERT@ + content_text(maze, row as int, col as int),
    {
        if col != cols - 1 {
            draw_cell_symbol(&mut cell_content, maze, &MazeCoordinate { row, col });
            // Between two cells: their wall, if it stands
            if wall_between(maze, row, col, row, col + 1) {
                cell_content.append(BAR_VERT);
            } else {
                cell_content.append(" ");
            }
        } else {
            draw_cell_symbol(&mut cell_content, maze, &MazeCoordinate { row, col });
            cell_content.append(BAR_VERT);
        }
        assert(cell_content@ =~= BAR_VERT@ + content_text(maze, row as int, col + 1));
    }
    return cell_content;
}

/// The box character where four pieces of wall may meet.
fn corner_divide(
    left_vert_wall_exists: bool,
    right_vert_wall_exists: bool,
    top_horiz_wall_exists: bool,
    bottom_horiz_wall_exists: bool,
) -> (glyph: &'static str)
    ensures
        glyph@ == corner_text(
            left_vert_wall_exists,
            right_vert_wall_exists,
            top_horiz_wall_exists,
            bottom_horiz_wall_exists,
        ),
{
    match (
        left_vert_wall_exists,
        right_vert_wall_exists,
        top_horiz_wall_exists,
        bottom_horiz_wall_exists,
    ) {
        (true, true, true, true) => QUAD,
        (true, true, true, false) => TEE_UP,
        (true, true, false, true) => TEE_DOWN,
        (true, true, false, false) => BAR_HORIZ,
        (true, false, true, true) => TEE_LEFT,
        (true, false, true, false) => CORNER_BR,
        (true, false, false, true) => CORNER_TR,
        (false, true, true, true) => TEE_RIGHT,
        (false, true, true, false) => CORNER_BL,
        (false, true, false, true) => CORNER_TL,
        (false, false, true, true) => BAR_VERT,
        (true, false, false, false)
        | (false, true, false, false)
        | (false, false, true, false)
        | (false, false, false, true)
        | (false, false, false, false) => " ",
    }
}

/// The line between the cells of `initial_row` and the cells of the row
/// below.
pub fn render_maze_cell_divider(maze: &Maze, initial_row: i32) -> (divider: String)
    requires
        maze.wf(),
        initial_row < i32::MAX,
    ensures
        divider@ == cell_divider_text(maze, initial_row as int),
{
    let mut divider = String::new();
    let cols = maze.cols();
    if wall_between(maze, initial_row, 0, initial_row + 1, 0) {
        divider.append(TEE_RIGHT);
    } else {
        divider.append(BAR_VERT);
    }
    let ghost first = divider@;
    assert(first =~= if stands(maze, initial_row as int, 0, initial_row + 1, 0) {
        TEE_RIGHT@
    } else {
        BAR_VERT@
    });
    for col in 0..(cols - 1)
        invariant
            maze.wf(),
            cols == maze.cols(),
            initial_row < i32::MAX,
            divider@ == first + divider_body_text(maze, initial_row as int, col as int),
    {
        let left_vert_wall_exists = wall_between(maze, initial_row, col, initial_row + 1, col);
        let right_vert_wall_exists = wall_between(
            maze,
            initial_row,
            col + 1,
            initial_row + 1,
            col + 1,
        );
        let top_horiz_wall_exists = wall_between(maze, initial_row, col, initial_row, col + 1);
        let bottom_horiz_wall_exists = wall_between(
            maze,
            initial_row + 1,
            col,
            initial_row + 1,
            col + 1,
        );

        // The wall below the cell, if it stands
        if left_vert_wall_exists {
            divider.append(BAR_HORIZ);
        } else {
            divider.append(" ");
        }
        divider.append(
            corner_divide(
                left_vert_wall_exists,
                right_vert_wall_exists,
                top_horiz_wall_exists,
                bottom_horiz_wall_exists,
            ),
        );
        assert(divider@ =~= first + divider_body_text(maze, initial_row as int, col + 1));
    }
    if wall_between(maze, initial_row, cols - 1, initial_row + 1, cols - 1) {
        divider.append(BAR_HORIZ);
        divider.append(TEE_LEFT);
    } else {
        divider.append(" ");
        divider.append(BAR_VERT);
    }
    assert(divider@ =~= cell_divider_text(maze, initial_row as int));
    return divider;
}

impl Maze {
    /// The maze as text: the top border, then for every row a line of its
    /// cells and a line of the walls below them, the lines separated by line
    /// feeds.
    pub fn to_text(&self) -> (text: String)
        requires
            self.wf(),
        ensures
            text@ == maze_text(self),
    {
        let mut text = render_maze_top(self);
        let rows = self.rows();
        for row in 0..rows
            invariant
                self.wf(),
                rows == self.rows(),
                text@ == top_text(self) + rows_text(self, row as int),
        {
            text.append("\n");
            let content = render_maze_cell_content(self, row);
            text.append(content.as_str());
            text.append("\n");
            if row == rows - 1 {
                let bottom = render_maze_bottom(self);
                text.append(bottom.as_str());
            } else {
                let divider = render_maze_cell_divider(self, row);
                text.append(divider.as_str());
            }
            assert(text@ =~= top_text(self) + rows_text(self, row + 1));
        }
        text
    }
}

} // verus!
