use raycaster::draw_2d::{
    draw_line, fill_region_between_lines, fill_triangle, Coordinate, Paint, RegionFillErr,
};

fn at(row: i32, col: i32) -> Coordinate {
    Coordinate { row, col }
}

fn cell(row: i64, col: i64, glyph: char) -> Paint {
    Paint { row, col, glyph }
}

fn line(from: Coordinate, to: Coordinate, glyph: char) -> Vec<Paint> {
    let mut canvas = Vec::new();
    draw_line(&mut canvas, from, to, glyph);
    canvas
}

fn triangle(a: Coordinate, b: Coordinate, c: Coordinate, glyph: char) -> Vec<Paint> {
    let mut canvas = Vec::new();
    assert!(fill_triangle(&mut canvas, a, b, c, glyph).is_ok());
    canvas
}

#[test]
fn coord_shift_moves_both_ways() {
    let shifted = at(3, 7).coord_shift(-5, 2);
    assert_eq!(shifted, at(-2, 9));
    assert_eq!(at(3, 7).coord_shift(0, 0), at(3, 7));
}

#[test]
fn vertical_line_leaves_both_ends_out() {
    let painted = line(at(0, 0), at(5, 0), '#');
    assert_eq!(
        painted,
        vec![cell(1, 0, '#'), cell(2, 0, '#'), cell(3, 0, '#'), cell(4, 0, '#')]
    );
}

#[test]
fn vertical_line_is_the_same_from_either_end() {
    assert_eq!(line(at(5, 3), at(0, 3), 'x'), line(at(0, 3), at(5, 3), 'x'));
    assert_eq!(line(at(-2, 3), at(1, 3), 'x'), vec![cell(-1, 3, 'x'), cell(0, 3, 'x')]);
}

#[test]
fn vertical_line_between_neighbours_is_empty() {
    assert_eq!(line(at(4, 1), at(5, 1), '#'), vec![]);
    assert_eq!(line(at(4, 1), at(4, 1), '#'), vec![]);
}

#[test]
fn horizontal_line_covers_both_ends() {
    assert_eq!(
        line(at(2, 1), at(2, 4), '*'),
        vec![cell(2, 1, '*'), cell(2, 2, '*'), cell(2, 3, '*'), cell(2, 4, '*')]
    );
}

#[test]
fn shallow_line_steps_every_second_column() {
    assert_eq!(
        line(at(0, 0), at(2, 4), '*'),
        vec![
            cell(0, 0, '*'),
            cell(0, 1, '*'),
            cell(0, 1, '*'),
            cell(1, 2, '*'),
            cell(1, 3, '*'),
            cell(1, 3, '*'),
            cell(2, 4, '*'),
        ]
    );
}

#[test]
fn steep_line_runs_down_each_column() {
    assert_eq!(
        line(at(0, 0), at(4, 2), '*'),
        vec![
            cell(0, 0, '*'),
            cell(0, 0, '*'),
            cell(1, 0, '*'),
            cell(2, 1, '*'),
            cell(2, 1, '*'),
            cell(3, 1, '*'),
            cell(4, 2, '*'),
            cell(4, 2, '*'),
            cell(5, 2, '*'),
        ]
    );
}

#[test]
fn rising_line_starts_at_the_smaller_column() {
    let expected = vec![
        cell(2, 0, '*'),
        cell(2, 0, '*'),
        cell(1, 1, '*'),
        cell(1, 1, '*'),
        cell(0, 2, '*'),
        cell(0, 2, '*'),
    ];
    assert_eq!(line(at(2, 0), at(0, 2), '*'), expected);
    assert_eq!(line(at(0, 2), at(2, 0), '*'), expected);
}

#[test]
fn line_rounds_toward_the_start_row() {
    // 1 row over 3 columns: the row changes when 3/3 is reached
    assert_eq!(
        line(at(0, 0), at(1, 3), '*'),
        vec![
            cell(0, 0, '*'),
            cell(0, 1, '*'),
            cell(0, 2, '*'),
            cell(0, 2, '*'),
            cell(1, 3, '*'),
        ]
    );
    // 1 row over 10 columns: the tenth part adds up to exactly one cell
    let tenth = line(at(0, 0), at(1, 10), '*');
    assert_eq!(tenth.len(), 12);
    assert_eq!(tenth[9], cell(0, 9, '*'));
    assert_eq!(tenth[10], cell(0, 9, '*'));
    assert_eq!(tenth[11], cell(1, 10, '*'));
}

#[test]
fn line_is_drawn_in_one_character() {
    // the cells in which a line changes rows are in its character too
    assert_eq!(
        line(at(0, 0), at(1, 1), '.'),
        vec![cell(0, 0, '.'), cell(0, 0, '.'), cell(1, 1, '.'), cell(1, 1, '.')]
    );
    for (from, to) in [
        (at(0, 0), at(7, 3)),
        (at(7, 3), at(0, 0)),
        (at(5, 0), at(-4, 9)),
        (at(2, 2), at(2, 9)),
        (at(0, 4), at(9, 4)),
    ] {
        let painted = line(from, to, 'o');
        assert!(!painted.is_empty());
        assert!(painted.iter().all(|paint| paint.glyph == 'o'));
    }
}

#[test]
fn last_run_of_a_steep_line_may_leave_the_rows_of_its_ends() {
    let top = i32::MAX as i64;
    assert_eq!(
        line(at(i32::MAX - 3, 0), at(i32::MAX, 1), '*'),
        vec![
            cell(top - 3, 0, '*'),
            cell(top - 3, 0, '*'),
            cell(top - 2, 0, '*'),
            cell(top - 1, 0, '*'),
            cell(top, 1, '*'),
            cell(top, 1, '*'),
            cell(top + 1, 1, '*'),
            cell(top + 2, 1, '*'),
        ]
    );
    let painted = line(at(i32::MIN, i32::MIN), at(i32::MIN + 1, i32::MIN + 1), '*');
    assert_eq!(painted[0], cell(i32::MIN as i64, i32::MIN as i64, '*'));
    assert_eq!(painted.len(), 4);
}

#[test]
fn region_refused_when_left_columns_differ() {
    let mut canvas = vec![cell(9, 9, '!')];
    let filled =
        fill_region_between_lines(&mut canvas, at(0, 0), at(0, 3), at(2, 1), at(2, 3), '.');
    assert!(matches!(filled, Err(RegionFillErr::TopAndBottomDoNotAlign)));
    assert_eq!(canvas, vec![cell(9, 9, '!')]);
}

#[test]
fn region_refused_when_right_columns_differ() {
    let mut canvas = Vec::new();
    let filled =
        fill_region_between_lines(&mut canvas, at(0, 0), at(0, 3), at(2, 0), at(2, 4), '.');
    assert!(matches!(filled, Err(RegionFillErr::TopAndBottomDoNotAlign)));
    assert_eq!(canvas, vec![]);
}

#[test]
fn region_refused_when_top_is_below_at_the_left() {
    let mut canvas = Vec::new();
    let filled =
        fill_region_between_lines(&mut canvas, at(3, 0), at(0, 3), at(2, 0), at(2, 3), '.');
    assert!(matches!(filled, Err(RegionFillErr::TopIsBelowBottom)));
    assert_eq!(canvas, vec![]);
}

#[test]
fn region_refused_when_top_is_below_at_the_right() {
    let mut canvas = Vec::new();
    let filled =
        fill_region_between_lines(&mut canvas, at(0, 0), at(5, 3), at(2, 0), at(2, 3), '.');
    assert!(matches!(filled, Err(RegionFillErr::TopIsBelowBottom)));
    assert_eq!(canvas, vec![]);
}

#[test]
fn region_alignment_is_checked_before_rows() {
    let mut canvas = Vec::new();
    let filled =
        fill_region_between_lines(&mut canvas, at(9, 0), at(9, 3), at(2, 1), at(2, 3), '.');
    assert!(matches!(filled, Err(RegionFillErr::TopAndBottomDoNotAlign)));
}

#[test]
fn region_between_level_edges_is_a_rectangle() {
    let mut canvas = vec![cell(9, 9, '!')];
    let filled =
        fill_region_between_lines(&mut canvas, at(0, 0), at(0, 2), at(1, 0), at(1, 2), '.');
    assert!(filled.is_ok());
    assert_eq!(
        canvas,
        vec![
            cell(9, 9, '!'),
            cell(0, 0, '.'),
            cell(1, 0, '.'),
            cell(0, 1, '.'),
            cell(1, 1, '.'),
            cell(0, 2, '.'),
            cell(1, 2, '.'),
        ]
    );
}

#[test]
fn region_follows_a_falling_bottom_edge() {
    let mut canvas = Vec::new();
    let filled =
        fill_region_between_lines(&mut canvas, at(0, 0), at(0, 2), at(0, 0), at(2, 2), '.');
    assert!(filled.is_ok());
    assert_eq!(
        canvas,
        vec![
            cell(0, 0, '.'),
            cell(0, 1, '.'),
            cell(1, 1, '.'),
            cell(0, 2, '.'),
            cell(1, 2, '.'),
            cell(2, 2, '.'),
        ]
    );
}

#[test]
fn region_takes_edges_in_either_direction() {
    let mut forward = Vec::new();
    let mut backward = Vec::new();
    assert!(
        fill_region_between_lines(&mut forward, at(0, 0), at(1, 4), at(3, 0), at(5, 4), '.')
            .is_ok()
    );
    assert!(
        fill_region_between_lines(&mut backward, at(1, 4), at(0, 0), at(5, 4), at(3, 0), '.')
            .is_ok()
    );
    assert_eq!(forward, backward);
    // top row k/4, bottom row 3 + 2k/4, both rounded toward zero
    let heights: Vec<usize> = vec![4, 4, 5, 5, 5];
    assert_eq!(forward.len(), heights.iter().sum::<usize>());
    assert_eq!(forward[0], cell(0, 0, '.'));
    assert_eq!(forward[forward.len() - 1], cell(5, 4, '.'));
    assert_eq!(forward[forward.len() - 5], cell(1, 4, '.'));
}

#[test]
fn region_of_one_column() {
    let mut canvas = Vec::new();
    let filled =
        fill_region_between_lines(&mut canvas, at(1, 3), at(1, 3), at(3, 3), at(3, 3), 'o');
    assert!(filled.is_ok());
    assert_eq!(canvas, vec![cell(1, 3, 'o'), cell(2, 3, 'o'), cell(3, 3, 'o')]);
}

#[test]
fn triangle_in_one_row_is_a_line() {
    assert_eq!(
        triangle(at(2, 4), at(2, 0), at(2, 2), '.'),
        line(at(2, 0), at(2, 4), '.')
    );
    assert_eq!(triangle(at(2, 4), at(2, 0), at(2, 2), '.').len(), 5);
}

#[test]
fn triangle_in_one_column_is_a_line() {
    assert_eq!(
        triangle(at(3, 1), at(0, 1), at(6, 1), '.'),
        vec![
            cell(1, 1, '.'),
            cell(2, 1, '.'),
            cell(3, 1, '.'),
            cell(4, 1, '.'),
            cell(5, 1, '.'),
        ]
    );
}

#[test]
fn flat_triangle_is_in_the_fill_character_only() {
    for (a, b, c) in [
        (at(1, 1), at(0, 0), at(2, 2)),
        (at(0, 0), at(7, 49), at(1, 7)),
        (at(9, 0), at(6, 1), at(3, 2)),
        (at(2, 4), at(2, 0), at(2, 2)),
    ] {
        let painted = triangle(a, b, c, '.');
        assert!(!painted.is_empty());
        assert!(painted.iter().all(|paint| paint.glyph == '.'));
    }
}

#[test]
fn triangle_on_a_diagonal_is_a_line() {
    assert_eq!(
        triangle(at(1, 1), at(0, 0), at(2, 2), '.'),
        line(at(0, 0), at(2, 2), '.')
    );
    assert_eq!(
        triangle(at(0, 0), at(7, 49), at(1, 7), '.'),
        line(at(0, 0), at(7, 49), '.')
    );
}

#[test]
fn triangle_with_an_upright_left_edge() {
    assert_eq!(
        triangle(at(0, 0), at(2, 0), at(2, 2), '.'),
        vec![
            cell(0, 0, '.'),
            cell(1, 0, '.'),
            cell(2, 0, '.'),
            cell(1, 1, '.'),
            cell(2, 1, '.'),
            cell(2, 2, '.'),
        ]
    );
}

#[test]
fn triangle_with_an_upright_right_edge() {
    assert_eq!(
        triangle(at(3, 3), at(1, 3), at(3, 1), '.'),
        vec![
            cell(3, 1, '.'),
            cell(2, 2, '.'),
            cell(3, 2, '.'),
            cell(1, 3, '.'),
            cell(2, 3, '.'),
            cell(3, 3, '.'),
        ]
    );
}

#[test]
fn triangle_is_cut_at_the_middle_corner() {
    let expected = vec![
        // from the left corner to the cut
        cell(0, 0, '.'),
        cell(0, 1, '.'),
        cell(1, 1, '.'),
        cell(2, 1, '.'),
        cell(0, 2, '.'),
        cell(1, 2, '.'),
        cell(2, 2, '.'),
        cell(3, 2, '.'),
        cell(4, 2, '.'),
        // from the cut to the right corner
        cell(0, 2, '.'),
        cell(1, 2, '.'),
        cell(2, 2, '.'),
        cell(3, 2, '.'),
        cell(4, 2, '.'),
        cell(0, 3, '.'),
        cell(1, 3, '.'),
        cell(2, 3, '.'),
        cell(0, 4, '.'),
    ];
    assert_eq!(triangle(at(0, 0), at(4, 2), at(0, 4), '.'), expected);
    assert_eq!(triangle(at(0, 4), at(0, 0), at(4, 2), '.'), expected);
}

#[test]
fn triangle_with_the_middle_corner_above_the_long_edge() {
    // long edge from (4, 0) to (4, 4), middle corner on top
    let painted = triangle(at(4, 0), at(0, 2), at(4, 4), '.');
    assert_eq!(painted.len(), 1 + 3 + 5 + 5 + 3 + 1);
    assert_eq!(painted[0], cell(4, 0, '.'));
    assert_eq!(painted[1], cell(2, 1, '.'));
    assert_eq!(painted[4], cell(0, 2, '.'));
}

#[test]
fn triangle_with_two_corners_in_one_cell() {
    assert_eq!(
        triangle(at(0, 0), at(0, 0), at(3, 3), '.'),
        vec![cell(0, 0, '.'), cell(1, 1, '.'), cell(2, 2, '.'), cell(3, 3, '.')]
    );
}

#[test]
fn triangle_appends_to_what_is_there() {
    let mut canvas = vec![cell(7, 7, '!')];
    assert!(fill_triangle(&mut canvas, at(1, 1), at(1, 1), at(1, 1), '.').is_ok());
    assert_eq!(canvas, vec![cell(7, 7, '!')]);
    assert!(fill_triangle(&mut canvas, at(0, 0), at(2, 0), at(2, 2), '.').is_ok());
    assert_eq!(canvas.len(), 7);
    assert_eq!(canvas[0], cell(7, 7, '!'));
}
