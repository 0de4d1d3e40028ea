use std::collections::hash_map::DefaultHasher;
use std::hash::{Hash, Hasher};

use raycaster::maze::display::{
    render_maze_bottom, render_maze_cell_content, render_maze_cell_divider, render_maze_top,
};
use raycaster::maze::flood::{flood_reaches, in_maze};
use raycaster::maze::generation::{
    Maze, MazeConstructError, MazeCoordinate, MazeParam, MazePortals, MazeWall,
};
use raycaster::maze::wall_set::WallSet;
use raycaster::maze::world_translation::{create_pillars_for_maze, create_walls_for_maze};

fn at(row: i32, col: i32) -> MazeCoordinate {
    MazeCoordinate { row, col }
}

fn between(row1: i32, col1: i32, row2: i32, col2: i32) -> MazeWall {
    MazeWall { coord1: at(row1, col1), coord2: at(row2, col2) }
}

#[test]
fn manhattan_distance_is_accurate() {
    let point = MazeCoordinate { row: 5, col: 8 };
    let point_ahead = MazeCoordinate { row: 10, col: 10 };
    let point_ahead_same_dist = MazeCoordinate { row: 8, col: 12 };
    let point_behind_same_dist = MazeCoordinate { row: 3, col: 3 };

    assert_eq!(7, point.manhattan_to(&point_ahead));
    assert_eq!(point.manhattan_to(&point_ahead), point.manhattan_to(&point_ahead_same_dist));
    assert_eq!(point.manhattan_to(&point_ahead), point.manhattan_to(&point_behind_same_dist));
}

/// Creates a tuple of two equivalent [MazeWall]s which have their coordinates reversed
fn create_inverse_tuple(coord1: MazeCoordinate, coord2: MazeCoordinate) -> (MazeWall, MazeWall) {
    (MazeWall { coord1, coord2 }, MazeWall { coord1: coord2, coord2: coord1 })
}

fn verify_equality_and_hashing(test_cases: &[(MazeWall, MazeWall)]) {
    test_cases.iter().for_each(|(first_wall, second_wall)| {
        println!("Verify: {:?} with {:?}", first_wall, second_wall);
        assert_eq!(first_wall, second_wall, "Equality: {:?} and {:?}", first_wall, second_wall);
        assert_eq!(second_wall, first_wall, "Equality: {:?} and {:?}", second_wall, first_wall);

        let mut first_wall_hasher = DefaultHasher::new();
        let mut second_wall_hasher = DefaultHasher::new();

        first_wall.hash(&mut first_wall_hasher);
        second_wall.hash(&mut second_wall_hasher);

        let first_wall_hash = first_wall_hasher.finish();
        let second_wall_hash = second_wall_hasher.finish();

        assert_eq!(
            first_wall_hash, second_wall_hash,
            "Hash comparison: {:?} and {:?}",
            first_wall, second_wall
        );
    });
}

#[test]
fn equivalent_for_higher_row() {
    let compare_coord = MazeCoordinate { row: 10, col: 5 };
    let greater_col_coord = MazeCoordinate { row: 5, col: 6 };
    let lower_col_coord = MazeCoordinate { row: 5, col: 4 };
    let equal_col_coord = MazeCoordinate { row: 5, col: 5 };

    let test_cases = [
        create_inverse_tuple(compare_coord, greater_col_coord),
        create_inverse_tuple(compare_coord, lower_col_coord),
        create_inverse_tuple(compare_coord, equal_col_coord),
    ];

    verify_equality_and_hashing(&test_cases);
}

#[test]
fn equivalent_for_lower_row() {
    let compare_coord = MazeCoordinate { row: 5, col: 5 };
    let greater_col_coord = MazeCoordinate { row: 10, col: 6 };
    let lower_col_coord = MazeCoordinate { row: 10, col: 4 };
    let equal_col_coord = MazeCoordinate { row: 10, col: 5 };

    let test_cases = [
        create_inverse_tuple(compare_coord, greater_col_coord),
        create_inverse_tuple(compare_coord, lower_col_coord),
        create_inverse_tuple(compare_coord, equal_col_coord),
    ];

    verify_equality_and_hashing(&test_cases);
}

#[test]
fn equivalent_for_varying_column() {
    let compare_coord = MazeCoordinate { row: 10, col: 5 };
    let greater_coord = MazeCoordinate { row: 10, col: 6 };
    let lesser_coord = MazeCoordinate { row: 10, col: 4 };

    let test_cases = [
        create_inverse_tuple(compare_coord, compare_coord),
        create_inverse_tuple(compare_coord, greater_coord),
        create_inverse_tuple(compare_coord, lesser_coord),
    ];

    verify_equality_and_hashing(&test_cases);
}

#[test]
fn can_construct_maze() {
    let maze = Maze::new(25, 25, 10);
    assert!(maze.is_ok());
    let unwrapped_maze = maze.unwrap();
    println!(
        "{}\n Start: {:?}\n End: {:?}\n Manhattan Distance: {}",
        unwrapped_maze.to_text(),
        unwrapped_maze.start(),
        unwrapped_maze.finish(),
        unwrapped_maze.start().manhattan_to(unwrapped_maze.finish()),
    );
}

#[test]
fn walls_differ_when_their_cells_differ() {
    assert_ne!(between(0, 0, 0, 1), between(0, 0, 1, 0));
    assert_ne!(between(0, 0, 0, 1), between(0, 1, 0, 2));
    assert_eq!(between(0, 0, 0, 1).in_order(), between(0, 0, 0, 1));
    assert_eq!(between(0, 1, 0, 0).in_order(), between(0, 0, 0, 1));
    assert_eq!(between(3, 0, 2, 9).in_order(), between(2, 9, 3, 0));
    let swapped = between(2, 9, 3, 0).in_order();
    assert_eq!((swapped.coord1, swapped.coord2), (at(2, 9), at(3, 0)));
}

#[test]
fn manhattan_distance_counts_rows_and_columns() {
    assert_eq!(at(0, 0).manhattan_to(&at(0, 0)), 0);
    assert_eq!(at(-3, 4).manhattan_to(&at(2, -1)), 10);
    assert_eq!(at(2, -1).manhattan_to(&at(-3, 4)), 10);
    assert_eq!(at(i32::MIN, 0).manhattan_to(&at(-1, 0)), i32::MAX);
}

#[test]
fn moved_cell() {
    assert_eq!(at(4, 4).moved(-1, 0), at(3, 4));
    assert_eq!(at(4, 4).moved(0, 1), at(4, 5));
    assert_eq!(at(4, 4).moved(2, -6), at(6, -2));
}

#[test]
fn random_cell_lies_in_the_grid() {
    let mut rng = rand::thread_rng();
    let mut rows_seen = [false; 3];
    let mut cols_seen = [false; 4];
    for _ in 0..500 {
        let cell = MazeCoordinate::random(3, 4, &mut rng);
        assert!(0 <= cell.row && cell.row < 3);
        assert!(0 <= cell.col && cell.col < 4);
        rows_seen[cell.row as usize] = true;
        cols_seen[cell.col as usize] = true;
    }
    assert!(rows_seen.iter().all(|seen| *seen));
    assert!(cols_seen.iter().all(|seen| *seen));
    assert_eq!(MazeCoordinate::random(1, 1, &mut rng), at(0, 0));
}

#[test]
fn cell_in_maze() {
    assert!(in_maze(&at(0, 0), 1, 1));
    assert!(in_maze(&at(2, 3), 3, 4));
    assert!(!in_maze(&at(3, 3), 3, 4));
    assert!(!in_maze(&at(2, 4), 3, 4));
    assert!(!in_maze(&at(-1, 0), 3, 4));
    assert!(!in_maze(&at(0, -1), 3, 4));
    assert!(!in_maze(&at(0, 0), 0, 4));
}

#[test]
fn wall_set_finds_a_wall_from_either_cell() {
    let mut walls = WallSet::new();
    assert!(walls.is_empty());
    assert_eq!(walls.len(), 0);
    assert!(walls.insert(between(1, 2, 1, 3)));
    assert!(!walls.insert(between(1, 3, 1, 2)));
    assert!(walls.insert(between(-4, 7, -5, 7)));
    assert_eq!(walls.len(), 2);
    assert!(walls.contains(&between(1, 3, 1, 2)));
    assert!(walls.contains(&between(1, 2, 1, 3)));
    assert!(walls.contains(&between(-5, 7, -4, 7)));
    assert!(!walls.contains(&between(1, 2, 2, 2)));
    assert!(!walls.contains(&between(1, 2, 3, 1)));
    assert!(walls.remove(&between(1, 3, 1, 2)));
    assert!(!walls.remove(&between(1, 3, 1, 2)));
    assert!(!walls.contains(&between(1, 2, 1, 3)));
    assert_eq!(walls.len(), 1);
    assert!(!walls.is_empty());
}

#[test]
fn wall_set_keeps_the_far_corners_of_the_number_range_apart() {
    let mut walls = WallSet::new();
    let corners = [
        between(i32::MIN, i32::MIN, i32::MAX, i32::MAX),
        between(i32::MIN, i32::MAX, i32::MAX, i32::MIN),
        between(i32::MAX, i32::MAX, i32::MAX, i32::MAX),
        between(i32::MIN, i32::MIN, i32::MIN, i32::MIN),
        between(0, -1, -1, 0),
    ];
    for wall in corners.iter() {
        assert!(walls.insert(*wall));
    }
    assert_eq!(walls.len(), corners.len());
    for wall in corners.iter() {
        assert!(walls.contains(wall));
    }
    assert!(!walls.contains(&between(0, 0, 0, 0)));
}

#[test]
fn wall_set_picks_one_of_its_walls() {
    let mut rng = rand::thread_rng();
    let mut walls = WallSet::new();
    assert_eq!(walls.pick(&mut rng), None);
    walls.insert(between(2, 2, 2, 1));
    for _ in 0..20 {
        assert_eq!(
            walls.pick(&mut rng).map(|wall| (wall.coord1, wall.coord2)),
            Some((at(2, 1), at(2, 2)))
        );
    }
    walls.insert(between(0, 0, 1, 0));
    let mut seen = [false; 2];
    for _ in 0..200 {
        let wall = walls.pick(&mut rng).unwrap();
        assert!(walls.contains(&wall));
        seen[usize::from(wall == between(0, 0, 1, 0))] = true;
    }
    assert_eq!(seen, [true, true]);
}

#[test]
fn initial_walls_close_in_every_cell() {
    let walls = Maze::generate_initial_walls(3, 4);
    assert_eq!(walls.len(), 3 * 3 + 2 * 4);
    for row in 0..3 {
        for col in 0..4 {
            assert_eq!(walls.contains(&between(row, col, row, col + 1)), col + 1 < 4);
            assert_eq!(walls.contains(&between(row, col, row + 1, col)), row + 1 < 3);
        }
    }
    assert!(!walls.contains(&between(0, 0, 1, 1)));
    assert!(!walls.contains(&between(0, 0, 0, 2)));
    assert!(!walls.contains(&between(0, 0, 0, 0)));
    assert!(!walls.contains(&between(-1, 0, 0, 0)));
}

#[test]
fn initial_walls_of_one_cell_are_none() {
    assert!(Maze::generate_initial_walls(1, 1).is_empty());
    assert_eq!(Maze::generate_initial_walls(1, 5).len(), 4);
    assert_eq!(Maze::generate_initial_walls(5, 1).len(), 4);
}

#[test]
fn flood_stops_at_walls() {
    let mut walls = Maze::generate_initial_walls(2, 2);
    assert!(flood_reaches(&walls, 2, 2, at(0, 0), at(0, 0)));
    assert!(!flood_reaches(&walls, 2, 2, at(0, 0), at(0, 1)));
    assert!(!flood_reaches(&walls, 2, 2, at(0, 0), at(1, 1)));
    walls.remove(&between(0, 0, 1, 0));
    assert!(flood_reaches(&walls, 2, 2, at(0, 0), at(1, 0)));
    assert!(flood_reaches(&walls, 2, 2, at(1, 0), at(0, 0)));
    assert!(!flood_reaches(&walls, 2, 2, at(0, 0), at(1, 1)));
    walls.remove(&between(1, 1, 1, 0));
    assert!(flood_reaches(&walls, 2, 2, at(0, 0), at(1, 1)));
    assert!(!flood_reaches(&walls, 2, 2, at(0, 0), at(0, 1)));
}

#[test]
fn flood_does_not_step_diagonally_or_out_of_the_grid() {
    // a wall around the middle cell of a 3 x 3 grid
    let mut walls = WallSet::new();
    walls.insert(between(1, 1, 0, 1));
    walls.insert(between(1, 1, 2, 1));
    walls.insert(between(1, 1, 1, 0));
    walls.insert(between(1, 1, 1, 2));
    assert!(!flood_reaches(&walls, 3, 3, at(0, 0), at(1, 1)));
    assert!(!flood_reaches(&walls, 3, 3, at(1, 1), at(2, 2)));
    assert!(flood_reaches(&walls, 3, 3, at(0, 0), at(2, 2)));
    // no way leads out of the grid or in from outside
    assert!(!flood_reaches(&walls, 3, 3, at(0, 0), at(0, 3)));
    assert!(!flood_reaches(&walls, 3, 3, at(-1, 0), at(0, 0)));
    assert!(!flood_reaches(&walls, 3, 3, at(3, 3), at(3, 3)));
    assert!(!flood_reaches(&walls, 0, 0, at(0, 0), at(0, 0)));
    // a wall across a corridor cannot be walked around
    let mut corridor = WallSet::new();
    corridor.insert(between(0, 1, 0, 2));
    assert!(!flood_reaches(&corridor, 1, 4, at(0, 0), at(0, 3)));
    assert!(flood_reaches(&corridor, 2, 4, at(0, 0), at(0, 3)));
}

#[test]
fn walls_are_removed_until_the_way_is_free() {
    let portals = MazePortals { start: at(0, 0), end: at(0, 2) };
    let mut walls = Maze::generate_initial_walls(1, 3);
    Maze::remove_walls_for_valid_maze(&mut walls, 1, 3, &portals);
    assert!(walls.is_empty());

    let mut open = WallSet::new();
    open.insert(between(1, 0, 1, 1));
    Maze::remove_walls_for_valid_maze(&mut open, 2, 2, &MazePortals { start: at(0, 0), end: at(1, 1) });
    assert_eq!(open.len(), 1);

    for _ in 0..20 {
        let ends = MazePortals { start: at(0, 0), end: at(3, 3) };
        let mut all = Maze::generate_initial_walls(4, 4);
        Maze::remove_walls_for_valid_maze(&mut all, 4, 4, &ends);
        assert!(flood_reaches(&all, 4, 4, ends.start, ends.end));
        assert!(all.len() <= 24 - 6);
    }
}

#[test]
fn portals_are_far_enough_apart() {
    for _ in 0..50 {
        let portals = Maze::select_portal_coordinates(4, 6, 7);
        assert!(in_maze(&portals.start, 4, 6));
        assert!(in_maze(&portals.end, 4, 6));
        assert!(portals.start.manhattan_to(&portals.end) >= 7);
    }
    let corners = Maze::select_portal_coordinates(2, 2, 2);
    assert_eq!(corners.start.manhattan_to(&corners.end), 2);
    let anywhere = Maze::select_portal_coordinates(1, 1, 0);
    assert_eq!((anywhere.start, anywhere.end), (at(0, 0), at(0, 0)));
}

#[test]
fn maze_parameters_have_to_be_positive() {
    assert!(matches!(
        Maze::new(0, 5, 5),
        Err(MazeConstructError::ParameterInvalid { param: MazeParam::Row, value: 0 })
    ));
    assert!(matches!(
        Maze::new(-3, -4, -5),
        Err(MazeConstructError::ParameterInvalid { param: MazeParam::Row, value: -3 })
    ));
    assert!(matches!(
        Maze::new(5, -4, 0),
        Err(MazeConstructError::ParameterInvalid { param: MazeParam::Col, value: -4 })
    ));
    assert!(matches!(
        Maze::new(5, 5, 0),
        Err(MazeConstructError::ParameterInvalid { param: MazeParam::PortalSpacing, value: 0 })
    ));
}

#[test]
fn maze_has_to_hold_the_spacing() {
    assert!(matches!(
        Maze::new(3, 4, 8),
        Err(MazeConstructError::MazeTooSmallForSpacing { rows: 3, cols: 4, portal_space: 8 })
    ));
    assert!(matches!(
        Maze::new(3, 4, 6),
        Err(MazeConstructError::MazeTooSmallForSpacing { rows: 3, cols: 4, portal_space: 6 })
    ));
    assert!(matches!(
        Maze::new(1, 1, 1),
        Err(MazeConstructError::MazeTooSmallForSpacing { rows: 1, cols: 1, portal_space: 1 })
    ));
    assert!(matches!(
        Maze::new(1, i32::MAX, i32::MAX),
        Err(MazeConstructError::MazeTooSmallForSpacing { rows: 1, cols: i32::MAX, portal_space: i32::MAX })
    ));
    assert!(Maze::new(3, 4, 5).is_ok());
}

#[test]
fn generated_maze_is_sound() {
    for _ in 0..10 {
        let maze = Maze::new(6, 9, 8).unwrap();
        assert_eq!(maze.rows(), 6);
        assert_eq!(maze.cols(), 9);
        assert!(in_maze(maze.start(), 6, 9));
        assert!(in_maze(maze.finish(), 6, 9));
        assert!(maze.start().manhattan_to(maze.finish()) >= 8);
        assert!(flood_reaches(maze.wall_edges(), 6, 9, *maze.start(), *maze.finish()));
        let mut standing = 0;
        for row in 0..6 {
            for col in 0..9 {
                standing += usize::from(maze.wall_edges().contains(&between(row, col, row, col + 1)));
                standing += usize::from(maze.wall_edges().contains(&between(row, col, row + 1, col)));
            }
        }
        assert_eq!(standing, maze.wall_edges().len());
        assert!(standing < 6 * 8 + 5 * 9);
    }
}

#[test]
fn maze_of_two_cells_loses_its_only_wall() {
    let maze = Maze::new(1, 2, 1).unwrap();
    assert!(maze.wall_edges().is_empty());
    assert_eq!(maze.start().manhattan_to(maze.finish()), 1);
    let text = maze.to_text();
    assert!(text == "┌───┐\n│S F│\n└───┘" || text == "┌───┐\n│F S│\n└───┘");
}

#[test]
fn maze_from_walls_is_checked() {
    let walls = vec![between(0, 1, 0, 0), between(0, 0, 0, 1)];
    let maze = Maze::with_walls(2, 2, at(0, 0), at(1, 1), &walls).unwrap();
    assert_eq!((maze.rows(), maze.cols()), (2, 2));
    assert_eq!((*maze.start(), *maze.finish()), (at(0, 0), at(1, 1)));
    assert_eq!(maze.wall_edges().len(), 1);
    assert!(maze.wall_edges().contains(&between(0, 0, 0, 1)));

    // no way from the start to the finish
    let closed = vec![between(0, 0, 0, 1), between(0, 0, 1, 0)];
    assert!(Maze::with_walls(2, 2, at(0, 0), at(1, 1), &closed).is_none());
    // an end outside the grid
    assert!(Maze::with_walls(2, 2, at(0, 0), at(2, 1), &vec![]).is_none());
    assert!(Maze::with_walls(2, 2, at(0, -1), at(1, 1), &vec![]).is_none());
    assert!(Maze::with_walls(0, 2, at(0, 0), at(0, 0), &vec![]).is_none());
    // walls that separate no two neighbours of the grid
    assert!(Maze::with_walls(2, 2, at(0, 0), at(1, 1), &vec![between(0, 0, 1, 1)]).is_none());
    assert!(Maze::with_walls(2, 2, at(0, 0), at(1, 1), &vec![between(0, 1, 0, 2)]).is_none());
    assert!(Maze::with_walls(2, 2, at(0, 0), at(1, 1), &vec![between(0, 0, 0, 0)]).is_none());
    assert!(Maze::with_walls(1, 1, at(0, 0), at(0, 0), &vec![]).is_some());
}

#[test]
fn maze_text_of_a_small_maze() {
    let maze = Maze::with_walls(2, 2, at(0, 0), at(1, 1), &vec![between(0, 0, 0, 1)]).unwrap();
    assert_eq!(render_maze_top(&maze), "┌─┬─┐");
    assert_eq!(render_maze_cell_content(&maze, 0), "│S│ │");
    assert_eq!(render_maze_cell_divider(&maze, 0), "│   │");
    assert_eq!(render_maze_cell_content(&maze, 1), "│  F│");
    assert_eq!(render_maze_bottom(&maze), "└───┘");
    assert_eq!(maze.to_text(), "┌─┬─┐\n│S│ │\n│   │\n│  F│\n└───┘");
}

#[test]
fn maze_text_joins_walls_with_the_fitting_character() {
    let walls = vec![between(0, 0, 0, 1), between(0, 1, 1, 1)];
    let maze = Maze::with_walls(2, 2, at(0, 0), at(1, 1), &walls).unwrap();
    assert_eq!(maze.to_text(), "┌─┬─┐\n│S│ │\n│ └─┤\n│  F│\n└───┘");

    let walls = vec![
        between(0, 0, 0, 1),
        between(0, 1, 1, 1),
        between(1, 1, 1, 2),
        between(1, 0, 2, 0),
        between(2, 1, 2, 2),
    ];
    let maze = Maze::with_walls(3, 3, at(2, 0), at(0, 0), &walls).unwrap();
    assert_eq!(
        maze.to_text(),
        "┌─┬───┐\n│F│   │\n│ └─┐ │\n│   │ │\n├─  │ │\n│S  │ │\n└───┴─┘"
    );
}

#[test]
fn maze_text_of_one_row_and_of_one_column() {
    let row = Maze::with_walls(1, 3, at(0, 2), at(0, 0), &vec![]).unwrap();
    assert_eq!(row.to_text(), "┌─────┐\n│F   S│\n└─────┘");
    let column = Maze::with_walls(3, 1, at(0, 0), at(2, 0), &vec![]).unwrap();
    assert_eq!(column.to_text(), "┌─┐\n│S│\n│ │\n│ │\n│ │\n│F│\n└─┘");
    let cell = Maze::with_walls(1, 1, at(0, 0), at(0, 0), &vec![]).unwrap();
    assert_eq!(cell.to_text(), "┌─┐\n│S│\n└─┘");
}

#[test]
fn every_way_of_four_walls_meeting() {
    // the walls that may meet in the middle of a 2 x 2 grid
    let left = between(0, 0, 1, 0);
    let right = between(0, 1, 1, 1);
    let above = between(0, 0, 0, 1);
    let below = between(1, 0, 1, 1);
    let cases = vec![
        (vec![], "│   │"),
        (vec![left], "├─  │"),
        (vec![right], "│  ─┤"),
        (vec![above], "│   │"),
        (vec![below], "│   │"),
        (vec![left, right], "├───┤"),
        (vec![left, above], "├─┘ │"),
        (vec![left, below], "├─┐ │"),
        (vec![right, above], "│ └─┤"),
        (vec![right, below], "│ ┌─┤"),
        (vec![above, below], "│ │ │"),
        (vec![left, right, above], "├─┴─┤"),
        (vec![left, right, below], "├─┬─┤"),
        (vec![left, above, below], "├─┤ │"),
        (vec![right, above, below], "│ ├─┤"),
    ];
    for (walls, expected) in cases {
        let start = at(0, 0);
        // a cell the start can still get to
        let finish = [at(1, 1), at(0, 1), at(1, 0), at(0, 0)]
            .into_iter()
            .find(|finish| Maze::with_walls(2, 2, start, *finish, &walls).is_some())
            .unwrap();
        let maze = Maze::with_walls(2, 2, start, finish, &walls).unwrap();
        assert_eq!(render_maze_cell_divider(&maze, 0), expected);
    }
}

#[test]
fn pillars_stand_at_the_corners_of_the_cells() {
    let maze = Maze::with_walls(2, 3, at(0, 0), at(1, 2), &vec![]).unwrap();
    let pillars = create_pillars_for_maze(&maze);
    assert_eq!(pillars.len(), 3);
    for (row, pillar_row) in pillars.iter().enumerate() {
        assert_eq!(pillar_row.len(), 4);
        for (col, pillar) in pillar_row.iter().enumerate() {
            assert_eq!(pillar.x_pos(), 4 * col as i64);
            assert_eq!(pillar.y_pos(), 4 * row as i64);
        }
    }
}

#[test]
fn world_walls_of_a_maze() {
    let walls = vec![between(0, 0, 0, 1), between(0, 1, 1, 1)];
    let maze = Maze::with_walls(2, 2, at(0, 0), at(1, 1), &walls).unwrap();
    let pillars = create_pillars_for_maze(&maze);
    let world = create_walls_for_maze(&maze, &pillars);
    let ends: Vec<((i64, i64), (i64, i64))> = world
        .iter()
        .map(|wall| {
            (
                (wall.pillar1().x_pos(), wall.pillar1().y_pos()),
                (wall.pillar2().x_pos(), wall.pillar2().y_pos()),
            )
        })
        .collect();
    assert_eq!(
        ends,
        vec![
            // top and bottom, column by column
            ((0, 0), (4, 0)),
            ((0, 8), (4, 8)),
            ((4, 0), (8, 0)),
            ((4, 8), (8, 8)),
            // left and right, row by row
            ((0, 0), (0, 4)),
            ((8, 0), (8, 4)),
            ((0, 4), (0, 8)),
            ((8, 4), (8, 8)),
            // the wall right of the first cell
            ((4, 0), (4, 4)),
            // the wall below the second cell
            ((4, 4), (8, 4)),
        ]
    );
}
