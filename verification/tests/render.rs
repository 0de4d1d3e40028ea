use raycaster::draw_2d::{draw_line, fill_triangle, Coordinate, Paint};
use raycaster::render::{
    draw_wall, paint_order, PillarCoords, Scene, WallView, FACE_GLYPH, OUTLINE_GLYPH,
};

fn pillar(column: i32, top_row: i32, bottom_row: i32) -> PillarCoords {
    PillarCoords { column, top_row, bottom_row }
}

fn wall(pillar1: PillarCoords, pillar2: PillarCoords, depth: u64) -> WallView {
    WallView { pillar1, pillar2, pillar1_seen: true, pillar2_seen: true, depth }
}

fn hidden(view: WallView) -> WallView {
    WallView { pillar1_seen: false, pillar2_seen: false, ..view }
}

fn cell(row: i64, col: i64, glyph: char) -> Paint {
    Paint { row, col, glyph }
}

fn drawn(view: &WallView) -> Vec<Paint> {
    let mut canvas = Vec::new();
    draw_wall(&mut canvas, view);
    canvas
}

#[test]
fn glyphs_of_a_wall() {
    assert_eq!(OUTLINE_GLYPH, '#');
    assert_eq!(FACE_GLYPH, '.');
}

#[test]
fn scene_keeps_its_dimensions() {
    let scene = Scene::with_dimensions(24, 80);
    assert_eq!(scene.screen_rows(), 24);
    assert_eq!(scene.screen_cols(), 80);
    assert_eq!((scene.half_rows(), scene.half_cols()), (12, 40));
    let odd = Scene::with_dimensions(25, 81);
    assert_eq!((odd.half_rows(), odd.half_cols()), (12, 40));
    let none = Scene::with_dimensions(0, -3);
    assert_eq!((none.half_rows(), none.half_cols()), (0, -1));
}

#[test]
fn pillar_cells() {
    let coords = pillar(7, 2, 9);
    assert_eq!(coords.line_top(), Coordinate { row: 2, col: 7 });
    assert_eq!(coords.line_bottom(), Coordinate { row: 9, col: 7 });
    assert!(coords.can_inset());
    assert!(!pillar(0, i32::MAX, 5).can_inset());
    assert!(!pillar(0, 0, i32::MIN).can_inset());
}

#[test]
fn wall_is_in_view_when_either_pillar_is_seen() {
    let base = wall(pillar(0, 0, 4), pillar(4, 0, 4), 1);
    for (first, second, expected) in
        [(false, false, false), (true, false, true), (false, true, true), (true, true, true)]
    {
        let view = WallView { pillar1_seen: first, pillar2_seen: second, ..base };
        assert_eq!(view.in_camera_view(), expected);
    }
}

#[test]
fn wall_needs_room_for_the_inset() {
    assert!(wall(pillar(0, 0, 4), pillar(4, 0, 4), 1).drawable());
    assert!(!wall(pillar(0, i32::MAX, 4), pillar(4, 0, 4), 1).drawable());
    assert!(!wall(pillar(0, 0, 4), pillar(4, 0, i32::MIN), 1).drawable());
    // without a face there is nothing to inset
    assert!(wall(pillar(0, i32::MAX, 4), pillar(2, 0, i32::MIN), 1).drawable());
    assert!(wall(pillar(5, i32::MAX, 4), pillar(5, 0, 4), 1).drawable());
}

#[test]
fn narrow_wall_has_no_face() {
    let view = wall(pillar(0, 1, 3), pillar(2, 1, 3), 1);
    assert_eq!(
        drawn(&view),
        vec![
            // first pillar, second pillar
            cell(2, 0, '#'),
            cell(2, 2, '#'),
            // top edge
            cell(1, 0, '#'),
            cell(1, 1, '#'),
            cell(1, 2, '#'),
            // bottom edge
            cell(3, 0, '#'),
            cell(3, 1, '#'),
            cell(3, 2, '#'),
        ]
    );
}

#[test]
fn wide_wall_has_its_face_inside_the_outline() {
    let view = wall(pillar(0, 0, 4), pillar(4, 0, 4), 1);
    let painted = drawn(&view);
    let face = vec![
        // upper left half
        cell(1, 1, '.'),
        cell(2, 1, '.'),
        cell(3, 1, '.'),
        cell(1, 2, '.'),
        cell(2, 2, '.'),
        cell(1, 3, '.'),
        // lower right half
        cell(3, 1, '.'),
        cell(2, 2, '.'),
        cell(3, 2, '.'),
        cell(1, 3, '.'),
        cell(2, 3, '.'),
        cell(3, 3, '.'),
    ];
    assert_eq!(painted[..face.len()].to_vec(), face);
    let outline = vec![
        cell(1, 0, '#'),
        cell(2, 0, '#'),
        cell(3, 0, '#'),
        cell(1, 4, '#'),
        cell(2, 4, '#'),
        cell(3, 4, '#'),
        cell(0, 0, '#'),
        cell(0, 1, '#'),
        cell(0, 2, '#'),
        cell(0, 3, '#'),
        cell(0, 4, '#'),
        cell(4, 0, '#'),
        cell(4, 1, '#'),
        cell(4, 2, '#'),
        cell(4, 3, '#'),
        cell(4, 4, '#'),
    ];
    assert_eq!(painted[face.len()..].to_vec(), outline);
}

#[test]
fn wall_is_drawn_the_same_from_either_pillar_but_for_the_order_of_the_pillars() {
    let left = pillar(2, 1, 9);
    let right = pillar(8, 3, 7);
    let one = drawn(&wall(left, right, 1));
    let other = drawn(&wall(right, left, 1));
    assert_eq!(one.len(), other.len());

    // the face does not depend on the order of the pillars
    let mut face = Vec::new();
    let top_left = Coordinate { row: 2, col: 3 };
    let bottom_left = Coordinate { row: 8, col: 3 };
    let top_right = Coordinate { row: 4, col: 7 };
    let bottom_right = Coordinate { row: 6, col: 7 };
    assert!(fill_triangle(&mut face, top_left, bottom_left, top_right, '.').is_ok());
    assert!(fill_triangle(&mut face, bottom_left, top_right, bottom_right, '.').is_ok());
    assert_eq!(one[..face.len()].to_vec(), face);
    assert_eq!(other[..face.len()].to_vec(), face);

    // the outline takes the pillars as they are given
    let mut outline = Vec::new();
    draw_line(&mut outline, right.line_top(), right.line_bottom(), '#');
    draw_line(&mut outline, left.line_top(), left.line_bottom(), '#');
    draw_line(&mut outline, right.line_top(), left.line_top(), '#');
    draw_line(&mut outline, right.line_bottom(), left.line_bottom(), '#');
    assert_eq!(other[face.len()..].to_vec(), outline);
}

#[test]
fn pillars_three_columns_apart_are_the_first_with_a_face() {
    let narrow = drawn(&wall(pillar(0, 0, 4), pillar(2, 0, 4), 1));
    assert!(narrow.iter().all(|paint| paint.glyph == '#'));
    let wide = drawn(&wall(pillar(0, 0, 4), pillar(3, 0, 4), 1));
    assert_eq!(wide[0], cell(1, 1, '.'));
    assert!(wide.iter().any(|paint| paint.glyph == '.'));
}

#[test]
fn paint_order_goes_from_far_to_near() {
    let shape = wall(pillar(0, 0, 4), pillar(4, 0, 4), 0);
    let walls = vec![
        WallView { depth: 5, ..shape },
        WallView { depth: 9, ..shape },
        WallView { depth: 5, ..shape },
        hidden(WallView { depth: 7, ..shape }),
        WallView { depth: 1, ..shape },
    ];
    assert_eq!(paint_order(&walls), vec![1, 2, 0, 4]);
}

#[test]
fn paint_order_of_nothing_in_view_is_empty() {
    let shape = hidden(wall(pillar(0, 0, 4), pillar(4, 0, 4), 3));
    assert_eq!(paint_order(&vec![shape, shape]), Vec::<usize>::new());
    assert_eq!(paint_order(&vec![]), Vec::<usize>::new());
}

#[test]
fn frame_paints_the_farther_wall_first() {
    let near = wall(pillar(0, 0, 6), pillar(6, 0, 6), 10);
    let far = wall(pillar(2, 2, 4), pillar(5, 2, 4), 20);
    let unseen = hidden(wall(pillar(1, 1, 5), pillar(9, 1, 5), 30));
    let scene = Scene::with_dimensions(8, 10);

    let mut expected = drawn(&far);
    let far_cells = expected.len();
    expected.extend(drawn(&near));

    assert_eq!(scene.render_frame(&vec![near, unseen, far]), expected);
    assert_eq!(scene.render_frame(&vec![far, near, unseen]), expected);
    assert!(far_cells > 0 && far_cells < expected.len());
}

#[test]
fn frame_of_walls_equally_far_paints_the_later_one_first() {
    let first = wall(pillar(0, 0, 4), pillar(2, 0, 4), 5);
    let second = wall(pillar(3, 1, 3), pillar(5, 1, 3), 5);
    let scene = Scene::with_dimensions(8, 10);
    let mut expected = drawn(&second);
    expected.extend(drawn(&first));
    assert_eq!(scene.render_frame(&vec![first, second]), expected);
}

#[test]
fn frame_without_walls_is_empty() {
    let scene = Scene::with_dimensions(8, 10);
    assert_eq!(scene.render_frame(&vec![]), vec![]);
}
