//! Composing a frame: which walls are drawn, in what order, and with which
//! cells.
//!
//! The composer works on walls that are already projected: for each of the
//! two pillars of a wall the screen column and the rows of its top and
//! bottom, whether the viewer sees the pillar, and for the wall one number
//! that grows with its distance from the viewer. From these it culls the
//! walls out of view, orders the rest back to front, so that a nearer wall
//! is drawn over a farther one, and draws each as a filled face inside an
//! outline.

use vstd::prelude::*;
use crate::draw_2d::{
    draw_line, fill_triangle, line_paints, triangle_paints, Coordinate, Paint,
};

verus! {

/// The glyph of a wall's four edges.
pub const OUTLINE_GLYPH: char = '#';

/// The glyph of a wall's face.
pub const FACE_GLYPH: char = '.';

/// Where a pillar stands on the screen: one column, from `top_row` down to
/// `bottom_row`.
#[derive(Copy, Clone, Debug, PartialEq, Eq, Structural)]
pub struct PillarCoords {
    pub column: i32,
    pub top_row: i32,
    pub bottom_row: i32,
}

/// A wall as the viewer has it: its two pillars on the screen, which of them
/// the viewer sees, and how far away the wall is. `depth` may be any measure
/// that is larger for the farther of two walls.
#[derive(Copy, Clone, Debug, PartialEq, Eq, Structural)]
pub struct WallView {
    pub pillar1: PillarCoords,
    pub pillar2: PillarCoords,
    pub pillar1_seen: bool,
    pub pillar2_seen: bool,
    pub depth: u64,
}

/// The screen a frame is composed for.
pub struct Scene {
    screen_rows: i32,
    screen_cols: i32,
}

impl PillarCoords {
    /// The topmost cell of the pillar.
    pub open spec fn spec_line_top(self) -> Coordinate {
        Coordinate { row: self.top_row, col: self.column }
    }

    /// The bottommost cell of the pillar.
    pub open spec fn spec_line_bottom(self) -> Coordinate {
        Coordinate { row: self.bottom_row, col: self.column }
    }

    /// The pillar's top can move a row down and its bottom a row up, as the
    /// inset of a wall's face needs.
    pub open spec fn spec_can_inset(self) -> bool {
        self.top_row < i32::MAX && self.bottom_row > i32::MIN
    }

    /// The topmost cell of the pillar.
    #[verifier::when_used_as_spec(spec_line_top)]
    pub fn line_top(self) -> (cell: Coordinate)
        ensures
            cell == self.spec_line_top(),
    {
        Coordinate { row: self.top_row, col: self.column }
    }

    /// The bottommost cell of the pillar.
    #[verifier::when_used_as_spec(spec_line_bottom)]
    pub fn line_bottom(self) -> (cell: Coordinate)
        ensures
            cell == self.spec_line_bottom(),
    {
        Coordinate { row: self.bottom_row, col: self.column }
    }

    /// Whether the pillar's top can move a row down and its bottom a row up.
    #[verifier::when_used_as_spec(spec_can_inset)]
    pub fn can_inset(self) -> (fits: bool)
        ensures
            fits == self.spec_can_inset(),
    {
        self.top_row < i32::MAX && self.bottom_row > i32::MIN
    }
}

/// The cell `rows` below and `cols` right of `cell`.
pub open spec fn shifted(cell: Coordinate, rows: int, cols: int) -> Coordinate {
    Coordinate { row: (cell.row + rows) as i32, col: (cell.col + cols) as i32 }
}

/// The pillar of the smaller column; the first where the columns are equal.
pub open spec fn left_pillar(wall: WallView) -> PillarCoords {
    if wall.pillar1.column <= wall.pillar2.column {
        wall.pillar1
    } else {
        wall.pillar2
    }
}

/// The pillar of the larger column; the second where the columns are equal.
pub open spec fn right_pillar(wall: WallView) -> PillarCoords {
    if wall.pillar1.column <= wall.pillar2.column {
        wall.pillar2
    } else {
        wall.pillar1
    }
}

/// The face of a wall: nothing unless the pillars are more than two columns
/// apart, else the two triangles that cover the wall one cell inside its
/// outline.
pub open spec fn face_paints(wall: WallView) -> Seq<Paint> {
    let left = left_pillar(wall);
    let right = right_pillar(wall);
    if right.column - left.column > 2 {
        let top_left = shifted(left.line_top(), 1, 1);
        let bottom_left = shifted(left.line_bottom(), -1, 1);
        let top_right = shifted(right.line_top(), 1, -1);
        let bottom_right = shifted(right.line_bottom(), -1, -1);
        triangle_paints(top_left, bottom_left, top_right, FACE_GLYPH) + triangle_paints(
            bottom_left,
            top_right,
            bottom_right,
            FACE_GLYPH,
        )
    } else {
        Seq::empty()
    }
}

/// The four edges of a wall: its two pillars, then its top, then its bottom.
pub open spec fn outline_paints(wall: WallView) -> Seq<Paint> {
    line_paints(wall.pillar1.line_top(), wall.pillar1.line_bottom(), OUTLINE_GLYPH) + line_paints(
        wall.pillar2.line_top(),
        wall.pillar2.line_bottom(),
        OUTLINE_GLYPH,
    ) + line_paints(wall.pillar1.line_top(), wall.pillar2.line_top(), OUTLINE_GLYPH) + line_paints(
        wall.pillar1.line_bottom(),
        wall.pillar2.line_bottom(),
        OUTLINE_GLYPH,
    )
}

/// Everything drawn for one wall: the face, then the outline over it.
pub open spec fn wall_paints(wall: WallView) -> Seq<Paint> {
    face_paints(wall) + outline_paints(wall)
}

impl WallView {
    /// A wall is in view where the viewer sees at least one of its pillars.
    pub open spec fn spec_in_camera_view(&self) -> bool {
        self.pillar1_seen || self.pillar2_seen
    }

    /// The wall can be drawn: where its pillars are far enough apart for a
    /// face, both leave room for the inset of the face.
    pub open spec fn spec_drawable(&self) -> bool {
        right_pillar(*self).column - left_pillar(*self).column > 2 ==> self.pillar1.can_inset()
            && self.pillar2.can_inset()
    }

    /// Whether the wall is in view: whether the viewer sees at least one of
    /// its pillars. A wall whose pillars are both out of sight counts as out
    /// of view even where its middle crosses the field of view.
    #[verifier::when_used_as_spec(spec_in_camera_view)]
    pub fn in_camera_view(&self) -> (seen: bool)
        ensures
            seen == self.spec_in_camera_view(),
    {
        self.pillar1_seen || self.pillar2_seen
    }

    /// Whether the wall can be drawn: whether it has no face or both pillars
    /// leave room for the inset of the face.
    #[verifier::when_used_as_spec(spec_drawable)]
    pub fn drawable(&self) -> (fits: bool)
        ensures
            fits == self.spec_drawable(),
    {
        let apart: i64 = if self.pillar1.column <= self.pillar2.column {
            self.pillar2.column as i64 - self.pillar1.column as i64
        } else {
            self.pillar1.column as i64 - self.pillar2.column as i64
        };
        apart <= 2 || (self.pillar1.can_inset() && self.pillar2.can_inset())
    }
}

/// Fills the face of a wall where its pillars are far enough apart.
fn draw_face(canvas: &mut Vec<Paint>, wall: &WallView)
    requires
        wall.drawable(),
    ensures
        final(canvas)@ == old(canvas)@ + face_paints(*wall),
{
    let (left, right) = if wall.pillar1.column <= wall.pillar2.column {
        (wall.pillar1, wall.pillar2)
    } else {
        (wall.pillar2, wall.pillar1)
    };
    // A face needs room between the pillars
    if right.column as i64 - left.column as i64 > 2 {
        let top_left_fillshift = left.line_top().coord_shift(1, 1);
        let bottom_left_fillshift = left.line_bottom().coord_shift(-1, 1);
        let top_right_fillshift = right.line_top().coord_shift(1, -1);
        let bottom_right_fillshift = right.line_bottom().coord_shift(-1, -1);
        let upper_left = fill_triangle(
            canvas,
            top_left_fillshift,
            bottom_left_fillshift,
            top_right_fillshift,
            FACE_GLYPH,
        );
        let lower_right = fill_triangle(
            canvas,
            bottom_left_fillshift,
            top_right_fillshift,
            bottom_right_fillshift,
            FACE_GLYPH,
        );
        // There is no failure to report: `fill_triangle` fills every triangle
        assert(upper_left is Ok && lower_right is Ok);
    }
}

/// Draws the four edges of a wall.
fn draw_outline(canvas: &mut Vec<Paint>, wall: &WallView)
    ensures
        final(canvas)@ == old(canvas)@ + outline_paints(*wall),
{
    let pillar1 = wall.pillar1;
    let pillar2 = wall.pillar2;
    draw_line(canvas, pillar1.line_top(), pillar1.line_bottom(), OUTLINE_GLYPH);
    draw_line(canvas, pillar2.line_top(), pillar2.line_bottom(), OUTLINE_GLYPH);
    draw_line(canvas, pillar1.line_top(), pillar2.line_top(), OUTLINE_GLYPH);
    draw_line(canvas, pillar1.line_bottom(), pillar2.line_bottom(), OUTLINE_GLYPH);
}

/// Draws one wall: the face where the pillars are far enough apart, then the
/// outline.
pub fn draw_wall(canvas: &mut Vec<Paint>, wall: &WallView)
    requires
        wall.drawable(),
    ensures
        final(canvas)@ == old(canvas)@ + wall_paints(*wall),
{
    let ghost before = canvas@;
    draw_face(canvas, wall);
    draw_outline(canvas, wall);
    assert(before + face_paints(*wall) + outline_paints(*wall) =~= before + (face_paints(*wall)
        + outline_paints(*wall)));
}

/// `order` is the painting order of `walls`: it lists the walls in view, and
/// no others, from the farthest to the nearest; of two walls equally far the
/// one given later comes first. A wall is named by its place in `walls`.
pub open spec fn is_paint_order(order: Seq<usize>, walls: Seq<WallView>) -> bool {
    &&& forall|p: int|
        0 <= p < order.len() ==> (#[trigger] order[p]) < walls.len()
            && walls[order[p] as int].in_camera_view()
    &&& forall|i: int|
        0 <= i < walls.len() && (#[trigger] walls[i]).in_camera_view() ==> exists|p: int|
            0 <= p < order.len() && #[trigger] order[p] == i
    &&& forall|p: int, q: int|
        0 <= p < q < order.len() ==> painted_before(
            walls,
            #[trigger] order[p] as int,
            #[trigger] order[q] as int,
        )
}

/// Wall `i` is due before wall `j`: it is farther away, or as far and later
/// in the list.
pub open spec fn painted_before(walls: Seq<WallView>, i: int, j: int) -> bool {
    walls[i].depth > walls[j].depth || (walls[i].depth == walls[j].depth && i > j)
}

/// The walls in view, by their places in `walls`, in the order in which they
/// are to be painted: back to front.
pub fn paint_order(walls: &Vec<WallView>) -> (order: Vec<usize>)
    ensures
        is_paint_order(order@, walls@),
        order@ == painting_order(walls@),
{
    let mut order: Vec<usize> = Vec::new();
    let mut next: usize = 0;
    while next < walls.len()
        invariant
            next <= walls.len(),
            is_paint_order(order@, walls@.take(next as int)),
        decreases walls.len() - next,
    {
        let ghost seen_now = walls@.take(next + 1);
        assert(seen_now.drop_last() =~= walls@.take(next as int));
        if walls[next].in_camera_view() {
            // The wall goes behind the walls that are farther and before all others
            let depth = walls[next].depth;
            let mut place: usize = 0;
            while place < order.len() && walls[order[place]].depth > depth
                invariant
                    place <= order.len(),
                    next < walls.len(),
                    depth == walls[next as int].depth,
                    is_paint_order(order@, walls@.take(next as int)),
                    forall|p: int|
                        0 <= p < place ==> walls[(#[trigger] order[p]) as int].depth > depth,
                decreases order.len() - place,
            {
                place = place + 1;
            }
            proof {
                lemma_wall_put_in_place(order@, seen_now, place as int);
            }
            order.insert(place, next);
        } else {
            proof {
                lemma_wall_left_out(order@, seen_now);
            }
        }
        next = next + 1;
    }
    assert(walls@.take(next as int) =~= walls@);
    proof {
        lemma_paint_order_is_unique(order@, painting_order(walls@), walls@);
    }
    order
}

/// The one painting order of `walls` (see [`is_paint_order`]).
pub open spec fn painting_order(walls: Seq<WallView>) -> Seq<usize> {
    choose|order: Seq<usize>| is_paint_order(order, walls)
}

/// A painting order stays one when a wall out of view joins the list.
proof fn lemma_wall_left_out(order: Seq<usize>, walls: Seq<WallView>)
    requires
        walls.len() > 0,
        !walls.last().in_camera_view(),
        is_paint_order(order, walls.drop_last()),
    ensures
        is_paint_order(order, walls),
{
    let fewer = walls.drop_last();
    assert forall|i: int|
        0 <= i < walls.len() && (#[trigger] walls[i]).in_camera_view() implies exists|p: int|
        0 <= p < order.len() && #[trigger] order[p] == i by {
        assert(fewer[i].in_camera_view());
    }
    assert forall|p: int| 0 <= p < order.len() implies (#[trigger] order[p]) < walls.len()
        && walls[order[p] as int].in_camera_view() by {
        assert(fewer[order[p] as int].in_camera_view());
    }
    assert forall|p: int, q: int| 0 <= p < q < order.len() implies painted_before(
        walls,
        #[trigger] order[p] as int,
        #[trigger] order[q] as int,
    ) by {
        assert(painted_before(fewer, order[p] as int, order[q] as int));
    }
}

/// A painting order stays one when a wall in view joins the list and goes
/// into the order behind the walls that are farther and before all others.
proof fn lemma_wall_put_in_place(order: Seq<usize>, walls: Seq<WallView>, place: int)
    requires
        0 < walls.len() <= usize::MAX + 1,
        walls.last().in_camera_view(),
        is_paint_order(order, walls.drop_last()),
        0 <= place <= order.len(),
        forall|p: int|
            0 <= p < place ==> walls[(#[trigger] order[p]) as int].depth > walls.last().depth,
        place < order.len() ==> walls[order[place] as int].depth <= walls.last().depth,
    ensures
        is_paint_order(order.insert(place, (walls.len() - 1) as usize), walls),
{
    let fewer = walls.drop_last();
    let next = walls.len() - 1;
    let longer = order.insert(place, next as usize);
    assert forall|p: int| 0 <= p < longer.len() implies (#[trigger] longer[p]) < walls.len()
        && walls[longer[p] as int].in_camera_view() by {
        if p != place {
            let before = if p < place {
                p
            } else {
                p - 1
            };
            assert(longer[p] == order[before]);
            assert(fewer[order[before] as int].in_camera_view());
        }
    }
    assert forall|i: int|
        0 <= i < walls.len() && (#[trigger] walls[i]).in_camera_view() implies exists|p: int|
        0 <= p < longer.len() && #[trigger] longer[p] == i by {
        if i == next {
            assert(longer[place] == i);
        } else {
            // a wall listed before keeps its place or moves one place back
            assert(fewer[i].in_camera_view());
            let p = choose|p: int| 0 <= p < order.len() && #[trigger] order[p] == i;
            assert(longer[if p < place {
                p
            } else {
                p + 1
            }] == i);
        }
    }
    assert forall|p: int, q: int| 0 <= p < q < longer.len() implies painted_before(
        walls,
        #[trigger] longer[p] as int,
        #[trigger] longer[q] as int,
    ) by {
        if q == place {
            // all before the new wall are farther
            assert(longer[p] == order[p]);
        } else if p == place {
            // the wall that stood in this place is no farther, and so is none after it
            assert(longer[q] == order[q - 1]);
            assert(order[q - 1] < fewer.len());
            assert(q - 1 == place || painted_before(
                fewer,
                order[place] as int,
                order[q - 1] as int,
            ));
        } else {
            // two walls that were listed before
            let was_p = if p < place {
                p
            } else {
                p - 1
            };
            let was_q = if q < place {
                q
            } else {
                q - 1
            };
            assert(longer[p] == order[was_p] && longer[q] == order[was_q]);
            assert(painted_before(fewer, order[was_p] as int, order[was_q] as int));
        }
    }
}

/// How many walls at the head of `order` are farther than `depth`.
pub open spec fn farther_walls(order: Seq<usize>, walls: Seq<WallView>, depth: u64) -> int
    decreases order.len(),
{
    if order.len() == 0 || walls[order[0] as int].depth <= depth {
        0
    } else {
        1 + farther_walls(order.drop_first(), walls, depth)
    }
}

/// The walls counted by [`farther_walls`] are farther, and the wall after
/// them is not.
proof fn lemma_farther_walls(order: Seq<usize>, walls: Seq<WallView>, depth: u64)
    ensures
        0 <= farther_walls(order, walls, depth) <= order.len(),
        forall|p: int|
            0 <= p < farther_walls(order, walls, depth) ==> walls[(#[trigger] order[p]) as int].depth
                > depth,
        farther_walls(order, walls, depth) < order.len() ==> walls[order[farther_walls(
            order,
            walls,
            depth,
        )] as int].depth <= depth,
    decreases order.len(),
{
    if order.len() > 0 && walls[order[0] as int].depth > depth {
        let rest = order.drop_first();
        lemma_farther_walls(rest, walls, depth);
        assert forall|p: int| 0 <= p < farther_walls(order, walls, depth) implies walls[(
        #[trigger] order[p]) as int].depth > depth by {
            if p > 0 {
                assert(order[p] == rest[p - 1]);
            }
        }
        if farther_walls(order, walls, depth) < order.len() {
            assert(order[farther_walls(order, walls, depth)] == rest[farther_walls(
                rest,
                walls,
                depth,
            )]);
        }
    }
}

/// Every list of walls that a vector can hold has a painting order.
pub proof fn lemma_paint_order_exists(walls: Seq<WallView>)
    requires
        walls.len() <= usize::MAX,
    ensures
        is_paint_order(painting_order(walls), walls),
    decreases walls.len(),
{
    if walls.len() == 0 {
        assert(is_paint_order(Seq::<usize>::empty(), walls));
    } else {
        let fewer = walls.drop_last();
        lemma_paint_order_exists(fewer);
        let order = painting_order(fewer);
        if walls.last().in_camera_view() {
            let place = farther_walls(order, walls, walls.last().depth);
            lemma_farther_walls(order, walls, walls.last().depth);
            lemma_wall_put_in_place(order, walls, place);
        } else {
            lemma_wall_left_out(order, walls);
        }
    }
}

/// No list of walls has two painting orders.
pub proof fn lemma_paint_order_is_unique(
    order: Seq<usize>,
    other: Seq<usize>,
    walls: Seq<WallView>,
)
    requires
        is_paint_order(order, walls),
        is_paint_order(other, walls),
    ensures
        order == other,
{
    lemma_paint_orders_agree(order, other, walls, order.len() as int);
    lemma_paint_orders_agree(other, order, walls, other.len() as int);
    lemma_no_room_for_more(order, other, walls);
    lemma_no_room_for_more(other, order, walls);
    assert(order =~= other);
}

/// Two painting orders of one list agree as far as both reach.
proof fn lemma_paint_orders_agree(
    order: Seq<usize>,
    other: Seq<usize>,
    walls: Seq<WallView>,
    upto: int,
)
    requires
        is_paint_order(order, walls),
        is_paint_order(other, walls),
        0 <= upto <= order.len(),
    ensures
        forall|p: int| 0 <= p < upto && p < other.len() ==> order[p] == other[p],
    decreases upto,
{
    if upto > 0 {
        lemma_paint_orders_agree(order, other, walls, upto - 1);
        let p = upto - 1;
        if p < other.len() && order[p] != other[p] {
            // Each order has the other's wall of place `p` somewhere, and not
            // before `p`, where the two agree. So each of the two walls is due
            // before the other, which cannot be.
            let mine = order[p] as int;
            let theirs = other[p] as int;
            let r = choose|r: int| 0 <= r < other.len() && #[trigger] other[r] == mine;
            let t = choose|t: int| 0 <= t < order.len() && #[trigger] order[t] == theirs;
            if r < p {
                assert(painted_before(walls, order[r] as int, order[p] as int));
            } else if t < p {
                assert(painted_before(walls, other[t] as int, other[p] as int));
            } else {
                assert(painted_before(walls, other[p] as int, other[r] as int));
                assert(painted_before(walls, order[p] as int, order[t] as int));
            }
        }
    }
}

/// A painting order that agrees with a shorter one all along the shorter
/// one cannot be longer.
proof fn lemma_no_room_for_more(short: Seq<usize>, long: Seq<usize>, walls: Seq<WallView>)
    requires
        is_paint_order(short, walls),
        is_paint_order(long, walls),
        forall|p: int| 0 <= p < short.len() && p < long.len() ==> short[p] == long[p],
    ensures
        long.len() <= short.len(),
{
    if short.len() < long.len() {
        // The first wall past the end of the shorter order is in view, so
        // the shorter order has it too, and the longer one has it twice.
        let extra = long[short.len() as int] as int;
        let r = choose|r: int| 0 <= r < short.len() && #[trigger] short[r] == extra;
        assert(painted_before(walls, long[r] as int, long[short.len() as int] as int));
    }
}

/// Everything drawn for the walls that `order` names, wall after wall.
pub open spec fn frame_paints(order: Seq<usize>, walls: Seq<WallView>) -> Seq<Paint>
    decreases order.len(),
{
    if order.len() == 0 {
        Seq::empty()
    } else {
        frame_paints(order.drop_last(), walls) + wall_paints(walls[order.last() as int])
    }
}

/// How many cells are written before the wall in place `p` of `order` has its
/// turn.
pub open spec fn paints_before(order: Seq<usize>, walls: Seq<WallView>, p: int) -> int {
    frame_paints(order.take(p), walls).len() as int
}

/// The frame holds the cells of the wall in place `p` of `order` in one
/// piece, right after the cells of the walls in the places before `p`.
pub proof fn lemma_wall_segment(order: Seq<usize>, walls: Seq<WallView>, p: int)
    requires
        0 <= p < order.len(),
    ensures
        paints_before(order, walls, p + 1) == paints_before(order, walls, p) + wall_paints(
            walls[order[p] as int],
        ).len(),
        paints_before(order, walls, p + 1) <= frame_paints(order, walls).len(),
        frame_paints(order, walls).subrange(
            paints_before(order, walls, p),
            paints_before(order, walls, p + 1),
        ) == wall_paints(walls[order[p] as int]),
    decreases order.len(),
{
    let shorter = order.drop_last();
    assert(order.take(p + 1).drop_last() =~= order.take(p));
    if p == order.len() - 1 {
        assert(order.take(p + 1) =~= order);
        assert(frame_paints(order, walls).subrange(
            paints_before(order, walls, p),
            paints_before(order, walls, p + 1),
        ) =~= wall_paints(walls[order[p] as int]));
    } else {
        lemma_wall_segment(shorter, walls, p);
        assert(shorter.take(p) =~= order.take(p));
        assert(shorter.take(p + 1) =~= order.take(p + 1));
        assert(frame_paints(order, walls).subrange(
            paints_before(order, walls, p),
            paints_before(order, walls, p + 1),
        ) =~= frame_paints(shorter, walls).subrange(
            paints_before(order, walls, p),
            paints_before(order, walls, p + 1),
        ));
    }
}

/// The later a wall's place in `order`, the later its cells in the frame.
pub proof fn lemma_segments_in_order(order: Seq<usize>, walls: Seq<WallView>, p: int, q: int)
    requires
        0 <= p <= q <= order.len(),
    ensures
        paints_before(order, walls, p) <= paints_before(order, walls, q),
    decreases q - p,
{
    if p < q {
        lemma_segments_in_order(order, walls, p, q - 1);
        lemma_wall_segment(order, walls, q - 1);
    }
}

/// Back to front: of two walls in view, the farther one is painted first.
/// Each of the two has its cells in the frame in one piece, and the piece
/// of the farther wall ends before the piece of the nearer wall begins, so
/// that the nearer wall overdraws the farther one wherever they share a
/// cell.
pub proof fn law_farther_wall_is_painted_first(walls: Seq<WallView>, far: int, near: int)
    requires
        walls.len() <= usize::MAX,
        0 <= far < walls.len(),
        0 <= near < walls.len(),
        walls[far].in_camera_view(),
        walls[near].in_camera_view(),
        walls[far].depth > walls[near].depth,
    ensures
        ({
            let order = painting_order(walls);
            let frame = frame_paints(order, walls);
            exists|p: int, q: int|
                {
                    &&& 0 <= p < q < order.len()
                    &&& #[trigger] order[p] == far
                    &&& #[trigger] order[q] == near
                    &&& frame.subrange(
                        paints_before(order, walls, p),
                        paints_before(order, walls, p + 1),
                    ) == wall_paints(walls[far])
                    &&& frame.subrange(
                        paints_before(order, walls, q),
                        paints_before(order, walls, q + 1),
                    ) == wall_paints(walls[near])
                    &&& paints_before(order, walls, p + 1) <= paints_before(order, walls, q)
                    &&& paints_before(order, walls, q + 1) <= frame.len()
                }
        }),
{
    lemma_paint_order_exists(walls);
    let order = painting_order(walls);
    let p = choose|p: int| 0 <= p < order.len() && #[trigger] order[p] == far;
    let q = choose|q: int| 0 <= q < order.len() && #[trigger] order[q] == near;
    if q < p {
        // then the nearer wall would be due before the farther one
        assert(painted_before(walls, order[q] as int, order[p] as int));
    }
    lemma_wall_segment(order, walls, p);
    lemma_wall_segment(order, walls, q);
    lemma_segments_in_order(order, walls, p + 1, q);
}

impl Scene {
    /// The scene for a screen of the given numbers of rows and columns.
    pub fn with_dimensions(screen_rows: i32, screen_cols: i32) -> (scene: Scene)
        ensures
            scene.rows() == screen_rows,
            scene.cols() == screen_cols,
    {
        Scene { screen_rows, screen_cols }
    }

    /// The number of rows of the screen.
    pub closed spec fn rows(&self) -> i32 {
        self.screen_rows
    }

    /// The number of columns of the screen.
    pub closed spec fn cols(&self) -> i32 {
        self.screen_cols
    }

    /// Composes one frame from the walls as the viewer has them: the walls
    /// in view, drawn one after the other from the farthest to the nearest.
    /// The frame is meant for a cleared display.
    pub fn render_frame(&self, walls: &Vec<WallView>) -> (frame: Vec<Paint>)
        requires
            forall|i: int|
                0 <= i < walls.len() && (#[trigger] walls[i]).in_camera_view()
                    ==> walls[i].drawable(),
        ensures
            is_paint_order(painting_order(walls@), walls@),
            frame@ == frame_paints(painting_order(walls@), walls@),
    {
        let order = paint_order(walls);
        let mut frame: Vec<Paint> = Vec::new();
        let mut turn: usize = 0;
        while turn < order.len()
            invariant
                turn <= order.len(),
                is_paint_order(order@, walls@),
                forall|i: int|
                    0 <= i < walls.len() && (#[trigger] walls[i]).in_camera_view()
                        ==> walls[i].drawable(),
                frame@ == frame_paints(order@.take(turn as int), walls@),
            decreases order.len() - turn,
        {
            let wall = &walls[order[turn]];
            draw_wall(&mut frame, wall);
            proof {
                assert(order@.take(turn + 1).drop_last() =~= order@.take(turn as int));
            }
            turn = turn + 1;
        }
        assert(order@.take(turn as int) =~= order@);
        frame
    }

    /// The row in the middle of the screen, where the horizon lies: half
    /// the number of rows, rounded toward zero.
    pub fn half_rows(&self) -> (middle: i32)
        ensures
            self.rows() >= 0 ==> middle == self.rows() / 2,
            self.rows() < 0 ==> middle == -((-self.rows()) / 2),
    {
        self.screen_rows / 2
    }

    /// The column in the middle of the screen, where the viewer looks: half
    /// the number of columns, rounded toward zero.
    pub fn half_cols(&self) -> (middle: i32)
        ensures
            self.cols() >= 0 ==> middle == self.cols() / 2,
            self.cols() < 0 ==> middle == -((-self.cols()) / 2),
    {
        self.screen_cols / 2
    }

    /// The number of rows of the screen.
    pub fn screen_rows(&self) -> (rows: i32)
        ensures
            rows == self.rows(),
    {
        self.screen_rows
    }

    /// The number of columns of the screen.
    pub fn screen_cols(&self) -> (cols: i32)
        ensures
            cols == self.cols(),
    {
        self.screen_cols
    }
}

} // verus!
