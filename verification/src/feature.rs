//! Features carved into the grid: straight corridors and bordered rooms.
//! Each feature is validated read-only against the grid (`rectify`) and, only
//! if valid, committed by writing its cells (`create`).

use crate::grid::{CellType, DirectionX, DirectionY, Grid};
use crate::Point;
use vstd::prelude::*;

verus! {

/// Coordinates the geometry works with. Keeping them away from the extremes
/// of `i32` lets every derived cell (a flank, a diagonal past an end) be
/// computed without overflow.
pub open spec fn coord_ok(x: int) -> bool {
    -0x3fff_ffff <= x <= 0x3fff_ffff
}

/// Multiplying by a unit step (-1, 0 or 1) is sign selection; these are the
/// facts the walk proofs need about such products.
proof fn lemma_mul_unit(i: int, d: int)
    by (nonlinear_arith)
    requires
        -1 <= d <= 1,
    ensures
        d == 0 ==> i * d == 0,
        d == 1 ==> i * d == i,
        d == -1 ==> i * d == -i,
        (i + 1) * d == i * d + d,
        (i - 1) * d == i * d - d,
{
}

/// Relies on rand::thread_rng and rand::Rng::gen_range over `min..max`:
/// on a non-empty half-open range, gen_range returns a uniform draw that
/// lies within the range (it panics on an empty one, which the
/// precondition rules out).
#[verifier::external_body]
fn sample_range(min: i32, max: i32) -> (r: i32)
    requires
        min < max,
    ensures
        min <= r < max,
{
    rand::Rng::gen_range(&mut rand::thread_rng(), min..max)
}

/// Bounds for a randomly drawn corridor length: `min_length` inclusive,
/// `max_length` exclusive.
pub struct CorridorOptions {
    pub min_length: i32,
    pub max_length: i32,
}

/// Bounds for randomly drawn room dimensions, each `min` inclusive and `max`
/// exclusive.
pub struct RoomOptions {
    pub min_width: i32,
    pub max_width: i32,
    pub min_height: i32,
    pub max_height: i32,
}

/// A straight, axis-aligned corridor from `start` to `end`, inclusive.
/// `ends_with_wall` is computed during validation: whether the cell one step
/// past the (possibly truncated) end is a wall.
pub struct Corridor {
    pub start: Point,
    pub end: Point,
    pub ends_with_wall: bool,
}

impl Corridor {
    /// A corridor between two points. Validation fills in `ends_with_wall`.
    pub fn new(start: Point, end: Point) -> (c: Corridor)
        ensures
            c.start == start,
            c.end == end,
            !c.ends_with_wall,
    {
        Corridor { start, end, ends_with_wall: false }
    }

    /// Unit step of the corridor along `x`: the sign of `end.x - start.x`.
    pub open spec fn dir_x(self) -> int {
        let d = self.end.x - self.start.x;
        if d > 0 {
            1
        } else if d < 0 {
            -1
        } else {
            0
        }
    }

    /// Unit step of the corridor along `y`: the sign of `end.y - start.y`.
    pub open spec fn dir_y(self) -> int {
        let d = self.end.y - self.start.y;
        if d > 0 {
            1
        } else if d < 0 {
            -1
        } else {
            0
        }
    }

    /// Number of tiles from `start` to `end` inclusive.
    pub open spec fn length(self) -> int {
        let ax = if self.end.x >= self.start.x {
            self.end.x - self.start.x
        } else {
            self.start.x - self.end.x
        };
        let ay = if self.end.y >= self.start.y {
            self.end.y - self.start.y
        } else {
            self.start.y - self.end.y
        };
        1 + if ax >= ay {
            ax
        } else {
            ay
        }
    }

    /// The corridor runs along one axis only.
    pub open spec fn straight(self) -> bool {
        self.start.x == self.end.x || self.start.y == self.end.y
    }

    /// Geometry the walk can work with: bounded coordinates, one axis.
    pub open spec fn wf(self) -> bool {
        &&& coord_ok(self.start.x as int)
        &&& coord_ok(self.start.y as int)
        &&& coord_ok(self.end.x as int)
        &&& coord_ok(self.end.y as int)
        &&& self.straight()
    }

    /// `x` of the tile `i` steps from `start`.
    pub open spec fn path_x(self, i: int) -> int {
        self.start.x + i * self.dir_x()
    }

    /// `y` of the tile `i` steps from `start`.
    pub open spec fn path_y(self, i: int) -> int {
        self.start.y + i * self.dir_y()
    }

    /// The coordinate lies on the corridor's tile path.
    pub open spec fn covers(self, x: int, y: int) -> bool {
        exists|i: int| 0 <= i < self.length() && x == self.path_x(i) && y == self.path_y(i)
    }

    /// Tile `i` of the walk passes validation: it can be dug and both cells
    /// flanking it across the corridor's axis are walls.
    pub open spec fn step_clear(self, g: Grid, i: int) -> bool {
        let x = self.path_x(i);
        let y = self.path_y(i);
        let nx = self.dir_y();
        let ny = -self.dir_x();
        &&& g.diggable(x, y)
        &&& g.wall_at(x + nx, y + ny)
        &&& g.wall_at(x - nx, y - ny)
    }

    /// Index at which the validation walk stops when started at tile `i`:
    /// the first blocked tile at or after `i`, or the full length if none is.
    pub open spec fn walk_stop_from(self, g: Grid, i: int) -> int
        decreases self.length() - i when i <= self.length()
    {
        if i >= self.length() {
            self.length()
        } else if !self.step_clear(g, i) {
            i
        } else {
            self.walk_stop_from(g, i + 1)
        }
    }

    /// Length the corridor is truncated to by validation: the tiles before
    /// the first blocked one.
    pub open spec fn trunc_len(self, g: Grid) -> int {
        self.walk_stop_from(g, 0)
    }

    /// `x` of the corridor's end after validation pulled it back.
    pub open spec fn final_end_x(self, g: Grid) -> int {
        if self.trunc_len(g) == self.length() {
            self.end.x as int
        } else {
            self.path_x(self.trunc_len(g) - 1)
        }
    }

    /// `y` of the corridor's end after validation pulled it back.
    pub open spec fn final_end_y(self, g: Grid) -> int {
        if self.trunc_len(g) == self.length() {
            self.end.y as int
        } else {
            self.path_y(self.trunc_len(g) - 1)
        }
    }

    /// The cell one step past the truncated end is a wall.
    pub open spec fn wall_past_end(self, g: Grid) -> bool {
        g.wall_at(self.final_end_x(g) + self.dir_x(), self.final_end_y(g) + self.dir_y())
    }

    /// Neither cell diagonally past the truncated end is a wall: the corridor
    /// would terminate into an open corner.
    pub open spec fn open_corner(self, g: Grid) -> bool {
        let ax = self.final_end_x(g) + self.dir_x();
        let ay = self.final_end_y(g) + self.dir_y();
        let nx = self.dir_y();
        let ny = -self.dir_x();
        !g.wall_at(ax + nx, ay + ny) && !g.wall_at(ax - nx, ay - ny)
    }

    /// Validation accepts the corridor: at least one tile survives the walk,
    /// a single surviving tile does not dead-end into a wall, and an open
    /// corner is tolerated only when a wall backs the end.
    pub open spec fn accepted(self, g: Grid) -> bool {
        let t = self.trunc_len(g);
        &&& t >= 1
        &&& !(t == 1 && self.wall_past_end(g))
        &&& !(self.open_corner(g) && !self.wall_past_end(g))
    }

    /// The `ends_with_wall` flag validation leaves behind: set once the walk
    /// survives the early rejections, untouched otherwise.
    pub open spec fn rectified_ends_with_wall(self, g: Grid) -> bool {
        let t = self.trunc_len(g);
        if t == 0 || (t == 1 && self.wall_past_end(g)) {
            self.ends_with_wall
        } else {
            self.wall_past_end(g)
        }
    }
}

/// Tiles of a well-formed corridor stay within one step of the box spanned
/// by `start` and `end`.
proof fn lemma_path_in_box(c: Corridor, i: int)
    requires
        c.wf(),
        0 <= i <= c.length(),
    ensures
        -0x4000_0000 <= c.path_x(i) <= 0x4000_0000,
        -0x4000_0000 <= c.path_y(i) <= 0x4000_0000,
        i < c.length() ==> coord_ok(c.path_x(i)) && coord_ok(c.path_y(i)),
{
    lemma_mul_unit(i, c.dir_x());
    lemma_mul_unit(i, c.dir_y());
}

/// The walk's stopping index lies between its start and the corridor's
/// length; every tile before it is clear, and the tile at it (if any) is not.
proof fn lemma_walk_props(c: Corridor, g: Grid, i: int)
    requires
        0 <= i <= c.length(),
    ensures
        i <= c.walk_stop_from(g, i) <= c.length(),
        forall|j: int| i <= j < c.walk_stop_from(g, i) ==> c.step_clear(g, j),
        c.walk_stop_from(g, i) < c.length() ==> !c.step_clear(g, c.walk_stop_from(g, i)),
    decreases c.length() - i,
{
    if i < c.length() && c.step_clear(g, i) {
        lemma_walk_props(c, g, i + 1);
    }
}

/// The stopping index is the only index with the walk's three properties.
proof fn lemma_walk_stop_eq(c: Corridor, g: Grid, s: int)
    requires
        0 <= s <= c.length(),
        forall|j: int| 0 <= j < s ==> c.step_clear(g, j),
        s < c.length() ==> !c.step_clear(g, s),
    ensures
        c.trunc_len(g) == s,
{
    lemma_walk_props(c, g, 0);
    let t = c.trunc_len(g);
    if t < s {
        assert(c.step_clear(g, t));
    } else if s < t {
        assert(c.step_clear(g, s));
    }
}

impl Corridor {
    /// Walk the corridor tile by tile and truncate it at the first tile that
    /// cannot be dug or lacks a wall on either flank; then reject it outright
    /// if nothing survived, if a single tile dead-ends into a wall, or if it
    /// would terminate into an open corner with no wall backing the end.
    /// Records whether a wall backs the (possibly pulled back) end.
    #[verifier::loop_isolation(false)]
    #[verifier::rlimit(30)]
    pub fn rectify(&mut self, g: &Grid) -> (r: bool)
        requires
            old(self).wf(),
        ensures
            final(self).start == old(self).start,
            final(self).end.x as int == old(self).final_end_x(*g),
            final(self).end.y as int == old(self).final_end_y(*g),
            final(self).ends_with_wall == old(self).rectified_ends_with_wall(*g),
            r == old(self).accepted(*g),
            r ==> final(self).wf() && final(self).length() == old(self).trunc_len(*g),
    {
        let ghost c0 = *old(self);
        let dist_x = self.end.x - self.start.x;
        let dist_y = self.end.y - self.start.y;
        let abs_x = if dist_x >= 0 {
            dist_x
        } else {
            -dist_x
        };
        let abs_y = if dist_y >= 0 {
            dist_y
        } else {
            -dist_y
        };
        let length = 1 + (if abs_x >= abs_y {
            abs_x
        } else {
            abs_y
        });
        let dir_x: i32 = if dist_x > 0 {
            1
        } else if dist_x < 0 {
            -1
        } else {
            0
        };
        let dir_y: i32 = if dist_y > 0 {
            1
        } else if dist_y < 0 {
            -1
        } else {
            0
        };
        let nx = dir_y;
        let ny = -dir_x;

        let mut i: i32 = 0;
        let mut x = self.start.x;
        let mut y = self.start.y;
        let mut blocked = false;
        while i < length && !blocked
            invariant
                0 <= i <= length,
                x as int == c0.path_x(i as int),
                y as int == c0.path_y(i as int),
                forall|j: int| 0 <= j < i ==> c0.step_clear(*g, j),
                blocked ==> i < length && !c0.step_clear(*g, i as int),
            decreases length - i + (if blocked { 0int } else { 1int }),
        {
            proof {
                lemma_mul_unit(i as int, c0.dir_x());
                lemma_mul_unit(i as int, c0.dir_y());
                lemma_path_in_box(c0, i as int);
            }
            let clear = g.can_dig(&Point { x, y }) && g.is_wall(&Point { x: x + nx, y: y + ny })
                && g.is_wall(&Point { x: x - nx, y: y - ny });
            if !clear {
                blocked = true;
            } else {
                i = i + 1;
                x = x + dir_x;
                y = y + dir_y;
                proof {
                    lemma_path_in_box(c0, i as int);
                }
            }
        }
        let stop = i;
        proof {
            lemma_walk_stop_eq(c0, *g, stop as int);
        }

        if stop < length {
            proof {
                lemma_mul_unit(stop as int, c0.dir_x());
                lemma_mul_unit(stop as int, c0.dir_y());
                lemma_mul_unit(stop as int - 1, c0.dir_x());
                lemma_mul_unit(stop as int - 1, c0.dir_y());
                lemma_path_in_box(c0, stop as int);
            }
            self.end.x = x - dir_x;
            self.end.y = y - dir_y;
        }

        if stop == 0 {
            return false;
        }
        proof {
            lemma_path_in_box(c0, stop as int - 1);
        }
        let ahead_x = self.end.x + dir_x;
        let ahead_y = self.end.y + dir_y;
        let ends_wall = g.is_wall(&Point { x: ahead_x, y: ahead_y });
        if stop == 1 && ends_wall {
            return false;
        }
        let diag_a = g.is_wall(&Point { x: ahead_x + nx, y: ahead_y + ny });
        let diag_b = g.is_wall(&Point { x: ahead_x - nx, y: ahead_y - ny });
        let corner_open = !diag_a && !diag_b;
        self.ends_with_wall = ends_wall;
        if corner_open && !ends_wall {
            return false;
        }
        proof {
            if stop < length {
                lemma_mul_unit(stop as int - 1, c0.dir_x());
                lemma_mul_unit(stop as int - 1, c0.dir_y());
            }
        }
        true
    }
}

impl Corridor {
    /// Commit the corridor: carve `Empty` at every tile from `start` to
    /// `end`. No walls are written; enclosure comes from the surrounding
    /// undug space or adjoining rooms. Cells off the path are untouched.
    #[verifier::loop_isolation(false)]
    #[verifier::rlimit(30)]
    pub fn create(&self, g: &mut Grid)
        requires
            self.wf(),
        ensures
            forall|i: int|
                0 <= i < self.length() ==> final(g)@.contains_key(
                    (self.path_x(i), self.path_y(i)),
                ) && final(g)@[(self.path_x(i), self.path_y(i))] is Empty,
            forall|x: int, y: int|
                !self.covers(x, y) ==> (final(g)@.contains_key((x, y)) == old(g)@.contains_key(
                    (x, y),
                ) && (old(g)@.contains_key((x, y)) ==> final(g)@[(x, y)] == old(g)@[(x, y)])),
            final(g).spec_width() == old(g).spec_width(),
            final(g).spec_height() == old(g).spec_height(),
    {
        let dist_x = self.end.x - self.start.x;
        let dist_y = self.end.y - self.start.y;
        let abs_x = if dist_x >= 0 {
            dist_x
        } else {
            -dist_x
        };
        let abs_y = if dist_y >= 0 {
            dist_y
        } else {
            -dist_y
        };
        let length = 1 + (if abs_x >= abs_y {
            abs_x
        } else {
            abs_y
        });
        let dir_x: i32 = if dist_x > 0 {
            1
        } else if dist_x < 0 {
            -1
        } else {
            0
        };
        let dir_y: i32 = if dist_y > 0 {
            1
        } else if dist_y < 0 {
            -1
        } else {
            0
        };

        let mut i: i32 = 0;
        let mut x = self.start.x;
        let mut y = self.start.y;
        while i < length
            invariant
                0 <= i <= length,
                x as int == self.path_x(i as int),
                y as int == self.path_y(i as int),
                forall|j: int|
                    #![trigger self.path_x(j), self.path_y(j)]
                    0 <= j < i ==> g@.contains_key((self.path_x(j), self.path_y(j)))
                        && g@[(self.path_x(j), self.path_y(j))] is Empty,
                forall|xx: int, yy: int|
                    #![trigger old(g)@.contains_key((xx, yy))]
                    #![trigger self.covers(xx, yy)]
                    !self.covers(xx, yy) ==> (g@.contains_key((xx, yy)) == old(g)@.contains_key(
                        (xx, yy),
                    ) && (old(g)@.contains_key((xx, yy)) ==> g@[(xx, yy)] == old(g)@[(xx, yy)])),
                g.spec_width() == old(g).spec_width(),
                g.spec_height() == old(g).spec_height(),
            decreases length - i,
        {
            proof {
                lemma_path_in_box(*self, i as int);
                assert(self.covers(x as int, y as int));
            }
            g.dig(&Point { x, y }, CellType::Empty);
            i = i + 1;
            proof {
                lemma_mul_unit(i as int, self.dir_x());
                lemma_mul_unit(i as int, self.dir_y());
                lemma_mul_unit(i as int - 1, self.dir_x());
                lemma_mul_unit(i as int - 1, self.dir_y());
                lemma_path_in_box(*self, i as int);
            }
            x = x + dir_x;
            y = y + dir_y;
        }
    }

    /// The cells the orchestrator should preferentially wall off later: the
    /// cell straight past the end and the two beside the end, but only when
    /// no wall already backs the end. With a wall there, nothing is needed.
    pub fn create_priority_walls(&self) -> (v: Vec<Point>)
        requires
            self.wf(),
        ensures
            self.ends_with_wall ==> v@ == Seq::<Point>::empty(),
            !self.ends_with_wall ==> v@.len() == 3,
            !self.ends_with_wall ==> {
                &&& v@[0].x as int == self.end.x + self.dir_x()
                &&& v@[0].y as int == self.end.y + self.dir_y()
                &&& v@[1].x as int == self.end.x + self.dir_y()
                &&& v@[1].y as int == self.end.y - self.dir_x()
                &&& v@[2].x as int == self.end.x - self.dir_y()
                &&& v@[2].y as int == self.end.y + self.dir_x()
            },
    {
        let mut v: Vec<Point> = Vec::new();
        if self.ends_with_wall {
            proof {
                assert(v@ =~= Seq::<Point>::empty());
            }
            return v;
        }

        let dist_x = self.end.x - self.start.x;
        let dist_y = self.end.y - self.start.y;
        let dir_x: i32 = if dist_x > 0 {
            1
        } else if dist_x < 0 {
            -1
        } else {
            0
        };
        let dir_y: i32 = if dist_y > 0 {
            1
        } else if dist_y < 0 {
            -1
        } else {
            0
        };
        let nx = dir_y;
        let ny = -dir_x;

        v.push(Point { x: self.end.x + dir_x, y: self.end.y + dir_y });
        v.push(Point { x: self.end.x + nx, y: self.end.y + ny });
        v.push(Point { x: self.end.x - nx, y: self.end.y - ny });
        v
    }

    /// A corridor of random length anchored at `top_left`, running in the
    /// given direction: the length is drawn uniformly from
    /// `[min_length, max_length)`.
    pub fn create_random_at(
        top_left: Point,
        dx: DirectionX,
        dy: DirectionY,
        options: &CorridorOptions,
    ) -> (c: Corridor)
        requires
            0 <= options.min_length < options.max_length,
            coord_ok(top_left.x - options.max_length),
            coord_ok(top_left.x + options.max_length),
            coord_ok(top_left.y - options.max_length),
            coord_ok(top_left.y + options.max_length),
            dx is Zero || dy is Zero,
        ensures
            c.start == top_left,
            !c.ends_with_wall,
            dx is Right ==> top_left.x + options.min_length <= c.end.x < top_left.x
                + options.max_length && c.end.y == top_left.y,
            dx is Left ==> top_left.x - options.max_length < c.end.x <= top_left.x
                - options.min_length && c.end.y == top_left.y,
            dx is Zero && dy is Down ==> c.end.x == top_left.x && top_left.y + options.min_length
                <= c.end.y < top_left.y + options.max_length,
            dx is Zero && dy is Up ==> c.end.x == top_left.x && top_left.y - options.max_length
                < c.end.y <= top_left.y - options.min_length,
            dx is Zero && dy is Zero ==> c.end == top_left,
            c.wf(),
    {
        let length = sample_range(options.min_length, options.max_length);
        let ex = match dx {
            DirectionX::Right => top_left.x + length,
            DirectionX::Left => top_left.x - length,
            DirectionX::Zero => top_left.x,
        };
        let ey = match dy {
            DirectionY::Down => top_left.y + length,
            DirectionY::Up => top_left.y - length,
            DirectionY::Zero => top_left.y,
        };
        Corridor { start: top_left, end: Point { x: ex, y: ey }, ends_with_wall: false }
    }
}

/// A corridor blocked at its very first tile is rejected outright: nothing
/// of it survives and no truncation can save it.
pub proof fn lemma_blocked_at_start_rejected(g: Grid, c: Corridor)
    requires
        !c.step_clear(g, 0),
    ensures
        c.trunc_len(g) == 0,
        !c.accepted(g),
{
}

/// Truncation only ever shortens: the surviving length never exceeds the
/// requested one, and every surviving tile passed validation — in
/// particular, each could be dug when the corridor was validated.
pub proof fn lemma_truncation_sound(g: Grid, c: Corridor)
    ensures
        0 <= c.trunc_len(g) <= c.length(),
        forall|i: int| 0 <= i < c.trunc_len(g) ==> c.step_clear(g, i),
        forall|i: int| 0 <= i < c.trunc_len(g) ==> g.diggable(c.path_x(i), c.path_y(i)),
{
    lemma_walk_props(c, g, 0);
    assert forall|i: int| 0 <= i < c.trunc_len(g) implies g.diggable(
        c.path_x(i),
        c.path_y(i),
    ) by {
        assert(c.step_clear(g, i));
    }
}


/// An axis-aligned rectangular room. The stored rectangle is the interior;
/// the carved footprint extends one cell outward on every side as a wall
/// border. `doors` lists border cells carved as `Door` instead of `Wall`,
/// without duplicates.
pub struct Room {
    pub top_left: Point,
    pub bottom_right: Point,
    pub doors: Vec<Point>,
}

/// The error a room construction reports before touching any grid.
#[derive(Clone, Copy, PartialEq, Eq, Structural, Debug)]
pub enum RoomError {
    /// The room was requested with no anchor direction on either axis.
    InvalidConfiguration,
}

/// A point with these coordinates occurs in the sequence.
pub open spec fn door_in_seq(s: Seq<Point>, x: int, y: int) -> bool {
    exists|i: int| 0 <= i < s.len() && s[i].x == x && s[i].y == y
}

/// Door insertion with set semantics: append the point only when no point
/// with its coordinates is listed yet.
pub open spec fn add_door_seq(s: Seq<Point>, p: Point) -> Seq<Point> {
    if door_in_seq(s, p.x as int, p.y as int) {
        s
    } else {
        s.push(p)
    }
}

/// What door insertion does to membership: exactly the inserted coordinates
/// join the set.
proof fn lemma_add_door_membership(s: Seq<Point>, p: Point)
    ensures
        forall|x: int, y: int|
            door_in_seq(add_door_seq(s, p), x, y) <==> (door_in_seq(s, x, y) || (x == p.x as int
                && y == p.y as int)),
{
    if door_in_seq(s, p.x as int, p.y as int) {
        assert forall|x: int, y: int|
            door_in_seq(add_door_seq(s, p), x, y) <==> (door_in_seq(s, x, y) || (x == p.x as int
                && y == p.y as int)) by {
            if x == p.x as int && y == p.y as int {
                assert(door_in_seq(s, x, y));
            }
        }
    } else {
        let t = s.push(p);
        assert forall|x: int, y: int|
            door_in_seq(add_door_seq(s, p), x, y) <==> (door_in_seq(s, x, y) || (x == p.x as int
                && y == p.y as int)) by {
            if door_in_seq(t, x, y) {
                let i = choose|i: int| 0 <= i < t.len() && t[i].x == x && t[i].y == y;
                if i < s.len() {
                    assert(s[i] == t[i]);
                    assert(door_in_seq(s, x, y));
                } else {
                    assert(t[i] == p);
                }
            }
            if door_in_seq(s, x, y) {
                let i = choose|i: int| 0 <= i < s.len() && s[i].x == x && s[i].y == y;
                assert(t[i] == s[i]);
                assert(door_in_seq(t, x, y));
            }
            if x == p.x as int && y == p.y as int {
                assert(t[s.len() as int] == p);
                assert(door_in_seq(t, x, y));
            }
        }
    }
}

/// The door list holds no two entries with the same coordinates: it is a
/// deduplicated collection.
pub open spec fn doors_unique(s: Seq<Point>) -> bool {
    forall|i: int, j: int| 0 <= i < j < s.len() ==> !(s[i].x == s[j].x && s[i].y == s[j].y)
}

/// Door insertion keeps the door list deduplicated: it only ever appends a
/// point whose coordinates are not listed yet.
pub proof fn lemma_add_door_unique(s: Seq<Point>, p: Point)
    ensures
        doors_unique(s) ==> doors_unique(add_door_seq(s, p)),
{
    if doors_unique(s) && !door_in_seq(s, p.x as int, p.y as int) {
        let t = s.push(p);
        assert forall|i: int, j: int| 0 <= i < j < t.len() implies !(t[i].x == t[j].x && t[i].y
            == t[j].y) by {
            if j == s.len() as int {
                if t[i].x == p.x && t[i].y == p.y {
                    assert(s[i] == t[i]);
                    assert(door_in_seq(s, p.x as int, p.y as int));
                }
            } else {
                assert(t[i] == s[i] && t[j] == s[j]);
            }
        }
    }
}

/// Adding a door is idempotent: a second insertion of the same point leaves
/// the door sequence — in particular its length — unchanged.
pub proof fn lemma_add_door_idempotent(s: Seq<Point>, p: Point)
    ensures
        add_door_seq(add_door_seq(s, p), p) == add_door_seq(s, p),
        add_door_seq(add_door_seq(s, p), p).len() == add_door_seq(s, p).len(),
{
    if !door_in_seq(s, p.x as int, p.y as int) {
        assert(s.push(p)[s.len() as int] == p);
        assert(door_in_seq(s.push(p), p.x as int, p.y as int));
    }
}

/// Truncating midpoint of two coordinates, as integer division toward zero
/// computes it.
pub open spec fn mid(a: int, b: int) -> int {
    if a + b >= 0 {
        (a + b) / 2
    } else {
        -((-(a + b)) / 2)
    }
}

impl Room {
    /// A room with the given interior rectangle and no doors yet.
    pub fn new(top_left: Point, bottom_right: Point) -> (r: Room)
        ensures
            r.top_left == top_left,
            r.bottom_right == bottom_right,
            r.doors@ == Seq::<Point>::empty(),
    {
        Room { top_left, bottom_right, doors: Vec::new() }
    }

    /// The footprint: the interior extended one cell outward on every side.
    pub open spec fn in_footprint(self, x: int, y: int) -> bool {
        self.top_left.x - 1 <= x <= self.bottom_right.x + 1 && self.top_left.y - 1 <= y
            <= self.bottom_right.y + 1
    }

    /// The footprint's one-cell border ring around the interior.
    pub open spec fn on_border(self, x: int, y: int) -> bool {
        self.in_footprint(x, y) && (x == self.top_left.x - 1 || x == self.bottom_right.x + 1 || y
            == self.top_left.y - 1 || y == self.bottom_right.y + 1)
    }

    /// Bounded coordinates, so the footprint can be walked without overflow.
    pub open spec fn coords_ok(self) -> bool {
        &&& coord_ok(self.top_left.x as int)
        &&& coord_ok(self.top_left.y as int)
        &&& coord_ok(self.bottom_right.x as int)
        &&& coord_ok(self.bottom_right.y as int)
    }

    /// A door is registered at these coordinates.
    pub open spec fn has_door(self, x: int, y: int) -> bool {
        door_in_seq(self.doors@, x, y)
    }

    /// The room fits the grid as it stands: every footprint cell is
    /// diggable, and every border cell already holds a wall — the border
    /// never overwrites open floor.
    pub open spec fn valid_on(self, g: Grid) -> bool {
        forall|x: int, y: int|
            self.in_footprint(x, y) ==> g.diggable(x, y) && (self.on_border(x, y) ==> g.wall_at(
                x,
                y,
            ))
    }

    /// The cell committing the room writes at a footprint coordinate:
    /// `Door` at a registered door, `Wall` on the rest of the border,
    /// `Empty` in the interior.
    pub open spec fn carved_cell(self, x: int, y: int) -> CellType {
        if self.has_door(x, y) {
            CellType::Door
        } else if self.on_border(x, y) {
            CellType::Wall
        } else {
            CellType::Empty
        }
    }

    /// Whether a door is registered at `(x, y)`.
    pub fn has_door_at(&self, x: i32, y: i32) -> (r: bool)
        ensures
            r == self.has_door(x as int, y as int),
    {
        let mut i: usize = 0;
        while i < self.doors.len()
            invariant
                0 <= i <= self.doors.len(),
                forall|j: int| 0 <= j < i ==> !(self.doors@[j].x == x && self.doors@[j].y == y),
            decreases self.doors.len() - i,
        {
            let d = self.doors[i];
            if d.x == x && d.y == y {
                return true;
            }
            i = i + 1;
        }
        false
    }

    /// Check the room against the grid: accept iff every footprint cell is
    /// diggable and every border cell is already a wall.
    #[verifier::loop_isolation(false)]
    #[verifier::rlimit(30)]
    pub fn rectify(&self, g: &Grid) -> (r: bool)
        requires
            self.coords_ok(),
        ensures
            r == self.valid_on(*g),
    {
        let left = self.top_left.x - 1;
        let right = self.bottom_right.x + 1;
        let top = self.top_left.y - 1;
        let bottom = self.bottom_right.y + 1;

        let mut x = left;
        while x <= right
            invariant
                left <= x,
                forall|xx: int, yy: int|
                    self.in_footprint(xx, yy) && xx < x ==> g.diggable(xx, yy) && (self.on_border(
                        xx,
                        yy,
                    ) ==> g.wall_at(xx, yy)),
            decreases right + 1 - x,
        {
            let mut y = top;
            while y <= bottom
                invariant
                    top <= y,
                    forall|xx: int, yy: int|
                        self.in_footprint(xx, yy) && xx < x ==> g.diggable(xx, yy) && (
                        self.on_border(xx, yy) ==> g.wall_at(xx, yy)),
                    forall|yy: int|
                        self.in_footprint(x as int, yy) && yy < y ==> g.diggable(x as int, yy) && (
                        self.on_border(x as int, yy) ==> g.wall_at(x as int, yy)),
                decreases bottom + 1 - y,
            {
                let border = x == left || x == right || y == top || y == bottom;
                if border && !g.is_wall(&Point { x, y }) {
                    assert(self.on_border(x as int, y as int));
                    return false;
                }
                if !g.can_dig(&Point { x, y }) {
                    assert(self.in_footprint(x as int, y as int));
                    return false;
                }
                y = y + 1;
            }
            x = x + 1;
        }
        true
    }

    /// Commit the room: write `Door` at registered doors, `Wall` on the rest
    /// of the border ring, `Empty` across the interior. Cells outside the
    /// footprint are untouched.
    #[verifier::loop_isolation(false)]
    pub fn create(&self, g: &mut Grid)
        requires
            self.coords_ok(),
        ensures
            forall|x: int, y: int|
                self.in_footprint(x, y) ==> final(g)@.contains_key((x, y)) && final(g)@[(x, y)]
                    == self.carved_cell(x, y),
            forall|x: int, y: int|
                !self.in_footprint(x, y) ==> (final(g)@.contains_key((x, y))
                    == old(g)@.contains_key((x, y)) && (old(g)@.contains_key((x, y))
                    ==> final(g)@[(x, y)] == old(g)@[(x, y)])),
            final(g).spec_width() == old(g).spec_width(),
            final(g).spec_height() == old(g).spec_height(),
    {
        let left = self.top_left.x - 1;
        let right = self.bottom_right.x + 1;
        let top = self.top_left.y - 1;
        let bottom = self.bottom_right.y + 1;

        let mut x = left;
        while x <= right
            invariant
                left <= x,
                forall|xx: int, yy: int|
                    #![trigger self.carved_cell(xx, yy)]
                    self.in_footprint(xx, yy) && xx < x ==> g@.contains_key((xx, yy)) && g@[(
                        xx,
                        yy,
                    )] == self.carved_cell(xx, yy),
                forall|xx: int, yy: int|
                    #![trigger old(g)@.contains_key((xx, yy))]
                    #![trigger self.in_footprint(xx, yy)]
                    !(self.in_footprint(xx, yy) && xx < x) ==> (g@.contains_key((xx, yy))
                        == old(g)@.contains_key((xx, yy)) && (old(g)@.contains_key((xx, yy))
                        ==> g@[(xx, yy)] == old(g)@[(xx, yy)])),
                g.spec_width() == old(g).spec_width(),
                g.spec_height() == old(g).spec_height(),
            decreases right + 1 - x,
        {
            let mut y = top;
            while y <= bottom
                invariant
                    top <= y,
                    forall|xx: int, yy: int|
                        #![trigger self.carved_cell(xx, yy)]
                        self.in_footprint(xx, yy) && (xx < x || (xx == x && yy < y))
                            ==> g@.contains_key((xx, yy)) && g@[(xx, yy)] == self.carved_cell(
                            xx,
                            yy,
                        ),
                    forall|xx: int, yy: int|
                        #![trigger old(g)@.contains_key((xx, yy))]
                        #![trigger self.in_footprint(xx, yy)]
                        !(self.in_footprint(xx, yy) && (xx < x || (xx == x && yy < y))) ==> (
                        g@.contains_key((xx, yy)) == old(g)@.contains_key((xx, yy)) && (
                        old(g)@.contains_key((xx, yy)) ==> g@[(xx, yy)] == old(g)@[(xx, yy)])),
                    g.spec_width() == old(g).spec_width(),
                    g.spec_height() == old(g).spec_height(),
                decreases bottom + 1 - y,
            {
                let fill = if self.has_door_at(x, y) {
                    CellType::Door
                } else if x == left || x == right || y == top || y == bottom {
                    CellType::Wall
                } else {
                    CellType::Empty
                };
                proof {
                    assert(fill == self.carved_cell(x as int, y as int));
                    assert(self.in_footprint(x as int, y as int));
                }
                let ghost gprev = *g;
                g.dig(&Point { x, y }, fill);
                proof {
                    assert forall|xx: int, yy: int|
                        self.in_footprint(xx, yy) && (xx < x || (xx == x && yy < y
                            + 1)) implies g@.contains_key((xx, yy)) && g@[(xx, yy)]
                        == self.carved_cell(xx, yy) by {
                        if !(xx == x as int && yy == y as int) {
                            assert(gprev@.contains_key((xx, yy)) && gprev@[(xx, yy)]
                                == self.carved_cell(xx, yy));
                        }
                    }
                    assert forall|xx: int, yy: int|
                        !(self.in_footprint(xx, yy) && (xx < x || (xx == x && yy < y
                            + 1))) implies (g@.contains_key((xx, yy)) == old(g)@.contains_key(
                            (xx, yy),
                        ) && (old(g)@.contains_key((xx, yy)) ==> g@[(xx, yy)] == old(g)@[(
                            xx,
                            yy,
                        )])) by {
                        assert(!(xx == x as int && yy == y as int));
                        assert(gprev@.contains_key((xx, yy)) == old(g)@.contains_key((xx, yy)) && (
                        old(g)@.contains_key((xx, yy)) ==> gprev@[(xx, yy)] == old(g)@[(xx, yy)]));
                    }
                }
                y = y + 1;
            }
            x = x + 1;
        }
    }

    /// Register a door at `door` unless one with its coordinates is already
    /// listed: the door set never holds duplicates.
    pub fn add_door(&mut self, door: Point)
        ensures
            final(self).doors@ == add_door_seq(old(self).doors@, door),
            final(self).top_left == old(self).top_left,
            final(self).bottom_right == old(self).bottom_right,
    {
        if !self.has_door_at(door.x, door.y) {
            self.doors.push(door);
        }
    }

    /// The registered doors, in insertion order.
    pub fn doors(&self) -> (r: &Vec<Point>)
        ensures
            r@ == self.doors@,
    {
        &self.doors
    }

    /// Forget every registered door.
    pub fn clear_doors(&mut self)
        ensures
            final(self).doors@ == Seq::<Point>::empty(),
            final(self).top_left == old(self).top_left,
            final(self).bottom_right == old(self).bottom_right,
    {
        self.doors = Vec::new();
    }

    /// Scan the border ring and register every border cell that is not
    /// currently a wall as a door: openings already present in the border
    /// become formal doors. Doors already registered are kept.
    #[verifier::loop_isolation(false)]
    #[verifier::rlimit(30)]
    pub fn add_doors(&mut self, g: &Grid)
        requires
            old(self).coords_ok(),
        ensures
            final(self).top_left == old(self).top_left,
            final(self).bottom_right == old(self).bottom_right,
            forall|x: int, y: int|
                #![trigger final(self).has_door(x, y)]
                #![trigger old(self).has_door(x, y)]
                final(self).has_door(x, y) <==> (old(self).has_door(x, y) || (old(self).on_border(
                    x,
                    y,
                ) && !g.wall_at(x, y))),
            old(self).doors@.is_prefix_of(final(self).doors@),
            forall|i: int|
                old(self).doors@.len() <= i < final(self).doors@.len() ==> !door_in_seq(
                    final(self).doors@.take(i),
                    #[trigger] final(self).doors@[i].x as int,
                    final(self).doors@[i].y as int,
                ),
            doors_unique(old(self).doors@) ==> doors_unique(final(self).doors@),
    {
        let left = self.top_left.x - 1;
        let right = self.bottom_right.x + 1;
        let top = self.top_left.y - 1;
        let bottom = self.bottom_right.y + 1;

        let mut x = left;
        while x <= right
            invariant
                left <= x,
                self.top_left == old(self).top_left,
                self.bottom_right == old(self).bottom_right,
                forall|xx: int, yy: int|
                    #![trigger self.has_door(xx, yy)]
                    #![trigger old(self).has_door(xx, yy)]
                    self.has_door(xx, yy) <==> (old(self).has_door(xx, yy) || (old(
                        self,
                    ).on_border(xx, yy) && !g.wall_at(xx, yy) && xx < x)),
                old(self).doors@.is_prefix_of(self.doors@),
                forall|i: int|
                    old(self).doors@.len() <= i < self.doors@.len() ==> !door_in_seq(
                        self.doors@.take(i),
                        #[trigger] self.doors@[i].x as int,
                        self.doors@[i].y as int,
                    ),
                doors_unique(old(self).doors@) ==> doors_unique(self.doors@),
            decreases right + 1 - x,
        {
            let mut y = top;
            while y <= bottom
                invariant
                    top <= y,
                    self.top_left == old(self).top_left,
                    self.bottom_right == old(self).bottom_right,
                    forall|xx: int, yy: int|
                        #![trigger self.has_door(xx, yy)]
                        #![trigger old(self).has_door(xx, yy)]
                        self.has_door(xx, yy) <==> (old(self).has_door(xx, yy) || (old(
                            self,
                        ).on_border(xx, yy) && !g.wall_at(xx, yy) && (xx < x || (xx == x && yy
                            < y)))),
                    old(self).doors@.is_prefix_of(self.doors@),
                    forall|i: int|
                        old(self).doors@.len() <= i < self.doors@.len() ==> !door_in_seq(
                            self.doors@.take(i),
                            #[trigger] self.doors@[i].x as int,
                            self.doors@[i].y as int,
                        ),
                    doors_unique(old(self).doors@) ==> doors_unique(self.doors@),
                decreases bottom + 1 - y,
            {
                let ghost prev = *self;
                let border = x == left || x == right || y == top || y == bottom;
                let opening = border && !g.is_wall(&Point { x, y });
                if opening {
                    let ghost before = self.doors@;
                    self.add_door(Point { x, y });
                    proof {
                        lemma_add_door_membership(before, Point { x, y });
                        lemma_add_door_unique(before, Point { x, y });
                        assert(before.is_prefix_of(self.doors@));
                        if !door_in_seq(before, x as int, y as int) {
                            assert(self.doors@ == before.push(Point { x, y }));
                            assert forall|i: int|
                                old(self).doors@.len() <= i
                                    < self.doors@.len() implies !door_in_seq(
                                self.doors@.take(i),
                                #[trigger] self.doors@[i].x as int,
                                self.doors@[i].y as int,
                            ) by {
                                if i < before.len() {
                                    assert(!door_in_seq(
                                        before.take(i),
                                        before[i].x as int,
                                        before[i].y as int,
                                    ));
                                    assert(self.doors@.take(i) =~= before.take(i));
                                    assert(self.doors@[i] == before[i]);
                                } else {
                                    assert(self.doors@.take(i) =~= before);
                                    assert(self.doors@[i] == Point { x, y });
                                }
                            }
                        }
                    }
                }
                proof {
                    assert forall|xx: int, yy: int|
                        #![trigger self.has_door(xx, yy)]
                        #![trigger old(self).has_door(xx, yy)]
                        self.has_door(xx, yy) <==> (old(self).has_door(xx, yy) || (old(
                            self,
                        ).on_border(xx, yy) && !g.wall_at(xx, yy) && (xx < x || (xx == x && yy < y
                            + 1)))) by {
                        assert(prev.has_door(xx, yy) <==> (old(self).has_door(xx, yy) || (old(
                            self,
                        ).on_border(xx, yy) && !g.wall_at(xx, yy) && (xx < x || (xx == x && yy
                            < y)))));
                        if opening {
                            assert(door_in_seq(
                                add_door_seq(prev.doors@, Point { x, y }),
                                xx,
                                yy,
                            ) <==> (door_in_seq(prev.doors@, xx, yy) || (xx == x as int && yy
                                == y as int)));
                            assert(self.doors@ == add_door_seq(prev.doors@, Point { x, y }));
                        } else {
                            assert(*self == prev);
                            if !border {
                                assert(!old(self).on_border(x as int, y as int));
                            }
                        }
                    }
                }
                y = y + 1;
            }
            x = x + 1;
        }
    }

    /// A room of random size anchored at the doorway `door` and grown away
    /// from it along the given direction; `door` becomes its first door.
    /// Horizontal anchoring takes priority when both directions are given.
    /// With no direction on either axis there is nothing to anchor along,
    /// and the construction is rejected before any grid interaction.
    pub fn create_random_at(
        door: &Point,
        dx: DirectionX,
        dy: DirectionY,
        options: &RoomOptions,
    ) -> (r: Result<Room, RoomError>)
        requires
            1 <= options.min_width < options.max_width,
            1 <= options.min_height < options.max_height,
            coord_ok(door.x - options.max_width),
            coord_ok(door.x + options.max_width),
            coord_ok(door.y - options.max_height),
            coord_ok(door.y + options.max_height),
        ensures
            r is Err <==> (dx is Zero && dy is Zero),
            r matches Err(e) ==> e is InvalidConfiguration,
            r matches Ok(room) ==> {
                &&& room.doors@ == seq![*door]
                &&& options.min_width <= room.bottom_right.x - room.top_left.x + 1
                    < options.max_width
                &&& options.min_height <= room.bottom_right.y - room.top_left.y + 1
                    < options.max_height
                &&& room.coords_ok()
            },
            dx is Right ==> (r matches Ok(room) ==> room.top_left.x == door.x + 1
                && room.top_left.y <= door.y <= room.bottom_right.y),
            dx is Left ==> (r matches Ok(room) ==> room.bottom_right.x == door.x - 1
                && room.top_left.y <= door.y <= room.bottom_right.y),
            dx is Zero && dy is Down ==> (r matches Ok(room) ==> room.top_left.y == door.y + 1
                && room.top_left.x <= door.x <= room.bottom_right.x),
            dx is Zero && dy is Up ==> (r matches Ok(room) ==> room.bottom_right.y == door.y - 1
                && room.top_left.x <= door.x <= room.bottom_right.x),
    {
        match (dx, dy) {
            (DirectionX::Zero, DirectionY::Zero) => return Err(RoomError::InvalidConfiguration),
            _ => {},
        }
        let height = sample_range(options.min_height, options.max_height);
        let width = sample_range(options.min_width, options.max_width);
        let off_x = sample_range(0, width);
        let off_y = sample_range(0, height);
        let x2 = door.x - off_x;
        let y2 = door.y - off_y;
        let mut d: Vec<Point> = Vec::new();
        d.push(*door);
        proof {
            assert(d@ =~= seq![*door]);
        }

        let room = match (dx, dy) {
            (DirectionX::Right, _) => Room {
                top_left: Point { x: door.x + 1, y: y2 },
                bottom_right: Point { x: door.x + width, y: y2 + height - 1 },
                doors: d,
            },
            (DirectionX::Left, _) => Room {
                top_left: Point { x: door.x - width, y: y2 },
                bottom_right: Point { x: door.x - 1, y: y2 + height - 1 },
                doors: d,
            },
            (_, DirectionY::Down) => Room {
                top_left: Point { x: x2, y: door.y + 1 },
                bottom_right: Point { x: x2 + width - 1, y: door.y + height },
                doors: d,
            },
            (_, _) => Room {
                top_left: Point { x: x2, y: door.y - height },
                bottom_right: Point { x: x2 + width - 1, y: door.y - 1 },
                doors: d,
            },
        };
        Ok(room)
    }

    /// A room of random size placed so that `center` falls within its
    /// interior, with no doors.
    pub fn create_random_center(center: &Point, options: &RoomOptions) -> (r: Room)
        requires
            1 <= options.min_width < options.max_width,
            1 <= options.min_height < options.max_height,
            coord_ok(center.x - options.max_width),
            coord_ok(center.x + options.max_width),
            coord_ok(center.y - options.max_height),
            coord_ok(center.y + options.max_height),
        ensures
            r.doors@ == Seq::<Point>::empty(),
            options.min_width <= r.bottom_right.x - r.top_left.x + 1 < options.max_width,
            options.min_height <= r.bottom_right.y - r.top_left.y + 1 < options.max_height,
            r.top_left.x <= center.x <= r.bottom_right.x,
            r.top_left.y <= center.y <= r.bottom_right.y,
            r.coords_ok(),
    {
        let width = sample_range(options.min_width, options.max_width);
        let height = sample_range(options.min_height, options.max_height);
        let off_x = sample_range(0, width);
        let off_y = sample_range(0, height);
        let start = Point { x: center.x - off_x, y: center.y - off_y };
        let end = Point { x: start.x + width - 1, y: start.y + height - 1 };
        Room { top_left: start, bottom_right: end, doors: Vec::new() }
    }

    /// A room of random size placed uniformly at random so that its whole
    /// footprint, border included, lies inside `[0, avail_width)` by
    /// `[0, avail_height)`, with no doors.
    pub fn create_random(avail_height: &i32, avail_width: &i32, options: &RoomOptions) -> (r: Room)
        requires
            1 <= options.min_width < options.max_width,
            1 <= options.min_height < options.max_height,
            options.max_width < *avail_width,
            options.max_height < *avail_height,
            *avail_width <= 0x3fff_ffff,
            *avail_height <= 0x3fff_ffff,
        ensures
            r.doors@ == Seq::<Point>::empty(),
            options.min_width <= r.bottom_right.x - r.top_left.x + 1 < options.max_width,
            options.min_height <= r.bottom_right.y - r.top_left.y + 1 < options.max_height,
            0 <= r.top_left.x - 1 && r.bottom_right.x + 1 <= avail_width - 1,
            0 <= r.top_left.y - 1 && r.bottom_right.y + 1 <= avail_height - 1,
            r.coords_ok(),
    {
        let width = sample_range(options.min_width, options.max_width);
        let height = sample_range(options.min_height, options.max_height);
        let room_left = *avail_width - width - 1;
        let room_top = *avail_height - height - 1;
        let off_x = sample_range(0, room_left);
        let off_y = sample_range(0, room_top);
        let start = Point { x: 1 + off_x, y: 1 + off_y };
        let end = Point { x: start.x + width - 1, y: start.y + height - 1 };
        Room { top_left: start, bottom_right: end, doors: Vec::new() }
    }

    /// Midpoint of the interior rectangle, rounding toward zero.
    pub fn center(&self) -> (c: Point)
        requires
            self.coords_ok(),
        ensures
            c.x as int == mid(self.top_left.x as int, self.bottom_right.x as int),
            c.y as int == mid(self.top_left.y as int, self.bottom_right.y as int),
    {
        let sx = self.top_left.x + self.bottom_right.x;
        let sy = self.top_left.y + self.bottom_right.y;
        let cx = if sx >= 0 {
            sx / 2
        } else {
            -((-sx) / 2)
        };
        let cy = if sy >= 0 {
            sy / 2
        } else {
            -((-sy) / 2)
        };
        Point { x: cx, y: cy }
    }

    /// `x` of the interior's left edge.
    pub fn left(&self) -> (r: i32)
        ensures
            r == self.top_left.x,
    {
        self.top_left.x
    }

    /// `x` of the interior's right edge.
    pub fn right(&self) -> (r: i32)
        ensures
            r == self.bottom_right.x,
    {
        self.bottom_right.x
    }

    /// `y` of the interior's top edge.
    pub fn top(&self) -> (r: i32)
        ensures
            r == self.top_left.y,
    {
        self.top_left.y
    }

    /// `y` of the interior's bottom edge.
    pub fn bottom(&self) -> (r: i32)
        ensures
            r == self.bottom_right.y,
    {
        self.bottom_right.y
    }
}

} // verus!
