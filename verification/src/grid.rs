//! The sparse cell grid that features are carved into, and the small value
//! types shared by the whole crate: cell kinds and unit directions.

use crate::feature::{Corridor, Room};
use crate::Point;
use vstd::prelude::*;

verus! {

/// The kind of cell carved at a coordinate. A coordinate that holds no cell
/// at all is "undug": diggable ground that is neither floor nor wall yet.
#[derive(Clone, Copy, PartialEq, Eq, Structural, Debug)]
pub enum CellType {
    Empty,
    Wall,
    Door,
}

/// Horizontal component of a placement direction: one unit step along `x`.
#[derive(Clone, Copy, PartialEq, Eq, Structural, Debug)]
pub enum DirectionX {
    Left,
    Right,
    Zero,
}

/// Vertical component of a placement direction: one unit step along `y`.
#[derive(Clone, Copy, PartialEq, Eq, Structural, Debug)]
pub enum DirectionY {
    Down,
    Up,
    Zero,
}

impl DirectionX {
    /// The signed unit step this direction stands for.
    pub open spec fn spec_step(self) -> int {
        match self {
            DirectionX::Left => -1,
            DirectionX::Right => 1,
            DirectionX::Zero => 0,
        }
    }

    pub fn step(self) -> (r: i32)
        ensures
            r as int == self.spec_step(),
    {
        match self {
            DirectionX::Left => -1,
            DirectionX::Right => 1,
            DirectionX::Zero => 0,
        }
    }
}

impl DirectionY {
    /// The signed unit step this direction stands for.
    pub open spec fn spec_step(self) -> int {
        match self {
            DirectionY::Down => 1,
            DirectionY::Up => -1,
            DirectionY::Zero => 0,
        }
    }

    pub fn step(self) -> (r: i32)
        ensures
            r as int == self.spec_step(),
    {
        match self {
            DirectionY::Down => 1,
            DirectionY::Up => -1,
            DirectionY::Zero => 0,
        }
    }
}

/// The key a stored cell occupies in the grid's abstract map.
pub open spec fn cell_key(e: (Point, CellType)) -> (int, int) {
    (e.0.x as int, e.0.y as int)
}

/// The abstract contents of a write journal: later writes to a coordinate
/// shadow earlier ones.
pub open spec fn cells_map(s: Seq<(Point, CellType)>) -> Map<(int, int), CellType>
    decreases s.len(),
{
    if s.len() == 0 {
        Map::empty()
    } else {
        cells_map(s.drop_last()).insert(cell_key(s.last()), s.last().1)
    }
}

/// A sparse grid of carved cells with fixed `width`/`height` bounds. Cells are
/// kept as a write journal; the grid's view is the map from coordinate to the
/// last cell written there. Coordinates never written are "undug".
pub struct Grid {
    pub width: i32,
    pub height: i32,
    pub cells: Vec<(Point, CellType)>,
}

impl View for Grid {
    type V = Map<(int, int), CellType>;

    open spec fn view(&self) -> Map<(int, int), CellType> {
        cells_map(self.cells@)
    }
}

impl Grid {
    pub open spec fn spec_width(self) -> int {
        self.width as int
    }

    pub open spec fn spec_height(self) -> int {
        self.height as int
    }

    /// A coordinate the grid's declared bounds admit.
    pub open spec fn in_bounds(self, x: int, y: int) -> bool {
        0 <= x < self.spec_width() && 0 <= y < self.spec_height()
    }

    /// The grid holds a `Wall` cell at the coordinate.
    pub open spec fn wall_at(self, x: int, y: int) -> bool {
        self@.contains_key((x, y)) && self@[(x, y)] is Wall
    }

    /// The coordinate may be carved: it lies within bounds and is not already
    /// open floor. Undug ground, walls and doors may all be carved over;
    /// only committed floor (`Empty`) is protected.
    pub open spec fn diggable(self, x: int, y: int) -> bool {
        self.in_bounds(x, y) && !(self@.contains_key((x, y)) && self@[(x, y)] is Empty)
    }

    /// An empty grid: every coordinate is undug.
    pub fn new(width: i32, height: i32) -> (g: Grid)
        ensures
            g@ == Map::<(int, int), CellType>::empty(),
            g.spec_width() == width as int,
            g.spec_height() == height as int,
    {
        Grid { width, height, cells: Vec::new() }
    }

    pub fn width(&self) -> (r: i32)
        ensures
            r as int == self.spec_width(),
    {
        self.width
    }

    pub fn height(&self) -> (r: i32)
        ensures
            r as int == self.spec_height(),
    {
        self.height
    }

    /// The cell last written at a coordinate, or `None` where it is undug.
    pub fn cell(&self, x: i32, y: i32) -> (r: Option<CellType>)
        ensures
            match r {
                Some(c) => self@.contains_key((x as int, y as int)) && self@[(x as int, y as int)]
                    == c,
                None => !self@.contains_key((x as int, y as int)),
            },
    {
        let mut i: usize = self.cells.len();
        while i > 0
            invariant
                i <= self.cells@.len(),
                forall|j: int|
                    i <= j < self.cells@.len() ==> cell_key(self.cells@[j]) != (
                    x as int,
                    y as int,
                    ),
            decreases i,
        {
            i = i - 1;
            let (p, c) = self.cells[i];
            if p.x == x && p.y == y {
                proof {
                    lemma_cells_map_found(self.cells@, i as int, (x as int, y as int));
                }
                return Some(c);
            }
        }
        proof {
            lemma_cells_map_no_key(self.cells@, 0, (x as int, y as int));
            assert(self.cells@.take(0) =~= Seq::<(Point, CellType)>::empty());
        }
        None
    }

    /// Whether the grid holds a wall at `p`. Read-only; coordinates outside
    /// the bounds simply hold no cell.
    pub fn is_wall(&self, p: &Point) -> (r: bool)
        ensures
            r == self.wall_at(p.x as int, p.y as int),
    {
        match self.cell(p.x, p.y) {
            Some(CellType::Wall) => true,
            _ => false,
        }
    }

    /// Whether `p` may be carved: within bounds and not committed floor.
    pub fn can_dig(&self, p: &Point) -> (r: bool)
        ensures
            r == self.diggable(p.x as int, p.y as int),
    {
        if p.x < 0 || p.x >= self.width || p.y < 0 || p.y >= self.height {
            return false;
        }
        match self.cell(p.x, p.y) {
            Some(CellType::Empty) => false,
            _ => true,
        }
    }

    /// Write `cell` at `p`, shadowing whatever was there: last write wins.
    pub fn dig(&mut self, p: &Point, cell: CellType)
        ensures
            final(self)@ == old(self)@.insert((p.x as int, p.y as int), cell),
            final(self).spec_width() == old(self).spec_width(),
            final(self).spec_height() == old(self).spec_height(),
    {
        self.cells.push((*p, cell));
        proof {
            assert(self.cells@.drop_last() =~= old(self).cells@);
        }
    }
}

/// A generated dungeon: the grid plus the features committed into it.
pub struct Dungeon {
    pub grid: Grid,
    pub rooms: Vec<Room>,
    pub corridors: Vec<Corridor>,
}

impl Dungeon {
    /// A dungeon over an untouched grid, with no features committed yet.
    pub fn new(grid: Grid) -> (d: Dungeon)
        ensures
            d.grid == grid,
            d.rooms@ == Seq::<Room>::empty(),
            d.corridors@ == Seq::<Corridor>::empty(),
    {
        Dungeon { grid, rooms: Vec::new(), corridors: Vec::new() }
    }

    pub fn width(&self) -> (r: i32)
        ensures
            r as int == self.grid.spec_width(),
    {
        self.grid.width()
    }

    pub fn height(&self) -> (r: i32)
        ensures
            r as int == self.grid.spec_height(),
    {
        self.grid.height()
    }
}

/// Where a suffix of the journal never touches key `k`, the journal's map
/// agrees at `k` with the map of the prefix before that suffix.
proof fn lemma_cells_map_no_key(s: Seq<(Point, CellType)>, i: int, k: (int, int))
    requires
        0 <= i <= s.len(),
        forall|j: int| i <= j < s.len() ==> cell_key(s[j]) != k,
    ensures
        cells_map(s).contains_key(k) == cells_map(s.take(i)).contains_key(k),
        cells_map(s.take(i)).contains_key(k) ==> cells_map(s)[k] == cells_map(s.take(i))[k],
    decreases s.len() - i,
{
    if i == s.len() {
        assert(s.take(i) =~= s);
    } else {
        lemma_cells_map_no_key(s, i + 1, k);
        assert(s.take(i + 1).drop_last() =~= s.take(i));
        assert(s.take(i + 1).last() == s[i]);
    }
}

/// The journal's map holds, at the key of entry `i`, the value of entry `i`,
/// provided no later entry touches that key.
proof fn lemma_cells_map_found(s: Seq<(Point, CellType)>, i: int, k: (int, int))
    requires
        0 <= i < s.len(),
        cell_key(s[i]) == k,
        forall|j: int| i < j < s.len() ==> cell_key(s[j]) != k,
    ensures
        cells_map(s).contains_key(k),
        cells_map(s)[k] == s[i].1,
{
    lemma_cells_map_no_key(s, i + 1, k);
    assert(s.take(i + 1).drop_last() =~= s.take(i));
    assert(s.take(i + 1).last() == s[i]);
}

} // verus!
