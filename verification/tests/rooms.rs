use dungeon::feature::{Room, RoomError, RoomOptions};
use dungeon::grid::{CellType, DirectionX, DirectionY, Grid};
use dungeon::Point;

fn wall(g: &mut Grid, x: i32, y: i32) {
    g.dig(&Point { x, y }, CellType::Wall);
}

fn opts(min_w: i32, max_w: i32, min_h: i32, max_h: i32) -> RoomOptions {
    RoomOptions { min_width: min_w, max_width: max_w, min_height: min_h, max_height: max_h }
}

/// Wall the full border ring of the footprint of a room with the given
/// interior corners.
fn wall_ring(g: &mut Grid, left: i32, top: i32, right: i32, bottom: i32) {
    for x in (left - 1)..=(right + 1) {
        wall(g, x, top - 1);
        wall(g, x, bottom + 1);
    }
    for y in (top - 1)..=(bottom + 1) {
        wall(g, left - 1, y);
        wall(g, right + 1, y);
    }
}

/// A room requested with no anchor direction on either axis is rejected
/// before any grid interaction.
#[test]
fn no_anchor_direction_rejected() {
    let r = Room::create_random_at(
        &Point { x: 5, y: 5 },
        DirectionX::Zero,
        DirectionY::Zero,
        &opts(2, 4, 2, 4),
    );
    assert_eq!(r.err(), Some(RoomError::InvalidConfiguration));
}

/// On an entirely undug grid the border cells are not walls, so the room is
/// rejected even though every cell is diggable.
#[test]
fn undug_border_rejected() {
    let g = Grid::new(10, 10);
    let room = Room::new(Point { x: 1, y: 1 }, Point { x: 3, y: 3 });
    assert!(!room.rectify(&g));
}

/// With the whole border ring already walled and the interior undug, the
/// room is accepted.
#[test]
fn walled_border_accepted() {
    let mut g = Grid::new(10, 10);
    wall_ring(&mut g, 1, 1, 3, 3);
    let room = Room::new(Point { x: 1, y: 1 }, Point { x: 3, y: 3 });
    assert!(room.rectify(&g));
}

/// Committed floor inside the footprint makes a cell non-diggable and the
/// room is rejected.
#[test]
fn floor_in_interior_rejected() {
    let mut g = Grid::new(10, 10);
    wall_ring(&mut g, 1, 1, 3, 3);
    g.dig(&Point { x: 2, y: 2 }, CellType::Empty);
    let room = Room::new(Point { x: 1, y: 1 }, Point { x: 3, y: 3 });
    assert!(!room.rectify(&g));
}

/// Committing a room writes exactly: `Door` at registered doors, `Wall` on
/// the rest of the border ring, `Empty` across the interior; cells outside
/// the footprint stay as they were.
#[test]
fn create_partitions_footprint() {
    let mut g = Grid::new(10, 10);
    wall_ring(&mut g, 1, 1, 3, 3);
    let mut room = Room::new(Point { x: 1, y: 1 }, Point { x: 3, y: 3 });
    room.add_door(Point { x: 0, y: 2 });
    assert!(room.rectify(&g));
    room.create(&mut g);

    for x in 0..=4 {
        for y in 0..=4 {
            let expected = if x == 0 && y == 2 {
                CellType::Door
            } else if x == 0 || x == 4 || y == 0 || y == 4 {
                CellType::Wall
            } else {
                CellType::Empty
            };
            assert_eq!(g.cell(x, y), Some(expected));
        }
    }
    assert_eq!(g.cell(5, 5), None);
    assert_eq!(g.cell(5, 2), None);
}

/// Adding the same door twice leaves the door set unchanged in size.
#[test]
fn add_door_idempotent() {
    let mut room = Room::new(Point { x: 1, y: 1 }, Point { x: 3, y: 3 });
    room.add_door(Point { x: 0, y: 2 });
    assert_eq!(room.doors().len(), 1);
    room.add_door(Point { x: 0, y: 2 });
    assert_eq!(room.doors().len(), 1);
    assert_eq!(room.doors()[0], Point { x: 0, y: 2 });
    room.add_door(Point { x: 2, y: 0 });
    assert_eq!(room.doors().len(), 2);
}

#[test]
fn clear_doors_empties_the_set() {
    let mut room = Room::new(Point { x: 1, y: 1 }, Point { x: 3, y: 3 });
    room.add_door(Point { x: 0, y: 2 });
    room.add_door(Point { x: 2, y: 0 });
    room.clear_doors();
    assert_eq!(room.doors().len(), 0);
}

/// Scanning the border registers exactly the border cells that are not
/// walls; a second scan adds nothing new.
#[test]
fn add_doors_finds_openings() {
    let mut g = Grid::new(10, 10);
    wall_ring(&mut g, 1, 1, 3, 3);
    // Two openings in the ring: carve them back to floor.
    g.dig(&Point { x: 2, y: 0 }, CellType::Empty);
    g.dig(&Point { x: 0, y: 2 }, CellType::Empty);
    let mut room = Room::new(Point { x: 1, y: 1 }, Point { x: 3, y: 3 });
    room.add_doors(&g);
    assert_eq!(room.doors().len(), 2);
    let listed: Vec<Point> = room.doors().clone();
    assert!(listed.contains(&Point { x: 2, y: 0 }));
    assert!(listed.contains(&Point { x: 0, y: 2 }));
    room.add_doors(&g);
    assert_eq!(room.doors().len(), 2);
}

#[test]
fn accessors_and_center() {
    let room = Room::new(Point { x: 1, y: 1 }, Point { x: 3, y: 5 });
    assert_eq!(room.left(), 1);
    assert_eq!(room.right(), 3);
    assert_eq!(room.top(), 1);
    assert_eq!(room.bottom(), 5);
    assert_eq!(room.center(), Point { x: 2, y: 3 });
}

/// With one-value ranges the drawn dimensions and offsets are pinned, so the
/// anchored construction is fully determined.
#[test]
fn random_room_at_door_pinned() {
    let door = Point { x: 5, y: 5 };
    let o = opts(1, 2, 1, 2);
    let right = Room::create_random_at(&door, DirectionX::Right, DirectionY::Zero, &o).unwrap();
    assert_eq!(right.top_left, Point { x: 6, y: 5 });
    assert_eq!(right.bottom_right, Point { x: 6, y: 5 });
    assert_eq!(right.doors().len(), 1);
    assert_eq!(right.doors()[0], door);

    let left = Room::create_random_at(&door, DirectionX::Left, DirectionY::Zero, &o).unwrap();
    assert_eq!(left.top_left, Point { x: 4, y: 5 });
    assert_eq!(left.bottom_right, Point { x: 4, y: 5 });

    let down = Room::create_random_at(&door, DirectionX::Zero, DirectionY::Down, &o).unwrap();
    assert_eq!(down.top_left, Point { x: 5, y: 6 });
    assert_eq!(down.bottom_right, Point { x: 5, y: 6 });

    let up = Room::create_random_at(&door, DirectionX::Zero, DirectionY::Up, &o).unwrap();
    assert_eq!(up.top_left, Point { x: 5, y: 4 });
    assert_eq!(up.bottom_right, Point { x: 5, y: 4 });
}

/// Horizontal anchoring takes priority when both directions are given.
#[test]
fn random_room_horizontal_priority() {
    let door = Point { x: 5, y: 5 };
    let o = opts(1, 2, 1, 2);
    let r = Room::create_random_at(&door, DirectionX::Right, DirectionY::Down, &o).unwrap();
    assert_eq!(r.top_left, Point { x: 6, y: 5 });
}

/// The anchored room hugs the doorway: the door sits on its footprint's
/// border, beside the interior.
#[test]
fn random_room_at_door_ranges() {
    let door = Point { x: 20, y: 20 };
    let o = opts(3, 6, 2, 5);
    for _ in 0..50 {
        let r = Room::create_random_at(&door, DirectionX::Right, DirectionY::Zero, &o).unwrap();
        let w = r.bottom_right.x - r.top_left.x + 1;
        let h = r.bottom_right.y - r.top_left.y + 1;
        assert!(3 <= w && w < 6);
        assert!(2 <= h && h < 5);
        assert_eq!(r.top_left.x, 21);
        assert!(r.top_left.y <= 20 && 20 <= r.bottom_right.y);
    }
}

/// A centered room always contains its center point.
#[test]
fn random_room_around_center() {
    let center = Point { x: 10, y: 10 };
    let o = opts(3, 4, 3, 4);
    for _ in 0..20 {
        let r = Room::create_random_center(&center, &o);
        assert_eq!(r.bottom_right.x - r.top_left.x + 1, 3);
        assert_eq!(r.bottom_right.y - r.top_left.y + 1, 3);
        assert!(r.top_left.x <= 10 && 10 <= r.bottom_right.x);
        assert!(r.top_left.y <= 10 && 10 <= r.bottom_right.y);
        assert_eq!(r.doors().len(), 0);
    }
}

/// A freely placed room keeps its whole footprint, border included, inside
/// the given bounds.
#[test]
fn random_room_within_bounds() {
    let o = opts(3, 6, 2, 5);
    for _ in 0..50 {
        let r = Room::create_random(&20, &30, &o);
        assert!(r.top_left.x - 1 >= 0);
        assert!(r.top_left.y - 1 >= 0);
        assert!(r.bottom_right.x + 1 <= 29);
        assert!(r.bottom_right.y + 1 <= 19);
        assert_eq!(r.doors().len(), 0);
    }
}
