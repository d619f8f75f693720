use dungeon::grid::{CellType, DirectionX, DirectionY, Dungeon, Grid};
use dungeon::Point;

#[test]
fn grid_new_dimensions() {
    let g = Grid::new(10, 12);
    assert_eq!(g.width(), 10);
    assert_eq!(g.height(), 12);
    assert_eq!(g.cell(0, 0), None);
    assert_eq!(g.cell(9, 11), None);
}

#[test]
fn dungeon_dimensions() {
    let d = Dungeon::new(Grid::new(7, 9));
    assert_eq!(d.width(), 7);
    assert_eq!(d.height(), 9);
}

#[test]
fn dig_last_write_wins() {
    let mut g = Grid::new(10, 10);
    let p = Point { x: 3, y: 4 };
    g.dig(&p, CellType::Wall);
    assert_eq!(g.cell(3, 4), Some(CellType::Wall));
    g.dig(&p, CellType::Empty);
    assert_eq!(g.cell(3, 4), Some(CellType::Empty));
    g.dig(&p, CellType::Door);
    assert_eq!(g.cell(3, 4), Some(CellType::Door));
    assert_eq!(g.cell(4, 3), None);
}

#[test]
fn is_wall_only_on_walls() {
    let mut g = Grid::new(10, 10);
    g.dig(&Point { x: 1, y: 1 }, CellType::Wall);
    g.dig(&Point { x: 2, y: 1 }, CellType::Empty);
    g.dig(&Point { x: 3, y: 1 }, CellType::Door);
    assert!(g.is_wall(&Point { x: 1, y: 1 }));
    assert!(!g.is_wall(&Point { x: 2, y: 1 }));
    assert!(!g.is_wall(&Point { x: 3, y: 1 }));
    assert!(!g.is_wall(&Point { x: 5, y: 5 }));
}

#[test]
fn can_dig_bounds_and_floor() {
    let mut g = Grid::new(10, 10);
    assert!(g.can_dig(&Point { x: 0, y: 0 }));
    assert!(g.can_dig(&Point { x: 9, y: 9 }));
    assert!(!g.can_dig(&Point { x: -1, y: 0 }));
    assert!(!g.can_dig(&Point { x: 0, y: -1 }));
    assert!(!g.can_dig(&Point { x: 10, y: 0 }));
    assert!(!g.can_dig(&Point { x: 0, y: 10 }));
    g.dig(&Point { x: 4, y: 4 }, CellType::Empty);
    g.dig(&Point { x: 5, y: 4 }, CellType::Wall);
    g.dig(&Point { x: 6, y: 4 }, CellType::Door);
    assert!(!g.can_dig(&Point { x: 4, y: 4 }));
    assert!(g.can_dig(&Point { x: 5, y: 4 }));
    assert!(g.can_dig(&Point { x: 6, y: 4 }));
}

#[test]
fn direction_unit_steps() {
    assert_eq!(DirectionX::Left.step(), -1);
    assert_eq!(DirectionX::Right.step(), 1);
    assert_eq!(DirectionX::Zero.step(), 0);
    assert_eq!(DirectionY::Down.step(), 1);
    assert_eq!(DirectionY::Up.step(), -1);
    assert_eq!(DirectionY::Zero.step(), 0);
}

#[test]
fn point_row_major_order() {
    let a = Point { x: 9, y: 0 };
    let b = Point { x: 0, y: 1 };
    let c = Point { x: 1, y: 1 };
    assert!(a < b);
    assert!(b < c);
    assert!(a < c);
    assert!(c > b);
    assert!(Point { x: 2, y: 3 } == Point { x: 2, y: 3 });
    assert_eq!(
        Point { x: 2, y: 3 }.partial_cmp(&Point { x: 2, y: 3 }),
        Some(std::cmp::Ordering::Equal)
    );
    assert!(!(b < a));
}
