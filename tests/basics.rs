use arroba::geometry::Rect;
use arroba::spawn::{from_dungeon_level, Transition};
use arroba::text::int_text;
use arroba::tiles::{DungeonMap, Tile, Visibility};

#[test]
fn rect_corners_and_center() {
    let r = Rect::new(2, 3, 6, 8);
    assert_eq!((r.x1, r.y1, r.x2, r.y2), (2, 3, 8, 11));
    assert_eq!(r.center(), (5, 7));
}

#[test]
fn touching_rects_intersect() {
    let a = Rect::new(0, 0, 6, 6);
    let b = Rect::new(6, 0, 6, 6);
    let c = Rect::new(7, 0, 6, 6);
    assert!(a.intersects_with(&b));
    assert!(b.intersects_with(&a));
    assert!(!a.intersects_with(&c));
}

#[test]
fn step_curve_lookup() {
    let table = vec![
        Transition { level: 1, value: 2 },
        Transition { level: 4, value: 3 },
        Transition { level: 6, value: 5 },
    ];
    assert_eq!(from_dungeon_level(&table, 0), 0);
    assert_eq!(from_dungeon_level(&table, 1), 2);
    assert_eq!(from_dungeon_level(&table, 3), 2);
    assert_eq!(from_dungeon_level(&table, 4), 3);
    assert_eq!(from_dungeon_level(&table, 9), 5);
    assert_eq!(from_dungeon_level(&[], 9), 0);
}

#[test]
fn integer_text() {
    assert_eq!(int_text(0), "0");
    assert_eq!(int_text(40), "40");
    assert_eq!(int_text(-305), "-305");
    assert_eq!(int_text(i32::MIN), "-2147483648");
    assert_eq!(int_text(i32::MAX), "2147483647");
}

#[test]
fn tiles_and_map() {
    let mut map = DungeonMap::filled_with_walls();
    assert_eq!(map.tiles.len(), 80 * 43);
    assert!(map.tile(5, 5).blocked);
    map.set_tile(5, 5, Tile::empty());
    assert!(!map.tile(5, 5).blocked);
    assert!(map.tile(5, 6).blocked);
    assert!(map.is_passable(5, 5));
    assert!(!map.is_passable(-1, 5));
    assert!(!map.is_passable(80, 5));
    assert_eq!(Tile::wall().block_sight, true);
    assert_eq!(Tile::empty().block_sight, false);
}

#[test]
fn visibility_grid() {
    let mut fov = Visibility::new();
    assert!(!fov.is_in_fov(3, 3));
    fov.set_visible(3, 3, true);
    assert!(fov.is_in_fov(3, 3));
    assert!(!fov.is_in_fov(3, 4));
    assert!(!fov.is_in_fov(-3, 4));
}
