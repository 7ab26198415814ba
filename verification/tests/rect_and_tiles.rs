use rogue_core::components::{Color, Point, Position};
use rogue_core::maps::{floor_tile, wall_tile, Room, TileGrid, TileType};
use rogue_core::rect::Rectangle;

#[test]
fn rectangle_new_sets_corners() {
    let r = Rectangle::new(3, 4, 2, 5);
    assert_eq!(r.x0, 3);
    assert_eq!(r.y0, 4);
    assert_eq!(r.x1, 5);
    assert_eq!(r.y1, 9);
}

#[test]
fn rectangle_center_truncates() {
    let r = Rectangle::new(3, 3, 2, 2);
    assert_eq!(r.center(), (4, 4));
    let r2 = Rectangle::new(0, 0, 5, 3);
    assert_eq!(r2.center(), (2, 1));
    // negative coordinates truncate toward zero, as the machine divides
    let r3 = Rectangle::new(-5, -5, 2, 2);
    assert_eq!(r3.center(), (-4, -4));
    let r4 = Rectangle::new(-3, -3, 3, 3);
    assert_eq!(r4.center(), (-1, -1));
}

#[test]
fn rectangle_intersects_overlapping() {
    let a = Rectangle::new(0, 0, 4, 4);
    let b = Rectangle::new(2, 2, 4, 4);
    assert!(a.intersects(&b));
    assert!(b.intersects(&a));
}

#[test]
fn rectangle_intersects_edge_touch_counts() {
    let a = Rectangle::new(0, 0, 4, 4);
    let b = Rectangle::new(4, 0, 4, 4);
    assert!(a.intersects(&b));
    let c = Rectangle::new(0, 4, 4, 4);
    assert!(a.intersects(&c));
}

#[test]
fn rectangle_intersects_separate_is_false() {
    let a = Rectangle::new(0, 0, 4, 4);
    let b = Rectangle::new(6, 6, 4, 4);
    assert!(!a.intersects(&b));
    assert!(!b.intersects(&a));
}

#[test]
fn room_wraps_rectangle() {
    let a = Room::new(1, 1, 6, 6);
    let b = Room::new(9, 9, 6, 6);
    assert!(!a.intersects(&b));
    assert_eq!(a.center(), (4, 4));
    let c = Room::new(5, 5, 6, 6);
    assert!(a.intersects(&c));
}

#[test]
fn fresh_grid_is_all_wall_and_unseen() {
    let g = TileGrid::new(10, 10);
    assert_eq!(g.width, 10);
    assert_eq!(g.height, 10);
    assert!(g.rooms.is_empty());
    for y in 0..10 {
        for x in 0..10 {
            assert!(g.is_solid(x, y));
            let idx = g.coord_to_idx(x, y);
            assert!(g.is_opaque(idx));
            assert!(!g.revealed[idx]);
            assert!(!g.visible[idx]);
        }
    }
}

#[test]
fn is_inside_matches_strict_bounds() {
    let g = TileGrid::new(10, 8);
    assert!(g.is_inside(0, 0));
    assert!(g.is_inside(9, 7));
    assert!(!g.is_inside(10, 0));
    assert!(!g.is_inside(0, 8));
    assert!(!g.is_inside(-1, 0));
    assert!(!g.is_inside(0, -1));
}

#[test]
fn set_and_get_tile() {
    let mut g = TileGrid::new(10, 10);
    g.set_tile_at(3, 4, floor_tile());
    assert!(!g.is_solid(3, 4));
    assert!(g.is_solid(4, 3));
    match g.get_tile_at(3, 4) {
        TileType::Floor(_) => {}
        TileType::Wall(_) => panic!("cell should be floor"),
    }
    g.set_tile_at(3, 4, wall_tile());
    assert!(g.is_solid(3, 4));
}

#[test]
fn coord_to_idx_is_row_major() {
    let g = TileGrid::new(10, 10);
    assert_eq!(g.coord_to_idx(0, 0), 0);
    assert_eq!(g.coord_to_idx(3, 2), 23);
    assert_eq!(g.coord_to_idx(9, 9), 99);
}

#[test]
fn dimensions_returns_width_and_height() {
    let g = TileGrid::new(12, 7);
    let d = g.dimensions();
    assert_eq!(d, Point { x: 12, y: 7 });
}

#[test]
fn greyscale_is_bt709_luma() {
    let c = Color { r: 100, g: 200, b: 50 };
    let grey = c.to_greyscale();
    // (2126 * 100 + 7152 * 200 + 722 * 50) / 10000 = 167
    assert_eq!(grey, Color { r: 167, g: 167, b: 167 });
    let white = Color { r: 255, g: 255, b: 255 };
    assert_eq!(white.to_greyscale(), Color { r: 255, g: 255, b: 255 });
    let black = Color { r: 0, g: 0, b: 0 };
    assert_eq!(black.to_greyscale(), black);
}

#[test]
fn render_cell_follows_flags() {
    let mut g = TileGrid::new(4, 4);
    let idx = g.coord_to_idx(1, 1);
    // never revealed: nothing to draw
    assert!(g.render_cell(idx).is_none());
    // revealed and visible: the tile's own colors
    g.set_revealed(&Point { x: 1, y: 1 }, true);
    g.set_visible(&Point { x: 1, y: 1 }, true);
    let lit = g.render_cell(idx).unwrap();
    assert_eq!(lit.glyph, 35);
    assert_eq!(lit.fg, Color { r: 0, g: 255, b: 0 });
    assert_eq!(lit.bg, Color { r: 0, g: 0, b: 0 });
    // revealed but no longer visible: greyscaled foreground
    g.set_visible(&Point { x: 1, y: 1 }, false);
    let dim = g.render_cell(idx).unwrap();
    assert_eq!(dim.glyph, 35);
    // (7152 * 255) / 10000 = 182
    assert_eq!(dim.fg, Color { r: 182, g: 182, b: 182 });
}

#[test]
fn visibility_flags_read_back() {
    let mut g = TileGrid::new(6, 6);
    assert!(!g.is_visible(&Position { x: 2, y: 2 }));
    g.set_visible(&Point { x: 2, y: 2 }, true);
    assert!(g.is_visible(&Position { x: 2, y: 2 }));
    g.set_visible(&Point { x: 2, y: 2 }, false);
    assert!(!g.is_visible(&Position { x: 2, y: 2 }));
}
