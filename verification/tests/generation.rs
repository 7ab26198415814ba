use rogue_core::maps::{Room, TileGrid};
use rogue_core::rng::Rng;

#[test]
fn rng_is_seeded_and_bounded() {
    let mut a = Rng::seeded(7);
    let mut b = Rng::seeded(7);
    for _ in 0..100 {
        let va = a.range(3, 11);
        let vb = b.range(3, 11);
        assert_eq!(va, vb);
        assert!((3..11).contains(&va));
    }
    let mut c = Rng::seeded(8);
    let mut any_different = false;
    let mut a2 = Rng::seeded(7);
    for _ in 0..100 {
        if a2.range(0, 1000) != c.range(0, 1000) {
            any_different = true;
        }
    }
    assert!(any_different);
}

#[test]
fn add_room_carves_the_whole_footprint() {
    let mut g = TileGrid::new(10, 10);
    let room = Room::new(3, 3, 2, 2);
    g.add_room(room);
    assert_eq!(g.rooms.len(), 1);
    for y in 0..10 {
        for x in 0..10 {
            let in_room = (3..=5).contains(&x) && (3..=5).contains(&y);
            assert_eq!(!g.is_solid(x, y), in_room, "cell ({}, {})", x, y);
        }
    }
}

#[test]
fn try_to_add_room_rejects_overlap_and_touch() {
    let mut g = TileGrid::new(30, 30);
    assert!(g.try_to_add_room(Room::new(2, 2, 6, 6)));
    // overlapping candidate
    assert!(!g.try_to_add_room(Room::new(5, 5, 6, 6)));
    // candidate that merely touches the first room's edge
    assert!(!g.try_to_add_room(Room::new(8, 2, 6, 6)));
    // far-away candidate
    assert!(g.try_to_add_room(Room::new(15, 15, 6, 6)));
    assert_eq!(g.rooms.len(), 2);
}

#[test]
fn tunnels_carve_straight_floor_runs() {
    let mut g = TileGrid::new(20, 20);
    g.add_horizontal_tunnel(3, 12, 5);
    for x in 3..=12 {
        assert!(!g.is_solid(x, 5));
    }
    assert!(g.is_solid(2, 5));
    assert!(g.is_solid(13, 5));
    // endpoint order must not matter
    g.add_vertical_tunnel(14, 6, 8);
    for y in 6..=14 {
        assert!(!g.is_solid(8, y));
    }
    // the crossing cell (8, 5) sits on the horizontal run and stays floor
    assert!(!g.is_solid(8, 5));
    assert!(g.is_solid(8, 15));
    assert!(g.is_solid(7, 6));
}

#[test]
fn two_seeded_rooms_connected_by_l_tunnel() {
    // two rooms sampled at fixed seeds; the run is reproducible
    let mut rng_a = Rng::seeded(11);
    let mut rng_b = Rng::seeded(101);
    let a = Room::random_size(40, 40, &mut rng_a);
    let b = Room::random_size(40, 40, &mut rng_b);
    assert!(!a.intersects(&b));
    let mut g = TileGrid::new(40, 40);
    g.add_room(a);
    g.add_room(b);
    let (ax, ay) = a.center();
    let (bx, by) = b.center();
    g.add_horizontal_tunnel(ax, bx, ay);
    g.add_vertical_tunnel(ay, by, bx);
    // every cell along both straight legs is floor: a gap-free path joining
    // the two centers
    for x in ax.min(bx)..=ax.max(bx) {
        assert!(!g.is_solid(x, ay), "horizontal leg broken at ({}, {})", x, ay);
    }
    for y in ay.min(by)..=ay.max(by) {
        assert!(!g.is_solid(bx, y), "vertical leg broken at ({}, {})", bx, y);
    }
}

#[test]
fn generated_map_rooms_are_disjoint_and_floored() {
    let mut rng = Rng::seeded(42);
    let g = TileGrid::new_random(80, 50, &mut rng);
    assert!(!g.rooms.is_empty());
    assert!(g.rooms.len() <= 30);
    // no two accepted rooms overlap or touch
    for i in 0..g.rooms.len() {
        for j in 0..g.rooms.len() {
            if i != j {
                assert!(!g.rooms[i].intersects(&g.rooms[j]));
            }
        }
    }
    // every cell of every accepted room is floor
    for room in g.rooms.iter() {
        for y in room.pos.y0..=room.pos.y1 {
            for x in room.pos.x0..=room.pos.x1 {
                assert!(!g.is_solid(x, y));
            }
        }
    }
    // rooms stay strictly inside the outer bounds
    for room in g.rooms.iter() {
        assert!(room.pos.x0 >= 1 && room.pos.x1 <= 80 - 2);
        assert!(room.pos.y0 >= 1 && room.pos.y1 <= 50 - 2);
    }
}

#[test]
fn generated_map_consecutive_rooms_are_connected() {
    let mut rng = Rng::seeded(3);
    let g = TileGrid::new_random(80, 50, &mut rng);
    for k in 1..g.rooms.len() {
        let (ax, ay) = g.rooms[k - 1].center();
        let (bx, by) = g.rooms[k].center();
        let hseg_at = |y: i32| -> bool {
            (ax.min(bx)..=ax.max(bx)).all(|x| !g.is_solid(x, y))
        };
        let vseg_at = |x: i32| -> bool {
            (ay.min(by)..=ay.max(by)).all(|y| !g.is_solid(x, y))
        };
        assert!(
            (hseg_at(ay) && vseg_at(bx)) || (vseg_at(ax) && hseg_at(by)),
            "rooms {} and {} are not joined by an L-shaped corridor",
            k - 1,
            k
        );
    }
}

#[test]
fn generation_is_reproducible_per_seed() {
    let mut r1 = Rng::seeded(9);
    let mut r2 = Rng::seeded(9);
    let g1 = TileGrid::new_random(60, 40, &mut r1);
    let g2 = TileGrid::new_random(60, 40, &mut r2);
    assert_eq!(g1.rooms.len(), g2.rooms.len());
    for y in 0..40 {
        for x in 0..60 {
            assert_eq!(g1.is_solid(x, y), g2.is_solid(x, y));
        }
    }
}

#[test]
fn tunnel_endpoint_order_is_irrelevant() {
    let mut g1 = TileGrid::new(20, 20);
    let mut g2 = TileGrid::new(20, 20);
    g1.add_horizontal_tunnel(3, 12, 5);
    g2.add_horizontal_tunnel(12, 3, 5);
    assert_eq!(g1.tiles, g2.tiles);
    g1.add_vertical_tunnel(2, 17, 9);
    g2.add_vertical_tunnel(17, 2, 9);
    assert_eq!(g1.tiles, g2.tiles);
}

#[test]
fn widest_accepted_grid_still_indexes_correctly() {
    let g = TileGrid::new(4096, 4);
    assert_eq!(g.coord_to_idx(4095, 3), 4 * 4096 - 1);
    assert!(g.is_solid(4095, 3));
    assert!(!g.is_inside(4096, 0));
}

#[test]
fn smallest_accepted_generator_grid_produces_a_room() {
    let mut rng = Rng::seeded(1);
    let g = TileGrid::new_random(14, 14, &mut rng);
    assert!(!g.rooms.is_empty());
    for room in g.rooms.iter() {
        assert!(room.pos.x0 >= 1 && room.pos.x1 <= 12);
        assert!(room.pos.y0 >= 1 && room.pos.y1 <= 12);
    }
}

#[test]
fn fully_random_map_has_wall_ring_and_open_center() {
    let mut rng = Rng::seeded(5);
    let g = TileGrid::new_fully_random(30, 20, &mut rng);
    assert!(g.rooms.is_empty());
    for x in 0..30 {
        assert!(g.is_solid(x, 0));
        assert!(g.is_solid(x, 19));
    }
    for y in 0..20 {
        assert!(g.is_solid(0, y));
        assert!(g.is_solid(29, y));
    }
    // the exact center cell is skipped by the wall scatter
    assert!(!g.is_solid(15, 10));
}
