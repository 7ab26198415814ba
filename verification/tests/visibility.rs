use rogue_core::components::{FoV, Point, Position};
use rogue_core::maps::{wall_tile, Room, TileGrid};
use rogue_core::visibility::{Observer, VisibilitySystem};

fn room_scenario() -> (TileGrid, Position, FoV) {
    // a 10 x 10 grid, all wall; carve a 3 x 3 room at (3, 3)
    let mut g = TileGrid::new(10, 10);
    g.add_room(Room::new(3, 3, 2, 2));
    let pos = Position { x: 4, y: 4 };
    let fov = FoV::new(8);
    (g, pos, fov)
}

fn visible_points(fov: &FoV) -> Vec<(i32, i32)> {
    let mut v: Vec<(i32, i32)> = fov.visible_tiles.iter().map(|p| (p.x, p.y)).collect();
    v.sort();
    v
}

#[test]
fn single_room_sees_exactly_its_interior() {
    let (mut g, pos, mut fov) = room_scenario();
    assert!(fov.dirty);
    VisibilitySystem::recompute(&mut g, &pos, &mut fov, true);
    assert!(!fov.dirty);
    // exactly the nine room-interior points, nothing outside
    let got = visible_points(&fov);
    let mut want: Vec<(i32, i32)> = Vec::new();
    for x in 3..=5 {
        for y in 3..=5 {
            want.push((x, y));
        }
    }
    want.sort();
    assert_eq!(got, want);
    // the grid's shared flags agree for the primary observer
    for y in 0..10 {
        for x in 0..10 {
            let idx = g.coord_to_idx(x, y);
            let in_room = (3..=5).contains(&x) && (3..=5).contains(&y);
            assert_eq!(g.visible[idx], in_room);
            assert_eq!(g.revealed[idx], in_room);
        }
    }
}

#[test]
fn recompute_with_clean_cache_is_a_no_op() {
    let (mut g, pos, mut fov) = room_scenario();
    VisibilitySystem::recompute(&mut g, &pos, &mut fov, true);
    let pts_before = visible_points(&fov);
    let visible_before = g.visible.clone();
    let revealed_before = g.revealed.clone();
    // dirty is now false, so the second call must change nothing
    assert!(!fov.dirty);
    VisibilitySystem::recompute(&mut g, &pos, &mut fov, true);
    assert!(!fov.dirty);
    assert_eq!(visible_points(&fov), pts_before);
    assert_eq!(g.visible, visible_before);
    assert_eq!(g.revealed, revealed_before);
}

#[test]
fn revealed_is_monotone_across_moves() {
    // two rooms joined by a corridor; the observer walks from one to the other
    let mut g = TileGrid::new(30, 12);
    g.add_room(Room::new(2, 2, 4, 4));
    g.add_room(Room::new(20, 2, 4, 4));
    g.add_horizontal_tunnel(4, 22, 4);
    let mut fov = FoV::new(6);
    let mut pos = Position { x: 4, y: 4 };
    VisibilitySystem::recompute(&mut g, &pos, &mut fov, true);
    let snapshot = g.revealed.clone();
    // move the observer along the corridor and recompute
    pos = Position { x: 10, y: 4 };
    fov.dirty = true;
    VisibilitySystem::recompute(&mut g, &pos, &mut fov, true);
    for idx in 0..snapshot.len() {
        if snapshot[idx] {
            assert!(g.revealed[idx], "revealed flag lost at index {}", idx);
        }
    }
}

#[test]
fn visible_is_subset_of_revealed() {
    let mut g = TileGrid::new(30, 12);
    g.add_room(Room::new(2, 2, 4, 4));
    g.add_horizontal_tunnel(4, 25, 4);
    let mut fov = FoV::new(5);
    let mut pos = Position { x: 4, y: 4 };
    VisibilitySystem::recompute(&mut g, &pos, &mut fov, true);
    pos = Position { x: 12, y: 4 };
    fov.dirty = true;
    VisibilitySystem::recompute(&mut g, &pos, &mut fov, true);
    for idx in 0..g.visible.len() {
        if g.visible[idx] {
            assert!(g.revealed[idx]);
        }
    }
}

#[test]
fn adjacent_unobstructed_point_is_visible() {
    let (mut g, pos, mut fov) = room_scenario();
    VisibilitySystem::recompute(&mut g, &pos, &mut fov, true);
    // all eight neighbours of (4, 4) are room floor and at distance 1
    for dx in -1..=1 {
        for dy in -1..=1 {
            if dx != 0 || dy != 0 {
                let p = Point { x: 4 + dx, y: 4 + dy };
                assert!(fov.visible_tiles.contains(&p), "neighbour {:?} not visible", p);
            }
        }
    }
}

#[test]
fn wall_between_removes_far_point() {
    // a long open corridor along row 2
    let mut g = TileGrid::new(20, 5);
    g.add_horizontal_tunnel(1, 12, 2);
    let pos = Position { x: 1, y: 2 };
    let mut fov = FoV::new(10);
    VisibilitySystem::recompute(&mut g, &pos, &mut fov, true);
    assert!(fov.visible_tiles.contains(&Point { x: 8, y: 2 }));
    // drop a wall directly between the observer and that far point
    g.set_tile_at(5, 2, wall_tile());
    fov.dirty = true;
    VisibilitySystem::recompute(&mut g, &pos, &mut fov, true);
    assert!(!fov.visible_tiles.contains(&Point { x: 8, y: 2 }));
    // the near side of the corridor is still seen
    assert!(fov.visible_tiles.contains(&Point { x: 4, y: 2 }));
    // the wall itself blocks sight and is not in the visible set
    assert!(!fov.visible_tiles.contains(&Point { x: 5, y: 2 }));
}

#[test]
fn non_primary_observer_leaves_grid_flags_alone() {
    let (mut g, pos, mut fov) = room_scenario();
    VisibilitySystem::recompute(&mut g, &pos, &mut fov, false);
    assert!(!fov.dirty);
    assert!(!fov.visible_tiles.is_empty());
    for idx in 0..g.visible.len() {
        assert!(!g.visible[idx]);
        assert!(!g.revealed[idx]);
    }
}

#[test]
fn run_processes_the_whole_registry() {
    let mut g = TileGrid::new(30, 12);
    g.add_room(Room::new(2, 2, 4, 4));
    g.add_room(Room::new(20, 2, 4, 4));
    let mut observers = vec![
        Observer { pos: Position { x: 4, y: 4 }, fov: FoV::new(8), primary: true },
        Observer { pos: Position { x: 22, y: 4 }, fov: FoV::new(8), primary: false },
    ];
    let engine = VisibilitySystem {};
    engine.run(&mut g, &mut observers);
    assert!(!observers[0].fov.dirty);
    assert!(!observers[1].fov.dirty);
    assert!(!observers[0].fov.visible_tiles.is_empty());
    assert!(!observers[1].fov.visible_tiles.is_empty());
    // only the primary observer's sight reaches the shared flags
    let idx_far = g.coord_to_idx(22, 4);
    assert!(!g.visible[idx_far]);
    let idx_near = g.coord_to_idx(4, 4);
    assert!(g.visible[idx_near]);
    assert!(g.revealed[idx_near]);
    // a clean registry makes the next pass a no-op
    let visible_before = g.visible.clone();
    engine.run(&mut g, &mut observers);
    assert_eq!(g.visible, visible_before);
}

#[test]
fn range_zero_sees_only_the_origin() {
    let (mut g, pos, _) = room_scenario();
    let mut fov = FoV::new(0);
    VisibilitySystem::recompute(&mut g, &pos, &mut fov, true);
    assert_eq!(visible_points(&fov), vec![(4, 4)]);
}

#[test]
fn fov_cache_starts_dirty_and_empty() {
    let fov = FoV::new(8);
    assert!(fov.dirty);
    assert_eq!(fov.range, 8);
    assert!(fov.visible_tiles.is_empty());
}
