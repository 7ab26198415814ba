//! The visibility engine: per observer it recomputes the set of currently
//! visible tiles when the observer's cache asks for it, and for the primary
//! observer it propagates the result into the grid's shared reveal and
//! visibility flags.

use vstd::prelude::*;

use crate::components::{FoV, Point, Position};
use crate::fov::{field_of_view, lemma_visible_from_congruent, visible_from};
use crate::maps::TileGrid;

verus! {

/// One record of the observer registry that the engine iterates: a position,
/// a field-of-view cache, and whether this is the primary observer whose
/// sight feeds the grid's shared flags.
pub struct Observer {
    pub pos: Position,
    pub fov: FoV,
    pub primary: bool,
}

/// The flat index `i` of `g` names a cell visible from `pos` within `range`.
pub open spec fn visible_idx(g: TileGrid, pos: Position, range: i32, i: int) -> bool {
    visible_from(
        g,
        pos.x as int,
        pos.y as int,
        range as int,
        i % (g.width as int),
        i / (g.width as int),
    )
}

/// Everything one recompute promises, relating the grid and the observer's
/// cache before (`m0`, `f0`) and after (`m1`, `f1`) the call. A clean cache
/// makes the call a no-op; a dirty cache is rebuilt to exactly the visible
/// set and cleaned, and for the primary observer the grid's `visible` flags
/// are rebuilt from scratch while `revealed` only ever gains cells.
pub open spec fn recompute_post(
    m0: TileGrid,
    f0: FoV,
    pos: Position,
    primary: bool,
    m1: TileGrid,
    f1: FoV,
) -> bool {
    if !f0.dirty {
        m1 == m0 && f1 == f0
    } else {
        &&& f1.range == f0.range
        &&& f1.dirty == false
        &&& forall|p: Point|
            #[trigger] f1.visible_tiles@.contains(p) <==> visible_from(
                m0,
                pos.x as int,
                pos.y as int,
                f0.range as int,
                p.x as int,
                p.y as int,
            )
        &&& m1.width == m0.width
        &&& m1.height == m0.height
        &&& m1.tiles == m0.tiles
        &&& m1.rooms == m0.rooms
        &&& m1.revealed@.len() == m0.revealed@.len()
        &&& m1.visible@.len() == m0.visible@.len()
        &&& if primary {
            &&& forall|i: int|
                0 <= i < m0.area() ==> (#[trigger] m1.visible@[i]) == visible_idx(
                    m0,
                    pos,
                    f0.range,
                    i,
                )
            &&& forall|i: int|
                0 <= i < m0.area() ==> (#[trigger] m1.revealed@[i]) == (m0.revealed@[i]
                    || visible_idx(m0, pos, f0.range, i))
        } else {
            m1.revealed == m0.revealed && m1.visible == m0.visible
        }
    }
}

/// The visibility engine.
pub struct VisibilitySystem {}

impl TileGrid {
    /// Reset every cell's "currently visible" flag to false.
    fn clear_visible(&mut self)
        requires
            old(self).wf(),
        ensures
            final(self).wf(),
            final(self).width == old(self).width,
            final(self).height == old(self).height,
            final(self).tiles == old(self).tiles,
            final(self).rooms == old(self).rooms,
            final(self).revealed == old(self).revealed,
            final(self).visible@.len() == old(self).visible@.len(),
            forall|j: int|
                0 <= j < final(self).visible@.len() ==> !(#[trigger] final(self).visible@[j]),
    {
        let n = self.visible.len();
        let mut i: usize = 0;
        while i < n
            invariant
                old(self).wf(),
                self.width == old(self).width,
                self.height == old(self).height,
                self.tiles == old(self).tiles,
                self.rooms == old(self).rooms,
                self.revealed == old(self).revealed,
                self.visible@.len() == old(self).visible@.len(),
                n == self.visible@.len(),
                i <= n,
                forall|j: int| 0 <= j < i ==> !(#[trigger] self.visible@[j]),
            decreases n - i,
        {
            self.visible[i] = false;
            i = i + 1;
        }
    }
}

/// A point of `ps` before position `t` lands on flat index `j` of `g0`.
pub open spec fn stamped(g0: TileGrid, ps: Seq<Point>, t: int, j: int) -> bool {
    exists|u: int|
        0 <= u < t && g0.idx_of((#[trigger] ps[u]).x as int, ps[u].y as int) == j
}

impl VisibilitySystem {
    /// Recompute one observer's field of view when its cache asks for it.
    /// A clean cache skips the call entirely — the sole optimization gate.
    /// A dirty cache is cleared, rebuilt to the exact visible set from the
    /// observer's position, and marked clean; for the primary observer the
    /// grid's `visible` flags are then reset and rebuilt from that set, and
    /// each of its points is marked `revealed` forever.
    pub fn recompute(map: &mut TileGrid, pos: &Position, fov: &mut FoV, primary: bool)
        requires
            old(map).wf(),
            old(map).in_bounds(pos.x as int, pos.y as int),
            old(fov).range >= 0,
        ensures
            recompute_post(*old(map), *old(fov), *pos, primary, *final(map), *final(fov)),
            final(map).wf(),
    {
        if !fov.dirty {
            return;
        }
        fov.dirty = false;
        let pts = field_of_view(map, pos.x, pos.y, fov.range);
        fov.visible_tiles = pts;
        if primary {
            let ghost m0 = *old(map);
            map.clear_visible();
            let n = fov.visible_tiles.len();
            let mut t: usize = 0;
            while t < n
                invariant
                    m0 == *old(map),
                    m0.wf(),
                    m0.in_bounds(pos.x as int, pos.y as int),
                    fov.range == old(fov).range,
                    fov.range >= 0,
                    n == fov.visible_tiles@.len(),
                    t <= n,
                    forall|p: Point|
                        #[trigger] fov.visible_tiles@.contains(p) <==> visible_from(
                            m0,
                            pos.x as int,
                            pos.y as int,
                            fov.range as int,
                            p.x as int,
                            p.y as int,
                        ),
                    map.wf(),
                    map.width == m0.width,
                    map.height == m0.height,
                    map.tiles == m0.tiles,
                    map.rooms == m0.rooms,
                    map.revealed@.len() == m0.revealed@.len(),
                    map.visible@.len() == m0.visible@.len(),
                    forall|j: int|
                        0 <= j < m0.area() ==> (#[trigger] map.visible@[j]) == stamped(
                            m0,
                            fov.visible_tiles@,
                            t as int,
                            j,
                        ),
                    forall|j: int|
                        0 <= j < m0.area() ==> (#[trigger] map.revealed@[j]) == (m0.revealed@[j]
                            || stamped(m0, fov.visible_tiles@, t as int, j)),
                decreases n - t,
            {
                let ghost ps = fov.visible_tiles@;
                let ghost mprev = *map;
                let p = fov.visible_tiles[t];
                proof {
                    assert(ps[t as int] == p);
                    assert(ps.contains(p));
                    assert(visible_from(
                        m0,
                        pos.x as int,
                        pos.y as int,
                        fov.range as int,
                        p.x as int,
                        p.y as int,
                    ));
                    if !(p.x as int == pos.x as int && p.y as int == pos.y as int) {
                        assert(m0.in_bounds(p.x as int, p.y as int));
                    }
                    assert(map.in_bounds(p.x as int, p.y as int));
                    map.lemma_idx_in_range(p.x as int, p.y as int);
                }
                map.set_revealed(&p, true);
                map.set_visible(&p, true);
                proof {
                    let jp = m0.idx_of(p.x as int, p.y as int);
                    assert(map.idx_of(p.x as int, p.y as int) == jp);
                    assert forall|j: int|
                        0 <= j < m0.area() implies (#[trigger] map.visible@[j]) == stamped(
                        m0,
                        ps,
                        t + 1,
                        j,
                    ) by {
                        if j == jp {
                            assert(map.visible@[j]);
                            assert(0 <= t < t + 1 && m0.idx_of(ps[t as int].x as int, ps[t as int].y as int) == j);
                            assert(stamped(m0, ps, t + 1, j));
                        } else {
                            assert(map.visible@[j] == mprev.visible@[j]);
                            if stamped(m0, ps, t + 1, j) {
                                let u = choose|u: int|
                                    0 <= u < t + 1 && m0.idx_of(
                                        (#[trigger] ps[u]).x as int,
                                        ps[u].y as int,
                                    ) == j;
                                assert(u < t);
                                assert(stamped(m0, ps, t as int, j));
                            }
                            if stamped(m0, ps, t as int, j) {
                                let u = choose|u: int|
                                    0 <= u < t && m0.idx_of(
                                        (#[trigger] ps[u]).x as int,
                                        ps[u].y as int,
                                    ) == j;
                                assert(stamped(m0, ps, t + 1, j));
                            }
                        }
                    }
                    assert forall|j: int|
                        0 <= j < m0.area() implies (#[trigger] map.revealed@[j]) == (
                    m0.revealed@[j] || stamped(m0, ps, t + 1, j)) by {
                        if j == jp {
                            assert(map.revealed@[j]);
                            assert(0 <= t < t + 1 && m0.idx_of(ps[t as int].x as int, ps[t as int].y as int) == j);
                            assert(stamped(m0, ps, t + 1, j));
                        } else {
                            assert(map.revealed@[j] == mprev.revealed@[j]);
                            if stamped(m0, ps, t + 1, j) {
                                let u = choose|u: int|
                                    0 <= u < t + 1 && m0.idx_of(
                                        (#[trigger] ps[u]).x as int,
                                        ps[u].y as int,
                                    ) == j;
                                assert(u < t);
                                assert(stamped(m0, ps, t as int, j));
                            }
                            if stamped(m0, ps, t as int, j) {
                                let u = choose|u: int|
                                    0 <= u < t && m0.idx_of(
                                        (#[trigger] ps[u]).x as int,
                                        ps[u].y as int,
                                    ) == j;
                                assert(stamped(m0, ps, t + 1, j));
                            }
                        }
                    }
                }
                t = t + 1;
            }
            proof {
                let ghost m0g = *old(map);
                let ps = fov.visible_tiles@;
                let w = m0g.width as int;
                assert forall|j: int|
                    0 <= j < m0g.area() implies (#[trigger] map.visible@[j]) == visible_idx(
                    m0g,
                    *pos,
                    fov.range,
                    j,
                ) by {
                    m0g.lemma_idx_coords(j);
                    if stamped(m0g, ps, n as int, j) {
                        let u = choose|u: int|
                            0 <= u < n && m0g.idx_of((#[trigger] ps[u]).x as int, ps[u].y as int)
                                == j;
                        let p = ps[u];
                        assert(ps.contains(p));
                        assert(visible_from(
                            m0g,
                            pos.x as int,
                            pos.y as int,
                            fov.range as int,
                            p.x as int,
                            p.y as int,
                        ));
                        if !(p.x as int == pos.x as int && p.y as int == pos.y as int) {
                            assert(m0g.in_bounds(p.x as int, p.y as int));
                        }
                        m0g.lemma_coords_idx(p.x as int, p.y as int);
                        assert(p.x as int == j % w && p.y as int == j / w);
                        assert(visible_idx(m0g, *pos, fov.range, j));
                    }
                    if visible_idx(m0g, *pos, fov.range, j) {
                        let px = j % w;
                        let py = j / w;
                        let p = (Point { x: px as i32, y: py as i32 });
                        assert(visible_from(
                            m0g,
                            pos.x as int,
                            pos.y as int,
                            fov.range as int,
                            p.x as int,
                            p.y as int,
                        ));
                        assert(ps.contains(p));
                        let u = choose|u: int| 0 <= u < ps.len() && ps[u] == p;
                        assert(m0g.idx_of(p.x as int, p.y as int) == j);
                        assert(0 <= u < n && m0g.idx_of(ps[u].x as int, ps[u].y as int) == j);
                        assert(stamped(m0g, ps, n as int, j));
                    }
                }
                assert forall|j: int|
                    0 <= j < m0g.area() implies (#[trigger] map.revealed@[j]) == (m0g.revealed@[j]
                        || visible_idx(m0g, *pos, fov.range, j)) by {
                    assert(map.visible@[j] == visible_idx(m0g, *pos, fov.range, j));
                    assert(map.revealed@[j] == (m0g.revealed@[j] || stamped(m0g, ps, n as int, j)));
                    assert(map.visible@[j] == stamped(m0g, ps, n as int, j));
                }
            }
        }
    }
}

/// What one pass of the engine promises for each observer record: position,
/// primary flag and range untouched, the dirty flag lowered, a clean cache
/// left alone, and a dirty cache rebuilt to exactly the visible set.
pub open spec fn obs_post(m0: TileGrid, o0: Observer, o1: Observer) -> bool {
    &&& o1.pos == o0.pos
    &&& o1.primary == o0.primary
    &&& o1.fov.range == o0.fov.range
    &&& o1.fov.dirty == false
    &&& (!o0.fov.dirty ==> o1.fov == o0.fov)
    &&& (o0.fov.dirty ==> forall|p: Point|
        #[trigger] o1.fov.visible_tiles@.contains(p) <==> visible_from(
            m0,
            o0.pos.x as int,
            o0.pos.y as int,
            o0.fov.range as int,
            p.x as int,
            p.y as int,
        ))
}

/// The observer is the primary one and asked for a recompute.
pub open spec fn dirty_primary(o: Observer) -> bool {
    o.primary && o.fov.dirty
}

/// Some dirty primary observer before position `upto` sees flat index `j`.
pub open spec fn revealed_by(m0: TileGrid, obs: Seq<Observer>, upto: int, j: int) -> bool {
    exists|k: int|
        0 <= k < upto && dirty_primary(#[trigger] obs[k]) && visible_idx(
            m0,
            obs[k].pos,
            obs[k].fov.range,
            j,
        )
}

/// No observer in `[lo, hi)` is a dirty primary.
pub open spec fn no_dirty_primary(obs: Seq<Observer>, lo: int, hi: int) -> bool {
    forall|k: int| lo <= k < hi ==> !dirty_primary(#[trigger] obs[k])
}

impl VisibilitySystem {
    /// Recompute one observer record in place.
    fn recompute_observer(map: &mut TileGrid, o: &mut Observer)
        requires
            old(map).wf(),
            old(map).in_bounds(old(o).pos.x as int, old(o).pos.y as int),
            old(o).fov.range >= 0,
        ensures
            final(map).wf(),
            final(o).pos == old(o).pos,
            final(o).primary == old(o).primary,
            recompute_post(
                *old(map),
                old(o).fov,
                old(o).pos,
                old(o).primary,
                *final(map),
                final(o).fov,
            ),
    {
        let pos = o.pos;
        let primary = o.primary;
        VisibilitySystem::recompute(map, &pos, &mut o.fov, primary);
    }

    /// One pass of the engine over the whole observer registry, in order.
    /// Every dirty cache is rebuilt and cleaned; the grid's `revealed` flags
    /// gain exactly the cells seen by some dirty primary observer and lose
    /// none; and the `visible` flags end as the last dirty primary observer's
    /// sight — untouched if no observer was a dirty primary.
    pub fn run(&self, map: &mut TileGrid, observers: &mut Vec<Observer>)
        requires
            old(map).wf(),
            forall|i: int|
                0 <= i < old(observers)@.len() ==> old(map).in_bounds(
                    (#[trigger] old(observers)@[i]).pos.x as int,
                    old(observers)@[i].pos.y as int,
                ),
            forall|i: int|
                0 <= i < old(observers)@.len() ==> (#[trigger] old(observers)@[i]).fov.range >= 0,
        ensures
            final(map).wf(),
            final(observers)@.len() == old(observers)@.len(),
            forall|i: int|
                0 <= i < old(observers)@.len() ==> obs_post(
                    *old(map),
                    old(observers)@[i],
                    #[trigger] final(observers)@[i],
                ),
            final(map).width == old(map).width,
            final(map).height == old(map).height,
            final(map).tiles == old(map).tiles,
            final(map).rooms == old(map).rooms,
            final(map).revealed@.len() == old(map).revealed@.len(),
            final(map).visible@.len() == old(map).visible@.len(),
            forall|j: int|
                0 <= j < old(map).area() ==> (#[trigger] final(map).revealed@[j])
                    == (old(map).revealed@[j] || revealed_by(
                    *old(map),
                    old(observers)@,
                    old(observers)@.len() as int,
                    j,
                )),
            no_dirty_primary(old(observers)@, 0, old(observers)@.len() as int)
                ==> final(map).revealed == old(map).revealed && final(map).visible == old(
                map).visible,
            !no_dirty_primary(old(observers)@, 0, old(observers)@.len() as int) ==> exists|k: int|
                0 <= k < old(observers)@.len() && dirty_primary(#[trigger] old(observers)@[k])
                    && no_dirty_primary(old(observers)@, k + 1, old(observers)@.len() as int) && (
                forall|j: int|
                    0 <= j < old(map).area() ==> final(map).visible@[j] == visible_idx(
                        *old(map),
                        old(observers)@[k].pos,
                        old(observers)@[k].fov.range,
                        j,
                    )),
    {
        let ghost m0 = *old(map);
        let ghost obs0 = old(observers)@;
        let n = observers.len();
        let mut i: usize = 0;
        while i < n
            invariant
                m0.wf(),
                forall|k: int|
                    0 <= k < obs0.len() ==> m0.in_bounds(
                        (#[trigger] obs0[k]).pos.x as int,
                        obs0[k].pos.y as int,
                    ),
                forall|k: int| 0 <= k < obs0.len() ==> (#[trigger] obs0[k]).fov.range >= 0,
                n == obs0.len(),
                observers@.len() == n,
                i <= n,
                forall|k: int| i <= k < n ==> #[trigger] observers@[k] == obs0[k],
                forall|k: int|
                    0 <= k < i ==> obs_post(m0, obs0[k], #[trigger] observers@[k]),
                map.wf(),
                map.width == m0.width,
                map.height == m0.height,
                map.tiles == m0.tiles,
                map.rooms == m0.rooms,
                map.revealed@.len() == m0.revealed@.len(),
                map.visible@.len() == m0.visible@.len(),
                forall|j: int|
                    0 <= j < m0.area() ==> (#[trigger] map.revealed@[j]) == (m0.revealed@[j]
                        || revealed_by(m0, obs0, i as int, j)),
                no_dirty_primary(obs0, 0, i as int) ==> map.revealed == m0.revealed && map.visible
                    == m0.visible,
                !no_dirty_primary(obs0, 0, i as int) ==> exists|k: int|
                    0 <= k < i && dirty_primary(#[trigger] obs0[k]) && no_dirty_primary(
                        obs0,
                        k + 1,
                        i as int,
                    ) && (forall|j: int|
                        0 <= j < m0.area() ==> map.visible@[j] == visible_idx(
                            m0,
                            obs0[k].pos,
                            obs0[k].fov.range,
                            j,
                        )),
            decreases n - i,
        {
            let ghost mprev = *map;
            let ghost obs_prev = observers@;
            let ghost oi = obs0[i as int];
            proof {
                assert(observers@[i as int] == oi);
                assert(m0.in_bounds(oi.pos.x as int, oi.pos.y as int));
            }
            VisibilitySystem::recompute_observer(map, &mut observers[i]);
            proof {
                let o1 = observers@[i as int];
                let w = m0.width as int;
                // the same sight over the prior grid is the same sight over the
                // starting grid: only flags differed
                assert forall|j: int| 0 <= j < m0.area() implies visible_idx(
                    mprev,
                    oi.pos,
                    oi.fov.range,
                    j,
                ) == visible_idx(m0, oi.pos, oi.fov.range, j) by {
                    lemma_visible_from_congruent(
                        mprev,
                        m0,
                        oi.pos.x as int,
                        oi.pos.y as int,
                        oi.fov.range as int,
                        j % w,
                        j / w,
                    );
                }
                // the per-observer promise over the starting grid
                assert(obs_post(m0, oi, o1)) by {
                    if oi.fov.dirty {
                        assert forall|p: Point| #[trigger] o1.fov.visible_tiles@.contains(p)
                            == visible_from(
                            m0,
                            oi.pos.x as int,
                            oi.pos.y as int,
                            oi.fov.range as int,
                            p.x as int,
                            p.y as int,
                        ) by {
                            lemma_visible_from_congruent(
                                mprev,
                                m0,
                                oi.pos.x as int,
                                oi.pos.y as int,
                                oi.fov.range as int,
                                p.x as int,
                                p.y as int,
                            );
                        }
                    }
                }
                assert(observers@ == obs_prev.update(i as int, o1));
                assert forall|k: int|
                    0 <= k < i + 1 implies obs_post(m0, obs0[k], #[trigger] observers@[k]) by {
                    if k < i {
                        assert(observers@[k] == obs_prev[k]);
                    }
                }
                // revealed flags gain exactly what this observer saw, if it
                // was a dirty primary
                assert forall|j: int|
                    0 <= j < m0.area() implies (#[trigger] map.revealed@[j]) == (m0.revealed@[j]
                        || revealed_by(m0, obs0, i + 1, j)) by {
                    if dirty_primary(oi) {
                        assert(map.revealed@[j] == (mprev.revealed@[j] || visible_idx(
                            mprev,
                            oi.pos,
                            oi.fov.range,
                            j,
                        )));
                    } else {
                        assert(map.revealed@[j] == mprev.revealed@[j]);
                    }
                    if revealed_by(m0, obs0, i + 1, j) {
                        let k = choose|k: int|
                            0 <= k < i + 1 && dirty_primary(#[trigger] obs0[k]) && visible_idx(
                                m0,
                                obs0[k].pos,
                                obs0[k].fov.range,
                                j,
                            );
                        if k < i {
                            assert(revealed_by(m0, obs0, i as int, j));
                        }
                    }
                    if revealed_by(m0, obs0, i as int, j) {
                        let k = choose|k: int|
                            0 <= k < i && dirty_primary(#[trigger] obs0[k]) && visible_idx(
                                m0,
                                obs0[k].pos,
                                obs0[k].fov.range,
                                j,
                            );
                        assert(revealed_by(m0, obs0, i + 1, j));
                    }
                    if dirty_primary(oi) && visible_idx(m0, oi.pos, oi.fov.range, j) {
                        assert(0 <= (i as int) && (i as int) < i + 1 && dirty_primary(obs0[i as int])
                            && visible_idx(m0, obs0[i as int].pos, obs0[i as int].fov.range, j));
                        assert(revealed_by(m0, obs0, i + 1, j));
                    }
                }
                // the visible flags: rebuilt by a dirty primary, otherwise
                // carried over
                if dirty_primary(oi) {
                    assert(!no_dirty_primary(obs0, 0, i + 1));
                    assert(0 <= (i as int) && (i as int) < i + 1 && dirty_primary(obs0[i as int])
                        && no_dirty_primary(obs0, i + 1, i + 1) && (forall|j: int|
                        0 <= j < m0.area() ==> map.visible@[j] == visible_idx(
                            m0,
                            obs0[i as int].pos,
                            obs0[i as int].fov.range,
                            j,
                        )));
                } else {
                    assert(map.visible == mprev.visible);
                    assert(map.revealed == mprev.revealed);
                    if !no_dirty_primary(obs0, 0, i as int) {
                        let k = choose|k: int|
                            0 <= k < i && dirty_primary(#[trigger] obs0[k]) && no_dirty_primary(
                                obs0,
                                k + 1,
                                i as int,
                            ) && (forall|j: int|
                                0 <= j < m0.area() ==> mprev.visible@[j] == visible_idx(
                                    m0,
                                    obs0[k].pos,
                                    obs0[k].fov.range,
                                    j,
                                ));
                        assert(no_dirty_primary(obs0, k + 1, i + 1));
                        assert(!no_dirty_primary(obs0, 0, i + 1));
                    }
                }
            }
            i = i + 1;
        }
    }
}

/// Idempotence: a second recompute right after a first one, with nothing
/// moved and the cache left clean, is a no-op — the visible set and the grid
/// are unchanged and the cache stays clean.
pub proof fn lemma_recompute_idempotent(
    m0: TileGrid,
    f0: FoV,
    pos1: Position,
    pr1: bool,
    m1: TileGrid,
    f1: FoV,
    pos2: Position,
    pr2: bool,
    m2: TileGrid,
    f2: FoV,
)
    requires
        recompute_post(m0, f0, pos1, pr1, m1, f1),
        recompute_post(m1, f1, pos2, pr2, m2, f2),
    ensures
        m2 == m1,
        f2 == f1,
{
    assert(!f1.dirty);
}

/// Monotonicity: a recompute never clears a `revealed` flag, whoever the
/// observer was.
pub proof fn lemma_revealed_monotone(
    m0: TileGrid,
    f0: FoV,
    pos: Position,
    primary: bool,
    m1: TileGrid,
    f1: FoV,
)
    requires
        recompute_post(m0, f0, pos, primary, m1, f1),
    ensures
        forall|i: int|
            0 <= i < m0.area() && m0.revealed@[i] ==> #[trigger] m1.revealed@[i],
{
}

/// Visibility is a subset of revealed: after a primary recompute every
/// currently visible cell is also revealed, and any recompute preserves the
/// inclusion where it already held.
pub proof fn lemma_visible_subset_revealed(
    m0: TileGrid,
    f0: FoV,
    pos: Position,
    primary: bool,
    m1: TileGrid,
    f1: FoV,
)
    requires
        recompute_post(m0, f0, pos, primary, m1, f1),
        (f0.dirty && primary) || (forall|i: int|
            0 <= i < m0.area() && m0.visible@[i] ==> #[trigger] m0.revealed@[i]),
    ensures
        forall|i: int|
            0 <= i < m0.area() && m1.visible@[i] ==> #[trigger] m1.revealed@[i],
{
    if f0.dirty && primary {
        assert forall|i: int|
            0 <= i < m0.area() && m1.visible@[i] implies #[trigger] m1.revealed@[i] by {
            assert(m1.visible@[i] == visible_idx(m0, pos, f0.range, i));
        }
    }
}

} // verus!
