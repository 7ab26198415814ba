//! Field of view: a deterministic ray-marched sweep over the grid's opacity.
//!
//! A point is visible from the observer when it lies in bounds, within range,
//! and the straight ray toward it crosses no wall after leaving the origin —
//! the target cell included, so a wall face is itself never visible. Given
//! position, range and the opacity map the sweep is deterministic; no
//! randomness enters visibility computation.

use vstd::arithmetic::div_mod::{
    lemma_div_pos_is_pos, lemma_fundamental_div_mod_converse, lemma_multiply_divide_lt,
};
use vstd::prelude::*;

use crate::components::Point;
use crate::maps::TileGrid;

verus! {

/// The absolute value of `a`.
pub open spec fn abs_of(a: int) -> int {
    if a >= 0 {
        a
    } else {
        -a
    }
}

/// Chebyshev distance between displacements: the number of steps of a ray
/// that may move one cell along each axis per step.
pub open spec fn cheb(dx: int, dy: int) -> int {
    if abs_of(dx) >= abs_of(dy) {
        abs_of(dx)
    } else {
        abs_of(dy)
    }
}

/// Offset along one axis after `k` of `n` ray steps: `k * d / n` rounded to
/// the nearest integer, halves away from the origin.
pub open spec fn step_off(d: int, k: int, n: int) -> int {
    if d >= 0 {
        (2 * k * d + n) / (2 * n)
    } else {
        -((2 * k * (-d) + n) / (2 * n))
    }
}

/// Number of steps of the ray from `(ox, oy)` to `(tx, ty)`.
pub open spec fn ray_len(ox: int, oy: int, tx: int, ty: int) -> int {
    cheb(tx - ox, ty - oy)
}

/// The x coordinate of the cell the ray occupies after `k` steps.
pub open spec fn ray_x(ox: int, oy: int, tx: int, ty: int, k: int) -> int {
    ox + step_off(tx - ox, k, ray_len(ox, oy, tx, ty))
}

/// The y coordinate of the cell the ray occupies after `k` steps.
pub open spec fn ray_y(ox: int, oy: int, tx: int, ty: int, k: int) -> int {
    oy + step_off(ty - oy, k, ray_len(ox, oy, tx, ty))
}

/// The cell the ray occupies after `k` steps is a wall.
pub open spec fn ray_blocked_at(
    g: TileGrid,
    ox: int,
    oy: int,
    tx: int,
    ty: int,
    k: int,
) -> bool {
    g.wall_at(ray_x(ox, oy, tx, ty, k), ray_y(ox, oy, tx, ty, k))
}

/// No cell the ray passes after leaving the origin, the target included, is
/// a wall.
pub open spec fn ray_clear(g: TileGrid, ox: int, oy: int, tx: int, ty: int) -> bool {
    forall|k: int|
        1 <= k <= ray_len(ox, oy, tx, ty) ==> !(#[trigger] ray_blocked_at(g, ox, oy, tx, ty, k))
}

/// `(tx, ty)` is visible from `(ox, oy)` within `range`: the origin always
/// is; any other point must be in bounds, within Chebyshev distance `range`,
/// and reached by a ray that crosses no wall after the origin — so a wall
/// cell is itself never visible.
pub open spec fn visible_from(
    g: TileGrid,
    ox: int,
    oy: int,
    range: int,
    tx: int,
    ty: int,
) -> bool {
    if tx == ox && ty == oy {
        true
    } else {
        &&& g.in_bounds(tx, ty)
        &&& cheb(tx - ox, ty - oy) <= range
        &&& ray_clear(g, ox, oy, tx, ty)
    }
}

/// The rounded offset stays between 0 and its magnitude bound.
proof fn lemma_half_round_bounds(m: int, k: int, n: int)
    requires
        1 <= n,
        0 <= m <= n,
        0 <= k <= n,
    ensures
        0 <= (2 * k * m + n) / (2 * n) <= m,
{
    assert(0 <= 2 * k * m) by (nonlinear_arith)
        requires
            0 <= k,
            0 <= m,
    ;
    lemma_div_pos_is_pos(2 * k * m + n, 2 * n);
    assert(2 * k * m + n < (2 * n) * (m + 1)) by (nonlinear_arith)
        requires
            0 <= m,
            k <= n,
            1 <= n,
    ;
    lemma_multiply_divide_lt(2 * k * m + n, 2 * n, m + 1);
}

/// A ray step never leaves the axis interval between origin and target.
pub proof fn lemma_step_off_bounds(d: int, k: int, n: int)
    requires
        1 <= n,
        abs_of(d) <= n,
        0 <= k <= n,
    ensures
        d >= 0 ==> 0 <= step_off(d, k, n) <= d,
        d < 0 ==> d <= step_off(d, k, n) <= 0,
{
    if d >= 0 {
        lemma_half_round_bounds(d, k, n);
    } else {
        lemma_half_round_bounds(-d, k, n);
    }
}

/// After the last step the ray sits on the target.
pub proof fn lemma_step_off_end(d: int, n: int)
    requires
        1 <= n,
        abs_of(d) <= n,
    ensures
        step_off(d, n, n) == d,
{
    if d >= 0 {
        assert(2 * n * d + n == d * (2 * n) + n) by (nonlinear_arith);
        lemma_fundamental_div_mod_converse(2 * n * d + n, 2 * n, d, n);
    } else {
        assert(2 * n * (-d) + n == (-d) * (2 * n) + n) by (nonlinear_arith);
        lemma_fundamental_div_mod_converse(2 * n * (-d) + n, 2 * n, -d, n);
    }
}

/// Along the fuller axis the ray advances exactly one cell per step.
pub proof fn lemma_step_off_full(d: int, k: int, n: int)
    requires
        1 <= n,
        abs_of(d) == n,
        0 <= k <= n,
    ensures
        step_off(d, k, n) == if d >= 0 {
            k
        } else {
            -k
        },
{
    if d >= 0 {
        assert(d == n);
        assert(2 * k * d + n == k * (2 * n) + n) by (nonlinear_arith)
            requires
                d == n,
        ;
        lemma_fundamental_div_mod_converse(2 * k * d + n, 2 * n, k, n);
    } else {
        assert(-d == n);
        assert(2 * k * (-d) + n == k * (2 * n) + n) by (nonlinear_arith)
            requires
                -d == n,
        ;
        lemma_fundamental_div_mod_converse(2 * k * (-d) + n, 2 * n, k, n);
    }
}

/// A point immediately adjacent to the observer — Chebyshev distance one —
/// that lies in bounds and is not itself a wall is always in the visible set
/// when the range is at least one.
pub proof fn lemma_adjacent_visible(
    g: TileGrid,
    ox: int,
    oy: int,
    range: int,
    tx: int,
    ty: int,
)
    requires
        g.in_bounds(tx, ty),
        cheb(tx - ox, ty - oy) == 1,
        !g.wall_at(tx, ty),
        range >= 1,
    ensures
        visible_from(g, ox, oy, range, tx, ty),
{
    let n = ray_len(ox, oy, tx, ty);
    lemma_step_off_end(tx - ox, 1);
    lemma_step_off_end(ty - oy, 1);
    assert(ray_x(ox, oy, tx, ty, 1) == tx);
    assert(ray_y(ox, oy, tx, ty, 1) == ty);
    assert forall|k: int|
        1 <= k <= n implies !(#[trigger] ray_blocked_at(g, ox, oy, tx, ty, k)) by {
        assert(k == 1);
    }
}

/// A wall anywhere on the ray after the origin removes the target from the
/// visible set, whatever the range.
pub proof fn lemma_wall_on_ray_blocks(
    g: TileGrid,
    ox: int,
    oy: int,
    range: int,
    tx: int,
    ty: int,
    k: int,
)
    requires
        !(tx == ox && ty == oy),
        1 <= k <= ray_len(ox, oy, tx, ty),
        g.wall_at(ray_x(ox, oy, tx, ty, k), ray_y(ox, oy, tx, ty, k)),
    ensures
        !visible_from(g, ox, oy, range, tx, ty),
{
    assert(ray_blocked_at(g, ox, oy, tx, ty, k));
}

/// Opacity blocking, horizontal case: a wall directly between the observer
/// and a horizontally collinear point strictly beyond it removes that point
/// from the visible set, holding range fixed.
pub proof fn lemma_wall_between_blocks_horizontal(
    g: TileGrid,
    ox: int,
    oy: int,
    range: int,
    tx: int,
    wx: int,
)
    requires
        (ox < wx < tx) || (tx < wx < ox),
        g.wall_at(wx, oy),
    ensures
        !visible_from(g, ox, oy, range, tx, oy),
{
    let d = tx - ox;
    let n = ray_len(ox, oy, tx, oy);
    let k = if d >= 0 {
        wx - ox
    } else {
        ox - wx
    };
    lemma_step_off_full(d, k, n);
    lemma_step_off_bounds(0, k, n);
    assert(ray_x(ox, oy, tx, oy, k) == wx);
    assert(ray_y(ox, oy, tx, oy, k) == oy);
    lemma_wall_on_ray_blocks(g, ox, oy, range, tx, oy, k);
}

/// Opacity blocking, vertical case: a wall directly between the observer and
/// a vertically collinear point strictly beyond it removes that point from
/// the visible set, holding range fixed.
pub proof fn lemma_wall_between_blocks_vertical(
    g: TileGrid,
    ox: int,
    oy: int,
    range: int,
    ty: int,
    wy: int,
)
    requires
        (oy < wy < ty) || (ty < wy < oy),
        g.wall_at(ox, wy),
    ensures
        !visible_from(g, ox, oy, range, ox, ty),
{
    let d = ty - oy;
    let n = ray_len(ox, oy, ox, ty);
    let k = if d >= 0 {
        wy - oy
    } else {
        oy - wy
    };
    lemma_step_off_full(d, k, n);
    lemma_step_off_bounds(0, k, n);
    assert(ray_x(ox, oy, ox, ty, k) == ox);
    assert(ray_y(ox, oy, ox, ty, k) == wy);
    lemma_wall_on_ray_blocks(g, ox, oy, range, ox, ty, k);
}

/// Visibility reads only the grid's dimensions and tile classifications:
/// two grids that agree on those agree on every visibility question, however
/// their flags and room lists differ.
pub proof fn lemma_visible_from_congruent(
    g1: TileGrid,
    g2: TileGrid,
    ox: int,
    oy: int,
    range: int,
    tx: int,
    ty: int,
)
    requires
        g2.width == g1.width,
        g2.height == g1.height,
        g2.tiles == g1.tiles,
    ensures
        visible_from(g1, ox, oy, range, tx, ty) == visible_from(g2, ox, oy, range, tx, ty),
{
    if ray_clear(g1, ox, oy, tx, ty) {
        assert forall|k: int|
            1 <= k <= ray_len(ox, oy, tx, ty) implies !(#[trigger] ray_blocked_at(
            g2,
            ox,
            oy,
            tx,
            ty,
            k,
        )) by {
            assert(!ray_blocked_at(g1, ox, oy, tx, ty, k));
        }
    }
    if ray_clear(g2, ox, oy, tx, ty) {
        assert forall|k: int|
            1 <= k <= ray_len(ox, oy, tx, ty) implies !(#[trigger] ray_blocked_at(
            g1,
            ox,
            oy,
            tx,
            ty,
            k,
        )) by {
            assert(!ray_blocked_at(g2, ox, oy, tx, ty, k));
        }
    }
}

/// Compute a ray step offset.
fn step_off_exec(d: i32, k: i32, n: i32) -> (r: i32)
    requires
        1 <= n <= 4096,
        abs_of(d as int) <= n,
        0 <= k <= n,
    ensures
        r as int == step_off(d as int, k as int, n as int),
{
    let m: i32 = if d >= 0 {
        d
    } else {
        -d
    };
    proof {
        assert(0 <= 2 * (k as int) * (m as int) <= 33554432) by (nonlinear_arith)
            requires
                0 <= k <= 4096,
                0 <= m <= 4096,
        ;
        lemma_half_round_bounds(m as int, k as int, n as int);
    }
    let q: i32 = (2 * k * m + n) / (2 * n);
    if d >= 0 {
        q
    } else {
        -q
    }
}

/// Walk the ray from the observer to the target, testing each cell after
/// the origin — the target included — against the grid's opacity.
fn line_clear(g: &TileGrid, ox: i32, oy: i32, tx: i32, ty: i32) -> (r: bool)
    requires
        g.wf(),
        g.in_bounds(ox as int, oy as int),
        g.in_bounds(tx as int, ty as int),
        !(tx == ox && ty == oy),
    ensures
        r == ray_clear(*g, ox as int, oy as int, tx as int, ty as int),
{
    let dx = tx - ox;
    let dy = ty - oy;
    let adx = if dx >= 0 {
        dx
    } else {
        -dx
    };
    let ady = if dy >= 0 {
        dy
    } else {
        -dy
    };
    let n = if adx >= ady {
        adx
    } else {
        ady
    };
    let mut k: i32 = 1;
    while k <= n
        invariant
            g.wf(),
            g.in_bounds(ox as int, oy as int),
            g.in_bounds(tx as int, ty as int),
            !(tx == ox && ty == oy),
            dx == tx - ox,
            dy == ty - oy,
            n as int == ray_len(ox as int, oy as int, tx as int, ty as int),
            1 <= n <= 4096,
            abs_of(dx as int) <= n,
            abs_of(dy as int) <= n,
            1 <= k <= n + 1,
            forall|j: int|
                1 <= j < k ==> !(#[trigger] ray_blocked_at(
                    *g,
                    ox as int,
                    oy as int,
                    tx as int,
                    ty as int,
                    j,
                )),
        decreases n + 1 - k,
    {
        let offx = step_off_exec(dx, k, n);
        let offy = step_off_exec(dy, k, n);
        proof {
            lemma_step_off_bounds(dx as int, k as int, n as int);
            lemma_step_off_bounds(dy as int, k as int, n as int);
        }
        let px = ox + offx;
        let py = oy + offy;
        if g.is_solid(px, py) {
            proof {
                assert(px as int == ray_x(ox as int, oy as int, tx as int, ty as int, k as int));
                assert(py as int == ray_y(ox as int, oy as int, tx as int, ty as int, k as int));
                assert(ray_blocked_at(*g, ox as int, oy as int, tx as int, ty as int, k as int));
            }
            return false;
        }
        proof {
            assert(px as int == ray_x(ox as int, oy as int, tx as int, ty as int, k as int));
            assert(py as int == ray_y(ox as int, oy as int, tx as int, ty as int, k as int));
            assert(!ray_blocked_at(*g, ox as int, oy as int, tx as int, ty as int, k as int));
        }
        k = k + 1;
    }
    true
}

/// Sweep the field of view from `(ox, oy)` out to `range`: the returned
/// list holds exactly the points visible from there over the grid's
/// opacity, the origin included.
pub fn field_of_view(g: &TileGrid, ox: i32, oy: i32, range: i32) -> (pts: Vec<Point>)
    requires
        g.wf(),
        g.in_bounds(ox as int, oy as int),
        range >= 0,
    ensures
        forall|p: Point|
            #![trigger pts@.contains(p)]
            #![trigger visible_from(*g, ox as int, oy as int, range as int, p.x as int, p.y as int)]
            pts@.contains(p) <==> visible_from(
                *g,
                ox as int,
                oy as int,
                range as int,
                p.x as int,
                p.y as int,
            ),
{
    let x_lo: i32 = if range >= ox {
        0
    } else {
        ox - range
    };
    let x_hi: i32 = if range >= g.width - 1 - ox {
        g.width - 1
    } else {
        ox + range
    };
    let y_lo: i32 = if range >= oy {
        0
    } else {
        oy - range
    };
    let y_hi: i32 = if range >= g.height - 1 - oy {
        g.height - 1
    } else {
        oy + range
    };
    let mut pts: Vec<Point> = Vec::new();
    let mut y = y_lo;
    while y <= y_hi
        invariant
            g.wf(),
            g.in_bounds(ox as int, oy as int),
            range >= 0,
            x_lo as int == (if range as int >= ox as int { 0int } else { ox - range }),
            x_hi as int == (if range as int >= g.width - 1 - ox { g.width - 1 } else { ox + range }),
            y_lo as int == (if range as int >= oy as int { 0int } else { oy - range }),
            y_hi as int == (if range as int >= g.height - 1 - oy { g.height - 1 } else { oy + range }),
            x_lo <= ox <= x_hi,
            y_lo <= oy <= y_hi,
            y_lo <= y <= y_hi + 1,
            forall|p: Point|
                #[trigger] pts@.contains(p) ==> visible_from(
                    *g,
                    ox as int,
                    oy as int,
                    range as int,
                    p.x as int,
                    p.y as int,
                ) && p.y < y,
            forall|xx: int, yy: int|
                yy < y && #[trigger] visible_from(*g, ox as int, oy as int, range as int, xx, yy)
                    ==> pts@.contains((Point { x: xx as i32, y: yy as i32 })),
        decreases y_hi + 1 - y,
    {
        let mut x = x_lo;
        while x <= x_hi
            invariant
                g.wf(),
                g.in_bounds(ox as int, oy as int),
                range >= 0,
                x_lo as int == (if range as int >= ox as int { 0int } else { ox - range }),
                x_hi as int == (if range as int >= g.width - 1 - ox { g.width - 1 } else { ox + range }),
                y_lo as int == (if range as int >= oy as int { 0int } else { oy - range }),
                y_hi as int == (if range as int >= g.height - 1 - oy { g.height - 1 } else { oy + range }),
                x_lo <= ox <= x_hi,
                y_lo <= oy <= y_hi,
                y_lo <= y <= y_hi,
                x_lo <= x <= x_hi + 1,
                forall|p: Point|
                    #[trigger] pts@.contains(p) ==> visible_from(
                        *g,
                        ox as int,
                        oy as int,
                        range as int,
                        p.x as int,
                        p.y as int,
                    ) && (p.y < y || (p.y == y && p.x < x)),
                forall|xx: int, yy: int|
                    (yy < y || (yy == y && xx < x)) && #[trigger] visible_from(
                        *g,
                        ox as int,
                        oy as int,
                        range as int,
                        xx,
                        yy,
                    ) ==> pts@.contains((Point { x: xx as i32, y: yy as i32 })),
            decreases x_hi + 1 - x,
        {
            let ghost pts0 = pts@;
            let vis: bool = if x == ox && y == oy {
                true
            } else {
                line_clear(g, ox, oy, x, y)
            };
            proof {
                assert(vis == visible_from(
                    *g,
                    ox as int,
                    oy as int,
                    range as int,
                    x as int,
                    y as int,
                ));
            }
            if vis {
                pts.push(Point { x, y });
            }
            proof {
                let q0 = (Point { x, y });
                if vis {
                    assert(pts@ == pts0.push(q0));
                    assert forall|q: Point| #[trigger] pts@.contains(q) implies pts0.contains(q)
                        || q == q0 by {
                        vstd::seq_lib::lemma_seq_contains_after_push(pts0, q0, q);
                    }
                    assert(pts@.contains(q0)) by {
                        vstd::seq_lib::lemma_seq_contains_after_push(pts0, q0, q0);
                    }
                    assert forall|q: Point| pts0.contains(q) implies #[trigger] pts@.contains(
                        q,
                    ) by {
                        vstd::seq_lib::lemma_seq_contains_after_push(pts0, q0, q);
                    }
                }
                assert forall|p: Point| #[trigger] pts@.contains(p) implies visible_from(
                    *g,
                    ox as int,
                    oy as int,
                    range as int,
                    p.x as int,
                    p.y as int,
                ) && (p.y < y || (p.y == y && p.x < x + 1)) by {
                    if vis && p == q0 {
                    } else {
                        assert(pts0.contains(p));
                    }
                }
                assert forall|xx: int, yy: int|
                    (yy < y || (yy == y && xx < x + 1)) && #[trigger] visible_from(
                        *g,
                        ox as int,
                        oy as int,
                        range as int,
                        xx,
                        yy,
                    ) implies pts@.contains((Point { x: xx as i32, y: yy as i32 })) by {
                    if yy == y && xx == x as int {
                        assert(visible_from(
                            *g,
                            ox as int,
                            oy as int,
                            range as int,
                            x as int,
                            y as int,
                        ));
                        assert(vis);
                        assert((Point { x: xx as i32, y: yy as i32 }) == q0);
                    } else {
                        assert(pts0.contains((Point { x: xx as i32, y: yy as i32 })));
                    }
                }
            }
            x = x + 1;
        }
        proof {
            assert forall|xx: int, yy: int|
                yy < y + 1 && #[trigger] visible_from(
                    *g,
                    ox as int,
                    oy as int,
                    range as int,
                    xx,
                    yy,
                ) implies pts@.contains((Point { x: xx as i32, y: yy as i32 })) by {
                if yy == y {
                    if xx == ox as int && yy == oy as int {
                        assert(x_lo as int <= xx < x_hi + 1);
                    } else {
                        assert(g.in_bounds(xx, yy));
                        assert(cheb(xx - ox, yy - oy) <= range);
                        assert(x_lo as int <= xx < x_hi + 1);
                    }
                }
            }
        }
        y = y + 1;
    }
    proof {
        assert forall|p: Point|
            visible_from(*g, ox as int, oy as int, range as int, p.x as int, p.y as int)
                implies #[trigger] pts@.contains(p) by {
            let xx = p.x as int;
            let yy = p.y as int;
            if xx == ox as int && yy == oy as int {
                assert(yy < y_hi + 1);
            } else {
                assert(g.in_bounds(xx, yy));
                assert(cheb(xx - ox, yy - oy) <= range);
                assert(yy < y_hi + 1);
            }
            assert(pts@.contains((Point { x: xx as i32, y: yy as i32 })));
            assert(p == (Point { x: xx as i32, y: yy as i32 }));
        }
    }
    pts
}

} // verus!
