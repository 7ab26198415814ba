//! The tile grid and its generators: tile classifications, rooms, corridor
//! carving, and the reveal/visibility flags shared with the renderer.

use vstd::arithmetic::div_mod::{
    lemma_fundamental_div_mod, lemma_fundamental_div_mod_converse, lemma_div_is_ordered,
    lemma_div_pos_is_pos, lemma_mod_bound, lemma_multiply_divide_lt,
};
use vstd::prelude::*;

use crate::components::{grey_of, Color, Point, Position, Renderable};
use crate::rect::{div2_trunc, rect_intersects, Rectangle};
use crate::rng::Rng;

verus! {

/// Smallest room width or height that the generator samples.
pub const MIN_SIZE: i32 = 6;

/// Largest room width or height that the generator samples.
pub const MAX_SIZE: i32 = 10;

/// Attempt budget for room placement; fewer rooms are accepted if random
/// placements keep intersecting.
pub const MAX_ROOMS: i32 = 30;

/// Largest accepted grid side, so that index arithmetic stays far from
/// overflow.
pub const MAX_DIM: i32 = 4096;

/// Display hints for one cell: colors and glyph code. The core's algorithms
/// never depend on these, only on the wall/floor classification around them.
#[derive(Clone, Copy, Debug, PartialEq, Eq, Structural)]
pub struct Tile {
    pub fg: Color,
    pub bg: Color,
    pub glyph: u16,
}

/// A cell classification with its display hint. Walls are opaque and solid;
/// floors are neither.
#[derive(Clone, Copy, Debug, PartialEq, Eq, Structural)]
pub enum TileType {
    Wall(Tile),
    Floor(Tile),
}

/// True iff the tile blocks movement and sight.
pub open spec fn is_wall(t: TileType) -> bool {
    match t {
        TileType::Wall(_) => true,
        TileType::Floor(_) => false,
    }
}

/// True iff the tile is walkable and transparent. Every tile is exactly one
/// of wall or floor.
pub open spec fn is_floor(t: TileType) -> bool {
    match t {
        TileType::Wall(_) => false,
        TileType::Floor(_) => true,
    }
}

/// Every cell is exactly one of wall or floor.
pub proof fn lemma_tile_wall_or_floor(t: TileType)
    ensures
        is_wall(t) <==> !is_floor(t),
{
}

/// The wall tile stamped by the generators: green `#` on black.
pub open spec fn wall_tile_spec() -> TileType {
    TileType::Wall(Tile { fg: Color { r: 0, g: 255, b: 0 }, bg: Color { r: 0, g: 0, b: 0 }, glyph: 35 })
}

/// The floor tile stamped by the generators: grey `.` on black.
pub open spec fn floor_tile_spec() -> TileType {
    TileType::Floor(
        Tile { fg: Color { r: 128, g: 128, b: 128 }, bg: Color { r: 0, g: 0, b: 0 }, glyph: 46 },
    )
}

/// Build the wall tile.
pub fn wall_tile() -> (t: TileType)
    ensures
        t == wall_tile_spec(),
        is_wall(t),
{
    TileType::Wall(Tile { fg: Color { r: 0, g: 255, b: 0 }, bg: Color { r: 0, g: 0, b: 0 }, glyph: 35 })
}

/// Build the floor tile.
pub fn floor_tile() -> (t: TileType)
    ensures
        t == floor_tile_spec(),
        is_floor(t),
{
    TileType::Floor(
        Tile { fg: Color { r: 128, g: 128, b: 128 }, bg: Color { r: 0, g: 0, b: 0 }, glyph: 46 },
    )
}

/// A room is a rectangle footprint; rooms are stored in placement order, and
/// corridor generation always connects the most recently added room to the
/// one before it.
#[derive(Clone, Copy, Debug, PartialEq, Eq, Structural)]
pub struct Room {
    pub pos: Rectangle,
}

/// The x coordinate of the room's integer-truncated center.
pub open spec fn room_center_x(r: Room) -> int {
    (r.pos.x0 + r.pos.x1) / 2
}

/// The y coordinate of the room's integer-truncated center.
pub open spec fn room_center_y(r: Room) -> int {
    (r.pos.y0 + r.pos.y1) / 2
}

/// True iff `(x, y)` lies in the room's footprint, far corner included: the
/// generator stamps the whole closed rectangle.
pub open spec fn room_cell(r: Room, x: int, y: int) -> bool {
    r.pos.x0 <= x <= r.pos.x1 && r.pos.y0 <= y <= r.pos.y1
}

impl Room {
    /// Construct from an origin and a positive size.
    pub fn new(x: i32, y: i32, width: i32, height: i32) -> (r: Room)
        requires
            i32::MIN <= x + width <= i32::MAX,
            i32::MIN <= y + height <= i32::MAX,
        ensures
            r.pos.x0 == x,
            r.pos.y0 == y,
            r.pos.x1 == x + width,
            r.pos.y1 == y + height,
    {
        Room { pos: Rectangle::new(x, y, width, height) }
    }

    /// True iff the two rooms overlap or touch at an edge.
    pub fn intersects(&self, other: &Room) -> (r: bool)
        ensures
            r == rect_intersects(self.pos, other.pos),
    {
        self.pos.intersects(&other.pos)
    }

    /// The center of the room, truncated toward zero. On the nonnegative
    /// coordinates every placed room has, this is the floored midpoint the
    /// corridor contracts speak of.
    pub fn center(&self) -> (r: (i32, i32))
        requires
            i32::MIN <= self.pos.x0 + self.pos.x1 <= i32::MAX,
            i32::MIN <= self.pos.y0 + self.pos.y1 <= i32::MAX,
        ensures
            r.0 == div2_trunc(self.pos.x0 + self.pos.x1),
            r.1 == div2_trunc(self.pos.y0 + self.pos.y1),
            self.pos.x0 + self.pos.x1 >= 0 ==> r.0 == room_center_x(*self),
            self.pos.y0 + self.pos.y1 >= 0 ==> r.1 == room_center_y(*self),
    {
        self.pos.center()
    }

    /// Sample a candidate room: width and height uniform in
    /// `[MIN_SIZE, MAX_SIZE]`, placed so that its footprint fits strictly
    /// inside the outer bounds of a `max_x` by `max_y` grid, never touching
    /// the boundary ring.
    pub fn random_size(max_x: i32, max_y: i32, rng: &mut Rng) -> (r: Room)
        requires
            14 <= max_x <= MAX_DIM,
            14 <= max_y <= MAX_DIM,
        ensures
            MIN_SIZE <= r.pos.x1 - r.pos.x0 <= MAX_SIZE,
            MIN_SIZE <= r.pos.y1 - r.pos.y0 <= MAX_SIZE,
            1 <= r.pos.x0 && r.pos.x1 <= max_x - 2,
            1 <= r.pos.y0 && r.pos.y1 <= max_y - 2,
    {
        let width = rng.range(MIN_SIZE, MAX_SIZE + 1);
        let height = rng.range(MIN_SIZE, MAX_SIZE + 1);
        let x = rng.range(1, max_x - width - 1);
        let y = rng.range(1, max_y - height - 1);
        Room::new(x, y, width, height)
    }
}

/// The room's sides measure between `MIN_SIZE` and `MAX_SIZE` cells.
pub open spec fn room_sized(r: Room) -> bool {
    &&& MIN_SIZE <= r.pos.x1 - r.pos.x0 <= MAX_SIZE
    &&& MIN_SIZE <= r.pos.y1 - r.pos.y0 <= MAX_SIZE
}

/// The tile grid: a fixed-size 2-D array of tile classifications plus
/// per-tile "ever revealed" and "currently visible" flags, all three stored
/// as dense parallel arrays of length `width * height` indexed by
/// `y * width + x`.
pub struct TileGrid {
    pub width: i32,
    pub height: i32,
    pub rooms: Vec<Room>,
    pub tiles: Vec<TileType>,
    pub revealed: Vec<bool>,
    pub visible: Vec<bool>,
}

impl TileGrid {
    /// Number of cells.
    pub open spec fn area(self) -> int {
        self.width * self.height
    }

    /// Well-formedness: positive bounded dimensions and all three parallel
    /// arrays of length `width * height`.
    pub open spec fn wf(self) -> bool {
        &&& 0 < self.width <= MAX_DIM
        &&& 0 < self.height <= MAX_DIM
        &&& self.tiles@.len() == self.area()
        &&& self.revealed@.len() == self.area()
        &&& self.visible@.len() == self.area()
    }

    /// Flat index of coordinate `(x, y)`.
    pub open spec fn idx_of(self, x: int, y: int) -> int {
        y * self.width + x
    }

    /// Coordinate `(x, y)` addresses a cell of the grid.
    pub open spec fn in_bounds(self, x: int, y: int) -> bool {
        0 <= x < self.width && 0 <= y < self.height
    }

    /// The classification stored at `(x, y)`.
    pub open spec fn tile_at(self, x: int, y: int) -> TileType {
        self.tiles@[self.idx_of(x, y)]
    }

    /// The cell at `(x, y)` blocks movement and sight.
    pub open spec fn wall_at(self, x: int, y: int) -> bool {
        is_wall(self.tile_at(x, y))
    }

    /// The cell at `(x, y)` is walkable and transparent.
    pub open spec fn floor_at(self, x: int, y: int) -> bool {
        is_floor(self.tile_at(x, y))
    }

    /// An in-bounds coordinate has a flat index inside the arrays, and the
    /// area itself is small.
    pub proof fn lemma_idx_in_range(self, x: int, y: int)
        requires
            self.wf(),
            self.in_bounds(x, y),
        ensures
            0 <= self.idx_of(x, y) < self.area(),
            self.area() <= 16777216,
    {
        assert(0 <= y * self.width + x < self.width * self.height && self.width * self.height
            <= 16777216) by (nonlinear_arith)
            requires
                0 <= x < self.width,
                0 <= y < self.height,
                self.width <= 4096,
                self.height <= 4096,
        ;
    }

    /// Splitting a flat index back into coordinates lands in bounds and
    /// round-trips.
    pub proof fn lemma_idx_coords(self, i: int)
        requires
            self.wf(),
            0 <= i < self.area(),
        ensures
            self.in_bounds(i % (self.width as int), i / (self.width as int)),
            self.idx_of(i % (self.width as int), i / (self.width as int)) == i,
    {
        let w = self.width as int;
        let q = i / w;
        let r = i % w;
        lemma_fundamental_div_mod(i, w);
        lemma_mod_bound(i, w);
        lemma_div_pos_is_pos(i, w);
        lemma_multiply_divide_lt(i, w, self.height as int);
        assert(q * w == w * q) by (nonlinear_arith);
        assert(self.idx_of(r, q) == q * w + r);
    }

    /// A coordinate is recovered from its flat index.
    pub proof fn lemma_coords_idx(self, x: int, y: int)
        requires
            self.wf(),
            self.in_bounds(x, y),
        ensures
            self.idx_of(x, y) % (self.width as int) == x,
            self.idx_of(x, y) / (self.width as int) == y,
    {
        let w = self.width as int;
        lemma_fundamental_div_mod_converse(y * w + x, w, y, x);
    }

    /// A fresh grid: all cells walls, nothing revealed, nothing visible, no
    /// rooms.
    pub fn new(width: i32, height: i32) -> (g: TileGrid)
        requires
            0 < width <= MAX_DIM,
            0 < height <= MAX_DIM,
        ensures
            g.wf(),
            g.width == width,
            g.height == height,
            g.rooms@.len() == 0,
            forall|x: int, y: int|
                #![trigger g.tile_at(x, y)]
                g.in_bounds(x, y) ==> g.tile_at(x, y) == wall_tile_spec(),
            forall|x: int, y: int|
                #![trigger g.tile_at(x, y)]
                g.in_bounds(x, y) ==> g.wall_at(x, y),
            forall|i: int| 0 <= i < g.area() ==> !(#[trigger] g.revealed@[i]),
            forall|i: int| 0 <= i < g.area() ==> !(#[trigger] g.visible@[i]),
    {
        proof {
            assert(0 < width * height <= 16777216) by (nonlinear_arith)
                requires
                    0 < width <= 4096,
                    0 < height <= 4096,
            ;
        }
        let n: usize = (width as usize) * (height as usize);
        let mut tiles: Vec<TileType> = Vec::new();
        let mut revealed: Vec<bool> = Vec::new();
        let mut visible: Vec<bool> = Vec::new();
        let mut i: usize = 0;
        while i < n
            invariant
                i <= n,
                tiles@.len() == i,
                revealed@.len() == i,
                visible@.len() == i,
                forall|j: int| 0 <= j < i ==> #[trigger] tiles@[j] == wall_tile_spec(),
                forall|j: int| 0 <= j < i ==> !(#[trigger] revealed@[j]),
                forall|j: int| 0 <= j < i ==> !(#[trigger] visible@[j]),
            decreases n - i,
        {
            tiles.push(wall_tile());
            revealed.push(false);
            visible.push(false);
            i = i + 1;
        }
        let g = TileGrid { width, height, rooms: Vec::new(), tiles, revealed, visible };
        proof {
            assert forall|x: int, y: int|
                #![trigger g.tile_at(x, y)]
                g.in_bounds(x, y) implies g.tile_at(x, y) == wall_tile_spec() && g.wall_at(
                x,
                y,
            ) by {
                g.lemma_idx_in_range(x, y);
            }
        }
        g
    }

    /// Flat index of in-range coordinates.
    pub fn coord_to_idx(&self, x: i32, y: i32) -> (idx: usize)
        requires
            self.wf(),
            self.in_bounds(x as int, y as int),
        ensures
            idx == self.idx_of(x as int, y as int),
            0 <= self.idx_of(x as int, y as int) < self.area(),
            self.area() <= 16777216,
    {
        proof {
            self.lemma_idx_in_range(x as int, y as int);
        }
        ((y * self.width) + x) as usize
    }

    /// Overwrite the classification at `(x, y)`; every other cell and all
    /// flags keep their value.
    pub fn set_tile_at(&mut self, x: i32, y: i32, tile: TileType)
        requires
            old(self).wf(),
            old(self).in_bounds(x as int, y as int),
        ensures
            final(self).wf(),
            final(self).width == old(self).width,
            final(self).height == old(self).height,
            final(self).rooms == old(self).rooms,
            final(self).revealed == old(self).revealed,
            final(self).visible == old(self).visible,
            final(self).tiles@ == old(self).tiles@.update(
                old(self).idx_of(x as int, y as int),
                tile,
            ),
            final(self).tile_at(x as int, y as int) == tile,
            forall|xx: int, yy: int|
                final(self).in_bounds(xx, yy) && !(xx == x && yy == y) ==> final(self).tile_at(
                    xx,
                    yy,
                ) == old(self).tile_at(xx, yy),
    {
        let idx = self.coord_to_idx(x, y);
        self.tiles[idx] = tile;
        proof {
            let g0 = *old(self);
            let g1 = *self;
            assert forall|xx: int, yy: int|
                g1.in_bounds(xx, yy) && !(xx == x && yy == y) implies g1.tile_at(xx, yy)
                == g0.tile_at(xx, yy) by {
                g0.lemma_coords_idx(xx, yy);
                g0.lemma_coords_idx(x as int, y as int);
                g0.lemma_idx_in_range(xx, yy);
            }
        }
    }

    /// The classification at `(x, y)`.
    pub fn get_tile_at(&self, x: i32, y: i32) -> (t: &TileType)
        requires
            self.wf(),
            self.in_bounds(x as int, y as int),
        ensures
            *t == self.tile_at(x as int, y as int),
    {
        let idx = self.coord_to_idx(x, y);
        &self.tiles[idx]
    }

    /// True iff the tile at `(x, y)` blocks movement.
    pub fn is_solid(&self, x: i32, y: i32) -> (r: bool)
        requires
            self.wf(),
            self.in_bounds(x as int, y as int),
        ensures
            r == self.wall_at(x as int, y as int),
    {
        match self.get_tile_at(x, y) {
            TileType::Wall(_) => true,
            TileType::Floor(_) => false,
        }
    }

    /// True iff the tile at flat index `idx` blocks line of sight; the
    /// blocking predicate of the field-of-view sweep.
    pub fn is_opaque(&self, idx: usize) -> (r: bool)
        requires
            self.wf(),
            idx < self.area(),
        ensures
            r == is_wall(self.tiles@[idx as int]),
    {
        match self.tiles[idx] {
            TileType::Wall(_) => true,
            TileType::Floor(_) => false,
        }
    }

    /// The grid's dimensions as a point.
    pub fn dimensions(&self) -> (r: Point)
        ensures
            r.x == self.width,
            r.y == self.height,
    {
        Point { x: self.width, y: self.height }
    }

    /// Admissibility predicate used to filter field-of-view results to the
    /// grid's bounds. A coordinate is inside iff `0 <= x < width` and
    /// `0 <= y < height`: the far edge itself is out, since the dense arrays
    /// end there.
    pub fn is_inside(&self, x: i32, y: i32) -> (r: bool)
        ensures
            r == self.in_bounds(x as int, y as int),
    {
        x >= 0 && x < self.width && y >= 0 && y < self.height
    }

    /// Overwrite the "ever revealed" flag at `p`.
    pub fn set_revealed(&mut self, p: &Point, b: bool)
        requires
            old(self).wf(),
            old(self).in_bounds(p.x as int, p.y as int),
        ensures
            final(self).wf(),
            final(self).width == old(self).width,
            final(self).height == old(self).height,
            final(self).rooms == old(self).rooms,
            final(self).tiles == old(self).tiles,
            final(self).visible == old(self).visible,
            final(self).revealed@ == old(self).revealed@.update(
                old(self).idx_of(p.x as int, p.y as int),
                b,
            ),
    {
        let idx = self.coord_to_idx(p.x, p.y);
        self.revealed[idx] = b;
    }

    /// Overwrite the "currently visible" flag at `p`.
    pub fn set_visible(&mut self, p: &Point, b: bool)
        requires
            old(self).wf(),
            old(self).in_bounds(p.x as int, p.y as int),
        ensures
            final(self).wf(),
            final(self).width == old(self).width,
            final(self).height == old(self).height,
            final(self).rooms == old(self).rooms,
            final(self).tiles == old(self).tiles,
            final(self).revealed == old(self).revealed,
            final(self).visible@ == old(self).visible@.update(
                old(self).idx_of(p.x as int, p.y as int),
                b,
            ),
    {
        let idx = self.coord_to_idx(p.x, p.y);
        self.visible[idx] = b;
    }

    /// True iff `p` is in the primary observer's current field of view.
    pub fn is_visible(&self, p: &Position) -> (r: bool)
        requires
            self.wf(),
            self.in_bounds(p.x as int, p.y as int),
        ensures
            r == self.visible@[self.idx_of(p.x as int, p.y as int)],
    {
        let idx = self.coord_to_idx(p.x, p.y);
        self.visible[idx]
    }

    /// What the renderer should draw for the cell at flat index `idx`:
    /// nothing while the cell was never revealed, its tile's glyph and colors
    /// while currently visible, and the greyscaled foreground for a cell that
    /// is remembered but not in the current field of view.
    pub fn render_cell(&self, idx: usize) -> (r: Option<Renderable>)
        requires
            self.wf(),
            idx < self.area(),
        ensures
            r == cell_render(*self, idx as int),
    {
        if !self.revealed[idx] {
            return None;
        }
        let t = self.tiles[idx];
        let (glyph, fg0, bg) = match t {
            TileType::Wall(tile) => (tile.glyph, tile.fg, tile.bg),
            TileType::Floor(tile) => (tile.glyph, tile.fg, tile.bg),
        };
        let fg = if self.visible[idx] {
            fg0
        } else {
            fg0.to_greyscale()
        };
        Some(Renderable { glyph, fg, bg })
    }
}

/// The glyph code of a tile's display hint.
pub open spec fn glyph_of(t: TileType) -> u16 {
    match t {
        TileType::Wall(tile) => tile.glyph,
        TileType::Floor(tile) => tile.glyph,
    }
}

/// The foreground color of a tile's display hint.
pub open spec fn fg_of(t: TileType) -> Color {
    match t {
        TileType::Wall(tile) => tile.fg,
        TileType::Floor(tile) => tile.fg,
    }
}

/// The background color of a tile's display hint.
pub open spec fn bg_of(t: TileType) -> Color {
    match t {
        TileType::Wall(tile) => tile.bg,
        TileType::Floor(tile) => tile.bg,
    }
}

/// The room's footprint lies inside the grid.
pub open spec fn room_in_grid(g: TileGrid, r: Room) -> bool {
    &&& 0 <= r.pos.x0 <= r.pos.x1 < g.width
    &&& 0 <= r.pos.y0 <= r.pos.y1 < g.height
}

/// The room's footprint lies strictly inside the outer bounds, never touching
/// the boundary ring.
pub open spec fn room_interior(g: TileGrid, r: Room) -> bool {
    &&& 1 <= r.pos.x0 <= r.pos.x1 <= g.width - 2
    &&& 1 <= r.pos.y0 <= r.pos.y1 <= g.height - 2
}

/// No two accepted rooms overlap or even touch at an edge.
pub open spec fn rooms_disjoint(rooms: Seq<Room>) -> bool {
    forall|i: int, j: int|
        0 <= i < rooms.len() && 0 <= j < rooms.len() && i != j ==> !rect_intersects(
            (#[trigger] rooms[i]).pos,
            (#[trigger] rooms[j]).pos,
        )
}

/// Every cell of every accepted room is floor.
pub open spec fn rooms_floored(g: TileGrid) -> bool {
    forall|k: int, x: int, y: int|
        0 <= k < g.rooms@.len() && room_cell(#[trigger] g.rooms@[k], x, y) ==> #[trigger] g.floor_at(
            x,
            y,
        )
}

/// Every cell of the grid carries one of the two stamped tiles.
pub open spec fn two_toned(g: TileGrid) -> bool {
    forall|x: int, y: int|
        #![trigger g.tile_at(x, y)]
        g.in_bounds(x, y) ==> (g.tile_at(x, y) == wall_tile_spec() || g.tile_at(x, y)
            == floor_tile_spec())
}

/// A change that leaves each cell alone or stamps one of the two tiles keeps
/// the grid two-toned.
pub proof fn lemma_two_toned_preserved(g1: TileGrid, g2: TileGrid)
    requires
        two_toned(g1),
        g2.width == g1.width,
        g2.height == g1.height,
        forall|x: int, y: int|
            #![trigger g2.tile_at(x, y)]
            g2.in_bounds(x, y) ==> (g2.tile_at(x, y) == g1.tile_at(x, y) || g2.tile_at(x, y)
                == wall_tile_spec() || g2.tile_at(x, y) == floor_tile_spec()),
    ensures
        two_toned(g2),
{
    assert forall|x: int, y: int|
        #![trigger g2.tile_at(x, y)]
        g2.in_bounds(x, y) implies (g2.tile_at(x, y) == wall_tile_spec() || g2.tile_at(x, y)
            == floor_tile_spec()) by {
        assert(g1.in_bounds(x, y));
        if g2.tile_at(x, y) == g1.tile_at(x, y) {
            assert(g1.tile_at(x, y) == wall_tile_spec() || g1.tile_at(x, y)
                == floor_tile_spec());
        }
    }
}

/// Floor cells persist from `g1` to `g2`: generation only carves floor, it
/// never rebuilds a wall.
pub open spec fn floor_monotone(g1: TileGrid, g2: TileGrid) -> bool {
    forall|x: int, y: int|
        g1.in_bounds(x, y) && g1.floor_at(x, y) ==> #[trigger] g2.floor_at(x, y)
}

/// Every cell of the horizontal run at row `y` between columns `x0` and `x1`
/// (in either order, ends included) is floor.
pub open spec fn hseg_floor(g: TileGrid, x0: int, x1: int, y: int) -> bool {
    forall|x: int| (x0 <= x <= x1 || x1 <= x <= x0) ==> #[trigger] g.floor_at(x, y)
}

/// Every cell of the vertical run at column `x` between rows `y0` and `y1`
/// (in either order, ends included) is floor.
pub open spec fn vseg_floor(g: TileGrid, y0: int, y1: int, x: int) -> bool {
    forall|y: int| (y0 <= y <= y1 || y1 <= y <= y0) ==> #[trigger] g.floor_at(x, y)
}

/// `g1` is `g0` with exactly the horizontal run at row `y` between columns
/// `x0` and `x1` (either order, ends included) stamped as the floor tile:
/// same dimensions, every run cell the floor tile, every other cell
/// untouched.
pub open spec fn hseg_carved(g0: TileGrid, g1: TileGrid, x0: int, x1: int, y: int) -> bool {
    &&& g1.width == g0.width
    &&& g1.height == g0.height
    &&& g1.tiles@.len() == g0.tiles@.len()
    &&& forall|x: int|
        (x0 <= x <= x1 || x1 <= x <= x0) ==> #[trigger] g1.tile_at(x, y) == floor_tile_spec()
    &&& forall|x: int, yy: int|
        #![trigger g1.tile_at(x, yy)]
        #![trigger g0.tile_at(x, yy)]
        g1.in_bounds(x, yy) && !((x0 <= x <= x1 || x1 <= x <= x0) && yy == y) ==> g1.tile_at(
            x,
            yy,
        ) == g0.tile_at(x, yy)
}

/// `g1` is `g0` with exactly the vertical run at column `x` between rows
/// `y0` and `y1` (either order, ends included) stamped as the floor tile.
pub open spec fn vseg_carved(g0: TileGrid, g1: TileGrid, y0: int, y1: int, x: int) -> bool {
    &&& g1.width == g0.width
    &&& g1.height == g0.height
    &&& g1.tiles@.len() == g0.tiles@.len()
    &&& forall|y: int|
        (y0 <= y <= y1 || y1 <= y <= y0) ==> #[trigger] g1.tile_at(x, y) == floor_tile_spec()
    &&& forall|xx: int, y: int|
        #![trigger g1.tile_at(xx, y)]
        #![trigger g0.tile_at(xx, y)]
        g1.in_bounds(xx, y) && !((y0 <= y <= y1 || y1 <= y <= y0) && xx == x) ==> g1.tile_at(
            xx,
            y,
        ) == g0.tile_at(xx, y)
}

/// The carved run depends only on the unordered pair of columns: two
/// horizontal carves of the same row from the same start, one with the
/// endpoints swapped, leave identical tiles — direction of travel does not
/// matter. (The tunnel contracts already keep rooms and flags untouched, so
/// the whole maps agree.)
pub proof fn lemma_hseg_carve_endpoint_order(
    g0: TileGrid,
    ga: TileGrid,
    gb: TileGrid,
    x0: int,
    x1: int,
    y: int,
)
    requires
        g0.wf(),
        hseg_carved(g0, ga, x0, x1, y),
        hseg_carved(g0, gb, x1, x0, y),
    ensures
        ga.tiles@ == gb.tiles@,
{
    let w = g0.width as int;
    assert forall|i: int| 0 <= i < ga.tiles@.len() implies ga.tiles@[i] == gb.tiles@[i] by {
        g0.lemma_idx_coords(i);
        let xx = i % w;
        let yy = i / w;
        assert(ga.tile_at(xx, yy) == ga.tiles@[i]);
        assert(gb.tile_at(xx, yy) == gb.tiles@[i]);
        if (x0 <= xx <= x1 || x1 <= xx <= x0) && yy == y {
            assert(ga.tile_at(xx, yy) == floor_tile_spec());
            assert(gb.tile_at(xx, yy) == floor_tile_spec());
        } else {
            assert(ga.in_bounds(xx, yy));
            assert(ga.tile_at(xx, yy) == g0.tile_at(xx, yy));
            assert(gb.tile_at(xx, yy) == g0.tile_at(xx, yy));
        }
    }
    assert(ga.tiles@ =~= gb.tiles@);
}

/// The carved run depends only on the unordered pair of rows: two vertical
/// carves of the same column from the same start, one with the endpoints
/// swapped, leave identical tiles.
pub proof fn lemma_vseg_carve_endpoint_order(
    g0: TileGrid,
    ga: TileGrid,
    gb: TileGrid,
    y0: int,
    y1: int,
    x: int,
)
    requires
        g0.wf(),
        vseg_carved(g0, ga, y0, y1, x),
        vseg_carved(g0, gb, y1, y0, x),
    ensures
        ga.tiles@ == gb.tiles@,
{
    let w = g0.width as int;
    assert forall|i: int| 0 <= i < ga.tiles@.len() implies ga.tiles@[i] == gb.tiles@[i] by {
        g0.lemma_idx_coords(i);
        let xx = i % w;
        let yy = i / w;
        assert(ga.tile_at(xx, yy) == ga.tiles@[i]);
        assert(gb.tile_at(xx, yy) == gb.tiles@[i]);
        if (y0 <= yy <= y1 || y1 <= yy <= y0) && xx == x {
            assert(ga.tile_at(xx, yy) == floor_tile_spec());
            assert(gb.tile_at(xx, yy) == floor_tile_spec());
        } else {
            assert(ga.in_bounds(xx, yy));
            assert(ga.tile_at(xx, yy) == g0.tile_at(xx, yy));
            assert(gb.tile_at(xx, yy) == g0.tile_at(xx, yy));
        }
    }
    assert(ga.tiles@ =~= gb.tiles@);
}

/// `(ax, ay)` and `(bx, by)` are joined by an L-shaped floor path, with one
/// leg order or the other.
pub open spec fn l_connected(g: TileGrid, ax: int, ay: int, bx: int, by: int) -> bool {
    ||| (hseg_floor(g, ax, bx, ay) && vseg_floor(g, ay, by, bx))
    ||| (vseg_floor(g, ay, by, ax) && hseg_floor(g, ax, bx, by))
}

/// Room `k` of the list is joined to room `k - 1` by an L-shaped floor path
/// between their centers.
pub open spec fn connected_to_prev(g: TileGrid, k: int) -> bool {
    l_connected(
        g,
        room_center_x(g.rooms@[k - 1]),
        room_center_y(g.rooms@[k - 1]),
        room_center_x(g.rooms@[k]),
        room_center_y(g.rooms@[k]),
    )
}

/// Every room after the first is joined to the one placed before it.
pub open spec fn corridor_connected(g: TileGrid) -> bool {
    forall|k: int| 1 <= k < g.rooms@.len() ==> #[trigger] connected_to_prev(g, k)
}

/// The truncated center of a room lies inside its footprint.
pub proof fn lemma_center_in_rect(r: Room)
    requires
        r.pos.x0 <= r.pos.x1,
        r.pos.y0 <= r.pos.y1,
    ensures
        r.pos.x0 <= room_center_x(r) <= r.pos.x1,
        r.pos.y0 <= room_center_y(r) <= r.pos.y1,
{
    let a = r.pos.x0 as int;
    let b = r.pos.x1 as int;
    lemma_fundamental_div_mod_converse(2 * a, 2, a, 0);
    lemma_fundamental_div_mod_converse(2 * b, 2, b, 0);
    lemma_div_is_ordered(2 * a, a + b, 2);
    lemma_div_is_ordered(a + b, 2 * b, 2);
    let c = r.pos.y0 as int;
    let d = r.pos.y1 as int;
    lemma_fundamental_div_mod_converse(2 * c, 2, c, 0);
    lemma_fundamental_div_mod_converse(2 * d, 2, d, 0);
    lemma_div_is_ordered(2 * c, c + d, 2);
    lemma_div_is_ordered(c + d, 2 * d, 2);
}

/// A horizontal floor run whose cells lie in bounds survives any change that
/// only carves more floor.
pub proof fn lemma_hseg_monotone(g1: TileGrid, g2: TileGrid, x0: int, x1: int, y: int)
    requires
        floor_monotone(g1, g2),
        g1.in_bounds(x0, y),
        g1.in_bounds(x1, y),
        hseg_floor(g1, x0, x1, y),
    ensures
        hseg_floor(g2, x0, x1, y),
{
    assert forall|x: int| (x0 <= x <= x1 || x1 <= x <= x0) implies #[trigger] g2.floor_at(
        x,
        y,
    ) by {
        assert(g1.floor_at(x, y));
        assert(g1.in_bounds(x, y));
    }
}

/// A vertical floor run whose cells lie in bounds survives any change that
/// only carves more floor.
pub proof fn lemma_vseg_monotone(g1: TileGrid, g2: TileGrid, y0: int, y1: int, x: int)
    requires
        floor_monotone(g1, g2),
        g1.in_bounds(x, y0),
        g1.in_bounds(x, y1),
        vseg_floor(g1, y0, y1, x),
    ensures
        vseg_floor(g2, y0, y1, x),
{
    assert forall|y: int| (y0 <= y <= y1 || y1 <= y <= y0) implies #[trigger] g2.floor_at(
        x,
        y,
    ) by {
        assert(g1.floor_at(x, y));
        assert(g1.in_bounds(x, y));
    }
}

/// An L-shaped floor path between in-bounds endpoints survives any change
/// that only carves more floor.
pub proof fn lemma_l_connected_monotone(
    g1: TileGrid,
    g2: TileGrid,
    ax: int,
    ay: int,
    bx: int,
    by: int,
)
    requires
        floor_monotone(g1, g2),
        g1.in_bounds(ax, ay),
        g1.in_bounds(bx, by),
        l_connected(g1, ax, ay, bx, by),
    ensures
        l_connected(g2, ax, ay, bx, by),
{
    if hseg_floor(g1, ax, bx, ay) && vseg_floor(g1, ay, by, bx) {
        lemma_hseg_monotone(g1, g2, ax, bx, ay);
        lemma_vseg_monotone(g1, g2, ay, by, bx);
    } else {
        lemma_vseg_monotone(g1, g2, ay, by, ax);
        lemma_hseg_monotone(g1, g2, ax, bx, by);
    }
}

/// Carving more floor twice in a row still only carves floor.
pub proof fn lemma_floor_monotone_trans(g1: TileGrid, g2: TileGrid, g3: TileGrid)
    requires
        floor_monotone(g1, g2),
        floor_monotone(g2, g3),
        g2.width == g1.width,
        g2.height == g1.height,
    ensures
        floor_monotone(g1, g3),
{
    assert forall|x: int, y: int|
        g1.in_bounds(x, y) && g1.floor_at(x, y) implies #[trigger] g3.floor_at(x, y) by {
        assert(g2.floor_at(x, y));
        assert(g2.in_bounds(x, y));
    }
}

/// Room floors survive any change that only carves more floor and keeps the
/// room list.
pub proof fn lemma_rooms_floored_monotone(g1: TileGrid, g2: TileGrid)
    requires
        floor_monotone(g1, g2),
        g2.rooms@ == g1.rooms@,
        forall|k: int| 0 <= k < g1.rooms@.len() ==> room_in_grid(g1, #[trigger] g1.rooms@[k]),
        rooms_floored(g1),
    ensures
        rooms_floored(g2),
{
    assert forall|k: int, x: int, y: int|
        0 <= k < g2.rooms@.len() && room_cell(#[trigger] g2.rooms@[k], x, y) implies #[trigger] g2.floor_at(
        x,
        y,
    ) by {
        assert(room_in_grid(g1, g1.rooms@[k]));
        assert(room_cell(g1.rooms@[k], x, y));
        assert(g1.floor_at(x, y));
        assert(g1.in_bounds(x, y));
    }
}

/// What the renderer is owed for the cell at flat index `i`.
pub open spec fn cell_render(g: TileGrid, i: int) -> Option<Renderable> {
    if !g.revealed@[i] {
        None
    } else {
        Some(
            Renderable {
                glyph: glyph_of(g.tiles@[i]),
                fg: if g.visible@[i] {
                    fg_of(g.tiles@[i])
                } else {
                    grey_of(fg_of(g.tiles@[i]))
                },
                bg: bg_of(g.tiles@[i]),
            },
        )
    }
}

impl TileGrid {
    /// Stamp every cell of the room's footprint as floor and append the room
    /// to the room list; no other cell and no flag changes.
    pub fn add_room(&mut self, room: Room)
        requires
            old(self).wf(),
            room_in_grid(*old(self), room),
        ensures
            final(self).wf(),
            final(self).width == old(self).width,
            final(self).height == old(self).height,
            final(self).revealed == old(self).revealed,
            final(self).visible == old(self).visible,
            final(self).rooms@ == old(self).rooms@.push(room),
            forall|x: int, y: int|
                #[trigger] room_cell(room, x, y) ==> final(self).tile_at(x, y)
                    == floor_tile_spec(),
            forall|x: int, y: int|
                #[trigger] room_cell(room, x, y) ==> final(self).floor_at(x, y),
            forall|x: int, y: int|
                #![trigger final(self).tile_at(x, y)]
                #![trigger old(self).tile_at(x, y)]
                final(self).in_bounds(x, y) && !room_cell(room, x, y) ==> final(self).tile_at(x, y)
                    == old(self).tile_at(x, y),
            floor_monotone(*old(self), *final(self)),
    {
        let mut y = room.pos.y0;
        while y <= room.pos.y1
            invariant
                self.wf(),
                self.width == old(self).width,
                self.height == old(self).height,
                self.rooms == old(self).rooms,
                self.revealed == old(self).revealed,
                self.visible == old(self).visible,
                room_in_grid(*old(self), room),
                room.pos.y0 <= y,
                y <= room.pos.y1 + 1,
                forall|xx: int, yy: int|
                    #[trigger] room_cell(room, xx, yy) && yy < y ==> self.tile_at(xx, yy)
                        == floor_tile_spec(),
                forall|xx: int, yy: int|
                    #![trigger self.tile_at(xx, yy)]
                    #![trigger old(self).tile_at(xx, yy)]
                    self.in_bounds(xx, yy) && !(room_cell(room, xx, yy) && yy < y)
                        ==> self.tile_at(xx, yy) == old(self).tile_at(xx, yy),
            decreases room.pos.y1 + 1 - y,
        {
            let mut x = room.pos.x0;
            while x <= room.pos.x1
                invariant
                    self.wf(),
                    self.width == old(self).width,
                    self.height == old(self).height,
                    self.rooms == old(self).rooms,
                    self.revealed == old(self).revealed,
                    self.visible == old(self).visible,
                    room_in_grid(*old(self), room),
                    room.pos.y0 <= y <= room.pos.y1,
                    room.pos.x0 <= x,
                    x <= room.pos.x1 + 1,
                    forall|xx: int, yy: int|
                        #[trigger] room_cell(room, xx, yy) && (yy < y || (yy == y && xx < x))
                            ==> self.tile_at(xx, yy) == floor_tile_spec(),
                    forall|xx: int, yy: int|
                        #![trigger self.tile_at(xx, yy)]
                        #![trigger old(self).tile_at(xx, yy)]
                        self.in_bounds(xx, yy) && !(room_cell(room, xx, yy) && (yy < y || (yy == y
                            && xx < x))) ==> self.tile_at(xx, yy) == old(self).tile_at(xx, yy),
                decreases room.pos.x1 + 1 - x,
            {
                self.set_tile_at(x, y, floor_tile());
                x = x + 1;
            }
            y = y + 1;
        }
        self.rooms.push(room);
        proof {
            assert forall|x: int, y: int|
                old(self).in_bounds(x, y) && old(self).floor_at(x, y) implies #[trigger] self
                .floor_at(x, y) by {
                if room_cell(room, x, y) {
                    assert(room_cell(room, x, y));
                } else {
                    assert(self.tile_at(x, y) == old(self).tile_at(x, y));
                }
            }
        }
    }

    /// Carve a straight 1-tile-wide floor run along row `y` between the two
    /// columns, in whichever order they come; no other cell and no flag
    /// changes.
    pub fn add_horizontal_tunnel(&mut self, x0: i32, x1: i32, y: i32)
        requires
            old(self).wf(),
            old(self).in_bounds(x0 as int, y as int),
            old(self).in_bounds(x1 as int, y as int),
        ensures
            final(self).wf(),
            final(self).width == old(self).width,
            final(self).height == old(self).height,
            final(self).rooms == old(self).rooms,
            final(self).revealed == old(self).revealed,
            final(self).visible == old(self).visible,
            hseg_floor(*final(self), x0 as int, x1 as int, y as int),
            hseg_carved(*old(self), *final(self), x0 as int, x1 as int, y as int),
            forall|xx: int|
                (x0 <= xx <= x1 || x1 <= xx <= x0) ==> #[trigger] final(self).tile_at(
                    xx,
                    y as int,
                ) == floor_tile_spec(),
            forall|xx: int, yy: int|
                #![trigger final(self).tile_at(xx, yy)]
                #![trigger old(self).tile_at(xx, yy)]
                final(self).in_bounds(xx, yy) && !((x0 <= xx <= x1 || x1 <= xx <= x0) && yy == y)
                    ==> final(self).tile_at(xx, yy) == old(self).tile_at(xx, yy),
            floor_monotone(*old(self), *final(self)),
    {
        let lo = if x0 <= x1 {
            x0
        } else {
            x1
        };
        let hi = if x0 <= x1 {
            x1
        } else {
            x0
        };
        let mut x = lo;
        while x <= hi
            invariant
                self.wf(),
                self.width == old(self).width,
                self.height == old(self).height,
                self.rooms == old(self).rooms,
                self.revealed == old(self).revealed,
                self.visible == old(self).visible,
                old(self).in_bounds(lo as int, y as int),
                old(self).in_bounds(hi as int, y as int),
                lo <= hi,
                lo <= x,
                x <= hi + 1,
                lo == (if x0 <= x1 { x0 } else { x1 }),
                hi == (if x0 <= x1 { x1 } else { x0 }),
                forall|xx: int|
                    lo <= xx < x ==> #[trigger] self.tile_at(xx, y as int) == floor_tile_spec(),
                forall|xx: int, yy: int|
                    #![trigger self.tile_at(xx, yy)]
                    #![trigger old(self).tile_at(xx, yy)]
                    self.in_bounds(xx, yy) && !(lo <= xx < x && yy == y) ==> self.tile_at(xx, yy)
                        == old(self).tile_at(xx, yy),
            decreases hi + 1 - x,
        {
            self.set_tile_at(x, y, floor_tile());
            x = x + 1;
        }
        proof {
            assert forall|xx: int|
                (x0 <= xx <= x1 || x1 <= xx <= x0) implies #[trigger] self.floor_at(xx, y as int)
                    && self.tile_at(xx, y as int) == floor_tile_spec() by {
                assert(self.tile_at(xx, y as int) == floor_tile_spec());
            }
            assert forall|xx: int, yy: int|
                old(self).in_bounds(xx, yy) && old(self).floor_at(xx, yy) implies #[trigger] self
                .floor_at(xx, yy) by {
                if lo <= xx <= hi && yy == y {
                    assert(self.tile_at(xx, yy) == floor_tile_spec());
                } else {
                    assert(self.tile_at(xx, yy) == old(self).tile_at(xx, yy));
                }
            }
        }
    }

    /// Carve a straight 1-tile-wide floor run along column `x` between the
    /// two rows, in whichever order they come; no other cell and no flag
    /// changes.
    pub fn add_vertical_tunnel(&mut self, y0: i32, y1: i32, x: i32)
        requires
            old(self).wf(),
            old(self).in_bounds(x as int, y0 as int),
            old(self).in_bounds(x as int, y1 as int),
        ensures
            final(self).wf(),
            final(self).width == old(self).width,
            final(self).height == old(self).height,
            final(self).rooms == old(self).rooms,
            final(self).revealed == old(self).revealed,
            final(self).visible == old(self).visible,
            vseg_floor(*final(self), y0 as int, y1 as int, x as int),
            vseg_carved(*old(self), *final(self), y0 as int, y1 as int, x as int),
            forall|yy: int|
                (y0 <= yy <= y1 || y1 <= yy <= y0) ==> #[trigger] final(self).tile_at(
                    x as int,
                    yy,
                ) == floor_tile_spec(),
            forall|xx: int, yy: int|
                #![trigger final(self).tile_at(xx, yy)]
                #![trigger old(self).tile_at(xx, yy)]
                final(self).in_bounds(xx, yy) && !((y0 <= yy <= y1 || y1 <= yy <= y0) && xx == x)
                    ==> final(self).tile_at(xx, yy) == old(self).tile_at(xx, yy),
            floor_monotone(*old(self), *final(self)),
    {
        let lo = if y0 <= y1 {
            y0
        } else {
            y1
        };
        let hi = if y0 <= y1 {
            y1
        } else {
            y0
        };
        let mut y = lo;
        while y <= hi
            invariant
                self.wf(),
                self.width == old(self).width,
                self.height == old(self).height,
                self.rooms == old(self).rooms,
                self.revealed == old(self).revealed,
                self.visible == old(self).visible,
                old(self).in_bounds(x as int, lo as int),
                old(self).in_bounds(x as int, hi as int),
                lo <= hi,
                lo <= y,
                y <= hi + 1,
                lo == (if y0 <= y1 { y0 } else { y1 }),
                hi == (if y0 <= y1 { y1 } else { y0 }),
                forall|yy: int|
                    lo <= yy < y ==> #[trigger] self.tile_at(x as int, yy) == floor_tile_spec(),
                forall|xx: int, yy: int|
                    #![trigger self.tile_at(xx, yy)]
                    #![trigger old(self).tile_at(xx, yy)]
                    self.in_bounds(xx, yy) && !(lo <= yy < y && xx == x) ==> self.tile_at(xx, yy)
                        == old(self).tile_at(xx, yy),
            decreases hi + 1 - y,
        {
            self.set_tile_at(x, y, floor_tile());
            y = y + 1;
        }
        proof {
            assert forall|yy: int|
                (y0 <= yy <= y1 || y1 <= yy <= y0) implies #[trigger] self.floor_at(x as int, yy)
                    && self.tile_at(x as int, yy) == floor_tile_spec() by {
                assert(self.tile_at(x as int, yy) == floor_tile_spec());
            }
            assert forall|xx: int, yy: int|
                old(self).in_bounds(xx, yy) && old(self).floor_at(xx, yy) implies #[trigger] self
                .floor_at(xx, yy) by {
                if lo <= yy <= hi && xx == x {
                    assert(self.tile_at(xx, yy) == floor_tile_spec());
                } else {
                    assert(self.tile_at(xx, yy) == old(self).tile_at(xx, yy));
                }
            }
        }
    }

    /// Reject the candidate room if it intersects (edge-touch included) any
    /// previously accepted room, leaving the grid untouched; otherwise stamp
    /// it as floor and append it. Returns whether the room was accepted.
    pub fn try_to_add_room(&mut self, room: Room) -> (added: bool)
        requires
            old(self).wf(),
            room_in_grid(*old(self), room),
        ensures
            added == (forall|j: int|
                0 <= j < old(self).rooms@.len() ==> !rect_intersects(
                    room.pos,
                    (#[trigger] old(self).rooms@[j]).pos,
                )),
            !added ==> *final(self) == *old(self),
            final(self).wf(),
            final(self).width == old(self).width,
            final(self).height == old(self).height,
            final(self).revealed == old(self).revealed,
            final(self).visible == old(self).visible,
            added ==> final(self).rooms@ == old(self).rooms@.push(room),
            !added ==> final(self).rooms@ == old(self).rooms@,
            added ==> forall|x: int, y: int|
                #[trigger] room_cell(room, x, y) ==> final(self).tile_at(x, y)
                    == floor_tile_spec(),
            added ==> forall|x: int, y: int|
                #[trigger] room_cell(room, x, y) ==> final(self).floor_at(x, y),
            added ==> forall|x: int, y: int|
                #![trigger final(self).tile_at(x, y)]
                #![trigger old(self).tile_at(x, y)]
                final(self).in_bounds(x, y) && !room_cell(room, x, y) ==> final(self).tile_at(x, y)
                    == old(self).tile_at(x, y),
            floor_monotone(*old(self), *final(self)),
    {
        let n = self.rooms.len();
        let mut i: usize = 0;
        while i < n
            invariant
                *self == *old(self),
                old(self).wf(),
                room_in_grid(*old(self), room),
                n == self.rooms@.len(),
                i <= n,
                forall|j: int|
                    0 <= j < i ==> !rect_intersects(room.pos, (#[trigger] self.rooms@[j]).pos),
            decreases n - i,
        {
            let other = self.rooms[i];
            if room.intersects(&other) {
                return false;
            }
            i = i + 1;
        }
        self.add_room(room);
        true
    }

    /// Build a map by sampling up to `MAX_ROOMS` candidate rooms, keeping
    /// each candidate that overlaps no earlier room, and joining each newly
    /// accepted room to the one before it with an L-shaped corridor whose
    /// leg order is chosen at random. Partial layouts are valid output:
    /// whatever count of rooms survived the attempt budget is accepted
    /// silently, never an error.
    pub fn new_random(width: i32, height: i32, rng: &mut Rng) -> (g: TileGrid)
        requires
            14 <= width <= MAX_DIM,
            14 <= height <= MAX_DIM,
        ensures
            g.wf(),
            g.width == width,
            g.height == height,
            1 <= g.rooms@.len() <= MAX_ROOMS,
            forall|k: int| 0 <= k < g.rooms@.len() ==> room_interior(g, #[trigger] g.rooms@[k]),
            forall|k: int| 0 <= k < g.rooms@.len() ==> room_sized(#[trigger] g.rooms@[k]),
            rooms_disjoint(g.rooms@),
            rooms_floored(g),
            two_toned(g),
            corridor_connected(g),
            forall|i: int| 0 <= i < g.area() ==> !(#[trigger] g.revealed@[i]),
            forall|i: int| 0 <= i < g.area() ==> !(#[trigger] g.visible@[i]),
    {
        let mut grid = TileGrid::new(width, height);
        let mut attempts: i32 = 0;
        while attempts < MAX_ROOMS
            invariant
                14 <= width <= MAX_DIM,
                14 <= height <= MAX_DIM,
                grid.wf(),
                grid.width == width,
                grid.height == height,
                0 <= attempts <= MAX_ROOMS,
                grid.rooms@.len() <= attempts,
                attempts == 0 ==> grid.rooms@.len() == 0,
                1 <= attempts ==> 1 <= grid.rooms@.len(),
                forall|k: int|
                    0 <= k < grid.rooms@.len() ==> room_interior(grid, #[trigger] grid.rooms@[k]),
                forall|k: int| 0 <= k < grid.rooms@.len() ==> room_sized(#[trigger] grid.rooms@[k]),
                rooms_disjoint(grid.rooms@),
                rooms_floored(grid),
                two_toned(grid),
                corridor_connected(grid),
                forall|i: int| 0 <= i < grid.area() ==> !(#[trigger] grid.revealed@[i]),
                forall|i: int| 0 <= i < grid.area() ==> !(#[trigger] grid.visible@[i]),
            decreases MAX_ROOMS - attempts,
        {
            let ghost g0 = grid;
            let room = Room::random_size(width, height, rng);
            let added = grid.try_to_add_room(room);
            if added {
                let ghost g1 = grid;
                let n = grid.rooms.len();
                proof {
                    assert(g1.rooms@ == g0.rooms@.push(room));
                    assert forall|k: int|
                        0 <= k < g1.rooms@.len() implies room_interior(
                        g1,
                        #[trigger] g1.rooms@[k],
                    ) by {
                        if k < n - 1 {
                            assert(g1.rooms@[k] == g0.rooms@[k]);
                            assert(room_interior(g0, g0.rooms@[k]));
                        }
                    }
                    assert forall|k: int|
                        0 <= k < g1.rooms@.len() implies room_sized(#[trigger] g1.rooms@[k]) by {
                        if k < n - 1 {
                            assert(g1.rooms@[k] == g0.rooms@[k]);
                            assert(room_sized(g0.rooms@[k]));
                        }
                    }
                    assert forall|i: int, j: int|
                        0 <= i < g1.rooms@.len() && 0 <= j < g1.rooms@.len() && i
                            != j implies !rect_intersects(
                        (#[trigger] g1.rooms@[i]).pos,
                        (#[trigger] g1.rooms@[j]).pos,
                    ) by {
                        if i < n - 1 && j < n - 1 {
                            assert(!rect_intersects(g0.rooms@[i].pos, g0.rooms@[j].pos));
                        } else if j == n - 1 {
                            assert(g1.rooms@[j] == room);
                            assert(!rect_intersects(room.pos, (g0.rooms@[i]).pos));
                        } else {
                            assert(g1.rooms@[i] == room);
                            assert(!rect_intersects(room.pos, (g0.rooms@[j]).pos));
                        }
                    }
                    assert(rooms_disjoint(g1.rooms@));
                    assert forall|k: int, x: int, y: int|
                        0 <= k < g1.rooms@.len() && room_cell(
                            #[trigger] g1.rooms@[k],
                            x,
                            y,
                        ) implies #[trigger] g1.floor_at(x, y) by {
                        if k == n - 1 {
                            assert(g1.rooms@[k] == room);
                            assert(room_cell(room, x, y));
                        } else {
                            assert(g1.rooms@[k] == g0.rooms@[k]);
                            assert(room_cell(g0.rooms@[k], x, y));
                            assert(g0.floor_at(x, y));
                            assert(room_interior(g0, g0.rooms@[k]));
                            assert(g0.in_bounds(x, y));
                        }
                    }
                    assert(rooms_floored(g1));
                    assert forall|xx: int, yy: int|
                        #![trigger g1.tile_at(xx, yy)]
                        g1.in_bounds(xx, yy) implies (g1.tile_at(xx, yy) == g0.tile_at(xx, yy)
                            || g1.tile_at(xx, yy) == wall_tile_spec() || g1.tile_at(xx, yy)
                            == floor_tile_spec()) by {
                        if room_cell(room, xx, yy) {
                            assert(g1.tile_at(xx, yy) == floor_tile_spec());
                        } else {
                            assert(g1.tile_at(xx, yy) == g0.tile_at(xx, yy));
                        }
                    }
                    lemma_two_toned_preserved(g0, g1);
                }
                if n > 1 {
                    let room_b = grid.rooms[n - 1];
                    let room_a = grid.rooms[n - 2];
                    proof {
                        assert(room_interior(g1, room_a));
                        assert(room_interior(g1, room_b));
                        lemma_center_in_rect(room_a);
                        lemma_center_in_rect(room_b);
                    }
                    let (prev_x, prev_y) = room_a.center();
                    let (x, y) = room_b.center();
                    if rng.range(0, 2) == 1 {
                        grid.add_horizontal_tunnel(prev_x, x, prev_y);
                        let ghost g2 = grid;
                        grid.add_vertical_tunnel(prev_y, y, x);
                        proof {
                            lemma_hseg_monotone(g2, grid, prev_x as int, x as int, prev_y as int);
                            assert(l_connected(
                                grid,
                                prev_x as int,
                                prev_y as int,
                                x as int,
                                y as int,
                            ));
                            lemma_floor_monotone_trans(g1, g2, grid);
                            assert forall|xx: int, yy: int|
                                #![trigger g2.tile_at(xx, yy)]
                                g2.in_bounds(xx, yy) implies (g2.tile_at(xx, yy) == g1.tile_at(
                                xx,
                                yy,
                            ) || g2.tile_at(xx, yy) == wall_tile_spec() || g2.tile_at(xx, yy)
                                == floor_tile_spec()) by {
                                if ((prev_x as int <= xx && xx <= x as int) || (x as int <= xx
                                    && xx <= prev_x as int)) && yy == prev_y as int {
                                    assert(g2.tile_at(xx, yy) == floor_tile_spec());
                                } else {
                                    assert(g2.tile_at(xx, yy) == g1.tile_at(xx, yy));
                                }
                            }
                            lemma_two_toned_preserved(g1, g2);
                            assert forall|xx: int, yy: int|
                                #![trigger grid.tile_at(xx, yy)]
                                grid.in_bounds(xx, yy) implies (grid.tile_at(xx, yy) == g2.tile_at(
                                xx,
                                yy,
                            ) || grid.tile_at(xx, yy) == wall_tile_spec() || grid.tile_at(xx, yy)
                                == floor_tile_spec()) by {
                                if ((prev_y as int <= yy && yy <= y as int) || (y as int <= yy
                                    && yy <= prev_y as int)) && xx == x as int {
                                    assert(grid.tile_at(xx, yy) == floor_tile_spec());
                                } else {
                                    assert(grid.tile_at(xx, yy) == g2.tile_at(xx, yy));
                                }
                            }
                            lemma_two_toned_preserved(g2, grid);
                        }
                    } else {
                        grid.add_vertical_tunnel(prev_y, y, prev_x);
                        let ghost g2 = grid;
                        grid.add_horizontal_tunnel(prev_x, x, y);
                        proof {
                            lemma_vseg_monotone(g2, grid, prev_y as int, y as int, prev_x as int);
                            assert(l_connected(
                                grid,
                                prev_x as int,
                                prev_y as int,
                                x as int,
                                y as int,
                            ));
                            lemma_floor_monotone_trans(g1, g2, grid);
                            assert forall|xx: int, yy: int|
                                #![trigger g2.tile_at(xx, yy)]
                                g2.in_bounds(xx, yy) implies (g2.tile_at(xx, yy) == g1.tile_at(
                                xx,
                                yy,
                            ) || g2.tile_at(xx, yy) == wall_tile_spec() || g2.tile_at(xx, yy)
                                == floor_tile_spec()) by {
                                if ((prev_y as int <= yy && yy <= y as int) || (y as int <= yy
                                    && yy <= prev_y as int)) && xx == prev_x as int {
                                    assert(g2.tile_at(xx, yy) == floor_tile_spec());
                                } else {
                                    assert(g2.tile_at(xx, yy) == g1.tile_at(xx, yy));
                                }
                            }
                            lemma_two_toned_preserved(g1, g2);
                            assert forall|xx: int, yy: int|
                                #![trigger grid.tile_at(xx, yy)]
                                grid.in_bounds(xx, yy) implies (grid.tile_at(xx, yy) == g2.tile_at(
                                xx,
                                yy,
                            ) || grid.tile_at(xx, yy) == wall_tile_spec() || grid.tile_at(xx, yy)
                                == floor_tile_spec()) by {
                                if ((prev_x as int <= xx && xx <= x as int) || (x as int <= xx
                                    && xx <= prev_x as int)) && yy == y as int {
                                    assert(grid.tile_at(xx, yy) == floor_tile_spec());
                                } else {
                                    assert(grid.tile_at(xx, yy) == g2.tile_at(xx, yy));
                                }
                            }
                            lemma_two_toned_preserved(g2, grid);
                        }
                    }
                    proof {
                        let gt = grid;
                        assert(gt.rooms@ == g1.rooms@);
                        assert(floor_monotone(g1, gt));
                        lemma_floor_monotone_trans(g0, g1, gt);
                        assert forall|k: int|
                            0 <= k < gt.rooms@.len() implies room_interior(
                            gt,
                            #[trigger] gt.rooms@[k],
                        ) by {
                            assert(room_interior(g1, g1.rooms@[k]));
                        }
                        assert forall|k: int|
                            0 <= k < gt.rooms@.len() implies room_sized(#[trigger] gt.rooms@[k]) by {
                            assert(room_sized(g1.rooms@[k]));
                        }
                        assert forall|k: int|
                            0 <= k < g1.rooms@.len() implies room_in_grid(
                            g1,
                            #[trigger] g1.rooms@[k],
                        ) by {
                            assert(room_interior(g1, g1.rooms@[k]));
                        }
                        lemma_rooms_floored_monotone(g1, gt);
                        assert forall|k: int|
                            1 <= k < gt.rooms@.len() implies #[trigger] connected_to_prev(
                            gt,
                            k,
                        ) by {
                            if k == n - 1 {
                                assert(gt.rooms@[k - 1] == room_a);
                                assert(gt.rooms@[k] == room_b);
                                assert(room_center_x(room_a) == prev_x as int);
                                assert(room_center_y(room_a) == prev_y as int);
                                assert(room_center_x(room_b) == x as int);
                                assert(room_center_y(room_b) == y as int);
                            } else {
                                assert(connected_to_prev(g0, k));
                                assert(g0.rooms@[k] == gt.rooms@[k]);
                                assert(g0.rooms@[k - 1] == gt.rooms@[k - 1]);
                                assert(room_interior(g0, g0.rooms@[k]));
                                assert(room_interior(g0, g0.rooms@[k - 1]));
                                lemma_center_in_rect(g0.rooms@[k]);
                                lemma_center_in_rect(g0.rooms@[k - 1]);
                                lemma_l_connected_monotone(
                                    g0,
                                    gt,
                                    room_center_x(g0.rooms@[k - 1]),
                                    room_center_y(g0.rooms@[k - 1]),
                                    room_center_x(g0.rooms@[k]),
                                    room_center_y(g0.rooms@[k]),
                                );
                            }
                        }
                        assert forall|i: int|
                            0 <= i < grid.area() implies !(#[trigger] grid.revealed@[i]) by {
                            assert(!g0.revealed@[i]);
                        }
                        assert forall|i: int|
                            0 <= i < grid.area() implies !(#[trigger] grid.visible@[i]) by {
                            assert(!g0.visible@[i]);
                        }
                    }
                }
            }
            attempts = attempts + 1;
        }
        grid
    }

    /// Build the alternate "fully random" layout: an all-floor grid, a solid
    /// outer wall ring, then up to 400 wall tiles scattered at random
    /// interior positions, always skipping the grid's exact center cell so
    /// the starting point is never blocked. Produces no room list and makes
    /// no connectivity promise.
    pub fn new_fully_random(width: i32, height: i32, rng: &mut Rng) -> (g: TileGrid)
        requires
            3 <= width <= MAX_DIM,
            3 <= height <= MAX_DIM,
        ensures
            g.wf(),
            g.width == width,
            g.height == height,
            g.rooms@.len() == 0,
            two_toned(g),
            forall|x: int, y: int|
                #![trigger g.tile_at(x, y)]
                g.in_bounds(x, y) && (x == 0 || y == 0 || x == width - 1 || y == height - 1)
                    ==> g.wall_at(x, y),
            g.floor_at(width as int / 2, height as int / 2),
            forall|i: int| 0 <= i < g.area() ==> !(#[trigger] g.revealed@[i]),
            forall|i: int| 0 <= i < g.area() ==> !(#[trigger] g.visible@[i]),
    {
        let mut grid = TileGrid::new(width, height);
        let mut y: i32 = 1;
        while y < height - 1
            invariant
                3 <= width <= MAX_DIM,
                3 <= height <= MAX_DIM,
                grid.wf(),
                grid.width == width,
                grid.height == height,
                grid.rooms@.len() == 0,
                1 <= y <= height - 1,
                forall|xx: int, yy: int|
                    #![trigger grid.tile_at(xx, yy)]
                    grid.in_bounds(xx, yy) ==> if 1 <= xx < width - 1 && 1 <= yy < y {
                        grid.tile_at(xx, yy) == floor_tile_spec()
                    } else {
                        grid.tile_at(xx, yy) == wall_tile_spec()
                    },
                forall|i: int| 0 <= i < grid.area() ==> !(#[trigger] grid.revealed@[i]),
                forall|i: int| 0 <= i < grid.area() ==> !(#[trigger] grid.visible@[i]),
            decreases height - 1 - y,
        {
            let mut x: i32 = 1;
            while x < width - 1
                invariant
                    3 <= width <= MAX_DIM,
                    3 <= height <= MAX_DIM,
                    grid.wf(),
                    grid.width == width,
                    grid.height == height,
                    grid.rooms@.len() == 0,
                    1 <= y <= height - 2,
                    1 <= x <= width - 1,
                    forall|xx: int, yy: int|
                        #![trigger grid.tile_at(xx, yy)]
                        grid.in_bounds(xx, yy) ==> if 1 <= xx < width - 1 && (1 <= yy < y || (yy
                            == y && xx < x)) {
                            grid.tile_at(xx, yy) == floor_tile_spec()
                        } else {
                            grid.tile_at(xx, yy) == wall_tile_spec()
                        },
                    forall|i: int| 0 <= i < grid.area() ==> !(#[trigger] grid.revealed@[i]),
                    forall|i: int| 0 <= i < grid.area() ==> !(#[trigger] grid.visible@[i]),
                decreases width - 1 - x,
            {
                grid.set_tile_at(x, y, floor_tile());
                x = x + 1;
            }
            y = y + 1;
        }
        proof {
            vstd::arithmetic::div_mod::lemma_fundamental_div_mod(width as int, 2);
            vstd::arithmetic::div_mod::lemma_mod_bound(width as int, 2);
            vstd::arithmetic::div_mod::lemma_fundamental_div_mod(height as int, 2);
            vstd::arithmetic::div_mod::lemma_mod_bound(height as int, 2);
            assert(1 <= width as int / 2 < width - 1);
            assert(1 <= height as int / 2 < height - 1);
        }
        let mut i: i32 = 0;
        while i < 400
            invariant
                3 <= width <= MAX_DIM,
                3 <= height <= MAX_DIM,
                grid.wf(),
                grid.width == width,
                grid.height == height,
                grid.rooms@.len() == 0,
                0 <= i <= 400,
                1 <= width as int / 2 < width - 1,
                1 <= height as int / 2 < height - 1,
                two_toned(grid),
                forall|xx: int, yy: int|
                    #![trigger grid.tile_at(xx, yy)]
                    grid.in_bounds(xx, yy) && (xx == 0 || yy == 0 || xx == width - 1 || yy == height
                        - 1) ==> grid.tile_at(xx, yy) == wall_tile_spec(),
                grid.floor_at(width as int / 2, height as int / 2),
                forall|j: int| 0 <= j < grid.area() ==> !(#[trigger] grid.revealed@[j]),
                forall|j: int| 0 <= j < grid.area() ==> !(#[trigger] grid.visible@[j]),
            decreases 400 - i,
        {
            let x = rng.range(1, width - 1);
            let y = rng.range(1, height - 1);
            if !(x == width / 2 && y == height / 2) {
                grid.set_tile_at(x, y, wall_tile());
            }
            i = i + 1;
        }
        grid
    }
}

} // verus!
