//! The records attached to actors: a position, a field-of-view cache, and the
//! rendering hints that the host loop consumes.

use vstd::prelude::*;

verus! {

/// A grid coordinate.
#[derive(Clone, Copy, Debug, PartialEq, Eq, Structural)]
pub struct Point {
    pub x: i32,
    pub y: i32,
}

/// An RGB color carried as a display hint; the core's algorithms never read it.
#[derive(Clone, Copy, Debug, PartialEq, Eq, Structural)]
pub struct Color {
    pub r: u8,
    pub g: u8,
    pub b: u8,
}

/// The BT.709 luma of a color, computed in thousandths of a color unit.
pub open spec fn luma(c: Color) -> int {
    (2126 * c.r + 7152 * c.g + 722 * c.b) / 10000
}

/// The grey of equal luma, used for tiles that are remembered but not
/// currently seen.
pub open spec fn grey_of(c: Color) -> Color {
    Color { r: luma(c) as u8, g: luma(c) as u8, b: luma(c) as u8 }
}

impl Color {
    /// Collapse the color to its grey of equal luma.
    pub fn to_greyscale(&self) -> (r: Color)
        ensures
            r == grey_of(*self),
            r.r == luma(*self),
    {
        let l: u32 = (2126 * (self.r as u32) + 7152 * (self.g as u32) + 722 * (self.b as u32))
            / 10000;
        let l8: u8 = l as u8;
        Color { r: l8, g: l8, b: l8 }
    }
}

/// An integer position on the grid, owned by whatever entity it describes.
#[derive(Clone, Copy, Debug, PartialEq, Eq, Structural)]
pub struct Position {
    pub x: i32,
    pub y: i32,
}

/// A per-observer field-of-view cache: a sight radius fixed per observer, the
/// points currently visible from the observer, and a flag asking for a
/// recompute.
pub struct FoV {
    pub visible_tiles: Vec<Point>,
    pub range: i32,
    pub dirty: bool,
}

impl FoV {
    /// A fresh cache: empty visible set and `dirty` raised, so the first tick
    /// always computes.
    pub fn new(range: i32) -> (r: FoV)
        ensures
            r.visible_tiles@ == Seq::<Point>::empty(),
            r.range == range,
            r.dirty,
    {
        FoV { visible_tiles: Vec::new(), range, dirty: true }
    }
}

/// A display hint for an actor: glyph code and colors.
#[derive(Clone, Copy, Debug, PartialEq, Eq, Structural)]
pub struct Renderable {
    pub glyph: u16,
    pub fg: Color,
    pub bg: Color,
}

/// Marker attached to an actor that drifts left each tick.
#[derive(Clone, Copy)]
pub struct LeftMover {}

/// Marker for the primary observer, whose field of view feeds the grid's
/// shared reveal and visibility flags.
#[derive(Clone, Copy, Debug)]
pub struct Player {}

} // verus!
