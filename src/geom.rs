//! Integer world geometry: points, displacements and axis-aligned rectangles.
use vstd::prelude::*;

verus! {

/// `a + b`, held to the range of `i64`.
pub open spec fn sat_add_spec(a: int, b: int) -> int {
    if a + b > i64::MAX {
        i64::MAX as int
    } else if a + b < i64::MIN {
        i64::MIN as int
    } else {
        a + b
    }
}

/// Adds two coordinates, saturating at the bounds of `i64`.
pub fn sat_add(a: i64, b: i64) -> (r: i64)
    ensures
        r == sat_add_spec(a as int, b as int),
{
    match a.checked_add(b) {
        Some(s) => s,
        None => {
            if b > 0 {
                i64::MAX
            } else {
                i64::MIN
            }
        },
    }
}

/// A point or a displacement in world units.
#[derive(Clone, Copy, Debug, PartialEq, Eq, Structural)]
pub struct Vec2 {
    pub x: i64,
    pub y: i64,
}

impl Vec2 {
    pub fn new(x: i64, y: i64) -> (r: Vec2)
        ensures
            r.x == x,
            r.y == y,
    {
        Vec2 { x, y }
    }

    /// The point moved by `d`, each coordinate saturating.
    pub fn plus(&self, d: Vec2) -> (r: Vec2)
        ensures
            r.x == sat_add_spec(self.x as int, d.x as int),
            r.y == sat_add_spec(self.y as int, d.y as int),
    {
        Vec2 { x: sat_add(self.x, d.x), y: sat_add(self.y, d.y) }
    }
}

/// An axis-aligned rectangle: its top-left corner and its size.
#[derive(Clone, Copy, Debug, PartialEq, Eq, Structural)]
pub struct Rect {
    pub pos: Vec2,
    pub size: Vec2,
}

impl Rect {
    pub fn new(pos: Vec2, size: Vec2) -> (r: Rect)
        ensures
            r.pos == pos,
            r.size == size,
    {
        Rect { pos, size }
    }

    /// A rectangle of the given size at the origin.
    pub fn new_sized(size: Vec2) -> (r: Rect)
        ensures
            r.pos == (Vec2 { x: 0, y: 0 }),
            r.size == size,
    {
        Rect { pos: Vec2 { x: 0, y: 0 }, size }
    }

    /// The same rectangle moved by `d`, each coordinate saturating.
    pub open spec fn translate_spec(self, d: Vec2) -> Rect {
        Rect {
            pos: Vec2 {
                x: sat_add_spec(self.pos.x as int, d.x as int) as i64,
                y: sat_add_spec(self.pos.y as int, d.y as int) as i64,
            },
            size: self.size,
        }
    }

    /// The same rectangle moved by `d`; its size is kept.
    pub fn translate(&self, d: Vec2) -> (r: Rect)
        ensures
            r.pos.x == sat_add_spec(self.pos.x as int, d.x as int),
            r.pos.y == sat_add_spec(self.pos.y as int, d.y as int),
            r.size == self.size,
            r == self.translate_spec(d),
    {
        Rect { pos: self.pos.plus(d), size: self.size }
    }
}

} // verus!
