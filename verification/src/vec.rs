//! Points and sizes on the character grid.

use vstd::prelude::*;

verus! {

/// A position or a size, in character cells.
#[derive(Clone, Copy, Debug, PartialEq, Eq, Structural)]
pub struct Vec2 {
    pub x: usize,
    pub y: usize,
}

/// The smaller of two numbers.
pub open spec fn min_of(a: int, b: int) -> int {
    if a <= b { a } else { b }
}

/// The larger of two numbers.
pub open spec fn max_of(a: int, b: int) -> int {
    if a >= b { a } else { b }
}

/// `a - b`, or 0 where `b` is the larger.
pub open spec fn monus(a: int, b: int) -> int {
    if a >= b { a - b } else { 0 }
}

impl Vec2 {
    pub fn new(x: usize, y: usize) -> (r: Vec2)
        ensures
            r.x == x,
            r.y == y,
    {
        Vec2 { x, y }
    }

    /// The origin.
    pub fn zero() -> (r: Vec2)
        ensures
            r.x == 0,
            r.y == 0,
    {
        Vec2 { x: 0, y: 0 }
    }

    pub open spec fn spec_min(a: Vec2, b: Vec2) -> Vec2 {
        Vec2 { x: min_of(a.x as int, b.x as int) as usize, y: min_of(a.y as int, b.y as int) as usize }
    }

    pub open spec fn spec_max(a: Vec2, b: Vec2) -> Vec2 {
        Vec2 { x: max_of(a.x as int, b.x as int) as usize, y: max_of(a.y as int, b.y as int) as usize }
    }

    /// Componentwise difference, each component floored at 0.
    pub open spec fn spec_minus(self, other: Vec2) -> Vec2 {
        Vec2 {
            x: monus(self.x as int, other.x as int) as usize,
            y: monus(self.y as int, other.y as int) as usize,
        }
    }

    /// Componentwise sum, each component capped at `usize::MAX`.
    pub open spec fn spec_plus(self, other: Vec2) -> Vec2 {
        Vec2 {
            x: min_of(self.x + other.x, usize::MAX as int) as usize,
            y: min_of(self.y + other.y, usize::MAX as int) as usize,
        }
    }

    pub open spec fn spec_half(self) -> Vec2 {
        Vec2 { x: (self.x / 2) as usize, y: (self.y / 2) as usize }
    }

    /// Componentwise minimum.
    pub fn min(a: Vec2, b: Vec2) -> (r: Vec2)
        ensures
            r == Vec2::spec_min(a, b),
    {
        Vec2 { x: if a.x <= b.x { a.x } else { b.x }, y: if a.y <= b.y { a.y } else { b.y } }
    }

    /// Componentwise maximum.
    pub fn max(a: Vec2, b: Vec2) -> (r: Vec2)
        ensures
            r == Vec2::spec_max(a, b),
    {
        Vec2 { x: if a.x >= b.x { a.x } else { b.x }, y: if a.y >= b.y { a.y } else { b.y } }
    }

    /// Componentwise difference that stops at 0.
    pub fn minus(self, other: Vec2) -> (r: Vec2)
        ensures
            r == self.spec_minus(other),
    {
        Vec2 {
            x: if self.x >= other.x { self.x - other.x } else { 0 },
            y: if self.y >= other.y { self.y - other.y } else { 0 },
        }
    }

    /// Componentwise sum that stops at `usize::MAX`.
    pub fn plus(self, other: Vec2) -> (r: Vec2)
        ensures
            r == self.spec_plus(other),
    {
        Vec2 {
            x: if self.x <= usize::MAX - other.x { self.x + other.x } else { usize::MAX },
            y: if self.y <= usize::MAX - other.y { self.y + other.y } else { usize::MAX },
        }
    }

    /// Both components halved, rounding down.
    pub fn half(self) -> (r: Vec2)
        ensures
            r == self.spec_half(),
    {
        Vec2 { x: self.x / 2, y: self.y / 2 }
    }
}

/// Anything that can be read as a `Vec2`.
pub trait ToVec2: Sized {
    spec fn vec2(self) -> Vec2;

    fn to_vec2(self) -> (r: Vec2)
        ensures
            r == self.vec2(),
    ;
}

impl ToVec2 for Vec2 {
    open spec fn vec2(self) -> Vec2 {
        self
    }

    fn to_vec2(self) -> (r: Vec2)
        ensures
            r == self,
    {
        self
    }
}

impl ToVec2 for (usize, usize) {
    open spec fn vec2(self) -> Vec2 {
        Vec2 { x: self.0, y: self.1 }
    }

    fn to_vec2(self) -> (r: Vec2)
        ensures
            r.x == self.0,
            r.y == self.1,
    {
        Vec2 { x: self.0, y: self.1 }
    }
}

} // verus!
