//! Where content sits in a larger area.

use vstd::prelude::*;
use crate::vec::monus;

verus! {

/// Horizontal placement.
#[derive(Clone, Copy, Debug, PartialEq, Eq, Structural)]
pub enum HAlign {
    Left,
    Center,
    Right,
}

/// Vertical placement.
#[derive(Clone, Copy, Debug, PartialEq, Eq, Structural)]
pub enum VAlign {
    Top,
    Center,
    Bottom,
}

/// Placement on both axes.
#[derive(Clone, Copy, Debug, PartialEq, Eq, Structural)]
pub struct Align {
    pub h: HAlign,
    pub v: VAlign,
}

impl HAlign {
    /// The column at which content of the given width begins in a container
    /// of the given width. Content that is too wide begins at 0.
    pub open spec fn offset(self, content: int, container: int) -> int {
        match self {
            HAlign::Left => 0,
            HAlign::Center => monus(container, content) / 2,
            HAlign::Right => monus(container, content),
        }
    }

    pub fn get_offset(&self, content: usize, container: usize) -> (r: usize)
        ensures
            r == self.offset(content as int, container as int),
            r + content <= container || r == 0,
    {
        let free: usize = if container >= content { container - content } else { 0 };
        match self {
            HAlign::Left => 0,
            HAlign::Center => free / 2,
            HAlign::Right => free,
        }
    }
}

impl VAlign {
    /// The row at which content of the given height begins in a container of
    /// the given height. Content that is too high begins at 0.
    pub open spec fn offset(self, content: int, container: int) -> int {
        match self {
            VAlign::Top => 0,
            VAlign::Center => monus(container, content) / 2,
            VAlign::Bottom => monus(container, content),
        }
    }

    pub fn get_offset(&self, content: usize, container: usize) -> (r: usize)
        ensures
            r == self.offset(content as int, container as int),
            r + content <= container || r == 0,
    {
        let free: usize = if container >= content { container - content } else { 0 };
        match self {
            VAlign::Top => 0,
            VAlign::Center => free / 2,
            VAlign::Bottom => free,
        }
    }
}

impl Align {
    pub fn new(h: HAlign, v: VAlign) -> (r: Align)
        ensures
            r.h == h,
            r.v == v,
    {
        Align { h, v }
    }

    pub fn top_left() -> (r: Align)
        ensures
            r.h == HAlign::Left,
            r.v == VAlign::Top,
    {
        Align { h: HAlign::Left, v: VAlign::Top }
    }

    pub fn center() -> (r: Align)
        ensures
            r.h == HAlign::Center,
            r.v == VAlign::Center,
    {
        Align { h: HAlign::Center, v: VAlign::Center }
    }
}

} // verus!
