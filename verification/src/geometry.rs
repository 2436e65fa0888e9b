//! Screen rectangles and template-match boxes in pixels.

use vstd::prelude::*;

verus! {

/// A rectangle of the screen, in pixels.
#[derive(Debug, Clone, Copy)]
pub struct Region {
    pub left: i32,
    pub top: i32,
    pub width: i32,
    pub height: i32,
}

impl Region {
    pub fn new(left: i32, top: i32, width: i32, height: i32) -> (r: Self)
        ensures
            r.left == left,
            r.top == top,
            r.width == width,
            r.height == height,
    {
        Region { left, top, width, height }
    }
}

/// Where a template image was found on the screen.
#[derive(Debug, Clone)]
pub struct MatchBox {
    pub left: i32,
    pub top: i32,
    pub width: i32,
    pub height: i32,
    pub source: String,
}

/// Half of `v`, rounded toward zero (Rust's integer division by two).
pub open spec fn half_toward_zero(v: int) -> int {
    if v >= 0 {
        v / 2
    } else {
        -((-v) / 2)
    }
}

impl MatchBox {
    /// The centre of the box: its corner plus half its size, each half
    /// rounded toward zero.
    pub fn center(&self) -> (c: (i32, i32))
        requires
            i32::MIN <= self.left + half_toward_zero(self.width as int) <= i32::MAX,
            i32::MIN <= self.top + half_toward_zero(self.height as int) <= i32::MAX,
        ensures
            c.0 == self.left + half_toward_zero(self.width as int),
            c.1 == self.top + half_toward_zero(self.height as int),
    {
        (self.left + self.width / 2, self.top + self.height / 2)
    }
}


/// Halving toward zero loses at most one, and keeps the sign: twice the half
/// of `v` is `v` or one step nearer to zero.
pub proof fn law_half_is_within_one_of_the_middle(v: int)
    ensures
        v >= 0 ==> 0 <= half_toward_zero(v) && 0 <= v - 2 * half_toward_zero(v) <= 1,
        v < 0 ==> half_toward_zero(v) <= 0 && -1 <= v - 2 * half_toward_zero(v) <= 0,
{
}

} // verus!
