//! Axis-aligned rectangles, for collisions and drawing.
use vstd::prelude::*;

use crate::fixed::{abs, fits_i64, lemma_trunc_div_bound, trunc_div, div_toward_zero};
use crate::vec::Vec2;

verus! {

/// A rectangle with edges in thousandths of an arena unit.
#[derive(Clone, Copy, Debug, PartialEq, Eq, Structural)]
pub struct Rect {
    pub left: i64,
    pub right: i64,
    pub top: i64,
    pub bottom: i64,
}

/// The edges are in order: `left <= right` and `bottom <= top`.
pub open spec fn is_well_formed(r: Rect) -> bool {
    r.left <= r.right && r.bottom <= r.top
}

/// `p` lies within `r`, edges included.
pub open spec fn holds_point(r: Rect, p: Vec2) -> bool {
    r.left <= p.x <= r.right && r.bottom <= p.y <= r.top
}

pub open spec fn can_shift(r: Rect, dx: int, dy: int) -> bool {
    fits_i64(r.left + dx) && fits_i64(r.right + dx) && fits_i64(r.bottom + dy) && fits_i64(
        r.top + dy,
    )
}

/// `r` moved `dx` to the right and `dy` up.
pub open spec fn shifted(r: Rect, dx: int, dy: int) -> Rect {
    Rect {
        left: (r.left + dx) as i64,
        right: (r.right + dx) as i64,
        top: (r.top + dy) as i64,
        bottom: (r.bottom + dy) as i64,
    }
}

impl Rect {
    pub fn new(left: i64, right: i64, bottom: i64, top: i64) -> (r: Rect)
        ensures
            r.left == left,
            r.right == right,
            r.bottom == bottom,
            r.top == top,
    {
        Rect { left, right, top, bottom }
    }

    /// Whether this rectangle contains `point`, edges included.
    pub fn contains(&self, point: Vec2) -> (r: bool)
        ensures
            r == holds_point(*self, point),
    {
        let in_x = self.left <= point.x && point.x <= self.right;
        let in_y = self.bottom <= point.y && point.y <= self.top;
        in_x && in_y
    }

    /// Moves this rectangle `dx` to the right and `dy` up (negative values
    /// move it left and down).
    pub fn translate(&mut self, dx: i64, dy: i64)
        requires
            can_shift(*old(self), dx as int, dy as int),
        ensures
            *final(self) == shifted(*old(self), dx as int, dy as int),
            is_well_formed(*old(self)) ==> is_well_formed(*final(self)),
    {
        self.left = self.left + dx;
        self.right = self.right + dx;
        self.bottom = self.bottom + dy;
        self.top = self.top + dy;
    }

    /// A copy of this rectangle moved `dx` to the right and `dy` up.
    pub fn translated(&self, dx: i64, dy: i64) -> (r: Rect)
        requires
            can_shift(*self, dx as int, dy as int),
        ensures
            r == shifted(*self, dx as int, dy as int),
            is_well_formed(*self) ==> is_well_formed(r),
    {
        Rect::new(self.left + dx, self.right + dx, self.bottom + dy, self.top + dy)
    }

    /// The middle of this rectangle, each coordinate rounded toward zero.
    pub fn center(&self) -> (r: Vec2)
        ensures
            r.x == trunc_div(self.left + self.right, 2),
            r.y == trunc_div(self.bottom + self.top, 2),
    {
        Vec2::new(midpoint(self.left, self.right), midpoint(self.bottom, self.top))
    }
}

fn midpoint(a: i64, b: i64) -> (r: i64)
    ensures
        r == trunc_div(a + b, 2),
{
    let s: i128 = a as i128 + b as i128;
    let m: i128 = div_toward_zero(s, 2);
    proof {
        lemma_trunc_div_bound(s as int, 2);
    }
    m as i64
}

/// Moving a rectangle and then moving it back by the opposite offsets gives
/// the rectangle that one started with.
pub proof fn lemma_translate_round_trip(r: Rect, dx: i64, dy: i64)
    requires
        can_shift(r, dx as int, dy as int),
    ensures
        can_shift(shifted(r, dx as int, dy as int), -dx, -dy),
        shifted(shifted(r, dx as int, dy as int), -dx, -dy) == r,
{
}

} // verus!
