//! A paddle that follows the player's pointer along the bottom of a
//! 100 unit wide play area.
use vstd::prelude::*;

use crate::fixed::{abs, div_toward_zero, lemma_trunc_div_bound, trunc_div};
use crate::rect::{shifted, Rect};

verus! {

// Size of the play area.
pub const PADDLE_MIN_X: i64 = 0;
pub const PADDLE_MAX_X: i64 = 100_000;

// Parameters for movement: a step longer than the threshold is scaled by
// `MOVE_SCALE` thousandths.
pub const MOVE_THRESHOLD: i64 = 2000;
pub const MOVE_SCALE: i64 = 700;

// Paddle size.
pub const PADDLE_BOTTOM: i64 = 4000;
pub const PADDLE_WIDTH: i64 = 8000;
pub const PADDLE_HEIGHT: i64 = 3000;

pub struct Paddle {
    pub rect: Rect,
    pub rebounding: bool,
}

/// The paddle spans exactly `PADDLE_WIDTH` and lies within the play area.
pub open spec fn paddle_ok(r: Rect) -> bool {
    &&& r.right - r.left == PADDLE_WIDTH
    &&& PADDLE_MIN_X <= r.left
    &&& r.right <= PADDLE_MAX_X
    &&& r.bottom == PADDLE_BOTTOM
    &&& r.top == PADDLE_BOTTOM + PADDLE_HEIGHT
}

/// The horizontal step toward `x`: to the gap beyond the nearer edge, none
/// when `x` lies between the edges; a step longer than `MOVE_THRESHOLD` is
/// shortened to `MOVE_SCALE` thousandths of itself.
pub open spec fn step_toward(r: Rect, x: int) -> int {
    let gap = if x > r.right {
        x - r.right
    } else if x < r.left {
        x - r.left
    } else {
        0
    };
    if abs(gap) > MOVE_THRESHOLD {
        trunc_div(gap * MOVE_SCALE, 1000)
    } else {
        gap
    }
}

/// `r` moved the least distance that brings it within the play area.
pub open spec fn kept_in(r: Rect) -> Rect {
    if r.left < PADDLE_MIN_X {
        shifted(r, PADDLE_MIN_X - r.left, 0)
    } else if r.right > PADDLE_MAX_X {
        shifted(r, PADDLE_MAX_X - r.right, 0)
    } else {
        r
    }
}

impl Default for Paddle {
    /// A paddle centred at the bottom of the play area.
    fn default() -> (p: Paddle)
        ensures
            p.rect == (Rect { left: 46_000, right: 54_000, top: 7000, bottom: 4000 }),
            !p.rebounding,
            paddle_ok(p.rect),
    {
        let cntr: i64 = (PADDLE_MAX_X - PADDLE_MIN_X) / 2;
        Paddle {
            rect: Rect {
                left: cntr - PADDLE_WIDTH / 2,
                right: cntr + PADDLE_WIDTH / 2,
                bottom: PADDLE_BOTTOM,
                top: PADDLE_BOTTOM + PADDLE_HEIGHT,
            },
            rebounding: false,
        }
    }
}

impl Paddle {
    /// Moves the paddle back within the play area, by the least distance.
    pub fn stay_in_bounds(&mut self)
        requires
            old(self).rect.right - old(self).rect.left == PADDLE_WIDTH,
            abs(old(self).rect.left as int) <= 0x1000_0000_0000_0000,
        ensures
            final(self).rect == kept_in(old(self).rect),
            final(self).rebounding == old(self).rebounding,
            PADDLE_MIN_X <= final(self).rect.left,
            final(self).rect.right <= PADDLE_MAX_X,
    {
        if self.rect.left < PADDLE_MIN_X {
            let dx = PADDLE_MIN_X - self.rect.left;
            self.rect.translate(dx, 0);
        } else if self.rect.right > PADDLE_MAX_X {
            let dx = PADDLE_MAX_X - self.rect.right;
            self.rect.translate(dx, 0);
        }
    }

    /// Moves the paddle a step toward the pointer at `x`, then back within
    /// the play area.
    pub fn move_towards(&mut self, x: &i64)
        requires
            paddle_ok(old(self).rect),
            abs(*x as int) <= 0x0800_0000_0000_0000,
        ensures
            final(self).rect == kept_in(
                shifted(old(self).rect, step_toward(old(self).rect, *x as int), 0),
            ),
            paddle_ok(final(self).rect),
    {
        let mut dx: i64 = if *x > self.rect.right {
            *x - self.rect.right
        } else if *x < self.rect.left {
            *x - self.rect.left
        } else {
            0
        };
        if dx > MOVE_THRESHOLD || dx < -MOVE_THRESHOLD {
            assert(-0x1000_0000_0000_0000 * 1000 <= dx * 700 <= 0x1000_0000_0000_0000 * 1000) by (nonlinear_arith)
                requires
                    -0x1000_0000_0000_0000 <= dx <= 0x1000_0000_0000_0000,
            ;
            let p: i128 = (dx as i128) * (MOVE_SCALE as i128);
            let q: i128 = div_toward_zero(p, 1000);
            proof {
                lemma_trunc_div_bound(p as int, 1000);
                assert(abs(q as int) <= 0x1000_0000_0000_0000) by (nonlinear_arith)
                    requires
                        abs(q as int) * 1000 <= abs(p as int),
                        abs(p as int) <= 0x1000_0000_0000_0000 * 1000,
                ;
            }
            dx = q as i64;
        }
        self.rect.translate(dx, 0);
        self.stay_in_bounds();
    }
}

} // verus!
