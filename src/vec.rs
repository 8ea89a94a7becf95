//! Points and directions in the plane, in fixed point.
use vstd::prelude::*;
use vstd::arithmetic::div_mod::{lemma_fundamental_div_mod, lemma_fundamental_div_mod_converse};

use crate::fixed::{
    abs, cos_of, cos_sin, lemma_root, div_toward_zero, fits_i64, floor_sqrt, is_floor_sqrt, lemma_trunc_div_bound,
    root, sin_of, trunc_div, MILLI, QUARTER_TURN, TRIG_ONE,
};

verus! {

/// Components that `rotate` accepts stay strictly within this bound.
pub const ROTATE_LIMIT: i64 = 0x4000_0000_0000_0000;

/// Components that `normalise` accepts stay within this bound.
pub const NORMALISE_LIMIT: i64 = 0x20_0000_0000_0000;

/// A point or direction, each component in thousandths of an arena unit.
#[derive(Clone, Copy, Debug, PartialEq, Eq, Structural)]
pub struct Vec2 {
    pub x: i64,
    pub y: i64,
}

/// The squared length of `v`.
pub open spec fn norm_sq(v: Vec2) -> int {
    v.x * v.x + v.y * v.y
}

pub open spec fn within(v: Vec2, bound: int) -> bool {
    abs(v.x as int) < bound && abs(v.y as int) < bound
}

/// `v` turned by `q` quarter turns counterclockwise, for `0 <= q < 4`.
pub open spec fn quarter_turned(v: Vec2, q: int) -> Vec2 {
    if q == 0 {
        v
    } else if q == 1 {
        Vec2 { x: (-v.y) as i64, y: v.x }
    } else if q == 2 {
        Vec2 { x: (-v.x) as i64, y: (-v.y) as i64 }
    } else {
        Vec2 { x: v.y, y: (-v.x) as i64 }
    }
}

/// `v` turned counterclockwise by `r` milliradians within the first quadrant.
pub open spec fn small_turned(v: Vec2, r: int) -> Vec2 {
    Vec2 {
        x: trunc_div(v.x * cos_of(r) - v.y * sin_of(r), TRIG_ONE as int) as i64,
        y: trunc_div(v.x * sin_of(r) + v.y * cos_of(r), TRIG_ONE as int) as i64,
    }
}

/// `v` turned counterclockwise by `rads` milliradians: whole quarter turns
/// exactly, the rest through the fixed-point sine and cosine.
pub open spec fn rotated(v: Vec2, rads: int) -> Vec2 {
    small_turned(
        quarter_turned(v, (rads / QUARTER_TURN as int) % 4),
        rads % QUARTER_TURN as int,
    )
}

/// `a` scaled by `factor` thousandths, rounded toward zero.
pub open spec fn scale_part(a: int, factor: int) -> int {
    trunc_div(a * factor, MILLI as int)
}

pub open spec fn scaled_by(v: Vec2, factor: int) -> Vec2 {
    Vec2 { x: scale_part(v.x as int, factor) as i64, y: scale_part(v.y as int, factor) as i64 }
}

pub open spec fn can_scale(v: Vec2, factor: int) -> bool {
    fits_i64(scale_part(v.x as int, factor)) && fits_i64(scale_part(v.y as int, factor))
}

/// A component of the unit vector along a direction whose squared length is
/// `n`: its magnitude is the rounded-down root of `a * a * MILLI * MILLI / n`,
/// and it keeps the sign of `a`.
pub open spec fn unit_part(a: int, n: int) -> int {
    let u = root(a * a * (MILLI * MILLI) / n);
    if a >= 0 {
        u
    } else {
        -u
    }
}

/// `v` scaled to a length of one unit (`MILLI`), or the zero vector where `v`
/// is zero.
pub open spec fn unit_of(v: Vec2) -> Vec2 {
    if norm_sq(v) == 0 {
        v
    } else {
        Vec2 {
            x: unit_part(v.x as int, norm_sq(v)) as i64,
            y: unit_part(v.y as int, norm_sq(v)) as i64,
        }
    }
}

impl Vec2 {
    pub fn new(x: i64, y: i64) -> (r: Vec2)
        ensures
            r.x == x,
            r.y == y,
    {
        Vec2 { x, y }
    }

    /// The length of the vector, rounded down.
    pub fn magnitude(self) -> (r: u64)
        ensures
            is_floor_sqrt(r as int, norm_sq(self)),
    {
        let x: i128 = self.x as i128;
        let y: i128 = self.y as i128;
        assert(0 <= x * x <= 0x4000_0000_0000_0000_0000_0000_0000_0000) by (nonlinear_arith)
            requires
                -0x8000_0000_0000_0000 <= x <= 0x8000_0000_0000_0000,
        ;
        assert(0 <= y * y <= 0x4000_0000_0000_0000_0000_0000_0000_0000) by (nonlinear_arith)
            requires
                -0x8000_0000_0000_0000 <= y <= 0x8000_0000_0000_0000,
        ;
        let xx: u128 = (x * x) as u128;
        let yy: u128 = (y * y) as u128;
        floor_sqrt(xx + yy)
    }

    /// Scales both components by `factor` thousandths, rounding toward zero.
    pub fn scale(&mut self, factor: i64)
        requires
            can_scale(*old(self), factor as int),
        ensures
            *final(self) == scaled_by(*old(self), factor as int),
    {
        self.x = scale_component(self.x, factor);
        self.y = scale_component(self.y, factor);
    }

    /// A copy of the vector scaled by `factor` thousandths.
    pub fn scaled(self, factor: i64) -> (r: Vec2)
        requires
            can_scale(self, factor as int),
        ensures
            r == scaled_by(self, factor as int),
    {
        let mut newvec = self;
        newvec.scale(factor);
        newvec
    }

    pub fn add(self, other: Vec2) -> (r: Vec2)
        requires
            fits_i64(self.x + other.x),
            fits_i64(self.y + other.y),
        ensures
            r.x == self.x + other.x,
            r.y == self.y + other.y,
    {
        Vec2::new(self.x + other.x, self.y + other.y)
    }

    pub fn add_assign(&mut self, other: Vec2)
        requires
            fits_i64(old(self).x + other.x),
            fits_i64(old(self).y + other.y),
        ensures
            final(self).x == old(self).x + other.x,
            final(self).y == old(self).y + other.y,
    {
        self.x = self.x + other.x;
        self.y = self.y + other.y;
    }

    pub fn sub(self, other: Vec2) -> (r: Vec2)
        requires
            fits_i64(self.x - other.x),
            fits_i64(self.y - other.y),
        ensures
            r.x == self.x - other.x,
            r.y == self.y - other.y,
    {
        Vec2::new(self.x - other.x, self.y - other.y)
    }

    pub fn sub_assign(&mut self, other: Vec2)
        requires
            fits_i64(old(self).x - other.x),
            fits_i64(old(self).y - other.y),
        ensures
            final(self).x == old(self).x - other.x,
            final(self).y == old(self).y - other.y,
    {
        self.x = self.x - other.x;
        self.y = self.y - other.y;
    }
}

fn scale_component(a: i64, factor: i64) -> (r: i64)
    requires
        fits_i64(scale_part(a as int, factor as int)),
    ensures
        r == scale_part(a as int, factor as int),
{
    let p: i128 = (a as i128) * (factor as i128);
    assert(p > i128::MIN) by (nonlinear_arith)
        requires
            p == (a as i128) * (factor as i128),
            i64::MIN <= a <= i64::MAX,
            i64::MIN <= factor <= i64::MAX,
    ;
    div_toward_zero(p, MILLI as i128) as i64
}


/// Shifts an angle to a non-negative one with the same quarter turns modulo
/// four and the same remainder.
const TURN_SHIFT: i128 = 9_426_000_000_000_000_000;

/// `a * c + b * s`, divided by `TRIG_ONE` toward zero, for factors within
/// `[-TRIG_ONE, TRIG_ONE]`.
fn mix(a: i64, c: i64, b: i64, s: i64) -> (r: i64)
    requires
        abs(a as int) < ROTATE_LIMIT,
        abs(b as int) < ROTATE_LIMIT,
        abs(c as int) <= TRIG_ONE,
        abs(s as int) <= TRIG_ONE,
    ensures
        r == trunc_div(a * c + b * s, TRIG_ONE as int),
        abs(r as int) <= abs(a as int) + abs(b as int),
{
    let a1: i128 = a as i128;
    let b1: i128 = b as i128;
    let c1: i128 = c as i128;
    let s1: i128 = s as i128;
    assert(abs(a1 * c1) <= abs(a1 as int) * 1_000_000) by (nonlinear_arith)
        requires
            abs(c1 as int) <= 1_000_000,
    ;
    assert(abs(b1 * s1) <= abs(b1 as int) * 1_000_000) by (nonlinear_arith)
        requires
            abs(s1 as int) <= 1_000_000,
    ;
    let sum: i128 = a1 * c1 + b1 * s1;
    let q: i128 = div_toward_zero(sum, TRIG_ONE as i128);
    proof {
        lemma_trunc_div_bound(sum as int, 1_000_000);
        let m = abs(a as int) + abs(b as int);
        assert(abs(q as int) <= m) by (nonlinear_arith)
            requires
                abs(q as int) * 1_000_000 <= abs(sum as int),
                abs(sum as int) <= m * 1_000_000,
        ;
    }
    q as i64
}

impl Vec2 {
    /// Turns the vector counterclockwise by `rads` milliradians.
    pub fn rotate(&mut self, rads: i64)
        requires
            within(*old(self), ROTATE_LIMIT as int),
        ensures
            *final(self) == rotated(*old(self), rads as int),
            abs(final(self).x as int) <= abs(old(self).x as int) + abs(old(self).y as int),
            abs(final(self).y as int) <= abs(old(self).x as int) + abs(old(self).y as int),
    {
        let shifted: i128 = rads as i128 + TURN_SHIFT;
        let q: i128 = shifted / (QUARTER_TURN as i128);
        let r: i128 = shifted % (QUARTER_TURN as i128);
        let turns: i128 = q % 4;
        proof {
            let qq = QUARTER_TURN as int;
            lemma_fundamental_div_mod(shifted as int, qq);
            lemma_fundamental_div_mod_converse(rads as int, qq, q - 6_000_000_000_000_000, r as int);
            lemma_fundamental_div_mod(q as int, 4);
            lemma_fundamental_div_mod_converse(
                q - 6_000_000_000_000_000,
                4,
                q / 4 - 1_500_000_000_000_000,
                turns as int,
            );
        }
        let old_v: Vec2 = *self;
        let v: Vec2 = if turns == 0 {
            old_v
        } else if turns == 1 {
            Vec2 { x: -old_v.y, y: old_v.x }
        } else if turns == 2 {
            Vec2 { x: -old_v.x, y: -old_v.y }
        } else {
            Vec2 { x: old_v.y, y: -old_v.x }
        };
        let (c, s) = cos_sin(r as i64);
        self.x = mix(v.x, c, v.y, -s);
        self.y = mix(v.x, s, v.y, c);
        assert(r == (rads as int) % (QUARTER_TURN as int));
        assert(turns == ((rads as int) / (QUARTER_TURN as int)) % 4);
        assert(v == quarter_turned(old_v, turns as int));
        assert(v.y * (-s) == -(v.y * s)) by (nonlinear_arith);
    }
}


/// One component of the unit vector: `a` scaled to `MILLI` over the length
/// whose square is `n`.
fn unit_component(a: i64, n: u128) -> (r: i64)
    requires
        abs(a as int) < NORMALISE_LIMIT,
        a * a <= n,
        0 < n <= 0x800000000000000000000000000,
    ensures
        r == unit_part(a as int, n as int),
        abs(r as int) <= MILLI,
{
    let a1: i128 = a as i128;
    assert(0 <= a1 * a1 <= 0x400000000000000000000000000) by (nonlinear_arith)
        requires
            -0x20_0000_0000_0000 < a1 < 0x20_0000_0000_0000,
    ;
    let aa: u128 = (a1 * a1) as u128;
    let q: u128 = aa * 1_000_000 / n;
    assert(q <= 1_000_000) by (nonlinear_arith)
        requires
            q == (aa as int) * 1_000_000 / (n as int),
            aa <= n,
            n > 0,
    ;
    let u: u64 = floor_sqrt(q);
    assert(u <= 1000) by (nonlinear_arith)
        requires
            u * u <= q,
            q <= 1_000_000,
            u >= 0,
    ;
    if a >= 0 {
        u as i64
    } else {
        -(u as i64)
    }
}

impl Vec2 {
    /// Scales the vector to a length of one unit (`MILLI`). The zero vector,
    /// which has no direction, is left as it is.
    pub fn normalise(&mut self)
        requires
            within(*old(self), NORMALISE_LIMIT as int),
        ensures
            *final(self) == unit_of(*old(self)),
            abs(final(self).x as int) <= MILLI,
            abs(final(self).y as int) <= MILLI,
    {
        *self = self.normalised();
    }

    /// A copy of the vector scaled to a length of one unit (`MILLI`), or the
    /// zero vector where the vector is zero.
    pub fn normalised(self) -> (r: Vec2)
        requires
            within(self, NORMALISE_LIMIT as int),
        ensures
            r == unit_of(self),
            abs(r.x as int) <= MILLI,
            abs(r.y as int) <= MILLI,
    {
        let x: i128 = self.x as i128;
        let y: i128 = self.y as i128;
        assert(0 <= x * x <= 0x400000000000000000000000000) by (nonlinear_arith)
            requires
                -0x20_0000_0000_0000 < x < 0x20_0000_0000_0000,
        ;
        assert(0 <= y * y <= 0x400000000000000000000000000) by (nonlinear_arith)
            requires
                -0x20_0000_0000_0000 < y < 0x20_0000_0000_0000,
        ;
        let n: u128 = (x * x) as u128 + (y * y) as u128;
        if n == 0 {
            assert(self.x == 0 && self.y == 0) by (nonlinear_arith)
                requires
                    x * x + y * y == 0,
                    x == self.x,
                    y == self.y,
            ;
            return self;
        }
        Vec2 { x: unit_component(self.x, n), y: unit_component(self.y, n) }
    }
}

/// A non-zero vector, normalised, is one unit long (`MILLI`) to within three
/// thousandths, the rounding of the fixed point.
pub proof fn lemma_unit_length(v: Vec2)
    requires
        within(v, NORMALISE_LIMIT as int),
        norm_sq(v) > 0,
    ensures
        997 <= root(norm_sq(unit_of(v))) <= 1000,
{
    let n = norm_sq(v);
    let a = v.x * v.x * 1_000_000;
    let b = v.y * v.y * 1_000_000;
    assert(v.x * v.x >= 0 && v.y * v.y >= 0) by (nonlinear_arith);
    assert(a >= 0 && b >= 0) by (nonlinear_arith)
        requires
            a == v.x * v.x * 1_000_000,
            b == v.y * v.y * 1_000_000,
            v.x * v.x >= 0,
            v.y * v.y >= 0,
    ;
    assert(a + b == n * 1_000_000);
    let qa = a / n;
    let qb = b / n;
    lemma_fundamental_div_mod(a, n);
    lemma_fundamental_div_mod(b, n);
    let ra = a % n;
    let rb = b % n;
    assert(n * (qa + qb) + ra + rb == n * 1_000_000) by (nonlinear_arith)
        requires
            a == n * qa + ra,
            b == n * qb + rb,
            a + b == n * 1_000_000,
    ;
    assert(999_999 <= qa + qb <= 1_000_000) by (nonlinear_arith)
        requires
            n * (qa + qb) + ra + rb == n * 1_000_000,
            0 <= ra < n,
            0 <= rb < n,
            n > 0,
    ;
    assert(qa >= 0 && qb >= 0) by (nonlinear_arith)
        requires
            a == n * qa + ra,
            b == n * qb + rb,
            a >= 0,
            b >= 0,
            0 <= ra < n,
            0 <= rb < n,
            n > 0,
    ;
    lemma_root(qa);
    lemma_root(qb);
    let ux = root(qa);
    let uy = root(qb);
    assert(ux <= 1000 && uy <= 1000) by (nonlinear_arith)
        requires
            ux * ux <= qa,
            uy * uy <= qb,
            qa + qb <= 1_000_000,
            qa >= 0,
            qb >= 0,
            ux >= 0,
            uy >= 0,
    ;
    let u = unit_of(v);
    assert(u.x * u.x == ux * ux) by (nonlinear_arith)
        requires
            u.x == ux || u.x == -ux,
    ;
    assert(u.y * u.y == uy * uy) by (nonlinear_arith)
        requires
            u.y == uy || u.y == -uy,
    ;
    let m = norm_sq(u);
    assert(995_999 <= m <= 1_000_000) by (nonlinear_arith)
        requires
            m == ux * ux + uy * uy,
            ux * ux <= qa < (ux + 1) * (ux + 1),
            uy * uy <= qb < (uy + 1) * (uy + 1),
            999_999 <= qa + qb <= 1_000_000,
            0 <= ux <= 1000,
            0 <= uy <= 1000,
    ;
    lemma_root(m);
    let r = root(m);
    assert(997 <= r <= 1000) by (nonlinear_arith)
        requires
            r >= 0,
            r * r <= m < (r + 1) * (r + 1),
            995_999 <= m <= 1_000_000,
    ;
}

/// No rounding at the zero angle: turning by zero milliradians within the
/// first quadrant leaves a vector as it is.
proof fn lemma_small_turn_zero(u: Vec2)
    ensures
        small_turned(u, 0) == u,
{
    assert(cos_of(0) == TRIG_ONE);
    assert(sin_of(0) == 0);
    let d = TRIG_ONE as int;
    assert(u.x * d - u.y * 0 == u.x * d) by (nonlinear_arith);
    assert(u.x * 0 + u.y * d == u.y * d) by (nonlinear_arith);
    if u.x >= 0 {
        lemma_fundamental_div_mod_converse(u.x * d, d, u.x as int, 0);
    } else {
        lemma_fundamental_div_mod_converse(-(u.x * d), d, -u.x, 0);
    }
    if u.y >= 0 {
        lemma_fundamental_div_mod_converse(u.y * d, d, u.y as int, 0);
    } else {
        lemma_fundamental_div_mod_converse(-(u.y * d), d, -u.y, 0);
    }
}

/// Whole quarter turns are exact: turning by `k` quarter turns moves the
/// components without rounding and keeps the length, and turning back by
/// `-k` quarter turns gives the vector one started with.
pub proof fn lemma_quarter_turns_exact(v: Vec2, k: int)
    requires
        within(v, ROTATE_LIMIT as int),
    ensures
        rotated(v, k * QUARTER_TURN) == quarter_turned(v, k % 4),
        norm_sq(rotated(v, k * QUARTER_TURN)) == norm_sq(v),
        rotated(rotated(v, k * QUARTER_TURN), -k * QUARTER_TURN) == v,
{
    let q = QUARTER_TURN as int;
    lemma_fundamental_div_mod_converse(k * q, q, k, 0);
    lemma_fundamental_div_mod_converse((-k) * q, q, -k, 0);
    assert(-k * q == (-k) * q) by (nonlinear_arith);
    let t = k % 4;
    let back = (-k) % 4;
    lemma_fundamental_div_mod(k, 4);
    lemma_fundamental_div_mod(-k, 4);
    assert((t + back) % 4 == 0) by {
        lemma_fundamental_div_mod_converse(t + back, 4, -(k / 4) - (-k) / 4, 0);
    }
    let u = quarter_turned(v, t);
    lemma_small_turn_zero(u);
    assert(within(u, ROTATE_LIMIT as int));
    let w = quarter_turned(u, back);
    lemma_small_turn_zero(w);
    assert(w == v);
    assert(norm_sq(u) == norm_sq(v)) by (nonlinear_arith)
        requires
            (u.x == v.x && u.y == v.y) || (u.x == -v.y && u.y == v.x) || (u.x == -v.x && u.y == -v.y)
                || (u.x == v.y && u.y == -v.x),
    ;
}

} // verus!
