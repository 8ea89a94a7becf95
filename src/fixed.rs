//! Fixed-point arithmetic shared by the geometry and physics modules.
//!
//! Lengths are counted in thousandths of an arena unit, speeds in thousandths
//! of a unit per second, times in microseconds, and angles in milliradians.
use vstd::prelude::*;

verus! {

/// Thousandths in one arena unit (also the scale of per-mille factors).
pub const MILLI: i64 = 1000;

/// Microseconds in one second.
pub const MICROS_PER_SECOND: i64 = 1_000_000;

/// The scale of the fixed-point sine and cosine (one millionth).
pub const TRIG_ONE: i64 = 1_000_000;

/// A quarter turn, rounded to whole milliradians.
pub const QUARTER_TURN: i64 = 1571;

/// Integer division that rounds toward zero, as Rust's `/` does.
pub open spec fn trunc_div(a: int, d: int) -> int {
    if a >= 0 {
        a / d
    } else {
        -((-a) / d)
    }
}

pub open spec fn abs(a: int) -> int {
    if a >= 0 {
        a
    } else {
        -a
    }
}

pub open spec fn fits_i64(a: int) -> bool {
    i64::MIN <= a <= i64::MAX
}

/// `r` is the integer square root of `n`, rounded down.
pub open spec fn is_floor_sqrt(r: int, n: int) -> bool {
    0 <= r && r * r <= n < (r + 1) * (r + 1)
}

pub proof fn lemma_trunc_div_bound(a: int, d: int)
    requires
        d > 0,
    ensures
        abs(trunc_div(a, d)) <= abs(a),
        abs(trunc_div(a, d)) * d <= abs(a),
{
    if a >= 0 {
        assert(a / d * d <= a) by (nonlinear_arith)
            requires
                a >= 0,
                d > 0,
        ;
        assert(a / d <= a) by (nonlinear_arith)
            requires
                a >= 0,
                d > 0,
        ;
    } else {
        assert((-a) / d * d <= -a) by (nonlinear_arith)
            requires
                -a >= 0,
                d > 0,
        ;
        assert((-a) / d <= -a) by (nonlinear_arith)
            requires
                -a >= 0,
                d > 0,
        ;
    }
}

/// Division by a positive divisor, rounding toward zero.
pub fn div_toward_zero(a: i128, d: i128) -> (r: i128)
    requires
        d > 0,
        a > i128::MIN,
    ensures
        r == trunc_div(a as int, d as int),
{
    if a >= 0 {
        a / d
    } else {
        let n: i128 = -a;
        -(n / d)
    }
}

/// The integer square root of `n`, rounded down.
pub open spec fn root(n: int) -> int {
    choose|r: int| is_floor_sqrt(r, n)
}

pub proof fn lemma_floor_sqrt_unique(a: int, b: int, n: int)
    requires
        is_floor_sqrt(a, n),
        is_floor_sqrt(b, n),
    ensures
        a == b,
{
    if a < b {
        assert((a + 1) * (a + 1) <= b * b) by (nonlinear_arith)
            requires
                0 <= a < b,
        ;
    } else if b < a {
        assert((b + 1) * (b + 1) <= a * a) by (nonlinear_arith)
            requires
                0 <= b < a,
        ;
    }
}

/// Integer square root, rounded down.
pub fn floor_sqrt(n: u128) -> (r: u64)
    ensures
        is_floor_sqrt(r as int, n as int),
        r == root(n as int),
{
    let mut lo: u128 = 0;
    let mut hi: u128 = 0x1_0000_0000_0000_0000;
    assert(hi * hi > n) by (nonlinear_arith)
        requires
            hi == 0x1_0000_0000_0000_0000u128,
            n <= u128::MAX,
    ;
    while hi - lo > 1
        invariant
            lo < hi <= 0x1_0000_0000_0000_0000u128,
            lo * lo <= n,
            n < hi * hi,
        decreases hi - lo,
    {
        let mid: u128 = lo + (hi - lo) / 2;
        assert(mid * mid <= 0xffff_ffff_ffff_ffffu128 * 0xffff_ffff_ffff_ffffu128) by (nonlinear_arith)
            requires
                mid < 0x1_0000_0000_0000_0000u128,
        ;
        if mid * mid <= n {
            lo = mid;
        } else {
            hi = mid;
        }
    }
    assert(hi == lo + 1);
    proof {
        assert(is_floor_sqrt(lo as int, n as int));
        lemma_floor_sqrt_unique(lo as int, root(n as int), n as int);
    }
    lo as u64
}


/// The sine series up to the ninth power, for `r` milliradians, in millionths.
pub open spec fn sin_series(r: int) -> int {
    r * 1000 - r * r * r / 6000 + r * r * r * r * r / 120_000_000_000 - r * r * r * r * r * r
        * r / 5_040_000_000_000_000_000 + r * r * r * r * r * r * r * r * r
        / 362_880_000_000_000_000_000_000_000
}

/// The cosine series up to the tenth power, for `r` milliradians, in millionths.
pub open spec fn cos_series(r: int) -> int {
    1_000_000 - r * r / 2 + r * r * r * r / 24_000_000 - r * r * r * r * r * r
        / 720_000_000_000_000 + r * r * r * r * r * r * r * r / 40_320_000_000_000_000_000_000
        - r * r * r * r * r * r * r * r * r * r / 3_628_800_000_000_000_000_000_000_000_000
}

/// Holds a value within `[0, TRIG_ONE]`.
pub open spec fn clamp_unit(v: int) -> int {
    if v < 0 {
        0
    } else if v > TRIG_ONE {
        TRIG_ONE as int
    } else {
        v
    }
}

/// Fixed-point sine of an angle within the first quadrant.
pub open spec fn sin_of(r: int) -> int {
    clamp_unit(sin_series(r))
}

/// Fixed-point cosine of an angle within the first quadrant.
pub open spec fn cos_of(r: int) -> int {
    clamp_unit(cos_series(r))
}

fn clamp_unit_exec(v: i128) -> (r: i64)
    ensures
        r == clamp_unit(v as int),
{
    if v < 0 {
        0
    } else if v > TRIG_ONE as i128 {
        TRIG_ONE
    } else {
        v as i64
    }
}

/// Fixed-point cosine and sine of `r` milliradians, for `r` within the first
/// quadrant.
pub fn cos_sin(r: i64) -> (cs: (i64, i64))
    requires
        0 <= r <= QUARTER_TURN,
    ensures
        cs.0 == cos_of(r as int),
        cs.1 == sin_of(r as int),
        0 <= cs.0 <= TRIG_ONE,
        0 <= cs.1 <= TRIG_ONE,
{
    let pow1: i128 = r as i128;
    assert(0 <= pow1 * pow1 <= 2468041) by (nonlinear_arith)
        requires
            0 <= pow1 <= 1571,
    ;
    let pow2: i128 = pow1 * pow1;
    assert(0 <= pow2 * pow1 <= 3877292411) by (nonlinear_arith)
        requires
            0 <= pow2 <= 2468041,
            0 <= pow1 <= 1571,
    ;
    let pow3: i128 = pow2 * pow1;
    assert(0 <= pow3 * pow1 <= 6091226377681) by (nonlinear_arith)
        requires
            0 <= pow3 <= 3877292411,
            0 <= pow1 <= 1571,
    ;
    let pow4: i128 = pow3 * pow1;
    assert(0 <= pow4 * pow1 <= 9569316639336851) by (nonlinear_arith)
        requires
            0 <= pow4 <= 6091226377681,
            0 <= pow1 <= 1571,
    ;
    let pow5: i128 = pow4 * pow1;
    assert(0 <= pow5 * pow1 <= 15033396440398192921) by (nonlinear_arith)
        requires
            0 <= pow5 <= 9569316639336851,
            0 <= pow1 <= 1571,
    ;
    let pow6: i128 = pow5 * pow1;
    assert(0 <= pow6 * pow1 <= 23617465807865561078891) by (nonlinear_arith)
        requires
            0 <= pow6 <= 15033396440398192921,
            0 <= pow1 <= 1571,
    ;
    let pow7: i128 = pow6 * pow1;
    assert(0 <= pow7 * pow1 <= 37103038784156796454937761) by (nonlinear_arith)
        requires
            0 <= pow7 <= 23617465807865561078891,
            0 <= pow1 <= 1571,
    ;
    let pow8: i128 = pow7 * pow1;
    assert(0 <= pow8 * pow1 <= 58288873929910327230707222531) by (nonlinear_arith)
        requires
            0 <= pow8 <= 37103038784156796454937761,
            0 <= pow1 <= 1571,
    ;
    let pow9: i128 = pow8 * pow1;
    assert(0 <= pow9 * pow1 <= 91571820943889124079441046596201) by (nonlinear_arith)
        requires
            0 <= pow9 <= 58288873929910327230707222531,
            0 <= pow1 <= 1571,
    ;
    let pow10: i128 = pow9 * pow1;
    let sin: i128 = pow1 * 1000 - pow3 / 6000 + pow5 / 120_000_000_000 - pow7 / 5_040_000_000_000_000_000
        + pow9 / 362_880_000_000_000_000_000_000_000;
    let cos: i128 = 1_000_000 - pow2 / 2 + pow4 / 24_000_000 - pow6 / 720_000_000_000_000 + pow8
        / 40_320_000_000_000_000_000_000 - pow10 / 3_628_800_000_000_000_000_000_000_000_000;
    (clamp_unit_exec(cos), clamp_unit_exec(sin))
}

/// Every non-negative integer has a rounded-down square root.
pub proof fn lemma_root(n: int)
    requires
        n >= 0,
    ensures
        is_floor_sqrt(root(n), n),
    decreases n,
{
    if n == 0 {
        assert(is_floor_sqrt(0, 0));
    } else {
        lemma_root(n - 1);
        let r = root(n - 1);
        if (r + 1) * (r + 1) <= n {
            assert((r + 1) * (r + 1) == n);
            assert(n < (r + 2) * (r + 2)) by (nonlinear_arith)
                requires
                    (r + 1) * (r + 1) == n,
                    r >= 0,
            ;
            assert(is_floor_sqrt(r + 1, n));
        } else {
            assert(is_floor_sqrt(r, n));
        }
    }
}

} // verus!
