//! Fixed-point numbers used by the engine: binary angles, an integer sine
//! and cosine, integer square roots and shade factors.

use vstd::prelude::*;

verus! {

/// Fixed-point scale of sine and cosine values: `ONE` stands for 1.0.
pub const ONE: i64 = 16384;

/// Binary angle units in a full turn.
pub const TURN: u64 = 65536;

/// Binary angle units in a half turn.
pub const HALF_TURN: u64 = 32768;

/// Binary angle units in a quarter turn.
pub const QUARTER_TURN: u64 = 16384;

/// Sub-units in one world unit: world positions and distances are held in
/// tenths of a world unit.
pub const SUB: i64 = 10;

/// Shade factors are per mille: `SHADE_FULL` leaves a color as it is.
pub const SHADE_FULL: u64 = 1000;

/// The sine of a binary angle `t` in `[0, HALF_TURN]`, after Bhaskara's
/// rational approximation, scaled by `ONE`.
pub open spec fn half_sine(t: int) -> int {
    let p = t * (HALF_TURN - t);
    (ONE * 16 * p) / (5 * HALF_TURN * HALF_TURN - 4 * p)
}

/// The sine of a binary angle in `[0, TURN)`, scaled by `ONE`.
pub open spec fn sine(a: int) -> int {
    if a < HALF_TURN {
        half_sine(a)
    } else {
        -half_sine(a - HALF_TURN)
    }
}

/// The cosine of a binary angle in `[0, TURN)`, scaled by `ONE`.
pub open spec fn cosine(a: int) -> int {
    sine((a + QUARTER_TURN) % (TURN as int))
}

/// The angle `a - b`, wrapped into `[0, TURN)`.
pub open spec fn angle_sub(a: int, b: int) -> int {
    (a - b) % (TURN as int)
}

/// Over a half turn the sine lies in `[0, ONE]`.
pub proof fn lemma_half_sine_bounds(t: int)
    requires
        0 <= t <= HALF_TURN,
    ensures
        0 <= half_sine(t) <= ONE,
{
    let h = HALF_TURN as int;
    let p = t * (h - t);
    assert(0 <= p) by (nonlinear_arith)
        requires
            0 <= t <= h,
            p == t * (h - t),
    ;
    assert(4 * p <= h * h) by (nonlinear_arith)
        requires
            p == t * (h - t),
    ;
    let den = 5 * h * h - 4 * p;
    assert(h * h == 1073741824);
    assert(den > 0);
    assert(16 * p <= den);
    let num = ONE * 16 * p;
    assert(num <= ONE * den) by (nonlinear_arith)
        requires
            num == ONE * 16 * p,
            16 * p <= den,
            ONE > 0,
    ;
    assert(0 <= num) by (nonlinear_arith)
        requires
            num == ONE * 16 * p,
            0 <= p,
    ;
    assert(num / den <= ONE) by (nonlinear_arith)
        requires
            num <= ONE * den,
            den > 0,
            0 <= num,
    ;
    assert(0 <= num / den) by (nonlinear_arith)
        requires
            den > 0,
            0 <= num,
    ;
}

/// The sine and cosine lie in `[-ONE, ONE]`.
pub proof fn lemma_sine_bounds(a: int)
    requires
        0 <= a < TURN,
    ensures
        -ONE <= sine(a) <= ONE,
        -ONE <= cosine(a) <= ONE,
{
    if a < HALF_TURN {
        lemma_half_sine_bounds(a);
    } else {
        lemma_half_sine_bounds(a - HALF_TURN);
    }
    let c = (a + QUARTER_TURN) % (TURN as int);
    if c < HALF_TURN {
        lemma_half_sine_bounds(c);
    } else {
        lemma_half_sine_bounds(c - HALF_TURN);
    }
}

/// The cosine of the zero angle is exactly `ONE`.
pub proof fn lemma_cosine_zero()
    ensures
        cosine(0) == ONE,
{
    let p: int = 16384 * (32768 - 16384);
    assert(p == 268435456);
    assert(ONE * 16 * p == 70368744177664);
    assert(5 * 32768 * 32768 - 4 * p == 4294967296int);
    assert(70368744177664int / 4294967296int == 16384);
}

/// The sine is positive strictly inside a half turn.
pub proof fn lemma_half_sine_positive(t: int)
    requires
        0 < t < HALF_TURN,
    ensures
        1 <= half_sine(t),
{
    let h = HALF_TURN as int;
    let p = t * (h - t);
    assert(h - 1 <= p) by (nonlinear_arith)
        requires
            0 < t < h,
            p == t * (h - t),
    ;
    assert(4 * p <= h * h) by (nonlinear_arith)
        requires
            p == t * (h - t),
    ;
    let den = 5 * h * h - 4 * p;
    assert(h * h == 1073741824);
    assert(ONE * 16 * p >= ONE * 16 * (h - 1)) by (nonlinear_arith)
        requires
            p >= h - 1,
    ;
    assert(h - 1 == 32767);
    assert(ONE * 16 * (h - 1) == 8589672448int) by (nonlinear_arith)
        requires
            h - 1 == 32767,
    ;
    assert(0 < den <= ONE * 16 * p);
    assert((ONE * 16 * p) / den >= 1) by (nonlinear_arith)
        requires
            0 < den <= ONE * 16 * p,
    ;
}

/// Between an eighth and three eighths of a turn the sine is at least one
/// half.
proof fn lemma_half_sine_mid(t: int)
    requires
        QUARTER_TURN / 2 <= t <= 3 * QUARTER_TURN / 2,
    ensures
        half_sine(t) >= ONE / 2,
{
    let h = HALF_TURN as int;
    let p = t * (h - t);
    assert(p >= 201326592) by (nonlinear_arith)
        requires
            8192 <= t <= 24576,
            h == 32768,
            p == t * (h - t),
    ;
    assert(h * h == 1073741824);
    let den = 5 * h * h - 4 * p;
    assert(4 * p <= h * h) by (nonlinear_arith)
        requires
            p == t * (h - t),
    ;
    assert(den > 0);
    let num = ONE * 16 * p;
    assert(num >= (ONE / 2) * den) by (nonlinear_arith)
        requires
            num == ONE * 16 * p,
            den == 5 * h * h - 4 * p,
            h * h == 1073741824,
            p >= 201326592,
    ;
    assert(num / den >= ONE / 2) by (nonlinear_arith)
        requires
            num >= (ONE / 2) * den,
            den > 0,
    ;
}

/// Every direction is at least half long along one of the axes: its
/// cosine or its sine is at least one half in magnitude.
pub proof fn lemma_direction_long(a: int)
    requires
        0 <= a < TURN,
    ensures
        cosine(a) >= ONE / 2 || cosine(a) <= -(ONE / 2) || sine(a) >= ONE / 2 || sine(a) <= -(ONE / 2),
{
    let q = QUARTER_TURN as int;
    let s = if a < HALF_TURN {
        a
    } else {
        a - HALF_TURN
    };
    if q / 2 <= s <= 3 * q / 2 {
        lemma_half_sine_mid(s);
    } else {
        let c = (a + q) % (TURN as int);
        let cs = if c < HALF_TURN {
            c
        } else {
            c - HALF_TURN
        };
        assert(q / 2 <= cs <= 3 * q / 2);
        lemma_half_sine_mid(cs);
    }
}

fn half_sine_exec(t: u64) -> (r: i64)
    requires
        t <= HALF_TURN,
    ensures
        r == half_sine(t as int),
        0 <= r <= ONE,
{
    proof {
        lemma_half_sine_bounds(t as int);
    }
    assert(t * (HALF_TURN - t) <= 32768 * 32768) by (nonlinear_arith)
        requires
            t <= 32768,
    ;
    let p: u64 = t * (HALF_TURN - t);
    assert(p <= 1073741824u64 / 4) by (nonlinear_arith)
        requires
            p == t * (HALF_TURN - t),
            t <= HALF_TURN,
    ;
    let num: u64 = 16384 * 16 * p;
    let den: u64 = 5 * HALF_TURN * HALF_TURN - 4 * p;
    (num / den) as i64
}

/// The sine of a binary angle, scaled by `ONE`.
pub fn sin_fx(a: u64) -> (r: i64)
    requires
        a < TURN,
    ensures
        r == sine(a as int),
        -ONE <= r <= ONE,
{
    if a < HALF_TURN {
        half_sine_exec(a)
    } else {
        -half_sine_exec(a - HALF_TURN)
    }
}

/// The cosine of a binary angle, scaled by `ONE`.
pub fn cos_fx(a: u64) -> (r: i64)
    requires
        a < TURN,
    ensures
        r == cosine(a as int),
        -ONE <= r <= ONE,
{
    proof {
        lemma_sine_bounds(a as int);
    }
    sin_fx((a + QUARTER_TURN) % TURN)
}

/// `a - b` wrapped into `[0, TURN)`.
pub fn sub_angle(a: u64, b: u64) -> (r: u64)
    requires
        a < TURN,
        b < TURN,
    ensures
        r == angle_sub(a as int, b as int),
        r < TURN,
{
    (a + TURN - b) % TURN
}

/// The integer square root: the largest `r` with `r * r <= n`.
pub fn isqrt(n: u64) -> (r: u64)
    ensures
        r * r <= n,
        n < (r + 1) * (r + 1),
{
    let mut lo: u64 = 0;
    let mut hi: u64 = 4294967296;
    assert(n < hi * hi) by (nonlinear_arith)
        requires
            hi == 4294967296u64,
            n <= 0xffff_ffff_ffff_ffffu64,
    ;
    while hi - lo > 1
        invariant
            lo < hi <= 4294967296,
            lo * lo <= n,
            n < hi * hi,
        decreases hi - lo,
    {
        let mid: u64 = lo + (hi - lo) / 2;
        assert(mid * mid < 0x1_0000_0000_0000_0000int) by (nonlinear_arith)
            requires
                mid < 4294967296int,
        ;
        if mid * mid <= n {
            lo = mid;
        } else {
            hi = mid;
        }
    }
    assert(hi == lo + 1);
    lo
}

/// A linear fade `1 - d / range`, per mille and clamped to `[floor, SHADE_FULL]`.
pub open spec fn fade(d: int, range: int, floor: int) -> int {
    let f = SHADE_FULL - d * (SHADE_FULL as int) / range;
    if d >= range {
        floor
    } else if f < floor {
        floor
    } else if f > SHADE_FULL {
        SHADE_FULL as int
    } else {
        f
    }
}

/// The per-mille fade factor of a distance `d`.
pub fn fade_fx(d: u64, range: u64, floor: u64) -> (r: u64)
    requires
        0 < range <= 1_000_000,
        floor <= SHADE_FULL,
    ensures
        r == fade(d as int, range as int, floor as int),
        floor <= r <= SHADE_FULL,
{
    if d >= range {
        floor
    } else {
        let q: u64 = d * 1000 / range;
        assert(q <= 1000) by (nonlinear_arith)
            requires
                q as int == (d as int) * 1000 / (range as int),
                d < range,
                range > 0,
        ;
        let f: u64 = 1000 - q;
        if f < floor {
            floor
        } else {
            f
        }
    }
}

} // verus!
