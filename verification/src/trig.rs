//! Fixed-point angles and their sine and cosine.
//!
//! An angle is a whole number of thousandths of a degree. Sines and cosines
//! are integers scaled by [`ONE`]. They are read from a table that holds the
//! sine of every whole degree of the first quarter turn, with a straight line
//! drawn between neighbouring entries, and carried to the other three
//! quarters by symmetry.

use vstd::prelude::*;
use crate::fixed::floor_mod;
use crate::fixed::lemma_quotient_parts;
use crate::fixed::lemma_quotient_unique;

verus! {

/// Angle units in one degree.
pub const DEGREE: i32 = 1000;

/// Angle units in a quarter turn, 90 degrees.
pub const QUARTER_TURN: i32 = 90000;

/// Angle units in half a turn, 180 degrees.
pub const HALF_TURN: i32 = 180000;

/// Angle units in three quarters of a turn, 270 degrees.
pub const THREE_QUARTER_TURN: i32 = 270000;

/// Angle units in a full turn, 360 degrees.
pub const FULL_TURN: i32 = 360000;

/// The fixed-point value that stands for 1.
pub const ONE: i32 = 65536;

/// The sine of every whole degree from 0 to 90, scaled by [`ONE`] and
/// rounded to the nearest integer.
pub const SINE_TABLE: [i32; 91] = [
    0, 1144, 2287, 3430, 4572, 5712, 6850,
    7987, 9121, 10252, 11380, 12505, 13626, 14742,
    15855, 16962, 18064, 19161, 20252, 21336, 22415,
    23486, 24550, 25607, 26656, 27697, 28729, 29753,
    30767, 31772, 32768, 33754, 34729, 35693, 36647,
    37590, 38521, 39441, 40348, 41243, 42126, 42995,
    43852, 44695, 45525, 46341, 47143, 47930, 48703,
    49461, 50203, 50931, 51643, 52339, 53020, 53684,
    54332, 54963, 55578, 56175, 56756, 57319, 57865,
    58393, 58903, 59396, 59870, 60326, 60764, 61183,
    61584, 61966, 62328, 62672, 62997, 63303, 63589,
    63856, 64104, 64332, 64540, 64729, 64898, 65048,
    65177, 65287, 65376, 65446, 65496, 65526, 65536,
];

/// A direction in the plane. Its components are scaled by [`ONE`], so the
/// unit vector along the positive x axis is `(ONE, 0)`.
#[derive(Clone, Copy, PartialEq, Eq, Debug, Structural)]
pub struct Direction {
    pub x: i32,
    pub y: i32,
}

/// The angle in `[0, FULL_TURN)` that points the same way as `angle`.
pub open spec fn normalize(angle: int) -> int {
    angle % (FULL_TURN as int)
}

/// The scaled sine of an angle `a` of the first quarter turn,
/// `0 <= a <= QUARTER_TURN`: the table entry at a whole degree, and between
/// two whole degrees the point on the straight line between their entries,
/// rounded down.
pub open spec fn quarter_sine(a: int) -> int {
    let k = a / (DEGREE as int);
    let r = a % (DEGREE as int);
    if r == 0 {
        SINE_TABLE[k] as int
    } else {
        (SINE_TABLE[k] * (DEGREE - r) + SINE_TABLE[k + 1] * r) / (DEGREE as int)
    }
}

/// The scaled sine of any angle.
pub open spec fn sine(angle: int) -> int {
    let m = normalize(angle);
    if m <= QUARTER_TURN {
        quarter_sine(m)
    } else if m <= HALF_TURN {
        quarter_sine(HALF_TURN - m)
    } else if m <= THREE_QUARTER_TURN {
        -quarter_sine(m - HALF_TURN)
    } else {
        -quarter_sine(FULL_TURN - m)
    }
}

/// The scaled cosine of any angle: the sine a quarter turn further on.
pub open spec fn cosine(angle: int) -> int {
    sine(angle + QUARTER_TURN)
}

/// The direction that an angle points in: its cosine along x, its sine
/// along y.
pub open spec fn direction_of(angle: int) -> Direction {
    Direction { x: cosine(angle) as i32, y: sine(angle) as i32 }
}

/// Every table entry lies between 0 and [`ONE`], the entries grow strictly,
/// and the table starts at 0 and ends at [`ONE`].
pub proof fn lemma_table_shape(k: int)
    requires
        0 <= k <= 90,
    ensures
        0 <= SINE_TABLE[k] <= ONE,
        k < 90 ==> SINE_TABLE[k] < SINE_TABLE[k + 1],
        k > 0 ==> SINE_TABLE[k] >= 1144,
        SINE_TABLE[0] == 0,
        SINE_TABLE[90] == ONE,
{
}

/// The table entry that stands for the cosine of `k` degrees: the sine of
/// the angle that completes `k` degrees to a quarter turn.
pub open spec fn table_cosine(k: int) -> int {
    SINE_TABLE[90 - k] as int
}

/// From one table entry to the next the point moves round the circle by the
/// angle of the first entry: the addition formulas for sine and cosine hold
/// between entry `k`, entry 1 and entry `k + 1`, to within twice [`ONE`].
/// Ninety such steps lead from `(ONE, 0)` to `(0, ONE)`, a quarter turn, so
/// one step is one degree.
pub proof fn lemma_table_angle_addition(k: int)
    requires
        0 <= k < 90,
    ensures
        -2 * ONE <= SINE_TABLE[k + 1] * ONE - (SINE_TABLE[k] * table_cosine(1) + table_cosine(k)
            * SINE_TABLE[1]) <= 2 * ONE,
        -2 * ONE <= table_cosine(k + 1) * ONE - (table_cosine(k) * table_cosine(1) - SINE_TABLE[k]
            * SINE_TABLE[1]) <= 2 * ONE,
{
    let s = SINE_TABLE[k] as int;
    let c = table_cosine(k);
    let s1 = SINE_TABLE[1] as int;
    let c1 = table_cosine(1);
    assert(-2 * 65536 <= SINE_TABLE[k + 1] * 65536 - (s * 65526 + c * 1144) <= 2 * 65536);
    assert(-2 * 65536 <= table_cosine(k + 1) * 65536 - (c * 65526 - s * 1144) <= 2 * 65536);
    assert(s * c1 == s * 65526 && c * s1 == c * 1144 && c * c1 == c * 65526 && s * s1 == s * 1144)
        by (nonlinear_arith)
        requires
            s1 == 1144,
            c1 == 65526,
    ;
}

/// Between two neighbouring table entries the straight line stays between
/// them.
proof fn lemma_between(lo: int, hi: int, r: int)
    requires
        0 <= lo <= hi,
        0 < r < DEGREE,
    ensures
        lo <= (lo * (DEGREE - r) + hi * r) / (DEGREE as int) <= hi,
        hi * r / (DEGREE as int) <= (lo * (DEGREE - r) + hi * r) / (DEGREE as int),
        0 <= lo * (DEGREE - r) + hi * r <= hi * DEGREE,
{
    let d = DEGREE as int;
    let v = lo * (d - r) + hi * r;
    assert(lo * d <= v <= hi * d && hi * r <= v) by (nonlinear_arith)
        requires
            v == lo * (d - r) + hi * r,
            0 <= lo <= hi,
            0 < r < d,
    ;
    lemma_quotient_parts(v, d);
    lemma_quotient_parts(hi * r, d);
    assert(lo <= v / d <= hi && (hi * r) / d <= v / d) by (nonlinear_arith)
        requires
            d > 0,
            lo * d <= v <= hi * d,
            hi * r <= v,
            v == (v / d) * d + v % d,
            0 <= v % d < d,
            hi * r == ((hi * r) / d) * d + (hi * r) % d,
            0 <= (hi * r) % d < d,
    ;
}

/// In the first quarter turn the sine lies between 0 and [`ONE`], is 0 only
/// at angle 0, and reaches [`ONE`] at the quarter turn.
pub proof fn lemma_quarter_sine_bounds(a: int)
    requires
        0 <= a <= QUARTER_TURN,
    ensures
        0 <= quarter_sine(a) <= ONE,
        a > 0 ==> quarter_sine(a) > 0,
        a == 0 ==> quarter_sine(a) == 0,
        a == QUARTER_TURN ==> quarter_sine(a) == ONE,
{
    let k = a / (DEGREE as int);
    let r = a % (DEGREE as int);
    lemma_quotient_parts(a, DEGREE as int);
    assert(0 <= k <= 90);
    lemma_table_shape(k);
    if r != 0 {
        assert(k < 90);
        lemma_table_shape(k + 1);
        lemma_between(SINE_TABLE[k] as int, SINE_TABLE[k + 1] as int, r);
        let hi = SINE_TABLE[k + 1] as int;
        assert(hi * r / (DEGREE as int) >= 1) by (nonlinear_arith)
            requires
                hi >= 1144,
                r >= 1,
        ;
    }
}

/// The sine of any angle lies between minus [`ONE`] and [`ONE`].
pub proof fn lemma_sine_bounds(angle: int)
    ensures
        -ONE <= sine(angle) <= ONE,
        -ONE <= cosine(angle) <= ONE,
{
    lemma_sine_range(angle);
    lemma_sine_range(angle + QUARTER_TURN);
}

proof fn lemma_sine_range(angle: int)
    ensures
        -ONE <= sine(angle) <= ONE,
{
    let m = normalize(angle);
    lemma_quotient_parts(angle, FULL_TURN as int);
    if m <= QUARTER_TURN {
        lemma_quarter_sine_bounds(m);
    } else if m <= HALF_TURN {
        lemma_quarter_sine_bounds(HALF_TURN - m);
    } else if m <= THREE_QUARTER_TURN {
        lemma_quarter_sine_bounds(m - HALF_TURN);
    } else {
        lemma_quarter_sine_bounds(FULL_TURN - m);
    }
}

/// Adding whole turns to an angle changes neither where it points nor its
/// sine and cosine.
pub proof fn lemma_whole_turns(angle: int, turns: int)
    ensures
        normalize(angle + turns * FULL_TURN) == normalize(angle),
        sine(angle + turns * FULL_TURN) == sine(angle),
        cosine(angle + turns * FULL_TURN) == cosine(angle),
        direction_of(angle + turns * FULL_TURN) == direction_of(angle),
{
    lemma_turns_vanish(angle, turns);
    lemma_turns_vanish(angle + QUARTER_TURN, turns);
}

proof fn lemma_turns_vanish(angle: int, turns: int)
    ensures
        normalize(angle + turns * FULL_TURN) == normalize(angle),
{
    let f = FULL_TURN as int;
    lemma_quotient_parts(angle, f);
    let q = angle / f;
    let r = angle % f;
    assert(angle + turns * f == (q + turns) * f + r) by (nonlinear_arith)
        requires
            angle == q * f + r,
    ;
    lemma_quotient_unique(angle + turns * f, f, q + turns, r);
}

/// An angle and its normal form have the same sine and cosine.
pub proof fn lemma_normalize_keeps_direction(angle: int)
    ensures
        0 <= normalize(angle) < FULL_TURN,
        normalize(normalize(angle)) == normalize(angle),
        direction_of(normalize(angle)) == direction_of(angle),
{
    let f = FULL_TURN as int;
    lemma_quotient_parts(angle, f);
    lemma_quotient_unique(normalize(angle), f, 0, normalize(angle));
    lemma_whole_turns(normalize(angle), angle / f);
    assert(normalize(angle) + (angle / f) * f == angle);
}

/// The exact values on the four axes.
pub proof fn lemma_axis_values()
    ensures
        cosine(0) == ONE && sine(0) == 0,
        cosine(QUARTER_TURN as int) == 0 && sine(QUARTER_TURN as int) == ONE,
        cosine(HALF_TURN as int) == -ONE && sine(HALF_TURN as int) == 0,
        cosine(THREE_QUARTER_TURN as int) == 0 && sine(THREE_QUARTER_TURN as int) == -ONE,
        direction_of(0) == (Direction { x: ONE, y: 0 }),
        direction_of(QUARTER_TURN as int) == (Direction { x: 0, y: ONE }),
{
    lemma_table_shape(0);
    lemma_table_shape(90);
    reveal_axis(0);
    reveal_axis(QUARTER_TURN as int);
    reveal_axis(HALF_TURN as int);
    reveal_axis(THREE_QUARTER_TURN as int);
    reveal_axis(FULL_TURN as int);
}

proof fn reveal_axis(a: int)
    requires
        a == 0 || a == QUARTER_TURN || a == HALF_TURN || a == THREE_QUARTER_TURN || a == FULL_TURN,
    ensures
        normalize(a) == (if a == FULL_TURN { 0 } else { a }),
        a <= QUARTER_TURN ==> quarter_sine(a) == SINE_TABLE[a / 1000] as int,
{
}

/// Turning an angle around negates its sine, and keeps its cosine.
pub proof fn lemma_mirror(angle: int)
    ensures
        sine(-angle) == -sine(angle),
        cosine(-angle) == cosine(angle),
{
    lemma_sine_odd(angle);
    // cos(-a) = sin(-a + Q) = -sin(a - Q) = sin(a - Q + H) = sin(a + Q)
    lemma_sine_odd(angle - QUARTER_TURN);
    lemma_sine_half_turn(angle - QUARTER_TURN);
}

proof fn lemma_sine_odd(angle: int)
    ensures
        sine(-angle) == -sine(angle),
{
    let f = FULL_TURN as int;
    let m = normalize(angle);
    lemma_quotient_parts(angle, f);
    lemma_quarter_sine_bounds(0);
    if m == 0 {
        lemma_quotient_unique(-angle, f, -(angle / f), 0);
    } else {
        assert(-angle == (-(angle / f) - 1) * f + (f - m)) by (nonlinear_arith)
            requires
                angle == (angle / f) * f + m,
        ;
        lemma_quotient_unique(-angle, f, -(angle / f) - 1, f - m);
    }
}

proof fn lemma_sine_half_turn(angle: int)
    ensures
        sine(angle + HALF_TURN) == -sine(angle),
{
    let f = FULL_TURN as int;
    let m = normalize(angle);
    lemma_quotient_parts(angle, f);
    lemma_quarter_sine_bounds(0);
    if m < HALF_TURN {
        lemma_quotient_unique(angle + HALF_TURN, f, angle / f, m + HALF_TURN);
    } else {
        assert(angle + HALF_TURN == (angle / f + 1) * f + (m - HALF_TURN)) by (nonlinear_arith)
            requires
                angle == (angle / f) * f + m,
                f == 2 * HALF_TURN,
        ;
        lemma_quotient_unique(angle + HALF_TURN, f, angle / f + 1, m - HALF_TURN);
    }
}

/// Half a turn further on, sine and cosine are both negated.
pub proof fn lemma_half_turn(angle: int)
    ensures
        sine(angle + HALF_TURN) == -sine(angle),
        cosine(angle + HALF_TURN) == -cosine(angle),
{
    lemma_sine_half_turn(angle);
    lemma_sine_half_turn(angle + QUARTER_TURN);
}

/// No angle has both sine and cosine zero: where one vanishes the other is
/// plus or minus [`ONE`].
pub proof fn lemma_direction_nonzero(angle: int)
    ensures
        sine(angle) == 0 ==> cosine(angle) == ONE || cosine(angle) == -ONE,
        cosine(angle) == 0 ==> sine(angle) == ONE || sine(angle) == -ONE,
        sine(angle) != 0 || cosine(angle) != 0,
{
    let f = FULL_TURN as int;
    let m = normalize(angle);
    lemma_quotient_parts(angle, f);
    lemma_sine_zero(angle);
    lemma_sine_zero(angle + QUARTER_TURN);
    lemma_axis_values();
    lemma_normalize_keeps_direction(angle);
    lemma_sine_bounds(angle);
    // normalize(angle + Q) in terms of m
    if m < THREE_QUARTER_TURN {
        lemma_quotient_unique(angle + QUARTER_TURN, f, angle / f, m + QUARTER_TURN);
    } else {
        assert(angle + QUARTER_TURN == (angle / f + 1) * f + (m - THREE_QUARTER_TURN))
            by (nonlinear_arith)
            requires
                angle == (angle / f) * f + m,
                f == QUARTER_TURN + THREE_QUARTER_TURN,
        ;
        lemma_quotient_unique(
            angle + QUARTER_TURN,
            f,
            angle / f + 1,
            m - THREE_QUARTER_TURN,
        );
    }
    lemma_quarter_sine_bounds(QUARTER_TURN as int);
    lemma_quarter_sine_bounds(0);
}

proof fn lemma_sine_zero(angle: int)
    ensures
        sine(angle) == 0 <==> (normalize(angle) == 0 || normalize(angle) == HALF_TURN),
{
    let m = normalize(angle);
    lemma_quotient_parts(angle, FULL_TURN as int);
    if m <= QUARTER_TURN {
        lemma_quarter_sine_bounds(m);
    } else if m <= HALF_TURN {
        lemma_quarter_sine_bounds(HALF_TURN - m);
    } else if m <= THREE_QUARTER_TURN {
        lemma_quarter_sine_bounds(m - HALF_TURN);
    } else {
        lemma_quarter_sine_bounds(FULL_TURN - m);
    }
}

/// The angle in `[0, FULL_TURN)` that points the same way as `angle`.
pub fn normalize_angle(angle: i64) -> (r: i32)
    ensures
        r == normalize(angle as int),
        0 <= r < FULL_TURN,
{
    let m: i64 = floor_mod(angle, FULL_TURN as i64);
    m as i32
}

/// The sine of an angle of the first quarter turn.
fn quarter_sine_fixed(a: i32) -> (r: i32)
    requires
        0 <= a <= QUARTER_TURN,
    ensures
        r == quarter_sine(a as int),
        0 <= r <= ONE,
{
    proof {
        lemma_quarter_sine_bounds(a as int);
        lemma_quotient_parts(a as int, DEGREE as int);
    }
    let k: usize = (a / DEGREE) as usize;
    let r: i32 = a % DEGREE;
    if r == 0 {
        SINE_TABLE[k]
    } else {
        let lo: i64 = SINE_TABLE[k] as i64;
        let hi: i64 = SINE_TABLE[k + 1] as i64;
        proof {
            lemma_table_shape(k as int);
            lemma_table_shape(k + 1);
            lemma_between(lo as int, hi as int, r as int);
            assert(lo * (DEGREE - r) <= 65536 * 1000 && hi * r <= 65536 * 1000)
                by (nonlinear_arith)
                requires
                    0 <= lo <= 65536,
                    0 <= hi <= 65536,
                    0 < r < 1000,
                    DEGREE == 1000,
            ;
            assert(0 <= lo * (DEGREE - r) && 0 <= hi * r) by (nonlinear_arith)
                requires
                    0 <= lo,
                    0 <= hi,
                    0 < r < 1000,
                    DEGREE == 1000,
            ;
        }
        let sum: i64 = lo * (DEGREE - r) as i64 + hi * r as i64;
        (sum / DEGREE as i64) as i32
    }
}

/// The sine of an angle given in the wider integer type.
pub fn sin_wide(angle: i64) -> (r: i32)
    ensures
        r == sine(angle as int),
        -ONE <= r <= ONE,
{
    proof {
        lemma_sine_range(angle as int);
    }
    let m: i32 = normalize_angle(angle);
    if m <= QUARTER_TURN {
        quarter_sine_fixed(m)
    } else if m <= HALF_TURN {
        quarter_sine_fixed(HALF_TURN - m)
    } else if m <= THREE_QUARTER_TURN {
        -quarter_sine_fixed(m - HALF_TURN)
    } else {
        -quarter_sine_fixed(FULL_TURN - m)
    }
}

/// The sine of `angle`, scaled by [`ONE`].
pub fn sin_fixed(angle: i32) -> (r: i32)
    ensures
        r == sine(angle as int),
        -ONE <= r <= ONE,
{
    sin_wide(angle as i64)
}

/// The cosine of `angle`, scaled by [`ONE`].
pub fn cos_fixed(angle: i32) -> (r: i32)
    ensures
        r == cosine(angle as int),
        -ONE <= r <= ONE,
{
    sin_wide(angle as i64 + QUARTER_TURN as i64)
}

/// The direction that `angle` points in.
pub fn direction(angle: i32) -> (d: Direction)
    ensures
        d == direction_of(angle as int),
        d.x == cosine(angle as int),
        d.y == sine(angle as int),
        d.x != 0 || d.y != 0,
{
    proof {
        lemma_direction_nonzero(angle as int);
    }
    Direction { x: cos_fixed(angle), y: sin_fixed(angle) }
}


} // verus!
