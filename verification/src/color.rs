//! Colours and the distance between two of them.

use vstd::prelude::*;

verus! {

/// An RGB colour: three 8-bit channels, no alpha.
#[derive(Clone, Copy, Debug, PartialEq, Eq, Structural)]
pub struct Color {
    pub r: u8,
    pub g: u8,
    pub b: u8,
}

/// The largest distance between two colours: black against white.
pub const MAX_DISTANCE: u16 = 442;

/// The largest squared distance between two colours: `3 * 255 * 255`.
pub const MAX_SQUARED_DISTANCE: u32 = 195075;

/// The sum of the squared channel differences of `a` and `b`.
pub open spec fn squared_distance(a: Color, b: Color) -> nat {
    ((a.r - b.r) * (a.r - b.r) + (a.g - b.g) * (a.g - b.g) + (a.b - b.b) * (a.b - b.b)) as nat
}

/// `d` is the square root of `n`, rounded to the nearest integer.
///
/// `(d + 1/2)^2` is `d * d + d + 1/4`, so the square root of an integer is
/// never half-way between two integers, and `d` is its rounding exactly when
/// `d * d - d < n <= d * d + d`; for `d == 0` the lower bound is void.
pub open spec fn is_rounded_sqrt(n: nat, d: nat) -> bool {
    &&& n <= d * d + d
    &&& d > 0 ==> d * d - d < n
}

/// The square root of `n`, rounded to the nearest integer.
pub open spec fn rounded_sqrt(n: nat) -> nat {
    choose|d: nat| is_rounded_sqrt(n, d)
}

/// The Euclidean distance of `a` and `b` in RGB space, rounded to the
/// nearest integer.
pub open spec fn distance(a: Color, b: Color) -> nat {
    rounded_sqrt(squared_distance(a, b))
}

/// At most one number is the rounded square root of `n`.
pub proof fn lemma_rounded_sqrt_unique(n: nat, d1: nat, d2: nat)
    requires
        is_rounded_sqrt(n, d1),
        is_rounded_sqrt(n, d2),
    ensures
        d1 == d2,
{
    if d1 < d2 {
        assert(d1 * d1 + d1 <= d2 * d2 - d2) by (nonlinear_arith)
            requires
                d1 + 1 <= d2,
        ;
    } else if d2 < d1 {
        assert(d2 * d2 + d2 <= d1 * d1 - d1) by (nonlinear_arith)
            requires
                d2 + 1 <= d1,
        ;
    }
}

/// A number that rounds the square root of `n` is `rounded_sqrt(n)`.
pub proof fn lemma_rounded_sqrt_is(n: nat, d: nat)
    requires
        is_rounded_sqrt(n, d),
    ensures
        rounded_sqrt(n) == d,
{
    lemma_rounded_sqrt_unique(n, rounded_sqrt(n), d);
}

/// No two colours are further apart, squared, than `MAX_SQUARED_DISTANCE`.
pub proof fn lemma_squared_distance_bound(a: Color, b: Color)
    ensures
        squared_distance(a, b) <= MAX_SQUARED_DISTANCE,
        squared_distance(a, b) == (a.r - b.r) * (a.r - b.r) + (a.g - b.g) * (a.g - b.g) + (a.b
            - b.b) * (a.b - b.b),
{
    lemma_square_bound(a.r - b.r);
    lemma_square_bound(a.g - b.g);
    lemma_square_bound(a.b - b.b);
}

proof fn lemma_square_bound(x: int)
    requires
        -255 <= x <= 255,
    ensures
        0 <= x * x <= 65025,
{
    assert(0 <= x * x <= 65025) by (nonlinear_arith)
        requires
            -255 <= x <= 255,
    ;
}

/// Every number has a rounded square root.
pub proof fn lemma_rounded_sqrt_exists(n: nat)
    ensures
        is_rounded_sqrt(n, rounded_sqrt(n)),
    decreases n,
{
    if n == 0 {
        assert(is_rounded_sqrt(0, 0));
    } else {
        lemma_rounded_sqrt_exists((n - 1) as nat);
        let d = rounded_sqrt((n - 1) as nat);
        if n <= d * d + d {
            assert(is_rounded_sqrt(n, d));
        } else {
            assert((d + 1) * (d + 1) - (d + 1) == d * d + d) by (nonlinear_arith);
            assert((d + 1) * (d + 1) + (d + 1) >= d * d + d + 1) by (nonlinear_arith);
            assert(is_rounded_sqrt(n, d + 1));
        }
    }
}

/// The distance does not depend on the order of the two colours.
pub proof fn distance_is_symmetric(a: Color, b: Color)
    ensures
        distance(a, b) == distance(b, a),
{
    assert(squared_distance(a, b) == squared_distance(b, a)) by (nonlinear_arith);
}

/// A colour is at distance zero from itself.
pub proof fn distance_to_itself_is_zero(a: Color)
    ensures
        distance(a, a) == 0,
{
    assert(squared_distance(a, a) == 0) by (nonlinear_arith);
    lemma_rounded_sqrt_is(0, 0);
}

/// Only equal colours are at distance zero.
pub proof fn distance_zero_iff_equal(a: Color, b: Color)
    ensures
        distance(a, b) == 0 <==> a == b,
{
    if a == b {
        distance_to_itself_is_zero(a);
    }
    if distance(a, b) == 0 {
        let n = squared_distance(a, b);
        lemma_rounded_sqrt_exists(n);
        lemma_squared_distance_bound(a, b);
        assert(n == 0);
        assert(a.r == b.r && a.g == b.g && a.b == b.b) by (nonlinear_arith)
            requires
                (a.r - b.r) * (a.r - b.r) + (a.g - b.g) * (a.g - b.g) + (a.b - b.b) * (a.b
                    - b.b) == 0,
        ;
    }
}

/// No two colours are further apart than `MAX_DISTANCE`.
pub proof fn distance_is_bounded(a: Color, b: Color)
    ensures
        distance(a, b) <= MAX_DISTANCE,
{
    let n = squared_distance(a, b);
    let d = distance(a, b);
    lemma_rounded_sqrt_exists(n);
    lemma_squared_distance_bound(a, b);
    if d > MAX_DISTANCE {
        assert(d * d - d > 195075) by (nonlinear_arith)
            requires
                d >= 443,
        ;
    }
}

/// The distance of `color1` and `color2`: the Euclidean distance of the two
/// in RGB space, rounded to the nearest integer. The square root of an
/// integer is never half-way between two integers, so there is no tie to
/// break: rounding half away from zero and rounding half to even agree.
pub fn color_distance(color1: Color, color2: Color) -> (d: u16)
    ensures
        d == distance(color1, color2),
        d <= MAX_DISTANCE,
{
    let dr: i32 = color2.r as i32 - color1.r as i32;
    let dg: i32 = color2.g as i32 - color1.g as i32;
    let db: i32 = color2.b as i32 - color1.b as i32;
    proof {
        lemma_square_bound(dr as int);
        lemma_square_bound(dg as int);
        lemma_square_bound(db as int);
        lemma_squared_distance_bound(color1, color2);
        assert(dr * dr == (color1.r - color2.r) * (color1.r - color2.r)) by (nonlinear_arith)
            requires
                dr == color2.r - color1.r,
        ;
        assert(dg * dg == (color1.g - color2.g) * (color1.g - color2.g)) by (nonlinear_arith)
            requires
                dg == color2.g - color1.g,
        ;
        assert(db * db == (color1.b - color2.b) * (color1.b - color2.b)) by (nonlinear_arith)
            requires
                db == color2.b - color1.b,
        ;
    }
    let n: u32 = (dr * dr + dg * dg + db * db) as u32;
    assert(n == squared_distance(color1, color2));
    let d: u16 = rounded_root(n);
    proof {
        lemma_rounded_sqrt_is(n as nat, d as nat);
    }
    d
}

/// The square root of `n`, rounded to the nearest integer, for an `n` that
/// is the squared distance of two colours.
fn rounded_root(n: u32) -> (d: u16)
    requires
        n <= MAX_SQUARED_DISTANCE,
    ensures
        is_rounded_sqrt(n as nat, d as nat),
        d <= MAX_DISTANCE,
{
    let mut low: u32 = 0;
    let mut high: u32 = MAX_DISTANCE as u32;
    while low < high
        invariant
            low <= high <= MAX_DISTANCE,
            n <= high * high + high,
            low > 0 ==> low * low - low < n,
        decreases high - low,
    {
        let mid: u32 = (low + high) / 2;
        assert(mid * mid <= 441 * 441) by (nonlinear_arith)
            requires
                mid <= 441,
        ;
        if n <= mid * mid + mid {
            high = mid;
        } else {
            assert((mid + 1) * (mid + 1) - (mid + 1) == mid * mid + mid) by (nonlinear_arith);
            low = mid + 1;
        }
    }
    low as u16
}

} // verus!
