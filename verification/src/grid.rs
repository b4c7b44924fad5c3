//! The numbers that a binary floating-point format can hold, as plain integers.
//!
//! A non-negative number of a format is named by its bit pattern without the sign bit, its
//! magnitude. All finite numbers of a format are whole multiples of its smallest positive
//! number, the unit, so a magnitude stands for the integer `grid(frac, mag)`.

use vstd::arithmetic::div_mod::{lemma_fundamental_div_mod, lemma_fundamental_div_mod_converse};
use vstd::arithmetic::power2::{lemma2_to64, lemma_pow2_pos, lemma_pow2_unfold, pow2};
use vstd::prelude::*;

verus! {

/// What the magnitude `mag` is worth, in units, where the format keeps `frac` fraction bits.
///
/// Below the first power of two of the pattern the numbers are spaced by one unit; from there
/// on each block of `pow2(frac)` patterns doubles the spacing.
pub open spec fn grid(frac: nat, mag: nat) -> nat {
    if mag < pow2(frac) {
        mag
    } else {
        (pow2(frac) + mag % pow2(frac)) * pow2((mag / pow2(frac) - 1) as nat)
    }
}

/// `mag` is the number nearest to `num / den` units, and of two that are equally near the one
/// with an even pattern. `inf` takes the place of the number that would follow the largest
/// finite one, and everything beyond goes to it.
pub open spec fn rounds_to(frac: nat, inf: nat, num: nat, den: nat, mag: nat) -> bool {
    &&& mag <= inf
    &&& mag > 0 ==> {
        let twice_mid = grid(frac, (mag - 1) as nat) + grid(frac, mag);
        den * twice_mid <= 2 * num && (den * twice_mid == 2 * num ==> mag % 2 == 0)
    }
    &&& mag < inf ==> {
        let twice_mid = grid(frac, mag) + grid(frac, mag + 1);
        2 * num <= den * twice_mid && (den * twice_mid == 2 * num ==> mag % 2 == 0)
    }
}

/// The magnitude that `num / den` units round to.
pub open spec fn rounded(frac: nat, inf: nat, num: nat, den: nat) -> nat {
    choose|mag: nat| rounds_to(frac, inf, num, den, mag)
}

/// The pattern made of an exponent `e` and a significand `m`, the leading bit of which counts
/// as one step of the exponent, is worth `m * 2^e`.
pub proof fn lemma_grid_compose(frac: nat, e: nat, m: nat)
    requires
        e == 0 || pow2(frac) <= m,
        m <= 2 * pow2(frac),
    ensures
        grid(frac, e * pow2(frac) + m) == m * pow2(e),
{
    let h = pow2(frac) as int;
    lemma_pow2_pos(frac);
    lemma2_to64();
    let b = e * h + m;
    assert(e * h >= 0) by (nonlinear_arith)
        requires
            h > 0,
            e >= 0,
    ;
    if m < h {
        assert(e * h == 0) by (nonlinear_arith)
            requires
                e == 0,
        ;
    } else if m < 2 * h {
        assert(b == (e + 1) * h + (m - h)) by (nonlinear_arith)
            requires
                b == e * h + m,
        ;
        lemma_fundamental_div_mod_converse(b, h, e as int + 1, m - h);
    } else {
        assert(b == (e + 2) * h + 0) by (nonlinear_arith)
            requires
                b == e * h + m,
                m == 2 * h,
        ;
        lemma_fundamental_div_mod_converse(b, h, e as int + 2, 0);
        lemma_pow2_unfold(e + 1);
        assert(h * pow2(e + 1) == m * pow2(e)) by (nonlinear_arith)
            requires
                pow2(e + 1) == 2 * pow2(e),
                m == 2 * h,
        ;
    }
}

/// Every magnitude is composed of an exponent and a significand.
pub proof fn lemma_grid_decompose(frac: nat, mag: nat) -> (r: (nat, nat))
    ensures
        mag == r.0 * pow2(frac) + r.1,
        r.0 == 0 || pow2(frac) <= r.1,
        r.1 < 2 * pow2(frac),
        grid(frac, mag) == r.1 * pow2(r.0),
{
    let h = pow2(frac) as int;
    lemma_pow2_pos(frac);
    lemma2_to64();
    if mag < h {
        assert(0 * h == 0) by (nonlinear_arith);
        assert(mag * 1 == mag);
        (0, mag)
    } else {
        lemma_fundamental_div_mod(mag as int, h);
        let q = mag as int / h;
        assert(q >= 1) by (nonlinear_arith)
            requires
                mag == h * q + (mag as int % h),
                0 <= (mag as int % h) < h,
                mag >= h,
                h > 0,
        ;
        let e = (q - 1) as nat;
        let m = (h + mag as int % h) as nat;
        assert(mag == e * h + m) by (nonlinear_arith)
            requires
                mag == h * q + (mag as int % h),
                e == q - 1,
                m == h + mag as int % h,
        ;
        (e, m)
    }
}

/// The grid is strictly increasing from each pattern to the next.
pub proof fn lemma_grid_step(frac: nat, mag: nat)
    ensures
        grid(frac, mag) < grid(frac, mag + 1),
{
    let (e, m) = lemma_grid_decompose(frac, mag);
    lemma_grid_compose(frac, e, m + 1);
    lemma_pow2_pos(e);
    assert(m * pow2(e) < (m + 1) * pow2(e)) by (nonlinear_arith)
        requires
            pow2(e) > 0,
    ;
}

/// Magnitudes are ordered as the numbers that they stand for.
pub proof fn lemma_grid_monotone(frac: nat, a: nat, b: nat)
    requires
        a <= b,
    ensures
        grid(frac, a) <= grid(frac, b),
        a < b ==> grid(frac, a) < grid(frac, b),
    decreases b - a,
{
    if a < b {
        lemma_grid_monotone(frac, a, (b - 1) as nat);
        lemma_grid_step(frac, (b - 1) as nat);
    }
}

/// No number rounds to two magnitudes.
pub proof fn lemma_rounding_unique(frac: nat, inf: nat, num: nat, den: nat, a: nat, b: nat)
    requires
        den > 0,
        rounds_to(frac, inf, num, den, a),
        rounds_to(frac, inf, num, den, b),
    ensures
        a == b,
{
    lemma_rounding_not_below(frac, inf, num, den, a, b);
    lemma_rounding_not_below(frac, inf, num, den, b, a);
}

proof fn lemma_rounding_not_below(frac: nat, inf: nat, num: nat, den: nat, a: nat, b: nat)
    requires
        den > 0,
        rounds_to(frac, inf, num, den, a),
        rounds_to(frac, inf, num, den, b),
    ensures
        a >= b,
{
    if a < b {
        let lo = grid(frac, a) + grid(frac, a + 1);
        let hi = grid(frac, (b - 1) as nat) + grid(frac, b);
        lemma_grid_monotone(frac, a, (b - 1) as nat);
        lemma_grid_monotone(frac, a + 1, b);
        assert(den * lo <= den * hi) by (nonlinear_arith)
            requires
                lo <= hi,
                den > 0,
        ;
        if a + 1 < b {
            assert(den * lo < den * hi) by (nonlinear_arith)
                requires
                    lo < hi,
                    den > 0,
            ;
        }
    }
}

/// Once one magnitude is known to be the nearest, it is the one that the number rounds to.
pub proof fn lemma_rounded_is(frac: nat, inf: nat, num: nat, den: nat, mag: nat)
    requires
        den > 0,
        rounds_to(frac, inf, num, den, mag),
    ensures
        rounded(frac, inf, num, den) == mag,
{
    lemma_rounding_unique(frac, inf, num, den, rounded(frac, inf, num, den), mag);
}

/// A number that the format holds rounds to itself.
pub proof fn lemma_rounded_exact(frac: nat, inf: nat, mag: nat, num: nat, den: nat)
    requires
        den > 0,
        mag < inf,
        num == grid(frac, mag) * den,
    ensures
        rounded(frac, inf, num, den) == mag,
{
    let g = grid(frac, mag);
    lemma_grid_step(frac, mag);
    let up = g + grid(frac, mag + 1);
    assert(2 * num < den * up) by (nonlinear_arith)
        requires
            num == g * den,
            2 * g < up,
            den > 0,
    ;
    if mag > 0 {
        lemma_grid_step(frac, (mag - 1) as nat);
        let down = grid(frac, (mag - 1) as nat) + g;
        assert(den * down < 2 * num) by (nonlinear_arith)
            requires
                num == g * den,
                down < 2 * g,
                den > 0,
        ;
    }
    lemma_rounded_is(frac, inf, num, den, mag);
}

/// `rounds_to` for a format without a largest number.
pub open spec fn rounds_to_unbounded(frac: nat, num: nat, den: nat, mag: nat) -> bool {
    rounds_to(frac, mag + 1, num, den, mag)
}

/// What lies beyond the largest number goes to infinity.
pub proof fn lemma_clip(frac: nat, inf: nat, num: nat, den: nat, mag: nat)
    requires
        den > 0,
        inf > 0,
        inf % 2 == 0,
        rounds_to_unbounded(frac, num, den, mag),
    ensures
        rounded(frac, inf, num, den) == if mag < inf { mag } else { inf },
        rounds_to(frac, inf, num, den, rounded(frac, inf, num, den)),
{
    if mag < inf {
        lemma_rounded_is(frac, inf, num, den, mag);
    } else {
        let top = grid(frac, (inf - 1) as nat) + grid(frac, inf);
        let mid = grid(frac, (mag - 1) as nat) + grid(frac, mag);
        lemma_grid_monotone(frac, (inf - 1) as nat, (mag - 1) as nat);
        lemma_grid_monotone(frac, inf, mag);
        assert(den * top <= den * mid) by (nonlinear_arith)
            requires
                top <= mid,
        ;
        lemma_rounded_is(frac, inf, num, den, inf);
    }
}

/// The grid rises by at least one unit with each pattern.
proof fn lemma_grid_at_least(frac: nat, mag: nat)
    ensures
        grid(frac, mag) >= mag,
    decreases mag,
{
    if mag > 0 {
        lemma_grid_at_least(frac, (mag - 1) as nat);
        lemma_grid_step(frac, (mag - 1) as nat);
    }
}

/// The pattern on or below `num / den`, searched downwards from `above`.
proof fn lemma_pattern_below(frac: nat, num: nat, den: nat, above: nat) -> (mag: nat)
    requires
        above > 0,
        num < den * grid(frac, above),
    ensures
        den * grid(frac, mag) <= num,
        num < den * grid(frac, mag + 1),
    decreases above,
{
    let below = (above - 1) as nat;
    if den * grid(frac, below) <= num {
        below
    } else {
        if below == 0 {
            lemma_pow2_pos(frac);
            assert(den * 0 == 0);
        }
        lemma_pattern_below(frac, num, den, below)
    }
}

/// Every number rounds to some magnitude.
pub proof fn lemma_rounding_exists(frac: nat, inf: nat, num: nat, den: nat)
    requires
        den > 0,
        inf > 0,
        inf % 2 == 0,
    ensures
        rounds_to(frac, inf, num, den, rounded(frac, inf, num, den)),
        rounded(frac, inf, num, den) <= inf,
{
    lemma_grid_at_least(frac, num + 1);
    let top = grid(frac, num + 1);
    assert(num < den * top) by (nonlinear_arith)
        requires
            top >= num + 1,
            den >= 1,
    ;
    let base = lemma_pattern_below(frac, num, den, num + 1);
    let (lo, hi) = (grid(frac, base), grid(frac, base + 1));
    let up = 2 * num > den * (lo + hi) || (2 * num == den * (lo + hi) && base % 2 == 1);
    let mag = if up { base + 1 } else { base };
    lemma_grid_step(frac, mag);
    if mag > 0 {
        lemma_grid_step(frac, (mag - 1) as nat);
    }
    if up {
        let mid = hi + grid(frac, mag + 1);
        assert(2 * num < den * mid) by (nonlinear_arith)
            requires
                num < den * hi,
                2 * hi < mid,
                den > 0,
        ;
    } else if mag > 0 {
        let mid = grid(frac, (mag - 1) as nat) + lo;
        assert(den * mid < 2 * num) by (nonlinear_arith)
            requires
                den * lo <= num,
                mid < 2 * lo,
                den > 0,
        ;
    }
    assert(rounds_to_unbounded(frac, num, den, mag));
    lemma_clip(frac, inf, num, den, mag);
}

/// Rounding keeps the order of numbers.
pub proof fn lemma_rounding_monotone(
    frac: nat,
    inf: nat,
    num_a: nat,
    den_a: nat,
    num_b: nat,
    den_b: nat,
)
    requires
        den_a > 0,
        den_b > 0,
        inf > 0,
        inf % 2 == 0,
        num_a * den_b <= num_b * den_a,
    ensures
        rounded(frac, inf, num_a, den_a) <= rounded(frac, inf, num_b, den_b),
{
    let a = rounded(frac, inf, num_a, den_a);
    let b = rounded(frac, inf, num_b, den_b);
    lemma_rounding_exists(frac, inf, num_a, den_a);
    lemma_rounding_exists(frac, inf, num_b, den_b);
    if a > b {
        let x = grid(frac, b) + grid(frac, b + 1);
        let y = grid(frac, (a - 1) as nat) + grid(frac, a);
        lemma_grid_monotone(frac, b, (a - 1) as nat);
        lemma_grid_monotone(frac, b + 1, a);
        // The middle above `b` is not below `num_b / den_b`, the middle below `a` not above
        // `num_a / den_a`, so all four numbers coincide.
        assert(den_b * x == 2 * num_b && den_a * y == 2 * num_a && x == y) by (nonlinear_arith)
            requires
                2 * num_b <= den_b * x,
                den_a * y <= 2 * num_a,
                x <= y,
                num_a * den_b <= num_b * den_a,
                den_a > 0,
                den_b > 0,
        ;
        assert(a == b + 1);
    }
}

/// Rounding goes to the nearest number: no other is nearer, and where another is equally near
/// the pattern is even.
pub proof fn rounding_goes_to_the_nearest(frac: nat, inf: nat, num: nat, den: nat, other: nat)
    requires
        den > 0,
        inf > 0,
        inf % 2 == 0,
        other <= inf,
    ensures
        ({
            let near = den * grid(frac, rounded(frac, inf, num, den)) - num;
            let far = den * grid(frac, other) - num;
            let (near, far) = (if near < 0 { -near } else { near }, if far < 0 { -far } else { far });
            &&& near <= far
            &&& near == far && other != rounded(frac, inf, num, den) ==> rounded(
                frac,
                inf,
                num,
                den,
            ) % 2 == 0
        }),
{
    lemma_rounding_exists(frac, inf, num, den);
    let mag = rounded(frac, inf, num, den);
    let (g, o) = (grid(frac, mag) as int, grid(frac, other) as int);
    let d = den as int;
    if other < mag {
        let below = grid(frac, (mag - 1) as nat) as int;
        lemma_grid_monotone(frac, other, (mag - 1) as nat);
        lemma_grid_monotone(frac, (mag - 1) as nat, mag);
        assert(d * (below + g) == d * below + d * g) by (nonlinear_arith);
        assert(d * o <= d * below && d * below < d * g) by (nonlinear_arith)
            requires
                o <= below < g,
                d > 0,
        ;
    } else if other > mag {
        let above = grid(frac, mag + 1) as int;
        lemma_grid_monotone(frac, mag + 1, other);
        lemma_grid_monotone(frac, mag, mag + 1);
        assert(d * (g + above) == d * g + d * above) by (nonlinear_arith);
        assert(d * g < d * above && d * above <= d * o) by (nonlinear_arith)
            requires
                g < above <= o,
                d > 0,
        ;
    }
}

} // verus!
