//! Binary floating-point numbers of any format up to 52 fraction bits, and their arithmetic.
//!
//! Every operation is stated as the exact result on the integers of the grid, rounded once to
//! the nearest number of the format, ties to even.

use crate::grid::{grid, lemma_grid_monotone, rounded};
use crate::round::{brackets, lemma_bracket_halve, round_magnitude, BIAS};
use vstd::arithmetic::power2::{
    lemma2_to64, lemma2_to64_rest, lemma_pow2_adds, lemma_pow2_pos, lemma_pow2_strictly_increases,
    lemma_pow2_unfold, pow2,
};
use vstd::prelude::*;

verus! {

/// A format: the number of fraction bits, the unit as a negative power of two, the power of
/// two that the fraction bits span, and the pattern of infinity.
#[derive(Clone, Copy)]
pub struct Format {
    pub frac: u32,
    pub unit: u32,
    pub hidden: u64,
    pub inf: u64,
}

/// The 32-bit format: 23 fraction bits, smallest positive number `2^-149`.
pub open spec fn spec_single_format() -> Format {
    Format { frac: 23, unit: 149, hidden: 0x80_0000, inf: 0x7F80_0000 }
}

/// The 64-bit format: 52 fraction bits, smallest positive number `2^-1074`.
pub open spec fn spec_double_format() -> Format {
    Format { frac: 52, unit: 1074, hidden: 0x10_0000_0000_0000, inf: 0x7FF0_0000_0000_0000 }
}

#[verifier::when_used_as_spec(spec_single_format)]
pub fn single_format() -> (format: Format)
    ensures
        format == spec_single_format(),
        format.wf(),
{
    proof {
        lemma2_to64();
    }
    Format { frac: 23, unit: 149, hidden: 0x80_0000, inf: 0x7F80_0000 }
}

#[verifier::when_used_as_spec(spec_double_format)]
pub fn double_format() -> (format: Format)
    ensures
        format == spec_double_format(),
        format.wf(),
{
    proof {
        lemma2_to64();
        lemma2_to64_rest();
    }
    Format { frac: 52, unit: 1074, hidden: 0x10_0000_0000_0000, inf: 0x7FF0_0000_0000_0000 }
}

impl Format {
    pub open spec fn wf(self) -> bool {
        &&& 1 <= self.frac <= 52
        &&& self.frac < self.unit <= 1074
        &&& self.hidden == pow2(self.frac as nat)
        &&& self.inf % 2 == 0
        &&& 0 < self.inf <= 2047 * self.hidden
    }

    /// The magnitude that `num / den` units round to.
    pub open spec fn nearest(self, num: nat, den: nat) -> u64 {
        rounded(self.frac as nat, self.inf as nat, num, den) as u64
    }

    /// What a magnitude is worth, in units.
    pub open spec fn units(self, mag: u64) -> nat {
        grid(self.frac as nat, mag as nat)
    }

    pub open spec fn zero(self, neg: bool) -> Float {
        Float { neg, mag: 0 }
    }

    pub open spec fn infinity(self, neg: bool) -> Float {
        Float { neg, mag: self.inf }
    }

    /// The one pattern that stands for every result that is not a number.
    pub open spec fn nan(self) -> Float {
        Float { neg: false, mag: (self.inf + self.hidden / 2) as u64 }
    }
}

/// A number of some format: its sign and its magnitude.
#[derive(Clone, Copy, PartialEq, Eq, Structural, Debug)]
pub struct Float {
    pub neg: bool,
    pub mag: u64,
}

impl Float {
    pub open spec fn is_nan(self, format: Format) -> bool {
        self.mag > format.inf
    }

    pub open spec fn is_infinite(self, format: Format) -> bool {
        self.mag == format.inf
    }

    pub open spec fn is_finite(self, format: Format) -> bool {
        self.mag < format.inf
    }

    /// The number in units, with its sign. Infinity counts as the number that would follow the
    /// largest finite one, which orders it above all of them.
    pub open spec fn value(self, format: Format) -> int {
        if self.neg {
            -(format.units(self.mag) as int)
        } else {
            format.units(self.mag) as int
        }
    }

    /// `self < other`; false where either is not a number.
    pub open spec fn spec_less(self, other: Float, format: Format) -> bool {
        &&& !self.is_nan(format)
        &&& !other.is_nan(format)
        &&& self.value(format) < other.value(format)
    }

    /// `self == other` as numbers: the two zeros are the same, and what is not a number is the
    /// same as nothing, not even itself.
    pub open spec fn spec_same(self, other: Float, format: Format) -> bool {
        &&& !self.is_nan(format)
        &&& !other.is_nan(format)
        &&& self.value(format) == other.value(format)
    }

    pub open spec fn spec_negated(self) -> Float {
        Float { neg: !self.neg, mag: self.mag }
    }

    /// The sum, rounded. A sum of zero is positive unless both summands are negative.
    pub open spec fn spec_plus(self, other: Float, format: Format) -> Float {
        if self.is_nan(format) || other.is_nan(format) {
            format.nan()
        } else if self.is_infinite(format) {
            if other.is_infinite(format) && self.neg != other.neg {
                format.nan()
            } else {
                self
            }
        } else if other.is_infinite(format) {
            other
        } else {
            let sum = self.value(format) + other.value(format);
            if sum == 0 {
                format.zero(self.neg && other.neg)
            } else if sum > 0 {
                Float { neg: false, mag: format.nearest(sum as nat, 1) }
            } else {
                Float { neg: true, mag: format.nearest((-sum) as nat, 1) }
            }
        }
    }

    /// The product, rounded.
    pub open spec fn spec_times(self, other: Float, format: Format) -> Float {
        let neg = self.neg != other.neg;
        if self.is_nan(format) || other.is_nan(format) {
            format.nan()
        } else if self.is_infinite(format) || other.is_infinite(format) {
            if self.mag == 0 || other.mag == 0 {
                format.nan()
            } else {
                format.infinity(neg)
            }
        } else {
            Float {
                neg,
                mag: format.nearest(
                    format.units(self.mag) * format.units(other.mag),
                    pow2(format.unit as nat),
                ),
            }
        }
    }

    /// The quotient, rounded.
    pub open spec fn spec_over(self, other: Float, format: Format) -> Float {
        let neg = self.neg != other.neg;
        if self.is_nan(format) || other.is_nan(format) {
            format.nan()
        } else if self.is_infinite(format) {
            if other.is_infinite(format) {
                format.nan()
            } else {
                format.infinity(neg)
            }
        } else if other.is_infinite(format) {
            format.zero(neg)
        } else if other.mag == 0 {
            if self.mag == 0 {
                format.nan()
            } else {
                format.infinity(neg)
            }
        } else {
            Float {
                neg,
                mag: format.nearest(
                    format.units(self.mag) * pow2(format.unit as nat),
                    format.units(other.mag),
                ),
            }
        }
    }

    /// The number of another format nearest to this one.
    pub open spec fn spec_converted(self, from: Format, to: Format) -> Float {
        if self.is_nan(from) {
            to.nan()
        } else if self.is_infinite(from) {
            to.infinity(self.neg)
        } else {
            Float {
                neg: self.neg,
                mag: to.nearest(
                    from.units(self.mag) * pow2(to.unit as nat),
                    pow2(from.unit as nat),
                ),
            }
        }
    }
}

/// The whole number `n` in a format.
pub open spec fn spec_from_integer(n: int, format: Format) -> Float {
    Float {
        neg: n < 0,
        mag: format.nearest((if n < 0 { -n } else { n }) as nat * pow2(format.unit as nat), 1),
    }
}

proof fn lemma_format_bounds(format: Format)
    requires
        format.wf(),
    ensures
        2 <= format.hidden <= 0x10_0000_0000_0000,
        format.inf <= 0x7FF0_0000_0000_0000,
        format.inf + format.hidden / 2 < 0x8000_0000_0000_0000,
{
    lemma2_to64();
    lemma2_to64_rest();
    let f = format.frac as nat;
    if f < 52 {
        lemma_pow2_strictly_increases(f, 52);
    }
    if f > 1 {
        lemma_pow2_strictly_increases(1, f);
    }
}

/// The significand and the exponent of a finite magnitude.
pub(crate) fn decode(format: &Format, mag: u64) -> (parts: (u64, u32))
    requires
        format.wf(),
        mag < format.inf,
    ensures
        format.units(mag) == parts.0 * pow2(parts.1 as nat),
        parts.0 < 2 * format.hidden,
        parts.1 == 0 || parts.0 >= format.hidden,
        parts.1 <= 2046,
        parts.1 == 0 ==> format.units(mag) == parts.0,
        parts.0 == 0 <==> mag == 0,
        mag == parts.1 * format.hidden + parts.0,
{
    proof {
        lemma_format_bounds(*format);
        lemma2_to64();
    }
    if mag < format.hidden {
        assert(mag * pow2(0) == mag);
        (mag, 0)
    } else {
        let q: u64 = mag / format.hidden;
        let r: u64 = mag % format.hidden;
        assert(1 <= q <= 2046) by (nonlinear_arith)
            requires
                q == mag / format.hidden,
                format.hidden <= mag < 2047 * format.hidden,
                format.hidden > 0,
        ;
        assert(mag == (q - 1) * format.hidden + (format.hidden + r)) by (nonlinear_arith)
            requires
                q == mag / format.hidden,
                r == mag % format.hidden,
                format.hidden > 0,
        ;
        assert((q - 1) as u32 == q - 1);
        proof {
            if q == 1 {
                assert((format.hidden + r) * pow2(0) == format.hidden + r);
            }
        }
        (format.hidden + r, (q - 1) as u32)
    }
}

/// Moves `m` to the right by `places` bits and notes whether a bit was lost.
pub(crate) fn shift_right(m: u128, places: u32) -> (shifted: (u128, bool))
    ensures
        brackets(shifted.0 as nat, places as nat, shifted.1, m as nat, 1),
        shifted.0 <= m,
{
    let mut q: u128 = m;
    let mut sticky: bool = false;
    let mut done: u32 = 0;
    proof {
        lemma2_to64();
        assert(m * pow2(0) * 1 == m);
        assert((m + 1) * pow2(0) * 1 == m + 1);
    }
    while done < places
        invariant
            done <= places,
            q <= m,
            brackets(q as nat, done as nat, sticky, m as nat, 1),
        decreases places - done,
    {
        proof {
            lemma_bracket_halve(q as nat, done as nat, sticky, m as nat, 1);
        }
        sticky = sticky || q % 2 == 1;
        q = q / 2;
        done = done + 1;
    }
    (q, sticky)
}

/// A bracket keeps its significand when quotient and interval are scaled alike.
proof fn lemma_bracket_scale(sig: nat, k: nat, sticky: bool, num: nat, den: nat, by: nat)
    requires
        brackets(sig, k, sticky, num, den),
    ensures
        brackets(sig, k + by, sticky, num * pow2(by), den),
{
    lemma_pow2_adds(k, by);
    lemma_pow2_pos(by);
    let p = pow2(by);
    assert(sig * pow2(k + by) * den == (sig * pow2(k) * den) * p) by (nonlinear_arith)
        requires
            pow2(k + by) == pow2(k) * p,
    ;
    assert((sig + 1) * pow2(k + by) * den == ((sig + 1) * pow2(k) * den) * p) by (nonlinear_arith)
        requires
            pow2(k + by) == pow2(k) * p,
    ;
    let lo = sig * pow2(k) * den;
    let hi = (sig + 1) * pow2(k) * den;
    assert(lo * p <= num * p) by (nonlinear_arith)
        requires
            lo <= num,
    ;
    assert(num * p < hi * p) by (nonlinear_arith)
        requires
            num < hi,
            p > 0,
    ;
    assert(num != lo ==> num * p != lo * p) by (nonlinear_arith)
        requires
            p > 0,
    ;
}

/// An integer brackets itself.
proof fn lemma_bracket_exact(sig: nat, k: nat, num: nat, den: nat)
    requires
        den > 0,
        num == sig * pow2(k) * den,
    ensures
        brackets(sig, k, false, num, den),
{
    lemma_pow2_pos(k);
    assert(sig * pow2(k) * den < (sig + 1) * pow2(k) * den) by (nonlinear_arith)
        requires
            pow2(k) > 0,
            den > 0,
    ;
}

/// The sum of two magnitudes, rounded; `x` is the larger.
fn sum_magnitude(format: &Format, x: u64, y: u64) -> (mag: u64)
    requires
        format.wf(),
        y <= x < format.inf,
    ensures
        mag as nat == rounded(
            format.frac as nat,
            format.inf as nat,
            format.units(x) + format.units(y),
            1,
        ),
        mag <= format.inf,
{
    let (mx, ex) = decode(format, x);
    let (my, ey) = decode(format, y);
    let ghost num: nat = format.units(x) + format.units(y);
    proof {
        lemma_format_bounds(*format);
        lemma_exponents_ordered(*format, x, mx, ex, y, my, ey);
        lemma2_to64();
        lemma2_to64_rest();
    }
    let diff: u32 = ex - ey;
    if diff <= 64 {
        let scale: u128 = power_of_two(diff);
        assert(mx * scale <= 0x20_0000_0000_0000 * 0x1_0000_0000_0000_0000) by (nonlinear_arith)
            requires
                0 <= mx <= 0x20_0000_0000_0000,
                0 <= scale <= 0x1_0000_0000_0000_0000,
        ;
        let sig: u128 = mx as u128 * scale + my as u128;
        proof {
            lemma_pow2_adds(diff as nat, ey as nat);
            let p = pow2(ey as nat);
            assert(num == sig * p * 1) by (nonlinear_arith)
                requires
                    num == mx * pow2(ex as nat) + my * p,
                    pow2(ex as nat) == scale * p,
                    sig == mx * scale + my,
            ;
            lemma_bracket_exact(sig as nat, ey as nat, num, 1);
            lemma_bracket_scale(sig as nat, ey as nat, false, num, 1, BIAS as nat);
        }
        round_magnitude(
            sig,
            ey + BIAS,
            false,
            format.hidden,
            format.inf,
            Ghost(format.frac as nat),
            Ghost(num),
            Ghost(1),
        )
    } else {
        let (q, sticky) = shift_right(my as u128, diff - 64);
        let sig: u128 = mx as u128 * 0x1_0000_0000_0000_0000 + q;
        proof {
            lemma_far_operand(my as nat, q as nat, sticky, ex as nat, ey as nat);
            let u = pow2((ex - 64) as nat);
            lemma_pow2_adds(64, (ex - 64) as nat);
            assert(sig * u * 1 == mx * pow2(ex as nat) + q * u) by (nonlinear_arith)
                requires
                    pow2(ex as nat) == 0x1_0000_0000_0000_0000 * u,
                    sig == mx * 0x1_0000_0000_0000_0000 + q,
            ;
            assert((sig + 1) * u * 1 == mx * pow2(ex as nat) + (q + 1) * u) by (nonlinear_arith)
                requires
                    pow2(ex as nat) == 0x1_0000_0000_0000_0000 * u,
                    sig == mx * 0x1_0000_0000_0000_0000 + q,
            ;
            assert(brackets(sig as nat, (ex - 64) as nat, sticky, num, 1));
            lemma_bracket_scale(sig as nat, (ex - 64) as nat, sticky, num, 1, BIAS as nat);
        }
        round_magnitude(
            sig,
            ex - 64 + BIAS,
            sticky,
            format.hidden,
            format.inf,
            Ghost(format.frac as nat),
            Ghost(num),
            Ghost(1),
        )
    }
}

/// The difference of two magnitudes, rounded; `x` is the larger.
fn difference_magnitude(format: &Format, x: u64, y: u64) -> (mag: u64)
    requires
        format.wf(),
        y <= x < format.inf,
    ensures
        format.units(x) >= format.units(y),
        mag as nat == rounded(
            format.frac as nat,
            format.inf as nat,
            (format.units(x) - format.units(y)) as nat,
            1,
        ),
        mag <= format.inf,
{
    let (mx, ex) = decode(format, x);
    let (my, ey) = decode(format, y);
    proof {
        lemma_grid_monotone(format.frac as nat, y as nat, x as nat);
    }
    let ghost num: nat = (format.units(x) - format.units(y)) as nat;
    proof {
        lemma_format_bounds(*format);
        lemma_exponents_ordered(*format, x, mx, ex, y, my, ey);
        lemma2_to64();
        lemma2_to64_rest();
    }
    let diff: u32 = ex - ey;
    if diff <= 64 {
        let scale: u128 = power_of_two(diff);
        assert(mx * scale <= 0x20_0000_0000_0000 * 0x1_0000_0000_0000_0000) by (nonlinear_arith)
            requires
                0 <= mx <= 0x20_0000_0000_0000,
                0 <= scale <= 0x1_0000_0000_0000_0000,
        ;
        proof {
            lemma_pow2_adds(diff as nat, ey as nat);
            let p = pow2(ey as nat);
            lemma_pow2_pos(ey as nat);
            assert(mx * scale >= my) by (nonlinear_arith)
                requires
                    mx * pow2(ex as nat) >= my * p,
                    pow2(ex as nat) == scale * p,
                    p > 0,
            ;
        }
        let sig: u128 = mx as u128 * scale - my as u128;
        proof {
            let p = pow2(ey as nat);
            assert(num == sig * p * 1) by (nonlinear_arith)
                requires
                    num == mx * pow2(ex as nat) - my * p,
                    pow2(ex as nat) == scale * p,
                    sig == mx * scale - my,
            ;
            lemma_bracket_exact(sig as nat, ey as nat, num, 1);
            lemma_bracket_scale(sig as nat, ey as nat, false, num, 1, BIAS as nat);
        }
        round_magnitude(
            sig,
            ey + BIAS,
            false,
            format.hidden,
            format.inf,
            Ghost(format.frac as nat),
            Ghost(num),
            Ghost(1),
        )
    } else {
        let (q, sticky) = shift_right(my as u128, diff - 64);
        let lost: u128 = if sticky {
            1
        } else {
            0
        };
        let sig: u128 = mx as u128 * 0x1_0000_0000_0000_0000 - q - lost;
        proof {
            lemma_far_operand(my as nat, q as nat, sticky, ex as nat, ey as nat);
            let u = pow2((ex - 64) as nat);
            lemma_pow2_adds(64, (ex - 64) as nat);
            assert(sig * u * 1 == mx * pow2(ex as nat) - (q + lost) * u) by (nonlinear_arith)
                requires
                    pow2(ex as nat) == 0x1_0000_0000_0000_0000 * u,
                    sig == mx * 0x1_0000_0000_0000_0000 - q - lost,
            ;
            assert((sig + 1) * u * 1 == mx * pow2(ex as nat) - (q + lost) * u + u)
                by (nonlinear_arith)
                requires
                    pow2(ex as nat) == 0x1_0000_0000_0000_0000 * u,
                    sig == mx * 0x1_0000_0000_0000_0000 - q - lost,
            ;
            assert((q + 1) * u == q * u + u) by (nonlinear_arith);
            assert(brackets(sig as nat, (ex - 64) as nat, sticky, num, 1));
            lemma_bracket_scale(sig as nat, (ex - 64) as nat, sticky, num, 1, BIAS as nat);
        }
        round_magnitude(
            sig,
            ex - 64 + BIAS,
            sticky,
            format.hidden,
            format.inf,
            Ghost(format.frac as nat),
            Ghost(num),
            Ghost(1),
        )
    }
}

/// The larger of two magnitudes has the larger exponent.
proof fn lemma_exponents_ordered(
    format: Format,
    x: u64,
    mx: u64,
    ex: u32,
    y: u64,
    my: u64,
    ey: u32,
)
    requires
        format.wf(),
        y <= x,
        x == ex * format.hidden + mx,
        y == ey * format.hidden + my,
        mx < 2 * format.hidden,
        ey == 0 || my >= format.hidden,
    ensures
        ey <= ex,
{
    if ey > ex {
        assert((ey - ex) * format.hidden >= format.hidden) by (nonlinear_arith)
            requires
                ey - ex >= 1,
                format.hidden >= 0,
        ;
        assert(ey * format.hidden == ex * format.hidden + (ey - ex) * format.hidden)
            by (nonlinear_arith);
    }
}

/// An operand more than 64 binary places below the other one, seen from 64 places below it.
proof fn lemma_far_operand(my: nat, q: nat, sticky: bool, ex: nat, ey: nat)
    requires
        ex > ey + 64,
        brackets(q, (ex - ey - 64) as nat, sticky, my, 1),
    ensures
        q * pow2((ex - 64) as nat) <= my * pow2(ey),
        my * pow2(ey) < (q + 1) * pow2((ex - 64) as nat),
        sticky <==> my * pow2(ey) != q * pow2((ex - 64) as nat),
{
    lemma_bracket_scale(q, (ex - ey - 64) as nat, sticky, my, 1, ey);
    assert(q * pow2((ex - 64) as nat) * 1 == q * pow2((ex - 64) as nat));
    assert((q + 1) * pow2((ex - 64) as nat) * 1 == (q + 1) * pow2((ex - 64) as nat));
}

/// `2^e`.
fn power_of_two(e: u32) -> (p: u128)
    requires
        e <= 64,
    ensures
        p == pow2(e as nat),
        p <= 0x1_0000_0000_0000_0000,
{
    let mut p: u128 = 1;
    let mut i: u32 = 0;
    proof {
        lemma2_to64();
    }
    while i < e
        invariant
            i <= e <= 64,
            p == pow2(i as nat),
            p <= 0x1_0000_0000_0000_0000,
        decreases e - i,
    {
        proof {
            lemma_pow2_unfold((i + 1) as nat);
            lemma2_to64();
            if i + 1 < 64 {
                lemma_pow2_strictly_increases((i + 1) as nat, 64);
            }
        }
        p = p * 2;
        i = i + 1;
    }
    p
}

impl Float {
    /// `self < other`, as the numbers compare.
    pub fn less(self, other: Float, format: &Format) -> (less: bool)
        requires
            format.wf(),
        ensures
            less == self.spec_less(other, *format),
    {
        if self.mag > format.inf || other.mag > format.inf {
            return false;
        }
        proof {
            let f = format.frac as nat;
            let (a, b) = (self.mag as nat, other.mag as nat);
            lemma_pow2_pos(f);
            lemma_grid_monotone(f, 0, a);
            lemma_grid_monotone(f, 0, b);
            if a <= b {
                lemma_grid_monotone(f, a, b);
            } else {
                lemma_grid_monotone(f, b, a);
            }
        }
        if self.neg {
            if other.neg {
                other.mag < self.mag
            } else {
                self.mag > 0 || other.mag > 0
            }
        } else {
            !other.neg && self.mag < other.mag
        }
    }

    /// `self == other`, as the numbers compare.
    pub fn same(self, other: Float, format: &Format) -> (same: bool)
        ensures
            same == self.spec_same(other, *format),
    {
        if self.mag > format.inf || other.mag > format.inf {
            return false;
        }
        proof {
            let f = format.frac as nat;
            let (a, b) = (self.mag as nat, other.mag as nat);
            lemma_pow2_pos(f);
            lemma_grid_monotone(f, 0, a);
            lemma_grid_monotone(f, 0, b);
            if a <= b {
                lemma_grid_monotone(f, a, b);
            } else {
                lemma_grid_monotone(f, b, a);
            }
        }
        self.mag == other.mag && (self.neg == other.neg || self.mag == 0)
    }

    pub fn plus(self, other: Float, format: &Format) -> (sum: Float)
        requires
            format.wf(),
        ensures
            sum == self.spec_plus(other, *format),
            sum.mag <= format.inf || sum == format.nan(),
    {
        proof {
            lemma_format_bounds(*format);
            lemma_pow2_pos(format.frac as nat);
        }
        if self.mag > format.inf || other.mag > format.inf {
            return nan(format);
        }
        if self.mag == format.inf {
            if other.mag == format.inf && self.neg != other.neg {
                return nan(format);
            }
            return self;
        }
        if other.mag == format.inf {
            return other;
        }
        proof {
            let f = format.frac as nat;
            lemma_grid_monotone(f, 0, self.mag as nat);
            lemma_grid_monotone(f, 0, other.mag as nat);
            if self.mag <= other.mag {
                lemma_grid_monotone(f, self.mag as nat, other.mag as nat);
            } else {
                lemma_grid_monotone(f, other.mag as nat, self.mag as nat);
            }
        }
        if self.neg == other.neg {
            if self.mag == 0 && other.mag == 0 {
                return self;
            }
            let mag: u64 = if self.mag >= other.mag {
                sum_magnitude(format, self.mag, other.mag)
            } else {
                sum_magnitude(format, other.mag, self.mag)
            };
            Float { neg: self.neg, mag }
        } else if self.mag == other.mag {
            Float { neg: false, mag: 0 }
        } else if self.mag > other.mag {
            Float { neg: self.neg, mag: difference_magnitude(format, self.mag, other.mag) }
        } else {
            Float { neg: other.neg, mag: difference_magnitude(format, other.mag, self.mag) }
        }
    }

    pub fn times(self, other: Float, format: &Format) -> (product: Float)
        requires
            format.wf(),
        ensures
            product == self.spec_times(other, *format),
            product.mag <= format.inf || product == format.nan(),
    {
        proof {
            lemma_format_bounds(*format);
        }
        let neg: bool = self.neg != other.neg;
        if self.mag > format.inf || other.mag > format.inf {
            return nan(format);
        }
        if self.mag == format.inf || other.mag == format.inf {
            if self.mag == 0 || other.mag == 0 {
                return nan(format);
            }
            return Float { neg, mag: format.inf };
        }
        let (ma, ea) = decode(format, self.mag);
        let (mb, eb) = decode(format, other.mag);
        assert(ma * mb <= 0x20_0000_0000_0000 * 0x20_0000_0000_0000) by (nonlinear_arith)
            requires
                0 <= ma <= 0x20_0000_0000_0000,
                0 <= mb <= 0x20_0000_0000_0000,
        ;
        let sig: u128 = ma as u128 * mb as u128;
        let k: u32 = ea + eb + BIAS - format.unit;
        let ghost num: nat = format.units(self.mag) * format.units(other.mag);
        let ghost den: nat = pow2(format.unit as nat);
        proof {
            lemma_pow2_pos(format.unit as nat);
            lemma_pow2_adds(ea as nat, eb as nat);
            lemma_pow2_adds(k as nat, format.unit as nat);
            lemma_pow2_adds((ea + eb) as nat, BIAS as nat);
            let (pa, pb) = (pow2(ea as nat), pow2(eb as nat));
            assert(num * pow2(BIAS as nat) == sig * pow2(k as nat) * den) by (nonlinear_arith)
                requires
                    num == (ma * pa) * (mb * pb),
                    sig == ma * mb,
                    pow2(k as nat) * den == (pa * pb) * pow2(BIAS as nat),
            ;
            lemma_bracket_exact(sig as nat, k as nat, num * pow2(BIAS as nat), den);
        }
        let mag: u64 = round_magnitude(
            sig,
            k,
            false,
            format.hidden,
            format.inf,
            Ghost(format.frac as nat),
            Ghost(num),
            Ghost(den),
        );
        Float { neg, mag }
    }

    pub fn converted(self, from: &Format, to: &Format) -> (result: Float)
        requires
            from.wf(),
            to.wf(),
        ensures
            result == self.spec_converted(*from, *to),
            result.mag <= to.inf || result == to.nan(),
    {
        proof {
            lemma_format_bounds(*from);
            lemma_format_bounds(*to);
        }
        if self.mag > from.inf {
            return nan(to);
        }
        if self.mag == from.inf {
            return Float { neg: self.neg, mag: to.inf };
        }
        let (m, e) = decode(from, self.mag);
        let k: u32 = e + to.unit + BIAS - from.unit;
        let ghost num: nat = from.units(self.mag) * pow2(to.unit as nat);
        let ghost den: nat = pow2(from.unit as nat);
        proof {
            lemma_pow2_pos(from.unit as nat);
            lemma_pow2_adds(e as nat, to.unit as nat);
            lemma_pow2_adds((e + to.unit) as nat, BIAS as nat);
            lemma_pow2_adds(k as nat, from.unit as nat);
            let (pe, pt) = (pow2(e as nat), pow2(to.unit as nat));
            assert(num * pow2(BIAS as nat) == m * pow2(k as nat) * den) by (nonlinear_arith)
                requires
                    num == (m * pe) * pt,
                    pow2(k as nat) * den == (pe * pt) * pow2(BIAS as nat),
            ;
            lemma_bracket_exact(m as nat, k as nat, num * pow2(BIAS as nat), den);
        }
        let mag: u64 = round_magnitude(
            m as u128,
            k,
            false,
            to.hidden,
            to.inf,
            Ghost(to.frac as nat),
            Ghost(num),
            Ghost(den),
        );
        Float { neg: self.neg, mag }
    }

    pub fn over(self, other: Float, format: &Format) -> (quotient: Float)
        requires
            format.wf(),
        ensures
            quotient == self.spec_over(other, *format),
            quotient.mag <= format.inf || quotient == format.nan(),
    {
        proof {
            lemma_format_bounds(*format);
        }
        let neg: bool = self.neg != other.neg;
        if self.mag > format.inf || other.mag > format.inf {
            return nan(format);
        }
        if self.mag == format.inf {
            if other.mag == format.inf {
                return nan(format);
            }
            return Float { neg, mag: format.inf };
        }
        if other.mag == format.inf {
            return Float { neg, mag: 0 };
        }
        if other.mag == 0 {
            if self.mag == 0 {
                return nan(format);
            }
            return Float { neg, mag: format.inf };
        }
        Float { neg, mag: quotient_magnitude(format, self.mag, other.mag) }
    }
}

/// The quotient of two magnitudes, rounded.
fn quotient_magnitude(format: &Format, x: u64, y: u64) -> (mag: u64)
    requires
        format.wf(),
        x < format.inf,
        0 < y < format.inf,
    ensures
        mag as nat == rounded(
            format.frac as nat,
            format.inf as nat,
            format.units(x) * pow2(format.unit as nat),
            format.units(y),
        ),
        mag <= format.inf,
{
    let (mx, ex) = decode(format, x);
    let (my, ey) = decode(format, y);
    let ghost num: nat = format.units(x) * pow2(format.unit as nat);
    let ghost den: nat = format.units(y);
    proof {
        lemma_format_bounds(*format);
        lemma_pow2_pos(ey as nat);
        assert(den > 0) by (nonlinear_arith)
            requires
                den == my * pow2(ey as nat),
                my > 0,
                pow2(ey as nat) > 0,
        ;
    }
    if mx == 0 {
        proof {
            assert(num == 0) by (nonlinear_arith)
                requires
                    num == (mx * pow2(ex as nat)) * pow2(format.unit as nat),
                    mx == 0,
            ;
            assert(0 * pow2(BIAS as nat) * den == 0) by (nonlinear_arith);
            assert(num * pow2(BIAS as nat) == 0) by (nonlinear_arith)
                requires
                    num == 0,
            ;
            lemma_bracket_exact(0, BIAS as nat, num * pow2(BIAS as nat), den);
        }
        return round_magnitude(
            0,
            BIAS,
            false,
            format.hidden,
            format.inf,
            Ghost(format.frac as nat),
            Ghost(num),
            Ghost(den),
        );
    }
    let (man, moved) = normalized(format, mx);
    assert(man * 0x100_0000_0000_0000 < 0x20_0000_0000_0000 * 0x100_0000_0000_0000)
        by (nonlinear_arith)
        requires
            0 <= man < 0x20_0000_0000_0000,
    ;
    let top: u128 = man as u128 * 0x100_0000_0000_0000;
    let sig: u128 = top / my as u128;
    let sticky: bool = top % my as u128 != 0;
    let k: u32 = ex + format.unit + BIAS - moved - ey - 56;
    proof {
        assert(my * sig <= top && top < my * (sig + 1) && (sticky <==> top != my * sig))
            by (nonlinear_arith)
            requires
                sig == top / my as u128,
                sticky == (top % my as u128 != 0),
                my > 0,
        ;
        assert(sig >= 2 * format.hidden) by (nonlinear_arith)
            requires
                top < my * (sig + 1),
                top == man * 0x100_0000_0000_0000,
                man >= format.hidden,
                0 < my < 2 * format.hidden,
                0 < format.hidden <= 0x10_0000_0000_0000,
                sig >= 0,
        ;
        assert(sig <= top) by (nonlinear_arith)
            requires
                my * sig <= top,
                my >= 1,
                sig >= 0,
        ;
        lemma_quotient_bracket(
            mx as nat,
            ex as nat,
            my as nat,
            ey as nat,
            man as nat,
            moved as nat,
            sig as nat,
            sticky,
            k as nat,
            format.unit as nat,
        );
    }
    round_magnitude(
        sig,
        k,
        sticky,
        format.hidden,
        format.inf,
        Ghost(format.frac as nat),
        Ghost(num),
        Ghost(den),
    )
}

/// Doubles a significand until its leading bit is set, and counts the doublings.
fn normalized(format: &Format, m: u64) -> (result: (u64, u32))
    requires
        format.wf(),
        0 < m < 2 * format.hidden,
    ensures
        result.0 == m * pow2(result.1 as nat),
        format.hidden <= result.0 < 2 * format.hidden,
        result.1 <= 52,
{
    proof {
        lemma_format_bounds(*format);
        lemma2_to64();
    }
    let mut man: u64 = m;
    let mut moved: u32 = 0;
    while man < format.hidden
        invariant
            format.wf(),
            0 < m,
            0 < man < 2 * format.hidden,
            format.hidden <= 0x10_0000_0000_0000,
            man == m * pow2(moved as nat),
            moved <= 52,
            moved > 0 ==> pow2(moved as nat) < 2 * format.hidden,
        decreases 2 * format.hidden - man,
    {
        proof {
            lemma_pow2_unfold((moved + 1) as nat);
            lemma2_to64();
            lemma2_to64_rest();
            assert(m * pow2((moved + 1) as nat) == 2 * man) by (nonlinear_arith)
                requires
                    man == m * pow2(moved as nat),
                    pow2((moved + 1) as nat) == 2 * pow2(moved as nat),
            ;
            assert(pow2((moved + 1) as nat) <= 2 * man) by (nonlinear_arith)
                requires
                    man == m * pow2(moved as nat),
                    pow2((moved + 1) as nat) == 2 * pow2(moved as nat),
                    m >= 1,
            ;
            if moved + 1 > 52 {
                if moved + 1 > 53 {
                    lemma_pow2_strictly_increases(53, (moved + 1) as nat);
                }
            }
        }
        man = man * 2;
        moved = moved + 1;
    }
    (man, moved)
}

proof fn lemma_quotient_bracket(
    mx: nat,
    ex: nat,
    my: nat,
    ey: nat,
    man: nat,
    moved: nat,
    sig: nat,
    sticky: bool,
    k: nat,
    unit: nat,
)
    requires
        man == mx * pow2(moved),
        my * sig <= man * 0x100_0000_0000_0000,
        man * 0x100_0000_0000_0000 < my * (sig + 1),
        sticky <==> man * 0x100_0000_0000_0000 != my * sig,
        k + moved + ey + 56 == ex + unit + BIAS,
    ensures
        brackets(
            sig,
            k,
            sticky,
            (mx * pow2(ex)) * pow2(unit) * pow2(BIAS as nat),
            my * pow2(ey),
        ),
{
    // Both sides are multiplied by `2^moved * 2^56`, which brings the scaled numerator to
    // `man * 2^56` times one common power of two.
    let scaled = (mx * pow2(ex)) * pow2(unit) * pow2(BIAS as nat);
    let den = my * pow2(ey);
    let (pk, pm, py) = (pow2(k), pow2(moved), pow2(ey));
    let p56 = 0x100_0000_0000_0000nat;
    lemma2_to64_rest();
    lemma_pow2_adds(ex, unit);
    lemma_pow2_adds(ex + unit, BIAS as nat);
    lemma_pow2_adds(k, moved);
    lemma_pow2_adds(k + moved, ey);
    lemma_pow2_adds(k + moved + ey, 56);
    let all = pow2(ex + unit + BIAS as nat);
    assert(all == pk * pm * py * p56);
    assert(scaled == mx * all) by (nonlinear_arith)
        requires
            scaled == (mx * pow2(ex)) * pow2(unit) * pow2(BIAS as nat),
            all == pow2(ex) * pow2(unit) * pow2(BIAS as nat),
    ;
    let common = pk * py;
    assert(scaled == (man * p56) * common) by (nonlinear_arith)
        requires
            scaled == mx * all,
            all == pk * pm * py * p56,
            man == mx * pm,
            common == pk * py,
    ;
    assert(sig * pk * den == (my * sig) * common) by (nonlinear_arith)
        requires
            den == my * py,
            common == pk * py,
    ;
    assert((sig + 1) * pk * den == (my * (sig + 1)) * common) by (nonlinear_arith)
        requires
            den == my * py,
            common == pk * py,
    ;
    lemma_pow2_pos(k);
    lemma_pow2_pos(ey);
    let (a, b, c) = (my * sig, man * p56, my * (sig + 1));
    assert(common > 0) by (nonlinear_arith)
        requires
            common == pk * py,
            pk > 0,
            py > 0,
    ;
    assert(a * common <= b * common) by (nonlinear_arith)
        requires
            a <= b,
    ;
    assert(b * common < c * common) by (nonlinear_arith)
        requires
            b < c,
            common > 0,
    ;
    assert(b != a ==> b * common != a * common) by (nonlinear_arith)
        requires
            common > 0,
    ;
}

/// The pattern that stands for every result that is not a number.
fn nan(format: &Format) -> (result: Float)
    requires
        format.wf(),
    ensures
        result == format.nan(),
{
    proof {
        lemma_format_bounds(*format);
    }
    Float { neg: false, mag: format.inf + format.hidden / 2 }
}

/// The whole number `n` in a format.
pub fn from_integer(n: i64, format: &Format) -> (result: Float)
    requires
        format.wf(),
    ensures
        result == spec_from_integer(n as int, *format),
        result.mag <= format.inf,
{
    let size: u128 = if n < 0 {
        (-(n as i128)) as u128
    } else {
        n as u128
    };
    let ghost num: nat = size as nat * pow2(format.unit as nat);
    proof {
        lemma_format_bounds(*format);
        lemma_pow2_adds(format.unit as nat, BIAS as nat);
        assert(num * pow2(BIAS as nat) == size * pow2((format.unit + BIAS) as nat) * 1)
            by (nonlinear_arith)
            requires
                num == size * pow2(format.unit as nat),
                pow2((format.unit + BIAS) as nat) == pow2(format.unit as nat) * pow2(BIAS as nat),
        ;
        lemma_bracket_exact(
            size as nat,
            (format.unit + BIAS) as nat,
            num * pow2(BIAS as nat),
            1,
        );
    }
    let mag: u64 = round_magnitude(
        size,
        format.unit + BIAS,
        false,
        format.hidden,
        format.inf,
        Ghost(format.frac as nat),
        Ghost(num),
        Ghost(1),
    );
    Float { neg: n < 0, mag }
}

} // verus!
