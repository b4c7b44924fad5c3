//! How the arithmetic keeps the order of numbers.

use crate::float::{spec_double_format, spec_from_integer, spec_single_format, Float, Format};
use crate::grid::{
    grid, lemma_grid_monotone, lemma_rounded_exact, lemma_rounding_monotone, rounded,
};
use crate::number::{Double, Single};
use crate::ranges::{
    lemma_converted, lemma_double_constants, lemma_double_packed, lemma_formats, lemma_nearest,
    lemma_quotient, lemma_single_constants, lemma_single_from_integer, lemma_single_packed,
    lemma_sum, lemma_widened_exact,
};
use vstd::arithmetic::power2::{lemma_pow2_pos, pow2};
use vstd::prelude::*;
use vstd::std_specs::cmp::PartialEqSpec;

verus! {

/// The number of a format nearest to `num / den` units, in units and with its sign.
pub open spec fn signed_nearest(format: Format, num: int, den: nat) -> int {
    if num < 0 {
        -(format.units(format.nearest((-num) as nat, den)) as int)
    } else {
        format.units(format.nearest(num as nat, den)) as int
    }
}

/// Zero is a number of every format.
pub proof fn lemma_nearest_zero(format: Format, den: nat)
    requires
        format.wf(),
        den > 0,
    ensures
        format.nearest(0, den) == 0,
        format.units(0) == 0,
{
    lemma_pow2_pos(format.frac as nat);
    assert(grid(format.frac as nat, 0) * den == 0) by (nonlinear_arith)
        requires
            grid(format.frac as nat, 0) == 0,
    ;
    lemma_rounded_exact(format.frac as nat, format.inf as nat, 0, 0, den);
}

/// Rounding keeps the order of numbers of either sign.
pub proof fn lemma_signed_nearest_monotone(
    format: Format,
    num_a: int,
    den_a: nat,
    num_b: int,
    den_b: nat,
)
    requires
        format.wf(),
        den_a > 0,
        den_b > 0,
        num_a * den_b <= num_b * den_a,
    ensures
        signed_nearest(format, num_a, den_a) <= signed_nearest(format, num_b, den_b),
{
    let f = format.frac as nat;
    let inf = format.inf as nat;
    if num_a >= 0 {
        assert(num_b >= 0) by (nonlinear_arith)
            requires
                num_a >= 0,
                num_a * den_b <= num_b * den_a,
                den_a > 0,
                den_b > 0,
        ;
        lemma_rounding_monotone(f, inf, num_a as nat, den_a, num_b as nat, den_b);
        lemma_nearest(format, num_a as nat, den_a);
        lemma_nearest(format, num_b as nat, den_b);
        lemma_grid_monotone(
            f,
            rounded(f, inf, num_a as nat, den_a),
            rounded(f, inf, num_b as nat, den_b),
        );
    } else if num_b < 0 {
        assert((-num_b) * den_a <= (-num_a) * den_b) by (nonlinear_arith)
            requires
                num_a * den_b <= num_b * den_a,
        ;
        lemma_rounding_monotone(f, inf, (-num_b) as nat, den_b, (-num_a) as nat, den_a);
        lemma_nearest(format, (-num_a) as nat, den_a);
        lemma_nearest(format, (-num_b) as nat, den_b);
        lemma_grid_monotone(
            f,
            rounded(f, inf, (-num_b) as nat, den_b),
            rounded(f, inf, (-num_a) as nat, den_a),
        );
    }
}

/// The value of a finite sum.
pub proof fn lemma_sum_value(a: Float, b: Float, format: Format)
    requires
        format.wf(),
        a.is_finite(format),
        b.is_finite(format),
    ensures
        a.spec_plus(b, format).value(format) == signed_nearest(
            format,
            a.value(format) + b.value(format),
            1,
        ),
{
    lemma_nearest_zero(format, 1);
}

/// The value of a quotient by a positive number.
pub proof fn lemma_quotient_value(a: Float, b: Float, format: Format)
    requires
        format.wf(),
        a.is_finite(format),
        b.is_finite(format),
        !b.neg,
        b.mag > 0,
    ensures
        format.units(b.mag) > 0,
        a.spec_over(b, format).value(format) == signed_nearest(
            format,
            a.value(format) * pow2(format.unit as nat),
            format.units(b.mag),
        ),
{
    let units = format.units(a.mag);
    let p = pow2(format.unit as nat);
    lemma_pow2_pos(format.unit as nat);
    lemma_pow2_pos(format.frac as nat);
    lemma_grid_monotone(format.frac as nat, 0, b.mag as nat);
    lemma_nearest_zero(format, format.units(b.mag));
    assert((-units) * p == -(units * p)) by (nonlinear_arith);
    assert(units > 0 ==> units * p > 0) by (nonlinear_arith)
        requires
            p > 0,
    ;
    assert(units == 0 ==> units * p == 0) by (nonlinear_arith);
}

/// The value of a finite number in another format.
pub proof fn lemma_converted_value(a: Float, from: Format, to: Format)
    requires
        from.wf(),
        to.wf(),
        a.is_finite(from),
    ensures
        a.spec_converted(from, to).value(to) == signed_nearest(
            to,
            a.value(from) * pow2(to.unit as nat),
            pow2(from.unit as nat),
        ),
{
    let units = from.units(a.mag);
    let p = pow2(to.unit as nat);
    lemma_pow2_pos(to.unit as nat);
    lemma_pow2_pos(from.unit as nat);
    lemma_nearest_zero(to, pow2(from.unit as nat));
    assert((-units) * p == -(units * p)) by (nonlinear_arith);
    assert(units > 0 ==> units * p > 0) by (nonlinear_arith)
        requires
            p > 0,
    ;
    assert(units == 0 ==> units * p == 0) by (nonlinear_arith);
}

/// The value of a whole number.
pub proof fn lemma_integer_value(n: int, format: Format)
    requires
        format.wf(),
    ensures
        spec_from_integer(n, format).value(format) == signed_nearest(
            format,
            n * pow2(format.unit as nat),
            1,
        ),
{
    let p = pow2(format.unit as nat);
    lemma_pow2_pos(format.unit as nat);
    assert((-n) * p == -(n * p)) by (nonlinear_arith);
    assert(n > 0 ==> n * p > 0) by (nonlinear_arith)
        requires
            p > 0,
    ;
    assert(n < 0 ==> n * p < 0) by (nonlinear_arith)
        requires
            p > 0,
    ;
    assert(n == 0 ==> n * p == 0) by (nonlinear_arith);
}

/// No number lies outside the infinities.
proof fn lemma_value_bound(a: Float, format: Format)
    requires
        a.mag <= format.inf,
    ensures
        -(format.units(format.inf) as int) <= a.value(format) <= format.units(format.inf),
{
    lemma_grid_monotone(format.frac as nat, a.mag as nat, format.inf as nat);
}

/// Two infinities of the same value are the same.
proof fn lemma_infinite_value(a: Float, format: Format)
    requires
        format.wf(),
        a.mag <= format.inf,
    ensures
        a.value(format) >= format.units(format.inf) ==> a == format.infinity(false),
        a.value(format) <= -(format.units(format.inf) as int) ==> a == format.infinity(true),
{
    let f = format.frac as nat;
    lemma_pow2_pos(f);
    lemma_grid_monotone(f, 0, format.inf as nat);
    if a.mag < format.inf {
        lemma_grid_monotone(f, a.mag as nat, format.inf as nat);
    }
}

/// Sums grow with a summand.
pub proof fn lemma_sum_monotone(a: Float, b: Float, c: Float, format: Format)
    requires
        format.wf(),
        a.is_finite(format),
        !b.is_nan(format),
        !c.is_nan(format),
        b.value(format) <= c.value(format),
    ensures
        a.spec_plus(b, format).value(format) <= a.spec_plus(c, format).value(format),
{
    lemma_sum(a, b, format);
    lemma_sum(a, c, format);
    lemma_value_bound(a.spec_plus(b, format), format);
    lemma_value_bound(a.spec_plus(c, format), format);
    lemma_infinite_value(b, format);
    lemma_infinite_value(c, format);
    if b.is_finite(format) && c.is_finite(format) {
        lemma_sum_value(a, b, format);
        lemma_sum_value(a, c, format);
        lemma_signed_nearest_monotone(
            format,
            a.value(format) + b.value(format),
            1,
            a.value(format) + c.value(format),
            1,
        );
    }
}

/// Quotients by a positive number grow with the dividend.
pub proof fn lemma_quotient_monotone(a: Float, b: Float, divisor: Float, format: Format)
    requires
        format.wf(),
        !a.is_nan(format),
        !b.is_nan(format),
        divisor.is_finite(format),
        !divisor.neg,
        divisor.mag > 0,
        a.value(format) <= b.value(format),
    ensures
        a.spec_over(divisor, format).value(format) <= b.spec_over(divisor, format).value(format),
{
    lemma_quotient(a, divisor, format);
    lemma_quotient(b, divisor, format);
    lemma_value_bound(a.spec_over(divisor, format), format);
    lemma_value_bound(b.spec_over(divisor, format), format);
    lemma_infinite_value(a, format);
    lemma_infinite_value(b, format);
    if a.is_finite(format) && b.is_finite(format) {
        lemma_quotient_value(a, divisor, format);
        lemma_quotient_value(b, divisor, format);
        let p = pow2(format.unit as nat) as int;
        let d = format.units(divisor.mag) as int;
        let (x, y) = (a.value(format), b.value(format));
        lemma_pow2_pos(format.unit as nat);
        assert((x * p) * d <= (y * p) * d) by (nonlinear_arith)
            requires
                x <= y,
                p > 0,
                d > 0,
        ;
        lemma_signed_nearest_monotone(format, x * p, d as nat, y * p, d as nat);
    }
}

/// Going over to another format keeps the order.
pub proof fn lemma_converted_monotone(a: Float, b: Float, from: Format, to: Format)
    requires
        from.wf(),
        to.wf(),
        !a.is_nan(from),
        !b.is_nan(from),
        a.value(from) <= b.value(from),
    ensures
        a.spec_converted(from, to).value(to) <= b.spec_converted(from, to).value(to),
{
    lemma_converted(a, from, to);
    lemma_converted(b, from, to);
    lemma_value_bound(a.spec_converted(from, to), to);
    lemma_value_bound(b.spec_converted(from, to), to);
    lemma_infinite_value(a, from);
    lemma_infinite_value(b, from);
    if a.is_finite(from) && b.is_finite(from) {
        lemma_converted_value(a, from, to);
        lemma_converted_value(b, from, to);
        let p = pow2(to.unit as nat) as int;
        let d = pow2(from.unit as nat) as int;
        let (x, y) = (a.value(from), b.value(from));
        lemma_pow2_pos(to.unit as nat);
        lemma_pow2_pos(from.unit as nat);
        assert((x * p) * d <= (y * p) * d) by (nonlinear_arith)
            requires
                x <= y,
                p > 0,
                d > 0,
        ;
        lemma_signed_nearest_monotone(to, x * p, d as nat, y * p, d as nat);
    }
}

/// Holding numbers between 0 and 1 keeps their order.
pub proof fn lemma_single_clamped_monotone(a: Single, b: Single)
    requires
        !a.is_nan(),
        !b.is_nan(),
        a.value() <= b.value(),
    ensures
        a.spec_clamped().value() <= b.spec_clamped().value(),
{
    lemma_single_constants();
    lemma_pow2_pos(149);
}

/// Holding numbers between 0 and 1 keeps their order.
pub proof fn lemma_double_clamped_monotone(a: Double, b: Double)
    requires
        !a.is_nan(),
        !b.is_nan(),
        a.value() <= b.value(),
    ensures
        a.spec_clamped().value() <= b.spec_clamped().value(),
{
    lemma_double_constants();
    lemma_pow2_pos(1074);
}

/// Quotients of single precision numbers grow with the dividend.
pub proof fn lemma_single_over_monotone(a: Single, b: Single, divisor: Single)
    requires
        !a.is_nan(),
        !b.is_nan(),
        divisor.float().is_finite(spec_single_format()),
        divisor.value() > 0,
        a.value() <= b.value(),
    ensures
        !a.spec_over(divisor).is_nan(),
        !b.spec_over(divisor).is_nan(),
        a.spec_over(divisor).value() <= b.spec_over(divisor).value(),
{
    lemma_formats();
    let format = spec_single_format();
    lemma_nearest_zero(format, 1);
    lemma_quotient(a.float(), divisor.float(), format);
    lemma_quotient(b.float(), divisor.float(), format);
    lemma_single_packed(a.float().spec_over(divisor.float(), format));
    lemma_single_packed(b.float().spec_over(divisor.float(), format));
    lemma_quotient_monotone(a.float(), b.float(), divisor.float(), format);
}

/// Quotients of double precision numbers grow with the dividend.
pub proof fn lemma_double_over_monotone(a: Double, b: Double, divisor: Double)
    requires
        !a.is_nan(),
        !b.is_nan(),
        divisor.float().is_finite(spec_double_format()),
        divisor.value() > 0,
        a.value() <= b.value(),
    ensures
        !a.spec_over(divisor).is_nan(),
        !b.spec_over(divisor).is_nan(),
        a.spec_over(divisor).value() <= b.spec_over(divisor).value(),
{
    lemma_formats();
    let format = spec_double_format();
    lemma_nearest_zero(format, 1);
    lemma_quotient(a.float(), divisor.float(), format);
    lemma_quotient(b.float(), divisor.float(), format);
    lemma_double_packed(a.float().spec_over(divisor.float(), format));
    lemma_double_packed(b.float().spec_over(divisor.float(), format));
    lemma_quotient_monotone(a.float(), b.float(), divisor.float(), format);
}

/// Going over to single precision keeps the order.
pub proof fn lemma_narrowed_monotone(a: Double, b: Double)
    requires
        !a.is_nan(),
        !b.is_nan(),
        a.value() <= b.value(),
    ensures
        !a.spec_narrowed().is_nan(),
        !b.spec_narrowed().is_nan(),
        a.spec_narrowed().value() <= b.spec_narrowed().value(),
{
    lemma_formats();
    let (from, to) = (spec_double_format(), spec_single_format());
    lemma_converted(a.float(), from, to);
    lemma_converted(b.float(), from, to);
    lemma_single_packed(a.float().spec_converted(from, to));
    lemma_single_packed(b.float().spec_converted(from, to));
    lemma_converted_monotone(a.float(), b.float(), from, to);
}

/// Differences fall as the subtrahend grows.
pub proof fn lemma_single_minus_monotone(a: Single, b: Single, c: Single)
    requires
        a.float().is_finite(spec_single_format()),
        !b.is_nan(),
        !c.is_nan(),
        b.value() <= c.value(),
    ensures
        !a.spec_minus(b).is_nan(),
        !a.spec_minus(c).is_nan(),
        a.spec_minus(c).value() <= a.spec_minus(b).value(),
{
    lemma_formats();
    let format = spec_single_format();
    let (x, y) = (b.float().spec_negated(), c.float().spec_negated());
    lemma_sum(a.float(), x, format);
    lemma_sum(a.float(), y, format);
    lemma_single_packed(a.float().spec_plus(x, format));
    lemma_single_packed(a.float().spec_plus(y, format));
    lemma_sum_monotone(a.float(), y, x, format);
}

/// Differences fall as the subtrahend grows.
pub proof fn lemma_double_minus_monotone(a: Double, b: Double, c: Double)
    requires
        a.float().is_finite(spec_double_format()),
        !b.is_nan(),
        !c.is_nan(),
        b.value() <= c.value(),
    ensures
        !a.spec_minus(b).is_nan(),
        !a.spec_minus(c).is_nan(),
        a.spec_minus(c).value() <= a.spec_minus(b).value(),
{
    lemma_formats();
    let format = spec_double_format();
    let (x, y) = (b.float().spec_negated(), c.float().spec_negated());
    lemma_sum(a.float(), x, format);
    lemma_sum(a.float(), y, format);
    lemma_double_packed(a.float().spec_plus(x, format));
    lemma_double_packed(a.float().spec_plus(y, format));
    lemma_sum_monotone(a.float(), y, x, format);
}

/// The value of a finite product.
pub proof fn lemma_product_value(a: Float, b: Float, format: Format)
    requires
        format.wf(),
        a.is_finite(format),
        b.is_finite(format),
    ensures
        a.spec_times(b, format).value(format) == signed_nearest(
            format,
            a.value(format) * b.value(format),
            pow2(format.unit as nat),
        ),
{
    let (x, y) = (format.units(a.mag) as int, format.units(b.mag) as int);
    lemma_pow2_pos(format.unit as nat);
    lemma_nearest_zero(format, pow2(format.unit as nat));
    assert((-x) * y == -(x * y) && x * (-y) == -(x * y) && (-x) * (-y) == x * y)
        by (nonlinear_arith);
    assert(x * y >= 0) by (nonlinear_arith)
        requires
            x >= 0,
            y >= 0,
    ;
}

/// What becomes of operands that are not finite.
pub proof fn operands_that_are_not_finite(a: Float, b: Float, from: Format, to: Format)
    ensures
        a.is_nan(from) || b.is_nan(from) ==> a.spec_plus(b, from) == from.nan() && a.spec_times(
            b,
            from,
        ) == from.nan() && a.spec_over(b, from) == from.nan(),
        a.is_nan(from) ==> a.spec_converted(from, to) == to.nan(),
        a.is_infinite(from) ==> a.spec_converted(from, to) == to.infinity(a.neg),
        a.is_infinite(from) && b.is_finite(from) ==> a.spec_plus(b, from) == a && b.spec_plus(
            a,
            from,
        ) == a && a.spec_over(b, from) == from.infinity(a.neg != b.neg) && b.spec_over(a, from)
            == from.zero(a.neg != b.neg),
        a.is_infinite(from) && b.is_infinite(from) ==> a.spec_over(b, from) == from.nan()
            && a.spec_plus(b, from) == (if a.neg == b.neg {
            a
        } else {
            from.nan()
        }),
        a.is_finite(from) && b.is_finite(from) && b.mag == 0 ==> a.spec_over(b, from) == (
        if a.mag == 0 {
            from.nan()
        } else {
            from.infinity(a.neg != b.neg)
        }),
        a.is_infinite(from) && !b.is_nan(from) ==> a.spec_times(b, from) == (if b.mag == 0 {
            from.nan()
        } else {
            from.infinity(a.neg != b.neg)
        }),
{
}

/// Products and quotients of finite numbers are negative where one operand alone is, conversions
/// keep the sign, and a sum of zero is positive unless both summands are negative.
pub proof fn signs_of_results(a: Float, b: Float, from: Format, to: Format)
    requires
        a.is_finite(from),
        b.is_finite(from),
    ensures
        a.spec_times(b, from).neg == (a.neg != b.neg),
        b.mag > 0 ==> a.spec_over(b, from).neg == (a.neg != b.neg),
        a.spec_converted(from, to).neg == a.neg,
        a.value(from) + b.value(from) == 0 ==> a.spec_plus(b, from) == from.zero(a.neg && b.neg),
{
}

/// A number is held between 0 and 1 by value, and one that lies there is not changed.
pub proof fn holding_between_zero_and_one(x: Single, y: Double)
    ensures
        x.is_nan() ==> x.spec_clamped() == x,
        !x.is_nan() && x.value() < 0 ==> x.spec_clamped() == Single::spec_zero(),
        !x.is_nan() && x.value() > pow2(149) ==> x.spec_clamped() == Single::spec_one(),
        0 <= x.value() <= pow2(149) ==> x.spec_clamped() == x,
        y.is_nan() ==> y.spec_clamped() == y && y.spec_floored() == Double::spec_zero(),
        !y.is_nan() && y.value() < 0 ==> y.spec_clamped() == Double::spec_zero(),
        !y.is_nan() && y.value() > pow2(1074) ==> y.spec_clamped() == Double::spec_one(),
        0 <= y.value() <= pow2(1074) ==> y.spec_clamped() == y,
        !y.is_nan() && y.value() > 0 ==> y.spec_floored() == y,
        y.value() <= 0 ==> y.spec_floored() == Double::spec_zero(),
{
    lemma_single_constants();
    lemma_double_constants();
    lemma_pow2_pos(149);
    lemma_pow2_pos(1074);
}

/// Results in single precision are the exact results rounded once.
pub proof fn single_results_are_rounded_once(a: Single, b: Single, n: int)
    requires
        a.float().is_finite(spec_single_format()),
        b.float().is_finite(spec_single_format()),
        i64::MIN <= n <= i64::MAX,
    ensures
        a.spec_minus(b).value() == signed_nearest(spec_single_format(), a.value() - b.value(), 1),
        a.spec_times(b).value() == signed_nearest(
            spec_single_format(),
            a.value() * b.value(),
            pow2(149),
        ),
        b.value() > 0 ==> a.spec_over(b).value() == signed_nearest(
            spec_single_format(),
            a.value() * pow2(149),
            b.value() as nat,
        ),
        Single::spec_from_integer(n).value() == signed_nearest(
            spec_single_format(),
            n * pow2(149),
            1,
        ),
        a.spec_widened().value() == a.value() * pow2(925),
{
    lemma_formats();
    let format = spec_single_format();
    let negated = b.float().spec_negated();
    lemma_nearest_zero(format, 1);
    lemma_sum(a.float(), negated, format);
    lemma_single_packed(a.float().spec_plus(negated, format));
    lemma_sum_value(a.float(), negated, format);
    lemma_pow2_pos(149);
    lemma_nearest(format, format.units(a.float().mag) * format.units(b.float().mag), pow2(149));
    lemma_single_packed(a.float().spec_times(b.float(), format));
    lemma_product_value(a.float(), b.float(), format);
    if b.value() > 0 {
        lemma_quotient(a.float(), b.float(), format);
        lemma_single_packed(a.float().spec_over(b.float(), format));
        lemma_quotient_value(a.float(), b.float(), format);
    }
    lemma_single_from_integer(n);
    lemma_integer_value(n, format);
    lemma_widened_exact(a);
}

/// Results in double precision are the exact results rounded once.
pub proof fn double_results_are_rounded_once(a: Double, b: Double)
    requires
        a.float().is_finite(spec_double_format()),
        b.float().is_finite(spec_double_format()),
    ensures
        a.spec_plus(b).value() == signed_nearest(spec_double_format(), a.value() + b.value(), 1),
        a.spec_minus(b).value() == signed_nearest(spec_double_format(), a.value() - b.value(), 1),
        b.value() > 0 ==> a.spec_over(b).value() == signed_nearest(
            spec_double_format(),
            a.value() * pow2(1074),
            b.value() as nat,
        ),
        a.spec_narrowed().value() == signed_nearest(
            spec_single_format(),
            a.value() * pow2(149),
            pow2(1074),
        ),
{
    lemma_formats();
    let format = spec_double_format();
    let negated = b.float().spec_negated();
    lemma_nearest_zero(format, 1);
    lemma_sum(a.float(), negated, format);
    lemma_double_packed(a.float().spec_plus(negated, format));
    lemma_sum_value(a.float(), negated, format);
    lemma_sum(a.float(), b.float(), format);
    lemma_double_packed(a.float().spec_plus(b.float(), format));
    lemma_sum_value(a.float(), b.float(), format);
    if b.value() > 0 {
        lemma_quotient(a.float(), b.float(), format);
        lemma_double_packed(a.float().spec_over(b.float(), format));
        lemma_quotient_value(a.float(), b.float(), format);
    }
    lemma_converted(a.float(), format, spec_single_format());
    lemma_single_packed(a.float().spec_converted(format, spec_single_format()));
    lemma_converted_value(a.float(), format, spec_single_format());
}

/// The patterns from that of infinity on are not finite, and those above it are not numbers.
pub proof fn patterns_are_told_apart(x: Single, y: Double)
    ensures
        x.float().is_finite(spec_single_format()) <==> x.bits % 0x8000_0000 < 0x7F80_0000,
        x.is_nan() <==> x.bits % 0x8000_0000 > 0x7F80_0000,
        x.float().neg <==> x.bits >= 0x8000_0000,
        y.float().is_finite(spec_double_format()) <==> y.bits % 0x8000_0000_0000_0000
            < 0x7FF0_0000_0000_0000,
        y.is_nan() <==> y.bits % 0x8000_0000_0000_0000 > 0x7FF0_0000_0000_0000,
        y.float().neg <==> y.bits >= 0x8000_0000_0000_0000,
{
}

/// Numbers are compared by value, and what is not a number compares with nothing.
pub proof fn numbers_compare_by_value(a: Single, b: Single, x: Double, y: Double)
    ensures
        a.eq_spec(&b) <==> !a.is_nan() && !b.is_nan() && a.value() == b.value(),
        x.eq_spec(&y) <==> !x.is_nan() && !y.is_nan() && x.value() == y.value(),
        a.spec_less(b) <==> !a.is_nan() && !b.is_nan() && a.value() < b.value(),
        x.spec_less(y) <==> !x.is_nan() && !y.is_nan() && x.value() < y.value(),
        a.spec_positive() <==> !a.is_nan() && a.value() > 0,
        x.spec_positive() <==> !x.is_nan() && x.value() > 0,
{
    lemma_single_constants();
    lemma_double_constants();
}

} // verus!
