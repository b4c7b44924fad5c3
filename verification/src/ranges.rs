//! Where the results of the arithmetic lie.

use crate::float::{spec_double_format, spec_from_integer, spec_single_format, Float, Format};
use crate::grid::{
    grid, lemma_grid_compose, lemma_grid_decompose, lemma_grid_monotone, lemma_rounded_exact,
    lemma_rounding_exists, lemma_rounding_monotone, rounded,
};
use crate::number::{Double, Single};
use vstd::arithmetic::power2::{
    lemma2_to64, lemma2_to64_rest, lemma_pow2_adds, lemma_pow2_pos, lemma_pow2_unfold, pow2,
};
use vstd::prelude::*;

verus! {

impl Single {
    /// A number from 0 to 1.
    pub open spec fn is_share(self) -> bool {
        !self.is_nan() && 0 <= self.value() <= pow2(149)
    }

    pub open spec fn is_finite(self) -> bool {
        self.float().is_finite(spec_single_format())
    }
}

impl Double {
    /// A number from 0 to 1.
    pub open spec fn is_share(self) -> bool {
        !self.is_nan() && 0 <= self.value() <= pow2(1074)
    }

    pub open spec fn is_finite(self) -> bool {
        self.float().is_finite(spec_double_format())
    }
}

pub proof fn lemma_formats()
    ensures
        spec_single_format().wf(),
        spec_double_format().wf(),
{
    lemma2_to64();
    lemma2_to64_rest();
}

/// Packing a single precision number and taking it apart gives it back.
pub proof fn lemma_single_packed(float: Float)
    requires
        float.mag <= spec_single_format().inf || float == spec_single_format().nan(),
    ensures
        Single::of_float(float).float() == float,
{
}

/// Packing a double precision number and taking it apart gives it back.
pub proof fn lemma_double_packed(float: Float)
    requires
        float.mag <= spec_double_format().inf || float == spec_double_format().nan(),
    ensures
        Double::of_float(float).float() == float,
{
}

/// What rounding yields is a magnitude of the format.
pub proof fn lemma_nearest(format: Format, num: nat, den: nat)
    requires
        format.wf(),
        den > 0,
    ensures
        format.nearest(num, den) as nat == rounded(
            format.frac as nat,
            format.inf as nat,
            num,
            den,
        ),
        format.nearest(num, den) <= format.inf,
{
    lemma_rounding_exists(format.frac as nat, format.inf as nat, num, den);
}

/// The constants are the numbers that they are named after.
pub proof fn lemma_single_constants()
    ensures
        Single::spec_zero().value() == 0,
        Single::spec_one().value() == pow2(149),
        Single::spec_hundred().value() == 100 * pow2(149),
        Single::spec_zero().is_finite(),
        Single::spec_one().is_finite(),
        Single::spec_hundred().is_finite(),
{
    lemma2_to64();
    lemma_grid_compose(23, 126, 0x80_0000);
    lemma_grid_compose(23, 132, 0xC8_0000);
    lemma_pow2_adds(23, 126);
    lemma_pow2_adds(17, 132);
    let p = pow2(132);
    assert(pow2(149) == 0x2_0000 * p);
    assert(0xC8_0000 * p == 100 * (0x2_0000 * p));
    assert(132 * pow2(23) + 0xC8_0000 == 0x42C8_0000);
    assert(126 * pow2(23) + 0x80_0000 == 0x3F80_0000);
}

/// The constants are the numbers that they are named after.
pub proof fn lemma_double_constants()
    ensures
        Double::spec_zero().value() == 0,
        Double::spec_one().value() == pow2(1074),
        Double::spec_hundred().value() == 100 * pow2(1074),
        Double::spec_zero().is_finite(),
        Double::spec_one().is_finite(),
        Double::spec_hundred().is_finite(),
{
    lemma2_to64();
    lemma2_to64_rest();
    lemma_grid_compose(52, 1022, 0x10_0000_0000_0000);
    lemma_grid_compose(52, 1028, 0x19_0000_0000_0000);
    lemma_pow2_adds(52, 1022);
    lemma_pow2_adds(46, 1028);
    let p = pow2(1028);
    assert(pow2(1074) == 0x4000_0000_0000 * p);
    assert(0x19_0000_0000_0000 * p == 100 * (0x4000_0000_0000 * p));
    assert(1028 * pow2(52) + 0x19_0000_0000_0000 == 0x4059_0000_0000_0000);
    assert(1022 * pow2(52) + 0x10_0000_0000_0000 == 0x3FF0_0000_0000_0000);
}

/// A number that is held between 0 and 1 lies there.
pub proof fn lemma_single_clamped(x: Single)
    requires
        !x.is_nan(),
    ensures
        x.spec_clamped().is_share(),
{
    lemma_single_constants();
    lemma_pow2_pos(149);
}

/// A number that is held between 0 and 1 lies there.
pub proof fn lemma_double_clamped(x: Double)
    requires
        !x.is_nan(),
    ensures
        x.spec_clamped().is_share(),
{
    lemma_double_constants();
    lemma_pow2_pos(1074);
}

/// A number from 0 to 1 stays there when it is brought to single precision.
pub proof fn lemma_share_narrowed(x: Double)
    requires
        x.is_share(),
    ensures
        x.spec_narrowed().is_share(),
{
    lemma_formats();
    lemma_single_constants();
    lemma_double_constants();
    let (from, to) = (spec_double_format(), spec_single_format());
    let mag = x.float().mag;
    let units = from.units(mag);
    lemma_pow2_pos(1074);
    lemma_pow2_pos(149);
    // The magnitude is at most that of 1, so the number is finite.
    if mag > 0x3FF0_0000_0000_0000 {
        lemma_grid_monotone(52, 0x3FF0_0000_0000_0000, mag as nat);
    }
    assert(units <= pow2(1074));
    let num = units * pow2(149);
    lemma_nearest(to, num, pow2(1074));
    lemma_rounded_exact(23, to.inf as nat, 0x3F80_0000, pow2(149) * pow2(1074), pow2(1074));
    assert(num * pow2(1074) <= (pow2(149) * pow2(1074)) * pow2(1074)) by (nonlinear_arith)
        requires
            num == units * pow2(149),
            units <= pow2(1074),
    ;
    lemma_rounding_monotone(
        23,
        to.inf as nat,
        num,
        pow2(1074),
        pow2(149) * pow2(1074),
        pow2(1074),
    );
    let result = x.float().spec_converted(from, to);
    lemma_single_packed(result);
    lemma_grid_monotone(23, result.mag as nat, 0x3F80_0000);
    if x.float().neg {
        assert(units == 0);
        assert(num == 0) by (nonlinear_arith)
            requires
                num == units * pow2(149),
                units == 0,
        ;
        assert(grid(23, 0) * pow2(1074) == 0) by (nonlinear_arith)
            requires
                grid(23, 0) == 0,
        ;
        lemma_rounded_exact(23, to.inf as nat, 0, 0, pow2(1074));
    }
}

/// A quotient of two numbers is a number, unless both are infinite or both zero.
pub proof fn lemma_quotient(a: Float, b: Float, format: Format)
    requires
        format.wf(),
        !a.is_nan(format),
        !b.is_nan(format),
        !(a.is_infinite(format) && b.is_infinite(format)),
        !(a.mag == 0 && b.mag == 0),
    ensures
        a.spec_over(b, format).mag <= format.inf,
{
    if a.is_finite(format) && b.is_finite(format) && b.mag > 0 {
        lemma_pow2_pos(format.frac as nat);
        lemma_grid_monotone(format.frac as nat, 0, b.mag as nat);
        lemma_nearest(
            format,
            format.units(a.mag) * pow2(format.unit as nat),
            format.units(b.mag),
        );
    }
}

/// A sum of two numbers is a number, unless they are infinities of opposite signs.
pub proof fn lemma_sum(a: Float, b: Float, format: Format)
    requires
        format.wf(),
        !a.is_nan(format),
        !b.is_nan(format),
        !(a.is_infinite(format) && b.is_infinite(format) && a.neg != b.neg),
    ensures
        a.spec_plus(b, format).mag <= format.inf,
{
    let sum = a.value(format) + b.value(format);
    if sum > 0 {
        lemma_nearest(format, sum as nat, 1);
    } else {
        lemma_nearest(format, (-sum) as nat, 1);
    }
}

/// A number brought to another format is a number there.
pub proof fn lemma_converted(a: Float, from: Format, to: Format)
    requires
        from.wf(),
        to.wf(),
        !a.is_nan(from),
    ensures
        a.spec_converted(from, to).mag <= to.inf,
{
    lemma_pow2_pos(from.unit as nat);
    lemma_nearest(to, from.units(a.mag) * pow2(to.unit as nat), pow2(from.unit as nat));
}

/// Whole numbers of 64 bits are finite in single precision, and those from 1 on at least 1.
pub proof fn lemma_single_from_integer(n: int)
    requires
        i64::MIN <= n <= i64::MAX,
    ensures
        Single::spec_from_integer(n).is_finite(),
        Single::spec_from_integer(n).float() == spec_from_integer(n, spec_single_format()),
        n >= 1 ==> Single::spec_from_integer(n).float().mag >= 0x3F80_0000,
{
    lemma_formats();
    lemma_single_constants();
    lemma2_to64();
    lemma2_to64_rest();
    let format = spec_single_format();
    let size = (if n < 0 { -n } else { n }) as nat;
    let num = size * pow2(149);
    lemma_nearest(format, num, 1);
    // `2^63` is a number of the format.
    lemma_grid_compose(23, 189, 0x80_0000);
    lemma_pow2_adds(63, 149);
    lemma_pow2_adds(23, 189);
    let top = pow2(63) * pow2(149);
    assert(189 * pow2(23) + 0x80_0000 == 0x5F00_0000);
    assert(top == grid(23, 0x5F00_0000));
    lemma_rounded_exact(23, format.inf as nat, 0x5F00_0000, top, 1);
    assert(num * 1 <= top * 1) by (nonlinear_arith)
        requires
            num == size * pow2(149),
            top == pow2(63) * pow2(149),
            size <= pow2(63),
    ;
    lemma_rounding_monotone(23, format.inf as nat, num, 1, top, 1);
    lemma_single_packed(spec_from_integer(n, format));
    if n >= 1 {
        lemma_rounded_exact(23, format.inf as nat, 0x3F80_0000, pow2(149), 1);
        assert(pow2(149) * 1 <= num * 1) by (nonlinear_arith)
            requires
                num == size * pow2(149),
                size >= 1,
        ;
        lemma_rounding_monotone(23, format.inf as nat, pow2(149), 1, num, 1);
    }
}

/// Going over to double precision does not change a finite number.
pub proof fn lemma_widened_exact(x: Single)
    requires
        x.is_finite(),
    ensures
        x.spec_widened().is_finite(),
        x.spec_widened().value() == x.value() * pow2(925),
        x.spec_widened().float().neg == x.float().neg,
{
    lemma_formats();
    lemma2_to64();
    lemma2_to64_rest();
    let (from, to) = (spec_single_format(), spec_double_format());
    let mag = x.float().mag;
    let units = from.units(mag);
    let exact = lemma_widened_pattern(mag as nat);
    lemma_pow2_pos(149);
    lemma_pow2_adds(925, 149);
    let num = units * pow2(1074);
    assert(num == grid(52, exact) * pow2(149)) by (nonlinear_arith)
        requires
            num == units * pow2(1074),
            grid(52, exact) == units * pow2(925),
            pow2(1074) == pow2(925) * pow2(149),
    ;
    lemma_rounded_exact(52, to.inf as nat, exact, num, pow2(149));
    lemma_nearest(to, num, pow2(149));
    let result = x.float().spec_converted(from, to);
    lemma_double_packed(result);
    assert(-(units * pow2(925)) == (-units) * pow2(925)) by (nonlinear_arith);
}

/// The double precision pattern of a single precision magnitude.
proof fn lemma_widened_pattern(mag: nat) -> (exact: nat)
    requires
        mag < 0x7F80_0000,
    ensures
        exact < spec_double_format().inf,
        grid(52, exact) == grid(23, mag) * pow2(925),
{
    lemma2_to64();
    lemma2_to64_rest();
    let (e, m) = lemma_grid_decompose(23, mag);
    assert(e < 255) by (nonlinear_arith)
        requires
            mag == e * pow2(23) + m,
            mag < 0x7F80_0000,
            pow2(23) == 0x80_0000,
            m >= 0,
    ;
    if m == 0 {
        assert(grid(52, 0) == 0);
        assert(0 * pow2(e) == 0);
        assert(0 * pow2(925) == 0);
        0
    } else {
        assert(m * pow2(0) == m);
        let moved = lemma_leading_bit(m, 52, 0);
        let man = m * pow2(moved);
        let k = (e + 925 - moved) as nat;
        lemma_grid_compose(52, k, man);
        lemma_pow2_adds(k, moved);
        lemma_pow2_adds(e, 925);
        assert(man * pow2(k) == (m * pow2(e)) * pow2(925)) by (nonlinear_arith)
            requires
                man == m * pow2(moved),
                pow2(k) * pow2(moved) == pow2(e) * pow2(925),
        ;
        k * pow2(52) + man
    }
}

/// How far a significand, moved `done` places already, is from having its bit `top` set.
pub proof fn lemma_leading_bit(m: nat, top: nat, done: nat) -> (moved: nat)
    requires
        0 < m,
        done <= top,
        m * pow2(done) < pow2(top + 1),
    ensures
        moved <= top,
        pow2(top) <= m * pow2(moved) < pow2(top + 1),
    decreases top - done,
{
    let man = m * pow2(done);
    if man >= pow2(top) {
        done
    } else {
        assert(pow2(done) <= man) by (nonlinear_arith)
            requires
                man == m * pow2(done),
                m >= 1,
        ;
        if done >= top {
            assert(pow2(done) == pow2(top));
        }
        lemma_pow2_unfold(done + 1);
        lemma_pow2_unfold(top + 1);
        assert(m * pow2(done + 1) == 2 * man) by (nonlinear_arith)
            requires
                man == m * pow2(done),
                pow2(done + 1) == 2 * pow2(done),
        ;
        lemma_leading_bit(m, top, done + 1)
    }
}

/// Whole numbers below `2^24` are numbers of single precision.
pub proof fn lemma_small_integer_exact(n: nat)
    requires
        n < 0x100_0000,
    ensures
        Single::spec_from_integer(n as int).is_finite(),
        !Single::spec_from_integer(n as int).float().neg,
        Single::spec_from_integer(n as int).value() == n * pow2(149),
{
    lemma_formats();
    lemma2_to64();
    let format = spec_single_format();
    let num = n * pow2(149);
    lemma_single_from_integer(n as int);
    lemma_nearest(format, num, 1);
    if n == 0 {
        assert(grid(23, 0) == 0);
        assert(0 * pow2(149) == 0);
        lemma_rounded_exact(23, format.inf as nat, 0, 0, 1);
    } else {
        assert(n * pow2(0) == n);
        let moved = lemma_leading_bit(n, 23, 0);
        let man = n * pow2(moved);
        let e = (149 - moved) as nat;
        lemma_grid_compose(23, e, man);
        lemma_pow2_adds(e, moved);
        assert(man * pow2(e) == num) by (nonlinear_arith)
            requires
                man == n * pow2(moved),
                num == n * pow2(149),
                pow2(e) * pow2(moved) == pow2(149),
        ;
        lemma_rounded_exact(23, format.inf as nat, e * pow2(23) + man, num, 1);
    }
}

} // verus!
