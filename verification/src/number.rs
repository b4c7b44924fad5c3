//! Single and double precision numbers, held as their bit patterns.

use crate::float::{
    double_format, from_integer, single_format, spec_double_format, spec_from_integer,
    spec_single_format, Float,
};
use vstd::prelude::*;
use vstd::std_specs::cmp::PartialEqSpecImpl;

verus! {

/// A number in single precision. Numbers compare by value, not by pattern.
#[derive(Clone, Copy, Debug)]
pub struct Single {
    pub bits: u32,
}

/// A number in double precision. Numbers compare by value, not by pattern.
#[derive(Clone, Copy, Debug)]
pub struct Double {
    pub bits: u64,
}

impl PartialEq for Single {
    fn eq(&self, other: &Single) -> (same: bool) {
        self.to_float().same(other.to_float(), &single_format())
    }
}

impl PartialEqSpecImpl for Single {
    open spec fn obeys_eq_spec() -> bool {
        true
    }

    open spec fn eq_spec(&self, other: &Single) -> bool {
        self.float().spec_same(other.float(), spec_single_format())
    }
}

impl Single {
    /// Sign and magnitude.
    pub open spec fn float(self) -> Float {
        Float { neg: self.bits >= 0x8000_0000, mag: (self.bits % 0x8000_0000) as u64 }
    }

    pub open spec fn of_float(float: Float) -> Single {
        Single { bits: (float.mag + if float.neg { 0x8000_0000int } else { 0int }) as u32 }
    }

    pub open spec fn is_nan(self) -> bool {
        self.float().is_nan(spec_single_format())
    }

    /// The number as a multiple of `2^-149`.
    pub open spec fn value(self) -> int {
        self.float().value(spec_single_format())
    }

    pub open spec fn spec_zero() -> Single {
        Single { bits: 0 }
    }

    pub open spec fn spec_one() -> Single {
        Single { bits: 0x3F80_0000 }
    }

    pub open spec fn spec_hundred() -> Single {
        Single { bits: 0x42C8_0000 }
    }

    /// The number nearest to a whole number.
    pub open spec fn spec_from_integer(n: int) -> Single {
        Single::of_float(spec_from_integer(n, spec_single_format()))
    }

    pub open spec fn spec_less(self, other: Single) -> bool {
        self.float().spec_less(other.float(), spec_single_format())
    }

    /// The number is above zero.
    pub open spec fn spec_positive(self) -> bool {
        Single::spec_zero().spec_less(self)
    }

    pub open spec fn spec_minus(self, other: Single) -> Single {
        Single::of_float(
            self.float().spec_plus(other.float().spec_negated(), spec_single_format()),
        )
    }

    pub open spec fn spec_times(self, other: Single) -> Single {
        Single::of_float(self.float().spec_times(other.float(), spec_single_format()))
    }

    pub open spec fn spec_over(self, other: Single) -> Single {
        Single::of_float(self.float().spec_over(other.float(), spec_single_format()))
    }

    /// The number held between 0 and 1. What is not a number stays as it is.
    pub open spec fn spec_clamped(self) -> Single {
        if self.spec_less(Single::spec_zero()) {
            Single::spec_zero()
        } else if Single::spec_one().spec_less(self) {
            Single::spec_one()
        } else {
            self
        }
    }

    pub open spec fn spec_widened(self) -> Double {
        Double::of_float(
            self.float().spec_converted(spec_single_format(), spec_double_format()),
        )
    }

    /// The number that a bit pattern stands for.
    pub fn from_bits(bits: u32) -> (number: Single)
        ensures
            number.bits == bits,
    {
        Single { bits }
    }

    pub fn zero() -> (number: Single)
        ensures
            number == Single::spec_zero(),
    {
        Single { bits: 0 }
    }

    pub fn one() -> (number: Single)
        ensures
            number == Single::spec_one(),
    {
        Single { bits: 0x3F80_0000 }
    }

    pub fn hundred() -> (number: Single)
        ensures
            number == Single::spec_hundred(),
    {
        Single { bits: 0x42C8_0000 }
    }

    fn to_float(self) -> (float: Float)
        ensures
            float == self.float(),
            float.mag < 0x8000_0000,
    {
        Float { neg: self.bits >= 0x8000_0000, mag: (self.bits % 0x8000_0000) as u64 }
    }

    fn pack(float: Float) -> (number: Single)
        requires
            float.mag <= spec_single_format().inf || float == spec_single_format().nan(),
        ensures
            number == Single::of_float(float),
    {
        if float.neg {
            Single { bits: float.mag as u32 + 0x8000_0000 }
        } else {
            Single { bits: float.mag as u32 }
        }
    }

    /// The single precision number nearest to a whole number.
    pub fn from_integer(n: i64) -> (number: Single)
        ensures
            number == Single::spec_from_integer(n as int),
    {
        Single::pack(from_integer(n, &single_format()))
    }

    pub fn less(self, other: Single) -> (less: bool)
        ensures
            less == self.spec_less(other),
    {
        self.to_float().less(other.to_float(), &single_format())
    }

    pub fn positive(self) -> (positive: bool)
        ensures
            positive == self.spec_positive(),
    {
        Single::zero().less(self)
    }

    pub fn minus(self, other: Single) -> (difference: Single)
        ensures
            difference == self.spec_minus(other),
    {
        let b = other.to_float();
        let negated = Float { neg: !b.neg, mag: b.mag };
        Single::pack(self.to_float().plus(negated, &single_format()))
    }

    pub fn times(self, other: Single) -> (product: Single)
        ensures
            product == self.spec_times(other),
    {
        Single::pack(self.to_float().times(other.to_float(), &single_format()))
    }

    pub fn over(self, other: Single) -> (quotient: Single)
        ensures
            quotient == self.spec_over(other),
    {
        Single::pack(self.to_float().over(other.to_float(), &single_format()))
    }

    pub fn clamped(self) -> (number: Single)
        ensures
            number == self.spec_clamped(),
    {
        let zero = Single::zero();
        let one = Single::one();
        if self.less(zero) {
            zero
        } else if one.less(self) {
            one
        } else {
            self
        }
    }

    /// The same number in double precision.
    pub fn widened(self) -> (number: Double)
        ensures
            number == self.spec_widened(),
    {
        Double::pack(self.to_float().converted(&single_format(), &double_format()))
    }
}

impl PartialEq for Double {
    fn eq(&self, other: &Double) -> (same: bool) {
        self.to_float().same(other.to_float(), &double_format())
    }
}

impl PartialEqSpecImpl for Double {
    open spec fn obeys_eq_spec() -> bool {
        true
    }

    open spec fn eq_spec(&self, other: &Double) -> bool {
        self.float().spec_same(other.float(), spec_double_format())
    }
}

impl Double {
    /// Sign and magnitude.
    pub open spec fn float(self) -> Float {
        Float {
            neg: self.bits >= 0x8000_0000_0000_0000,
            mag: (self.bits % 0x8000_0000_0000_0000) as u64,
        }
    }

    pub open spec fn of_float(float: Float) -> Double {
        Double {
            bits: (float.mag + if float.neg { 0x8000_0000_0000_0000int } else { 0int }) as u64,
        }
    }

    pub open spec fn is_nan(self) -> bool {
        self.float().is_nan(spec_double_format())
    }

    /// The number as a multiple of `2^-1074`.
    pub open spec fn value(self) -> int {
        self.float().value(spec_double_format())
    }

    pub open spec fn spec_zero() -> Double {
        Double { bits: 0 }
    }

    pub open spec fn spec_one() -> Double {
        Double { bits: 0x3FF0_0000_0000_0000 }
    }

    pub open spec fn spec_hundred() -> Double {
        Double { bits: 0x4059_0000_0000_0000 }
    }

    pub open spec fn spec_less(self, other: Double) -> bool {
        self.float().spec_less(other.float(), spec_double_format())
    }

    /// The number is above zero.
    pub open spec fn spec_positive(self) -> bool {
        Double::spec_zero().spec_less(self)
    }

    pub open spec fn spec_plus(self, other: Double) -> Double {
        Double::of_float(self.float().spec_plus(other.float(), spec_double_format()))
    }

    pub open spec fn spec_minus(self, other: Double) -> Double {
        Double::of_float(
            self.float().spec_plus(other.float().spec_negated(), spec_double_format()),
        )
    }

    pub open spec fn spec_over(self, other: Double) -> Double {
        Double::of_float(self.float().spec_over(other.float(), spec_double_format()))
    }

    /// The number held between 0 and 1. What is not a number stays as it is.
    pub open spec fn spec_clamped(self) -> Double {
        if self.spec_less(Double::spec_zero()) {
            Double::spec_zero()
        } else if Double::spec_one().spec_less(self) {
            Double::spec_one()
        } else {
            self
        }
    }

    /// The number where it is above zero, and zero otherwise.
    pub open spec fn spec_floored(self) -> Double {
        if self.spec_positive() {
            self
        } else {
            Double::spec_zero()
        }
    }

    pub open spec fn spec_narrowed(self) -> Single {
        Single::of_float(
            self.float().spec_converted(spec_double_format(), spec_single_format()),
        )
    }

    /// The number that a bit pattern stands for.
    pub fn from_bits(bits: u64) -> (number: Double)
        ensures
            number.bits == bits,
    {
        Double { bits }
    }

    pub fn zero() -> (number: Double)
        ensures
            number == Double::spec_zero(),
    {
        Double { bits: 0 }
    }

    pub fn one() -> (number: Double)
        ensures
            number == Double::spec_one(),
    {
        Double { bits: 0x3FF0_0000_0000_0000 }
    }

    pub fn hundred() -> (number: Double)
        ensures
            number == Double::spec_hundred(),
    {
        Double { bits: 0x4059_0000_0000_0000 }
    }

    fn to_float(self) -> (float: Float)
        ensures
            float == self.float(),
            float.mag < 0x8000_0000_0000_0000,
    {
        Float {
            neg: self.bits >= 0x8000_0000_0000_0000,
            mag: self.bits % 0x8000_0000_0000_0000,
        }
    }

    fn pack(float: Float) -> (number: Double)
        requires
            float.mag <= spec_double_format().inf || float == spec_double_format().nan(),
        ensures
            number == Double::of_float(float),
    {
        if float.neg {
            Double { bits: float.mag + 0x8000_0000_0000_0000 }
        } else {
            Double { bits: float.mag }
        }
    }

    pub fn less(self, other: Double) -> (less: bool)
        ensures
            less == self.spec_less(other),
    {
        self.to_float().less(other.to_float(), &double_format())
    }

    pub fn positive(self) -> (positive: bool)
        ensures
            positive == self.spec_positive(),
    {
        Double::zero().less(self)
    }

    pub fn plus(self, other: Double) -> (sum: Double)
        ensures
            sum == self.spec_plus(other),
    {
        Double::pack(self.to_float().plus(other.to_float(), &double_format()))
    }

    pub fn minus(self, other: Double) -> (difference: Double)
        ensures
            difference == self.spec_minus(other),
    {
        let b = other.to_float();
        let negated = Float { neg: !b.neg, mag: b.mag };
        Double::pack(self.to_float().plus(negated, &double_format()))
    }

    pub fn over(self, other: Double) -> (quotient: Double)
        ensures
            quotient == self.spec_over(other),
    {
        Double::pack(self.to_float().over(other.to_float(), &double_format()))
    }

    pub fn clamped(self) -> (number: Double)
        ensures
            number == self.spec_clamped(),
    {
        let zero = Double::zero();
        let one = Double::one();
        if self.less(zero) {
            zero
        } else if one.less(self) {
            one
        } else {
            self
        }
    }

    pub fn floored(self) -> (number: Double)
        ensures
            number == self.spec_floored(),
    {
        if self.positive() {
            self
        } else {
            Double::zero()
        }
    }

    /// The single precision number nearest to this one.
    pub fn narrowed(self) -> (number: Single)
        ensures
            number == self.spec_narrowed(),
    {
        Single::pack(self.to_float().converted(&double_format(), &single_format()))
    }
}

} // verus!
