//! Numbers written out in decimal digits.

use crate::float::{decode, double_format, shift_right, spec_double_format};
use crate::number::Double;
use crate::round::brackets;
use vstd::arithmetic::div_mod::{lemma_fundamental_div_mod, lemma_fundamental_div_mod_converse};
use vstd::arithmetic::power2::{
    lemma2_to64, lemma_pow2_adds, lemma_pow2_pos, lemma_pow2_unfold, pow2,
};
use vstd::prelude::*;
use vstd::string::*;

verus! {

pub open spec fn digit(d: nat) -> char {
    (48 + d) as char
}

/// `n` in decimal digits, without leading zeros.
pub open spec fn decimal(n: nat) -> Seq<char>
    decreases n,
{
    if n < 10 {
        seq![digit(n)]
    } else {
        decimal(n / 10).push(digit(n % 10))
    }
}

/// `n` in decimal digits, with a minus sign where it is negative.
pub open spec fn integer_text(n: int) -> Seq<char> {
    if n < 0 {
        seq!['-'] + decimal((-n) as nat)
    } else {
        decimal(n as nat)
    }
}

/// `n` in at least two decimal digits.
pub open spec fn two_digits(n: nat) -> Seq<char> {
    if n < 10 {
        seq!['0', digit(n)]
    } else {
        decimal(n)
    }
}

/// The whole number nearest to `num / den`, and of two that are equally near the even one.
pub open spec fn half_even(num: nat, den: nat) -> nat {
    let whole = num / den;
    let rest = num % den;
    if 2 * rest > den || (2 * rest == den && whole % 2 == 1) {
        whole + 1
    } else {
        whole
    }
}

/// A finite number times `factor`, rounded to a whole number.
pub open spec fn scaled_whole(x: Double, factor: nat) -> nat {
    half_even(spec_double_format().units(x.float().mag) * factor, pow2(1074))
}

/// The minus sign of a number that has one.
pub open spec fn sign_text(neg: bool) -> Seq<char> {
    if neg {
        seq!['-']
    } else {
        seq![]
    }
}

/// A number with no decimal place.
pub open spec fn whole_text(x: Double) -> Seq<char> {
    if x.is_nan() {
        "NaN"@
    } else if x.float().is_infinite(spec_double_format()) {
        sign_text(x.float().neg) + "inf"@
    } else {
        sign_text(x.float().neg) + decimal(scaled_whole(x, 1))
    }
}

/// A number with two decimal places.
pub open spec fn hundredths_text(x: Double) -> Seq<char> {
    if x.is_nan() {
        "NaN"@
    } else if x.float().is_infinite(spec_double_format()) {
        sign_text(x.float().neg) + "inf"@
    } else {
        let hundredths = scaled_whole(x, 100);
        sign_text(x.float().neg) + decimal(hundredths / 100) + seq![
            '.',
            digit(hundredths / 10 % 10),
            digit(hundredths % 10),
        ]
    }
}

spec fn pow10(n: nat) -> nat
    decreases n,
{
    if n == 0 {
        1
    } else {
        10 * pow10((n - 1) as nat)
    }
}

/// The number that digits stand for, the lowest first.
spec fn digits_value(s: Seq<u8>) -> nat
    decreases s.len(),
{
    if s.len() == 0 {
        0
    } else {
        digits_value(s.drop_last()) + s.last() as nat * pow10((s.len() - 1) as nat)
    }
}

spec fn are_digits(s: Seq<u8>) -> bool {
    forall|i: int| 0 <= i < s.len() ==> s[i] < 10
}

/// Digits, the lowest first, without a leading zero.
spec fn canonical(s: Seq<u8>) -> bool {
    are_digits(s) && s.len() > 0 && (s.len() > 1 ==> s.last() > 0)
}

/// The digits from the highest to the lowest.
spec fn digits_text(s: Seq<u8>) -> Seq<char>
    decreases s.len(),
{
    if s.len() == 0 {
        seq![]
    } else {
        digits_text(s.drop_first()).push(digit(s[0] as nat))
    }
}

proof fn lemma_digits_push(s: Seq<u8>, d: u8)
    ensures
        digits_value(s.push(d)) == digits_value(s) + d as nat * pow10(s.len()),
{
    assert(s.push(d).drop_last() =~= s);
}

proof fn lemma_digits_low(s: Seq<u8>)
    requires
        s.len() > 0,
    ensures
        digits_value(s) == s[0] + 10 * digits_value(s.drop_first()),
    decreases s.len(),
{
    let n = s.len();
    if n == 1 {
        assert(s.drop_last() =~= seq![]);
        assert(s.drop_first() =~= seq![]);
        assert(s[0] as nat * pow10(0) == s[0]) by {
            assert(pow10(0) == 1);
        }
    } else {
        lemma_digits_low(s.drop_last());
        assert(s.drop_last().drop_first() =~= s.drop_first().drop_last());
        let top = s.last() as nat;
        assert(pow10((n - 1) as nat) == 10 * pow10((n - 2) as nat));
        assert(top * pow10((n - 1) as nat) == 10 * (top * pow10((n - 2) as nat)))
            by (nonlinear_arith)
            requires
                pow10((n - 1) as nat) == 10 * pow10((n - 2) as nat),
        ;
    }
}

proof fn lemma_canonical_positive(s: Seq<u8>)
    requires
        s.len() > 0,
        s.last() > 0,
    ensures
        digits_value(s) > 0,
{
    lemma_pow10_positive((s.len() - 1) as nat);
    assert(s.last() as nat * pow10((s.len() - 1) as nat) > 0) by (nonlinear_arith)
        requires
            s.last() > 0,
            pow10((s.len() - 1) as nat) > 0,
    ;
}

proof fn lemma_pow10_positive(n: nat)
    ensures
        pow10(n) > 0,
    decreases n,
{
    if n > 0 {
        lemma_pow10_positive((n - 1) as nat);
    }
}

/// Canonical digits read from the highest are the number in decimal.
proof fn lemma_digits_text(s: Seq<u8>)
    requires
        canonical(s),
    ensures
        digits_text(s) == decimal(digits_value(s)),
    decreases s.len(),
{
    lemma_digits_low(s);
    let rest = s.drop_first();
    if s.len() == 1 {
        assert(rest =~= seq![]);
        assert(digits_text(rest) =~= seq![]);
        assert(digits_text(s) =~= seq![digit(s[0] as nat)]);
    } else {
        assert(rest.last() == s.last());
        lemma_digits_text(rest);
        lemma_canonical_positive(rest);
        let v = digits_value(s);
        assert(v / 10 == digits_value(rest));
        assert(v % 10 == s[0]);
    }
}

/// Appends one digit.
fn push_digit(text: &mut String, d: u8)
    requires
        d < 10,
    ensures
        final(text)@ == old(text)@.push(digit(d as nat)),
{
    proof {
        reveal_strlit("0");
        reveal_strlit("1");
        reveal_strlit("2");
        reveal_strlit("3");
        reveal_strlit("4");
        reveal_strlit("5");
        reveal_strlit("6");
        reveal_strlit("7");
        reveal_strlit("8");
        reveal_strlit("9");
    }
    let ghost before = text@;
    if d == 0 {
        text.append("0");
    } else if d == 1 {
        text.append("1");
    } else if d == 2 {
        text.append("2");
    } else if d == 3 {
        text.append("3");
    } else if d == 4 {
        text.append("4");
    } else if d == 5 {
        text.append("5");
    } else if d == 6 {
        text.append("6");
    } else if d == 7 {
        text.append("7");
    } else if d == 8 {
        text.append("8");
    } else {
        text.append("9");
    }
    assert(text@ =~= before.push(digit(d as nat)));
}

/// Appends the digits from `low` on, the highest first.
fn push_digits(text: &mut String, digits: &Vec<u8>, low: usize)
    requires
        are_digits(digits@),
        low <= digits@.len(),
    ensures
        final(text)@ == old(text)@ + digits_text(digits@.skip(low as int)),
{
    let mut i: usize = digits.len();
    let ghost before = text@;
    proof {
        assert(digits@.skip(i as int) =~= seq![]);
        assert(text@ =~= before + digits_text(digits@.skip(i as int)));
    }
    while i > low
        invariant
            low <= i <= digits@.len(),
            are_digits(digits@),
            text@ == before + digits_text(digits@.skip(i as int)),
        decreases i,
    {
        i = i - 1;
        push_digit(text, digits[i]);
        proof {
            let part = digits@.skip(i as int);
            assert(part.drop_first() =~= digits@.skip(i + 1));
            assert(text@ =~= before + digits_text(part));
        }
    }
}

/// The digits of `n`, the lowest first.
fn digits_of(n: u128) -> (digits: Vec<u8>)
    ensures
        canonical(digits@),
        digits_value(digits@) == n,
{
    let mut digits: Vec<u8> = Vec::new();
    let mut rest: u128 = n;
    assert(rest * pow10(0) == rest) by (nonlinear_arith)
        requires
            pow10(0) == 1,
    ;
    while rest >= 10
        invariant
            are_digits(digits@),
            digits@.len() > 0 ==> rest > 0,
            digits_value(digits@) + rest * pow10(digits@.len()) == n,
        decreases rest,
    {
        let d: u8 = (rest % 10) as u8;
        proof {
            lemma_digits_push(digits@, d);
            let p = pow10(digits@.len());
            assert(pow10(digits@.len() + 1) == 10 * p);
            assert(rest * p == (rest % 10) * p + (rest / 10) * (10 * p)) by (nonlinear_arith)
                requires
                    rest == (rest % 10) + 10 * (rest / 10),
            ;
        }
        digits.push(d);
        rest = rest / 10;
    }
    proof {
        lemma_digits_push(digits@, rest as u8);
    }
    digits.push(rest as u8);
    digits
}

/// Twice the number that the digits stand for.
fn doubled(digits: &Vec<u8>) -> (result: Vec<u8>)
    requires
        canonical(digits@),
    ensures
        canonical(result@),
        digits_value(result@) == 2 * digits_value(digits@),
{
    let mut result: Vec<u8> = Vec::new();
    let mut carry: u8 = 0;
    let mut i: usize = 0;
    proof {
        assert(digits@.take(0) =~= seq![]);
    }
    while i < digits.len()
        invariant
            i <= digits@.len(),
            canonical(digits@),
            are_digits(result@),
            result@.len() == i,
            carry <= 1,
            i == digits@.len() && i > 1 ==> carry > 0 || result@.last() > 0,
            digits_value(result@) + carry * pow10(i as nat) == 2 * digits_value(
                digits@.take(i as int),
            ),
        decreases digits@.len() - i,
    {
        let t: u8 = digits[i] * 2 + carry;
        let d: u8 = t % 10;
        proof {
            let p = pow10(i as nat);
            lemma_digits_push(result@, d);
            assert(digits@.take(i + 1) =~= digits@.take(i as int).push(digits@[i as int]));
            lemma_digits_push(digits@.take(i as int), digits@[i as int]);
            assert(pow10((i + 1) as nat) == 10 * p);
            let x = digits@[i as int] as nat;
            assert(d * p + (t / 10) * (10 * p) == carry * p + 2 * (x * p)) by (nonlinear_arith)
                requires
                    t == 2 * x + carry,
                    d == t % 10,
            ;
        }
        result.push(d);
        carry = t / 10;
        i = i + 1;
    }
    proof {
        assert(digits@.take(i as int) =~= digits@);
        lemma_digits_push(result@, carry);
        assert(0 * pow10(i as nat) == 0) by (nonlinear_arith);
    }
    if carry > 0 {
        result.push(carry);
    }
    result
}

/// The rounded number is at most half a step away from the exact one, and even where it is that
/// far.
pub proof fn half_even_is_nearest(num: nat, den: nat)
    requires
        den > 0,
    ensures
        2 * (half_even(num, den) * den - num) <= den,
        2 * (num - half_even(num, den) * den) <= den,
        2 * (half_even(num, den) * den - num) == den || 2 * (num - half_even(num, den) * den) == den
            ==> half_even(num, den) % 2 == 0,
{
    lemma_fundamental_div_mod(num as int, den as int);
    let whole = (num / den) as int;
    assert(den * whole == whole * den) by (nonlinear_arith);
    assert((whole + 1) * den == whole * den + den) by (nonlinear_arith);
}

/// Rounding does not change where numerator and denominator are scaled alike.
pub proof fn lemma_half_even_scale(num: nat, den: nat, by: nat)
    requires
        den > 0,
        by > 0,
    ensures
        half_even(num * by, den * by) == half_even(num, den),
{
    let whole = (num / den) as int;
    let rest = (num % den) as int;
    lemma_fundamental_div_mod(num as int, den as int);
    assert(num * by == (den * by) * whole + rest * by) by (nonlinear_arith)
        requires
            num == den * whole + rest,
    ;
    assert(0 <= rest * by < den * by) by (nonlinear_arith)
        requires
            0 <= rest < den,
            by > 0,
    ;
    assert((den * by) * whole == whole * (den * by)) by (nonlinear_arith);
    lemma_fundamental_div_mod_converse((num * by) as int, (den * by) as int, whole, rest * by);
    assert(2 * (rest * by) > den * by <==> 2 * rest > den) by (nonlinear_arith)
        requires
            by > 0,
    ;
    assert(2 * (rest * by) == den * by <==> 2 * rest == den) by (nonlinear_arith)
        requires
            by > 0,
    ;
}

/// A whole number is not changed by rounding.
proof fn lemma_half_even_whole(n: nat, den: nat)
    requires
        den > 0,
    ensures
        half_even(n * den, den) == n,
{
    lemma_fundamental_div_mod_converse((n * den) as int, den as int, n as int, 0);
}

/// Rounding read off a number that was moved to the right up to its last bit.
proof fn lemma_half_even_shifted(num: nat, places: nat, q: nat, sticky: bool)
    requires
        places > 0,
        brackets(q, (places - 1) as nat, sticky, num, 1),
    ensures
        half_even(num, pow2(places)) == q / 2 + if q % 2 == 1 && (sticky || q / 2 % 2 == 1) {
            1nat
        } else {
            0nat
        },
{
    let p = pow2((places - 1) as nat);
    lemma_pow2_pos((places - 1) as nat);
    lemma_pow2_unfold(places);
    let lost = num - q * p;
    assert(q * p * 1 == q * p);
    assert((q + 1) * p * 1 == q * p + p) by (nonlinear_arith);
    let whole = (q / 2) as int;
    let bit = (q % 2) as int;
    assert(q * p == whole * (2 * p) + bit * p) by (nonlinear_arith)
        requires
            q == 2 * whole + bit,
    ;
    assert(bit * p == if bit == 1 { p as int } else { 0 }) by (nonlinear_arith)
        requires
            bit == 0 || bit == 1,
    ;
    lemma_fundamental_div_mod_converse(num as int, pow2(places) as int, whole, bit * p + lost);
}

/// The digits of a finite number times `factor`, rounded to a whole number.
fn scaled_digits(x: Double, factor: u64) -> (digits: Vec<u8>)
    requires
        x.float().is_finite(spec_double_format()),
        1 <= factor <= 100,
    ensures
        canonical(digits@),
        digits_value(digits@) == scaled_whole(x, factor as nat),
{
    let format = double_format();
    let mag: u64 = x.bits % 0x8000_0000_0000_0000;
    let (m, e) = decode(&format, mag);
    assert(m * factor <= 0x20_0000_0000_0000 * 100) by (nonlinear_arith)
        requires
            0 <= m <= 0x20_0000_0000_0000,
            0 <= factor <= 100,
    ;
    let t: u64 = m * factor;
    let ghost units = format.units(mag);
    if e >= 1074 {
        let mut digits: Vec<u8> = digits_of(t as u128);
        let mut left: u32 = e - 1074;
        proof {
            lemma2_to64();
            assert(t * pow2(0) == t);
        }
        while left > 0
            invariant
                left <= e - 1074,
                canonical(digits@),
                digits_value(digits@) == t * pow2((e - 1074 - left) as nat),
            decreases left,
        {
            digits = doubled(&digits);
            left = left - 1;
            proof {
                let done = (e - 1074 - left) as nat;
                lemma_pow2_unfold(done);
                assert(t * pow2(done) == 2 * (t * pow2((done - 1) as nat))) by (nonlinear_arith)
                    requires
                        pow2(done) == 2 * pow2((done - 1) as nat),
                ;
            }
        }
        proof {
            let n = t * pow2((e - 1074) as nat);
            lemma_pow2_adds((e - 1074) as nat, 1074);
            lemma_pow2_pos(1074);
            assert(units * factor == n * pow2(1074)) by (nonlinear_arith)
                requires
                    units == m * pow2(e as nat),
                    t == m * factor,
                    n == t * pow2((e - 1074) as nat),
                    pow2(e as nat) == pow2((e - 1074) as nat) * pow2(1074),
            ;
            lemma_half_even_whole(n as nat, pow2(1074));
        }
        digits
    } else {
        let places: u32 = 1074 - e;
        let (q, sticky) = shift_right(t as u128, places - 1);
        let up: bool = q % 2 == 1 && (sticky || q / 2 % 2 == 1);
        let whole: u128 = q / 2 + if up {
            1u128
        } else {
            0u128
        };
        proof {
            lemma_half_even_shifted(t as nat, places as nat, q as nat, sticky);
            lemma_pow2_adds(places as nat, e as nat);
            lemma_pow2_pos(places as nat);
            lemma_pow2_pos(e as nat);
            assert(units * factor == t * pow2(e as nat)) by (nonlinear_arith)
                requires
                    units == m * pow2(e as nat),
                    t == m * factor,
            ;
            lemma_half_even_scale(t as nat, pow2(places as nat), pow2(e as nat));
        }
        digits_of(whole)
    }
}

/// A number written with no decimal place.
pub fn write_whole(x: Double) -> (text: String)
    ensures
        text@ == whole_text(x),
{
    let format = double_format();
    let mag: u64 = x.bits % 0x8000_0000_0000_0000;
    if mag > format.inf {
        return "NaN".to_owned();
    }
    let mut text: String = write_sign(x);
    if mag == format.inf {
        text.append("inf");
        return text;
    }
    let digits: Vec<u8> = scaled_digits(x, 1);
    push_digits(&mut text, &digits, 0);
    proof {
        assert(digits@.skip(0) =~= digits@);
        lemma_digits_text(digits@);
    }
    text
}

/// A number written with two decimal places.
pub fn write_hundredths(x: Double) -> (text: String)
    ensures
        text@ == hundredths_text(x),
{
    let format = double_format();
    let mag: u64 = x.bits % 0x8000_0000_0000_0000;
    if mag > format.inf {
        return "NaN".to_owned();
    }
    let mut text: String = write_sign(x);
    if mag == format.inf {
        text.append("inf");
        return text;
    }
    let digits: Vec<u8> = three_digits(scaled_digits(x, 100));
    let ghost sign = text@;
    push_digits(&mut text, &digits, 2);
    text.append(".");
    push_digit(&mut text, digits[1]);
    push_digit(&mut text, digits[0]);
    proof {
        reveal_strlit(".");
        lemma_hundredths(digits@);
        let hundredths = digits_value(digits@);
        assert(text@ =~= sign + decimal(hundredths / 100) + seq![
            '.',
            digit(hundredths / 10 % 10),
            digit(hundredths % 10),
        ]);
    }
    text
}

/// The same number in at least three digits.
fn three_digits(digits: Vec<u8>) -> (result: Vec<u8>)
    requires
        canonical(digits@),
    ensures
        are_digits(result@),
        result@.len() >= 3,
        digits_value(result@) == digits_value(digits@),
        canonical(result@.skip(2)),
{
    let mut result: Vec<u8> = digits;
    while result.len() < 3
        invariant
            are_digits(result@),
            digits_value(result@) == digits_value(digits@),
            result@.len() > 3 ==> result@.last() > 0,
        decreases 3 - result@.len(),
    {
        proof {
            lemma_digits_push(result@, 0);
            assert(0 * pow10(result@.len()) == 0) by (nonlinear_arith);
        }
        result.push(0);
    }
    result
}

/// The whole part and the two decimal places of a number of hundredths.
proof fn lemma_hundredths(s: Seq<u8>)
    requires
        are_digits(s),
        s.len() >= 3,
        canonical(s.skip(2)),
    ensures
        digits_text(s.skip(2)) == decimal(digits_value(s) / 100),
        digits_value(s) / 10 % 10 == s[1],
        digits_value(s) % 10 == s[0],
{
    lemma_digits_low(s);
    lemma_digits_low(s.drop_first());
    assert(s.drop_first().drop_first() =~= s.skip(2));
    lemma_digits_text(s.skip(2));
    let high = digits_value(s.skip(2));
    assert(digits_value(s) == s[0] + 10 * (s[1] + 10 * high));
}

/// The minus sign of a number that has one.
fn write_sign(x: Double) -> (text: String)
    ensures
        text@ == sign_text(x.float().neg),
{
    proof {
        reveal_strlit("-");
    }
    if x.bits >= 0x8000_0000_0000_0000 {
        let text = "-".to_owned();
        assert(text@ =~= sign_text(true));
        text
    } else {
        String::new()
    }
}

/// A whole number written in decimal.
pub fn write_integer(n: i64) -> (text: String)
    ensures
        text@ == integer_text(n as int),
{
    proof {
        reveal_strlit("-");
    }
    let mut text: String = String::new();
    let size: u128 = if n < 0 {
        text.append("-");
        (-(n as i128)) as u128
    } else {
        n as u128
    };
    let digits: Vec<u8> = digits_of(size);
    push_digits(&mut text, &digits, 0);
    proof {
        assert(digits@.skip(0) =~= digits@);
        lemma_digits_text(digits@);
        assert(text@ =~= integer_text(n as int));
    }
    text
}

/// A small number written in at least two digits.
pub fn write_two_digits(n: u32) -> (text: String)
    ensures
        text@ == two_digits(n as nat),
{
    proof {
        reveal_strlit("0");
    }
    let mut text: String = String::new();
    if n < 10 {
        text.append("0");
    }
    let digits: Vec<u8> = digits_of(n as u128);
    push_digits(&mut text, &digits, 0);
    proof {
        assert(digits@.skip(0) =~= digits@);
        lemma_digits_text(digits@);
        assert(text@ =~= two_digits(n as nat));
    }
    text
}

/// The number that a text of decimal digits stands for.
pub open spec fn read_digits(text: Seq<char>) -> int
    decreases text.len(),
{
    if text.len() == 0 {
        0
    } else {
        10 * read_digits(text.drop_last()) + (text.last() as int - 48)
    }
}

/// A number in decimal reads back as that number, is made of digits only and has no zero in
/// front.
pub proof fn decimals_read_back(n: nat)
    ensures
        read_digits(decimal(n)) == n,
        decimal(n).len() > 0,
        forall|i: int| 0 <= i < decimal(n).len() ==> 48 <= #[trigger] decimal(n)[i] as int <= 57,
        decimal(n).len() > 1 ==> decimal(n)[0] != '0',
        n > 0 ==> decimal(n)[0] != '0',
    decreases n,
{
    reveal_with_fuel(read_digits, 2);
    if n < 10 {
        assert(decimal(n).drop_last() =~= seq![]);
        assert(decimal(n).last() as int == 48 + n);
    } else {
        let before = decimal(n / 10);
        decimals_read_back(n / 10);
        assert(decimal(n).drop_last() =~= before);
        assert(decimal(n).last() as int == 48 + n % 10);
        assert forall|i: int| 0 <= i < decimal(n).len() implies 48 <= #[trigger] decimal(
            n,
        )[i] as int <= 57 by {
            if i < before.len() {
                assert(decimal(n)[i] == before[i]);
            }
        }
        assert(decimal(n)[0] == before[0]);
    }
}

/// Two digits read back as the number, with a zero in front of a single one.
pub proof fn two_digits_read_back(n: nat)
    ensures
        read_digits(two_digits(n)) == n,
        n < 100 ==> two_digits(n).len() == 2,
        n < 10 ==> two_digits(n)[0] == '0',
        n >= 10 ==> two_digits(n) == decimal(n),
{
    decimals_read_back(n);
    reveal_with_fuel(read_digits, 3);
    reveal_with_fuel(decimal, 2);
    if n < 10 {
        let text = two_digits(n);
        assert(text.drop_last() =~= seq!['0']);
        assert(text.drop_last().drop_last() =~= seq![]);
        assert(text.last() as int == 48 + n);
    }
}

/// A whole number reads back behind its sign.
pub proof fn integers_read_back(n: int)
    ensures
        n >= 0 ==> integer_text(n) == decimal(n as nat),
        n < 0 ==> integer_text(n)[0] == '-' && read_digits(
            integer_text(n).subrange(1, integer_text(n).len() as int),
        ) == -n,
{
    if n < 0 {
        decimals_read_back((-n) as nat);
        assert(integer_text(n).subrange(1, integer_text(n).len() as int) =~= decimal((-n) as nat));
    }
}

/// A finite number is written with two decimal places as the nearest number of hundredths, of
/// two equally near the even one, behind the number's own sign.
pub proof fn hundredths_are_nearest(x: Double) -> (hundredths: nat)
    requires
        x.float().is_finite(spec_double_format()),
    ensures
        hundredths_text(x) == (if x.float().neg {
            seq!['-']
        } else {
            Seq::<char>::empty()
        }) + decimal(hundredths / 100) + seq![
            '.',
            digit(hundredths / 10 % 10),
            digit(hundredths % 10),
        ],
        ({
            let units = spec_double_format().units(x.float().mag);
            let off = hundredths * pow2(1074) - units * 100;
            &&& -pow2(1074) <= 2 * off <= pow2(1074)
            &&& (2 * off == pow2(1074) || 2 * off == -pow2(1074)) ==> hundredths % 2 == 0
        }),
{
    lemma_pow2_pos(1074);
    half_even_is_nearest(spec_double_format().units(x.float().mag) * 100, pow2(1074));
    scaled_whole(x, 100)
}

/// A finite number is written with no decimal place as the nearest whole number, of two equally
/// near the even one, behind the number's own sign.
pub proof fn wholes_are_nearest(x: Double) -> (whole: nat)
    requires
        x.float().is_finite(spec_double_format()),
    ensures
        whole_text(x) == (if x.float().neg {
            seq!['-']
        } else {
            Seq::<char>::empty()
        }) + decimal(whole),
        ({
            let units = spec_double_format().units(x.float().mag);
            let off = whole * pow2(1074) - units;
            &&& -pow2(1074) <= 2 * off <= pow2(1074)
            &&& (2 * off == pow2(1074) || 2 * off == -pow2(1074)) ==> whole % 2 == 0
        }),
{
    lemma_pow2_pos(1074);
    half_even_is_nearest(spec_double_format().units(x.float().mag) * 1, pow2(1074));
    scaled_whole(x, 1)
}

/// What is not finite is written in words.
pub proof fn what_is_not_finite_is_named(x: Double)
    ensures
        x.is_nan() ==> hundredths_text(x) == "NaN"@ && whole_text(x) == "NaN"@,
        x.float() == spec_double_format().infinity(false) ==> hundredths_text(x) == "inf"@
            && whole_text(x) == "inf"@,
        x.float() == spec_double_format().infinity(true) ==> hundredths_text(x) == "-inf"@
            && whole_text(x) == "-inf"@,
{
    reveal_strlit("inf");
    reveal_strlit("-inf");
    assert(sign_text(false) + "inf"@ =~= "inf"@);
    assert(sign_text(true) + "inf"@ =~= "-inf"@);
}

} // verus!
