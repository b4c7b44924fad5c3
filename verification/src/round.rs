//! Rounding of an exact quotient to a floating-point format, in integer arithmetic.

use crate::grid::{
    grid, lemma_clip, lemma_grid_compose, lemma_grid_step, rounded, rounds_to_unbounded,
};
use vstd::arithmetic::power2::{
    lemma2_to64, lemma2_to64_rest, lemma_pow2_adds, lemma_pow2_pos, lemma_pow2_strictly_increases,
    lemma_pow2_unfold, pow2,
};
use vstd::prelude::*;

verus! {

/// Added to every exponent while a result is being computed, so that exponents stay
/// non-negative.
pub const BIAS: u32 = 4096;

/// The quotient `scaled / den` lies in the interval of length `2^k` that starts at
/// `sig * 2^k`, and `sticky` says whether it lies above the start.
pub open spec fn brackets(sig: nat, k: nat, sticky: bool, scaled: nat, den: nat) -> bool {
    &&& sig * pow2(k) * den <= scaled
    &&& scaled < (sig + 1) * pow2(k) * den
    &&& sticky <==> scaled != sig * pow2(k) * den
}

pub(crate) proof fn lemma_bracket_halve(sig: nat, k: nat, sticky: bool, scaled: nat, den: nat)
    requires
        den > 0,
        brackets(sig, k, sticky, scaled, den),
    ensures
        brackets(sig / 2, k + 1, sticky || sig % 2 == 1, scaled, den),
{
    let a = pow2(k) * den;
    let q = sig / 2;
    let r = sig % 2;
    lemma_pow2_pos(k);
    lemma_pow2_unfold(k + 1);
    assert(sig * pow2(k) * den == q * pow2(k + 1) * den + r * a) by (nonlinear_arith)
        requires
            sig == 2 * q + r,
            pow2(k + 1) == 2 * pow2(k),
            a == pow2(k) * den,
    ;
    assert((sig + 1) * pow2(k) * den == q * pow2(k + 1) * den + r * a + a) by (nonlinear_arith)
        requires
            sig == 2 * q + r,
            pow2(k + 1) == 2 * pow2(k),
            a == pow2(k) * den,
    ;
    assert((q + 1) * pow2(k + 1) * den == q * pow2(k + 1) * den + a + a) by (nonlinear_arith)
        requires
            pow2(k + 1) == 2 * pow2(k),
            a == pow2(k) * den,
    ;
    assert(a > 0) by (nonlinear_arith)
        requires
            a == pow2(k) * den,
            pow2(k) > 0,
            den > 0,
    ;
    assert(r * a == if r == 1 { a } else { 0 }) by (nonlinear_arith)
        requires
            r == 0 || r == 1,
    ;
}

pub(crate) proof fn lemma_bracket_double(sig: nat, k: nat, scaled: nat, den: nat)
    requires
        den > 0,
        k > 0,
        brackets(sig, k, false, scaled, den),
    ensures
        brackets(2 * sig, (k - 1) as nat, false, scaled, den),
{
    let j = (k - 1) as nat;
    lemma_pow2_pos(j);
    lemma_pow2_unfold(k);
    assert(sig * pow2(k) * den == (2 * sig) * pow2(j) * den) by (nonlinear_arith)
        requires
            pow2(k) == 2 * pow2(j),
    ;
    assert((2 * sig) * pow2(j) * den < (2 * sig + 1) * pow2(j) * den) by (nonlinear_arith)
        requires
            pow2(j) > 0,
            den > 0,
    ;
}

/// From the bracket to the two neighbours on the grid: `m` is the significand below,
/// `e` the exponent, and `half` says whether the middle between the neighbours is reached.
proof fn lemma_bracket_neighbours(
    sig: nat,
    e: nat,
    sticky: bool,
    num: nat,
    den: nat,
    bias: nat,
)
    requires
        den > 0,
        bias > 0,
        brackets(sig, (bias - 1 + e) as nat, sticky, num * pow2(bias), den),
    ensures
        ({
            let m = sig / 2;
            let below = m * pow2(e);
            let above = (m + 1) * pow2(e);
            &&& den * below <= num
            &&& num < den * above
            &&& sig % 2 == 0 ==> 2 * num < den * (below + above)
            &&& sig % 2 == 1 ==> 2 * num >= den * (below + above)
            &&& sig % 2 == 1 ==> (sticky <==> 2 * num != den * (below + above))
        }),
{
    let k = (bias - 1 + e) as nat;
    let m = sig / 2;
    let p = pow2(e);
    let s = pow2((bias - 1) as nat);
    lemma_pow2_pos((bias - 1) as nat);
    lemma_pow2_pos(e);
    lemma_pow2_adds((bias - 1) as nat, e);
    lemma_pow2_unfold(bias);
    let x = den * p;
    let r = sig % 2;
    assert(sig * pow2(k) * den == s * (2 * (m * x) + r * x)) by (nonlinear_arith)
        requires
            sig == 2 * m + r,
            pow2(k) == s * p,
            x == den * p,
    ;
    assert((sig + 1) * pow2(k) * den == s * (2 * (m * x) + r * x + x)) by (nonlinear_arith)
        requires
            sig == 2 * m + r,
            pow2(k) == s * p,
            x == den * p,
    ;
    assert(num * pow2(bias) == s * (2 * num)) by (nonlinear_arith)
        requires
            pow2(bias) == 2 * s,
    ;
    let lo = 2 * (m * x) + r * x;
    assert(lo <= 2 * num) by (nonlinear_arith)
        requires
            s * lo <= s * (2 * num),
            s > 0,
    ;
    assert(2 * num < lo + x) by (nonlinear_arith)
        requires
            s * (2 * num) < s * (lo + x),
            s > 0,
    ;
    assert(s * lo == s * (2 * num) <==> lo == 2 * num) by (nonlinear_arith)
        requires
            s > 0,
    ;
    assert(r * x == if r == 1 { x } else { 0 }) by (nonlinear_arith)
        requires
            r == 0 || r == 1,
    ;
    assert(den * (m * p) == m * x) by (nonlinear_arith)
        requires
            x == den * p,
    ;
    assert(den * ((m + 1) * p) == m * x + x) by (nonlinear_arith)
        requires
            x == den * p,
    ;
    assert(den * (m * p + (m + 1) * p) == 2 * (m * x) + x) by (nonlinear_arith)
        requires
            x == den * p,
    ;
}

/// Taking the neighbour that the round-half-even rule picks meets `rounds_to`.
proof fn lemma_pick(
    frac: nat,
    inf: nat,
    num: nat,
    den: nat,
    e: nat,
    m: nat,
    up: bool,
    mag: nat,
)
    requires
        den > 0,
        frac >= 1,
        inf > 0,
        inf % 2 == 0,
        e == 0 || pow2(frac) <= m,
        m < 2 * pow2(frac),
        den * (m * pow2(e)) <= num,
        num < den * ((m + 1) * pow2(e)),
        up ==> 2 * num >= den * (m * pow2(e) + (m + 1) * pow2(e)),
        !up ==> 2 * num <= den * (m * pow2(e) + (m + 1) * pow2(e)),
        2 * num == den * (m * pow2(e) + (m + 1) * pow2(e)) ==> (up <==> m % 2 == 1),
        mag == e * pow2(frac) + m + (if up { 1nat } else { 0nat }),
    ensures
        rounded(frac, inf, num, den) == if mag < inf { mag } else { inf },
{
    let base = (e * pow2(frac) + m) as nat;
    lemma_grid_compose(frac, e, m);
    assert(e * pow2(frac) + (m + 1) == base + 1);
    lemma_grid_compose(frac, e, m + 1);
    lemma_pow2_unfold(frac);
    let h = pow2((frac - 1) as nat);
    assert(e * pow2(frac) == 2 * (e * h)) by (nonlinear_arith)
        requires
            pow2(frac) == 2 * h,
    ;
    assert(base % 2 == m % 2);
    let gm = grid(frac, mag);
    lemma_grid_step(frac, mag);
    if mag > 0 {
        lemma_grid_step(frac, (mag - 1) as nat);
    }
    if !up {
        if mag > 0 {
            let mid = grid(frac, (mag - 1) as nat) + gm;
            assert(den * mid < 2 * num) by (nonlinear_arith)
                requires
                    den * gm <= num,
                    mid < 2 * gm,
                    den > 0,
            ;
        }
        assert(rounds_to_unbounded(frac, num, den, mag));
    } else {
        let mid = gm + grid(frac, mag + 1);
        assert(2 * num < den * mid) by (nonlinear_arith)
            requires
                num < den * gm,
                2 * gm < mid,
                den > 0,
        ;
        assert(rounds_to_unbounded(frac, num, den, mag));
    }
    lemma_clip(frac, inf, num, den, mag);
}

proof fn lemma_few_halvings(sig: nat, halvings: nat)
    requires
        sig > 0,
        sig * pow2(halvings) < 0x4000_0000_0000_0000_0000_0000_0000_0000,
    ensures
        halvings < 126,
{
    assert(pow2(halvings) <= sig * pow2(halvings)) by (nonlinear_arith)
        requires
            sig >= 1,
    ;
    lemma2_to64();
    lemma2_to64_rest();
    lemma_pow2_adds(62, 64);
    if halvings > 126 {
        lemma_pow2_strictly_increases(126, halvings);
    }
}

/// Rounds the quotient that `sig`, `k` and `sticky` bracket to a format of `frac` fraction
/// bits, where `hidden` is `2^frac` and `inf` the pattern of infinity.
pub(crate) fn round_magnitude(
    sig: u128,
    k: u32,
    sticky: bool,
    hidden: u64,
    inf: u64,
    Ghost(frac): Ghost<nat>,
    Ghost(num): Ghost<nat>,
    Ghost(den): Ghost<nat>,
) -> (mag: u64)
    requires
        1 <= frac <= 52,
        hidden == pow2(frac),
        inf > 0,
        inf % 2 == 0,
        den > 0,
        k <= 16384,
        sig < 0x4000_0000_0000_0000_0000_0000_0000_0000,
        sticky ==> sig >= 2 * hidden || k < BIAS,
        brackets(sig as nat, k as nat, sticky, num * pow2(BIAS as nat), den),
    ensures
        mag as nat == rounded(frac, inf as nat, num, den),
        mag <= inf,
{
    proof {
        lemma2_to64();
        lemma2_to64_rest();
        lemma_pow2_pos(frac);
        assert(pow2(frac) <= pow2(52)) by {
            if frac < 52 {
                lemma_pow2_strictly_increases(frac, 52);
            }
        }
    }
    let h: u128 = hidden as u128;
    let mut sig: u128 = sig;
    let mut k: u32 = k;
    let mut sticky: bool = sticky;
    while k < BIAS - 1
        invariant
            den > 0,
            k <= 16384,
            sig < 0x4000_0000_0000_0000_0000_0000_0000_0000,
            sticky ==> sig >= 2 * hidden || k < BIAS,
            brackets(sig as nat, k as nat, sticky, num * pow2(BIAS as nat), den),
        decreases BIAS - k,
    {
        proof {
            lemma_bracket_halve(sig as nat, k as nat, sticky, num * pow2(BIAS as nat), den);
        }
        sticky = sticky || sig % 2 == 1;
        sig = sig / 2;
        k = k + 1;
    }
    let ghost mut halvings: nat = 0;
    while sig >= 4 * h
        invariant
            den > 0,
            h == hidden,
            0 < hidden <= 0x10_0000_0000_0000,
            BIAS - 1 <= k <= 16384 + halvings,
            halvings > 0 ==> sig > 0,
            sig * pow2(halvings) < 0x4000_0000_0000_0000_0000_0000_0000_0000,
            sticky ==> sig >= 2 * hidden || k < BIAS,
            brackets(sig as nat, k as nat, sticky, num * pow2(BIAS as nat), den),
        decreases sig,
    {
        proof {
            lemma_few_halvings(sig as nat, halvings);
            lemma_bracket_halve(sig as nat, k as nat, sticky, num * pow2(BIAS as nat), den);
            lemma_pow2_unfold(halvings + 1);
            lemma_pow2_pos(halvings);
            assert((sig / 2) * pow2(halvings + 1) <= sig * pow2(halvings)) by (nonlinear_arith)
                requires
                    pow2(halvings + 1) == 2 * pow2(halvings),
                    pow2(halvings) > 0,
                    sig >= 0,
            ;
            halvings = halvings + 1;
        }
        sticky = sticky || sig % 2 == 1;
        sig = sig / 2;
        k = k + 1;
    }
    proof {
        if halvings > 0 {
            lemma_few_halvings(sig as nat, halvings);
        }
    }
    while k >= BIAS && sig < 2 * h
        invariant
            den > 0,
            h == hidden,
            hidden <= 0x10_0000_0000_0000,
            BIAS - 1 <= k <= 16384 + 128,
            sig < 4 * h,
            sticky ==> sig >= 2 * hidden || k < BIAS,
            brackets(sig as nat, k as nat, sticky, num * pow2(BIAS as nat), den),
        decreases k,
    {
        proof {
            lemma_bracket_double(sig as nat, k as nat, num * pow2(BIAS as nat), den);
        }
        sig = sig * 2;
        k = k - 1;
    }
    let e: u32 = k - (BIAS - 1);
    let m: u128 = sig / 2;
    let up: bool = sig % 2 == 1 && (sticky || m % 2 == 1);
    assert(e * h <= 16384 * 0x10_0000_0000_0000) by (nonlinear_arith)
        requires
            e <= 16384,
            0 <= h <= 0x10_0000_0000_0000,
    ;
    let mag: u128 = e as u128 * h + m + (if up { 1u128 } else { 0u128 });
    proof {
        lemma_bracket_neighbours(sig as nat, e as nat, sticky, num, den, BIAS as nat);
        lemma_pick(frac, inf as nat, num, den, e as nat, m as nat, up, mag as nat);
    }
    if mag < inf as u128 {
        mag as u64
    } else {
        inf
    }
}

} // verus!
