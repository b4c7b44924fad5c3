//! What holds of all snapshots.

use crate::clock::{date_of, lemma_date_unique, window_at, CivilDate};
use crate::copilot::{
    percent_text, premium_quota, spec_copilot_snapshot, used_share, CopilotUserView, QuotaSnapshot,
    QuotaSnapshots,
};
use crate::decimal::{
    decimal, digit, half_even, hundredths_text, lemma_half_even_scale, scaled_whole, sign_text,
    whole_text,
};
use crate::error::FetchErrorView;
use crate::estimate::{spec_anthropic_snapshot, spec_mistral_snapshot, spec_usable_budget};
use crate::float::{spec_double_format, spec_from_integer, spec_single_format};
use crate::grid::{
    grid, lemma_grid_compose, lemma_grid_decompose, lemma_grid_monotone, lemma_grid_step,
    lemma_rounded_exact, lemma_rounding_exists, lemma_rounding_monotone, rounded, rounds_to,
};
use crate::number::{Double, Single};
use crate::openai::{budget_share, spec_openai_snapshot, spec_openai_unavailable};
use crate::openrouter::{metered_snapshot, spec_openrouter_snapshot, used_of_limit, KeyData};
use crate::order::{
    lemma_double_clamped_monotone, lemma_double_minus_monotone, lemma_double_over_monotone,
    lemma_integer_value, lemma_narrowed_monotone, lemma_nearest_zero,
    lemma_signed_nearest_monotone,
    lemma_single_clamped_monotone, lemma_single_minus_monotone, lemma_single_over_monotone,
};
use crate::ranges::{
    lemma_converted, lemma_double_clamped, lemma_double_constants, lemma_double_packed,
    lemma_formats, lemma_nearest, lemma_quotient, lemma_share_narrowed, lemma_single_clamped,
    lemma_single_constants, lemma_single_from_integer, lemma_single_packed,
    lemma_small_integer_exact, lemma_sum, lemma_widened_exact,
};
use crate::snapshot::CreditSnapshotView;
use crate::text::{joined, mentions};
use crate::zed::{cents_to_dollars, spec_zed_hosted_snapshot, spend_ratio, TokenSpendUsage};
use vstd::arithmetic::div_mod::lemma_fundamental_div_mod_converse;
use vstd::arithmetic::power2::{
    lemma2_to64, lemma_pow2_adds, lemma_pow2_pos, lemma_pow2_strictly_increases, lemma_pow2_unfold,
    pow2,
};
use vstd::prelude::*;

verus! {

/// The used share of an account with Zed lies between 0 and 1, whatever it spent and whatever
/// its limit is.
pub proof fn zed_ratio_is_a_share(usage: TokenSpendUsage, account_url: Seq<char>)
    ensures
        spec_zed_hosted_snapshot(usage, account_url).used_ratio.is_share(),
{
    lemma_formats();
    let format = spec_single_format();
    let limit = if usage.limit_cents < 1 { 1 } else { usage.limit_cents as int };
    lemma_single_from_integer(usage.spent_cents as int);
    lemma_single_from_integer(limit);
    let a = Single::spec_from_integer(usage.spent_cents as int);
    let b = Single::spec_from_integer(limit);
    lemma_quotient(a.float(), b.float(), format);
    lemma_single_packed(a.float().spec_over(b.float(), format));
    lemma_single_clamped(a.spec_over(b));
}

/// The percentage that remains of a user's premium quota, where it is given, is a number.
pub open spec fn percentage_is_a_number(user: CopilotUserView) -> bool {
    premium_quota(user) matches Some(quota) ==> (quota.percent_remaining matches Some(percent)
        ==> !percent.is_nan())
}

/// The used share of a Copilot user lies between 0 and 1, unless the remaining percentage is
/// not a number.
pub proof fn copilot_ratio_is_a_share(user: CopilotUserView)
    requires
        percentage_is_a_number(user),
    ensures
        spec_copilot_snapshot(user) matches Ok(snapshot) ==> snapshot.used_ratio.is_share(),
{
    lemma_formats();
    lemma_single_constants();
    lemma_double_constants();
    lemma_pow2_pos(149);
    match premium_quota(user) {
        Some(quota) => lemma_used_share(quota.percent_remaining),
        None => {},
    }
}

proof fn lemma_used_share(percent_remaining: Option<Double>)
    requires
        percent_remaining matches Some(percent) ==> !percent.is_nan(),
    ensures
        used_share(percent_remaining).is_share(),
{
    lemma_formats();
    lemma_single_constants();
    lemma_double_constants();
    let format = spec_single_format();
    let percent = match percent_remaining {
        Some(percent) => percent,
        None => Double::spec_hundred(),
    };
    let remaining = percent.spec_narrowed();
    let hundred = Single::spec_hundred();
    lemma_converted(percent.float(), spec_double_format(), format);
    lemma_single_packed(percent.float().spec_converted(spec_double_format(), format));
    let negated = remaining.float().spec_negated();
    lemma_sum(hundred.float(), negated, format);
    lemma_single_packed(hundred.float().spec_plus(negated, format));
    let used = hundred.spec_minus(remaining);
    lemma_quotient(used.float(), hundred.float(), format);
    lemma_single_packed(used.float().spec_over(hundred.float(), format));
    lemma_single_clamped(used.spec_over(hundred));
}

/// A Copilot quota without a percentage counts as unused.
pub proof fn copilot_quota_without_percentage_is_unused()
    ensures
        used_share(None) == Single::spec_zero(),
{
    lemma_single_constants();
    lemma_pow2_pos(149);
    lemma_hundred_narrowed();
    let hundred = Single::spec_hundred();
    assert(hundred.spec_minus(hundred) == Single::spec_zero());
    lemma_zero_over(hundred);
}

/// The limit of a key, where it is given as a number, is finite.
pub open spec fn limit_is_finite(data: KeyData) -> bool {
    data.limit matches Some(limit) ==> limit.is_nan() || limit.is_finite()
}

/// The used share of an OpenRouter key lies between 0 and 1, unless its limit is infinite.
pub proof fn openrouter_ratio_is_a_share(data: KeyData)
    requires
        limit_is_finite(data),
    ensures
        spec_openrouter_snapshot(data).used_ratio.is_share(),
{
    lemma_formats();
    lemma_single_constants();
    lemma_double_constants();
    lemma_pow2_pos(149);
    let format = spec_double_format();
    match (data.limit, data.limit_remaining) {
        (Some(limit), Some(remaining)) => {
            if limit.spec_positive() {
                let used = used_of_limit(limit, remaining);
                lemma_quotient(used.float(), limit.float(), format);
                lemma_double_packed(used.float().spec_over(limit.float(), format));
                lemma_double_clamped(used.spec_over(limit));
                lemma_share_narrowed(used.spec_over(limit).spec_clamped());
            }
        },
        _ => {},
    }
}

/// The used share of an OpenAI budget lies between 0 and 1, unless the spend is not a number or
/// both spend and budget are infinite.
pub proof fn openai_ratio_is_a_share(spent: Double, monthly_budget_usd: Option<Single>)
    requires
        !spent.is_nan(),
        spent.is_finite() || (spec_usable_budget(monthly_budget_usd) matches Some(budget)
            ==> budget.is_finite()),
    ensures
        spec_openai_snapshot(
            spent,
            spec_usable_budget(monthly_budget_usd),
        ).used_ratio.is_share(),
{
    lemma_formats();
    lemma_single_constants();
    lemma_pow2_pos(149);
    let format = spec_double_format();
    match spec_usable_budget(monthly_budget_usd) {
        Some(budget) => {
            let wide = budget.spec_widened();
            lemma_converted(budget.float(), spec_single_format(), format);
            lemma_double_packed(budget.float().spec_converted(spec_single_format(), format));
            if budget.is_finite() {
                lemma_widened_exact(budget);
                lemma_pow2_pos(925);
                assert(budget.value() * pow2(925) > 0) by (nonlinear_arith)
                    requires
                        budget.value() > 0,
                        pow2(925) > 0,
                ;
                lemma_double_constants();
            }
            lemma_quotient(spent.float(), wide.float(), format);
            lemma_double_packed(spent.float().spec_over(wide.float(), format));
            lemma_double_clamped(spent.spec_over(wide));
            lemma_share_narrowed(spent.spec_over(wide).spec_clamped());
        },
        None => {},
    }
}

/// A month whose spend is not reported is shown without a share: with a usable budget as an
/// estimate without a label, else as unavailable.
pub proof fn unreported_spend_is_an_estimate_or_unavailable(
    errors: Seq<Seq<char>>,
    monthly_budget_usd: Option<Single>,
)
    ensures
        ({
            let has_budget = spec_usable_budget(monthly_budget_usd) is Some;
            let shown = |snapshot: CreditSnapshotView|
                {
                    &&& snapshot.used_ratio == Single::spec_zero()
                    &&& snapshot.uses_estimated_budget == has_budget
                    &&& snapshot.label == (if has_budget {
                        ""@
                    } else {
                        "Usage unavailable"@
                    })
                };
            &&& shown(spec_openai_unavailable(errors, has_budget))
            &&& shown(spec_anthropic_snapshot(has_budget))
            &&& shown(spec_mistral_snapshot(has_budget))
        }),
{
}

/// A budget counts where it is a number above zero.
pub proof fn usable_budget_is_above_zero(budget: Single)
    ensures
        spec_usable_budget(None) is None,
        spec_usable_budget(Some(budget)) == (if !budget.is_nan() && budget.value() > 0 {
            Some(budget)
        } else {
            None
        }),
{
    lemma_single_constants();
}

/// The window of a month starts on its first day at midnight, not after its end, and no more
/// than the days before it in the month away from it.
pub proof fn usage_window_lies_in_one_month(now: int, date: CivilDate)
    requires
        date.holds(now),
    ensures
        window_at(now).end_time == now,
        window_at(now).start_time <= now,
        now - window_at(now).start_time < date.day * 86400,
        window_at(now).start_time % 86400 == 0,
        date_of(window_at(now).start_time) == (CivilDate { day: 1, ..date }),
{
    lemma_date_unique(now, date);
    let first = CivilDate { day: 1, ..date };
    assert(first.days() == date.days() - (date.day - 1));
    assert(first.holds(first.days() * 86400));
    lemma_date_unique(first.days() * 86400, first);
}

/// Two neighbouring single precision numbers below 131072 are at most `2^-7` apart.
proof fn lemma_spacing(mag: nat)
    requires
        mag < 0x4800_0000,
    ensures
        grid(23, mag) < grid(23, mag + 1) <= grid(23, mag) + pow2(142),
{
    lemma2_to64();
    let (e, m) = lemma_grid_decompose(23, mag);
    assert(e <= 142) by (nonlinear_arith)
        requires
            mag == e * pow2(23) + m,
            mag < 0x4800_0000,
            pow2(23) == 0x80_0000,
            e == 0 || m >= pow2(23),
    ;
    lemma_grid_compose(23, e, m + 1);
    lemma_grid_step(23, mag);
    if e < 142 {
        lemma_pow2_strictly_increases(e, 142);
    }
    assert((m + 1) * pow2(e) == m * pow2(e) + pow2(e)) by (nonlinear_arith);
}

/// Dividing cents by a hundred is off by less than half a cent.
proof fn lemma_dollars_near_cents(cents: nat)
    requires
        cents <= 13107199,
    ensures
        cents_to_dollars(cents as int).is_finite(),
        !cents_to_dollars(cents as int).float().neg,
        ({
            let hundredfold = 100 * cents_to_dollars(cents as int).value();
            &&& hundredfold - cents * pow2(149) < pow2(148)
            &&& cents * pow2(149) - hundredfold < pow2(148)
        }),
{
    lemma_formats();
    lemma2_to64();
    lemma_single_constants();
    lemma_small_integer_exact(cents);
    let format = spec_single_format();
    let u = pow2(149);
    let a = Single::spec_from_integer(cents as int);
    let hundred = Single::spec_hundred();
    let num = format.units(a.float().mag) * u;
    let den = format.units(hundred.float().mag);
    lemma_pow2_pos(149);
    lemma_nearest(format, num, den);
    let mag = rounded(23, format.inf as nat, num, den);
    lemma_rounding_exists(23, format.inf as nat, num, den);
    // 131072 is a number of the format, and not below the quotient.
    lemma_grid_compose(23, 143, 0x80_0000);
    lemma_pow2_adds(23, 143);
    lemma_pow2_adds(17, 149);
    let top = 0x2_0000 * u;
    assert(143 * pow2(23) + 0x80_0000 == 0x4800_0000);
    assert(grid(23, 0x4800_0000) == top);
    lemma_rounded_exact(23, format.inf as nat, 0x4800_0000, top, 1);
    assert(num * 1 <= top * den) by (nonlinear_arith)
        requires
            num == (cents * u) * u,
            den == 100 * u,
            top == 0x2_0000 * u,
            cents <= 13107199,
    ;
    lemma_rounding_monotone(23, format.inf as nat, num, den, top, 1);
    let q = a.float().spec_over(hundred.float(), format);
    lemma_single_packed(q);
    let g = grid(23, mag) as int;
    let gap = pow2(142) as int;
    lemma_pow2_adds(6, 142);
    lemma_pow2_adds(7, 142);
    lemma_pow2_pos(142);
    let exact = (cents * u) as int;
    if mag > 0 {
        lemma_spacing((mag - 1) as nat);
        let low = grid(23, (mag - 1) as nat) as int;
        assert(100 * (low + g) <= 2 * exact) by (nonlinear_arith)
            requires
                den * (low + g) <= 2 * num,
                num == exact * u,
                den == 100 * u,
                u > 0,
        ;
    }
    if mag < 0x4800_0000 {
        lemma_spacing(mag);
        let high = grid(23, mag + 1) as int;
        assert(2 * exact <= 100 * (g + high)) by (nonlinear_arith)
            requires
                2 * num <= den * (g + high),
                num == exact * u,
                den == 100 * u,
                u > 0,
        ;
    } else {
        assert(exact <= 100 * top) by (nonlinear_arith)
            requires
                exact == cents * u,
                top == 0x2_0000 * u,
                cents <= 13107199,
        ;
    }
}

/// What is less than half away from a whole number rounds to it.
proof fn lemma_half_even_near(num: nat, den: nat, n: nat)
    requires
        den > 0,
        2 * (num - n * den) < den,
        2 * (n * den - num) < den,
    ensures
        half_even(num, den) == n,
{
    if num >= n * den {
        lemma_fundamental_div_mod_converse(num as int, den as int, n as int, num - n * den);
    } else {
        assert(n >= 1) by (nonlinear_arith)
            requires
                num < n * den,
                num >= 0,
                den > 0,
        ;
        assert((n - 1) * den == n * den - den) by (nonlinear_arith);
        lemma_fundamental_div_mod_converse(
            num as int,
            den as int,
            n - 1,
            num - (n - 1) * den,
        );
    }
}

/// Spend with Zed of less than 131072 dollars is shown to the cent.
pub proof fn zed_spend_is_shown_to_the_cent(cents: nat)
    requires
        cents <= 13107199,
    ensures
        hundredths_text(cents_to_dollars(cents as int).spec_widened()) == decimal(cents / 100)
            + seq!['.', digit(cents / 10 % 10), digit(cents % 10)],
{
    let dollars = cents_to_dollars(cents as int);
    let wide = dollars.spec_widened();
    lemma_dollars_near_cents(cents);
    lemma_widened_exact(dollars);
    let units = dollars.value() as nat;
    let num = spec_double_format().units(wide.float().mag);
    lemma_pow2_pos(149);
    lemma_pow2_pos(925);
    lemma_pow2_adds(149, 925);
    lemma_pow2_unfold(149);
    assert(num * 100 == (units * 100) * pow2(925)) by (nonlinear_arith)
        requires
            num == units * pow2(925),
    ;
    lemma_half_even_scale(units * 100, pow2(149), pow2(925));
    lemma_half_even_near(units * 100, pow2(149), cents);
    assert(scaled_whole(wide, 100) == cents);
    assert(sign_text(false) + decimal(cents / 100) =~= decimal(cents / 100));
}

/// The used share of an account with Zed does not fall as its spend grows.
pub proof fn zed_ratio_grows_with_spend(less: TokenSpendUsage, more: TokenSpendUsage)
    requires
        less.limit_cents == more.limit_cents,
        less.spent_cents <= more.spent_cents,
    ensures
        spend_ratio(less).value() <= spend_ratio(more).value(),
{
    lemma_formats();
    lemma_single_constants();
    lemma_pow2_pos(149);
    let format = spec_single_format();
    let limit = if less.limit_cents < 1 { 1 } else { less.limit_cents as int };
    let (m, n) = (less.spent_cents as int, more.spent_cents as int);
    lemma_single_from_integer(m);
    lemma_single_from_integer(n);
    lemma_single_from_integer(limit);
    let (a, b, d) = (
        Single::spec_from_integer(m),
        Single::spec_from_integer(n),
        Single::spec_from_integer(limit),
    );
    lemma_grid_monotone(23, 0x3F80_0000, d.float().mag as nat);
    lemma_integer_value(m, format);
    lemma_integer_value(n, format);
    let p = pow2(149) as int;
    assert((m * p) * 1 <= (n * p) * 1) by (nonlinear_arith)
        requires
            m <= n,
            p > 0,
    ;
    lemma_signed_nearest_monotone(format, m * p, 1, n * p, 1);
    lemma_single_over_monotone(a, b, d);
    lemma_single_clamped_monotone(a.spec_over(d), b.spec_over(d));
}

/// Scaling numerator and denominator alike does not change what a quotient rounds to.
proof fn lemma_rounded_scale(frac: nat, inf: nat, num: nat, den: nat, by: nat)
    requires
        den > 0,
        by > 0,
        inf > 0,
        inf % 2 == 0,
    ensures
        rounded(frac, inf, num * by, den * by) == rounded(frac, inf, num, den),
{
    lemma_rounding_exists(frac, inf, num, den);
    assert(den * by > 0) by (nonlinear_arith)
        requires
            den > 0,
            by > 0,
    ;
    assert(num * (den * by) <= (num * by) * den) by (nonlinear_arith);
    assert((num * by) * den <= num * (den * by)) by (nonlinear_arith);
    lemma_rounding_monotone(frac, inf, num, den, num * by, den * by);
    lemma_rounding_monotone(frac, inf, num * by, den * by, num, den);
}

/// One is the only number worth one.
proof fn lemma_single_one(x: Single)
    requires
        !x.is_nan(),
        x.value() == pow2(149),
    ensures
        x == Single::spec_one(),
{
    lemma_single_constants();
    lemma_pow2_pos(149);
    let mag = x.float().mag as nat;
    if mag < 0x3F80_0000 {
        lemma_grid_monotone(23, mag, 0x3F80_0000);
    } else {
        lemma_grid_monotone(23, 0x3F80_0000, mag);
    }
}

/// One is the only number worth one.
proof fn lemma_double_one(x: Double)
    requires
        !x.is_nan(),
        x.value() == pow2(1074),
    ensures
        x == Double::spec_one(),
{
    lemma_double_constants();
    lemma_pow2_pos(1074);
    let mag = x.float().mag as nat;
    if mag < 0x3FF0_0000_0000_0000 {
        lemma_grid_monotone(52, mag, 0x3FF0_0000_0000_0000);
    } else {
        lemma_grid_monotone(52, 0x3FF0_0000_0000_0000, mag);
    }
}

/// What is divided by no more than itself comes to at least one.
proof fn lemma_single_full(a: Single, d: Single)
    requires
        !a.is_nan(),
        d.is_finite(),
        0 < d.value() <= a.value(),
    ensures
        a.spec_over(d).spec_clamped() == Single::spec_one(),
{
    lemma_formats();
    lemma_single_constants();
    lemma_pow2_pos(149);
    let format = spec_single_format();
    let units = format.units(d.float().mag);
    assert(units * pow2(149) == pow2(149) * units) by (nonlinear_arith);
    assert(d.float().mag > 0) by {
        assert(grid(23, 0) == 0) by {
            lemma_pow2_pos(23);
        }
    }
    lemma_rounded_exact(23, format.inf as nat, 0x3F80_0000, units * pow2(149), units);
    assert(d.spec_over(d) == Single::spec_one());
    lemma_single_over_monotone(d, a, d);
    if a.spec_over(d).value() == pow2(149) {
        lemma_single_one(a.spec_over(d));
    }
}

/// What is divided by no more than itself comes to at least one.
proof fn lemma_double_full(a: Double, d: Double)
    requires
        !a.is_nan(),
        d.is_finite(),
        0 < d.value() <= a.value(),
    ensures
        a.spec_over(d).spec_clamped().spec_narrowed() == Single::spec_one(),
{
    lemma_formats();
    lemma_single_constants();
    lemma_double_constants();
    lemma_pow2_pos(149);
    lemma_pow2_pos(1074);
    let format = spec_double_format();
    let units = format.units(d.float().mag);
    assert(units * pow2(1074) == pow2(1074) * units) by (nonlinear_arith);
    assert(d.float().mag > 0) by {
        assert(grid(52, 0) == 0) by {
            lemma_pow2_pos(52);
        }
    }
    lemma_rounded_exact(52, format.inf as nat, 0x3FF0_0000_0000_0000, units * pow2(1074), units);
    assert(d.spec_over(d) == Double::spec_one());
    lemma_double_over_monotone(d, a, d);
    if a.spec_over(d).value() == pow2(1074) {
        lemma_double_one(a.spec_over(d));
    }
    assert(a.spec_over(d).spec_clamped() == Double::spec_one());
    let num = pow2(1074) * pow2(149);
    assert(num == pow2(149) * pow2(1074)) by (nonlinear_arith)
        requires
            num == pow2(1074) * pow2(149),
    ;
    lemma_rounded_exact(
        23,
        spec_single_format().inf as nat,
        0x3F80_0000,
        num,
        pow2(1074),
    );
}

/// What is not above zero is still not when it is divided, and counts as no share.
proof fn lemma_single_none(a: Single, d: Single)
    requires
        !a.is_nan(),
        a.value() <= 0,
        d.is_finite(),
        0 < d.value(),
    ensures
        a.spec_over(d).spec_clamped().value() == 0,
{
    lemma_formats();
    lemma_single_constants();
    lemma_pow2_pos(149);
    let zero = Single::spec_zero();
    lemma_single_over_monotone(a, zero, d);
    lemma_zero_over(d);
}

proof fn lemma_zero_over(d: Single)
    requires
        d.is_finite(),
        0 < d.value(),
    ensures
        Single::spec_zero().spec_over(d) == Single::spec_zero(),
{
    lemma_formats();
    lemma_single_constants();
    let format = spec_single_format();
    lemma_nearest_zero(format, 1);
    lemma_nearest_zero(format, format.units(d.float().mag));
    assert(format.units(0) * pow2(149) == 0) by (nonlinear_arith)
        requires
            format.units(0) == 0,
    ;
}

proof fn lemma_double_zero_over(d: Double)
    requires
        d.is_finite(),
        0 < d.value(),
    ensures
        Double::spec_zero().spec_over(d).spec_clamped() == Double::spec_zero(),
        Double::spec_zero().spec_narrowed() == Single::spec_zero(),
{
    lemma_formats();
    lemma_double_constants();
    lemma_pow2_pos(1074);
    let format = spec_double_format();
    lemma_nearest_zero(format, 1);
    lemma_nearest_zero(format, format.units(d.float().mag));
    lemma_nearest_zero(spec_single_format(), pow2(1074));
    assert(format.units(0) * pow2(1074) == 0) by (nonlinear_arith)
        requires
            format.units(0) == 0,
    ;
    assert(format.units(0) * pow2(149) == 0) by (nonlinear_arith)
        requires
            format.units(0) == 0,
    ;
}

/// An amount of cents as it is written in dollars.
pub open spec fn cents_text(cents: nat) -> Seq<char> {
    decimal(cents / 100) + seq!['.', digit(cents / 10 % 10), digit(cents % 10)]
}

/// The label of an account with Zed is its spend to the cent, and the tooltip spend and limit,
/// below 131072 dollars.
pub proof fn zed_snapshots_show_the_cents(usage: TokenSpendUsage, account_url: Seq<char>)
    ensures
        0 <= usage.spent_cents <= 13107199 ==> spec_zed_hosted_snapshot(usage, account_url).label
            == "$"@ + cents_text(usage.spent_cents as nat) + " used"@,
        0 <= usage.spent_cents <= 13107199 && 0 <= usage.limit_cents <= 13107199
            ==> spec_zed_hosted_snapshot(usage, account_url).tooltip
            == "Zed Pro token spend: $"@ + cents_text(usage.spent_cents as nat) + " of $"@
            + cents_text(usage.limit_cents as nat) + " monthly limit"@,
{
    if 0 <= usage.spent_cents <= 13107199 {
        zed_spend_is_shown_to_the_cent(usage.spent_cents as nat);
    }
    if 0 <= usage.limit_cents <= 13107199 {
        zed_spend_is_shown_to_the_cent(usage.limit_cents as nat);
    }
}

/// Of any account with Zed, spend and limit are shown as cents over a hundred, the share is spend
/// over limit, and the page is the account's own. A limit below one cent counts as one.
pub proof fn zed_snapshots_show_spend_over_limit(usage: TokenSpendUsage, account_url: Seq<char>)
    ensures
        ({
            let shown = spec_zed_hosted_snapshot(usage, account_url);
            let spent = Single::spec_from_integer(usage.spent_cents as int);
            let limit = Single::spec_from_integer(usage.limit_cents as int);
            let hundred = Single::spec_hundred();
            let spent_text = hundredths_text(spent.spec_over(hundred).spec_widened());
            let limit_text = hundredths_text(limit.spec_over(hundred).spec_widened());
            &&& shown.provider_label == "Zed Pro"@
            &&& shown.label == "$"@ + spent_text + " used"@
            &&& shown.tooltip == "Zed Pro token spend: $"@ + spent_text + " of $"@ + limit_text
                + " monthly limit"@
            &&& usage.limit_cents >= 1 ==> shown.used_ratio == spent.spec_over(limit).spec_clamped()
            &&& usage.limit_cents < 1 ==> shown.used_ratio == spent.spec_over(
                Single::spec_from_integer(1),
            ).spec_clamped()
            &&& !shown.uses_estimated_budget
            &&& shown.account_url == Some(account_url)
        }),
{
}

/// The label of an account with Zed depends on its spend alone.
pub proof fn zed_labels_depend_on_spend_alone(
    a: TokenSpendUsage,
    b: TokenSpendUsage,
    url_a: Seq<char>,
    url_b: Seq<char>,
)
    requires
        a.spent_cents == b.spent_cents,
    ensures
        spec_zed_hosted_snapshot(a, url_a).label == spec_zed_hosted_snapshot(b, url_b).label,
{
}

/// An account with Zed that spent its limit is full, and one that spent nothing is empty.
pub proof fn zed_ratio_at_its_ends(usage: TokenSpendUsage, account_url: Seq<char>)
    ensures
        usage.spent_cents >= usage.limit_cents && usage.spent_cents >= 1
            ==> spec_zed_hosted_snapshot(usage, account_url).used_ratio == Single::spec_one(),
        usage.spent_cents <= 0 ==> spec_zed_hosted_snapshot(usage, account_url).used_ratio.value()
            == 0,
{
    lemma_formats();
    lemma_single_constants();
    lemma_pow2_pos(149);
    let format = spec_single_format();
    let limit = if usage.limit_cents < 1 { 1 } else { usage.limit_cents as int };
    let n = usage.spent_cents as int;
    lemma_single_from_integer(n);
    lemma_single_from_integer(limit);
    let (a, d) = (Single::spec_from_integer(n), Single::spec_from_integer(limit));
    lemma_grid_monotone(23, 0x3F80_0000, d.float().mag as nat);
    lemma_integer_value(n, format);
    lemma_integer_value(limit, format);
    let p = pow2(149) as int;
    if n >= limit {
        assert((limit * p) * 1 <= (n * p) * 1) by (nonlinear_arith)
            requires
                limit <= n,
                p > 0,
        ;
        lemma_signed_nearest_monotone(format, limit * p, 1, n * p, 1);
        lemma_single_full(a, d);
    }
    if n <= 0 {
        assert((n * p) * 1 <= 0 * 1) by (nonlinear_arith)
            requires
                n <= 0,
                p > 0,
        ;
        lemma_signed_nearest_monotone(format, n * p, 1, 0, 1);
        lemma_nearest_zero(format, 1);
        lemma_single_none(a, d);
    }
}

/// The share of an account with Zed is the number nearest to spend over limit, where the limit
/// is below `2^24` cents and not passed.
pub proof fn zed_ratio_is_nearest(usage: TokenSpendUsage, account_url: Seq<char>)
    requires
        0 <= usage.spent_cents <= usage.limit_cents,
        1 <= usage.limit_cents < 0x100_0000,
    ensures
        !spec_zed_hosted_snapshot(usage, account_url).used_ratio.float().neg,
        rounds_to(
            23,
            spec_single_format().inf as nat,
            usage.spent_cents as nat * pow2(149),
            usage.limit_cents as nat,
            spec_zed_hosted_snapshot(usage, account_url).used_ratio.float().mag as nat,
        ),
{
    lemma_formats();
    lemma_single_constants();
    lemma_pow2_pos(149);
    let format = spec_single_format();
    let (s, l) = (usage.spent_cents as nat, usage.limit_cents as nat);
    let u = pow2(149);
    lemma_small_integer_exact(s);
    lemma_small_integer_exact(l);
    let (a, d) = (Single::spec_from_integer(s as int), Single::spec_from_integer(l as int));
    let num = format.units(a.float().mag) * u;
    let den = format.units(d.float().mag);
    assert(den > 0) by (nonlinear_arith)
        requires
            den == l * u,
            l > 0,
            u > 0,
    ;
    assert(num == (s * u) * u);
    assert(den == l * u);
    lemma_rounded_scale(23, format.inf as nat, s * u, l, u);
    lemma_rounding_exists(23, format.inf as nat, s * u, l);
    lemma_nearest(format, num, den);
    assert(grid(23, 0) == 0) by {
        lemma_pow2_pos(23);
    }
    let q = a.spec_over(d);
    lemma_single_packed(a.float().spec_over(d.float(), format));
    lemma_rounded_exact(23, format.inf as nat, 0x3F80_0000, u, 1);
    assert((s * u) * 1 <= u * l) by (nonlinear_arith)
        requires
            s <= l,
    ;
    lemma_rounding_monotone(23, format.inf as nat, s * u, l, u, 1);
    lemma_grid_monotone(23, q.float().mag as nat, 0x3F80_0000);
    assert(q.spec_clamped() == q);
}

/// The used share of a Copilot user does not grow with the percentage that remains.
pub proof fn copilot_ratio_falls_as_more_remains(less: Double, more: Double)
    requires
        !less.is_nan(),
        !more.is_nan(),
        less.value() <= more.value(),
    ensures
        used_share(Some(more)).value() <= used_share(Some(less)).value(),
{
    lemma_single_constants();
    lemma_pow2_pos(149);
    let hundred = Single::spec_hundred();
    lemma_narrowed_monotone(less, more);
    let (a, b) = (less.spec_narrowed(), more.spec_narrowed());
    lemma_single_minus_monotone(hundred, a, b);
    let (x, y) = (hundred.spec_minus(b), hundred.spec_minus(a));
    lemma_single_over_monotone(x, y, hundred);
    lemma_single_clamped_monotone(x.spec_over(hundred), y.spec_over(hundred));
}

/// A user is shown as included without a limit where the quota is marked so, and only there; an
/// error says that there is no quota, and only where there is none.
pub proof fn copilot_plans_are_told_apart(user: CopilotUserView)
    ensures
        ({
            let premium = match user.quota_snapshots {
                Some(quotas) => quotas.premium_interactions,
                None => None,
            };
            &&& premium is None ==> spec_copilot_snapshot(user) == Err::<CreditSnapshotView, _>(
                FetchErrorView::CopilotQuotaMissing,
            )
            &&& premium matches Some(quota) ==> {
                &&& spec_copilot_snapshot(user) is Ok
                &&& quota.unlimited == Some(true) ==> spec_copilot_snapshot(user)->Ok_0.label
                    == "Premium included"@ && spec_copilot_snapshot(user)->Ok_0.used_ratio
                    == Single::spec_zero() && spec_copilot_snapshot(user)->Ok_0.tooltip
                    == "GitHub Copilot premium requests are included with your plan"@
                &&& quota.unlimited != Some(true) ==> spec_copilot_snapshot(user)->Ok_0.label.last()
                    == '%'
            }
            &&& spec_copilot_snapshot(user) matches Ok(shown) ==> {
                &&& shown.provider_label == "Copilot"@
                &&& !shown.uses_estimated_budget
                &&& shown.account_url == Some("https://github.com/settings/copilot"@)
            }
        }),
{
    reveal_strlit("%");
}

/// With a limit, the used share is what is missing of a hundred percent, over a hundred and held
/// between 0 and 1, whatever else is known of the quota; the label is that share in percent.
pub proof fn copilot_shares_come_from_the_percentage(user: CopilotUserView, quota: QuotaSnapshot)
    requires
        user.quota_snapshots == Some(QuotaSnapshots { premium_interactions: Some(quota) }),
        quota.unlimited != Some(true),
    ensures
        spec_copilot_snapshot(user) matches Ok(shown) && ({
            let hundred = Single::spec_hundred();
            let percent = whole_text(shown.used_ratio.spec_times(hundred).spec_widened());
            &&& quota.percent_remaining matches Some(remaining) ==> shown.used_ratio
                == hundred.spec_minus(remaining.spec_narrowed()).spec_over(hundred).spec_clamped()
            &&& quota.percent_remaining is None ==> shown.used_ratio == Single::spec_zero()
            &&& shown.label == percent + "%"@
        }),
{
    copilot_quota_without_percentage_is_unused();
}

/// Two quotas with a limit and the same percentage show the same share and label.
pub proof fn copilot_labels_depend_on_the_percentage_alone(
    a: CopilotUserView,
    b: CopilotUserView,
    quota_a: QuotaSnapshot,
    quota_b: QuotaSnapshot,
)
    requires
        premium_quota(a) == Some(quota_a),
        premium_quota(b) == Some(quota_b),
        quota_a.unlimited != Some(true),
        quota_b.unlimited != Some(true),
        quota_a.percent_remaining == quota_b.percent_remaining,
    ensures
        spec_copilot_snapshot(a) is Ok,
        spec_copilot_snapshot(b) is Ok,
        spec_copilot_snapshot(a)->Ok_0.used_ratio == spec_copilot_snapshot(b)->Ok_0.used_ratio,
        spec_copilot_snapshot(a)->Ok_0.label == spec_copilot_snapshot(b)->Ok_0.label,
{
}

/// The tooltip of a quota with a limit repeats the label, then says how many requests of how many
/// are used, where both are known and there are any, and when the quota starts anew, where that
/// is known.
pub proof fn copilot_tooltips_tell_the_numbers(user: CopilotUserView, quota: QuotaSnapshot)
    requires
        premium_quota(user) == Some(quota),
        quota.unlimited != Some(true),
    ensures
        spec_copilot_snapshot(user) matches Ok(shown) && ({
            let detail = match (quota.quota_remaining, quota.entitlement) {
                (Some(remaining), Some(all)) if !all.is_nan() && all.value() > 0 => " ("@
                    + whole_text(all.spec_minus(remaining)) + "/"@ + whole_text(all) + ")"@,
                _ => Seq::<char>::empty(),
            };
            let reset = match user.quota_reset_date {
                Some(date) => "\nResets "@ + date,
                None => Seq::<char>::empty(),
            };
            shown.tooltip == "GitHub Copilot premium requests: "@ + shown.label + " used"@ + detail
                + reset
        }),
{
    lemma_double_constants();
    reveal_strlit("%");
    reveal_strlit("% used");
    reveal_strlit(" used");
    assert("% used"@ =~= "%"@ + " used"@);
    let shown = spec_copilot_snapshot(user)->Ok_0;
    let start = "GitHub Copilot premium requests: "@;
    let percent = percent_text(shown.used_ratio);
    assert(start + percent + "% used"@ =~= start + shown.label + " used"@);
}

/// A quota of which no percent remains is used up, and one of which all remains is unused.
pub proof fn copilot_shares_at_their_ends(user: CopilotUserView, quota: QuotaSnapshot, left: Double)
    requires
        premium_quota(user) == Some(quota),
        quota.unlimited != Some(true),
        quota.percent_remaining == Some(left),
        !left.is_nan(),
    ensures
        left.value() <= 0 ==> (spec_copilot_snapshot(user) matches Ok(shown) && shown.used_ratio
            == Single::spec_one() && shown.label == "100%"@),
        left.value() >= 100 * pow2(1074) ==> (spec_copilot_snapshot(user) matches Ok(shown)
            && shown.used_ratio.value() == 0),
{
    lemma_formats();
    lemma_single_constants();
    lemma_double_constants();
    lemma_pow2_pos(149);
    lemma_pow2_pos(1074);
    let hundred = Single::spec_hundred();
    lemma_nearest_zero(spec_double_format(), 1);
    lemma_nearest_zero(spec_single_format(), pow2(1074));
    assert(spec_double_format().units(0) * pow2(149) == 0) by (nonlinear_arith)
        requires
            spec_double_format().units(0) == 0,
    ;
    let zero = Double::spec_zero();
    assert(zero.spec_narrowed() == Single::spec_zero());
    if left.value() <= 0 {
        lemma_narrowed_monotone(left, zero);
        lemma_single_minus_monotone(hundred, left.spec_narrowed(), Single::spec_zero());
        lemma_hundred_minus_zero();
        lemma_single_full(hundred.spec_minus(left.spec_narrowed()), hundred);
        lemma_full_percent();
    }
    if left.value() >= 100 * pow2(1074) {
        let wide = Double::spec_hundred();
        lemma_narrowed_monotone(wide, left);
        lemma_hundred_narrowed();
        lemma_single_minus_monotone(hundred, hundred, left.spec_narrowed());
        assert(hundred.spec_minus(hundred) == Single::spec_zero());
        lemma_single_none(hundred.spec_minus(left.spec_narrowed()), hundred);
    }
}

proof fn lemma_hundred_narrowed()
    ensures
        Double::spec_hundred().spec_narrowed() == Single::spec_hundred(),
{
    lemma_single_constants();
    lemma_double_constants();
    lemma_pow2_pos(149);
    lemma_pow2_pos(1074);
    let (single, double) = (spec_single_format(), spec_double_format());
    let hundred = Single::spec_hundred();
    let num = double.units(Double::spec_hundred().float().mag) * pow2(149);
    assert(num == single.units(hundred.float().mag) * pow2(1074)) by (nonlinear_arith)
        requires
            num == (100 * pow2(1074)) * pow2(149),
            single.units(hundred.float().mag) == 100 * pow2(149),
    ;
    lemma_rounded_exact(23, single.inf as nat, hundred.float().mag as nat, num, pow2(1074));
}

proof fn lemma_hundred_minus_zero()
    ensures
        Single::spec_hundred().spec_minus(Single::spec_zero()) == Single::spec_hundred(),
{
    lemma_single_constants();
    lemma_pow2_pos(149);
    let format = spec_single_format();
    let hundred = Single::spec_hundred();
    let mag = hundred.float().mag as nat;
    assert(Single::spec_zero().float().spec_negated().value(format) == 0);
    lemma_rounded_exact(23, format.inf as nat, mag, grid(23, mag), 1);
}

/// The whole share is a hundred percent.
proof fn lemma_full_percent()
    ensures
        percent_text(Single::spec_one()) + "%"@ == "100%"@,
{
    lemma_formats();
    lemma_single_constants();
    lemma_pow2_pos(149);
    lemma_pow2_pos(925);
    lemma_pow2_pos(1074);
    lemma_pow2_adds(149, 925);
    let format = spec_single_format();
    let (one, hundred) = (Single::spec_one(), Single::spec_hundred());
    let mag = hundred.float().mag as nat;
    let num = format.units(one.float().mag) * format.units(hundred.float().mag);
    assert(num == grid(23, mag) * pow2(149)) by (nonlinear_arith)
        requires
            num == pow2(149) * grid(23, mag),
    ;
    lemma_rounded_exact(23, format.inf as nat, mag, num, pow2(149));
    assert(one.spec_times(hundred) == hundred);
    lemma_widened_exact(hundred);
    let wide = hundred.spec_widened();
    let units = spec_double_format().units(wide.float().mag);
    assert(units * 1 == 100 * pow2(1074)) by (nonlinear_arith)
        requires
            units == (100 * pow2(149)) * pow2(925),
            pow2(1074) == pow2(149) * pow2(925),
    ;
    lemma_half_even_near((units * 1) as nat, pow2(1074), 100);
    assert(scaled_whole(wide, 1) == 100);
    reveal_with_fuel(decimal, 3);
    reveal_strlit("%");
    reveal_strlit("100%");
    assert(sign_text(false) + decimal(100) + "%"@ =~= "100%"@);
}

/// The used share of an OpenRouter key does not grow with what remains of its limit.
pub proof fn openrouter_ratio_falls_as_more_remains(
    limit: Double,
    less: Double,
    more: Double,
    usage: Double,
)
    requires
        limit.is_finite(),
        limit.spec_positive(),
        !less.is_nan(),
        !more.is_nan(),
        less.value() <= more.value(),
    ensures
        metered_snapshot(limit, more, usage).used_ratio.value() <= metered_snapshot(
            limit,
            less,
            usage,
        ).used_ratio.value(),
{
    lemma_double_constants();
    lemma_pow2_pos(1074);
    lemma_double_minus_monotone(limit, less, more);
    let (x, y) = (used_of_limit(limit, more), used_of_limit(limit, less));
    lemma_double_over_monotone(x, y, limit);
    let (p, q) = (x.spec_over(limit), y.spec_over(limit));
    lemma_double_clamped_monotone(p, q);
    lemma_double_clamped(p);
    lemma_double_clamped(q);
    lemma_narrowed_monotone(p.spec_clamped(), q.spec_clamped());
}

/// The used share of an OpenAI budget does not fall as spend grows.
pub proof fn openai_ratio_grows_with_spend(less: Double, more: Double, budget: Single)
    requires
        budget.spec_positive(),
        !less.is_nan(),
        !more.is_nan(),
        budget.is_finite() || (less.is_finite() && more.is_finite()),
        less.value() <= more.value(),
    ensures
        budget_share(less, budget).value() <= budget_share(more, budget).value(),
{
    lemma_formats();
    lemma_single_constants();
    lemma_double_constants();
    let wide = budget.spec_widened();
    if budget.is_finite() {
        lemma_widened_exact(budget);
        lemma_pow2_pos(925);
        assert(budget.value() * pow2(925) > 0) by (nonlinear_arith)
            requires
                budget.value() > 0,
                pow2(925) > 0,
        ;
        lemma_double_over_monotone(less, more, wide);
    } else {
        // An infinite budget leaves nothing of a finite spend.
        let format = spec_double_format();
        lemma_double_packed(format.infinity(false));
        lemma_double_packed(less.float().spec_over(wide.float(), format));
        lemma_double_packed(more.float().spec_over(wide.float(), format));
    }
    let (p, q) = (less.spec_over(wide), more.spec_over(wide));
    lemma_double_clamped_monotone(p, q);
    lemma_double_clamped(p);
    lemma_double_clamped(q);
    lemma_narrowed_monotone(p.spec_clamped(), q.spec_clamped());
}

/// A key is shown against its limit where both the limit and what remains of it are known and the
/// limit is above zero: what is used is the difference, never below zero, and the share is what
/// is used over the limit.
pub proof fn openrouter_limits_are_shown(data: KeyData, limit: Double, remaining: Double)
    requires
        data.limit == Some(limit),
        data.limit_remaining == Some(remaining),
        !limit.is_nan(),
        limit.value() > 0,
    ensures
        ({
            let shown = spec_openrouter_snapshot(data);
            let difference = limit.spec_minus(remaining);
            let used = if !difference.is_nan() && difference.value() > 0 {
                difference
            } else {
                Double::spec_zero()
            };
            &&& shown.used_ratio == used.spec_over(limit).spec_clamped().spec_narrowed()
            &&& shown.label == "$"@ + hundredths_text(used) + " used"@
            &&& shown.tooltip == "OpenRouter credits: $"@ + hundredths_text(used) + " used of $"@
                + hundredths_text(limit) + " limit ($"@ + hundredths_text(data.usage)
                + " total usage)"@
        }),
{
    lemma_double_constants();
}

/// Otherwise a key is shown without a share, by what it used in all.
pub proof fn openrouter_keys_without_a_limit_show_usage(data: KeyData)
    requires
        data.limit is None || data.limit_remaining is None || data.limit->0.is_nan()
            || data.limit->0.value() <= 0,
    ensures
        spec_openrouter_snapshot(data).used_ratio == Single::spec_zero(),
        spec_openrouter_snapshot(data).label == "$"@ + hundredths_text(data.usage) + " used"@,
        spec_openrouter_snapshot(data).tooltip == "OpenRouter total usage: $"@ + hundredths_text(
            data.usage,
        ),
{
    lemma_double_constants();
}

/// What a snapshot of OpenRouter says whatever the key's data are.
pub proof fn openrouter_snapshots_name_the_account(data: KeyData)
    ensures
        spec_openrouter_snapshot(data).provider_label == "OpenRouter"@,
        !spec_openrouter_snapshot(data).uses_estimated_budget,
        spec_openrouter_snapshot(data).account_url == Some(
            "https://openrouter.ai/settings/credits"@,
        ),
{
}

/// A limit of which nothing remains is used up, and one that all remains of is unused.
pub proof fn openrouter_shares_at_their_ends(data: KeyData, limit: Double, remaining: Double)
    requires
        data.limit == Some(limit),
        data.limit_remaining == Some(remaining),
        limit.is_finite(),
        limit.value() > 0,
        !remaining.is_nan(),
    ensures
        remaining.value() <= 0 ==> spec_openrouter_snapshot(data).used_ratio == Single::spec_one(),
        remaining.value() >= limit.value() ==> spec_openrouter_snapshot(data).used_ratio
            == Single::spec_zero() && spec_openrouter_snapshot(data).label == "$0.00 used"@,
{
    lemma_formats();
    lemma_double_constants();
    lemma_pow2_pos(1074);
    let format = spec_double_format();
    let zero = Double::spec_zero();
    let mag = limit.float().mag as nat;
    lemma_nearest_zero(format, 1);
    assert(zero.float().spec_negated().value(format) == 0);
    lemma_rounded_exact(52, format.inf as nat, mag, grid(52, mag), 1);
    assert(limit.spec_minus(zero) == limit);
    let used = used_of_limit(limit, remaining);
    if remaining.value() <= 0 {
        lemma_double_minus_monotone(limit, remaining, zero);
        lemma_double_full(used, limit);
    }
    if remaining.value() >= limit.value() {
        lemma_double_minus_monotone(limit, limit, remaining);
        assert(limit.spec_minus(limit).value() == 0);
        assert(used == zero);
        lemma_double_zero_over(limit);
        lemma_no_dollars();
    }
}

proof fn lemma_no_dollars()
    ensures
        "$"@ + hundredths_text(Double::spec_zero()) + " used"@ == "$0.00 used"@,
{
    lemma_double_constants();
    lemma_pow2_pos(1074);
    lemma_half_even_near(0, pow2(1074), 0);
    assert(scaled_whole(Double::spec_zero(), 100) == 0);
    reveal_strlit("$");
    reveal_strlit(" used");
    reveal_strlit("$0.00 used");
    assert("$"@ + hundredths_text(Double::spec_zero()) + " used"@ =~= "$0.00 used"@);
}

/// The label of a month is its spend to two decimal places, whatever the budget, and the tooltip
/// tells the same amount.
pub proof fn openai_labels_do_not_depend_on_the_budget(
    spent: Double,
    a: Option<Single>,
    b: Option<Single>,
)
    ensures
        spec_openai_snapshot(spent, a).label == spec_openai_snapshot(spent, b).label,
        spec_openai_snapshot(spent, a).label == "$"@ + hundredths_text(spent)
            + " used this month"@,
        "OpenAI usage this month: $"@ + hundredths_text(spent)
            == spec_openai_snapshot(spent, a).tooltip.take(
            ("OpenAI usage this month: $"@ + hundredths_text(spent)).len() as int,
        ),
        spec_openai_snapshot(spent, a).provider_label == "OpenAI"@,
        !spec_openai_snapshot(spent, a).uses_estimated_budget,
        spec_openai_snapshot(spent, a).account_url == Some("https://platform.openai.com/usage"@),
{
    let start = "OpenAI usage this month: $"@ + hundredths_text(spent);
    assert(spec_openai_snapshot(spent, a).tooltip.take(start.len() as int) =~= start);
}

/// A budget is shown in the tooltip, and the share is spend over budget in double precision;
/// without one there is no share, and the tooltip says how to set one.
pub proof fn openai_budgets_are_shown(spent: Double, budget: Single)
    ensures
        spec_openai_snapshot(spent, Some(budget)).tooltip == "OpenAI usage this month: $"@
            + hundredths_text(spent) + " of $"@ + hundredths_text(budget.spec_widened())
            + " configured budget"@,
        spec_openai_snapshot(spent, Some(budget)).used_ratio == spent.spec_over(
            budget.spec_widened(),
        ).spec_clamped().spec_narrowed(),
        spec_openai_snapshot(spent, None).tooltip == "OpenAI usage this month: $"@
            + hundredths_text(spent)
            + ". Configure ai_credit_status.monthly_budget_usd to track percentage."@,
        spec_openai_snapshot(spent, None).used_ratio == Single::spec_zero(),
{
}

/// A budget that is spent is full, and one of which nothing is spent is empty.
pub proof fn openai_shares_at_their_ends(spent: Double, budget: Single)
    requires
        !spent.is_nan(),
        budget.is_finite(),
        budget.value() > 0,
    ensures
        spent.value() >= budget.value() * pow2(925) ==> spec_openai_snapshot(
            spent,
            Some(budget),
        ).used_ratio == Single::spec_one(),
        spent.value() <= 0 ==> spec_openai_snapshot(spent, Some(budget)).used_ratio.value() == 0,
{
    lemma_formats();
    lemma_single_constants();
    lemma_double_constants();
    lemma_pow2_pos(925);
    lemma_pow2_pos(1074);
    lemma_widened_exact(budget);
    let wide = budget.spec_widened();
    assert(budget.value() * pow2(925) > 0) by (nonlinear_arith)
        requires
            budget.value() > 0,
            pow2(925) > 0,
    ;
    if spent.value() >= budget.value() * pow2(925) {
        lemma_double_full(spent, wide);
    }
    if spent.value() <= 0 {
        let zero = Double::spec_zero();
        lemma_double_over_monotone(spent, zero, wide);
        lemma_double_zero_over(wide);
        let (p, q) = (spent.spec_over(wide), zero.spec_over(wide));
        lemma_double_clamped_monotone(p, q);
        lemma_double_clamped(p);
        lemma_narrowed_monotone(p.spec_clamped(), q.spec_clamped());
        lemma_share_narrowed(p.spec_clamped());
    }
}

/// Where some place asked for a session key, the tooltip says so and what can be done; else it
/// says that there was no data, and without a budget what every place came to.
pub proof fn openai_tooltips_say_why_usage_is_unavailable(errors: Seq<Seq<char>>)
    ensures
        (exists|i: int| 0 <= i < errors.len() && mentions(#[trigger] errors[i], "session key"@))
            ==> {
            &&& spec_openai_unavailable(errors, true).tooltip
                == "OpenAI usage endpoint rejected API-key access (requires browser session key). There is usually no account toggle to enable this endpoint for standard API keys. Tip: use an Organization Admin API key with OpenAI organization usage/cost APIs for programmatic access. Check https://platform.openai.com/usage for actual spend."@
            &&& spec_openai_unavailable(errors, false).tooltip
                == "OpenAI usage endpoint rejected API-key access (requires browser session key). There is usually no account toggle to enable this endpoint for standard API keys. Tip: use an Organization Admin API key with OpenAI organization usage/cost APIs for programmatic access. Open https://platform.openai.com/usage for actual spend, or configure ai_credit_status.monthly_budget_usd for an estimated monthly label."@
        },
        (forall|i: int| 0 <= i < errors.len() ==> !mentions(#[trigger] errors[i], "session key"@))
            ==> {
            &&& spec_openai_unavailable(errors, true).tooltip
                == "OpenAI usage endpoint did not return parsable data. Check https://platform.openai.com/usage for actual spend."@
            &&& spec_openai_unavailable(errors, false).tooltip
                == "OpenAI usage endpoint did not return parsable data. Latest errors: "@ + joined(
                errors,
                " | "@,
            )
        },
{
}

/// A snapshot without reported spend names its provider and the page that shows the spend, and
/// with a budget the tooltip points there and nowhere else.
pub proof fn silent_snapshots_name_the_page(errors: Seq<Seq<char>>, has_budget: bool)
    ensures
        spec_openai_unavailable(errors, has_budget).provider_label == "OpenAI"@,
        spec_openai_unavailable(errors, has_budget).account_url == Some(
            "https://platform.openai.com/usage"@,
        ),
        spec_anthropic_snapshot(has_budget).provider_label == "Anthropic"@,
        spec_anthropic_snapshot(has_budget).account_url == Some(
            "https://console.anthropic.com/settings/billing"@,
        ),
        spec_anthropic_snapshot(true).tooltip
            == "Anthropic does not expose remaining credits via API. Check https://console.anthropic.com/settings/billing for actual spend."@,
        spec_anthropic_snapshot(false).tooltip
            == "Anthropic does not expose remaining credits via API. Configure ai_credit_status.monthly_budget_usd to show an estimated monthly spend label, or check https://console.anthropic.com/settings/billing for actual spend."@,
        spec_mistral_snapshot(has_budget).provider_label == "Mistral"@,
        spec_mistral_snapshot(has_budget).account_url == Some(
            "https://console.mistral.ai/billing"@,
        ),
        spec_mistral_snapshot(true).tooltip
            == "Mistral does not expose remaining credits via API. Check https://console.mistral.ai/billing for actual spend."@,
        spec_mistral_snapshot(false).tooltip
            == "Mistral does not expose remaining credits via API. Configure ai_credit_status.monthly_budget_usd to show an estimated monthly spend label, or check https://console.mistral.ai/billing for actual spend."@,
{
}

} // verus!
