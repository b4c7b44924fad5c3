//! What holds of the spend that OpenAI replies report.

use crate::float::{spec_double_format, Float};
use crate::grid::{lemma_grid_compose, lemma_rounded_exact};
use crate::json::{member_of, JsonView};
use crate::number::Double;
use crate::openai::{
    bucket_costs, bucket_results, listed_costs, result_costs, spent_usd, stated_cents, total,
};
use crate::order::lemma_nearest_zero;
use crate::ranges::{
    lemma_double_constants, lemma_double_packed, lemma_formats, lemma_leading_bit, lemma_nearest,
    lemma_quotient, lemma_sum,
};
use vstd::arithmetic::div_mod::{lemma_fundamental_div_mod, lemma_mod_multiples_basic};
use vstd::arithmetic::power2::{
    lemma2_to64, lemma2_to64_rest, lemma_pow2_adds, lemma_pow2_pos, pow2,
};
use vstd::prelude::*;

verus! {

proof fn lemma_member_finite(members: Seq<(Seq<char>, JsonView)>, key: Seq<char>)
    requires
        forall|i: int|
            0 <= i < members.len() ==> (#[trigger] members[i]).1.numbers_are_finite(),
    ensures
        member_of(members, key) matches Some(value) ==> value.numbers_are_finite(),
    decreases members.len(),
{
    if members.len() > 0 && members[0].0 != key {
        let rest = members.drop_first();
        assert forall|i: int| 0 <= i < rest.len() implies (
        #[trigger] rest[i]).1.numbers_are_finite() by {
            assert(rest[i] == members[i + 1]);
        }
        lemma_member_finite(rest, key);
    }
}

/// What is found in a value has finite numbers where the value has.
proof fn lemma_parts_finite(json: JsonView, key: Seq<char>)
    requires
        json.numbers_are_finite(),
    ensures
        json.member(key) matches Some(value) ==> value.numbers_are_finite(),
        json.number() matches Some(x) ==> x.is_finite(),
        json.items() matches Some(items) ==> forall|i: int|
            0 <= i < items.len() ==> (#[trigger] items[i]).numbers_are_finite(),
{
    match json {
        JsonView::Object(members) => lemma_member_finite(members, key),
        _ => {},
    }
}

pub open spec fn all_finite(amounts: Seq<Double>) -> bool {
    forall|i: int| 0 <= i < amounts.len() ==> (#[trigger] amounts[i]).is_finite()
}

proof fn lemma_result_costs_finite(results: Seq<JsonView>)
    requires
        forall|i: int| 0 <= i < results.len() ==> (#[trigger] results[i]).numbers_are_finite(),
    ensures
        all_finite(result_costs(results)),
    decreases results.len(),
{
    if results.len() > 0 {
        lemma_result_costs_finite(results.drop_last());
        let last = results[results.len() - 1];
        lemma_parts_finite(last, "amount"@);
        match last.member("amount"@) {
            Some(amount) => {
                lemma_parts_finite(amount, "value"@);
                match amount.member("value"@) {
                    Some(value) => lemma_parts_finite(value, ""@),
                    None => {},
                }
            },
            None => {},
        }
    }
}

proof fn lemma_bucket_costs_finite(buckets: Seq<JsonView>)
    requires
        forall|i: int| 0 <= i < buckets.len() ==> (#[trigger] buckets[i]).numbers_are_finite(),
    ensures
        all_finite(bucket_costs(buckets)),
    decreases buckets.len(),
{
    if buckets.len() > 0 {
        lemma_bucket_costs_finite(buckets.drop_last());
        let last = buckets[buckets.len() - 1];
        lemma_parts_finite(last, "results"@);
        match last.member("results"@) {
            Some(results) => lemma_parts_finite(results, ""@),
            None => {},
        }
        lemma_result_costs_finite(bucket_results(last));
    }
}

/// A sum of finite amounts is a number: once it is infinite, a finite amount leaves it so.
proof fn lemma_total_is_a_number(amounts: Seq<Double>)
    requires
        all_finite(amounts),
    ensures
        !total(amounts).is_nan(),
    decreases amounts.len(),
{
    lemma_double_constants();
    if amounts.len() > 0 {
        let before = total(amounts.drop_last());
        let last = amounts[amounts.len() - 1];
        lemma_total_is_a_number(amounts.drop_last());
        lemma_formats();
        lemma_sum(before.float(), last.float(), spec_double_format());
        lemma_double_packed(before.float().spec_plus(last.float(), spec_double_format()));
    }
}

/// The spend that a reply reports is a number where the numbers of the reply are finite.
pub proof fn reported_spend_is_a_number(parsed: JsonView)
    requires
        parsed.numbers_are_finite(),
    ensures
        spent_usd(parsed) matches Some(spent) ==> !spent.is_nan(),
{
    lemma_formats();
    lemma_double_constants();
    let format = spec_double_format();
    lemma_parts_finite(parsed, "total_usage"@);
    lemma_parts_finite(parsed, "data"@);
    match parsed.member("total_usage"@) {
        Some(cents) => lemma_parts_finite(cents, ""@),
        None => {},
    }
    match stated_cents(parsed) {
        Some(cents) => {
            let hundred = Double::spec_hundred();
            lemma_quotient(cents.float(), hundred.float(), format);
            lemma_double_packed(cents.float().spec_over(hundred.float(), format));
        },
        None => {
            match parsed.member("data"@) {
                Some(data) => {
                    lemma_parts_finite(data, ""@);
                    match data.items() {
                        Some(buckets) => lemma_bucket_costs_finite(buckets),
                        None => {},
                    }
                },
                None => {},
            }
            lemma_total_is_a_number(listed_costs(parsed));
        },
    }
}

/// Two lists of buckets, one after the other, list the costs of the first and then those of the
/// second.
pub proof fn joined_buckets_list_the_costs_of_both(a: Seq<JsonView>, b: Seq<JsonView>)
    ensures
        bucket_costs(a + b) == bucket_costs(a) + bucket_costs(b),
    decreases b.len(),
{
    if b.len() == 0 {
        assert(a + b =~= a);
        assert(bucket_costs(a) + bucket_costs(b) =~= bucket_costs(a));
    } else {
        assert((a + b).drop_last() =~= a + b.drop_last());
        assert((a + b).last() == b.last());
        joined_buckets_list_the_costs_of_both(a, b.drop_last());
        let added = result_costs(bucket_results(b.last()));
        assert((bucket_costs(a) + bucket_costs(b.drop_last())) + added =~= bucket_costs(a) + (
        bucket_costs(b.drop_last()) + added));
    }
}

/// Two lists of results, one after the other, list the costs of the first and then those of the
/// second.
pub proof fn joined_results_list_the_costs_of_both(a: Seq<JsonView>, b: Seq<JsonView>)
    ensures
        result_costs(a + b) == result_costs(a) + result_costs(b),
    decreases b.len(),
{
    if b.len() == 0 {
        assert(a + b =~= a);
        assert(result_costs(a) + result_costs(b) =~= result_costs(a));
    } else {
        assert((a + b).drop_last() =~= a + b.drop_last());
        assert((a + b).last() == b.last());
        joined_results_list_the_costs_of_both(a, b.drop_last());
        assert(result_costs(a + b) =~= result_costs(a) + result_costs(b));
    }
}

/// The number is the value of the result's amount.
pub open spec fn has_amount(result: JsonView, cost: Double) -> bool {
    &&& result.member("amount"@) matches Some(amount)
    &&& amount.member("value"@) == Some(JsonView::Number(Some(cost)))
}

/// A single result lists the number that is the value of its amount, and nothing where there is
/// no such number.
pub proof fn a_result_lists_its_amount(result: JsonView, cost: Double)
    ensures
        has_amount(result, cost) ==> result_costs(seq![result]) == seq![cost],
        (forall|other: Double| !has_amount(result, other)) ==> result_costs(seq![result])
            == Seq::<Double>::empty(),
{
    assert(seq![result].drop_last() =~= seq![]);
    assert(result_costs(seq![]) =~= seq![]);
    match result.member("amount"@) {
        Some(amount) => match amount.member("value"@) {
            Some(JsonView::Number(Some(x))) => {
                assert(has_amount(result, x));
            },
            _ => {},
        },
        None => {},
    }
}

/// A single bucket lists the costs of its results, and nothing where these are no array.
pub proof fn a_bucket_lists_the_costs_of_its_results(bucket: JsonView, results: Seq<JsonView>)
    ensures
        bucket.member("results"@) == Some(JsonView::Array(results)) ==> bucket_costs(seq![bucket])
            == result_costs(results),
        !(bucket.member("results"@) matches Some(JsonView::Array(_))) ==> bucket_costs(seq![bucket])
            == Seq::<Double>::empty(),
{
    assert(seq![bucket].drop_last() =~= seq![]);
    assert(bucket_costs(seq![]) =~= seq![]);
    assert(result_costs(seq![]) =~= seq![]);
    assert(bucket_costs(seq![bucket]) =~= result_costs(bucket_results(bucket)));
}

/// A total starts at zero, and every further amount is added to it.
pub proof fn totals_take_in_every_amount(amounts: Seq<Double>, next: Double)
    ensures
        total(Seq::<Double>::empty()) == Double::spec_zero(),
        total(amounts.push(next)) == total(amounts).spec_plus(next),
{
    assert(amounts.push(next).drop_last() =~= amounts);
}

/// A total that is stated in cents decides: the spend is a hundredth of it, whatever the reply
/// lists besides.
pub proof fn stated_totals_decide(parsed: JsonView, cents: Double)
    requires
        parsed.member("total_usage"@) == Some(JsonView::Number(Some(cents))),
    ensures
        spent_usd(parsed) == Some(cents.spec_over(Double::spec_hundred())),
{
}

/// Without a stated total the spend is the sum of the costs of all buckets, and nothing where
/// there is no cost.
pub proof fn listed_costs_make_the_spend(parsed: JsonView, buckets: Seq<JsonView>)
    requires
        !(parsed.member("total_usage"@) matches Some(JsonView::Number(Some(_)))),
    ensures
        parsed.member("data"@) == Some(JsonView::Array(buckets)) ==> {
            &&& bucket_costs(buckets).len() == 0 ==> spent_usd(parsed) is None
            &&& bucket_costs(buckets).len() > 0 ==> spent_usd(parsed) == Some(
                total(bucket_costs(buckets)),
            )
        },
        !(parsed.member("data"@) matches Some(JsonView::Array(_))) ==> spent_usd(parsed) is None,
{
}

/// A reply that states no total and lists one bucket reports the sum of the costs in it, each
/// of them once, for any number of them.
pub proof fn every_cost_of_a_bucket_counts(
    parsed: JsonView,
    bucket: JsonView,
    results: Seq<JsonView>,
    costs: Seq<Double>,
)
    requires
        lists_buckets(parsed, seq![bucket]),
        bucket.member("results"@) == Some(JsonView::Array(results)),
        results.len() == costs.len() > 0,
        forall|i: int|
            0 <= i < results.len() ==> has_amount(#[trigger] results[i], costs[i]),
    ensures
        spent_usd(parsed) == Some(total(costs)),
{
    a_bucket_lists_the_costs_of_its_results(bucket, results);
    lemma_costs_of_results(results, costs);
}

proof fn lemma_costs_of_results(results: Seq<JsonView>, costs: Seq<Double>)
    requires
        results.len() == costs.len(),
        forall|i: int|
            0 <= i < results.len() ==> has_amount(#[trigger] results[i], costs[i]),
    ensures
        result_costs(results) == costs,
    decreases results.len(),
{
    if results.len() > 0 {
        let before = results.drop_last();
        assert forall|i: int| 0 <= i < before.len() implies has_amount(
            #[trigger] before[i],
            costs.drop_last()[i],
        ) by {
            assert(before[i] == results[i]);
        }
        lemma_costs_of_results(before, costs.drop_last());
        let last = results[results.len() - 1];
        assert(last == results.last());
        assert(costs.drop_last().push(costs.last()) =~= costs);
    } else {
        assert(costs =~= seq![]);
    }
}

/// The reply states no total, and lists these buckets.
pub open spec fn lists_buckets(parsed: JsonView, buckets: Seq<JsonView>) -> bool {
    stated_cents(parsed) is None && parsed.member("data"@) == Some(JsonView::Array(buckets))
}

/// A reply that lists the buckets of two others reports nothing only where neither does, and
/// what the one reports where the other reports nothing.
pub proof fn joined_reports_report_what_either_does(
    a: JsonView,
    b: JsonView,
    both: JsonView,
    buckets_a: Seq<JsonView>,
    buckets_b: Seq<JsonView>,
)
    requires
        lists_buckets(a, buckets_a),
        lists_buckets(b, buckets_b),
        lists_buckets(both, buckets_a + buckets_b),
    ensures
        spent_usd(both) is None <==> spent_usd(a) is None && spent_usd(b) is None,
        spent_usd(b) is None ==> spent_usd(both) == spent_usd(a),
        spent_usd(a) is None ==> spent_usd(both) == spent_usd(b),
{
    joined_buckets_list_the_costs_of_both(buckets_a, buckets_b);
    let (x, y) = (bucket_costs(buckets_a), bucket_costs(buckets_b));
    if y.len() == 0 {
        assert(x + y =~= x);
    }
    if x.len() == 0 {
        assert(x + y =~= y);
    }
}

/// The sum of some amounts without any rounding, in units of `2^-1074`.
pub open spec fn exact_sum(amounts: Seq<Double>) -> int
    decreases amounts.len(),
{
    if amounts.len() == 0 {
        0
    } else {
        exact_sum(amounts.drop_last()) + amounts.last().value()
    }
}

/// The sum of some amounts without their signs, in units of `2^-1074`.
pub open spec fn exact_size(amounts: Seq<Double>) -> int
    decreases amounts.len(),
{
    if amounts.len() == 0 {
        0
    } else {
        let value = amounts.last().value();
        exact_size(amounts.drop_last()) + if value < 0 {
            -value
        } else {
            value
        }
    }
}

/// The amounts are whole numbers, and without their signs add up to no more than `2^53`.
pub open spec fn small_and_whole(amounts: Seq<Double>) -> bool {
    &&& all_finite(amounts)
    &&& forall|i: int|
        0 <= i < amounts.len() ==> (#[trigger] amounts[i]).value() % (pow2(1074) as int) == 0
    &&& exact_size(amounts) <= pow2(53) * pow2(1074)
}

/// Some units that make a whole number of a size up to `2^53`, all of which can be held.
spec fn holdable(value: int) -> bool {
    &&& value % (pow2(1074) as int) == 0
    &&& -(pow2(53) * pow2(1074)) <= value <= pow2(53) * pow2(1074)
}

/// The number nearest to some units, with no sign where there are none.
spec fn float_at(value: int) -> Float {
    Float {
        neg: value < 0,
        mag: spec_double_format().nearest((if value < 0 { -value } else { value }) as nat, 1),
    }
}

proof fn lemma_holdable(value: int)
    requires
        holdable(value),
    ensures
        float_at(value).is_finite(spec_double_format()),
        float_at(value).value(spec_double_format()) == value,
        Double::of_float(float_at(value)).float() == float_at(value),
{
    lemma_formats();
    lemma2_to64();
    lemma2_to64_rest();
    lemma_pow2_pos(1074);
    let format = spec_double_format();
    let p = pow2(1074) as int;
    let size = (if value < 0 { -value } else { value }) as nat;
    let n = size as int / p;
    lemma_fundamental_div_mod(value, p);
    lemma_fundamental_div_mod(size as int, p);
    let q = value / p;
    let count = if value < 0 { -q } else { q };
    assert(size == count * p) by (nonlinear_arith)
        requires
            value == p * q,
            count == q && size == value || count == -q && size == -value,
    ;
    lemma_mod_multiples_basic(count, p);
    assert(size == n * p) by (nonlinear_arith)
        requires
            size == p * n,
    ;
    assert(0 <= n <= pow2(53)) by (nonlinear_arith)
        requires
            size == n * p,
            0 <= size <= pow2(53) * p,
            p > 0,
    ;
    lemma_nearest(format, size, 1);
    if n == 0 {
        assert(size == 0) by (nonlinear_arith)
            requires
                size == n * p,
                n == 0,
        ;
        lemma_nearest_zero(format, 1);
    } else {
        let m = n as nat;
        assert(m * pow2(0) == m);
        let moved = if m < pow2(53) {
            lemma_leading_bit(m, 52, 0)
        } else {
            0
        };
        let man = m * pow2(moved);
        let e = (1074 - moved) as nat;
        lemma_grid_compose(52, e, man);
        lemma_pow2_adds(e, moved);
        assert(man * pow2(e) == size) by (nonlinear_arith)
            requires
                man == m * pow2(moved),
                size == m * p,
                pow2(e) * pow2(moved) == p,
        ;
        lemma_rounded_exact(52, format.inf as nat, e * pow2(52) + man, size, 1);
    }
    lemma_double_packed(float_at(value));
}

/// Adding a whole number to another is exact as long as the sum can be held.
proof fn lemma_exact_plus(value: int, x: Double)
    requires
        holdable(value),
        x.is_finite(),
        holdable(value + x.value()),
    ensures
        Double::of_float(float_at(value)).spec_plus(x) == Double::of_float(
            float_at(value + x.value()),
        ),
{
    lemma_formats();
    lemma_holdable(value);
    lemma_nearest_zero(spec_double_format(), 1);
}

proof fn lemma_sum_within_size(amounts: Seq<Double>)
    ensures
        -exact_size(amounts) <= exact_sum(amounts) <= exact_size(amounts),
    decreases amounts.len(),
{
    if amounts.len() > 0 {
        lemma_sum_within_size(amounts.drop_last());
    }
}

proof fn lemma_total_exact(amounts: Seq<Double>)
    requires
        small_and_whole(amounts),
    ensures
        holdable(exact_sum(amounts)),
        total(amounts) == Double::of_float(float_at(exact_sum(amounts))),
    decreases amounts.len(),
{
    lemma_pow2_pos(1074);
    lemma_sum_within_size(amounts);
    let p = pow2(1074) as int;
    if amounts.len() == 0 {
        lemma_formats();
        lemma_nearest_zero(spec_double_format(), 1);
    } else {
        let before = amounts.drop_last();
        let last = amounts[amounts.len() - 1];
        assert forall|i: int| 0 <= i < before.len() implies (#[trigger] before[i]).is_finite()
            && before[i].value() % p == 0 by {
            assert(before[i] == amounts[i]);
        }
        lemma_total_exact(before);
        let (a, b) = (exact_sum(before), last.value());
        lemma_fundamental_div_mod(a, p);
        lemma_fundamental_div_mod(b, p);
        lemma_mod_multiples_basic(a / p + b / p, p);
        assert(a + b == (a / p + b / p) * p) by (nonlinear_arith)
            requires
                a == p * (a / p),
                b == p * (b / p),
        ;
        lemma_exact_plus(a, last);
    }
}

proof fn lemma_joined_sums(a: Seq<Double>, b: Seq<Double>)
    ensures
        exact_sum(a + b) == exact_sum(a) + exact_sum(b),
        exact_size(a + b) == exact_size(a) + exact_size(b),
    decreases b.len(),
{
    if b.len() == 0 {
        assert(a + b =~= a);
    } else {
        assert((a + b).drop_last() =~= a + b.drop_last());
        assert((a + b).last() == b.last());
        lemma_joined_sums(a, b.drop_last());
    }
}

/// Whole amounts are added up without any rounding, as long as they are small.
pub proof fn small_totals_are_exact(amounts: Seq<Double>)
    requires
        small_and_whole(amounts),
    ensures
        total(amounts).is_finite(),
        total(amounts).value() == exact_sum(amounts),
{
    lemma_total_exact(amounts);
    lemma_holdable(exact_sum(amounts));
}

/// A reply that lists the buckets of two others reports the sum of what they report, where the
/// amounts are whole numbers and small, so that no sum is rounded.
pub proof fn joined_reports_add_up(
    a: JsonView,
    b: JsonView,
    both: JsonView,
    buckets_a: Seq<JsonView>,
    buckets_b: Seq<JsonView>,
)
    requires
        lists_buckets(a, buckets_a),
        lists_buckets(b, buckets_b),
        lists_buckets(both, buckets_a + buckets_b),
        small_and_whole(bucket_costs(buckets_a + buckets_b)),
        spent_usd(a) is Some,
        spent_usd(b) is Some,
    ensures
        spent_usd(both) == Some(spent_usd(a)->0.spec_plus(spent_usd(b)->0)),
        spent_usd(both)->0.value() == spent_usd(a)->0.value() + spent_usd(b)->0.value(),
{
    joined_buckets_list_the_costs_of_both(buckets_a, buckets_b);
    let (x, y) = (bucket_costs(buckets_a), bucket_costs(buckets_b));
    let all = x + y;
    lemma_joined_sums(x, y);
    lemma_sum_within_size(x);
    lemma_sum_within_size(y);
    let p = pow2(1074) as int;
    assert forall|i: int| 0 <= i < x.len() implies (#[trigger] x[i]).is_finite()
        && x[i].value() % p == 0 by {
        assert(x[i] == all[i]);
    }
    assert forall|i: int| 0 <= i < y.len() implies (#[trigger] y[i]).is_finite()
        && y[i].value() % p == 0 by {
        assert(y[i] == all[x.len() + i]);
    }
    lemma_total_exact(x);
    lemma_total_exact(y);
    lemma_total_exact(all);
    lemma_holdable(exact_sum(x));
    lemma_holdable(exact_sum(y));
    lemma_holdable(exact_sum(all));
    lemma_exact_plus(exact_sum(x), total(y));
}

} // verus!
