//! Spend on the OpenAI platform in the running month.

use crate::clock::{UsageWindow, UsageWindowView};
use crate::decimal::{hundredths_text, integer_text, write_hundredths, write_integer};
use crate::estimate::{make_silent_snapshot, silent_snapshot};
use crate::json::{items_view, Json, JsonView};
use crate::number::{Double, Single};
use crate::snapshot::{CreditSnapshot, CreditSnapshotView};
use crate::text::{join_texts, joined, mentions, text_mentions, texts_of};
use vstd::prelude::*;
use vstd::string::*;

verus! {

/// The cost that one result of a bucket reports.
pub open spec fn result_cost(result: JsonView) -> Option<Double> {
    match result.member("amount"@) {
        Some(amount) => match amount.member("value"@) {
            Some(value) => value.number(),
            None => None,
        },
        None => None,
    }
}

/// The costs of a list of results, in order; results without one are passed over.
pub open spec fn result_costs(results: Seq<JsonView>) -> Seq<Double>
    decreases results.len(),
{
    if results.len() == 0 {
        seq![]
    } else {
        let before = result_costs(results.drop_last());
        match result_cost(results.last()) {
            Some(cost) => before.push(cost),
            None => before,
        }
    }
}

/// The results of one bucket.
pub open spec fn bucket_results(bucket: JsonView) -> Seq<JsonView> {
    match bucket.member("results"@) {
        Some(results) => match results.items() {
            Some(items) => items,
            None => seq![],
        },
        None => seq![],
    }
}

/// The costs of a list of buckets, in order.
pub open spec fn bucket_costs(buckets: Seq<JsonView>) -> Seq<Double>
    decreases buckets.len(),
{
    if buckets.len() == 0 {
        seq![]
    } else {
        bucket_costs(buckets.drop_last()) + result_costs(bucket_results(buckets.last()))
    }
}

/// The costs that a reply lists.
pub open spec fn listed_costs(parsed: JsonView) -> Seq<Double> {
    match parsed.member("data"@) {
        Some(data) => match data.items() {
            Some(buckets) => bucket_costs(buckets),
            None => seq![],
        },
        None => seq![],
    }
}

/// The amounts added up from the first to the last, each sum rounded.
pub open spec fn total(amounts: Seq<Double>) -> Double
    decreases amounts.len(),
{
    if amounts.len() == 0 {
        Double::spec_zero()
    } else {
        total(amounts.drop_last()).spec_plus(amounts.last())
    }
}

/// The sum of some costs, or nothing where there is none.
pub open spec fn running(costs: Seq<Double>) -> Option<Double> {
    if costs.len() > 0 {
        Some(total(costs))
    } else {
        None
    }
}

/// The total in cents that a reply states outright.
pub open spec fn stated_cents(parsed: JsonView) -> Option<Double> {
    match parsed.member("total_usage"@) {
        Some(cents) => cents.number(),
        None => None,
    }
}

/// The spend in dollars that a reply reports: the total that it states in cents, else the sum
/// of the costs that it lists, else nothing.
pub open spec fn spent_usd(parsed: JsonView) -> Option<Double> {
    match stated_cents(parsed) {
        Some(cents) => Some(cents.spec_over(Double::spec_hundred())),
        None => running(listed_costs(parsed)),
    }
}

fn read_cost(result: &Json) -> (cost: Option<Double>)
    ensures
        cost == result_cost(result@),
{
    match result.member("amount") {
        Some(amount) => match amount.member("value") {
            Some(value) => value.number(),
            None => None,
        },
        None => None,
    }
}

/// The sum so far, with the costs of a list of results added to it.
fn add_results(results: &Vec<Json>, so_far: Option<Double>, Ghost(before): Ghost<Seq<Double>>) -> (
sum: Option<Double>)
    requires
        so_far == running(before),
    ensures
        sum == running(before + result_costs(items_view(results@))),
{
    let mut sum = so_far;
    let mut i: usize = 0;
    let ghost all = items_view(results@);
    assert(all.take(0) =~= seq![]);
    assert(before + result_costs(all.take(0)) =~= before);
    while i < results.len()
        invariant
            i <= results@.len(),
            all == items_view(results@),
            sum == running(before + result_costs(all.take(i as int))),
        decreases results@.len() - i,
    {
        proof {
            let next = all.take(i + 1);
            assert(next.drop_last() =~= all.take(i as int));
            assert(next.last() == results@[i as int]@);
        }
        let ghost costs = before + result_costs(all.take(i as int));
        match read_cost(&results[i]) {
            Some(cost) => {
                sum = Some(
                    match sum {
                        Some(s) => s.plus(cost),
                        None => Double::zero().plus(cost),
                    },
                );
                proof {
                    assert(before + result_costs(all.take(i + 1)) =~= costs.push(cost));
                    assert(costs.push(cost).drop_last() =~= costs);
                    assert(costs.len() == 0 ==> total(costs) == Double::spec_zero());
                }
            },
            None => {},
        }
        i = i + 1;
    }
    assert(all.take(i as int) =~= all);
    sum
}

/// The sum of the costs of a list of buckets.
fn add_buckets(buckets: &Vec<Json>) -> (sum: Option<Double>)
    ensures
        sum == running(bucket_costs(items_view(buckets@))),
{
    let mut sum: Option<Double> = None;
    let mut i: usize = 0;
    let ghost all = items_view(buckets@);
    assert(all.take(0) =~= seq![]);
    while i < buckets.len()
        invariant
            i <= buckets@.len(),
            all == items_view(buckets@),
            sum == running(bucket_costs(all.take(i as int))),
        decreases buckets@.len() - i,
    {
        let ghost before = bucket_costs(all.take(i as int));
        proof {
            let next = all.take(i + 1);
            assert(next.drop_last() =~= all.take(i as int));
            assert(next.last() == buckets@[i as int]@);
            assert(before + result_costs(seq![]) =~= before);
        }
        match buckets[i].member("results") {
            Some(results) => match results.items() {
                Some(items) => {
                    sum = add_results(items, sum, Ghost(before));
                },
                None => {},
            },
            None => {},
        }
        i = i + 1;
    }
    assert(all.take(i as int) =~= all);
    sum
}

/// The spend in dollars that a usage reply reports.
pub fn parse_openai_spent_usd(parsed: &Json) -> (spent: Option<Double>)
    ensures
        spent == spent_usd(parsed@),
{
    let stated = match parsed.member("total_usage") {
        Some(cents) => cents.number(),
        None => None,
    };
    match stated {
        Some(cents) => {
            return Some(cents.over(Double::hundred()));
        },
        None => {},
    }
    match parsed.member("data") {
        Some(data) => match data.items() {
            Some(buckets) => add_buckets(buckets),
            None => None,
        },
        None => None,
    }
}

/// The places that are asked for the month's usage, the preferred one first.
pub open spec fn candidate_uris(window: UsageWindowView) -> Seq<Seq<char>> {
    seq![
        "https://api.openai.com/v1/organization/costs?start_time="@ + integer_text(
            window.start_time,
        ) + "&end_time="@ + integer_text(window.end_time) + "&bucket_width=1d"@,
        "https://api.openai.com/v1/dashboard/billing/usage?start_date="@ + window.start_date
            + "&end_date="@ + window.end_date,
        "https://api.openai.com/v1/usage?start_date="@ + window.start_date + "&end_date="@
            + window.end_date,
        "https://api.openai.com/v1/usage?date="@ + window.end_date,
    ]
}

pub fn write_candidate_uris(window: &UsageWindow) -> (uris: Vec<String>)
    ensures
        texts_of(uris@) == candidate_uris(window@),
{
    let mut costs = "https://api.openai.com/v1/organization/costs?start_time=".to_owned();
    costs.append(write_integer(window.start_time).as_str());
    costs.append("&end_time=");
    costs.append(write_integer(window.end_time).as_str());
    costs.append("&bucket_width=1d");
    let mut billing = "https://api.openai.com/v1/dashboard/billing/usage?start_date=".to_owned();
    billing.append(window.start_date.as_str());
    billing.append("&end_date=");
    billing.append(window.end_date.as_str());
    let mut usage = "https://api.openai.com/v1/usage?start_date=".to_owned();
    usage.append(window.start_date.as_str());
    usage.append("&end_date=");
    usage.append(window.end_date.as_str());
    let mut day = "https://api.openai.com/v1/usage?date=".to_owned();
    day.append(window.end_date.as_str());
    let mut uris: Vec<String> = Vec::new();
    uris.push(costs);
    uris.push(billing);
    uris.push(usage);
    uris.push(day);
    assert(texts_of(uris@) =~= candidate_uris(window@));
    uris
}

/// The share of the budget that is spent.
pub open spec fn budget_share(spent: Double, budget: Single) -> Single {
    spent.spec_over(budget.spec_widened()).spec_clamped().spec_narrowed()
}

/// The snapshot of a month whose spend is known; `budget` is the usable one.
pub open spec fn spec_openai_snapshot(spent: Double, budget: Option<Single>) -> CreditSnapshotView {
    CreditSnapshotView {
        provider_label: "OpenAI"@,
        used_ratio: match budget {
            Some(b) => budget_share(spent, b),
            None => Single::spec_zero(),
        },
        label: "$"@ + hundredths_text(spent) + " used this month"@,
        tooltip: match budget {
            Some(b) => "OpenAI usage this month: $"@ + hundredths_text(spent) + " of $"@
                + hundredths_text(b.spec_widened()) + " configured budget"@,
            None => "OpenAI usage this month: $"@ + hundredths_text(spent)
                + ". Configure ai_credit_status.monthly_budget_usd to track percentage."@,
        },
        uses_estimated_budget: false,
        account_url: Some("https://platform.openai.com/usage"@),
    }
}

pub fn openai_snapshot(spent: Double, budget: Option<Single>) -> (snapshot: CreditSnapshot)
    ensures
        snapshot@ == spec_openai_snapshot(spent, budget),
{
    let spent_text = write_hundredths(spent);
    let mut label = "$".to_owned();
    label.append(spent_text.as_str());
    label.append(" used this month");
    let mut tooltip = "OpenAI usage this month: $".to_owned();
    tooltip.append(spent_text.as_str());
    let used_ratio = match budget {
        Some(b) => {
            tooltip.append(" of $");
            tooltip.append(write_hundredths(b.widened()).as_str());
            tooltip.append(" configured budget");
            spent.over(b.widened()).clamped().narrowed()
        },
        None => {
            tooltip.append(
                ". Configure ai_credit_status.monthly_budget_usd to track percentage.",
            );
            Single::zero()
        },
    };
    CreditSnapshot {
        provider_label: "OpenAI".to_owned(),
        used_ratio,
        label,
        tooltip,
        uses_estimated_budget: false,
        account_url: Some("https://platform.openai.com/usage".to_owned()),
    }
}

/// One of the places said that it takes a session key.
pub open spec fn asks_session_key(errors: Seq<Seq<char>>) -> bool {
    exists|i: int| 0 <= i < errors.len() && mentions(#[trigger] errors[i], "session key"@)
}

/// What is said where no place reported spend.
pub open spec fn unavailable_text(errors: Seq<Seq<char>>, has_budget: bool) -> Seq<char> {
    if asks_session_key(errors) {
        if has_budget {
            "OpenAI usage endpoint rejected API-key access (requires browser session key). There is usually no account toggle to enable this endpoint for standard API keys. Tip: use an Organization Admin API key with OpenAI organization usage/cost APIs for programmatic access. Check https://platform.openai.com/usage for actual spend."@
        } else {
            "OpenAI usage endpoint rejected API-key access (requires browser session key). There is usually no account toggle to enable this endpoint for standard API keys. Tip: use an Organization Admin API key with OpenAI organization usage/cost APIs for programmatic access. Open https://platform.openai.com/usage for actual spend, or configure ai_credit_status.monthly_budget_usd for an estimated monthly label."@
        }
    } else {
        if has_budget {
            "OpenAI usage endpoint did not return parsable data. Check https://platform.openai.com/usage for actual spend."@
        } else {
            "OpenAI usage endpoint did not return parsable data. Latest errors: "@ + joined(
                errors,
                " | "@,
            )
        }
    }
}

/// The snapshot of a month whose spend no place reported.
pub open spec fn spec_openai_unavailable(
    errors: Seq<Seq<char>>,
    has_budget: bool,
) -> CreditSnapshotView {
    silent_snapshot(
        "OpenAI"@,
        has_budget,
        unavailable_text(errors, has_budget),
        "https://platform.openai.com/usage"@,
    )
}

fn find_session_key(errors: &Vec<String>) -> (found: bool)
    ensures
        found == asks_session_key(texts_of(errors@)),
{
    let ghost all = texts_of(errors@);
    let mut i: usize = 0;
    while i < errors.len()
        invariant
            i <= errors@.len(),
            all == texts_of(errors@),
            forall|j: int| 0 <= j < i ==> !mentions(#[trigger] all[j], "session key"@),
        decreases errors@.len() - i,
    {
        if text_mentions(&errors[i], "session key") {
            assert(mentions(all[i as int], "session key"@));
            return true;
        }
        i = i + 1;
    }
    false
}

pub fn openai_unavailable(errors: &Vec<String>, has_budget: bool) -> (snapshot: CreditSnapshot)
    ensures
        snapshot@ == spec_openai_unavailable(texts_of(errors@), has_budget),
{
    let tooltip = if find_session_key(errors) {
        if has_budget {
            "OpenAI usage endpoint rejected API-key access (requires browser session key). There is usually no account toggle to enable this endpoint for standard API keys. Tip: use an Organization Admin API key with OpenAI organization usage/cost APIs for programmatic access. Check https://platform.openai.com/usage for actual spend.".to_owned()
        } else {
            "OpenAI usage endpoint rejected API-key access (requires browser session key). There is usually no account toggle to enable this endpoint for standard API keys. Tip: use an Organization Admin API key with OpenAI organization usage/cost APIs for programmatic access. Open https://platform.openai.com/usage for actual spend, or configure ai_credit_status.monthly_budget_usd for an estimated monthly label.".to_owned()
        }
    } else {
        if has_budget {
            "OpenAI usage endpoint did not return parsable data. Check https://platform.openai.com/usage for actual spend.".to_owned()
        } else {
            let mut text = "OpenAI usage endpoint did not return parsable data. Latest errors: ".to_owned();
            text.append(join_texts(errors, " | ").as_str());
            text
        }
    };
    make_silent_snapshot("OpenAI", has_budget, tooltip, "https://platform.openai.com/usage")
}

} // verus!
