//! Credits on OpenRouter.

use crate::decimal::{hundredths_text, write_hundredths};
use crate::number::{Double, Single};
use crate::request::{bearer_request, spec_bearer_request, HttpRequest, HttpRequestView};
use crate::snapshot::{CreditSnapshot, CreditSnapshotView};
use vstd::prelude::*;
use vstd::string::*;

verus! {

/// What OpenRouter says of a key, in dollars.
#[derive(Debug, Clone, Copy)]
pub struct KeyData {
    pub limit: Option<Double>,
    pub limit_remaining: Option<Double>,
    pub usage: Double,
}

/// The request for what OpenRouter knows of a key.
pub open spec fn spec_openrouter_request(key: Seq<char>) -> HttpRequestView {
    spec_bearer_request("https://openrouter.ai/api/v1/key"@, key)
}

pub fn openrouter_request(key: &String) -> (request: HttpRequest)
    ensures
        request@ == spec_openrouter_request(key@),
{
    bearer_request("https://openrouter.ai/api/v1/key".to_owned(), key)
}

/// What is used of a limit, never below zero.
pub open spec fn used_of_limit(limit: Double, remaining: Double) -> Double {
    limit.spec_minus(remaining).spec_floored()
}

/// The snapshot of a key with a limit.
pub open spec fn metered_snapshot(limit: Double, remaining: Double, usage: Double) ->
    CreditSnapshotView {
    let used = used_of_limit(limit, remaining);
    CreditSnapshotView {
        provider_label: "OpenRouter"@,
        used_ratio: used.spec_over(limit).spec_clamped().spec_narrowed(),
        label: "$"@ + hundredths_text(used) + " used"@,
        tooltip: "OpenRouter credits: $"@ + hundredths_text(used) + " used of $"@
            + hundredths_text(limit) + " limit ($"@ + hundredths_text(usage) + " total usage)"@,
        uses_estimated_budget: false,
        account_url: Some("https://openrouter.ai/settings/credits"@),
    }
}

/// The snapshot of a key without a limit.
pub open spec fn unmetered_snapshot(usage: Double) -> CreditSnapshotView {
    CreditSnapshotView {
        provider_label: "OpenRouter"@,
        used_ratio: Single::spec_zero(),
        label: "$"@ + hundredths_text(usage) + " used"@,
        tooltip: "OpenRouter total usage: $"@ + hundredths_text(usage),
        uses_estimated_budget: false,
        account_url: Some("https://openrouter.ai/settings/credits"@),
    }
}

/// A key counts as limited where both the limit and what remains of it are known and the limit
/// is above zero.
pub open spec fn spec_openrouter_snapshot(data: KeyData) -> CreditSnapshotView {
    match (data.limit, data.limit_remaining) {
        (Some(limit), Some(remaining)) => if limit.spec_positive() {
            metered_snapshot(limit, remaining, data.usage)
        } else {
            unmetered_snapshot(data.usage)
        },
        _ => unmetered_snapshot(data.usage),
    }
}

/// The snapshot of an OpenRouter key.
pub fn openrouter_snapshot(data: KeyData) -> (snapshot: CreditSnapshot)
    ensures
        snapshot@ == spec_openrouter_snapshot(data),
{
    let usage = write_hundredths(data.usage);
    match (data.limit, data.limit_remaining) {
        (Some(limit), Some(remaining)) => {
            if limit.positive() {
                let used = limit.minus(remaining).floored();
                let used_text = write_hundredths(used);
                let mut label = "$".to_owned();
                label.append(used_text.as_str());
                label.append(" used");
                let mut tooltip = "OpenRouter credits: $".to_owned();
                tooltip.append(used_text.as_str());
                tooltip.append(" used of $");
                tooltip.append(write_hundredths(limit).as_str());
                tooltip.append(" limit ($");
                tooltip.append(usage.as_str());
                tooltip.append(" total usage)");
                return CreditSnapshot {
                    provider_label: "OpenRouter".to_owned(),
                    used_ratio: used.over(limit).clamped().narrowed(),
                    label,
                    tooltip,
                    uses_estimated_budget: false,
                    account_url: Some("https://openrouter.ai/settings/credits".to_owned()),
                };
            }
        },
        _ => {},
    }
    let mut label = "$".to_owned();
    label.append(usage.as_str());
    label.append(" used");
    let mut tooltip = "OpenRouter total usage: $".to_owned();
    tooltip.append(usage.as_str());
    CreditSnapshot {
        provider_label: "OpenRouter".to_owned(),
        used_ratio: Single::zero(),
        label,
        tooltip,
        uses_estimated_budget: false,
        account_url: Some("https://openrouter.ai/settings/credits".to_owned()),
    }
}

} // verus!
