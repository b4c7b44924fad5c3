//! Providers that do not say what was spent: all that can be shown is whether a budget is set.

use crate::number::Single;
use crate::request::{bearer_request, spec_bearer_request, HttpRequest, HttpRequestView};
use crate::snapshot::{CreditSnapshot, CreditSnapshotView};
use vstd::prelude::*;
use vstd::string::*;

verus! {

/// A budget, where it is above zero.
pub open spec fn spec_usable_budget(budget: Option<Single>) -> Option<Single> {
    match budget {
        Some(b) => if b.spec_positive() {
            Some(b)
        } else {
            None
        },
        None => None,
    }
}

pub fn usable_budget(budget: Option<Single>) -> (usable: Option<Single>)
    ensures
        usable == spec_usable_budget(budget),
{
    match budget {
        Some(b) => if b.positive() {
            Some(b)
        } else {
            None
        },
        None => None,
    }
}

/// The request by which an Anthropic key is tried.
pub open spec fn spec_anthropic_request(key: Seq<char>) -> HttpRequestView {
    HttpRequestView {
        uri: "https://api.anthropic.com/v1/models"@,
        headers: seq![("x-api-key"@, key), ("anthropic-version"@, "2023-06-01"@)],
        body_on_success: false,
    }
}

pub fn anthropic_request(key: String) -> (request: HttpRequest)
    ensures
        request@ == spec_anthropic_request(key@),
{
    let mut headers: Vec<(String, String)> = Vec::new();
    headers.push(("x-api-key".to_owned(), key));
    headers.push(("anthropic-version".to_owned(), "2023-06-01".to_owned()));
    let request = HttpRequest {
        uri: "https://api.anthropic.com/v1/models".to_owned(),
        headers,
        body_on_success: false,
    };
    assert(request@.headers =~= spec_anthropic_request(key@).headers);
    request
}

/// The request by which a Mistral key is tried.
pub open spec fn spec_mistral_request(key: Seq<char>) -> HttpRequestView {
    HttpRequestView {
        body_on_success: false,
        ..spec_bearer_request("https://api.mistral.ai/v1/models"@, key)
    }
}

pub fn mistral_request(key: &String) -> (request: HttpRequest)
    ensures
        request@ == spec_mistral_request(key@),
{
    let request = bearer_request("https://api.mistral.ai/v1/models".to_owned(), key);
    HttpRequest { uri: request.uri, headers: request.headers, body_on_success: false }
}

/// The snapshot of a provider that does not report spend. With a budget it stands for an
/// estimate and has no label; without one it says that usage is unavailable.
pub open spec fn silent_snapshot(
    provider_label: Seq<char>,
    has_budget: bool,
    tooltip: Seq<char>,
    account_url: Seq<char>,
) -> CreditSnapshotView {
    CreditSnapshotView {
        provider_label,
        used_ratio: Single::spec_zero(),
        label: if has_budget {
            ""@
        } else {
            "Usage unavailable"@
        },
        tooltip,
        uses_estimated_budget: has_budget,
        account_url: Some(account_url),
    }
}

pub fn make_silent_snapshot(
    provider_label: &str,
    has_budget: bool,
    tooltip: String,
    account_url: &str,
) -> (snapshot: CreditSnapshot)
    ensures
        snapshot@ == silent_snapshot(provider_label@, has_budget, tooltip@, account_url@),
{
    let label = if has_budget {
        "".to_owned()
    } else {
        "Usage unavailable".to_owned()
    };
    CreditSnapshot {
        provider_label: provider_label.to_owned(),
        used_ratio: Single::zero(),
        label,
        tooltip,
        uses_estimated_budget: has_budget,
        account_url: Some(account_url.to_owned()),
    }
}

pub open spec fn spec_anthropic_snapshot(has_budget: bool) -> CreditSnapshotView {
    silent_snapshot(
        "Anthropic"@,
        has_budget,
        if has_budget {
            "Anthropic does not expose remaining credits via API. Check https://console.anthropic.com/settings/billing for actual spend."@
        } else {
            "Anthropic does not expose remaining credits via API. Configure ai_credit_status.monthly_budget_usd to show an estimated monthly spend label, or check https://console.anthropic.com/settings/billing for actual spend."@
        },
        "https://console.anthropic.com/settings/billing"@,
    )
}

/// The snapshot of an Anthropic account whose key was accepted.
pub fn anthropic_snapshot(has_budget: bool) -> (snapshot: CreditSnapshot)
    ensures
        snapshot@ == spec_anthropic_snapshot(has_budget),
{
    let tooltip = if has_budget {
        "Anthropic does not expose remaining credits via API. Check https://console.anthropic.com/settings/billing for actual spend.".to_owned()
    } else {
        "Anthropic does not expose remaining credits via API. Configure ai_credit_status.monthly_budget_usd to show an estimated monthly spend label, or check https://console.anthropic.com/settings/billing for actual spend.".to_owned()
    };
    make_silent_snapshot(
        "Anthropic",
        has_budget,
        tooltip,
        "https://console.anthropic.com/settings/billing",
    )
}

pub open spec fn spec_mistral_snapshot(has_budget: bool) -> CreditSnapshotView {
    silent_snapshot(
        "Mistral"@,
        has_budget,
        if has_budget {
            "Mistral does not expose remaining credits via API. Check https://console.mistral.ai/billing for actual spend."@
        } else {
            "Mistral does not expose remaining credits via API. Configure ai_credit_status.monthly_budget_usd to show an estimated monthly spend label, or check https://console.mistral.ai/billing for actual spend."@
        },
        "https://console.mistral.ai/billing"@,
    )
}

/// The snapshot of a Mistral account whose key was accepted.
pub fn mistral_snapshot(has_budget: bool) -> (snapshot: CreditSnapshot)
    ensures
        snapshot@ == spec_mistral_snapshot(has_budget),
{
    let tooltip = if has_budget {
        "Mistral does not expose remaining credits via API. Check https://console.mistral.ai/billing for actual spend.".to_owned()
    } else {
        "Mistral does not expose remaining credits via API. Configure ai_credit_status.monthly_budget_usd to show an estimated monthly spend label, or check https://console.mistral.ai/billing for actual spend.".to_owned()
    };
    make_silent_snapshot("Mistral", has_budget, tooltip, "https://console.mistral.ai/billing")
}

} // verus!
