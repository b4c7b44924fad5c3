//! Premium requests of GitHub Copilot.

use crate::decimal::{whole_text, write_whole};
use crate::error::{FetchError, FetchErrorView};
use crate::number::{Double, Single};
use crate::request::{bearer_header, write_bearer, HttpRequest, HttpRequestView};
use crate::snapshot::{CreditSnapshot, CreditSnapshotView};
use crate::text::text_of;
use vstd::prelude::*;
use vstd::string::*;

verus! {

/// One quota of an account.
#[derive(Debug, Clone, Copy)]
pub struct QuotaSnapshot {
    pub percent_remaining: Option<Double>,
    pub quota_remaining: Option<Double>,
    pub entitlement: Option<Double>,
    pub unlimited: Option<bool>,
}

/// The quotas of an account.
#[derive(Debug, Clone, Copy)]
pub struct QuotaSnapshots {
    pub premium_interactions: Option<QuotaSnapshot>,
}

/// What GitHub says of a Copilot user.
#[derive(Debug)]
pub struct CopilotUser {
    pub quota_reset_date: Option<String>,
    pub quota_snapshots: Option<QuotaSnapshots>,
}

/// The mathematical counterpart of [`CopilotUser`].
pub struct CopilotUserView {
    pub quota_reset_date: Option<Seq<char>>,
    pub quota_snapshots: Option<QuotaSnapshots>,
}

impl View for CopilotUser {
    type V = CopilotUserView;

    open spec fn view(&self) -> CopilotUserView {
        CopilotUserView {
            quota_reset_date: text_of(self.quota_reset_date),
            quota_snapshots: self.quota_snapshots,
        }
    }
}

/// The request for what GitHub knows of a Copilot user.
pub open spec fn spec_copilot_request(token: Seq<char>) -> HttpRequestView {
    HttpRequestView {
        uri: "https://api.github.com/copilot_internal/user"@,
        headers: seq![
            bearer_header(token),
            ("Accept"@, "application/vnd.github+json"@),
            ("User-Agent"@, "zed-ai-credit-status"@),
            ("X-GitHub-Api-Version"@, "2022-11-28"@),
        ],
        body_on_success: true,
    }
}

pub fn copilot_request(token: &String) -> (request: HttpRequest)
    ensures
        request@ == spec_copilot_request(token@),
{
    let mut headers: Vec<(String, String)> = Vec::new();
    headers.push(("Authorization".to_owned(), write_bearer(token)));
    headers.push(("Accept".to_owned(), "application/vnd.github+json".to_owned()));
    headers.push(("User-Agent".to_owned(), "zed-ai-credit-status".to_owned()));
    headers.push(("X-GitHub-Api-Version".to_owned(), "2022-11-28".to_owned()));
    let request = HttpRequest {
        uri: "https://api.github.com/copilot_internal/user".to_owned(),
        headers,
        body_on_success: true,
    };
    assert(request@.headers =~= spec_copilot_request(token@).headers);
    request
}

/// The premium quota of a user.
pub open spec fn premium_quota(user: CopilotUserView) -> Option<QuotaSnapshot> {
    match user.quota_snapshots {
        Some(quotas) => quotas.premium_interactions,
        None => None,
    }
}

/// The used share, from the percentage that remains. Where no percentage is given, all of the
/// quota remains.
pub open spec fn used_share(percent_remaining: Option<Double>) -> Single {
    let remaining = match percent_remaining {
        Some(percent) => percent,
        None => Double::spec_hundred(),
    };
    Single::spec_hundred().spec_minus(remaining.spec_narrowed()).spec_over(
        Single::spec_hundred(),
    ).spec_clamped()
}

/// A share in percent, without decimal places.
pub open spec fn percent_text(share: Single) -> Seq<char> {
    whole_text(share.spec_times(Single::spec_hundred()).spec_widened())
}

/// How many requests of how many are used, where both numbers are known.
pub open spec fn usage_detail(quota: QuotaSnapshot) -> Seq<char> {
    match (quota.quota_remaining, quota.entitlement) {
        (Some(remaining), Some(total)) => if total.spec_positive() {
            " ("@ + whole_text(total.spec_minus(remaining)) + "/"@ + whole_text(total) + ")"@
        } else {
            seq![]
        },
        _ => seq![],
    }
}

/// When the quota starts anew, where that is known.
pub open spec fn reset_text(date: Option<Seq<char>>) -> Seq<char> {
    match date {
        Some(d) => "\nResets "@ + d,
        None => seq![],
    }
}

/// The snapshot of a plan without a limit.
pub open spec fn unlimited_snapshot() -> CreditSnapshotView {
    CreditSnapshotView {
        provider_label: "Copilot"@,
        used_ratio: Single::spec_zero(),
        label: "Premium included"@,
        tooltip: "GitHub Copilot premium requests are included with your plan"@,
        uses_estimated_budget: false,
        account_url: Some("https://github.com/settings/copilot"@),
    }
}

/// The snapshot of a plan with a limit.
pub open spec fn limited_snapshot(
    quota: QuotaSnapshot,
    reset_date: Option<Seq<char>>,
) -> CreditSnapshotView {
    let share = used_share(quota.percent_remaining);
    CreditSnapshotView {
        provider_label: "Copilot"@,
        used_ratio: share,
        label: percent_text(share) + "%"@,
        tooltip: "GitHub Copilot premium requests: "@ + percent_text(share) + "% used"@
            + usage_detail(quota) + reset_text(reset_date),
        uses_estimated_budget: false,
        account_url: Some("https://github.com/settings/copilot"@),
    }
}

pub open spec fn spec_copilot_snapshot(user: CopilotUserView) -> Result<
    CreditSnapshotView,
    FetchErrorView,
> {
    match premium_quota(user) {
        Some(quota) => if quota.unlimited == Some(true) {
            Ok(unlimited_snapshot())
        } else {
            Ok(limited_snapshot(quota, user.quota_reset_date))
        },
        None => Err(FetchErrorView::CopilotQuotaMissing),
    }
}

fn write_usage_detail(quota: &QuotaSnapshot) -> (text: String)
    ensures
        text@ == usage_detail(*quota),
{
    match (quota.quota_remaining, quota.entitlement) {
        (Some(remaining), Some(total)) => {
            if total.positive() {
                let mut text = " (".to_owned();
                text.append(write_whole(total.minus(remaining)).as_str());
                text.append("/");
                text.append(write_whole(total).as_str());
                text.append(")");
                text
            } else {
                String::new()
            }
        },
        _ => String::new(),
    }
}

fn write_reset(date: Option<String>) -> (text: String)
    ensures
        text@ == reset_text(text_of(date)),
{
    match date {
        Some(d) => {
            let mut text = "\nResets ".to_owned();
            text.append(d.as_str());
            text
        },
        None => String::new(),
    }
}

/// The snapshot of a Copilot user.
pub fn copilot_snapshot(user: CopilotUser) -> (snapshot: Result<CreditSnapshot, FetchError>)
    ensures
        match snapshot {
            Ok(s) => spec_copilot_snapshot(user@) == Ok::<_, FetchErrorView>(s@),
            Err(e) => spec_copilot_snapshot(user@) == Err::<CreditSnapshotView, _>(e@),
        },
{
    let premium = match user.quota_snapshots {
        Some(quotas) => quotas.premium_interactions,
        None => None,
    };
    let quota = match premium {
        Some(quota) => quota,
        None => {
            return Err(FetchError::CopilotQuotaMissing);
        },
    };
    let unlimited: bool = match quota.unlimited {
        Some(b) => b,
        None => false,
    };
    if unlimited {
        return Ok(
            CreditSnapshot {
                provider_label: "Copilot".to_owned(),
                used_ratio: Single::zero(),
                label: "Premium included".to_owned(),
                tooltip: "GitHub Copilot premium requests are included with your plan".to_owned(),
                uses_estimated_budget: false,
                account_url: Some("https://github.com/settings/copilot".to_owned()),
            },
        );
    }
    let remaining = match quota.percent_remaining {
        Some(percent) => percent.narrowed(),
        None => Double::hundred().narrowed(),
    };
    let hundred = Single::hundred();
    let share = hundred.minus(remaining).over(hundred).clamped();
    let percent = write_whole(share.times(hundred).widened());
    let mut label = percent.clone();
    label.append("%");
    let mut tooltip = "GitHub Copilot premium requests: ".to_owned();
    tooltip.append(percent.as_str());
    tooltip.append("% used");
    tooltip.append(write_usage_detail(&quota).as_str());
    tooltip.append(write_reset(user.quota_reset_date).as_str());
    Ok(
        CreditSnapshot {
            provider_label: "Copilot".to_owned(),
            used_ratio: share,
            label,
            tooltip,
            uses_estimated_budget: false,
            account_url: Some("https://github.com/settings/copilot".to_owned()),
        },
    )
}

/// A user stands for what the fields hold.
pub proof fn users_stand_for_their_fields(user: CopilotUser)
    ensures
        user.quota_reset_date matches Some(date) ==> user@.quota_reset_date == Some(date@),
        user.quota_reset_date is None ==> user@.quota_reset_date is None,
        user@.quota_snapshots == user.quota_snapshots,
{
}

} // verus!
