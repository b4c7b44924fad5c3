//! Spend on models that Zed hosts.

use crate::decimal::{hundredths_text, write_hundredths};
use crate::number::Single;
use crate::snapshot::{CreditSnapshot, CreditSnapshotView};
use vstd::prelude::*;
use vstd::string::*;

verus! {

/// Token spend of an account in the running month, in cents.
#[derive(Clone, Copy, PartialEq, Eq, Structural, Debug)]
pub struct TokenSpendUsage {
    pub spent_cents: i64,
    pub limit_cents: i64,
}

/// An amount of cents in dollars.
pub open spec fn cents_to_dollars(cents: int) -> Single {
    Single::spec_from_integer(cents).spec_over(Single::spec_hundred())
}

/// The used share: spend over limit, where a limit below one cent counts as one.
pub open spec fn spend_ratio(usage: TokenSpendUsage) -> Single {
    let limit = if usage.limit_cents < 1 { 1 } else { usage.limit_cents as int };
    Single::spec_from_integer(usage.spent_cents as int).spec_over(
        Single::spec_from_integer(limit),
    ).spec_clamped()
}

pub open spec fn spec_zed_hosted_snapshot(
    usage: TokenSpendUsage,
    account_url: Seq<char>,
) -> CreditSnapshotView {
    let spent = hundredths_text(cents_to_dollars(usage.spent_cents as int).spec_widened());
    let limit = hundredths_text(cents_to_dollars(usage.limit_cents as int).spec_widened());
    CreditSnapshotView {
        provider_label: "Zed Pro"@,
        used_ratio: spend_ratio(usage),
        label: "$"@ + spent + " used"@,
        tooltip: "Zed Pro token spend: $"@ + spent + " of $"@ + limit + " monthly limit"@,
        uses_estimated_budget: false,
        account_url: Some(account_url),
    }
}

/// The snapshot of an account from its token spend.
pub fn zed_hosted_snapshot(usage: TokenSpendUsage, account_url: String) -> (snapshot:
    CreditSnapshot)
    ensures
        snapshot@ == spec_zed_hosted_snapshot(usage, account_url@),
{
    let floor: i64 = if usage.limit_cents < 1 {
        1
    } else {
        usage.limit_cents
    };
    let limit = Single::from_integer(floor);
    let spent = Single::from_integer(usage.spent_cents);
    let hundred = Single::hundred();
    let spent_text = write_hundredths(spent.over(hundred).widened());
    let limit_text = write_hundredths(
        Single::from_integer(usage.limit_cents).over(hundred).widened(),
    );
    let mut label = "$".to_owned();
    label.append(spent_text.as_str());
    label.append(" used");
    let mut tooltip = "Zed Pro token spend: $".to_owned();
    tooltip.append(spent_text.as_str());
    tooltip.append(" of $");
    tooltip.append(limit_text.as_str());
    tooltip.append(" monthly limit");
    CreditSnapshot {
        provider_label: "Zed Pro".to_owned(),
        used_ratio: spent.over(limit).clamped(),
        label,
        tooltip,
        uses_estimated_budget: false,
        account_url: Some(account_url),
    }
}

} // verus!
