//! The one form in which every provider's answer is shown.

use crate::number::Single;
use crate::text::text_of;
use vstd::prelude::*;

verus! {

/// What is shown of a provider: its name, the used share, a short label, a longer tooltip, and
/// the page where the account is managed.
#[derive(Debug, Clone, PartialEq)]
pub struct CreditSnapshot {
    pub provider_label: String,
    pub used_ratio: Single,
    pub label: String,
    pub tooltip: String,
    pub uses_estimated_budget: bool,
    pub account_url: Option<String>,
}

/// The mathematical counterpart of [`CreditSnapshot`].
#[verifier::ext_equal]
pub struct CreditSnapshotView {
    pub provider_label: Seq<char>,
    pub used_ratio: Single,
    pub label: Seq<char>,
    pub tooltip: Seq<char>,
    pub uses_estimated_budget: bool,
    pub account_url: Option<Seq<char>>,
}

impl View for CreditSnapshot {
    type V = CreditSnapshotView;

    open spec fn view(&self) -> CreditSnapshotView {
        CreditSnapshotView {
            provider_label: self.provider_label@,
            used_ratio: self.used_ratio,
            label: self.label@,
            tooltip: self.tooltip@,
            uses_estimated_budget: self.uses_estimated_budget,
            account_url: text_of(self.account_url),
        }
    }
}

/// A snapshot stands for what its fields hold.
pub proof fn snapshots_stand_for_their_fields(snapshot: CreditSnapshot)
    ensures
        snapshot@.provider_label == snapshot.provider_label@,
        snapshot@.used_ratio == snapshot.used_ratio,
        snapshot@.label == snapshot.label@,
        snapshot@.tooltip == snapshot.tooltip@,
        snapshot@.uses_estimated_budget == snapshot.uses_estimated_budget,
        snapshot.account_url matches Some(url) ==> snapshot@.account_url == Some(url@),
        snapshot.account_url is None ==> snapshot@.account_url is None,
{
}

} // verus!
