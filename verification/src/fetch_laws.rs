//! What holds of whole fetches.

use crate::clock::{lemma_date_unique, window_at, CivilDate, FIRST_SECOND, LAST_SECOND};
use crate::copilot::{spec_copilot_snapshot, CopilotUser, CopilotUserView};
use crate::decimal::{hundredths_text, integer_text, two_digits};
use crate::estimate::spec_usable_budget;
use crate::error::{FetchErrorView, KeyedProvider, Service};
use crate::json::{json_document, JsonView};
use crate::keys::{
    first_token, model_of, non_empty, spec_active_provider_api_key, spec_choose_key, value_at,
    values_of, DefaultModel, DefaultModelView,
};
use crate::laws::{
    copilot_ratio_is_a_share, limit_is_finite, openai_ratio_is_a_share,
    openrouter_ratio_is_a_share, percentage_is_a_number, zed_ratio_is_a_share,
};
use crate::number::{Double, Single};
use crate::openai::{candidate_uris, spec_openai_snapshot, spec_openai_unavailable, spent_usd};
use crate::openai_laws::reported_spend_is_a_number;
use crate::openrouter::{spec_openrouter_snapshot, KeyData};
use crate::ranges::lemma_single_constants;
use crate::request::{spec_bearer_request, HttpRequestView};
use crate::session::{
    after_account_usage, after_clock, after_copilot_token, after_copilot_user, after_failure,
    after_key_data, after_keys, after_refresh, after_reply, ask_next, fetch_credit_snapshot,
    first_step, reads_finite_numbers, AccountUsageWanted, ClockWanted, CopilotReply,
    CopilotTokenWanted, Exchange, HostNames, HostNamesView, KeyReply, KeysWanted, OpenAiSearchView,
    PurposeView, RefreshWanted, Step, StepView,
};
use crate::snapshot::CreditSnapshotView;
use crate::text::text_of;
use crate::zed::TokenSpendUsage;
use vstd::arithmetic::power2::lemma_pow2_pos;
use vstd::prelude::*;

verus! {

/// What came of the work that a step asked for.
pub enum OutcomeView {
    Account { usage: Option<TokenSpendUsage>, account_url: Seq<char> },
    Refreshed { failure: Option<Seq<char>> },
    Token { client_token: Option<Seq<char>>, values: Seq<Option<Seq<char>>> },
    Keys { default_model: Option<DefaultModelView>, values: Seq<Option<Seq<char>>> },
    Clock { now: int },
    Reply(ReplyView),
    Failure { cause: Seq<char> },
    CopilotUser(Result<CopilotUserView, Seq<char>>),
    KeyData(Result<KeyData, Seq<char>>),
}

/// The step that an outcome leads to; nothing where it is no outcome of that step.
pub open spec fn after(step: StepView, outcome: OutcomeView) -> Option<StepView> {
    match (step, outcome) {
        (StepView::AccountUsage { refreshed }, OutcomeView::Account { usage, account_url }) => Some(
            after_account_usage(refreshed, usage, account_url),
        ),
        (StepView::Refresh, OutcomeView::Refreshed { failure }) => Some(after_refresh(failure)),
        (StepView::CopilotToken { .. }, OutcomeView::Token { client_token, values }) => Some(
            after_copilot_token(client_token, values),
        ),
        (
            StepView::Keys { provider, provider_id, monthly_budget_usd, .. },
            OutcomeView::Keys { default_model, values },
        ) => Some(
            after_keys(provider, provider_id, monthly_budget_usd, default_model, values),
        ),
        (StepView::Clock { key, budget }, OutcomeView::Clock { now }) => Some(
            after_clock(key, budget, now),
        ),
        (StepView::Send { purpose, .. }, OutcomeView::Reply(reply)) => Some(
            after_reply(purpose, reply.success, reply.body),
        ),
        (StepView::Send { .. }, OutcomeView::Failure { cause }) => Some(after_failure(cause)),
        (StepView::ReadCopilotUser { .. }, OutcomeView::CopilotUser(user)) => Some(
            after_copilot_user(user),
        ),
        (StepView::ReadKeyData { .. }, OutcomeView::KeyData(data)) => Some(after_key_data(data)),
        _ => None,
    }
}

/// `next` is what some outcome of the outside work leads to from `step`.
pub open spec fn follows(step: StepView, next: StepView) -> bool {
    exists|outcome: OutcomeView| #[trigger] after(step, outcome) == Some(next)
}

/// A bound on the steps that are still to come.
pub open spec fn steps_left(step: StepView) -> nat {
    match step {
        StepView::AccountUsage { refreshed } => if refreshed {
            1
        } else {
            3
        },
        StepView::Refresh => 2,
        StepView::CopilotToken { .. } => 3,
        StepView::Keys { .. } => 6,
        StepView::Clock { .. } => 5,
        StepView::Send { purpose, .. } => match purpose {
            PurposeView::Copilot => 2,
            PurposeView::OpenRouter => 2,
            PurposeView::Anthropic { .. } => 1,
            PurposeView::Mistral { .. } => 1,
            PurposeView::OpenAi(search) => 1 + search.rest.len(),
        },
        StepView::ReadCopilotUser { .. } => 1,
        StepView::ReadKeyData { .. } => 1,
        StepView::Done(_) => 0,
    }
}

/// Every outcome of the outside work brings a fetch closer to its end.
pub proof fn every_step_leads_on(step: StepView, next: StepView)
    requires
        follows(step, next),
    ensures
        steps_left(next) < steps_left(step),
{
}

/// Until a fetch has its outcome, there is a step to come.
pub proof fn unfinished_fetches_go_on(step: StepView)
    requires
        !(step is Done),
    ensures
        exists|next: StepView| follows(step, next),
{
    let outcome = match step {
        StepView::AccountUsage { .. } => OutcomeView::Account { usage: None, account_url: seq![] },
        StepView::Refresh => OutcomeView::Refreshed { failure: None },
        StepView::CopilotToken { .. } => OutcomeView::Token { client_token: None, values: seq![] },
        StepView::Keys { .. } => OutcomeView::Keys { default_model: None, values: seq![] },
        StepView::Clock { .. } => OutcomeView::Clock { now: 0 },
        StepView::ReadCopilotUser { .. } => OutcomeView::CopilotUser(Err(seq![])),
        StepView::ReadKeyData { .. } => OutcomeView::KeyData(Err(seq![])),
        _ => OutcomeView::Failure { cause: seq![] },
    };
    assert(follows(step, after(step, outcome)->0));
}

/// A fetch takes at most seven steps, and the step from which none follows is its outcome.
pub proof fn fetches_end(
    id: Seq<char>,
    names: HostNamesView,
    monthly_budget_usd: Option<Single>,
    path: Seq<StepView>,
)
    requires
        path.len() > 0,
        path[0] == first_step(id, names, monthly_budget_usd),
        forall|i: int| 0 <= i < path.len() - 1 ==> follows(#[trigger] path[i], path[i + 1]),
    ensures
        path.len() <= 7,
        !(exists|next: StepView| follows(path.last(), next)) ==> path.last() is Done,
{
    lemma_path_short(path, (path.len() - 1) as nat);
    if !(path.last() is Done) {
        unfinished_fetches_go_on(path.last());
    }
}

proof fn lemma_path_short(path: Seq<StepView>, last: nat)
    requires
        last < path.len(),
        forall|i: int| 0 <= i < path.len() - 1 ==> follows(#[trigger] path[i], path[i + 1]),
    ensures
        steps_left(path[last as int]) + last <= steps_left(path[0]),
    decreases last,
{
    if last > 0 {
        lemma_path_short(path, (last - 1) as nat);
        every_step_leads_on(path[last - 1], path[last as int]);
    }
}

/// An account is refreshed at most once: what is found after the refresh is the outcome.
pub proof fn accounts_are_refreshed_once(
    failure: Option<Seq<char>>,
    usage: Option<TokenSpendUsage>,
    account_url: Seq<char>,
)
    ensures
        after_refresh(failure) matches StepView::AccountUsage { refreshed } ==> refreshed,
        after_account_usage(true, usage, account_url) is Done,
{
}

/// A chosen key is not empty, and it is missing only where the settings' key is empty, or there
/// is none and the environment's is missing or empty too.
pub proof fn chosen_keys_are_not_empty(configured: Option<Seq<char>>, variable: Option<Seq<char>>)
    ensures
        spec_choose_key(configured, variable) matches Some(key) ==> key.len() > 0,
        spec_choose_key(configured, variable) is None <==> (match configured {
            Some(key) => key.len() == 0,
            None => match variable {
                Some(value) => value.len() == 0,
                None => true,
            },
        }),
{
}

/// OpenAI is asked with the admin key where the environment holds one, else with the key of the
/// provider, and at the preferred place first.
pub proof fn openai_is_asked_with_the_admin_key(
    provider_id: Seq<char>,
    monthly_budget_usd: Option<Single>,
    default_model: Option<DefaultModelView>,
    values: Seq<Option<Seq<char>>>,
    key: Seq<char>,
    now: int,
)
    requires
        spec_choose_key(
            spec_active_provider_api_key(provider_id, default_model),
            value_at(values, 0),
        ) == Some(key),
        FIRST_SECOND <= now <= LAST_SECOND,
    ensures
        ({
            let asked_with = match non_empty(value_at(values, 1)) {
                Some(admin) => admin,
                None => key,
            };
            &&& after_keys(
                KeyedProvider::OpenAi,
                provider_id,
                monthly_budget_usd,
                default_model,
                values,
            ) matches StepView::Clock { key: usage_key, budget }
            &&& usage_key == asked_with
            &&& after_clock(usage_key, budget, now) matches StepView::Send { request, purpose }
            &&& request == spec_bearer_request(candidate_uris(window_at(now))[0], asked_with)
        }),
{
}

/// Whenever the account reports spend, before the refresh or after it, the fetch ends with the
/// snapshot of that spend. Where it reports none, it is refreshed once, and only after that the
/// spend counts as unavailable.
pub proof fn reported_account_spend_is_shown(
    refreshed: bool,
    usage: TokenSpendUsage,
    account_url: Seq<char>,
)
    ensures
        after_account_usage(refreshed, Some(usage), account_url) matches StepView::Done(Ok(shown))
            && ({
            let spent = Single::spec_from_integer(usage.spent_cents as int);
            let limit = if usage.limit_cents < 1 { 1int } else { usage.limit_cents as int };
            &&& shown.used_ratio == spent.spec_over(
                Single::spec_from_integer(limit),
            ).spec_clamped()
            &&& shown.label == "$"@ + hundredths_text(
                spent.spec_over(Single::spec_hundred()).spec_widened(),
            ) + " used"@
            &&& shown.account_url == Some(account_url)
        }),
        after_account_usage(false, None, account_url) == StepView::Refresh,
        after_account_usage(true, None, account_url) == StepView::Done(
            Err(FetchErrorView::SpendUnavailable),
        ),
{
}

/// What an account reports is shown alike before and after a refresh: as a snapshot.
pub proof fn a_refresh_does_not_change_what_is_shown(
    refreshed: bool,
    usage: TokenSpendUsage,
    account_url: Seq<char>,
)
    ensures
        after_account_usage(refreshed, Some(usage), account_url) matches StepView::Done(Ok(_)),
        after_account_usage(refreshed, Some(usage), account_url) == after_account_usage(
            !refreshed,
            Some(usage),
            account_url,
        ),
{
}

/// A fetch of an account's spend ends with the spend that a refresh brought, and ends as
/// unavailable only where the account reports none after it.
pub proof fn a_refresh_brings_the_spend(
    names: HostNamesView,
    monthly_budget_usd: Option<Single>,
    before: Option<TokenSpendUsage>,
    after_it: Option<TokenSpendUsage>,
    account_url: Seq<char>,
    path: Seq<StepView>,
)
    requires
        path.len() == 4,
        path[0] == first_step(names.zed_cloud, names, monthly_budget_usd),
        before is None,
        after(path[0], OutcomeView::Account { usage: before, account_url }) == Some(path[1]),
        after(path[1], OutcomeView::Refreshed { failure: None }) == Some(path[2]),
        after(path[2], OutcomeView::Account { usage: after_it, account_url }) == Some(path[3]),
    ensures
        after_it matches Some(usage) ==> path[3] == after_account_usage(
            false,
            Some(usage),
            account_url,
        ) && path[3] matches StepView::Done(Ok(_)),
        path[3] == StepView::Done(Err(FetchErrorView::SpendUnavailable)) <==> after_it is None,
{
    if after_it is Some {
        reported_account_spend_is_shown(false, after_it->0, account_url);
        reported_account_spend_is_shown(true, after_it->0, account_url);
    }
}

/// A refresh that failed ends the fetch with its cause; one that did not has the account looked
/// at once more.
pub proof fn refreshes_lead_back_to_the_account(cause: Seq<char>)
    ensures
        after_refresh(Some(cause)) == StepView::Done(Err(FetchErrorView::RefreshFailed(cause))),
        after_refresh(None) == (StepView::AccountUsage { refreshed: true }),
{
}

/// Each provider is asked in its own way, and an unknown one is named in the error.
pub proof fn providers_are_told_apart(
    id: Seq<char>,
    names: HostNamesView,
    monthly_budget_usd: Option<Single>,
)
    ensures
        ({
            let step = first_step(id, names, monthly_budget_usd);
            let keyed = |provider: KeyedProvider, variables: Seq<Seq<char>>| StepView::Keys {
                provider,
                provider_id: id,
                monthly_budget_usd,
                variables,
            };
            let hosted = id == names.zed_cloud;
            let copilot = id == "copilot_chat"@;
            let openrouter = id == "openrouter"@;
            &&& hosted ==> step == (StepView::AccountUsage { refreshed: false })
            &&& copilot && !hosted ==> (step matches StepView::CopilotToken { variables }
                && variables.len() == 5 && variables[0] == "GITHUB_TOKEN"@ && variables[1]
                == "COPILOT_USAGE_TOKEN"@ && variables[2] == names.copilot_oauth && variables[3]
                == names.github_copilot_oauth && variables[4] == "GH_TOKEN"@)
            &&& openrouter && !hosted && !copilot ==> step == keyed(
                KeyedProvider::OpenRouter,
                seq!["OPENROUTER_API_KEY"@],
            )
            &&& id == names.open_ai && !hosted && !copilot && !openrouter ==> step == keyed(
                KeyedProvider::OpenAi,
                seq!["OPENAI_API_KEY"@, "OPENAI_ADMIN_API_KEY"@],
            )
            &&& id == names.anthropic && !hosted && !copilot && !openrouter && id != names.open_ai
                ==> step == keyed(KeyedProvider::Anthropic, seq!["ANTHROPIC_API_KEY"@])
            &&& id == "mistral"@ && !hosted && !copilot && !openrouter && id != names.open_ai && id
                != names.anthropic ==> step == keyed(
                KeyedProvider::Mistral,
                seq!["MISTRAL_API_KEY"@],
            )
            &&& step is Done <==> !hosted && !copilot && !openrouter && id != names.open_ai && id
                != names.anthropic && id != "mistral"@
            &&& step is Done ==> step == StepView::Done(
                Err(FetchErrorView::UnsupportedProvider(id)),
            )
        }),
{
}

/// GitHub is asked with the token of the Copilot client where there is one, else with the first
/// token of the variables, and not at all without either.
pub proof fn copilot_is_asked_with_the_token(
    token: Seq<char>,
    values: Seq<Option<Seq<char>>>,
)
    ensures
        ({
            let request = |with: Seq<char>| StepView::Send {
                request: HttpRequestView {
                    uri: "https://api.github.com/copilot_internal/user"@,
                    headers: seq![
                        ("Authorization"@, "Bearer "@ + with),
                        ("Accept"@, "application/vnd.github+json"@),
                        ("User-Agent"@, "zed-ai-credit-status"@),
                        ("X-GitHub-Api-Version"@, "2022-11-28"@),
                    ],
                    body_on_success: true,
                },
                purpose: PurposeView::Copilot,
            };
            &&& after_copilot_token(Some(token), values) == request(token)
            &&& first_token(values) matches Some(found) ==> after_copilot_token(None, values)
                == request(found)
            &&& first_token(values) is None ==> after_copilot_token(None, values)
                == StepView::Done(Err(FetchErrorView::CopilotSignIn))
        }),
{
}

/// The key is that of the default model where this is the provider's, else that of the
/// environment; an empty one is none. With a key the provider is asked, and without one the
/// fetch ends with an error that names the provider.
pub proof fn providers_are_asked_with_their_key(
    provider: KeyedProvider,
    provider_id: Seq<char>,
    monthly_budget_usd: Option<Single>,
    default_model: Option<DefaultModelView>,
    values: Seq<Option<Seq<char>>>,
)
    ensures
        ({
            let step = after_keys(
                provider,
                provider_id,
                monthly_budget_usd,
                default_model,
                values,
            );
            let has_budget = monthly_budget_usd is Some && !monthly_budget_usd->0.is_nan()
                && monthly_budget_usd->0.value() > 0;
            let own = default_model is Some && default_model->0.provider_id == provider_id
                && default_model->0.api_key is Some;
            let found = if own {
                default_model->0.api_key
            } else if values.len() > 0 {
                values[0]
            } else {
                None
            };
            let missing = found is None || found->0.len() == 0;
            let key = found->0;
            let bearer = |uri: Seq<char>, body_on_success: bool| HttpRequestView {
                uri,
                headers: seq![("Authorization"@, "Bearer "@ + key)],
                body_on_success,
            };
            &&& missing ==> step == StepView::Done(Err(FetchErrorView::MissingKey(provider)))
            &&& !missing && provider == KeyedProvider::OpenRouter ==> step == (StepView::Send {
                request: bearer("https://openrouter.ai/api/v1/key"@, true),
                purpose: PurposeView::OpenRouter,
            })
            &&& !missing && provider == KeyedProvider::Anthropic ==> step == (StepView::Send {
                request: HttpRequestView {
                    uri: "https://api.anthropic.com/v1/models"@,
                    headers: seq![("x-api-key"@, key), ("anthropic-version"@, "2023-06-01"@)],
                    body_on_success: false,
                },
                purpose: PurposeView::Anthropic { has_budget },
            })
            &&& !missing && provider == KeyedProvider::Mistral ==> step == (StepView::Send {
                request: bearer("https://api.mistral.ai/v1/models"@, false),
                purpose: PurposeView::Mistral { has_budget },
            })
            &&& !missing && provider == KeyedProvider::OpenAi ==> step == (StepView::Clock {
                key: if values.len() > 1 && values[1] is Some && values[1]->0.len() > 0 {
                    values[1]->0
                } else {
                    key
                },
                budget: if has_budget {
                    monthly_budget_usd
                } else {
                    None
                },
            })
        }),
{
    lemma_single_constants();
}

/// At the second `now` OpenAI is asked for the month from its first midnight up to `now` itself,
/// and the places that are left are asked for the days from the first of the month to today.
pub proof fn openai_is_asked_for_the_month_up_to_now(
    key: Seq<char>,
    budget: Option<Single>,
    now: int,
    today: CivilDate,
)
    requires
        FIRST_SECOND <= now <= LAST_SECOND,
        today.holds(now),
    ensures
        ({
            let first = CivilDate { day: 1, ..today };
            let month = integer_text(today.year as int) + "-"@ + two_digits(today.month as nat)
                + "-"@;
            let (start, end) = (month + two_digits(1), month + two_digits(today.day as nat));
            let uri = "https://api.openai.com/v1/organization/costs?start_time="@ + integer_text(
                first.days() * 86400,
            ) + "&end_time="@ + integer_text(now) + "&bucket_width=1d"@;
            after_clock(key, budget, now) == (StepView::Send {
                request: HttpRequestView {
                    uri,
                    headers: seq![("Authorization"@, "Bearer "@ + key)],
                    body_on_success: true,
                },
                purpose: PurposeView::OpenAi(
                    OpenAiSearchView {
                        key,
                        budget,
                        uri,
                        rest: seq![
                            "https://api.openai.com/v1/dashboard/billing/usage?start_date="@ + start
                                + "&end_date="@ + end,
                            "https://api.openai.com/v1/usage?start_date="@ + start + "&end_date="@
                                + end,
                            "https://api.openai.com/v1/usage?date="@ + end,
                        ],
                        errors: seq![],
                    },
                ),
            })
        }),
{
    lemma_date_unique(now, today);
    let uris = candidate_uris(window_at(now));
    assert(uris.drop_first() =~= seq![uris[1], uris[2], uris[3]]);
}

/// Outside the calendar the month is unknown.
pub proof fn months_outside_the_calendar_are_unknown(
    key: Seq<char>,
    budget: Option<Single>,
    now: int,
)
    requires
        now < FIRST_SECOND || now > LAST_SECOND,
    ensures
        after_clock(key, budget, now) == StepView::Done(Err(FetchErrorView::MonthUnknown)),
{
}

/// What is said of a place that came to nothing: what it answered a refusal with, or that its
/// answer has no spend in it.
pub open spec fn came_to_nothing(success: bool, body: Seq<char>, reason: Seq<char>) -> bool {
    if success {
        &&& reason == "unexpected response format"@
        &&& json_document(body) is None || spent_usd(json_document(body)->0) is None
    } else {
        reason == body
    }
}

/// After a place that came to nothing the next one is asked, with the same key; what was said of
/// it joins the errors. After the last one the snapshot says that usage is unavailable.
pub proof fn the_next_place_is_asked(
    search: OpenAiSearchView,
    success: bool,
    body: Seq<char>,
    reason: Seq<char>,
)
    requires
        came_to_nothing(success, body, reason),
    ensures
        ({
            let step = after_reply(PurposeView::OpenAi(search), success, body);
            let errors = search.errors.push(search.uri + ": "@ + reason);
            &&& search.rest.len() > 0 ==> step == (StepView::Send {
                request: HttpRequestView {
                    uri: search.rest[0],
                    headers: seq![("Authorization"@, "Bearer "@ + search.key)],
                    body_on_success: true,
                },
                purpose: PurposeView::OpenAi(
                    OpenAiSearchView {
                        key: search.key,
                        budget: search.budget,
                        uri: search.rest[0],
                        rest: search.rest.subrange(1, search.rest.len() as int),
                        errors,
                    },
                ),
            })
            &&& search.rest.len() == 0 ==> (step matches StepView::Done(Ok(shown))
                && shown.provider_label == "OpenAI"@ && shown.used_ratio == Single::spec_zero()
                && shown.uses_estimated_budget == search.budget is Some && shown.label == (
            if search.budget is Some {
                ""@
            } else {
                "Usage unavailable"@
            }) && shown.tooltip == spec_openai_unavailable(errors, search.budget is Some).tooltip)
        }),
{
}

/// A place that reports spend ends the search with that spend, against the budget of the search.
pub proof fn a_report_ends_the_search(
    search: OpenAiSearchView,
    body: Seq<char>,
    document: JsonView,
    spent: Double,
)
    requires
        json_document(body) == Some(document),
        spent_usd(document) == Some(spent),
    ensures
        after_reply(PurposeView::OpenAi(search), true, body) matches StepView::Done(Ok(shown))
            && shown.label == "$"@ + hundredths_text(spent) + " used this month"@
            && shown.used_ratio == (match search.budget {
            Some(budget) => spent.spec_over(budget.spec_widened()).spec_clamped().spec_narrowed(),
            None => Single::spec_zero(),
        }) && !shown.uses_estimated_budget,
{
}

/// A service that accepted a request has its reply read as it came, or is known not to report
/// spend and is shown at once.
pub proof fn accepted_requests_are_read(body: Seq<char>, has_budget: bool)
    ensures
        after_reply(PurposeView::Copilot, true, body) == (StepView::ReadCopilotUser { body }),
        after_reply(PurposeView::OpenRouter, true, body) == (StepView::ReadKeyData { body }),
        after_reply(PurposeView::Anthropic { has_budget }, true, body) matches StepView::Done(
            Ok(shown),
        ) && shown.provider_label == "Anthropic"@ && shown.uses_estimated_budget == has_budget,
        after_reply(PurposeView::Mistral { has_budget }, true, body) matches StepView::Done(
            Ok(shown),
        ) && shown.provider_label == "Mistral"@ && shown.uses_estimated_budget == has_budget,
{
}

/// What was read is shown, and what could not be read or sent ends the fetch with the cause.
pub proof fn what_is_read_is_shown(
    user: CopilotUserView,
    data: KeyData,
    cause: Seq<char>,
)
    ensures
        after_copilot_user(Ok(user)) == StepView::Done(spec_copilot_snapshot(user)),
        after_key_data(Ok(data)) == StepView::Done(Ok(spec_openrouter_snapshot(data))),
        after_copilot_user(Err(cause)) == StepView::Done(Err(FetchErrorView::Outside(cause))),
        after_key_data(Err(cause)) == StepView::Done(Err(FetchErrorView::Outside(cause))),
        after_failure(cause) == StepView::Done(Err(FetchErrorView::Outside(cause))),
{
}

/// A refusal ends a fetch with the service's own words, and never the search for OpenAI spend,
/// which notes it and goes on.
pub proof fn refusals(purpose: PurposeView, body: Seq<char>)
    ensures
        match purpose {
            PurposeView::Copilot => after_reply(purpose, false, body) == StepView::Done(
                Err(FetchErrorView::RequestFailed(Service::Copilot, body)),
            ),
            PurposeView::OpenRouter => after_reply(purpose, false, body) == StepView::Done(
                Err(FetchErrorView::RequestFailed(Service::OpenRouter, body)),
            ),
            PurposeView::Anthropic { .. } => after_reply(purpose, false, body) == StepView::Done(
                Err(FetchErrorView::RequestFailed(Service::Anthropic, body)),
            ),
            PurposeView::Mistral { .. } => after_reply(purpose, false, body) == StepView::Done(
                Err(FetchErrorView::RequestFailed(Service::Mistral, body)),
            ),
            PurposeView::OpenAi(search) => after_reply(purpose, false, body) == ask_next(
                search.key,
                search.budget,
                search.rest,
                search.errors.push(search.uri + ": "@ + body),
            ),
        },
{
}

/// A reply: whether its status reports success, and its body.
pub struct ReplyView {
    pub success: bool,
    pub body: Seq<char>,
}

impl ReplyView {
    /// Why the search for OpenAI spend goes on after this reply; nothing where it ends.
    pub open spec fn reason(self) -> Option<Seq<char>> {
        if !self.success {
            Some(self.body)
        } else {
            match json_document(self.body) {
                Some(json) => if spent_usd(json) is None {
                    Some("unexpected response format"@)
                } else {
                    None
                },
                None => Some("unexpected response format"@),
            }
        }
    }
}

/// The step after some replies, each to the request that the step before asked for.
pub open spec fn after_replies(step: StepView, replies: Seq<ReplyView>) -> StepView
    decreases replies.len(),
{
    if replies.len() == 0 {
        step
    } else {
        match after_replies(step, replies.drop_last()) {
            StepView::Send { request, purpose } => after_reply(
                purpose,
                replies.last().success,
                replies.last().body,
            ),
            other => other,
        }
    }
}

/// What is noted of places that came to nothing.
pub open spec fn noted(uris: Seq<Seq<char>>, replies: Seq<ReplyView>) -> Seq<Seq<char>> {
    Seq::new(replies.len(), |i: int| uris[i] + ": "@ + replies[i].reason()->0)
}

/// While the replies report no spend, the places are asked one after the other, in order and
/// with the same key, and what each came to is noted.
pub proof fn places_are_asked_in_order(
    key: Seq<char>,
    budget: Option<Single>,
    uris: Seq<Seq<char>>,
    replies: Seq<ReplyView>,
)
    requires
        replies.len() <= uris.len(),
        forall|i: int| 0 <= i < replies.len() ==> (#[trigger] replies[i]).reason() is Some,
    ensures
        after_replies(ask_next(key, budget, uris, seq![]), replies) == ask_next(
            key,
            budget,
            uris.skip(replies.len() as int),
            noted(uris, replies),
        ),
    decreases replies.len(),
{
    let n = replies.len() as int;
    if n == 0 {
        assert(uris.skip(0) =~= uris);
        assert(noted(uris, replies) =~= seq![]);
    } else {
        let before = replies.drop_last();
        assert forall|i: int| 0 <= i < before.len() implies (#[trigger] before[i]).reason() is Some by {
            assert(before[i] == replies[i]);
        }
        places_are_asked_in_order(key, budget, uris, before);
        let rest = uris.skip(n - 1);
        assert(rest[0] == uris[n - 1]);
        assert(rest.drop_first() =~= uris.skip(n));
        assert(replies.last().reason() is Some);
        assert(noted(uris, replies) =~= noted(uris, before).push(
            uris[n - 1] + ": "@ + replies.last().reason()->0,
        ));
    }
}

/// The first place that reports spend decides the snapshot; what came before has no part in it.
pub proof fn first_report_decides(
    key: Seq<char>,
    budget: Option<Single>,
    uris: Seq<Seq<char>>,
    replies: Seq<ReplyView>,
    document: JsonView,
)
    requires
        0 < replies.len() <= uris.len(),
        forall|i: int|
            0 <= i < replies.len() - 1 ==> (#[trigger] replies[i]).reason() is Some,
        replies.last().success,
        json_document(replies.last().body) == Some(document),
        spent_usd(document) is Some,
    ensures
        after_replies(ask_next(key, budget, uris, seq![]), replies) == StepView::Done(
            Ok(spec_openai_snapshot(spent_usd(document)->0, budget)),
        ),
{
    let before = replies.drop_last();
    assert forall|i: int| 0 <= i < before.len() implies (#[trigger] before[i]).reason() is Some by {
        assert(before[i] == replies[i]);
    }
    places_are_asked_in_order(key, budget, uris, before);
}

/// Where no place reports spend, the snapshot says so, with what every place came to. That the
/// body of a success is not JSON is no exception.
pub proof fn no_report_is_unavailable(
    key: Seq<char>,
    budget: Option<Single>,
    uris: Seq<Seq<char>>,
    replies: Seq<ReplyView>,
)
    requires
        replies.len() == uris.len(),
        forall|i: int| 0 <= i < replies.len() ==> (#[trigger] replies[i]).reason() is Some,
    ensures
        after_replies(ask_next(key, budget, uris, seq![]), replies) == StepView::Done(
            Ok(spec_openai_unavailable(noted(uris, replies), budget is Some)),
        ),
{
    places_are_asked_in_order(key, budget, uris, replies);
    assert(uris.skip(replies.len() as int) =~= seq![]);
}

/// Each step of the path is what the outcome of the one before leads to.
pub open spec fn is_course(path: Seq<StepView>, outcomes: Seq<OutcomeView>) -> bool {
    &&& path.len() == outcomes.len() + 1
    &&& forall|i: int|
        0 <= i < outcomes.len() ==> after(path[i], #[trigger] outcomes[i]) == Some(path[i + 1])
}

/// The numbers that an outcome brings are such as JSON can write: those of a report of OpenAI
/// spend and the limit of an OpenRouter key are finite, and the percentage that remains of a
/// Copilot quota is a number.
pub open spec fn brings_plain_numbers(step: StepView, outcome: OutcomeView) -> bool {
    match outcome {
        OutcomeView::Reply(reply) => step matches StepView::Send {
            purpose: PurposeView::OpenAi(_),
            ..
        } && reply.success ==> reads_finite_numbers(reply.body),
        OutcomeView::CopilotUser(Ok(user)) => percentage_is_a_number(user),
        OutcomeView::KeyData(Ok(data)) => limit_is_finite(data),
        _ => true,
    }
}

/// The spend that an outcome reports, where it reports any, is finite.
pub open spec fn brings_finite_spend(outcome: OutcomeView) -> bool {
    outcome matches OutcomeView::Reply(reply) ==> (json_document(reply.body) matches Some(json)
        ==> (spent_usd(json) matches Some(spent) ==> spent.is_finite()))
}

/// The identifier is that of a provider whose spend may go unreported.
pub open spec fn may_be_silent(id: Seq<char>, names: HostNamesView) -> bool {
    id == names.open_ai || id == names.anthropic || id == "mistral"@
}

/// What holds of the snapshot that a fetch ends with.
pub open spec fn well_shown(
    snapshot: CreditSnapshotView,
    id: Seq<char>,
    names: HostNamesView,
    monthly_budget_usd: Option<Single>,
) -> bool {
    &&& snapshot.used_ratio.is_share()
    &&& snapshot.account_url is Some
    &&& snapshot.uses_estimated_budget ==> {
        &&& snapshot.used_ratio == Single::spec_zero()
        &&& spec_usable_budget(monthly_budget_usd) is Some
        &&& may_be_silent(id, names)
    }
}

/// What a step on the way to a snapshot keeps of the provider and the budget.
spec fn on_course(
    step: StepView,
    id: Seq<char>,
    names: HostNamesView,
    monthly_budget_usd: Option<Single>,
) -> bool {
    let usable = spec_usable_budget(monthly_budget_usd);
    match step {
        StepView::Keys { provider, monthly_budget_usd: budget, .. } => {
            &&& budget == monthly_budget_usd
            &&& provider != KeyedProvider::OpenRouter ==> may_be_silent(id, names)
        },
        StepView::Clock { budget, .. } => budget == usable && may_be_silent(id, names),
        StepView::Send { purpose, .. } => match purpose {
            PurposeView::Anthropic { has_budget } => has_budget == usable is Some && may_be_silent(
                id,
                names,
            ),
            PurposeView::Mistral { has_budget } => has_budget == usable is Some && may_be_silent(
                id,
                names,
            ),
            PurposeView::OpenAi(search) => search.budget == usable && may_be_silent(id, names),
            _ => true,
        },
        StepView::Done(Ok(snapshot)) => well_shown(snapshot, id, names, monthly_budget_usd),
        _ => true,
    }
}

proof fn lemma_stays_on_course(
    step: StepView,
    outcome: OutcomeView,
    id: Seq<char>,
    names: HostNamesView,
    monthly_budget_usd: Option<Single>,
)
    requires
        on_course(step, id, names, monthly_budget_usd),
        after(step, outcome) is Some,
        brings_plain_numbers(step, outcome),
        spec_usable_budget(monthly_budget_usd) matches Some(budget) ==> budget.is_finite()
            || brings_finite_spend(outcome),
    ensures
        on_course(after(step, outcome)->0, id, names, monthly_budget_usd),
{
    match outcome {
        OutcomeView::Account { usage: Some(usage), account_url } => {
            zed_ratio_is_a_share(usage, account_url);
        },
        OutcomeView::Reply(reply) => match step {
            StepView::Send { purpose, .. } => match purpose {
                PurposeView::OpenAi(search) => {
                    lemma_search_stays_on_course(search, reply, id, names, monthly_budget_usd);
                },
                _ => lemma_zero_is_a_share(),
            },
            _ => {},
        },
        OutcomeView::CopilotUser(Ok(user)) => {
            copilot_ratio_is_a_share(user);
        },
        OutcomeView::KeyData(Ok(data)) => {
            openrouter_ratio_is_a_share(data);
        },
        OutcomeView::Clock { now } => lemma_zero_is_a_share(),
        _ => {},
    }
}

proof fn lemma_zero_is_a_share()
    ensures
        Single::spec_zero().is_share(),
{
    lemma_single_constants();
    lemma_pow2_pos(149);
}

proof fn lemma_search_stays_on_course(
    search: OpenAiSearchView,
    reply: ReplyView,
    id: Seq<char>,
    names: HostNamesView,
    monthly_budget_usd: Option<Single>,
)
    requires
        search.budget == spec_usable_budget(monthly_budget_usd),
        may_be_silent(id, names),
        reply.success ==> reads_finite_numbers(reply.body),
        spec_usable_budget(monthly_budget_usd) matches Some(budget) ==> budget.is_finite()
            || brings_finite_spend(OutcomeView::Reply(reply)),
    ensures
        on_course(
            after_reply(PurposeView::OpenAi(search), reply.success, reply.body),
            id,
            names,
            monthly_budget_usd,
        ),
{
    lemma_zero_is_a_share();
    match reply.reason() {
        Some(reason) => {
            assert(after_reply(PurposeView::OpenAi(search), reply.success, reply.body)
                == search.passed_over(reason));
        },
        None => {
            let json = json_document(reply.body)->0;
            reported_spend_is_a_number(json);
            openai_ratio_is_a_share(spent_usd(json)->0, monthly_budget_usd);
        },
    }
}

/// A fetch that ends well shows a share from 0 to 1 and names a page. It stands for an estimate
/// only where a budget above zero is set, the provider is one whose spend may go unreported, and
/// the share is 0.
///
/// Left out are numbers that no JSON text holds, and an infinite budget against an infinite sum
/// of costs, the share of which is not a number.
pub proof fn good_fetches_are_well_shown(
    id: Seq<char>,
    names: HostNamesView,
    monthly_budget_usd: Option<Single>,
    path: Seq<StepView>,
    outcomes: Seq<OutcomeView>,
    snapshot: CreditSnapshotView,
)
    requires
        is_course(path, outcomes),
        path[0] == first_step(id, names, monthly_budget_usd),
        path.last() == StepView::Done(Ok(snapshot)),
        forall|i: int|
            0 <= i < outcomes.len() ==> brings_plain_numbers(path[i], #[trigger] outcomes[i]),
        spec_usable_budget(monthly_budget_usd) matches Some(budget) ==> budget.is_finite() || forall|
            i: int,
        |
            0 <= i < outcomes.len() ==> brings_finite_spend(#[trigger] outcomes[i]),
    ensures
        well_shown(snapshot, id, names, monthly_budget_usd),
{
    lemma_course_kept(id, names, monthly_budget_usd, path, outcomes, outcomes.len());
}

proof fn lemma_course_kept(
    id: Seq<char>,
    names: HostNamesView,
    monthly_budget_usd: Option<Single>,
    path: Seq<StepView>,
    outcomes: Seq<OutcomeView>,
    last: nat,
)
    requires
        is_course(path, outcomes),
        last <= outcomes.len(),
        path[0] == first_step(id, names, monthly_budget_usd),
        forall|i: int|
            0 <= i < outcomes.len() ==> brings_plain_numbers(path[i], #[trigger] outcomes[i]),
        spec_usable_budget(monthly_budget_usd) matches Some(budget) ==> budget.is_finite() || forall|
            i: int,
        |
            0 <= i < outcomes.len() ==> brings_finite_spend(#[trigger] outcomes[i]),
    ensures
        on_course(path[last as int], id, names, monthly_budget_usd),
    decreases last,
{
    if last > 0 {
        let i = last - 1;
        lemma_course_kept(id, names, monthly_budget_usd, path, outcomes, i as nat);
        let outcome = outcomes[i];
        lemma_stays_on_course(path[i], outcome, id, names, monthly_budget_usd);
    }
}

/// What the functions of this library make of a step and an outcome is what [`after`] says of
/// the two.
pub proof fn accounts_and_tokens_lead_on_as_stated(
    account: AccountUsageWanted,
    usage: Option<TokenSpendUsage>,
    account_url: String,
    refresh: RefreshWanted,
    failure: Option<String>,
    token: CopilotTokenWanted,
    client_token: Option<String>,
    values: Vec<Option<String>>,
    next: Step,
)
    ensures
        call_ensures(AccountUsageWanted::resume, (account, usage, account_url), next) ==> after(
            Step::AccountUsage(account)@,
            OutcomeView::Account { usage, account_url: account_url@ },
        ) == Some(next@),
        call_ensures(RefreshWanted::resume, (refresh, failure), next) ==> after(
            Step::Refresh(refresh)@,
            OutcomeView::Refreshed { failure: text_of(failure) },
        ) == Some(next@),
        call_ensures(CopilotTokenWanted::resume, (token, client_token, &values), next) ==> after(
            Step::CopilotToken(token)@,
            OutcomeView::Token { client_token: text_of(client_token), values: values_of(values@) },
        ) == Some(next@),
{
}

/// What the functions of this library make of a step and an outcome is what [`after`] says of
/// the two.
pub proof fn keys_and_clocks_lead_on_as_stated(
    keys: KeysWanted,
    default_model: Option<DefaultModel>,
    values: Vec<Option<String>>,
    clock: ClockWanted,
    now: i64,
    next: Step,
)
    ensures
        call_ensures(KeysWanted::resume, (keys, default_model, &values), next) ==> after(
            Step::Keys(keys)@,
            OutcomeView::Keys {
                default_model: model_of(default_model),
                values: values_of(values@),
            },
        ) == Some(next@),
        call_ensures(ClockWanted::resume, (clock, now), next) ==> after(
            Step::Clock(clock)@,
            OutcomeView::Clock { now: now as int },
        ) == Some(next@),
        call_ensures(ClockWanted::resume_now, (clock,), next) ==> follows(
            Step::Clock(clock)@,
            next@,
        ),
{
    if call_ensures(ClockWanted::resume_now, (clock,), next) {
        let read = choose|read: int|
            0 <= read <= LAST_SECOND && next@ == #[trigger] after_clock(
                clock.key@,
                clock.budget,
                read,
            );
        assert(after(Step::Clock(clock)@, OutcomeView::Clock { now: read }) == Some(next@));
    }
}

/// What the functions of this library make of a step and an outcome is what [`after`] says of
/// the two.
pub proof fn replies_lead_on_as_stated(
    exchange: Exchange,
    success: bool,
    body: String,
    cause: String,
    user_reply: CopilotReply,
    user: Result<CopilotUser, String>,
    key_reply: KeyReply,
    data: Result<KeyData, String>,
    next: Step,
)
    ensures
        call_ensures(Exchange::resume, (exchange, success, body), next) ==> after(
            Step::Send(exchange)@,
            OutcomeView::Reply(ReplyView { success, body: body@ }),
        ) == Some(next@),
        call_ensures(Exchange::fail, (exchange, cause), next) ==> after(
            Step::Send(exchange)@,
            OutcomeView::Failure { cause: cause@ },
        ) == Some(next@),
        call_ensures(CopilotReply::resume, (user_reply, user), next) ==> after(
            Step::ReadCopilotUser(user_reply)@,
            OutcomeView::CopilotUser(
                match user {
                    Ok(user) => Ok(user@),
                    Err(cause) => Err(cause@),
                },
            ),
        ) == Some(next@),
        call_ensures(KeyReply::resume, (key_reply, data), next) ==> after(
            Step::ReadKeyData(key_reply)@,
            OutcomeView::KeyData(
                match data {
                    Ok(data) => Ok(data),
                    Err(cause) => Err(cause@),
                },
            ),
        ) == Some(next@),
{
}

/// A fetch starts with the first step of its provider.
pub proof fn fetches_start_as_stated(
    provider_id: String,
    names: HostNames,
    monthly_budget_usd: Option<Single>,
    step: Step,
)
    ensures
        call_ensures(fetch_credit_snapshot, (provider_id, &names, monthly_budget_usd), step)
            ==> step@ == first_step(provider_id@, names@, monthly_budget_usd),
{
}

} // verus!
