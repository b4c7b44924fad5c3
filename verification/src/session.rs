//! A fetch, step by step: each step says what is to be done outside, and takes what came of it
//! to the next step.

use crate::clock::{
    clock_may_show, read_clock, usage_window, window_at, FIRST_SECOND, LAST_SECOND,
};
use crate::copilot::{
    copilot_request, copilot_snapshot, spec_copilot_request, spec_copilot_snapshot, CopilotUser,
    CopilotUserView,
};
use crate::error::{FetchError, FetchErrorView, KeyedProvider, Service};
use crate::estimate::{
    anthropic_request, anthropic_snapshot, mistral_request, mistral_snapshot,
    spec_anthropic_request, spec_anthropic_snapshot, spec_mistral_request, spec_mistral_snapshot,
    spec_usable_budget, usable_budget,
};
use crate::json::{json_document, read_json, Json, JsonView};
use crate::keys::{
    active_provider_api_key, choose_key, first_token, model_of, resolve_github_token,
    spec_active_provider_api_key, spec_choose_key, spec_github_token_variables, spec_usage_key,
    usage_key, value_at, values_of, variable_at, DefaultModel, DefaultModelView,
};
use crate::number::Single;
use crate::openai::{
    candidate_uris, openai_snapshot, openai_unavailable, parse_openai_spent_usd,
    spec_openai_snapshot, spec_openai_unavailable, spent_usd, write_candidate_uris,
};
use crate::openrouter::{
    openrouter_request, openrouter_snapshot, spec_openrouter_request, spec_openrouter_snapshot,
    KeyData,
};
use crate::request::{bearer_request, spec_bearer_request, HttpRequest, HttpRequestView};
use crate::snapshot::{CreditSnapshot, CreditSnapshotView};
use crate::text::{text_of, texts_of};
use crate::zed::{spec_zed_hosted_snapshot, zed_hosted_snapshot, TokenSpendUsage};
use vstd::prelude::*;
use vstd::string::*;

verus! {

/// Names that the surrounding program gives: the identifiers of three providers, and two
/// variables in which its Copilot client looks for a token.
#[derive(Debug)]
pub struct HostNames {
    pub zed_cloud: String,
    pub open_ai: String,
    pub anthropic: String,
    pub copilot_oauth: String,
    pub github_copilot_oauth: String,
}

/// The mathematical counterpart of [`HostNames`].
pub struct HostNamesView {
    pub zed_cloud: Seq<char>,
    pub open_ai: Seq<char>,
    pub anthropic: Seq<char>,
    pub copilot_oauth: Seq<char>,
    pub github_copilot_oauth: Seq<char>,
}

impl View for HostNames {
    type V = HostNamesView;

    open spec fn view(&self) -> HostNamesView {
        HostNamesView {
            zed_cloud: self.zed_cloud@,
            open_ai: self.open_ai@,
            anthropic: self.anthropic@,
            copilot_oauth: self.copilot_oauth@,
            github_copilot_oauth: self.github_copilot_oauth@,
        }
    }
}

/// The token spend of the account is wanted.
#[derive(Debug)]
pub struct AccountUsageWanted {
    pub refreshed: bool,
}

/// The account is to be refreshed.
#[derive(Debug)]
pub struct RefreshWanted {}

/// The token of the Copilot client and the values of some variables are wanted.
#[derive(Debug)]
pub struct CopilotTokenWanted {
    pub variables: Vec<String>,
}

/// The default model and the values of some variables are wanted.
#[derive(Debug)]
pub struct KeysWanted {
    pub provider: KeyedProvider,
    pub provider_id: String,
    pub monthly_budget_usd: Option<Single>,
    pub variables: Vec<String>,
}

/// The time is wanted.
#[derive(Debug)]
pub struct ClockWanted {
    pub key: String,
    pub budget: Option<Single>,
}

/// A request is to be sent.
#[derive(Debug)]
pub struct Exchange {
    pub request: HttpRequest,
    pub purpose: Purpose,
}

/// What a request is sent for.
#[derive(Debug)]
pub enum Purpose {
    Copilot,
    OpenRouter,
    Anthropic { has_budget: bool },
    Mistral { has_budget: bool },
    OpenAi(OpenAiSearch),
}

/// The search for a place that reports OpenAI spend.
#[derive(Debug)]
pub struct OpenAiSearch {
    pub key: String,
    pub budget: Option<Single>,
    /// The place that is being asked.
    pub uri: String,
    /// The places that are left.
    pub rest: Vec<String>,
    /// What the places before came to.
    pub errors: Vec<String>,
}

/// The body is to be read as what GitHub says of a Copilot user.
#[derive(Debug)]
pub struct CopilotReply {
    pub body: String,
}

/// The body is to be read as what OpenRouter says of a key.
#[derive(Debug)]
pub struct KeyReply {
    pub body: String,
}

/// What is to be done next.
#[derive(Debug)]
pub enum Step {
    AccountUsage(AccountUsageWanted),
    Refresh(RefreshWanted),
    CopilotToken(CopilotTokenWanted),
    Keys(KeysWanted),
    Clock(ClockWanted),
    Send(Exchange),
    ReadCopilotUser(CopilotReply),
    ReadKeyData(KeyReply),
    Done(Result<CreditSnapshot, FetchError>),
}

/// The mathematical counterpart of [`OpenAiSearch`].
#[verifier::ext_equal]
pub struct OpenAiSearchView {
    pub key: Seq<char>,
    pub budget: Option<Single>,
    pub uri: Seq<char>,
    pub rest: Seq<Seq<char>>,
    pub errors: Seq<Seq<char>>,
}

/// The mathematical counterpart of [`Purpose`].
#[verifier::ext_equal]
pub enum PurposeView {
    Copilot,
    OpenRouter,
    Anthropic { has_budget: bool },
    Mistral { has_budget: bool },
    OpenAi(OpenAiSearchView),
}

/// The mathematical counterpart of [`Step`].
#[verifier::ext_equal]
pub enum StepView {
    AccountUsage { refreshed: bool },
    Refresh,
    CopilotToken { variables: Seq<Seq<char>> },
    Keys {
        provider: KeyedProvider,
        provider_id: Seq<char>,
        monthly_budget_usd: Option<Single>,
        variables: Seq<Seq<char>>,
    },
    Clock { key: Seq<char>, budget: Option<Single> },
    Send { request: HttpRequestView, purpose: PurposeView },
    ReadCopilotUser { body: Seq<char> },
    ReadKeyData { body: Seq<char> },
    Done(Result<CreditSnapshotView, FetchErrorView>),
}

impl View for OpenAiSearch {
    type V = OpenAiSearchView;

    open spec fn view(&self) -> OpenAiSearchView {
        OpenAiSearchView {
            key: self.key@,
            budget: self.budget,
            uri: self.uri@,
            rest: texts_of(self.rest@),
            errors: texts_of(self.errors@),
        }
    }
}

impl View for Purpose {
    type V = PurposeView;

    open spec fn view(&self) -> PurposeView {
        match self {
            Purpose::Copilot => PurposeView::Copilot,
            Purpose::OpenRouter => PurposeView::OpenRouter,
            Purpose::Anthropic { has_budget } => PurposeView::Anthropic { has_budget: *has_budget },
            Purpose::Mistral { has_budget } => PurposeView::Mistral { has_budget: *has_budget },
            Purpose::OpenAi(search) => PurposeView::OpenAi(search@),
        }
    }
}

/// What an outcome stands for.
pub open spec fn outcome_view(outcome: Result<CreditSnapshot, FetchError>) -> Result<
    CreditSnapshotView,
    FetchErrorView,
> {
    match outcome {
        Ok(snapshot) => Ok(snapshot@),
        Err(error) => Err(error@),
    }
}

impl View for Step {
    type V = StepView;

    open spec fn view(&self) -> StepView {
        match self {
            Step::AccountUsage(w) => StepView::AccountUsage { refreshed: w.refreshed },
            Step::Refresh(_) => StepView::Refresh,
            Step::CopilotToken(w) => StepView::CopilotToken { variables: texts_of(w.variables@) },
            Step::Keys(w) => StepView::Keys {
                provider: w.provider,
                provider_id: w.provider_id@,
                monthly_budget_usd: w.monthly_budget_usd,
                variables: texts_of(w.variables@),
            },
            Step::Clock(w) => StepView::Clock { key: w.key@, budget: w.budget },
            Step::Send(x) => StepView::Send { request: x.request@, purpose: x.purpose@ },
            Step::ReadCopilotUser(r) => StepView::ReadCopilotUser { body: r.body@ },
            Step::ReadKeyData(r) => StepView::ReadKeyData { body: r.body@ },
            Step::Done(outcome) => StepView::Done(outcome_view(*outcome)),
        }
    }
}

/// The variables that may hold a provider's key.
pub open spec fn key_variables(provider: KeyedProvider) -> Seq<Seq<char>> {
    match provider {
        KeyedProvider::OpenRouter => seq!["OPENROUTER_API_KEY"@],
        KeyedProvider::OpenAi => seq!["OPENAI_API_KEY"@, "OPENAI_ADMIN_API_KEY"@],
        KeyedProvider::Anthropic => seq!["ANTHROPIC_API_KEY"@],
        KeyedProvider::Mistral => seq!["MISTRAL_API_KEY"@],
    }
}

fn write_key_variables(provider: KeyedProvider) -> (variables: Vec<String>)
    ensures
        texts_of(variables@) == key_variables(provider),
{
    let mut variables: Vec<String> = Vec::new();
    match provider {
        KeyedProvider::OpenRouter => {
            variables.push("OPENROUTER_API_KEY".to_owned());
        },
        KeyedProvider::OpenAi => {
            variables.push("OPENAI_API_KEY".to_owned());
            variables.push("OPENAI_ADMIN_API_KEY".to_owned());
        },
        KeyedProvider::Anthropic => {
            variables.push("ANTHROPIC_API_KEY".to_owned());
        },
        KeyedProvider::Mistral => {
            variables.push("MISTRAL_API_KEY".to_owned());
        },
    }
    assert(texts_of(variables@) =~= key_variables(provider));
    variables
}

/// The provider with a key that goes by an identifier.
pub open spec fn keyed_provider(id: Seq<char>, names: HostNamesView) -> Option<KeyedProvider> {
    if id == "openrouter"@ {
        Some(KeyedProvider::OpenRouter)
    } else if id == names.open_ai {
        Some(KeyedProvider::OpenAi)
    } else if id == names.anthropic {
        Some(KeyedProvider::Anthropic)
    } else if id == "mistral"@ {
        Some(KeyedProvider::Mistral)
    } else {
        None
    }
}

/// The first step for a provider.
pub open spec fn first_step(
    id: Seq<char>,
    names: HostNamesView,
    monthly_budget_usd: Option<Single>,
) -> StepView {
    if id == names.zed_cloud {
        StepView::AccountUsage { refreshed: false }
    } else if id == "copilot_chat"@ {
        StepView::CopilotToken {
            variables: spec_github_token_variables(
                names.copilot_oauth,
                names.github_copilot_oauth,
            ),
        }
    } else {
        match keyed_provider(id, names) {
            Some(provider) => StepView::Keys {
                provider,
                provider_id: id,
                monthly_budget_usd,
                variables: key_variables(provider),
            },
            None => StepView::Done(Err(FetchErrorView::UnsupportedProvider(id))),
        }
    }
}

/// Starts a fetch for the provider that goes by an identifier.
pub fn fetch_credit_snapshot(
    provider_id: String,
    names: &HostNames,
    monthly_budget_usd: Option<Single>,
) -> (step: Step)
    ensures
        step@ == first_step(provider_id@, names@, monthly_budget_usd),
{
    if provider_id == names.zed_cloud {
        return Step::AccountUsage(AccountUsageWanted { refreshed: false });
    }
    if provider_id == "copilot_chat".to_owned() {
        let mut variables: Vec<String> = Vec::new();
        variables.push("GITHUB_TOKEN".to_owned());
        variables.push("COPILOT_USAGE_TOKEN".to_owned());
        variables.push(names.copilot_oauth.clone());
        variables.push(names.github_copilot_oauth.clone());
        variables.push("GH_TOKEN".to_owned());
        assert(texts_of(variables@) =~= spec_github_token_variables(
            names@.copilot_oauth,
            names@.github_copilot_oauth,
        ));
        return Step::CopilotToken(CopilotTokenWanted { variables });
    }
    let provider = if provider_id == "openrouter".to_owned() {
        KeyedProvider::OpenRouter
    } else if provider_id == names.open_ai {
        KeyedProvider::OpenAi
    } else if provider_id == names.anthropic {
        KeyedProvider::Anthropic
    } else if provider_id == "mistral".to_owned() {
        KeyedProvider::Mistral
    } else {
        return Step::Done(Err(FetchError::UnsupportedProvider(provider_id)));
    };
    let variables = write_key_variables(provider);
    Step::Keys(KeysWanted { provider, provider_id, monthly_budget_usd, variables })
}

/// After the account was looked at: its spend, else one refresh, else nothing more to try.
pub open spec fn after_account_usage(
    refreshed: bool,
    usage: Option<TokenSpendUsage>,
    account_url: Seq<char>,
) -> StepView {
    match usage {
        Some(u) => StepView::Done(Ok(spec_zed_hosted_snapshot(u, account_url))),
        None => if refreshed {
            StepView::Done(Err(FetchErrorView::SpendUnavailable))
        } else {
            StepView::Refresh
        },
    }
}

impl AccountUsageWanted {
    pub fn resume(self, usage: Option<TokenSpendUsage>, account_url: String) -> (step: Step)
        ensures
            step@ == after_account_usage(self.refreshed, usage, account_url@),
    {
        match usage {
            Some(u) => Step::Done(Ok(zed_hosted_snapshot(u, account_url))),
            None => if self.refreshed {
                Step::Done(Err(FetchError::SpendUnavailable))
            } else {
                Step::Refresh(RefreshWanted {  })
            },
        }
    }
}

/// After the refresh: the account once more, unless the refresh failed.
pub open spec fn after_refresh(failure: Option<Seq<char>>) -> StepView {
    match failure {
        Some(cause) => StepView::Done(Err(FetchErrorView::RefreshFailed(cause))),
        None => StepView::AccountUsage { refreshed: true },
    }
}

impl RefreshWanted {
    pub fn resume(self, failure: Option<String>) -> (step: Step)
        ensures
            step@ == after_refresh(text_of(failure)),
    {
        match failure {
            Some(cause) => Step::Done(Err(FetchError::RefreshFailed(cause))),
            None => Step::AccountUsage(AccountUsageWanted { refreshed: true }),
        }
    }
}

/// The token for Copilot: that of its client, and only where there is none one of the
/// variables.
pub open spec fn copilot_token(
    client_token: Option<Seq<char>>,
    values: Seq<Option<Seq<char>>>,
) -> Option<Seq<char>> {
    match client_token {
        Some(token) => Some(token),
        None => first_token(values),
    }
}

pub open spec fn after_copilot_token(
    client_token: Option<Seq<char>>,
    values: Seq<Option<Seq<char>>>,
) -> StepView {
    match copilot_token(client_token, values) {
        Some(token) => StepView::Send {
            request: spec_copilot_request(token),
            purpose: PurposeView::Copilot,
        },
        None => StepView::Done(Err(FetchErrorView::CopilotSignIn)),
    }
}

impl CopilotTokenWanted {
    /// `values` are those of the variables asked for, in the same order.
    pub fn resume(self, client_token: Option<String>, values: &Vec<Option<String>>) -> (step: Step)
        ensures
            step@ == after_copilot_token(text_of(client_token), values_of(values@)),
    {
        let token = match client_token {
            Some(token) => Some(token),
            None => resolve_github_token(values),
        };
        match token {
            Some(token) => Step::Send(
                Exchange { request: copilot_request(&token), purpose: Purpose::Copilot },
            ),
            None => Step::Done(Err(FetchError::CopilotSignIn)),
        }
    }
}

/// After the keys were looked up.
pub open spec fn after_keys(
    provider: KeyedProvider,
    provider_id: Seq<char>,
    monthly_budget_usd: Option<Single>,
    default_model: Option<DefaultModelView>,
    values: Seq<Option<Seq<char>>>,
) -> StepView {
    let configured = spec_active_provider_api_key(provider_id, default_model);
    let budget = spec_usable_budget(monthly_budget_usd);
    match spec_choose_key(configured, value_at(values, 0)) {
        None => StepView::Done(Err(FetchErrorView::MissingKey(provider))),
        Some(key) => match provider {
            KeyedProvider::OpenRouter => StepView::Send {
                request: spec_openrouter_request(key),
                purpose: PurposeView::OpenRouter,
            },
            KeyedProvider::OpenAi => StepView::Clock {
                key: spec_usage_key(value_at(values, 1), key),
                budget,
            },
            KeyedProvider::Anthropic => StepView::Send {
                request: spec_anthropic_request(key),
                purpose: PurposeView::Anthropic { has_budget: budget is Some },
            },
            KeyedProvider::Mistral => StepView::Send {
                request: spec_mistral_request(key),
                purpose: PurposeView::Mistral { has_budget: budget is Some },
            },
        },
    }
}

impl KeysWanted {
    /// `values` are those of the variables asked for, in the same order.
    pub fn resume(self, default_model: Option<DefaultModel>, values: &Vec<Option<String>>) -> (step:
        Step)
        ensures
            step@ == after_keys(
                self.provider,
                self.provider_id@,
                self.monthly_budget_usd,
                model_of(default_model),
                values_of(values@),
            ),
    {
        let configured = active_provider_api_key(&self.provider_id, default_model);
        let key = match choose_key(configured, variable_at(values, 0)) {
            Some(key) => key,
            None => {
                return Step::Done(Err(FetchError::MissingKey(self.provider)));
            },
        };
        let budget = usable_budget(self.monthly_budget_usd);
        match self.provider {
            KeyedProvider::OpenRouter => Step::Send(
                Exchange { request: openrouter_request(&key), purpose: Purpose::OpenRouter },
            ),
            KeyedProvider::OpenAi => Step::Clock(
                ClockWanted { key: usage_key(variable_at(values, 1), key), budget },
            ),
            KeyedProvider::Anthropic => Step::Send(
                Exchange {
                    request: anthropic_request(key),
                    purpose: Purpose::Anthropic { has_budget: budget.is_some() },
                },
            ),
            KeyedProvider::Mistral => Step::Send(
                Exchange {
                    request: mistral_request(&key),
                    purpose: Purpose::Mistral { has_budget: budget.is_some() },
                },
            ),
        }
    }
}

/// Asks the first of some places, after the errors of those before.
pub open spec fn ask_next(
    key: Seq<char>,
    budget: Option<Single>,
    uris: Seq<Seq<char>>,
    errors: Seq<Seq<char>>,
) -> StepView {
    if uris.len() == 0 {
        StepView::Done(Ok(spec_openai_unavailable(errors, budget is Some)))
    } else {
        StepView::Send {
            request: spec_bearer_request(uris[0], key),
            purpose: PurposeView::OpenAi(
                OpenAiSearchView { key, budget, uri: uris[0], rest: uris.drop_first(), errors },
            ),
        }
    }
}

fn ask_next_place(key: String, budget: Option<Single>, uris: Vec<String>, errors: Vec<String>) -> (
step: Step)
    ensures
        step@ == ask_next(key@, budget, texts_of(uris@), texts_of(errors@)),
{
    let mut rest = uris;
    if rest.len() == 0 {
        return Step::Done(Ok(openai_unavailable(&errors, budget.is_some())));
    }
    let uri = rest.remove(0);
    assert(texts_of(rest@) =~= texts_of(uris@).drop_first());
    let request = bearer_request(uri.clone(), &key);
    Step::Send(
        Exchange {
            request,
            purpose: Purpose::OpenAi(OpenAiSearch { key, budget, uri, rest, errors }),
        },
    )
}

/// After the clock was read.
pub open spec fn after_clock(key: Seq<char>, budget: Option<Single>, now: int) -> StepView {
    if FIRST_SECOND <= now <= LAST_SECOND {
        ask_next(key, budget, candidate_uris(window_at(now)), seq![])
    } else {
        StepView::Done(Err(FetchErrorView::MonthUnknown))
    }
}

impl ClockWanted {
    /// `now` counts the seconds since the start of 1970 in UTC.
    pub fn resume(self, now: i64) -> (step: Step)
        ensures
            step@ == after_clock(self.key@, self.budget, now as int),
    {
        match usage_window(now) {
            Some(window) => {
                let errors: Vec<String> = Vec::new();
                assert(texts_of(errors@) =~= seq![]);
                ask_next_place(self.key, self.budget, write_candidate_uris(&window), errors)
            },
            None => Step::Done(Err(FetchError::MonthUnknown)),
        }
    }
}

impl ClockWanted {
    /// Goes on with the time that the clock shows, whatever it is.
    pub fn resume_now(self) -> (step: Step)
        ensures
            exists|now: int|
                0 <= now <= LAST_SECOND && clock_may_show(now) && step@
                    == #[trigger] after_clock(self.key@, self.budget, now),
    {
        self.resume(read_clock())
    }
}

impl OpenAiSearchView {
    /// The place that was asked came to nothing.
    pub open spec fn passed_over(self, reason: Seq<char>) -> StepView {
        ask_next(self.key, self.budget, self.rest, self.errors.push(self.uri + ": "@ + reason))
    }

    /// The place that was asked answered with a document, or with what is none: its spend, else
    /// the next place.
    pub open spec fn answered(self, document: Option<JsonView>) -> StepView {
        match document {
            None => self.passed_over("unexpected response format"@),
            Some(json) => match spent_usd(json) {
                Some(spent) => StepView::Done(Ok(spec_openai_snapshot(spent, self.budget))),
                None => self.passed_over("unexpected response format"@),
            },
        }
    }
}

/// The document that a text holds, where it holds one, has finite numbers only.
pub open spec fn reads_finite_numbers(text: Seq<char>) -> bool {
    json_document(text) matches Some(json) ==> json.numbers_are_finite()
}

/// What a document that was read stands for; nothing where there is none.
pub open spec fn document_view(document: Result<Json, serde_json::Error>) -> Option<JsonView> {
    match document {
        Ok(json) => Some(json@),
        Err(_) => None,
    }
}

impl OpenAiSearch {
    fn pass_over(self, reason: &str) -> (step: Step)
        ensures
            step@ == self@.passed_over(reason@),
    {
        let mut error = self.uri;
        error.append(": ");
        error.append(reason);
        let mut errors = self.errors;
        errors.push(error);
        assert(texts_of(errors@) =~= self@.errors.push(self@.uri + ": "@ + reason@));
        ask_next_place(self.key, self.budget, self.rest, errors)
    }

    /// Takes in what the place that was asked answered with.
    pub fn take_answer(self, document: Result<Json, serde_json::Error>) -> (step: Step)
        ensures
            step@ == self@.answered(document_view(document)),
    {
        match document {
            Ok(json) => match parse_openai_spent_usd(&json) {
                Some(spent) => Step::Done(Ok(openai_snapshot(spent, self.budget))),
                None => self.pass_over("unexpected response format"),
            },
            Err(_) => self.pass_over("unexpected response format"),
        }
    }
}

/// After a reply to a request.
pub open spec fn after_reply(purpose: PurposeView, success: bool, body: Seq<char>) -> StepView {
    match purpose {
        PurposeView::Copilot => if success {
            StepView::ReadCopilotUser { body }
        } else {
            StepView::Done(Err(FetchErrorView::RequestFailed(Service::Copilot, body)))
        },
        PurposeView::OpenRouter => if success {
            StepView::ReadKeyData { body }
        } else {
            StepView::Done(Err(FetchErrorView::RequestFailed(Service::OpenRouter, body)))
        },
        PurposeView::Anthropic { has_budget } => if success {
            StepView::Done(Ok(spec_anthropic_snapshot(has_budget)))
        } else {
            StepView::Done(Err(FetchErrorView::RequestFailed(Service::Anthropic, body)))
        },
        PurposeView::Mistral { has_budget } => if success {
            StepView::Done(Ok(spec_mistral_snapshot(has_budget)))
        } else {
            StepView::Done(Err(FetchErrorView::RequestFailed(Service::Mistral, body)))
        },
        PurposeView::OpenAi(search) => if success {
            search.answered(json_document(body))
        } else {
            search.passed_over(body)
        },
    }
}

impl Exchange {
    /// Takes in a reply: whether its status reports success, and its body.
    pub fn resume(self, success: bool, body: String) -> (step: Step)
        ensures
            step@ == after_reply(self.purpose@, success, body@),
            self.purpose is OpenAi && success ==> reads_finite_numbers(body@),
    {
        match self.purpose {
            Purpose::Copilot => if success {
                Step::ReadCopilotUser(CopilotReply { body })
            } else {
                Step::Done(Err(FetchError::RequestFailed(Service::Copilot, body)))
            },
            Purpose::OpenRouter => if success {
                Step::ReadKeyData(KeyReply { body })
            } else {
                Step::Done(Err(FetchError::RequestFailed(Service::OpenRouter, body)))
            },
            Purpose::Anthropic { has_budget } => if success {
                Step::Done(Ok(anthropic_snapshot(has_budget)))
            } else {
                Step::Done(Err(FetchError::RequestFailed(Service::Anthropic, body)))
            },
            Purpose::Mistral { has_budget } => if success {
                Step::Done(Ok(mistral_snapshot(has_budget)))
            } else {
                Step::Done(Err(FetchError::RequestFailed(Service::Mistral, body)))
            },
            Purpose::OpenAi(search) => if success {
                search.take_answer(read_json(body.as_str()))
            } else {
                search.pass_over(body.as_str())
            },
        }
    }

    /// The request could not be sent, or its reply not be read.
    pub fn fail(self, cause: String) -> (step: Step)
        ensures
            step@ == after_failure(cause@),
    {
        Step::Done(Err(FetchError::Outside(cause)))
    }
}

/// What fails outside ends the fetch.
pub open spec fn after_failure(cause: Seq<char>) -> StepView {
    StepView::Done(Err(FetchErrorView::Outside(cause)))
}

/// After a body was read as what GitHub says of a Copilot user, or could not be.
pub open spec fn after_copilot_user(user: Result<CopilotUserView, Seq<char>>) -> StepView {
    match user {
        Ok(user) => StepView::Done(spec_copilot_snapshot(user)),
        Err(cause) => after_failure(cause),
    }
}

impl CopilotReply {
    pub fn resume(self, user: Result<CopilotUser, String>) -> (step: Step)
        ensures
            step@ == after_copilot_user(
                match user {
                    Ok(u) => Ok(u@),
                    Err(cause) => Err(cause@),
                },
            ),
    {
        match user {
            Ok(user) => Step::Done(copilot_snapshot(user)),
            Err(cause) => Step::Done(Err(FetchError::Outside(cause))),
        }
    }
}

/// After a body was read as what OpenRouter says of a key, or could not be.
pub open spec fn after_key_data(data: Result<KeyData, Seq<char>>) -> StepView {
    match data {
        Ok(data) => StepView::Done(Ok(spec_openrouter_snapshot(data))),
        Err(cause) => after_failure(cause),
    }
}

impl KeyReply {
    pub fn resume(self, data: Result<KeyData, String>) -> (step: Step)
        ensures
            step@ == after_key_data(
                match data {
                    Ok(d) => Ok(d),
                    Err(cause) => Err(cause@),
                },
            ),
    {
        match data {
            Ok(data) => Step::Done(Ok(openrouter_snapshot(data))),
            Err(cause) => Step::Done(Err(FetchError::Outside(cause))),
        }
    }
}

/// A step stands for what its fields hold.
pub proof fn steps_stand_for_their_fields(step: Step)
    ensures
        step matches Step::AccountUsage(wanted) ==> step@ == (StepView::AccountUsage {
            refreshed: wanted.refreshed,
        }),
        step is Refresh ==> step@ == StepView::Refresh,
        step matches Step::CopilotToken(wanted) ==> step@ == (StepView::CopilotToken {
            variables: texts_of(wanted.variables@),
        }),
        step matches Step::Keys(wanted) ==> step@ == (StepView::Keys {
            provider: wanted.provider,
            provider_id: wanted.provider_id@,
            monthly_budget_usd: wanted.monthly_budget_usd,
            variables: texts_of(wanted.variables@),
        }),
        step matches Step::Clock(wanted) ==> step@ == (StepView::Clock {
            key: wanted.key@,
            budget: wanted.budget,
        }),
        step matches Step::Send(exchange) ==> (step@ matches StepView::Send { request, purpose }
            && request == exchange.request@ && purpose == exchange.purpose@),
        step matches Step::ReadCopilotUser(reply) ==> step@ == (StepView::ReadCopilotUser {
            body: reply.body@,
        }),
        step matches Step::ReadKeyData(reply) ==> step@ == (StepView::ReadKeyData {
            body: reply.body@,
        }),
        step matches Step::Done(Ok(snapshot)) ==> step@ == StepView::Done(Ok(snapshot@)),
        step matches Step::Done(Err(error)) ==> step@ == StepView::Done(Err(error@)),
{
}

/// A purpose and the names of the program stand for what their fields hold.
pub proof fn purposes_and_names_stand_for_their_fields(purpose: Purpose, names: HostNames)
    ensures
        purpose is Copilot ==> purpose@ == PurposeView::Copilot,
        purpose is OpenRouter ==> purpose@ == PurposeView::OpenRouter,
        purpose matches Purpose::Anthropic { has_budget } ==> purpose@ == (PurposeView::Anthropic {
            has_budget,
        }),
        purpose matches Purpose::Mistral { has_budget } ==> purpose@ == (PurposeView::Mistral {
            has_budget,
        }),
        purpose matches Purpose::OpenAi(search) ==> (purpose@ matches PurposeView::OpenAi(stands)
            && stands.key == search.key@ && stands.budget == search.budget && stands.uri
            == search.uri@ && stands.rest == texts_of(search.rest@) && stands.errors == texts_of(
            search.errors@,
        )),
        names@.zed_cloud == names.zed_cloud@,
        names@.open_ai == names.open_ai@,
        names@.anthropic == names.anthropic@,
        names@.copilot_oauth == names.copilot_oauth@,
        names@.github_copilot_oauth == names.github_copilot_oauth@,
{
}

} // verus!
