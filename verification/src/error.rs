//! Why no snapshot could be had.

use vstd::prelude::*;
use vstd::string::*;

verus! {

/// The providers that are asked with an API key.
#[derive(Clone, Copy, PartialEq, Eq, Structural, Debug)]
pub enum KeyedProvider {
    OpenRouter,
    OpenAi,
    Anthropic,
    Mistral,
}

/// The services whose refusal ends a fetch.
#[derive(Clone, Copy, PartialEq, Eq, Structural, Debug)]
pub enum Service {
    Copilot,
    OpenRouter,
    Anthropic,
    Mistral,
}

/// Why a fetch ended without a snapshot.
#[derive(Debug)]
pub enum FetchError {
    /// No provider goes by this identifier.
    UnsupportedProvider(String),
    /// The account reports no spend, even after it was refreshed.
    SpendUnavailable,
    /// The account could not be refreshed.
    RefreshFailed(String),
    /// No token for GitHub Copilot is at hand.
    CopilotSignIn,
    /// GitHub Copilot reports no premium quota.
    CopilotQuotaMissing,
    /// No API key for the provider is at hand.
    MissingKey(KeyedProvider),
    /// The service refused the request, with this body.
    RequestFailed(Service, String),
    /// The running month could not be placed in the calendar.
    MonthUnknown,
    /// The reply is not of the expected form, or could not be had at all.
    Outside(String),
}

/// The mathematical counterpart of [`FetchError`].
pub enum FetchErrorView {
    UnsupportedProvider(Seq<char>),
    SpendUnavailable,
    RefreshFailed(Seq<char>),
    CopilotSignIn,
    CopilotQuotaMissing,
    MissingKey(KeyedProvider),
    RequestFailed(Service, Seq<char>),
    MonthUnknown,
    Outside(Seq<char>),
}

impl View for FetchError {
    type V = FetchErrorView;

    open spec fn view(&self) -> FetchErrorView {
        match self {
            FetchError::UnsupportedProvider(id) => FetchErrorView::UnsupportedProvider(id@),
            FetchError::SpendUnavailable => FetchErrorView::SpendUnavailable,
            FetchError::RefreshFailed(cause) => FetchErrorView::RefreshFailed(cause@),
            FetchError::CopilotSignIn => FetchErrorView::CopilotSignIn,
            FetchError::CopilotQuotaMissing => FetchErrorView::CopilotQuotaMissing,
            FetchError::MissingKey(provider) => FetchErrorView::MissingKey(*provider),
            FetchError::RequestFailed(service, body) => FetchErrorView::RequestFailed(
                *service,
                body@,
            ),
            FetchError::MonthUnknown => FetchErrorView::MonthUnknown,
            FetchError::Outside(cause) => FetchErrorView::Outside(cause@),
        }
    }
}

/// What is said where a provider's key is missing.
pub open spec fn missing_key_text(provider: KeyedProvider) -> Seq<char> {
    match provider {
        KeyedProvider::OpenRouter =>
            "Configure OpenRouter API key in settings (or set OPENROUTER_API_KEY) to view OpenRouter credits"@,
        KeyedProvider::OpenAi =>
            "Configure OpenAI API key in settings (or set OPENAI_API_KEY) to view OpenAI usage"@,
        KeyedProvider::Anthropic =>
            "Configure Anthropic API key in settings (or set ANTHROPIC_API_KEY) to view Anthropic usage"@,
        KeyedProvider::Mistral =>
            "Configure Mistral API key in settings (or set MISTRAL_API_KEY) to view Mistral usage"@,
    }
}

/// What is said before the body with which a service refused a request.
pub open spec fn refusal_text(service: Service) -> Seq<char> {
    match service {
        Service::Copilot => "GitHub Copilot usage request failed: "@,
        Service::OpenRouter => "OpenRouter usage request failed: "@,
        Service::Anthropic => "Anthropic request failed: "@,
        Service::Mistral => "Mistral request failed: "@,
    }
}

/// What an error says.
pub open spec fn error_text(error: FetchErrorView) -> Seq<char> {
    match error {
        FetchErrorView::UnsupportedProvider(id) => "Unsupported provider: "@ + id,
        FetchErrorView::SpendUnavailable =>
            "Zed Pro token spend is not available from your account yet"@,
        FetchErrorView::RefreshFailed(_) => "failed to refresh Zed account usage"@,
        FetchErrorView::CopilotSignIn => "Sign in to GitHub Copilot to view usage"@,
        FetchErrorView::CopilotQuotaMissing => "No Copilot premium quota data available"@,
        FetchErrorView::MissingKey(provider) => missing_key_text(provider),
        FetchErrorView::RequestFailed(service, body) => refusal_text(service) + body,
        FetchErrorView::MonthUnknown =>
            "failed to compute OpenAI usage start-of-month timestamp"@,
        FetchErrorView::Outside(cause) => cause,
    }
}

impl FetchError {
    /// What is shown of the error.
    pub fn message(&self) -> (message: String)
        ensures
            message@ == error_text(self@),
    {
        match self {
            FetchError::UnsupportedProvider(id) => {
                let mut text = "Unsupported provider: ".to_owned();
                text.append(id.as_str());
                text
            },
            FetchError::SpendUnavailable =>
                "Zed Pro token spend is not available from your account yet".to_owned(),
            FetchError::RefreshFailed(_) => "failed to refresh Zed account usage".to_owned(),
            FetchError::CopilotSignIn => "Sign in to GitHub Copilot to view usage".to_owned(),
            FetchError::CopilotQuotaMissing => "No Copilot premium quota data available".to_owned(),
            FetchError::MissingKey(provider) => match provider {
                KeyedProvider::OpenRouter =>
                    "Configure OpenRouter API key in settings (or set OPENROUTER_API_KEY) to view OpenRouter credits".to_owned(),
                KeyedProvider::OpenAi =>
                    "Configure OpenAI API key in settings (or set OPENAI_API_KEY) to view OpenAI usage".to_owned(),
                KeyedProvider::Anthropic =>
                    "Configure Anthropic API key in settings (or set ANTHROPIC_API_KEY) to view Anthropic usage".to_owned(),
                KeyedProvider::Mistral =>
                    "Configure Mistral API key in settings (or set MISTRAL_API_KEY) to view Mistral usage".to_owned(),
            },
            FetchError::RequestFailed(service, body) => {
                let mut text = match service {
                    Service::Copilot => "GitHub Copilot usage request failed: ".to_owned(),
                    Service::OpenRouter => "OpenRouter usage request failed: ".to_owned(),
                    Service::Anthropic => "Anthropic request failed: ".to_owned(),
                    Service::Mistral => "Mistral request failed: ".to_owned(),
                };
                text.append(body.as_str());
                text
            },
            FetchError::MonthUnknown =>
                "failed to compute OpenAI usage start-of-month timestamp".to_owned(),
            FetchError::Outside(cause) => cause.clone(),
        }
    }
}

/// An error says what was asked for or what was answered, in the words of the service where
/// there are any.
pub proof fn errors_say_what_went_wrong(text: Seq<char>)
    ensures
        error_text(FetchErrorView::UnsupportedProvider(text)) == "Unsupported provider: "@ + text,
        error_text(FetchErrorView::Outside(text)) == text,
        error_text(FetchErrorView::RequestFailed(Service::Copilot, text))
            == "GitHub Copilot usage request failed: "@ + text,
        error_text(FetchErrorView::RequestFailed(Service::OpenRouter, text))
            == "OpenRouter usage request failed: "@ + text,
        error_text(FetchErrorView::RequestFailed(Service::Anthropic, text))
            == "Anthropic request failed: "@ + text,
        error_text(FetchErrorView::RequestFailed(Service::Mistral, text))
            == "Mistral request failed: "@ + text,
        error_text(FetchErrorView::RefreshFailed(text)) == "failed to refresh Zed account usage"@,
{
}

/// An error that carries no text says what to do, or what is missing.
pub proof fn errors_say_what_is_missing()
    ensures
        error_text(FetchErrorView::SpendUnavailable)
            == "Zed Pro token spend is not available from your account yet"@,
        error_text(FetchErrorView::CopilotSignIn) == "Sign in to GitHub Copilot to view usage"@,
        error_text(FetchErrorView::CopilotQuotaMissing)
            == "No Copilot premium quota data available"@,
        error_text(FetchErrorView::MonthUnknown)
            == "failed to compute OpenAI usage start-of-month timestamp"@,
        error_text(FetchErrorView::MissingKey(KeyedProvider::OpenRouter))
            == "Configure OpenRouter API key in settings (or set OPENROUTER_API_KEY) to view OpenRouter credits"@,
        error_text(FetchErrorView::MissingKey(KeyedProvider::OpenAi))
            == "Configure OpenAI API key in settings (or set OPENAI_API_KEY) to view OpenAI usage"@,
        error_text(FetchErrorView::MissingKey(KeyedProvider::Anthropic))
            == "Configure Anthropic API key in settings (or set ANTHROPIC_API_KEY) to view Anthropic usage"@,
        error_text(FetchErrorView::MissingKey(KeyedProvider::Mistral))
            == "Configure Mistral API key in settings (or set MISTRAL_API_KEY) to view Mistral usage"@,
{
}

/// What is shown of an error is what it says, with the text that it carries.
pub proof fn messages_say_what_errors_say(error: FetchError, message: String)
    requires
        call_ensures(FetchError::message, (&error,), message),
    ensures
        message@ == error_text(error@),
        error matches FetchError::UnsupportedProvider(id) ==> message@ == "Unsupported provider: "@
            + id@,
        error matches FetchError::RequestFailed(service, body) ==> message@ == refusal_text(service)
            + body@,
        error matches FetchError::MissingKey(provider) ==> message@ == missing_key_text(provider),
        error matches FetchError::Outside(cause) ==> message@ == cause@,
{
}

} // verus!
