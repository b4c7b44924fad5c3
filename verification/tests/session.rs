use ai_credit_status::copilot::{CopilotUser, QuotaSnapshot, QuotaSnapshots};
use ai_credit_status::error::{FetchError, KeyedProvider, Service};
use ai_credit_status::keys::DefaultModel;
use ai_credit_status::number::{Double, Single};
use ai_credit_status::openrouter::KeyData;
use ai_credit_status::session::{
    fetch_credit_snapshot, ClockWanted, Exchange, HostNames, KeysWanted, Step,
};
use ai_credit_status::snapshot::CreditSnapshot;
use ai_credit_status::zed::TokenSpendUsage;

fn names() -> HostNames {
    HostNames {
        zed_cloud: "zed.dev".to_string(),
        open_ai: "openai".to_string(),
        anthropic: "anthropic".to_string(),
        copilot_oauth: "GH_COPILOT_TOKEN".to_string(),
        github_copilot_oauth: "GITHUB_COPILOT_TOKEN".to_string(),
    }
}

fn budget(x: f32) -> Option<Single> {
    Some(Single::from_bits(x.to_bits()))
}

fn start(provider: &str, budget: Option<Single>) -> Step {
    fetch_credit_snapshot(provider.to_string(), &names(), budget)
}

fn text(s: &str) -> Option<String> {
    Some(s.to_string())
}

fn keys(step: Step) -> KeysWanted {
    match step {
        Step::Keys(wanted) => wanted,
        other => panic!("{:?}", other),
    }
}

fn clock(step: Step) -> ClockWanted {
    match step {
        Step::Clock(wanted) => wanted,
        other => panic!("{:?}", other),
    }
}

fn send(step: Step) -> Exchange {
    match step {
        Step::Send(exchange) => exchange,
        other => panic!("{:?}", other),
    }
}

fn snapshot(step: Step) -> CreditSnapshot {
    match step {
        Step::Done(Ok(snapshot)) => snapshot,
        other => panic!("{:?}", other),
    }
}

fn error(step: Step) -> FetchError {
    match step {
        Step::Done(Err(error)) => error,
        other => panic!("{:?}", other),
    }
}

fn model(provider: &str, key: &str) -> Option<DefaultModel> {
    Some(DefaultModel { provider_id: provider.to_string(), api_key: text(key) })
}

#[test]
fn unknown_providers_are_unsupported() {
    let failure = error(start("ollama", None));
    assert!(matches!(&failure, FetchError::UnsupportedProvider(id) if id == "ollama"));
    assert_eq!(failure.message(), "Unsupported provider: ollama");
}

#[test]
fn zed_spend_known_at_once() {
    let wanted = match start("zed.dev", None) {
        Step::AccountUsage(wanted) => wanted,
        other => panic!("{:?}", other),
    };
    assert!(!wanted.refreshed);
    let usage = TokenSpendUsage { spent_cents: 500, limit_cents: 1000 };
    let shown = snapshot(wanted.resume(Some(usage), "url".to_string()));
    assert_eq!(shown.label, "$5.00 used");
    assert_eq!(shown.used_ratio.bits, 0.5f32.to_bits());
}

#[test]
fn zed_account_is_refreshed_once() {
    let refresh = |step: Step| match step {
        Step::AccountUsage(wanted) => match wanted.resume(None, String::new()) {
            Step::Refresh(wanted) => wanted,
            other => panic!("{:?}", other),
        },
        other => panic!("{:?}", other),
    };
    let failure = error(refresh(start("zed.dev", None)).resume(text("offline")));
    assert!(matches!(&failure, FetchError::RefreshFailed(cause) if cause == "offline"));
    let again = match refresh(start("zed.dev", None)).resume(None) {
        Step::AccountUsage(wanted) => wanted,
        other => panic!("{:?}", other),
    };
    assert!(again.refreshed);
    assert!(matches!(error(again.resume(None, String::new())), FetchError::SpendUnavailable));
}

#[test]
fn copilot_from_token_to_snapshot() {
    let wanted = || match start("copilot_chat", None) {
        Step::CopilotToken(wanted) => wanted,
        other => panic!("{:?}", other),
    };
    assert_eq!(
        wanted().variables,
        vec![
            "GITHUB_TOKEN".to_string(),
            "COPILOT_USAGE_TOKEN".to_string(),
            "GH_COPILOT_TOKEN".to_string(),
            "GITHUB_COPILOT_TOKEN".to_string(),
            "GH_TOKEN".to_string(),
        ]
    );
    assert!(matches!(
        error(wanted().resume(None, &vec![None, text(" ")])),
        FetchError::CopilotSignIn
    ));
    let exchange = send(wanted().resume(None, &vec![None, None, None, None, text(" late ")]));
    assert_eq!(exchange.request.headers[0].1, "Bearer late");
    let exchange = send(wanted().resume(text("client"), &vec![text("variable")]));
    assert_eq!(exchange.request.headers[0].1, "Bearer client");
    let reply = match exchange.resume(true, "{}".to_string()) {
        Step::ReadCopilotUser(reply) => reply,
        other => panic!("{:?}", other),
    };
    assert_eq!(reply.body, "{}");
    let quota = QuotaSnapshot {
        percent_remaining: Some(Double::from_bits(25.0f64.to_bits())),
        quota_remaining: None,
        entitlement: None,
        unlimited: None,
    };
    let user = CopilotUser {
        quota_reset_date: None,
        quota_snapshots: Some(QuotaSnapshots { premium_interactions: Some(quota) }),
    };
    assert_eq!(snapshot(reply.resume(Ok(user))).label, "75%");
}

#[test]
fn copilot_refusals_and_failures() {
    let exchange = || match start("copilot_chat", None) {
        Step::CopilotToken(wanted) => send(wanted.resume(text("t"), &vec![])),
        other => panic!("{:?}", other),
    };
    let failure = error(exchange().resume(false, "bad credentials".to_string()));
    assert!(matches!(failure, FetchError::RequestFailed(Service::Copilot, _)));
    assert_eq!(failure.message(), "GitHub Copilot usage request failed: bad credentials");
    let failure = error(exchange().fail("no route".to_string()));
    assert!(matches!(&failure, FetchError::Outside(cause) if cause == "no route"));
    let reply = match exchange().resume(true, "x".to_string()) {
        Step::ReadCopilotUser(reply) => reply,
        other => panic!("{:?}", other),
    };
    assert_eq!(error(reply.resume(Err("expected value".to_string()))).message(), "expected value");
}

#[test]
fn missing_keys() {
    for (provider, expected) in [
        ("openrouter", KeyedProvider::OpenRouter),
        ("openai", KeyedProvider::OpenAi),
        ("anthropic", KeyedProvider::Anthropic),
        ("mistral", KeyedProvider::Mistral),
    ] {
        let failure = error(keys(start(provider, None)).resume(None, &vec![None, None]));
        assert!(matches!(failure, FetchError::MissingKey(p) if p == expected));
        let failure = error(keys(start(provider, None)).resume(model("other", "k"), &vec![]));
        assert!(matches!(failure, FetchError::MissingKey(p) if p == expected));
        let failure =
            error(keys(start(provider, None)).resume(model(provider, ""), &vec![text("k")]));
        assert!(matches!(failure, FetchError::MissingKey(p) if p == expected));
    }
}

#[test]
fn keys_are_asked_for_by_name() {
    assert_eq!(keys(start("openrouter", None)).variables, vec!["OPENROUTER_API_KEY".to_string()]);
    assert_eq!(
        keys(start("openai", None)).variables,
        vec!["OPENAI_API_KEY".to_string(), "OPENAI_ADMIN_API_KEY".to_string()]
    );
    assert_eq!(keys(start("anthropic", None)).variables, vec!["ANTHROPIC_API_KEY".to_string()]);
    assert_eq!(keys(start("mistral", None)).variables, vec!["MISTRAL_API_KEY".to_string()]);
}

#[test]
fn openrouter_from_key_to_snapshot() {
    let exchange = send(keys(start("openrouter", None)).resume(None, &vec![text("sk")]));
    assert_eq!(exchange.request.headers[0].1, "Bearer sk");
    let reply = match exchange.resume(true, "body".to_string()) {
        Step::ReadKeyData(reply) => reply,
        other => panic!("{:?}", other),
    };
    let usage = Double::from_bits(1.5f64.to_bits());
    let data = KeyData { limit: None, limit_remaining: None, usage };
    assert_eq!(snapshot(reply.resume(Ok(data))).label, "$1.50 used");
    let exchange = send(keys(start("openrouter", None)).resume(None, &vec![text("sk")]));
    assert_eq!(
        error(exchange.resume(false, "denied".to_string())).message(),
        "OpenRouter usage request failed: denied"
    );
}

#[test]
fn silent_providers_by_budget() {
    for provider in ["anthropic", "mistral"] {
        let exchange = || send(keys(start(provider, budget(20.0))).resume(model(provider, "k"), &vec![]));
        assert!(!exchange().request.body_on_success);
        let shown = snapshot(exchange().resume(true, String::new()));
        assert_eq!(shown.label, "");
        assert!(shown.uses_estimated_budget);
        assert!(matches!(
            error(exchange().resume(false, "no".to_string())),
            FetchError::RequestFailed(_, body) if body == "no"
        ));
        for unusable in [None, budget(0.0), budget(-1.0)] {
            let exchange = send(keys(start(provider, unusable)).resume(model(provider, "k"), &vec![]));
            let shown = snapshot(exchange.resume(true, String::new()));
            assert_eq!(shown.label, "Usage unavailable");
            assert!(!shown.uses_estimated_budget);
        }
    }
}

fn openai(budget: Option<Single>) -> Exchange {
    let wanted = clock(keys(start("openai", budget)).resume(model("openai", "pk"), &vec![None, text("admin")]));
    assert_eq!(wanted.key, "admin");
    send(wanted.resume(1431648000))
}

#[test]
fn openai_first_report_decides() {
    let first = openai(budget(100.0));
    assert!(first.request.uri.starts_with("https://api.openai.com/v1/organization/costs?"));
    assert_eq!(first.request.headers[0].1, "Bearer admin");
    let second = send(first.resume(false, "forbidden".to_string()));
    assert!(second.request.uri.starts_with("https://api.openai.com/v1/dashboard/billing/usage?"));
    let third = send(second.resume(true, "{\"unknown\": 1}".to_string()));
    assert_eq!(
        third.request.uri,
        "https://api.openai.com/v1/usage?start_date=2015-05-01&end_date=2015-05-15"
    );
    assert_eq!(third.request.headers[0].1, "Bearer admin");
    let shown = snapshot(third.resume(true, "{\"total_usage\": 2500}".to_string()));
    assert_eq!(shown.label, "$25.00 used this month");
    assert_eq!(shown.used_ratio.bits, 0.25f32.to_bits());
    assert_eq!(shown.tooltip, "OpenAI usage this month: $25.00 of $100.00 configured budget");
}

#[test]
fn openai_without_any_report() {
    let run = |budget: Option<Single>, body: &str| {
        let mut exchange = openai(budget);
        for _ in 0..3 {
            exchange = send(exchange.resume(false, body.to_string()));
        }
        assert_eq!(exchange.request.uri, "https://api.openai.com/v1/usage?date=2015-05-15");
        snapshot(exchange.resume(true, "[]".to_string()))
    };
    let shown = run(None, "nope");
    assert_eq!(shown.label, "Usage unavailable");
    assert_eq!(
        shown.tooltip,
        "OpenAI usage endpoint did not return parsable data. Latest errors: \
         https://api.openai.com/v1/organization/costs?start_time=1430438400&end_time=1431648000&bucket_width=1d: nope | \
         https://api.openai.com/v1/dashboard/billing/usage?start_date=2015-05-01&end_date=2015-05-15: nope | \
         https://api.openai.com/v1/usage?start_date=2015-05-01&end_date=2015-05-15: nope | \
         https://api.openai.com/v1/usage?date=2015-05-15: unexpected response format"
    );
    let shown = run(budget(5.0), "Must use a Session Key");
    assert_eq!(shown.label, "");
    assert!(shown.uses_estimated_budget);
    assert!(shown.tooltip.starts_with("OpenAI usage endpoint rejected API-key access"));
}

#[test]
fn openai_replies_that_are_not_json_are_passed_over() {
    for (limit, label) in [(None, "Usage unavailable"), (budget(5.0), "")] {
        let mut exchange = openai(limit);
        let mut noted = Vec::new();
        for _ in 0..3 {
            noted.push(format!("{}: unexpected response format", exchange.request.uri));
            exchange = send(exchange.resume(true, "<html>".to_string()));
        }
        noted.push(format!("{}: unexpected response format", exchange.request.uri));
        let shown = snapshot(exchange.resume(true, "<html>".to_string()));
        assert_eq!(shown.label, label);
        assert_eq!(shown.uses_estimated_budget, limit.is_some());
        if limit.is_none() {
            assert_eq!(
                shown.tooltip,
                format!(
                    "OpenAI usage endpoint did not return parsable data. Latest errors: {}",
                    noted.join(" | ")
                )
            );
        }
    }
}

#[test]
fn openai_report_after_a_reply_that_is_not_json() {
    let second = send(openai(None).resume(true, "<html>".to_string()));
    let shown = snapshot(second.resume(true, r#"{"total_usage": 250}"#.to_string()));
    assert_eq!(shown.label, "$2.50 used this month");
}

#[test]
fn openai_outside_the_calendar() {
    let wanted = clock(keys(start("openai", None)).resume(None, &vec![text("k")]));
    assert_eq!(wanted.key, "k");
    assert!(matches!(error(wanted.resume(i64::MAX)), FetchError::MonthUnknown));
}

#[test]
fn openai_at_the_time_of_the_clock() {
    let wanted = clock(keys(start("openai", None)).resume(None, &vec![text("k"), text("")]));
    let exchange = send(wanted.resume_now());
    let uri = exchange.request.uri;
    let rest = uri
        .strip_prefix("https://api.openai.com/v1/organization/costs?start_time=")
        .unwrap();
    let (start, rest) = rest.split_once("&end_time=").unwrap();
    let end = rest.strip_suffix("&bucket_width=1d").unwrap();
    let start: i64 = start.parse().unwrap();
    let end: i64 = end.parse().unwrap();
    assert!(end > 1700000000);
    assert!(start <= end && end - start < 31 * 86400 && start % 86400 == 0);
}

#[test]
fn fetches_that_end_well_are_well_shown() {
    let huge = r#"{"data": [{"results": [{"amount": {"value": 1e308}}, {"amount": {"value": 1e308}}]}]}"#;
    for (limit, reply, ratio) in [
        (budget(100.0), huge, 1.0f32),
        (budget(100.0), r#"{"total_usage": -500}"#, 0.0),
        (budget(100.0), r#"{"total_usage": 2500}"#, 0.25),
        (budget(-1.0), r#"{"total_usage": 2500}"#, 0.0),
        (None, huge, 0.0),
    ] {
        let shown = snapshot(openai(limit).resume(true, reply.to_string()));
        assert_eq!(f32::from_bits(shown.used_ratio.bits), ratio);
        assert!(shown.account_url.is_some());
        assert!(!shown.uses_estimated_budget);
    }
    for provider in ["anthropic", "mistral"] {
        for (limit, estimated) in [(budget(5.0), true), (budget(0.0), false), (None, false)] {
            let exchange = send(keys(start(provider, limit)).resume(None, &vec![text("k")]));
            let shown = snapshot(exchange.resume(true, String::new()));
            assert_eq!(shown.used_ratio.bits, 0);
            assert!(shown.account_url.is_some());
            assert_eq!(shown.uses_estimated_budget, estimated);
        }
    }
}
