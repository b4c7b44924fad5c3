use ai_credit_status::copilot::{
    copilot_request, copilot_snapshot, CopilotUser, QuotaSnapshot, QuotaSnapshots,
};
use ai_credit_status::error::{FetchError, KeyedProvider, Service};
use ai_credit_status::estimate::{
    anthropic_request, anthropic_snapshot, mistral_request, mistral_snapshot, usable_budget,
};
use ai_credit_status::keys::{
    active_provider_api_key, active_provider_id, choose_key, resolve_github_token, usage_key,
    variable_at, DefaultModel,
};
use ai_credit_status::number::{Double, Single};
use ai_credit_status::openai::{openai_snapshot, openai_unavailable, write_candidate_uris};
use ai_credit_status::openrouter::{openrouter_request, openrouter_snapshot, KeyData};
use ai_credit_status::clock::usage_window;
use ai_credit_status::zed::{zed_hosted_snapshot, TokenSpendUsage};

fn double(x: f64) -> Double {
    Double::from_bits(x.to_bits())
}

fn single(x: f32) -> Single {
    Single::from_bits(x.to_bits())
}

fn text(s: &str) -> Option<String> {
    Some(s.to_string())
}

#[test]
fn zed_snapshot_of_a_plain_account() {
    let usage = TokenSpendUsage { spent_cents: 1234, limit_cents: 2000 };
    let snapshot = zed_hosted_snapshot(usage, "https://zed.dev/account".to_string());
    assert_eq!(snapshot.provider_label, "Zed Pro");
    assert_eq!(snapshot.used_ratio.bits, 0.617f32.to_bits());
    assert_eq!(snapshot.label, "$12.34 used");
    assert_eq!(snapshot.tooltip, "Zed Pro token spend: $12.34 of $20.00 monthly limit");
    assert!(!snapshot.uses_estimated_budget);
    assert_eq!(snapshot.account_url, text("https://zed.dev/account"));
}

#[test]
fn zed_snapshot_agrees_with_the_formula() {
    let amounts: [i64; 12] =
        [0, 1, 99, 100, 101, 1999, 123456, 16777217, 33333333, -5, 4294967295, 7];
    for spent_cents in amounts {
        for limit_cents in amounts {
            let usage = TokenSpendUsage { spent_cents, limit_cents };
            let snapshot = zed_hosted_snapshot(usage, String::new());
            let limit = limit_cents.max(1) as f32;
            let spent = spent_cents as f32;
            assert_eq!(snapshot.used_ratio.bits, (spent / limit).clamp(0.0, 1.0).to_bits());
            assert_eq!(snapshot.label, format!("${:.2} used", spent / 100.0));
            assert_eq!(
                snapshot.tooltip,
                format!(
                    "Zed Pro token spend: ${:.2} of ${:.2} monthly limit",
                    spent / 100.0,
                    limit_cents as f32 / 100.0
                )
            );
        }
    }
}

#[test]
fn zed_spend_is_exact_to_the_cent() {
    for cents in [0i64, 5, 10, 999, 1000, 65536, 9999999, 13107199] {
        let usage = TokenSpendUsage { spent_cents: cents, limit_cents: 1 };
        let snapshot = zed_hosted_snapshot(usage, String::new());
        assert_eq!(snapshot.label, format!("${}.{:02} used", cents / 100, cents % 100));
    }
}

fn copilot(quota: QuotaSnapshot, date: Option<&str>) -> CopilotUser {
    CopilotUser {
        quota_reset_date: date.map(|d| d.to_string()),
        quota_snapshots: Some(QuotaSnapshots { premium_interactions: Some(quota) }),
    }
}

#[test]
fn copilot_snapshot_of_a_limited_plan() {
    let quota = QuotaSnapshot {
        percent_remaining: Some(double(62.5)),
        quota_remaining: Some(double(187.5)),
        entitlement: Some(double(300.0)),
        unlimited: Some(false),
    };
    let snapshot = copilot_snapshot(copilot(quota, Some("2025-07-01"))).unwrap();
    assert_eq!(snapshot.provider_label, "Copilot");
    assert_eq!(snapshot.used_ratio.bits, 0.375f32.to_bits());
    assert_eq!(snapshot.label, "38%");
    assert_eq!(
        snapshot.tooltip,
        "GitHub Copilot premium requests: 38% used (112/300)\nResets 2025-07-01"
    );
    assert!(!snapshot.uses_estimated_budget);
    assert_eq!(snapshot.account_url, text("https://github.com/settings/copilot"));
}

#[test]
fn copilot_snapshot_without_numbers_counts_nothing_as_used() {
    let quota = QuotaSnapshot {
        percent_remaining: None,
        quota_remaining: Some(double(3.0)),
        entitlement: Some(double(0.0)),
        unlimited: None,
    };
    let snapshot = copilot_snapshot(copilot(quota, None)).unwrap();
    assert_eq!(snapshot.used_ratio.bits, 0);
    assert_eq!(snapshot.label, "0%");
    assert_eq!(snapshot.tooltip, "GitHub Copilot premium requests: 0% used");
}

#[test]
fn copilot_snapshot_of_an_unlimited_plan() {
    let quota = QuotaSnapshot {
        percent_remaining: Some(double(10.0)),
        quota_remaining: None,
        entitlement: None,
        unlimited: Some(true),
    };
    let snapshot = copilot_snapshot(copilot(quota, Some("x"))).unwrap();
    assert_eq!(snapshot.used_ratio.bits, 0);
    assert_eq!(snapshot.label, "Premium included");
    assert_eq!(
        snapshot.tooltip,
        "GitHub Copilot premium requests are included with your plan"
    );
}

#[test]
fn copilot_without_quota_is_an_error() {
    let user = CopilotUser { quota_reset_date: None, quota_snapshots: None };
    let error = copilot_snapshot(user).unwrap_err();
    assert!(matches!(error, FetchError::CopilotQuotaMissing));
    assert_eq!(error.message(), "No Copilot premium quota data available");
    let user = CopilotUser {
        quota_reset_date: None,
        quota_snapshots: Some(QuotaSnapshots { premium_interactions: None }),
    };
    assert!(matches!(copilot_snapshot(user), Err(FetchError::CopilotQuotaMissing)));
}

#[test]
fn copilot_snapshot_agrees_with_the_formula() {
    for percent in [0.0, 0.1, 33.3, 50.0, 62.5, 99.99, 100.0, 140.0, -20.0, 1.0e300, -1.0e300] {
        for (remaining, total) in [(1.0, 10.0), (7.5, 1500.0), (12.0, 3.0), (1.0, -4.0)] {
            let quota = QuotaSnapshot {
                percent_remaining: Some(double(percent)),
                quota_remaining: Some(double(remaining)),
                entitlement: Some(double(total)),
                unlimited: None,
            };
            let snapshot = copilot_snapshot(copilot(quota, None)).unwrap();
            let used_ratio = ((100.0 - percent as f32) / 100.0).clamp(0.0, 1.0);
            let detail = if total > 0.0 {
                format!(" ({:.0}/{:.0})", total - remaining, total)
            } else {
                String::new()
            };
            assert_eq!(snapshot.used_ratio.bits, used_ratio.to_bits());
            assert_eq!(snapshot.label, format!("{:.0}%", used_ratio * 100.0));
            assert_eq!(
                snapshot.tooltip,
                format!(
                    "GitHub Copilot premium requests: {:.0}% used{}",
                    used_ratio * 100.0,
                    detail
                )
            );
        }
    }
}

#[test]
fn copilot_request_carries_the_token() {
    let request = copilot_request(&"tok".to_string());
    assert_eq!(request.uri, "https://api.github.com/copilot_internal/user");
    let headers: Vec<(&str, &str)> =
        request.headers.iter().map(|(k, v)| (k.as_str(), v.as_str())).collect();
    assert_eq!(
        headers,
        vec![
            ("Authorization", "Bearer tok"),
            ("Accept", "application/vnd.github+json"),
            ("User-Agent", "zed-ai-credit-status"),
            ("X-GitHub-Api-Version", "2022-11-28"),
        ]
    );
    assert!(request.body_on_success);
}

#[test]
fn openrouter_snapshot_with_a_limit() {
    let data = KeyData {
        limit: Some(double(50.0)),
        limit_remaining: Some(double(37.5)),
        usage: double(81.25),
    };
    let snapshot = openrouter_snapshot(data);
    assert_eq!(snapshot.provider_label, "OpenRouter");
    assert_eq!(snapshot.used_ratio.bits, 0.25f32.to_bits());
    assert_eq!(snapshot.label, "$12.50 used");
    assert_eq!(
        snapshot.tooltip,
        "OpenRouter credits: $12.50 used of $50.00 limit ($81.25 total usage)"
    );
    assert_eq!(snapshot.account_url, text("https://openrouter.ai/settings/credits"));
}

#[test]
fn openrouter_snapshot_without_a_limit() {
    let cases = [
        (None, None),
        (Some(10.0), None),
        (None, Some(10.0)),
        (Some(0.0), Some(10.0)),
        (Some(-1.0), Some(10.0)),
    ];
    for (limit, remaining) in cases {
        let data = KeyData {
            limit: limit.map(double),
            limit_remaining: remaining.map(double),
            usage: double(3.456),
        };
        let snapshot = openrouter_snapshot(data);
        assert_eq!(snapshot.used_ratio.bits, 0);
        assert_eq!(snapshot.label, "$3.46 used");
        assert_eq!(snapshot.tooltip, "OpenRouter total usage: $3.46");
    }
}

#[test]
fn openrouter_snapshot_agrees_with_the_formula() {
    for limit in [0.01, 1.0, 3.0, 12.34, 1.0e300, 5.0e-324] {
        for remaining in [-1.0e300, -5.0, 0.0, 0.004, 1.1, 2.9, 100.0] {
            let data = KeyData {
                limit: Some(double(limit)),
                limit_remaining: Some(double(remaining)),
                usage: double(0.5),
            };
            let snapshot = openrouter_snapshot(data);
            let used = f64::max(limit - remaining, 0.0);
            let ratio = (used / limit).clamp(0.0, 1.0) as f32;
            assert_eq!(snapshot.used_ratio.bits, ratio.to_bits());
            assert_eq!(snapshot.label, format!("${:.2} used", used));
        }
    }
}

#[test]
fn openrouter_request_carries_the_key() {
    let request = openrouter_request(&"sk".to_string());
    assert_eq!(request.uri, "https://openrouter.ai/api/v1/key");
    assert_eq!(request.headers, vec![("Authorization".to_string(), "Bearer sk".to_string())]);
    assert!(request.body_on_success);
}

#[test]
fn silent_providers() {
    let anthropic = anthropic_snapshot(true);
    assert_eq!(anthropic.provider_label, "Anthropic");
    assert_eq!(anthropic.label, "");
    assert!(anthropic.uses_estimated_budget);
    assert_eq!(
        anthropic.tooltip,
        "Anthropic does not expose remaining credits via API. \
         Check https://console.anthropic.com/settings/billing for actual spend."
    );
    let anthropic = anthropic_snapshot(false);
    assert_eq!(anthropic.label, "Usage unavailable");
    assert!(!anthropic.uses_estimated_budget);
    assert_eq!(anthropic.tooltip, "Anthropic does not expose remaining credits via API. Configure ai_credit_status.monthly_budget_usd to show an estimated monthly spend label, or check https://console.anthropic.com/settings/billing for actual spend.");
    assert_eq!(anthropic.account_url, text("https://console.anthropic.com/settings/billing"));
    let mistral = mistral_snapshot(true);
    assert_eq!(mistral.provider_label, "Mistral");
    assert_eq!(mistral.label, "");
    assert_eq!(mistral.used_ratio.bits, 0);
    assert_eq!(
        mistral.tooltip,
        "Mistral does not expose remaining credits via API. \
         Check https://console.mistral.ai/billing for actual spend."
    );
    let mistral = mistral_snapshot(false);
    assert_eq!(mistral.label, "Usage unavailable");
    assert_eq!(mistral.tooltip, "Mistral does not expose remaining credits via API. Configure ai_credit_status.monthly_budget_usd to show an estimated monthly spend label, or check https://console.mistral.ai/billing for actual spend.");
    assert_eq!(mistral.account_url, text("https://console.mistral.ai/billing"));
}

#[test]
fn silent_providers_are_asked_for_their_models() {
    let request = anthropic_request("sk-ant".to_string());
    assert_eq!(request.uri, "https://api.anthropic.com/v1/models");
    assert_eq!(
        request.headers,
        vec![
            ("x-api-key".to_string(), "sk-ant".to_string()),
            ("anthropic-version".to_string(), "2023-06-01".to_string()),
        ]
    );
    assert!(!request.body_on_success);
    let request = mistral_request(&"mk".to_string());
    assert_eq!(request.uri, "https://api.mistral.ai/v1/models");
    assert_eq!(request.headers, vec![("Authorization".to_string(), "Bearer mk".to_string())]);
    assert!(!request.body_on_success);
}

#[test]
fn budgets_count_above_zero() {
    assert_eq!(usable_budget(None), None);
    assert_eq!(usable_budget(Some(single(0.0))), None);
    assert_eq!(usable_budget(Some(single(-0.0))), None);
    assert_eq!(usable_budget(Some(single(-5.0))), None);
    assert_eq!(usable_budget(Some(single(f32::NAN))), None);
    assert_eq!(usable_budget(Some(single(1.0e-45))), Some(single(1.0e-45)));
    assert_eq!(usable_budget(Some(single(100.0))), Some(single(100.0)));
}

#[test]
fn openai_snapshot_with_and_without_a_budget() {
    let snapshot = openai_snapshot(double(12.345), Some(single(100.0)));
    assert_eq!(snapshot.provider_label, "OpenAI");
    assert_eq!(snapshot.used_ratio.bits, (0.12345f64 as f32).to_bits());
    assert_eq!(snapshot.label, "$12.35 used this month");
    assert_eq!(
        snapshot.tooltip,
        "OpenAI usage this month: $12.35 of $100.00 configured budget"
    );
    assert!(!snapshot.uses_estimated_budget);
    assert_eq!(snapshot.account_url, text("https://platform.openai.com/usage"));
    let snapshot = openai_snapshot(double(2.0), None);
    assert_eq!(snapshot.used_ratio.bits, 0);
    assert_eq!(
        snapshot.tooltip,
        "OpenAI usage this month: $2.00. Configure ai_credit_status.monthly_budget_usd to track percentage."
    );
}

#[test]
fn snapshots_with_either_zero_are_the_same() {
    let mut plus = openai_snapshot(double(0.0), Some(single(100.0)));
    let minus = openai_snapshot(double(-0.0), Some(single(100.0)));
    assert_eq!(minus.used_ratio.bits, 0x8000_0000);
    assert_eq!(minus.label, "$-0.00 used this month");
    plus.label = minus.label.clone();
    plus.tooltip = minus.tooltip.clone();
    assert_eq!(plus, minus);
    let unknown = openai_snapshot(double(f64::NAN), Some(single(100.0)));
    assert_ne!(unknown, unknown.clone());
}

#[test]
fn openai_share_agrees_with_the_formula() {
    for spent in [0.0, -1.0, 0.1, 33.33, 99.99, 100.0, 1.0e9, 5.0e-324] {
        for budget in [0.1f32, 1.0, 33.3, 100.0, 1.0e-45, f32::MAX, f32::INFINITY] {
            let snapshot = openai_snapshot(double(spent), Some(single(budget)));
            let ratio = (spent / budget as f64).clamp(0.0, 1.0) as f32;
            assert_eq!(snapshot.used_ratio.bits, ratio.to_bits());
        }
    }
}

#[test]
fn openai_unavailable_texts() {
    let plain = vec!["a: 404".to_string(), "b: unexpected response format".to_string()];
    let session = vec!["a: needs a SESSION Key".to_string(), "b: 404".to_string()];
    let snapshot = openai_unavailable(&plain, false);
    assert_eq!(snapshot.label, "Usage unavailable");
    assert_eq!(snapshot.used_ratio.bits, 0);
    assert!(!snapshot.uses_estimated_budget);
    assert_eq!(
        snapshot.tooltip,
        "OpenAI usage endpoint did not return parsable data. Latest errors: a: 404 | b: unexpected response format"
    );
    let snapshot = openai_unavailable(&plain, true);
    assert_eq!(snapshot.label, "");
    assert!(snapshot.uses_estimated_budget);
    assert_eq!(
        snapshot.tooltip,
        "OpenAI usage endpoint did not return parsable data. \
         Check https://platform.openai.com/usage for actual spend."
    );
    let snapshot = openai_unavailable(&session, true);
    assert_eq!(
        snapshot.tooltip,
        "OpenAI usage endpoint rejected API-key access (requires browser session key). \
         There is usually no account toggle to enable this endpoint for standard API keys. \
         Tip: use an Organization Admin API key with OpenAI organization usage/cost APIs for programmatic access. \
         Check https://platform.openai.com/usage for actual spend."
    );
    let snapshot = openai_unavailable(&session, false);
    assert_eq!(
        snapshot.tooltip,
        "OpenAI usage endpoint rejected API-key access (requires browser session key). There is usually no account toggle to enable this endpoint for standard API keys. Tip: use an Organization Admin API key with OpenAI organization usage/cost APIs for programmatic access. Open https://platform.openai.com/usage for actual spend, or configure ai_credit_status.monthly_budget_usd for an estimated monthly label."
    );
    assert_eq!(
        openai_unavailable(&vec![], false).tooltip,
        "OpenAI usage endpoint did not return parsable data. Latest errors: "
    );
}

#[test]
fn openai_places_in_order() {
    let window = usage_window(1431648000).unwrap();
    assert_eq!(
        write_candidate_uris(&window),
        vec![
            "https://api.openai.com/v1/organization/costs?start_time=1430438400&end_time=1431648000&bucket_width=1d".to_string(),
            "https://api.openai.com/v1/dashboard/billing/usage?start_date=2015-05-01&end_date=2015-05-15".to_string(),
            "https://api.openai.com/v1/usage?start_date=2015-05-01&end_date=2015-05-15".to_string(),
            "https://api.openai.com/v1/usage?date=2015-05-15".to_string(),
        ]
    );
}

#[test]
fn active_provider() {
    assert_eq!(active_provider_id(true, text("openai")), None);
    assert_eq!(active_provider_id(false, text("openai")), text("openai"));
    assert_eq!(active_provider_id(false, None), None);
}

#[test]
fn active_key_is_that_of_the_same_provider() {
    let model = |key: Option<String>| {
        Some(DefaultModel { provider_id: "openai".to_string(), api_key: key })
    };
    let openai = "openai".to_string();
    let mistral = "mistral".to_string();
    assert_eq!(active_provider_api_key(&openai, model(text("k"))), text("k"));
    assert_eq!(active_provider_api_key(&openai, model(None)), None);
    assert_eq!(active_provider_api_key(&mistral, model(text("k"))), None);
    assert_eq!(active_provider_api_key(&openai, None), None);
}

#[test]
fn key_choice() {
    assert_eq!(choose_key(text("a"), text("b")), text("a"));
    assert_eq!(choose_key(None, text("b")), text("b"));
    assert_eq!(choose_key(text(""), text("b")), None);
    assert_eq!(choose_key(None, text("")), None);
    assert_eq!(choose_key(None, None), None);
    assert_eq!(usage_key(text("admin"), "k".to_string()), "admin");
    assert_eq!(usage_key(text(""), "k".to_string()), "k");
    assert_eq!(usage_key(None, "k".to_string()), "k");
    assert_eq!(variable_at(&vec![text("a")], 0), text("a"));
    assert_eq!(variable_at(&vec![text("a")], 1), None);
}

#[test]
fn github_tokens_are_trimmed_and_taken_in_order() {
    let values = vec![None, text(" \t\n"), text("\u{2003} tok\u{a0}\n"), text("later"), None];
    assert_eq!(resolve_github_token(&values), text("tok"));
    assert_eq!(resolve_github_token(&vec![None, text(""), text("\u{3000}")]), None);
    assert_eq!(resolve_github_token(&vec![text("a b")]), text("a b"));
    assert_eq!(resolve_github_token(&vec![]), None);
}

#[test]
fn error_messages() {
    let cases = vec![
        (FetchError::UnsupportedProvider("x".to_string()), "Unsupported provider: x"),
        (
            FetchError::SpendUnavailable,
            "Zed Pro token spend is not available from your account yet",
        ),
        (FetchError::RefreshFailed("off".to_string()), "failed to refresh Zed account usage"),
        (FetchError::CopilotSignIn, "Sign in to GitHub Copilot to view usage"),
        (
            FetchError::MissingKey(KeyedProvider::OpenRouter),
            "Configure OpenRouter API key in settings (or set OPENROUTER_API_KEY) to view OpenRouter credits",
        ),
        (
            FetchError::MissingKey(KeyedProvider::OpenAi),
            "Configure OpenAI API key in settings (or set OPENAI_API_KEY) to view OpenAI usage",
        ),
        (
            FetchError::MissingKey(KeyedProvider::Anthropic),
            "Configure Anthropic API key in settings (or set ANTHROPIC_API_KEY) to view Anthropic usage",
        ),
        (
            FetchError::MissingKey(KeyedProvider::Mistral),
            "Configure Mistral API key in settings (or set MISTRAL_API_KEY) to view Mistral usage",
        ),
        (
            FetchError::RequestFailed(Service::Copilot, "b".to_string()),
            "GitHub Copilot usage request failed: b",
        ),
        (
            FetchError::RequestFailed(Service::OpenRouter, "b".to_string()),
            "OpenRouter usage request failed: b",
        ),
        (
            FetchError::RequestFailed(Service::Anthropic, "b".to_string()),
            "Anthropic request failed: b",
        ),
        (
            FetchError::RequestFailed(Service::Mistral, "b".to_string()),
            "Mistral request failed: b",
        ),
        (
            FetchError::MonthUnknown,
            "failed to compute OpenAI usage start-of-month timestamp",
        ),
        (FetchError::Outside("cause".to_string()), "cause"),
    ];
    for (error, message) in cases {
        assert_eq!(error.message(), message);
    }
}
