use std::time::{Duration, UNIX_EPOCH};

use rhei_cli::instants::{deadline, parse_utc};
use rhei_cli::provider_limits::{
    provider_limit_resumed, resolved_provider_identity, ProviderIdentity, ProviderLimit,
    ResolvedAgent,
};

fn codex_openai() -> ResolvedAgent {
    ResolvedAgent {
        agent: "codex".to_string(),
        model: Some("gpt-5.6-sol".to_string()),
        model_provider: Some("openai".to_string()),
        timeout_secs: Some(60),
    }
}

fn clone_agent(a: &ResolvedAgent) -> ResolvedAgent {
    ResolvedAgent {
        agent: a.agent.clone(),
        model: a.model.clone(),
        model_provider: a.model_provider.clone(),
        timeout_secs: a.timeout_secs,
    }
}

fn seconds(at: std::time::SystemTime) -> u64 {
    at.duration_since(UNIX_EPOCH).unwrap().as_secs()
}

/// Cleanup belongs to a matching invocation started at or after the wait,
/// never an earlier sibling or a different transport.
#[test]
fn provider_limit_cleanup_requires_eligible_resumption() {
    let resolved = codex_openai();
    let limit = ProviderLimit {
        identity: resolved_provider_identity(&resolved).unwrap(),
        signal: "signal".into(),
        observed_at: deadline(100),
        next_attempt_at: deadline(200),
    };
    let started = |at| seconds(UNIX_EPOCH + Duration::from_secs(at));
    assert!(!provider_limit_resumed(&limit, &resolved, started(199)));
    assert!(provider_limit_resumed(&limit, &resolved, started(200)));
    let mut unrelated = clone_agent(&resolved);
    unrelated.model_provider = Some("other".into());
    assert!(!provider_limit_resumed(&limit, &unrelated, started(201)));
    let extended = ProviderLimit { next_attempt_at: deadline(300), ..limit };
    assert!(!provider_limit_resumed(&extended, &resolved, started(200)));
}

#[test]
fn deadline_spells_utc_seconds() {
    assert_eq!(deadline(0), "1970-01-01T00:00:00Z");
    assert_eq!(deadline(100), "1970-01-01T00:01:40Z");
    assert_eq!(deadline(1_789_579_200), "2026-09-16T17:20:00Z");
    assert_eq!(deadline(951_782_400), "2000-02-29T00:00:00Z");
    assert_eq!(deadline(253_402_300_799), "9999-12-31T23:59:59Z");
}

#[test]
fn parse_utc_reads_back_every_spelled_deadline() {
    for epoch in [0u64, 59, 86_399, 86_400, 951_782_400, 1_789_579_200, 4_102_444_800, 253_402_300_799] {
        assert_eq!(parse_utc(&deadline(epoch)), Some(epoch));
    }
}

#[test]
fn parse_utc_refuses_what_is_not_an_instant() {
    assert_eq!(parse_utc("2026-02-29T00:00:00Z"), None);
    assert_eq!(parse_utc("2026-09-16T24:00:00Z"), None);
    assert_eq!(parse_utc("2026-09-16 20:21:00Z"), None);
    assert_eq!(parse_utc("1969-12-31T23:59:59Z"), None);
    assert_eq!(parse_utc("2026-09-16T20:21:00"), None);
    assert_eq!(parse_utc("2024-02-29T12:00:00Z"), Some(1_709_208_000));
}

#[test]
fn provider_identity_needs_a_known_provider() {
    let mut agent = codex_openai();
    let identity = resolved_provider_identity(&agent).unwrap();
    assert_eq!((identity.agent.as_str(), identity.provider.as_str()), ("codex", "openai"));
    agent.model_provider = None;
    assert!(resolved_provider_identity(&agent).is_none());
    let limit = ProviderLimit {
        identity: ProviderIdentity { agent: "codex".into(), provider: "openai".into() },
        signal: "signal".into(),
        observed_at: deadline(100),
        next_attempt_at: "not an instant".into(),
    };
    assert!(!provider_limit_resumed(&limit, &codex_openai(), u64::MAX));
    assert!(!provider_limit_resumed(&limit, &agent, u64::MAX));
}
