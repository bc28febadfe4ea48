//! Provider limits: which transport a recorded limit belongs to, and when a
//! later invocation counts as the resumption that clears it.
use vstd::prelude::*;
use crate::instants::{parse_utc, parse_utc_spec};
use crate::text::str_eq;

verus! {

/// The agent and provider a launch goes through.
#[derive(Debug)]
pub struct ResolvedAgent {
    /// The agent id, such as `codex`.
    pub agent: String,
    /// The concrete model name, when one was selected.
    pub model: Option<String>,
    /// The model's provider, such as `openai`, when the model profile names one.
    pub model_provider: Option<String>,
    /// The launch timeout in seconds, when one applies.
    pub timeout_secs: Option<u64>,
}

/// The transport a provider limit was observed on.
#[derive(Debug)]
pub struct ProviderIdentity {
    pub agent: String,
    pub provider: String,
}

/// A recognized provider limit: what was seen, when, and the earliest instant
/// at which the transport may be tried again.
#[derive(Debug)]
pub struct ProviderLimit {
    pub identity: ProviderIdentity,
    pub signal: String,
    /// `YYYY-MM-DDTHH:MM:SSZ`.
    pub observed_at: String,
    /// `YYYY-MM-DDTHH:MM:SSZ`.
    pub next_attempt_at: String,
}

/// An identity as plain text.
pub open spec fn identity_view(i: ProviderIdentity) -> (Seq<char>, Seq<char>) {
    (i.agent@, i.provider@)
}

/// The identity of a launch: its agent and its model's provider, when the
/// provider is known.
pub open spec fn provider_identity_spec(r: ResolvedAgent) -> Option<(Seq<char>, Seq<char>)> {
    match r.model_provider {
        Some(p) => Some((r.agent@, p@)),
        None => None,
    }
}

/// The identity a launch reports limits under.
pub fn resolved_provider_identity(resolved: &ResolvedAgent) -> (out: Option<ProviderIdentity>)
    ensures
        match out {
            Some(i) => provider_identity_spec(*resolved) == Some(identity_view(i)),
            None => provider_identity_spec(*resolved) is None,
        },
{
    match &resolved.model_provider {
        Some(provider) => Some(
            ProviderIdentity { agent: resolved.agent.clone(), provider: provider.clone() },
        ),
        None => None,
    }
}

/// A launch started at `started` (seconds after the epoch) resumes past a
/// limit when it goes through the same transport and starts no earlier than
/// the limit's next attempt.
pub open spec fn limit_resumed_spec(limit: ProviderLimit, resolved: ResolvedAgent, started: nat) -> bool {
    &&& provider_identity_spec(resolved) == Some(identity_view(limit.identity))
    &&& parse_utc_spec(limit.next_attempt_at@) matches Some(t) && started >= t
}

/// Only the same transport resumes past a limit: a resuming launch runs the
/// limit's own agent on a model of its own provider, and starts no earlier
/// than the recorded next attempt.
pub proof fn only_the_same_agent_and_provider_resume(limit: ProviderLimit, resolved: ResolvedAgent, started: nat)
    ensures
        limit_resumed_spec(limit, resolved, started) ==> resolved.agent@ == limit.identity.agent@
            && (resolved.model_provider matches Some(p) && p@ == limit.identity.provider@)
            && (parse_utc_spec(limit.next_attempt_at@) matches Some(t) && started >= t),
        resolved.agent@ != limit.identity.agent@ ==> !limit_resumed_spec(limit, resolved, started),
{
}

/// Whether an invocation started at `started` (seconds after the epoch) is
/// the eligible resumption that clears `limit`: the same agent and provider,
/// started at or after the recorded next attempt. A next attempt that does
/// not read as an instant is never reached.
pub fn provider_limit_resumed(limit: &ProviderLimit, resolved: &ResolvedAgent, started: u64) -> (r:
    bool)
    ensures
        r == limit_resumed_spec(*limit, *resolved, started as nat),
        r ==> resolved.agent@ == limit.identity.agent@
            && (resolved.model_provider matches Some(p) && p@ == limit.identity.provider@),
{
    proof {
        only_the_same_agent_and_provider_resume(*limit, *resolved, started as nat);
    }
    let Some(identity) = resolved_provider_identity(resolved) else {
        return false;
    };
    if !(str_eq(identity.agent.as_str(), limit.identity.agent.as_str()) && str_eq(
        identity.provider.as_str(),
        limit.identity.provider.as_str(),
    )) {
        return false;
    }
    match parse_utc(limit.next_attempt_at.as_str()) {
        Some(t) => started >= t,
        None => false,
    }
}

} // verus!
