use rhei_cli::references::{
    known_agents_hint, validate_machine_settings_references, MachineStateView, SelectorReading, SettingsView,
};
use rhei_cli::settings::{CustomAgentProfile, McpServerProfile, StateMcpEntry, StateSkillEntry};
use rhei_cli::snapshots::SnapshotInvocation;

fn s(x: &str) -> String {
    x.to_string()
}

fn profile(command: &str, modes: &[&str]) -> CustomAgentProfile {
    CustomAgentProfile {
        command: vec![s(command)],
        prompt_flag: None,
        model_flag: None,
        stdin_prompt: false,
        intervene_stdin: false,
        timeout: None,
        mcp_flag: None,
        mcp_config_flag: None,
        skill_flag: None,
        modes: modes.iter().map(|m| (s(m), vec![s("--flag")])).collect(),
        effort: None,
        session: None,
    }
}

fn settings() -> SettingsView {
    SettingsView {
        agents: vec![(s("codex"), profile("codex", &["yolo"])), (s("pi"), profile("pi", &[]))],
        mcp_servers: vec![(s("fs"), McpServerProfile { command: Some(vec![s("fs")]), url: None, transport: None })],
        models: vec![],
        skill_ids: vec![s("lint")],
        default_mcp_servers: Some(vec![StateMcpEntry { id: s("web"), inline: false }]),
        default_skills: None,
        agents_location: s("agents.<id> in settings.json"),
        modes_locations: vec![(s("codex"), s("agents.codex.modes")), (s("pi"), s("agents.pi.modes"))],
    }
}

fn state(name: &str) -> MachineStateView {
    MachineStateView {
        name: s(name),
        mcp_servers: None,
        skills: None,
        agent: None,
        selectors: vec![],
        has_effort: false,
        effort_error: None,
        declares_snapshot: false,
        emits_snapshot: false,
        inherit_required: false,
        snapshot_hint: String::new(),
        invocations: Ok(vec![]),
    }
}

fn reading(selector: &str, agent: &str, mode: Option<&str>) -> SelectorReading {
    SelectorReading { selector: s(selector), parsed: Ok((s(agent), mode.map(s))) }
}

#[test]
fn machine_references_are_checked_in_order() {
    let mut unknown_agent = state("draft");
    unknown_agent.agent = Some(s("ghost"));
    unknown_agent.selectors = vec![reading("nobody/x/y", "nobody", None)];
    let mut review = state("review");
    review.skills = Some(vec![StateSkillEntry { id: s("format"), inline: false }]);
    review.selectors = vec![
        reading("codex[safe]/openai/fast", "codex", Some("safe")),
        reading("pi[any]/p/m", "pi", Some("any")),
        reading("nobody/x/y", "nobody", None),
        SelectorReading { selector: s("???"), parsed: Err(s("not a selector")) },
        reading("codex[yolo]/openai/fast", "codex", Some("yolo")),
    ];
    review.has_effort = true;
    review.effort_error = Some(s("no effort high"));
    review.declares_snapshot = true;
    review.emits_snapshot = true;
    review.invocations = Ok(vec![SnapshotInvocation { agent_id: s("pi"), target_slug: None, has_layout: true, has_preload: true }]);
    let errors = validate_machine_settings_references(
        &vec![unknown_agent, review],
        &settings(),
        true,
        &vec![s("static mode refusal")],
    );
    assert_eq!(
        errors,
        vec![
            s("defaults.mcp_servers references unknown mcp server 'web'"),
            s("static mode refusal"),
            s("state 'draft' references unknown agent 'ghost' (known agents: codex, pi; declare another under agents.<id> in settings.json)"),
            s("state 'review' skills references unknown skill 'format'"),
            s("state 'review' references unknown target mode 'safe' for agent 'codex' in 'codex[safe]/openai/fast' (known modes: yolo; declare another under agents.codex.modes)"),
            s("state 'review' references unknown target mode 'any' for agent 'pi' in 'pi[any]/p/m' (it declares no modes; drop the brackets from the selector, or declare one under agents.pi.modes)"),
            s("state 'review' references unknown target agent 'nobody' in 'nobody/x/y' (known agents: codex, pi; declare another under agents.<id> in settings.json)"),
            s("state 'review' has invalid target selector '???': not a selector"),
            s("state 'review' has invalid effort selection: no effort high"),
            s("state 'review' declares snapshot operations but agent 'pi' does not resolve provider and model (snapshot-requires-target)"),
        ]
    );
    let plain = validate_machine_settings_references(&vec![state("idle")], &settings(), false, &vec![s("static mode refusal")]);
    assert_eq!(plain, vec![s("defaults.mcp_servers references unknown mcp server 'web'")]);
}

#[test]
fn an_empty_registry_says_where_to_declare_an_agent() {
    let mut empty = settings();
    empty.agents.clear();
    assert_eq!(known_agents_hint(&empty), "no agents are configured; declare one under agents.<id> in settings.json");
}
