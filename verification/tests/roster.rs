use rhei_cli::json::{Json, JsonNumber};
use rhei_cli::roster::{
    merge_roster, validate_agent_effort_profiles, RheiSettings, RosterOrigin, SettingsDefaults,
};
use rhei_cli::settings::{
    validate_profile_prices_document, AgentEffortProfile, CustomAgentProfile, ModelAgentBinding,
    ModelProfile, ProjectSettingsFile, StateMcpEntry, StateSkillEntry,
};

fn s(v: &str) -> Json {
    Json::Str(v.to_string())
}

fn arr(items: &[&str]) -> Json {
    Json::Array(items.iter().map(|i| s(i)).collect())
}

fn obj(members: Vec<(&str, Json)>) -> Json {
    Json::Object(members.into_iter().map(|(k, v)| (k.to_string(), v)).collect())
}

fn num(n: u64) -> Json {
    Json::Number(JsonNumber { text: n.to_string(), as_u64: Some(n) })
}

fn strings(items: &[&str]) -> Vec<String> {
    items.iter().map(|i| i.to_string()).collect()
}

fn profile(command: &[&str]) -> CustomAgentProfile {
    CustomAgentProfile {
        command: strings(command),
        prompt_flag: None,
        model_flag: None,
        stdin_prompt: false,
        intervene_stdin: false,
        timeout: None,
        mcp_flag: None,
        mcp_config_flag: None,
        skill_flag: None,
        modes: Vec::new(),
        effort: None,
        session: None,
    }
}

fn binding(args: &[&str], auto: &[&str], timeout: Option<&str>) -> ModelAgentBinding {
    ModelAgentBinding { args: strings(args), autonomous_args: strings(auto), timeout: timeout.map(String::from) }
}

fn no_defaults() -> SettingsDefaults {
    SettingsDefaults {
        model: None,
        agent: None,
        agent_mode: None,
        agent_timeout: None,
        program_timeout: None,
        attempts: None,
        mcp_servers: None,
        skills: None,
    }
}

fn empty_settings() -> RheiSettings<()> {
    RheiSettings {
        project_settings_file: ProjectSettingsFile::Current,
        agent: None,
        agent_mode: None,
        model: None,
        agent_timeout: None,
        program_timeout: None,
        defaults: no_defaults(),
        agents: Vec::new(),
        models: Vec::new(),
        mcp_servers: Vec::new(),
        skills: Vec::new(),
        snapshots: None,
    }
}

fn canonical() -> Vec<String> {
    strings(&["off", "minimal", "low", "medium", "high", "xhigh", "max"])
}

fn find<'a, T>(entries: &'a [(String, T)], key: &str) -> &'a T {
    &entries.iter().find(|(k, _)| k == key).unwrap_or_else(|| panic!("no entry {key}")).1
}

fn has<T>(entries: &[(String, T)], key: &str) -> bool {
    entries.iter().any(|(k, _)| k == key)
}

fn global_raw() -> Json {
    obj(vec![
        (
            "agents",
            obj(vec![(
                "shared",
                obj(vec![("command", arr(&["global"])), ("session", Json::Null), ("stdin_prompt", Json::Bool(false))]),
            )]),
        ),
        (
            "defaults",
            obj(vec![
                ("agent", s("shared")),
                ("agent_mode", s("safe")),
                ("agent_timeout", s("20m")),
                ("attempts", num(3)),
                ("mcp_servers", arr(&["tools"])),
                ("model", s("review")),
                ("program_timeout", s("5m")),
                ("skills", arr(&["reviewing"])),
            ]),
        ),
        (
            "models",
            obj(vec![(
                "review",
                obj(vec![
                    (
                        "agents",
                        obj(vec![
                            (
                                "shared",
                                obj(vec![
                                    ("args", arr(&["--global"])),
                                    ("autonomous_args", arr(&["--auto"])),
                                    ("timeout", s("10m")),
                                ]),
                            ),
                            ("sparse", obj(vec![])),
                        ]),
                    ),
                    ("default_agent", s("shared")),
                    ("model", s("global-model")),
                    ("provider", s("openai")),
                ]),
            )]),
        ),
    ])
}

fn project_raw() -> Json {
    obj(vec![
        (
            "agents",
            obj(vec![
                ("project-only", obj(vec![("command", arr(&["project-only"]))])),
                (
                    "shared",
                    obj(vec![("command", arr(&["project"])), ("modes", obj(vec![("safe", arr(&["--safe"]))]))]),
                ),
            ]),
        ),
        ("defaults", obj(vec![("agent", Json::Null), ("agent_mode", Json::Null), ("skills", arr(&[]))])),
        (
            "models",
            obj(vec![(
                "review",
                obj(vec![
                    ("agents", obj(vec![("shared", obj(vec![("args", arr(&[])), ("timeout", Json::Null)]))])),
                    ("model", s("project-model")),
                ]),
            )]),
        ),
    ])
}

fn global_settings() -> RheiSettings<()> {
    let mut g = empty_settings();
    g.agents = vec![("shared".to_string(), profile(&["global"]))];
    g.models = vec![(
        "review".to_string(),
        ModelProfile {
            provider: Some("openai".into()),
            model: Some("global-model".into()),
            default_agent: Some("shared".into()),
            agents: vec![
                ("shared".to_string(), binding(&["--global"], &["--auto"], Some("10m"))),
                ("sparse".to_string(), binding(&[], &[], None)),
            ],
            prices: None,
        },
    )];
    g.defaults = SettingsDefaults {
        model: Some("review".into()),
        agent: Some("shared".into()),
        agent_mode: Some("safe".into()),
        agent_timeout: Some("20m".into()),
        program_timeout: Some("5m".into()),
        attempts: Some(3),
        mcp_servers: Some(vec![StateMcpEntry { id: "tools".into(), inline: false }]),
        skills: Some(vec![StateSkillEntry { id: "reviewing".into(), inline: false }]),
    };
    g
}

fn project_settings() -> RheiSettings<()> {
    let mut p = empty_settings();
    let mut shared = profile(&["project"]);
    shared.modes = vec![("safe".to_string(), strings(&["--safe"]))];
    p.agents = vec![("project-only".to_string(), profile(&["project-only"])), ("shared".to_string(), shared)];
    p.models = vec![(
        "review".to_string(),
        ModelProfile {
            provider: None,
            model: Some("project-model".into()),
            default_agent: None,
            agents: vec![("shared".to_string(), binding(&[], &[], None))],
            prices: None,
        },
    )];
    p.defaults.skills = Some(Vec::new());
    p
}

#[test]
fn merged_roster_records_all_field_origins_and_selected_sources() {
    let roster = merge_roster(
        global_settings(),
        project_settings(),
        &global_raw(),
        &project_raw(),
        ProjectSettingsFile::Current,
        &canonical(),
    )
    .expect("merge roster");

    assert_eq!(*find(&roster.provenance.agents, "shared"), RosterOrigin::Project);
    assert_eq!(*find(&roster.provenance.agents, "project-only"), RosterOrigin::Project);
    assert_eq!(*find(&roster.provenance.agents, "codex"), RosterOrigin::BuiltIn);
    let shared_fields: Vec<&str> =
        find(&roster.agent_fields, "shared").iter().map(|(k, _)| k.as_str()).collect();
    assert_eq!(shared_fields, vec!["command", "modes"]);

    let model = find(&roster.provenance.models, "review");
    assert_eq!(*find(&model.fields, "provider"), RosterOrigin::Global);
    assert_eq!(*find(&model.fields, "model"), RosterOrigin::Project);
    assert_eq!(*find(&model.fields, "default_agent"), RosterOrigin::Global);
    let shared = find(&model.agents, "shared");
    assert_eq!(*find(shared, "args"), RosterOrigin::Project);
    assert_eq!(*find(shared, "autonomous_args"), RosterOrigin::Global);
    assert_eq!(*find(shared, "timeout"), RosterOrigin::Project);
    assert!(find(&model.agents, "sparse").is_empty());

    for field in ["model", "agent_timeout", "program_timeout", "attempts", "mcp_servers"] {
        assert_eq!(*find(&roster.provenance.defaults, field), RosterOrigin::Global);
    }
    for field in ["agent", "agent_mode", "skills"] {
        assert_eq!(*find(&roster.provenance.defaults, field), RosterOrigin::Project);
    }
}

#[test]
fn merged_values_follow_the_supplied_fields() {
    let roster = merge_roster(
        global_settings(),
        project_settings(),
        &global_raw(),
        &project_raw(),
        ProjectSettingsFile::Deprecated,
        &canonical(),
    )
    .expect("merge roster");
    let st = &roster.settings;
    assert_eq!(st.project_settings_file, ProjectSettingsFile::Deprecated);
    let ids: Vec<&str> = st.agents.iter().map(|(k, _)| k.as_str()).collect();
    assert_eq!(ids, vec!["codex", "cursor", "gemini", "kilocode", "pi", "project-only", "shared"]);
    assert_eq!(find(&st.agents, "shared").command, vec!["project"]);
    let review = find(&st.models, "review");
    assert_eq!(review.provider.as_deref(), Some("openai"));
    assert_eq!(review.model.as_deref(), Some("project-model"));
    assert_eq!(review.default_agent.as_deref(), Some("shared"));
    let b = find(&review.agents, "shared");
    assert!(b.args.is_empty());
    assert_eq!(b.autonomous_args, vec!["--auto"]);
    assert!(b.timeout.is_none());
    assert!(has(&review.agents, "sparse"));
    assert_eq!(st.defaults.model.as_deref(), Some("review"));
    assert!(st.defaults.agent.is_none());
    assert!(st.defaults.agent_mode.is_none());
    assert_eq!(st.defaults.attempts, Some(3));
    assert_eq!(st.defaults.mcp_servers.as_ref().map(|v| v.len()), Some(1));
    assert_eq!(st.defaults.skills.as_ref().map(|v| v.len()), Some(0));
}

#[test]
fn a_project_entry_replaces_a_built_in_whole() {
    let mut p = empty_settings();
    p.agents = vec![("codex".to_string(), profile(&["my-codex"]))];
    let raw = obj(vec![("agents", obj(vec![("codex", obj(vec![("command", arr(&["my-codex"]))]))]))]);
    let roster = merge_roster(empty_settings(), p, &Json::Null, &raw, ProjectSettingsFile::Current, &canonical())
        .expect("merge");
    let codex = find(&roster.settings.agents, "codex");
    assert_eq!(codex.command, vec!["my-codex"]);
    assert!(codex.modes.is_empty());
    assert!(codex.session.is_none());
    assert_eq!(*find(&roster.provenance.agents, "codex"), RosterOrigin::Project);
    let fields: Vec<&str> = find(&roster.agent_fields, "codex").iter().map(|(k, _)| k.as_str()).collect();
    assert_eq!(fields, vec!["command"]);
    let pi_fields: Vec<&str> = find(&roster.agent_fields, "pi").iter().map(|(k, _)| k.as_str()).collect();
    assert_eq!(pi_fields, vec!["command", "model_flag", "prompt_flag", "session", "skill_flag"]);
}

#[test]
fn a_built_in_effort_value_outside_the_canonical_list_is_refused() {
    let err = merge_roster(
        empty_settings(),
        empty_settings(),
        &Json::Null,
        &Json::Null,
        ProjectSettingsFile::Current,
        &strings(&["low", "medium", "high"]),
    )
    .err()
    .expect("codex maps minimal");
    assert_eq!(err.message, "agent 'codex' maps unknown canonical effort value 'minimal'");
    assert_eq!(err.help.as_deref(), Some("Use one of the documented canonical effort values."));
}

fn effort(values: &[(&str, &str)], args: &[&str], conflicts: Vec<Vec<String>>) -> AgentEffortProfile {
    AgentEffortProfile {
        values: values.iter().map(|(a, b)| (a.to_string(), b.to_string())).collect(),
        args: strings(args),
        conflicts,
    }
}

fn with_effort(e: AgentEffortProfile) -> Vec<(String, CustomAgentProfile)> {
    let mut p = profile(&["x"]);
    p.effort = Some(e);
    vec![("x".to_string(), p)]
}

#[test]
fn effort_capabilities_need_one_placeholder_and_known_values() {
    let canonical = strings(&["low", "high"]);
    let ok = with_effort(effort(&[("low", "l")], &["--e", "{value}"], vec![strings(&["--x={value}"])]));
    assert!(validate_agent_effort_profiles(&ok, &canonical).is_ok());
    let empty = with_effort(effort(&[], &["{value}"], Vec::new()));
    assert_eq!(
        validate_agent_effort_profiles(&empty, &canonical).unwrap_err().message,
        "agent 'x' has an empty 'effort.values' mapping"
    );
    let blank = with_effort(effort(&[("high", " \t")], &["{value}"], Vec::new()));
    assert_eq!(
        validate_agent_effort_profiles(&blank, &canonical).unwrap_err().message,
        "agent 'x' maps effort 'high' to an empty native value"
    );
    let none = with_effort(effort(&[("low", "l")], &[], Vec::new()));
    assert_eq!(
        validate_agent_effort_profiles(&none, &canonical).unwrap_err().message,
        "agent 'x' has an empty 'args' effort pattern"
    );
    let twice = with_effort(effort(&[("low", "l")], &["{value}{value}"], Vec::new()));
    assert_eq!(
        validate_agent_effort_profiles(&twice, &canonical).unwrap_err().message,
        "agent 'x' effort 'args' pattern must contain exactly one '{value}' placeholder"
    );
    let spread = with_effort(effort(&[("low", "l")], &["{value}", "-{value}"], Vec::new()));
    assert!(validate_agent_effort_profiles(&spread, &canonical).is_err());
    let bad_conflict = with_effort(effort(&[("low", "l")], &["{value}"], vec![strings(&["--none"])]));
    let err = validate_agent_effort_profiles(&bad_conflict, &canonical).unwrap_err();
    assert_eq!(err.message, "agent 'x' effort 'conflicts' pattern must contain exactly one '{value}' placeholder");
    assert_eq!(err.help.as_deref(), Some("Include exactly one {value} placeholder in the pattern."));
}

fn prices(members: Vec<(&str, Json)>) -> Json {
    obj(vec![("models", obj(vec![("m", obj(vec![("prices", obj(members))]))]))])
}

fn full_prices() -> Vec<(&'static str, Json)> {
    vec![
        ("currency", s("USD")),
        ("effective_at", s("2026-01-01")),
        ("input_total_micro", num(1)),
        ("input_cached_read_micro", num(2)),
        ("input_cache_write_micro", num(3)),
        ("output_total_micro", num(4)),
        ("note", s("kept")),
    ]
}

#[test]
fn profile_prices_name_the_field_that_is_wrong() {
    assert!(validate_profile_prices_document("s.json", &Json::Null).is_ok());
    assert!(validate_profile_prices_document("s.json", &prices(full_prices())).is_ok());
    let null = obj(vec![("models", obj(vec![("m", obj(vec![("prices", Json::Null)]))]))]);
    assert!(validate_profile_prices_document("s.json", &null).is_ok());
    let list = obj(vec![("models", obj(vec![("m", obj(vec![("prices", arr(&[]))]))]))]);
    let err = validate_profile_prices_document("s.json", &list).unwrap_err();
    assert_eq!(err.message, "invalid profile price in settings 's.json': models.m.prices must be an object or null");
    assert_eq!(
        err.help.as_deref(),
        Some("provide currency, effective_at, and all four integer micro-currency rates; omit reserved generated-entry keys")
    );
    let mut blank = full_prices();
    blank[0].1 = s("  ");
    assert_eq!(
        validate_profile_prices_document("s.json", &prices(blank)).unwrap_err().message,
        "invalid profile price in settings 's.json': models.m.prices.currency must be a non-empty string"
    );
    let mut negative = full_prices();
    negative[3].1 = Json::Number(JsonNumber { text: "-1".into(), as_u64: None });
    assert_eq!(
        validate_profile_prices_document("s.json", &prices(negative)).unwrap_err().message,
        "invalid profile price in settings 's.json': models.m.prices.input_cached_read_micro must be a non-negative integer no greater than u64::MAX"
    );
    let mut reserved = full_prices();
    reserved.push(("unit", s("token")));
    assert_eq!(
        validate_profile_prices_document("s.json", &prices(reserved)).unwrap_err().message,
        "invalid profile price in settings 's.json': models.m.prices.unit is reserved for generated price-book provenance"
    );
}
