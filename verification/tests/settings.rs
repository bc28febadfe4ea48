use rhei_cli::settings::{
    built_in_agent_fields, validate_intrinsic_settings, validate_mcp_entries_known,
    validate_skill_entries_known, CustomAgentProfile, McpServerProfile, ModelProfile,
    ProjectSettingsFile, StateMcpEntry, StateSkillEntry,
};

fn profile(command: &[&str]) -> CustomAgentProfile {
    CustomAgentProfile {
        command: command.iter().map(|c| c.to_string()).collect(),
        prompt_flag: None,
        model_flag: None,
        stdin_prompt: false,
        intervene_stdin: false,
        timeout: None,
        mcp_flag: None,
        mcp_config_flag: None,
        skill_flag: None,
        modes: Vec::new(),
        effort: None,
        session: None,
    }
}

#[test]
fn project_settings_file_names_its_home() {
    assert_eq!(ProjectSettingsFile::Current.relative_path(), ".agent-grounds/rhei/settings.json");
    assert_eq!(ProjectSettingsFile::Deprecated.relative_path(), ".agents/rhei/settings.json");
    assert_eq!(ProjectSettingsFile::default(), ProjectSettingsFile::Current);
}

#[test]
fn unknown_registry_references_are_refused_in_order() {
    let registry = vec!["fs".to_string()];
    let mut errors = vec!["earlier".to_string()];
    let entries = vec![
        StateMcpEntry { id: "fs".into(), inline: false },
        StateMcpEntry { id: "web".into(), inline: false },
        StateMcpEntry { id: "inline".into(), inline: true },
    ];
    validate_mcp_entries_known("defaults.mcp_servers", Some(&entries), &registry, &mut errors);
    assert_eq!(errors, vec!["earlier", "defaults.mcp_servers references unknown mcp server 'web'"]);
    validate_mcp_entries_known("state 'x' mcp_servers", None, &registry, &mut errors);
    assert_eq!(errors.len(), 2);
    let skills = vec![StateSkillEntry { id: "lint".into(), inline: false }];
    validate_skill_entries_known("state 'x' skills", Some(&skills), &Vec::new(), &mut errors);
    assert_eq!(errors[2], "state 'x' skills references unknown skill 'lint'");
}

#[test]
fn built_in_fields_are_command_and_the_supplied_options() {
    let bare = profile(&["x"]);
    assert_eq!(built_in_agent_fields(&bare), vec!["command"]);
    let mut full = profile(&["codex", "exec"]);
    full.model_flag = Some("--model".into());
    full.stdin_prompt = true;
    full.mcp_flag = Some("--mcp".into());
    full.modes = vec![("yolo".into(), vec!["--yolo".into()])];
    assert_eq!(
        built_in_agent_fields(&full),
        vec!["command", "mcp_flag", "model_flag", "modes", "stdin_prompt"]
    );
}

#[test]
fn intrinsic_validation_names_each_broken_entry() {
    let mut both = profile(&["a"]);
    both.mcp_flag = Some("--mcp".into());
    both.mcp_config_flag = Some("--mcp-config".into());
    let agents = vec![("empty".to_string(), profile(&[])), ("both".to_string(), both)];
    let servers = vec![
        ("none".to_string(), McpServerProfile { command: None, url: None, transport: None }),
        ("url".to_string(), McpServerProfile { command: None, url: Some("http://x".into()), transport: Some(String::new()) }),
        ("two".to_string(), McpServerProfile { command: Some(vec!["x".into()]), url: Some("u".into()), transport: None }),
        ("ok".to_string(), McpServerProfile { command: Some(vec!["x".into()]), url: None, transport: None }),
    ];
    let models = vec![(
        "bad".to_string(),
        ModelProfile { provider: None, model: Some(String::new()), default_agent: None, agents: Vec::new(), prices: None },
    )];
    assert_eq!(
        validate_intrinsic_settings(&agents, &servers, &models),
        vec![
            "agent 'empty' has an empty 'command'; the `command` field is required",
            "agent 'both' declares both 'mcp_flag' and 'mcp_config_flag'; they are mutually exclusive",
            "mcp_servers.'none' must declare exactly one of 'command' or 'url'",
            "mcp_servers.'url' uses 'url' but does not declare 'transport'; set transport to 'sse' or 'websocket'",
            "mcp_servers.'two' declares both 'command' and 'url'; they are mutually exclusive",
            "models.'bad' is missing required field 'provider'",
            "models.'bad' is missing required field 'model'",
        ]
    );
    assert!(validate_intrinsic_settings(&Vec::new(), &Vec::new(), &Vec::new()).is_empty());
}
