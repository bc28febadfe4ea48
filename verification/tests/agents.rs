use rhei_cli::agents::built_in_agents;
use rhei_cli::json::Json;
use rhei_cli::settings::{
    built_in_agent_fields, validate_intrinsic_settings, CustomAgentProfile, McpServerProfile,
    ModelProfile,
};

fn empty_profile() -> CustomAgentProfile {
    CustomAgentProfile {
        command: Vec::new(),
        prompt_flag: None,
        model_flag: None,
        stdin_prompt: false,
        intervene_stdin: false,
        timeout: None,
        mcp_flag: None,
        mcp_config_flag: None,
        skill_flag: None,
        modes: Vec::new(),
        effort: None,
        session: None,
    }
}

fn member<'a>(v: &'a Json, k: &str) -> &'a Json {
    match v {
        Json::Object(ms) => &ms.iter().find(|(n, _)| n == k).expect("member").1,
        _ => panic!("not an object"),
    }
}

fn text(v: &Json) -> &str {
    match v {
        Json::Str(s) => s,
        _ => panic!("not a string"),
    }
}

fn keys(v: &Json) -> Vec<String> {
    match v {
        Json::Object(ms) => ms.iter().map(|(k, _)| k.clone()).collect(),
        _ => Vec::new(),
    }
}

#[test]
fn roster_intrinsic_validation_covers_agents_models_and_tooling() {
    let mut agents = built_in_agents();
    let at = agents.iter().position(|(id, _)| id.as_str() > "empty").unwrap_or(agents.len());
    agents.insert(at, ("empty".to_string(), empty_profile()));
    let models = vec![(
        "bad".to_string(),
        ModelProfile { provider: None, model: None, default_agent: None, agents: Vec::new(), prices: None },
    )];
    let servers = vec![(
        "bad".to_string(),
        McpServerProfile { command: None, url: None, transport: None },
    )];
    let errors = validate_intrinsic_settings(&agents, &servers, &models);
    for needle in ["empty 'command'", "missing required field 'provider'", "exactly one"] {
        assert!(errors.iter().any(|error| error.contains(needle)), "{errors:?}");
    }
}

#[test]
fn the_built_in_registry_is_sorted_and_validates() {
    let agents = built_in_agents();
    let ids: Vec<&str> = agents.iter().map(|(id, _)| id.as_str()).collect();
    assert_eq!(ids, vec!["codex", "cursor", "gemini", "kilocode", "pi"]);
    assert!(validate_intrinsic_settings(&agents, &Vec::new(), &Vec::new()).is_empty());
}

#[test]
fn codex_runs_exec_with_a_session_block() {
    let agents = built_in_agents();
    let codex = &agents[0].1;
    assert_eq!(codex.command, vec!["codex", "exec"]);
    assert!(codex.prompt_flag.is_none());
    assert_eq!(codex.mcp_flag.as_deref(), Some("--mcp"));
    assert_eq!(
        codex.modes[0].1,
        vec![
            "--sandbox",
            "danger-full-access",
            "--skip-git-repo-check",
            "-c",
            "approval_policy=\"never\""
        ]
    );
    assert_eq!(
        codex.effort.as_ref().unwrap().args,
        vec!["-c", "model_reasoning_effort=\"{value}\""]
    );
    let session = codex.session.as_ref().unwrap();
    assert_eq!(keys(session), vec!["interactive", "layout", "no_session_flag", "resume"]);
    assert_eq!(text(member(member(session, "resume"), "flag")), "resume");
    assert_eq!(text(member(session, "no_session_flag")), "--ephemeral");
    let layout = member(session, "layout");
    assert_eq!(text(member(layout, "dir_template")), "~/.codex/sessions");
    assert!(matches!(member(layout, "nested"), Json::Bool(true)));
    match member(layout, "confirm_cwd_path") {
        Json::Array(items) => assert_eq!(items.iter().map(text).collect::<Vec<_>>(), vec!["payload", "cwd"]),
        _ => panic!("confirm_cwd_path is a list"),
    }
    assert_eq!(
        built_in_agent_fields(codex),
        vec!["command", "mcp_flag", "model_flag", "modes", "session", "stdin_prompt"]
    );
}

#[test]
fn pi_has_no_modes_and_resumes_with_continue() {
    let agents = built_in_agents();
    let pi = &agents[4].1;
    assert_eq!(pi.command, vec!["pi"]);
    assert!(pi.modes.is_empty());
    assert!(!pi.stdin_prompt);
    let session = pi.session.as_ref().unwrap();
    assert_eq!(
        keys(session),
        vec!["fork", "interactive", "layout", "no_session_flag", "resume", "session_dir_flag"]
    );
    assert_eq!(text(member(member(session, "fork"), "flag")), "--fork");
    assert_eq!(text(member(member(session, "resume"), "flag")), "--continue");
    assert!(keys(member(session, "interactive")).is_empty());
    assert_eq!(keys(member(session, "layout")), vec!["ext", "kind"]);
    let effort = pi.effort.as_ref().unwrap();
    assert_eq!(effort.values.len(), 6);
    assert_eq!(effort.values[0].0, "off");
}

#[test]
fn gemini_cursor_and_kilocode_take_the_prompt_as_an_argument() {
    let agents = built_in_agents();
    assert_eq!(agents[1].1.command, vec!["cursor-agent"]);
    assert_eq!(agents[1].1.prompt_flag.as_deref(), Some("--print"));
    assert_eq!(agents[1].1.modes[0].1, vec!["--force"]);
    assert_eq!(agents[2].1.prompt_flag.as_deref(), Some("--prompt"));
    assert_eq!(agents[2].1.modes[0].1, vec!["--approval-mode", "yolo"]);
    assert_eq!(agents[3].1.command, vec!["kilo"]);
    assert_eq!(agents[3].1.prompt_flag.as_deref(), Some("--auto"));
    assert_eq!(agents[3].1.effort.as_ref().unwrap().args, vec!["--variant", "{value}"]);
    assert_eq!(
        agents[3].1.effort.as_ref().unwrap().values.iter().map(|(a, _)| a.as_str()).collect::<Vec<_>>(),
        vec!["minimal", "low", "high", "max"]
    );
    for (_, p) in &agents {
        assert_eq!(p.model_flag.as_deref(), Some("--model"));
    }
}
