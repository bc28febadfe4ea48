use rhei_cli::commands::{
    check_instantiate_output, failure_cleanup, instantiate_route, instantiate_target, instantiation_done_line, FailureCleanup, InstantiateRoute,
    InstantiateTarget, format_template_instantiation_command, instantiate_output_exists_error, shell_command, shell_quote,
};

fn strings(items: &[&str]) -> Vec<String> {
    items.iter().map(|s| s.to_string()).collect()
}

#[test]
fn words_are_quoted_only_when_a_shell_would_change_them() {
    assert_eq!(shell_quote("plain/path-1.md"), "plain/path-1.md");
    assert_eq!(shell_quote(""), "''");
    assert_eq!(shell_quote("two words"), "'two words'");
    assert_eq!(shell_quote("codex[yolo]:openai:gpt-5.5"), "'codex[yolo]:openai:gpt-5.5'");
    assert_eq!(shell_quote("member plan's.rhei.md"), "'member plan'\\''s.rhei.md'");
    assert_eq!(shell_command(&strings(&["rhei", "run", "a b"])), "rhei run 'a b'");
}

#[test]
fn instantiation_command_rebuilds_the_invocation() {
    let command = format_template_instantiation_command(
        "review",
        &strings(&["--subject", "spec v2"]),
        &strings(&["review.target=HEAD"]),
        &strings(&["brief=notes.md"]),
        &strings(&["values.yaml"]),
        Some("reviews/one"),
        &strings(&["--extra", "x"]),
    );
    assert_eq!(
        command,
        "rhei instantiate review --values values.yaml --subject 'spec v2' --extra x --set review.target=HEAD --set-file brief=notes.md --output reviews/one"
    );
    assert_eq!(
        format_template_instantiation_command("t", &Vec::new(), &Vec::new(), &Vec::new(), &Vec::new(), None, &Vec::new()),
        "rhei instantiate t"
    );
}

#[test]
fn a_taken_output_directory_is_explained() {
    let explicit = instantiate_output_exists_error("out dir", "review", &Vec::new(), true, "unused");
    assert_eq!(explicit.to_string(), "output path 'out dir' already exists");
    assert_eq!(
        explicit.help.as_deref(),
        Some("pass a --output path that does not exist yet, or remove that one: rm -rf 'out dir'")
    );
    let default = instantiate_output_exists_error("review", "review", &strings(&["--subject", "x"]), false, "review-2");
    assert_eq!(
        default.to_string(),
        "'review' already exists, so template 'review' has already been instantiated here under that name. A second copy needs its own directory, because the directory name becomes the rhei id every one of its ticket ids is prefixed with."
    );
    assert_eq!(
        default.help.as_deref(),
        Some("name it for what it is about:\n  rhei instantiate review --subject x --output review-2")
    );
}

#[test]
fn instantiate_operands_route_or_are_refused() {
    let e = instantiate_route(true, false, false, false, true, true).unwrap_err();
    assert_eq!(e.message, "--execute cannot be used together with --dry-run");
    assert_eq!(
        e.help.as_deref(),
        Some("--dry-run renders and validates without writing anything, so there is nothing for --execute to run. Drop one of them.")
    );
    let e = instantiate_route(true, true, false, false, false, false).unwrap_err();
    assert_eq!(e.message, "direct block composition cannot be combined with a positional template or positional inputs");
    let e = instantiate_route(false, true, true, false, false, false).unwrap_err();
    assert_eq!(e.help.as_deref(), Some("use only repeatable `--mount alias=block` operands and qualified `--set alias.input=value` inputs."));
    let e = instantiate_route(true, false, false, true, false, false).unwrap_err();
    assert_eq!(e.message, "--seam and --pass require at least one --mount");
    assert_eq!(e.help.as_deref(), Some("add --mount ALIAS=BLOCK before declaring a seam or pass"));
    assert_eq!(instantiate_route(false, true, false, true, false, true).unwrap(), InstantiateRoute::DirectBlocks);
    assert_eq!(instantiate_route(false, false, false, false, false, false).unwrap(), InstantiateRoute::ListTemplates);
    assert_eq!(instantiate_route(true, false, true, false, true, false).unwrap(), InstantiateRoute::Template);
}

#[test]
fn instantiation_renders_stages_and_cleans_up_by_its_flags() {
    assert_eq!(instantiate_target(true, true, true), InstantiateTarget::Scratch);
    assert_eq!(instantiate_target(false, true, true), InstantiateTarget::HiddenStaging);
    assert_eq!(instantiate_target(false, false, true), InstantiateTarget::Output);
    assert_eq!(instantiate_target(false, true, false), InstantiateTarget::Output);
    assert_eq!(failure_cleanup(false, true), FailureCleanup::Remove);
    assert_eq!(failure_cleanup(true, true), FailureCleanup::PublishStaged);
    assert_eq!(failure_cleanup(true, false), FailureCleanup::Leave);
    assert_eq!(instantiation_done_line(true, "review", "plans/review"), "Dry run OK: 'review' would be instantiated into 'plans/review'.");
    assert_eq!(instantiation_done_line(false, "review", "plans/review"), "Instantiated template 'review' into 'plans/review'.");
}

#[test]
fn an_existing_output_is_refused_before_anything_is_written() {
    assert!(check_instantiate_output(false, false, "review", "review", &vec![], false, "review-2").is_ok());
    assert!(check_instantiate_output(true, true, "review", "review", &vec![], false, "review-2").is_ok());
    let e = check_instantiate_output(true, false, "out", "review", &vec![], true, "out-2").unwrap_err();
    assert_eq!(e.message, "output path 'out' already exists");
    let e = check_instantiate_output(true, false, "review", "review", &vec![], false, "review-2").unwrap_err();
    assert!(e.message.starts_with("'review' already exists, so template 'review' has already been instantiated here"));
    assert_eq!(e.help.as_deref(), Some("name it for what it is about:\n  rhei instantiate review --output review-2"));
}
