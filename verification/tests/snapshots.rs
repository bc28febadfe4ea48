use rhei_cli::snapshots::{
    cached_sources_help, compat_gate, continuation_gate, continuation_record_matches, continuation_outcome,
    override_without_contract_message, preload_strategy_args, preload_outcome, staged_transcript_name, CompatGate,
    ContinuationRead, PreloadHelp, snapshot_registry_errors, SnapshotInvocation, orphaned_snapshot_warning, snapshot_record_is_orphaned, task_snapshot_context_errors, PreloadSource, PreloadOutcome, effective_snapshot_emitter_error, effective_snapshot_inherit, matching_snapshot_emitter_states,
    nearest_matching_ancestor_source, take_snapshot_override_for_invocation, validate_snapshot_override_contract,
    SnapshotHelp, SnapshotInheritConfig, SnapshotMachine, SnapshotOverrideSelection, SnapshotRecord, SnapshotSelect,
    SnapshotSelector, SnapshotStateDef, TaskSnapshotInherit,
};

fn s(x: &str) -> String {
    x.to_string()
}

fn rule(name: &str, axis: Option<&str>, select: Option<SnapshotSelect>) -> SnapshotInheritConfig {
    SnapshotInheritConfig { name: s(name), from_axis: axis.map(s), compat: None, required: None, select }
}

fn record(task: &str, state: &str, visit: u64, generation: u64, current: bool) -> SnapshotRecord {
    SnapshotRecord {
        snapshot_name: s("warm"),
        task_id: s(task),
        emitting_state: s(state),
        target_slug: s("codex"),
        visit,
        generation,
        is_current: current,
        produced_by: s("orchestrator"),
        display_ref: format!("warm@{task}/{state}/v{visit}g{generation}"),
    }
}

fn check(inherit: &SnapshotInheritConfig, r: &SnapshotRecord, cands: &Vec<SnapshotRecord>) -> Result<(), (String, SnapshotHelp)> {
    validate_snapshot_override_contract(
        "2",
        "review",
        inherit,
        "codex",
        3,
        &vec![s("1")],
        &vec![s("0")],
        r,
        cands,
        true,
        "codex",
    )
    .map_err(|e| (e.message, e.help))
}

#[test]
fn a_prior_visit_of_the_task_itself_is_accepted() {
    let r = record("2", "review", 2, 1, true);
    assert_eq!(check(&rule("warm", None, None), &r, &vec![record("2", "review", 1, 1, true), r.clone_like()]), Ok(()));
}

trait CloneLike {
    fn clone_like(&self) -> Self;
}

impl CloneLike for SnapshotRecord {
    fn clone_like(&self) -> Self {
        SnapshotRecord {
            snapshot_name: self.snapshot_name.clone(),
            task_id: self.task_id.clone(),
            emitting_state: self.emitting_state.clone(),
            target_slug: self.target_slug.clone(),
            visit: self.visit,
            generation: self.generation,
            is_current: self.is_current,
            produced_by: self.produced_by.clone(),
            display_ref: self.display_ref.clone(),
        }
    }
}

#[test]
fn each_contract_clause_refuses_with_its_own_message() {
    let r = record("2", "review", 2, 1, true);
    let cands = vec![r.clone_like()];
    assert_eq!(
        check(&rule("cold", None, None), &r, &cands).unwrap_err().0,
        "--from-snapshot selected snapshot name 'warm', but snapshot.inherit requires 'cold'"
    );
    let other = record("7", "review", 2, 1, true);
    assert_eq!(
        check(&rule("warm", None, None), &other, &cands).unwrap_err().0,
        "--from-snapshot selected task '7', but snapshot.inherit.from: self requires task '2'"
    );
    let future = record("2", "review", 3, 1, true);
    assert_eq!(
        check(&rule("warm", None, None), &future, &cands).unwrap_err().0,
        "--from-snapshot selected warm@2/review/v3g1 from the current or future visit; snapshot.inherit.from: self only permits prior visits"
    );
    assert_eq!(
        check(&rule("warm", Some("ancestor"), None), &r, &cands).unwrap_err().0,
        "--from-snapshot selected task '2', but snapshot.inherit.from: ancestor requires an ancestor of task '2'"
    );
    assert_eq!(
        check(&rule("warm", Some("prior"), None), &r, &cands).unwrap_err().0,
        "--from-snapshot selected task '2', but it is not a declared Prior source eligible for task '2'"
    );
    assert_eq!(
        check(&rule("warm", Some("sideways"), None), &r, &cands),
        Err((s("unsupported snapshot.inherit.from 'sideways' while validating --from-snapshot"), SnapshotHelp::StateMachine))
    );
    let stale = record("2", "review", 2, 1, false);
    assert_eq!(
        check(&rule("warm", None, None), &stale, &vec![stale.clone_like()]),
        Err((
            s("--from-snapshot selected warm@2/review/v2g1, but snapshot.inherit.select.generation defaults to current"),
            SnapshotHelp::Inherit
        ))
    );
    let older = record("2", "review", 1, 1, true);
    assert_eq!(
        check(&rule("warm", None, None), &older, &cands).unwrap_err().0,
        "--from-snapshot selected visit 1, but snapshot.inherit.select.visit defaults to latest visit 2"
    );
}

#[test]
fn selections_pin_state_target_visit_and_generation() {
    let r = record("2", "draft", 2, 4, false);
    let cands = vec![record("2", "draft", 2, 5, true), r.clone_like()];
    let sel = |state: Option<&str>, target: Option<&str>, visit: Option<SnapshotSelector>, generation: Option<SnapshotSelector>| {
        rule("warm", None, Some(SnapshotSelect { state: state.map(s), target: target.map(s), visit, generation }))
    };
    assert_eq!(
        check(&sel(Some("plan"), None, None, None), &r, &cands).unwrap_err().0,
        "--from-snapshot selected emitting state 'draft', but snapshot.inherit.select.state requires 'plan'"
    );
    assert_eq!(
        check(&sel(None, Some("gemini"), None, None), &r, &cands).unwrap_err().0,
        "--from-snapshot selected target 'codex', but snapshot.inherit.select.target requires 'gemini'"
    );
    assert_eq!(
        check(&sel(None, Some("same"), Some(SnapshotSelector::Number(1)), None), &r, &cands).unwrap_err().0,
        "--from-snapshot selected visit 2, but snapshot.inherit.select.visit requires 1"
    );
    assert_eq!(
        check(&sel(None, None, Some(SnapshotSelector::Named(s("latest"))), Some(SnapshotSelector::Named(s("latest")))), &r, &cands)
            .unwrap_err()
            .0,
        "--from-snapshot selected generation 4, but snapshot.inherit.select.generation requires latest generation 5"
    );
    assert_eq!(
        check(&sel(None, None, None, Some(SnapshotSelector::Named(s("current")))), &r, &cands).unwrap_err().0,
        "--from-snapshot selected warm@2/draft/v2g4, but snapshot.inherit.select.generation requires current"
    );
    assert_eq!(
        check(&sel(None, None, None, Some(SnapshotSelector::Number(3))), &r, &cands).unwrap_err().0,
        "--from-snapshot selected generation 4, but snapshot.inherit.select.generation requires 3"
    );
    assert_eq!(check(&sel(Some("draft"), Some("same"), None, Some(SnapshotSelector::Number(4))), &r, &cands), Ok(()));
    assert_eq!(check(&sel(None, None, Some(SnapshotSelector::Other), Some(SnapshotSelector::Other)), &r, &cands), Ok(()));
}

#[test]
fn a_native_contract_refuses_an_incompatible_session_and_a_portable_one_accepts_it() {
    let r = record("1", "review", 9, 1, true);
    let mut inherit = rule("warm", Some("prior"), None);
    let run = |inherit: &SnapshotInheritConfig| {
        validate_snapshot_override_contract(
            "2", "review", inherit, "codex", 3, &vec![s("1")], &vec![], &r, &vec![r.clone_like()], false, "pi",
        )
        .map_err(|e| e.message)
    };
    assert_eq!(
        run(&inherit),
        Err(s("--from-snapshot selected snapshot warm@1/review/v9g1 is not native-compatible with agent 'pi'"))
    );
    inherit.compat = Some(s("portable"));
    assert_eq!(run(&inherit), Ok(()));
}

#[test]
fn a_named_prior_axis_ranks_latest_only_within_the_selected_task() {
    let r = record("1", "review", 2, 1, true);
    let cands = vec![record("5", "review", 8, 1, true), r.clone_like()];
    let inherit = rule("warm", Some("prior"), None);
    let out = validate_snapshot_override_contract(
        "2", "review", &inherit, "codex", 3, &vec![s("1"), s("5")], &vec![], &r, &cands, true, "codex",
    );
    assert!(out.is_ok());
}

#[test]
fn an_override_is_taken_once_by_the_selected_invocation() {
    let mut selection = Some(SnapshotOverrideSelection { task_id: s("2"), target_slug: s("codex"), consumed: false });
    assert!(!take_snapshot_override_for_invocation(&mut selection, "2", "codex", false));
    assert!(!take_snapshot_override_for_invocation(&mut selection, "3", "codex", true));
    assert!(take_snapshot_override_for_invocation(&mut selection, "2", "codex", true));
    assert!(!take_snapshot_override_for_invocation(&mut selection, "2", "codex", true));
    let mut none = None;
    assert!(take_snapshot_override_for_invocation(&mut none, "2", "codex", true));
}

fn machine(states: Vec<(&str, Option<&str>, Option<SnapshotInheritConfig>)>) -> SnapshotMachine {
    SnapshotMachine {
        states: states
            .into_iter()
            .map(|(name, emit, inherit)| SnapshotStateDef { name: s(name), emit: emit.map(s), inherit, polls: name == "poll" })
            .collect(),
    }
}

#[test]
fn a_task_overlay_replaces_name_and_axis_and_keeps_the_selection() {
    let select = || Some(SnapshotSelect { state: Some(s("draft")), target: None, visit: None, generation: None });
    let m = machine(vec![("review", None, Some(rule("warm", None, select())))]);
    assert_eq!(effective_snapshot_inherit(&m, &None, "review"), Some(rule("warm", None, select())));
    assert_eq!(effective_snapshot_inherit(&m, &Some(TaskSnapshotInherit::Disabled), "review"), None);
    let overlay = Some(TaskSnapshotInherit::Rule { name: s("hot"), from_axis: s("prior") });
    assert_eq!(effective_snapshot_inherit(&m, &overlay, "review"), Some(rule("hot", Some("prior"), select())));
    assert_eq!(effective_snapshot_inherit(&m, &overlay, "draft"), Some(rule("hot", Some("prior"), None)));
    assert_eq!(effective_snapshot_inherit(&m, &None, "draft"), None);
}

#[test]
fn emitter_validation_names_rules_no_source_can_satisfy() {
    let emitting = machine(vec![("draft", Some("warm"), None), ("review", Some("cold"), None), ("plan", Some("warm"), None)]);
    let silent = machine(vec![("draft", None, None)]);
    assert_eq!(matching_snapshot_emitter_states(&emitting, &rule("warm", None, None)), vec![s("draft"), s("plan")]);
    let pinned = rule("warm", None, Some(SnapshotSelect { state: Some(s("plan")), target: None, visit: None, generation: None }));
    assert_eq!(matching_snapshot_emitter_states(&emitting, &pinned), vec![s("plan")]);
    let copy = |m: &SnapshotMachine| machine(m.states.iter().map(|d| (d.name.as_str(), d.emit.as_deref(), None)).collect());
    let ancestors = vec![(s("1.1"), copy(&silent)), (s("1"), copy(&emitting))];
    assert_eq!(nearest_matching_ancestor_source(&rule("warm", None, None), &ancestors), Some(1));
    assert_eq!(effective_snapshot_emitter_error("1.1.1", &rule("warm", Some("ancestor"), None), &silent, &ancestors, &vec![]), None);
    assert_eq!(
        effective_snapshot_emitter_error("1.1.1", &rule("warm", None, None), &silent, &ancestors, &vec![]),
        Some(s("Task 1.1.1 has unresolvable effective snapshot inheritance 'warm' from self (no possible snapshot.emit source matches)"))
    );
    assert_eq!(
        effective_snapshot_emitter_error("3", &rule("warm", Some("prior"), None), &emitting, &vec![], &vec![(s("2"), copy(&silent))]),
        Some(s("Task 3 has unresolvable effective snapshot inheritance 'warm' from prior (no possible snapshot.emit source matches)"))
    );
    assert_eq!(effective_snapshot_emitter_error("3", &rule("warm", Some("elsewhere"), None), &silent, &vec![], &vec![]), None);
}

#[test]
fn an_override_without_a_contract_names_the_opt_out_or_the_state() {
    assert_eq!(
        override_without_contract_message(true, "4", "review"),
        "--from-snapshot has no effective snapshot inheritance contract because Task 4 declares **Inherits:** none; --override-inherit does not bypass the opt-out"
    );
    assert_eq!(
        override_without_contract_message(false, "4", "review"),
        "--from-snapshot requires the target state 'review' to declare snapshot.inherit; --override-inherit does not bypass that authored contract"
    );
}

#[test]
fn compat_none_disables_preload_and_refuses_an_override() {
    assert_eq!(
        compat_gate(true, Some("none"), false, "warm"),
        CompatGate::Refuse(s("--from-snapshot cannot override snapshot.inherit 'warm' because compat: none disables authored preload; pass --override-inherit to bypass compatibility checks"))
    );
    assert_eq!(compat_gate(false, Some("none"), false, "warm"), CompatGate::Disabled);
    assert_eq!(compat_gate(true, Some("none"), true, "warm"), CompatGate::Proceed);
    assert_eq!(compat_gate(true, None, false, "warm"), CompatGate::Proceed);
}

fn source(timed_out: bool, native: bool) -> Option<PreloadSource> {
    Some(PreloadSource { display_ref: s("warm@1"), timed_out, native_compatible: native })
}

#[test]
fn a_required_rule_refuses_where_an_optional_one_runs_cold() {
    assert_eq!(
        preload_outcome(true, "warm", &None, true, false, "pi", true),
        PreloadOutcome::Refuse(s("missing-snapshot: no snapshot found for inherit 'warm'"), PreloadHelp::CachedSources)
    );
    assert_eq!(
        preload_outcome(false, "warm", &None, true, false, "pi", true),
        PreloadOutcome::Cold(s("warning: no snapshot found for inherit: warm; running cold"))
    );
    assert_eq!(
        preload_outcome(true, "warm", &source(true, true), true, false, "pi", true),
        PreloadOutcome::Refuse(s("incompatible-snapshot: selected snapshot warm@1 completed by timeout and is not preloadable"), PreloadHelp::Resume)
    );
    assert_eq!(
        preload_outcome(false, "warm", &source(true, true), true, false, "pi", true),
        PreloadOutcome::Cold(s("warning: timed-out snapshot warm@1 is not preloadable; running cold"))
    );
    assert_eq!(
        preload_outcome(true, "warm", &source(false, false), true, false, "pi", true),
        PreloadOutcome::Refuse(s("incompatible-snapshot: selected snapshot warm@1 is not native-compatible with agent 'pi'"), PreloadHelp::Resume)
    );
    assert_eq!(
        preload_outcome(false, "warm", &source(false, false), true, false, "pi", true),
        PreloadOutcome::Cold(s("warning: preload skipped: incompatible agent for warm@1; running cold"))
    );
    assert_eq!(
        preload_outcome(true, "warm", &source(false, true), true, false, "pi", false),
        PreloadOutcome::Refuse(s("unsupported-snapshot-session: agent 'pi' has no supported snapshot preload strategy"), PreloadHelp::Snapshot)
    );
    assert_eq!(
        preload_outcome(false, "warm", &source(false, true), true, false, "pi", false),
        PreloadOutcome::Cold(s("warning: unsupported-snapshot-session: agent 'pi' has no supported snapshot preload strategy; running cold"))
    );
    assert_eq!(preload_outcome(true, "warm", &source(true, false), true, true, "pi", true), PreloadOutcome::Preload);
    assert_eq!(preload_outcome(true, "warm", &source(false, false), false, false, "pi", true), PreloadOutcome::Preload);
    assert!(cached_sources_help().starts_with("no cached snapshot matches that inherit selector."));
}

#[test]
fn a_state_continuation_degrades_every_failure_to_a_cold_run() {
    assert_eq!(
        continuation_gate(1, "review", "pi", true),
        Err(s("info: session continuation starts cold for state 'review': no previous visit exists; running cold"))
    );
    assert_eq!(
        continuation_gate(3, "review", "pi", false),
        Err(s("warning: agent 'pi' has no supported snapshot preload strategy; running cold"))
    );
    assert_eq!(continuation_gate(3, "review", "pi", true), Ok(2));
    assert_eq!(
        continuation_outcome("review", 2, "codex", &ContinuationRead::Missing),
        Some(s("warning: no current snapshot found for state 'review' visit 2 target 'codex'; running cold"))
    );
    assert_eq!(
        continuation_outcome("review", 2, "codex", &ContinuationRead::Unreadable(s("bad json"))),
        Some(s("warning: previous session snapshot is unreadable (bad json); running cold"))
    );
    let found = |timed_out: bool, why: Option<&str>| ContinuationRead::Found {
        display_ref: s("_state@2"),
        timed_out,
        incompatibility: why.map(s),
    };
    assert_eq!(
        continuation_outcome("review", 2, "codex", &found(true, None)),
        Some(s("warning: timed-out snapshot _state@2 is not preloadable; running cold"))
    );
    assert_eq!(
        continuation_outcome("review", 2, "codex", &found(false, Some("other agent"))),
        Some(s("warning: preload skipped: incompatible snapshot _state@2 (other agent); running cold"))
    );
    assert_eq!(continuation_outcome("review", 2, "codex", &found(false, None)), None);
    let mut r = record("2", "review", 2, 1, true);
    r.snapshot_name = s("_state");
    assert!(continuation_record_matches(&r, "2", "review", 2, "codex"));
    assert!(!continuation_record_matches(&r, "2", "review", 1, "codex"));
    r.produced_by = s("operator");
    assert!(!continuation_record_matches(&r, "2", "review", 2, "codex"));
}

#[test]
fn preload_arguments_follow_the_session_strategy() {
    assert_eq!(
        preload_strategy_args(Some(s("--fork")), Some(s("--resume")), s("/c/t.jsonl"), Some(s("abc"))),
        vec![s("--fork"), s("/c/t.jsonl")]
    );
    assert_eq!(preload_strategy_args(None, Some(s("--resume")), s("/c/t.jsonl"), None), vec![s("--resume"), s("")]);
    assert!(preload_strategy_args(None, None, s("/c/t.jsonl"), Some(s("abc"))).is_empty());
    assert_eq!(staged_transcript_name(Some("abc"), Some("json")), "abc.json");
    assert_eq!(staged_transcript_name(None, None), "source.jsonl");
}

#[test]
fn plan_context_errors_name_root_ancestors_polling_states_and_missing_emitters() {
    let m = machine(vec![
        ("review", None, Some(rule("warm", Some("ancestor"), None))),
        ("poll", Some("warm"), Some(rule("warm", None, None))),
        ("idle", None, None),
    ]);
    assert_eq!(
        task_snapshot_context_errors("1", "review", true, &m, &None, &vec![], &vec![]),
        vec![
            s("Task 1 is a root task in state 'review' but its effective snapshot inheritance uses from: ancestor (snapshot root tasks have no ancestor)"),
            s("Task 1 has unresolvable effective snapshot inheritance 'warm' from ancestor (no possible snapshot.emit source matches)"),
        ]
    );
    assert_eq!(
        task_snapshot_context_errors("1.2", "poll", false, &m, &None, &vec![], &vec![]),
        vec![s("Task 1.2 has effective snapshot inheritance in polling state 'poll'; polling states cannot inherit snapshots in v1")]
    );
    assert!(task_snapshot_context_errors("1.2", "idle", false, &m, &None, &vec![], &vec![]).is_empty());
    assert!(task_snapshot_context_errors("1", "review", true, &m, &Some(TaskSnapshotInherit::Disabled), &vec![], &vec![]).is_empty());
}

#[test]
fn a_snapshot_is_orphaned_when_its_task_state_or_target_is_gone() {
    let m = machine(vec![("review", Some("warm"), None)]);
    let r = record("2", "review", 1, 1, true);
    let tasks = vec![s("1"), s("2")];
    let slugs = Some(vec![s("codex")]);
    assert!(!snapshot_record_is_orphaned(&r, &tasks, &m, &slugs));
    assert!(snapshot_record_is_orphaned(&r, &vec![s("1")], &m, &slugs));
    assert!(snapshot_record_is_orphaned(&record("2", "draft", 1, 1, true), &tasks, &m, &slugs));
    assert!(snapshot_record_is_orphaned(&r, &tasks, &m, &Some(vec![s("pi")])));
    assert!(snapshot_record_is_orphaned(&r, &tasks, &m, &Some(vec![])));
    assert!(snapshot_record_is_orphaned(&r, &tasks, &m, &None));
    assert_eq!(
        orphaned_snapshot_warning(&r),
        "snapshot warm@2/review/v1g1 is orphaned relative to the current plan/state machine"
    );
}

fn invocation(agent: &str, slug: Option<&str>, layout: bool, preload: bool) -> SnapshotInvocation {
    SnapshotInvocation { agent_id: s(agent), target_slug: slug.map(s), has_layout: layout, has_preload: preload }
}

#[test]
fn registry_checks_name_unresolved_shared_and_unsupported_invocations() {
    assert!(snapshot_registry_errors("review", false, false, false, "", &Err(s("boom"))).is_empty());
    assert_eq!(
        snapshot_registry_errors("review", true, true, false, "", &Err(s("no model"))),
        vec![s("state 'review' declares snapshot operations but no effective target tuple resolves: no model (snapshot-requires-target)")]
    );
    assert_eq!(
        snapshot_registry_errors("review", true, true, false, "", &Ok(vec![])),
        vec![s("state 'review' declares snapshot operations but no effective target tuple resolves (snapshot-requires-target)")]
    );
    let out = snapshot_registry_errors(
        "review",
        true,
        true,
        true,
        "; drop it",
        &Ok(vec![
            invocation("a", Some("x"), true, true),
            invocation("b", None, false, false),
            invocation("c", Some("x"), false, true),
            invocation("d", Some("x"), true, false),
        ]),
    );
    assert_eq!(
        out,
        vec![
            s("state 'review' declares snapshot operations but agent 'b' does not resolve provider and model (snapshot-requires-target)"),
            s("state 'review' has multiple resolved invocations for agents 'a' and 'c' that normalize to snapshot target slug 'x'"),
            s("state 'review' declares snapshot.emit but agent 'c' has no supported snapshot session layout (unsupported-snapshot-session); drop it"),
            s("state 'review' has multiple resolved invocations for agents 'c' and 'd' that normalize to snapshot target slug 'x'"),
            s("state 'review' declares required snapshot.inherit but agent 'd' has no supported snapshot preload strategy (unsupported-snapshot-session); drop it"),
        ]
    );
}
