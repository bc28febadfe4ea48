use rhei_cli::paths::PathComponent;
use rhei_cli::summary::{
    alternate_pricing_label, execution_root, execution_roots, immutable_reports_for_run, inspection_has_run, plural_s,
    render_summary_reading, report_claims_run, select_completed_run_for_summary,
    selected_roots_show_activity, selected_run_task_tally, summary_lead_tail,
    summary_step_actor, summary_steps, tally_states, CostInspection, InvocationRecord, PricingStatus,
    ReportCandidate, RootActivity,
};

fn record(run: Option<&str>, task: &str, state: &str, visit: u64) -> InvocationRecord {
    InvocationRecord {
        run_id: run.map(String::from),
        task_id: task.to_string(),
        state: state.to_string(),
        visit,
        agent: "codex".to_string(),
        provider: Some("openai".to_string()),
        model: Some("fast".to_string()),
        duration: Some("2m".to_string()),
        input_tokens: None,
        output_tokens: None,
    }
}

fn p(names: &[&str]) -> Vec<PathComponent> {
    let mut out = vec![PathComponent::RootDir];
    out.extend(names.iter().map(|n| PathComponent::Normal(n.to_string())));
    out
}

#[test]
fn steps_are_numbered_and_visits_spelled_when_repeated() {
    let mut second = record(Some("r1"), "2", "review", 1);
    second.provider = None;
    second.input_tokens = Some("10".into());
    second.output_tokens = Some("2".into());
    let records = vec![record(Some("r1"), "1", "working", 1), second, record(Some("r1"), "1", "working", 2)];
    assert_eq!(
        summary_steps(&records),
        "1. `1` working (visit 1) — codex, openai/fast — 2m\n\
         2. `2` review — codex, fast — 2m — 10 in / 2 out\n\
         3. `1` working (visit 2) — codex, openai/fast — 2m\n"
    );
    assert_eq!(summary_step_actor(&records[0]), "codex, openai/fast");
    let mut only_out = record(None, "3", "s", 1);
    only_out.output_tokens = Some("7".into());
    assert_eq!(rhei_cli::summary::summary_step_tokens(&only_out).as_deref(), Some("7 out"));
    let mut only_in = record(None, "3", "s", 1);
    only_in.input_tokens = Some("1.2k".into());
    assert_eq!(rhei_cli::summary::summary_step_tokens(&only_in).as_deref(), Some("1.2k in"));
    assert_eq!(rhei_cli::summary::summary_step_tokens(&record(None, "3", "s", 1)), None);
    assert_eq!(plural_s(1), "");
    assert_eq!(plural_s(0), "s");
}

#[test]
fn the_tally_counts_terminal_states_in_declaration_order() {
    let machine = vec![
        ("pending".to_string(), false),
        ("completed".to_string(), true),
        ("cancelled".to_string(), true),
    ];
    let states: Vec<String> = ["completed", "pending", "completed", "cancelled", "working"]
        .iter()
        .map(|s| s.to_string())
        .collect();
    assert_eq!(tally_states(&machine, &states), "2 tasks completed, 1 cancelled, 2 in progress");
    assert_eq!(tally_states(&machine, &vec!["completed".to_string()]), "1 task completed");
    assert_eq!(tally_states(&machine, &Vec::new()), "no tasks");
    assert_eq!(tally_states(&machine, &vec!["pending".to_string()]), "1 task in progress");
}

#[test]
fn a_completed_run_is_selected_only_when_exact_inactive_and_reported_once() {
    let scoped = || CostInspection {
        invocations: vec![record(Some("run-1"), "1", "s", 1), record(Some("run-2"), "1", "s", 1)],
        errors: vec!["runtime/accounting/bad.json: not a record".to_string()],
    };
    let empty = || CostInspection { invocations: Vec::new(), errors: Vec::new() };
    let project = vec![record(Some("run-1"), "1", "s", 1), record(Some("other-9"), "9", "s", 1)];
    let kept = select_completed_run_for_summary(scoped(), &project, None, false, 1, "run-1").unwrap();
    assert_eq!(kept.invocations.len(), 1);
    assert_eq!(kept.invocations[0].run_id.as_deref(), Some("run-1"));
    assert_eq!(kept.errors, vec!["runtime/accounting/bad.json: not a record".to_string()]);
    let e = select_completed_run_for_summary(empty(), &project, Some("plan"), false, 1, "run-1").unwrap_err();
    assert_eq!(e.message, "run 'run-1' is outside the selected rhei scope (plan)");
    let e = select_completed_run_for_summary(empty(), &project, None, false, 1, "other").unwrap_err();
    assert_eq!(e.message, "run id 'other' is not an exact match");
    let e = select_completed_run_for_summary(empty(), &project, None, false, 1, "zzz").unwrap_err();
    assert_eq!(e.message, "run 'zzz' is absent from the resolved project");
    let e = select_completed_run_for_summary(scoped(), &project, None, true, 1, "run-1").unwrap_err();
    assert_eq!(e.message, "run 'run-1' is active");
    let e = select_completed_run_for_summary(scoped(), &project, None, false, 0, "run-1").unwrap_err();
    assert_eq!(e.message, "completion is not established for run 'run-1'");
    let e = select_completed_run_for_summary(scoped(), &project, None, false, 2, "run-1").unwrap_err();
    assert_eq!(e.message, "run 'run-1' is ambiguous: 2 immutable reports claim it");
    assert!(inspection_has_run(&project, "other-9"));
    assert!(!inspection_has_run(&project, "other"));
}

#[test]
fn reports_claim_a_run_only_through_their_run_header() {
    assert!(report_claims_run("# Report\nRun: plan / run-1 \n", "run-1"));
    assert!(!report_claims_run("# Report\nRun: plan / run-10\n", "run-1"));
    assert!(!report_claims_run("run-1.md\n  Run: plan / run-1\n", "run-1"));
    let candidates = vec![
        ReportCandidate { path: p(&["a", "x.md"]), key: p(&["k1"]), body: Some("Run: p / r".into()) },
        ReportCandidate { path: p(&["alias", "x.md"]), key: p(&["k1"]), body: Some("Run: p / r".into()) },
        ReportCandidate { path: p(&["b", "y.txt"]), key: p(&["k2"]), body: Some("Run: p / r".into()) },
        ReportCandidate { path: p(&["c", "z.md"]), key: p(&["k3"]), body: None },
        ReportCandidate { path: p(&["d", "w.md"]), key: p(&["k4"]), body: Some("Run: q / r\n".into()) },
    ];
    assert_eq!(immutable_reports_for_run(&candidates, "r"), vec![p(&["a", "x.md"]), p(&["d", "w.md"])]);
}

#[test]
fn liveness_comes_from_live_descriptors_or_held_locks() {
    let idle = RootActivity { descriptor: Some(("r".into(), true)), lock_id: Some("r".into()), lock_held: false };
    let live = RootActivity { descriptor: Some(("r".into(), false)), lock_id: None, lock_held: false };
    let locked = RootActivity { descriptor: None, lock_id: Some("r".into()), lock_held: true };
    assert!(!selected_roots_show_activity(&vec![idle], "r"));
    assert!(selected_roots_show_activity(&vec![live], "r"));
    assert!(selected_roots_show_activity(&vec![locked], "r"));
    assert!(!selected_roots_show_activity(&Vec::new(), "r"));
    assert_eq!(alternate_pricing_label(PricingStatus::PartialPrice), "partial-price");
    assert_eq!(alternate_pricing_label(PricingStatus::NotApplicable), "not-applicable");
}

#[test]
fn execution_roots_come_from_accounting_paths_once_per_location() {
    assert_eq!(execution_root(&p(&["w", "runtime", "accounting"])), Some(p(&["w"])));
    assert_eq!(execution_root(&p(&["x"])), None);
    assert_eq!(execution_root(&p(&["x", "y"])), Some(Vec::from([PathComponent::RootDir])));
    assert_eq!(execution_root(&Vec::from([PathComponent::RootDir])), None);
    let roots = vec![
        p(&["a", "runtime", "accounting"]),
        p(&["link", "runtime", "accounting"]),
        p(&["b", "runtime", "accounting"]),
        p(&["a", "runtime", "accounting"]),
    ];
    let canonical = vec![Some(p(&["real", "a"])), Some(p(&["real", "a"])), None, None];
    assert_eq!(execution_roots(&roots, &canonical), vec![p(&["a"]), p(&["b"]), p(&["a"])]);
    let plain = vec![p(&["a", "r", "acc"]), p(&["a", "r", "acc"])];
    assert_eq!(execution_roots(&plain, &vec![None, None]), vec![p(&["a"])]);
}

fn machine() -> Vec<(String, bool)> {
    vec![("working".to_string(), false), ("completed".to_string(), true), ("cancelled".to_string(), true)]
}

#[test]
fn a_selected_run_is_tallied_from_each_tasks_last_recorded_state() {
    let records = vec![
        record(Some("r"), "2", "working", 1),
        record(Some("r"), "1", "working", 1),
        record(Some("r"), "2", "completed", 2),
        record(Some("r"), "3", "cancelled", 1),
    ];
    assert_eq!(selected_run_task_tally(&machine(), &records), "1 task completed, 1 cancelled, 1 in progress");
    let mut other = record(Some("r"), "4", "working", 1);
    other.model = Some("slow".into());
    let mut none = record(Some("r"), "5", "working", 1);
    none.model = None;
    let mut all = records;
    all.push(other);
    all.push(none);
    assert_eq!(
        summary_lead_tail(&machine(), &all, &Vec::new(), Some("r")),
        "run `r`; 6 agent invocations across 2 models; 1 task completed, 1 cancelled, 3 in progress."
    );
    let states = vec!["completed".to_string()];
    assert_eq!(
        summary_lead_tail(&machine(), &vec![record(None, "1", "working", 1)], &states, None),
        "1 agent invocation across 1 model; 1 task completed."
    );
    assert_eq!(summary_lead_tail(&machine(), &Vec::new(), &Vec::new(), None), "0 agent invocations across 0 models; no tasks.");
}

#[test]
fn a_reading_is_collapsible_and_keeps_the_accounting_block() {
    let records = vec![record(Some("r"), "1", "working", 1)];
    let states = vec!["working".to_string()];
    assert_eq!(
        render_summary_reading("flow", &machine(), &records, &states, false, None, "ACC\n"),
        "`flow` workflow: 1 agent invocation across 1 model; 1 task in progress.\n\n\
         1. `1` working — codex, openai/fast — 2m\n\nACC\n"
    );
    assert_eq!(
        render_summary_reading("flow", &machine(), &Vec::new(), &Vec::new(), true, None, "ACC\n"),
        "<details>\n<summary>AI workflow: `flow`, 0 agent invocations across 0 models; no tasks.</summary>\n\nACC\n\n</details>\n"
    );
}

#[test]
fn run_and_prices_come_as_a_pair() {
    assert!(matches!(rhei_cli::summary::run_price_pair(true, true), Ok(true)));
    assert!(matches!(rhei_cli::summary::run_price_pair(false, false), Ok(false)));
    let e = rhei_cli::summary::run_price_pair(true, false).unwrap_err();
    assert_eq!(e.message, "--run and --prices are one paired summary operation");
    assert_eq!(e.help.as_deref(), Some("pass both `--run <ID>` and `--prices <BOOK>`, or neither"));
    assert!(rhei_cli::summary::run_price_pair(false, true).is_err());
}
