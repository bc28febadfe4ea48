use rhei_cli::supervision::{ancestor_chain, nearest_in_scope_supervising_owner, PlanTask, SupervisionScope};

fn task(id: &str, state: &str, children: Vec<PlanTask>) -> PlanTask {
    PlanTask { id: id.to_string(), state: state.to_string(), children }
}

/// `supervising` reaches every descendant; `watching` only its children.
fn scope_machine() -> Vec<(String, SupervisionScope)> {
    vec![
        ("supervising".to_string(), SupervisionScope::Descendant),
        ("watching".to_string(), SupervisionScope::Child),
    ]
}

fn owner_plan(outer_state: &str, middle_state: &str) -> Vec<PlanTask> {
    vec![task(
        "1",
        outer_state,
        vec![task(
            "1.1",
            middle_state,
            vec![task("1.1.1", "review", vec![task("1.1.1.1", "review", vec![])])],
        )],
    )]
}

fn owner_in_plan(plan: &Vec<PlanTask>, task_id: &str) -> Option<String> {
    let machine = scope_machine();
    let ancestors = ancestor_chain(plan, task_id);
    nearest_in_scope_supervising_owner(&machine, &ancestors).map(|task| task.id.clone())
}

#[test]
fn nearest_nested_supervisor_is_the_owner() {
    let plan = owner_plan("supervising", "watching");
    assert_eq!(owner_in_plan(&plan, "1.1.1"), Some("1.1".to_string()));
}

#[test]
fn child_scope_exclusion_climbs_to_an_outer_owner() {
    let plan = owner_plan("supervising", "watching");
    assert_eq!(owner_in_plan(&plan, "1.1.1.1"), Some("1".to_string()));
}

#[test]
fn event_filter_miss_does_not_change_the_owner() {
    let plan = owner_plan("supervising", "watching");
    assert_eq!(owner_in_plan(&plan, "1.1.1"), Some("1.1".to_string()));
}

#[test]
fn task_without_a_supervising_ancestor_has_no_owner() {
    let plan = owner_plan("review", "review");
    assert_eq!(owner_in_plan(&plan, "1.1.1.1"), None);
}

#[test]
fn the_ancestor_chain_runs_nearest_first_and_is_empty_for_roots_and_strangers() {
    let plan = vec![
        task("1", "a", vec![task("1.1", "b", vec![])]),
        task("2", "c", vec![task("2.1", "d", vec![task("2.1.1", "e", vec![])]), task("2.2", "f", vec![])]),
    ];
    let ids = |target: &str| -> Vec<String> {
        ancestor_chain(&plan, target).into_iter().map(|t| t.id.clone()).collect()
    };
    assert_eq!(ids("2.1.1"), vec!["2.1".to_string(), "2".to_string()]);
    assert_eq!(ids("2.2"), vec!["2".to_string()]);
    assert_eq!(ids("1.1"), vec!["1".to_string()]);
    assert!(ids("2").is_empty());
    assert!(ids("9").is_empty());
}

#[test]
fn a_child_scope_owns_only_its_own_children_and_a_descendant_scope_reaches_further() {
    let plan = owner_plan("watching", "review");
    assert_eq!(owner_in_plan(&plan, "1.1"), Some("1".to_string()));
    assert_eq!(owner_in_plan(&plan, "1.1.1"), None);
    let plan = owner_plan("review", "supervising");
    assert_eq!(owner_in_plan(&plan, "1.1.1.1"), Some("1.1".to_string()));
    assert_eq!(owner_in_plan(&plan, "1.1"), None);
}
