use rhei_cli::compat::{
    apply_compatibility_tasks, compatibility_task_metadata, parse_execution_target,
    rename_yaml_keys, replace_compatible, replace_target_selector, replace_target_settings,
    CompiledLeaf, ResolvedCompatibility,
};
use rhei_cli::yaml::{Yaml, YamlEntry};

fn pairs(items: &[(&str, &str)]) -> Vec<(String, String)> {
    items.iter().map(|(a, b)| (a.to_string(), b.to_string())).collect()
}

fn compatibility() -> ResolvedCompatibility {
    ResolvedCompatibility {
        states: pairs(&[("review.draft", "draft"), ("review.done", "done")]),
        tasks: pairs(&[("review.1", "1"), ("review.2", "2")]),
        profiles: pairs(&[("review.default", "default")]),
        settings: pairs(&[("review.codex", "codex"), ("review.fast", "fast")]),
        artifacts: Vec::new(),
    }
}

fn s(text: &str) -> Yaml {
    Yaml::Str(text.to_string())
}

fn text(v: &Yaml) -> &str {
    match v {
        Yaml::Str(t) => t.as_str(),
        other => panic!("not a string: {other:?}"),
    }
}

#[test]
fn task_metadata_lines_take_stable_names() {
    let c = compatibility();
    assert_eq!(compatibility_task_metadata("**State:** review.draft", &c), "**State:** draft");
    assert_eq!(
        compatibility_task_metadata("**Prior:** Task review.1, Review review.2 ,3", &c),
        "**Prior:** Task 1, Review 2, 3"
    );
    assert_eq!(
        compatibility_task_metadata("**Consumes:** review.1:api,  review.9:x, bare", &c),
        "**Consumes:** 1:api, review.9:x, bare"
    );
    assert_eq!(compatibility_task_metadata("**Model:**   review.fast  ", &c), "**Model:** fast");
    assert_eq!(
        compatibility_task_metadata("**Target:** review.codex[yolo]:openai:review.fast", &c),
        "**Target:** codex[yolo]:openai:fast"
    );
    assert_eq!(compatibility_task_metadata("**Assignee:** review.1", &c), "**Assignee:** review.1");
    assert_eq!(compatibility_task_metadata("Body text", &c), "Body text");
    assert_eq!(compatibility_task_metadata("**no marker", &c), "**no marker");
}

#[test]
fn target_selectors_rename_agent_and_model() {
    let m = pairs(&[("a", "agent"), ("m", "model"), ("whole", "renamed")]);
    assert_eq!(replace_target_selector("a:p:m", &m), "agent:p:model");
    assert_eq!(replace_target_selector("a[safe]:p:x", &m), "agent[safe]:p:x");
    assert_eq!(replace_target_selector("whole", &m), "renamed");
    assert_eq!(replace_target_selector("a:p", &m), "a:p");
    let t = parse_execution_target("codex[yolo]:openai:gpt").unwrap();
    assert_eq!(
        (t.agent.as_str(), t.mode.as_deref(), t.provider.as_str(), t.model.as_str()),
        ("codex", Some("yolo"), "openai", "gpt")
    );
    assert_eq!(t.selector(), "codex[yolo]:openai:gpt");
    assert!(parse_execution_target("codex[]:openai:gpt").is_none());
    assert!(parse_execution_target("codex:openai:").is_none());
    assert!(parse_execution_target("a:b:c:d").is_none());
}

#[test]
fn task_texts_rename_headings_and_metadata() {
    let c = compatibility();
    let mut leaves = vec![CompiledLeaf {
        tasks: vec![(
            "tasks.md".to_string(),
            "### Task review.1: Draft it\n**State:** review.draft\n**Prior:** Task review.2\nBody review.1\n\n#### Review review.2: Check\n####### Task review.1: too deep\n### Task review..1: bad id"
                .to_string(),
        )],
    }];
    apply_compatibility_tasks(&mut leaves, &c);
    assert_eq!(leaves.len(), 1);
    assert_eq!(leaves[0].tasks[0].0, "tasks.md");
    assert_eq!(
        leaves[0].tasks[0].1,
        "### Task 1: Draft it\n**State:** draft\n**Prior:** Task 2\nBody review.1\n\n#### Review 2: Check\n####### Task review.1: too deep\n### Task review..1: bad id\n"
    );
}

#[test]
fn yaml_values_take_stable_names() {
    let c = compatibility();
    let mut v = s("review.draft");
    replace_compatible(&mut v, &c.states);
    assert_eq!(text(&v), "draft");
    let mut other = s("elsewhere");
    replace_compatible(&mut other, &c.states);
    assert_eq!(text(&other), "elsewhere");
    let mut number = Yaml::Number("3".to_string());
    replace_compatible(&mut number, &c.states);
    assert!(matches!(number, Yaml::Number(ref n) if n == "3"));

    let mut target = s("review.codex:openai:review.fast");
    replace_target_settings(&mut target, &c.settings);
    assert_eq!(text(&target), "codex:openai:fast");
    let mut all = Yaml::Sequence(vec![s("review.codex:p:m"), Yaml::Bool(true), s("review.fast")]);
    replace_target_settings(&mut all, &c.settings);
    match &all {
        Yaml::Sequence(items) => {
            assert_eq!(text(&items[0]), "codex:p:m");
            assert!(matches!(items[1], Yaml::Bool(true)));
            assert_eq!(text(&items[2]), "fast");
        }
        other => panic!("{other:?}"),
    }
}

fn entry(key: &str, value: Yaml) -> YamlEntry {
    YamlEntry { key: s(key), key_debug: format!("String({key:?})"), value }
}

#[test]
fn mapping_keys_take_stable_names_and_merge_like_inserts() {
    let c = compatibility();
    let mut map = vec![
        entry("review.draft", Yaml::Number("1".into())),
        entry("other", Yaml::Number("2".into())),
        entry("draft", Yaml::Number("3".into())),
        YamlEntry { key: Yaml::Bool(true), key_debug: "Bool(true)".into(), value: Yaml::Null },
    ];
    rename_yaml_keys(&mut map, &c.states);
    assert_eq!(map.len(), 3);
    assert_eq!(text(&map[0].key), "draft");
    assert_eq!(map[0].key_debug, "String(\"draft\")");
    assert!(matches!(map[0].value, Yaml::Number(ref n) if n == "3"));
    assert_eq!(text(&map[1].key), "other");
    assert!(matches!(map[2].key, Yaml::Bool(true)));
}
