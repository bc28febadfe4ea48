use rhei_cli::compat::{ArtifactEndpoint, ResolvedCompatibility};
use rhei_cli::machine_compat::apply_compatibility_machine;
use rhei_cli::yaml::{Yaml, YamlEntry};

fn s(text: &str) -> Yaml {
    Yaml::Str(text.to_string())
}

fn map(entries: Vec<(&str, Yaml)>) -> Yaml {
    Yaml::Mapping(
        entries
            .into_iter()
            .map(|(k, v)| YamlEntry { key: s(k), key_debug: format!("String({k:?})"), value: v })
            .collect(),
    )
}

fn pairs(items: &[(&str, &str)]) -> Vec<(String, String)> {
    items.iter().map(|(a, b)| (a.to_string(), b.to_string())).collect()
}

fn compatibility() -> ResolvedCompatibility {
    ResolvedCompatibility {
        states: pairs(&[("review.draft", "draft"), ("review.done", "done")]),
        tasks: Vec::new(),
        profiles: pairs(&[("review.default", "default")]),
        settings: pairs(&[("review.codex", "codex"), ("review.fast", "fast")]),
        artifacts: vec![(
            "brief".to_string(),
            ArtifactEndpoint { state: "review.draft".into(), name: "notes".into() },
        )],
    }
}

fn machine() -> Yaml {
    map(vec![
        ("name", s("composed")),
        (
            "states",
            map(vec![
                (
                    "review.draft",
                    map(vec![
                        ("agent", s("review.codex")),
                        ("target", s("review.codex:p:review.fast")),
                        ("outputs", Yaml::Sequence(vec![map(vec![("name", s("notes")), ("path", s("runtime/review/notes.md"))])])),
                    ]),
                ),
                ("review.done", map(vec![("final", Yaml::Bool(true))])),
            ]),
        ),
        ("transitions", Yaml::Sequence(vec![map(vec![("from", s("review.draft")), ("to", s("review.done"))])])),
        (
            "profiles",
            map(vec![(
                "review.default",
                map(vec![
                    ("initial", s("review.draft")),
                    ("allowed", Yaml::Sequence(vec![s("review.draft"), s("review.done")])),
                ]),
            )]),
        ),
        ("node_policy", map(vec![("root", s("review.default")), ("by_type", map(vec![("task", s("review.default"))]))])),
    ])
}

fn field<'a>(v: &'a Yaml, k: &str) -> &'a Yaml {
    match v {
        Yaml::Mapping(es) => &es.iter().find(|e| matches!(&e.key, Yaml::Str(t) if t == k)).expect(k).value,
        other => panic!("not a mapping: {other:?}"),
    }
}

fn keys(v: &Yaml) -> Vec<String> {
    match v {
        Yaml::Mapping(es) => es.iter().map(|e| match &e.key { Yaml::Str(t) => t.clone(), other => format!("{other:?}") }).collect(),
        other => panic!("not a mapping: {other:?}"),
    }
}

fn text(v: &Yaml) -> &str {
    match v {
        Yaml::Str(t) => t,
        other => panic!("not a string: {other:?}"),
    }
}

fn item(v: &Yaml, i: usize) -> &Yaml {
    match v {
        Yaml::Sequence(xs) => &xs[i],
        other => panic!("not a sequence: {other:?}"),
    }
}

#[test]
fn a_composed_machine_takes_its_stable_names() {
    let mut m = machine();
    apply_compatibility_machine(&mut m, &compatibility()).expect("renamed");
    assert_eq!(keys(&m), vec!["name", "states", "transitions", "profiles", "node_policy"]);
    let states = field(&m, "states");
    assert_eq!(keys(states), vec!["draft", "done"]);
    let draft = field(states, "draft");
    assert_eq!(text(field(draft, "agent")), "codex");
    assert_eq!(text(field(draft, "target")), "codex:p:fast");
    let output = item(field(draft, "outputs"), 0);
    assert_eq!(text(field(output, "path")), "brief");
    assert_eq!(text(field(output, "name")), "notes");
    let transition = item(field(&m, "transitions"), 0);
    assert_eq!((text(field(transition, "from")), text(field(transition, "to"))), ("draft", "done"));
    let profiles = field(&m, "profiles");
    assert_eq!(keys(profiles), vec!["default"]);
    let profile = field(profiles, "default");
    assert_eq!(text(field(profile, "initial")), "draft");
    assert_eq!(text(item(field(profile, "allowed"), 1)), "done");
    let policy = field(&m, "node_policy");
    assert_eq!(text(field(policy, "root")), "default");
    assert_eq!(text(field(field(policy, "by_type"), "task")), "default");
    assert_eq!(text(field(&m, "name")), "composed");
}

#[test]
fn a_machine_without_states_or_artifact_path_is_refused_unchanged() {
    let mut bare = map(vec![("name", s("x"))]);
    let error = apply_compatibility_machine(&mut bare, &compatibility()).unwrap_err();
    assert_eq!(error.to_string(), "the composed state machine has no 'states' mapping");
    assert_eq!(keys(&bare), vec!["name"]);

    let mut c = compatibility();
    c.artifacts[0].1.name = "missing".into();
    let mut m = machine();
    let error = apply_compatibility_machine(&mut m, &c).unwrap_err();
    assert_eq!(error.to_string(), "compatibility artifact 'missing' has no declared path in state 'review.draft'");
    assert_eq!(keys(field(&m, "states")), vec!["review.draft", "review.done"]);
}
