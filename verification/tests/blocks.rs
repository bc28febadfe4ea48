use rhei_cli::blocks::{
    mount_bindings, mount_reference_is_path, validate_bind_targets, compatible_input_schema, parse_cli_seams, parse_mounts, split_endpoint, split_once,
    template_input_args_without_execute_args, valid_identifier, MountedInputValues,
    TemplateValueSchema,
};
use rhei_cli::yaml::{validate_selected_exposure, Yaml, YamlEntry};

fn strings(v: &[&str]) -> Vec<String> {
    v.iter().map(|s| s.to_string()).collect()
}

fn schema(ty: &str) -> TemplateValueSchema {
    TemplateValueSchema { value_type: ty.into(), validate: None, format: None, items: None, properties: Vec::new() }
}

#[test]
fn input_schemas_bind_only_when_they_declare_the_same_shape() {
    assert!(compatible_input_schema(&schema("string"), &schema("string")));
    assert!(!compatible_input_schema(&schema("string"), &schema("integer")));
    let mut fmt = schema("string");
    fmt.format = Some("date".into());
    assert!(!compatible_input_schema(&fmt, &schema("string")));
    let mut list = schema("list");
    list.items = Some(Box::new(schema("string")));
    let mut other = schema("list");
    other.items = Some(Box::new(schema("string")));
    assert!(compatible_input_schema(&list, &other));
    other.items = Some(Box::new(schema("integer")));
    assert!(!compatible_input_schema(&list, &other));
    let mut a = schema("object");
    a.properties = vec![("x".into(), schema("string")), ("y".into(), schema("integer"))];
    let mut b = schema("object");
    b.properties = vec![("y".into(), schema("integer")), ("x".into(), schema("string"))];
    assert!(compatible_input_schema(&a, &b));
    assert!(compatible_input_schema(&b, &a));
    b.properties.pop();
    assert!(!compatible_input_schema(&a, &b));
}

#[test]
fn execute_arguments_are_stripped_from_the_template_inputs() {
    let kept = template_input_args_without_execute_args(&strings(&["a", "b", "run", "--x"]), &strings(&["run", "--x"]));
    assert_eq!(kept.unwrap(), strings(&["a", "b"]));
    assert_eq!(template_input_args_without_execute_args(&strings(&["a"]), &Vec::new()).unwrap(), strings(&["a"]));
    assert_eq!(
        template_input_args_without_execute_args(&strings(&["a"]), &strings(&["a", "b"])).unwrap_err().message,
        "internal error: execute arguments were not present in parsed template inputs"
    );
    assert_eq!(
        template_input_args_without_execute_args(&strings(&["a", "b"]), &strings(&["c"])).unwrap_err().message,
        "internal error: execute arguments did not match trailing parsed template inputs"
    );
}

#[test]
fn mounted_values_are_read_per_alias_and_checked_against_known_aliases() {
    let values = MountedInputValues {
        values: vec![
            ("review.target".into(), Yaml::Str("HEAD".into())),
            ("review.depth".into(), Yaml::Number("3".into())),
            ("linter.x".into(), Yaml::Bool(true)),
        ],
    };
    let review = values.for_alias("review");
    let keys: Vec<&str> = review.iter().map(|(k, _)| k.as_str()).collect();
    assert_eq!(keys, vec!["target", "depth"]);
    assert!(values.validate_aliases(&strings(&["review", "linter"])).is_ok());
    let e = values.validate_aliases(&strings(&["review"])).unwrap_err();
    assert_eq!(e.message, "mounted input 'linter.x' names unknown alias 'linter'");
    assert_eq!(e.help.as_deref(), Some("available mount aliases: review"));
    let bare = MountedInputValues { values: vec![("target".into(), Yaml::Null)] };
    assert_eq!(
        bare.validate_aliases(&strings(&["review"])).unwrap_err().message,
        "mounted input 'target' is not qualified by an alias"
    );
}

#[test]
fn mount_operands_follow_the_alias_grammar() {
    assert!(valid_identifier("review-2_x"));
    assert!(!valid_identifier("2review"));
    assert!(!valid_identifier(""));
    assert_eq!(split_once("a=b=c", '='), Some(("a".to_string(), "b=c".to_string())));
    assert_eq!(split_once("abc", '='), None);
    assert_eq!(split_endpoint("m.out"), Some(("m".to_string(), "out".to_string())));
    assert_eq!(split_endpoint(".out"), None);
    assert_eq!(split_endpoint("m."), None);
    let mounts = parse_mounts(&strings(&["a=lib/a", "b=lib/b"])).unwrap();
    assert_eq!(mounts.len(), 2);
    assert_eq!(mounts[1].block, "lib/b");
    assert_eq!(parse_mounts(&strings(&["a"])).unwrap_err().message, "--mount expects ALIAS=BLOCK, got 'a'");
    assert_eq!(parse_mounts(&strings(&["9a=x"])).unwrap_err().message, "invalid mount alias '9a'");
    assert_eq!(
        parse_mounts(&strings(&["a=x", "a=y"])).unwrap_err().message,
        "duplicate mount alias 'a': manifests 'x' and 'y'"
    );
}

#[test]
fn passes_route_into_the_one_seam_between_their_mounts() {
    assert!(parse_cli_seams(&Vec::new(), &Vec::new()).unwrap().is_none());
    assert_eq!(
        parse_cli_seams(&Vec::new(), &strings(&["a.x=b.y"])).unwrap_err().message,
        "--pass requires a declared --seam between its endpoint mounts"
    );
    let seams = parse_cli_seams(&strings(&["a.done=b.start"]), &strings(&["a.x=b.y"])).unwrap().unwrap();
    assert_eq!(seams.len(), 1);
    assert_eq!(seams[0].pass, vec![("a.x".to_string(), "b.y".to_string())]);
    assert_eq!(
        parse_cli_seams(&strings(&["nosep"]), &Vec::new()).unwrap_err().message,
        "--seam expects SOURCE=TARGET, got 'nosep'"
    );
    assert_eq!(
        parse_cli_seams(&strings(&["a.d=b.s"]), &strings(&["x=b.y"])).unwrap_err().message,
        "invalid data endpoint 'x'"
    );
    assert_eq!(
        parse_cli_seams(&strings(&["a.d=b.s", "a.e=b.t"]), &strings(&["a.x=b.y"])).unwrap_err().message,
        "pass 'a.x=b.y' must match exactly one declared seam between 'a' and 'b'"
    );
}

fn key(k: &str) -> Yaml {
    Yaml::Str(k.into())
}

fn entry(k: &str, v: Yaml) -> YamlEntry {
    YamlEntry { key: key(k), key_debug: format!("String({k:?})"), value: v }
}

#[test]
fn exposure_declarations_are_closed_mappings() {
    let target = Yaml::Mapping(vec![entry("local", key("x")), entry("mount", key("m"))]);
    let ok = Yaml::Mapping(vec![entry("states", Yaml::Mapping(vec![entry("review", target)]))]);
    assert!(validate_selected_exposure(&ok).is_ok());
    let extra = Yaml::Mapping(vec![entry("files", Yaml::Null)]);
    let e = validate_selected_exposure(&extra).unwrap_err();
    assert_eq!(
        e.message,
        "unsupported field String(\"files\") in expose; allowed fields: states, tasks, settings"
    );
    let scalar = Yaml::Mapping(vec![entry("tasks", key("x"))]);
    assert_eq!(validate_selected_exposure(&scalar).unwrap_err().message, "expose.tasks must be a mapping");
    let bad_target = Yaml::Mapping(vec![entry(
        "settings",
        Yaml::Mapping(vec![entry("agents", Yaml::Mapping(vec![entry("a", Yaml::Mapping(vec![entry("via", Yaml::Null)]))]))]),
    )]);
    assert_eq!(
        validate_selected_exposure(&bad_target).unwrap_err().message,
        "unsupported field String(\"via\") in expose.settings.agents.String(\"a\"); allowed fields: local, mount, name"
    );
    assert_eq!(
        validate_selected_exposure(&Yaml::Null).unwrap_err().message,
        "expose must select a mapping, not null or a scalar"
    );
}

#[test]
fn command_line_values_flatten_by_alias_and_later_sources_win() {
    let file = |alias: &str, pairs: Vec<(&str, &str)>| {
        (
            alias.to_string(),
            Yaml::Mapping(pairs.into_iter().map(|(k, v)| entry(k, Yaml::Str(v.to_string()))).collect()),
        )
    };
    let values = MountedInputValues::from_cli(
        vec![
            ("a.yaml".to_string(), vec![file("review", vec![("target", "HEAD"), ("depth", "2")])]),
            ("b.yaml".to_string(), vec![file("review", vec![("depth", "3")]), file("build", vec![("mode", "fast")])]),
        ],
        vec![("review.target".to_string(), "main".to_string())],
        vec![("build.notes".to_string(), "from a file\n".to_string())],
    )
    .unwrap();
    let rendered: Vec<(String, String)> = values
        .values
        .iter()
        .map(|(k, v)| (k.clone(), match v { Yaml::Str(s) => s.clone(), other => format!("{other:?}") }))
        .collect();
    assert_eq!(
        rendered,
        vec![
            ("build.mode".to_string(), "fast".to_string()),
            ("build.notes".to_string(), "from a file\n".to_string()),
            ("review.depth".to_string(), "3".to_string()),
            ("review.target".to_string(), "main".to_string()),
        ]
    );
}

#[test]
fn malformed_values_files_are_refused_with_the_entry_named() {
    let e = MountedInputValues::from_cli(
        vec![("vals.yaml".to_string(), vec![("review".to_string(), Yaml::Str("HEAD".to_string()))])],
        vec![],
        vec![],
    )
    .unwrap_err();
    assert_eq!(e.message, "values file 'vals.yaml' entry 'review' must be a mapping of mounted inputs");
    assert_eq!(e.help.as_deref(), Some("use an alias mapping, for example `review: { target: HEAD }`."));
    let e = MountedInputValues::from_cli(
        vec![(
            "vals.yaml".to_string(),
            vec![("review".to_string(), Yaml::Mapping(vec![YamlEntry { key: Yaml::Bool(true), key_debug: "Bool(true)".to_string(), value: Yaml::Null }]))],
        )],
        vec![],
        vec![],
    )
    .unwrap_err();
    assert_eq!(e.message, "values for mount 'review' contain a non-string input name");
    assert_eq!(e.help, None);
}

fn pair(a: &str, b: &str) -> (String, String) {
    (a.to_string(), b.to_string())
}

#[test]
fn bind_targets_must_name_a_mounted_alias() {
    let aliases = strings(&["review", "build"]);
    assert!(validate_bind_targets(&vec![pair("review.target", "rev")], &aliases, "/b/template.yaml").is_ok());
    let e = validate_bind_targets(&vec![pair("review", "rev")], &aliases, "/b/template.yaml").unwrap_err();
    assert_eq!(e.message, "invalid bind target 'review' in '/b/template.yaml'");
    let e = validate_bind_targets(&vec![pair("review.x", "a"), pair("ship.x", "a")], &aliases, "/b/template.yaml").unwrap_err();
    assert_eq!(e.message, "bind target 'ship.x' names unknown child alias 'ship' in '/b/template.yaml'");
    assert!(mount_reference_is_path("./child"));
    assert!(mount_reference_is_path("/abs/child"));
    assert!(mount_reference_is_path("blocks/child"));
    assert!(!mount_reference_is_path("review"));
}

#[test]
fn bindings_fill_child_inputs_from_parent_inputs() {
    let parent = vec![("rev".to_string(), schema("string")), ("n".to_string(), schema("integer"))];
    let child = vec![("target".to_string(), schema("string")), ("depth".to_string(), schema("string"))];
    let values = strings(&["rev", "n"]);
    let run = |binds: Vec<(String, String)>, values: &Vec<String>| {
        mount_bindings(&binds, "review", &parent, &child, values, "/p/template.yaml", "/c/template.yaml")
    };
    assert_eq!(
        run(vec![pair("review.target", "rev"), pair("build.mode", "n")], &values).unwrap(),
        vec![pair("target", "rev")]
    );
    assert_eq!(
        run(vec![pair("review.target", "gone")], &values).unwrap_err().message,
        "bind 'review.target' in '/p/template.yaml' names missing parent input 'gone'"
    );
    let e = run(vec![pair("review.nope", "rev")], &values).unwrap_err();
    assert_eq!(e.message, "bind target 'review.nope' from '/p/template.yaml' does not exist in '/c/template.yaml'");
    assert_eq!(e.help.as_deref(), Some("valid child inputs: review.target, review.depth"));
    assert_eq!(
        run(vec![pair("review.depth", "n")], &values).unwrap_err().message,
        "bind 'review.depth' connects incompatible input schemas in '/p/template.yaml' and '/c/template.yaml'"
    );
    assert_eq!(
        run(vec![pair("review.target", "rev"), pair("review.target", "rev")], &values).unwrap_err().message,
        "bind target 'review.target' is assigned more than once"
    );
    assert_eq!(
        run(vec![pair("review.target", "rev")], &strings(&["n"])).unwrap_err().message,
        "resolved parent input 'rev' is missing"
    );
}
