use rhei_cli::paths::{
    display_path, file_stem, join_name, join_relative, lexically_normal, parent, path_eq,
    path_starts_with, session_prompt_record_path, session_reports_dir, slash_path,
    strip_to_relative, PathComponent,
};

fn p(spec: &str) -> Vec<PathComponent> {
    let mut out = Vec::new();
    if spec.starts_with('/') {
        out.push(PathComponent::RootDir);
    }
    for piece in spec.split('/').filter(|s| !s.is_empty()) {
        out.push(match piece {
            "." => PathComponent::CurDir,
            ".." => PathComponent::ParentDir,
            name => PathComponent::Normal(name.to_string()),
        });
    }
    out
}

#[test]
fn lexical_normalization_resolves_dots_without_the_filesystem() {
    assert_eq!(lexically_normal(&p("/a/./b/../c")), p("/a/c"));
    assert_eq!(lexically_normal(&p("/../a")), p("/a"));
    assert_eq!(lexically_normal(&p("a/../../b")), p("b"));
    assert_eq!(lexically_normal(&p("./x/.")), p("x"));
    let once = lexically_normal(&p("/r/s/../t/./u/.."));
    assert_eq!(lexically_normal(&once), once);
}

#[test]
fn prefixes_and_relative_paths() {
    assert!(path_starts_with(&p("/a/b/c"), &p("/a/b")));
    assert!(!path_starts_with(&p("/a/bc"), &p("/a/b")));
    assert!(!path_starts_with(&p("/a"), &p("/a/b")));
    assert_eq!(strip_to_relative(&p("/a/b/c"), &p("/a")), Some(p("b/c")));
    assert_eq!(strip_to_relative(&p("/a"), &p("/a")), Some(vec![PathComponent::CurDir]));
    assert_eq!(strip_to_relative(&p("/x"), &p("/a")), None);
    assert!(path_eq(&p("/a/b"), &p("/a/b")));
    assert!(!path_eq(&p("/a/b"), &p("a/b")));
}

#[test]
fn spellings_of_a_path() {
    assert_eq!(display_path(&p("/a/b")), "/a/b");
    assert_eq!(display_path(&p("a/../b")), "a/../b");
    assert_eq!(display_path(&Vec::new()), "");
    assert_eq!(slash_path(&p("/a/./b/../c")), "a/b/c");
}

#[test]
fn parents_joins_and_stems() {
    assert_eq!(parent(&p("/a/b")), Some(p("/a")));
    assert_eq!(parent(&p("/")), None);
    assert_eq!(parent(&Vec::new()), None);
    assert_eq!(join_name(&p("/a"), "b".into()), p("/a/b"));
    assert_eq!(join_relative(&p("/r"), "x/./y//z"), p("/r/x/y/z"));
    assert_eq!(join_relative(&p("/r"), "../up"), vec![
        PathComponent::RootDir,
        PathComponent::Normal("r".into()),
        PathComponent::ParentDir,
        PathComponent::Normal("up".into()),
    ]);
    assert_eq!(file_stem("task.log.jsonl"), "task.log");
    assert_eq!(file_stem(".hidden"), ".hidden");
    assert_eq!(file_stem("plain"), "plain");
}

#[test]
fn prompt_records_and_reports_sit_beside_the_logs() {
    assert_eq!(
        session_prompt_record_path(&p("/w/runtime/logs/1-working.jsonl")),
        p("/w/runtime/prompts/1-working.md")
    );
    assert_eq!(session_prompt_record_path(&p("x.log")), p("./prompts/x.md"));
    assert_eq!(session_reports_dir(&p("/w/runtime")), p("/w/runtime/reports"));
}
