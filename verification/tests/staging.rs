use rhei_cli::paths::PathComponent;
use rhei_cli::staging::{
    git_probe_dir, hidden_staging_path, next_free_sibling, numbered_sibling_path, standalone_versioning_note,
    standalone_versioning_reported, versioning_entry,
};

fn p(spec: &str) -> Vec<PathComponent> {
    let mut out = Vec::new();
    if spec.starts_with('/') {
        out.push(PathComponent::RootDir);
    }
    for piece in spec.split('/').filter(|s| !s.is_empty()) {
        out.push(match piece {
            "." => PathComponent::CurDir,
            ".." => PathComponent::ParentDir,
            name => PathComponent::Normal(name.to_string()),
        });
    }
    out
}

#[test]
fn the_first_free_numbered_sibling_is_suggested() {
    assert_eq!(numbered_sibling_path(&p("/w/out"), 7), Some(p("/w/out-7")));
    let taken = |free: &[usize]| {
        let mut v = vec![true; 98];
        for &i in free {
            v[i] = false;
        }
        v
    };
    assert_eq!(next_free_sibling(&p("/w/out"), &taken(&[2, 3])), p("/w/out-4"));
    assert_eq!(next_free_sibling(&p("/w/out"), &vec![true; 98]), p("/w/out-copy"));
    assert_eq!(next_free_sibling(&p("/w/out"), &taken(&[97])), p("/w/out-99"));
    assert_eq!(next_free_sibling(&p("out"), &taken(&[0])), p("out-2"));
    assert_eq!(next_free_sibling(&p("/"), &taken(&[0])), p("/"));
}

#[test]
fn staging_directories_are_hidden_siblings_of_the_output() {
    assert_eq!(
        hidden_staging_path(&p("/w/member"), "/w/member", 42, &vec![true, false]).unwrap(),
        p("/w/.rhei-instantiate-member-42-1")
    );
    let e = hidden_staging_path(&p("/w/member"), "/w/member", 42, &vec![true; 1024]).unwrap_err();
    assert_eq!(e.message, "could not allocate a hidden staging directory beside '/w/member'");
    assert_eq!(
        e.help.as_deref(),
        Some("remove stale hidden .rhei-instantiate-* directories beside the output and retry")
    );
    let e = hidden_staging_path(&p("/w/.."), "/w/..", 1, &vec![false]).unwrap_err();
    assert_eq!(e.message, "output path '/w/..' has no usable final name");
}

#[test]
fn the_versioning_note_names_the_repository_relative_entry() {
    assert_eq!(git_probe_dir(&p("/w/out")), p("/w"));
    assert_eq!(git_probe_dir(&p("out")), p("."));
    assert!(standalone_versioning_reported(true, Some(1)));
    assert!(!standalone_versioning_reported(true, Some(0)));
    assert!(!standalone_versioning_reported(true, None));
    assert!(!standalone_versioning_reported(false, Some(1)));
    assert_eq!(versioning_entry(&Some(p("/repo/plans/out")), &p("/repo"), &p("plans/out")), p("plans/out"));
    assert_eq!(versioning_entry(&Some(p("/elsewhere/out")), &p("/repo"), &p("../elsewhere/out")), p("../elsewhere/out"));
    assert_eq!(versioning_entry(&None, &p("/repo"), &p("out")), p("out"));
    assert_eq!(
        standalone_versioning_note("plans/out"),
        "Note: this standalone workspace is inside a git repository and is not gitignored, so its planning state (including `runtime/`) is repository content. Commit it to version the workspace, or add `plans/out/` to .gitignore to keep it working material \u{2014} the stance `rhei init` takes for `panta/`."
    );
}
