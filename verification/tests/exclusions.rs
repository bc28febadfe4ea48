use std::path::{Component, Path};

use rhei_cli::exclusions::{ResolvedExclusion, ResolvedExclusions};
use rhei_cli::paths::PathComponent;

fn components(path: &Path) -> Vec<PathComponent> {
    path.components()
        .map(|c| match c {
            Component::RootDir => PathComponent::RootDir,
            Component::CurDir => PathComponent::CurDir,
            Component::ParentDir => PathComponent::ParentDir,
            Component::Normal(name) => PathComponent::Normal(name.to_string_lossy().into_owned()),
            Component::Prefix(p) => {
                PathComponent::Normal(p.as_os_str().to_string_lossy().into_owned())
            }
        })
        .collect()
}

#[test]
fn exclusions_adapter_preserves_recursion_for_logical_and_canonical_targets() {
    let dir = tempfile::tempdir().expect("tempdir");
    for recursive in [false, true] {
        let logical = dir.path().join("alias/private");
        let canonical = dir.path().join("real/private");
        let policy = ResolvedExclusions {
            entries: vec![ResolvedExclusion {
                authored: "checkout=alias/private".into(),
                logical: components(&logical),
                canonical: components(&canonical),
                recursive,
            }],
        };
        let suffix = if recursive { "/" } else { "" };
        assert_eq!(
            policy.adapter_paths(),
            vec![
                format!("{}{suffix}", logical.display()),
                format!("{}{suffix}", canonical.display()),
            ]
        );
    }
}

#[test]
fn adapter_paths_list_every_entry_in_order() {
    let entry = |path: &str, recursive: bool| ResolvedExclusion {
        authored: path.to_string(),
        logical: components(Path::new(path)),
        canonical: components(&Path::new("/real").join(path.trim_start_matches('/'))),
        recursive,
    };
    let policy = ResolvedExclusions {
        entries: vec![entry("/a/b", true), entry("c/../d", false)],
    };
    assert_eq!(
        policy.adapter_paths(),
        vec!["/a/b/", "/real/a/b/", "c/../d", "/real/c/../d"]
    );
    assert!(ResolvedExclusions { entries: Vec::new() }.adapter_paths().is_empty());
}
