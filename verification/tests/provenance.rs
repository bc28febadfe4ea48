use rhei_cli::paths::PathComponent;
use rhei_cli::provenance::{composition_source_identity, git_block_path, git_source_revision, symlink_escapes, GitFacts};

fn path(parts: &[&str]) -> Vec<PathComponent> {
    let mut out = vec![PathComponent::RootDir];
    out.extend(parts.iter().map(|p| PathComponent::Normal(p.to_string())));
    out
}

#[test]
fn git_revision_status_follows_the_porcelain_lines() {
    let root = path(&["repo"]);
    let dir = path(&["repo", "blocks", "review"]);
    let clean = git_source_revision(&dir, &root, "abc123\n", "", true, false, "sha256:x");
    assert_eq!(clean.block_path.as_deref(), Some("blocks/review"));
    assert_eq!(clean.commit.as_deref(), Some("abc123"));
    assert_eq!(clean.content.as_deref(), Some("sha256:x"));
    assert_eq!((clean.kind.as_str(), clean.status.as_str(), clean.replay.as_str()), ("git", "clean", "exact"));
    let dirty = git_source_revision(&dir, &root, "abc", " M blocks/review/a.md\n", true, false, "c");
    assert_eq!((dirty.status.as_str(), dirty.replay.as_str()), ("dirty", "not-guaranteed"));
    let untracked = git_source_revision(&dir, &root, "abc", "?? new.md\n", true, false, "c");
    assert_eq!(untracked.status, "untracked");
    let both = git_source_revision(&dir, &root, "abc", "?? new.md\nM  old.md\n  \n", true, false, "c");
    assert_eq!(both.status, "dirty-untracked");
    let not_tracked = git_source_revision(&dir, &root, "abc", "", false, false, "c");
    assert_eq!(not_tracked.status, "untracked");
    let escaping = git_source_revision(&dir, &root, "abc", "", true, true, "c");
    assert_eq!((escaping.status.as_str(), escaping.replay.as_str()), ("clean", "not-guaranteed"));
    let at_root = git_source_revision(&root, &root, "abc", "", true, false, "c");
    assert!(at_root.block_path.is_none());
}

#[test]
fn block_path_is_the_directory_inside_the_repository() {
    assert_eq!(git_block_path(&path(&["r", "a", "b"]), &path(&["r"])).as_deref(), Some("a/b"));
    assert_eq!(git_block_path(&path(&["r"]), &path(&["r"])), None);
    assert_eq!(git_block_path(&path(&["x"]), &path(&["r"])), None);
}

#[test]
fn source_identity_records_locator_and_revision() {
    let built_in = composition_source_identity("review", true, "builtin", "ab", None, false, "0.1.0");
    assert!(built_in.locator.portable);
    assert_eq!(built_in.locator.resolved.as_deref(), Some("review"));
    assert_eq!(built_in.revision.kind, "built-in");
    assert_eq!(built_in.revision.replay, "exact");
    assert_eq!(built_in.revision.status, "shipped");
    assert_eq!(built_in.revision.release.as_deref(), Some("0.1.0"));
    assert_eq!(built_in.revision.template.as_deref(), Some("review"));
    assert_eq!(built_in.revision.content.as_deref(), Some("sha256:ab"));

    let absolute = composition_source_identity("/abs/block", false, "path", "cd", None, true, "0.1.0");
    assert!(!absolute.locator.portable);
    assert!(absolute.locator.resolved.is_none());
    assert_eq!((absolute.revision.kind.as_str(), absolute.revision.status.as_str()), ("unavailable", "unavailable"));

    let local = composition_source_identity("blocks\\review", false, "path", "cd", None, false, "0.1.0");
    assert_eq!(local.locator.requested, "blocks/review");
    assert_eq!((local.revision.kind.as_str(), local.revision.status.as_str()), ("local", "unversioned"));
    assert!(!composition_source_identity("~/b", false, "path", "cd", None, false, "1").locator.portable);

    let git = GitFacts {
        dir: path(&["repo", "blocks", "r"]),
        root: path(&["repo"]),
        commit: "c0ffee\n".into(),
        porcelain_status: String::new(),
        all_tracked: true,
        escaping: false,
    };
    let from_git = composition_source_identity("blocks/r", false, "project", "cd", Some(git), false, "1");
    assert_eq!(from_git.revision.kind, "git");
    assert_eq!(from_git.revision.content.as_deref(), Some("sha256:cd"));
    assert_eq!(from_git.revision.commit.as_deref(), Some("c0ffee"));
    assert_eq!(from_git.revision.block_path.as_deref(), Some("blocks/r"));
    assert_eq!((from_git.revision.status.as_str(), from_git.revision.replay.as_str()), ("clean", "exact"));
    assert_eq!(from_git.locator.tier, "project");
}

fn rel(parts: &[&str]) -> Vec<PathComponent> {
    parts
        .iter()
        .map(|p| match *p {
            ".." => PathComponent::ParentDir,
            "." => PathComponent::CurDir,
            n => PathComponent::Normal(n.to_string()),
        })
        .collect()
}

#[test]
fn a_symlink_escapes_only_when_its_resolved_target_leaves_the_root() {
    let root = path(&["src"]);
    let link = path(&["src", "a", "l"]);
    assert!(!symlink_escapes(&root, &link, &rel(&["..", "b"])));
    assert!(!symlink_escapes(&root, &link, &rel(&[".", "c"])));
    assert!(symlink_escapes(&root, &link, &rel(&["..", "..", "x"])));
    assert!(symlink_escapes(&root, &link, &path(&["etc", "x"])));
    assert!(!symlink_escapes(&root, &link, &path(&["src", "q"])));
}
