use rhei_cli::paths::PathComponent;
use rhei_cli::task_exports::{
    load_task_export, resolve_task_export_path, resolve_task_export_relative_path, task_export_relative_path,
    TaskExportContent,
};

fn rel(parts: &[&str]) -> Vec<PathComponent> {
    parts.iter().map(|p| PathComponent::Normal(p.to_string())).collect()
}

#[test]
fn task_export_resolver_rejects_a_path_that_escapes_the_producer_root() {
    let error = resolve_task_export_relative_path(&rel(&["producer-root"]), "../../outside.md".to_string())
        .expect_err("an escaping export path must be refused");
    assert!(error.to_string().contains("escapes the producer execution root"));
}

#[test]
fn export_paths_live_under_runtime_exports() {
    assert_eq!(task_export_relative_path("auth.3", "api"), "runtime/exports/auth.3/api.md");
    let (relative, path) = resolve_task_export_path(&rel(&["root"]), "2", "notes").unwrap();
    assert_eq!(relative, "runtime/exports/2/notes.md");
    assert_eq!(path, rel(&["root", "runtime", "exports", "2", "notes.md"]));
}

#[test]
fn loading_an_export_trims_it_or_reports_where_it_was_sought() {
    match load_task_export(&rel(&["root"]), "2", "notes", Some("  text \n".to_string()), None).unwrap() {
        TaskExportContent::Available(text) => assert_eq!(text, "text"),
        other => panic!("{other:?}"),
    }
    match load_task_export(&rel(&["root"]), "2", "notes", Some(" \n".to_string()), None).unwrap() {
        TaskExportContent::Unavailable { relative, path, legacy } => {
            assert_eq!(relative, "runtime/exports/2/notes.md");
            assert_eq!(path, rel(&["root", "runtime", "exports", "2", "notes.md"]));
            assert!(legacy.is_none());
        }
        other => panic!("{other:?}"),
    }
    assert!(load_task_export(&rel(&["root"]), "../../..", "x", None, None).is_err());
}
