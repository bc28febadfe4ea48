use rhei_cli::json::Json;
use rhei_cli::paths::PathComponent;
use rhei_cli::snapshot_settings::{merge_snapshot_settings, snapshot_cache_dir, SnapshotSettings};

fn normal(parts: &[&str]) -> Vec<PathComponent> {
    parts.iter().map(|p| PathComponent::Normal(p.to_string())).collect()
}

fn absolute(parts: &[&str]) -> Vec<PathComponent> {
    let mut out = vec![PathComponent::RootDir];
    out.extend(normal(parts));
    out
}

fn block(cache: Option<Vec<PathComponent>>, ttl: &[(&str, &str)], env: &[&str]) -> SnapshotSettings {
    SnapshotSettings {
        cache_dir: cache,
        experimental: None,
        provider_cache_ttl: ttl.iter().map(|(a, b)| (a.to_string(), b.to_string())).collect(),
        redactor: None,
        redactor_env: env.iter().map(|e| e.to_string()).collect(),
    }
}

fn ttl_lookup(s: &SnapshotSettings, key: &str) -> Option<String> {
    s.provider_cache_ttl.iter().rev().find(|(k, _)| k == key).map(|(_, v)| v.clone())
}

#[test]
fn a_missing_level_leaves_the_other_as_it_is() {
    assert!(merge_snapshot_settings(None, None).is_none());
    let g = merge_snapshot_settings(Some(block(Some(normal(&["g"])), &[], &["A"])), None).unwrap();
    assert_eq!(g.cache_dir, Some(normal(&["g"])));
    assert_eq!(g.redactor_env, vec!["A"]);
    let p = merge_snapshot_settings(None, Some(block(None, &[("x", "1h")], &[]))).unwrap();
    assert!(p.cache_dir.is_none());
    assert_eq!(ttl_lookup(&p, "x").as_deref(), Some("1h"));
}

#[test]
fn project_fields_override_and_unset_fields_inherit() {
    let mut global = block(Some(normal(&["global"])), &[("mistral", "5m"), ("openai", "1h")], &["HOME"]);
    global.redactor = Some(absolute(&["bin", "redact"]));
    global.experimental = Some(Json::Bool(true));
    let project = block(None, &[("openai", "10m")], &[]);
    let merged = merge_snapshot_settings(Some(global), Some(project)).unwrap();
    assert_eq!(merged.cache_dir, Some(normal(&["global"])));
    assert_eq!(merged.redactor, Some(absolute(&["bin", "redact"])));
    assert!(matches!(merged.experimental, Some(Json::Bool(true))));
    assert_eq!(ttl_lookup(&merged, "mistral").as_deref(), Some("5m"));
    assert_eq!(ttl_lookup(&merged, "openai").as_deref(), Some("10m"));
    assert_eq!(merged.redactor_env, vec!["HOME"]);

    let project = block(Some(normal(&["mine"])), &[], &["PATH"]);
    let merged =
        merge_snapshot_settings(Some(block(Some(normal(&["global"])), &[], &["HOME"])), Some(project))
            .unwrap();
    assert_eq!(merged.cache_dir, Some(normal(&["mine"])));
    assert_eq!(merged.redactor_env, vec!["PATH"]);
}

#[test]
fn the_cache_lives_under_the_workspace_unless_absolute() {
    let root = absolute(&["work"]);
    assert_eq!(
        snapshot_cache_dir(&None, &root),
        absolute(&["work", ".rhei", "cache", "snapshots"])
    );
    let relative = Some(block(Some(normal(&["cache"])), &[], &[]));
    assert_eq!(snapshot_cache_dir(&relative, &root), absolute(&["work", "cache"]));
    let dotted = Some(block(Some(vec![PathComponent::CurDir, PathComponent::Normal("c".into())]), &[], &[]));
    assert_eq!(snapshot_cache_dir(&dotted, &root), absolute(&["work", "c"]));
    let elsewhere = Some(block(Some(absolute(&["var", "cache"])), &[], &[]));
    assert_eq!(snapshot_cache_dir(&elsewhere, &root), absolute(&["var", "cache"]));
    let unset = Some(block(None, &[], &[]));
    assert_eq!(
        snapshot_cache_dir(&unset, &Vec::new()),
        normal(&[".rhei", "cache", "snapshots"])
    );
}
