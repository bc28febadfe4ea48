//! The top-level `snapshots` settings block: how the project's block is
//! laid over the global one, and where the snapshot cache lives.
use vstd::prelude::*;
use crate::json::Json;
use crate::paths::{clone_path, parts, Part, PathComponent};

verus! {

/// The `snapshots` block of a settings file.
#[derive(Debug)]
pub struct SnapshotSettings {
    /// Where snapshots are cached; relative to the workspace unless absolute.
    pub cache_dir: Option<Vec<PathComponent>>,
    pub experimental: Option<Json>,
    /// Cache lifetime per provider, in file order; a later entry for the
    /// same provider wins, as it does when the object is read into a map.
    pub provider_cache_ttl: Vec<(String, String)>,
    pub redactor: Option<Vec<PathComponent>>,
    /// The environment variables forwarded to the redactor.
    pub redactor_env: Vec<String>,
}

/// The provider table as a map: later entries win.
pub open spec fn ttl_map(entries: Seq<(String, String)>) -> Map<Seq<char>, Seq<char>>
    decreases entries.len(),
{
    if entries.len() == 0 {
        Map::empty()
    } else {
        ttl_map(entries.drop_last()).insert(entries.last().0@, entries.last().1@)
    }
}

proof fn lemma_ttl_map_append(a: Seq<(String, String)>, b: Seq<(String, String)>)
    ensures
        ttl_map(a + b) == ttl_map(a).union_prefer_right(ttl_map(b)),
    decreases b.len(),
{
    if b.len() == 0 {
        assert(a + b =~= a);
        assert(ttl_map(a).union_prefer_right(ttl_map(b)) =~= ttl_map(a));
    } else {
        assert((a + b).drop_last() =~= a + b.drop_last());
        assert((a + b).last() == b.last());
        lemma_ttl_map_append(a, b.drop_last());
        assert(ttl_map(a + b) =~= ttl_map(a).union_prefer_right(ttl_map(b)));
    }
}

/// The project block laid over the global one: each field the project
/// sets replaces the global value, the provider table is merged entry by
/// entry, and a non-empty `redactor_env` replaces the global list.
pub fn merge_snapshot_settings(
    global: Option<SnapshotSettings>,
    project: Option<SnapshotSettings>,
) -> (out: Option<SnapshotSettings>)
    ensures
        global is None ==> out == project,
        project is None ==> out == global,
        global is Some && project is Some ==> {
            let g = global.unwrap();
            let p = project.unwrap();
            &&& out is Some
            &&& out.unwrap().cache_dir == if p.cache_dir is Some { p.cache_dir } else { g.cache_dir }
            &&& out.unwrap().experimental == if p.experimental is Some {
                p.experimental
            } else {
                g.experimental
            }
            &&& ttl_map(out.unwrap().provider_cache_ttl@) == ttl_map(
                g.provider_cache_ttl@,
            ).union_prefer_right(ttl_map(p.provider_cache_ttl@))
            &&& out.unwrap().redactor == if p.redactor is Some { p.redactor } else { g.redactor }
            &&& out.unwrap().redactor_env == if p.redactor_env@.len() > 0 {
                p.redactor_env
            } else {
                g.redactor_env
            }
        },
{
    match (global, project) {
        (None, None) => None,
        (Some(settings), None) => Some(settings),
        (None, Some(settings)) => Some(settings),
        (Some(global), Some(project)) => {
            let SnapshotSettings {
                cache_dir,
                experimental,
                provider_cache_ttl,
                redactor,
                redactor_env,
            } = project;
            let mut merged = global;
            if cache_dir.is_some() {
                merged.cache_dir = cache_dir;
            }
            if experimental.is_some() {
                merged.experimental = experimental;
            }
            let ghost before = merged.provider_cache_ttl@;
            let mut extra = provider_cache_ttl;
            let ghost added = extra@;
            merged.provider_cache_ttl.append(&mut extra);
            proof {
                lemma_ttl_map_append(before, added);
            }
            if redactor.is_some() {
                merged.redactor = redactor;
            }
            if redactor_env.len() > 0 {
                merged.redactor_env = redactor_env;
            }
            Some(merged)
        },
    }
}

/// Whether a path is absolute: it starts at the root.
pub open spec fn is_absolute(p: Seq<Part>) -> bool {
    p.len() > 0 && p[0] == Part::Root
}

/// `base.join(rel)` as components: an absolute `rel` replaces `base`;
/// otherwise `rel` follows `base`, a leading `.` of `rel` dropping out when
/// anything comes before it.
pub open spec fn join_spec(base: Seq<Part>, rel: Seq<Part>) -> Seq<Part> {
    if is_absolute(rel) {
        rel
    } else if base.len() > 0 && rel.len() > 0 && rel[0] == Part::Cur {
        base + rel.drop_first()
    } else {
        base + rel
    }
}

/// The cache directory when none is configured.
pub open spec fn default_cache_dir() -> Seq<Part> {
    seq![Part::Normal(".rhei"@), Part::Normal("cache"@), Part::Normal("snapshots"@)]
}

/// The configured cache directory, or the default one.
pub open spec fn configured_cache_dir(settings: Option<SnapshotSettings>) -> Seq<Part> {
    match settings {
        Some(s) => match s.cache_dir {
            Some(d) => parts(d@),
            None => default_cache_dir(),
        },
        None => default_cache_dir(),
    }
}

/// Where snapshots are cached: the configured directory (by default
/// `.rhei/cache/snapshots`), under the workspace root unless absolute.
pub fn snapshot_cache_dir(
    settings: &Option<SnapshotSettings>,
    workspace_root: &Vec<PathComponent>,
) -> (out: Vec<PathComponent>)
    ensures
        parts(out@) == join_spec(parts(workspace_root@), configured_cache_dir(*settings)),
{
    let configured: Vec<PathComponent> = match settings {
        Some(s) => match &s.cache_dir {
            Some(d) => clone_path(d),
            None => default_dir(),
        },
        None => default_dir(),
    };
    let ghost rel = parts(configured@);
    let ghost base = parts(workspace_root@);
    if configured.len() > 0 && matches!(configured[0], PathComponent::RootDir) {
        return configured;
    }
    let mut out = clone_path(workspace_root);
    let skip_cur: usize = if out.len() > 0 && configured.len() > 0 && matches!(
        configured[0],
        PathComponent::CurDir
    ) {
        1
    } else {
        0
    };
    let mut i: usize = skip_cur;
    while i < configured.len()
        invariant
            skip_cur <= i <= configured.len(),
            rel == parts(configured@),
            parts(out@) == base + rel.subrange(skip_cur as int, i as int),
        decreases configured.len() - i,
    {
        let c = crate::paths::clone_component(&configured[i]);
        let ghost prev = out@;
        out.push(c);
        assert(parts(out@) =~= parts(prev).push(rel[i as int]));
        assert(rel.subrange(skip_cur as int, i + 1) =~= rel.subrange(skip_cur as int, i as int).push(
            rel[i as int],
        ));
        i += 1;
    }
    assert(rel.subrange(skip_cur as int, rel.len() as int) =~= if skip_cur == 1 {
        rel.drop_first()
    } else {
        rel
    });
    out
}

fn default_dir() -> (out: Vec<PathComponent>)
    ensures
        parts(out@) == default_cache_dir(),
{
    let mut out: Vec<PathComponent> = Vec::new();
    out.push(PathComponent::Normal(".rhei".to_string()));
    out.push(PathComponent::Normal("cache".to_string()));
    out.push(PathComponent::Normal("snapshots".to_string()));
    assert(parts(out@) =~= default_cache_dir());
    out
}

} // verus!
