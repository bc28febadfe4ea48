//! Resolution of the plan-level files that `**Provides:**` promises and
//! `**Consumes:**` reads, and the refusal of a terminal move while a
//! promised export is missing or blank.
use vstd::prelude::*;
use crate::paths::{display_path, display_spec, join_relative, join_relative_spec, parts, relative_components, segment_parts, split_on, Part, PathComponent};
use crate::report::Report;
use crate::text::{chars_of, join, push_str, string_of, trim, trim_vec, join_strings};

verus! {

/// Workspace-relative location of one task export:
/// `runtime/exports/<task id>/<name>.md`.
pub open spec fn task_export_relative_path_spec(task_id: Seq<char>, name: Seq<char>) -> Seq<char> {
    "runtime/exports/"@ + task_id + "/"@ + name + ".md"@
}

/// Workspace-relative location of one task export.
pub fn task_export_relative_path(task_id: &str, name: &str) -> (out: String)
    ensures
        out@ == task_export_relative_path_spec(task_id@, name@),
{
    let mut out = String::new();
    push_str(&mut out, "runtime/exports/");
    push_str(&mut out, task_id);
    push_str(&mut out, "/");
    push_str(&mut out, name);
    push_str(&mut out, ".md");
    out
}

/// Whether a walk through `ps`, starting `depth` levels below the root,
/// ever climbs above it.
pub open spec fn climbs_above(ps: Seq<Part>, depth: nat) -> bool
    decreases ps.len(),
{
    if ps.len() == 0 {
        false
    } else if ps[0] is Parent {
        depth == 0 || climbs_above(ps.drop_first(), (depth - 1) as nat)
    } else {
        climbs_above(ps.drop_first(), depth + 1)
    }
}

/// A relative artifact spelling leaves its root when it is absolute or when
/// its `..` pieces climb above the root at any point of the walk.
pub open spec fn escapes_root_spec(relative: Seq<char>) -> bool {
    (relative.len() > 0 && relative[0] == '/') || climbs_above(
        segment_parts(split_on(relative, '/')),
        0,
    )
}

/// Whether `relative` would leave the root it is joined to.
pub fn artifact_relative_path_escapes_root(relative: &str) -> (r: bool)
    ensures
        r == escapes_root_spec(relative@),
{
    let cs = chars_of(relative);
    if cs.len() > 0 && cs[0] == '/' {
        return true;
    }
    let ps = relative_components(&cs);
    let ghost walk = parts(ps@);
    let mut depth: usize = 0;
    let mut i: usize = 0;
    assert(walk.skip(0) =~= walk);
    while i < ps.len()
        invariant
            i <= ps.len(),
            depth <= i,
            walk == parts(ps@),
            walk == segment_parts(split_on(relative@, '/')),
            climbs_above(walk, 0) == climbs_above(walk.skip(i as int), depth as nat),
        decreases ps.len() - i,
    {
        assert(walk.skip(i as int)[0] == ps@[i as int]@);
        assert(walk.skip(i as int).drop_first() =~= walk.skip(i + 1));
        match &ps[i] {
            PathComponent::ParentDir => {
                assert(walk.skip(i as int)[0] is Parent);
                assert(walk.skip(i as int).len() > 0);
                if depth == 0 {
                    assert(climbs_above(walk.skip(i as int), 0));
                    assert(climbs_above(walk, 0));
                    assert(walk == segment_parts(split_on(relative@, '/')));
                    return true;
                }
                depth -= 1;
            },
            _ => {
                depth += 1;
            },
        }
        i += 1;
    }
    false
}

/// Refuse an export path that climbs out of the producer's execution root;
/// otherwise pair it with its location under that root.
pub fn resolve_task_export_relative_path(root: &Vec<PathComponent>, relative: String) -> (out:
    Result<(String, Vec<PathComponent>), Report>)
    ensures
        escapes_root_spec(relative@) <==> out is Err,
        match out {
            Ok((rel, path)) => rel@ == relative@ && parts(path@) == join_relative_spec(
                parts(root@),
                relative@,
            ),
            Err(e) => e.message@ == "Task export path '"@ + relative@
                + "' escapes the producer execution root"@,
        },
{
    if artifact_relative_path_escapes_root(relative.as_str()) {
        let mut message = String::new();
        push_str(&mut message, "Task export path '");
        push_str(&mut message, relative.as_str());
        push_str(&mut message, "' escapes the producer execution root");
        let mut help = String::new();
        push_str(
            &mut help,
            "task export paths are execution-root-relative; use a path-safe task id and export name",
        );
        return Err(Report::with_help(message, help));
    }
    let path = join_relative(root, relative.as_str());
    Ok((relative.clone(), path))
}

/// Resolve one export beneath the execution root of the task publishing it.
pub fn resolve_task_export_path(root: &Vec<PathComponent>, task_id: &str, name: &str) -> (out:
    Result<(String, Vec<PathComponent>), Report>)
    ensures
        escapes_root_spec(task_export_relative_path_spec(task_id@, name@)) <==> out is Err,
        match out {
            Ok((rel, path)) => rel@ == task_export_relative_path_spec(task_id@, name@) && parts(
                path@,
            ) == join_relative_spec(parts(root@), rel@),
            Err(e) => e.message@ == "Task export path '"@ + task_export_relative_path_spec(
                task_id@,
                name@,
            ) + "' escapes the producer execution root"@,
        },
{
    resolve_task_export_relative_path(root, task_export_relative_path(task_id, name))
}

/// One export's content as a reader sees it.
#[derive(Debug)]
pub enum TaskExportContent {
    /// Nonblank text, trimmed.
    Available(String),
    /// Missing or blank; where it was looked for, and a pre-qualification
    /// export under the local id when one exists.
    Unavailable { relative: String, path: Vec<PathComponent>, legacy: Option<(String, Vec<PathComponent>)> },
}

/// Load one export from what its location held: `read` is the file's text,
/// `None` when there is no file, and `legacy` the pre-qualification export
/// under the task's local id when that file exists. Nonblank text is the
/// export, trimmed; an absent or blank file is unavailable, with the paths a
/// repair message names. A path that escapes the root is refused first.
pub fn load_task_export(
    root: &Vec<PathComponent>,
    task_id: &str,
    name: &str,
    read: Option<String>,
    legacy: Option<(String, Vec<PathComponent>)>,
) -> (out: Result<TaskExportContent, Report>)
    ensures
        escapes_root_spec(task_export_relative_path_spec(task_id@, name@)) <==> out is Err,
        out matches Err(e) ==> e.message@ == "Task export path '"@ + task_export_relative_path_spec(
            task_id@,
            name@,
        ) + "' escapes the producer execution root"@,
        out matches Ok(c) ==> match read {
            Some(text) => trim(text@).len() > 0 ==> (c matches TaskExportContent::Available(t)
                && t@ == trim(text@)),
            None => true,
        },
        out matches Ok(c) ==> ((read is None || trim(read->0@).len() == 0) ==> (c matches TaskExportContent::Unavailable {
            relative: r,
            path: p,
            legacy: l,
        } && r@ == task_export_relative_path_spec(task_id@, name@) && parts(p@) == join_relative_spec(
            parts(root@),
            r@,
        ) && l == legacy)),
{
    let (relative, path) = match resolve_task_export_path(root, task_id, name) {
        Ok(found) => found,
        Err(e) => return Err(e),
    };
    if let Some(text) = &read {
        let cs = chars_of(text.as_str());
        let t = trim_vec(&cs);
        if t.len() > 0 {
            return Ok(TaskExportContent::Available(string_of(&t)));
        }
    }
    Ok(TaskExportContent::Unavailable { relative, path, legacy })
}

/// The repair line for one missing export, naming a legacy export to rename
/// when there is one.
pub open spec fn unavailable_line_spec(
    reference: Seq<char>,
    relative: Seq<char>,
    path: Seq<Part>,
    legacy: Option<Seq<Part>>,
) -> Seq<char> {
    let hint = match legacy {
        Some(p) => "; rename the pre-qualification export at '"@ + display_spec(p) + "'"@,
        None => seq![],
    };
    "- "@ + reference + " ("@ + relative + "; looked for at "@ + display_spec(path) + hint + ")"@
}

/// The repair line for one missing export.
pub fn unavailable_task_export_line(
    reference: &str,
    relative: &str,
    path: &Vec<PathComponent>,
    legacy: Option<&(String, Vec<PathComponent>)>,
) -> (out: String)
    ensures
        out@ == unavailable_line_spec(
            reference@,
            relative@,
            parts(path@),
            match legacy {
                Some(l) => Some(parts(l.1@)),
                None => None,
            },
        ),
{
    let mut out = String::new();
    push_str(&mut out, "- ");
    push_str(&mut out, reference);
    push_str(&mut out, " (");
    push_str(&mut out, relative);
    push_str(&mut out, "; looked for at ");
    let shown = display_path(path);
    push_str(&mut out, shown.as_str());
    let ghost mid = out@;
    match legacy {
        Some(l) => {
            push_str(&mut out, "; rename the pre-qualification export at '");
            let lp = display_path(&l.1);
            push_str(&mut out, lp.as_str());
            push_str(&mut out, "'");
        },
        None => {
            assert(out@ =~= mid + seq![]);
        },
    }
    push_str(&mut out, ")");
    out
}

/// The refusal of a terminal move: every export the task promised and that
/// is missing or blank, one repair line each, in declaration order.
pub open spec fn missing_exports_message(
    qualified_id: Seq<char>,
    terminal_state: Seq<char>,
    lines: Seq<Seq<char>>,
) -> Seq<char> {
    "Task "@ + qualified_id + " cannot enter terminal state '"@ + terminal_state
        + "'.\nMissing or blank declared exports:\n"@ + join(lines, "\n"@)
}

/// The repair lines of the unavailable exports among `exports`.
pub open spec fn unavailable_lines(exports: Seq<(String, TaskExportContent)>) -> Seq<Seq<char>>
    decreases exports.len(),
{
    if exports.len() == 0 {
        seq![]
    } else {
        let rest = unavailable_lines(exports.drop_last());
        match exports.last().1 {
            TaskExportContent::Available(_) => rest,
            TaskExportContent::Unavailable { relative, path, legacy } => rest.push(
                unavailable_line_spec(
                    exports.last().0@,
                    relative@,
                    parts(path@),
                    match legacy {
                        Some(l) => Some(parts(l.1@)),
                        None => None,
                    },
                ),
            ),
        }
    }
}

/// Refuse a successful terminal state until every declared export of the
/// task holds nonblank text. `exports` pairs each declared export name with what
/// its location holds.
/// A terminal move owes a repair line for exactly the declared exports that
/// are unavailable: there are none exactly when every export is available,
/// and each line belongs to one unavailable export.
pub proof fn no_repair_lines_exactly_when_every_export_is_available(exports: Seq<(String, TaskExportContent)>)
    ensures
        unavailable_lines(exports).len() == 0 <==> forall|i: int| 0 <= i < exports.len() ==> (#[trigger] exports[i]).1 is Available,
        unavailable_lines(exports).len() <= exports.len(),
    decreases exports.len(),
{
    if exports.len() > 0 {
        let init = exports.drop_last();
        no_repair_lines_exactly_when_every_export_is_available(init);
        if forall|i: int| 0 <= i < exports.len() ==> (#[trigger] exports[i]).1 is Available {
            assert forall|i: int| 0 <= i < init.len() implies (#[trigger] init[i]).1 is Available by {
                assert(init[i] == exports[i]);
            }
            assert(exports[exports.len() - 1].1 is Available);
        } else {
            let i = choose|i: int| 0 <= i < exports.len() && !((#[trigger] exports[i]).1 is Available);
            if i < exports.len() - 1 {
                assert(init[i] == exports[i]);
            }
        }
    }
}

pub fn ensure_declared_task_exports_exist(
    qualified_id: &str,
    terminal_state: &str,
    exports: &Vec<(String, TaskExportContent)>,
) -> (out: Result<(), Report>)
    ensures
        out is Ok <==> unavailable_lines(exports@).len() == 0,
        out is Ok <==> forall|i: int| 0 <= i < exports@.len() ==> (#[trigger] exports@[i]).1 is Available,
        match out {
            Ok(()) => true,
            Err(e) => e.message@ == missing_exports_message(
                qualified_id@,
                terminal_state@,
                unavailable_lines(exports@),
            ),
        },
{
    proof {
        no_repair_lines_exactly_when_every_export_is_available(exports@);
    }
    let mut lines: Vec<String> = Vec::new();
    let mut i: usize = 0;
    while i < exports.len()
        invariant
            i <= exports.len(),
            lines@.map_values(|l: String| l@) == unavailable_lines(exports@.take(i as int)),
        decreases exports.len() - i,
    {
        assert(exports@.take(i + 1).drop_last() =~= exports@.take(i as int));
        match &exports[i].1 {
            TaskExportContent::Available(_) => {},
            TaskExportContent::Unavailable { relative, path, legacy } => {
                let line = unavailable_task_export_line(
                    exports[i].0.as_str(),
                    relative.as_str(),
                    path,
                    match legacy {
                        Some(l) => Some(l),
                        None => None,
                    },
                );
                lines.push(line);
                assert(lines@.map_values(|l: String| l@) =~= unavailable_lines(
                    exports@.take(i as int),
                ).push(line@));
            },
        }
        i += 1;
    }
    assert(exports@.take(exports.len() as int) =~= exports@);
    if lines.len() == 0 {
        return Ok(());
    }
    let mut message = String::new();
    push_str(&mut message, "Task ");
    push_str(&mut message, qualified_id);
    push_str(&mut message, " cannot enter terminal state '");
    push_str(&mut message, terminal_state);
    push_str(&mut message, "'.\nMissing or blank declared exports:\n");
    let joined = join_strings(&lines, "\n");
    push_str(&mut message, joined.as_str());
    let mut help = String::new();
    push_str(&mut help, "write nonblank text to every declared export, then retry the transition");
    Err(Report::with_help(message, help))
}

} // verus!
