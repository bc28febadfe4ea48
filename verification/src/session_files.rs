//! The files-changed recap of a session report: which paths the session's
//! editing steps wrote, in first-write order, and how the recap names them.
use vstd::prelude::*;
use crate::json::{get, json_get, json_str, Json};
use crate::session_report::{fenced, fenced_spec, or_default, relative_to_root, relative_to_root_spec};
use crate::text::{join, join_strings, push_str, str_eq, usize_to_string, decimal};

verus! {

/// One editing step on one path.
#[derive(Debug)]
pub struct FileOperation {
    /// The lowercase tool name, or a Codex change kind.
    pub kind: String,
    pub arguments: Json,
    pub step: usize,
}

// ---------------------------------------------------------------------------
// The summary line of one file
// ---------------------------------------------------------------------------

/// How the recap names what an operation kind did.
pub open spec fn verb_of(kind: Seq<char>) -> Seq<char> {
    if kind == "write"@ {
        "written"@
    } else if kind == "create"@ {
        "created"@
    } else if kind == "edit"@ || kind == "multiedit"@ {
        "edited"@
    } else if kind == "add"@ {
        "added"@
    } else if kind == "update"@ {
        "updated"@
    } else {
        kind
    }
}

/// Kind and step of each operation.
pub open spec fn op_steps(ops: Seq<FileOperation>) -> Seq<(Seq<char>, nat)> {
    ops.map_values(|o: FileOperation| (o.kind@, o.step as nat))
}

/// Runs of operations with the same verb, each with its steps.
pub open spec fn step_groups(ops: Seq<(Seq<char>, nat)>) -> Seq<(Seq<char>, Seq<nat>)>
    decreases ops.len(),
{
    if ops.len() == 0 {
        seq![]
    } else {
        let g = step_groups(ops.drop_last());
        let v = verb_of(ops.last().0);
        if g.len() > 0 && g.last().0 == v {
            g.update(g.len() - 1, (v, g.last().1.push(ops.last().1)))
        } else {
            g.push((v, seq![ops.last().1]))
        }
    }
}

pub open spec fn step_list(steps: Seq<nat>) -> Seq<char> {
    join(steps.map_values(|n: nat| decimal(n)), ", "@)
}

/// `written in step 5`, `edited in steps 4, 6`.
pub open spec fn group_text(g: (Seq<char>, Seq<nat>)) -> Seq<char> {
    g.0 + " in "@ + (if g.1.len() == 1 {
        "step"@
    } else {
        "steps"@
    }) + " "@ + step_list(g.1)
}

pub open spec fn operation_summary_spec(ops: Seq<(Seq<char>, nat)>) -> Seq<char> {
    join(step_groups(ops).map_values(|g: (Seq<char>, Seq<nat>)| group_text(g)), ", "@)
}

fn verb<'a>(kind: &'a str) -> (v: &'a str)
    ensures
        v@ == verb_of(kind@),
{
    if str_eq(kind, "write") {
        "written"
    } else if str_eq(kind, "create") {
        "created"
    } else if str_eq(kind, "edit") || str_eq(kind, "multiedit") {
        "edited"
    } else if str_eq(kind, "add") {
        "added"
    } else if str_eq(kind, "update") {
        "updated"
    } else {
        kind
    }
}

pub open spec fn groups_view(g: Seq<(String, Vec<usize>)>) -> Seq<(Seq<char>, Seq<nat>)> {
    g.map_values(|e: (String, Vec<usize>)| (e.0@, e.1@.map_values(|n: usize| n as nat)))
}

fn step_text(steps: &Vec<usize>) -> (out: String)
    ensures
        out@ == step_list(steps@.map_values(|n: usize| n as nat)),
{
    let mut parts: Vec<String> = Vec::new();
    let mut i: usize = 0;
    while i < steps.len()
        invariant
            i <= steps.len(),
            parts@.map_values(|p: String| p@) == steps@.take(i as int).map_values(
                |n: usize| decimal(n as nat),
            ),
        decreases steps.len() - i,
    {
        let ghost before = parts@;
        parts.push(usize_to_string(steps[i]));
        assert(parts@.map_values(|p: String| p@) =~= before.map_values(|p: String| p@).push(
            decimal(steps@[i as int] as nat),
        ));
        assert(steps@.take(i + 1) =~= steps@.take(i as int).push(steps@[i as int]));
        assert(steps@.take(i + 1).map_values(|n: usize| decimal(n as nat)) =~= steps@.take(
            i as int,
        ).map_values(|n: usize| decimal(n as nat)).push(decimal(steps@[i as int] as nat)));
        i += 1;
    }
    assert(steps@.take(steps.len() as int) =~= steps@);
    assert(steps@.map_values(|n: usize| decimal(n as nat)) =~= steps@.map_values(
        |n: usize| n as nat,
    ).map_values(|n: nat| decimal(n)));
    join_strings(&parts, ", ")
}

/// How the recap names what the steps did to one file:
/// `written in step 2, edited in steps 4, 6`.
pub fn file_operation_summary(operations: &Vec<FileOperation>) -> (out: String)
    ensures
        out@ == operation_summary_spec(op_steps(operations@)),
{
    let ghost ops = op_steps(operations@);
    let mut groups: Vec<(String, Vec<usize>)> = Vec::new();
    let mut i: usize = 0;
    while i < operations.len()
        invariant
            i <= operations.len(),
            ops == op_steps(operations@),
            groups_view(groups@) == step_groups(ops.take(i as int)),
        decreases operations.len() - i,
    {
        let op = &operations[i];
        let v = verb(op.kind.as_str());
        assert(ops.take(i + 1).drop_last() =~= ops.take(i as int));
        assert(ops.take(i + 1).last() == ops[i as int]);
        let ghost g = groups_view(groups@);
        let n = groups.len();
        let extend = n > 0 && str_eq(groups[n - 1].0.as_str(), v);
        if extend {
            let (last_verb, mut steps) = groups.pop().unwrap();
            steps.push(op.step);
            groups.push((last_verb, steps));
            assert(groups_view(groups@) =~~= g.update(g.len() - 1, (v@, g.last().1.push(op.step as nat))));
        } else {
            let mut steps: Vec<usize> = Vec::new();
            steps.push(op.step);
            groups.push((v.to_string(), steps));
            assert(groups_view(groups@) =~~= g.push((v@, seq![op.step as nat])));
        }
        i += 1;
    }
    assert(ops.take(operations.len() as int) =~= ops);
    let mut texts: Vec<String> = Vec::new();
    let ghost gs = step_groups(ops);
    let mut k: usize = 0;
    while k < groups.len()
        invariant
            k <= groups.len(),
            groups_view(groups@) == gs,
            texts@.map_values(|p: String| p@) == gs.take(k as int).map_values(
                |g: (Seq<char>, Seq<nat>)| group_text(g),
            ),
        decreases groups.len() - k,
    {
        let mut t = String::new();
        crate::text::push_str(&mut t, groups[k].0.as_str());
        crate::text::push_str(&mut t, " in ");
        crate::text::push_str(&mut t, if groups[k].1.len() == 1 { "step" } else { "steps" });
        crate::text::push_str(&mut t, " ");
        let list = step_text(&groups[k].1);
        crate::text::push_str(&mut t, list.as_str());
        assert(gs[k as int] == (groups@[k as int].0@, groups@[k as int].1@.map_values(|n: usize| n as nat)));
        assert(t@ =~= group_text(gs[k as int]));
        let ghost before = texts@;
        texts.push(t);
        assert(texts@.map_values(|p: String| p@) =~= before.map_values(|p: String| p@).push(
            group_text(gs[k as int]),
        ));
        assert(gs.take(k + 1) =~= gs.take(k as int).push(gs[k as int]));
        assert(gs.take(k + 1).map_values(|g: (Seq<char>, Seq<nat>)| group_text(g)) =~= gs.take(
            k as int,
        ).map_values(|g: (Seq<char>, Seq<nat>)| group_text(g)).push(group_text(gs[k as int])));
        k += 1;
    }
    assert(gs.take(groups.len() as int) =~= gs);
    join_strings(&texts, ", ")
}

// ---------------------------------------------------------------------------
// Old/new pairs of an editing call
// ---------------------------------------------------------------------------

/// `a.or_else(|| b)` on looked-up members.
pub open spec fn or_member(a: Option<Json>, b: Option<Json>) -> Option<Json> {
    if a is Some {
        a
    } else {
        b
    }
}

/// The old/new pair one edit records, when it records either side.
pub open spec fn one_pair_spec(e: Json) -> Option<(Seq<char>, Seq<char>)> {
    let old = json_str(or_member(json_get(e, "oldText"@), json_get(e, "old_string"@)));
    let new = json_str(or_member(json_get(e, "newText"@), json_get(e, "new_string"@)));
    if old is None && new is None {
        None
    } else {
        Some((or_default(old, seq![]), or_default(new, seq![])))
    }
}

/// The pairs of a list of edits, skipping those that record neither side.
pub open spec fn pairs_of(edits: Seq<Json>) -> Seq<(Seq<char>, Seq<char>)>
    decreases edits.len(),
{
    if edits.len() == 0 {
        seq![]
    } else {
        let rest = pairs_of(edits.drop_last());
        match one_pair_spec(edits.last()) {
            Some(p) => rest.push(p),
            None => rest,
        }
    }
}

/// The pairs one editing call records: a MultiEdit-style `edits` list, or
/// the single pair its arguments carry directly.
pub open spec fn edit_pairs_spec(args: Json) -> Seq<(Seq<char>, Seq<char>)> {
    match json_get(args, "edits"@) {
        Some(Json::Array(es)) => pairs_of(es@),
        _ => match one_pair_spec(args) {
            Some(p) => seq![p],
            None => seq![],
        },
    }
}

pub open spec fn pairs_view(v: Seq<(String, String)>) -> Seq<(Seq<char>, Seq<char>)> {
    v.map_values(|p: (String, String)| (p.0@, p.1@))
}

/// The text of a member, looking under a second name when the first is absent.
fn member_text<'a>(e: &'a Json, first: &str, second: &str) -> (out: Option<&'a str>)
    ensures
        match out {
            Some(t) => json_str(or_member(json_get(*e, first@), json_get(*e, second@))) == Some(t@),
            None => json_str(or_member(json_get(*e, first@), json_get(*e, second@))) is None,
        },
{
    let found = match get(e, first) {
        Some(v) => Some(v),
        None => get(e, second),
    };
    match found {
        Some(Json::Str(t)) => Some(t.as_str()),
        _ => None,
    }
}

fn one_pair(e: &Json) -> (out: Option<(String, String)>)
    ensures
        match out {
            Some(p) => one_pair_spec(*e) == Some((p.0@, p.1@)),
            None => one_pair_spec(*e) is None,
        },
{
    let old = member_text(e, "oldText", "old_string");
    let new = member_text(e, "newText", "new_string");
    if old.is_none() && new.is_none() {
        return None;
    }
    let o = match old {
        Some(t) => t.to_string(),
        None => String::new(),
    };
    let n = match new {
        Some(t) => t.to_string(),
        None => String::new(),
    };
    Some((o, n))
}

/// The old/new pairs one editing call records.
pub fn edit_pairs(arguments: &Json) -> (out: Vec<(String, String)>)
    ensures
        pairs_view(out@) == edit_pairs_spec(*arguments),
{
    let mut out: Vec<(String, String)> = Vec::new();
    match get(arguments, "edits") {
        Some(Json::Array(edits)) => {
            let mut i: usize = 0;
            while i < edits.len()
                invariant
                    i <= edits.len(),
                    pairs_view(out@) == pairs_of(edits@.take(i as int)),
                decreases edits.len() - i,
            {
                assert(edits@.take(i + 1).drop_last() =~= edits@.take(i as int));
                assert(edits@.take(i + 1).last() == edits@[i as int]);
                let ghost before = out@;
                if let Some(p) = one_pair(&edits[i]) {
                    out.push(p);
                    assert(pairs_view(out@) =~= pairs_view(before).push((p.0@, p.1@)));
                }
                i += 1;
            }
            assert(edits@.take(edits.len() as int) =~= edits@);
        },
        _ => {
            if let Some(p) = one_pair(arguments) {
                out.push(p);
                assert(pairs_view(out@) =~= seq![(p.0@, p.1@)]);
            } else {
                assert(pairs_view(out@) =~= seq![]);
            }
        },
    }
    out
}

// ---------------------------------------------------------------------------
// Which paths the editing steps wrote
// ---------------------------------------------------------------------------

/// The lowercase ASCII letters, in order.
pub open spec fn lowercase_letters() -> Seq<char> {
    seq![
        'a', 'b', 'c', 'd', 'e', 'f', 'g', 'h', 'i', 'j', 'k', 'l', 'm', 'n', 'o', 'p', 'q', 'r',
        's', 't', 'u', 'v', 'w', 'x', 'y', 'z',
    ]
}

/// `char::to_ascii_lowercase`.
pub open spec fn lower_char(c: char) -> char {
    if 'A' <= c <= 'Z' {
        lowercase_letters()[c as int - 'A' as int]
    } else {
        c
    }
}

/// `str::to_ascii_lowercase`.
pub open spec fn ascii_lower(s: Seq<char>) -> Seq<char> {
    s.map_values(|c: char| lower_char(c))
}

fn ascii_lowercase(s: &str) -> (out: String)
    ensures
        out@ == ascii_lower(s@),
{
    let letters: [char; 26] = [
        'a', 'b', 'c', 'd', 'e', 'f', 'g', 'h', 'i', 'j', 'k', 'l', 'm', 'n', 'o', 'p', 'q', 'r',
        's', 't', 'u', 'v', 'w', 'x', 'y', 'z',
    ];
    assert(letters@ =~= lowercase_letters());
    let cs = crate::text::chars_of(s);
    let mut out = String::new();
    let mut i: usize = 0;
    while i < cs.len()
        invariant
            i <= cs.len(),
            cs@ == s@,
            letters@ == lowercase_letters(),
            out@ == ascii_lower(cs@.take(i as int)),
        decreases cs.len() - i,
    {
        let c = cs[i];
        let l = if 'A' <= c && c <= 'Z' {
            letters[(c as u32 - 65) as usize]
        } else {
            c
        };
        assert(l == lower_char(c));
        out.push(l);
        assert(cs@.take(i + 1) =~= cs@.take(i as int).push(c));
        assert(ascii_lower(cs@.take(i + 1)) =~= ascii_lower(cs@.take(i as int)).push(l));
        i += 1;
    }
    assert(cs@.take(cs.len() as int) =~= cs@);
    out
}

/// One operation by view: kind, arguments, step.
pub open spec fn op_view(o: FileOperation) -> (Seq<char>, Json, nat) {
    (o.kind@, o.arguments, o.step as nat)
}

pub open spec fn ops_view(ops: Seq<FileOperation>) -> Seq<(Seq<char>, Json, nat)> {
    ops.map_values(|o: FileOperation| op_view(o))
}

/// The written files by view: path and operations, in first-write order.
pub open spec fn files_view(files: Seq<(String, Vec<FileOperation>)>) -> Seq<
    (Seq<char>, Seq<(Seq<char>, Json, nat)>),
> {
    files.map_values(|e: (String, Vec<FileOperation>)| (e.0@, ops_view(e.1@)))
}

/// Where `path` first stands, or the length when it is absent.
pub open spec fn first_index(
    files: Seq<(Seq<char>, Seq<(Seq<char>, Json, nat)>)>,
    path: Seq<char>,
) -> int
    decreases files.len(),
{
    if files.len() == 0 {
        0
    } else if files[0].0 == path {
        0
    } else {
        1 + first_index(files.drop_first(), path)
    }
}

/// `files` with `op` recorded against `path`: appended to its entry, or a
/// new entry at the end.
pub open spec fn add_op(
    files: Seq<(Seq<char>, Seq<(Seq<char>, Json, nat)>)>,
    path: Seq<char>,
    op: (Seq<char>, Json, nat),
) -> Seq<(Seq<char>, Seq<(Seq<char>, Json, nat)>)> {
    let i = first_index(files, path);
    if i < files.len() {
        files.update(i, (files[i].0, files[i].1.push(op)))
    } else {
        files.push((path, seq![op]))
    }
}

proof fn lemma_first_index(
    files: Seq<(Seq<char>, Seq<(Seq<char>, Json, nat)>)>,
    path: Seq<char>,
    i: int,
)
    requires
        0 <= i <= files.len(),
        forall|j: int| 0 <= j < i ==> (#[trigger] files[j]).0 != path,
        i == files.len() || files[i].0 == path,
    ensures
        first_index(files, path) == i,
    decreases i,
{
    if i > 0 {
        assert forall|j: int| 0 <= j < i - 1 implies (#[trigger] files.drop_first()[j]).0 != path by {
            assert(files.drop_first()[j] == files[j + 1]);
        }
        if i < files.len() {
            assert(files.drop_first()[i - 1] == files[i]);
        }
        lemma_first_index(files.drop_first(), path, i - 1);
    }
}

/// Record `op` against `path`.
fn record(files: &mut Vec<(String, Vec<FileOperation>)>, path: &str, op: FileOperation)
    ensures
        files_view(final(files)@) == add_op(files_view(old(files)@), path@, op_view(op)),
{
    let ghost fv = files_view(files@);
    let mut i: usize = 0;
    while i < files.len()
        invariant
            i <= files.len(),
            fv == files_view(files@),
            forall|j: int| 0 <= j < i ==> (#[trigger] fv[j]).0 != path@,
        ensures
            i <= files.len(),
            fv == files_view(files@),
            forall|j: int| 0 <= j < i ==> (#[trigger] fv[j]).0 != path@,
            i == files.len() || fv[i as int].0 == path@,
        decreases files.len() - i,
    {
        if str_eq(files[i].0.as_str(), path) {
            break;
        }
        i += 1;
    }
    proof {
        lemma_first_index(fv, path@, i as int);
    }
    if i < files.len() {
        let (known, mut ops) = files.remove(i);
        let ghost before = ops@;
        let ghost opv = op_view(op);
        ops.push(op);
        assert(ops_view(ops@) =~= ops_view(before).push(opv));
        files.insert(i, (known, ops));
        assert(files_view(files@) =~~= add_op(fv, path@, opv));
    } else {
        let ghost opv = op_view(op);
        let mut ops: Vec<FileOperation> = Vec::new();
        ops.push(op);
        assert(ops_view(ops@) =~= seq![opv]);
        files.push((path.to_string(), ops));
        assert(files_view(files@) =~~= add_op(fv, path@, opv));
    }
}

/// No path stands twice.
pub open spec fn paths_distinct(files: Seq<(Seq<char>, Seq<OpView>)>) -> bool {
    forall|a: int, b: int|
        0 <= a < b < files.len() ==> (#[trigger] files[a]).0 != (#[trigger] files[b]).0
}

proof fn lemma_first_index_bounds(files: Seq<(Seq<char>, Seq<OpView>)>, path: Seq<char>)
    ensures
        0 <= first_index(files, path) <= files.len(),
        first_index(files, path) < files.len() ==> files[first_index(files, path)].0 == path,
        forall|j: int| 0 <= j < first_index(files, path) ==> (#[trigger] files[j]).0 != path,
    decreases files.len(),
{
    if files.len() > 0 && files[0].0 != path {
        lemma_first_index_bounds(files.drop_first(), path);
        assert forall|j: int| 0 <= j < first_index(files, path) implies (#[trigger] files[j]).0 != path by {
            if j > 0 {
                assert(files[j] == files.drop_first()[j - 1]);
            }
        }
    }
}

/// Recording an operation keeps the paths distinct.
pub proof fn lemma_add_op_distinct(
    files: Seq<(Seq<char>, Seq<OpView>)>,
    path: Seq<char>,
    op: OpView,
)
    requires
        paths_distinct(files),
    ensures
        paths_distinct(add_op(files, path, op)),
        add_op(files, path, op).len() >= files.len(),
{
    lemma_first_index_bounds(files, path);
    let r = add_op(files, path, op);
    assert forall|a: int, b: int| 0 <= a < b < r.len() implies (#[trigger] r[a]).0 != (#[trigger] r[b]).0 by {
        if first_index(files, path) < files.len() {
            assert(r[a].0 == files[a].0);
            assert(r[b].0 == files[b].0);
        } else if b == files.len() {
            assert(r[a] == files[a]);
        } else {
            assert(r[a] == files[a]);
            assert(r[b] == files[b]);
        }
    }
}

/// The changes of a Codex file-change item recorded in order; a change
/// without a path, and a deletion, are not recorded.
pub open spec fn record_changes(
    files: Seq<(Seq<char>, Seq<(Seq<char>, Json, nat)>)>,
    changes: Seq<Json>,
    step: nat,
) -> Seq<(Seq<char>, Seq<(Seq<char>, Json, nat)>)>
    decreases changes.len(),
{
    if changes.len() == 0 {
        files
    } else {
        let before = record_changes(files, changes.drop_last(), step);
        let change = changes.last();
        match json_str(json_get(change, "path"@)) {
            None => before,
            Some(path) => {
                let kind = or_default(json_str(json_get(change, "kind"@)), "change"@);
                if kind == "delete"@ {
                    before
                } else {
                    add_op(before, path, (kind, Json::Null, step))
                }
            },
        }
    }
}

proof fn lemma_record_changes_distinct(
    files: Seq<(Seq<char>, Seq<OpView>)>,
    changes: Seq<Json>,
    step: nat,
)
    requires
        paths_distinct(files),
    ensures
        paths_distinct(record_changes(files, changes, step)),
    decreases changes.len(),
{
    if changes.len() > 0 {
        lemma_record_changes_distinct(files, changes.drop_last(), step);
        let before = record_changes(files, changes.drop_last(), step);
        let change = changes.last();
        if let Some(path) = json_str(json_get(change, "path"@)) {
            let kind = or_default(json_str(json_get(change, "kind"@)), "change"@);
            lemma_add_op_distinct(before, path, (kind, Json::Null, step));
        }
    }
}

/// Noting a tool call keeps the recap's paths distinct.
pub proof fn lemma_note_written_file_distinct(
    files: Seq<(Seq<char>, Seq<OpView>)>,
    name: Seq<char>,
    arguments: Json,
    step: nat,
)
    requires
        paths_distinct(files),
    ensures
        paths_distinct(note_written_file_spec(files, name, arguments, step)),
{
    let lname = ascii_lower(name);
    if lname == "file_change"@ {
        if let Some(Json::Array(cs)) = json_get(arguments, "changes"@) {
            lemma_record_changes_distinct(files, cs@, step);
        }
    } else if is_writing_tool(lname) {
        if let Some(path) = json_str(or_member(json_get(arguments, "path"@), json_get(arguments, "file_path"@))) {
            lemma_add_op_distinct(files, path, (lname, arguments, step));
        }
    }
}

/// Whether a lowercase tool name is one that writes files.
pub open spec fn is_writing_tool(name: Seq<char>) -> bool {
    name == "write"@ || name == "create"@ || name == "edit"@ || name == "multiedit"@
}

/// What one tool call adds to the written files.
pub open spec fn note_written_file_spec(
    files: Seq<(Seq<char>, Seq<(Seq<char>, Json, nat)>)>,
    name: Seq<char>,
    arguments: Json,
    step: nat,
) -> Seq<(Seq<char>, Seq<(Seq<char>, Json, nat)>)> {
    let lname = ascii_lower(name);
    if lname == "file_change"@ {
        match json_get(arguments, "changes"@) {
            Some(Json::Array(cs)) => record_changes(files, cs@, step),
            _ => files,
        }
    } else if is_writing_tool(lname) {
        match json_str(or_member(json_get(arguments, "path"@), json_get(arguments, "file_path"@))) {
            Some(path) => add_op(files, path, (lname, arguments, step)),
            None => files,
        }
    } else {
        files
    }
}

/// Track the paths an editing tool call wrote, in first-write order, with
/// the step that wrote them. Tool names are compared in lowercase; a Codex
/// `file_change` item names its paths and change kinds, and its deletions
/// are left out.
pub fn note_written_file(
    files: &mut Vec<(String, Vec<FileOperation>)>,
    name: &str,
    arguments: Json,
    step: usize,
)
    ensures
        files_view(final(files)@) == note_written_file_spec(
            files_view(old(files)@),
            name@,
            arguments,
            step as nat,
        ),
{
    let lname = ascii_lowercase(name);
    if str_eq(lname.as_str(), "file_change") {
        if let Some(Json::Array(changes)) = get(&arguments, "changes") {
            let ghost start = files_view(files@);
            let mut i: usize = 0;
            while i < changes.len()
                invariant
                    i <= changes.len(),
                    files_view(files@) == record_changes(start, changes@.take(i as int), step as nat),
                decreases changes.len() - i,
            {
                assert(changes@.take(i + 1).drop_last() =~= changes@.take(i as int));
                assert(changes@.take(i + 1).last() == changes@[i as int]);
                let change = &changes[i];
                if let Some(Json::Str(path)) = get(change, "path") {
                    let kind: &str = match get(change, "kind") {
                        Some(Json::Str(k)) => k.as_str(),
                        _ => "change",
                    };
                    if !str_eq(kind, "delete") {
                        let op = FileOperation { kind: kind.to_string(), arguments: Json::Null, step };
                        record(files, path.as_str(), op);
                    }
                }
                i += 1;
            }
            assert(changes@.take(changes.len() as int) =~= changes@);
        }
        return;
    }
    let writing = str_eq(lname.as_str(), "write") || str_eq(lname.as_str(), "create") || str_eq(
        lname.as_str(),
        "edit",
    ) || str_eq(lname.as_str(), "multiedit");
    if !writing {
        return;
    }
    let path: String = match member_text(&arguments, "path", "file_path") {
        Some(p) => p.to_string(),
        None => {
            return;
        },
    };
    let op = FileOperation { kind: lname, arguments, step };
    record(files, path.as_str(), op);
}

// ---------------------------------------------------------------------------
// The recap section
// ---------------------------------------------------------------------------

pub type OpView = (Seq<char>, Json, nat);

/// The last operation that wrote a whole file.
pub open spec fn last_write(ops: Seq<OpView>) -> Option<OpView>
    decreases ops.len(),
{
    if ops.len() == 0 {
        None
    } else if ops.last().0 == "write"@ || ops.last().0 == "create"@ {
        Some(ops.last())
    } else {
        last_write(ops.drop_last())
    }
}

/// Every old/new pair of the operations, with its step.
pub open spec fn step_pairs(ops: Seq<OpView>) -> Seq<(nat, Seq<char>, Seq<char>)>
    decreases ops.len(),
{
    if ops.len() == 0 {
        seq![]
    } else {
        let op = ops.last();
        step_pairs(ops.drop_last()) + edit_pairs_spec(op.1).map_values(
            |p: (Seq<char>, Seq<char>)| (op.2, p.0, p.1),
        )
    }
}

pub open spec fn pair_text(p: (nat, Seq<char>, Seq<char>)) -> Seq<char> {
    "Step "@ + decimal(p.0) + " replaced:\n"@ + fenced_spec(p.1) + "with:\n"@ + fenced_spec(p.2)
}

pub open spec fn pairs_text(ps: Seq<(nat, Seq<char>, Seq<char>)>) -> Seq<char>
    decreases ps.len(),
{
    if ps.len() == 0 {
        seq![]
    } else {
        pairs_text(ps.drop_last()) + pair_text(ps.last())
    }
}

/// Kind and step of each operation view.
pub open spec fn view_steps(ops: Seq<OpView>) -> Seq<(Seq<char>, nat)> {
    ops.map_values(|o: OpView| (o.0, o.2))
}

/// The text written by an operation, when it recorded one.
pub open spec fn written_content(op: Option<OpView>) -> Option<Seq<char>> {
    match op {
        Some(o) => json_str(json_get(o.1, "content"@)),
        None => None,
    }
}

/// One file of the recap: its heading, then the content its last whole-file
/// write recorded, or else the edits its steps made, if any.
pub open spec fn file_section(entry: (Seq<char>, Seq<OpView>), root: Option<Seq<char>>) -> Seq<char> {
    let head = "### `"@ + relative_to_root_spec(entry.0, root) + "` — "@ + operation_summary_spec(
        view_steps(entry.1),
    ) + "\n\n"@;
    match written_content(last_write(entry.1)) {
        Some(c) => head + "<details><summary>content written in step "@ + decimal(
            last_write(entry.1).unwrap().2,
        ) + "</summary>\n\n"@ + fenced_spec(c) + "\n</details>\n\n"@,
        None => {
            let ps = step_pairs(entry.1);
            if ps.len() == 0 {
                head
            } else {
                head + "<details><summary>edits</summary>\n\n"@ + pairs_text(ps)
                    + "\n</details>\n\n"@
            }
        },
    }
}

pub open spec fn sections(
    files: Seq<(Seq<char>, Seq<OpView>)>,
    root: Option<Seq<char>>,
) -> Seq<char>
    decreases files.len(),
{
    if files.len() == 0 {
        seq![]
    } else {
        sections(files.drop_last(), root) + file_section(files.last(), root)
    }
}

/// The files-changed recap: nothing when no file was written.
pub open spec fn files_changed_spec(
    files: Seq<(Seq<char>, Seq<OpView>)>,
    root: Option<Seq<char>>,
) -> Seq<char> {
    if files.len() == 0 {
        seq![]
    } else {
        "## Files produced\n\n_A recap of the editing steps above, grouped by file._\n\n"@
            + sections(files, root)
    }
}

pub open spec fn str_opt(o: Option<&str>) -> Option<Seq<char>> {
    match o {
        Some(s) => Some(s@),
        None => None,
    }
}

fn last_write_index(ops: &Vec<FileOperation>) -> (out: Option<usize>)
    ensures
        match out {
            Some(k) => k < ops@.len() && last_write(ops_view(ops@)) == Some(op_view(ops@[k as int])),
            None => last_write(ops_view(ops@)) is None,
        },
{
    let ghost v = ops_view(ops@);
    let mut n = ops.len();
    assert(v.take(n as int) =~= v);
    while n > 0
        invariant
            n <= ops@.len(),
            v == ops_view(ops@),
            last_write(v) == last_write(v.take(n as int)),
        decreases n,
    {
        let k = n - 1;
        assert(v.take(n as int).last() == v[k as int]);
        assert(v.take(n as int).drop_last() =~= v.take(k as int));
        if str_eq(ops[k].kind.as_str(), "write") || str_eq(ops[k].kind.as_str(), "create") {
            return Some(k);
        }
        n = k;
    }
    None
}

fn push_pairs(out: &mut String, ops: &Vec<FileOperation>) -> (any: bool)
    ensures
        final(out)@ == old(out)@ + pairs_text(step_pairs(ops_view(ops@))),
        any == (step_pairs(ops_view(ops@)).len() > 0),
{
    let ghost v = ops_view(ops@);
    let mut any = false;
    let mut i: usize = 0;
    while i < ops.len()
        invariant
            i <= ops.len(),
            v == ops_view(ops@),
            out@ == old(out)@ + pairs_text(step_pairs(v.take(i as int))),
            any == (step_pairs(v.take(i as int)).len() > 0),
        decreases ops.len() - i,
    {
        assert(v.take(i + 1).drop_last() =~= v.take(i as int));
        assert(v.take(i + 1).last() == v[i as int]);
        let ghost prefix = step_pairs(v.take(i as int));
        let pairs = edit_pairs(&ops[i].arguments);
        let ghost mapped = edit_pairs_spec(ops@[i as int].arguments).map_values(
            |p: (Seq<char>, Seq<char>)| (ops@[i as int].step as nat, p.0, p.1),
        );
        assert(step_pairs(v.take(i + 1)) == prefix + mapped);
        let mut j: usize = 0;
        while j < pairs.len()
            invariant
                j <= pairs.len(),
                i < ops.len(),
                pairs_view(pairs@) == edit_pairs_spec(ops@[i as int].arguments),
                mapped.len() == pairs@.len(),
                forall|q: int| 0 <= q < mapped.len() ==> #[trigger] mapped[q] == (ops@[i as int].step as nat, pairs@[q].0@, pairs@[q].1@),
                out@ == old(out)@ + pairs_text(prefix + mapped.take(j as int)),
                any == ((prefix + mapped.take(j as int)).len() > 0),
            decreases pairs.len() - j,
        {
            assert((prefix + mapped.take(j + 1)).drop_last() =~= prefix + mapped.take(j as int));
            assert((prefix + mapped.take(j + 1)).last() == mapped[j as int]);
            push_str(out, "Step ");
            let n = usize_to_string(ops[i].step);
            push_str(out, n.as_str());
            push_str(out, " replaced:\n");
            let f = fenced(pairs[j].0.as_str());
            push_str(out, f.as_str());
            push_str(out, "with:\n");
            let g = fenced(pairs[j].1.as_str());
            push_str(out, g.as_str());
            any = true;
            j += 1;
            assert(out@ =~= old(out)@ + pairs_text(prefix + mapped.take(j as int)));
        }
        assert(mapped.take(pairs.len() as int) =~= mapped);
        i += 1;
    }
    assert(v.take(ops.len() as int) =~= v);
    any
}

proof fn lemma_view_steps(ops: Seq<FileOperation>)
    ensures
        view_steps(ops_view(ops)) == op_steps(ops),
{
    assert(view_steps(ops_view(ops)) =~= op_steps(ops));
}

fn push_file_section(out: &mut String, path: &String, ops: &Vec<FileOperation>, root: Option<&str>)
    ensures
        final(out)@ == old(out)@ + file_section((path@, ops_view(ops@)), str_opt(root)),
{
    let ghost entry = (path@, ops_view(ops@));
    push_str(out, "### `");
    let rel = relative_to_root(path.as_str(), root);
    push_str(out, rel.as_str());
    push_str(out, "` — ");
    let summary = file_operation_summary(ops);
    proof {
        lemma_view_steps(ops@);
    }
    push_str(out, summary.as_str());
    push_str(out, "\n\n");
    let ghost head = out@;
    assert(head =~= old(out)@ + ("### `"@ + relative_to_root_spec(path@, str_opt(root)) + "` — "@
        + operation_summary_spec(view_steps(entry.1)) + "\n\n"@));
    if let Some(k) = last_write_index(ops) {
        if let Some(Json::Str(content)) = get(&ops[k].arguments, "content") {
            push_str(out, "<details><summary>content written in step ");
            let n = usize_to_string(ops[k].step);
            push_str(out, n.as_str());
            push_str(out, "</summary>\n\n");
            let f = fenced(content.as_str());
            push_str(out, f.as_str());
            push_str(out, "\n</details>\n\n");
            assert(final(out)@ =~= old(out)@ + file_section(entry, str_opt(root)));
            return;
        }
    }
    let mut pairs_out = String::new();
    let any = push_pairs(&mut pairs_out, ops);
    assert(pairs_out@ =~= seq![] + pairs_text(step_pairs(entry.1)));
    if any {
        push_str(out, "<details><summary>edits</summary>\n\n");
        push_str(out, pairs_out.as_str());
        push_str(out, "\n</details>\n\n");
    }
    assert(final(out)@ =~= old(out)@ + file_section(entry, str_opt(root)));
}

/// Append the files-changed recap: what this session wrote, from its
/// tool-call arguments, each file naming the steps that wrote it.
pub fn render_files_changed(
    out: &mut String,
    files: &Vec<(String, Vec<FileOperation>)>,
    root: Option<&str>,
)
    ensures
        final(out)@ == old(out)@ + files_changed_spec(files_view(files@), str_opt(root)),
{
    let ghost fv = files_view(files@);
    if files.len() == 0 {
        assert(old(out)@ + seq![] =~= old(out)@);
        return;
    }
    push_str(
        out,
        "## Files produced\n\n_A recap of the editing steps above, grouped by file._\n\n",
    );
    let ghost head = out@;
    let mut i: usize = 0;
    assert(head =~= head + sections(fv.take(0), str_opt(root)));
    while i < files.len()
        invariant
            i <= files.len(),
            fv == files_view(files@),
            out@ == head + sections(fv.take(i as int), str_opt(root)),
        decreases files.len() - i,
    {
        assert(fv.take(i + 1).drop_last() =~= fv.take(i as int));
        assert(fv.take(i + 1).last() == fv[i as int]);
        push_file_section(out, &files[i].0, &files[i].1, root);
        i += 1;
        assert(out@ =~= head + sections(fv.take(i as int), str_opt(root)));
    }
    assert(fv.take(files.len() as int) =~= fv);
}

} // verus!
