//! Names beside an output directory: the next free `<name>-<n>` sibling to
//! suggest, and the hidden staging directory an instantiation is built in.
//! Which names are taken is the caller's reading of the filesystem.
use vstd::prelude::*;
use crate::paths::{clone_component, clone_path, file_name_spec, has_prefix, join_name, parent_spec, parts, path_starts_with, Part, PathComponent};
use crate::text::{decimal, push_str, u64_to_string, usize_to_string};

verus! {

/// The directory siblings of `p` live in: its parent, or `.`.
pub open spec fn sibling_dir(p: Seq<Part>) -> Seq<Part> {
    match parent_spec(p) {
        Some(q) => q,
        None => seq![Part::Cur],
    }
}

/// The `<name>-<n>` sibling of a path whose file name is `name`.
pub open spec fn numbered_sibling(p: Seq<Part>, name: Seq<char>, n: nat) -> Seq<Part> {
    sibling_dir(p).push(Part::Normal(name + "-"@ + decimal(n)))
}

fn dir_of(path: &Vec<PathComponent>) -> (out: Vec<PathComponent>)
    ensures
        parts(out@) == sibling_dir(parts(path@)),
{
    match crate::paths::parent(path) {
        Some(q) => q,
        None => {
            let mut out: Vec<PathComponent> = Vec::new();
            out.push(PathComponent::CurDir);
            assert(parts(out@) =~= seq![Part::Cur]);
            out
        },
    }
}

fn last_name(path: &Vec<PathComponent>) -> (out: Option<&str>)
    ensures
        match out {
            Some(n) => file_name_spec(parts(path@)) == Some(n@),
            None => file_name_spec(parts(path@)) is None,
        },
{
    if path.len() == 0 {
        return None;
    }
    match &path[path.len() - 1] {
        PathComponent::Normal(n) => Some(n.as_str()),
        _ => None,
    }
}

/// The `<name>-<n>` sibling of `path`, when it has a file name.
pub fn numbered_sibling_path(path: &Vec<PathComponent>, n: u64) -> (out: Option<Vec<PathComponent>>)
    ensures
        match out {
            Some(q) => file_name_spec(parts(path@)) matches Some(name) && parts(q@) == numbered_sibling(
                parts(path@),
                name,
                n as nat,
            ),
            None => file_name_spec(parts(path@)) is None,
        },
{
    let name = match last_name(path) {
        Some(name) => name,
        None => {
            return None;
        },
    };
    let mut sibling = String::new();
    push_str(&mut sibling, name);
    push_str(&mut sibling, "-");
    let digits = u64_to_string(n);
    push_str(&mut sibling, digits.as_str());
    let dir = dir_of(path);
    Some(join_name(&dir, sibling))
}

/// The first index from `i` below `limit` that is not occupied.
pub open spec fn first_free(occupied: Seq<bool>, i: int, limit: int) -> Option<int>
    decreases limit - i,
{
    if i >= limit || i >= occupied.len() || i < 0 {
        None
    } else if !occupied[i] {
        Some(i)
    } else {
        first_free(occupied, i + 1, limit)
    }
}

/// The sibling suggested for an occupied output: the first `<name>-<n>`,
/// `n` from 2 to 99, that is free, else `<name>-copy`; the path itself when
/// it has no file name. `occupied[i]` says whether `<name>-<i + 2>` is taken.
pub open spec fn next_free_sibling_spec(p: Seq<Part>, occupied: Seq<bool>) -> Seq<Part> {
    match file_name_spec(p) {
        None => p,
        Some(name) => match first_free(occupied, 0, 98) {
            Some(i) => numbered_sibling(p, name, (i + 2) as nat),
            None => sibling_dir(p).push(Part::Normal(name + "-copy"@)),
        },
    }
}

/// The first free numbered sibling, given which of `<name>-2` to `<name>-99`
/// are taken: one answer per candidate.
pub fn next_free_sibling(path: &Vec<PathComponent>, occupied: &Vec<bool>) -> (out: Vec<PathComponent>)
    requires
        occupied.len() == 98,
    ensures
        parts(out@) == next_free_sibling_spec(parts(path@), occupied@),
{
    let name = match last_name(path) {
        Some(name) => name,
        None => {
            return clone_path(path);
        },
    };
    let mut i: usize = 0;
    while i < 98 && i < occupied.len()
        invariant
            i <= 98,
            file_name_spec(parts(path@)) == Some(name@),
            first_free(occupied@, 0, 98) == first_free(occupied@, i as int, 98),
        decreases 98 - i,
    {
        if !occupied[i] {
            let q = numbered_sibling_path(path, (i + 2) as u64);
            return q.unwrap();
        }
        i += 1;
    }
    let mut copy = String::new();
    push_str(&mut copy, name);
    push_str(&mut copy, "-copy");
    let dir = dir_of(path);
    join_name(&dir, copy)
}

/// The hidden staging candidates beside an output:
/// `.rhei-instantiate-<name>-<pid>-<sequence>`.
pub open spec fn staging_candidate(p: Seq<Part>, name: Seq<char>, pid: nat, sequence: nat) -> Seq<Part> {
    sibling_dir(p).push(
        Part::Normal(".rhei-instantiate-"@ + name + "-"@ + decimal(pid) + "-"@ + decimal(sequence)),
    )
}

/// Hidden staging candidate `sequence` beside `output`, when it has a file name.
pub fn staging_candidate_path(output: &Vec<PathComponent>, pid: u32, sequence: usize) -> (out: Option<
    Vec<PathComponent>,
>)
    ensures
        match out {
            Some(q) => file_name_spec(parts(output@)) matches Some(name) && parts(q@) == staging_candidate(
                parts(output@),
                name,
                pid as nat,
                sequence as nat,
            ),
            None => file_name_spec(parts(output@)) is None,
        },
{
    let name = match last_name(output) {
        Some(name) => name,
        None => {
            return None;
        },
    };
    let mut candidate = String::new();
    push_str(&mut candidate, ".rhei-instantiate-");
    push_str(&mut candidate, name);
    push_str(&mut candidate, "-");
    let p = usize_to_string(pid as usize);
    push_str(&mut candidate, p.as_str());
    push_str(&mut candidate, "-");
    let q = usize_to_string(sequence);
    push_str(&mut candidate, q.as_str());
    let dir = dir_of(output);
    Some(join_name(&dir, candidate))
}

/// Why no staging directory can be chosen: the output has no file name, or
/// all of candidates 0 to 1023 are taken (`occupied[s]` says whether
/// candidate `s` is).
pub open spec fn staging_error(p: Seq<Part>, occupied: Seq<bool>) -> Option<Seq<char>> {
    match file_name_spec(p) {
        None => Some("no usable final name"@),
        Some(_) => match first_free(occupied, 0, 1024) {
            Some(_) => None,
            None => Some("could not allocate a hidden staging directory"@),
        },
    }
}

/// Choose an unused hidden sibling of the output, so that the final rename
/// stays within one filesystem. `pid` is this process's id.
pub fn hidden_staging_path(
    output: &Vec<PathComponent>,
    output_display: &str,
    pid: u32,
    occupied: &Vec<bool>,
) -> (out: Result<Vec<PathComponent>, crate::report::Report>)
    ensures
        match out {
            Ok(q) => staging_error(parts(output@), occupied@) is None && parts(q@) == staging_candidate(
                parts(output@),
                file_name_spec(parts(output@))->0,
                pid as nat,
                first_free(occupied@, 0, 1024)->0 as nat,
            ),
            Err(e) => staging_error(parts(output@), occupied@) is Some && e.message@ == match file_name_spec(
                parts(output@),
            ) {
                None => "output path '"@ + output_display@ + "' has no usable final name"@,
                Some(_) => "could not allocate a hidden staging directory beside '"@ + output_display@
                    + "'"@,
            },
        },
{
    let name = match last_name(output) {
        Some(name) => name,
        None => {
            let mut m = String::new();
            push_str(&mut m, "output path '");
            push_str(&mut m, output_display);
            push_str(&mut m, "' has no usable final name");
            return Err(crate::report::Report::plain(m));
        },
    };
    let mut s: usize = 0;
    while s < 1024 && s < occupied.len()
        invariant
            s <= 1024,
            file_name_spec(parts(output@)) == Some(name@),
            first_free(occupied@, 0, 1024) == first_free(occupied@, s as int, 1024),
        decreases 1024 - s,
    {
        if !occupied[s] {
            return Ok(staging_candidate_path(output, pid, s).unwrap());
        }
        s += 1;
    }
    let mut m = String::new();
    push_str(&mut m, "could not allocate a hidden staging directory beside '");
    push_str(&mut m, output_display);
    push_str(&mut m, "'");
    let mut help = String::new();
    push_str(&mut help, "remove stale hidden .rhei-instantiate-* directories beside the output and retry");
    Err(crate::report::Report::with_help(m, help))
}

/// The directory git is asked about a standalone output from: the output's
/// parent, or `.` where that is missing or empty.
pub open spec fn probe_dir(p: Seq<Part>) -> Seq<Part> {
    match parent_spec(p) {
        Some(q) => if q.len() > 0 { q } else { seq![Part::Cur] },
        None => seq![Part::Cur],
    }
}

/// Where git is asked about a standalone output.
pub fn git_probe_dir(output: &Vec<PathComponent>) -> (out: Vec<PathComponent>)
    ensures
        parts(out@) == probe_dir(parts(output@)),
{
    let dir = dir_of(output);
    if dir.len() > 0 {
        return dir;
    }
    let mut out: Vec<PathComponent> = Vec::new();
    out.push(PathComponent::CurDir);
    assert(parts(out@) =~= seq![Part::Cur]);
    out
}

/// Whether a standalone workspace deserves the versioning note: it lies
/// inside a git work tree (`rev-parse` succeeded) and `check-ignore` answered
/// "not ignored" (exit code 1); any other answer leaves it unsaid.
pub fn standalone_versioning_reported(inside_work_tree: bool, check_ignore_code: Option<i32>) -> (b: bool)
    ensures
        b == (inside_work_tree && check_ignore_code == Some(1i32)),
{
    inside_work_tree && match check_ignore_code {
        Some(c) => c == 1,
        None => false,
    }
}

/// The path the note names: the canonical output relative to the repository
/// root where it lies under it, else the output as given.
pub open spec fn versioning_entry_spec(canonical: Option<Seq<Part>>, repo_root: Seq<Part>, output: Seq<Part>) -> Seq<Part> {
    match canonical {
        Some(c) => if has_prefix(c, repo_root) { c.skip(repo_root.len() as int) } else { output },
        None => output,
    }
}

/// The `.gitignore` entry the versioning note suggests.
pub fn versioning_entry(
    canonical: &Option<Vec<PathComponent>>,
    repo_root: &Vec<PathComponent>,
    output: &Vec<PathComponent>,
) -> (out: Vec<PathComponent>)
    ensures
        parts(out@) == versioning_entry_spec(match canonical { Some(c) => Some(parts(c@)), None => None }, parts(repo_root@), parts(output@)),
{
    match canonical {
        Some(c) => if path_starts_with(c, repo_root) {
            let mut out: Vec<PathComponent> = Vec::new();
            let mut i: usize = repo_root.len();
            while i < c.len()
                invariant
                    repo_root.len() <= i <= c.len(),
                    parts(out@) == parts(c@).subrange(repo_root.len() as int, i as int),
                decreases c.len() - i,
            {
                let ghost before = out@;
                let comp = clone_component(&c[i]);
                out.push(comp);
                proof {
                    crate::paths::lemma_parts_push(before, out@.last());
                    assert(out@ == before.push(out@.last()));
                    assert(parts(c@)[i as int] == c@[i as int]@);
                }
                assert(parts(out@) =~= parts(c@).subrange(repo_root.len() as int, i + 1));
                i = i + 1;
            }
            assert(parts(c@).subrange(repo_root.len() as int, c.len() as int) =~= parts(c@).skip(repo_root.len() as int));
            out
        } else {
            clone_path(output)
        },
        None => clone_path(output),
    }
}

/// The note printed for a standalone workspace that git would version.
pub fn standalone_versioning_note(entry: &str) -> (out: String)
    ensures
        out@ == "Note: this standalone workspace is inside a git repository and is not gitignored, so its planning state (including `runtime/`) is repository content. Commit it to version the workspace, or add `"@
            + entry@ + "/` to .gitignore to keep it working material \u{2014} the stance `rhei init` takes for `panta/`."@,
{
    let mut out = String::new();
    push_str(&mut out, "Note: this standalone workspace is inside a git repository and is not gitignored, so its planning state (including `runtime/`) is repository content. Commit it to version the workspace, or add `");
    push_str(&mut out, entry);
    push_str(&mut out, "/` to .gitignore to keep it working material \u{2014} the stance `rhei init` takes for `panta/`.");
    out
}

} // verus!
