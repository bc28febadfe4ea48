//! Lexical path arithmetic over component lists.
//!
//! A path is handled as the component sequence `std::path::Path::components`
//! yields on Unix: an optional root first, an optional `.` first, then `..`
//! and normal names. The callers that touch the filesystem convert between
//! `Path` and these components one for one.
use vstd::prelude::*;
use crate::text::{chars_of, join, join_strings, push_str, slice_vec, str_eq, string_of, find_char_from, lemma_join_push};

verus! {

/// One component of a path.
#[derive(Debug, PartialEq, Eq)]
pub enum PathComponent {
    /// The leading `/` of an absolute path.
    RootDir,
    /// A leading `.`.
    CurDir,
    /// `..`.
    ParentDir,
    /// Any other name.
    Normal(String),
}

/// The mathematical meaning of a component.
pub enum Part {
    Root,
    Cur,
    Parent,
    Normal(Seq<char>),
}

impl View for PathComponent {
    type V = Part;

    open spec fn view(&self) -> Part {
        match self {
            PathComponent::RootDir => Part::Root,
            PathComponent::CurDir => Part::Cur,
            PathComponent::ParentDir => Part::Parent,
            PathComponent::Normal(s) => Part::Normal(s@),
        }
    }
}

/// The components of a path as mathematical values.
pub open spec fn parts(p: Seq<PathComponent>) -> Seq<Part> {
    p.map_values(|c: PathComponent| c@)
}

/// `parts` distributes over `push`.
pub proof fn lemma_parts_push(p: Seq<PathComponent>, c: PathComponent)
    ensures
        parts(p.push(c)) == parts(p).push(c@),
{
    assert(parts(p.push(c)) =~= parts(p).push(c@));
}

/// One copy of a component.
pub fn clone_component(c: &PathComponent) -> (out: PathComponent)
    ensures
        out@ == c@,
{
    match c {
        PathComponent::RootDir => PathComponent::RootDir,
        PathComponent::CurDir => PathComponent::CurDir,
        PathComponent::ParentDir => PathComponent::ParentDir,
        PathComponent::Normal(s) => PathComponent::Normal(s.clone()),
    }
}

/// A copy of a whole path.
pub fn clone_path(p: &Vec<PathComponent>) -> (out: Vec<PathComponent>)
    ensures
        parts(out@) == parts(p@),
{
    let mut out: Vec<PathComponent> = Vec::new();
    let mut i: usize = 0;
    while i < p.len()
        invariant
            i <= p.len(),
            parts(out@) == parts(p@).take(i as int),
        decreases p.len() - i,
    {
        let c = clone_component(&p[i]);
        proof {
            lemma_parts_push(out@, c);
        }
        out.push(c);
        i += 1;
        assert(parts(out@) =~= parts(p@).take(i as int));
    }
    assert(parts(p@).take(p.len() as int) =~= parts(p@));
    out
}

/// Whether two components are equal.
pub fn component_eq(a: &PathComponent, b: &PathComponent) -> (r: bool)
    ensures
        r == (a@ == b@),
{
    match (a, b) {
        (PathComponent::RootDir, PathComponent::RootDir) => true,
        (PathComponent::CurDir, PathComponent::CurDir) => true,
        (PathComponent::ParentDir, PathComponent::ParentDir) => true,
        (PathComponent::Normal(x), PathComponent::Normal(y)) => str_eq(x.as_str(), y.as_str()),
        _ => false,
    }
}

/// Whether two paths have the same components.
pub fn path_eq(a: &Vec<PathComponent>, b: &Vec<PathComponent>) -> (r: bool)
    ensures
        r == (parts(a@) == parts(b@)),
{
    if a.len() != b.len() {
        assert(parts(a@).len() != parts(b@).len());
        return false;
    }
    let mut i: usize = 0;
    while i < a.len()
        invariant
            i <= a.len(),
            a.len() == b.len(),
            forall|k: int| 0 <= k < i ==> parts(a@)[k] == parts(b@)[k],
        decreases a.len() - i,
    {
        if !component_eq(&a[i], &b[i]) {
            assert(parts(a@)[i as int] != parts(b@)[i as int]);
            return false;
        }
        i += 1;
    }
    assert(parts(a@) =~= parts(b@));
    true
}

// ---------------------------------------------------------------------------
// Lexical normalization
// ---------------------------------------------------------------------------

/// One step of `lexically_normal`: `.` is dropped, `..` pops the last name
/// (never the root), the root restarts the path, a name is appended — what
/// `PathBuf::pop` and `PathBuf::push` do.
pub open spec fn normal_step(acc: Seq<Part>, c: Part) -> Seq<Part> {
    match c {
        Part::Cur => acc,
        Part::Parent => if acc.len() > 0 && !(acc.last() is Root) {
            acc.drop_last()
        } else {
            acc
        },
        Part::Root => seq![Part::Root],
        Part::Normal(n) => acc.push(Part::Normal(n)),
    }
}

/// `..` and `.` resolved without consulting the filesystem.
pub open spec fn lexically_normal_spec(p: Seq<Part>) -> Seq<Part>
    decreases p.len(),
{
    if p.len() == 0 {
        seq![]
    } else {
        normal_step(lexically_normal_spec(p.drop_last()), p.last())
    }
}

/// A path made only of an optional leading root and names.
pub open spec fn is_normal_form(p: Seq<Part>) -> bool {
    forall|i: int|
        0 <= i < p.len() ==> (#[trigger] p[i] is Normal || (i == 0 && p[i] is Root))
}

/// Resolve `.` and `..` lexically, as the composition provenance checks do
/// before comparing a symlink target with the source root.
pub fn lexically_normal(path: &Vec<PathComponent>) -> (out: Vec<PathComponent>)
    ensures
        parts(out@) == lexically_normal_spec(parts(path@)),
{
    let mut out: Vec<PathComponent> = Vec::new();
    let mut i: usize = 0;
    while i < path.len()
        invariant
            i <= path.len(),
            parts(out@) == lexically_normal_spec(parts(path@).take(i as int)),
        decreases path.len() - i,
    {
        let ghost before = parts(out@);
        assert(parts(path@).take(i + 1).drop_last() =~= parts(path@).take(i as int));
        match &path[i] {
            PathComponent::CurDir => {},
            PathComponent::ParentDir => {
                if out.len() > 0 {
                    let is_root = match &out[out.len() - 1] {
                        PathComponent::RootDir => true,
                        _ => false,
                    };
                    if !is_root {
                        out.pop();
                    }
                }
                assert(parts(out@) =~= normal_step(before, Part::Parent));
            },
            PathComponent::RootDir => {
                out = Vec::new();
                out.push(PathComponent::RootDir);
                assert(parts(out@) =~= seq![Part::Root]);
            },
            PathComponent::Normal(n) => {
                out.push(PathComponent::Normal(n.clone()));
                assert(parts(out@) =~= before.push(parts(path@)[i as int]));
            },
        }
        i += 1;
    }
    assert(parts(path@).take(path.len() as int) =~= parts(path@));
    out
}

/// Normalization yields a root-and-names path.
pub proof fn lemma_normal_form(p: Seq<Part>)
    ensures
        is_normal_form(lexically_normal_spec(p)),
    decreases p.len(),
{
    if p.len() > 0 {
        lemma_normal_form(p.drop_last());
        let acc = lexically_normal_spec(p.drop_last());
        let r = lexically_normal_spec(p);
        assert forall|i: int| 0 <= i < r.len() implies (#[trigger] r[i] is Normal || (i == 0
            && r[i] is Root)) by {
            match p.last() {
                Part::Root => {},
                Part::Cur => {},
                Part::Parent => {
                    if acc.len() > 0 && !(acc.last() is Root) {
                        assert(r[i] == acc[i]);
                    }
                },
                Part::Normal(n) => {
                    if i < acc.len() {
                        assert(r[i] == acc[i]);
                    }
                },
            }
        }
    }
}

/// A root-and-names path is its own normalization.
pub proof fn lemma_normal_form_fixed(p: Seq<Part>)
    requires
        is_normal_form(p),
    ensures
        lexically_normal_spec(p) == p,
    decreases p.len(),
{
    if p.len() > 0 {
        let q = p.drop_last();
        assert forall|i: int| 0 <= i < q.len() implies (#[trigger] q[i] is Normal || (i == 0
            && q[i] is Root)) by {
            assert(q[i] == p[i]);
        }
        lemma_normal_form_fixed(q);
        let last = p.last();
        if p.len() == 1 {
            assert(p[0] is Normal || p[0] is Root);
            assert(q =~= Seq::<Part>::empty());
            assert(lexically_normal_spec(p) =~= p);
        } else {
            assert(p[p.len() - 1] is Normal);
            assert(q.push(last) =~= p);
        }
    }
}

/// Lexical normalization is idempotent: normalizing a normalized path
/// changes nothing.
pub proof fn lexically_normal_is_idempotent(p: Seq<Part>)
    ensures
        lexically_normal_spec(lexically_normal_spec(p)) == lexically_normal_spec(p),
{
    lemma_normal_form(p);
    lemma_normal_form_fixed(lexically_normal_spec(p));
}

// ---------------------------------------------------------------------------
// Prefixes and spelling
// ---------------------------------------------------------------------------

/// Whether `base` is a component-wise prefix of `path` (`Path::starts_with`).
pub open spec fn has_prefix(path: Seq<Part>, base: Seq<Part>) -> bool {
    base.len() <= path.len() && path.take(base.len() as int) == base
}

/// Whether `base` is a component-wise prefix of `path`.
pub fn path_starts_with(path: &Vec<PathComponent>, base: &Vec<PathComponent>) -> (r: bool)
    ensures
        r == has_prefix(parts(path@), parts(base@)),
{
    if base.len() > path.len() {
        return false;
    }
    let mut i: usize = 0;
    while i < base.len()
        invariant
            i <= base.len() <= path.len(),
            forall|k: int| 0 <= k < i ==> parts(path@)[k] == parts(base@)[k],
        decreases base.len() - i,
    {
        if !component_eq(&path[i], &base[i]) {
            assert(parts(path@).take(base.len() as int)[i as int] != parts(base@)[i as int]);
            return false;
        }
        i += 1;
    }
    assert(parts(path@).take(base.len() as int) =~= parts(base@));
    true
}

/// `Path::strip_prefix` followed by the `.` substitution for an empty rest.
pub open spec fn strip_to_relative_spec(path: Seq<Part>, base: Seq<Part>) -> Option<Seq<Part>> {
    if has_prefix(path, base) {
        if path.len() == base.len() {
            Some(seq![Part::Cur])
        } else {
            Some(path.skip(base.len() as int))
        }
    } else {
        None
    }
}

/// `path` expressed relative to `base`, or `None` when it is not under it;
/// `base` itself is `.`.
pub fn strip_to_relative(path: &Vec<PathComponent>, base: &Vec<PathComponent>) -> (out: Option<
    Vec<PathComponent>,
>)
    ensures
        match out {
            Some(rel) => strip_to_relative_spec(parts(path@), parts(base@)) == Some(parts(rel@)),
            None => strip_to_relative_spec(parts(path@), parts(base@)) is None,
        },
{
    if !path_starts_with(path, base) {
        return None;
    }
    if path.len() == base.len() {
        let mut rel: Vec<PathComponent> = Vec::new();
        rel.push(PathComponent::CurDir);
        assert(parts(rel@) =~= seq![Part::Cur]);
        return Some(rel);
    }
    let mut rel: Vec<PathComponent> = Vec::new();
    let mut i = base.len();
    while i < path.len()
        invariant
            base.len() <= i <= path.len(),
            parts(rel@) == parts(path@).subrange(base.len() as int, i as int),
        decreases path.len() - i,
    {
        let c = clone_component(&path[i]);
        proof {
            lemma_parts_push(rel@, c);
        }
        rel.push(c);
        i += 1;
        assert(parts(rel@) =~= parts(path@).subrange(base.len() as int, i as int));
    }
    assert(parts(path@).subrange(base.len() as int, path.len() as int) =~= parts(path@).skip(
        base.len() as int,
    ));
    Some(rel)
}

/// The names of a path, in order.
pub open spec fn normal_names(p: Seq<Part>) -> Seq<Seq<char>>
    decreases p.len(),
{
    if p.len() == 0 {
        seq![]
    } else {
        match p.last() {
            Part::Normal(n) => normal_names(p.drop_last()).push(n),
            _ => normal_names(p.drop_last()),
        }
    }
}

/// The path's names joined by `/`, every root, `.` and `..` dropped: the
/// portable spelling recorded in composition provenance.
pub fn slash_path(path: &Vec<PathComponent>) -> (out: String)
    ensures
        out@ == join(normal_names(parts(path@)), seq!['/']),
{
    let mut names: Vec<String> = Vec::new();
    let mut i: usize = 0;
    while i < path.len()
        invariant
            i <= path.len(),
            names@.map_values(|p: String| p@) == normal_names(parts(path@).take(i as int)),
        decreases path.len() - i,
    {
        assert(parts(path@).take(i + 1).drop_last() =~= parts(path@).take(i as int));
        match &path[i] {
            PathComponent::Normal(n) => {
                names.push(n.clone());
                assert(names@.map_values(|p: String| p@) =~= normal_names(
                    parts(path@).take(i as int),
                ).push(n@));
            },
            _ => {},
        }
        i += 1;
    }
    assert(parts(path@).take(path.len() as int) =~= parts(path@));
    let sep = "/";
    proof {
        reveal_strlit("/");
    }
    assert(sep@ =~= seq!['/']);
    join_strings(&names, sep)
}

/// `path.join(name)` for a single relative name.
pub fn join_name(path: &Vec<PathComponent>, name: String) -> (out: Vec<PathComponent>)
    ensures
        parts(out@) == parts(path@).push(Part::Normal(name@)),
{
    let mut out = clone_path(path);
    out.push(PathComponent::Normal(name));
    assert(parts(out@) =~= parts(path@).push(Part::Normal(name@)));
    out
}

/// `Path::parent`: everything before the last component, absent for an
/// empty path and for a bare root.
pub open spec fn parent_spec(p: Seq<Part>) -> Option<Seq<Part>> {
    if p.len() == 0 || p.last() is Root {
        None
    } else {
        Some(p.drop_last())
    }
}

/// `Path::parent`.
pub fn parent(path: &Vec<PathComponent>) -> (out: Option<Vec<PathComponent>>)
    ensures
        match out {
            Some(q) => parent_spec(parts(path@)) == Some(parts(q@)),
            None => parent_spec(parts(path@)) is None,
        },
{
    if path.len() == 0 {
        return None;
    }
    match &path[path.len() - 1] {
        PathComponent::RootDir => None,
        _ => {
            let mut q = clone_path(path);
            q.pop();
            assert(parts(q@) =~= parts(path@).drop_last());
            Some(q)
        },
    }
}

/// `Path::file_name`: the last component when it is a name.
pub open spec fn file_name_spec(p: Seq<Part>) -> Option<Seq<char>> {
    if p.len() > 0 && p.last() is Normal {
        Some(p.last()->Normal_0)
    } else {
        None
    }
}

/// Index of the last `.` in `s`, if any.
pub open spec fn last_dot(s: Seq<char>) -> Option<int>
    decreases s.len(),
{
    if s.len() == 0 {
        None
    } else if s.last() == '.' {
        Some(s.len() - 1)
    } else {
        last_dot(s.drop_last())
    }
}

/// `Path::file_stem` of one file name: the name before its last `.`, the
/// whole name when it has no `.` or only a leading one.
pub open spec fn stem_of(name: Seq<char>) -> Seq<char> {
    match last_dot(name) {
        None => name,
        Some(i) => if i == 0 {
            name
        } else {
            name.take(i)
        },
    }
}

/// `file_stem` of a file name.
pub fn file_stem(name: &str) -> (out: String)
    ensures
        out@ == stem_of(name@),
{
    let cs = chars_of(name);
    let mut i = cs.len();
    assert(cs@.take(i as int) =~= cs@);
    while i > 0 && cs[i - 1] != '.'
        invariant
            i <= cs@.len(),
            last_dot(cs@) == last_dot(cs@.take(i as int)),
        decreases i,
    {
        assert(cs@.take(i as int).drop_last() =~= cs@.take(i - 1));
        i -= 1;
    }
    if i == 0 {
        assert(cs@.take(0) =~= Seq::<char>::empty());
        string_of(&cs)
    } else {
        assert(last_dot(cs@.take(i as int)) == Some(i - 1));
        if i == 1 {
            string_of(&cs)
        } else {
            let v = slice_vec(&cs, 0, i - 1);
            string_of(&v)
        }
    }
}

/// Where the prompt record of a session log lives:
/// `<runtime>/prompts/<log stem>.md`, `<runtime>` being the log's
/// grandparent, or `.` when the log has none.
pub open spec fn session_prompt_record_path_spec(log: Seq<Part>) -> Seq<Part> {
    let stem = match file_name_spec(log) {
        Some(n) => stem_of(n),
        None => seq![],
    };
    let runtime = match parent_spec(log) {
        Some(p) => match parent_spec(p) {
            Some(q) => q,
            None => seq![Part::Cur],
        },
        None => seq![Part::Cur],
    };
    runtime.push(Part::Normal(seq!['p', 'r', 'o', 'm', 'p', 't', 's'])).push(
        Part::Normal(stem + seq!['.', 'm', 'd']),
    )
}

/// `runtime/prompts/<log stem>.md`: one record per log, beside
/// `runtime/logs/` rather than in it.
pub fn session_prompt_record_path(log_path: &Vec<PathComponent>) -> (out: Vec<PathComponent>)
    ensures
        parts(out@) == session_prompt_record_path_spec(parts(log_path@)),
{
    let ghost lp = parts(log_path@);
    let mut stem = if log_path.len() > 0 {
        assert(lp.last() == log_path@[log_path.len() - 1]@);
        match &log_path[log_path.len() - 1] {
            PathComponent::Normal(n) => file_stem(n.as_str()),
            _ => String::new(),
        }
    } else {
        String::new()
    };
    assert(stem@ == match file_name_spec(lp) {
        Some(n) => stem_of(n),
        None => seq![],
    });
    let runtime = match parent(log_path) {
        Some(p) => match parent(&p) {
            Some(q) => q,
            None => {
                let mut cur: Vec<PathComponent> = Vec::new();
                cur.push(PathComponent::CurDir);
                assert(parts(cur@) =~= seq![Part::Cur]);
                cur
            },
        },
        None => {
            let mut cur: Vec<PathComponent> = Vec::new();
            cur.push(PathComponent::CurDir);
            assert(parts(cur@) =~= seq![Part::Cur]);
            cur
        },
    };
    stem.push('.');
    stem.push('m');
    stem.push('d');
    assert(stem@ =~= match file_name_spec(lp) {
        Some(n) => stem_of(n),
        None => seq![],
    } + seq!['.', 'm', 'd']);
    let mut prompts = String::new();
    push_str(&mut prompts, "prompts");
    proof {
        reveal_strlit("prompts");
    }
    assert(prompts@ =~= seq!['p', 'r', 'o', 'm', 'p', 't', 's']);
    let dir = join_name(&runtime, prompts);
    join_name(&dir, stem)
}

/// `<runtime>/reports`, where rendered session reports are written.
pub fn session_reports_dir(runtime_dir: &Vec<PathComponent>) -> (out: Vec<PathComponent>)
    ensures
        parts(out@) == parts(runtime_dir@).push(
            Part::Normal(seq!['r', 'e', 'p', 'o', 'r', 't', 's']),
        ),
{
    let mut name = String::new();
    push_str(&mut name, "reports");
    proof {
        reveal_strlit("reports");
    }
    assert(name@ =~= seq!['r', 'e', 'p', 'o', 'r', 't', 's']);
    join_name(runtime_dir, name)
}

// ---------------------------------------------------------------------------
// Display and relative joins
// ---------------------------------------------------------------------------

/// How one component is spelled.
pub open spec fn part_text(c: Part) -> Seq<char> {
    match c {
        Part::Root => seq![],
        Part::Cur => seq!['.'],
        Part::Parent => seq!['.', '.'],
        Part::Normal(n) => n,
    }
}

/// The spellings of a run of components.
pub open spec fn part_texts(p: Seq<Part>) -> Seq<Seq<char>> {
    p.map_values(|c: Part| part_text(c))
}

/// `Path::display` of a component path: `/` before an absolute path, the
/// components joined by `/`.
pub open spec fn display_spec(p: Seq<Part>) -> Seq<char> {
    if p.len() > 0 && p[0] is Root {
        seq!['/'] + join(part_texts(p.skip(1)), seq!['/'])
    } else {
        join(part_texts(p), seq!['/'])
    }
}

/// The spelling of a path in a message.
pub fn display_path(path: &Vec<PathComponent>) -> (out: String)
    ensures
        out@ == display_spec(parts(path@)),
{
    let mut out = String::new();
    let mut start: usize = 0;
    if path.len() > 0 {
        match &path[0] {
            PathComponent::RootDir => {
                out.push('/');
                start = 1;
            },
            _ => {},
        }
    }
    let ghost head = out@;
    let ghost texts = part_texts(parts(path@).skip(start as int));
    let mut i = start;
    assert(texts.take(0) =~= Seq::<Seq<char>>::empty());
    while i < path.len()
        invariant
            start <= i <= path.len(),
            start <= 1,
            texts == part_texts(parts(path@).skip(start as int)),
            texts.len() == path.len() - start,
            out@ == head + join(texts.take(i - start), seq!['/']),
        decreases path.len() - i,
    {
        proof {
            lemma_join_push(texts.take(i - start), seq!['/'], texts[i - start]);
            assert(texts.take(i - start + 1) =~= texts.take(i - start).push(texts[i - start]));
            assert(texts[i - start] == part_text(path@[i as int]@));
        }
        if i > start {
            out.push('/');
        }
        match &path[i] {
            PathComponent::RootDir => {},
            PathComponent::CurDir => {
                out.push('.');
            },
            PathComponent::ParentDir => {
                out.push('.');
                out.push('.');
            },
            PathComponent::Normal(n) => {
                push_str(&mut out, n.as_str());
            },
        }
        i += 1;
        assert(out@ =~= head + join(texts.take(i - start), seq!['/']));
    }
    assert(texts.take(path.len() - start) =~= texts);
    proof {
        if start == 1 {
            assert(parts(path@)[0] == path@[0]@);
            assert(head =~= seq!['/']);
        } else {
            if path.len() > 0 {
                assert(parts(path@)[0] == path@[0]@);
            }
            assert(parts(path@).skip(0) =~= parts(path@));
            assert(head =~= Seq::<char>::empty());
            assert(out@ =~= join(texts, seq!['/']));
        }
    }
    out
}

/// The pieces of `s` between occurrences of `c`, empty pieces included.
pub open spec fn split_on(s: Seq<char>, c: char) -> Seq<Seq<char>>
    decreases s.len(),
{
    let i = crate::text::index_of_char(s, c) as int;
    if i >= s.len() {
        seq![s]
    } else {
        seq![s.take(i)] + split_on(s.skip(i + 1), c)
    }
}

/// The components a relative spelling contributes when joined to a path:
/// empty and `.` pieces vanish, `..` climbs.
pub open spec fn segment_parts(segs: Seq<Seq<char>>) -> Seq<Part>
    decreases segs.len(),
{
    if segs.len() == 0 {
        seq![]
    } else {
        let rest = segment_parts(segs.drop_first());
        let seg = segs[0];
        if seg.len() == 0 || seg == seq!['.'] {
            rest
        } else if seg == seq!['.', '.'] {
            seq![Part::Parent] + rest
        } else {
            seq![Part::Normal(seg)] + rest
        }
    }
}

/// `root.join(relative)` for a relative spelling.
pub open spec fn join_relative_spec(root: Seq<Part>, relative: Seq<char>) -> Seq<Part> {
    root + segment_parts(split_on(relative, '/'))
}

proof fn lemma_segment_parts_push(segs: Seq<Seq<char>>, seg: Seq<char>)
    ensures
        segment_parts(segs.push(seg)) == segment_parts(segs) + segment_parts(seq![seg]),
    decreases segs.len(),
{
    if segs.len() == 0 {
        assert(segs.push(seg) =~= seq![seg]);
    } else {
        assert(segs.push(seg).drop_first() =~= segs.drop_first().push(seg));
        lemma_segment_parts_push(segs.drop_first(), seg);
        assert(segment_parts(seq![seg]).len() >= 0);
        assert(segs.push(seg)[0] == segs[0]);
    }
}

proof fn lemma_segment_parts_single(seg: Seq<char>)
    ensures
        segment_parts(seq![seg]) == if seg.len() == 0 || seg == seq!['.'] {
            Seq::<Part>::empty()
        } else if seg == seq!['.', '.'] {
            seq![Part::Parent]
        } else {
            seq![Part::Normal(seg)]
        },
{
    let e = Seq::<Seq<char>>::empty();
    assert(seq![seg].drop_first() =~= e);
    assert(seq![seg][0] == seg);
    assert(segment_parts(e) =~= Seq::<Part>::empty());
    assert(seq![Part::Parent] + Seq::<Part>::empty() =~= seq![Part::Parent]);
    assert(seq![Part::Normal(seg)] + Seq::<Part>::empty() =~= seq![Part::Normal(seg)]);
}

/// The pieces of `s` between `/`s, with their contribution to a join.
pub fn relative_components(s: &[char]) -> (out: Vec<PathComponent>)
    ensures
        parts(out@) == segment_parts(split_on(s@, '/')),
{
    let mut out: Vec<PathComponent> = Vec::new();
    let mut pos: usize = 0;
    let ghost mut done: Seq<Seq<char>> = seq![];
    assert(s@.skip(0) =~= s@);
    loop
        invariant
            pos <= s@.len(),
            split_on(s@, '/') == done + split_on(s@.skip(pos as int), '/'),
            parts(out@) == segment_parts(done),
        decreases s@.len() - pos,
    {
        let ghost rest = s@.skip(pos as int);
        let j = find_char_from(s, '/', pos);
        proof {
            crate::text::lemma_index_of_char(rest, '/', j - pos);
        }
        let seg = slice_vec(s, pos, j);
        assert(seg@ =~= rest.take(j - pos));
        let is_empty = seg.len() == 0;
        let is_dot = seg.len() == 1 && seg[0] == '.';
        let is_dotdot = seg.len() == 2 && seg[0] == '.' && seg[1] == '.';
        proof {
            lemma_segment_parts_push(done, seg@);
            lemma_segment_parts_single(seg@);
            if is_dot {
                assert(seg@ =~= seq!['.']);
            } else if seg@ == seq!['.'] {
                assert(seg@.len() == 1 && seg@[0] == '.');
            }
            if is_dotdot {
                assert(seg@ =~= seq!['.', '.']);
            } else if seg@ == seq!['.', '.'] {
                assert(seg@.len() == 2 && seg@[0] == '.' && seg@[1] == '.');
            }
            assert(seq![seg@].drop_first() =~= Seq::<Seq<char>>::empty());
        }
        if is_empty || is_dot {
            assert(segment_parts(seq![seg@]) =~= Seq::<Part>::empty());
        } else if is_dotdot {
            proof {
                crate::paths::lemma_parts_push(out@, PathComponent::ParentDir);
            }
            out.push(PathComponent::ParentDir);
            assert(segment_parts(seq![seg@]) =~= seq![Part::Parent]);
        } else {
            let name = string_of(&seg);
            proof {
                crate::paths::lemma_parts_push(out@, PathComponent::Normal(name));
            }
            out.push(PathComponent::Normal(name));
            assert(segment_parts(seq![seg@]) =~= seq![Part::Normal(seg@)]);
        }
        proof {
            done = done.push(seg@);
        }
        if j >= s.len() {
            assert(rest =~= seg@);
            assert(split_on(s@, '/') =~= done);
            return out;
        }
        assert(rest.skip(j - pos + 1) =~= s@.skip(j + 1));
        assert(split_on(s@, '/') =~= done + split_on(s@.skip(j + 1), '/'));
        pos = j + 1;
    }
}

/// `root.join(relative)` for a relative spelling.
pub fn join_relative(root: &Vec<PathComponent>, relative: &str) -> (out: Vec<PathComponent>)
    ensures
        parts(out@) == join_relative_spec(parts(root@), relative@),
{
    let cs = chars_of(relative);
    let rel = relative_components(&cs);
    let mut out = clone_path(root);
    let mut i: usize = 0;
    while i < rel.len()
        invariant
            i <= rel.len(),
            parts(out@) == parts(root@) + parts(rel@).take(i as int),
        decreases rel.len() - i,
    {
        let c = clone_component(&rel[i]);
        proof {
            lemma_parts_push(out@, c);
        }
        out.push(c);
        i += 1;
        assert(parts(out@) =~= parts(root@) + parts(rel@).take(i as int));
    }
    assert(parts(rel@).take(rel.len() as int) =~= parts(rel@));
    out
}

} // verus!
