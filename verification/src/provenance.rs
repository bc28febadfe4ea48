//! Where a composed block came from and whether it can be replayed exactly:
//! the source locator and revision recorded with compiled output. The Git
//! and filesystem reads happen around these functions; here is what they
//! decide.
use vstd::prelude::*;
use crate::paths::{clone_component, clone_path, has_prefix, lexically_normal, lexically_normal_spec, parent, parent_spec, parts, path_starts_with, slash_path, strip_to_relative, strip_to_relative_spec, normal_names, Part, PathComponent};
use crate::text::{chars_of, join, lines, lines_vec, push_str, string_of, trim, trim_vec};

verus! {

/// The revision a composition source is recorded at.
#[derive(Debug)]
pub struct SourceRevision {
    /// The block's directory inside its repository, `/`-separated.
    pub block_path: Option<String>,
    pub commit: Option<String>,
    /// `sha256:<hex>` of the source tree.
    pub content: Option<String>,
    /// `git`, `built-in`, `local` or `unavailable`.
    pub kind: String,
    /// `exact` or `not-guaranteed`.
    pub replay: String,
    pub release: Option<String>,
    /// The working-tree status, or `shipped`, `unversioned`, `unavailable`.
    pub status: String,
    pub template: Option<String>,
}

/// How a composition source was asked for.
#[derive(Debug)]
pub struct SourceLocator {
    /// Whether the request resolves the same on another machine.
    pub portable: bool,
    pub requested: String,
    pub resolved: Option<String>,
    pub tier: String,
}

/// The locator and revision of a composition source.
#[derive(Debug)]
pub struct SourceIdentity {
    pub locator: SourceLocator,
    pub revision: SourceRevision,
}

// ---------------------------------------------------------------------------
// Git working-tree status
// ---------------------------------------------------------------------------

/// `(dirty, untracked)` over `git status --porcelain` lines: `??` lines are
/// untracked files, any other nonblank line a change.
pub open spec fn porcelain_flags(ls: Seq<Seq<char>>) -> (bool, bool)
    decreases ls.len(),
{
    if ls.len() == 0 {
        (false, false)
    } else {
        let (d, u) = porcelain_flags(ls.drop_last());
        let l = ls.last();
        if l.len() >= 2 && l[0] == '?' && l[1] == '?' {
            (d, true)
        } else if trim(l).len() > 0 {
            (true, u)
        } else {
            (d, u)
        }
    }
}

/// The status word for the two flags.
pub open spec fn status_word(dirty: bool, untracked: bool) -> Seq<char> {
    if !dirty && !untracked {
        "clean"@
    } else if dirty && !untracked {
        "dirty"@
    } else if !dirty && untracked {
        "untracked"@
    } else {
        "dirty-untracked"@
    }
}

/// The block's directory inside its repository, when it is a proper part
/// of it.
pub open spec fn block_path_spec(dir: Seq<Part>, root: Seq<Part>) -> Option<Seq<char>> {
    match strip_to_relative_spec(dir, root) {
        Some(rel) => {
            let p = join(normal_names(rel), seq!['/']);
            if p.len() > 0 {
                Some(p)
            } else {
                None
            }
        },
        None => None,
    }
}

/// The block's `/`-separated directory inside its repository root, or
/// `None` when it is the root itself or lies outside it; the status of the
/// block is asked for this pathspec.
pub fn git_block_path(dir: &Vec<PathComponent>, root: &Vec<PathComponent>) -> (out: Option<String>)
    ensures
        match block_path_spec(parts(dir@), parts(root@)) {
            Some(p) => out matches Some(o) && o@ == p,
            None => out is None,
        },
{
    match strip_to_relative(dir, root) {
        Some(rel) => {
            let p = slash_path(&rel);
            if p.as_str().is_empty() {
                None
            } else {
                Some(p)
            }
        },
        None => None,
    }
}

fn porcelain(status: &str) -> (out: (bool, bool))
    ensures
        out == porcelain_flags(lines(status@)),
{
    let cs = chars_of(status);
    let ls = lines_vec(&cs);
    let ghost all = lines(status@);
    let mut dirty = false;
    let mut untracked = false;
    let mut i: usize = 0;
    assert(all.take(0) =~= Seq::<Seq<char>>::empty());
    while i < ls.len()
        invariant
            i <= ls@.len(),
            all == lines(status@),
            ls@.len() == all.len(),
            forall|k: int| 0 <= k < ls@.len() ==> #[trigger] ls@[k]@ == all[k],
            (dirty, untracked) == porcelain_flags(all.take(i as int)),
        decreases ls.len() - i,
    {
        let l = &ls[i];
        assert(all.take(i + 1).drop_last() =~= all.take(i as int));
        assert(all.take(i + 1).last() == l@);
        if l.len() >= 2 && l[0] == '?' && l[1] == '?' {
            untracked = true;
        } else if trim_vec(l).len() > 0 {
            dirty = true;
        }
        i += 1;
    }
    assert(all.take(ls@.len() as int) =~= all);
    (dirty, untracked)
}

fn status_text(dirty: bool, untracked: bool) -> (out: String)
    ensures
        out@ == status_word(dirty, untracked),
{
    if !dirty && !untracked {
        "clean".to_string()
    } else if dirty && !untracked {
        "dirty".to_string()
    } else if !dirty && untracked {
        "untracked".to_string()
    } else {
        "dirty-untracked".to_string()
    }
}

/// What `r` is as the Git revision of a block at `dir` in the repository at
/// `root` with the given `rev-parse HEAD` and `status --porcelain` output,
/// tracking and escaping-symlink facts, and content digest.
pub open spec fn git_revision_is(
    r: SourceRevision,
    dir: Seq<Part>,
    root: Seq<Part>,
    commit: Seq<char>,
    porcelain_status: Seq<char>,
    all_tracked: bool,
    escaping: bool,
    content: Seq<char>,
) -> bool {
    &&& match block_path_spec(dir, root) {
        Some(p) => r.block_path matches Some(b) && b@ == p,
        None => r.block_path is None,
    }
    &&& r.commit matches Some(c) && c@ == trim(commit)
    &&& r.content matches Some(c) && c@ == content
    &&& r.kind@ == "git"@
    &&& r.release is None
    &&& r.template is None
    &&& r.status@ == status_word(porcelain_flags(lines(porcelain_status)).0, porcelain_flags(lines(porcelain_status)).1 || !all_tracked)
    &&& r.replay@ == if r.status@ == "clean"@ && !escaping { "exact"@ } else { "not-guaranteed"@ }
}

/// The Git revision of a block at `dir` in the repository at `root`:
/// `commit` is what `rev-parse HEAD` printed, `porcelain` what
/// `status --porcelain` printed for the block's pathspec, `all_tracked`
/// whether every source entry is tracked, `escaping` whether a symlink
/// leaves the source. Replay is exact only for a clean block with no
/// escaping symlink.
pub fn git_source_revision(
    dir: &Vec<PathComponent>,
    root: &Vec<PathComponent>,
    commit: &str,
    porcelain_status: &str,
    all_tracked: bool,
    escaping: bool,
    content: &str,
) -> (out: SourceRevision)
    ensures
        git_revision_is(out, parts(dir@), parts(root@), commit@, porcelain_status@, all_tracked, escaping, content@),
{
    let block_path = git_block_path(dir, root);
    let (dirty, untracked) = porcelain(porcelain_status);
    let untracked = untracked || !all_tracked;
    let status = status_text(dirty, untracked);
    let clean = !dirty && !untracked;
    proof {
        reveal_strlit("clean");
        reveal_strlit("dirty");
        reveal_strlit("untracked");
        reveal_strlit("dirty-untracked");
        assert("clean"@[0] != "dirty"@[0]);
        assert("clean"@.len() != "untracked"@.len());
        assert("clean"@.len() != "dirty-untracked"@.len());
        assert(status@ == "clean"@ <==> clean);
    }
    let replay = if clean && !escaping {
        "exact".to_string()
    } else {
        "not-guaranteed".to_string()
    };
    let c = chars_of(commit);
    SourceRevision {
        block_path,
        commit: Some(string_of(&trim_vec(&c))),
        content: Some(content.to_string()),
        kind: "git".to_string(),
        replay,
        release: None,
        status,
        template: None,
    }
}

// ---------------------------------------------------------------------------
// Source identity
// ---------------------------------------------------------------------------

/// An optional string as text.
pub open spec fn opt_text(o: Option<String>) -> Option<Seq<char>> {
    match o {
        Some(s) => Some(s@),
        None => None,
    }
}

/// A revision as text: block path, commit, content, kind, replay, release,
/// status, template.
pub open spec fn revision_view(r: SourceRevision) -> (
    Option<Seq<char>>,
    Option<Seq<char>>,
    Option<Seq<char>>,
    Seq<char>,
    Seq<char>,
    Option<Seq<char>>,
    Seq<char>,
    Option<Seq<char>>,
) {
    (
        opt_text(r.block_path),
        opt_text(r.commit),
        opt_text(r.content),
        r.kind@,
        r.replay@,
        opt_text(r.release),
        r.status@,
        opt_text(r.template),
    )
}

/// `s` with every `\` written as `/`.
pub open spec fn forward_slashes(s: Seq<char>) -> Seq<char> {
    s.map_values(|c: char| if c == '\\' { '/' } else { c })
}

/// A request resolves alike on another machine unless it is absolute (on
/// Unix, starts with `/`) or home-relative.
pub open spec fn portable_request(requested: Seq<char>) -> bool {
    !(requested.len() > 0 && (requested[0] == '/' || requested[0] == '~'))
}

fn with_forward_slashes(s: &str) -> (out: String)
    ensures
        out@ == forward_slashes(s@),
{
    let cs = chars_of(s);
    let mut out = String::new();
    let mut i: usize = 0;
    while i < cs.len()
        invariant
            i <= cs@.len(),
            cs@ == s@,
            out@ == forward_slashes(s@).take(i as int),
        decreases cs.len() - i,
    {
        let c = cs[i];
        out.push(if c == '\\' { '/' } else { c });
        i += 1;
        assert(out@ =~= forward_slashes(s@).take(i as int));
    }
    assert(forward_slashes(s@).take(cs@.len() as int) =~= forward_slashes(s@));
    out
}

fn revision(content: String, kind: &str, replay: &str, release: Option<String>, status: &str, template: Option<String>) -> (out: SourceRevision)
    ensures
        out.block_path is None,
        out.commit is None,
        out.content == Some(content),
        out.kind@ == kind@,
        out.replay@ == replay@,
        out.release == release,
        out.status@ == status@,
        out.template == template,
{
    SourceRevision {
        block_path: None,
        commit: None,
        content: Some(content),
        kind: kind.to_string(),
        replay: replay.to_string(),
        release,
        status: status.to_string(),
        template,
    }
}

/// What Git said about a source directory in a repository with a commit:
/// the block directory and the repository root, `rev-parse HEAD`'s and
/// `status --porcelain`'s output for it, whether every source entry is
/// tracked, and whether a symlink leaves the source.
#[derive(Debug)]
pub struct GitFacts {
    pub dir: Vec<PathComponent>,
    pub root: Vec<PathComponent>,
    pub commit: String,
    pub porcelain_status: String,
    pub all_tracked: bool,
    pub escaping: bool,
}

/// The identity of a composition source. `digest` is the hex content digest
/// of its tree, `tier` where it was found, `extracted` whether it is a
/// built-in template shipped in `release`, `git` what Git said when its
/// directory is in a repository with a commit, and `broken_git_marker`
/// whether a `.git` sits above it all the same. Every revision carries
/// `sha256:<digest>` as its content.
pub fn composition_source_identity(
    requested: &str,
    extracted: bool,
    tier: &str,
    digest: &str,
    git: Option<GitFacts>,
    broken_git_marker: bool,
    release: &str,
) -> (out: SourceIdentity)
    ensures
        out.locator.portable == portable_request(requested@),
        out.locator.requested@ == forward_slashes(requested@),
        match out.locator.resolved {
            Some(r) => portable_request(requested@) && r@ == forward_slashes(requested@),
            None => !portable_request(requested@),
        },
        out.locator.tier@ == tier@,
        extracted ==> revision_view(out.revision) == (
            None::<Seq<char>>,
            None::<Seq<char>>,
            Some("sha256:"@ + digest@),
            "built-in"@,
            "exact"@,
            Some(release@),
            "shipped"@,
            Some(requested@),
        ),
        !extracted ==> (git matches Some(g) ==> git_revision_is(out.revision, parts(g.dir@), parts(g.root@), g.commit@,
            g.porcelain_status@, g.all_tracked, g.escaping, "sha256:"@ + digest@)),
        !extracted && git is None && broken_git_marker ==> revision_view(out.revision) == (
            None::<Seq<char>>,
            None::<Seq<char>>,
            Some("sha256:"@ + digest@),
            "unavailable"@,
            "not-guaranteed"@,
            None::<Seq<char>>,
            "unavailable"@,
            None::<Seq<char>>,
        ),
        !extracted && git is None && !broken_git_marker ==> revision_view(out.revision) == (
            None::<Seq<char>>,
            None::<Seq<char>>,
            Some("sha256:"@ + digest@),
            "local"@,
            "not-guaranteed"@,
            None::<Seq<char>>,
            "unversioned"@,
            None::<Seq<char>>,
        ),
{
    let cs = chars_of(requested);
    let portable = !(cs.len() > 0 && (cs[0] == '/' || cs[0] == '~'));
    let requested_text = with_forward_slashes(requested);
    let locator = SourceLocator {
        portable,
        requested: requested_text,
        resolved: if portable {
            Some(with_forward_slashes(requested))
        } else {
            None
        },
        tier: tier.to_string(),
    };
    let mut content = String::new();
    push_str(&mut content, "sha256:");
    push_str(&mut content, digest);
    if extracted {
        return SourceIdentity {
            locator,
            revision: revision(content, "built-in", "exact", Some(release.to_string()), "shipped", Some(requested.to_string())),
        };
    }
    match git {
        Some(g) => {
            let revision = git_source_revision(&g.dir, &g.root, g.commit.as_str(), g.porcelain_status.as_str(), g.all_tracked, g.escaping, content.as_str());
            SourceIdentity { locator, revision }
        },
        None => {
            if broken_git_marker {
                SourceIdentity {
                    locator,
                    revision: revision(content, "unavailable", "not-guaranteed", None, "unavailable", None),
                }
            } else {
                SourceIdentity {
                    locator,
                    revision: revision(content, "local", "not-guaranteed", None, "unversioned", None),
                }
            }
        },
    }
}

/// Where a symlink at `link` inside the source `root` points: an absolute
/// target as it is, a relative one joined to the link's directory.
pub open spec fn symlink_target_spec(root: Seq<Part>, link: Seq<Part>, target: Seq<Part>) -> Seq<Part> {
    if target.len() > 0 && target[0] is Root {
        target
    } else {
        match parent_spec(link) {
            Some(d) => d + target,
            None => root + target,
        }
    }
}

/// Whether the symlink leaves the source: its target, resolved lexically,
/// does not lie under the lexically resolved root.
pub open spec fn symlink_escapes_spec(root: Seq<Part>, link: Seq<Part>, target: Seq<Part>) -> bool {
    !has_prefix(lexically_normal_spec(symlink_target_spec(root, link, target)), lexically_normal_spec(root))
}

fn append_path(a: &Vec<PathComponent>, b: &Vec<PathComponent>) -> (out: Vec<PathComponent>)
    ensures
        parts(out@) == parts(a@) + parts(b@),
{
    let mut out = clone_path(a);
    let mut i: usize = 0;
    while i < b.len()
        invariant
            i <= b.len(),
            parts(out@) == parts(a@) + parts(b@).take(i as int),
        decreases b.len() - i,
    {
        let ghost before = out@;
        out.push(clone_component(&b[i]));
        proof {
            crate::paths::lemma_parts_push(before, out@.last());
            assert(out@ == before.push(out@.last()));
        }
        assert(parts(a@) + parts(b@).take(i + 1) =~= (parts(a@) + parts(b@).take(i as int)).push(parts(b@)[i as int]));
        i = i + 1;
    }
    assert(parts(b@).take(b.len() as int) =~= parts(b@));
    out
}

/// Whether a symlink found at `link` while walking the source `root`, with
/// the link text `target`, escapes the source. Walking the tree and reading
/// the links is the caller's.
pub fn symlink_escapes(root: &Vec<PathComponent>, link: &Vec<PathComponent>, target: &Vec<PathComponent>) -> (b: bool)
    ensures
        b == symlink_escapes_spec(parts(root@), parts(link@), parts(target@)),
{
    let absolute = target.len() > 0 && match &target[0] {
        PathComponent::RootDir => true,
        _ => false,
    };
    let resolved = if absolute {
        clone_path(target)
    } else {
        match parent(link) {
            Some(d) => append_path(&d, target),
            None => append_path(root, target),
        }
    };
    let normal_target = lexically_normal(&resolved);
    let normal_root = lexically_normal(root);
    !path_starts_with(&normal_target, &normal_root)
}

} // verus!
