//! Resolved exclusions and the paths an agent adapter is told to keep out
//! of reach.
use vstd::prelude::*;
use crate::paths::{display_path, display_spec, parts, PathComponent};
use crate::text::push_str;

verus! {

/// One authored exclusion, resolved to the path it was written as and the
/// path it really is.
#[derive(Debug)]
pub struct ResolvedExclusion {
    /// The exclusion as the plan wrote it.
    pub authored: String,
    /// The path as spelled, symlinks kept.
    pub logical: Vec<PathComponent>,
    /// The path with every symlink resolved.
    pub canonical: Vec<PathComponent>,
    /// Whether everything below the path is excluded too.
    pub recursive: bool,
}

/// The exclusions in force for one invocation.
#[derive(Debug)]
pub struct ResolvedExclusions {
    pub entries: Vec<ResolvedExclusion>,
}

/// How an adapter names one excluded path: its display, with a trailing `/`
/// when the exclusion covers the whole tree below it.
pub open spec fn adapter_path(p: Seq<PathComponent>, recursive: bool) -> Seq<char> {
    display_spec(parts(p)) + if recursive {
        seq!['/']
    } else {
        seq![]
    }
}

/// The adapter paths of the first `n` entries: the logical path, then the
/// canonical one, for each.
pub open spec fn adapter_paths_spec(entries: Seq<ResolvedExclusion>, n: nat) -> Seq<Seq<char>>
    decreases n,
{
    if n == 0 || n > entries.len() {
        seq![]
    } else {
        let e = entries[n - 1];
        adapter_paths_spec(entries, (n - 1) as nat).push(adapter_path(e.logical@, e.recursive)).push(
            adapter_path(e.canonical@, e.recursive),
        )
    }
}

fn adapter_text(p: &Vec<PathComponent>, recursive: bool) -> (out: String)
    ensures
        out@ == adapter_path(p@, recursive),
{
    let mut out = display_path(p);
    if recursive {
        push_str(&mut out, "/");
        proof {
            reveal_strlit("/");
        }
    }
    assert(out@ =~= adapter_path(p@, recursive));
    out
}

impl ResolvedExclusions {
    /// The paths handed to an agent adapter: for every entry its logical and
    /// its canonical path, so a symlinked spelling cannot slip past, each
    /// keeping the entry's recursion.
    pub fn adapter_paths(&self) -> (out: Vec<String>)
        ensures
            out@.len() == 2 * self.entries@.len(),
            forall|i: int|
                0 <= i < out@.len() ==> #[trigger] out@[i]@ == adapter_paths_spec(
                    self.entries@,
                    self.entries@.len(),
                )[i],
    {
        let mut out: Vec<String> = Vec::new();
        let mut i: usize = 0;
        while i < self.entries.len()
            invariant
                i <= self.entries@.len(),
                out@.len() == 2 * i,
                adapter_paths_spec(self.entries@, i as nat).len() == 2 * i,
                forall|k: int|
                    0 <= k < out@.len() ==> #[trigger] out@[k]@ == adapter_paths_spec(
                        self.entries@,
                        i as nat,
                    )[k],
            decreases self.entries.len() - i,
        {
            let e = &self.entries[i];
            out.push(adapter_text(&e.logical, e.recursive));
            out.push(adapter_text(&e.canonical, e.recursive));
            i += 1;
        }
        out
    }
}

} // verus!
