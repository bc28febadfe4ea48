//! Snapshot inheritance rules: checking an operator's `--from-snapshot`
//! choice against the effective `snapshot.inherit` contract, the task overlay
//! that makes a contract effective, and whether a plan can ever satisfy it.
use vstd::prelude::*;
use crate::registry::{reg_get, reg_insert, sorted};
use crate::text::{decimal, push_str, str_eq, u64_to_string};

verus! {

/// A `snapshot.inherit.select` visit or generation selector as authored.
#[derive(Debug, PartialEq, Eq)]
pub enum SnapshotSelector {
    /// An exact number.
    Number(u64),
    /// A word such as `latest` or `current`.
    Named(String),
    /// Anything else the machine wrote there.
    Other,
}

/// The `snapshot.inherit.select` block: which emitted snapshot qualifies.
#[derive(Debug, PartialEq, Eq)]
pub struct SnapshotSelect {
    pub state: Option<String>,
    pub target: Option<String>,
    pub visit: Option<SnapshotSelector>,
    pub generation: Option<SnapshotSelector>,
}

/// A state's `snapshot.inherit` rule, or the effective rule after a task's
/// overlay.
#[derive(Debug, PartialEq, Eq)]
pub struct SnapshotInheritConfig {
    pub name: String,
    pub from_axis: Option<String>,
    pub compat: Option<String>,
    pub required: Option<bool>,
    pub select: Option<SnapshotSelect>,
}

/// One recorded snapshot in the shared cache, as contract checks read it.
#[derive(Debug, PartialEq, Eq)]
pub struct SnapshotRecord {
    pub snapshot_name: String,
    pub task_id: String,
    pub emitting_state: String,
    pub target_slug: String,
    pub visit: u64,
    pub generation: u64,
    pub is_current: bool,
    /// Who wrote the record: `orchestrator` for the ones runs produce.
    pub produced_by: String,
    /// How messages name the record.
    pub display_ref: String,
}

/// Which guidance a refusal points to.
#[derive(Clone, Copy, Debug, PartialEq, Eq, Structural)]
pub enum SnapshotHelp {
    /// How `snapshot.inherit` selects a source.
    Inherit,
    /// How the state machine declares snapshot rules.
    StateMachine,
}

/// Why an operator's `--from-snapshot` choice was refused.
#[derive(Debug)]
pub struct SnapshotRefusal {
    pub message: String,
    pub help: SnapshotHelp,
}

/// The axis a rule inherits along; `self` when it names none.
pub open spec fn axis_of(inherit: SnapshotInheritConfig) -> Seq<char> {
    match inherit.from_axis {
        Some(a) => a@,
        None => "self"@,
    }
}

/// Whether the rule names the `prior` axis itself.
pub open spec fn names_prior(inherit: SnapshotInheritConfig) -> bool {
    inherit.from_axis matches Some(a) && a@ == "prior"@
}

/// Whether some entry of `s` spells `x`.
pub open spec fn lists(s: Seq<String>, x: Seq<char>) -> bool {
    exists|j: int| 0 <= j < s.len() && #[trigger] s[j]@ == x
}

/// Whether a candidate counts toward a `latest` reading: under a named
/// `prior` axis only the selected record's own task does.
pub open spec fn counts(c: SnapshotRecord, only_task: Option<Seq<char>>) -> bool {
    match only_task {
        Some(t) => c.task_id@ == t,
        None => true,
    }
}

/// The latest visit among the counted candidates.
pub open spec fn latest_visit(cands: Seq<SnapshotRecord>, only_task: Option<Seq<char>>) -> Option<u64>
    decreases cands.len(),
{
    if cands.len() == 0 {
        None
    } else {
        let rest = latest_visit(cands.drop_last(), only_task);
        let c = cands.last();
        if !counts(c, only_task) {
            rest
        } else {
            match rest {
                Some(v) => Some(if c.visit > v { c.visit } else { v }),
                None => Some(c.visit),
            }
        }
    }
}

/// The latest generation among the counted candidates of one visit.
pub open spec fn latest_generation(cands: Seq<SnapshotRecord>, only_task: Option<Seq<char>>, visit: u64) -> Option<u64>
    decreases cands.len(),
{
    if cands.len() == 0 {
        None
    } else {
        let rest = latest_generation(cands.drop_last(), only_task, visit);
        let c = cands.last();
        if !counts(c, only_task) || c.visit != visit {
            rest
        } else {
            match rest {
                Some(g) => Some(if c.generation > g { c.generation } else { g }),
                None => Some(c.generation),
            }
        }
    }
}

/// The task a `latest` reading is confined to.
pub open spec fn latest_scope(inherit: SnapshotInheritConfig, r: SnapshotRecord) -> Option<Seq<char>> {
    if names_prior(inherit) { Some(r.task_id@) } else { None }
}

/// A refusal that points to the inheritance guidance.
pub open spec fn contract(m: Seq<char>) -> Option<(Seq<char>, SnapshotHelp)> {
    Some((m, SnapshotHelp::Inherit))
}

/// The refusal of a record whose task the rule's axis does not allow.
pub open spec fn source_refusal(
    task_id: Seq<char>,
    current_state: Seq<char>,
    inherit: SnapshotInheritConfig,
    visit_count: u64,
    prior_sources: Seq<String>,
    ancestors: Seq<String>,
    r: SnapshotRecord,
) -> Option<(Seq<char>, SnapshotHelp)> {
    let axis = axis_of(inherit);
    if axis == "self"@ {
        if r.task_id@ != task_id {
            contract("--from-snapshot selected task '"@ + r.task_id@ + "', but snapshot.inherit.from: self requires task '"@
                + task_id + "'"@)
        } else if r.emitting_state@ == current_state && r.visit >= visit_count {
            contract("--from-snapshot selected "@ + r.display_ref@
                + " from the current or future visit; snapshot.inherit.from: self only permits prior visits"@)
        } else {
            None
        }
    } else if axis == "ancestor"@ {
        if !lists(ancestors, r.task_id@) {
            contract("--from-snapshot selected task '"@ + r.task_id@
                + "', but snapshot.inherit.from: ancestor requires an ancestor of task '"@ + task_id + "'"@)
        } else {
            None
        }
    } else if axis == "prior"@ {
        if !lists(prior_sources, r.task_id@) {
            contract("--from-snapshot selected task '"@ + r.task_id@
                + "', but it is not a declared Prior source eligible for task '"@ + task_id + "'"@)
        } else {
            None
        }
    } else {
        Some(("unsupported snapshot.inherit.from '"@ + axis + "' while validating --from-snapshot"@, SnapshotHelp::StateMachine))
    }
}

/// The refusal of a record that is not the latest visit a default selection
/// asks for.
pub open spec fn default_visit_refusal(inherit: SnapshotInheritConfig, r: SnapshotRecord, cands: Seq<SnapshotRecord>) -> Option<(Seq<char>, SnapshotHelp)> {
    let latest = latest_visit(cands, latest_scope(inherit, r));
    if latest != Some(r.visit) {
        contract("--from-snapshot selected visit "@ + decimal(r.visit as nat)
            + ", but snapshot.inherit.select.visit defaults to latest visit "@
            + decimal(latest.unwrap_or(r.visit) as nat))
    } else {
        None
    }
}

/// The refusal of a record that an explicit visit selector excludes.
pub open spec fn visit_refusal(inherit: SnapshotInheritConfig, r: SnapshotRecord, cands: Seq<SnapshotRecord>, visit: SnapshotSelector) -> Option<(Seq<char>, SnapshotHelp)> {
    match visit {
        SnapshotSelector::Number(n) => if r.visit != n {
            contract("--from-snapshot selected visit "@ + decimal(r.visit as nat)
                + ", but snapshot.inherit.select.visit requires "@ + decimal(n as nat))
        } else {
            None
        },
        SnapshotSelector::Named(w) => {
            let latest = latest_visit(cands, latest_scope(inherit, r));
            if w@ == "latest"@ && latest != Some(r.visit) {
                contract("--from-snapshot selected visit "@ + decimal(r.visit as nat)
                    + ", but snapshot.inherit.select.visit requires latest visit "@
                    + decimal(latest.unwrap_or(r.visit) as nat))
            } else {
                None
            }
        },
        SnapshotSelector::Other => None,
    }
}

/// The refusal of a record that is not current where a selection defaults to
/// the current generation.
pub open spec fn default_generation_refusal(r: SnapshotRecord) -> Option<(Seq<char>, SnapshotHelp)> {
    if !r.is_current {
        contract("--from-snapshot selected "@ + r.display_ref@
            + ", but snapshot.inherit.select.generation defaults to current"@)
    } else {
        None
    }
}

/// The refusal of a record that an explicit generation selector excludes.
pub open spec fn generation_refusal(inherit: SnapshotInheritConfig, r: SnapshotRecord, cands: Seq<SnapshotRecord>, generation: SnapshotSelector) -> Option<(Seq<char>, SnapshotHelp)> {
    match generation {
        SnapshotSelector::Number(n) => if r.generation != n {
            contract("--from-snapshot selected generation "@ + decimal(r.generation as nat)
                + ", but snapshot.inherit.select.generation requires "@ + decimal(n as nat))
        } else {
            None
        },
        SnapshotSelector::Named(w) => {
            let latest = latest_generation(cands, latest_scope(inherit, r), r.visit);
            if w@ == "latest"@ {
                if latest != Some(r.generation) {
                    contract("--from-snapshot selected generation "@ + decimal(r.generation as nat)
                        + ", but snapshot.inherit.select.generation requires latest generation "@
                        + decimal(latest.unwrap_or(r.generation) as nat))
                } else {
                    None
                }
            } else if w@ == "current"@ && !r.is_current {
                contract("--from-snapshot selected "@ + r.display_ref@
                    + ", but snapshot.inherit.select.generation requires current"@)
            } else {
                None
            }
        },
        SnapshotSelector::Other => None,
    }
}

/// The first of two checks that refuses.
pub open spec fn first_of(a: Option<(Seq<char>, SnapshotHelp)>, b: Option<(Seq<char>, SnapshotHelp)>) -> Option<(Seq<char>, SnapshotHelp)> {
    if a is Some { a } else { b }
}

/// The refusal of a record that the rule's `select` block (or its absence)
/// excludes, checked as state, target, visit, then generation.
pub open spec fn select_refusal(inherit: SnapshotInheritConfig, target_slug: Seq<char>, r: SnapshotRecord, cands: Seq<SnapshotRecord>) -> Option<(Seq<char>, SnapshotHelp)> {
    match inherit.select {
        None => first_of(default_visit_refusal(inherit, r, cands), default_generation_refusal(r)),
        Some(sel) => {
            let state_check = match sel.state {
                Some(s) => if r.emitting_state@ != s@ {
                    contract("--from-snapshot selected emitting state '"@ + r.emitting_state@
                        + "', but snapshot.inherit.select.state requires '"@ + s@ + "'"@)
                } else {
                    None
                },
                None => None,
            };
            let target_check = match sel.target {
                Some(t) => {
                    let required = if t@ == "same"@ { target_slug } else { t@ };
                    if r.target_slug@ != required {
                        contract("--from-snapshot selected target '"@ + r.target_slug@
                            + "', but snapshot.inherit.select.target requires '"@ + required + "'"@)
                    } else {
                        None
                    }
                },
                None => None,
            };
            let visit_check = match sel.visit {
                Some(v) => visit_refusal(inherit, r, cands, v),
                None => default_visit_refusal(inherit, r, cands),
            };
            let generation_check = match sel.generation {
                Some(g) => generation_refusal(inherit, r, cands, g),
                None => default_generation_refusal(r),
            };
            first_of(state_check, first_of(target_check, first_of(visit_check, generation_check)))
        },
    }
}

/// Whether the rule asks for a natively compatible session.
pub open spec fn wants_native(inherit: SnapshotInheritConfig) -> bool {
    match inherit.compat {
        Some(c) => c@ == "native"@,
        None => true,
    }
}

/// Why `r` does not satisfy the effective contract, if it does not: the name
/// first, then the axis's source, the selection, and native compatibility.
pub open spec fn override_refusal(
    task_id: Seq<char>,
    current_state: Seq<char>,
    inherit: SnapshotInheritConfig,
    target_slug: Seq<char>,
    visit_count: u64,
    prior_sources: Seq<String>,
    ancestors: Seq<String>,
    r: SnapshotRecord,
    cands: Seq<SnapshotRecord>,
    native_compatible: bool,
    agent_id: Seq<char>,
) -> Option<(Seq<char>, SnapshotHelp)> {
    if r.snapshot_name@ != inherit.name@ {
        contract("--from-snapshot selected snapshot name '"@ + r.snapshot_name@
            + "', but snapshot.inherit requires '"@ + inherit.name@ + "'"@)
    } else {
        first_of(
            source_refusal(task_id, current_state, inherit, visit_count, prior_sources, ancestors, r),
            first_of(
                select_refusal(inherit, target_slug, r, cands),
                if wants_native(inherit) && !native_compatible {
                    contract("--from-snapshot selected snapshot "@ + r.display_ref@
                        + " is not native-compatible with agent '"@ + agent_id + "'"@)
                } else {
                    None
                },
            ),
        )
    }
}

/// Whether a refusal handed back is the one the contract describes.
pub open spec fn told(out: Option<SnapshotRefusal>, expected: Option<(Seq<char>, SnapshotHelp)>) -> bool {
    match expected {
        Some((m, h)) => out matches Some(e) && e.message@ == m && e.help == h,
        None => out is None,
    }
}

fn refuse(message: String) -> (out: Option<SnapshotRefusal>)
    ensures
        told(out, contract(message@)),
{
    Some(SnapshotRefusal { message, help: SnapshotHelp::Inherit })
}

fn text3(a: &str, b: &str, c: &str) -> (out: String)
    ensures
        out@ == a@ + b@ + c@,
{
    let mut out = String::new();
    push_str(&mut out, a);
    push_str(&mut out, b);
    push_str(&mut out, c);
    out
}

fn text5(a: &str, b: &str, c: &str, d: &str, e: &str) -> (out: String)
    ensures
        out@ == a@ + b@ + c@ + d@ + e@,
{
    let mut out = text3(a, b, c);
    push_str(&mut out, d);
    push_str(&mut out, e);
    out
}

fn numbers(a: &str, x: u64, b: &str, y: u64) -> (out: String)
    ensures
        out@ == a@ + decimal(x as nat) + b@ + decimal(y as nat),
{
    let xs = u64_to_string(x);
    let ys = u64_to_string(y);
    let mut out = text3(a, xs.as_str(), b);
    push_str(&mut out, ys.as_str());
    out
}

fn lists_exec(s: &Vec<String>, x: &str) -> (r: bool)
    ensures
        r == lists(s@, x@),
{
    let mut i: usize = 0;
    while i < s.len()
        invariant
            i <= s.len(),
            forall|j: int| 0 <= j < i ==> s@[j]@ != x@,
        decreases s.len() - i,
    {
        if str_eq(s[i].as_str(), x) {
            return true;
        }
        i = i + 1;
    }
    false
}

fn counts_exec(c: &SnapshotRecord, only_task: Option<&str>) -> (r: bool)
    ensures
        r == counts(*c, match only_task { Some(t) => Some(t@), None => None }),
{
    match only_task {
        Some(t) => str_eq(c.task_id.as_str(), t),
        None => true,
    }
}

fn latest_visit_exec(cands: &Vec<SnapshotRecord>, only_task: Option<&str>) -> (out: Option<u64>)
    ensures
        out == latest_visit(cands@, match only_task { Some(t) => Some(t@), None => None }),
{
    let ghost scope = match only_task { Some(t) => Some(t@), None => None };
    let mut best: Option<u64> = None;
    let mut i: usize = 0;
    while i < cands.len()
        invariant
            i <= cands.len(),
            scope == (match only_task { Some(t) => Some(t@), None => None }),
            best == latest_visit(cands@.subrange(0, i as int), scope),
        decreases cands.len() - i,
    {
        assert(cands@.subrange(0, i + 1).drop_last() =~= cands@.subrange(0, i as int));
        let c = &cands[i];
        if counts_exec(c, only_task) {
            best = match best {
                Some(v) => Some(if c.visit > v { c.visit } else { v }),
                None => Some(c.visit),
            };
        }
        i = i + 1;
    }
    assert(cands@.subrange(0, cands.len() as int) =~= cands@);
    best
}

fn latest_generation_exec(cands: &Vec<SnapshotRecord>, only_task: Option<&str>, visit: u64) -> (out: Option<u64>)
    ensures
        out == latest_generation(cands@, match only_task { Some(t) => Some(t@), None => None }, visit),
{
    let ghost scope = match only_task { Some(t) => Some(t@), None => None };
    let mut best: Option<u64> = None;
    let mut i: usize = 0;
    while i < cands.len()
        invariant
            i <= cands.len(),
            scope == (match only_task { Some(t) => Some(t@), None => None }),
            best == latest_generation(cands@.subrange(0, i as int), scope, visit),
        decreases cands.len() - i,
    {
        assert(cands@.subrange(0, i + 1).drop_last() =~= cands@.subrange(0, i as int));
        let c = &cands[i];
        if counts_exec(c, only_task) && c.visit == visit {
            best = match best {
                Some(g) => Some(if c.generation > g { c.generation } else { g }),
                None => Some(c.generation),
            };
        }
        i = i + 1;
    }
    assert(cands@.subrange(0, cands.len() as int) =~= cands@);
    best
}

fn is_word(s: &Option<String>, w: &str) -> (r: bool)
    ensures
        r == (s matches Some(a) && a@ == w@),
{
    match s {
        Some(a) => str_eq(a.as_str(), w),
        None => false,
    }
}

fn scope_task<'a>(inherit: &SnapshotInheritConfig, r: &'a SnapshotRecord) -> (out: Option<&'a str>)
    ensures
        (match out { Some(t) => Some(t@), None => None }) == latest_scope(*inherit, *r),
{
    if is_word(&inherit.from_axis, "prior") { Some(r.task_id.as_str()) } else { None }
}

fn source_check(
    task_id: &str,
    current_state: &str,
    inherit: &SnapshotInheritConfig,
    visit_count: u64,
    prior_sources: &Vec<String>,
    ancestors: &Vec<String>,
    r: &SnapshotRecord,
) -> (out: Option<SnapshotRefusal>)
    ensures
        told(out, source_refusal(task_id@, current_state@, *inherit, visit_count, prior_sources@, ancestors@, *r)),
{
    let axis: &str = match &inherit.from_axis {
        Some(a) => a.as_str(),
        None => "self",
    };
    if str_eq(axis, "self") {
        if !str_eq(r.task_id.as_str(), task_id) {
            refuse(text5("--from-snapshot selected task '", r.task_id.as_str(),
                "', but snapshot.inherit.from: self requires task '", task_id, "'"))
        } else if str_eq(r.emitting_state.as_str(), current_state) && r.visit >= visit_count {
            refuse(text3("--from-snapshot selected ", r.display_ref.as_str(),
                " from the current or future visit; snapshot.inherit.from: self only permits prior visits"))
        } else {
            None
        }
    } else if str_eq(axis, "ancestor") {
        if !lists_exec(ancestors, r.task_id.as_str()) {
            refuse(text5("--from-snapshot selected task '", r.task_id.as_str(),
                "', but snapshot.inherit.from: ancestor requires an ancestor of task '", task_id, "'"))
        } else {
            None
        }
    } else if str_eq(axis, "prior") {
        if !lists_exec(prior_sources, r.task_id.as_str()) {
            refuse(text5("--from-snapshot selected task '", r.task_id.as_str(),
                "', but it is not a declared Prior source eligible for task '", task_id, "'"))
        } else {
            None
        }
    } else {
        Some(SnapshotRefusal {
            message: text3("unsupported snapshot.inherit.from '", axis, "' while validating --from-snapshot"),
            help: SnapshotHelp::StateMachine,
        })
    }
}

fn default_visit_check(inherit: &SnapshotInheritConfig, r: &SnapshotRecord, cands: &Vec<SnapshotRecord>) -> (out: Option<SnapshotRefusal>)
    ensures
        told(out, default_visit_refusal(*inherit, *r, cands@)),
{
    let latest = latest_visit_exec(cands, scope_task(inherit, r));
    if latest != Some(r.visit) {
        let shown = match latest { Some(v) => v, None => r.visit };
        refuse(numbers("--from-snapshot selected visit ", r.visit,
            ", but snapshot.inherit.select.visit defaults to latest visit ", shown))
    } else {
        None
    }
}

fn visit_check(inherit: &SnapshotInheritConfig, r: &SnapshotRecord, cands: &Vec<SnapshotRecord>, visit: &SnapshotSelector) -> (out: Option<SnapshotRefusal>)
    ensures
        told(out, visit_refusal(*inherit, *r, cands@, *visit)),
{
    match visit {
        SnapshotSelector::Number(n) => if r.visit != *n {
            refuse(numbers("--from-snapshot selected visit ", r.visit,
                ", but snapshot.inherit.select.visit requires ", *n))
        } else {
            None
        },
        SnapshotSelector::Named(w) => {
            if str_eq(w.as_str(), "latest") {
                let latest = latest_visit_exec(cands, scope_task(inherit, r));
                if latest != Some(r.visit) {
                    let shown = match latest { Some(v) => v, None => r.visit };
                    return refuse(numbers("--from-snapshot selected visit ", r.visit,
                        ", but snapshot.inherit.select.visit requires latest visit ", shown));
                }
            }
            None
        },
        SnapshotSelector::Other => None,
    }
}

fn default_generation_check(r: &SnapshotRecord) -> (out: Option<SnapshotRefusal>)
    ensures
        told(out, default_generation_refusal(*r)),
{
    if !r.is_current {
        refuse(text3("--from-snapshot selected ", r.display_ref.as_str(),
            ", but snapshot.inherit.select.generation defaults to current"))
    } else {
        None
    }
}

fn generation_check(inherit: &SnapshotInheritConfig, r: &SnapshotRecord, cands: &Vec<SnapshotRecord>, generation: &SnapshotSelector) -> (out: Option<SnapshotRefusal>)
    ensures
        told(out, generation_refusal(*inherit, *r, cands@, *generation)),
{
    match generation {
        SnapshotSelector::Number(n) => if r.generation != *n {
            refuse(numbers("--from-snapshot selected generation ", r.generation,
                ", but snapshot.inherit.select.generation requires ", *n))
        } else {
            None
        },
        SnapshotSelector::Named(w) => {
            if str_eq(w.as_str(), "latest") {
                let latest = latest_generation_exec(cands, scope_task(inherit, r), r.visit);
                if latest != Some(r.generation) {
                    let shown = match latest { Some(g) => g, None => r.generation };
                    return refuse(numbers("--from-snapshot selected generation ", r.generation,
                        ", but snapshot.inherit.select.generation requires latest generation ", shown));
                }
                None
            } else if str_eq(w.as_str(), "current") && !r.is_current {
                refuse(text3("--from-snapshot selected ", r.display_ref.as_str(),
                    ", but snapshot.inherit.select.generation requires current"))
            } else {
                None
            }
        },
        SnapshotSelector::Other => None,
    }
}

fn select_check(inherit: &SnapshotInheritConfig, target_slug: &str, r: &SnapshotRecord, cands: &Vec<SnapshotRecord>) -> (out: Option<SnapshotRefusal>)
    ensures
        told(out, select_refusal(*inherit, target_slug@, *r, cands@)),
{
    match &inherit.select {
        None => {
            let v = default_visit_check(inherit, r, cands);
            if v.is_some() {
                return v;
            }
            default_generation_check(r)
        },
        Some(sel) => {
            if let Some(s) = &sel.state {
                if !str_eq(r.emitting_state.as_str(), s.as_str()) {
                    return refuse(text5("--from-snapshot selected emitting state '", r.emitting_state.as_str(),
                        "', but snapshot.inherit.select.state requires '", s.as_str(), "'"));
                }
            }
            if let Some(t) = &sel.target {
                let required: &str = if str_eq(t.as_str(), "same") { target_slug } else { t.as_str() };
                if !str_eq(r.target_slug.as_str(), required) {
                    return refuse(text5("--from-snapshot selected target '", r.target_slug.as_str(),
                        "', but snapshot.inherit.select.target requires '", required, "'"));
                }
            }
            let v = match &sel.visit {
                Some(v) => visit_check(inherit, r, cands, v),
                None => default_visit_check(inherit, r, cands),
            };
            if v.is_some() {
                return v;
            }
            match &sel.generation {
                Some(g) => generation_check(inherit, r, cands, g),
                None => default_generation_check(r),
            }
        },
    }
}

/// Check an operator's `--from-snapshot` record against the effective
/// `snapshot.inherit` contract of the task about to run. `ancestors` are the
/// task's ancestor ids, `prior_sources` its eligible Prior sources,
/// `candidates` the orchestrator-produced records the axis admits (what a
/// `latest` reading ranges over), and `native_compatible` whether the record's
/// session can resume natively with agent `agent_id`.
pub fn validate_snapshot_override_contract(
    task_id: &str,
    current_state: &str,
    inherit: &SnapshotInheritConfig,
    target_slug: &str,
    visit_count: u64,
    prior_sources: &Vec<String>,
    ancestors: &Vec<String>,
    record: &SnapshotRecord,
    candidates: &Vec<SnapshotRecord>,
    native_compatible: bool,
    agent_id: &str,
) -> (out: Result<(), SnapshotRefusal>)
    ensures
        match override_refusal(task_id@, current_state@, *inherit, target_slug@, visit_count, prior_sources@,
            ancestors@, *record, candidates@, native_compatible, agent_id@) {
            Some((m, h)) => out matches Err(e) && e.message@ == m && e.help == h,
            None => out is Ok,
        },
{
    if !str_eq(record.snapshot_name.as_str(), inherit.name.as_str()) {
        return Err(SnapshotRefusal {
            message: text5("--from-snapshot selected snapshot name '", record.snapshot_name.as_str(),
                "', but snapshot.inherit requires '", inherit.name.as_str(), "'"),
            help: SnapshotHelp::Inherit,
        });
    }
    if let Some(e) = source_check(task_id, current_state, inherit, visit_count, prior_sources, ancestors, record) {
        return Err(e);
    }
    if let Some(e) = select_check(inherit, target_slug, record, candidates) {
        return Err(e);
    }
    let native = match &inherit.compat {
        Some(c) => str_eq(c.as_str(), "native"),
        None => true,
    };
    if native && !native_compatible {
        return Err(SnapshotRefusal {
            message: text5("--from-snapshot selected snapshot ", record.display_ref.as_str(),
                " is not native-compatible with agent '", agent_id, "'"),
            help: SnapshotHelp::Inherit,
        });
    }
    Ok(())
}

/// The operator's `--from-snapshot` choice for one run: which task and target
/// it was meant for, and whether an invocation has taken it already.
#[derive(Debug)]
pub struct SnapshotOverrideSelection {
    pub task_id: String,
    pub target_slug: String,
    pub consumed: bool,
}

/// Whether this invocation takes the operator's override: only where it has an
/// override reference, and then only the selected task and target's first
/// invocation does, which marks the choice consumed. Without a recorded
/// selection every invocation with a reference takes it.
pub fn take_snapshot_override_for_invocation(
    selection: &mut Option<SnapshotOverrideSelection>,
    task_id: &str,
    target_slug: &str,
    has_override_ref: bool,
) -> (taken: bool)
    ensures
        !has_override_ref ==> !taken && *final(selection) == *old(selection),
        has_override_ref && *old(selection) is None ==> taken && *final(selection) is None,
        has_override_ref ==> (*old(selection) matches Some(s) ==> ({
            let meant = s.task_id@ == task_id@ && s.target_slug@ == target_slug@;
            &&& taken == (meant && !s.consumed)
            &&& *final(selection) matches Some(f)
            &&& f.task_id == s.task_id && f.target_slug == s.target_slug
            &&& f.consumed == (s.consumed || meant)
        })),
{
    if !has_override_ref {
        return false;
    }
    match selection {
        None => true,
        Some(s) => {
            if str_eq(s.task_id.as_str(), task_id) && str_eq(s.target_slug.as_str(), target_slug) {
                let was = s.consumed;
                s.consumed = true;
                !was
            } else {
                false
            }
        },
    }
}

/// A task's own `Inherits` control: switched off, or a named rule along an axis.
#[derive(Debug, PartialEq, Eq)]
pub enum TaskSnapshotInherit {
    Disabled,
    Rule { name: String, from_axis: String },
}

/// A state's snapshot declarations: the snapshot it emits and the rule it
/// inherits by, where it has them.
#[derive(Debug, PartialEq, Eq)]
pub struct SnapshotStateDef {
    pub name: String,
    pub emit: Option<String>,
    pub inherit: Option<SnapshotInheritConfig>,
    /// Whether the state polls a program rather than spawning an agent.
    pub polls: bool,
}

/// The snapshot declarations of a machine's states, one entry per state.
#[derive(Debug, PartialEq, Eq)]
pub struct SnapshotMachine {
    pub states: Vec<SnapshotStateDef>,
}

/// The inherit rule of the first state named `state`.
pub open spec fn state_rule(states: Seq<SnapshotStateDef>, state: Seq<char>) -> Option<SnapshotInheritConfig>
    decreases states.len(),
{
    if states.len() == 0 {
        None
    } else if states[0].name@ == state {
        states[0].inherit
    } else {
        state_rule(states.drop_first(), state)
    }
}

/// The effective rule: the state's, unless the task switches inheritance off
/// or overlays its own name and axis, which keep the state's selectors and
/// policy fields.
pub open spec fn effective_inherit(
    states: Seq<SnapshotStateDef>,
    task: Option<TaskSnapshotInherit>,
    state: Seq<char>,
) -> Option<SnapshotInheritConfig> {
    let rule = state_rule(states, state);
    match task {
        None => rule,
        Some(TaskSnapshotInherit::Disabled) => None,
        Some(TaskSnapshotInherit::Rule { name, from_axis }) => Some(match rule {
            Some(c) => SnapshotInheritConfig { name, from_axis: Some(from_axis), ..c },
            None => SnapshotInheritConfig { name, from_axis: Some(from_axis), compat: None, required: None, select: None },
        }),
    }
}

fn copy_string(s: &String) -> (out: String)
    ensures
        out == *s,
{
    s.clone()
}

fn copy_opt_string(s: &Option<String>) -> (out: Option<String>)
    ensures
        out == *s,
{
    match s {
        Some(x) => Some(copy_string(x)),
        None => None,
    }
}

fn copy_selector(s: &SnapshotSelector) -> (out: SnapshotSelector)
    ensures
        out == *s,
{
    match s {
        SnapshotSelector::Number(n) => SnapshotSelector::Number(*n),
        SnapshotSelector::Named(w) => SnapshotSelector::Named(copy_string(w)),
        SnapshotSelector::Other => SnapshotSelector::Other,
    }
}

fn copy_opt_selector(s: &Option<SnapshotSelector>) -> (out: Option<SnapshotSelector>)
    ensures
        out == *s,
{
    match s {
        Some(x) => Some(copy_selector(x)),
        None => None,
    }
}

fn copy_config(c: &SnapshotInheritConfig) -> (out: SnapshotInheritConfig)
    ensures
        out == *c,
{
    SnapshotInheritConfig {
        name: copy_string(&c.name),
        from_axis: copy_opt_string(&c.from_axis),
        compat: copy_opt_string(&c.compat),
        required: c.required,
        select: match &c.select {
            Some(sel) => Some(SnapshotSelect {
                state: copy_opt_string(&sel.state),
                target: copy_opt_string(&sel.target),
                visit: copy_opt_selector(&sel.visit),
                generation: copy_opt_selector(&sel.generation),
            }),
            None => None,
        },
    }
}

fn state_rule_exec(states: &Vec<SnapshotStateDef>, state: &str) -> (out: Option<SnapshotInheritConfig>)
    ensures
        out == state_rule(states@, state@),
{
    let mut i: usize = 0;
    assert(states@.subrange(0, states.len() as int) =~= states@);
    while i < states.len()
        invariant
            i <= states.len(),
            state_rule(states@, state@) == state_rule(states@.subrange(i as int, states.len() as int), state@),
        decreases states.len() - i,
    {
        assert(states@.subrange(i as int, states.len() as int).drop_first() =~= states@.subrange(i + 1, states.len() as int));
        if str_eq(states[i].name.as_str(), state) {
            return match &states[i].inherit {
                Some(c) => Some(copy_config(c)),
                None => None,
            };
        }
        i = i + 1;
    }
    None
}

/// Overlay the task's authored control onto the active state's rule. The
/// task form replaces only the name and axis; an explicit `none` removes the
/// effective contract altogether.
pub fn effective_snapshot_inherit(
    machine: &SnapshotMachine,
    task_inherits: &Option<TaskSnapshotInherit>,
    current_state: &str,
) -> (out: Option<SnapshotInheritConfig>)
    ensures
        out == effective_inherit(machine.states@, *task_inherits, current_state@),
{
    let rule = state_rule_exec(&machine.states, current_state);
    match task_inherits {
        None => rule,
        Some(TaskSnapshotInherit::Disabled) => None,
        Some(TaskSnapshotInherit::Rule { name, from_axis }) => Some(match rule {
            Some(c) => SnapshotInheritConfig {
                name: copy_string(name),
                from_axis: Some(copy_string(from_axis)),
                compat: c.compat,
                required: c.required,
                select: c.select,
            },
            None => SnapshotInheritConfig {
                name: copy_string(name),
                from_axis: Some(copy_string(from_axis)),
                compat: None,
                required: None,
                select: None,
            },
        }),
    }
}

/// The state a rule's selection pins, if it pins one.
pub open spec fn selected_state(inherit: SnapshotInheritConfig) -> Option<Seq<char>> {
    match inherit.select {
        Some(sel) => match sel.state {
            Some(s) => Some(s@),
            None => None,
        },
        None => None,
    }
}

/// Whether a state can emit the snapshot a rule inherits.
pub open spec fn emits_for(d: SnapshotStateDef, inherit: SnapshotInheritConfig) -> bool {
    &&& match selected_state(inherit) {
        Some(s) => s == d.name@,
        None => true,
    }
    &&& d.emit matches Some(e) && e@ == inherit.name@
}

/// The names of the states that can emit the inherited snapshot, in order.
pub open spec fn emitter_states(states: Seq<SnapshotStateDef>, inherit: SnapshotInheritConfig) -> Seq<Seq<char>>
    decreases states.len(),
{
    if states.len() == 0 {
        Seq::empty()
    } else {
        let rest = emitter_states(states.drop_last(), inherit);
        if emits_for(states.last(), inherit) { rest.push(states.last().name@) } else { rest }
    }
}

/// The characters of each string.
pub open spec fn spelled(s: Seq<String>) -> Seq<Seq<char>> {
    s.map_values(|x: String| x@)
}

/// The states of `machine` that can emit the snapshot `inherit` names, within
/// the state its selection pins.
pub fn matching_snapshot_emitter_states(machine: &SnapshotMachine, inherit: &SnapshotInheritConfig) -> (out: Vec<String>)
    ensures
        spelled(out@) == emitter_states(machine.states@, *inherit),
{
    let states = &machine.states;
    let selected: Option<&str> = match &inherit.select {
        Some(sel) => match &sel.state {
            Some(s) => Some(s.as_str()),
            None => None,
        },
        None => None,
    };
    let mut out: Vec<String> = Vec::new();
    let mut i: usize = 0;
    while i < states.len()
        invariant
            i <= states.len(),
            (match selected { Some(s) => Some(s@), None => None }) == selected_state(*inherit),
            spelled(out@) == emitter_states(states@.subrange(0, i as int), *inherit),
        decreases states.len() - i,
    {
        assert(states@.subrange(0, i + 1).drop_last() =~= states@.subrange(0, i as int));
        let d = &states[i];
        let in_selection = match selected {
            Some(s) => str_eq(s, d.name.as_str()),
            None => true,
        };
        let emits = match &d.emit {
            Some(e) => str_eq(e.as_str(), inherit.name.as_str()),
            None => false,
        };
        if in_selection && emits {
            let ghost before = out@;
            out.push(copy_string(&d.name));
            assert(spelled(out@) =~= spelled(before).push(d.name@));
        }
        i = i + 1;
    }
    assert(states@.subrange(0, states.len() as int) =~= states@);
    out
}

/// Whether a machine has a state that can emit the inherited snapshot.
pub open spec fn can_emit(m: SnapshotMachine, inherit: SnapshotInheritConfig) -> bool {
    emitter_states(m.states@, inherit).len() > 0
}

/// The index of the nearest source in `sources[from..]` whose machine can emit
/// the inherited snapshot.
pub open spec fn first_emitting(sources: Seq<(String, SnapshotMachine)>, inherit: SnapshotInheritConfig, from: int) -> Option<int>
    decreases sources.len() - from,
{
    if from < 0 || from >= sources.len() {
        None
    } else if can_emit(sources[from].1, inherit) {
        Some(from)
    } else {
        first_emitting(sources, inherit, from + 1)
    }
}

proof fn lemma_first_emitting(sources: Seq<(String, SnapshotMachine)>, inherit: SnapshotInheritConfig, from: int)
    requires
        0 <= from,
    ensures
        first_emitting(sources, inherit, from) is Some <==> exists|j: int| from <= j < sources.len() && can_emit(#[trigger] sources[j].1, inherit),
    decreases sources.len() - from,
{
    if from < sources.len() {
        lemma_first_emitting(sources, inherit, from + 1);
        if can_emit(sources[from].1, inherit) {
            assert(from <= from < sources.len() && can_emit(sources[from].1, inherit));
        }
    }
}

/// The nearest ancestor, of `(id, machine)` pairs given nearest first, whose
/// machine can emit the inherited snapshot.
pub fn nearest_matching_ancestor_source(inherit: &SnapshotInheritConfig, ancestors: &Vec<(String, SnapshotMachine)>) -> (out: Option<usize>)
    ensures
        (match out { Some(i) => Some(i as int), None => None }) == first_emitting(ancestors@, *inherit, 0),
{
    let mut i: usize = 0;
    while i < ancestors.len()
        invariant
            i <= ancestors.len(),
            first_emitting(ancestors@, *inherit, 0) == first_emitting(ancestors@, *inherit, i as int),
        decreases ancestors.len() - i,
    {
        let states = matching_snapshot_emitter_states(&ancestors[i].1, inherit);
        if states.len() > 0 {
            return Some(i);
        }
        i = i + 1;
    }
    None
}

/// Why no source can ever satisfy the effective rule, if none can: along
/// `self` the task's own machine, along `ancestor` any ancestor's, along
/// `prior` any declared Prior source's. An axis this check does not know is
/// left to the state checks.
pub open spec fn emitter_error(
    task_id: Seq<char>,
    inherit: SnapshotInheritConfig,
    own: SnapshotMachine,
    ancestors: Seq<(String, SnapshotMachine)>,
    priors: Seq<(String, SnapshotMachine)>,
) -> Option<Seq<char>> {
    let axis = axis_of(inherit);
    let matched = if axis == "self"@ {
        Some(can_emit(own, inherit))
    } else if axis == "ancestor"@ {
        Some(exists|j: int| 0 <= j < ancestors.len() && can_emit(#[trigger] ancestors[j].1, inherit))
    } else if axis == "prior"@ {
        Some(exists|j: int| 0 <= j < priors.len() && can_emit(#[trigger] priors[j].1, inherit))
    } else {
        None
    };
    match matched {
        Some(false) => Some("Task "@ + task_id + " has unresolvable effective snapshot inheritance '"@ + inherit.name@
            + "' from "@ + axis + " (no possible snapshot.emit source matches)"@),
        _ => None,
    }
}

fn any_emitting(sources: &Vec<(String, SnapshotMachine)>, inherit: &SnapshotInheritConfig) -> (r: bool)
    ensures
        r == exists|j: int| 0 <= j < sources.len() && can_emit(#[trigger] sources@[j].1, *inherit),
{
    let found = nearest_matching_ancestor_source(inherit, sources);
    proof {
        lemma_first_emitting(sources@, *inherit, 0);
    }
    found.is_some()
}

/// Validate the effective task/state rule against the plan graph: the message
/// naming the task whose rule no possible `snapshot.emit` source matches.
/// `own` is the task's machine; `ancestors` (nearest first) and
/// `prior_sources` pair each source task with its owning machine.
pub fn effective_snapshot_emitter_error(
    task_id: &str,
    inherit: &SnapshotInheritConfig,
    own: &SnapshotMachine,
    ancestors: &Vec<(String, SnapshotMachine)>,
    prior_sources: &Vec<(String, SnapshotMachine)>,
) -> (out: Option<String>)
    ensures
        (match out { Some(m) => Some(m@), None => None }) == emitter_error(task_id@, *inherit, *own, ancestors@, prior_sources@),
{
    let axis: &str = match &inherit.from_axis {
        Some(a) => a.as_str(),
        None => "self",
    };
    let matched = if str_eq(axis, "self") {
        matching_snapshot_emitter_states(own, inherit).len() > 0
    } else if str_eq(axis, "ancestor") {
        any_emitting(ancestors, inherit)
    } else if str_eq(axis, "prior") {
        any_emitting(prior_sources, inherit)
    } else {
        return None;
    };
    if matched {
        return None;
    }
    let mut m = text5("Task ", task_id, " has unresolvable effective snapshot inheritance '", inherit.name.as_str(), "' from ");
    push_str(&mut m, axis);
    push_str(&mut m, " (no possible snapshot.emit source matches)");
    Some(m)
}

/// A task's overlay takes only the name and axis from the task: whatever the
/// state's rule selects and requires is kept, a state without a rule gets a
/// bare one, and `none` leaves no contract at all.
pub proof fn task_overlay_replaces_only_name_and_axis(
    states: Seq<SnapshotStateDef>,
    name: String,
    from_axis: String,
    state: Seq<char>,
)
    ensures
        effective_inherit(states, Some(TaskSnapshotInherit::Disabled), state) is None,
        effective_inherit(states, None, state) == state_rule(states, state),
        ({
            let e = effective_inherit(states, Some(TaskSnapshotInherit::Rule { name, from_axis }), state).unwrap();
            &&& e.name == name
            &&& e.from_axis == Some(from_axis)
            &&& match state_rule(states, state) {
                Some(c) => e.compat == c.compat && e.required == c.required && e.select == c.select,
                None => e.compat is None && e.required is None && e.select is None,
            }
        }),
{
}

/// The emitter states are exactly the machine's states that can emit the
/// inherited snapshot within the selection.
pub proof fn emitter_states_are_exactly_the_emitting_states(states: Seq<SnapshotStateDef>, inherit: SnapshotInheritConfig)
    ensures
        forall|n: Seq<char>| #[trigger] emitter_states(states, inherit).contains(n)
            <==> exists|j: int| 0 <= j < states.len() && states[j].name@ == n && emits_for(#[trigger] states[j], inherit),
    decreases states.len(),
{
    if states.len() > 0 {
        let init = states.drop_last();
        emitter_states_are_exactly_the_emitting_states(init, inherit);
        let rest = emitter_states(init, inherit);
        assert forall|n: Seq<char>| #[trigger] emitter_states(states, inherit).contains(n)
            <==> exists|j: int| 0 <= j < states.len() && states[j].name@ == n && emits_for(#[trigger] states[j], inherit) by {
            if emitter_states(states, inherit).contains(n) {
                if rest.contains(n) {
                    let j = choose|j: int| 0 <= j < init.len() && init[j].name@ == n && emits_for(#[trigger] init[j], inherit);
                    assert(states[j] == init[j]);
                } else {
                    let k = states.len() - 1;
                    assert(emits_for(states.last(), inherit) && rest.push(states.last().name@).contains(n));
                    assert(n == states.last().name@) by {
                        let i = choose|i: int| 0 <= i < rest.push(states.last().name@).len() && rest.push(states.last().name@)[i] == n;
                        if i < rest.len() {
                            assert(rest[i] == n);
                        }
                    }
                    assert(states[k] == states.last());
                }
            }
            if exists|j: int| 0 <= j < states.len() && states[j].name@ == n && emits_for(#[trigger] states[j], inherit) {
                let j = choose|j: int| 0 <= j < states.len() && states[j].name@ == n && emits_for(#[trigger] states[j], inherit);
                if j < states.len() - 1 {
                    assert(init[j] == states[j]);
                    assert(rest.contains(n));
                    if emits_for(states.last(), inherit) {
                        let i = choose|i: int| 0 <= i < rest.len() && rest[i] == n;
                        assert(rest.push(states.last().name@)[i] == n);
                    }
                } else {
                    assert(states[j] == states.last());
                    assert(rest.push(states.last().name@)[rest.len() as int] == n);
                }
            }
        }
    }
}

/// A record the contract accepts carries the inherited snapshot's name, comes
/// from a source the axis allows (along `self` the task itself at an earlier
/// visit or in another state, along `ancestor` an ancestor, along `prior` an
/// eligible Prior source, and no other axis), and, where no generation
/// selector is written, is the current generation.
pub proof fn an_accepted_override_satisfies_the_contract(
    task_id: Seq<char>,
    current_state: Seq<char>,
    inherit: SnapshotInheritConfig,
    target_slug: Seq<char>,
    visit_count: u64,
    prior_sources: Seq<String>,
    ancestors: Seq<String>,
    r: SnapshotRecord,
    cands: Seq<SnapshotRecord>,
    native_compatible: bool,
    agent_id: Seq<char>,
)
    requires
        override_refusal(task_id, current_state, inherit, target_slug, visit_count, prior_sources, ancestors, r,
            cands, native_compatible, agent_id) is None,
    ensures
        r.snapshot_name@ == inherit.name@,
        axis_of(inherit) == "self"@ ==> r.task_id@ == task_id && !(r.emitting_state@ == current_state && r.visit >= visit_count),
        axis_of(inherit) == "ancestor"@ ==> lists(ancestors, r.task_id@),
        axis_of(inherit) == "prior"@ ==> lists(prior_sources, r.task_id@),
        axis_of(inherit) == "self"@ || axis_of(inherit) == "ancestor"@ || axis_of(inherit) == "prior"@,
        (inherit.select matches Some(sel) ==> sel.generation is None) ==> r.is_current,
        wants_native(inherit) ==> native_compatible,
{
    reveal_strlit("self");
    reveal_strlit("ancestor");
    reveal_strlit("prior");
    assert("self"@.len() == 4 && "ancestor"@.len() == 8 && "prior"@.len() == 5);
}

/// The refusal of an operator override where no inheritance contract is in
/// effect: the task opted out, or the state declares none.
pub open spec fn no_contract_message(task_disables: bool, task_id: Seq<char>, current_state: Seq<char>) -> Seq<char> {
    if task_disables {
        "--from-snapshot has no effective snapshot inheritance contract because Task "@ + task_id
            + " declares **Inherits:** none; --override-inherit does not bypass the opt-out"@
    } else {
        "--from-snapshot requires the target state '"@ + current_state
            + "' to declare snapshot.inherit; --override-inherit does not bypass that authored contract"@
    }
}

/// Why `--from-snapshot` cannot apply to an invocation without an effective
/// inheritance contract; `task_disables` says the task wrote `**Inherits:** none`.
pub fn override_without_contract_message(task_disables: bool, task_id: &str, current_state: &str) -> (out: String)
    ensures
        out@ == no_contract_message(task_disables, task_id@, current_state@),
{
    if task_disables {
        text3("--from-snapshot has no effective snapshot inheritance contract because Task ", task_id,
            " declares **Inherits:** none; --override-inherit does not bypass the opt-out")
    } else {
        text3("--from-snapshot requires the target state '", current_state,
            "' to declare snapshot.inherit; --override-inherit does not bypass that authored contract")
    }
}

/// What `compat: none` does to a preload.
#[derive(Debug, PartialEq, Eq)]
pub enum CompatGate {
    /// Go on to select a source.
    Proceed,
    /// Preload is disabled; the run goes on without one.
    Disabled,
    /// The operator's override cannot apply.
    Refuse(String),
}

/// The compat setting a rule declares, `native` when it declares none.
pub open spec fn compat_of(compat: Option<Seq<char>>) -> Seq<char> {
    match compat {
        Some(c) => c,
        None => "native"@,
    }
}

/// `compat: none` disables authored preload unless `--override-inherit` is
/// given, and refuses an operator override outright in that case.
pub fn compat_gate(override_applies: bool, compat: Option<&str>, override_inherit: bool, name: &str) -> (out: CompatGate)
    ensures
        ({
            let none = compat_of(match compat { Some(c) => Some(c@), None => None }) == "none"@ && !override_inherit;
            &&& none && override_applies ==> (out matches CompatGate::Refuse(m) && m@ == "--from-snapshot cannot override snapshot.inherit '"@
                + name@ + "' because compat: none disables authored preload; pass --override-inherit to bypass compatibility checks"@)
            &&& none && !override_applies ==> out == CompatGate::Disabled
            &&& !none ==> out == CompatGate::Proceed
        }),
{
    let c: &str = match compat {
        Some(c) => c,
        None => "native",
    };
    let none = str_eq(c, "none") && !override_inherit;
    if none && override_applies {
        CompatGate::Refuse(text3("--from-snapshot cannot override snapshot.inherit '", name,
            "' because compat: none disables authored preload; pass --override-inherit to bypass compatibility checks"))
    } else if none {
        CompatGate::Disabled
    } else {
        CompatGate::Proceed
    }
}

/// What a preload knows of the source it selected.
#[derive(Debug)]
pub struct PreloadSource {
    /// How messages name the source.
    pub display_ref: String,
    /// Whether the source session completed by timeout.
    pub timed_out: bool,
    /// Whether the source can resume natively with the invocation's agent.
    pub native_compatible: bool,
}

/// Which guidance a refused preload points to.
#[derive(Clone, Copy, Debug, PartialEq, Eq, Structural)]
pub enum PreloadHelp {
    /// How snapshots are declared and preloaded.
    Snapshot,
    /// How a snapshot session resumes.
    Resume,
    /// What is cached and how to produce it.
    CachedSources,
}

/// The guidance for a required snapshot that the cache does not hold.
pub fn cached_sources_help() -> (out: String)
    ensures
        out@ == "no cached snapshot matches that inherit selector. List what is cached with: rhei snapshot list, or run the producing state first."@,
{
    let mut out = String::new();
    push_str(&mut out, "no cached snapshot matches that inherit selector. List what is cached with: rhei snapshot list, or run the producing state first.");
    out
}

/// The outcome of a named-inheritance preload once its source is known.
#[derive(Debug, PartialEq, Eq)]
pub enum PreloadOutcome {
    /// Preload from the source.
    Preload,
    /// Run cold after printing this line.
    Cold(String),
    /// Refuse the run with this message and guidance.
    Refuse(String, PreloadHelp),
}

/// The outcome's shape in the contract: `Ok(())` to preload, `Err((line,
/// None))` to run cold, `Err((message, Some(help)))` to refuse.
pub open spec fn outcome_is(v: PreloadOutcome, expected: Result<(), (Seq<char>, Option<PreloadHelp>)>) -> bool {
    match expected {
        Ok(()) => v == PreloadOutcome::Preload,
        Err((line, None)) => v matches PreloadOutcome::Cold(m) && m@ == line,
        Err((line, Some(h))) => v matches PreloadOutcome::Refuse(m, g) && m@ == line && g == h,
    }
}

/// A refusal when the rule is required, a cold run with the warning otherwise.
pub open spec fn strict_or_cold(required: bool, refusal: Seq<char>, help: PreloadHelp, warning: Seq<char>) -> Result<(), (Seq<char>, Option<PreloadHelp>)> {
    if required { Err((refusal, Some(help))) } else { Err((warning, None)) }
}

/// A named-inheritance preload's outcome: without a source, with a source that
/// timed out or cannot resume natively where `native` compat is asked (unless
/// `--override-inherit`), or with an agent that has no supported preload
/// session, a required rule refuses and an optional one runs cold.
pub open spec fn preload_outcome_spec(
    required: bool,
    name: Seq<char>,
    source: Option<PreloadSource>,
    wants_native: bool,
    override_inherit: bool,
    agent_id: Seq<char>,
    session_supported: bool,
) -> Result<(), (Seq<char>, Option<PreloadHelp>)> {
    match source {
        None => strict_or_cold(required, "missing-snapshot: no snapshot found for inherit '"@ + name + "'"@,
            PreloadHelp::CachedSources, "warning: no snapshot found for inherit: "@ + name + "; running cold"@),
        Some(s) => if s.timed_out && !override_inherit {
            strict_or_cold(required, "incompatible-snapshot: selected snapshot "@ + s.display_ref@
                + " completed by timeout and is not preloadable"@, PreloadHelp::Resume,
                "warning: timed-out snapshot "@ + s.display_ref@ + " is not preloadable; running cold"@)
        } else if wants_native && !override_inherit && !s.native_compatible {
            strict_or_cold(required, "incompatible-snapshot: selected snapshot "@ + s.display_ref@
                + " is not native-compatible with agent '"@ + agent_id + "'"@, PreloadHelp::Resume,
                "warning: preload skipped: incompatible agent for "@ + s.display_ref@ + "; running cold"@)
        } else if !session_supported {
            strict_or_cold(required, "unsupported-snapshot-session: agent '"@ + agent_id
                + "' has no supported snapshot preload strategy"@, PreloadHelp::Snapshot,
                "warning: unsupported-snapshot-session: agent '"@ + agent_id
                + "' has no supported snapshot preload strategy; running cold"@)
        } else {
            Ok(())
        },
    }
}

fn strict_or_cold_exec(required: bool, refusal: String, help: PreloadHelp, warning: String) -> (out: PreloadOutcome)
    ensures
        outcome_is(out, strict_or_cold(required, refusal@, help, warning@)),
{
    if required { PreloadOutcome::Refuse(refusal, help) } else { PreloadOutcome::Cold(warning) }
}

/// Decide a named-inheritance preload once its source is selected.
/// `session_supported` says the agent has a snapshot session with a supported
/// preload strategy; `wants_native` that the rule's compat is `native`.
pub fn preload_outcome(
    required: bool,
    name: &str,
    source: &Option<PreloadSource>,
    wants_native: bool,
    override_inherit: bool,
    agent_id: &str,
    session_supported: bool,
) -> (out: PreloadOutcome)
    ensures
        outcome_is(out, preload_outcome_spec(required, name@, *source, wants_native, override_inherit, agent_id@, session_supported)),
{
    match source {
        None => strict_or_cold_exec(required, text3("missing-snapshot: no snapshot found for inherit '", name, "'"),
            PreloadHelp::CachedSources, text3("warning: no snapshot found for inherit: ", name, "; running cold")),
        Some(s) => if s.timed_out && !override_inherit {
            strict_or_cold_exec(required, text3("incompatible-snapshot: selected snapshot ", s.display_ref.as_str(),
                " completed by timeout and is not preloadable"), PreloadHelp::Resume,
                text3("warning: timed-out snapshot ", s.display_ref.as_str(), " is not preloadable; running cold"))
        } else if wants_native && !override_inherit && !s.native_compatible {
            strict_or_cold_exec(required, text5("incompatible-snapshot: selected snapshot ", s.display_ref.as_str(),
                " is not native-compatible with agent '", agent_id, "'"), PreloadHelp::Resume,
                text3("warning: preload skipped: incompatible agent for ", s.display_ref.as_str(), "; running cold"))
        } else if !session_supported {
            strict_or_cold_exec(required, text3("unsupported-snapshot-session: agent '", agent_id,
                "' has no supported snapshot preload strategy"), PreloadHelp::Snapshot,
                text3("warning: unsupported-snapshot-session: agent '", agent_id,
                "' has no supported snapshot preload strategy; running cold"))
        } else {
            PreloadOutcome::Preload
        },
    }
}

/// Strictness decides how a failed preload ends: a required rule never runs
/// cold and an optional one never refuses; a usable source preloads either way.
pub proof fn strictness_decides_refusal_or_cold_run(
    name: Seq<char>,
    source: Option<PreloadSource>,
    wants_native: bool,
    override_inherit: bool,
    agent_id: Seq<char>,
    session_supported: bool,
)
    ensures
        ({
            let strict = preload_outcome_spec(true, name, source, wants_native, override_inherit, agent_id, session_supported);
            let lenient = preload_outcome_spec(false, name, source, wants_native, override_inherit, agent_id, session_supported);
            &&& !(strict matches Err((_, None)))
            &&& !(lenient matches Err((_, Some(_))))
            &&& (strict is Ok <==> lenient is Ok)
        }),
{
}

/// Whether a state-local continuation may start: not on a first visit, and
/// only with an agent whose snapshot session supports preload. On success,
/// the visit whose snapshot continues; otherwise the line to print before
/// running cold.
pub fn continuation_gate(visit_count: u64, current_state: &str, agent_id: &str, session_supported: bool) -> (out: Result<u64, String>)
    ensures
        visit_count <= 1 ==> (out matches Err(m) && m@ == "info: session continuation starts cold for state '"@ + current_state@
            + "': no previous visit exists; running cold"@),
        visit_count > 1 && !session_supported ==> (out matches Err(m) && m@ == "warning: agent '"@ + agent_id@
            + "' has no supported snapshot preload strategy; running cold"@),
        visit_count > 1 && session_supported ==> out == Ok::<u64, String>((visit_count - 1) as u64),
{
    if visit_count <= 1 {
        return Err(text3("info: session continuation starts cold for state '", current_state,
            "': no previous visit exists; running cold"));
    }
    if !session_supported {
        return Err(text3("warning: agent '", agent_id, "' has no supported snapshot preload strategy; running cold"));
    }
    Ok(visit_count - 1)
}

/// Whether a record is the one a state-local continuation reads: the task's
/// own `_state` snapshot of that state, visit and target, produced by the
/// orchestrator and current.
pub open spec fn is_continuation_record(r: SnapshotRecord, task_id: Seq<char>, state: Seq<char>, visit: u64, target_slug: Seq<char>) -> bool {
    &&& r.task_id@ == task_id
    &&& r.snapshot_name@ == "_state"@
    &&& r.emitting_state@ == state
    &&& r.visit == visit
    &&& r.target_slug@ == target_slug
    &&& r.produced_by@ == "orchestrator"@
    &&& r.is_current
}

/// The check a continuation applies to the record its live pointer names.
pub fn continuation_record_matches(r: &SnapshotRecord, task_id: &str, state: &str, visit: u64, target_slug: &str) -> (b: bool)
    ensures
        b == is_continuation_record(*r, task_id@, state@, visit, target_slug@),
{
    str_eq(r.task_id.as_str(), task_id) && str_eq(r.snapshot_name.as_str(), "_state")
        && str_eq(r.emitting_state.as_str(), state) && r.visit == visit && str_eq(r.target_slug.as_str(), target_slug)
        && str_eq(r.produced_by.as_str(), "orchestrator") && r.is_current
}

/// What reading a continuation's source found.
#[derive(Debug)]
pub enum ContinuationRead {
    /// No current snapshot for that identity.
    Missing,
    /// The snapshot could not be read, for this reason.
    Unreadable(String),
    /// A source was found.
    Found {
        display_ref: String,
        timed_out: bool,
        /// Why its session cannot resume natively, where it cannot.
        incompatibility: Option<String>,
    },
}

/// The line a continuation prints before running cold, if the source read
/// does not continue: a missing, unreadable, timed-out or natively
/// incompatible source. Every such failure degrades; none refuses the run.
pub open spec fn continuation_cold_line(state: Seq<char>, previous_visit: u64, target_slug: Seq<char>, read: ContinuationRead) -> Option<Seq<char>> {
    match read {
        ContinuationRead::Missing => Some("warning: no current snapshot found for state '"@ + state + "' visit "@
            + decimal(previous_visit as nat) + " target '"@ + target_slug + "'; running cold"@),
        ContinuationRead::Unreadable(e) => Some("warning: previous session snapshot is unreadable ("@ + e@ + "); running cold"@),
        ContinuationRead::Found { display_ref, timed_out, incompatibility } => if timed_out {
            Some("warning: timed-out snapshot "@ + display_ref@ + " is not preloadable; running cold"@)
        } else {
            match incompatibility {
                Some(reason) => Some("warning: preload skipped: incompatible snapshot "@ + display_ref@ + " ("@ + reason@
                    + "); running cold"@),
                None => None,
            }
        },
    }
}

/// Decide whether a state-local continuation goes on with the source it read.
pub fn continuation_outcome(current_state: &str, previous_visit: u64, target_slug: &str, read: &ContinuationRead) -> (out: Option<String>)
    ensures
        (match out { Some(m) => Some(m@), None => None }) == continuation_cold_line(current_state@, previous_visit, target_slug@, *read),
{
    match read {
        ContinuationRead::Missing => {
            let v = u64_to_string(previous_visit);
            let mut m = text5("warning: no current snapshot found for state '", current_state, "' visit ", v.as_str(), " target '");
            push_str(&mut m, target_slug);
            push_str(&mut m, "'; running cold");
            Some(m)
        },
        ContinuationRead::Unreadable(e) => Some(text3("warning: previous session snapshot is unreadable (", e.as_str(), "); running cold")),
        ContinuationRead::Found { display_ref, timed_out, incompatibility } => if *timed_out {
            Some(text3("warning: timed-out snapshot ", display_ref.as_str(), " is not preloadable; running cold"))
        } else {
            match incompatibility {
                Some(reason) => Some(text5("warning: preload skipped: incompatible snapshot ", display_ref.as_str(), " (",
                    reason.as_str(), "); running cold")),
                None => None,
            }
        },
    }
}

/// The arguments that hand a preloaded source to the agent: its fork flag and
/// transcript path where the session forks, else its resume flag and the
/// source's session id (empty where the manifest has none), else nothing.
pub open spec fn strategy_args(fork_flag: Option<String>, resume_flag: Option<String>, transcript: Seq<char>, session_id: Option<String>) -> Seq<Seq<char>> {
    match fork_flag {
        Some(f) => seq![f@, transcript],
        None => match resume_flag {
            Some(r) => seq![r@, match session_id { Some(i) => i@, None => Seq::empty() }],
            None => Seq::empty(),
        },
    }
}

/// The preload arguments for the agent's snapshot strategy.
pub fn preload_strategy_args(fork_flag: Option<String>, resume_flag: Option<String>, transcript: String, session_id: Option<String>) -> (out: Vec<String>)
    ensures
        spelled(out@) == strategy_args(fork_flag, resume_flag, transcript@, session_id),
{
    let mut out: Vec<String> = Vec::new();
    match fork_flag {
        Some(f) => {
            out.push(f);
            out.push(transcript);
        },
        None => match resume_flag {
            Some(r) => {
                out.push(r);
                out.push(match session_id { Some(i) => i, None => String::new() });
            },
            None => {},
        },
    }
    assert(spelled(out@) =~= strategy_args(fork_flag, resume_flag, transcript@, session_id));
    out
}

/// The file name a source transcript is staged under in the session
/// directory: `<session id or "source">.<layout extension or "jsonl">`.
pub fn staged_transcript_name(session_id: Option<&str>, ext: Option<&str>) -> (out: String)
    ensures
        out@ == (match session_id { Some(i) => i@, None => "source"@ }) + "."@ + (match ext { Some(e) => e@, None => "jsonl"@ }),
{
    let id: &str = match session_id { Some(i) => i, None => "source" };
    let e: &str = match ext { Some(e) => e, None => "jsonl" };
    text3(id, ".", e)
}

/// Whether the first state named `state` polls.
pub open spec fn state_polls(states: Seq<SnapshotStateDef>, state: Seq<char>) -> bool
    decreases states.len(),
{
    if states.len() == 0 {
        false
    } else if states[0].name@ == state {
        states[0].polls
    } else {
        state_polls(states.drop_first(), state)
    }
}

fn state_polls_exec(states: &Vec<SnapshotStateDef>, state: &str) -> (out: bool)
    ensures
        out == state_polls(states@, state@),
{
    let mut i: usize = 0;
    assert(states@.subrange(0, states.len() as int) =~= states@);
    while i < states.len()
        invariant
            i <= states.len(),
            state_polls(states@, state@) == state_polls(states@.subrange(i as int, states.len() as int), state@),
        decreases states.len() - i,
    {
        assert(states@.subrange(i as int, states.len() as int).drop_first() =~= states@.subrange(i + 1, states.len() as int));
        if str_eq(states[i].name.as_str(), state) {
            return states[i].polls;
        }
        i = i + 1;
    }
    false
}

/// The plan-context errors of one task's effective snapshot rule, in order: a
/// root task inheriting from an ancestor, a rule in a polling state, and a
/// rule no possible emitter satisfies.
pub open spec fn task_context_errors(
    task_id: Seq<char>,
    state: Seq<char>,
    is_root: bool,
    machine: SnapshotMachine,
    inherits: Option<TaskSnapshotInherit>,
    ancestors: Seq<(String, SnapshotMachine)>,
    priors: Seq<(String, SnapshotMachine)>,
) -> Seq<Seq<char>> {
    let effective = effective_inherit(machine.states@, inherits, state);
    let root_error: Seq<Seq<char>> = if is_root && (effective matches Some(e) && e.from_axis matches Some(a) && a@ == "ancestor"@) {
        seq!["Task "@ + task_id + " is a root task in state '"@ + state
            + "' but its effective snapshot inheritance uses from: ancestor (snapshot root tasks have no ancestor)"@]
    } else {
        Seq::empty()
    };
    let poll_error: Seq<Seq<char>> = if effective is Some && state_polls(machine.states@, state) {
        seq!["Task "@ + task_id + " has effective snapshot inheritance in polling state '"@ + state
            + "'; polling states cannot inherit snapshots in v1"@]
    } else {
        Seq::empty()
    };
    let emit_error: Seq<Seq<char>> = match effective {
        Some(e) => match emitter_error(task_id, e, machine, ancestors, priors) {
            Some(m) => seq![m],
            None => Seq::empty(),
        },
        None => Seq::empty(),
    };
    root_error + poll_error + emit_error
}

/// Judge one task's effective snapshot rule against the plan: `state` is its
/// normalized state, `is_root` whether it is a top-level task, `machine` its
/// own machine, and `ancestors` (nearest first) and `prior_sources` pair its
/// possible sources with their machines.
pub fn task_snapshot_context_errors(
    task_id: &str,
    state: &str,
    is_root: bool,
    machine: &SnapshotMachine,
    inherits: &Option<TaskSnapshotInherit>,
    ancestors: &Vec<(String, SnapshotMachine)>,
    prior_sources: &Vec<(String, SnapshotMachine)>,
) -> (out: Vec<String>)
    ensures
        spelled(out@) == task_context_errors(task_id@, state@, is_root, *machine, *inherits, ancestors@, prior_sources@),
{
    let effective = effective_snapshot_inherit(machine, inherits, state);
    let mut out: Vec<String> = Vec::new();
    let from_ancestor = match &effective {
        Some(e) => is_word(&e.from_axis, "ancestor"),
        None => false,
    };
    if is_root && from_ancestor {
        out.push(text5("Task ", task_id, " is a root task in state '", state,
            "' but its effective snapshot inheritance uses from: ancestor (snapshot root tasks have no ancestor)"));
    }
    if effective.is_some() && state_polls_exec(&machine.states, state) {
        out.push(text5("Task ", task_id, " has effective snapshot inheritance in polling state '", state,
            "'; polling states cannot inherit snapshots in v1"));
    }
    if let Some(e) = &effective {
        if let Some(m) = effective_snapshot_emitter_error(task_id, e, machine, ancestors, prior_sources) {
            out.push(m);
        }
    }
    assert(spelled(out@) =~= task_context_errors(task_id@, state@, is_root, *machine, *inherits, ancestors@, prior_sources@));
    out
}

/// Whether a cached snapshot no longer fits the plan: its task is gone, its
/// emitting state is not in its machine, or its target is not one the state
/// can run (`target_slugs` is `None` where they could not be resolved).
pub open spec fn is_orphaned(r: SnapshotRecord, task_ids: Seq<String>, machine: SnapshotMachine, target_slugs: Option<Seq<String>>) -> bool {
    ||| !lists(task_ids, r.task_id@)
    ||| !(exists|j: int| 0 <= j < machine.states@.len() && #[trigger] machine.states@[j].name@ == r.emitting_state@)
    ||| match target_slugs {
        None => true,
        Some(slugs) => slugs.len() == 0 || !lists(slugs, r.target_slug@),
    }
}

/// Whether a cached snapshot is orphaned relative to the loaded plan and the
/// machine of its task.
pub fn snapshot_record_is_orphaned(
    record: &SnapshotRecord,
    task_ids: &Vec<String>,
    machine: &SnapshotMachine,
    target_slugs: &Option<Vec<String>>,
) -> (b: bool)
    ensures
        b == is_orphaned(*record, task_ids@, *machine, match target_slugs { Some(t) => Some(t@), None => None }),
{
    if !lists_exec(task_ids, record.task_id.as_str()) {
        return true;
    }
    let mut found = false;
    let mut i: usize = 0;
    while i < machine.states.len()
        invariant
            i <= machine.states.len(),
            found == exists|j: int| 0 <= j < i && #[trigger] machine.states@[j].name@ == record.emitting_state@,
        decreases machine.states.len() - i,
    {
        if str_eq(machine.states[i].name.as_str(), record.emitting_state.as_str()) {
            found = true;
        }
        i = i + 1;
    }
    if !found {
        return true;
    }
    match target_slugs {
        None => true,
        Some(slugs) => slugs.len() == 0 || !lists_exec(slugs, record.target_slug.as_str()),
    }
}

/// The warning an orphaned snapshot gets.
pub fn orphaned_snapshot_warning(record: &SnapshotRecord) -> (out: String)
    ensures
        out@ == "snapshot "@ + record.display_ref@ + " is orphaned relative to the current plan/state machine"@,
{
    text3("snapshot ", record.display_ref.as_str(), " is orphaned relative to the current plan/state machine")
}

/// One resolved invocation of a state that declares snapshot operations, as
/// the registry checks read it.
#[derive(Debug)]
pub struct SnapshotInvocation {
    pub agent_id: String,
    /// The snapshot target slug its provider and model normalize to, where
    /// they resolve.
    pub target_slug: Option<String>,
    /// Whether its agent's session has a supported snapshot layout.
    pub has_layout: bool,
    /// Whether its agent's session has a supported preload strategy.
    pub has_preload: bool,
}

/// The agent that last claimed `slug` among the invocations that resolve one.
pub open spec fn slug_holder(v: Seq<SnapshotInvocation>, slug: Seq<char>) -> Option<String>
    decreases v.len(),
{
    if v.len() == 0 {
        None
    } else if v.last().target_slug matches Some(t) && t@ == slug {
        Some(v.last().agent_id)
    } else {
        slug_holder(v.drop_last(), slug)
    }
}

/// The errors one invocation adds after the ones before it.
pub open spec fn invocation_errors(
    state: Seq<char>,
    before: Seq<SnapshotInvocation>,
    inv: SnapshotInvocation,
    emits: bool,
    inherit_required: bool,
    hint: Seq<char>,
) -> Seq<Seq<char>> {
    match inv.target_slug {
        None => seq!["state '"@ + state + "' declares snapshot operations but agent '"@ + inv.agent_id@
            + "' does not resolve provider and model (snapshot-requires-target)"@],
        Some(slug) => {
            let dup: Seq<Seq<char>> = match slug_holder(before, slug@) {
                Some(prev) => seq!["state '"@ + state + "' has multiple resolved invocations for agents '"@ + prev@
                    + "' and '"@ + inv.agent_id@ + "' that normalize to snapshot target slug '"@ + slug@ + "'"@],
                None => Seq::empty(),
            };
            let layout: Seq<Seq<char>> = if emits && !inv.has_layout {
                seq!["state '"@ + state + "' declares snapshot.emit but agent '"@ + inv.agent_id@
                    + "' has no supported snapshot session layout (unsupported-snapshot-session)"@ + hint]
            } else {
                Seq::empty()
            };
            let preload: Seq<Seq<char>> = if inherit_required && !inv.has_preload {
                seq!["state '"@ + state + "' declares required snapshot.inherit but agent '"@ + inv.agent_id@
                    + "' has no supported snapshot preload strategy (unsupported-snapshot-session)"@ + hint]
            } else {
                Seq::empty()
            };
            dup + layout + preload
        },
    }
}

/// The errors of a sequence of invocations, in order.
pub open spec fn invocations_errors(state: Seq<char>, v: Seq<SnapshotInvocation>, emits: bool, inherit_required: bool, hint: Seq<char>) -> Seq<Seq<char>>
    decreases v.len(),
{
    if v.len() == 0 {
        Seq::empty()
    } else {
        invocations_errors(state, v.drop_last(), emits, inherit_required, hint)
            + invocation_errors(state, v.drop_last(), v.last(), emits, inherit_required, hint)
    }
}

/// The registry-aware errors of a state that declares snapshot operations:
/// no target tuple resolves, an invocation resolves no provider and model,
/// two invocations share a target slug, or an agent lacks the session layout
/// an emit needs or the preload strategy a required inherit needs. `hint` is
/// appended to the last two (the state's advice on dropping the block).
pub open spec fn snapshot_registry_errors_spec(
    state: Seq<char>,
    declares: bool,
    emits: bool,
    inherit_required: bool,
    hint: Seq<char>,
    invocations: Result<Seq<SnapshotInvocation>, Seq<char>>,
) -> Seq<Seq<char>> {
    if !declares {
        Seq::empty()
    } else {
        match invocations {
            Err(e) => seq!["state '"@ + state + "' declares snapshot operations but no effective target tuple resolves: "@ + e
                + " (snapshot-requires-target)"@],
            Ok(v) => if v.len() == 0 {
                seq!["state '"@ + state + "' declares snapshot operations but no effective target tuple resolves (snapshot-requires-target)"@]
            } else {
                invocations_errors(state, v, emits, inherit_required, hint)
            },
        }
    }
}

fn push_invocation_errors(
    out: &mut Vec<String>,
    seen: &mut Vec<(String, String)>,
    state: &str,
    inv: &SnapshotInvocation,
    emits: bool,
    inherit_required: bool,
    hint: &str,
    Ghost(before): Ghost<Seq<SnapshotInvocation>>,
)
    requires
        sorted(old(seen)@),
        forall|k: Seq<char>| #[trigger] reg_get(old(seen)@, k) == slug_holder(before, k),
    ensures
        sorted(final(seen)@),
        forall|k: Seq<char>| #[trigger] reg_get(final(seen)@, k) == slug_holder(before.push(*inv), k),
        spelled(final(out)@) == spelled(old(out)@) + invocation_errors(state@, before, *inv, emits, inherit_required, hint@),
{
    let ghost start = spelled(out@);
    let ghost after = before.push(*inv);
    assert(after.drop_last() =~= before);
    match &inv.target_slug {
        None => {
            out.push(text5("state '", state, "' declares snapshot operations but agent '", inv.agent_id.as_str(),
                "' does not resolve provider and model (snapshot-requires-target)"));
            assert(spelled(out@) =~= start + invocation_errors(state@, before, *inv, emits, inherit_required, hint@));
        },
        Some(slug) => {
            let previous = reg_insert(seen, copy_string(slug), copy_string(&inv.agent_id));
            let ghost dup_start = spelled(out@);
            if let Some(prev) = previous {
                let mut m = text5("state '", state, "' has multiple resolved invocations for agents '", prev.as_str(), "' and '");
                push_str(&mut m, inv.agent_id.as_str());
                push_str(&mut m, "' that normalize to snapshot target slug '");
                push_str(&mut m, slug.as_str());
                push_str(&mut m, "'");
                out.push(m);
            }
            let ghost mid = spelled(out@);
            if emits && !inv.has_layout {
                let mut m = text5("state '", state, "' declares snapshot.emit but agent '", inv.agent_id.as_str(),
                    "' has no supported snapshot session layout (unsupported-snapshot-session)");
                push_str(&mut m, hint);
                out.push(m);
            }
            let ghost mid2 = spelled(out@);
            if inherit_required && !inv.has_preload {
                let mut m = text5("state '", state, "' declares required snapshot.inherit but agent '", inv.agent_id.as_str(),
                    "' has no supported snapshot preload strategy (unsupported-snapshot-session)");
                push_str(&mut m, hint);
                out.push(m);
            }
            assert(spelled(out@) =~= start + invocation_errors(state@, before, *inv, emits, inherit_required, hint@));
            assert forall|k: Seq<char>| #[trigger] reg_get(seen@, k) == slug_holder(after, k) by {
                assert(after.last() == *inv);
            }
        },
    }
}

/// Registry-aware snapshot checks for one state: `declares` says the state
/// has a `snapshot.emit` or `snapshot.inherit`, `emits` the former,
/// `inherit_required` that its inherit is `required: true`; `invocations`
/// is what resolving the state's agent invocations gave.
pub fn snapshot_registry_errors(
    state: &str,
    declares: bool,
    emits: bool,
    inherit_required: bool,
    hint: &str,
    invocations: &Result<Vec<SnapshotInvocation>, String>,
) -> (out: Vec<String>)
    ensures
        spelled(out@) == snapshot_registry_errors_spec(state@, declares, emits, inherit_required, hint@,
            match invocations { Ok(v) => Ok(v@), Err(e) => Err(e@) }),
{
    let mut out: Vec<String> = Vec::new();
    if !declares {
        assert(spelled(out@) =~= Seq::<Seq<char>>::empty());
        return out;
    }
    match invocations {
        Err(e) => {
            out.push(text5("state '", state, "' declares snapshot operations but no effective target tuple resolves: ",
                e.as_str(), " (snapshot-requires-target)"));
            assert(spelled(out@) =~= snapshot_registry_errors_spec(state@, declares, emits, inherit_required, hint@, Err(e@)));
            out
        },
        Ok(v) => {
            if v.len() == 0 {
                out.push(text3("state '", state, "' declares snapshot operations but no effective target tuple resolves (snapshot-requires-target)"));
                assert(spelled(out@) =~= snapshot_registry_errors_spec(state@, declares, emits, inherit_required, hint@, Ok(v@)));
                return out;
            }
            let mut seen: Vec<(String, String)> = Vec::new();
            let mut i: usize = 0;
            assert(v@.take(0) =~= Seq::<SnapshotInvocation>::empty());
            assert(spelled(out@) =~= Seq::<Seq<char>>::empty());
            while i < v.len()
                invariant
                    i <= v.len(),
                    sorted(seen@),
                    forall|k: Seq<char>| #[trigger] reg_get(seen@, k) == slug_holder(v@.take(i as int), k),
                    spelled(out@) == invocations_errors(state@, v@.take(i as int), emits, inherit_required, hint@),
                decreases v.len() - i,
            {
                assert(v@.take(i + 1) =~= v@.take(i as int).push(v@[i as int]));
                assert(v@.take(i + 1).drop_last() =~= v@.take(i as int));
                push_invocation_errors(&mut out, &mut seen, state, &v[i], emits, inherit_required, hint, Ghost(v@.take(i as int)));
                i = i + 1;
            }
            assert(v@.take(v.len() as int) =~= v@);
            out
        },
    }
}

} // verus!
