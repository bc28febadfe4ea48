//! The read-only Markdown summary of a run: the numbered steps, the task
//! tally, and the selection of one completed run for an alternate-price
//! reading. Every fact comes from the accounting records the caller read;
//! nothing is estimated.
use vstd::prelude::*;
use crate::paths::{parts, Part, PathComponent, clone_path, path_eq};
use crate::registry::{ids, lemma_lex_irreflexive, lemma_sorted_registries_agree, lex_lt, reg_get, reg_insert, sorted};
use crate::report::Report;
use crate::text::{chars_of, decimal, last_occurrence, lines, lines_vec, push_str, rfind_sub, slice_vec, starts_with, str_eq, trim, trim_vec, seq_eq, u64_to_string, usize_to_string};

verus! {

/// One recorded agent invocation, as far as the summary reads it.
#[derive(Debug)]
pub struct InvocationRecord {
    /// The durable run id, when the record carries one.
    pub run_id: Option<String>,
    pub task_id: String,
    pub state: String,
    pub visit: u64,
    pub agent: String,
    pub provider: Option<String>,
    pub model: Option<String>,
    /// The humanized elapsed time, when both timestamps were recorded.
    pub duration: Option<String>,
    /// The formatted measured input total, when it was measured.
    pub input_tokens: Option<String>,
    /// The formatted measured output total, when it was measured.
    pub output_tokens: Option<String>,
}

/// `"s"` unless the count is one.
pub open spec fn plural_spec(count: nat) -> Seq<char> {
    if count == 1 {
        seq![]
    } else {
        seq!['s']
    }
}

/// The plural suffix for `count` things.
pub fn plural_s(count: usize) -> (s: &'static str)
    ensures
        s@ == plural_spec(count as nat),
{
    proof {
        reveal_strlit("");
        reveal_strlit("s");
    }
    if count == 1 {
        ""
    } else {
        "s"
    }
}

/// `<agent>, <provider>/<model>`, dropping what the record did not carry.
pub open spec fn step_actor_spec(r: InvocationRecord) -> Seq<char> {
    match (r.provider, r.model) {
        (Some(p), Some(m)) => r.agent@ + ", "@ + p@ + "/"@ + m@,
        (None, Some(m)) => r.agent@ + ", "@ + m@,
        _ => r.agent@,
    }
}

/// Who acted in one step.
pub fn summary_step_actor(record: &InvocationRecord) -> (out: String)
    ensures
        out@ == step_actor_spec(*record),
{
    let mut out = String::new();
    push_str(&mut out, record.agent.as_str());
    match (&record.provider, &record.model) {
        (Some(p), Some(m)) => {
            push_str(&mut out, ", ");
            push_str(&mut out, p.as_str());
            push_str(&mut out, "/");
            push_str(&mut out, m.as_str());
        },
        (None, Some(m)) => {
            push_str(&mut out, ", ");
            push_str(&mut out, m.as_str());
        },
        _ => {
            assert(out@ =~= record.agent@);
        },
    }
    out
}

/// The humanized duration of one step, when recorded.
pub fn summary_step_duration(record: &InvocationRecord) -> (out: Option<String>)
    ensures
        out == record.duration,
{
    record.duration.clone()
}

/// The token part of a step: the measured sides, `<input> in` then
/// `<output> out`, joined by ` / `; nothing when neither was measured.
pub open spec fn tokens_text(r: InvocationRecord) -> Option<Seq<char>> {
    match (r.input_tokens, r.output_tokens) {
        (Some(i), Some(o)) => Some(i@ + " in"@ + " / "@ + o@ + " out"@),
        (Some(i), None) => Some(i@ + " in"@),
        (None, Some(o)) => Some(o@ + " out"@),
        (None, None) => None,
    }
}

/// The token counts of one step, when any side was measured.
pub fn summary_step_tokens(record: &InvocationRecord) -> (out: Option<String>)
    ensures
        match out {
            Some(t) => tokens_text(*record) == Some(t@),
            None => tokens_text(*record) is None,
        },
{
    let mut out = String::new();
    match &record.input_tokens {
        Some(i) => {
            push_str(&mut out, i.as_str());
            push_str(&mut out, " in");
        },
        None => {},
    }
    match &record.output_tokens {
        Some(o) => {
            if record.input_tokens.is_some() {
                push_str(&mut out, " / ");
            }
            push_str(&mut out, o.as_str());
            push_str(&mut out, " out");
        },
        None => {},
    }
    if record.input_tokens.is_none() && record.output_tokens.is_none() {
        return None;
    }
    proof {
        let ri = record.input_tokens;
        let ro = record.output_tokens;
        if ri is Some && ro is Some {
            assert(out@ =~= ri->Some_0@ + " in"@ + " / "@ + ro->Some_0@ + " out"@);
        } else if ri is Some {
            assert(out@ =~= ri->Some_0@ + " in"@);
        } else if ro is Some {
            assert(out@ =~= ro->Some_0@ + " out"@);
        }
    }
    Some(out)
}

/// ` — <text>` for a present part, nothing otherwise.
pub open spec fn dash_text(o: Option<Seq<char>>) -> Seq<char> {
    match o {
        Some(t) => " — "@ + t,
        None => seq![],
    }
}

/// How many records belong to `task`.
pub open spec fn records_for_task(records: Seq<InvocationRecord>, task: Seq<char>) -> nat
    decreases records.len(),
{
    if records.len() == 0 {
        0
    } else {
        records_for_task(records.drop_last(), task) + if records.last().task_id@ == task {
            1nat
        } else {
            0nat
        }
    }
}

/// `1. \`<task>\` <state>`.
pub open spec fn step_head_spec(index: nat, r: InvocationRecord) -> Seq<char> {
    decimal(index + 1) + ". `"@ + r.task_id@ + "` "@ + r.state@
}

/// A repeated visit, or a task with several records, spells its visit out.
pub open spec fn step_visit_spec(r: InvocationRecord, siblings: nat) -> Seq<char> {
    if r.visit > 1 || siblings > 1 {
        " (visit "@ + decimal(r.visit as nat) + ")"@
    } else {
        seq![]
    }
}

/// ` — <text>` for a recorded fact, nothing otherwise.
pub open spec fn dash_part(o: Option<String>) -> Seq<char> {
    match o {
        Some(t) => " — "@ + t@,
        None => seq![],
    }
}

/// The actor, duration and tokens of a step, and its line end.
pub open spec fn step_tail_spec(r: InvocationRecord) -> Seq<char> {
    " — "@ + step_actor_spec(r) + dash_part(r.duration) + dash_text(tokens_text(r)) + "\n"@
}

/// One numbered entry.
pub open spec fn step_line_spec(index: nat, r: InvocationRecord, siblings: nat) -> Seq<char> {
    step_head_spec(index, r) + step_visit_spec(r, siblings) + step_tail_spec(r)
}

/// The entries of `records.take(n)`, numbered from one.
pub open spec fn steps_spec(records: Seq<InvocationRecord>, n: nat) -> Seq<char>
    decreases n,
{
    if n == 0 || n > records.len() {
        seq![]
    } else {
        steps_spec(records, (n - 1) as nat) + step_line_spec(
            (n - 1) as nat,
            records[n - 1],
            records_for_task(records, records[n - 1].task_id@),
        )
    }
}

/// How many of `records` belong to `task`.
fn count_task_records(records: &Vec<InvocationRecord>, task: &str) -> (n: usize)
    ensures
        n == records_for_task(records@, task@),
{
    let mut n: usize = 0;
    let mut i: usize = 0;
    while i < records.len()
        invariant
            i <= records.len(),
            n == records_for_task(records@.take(i as int), task@),
            n <= i,
        decreases records.len() - i,
    {
        assert(records@.take(i + 1).drop_last() =~= records@.take(i as int));
        if str_eq(records[i].task_id.as_str(), task) {
            n += 1;
        }
        i += 1;
    }
    assert(records@.take(records.len() as int) =~= records@);
    n
}

fn push_dash_part(out: &mut String, o: &Option<String>)
    ensures
        final(out)@ == old(out)@ + dash_part(*o),
{
    match o {
        Some(t) => {
            push_str(out, " — ");
            push_str(out, t.as_str());
        },
        None => {
            assert(old(out)@ =~= old(out)@ + seq![]);
        },
    }
}

fn push_step_tail(out: &mut String, record: &InvocationRecord)
    ensures
        final(out)@ == old(out)@ + step_tail_spec(*record),
{
    push_str(out, " — ");
    let actor = summary_step_actor(record);
    push_str(out, actor.as_str());
    push_dash_part(out, &record.duration);
    let tokens = summary_step_tokens(record);
    push_dash_part(out, &tokens);
    push_str(out, "\n");
    assert(final(out)@ =~= old(out)@ + step_tail_spec(*record));
}

fn push_step_head(out: &mut String, index: usize, record: &InvocationRecord, siblings: usize)
    requires
        index < usize::MAX,
    ensures
        final(out)@ == old(out)@ + step_head_spec(index as nat, *record) + step_visit_spec(
            *record,
            siblings as nat,
        ),
{
    let n = usize_to_string(index + 1);
    push_str(out, n.as_str());
    push_str(out, ". `");
    push_str(out, record.task_id.as_str());
    push_str(out, "` ");
    push_str(out, record.state.as_str());
    let ghost at_visit = out@;
    assert(at_visit =~= old(out)@ + step_head_spec(index as nat, *record));
    if record.visit > 1 || siblings > 1 {
        push_str(out, " (visit ");
        let v = u64_to_string(record.visit);
        push_str(out, v.as_str());
        push_str(out, ")");
    }
    assert(final(out)@ =~= at_visit + step_visit_spec(*record, siblings as nat));
}

/// Append one numbered entry.
fn push_step_line(out: &mut String, index: usize, record: &InvocationRecord, siblings: usize)
    requires
        index < usize::MAX,
    ensures
        final(out)@ == old(out)@ + step_line_spec(index as nat, *record, siblings as nat),
{
    push_step_head(out, index, record, siblings);
    push_step_tail(out, record);
    assert(final(out)@ =~= old(out)@ + step_line_spec(index as nat, *record, siblings as nat));
}

/// One numbered entry per invocation record, in the order the reading
/// sorted them.
pub fn summary_steps(records: &Vec<InvocationRecord>) -> (out: String)
    ensures
        out@ == steps_spec(records@, records@.len()),
{
    let mut out = String::new();
    let mut i: usize = 0;
    while i < records.len()
        invariant
            i <= records.len(),
            out@ == steps_spec(records@, i as nat),
        decreases records.len() - i,
    {
        let siblings = count_task_records(records, records[i].task_id.as_str());
        push_step_line(&mut out, i, &records[i], siblings);
        i += 1;
    }
    out
}

// ---------------------------------------------------------------------------
// The task tally
// ---------------------------------------------------------------------------

/// How many of `states` equal `s`.
pub open spec fn count_state(states: Seq<String>, s: Seq<char>) -> nat
    decreases states.len(),
{
    if states.len() == 0 {
        0
    } else {
        count_state(states.drop_last(), s) + if states.last()@ == s {
            1nat
        } else {
            0nat
        }
    }
}

/// Whether `s` is a terminal state of the machine.
pub open spec fn is_terminal(machine: Seq<(String, bool)>, s: Seq<char>) -> bool {
    exists|i: int| 0 <= i < machine.len() && machine[i].1 && #[trigger] machine[i].0@ == s
}

/// How many of `states` are not terminal: the tasks still in progress.
pub open spec fn count_in_progress(machine: Seq<(String, bool)>, states: Seq<String>) -> nat
    decreases states.len(),
{
    if states.len() == 0 {
        0
    } else {
        count_in_progress(machine, states.drop_last()) + if is_terminal(machine, states.last()@) {
            0nat
        } else {
            1nat
        }
    }
}

/// The `(count, label)` pairs of the tally: terminal states in declaration
/// order with at least one task, then the in-progress remainder.
pub open spec fn tally_parts(machine: Seq<(String, bool)>, states: Seq<String>, n: nat) -> Seq<
    (nat, Seq<char>),
>
    decreases n,
{
    if n == 0 || n > machine.len() {
        seq![]
    } else {
        let rest = tally_parts(machine, states, (n - 1) as nat);
        let entry = machine[n - 1];
        let count = count_state(states, entry.0@);
        if entry.1 && count > 0 {
            rest.push((count, entry.0@))
        } else {
            rest
        }
    }
}

pub open spec fn all_tally_parts(machine: Seq<(String, bool)>, states: Seq<String>) -> Seq<
    (nat, Seq<char>),
> {
    let terminal = tally_parts(machine, states, machine.len());
    let progress = count_in_progress(machine, states);
    if progress > 0 {
        terminal.push((progress, "in progress"@))
    } else {
        terminal
    }
}

/// The tally's phrases: `3 tasks completed`, then `, 1 cancelled` and so on.
pub open spec fn tally_text(ps: Seq<(nat, Seq<char>)>) -> Seq<char>
    decreases ps.len(),
{
    if ps.len() == 0 {
        seq![]
    } else if ps.len() == 1 {
        decimal(ps[0].0) + " task"@ + plural_spec(ps[0].0) + " "@ + ps[0].1
    } else {
        tally_text(ps.drop_last()) + ", "@ + decimal(ps.last().0) + " "@ + ps.last().1
    }
}

/// Tasks per terminal state in machine declaration order, with the
/// in-progress remainder appended; `no tasks` when there is nothing to count.
pub open spec fn tally_states_spec(machine: Seq<(String, bool)>, states: Seq<String>) -> Seq<char> {
    let ps = all_tally_parts(machine, states);
    if ps.len() == 0 {
        "no tasks"@
    } else {
        tally_text(ps)
    }
}

fn count_state_exec(states: &Vec<String>, s: &str) -> (n: usize)
    ensures
        n == count_state(states@, s@),
{
    let mut n: usize = 0;
    let mut i: usize = 0;
    while i < states.len()
        invariant
            i <= states.len(),
            n <= i,
            n == count_state(states@.take(i as int), s@),
        decreases states.len() - i,
    {
        assert(states@.take(i + 1).drop_last() =~= states@.take(i as int));
        if str_eq(states[i].as_str(), s) {
            n += 1;
        }
        i += 1;
    }
    assert(states@.take(states.len() as int) =~= states@);
    n
}

fn is_terminal_exec(machine: &Vec<(String, bool)>, s: &str) -> (r: bool)
    ensures
        r == is_terminal(machine@, s@),
{
    let mut i: usize = 0;
    while i < machine.len()
        invariant
            i <= machine.len(),
            forall|k: int| 0 <= k < i ==> !(machine@[k].1 && #[trigger] machine@[k].0@ == s@),
        decreases machine.len() - i,
    {
        if machine[i].1 && str_eq(machine[i].0.as_str(), s) {
            return true;
        }
        i += 1;
    }
    false
}

fn count_in_progress_exec(machine: &Vec<(String, bool)>, states: &Vec<String>) -> (n: usize)
    ensures
        n == count_in_progress(machine@, states@),
{
    let mut n: usize = 0;
    let mut i: usize = 0;
    while i < states.len()
        invariant
            i <= states.len(),
            n <= i,
            n == count_in_progress(machine@, states@.take(i as int)),
        decreases states.len() - i,
    {
        assert(states@.take(i + 1).drop_last() =~= states@.take(i as int));
        if !is_terminal_exec(machine, states[i].as_str()) {
            n += 1;
        }
        i += 1;
    }
    assert(states@.take(states.len() as int) =~= states@);
    n
}

/// Append one tally phrase.
fn push_tally_part(out: &mut String, first: bool, count: usize, label: &str)
    ensures
        final(out)@ == old(out)@ + if first {
            decimal(count as nat) + " task"@ + plural_spec(count as nat) + " "@ + label@
        } else {
            ", "@ + decimal(count as nat) + " "@ + label@
        },
{
    let c = usize_to_string(count);
    if first {
        push_str(out, c.as_str());
        push_str(out, " task");
        push_str(out, plural_s(count));
        push_str(out, " ");
        push_str(out, label);
    } else {
        push_str(out, ", ");
        push_str(out, c.as_str());
        push_str(out, " ");
        push_str(out, label);
    }
}

/// Count task states against the machine's terminal states.
pub fn tally_states(machine: &Vec<(String, bool)>, states: &Vec<String>) -> (out: String)
    ensures
        out@ == tally_states_spec(machine@, states@),
{
    let mut out = String::new();
    let mut pushed: usize = 0;
    let mut i: usize = 0;
    while i < machine.len()
        invariant
            i <= machine.len(),
            pushed == tally_parts(machine@, states@, i as nat).len(),
            pushed <= i,
            out@ == tally_text(tally_parts(machine@, states@, i as nat)),
        decreases machine.len() - i,
    {
        let ghost ps = tally_parts(machine@, states@, i as nat);
        if machine[i].1 {
            let count = count_state_exec(states, machine[i].0.as_str());
            if count > 0 {
                push_tally_part(&mut out, pushed == 0, count, machine[i].0.as_str());
                pushed += 1;
                proof {
                    let np = ps.push((count as nat, machine@[i as int].0@));
                    assert(np.drop_last() =~= ps);
                    assert(tally_parts(machine@, states@, (i + 1) as nat) == np);
                    if ps.len() == 0 {
                        assert(np.len() == 1);
                    }
                }
            }
        }
        i += 1;
    }
    let progress = count_in_progress_exec(machine, states);
    let ghost ps = tally_parts(machine@, states@, machine@.len());
    let mut nonempty = pushed > 0;
    if progress > 0 {
        push_tally_part(&mut out, pushed == 0, progress, "in progress");
        nonempty = true;
        proof {
            let np = ps.push((progress as nat, "in progress"@));
            assert(np.drop_last() =~= ps);
        }
    }
    if !nonempty {
        let mut none = String::new();
        push_str(&mut none, "no tasks");
        return none;
    }
    out
}

// ---------------------------------------------------------------------------
// The lead line
// ---------------------------------------------------------------------------

/// The state of the last record of `task`.
pub open spec fn last_state(records: Seq<InvocationRecord>, task: Seq<char>) -> Option<String>
    decreases records.len(),
{
    if records.len() == 0 {
        None
    } else if records.last().task_id@ == task {
        Some(records.last().state)
    } else {
        last_state(records.drop_last(), task)
    }
}

/// Each task the records represent, with its last recorded state, in
/// task-id order.
pub open spec fn last_states(records: Seq<InvocationRecord>) -> Seq<(String, String)> {
    choose|r: Seq<(String, String)>|
        sorted(r) && forall|k: Seq<char>| #[trigger] reg_get(r, k) == last_state(records, k)
}

pub open spec fn state_values(r: Seq<(String, String)>) -> Seq<String> {
    r.map_values(|e: (String, String)| e.1)
}

/// A completed run's tally comes from the last recorded state of each task
/// it represents, never from the plan's current state.
pub fn selected_run_task_tally(machine: &Vec<(String, bool)>, records: &Vec<InvocationRecord>) -> (out: String)
    ensures
        out@ == tally_states_spec(machine@, state_values(last_states(records@))),
{
    let mut tasks: Vec<(String, String)> = Vec::new();
    let mut i: usize = 0;
    while i < records.len()
        invariant
            i <= records.len(),
            sorted(tasks@),
            forall|k: Seq<char>| #[trigger] reg_get(tasks@, k) == last_state(records@.take(i as int), k),
        decreases records.len() - i,
    {
        let ghost before = tasks@;
        reg_insert(&mut tasks, records[i].task_id.clone(), records[i].state.clone());
        assert forall|k: Seq<char>| #[trigger] reg_get(tasks@, k) == last_state(records@.take(i + 1), k) by {
            assert(records@.take(i + 1).drop_last() =~= records@.take(i as int));
            assert(records@.take(i + 1).last() == records@[i as int]);
        }
        i += 1;
    }
    assert(records@.take(records.len() as int) =~= records@);
    let mut states: Vec<String> = Vec::new();
    let mut j: usize = 0;
    while j < tasks.len()
        invariant
            j <= tasks.len(),
            states@ == state_values(tasks@.take(j as int)),
        decreases tasks.len() - j,
    {
        states.push(tasks[j].1.clone());
        assert(state_values(tasks@.take(j + 1)) =~= state_values(tasks@.take(j as int)).push(tasks@[j as int].1));
        j += 1;
    }
    assert(tasks@.take(tasks.len() as int) =~= tasks@);
    proof {
        let chosen = last_states(records@);
        assert(sorted(tasks@) && forall|k: Seq<char>| #[trigger] reg_get(tasks@, k) == last_state(records@, k));
        lemma_sorted_registries_agree(chosen, tasks@);
        assert(state_values(chosen) =~= state_values(tasks@));
    }
    tally_states(machine, &states)
}

/// Whether the record names the model `m`.
pub open spec fn names_model(r: InvocationRecord, m: Seq<char>) -> bool {
    match r.model {
        Some(x) => x@ == m,
        None => false,
    }
}

/// The distinct models the records name.
pub open spec fn model_names(records: Seq<InvocationRecord>) -> Set<Seq<char>> {
    Set::new(|m: Seq<char>| exists|i: int| 0 <= i < records.len() && #[trigger] names_model(records[i], m))
}

/// `run \`<id>\`; ` for a selected run.
pub open spec fn run_part(selected_run: Option<Seq<char>>) -> Seq<char> {
    match selected_run {
        Some(id) => "run `"@ + id + "`; "@,
        None => seq![],
    }
}

/// The lead line after the workflow name: invocation count, distinct models
/// and the task tally, which for a selected run comes from its records and
/// otherwise from the scope's task states.
pub open spec fn lead_tail_spec(
    machine: Seq<(String, bool)>,
    records: Seq<InvocationRecord>,
    scope_states: Seq<String>,
    selected_run: Option<Seq<char>>,
) -> Seq<char> {
    let models = model_names(records).len();
    let tally = match selected_run {
        Some(_) => tally_states_spec(machine, state_values(last_states(records))),
        None => tally_states_spec(machine, scope_states),
    };
    run_part(selected_run) + decimal(records.len()) + " agent invocation"@ + plural_spec(records.len())
        + " across "@ + decimal(models) + " model"@ + plural_spec(models) + "; "@ + tally + "."@
}

fn distinct_models(records: &Vec<InvocationRecord>) -> (n: usize)
    ensures
        n == model_names(records@).len(),
{
    let mut names: Vec<(String, ())> = Vec::new();
    let mut i: usize = 0;
    while i < records.len()
        invariant
            i <= records.len(),
            sorted(names@),
            forall|m: Seq<char>| #[trigger] ids(names@).contains(m) <==> model_names(records@.take(i as int)).contains(m),
        decreases records.len() - i,
    {
        let ghost before = names@;
        if let Some(m) = &records[i].model {
            reg_insert(&mut names, m.clone(), ());
        }
        assert forall|m: Seq<char>| #[trigger] ids(names@).contains(m) <==> model_names(records@.take(i + 1)).contains(m) by {
            let t0 = records@.take(i as int);
            let t1 = records@.take(i + 1);
            if model_names(t1).contains(m) {
                let w = choose|w: int| 0 <= w < t1.len() && #[trigger] names_model(t1[w], m);
                if w < i {
                    assert(t0[w] == t1[w]);
                    assert(names_model(t0[w], m));
                    assert(model_names(t0).contains(m));
                }
            }
            if model_names(t0).contains(m) {
                let w = choose|w: int| 0 <= w < t0.len() && #[trigger] names_model(t0[w], m);
                assert(t1[w] == t0[w]);
                assert(names_model(t1[w], m));
                assert(model_names(t1).contains(m));
            }
            if names_model(records@[i as int], m) {
                assert(t1[i as int] == records@[i as int]);
                assert(names_model(t1[i as int], m));
                assert(model_names(t1).contains(m));
            }
        }
        i += 1;
    }
    assert(records@.take(records.len() as int) =~= records@);
    proof {
        let ns = ids(names@);
        assert(ns.no_duplicates()) by {
            assert forall|a: int, b: int| 0 <= a < ns.len() && 0 <= b < ns.len() && a != b implies ns[a] != ns[b] by {
                if a < b {
                    assert(lex_lt(names@[a].0@, names@[b].0@));
                } else {
                    assert(lex_lt(names@[b].0@, names@[a].0@));
                }
                lemma_lex_irreflexive(ns[a]);
            }
        }
        ns.unique_seq_to_set();
        assert(ns.to_set() =~= model_names(records@));
    }
    names.len()
}

/// The lead line after the workflow name.
pub fn summary_lead_tail(
    machine: &Vec<(String, bool)>,
    records: &Vec<InvocationRecord>,
    scope_states: &Vec<String>,
    selected_run: Option<&str>,
) -> (out: String)
    ensures
        out@ == lead_tail_spec(
            machine@,
            records@,
            scope_states@,
            match selected_run {
                Some(r) => Some(r@),
                None => None,
            },
        ),
{
    let invocations = records.len();
    let models = distinct_models(records);
    let tally = match selected_run {
        Some(_) => selected_run_task_tally(machine, records),
        None => tally_states(machine, scope_states),
    };
    let mut out = String::new();
    if let Some(id) = selected_run {
        push_str(&mut out, "run `");
        push_str(&mut out, id);
        push_str(&mut out, "`; ");
    }
    let n = usize_to_string(invocations);
    push_str(&mut out, n.as_str());
    push_str(&mut out, " agent invocation");
    push_str(&mut out, plural_s(invocations));
    push_str(&mut out, " across ");
    let m = usize_to_string(models);
    push_str(&mut out, m.as_str());
    push_str(&mut out, " model");
    push_str(&mut out, plural_s(models));
    push_str(&mut out, "; ");
    push_str(&mut out, tally.as_str());
    push_str(&mut out, ".");
    out
}

/// One summary reading: the lead line, collapsible when `details`, the
/// numbered steps, and the accounting block the caller rendered.
pub open spec fn summary_reading_spec(
    name: Seq<char>,
    tail: Seq<char>,
    steps: Seq<char>,
    accounting: Seq<char>,
    details: bool,
) -> Seq<char> {
    let lead = if details {
        "<details>\n<summary>AI workflow: `"@ + name + "`, "@ + tail + "</summary>\n\n"@
    } else {
        "`"@ + name + "` workflow: "@ + tail + "\n\n"@
    };
    let body = if steps.len() > 0 {
        steps + "\n"@
    } else {
        seq![]
    };
    let close = if details {
        "\n</details>\n"@
    } else {
        seq![]
    };
    lead + body + accounting + close
}

/// Render the ordinary reading or one exact alternate-book reading with the
/// same output rules.
pub fn render_summary_reading(
    name: &str,
    machine: &Vec<(String, bool)>,
    records: &Vec<InvocationRecord>,
    scope_states: &Vec<String>,
    details: bool,
    selected_run: Option<&str>,
    accounting: &str,
) -> (out: String)
    ensures
        out@ == summary_reading_spec(
            name@,
            lead_tail_spec(
                machine@,
                records@,
                scope_states@,
                match selected_run {
                    Some(r) => Some(r@),
                    None => None,
                },
            ),
            steps_spec(records@, records@.len()),
            accounting@,
            details,
        ),
{
    let tail = summary_lead_tail(machine, records, scope_states, selected_run);
    let mut out = String::new();
    if details {
        push_str(&mut out, "<details>\n");
        push_str(&mut out, "<summary>AI workflow: `");
        push_str(&mut out, name);
        push_str(&mut out, "`, ");
        push_str(&mut out, tail.as_str());
        push_str(&mut out, "</summary>\n\n");
    } else {
        push_str(&mut out, "`");
        push_str(&mut out, name);
        push_str(&mut out, "` workflow: ");
        push_str(&mut out, tail.as_str());
        push_str(&mut out, "\n\n");
    }
    let ghost lead = out@;
    let ghost sel = match selected_run {
        Some(r) => Some(r@),
        None => None,
    };
    assert(lead == if details {
        "<details>\n"@ + "<summary>AI workflow: `"@ + name@ + "`, "@ + tail@ + "</summary>\n\n"@
    } else {
        "`"@ + name@ + "` workflow: "@ + tail@ + "\n\n"@
    });
    let steps = summary_steps(records);
    let sc = chars_of(steps.as_str());
    if sc.len() > 0 {
        push_str(&mut out, steps.as_str());
        push_str(&mut out, "\n");
    }
    let ghost body = if steps@.len() > 0 { steps@ + "\n"@ } else { seq![] };
    assert(out@ =~= lead + body);
    push_str(&mut out, accounting);
    if details {
        push_str(&mut out, "\n</details>\n");
    }
    proof {
        reveal_strlit("<details>\n");
        reveal_strlit("<summary>AI workflow: `");
        reveal_strlit("<details>\n<summary>AI workflow: `");
    }
    assert(out@ =~= summary_reading_spec(name@, tail@, steps@, accounting@, details));
    out
}

// ---------------------------------------------------------------------------
// Completed-run selection
// ---------------------------------------------------------------------------

/// Whether the record carries exactly `run_id`.
pub open spec fn run_is(r: InvocationRecord, run_id: Seq<char>) -> bool {
    match r.run_id {
        Some(x) => x@ == run_id,
        None => false,
    }
}

/// Whether the record's run id begins with `prefix`.
pub open spec fn run_starts_with(r: InvocationRecord, prefix: Seq<char>) -> bool {
    match r.run_id {
        Some(x) => prefix.len() <= x@.len() && x@.take(prefix.len() as int) == prefix,
        None => false,
    }
}

/// Whether some record carries exactly `run_id`.
pub open spec fn has_run(records: Seq<InvocationRecord>, run_id: Seq<char>) -> bool {
    exists|i: int| 0 <= i < records.len() && run_is(#[trigger] records[i], run_id)
}

/// Whether the scoped accounting union contains the exact durable id.
pub fn inspection_has_run(records: &Vec<InvocationRecord>, run_id: &str) -> (r: bool)
    ensures
        r == has_run(records@, run_id@),
{
    let mut i: usize = 0;
    while i < records.len()
        invariant
            i <= records.len(),
            forall|k: int| 0 <= k < i ==> !run_is(#[trigger] records@[k], run_id@),
        decreases records.len() - i,
    {
        if let Some(r) = &records[i].run_id {
            if str_eq(r.as_str(), run_id) {
                return true;
            }
        }
        i += 1;
    }
    false
}

/// Whether some record's run id begins with `prefix`.
pub open spec fn has_run_prefix(records: Seq<InvocationRecord>, prefix: Seq<char>) -> bool {
    exists|i: int| 0 <= i < records.len() && run_starts_with(#[trigger] records[i], prefix)
}

fn has_run_prefix_exec(records: &Vec<InvocationRecord>, prefix: &str) -> (r: bool)
    ensures
        r == has_run_prefix(records@, prefix@),
{
    let p = chars_of(prefix);
    let mut i: usize = 0;
    while i < records.len()
        invariant
            i <= records.len(),
            p@ == prefix@,
            forall|k: int| 0 <= k < i ==> !run_starts_with(#[trigger] records@[k], prefix@),
        decreases records.len() - i,
    {
        if let Some(r) = &records[i].run_id {
            let rc = chars_of(r.as_str());
            if starts_with(&rc, &p) {
                return true;
            }
        }
        i += 1;
    }
    false
}

/// The test `records_of_run` filters by.
pub open spec fn run_pred(run_id: Seq<char>) -> spec_fn(InvocationRecord) -> bool {
    |r: InvocationRecord| run_is(r, run_id)
}

/// The records of exactly `run_id`, in order.
pub open spec fn records_of_run(records: Seq<InvocationRecord>, run_id: Seq<char>) -> Seq<
    InvocationRecord,
> {
    records.filter(run_pred(run_id))
}

proof fn lemma_filter_step(s: Seq<InvocationRecord>, i: int, pred: spec_fn(InvocationRecord) -> bool)
    requires
        0 <= i < s.len(),
    ensures
        s.take(i + 1).filter(pred) == if pred(s[i]) {
            s.take(i).filter(pred).push(s[i])
        } else {
            s.take(i).filter(pred)
        },
{
    reveal(Seq::filter);
    assert(s.take(i + 1).drop_last() =~= s.take(i));
    assert(s.take(i + 1).last() == s[i]);
}

/// Why a completed run cannot be selected, in the order the checks run.
pub enum RunSelectionRefusal {
    /// The run exists in the project but outside the selected scope.
    OutsideScope,
    /// No record has the id, but some record's id begins with it.
    NotExact,
    /// No record anywhere has the id.
    Absent,
    /// A live descriptor or held lock names the run.
    Active,
    /// No immutable report records the run.
    NotCompleted,
    /// Several immutable reports claim the run.
    Ambiguous,
}

/// The refusal, if any, for summarizing `run_id` given what the readings
/// found: the scoped records, the project-wide records, liveness evidence and
/// the number of immutable reports claiming the run.
pub open spec fn run_selection_refusal(
    scoped: Seq<InvocationRecord>,
    project: Seq<InvocationRecord>,
    active: bool,
    reports: nat,
    run_id: Seq<char>,
) -> Option<RunSelectionRefusal> {
    if !has_run(scoped, run_id) {
        if has_run(project, run_id) {
            Some(RunSelectionRefusal::OutsideScope)
        } else if has_run_prefix(project, run_id) {
            Some(RunSelectionRefusal::NotExact)
        } else {
            Some(RunSelectionRefusal::Absent)
        }
    } else if active {
        Some(RunSelectionRefusal::Active)
    } else if reports == 0 {
        Some(RunSelectionRefusal::NotCompleted)
    } else if reports > 1 {
        Some(RunSelectionRefusal::Ambiguous)
    } else {
        None
    }
}

/// A reading of the accounting roots: the invocation records it holds, and
/// the errors of the records that would not parse.
#[derive(Debug)]
pub struct CostInspection {
    pub invocations: Vec<InvocationRecord>,
    pub errors: Vec<String>,
}

/// Select one exact completed run: the scoped reading must hold it, no live
/// evidence may name it, and exactly one immutable report must record it.
/// On success the scoped reading is narrowed to that run's records and keeps
/// its parse errors. `project` is the
/// project-wide reading (the scoped one when no scope narrows it);
/// `scope_label` names the selected rhei ids, or `None` for the project.
pub fn select_completed_run_for_summary(
    inspection: CostInspection,
    project: &Vec<InvocationRecord>,
    scope_label: Option<&str>,
    active: bool,
    reports: usize,
    run_id: &str,
) -> (out: Result<CostInspection, Report>)
    ensures
        out is Ok <==> run_selection_refusal(inspection.invocations@, project@, active, reports as nat, run_id@)
            is None,
        match out {
            Ok(kept) => kept.invocations@ == records_of_run(inspection.invocations@, run_id@)
                && kept.errors == inspection.errors,
            Err(e) => e.message@ == match run_selection_refusal(
                inspection.invocations@,
                project@,
                active,
                reports as nat,
                run_id@,
            ) {
                Some(RunSelectionRefusal::OutsideScope) => "run '"@ + run_id@
                    + "' is outside the selected rhei scope ("@ + match scope_label {
                    Some(l) => l@,
                    None => "the resolved project"@,
                } + ")"@,
                Some(RunSelectionRefusal::NotExact) => "run id '"@ + run_id@
                    + "' is not an exact match"@,
                Some(RunSelectionRefusal::Absent) => "run '"@ + run_id@
                    + "' is absent from the resolved project"@,
                Some(RunSelectionRefusal::Active) => "run '"@ + run_id@ + "' is active"@,
                Some(RunSelectionRefusal::NotCompleted) => "completion is not established for run '"@
                    + run_id@ + "'"@,
                Some(RunSelectionRefusal::Ambiguous) => "run '"@ + run_id@ + "' is ambiguous: "@
                    + decimal(reports as nat) + " immutable reports claim it"@,
                None => seq![],
            },
        },
{
    let CostInspection { invocations: scoped, errors } = inspection;
    let mut message = String::new();
    if !inspection_has_run(&scoped, run_id) {
        if inspection_has_run(project, run_id) {
            push_str(&mut message, "run '");
            push_str(&mut message, run_id);
            push_str(&mut message, "' is outside the selected rhei scope (");
            match scope_label {
                Some(l) => push_str(&mut message, l),
                None => push_str(&mut message, "the resolved project"),
            }
            push_str(&mut message, ")");
            let mut help = String::new();
            push_str(&mut help, "select the owning rhei with --rhei, or summarize the whole project");
            return Err(Report::with_help(message, help));
        }
        if has_run_prefix_exec(project, run_id) {
            push_str(&mut message, "run id '");
            push_str(&mut message, run_id);
            push_str(&mut message, "' is not an exact match");
            let mut help = String::new();
            push_str(&mut help, "copy the complete id from `rhei cost --by run` or `rhei runs --all`");
            return Err(Report::with_help(message, help));
        }
        push_str(&mut message, "run '");
        push_str(&mut message, run_id);
        push_str(&mut message, "' is absent from the resolved project");
        let mut help = String::new();
        push_str(&mut help, "list durable ids with `rhei cost --by run` or `rhei runs --all`");
        return Err(Report::with_help(message, help));
    }
    if active {
        push_str(&mut message, "run '");
        push_str(&mut message, run_id);
        push_str(&mut message, "' is active");
        let mut help = String::new();
        push_str(&mut help, "wait for the run to finish before applying an alternate price book");
        return Err(Report::with_help(message, help));
    }
    if reports == 0 {
        push_str(&mut message, "completion is not established for run '");
        push_str(&mut message, run_id);
        push_str(&mut message, "'");
        let mut help = String::new();
        push_str(
            &mut help,
            "an immutable timestamped report under runtime/run-reports must record this exact run",
        );
        return Err(Report::with_help(message, help));
    }
    if reports > 1 {
        push_str(&mut message, "run '");
        push_str(&mut message, run_id);
        push_str(&mut message, "' is ambiguous: ");
        let n = usize_to_string(reports);
        push_str(&mut message, n.as_str());
        push_str(&mut message, " immutable reports claim it");
        let mut help = String::new();
        push_str(&mut help, "retain one authoritative immutable report for this exact run id");
        return Err(Report::with_help(message, help));
    }
    let ghost pred = run_pred(run_id@);
    let mut kept: Vec<InvocationRecord> = Vec::new();
    let mut source = scoped;
    let ghost all = source@;
    let mut i: usize = 0;
    assert(all.skip(0) =~= all);
    assert(source.len() == all.len());
    // Keep the records of the run, in order.
    while source.len() > 0
        invariant
            i + source@.len() == all.len(),
            all.len() <= usize::MAX,
            source@ == all.skip(i as int),
            kept@ == all.take(i as int).filter(pred),
            pred == run_pred(run_id@),
            all == scoped@,
        decreases source@.len(),
    {
        let ghost before = source@;
        let r = source.remove(0);
        proof {
            assert(before[0] == all[i as int]);
            assert(r == all[i as int]);
            assert(i < all.len());
            assert(source@ =~= all.skip(i + 1));
            lemma_filter_step(all, i as int, pred);
        }
        let keep = match &r.run_id {
            Some(x) => str_eq(x.as_str(), run_id),
            None => false,
        };
        assert(run_is(r, run_id@) == keep);
        assert(pred(r) == run_is(r, run_id@));
        if keep {
            kept.push(r);
        }
        i += 1;
    }
    assert(all.take(all.len() as int) =~= all);
    Ok(CostInspection { invocations: kept, errors })
}

// ---------------------------------------------------------------------------
// Completion and liveness evidence
// ---------------------------------------------------------------------------

/// Whether one report line is the `Run:` header naming exactly `run_id` after
/// its last ` / `.
pub open spec fn line_claims_run(line: Seq<char>, run_id: Seq<char>) -> bool {
    let p = "Run: "@;
    p.len() <= line.len() && line.take(p.len() as int) == p && match last_occurrence(
        line.skip(p.len() as int),
        " / "@,
    ) {
        Some(i) => trim(line.skip(p.len() as int).skip(i + 3)) == run_id,
        None => false,
    }
}

/// Whether a report body claims the run through its authoritative `Run:`
/// header, never through a filename.
pub open spec fn report_claims_run_spec(body: Seq<char>, run_id: Seq<char>) -> bool {
    exists|i: int| 0 <= i < lines(body).len() && line_claims_run(#[trigger] lines(body)[i], run_id)
}

fn line_claims_run_exec(line: &Vec<char>, run: &Vec<char>) -> (r: bool)
    ensures
        r == line_claims_run(line@, run@),
{
    let prefix = chars_of("Run: ");
    let sep = chars_of(" / ");
    proof {
        reveal_strlit("Run: ");
        reveal_strlit(" / ");
    }
    assert(prefix@ == "Run: "@);
    if !starts_with(line, &prefix) {
        return false;
    }
    let rest = slice_vec(line, prefix.len(), line.len());
    assert(rest@ =~= line@.skip(5));
    match rfind_sub(&rest, &sep) {
        None => false,
        Some(i) => {
            proof {
                assert(i + 3 <= rest@.len());
            }
            let id = slice_vec(&rest, i + 3, rest.len());
            assert(id@ =~= rest@.skip(i + 3));
            let t = trim_vec(&id);
            seq_eq(&t, run)
        },
    }
}

/// Match the report's authoritative `Run:` header against the exact run id.
pub fn report_claims_run(body: &str, run_id: &str) -> (r: bool)
    ensures
        r == report_claims_run_spec(body@, run_id@),
{
    let cs = chars_of(body);
    let run = chars_of(run_id);
    let ls = lines_vec(&cs);
    let mut i: usize = 0;
    while i < ls.len()
        invariant
            i <= ls@.len(),
            ls@.len() == lines(body@).len(),
            cs@ == body@,
            run@ == run_id@,
            forall|k: int| 0 <= k < ls@.len() ==> #[trigger] ls@[k]@ == lines(cs@)[k],
            forall|k: int| 0 <= k < i ==> !line_claims_run(#[trigger] lines(body@)[k], run_id@),
        decreases ls.len() - i,
    {
        if line_claims_run_exec(&ls[i], &run) {
            assert(line_claims_run(lines(body@)[i as int], run_id@));
            return true;
        }
        i += 1;
    }
    false
}

/// What one selected execution root shows about a run's liveness.
#[derive(Debug)]
pub struct RootActivity {
    /// The run descriptor's id and whether its status is terminal.
    pub descriptor: Option<(String, bool)>,
    /// The id the run lock's owner record names, when readable.
    pub lock_id: Option<String>,
    /// Whether the run lock is held by a live process.
    pub lock_held: bool,
}

/// A live descriptor naming the run, or a held lock whose owner record names
/// it, is active evidence.
pub open spec fn root_shows_activity(root: RootActivity, run_id: Seq<char>) -> bool {
    (match root.descriptor {
        Some(d) => d.0@ == run_id && !d.1,
        None => false,
    }) || (match root.lock_id {
        Some(l) => l@ == run_id && root.lock_held,
        None => false,
    })
}

/// Whether any selected root shows the run still active.
pub fn selected_roots_show_activity(roots: &Vec<RootActivity>, run_id: &str) -> (r: bool)
    ensures
        r == exists|i: int| 0 <= i < roots@.len() && root_shows_activity(#[trigger] roots@[i], run_id@),
{
    let mut i: usize = 0;
    while i < roots.len()
        invariant
            i <= roots.len(),
            forall|k: int| 0 <= k < i ==> !root_shows_activity(#[trigger] roots@[k], run_id@),
        decreases roots.len() - i,
    {
        let root = &roots[i];
        let live_descriptor = match &root.descriptor {
            Some(d) => str_eq(d.0.as_str(), run_id) && !d.1,
            None => false,
        };
        let held = match &root.lock_id {
            Some(l) => str_eq(l.as_str(), run_id) && root.lock_held,
            None => false,
        };
        if live_descriptor || held {
            return true;
        }
        i += 1;
    }
    false
}

/// A report history entry found under `runtime/run-reports`.
#[derive(Debug)]
pub struct ReportCandidate {
    pub path: Vec<PathComponent>,
    /// The canonical location aliases share.
    pub key: Vec<PathComponent>,
    /// The body, when readable.
    pub body: Option<String>,
}

/// Whether the file name ends in `.md`.
pub open spec fn has_md_extension(p: Seq<Part>) -> bool {
    p.len() > 0 && p.last() is Normal && {
        let n = p.last()->Normal_0;
        match crate::paths::last_dot(n) {
            Some(i) => i > 0 && n.skip(i + 1) == seq!['m', 'd'],
            None => false,
        }
    }
}

fn md_extension(path: &Vec<PathComponent>) -> (r: bool)
    ensures
        r == has_md_extension(parts(path@)),
{
    if path.len() == 0 {
        return false;
    }
    assert(parts(path@).last() == path@[path.len() - 1]@);
    match &path[path.len() - 1] {
        PathComponent::Normal(n) => {
            let cs = chars_of(n.as_str());
            let mut i = cs.len();
            assert(cs@.take(i as int) =~= cs@);
            while i > 0 && cs[i - 1] != '.'
                invariant
                    i <= cs@.len(),
                    crate::paths::last_dot(cs@) == crate::paths::last_dot(cs@.take(i as int)),
                decreases i,
            {
                assert(cs@.take(i as int).drop_last() =~= cs@.take(i - 1));
                i -= 1;
            }
            if i <= 1 {
                if i == 0 {
                    assert(cs@.take(0) =~= Seq::<char>::empty());
                }
                return false;
            }
            assert(crate::paths::last_dot(cs@.take(i as int)) == Some(i - 1));
            let ext = slice_vec(&cs, i, cs.len());
            assert(ext@ =~= cs@.skip(i as int));
            let r = ext.len() == 2 && ext[0] == 'm' && ext[1] == 'd';
            assert(r ==> ext@ =~= seq!['m', 'd']);
            r
        },
        _ => false,
    }
}

/// Timestamped history reports that explicitly claim the exact run id, each
/// location once however many aliases name it, in the order found. Only
/// Markdown files count, and only through their `Run:` header.
pub open spec fn claims(c: ReportCandidate, run_id: Seq<char>) -> bool {
    has_md_extension(parts(c.path@)) && match c.body {
        Some(b) => report_claims_run_spec(b@, run_id),
        None => false,
    }
}

/// The claiming candidates of `cs` in order, each canonical location kept at
/// its first claim, paired with the locations already taken.
pub open spec fn claiming_fold(cs: Seq<ReportCandidate>, run_id: Seq<char>) -> (
    Seq<Seq<Part>>,
    Seq<Seq<Part>>,
)
    decreases cs.len(),
{
    if cs.len() == 0 {
        (seq![], seq![])
    } else {
        let (out, seen) = claiming_fold(cs.drop_last(), run_id);
        let c = cs.last();
        if claims(c, run_id) && !seen.contains(parts(c.key@)) {
            (out.push(parts(c.path@)), seen.push(parts(c.key@)))
        } else {
            (out, seen)
        }
    }
}

/// The paths of `claiming_fold`.
pub open spec fn claiming_reports(cs: Seq<ReportCandidate>, run_id: Seq<char>) -> Seq<Seq<Part>> {
    claiming_fold(cs, run_id).0
}

fn seen_contains(seen: &Vec<Vec<PathComponent>>, key: &Vec<PathComponent>) -> (r: bool)
    ensures
        r == seen@.map_values(|p: Vec<PathComponent>| parts(p@)).contains(parts(key@)),
{
    let ghost views = seen@.map_values(|p: Vec<PathComponent>| parts(p@));
    let mut k: usize = 0;
    while k < seen.len()
        invariant
            k <= seen@.len(),
            views == seen@.map_values(|p: Vec<PathComponent>| parts(p@)),
            forall|m: int| 0 <= m < k ==> views[m] != parts(key@),
        decreases seen.len() - k,
    {
        if path_eq(&seen[k], key) {
            assert(views[k as int] == parts(key@));
            return true;
        }
        k += 1;
    }
    false
}

/// Find the immutable reports that claim the exact run id.
pub fn immutable_reports_for_run(candidates: &Vec<ReportCandidate>, run_id: &str) -> (out: Vec<
    Vec<PathComponent>,
>)
    ensures
        out@.map_values(|p: Vec<PathComponent>| parts(p@)) == claiming_reports(candidates@, run_id@),
{
    let mut out: Vec<Vec<PathComponent>> = Vec::new();
    let mut seen: Vec<Vec<PathComponent>> = Vec::new();
    let mut i: usize = 0;
    while i < candidates.len()
        invariant
            i <= candidates.len(),
            out@.map_values(|p: Vec<PathComponent>| parts(p@)) == claiming_fold(
                candidates@.take(i as int),
                run_id@,
            ).0,
            seen@.map_values(|p: Vec<PathComponent>| parts(p@)) == claiming_fold(
                candidates@.take(i as int),
                run_id@,
            ).1,
        decreases candidates.len() - i,
    {
        let c = &candidates[i];
        assert(candidates@.take(i + 1).drop_last() =~= candidates@.take(i as int));
        assert(candidates@.take(i + 1).last() == *c);
        let claimed = md_extension(&c.path) && match &c.body {
            Some(b) => report_claims_run(b.as_str(), run_id),
            None => false,
        };
        if claimed && !seen_contains(&seen, &c.key) {
            let k = clone_path(&c.key);
            let p = clone_path(&c.path);
            let ghost so = seen@;
            let ghost oo = out@;
            seen.push(k);
            out.push(p);
            assert(seen@.map_values(|p: Vec<PathComponent>| parts(p@)) =~= so.map_values(
                |p: Vec<PathComponent>| parts(p@),
            ).push(parts(c.key@)));
            assert(out@.map_values(|p: Vec<PathComponent>| parts(p@)) =~= oo.map_values(
                |p: Vec<PathComponent>| parts(p@),
            ).push(parts(c.path@)));
        }
        i += 1;
    }
    assert(candidates@.take(candidates.len() as int) =~= candidates@);
    out
}

/// The execution root an accounting path belongs to: the grandparent of
/// its `runtime/accounting` directory.
pub open spec fn execution_root_spec(p: Seq<Part>) -> Option<Seq<Part>> {
    match crate::paths::parent_spec(p) {
        Some(q) => crate::paths::parent_spec(q),
        None => None,
    }
}

/// The selected execution roots of accounting paths, in order, each once:
/// an alias is recognized by its canonical location (`keys[i]`, where the
/// filesystem could resolve it) or else by the root itself.
pub open spec fn execution_roots_fold(
    roots: Seq<Seq<Part>>,
    keys: Seq<Option<Seq<Part>>>,
) -> (Seq<Seq<Part>>, Seq<Seq<Part>>)
    decreases roots.len(),
{
    if roots.len() == 0 {
        (seq![], seq![])
    } else {
        let (out, seen) = execution_roots_fold(roots.drop_last(), keys.take(roots.len() - 1));
        match execution_root_spec(roots.last()) {
            None => (out, seen),
            Some(r) => {
                let key = match keys[roots.len() - 1] {
                    Some(k) => k,
                    None => r,
                };
                if seen.contains(key) {
                    (out, seen)
                } else {
                    (out.push(r), seen.push(key))
                }
            },
        }
    }
}

/// The grandparent of an accounting path.
pub fn execution_root(path: &Vec<PathComponent>) -> (out: Option<Vec<PathComponent>>)
    ensures
        match out {
            Some(r) => execution_root_spec(parts(path@)) == Some(parts(r@)),
            None => execution_root_spec(parts(path@)) is None,
        },
{
    match crate::paths::parent(path) {
        Some(q) => crate::paths::parent(&q),
        None => None,
    }
}

/// Recover the selected execution roots from their accounting paths and
/// drop aliases. `canonical[i]` is where the filesystem resolves the root
/// of `roots[i]`, when it could.
pub fn execution_roots(
    roots: &Vec<Vec<PathComponent>>,
    canonical: &Vec<Option<Vec<PathComponent>>>,
) -> (out: Vec<Vec<PathComponent>>)
    requires
        canonical.len() == roots.len(),
    ensures
        out@.map_values(|p: Vec<PathComponent>| parts(p@)) == execution_roots_fold(
            roots@.map_values(|p: Vec<PathComponent>| parts(p@)),
            canonical@.map_values(|k: Option<Vec<PathComponent>>| match k {
                Some(p) => Some(parts(p@)),
                None => None,
            }),
        ).0,
{
    let ghost rs = roots@.map_values(|p: Vec<PathComponent>| parts(p@));
    let ghost ks = canonical@.map_values(|k: Option<Vec<PathComponent>>| match k {
        Some(p) => Some(parts(p@)),
        None => None,
    });
    let mut out: Vec<Vec<PathComponent>> = Vec::new();
    let mut seen: Vec<Vec<PathComponent>> = Vec::new();
    let mut i: usize = 0;
    while i < roots.len()
        invariant
            i <= roots.len(),
            canonical.len() == roots.len(),
            rs == roots@.map_values(|p: Vec<PathComponent>| parts(p@)),
            ks == canonical@.map_values(|k: Option<Vec<PathComponent>>| match k {
                Some(p) => Some(parts(p@)),
                None => None,
            }),
            out@.map_values(|p: Vec<PathComponent>| parts(p@)) == execution_roots_fold(rs.take(i as int), ks.take(i as int)).0,
            seen@.map_values(|p: Vec<PathComponent>| parts(p@)) == execution_roots_fold(rs.take(i as int), ks.take(i as int)).1,
        decreases roots.len() - i,
    {
        assert(rs.take(i + 1).drop_last() =~= rs.take(i as int));
        assert(ks.take(i + 1).take(i as int) =~= ks.take(i as int));
        assert(rs.take(i + 1).last() == parts(roots@[i as int]@));
        assert(ks.take(i + 1)[i as int] == ks[i as int]);
        if let Some(r) = execution_root(&roots[i]) {
            let key = match &canonical[i] {
                Some(k) => clone_path(k),
                None => clone_path(&r),
            };
            if !seen_contains(&seen, &key) {
                let ghost so = seen@;
                let ghost oo = out@;
                let ghost kv = parts(key@);
                let ghost rv = parts(r@);
                seen.push(key);
                out.push(r);
                assert(seen@.map_values(|p: Vec<PathComponent>| parts(p@)) =~= so.map_values(
                    |p: Vec<PathComponent>| parts(p@),
                ).push(kv));
                assert(out@.map_values(|p: Vec<PathComponent>| parts(p@)) =~= oo.map_values(
                    |p: Vec<PathComponent>| parts(p@),
                ).push(rv));
            }
        }
        i += 1;
    }
    assert(rs.take(roots.len() as int) =~= rs);
    assert(ks.take(roots.len() as int) =~= ks);
    out
}

/// Public spelling of alternate-book rate coverage.
pub enum PricingStatus {
    Priced,
    PartialPrice,
    Unpriced,
    NotApplicable,
}

/// The label an alternate-price reading prints for its rate coverage.
pub fn alternate_pricing_label(status: PricingStatus) -> (s: &'static str)
    ensures
        s@ == match status {
            PricingStatus::Priced => "priced"@,
            PricingStatus::PartialPrice => "partial-price"@,
            PricingStatus::Unpriced => "unpriced"@,
            PricingStatus::NotApplicable => "not-applicable"@,
        },
{
    match status {
        PricingStatus::Priced => "priced",
        PricingStatus::PartialPrice => "partial-price",
        PricingStatus::Unpriced => "unpriced",
        PricingStatus::NotApplicable => "not-applicable",
    }
}

/// `--run` and `--prices` select one paired alternate-price reading: both or
/// neither. On agreement, whether the reading is asked for.
pub fn run_price_pair(has_run: bool, has_prices: bool) -> (out: Result<bool, Report>)
    ensures
        has_run == has_prices ==> (out matches Ok(b) && b == has_run),
        has_run != has_prices ==> (out matches Err(e) && e.message@ == "--run and --prices are one paired summary operation"@
            && (e.help matches Some(h) && h@ == "pass both `--run <ID>` and `--prices <BOOK>`, or neither"@)),
{
    if has_run == has_prices {
        return Ok(has_run);
    }
    let mut message = String::new();
    push_str(&mut message, "--run and --prices are one paired summary operation");
    let mut help = String::new();
    push_str(&mut help, "pass both `--run <ID>` and `--prices <BOOK>`, or neither");
    Err(Report::with_help(message, help))
}

} // verus!
