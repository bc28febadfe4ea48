//! Which supervisor owns a descendant's move: the ancestors of a task in the
//! plan's tree, and the nearest of them whose supervision scope reaches it.
use vstd::prelude::*;
use crate::text::str_eq;

verus! {

/// A task of a plan as owner selection reads it: its id, its state and its
/// subtasks in document order.
#[derive(Debug)]
pub struct PlanTask {
    pub id: String,
    pub state: String,
    pub children: Vec<PlanTask>,
}

/// How far a supervising state's reach extends below its task.
#[derive(Clone, Copy, Debug, PartialEq, Eq, Structural)]
pub enum SupervisionScope {
    /// Only the task's own children.
    Child,
    /// Every task below it.
    Descendant,
}

/// The path from `tasks[i..]` down to the first task, in document order, whose
/// id is `target`: the tasks above it, outermost first. `None` where no task
/// there has that id.
pub open spec fn path_from(tasks: Seq<PlanTask>, i: int, target: Seq<char>) -> Option<Seq<PlanTask>>
    decreases tasks, tasks.len() - i,
{
    if i < 0 || i >= tasks.len() {
        None
    } else {
        let t = tasks[i];
        if t.id@ == target {
            Some(Seq::empty())
        } else {
            proof {
                assert(decreases_to!(tasks => tasks[i]));
                assert(decreases_to!(tasks[i] => tasks[i].children));
                assert(decreases_to!(tasks[i].children => tasks[i].children@));
            }
            match path_from(t.children@, 0, target) {
                Some(p) => Some(seq![t] + p),
                None => path_from(tasks, i + 1, target),
            }
        }
    }
}

/// The chain from `target`'s parent up to its root, nearest ancestor first;
/// empty where the plan has no such task.
pub open spec fn ancestors_of(tasks: Seq<PlanTask>, target: Seq<char>) -> Seq<PlanTask> {
    match path_from(tasks, 0, target) {
        Some(p) => p.reverse(),
        None => Seq::empty(),
    }
}

/// The tasks a stack of references points at.
pub open spec fn deref_all(s: Seq<&PlanTask>) -> Seq<PlanTask> {
    s.map_values(|t: &PlanTask| *t)
}

fn walk<'a>(tasks: &'a Vec<PlanTask>, target: &str, stack: &mut Vec<&'a PlanTask>) -> (found: bool)
    ensures
        found == path_from(tasks@, 0, target@) is Some,
        found ==> deref_all(final(stack)@) == deref_all(old(stack)@) + path_from(tasks@, 0, target@).unwrap(),
        !found ==> final(stack)@ == old(stack)@,
    decreases tasks@,
{
    let mut i: usize = 0;
    while i < tasks.len()
        invariant
            i <= tasks.len(),
            stack@ == old(stack)@,
            path_from(tasks@, 0, target@) == path_from(tasks@, i as int, target@),
        decreases tasks.len() - i,
    {
        let task = &tasks[i];
        if str_eq(task.id.as_str(), target) {
            assert(deref_all(stack@) + Seq::<PlanTask>::empty() =~= deref_all(stack@));
            return true;
        }
        let ghost before = stack@;
        stack.push(task);
        proof {
            assert(decreases_to!(tasks@ => tasks@[i as int]));
            assert(decreases_to!(tasks@[i as int] => tasks@[i as int].children));
            assert(decreases_to!(tasks@[i as int].children => tasks@[i as int].children@));
        }
        if walk(&task.children, target, stack) {
            proof {
                let p = path_from(task.children@, 0, target@).unwrap();
                assert(deref_all(before.push(task)) =~= deref_all(before) + seq![*task]);
                assert(deref_all(before) + seq![*task] + p =~= deref_all(before) + (seq![*task] + p));
            }
            return true;
        }
        stack.pop();
        assert(stack@ =~= before);
        i = i + 1;
    }
    false
}

/// The chain from `target`'s parent up to its root, nearest ancestor first.
/// A plan without a task of that id has no chain.
pub fn ancestor_chain<'a>(tasks: &'a Vec<PlanTask>, target: &str) -> (out: Vec<&'a PlanTask>)
    ensures
        deref_all(out@) == ancestors_of(tasks@, target@),
{
    let mut stack: Vec<&'a PlanTask> = Vec::new();
    if walk(tasks, target, &mut stack) {
        let ghost p = path_from(tasks@, 0, target@).unwrap();
        assert(deref_all(stack@) =~= p);
        let mut out: Vec<&'a PlanTask> = Vec::new();
        let mut k: usize = stack.len();
        while k > 0
            invariant
                k <= stack.len(),
                deref_all(stack@) == p,
                out.len() == stack.len() - k,
                forall|j: int| 0 <= j < out.len() ==> *out@[j] == p[p.len() - 1 - j],
            decreases k,
        {
            k = k - 1;
            out.push(stack[k]);
        }
        assert(deref_all(out@) =~= p.reverse());
        return out;
    }
    let out: Vec<&'a PlanTask> = Vec::new();
    assert(deref_all(out@) =~= Seq::<PlanTask>::empty());
    out
}

/// Whether some task of `s` has the id `target`.
pub open spec fn has_id(s: Seq<PlanTask>, target: Seq<char>) -> bool {
    exists|j: int| 0 <= j < s.len() && #[trigger] s[j].id@ == target
}

proof fn lemma_path_links(tasks: Seq<PlanTask>, i: int, target: Seq<char>)
    requires
        path_from(tasks, i, target) is Some,
    ensures
        ({
            let p = path_from(tasks, i, target).unwrap();
            &&& p.len() == 0 ==> has_id(tasks, target)
            &&& p.len() > 0 ==> tasks.contains(p[0]) && has_id(p[p.len() - 1].children@, target)
            &&& forall|k: int| 0 <= k < p.len() - 1 ==> #[trigger] p[k].children@.contains(p[k + 1])
        }),
    decreases tasks, tasks.len() - i,
{
    let t = tasks[i];
    if t.id@ == target {
        assert(tasks[i].id@ == target);
    } else {
        assert(decreases_to!(tasks => tasks[i]));
        assert(decreases_to!(tasks[i] => tasks[i].children));
        assert(decreases_to!(tasks[i].children => tasks[i].children@));
        match path_from(t.children@, 0, target) {
            Some(q) => {
                lemma_path_links(t.children@, 0, target);
                let p = seq![t] + q;
                assert(p[0] == tasks[i]);
                if q.len() > 0 {
                    assert(p[1] == q[0]);
                    assert forall|k: int| 0 <= k < p.len() - 1 implies #[trigger] p[k].children@.contains(p[k + 1]) by {
                        if k > 0 {
                            let m = k - 1;
                            assert(q[m].children@.contains(q[m + 1]));
                            assert(p[k] == q[m] && p[k + 1] == q[m + 1]);
                        } else {
                            assert(t.children@.contains(q[0]));
                            assert(p[k] == t && p[k + 1] == q[0]);
                        }
                    }
                    assert(p[p.len() - 1] == q[q.len() - 1]);
                } else {
                    assert(p.len() == 1);
                }
            },
            None => {
                lemma_path_links(tasks, i + 1, target);
            },
        }
    }
}

/// The ancestor chain runs from the moving task's parent to a root of the
/// plan, each entry a child of the next: the task of that id is a child of the
/// first entry, the last entry is a root, and an empty chain means a root task
/// or an id the plan does not have.
pub proof fn ancestor_chain_runs_parent_to_root(tasks: Seq<PlanTask>, target: Seq<char>)
    ensures
        ({
            let a = ancestors_of(tasks, target);
            &&& a.len() > 0 ==> has_id(a[0].children@, target) && tasks.contains(a[a.len() - 1])
            &&& forall|k: int| 0 <= k < a.len() - 1 ==> #[trigger] a[k + 1].children@.contains(a[k])
            &&& a.len() == 0 ==> has_id(tasks, target) || path_from(tasks, 0, target) is None
        }),
{
    if path_from(tasks, 0, target) is Some {
        lemma_path_links(tasks, 0, target);
        let p = path_from(tasks, 0, target).unwrap();
        let a = p.reverse();
        assert forall|k: int| 0 <= k < a.len() - 1 implies #[trigger] a[k + 1].children@.contains(a[k]) by {
            let m = p.len() - 2 - k;
            assert(a[k + 1] == p[m] && a[k] == p[m + 1]);
            assert(p[m].children@.contains(p[m + 1]));
        }
        if a.len() > 0 {
            assert(a[0] == p[p.len() - 1]);
            assert(a[a.len() - 1] == p[0]);
        }
    }
}

/// The scope a supervising state declares, by the state name a task carries;
/// the first entry for a name decides, and a state not listed supervises
/// nothing.
pub open spec fn scope_of(scopes: Seq<(String, SupervisionScope)>, state: Seq<char>) -> Option<SupervisionScope>
    decreases scopes.len(),
{
    if scopes.len() == 0 {
        None
    } else if scopes[0].0@ == state {
        Some(scopes[0].1)
    } else {
        scope_of(scopes.drop_first(), state)
    }
}

/// Whether a supervisor `distance` steps above the moving task's parent
/// reaches it: a child scope only from the parent itself.
pub open spec fn reaches(scope: Option<SupervisionScope>, distance: int) -> bool {
    match scope {
        Some(SupervisionScope::Child) => distance == 0,
        Some(SupervisionScope::Descendant) => true,
        None => false,
    }
}

/// The index of the nearest ancestor in `ancestors[from..]` whose scope
/// reaches the moving task.
pub open spec fn owner_from(scopes: Seq<(String, SupervisionScope)>, ancestors: Seq<PlanTask>, from: int) -> Option<int>
    decreases ancestors.len() - from,
{
    if from < 0 || from >= ancestors.len() {
        None
    } else if reaches(scope_of(scopes, ancestors[from].state@), from) {
        Some(from)
    } else {
        owner_from(scopes, ancestors, from + 1)
    }
}

/// The owner is the nearest ancestor whose scope reaches the moving task: it
/// reaches it, no nearer ancestor does, and without an owner none does. So an
/// in-scope outer supervisor never also receives the move.
pub proof fn owner_is_the_nearest_reaching_ancestor(scopes: Seq<(String, SupervisionScope)>, ancestors: Seq<PlanTask>)
    ensures
        match owner_from(scopes, ancestors, 0) {
            Some(d) => 0 <= d < ancestors.len() && reaches(scope_of(scopes, ancestors[d].state@), d)
                && forall|j: int| 0 <= j < d ==> !reaches(scope_of(scopes, #[trigger] ancestors[j].state@), j),
            None => forall|j: int| 0 <= j < ancestors.len() ==> !reaches(scope_of(scopes, #[trigger] ancestors[j].state@), j),
        },
{
    lemma_owner_from(scopes, ancestors, 0);
}

proof fn lemma_owner_from(scopes: Seq<(String, SupervisionScope)>, ancestors: Seq<PlanTask>, from: int)
    requires
        0 <= from,
    ensures
        match owner_from(scopes, ancestors, from) {
            Some(d) => from <= d < ancestors.len() && reaches(scope_of(scopes, ancestors[d].state@), d)
                && forall|j: int| from <= j < d ==> !reaches(scope_of(scopes, #[trigger] ancestors[j].state@), j),
            None => forall|j: int| from <= j < ancestors.len() ==> !reaches(scope_of(scopes, #[trigger] ancestors[j].state@), j),
        },
    decreases ancestors.len() - from,
{
    if from < ancestors.len() && !reaches(scope_of(scopes, ancestors[from].state@), from) {
        lemma_owner_from(scopes, ancestors, from + 1);
    }
}

fn lookup_scope(scopes: &Vec<(String, SupervisionScope)>, state: &str) -> (out: Option<SupervisionScope>)
    ensures
        out == scope_of(scopes@, state@),
{
    let mut i: usize = 0;
    assert(scopes@.subrange(0, scopes.len() as int) =~= scopes@);
    while i < scopes.len()
        invariant
            i <= scopes.len(),
            scope_of(scopes@, state@) == scope_of(scopes@.subrange(i as int, scopes.len() as int), state@),
        decreases scopes.len() - i,
    {
        assert(scopes@.subrange(i as int, scopes.len() as int).drop_first() =~= scopes@.subrange(i + 1, scopes.len() as int));
        if str_eq(scopes[i].0.as_str(), state) {
            return Some(scopes[i].1);
        }
        i = i + 1;
    }
    None
}

/// The nearest supervising ancestor whose scope includes the moving task.
/// `ancestors` runs nearest first, as `ancestor_chain` gives it, so distance 0
/// is the task's own parent; `scopes` lists the machine's supervising states
/// with their scope. Scope alone selects the owner: an event filter that does
/// not match never makes the search climb farther.
pub fn nearest_in_scope_supervising_owner<'a>(
    scopes: &Vec<(String, SupervisionScope)>,
    ancestors: &Vec<&'a PlanTask>,
) -> (out: Option<&'a PlanTask>)
    ensures
        match owner_from(scopes@, deref_all(ancestors@), 0) {
            Some(d) => out matches Some(t) && *t == deref_all(ancestors@)[d],
            None => out is None,
        },
{
    let ghost a = deref_all(ancestors@);
    let mut d: usize = 0;
    while d < ancestors.len()
        invariant
            d <= ancestors.len(),
            a == deref_all(ancestors@),
            owner_from(scopes@, a, 0) == owner_from(scopes@, a, d as int),
        decreases ancestors.len() - d,
    {
        let ancestor: &'a PlanTask = ancestors[d];
        assert(*ancestor == a[d as int]);
        let scope = lookup_scope(scopes, ancestor.state.as_str());
        let in_scope = match scope {
            Some(SupervisionScope::Child) => d == 0,
            Some(SupervisionScope::Descendant) => true,
            None => false,
        };
        if in_scope {
            return Some(ancestor);
        }
        d = d + 1;
    }
    None
}

} // verus!
