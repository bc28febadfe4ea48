//! The merged roster: built-in agents, then global settings, then project
//! settings, with the source of every value recorded beside it. Raw member
//! presence decides, so an omitted field inherits while a supplied one,
//! even `null` or an empty list, replaces.
use vstd::prelude::*;
use crate::json::{get, has_member, json_get, Json};
use crate::report::Report;
use crate::text::{chars_of, matches_at, push_str, str_eq, trim, trim_vec};
use crate::registry::{ids, lemma_reg_get_absent, lemma_reg_get_in, lex_lt, reg_get, reg_insert, reg_remove, sorted};
use crate::agents::{agent_view, built_in_agents, built_in_roster, built_in_session, AgentView};
use crate::registry::reg_merge;
use crate::snapshot_settings::{merge_snapshot_settings, SnapshotSettings};
use crate::settings::{built_in_agent_fields, supplied_fields, supplied_names, texts, AgentEffortProfile, CustomAgentProfile, McpServerProfile, ModelAgentBinding, ModelProfile, ProjectSettingsFile, StateMcpEntry, StateSkillEntry};

verus! {

/// Where a roster value came from.
#[derive(Debug, Clone, Copy, PartialEq, Eq, Structural)]
pub enum RosterOrigin {
    BuiltIn,
    Global,
    Project,
}

/// `json_field_present`: whether an object has the member.
pub fn json_field_present(raw: &Json, key: &str) -> (r: bool)
    ensures
        r == has_member(*raw, key@),
{
    get(raw, key).is_some()
}

/// The member under `key`, `null` when there is none.
pub open spec fn json_child(raw: Json, key: Seq<char>) -> Json {
    match json_get(raw, key) {
        Some(v) => v,
        None => Json::Null,
    }
}

/// Whether the object under `section` has the member `key`.
pub open spec fn nested_present(raw: Json, section: Seq<char>, key: Seq<char>) -> bool {
    has_member(json_child(raw, section), key)
}

pub fn json_nested_field_present(raw: &Json, section: &str, key: &str) -> (r: bool)
    ensures
        r == nested_present(*raw, section@, key@),
{
    match get(raw, section) {
        Some(child) => json_field_present(child, key),
        None => false,
    }
}

/// The member names of an object; nothing for any other value.
pub open spec fn object_keys(raw: Json) -> Seq<Seq<char>> {
    match raw {
        Json::Object(ms) => ms@.map_values(|m: (String, Json)| m.0@),
        _ => seq![],
    }
}

/// `raw_object_keys`: an object's member names as an ordered set.
pub fn raw_object_keys(raw: &Json) -> (out: Vec<(String, ())>)
    ensures
        sorted(out@),
        forall|k: Seq<char>| ids(out@).contains(k) <==> object_keys(*raw).contains(k),
{
    let mut out: Vec<(String, ())> = Vec::new();
    if let Json::Object(ms) = raw {
        let ghost names = object_keys(*raw);
        let mut i: usize = 0;
        while i < ms.len()
            invariant
                i <= ms.len(),
                names == ms@.map_values(|m: (String, Json)| m.0@),
                sorted(out@),
                forall|k: Seq<char>| ids(out@).contains(k) <==> names.take(i as int).contains(k),
            decreases ms.len() - i,
        {
            let ghost before = out@;
            reg_insert(&mut out, ms[i].0.clone(), ());
            assert(names.take(i + 1) =~= names.take(i as int).push(names[i as int]));
            assert forall|k: Seq<char>| ids(out@).contains(k) <==> names.take(i + 1).contains(k) by {
                assert(ids(out@).contains(k) <==> (k == names[i as int] || ids(before).contains(k)));
                let t1 = names.take(i + 1);
                let t0 = names.take(i as int);
                if t1.contains(k) {
                    let j = choose|j: int| 0 <= j < t1.len() && #[trigger] t1[j] == k;
                    if j < i {
                        assert(t0[j] == k);
                    }
                }
                if t0.contains(k) {
                    let j = choose|j: int| 0 <= j < t0.len() && #[trigger] t0[j] == k;
                    assert(t1[j] == k);
                }
                if k == names[i as int] {
                    assert(t1[i as int] == k);
                }
            }
            i += 1;
        }
        assert(names.take(ms.len() as int) =~= names);
    } else {
        assert forall|k: Seq<char>| ids(out@).contains(k) <==> object_keys(*raw).contains(k) by {
            assert(ids(out@) =~= seq![]);
        }
    }
    out
}

/// The origins of the listed fields the raw object supplies.
pub open spec fn origins_of(raw: Json, fields: Seq<Seq<char>>, origin: RosterOrigin, k: Seq<char>) -> Option<
    RosterOrigin,
> {
    if fields.contains(k) && has_member(raw, k) {
        Some(origin)
    } else {
        None
    }
}

/// `field_origins`: each listed field the raw object supplies, with `origin`.
pub fn field_origins(raw: &Json, fields: &[&str], origin: RosterOrigin) -> (out: Vec<
    (String, RosterOrigin),
>)
    ensures
        sorted(out@),
        forall|k: Seq<char>|
            #[trigger] reg_get(out@, k) == origins_of(
                *raw,
                fields@.map_values(|f: &str| f@),
                origin,
                k,
            ),
{
    let ghost names = fields@.map_values(|f: &str| f@);
    let mut out: Vec<(String, RosterOrigin)> = Vec::new();
    let mut i: usize = 0;
    while i < fields.len()
        invariant
            i <= fields.len(),
            names == fields@.map_values(|f: &str| f@),
            sorted(out@),
            forall|k: Seq<char>|
                #[trigger] reg_get(out@, k) == origins_of(*raw, names.take(i as int), origin, k),
        decreases fields.len() - i,
    {
        assert(names.take(i + 1) =~= names.take(i as int).push(names[i as int]));
        let ghost before = out@;
        if json_field_present(raw, fields[i]) {
            reg_insert(&mut out, fields[i].to_string(), origin);
        }
        assert forall|k: Seq<char>| #[trigger] reg_get(out@, k) == origins_of(
            *raw,
            names.take(i + 1),
            origin,
            k,
        ) by {
            assert(reg_get(before, k) == origins_of(*raw, names.take(i as int), origin, k));
            let t1 = names.take(i + 1);
            let t0 = names.take(i as int);
            if t1.contains(k) && !t0.contains(k) {
                let j = choose|j: int| 0 <= j < t1.len() && #[trigger] t1[j] == k;
                if j < i {
                    assert(t0[j] == k);
                }
            }
            if t0.contains(k) {
                let j = choose|j: int| 0 <= j < t0.len() && #[trigger] t0[j] == k;
                assert(t1[j] == k);
            }
            if k == names[i as int] {
                assert(t1[i as int] == k);
            }
        }
        i += 1;
    }
    assert(names.take(fields.len() as int) =~= names);
    out
}

/// The binding fields a project binding may override.
pub open spec fn binding_fields() -> Seq<Seq<char>> {
    seq!["args"@, "autonomous_args"@, "timeout"@]
}

/// `merge_model_agent_binding`: each binding field the project's raw
/// binding supplies replaces the existing value, and its origin becomes
/// the project's beside it.
pub fn merge_model_agent_binding(
    existing: &mut ModelAgentBinding,
    project: ModelAgentBinding,
    project_raw: &Json,
    provenance: &mut Vec<(String, RosterOrigin)>,
)
    requires
        sorted(old(provenance)@),
    ensures
        sorted(final(provenance)@),
        final(existing).args == if has_member(*project_raw, "args"@) {
            project.args
        } else {
            old(existing).args
        },
        final(existing).autonomous_args == if has_member(*project_raw, "autonomous_args"@) {
            project.autonomous_args
        } else {
            old(existing).autonomous_args
        },
        final(existing).timeout == if has_member(*project_raw, "timeout"@) {
            project.timeout
        } else {
            old(existing).timeout
        },
        forall|k: Seq<char>|
            #[trigger] reg_get(final(provenance)@, k) == if binding_fields().contains(k) && has_member(
                *project_raw,
                k,
            ) {
                Some(RosterOrigin::Project)
            } else {
                reg_get(old(provenance)@, k)
            },
{
    let ModelAgentBinding { args, autonomous_args, timeout } = project;
    let ghost p0 = provenance@;
    if json_field_present(project_raw, "args") {
        existing.args = args;
        reg_insert(provenance, "args".to_string(), RosterOrigin::Project);
    }
    if json_field_present(project_raw, "autonomous_args") {
        existing.autonomous_args = autonomous_args;
        reg_insert(provenance, "autonomous_args".to_string(), RosterOrigin::Project);
    }
    if json_field_present(project_raw, "timeout") {
        existing.timeout = timeout;
        reg_insert(provenance, "timeout".to_string(), RosterOrigin::Project);
    }
    assert forall|k: Seq<char>| #[trigger] reg_get(provenance@, k) == if binding_fields().contains(k)
        && has_member(*project_raw, k) {
        Some(RosterOrigin::Project)
    } else {
        reg_get(p0, k)
    } by {
        let bf = binding_fields();
        if bf.contains(k) {
            let j = choose|j: int| 0 <= j < bf.len() && #[trigger] bf[j] == k;
            assert(j == 0 || j == 1 || j == 2);
        }
        assert(binding_fields()[0] == "args"@);
        assert(binding_fields()[1] == "autonomous_args"@);
        assert(binding_fields()[2] == "timeout"@);
    }
}

// ---------------------------------------------------------------------------
// Models: merged by id, bindings deep-merged by agent id
// ---------------------------------------------------------------------------

/// `p` when the project supplies the field, `g` otherwise.
pub open spec fn pick<T>(present: bool, p: T, g: T) -> T {
    if present {
        p
    } else {
        g
    }
}

/// A global binding with the fields the project's raw binding supplies
/// laid over it.
pub open spec fn merged_binding(g: ModelAgentBinding, p: ModelAgentBinding, praw: Json) -> ModelAgentBinding {
    ModelAgentBinding {
        args: pick(has_member(praw, "args"@), p.args, g.args),
        autonomous_args: pick(has_member(praw, "autonomous_args"@), p.autonomous_args, g.autonomous_args),
        timeout: pick(has_member(praw, "timeout"@), p.timeout, g.timeout),
    }
}

/// The binding under one agent id after the merge.
pub open spec fn binding_after(
    g: Option<ModelAgentBinding>,
    p: Option<ModelAgentBinding>,
    praw: Json,
) -> Option<ModelAgentBinding> {
    match (g, p) {
        (_, None) => g,
        (None, Some(p)) => Some(p),
        (Some(g), Some(p)) => Some(merged_binding(g, p, praw)),
    }
}

/// `m` is the global model with the project's supplied fields laid over
/// it: scalar fields and the prices object wholesale, bindings by agent id.
pub open spec fn model_merged(m: ModelProfile, g: ModelProfile, p: ModelProfile, praw: Json) -> bool {
    &&& m.provider == pick(has_member(praw, "provider"@), p.provider, g.provider)
    &&& m.model == pick(has_member(praw, "model"@), p.model, g.model)
    &&& m.default_agent == pick(has_member(praw, "default_agent"@), p.default_agent, g.default_agent)
    &&& m.prices == pick(has_member(praw, "prices"@), p.prices, g.prices)
    &&& sorted(m.agents@)
    &&& forall|a: Seq<char>|
        #[trigger] reg_get(m.agents@, a) == binding_after(
            reg_get(g.agents@, a),
            reg_get(p.agents@, a),
            json_child(json_child(praw, "agents"@), a),
        )
}

/// The model under one id after the merge: a model only one level has is
/// taken whole.
pub open spec fn model_after(
    out: Option<ModelProfile>,
    g: Option<ModelProfile>,
    p: Option<ModelProfile>,
    praw: Json,
) -> bool {
    match (g, p) {
        (_, None) => out == g,
        (None, Some(p)) => out == Some(p),
        (Some(g), Some(p)) => out matches Some(m) && model_merged(m, g, p, praw),
    }
}

/// Every model's bindings are kept in agent-id order.
pub open spec fn bindings_sorted(models: Seq<(String, ModelProfile)>) -> bool {
    forall|i: int| 0 <= i < models.len() ==> sorted((#[trigger] models[i]).1.agents@)
}

/// Whether a model, if any, keeps its bindings in agent-id order.
pub open spec fn bindings_ok(m: Option<ModelProfile>) -> bool {
    match m {
        Some(m) => sorted(m.agents@),
        None => true,
    }
}

/// The same, by id.
pub open spec fn bindings_sorted_by_id(models: Seq<(String, ModelProfile)>) -> bool {
    forall|k: Seq<char>| bindings_ok(#[trigger] reg_get(models, k))
}

proof fn lemma_bindings_sorted_by_id(models: Seq<(String, ModelProfile)>)
    requires
        bindings_sorted(models),
    ensures
        bindings_sorted_by_id(models),
{
    assert forall|k: Seq<char>| bindings_ok(#[trigger] reg_get(models, k)) by {
        lemma_reg_get_in(models, k);
        if let Some(m) = reg_get(models, k) {
            let i = choose|i: int| 0 <= i < models.len() && #[trigger] models[i] == (models[i].0, m) && models[i].0@ == k;
            assert(models[i].1 == m);
        }
    }
}

/// In a sorted registry, the ids after an entry's are not its id.
proof fn lemma_later_ids_differ<T>(r: Seq<(String, T)>, n: int)
    requires
        sorted(r),
        0 < n <= r.len(),
    ensures
        reg_get(r.skip(n), r[n - 1].0@) is None,
{
    let id = r[n - 1].0@;
    assert forall|i: int| 0 <= i < r.skip(n).len() implies (#[trigger] r.skip(n)[i]).0@ != id by {
        assert(r.skip(n)[i] == r[n + i]);
        assert(lex_lt(r[n - 1].0@, r[n + i].0@));
        crate::registry::lemma_lex_irreflexive(id);
    }
    lemma_reg_get_absent(r.skip(n), id);
}

/// The raw object of model `id` in a settings document.
pub open spec fn model_raw(raw: Json, id: Seq<char>) -> Json {
    json_child(json_child(raw, "models"@), id)
}

fn child<'a>(raw: Option<&'a Json>, key: &str) -> (out: Option<&'a Json>)
    ensures
        match raw {
            Some(r) => match out {
                Some(c) => json_child(*r, key@) == *c,
                None => json_child(*r, key@) == Json::Null,
            },
            None => out is None,
        },
{
    match raw {
        Some(r) => get(r, key),
        None => None,
    }
}

fn present(raw: Option<&Json>, key: &str) -> (r: bool)
    ensures
        r == match raw {
            Some(v) => has_member(*v, key@),
            None => false,
        },
{
    match raw {
        Some(v) => json_field_present(v, key),
        None => false,
    }
}

pub open spec fn raw_or_null(raw: Option<&Json>) -> Json {
    match raw {
        Some(v) => *v,
        None => Json::Null,
    }
}

/// Lay a project model's bindings over the existing model's, by agent id.
fn merge_bindings(
    existing: &mut Vec<(String, ModelAgentBinding)>,
    project: Vec<(String, ModelAgentBinding)>,
    project_bindings_raw: Option<&Json>,
)
    requires
        sorted(old(existing)@),
        sorted(project@),
    ensures
        sorted(final(existing)@),
        forall|a: Seq<char>|
            #[trigger] reg_get(final(existing)@, a) == binding_after(
                reg_get(old(existing)@, a),
                reg_get(project@, a),
                json_child(raw_or_null(project_bindings_raw), a),
            ),
{
    let ghost g = existing@;
    let ghost pr = project@;
    let ghost braw = raw_or_null(project_bindings_raw);
    let mut rest = project;
    while rest.len() > 0
        invariant
            sorted(existing@),
            sorted(pr),
            rest@ == pr.take(rest@.len() as int),
            rest@.len() <= pr.len(),
            braw == raw_or_null(project_bindings_raw),
            forall|a: Seq<char>|
                #[trigger] reg_get(existing@, a) == binding_after(
                    reg_get(g, a),
                    reg_get(pr.skip(rest@.len() as int), a),
                    json_child(braw, a),
                ),
        decreases rest.len(),
    {
        let ghost n = rest@.len() as int;
        let (aid, binding) = rest.pop().unwrap();
        assert(rest@ =~= pr.take(n - 1));
        let ghost s = pr.skip(n - 1);
        assert(s.drop_first() =~= pr.skip(n));
        assert(s[0] == (aid, binding));
        let ghost before = existing@;
        let ghost bval = binding;
        proof {
            lemma_later_ids_differ(pr, n);
        }
        let braw_one = child(project_bindings_raw, aid.as_str());
        assert(raw_or_null(braw_one) == json_child(braw, aid@));
        match reg_remove(existing, aid.as_str()) {
            Some(mut found) => {
                let ghost gb = found;
                let mut scratch: Vec<(String, RosterOrigin)> = Vec::new();
                let raw_b: &Json = match braw_one {
                    Some(b) => b,
                    None => &Json::Null,
                };
                merge_model_agent_binding(&mut found, binding, raw_b, &mut scratch);
                assert(found == merged_binding(gb, bval, json_child(braw, aid@)));
                reg_insert(existing, aid, found);
            },
            None => {
                reg_insert(existing, aid, binding);
            },
        }
        assert forall|a: Seq<char>| #[trigger] reg_get(existing@, a) == binding_after(
            reg_get(g, a),
            reg_get(s, a),
            json_child(braw, a),
        ) by {
            assert(reg_get(before, a) == binding_after(reg_get(g, a), reg_get(pr.skip(n), a), json_child(braw, a)));
            if a != s[0].0@ {
                assert(reg_get(s, a) == reg_get(s.drop_first(), a));
            }
        }
    }
    assert(pr.skip(0) =~= pr);
}

/// `models` merged by model id: a model only one level defines is taken
/// whole; where both define it, the project's supplied fields replace the
/// global ones and its bindings are merged by agent id.
pub fn merge_models(
    global: Vec<(String, ModelProfile)>,
    project: Vec<(String, ModelProfile)>,
    project_raw: &Json,
) -> (out: Vec<(String, ModelProfile)>)
    requires
        sorted(global@),
        sorted(project@),
        bindings_sorted(global@),
        bindings_sorted(project@),
    ensures
        sorted(out@),
        forall|k: Seq<char>|
            #![trigger reg_get(out@, k)]
            model_after(
                reg_get(out@, k),
                reg_get(global@, k),
                reg_get(project@, k),
                model_raw(*project_raw, k),
            ),
{
    let ghost g = global@;
    let ghost pr = project@;
    let models_raw = get(project_raw, "models");
    proof {
        lemma_bindings_sorted_by_id(g);
    }
    let mut out = global;
    let mut rest = project;
    while rest.len() > 0
        invariant
            sorted(out@),
            sorted(pr),
            bindings_sorted(pr),
            rest@ == pr.take(rest@.len() as int),
            rest@.len() <= pr.len(),
            bindings_sorted_by_id(out@),
            match models_raw {
                Some(x) => json_get(*project_raw, "models"@) == Some(*x),
                None => json_get(*project_raw, "models"@) is None,
            },
            forall|k: Seq<char>|
                #![trigger reg_get(out@, k)]
                model_after(
                    reg_get(out@, k),
                    reg_get(g, k),
                    reg_get(pr.skip(rest@.len() as int), k),
                    model_raw(*project_raw, k),
                ),
        decreases rest.len(),
    {
        let ghost n = rest@.len() as int;
        let (id, pm) = rest.pop().unwrap();
        assert(rest@ =~= pr.take(n - 1));
        let ghost s = pr.skip(n - 1);
        assert(s.drop_first() =~= pr.skip(n));
        assert(s[0] == (id, pm));
        assert(pr[n - 1] == (id, pm));
        assert(sorted(pm.agents@));
        proof {
            lemma_later_ids_differ(pr, n);
        }
        let ghost before = out@;
        let ghost pmv = pm;
        let mraw = child(models_raw, id.as_str());
        assert(raw_or_null(mraw) == model_raw(*project_raw, id@));
        match reg_remove(&mut out, id.as_str()) {
            Some(mut m) => {
                let ghost gm = m;
                assert(reg_get(g, id@) == Some(gm));
                let ModelProfile { provider, model, default_agent, agents, prices } = pm;
                if present(mraw, "provider") {
                    m.provider = provider;
                }
                if present(mraw, "model") {
                    m.model = model;
                }
                if present(mraw, "default_agent") {
                    m.default_agent = default_agent;
                }
                if present(mraw, "prices") {
                    m.prices = prices;
                }
                let bindings_raw = child(mraw, "agents");
                assert(raw_or_null(bindings_raw) == json_child(model_raw(*project_raw, id@), "agents"@));
                merge_bindings(&mut m.agents, agents, bindings_raw);
                assert(model_merged(m, gm, pmv, model_raw(*project_raw, id@)));
                reg_insert(&mut out, id, m);
            },
            None => {
                reg_insert(&mut out, id, pm);
            },
        }
        assert forall|k: Seq<char>| #![trigger reg_get(out@, k)] model_after(
            reg_get(out@, k),
            reg_get(g, k),
            reg_get(s, k),
            model_raw(*project_raw, k),
        ) by {
            if k != s[0].0@ {
                assert(reg_get(s, k) == reg_get(s.drop_first(), k));
            }
        }
        assert forall|k: Seq<char>| bindings_ok(#[trigger] reg_get(out@, k)) by {
            assert(bindings_ok(reg_get(before, k)));
        }
    }
    assert(pr.skip(0) =~= pr);
    out
}

// ---------------------------------------------------------------------------
// Agents: built-ins, then global, then project, each replacing an id whole
// ---------------------------------------------------------------------------

/// The built-in entry under `id`.
pub open spec fn built_in_view(rs: Seq<(Seq<char>, AgentView)>, id: Seq<char>) -> Option<AgentView>
    decreases rs.len(),
{
    if rs.len() == 0 {
        None
    } else if rs[0].0 == id {
        Some(rs[0].1)
    } else {
        built_in_view(rs.drop_first(), id)
    }
}

proof fn lemma_aligned(
    base: Seq<(String, CustomAgentProfile)>,
    rs: Seq<(Seq<char>, AgentView)>,
    id: Seq<char>,
)
    requires
        base.len() == rs.len(),
        forall|i: int|
            0 <= i < base.len() ==> (#[trigger] base[i]).0@ == rs[i].0 && agent_view(base[i].1) == rs[i].1,
        forall|i: int| 0 <= i < base.len() ==> built_in_session(#[trigger] base[i].0@, base[i].1.session),
    ensures
        (reg_get(base, id) is Some) == (built_in_view(rs, id) is Some),
        reg_get(base, id) matches Some(p) ==> built_in_view(rs, id) == Some(agent_view(p)) && built_in_session(id, p.session),
    decreases base.len(),
{
    if base.len() > 0 {
        assert(base[0].0@ == rs[0].0);
        assert(built_in_session(base[0].0@, base[0].1.session));
        assert forall|i: int| 0 <= i < base.drop_first().len() implies (#[trigger] base.drop_first()[i]).0@
            == rs.drop_first()[i].0 && agent_view(base.drop_first()[i].1) == rs.drop_first()[i].1 by {
            assert(base.drop_first()[i] == base[i + 1]);
        }
        assert forall|i: int| 0 <= i < base.drop_first().len() implies built_in_session(#[trigger] base.drop_first()[i].0@, base.drop_first()[i].1.session) by {
            assert(base.drop_first()[i] == base[i + 1]);
        }
        lemma_aligned(base.drop_first(), rs.drop_first(), id);
    }
}

/// Where the entry under `id` comes from: the project, else global
/// settings, else the built-in registry.
pub open spec fn agent_origin(
    id: Seq<char>,
    global: Seq<(String, CustomAgentProfile)>,
    project: Seq<(String, CustomAgentProfile)>,
) -> Option<RosterOrigin> {
    if reg_get(project, id) is Some {
        Some(RosterOrigin::Project)
    } else if reg_get(global, id) is Some {
        Some(RosterOrigin::Global)
    } else if built_in_view(built_in_roster(), id) is Some {
        Some(RosterOrigin::BuiltIn)
    } else {
        None
    }
}

/// The entry under `id` after the merge: the project's, else the global
/// one, else the built-in entry whole (its fields and its session block).
pub open spec fn agent_after(
    out: Option<CustomAgentProfile>,
    id: Seq<char>,
    global: Seq<(String, CustomAgentProfile)>,
    project: Seq<(String, CustomAgentProfile)>,
) -> bool {
    match reg_get(project, id) {
        Some(p) => out == Some(p),
        None => match reg_get(global, id) {
            Some(g) => out == Some(g),
            None => match built_in_view(built_in_roster(), id) {
                Some(v) => out matches Some(a) && agent_view(a) == v && built_in_session(id, a.session),
                None => out is None,
            },
        },
    }
}

/// The field names an entry under `id` was written with: the raw object's
/// members for a settings entry, the supplied fields for a built-in.
pub open spec fn agent_fields_after(
    fields: Option<Vec<(String, ())>>,
    agent: Option<CustomAgentProfile>,
    id: Seq<char>,
    global: Seq<(String, CustomAgentProfile)>,
    project: Seq<(String, CustomAgentProfile)>,
    global_raw: Json,
    project_raw: Json,
) -> bool {
    match agent_origin(id, global, project) {
        None => fields is None,
        Some(origin) => fields matches Some(f) && sorted(f@) && forall|n: Seq<char>|
            #[trigger] ids(f@).contains(n) <==> match origin {
                RosterOrigin::Project => object_keys(json_child(json_child(project_raw, "agents"@), id)).contains(n),
                RosterOrigin::Global => object_keys(json_child(json_child(global_raw, "agents"@), id)).contains(n),
                RosterOrigin::BuiltIn => agent matches Some(a) && supplied_names(supplied_fields(a), 11).contains(n),
            },
    }
}

/// A list of names as an ordered set.
fn name_set(names: Vec<String>) -> (out: Vec<(String, ())>)
    ensures
        sorted(out@),
        forall|n: Seq<char>| #[trigger] ids(out@).contains(n) <==> texts(names@).contains(n),
{
    let ghost all = texts(names@);
    let mut out: Vec<(String, ())> = Vec::new();
    let mut rest = names;
    while rest.len() > 0
        invariant
            sorted(out@),
            texts(rest@) == all.take(rest@.len() as int),
            rest@.len() <= all.len(),
            forall|n: Seq<char>| #[trigger] ids(out@).contains(n) <==> all.skip(rest@.len() as int).contains(n),
        decreases rest.len(),
    {
        let ghost k = rest@.len() as int;
        let ghost before = out@;
        let name = rest.pop().unwrap();
        assert(texts(rest@) =~= all.take(k - 1));
        assert(all[k - 1] == name@) by {
            assert(all.take(k)[k - 1] == texts(rest@.push(name))[k - 1]);
        }
        reg_insert(&mut out, name, ());
        let ghost s = all.skip(k - 1);
        assert(s.drop_first() =~= all.skip(k));
        assert forall|n: Seq<char>| #[trigger] ids(out@).contains(n) <==> s.contains(n) by {
            assert(ids(out@).contains(n) <==> (n == all[k - 1] || ids(before).contains(n)));
            if s.contains(n) {
                let j = choose|j: int| 0 <= j < s.len() && #[trigger] s[j] == n;
                if j > 0 {
                    assert(s.drop_first()[j - 1] == n);
                }
            }
            if all.skip(k).contains(n) {
                let j = choose|j: int| 0 <= j < all.skip(k).len() && #[trigger] all.skip(k)[j] == n;
                assert(s[j + 1] == n);
            }
            if n == all[k - 1] {
                assert(s[0] == n);
            }
        }
    }
    assert(all.skip(0) =~= all);
    out
}

/// Record the origin and written fields of each entry of one settings level.
fn note_level(
    origins: &mut Vec<(String, RosterOrigin)>,
    fields: &mut Vec<(String, Vec<(String, ())>)>,
    level: &Vec<(String, CustomAgentProfile)>,
    raw: &Json,
    origin: RosterOrigin,
)
    requires
        sorted(old(origins)@),
        sorted(old(fields)@),
    ensures
        sorted(final(origins)@),
        sorted(final(fields)@),
        forall|k: Seq<char>|
            #[trigger] reg_get(final(origins)@, k) == if reg_get(level@, k) is Some {
                Some(origin)
            } else {
                reg_get(old(origins)@, k)
            },
        forall|k: Seq<char>|
            #![trigger reg_get(final(fields)@, k)]
            if reg_get(level@, k) is Some {
                reg_get(final(fields)@, k) matches Some(f) && sorted(f@) && forall|n: Seq<char>|
                    #[trigger] ids(f@).contains(n) <==> object_keys(json_child(json_child(*raw, "agents"@), k)).contains(n)
            } else {
                reg_get(final(fields)@, k) == reg_get(old(fields)@, k)
            },
{
    let agents_raw = get(raw, "agents");
    let mut i: usize = 0;
    while i < level.len()
        invariant
            i <= level.len(),
            sorted(origins@),
            sorted(fields@),
            match agents_raw {
                Some(x) => json_get(*raw, "agents"@) == Some(*x),
                None => json_get(*raw, "agents"@) is None,
            },
            forall|k: Seq<char>|
                #[trigger] reg_get(origins@, k) == if reg_get(level@.take(i as int), k) is Some {
                    Some(origin)
                } else {
                    reg_get(old(origins)@, k)
                },
            forall|k: Seq<char>|
                #![trigger reg_get(fields@, k)]
                if reg_get(level@.take(i as int), k) is Some {
                    reg_get(fields@, k) matches Some(f) && sorted(f@) && forall|n: Seq<char>|
                        #[trigger] ids(f@).contains(n) <==> object_keys(json_child(json_child(*raw, "agents"@), k)).contains(n)
                } else {
                    reg_get(fields@, k) == reg_get(old(fields)@, k)
                },
        decreases level.len() - i,
    {
        let id = &level[i].0;
        let entry_raw = child(agents_raw, id.as_str());
        let keys = match entry_raw {
            Some(e) => raw_object_keys(e),
            None => raw_object_keys(&Json::Null),
        };
        reg_insert(origins, id.clone(), origin);
        reg_insert(fields, id.clone(), keys);
        proof {
            let t0 = level@.take(i as int);
            let t1 = level@.take(i + 1);
            assert forall|k: Seq<char>| #[trigger] reg_get(t1, k) is Some <==> (k == level@[i as int].0@ || reg_get(t0, k) is Some) by {
                lemma_reg_get_prefix(level@, i as int, k);
            }
        }
        i += 1;
    }
    assert(level@.take(level.len() as int) =~= level@);
}

/// The fields each built-in supplies, as ordered sets.
fn built_in_level(base: &Vec<(String, CustomAgentProfile)>) -> (out: (Vec<(String, RosterOrigin)>, Vec<(String, Vec<(String, ())>)>))
    requires
        sorted(base@),
    ensures
        sorted(out.0@),
        sorted(out.1@),
        forall|k: Seq<char>|
            #[trigger] reg_get(out.0@, k) == if reg_get(base@, k) is Some {
                Some(RosterOrigin::BuiltIn)
            } else {
                None
            },
        forall|k: Seq<char>|
            #![trigger reg_get(out.1@, k)]
            match reg_get(base@, k) {
                Some(p) => reg_get(out.1@, k) matches Some(f) && sorted(f@) && forall|n: Seq<char>|
                    #[trigger] ids(f@).contains(n) <==> supplied_names(supplied_fields(p), 11).contains(n),
                None => reg_get(out.1@, k) is None,
            },
{
    let mut origins: Vec<(String, RosterOrigin)> = Vec::new();
    let mut fields: Vec<(String, Vec<(String, ())>)> = Vec::new();
    let mut i: usize = 0;
    while i < base.len()
        invariant
            i <= base.len(),
            sorted(base@),
            sorted(origins@),
            sorted(fields@),
            forall|k: Seq<char>|
                #[trigger] reg_get(origins@, k) == if reg_get(base@.take(i as int), k) is Some {
                    Some(RosterOrigin::BuiltIn)
                } else {
                    None
                },
            forall|k: Seq<char>|
                #![trigger reg_get(fields@, k)]
                match reg_get(base@.take(i as int), k) {
                    Some(p) => reg_get(fields@, k) matches Some(f) && sorted(f@) && forall|n: Seq<char>|
                        #[trigger] ids(f@).contains(n) <==> supplied_names(supplied_fields(p), 11).contains(n),
                    None => reg_get(fields@, k) is None,
                },
        decreases base.len() - i,
    {
        let id = &base[i].0;
        let names = built_in_agent_fields(&base[i].1);
        let set = name_set(names);
        reg_insert(&mut origins, id.clone(), RosterOrigin::BuiltIn);
        reg_insert(&mut fields, id.clone(), set);
        proof {
            let t0 = base@.take(i as int);
            assert forall|j: int| 0 <= j < t0.len() implies (#[trigger] t0[j]).0@ != base@[i as int].0@ by {
                assert(t0[j] == base@[j]);
                assert(lex_lt(base@[j].0@, base@[i as int].0@));
                crate::registry::lemma_lex_irreflexive(base@[i as int].0@);
            }
            lemma_reg_get_absent(t0, base@[i as int].0@);
            assert forall|k: Seq<char>| #[trigger] reg_get(base@.take(i + 1), k) == if k == base@[i as int].0@ {
                if reg_get(base@.take(i as int), k) is Some { reg_get(base@.take(i as int), k) } else { Some(base@[i as int].1) }
            } else {
                reg_get(base@.take(i as int), k)
            } by {
                lemma_reg_get_prefix_value(base@, i as int, k);
            }
        }
        i += 1;
    }
    assert(base@.take(base.len() as int) =~= base@);
    (origins, fields)
}

/// `reg_get` over one more entry of a prefix, with its value.
proof fn lemma_reg_get_prefix_value<T>(r: Seq<(String, T)>, i: int, k: Seq<char>)
    requires
        0 <= i < r.len(),
    ensures
        reg_get(r.take(i + 1), k) == if k == r[i].0@ {
            if reg_get(r.take(i), k) is Some { reg_get(r.take(i), k) } else { Some(r[i].1) }
        } else {
            reg_get(r.take(i), k)
        },
    decreases i,
{
    assert(r.take(i + 1)[0] == r[0]);
    if i > 0 {
        assert(r.take(i)[0] == r[0]);
        if r[0].0@ != k {
            assert(r.take(i + 1).drop_first() =~= r.drop_first().take(i));
            assert(r.take(i).drop_first() =~= r.drop_first().take(i - 1));
            lemma_reg_get_prefix_value(r.drop_first(), i - 1, k);
            assert(r.drop_first()[i - 1] == r[i]);
        }
    } else {
        assert(r.take(1).drop_first().len() == 0);
        assert(reg_get(r.take(1).drop_first(), k) is None);
        assert(r.take(0).len() == 0);
        assert(reg_get(r.take(0), k) is None);
    }
}

/// The agent registry: the built-ins, with each id global settings define
/// replaced by the global entry and each id project settings define
/// replaced by the project entry, whole. Beside it, where each entry came
/// from and the fields it was written with.
pub fn merge_agents(
    global: Vec<(String, CustomAgentProfile)>,
    project: Vec<(String, CustomAgentProfile)>,
    global_raw: &Json,
    project_raw: &Json,
) -> (out: (Vec<(String, CustomAgentProfile)>, Vec<(String, RosterOrigin)>, Vec<(String, Vec<(String, ())>)>))
    requires
        sorted(global@),
        sorted(project@),
    ensures
        sorted(out.0@),
        sorted(out.1@),
        sorted(out.2@),
        forall|k: Seq<char>| #![trigger reg_get(out.0@, k)] agent_after(reg_get(out.0@, k), k, global@, project@),
        forall|k: Seq<char>| #[trigger] reg_get(out.1@, k) == agent_origin(k, global@, project@),
        forall|k: Seq<char>|
            #![trigger reg_get(out.2@, k)]
            agent_fields_after(
                reg_get(out.2@, k),
                reg_get(out.0@, k),
                k,
                global@,
                project@,
                *global_raw,
                *project_raw,
            ),
{
    let base = built_in_agents();
    let (mut origins, mut fields) = built_in_level(&base);
    note_level(&mut origins, &mut fields, &global, global_raw, RosterOrigin::Global);
    note_level(&mut origins, &mut fields, &project, project_raw, RosterOrigin::Project);
    let ghost b = base@;
    let ghost g = global@;
    let ghost p = project@;
    let with_global = reg_merge(base, global);
    let agents = reg_merge(with_global, project);
    proof {
        assert forall|k: Seq<char>| #![trigger reg_get(agents@, k)] agent_after(reg_get(agents@, k), k, g, p) by {
            lemma_aligned(b, built_in_roster(), k);
        }
        assert forall|k: Seq<char>| #[trigger] reg_get(origins@, k) == agent_origin(k, g, p) by {
            lemma_aligned(b, built_in_roster(), k);
        }
        assert forall|k: Seq<char>| #![trigger reg_get(fields@, k)] agent_fields_after(
            reg_get(fields@, k),
            reg_get(agents@, k),
            k,
            g,
            p,
            *global_raw,
            *project_raw,
        ) by {
            lemma_aligned(b, built_in_roster(), k);
        }
    }
    (agents, origins, fields)
}

/// `reg_get` over one more entry of a prefix.
proof fn lemma_reg_get_prefix<T>(r: Seq<(String, T)>, i: int, k: Seq<char>)
    requires
        0 <= i < r.len(),
    ensures
        reg_get(r.take(i + 1), k) is Some <==> (k == r[i].0@ || reg_get(r.take(i), k) is Some),
    decreases i,
{
    assert(r.take(i + 1)[0] == r[0]);
    if i > 0 {
        assert(r.take(i)[0] == r[0]);
        if r[0].0@ != k {
            assert(r.take(i + 1).drop_first() =~= r.drop_first().take(i));
            assert(r.take(i).drop_first() =~= r.drop_first().take(i - 1));
            lemma_reg_get_prefix(r.drop_first(), i - 1, k);
            assert(r.drop_first()[i - 1] == r[i]);
        }
    } else {
        assert(r.take(1).drop_first().len() == 0);
        assert(reg_get(r.take(1).drop_first(), k) is None);
        assert(r.take(0).len() == 0);
        assert(reg_get(r.take(0), k) is None);
    }
}

// ---------------------------------------------------------------------------
// Where each model field came from
// ---------------------------------------------------------------------------

/// The origins of one model's fields and of its bindings' fields.
#[derive(Debug)]
pub struct ModelRosterProvenance {
    pub fields: Vec<(String, RosterOrigin)>,
    pub agents: Vec<(String, Vec<(String, RosterOrigin)>)>,
}

pub open spec fn model_fields() -> Seq<Seq<char>> {
    seq!["provider"@, "model"@, "default_agent"@]
}

/// The last member named `k`, as a map read from the object keeps it.
pub open spec fn last_member(ms: Seq<(String, Json)>, k: Seq<char>) -> Option<Json>
    decreases ms.len(),
{
    if ms.len() == 0 {
        None
    } else if ms.last().0@ == k {
        Some(ms.last().1)
    } else {
        last_member(ms.drop_last(), k)
    }
}

/// The raw binding of agent `a` in a raw model.
pub open spec fn raw_binding(model: Json, a: Seq<char>) -> Option<Json> {
    match json_child(model, "agents"@) {
        Json::Object(ms) => last_member(ms@, a),
        _ => None,
    }
}

/// `o` maps each field of `fields` the raw object supplies to `origin`.
pub open spec fn origins_match(o: Seq<(String, RosterOrigin)>, raw: Json, fields: Seq<Seq<char>>, origin: RosterOrigin) -> bool {
    &&& sorted(o)
    &&& forall|k: Seq<char>| #[trigger] reg_get(o, k) == origins_of(raw, fields, origin, k)
}

/// `p` records a model written at one level: its supplied fields and each
/// raw binding's supplied fields, all with `origin`.
pub open spec fn provenance_of(p: ModelRosterProvenance, raw: Json, origin: RosterOrigin) -> bool {
    &&& origins_match(p.fields@, raw, model_fields(), origin)
    &&& sorted(p.agents@)
    &&& forall|a: Seq<char>|
        #![trigger reg_get(p.agents@, a)]
        match raw_binding(raw, a) {
            Some(b) => reg_get(p.agents@, a) matches Some(o) && origins_match(o@, b, binding_fields(), origin),
            None => reg_get(p.agents@, a) is None,
        }
}

proof fn lemma_model_fields()
    ensures
        model_fields()[0] == "provider"@,
        model_fields()[1] == "model"@,
        model_fields()[2] == "default_agent"@,
        model_fields().len() == 3,
{
}

/// `model_provenance`: the origins of a model written at one level.
pub fn model_provenance(raw: &Json, origin: RosterOrigin) -> (out: ModelRosterProvenance)
    ensures
        provenance_of(out, *raw, origin),
{
    let fields = field_origins(raw, &["provider", "model", "default_agent"], origin);
    proof {
        let names = ["provider", "model", "default_agent"]@.map_values(|f: &str| f@);
        assert(names =~= model_fields());
    }
    let mut agents: Vec<(String, Vec<(String, RosterOrigin)>)> = Vec::new();
    let bindings = get(raw, "agents");
    if let Some(Json::Object(ms)) = bindings {
        let mut i: usize = 0;
        while i < ms.len()
            invariant
                i <= ms.len(),
                sorted(agents@),
                json_child(*raw, "agents"@) == Json::Object(*ms),
                forall|a: Seq<char>|
                    #![trigger reg_get(agents@, a)]
                    match last_member(ms@.take(i as int), a) {
                        Some(b) => reg_get(agents@, a) matches Some(o) && origins_match(o@, b, binding_fields(), origin),
                        None => reg_get(agents@, a) is None,
                    },
            decreases ms.len() - i,
        {
            let o = field_origins(&ms[i].1, &["args", "autonomous_args", "timeout"], origin);
            proof {
                let names = ["args", "autonomous_args", "timeout"]@.map_values(|f: &str| f@);
                assert(names =~= binding_fields());
            }
            reg_insert(&mut agents, ms[i].0.clone(), o);
            assert(ms@.take(i + 1).drop_last() =~= ms@.take(i as int));
            assert(ms@.take(i + 1).last() == ms@[i as int]);
            i += 1;
        }
        assert(ms@.take(ms.len() as int) =~= ms@);
    }
    ModelRosterProvenance { fields, agents }
}

/// The origins of agent `a`'s binding in a model both levels define.
pub open spec fn binding_provenance_after(
    ob: Option<Vec<(String, RosterOrigin)>>,
    a: Seq<char>,
    gm: ModelProfile,
    pm: ModelProfile,
    graw: Json,
    praw: Json,
) -> bool {
    let base = raw_binding(graw, a);
    let praw_b = json_child(json_child(praw, "agents"@), a);
    match reg_get(pm.agents@, a) {
        None => match base {
            Some(b) => ob matches Some(o) && origins_match(o@, b, binding_fields(), RosterOrigin::Global),
            None => ob is None,
        },
        Some(_) => match reg_get(gm.agents@, a) {
            Some(_) => ob matches Some(o) && sorted(o@) && forall|f: Seq<char>|
                #[trigger] reg_get(o@, f) == if binding_fields().contains(f) && has_member(praw_b, f) {
                    Some(RosterOrigin::Project)
                } else {
                    match base {
                        Some(b) => origins_of(b, binding_fields(), RosterOrigin::Global, f),
                        None => None,
                    }
                },
            None => ob matches Some(o) && origins_match(o@, praw_b, binding_fields(), RosterOrigin::Project),
        },
    }
}

/// The origins recorded for model `k` after the merge.
pub open spec fn model_provenance_after(
    o: Option<ModelRosterProvenance>,
    k: Seq<char>,
    global: Seq<(String, ModelProfile)>,
    project: Seq<(String, ModelProfile)>,
    global_raw: Json,
    project_raw: Json,
) -> bool {
    let graw = model_raw(global_raw, k);
    let praw = model_raw(project_raw, k);
    match (reg_get(global, k), reg_get(project, k)) {
        (None, None) => o is None,
        (Some(_), None) => o matches Some(x) && provenance_of(x, graw, RosterOrigin::Global),
        (None, Some(_)) => o matches Some(x) && provenance_of(x, praw, RosterOrigin::Project),
        (Some(gm), Some(pm)) => o matches Some(x) && sorted(x.fields@) && sorted(x.agents@) && (forall|f: Seq<char>|
            #[trigger] reg_get(x.fields@, f) == if model_fields().contains(f) && has_member(praw, f) {
                Some(RosterOrigin::Project)
            } else {
                origins_of(graw, model_fields(), RosterOrigin::Global, f)
            }) && (forall|a: Seq<char>|
            #![trigger reg_get(x.agents@, a)]
            binding_provenance_after(reg_get(x.agents@, a), a, gm, pm, graw, praw)),
    }
}

fn mark_project(origins: &mut Vec<(String, RosterOrigin)>, raw: Option<&Json>, field: &str)
    requires
        sorted(old(origins)@),
    ensures
        sorted(final(origins)@),
        forall|f: Seq<char>|
            #[trigger] reg_get(final(origins)@, f) == if f == field@ && has_member(raw_or_null(raw), f) {
                Some(RosterOrigin::Project)
            } else {
                reg_get(old(origins)@, f)
            },
{
    if present(raw, field) {
        reg_insert(origins, field.to_string(), RosterOrigin::Project);
    }
}

/// The bindings' origins of a model both levels define.
fn merge_binding_provenance(
    x: &mut Vec<(String, Vec<(String, RosterOrigin)>)>,
    gm: &ModelProfile,
    pm: &ModelProfile,
    graw_in: Option<&Json>,
    praw: Option<&Json>,
)
    requires
        sorted(old(x)@),
        sorted(pm.agents@),
        forall|a: Seq<char>|
            #![trigger reg_get(old(x)@, a)]
            match raw_binding(raw_or_null(graw_in), a) {
                Some(b) => reg_get(old(x)@, a) matches Some(o) && origins_match(o@, b, binding_fields(), RosterOrigin::Global),
                None => reg_get(old(x)@, a) is None,
            },
    ensures
        sorted(final(x)@),
        forall|a: Seq<char>|
            #![trigger reg_get(final(x)@, a)]
            binding_provenance_after(reg_get(final(x)@, a), a, *gm, *pm, raw_or_null(graw_in), raw_or_null(praw)),
{
    let ghost pa = pm.agents@;
    let ghost x0 = x@;
    let bindings_raw = child(praw, "agents");
    let mut i: usize = 0;
    while i < pm.agents.len()
        invariant
            i <= pm.agents.len(),
            pa == pm.agents@,
            sorted(pa),
            sorted(x@),
            raw_or_null(bindings_raw) == json_child(raw_or_null(praw), "agents"@),
            forall|a: Seq<char>|
                #![trigger reg_get(x0, a)]
                match raw_binding(raw_or_null(graw_in), a) {
                    Some(b) => reg_get(x0, a) matches Some(o) && origins_match(o@, b, binding_fields(), RosterOrigin::Global),
                    None => reg_get(x0, a) is None,
                },
            forall|a: Seq<char>|
                #![trigger reg_get(x@, a)]
                if reg_get(pa.take(i as int), a) is Some {
                    binding_provenance_after(reg_get(x@, a), a, *gm, *pm, raw_or_null(graw_in), raw_or_null(praw))
                } else {
                    reg_get(x@, a) == reg_get(x0, a)
                },
        decreases pm.agents.len() - i,
    {
        let aid = &pm.agents[i].0;
        let braw = child(bindings_raw, aid.as_str());
        proof {
            crate::registry::lemma_reg_get_at(pa, i as int);
            let t0 = pa.take(i as int);
            assert forall|j: int| 0 <= j < t0.len() implies (#[trigger] t0[j]).0@ != pa[i as int].0@ by {
                assert(t0[j] == pa[j]);
                assert(lex_lt(pa[j].0@, pa[i as int].0@));
                crate::registry::lemma_lex_irreflexive(pa[i as int].0@);
            }
            lemma_reg_get_absent(t0, pa[i as int].0@);
            assert(reg_get(x@, aid@) == reg_get(x0, aid@));
        }
        if crate::registry::reg_contains(&gm.agents, aid.as_str()) {
            let mut o = match reg_remove(x, aid.as_str()) {
                Some(o) => o,
                None => Vec::new(),
            };
            mark_project(&mut o, braw, "args");
            mark_project(&mut o, braw, "autonomous_args");
            mark_project(&mut o, braw, "timeout");
            proof {
                let bf = binding_fields();
                assert(bf[0] == "args"@ && bf[1] == "autonomous_args"@ && bf[2] == "timeout"@);
                assert forall|f: Seq<char>| bf.contains(f) <==> (f == "args"@ || f == "autonomous_args"@ || f == "timeout"@) by {
                    if bf.contains(f) {
                        let j = choose|j: int| 0 <= j < bf.len() && #[trigger] bf[j] == f;
                        assert(j == 0 || j == 1 || j == 2);
                    }
                    if f == "args"@ { assert(bf[0] == f); }
                    if f == "autonomous_args"@ { assert(bf[1] == f); }
                    if f == "timeout"@ { assert(bf[2] == f); }
                }
            }
            reg_insert(x, aid.clone(), o);
        } else {
            let fresh = match braw {
                Some(b) => field_origins(b, &["args", "autonomous_args", "timeout"], RosterOrigin::Project),
                None => field_origins(&Json::Null, &["args", "autonomous_args", "timeout"], RosterOrigin::Project),
            };
            proof {
                let names = ["args", "autonomous_args", "timeout"]@.map_values(|f: &str| f@);
                assert(names =~= binding_fields());
            }
            reg_insert(x, aid.clone(), fresh);
        }
        proof {
            assert forall|a: Seq<char>| #![trigger reg_get(pa.take(i + 1), a)] (reg_get(pa.take(i + 1), a) is Some) <==> (a == pa[i as int].0@ || reg_get(pa.take(i as int), a) is Some) by {
                lemma_reg_get_prefix(pa, i as int, a);
            }
        }
        i += 1;
    }
    proof {
        assert(pa.take(pm.agents.len() as int) =~= pa);
        assert forall|a: Seq<char>| #![trigger reg_get(x@, a)] binding_provenance_after(reg_get(x@, a), a, *gm, *pm, raw_or_null(graw_in), raw_or_null(praw)) by {
            if reg_get(pa, a) is None {
                assert(reg_get(x@, a) == reg_get(x0, a));
            }
        }
    }
}

/// The origins of every model field and binding field after the merge.
pub fn merge_model_provenance(
    global: &Vec<(String, ModelProfile)>,
    project: &Vec<(String, ModelProfile)>,
    global_raw: &Json,
    project_raw: &Json,
) -> (out: Vec<(String, ModelRosterProvenance)>)
    requires
        sorted(global@),
        sorted(project@),
        bindings_sorted(project@),
    ensures
        sorted(out@),
        forall|k: Seq<char>|
            #![trigger reg_get(out@, k)]
            model_provenance_after(reg_get(out@, k), k, global@, project@, *global_raw, *project_raw),
{
    let gmodels = get(global_raw, "models");
    let pmodels = get(project_raw, "models");
    let mut out: Vec<(String, ModelRosterProvenance)> = Vec::new();
    let mut i: usize = 0;
    while i < global.len()
        invariant
            i <= global.len(),
            sorted(out@),
            sorted(global@),
            match gmodels {
                Some(v) => json_get(*global_raw, "models"@) == Some(*v),
                None => json_get(*global_raw, "models"@) is None,
            },
            forall|k: Seq<char>|
                #![trigger reg_get(out@, k)]
                match reg_get(global@.take(i as int), k) {
                    Some(_) => reg_get(out@, k) matches Some(x) && provenance_of(x, model_raw(*global_raw, k), RosterOrigin::Global),
                    None => reg_get(out@, k) is None,
                },
        decreases global.len() - i,
    {
        let id = &global[i].0;
        let raw = child(gmodels, id.as_str());
        let prov = match raw {
            Some(r) => model_provenance(r, RosterOrigin::Global),
            None => model_provenance(&Json::Null, RosterOrigin::Global),
        };
        proof {
            let t0 = global@.take(i as int);
            assert forall|j: int| 0 <= j < t0.len() implies (#[trigger] t0[j]).0@ != global@[i as int].0@ by {
                assert(t0[j] == global@[j]);
                assert(lex_lt(global@[j].0@, global@[i as int].0@));
                crate::registry::lemma_lex_irreflexive(global@[i as int].0@);
            }
            lemma_reg_get_absent(t0, global@[i as int].0@);
        }
        reg_insert(&mut out, id.clone(), prov);
        proof {
            assert forall|k: Seq<char>| #[trigger] reg_get(global@.take(i + 1), k) == if k == global@[i as int].0@ {
                if reg_get(global@.take(i as int), k) is Some { reg_get(global@.take(i as int), k) } else { Some(global@[i as int].1) }
            } else {
                reg_get(global@.take(i as int), k)
            } by {
                lemma_reg_get_prefix_value(global@, i as int, k);
            }
        }
        i += 1;
    }
    assert(global@.take(global.len() as int) =~= global@);
    let ghost o1 = out@;
    let mut j: usize = 0;
    while j < project.len()
        invariant
            j <= project.len(),
            sorted(out@),
            sorted(global@),
            sorted(project@),
            bindings_sorted(project@),
            match pmodels {
                Some(v) => json_get(*project_raw, "models"@) == Some(*v),
                None => json_get(*project_raw, "models"@) is None,
            },
            match gmodels {
                Some(v) => json_get(*global_raw, "models"@) == Some(*v),
                None => json_get(*global_raw, "models"@) is None,
            },
            forall|k: Seq<char>|
                #![trigger reg_get(o1, k)]
                match reg_get(global@, k) {
                    Some(_) => reg_get(o1, k) matches Some(x) && provenance_of(x, model_raw(*global_raw, k), RosterOrigin::Global),
                    None => reg_get(o1, k) is None,
                },
            forall|k: Seq<char>|
                #![trigger reg_get(out@, k)]
                if reg_get(project@.take(j as int), k) is Some {
                    model_provenance_after(reg_get(out@, k), k, global@, project@, *global_raw, *project_raw)
                } else {
                    reg_get(out@, k) == reg_get(o1, k)
                },
        decreases project.len() - j,
    {
        let id = &project[j].0;
        let pm = &project[j].1;
        let praw = child(pmodels, id.as_str());
        assert(raw_or_null(praw) == model_raw(*project_raw, id@));
        proof {
            crate::registry::lemma_reg_get_at(project@, j as int);
            assert(sorted(pm.agents@));
            let t0 = project@.take(j as int);
            assert forall|w: int| 0 <= w < t0.len() implies (#[trigger] t0[w]).0@ != project@[j as int].0@ by {
                assert(t0[w] == project@[w]);
                assert(lex_lt(project@[w].0@, project@[j as int].0@));
                crate::registry::lemma_lex_irreflexive(project@[j as int].0@);
            }
            lemma_reg_get_absent(t0, project@[j as int].0@);
            assert(reg_get(out@, id@) == reg_get(o1, id@));
        }
        match crate::registry::reg_find(global, id.as_str()) {
            Some(gm) => {
                let graw = child(gmodels, id.as_str());
                let ghost graw_v = raw_or_null(graw);
                assert(graw_v == model_raw(*global_raw, id@));
                let mut x = match reg_remove(&mut out, id.as_str()) {
                    Some(x) => x,
                    None => ModelRosterProvenance { fields: Vec::new(), agents: Vec::new() },
                };
                mark_project(&mut x.fields, praw, "provider");
                mark_project(&mut x.fields, praw, "model");
                mark_project(&mut x.fields, praw, "default_agent");
                proof {
                    lemma_model_fields();
                    let mf = model_fields();
                    assert forall|f: Seq<char>| mf.contains(f) <==> (f == "provider"@ || f == "model"@ || f == "default_agent"@) by {
                        if mf.contains(f) {
                            let w = choose|w: int| 0 <= w < mf.len() && #[trigger] mf[w] == f;
                            assert(w == 0 || w == 1 || w == 2);
                        }
                        if f == "provider"@ { assert(mf[0] == f); }
                        if f == "model"@ { assert(mf[1] == f); }
                        if f == "default_agent"@ { assert(mf[2] == f); }
                    }
                }
                merge_binding_provenance(&mut x.agents, gm, pm, graw, praw);
                reg_insert(&mut out, id.clone(), x);
            },
            None => {
                let prov = match praw {
                    Some(r) => model_provenance(r, RosterOrigin::Project),
                    None => model_provenance(&Json::Null, RosterOrigin::Project),
                };
                reg_insert(&mut out, id.clone(), prov);
            },
        }
        proof {
            assert forall|k: Seq<char>| #![trigger reg_get(project@.take(j + 1), k)] (reg_get(project@.take(j + 1), k) is Some) <==> (k == project@[j as int].0@ || reg_get(project@.take(j as int), k) is Some) by {
                lemma_reg_get_prefix(project@, j as int, k);
            }
        }
        j += 1;
    }
    proof {
        assert(project@.take(project.len() as int) =~= project@);
        assert forall|k: Seq<char>| #![trigger reg_get(out@, k)] model_provenance_after(reg_get(out@, k), k, global@, project@, *global_raw, *project_raw) by {
            if reg_get(project@, k) is None {
                assert(reg_get(out@, k) == reg_get(o1, k));
            }
        }
    }
    out
}

// ---------------------------------------------------------------------------
// Defaults and the whole settings
// ---------------------------------------------------------------------------

/// The nested `defaults` section. `mcp_servers` and `skills` tell "unset"
/// (inherit) from "empty" (clear what is inherited).
#[derive(Debug)]
pub struct SettingsDefaults {
    pub model: Option<String>,
    /// The default agent's id.
    pub agent: Option<String>,
    pub agent_mode: Option<String>,
    pub agent_timeout: Option<String>,
    pub program_timeout: Option<String>,
    pub attempts: Option<u32>,
    pub mcp_servers: Option<Vec<StateMcpEntry>>,
    pub skills: Option<Vec<StateSkillEntry>>,
}

pub open spec fn default_fields() -> Seq<Seq<char>> {
    seq![
        "model"@,
        "agent"@,
        "agent_mode"@,
        "agent_timeout"@,
        "program_timeout"@,
        "attempts"@,
        "mcp_servers"@,
        "skills"@,
    ]
}

/// Each default the project's raw `defaults` supplies replaces the global
/// one, an explicit `null` or empty list included.
pub open spec fn defaults_merged(d: SettingsDefaults, g: SettingsDefaults, p: SettingsDefaults, project_raw: Json) -> bool {
    let has = |f: Seq<char>| nested_present(project_raw, "defaults"@, f);
    &&& d.model == pick(has("model"@), p.model, g.model)
    &&& d.agent == pick(has("agent"@), p.agent, g.agent)
    &&& d.agent_mode == pick(has("agent_mode"@), p.agent_mode, g.agent_mode)
    &&& d.agent_timeout == pick(has("agent_timeout"@), p.agent_timeout, g.agent_timeout)
    &&& d.program_timeout == pick(has("program_timeout"@), p.program_timeout, g.program_timeout)
    &&& d.attempts == pick(has("attempts"@), p.attempts, g.attempts)
    &&& d.mcp_servers == pick(has("mcp_servers"@), p.mcp_servers, g.mcp_servers)
    &&& d.skills == pick(has("skills"@), p.skills, g.skills)
}

fn merge_defaults(g: SettingsDefaults, p: SettingsDefaults, project_raw: &Json) -> (d: SettingsDefaults)
    ensures
        defaults_merged(d, g, p, *project_raw),
{
    let ghost (gv, pv) = (g, p);
    let SettingsDefaults { model, agent, agent_mode, agent_timeout, program_timeout, attempts, mcp_servers, skills } = p;
    let mut d = g;
    if json_nested_field_present(project_raw, "defaults", "model") {
        d.model = model;
    }
    if json_nested_field_present(project_raw, "defaults", "agent") {
        d.agent = agent;
    }
    if json_nested_field_present(project_raw, "defaults", "agent_mode") {
        d.agent_mode = agent_mode;
    }
    if json_nested_field_present(project_raw, "defaults", "agent_timeout") {
        d.agent_timeout = agent_timeout;
    }
    if json_nested_field_present(project_raw, "defaults", "program_timeout") {
        d.program_timeout = program_timeout;
    }
    if json_nested_field_present(project_raw, "defaults", "attempts") {
        d.attempts = attempts;
    }
    if json_nested_field_present(project_raw, "defaults", "mcp_servers") {
        d.mcp_servers = mcp_servers;
    }
    if json_nested_field_present(project_raw, "defaults", "skills") {
        d.skills = skills;
    }
    d
}

/// Where each default came from: the global file's supplied fields, then
/// the project's.
pub open spec fn defaults_origin(f: Seq<char>, global_raw: Json, project_raw: Json) -> Option<RosterOrigin> {
    if default_fields().contains(f) && nested_present(project_raw, "defaults"@, f) {
        Some(RosterOrigin::Project)
    } else {
        origins_of(json_child(global_raw, "defaults"@), default_fields(), RosterOrigin::Global, f)
    }
}

fn defaults_provenance(global_raw: &Json, project_raw: &Json) -> (out: Vec<(String, RosterOrigin)>)
    ensures
        sorted(out@),
        forall|f: Seq<char>| #[trigger] reg_get(out@, f) == defaults_origin(f, *global_raw, *project_raw),
{
    let fields: [&str; 8] = [
        "model",
        "agent",
        "agent_mode",
        "agent_timeout",
        "program_timeout",
        "attempts",
        "mcp_servers",
        "skills",
    ];
    assert(fields@.map_values(|f: &str| f@) =~= default_fields());
    let global_defaults = get(global_raw, "defaults");
    let mut out = match global_defaults {
        Some(d) => field_origins(d, &fields, RosterOrigin::Global),
        None => field_origins(&Json::Null, &fields, RosterOrigin::Global),
    };
    let ghost o0 = out@;
    let mut i: usize = 0;
    while i < 8
        invariant
            i <= 8,
            fields@.map_values(|f: &str| f@) == default_fields(),
            sorted(out@),
            forall|f: Seq<char>|
                #[trigger] reg_get(out@, f) == if default_fields().take(i as int).contains(f) && nested_present(*project_raw, "defaults"@, f) {
                    Some(RosterOrigin::Project)
                } else {
                    reg_get(o0, f)
                },
        decreases 8 - i,
    {
        let field = fields[i];
        assert(field@ == default_fields()[i as int]);
        if json_nested_field_present(project_raw, "defaults", field) {
            reg_insert(&mut out, field.to_string(), RosterOrigin::Project);
        }
        proof {
            let t0 = default_fields().take(i as int);
            let t1 = default_fields().take(i + 1);
            assert forall|f: Seq<char>| t1.contains(f) <==> (t0.contains(f) || f == default_fields()[i as int]) by {
                if t1.contains(f) {
                    let w = choose|w: int| 0 <= w < t1.len() && #[trigger] t1[w] == f;
                    if w < i {
                        assert(t0[w] == f);
                    }
                }
                if t0.contains(f) {
                    let w = choose|w: int| 0 <= w < t0.len() && #[trigger] t0[w] == f;
                    assert(t1[w] == f);
                }
                if f == default_fields()[i as int] {
                    assert(t1[i as int] == f);
                }
            }
        }
        i += 1;
    }
    assert(default_fields().take(8) =~= default_fields());
    out
}

/// One settings document's values, and the merged settings.
#[derive(Debug)]
pub struct RheiSettings<S> {
    /// The project settings file the registry was merged from.
    pub project_settings_file: ProjectSettingsFile,
    /// The default agent's id, at the top level.
    pub agent: Option<String>,
    pub agent_mode: Option<String>,
    pub model: Option<String>,
    pub agent_timeout: Option<String>,
    pub program_timeout: Option<String>,
    pub defaults: SettingsDefaults,
    pub agents: Vec<(String, CustomAgentProfile)>,
    pub models: Vec<(String, ModelProfile)>,
    pub mcp_servers: Vec<(String, McpServerProfile)>,
    pub skills: Vec<(String, S)>,
    pub snapshots: Option<SnapshotSettings>,
}

/// Where every roster value came from.
#[derive(Debug)]
pub struct RosterProvenance {
    pub agents: Vec<(String, RosterOrigin)>,
    pub models: Vec<(String, ModelRosterProvenance)>,
    pub defaults: Vec<(String, RosterOrigin)>,
}

/// The merged settings with the origin of every roster value, and the
/// fields each agent entry was written with.
#[derive(Debug)]
pub struct MergedRoster<S> {
    pub settings: RheiSettings<S>,
    pub provenance: RosterProvenance,
    pub agent_fields: Vec<(String, Vec<(String, ())>)>,
}

/// A document's registries are in id order, and so are its models' bindings.
pub open spec fn well_formed<S>(s: RheiSettings<S>) -> bool {
    &&& sorted(s.agents@)
    &&& sorted(s.models@)
    &&& bindings_sorted(s.models@)
    &&& sorted(s.mcp_servers@)
    &&& sorted(s.skills@)
}

/// `m` is the merge of the global and project documents, as the roster
/// and every run see it.
pub open spec fn roster_merged<S>(
    m: MergedRoster<S>,
    g: RheiSettings<S>,
    p: RheiSettings<S>,
    global_raw: Json,
    project_raw: Json,
    file: ProjectSettingsFile,
) -> bool {
    let st = m.settings;
    let has = |f: Seq<char>| has_member(project_raw, f);
    &&& st.project_settings_file == file
    &&& st.agent == pick(has("agent"@), p.agent, g.agent)
    &&& st.agent_mode == pick(has("agent_mode"@), p.agent_mode, g.agent_mode)
    &&& st.model == pick(has("model"@), p.model, g.model)
    &&& st.agent_timeout == pick(has("agent_timeout"@), p.agent_timeout, g.agent_timeout)
    &&& st.program_timeout == pick(has("program_timeout"@), p.program_timeout, g.program_timeout)
    &&& defaults_merged(st.defaults, g.defaults, p.defaults, project_raw)
    &&& sorted(st.agents@)
    &&& (forall|k: Seq<char>| #![trigger reg_get(st.agents@, k)] agent_after(reg_get(st.agents@, k), k, g.agents@, p.agents@))
    &&& sorted(st.models@)
    &&& (forall|k: Seq<char>|
        #![trigger reg_get(st.models@, k)]
        model_after(reg_get(st.models@, k), reg_get(g.models@, k), reg_get(p.models@, k), model_raw(project_raw, k)))
    &&& sorted(st.mcp_servers@)
    &&& (forall|k: Seq<char>|
        #[trigger] reg_get(st.mcp_servers@, k) == match reg_get(p.mcp_servers@, k) {
            Some(v) => Some(v),
            None => reg_get(g.mcp_servers@, k),
        })
    &&& sorted(st.skills@)
    &&& (forall|k: Seq<char>|
        #[trigger] reg_get(st.skills@, k) == match reg_get(p.skills@, k) {
            Some(v) => Some(v),
            None => reg_get(g.skills@, k),
        })
    &&& (has("snapshots"@) && p.snapshots is None ==> st.snapshots is None)
    &&& sorted(m.provenance.agents@)
    &&& (forall|k: Seq<char>| #[trigger] reg_get(m.provenance.agents@, k) == agent_origin(k, g.agents@, p.agents@))
    &&& sorted(m.provenance.models@)
    &&& (forall|k: Seq<char>|
        #![trigger reg_get(m.provenance.models@, k)]
        model_provenance_after(reg_get(m.provenance.models@, k), k, g.models@, p.models@, global_raw, project_raw))
    &&& sorted(m.provenance.defaults@)
    &&& (forall|f: Seq<char>| #[trigger] reg_get(m.provenance.defaults@, f) == defaults_origin(f, global_raw, project_raw))
    &&& sorted(m.agent_fields@)
    &&& (forall|k: Seq<char>|
        #![trigger reg_get(m.agent_fields@, k)]
        agent_fields_after(reg_get(m.agent_fields@, k), reg_get(st.agents@, k), k, g.agents@, p.agents@, global_raw, project_raw))
}

/// Every merged default follows its recorded origin: a default the
/// provenance attributes to the project holds the project's value, and any
/// other holds the global one.
pub proof fn merged_defaults_follow_their_origin<S>(
    m: MergedRoster<S>,
    g: RheiSettings<S>,
    p: RheiSettings<S>,
    global_raw: Json,
    project_raw: Json,
    file: ProjectSettingsFile,
)
    requires
        roster_merged(m, g, p, global_raw, project_raw, file),
    ensures
        reg_get(m.provenance.defaults@, "model"@) == Some(RosterOrigin::Project) ==> m.settings.defaults.model == p.defaults.model,
        reg_get(m.provenance.defaults@, "model"@) != Some(RosterOrigin::Project) ==> m.settings.defaults.model == g.defaults.model,
        reg_get(m.provenance.defaults@, "agent"@) == Some(RosterOrigin::Project) ==> m.settings.defaults.agent == p.defaults.agent,
        reg_get(m.provenance.defaults@, "agent"@) != Some(RosterOrigin::Project) ==> m.settings.defaults.agent == g.defaults.agent,
        reg_get(m.provenance.defaults@, "agent_mode"@) == Some(RosterOrigin::Project) ==> m.settings.defaults.agent_mode == p.defaults.agent_mode,
        reg_get(m.provenance.defaults@, "agent_mode"@) != Some(RosterOrigin::Project) ==> m.settings.defaults.agent_mode == g.defaults.agent_mode,
        reg_get(m.provenance.defaults@, "agent_timeout"@) == Some(RosterOrigin::Project) ==> m.settings.defaults.agent_timeout == p.defaults.agent_timeout,
        reg_get(m.provenance.defaults@, "agent_timeout"@) != Some(RosterOrigin::Project) ==> m.settings.defaults.agent_timeout == g.defaults.agent_timeout,
        reg_get(m.provenance.defaults@, "program_timeout"@) == Some(RosterOrigin::Project) ==> m.settings.defaults.program_timeout == p.defaults.program_timeout,
        reg_get(m.provenance.defaults@, "program_timeout"@) != Some(RosterOrigin::Project) ==> m.settings.defaults.program_timeout == g.defaults.program_timeout,
        reg_get(m.provenance.defaults@, "attempts"@) == Some(RosterOrigin::Project) ==> m.settings.defaults.attempts == p.defaults.attempts,
        reg_get(m.provenance.defaults@, "attempts"@) != Some(RosterOrigin::Project) ==> m.settings.defaults.attempts == g.defaults.attempts,
        reg_get(m.provenance.defaults@, "mcp_servers"@) == Some(RosterOrigin::Project) ==> m.settings.defaults.mcp_servers == p.defaults.mcp_servers,
        reg_get(m.provenance.defaults@, "mcp_servers"@) != Some(RosterOrigin::Project) ==> m.settings.defaults.mcp_servers == g.defaults.mcp_servers,
        reg_get(m.provenance.defaults@, "skills"@) == Some(RosterOrigin::Project) ==> m.settings.defaults.skills == p.defaults.skills,
        reg_get(m.provenance.defaults@, "skills"@) != Some(RosterOrigin::Project) ==> m.settings.defaults.skills == g.defaults.skills,
{
    assert(default_fields()[0] == "model"@);
    assert(default_fields()[1] == "agent"@);
    assert(default_fields()[2] == "agent_mode"@);
    assert(default_fields()[3] == "agent_timeout"@);
    assert(default_fields()[4] == "program_timeout"@);
    assert(default_fields()[5] == "attempts"@);
    assert(default_fields()[6] == "mcp_servers"@);
    assert(default_fields()[7] == "skills"@);
    assert forall|f: Seq<char>| default_fields().contains(f) implies
        (reg_get(m.provenance.defaults@, f) == Some(RosterOrigin::Project) <==> nested_present(project_raw, "defaults"@, f)) by {
        assert(reg_get(m.provenance.defaults@, f) == defaults_origin(f, global_raw, project_raw));
    }
    assert(default_fields().contains("model"@));
    assert(default_fields().contains("agent"@));
    assert(default_fields().contains("agent_mode"@));
    assert(default_fields().contains("agent_timeout"@));
    assert(default_fields().contains("program_timeout"@));
    assert(default_fields().contains("attempts"@));
    assert(default_fields().contains("mcp_servers"@));
    assert(default_fields().contains("skills"@));
}

/// Merge the global and project settings documents (typed values beside
/// their raw JSON): agents over the built-ins by id, whole; MCP servers and
/// skills by id; models by id with bindings by agent id; every scalar and
/// default the project supplies over the global one. Then refuse the
/// first effort capability, in id order, that cannot translate one
/// canonical value into one argument span.
pub fn merge_roster<S>(
    global: RheiSettings<S>,
    project: RheiSettings<S>,
    global_raw: &Json,
    project_raw: &Json,
    project_settings_file: ProjectSettingsFile,
    canonical: &Vec<String>,
) -> (out: Result<MergedRoster<S>, Report>)
    requires
        well_formed(global),
        well_formed(project),
    ensures
        match out {
            Ok(m) => roster_merged(m, global, project, *global_raw, *project_raw, project_settings_file)
                && registry_effort_error(m.settings.agents@, texts(canonical@)) is None,
            Err(e) => exists|m: MergedRoster<S>|
                roster_merged(m, global, project, *global_raw, *project_raw, project_settings_file)
                    && is_refusal(Err(e), registry_effort_error(m.settings.agents@, texts(canonical@))),
        },
{
    let ghost (gv, pv) = (global, project);
    let RheiSettings {
        project_settings_file: _,
        agent: g_agent,
        agent_mode: g_agent_mode,
        model: g_model,
        agent_timeout: g_agent_timeout,
        program_timeout: g_program_timeout,
        defaults: g_defaults,
        agents: g_agents,
        models: g_models,
        mcp_servers: g_mcp,
        skills: g_skills,
        snapshots: g_snapshots,
    } = global;
    let RheiSettings {
        project_settings_file: _,
        agent: p_agent,
        agent_mode: p_agent_mode,
        model: p_model,
        agent_timeout: p_agent_timeout,
        program_timeout: p_program_timeout,
        defaults: p_defaults,
        agents: p_agents,
        models: p_models,
        mcp_servers: p_mcp,
        skills: p_skills,
        snapshots: p_snapshots,
    } = project;
    let (agents, agent_origins, agent_fields) = merge_agents(g_agents, p_agents, global_raw, project_raw);
    let model_origins = merge_model_provenance(&g_models, &p_models, global_raw, project_raw);
    let models = merge_models(g_models, p_models, project_raw);
    let mcp_servers = reg_merge(g_mcp, p_mcp);
    let skills = reg_merge(g_skills, p_skills);
    let defaults = merge_defaults(g_defaults, p_defaults, project_raw);
    let defaults_origins = defaults_provenance(global_raw, project_raw);
    let snapshots = if json_field_present(project_raw, "snapshots") && p_snapshots.is_none() {
        None
    } else {
        merge_snapshot_settings(g_snapshots, p_snapshots)
    };
    let settings = RheiSettings {
        project_settings_file,
        agent: if json_field_present(project_raw, "agent") { p_agent } else { g_agent },
        agent_mode: if json_field_present(project_raw, "agent_mode") { p_agent_mode } else { g_agent_mode },
        model: if json_field_present(project_raw, "model") { p_model } else { g_model },
        agent_timeout: if json_field_present(project_raw, "agent_timeout") { p_agent_timeout } else { g_agent_timeout },
        program_timeout: if json_field_present(project_raw, "program_timeout") {
            p_program_timeout
        } else {
            g_program_timeout
        },
        defaults,
        agents,
        models,
        mcp_servers,
        skills,
        snapshots,
    };
    let roster = MergedRoster {
        settings,
        provenance: RosterProvenance { agents: agent_origins, models: model_origins, defaults: defaults_origins },
        agent_fields,
    };
    assert(roster_merged(roster, gv, pv, *global_raw, *project_raw, project_settings_file));
    match validate_agent_effort_profiles(&roster.settings.agents, canonical) {
        Ok(()) => Ok(roster),
        Err(e) => Err(e),
    }
}

// ---------------------------------------------------------------------------
// Effort capabilities
// ---------------------------------------------------------------------------

/// Non-overlapping occurrences of `p` in `s`, from the left (`matches(p).count()`).
pub open spec fn occurrences(s: Seq<char>, p: Seq<char>) -> nat
    decreases s.len(),
{
    if p.len() == 0 || s.len() < p.len() {
        0
    } else if s.take(p.len() as int) == p {
        1 + occurrences(s.skip(p.len() as int), p)
    } else {
        occurrences(s.drop_first(), p)
    }
}

/// The placeholders of a token pattern: `{value}` occurrences over all tokens.
pub open spec fn placeholders(pattern: Seq<Seq<char>>) -> nat
    decreases pattern.len(),
{
    if pattern.len() == 0 {
        0
    } else {
        placeholders(pattern.drop_last()) + occurrences(pattern.last(), "{value}"@)
    }
}

fn count_matches(s: &Vec<char>, p: &Vec<char>) -> (n: usize)
    requires
        p@.len() > 0,
    ensures
        n == occurrences(s@, p@),
{
    let mut i: usize = 0;
    let mut n: usize = 0;
    assert(s@.skip(0) =~= s@);
    while i < s.len()
        invariant
            i <= s.len(),
            p@.len() > 0,
            n <= i,
            occurrences(s@, p@) == n + occurrences(s@.skip(i as int), p@),
        decreases s.len() - i,
    {
        let ghost rest = s@.skip(i as int);
        if p.len() > s.len() - i {
            assert(occurrences(rest, p@) == 0);
            i = s.len();
            assert(s@.skip(i as int).len() == 0);
        } else if matches_at(s, p, i) {
            assert(rest.take(p@.len() as int) =~= s@.subrange(i as int, i + p@.len()));
            assert(rest.skip(p@.len() as int) =~= s@.skip(i + p@.len()));
            n += 1;
            i += p.len();
        } else {
            assert(rest.take(p@.len() as int) =~= s@.subrange(i as int, i + p@.len()));
            assert(rest.drop_first() =~= s@.skip(i + 1));
            i += 1;
        }
    }
    n
}

pub open spec fn refusal(message: Seq<char>, help: Seq<char>) -> Option<(Seq<char>, Seq<char>)> {
    Some((message, help))
}

/// The refusal of one token pattern: empty, or without exactly one placeholder.
pub open spec fn pattern_error(id: Seq<char>, field: Seq<char>, pattern: Seq<Seq<char>>) -> Option<
    (Seq<char>, Seq<char>),
> {
    if pattern.len() == 0 {
        refusal(
            "agent '"@ + id + "' has an empty '"@ + field + "' effort pattern"@,
            "Provide a token pattern containing the {value} placeholder."@,
        )
    } else if placeholders(pattern) != 1 {
        refusal(
            "agent '"@ + id + "' effort '"@ + field + "' pattern must contain exactly one '{value}' placeholder"@,
            "Include exactly one {value} placeholder in the pattern."@,
        )
    } else {
        None
    }
}

/// The refusal of the first mapping that names an unknown canonical value
/// or maps to an empty native value.
pub open spec fn values_error(
    id: Seq<char>,
    values: Seq<(Seq<char>, Seq<char>)>,
    canonical: Seq<Seq<char>>,
) -> Option<(Seq<char>, Seq<char>)>
    decreases values.len(),
{
    if values.len() == 0 {
        None
    } else if !canonical.contains(values[0].0) {
        refusal(
            "agent '"@ + id + "' maps unknown canonical effort value '"@ + values[0].0 + "'"@,
            "Use one of the documented canonical effort values."@,
        )
    } else if trim(values[0].1).len() == 0 {
        refusal(
            "agent '"@ + id + "' maps effort '"@ + values[0].0 + "' to an empty native value"@,
            "Provide a non-empty native value for this effort mapping."@,
        )
    } else {
        values_error(id, values.drop_first(), canonical)
    }
}

pub open spec fn conflicts_error(id: Seq<char>, conflicts: Seq<Seq<Seq<char>>>) -> Option<
    (Seq<char>, Seq<char>),
>
    decreases conflicts.len(),
{
    if conflicts.len() == 0 {
        None
    } else {
        match pattern_error(id, "conflicts"@, conflicts[0]) {
            Some(r) => Some(r),
            None => conflicts_error(id, conflicts.drop_first()),
        }
    }
}

/// The refusal of one agent's effort capability, if any.
pub open spec fn effort_error(id: Seq<char>, e: AgentEffortProfile, canonical: Seq<Seq<char>>) -> Option<
    (Seq<char>, Seq<char>),
> {
    if e.values@.len() == 0 {
        refusal(
            "agent '"@ + id + "' has an empty 'effort.values' mapping"@,
            "Provide at least one canonical effort value and native mapping."@,
        )
    } else {
        match values_error(id, e.values@.map_values(|p: (String, String)| (p.0@, p.1@)), canonical) {
            Some(r) => Some(r),
            None => match pattern_error(id, "args"@, texts(e.args@)) {
                Some(r) => Some(r),
                None => conflicts_error(id, e.conflicts@.map_values(|c: Vec<String>| texts(c@))),
            },
        }
    }
}

/// The first refusal among the registry's effort capabilities, in id order.
pub open spec fn registry_effort_error(
    agents: Seq<(String, CustomAgentProfile)>,
    canonical: Seq<Seq<char>>,
) -> Option<(Seq<char>, Seq<char>)>
    decreases agents.len(),
{
    if agents.len() == 0 {
        None
    } else {
        match agents[0].1.effort {
            Some(e) => match effort_error(agents[0].0@, e, canonical) {
                Some(r) => Some(r),
                None => registry_effort_error(agents.drop_first(), canonical),
            },
            None => registry_effort_error(agents.drop_first(), canonical),
        }
    }
}

fn report3(a: &str, b: &str, c: &str, help: &str) -> (r: Report)
    ensures
        r.message@ == a@ + b@ + c@,
        r.help matches Some(h) && h@ == help@,
{
    let mut m = String::new();
    push_str(&mut m, a);
    push_str(&mut m, b);
    push_str(&mut m, c);
    Report::with_help(m, help.to_string())
}

fn report5(a: &str, b: &str, c: &str, d: &str, e: &str, help: &str) -> (r: Report)
    ensures
        r.message@ == a@ + b@ + c@ + d@ + e@,
        r.help matches Some(h) && h@ == help@,
{
    let mut m = String::new();
    push_str(&mut m, a);
    push_str(&mut m, b);
    push_str(&mut m, c);
    push_str(&mut m, d);
    push_str(&mut m, e);
    Report::with_help(m, help.to_string())
}

/// Whether a report is the refusal `r`.
pub open spec fn is_refusal(out: Result<(), Report>, r: Option<(Seq<char>, Seq<char>)>) -> bool {
    match r {
        None => out is Ok,
        Some((m, h)) => match out {
            Err(e) => e.message@ == m && match e.help {
                Some(x) => x@ == h,
                None => false,
            },
            Ok(_) => false,
        },
    }
}

fn check_pattern(id: &str, field: &str, pattern: &Vec<String>) -> (out: Result<(), Report>)
    ensures
        is_refusal(out, pattern_error(id@, field@, texts(pattern@))),
{
    if pattern.len() == 0 {
        return Err(report5("agent '", id, "' has an empty '", field, "' effort pattern",
            "Provide a token pattern containing the {value} placeholder."));
    }
    let placeholder = chars_of("{value}");
    proof {
        reveal_strlit("{value}");
    }
    let ghost ts = texts(pattern@);
    let mut total: usize = 0;
    let mut i: usize = 0;
    while i < pattern.len()
        invariant
            i <= pattern.len(),
            ts == texts(pattern@),
            placeholder@ == "{value}"@,
            placeholder@.len() > 0,
            total == placeholders(ts.take(i as int)),
            total <= 1,
        decreases pattern.len() - i,
    {
        let token = chars_of(pattern[i].as_str());
        let c = count_matches(&token, &placeholder);
        assert(ts.take(i + 1).drop_last() =~= ts.take(i as int));
        assert(ts.take(i + 1).last() == pattern@[i as int]@);
        if c > 1 || (c == 1 && total == 1) {
            proof {
                lemma_placeholders_grow(ts, i as int + 1);
            }
            return Err(report5("agent '", id, "' effort '", field,
                "' pattern must contain exactly one '{value}' placeholder",
                "Include exactly one {value} placeholder in the pattern."));
        }
        total += c;
        i += 1;
    }
    assert(ts.take(pattern.len() as int) =~= ts);
    if total != 1 {
        return Err(report5("agent '", id, "' effort '", field,
            "' pattern must contain exactly one '{value}' placeholder",
            "Include exactly one {value} placeholder in the pattern."));
    }
    Ok(())
}

/// Placeholders only accumulate over more tokens.
proof fn lemma_placeholders_grow(ts: Seq<Seq<char>>, n: int)
    requires
        0 <= n <= ts.len(),
    ensures
        placeholders(ts) >= placeholders(ts.take(n)),
    decreases ts.len() - n,
{
    if n < ts.len() {
        lemma_placeholders_grow(ts, n + 1);
        assert(ts.take(n + 1).drop_last() =~= ts.take(n));
    } else {
        assert(ts.take(n) =~= ts);
    }
}

fn check_effort(id: &str, e: &AgentEffortProfile, canonical: &Vec<String>) -> (out: Result<(), Report>)
    ensures
        is_refusal(out, effort_error(id@, *e, texts(canonical@))),
{
    if e.values.len() == 0 {
        return Err(report3("agent '", id, "' has an empty 'effort.values' mapping",
            "Provide at least one canonical effort value and native mapping."));
    }
    let ghost vs = e.values@.map_values(|p: (String, String)| (p.0@, p.1@));
    let ghost cs = texts(canonical@);
    let mut i: usize = 0;
    assert(vs.skip(0) =~= vs);
    while i < e.values.len()
        invariant
            i <= e.values.len(),
            vs == e.values@.map_values(|p: (String, String)| (p.0@, p.1@)),
            cs == texts(canonical@),
            values_error(id@, vs, cs) == values_error(id@, vs.skip(i as int), cs),
        decreases e.values.len() - i,
    {
        let (value, native) = (&e.values[i].0, &e.values[i].1);
        assert(vs.skip(i as int)[0] == (value@, native@));
        assert(vs.skip(i as int).drop_first() =~= vs.skip(i + 1));
        let mut known = false;
        let mut j: usize = 0;
        while j < canonical.len()
            invariant
                j <= canonical.len(),
                cs == texts(canonical@),
                known == cs.take(j as int).contains(value@),
            decreases canonical.len() - j,
        {
            assert(cs.take(j + 1) =~= cs.take(j as int).push(cs[j as int]));
            if str_eq(canonical[j].as_str(), value.as_str()) {
                known = true;
            }
            proof {
                let v = value@;
                let t0 = cs.take(j as int);
                let t1 = cs.take(j + 1);
                if t1.contains(v) {
                    let w = choose|w: int| 0 <= w < t1.len() && #[trigger] t1[w] == v;
                    if w < j {
                        assert(t0[w] == v);
                    }
                }
                if t0.contains(v) {
                    let w = choose|w: int| 0 <= w < t0.len() && #[trigger] t0[w] == v;
                    assert(t1[w] == v);
                }
                if cs[j as int] == v {
                    assert(t1[j as int] == v);
                }
            }
            j += 1;
        }
        assert(cs.take(canonical.len() as int) =~= cs);
        if !known {
            return Err(report5("agent '", id, "' maps unknown canonical effort value '", value.as_str(), "'",
                "Use one of the documented canonical effort values."));
        }
        let nc = chars_of(native.as_str());
        let trimmed = trim_vec(&nc);
        if trimmed.len() == 0 {
            return Err(report5("agent '", id, "' maps effort '", value.as_str(), "' to an empty native value",
                "Provide a non-empty native value for this effort mapping."));
        }
        i += 1;
    }
    assert(values_error(id@, vs.skip(e.values.len() as int), cs) is None);
    check_pattern(id, "args", &e.args)?;
    let ghost cf = e.conflicts@.map_values(|c: Vec<String>| texts(c@));
    let mut k: usize = 0;
    assert(cf.skip(0) =~= cf);
    while k < e.conflicts.len()
        invariant
            k <= e.conflicts.len(),
            cf == e.conflicts@.map_values(|c: Vec<String>| texts(c@)),
            effort_error(id@, *e, texts(canonical@)) == conflicts_error(id@, cf.skip(k as int)),
        decreases e.conflicts.len() - k,
    {
        assert(cf.skip(k as int)[0] == texts(e.conflicts@[k as int]@));
        assert(cf.skip(k as int).drop_first() =~= cf.skip(k + 1));
        check_pattern(id, "conflicts", &e.conflicts[k])?;
        k += 1;
    }
    Ok(())
}

/// Refuse the first effort capability, in id order, that cannot translate
/// one canonical value into one deterministic argument span. `canonical`
/// lists the canonical effort values.
pub fn validate_agent_effort_profiles(
    agents: &Vec<(String, CustomAgentProfile)>,
    canonical: &Vec<String>,
) -> (out: Result<(), Report>)
    ensures
        is_refusal(out, registry_effort_error(agents@, texts(canonical@))),
{
    let ghost cs = texts(canonical@);
    let mut i: usize = 0;
    assert(agents@.skip(0) =~= agents@);
    while i < agents.len()
        invariant
            i <= agents.len(),
            cs == texts(canonical@),
            registry_effort_error(agents@, cs) == registry_effort_error(agents@.skip(i as int), cs),
        decreases agents.len() - i,
    {
        assert(agents@.skip(i as int)[0] == agents@[i as int]);
        assert(agents@.skip(i as int).drop_first() =~= agents@.skip(i + 1));
        if let Some(e) = &agents[i].1.effort {
            check_effort(agents[i].0.as_str(), e, canonical)?;
        }
        i += 1;
    }
    Ok(())
}

} // verus!
