//! Reference checks of a state machine against the merged settings: every
//! registry entry a state or the defaults name must exist, every target
//! selector must name a known agent and mode, and the settings-aware effort
//! and snapshot checks must pass.
use vstd::prelude::*;
use crate::registry::{reg_find, reg_get};
use crate::settings::{
    agent_errors, mcp_refs, mcp_server_errors, model_errors, skill_refs, texts, unknown_reference_errors,
    validate_intrinsic_settings, validate_mcp_entries_known, validate_skill_entries_known, CustomAgentProfile,
    McpServerProfile, ModelProfile, StateMcpEntry, StateSkillEntry,
};
use crate::snapshots::{snapshot_registry_errors, snapshot_registry_errors_spec, spelled, SnapshotInvocation};
use crate::text::{join, join_strings, push_str};

verus! {

/// One target selector of a state (its `target`, then each of its
/// `all_targets`), with what parsing it gave: the agent and optional mode,
/// or the parser's complaint.
#[derive(Debug)]
pub struct SelectorReading {
    pub selector: String,
    pub parsed: Result<(String, Option<String>), String>,
}

/// What reference validation reads of one state of the machine.
#[derive(Debug)]
pub struct MachineStateView {
    pub name: String,
    pub mcp_servers: Option<Vec<StateMcpEntry>>,
    pub skills: Option<Vec<StateSkillEntry>>,
    /// The legacy `agent` the state names, if any.
    pub agent: Option<String>,
    pub selectors: Vec<SelectorReading>,
    /// Whether the state selects an effort.
    pub has_effort: bool,
    /// Why resolving the state's invocations with that effort failed, if it did.
    pub effort_error: Option<String>,
    /// Whether the state declares `snapshot.emit` or `snapshot.inherit`.
    pub declares_snapshot: bool,
    pub emits_snapshot: bool,
    /// Whether its `snapshot.inherit` is `required: true`.
    pub inherit_required: bool,
    /// The advice appended to its unsupported-session errors.
    pub snapshot_hint: String,
    /// What resolving its agent invocations gave.
    pub invocations: Result<Vec<SnapshotInvocation>, String>,
}

/// The registries and defaults reference validation reads.
#[derive(Debug)]
pub struct SettingsView {
    pub agents: Vec<(String, CustomAgentProfile)>,
    pub mcp_servers: Vec<(String, McpServerProfile)>,
    pub models: Vec<(String, ModelProfile)>,
    /// The ids of the skill registry.
    pub skill_ids: Vec<String>,
    pub default_mcp_servers: Option<Vec<StateMcpEntry>>,
    pub default_skills: Option<Vec<StateSkillEntry>>,
    /// Where another agent would be declared, as messages name it.
    pub agents_location: String,
    /// Where another mode of each agent would be declared, by agent id.
    pub modes_locations: Vec<(String, String)>,
}

/// The ids of a registry.
pub open spec fn registry_ids<T>(r: Seq<(String, T)>) -> Seq<String> {
    r.map_values(|e: (String, T)| e.0)
}

/// Where another mode of `id` would be declared: the listed location, or
/// nothing where none is listed.
pub open spec fn modes_location(settings: SettingsView, id: Seq<char>) -> Seq<char> {
    match reg_get(settings.modes_locations@, id) {
        Some(l) => l@,
        None => seq![],
    }
}

/// The hint after an unknown agent: the agents the registry knows and where
/// to declare another.
pub open spec fn known_agents_hint_spec(settings: SettingsView) -> Seq<char> {
    if settings.agents@.len() == 0 {
        "no agents are configured; declare one under "@ + settings.agents_location@
    } else {
        "known agents: "@ + join(texts(registry_ids(settings.agents@)), ", "@) + "; declare another under "@
            + settings.agents_location@
    }
}

/// The hint after an unknown mode of `id`: the modes it declares and where to
/// declare another.
pub open spec fn known_modes_hint_spec(settings: SettingsView, id: Seq<char>, profile: CustomAgentProfile) -> Seq<char> {
    if profile.modes@.len() == 0 {
        "it declares no modes; drop the brackets from the selector, or declare one under "@ + modes_location(settings, id)
    } else {
        "known modes: "@ + join(texts(registry_ids(profile.modes@)), ", "@) + "; declare another under "@
            + modes_location(settings, id)
    }
}

/// The errors of one target selector of state `state`.
pub open spec fn selector_errors(settings: SettingsView, state: Seq<char>, r: SelectorReading) -> Seq<Seq<char>> {
    match r.parsed {
        Err(e) => seq!["state '"@ + state + "' has invalid target selector '"@ + r.selector@ + "': "@ + e@],
        Ok((agent, mode)) => match reg_get(settings.agents@, agent@) {
            None => seq!["state '"@ + state + "' references unknown target agent '"@ + agent@ + "' in '"@ + r.selector@
                + "' ("@ + known_agents_hint_spec(settings) + ")"@],
            Some(profile) => match mode {
                Some(m) => if reg_get(profile.modes@, m@) is None {
                    seq!["state '"@ + state + "' references unknown target mode '"@ + m@ + "' for agent '"@ + agent@
                        + "' in '"@ + r.selector@ + "' ("@ + known_modes_hint_spec(settings, agent@, profile) + ")"@]
                } else {
                    Seq::empty()
                },
                None => Seq::empty(),
            },
        },
    }
}

/// The errors of a state's selectors, in order.
pub open spec fn selectors_errors(settings: SettingsView, state: Seq<char>, rs: Seq<SelectorReading>) -> Seq<Seq<char>>
    decreases rs.len(),
{
    if rs.len() == 0 {
        Seq::empty()
    } else {
        selectors_errors(settings, state, rs.drop_last()) + selector_errors(settings, state, rs.last())
    }
}

/// A state's unknown MCP server and skill references.
pub open spec fn state_refs_errors(settings: SettingsView, st: MachineStateView) -> Seq<Seq<char>> {
    unknown_reference_errors("state '"@ + st.name@ + "' mcp_servers"@, "mcp server"@,
        mcp_refs(match st.mcp_servers { Some(es) => Some(es@), None => None }), registry_ids(settings.mcp_servers@))
        + unknown_reference_errors("state '"@ + st.name@ + "' skills"@, "skill"@,
        skill_refs(match st.skills { Some(es) => Some(es@), None => None }), settings.skill_ids@)
}

/// A state's selector, effort and snapshot errors.
pub open spec fn state_tail_errors(settings: SettingsView, st: MachineStateView, validate_static_modes: bool) -> Seq<Seq<char>> {
    let s = st.name@;
    selectors_errors(settings, s, st.selectors@)
        + (if validate_static_modes && st.has_effort {
            match st.effort_error {
                Some(e) => seq!["state '"@ + s + "' has invalid effort selection: "@ + e@],
                None => Seq::empty(),
            }
        } else {
            Seq::empty()
        })
        + snapshot_registry_errors_spec(s, st.declares_snapshot, st.emits_snapshot, st.inherit_required,
            st.snapshot_hint@, match st.invocations { Ok(v) => Ok(v@), Err(e) => Err(e@) })
}

/// The errors of one state: unknown MCP servers and skills, then an unknown
/// legacy agent (which ends the state's checks), else its selectors, its
/// effort (where static modes are validated) and its snapshot operations.
pub open spec fn state_reference_errors(settings: SettingsView, st: MachineStateView, validate_static_modes: bool) -> Seq<Seq<char>> {
    let refs = state_refs_errors(settings, st);
    match st.agent {
        Some(a) => if reg_get(settings.agents@, a@) is None {
            refs.push("state '"@ + st.name@ + "' references unknown agent '"@ + a@ + "' ("@ + known_agents_hint_spec(settings) + ")"@)
        } else {
            refs + state_tail_errors(settings, st, validate_static_modes)
        },
        None => refs + state_tail_errors(settings, st, validate_static_modes),
    }
}

/// The errors of the states, in order.
pub open spec fn states_reference_errors(settings: SettingsView, states: Seq<MachineStateView>, validate_static_modes: bool) -> Seq<Seq<char>>
    decreases states.len(),
{
    if states.len() == 0 {
        Seq::empty()
    } else {
        states_reference_errors(settings, states.drop_last(), validate_static_modes)
            + state_reference_errors(settings, states.last(), validate_static_modes)
    }
}

/// All reference errors: the registries' own, unknown default MCP servers and
/// skills, the static agent-mode errors (where validated), then each state's.
pub open spec fn machine_reference_errors(
    settings: SettingsView,
    states: Seq<MachineStateView>,
    validate_static_modes: bool,
    static_mode_errors: Seq<String>,
) -> Seq<Seq<char>> {
    agent_errors(settings.agents@) + mcp_server_errors(settings.mcp_servers@) + model_errors(settings.models@)
        + unknown_reference_errors("defaults.mcp_servers"@, "mcp server"@,
        mcp_refs(match settings.default_mcp_servers { Some(es) => Some(es@), None => None }), registry_ids(settings.mcp_servers@))
        + unknown_reference_errors("defaults.skills"@, "skill"@,
        skill_refs(match settings.default_skills { Some(es) => Some(es@), None => None }), settings.skill_ids@)
        + (if validate_static_modes { texts(static_mode_errors) } else { Seq::empty() })
        + states_reference_errors(settings, states, validate_static_modes)
}

fn ids_of<T>(r: &Vec<(String, T)>) -> (out: Vec<String>)
    ensures
        out@ == registry_ids(r@),
{
    let mut out: Vec<String> = Vec::new();
    let mut i: usize = 0;
    while i < r.len()
        invariant
            i <= r.len(),
            out@ == registry_ids(r@.take(i as int)),
        decreases r.len() - i,
    {
        out.push(r[i].0.clone());
        assert(registry_ids(r@.take(i + 1)) =~= registry_ids(r@.take(i as int)).push(r@[i as int].0));
        i = i + 1;
    }
    assert(r@.take(r.len() as int) =~= r@);
    out
}

/// The hint after an unknown agent.
pub fn known_agents_hint(settings: &SettingsView) -> (out: String)
    ensures
        out@ == known_agents_hint_spec(*settings),
{
    let mut out = String::new();
    if settings.agents.len() == 0 {
        push_str(&mut out, "no agents are configured; declare one under ");
    } else {
        let names = ids_of(&settings.agents);
        let listed = join_strings(&names, ", ");
        push_str(&mut out, "known agents: ");
        push_str(&mut out, listed.as_str());
        push_str(&mut out, "; declare another under ");
    }
    push_str(&mut out, settings.agents_location.as_str());
    out
}

fn modes_location_of<'a>(settings: &'a SettingsView, id: &str) -> (out: &'a str)
    ensures
        out@ == modes_location(*settings, id@),
{
    match reg_find(&settings.modes_locations, id) {
        Some(l) => l.as_str(),
        None => {
            proof {
                reveal_strlit("");
            }
            ""
        },
    }
}

/// The hint after an unknown mode of agent `id`.
pub fn known_modes_hint(settings: &SettingsView, id: &str, profile: &CustomAgentProfile) -> (out: String)
    ensures
        out@ == known_modes_hint_spec(*settings, id@, *profile),
{
    let mut out = String::new();
    if profile.modes.len() == 0 {
        push_str(&mut out, "it declares no modes; drop the brackets from the selector, or declare one under ");
    } else {
        let names = ids_of(&profile.modes);
        let listed = join_strings(&names, ", ");
        push_str(&mut out, "known modes: ");
        push_str(&mut out, listed.as_str());
        push_str(&mut out, "; declare another under ");
    }
    push_str(&mut out, modes_location_of(settings, id));
    out
}

fn selector_check(settings: &SettingsView, state: &str, r: &SelectorReading, errors: &mut Vec<String>)
    ensures
        texts(final(errors)@) == texts(old(errors)@) + selector_errors(*settings, state@, *r),
{
    let ghost start = texts(errors@);
    let mut m = String::new();
    match &r.parsed {
        Err(e) => {
            push_str(&mut m, "state '");
            push_str(&mut m, state);
            push_str(&mut m, "' has invalid target selector '");
            push_str(&mut m, r.selector.as_str());
            push_str(&mut m, "': ");
            push_str(&mut m, e.as_str());
        },
        Ok((agent, mode)) => match reg_find(&settings.agents, agent.as_str()) {
            None => {
                let hint = known_agents_hint(settings);
                push_str(&mut m, "state '");
                push_str(&mut m, state);
                push_str(&mut m, "' references unknown target agent '");
                push_str(&mut m, agent.as_str());
                push_str(&mut m, "' in '");
                push_str(&mut m, r.selector.as_str());
                push_str(&mut m, "' (");
                push_str(&mut m, hint.as_str());
                push_str(&mut m, ")");
            },
            Some(profile) => match mode {
                Some(md) => {
                    if reg_find(&profile.modes, md.as_str()).is_some() {
                        assert(texts(errors@) =~= start + selector_errors(*settings, state@, *r));
                        return;
                    }
                    let hint = known_modes_hint(settings, agent.as_str(), profile);
                    push_str(&mut m, "state '");
                    push_str(&mut m, state);
                    push_str(&mut m, "' references unknown target mode '");
                    push_str(&mut m, md.as_str());
                    push_str(&mut m, "' for agent '");
                    push_str(&mut m, agent.as_str());
                    push_str(&mut m, "' in '");
                    push_str(&mut m, r.selector.as_str());
                    push_str(&mut m, "' (");
                    push_str(&mut m, hint.as_str());
                    push_str(&mut m, ")");
                },
                None => {
                    assert(texts(errors@) =~= start + selector_errors(*settings, state@, *r));
                    return;
                },
            },
        },
    }
    let ghost before = errors@;
    errors.push(m);
    assert(texts(errors@) =~= texts(before).push(errors@.last()@));
    assert(texts(errors@) =~= start + selector_errors(*settings, state@, *r));
}

fn append_texts(errors: &mut Vec<String>, more: Vec<String>)
    ensures
        texts(final(errors)@) == texts(old(errors)@) + texts(more@),
{
    let ghost start = texts(errors@);
    let ghost all = more@;
    let mut i: usize = 0;
    while i < more.len()
        invariant
            i <= more.len(),
            all == more@,
            texts(errors@) == start + texts(all.take(i as int)),
        decreases more.len() - i,
    {
        let ghost before = errors@;
        errors.push(more[i].clone());
        assert(texts(errors@) =~= texts(before).push(all[i as int]@));
        assert(texts(all.take(i + 1)) =~= texts(all.take(i as int)).push(all[i as int]@));
        i = i + 1;
    }
    assert(all.take(more.len() as int) =~= all);
}

fn state_refs(settings: &SettingsView, st: &MachineStateView, mcp_ids: &Vec<String>, errors: &mut Vec<String>)
    requires
        mcp_ids@ == registry_ids(settings.mcp_servers@),
    ensures
        texts(final(errors)@) == texts(old(errors)@) + state_refs_errors(*settings, *st),
{
    let ghost start = texts(errors@);
    let s = st.name.as_str();
    let mut label = String::new();
    push_str(&mut label, "state '");
    push_str(&mut label, s);
    push_str(&mut label, "' mcp_servers");
    validate_mcp_entries_known(label.as_str(), st.mcp_servers.as_ref(), mcp_ids, errors);
    let mut label2 = String::new();
    push_str(&mut label2, "state '");
    push_str(&mut label2, s);
    push_str(&mut label2, "' skills");
    validate_skill_entries_known(label2.as_str(), st.skills.as_ref(), &settings.skill_ids, errors);
    assert(texts(errors@) =~= start + state_refs_errors(*settings, *st));
}

fn state_tail(settings: &SettingsView, st: &MachineStateView, validate_static_modes: bool, errors: &mut Vec<String>)
    ensures
        texts(final(errors)@) == texts(old(errors)@) + state_tail_errors(*settings, *st, validate_static_modes),
{
    let ghost start = texts(errors@);
    let s = st.name.as_str();
    let mut i: usize = 0;
    assert(st.selectors@.take(0) =~= Seq::<SelectorReading>::empty());
    assert(texts(errors@) =~= start + selectors_errors(*settings, s@, st.selectors@.take(0)));
    while i < st.selectors.len()
        invariant
            i <= st.selectors.len(),
            texts(errors@) == start + selectors_errors(*settings, s@, st.selectors@.take(i as int)),
        decreases st.selectors.len() - i,
    {
        assert(st.selectors@.take(i + 1).drop_last() =~= st.selectors@.take(i as int));
        selector_check(settings, s, &st.selectors[i], errors);
        assert(texts(errors@) =~= start + selectors_errors(*settings, s@, st.selectors@.take(i + 1)));
        i = i + 1;
    }
    assert(st.selectors@.take(st.selectors.len() as int) =~= st.selectors@);
    let ghost after_selectors = texts(errors@);
    let mut effort: Vec<String> = Vec::new();
    if validate_static_modes && st.has_effort {
        if let Some(e) = &st.effort_error {
            let mut m = String::new();
            push_str(&mut m, "state '");
            push_str(&mut m, s);
            push_str(&mut m, "' has invalid effort selection: ");
            push_str(&mut m, e.as_str());
            effort.push(m);
        }
    }
    assert(texts(effort@) =~= (if validate_static_modes && st.has_effort {
        match st.effort_error {
            Some(e) => seq!["state '"@ + s@ + "' has invalid effort selection: "@ + e@],
            None => Seq::<Seq<char>>::empty(),
        }
    } else {
        Seq::<Seq<char>>::empty()
    }));
    append_texts(errors, effort);
    let snapshot = snapshot_registry_errors(s, st.declares_snapshot, st.emits_snapshot, st.inherit_required,
        st.snapshot_hint.as_str(), &st.invocations);
    assert(spelled(snapshot@) =~= texts(snapshot@));
    append_texts(errors, snapshot);
    assert(texts(errors@) =~= start + state_tail_errors(*settings, *st, validate_static_modes));
}

fn state_check(settings: &SettingsView, st: &MachineStateView, validate_static_modes: bool, mcp_ids: &Vec<String>, errors: &mut Vec<String>)
    requires
        mcp_ids@ == registry_ids(settings.mcp_servers@),
    ensures
        texts(final(errors)@) == texts(old(errors)@) + state_reference_errors(*settings, *st, validate_static_modes),
{
    let ghost start = texts(errors@);
    state_refs(settings, st, mcp_ids, errors);
    let ghost after_refs = texts(errors@);
    if let Some(a) = &st.agent {
        if reg_find(&settings.agents, a.as_str()).is_none() {
            let hint = known_agents_hint(settings);
            let mut m = String::new();
            push_str(&mut m, "state '");
            push_str(&mut m, st.name.as_str());
            push_str(&mut m, "' references unknown agent '");
            push_str(&mut m, a.as_str());
            push_str(&mut m, "' (");
            push_str(&mut m, hint.as_str());
            push_str(&mut m, ")");
            let ghost before = errors@;
            errors.push(m);
            assert(texts(errors@) =~= texts(before).push(errors@.last()@));
            return;
        }
    }
    state_tail(settings, st, validate_static_modes, errors);
    assert(texts(errors@) =~= after_refs + state_tail_errors(*settings, *st, validate_static_modes));
}

/// Validate a machine's references against the merged settings, in the order
/// the original reports them. `static_mode_errors` are the effective static
/// agent-mode refusals, reported only where `validate_static_modes` asks for
/// them, as the states' effort refusals are.
pub fn validate_machine_settings_references(
    states: &Vec<MachineStateView>,
    settings: &SettingsView,
    validate_static_modes: bool,
    static_mode_errors: &Vec<String>,
) -> (errors: Vec<String>)
    ensures
        texts(errors@) == machine_reference_errors(*settings, states@, validate_static_modes, static_mode_errors@),
{
    let mut errors = validate_intrinsic_settings(&settings.agents, &settings.mcp_servers, &settings.models);
    let mcp_ids = ids_of(&settings.mcp_servers);
    validate_mcp_entries_known("defaults.mcp_servers", settings.default_mcp_servers.as_ref(), &mcp_ids, &mut errors);
    validate_skill_entries_known("defaults.skills", settings.default_skills.as_ref(), &settings.skill_ids, &mut errors);
    if validate_static_modes {
        let mut i: usize = 0;
        let ghost start = texts(errors@);
        while i < static_mode_errors.len()
            invariant
                i <= static_mode_errors.len(),
                texts(errors@) == start + texts(static_mode_errors@.take(i as int)),
            decreases static_mode_errors.len() - i,
        {
            let ghost before = errors@;
            errors.push(static_mode_errors[i].clone());
            assert(texts(errors@) =~= texts(before).push(static_mode_errors@[i as int]@));
            assert(texts(static_mode_errors@.take(i + 1)) =~= texts(static_mode_errors@.take(i as int)).push(static_mode_errors@[i as int]@));
            i = i + 1;
        }
        assert(static_mode_errors@.take(static_mode_errors.len() as int) =~= static_mode_errors@);
    }
    let ghost prefix = texts(errors@);
    let mut i: usize = 0;
    assert(states@.take(0) =~= Seq::<MachineStateView>::empty());
    while i < states.len()
        invariant
            i <= states.len(),
            mcp_ids@ == registry_ids(settings.mcp_servers@),
            texts(errors@) == prefix + states_reference_errors(*settings, states@.take(i as int), validate_static_modes),
        decreases states.len() - i,
    {
        assert(states@.take(i + 1).drop_last() =~= states@.take(i as int));
        state_check(settings, &states[i], validate_static_modes, &mcp_ids, &mut errors);
        assert(texts(errors@) =~= prefix + states_reference_errors(*settings, states@.take(i + 1), validate_static_modes));
        i = i + 1;
    }
    assert(states@.take(states.len() as int) =~= states@);
    errors
}

proof fn lemma_unknown_reference_listed(label: Seq<char>, noun: Seq<char>, refs: Seq<(Seq<char>, bool)>, registry: Seq<String>, k: int)
    requires
        0 <= k < refs.len(),
        !refs[k].1,
        forall|j: int| 0 <= j < registry.len() ==> registry[j]@ != refs[k].0,
    ensures
        unknown_reference_errors(label, noun, refs, registry).contains(label + " references unknown "@ + noun + " '"@ + refs[k].0 + "'"@),
    decreases refs.len(),
{
    let prev = unknown_reference_errors(label, noun, refs.drop_last(), registry);
    if k == refs.len() - 1 {
        assert(!crate::settings::registered(registry, refs[k].0));
        let out = unknown_reference_errors(label, noun, refs, registry);
        assert(out == prev.push(label + " references unknown "@ + noun + " '"@ + refs[k].0 + "'"@));
        assert(out[prev.len() as int] == label + " references unknown "@ + noun + " '"@ + refs[k].0 + "'"@);
    } else {
        assert(refs.drop_last()[k] == refs[k]);
        lemma_unknown_reference_listed(label, noun, refs.drop_last(), registry, k);
        let m = label + " references unknown "@ + noun + " '"@ + refs[k].0 + "'"@;
        let w = choose|w: int| 0 <= w < prev.len() && prev[w] == m;
        let out = unknown_reference_errors(label, noun, refs, registry);
        assert(out[w] == m);
    }
}

proof fn lemma_state_errors_listed(settings: SettingsView, states: Seq<MachineStateView>, v: bool, i: int, msg: Seq<char>)
    requires
        0 <= i < states.len(),
        state_reference_errors(settings, states[i], v).contains(msg),
    ensures
        states_reference_errors(settings, states, v).contains(msg),
    decreases states.len(),
{
    let prev = states_reference_errors(settings, states.drop_last(), v);
    let last = state_reference_errors(settings, states.last(), v);
    let all = states_reference_errors(settings, states, v);
    assert(all == prev + last);
    if i == states.len() - 1 {
        let w = choose|w: int| 0 <= w < last.len() && last[w] == msg;
        assert(all[prev.len() + w] == msg);
    } else {
        assert(states.drop_last()[i] == states[i]);
        lemma_state_errors_listed(settings, states.drop_last(), v, i, msg);
        let w = choose|w: int| 0 <= w < prev.len() && prev[w] == msg;
        assert(all[w] == msg);
    }
}

/// Every state's own MCP server references are checked: a non-inline entry
/// whose id the MCP server registry lacks is reported as
/// `state '<name>' mcp_servers references unknown mcp server '<id>'`,
/// whatever else the state or the settings hold.
pub proof fn every_unknown_state_mcp_server_is_reported(
    settings: SettingsView,
    states: Seq<MachineStateView>,
    validate_static_modes: bool,
    static_mode_errors: Seq<String>,
    i: int,
    k: int,
)
    requires
        0 <= i < states.len(),
        states[i].mcp_servers matches Some(es) && 0 <= k < es@.len() && !es@[k].inline,
        forall|j: int| 0 <= j < settings.mcp_servers@.len() ==> settings.mcp_servers@[j].0@ != states[i].mcp_servers->Some_0@[k].id@,
    ensures
        machine_reference_errors(settings, states, validate_static_modes, static_mode_errors).contains(
            "state '"@ + states[i].name@ + "' mcp_servers references unknown mcp server '"@
                + states[i].mcp_servers->Some_0@[k].id@ + "'"@),
{
    let st = states[i];
    let es = st.mcp_servers->Some_0@;
    let refs = mcp_refs(Some(es));
    let reg = registry_ids(settings.mcp_servers@);
    let label = "state '"@ + st.name@ + "' mcp_servers"@;
    let msg = "state '"@ + st.name@ + "' mcp_servers references unknown mcp server '"@ + es[k].id@ + "'"@;
    assert(refs[k] == (es[k].id@, es[k].inline));
    assert forall|j: int| 0 <= j < reg.len() implies reg[j]@ != refs[k].0 by {
        assert(reg[j] == settings.mcp_servers@[j].0);
    }
    lemma_unknown_reference_listed(label, "mcp server"@, refs, reg, k);
    reveal_strlit("' mcp_servers");
    reveal_strlit(" references unknown ");
    reveal_strlit("mcp server");
    reveal_strlit(" '");
    reveal_strlit("' mcp_servers references unknown mcp server '");
    assert(label + " references unknown "@ + "mcp server"@ + " '"@ + refs[k].0 + "'"@ =~= msg);
    let first = unknown_reference_errors(label, "mcp server"@, refs, reg);
    let refs_all = state_refs_errors(settings, st);
    let w = choose|w: int| 0 <= w < first.len() && first[w] == msg;
    assert(refs_all[w] == msg);
    let se = state_reference_errors(settings, st, validate_static_modes);
    assert(se[w] == msg);
    lemma_state_errors_listed(settings, states, validate_static_modes, i, msg);
    let tail = states_reference_errors(settings, states, validate_static_modes);
    let all = machine_reference_errors(settings, states, validate_static_modes, static_mode_errors);
    let w2 = choose|w2: int| 0 <= w2 < tail.len() && tail[w2] == msg;
    assert(all[all.len() - tail.len() + w2] == msg);
}

} // verus!
