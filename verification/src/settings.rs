//! The agent, model, MCP-server and skill registries of rhei's settings,
//! and the checks that need nothing but the merged settings.
use vstd::prelude::*;
use crate::json::Json;
use crate::report::Report;
use crate::text::{push_str, str_eq};

verus! {

/// Which of rhei's two homes the project settings file came from.
#[derive(Debug, Clone, Copy, PartialEq, Eq, Structural)]
pub enum ProjectSettingsFile {
    /// `.agent-grounds/rhei/settings.json`, where rhei writes, and the answer
    /// when no project settings file was read at all.
    Current,
    /// The deprecated `.agents/rhei/settings.json`, read because the current
    /// home had none.
    Deprecated,
}

impl Default for ProjectSettingsFile {
    fn default() -> (r: Self)
        ensures
            r == ProjectSettingsFile::Current,
    {
        ProjectSettingsFile::Current
    }
}

impl ProjectSettingsFile {
    /// The path, relative to the plan root, that a message names.
    pub fn relative_path(self) -> (r: &'static str)
        ensures
            r@ == match self {
                ProjectSettingsFile::Current => ".agent-grounds/rhei/settings.json"@,
                ProjectSettingsFile::Deprecated => ".agents/rhei/settings.json"@,
            },
    {
        match self {
            ProjectSettingsFile::Current => ".agent-grounds/rhei/settings.json",
            ProjectSettingsFile::Deprecated => ".agents/rhei/settings.json",
        }
    }
}

// ---------------------------------------------------------------------------
// Registry references
// ---------------------------------------------------------------------------

/// A state's or the defaults' MCP server entry: a reference to the
/// registry by id, or an inline definition.
#[derive(Debug)]
pub struct StateMcpEntry {
    pub id: String,
    pub inline: bool,
}

/// A state's or the defaults' skill entry: a reference to the registry by
/// id, or an inline definition.
#[derive(Debug)]
pub struct StateSkillEntry {
    pub id: String,
    pub inline: bool,
}

/// Whether `id` is among the registry's ids.
pub open spec fn registered(registry: Seq<String>, id: Seq<char>) -> bool {
    exists|i: int| 0 <= i < registry.len() && #[trigger] registry[i]@ == id
}

/// The refusals for references to ids the registry lacks, in entry order.
pub open spec fn unknown_reference_errors(
    label: Seq<char>,
    noun: Seq<char>,
    refs: Seq<(Seq<char>, bool)>,
    registry: Seq<String>,
) -> Seq<Seq<char>>
    decreases refs.len(),
{
    if refs.len() == 0 {
        seq![]
    } else {
        let prev = unknown_reference_errors(label, noun, refs.drop_last(), registry);
        let (id, inline) = refs.last();
        if !inline && !registered(registry, id) {
            prev.push(label + " references unknown "@ + noun + " '"@ + id + "'"@)
        } else {
            prev
        }
    }
}

pub open spec fn mcp_refs(entries: Option<Seq<StateMcpEntry>>) -> Seq<(Seq<char>, bool)> {
    match entries {
        Some(es) => es.map_values(|e: StateMcpEntry| (e.id@, e.inline)),
        None => seq![],
    }
}

pub open spec fn skill_refs(entries: Option<Seq<StateSkillEntry>>) -> Seq<(Seq<char>, bool)> {
    match entries {
        Some(es) => es.map_values(|e: StateSkillEntry| (e.id@, e.inline)),
        None => seq![],
    }
}

fn is_registered(registry: &Vec<String>, id: &str) -> (r: bool)
    ensures
        r == registered(registry@, id@),
{
    let mut i: usize = 0;
    while i < registry.len()
        invariant
            i <= registry@.len(),
            forall|k: int| 0 <= k < i ==> (#[trigger] registry@[k])@ != id@,
        decreases registry.len() - i,
    {
        if str_eq(registry[i].as_str(), id) {
            return true;
        }
        i += 1;
    }
    false
}

fn push_unknown_reference(errors: &mut Vec<String>, label: &str, noun: &str, id: &str)
    ensures
        final(errors)@.len() == old(errors)@.len() + 1,
        forall|k: int| 0 <= k < old(errors)@.len() ==> final(errors)@[k] == old(errors)@[k],
        final(errors)@.last()@ == label@ + " references unknown "@ + noun@ + " '"@ + id@ + "'"@,
{
    let mut message = String::new();
    push_str(&mut message, label);
    push_str(&mut message, " references unknown ");
    push_str(&mut message, noun);
    push_str(&mut message, " '");
    push_str(&mut message, id);
    push_str(&mut message, "'");
    errors.push(message);
}

/// The views of a list of messages.
pub open spec fn texts(v: Seq<String>) -> Seq<Seq<char>> {
    v.map_values(|s: String| s@)
}

/// Refuse every MCP server reference the registry lacks; inline
/// definitions need no registry entry.
pub fn validate_mcp_entries_known(
    label: &str,
    entries: Option<&Vec<StateMcpEntry>>,
    registry: &Vec<String>,
    errors: &mut Vec<String>,
)
    ensures
        texts(final(errors)@) == texts(old(errors)@) + unknown_reference_errors(
            label@,
            "mcp server"@,
            mcp_refs(
                match entries {
                    Some(es) => Some(es@),
                    None => None,
                },
            ),
            registry@,
        ),
{
    let ghost refs = mcp_refs(
        match entries {
            Some(es) => Some(es@),
            None => None,
        },
    );
    let ghost start = texts(errors@);
    let Some(es) = entries else {
        assert(texts(errors@) =~= start + Seq::<Seq<char>>::empty());
        return;
    };
    let mut i: usize = 0;
    assert(refs.take(0) =~= Seq::<(Seq<char>, bool)>::empty());
    while i < es.len()
        invariant
            i <= es@.len(),
            refs == es@.map_values(|e: StateMcpEntry| (e.id@, e.inline)),
            texts(errors@) == start + unknown_reference_errors(label@, "mcp server"@, refs.take(i as int), registry@),
        decreases es.len() - i,
    {
        let ghost before = errors@;
        assert(refs.take(i + 1).drop_last() =~= refs.take(i as int));
        if !es[i].inline && !is_registered(registry, es[i].id.as_str()) {
            push_unknown_reference(errors, label, "mcp server", es[i].id.as_str());
            assert(texts(errors@) =~= texts(before).push(errors@.last()@));
        }
        i += 1;
    }
    assert(refs.take(es@.len() as int) =~= refs);
}

/// Refuse every skill reference the registry lacks; inline definitions
/// need no registry entry.
pub fn validate_skill_entries_known(
    label: &str,
    entries: Option<&Vec<StateSkillEntry>>,
    registry: &Vec<String>,
    errors: &mut Vec<String>,
)
    ensures
        texts(final(errors)@) == texts(old(errors)@) + unknown_reference_errors(
            label@,
            "skill"@,
            skill_refs(
                match entries {
                    Some(es) => Some(es@),
                    None => None,
                },
            ),
            registry@,
        ),
{
    let ghost refs = skill_refs(
        match entries {
            Some(es) => Some(es@),
            None => None,
        },
    );
    let ghost start = texts(errors@);
    let Some(es) = entries else {
        assert(texts(errors@) =~= start + Seq::<Seq<char>>::empty());
        return;
    };
    let mut i: usize = 0;
    assert(refs.take(0) =~= Seq::<(Seq<char>, bool)>::empty());
    while i < es.len()
        invariant
            i <= es@.len(),
            refs == es@.map_values(|e: StateSkillEntry| (e.id@, e.inline)),
            texts(errors@) == start + unknown_reference_errors(label@, "skill"@, refs.take(i as int), registry@),
        decreases es.len() - i,
    {
        let ghost before = errors@;
        assert(refs.take(i + 1).drop_last() =~= refs.take(i as int));
        if !es[i].inline && !is_registered(registry, es[i].id.as_str()) {
            push_unknown_reference(errors, label, "skill", es[i].id.as_str());
            assert(texts(errors@) =~= texts(before).push(errors@.last()@));
        }
        i += 1;
    }
    assert(refs.take(es@.len() as int) =~= refs);
}

// ---------------------------------------------------------------------------
// Agent transport profiles
// ---------------------------------------------------------------------------

/// How an agent maps canonical effort values onto its own arguments.
#[derive(Debug)]
pub struct AgentEffortProfile {
    /// Canonical value and the agent's spelling of it, in declared order.
    pub values: Vec<(String, String)>,
    /// The argument span; `{value}` stands for the agent's spelling.
    pub args: Vec<String>,
    /// Argument patterns the effort span may not be combined with.
    pub conflicts: Vec<Vec<String>>,
}

/// One entry of the agent registry: how to launch the agent.
#[derive(Debug)]
pub struct CustomAgentProfile {
    pub command: Vec<String>,
    pub prompt_flag: Option<String>,
    pub model_flag: Option<String>,
    pub stdin_prompt: bool,
    pub intervene_stdin: bool,
    pub timeout: Option<String>,
    pub mcp_flag: Option<String>,
    pub mcp_config_flag: Option<String>,
    pub skill_flag: Option<String>,
    /// Named argument sets, in declared order.
    pub modes: Vec<(String, Vec<String>)>,
    pub effort: Option<AgentEffortProfile>,
    /// How the agent's sessions are resumed and found.
    pub session: Option<Json>,
}

/// The optional fields in the order a sorted field set lists them, each
/// with whether the profile supplies it.
pub open spec fn supplied_fields(p: CustomAgentProfile) -> Seq<(Seq<char>, bool)> {
    seq![
        ("command"@, true),
        ("intervene_stdin"@, p.intervene_stdin),
        ("mcp_config_flag"@, p.mcp_config_flag is Some),
        ("mcp_flag"@, p.mcp_flag is Some),
        ("model_flag"@, p.model_flag is Some),
        ("modes"@, p.modes@.len() > 0),
        ("prompt_flag"@, p.prompt_flag is Some),
        ("session"@, p.session is Some),
        ("skill_flag"@, p.skill_flag is Some),
        ("stdin_prompt"@, p.stdin_prompt),
        ("timeout"@, p.timeout is Some),
    ]
}

/// The names of the supplied fields among the first `n`.
pub open spec fn supplied_names(fs: Seq<(Seq<char>, bool)>, n: nat) -> Seq<Seq<char>>
    decreases n,
{
    if n == 0 || n > fs.len() {
        seq![]
    } else if fs[n - 1].1 {
        supplied_names(fs, (n - 1) as nat).push(fs[n - 1].0)
    } else {
        supplied_names(fs, (n - 1) as nat)
    }
}

fn push_if(out: &mut Vec<String>, name: &str, supplied: bool)
    ensures
        texts(final(out)@) == if supplied {
            texts(old(out)@).push(name@)
        } else {
            texts(old(out)@)
        },
{
    if supplied {
        let ghost before = out@;
        out.push(name.to_string());
        assert(texts(out@) =~= texts(before).push(name@));
    }
}

/// The fields a programmatic built-in profile supplies: `command` always,
/// and each optional field that is set, in sorted order.
pub fn built_in_agent_fields(profile: &CustomAgentProfile) -> (out: Vec<String>)
    ensures
        texts(out@) == supplied_names(supplied_fields(*profile), 11),
{
    let ghost fs = supplied_fields(*profile);
    let mut out: Vec<String> = Vec::new();
    assert(texts(out@) =~= supplied_names(fs, 0));
    push_if(&mut out, "command", true);
    assert(texts(out@) =~= supplied_names(fs, 1));
    push_if(&mut out, "intervene_stdin", profile.intervene_stdin);
    assert(texts(out@) =~= supplied_names(fs, 2));
    push_if(&mut out, "mcp_config_flag", profile.mcp_config_flag.is_some());
    assert(texts(out@) =~= supplied_names(fs, 3));
    push_if(&mut out, "mcp_flag", profile.mcp_flag.is_some());
    assert(texts(out@) =~= supplied_names(fs, 4));
    push_if(&mut out, "model_flag", profile.model_flag.is_some());
    assert(texts(out@) =~= supplied_names(fs, 5));
    push_if(&mut out, "modes", profile.modes.len() > 0);
    assert(texts(out@) =~= supplied_names(fs, 6));
    push_if(&mut out, "prompt_flag", profile.prompt_flag.is_some());
    assert(texts(out@) =~= supplied_names(fs, 7));
    push_if(&mut out, "session", profile.session.is_some());
    assert(texts(out@) =~= supplied_names(fs, 8));
    push_if(&mut out, "skill_flag", profile.skill_flag.is_some());
    assert(texts(out@) =~= supplied_names(fs, 9));
    push_if(&mut out, "stdin_prompt", profile.stdin_prompt);
    assert(texts(out@) =~= supplied_names(fs, 10));
    push_if(&mut out, "timeout", profile.timeout.is_some());
    out
}

// ---------------------------------------------------------------------------
// Registry self-validation
// ---------------------------------------------------------------------------

/// One entry of the MCP server registry.
#[derive(Debug)]
pub struct McpServerProfile {
    pub command: Option<Vec<String>>,
    pub url: Option<String>,
    pub transport: Option<String>,
}

/// One `models.<id>.agents.<agent>` binding.
#[derive(Debug)]
pub struct ModelAgentBinding {
    pub args: Vec<String>,
    pub autonomous_args: Vec<String>,
    pub timeout: Option<String>,
}

/// A model profile's static accounting rates, as one authored object.
#[derive(Debug)]
pub struct ModelProfilePrices {
    pub currency: String,
    pub effective_at: String,
    pub input_total_micro: u64,
    pub input_cached_read_micro: u64,
    pub input_cache_write_micro: u64,
    pub output_total_micro: u64,
    /// Every other member, kept as entry metadata.
    pub extensions: Vec<(String, Json)>,
}

// ---------------------------------------------------------------------------
// Profile prices, checked on the raw document
// ---------------------------------------------------------------------------

pub open spec fn required_price_strings() -> Seq<Seq<char>> {
    seq!["currency"@, "effective_at"@]
}

pub open spec fn required_price_rates() -> Seq<Seq<char>> {
    seq!["input_total_micro"@, "input_cached_read_micro"@, "input_cache_write_micro"@, "output_total_micro"@]
}

pub open spec fn reserved_price_fields() -> Seq<Seq<char>> {
    seq!["provider"@, "model"@, "unit"@, "source"@, "model_profiles"@]
}

/// Whether a member is a string that is not blank after trimming.
pub open spec fn nonblank_text(v: Option<Json>) -> bool {
    match v {
        Some(Json::Str(s)) => crate::text::trim(s@).len() > 0,
        _ => false,
    }
}

/// Whether a member is a number that fits in a `u64` (`Value::as_u64`).
pub open spec fn u64_number(v: Option<Json>) -> bool {
    match v {
        Some(Json::Number(n)) => n.as_u64 is Some,
        _ => false,
    }
}

/// The first of `fields` failing `ok`, with the problem.
pub open spec fn first_failing(
    prices: Json,
    fields: Seq<Seq<char>>,
    kind: nat,
) -> Option<(Option<Seq<char>>, Seq<char>)>
    decreases fields.len(),
{
    if fields.len() == 0 {
        None
    } else {
        let v = crate::json::json_get(prices, fields[0]);
        let failing = if kind == 0 {
            !nonblank_text(v)
        } else if kind == 1 {
            !u64_number(v)
        } else {
            v is Some
        };
        if failing {
            Some((
                Some(fields[0]),
                if kind == 0 {
                    "must be a non-empty string"@
                } else if kind == 1 {
                    "must be a non-negative integer no greater than u64::MAX"@
                } else {
                    "is reserved for generated price-book provenance"@
                },
            ))
        } else {
            first_failing(prices, fields.drop_first(), kind)
        }
    }
}

/// The first problem of one model's `prices` member: the field (after
/// `models.<id>.prices`) and what is wrong with it.
pub open spec fn price_problem(prices: Option<Json>) -> Option<(Option<Seq<char>>, Seq<char>)> {
    match prices {
        None => None,
        Some(Json::Null) => None,
        Some(Json::Object(ms)) => {
            let p = Json::Object(ms);
            match first_failing(p, required_price_strings(), 0) {
                Some(r) => Some(r),
                None => match first_failing(p, required_price_rates(), 1) {
                    Some(r) => Some(r),
                    None => first_failing(p, reserved_price_fields(), 2),
                },
            }
        },
        Some(_) => Some((None, "must be an object or null"@)),
    }
}

/// The full path of a problem field.
pub open spec fn price_field_path(id: Seq<char>, field: Option<Seq<char>>) -> Seq<char> {
    match field {
        None => "models."@ + id + ".prices"@,
        Some(f) => "models."@ + id + ".prices"@ + "."@ + f,
    }
}

/// The refusal message for the first model, in document order, whose
/// prices are wrong.
pub open spec fn prices_error(path: Seq<char>, models: Seq<(String, Json)>) -> Option<Seq<char>>
    decreases models.len(),
{
    if models.len() == 0 {
        None
    } else {
        match price_problem(crate::json::json_get(models[0].1, "prices"@)) {
            Some((field, problem)) => Some(
                "invalid profile price in settings '"@ + path + "': "@ + price_field_path(models[0].0@, field)
                    + " "@ + problem,
            ),
            None => prices_error(path, models.drop_first()),
        }
    }
}

pub open spec fn document_prices_error(path: Seq<char>, raw: Json) -> Option<Seq<char>> {
    match crate::json::json_get(raw, "models"@) {
        Some(Json::Object(ms)) => prices_error(path, ms@),
        _ => None,
    }
}

fn check_fields(prices: &Json, fields: &[&str], kind: u8) -> (out: Option<(&'static str, usize)>)
    requires
        kind <= 2,
    ensures
        match out {
            None => first_failing(*prices, fields@.map_values(|f: &str| f@), kind as nat) is None,
            Some((problem, i)) => i < fields@.len() && first_failing(*prices, fields@.map_values(|f: &str| f@), kind as nat)
                == Some((Some(fields@[i as int]@), problem@)),
        },
{
    let ghost names = fields@.map_values(|f: &str| f@);
    let mut i: usize = 0;
    assert(names.skip(0) =~= names);
    while i < fields.len()
        invariant
            i <= fields.len(),
            kind <= 2,
            names == fields@.map_values(|f: &str| f@),
            first_failing(*prices, names, kind as nat) == first_failing(*prices, names.skip(i as int), kind as nat),
        decreases fields.len() - i,
    {
        assert(names.skip(i as int)[0] == fields@[i as int]@);
        assert(names.skip(i as int).drop_first() =~= names.skip(i + 1));
        let v = crate::json::get(prices, fields[i]);
        let failing = if kind == 0 {
            match v {
                Some(Json::Str(s)) => {
                    let cs = crate::text::chars_of(s.as_str());
                    crate::text::trim_vec(&cs).len() == 0
                },
                _ => true,
            }
        } else if kind == 1 {
            match v {
                Some(Json::Number(n)) => n.as_u64.is_none(),
                _ => true,
            }
        } else {
            v.is_some()
        };
        if failing {
            let problem = if kind == 0 {
                "must be a non-empty string"
            } else if kind == 1 {
                "must be a non-negative integer no greater than u64::MAX"
            } else {
                "is reserved for generated price-book provenance"
            };
            return Some((problem, i));
        }
        i += 1;
    }
    None
}

fn price_refusal(path: &str, id: &str, field: Option<&str>, problem: &str) -> (r: Report)
    ensures
        r.message@ == "invalid profile price in settings '"@ + path@ + "': "@ + price_field_path(
            id@,
            match field {
                Some(f) => Some(f@),
                None => None,
            },
        ) + " "@ + problem@,
        r.help matches Some(h) && h@ == "provide currency, effective_at, and all four integer micro-currency rates; omit reserved generated-entry keys"@,
{
    let mut m = String::new();
    push_str(&mut m, "invalid profile price in settings '");
    push_str(&mut m, path);
    push_str(&mut m, "': ");
    push_str(&mut m, "models.");
    push_str(&mut m, id);
    push_str(&mut m, ".prices");
    if let Some(f) = field {
        push_str(&mut m, ".");
        push_str(&mut m, f);
    }
    push_str(&mut m, " ");
    push_str(&mut m, problem);
    Report::with_help(
        m,
        "provide currency, effective_at, and all four integer micro-currency rates; omit reserved generated-entry keys".to_string(),
    )
}

/// Check every model profile's `prices` before typed decoding, so each
/// refusal names the complete settings path of the field: an object or
/// `null`; a non-blank `currency` and `effective_at`; the four integer
/// micro-currency rates; and none of the keys reserved for generated
/// price-book entries. `path` is the settings file as displayed.
pub fn validate_profile_prices_document(path: &str, raw: &Json) -> (out: Result<(), Report>)
    ensures
        match document_prices_error(path@, *raw) {
            None => out is Ok,
            Some(m) => out matches Err(e) && e.message@ == m,
        },
{
    let models = match crate::json::get(raw, "models") {
        Some(Json::Object(ms)) => ms,
        _ => {
            return Ok(());
        },
    };
    let mut i: usize = 0;
    assert(models@.skip(0) =~= models@);
    while i < models.len()
        invariant
            i <= models.len(),
            crate::json::json_get(*raw, "models"@) == Some(Json::Object(*models)),
            prices_error(path@, models@) == prices_error(path@, models@.skip(i as int)),
        decreases models.len() - i,
    {
        assert(models@.skip(i as int)[0] == models@[i as int]);
        assert(models@.skip(i as int).drop_first() =~= models@.skip(i + 1));
        let id = models[i].0.as_str();
        match crate::json::get(&models[i].1, "prices") {
            None | Some(Json::Null) => {},
            Some(prices) => {
                if let Json::Object(_) = prices {
                    let strings: [&str; 2] = ["currency", "effective_at"];
                    assert(strings@.map_values(|f: &str| f@) =~= required_price_strings());
                    if let Some((problem, k)) = check_fields(prices, &strings, 0) {
                        return Err(price_refusal(path, id, Some(strings[k]), problem));
                    }
                    let rates: [&str; 4] = [
                        "input_total_micro",
                        "input_cached_read_micro",
                        "input_cache_write_micro",
                        "output_total_micro",
                    ];
                    assert(rates@.map_values(|f: &str| f@) =~= required_price_rates());
                    if let Some((problem, k)) = check_fields(prices, &rates, 1) {
                        return Err(price_refusal(path, id, Some(rates[k]), problem));
                    }
                    let reserved: [&str; 5] = ["provider", "model", "unit", "source", "model_profiles"];
                    assert(reserved@.map_values(|f: &str| f@) =~= reserved_price_fields());
                    if let Some((problem, k)) = check_fields(prices, &reserved, 2) {
                        return Err(price_refusal(path, id, Some(reserved[k]), problem));
                    }
                } else {
                    return Err(price_refusal(path, id, None, "must be an object or null"));
                }
            },
        }
        i += 1;
    }
    Ok(())
}

/// One entry of the model registry.
#[derive(Debug)]
pub struct ModelProfile {
    pub provider: Option<String>,
    pub model: Option<String>,
    pub default_agent: Option<String>,
    /// Per-agent launch overrides, by agent id.
    pub agents: Vec<(String, ModelAgentBinding)>,
    pub prices: Option<ModelProfilePrices>,
}

/// Whether an optional text is absent or empty.
pub open spec fn missing_text(o: Option<String>) -> bool {
    match o {
        Some(s) => s@.len() == 0,
        None => true,
    }
}

/// The refusals of the agent registry, in registry order: an empty
/// `command`, and both MCP flags at once.
pub open spec fn agent_errors(agents: Seq<(String, CustomAgentProfile)>) -> Seq<Seq<char>>
    decreases agents.len(),
{
    if agents.len() == 0 {
        seq![]
    } else {
        let (id, p) = agents.last();
        let prev = agent_errors(agents.drop_last());
        let a = if p.command@.len() == 0 {
            prev.push("agent '"@ + id@ + "' has an empty 'command'; the `command` field is required"@)
        } else {
            prev
        };
        if p.mcp_flag is Some && p.mcp_config_flag is Some {
            a.push("agent '"@ + id@ + "' declares both 'mcp_flag' and 'mcp_config_flag'; they are mutually exclusive"@)
        } else {
            a
        }
    }
}

/// The refusals of the MCP server registry: exactly one of `command` and
/// `url`, and a `url` needs a `transport`.
pub open spec fn mcp_server_errors(servers: Seq<(String, McpServerProfile)>) -> Seq<Seq<char>>
    decreases servers.len(),
{
    if servers.len() == 0 {
        seq![]
    } else {
        let (id, p) = servers.last();
        let prev = mcp_server_errors(servers.drop_last());
        match (p.command is Some, p.url is Some) {
            (false, false) => prev.push("mcp_servers.'"@ + id@ + "' must declare exactly one of 'command' or 'url'"@),
            (true, true) => prev.push("mcp_servers.'"@ + id@ + "' declares both 'command' and 'url'; they are mutually exclusive"@),
            (false, true) => if missing_text(p.transport) {
                prev.push("mcp_servers.'"@ + id@ + "' uses 'url' but does not declare 'transport'; set transport to 'sse' or 'websocket'"@)
            } else {
                prev
            },
            (true, false) => prev,
        }
    }
}

/// The refusals of the model registry: `provider` and `model` are required.
pub open spec fn model_errors(models: Seq<(String, ModelProfile)>) -> Seq<Seq<char>>
    decreases models.len(),
{
    if models.len() == 0 {
        seq![]
    } else {
        let (id, p) = models.last();
        let prev = model_errors(models.drop_last());
        let a = if missing_text(p.provider) {
            prev.push("models.'"@ + id@ + "' is missing required field 'provider'"@)
        } else {
            prev
        };
        if missing_text(p.model) {
            a.push("models.'"@ + id@ + "' is missing required field 'model'"@)
        } else {
            a
        }
    }
}

fn push_message(errors: &mut Vec<String>, parts: &Vec<&str>)
    ensures
        texts(final(errors)@) == texts(old(errors)@).push(
            crate::text::join(parts@.map_values(|p: &str| p@), Seq::<char>::empty()),
        ),
{
    let ghost views = parts@.map_values(|p: &str| p@);
    let mut message = String::new();
    let mut i: usize = 0;
    assert(views.take(0) =~= Seq::<Seq<char>>::empty());
    while i < parts.len()
        invariant
            i <= parts@.len(),
            views == parts@.map_values(|p: &str| p@),
            message@ == crate::text::join(views.take(i as int), Seq::<char>::empty()),
        decreases parts.len() - i,
    {
        proof {
            crate::text::lemma_join_push(views.take(i as int), Seq::<char>::empty(), views[i as int]);
            assert(views.take(i + 1) =~= views.take(i as int).push(views[i as int]));
        }
        push_str(&mut message, parts[i]);
        i += 1;
        assert(message@ =~= crate::text::join(views.take(i as int), Seq::<char>::empty()));
    }
    assert(views.take(parts@.len() as int) =~= views);
    let ghost before = errors@;
    errors.push(message);
    assert(texts(errors@) =~= texts(before).push(message@));
}

fn push3(errors: &mut Vec<String>, a: &str, b: &str, c: &str)
    ensures
        texts(final(errors)@) == texts(old(errors)@).push(a@ + b@ + c@),
{
    let parts = vec![a, b, c];
    push_message(errors, &parts);
    proof {
        let views = parts@.map_values(|p: &str| p@);
        assert(views =~= seq![a@, b@, c@]);
        reveal_with_fuel(crate::text::join, 4);
        assert(seq![a@, b@, c@].drop_last() =~= seq![a@, b@]);
        assert(seq![a@, b@].drop_last() =~= seq![a@]);
        assert(crate::text::join(seq![a@, b@, c@], Seq::<char>::empty()) =~= a@ + b@ + c@);
    }
}

/// Check the registries on their own, with no plan: every agent has a
/// `command` and at most one MCP flag, every MCP server exactly one of
/// `command` and `url` (a `url` with its `transport`), every model a
/// `provider` and a `model`. The refusals come agents first, then MCP
/// servers, then models, each in registry order.
pub fn validate_intrinsic_settings(
    agents: &Vec<(String, CustomAgentProfile)>,
    mcp_servers: &Vec<(String, McpServerProfile)>,
    models: &Vec<(String, ModelProfile)>,
) -> (errors: Vec<String>)
    ensures
        texts(errors@) == agent_errors(agents@) + mcp_server_errors(mcp_servers@) + model_errors(
            models@,
        ),
{
    let mut errors: Vec<String> = Vec::new();
    let mut i: usize = 0;
    assert(agents@.take(0) =~= Seq::<(String, CustomAgentProfile)>::empty());
    assert(texts(errors@) =~= Seq::<Seq<char>>::empty());
    while i < agents.len()
        invariant
            i <= agents@.len(),
            texts(errors@) == agent_errors(agents@.take(i as int)),
        decreases agents.len() - i,
    {
        assert(agents@.take(i + 1).drop_last() =~= agents@.take(i as int));
        let (id, p) = (&agents[i].0, &agents[i].1);
        if p.command.len() == 0 {
            push3(&mut errors, "agent '", id.as_str(), "' has an empty 'command'; the `command` field is required");
        }
        if p.mcp_flag.is_some() && p.mcp_config_flag.is_some() {
            push3(&mut errors, "agent '", id.as_str(), "' declares both 'mcp_flag' and 'mcp_config_flag'; they are mutually exclusive");
        }
        i += 1;
    }
    assert(agents@.take(agents@.len() as int) =~= agents@);
    let ghost after_agents = texts(errors@);
    let mut j: usize = 0;
    assert(mcp_servers@.take(0) =~= Seq::<(String, McpServerProfile)>::empty());
    while j < mcp_servers.len()
        invariant
            j <= mcp_servers@.len(),
            after_agents == agent_errors(agents@),
            texts(errors@) == after_agents + mcp_server_errors(mcp_servers@.take(j as int)),
        decreases mcp_servers.len() - j,
    {
        assert(mcp_servers@.take(j + 1).drop_last() =~= mcp_servers@.take(j as int));
        let (id, p) = (&mcp_servers[j].0, &mcp_servers[j].1);
        match (p.command.is_some(), p.url.is_some()) {
            (false, false) => push3(&mut errors, "mcp_servers.'", id.as_str(), "' must declare exactly one of 'command' or 'url'"),
            (true, true) => push3(&mut errors, "mcp_servers.'", id.as_str(), "' declares both 'command' and 'url'; they are mutually exclusive"),
            (false, true) => {
                let missing = match &p.transport {
                    Some(t) => t.as_str().is_empty(),
                    None => true,
                };
                if missing {
                    push3(&mut errors, "mcp_servers.'", id.as_str(), "' uses 'url' but does not declare 'transport'; set transport to 'sse' or 'websocket'");
                }
            },
            (true, false) => {},
        }
        j += 1;
        assert(texts(errors@) =~= after_agents + mcp_server_errors(mcp_servers@.take(j as int)));
    }
    assert(mcp_servers@.take(mcp_servers@.len() as int) =~= mcp_servers@);
    let ghost after_servers = texts(errors@);
    let mut k: usize = 0;
    assert(models@.take(0) =~= Seq::<(String, ModelProfile)>::empty());
    while k < models.len()
        invariant
            k <= models@.len(),
            after_servers == agent_errors(agents@) + mcp_server_errors(mcp_servers@),
            texts(errors@) == after_servers + model_errors(models@.take(k as int)),
        decreases models.len() - k,
    {
        assert(models@.take(k + 1).drop_last() =~= models@.take(k as int));
        let (id, p) = (&models[k].0, &models[k].1);
        let no_provider = match &p.provider {
            Some(t) => t.as_str().is_empty(),
            None => true,
        };
        if no_provider {
            push3(&mut errors, "models.'", id.as_str(), "' is missing required field 'provider'");
        }
        let no_model = match &p.model {
            Some(t) => t.as_str().is_empty(),
            None => true,
        };
        if no_model {
            push3(&mut errors, "models.'", id.as_str(), "' is missing required field 'model'");
        }
        k += 1;
        assert(texts(errors@) =~= after_servers + model_errors(models@.take(k as int)));
    }
    assert(models@.take(models@.len() as int) =~= models@);
    errors
}

} // verus!
