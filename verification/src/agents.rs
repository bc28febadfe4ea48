//! The agent registry rhei ships with.
use vstd::prelude::*;
use crate::json::Json;
use crate::registry::{lemma_lex_transitive, lex_lt, sorted};
use crate::settings::{texts, AgentEffortProfile, CustomAgentProfile};

verus! {

/// The views of a list of string slices.
pub open spec fn str_views(items: Seq<&str>) -> Seq<Seq<char>> {
    items.map_values(|s: &str| s@)
}

/// Owned copies of `items`, in order.
fn text_list(items: &[&str]) -> (out: Vec<String>)
    ensures
        texts(out@) == str_views(items@),
{
    let mut out: Vec<String> = Vec::new();
    let mut i: usize = 0;
    while i < items.len()
        invariant
            i <= items.len(),
            texts(out@) == str_views(items@.take(i as int)),
        decreases items.len() - i,
    {
        let ghost before = out@;
        out.push(items[i].to_string());
        assert(texts(out@) =~= texts(before).push(items@[i as int]@));
        assert(items@.take(i + 1) =~= items@.take(i as int).push(items@[i as int]));
        assert(str_views(items@.take(i + 1)) =~= str_views(items@.take(i as int)).push(items@[i as int]@));
        i += 1;
    }
    assert(items@.take(items.len() as int) =~= items@);
    out
}

/// An effort mapping, by views.
#[verifier::ext_equal]
pub struct EffortView {
    pub values: Seq<(Seq<char>, Seq<char>)>,
    pub args: Seq<Seq<char>>,
    pub conflicts: Seq<Seq<Seq<char>>>,
}

/// A registry entry, by views; of the session block only its top-level
/// member names.
#[verifier::ext_equal]
pub struct AgentView {
    pub command: Seq<Seq<char>>,
    pub prompt_flag: Option<Seq<char>>,
    pub model_flag: Option<Seq<char>>,
    pub stdin_prompt: bool,
    pub intervene_stdin: bool,
    pub timeout: Option<Seq<char>>,
    pub mcp_flag: Option<Seq<char>>,
    pub mcp_config_flag: Option<Seq<char>>,
    pub skill_flag: Option<Seq<char>>,
    pub modes: Seq<(Seq<char>, Seq<Seq<char>>)>,
    pub effort: Option<EffortView>,
    pub session_keys: Option<Seq<Seq<char>>>,
}

pub open spec fn opt_view(o: Option<String>) -> Option<Seq<char>> {
    match o {
        Some(s) => Some(s@),
        None => None,
    }
}

pub open spec fn effort_view(e: Option<AgentEffortProfile>) -> Option<EffortView> {
    match e {
        Some(e) => Some(EffortView { values: e.values@.map_values(|p: (String, String)| (p.0@, p.1@)), args: texts(e.args@), conflicts: e.conflicts@.map_values(|c: Vec<String>| texts(c@)) }),
        None => None,
    }
}

pub open spec fn modes_view(m: Seq<(String, Vec<String>)>) -> Seq<(Seq<char>, Seq<Seq<char>>)> {
    m.map_values(|e: (String, Vec<String>)| (e.0@, texts(e.1@)))
}

/// The names of an object's members, in order.
pub open spec fn member_names(ms: Seq<(String, Json)>) -> Seq<Seq<char>> {
    ms.map_values(|m: (String, Json)| m.0@)
}

pub open spec fn session_keys(s: Option<Json>) -> Option<Seq<Seq<char>>> {
    match s {
        Some(Json::Object(ms)) => Some(member_names(ms@)),
        _ => None,
    }
}

pub open spec fn agent_view(p: CustomAgentProfile) -> AgentView {
    AgentView {
        command: texts(p.command@),
        prompt_flag: opt_view(p.prompt_flag),
        model_flag: opt_view(p.model_flag),
        stdin_prompt: p.stdin_prompt,
        intervene_stdin: p.intervene_stdin,
        timeout: opt_view(p.timeout),
        mcp_flag: opt_view(p.mcp_flag),
        mcp_config_flag: opt_view(p.mcp_config_flag),
        skill_flag: opt_view(p.skill_flag),
        modes: modes_view(p.modes@),
        effort: effort_view(p.effort),
        session_keys: session_keys(p.session),
    }
}

/// Each canonical effort value spelled as itself.
pub open spec fn identity_values(vs: Seq<Seq<char>>) -> Seq<(Seq<char>, Seq<char>)> {
    vs.map_values(|v: Seq<char>| (v, v))
}

pub open spec fn native_effort(values: Seq<Seq<char>>, args: Seq<Seq<char>>) -> Option<EffortView> {
    Some(EffortView { values: identity_values(values), args, conflicts: seq![] })
}

pub open spec fn yolo_only(args: Seq<Seq<char>>) -> Seq<(Seq<char>, Seq<Seq<char>>)> {
    seq![("yolo"@, args)]
}

/// A profile with only a command, a prompt and model flag, and the prompt
/// channel set; the rest is filled in by each entry.
pub open spec fn base_view(
    command: Seq<Seq<char>>,
    prompt_flag: Option<Seq<char>>,
    stdin_prompt: bool,
) -> AgentView {
    AgentView {
        command,
        prompt_flag,
        model_flag: Some("--model"@),
        stdin_prompt,
        intervene_stdin: false,
        timeout: None,
        mcp_flag: None,
        mcp_config_flag: None,
        skill_flag: None,
        modes: seq![],
        effort: None,
        session_keys: None,
    }
}

/// The session block the built-in entry under `id` carries: codex's and pi's
/// member by member, none for the others.
pub open spec fn built_in_session(id: Seq<char>, s: Option<Json>) -> bool {
    if id == "codex"@ {
        s matches Some(j) && codex_session_shape(j)
    } else if id == "pi"@ {
        s matches Some(j) && pi_session_shape(j)
    } else {
        s is None
    }
}

/// The built-in registry, sorted by id.
pub open spec fn built_in_roster() -> Seq<(Seq<char>, AgentView)> {
    seq![
        ("codex"@, AgentView {
            mcp_flag: Some("--mcp"@),
            modes: yolo_only(seq![
                "--sandbox"@,
                "danger-full-access"@,
                "--skip-git-repo-check"@,
                "-c"@,
                "approval_policy=\"never\""@,
            ]),
            effort: native_effort(
                seq!["minimal"@, "low"@, "medium"@, "high"@, "xhigh"@],
                seq!["-c"@, "model_reasoning_effort=\"{value}\""@],
            ),
            session_keys: Some(seq!["interactive"@, "layout"@, "no_session_flag"@, "resume"@]),
            ..base_view(seq!["codex"@, "exec"@], None, true)
        }),
        ("cursor"@, AgentView {
            modes: yolo_only(seq!["--force"@]),
            ..base_view(seq!["cursor-agent"@], Some("--print"@), false)
        }),
        ("gemini"@, AgentView {
            modes: yolo_only(seq!["--approval-mode"@, "yolo"@]),
            ..base_view(seq!["gemini"@], Some("--prompt"@), false)
        }),
        ("kilocode"@, AgentView {
            modes: yolo_only(seq!["--yolo"@]),
            effort: native_effort(
                seq!["minimal"@, "low"@, "high"@, "max"@],
                seq!["--variant"@, "{value}"@],
            ),
            ..base_view(seq!["kilo"@], Some("--auto"@), false)
        }),
        ("pi"@, AgentView {
            skill_flag: Some("--skill"@),
            effort: native_effort(
                seq!["off"@, "minimal"@, "low"@, "medium"@, "high"@, "xhigh"@],
                seq!["--thinking"@, "{value}"@],
            ),
            session_keys: Some(seq![
                "fork"@,
                "interactive"@,
                "layout"@,
                "no_session_flag"@,
                "resume"@,
                "session_dir_flag"@,
            ]),
            ..base_view(seq!["pi"@], Some("-p"@), false)
        }),
    ]
}

fn some_text(s: &str) -> (o: Option<String>)
    ensures
        opt_view(o) == Some(s@),
{
    Some(s.to_string())
}

/// An effort mapping whose native spelling of each value is the value.
fn native(values: &[&str], args: &[&str]) -> (e: Option<AgentEffortProfile>)
    ensures
        effort_view(e) == native_effort(str_views(values@), str_views(args@)),
{
    let mut pairs: Vec<(String, String)> = Vec::new();
    let mut i: usize = 0;
    while i < values.len()
        invariant
            i <= values.len(),
            pairs@.map_values(|p: (String, String)| (p.0@, p.1@))
                == identity_values(str_views(values@.take(i as int))),
        decreases values.len() - i,
    {
        let ghost before = pairs@;
        pairs.push((values[i].to_string(), values[i].to_string()));
        assert(pairs@.map_values(|p: (String, String)| (p.0@, p.1@)) =~= before.map_values(
            |p: (String, String)| (p.0@, p.1@),
        ).push((values@[i as int]@, values@[i as int]@)));
        assert(values@.take(i + 1) =~= values@.take(i as int).push(values@[i as int]));
        assert(identity_values(str_views(values@.take(i + 1))) =~= identity_values(
            str_views(values@.take(i as int)),
        ).push((values@[i as int]@, values@[i as int]@)));
        i += 1;
    }
    assert(values@.take(values.len() as int) =~= values@);
    let e = AgentEffortProfile { values: pairs, args: text_list(args), conflicts: Vec::new() };
    assert(e.conflicts@.map_values(|c: Vec<String>| texts(c@)) =~= seq![]);
    assert(effort_view(Some(e)).unwrap() =~= native_effort(str_views(values@), str_views(args@)).unwrap());
    Some(e)
}

/// A mode table with the single `yolo` mode.
fn yolo(args: &[&str]) -> (m: Vec<(String, Vec<String>)>)
    ensures
        modes_view(m@) == yolo_only(str_views(args@)),
{
    let mut m: Vec<(String, Vec<String>)> = Vec::new();
    m.push(("yolo".to_string(), text_list(args)));
    assert(modes_view(m@) =~= yolo_only(str_views(args@)));
    m
}

/// Whether `j` is the string `t`.
pub open spec fn is_text(j: Json, t: Seq<char>) -> bool {
    match j {
        Json::Str(s) => s@ == t,
        _ => false,
    }
}

/// Whether `j` is the array of the strings `ts`.
pub open spec fn is_texts(j: Json, ts: Seq<Seq<char>>) -> bool {
    match j {
        Json::Array(v) => v@.len() == ts.len() && forall|i: int| 0 <= i < ts.len() ==> is_text(#[trigger] v@[i], ts[i]),
        _ => false,
    }
}

/// Whether `j` is an object whose members are named `ks`, in order.
pub open spec fn keys_are(j: Json, ks: Seq<Seq<char>>) -> bool {
    match j {
        Json::Object(ms) => member_names(ms@) == ks,
        _ => false,
    }
}

/// The value of an object's `i`-th member.
pub open spec fn value_at(j: Json, i: int) -> Json {
    match j {
        Json::Object(ms) => ms@[i].1,
        _ => Json::Null,
    }
}

/// codex's session block, member by member.
pub open spec fn codex_session_shape(j: Json) -> bool {
    let interactive = value_at(j, 0);
    let layout = value_at(j, 1);
    let resume = value_at(j, 3);
    &&& keys_are(j, seq!["interactive"@, "layout"@, "no_session_flag"@, "resume"@])
    &&& keys_are(interactive, seq!["command"@])
    &&& is_texts(value_at(interactive, 0), seq!["codex"@])
    &&& keys_are(layout, seq!["confirm_cwd_path"@, "dir_template"@, "ext"@, "id_from_stem"@, "kind"@, "nested"@])
    &&& is_texts(value_at(layout, 0), seq!["payload"@, "cwd"@])
    &&& is_text(value_at(layout, 1), "~/.codex/sessions"@)
    &&& is_text(value_at(layout, 2), "jsonl"@)
    &&& is_text(value_at(layout, 3), "trailing_uuid"@)
    &&& is_text(value_at(layout, 4), "FlatById"@)
    &&& value_at(layout, 5) == Json::Bool(true)
    &&& is_text(value_at(j, 2), "--ephemeral"@)
    &&& keys_are(resume, seq!["flag"@])
    &&& is_text(value_at(resume, 0), "resume"@)
}

/// pi's session block, member by member.
pub open spec fn pi_session_shape(j: Json) -> bool {
    let fork = value_at(j, 0);
    let layout = value_at(j, 2);
    let resume = value_at(j, 4);
    &&& keys_are(j, seq!["fork"@, "interactive"@, "layout"@, "no_session_flag"@, "resume"@, "session_dir_flag"@])
    &&& keys_are(fork, seq!["flag"@])
    &&& is_text(value_at(fork, 0), "--fork"@)
    &&& keys_are(value_at(j, 1), seq![])
    &&& keys_are(layout, seq!["ext"@, "kind"@])
    &&& is_text(value_at(layout, 0), "jsonl"@)
    &&& is_text(value_at(layout, 1), "FlatById"@)
    &&& is_text(value_at(j, 3), "--no-session"@)
    &&& keys_are(resume, seq!["flag"@])
    &&& is_text(value_at(resume, 0), "--continue"@)
    &&& is_text(value_at(j, 5), "--session-dir"@)
}

fn text(s: &str) -> (j: Json)
    ensures
        is_text(j, s@),
{
    Json::Str(s.to_string())
}

/// Appends the member `key: value`.
fn put(ms: &mut Vec<(String, Json)>, key: &str, value: Json)
    ensures
        member_names(final(ms)@) == member_names(old(ms)@).push(key@),
        final(ms)@.len() == old(ms)@.len() + 1,
        final(ms)@.drop_last() == old(ms)@,
        final(ms)@.last().1 == value,
{
    ms.push((key.to_string(), value));
    assert(member_names(final(ms)@) =~= member_names(old(ms)@).push(key@));
    assert(final(ms)@.drop_last() =~= old(ms)@);
}

fn object_of(key: &str, value: Json) -> (j: Json)
    ensures
        keys_are(j, seq![key@]),
        value_at(j, 0) == value,
{
    let mut ms: Vec<(String, Json)> = Vec::new();
    assert(member_names(ms@) =~= seq![]);
    put(&mut ms, key, value);
    Json::Object(ms)
}

fn text_array(items: &[&str]) -> (j: Json)
    ensures
        is_texts(j, str_views(items@)),
{
    let mut vs: Vec<Json> = Vec::new();
    let mut i: usize = 0;
    while i < items.len()
        invariant
            i <= items.len(),
            vs@.len() == i,
            forall|k: int| 0 <= k < i ==> is_text(#[trigger] vs@[k], items@[k]@),
        decreases items.len() - i,
    {
        vs.push(text(items[i]));
        i += 1;
    }
    Json::Array(vs)
}

/// codex's session block: `resume` as an `exec` subcommand, interactive
/// continuation through the top-level `codex`, rollouts found by id.
fn codex_session() -> (j: Json)
    ensures
        session_keys(Some(j)) == Some(seq!["interactive"@, "layout"@, "no_session_flag"@, "resume"@]),
        codex_session_shape(j),
{
    let mut layout: Vec<(String, Json)> = Vec::new();
    assert(member_names(layout@) =~= seq![]);
    let ghost l0 = layout@;
    put(&mut layout, "confirm_cwd_path", text_array(&["payload", "cwd"]));
    let ghost l1 = layout@;
    put(&mut layout, "dir_template", text("~/.codex/sessions"));
    let ghost l2 = layout@;
    put(&mut layout, "ext", text("jsonl"));
    let ghost l3 = layout@;
    put(&mut layout, "id_from_stem", text("trailing_uuid"));
    let ghost l4 = layout@;
    put(&mut layout, "kind", text("FlatById"));
    let ghost l5 = layout@;
    put(&mut layout, "nested", Json::Bool(true));
    let ghost l6 = layout@;
    proof {
        assert(l6[0] == l5[0] && l5[0] == l4[0] && l4[0] == l3[0] && l3[0] == l2[0] && l2[0] == l1[0]);
        assert(l6[1] == l5[1] && l5[1] == l4[1] && l4[1] == l3[1] && l3[1] == l2[1]);
        assert(l6[2] == l5[2] && l5[2] == l4[2] && l4[2] == l3[2]);
        assert(l6[3] == l5[3] && l5[3] == l4[3]);
        assert(l6[4] == l5[4]);
        assert(str_views(["payload", "cwd"]@) =~= seq!["payload"@, "cwd"@]);
    }
    assert(member_names(layout@) =~= seq!["confirm_cwd_path"@, "dir_template"@, "ext"@, "id_from_stem"@, "kind"@, "nested"@]);
    let interactive_command = text_array(&["codex"]);
    proof {
        assert(str_views(["codex"]@) =~= seq!["codex"@]);
    }
    let mut ms: Vec<(String, Json)> = Vec::new();
    assert(member_names(ms@) =~= seq![]);
    put(&mut ms, "interactive", object_of("command", interactive_command));
    let ghost m1 = ms@;
    put(&mut ms, "layout", Json::Object(layout));
    let ghost m2 = ms@;
    put(&mut ms, "no_session_flag", text("--ephemeral"));
    let ghost m3 = ms@;
    put(&mut ms, "resume", object_of("flag", text("resume")));
    let ghost m4 = ms@;
    proof {
        assert(m4[0] == m3[0] && m3[0] == m2[0] && m2[0] == m1[0]);
        assert(m4[1] == m3[1] && m3[1] == m2[1]);
        assert(m4[2] == m3[2]);
    }
    assert(member_names(ms@) =~= seq!["interactive"@, "layout"@, "no_session_flag"@, "resume"@]);
    Json::Object(ms)
}

/// pi's session block: `--continue` and `--fork`, an explicit session
/// directory, flat rollouts by id.
fn pi_session() -> (j: Json)
    ensures
        session_keys(Some(j)) == Some(
            seq![
                "fork"@,
                "interactive"@,
                "layout"@,
                "no_session_flag"@,
                "resume"@,
                "session_dir_flag"@,
            ],
        ),
        pi_session_shape(j),
{
    let mut layout: Vec<(String, Json)> = Vec::new();
    assert(member_names(layout@) =~= seq![]);
    put(&mut layout, "ext", text("jsonl"));
    let ghost l1 = layout@;
    put(&mut layout, "kind", text("FlatById"));
    let ghost l2 = layout@;
    assert(l2[0] == l1[0]);
    assert(member_names(layout@) =~= seq!["ext"@, "kind"@]);
    let mut ms: Vec<(String, Json)> = Vec::new();
    assert(member_names(ms@) =~= seq![]);
    put(&mut ms, "fork", object_of("flag", text("--fork")));
    let ghost m1 = ms@;
    let empty: Vec<(String, Json)> = Vec::new();
    assert(member_names(empty@) =~= seq![]);
    put(&mut ms, "interactive", Json::Object(empty));
    let ghost m2 = ms@;
    put(&mut ms, "layout", Json::Object(layout));
    let ghost m3 = ms@;
    put(&mut ms, "no_session_flag", text("--no-session"));
    let ghost m4 = ms@;
    put(&mut ms, "resume", object_of("flag", text("--continue")));
    let ghost m5 = ms@;
    put(&mut ms, "session_dir_flag", text("--session-dir"));
    let ghost m6 = ms@;
    proof {
        assert(m6[0] == m5[0] && m5[0] == m4[0] && m4[0] == m3[0] && m3[0] == m2[0] && m2[0] == m1[0]);
        assert(m6[1] == m5[1] && m5[1] == m4[1] && m4[1] == m3[1] && m3[1] == m2[1]);
        assert(m6[2] == m5[2] && m5[2] == m4[2] && m4[2] == m3[2]);
        assert(m6[3] == m5[3] && m5[3] == m4[3]);
        assert(m6[4] == m5[4]);
    }
    assert(member_names(ms@) =~= seq![
        "fork"@,
        "interactive"@,
        "layout"@,
        "no_session_flag"@,
        "resume"@,
        "session_dir_flag"@,
    ]);
    Json::Object(ms)
}

/// A profile with the given command, prompt flag and prompt channel,
/// `--model` as its model flag, and nothing else.
fn base(command: &[&str], prompt_flag: Option<String>, stdin_prompt: bool) -> (p: CustomAgentProfile)
    ensures
        agent_view(p) == base_view(str_views(command@), opt_view(prompt_flag), stdin_prompt),
        p.session is None,
{
    let p = CustomAgentProfile {
        command: text_list(command),
        prompt_flag,
        model_flag: some_text("--model"),
        stdin_prompt,
        intervene_stdin: false,
        timeout: None,
        mcp_flag: None,
        mcp_config_flag: None,
        skill_flag: None,
        modes: Vec::new(),
        effort: None,
        session: None,
    };
    assert(modes_view(p.modes@) =~= seq![]);
    assert(agent_view(p) =~= base_view(str_views(command@), opt_view(prompt_flag), stdin_prompt));
    p
}

fn codex() -> (p: CustomAgentProfile)
    ensures
        agent_view(p) == built_in_roster()[0].1,
        match p.session {
            Some(s) => codex_session_shape(s),
            None => false,
        },
{
    // `codex exec` is the non-interactive entry point.
    let mut p = base(&["codex", "exec"], None, true);
    p.mcp_flag = some_text("--mcp");
    p.modes = yolo(
        &[
            "--sandbox",
            "danger-full-access",
            "--skip-git-repo-check",
            "-c",
            "approval_policy=\"never\"",
        ],
    );
    p.effort = native(
        &["minimal", "low", "medium", "high", "xhigh"],
        &["-c", "model_reasoning_effort=\"{value}\""],
    );
    p.session = Some(codex_session());
    assert(agent_view(p) =~~= built_in_roster()[0].1);
    p
}

fn cursor() -> (p: CustomAgentProfile)
    ensures
        agent_view(p) == built_in_roster()[1].1,
        p.session is None,
{
    // The headless binary is `cursor-agent`; `--force` auto-approves.
    let mut p = base(&["cursor-agent"], some_text("--print"), false);
    p.modes = yolo(&["--force"]);
    assert(agent_view(p) =~~= built_in_roster()[1].1);
    p
}

fn gemini() -> (p: CustomAgentProfile)
    ensures
        agent_view(p) == built_in_roster()[2].1,
        p.session is None,
{
    let mut p = base(&["gemini"], some_text("--prompt"), false);
    p.modes = yolo(&["--approval-mode", "yolo"]);
    assert(agent_view(p) =~~= built_in_roster()[2].1);
    p
}

fn kilocode() -> (p: CustomAgentProfile)
    ensures
        agent_view(p) == built_in_roster()[3].1,
        p.session is None,
{
    // `--auto` takes the prompt as its argument.
    let mut p = base(&["kilo"], some_text("--auto"), false);
    p.modes = yolo(&["--yolo"]);
    p.effort = native(&["minimal", "low", "high", "max"], &["--variant", "{value}"]);
    assert(agent_view(p) =~~= built_in_roster()[3].1);
    p
}

fn pi() -> (p: CustomAgentProfile)
    ensures
        agent_view(p) == built_in_roster()[4].1,
        match p.session {
            Some(s) => pi_session_shape(s),
            None => false,
        },
{
    // pi has no permission layer, so it has no modes.
    let mut p = base(&["pi"], some_text("-p"), false);
    p.skill_flag = some_text("--skill");
    p.effort = native(
        &["off", "minimal", "low", "medium", "high", "xhigh"],
        &["--thinking", "{value}"],
    );
    p.session = Some(pi_session());
    assert(agent_view(p) =~~= built_in_roster()[4].1);
    p
}

/// The agents rhei supports out of the box, sorted by id. A user entry
/// with the same id replaces the built-in one wholesale.
pub fn built_in_agents() -> (out: Vec<(String, CustomAgentProfile)>)
    ensures
        sorted(out@),
        out@.len() == built_in_roster().len(),
        forall|i: int|
            0 <= i < out@.len() ==> (#[trigger] out@[i]).0@ == built_in_roster()[i].0
                && agent_view(out@[i].1) == built_in_roster()[i].1,
        match out@[0].1.session {
            Some(s) => codex_session_shape(s),
            None => false,
        },
        match out@[4].1.session {
            Some(s) => pi_session_shape(s),
            None => false,
        },
        forall|i: int| 0 <= i < out@.len() ==> built_in_session(#[trigger] out@[i].0@, out@[i].1.session),
{
    let mut out: Vec<(String, CustomAgentProfile)> = Vec::new();
    out.push(("codex".to_string(), codex()));
    out.push(("cursor".to_string(), cursor()));
    out.push(("gemini".to_string(), gemini()));
    out.push(("kilocode".to_string(), kilocode()));
    out.push(("pi".to_string(), pi()));
    proof {
        reveal_strlit("codex");
        reveal_strlit("cursor");
        reveal_strlit("gemini");
        reveal_strlit("kilocode");
        reveal_strlit("pi");
        let r = out@;
        assert(r[0].0@ == "codex"@ && r[1].0@ == "cursor"@ && r[2].0@ == "gemini"@ && r[3].0@ == "kilocode"@ && r[4].0@ == "pi"@);
        assert forall|i: int| 0 <= i < r.len() implies built_in_session(#[trigger] r[i].0@, r[i].1.session) by {
            assert("codex"@.len() == 5 && "cursor"@.len() == 6 && "gemini"@.len() == 6 && "kilocode"@.len() == 8 && "pi"@.len() == 2);
            assert("cursor"@[1] != "codex"@[1]);
        }
        assert(lex_lt(r[0].0@, r[1].0@)) by {
            reveal_with_fuel(lex_lt, 2);
            assert(r[0].0@[0] == r[1].0@[0]);
            assert(r[0].0@.drop_first()[0] == 'o' && r[1].0@.drop_first()[0] == 'u');
        }
        assert(lex_lt(r[1].0@, r[2].0@));
        assert(lex_lt(r[2].0@, r[3].0@));
        assert(lex_lt(r[3].0@, r[4].0@));
        assert forall|i: int, j: int| 0 <= i < j < r.len() implies lex_lt(#[trigger] r[i].0@, #[trigger] r[j].0@) by {
            if j - i >= 2 {
                lemma_lex_transitive(r[i].0@, r[i + 1].0@, r[i + 2].0@);
            }
            if j - i >= 3 {
                lemma_lex_transitive(r[i].0@, r[i + 2].0@, r[i + 3].0@);
            }
            if j - i >= 4 {
                lemma_lex_transitive(r[i].0@, r[i + 3].0@, r[i + 4].0@);
            }
        }
    }
    out
}

} // verus!
