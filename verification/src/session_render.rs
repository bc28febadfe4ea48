//! One readable Markdown report per agent session: the numbered tool steps
//! and the whole report, from the transcript a log parser read. Rendering
//! never invents, softens or reorders what the transcript says.
use vstd::prelude::*;
use crate::json::Json;
use crate::session_files::{files_changed_spec, files_view, lemma_note_written_file_distinct, note_written_file, note_written_file_spec, paths_distinct, render_files_changed, str_opt, FileOperation, OpView};
use crate::session_report::{fenced, fenced_spec, quote_agent_text, quote_agent_text_spec, relative_to_root, relative_to_root_spec, render_prompt, render_prompt_spec, render_report_header, report_header_spec, session_root, session_root_spec, truncate_output, truncate_output_spec};
use crate::text::{chars_of, decimal, lines, lines_vec, push_str, str_eq, usize_to_string};

verus! {

/// What a tool call returned.
#[derive(Debug)]
pub struct ToolResult {
    pub is_error: bool,
    pub text: String,
    /// The log line the result was read from.
    pub log_line: usize,
}

/// One event of an agent's stream.
#[derive(Debug)]
pub enum SessionEvent {
    Thinking(String),
    Text(String),
    /// A tool call, with the argument that identifies it: its label and
    /// its value, as the log reader named them.
    ToolCall { id: String, name: String, arguments: Json, label: String, value: String },
}

/// What a log parser read from one session log.
#[derive(Debug)]
pub struct SessionTranscript {
    pub header: Vec<(String, String)>,
    pub exit: Vec<(String, String)>,
    /// The prompt the stream echoed, if any.
    pub prompt: Option<String>,
    /// The notice for a stream rhei cannot read.
    pub unsupported_stream: Option<String>,
    /// The agent's plain output, for a body with no event stream.
    pub plain_output: Option<String>,
    pub events: Vec<SessionEvent>,
    /// Tool results by call id.
    pub results: Vec<(String, ToolResult)>,
    /// The last usage the stream reported, as displayed.
    pub usage: Option<String>,
}

// ---------------------------------------------------------------------------
// One tool step
// ---------------------------------------------------------------------------

/// The result recorded for `id`: the first entry under it.
pub open spec fn result_for(results: Seq<(String, ToolResult)>, id: Seq<char>) -> Option<ToolResult>
    decreases results.len(),
{
    if results.len() == 0 {
        None
    } else if results[0].0@ == id {
        Some(results[0].1)
    } else {
        result_for(results.drop_first(), id)
    }
}

pub open spec fn status_text(result: Option<ToolResult>) -> Seq<char> {
    match result {
        Some(r) => if r.is_error {
            "error"@
        } else {
            "ok"@
        },
        None => "no result recorded"@,
    }
}

/// The identifying argument, labelled; fenced when it spans lines or holds
/// a backtick.
pub open spec fn argument_text(label: Seq<char>, value: Seq<char>) -> Seq<char> {
    if value.len() == 0 {
        "**"@ + label + ":** (none)\n\n"@
    } else if value.contains('\n') || value.contains('`') {
        "**"@ + label + ":**\n\n"@ + fenced_spec(value) + "\n"@
    } else {
        "**"@ + label + ":** `"@ + value + "`\n\n"@
    }
}

pub open spec fn size_text(n: nat) -> Seq<char> {
    if n == 0 {
        "empty"@
    } else if n == 1 {
        "1 line"@
    } else {
        decimal(n) + " lines"@
    }
}

/// The output block of a step that has a result.
pub open spec fn output_text(step: nat, result: Option<ToolResult>, full: bool) -> Seq<char> {
    match result {
        None => seq![],
        Some(r) => "<details><summary><b>Output of step "@ + decimal(step) + "</b> · "@ + size_text(
            lines(r.text@).len(),
        ) + "</summary>\n\n"@ + fenced_spec(truncate_output_spec(r.text@, full, Some(r.log_line)))
            + "\n</details>\n\n"@,
    }
}

/// One numbered tool step: which tool and how it ended, the argument that
/// identifies it, and its output under the same step number.
pub open spec fn tool_step_spec(
    results: Seq<(String, ToolResult)>,
    root: Option<Seq<char>>,
    full: bool,
    step: nat,
    id: Seq<char>,
    name: Seq<char>,
    label: Seq<char>,
    value: Seq<char>,
) -> Seq<char> {
    let result = result_for(results, id);
    "### Step "@ + decimal(step) + " · "@ + name + " — "@ + status_text(result) + "\n\n"@
        + argument_text(label, relative_to_root_spec(value, root)) + output_text(step, result, full)
}

fn find_result<'a>(results: &'a Vec<(String, ToolResult)>, id: &str) -> (out: Option<&'a ToolResult>)
    ensures
        match out {
            Some(r) => result_for(results@, id@) == Some(*r),
            None => result_for(results@, id@) is None,
        },
{
    let mut i: usize = 0;
    assert(results@.skip(0) =~= results@);
    while i < results.len()
        invariant
            i <= results.len(),
            result_for(results@, id@) == result_for(results@.skip(i as int), id@),
        decreases results.len() - i,
    {
        assert(results@.skip(i as int)[0] == results@[i as int]);
        assert(results@.skip(i as int).drop_first() =~= results@.skip(i + 1));
        if str_eq(results[i].0.as_str(), id) {
            return Some(&results[i].1);
        }
        i += 1;
    }
    None
}

fn has_char(s: &Vec<char>, c: char) -> (r: bool)
    ensures
        r == s@.contains(c),
{
    let mut i: usize = 0;
    while i < s.len()
        invariant
            i <= s.len(),
            forall|j: int| 0 <= j < i ==> s@[j] != c,
        decreases s.len() - i,
    {
        if s[i] == c {
            assert(s@[i as int] == c);
            return true;
        }
        i += 1;
    }
    false
}

fn push_argument(out: &mut String, label: &str, shown: &str)
    ensures
        final(out)@ == old(out)@ + argument_text(label@, shown@),
{
    let cs = chars_of(shown);
    if cs.len() == 0 {
        push_str(out, "**");
        push_str(out, label);
        push_str(out, ":** (none)\n\n");
    } else if has_char(&cs, '\n') || has_char(&cs, '`') {
        push_str(out, "**");
        push_str(out, label);
        push_str(out, ":**\n\n");
        let f = fenced(shown);
        push_str(out, f.as_str());
        push_str(out, "\n");
    } else {
        push_str(out, "**");
        push_str(out, label);
        push_str(out, ":** `");
        push_str(out, shown);
        push_str(out, "`\n\n");
    }
    assert(final(out)@ =~= old(out)@ + argument_text(label@, shown@));
}

fn push_output(out: &mut String, step: usize, result: Option<&ToolResult>, full: bool)
    ensures
        final(out)@ == old(out)@ + output_text(
            step as nat,
            match result {
                Some(r) => Some(*r),
                None => None,
            },
            full,
        ),
{
    match result {
        None => {
            assert(old(out)@ + seq![] =~= old(out)@);
        },
        Some(r) => {
            let text_chars = chars_of(r.text.as_str());
            let count = lines_vec(&text_chars).len();
            push_str(out, "<details><summary><b>Output of step ");
            let n = usize_to_string(step);
            push_str(out, n.as_str());
            push_str(out, "</b> · ");
            let ghost mid = out@;
            if count == 0 {
                push_str(out, "empty");
            } else if count == 1 {
                push_str(out, "1 line");
            } else {
                let c = usize_to_string(count);
                push_str(out, c.as_str());
                push_str(out, " lines");
            }
            assert(out@ =~= mid + size_text(lines(r.text@).len()));
            push_str(out, "</summary>\n\n");
            let t = truncate_output(r.text.as_str(), full, Some(r.log_line));
            let f = fenced(t.as_str());
            push_str(out, f.as_str());
            push_str(out, "\n</details>\n\n");
            assert(final(out)@ =~= old(out)@ + output_text(step as nat, Some(*r), full));
        },
    }
}

/// Append one numbered tool step.
pub fn render_tool_step(
    out: &mut String,
    results: &Vec<(String, ToolResult)>,
    root: Option<&str>,
    full: bool,
    step: usize,
    id: &str,
    name: &str,
    label: &str,
    value: &str,
)
    ensures
        final(out)@ == old(out)@ + tool_step_spec(
            results@,
            str_opt(root),
            full,
            step as nat,
            id@,
            name@,
            label@,
            value@,
        ),
{
    let result = find_result(results, id);
    let status = match result {
        Some(r) => if r.is_error {
            "error"
        } else {
            "ok"
        },
        None => "no result recorded",
    };
    push_str(out, "### Step ");
    let n = usize_to_string(step);
    push_str(out, n.as_str());
    push_str(out, " · ");
    push_str(out, name);
    push_str(out, " — ");
    push_str(out, status);
    push_str(out, "\n\n");
    let shown = relative_to_root(value, root);
    push_argument(out, label, shown.as_str());
    push_output(out, step, result, full);
    assert(final(out)@ =~= old(out)@ + tool_step_spec(
        results@,
        str_opt(root),
        full,
        step as nat,
        id@,
        name@,
        label@,
        value@,
    ));
}

// ---------------------------------------------------------------------------
// The whole report
// ---------------------------------------------------------------------------

pub open spec fn thinking_text(text: Seq<char>, full: bool) -> Seq<char> {
    "<details><summary><i>Agent thinking</i></summary>\n\n"@ + fenced_spec(
        truncate_output_spec(text, full, None),
    ) + "\n</details>\n\n"@
}

/// After the given events: the actions text, the number of tool steps,
/// and the files the steps wrote.
pub open spec fn actions(
    events: Seq<SessionEvent>,
    results: Seq<(String, ToolResult)>,
    root: Option<Seq<char>>,
    full: bool,
) -> (Seq<char>, nat, Seq<(Seq<char>, Seq<OpView>)>)
    decreases events.len(),
{
    if events.len() == 0 {
        (seq![], 0, seq![])
    } else {
        let before = actions(events.drop_last(), results, root, full);
        match events.last() {
            SessionEvent::Thinking(x) => (before.0 + thinking_text(x@, full), before.1, before.2),
            SessionEvent::Text(x) => (before.0 + quote_agent_text_spec(x@), before.1, before.2),
            SessionEvent::ToolCall { id, name, arguments, label, value } => (
                before.0 + tool_step_spec(
                    results,
                    root,
                    full,
                    before.1 + 1,
                    id@,
                    name@,
                    label@,
                    value@,
                ),
                before.1 + 1,
                note_written_file_spec(before.2, name@, arguments, before.1 + 1),
            ),
        }
    }
}

pub open spec fn string_opt(o: Option<String>) -> Option<Seq<char>> {
    match o {
        Some(s) => Some(s@),
        None => None,
    }
}

/// The prompt a report shows: the one recorded for the spawn, else the
/// one the stream echoed.
pub open spec fn report_prompt(recorded: Option<String>, echoed: Option<String>) -> Option<Seq<char>> {
    match recorded {
        Some(p) => Some(p@),
        None => string_opt(echoed),
    }
}

pub open spec fn usage_text(usage: Option<String>) -> Seq<char> {
    match usage {
        Some(u) => "## Outcome\n\n**Last reported usage**: `"@ + u@ + "`\n"@,
        None => seq![],
    }
}

/// The report of one session: the header and metrics strip, then a named
/// unsupported stream, or the plain output verbatim, or the prompt, the
/// numbered actions, the files-changed recap and the last reported usage.
pub open spec fn session_report_spec(
    t: SessionTranscript,
    recorded_prompt: Option<String>,
    log_reference: Seq<char>,
    stem: Seq<char>,
    metrics_strip: Seq<char>,
    full: bool,
) -> Seq<char> {
    let prompt = report_prompt(recorded_prompt, t.prompt);
    let head = report_header_spec(t.header@, t.exit@, log_reference, stem) + metrics_strip;
    match t.unsupported_stream {
        Some(notice) => head + render_prompt_spec(prompt, false) + "> "@ + notice@ + "\n"@,
        None => match t.plain_output {
            Some(output) => head + render_prompt_spec(prompt, false) + "## Session output\n\n"@
                + fenced_spec(truncate_output_spec(output@, full, None)),
            None => {
                let root = session_root_spec(t.header@);
                let a = actions(t.events@, t.results@, root, full);
                head + render_prompt_spec(prompt, true) + "## Agent actions\n\n"@ + a.0
                    + files_changed_spec(a.2, root) + usage_text(t.usage)
            },
        },
    }
}

/// The number of tool calls among the events.
pub open spec fn tool_calls(events: Seq<SessionEvent>) -> nat
    decreases events.len(),
{
    if events.len() == 0 {
        0
    } else {
        tool_calls(events.drop_last()) + if events.last() is ToolCall {
            1nat
        } else {
            0nat
        }
    }
}

/// The steps of a report are numbered one by one, one per tool call, and
/// its files-changed recap names each path once, however many steps wrote it.
pub proof fn steps_count_tool_calls_and_recap_names_each_file_once(
    events: Seq<SessionEvent>,
    results: Seq<(String, ToolResult)>,
    root: Option<Seq<char>>,
    full: bool,
)
    ensures
        actions(events, results, root, full).1 == tool_calls(events),
        paths_distinct(actions(events, results, root, full).2),
    decreases events.len(),
{
    if events.len() > 0 {
        steps_count_tool_calls_and_recap_names_each_file_once(events.drop_last(), results, root, full);
        let before = actions(events.drop_last(), results, root, full);
        if let SessionEvent::ToolCall { id, name, arguments, label, value } = events.last() {
            lemma_note_written_file_distinct(before.2, name@, arguments, before.1 + 1);
        }
    }
}

fn str_of(o: &Option<String>) -> (out: Option<&str>)
    ensures
        str_opt(out) == string_opt(*o),
{
    match o {
        Some(s) => Some(s.as_str()),
        None => None,
    }
}

/// Append the actions of the events, numbering the tool steps and noting
/// the files they wrote.
fn render_actions(
    out: &mut String,
    events: Vec<SessionEvent>,
    results: &Vec<(String, ToolResult)>,
    root: Option<&str>,
    full: bool,
) -> (files: Vec<(String, Vec<FileOperation>)>)
    ensures
        final(out)@ == old(out)@ + actions(events@, results@, str_opt(root), full).0,
        files_view(files@) == actions(events@, results@, str_opt(root), full).2,
{
    let ghost all = events@;
    let total = events.len();
    let ghost r = str_opt(root);
    let mut rest = events;
    let mut files: Vec<(String, Vec<FileOperation>)> = Vec::new();
    let mut step: usize = 0;
    let mut i: usize = 0;
    assert(all.skip(0) =~= all);
    assert(files_view(files@) =~= seq![]);
    assert(old(out)@ + seq![] =~= old(out)@);
    while rest.len() > 0
        invariant
            i <= all.len(),
            all.len() == total,
            rest@ == all.skip(i as int),
            step <= i,
            step as nat == actions(all.take(i as int), results@, r, full).1,
            out@ == old(out)@ + actions(all.take(i as int), results@, r, full).0,
            files_view(files@) == actions(all.take(i as int), results@, r, full).2,
            r == str_opt(root),
        decreases rest.len(),
    {
        assert(all.take(i + 1).drop_last() =~= all.take(i as int));
        assert(all.take(i + 1).last() == all[i as int]);
        assert(rest@[0] == all[i as int]);
        let event = rest.remove(0);
        assert(rest@ =~= all.skip(i + 1));
        match event {
            SessionEvent::Thinking(text) => {
                push_str(out, "<details><summary><i>Agent thinking</i></summary>\n\n");
                let t = truncate_output(text.as_str(), full, None);
                let f = fenced(t.as_str());
                push_str(out, f.as_str());
                push_str(out, "\n</details>\n\n");
            },
            SessionEvent::Text(text) => {
                let q = quote_agent_text(text.as_str());
                push_str(out, q.as_str());
            },
            SessionEvent::ToolCall { id, name, arguments, label, value } => {
                step += 1;
                render_tool_step(
                    out,
                    results,
                    root,
                    full,
                    step,
                    id.as_str(),
                    name.as_str(),
                    label.as_str(),
                    value.as_str(),
                );
                note_written_file(&mut files, name.as_str(), arguments, step);
            },
        }
        i += 1;
        assert(out@ =~= old(out)@ + actions(all.take(i as int), results@, r, full).0);
    }
    assert(all.take(i as int) =~= all);
    files
}

/// Render one session's report from what its log parser read. `recorded_prompt`
/// is the prompt the spawn was given, when it was recorded; `log_reference`
/// names the log; `metrics_strip` is the metrics block that follows the
/// header.
pub fn render_session_report(
    transcript: SessionTranscript,
    recorded_prompt: Option<String>,
    log_reference: &str,
    stem: &str,
    metrics_strip: &str,
    full: bool,
) -> (out: String)
    ensures
        out@ == session_report_spec(
            transcript,
            recorded_prompt,
            log_reference@,
            stem@,
            metrics_strip@,
            full,
        ),
{
    let ghost t = transcript;
    let SessionTranscript {
        header,
        exit,
        prompt: echoed,
        unsupported_stream,
        plain_output,
        events,
        results,
        usage,
    } = transcript;
    let prompt: Option<&str> = match &recorded_prompt {
        Some(p) => Some(p.as_str()),
        None => str_of(&echoed),
    };
    assert(str_opt(prompt) == report_prompt(recorded_prompt, t.prompt));
    let mut out = String::new();
    render_report_header(&mut out, &header, &exit, log_reference, stem);
    push_str(&mut out, metrics_strip);
    let ghost head = out@;
    assert(head =~= report_header_spec(t.header@, t.exit@, log_reference@, stem@) + metrics_strip@);
    if let Some(notice) = &unsupported_stream {
        render_prompt(&mut out, prompt, false);
        push_str(&mut out, "> ");
        push_str(&mut out, notice.as_str());
        push_str(&mut out, "\n");
        assert(out@ =~= session_report_spec(t, recorded_prompt, log_reference@, stem@, metrics_strip@, full));
        return out;
    }
    if let Some(output) = &plain_output {
        render_prompt(&mut out, prompt, false);
        push_str(&mut out, "## Session output\n\n");
        let tr = truncate_output(output.as_str(), full, None);
        let f = fenced(tr.as_str());
        push_str(&mut out, f.as_str());
        assert(out@ =~= session_report_spec(t, recorded_prompt, log_reference@, stem@, metrics_strip@, full));
        return out;
    }
    render_prompt(&mut out, prompt, true);
    push_str(&mut out, "## Agent actions\n\n");
    let root = session_root(&header);
    assert(str_opt(root) == session_root_spec(t.header@));
    let files = render_actions(&mut out, events, &results, root, full);
    render_files_changed(&mut out, &files, root);
    if let Some(u) = &usage {
        push_str(&mut out, "## Outcome\n\n**Last reported usage**: `");
        push_str(&mut out, u.as_str());
        push_str(&mut out, "`\n");
    }
    assert(out@ =~= session_report_spec(t, recorded_prompt, log_reference@, stem@, metrics_strip@, full));
    out
}

} // verus!
