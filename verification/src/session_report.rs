//! Pure formatting of one agent session report: fences, the truncation of
//! long tool output, the agent's quoted words, the prompt section, the
//! header block and the files-changed recap. Nothing here reads a log or
//! writes a file.
use vstd::prelude::*;
use vstd::utf8::{encode_scalar, encode_utf8};
use crate::text::{chars_of, lines, lines_vec, push_chars, push_str, slice_vec, starts_with, str_eq, string_of, trim_end, trim_end_char, trim_end_vec, usize_to_string, decimal};

verus! {

/// Default per-tool-output truncation, in bytes.
pub const SESSION_REPORT_OUTPUT_LIMIT: usize = 10240;

// ---------------------------------------------------------------------------
// Fences
// ---------------------------------------------------------------------------

/// A four-backtick fence around `text` without its trailing newlines.
pub open spec fn fenced_spec(text: Seq<char>) -> Seq<char> {
    "````\n"@ + trim_end_char(text, '\n') + "\n````\n"@
}

/// Fence `text` so that backticks inside it never close the block.
pub fn fenced(text: &str) -> (out: String)
    ensures
        out@ == fenced_spec(text@),
{
    let cs = chars_of(text);
    let mut n = cs.len();
    assert(cs@.take(n as int) =~= cs@);
    while n > 0 && cs[n - 1] == '\n'
        invariant
            n <= cs@.len(),
            trim_end_char(cs@, '\n') == trim_end_char(cs@.take(n as int), '\n'),
        decreases n,
    {
        assert(cs@.take(n as int).drop_last() =~= cs@.take(n - 1));
        n -= 1;
    }
    let body = slice_vec(&cs, 0, n);
    assert(body@ =~= cs@.take(n as int));
    let mut out = String::new();
    push_str(&mut out, "````\n");
    push_chars(&mut out, &body);
    push_str(&mut out, "\n````\n");
    out
}

// ---------------------------------------------------------------------------
// Truncation
// ---------------------------------------------------------------------------

/// Bytes that `c` takes in UTF-8.
pub open spec fn utf8_width(c: char) -> nat {
    encode_scalar(c as u32).len()
}

/// Bytes that `s` takes in UTF-8 (`str::len`).
pub open spec fn utf8_len(s: Seq<char>) -> nat {
    encode_utf8(s).len()
}

/// The number of leading characters whose encoding fits in `budget` bytes:
/// the longest prefix that ends on a character boundary.
pub open spec fn fit_prefix(s: Seq<char>, budget: nat) -> nat
    decreases s.len(),
{
    if s.len() == 0 || utf8_width(s[0]) > budget {
        0
    } else {
        1 + fit_prefix(s.drop_first(), (budget - utf8_width(s[0])) as nat)
    }
}

/// Where the full text can be found, as the truncation notice says it.
pub open spec fn truncation_source(log_line: Option<usize>) -> Seq<char> {
    match log_line {
        Some(line) => " — full output in the log at line "@ + decimal(line as nat),
        None => " — full text in the log"@,
    }
}

/// Tool output as the report shows it: whole when `full` or when it fits
/// the limit, otherwise its longest prefix of at most the limit's bytes
/// followed by a notice naming the bytes left out.
pub open spec fn truncate_output_spec(text: Seq<char>, full: bool, log_line: Option<usize>) -> Seq<
    char,
> {
    if full || utf8_len(text) <= SESSION_REPORT_OUTPUT_LIMIT {
        text
    } else {
        let cut = fit_prefix(text, SESSION_REPORT_OUTPUT_LIMIT as nat);
        text.take(cut as int) + "\n… ["@ + decimal(
            (utf8_len(text) - utf8_len(text.take(cut as int))) as nat,
        ) + " bytes truncated"@ + truncation_source(log_line) + "]"@
    }
}

/// UTF-8 width of one character.
pub fn char_width(c: char) -> (w: usize)
    ensures
        w == utf8_width(c),
{
    let v = c as u32;
    assert(v <= 0xD7FF || (0xE000 <= v && v <= 0x10FFFF));
    if v < 0x80 {
        1
    } else if v < 0x800 {
        2
    } else if v < 0x10000 {
        3
    } else {
        4
    }
}

proof fn lemma_utf8_len_take(s: Seq<char>, k: int)
    requires
        0 <= k < s.len(),
    ensures
        utf8_len(s.take(k + 1)) == utf8_len(s.take(k)) + utf8_width(s[k]),
    decreases k,
{
    if k == 0 {
        assert(s.take(1).drop_first() =~= Seq::<char>::empty());
        assert(s.take(0) =~= Seq::<char>::empty());
        assert(s.take(1)[0] == s[0]);
    } else {
        assert(s.take(k + 1)[0] == s[0]);
        assert(s.take(k)[0] == s[0]);
        lemma_utf8_len_take(s.drop_first(), k - 1);
        assert(s.take(k + 1).drop_first() =~= s.drop_first().take(k));
        assert(s.take(k).drop_first() =~= s.drop_first().take(k - 1));
    }
}

proof fn lemma_fit_prefix_step(s: Seq<char>, k: int, budget: nat)
    requires
        0 <= k <= s.len(),
        utf8_len(s.take(k)) <= budget,
    ensures
        fit_prefix(s, budget) == k + fit_prefix(s.skip(k), (budget - utf8_len(s.take(k))) as nat),
    decreases k,
{
    if k == 0 {
        assert(s.skip(0) =~= s);
        assert(s.take(0) =~= Seq::<char>::empty());
    } else {
        lemma_utf8_len_take(s, k - 1);
        lemma_fit_prefix_step(s, k - 1, budget);
        let t = s.skip(k - 1);
        let b1 = (budget - utf8_len(s.take(k - 1))) as nat;
        assert(t[0] == s[k - 1]);
        assert(t.drop_first() =~= s.skip(k));
    }
}

/// `utf8_len` splits at any index.
proof fn lemma_utf8_len_split(s: Seq<char>, k: int)
    requires
        0 <= k <= s.len(),
    ensures
        utf8_len(s) == utf8_len(s.take(k)) + utf8_len(s.skip(k)),
    decreases k,
{
    if k == 0 {
        assert(s.take(0) =~= Seq::<char>::empty());
        assert(s.skip(0) =~= s);
    } else {
        assert(s.take(k)[0] == s[0]);
        lemma_utf8_len_split(s.drop_first(), k - 1);
        assert(s.take(k).drop_first() =~= s.drop_first().take(k - 1));
        assert(s.drop_first().skip(k - 1) =~= s.skip(k));
    }
}

/// The report's spelling of a long output.
pub fn truncate_output(text: &str, full: bool, log_line: Option<usize>) -> (out: String)
    ensures
        out@ == truncate_output_spec(text@, full, log_line),
{
    let total = text.as_bytes().len();
    assert(total == utf8_len(text@));
    let cs = chars_of(text);
    if full || total <= SESSION_REPORT_OUTPUT_LIMIT {
        return string_of(&cs);
    }
    // The longest prefix within the limit.
    let mut cut: usize = 0;
    let mut cut_bytes: usize = 0;
    let mut fitting = true;
    assert(cs@.take(0) =~= Seq::<char>::empty());
    assert(cs@.skip(0) =~= cs@);
    while fitting && cut < cs.len()
        invariant
            cut <= cs@.len(),
            cut_bytes == utf8_len(cs@.take(cut as int)),
            cut_bytes <= SESSION_REPORT_OUTPUT_LIMIT,
            fitting ==> fit_prefix(cs@, SESSION_REPORT_OUTPUT_LIMIT as nat) == cut + fit_prefix(
                cs@.skip(cut as int),
                (SESSION_REPORT_OUTPUT_LIMIT - cut_bytes) as nat,
            ),
            !fitting ==> fit_prefix(cs@, SESSION_REPORT_OUTPUT_LIMIT as nat) == cut,
        decreases (cs.len() - cut) as int + if fitting { 1int } else { 0int },
    {
        let w = char_width(cs[cut]);
        proof {
            lemma_utf8_len_take(cs@, cut as int);
            let t = cs@.skip(cut as int);
            assert(t[0] == cs@[cut as int]);
            assert(t.drop_first() =~= cs@.skip(cut + 1));
        }
        if cut_bytes + w <= SESSION_REPORT_OUTPUT_LIMIT {
            cut = cut + 1;
            cut_bytes = cut_bytes + w;
        } else {
            fitting = false;
        }
    }
    if fitting {
        assert(cs@.skip(cs@.len() as int) =~= Seq::<char>::empty());
    }
    proof {
        lemma_utf8_len_split(cs@, cut as int);
    }
    let kept = slice_vec(&cs, 0, cut);
    assert(kept@ =~= cs@.take(cut as int));
    let mut out = string_of(&kept);
    push_str(&mut out, "\n… [");
    let dropped = usize_to_string(total - cut_bytes);
    push_str(&mut out, dropped.as_str());
    push_str(&mut out, " bytes truncated");
    match log_line {
        Some(line) => {
            push_str(&mut out, " — full output in the log at line ");
            let l = usize_to_string(line);
            push_str(&mut out, l.as_str());
        },
        None => {
            push_str(&mut out, " — full text in the log");
        },
    }
    push_str(&mut out, "]");
    out
}

// ---------------------------------------------------------------------------
// Quoted agent text and the prompt section
// ---------------------------------------------------------------------------

/// Each line behind `> `, an empty line as a bare `>`.
pub open spec fn quoted_lines(ls: Seq<Seq<char>>) -> Seq<char>
    decreases ls.len(),
{
    if ls.len() == 0 {
        seq![]
    } else {
        quoted_lines(ls.drop_last()) + if ls.last().len() == 0 {
            ">\n"@
        } else {
            "> "@ + ls.last() + "\n"@
        }
    }
}

/// The agent's own words as a labelled Markdown quote.
pub open spec fn quote_agent_text_spec(text: Seq<char>) -> Seq<char> {
    "> **Agent**\n>\n"@ + quoted_lines(lines(trim_end(text))) + "\n"@
}

/// Set the agent's words apart from tool traffic as a labelled quote.
pub fn quote_agent_text(text: &str) -> (out: String)
    ensures
        out@ == quote_agent_text_spec(text@),
{
    let cs = chars_of(text);
    let trimmed = trim_end_vec(&cs);
    let ls = lines_vec(&trimmed);
    let ghost spec_lines = lines(trim_end(text@));
    let mut out = String::new();
    push_str(&mut out, "> **Agent**\n>\n");
    let ghost head = out@;
    let mut i: usize = 0;
    while i < ls.len()
        invariant
            i <= ls@.len(),
            ls@.len() == spec_lines.len(),
            forall|k: int| 0 <= k < ls@.len() ==> #[trigger] ls@[k]@ == spec_lines[k],
            out@ == head + quoted_lines(spec_lines.take(i as int)),
        decreases ls.len() - i,
    {
        assert(spec_lines.take(i + 1).drop_last() =~= spec_lines.take(i as int));
        assert(ls@[i as int]@ == spec_lines[i as int]);
        if ls[i].len() == 0 {
            push_str(&mut out, ">\n");
        } else {
            push_str(&mut out, "> ");
            push_chars(&mut out, &ls[i]);
            push_str(&mut out, "\n");
        }
        i += 1;
        assert(out@ =~= head + quoted_lines(spec_lines.take(i as int)));
    }
    assert(spec_lines.take(ls.len() as int) =~= spec_lines);
    push_str(&mut out, "\n");
    out
}

/// The prompt section appended to a report: present whenever a prompt was
/// recorded, and for an event-stream report (`always`) even without one.
pub open spec fn render_prompt_spec(prompt: Option<Seq<char>>, always: bool) -> Seq<char> {
    let shown = match prompt {
        Some(p) => Some(p),
        None => if always {
            Some("(no prompt recorded)"@)
        } else {
            None
        },
    };
    match shown {
        None => seq![],
        Some(p) => "## Prompt\n\n<details><summary>full prompt</summary>\n\n"@ + fenced_spec(p)
            + "\n</details>\n\n"@,
    }
}

/// Append the prompt section.
pub fn render_prompt(out: &mut String, prompt: Option<&str>, always: bool)
    ensures
        final(out)@ == old(out)@ + render_prompt_spec(
            match prompt {
                Some(p) => Some(p@),
                None => None,
            },
            always,
        ),
{
    let shown: Option<&str> = match prompt {
        Some(p) => Some(p),
        None => if always {
            Some("(no prompt recorded)")
        } else {
            None
        },
    };
    match shown {
        None => {
            assert(old(out)@ + seq![] =~= old(out)@);
        },
        Some(p) => {
            push_str(out, "## Prompt\n\n<details><summary>full prompt</summary>\n\n");
            let f = fenced(p);
            push_str(out, f.as_str());
            push_str(out, "\n</details>\n\n");
        },
    }
}

// ---------------------------------------------------------------------------
// Paths relative to the session root, and the header block
// ---------------------------------------------------------------------------

/// A path the agent spelled absolutely, shown relative to the session's
/// root; anything else unchanged.
pub open spec fn relative_to_root_spec(path: Seq<char>, root: Option<Seq<char>>) -> Seq<char> {
    match root {
        None => path,
        Some(r) => {
            let r = trim_end_char(r, '/');
            if r.len() == 0 {
                path
            } else if r.len() + 1 < path.len() && path.take(r.len() as int) == r && path[r.len() as int]
                == '/' {
                path.skip(r.len() as int + 1)
            } else {
                path
            }
        },
    }
}

/// `path` relative to `root` when it lies strictly beneath it.
pub fn relative_to_root(path: &str, root: Option<&str>) -> (out: String)
    ensures
        out@ == relative_to_root_spec(
            path@,
            match root {
                Some(r) => Some(r@),
                None => None,
            },
        ),
{
    let p = chars_of(path);
    let Some(root) = root else {
        return string_of(&p);
    };
    let r = chars_of(root);
    let mut n = r.len();
    assert(r@.take(n as int) =~= r@);
    while n > 0 && r[n - 1] == '/'
        invariant
            n <= r@.len(),
            trim_end_char(r@, '/') == trim_end_char(r@.take(n as int), '/'),
        decreases n,
    {
        assert(r@.take(n as int).drop_last() =~= r@.take(n - 1));
        n -= 1;
    }
    let rr = slice_vec(&r, 0, n);
    assert(rr@ =~= trim_end_char(r@, '/'));
    if n == 0 {
        return string_of(&p);
    }
    if p.len() > 0 && n < p.len() - 1 && starts_with(&p, &rr) && p[n] == '/' {
        let rest = slice_vec(&p, n + 1, p.len());
        assert(rest@ =~= p@.skip(n + 1));
        string_of(&rest)
    } else {
        string_of(&p)
    }
}

/// The value of the first pair named `key`.
pub open spec fn lookup(pairs: Seq<(String, String)>, key: Seq<char>) -> Option<Seq<char>>
    decreases pairs.len(),
{
    if pairs.len() == 0 {
        None
    } else if pairs[0].0@ == key {
        Some(pairs[0].1@)
    } else {
        lookup(pairs.drop_first(), key)
    }
}

/// The value of the first pair named `key`.
pub fn lookup_pair<'a>(pairs: &'a Vec<(String, String)>, key: &str) -> (out: Option<&'a str>)
    ensures
        match out {
            Some(v) => lookup(pairs@, key@) == Some(v@),
            None => lookup(pairs@, key@) is None,
        },
{
    let mut i: usize = 0;
    assert(pairs@.skip(0) =~= pairs@);
    while i < pairs.len()
        invariant
            i <= pairs.len(),
            lookup(pairs@, key@) == lookup(pairs@.skip(i as int), key@),
        decreases pairs.len() - i,
    {
        assert(pairs@.skip(i as int)[0] == pairs@[i as int]);
        assert(pairs@.skip(i as int).drop_first() =~= pairs@.skip(i + 1));
        if str_eq(pairs[i].0.as_str(), key) {
            return Some(pairs[i].1.as_str());
        }
        i += 1;
    }
    None
}

/// Option of a string view.
pub open spec fn opt_view(o: Option<&str>) -> Option<Seq<char>> {
    match o {
        Some(s) => Some(s@),
        None => None,
    }
}

/// The directory the session worked in: the worktree when the log header
/// names one, the checkout otherwise.
pub open spec fn session_root_spec(header: Seq<(String, String)>) -> Option<Seq<char>> {
    match lookup(header, "worktree_root"@) {
        Some(v) => Some(v),
        None => lookup(header, "checkout_root"@),
    }
}

/// The session's working root from its log header.
pub fn session_root(header: &Vec<(String, String)>) -> (out: Option<&str>)
    ensures
        opt_view(out) == session_root_spec(header@),
{
    match lookup_pair(header, "worktree_root") {
        Some(v) => Some(v),
        None => lookup_pair(header, "checkout_root"),
    }
}

/// `a` when present, `b` otherwise.
pub open spec fn or_else(a: Option<Seq<char>>, b: Option<Seq<char>>) -> Option<Seq<char>> {
    match a {
        Some(v) => Some(v),
        None => b,
    }
}

pub open spec fn or_default(a: Option<Seq<char>>, d: Seq<char>) -> Seq<char> {
    match a {
        Some(v) => v,
        None => d,
    }
}

/// The title line: task and state, falling back to the log stem and `?`.
pub open spec fn header_title_spec(header: Seq<(String, String)>, stem: Seq<char>) -> Seq<char> {
    "# "@ + or_default(lookup(header, "task"@), stem) + " — "@ + or_default(
        lookup(header, "state"@),
        "?"@,
    ) + "\n\n"@
}

/// The agent line: target or agent, and the model when recorded.
pub open spec fn header_agent_spec(header: Seq<(String, String)>) -> Seq<char> {
    let identity = or_default(
        or_else(lookup(header, "target"@), lookup(header, "agent"@)),
        "?"@,
    );
    let model_part = match or_else(lookup(header, "model_name"@), lookup(header, "model"@)) {
        Some(m) => " · **Model**: "@ + m,
        None => seq![],
    };
    "**Agent**: "@ + identity + model_part + "\n"@
}

/// The start and exit line; a missing exit footer is said, not inferred.
pub open spec fn header_exit_spec(
    header: Seq<(String, String)>,
    exit: Seq<(String, String)>,
) -> Seq<char> {
    let started_part = match lookup(header, "started"@) {
        Some(s) => "**Started**: "@ + s,
        None => seq![],
    };
    let exit_part = match (lookup(exit, "duration"@), lookup(exit, "code"@)) {
        (Some(d), Some(c)) => " · **Duration**: "@ + d + " · **Exit**: "@ + c + "\n"@,
        _ => " · **Exit**: session ended without an exit record\n"@,
    };
    started_part + exit_part
}

/// The header block of a report: title, agent and model, start, duration
/// and exit — or the plain statement that no exit record exists — and the
/// log it was rendered from.
pub open spec fn report_header_spec(
    header: Seq<(String, String)>,
    exit: Seq<(String, String)>,
    log_reference: Seq<char>,
    stem: Seq<char>,
) -> Seq<char> {
    header_title_spec(header, stem) + header_agent_spec(header) + header_exit_spec(header, exit)
        + "**Log**: `"@ + log_reference + "`\n\n"@
}

fn push_header_title(out: &mut String, header: &Vec<(String, String)>, stem: &str)
    ensures
        final(out)@ == old(out)@ + header_title_spec(header@, stem@),
{
    let task = match lookup_pair(header, "task") {
        Some(t) => t,
        None => stem,
    };
    let state = match lookup_pair(header, "state") {
        Some(s) => s,
        None => "?",
    };
    push_str(out, "# ");
    push_str(out, task);
    push_str(out, " — ");
    push_str(out, state);
    push_str(out, "\n\n");
    assert(final(out)@ =~= old(out)@ + header_title_spec(header@, stem@));
}

fn push_header_agent(out: &mut String, header: &Vec<(String, String)>)
    ensures
        final(out)@ == old(out)@ + header_agent_spec(header@),
{
    let identity = match lookup_pair(header, "target") {
        Some(t) => t,
        None => match lookup_pair(header, "agent") {
            Some(a) => a,
            None => "?",
        },
    };
    push_str(out, "**Agent**: ");
    push_str(out, identity);
    let ghost mid = out@;
    let model = match lookup_pair(header, "model_name") {
        Some(m) => Some(m),
        None => lookup_pair(header, "model"),
    };
    if let Some(m) = model {
        push_str(out, " · **Model**: ");
        push_str(out, m);
    } else {
        assert(out@ =~= mid + seq![]);
    }
    push_str(out, "\n");
    assert(final(out)@ =~= old(out)@ + header_agent_spec(header@));
}

fn push_header_exit(out: &mut String, header: &Vec<(String, String)>, exit: &Vec<(String, String)>)
    ensures
        final(out)@ == old(out)@ + header_exit_spec(header@, exit@),
{
    let ghost start = out@;
    if let Some(started) = lookup_pair(header, "started") {
        push_str(out, "**Started**: ");
        push_str(out, started);
    } else {
        assert(out@ =~= start + seq![]);
    }
    match (lookup_pair(exit, "duration"), lookup_pair(exit, "code")) {
        (Some(d), Some(c)) => {
            push_str(out, " · **Duration**: ");
            push_str(out, d);
            push_str(out, " · **Exit**: ");
            push_str(out, c);
            push_str(out, "\n");
        },
        _ => {
            push_str(out, " · **Exit**: session ended without an exit record\n");
        },
    }
    assert(final(out)@ =~= old(out)@ + header_exit_spec(header@, exit@));
}

/// Append the report's header block.
pub fn render_report_header(
    out: &mut String,
    header: &Vec<(String, String)>,
    exit: &Vec<(String, String)>,
    log_reference: &str,
    stem: &str,
)
    ensures
        final(out)@ == old(out)@ + report_header_spec(header@, exit@, log_reference@, stem@),
{
    push_header_title(out, header, stem);
    push_header_agent(out, header);
    push_header_exit(out, header, exit);
    push_str(out, "**Log**: `");
    push_str(out, log_reference);
    push_str(out, "`\n\n");
    assert(final(out)@ =~= old(out)@ + report_header_spec(header@, exit@, log_reference@, stem@));
}

} // verus!
