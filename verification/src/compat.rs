//! Root compatibility: after a composed block is qualified, the names its
//! root promised stay stable. Task headings and task metadata are renamed
//! back to the stable identities the compatibility map records.
use vstd::prelude::*;
use crate::blocks::{split_once, split_once_spec};
use crate::migration::{line_views, split_char, starts_with_spec};
use crate::paths::split_on;
use crate::session_report::{lookup, lookup_pair};
use crate::yaml::{Yaml, YamlEntry, debug_str, string_key_debug};
use crate::text::{chars_of, find_sub, first_occurrence, is_ws, join, lemma_join_push, lines, lines_vec, push_chars, push_str, slice_vec, starts_with, string_of, trim, trim_vec};

verus! {

/// The stable root names of a composition, each map running from the
/// compiled identity to the stable one. The first pair for a key decides.
#[derive(Debug)]
pub struct ResolvedCompatibility {
    pub states: Vec<(String, String)>,
    pub tasks: Vec<(String, String)>,
    pub profiles: Vec<(String, String)>,
    pub settings: Vec<(String, String)>,
    /// Stable artifact names and the state-file endpoints they stand for.
    pub artifacts: Vec<(String, ArtifactEndpoint)>,
}

/// A `state-file` data endpoint: the state that declares it and its name.
#[derive(Debug)]
pub struct ArtifactEndpoint {
    pub state: String,
    pub name: String,
}

/// `key`'s replacement, or `key` itself.
pub open spec fn renamed(m: Seq<(String, String)>, key: Seq<char>) -> Seq<char> {
    match lookup(m, key) {
        Some(v) => v,
        None => key,
    }
}

fn renamed_str(m: &Vec<(String, String)>, key: &str) -> (out: String)
    ensures
        out@ == renamed(m@, key@),
{
    match lookup_pair(m, key) {
        Some(v) => v.to_string(),
        None => key.to_string(),
    }
}

// ---------------------------------------------------------------------------
// Execution target selectors
// ---------------------------------------------------------------------------

/// An execution target `agent[mode]:provider:model`; the mode is optional.
#[derive(Debug)]
pub struct ExecutionTarget {
    pub agent: String,
    pub mode: Option<String>,
    pub provider: String,
    pub model: String,
}

/// The agent part of a selector: `agent` or `agent[mode]`, both names
/// non-empty and free of brackets.
pub open spec fn agent_part(s: Seq<char>) -> Option<(Seq<char>, Option<Seq<char>>)> {
    let k = crate::text::index_of_char(s, '[') as int;
    if k >= s.len() {
        if s.len() > 0 && !s.contains(']') {
            Some((s, None))
        } else {
            None
        }
    } else {
        let mode = s.subrange(k + 1, s.len() - 1);
        if k > 0 && s.len() >= k + 3 && s.last() == ']' && !mode.contains('[') && !mode.contains(
            ']',
        ) && !s.take(k).contains(']') {
            Some((s.take(k), Some(mode)))
        } else {
            None
        }
    }
}

/// The target a selector names: three non-empty `:`-separated parts, the
/// first an agent with an optional `[mode]`.
pub open spec fn parse_target_spec(s: Seq<char>) -> Option<
    (Seq<char>, Option<Seq<char>>, Seq<char>, Seq<char>),
> {
    let parts = split_on(s, ':');
    if parts.len() == 3 && parts[1].len() > 0 && parts[2].len() > 0 {
        match agent_part(parts[0]) {
            Some((agent, mode)) => Some((agent, mode, parts[1], parts[2])),
            None => None,
        }
    } else {
        None
    }
}

/// How a target is spelled.
pub open spec fn selector_spec(
    agent: Seq<char>,
    mode: Option<Seq<char>>,
    provider: Seq<char>,
    model: Seq<char>,
) -> Seq<char> {
    let head = match mode {
        Some(m) => agent + seq!['['] + m + seq![']'],
        None => agent,
    };
    head + seq![':'] + provider + seq![':'] + model
}

fn parse_agent_part(s: &Vec<char>) -> (out: Option<(Vec<char>, Option<Vec<char>>)>)
    ensures
        match agent_part(s@) {
            Some((a, m)) => out matches Some((oa, om)) && oa@ == a && match m {
                Some(mv) => om matches Some(x) && x@ == mv,
                None => om is None,
            },
            None => out is None,
        },
{
    let k = crate::text::find_char_from(s, '[', 0);
    proof {
        crate::text::lemma_index_of_char(s@, '[', k as int);
    }
    if k >= s.len() {
        let close = crate::text::find_char_from(s, ']', 0);
        if s.len() > 0 && close >= s.len() {
            assert(!s@.contains(']'));
            return Some((slice_vec(s, 0, s.len()), None));
        } else {
            if close < s.len() {
                assert(s@[close as int] == ']');
            }
            return None;
        }
    }
    if k == 0 || s.len() - k < 3 || s[s.len() - 1] != ']' {
        return None;
    }
    let head = slice_vec(s, 0, k);
    let mode = slice_vec(s, k + 1, s.len() - 1);
    let a = crate::text::find_char_from(&mode, '[', 0);
    let b = crate::text::find_char_from(&mode, ']', 0);
    let c = crate::text::find_char_from(&head, ']', 0);
    if a < mode.len() || b < mode.len() || c < head.len() {
        if a < mode.len() {
            assert(mode@[a as int] == '[');
        }
        if b < mode.len() {
            assert(mode@[b as int] == ']');
        }
        if c < head.len() {
            assert(head@[c as int] == ']');
        }
        return None;
    }
    assert(!mode@.contains('['));
    assert(!mode@.contains(']'));
    assert(!head@.contains(']'));
    Some((head, Some(mode)))
}

/// Parse an execution target selector.
pub fn parse_execution_target(selector: &str) -> (out: Option<ExecutionTarget>)
    ensures
        match parse_target_spec(selector@) {
            Some((a, m, p, md)) => out matches Some(t) && t.agent@ == a && t.provider@ == p
                && t.model@ == md && match m {
                Some(mv) => t.mode matches Some(x) && x@ == mv,
                None => t.mode is None,
            },
            None => out is None,
        },
{
    let cs = chars_of(selector);
    let parts = split_char(&cs, ':');
    assert(line_views(parts@) == split_on(cs@, ':'));
    if parts.len() != 3 || parts[1].len() == 0 || parts[2].len() == 0 {
        if parts.len() == 3 {
            assert(line_views(parts@)[1] == parts@[1]@);
            assert(line_views(parts@)[2] == parts@[2]@);
        }
        return None;
    }
    assert(line_views(parts@)[0] == parts@[0]@);
    assert(line_views(parts@)[1] == parts@[1]@);
    assert(line_views(parts@)[2] == parts@[2]@);
    match parse_agent_part(&parts[0]) {
        Some((agent, mode)) => Some(
            ExecutionTarget {
                agent: string_of(&agent),
                mode: match mode {
                    Some(m) => Some(string_of(&m)),
                    None => None,
                },
                provider: string_of(&parts[1]),
                model: string_of(&parts[2]),
            },
        ),
        None => None,
    }
}

impl ExecutionTarget {
    /// The selector that names this target.
    pub fn selector(&self) -> (out: String)
        ensures
            out@ == selector_spec(
                self.agent@,
                match self.mode {
                    Some(m) => Some(m@),
                    None => None,
                },
                self.provider@,
                self.model@,
            ),
    {
        let mut out = String::new();
        push_str(&mut out, self.agent.as_str());
        match &self.mode {
            Some(m) => {
                out.push('[');
                push_str(&mut out, m.as_str());
                out.push(']');
            },
            None => {},
        }
        out.push(':');
        push_str(&mut out, self.provider.as_str());
        out.push(':');
        push_str(&mut out, self.model.as_str());
        out
    }
}

/// A selector with its agent and model renamed; a string that is no
/// selector is renamed whole.
pub open spec fn replace_target_selector_spec(selector: Seq<char>, m: Seq<(String, String)>) -> Seq<
    char,
> {
    match parse_target_spec(selector) {
        Some((a, mode, p, md)) => selector_spec(renamed(m, a), mode, p, renamed(m, md)),
        None => renamed(m, selector),
    }
}

/// Rename the agent and model of a target selector to their stable names.
pub fn replace_target_selector(selector: &str, replacements: &Vec<(String, String)>) -> (out: String)
    ensures
        out@ == replace_target_selector_spec(selector@, replacements@),
{
    let Some(mut target) = parse_execution_target(selector) else {
        return renamed_str(replacements, selector);
    };
    let agent = renamed_str(replacements, target.agent.as_str());
    let model = renamed_str(replacements, target.model.as_str());
    target.agent = agent;
    target.model = model;
    target.selector()
}

// ---------------------------------------------------------------------------
// Task metadata lines
// ---------------------------------------------------------------------------

/// `**<field>:**<value>`: the field name and what follows the marker.
pub open spec fn metadata_split(line: Seq<char>) -> Option<(Seq<char>, Seq<char>)> {
    if starts_with_spec(line, seq!['*', '*']) {
        let rest = line.skip(2);
        match first_occurrence(rest, seq![':', '*', '*']) {
            Some(i) => Some((rest.take(i), rest.skip(i + 3))),
            None => None,
        }
    } else {
        None
    }
}

/// One `**Prior:**` item renamed: `<kind> <id>` keeps its kind.
pub open spec fn prior_item_spec(raw: Seq<char>, tasks: Seq<(String, String)>) -> Seq<char> {
    let item = trim(raw);
    match split_once_spec(item, ' ') {
        Some((kind, id)) => if kind.len() == 0 {
            renamed(tasks, id)
        } else {
            kind + seq![' '] + renamed(tasks, id)
        },
        None => renamed(tasks, item),
    }
}

/// One `**Consumes:**` item renamed: `<task>:<export>` keeps its export.
pub open spec fn consumes_item_spec(raw: Seq<char>, tasks: Seq<(String, String)>) -> Seq<char> {
    let item = trim(raw);
    match split_once_spec(item, ':') {
        Some((task, export)) => renamed(tasks, task) + seq![':'] + export,
        None => item,
    }
}

/// A comma-separated list with each item renamed, joined by `, `.
pub open spec fn renamed_list(value: Seq<char>, tasks: Seq<(String, String)>, consumes: bool) -> Seq<
    char,
> {
    join(
        split_on(value, ',').map_values(
            |x: Seq<char>|
                if consumes {
                    consumes_item_spec(x, tasks)
                } else {
                    prior_item_spec(x, tasks)
                },
        ),
        seq![',', ' '],
    )
}

/// A task metadata line with the identities it names renamed to their
/// stable names; any other line is unchanged.
pub open spec fn task_metadata_spec(line: Seq<char>, c: ResolvedCompatibility) -> Seq<char> {
    match metadata_split(line) {
        None => line,
        Some((field, raw)) => {
            let value = trim(raw);
            if field == "State"@ {
                "**State:** "@ + renamed(c.states@, value)
            } else if field == "Prior"@ {
                "**Prior:** "@ + renamed_list(value, c.tasks@, false)
            } else if field == "Consumes"@ {
                "**Consumes:** "@ + renamed_list(value, c.tasks@, true)
            } else if field == "Model"@ {
                "**Model:** "@ + renamed(c.settings@, value)
            } else if field == "Target"@ {
                "**Target:** "@ + replace_target_selector_spec(value, c.settings@)
            } else {
                line
            }
        },
    }
}

fn list_item(raw: &Vec<char>, tasks: &Vec<(String, String)>, consumes: bool) -> (out: String)
    ensures
        out@ == if consumes {
            consumes_item_spec(raw@, tasks@)
        } else {
            prior_item_spec(raw@, tasks@)
        },
{
    let item = string_of(&trim_vec(raw));
    if consumes {
        match split_once(item.as_str(), ':') {
            Some((task, export)) => {
                let mut out = renamed_str(tasks, task.as_str());
                out.push(':');
                push_str(&mut out, export.as_str());
                out
            },
            None => item,
        }
    } else {
        match split_once(item.as_str(), ' ') {
            Some((kind, id)) => {
                if kind.as_str().is_empty() {
                    renamed_str(tasks, id.as_str())
                } else {
                    let mut out = kind;
                    out.push(' ');
                    let stable = renamed_str(tasks, id.as_str());
                    push_str(&mut out, stable.as_str());
                    out
                }
            },
            None => renamed_str(tasks, item.as_str()),
        }
    }
}

fn push_renamed_list(out: &mut String, value: &Vec<char>, tasks: &Vec<(String, String)>, consumes: bool)
    ensures
        final(out)@ == old(out)@ + renamed_list(value@, tasks@, consumes),
{
    let pieces = split_char(value, ',');
    let ghost items = split_on(value@, ',').map_values(
        |x: Seq<char>|
            if consumes {
                consumes_item_spec(x, tasks@)
            } else {
                prior_item_spec(x, tasks@)
            },
    );
    let ghost start = out@;
    let mut i: usize = 0;
    assert(items.take(0) =~= Seq::<Seq<char>>::empty());
    while i < pieces.len()
        invariant
            i <= pieces@.len(),
            line_views(pieces@) == split_on(value@, ','),
            items == split_on(value@, ',').map_values(
                |x: Seq<char>|
                    if consumes {
                        consumes_item_spec(x, tasks@)
                    } else {
                        prior_item_spec(x, tasks@)
                    },
            ),
            out@ == start + join(items.take(i as int), seq![',', ' ']),
        decreases pieces.len() - i,
    {
        assert(line_views(pieces@)[i as int] == pieces@[i as int]@);
        let piece = list_item(&pieces[i], tasks, consumes);
        proof {
            lemma_join_push(items.take(i as int), seq![',', ' '], items[i as int]);
            assert(items.take(i + 1) =~= items.take(i as int).push(items[i as int]));
        }
        if i > 0 {
            out.push(',');
            out.push(' ');
        }
        push_str(out, piece.as_str());
        i += 1;
        assert(out@ =~= start + join(items.take(i as int), seq![',', ' ']));
    }
    assert(items.take(pieces@.len() as int) =~= items);
}

/// Rename the identities one task metadata line names to the stable names
/// of the root: `**State:**`, the tasks of `**Prior:**` and `**Consumes:**`,
/// `**Model:**` and the agent and model of `**Target:**`.
pub fn compatibility_task_metadata(line: &str, compatibility: &ResolvedCompatibility) -> (out: String)
    ensures
        out@ == task_metadata_spec(line@, *compatibility),
{
    let cs = chars_of(line);
    let stars = vec!['*', '*'];
    if !starts_with(&cs, &stars) {
        assert(stars@ =~= seq!['*', '*']);
        return line.to_string();
    }
    assert(stars@ =~= seq!['*', '*']);
    let rest = slice_vec(&cs, 2, cs.len());
    assert(rest@ =~= cs@.skip(2));
    let marker = vec![':', '*', '*'];
    assert(marker@ =~= seq![':', '*', '*']);
    let Some(i) = find_sub(&rest, &marker) else {
        return line.to_string();
    };
    let field = string_of(&slice_vec(&rest, 0, i));
    let raw = slice_vec(&rest, i + 3, rest.len());
    assert(raw@ =~= rest@.skip(i + 3));
    let value = trim_vec(&raw);
    let text = string_of(&value);
    let f = field.as_str();
    if crate::text::str_eq(f, "State") {
        let mut out = String::new();
        push_str(&mut out, "**State:** ");
        let stable = renamed_str(&compatibility.states, text.as_str());
        push_str(&mut out, stable.as_str());
        out
    } else if crate::text::str_eq(f, "Prior") {
        let mut out = String::new();
        push_str(&mut out, "**Prior:** ");
        push_renamed_list(&mut out, &value, &compatibility.tasks, false);
        out
    } else if crate::text::str_eq(f, "Consumes") {
        let mut out = String::new();
        push_str(&mut out, "**Consumes:** ");
        push_renamed_list(&mut out, &value, &compatibility.tasks, true);
        out
    } else if crate::text::str_eq(f, "Model") {
        let mut out = String::new();
        push_str(&mut out, "**Model:** ");
        let stable = renamed_str(&compatibility.settings, text.as_str());
        push_str(&mut out, stable.as_str());
        out
    } else if crate::text::str_eq(f, "Target") {
        let mut out = String::new();
        push_str(&mut out, "**Target:** ");
        let stable = replace_target_selector(text.as_str(), &compatibility.settings);
        push_str(&mut out, stable.as_str());
        out
    } else {
        line.to_string()
    }
}

// ---------------------------------------------------------------------------
// Qualified task headings
// ---------------------------------------------------------------------------

pub open spec fn is_ascii_letter(c: char) -> bool {
    ('a' <= c && c <= 'z') || ('A' <= c && c <= 'Z')
}

/// `[A-Za-z0-9_-]`.
pub open spec fn is_word_char(c: char) -> bool {
    is_ascii_letter(c) || ('0' <= c && c <= '9') || c == '_' || c == '-'
}

/// The number of `#` from `i` on.
pub open spec fn hash_run(s: Seq<char>, i: int) -> nat
    decreases s.len() - i,
{
    if 0 <= i < s.len() && s[i] == '#' {
        1 + hash_run(s, i + 1)
    } else {
        0
    }
}

/// The number of whitespace characters from `i` on.
pub open spec fn ws_run(s: Seq<char>, i: int) -> nat
    decreases s.len() - i,
{
    if 0 <= i < s.len() && is_ws(s[i]) {
        1 + ws_run(s, i + 1)
    } else {
        0
    }
}

/// The number of word characters from `i` on.
pub open spec fn word_run(s: Seq<char>, i: int) -> nat
    decreases s.len() - i,
{
    if 0 <= i < s.len() && is_word_char(s[i]) {
        1 + word_run(s, i + 1)
    } else {
        0
    }
}

/// The number of word characters and dots from `i` on.
pub open spec fn id_run(s: Seq<char>, i: int) -> nat
    decreases s.len() - i,
{
    if 0 <= i < s.len() && (is_word_char(s[i]) || s[i] == '.') {
        1 + id_run(s, i + 1)
    } else {
        0
    }
}

/// Dot-separated non-empty segments.
pub open spec fn dotted(id: Seq<char>) -> bool {
    &&& id.len() > 0
    &&& forall|k: int|
        0 <= k < id.len() && #[trigger] id[k] == '.' ==> 0 < k < id.len() - 1 && id[k - 1] != '.'
            && id[k + 1] != '.'
}

/// A qualified task heading `### <Kind> <id>:<rest>` with three to six `#`:
/// where the id starts and where it ends.
pub open spec fn heading_split(line: Seq<char>) -> Option<(int, int)> {
    let h = hash_run(line, 0) as int;
    let k0 = h + ws_run(line, h);
    let kend = k0 + 1 + word_run(line, k0 + 1);
    let p = kend + ws_run(line, kend);
    let e = p + id_run(line, p);
    if 3 <= h <= 6 && k0 > h && k0 < line.len() && is_ascii_letter(line[k0]) && p > kend && e
        < line.len() && line[e] == ':' && dotted(line.subrange(p, e)) {
        Some((p, e))
    } else {
        None
    }
}

/// A task line with its qualified identity renamed: a heading keeps all
/// but its id, any other line is a metadata line.
pub open spec fn task_line_spec(line: Seq<char>, c: ResolvedCompatibility) -> Seq<char> {
    match heading_split(line) {
        Some((p, e)) => line.take(p) + renamed(c.tasks@, line.subrange(p, e)) + line.skip(e),
        None => task_metadata_spec(line, c),
    }
}

/// Every line of a task text renamed and ended by `\n`.
pub open spec fn task_text_spec(ls: Seq<Seq<char>>, c: ResolvedCompatibility) -> Seq<char>
    decreases ls.len(),
{
    if ls.len() == 0 {
        seq![]
    } else {
        task_text_spec(ls.drop_last(), c) + task_line_spec(ls.last(), c) + seq!['\n']
    }
}

/// Whether `c` belongs to run class `which`: `#`, whitespace, word
/// characters, or word characters and dots.
fn in_class(c: char, which: u8) -> (r: bool)
    requires
        which < 4,
    ensures
        which == 0 ==> r == (c == '#'),
        which == 1 ==> r == is_ws(c),
        which == 2 ==> r == is_word_char(c),
        which == 3 ==> r == (is_word_char(c) || c == '.'),
{
    if which == 0 {
        c == '#'
    } else if which == 1 {
        crate::text::is_whitespace(c)
    } else if which == 2 {
        word_char(c)
    } else {
        word_char(c) || c == '.'
    }
}

fn count_run(s: &Vec<char>, i: usize, which: u8) -> (n: usize)
    requires
        i <= s@.len(),
        which < 4,
    ensures
        i + n <= s.len(),
        which == 0 ==> n == hash_run(s@, i as int),
        which == 1 ==> n == ws_run(s@, i as int),
        which == 2 ==> n == word_run(s@, i as int),
        which == 3 ==> n == id_run(s@, i as int),
{
    let mut k = i;
    while k < s.len() && in_class(s[k], which)
        invariant
            i <= k <= s@.len(),
            which < 4,
            which == 0 ==> hash_run(s@, i as int) == (k - i) + hash_run(s@, k as int),
            which == 1 ==> ws_run(s@, i as int) == (k - i) + ws_run(s@, k as int),
            which == 2 ==> word_run(s@, i as int) == (k - i) + word_run(s@, k as int),
            which == 3 ==> id_run(s@, i as int) == (k - i) + id_run(s@, k as int),
        decreases s.len() - k,
    {
        k += 1;
    }
    k - i
}

fn word_char(c: char) -> (r: bool)
    ensures
        r == is_word_char(c),
{
    ('a' <= c && c <= 'z') || ('A' <= c && c <= 'Z') || ('0' <= c && c <= '9') || c == '_' || c
        == '-'
}

fn is_dotted(s: &Vec<char>, p: usize, e: usize) -> (r: bool)
    requires
        p <= e <= s@.len(),
    ensures
        r == dotted(s@.subrange(p as int, e as int)),
{
    let ghost id = s@.subrange(p as int, e as int);
    if p == e {
        return false;
    }
    let mut k = p;
    while k < e
        invariant
            p <= k <= e <= s@.len(),
            p < e,
            id == s@.subrange(p as int, e as int),
            forall|j: int|
                0 <= j < k - p && #[trigger] id[j] == '.' ==> 0 < j < id.len() - 1 && id[j - 1]
                    != '.' && id[j + 1] != '.',
        decreases e - k,
    {
        if s[k] == '.' {
            if k == p || k + 1 == e || s[k - 1] == '.' || s[k + 1] == '.' {
                assert(id[k - p] == '.');
                return false;
            }
        }
        k += 1;
    }
    true
}

/// Where a qualified heading's id starts and ends.
fn locate_heading_id(line: &Vec<char>) -> (out: Option<(usize, usize)>)
    ensures
        match heading_split(line@) {
            Some((p, e)) => out matches Some((a, b)) && a == p && b == e && a <= b <= line@.len(),
            None => out is None,
        },
{
    let h = count_run(line, 0, 0);
    let k0 = h + count_run(line, h, 1);
    if !(3 <= h && h <= 6 && k0 > h && k0 < line.len() && ('a' <= line[k0] && line[k0] <= 'z'
        || 'A' <= line[k0] && line[k0] <= 'Z')) {
        return None;
    }
    let kend = k0 + 1 + count_run(line, k0 + 1, 2);
    let p = kend + count_run(line, kend, 1);
    let e = p + count_run(line, p, 3);
    if p > kend && e < line.len() && line[e] == ':' && is_dotted(line, p, e) {
        Some((p, e))
    } else {
        None
    }
}

fn task_line(line: &Vec<char>, compatibility: &ResolvedCompatibility) -> (out: String)
    ensures
        out@ == task_line_spec(line@, *compatibility),
{
    match locate_heading_id(line) {
        Some((p, e)) => {
            let mut out = String::new();
            push_chars(&mut out, &slice_vec(line, 0, p));
            let id = string_of(&slice_vec(line, p, e));
            let stable = renamed_str(&compatibility.tasks, id.as_str());
            push_str(&mut out, stable.as_str());
            push_chars(&mut out, &slice_vec(line, e, line.len()));
            assert(out@ =~= task_line_spec(line@, *compatibility));
            out
        },
        None => {
            let text = string_of(line);
            compatibility_task_metadata(text.as_str(), compatibility)
        },
    }
}

/// One task text with its headings and metadata renamed, every line ended
/// by `\n`.
pub fn compatibility_task_text(text: &str, compatibility: &ResolvedCompatibility) -> (out: String)
    ensures
        out@ == task_text_spec(lines(text@), *compatibility),
{
    let cs = chars_of(text);
    let ls = lines_vec(&cs);
    let ghost all = lines(text@);
    let mut out = String::new();
    let mut i: usize = 0;
    assert(all.take(0) =~= Seq::<Seq<char>>::empty());
    while i < ls.len()
        invariant
            i <= ls@.len(),
            all == lines(text@),
            ls@.len() == all.len(),
            forall|k: int| 0 <= k < ls@.len() ==> #[trigger] ls@[k]@ == all[k],
            out@ == task_text_spec(all.take(i as int), *compatibility),
        decreases ls.len() - i,
    {
        let line = task_line(&ls[i], compatibility);
        push_str(&mut out, line.as_str());
        out.push('\n');
        assert(all.take(i + 1).drop_last() =~= all.take(i as int));
        i += 1;
    }
    assert(all.take(ls@.len() as int) =~= all);
    out
}

/// A compiled leaf's task texts, each under its name.
#[derive(Debug)]
pub struct CompiledLeaf {
    pub tasks: Vec<(String, String)>,
}

/// Rename every task text of every leaf to the root's stable identities;
/// task names and the order of leaves and tasks stay as they were.
pub fn apply_compatibility_tasks(leaves: &mut Vec<CompiledLeaf>, compatibility: &ResolvedCompatibility)
    ensures
        final(leaves)@.len() == old(leaves)@.len(),
        forall|i: int|
            #![trigger final(leaves)@[i]]
            0 <= i < old(leaves)@.len() ==> final(leaves)@[i].tasks@.len() == old(leaves)@[i].tasks@.len(),
        forall|i: int, j: int|
            #![trigger final(leaves)@[i].tasks@[j]]
            0 <= i < old(leaves)@.len() && 0 <= j < old(leaves)@[i].tasks@.len() ==> final(leaves)@[i].tasks@[j].0 == old(leaves)@[i].tasks@[j].0
                && final(leaves)@[i].tasks@[j].1@ == task_text_spec(lines(old(leaves)@[i].tasks@[j].1@), *compatibility),
{
    let mut taken: Vec<CompiledLeaf> = Vec::new();
    std::mem::swap(leaves, &mut taken);
    let ghost before = taken@;
    let mut i: usize = 0;
    while i < taken.len()
        invariant
            i <= taken@.len(),
            taken@ == before,
            leaves@.len() == i,
            forall|a: int|
                0 <= a < i ==> (#[trigger] leaves@[a]).tasks@.len() == before[a].tasks@.len(),
            forall|a: int, b: int|
                0 <= a < i && 0 <= b < before[a].tasks@.len() ==> (
                #[trigger] leaves@[a].tasks@[b]).0 == before[a].tasks@[b].0 && leaves@[a].tasks@[b].1@
                    == task_text_spec(lines(before[a].tasks@[b].1@), *compatibility),
        decreases taken.len() - i,
    {
        let mut tasks: Vec<(String, String)> = Vec::new();
        let mut j: usize = 0;
        while j < taken[i].tasks.len()
            invariant
                i < taken@.len(),
                taken@ == before,
                j <= before[i as int].tasks@.len(),
                tasks@.len() == j,
                forall|b: int|
                    0 <= b < j ==> (#[trigger] tasks@[b]).0 == before[i as int].tasks@[b].0
                        && tasks@[b].1@ == task_text_spec(
                        lines(before[i as int].tasks@[b].1@),
                        *compatibility,
                    ),
            decreases before[i as int].tasks@.len() - j,
        {
            let name = taken[i].tasks[j].0.clone();
            let text = compatibility_task_text(taken[i].tasks[j].1.as_str(), compatibility);
            tasks.push((name, text));
            j += 1;
        }
        leaves.push(CompiledLeaf { tasks });
        i += 1;
    }
}

// ---------------------------------------------------------------------------
// Machine YAML values
// ---------------------------------------------------------------------------

/// `new` is `old` with a string renamed to its stable name; anything else,
/// and a string without a stable name, is unchanged.
pub open spec fn replaced_value(old: Yaml, new: Yaml, m: Seq<(String, String)>) -> bool {
    match old {
        Yaml::Str(s) => match lookup(m, s@) {
            Some(t) => new matches Yaml::Str(n) && n@ == t,
            None => new == old,
        },
        _ => new == old,
    }
}

/// Rename a string value to its stable name, when it has one.
pub fn replace_compatible(value: &mut Yaml, replacements: &Vec<(String, String)>)
    ensures
        replaced_value(*old(value), *final(value), replacements@),
{
    let stable = match &*value {
        Yaml::Str(s) => match lookup_pair(replacements, s.as_str()) {
            Some(t) => Some(t.to_string()),
            None => None,
        },
        _ => None,
    };
    if let Some(t) = stable {
        *value = Yaml::Str(t);
    }
}

/// A selector item renamed: strings through `replace_target_selector`,
/// anything else unchanged.
pub open spec fn target_item_replaced(old: Yaml, new: Yaml, m: Seq<(String, String)>) -> bool {
    match old {
        Yaml::Str(s) => new matches Yaml::Str(n) && n@ == replace_target_selector_spec(s@, m),
        _ => new == old,
    }
}

/// A `target` or `all_targets` value renamed: one selector, or each
/// selector of a list.
pub open spec fn target_settings_replaced(old: Yaml, new: Yaml, m: Seq<(String, String)>) -> bool {
    match old {
        Yaml::Str(_) => target_item_replaced(old, new, m),
        Yaml::Sequence(items) => new matches Yaml::Sequence(n) && n@.len() == items@.len() && (
        forall|i: int|
            0 <= i < items@.len() ==> target_item_replaced(
                #[trigger] items@[i],
                n@[i],
                m,
            )),
        _ => new == old,
    }
}

fn replaced_item(item: Yaml, replacements: &Vec<(String, String)>) -> (out: Yaml)
    ensures
        target_item_replaced(item, out, replacements@),
{
    match item {
        Yaml::Str(s) => Yaml::Str(replace_target_selector(s.as_str(), replacements)),
        other => other,
    }
}

/// Rename the agent and model of a `target` selector, or of each selector
/// of an `all_targets` list, to their stable names.
pub fn replace_target_settings(value: &mut Yaml, replacements: &Vec<(String, String)>)
    ensures
        target_settings_replaced(*old(value), *final(value), replacements@),
{
    let mut taken = Yaml::Null;
    std::mem::swap(&mut taken, value);
    match taken {
        Yaml::Sequence(items) => {
            let mut rest = items;
            let ghost all = rest@;
            let mut done: Vec<Yaml> = Vec::new();
            while rest.len() > 0
                invariant
                    done@.len() + rest@.len() == all.len(),
                    rest@ == all.skip(done@.len() as int),
                    forall|i: int|
                        0 <= i < done@.len() ==> target_item_replaced(
                            #[trigger] all[i],
                            done@[i],
                            replacements@,
                        ),
                decreases rest@.len(),
            {
                let item = rest.remove(0);
                assert(item == all[done@.len() as int]);
                let out = replaced_item(item, replacements);
                done.push(out);
                assert(rest@ =~= all.skip(done@.len() as int));
            }
            *value = Yaml::Sequence(done);
        },
        other => {
            *value = replaced_item(other, replacements);
        },
    }
}

/// The text of a string key.
pub open spec fn key_text(k: Yaml) -> Option<Seq<char>> {
    match k {
        Yaml::Str(s) => Some(s@),
        _ => None,
    }
}

/// The stable name a key is renamed to, if any.
pub open spec fn key_rename(k: Yaml, m: Seq<(String, String)>) -> Option<Seq<char>> {
    match k {
        Yaml::Str(s) => lookup(m, s@),
        _ => None,
    }
}

/// One entry of a mapping after renaming, as text: its key's string (if
/// it is one), whether the key was renamed, and its value.
pub struct RenamedSlot {
    /// The entry the slot's key comes from.
    pub origin: int,
    /// The renamed key, when the key was renamed.
    pub renamed: Option<Seq<char>>,
    /// The entry whose value the slot holds.
    pub value_from: int,
}

/// The text a slot's key has, if it is a string.
pub open spec fn slot_text(es: Seq<YamlEntry>, s: RenamedSlot) -> Option<Seq<char>> {
    match s.renamed {
        Some(t) => Some(t),
        None => key_text(es[s.origin].key),
    }
}

/// The first slot whose key is the string `t`.
pub open spec fn slot_with_text(es: Seq<YamlEntry>, slots: Seq<RenamedSlot>, t: Seq<char>) -> Option<int>
    decreases slots.len(),
{
    if slots.len() == 0 {
        None
    } else {
        match slot_with_text(es, slots.drop_last(), t) {
            Some(i) => Some(i),
            None => if slot_text(es, slots.last()) == Some(t) {
                Some(slots.len() - 1)
            } else {
                None
            },
        }
    }
}

/// Inserting entry `n` of `es` under its renamed key, the way a mapping
/// inserts: a string key already present keeps its place and takes the
/// new value; any other key is appended.
pub open spec fn rename_slots(es: Seq<YamlEntry>, m: Seq<(String, String)>, n: nat) -> Seq<RenamedSlot>
    decreases n,
{
    if n == 0 || n > es.len() {
        seq![]
    } else {
        let acc = rename_slots(es, m, (n - 1) as nat);
        let i = n - 1;
        let slot = RenamedSlot { origin: i, renamed: key_rename(es[i].key, m), value_from: i };
        match slot_text(es, slot) {
            Some(t) => match slot_with_text(es, acc, t) {
                Some(j) => acc.update(j, RenamedSlot { value_from: i, ..acc[j] }),
                None => acc.push(slot),
            },
            None => acc.push(slot),
        }
    }
}

/// An entry as a slot describes it.
pub open spec fn entry_matches_slot(e: YamlEntry, es: Seq<YamlEntry>, s: RenamedSlot) -> bool {
    &&& e.value == es[s.value_from].value
    &&& match s.renamed {
        Some(t) => e.key matches Yaml::Str(k) && k@ == t && e.key_debug@ == string_key_debug(t),
        None => e.key == es[s.origin].key && e.key_debug == es[s.origin].key_debug,
    }
}

fn slot_index(out: &Vec<YamlEntry>, t: &str) -> (r: Option<usize>)
    ensures
        match r {
            Some(j) => j < out@.len() && key_text(out@[j as int].key) == Some(t@) && forall|k: int|
                0 <= k < j ==> key_text(#[trigger] out@[k].key) != Some(t@),
            None => forall|k: int| 0 <= k < out@.len() ==> key_text(#[trigger] out@[k].key) != Some(t@),
        },
{
    let mut j: usize = 0;
    while j < out.len()
        invariant
            j <= out@.len(),
            forall|k: int| 0 <= k < j ==> key_text(#[trigger] out@[k].key) != Some(t@),
        decreases out.len() - j,
    {
        let hit = match &out[j].key {
            Yaml::Str(k) => crate::text::str_eq(k.as_str(), t),
            _ => false,
        };
        if hit {
            return Some(j);
        }
        j += 1;
    }
    None
}

/// Rename mapping keys to their stable names, keeping the order of the
/// entries. A renamed key that meets a string key already placed takes
/// that entry's place with its own value, as inserting into a mapping does.
pub fn rename_yaml_keys(map: &mut Vec<YamlEntry>, replacements: &Vec<(String, String)>)
    ensures
        final(map)@.len() == rename_slots(old(map)@, replacements@, old(map)@.len()).len(),
        forall|i: int|
            0 <= i < final(map)@.len() ==> entry_matches_slot(
                #[trigger] final(map)@[i],
                old(map)@,
                rename_slots(old(map)@, replacements@, old(map)@.len())[i],
            ),
{
    let mut rest: Vec<YamlEntry> = Vec::new();
    std::mem::swap(map, &mut rest);
    let ghost es = rest@;
    assert(es.len() == rest.len());
    let mut n: usize = 0;
    while rest.len() > 0
        invariant
            es.len() <= usize::MAX,
            n + rest@.len() == es.len(),
            rest@ == es.skip(n as int),
            map@.len() == rename_slots(es, replacements@, n as nat).len(),
            forall|i: int|
                0 <= i < map@.len() ==> entry_matches_slot(
                    #[trigger] map@[i],
                    es,
                    rename_slots(es, replacements@, n as nat)[i],
                ),
            forall|i: int|
                0 <= i < map@.len() ==> key_text(#[trigger] map@[i].key) == slot_text(
                    es,
                    rename_slots(es, replacements@, n as nat)[i],
                ),
        decreases rest@.len(),
    {
        let entry = rest.remove(0);
        assert(entry == es[n as int]);
        let stable = match &entry.key {
            Yaml::Str(k) => match lookup_pair(replacements, k.as_str()) {
                Some(t) => Some(t.to_string()),
                None => None,
            },
            _ => None,
        };
        let text = match &stable {
            Some(t) => Some(t.clone()),
            None => match &entry.key {
                Yaml::Str(k) => Some(k.clone()),
                _ => None,
            },
        };
        proof {
            lemma_slot_with_text(es, rename_slots(es, replacements@, n as nat), map@);
        }
        let place = match &text {
            Some(t) => slot_index(map, t.as_str()),
            None => None,
        };
        let YamlEntry { key, key_debug, value } = entry;
        match place {
            Some(j) => {
                let mut old_entry = map.remove(j);
                old_entry.value = value;
                map.insert(j, old_entry);
            },
            None => {
                let new_entry = match stable {
                    Some(t) => {
                        let mut debug = String::new();
                        push_str(&mut debug, "String(");
                        let quoted = debug_str(t.as_str());
                        push_str(&mut debug, quoted.as_str());
                        push_str(&mut debug, ")");
                        YamlEntry { key: Yaml::Str(t), key_debug: debug, value }
                    },
                    None => YamlEntry { key, key_debug, value },
                };
                map.push(new_entry);
            },
        }
        n += 1;
        assert(rest@ =~= es.skip(n as int));
    }
}

/// The first slot with a string key is where the rebuilt mapping first has
/// that key.
proof fn lemma_slot_with_text(es: Seq<YamlEntry>, slots: Seq<RenamedSlot>, out: Seq<YamlEntry>)
    requires
        out.len() == slots.len(),
        forall|i: int| 0 <= i < out.len() ==> key_text(#[trigger] out[i].key) == slot_text(es, slots[i]),
    ensures
        forall|t: Seq<char>|
            #![trigger slot_with_text(es, slots, t)]
            match slot_with_text(es, slots, t) {
                Some(j) => 0 <= j < out.len() && key_text(out[j].key) == Some(t) && forall|k: int|
                    0 <= k < j ==> key_text(#[trigger] out[k].key) != Some(t),
                None => forall|k: int| 0 <= k < out.len() ==> key_text(#[trigger] out[k].key) != Some(t),
            },
    decreases slots.len(),
{
    if slots.len() > 0 {
        lemma_slot_with_text(es, slots.drop_last(), out.drop_last());
        assert forall|t: Seq<char>|
            #![trigger slot_with_text(es, slots, t)]
            match slot_with_text(es, slots, t) {
                Some(j) => 0 <= j < out.len() && key_text(out[j].key) == Some(t) && forall|k: int|
                    0 <= k < j ==> key_text(#[trigger] out[k].key) != Some(t),
                None => forall|k: int| 0 <= k < out.len() ==> key_text(#[trigger] out[k].key) != Some(t),
            } by {
            let inner = slot_with_text(es, slots.drop_last(), t);
            assert(forall|k: int| 0 <= k < out.len() - 1 ==> out.drop_last()[k] == out[k]);
            assert(key_text(out[out.len() - 1].key) == slot_text(es, slots[slots.len() - 1]));
        }
    }
}

} // verus!
