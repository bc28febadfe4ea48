//! Commands printed for the user to paste back into a POSIX shell.
use vstd::prelude::*;
use crate::report::Report;
use crate::text::{chars_of, join, lemma_join_push, push_str};

verus! {

/// Characters a shell word may hold without quoting.
pub open spec fn shell_safe(c: char) -> bool {
    ('a' <= c && c <= 'z') || ('A' <= c && c <= 'Z') || ('0' <= c && c <= '9') || c == '_' || c
        == '@' || c == '%' || c == '+' || c == '=' || c == ':' || c == ',' || c == '.' || c == '/'
        || c == '-'
}

/// The quoted body of a word: every `'` closed, escaped and reopened.
pub open spec fn quote_body(w: Seq<char>) -> Seq<char>
    decreases w.len(),
{
    if w.len() == 0 {
        seq![]
    } else {
        quote_body(w.drop_last()) + if w.last() == '\'' {
            seq!['\'', '\\', '\'', '\'']
        } else {
            seq![w.last()]
        }
    }
}

/// A word as a shell reads it back unchanged: bare when it is non-empty
/// and all safe characters, single-quoted otherwise.
pub open spec fn shell_quote_spec(w: Seq<char>) -> Seq<char> {
    if w.len() > 0 && forall|i: int| 0 <= i < w.len() ==> shell_safe(#[trigger] w[i]) {
        w
    } else {
        seq!['\''] + quote_body(w) + seq!['\'']
    }
}

/// A command line: each word quoted, joined by spaces.
pub open spec fn shell_command_spec(words: Seq<Seq<char>>) -> Seq<char> {
    join(words.map_values(|w: Seq<char>| shell_quote_spec(w)), seq![' '])
}

fn safe_char(c: char) -> (r: bool)
    ensures
        r == shell_safe(c),
{
    ('a' <= c && c <= 'z') || ('A' <= c && c <= 'Z') || ('0' <= c && c <= '9') || c == '_' || c
        == '@' || c == '%' || c == '+' || c == '=' || c == ':' || c == ',' || c == '.' || c == '/'
        || c == '-'
}

/// Quote one word for a POSIX shell.
pub fn shell_quote(word: &str) -> (out: String)
    ensures
        out@ == shell_quote_spec(word@),
{
    let cs = chars_of(word);
    let mut safe = cs.len() > 0;
    let mut i: usize = 0;
    while i < cs.len()
        invariant
            i <= cs@.len(),
            cs@ == word@,
            safe == (cs@.len() > 0 && forall|k: int| 0 <= k < i ==> shell_safe(#[trigger] cs@[k])),
        decreases cs.len() - i,
    {
        if !safe_char(cs[i]) {
            safe = false;
        }
        i += 1;
    }
    if safe {
        return word.to_string();
    }
    let mut out = String::new();
    out.push('\'');
    let ghost start = out@;
    let mut j: usize = 0;
    assert(cs@.take(0) =~= Seq::<char>::empty());
    while j < cs.len()
        invariant
            j <= cs@.len(),
            cs@ == word@,
            out@ == start + quote_body(cs@.take(j as int)),
        decreases cs.len() - j,
    {
        assert(cs@.take(j + 1).drop_last() =~= cs@.take(j as int));
        if cs[j] == '\'' {
            out.push('\'');
            out.push('\\');
            out.push('\'');
            out.push('\'');
        } else {
            out.push(cs[j]);
        }
        j += 1;
        assert(out@ =~= start + quote_body(cs@.take(j as int)));
    }
    assert(cs@.take(cs@.len() as int) =~= cs@);
    out.push('\'');
    out
}

/// Quote every word and join them with spaces.
pub fn shell_command(words: &Vec<String>) -> (out: String)
    ensures
        out@ == shell_command_spec(words@.map_values(|w: String| w@)),
{
    let ghost views = words@.map_values(|w: String| w@).map_values(|w: Seq<char>| shell_quote_spec(w));
    let mut out = String::new();
    let mut i: usize = 0;
    assert(views.take(0) =~= Seq::<Seq<char>>::empty());
    while i < words.len()
        invariant
            i <= words@.len(),
            views == words@.map_values(|w: String| w@).map_values(|w: Seq<char>| shell_quote_spec(w)),
            out@ == join(views.take(i as int), seq![' ']),
        decreases words.len() - i,
    {
        proof {
            lemma_join_push(views.take(i as int), seq![' '], views[i as int]);
            assert(views.take(i + 1) =~= views.take(i as int).push(views[i as int]));
        }
        if i > 0 {
            out.push(' ');
        }
        let q = shell_quote(words[i].as_str());
        push_str(&mut out, q.as_str());
        i += 1;
    }
    assert(views.take(words@.len() as int) =~= views);
    out
}

/// The views of a list of strings.
pub open spec fn words_of(v: Seq<String>) -> Seq<Seq<char>> {
    v.map_values(|w: String| w@)
}

/// `flag value` for each value.
pub open spec fn flagged(flag: Seq<char>, values: Seq<Seq<char>>) -> Seq<Seq<char>>
    decreases values.len(),
{
    if values.len() == 0 {
        seq![]
    } else {
        flagged(flag, values.drop_last()).push(flag).push(values.last())
    }
}

/// The words of an `instantiate` invocation: the template, each values file
/// after `--values`, the input arguments, the extra inputs, each `--set` and
/// `--set-file` assignment, and `--output` with the output directory.
pub open spec fn instantiation_words(
    template: Seq<char>,
    input_args: Seq<Seq<char>>,
    set_values: Seq<Seq<char>>,
    set_files: Seq<Seq<char>>,
    values_files: Seq<Seq<char>>,
    output_dir: Option<Seq<char>>,
    extra_inputs: Seq<Seq<char>>,
) -> Seq<Seq<char>> {
    seq!["rhei"@, "instantiate"@, template] + flagged("--values"@, values_files) + input_args
        + extra_inputs + flagged("--set"@, set_values) + flagged("--set-file"@, set_files)
        + match output_dir {
        Some(d) => seq!["--output"@, d],
        None => seq![],
    }
}

fn push_all(words: &mut Vec<String>, items: &Vec<String>)
    ensures
        words_of(final(words)@) == words_of(old(words)@) + words_of(items@),
{
    let ghost start = words_of(words@);
    let mut i: usize = 0;
    while i < items.len()
        invariant
            i <= items@.len(),
            words_of(words@) == start + words_of(items@).take(i as int),
        decreases items.len() - i,
    {
        let ghost before = words@;
        let w = items[i].clone();
        assert(w@ == items@[i as int]@);
        words.push(w);
        assert(words_of(words@) =~= words_of(before).push(w@));
        assert(words_of(items@).take(i + 1) =~= words_of(items@).take(i as int).push(w@));
        i += 1;
    }
    assert(words_of(items@).take(items@.len() as int) =~= words_of(items@));
}

fn push_flagged(words: &mut Vec<String>, flag: &str, items: &Vec<String>)
    ensures
        words_of(final(words)@) == words_of(old(words)@) + flagged(flag@, words_of(items@)),
{
    let ghost start = words_of(words@);
    let mut i: usize = 0;
    assert(words_of(items@).take(0) =~= Seq::<Seq<char>>::empty());
    while i < items.len()
        invariant
            i <= items@.len(),
            words_of(words@) == start + flagged(flag@, words_of(items@).take(i as int)),
        decreases items.len() - i,
    {
        assert(words_of(items@).take(i + 1).drop_last() =~= words_of(items@).take(i as int));
        let ghost before = words@;
        let f = flag.to_string();
        let w = items[i].clone();
        assert(f@ == flag@);
        assert(w@ == items@[i as int]@);
        words.push(f);
        words.push(w);
        assert(words_of(words@) =~= words_of(before).push(flag@).push(w@));
        assert(words_of(items@).take(i + 1).last() == w@);
        i += 1;
    }
    assert(words_of(items@).take(items@.len() as int) =~= words_of(items@));
}

/// The `rhei instantiate` invocation the user made, plus `extra_inputs`,
/// quoted so that it pastes as-is. `values_files` and `output_dir` are the
/// paths as a report shows them.
pub fn format_template_instantiation_command(
    template: &str,
    input_args: &Vec<String>,
    set_values: &Vec<String>,
    set_files: &Vec<String>,
    values_files: &Vec<String>,
    output_dir: Option<&str>,
    extra_inputs: &Vec<String>,
) -> (out: String)
    ensures
        out@ == shell_command_spec(
            instantiation_words(
                template@,
                words_of(input_args@),
                words_of(set_values@),
                words_of(set_files@),
                words_of(values_files@),
                match output_dir {
                    Some(d) => Some(d@),
                    None => None,
                },
                words_of(extra_inputs@),
            ),
        ),
{
    let mut words: Vec<String> = Vec::new();
    words.push("rhei".to_string());
    words.push("instantiate".to_string());
    words.push(template.to_string());
    push_flagged(&mut words, "--values", values_files);
    push_all(&mut words, input_args);
    push_all(&mut words, extra_inputs);
    push_flagged(&mut words, "--set", set_values);
    push_flagged(&mut words, "--set-file", set_files);
    let ghost before_output = words_of(words@);
    match output_dir {
        Some(d) => {
            words.push("--output".to_string());
            words.push(d.to_string());
            assert(words_of(words@) =~= before_output + seq!["--output"@, d@]);
        },
        None => {
            assert(words_of(words@) =~= before_output + Seq::<Seq<char>>::empty());
        },
    }
    assert(words_of(words@) =~= instantiation_words(
        template@,
        words_of(input_args@),
        words_of(set_values@),
        words_of(set_files@),
        words_of(values_files@),
        match output_dir {
            Some(d) => Some(d@),
            None => None,
        },
        words_of(extra_inputs@),
    ));
    shell_command(&words)
}

/// The refusal of `instantiate` when the output directory is taken. An
/// explicit `--output` is told to pick another path or remove that one;
/// the default one is explained and answered with the same invocation under
/// `suggestion`, a free sibling directory. Paths come as a report shows them.
pub fn instantiate_output_exists_error(
    output_dir: &str,
    template: &str,
    input_args: &Vec<String>,
    explicit_output: bool,
    suggestion: &str,
) -> (out: Report)
    ensures
        explicit_output ==> out.message@ == "output path '"@ + output_dir@ + "' already exists"@
            && crate::provenance::opt_text(out.help) == Some("pass a --output path that does not exist yet, or remove that one: rm -rf "@
            + shell_quote_spec(output_dir@)),
        !explicit_output ==> out.message@ == "'"@ + output_dir@
            + "' already exists, so template '"@ + template@
            + "' has already been instantiated here under that name. A second copy needs its own directory, because the directory name becomes the rhei id every one of its ticket ids is prefixed with."@
            && crate::provenance::opt_text(out.help) == Some("name it for what it is about:\n  "@ + shell_command_spec(
            seq!["rhei"@, "instantiate"@, template@] + words_of(input_args@) + seq![
                "--output"@,
                suggestion@,
            ],
        )),
{
    if explicit_output {
        let mut message = String::new();
        push_str(&mut message, "output path '");
        push_str(&mut message, output_dir);
        push_str(&mut message, "' already exists");
        let mut help = String::new();
        push_str(&mut help, "pass a --output path that does not exist yet, or remove that one: rm -rf ");
        let quoted = shell_quote(output_dir);
        push_str(&mut help, quoted.as_str());
        return Report::with_help(message, help);
    }
    let mut words: Vec<String> = Vec::new();
    let r = "rhei".to_string();
    let n = "instantiate".to_string();
    let t = template.to_string();
    assert(r@ == "rhei"@ && n@ == "instantiate"@ && t@ == template@);
    words.push(r);
    words.push(n);
    words.push(t);
    assert(words_of(words@) =~= seq!["rhei"@, "instantiate"@, template@]);
    push_all(&mut words, input_args);
    let ghost mid = words_of(words@);
    assert(mid =~= seq!["rhei"@, "instantiate"@, template@] + words_of(input_args@));
    let o = "--output".to_string();
    let sg = suggestion.to_string();
    assert(o@ == "--output"@);
    assert(sg@ == suggestion@);
    words.push(o);
    words.push(sg);
    assert(words_of(words@) =~= seq!["rhei"@, "instantiate"@, template@] + words_of(input_args@)
        + seq!["--output"@, suggestion@]);
    let mut message = String::new();
    push_str(&mut message, "'");
    push_str(&mut message, output_dir);
    push_str(&mut message, "' already exists, so template '");
    push_str(&mut message, template);
    push_str(
        &mut message,
        "' has already been instantiated here under that name. A second copy needs its own directory, because the directory name becomes the rhei id every one of its ticket ids is prefixed with.",
    );
    let mut help = String::new();
    push_str(&mut help, "name it for what it is about:\n  ");
    let command = shell_command(&words);
    push_str(&mut help, command.as_str());
    Report::with_help(message, help)
}

/// Where `rhei instantiate` goes with the operands it was given.
#[derive(Clone, Copy, Debug, PartialEq, Eq, Structural)]
pub enum InstantiateRoute {
    /// Compose the `--mount`ed blocks directly.
    DirectBlocks,
    /// No template was named: list the available ones.
    ListTemplates,
    /// Instantiate the named template.
    Template,
}

/// The refusal of an operand combination, as message and help.
pub open spec fn route_refusal(has_template: bool, has_mounts: bool, has_inputs: bool, has_seams_or_passes: bool, execute: bool, dry_run: bool) -> Option<(Seq<char>, Seq<char>)> {
    if execute && dry_run {
        Some(("--execute cannot be used together with --dry-run"@,
            "--dry-run renders and validates without writing anything, so there is nothing for --execute to run. Drop one of them."@))
    } else if has_mounts && (has_template || has_inputs) {
        Some(("direct block composition cannot be combined with a positional template or positional inputs"@,
            "use only repeatable `--mount alias=block` operands and qualified `--set alias.input=value` inputs."@))
    } else if !has_mounts && has_seams_or_passes {
        Some(("--seam and --pass require at least one --mount"@, "add --mount ALIAS=BLOCK before declaring a seam or pass"@))
    } else {
        None
    }
}

fn refusal(message: &str, help: &str) -> (out: Report)
    ensures
        out.message@ == message@,
        out.help matches Some(h) && h@ == help@,
{
    let mut m = String::new();
    push_str(&mut m, message);
    let mut h = String::new();
    push_str(&mut h, help);
    Report::with_help(m, h)
}

/// Route `rhei instantiate`: `--execute` and `--dry-run` exclude each other;
/// mounts opt into direct composition and exclude a positional template and
/// inputs; seams and passes need a mount; without a template the available
/// ones are listed.
pub fn instantiate_route(
    has_template: bool,
    has_mounts: bool,
    has_inputs: bool,
    has_seams_or_passes: bool,
    execute: bool,
    dry_run: bool,
) -> (out: Result<InstantiateRoute, Report>)
    ensures
        match route_refusal(has_template, has_mounts, has_inputs, has_seams_or_passes, execute, dry_run) {
            Some((m, h)) => out matches Err(e) && e.message@ == m && (e.help matches Some(x) && x@ == h),
            None => out matches Ok(r) && r == (if has_mounts {
                InstantiateRoute::DirectBlocks
            } else if !has_template {
                InstantiateRoute::ListTemplates
            } else {
                InstantiateRoute::Template
            }),
        },
{
    if execute && dry_run {
        return Err(refusal("--execute cannot be used together with --dry-run",
            "--dry-run renders and validates without writing anything, so there is nothing for --execute to run. Drop one of them."));
    }
    if has_mounts {
        if has_template || has_inputs {
            return Err(refusal("direct block composition cannot be combined with a positional template or positional inputs",
                "use only repeatable `--mount alias=block` operands and qualified `--set alias.input=value` inputs."));
        }
        return Ok(InstantiateRoute::DirectBlocks);
    }
    if has_seams_or_passes {
        return Err(refusal("--seam and --pass require at least one --mount", "add --mount ALIAS=BLOCK before declaring a seam or pass"));
    }
    if !has_template {
        return Ok(InstantiateRoute::ListTemplates);
    }
    Ok(InstantiateRoute::Template)
}

/// Where an instantiation is rendered before it is placed.
#[derive(Clone, Copy, Debug, PartialEq, Eq, Structural)]
pub enum InstantiateTarget {
    /// A scratch directory nobody sees (`--dry-run`).
    Scratch,
    /// A hidden sibling of the output, renamed into place once valid (a new
    /// member of an enclosing project).
    HiddenStaging,
    /// The output directory itself.
    Output,
}

/// Whether the instantiation becomes a new project member, published by a
/// no-replace rename: a real run of a workspace-layout template whose output
/// lies inside a project.
pub open spec fn prospective_member(dry_run: bool, workspace_layout: bool, inside_project: bool) -> bool {
    !dry_run && workspace_layout && inside_project
}

/// Choose where to render.
pub fn instantiate_target(dry_run: bool, workspace_layout: bool, inside_project: bool) -> (out: InstantiateTarget)
    ensures
        out == (if dry_run {
            InstantiateTarget::Scratch
        } else if prospective_member(dry_run, workspace_layout, inside_project) {
            InstantiateTarget::HiddenStaging
        } else {
            InstantiateTarget::Output
        }),
{
    if dry_run {
        InstantiateTarget::Scratch
    } else if workspace_layout && inside_project {
        InstantiateTarget::HiddenStaging
    } else {
        InstantiateTarget::Output
    }
}

/// What a failed placement, settings preparation or validation leaves behind.
#[derive(Clone, Copy, Debug, PartialEq, Eq, Structural)]
pub enum FailureCleanup {
    /// Remove what was rendered.
    Remove,
    /// Publish the staged member anyway, for inspection.
    PublishStaged,
    /// Leave the rendered output where it is.
    Leave,
}

/// Without `--keep-on-error` a failure removes the rendering; with it a
/// staged member is published for inspection and anything else stays put.
pub fn failure_cleanup(keep_on_error: bool, prospective: bool) -> (out: FailureCleanup)
    ensures
        out == (if !keep_on_error {
            FailureCleanup::Remove
        } else if prospective {
            FailureCleanup::PublishStaged
        } else {
            FailureCleanup::Leave
        }),
{
    if !keep_on_error {
        FailureCleanup::Remove
    } else if prospective {
        FailureCleanup::PublishStaged
    } else {
        FailureCleanup::Leave
    }
}

/// The line an instantiation ends with: what a dry run would have done, or
/// what was done.
pub fn instantiation_done_line(dry_run: bool, name: &str, output_dir: &str) -> (out: String)
    ensures
        dry_run ==> out@ == "Dry run OK: '"@ + name@ + "' would be instantiated into '"@ + output_dir@ + "'."@,
        !dry_run ==> out@ == "Instantiated template '"@ + name@ + "' into '"@ + output_dir@ + "'."@,
{
    let mut out = String::new();
    if dry_run {
        push_str(&mut out, "Dry run OK: '");
        push_str(&mut out, name);
        push_str(&mut out, "' would be instantiated into '");
    } else {
        push_str(&mut out, "Instantiated template '");
        push_str(&mut out, name);
        push_str(&mut out, "' into '");
    }
    push_str(&mut out, output_dir);
    push_str(&mut out, "'.");
    out
}

/// The refusal `instantiate` owes before writing anything: a real run (not
/// `--dry-run`) of a plain template whose output directory already exists.
/// The refusal is `instantiate_output_exists_error`'s; a dry run, or an
/// output that does not exist yet, goes on.
pub fn check_instantiate_output(
    output_exists: bool,
    dry_run: bool,
    output_dir: &str,
    template: &str,
    input_args: &Vec<String>,
    explicit_output: bool,
    suggestion: &str,
) -> (out: Result<(), Report>)
    ensures
        out is Err <==> output_exists && !dry_run,
        out matches Err(e) ==> (explicit_output ==> e.message@ == "output path '"@ + output_dir@ + "' already exists"@
            && crate::provenance::opt_text(e.help) == Some("pass a --output path that does not exist yet, or remove that one: rm -rf "@
            + shell_quote_spec(output_dir@))),
        out matches Err(e) ==> (!explicit_output ==> e.message@ == "'"@ + output_dir@
            + "' already exists, so template '"@ + template@
            + "' has already been instantiated here under that name. A second copy needs its own directory, because the directory name becomes the rhei id every one of its ticket ids is prefixed with."@
            && crate::provenance::opt_text(e.help) == Some("name it for what it is about:\n  "@ + shell_command_spec(
            seq!["rhei"@, "instantiate"@, template@] + words_of(input_args@) + seq![
                "--output"@,
                suggestion@,
            ],
        ))),
{
    if output_exists && !dry_run {
        return Err(instantiate_output_exists_error(output_dir, template, input_args, explicit_output, suggestion));
    }
    Ok(())
}

} // verus!
