use rhei_cli::json::Json;
use rhei_cli::session_files::{
    edit_pairs, file_operation_summary, note_written_file, render_files_changed, FileOperation,
};
use rhei_cli::session_render::{
    render_session_report, render_tool_step, SessionEvent, SessionTranscript, ToolResult,
};

fn s(v: &str) -> Json {
    Json::Str(v.to_string())
}

fn obj(members: Vec<(&str, Json)>) -> Json {
    Json::Object(members.into_iter().map(|(k, v)| (k.to_string(), v)).collect())
}

fn op(kind: &str, step: usize) -> FileOperation {
    FileOperation { kind: kind.to_string(), arguments: Json::Null, step }
}

fn pairs(v: &[(&str, &str)]) -> Vec<(String, String)> {
    v.iter().map(|(a, b)| (a.to_string(), b.to_string())).collect()
}

#[test]
fn operation_summaries_group_runs_of_the_same_verb() {
    assert_eq!(file_operation_summary(&vec![op("write", 5)]), "written in step 5");
    assert_eq!(
        file_operation_summary(&vec![op("write", 2), op("edit", 4), op("multiedit", 6)]),
        "written in step 2, edited in steps 4, 6"
    );
    assert_eq!(
        file_operation_summary(&vec![op("add", 1), op("update", 3), op("add", 9), op("rename", 10)]),
        "added in step 1, updated in step 3, added in step 9, rename in step 10"
    );
    assert_eq!(file_operation_summary(&Vec::new()), "");
}

#[test]
fn edit_pairs_read_lists_and_single_pairs() {
    let multi = obj(vec![(
        "edits",
        Json::Array(vec![
            obj(vec![("oldText", s("a")), ("newText", s("b"))]),
            obj(vec![("unrelated", s("x"))]),
            obj(vec![("old_string", s("c"))]),
        ]),
    )]);
    assert_eq!(edit_pairs(&multi), pairs(&[("a", "b"), ("c", "")]));
    let single = obj(vec![("old_string", s("x")), ("new_string", s("y"))]);
    assert_eq!(edit_pairs(&single), pairs(&[("x", "y")]));
    assert!(edit_pairs(&obj(vec![("content", s("z"))])).is_empty());
    // A non-text value under the first name hides the second name.
    let shadowed = obj(vec![("oldText", Json::Bool(true)), ("old_string", s("q"))]);
    assert!(edit_pairs(&shadowed).is_empty());
}

#[test]
fn written_files_keep_first_write_order_and_skip_deletions() {
    let mut files: Vec<(String, Vec<FileOperation>)> = Vec::new();
    note_written_file(&mut files, "Write", obj(vec![("file_path", s("/w/a.rs")), ("content", s("x"))]), 1);
    note_written_file(&mut files, "Read", obj(vec![("path", s("/w/b.rs"))]), 2);
    note_written_file(&mut files, "MultiEdit", obj(vec![("path", s("/w/b.rs"))]), 3);
    note_written_file(&mut files, "edit", obj(vec![("path", s("/w/a.rs"))]), 4);
    let changes = Json::Array(vec![
        obj(vec![("path", s("/w/c.rs")), ("kind", s("add"))]),
        obj(vec![("path", s("/w/d.rs")), ("kind", s("delete"))]),
        obj(vec![("path", s("/w/a.rs"))]),
        obj(vec![("kind", s("update"))]),
    ]);
    note_written_file(&mut files, "file_change", obj(vec![("changes", changes)]), 5);
    let paths: Vec<&str> = files.iter().map(|(p, _)| p.as_str()).collect();
    assert_eq!(paths, vec!["/w/a.rs", "/w/b.rs", "/w/c.rs"]);
    let a: Vec<(&str, usize)> = files[0].1.iter().map(|o| (o.kind.as_str(), o.step)).collect();
    assert_eq!(a, vec![("write", 1), ("edit", 4), ("change", 5)]);
    assert_eq!(files[1].1[0].kind, "multiedit");
    assert_eq!(files[2].1[0].kind, "add");
}

#[test]
fn the_recap_shows_content_or_edits_relative_to_the_root() {
    let mut files: Vec<(String, Vec<FileOperation>)> = Vec::new();
    note_written_file(&mut files, "Write", obj(vec![("path", s("/w/a.rs")), ("content", s("fn a() {}\n"))]), 1);
    note_written_file(
        &mut files,
        "Edit",
        obj(vec![("path", s("/w/b.rs")), ("old_string", s("x")), ("new_string", s("y"))]),
        2,
    );
    let mut out = String::from("before\n");
    render_files_changed(&mut out, &files, Some("/w/"));
    assert_eq!(
        out,
        "before\n## Files produced\n\n\
         _A recap of the editing steps above, grouped by file._\n\n\
         ### `a.rs` — written in step 1\n\n\
         <details><summary>content written in step 1</summary>\n\n````\nfn a() {}\n````\n\n</details>\n\n\
         ### `b.rs` — edited in step 2\n\n\
         <details><summary>edits</summary>\n\nStep 2 replaced:\n````\nx\n````\nwith:\n````\ny\n````\n\n</details>\n\n"
    );
    let mut empty = String::from("same");
    render_files_changed(&mut empty, &Vec::new(), None);
    assert_eq!(empty, "same");
}

#[test]
fn a_tool_step_names_its_status_argument_and_output() {
    let results = vec![
        ("t1".to_string(), ToolResult { is_error: false, text: "a\nb\n".to_string(), log_line: 7 }),
        ("t2".to_string(), ToolResult { is_error: true, text: String::new(), log_line: 9 }),
    ];
    let mut out = String::new();
    render_tool_step(&mut out, &results, Some("/w"), false, 3, "t1", "Bash", "command", "ls /w/src");
    assert_eq!(
        out,
        "### Step 3 · Bash — ok\n\n**command:** `ls /w/src`\n\n\
         <details><summary><b>Output of step 3</b> · 2 lines</summary>\n\n````\na\nb\n````\n\n</details>\n\n"
    );
    let mut out = String::new();
    render_tool_step(&mut out, &results, None, false, 4, "t2", "Read", "path", "/w/a.rs");
    assert_eq!(
        out,
        "### Step 4 · Read — error\n\n**path:** `/w/a.rs`\n\n\
         <details><summary><b>Output of step 4</b> · empty</summary>\n\n````\n\n````\n\n</details>\n\n"
    );
    let mut out = String::new();
    render_tool_step(&mut out, &results, Some("/w"), false, 5, "none", "Task", "prompt", "two\nlines");
    assert_eq!(out, "### Step 5 · Task — no result recorded\n\n**prompt:**\n\n````\ntwo\nlines\n````\n\n");
    let mut out = String::new();
    render_tool_step(&mut out, &results, Some("/w"), false, 6, "none", "Task", "path", "/w");
    assert_eq!(out, "### Step 6 · Task — no result recorded\n\n**path:** `/w`\n\n");
    let mut out = String::new();
    render_tool_step(&mut out, &results, None, false, 7, "none", "Task", "id", "");
    assert_eq!(out, "### Step 7 · Task — no result recorded\n\n**id:** (none)\n\n");
}

fn header() -> Vec<(String, String)> {
    pairs(&[("task", "1"), ("state", "working"), ("agent", "codex"), ("started", "t0"), ("worktree_root", "/w")])
}

fn transcript(events: Vec<SessionEvent>) -> SessionTranscript {
    SessionTranscript {
        header: header(),
        exit: pairs(&[("duration", "3s"), ("code", "0")]),
        prompt: Some("echoed".to_string()),
        unsupported_stream: None,
        plain_output: None,
        events,
        results: vec![("c1".to_string(), ToolResult { is_error: false, text: "done".to_string(), log_line: 4 })],
        usage: Some("12 in / 3 out".to_string()),
    }
}

const HEAD: &str = "# 1 — working\n\n**Agent**: codex\n**Started**: t0 · **Duration**: 3s · **Exit**: 0\n**Log**: `log.jsonl`\n\nMETRICS\n";

#[test]
fn a_session_report_has_prompt_actions_files_and_outcome() {
    let events = vec![
        SessionEvent::Thinking("hmm\n".to_string()),
        SessionEvent::Text("I will write.\n\nDone.".to_string()),
        SessionEvent::ToolCall {
            id: "c1".to_string(),
            name: "Write".to_string(),
            arguments: obj(vec![("path", s("/w/x.md")), ("content", s("hi"))]),
            label: "path".to_string(),
            value: "/w/x.md".to_string(),
        },
    ];
    let out = render_session_report(transcript(events), Some("do it".to_string()), "log.jsonl", "s", "METRICS\n", false);
    let expected = format!(
        "{HEAD}## Prompt\n\n<details><summary>full prompt</summary>\n\n````\ndo it\n````\n\n</details>\n\n\
         ## Agent actions\n\n\
         <details><summary><i>Agent thinking</i></summary>\n\n````\nhmm\n````\n\n</details>\n\n\
         > **Agent**\n>\n> I will write.\n>\n> Done.\n\n\
         ### Step 1 · Write — ok\n\n**path:** `x.md`\n\n\
         <details><summary><b>Output of step 1</b> · 1 line</summary>\n\n````\ndone\n````\n\n</details>\n\n\
         ## Files produced\n\n_A recap of the editing steps above, grouped by file._\n\n\
         ### `x.md` — written in step 1\n\n<details><summary>content written in step 1</summary>\n\n````\nhi\n````\n\n</details>\n\n\
         ## Outcome\n\n**Last reported usage**: `12 in / 3 out`\n"
    );
    assert_eq!(out, expected);
}

#[test]
fn the_echoed_prompt_stands_in_and_a_missing_prompt_is_said() {
    let out = render_session_report(transcript(Vec::new()), None, "log.jsonl", "s", "METRICS\n", false);
    assert!(out.contains("````\nechoed\n````"));
    let mut t = transcript(Vec::new());
    t.prompt = None;
    t.usage = None;
    let out = render_session_report(t, None, "log.jsonl", "s", "METRICS\n", false);
    assert_eq!(
        out,
        format!("{HEAD}## Prompt\n\n<details><summary>full prompt</summary>\n\n````\n(no prompt recorded)\n````\n\n</details>\n\n## Agent actions\n\n")
    );
}

#[test]
fn plain_output_and_unsupported_streams_render_without_actions() {
    let mut t = transcript(Vec::new());
    t.plain_output = Some("raw\n".to_string());
    t.prompt = None;
    let out = render_session_report(t, None, "log.jsonl", "s", "METRICS\n", false);
    assert_eq!(out, format!("{HEAD}## Session output\n\n````\nraw\n````\n"));
    let mut t = transcript(Vec::new());
    t.unsupported_stream = Some("stream not supported".to_string());
    t.plain_output = Some("raw".to_string());
    let out = render_session_report(t, None, "log.jsonl", "s", "METRICS\n", false);
    assert_eq!(
        out,
        format!("{HEAD}## Prompt\n\n<details><summary>full prompt</summary>\n\n````\nechoed\n````\n\n</details>\n\n> stream not supported\n")
    );
}

#[test]
fn a_pi_session_recaps_the_files_it_produced() {
    let events = vec![
        SessionEvent::ToolCall {
            id: "c1".to_string(),
            name: "read".to_string(),
            arguments: obj(vec![("path", s("suite/build.gradle"))]),
            label: "path".to_string(),
            value: "suite/build.gradle".to_string(),
        },
        SessionEvent::ToolCall {
            id: "c2".to_string(),
            name: "write".to_string(),
            arguments: obj(vec![("path", s("suite/Test.java")), ("content", s("class Test {}"))]),
            label: "path".to_string(),
            value: "suite/Test.java".to_string(),
        },
        SessionEvent::Text("Covered the API.".to_string()),
    ];
    let mut t = transcript(events);
    t.results = vec![
        ("c1".to_string(), ToolResult { is_error: false, text: "plugins { }".to_string(), log_line: 3 }),
        ("c2".to_string(), ToolResult { is_error: false, text: "ok".to_string(), log_line: 5 }),
    ];
    let out = render_session_report(t, Some("# Task plan.1\ncover the API".to_string()), "log", "s", "", false);
    assert!(out.contains("# Task plan.1\ncover the API"));
    assert!(out.contains("`suite/build.gradle`"));
    assert!(out.contains("plugins { }"));
    assert!(out.contains("## Files produced"));
    assert!(out.contains("### `suite/Test.java`"));
    assert!(out.contains("class Test {}"));
    assert!(out.contains("Covered the API."));
}
