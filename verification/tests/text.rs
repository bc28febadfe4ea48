use rhei_cli::registry::{reg_insert, reg_merge, reg_remove, str_lt};
use rhei_cli::session_report::{
    fenced, quote_agent_text, relative_to_root, render_prompt, render_report_header, session_root,
    truncate_output,
};
use rhei_cli::text::{join_strings, u64_to_string, usize_to_string};

fn pairs(v: &[(&str, &str)]) -> Vec<(String, String)> {
    v.iter().map(|(a, b)| (a.to_string(), b.to_string())).collect()
}

#[test]
fn fences_quotes_and_numbers() {
    assert_eq!(fenced("a\n\n"), "````\na\n````\n");
    assert_eq!(fenced(""), "````\n\n````\n");
    assert_eq!(quote_agent_text("one\n\ntwo\n"), "> **Agent**\n>\n> one\n>\n> two\n\n");
    assert_eq!(usize_to_string(0), "0");
    assert_eq!(u64_to_string(18446744073709551615), "18446744073709551615");
    assert_eq!(join_strings(&vec!["a".to_string(), "b".to_string()], ", "), "a, b");
}

#[test]
fn long_output_is_truncated_on_a_character_boundary() {
    let short = "x".repeat(10);
    assert_eq!(truncate_output(&short, false, Some(3)), short);
    let long = "é".repeat(6000);
    let cut = truncate_output(&long, false, Some(42));
    let kept = "é".repeat(5120);
    assert_eq!(cut, format!("{kept}\n… [1760 bytes truncated — full output in the log at line 42]"));
    assert!(truncate_output(&long, false, None).ends_with("bytes truncated — full text in the log]"));
    assert_eq!(truncate_output(&long, true, None), long);
}

#[test]
fn paths_read_relative_to_the_session_root() {
    assert_eq!(relative_to_root("/w/src/a.rs", Some("/w/")), "src/a.rs");
    assert_eq!(relative_to_root("/w", Some("/w")), "/w");
    assert_eq!(relative_to_root("/wx/a", Some("/w")), "/wx/a");
    assert_eq!(relative_to_root("/w/a", Some("/")), "/w/a");
    assert_eq!(relative_to_root("/w/a", None), "/w/a");
    let header = pairs(&[("checkout_root", "/c"), ("worktree_root", "/t")]);
    assert_eq!(session_root(&header), Some("/t"));
    assert_eq!(session_root(&pairs(&[("checkout_root", "/c")])), Some("/c"));
}

#[test]
fn the_header_says_a_missing_exit_record_rather_than_guessing() {
    let mut out = String::new();
    render_report_header(&mut out, &pairs(&[("target", "codex:openai:m"), ("model_name", "m")]), &pairs(&[("code", "0")]), "logs/x.jsonl", "x");
    assert_eq!(
        out,
        "# x — ?\n\n**Agent**: codex:openai:m · **Model**: m\n · **Exit**: session ended without an exit record\n**Log**: `logs/x.jsonl`\n\n"
    );
    let mut prompt = String::new();
    render_prompt(&mut prompt, None, false);
    assert_eq!(prompt, "");
}

#[test]
fn registries_keep_byte_order_and_replace_by_id() {
    assert!(str_lt("a", "b"));
    assert!(str_lt("ab", "abc"));
    assert!(!str_lt("b", "ab"));
    assert!(str_lt("Z", "a"));
    assert!(!str_lt("x", "x"));
    let mut r: Vec<(String, u32)> = Vec::new();
    assert_eq!(reg_insert(&mut r, "m".into(), 1), None);
    assert_eq!(reg_insert(&mut r, "c".into(), 2), None);
    assert_eq!(reg_insert(&mut r, "x".into(), 3), None);
    assert_eq!(reg_insert(&mut r, "c".into(), 4), Some(2));
    assert_eq!(r, vec![("c".to_string(), 4), ("m".to_string(), 1), ("x".to_string(), 3)]);
    assert_eq!(reg_remove(&mut r, "m"), Some(1));
    assert_eq!(reg_remove(&mut r, "m"), None);
    let merged = reg_merge(r, vec![("a".to_string(), 9), ("x".to_string(), 8)]);
    assert_eq!(merged, vec![("a".to_string(), 9), ("c".to_string(), 4), ("x".to_string(), 8)]);
}
