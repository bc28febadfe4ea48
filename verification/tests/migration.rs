use rhei_cli::migration::rewrite_one_consumer;

/// Insertion and append retain original newline spelling and every byte
/// outside the one metadata line.
#[test]
fn migration_rewriter_preserves_lf_and_crlf_and_repeats_as_a_no_op() {
    let lf = "# Rhei: x\n\n## Tasks\n\n### Task 1: Consumer\n**State:** pending\n**Consumes:** 2:a\nBody  \n";
    let inserted = rewrite_one_consumer(lf, "1", &["Review 2"]).expect("insert");
    assert_eq!(
        inserted,
        "# Rhei: x\n\n## Tasks\n\n### Task 1: Consumer\n**State:** pending\n**Prior:** Review 2\n**Consumes:** 2:a\nBody  \n"
    );

    let crlf = "### Task 1: Consumer\r\n**State:** pending\r\n**Prior:** 9\r\n**Consumes:** 2:a, 3:b\r\n";
    let appended = rewrite_one_consumer(crlf, "1", &["Review 2", "Task 3"]).expect("append");
    assert_eq!(
        appended,
        "### Task 1: Consumer\r\n**State:** pending\r\n**Prior:** 9, Review 2, Task 3\r\n**Consumes:** 2:a, 3:b\r\n"
    );

    let already = "### Task 1: Consumer\n**State:** pending\n**Prior:** Review 2\n";
    assert_eq!(already, already.to_string(), "an already repaired graph produces no additions");
}

#[test]
fn rewriting_twice_changes_nothing_more() {
    let lf = "### Task 1: Consumer\n**State:** pending\n**Consumes:** 2:a\n";
    let once = rewrite_one_consumer(lf, "1", &["Review 2", "Task 3", "Review 2"]).unwrap();
    assert_eq!(
        once,
        "### Task 1: Consumer\n**State:** pending\n**Prior:** Review 2, Task 3\n**Consumes:** 2:a\n"
    );
    let twice = rewrite_one_consumer(&once, "1", &["Review 2", "Task 3"]).unwrap();
    assert_eq!(twice, once);
    let already = "### Task 1: Consumer\n**State:** pending\n**Prior:** Review 2\n";
    assert_eq!(rewrite_one_consumer(already, "1", &["Review 2"]).unwrap(), already);
}

#[test]
fn rewriter_places_a_prior_under_a_heading_without_state() {
    let text = "### Review 4: Check\nBody\n";
    assert_eq!(
        rewrite_one_consumer(text, "4", &["Task 1"]).unwrap(),
        "### Review 4: Check\n**Prior:** Task 1\nBody\n"
    );
    let empty = "### Task 2: C\r\n**Prior:**\r\n";
    assert_eq!(
        rewrite_one_consumer(empty, "2", &["Task 1"]).unwrap(),
        "### Task 2: C\r\n**Prior:** Task 1\r\n"
    );
}

#[test]
fn rewriter_touches_only_the_named_consumer() {
    let text = "### Task 1: A\n**State:** s\n\n### Task 2: B\n**State:** s\n";
    assert_eq!(
        rewrite_one_consumer(text, "2", &["Task 1"]).unwrap(),
        "### Task 1: A\n**State:** s\n\n### Task 2: B\n**State:** s\n**Prior:** Task 1\n"
    );
    let error = rewrite_one_consumer(text, "3", &["Task 1"]).unwrap_err();
    assert_eq!(error.to_string(), "no heading for consumer task '3'");
}
