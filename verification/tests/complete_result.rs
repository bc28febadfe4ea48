use std::io::{self, Read};

use rhei_cli::complete_result::{complete_result_from_read, read_complete_result};

struct FailingReader;

impl Read for FailingReader {
    fn read(&mut self, _buffer: &mut [u8]) -> io::Result<usize> {
        Err(io::Error::new(io::ErrorKind::Other, "injected read failure"))
    }
}

/// A source read error must be reported rather than accepting partial input.
#[test]
fn reports_an_injected_result_reader_error() {
    let error = read_complete_result(FailingReader, "injected standard input")
        .expect_err("an injected reader error must fail");
    let rendered = error.to_string();
    assert!(
        rendered.contains("failed to read the completion result from injected standard input"),
        "missing source context: {rendered}"
    );
    assert!(rendered.contains("injected read failure"), "missing read error: {rendered}");
}

#[test]
fn a_complete_read_is_the_result() {
    let text = read_complete_result("done\nall of it\n".as_bytes(), "stdin").unwrap();
    assert_eq!(text, "done\nall of it\n");
    let failed = complete_result_from_read(Err("broken pipe".to_string()), "stdin").unwrap_err();
    assert_eq!(failed.to_string(), "failed to read the completion result from stdin: broken pipe");
    assert!(failed.help.is_none());
}
