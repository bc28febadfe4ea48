//! Loading a completion result from an alternate source: the whole text, or
//! a refusal that names the source and the read error.
use vstd::prelude::*;
use crate::report::Report;
use crate::text::push_str;

verus! {

/// Reads everything `reader` yields through `std::io::Read::read_to_string`,
/// giving the error's display text on failure. Nothing is promised of what
/// comes back: it depends on the source.
#[verifier::external_body]
fn read_all<R: std::io::Read>(reader: R) -> (out: Result<String, String>) {
    let mut reader = reader;
    let mut text = String::new();
    match reader.read_to_string(&mut text) {
        Ok(_) => Ok(text),
        Err(err) => Err(err.to_string()),
    }
}

/// The refusal for a failed read of `source`.
pub open spec fn read_error_message(source: Seq<char>, error: Seq<char>) -> Seq<char> {
    "failed to read the completion result from "@ + source + ": "@ + error
}

/// What a completed read of `source` gives: its text, or a refusal that
/// names the source and the read error.
pub fn complete_result_from_read(read: Result<String, String>, source: &str) -> (out: Result<
    String,
    Report,
>)
    ensures
        match read {
            Ok(text) => out matches Ok(t) && t@ == text@,
            Err(error) => out matches Err(r) && r.message@ == read_error_message(source@, error@)
                && r.help is None,
        },
{
    match read {
        Ok(text) => Ok(text),
        Err(error) => {
            let mut message = String::new();
            push_str(&mut message, "failed to read the completion result from ");
            push_str(&mut message, source);
            push_str(&mut message, ": ");
            push_str(&mut message, error.as_str());
            Err(Report::plain(message))
        },
    }
}

/// Read a completion result from `reader`. A failed read is never taken as
/// partial input: it is refused with a message that names `source` and the
/// read error.
pub fn read_complete_result<R: std::io::Read>(reader: R, source: &str) -> (out: Result<
    String,
    Report,
>)
    ensures
        out matches Err(r) ==> r.help is None && exists|error: Seq<char>|
            r.message@ == #[trigger] read_error_message(source@, error),
{
    let read = read_all(reader);
    complete_result_from_read(read, source)
}

} // verus!
