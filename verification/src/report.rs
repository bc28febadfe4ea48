//! The library's diagnostic: a message and, where the command can say how to
//! recover, a help line.
use vstd::prelude::*;

verus! {

/// A refused operation, told the way the command line prints it.
#[derive(Debug)]
pub struct Report {
    /// What went wrong.
    pub message: String,
    /// How to recover, when there is a known way.
    pub help: Option<String>,
}

impl Report {
    /// A report with a help line.
    pub fn with_help(message: String, help: String) -> (r: Report)
        ensures
            r.message@ == message@,
            r.help matches Some(h) && h@ == help@,
    {
        Report { message, help: Some(help) }
    }

    /// A report without a help line.
    pub fn plain(message: String) -> (r: Report)
        ensures
            r.message@ == message@,
            r.help is None,
    {
        Report { message, help: None }
    }

    /// The message, as printing the report shows it.
    pub fn to_string(&self) -> (s: String)
        ensures
            s@ == self.message@,
    {
        self.message.clone()
    }
}

} // verus!
