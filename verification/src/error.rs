use vstd::prelude::*;

verus! {

/// The error taxonomy of one refresh: a query returned data of the wrong
/// shape, a single window's record was malformed, or the query command
/// itself could not be run or produced unreadable output.
#[derive(Debug)]
pub enum Error {
    DataFetch(&'static str),
    WindowDataParsing(&'static str),
    ShellCommand(&'static str),
}

/// The message of an error as the output line shows it: a fixed prefix
/// for the variant, then the static detail message.
pub open spec fn error_message(e: Error) -> Seq<char> {
    match e {
        Error::DataFetch(msg) => "Data fetching error: "@ + msg@,
        Error::WindowDataParsing(msg) => "Window data parsing error: "@ + msg@,
        Error::ShellCommand(msg) => "Shell command error: "@ + msg@,
    }
}

impl Error {
    pub fn as_string(&self) -> (r: String)
        ensures
            r@ == error_message(*self),
    {
        match self {
            Error::DataFetch(msg) => {
                let mut s = String::new();
                s.append("Data fetching error: ");
                s.append(msg);
                s
            },
            Error::WindowDataParsing(msg) => {
                let mut s = String::new();
                s.append("Window data parsing error: ");
                s.append(msg);
                s
            },
            Error::ShellCommand(msg) => {
                let mut s = String::new();
                s.append("Shell command error: ");
                s.append(msg);
                s
            },
        }
    }
}

} // verus!
