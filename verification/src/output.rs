use vstd::prelude::*;

verus! {

/// One output record: the single line handed to the status bar per
/// trigger event.
pub struct Output {
    pub text: String,
}

impl Output {
    /// The degraded output emitted in place of a crash: the message
    /// behind a fixed error prefix.
    pub fn with_error(text: &str) -> (r: Output)
        ensures
            r.text@ == "ERROR: "@ + text@,
    {
        let mut t = String::new();
        t.append("ERROR: ");
        t.append(text);
        Output { text: t }
    }
}

} // verus!
