use vstd::prelude::*;

verus! {

/// The immutable settings object, loaded once at startup and passed into
/// every component. Styling values are kept as opaque text; `width` is
/// the hard character budget of the whole line.
pub struct Config {
    pub separator: String,
    pub socket_address: String,
    pub empty_text: String,
    pub width: usize,
    pub line_height: String,
    pub background_color: String,
    pub active_background_color: String,
}

pub fn default_width() -> (r: usize)
    ensures
        r == 100,
{
    100
}

pub fn default_separator() -> (r: String)
    ensures
        r@ == " || "@,
{
    String::from_str(" || ")
}

pub fn default_empty_text() -> (r: String)
    ensures
        r@ == ""@,
{
    String::from_str("")
}

impl Default for Config {
    /// Every setting at its documented default; the socket address is
    /// empty because it can only come from the process environment.
    fn default() -> (r: Config)
        ensures
            r.separator@ == " || "@,
            r.socket_address@ == ""@,
            r.empty_text@ == ""@,
            r.width == 100,
            r.line_height@ == "1"@,
            r.background_color@ == "#99999966"@,
            r.active_background_color@ == "#FFFFFF66"@,
    {
        Config {
            separator: default_separator(),
            socket_address: String::from_str(""),
            empty_text: default_empty_text(),
            width: default_width(),
            line_height: String::from_str("1"),
            background_color: String::from_str("#99999966"),
            active_background_color: String::from_str("#FFFFFF66"),
        }
    }
}

} // verus!
