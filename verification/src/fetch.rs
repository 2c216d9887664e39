use vstd::prelude::*;
use serde_json::Value;
use crate::error::Error;
use crate::window::{snapshot_contract, sorted_by_rank, RawClient, RawWorkspace, WindowData};

verus! {

/// What parsing the active-workspace document yields: `None` when the
/// text is not one well-formed JSON document, otherwise the two raw
/// workspace fields read from it. A function of the text alone.
pub uninterp spec fn parsed_workspace(s: Seq<char>) -> Option<RawWorkspace>;

/// What parsing the client-list document yields: `None` when the text
/// is not one well-formed JSON document, `Some(None)` when it is JSON
/// but not an array, otherwise the raw fields of every entry, in
/// document order. A function of the text alone.
pub uninterp spec fn parsed_clients(s: Seq<char>) -> Option<Option<Vec<RawClient>>>;

/// Relies on serde_json::from_str, Value's index (`Null` where the key
/// is absent) and as_i64/as_str: parse the workspace document and read
/// its two fields, every step deterministic in the text.
#[verifier::external_body]
fn parse_workspace(s: &str) -> (r: Option<RawWorkspace>)
    ensures
        r == parsed_workspace(s@),
{
    let v: Value = serde_json::from_str(s).ok()?;
    Some(RawWorkspace {
        id: v["id"].as_i64(),
        last_window: v["lastwindow"].as_str().map(str::to_owned),
    })
}

/// Relies on serde_json::from_str, Value's index (`Null` where the key
/// is absent) and as_array/as_i64/as_str: parse the client-list
/// document and read every entry's raw fields, every step deterministic
/// in the text.
#[verifier::external_body]
fn parse_clients(s: &str) -> (r: Option<Option<Vec<RawClient>>>)
    ensures
        r == parsed_clients(s@),
{
    let v: Value = serde_json::from_str(s).ok()?;
    Some(v.as_array().map(|entries| entries.iter().map(|c| RawClient {
        address: c["address"].as_str().map(str::to_owned),
        title: c["title"].as_str().map(str::to_owned),
        app_name: c["initialTitle"].as_str().map(str::to_owned),
        workspace_id: c["workspace"]["id"].as_i64(),
        grouped: c["grouped"].as_array().map(
            |g| g.iter().map(|m| m.as_str().map(str::to_owned)).collect(),
        ),
    }).collect()))
}

impl WindowData {
    /// One snapshot acquisition from the two query documents: an
    /// unparseable document is the unified query failure, exactly;
    /// otherwise the result is what the exactly specified builder makes
    /// of the parsed raw fields, so a success is the rank-sorted window
    /// list of the active workspace.
    pub fn fetch_active_windows_data(workspace_json: &str, clients_json: &str) -> (r: Result<
        Vec<WindowData>,
        Error,
    >)
        ensures
            (parsed_workspace(workspace_json@) is None || parsed_clients(clients_json@) is None)
                <==> (r matches Err(e) && e matches Error::ShellCommand(m)
                && m@ == "Unable to parse command output as JSON"@),
            (parsed_workspace(workspace_json@) is Some && parsed_clients(clients_json@) is Some)
                ==> snapshot_contract(
                parsed_workspace(workspace_json@).unwrap(),
                parsed_clients(clients_json@).unwrap(),
                r,
            ),
            r matches Ok(v) ==> sorted_by_rank(v@),
    {
        let workspace = match parse_workspace(workspace_json) {
            Some(w) => w,
            None => {
                return Err(Error::ShellCommand("Unable to parse command output as JSON"));
            },
        };
        let clients = match parse_clients(clients_json) {
            Some(c) => c,
            None => {
                return Err(Error::ShellCommand("Unable to parse command output as JSON"));
            },
        };
        WindowData::build_active_windows(workspace, clients)
    }
}

} // verus!
