use groupie::{Error, RawClient, RawWorkspace, WindowData, UNRANKED};

fn raw_client(
    address: &str,
    title: &str,
    app: &str,
    workspace_id: i64,
    grouped: &[&str],
) -> RawClient {
    RawClient {
        address: Some(address.to_string()),
        title: Some(title.to_string()),
        app_name: Some(app.to_string()),
        workspace_id: Some(workspace_id),
        grouped: Some(grouped.iter().map(|g| Some(g.to_string())).collect()),
    }
}

fn workspace(id: i64, last_window: &str) -> RawWorkspace {
    RawWorkspace {
        id: Some(id),
        last_window: Some(last_window.to_string()),
    }
}

#[test]
fn record_ranks_by_own_position_in_group() {
    let c = raw_client("0xb", "t", "a", 1, &["0xa", "0xb", "0xc"]);
    let w = WindowData::from_raw(c, &"0xb".to_string()).unwrap();
    assert_eq!(w.group_index, 1);
    assert!(w.active);
}

#[test]
fn record_without_self_reference_gets_sentinel_rank() {
    let c = raw_client("0xd", "t", "a", 1, &["0xa", "0xb"]);
    let w = WindowData::from_raw(c, &"0xa".to_string()).unwrap();
    assert_eq!(w.group_index, UNRANKED);
    assert!(!w.active);
}

#[test]
fn missing_address_fails_with_its_message() {
    let mut c = raw_client("0xa", "t", "a", 1, &["0xa"]);
    c.address = None;
    match WindowData::from_raw(c, &"0xa".to_string()) {
        Err(Error::WindowDataParsing(m)) => assert_eq!(m, "Non-string window address"),
        _ => panic!("expected a window data parsing error"),
    }
}

#[test]
fn malformed_group_list_fails_with_its_message() {
    let mut c = raw_client("0xa", "t", "a", 1, &["0xa"]);
    c.grouped = None;
    match WindowData::from_raw(c, &"0xa".to_string()) {
        Err(Error::WindowDataParsing(m)) => assert_eq!(m, "Non-array window group ids"),
        _ => panic!("expected a window data parsing error"),
    }
    let mut c = raw_client("0xa", "t", "a", 1, &["0xa"]);
    c.grouped = Some(vec![Some("0xa".to_string()), None]);
    match WindowData::from_raw(c, &"0xa".to_string()) {
        Err(Error::WindowDataParsing(m)) => assert_eq!(m, "Non-array window group ids"),
        _ => panic!("expected a window data parsing error"),
    }
}

#[test]
fn missing_title_and_app_name_fail_with_their_messages() {
    let mut c = raw_client("0xa", "t", "a", 1, &["0xa"]);
    c.title = None;
    match WindowData::from_raw(c, &"0xa".to_string()) {
        Err(Error::WindowDataParsing(m)) => assert_eq!(m, "Non-string window title"),
        _ => panic!("expected a window data parsing error"),
    }
    let mut c = raw_client("0xa", "t", "a", 1, &["0xa"]);
    c.app_name = None;
    match WindowData::from_raw(c, &"0xa".to_string()) {
        Err(Error::WindowDataParsing(m)) => assert_eq!(m, "Non-string window initialTitle"),
        _ => panic!("expected a window data parsing error"),
    }
}

#[test]
fn group_order_wins_over_fetch_order() {
    // grouped lists place the addresses in the order C, A, B
    let group = &["0xc", "0xa", "0xb"];
    let fetched = vec![
        raw_client("0xa", "window a", "app", 7, group),
        raw_client("0xb", "window b", "app", 7, group),
        raw_client("0xc", "window c", "app", 7, group),
    ];
    let out = WindowData::build_active_windows(workspace(7, "0xa"), Some(fetched)).unwrap();
    let titles: Vec<&str> = out.iter().map(|w| w.title.as_str()).collect();
    assert_eq!(titles, vec!["window c", "window a", "window b"]);
}

#[test]
fn unranked_window_sorts_after_ranked_ones() {
    let fetched = vec![
        raw_client("0xa", "stray", "app", 7, &["0xb", "0xc"]),
        raw_client("0xb", "second", "app", 7, &["0xc", "0xb"]),
        raw_client("0xc", "first", "app", 7, &["0xc", "0xb"]),
    ];
    let out = WindowData::build_active_windows(workspace(7, "0xb"), Some(fetched)).unwrap();
    let titles: Vec<&str> = out.iter().map(|w| w.title.as_str()).collect();
    assert_eq!(titles, vec!["first", "second", "stray"]);
    assert_eq!(out[2].group_index, UNRANKED);
}

#[test]
fn equal_ranks_keep_fetch_order() {
    let fetched = vec![
        raw_client("0xa", "one", "app", 7, &["0xa"]),
        raw_client("0xb", "two", "app", 7, &["0xb"]),
        raw_client("0xc", "three", "app", 7, &["0xc"]),
    ];
    let out = WindowData::build_active_windows(workspace(7, "0xa"), Some(fetched)).unwrap();
    let titles: Vec<&str> = out.iter().map(|w| w.title.as_str()).collect();
    assert_eq!(titles, vec!["one", "two", "three"]);
}

#[test]
fn other_workspaces_are_filtered_out() {
    let fetched = vec![
        raw_client("0xa", "mine", "app", 7, &["0xa"]),
        raw_client("0xb", "other", "app", 8, &["0xb"]),
    ];
    let out = WindowData::build_active_windows(workspace(7, "0xa"), Some(fetched)).unwrap();
    assert_eq!(out.len(), 1);
    assert_eq!(out[0].title, "mine");
}

#[test]
fn client_of_unknown_workspace_is_filtered_not_fatal() {
    let mut stray = raw_client("0xb", "other", "app", 8, &["0xb"]);
    stray.workspace_id = None;
    let fetched = vec![raw_client("0xa", "mine", "app", 7, &["0xa"]), stray];
    let out = WindowData::build_active_windows(workspace(7, "0xa"), Some(fetched)).unwrap();
    assert_eq!(out.len(), 1);
}

#[test]
fn missing_workspace_fields_fail_with_fetch_errors() {
    let ws = RawWorkspace { id: None, last_window: Some("0xa".to_string()) };
    match WindowData::build_active_windows(ws, Some(vec![])) {
        Err(Error::DataFetch(m)) => assert_eq!(m, "Cannot get id from workspace data"),
        _ => panic!("expected a data fetch error"),
    }
    let ws = RawWorkspace { id: Some(1), last_window: None };
    match WindowData::build_active_windows(ws, Some(vec![])) {
        Err(Error::DataFetch(m)) => {
            assert_eq!(m, "Cannot get active window address from workspace data")
        },
        _ => panic!("expected a data fetch error"),
    }
    match WindowData::build_active_windows(workspace(1, "0xa"), None) {
        Err(Error::DataFetch(m)) => {
            assert_eq!(m, "Cannot convert hyprctl clients output as array")
        },
        _ => panic!("expected a data fetch error"),
    }
}

#[test]
fn one_bad_window_aborts_the_whole_batch() {
    let mut bad = raw_client("0xb", "b", "app", 7, &["0xb"]);
    bad.title = None;
    let fetched = vec![raw_client("0xa", "a", "app", 7, &["0xa"]), bad];
    match WindowData::build_active_windows(workspace(7, "0xa"), Some(fetched)) {
        Err(Error::WindowDataParsing(m)) => assert_eq!(m, "Non-string window title"),
        _ => panic!("expected a window data parsing error"),
    }
}

#[test]
fn error_messages_carry_their_variant_prefix() {
    assert_eq!(
        Error::DataFetch("boom").as_string(),
        "Data fetching error: boom"
    );
    assert_eq!(
        Error::WindowDataParsing("boom").as_string(),
        "Window data parsing error: boom"
    );
    assert_eq!(
        Error::ShellCommand("boom").as_string(),
        "Shell command error: boom"
    );
}

#[test]
fn with_error_prefixes_the_message() {
    assert_eq!(groupie::Output::with_error("boom").text, "ERROR: boom");
}
