use groupie::{ConnState, Config, LoopAction, LoopEvent, WindowData};

const WORKSPACE_JSON: &str = r#"{"id": 7, "lastwindow": "0xb", "name": "seven"}"#;

const CLIENTS_JSON: &str = r#"[
  {"address": "0xa", "title": "window a", "initialTitle": "app",
   "workspace": {"id": 7, "name": "seven"}, "grouped": ["0xb", "0xa"]},
  {"address": "0xb", "title": "window b", "initialTitle": "app",
   "workspace": {"id": 7, "name": "seven"}, "grouped": ["0xb", "0xa"]},
  {"address": "0xc", "title": "elsewhere", "initialTitle": "app",
   "workspace": {"id": 8, "name": "eight"}, "grouped": ["0xc"]}
]"#;

#[test]
fn full_refresh_from_json_documents() {
    let out = WindowData::fetch_active_windows_data(WORKSPACE_JSON, CLIENTS_JSON).unwrap();
    assert_eq!(out.len(), 2);
    assert_eq!(out[0].title, "window b");
    assert!(out[0].active);
    assert_eq!(out[0].group_index, 0);
    assert_eq!(out[1].title, "window a");
    assert!(!out[1].active);
    assert_eq!(out[1].group_index, 1);
}

#[test]
fn repeated_refreshes_give_identical_output() {
    let cfg = Config::default();
    let first = {
        let ws = WindowData::fetch_active_windows_data(WORKSPACE_JSON, CLIENTS_JSON).unwrap();
        groupie::format_line(&ws, &cfg)
    };
    let second = {
        let ws = WindowData::fetch_active_windows_data(WORKSPACE_JSON, CLIENTS_JSON).unwrap();
        groupie::format_line(&ws, &cfg)
    };
    assert_eq!(first, second);
}

#[test]
fn unparseable_document_is_a_query_failure() {
    match WindowData::fetch_active_windows_data("not json at all", CLIENTS_JSON) {
        Err(groupie::Error::ShellCommand(_)) => {},
        _ => panic!("expected the unified query failure"),
    }
}

#[test]
fn workspace_without_id_is_a_fetch_failure() {
    match WindowData::fetch_active_windows_data(r#"{"lastwindow": "0xb"}"#, CLIENTS_JSON) {
        Err(groupie::Error::DataFetch(m)) => {
            assert_eq!(m, "Cannot get id from workspace data")
        },
        _ => panic!("expected a data fetch error"),
    }
}

#[test]
fn non_array_client_list_is_a_fetch_failure() {
    match WindowData::fetch_active_windows_data(WORKSPACE_JSON, r#"{"clients": []}"#) {
        Err(groupie::Error::DataFetch(m)) => {
            assert_eq!(m, "Cannot convert hyprctl clients output as array")
        },
        _ => panic!("expected a data fetch error"),
    }
}

#[test]
fn string_workspace_id_is_a_fetch_failure() {
    match WindowData::fetch_active_windows_data(r#"{"id": "7", "lastwindow": "0xb"}"#, "[]") {
        Err(groupie::Error::DataFetch(m)) => {
            assert_eq!(m, "Cannot get id from workspace data")
        },
        _ => panic!("expected a data fetch error"),
    }
}

#[test]
fn empty_workspace_formats_to_empty_text() {
    let mut cfg = Config::default();
    cfg.empty_text = "(empty)".to_string();
    let ws = WindowData::fetch_active_windows_data(WORKSPACE_JSON, "[]").unwrap();
    assert_eq!(ws.len(), 0);
    assert_eq!(groupie::format_line(&ws, &cfg), "(empty)");
}

#[test]
fn non_string_group_member_aborts_the_refresh() {
    let clients = r#"[
      {"address": "0xa", "title": "t", "initialTitle": "a",
       "workspace": {"id": 7}, "grouped": ["0xa", 5]}
    ]"#;
    match WindowData::fetch_active_windows_data(WORKSPACE_JSON, clients) {
        Err(groupie::Error::WindowDataParsing(m)) => {
            assert_eq!(m, "Non-array window group ids")
        },
        _ => panic!("expected a window data parsing error"),
    }
}

#[test]
fn connection_failure_then_success_keeps_running() {
    let (s1, a1) = groupie::step(ConnState::Disconnected, LoopEvent::ConnectFailed);
    assert_eq!(s1, ConnState::Disconnected);
    assert_eq!(a1, LoopAction::EmitRetryErrorAndSleep);
    let (s2, a2) = groupie::step(s1, LoopEvent::ConnectSucceeded);
    assert_eq!(s2, ConnState::Connected);
    assert_eq!(a2, LoopAction::AwaitLine);
    let (s3, a3) = groupie::step(s2, LoopEvent::LineReceived);
    assert_eq!(s3, ConnState::Connected);
    assert_eq!(a3, LoopAction::RunRefresh);
    let (s4, a4) = groupie::step(s3, LoopEvent::StreamEnded);
    assert_eq!(s4, ConnState::Disconnected);
    assert_eq!(a4, LoopAction::Reconnect);
}

#[test]
fn config_defaults_match_their_documentation() {
    let cfg = Config::default();
    assert_eq!(cfg.separator, " || ");
    assert_eq!(cfg.empty_text, "");
    assert_eq!(cfg.width, 100);
    assert_eq!(cfg.line_height, "1");
    assert_eq!(groupie::default_width(), 100);
    assert_eq!(groupie::default_separator(), " || ");
    assert_eq!(groupie::default_empty_text(), "");
}
