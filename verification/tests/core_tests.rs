use leta::config::{
    get_config_path, get_log_dir, get_pid_path, get_socket_path, parent_dir, RootSearch,
};
use leta::dispatch::{
    no_hierarchy_from_message, parse_calls_request, prepare_position, CallsParams, CallsQuery,
};
use leta::framing::{encode_frame, find_crlfcrlf, header_content_length, parse_content_length_line};
use leta::location::{CallNode, LocationInfo};
use leta::pathutil::{is_stdlib_path, relative_path};
use leta::rpc::{server_request_reply, PendingTable, ServerReply};
use leta::session::{
    session_decision, DocumentSet, LspLifecycle, LspState, SessionAction, SessionTable,
};
use leta::strutil::{contains_sub, str_eq, u64_to_dec};
use leta::types::Position;
use leta::uri::{decode_uri_path, encode_uri_path, path_to_uri, uri_to_path};

fn empty_params() -> CallsParams {
    CallsParams {
        workspace_root: None,
        mode: None,
        max_depth: None,
        include_non_workspace: None,
        from_path: None,
        from_line: None,
        from_column: None,
        to_path: None,
        to_line: None,
        to_column: None,
        from_symbol: None,
        to_symbol: None,
    }
}

#[test]
fn uri_encodes_reserved_characters() {
    assert_eq!(encode_uri_path("/ws/a b[1]#x?.rs"), "/ws/a%20b%5B1%5D%23x%3F.rs");
    assert_eq!(encode_uri_path("100%"), "100%25");
    assert_eq!(path_to_uri("/ws/a b.rs"), "file:///ws/a%20b.rs");
}

#[test]
fn uri_round_trip() {
    let p = "/ws/dir with space/[gen] 5%.rs";
    let u = path_to_uri(p);
    assert_eq!(uri_to_path(&u), p);
    // an emitted URI survives decode-then-encode
    assert_eq!(path_to_uri(&uri_to_path(&u)), u);
}

#[test]
fn uri_decode_tolerates_malformed_escapes() {
    assert_eq!(decode_uri_path("a%G1b"), "a%G1b");
    assert_eq!(decode_uri_path("a%2"), "a%2");
    assert_eq!(decode_uri_path("a%"), "a%");
    assert_eq!(decode_uri_path("%2Fx"), "/x");
}

#[test]
fn uri_without_scheme_passes_through() {
    assert_eq!(uri_to_path("untitled:buffer-1"), "untitled:buffer-1");
}

#[test]
fn relative_path_cases() {
    assert_eq!(relative_path("/ws/src/a.rs", "/ws"), "src/a.rs");
    assert_eq!(relative_path("/other/x.rs", "/ws"), "/other/x.rs");
    assert_eq!(relative_path("/ws", "/ws"), "");
    assert_eq!(relative_path("/wsx/a.rs", "/ws"), "/wsx/a.rs");
}

#[test]
fn stdlib_heuristics() {
    assert!(is_stdlib_path("file:///x/typeshed-fallback/stdlib/os.pyi"));
    assert!(is_stdlib_path("file:///x/typeshed/stdlib/io.pyi"));
    assert!(is_stdlib_path("file:///usr/libexec/src/net/http.go"));
    assert!(!is_stdlib_path("file:///usr/libexec/src/mod/dep/a.go"));
    assert!(is_stdlib_path("file:///t/rustlib/src/rust/library/std/src/io.rs"));
    assert!(is_stdlib_path("file:///defs/lib.dom.d.ts"));
    assert!(!is_stdlib_path("file:///defs/mylib.d.ts"));
    assert!(!is_stdlib_path("file:///ws/src/main.rs"));
}

#[test]
fn decimal_rendering() {
    assert_eq!(u64_to_dec(0), "0");
    assert_eq!(u64_to_dec(3), "3");
    assert_eq!(u64_to_dec(12345), "12345");
    assert_eq!(u64_to_dec(u64::MAX), "18446744073709551615");
}

#[test]
fn string_helpers() {
    assert!(str_eq("abc", "abc"));
    assert!(!str_eq("abc", "abd"));
    assert!(contains_sub("workspace/applyEdit", "apply"));
    assert!(!contains_sub("short", "not there"));
    assert!(contains_sub("anything", ""));
}

#[test]
fn parse_request_missing_fields() {
    let p = empty_params();
    assert_eq!(parse_calls_request(p).unwrap_err(), "Missing workspace_root");

    let mut p = empty_params();
    p.workspace_root = Some("/ws".to_string());
    assert_eq!(parse_calls_request(p).unwrap_err(), "Missing mode");

    let mut p = empty_params();
    p.workspace_root = Some("/ws".to_string());
    p.mode = Some("outgoing".to_string());
    assert_eq!(parse_calls_request(p).unwrap_err(), "Missing from_path");

    let mut p = empty_params();
    p.workspace_root = Some("/ws".to_string());
    p.mode = Some("outgoing".to_string());
    p.from_path = Some("/ws/a.rs".to_string());
    assert_eq!(parse_calls_request(p).unwrap_err(), "Missing from_line");

    let mut p = empty_params();
    p.workspace_root = Some("/ws".to_string());
    p.mode = Some("incoming".to_string());
    assert_eq!(parse_calls_request(p).unwrap_err(), "Missing to_path");

    let mut p = empty_params();
    p.workspace_root = Some("/ws".to_string());
    p.mode = Some("sideways".to_string());
    assert_eq!(
        parse_calls_request(p).unwrap_err(),
        "Unknown calls mode: sideways"
    );
}

#[test]
fn parse_request_defaults() {
    let mut p = empty_params();
    p.workspace_root = Some("/ws".to_string());
    p.mode = Some("outgoing".to_string());
    p.from_path = Some("/ws/a.rs".to_string());
    p.from_line = Some(10);
    match parse_calls_request(p).unwrap() {
        CallsQuery::Outgoing { workspace_root, max_depth, include_non_workspace, path, line, column } => {
            assert_eq!(workspace_root, "/ws");
            assert_eq!(max_depth, 3);
            assert!(!include_non_workspace);
            assert_eq!(path, "/ws/a.rs");
            assert_eq!(line, 10);
            assert_eq!(column, 0);
        }
        other => panic!("wrong mode: {:?}", other),
    }
}

#[test]
fn parse_request_path_mode() {
    let mut p = empty_params();
    p.workspace_root = Some("/ws".to_string());
    p.mode = Some("path".to_string());
    p.from_path = Some("/ws/main.rs".to_string());
    p.from_line = Some(1);
    p.to_path = Some("/ws/util.rs".to_string());
    p.to_line = Some(42);
    p.max_depth = Some(4);
    match parse_calls_request(p).unwrap() {
        CallsQuery::Path { max_depth, from_symbol, to_symbol, to_line, .. } => {
            assert_eq!(max_depth, 4);
            assert_eq!(from_symbol, "source");
            assert_eq!(to_symbol, "target");
            assert_eq!(to_line, 42);
        }
        other => panic!("wrong mode: {:?}", other),
    }
}

#[test]
fn wire_position_conversion() {
    assert_eq!(prepare_position(1, 0), Some(Position { line: 0, character: 0 }));
    assert_eq!(prepare_position(42, 7), Some(Position { line: 41, character: 7 }));
    assert_eq!(prepare_position(0, 0), None);
    assert_eq!(
        no_hierarchy_from_message(),
        "No call hierarchy found at from position"
    );
}

#[test]
fn config_paths() {
    assert_eq!(get_config_path("/home/u"), "/home/u/.config/leta/config.toml");
    assert_eq!(get_log_dir("/home/u"), "/home/u/.cache/leta/log");
    assert_eq!(get_socket_path("/home/u"), "/home/u/.cache/leta/daemon.sock");
    assert_eq!(get_pid_path("/home/u"), "/home/u/.cache/leta/daemon.pid");
}

#[test]
fn parent_directories() {
    assert_eq!(parent_dir("/a/b"), Some("/a".to_string()));
    assert_eq!(parent_dir("/a"), Some("/".to_string()));
    assert_eq!(parent_dir("/"), None);
    assert_eq!(parent_dir(""), None);
    assert_eq!(parent_dir("plain"), Some("".to_string()));
}

#[test]
fn workspace_root_search() {
    // only /a/.git exists on this pretend filesystem
    let mut s = RootSearch::new("/a/b/c");
    let mut probes: Vec<String> = Vec::new();
    while !s.is_done() {
        let p = s.next_probe();
        let hit = p == "/a/.git";
        probes.push(p);
        s.on_probe(hit);
    }
    assert_eq!(s.take_result(), Some("/a".to_string()));
    assert_eq!(probes[0], "/a/b/c/.git");
    assert!(probes.contains(&"/a/b/c/Cargo.toml".to_string()));
    assert!(probes.contains(&"/a/b/.git".to_string()));
}

#[test]
fn workspace_root_search_misses() {
    let mut s = RootSearch::new("/x");
    while !s.is_done() {
        let _p = s.next_probe();
        s.on_probe(false);
    }
    assert_eq!(s.take_result(), None);
}

#[test]
fn document_open_once() {
    let mut d = DocumentSet::new();
    assert!(d.record_open("/ws/a.rs"));
    assert!(!d.record_open("/ws/a.rs"));
    assert!(d.record_open("/ws/b.rs"));
    assert!(!d.record_open("/ws/a.rs"));
    assert!(d.contains("/ws/a.rs"));
    assert!(!d.contains("/ws/c.rs"));
}

#[test]
fn handshake_order() {
    let mut l = LspLifecycle::new();
    assert!(!l.can_send_request());
    l.begin_initialize();
    assert!(!l.can_send_request());
    l.on_initialize_response();
    assert!(!l.can_send_request());
    l.send_initialized();
    assert!(l.can_send_request());
    l.mark_failed();
    assert!(!l.can_send_request());
}

#[test]
fn session_decisions() {
    assert_eq!(session_decision(Some(LspState::Ready)), SessionAction::UseExisting);
    assert_eq!(session_decision(Some(LspState::Initializing)), SessionAction::AwaitReady);
    assert_eq!(session_decision(Some(LspState::Failed)), SessionAction::SpawnNew);
    assert_eq!(session_decision(None), SessionAction::SpawnNew);
}

#[test]
fn session_table_lifecycle() {
    let mut t = SessionTable::new();
    assert_eq!(t.session_state("/ws", "rust"), None);
    assert_eq!(t.get_or_create("/ws", "rust"), SessionAction::SpawnNew);
    assert_eq!(t.session_state("/ws", "rust"), Some(LspState::Starting));
    // a second request while the first is still starting must wait
    assert_eq!(t.get_or_create("/ws", "rust"), SessionAction::AwaitReady);
    t.set_state("/ws", "rust", LspState::Ready);
    assert_eq!(t.get_or_create("/ws", "rust"), SessionAction::UseExisting);
    // another workspace gets its own session
    assert_eq!(t.get_or_create("/other", "rust"), SessionAction::SpawnNew);
    assert_eq!(t.session_state("/ws", "rust"), Some(LspState::Ready));
    // a failed entry is replaced on the next request
    t.set_state("/ws", "rust", LspState::Failed);
    assert_eq!(t.get_or_create("/ws", "rust"), SessionAction::SpawnNew);
    assert_eq!(t.session_state("/ws", "rust"), Some(LspState::Starting));
}

#[test]
fn session_table_tracks_open_documents() {
    let mut t = SessionTable::new();
    assert_eq!(t.get_or_create("/ws", "rust"), SessionAction::SpawnNew);
    assert!(t.record_open("/ws", "rust", "/ws/a.rs"));
    assert!(!t.record_open("/ws", "rust", "/ws/a.rs"));
    assert!(t.record_open("/ws", "rust", "/ws/b.rs"));
    // a replaced (failed) session starts with no documents open
    t.set_state("/ws", "rust", LspState::Failed);
    assert_eq!(t.get_or_create("/ws", "rust"), SessionAction::SpawnNew);
    assert!(t.record_open("/ws", "rust", "/ws/a.rs"));
}

#[test]
fn pending_ids_are_fresh_and_matched() {
    let mut t = PendingTable::new();
    let a = t.register();
    let b = t.register();
    assert_eq!(a, 1);
    assert_eq!(b, 2);
    assert!(t.resolve(a));
    // a late response for the same id is dropped
    assert!(!t.resolve(a));
    t.cancel(b);
    assert!(!t.resolve(b));
    let c = t.register();
    assert_eq!(c, 3);
    t.fail_all();
    assert!(!t.resolve(c));
}

#[test]
fn server_initiated_replies() {
    assert_eq!(server_request_reply("workspace/applyEdit"), ServerReply::ApplyEditDeclined);
    assert_eq!(
        server_request_reply("window/workDoneProgress/create"),
        ServerReply::ProgressCreated
    );
    assert_eq!(server_request_reply("workspace/configuration"), ServerReply::MethodNotFound);
}

#[test]
fn frame_encoding_exact_bytes() {
    let body: Vec<u8> = b"{}".to_vec();
    let frame = encode_frame(&body);
    assert_eq!(frame, b"Content-Length: 2\r\n\r\n{}".to_vec());
}

#[test]
fn frame_round_trip() {
    let body: Vec<u8> = b"{\"jsonrpc\":\"2.0\",\"id\":1}".to_vec();
    let frame = encode_frame(&body);
    let header_end = find_crlfcrlf(&frame).expect("header end");
    let header: Vec<u8> = frame[..header_end].to_vec();
    let len = header_content_length(&header).expect("length");
    assert_eq!(len as usize, body.len());
    assert_eq!(&frame[header_end + 4..], &body[..]);
}

#[test]
fn content_length_line_parsing() {
    assert_eq!(parse_content_length_line(&b"Content-Length: 42".to_vec()), Some(42));
    assert_eq!(parse_content_length_line(&b"Content-Length:42".to_vec()), Some(42));
    assert_eq!(parse_content_length_line(&b"Content-Length:   7  ".to_vec()), Some(7));
    assert_eq!(parse_content_length_line(&b"Content-Type: application/json".to_vec()), None);
    assert_eq!(parse_content_length_line(&b"Content-Length: ".to_vec()), None);
    assert_eq!(parse_content_length_line(&b"Content-Length: 12a".to_vec()), None);
}

#[test]
fn header_block_with_other_headers() {
    let header: Vec<u8> = b"Content-Type: application/json\r\nContent-Length: 9".to_vec();
    assert_eq!(header_content_length(&header), Some(9));
    let bad: Vec<u8> = b"Content-Type: application/json".to_vec();
    assert_eq!(header_content_length(&bad), None);
}

#[test]
fn advertised_capabilities() {
    let c = leta::capabilities::get_client_capabilities();
    let t = c.text_document.unwrap();
    assert_eq!(t.definition.unwrap().link_support, Some(true));
    assert_eq!(
        t.document_symbol.unwrap().hierarchical_document_symbol_support,
        Some(true)
    );
    assert_eq!(t.rename.unwrap().prepare_support, Some(true));
    assert_eq!(
        t.hover.unwrap().content_format.unwrap(),
        vec!["markdown".to_string(), "plaintext".to_string()]
    );
    assert!(t.call_hierarchy.is_some());
    assert!(t.type_hierarchy.is_some());
    let w = c.workspace.unwrap();
    let e = w.workspace_edit.unwrap();
    assert_eq!(e.document_changes, Some(true));
    assert_eq!(
        e.resource_operations.unwrap(),
        vec!["create".to_string(), "rename".to_string(), "delete".to_string()]
    );
    assert_eq!(c.window.unwrap().work_done_progress, Some(true));
}

#[test]
fn probe_paths_at_edge_directories() {
    let s = RootSearch::new("/");
    assert_eq!(s.next_probe(), "/.git");
    let s2 = RootSearch::new("");
    assert_eq!(s2.next_probe(), ".git");
    let s3 = RootSearch::new("/a");
    assert_eq!(s3.next_probe(), "/a/.git");
}

#[test]
fn constructors_fill_defaults() {
    let l = LocationInfo::new("src/a.rs".to_string(), 3);
    assert_eq!(l.path, "src/a.rs");
    assert_eq!(l.line, 3);
    assert_eq!(l.column, 0);
    assert!(l.name.is_none());

    let n = CallNode::new("f".to_string());
    assert_eq!(n.name, "f");
    assert!(n.calls.is_none());
    assert!(n.called_by.is_none());

    let p = Position::new(5, 7);
    assert_eq!(p.line, 5);
    assert_eq!(p.character, 7);
}
