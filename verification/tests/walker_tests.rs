use leta::dispatch::{
    classify_prepare, no_hierarchy_message, not_supported_message, path_not_found_message,
    PrepareOutcome, RpcError,
};
use leta::location::CallNode;
use leta::types::{CallHierarchyItem, Position, Range};
use leta::walker::{format_call_node, PathWalk, TreeWalk};

fn item(name: &str, uri: &str, line0: u32) -> CallHierarchyItem {
    CallHierarchyItem {
        name: name.to_string(),
        kind: 12,
        detail: None,
        uri: uri.to_string(),
        range: Range {
            start: Position { line: line0, character: 0 },
            end: Position { line: line0 + 2, character: 0 },
        },
        selection_range: Range {
            start: Position { line: line0, character: 4 },
            end: Position { line: line0, character: 10 },
        },
    }
}

fn children_for<'a>(
    graph: &'a [(&'a str, Vec<CallHierarchyItem>)],
    name: &str,
) -> Vec<CallHierarchyItem> {
    for (n, c) in graph {
        if *n == name {
            return c.clone();
        }
    }
    Vec::new()
}

fn run_tree(
    root: CallHierarchyItem,
    ws: &str,
    depth: u64,
    keep_non_workspace: bool,
    incoming: bool,
    graph: &[(&str, Vec<CallHierarchyItem>)],
) -> CallNode {
    let mut w = TreeWalk::new(root, ws.to_string(), depth, keep_non_workspace, incoming);
    while !w.is_done() {
        let req = w.current_request();
        let children = children_for(graph, &req.name);
        w.supply_children(children);
    }
    w.finish()
}

fn run_path(
    root: CallHierarchyItem,
    ws: &str,
    target_path: &str,
    target_line: u32,
    depth: u64,
    keep_non_workspace: bool,
    graph: &[(&str, Vec<CallHierarchyItem>)],
) -> Option<Vec<CallHierarchyItem>> {
    let mut w = PathWalk::new(
        root,
        ws.to_string(),
        target_path.to_string(),
        target_line,
        depth,
        keep_non_workspace,
    );
    while !w.is_done() {
        let req = w.current_request();
        let children = children_for(graph, &req.name);
        w.supply_children(children);
    }
    w.take_result()
}

#[test]
fn depth_zero_returns_bare_root() {
    let root = item("f", "file:///ws/src/a.rs", 9);
    let tree = run_tree(root, "/ws", 0, false, false, &[]);
    assert_eq!(tree.name, "f");
    assert_eq!(tree.path.as_deref(), Some("src/a.rs"));
    assert_eq!(tree.line, Some(10));
    assert!(tree.calls.is_none());
    assert!(tree.called_by.is_none());
}

#[test]
fn outgoing_tree_depth_two_filters_stdlib() {
    let root = item("f", "file:///ws/src/a.rs", 9);
    let g = item("g", "file:///ws/src/b.rs", 2);
    let std_io = item("io", "file:///toolchain/rustlib/src/rust/library/std/src/io.rs", 0);
    let graph = [("f", vec![g, std_io]), ("g", Vec::new())];
    let tree = run_tree(root, "/ws", 2, false, false, &graph);
    assert_eq!(tree.name, "f");
    let calls = tree.calls.as_ref().unwrap();
    assert_eq!(calls.len(), 1);
    assert_eq!(calls[0].name, "g");
    assert_eq!(calls[0].path.as_deref(), Some("src/b.rs"));
    assert_eq!(calls[0].line, Some(3));
    assert_eq!(calls[0].kind.as_deref(), Some("function"));
}

#[test]
fn stdlib_only_child_is_absent_when_filtering() {
    let root = item("f", "file:///ws/src/a.rs", 9);
    let std_io = item("io", "file:///x/typeshed/stdlib/io.pyi", 0);
    let graph = [("f", vec![std_io])];
    let tree = run_tree(root, "/ws", 3, false, false, &graph);
    assert_eq!(tree.calls.as_ref().unwrap().len(), 0);
}

#[test]
fn stdlib_child_kept_when_filter_off() {
    let root = item("f", "file:///ws/src/a.rs", 9);
    let std_io = item("io", "file:///x/typeshed/stdlib/io.pyi", 0);
    let graph = [("f", vec![std_io]), ("io", Vec::new())];
    let tree = run_tree(root, "/ws", 3, true, false, &graph);
    assert_eq!(tree.calls.as_ref().unwrap().len(), 1);
    assert_eq!(tree.calls.as_ref().unwrap()[0].name, "io");
}

#[test]
fn cycle_depth_five_gives_height_two() {
    let a = item("a", "file:///ws/src/a.rs", 0);
    let b = item("b", "file:///ws/src/b.rs", 5);
    let a2 = item("a", "file:///ws/src/a.rs", 0);
    let graph = [("a", vec![b]), ("b", vec![a2])];
    let tree = run_tree(item("a", "file:///ws/src/a.rs", 0), "/ws", 5, false, false, &graph);
    assert_eq!(tree.name, "a");
    let calls = tree.calls.as_ref().unwrap();
    assert_eq!(calls.len(), 1);
    assert_eq!(calls[0].name, "b");
    let b_calls = calls[0].calls.as_ref().unwrap();
    assert_eq!(b_calls.len(), 0);
}

#[test]
fn cycle_depth_three_exact_tree() {
    let b = item("b", "file:///ws/src/b.rs", 5);
    let a2 = item("a", "file:///ws/src/a.rs", 0);
    let graph = [("a", vec![b]), ("b", vec![a2])];
    let tree = run_tree(item("a", "file:///ws/src/a.rs", 0), "/ws", 3, false, false, &graph);
    let calls = tree.calls.as_ref().unwrap();
    assert_eq!(calls.len(), 1);
    assert_eq!(calls[0].name, "b");
    assert_eq!(calls[0].calls.as_ref().unwrap().len(), 0);
}

#[test]
fn incoming_tree_uses_called_by() {
    let root = item("f", "file:///ws/src/a.rs", 9);
    let caller = item("main", "file:///ws/src/main.rs", 0);
    let graph = [("f", vec![caller]), ("main", Vec::new())];
    let tree = run_tree(root, "/ws", 2, false, true, &graph);
    assert!(tree.calls.is_none());
    let cb = tree.called_by.as_ref().unwrap();
    assert_eq!(cb.len(), 1);
    assert_eq!(cb[0].name, "main");
    assert!(cb[0].calls.is_none());
    assert_eq!(cb[0].called_by.as_ref().unwrap().len(), 0);
}

#[test]
fn depth_limited_child_appears_without_edges() {
    let root = item("f", "file:///ws/src/a.rs", 9);
    let g = item("g", "file:///ws/src/b.rs", 2);
    let h = item("h", "file:///ws/src/c.rs", 4);
    let graph = [("f", vec![g]), ("g", vec![h])];
    let tree = run_tree(root, "/ws", 2, false, false, &graph);
    let calls = tree.calls.as_ref().unwrap();
    assert_eq!(calls.len(), 1);
    let g_calls = calls[0].calls.as_ref().unwrap();
    // h is at the depth limit: present, but with no edges of its own
    assert_eq!(g_calls.len(), 1);
    assert_eq!(g_calls[0].name, "h");
    assert_eq!(g_calls[0].calls.as_ref().unwrap().len(), 0);
}

#[test]
fn path_found_through_chain() {
    let main_i = item("main", "file:///ws/src/main.rs", 0);
    let run_i = item("run", "file:///ws/src/run.rs", 10);
    let helper = item("helper", "file:///ws/src/util.rs", 41);
    let graph = [("main", vec![run_i]), ("run", vec![helper])];
    let result = run_path(main_i, "/ws", "src/util.rs", 42, 4, false, &graph);
    let path = result.expect("a path should be found");
    let names: Vec<&str> = path.iter().map(|i| i.name.as_str()).collect();
    assert_eq!(names, vec!["main", "run", "helper"]);
}

#[test]
fn path_not_found_within_depth() {
    let main_i = item("main", "file:///ws/src/main.rs", 0);
    let a2 = item("a2", "file:///ws/src/a2.rs", 1);
    let a3 = item("a3", "file:///ws/src/a3.rs", 2);
    let a4 = item("a4", "file:///ws/src/a4.rs", 3);
    let helper = item("helper", "file:///ws/src/util.rs", 41);
    let graph = [
        ("main", vec![a2]),
        ("a2", vec![a3]),
        ("a3", vec![a4]),
        ("a4", vec![helper]),
    ];
    let result = run_path(main_i, "/ws", "src/util.rs", 42, 3, false, &graph);
    assert!(result.is_none());
    let msg = path_not_found_message("main", "helper", 3);
    assert_eq!(msg, "No path found from main to helper within depth 3");
}

#[test]
fn path_root_is_target() {
    let main_i = item("main", "file:///ws/src/main.rs", 0);
    let result = run_path(main_i, "/ws", "src/main.rs", 1, 3, false, &[]);
    let path = result.unwrap();
    assert_eq!(path.len(), 1);
    assert_eq!(path[0].name, "main");
}

#[test]
fn path_backtracks_through_shared_node() {
    // a -> b -> s runs out of depth before reaching t, so that branch is
    // abandoned; the direct a -> s -> t chain must still be allowed to
    // visit s, which only works because the visited key is removed on
    // backtrack.
    let b = item("b", "file:///ws/b.rs", 1);
    let s1 = item("s", "file:///ws/s.rs", 2);
    let s2 = item("s", "file:///ws/s.rs", 2);
    let t = item("t", "file:///ws/t.rs", 9);
    let graph = [("a", vec![b, s1]), ("b", vec![s2]), ("s", vec![t])];
    let result = run_path(
        item("a", "file:///ws/a.rs", 0),
        "/ws",
        "t.rs",
        10,
        3,
        false,
        &graph,
    );
    let path = result.expect("path via backtracking");
    let names: Vec<&str> = path.iter().map(|i| i.name.as_str()).collect();
    assert_eq!(names, vec!["a", "s", "t"]);
}

#[test]
fn prepare_not_supported_by_code() {
    let r: Result<Vec<CallHierarchyItem>, RpcError> = Err(RpcError {
        code: Some(-32601),
        message: "method not found".to_string(),
    });
    assert!(matches!(classify_prepare(r), PrepareOutcome::NotSupported));
    assert!(not_supported_message().contains("not supported"));
}

#[test]
fn prepare_not_supported_by_message() {
    let r: Result<Vec<CallHierarchyItem>, RpcError> = Err(RpcError {
        code: None,
        message: "request is not supported here".to_string(),
    });
    assert!(matches!(classify_prepare(r), PrepareOutcome::NotSupported));
}

#[test]
fn prepare_other_error_is_protocol() {
    let r: Result<Vec<CallHierarchyItem>, RpcError> = Err(RpcError {
        code: Some(-32000),
        message: "boom".to_string(),
    });
    match classify_prepare(r) {
        PrepareOutcome::Protocol(m) => assert_eq!(m, "LSP error: boom"),
        other => panic!("expected protocol error, got {:?}", other),
    }
}

#[test]
fn prepare_empty_is_no_hierarchy() {
    let r: Result<Vec<CallHierarchyItem>, RpcError> = Ok(Vec::new());
    assert!(matches!(classify_prepare(r), PrepareOutcome::NoHierarchy));
    assert_eq!(
        no_hierarchy_message(),
        "No call hierarchy found at this position"
    );
}

#[test]
fn prepare_takes_first_item() {
    let a = item("a", "file:///ws/a.rs", 0);
    let b = item("b", "file:///ws/b.rs", 1);
    let r: Result<Vec<CallHierarchyItem>, RpcError> = Ok(vec![a, b]);
    match classify_prepare(r) {
        PrepareOutcome::Root(it) => assert_eq!(it.name, "a"),
        other => panic!("expected a root, got {:?}", other),
    }
}

#[test]
fn format_node_fields() {
    let it = item("f", "file:///ws/src/a%20b.rs", 9);
    let n = format_call_node(&it, "/ws", None, None);
    assert_eq!(n.name, "f");
    assert_eq!(n.kind.as_deref(), Some("function"));
    assert_eq!(n.path.as_deref(), Some("src/a b.rs"));
    assert_eq!(n.line, Some(10));
    assert_eq!(n.column, Some(4));
    assert!(n.detail.is_none());
}
