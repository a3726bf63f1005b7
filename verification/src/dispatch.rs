//! Request validation and reply assembly for the `calls` method.
//!
//! The I/O layer hands over the request's fields as plain optional
//! values; validation, mode selection, defaulting, the classification of
//! the server's prepare answer, and the wording of every reply are
//! decided here.

use vstd::prelude::*;
use vstd::string::StringExecFns;
use crate::types::CallHierarchyItem;
use crate::types::Position;
use crate::location::CallNode;
use crate::strutil::contains_seq;
use crate::strutil::contains_sub;
use crate::strutil::str_eq;
use crate::strutil::dec_rep;
use crate::strutil::u64_to_dec;
use crate::walker::node_matches_item;
use crate::walker::format_call_node;

verus! {

/// The fields of a `calls` request as the wire layer extracted them,
/// before validation.
#[derive(Debug, Clone, PartialEq)]
pub struct CallsParams {
    pub workspace_root: Option<String>,
    pub mode: Option<String>,
    pub max_depth: Option<u64>,
    pub include_non_workspace: Option<bool>,
    pub from_path: Option<String>,
    pub from_line: Option<u64>,
    pub from_column: Option<u64>,
    pub to_path: Option<String>,
    pub to_line: Option<u64>,
    pub to_column: Option<u64>,
    pub from_symbol: Option<String>,
    pub to_symbol: Option<String>,
}

/// A validated `calls` request.
#[derive(Debug, PartialEq)]
pub enum CallsQuery {
    Outgoing {
        workspace_root: String,
        max_depth: u64,
        include_non_workspace: bool,
        path: String,
        line: u64,
        column: u64,
    },
    Incoming {
        workspace_root: String,
        max_depth: u64,
        include_non_workspace: bool,
        path: String,
        line: u64,
        column: u64,
    },
    Path {
        workspace_root: String,
        max_depth: u64,
        include_non_workspace: bool,
        from_path: String,
        from_line: u64,
        from_column: u64,
        to_path: String,
        to_line: u64,
        from_symbol: String,
        to_symbol: String,
    },
}

/// The demanded relation between a raw request and the outcome of
/// validating it.
pub open spec fn parse_calls_spec(params: CallsParams, r: Result<CallsQuery, String>) -> bool {
    if params.workspace_root is None {
        &&& r matches Err(e)
        &&& e@ == "Missing workspace_root"@
    } else if params.mode is None {
        &&& r matches Err(e)
        &&& e@ == "Missing mode"@
    } else {
        let m = params.mode->0@;
        if m == "outgoing"@ {
            if params.from_path is None {
                &&& r matches Err(e)
                &&& e@ == "Missing from_path"@
            } else if params.from_line is None {
                &&& r matches Err(e)
                &&& e@ == "Missing from_line"@
            } else {
                &&& r matches Ok(
                    CallsQuery::Outgoing {
                        workspace_root,
                        max_depth,
                        include_non_workspace,
                        path,
                        line,
                        column,
                    },
                )
                &&& workspace_root@ == params.workspace_root->0@
                &&& max_depth == depth_or_default(params.max_depth)
                &&& include_non_workspace == flag_or_default(params.include_non_workspace)
                &&& path@ == params.from_path->0@
                &&& line == params.from_line->0
                &&& column == col_or_default(params.from_column)
            }
        } else if m == "incoming"@ {
            if params.to_path is None {
                &&& r matches Err(e)
                &&& e@ == "Missing to_path"@
            } else if params.to_line is None {
                &&& r matches Err(e)
                &&& e@ == "Missing to_line"@
            } else {
                &&& r matches Ok(
                    CallsQuery::Incoming {
                        workspace_root,
                        max_depth,
                        include_non_workspace,
                        path,
                        line,
                        column,
                    },
                )
                &&& workspace_root@ == params.workspace_root->0@
                &&& max_depth == depth_or_default(params.max_depth)
                &&& include_non_workspace == flag_or_default(params.include_non_workspace)
                &&& path@ == params.to_path->0@
                &&& line == params.to_line->0
                &&& column == col_or_default(params.to_column)
            }
        } else if m == "path"@ {
            if params.from_path is None {
                &&& r matches Err(e)
                &&& e@ == "Missing from_path"@
            } else if params.from_line is None {
                &&& r matches Err(e)
                &&& e@ == "Missing from_line"@
            } else if params.to_path is None {
                &&& r matches Err(e)
                &&& e@ == "Missing to_path"@
            } else if params.to_line is None {
                &&& r matches Err(e)
                &&& e@ == "Missing to_line"@
            } else {
                &&& r matches Ok(
                    CallsQuery::Path {
                        workspace_root,
                        max_depth,
                        include_non_workspace,
                        from_path,
                        from_line,
                        from_column,
                        to_path,
                        to_line,
                        from_symbol,
                        to_symbol,
                    },
                )
                &&& workspace_root@ == params.workspace_root->0@
                &&& max_depth == depth_or_default(params.max_depth)
                &&& include_non_workspace == flag_or_default(params.include_non_workspace)
                &&& from_path@ == params.from_path->0@
                &&& from_line == params.from_line->0
                &&& from_column == col_or_default(params.from_column)
                &&& to_path@ == params.to_path->0@
                &&& to_line == params.to_line->0
                &&& from_symbol@ == symbol_or(params.from_symbol, "source"@)
                &&& to_symbol@ == symbol_or(params.to_symbol, "target"@)
            }
        } else {
            &&& r matches Err(e)
            &&& e@ == "Unknown calls mode: "@ + m
        }
    }
}

/// Checks a raw request: every required field must be present, the mode
/// must be one of `outgoing`, `incoming`, `path`; `max_depth` defaults
/// to 3 and `include_non_workspace` to `false`; in path mode the symbol
/// names for diagnostics default to `source` and `target`.
pub fn parse_calls_request(params: CallsParams) -> (r: Result<CallsQuery, String>)
    ensures
        parse_calls_spec(params, r),
{
    let workspace_root = match params.workspace_root {
        Some(w) => w,
        None => {
            return Err(String::from_str("Missing workspace_root"));
        },
    };
    let mode = match params.mode {
        Some(m) => m,
        None => {
            return Err(String::from_str("Missing mode"));
        },
    };
    let max_depth: u64 = match params.max_depth {
        Some(d) => d,
        None => 3,
    };
    let include_non_workspace: bool = match params.include_non_workspace {
        Some(b) => b,
        None => false,
    };
    if str_eq(mode.as_str(), "outgoing") {
        let path = match params.from_path {
            Some(p) => p,
            None => {
                return Err(String::from_str("Missing from_path"));
            },
        };
        let line: u64 = match params.from_line {
            Some(l) => l,
            None => {
                return Err(String::from_str("Missing from_line"));
            },
        };
        let column: u64 = match params.from_column {
            Some(c) => c,
            None => 0,
        };
        Ok(CallsQuery::Outgoing { workspace_root, max_depth, include_non_workspace, path, line, column })
    } else if str_eq(mode.as_str(), "incoming") {
        let path = match params.to_path {
            Some(p) => p,
            None => {
                return Err(String::from_str("Missing to_path"));
            },
        };
        let line: u64 = match params.to_line {
            Some(l) => l,
            None => {
                return Err(String::from_str("Missing to_line"));
            },
        };
        let column: u64 = match params.to_column {
            Some(c) => c,
            None => 0,
        };
        Ok(CallsQuery::Incoming { workspace_root, max_depth, include_non_workspace, path, line, column })
    } else if str_eq(mode.as_str(), "path") {
        let from_path = match params.from_path {
            Some(p) => p,
            None => {
                return Err(String::from_str("Missing from_path"));
            },
        };
        let from_line: u64 = match params.from_line {
            Some(l) => l,
            None => {
                return Err(String::from_str("Missing from_line"));
            },
        };
        let from_column: u64 = match params.from_column {
            Some(c) => c,
            None => 0,
        };
        let to_path = match params.to_path {
            Some(p) => p,
            None => {
                return Err(String::from_str("Missing to_path"));
            },
        };
        let to_line: u64 = match params.to_line {
            Some(l) => l,
            None => {
                return Err(String::from_str("Missing to_line"));
            },
        };
        let from_symbol = match params.from_symbol {
            Some(s) => s,
            None => String::from_str("source"),
        };
        let to_symbol = match params.to_symbol {
            Some(s) => s,
            None => String::from_str("target"),
        };
        Ok(
            CallsQuery::Path {
                workspace_root,
                max_depth,
                include_non_workspace,
                from_path,
                from_line,
                from_column,
                to_path,
                to_line,
                from_symbol,
                to_symbol,
            },
        )
    } else {
        let mut e = String::from_str("Unknown calls mode: ");
        e.append(mode.as_str());
        Err(e)
    }
}

pub open spec fn depth_or_default(d: Option<u64>) -> u64 {
    match d {
        Some(v) => v,
        None => 3,
    }
}

pub open spec fn flag_or_default(b: Option<bool>) -> bool {
    match b {
        Some(v) => v,
        None => false,
    }
}

pub open spec fn col_or_default(c: Option<u64>) -> u64 {
    match c {
        Some(v) => v,
        None => 0,
    }
}

pub open spec fn symbol_or(s: Option<String>, dflt: Seq<char>) -> Seq<char> {
    match s {
        Some(v) => v@,
        None => dflt,
    }
}

/// Converts a client position (one-based line) to the zero-based LSP
/// wire position; a line of zero or a value beyond the wire width is
/// rejected.
pub fn prepare_position(line: u64, column: u64) -> (p: Option<Position>)
    ensures
        match p {
            Some(pos) => 1 <= line <= u32::MAX && column <= u32::MAX && pos.line == line - 1
                && pos.character == column,
            None => line == 0 || line > u32::MAX || column > u32::MAX,
        },
{
    if line >= 1 && line <= (u32::MAX as u64) && column <= (u32::MAX as u64) {
        Some(Position { line: (line - 1) as u32, character: column as u32 })
    } else {
        None
    }
}

/// A typed JSON-RPC error as relayed by the RPC client.
#[derive(Debug, Clone, PartialEq)]
pub struct RpcError {
    pub code: Option<i64>,
    pub message: String,
}

/// What the prepare step decided.
#[derive(Debug, PartialEq)]
pub enum PrepareOutcome {
    /// The server returned items; the walk starts at the first.
    Root(CallHierarchyItem),
    /// The server returned an empty list: an informational reply, not an
    /// error.
    NoHierarchy,
    /// The server does not implement call hierarchy.
    NotSupported,
    /// Some other protocol failure, with its user-visible message.
    Protocol(String),
}

/// The server lacks the method: the JSON-RPC method-not-found code, or a
/// message that says so.
pub open spec fn not_supported_error(code: Option<i64>, message: Seq<char>) -> bool {
    code == Some(-32601i64) || contains_seq(message, "not supported"@)
}

/// Classifies the answer of `textDocument/prepareCallHierarchy`.
pub fn classify_prepare(result: Result<Vec<CallHierarchyItem>, RpcError>) -> (o: PrepareOutcome)
    ensures
        match result {
            Ok(items) => {
                if items@.len() == 0 {
                    o is NoHierarchy
                } else {
                    o matches PrepareOutcome::Root(it) && it == items@[0]
                }
            },
            Err(e) => {
                if not_supported_error(e.code, e.message@) {
                    o is NotSupported
                } else {
                    o matches PrepareOutcome::Protocol(msg) && msg@ == "LSP error: "@ + e.message@
                }
            },
        },
{
    match result {
        Ok(mut items) => {
            if items.len() == 0 {
                PrepareOutcome::NoHierarchy
            } else {
                let first = items.remove(0);
                PrepareOutcome::Root(first)
            }
        },
        Err(e) => {
            let code_match = match e.code {
                Some(c) => c == -32601,
                None => false,
            };
            if code_match || contains_sub(e.message.as_str(), "not supported") {
                PrepareOutcome::NotSupported
            } else {
                let mut msg = String::from_str("LSP error: ");
                msg.append(e.message.as_str());
                PrepareOutcome::Protocol(msg)
            }
        },
    }
}

/// The informational reply when prepare finds nothing at the position.
pub fn no_hierarchy_message() -> (s: String)
    ensures
        s@ == "No call hierarchy found at this position"@,
{
    String::from_str("No call hierarchy found at this position")
}

/// The path-mode variant of the empty-prepare reply.
pub fn no_hierarchy_from_message() -> (s: String)
    ensures
        s@ == "No call hierarchy found at from position"@,
{
    String::from_str("No call hierarchy found at from position")
}

/// The user-visible error when the server lacks call hierarchy.
pub fn not_supported_message() -> (s: String)
    ensures
        s@ == "Call hierarchy not supported by this language server"@,
{
    String::from_str("Call hierarchy not supported by this language server")
}

/// The reply when no call chain was found within the depth budget.
pub fn path_not_found_message(from_symbol: &str, to_symbol: &str, depth: u64) -> (s: String)
    ensures
        s@ == "No path found from "@ + from_symbol@ + " to "@ + to_symbol@ + " within depth "@
            + dec_rep(depth as int),
{
    let mut s = String::from_str("No path found from ");
    s.append(from_symbol);
    s.append(" to ");
    s.append(to_symbol);
    s.append(" within depth ");
    let d = u64_to_dec(depth);
    s.append(d.as_str());
    s
}

/// A finished `calls` reply: a tree, a chain, or an informational
/// message. The wire layer serializes it.
#[derive(Debug, PartialEq)]
pub enum CallsResponse {
    Root(CallNode),
    PathNodes(Vec<CallNode>),
    Message(String),
}

/// Renders the items of a found call chain, in order, as leaf nodes.
pub fn format_path_nodes(items: &Vec<CallHierarchyItem>, workspace_root: &str) -> (nodes: Vec<
    CallNode,
>)
    requires
        forall|i: int|
            0 <= i < items@.len() ==> (#[trigger] items@[i]).selection_range.start.line
                < u32::MAX,
    ensures
        nodes@.len() == items@.len(),
        forall|i: int|
            0 <= i < items@.len() ==> {
                &&& node_matches_item(#[trigger] nodes@[i], items@[i]@, workspace_root@)
                &&& nodes@[i].calls is None
                &&& nodes@[i].called_by is None
            },
{
    let mut nodes: Vec<CallNode> = Vec::new();
    let n: usize = items.len();
    let mut i: usize = 0;
    while i < n
        invariant
            i <= n,
            n == items@.len(),
            nodes@.len() == i,
            forall|j: int|
                0 <= j < items@.len() ==> (#[trigger] items@[j]).selection_range.start.line
                    < u32::MAX,
            forall|j: int|
                0 <= j < i ==> {
                    &&& node_matches_item(#[trigger] nodes@[j], items@[j]@, workspace_root@)
                    &&& nodes@[j].calls is None
                    &&& nodes@[j].called_by is None
                },
        decreases n - i,
    {
        let node = format_call_node(&items[i], workspace_root, None, None);
        nodes.push(node);
        i += 1;
    }
    nodes
}

} // verus!
