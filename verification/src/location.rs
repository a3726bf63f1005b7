//! Client-facing result shapes: source locations, workspace summaries,
//! and the call-tree nodes the call-hierarchy walker produces.

use vstd::prelude::*;

verus! {

/// A user-visible source location: workspace-relative path and one-based
/// line.
#[derive(Debug, Clone, PartialEq)]
pub struct LocationInfo {
    pub path: String,
    pub line: u32,
    pub column: u32,
    pub context_lines: Option<Vec<String>>,
    pub context_start: Option<u32>,
    pub name: Option<String>,
    pub kind: Option<String>,
    pub detail: Option<String>,
}

impl LocationInfo {
    pub fn new(path: String, line: u32) -> (r: Self)
        ensures
            r.path == path,
            r.line == line,
            r.column == 0,
            r.context_lines is None,
            r.context_start is None,
            r.name is None,
            r.kind is None,
            r.detail is None,
    {
        Self {
            path,
            line,
            column: 0,
            context_lines: None,
            context_start: None,
            name: None,
            kind: None,
            detail: None,
        }
    }
}

#[derive(Debug, Clone, PartialEq)]
pub struct FileInfo {
    pub path: String,
    pub lines: u32,
    pub bytes: u64,
    pub symbols: Vec<(String, u32)>,
}

#[derive(Debug, Clone, PartialEq)]
pub struct CacheInfo {
    pub current_bytes: u64,
    pub max_bytes: u64,
    pub entries: u64,
}

#[derive(Debug, Clone, PartialEq)]
pub struct WorkspaceInfo {
    pub root: String,
    pub language: String,
    pub server_pid: Option<u32>,
    pub open_documents: Vec<String>,
}

/// One node of a call tree: the symbol, where it lives (workspace-relative
/// path, one-based line), and its outgoing (`calls`) or incoming
/// (`called_by`) edges, when the walker expanded them.
#[derive(Debug, PartialEq)]
pub struct CallNode {
    pub name: String,
    pub kind: Option<String>,
    pub detail: Option<String>,
    pub path: Option<String>,
    pub line: Option<u32>,
    pub column: Option<u32>,
    pub calls: Option<Vec<CallNode>>,
    pub called_by: Option<Vec<CallNode>>,
}

impl CallNode {
    pub fn new(name: String) -> (r: Self)
        ensures
            r.name == name,
            r.kind is None,
            r.detail is None,
            r.path is None,
            r.line is None,
            r.column is None,
            r.calls is None,
            r.called_by is None,
    {
        Self {
            name,
            kind: None,
            detail: None,
            path: None,
            line: None,
            column: None,
            calls: None,
            called_by: None,
        }
    }
}

} // verus!
