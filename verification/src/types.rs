//! Wire-level LSP data types.
//!
//! These mirror the JSON shapes exchanged with a language server. The
//! daemon's I/O layer owns the JSON encoding; here the types are plain
//! values that the verified logic can inspect.

use vstd::prelude::*;

verus! {

/// A text position in LSP wire units: zero-based line and character.
#[derive(Debug, Clone, Copy, PartialEq, Eq, Structural)]
pub struct Position {
    pub line: u32,
    pub character: u32,
}

impl Position {
    pub fn new(line: u32, character: u32) -> (p: Self)
        ensures
            p.line == line,
            p.character == character,
    {
        Self { line, character }
    }
}

/// A half-open span between two positions.
#[derive(Debug, Clone, Copy, PartialEq, Eq, Structural)]
pub struct Range {
    pub start: Position,
    pub end: Position,
}

#[derive(Debug, Clone, PartialEq)]
pub struct Location {
    pub uri: String,
    pub range: Range,
}

#[derive(Debug, Clone, PartialEq)]
pub struct LocationLink {
    pub origin_selection_range: Option<Range>,
    pub target_uri: String,
    pub target_range: Range,
    pub target_selection_range: Range,
}

#[derive(Debug, Clone, PartialEq)]
pub struct TextDocumentIdentifier {
    pub uri: String,
}

#[derive(Debug, Clone, PartialEq)]
pub struct TextDocumentPositionParams {
    pub text_document: TextDocumentIdentifier,
    pub position: Position,
}

#[derive(Debug, Clone, PartialEq)]
pub struct ReferenceContext {
    pub include_declaration: bool,
}

#[derive(Debug, Clone, PartialEq)]
pub struct ReferenceParams {
    pub text_document: TextDocumentIdentifier,
    pub position: Position,
    pub context: ReferenceContext,
}

#[derive(Debug, Clone, PartialEq)]
pub struct DocumentSymbolParams {
    pub text_document: TextDocumentIdentifier,
}

#[derive(Debug, PartialEq)]
pub struct DocumentSymbol {
    pub name: String,
    pub kind: u32,
    pub detail: Option<String>,
    pub range: Range,
    pub selection_range: Range,
    pub children: Vec<DocumentSymbol>,
}

#[derive(Debug, Clone, PartialEq)]
pub struct SymbolInformation {
    pub name: String,
    pub kind: u32,
    pub location: Location,
    pub container_name: Option<String>,
}

#[derive(Debug, PartialEq)]
pub enum DocumentSymbolResponse {
    Nested(Vec<DocumentSymbol>),
    Flat(Vec<SymbolInformation>),
}

#[derive(Debug, Clone, PartialEq)]
pub struct RenameParams {
    pub text_document: TextDocumentIdentifier,
    pub position: Position,
    pub new_name: String,
}

#[derive(Debug, Clone, PartialEq)]
pub struct TextEdit {
    pub range: Range,
    pub new_text: String,
}

#[derive(Debug, Clone, PartialEq)]
pub struct VersionedTextDocumentIdentifier {
    pub uri: String,
    pub version: Option<i32>,
}

#[derive(Debug, Clone, PartialEq)]
pub struct TextDocumentEdit {
    pub text_document: VersionedTextDocumentIdentifier,
    pub edits: Vec<TextEdit>,
}

#[derive(Debug, Clone, PartialEq)]
pub struct CreateFile {
    pub kind: String,
    pub uri: String,
}

#[derive(Debug, Clone, PartialEq)]
pub struct RenameFile {
    pub kind: String,
    pub old_uri: String,
    pub new_uri: String,
}

#[derive(Debug, Clone, PartialEq)]
pub struct DeleteFile {
    pub kind: String,
    pub uri: String,
}

#[derive(Debug, Clone, PartialEq)]
pub enum DocumentChange {
    Edit(TextDocumentEdit),
    Create(CreateFile),
    Rename(RenameFile),
    Delete(DeleteFile),
}

#[derive(Debug, Clone, PartialEq)]
pub struct WorkspaceEdit {
    pub changes: Option<Vec<(String, Vec<TextEdit>)>>,
    pub document_changes: Option<Vec<DocumentChange>>,
}

/// A symbol with a declaration location and an identifier location, as
/// returned by `textDocument/prepareCallHierarchy`.
#[derive(Debug, Clone, PartialEq)]
pub struct CallHierarchyItem {
    pub name: String,
    pub kind: u32,
    pub detail: Option<String>,
    pub uri: String,
    pub range: Range,
    pub selection_range: Range,
}

/// The ghost image of an optional string.
pub open spec fn opt_str_view(o: Option<String>) -> Option<Seq<char>> {
    match o {
        Some(s) => Some(s@),
        None => None,
    }
}

/// The ghost image of a `CallHierarchyItem`: its strings as character
/// sequences. Contracts about items are stated over this shape.
#[verifier::ext_equal]
pub struct ItemView {
    pub name: Seq<char>,
    pub kind: u32,
    pub detail: Option<Seq<char>>,
    pub uri: Seq<char>,
    pub range: Range,
    pub selection_range: Range,
}

impl View for CallHierarchyItem {
    type V = ItemView;

    open spec fn view(&self) -> ItemView {
        ItemView {
            name: self.name@,
            kind: self.kind,
            detail: match self.detail {
                Some(d) => Some(d@),
                None => None,
            },
            uri: self.uri@,
            range: self.range,
            selection_range: self.selection_range,
        }
    }
}

#[derive(Debug, Clone, PartialEq)]
pub struct CallHierarchyIncomingCall {
    pub from: CallHierarchyItem,
    pub from_ranges: Vec<Range>,
}

#[derive(Debug, Clone, PartialEq)]
pub struct CallHierarchyOutgoingCall {
    pub to: CallHierarchyItem,
    pub from_ranges: Vec<Range>,
}

#[derive(Debug, Clone, PartialEq)]
pub struct TypeHierarchyItem {
    pub name: String,
    pub kind: u32,
    pub detail: Option<String>,
    pub uri: String,
    pub range: Range,
    pub selection_range: Range,
}

#[derive(Debug, Clone, PartialEq)]
pub struct FileRename {
    pub old_uri: String,
    pub new_uri: String,
}

#[derive(Debug, Clone, PartialEq)]
pub struct RenameFilesParams {
    pub files: Vec<FileRename>,
}

#[derive(Debug, Clone, PartialEq)]
pub struct MarkupContent {
    pub kind: String,
    pub value: String,
}

#[derive(Debug, Clone, PartialEq)]
pub enum MarkedString {
    String(String),
    LanguageString { language: String, value: String },
}

#[derive(Debug, Clone, PartialEq)]
pub enum HoverContents {
    Markup(MarkupContent),
    MarkedString(MarkedString),
    MarkedStrings(Vec<MarkedString>),
    String(String),
}

#[derive(Debug, Clone, PartialEq)]
pub struct Hover {
    pub contents: HoverContents,
    pub range: Option<Range>,
}

#[derive(Debug, Clone, PartialEq)]
pub enum RenameProvider {
    Bool(bool),
    Options { prepare_provider: Option<bool> },
}

#[derive(Debug, Clone, PartialEq)]
pub struct ServerCapabilities {
    pub definition_provider: Option<bool>,
    pub declaration_provider: Option<bool>,
    pub references_provider: Option<bool>,
    pub implementation_provider: Option<bool>,
    pub type_definition_provider: Option<bool>,
    pub document_symbol_provider: Option<bool>,
    pub rename_provider: Option<RenameProvider>,
    pub hover_provider: Option<bool>,
    pub call_hierarchy_provider: Option<bool>,
    pub type_hierarchy_provider: Option<bool>,
}

#[derive(Debug, Clone, PartialEq)]
pub struct InitializeResult {
    pub capabilities: ServerCapabilities,
}

#[derive(Debug, Clone, PartialEq)]
pub struct WorkspaceFolder {
    pub uri: String,
    pub name: String,
}

#[derive(Debug, Clone, PartialEq)]
pub struct WorkspaceEditCapabilities {
    pub document_changes: Option<bool>,
    pub resource_operations: Option<Vec<String>>,
}

#[derive(Debug, Clone, PartialEq)]
pub struct FileOperationsCapabilities {
    pub will_rename: Option<bool>,
}

#[derive(Debug, Clone, PartialEq)]
pub struct WorkspaceClientCapabilities {
    pub workspace_edit: Option<WorkspaceEditCapabilities>,
    pub file_operations: Option<FileOperationsCapabilities>,
}

#[derive(Debug, Clone, PartialEq)]
pub struct DefinitionCapabilities {
    pub link_support: Option<bool>,
}

#[derive(Debug, Clone, PartialEq)]
pub struct ReferencesCapabilities {}

#[derive(Debug, Clone, PartialEq)]
pub struct DocumentSymbolCapabilities {
    pub hierarchical_document_symbol_support: Option<bool>,
}

#[derive(Debug, Clone, PartialEq)]
pub struct RenameCapabilities {
    pub prepare_support: Option<bool>,
}

#[derive(Debug, Clone, PartialEq)]
pub struct HoverCapabilities {
    pub content_format: Option<Vec<String>>,
}

#[derive(Debug, Clone, PartialEq)]
pub struct CallHierarchyCapabilities {}

#[derive(Debug, Clone, PartialEq)]
pub struct TypeHierarchyCapabilities {}

#[derive(Debug, Clone, PartialEq)]
pub struct TextDocumentClientCapabilities {
    pub definition: Option<DefinitionCapabilities>,
    pub references: Option<ReferencesCapabilities>,
    pub document_symbol: Option<DocumentSymbolCapabilities>,
    pub rename: Option<RenameCapabilities>,
    pub hover: Option<HoverCapabilities>,
    pub call_hierarchy: Option<CallHierarchyCapabilities>,
    pub type_hierarchy: Option<TypeHierarchyCapabilities>,
}

#[derive(Debug, Clone, PartialEq)]
pub struct WindowClientCapabilities {
    pub work_done_progress: Option<bool>,
}

#[derive(Debug, Clone, PartialEq)]
pub struct ClientCapabilities {
    pub workspace: Option<WorkspaceClientCapabilities>,
    pub text_document: Option<TextDocumentClientCapabilities>,
    pub window: Option<WindowClientCapabilities>,
}

/// Handshake parameters. `initialization_options` carries the raw JSON
/// text of the server-specific options; the I/O layer embeds it as JSON.
#[derive(Debug, Clone, PartialEq)]
pub struct InitializeParams {
    pub process_id: Option<u32>,
    pub root_uri: Option<String>,
    pub root_path: Option<String>,
    pub capabilities: ClientCapabilities,
    pub workspace_folders: Option<Vec<WorkspaceFolder>>,
    pub initialization_options: Option<String>,
}

#[derive(Debug, Clone, Copy, PartialEq, Eq, Structural)]
pub enum FileChangeType {
    Created,
    Changed,
    Deleted,
}

impl FileChangeType {
    /// The numeric code used on the wire for this change kind.
    pub fn code(&self) -> (c: u32)
        ensures
            c == match *self {
                FileChangeType::Created => 1u32,
                FileChangeType::Changed => 2u32,
                FileChangeType::Deleted => 3u32,
            },
    {
        match self {
            FileChangeType::Created => 1,
            FileChangeType::Changed => 2,
            FileChangeType::Deleted => 3,
        }
    }
}

#[derive(Debug, Clone, PartialEq)]
pub struct FileEvent {
    pub uri: String,
    pub change_type: u32,
}

#[derive(Debug, Clone, PartialEq)]
pub struct DidChangeWatchedFilesParams {
    pub changes: Vec<FileEvent>,
}

} // verus!
