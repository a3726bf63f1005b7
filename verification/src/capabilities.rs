//! The capability set this client advertises in the `initialize`
//! handshake.

use vstd::prelude::*;
use vstd::string::StringExecFns;
use crate::types::CallHierarchyCapabilities;
use crate::types::ClientCapabilities;
use crate::types::DefinitionCapabilities;
use crate::types::DocumentSymbolCapabilities;
use crate::types::FileOperationsCapabilities;
use crate::types::HoverCapabilities;
use crate::types::ReferencesCapabilities;
use crate::types::RenameCapabilities;
use crate::types::TextDocumentClientCapabilities;
use crate::types::TypeHierarchyCapabilities;
use crate::types::WindowClientCapabilities;
use crate::types::WorkspaceClientCapabilities;
use crate::types::WorkspaceEditCapabilities;

verus! {

/// What the daemon advertises: hierarchical document symbols, link
/// support on definition, prepare support on rename, markdown and
/// plaintext hover, call and type hierarchy, document changes with
/// create/rename/delete resource operations, file renames, and
/// work-done progress.
pub fn get_client_capabilities() -> (c: ClientCapabilities)
    ensures
        (c.text_document matches Some(t) && {
            &&& t.definition matches Some(d)
            &&& d.link_support == Some(true)
            &&& t.document_symbol matches Some(ds)
            &&& ds.hierarchical_document_symbol_support == Some(true)
            &&& t.rename matches Some(r)
            &&& r.prepare_support == Some(true)
            &&& t.hover matches Some(h)
            &&& h.content_format matches Some(f)
            &&& f@.len() == 2 && f@[0]@ == "markdown"@ && f@[1]@ == "plaintext"@
            &&& t.references is Some
            &&& t.call_hierarchy is Some
            &&& t.type_hierarchy is Some
        }),
        (c.workspace matches Some(w) && {
            &&& w.workspace_edit matches Some(e)
            &&& e.document_changes == Some(true)
            &&& e.resource_operations matches Some(ops)
            &&& ops@.len() == 3 && ops@[0]@ == "create"@ && ops@[1]@ == "rename"@ && ops@[2]@
                == "delete"@
            &&& w.file_operations matches Some(fo)
            &&& fo.will_rename == Some(true)
        }),
        (c.window matches Some(win) && {
            &&& win.work_done_progress == Some(true)
        }),
{
    let mut content_format: Vec<String> = Vec::new();
    content_format.push(String::from_str("markdown"));
    content_format.push(String::from_str("plaintext"));
    let mut resource_operations: Vec<String> = Vec::new();
    resource_operations.push(String::from_str("create"));
    resource_operations.push(String::from_str("rename"));
    resource_operations.push(String::from_str("delete"));
    ClientCapabilities {
        workspace: Some(
            WorkspaceClientCapabilities {
                workspace_edit: Some(
                    WorkspaceEditCapabilities {
                        document_changes: Some(true),
                        resource_operations: Some(resource_operations),
                    },
                ),
                file_operations: Some(FileOperationsCapabilities { will_rename: Some(true) }),
            },
        ),
        text_document: Some(
            TextDocumentClientCapabilities {
                definition: Some(DefinitionCapabilities { link_support: Some(true) }),
                references: Some(ReferencesCapabilities {  }),
                document_symbol: Some(
                    DocumentSymbolCapabilities {
                        hierarchical_document_symbol_support: Some(true),
                    },
                ),
                rename: Some(RenameCapabilities { prepare_support: Some(true) }),
                hover: Some(HoverCapabilities { content_format: Some(content_format) }),
                call_hierarchy: Some(CallHierarchyCapabilities {  }),
                type_hierarchy: Some(TypeHierarchyCapabilities {  }),
            },
        ),
        window: Some(WindowClientCapabilities { work_done_progress: Some(true) }),
    }
}

} // verus!
