//! KDL schemas in their first form: validation of KDL documents.
//!
//! A schema is itself a KDL document with a top-level `document` node:
//!
//! ```text
//! document {
//!     node "person" {
//!         min 1
//!         prop "name" {
//!             required #true
//!             type "string"
//!         }
//!         value {
//!             min 0
//!             max 1
//!             type "number"
//!         }
//!     }
//! }
//! ```
//!
//! [`rules`] states what validation reports; [`validate`] computes it.

pub mod rules;
pub mod validate;

use vstd::prelude::*;

use crate::document::opt_node;

use crate::diagnostic::{diags_view, KdlDiagnostic, KdlError, Severity};
use crate::document::{find_node, KdlDocument, KdlNode, SourceSpan};
use crate::parser::{doc_model, document_of, lemma_has_node, model_has_node};
use crate::schema::rules::{definitions_of, document_diags};
use crate::schema_v2::missing_document_diag;
use crate::text::string_of;

pub use crate::schema_v2::types::ValueFormat;

verus! {

/// A KDL schema: a KDL document with a top-level `document` node.
#[derive(Debug)]
pub struct KdlSchema {
    doc: KdlDocument,
}

impl KdlSchema {
    /// The schema's document.
    pub closed spec fn schema_document(&self) -> KdlDocument {
        self.doc
    }

    /// A schema made of a parsed document; it must have a top-level `document` node.
    pub fn new(doc: KdlDocument, input: String) -> (r: Result<KdlSchema, KdlError>)
        ensures
            match r {
                Ok(s) => s.schema_document() == doc && find_node(doc.nodes@, "document"@) is Some,
                Err(e) => find_node(doc.nodes@, "document"@) is None && e.input@ == input@
                    && diags_view(e.diagnostics@) == seq![missing_document_diag()],
            },
    {
        if doc.get("document").is_none() {
            let d = KdlDiagnostic {
                span: SourceSpan { offset: 0, len: 0 },
                message: Some(string_of("Schema must have a 'document' node at root level")),
                label: Some(string_of("missing 'document' node")),
                help: Some(string_of("Add a 'document' node containing your schema definition")),
                severity: Severity::Error,
            };
            let mut diagnostics: Vec<KdlDiagnostic> = Vec::new();
            diagnostics.push(d);
            assert(diags_view(diagnostics@) =~= seq![missing_document_diag()]);
            return Err(KdlError { input, diagnostics });
        }
        Ok(KdlSchema { doc })
    }

    /// Reads a schema: a KDL document with a top-level `document` node.
    pub fn parse(input: &str) -> (r: Result<KdlSchema, KdlError>)
        ensures
            match document_of(input@) {
                Err(m) => r matches Err(e) && e.input@ == input@ && diags_view(e.diagnostics@) == seq![m],
                Ok(dm) => if model_has_node(dm.nodes, "document"@) {
                    r matches Ok(sch) && doc_model(sch.schema_document()) == dm
                } else {
                    r matches Err(e) && e.input@ == input@ && diags_view(e.diagnostics@) == seq![
                        missing_document_diag(),
                    ]
                },
            },
    {
        let doc = KdlDocument::parse(input)?;
        proof {
            lemma_has_node(doc, "document"@);
        }
        KdlSchema::new(doc, string_of(input))
    }

    /// The diagnostics of validating `target` against this schema (see
    /// [`document_diags`]); none where the document is valid.
    pub fn validate(&self, target: &KdlDocument) -> (r: Vec<KdlDiagnostic>)
        ensures
            diags_view(r@) == document_diags(self.schema_document(), *target),
    {
        validate::validate_document(self, target)
    }

    /// The schema's document.
    pub fn document(&self) -> (r: &KdlDocument)
        ensures
            *r == self.schema_document(),
    {
        &self.doc
    }

    /// The top-level `document` node.
    pub fn document_node(&self) -> (r: Option<&KdlNode>)
        ensures
            opt_node(r) == find_node(self.schema_document().nodes@, "document"@),
    {
        self.doc.get("document")
    }

    /// The `definitions` node inside the `document` node, where the shared
    /// definitions that `ref=` names stand.
    pub fn definitions(&self) -> (r: Option<&KdlNode>)
        ensures
            opt_node(r) == definitions_of(self.schema_document()),
    {
        let dn = self.document_node()?;
        match &dn.children {
            Some(ch) => ch.get("definitions"),
            None => None,
        }
    }
}

} // verus!
