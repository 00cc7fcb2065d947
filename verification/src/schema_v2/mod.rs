//! KDL Schema v2: validation of KDL documents against schemas.
//!
//! A schema is itself a KDL document with a top-level `document` node that
//! describes the nodes a document may hold: their arguments (`arg`, `args`),
//! properties (`prop`, `props`), children (`children`), how often they occur
//! (`required`, `repeatable`), and constraints on values (`type`, `enum`,
//! `pattern`, `format`, `gt`/`gte`/`lt`/`lte`, `%`, lengths). A `ref` child
//! refers to a definition under the top-level `definitions` node, by KDL query
//! or by `id=`.

pub mod check;
pub mod formats;
pub mod rules;
pub mod types;
pub(crate) mod validate;

use vstd::prelude::*;

use crate::text::opt_str;
use crate::document::opt_node;

use crate::diagnostic::{diags_view, lemma_diags_view_push, DiagnosticModel, KdlDiagnostic, KdlError, Severity};
use crate::document::{find_node, last_prop, nth_arg, KdlDocument, KdlEntry, KdlNode, SourceSpan};
use crate::parser::{doc_model, document_of, lemma_has_node, model_has_node};
use crate::schema_v2::rules::document_diags;
use crate::text::{push_str, str_eq, string_of};
use crate::value::{KdlValue, ValueModel};

pub use crate::schema_v2::types::ValueFormat;
pub use crate::schema_v2::validate::{build_validations, resolve_ref, validate_document};

verus! {

/// A schema reference taken from a document's `@ksl:schema` node.
#[derive(Debug)]
pub struct SchemaDirective {
    /// Path to the schema file (relative or absolute).
    pub path: String,
    /// Where the directive stands in the document.
    pub span: SourceSpan,
    /// Whether the schema's errors are to be reported as warnings.
    pub warn_only: bool,
}

/// How a document names its schemas.
#[derive(Debug)]
pub enum SchemaSource {
    /// Through `@ksl:schema` directives; every schema named must validate.
    Directives(Vec<SchemaDirective>),
    /// The document names no schema.
    Absent,
}

/// What validating a document against the schemas it names gave.
#[derive(Debug)]
pub struct ValidationResult {
    /// The diagnostics of all schemas.
    pub diagnostics: Vec<KdlDiagnostic>,
    /// The paths of the schemas that were loaded and applied.
    pub validated_schemas: Vec<String>,
    /// The schemas that could not be loaded: the resolved path and the path as written.
    pub failed_schemas: Vec<(String, String)>,
}

/// What a directive holds.
pub struct DirectiveModel {
    pub path: Seq<char>,
    pub span: SourceSpan,
    pub warn_only: bool,
}

impl View for SchemaDirective {
    type V = DirectiveModel;

    open spec fn view(&self) -> DirectiveModel {
        DirectiveModel { path: self.path@, span: self.span, warn_only: self.warn_only }
    }
}

/// The schema paths among a directive node's entries: its positional strings.
pub open spec fn directive_paths(es: Seq<KdlEntry>, span: SourceSpan, warn_only: bool) -> Seq<DirectiveModel>
    decreases es.len(),
{
    if es.len() == 0 {
        Seq::empty()
    } else {
        directive_paths(es.drop_last(), span, warn_only) + match (es.last().name, es.last().value) {
            (None, KdlValue::String(p)) => seq![DirectiveModel { path: p@, span, warn_only }],
            _ => Seq::empty(),
        }
    }
}

/// Whether a directive node asks for warnings only: its `warn-only=` property is `#true`.
pub open spec fn warn_only_of(n: KdlNode) -> bool {
    match last_prop(n.entries@, "warn-only"@) {
        Some(e) => e.value@ == ValueModel::Bool(true),
        None => false,
    }
}

/// The directives of the `@ksl:schema` nodes among `nodes`, in order.
pub open spec fn directives_of(nodes: Seq<KdlNode>) -> Seq<DirectiveModel>
    decreases nodes.len(),
{
    if nodes.len() == 0 {
        Seq::empty()
    } else if nodes.last().name.value@ == "@ksl:schema"@ {
        directives_of(nodes.drop_last()) + directive_paths(
            nodes.last().entries@,
            nodes.last().span,
            warn_only_of(nodes.last()),
        )
    } else {
        directives_of(nodes.drop_last())
    }
}

/// A diagnostic as `warn_only` reports it: errors become warnings.
pub open spec fn downgraded(d: DiagnosticModel, warn_only: bool) -> DiagnosticModel {
    if warn_only && d.severity == Severity::Error {
        DiagnosticModel { severity: Severity::Warning, ..d }
    } else {
        d
    }
}

/// The schema URL of a document: the string first argument of its `@ksl:schema` node.
pub open spec fn schema_url_of(doc: KdlDocument) -> Option<Seq<char>> {
    match find_node(doc.nodes@, "@ksl:schema"@) {
        Some(n) => match nth_arg(n.entries@, 0) {
            Some(KdlValue::String(s)) => Some(s@),
            _ => None,
        },
        None => None,
    }
}

/// The error of a schema document without a `document` node.
pub open spec fn missing_document_diag() -> DiagnosticModel {
    DiagnosticModel {
        span: SourceSpan { offset: 0, len: 0 },
        message: Some("Schema must have a 'document' node at root level"@),
        label: Some("missing 'document' node"@),
        help: Some("Add a 'document' node containing your schema definition"@),
        severity: Severity::Error,
    }
}



/// Joins a schema path to the directory of the document that names it: an
/// absolute path (one that starts with `/`) stands as it is; a relative one
/// follows the directory, with a `/` between them where the directory does not
/// end with one.
pub open spec fn joined_path(path: Seq<char>, dir: Seq<char>) -> Seq<char> {
    if path.len() > 0 && path[0] == '/' {
        path
    } else if dir.len() == 0 {
        path
    } else if dir.last() == '/' {
        dir + path
    } else {
        dir + seq!['/'] + path
    }
}

/// A schema path resolved against the directory of the document that names it
/// (see [`joined_path`]); making the result canonical is left to the caller,
/// which has the file system.
pub fn resolve_schema_path(schema_path: &str, document_dir: &str) -> (r: String)
    ensures
        r@ == joined_path(schema_path@, document_dir@),
{
    let p = crate::text::chars_of(schema_path);
    let d = crate::text::chars_of(document_dir);
    if p.len() > 0 && p[0] == '/' {
        string_of(schema_path)
    } else if d.len() == 0 {
        string_of(schema_path)
    } else if d[d.len() - 1] == '/' {
        let mut r = string_of(document_dir);
        push_str(&mut r, schema_path);
        r
    } else {
        let mut r = string_of(document_dir);
        crate::text::push_char(&mut r, '/');
        push_str(&mut r, schema_path);
        r
    }
}

/// A KDL Schema v2: a KDL document with a top-level `document` node.
#[derive(Debug)]
pub struct KdlSchemaV2 {
    doc: KdlDocument,
}

impl KdlSchemaV2 {
    /// The schema's document.
    pub closed spec fn schema_document(&self) -> KdlDocument {
        self.doc
    }

    /// A schema made of a parsed document; it must have a top-level `document` node.
    pub fn new(doc: KdlDocument, input: String) -> (r: Result<KdlSchemaV2, KdlError>)
        ensures
            match r {
                Ok(s) => s.schema_document() == doc && find_node(doc.nodes@, "document"@) is Some,
                Err(e) => find_node(doc.nodes@, "document"@) is None && e.input@ == input@
                    && diags_view(e.diagnostics@) == seq![missing_document_diag()],
            },
    {
        if doc.get("document").is_none() {
            let d = KdlDiagnostic {
                span: SourceSpan { offset: 0, len: 0 },
                message: Some(string_of("Schema must have a 'document' node at root level")),
                label: Some(string_of("missing 'document' node")),
                help: Some(string_of("Add a 'document' node containing your schema definition")),
                severity: Severity::Error,
            };
            let mut diagnostics: Vec<KdlDiagnostic> = Vec::new();
            diagnostics.push(d);
            assert(diags_view(diagnostics@) =~= seq![missing_document_diag()]);
            return Err(KdlError { input, diagnostics });
        }
        Ok(KdlSchemaV2 { doc })
    }

    /// Reads a schema: a KDL document with a top-level `document` node.
    pub fn parse(input: &str) -> (r: Result<KdlSchemaV2, KdlError>)
        ensures
            match document_of(input@) {
                Err(m) => r matches Err(e) && e.input@ == input@ && diags_view(e.diagnostics@) == seq![m],
                Ok(dm) => if model_has_node(dm.nodes, "document"@) {
                    r matches Ok(sch) && doc_model(sch.schema_document()) == dm
                } else {
                    r matches Err(e) && e.input@ == input@ && diags_view(e.diagnostics@) == seq![missing_document_diag()]
                },
            },
    {
        let doc = KdlDocument::parse(input)?;
        proof {
            lemma_has_node(doc, "document"@);
        }
        KdlSchemaV2::new(doc, string_of(input))
    }

    /// The diagnostics of validating `target` against this schema (see
    /// [`document_diags`]); none where the document is valid.
    pub fn validate(&self, target: &KdlDocument) -> (r: Vec<KdlDiagnostic>)
        ensures
            diags_view(r@) == document_diags(self.schema_document(), *target),
    {
        validate_document(&self.doc, target)
    }

    /// The schema's document.
    pub fn document(&self) -> (r: &KdlDocument)
        ensures
            *r == self.schema_document(),
    {
        &self.doc
    }

    /// The schema URL of a `@ksl:schema` node of the schema itself, if any.
    pub fn schema_url(&self) -> (r: Option<&str>)
        ensures
            opt_str(r) == schema_url_of(self.schema_document()),
    {
        match self.doc.get("@ksl:schema") {
            Some(n) => match n.get(0) {
                Some(v) => v.as_string(),
                None => None,
            },
            None => None,
        }
    }

    /// The top-level `document` node.
    pub fn document_node(&self) -> (r: Option<&KdlNode>)
        ensures
            opt_node(r) == find_node(self.schema_document().nodes@, "document"@),
    {
        self.doc.get("document")
    }

    /// The top-level `metadata` node.
    pub fn metadata(&self) -> (r: Option<&KdlNode>)
        ensures
            opt_node(r) == find_node(self.schema_document().nodes@, "metadata"@),
    {
        self.doc.get("metadata")
    }

    /// The schema's identifier: the string first argument of `metadata`'s `id` child.
    pub fn metadata_id(&self) -> (r: Option<&str>)
        ensures
            opt_str(r) == match find_node(self.schema_document().nodes@, "metadata"@) {
                Some(m) => match m.children {
                    Some(c) => match find_node(c.nodes@, "id"@) {
                        Some(idn) => match nth_arg(idn.entries@, 0) {
                            Some(KdlValue::String(s)) => Some(s@),
                            _ => None,
                        },
                        None => None,
                    },
                    None => None,
                },
                None => None,
            },
    {
        let metadata = self.metadata()?;
        let children = metadata.children()?;
        let id_node = children.get("id")?;
        id_node.get(0)?.as_string()
    }

    /// The top-level `definitions` node.
    pub fn definitions(&self) -> (r: Option<&KdlNode>)
        ensures
            opt_node(r) == find_node(self.schema_document().nodes@, "definitions"@),
    {
        self.doc.get("definitions")
    }

    /// The `@ksl:schema` directives of a document (see [`directives_of`]).
    pub fn extract_directives(doc: &KdlDocument) -> (r: SchemaSource)
        ensures
            match r {
                SchemaSource::Directives(ds) => ds@.len() > 0 && ds@.map_values(|d: SchemaDirective| d@)
                    == directives_of(doc.nodes@),
                SchemaSource::Absent => directives_of(doc.nodes@).len() == 0,
            },
    {
        let mut out: Vec<SchemaDirective> = Vec::new();
        let mut i: usize = 0;
        while i < doc.nodes.len()
            invariant
                i <= doc.nodes@.len(),
                out@.map_values(|d: SchemaDirective| d@) == directives_of(doc.nodes@.take(i as int)),
            decreases doc.nodes.len() - i,
        {
            assert(doc.nodes@.take(i + 1).drop_last() =~= doc.nodes@.take(i as int));
            let node = &doc.nodes[i];
            if str_eq(node.name.value.as_str(), "@ksl:schema") {
                let warn_only = match node.entry("warn-only") {
                    Some(e) => match e.value.as_bool() {
                        Some(b) => b,
                        None => false,
                    },
                    None => false,
                };
                let ghost base = out@.map_values(|d: SchemaDirective| d@);
                let mut j: usize = 0;
                while j < node.entries.len()
                    invariant
                        j <= node.entries@.len(),
                        warn_only == warn_only_of(*node),
                        out@.map_values(|d: SchemaDirective| d@) == base + directive_paths(
                            node.entries@.take(j as int),
                            node.span,
                            warn_only,
                        ),
                    decreases node.entries.len() - j,
                {
                    assert(node.entries@.take(j + 1).drop_last() =~= node.entries@.take(j as int));
                    let e = &node.entries[j];
                    let ghost before = out@.map_values(|d: SchemaDirective| d@);
                    assert(node.entries@.take(j + 1).last() == *e);
                    assert(directive_paths(node.entries@.take(j + 1), node.span, warn_only) == directive_paths(
                        node.entries@.take(j as int),
                        node.span,
                        warn_only,
                    ) + match (e.name, e.value) {
                        (None, KdlValue::String(p)) => seq![DirectiveModel { path: p@, span: node.span, warn_only }],
                        _ => Seq::empty(),
                    });
                    if e.name.is_none() {
                        match &e.value {
                            KdlValue::String(p) => {
                                let sd = SchemaDirective { path: p.clone(), span: node.span, warn_only };
                                assert(sd@ == DirectiveModel { path: p@, span: node.span, warn_only });
                                out.push(sd);
                                assert(out@.map_values(|d: SchemaDirective| d@) =~= before.push(
                                    DirectiveModel { path: p@, span: node.span, warn_only },
                                ));
                            },
                            _ => {},
                        }
                    }
                    j += 1;
                    assert(out@.map_values(|d: SchemaDirective| d@) =~= base + directive_paths(
                        node.entries@.take(j as int),
                        node.span,
                        warn_only,
                    ));
                }
                assert(node.entries@.take(j as int) =~= node.entries@);
            }
            i += 1;
            assert(out@.map_values(|d: SchemaDirective| d@) =~= directives_of(doc.nodes@.take(i as int)));
        }
        assert(doc.nodes@.take(i as int) =~= doc.nodes@);
        if out.len() == 0 {
            SchemaSource::Absent
        } else {
            SchemaSource::Directives(out)
        }
    }

    /// The diagnostics of [`KdlSchemaV2::validate`], with errors reported as
    /// warnings where `warn_only` is set.
    pub fn validate_with_severity(&self, target: &KdlDocument, warn_only: bool) -> (r: Vec<KdlDiagnostic>)
        ensures
            diags_view(r@) == document_diags(self.schema_document(), *target).map_values(
                |d: DiagnosticModel| downgraded(d, warn_only),
            ),
    {
        let diags = self.validate(target);
        let ghost src = diags_view(diags@);
        let mut out: Vec<KdlDiagnostic> = Vec::new();
        let rest = diags;
        let mut i: usize = 0;
        let ghost all = rest@;
        while i < rest.len()
            invariant
                i <= all.len(),
                src == diags_view(all),
                all == rest@,
                diags_view(out@) == src.take(i as int).map_values(|d: DiagnosticModel| downgraded(d, warn_only)),
            decreases rest.len() - i,
        {
            let d = &rest[i];
            let sev = if warn_only && d.severity == Severity::Error {
                Severity::Warning
            } else {
                d.severity
            };
            let nd = KdlDiagnostic {
                span: d.span,
                message: clone_text(&d.message),
                label: clone_text(&d.label),
                help: clone_text(&d.help),
                severity: sev,
            };
            proof {
                lemma_diags_view_push(out@, nd);
            }
            out.push(nd);
            i += 1;
            assert(diags_view(out@) =~= src.take(i as int).map_values(|d: DiagnosticModel| downgraded(d, warn_only)));
        }
        assert(src.take(i as int) =~= src);
        out
    }
}

/// The message of a schema file that could not be read.
pub open spec fn read_failure_message(path: Seq<char>, reason: Seq<char>) -> Seq<char> {
    "Failed to read schema file '"@ + path + "': "@ + reason
}

/// The diagnostic of a directive whose schema could not be loaded, given the
/// first message of the loading error, if it had one.
pub open spec fn load_failure_diag(d: DirectiveModel, first_message: Option<Seq<char>>) -> DiagnosticModel {
    DiagnosticModel {
        span: d.span,
        message: Some(
            "Failed to load schema '"@ + d.path + "': "@ + match first_message {
                Some(m) => m,
                None => "unknown error"@,
            },
        ),
        label: Some("schema directive"@),
        help: Some("Check that the schema file exists and is valid"@),
        severity: if d.warn_only { Severity::Warning } else { Severity::Error },
    }
}

/// The first message of an error's diagnostics, if the first has one.
pub open spec fn first_message(e: KdlError) -> Option<Seq<char>> {
    if e.diagnostics@.len() == 0 {
        None
    } else {
        crate::diagnostic::opt_text(e.diagnostics@[0].message)
    }
}

pub open spec fn texts_of(v: Seq<String>) -> Seq<Seq<char>> {
    v.map_values(|s: String| s@)
}

pub open spec fn text_pairs_of(v: Seq<(String, String)>) -> Seq<(Seq<char>, Seq<char>)> {
    v.map_values(|p: (String, String)| (p.0@, p.1@))
}

impl KdlSchemaV2 {
    /// The error of a schema file that could not be read: no input, and one
    /// error diagnostic at the start, `Failed to read schema file '{path}': {reason}`.
    pub fn read_failure(path: &str, reason: &str) -> (e: KdlError)
        ensures
            e.input@ == Seq::<char>::empty(),
            diags_view(e.diagnostics@) == seq![
                DiagnosticModel {
                    span: SourceSpan { offset: 0, len: 0 },
                    message: Some(read_failure_message(path@, reason@)),
                    label: None,
                    help: None,
                    severity: Severity::Error,
                },
            ],
    {
        let mut msg = string_of("Failed to read schema file '");
        push_str(&mut msg, path);
        push_str(&mut msg, "': ");
        push_str(&mut msg, reason);
        let d = KdlDiagnostic {
            span: SourceSpan { offset: 0, len: 0 },
            message: Some(msg),
            label: None,
            help: None,
            severity: Severity::Error,
        };
        let mut diagnostics: Vec<KdlDiagnostic> = Vec::new();
        diagnostics.push(d);
        let e = KdlError { input: String::new(), diagnostics };
        assert(diags_view(e.diagnostics@) =~= seq![d@]);
        e
    }
}

impl ValidationResult {
    /// Whether the diagnostics gathered so far hold an error: a document with
    /// one fails its check.
    pub fn has_errors(&self) -> (r: bool)
        ensures
            r == has_error(diags_view(self.diagnostics@)),
    {
        let ghost ds = diags_view(self.diagnostics@);
        let mut i: usize = 0;
        while i < self.diagnostics.len()
            invariant
                i <= self.diagnostics@.len(),
                ds == diags_view(self.diagnostics@),
                forall|j: int| 0 <= j < i ==> (#[trigger] ds[j]).severity != Severity::Error,
            decreases self.diagnostics.len() - i,
        {
            assert(ds[i as int] == self.diagnostics@[i as int]@);
            if self.diagnostics[i].severity == Severity::Error {
                return true;
            }
            i += 1;
        }
        false
    }

    /// A result with nothing validated yet.
    pub fn new() -> (r: ValidationResult)
        ensures
            r.diagnostics@.len() == 0,
            r.validated_schemas@.len() == 0,
            r.failed_schemas@.len() == 0,
    {
        ValidationResult { diagnostics: Vec::new(), validated_schemas: Vec::new(), failed_schemas: Vec::new() }
    }

    /// Takes in what loading one directive's schema gave: `schema_path` is the
    /// directive's path resolved, `loaded` the schema read from it or the error
    /// of reading it. A loaded schema adds its diagnostics for `doc` (errors as
    /// warnings where the directive is warn-only) and its path to the validated
    /// schemas; an error adds one diagnostic at the directive and the pair of
    /// paths to the failed schemas.
    pub fn record(
        &mut self,
        doc: &KdlDocument,
        directive: &SchemaDirective,
        schema_path: String,
        loaded: Result<KdlSchemaV2, KdlError>,
    )
        ensures
            match loaded {
                Ok(s) => {
                    &&& diags_view(final(self).diagnostics@) == diags_view(old(self).diagnostics@)
                        + document_diags(s.schema_document(), *doc).map_values(
                        |d: DiagnosticModel| downgraded(d, directive.warn_only),
                    )
                    &&& texts_of(final(self).validated_schemas@) == texts_of(old(self).validated_schemas@).push(
                        schema_path@,
                    )
                    &&& final(self).failed_schemas@ == old(self).failed_schemas@
                },
                Err(e) => {
                    &&& diags_view(final(self).diagnostics@) == diags_view(old(self).diagnostics@).push(
                        load_failure_diag(directive@, first_message(e)),
                    )
                    &&& final(self).validated_schemas@ == old(self).validated_schemas@
                    &&& text_pairs_of(final(self).failed_schemas@) == text_pairs_of(old(self).failed_schemas@).push(
                        (schema_path@, directive.path@),
                    )
                },
            },
    {
        match loaded {
            Ok(schema) => {
                let diags = schema.validate_with_severity(doc, directive.warn_only);
                crate::diagnostic::extend_diags(&mut self.diagnostics, diags);
                let ghost before = self.validated_schemas@;
                self.validated_schemas.push(schema_path);
                assert(texts_of(self.validated_schemas@) =~= texts_of(before).push(schema_path@));
            },
            Err(e) => {
                let mut msg = string_of("Failed to load schema '");
                push_str(&mut msg, directive.path.as_str());
                push_str(&mut msg, "': ");
                if e.diagnostics.len() > 0 {
                    match &e.diagnostics[0].message {
                        Some(m) => push_str(&mut msg, m.as_str()),
                        None => push_str(&mut msg, "unknown error"),
                    }
                } else {
                    push_str(&mut msg, "unknown error");
                }
                let severity = if directive.warn_only {
                    Severity::Warning
                } else {
                    Severity::Error
                };
                let d = KdlDiagnostic {
                    span: directive.span,
                    message: Some(msg),
                    label: Some(string_of("schema directive")),
                    help: Some(string_of("Check that the schema file exists and is valid")),
                    severity,
                };
                proof {
                    lemma_diags_view_push(self.diagnostics@, d);
                }
                assert(d@ == load_failure_diag(directive@, first_message(e)));
                self.diagnostics.push(d);
                let ghost before = self.failed_schemas@;
                let path_text = directive.path.clone();
                self.failed_schemas.push((schema_path, path_text));
                assert(text_pairs_of(self.failed_schemas@) =~= text_pairs_of(before).push(
                    (schema_path@, directive.path@),
                ));
            },
        }
    }
}

fn clone_text(t: &Option<String>) -> (r: Option<String>)
    ensures
        crate::diagnostic::opt_text(r) == crate::diagnostic::opt_text(*t),
{
    match t {
        Some(s) => Some(s.clone()),
        None => None,
    }
}


/// Whether some diagnostic is an error.
pub open spec fn has_error(ds: Seq<DiagnosticModel>) -> bool {
    exists|i: int| 0 <= i < ds.len() && (#[trigger] ds[i]).severity == Severity::Error
}

/// Without `warn_only` the diagnostics of a validation stand as they are;
/// with it every error becomes a warning, nothing else changes, and no error
/// is left.
pub proof fn law_warn_only_downgrades(sd: KdlDocument, target: KdlDocument)
    ensures
        document_diags(sd, target).map_values(|d: DiagnosticModel| downgraded(d, false)) == document_diags(sd, target),
        ({
            let ds = document_diags(sd, target);
            let ws = ds.map_values(|d: DiagnosticModel| downgraded(d, true));
            &&& ws.len() == ds.len()
            &&& forall|i: int|
                0 <= i < ds.len() ==> {
                    &&& (#[trigger] ws[i]).span == ds[i].span
                    &&& ws[i].message == ds[i].message
                    &&& ws[i].label == ds[i].label
                    &&& ws[i].help == ds[i].help
                    &&& ws[i].severity == if ds[i].severity == Severity::Error {
                        Severity::Warning
                    } else {
                        ds[i].severity
                    }
                }
            &&& !has_error(ws)
        }),
{
    let ds = document_diags(sd, target);
    assert(ds.map_values(|d: DiagnosticModel| downgraded(d, false)) =~= ds);
}

/// Every schema that a document names must pass: after one more directive,
/// the diagnostics hold an error exactly when they held one before, or the
/// directive is not warn-only and its schema reported an error or did not load.
pub proof fn law_each_schema_must_pass(
    before: Seq<DiagnosticModel>,
    sd: KdlDocument,
    target: KdlDocument,
    d: DirectiveModel,
    first: Option<Seq<char>>,
)
    ensures
        has_error(before + document_diags(sd, target).map_values(|x: DiagnosticModel| downgraded(x, d.warn_only)))
            <==> (has_error(before) || (!d.warn_only && has_error(document_diags(sd, target)))),
        has_error(before.push(load_failure_diag(d, first))) <==> (has_error(before) || !d.warn_only),
{
    let ds = document_diags(sd, target);
    let ws = ds.map_values(|x: DiagnosticModel| downgraded(x, d.warn_only));
    let all = before + ws;
    if has_error(all) {
        let i = choose|i: int| 0 <= i < all.len() && (#[trigger] all[i]).severity == Severity::Error;
        if i >= before.len() {
            assert(ws[i - before.len()].severity == Severity::Error);
            assert(ds[i - before.len()].severity == Severity::Error);
        } else {
            assert(before[i] == all[i]);
        }
    }
    if has_error(before) {
        let i = choose|i: int| 0 <= i < before.len() && (#[trigger] before[i]).severity == Severity::Error;
        assert(all[i] == before[i]);
    }
    if !d.warn_only && has_error(ds) {
        let i = choose|i: int| 0 <= i < ds.len() && (#[trigger] ds[i]).severity == Severity::Error;
        assert(ws[i].severity == Severity::Error);
        assert(all[before.len() + i] == ws[i]);
    }
    let p = before.push(load_failure_diag(d, first));
    if has_error(p) {
        let i = choose|i: int| 0 <= i < p.len() && (#[trigger] p[i]).severity == Severity::Error;
        if i < before.len() {
            assert(before[i] == p[i]);
        }
    }
    if has_error(before) {
        let i = choose|i: int| 0 <= i < before.len() && (#[trigger] before[i]).severity == Severity::Error;
        assert(p[i] == before[i]);
    }
    if !d.warn_only {
        assert(p[before.len() as int].severity == Severity::Error);
    }
}

/// An absolute schema path stands as it is, whatever the document's directory.
pub proof fn law_absolute_schema_path_unchanged(path: Seq<char>, dir: Seq<char>)
    requires
        path.len() > 0 && path[0] == '/',
    ensures
        joined_path(path, dir) == path,
{
}

} // verus!
