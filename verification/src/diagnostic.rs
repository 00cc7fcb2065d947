//! Diagnostics: what a validation or a parse reports.

use vstd::prelude::*;

use crate::document::SourceSpan;

verus! {

/// How serious a diagnostic is.
#[derive(Clone, Copy, Debug, PartialEq, Eq, Structural)]
pub enum Severity {
    Advice,
    Warning,
    Error,
}

/// One problem found in a document, with where it stands.
#[derive(Debug)]
pub struct KdlDiagnostic {
    pub span: SourceSpan,
    pub message: Option<String>,
    pub label: Option<String>,
    pub help: Option<String>,
    pub severity: Severity,
}

/// What a [`KdlDiagnostic`] holds, with its texts as sequences of characters.
pub struct DiagnosticModel {
    pub span: SourceSpan,
    pub message: Option<Seq<char>>,
    pub label: Option<Seq<char>>,
    pub help: Option<Seq<char>>,
    pub severity: Severity,
}

pub open spec fn opt_text(s: Option<String>) -> Option<Seq<char>> {
    match s {
        Some(t) => Some(t@),
        None => None,
    }
}

impl View for KdlDiagnostic {
    type V = DiagnosticModel;

    open spec fn view(&self) -> DiagnosticModel {
        DiagnosticModel {
            span: self.span,
            message: opt_text(self.message),
            label: opt_text(self.label),
            help: opt_text(self.help),
            severity: self.severity,
        }
    }
}

/// The models of a sequence of diagnostics.
pub open spec fn diags_view(v: Seq<KdlDiagnostic>) -> Seq<DiagnosticModel> {
    v.map_values(|d: KdlDiagnostic| d@)
}

pub proof fn lemma_diags_view_push(v: Seq<KdlDiagnostic>, d: KdlDiagnostic)
    ensures
        diags_view(v.push(d)) == diags_view(v).push(d@),
{
    assert(diags_view(v.push(d)) =~= diags_view(v).push(d@));
}

pub proof fn lemma_diags_view_add(v: Seq<KdlDiagnostic>, w: Seq<KdlDiagnostic>)
    ensures
        diags_view(v + w) == diags_view(v) + diags_view(w),
{
    assert(diags_view(v + w) =~= diags_view(v) + diags_view(w));
}

/// An error of parsing: the text that failed and what was found wrong with it.
#[derive(Debug)]
pub struct KdlError {
    pub input: String,
    pub diagnostics: Vec<KdlDiagnostic>,
}

/// Appends all of `more` to `errors`.
pub fn extend_diags(errors: &mut Vec<KdlDiagnostic>, more: Vec<KdlDiagnostic>)
    ensures
        diags_view(final(errors)@) == diags_view(old(errors)@) + diags_view(more@),
{
    let mut more = more;
    proof {
        lemma_diags_view_add(old(errors)@, more@);
    }
    errors.append(&mut more);
}

/// A diagnostic of severity error.
pub fn error_diag(span: SourceSpan, message: String, label: Option<String>, help: Option<String>) -> (d: KdlDiagnostic)
    ensures
        d@ == (DiagnosticModel {
            span,
            message: Some(message@),
            label: opt_text(label),
            help: opt_text(help),
            severity: Severity::Error,
        }),
{
    KdlDiagnostic { span, message: Some(message), label, help, severity: Severity::Error }
}

} // verus!
