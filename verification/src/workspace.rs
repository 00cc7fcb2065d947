//! Which schema applies to a document open in an editor.
//!
//! A document that names schemas with `@ksl:schema` directives is validated
//! against those, their paths taken relative to the document's directory.
//! Otherwise the workspaces are tried in order: in each, the first mapping of
//! its configuration (see [`crate::config`]) whose glob pattern matches the
//! document's path, relative to the workspace root or as a whole, gives the
//! schema, its path taken relative to that root. A pattern longer than 1024
//! characters, or with more than 64 `{`, matches nothing.
//!
//! File paths follow the path rules of the platform the library is built
//! for (`/`-separated on Unix); the names given below to what `url` and
//! `std::path` answer are fixed for a given build.

use vstd::prelude::*;

use crate::config::{ConfigMapping, MappingModel};
use crate::diagnostic::{DiagnosticModel, KdlDiagnostic, Severity};
use crate::document::{KdlDocument, SourceSpan};
use crate::text::{push_str, string_of};
use crate::schema_v2::{
    directives_of, joined_path, resolve_schema_path, DirectiveModel, KdlSchemaV2, SchemaDirective,
    SchemaSource,
};

verus! {

/// What `globset` answers for a glob pattern and a path: `None` where the
/// pattern is not a valid glob, else whether the path matches it.
pub uninterp spec fn glob_match(pattern: Seq<char>, path: Seq<char>) -> Option<bool>;

/// How many times `c` occurs in `s`.
pub open spec fn count_char(s: Seq<char>, c: char) -> nat
    decreases s.len(),
{
    if s.len() == 0 {
        0
    } else {
        count_char(s.drop_last(), c) + if s.last() == c {
            1nat
        } else {
            0nat
        }
    }
}

/// Whether a glob pattern keeps within the limits under which it is matched:
/// at most 1024 characters, at most 64 of them `{`. A pattern beyond them
/// never matches.
pub open spec fn glob_within_limits(pattern: Seq<char>) -> bool {
    pattern.len() <= 1024 && count_char(pattern, '{') <= 64
}

/// Whether a glob pattern keeps within the limits under which it is matched
/// (see [`glob_within_limits`]).
pub fn glob_pattern_usable(pattern: &str) -> (r: bool)
    ensures
        r == glob_within_limits(pattern@),
{
    let cs = crate::text::chars_of(pattern);
    if cs.len() > 1024 {
        return false;
    }
    let mut braces: usize = 0;
    let mut i: usize = 0;
    while i < cs.len()
        invariant
            i <= cs@.len(),
            cs@.len() <= 1024,
            braces == count_char(cs@.take(i as int), '{'),
            braces <= i,
        decreases cs.len() - i,
    {
        assert(cs@.take(i + 1).drop_last() =~= cs@.take(i as int));
        if cs[i] == '{' {
            braces += 1;
        }
        i += 1;
    }
    assert(cs@.take(i as int) =~= cs@);
    braces <= 64
}

/// Trusted: `globset::Glob::new`, then `compile_matcher` and
/// `GlobMatcher::is_match` on the path. The contract only names the answer:
/// which paths a glob matches is the crate's own business, and `Glob::new`
/// fails on the patterns that it cannot read.
///
/// `compile_matcher` panics where the regular expression that a valid glob
/// turns into does not compile. The `requires` keeps clear of both ways that
/// can happen: each `{` group nests the expression at most three levels
/// deeper (a group, an alternation, a concatenation), so 64 of them stay
/// below regex-syntax's nesting limit of 250; and a pattern of at most 1024
/// characters compiles to an automaton far below globset's size limit of
/// 10 MiB, each character giving a few states of at most 256 byte ranges.
#[verifier::external_body]
fn glob_matches(pattern: &str, path: &str) -> (r: Option<bool>)
    requires
        glob_within_limits(pattern@),
    ensures
        r == glob_match(pattern@, path@),
{
    match globset::Glob::new(pattern) {
        Ok(g) => Some(g.compile_matcher().is_match(path)),
        Err(_) => None,
    }
}

/// The file path that `url` reads in a document's URI: `None` where the text
/// is not a URL, or the URL names no local file. It follows the path rules of
/// the platform the library is built for, and is fixed for a given build.
pub uninterp spec fn uri_file_path(uri: Seq<char>) -> Option<Seq<char>>;

/// Trusted: `url::Url::parse`, then `Url::to_file_path`, the path written out
/// as text (`Path::to_string_lossy`). The contract names the result and says no
/// more of it: how a URL is parsed and percent-decoded is the crate's own,
/// and the path is written in the form of the platform this runs on.
#[verifier::external_body]
fn file_path_of_uri(uri: &str) -> (r: Option<String>)
    ensures
        opt_text(r) == uri_file_path(uri@),
{
    match url::Url::parse(uri) {
        Ok(u) => match u.to_file_path() {
            Ok(p) => Some(p.to_string_lossy().into_owned()),
            Err(_) => None,
        },
        Err(_) => None,
    }
}

/// What `Path::strip_prefix` gives for a path and a base: the rest of the path
/// below the base, or `None` where the base is not a prefix of it. It follows
/// the path rules of the platform the library is built for, and is fixed for
/// a given build.
pub uninterp spec fn path_below(path: Seq<char>, base: Seq<char>) -> Option<Seq<char>>;

/// Trusted: `std::path::Path::strip_prefix`, whose documentation says that it
/// gives the path that, joined onto the base, gives the path back, and an
/// error where the base is not a prefix of the path, comparing whole
/// components. The contract names the result.
#[verifier::external_body]
fn strip_base(path: &str, base: &str) -> (r: Option<String>)
    ensures
        opt_text(r) == path_below(path@, base@),
{
    match std::path::Path::new(path).strip_prefix(base) {
        Ok(rest) => Some(rest.to_string_lossy().into_owned()),
        Err(_) => None,
    }
}

/// What `Path::parent` gives: the path without its last component, or `None`
/// where the path ends in a root or is empty. It follows the path rules of the
/// platform the library is built for, and is fixed for a given build.
pub uninterp spec fn path_parent(path: Seq<char>) -> Option<Seq<char>>;

/// Trusted: `std::path::Path::parent`, whose documentation says that it gives
/// the path without its final component, and `None` where the path terminates
/// in a root or is empty. The contract names the result.
#[verifier::external_body]
fn parent_of(path: &str) -> (r: Option<String>)
    ensures
        opt_text(r) == path_parent(path@),
{
    match std::path::Path::new(path).parent() {
        Some(d) => Some(d.to_string_lossy().into_owned()),
        None => None,
    }
}

pub open spec fn opt_text(o: Option<String>) -> Option<Seq<char>> {
    match o {
        Some(s) => Some(s@),
        None => None,
    }
}

/// Whether a mapping's pattern matches a document's path: relative to the
/// workspace root, where the path lies below it, or as a whole. A pattern
/// beyond the limits of [`glob_within_limits`] matches nothing.
pub open spec fn mapping_hits(pattern: Seq<char>, root: Seq<char>, path: Seq<char>) -> bool {
    glob_within_limits(pattern) && mapping_hits_within(pattern, root, path)
}

pub open spec fn mapping_hits_within(pattern: Seq<char>, root: Seq<char>, path: Seq<char>) -> bool {
    ||| (match path_below(path, root) {
        Some(rel) => glob_match(pattern, rel) == Some(true),
        None => false,
    })
    ||| glob_match(pattern, path) == Some(true)
}

/// The index of the first of the mappings `ms`, from `i` on, whose pattern
/// matches the path.
pub open spec fn first_hit(ms: Seq<MappingModel>, root: Seq<char>, path: Seq<char>, i: int) -> Option<int>
    decreases ms.len() - i,
{
    if i < 0 || i >= ms.len() {
        None
    } else if mapping_hits(ms[i].pattern, root, path) {
        Some(i)
    } else {
        first_hit(ms, root, path, i + 1)
    }
}

/// The index of the first mapping of a workspace whose pattern matches a
/// document's path (see [`mapping_hits`]), or `None` where none does.
pub fn config_schema_for(mappings: &Vec<ConfigMapping>, root: &str, path: &str) -> (r: Option<usize>)
    ensures
        match r {
            Some(i) => first_hit(mappings@.map_values(|m: ConfigMapping| m@), root@, path@, 0) == Some(i as int),
            None => first_hit(mappings@.map_values(|m: ConfigMapping| m@), root@, path@, 0) is None,
        },
{
    let ghost ms = mappings@.map_values(|m: ConfigMapping| m@);
    let rel = strip_base(path, root);
    let mut i: usize = 0;
    while i < mappings.len()
        invariant
            i <= mappings@.len(),
            ms == mappings@.map_values(|m: ConfigMapping| m@),
            opt_text(rel) == path_below(path@, root@),
            first_hit(ms, root@, path@, 0) == first_hit(ms, root@, path@, i as int),
        decreases mappings.len() - i,
    {
        let pattern = mappings[i].pattern.as_str();
        assert(ms[i as int].pattern == pattern@);
        if !glob_pattern_usable(pattern) {
            i += 1;
            continue;
        }
        let below = match &rel {
            Some(r) => matches!(glob_matches(pattern, r.as_str()), Some(true)),
            None => false,
        };
        if below || matches!(glob_matches(pattern, path), Some(true)) {
            return Some(i);
        }
        i += 1;
    }
    None
}

/// The configuration of one workspace: its root directory and its mappings.
#[derive(Debug)]
pub struct WorkspaceConfig {
    pub root: String,
    pub mappings: Vec<ConfigMapping>,
}

/// What a [`WorkspaceConfig`] holds.
pub struct WorkspaceModel {
    pub root: Seq<char>,
    pub mappings: Seq<MappingModel>,
}

impl View for WorkspaceConfig {
    type V = WorkspaceModel;

    open spec fn view(&self) -> WorkspaceModel {
        WorkspaceModel { root: self.root@, mappings: self.mappings@.map_values(|m: ConfigMapping| m@) }
    }
}

pub open spec fn workspaces_view(ws: Seq<WorkspaceConfig>) -> Seq<WorkspaceModel> {
    ws.map_values(|w: WorkspaceConfig| w@)
}

/// The schema that the workspaces `ws`, from `i` on, give a document's path:
/// that of the first mapping that matches in the first workspace where one
/// does, its path taken relative to that workspace's root.
pub open spec fn workspace_choice(ws: Seq<WorkspaceModel>, path: Seq<char>, i: int) -> Option<Seq<char>>
    decreases ws.len() - i,
{
    if i < 0 || i >= ws.len() {
        None
    } else {
        match first_hit(ws[i].mappings, ws[i].root, path, 0) {
            Some(k) => Some(joined_path(ws[i].mappings[k].schema, ws[i].root)),
            None => workspace_choice(ws, path, i + 1),
        }
    }
}

/// The schema that the workspaces give a document's path (see
/// [`workspace_choice`]), or `None` where no mapping matches it.
pub fn workspace_schema_for(workspaces: &Vec<WorkspaceConfig>, path: &str) -> (r: Option<String>)
    ensures
        opt_text(r) == workspace_choice(workspaces_view(workspaces@), path@, 0),
{
    let ghost wv = workspaces_view(workspaces@);
    let mut i: usize = 0;
    while i < workspaces.len()
        invariant
            i <= workspaces@.len(),
            wv == workspaces_view(workspaces@),
            workspace_choice(wv, path@, 0) == workspace_choice(wv, path@, i as int),
        decreases workspaces.len() - i,
    {
        let w = &workspaces[i];
        assert(wv[i as int] == w@);
        match config_schema_for(&w.mappings, w.root.as_str(), path) {
            Some(k) => {
                proof {
                    lemma_first_hit_in(w@.mappings, w.root@, path@, 0);
                }
                assert(w@.mappings[k as int] == w.mappings@[k as int]@);
                return Some(resolve_schema_path(w.mappings[k].schema.as_str(), w.root.as_str()));
            },
            None => {},
        }
        i += 1;
    }
    None
}

/// A schema directive of a document, its path resolved.
#[derive(Debug)]
pub struct ResolvedDirective {
    /// The schema path, joined onto the document's directory where it is relative.
    pub path: String,
    /// Whether the path as written is relative (and so was joined).
    pub relative: bool,
    /// Where the directive stands in the document.
    pub span: SourceSpan,
    /// Whether the schema's errors are to be reported as warnings.
    pub warn_only: bool,
}

/// What a [`ResolvedDirective`] holds.
pub struct ResolvedModel {
    pub path: Seq<char>,
    pub relative: bool,
    pub span: SourceSpan,
    pub warn_only: bool,
}

impl View for ResolvedDirective {
    type V = ResolvedModel;

    open spec fn view(&self) -> ResolvedModel {
        ResolvedModel { path: self.path@, relative: self.relative, span: self.span, warn_only: self.warn_only }
    }
}

pub open spec fn is_relative(path: Seq<char>) -> bool {
    !(path.len() > 0 && path[0] == '/')
}

/// A directive with its path resolved against the directory `dir`.
pub open spec fn resolved(d: DirectiveModel, dir: Seq<char>) -> ResolvedModel {
    ResolvedModel {
        path: joined_path(d.path, dir),
        relative: is_relative(d.path),
        span: d.span,
        warn_only: d.warn_only,
    }
}

/// Where a document's schema comes from.
#[derive(Debug)]
pub enum SchemaChoice {
    /// The document's own directives; every schema they name must validate.
    Directives(Vec<ResolvedDirective>),
    /// A mapping of a workspace configuration: the schema's path.
    ConfigFile(String),
    /// No schema applies.
    Absent,
}

/// What a [`SchemaChoice`] holds.
pub enum ChoiceModel {
    Directives(Seq<ResolvedModel>),
    ConfigFile(Seq<char>),
    Absent,
}

impl View for SchemaChoice {
    type V = ChoiceModel;

    open spec fn view(&self) -> ChoiceModel {
        match self {
            SchemaChoice::Directives(ds) => ChoiceModel::Directives(
                ds@.map_values(|d: ResolvedDirective| d@),
            ),
            SchemaChoice::ConfigFile(p) => ChoiceModel::ConfigFile(p@),
            SchemaChoice::Absent => ChoiceModel::Absent,
        }
    }
}

/// The directory of the document that a URI names, where it names a local file
/// that has one.
pub open spec fn uri_dir(uri: Seq<char>) -> Option<Seq<char>> {
    match uri_file_path(uri) {
        Some(p) => path_parent(p),
        None => None,
    }
}

/// Where the schema of the document `doc` at `uri` comes from: its directives,
/// resolved against its directory, where it has any and the URI names a file
/// in a directory; else the first workspace mapping that matches its path;
/// else nowhere.
pub open spec fn schema_choice_of(doc: KdlDocument, uri: Seq<char>, ws: Seq<WorkspaceModel>) -> ChoiceModel {
    let ds = directives_of(doc.nodes@);
    if ds.len() > 0 && uri_dir(uri) is Some {
        ChoiceModel::Directives(ds.map_values(|d: DirectiveModel| resolved(d, uri_dir(uri)->0)))
    } else {
        match uri_file_path(uri) {
            Some(p) => match workspace_choice(ws, p, 0) {
                Some(s) => ChoiceModel::ConfigFile(s),
                None => ChoiceModel::Absent,
            },
            None => ChoiceModel::Absent,
        }
    }
}

fn resolve_directive(d: &SchemaDirective, dir: &str) -> (r: ResolvedDirective)
    ensures
        r@ == resolved(d@, dir@),
{
    let cs = crate::text::chars_of(d.path.as_str());
    let relative = !(cs.len() > 0 && cs[0] == '/');
    ResolvedDirective {
        path: resolve_schema_path(d.path.as_str(), dir),
        relative,
        span: d.span,
        warn_only: d.warn_only,
    }
}

/// Where the schema of the document `doc`, open at `uri`, comes from (see
/// [`schema_choice_of`]).
pub fn schema_source_for(doc: &KdlDocument, uri: &str, workspaces: &Vec<WorkspaceConfig>) -> (r: SchemaChoice)
    ensures
        r@ == schema_choice_of(*doc, uri@, workspaces_view(workspaces@)),
{
    let file = file_path_of_uri(uri);
    let dir = match &file {
        Some(p) => parent_of(p.as_str()),
        None => None,
    };
    assert(opt_text(dir) == uri_dir(uri@));
    match KdlSchemaV2::extract_directives(doc) {
        SchemaSource::Directives(ds) => {
            match &dir {
                Some(d) => {
                    let ghost dv = ds@.map_values(|x: SchemaDirective| x@);
                    let mut out: Vec<ResolvedDirective> = Vec::new();
                    let mut i: usize = 0;
                    while i < ds.len()
                        invariant
                            i <= ds@.len(),
                            dv == ds@.map_values(|x: SchemaDirective| x@),
                            out@.map_values(|x: ResolvedDirective| x@) == dv.take(i as int).map_values(
                                |x: DirectiveModel| resolved(x, d@),
                            ),
                        decreases ds.len() - i,
                    {
                        let rd = resolve_directive(&ds[i], d.as_str());
                        let ghost before = out@.map_values(|x: ResolvedDirective| x@);
                        let ghost item = rd@;
                        assert(dv[i as int] == ds@[i as int]@);
                        assert(item == resolved(dv[i as int], d@));
                        out.push(rd);
                        assert(out@.map_values(|x: ResolvedDirective| x@) =~= before.push(item));
                        assert(dv.take(i + 1).map_values(|x: DirectiveModel| resolved(x, d@)) =~= dv.take(
                            i as int,
                        ).map_values(|x: DirectiveModel| resolved(x, d@)).push(item));
                        i += 1;
                    }
                    assert(dv.take(i as int) =~= dv);
                    return SchemaChoice::Directives(out);
                },
                None => {},
            }
        },
        SchemaSource::Absent => {},
    }
    match &file {
        Some(p) => match workspace_schema_for(workspaces, p.as_str()) {
            Some(s) => SchemaChoice::ConfigFile(s),
            None => SchemaChoice::Absent,
        },
        None => SchemaChoice::Absent,
    }
}

/// The diagnostic at a directive (at `span`) whose schema could not be loaded
/// in the editor, `reason` saying why: a warning where the directive asks for
/// warnings only, else an error.
pub open spec fn directive_load_failure(span: SourceSpan, warn_only: bool, reason: Seq<char>) -> DiagnosticModel {
    DiagnosticModel {
        span,
        message: Some("Failed to load schema: "@ + reason),
        label: None,
        help: None,
        severity: if warn_only {
            Severity::Warning
        } else {
            Severity::Error
        },
    }
}

/// The diagnostic of a directive whose schema could not be loaded (see
/// [`directive_load_failure`]).
pub fn directive_load_failure_diag(span: SourceSpan, warn_only: bool, reason: &str) -> (r: KdlDiagnostic)
    ensures
        r@ == directive_load_failure(span, warn_only, reason@),
{
    let mut msg = string_of("Failed to load schema: ");
    push_str(&mut msg, reason);
    KdlDiagnostic {
        span,
        message: Some(msg),
        label: None,
        help: None,
        severity: if warn_only {
            Severity::Warning
        } else {
            Severity::Error
        },
    }
}

/// The diagnostic of a document whose configured schema could not be loaded:
/// a warning at the start of the document naming the schema and the reason.
pub open spec fn config_load_failure(path: Seq<char>, reason: Seq<char>) -> DiagnosticModel {
    DiagnosticModel {
        span: SourceSpan { offset: 0, len: 1 },
        message: Some("Failed to load schema '"@ + path + "': "@ + reason),
        label: None,
        help: None,
        severity: Severity::Warning,
    }
}

/// The diagnostic of a document whose configured schema could not be loaded
/// (see [`config_load_failure`]).
pub fn config_load_failure_diag(path: &str, reason: &str) -> (r: KdlDiagnostic)
    ensures
        r@ == config_load_failure(path@, reason@),
{
    let mut msg = string_of("Failed to load schema '");
    push_str(&mut msg, path);
    push_str(&mut msg, "': ");
    push_str(&mut msg, reason);
    KdlDiagnostic {
        span: SourceSpan { offset: 0, len: 1 },
        message: Some(msg),
        label: None,
        help: None,
        severity: Severity::Warning,
    }
}

proof fn lemma_first_hit_in(ms: Seq<MappingModel>, root: Seq<char>, path: Seq<char>, i: int)
    ensures
        first_hit(ms, root, path, i) matches Some(k) ==> i <= k < ms.len(),
    decreases ms.len() - i,
{
    if 0 <= i < ms.len() && !mapping_hits(ms[i].pattern, root, path) {
        lemma_first_hit_in(ms, root, path, i + 1);
    }
}

} // verus!
