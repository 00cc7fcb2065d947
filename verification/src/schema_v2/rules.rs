//! What a v2 schema asks of a document, stated over the schema document and
//! the target document: the diagnostics that validation reports, in order.

use vstd::prelude::*;

use crate::diagnostic::{DiagnosticModel, Severity};
use crate::document::{arg_count, find_node, last_prop, nth_arg, KdlDocument, KdlEntry, KdlNode, SourceSpan};
use crate::query::query_first;
use crate::query_parser::query_of;
use crate::render::value_text;
use crate::schema_v2::check::check_model;
use crate::schema_v2::types::{constraints_of, merge_model, ConstraintSyntax, ValidationsModel};
use crate::text::{int_text, nat_text};
use crate::value::{KdlValue, ValueModel};

verus! {

/// A diagnostic of any severity.
pub open spec fn diag(span: SourceSpan, msg: Seq<char>, label: Seq<char>, help: Option<Seq<char>>, sev: Severity) -> DiagnosticModel {
    DiagnosticModel { span, message: Some(msg), label: Some(label), help, severity: sev }
}

/// The first positional argument of a node, where it is a string.
pub open spec fn arg0_str(n: KdlNode) -> Option<Seq<char>> {
    match nth_arg(n.entries@, 0) {
        Some(KdlValue::String(s)) => Some(s@),
        _ => None,
    }
}

pub open spec fn arg0_bool(n: KdlNode) -> Option<bool> {
    match nth_arg(n.entries@, 0) {
        Some(KdlValue::Bool(b)) => Some(b),
        _ => None,
    }
}

pub open spec fn arg0_int(n: KdlNode) -> Option<i128> {
    match nth_arg(n.entries@, 0) {
        Some(KdlValue::Integer(i)) => Some(i),
        _ => None,
    }
}

/// The children of a node, or none.
pub open spec fn child_nodes(n: KdlNode) -> Seq<KdlNode> {
    match n.children {
        Some(c) => c.nodes@,
        None => Seq::empty(),
    }
}

/// The first child of a node named `name`.
pub open spec fn child(n: KdlNode, name: Seq<char>) -> Option<KdlNode> {
    match n.children {
        Some(c) => find_node(c.nodes@, name),
        None => None,
    }
}

/// Whether a flag child is on: present, and not given as `#false`.
pub open spec fn flag_on(n: KdlNode, name: Seq<char>) -> bool {
    match child(n, name) {
        Some(c) => match arg0_bool(c) {
            Some(b) => b,
            None => true,
        },
        None => false,
    }
}

/// Whether a setting child is `#true`; absent, or not a boolean, it is off.
pub open spec fn setting_on(n: KdlNode, name: Seq<char>) -> bool {
    match child(n, name) {
        Some(c) => arg0_bool(c) == Some(true),
        None => false,
    }
}

/// The nodes of `nodes` named `name`, in order.
pub open spec fn named_nodes(nodes: Seq<KdlNode>, name: Seq<char>) -> Seq<KdlNode>
    decreases nodes.len(),
{
    if nodes.len() == 0 {
        Seq::empty()
    } else if nodes.last().name.value@ == name {
        named_nodes(nodes.drop_last(), name).push(nodes.last())
    } else {
        named_nodes(nodes.drop_last(), name)
    }
}

/// How many of `nodes` are named `name`.
pub open spec fn count_named(nodes: Seq<KdlNode>, name: Seq<char>) -> nat
    decreases nodes.len(),
{
    if nodes.len() == 0 {
        0
    } else {
        count_named(nodes.drop_last(), name) + if nodes.last().name.value@ == name { 1nat } else { 0nat }
    }
}

pub open spec fn is_prop_named(e: KdlEntry, name: Seq<char>) -> bool {
    match e.name {
        Some(n) => n.value@ == name,
        None => false,
    }
}

/// Whether some entry is a property named `name`.
pub open spec fn has_prop(es: Seq<KdlEntry>, name: Seq<char>) -> bool {
    exists|i: int| 0 <= i < es.len() && is_prop_named(#[trigger] es[i], name)
}

/// The first of `defs` whose first argument is the string `name`, or else the
/// first that has no positional argument at all (a wildcard).
pub open spec fn first_named(defs: Seq<KdlNode>, name: Seq<char>) -> Option<KdlNode>
    decreases defs.len(),
{
    if defs.len() == 0 {
        None
    } else if arg0_str(defs[0]) == Some(name) {
        Some(defs[0])
    } else {
        first_named(defs.drop_first(), name)
    }
}

pub open spec fn first_wildcard(defs: Seq<KdlNode>) -> Option<KdlNode>
    decreases defs.len(),
{
    if defs.len() == 0 {
        None
    } else if nth_arg(defs[0].entries@, 0) is None {
        Some(defs[0])
    } else {
        first_wildcard(defs.drop_first())
    }
}

pub open spec fn matching_def(defs: Seq<KdlNode>, name: Seq<char>) -> Option<KdlNode> {
    match first_named(defs, name) {
        Some(d) => Some(d),
        None => first_wildcard(defs),
    }
}

/// The names that the `undefine` blocks among `nodes` take out: the first
/// arguments (as strings, or none) of their `node` children.
pub open spec fn undefined_names(nodes: Seq<KdlNode>) -> Seq<Option<Seq<char>>>
    decreases nodes.len(),
{
    if nodes.len() == 0 {
        Seq::empty()
    } else if nodes.last().name.value@ == "undefine"@ {
        undefined_names(nodes.drop_last()) + named_nodes(child_nodes(nodes.last()), "node"@).map_values(
            |d: KdlNode| arg0_str(d),
        )
    } else {
        undefined_names(nodes.drop_last())
    }
}

/// The definitions of `defs` that no name of `gone` takes out.
pub open spec fn kept_defs(defs: Seq<KdlNode>, gone: Seq<Option<Seq<char>>>) -> Seq<KdlNode>
    decreases defs.len(),
{
    if defs.len() == 0 {
        Seq::empty()
    } else if gone.contains(arg0_str(defs.last())) {
        kept_defs(defs.drop_last(), gone)
    } else {
        kept_defs(defs.drop_last(), gone).push(defs.last())
    }
}

/// The node definitions of a block: its `node` children, less those undefined.
pub open spec fn active_defs(nodes: Seq<KdlNode>) -> Seq<KdlNode> {
    kept_defs(named_nodes(nodes, "node"@), undefined_names(nodes))
}

/// The first of `nodes` whose last `id=` property is the string `id`.
pub open spec fn id_lookup(nodes: Seq<KdlNode>, id: Seq<char>) -> Option<KdlNode>
    decreases nodes.len(),
{
    if nodes.len() == 0 {
        None
    } else if (match last_prop(nodes[0].entries@, "id"@) {
        Some(e) => e.value@ == ValueModel::String(id),
        None => false,
    }) {
        Some(nodes[0])
    } else {
        id_lookup(nodes.drop_first(), id)
    }
}

/// The node that a KDL query selects first, where the text reads as a query.
pub open spec fn kql_lookup(doc: KdlDocument, path: Seq<char>) -> Option<KdlNode> {
    match query_of(path) {
        Ok(q) => query_first(doc, q),
        Err(_) => None,
    }
}

/// The definition that a node refers to with a `ref` child: looked up among
/// the children of the schema's top-level `definitions` node, first as a KDL
/// query, then by `id=`.
pub open spec fn ref_target(sd: KdlDocument, n: KdlNode) -> Option<KdlNode> {
    match child(n, "ref"@) {
        None => None,
        Some(r) => match arg0_str(r) {
            None => None,
            Some(path) => match find_node(sd.nodes@, "definitions"@) {
                None => None,
                Some(d) => match d.children {
                    None => None,
                    Some(dc) => match kql_lookup(dc, path) {
                        Some(x) => Some(x),
                        None => id_lookup(dc.nodes@, path),
                    },
                },
            },
        },
    }
}

/// The constraints of a schema node, completed by those of the definition it refers to.
pub open spec fn build(sd: KdlDocument, n: KdlNode) -> ValidationsModel {
    match ref_target(sd, n) {
        Some(r) => merge_model(constraints_of(n, ConstraintSyntax::V2), constraints_of(r, ConstraintSyntax::V2)),
        None => constraints_of(n, ConstraintSyntax::V2),
    }
}

/// The description that a definition gives of itself: an `about` child with a
/// string, or else an `about=` property.
pub open spec fn about_text(def: KdlNode) -> Option<Seq<char>> {
    let from_prop = match last_prop(def.entries@, "about"@) {
        Some(e) => match e.value {
            KdlValue::String(s) => Some(s@),
            _ => None,
        },
        None => None,
    };
    match child(def, "about"@) {
        Some(a) => match arg0_str(a) {
            Some(t) => Some(t),
            None => from_prop,
        },
        None => from_prop,
    }
}

/// A message followed by the definition's description, in brackets, where it has one.
pub open spec fn with_about(msg: Seq<char>, def: KdlNode) -> Seq<char> {
    match about_text(def) {
        Some(t) => msg + " ("@ + t + ")"@,
        None => msg,
    }
}

/// The checks of the names of `nodes` against constraints.
pub open spec fn names_diags(nodes: Seq<KdlNode>, v: ValidationsModel) -> Seq<DiagnosticModel>
    decreases nodes.len(),
{
    if nodes.len() == 0 {
        Seq::empty()
    } else {
        names_diags(nodes.drop_last(), v) + check_model(
            v,
            ValueModel::String(nodes.last().name.value@),
            nodes.last().name.span,
        )
    }
}

/// The checks of the names of the properties among `es` against constraints.
pub open spec fn prop_names_diags(es: Seq<KdlEntry>, v: ValidationsModel) -> Seq<DiagnosticModel>
    decreases es.len(),
{
    if es.len() == 0 {
        Seq::empty()
    } else {
        prop_names_diags(es.drop_last(), v) + match es.last().name {
            Some(n) => check_model(v, ValueModel::String(n.value@), n.span),
            None => Seq::empty(),
        }
    }
}

/// A children block's `min` and `max` on how many children a node has.
pub open spec fn child_count_diags(bn: Seq<KdlNode>, target: KdlDocument) -> Seq<DiagnosticModel> {
    let len = target.nodes@.len();
    (match find_node(bn, "min"@) {
        Some(m) => match arg0_int(m) {
            Some(min) => if (len as int) < min {
                seq![
                    diag(
                        target.span,
                        "Too few children: expected at least "@ + int_text(min as int) + ", found "@
                            + nat_text(len),
                        "not enough children"@,
                        None,
                        Severity::Error,
                    ),
                ]
            } else {
                Seq::empty()
            },
            None => Seq::empty(),
        },
        None => Seq::empty(),
    }) + (match find_node(bn, "max"@) {
        Some(m) => match arg0_int(m) {
            Some(max) => if (len as int) > max {
                seq![
                    diag(
                        target.span,
                        "Too many children: expected at most "@ + int_text(max as int) + ", found "@
                            + nat_text(len),
                        "too many children"@,
                        None,
                        Severity::Error,
                    ),
                ]
            } else {
                Seq::empty()
            },
            None => Seq::empty(),
        },
        None => Seq::empty(),
    })
}

/// The diagnostics of the target nodes named `name` that a `disallow` entry forbids.
pub open spec fn forbidden_diags(nodes: Seq<KdlNode>, name: Seq<char>, msg: Seq<char>) -> Seq<DiagnosticModel>
    decreases nodes.len(),
{
    if nodes.len() == 0 {
        Seq::empty()
    } else {
        forbidden_diags(nodes.drop_last(), name, msg) + if nodes.last().name.value@ == name {
            seq![
                diag(
                    nodes.last().span,
                    msg,
                    "disallowed node"@,
                    Some("Remove this node"@),
                    Severity::Error,
                ),
            ]
        } else {
            Seq::empty()
        }
    }
}

/// The diagnostics of a `disallow` block's `node` entries, entry by entry.
pub open spec fn disallow_diags(target: Seq<KdlNode>, defs: Seq<KdlNode>) -> Seq<DiagnosticModel>
    decreases defs.len(),
{
    if defs.len() == 0 {
        Seq::empty()
    } else {
        let d = defs.last();
        disallow_diags(target, defs.drop_last()) + if d.name.value@ == "node"@ {
            match arg0_str(d) {
                Some(name) => {
                    let msg = match child(d, "message"@) {
                        Some(m) => match arg0_str(m) {
                            Some(t) => t,
                            None => "Node '"@ + name + "' is not allowed here"@,
                        },
                        None => "Node '"@ + name + "' is not allowed here"@,
                    };
                    forbidden_diags(target, name, msg)
                },
                None => Seq::empty(),
            }
        } else {
            Seq::empty()
        }
    }
}

/// The `deprecated` warning of a definition.
pub open spec fn deprecated_diags(n: KdlNode, def: KdlNode) -> Seq<DiagnosticModel> {
    match child(def, "deprecated"@) {
        Some(dep) => {
            let msg = match last_prop(dep.entries@, "message"@) {
                Some(e) => match e.value {
                    KdlValue::String(m) => m@,
                    _ => "Node '"@ + n.name.value@ + "' is deprecated"@,
                },
                None => "Node '"@ + n.name.value@ + "' is deprecated"@,
            };
            let help = match last_prop(dep.entries@, "by"@) {
                Some(e) => match e.value {
                    KdlValue::String(r) => Some("Use '"@ + r@ + "' instead"@),
                    _ => None,
                },
                None => None,
            };
            seq![diag(n.span, msg, "deprecated"@, help, Severity::Warning)]
        },
        None => Seq::empty(),
    }
}

/// The checks of a node's type annotation against the definition's `annotations`.
pub open spec fn annotation_diags(sd: KdlDocument, n: KdlNode, def: KdlNode) -> Seq<DiagnosticModel> {
    match child(def, "annotations"@) {
        Some(ann) => {
            let v = build(sd, ann);
            match n.ty {
                Some(t) => check_model(v, ValueModel::String(t.value@), t.span),
                None => if v.ty is Some || v.enum_values.len() > 0 {
                    seq![
                        diag(
                            n.span,
                            "Missing required type annotation"@,
                            "type annotation expected"@,
                            Some("Add a type annotation like (type)nodename"@),
                            Severity::Error,
                        ),
                    ]
                } else {
                    Seq::empty()
                },
            }
        },
        None => Seq::empty(),
    }
}

/// The property definitions of a node's own definition, then those of the
/// definition it refers to whose name it does not define already.
pub open spec fn merged_props(local: Seq<KdlNode>, rs: Seq<KdlNode>) -> Seq<KdlNode>
    decreases rs.len(),
{
    if rs.len() == 0 {
        local
    } else {
        let prev = merged_props(local, rs.drop_last());
        let nm = arg0_str(rs.last());
        if nm is Some && exists|i: int| 0 <= i < prev.len() && arg0_str(#[trigger] prev[i]) == nm {
            prev
        } else {
            prev.push(rs.last())
        }
    }
}

/// The checks of one entry: a property against its definition (or refused where
/// other properties are not allowed), an argument against the definition at its
/// position, or else against the definition of further arguments.
#[verifier::opaque]
pub open spec fn entry_diags(
    sd: KdlDocument,
    e: KdlEntry,
    idx: nat,
    prop_defs: Seq<KdlNode>,
    arg_defs: Seq<KdlNode>,
    args_def: Option<KdlNode>,
    no_other_props: bool,
) -> Seq<DiagnosticModel> {
    match e.name {
        Some(n) => match matching_def(prop_defs, n.value@) {
            Some(d) => check_model(build(sd, d), e.value@, e.span),
            None => if no_other_props {
                seq![
                    diag(
                        e.span,
                        "Unknown property: '"@ + n.value@ + "'"@,
                        "not defined in schema"@,
                        Some("Add this property to the schema or allow other properties"@),
                        Severity::Error,
                    ),
                ]
            } else {
                Seq::empty()
            },
        },
        None => if idx < arg_defs.len() {
            check_model(build(sd, arg_defs[idx as int]), e.value@, e.span)
        } else {
            match args_def {
                Some(a) => check_model(build(sd, a), e.value@, e.span),
                None => Seq::empty(),
            }
        },
    }
}

pub open spec fn entries_loop(
    sd: KdlDocument,
    es: Seq<KdlEntry>,
    prop_defs: Seq<KdlNode>,
    arg_defs: Seq<KdlNode>,
    args_def: Option<KdlNode>,
    no_other_props: bool,
) -> Seq<DiagnosticModel>
    decreases es.len(),
{
    if es.len() == 0 {
        Seq::empty()
    } else {
        entries_loop(sd, es.drop_last(), prop_defs, arg_defs, args_def, no_other_props) + entry_diags(
            sd,
            es.last(),
            arg_count(es.drop_last()),
            prop_defs,
            arg_defs,
            args_def,
            no_other_props,
        )
    }
}

/// The positional definitions that are neither optional nor defaulted and
/// that no argument reached.
pub open spec fn required_args_diags(n: KdlNode, arg_defs: Seq<KdlNode>, total: nat) -> Seq<DiagnosticModel>
    decreases arg_defs.len(),
{
    if arg_defs.len() == 0 {
        Seq::empty()
    } else {
        let idx = (arg_defs.len() - 1) as nat;
        let d = arg_defs.last();
        required_args_diags(n, arg_defs.drop_last(), total) + if !flag_on(d, "optional"@) && child(
            d,
            "default"@,
        ) is None && idx >= total {
            seq![
                diag(
                    n.span,
                    with_about("Missing required argument at position "@ + nat_text(idx + 1), d),
                    "missing argument"@,
                    Some("Add the required argument or mark it as optional in the schema"@),
                    Severity::Error,
                ),
            ]
        } else {
            Seq::empty()
        }
    }
}

/// The texts of the positional arguments among `es`, in order.
pub open spec fn arg_texts(es: Seq<KdlEntry>) -> Seq<Seq<char>>
    decreases es.len(),
{
    if es.len() == 0 {
        Seq::empty()
    } else if es.last().name is None {
        arg_texts(es.drop_last()).push(value_text(es.last().value@))
    } else {
        arg_texts(es.drop_last())
    }
}

/// The arguments among `es` whose text repeats that of an earlier argument.
pub open spec fn distinct_diags(es: Seq<KdlEntry>) -> Seq<DiagnosticModel>
    decreases es.len(),
{
    if es.len() == 0 {
        Seq::empty()
    } else {
        let e = es.last();
        distinct_diags(es.drop_last()) + if e.name is None && arg_texts(es.drop_last()).contains(
            value_text(e.value@),
        ) {
            seq![
                diag(
                    e.span,
                    "Duplicate argument value: "@ + value_text(e.value@),
                    "duplicate value"@,
                    Some("Arguments must be distinct"@),
                    Severity::Error,
                ),
            ]
        } else {
            Seq::empty()
        }
    }
}

/// The `min`, `max` and `distinct` of the definition of further arguments.
pub open spec fn args_count_diags(n: KdlNode, args_def: Option<KdlNode>, total: nat) -> Seq<DiagnosticModel> {
    match args_def {
        None => Seq::empty(),
        Some(a) => (match child(a, "min"@) {
            Some(m) => match arg0_int(m) {
                Some(min) => if (total as int) < min {
                    seq![
                        diag(
                            n.span,
                            "Too few arguments: expected at least "@ + int_text(min as int) + ", found "@
                                + nat_text(total),
                            "not enough arguments"@,
                            None,
                            Severity::Error,
                        ),
                    ]
                } else {
                    Seq::empty()
                },
                None => Seq::empty(),
            },
            None => Seq::empty(),
        }) + (match child(a, "max"@) {
            Some(m) => match arg0_int(m) {
                Some(max) => if (total as int) > max {
                    seq![
                        diag(
                            n.span,
                            "Too many arguments: expected at most "@ + int_text(max as int) + ", found "@
                                + nat_text(total),
                            "too many arguments"@,
                            None,
                            Severity::Error,
                        ),
                    ]
                } else {
                    Seq::empty()
                },
                None => Seq::empty(),
            },
            None => Seq::empty(),
        }) + if child(a, "distinct"@) is Some {
            distinct_diags(n.entries@)
        } else {
            Seq::empty()
        },
    }
}

/// The required property definitions (required, not defaulted, named) whose
/// property the node lacks.
pub open spec fn required_props_diags(n: KdlNode, prop_defs: Seq<KdlNode>) -> Seq<DiagnosticModel>
    decreases prop_defs.len(),
{
    if prop_defs.len() == 0 {
        Seq::empty()
    } else {
        let d = prop_defs.last();
        required_props_diags(n, prop_defs.drop_last()) + match arg0_str(d) {
            Some(name) => if flag_on(d, "required"@) && child(d, "default"@) is None && !has_prop(
                n.entries@,
                name,
            ) {
                seq![
                    diag(
                        n.span,
                        with_about("Missing required property: '"@ + name + "'"@, d),
                        "required property not found"@,
                        None,
                        Severity::Error,
                    ),
                ]
            } else {
                Seq::empty()
            },
            None => Seq::empty(),
        }
    }
}

/// The names listed in a `props { required ... }` node that the node lacks as properties.
pub open spec fn required_list_diags(n: KdlNode, req: Seq<KdlEntry>) -> Seq<DiagnosticModel>
    decreases req.len(),
{
    if req.len() == 0 {
        Seq::empty()
    } else {
        let r = req.last();
        required_list_diags(n, req.drop_last()) + if r.name is None && r.value is String && !has_prop(
            n.entries@,
            r.value->String_0@,
        ) {
            seq![
                diag(
                    n.span,
                    "Missing required property: '"@ + r.value->String_0@ + "'"@,
                    "required property not found"@,
                    None,
                    Severity::Error,
                ),
            ]
        } else {
            Seq::empty()
        }
    }
}

/// A definition's own child named `name`, or else that of the definition it refers to.
pub open spec fn own_or_ref(dc: KdlDocument, rc: Option<KdlDocument>, name: Seq<char>) -> Option<KdlNode> {
    match find_node(dc.nodes@, name) {
        Some(x) => Some(x),
        None => match rc {
            Some(c) => find_node(c.nodes@, name),
            None => None,
        },
    }
}

/// The checks of a node's entries against its definition.
#[verifier::opaque]
pub open spec fn entries_diags(sd: KdlDocument, n: KdlNode, def: KdlNode) -> Seq<DiagnosticModel> {
    match def.children {
        None => Seq::empty(),
        Some(dc) => {
            let rc = match ref_target(sd, def) {
                Some(r) => r.children,
                None => None,
            };
            let rnodes = match rc {
                Some(c) => c.nodes@,
                None => Seq::empty(),
            };
            entries_with(
                sd,
                n,
                merged_props(named_nodes(dc.nodes@, "prop"@), named_nodes(rnodes, "prop"@)),
                named_nodes(dc.nodes@, "arg"@) + named_nodes(rnodes, "arg"@),
                own_or_ref(dc, rc, "args"@),
                own_or_ref(dc, rc, "props"@),
            )
        },
    }
}

/// A node's entries against the definitions gathered for it: its `prop` and
/// `arg` definitions, and its `args` and `props` blocks.
#[verifier::opaque]
pub open spec fn entries_with(
    sd: KdlDocument,
    n: KdlNode,
    prop_defs: Seq<KdlNode>,
    arg_defs: Seq<KdlNode>,
    args_def: Option<KdlNode>,
    props_def: Option<KdlNode>,
) -> Seq<DiagnosticModel> {
    let no_other_props = match props_def {
        Some(p) => setting_on(p, "disallow-others"@),
        None => false,
    };
    let total = arg_count(n.entries@);
    (match props_def {
        Some(p) => match child(p, "names"@) {
            Some(nn) => prop_names_diags(n.entries@, build(sd, nn)),
            None => Seq::empty(),
        },
        None => Seq::empty(),
    }) + entries_loop(sd, n.entries@, prop_defs, arg_defs, args_def, no_other_props) + required_args_diags(
        n,
        arg_defs,
        total,
    ) + args_count_diags(n, args_def, total) + required_props_diags(n, prop_defs) + match props_def {
        Some(p) => match child(p, "required"@) {
            Some(r) => required_list_diags(n, r.entries@),
            None => Seq::empty(),
        },
        None => Seq::empty(),
    }
}

/// The checks of how often each named definition's node occurs among `target`'s nodes.
pub open spec fn cardinality_one(target: KdlDocument, def: KdlNode, name: Seq<char>) -> Seq<DiagnosticModel> {
    let count = count_named(target.nodes@, name);
    let rep = child(def, "repeatable"@);
    let bound = |key: Seq<char>|
        match rep {
            Some(r) => match last_prop(r.entries@, key) {
                Some(e) => match e.value {
                    KdlValue::Integer(i) => Some(i as usize),
                    _ => None,
                },
                None => None,
            },
            None => None,
        };
    (if flag_on(def, "required"@) && count == 0 {
        seq![
            diag(
                target.span,
                with_about("Missing required node: '"@ + name + "'"@, def),
                "required node not found"@,
                None,
                Severity::Error,
            ),
        ]
    } else {
        Seq::empty()
    }) + (if rep is None && count > 1 {
        seq![
            diag(
                target.span,
                "Node '"@ + name + "' is not repeatable but appears "@ + nat_text(count) + " times"@,
                "duplicate node"@,
                Some("Mark the node as 'repeatable' or remove duplicates"@),
                Severity::Error,
            ),
        ]
    } else {
        Seq::empty()
    }) + (match bound("min"@) {
        Some(min) => if count < min {
            seq![
                diag(
                    target.span,
                    "Too few '"@ + name + "' nodes: expected at least "@ + nat_text(min as nat)
                        + ", found "@ + nat_text(count),
                    "not enough nodes"@,
                    None,
                    Severity::Error,
                ),
            ]
        } else {
            Seq::empty()
        },
        None => Seq::empty(),
    }) + (match bound("max"@) {
        Some(max) => if count > max {
            seq![
                diag(
                    target.span,
                    "Too many '"@ + name + "' nodes: expected at most "@ + nat_text(max as nat)
                        + ", found "@ + nat_text(count),
                    "too many nodes"@,
                    None,
                    Severity::Error,
                ),
            ]
        } else {
            Seq::empty()
        },
        None => Seq::empty(),
    })
}

pub open spec fn cardinality_diags(target: KdlDocument, defs: Seq<KdlNode>) -> Seq<DiagnosticModel>
    decreases defs.len(),
{
    if defs.len() == 0 {
        Seq::empty()
    } else {
        cardinality_diags(target, defs.drop_last()) + match arg0_str(defs.last()) {
            Some(name) => cardinality_one(target, defs.last(), name),
            None => Seq::empty(),
        }
    }
}

/// The checks of a children block that come before its node definitions:
/// `names`, `min` and `max`, and `disallow`.
pub open spec fn block_head_diags(sd: KdlDocument, target: KdlDocument, bn: Seq<KdlNode>) -> Seq<DiagnosticModel> {
    (match find_node(bn, "names"@) {
        Some(nn) => names_diags(target.nodes@, build(sd, nn)),
        None => Seq::empty(),
    }) + child_count_diags(bn, target) + match find_node(bn, "disallow"@) {
        Some(d) => disallow_diags(target.nodes@, child_nodes(d)),
        None => Seq::empty(),
    }
}

/// The diagnostics of a children block `block` for the nodes of `target`.
pub open spec fn block_diags(sd: KdlDocument, target: KdlDocument, block: KdlNode) -> Seq<DiagnosticModel>
    decreases target, 4int, 0int,
{
    match block.children {
        None => Seq::empty(),
        Some(bc) => {
            let bn = bc.nodes@;
            let defs = active_defs(bn);
            block_head_diags(sd, target, bn) + match find_node(bn, "one-of"@) {
                Some(o) => one_of_diags(sd, target, o),
                None => nodes_diags(sd, target.nodes@, target.nodes@.len() as int, defs, flag_on(block, "disallow-others"@))
                    + cardinality_diags(target, defs),
            }
        },
    }
}

/// What validating `target` against one alternative of a `one-of` gives.
pub open spec fn alt_diags(sd: KdlDocument, target: KdlDocument, alt: KdlNode) -> Seq<DiagnosticModel>
    decreases target, 1int, 0int,
{
    match alt.children {
        Some(c) => {
            let defs = named_nodes(c.nodes@, "node"@);
            nodes_diags(sd, target.nodes@, target.nodes@.len() as int, defs, false) + cardinality_diags(target, defs)
        },
        None => Seq::empty(),
    }
}

/// Whether one of the first `k` alternatives passes cleanly.
pub open spec fn alt_passes(sd: KdlDocument, target: KdlDocument, alts: Seq<KdlNode>, k: int) -> bool
    decreases target, 2int, k,
{
    if k <= 0 || k > alts.len() {
        false
    } else {
        alt_passes(sd, target, alts, k - 1) || alt_diags(sd, target, alts[k - 1]).len() == 0
    }
}

/// A `one-of` block: one diagnostic where no alternative passes cleanly.
pub open spec fn one_of_diags(sd: KdlDocument, target: KdlDocument, one_of: KdlNode) -> Seq<DiagnosticModel>
    decreases target, 3int, 0int,
{
    let alts = child_nodes(one_of);
    if alts.len() > 0 && !alt_passes(sd, target, alts, alts.len() as int) {
        seq![
            diag(
                target.span,
                "None of the alternatives matched"@,
                "no valid alternative"@,
                Some("Document must match one of the defined alternatives"@),
                Severity::Error,
            ),
        ]
    } else {
        Seq::empty()
    }
}

/// The diagnostics of the first `k` of `nodes`, each against `defs`.
pub open spec fn nodes_diags(sd: KdlDocument, nodes: Seq<KdlNode>, k: int, defs: Seq<KdlNode>, no_others: bool) -> Seq<DiagnosticModel>
    decreases nodes, k, 0int,
{
    if k <= 0 || k > nodes.len() {
        Seq::empty()
    } else {
        nodes_diags(sd, nodes, k - 1, defs, no_others) + node_diags(sd, nodes[k - 1], defs, no_others)
    }
}

/// The diagnostics of one node against the definitions it may match.
pub open spec fn node_diags(sd: KdlDocument, n: KdlNode, defs: Seq<KdlNode>, no_others: bool) -> Seq<DiagnosticModel>
    decreases n, 1int, 0int,
{
    match matching_def(defs, n.name.value@) {
        Some(def) => deprecated_diags(n, def) + annotation_diags(sd, n, def) + entries_diags(sd, n, def)
            + children_diags(sd, n, def),
        None => if no_others {
            seq![
                diag(
                    n.span,
                    "Unknown node: '"@ + n.name.value@ + "'"@,
                    "not defined in schema"@,
                    Some("Add this node to the schema or remove 'disallow-others'"@),
                    Severity::Error,
                ),
            ]
        } else {
            Seq::empty()
        },
    }
}

/// A node's children against its definition's `children` block.
pub open spec fn children_diags(sd: KdlDocument, n: KdlNode, def: KdlNode) -> Seq<DiagnosticModel>
    decreases n, 0int, 0int,
{
    match (n.children, child(def, "children"@)) {
        (Some(td), Some(cd)) => block_diags(sd, td, cd),
        _ => Seq::empty(),
    }
}

/// All diagnostics of validating `target` against the schema document `sd`.
pub open spec fn document_diags(sd: KdlDocument, target: KdlDocument) -> Seq<DiagnosticModel> {
    match find_node(sd.nodes@, "document"@) {
        None => Seq::empty(),
        Some(dn) => match dn.children {
            None => Seq::empty(),
            Some(sc) => match find_node(sc.nodes@, "children"@) {
                Some(cb) => block_diags(sd, target, cb),
                None => {
                    let defs = active_defs(sc.nodes@);
                    nodes_diags(sd, target.nodes@, target.nodes@.len() as int, defs, setting_on(dn, "disallow-others"@))
                        + cardinality_diags(target, defs)
                },
            },
        },
    }
}


/// A definition is found by its name before any wildcard: where some
/// definition names `name`, the match is one that does; where none does, it is
/// the first definition without a name; and a match always either names
/// `name` or has no name.
pub proof fn law_exact_name_before_wildcard(defs: Seq<KdlNode>, name: Seq<char>)
    ensures
        (exists|i: int| 0 <= i < defs.len() && arg0_str(#[trigger] defs[i]) == Some(name)) ==> (matching_def(
            defs,
            name,
        ) matches Some(d) && arg0_str(d) == Some(name)),
        (forall|i: int| 0 <= i < defs.len() ==> arg0_str(#[trigger] defs[i]) != Some(name)) ==> matching_def(defs, name)
            == first_wildcard(defs),
        matching_def(defs, name) matches Some(d) ==> (arg0_str(d) == Some(name) || nth_arg(d.entries@, 0) is None),
{
    lemma_first_named(defs, name);
    lemma_first_wildcard(defs);
}

proof fn lemma_first_named(defs: Seq<KdlNode>, name: Seq<char>)
    ensures
        (exists|i: int| 0 <= i < defs.len() && arg0_str(#[trigger] defs[i]) == Some(name)) ==> (first_named(
            defs,
            name,
        ) matches Some(d) && arg0_str(d) == Some(name)),
        (forall|i: int| 0 <= i < defs.len() ==> arg0_str(#[trigger] defs[i]) != Some(name)) ==> first_named(defs, name)
            is None,
        first_named(defs, name) matches Some(d) ==> arg0_str(d) == Some(name),
    decreases defs.len(),
{
    if defs.len() > 0 {
        lemma_first_named(defs.drop_first(), name);
        if exists|i: int| 0 <= i < defs.len() && arg0_str(#[trigger] defs[i]) == Some(name) {
            let i = choose|i: int| 0 <= i < defs.len() && arg0_str(#[trigger] defs[i]) == Some(name);
            if i > 0 {
                assert(defs.drop_first()[i - 1] == defs[i]);
            }
        }
        if forall|i: int| 0 <= i < defs.len() ==> arg0_str(#[trigger] defs[i]) != Some(name) {
            assert forall|i: int| 0 <= i < defs.drop_first().len() implies arg0_str(
                #[trigger] defs.drop_first()[i],
            ) != Some(name) by {
                assert(defs.drop_first()[i] == defs[i + 1]);
            }
        }
    }
}

proof fn lemma_first_wildcard(defs: Seq<KdlNode>)
    ensures
        first_wildcard(defs) matches Some(d) ==> nth_arg(d.entries@, 0) is None,
    decreases defs.len(),
{
    if defs.len() > 0 {
        lemma_first_wildcard(defs.drop_first());
    }
}

/// `required` and `repeatable` decide how often a defined node may occur: a
/// definition without `repeatable` allows at most one such node, and with
/// `required` asks for at least one.
pub proof fn law_required_without_repeatable(target: KdlDocument, def: KdlNode, name: Seq<char>)
    requires
        child(def, "repeatable"@) is None,
    ensures
        cardinality_one(target, def, name).len() == 0 <==> (count_named(target.nodes@, name) <= 1 && (flag_on(
            def,
            "required"@,
        ) ==> count_named(target.nodes@, name) >= 1)),
{
}

/// With `repeatable` and no `min=` or `max=` on it, a defined node may occur
/// any number of times, at least once where it is `required`.
pub proof fn law_required_repeatable(target: KdlDocument, def: KdlNode, name: Seq<char>)
    requires
        child(def, "repeatable"@) matches Some(r) && last_prop(r.entries@, "min"@) is None && last_prop(
            r.entries@,
            "max"@,
        ) is None,
    ensures
        cardinality_one(target, def, name).len() == 0 <==> (flag_on(def, "required"@) ==> count_named(
            target.nodes@,
            name,
        ) >= 1),
{
}


proof fn lemma_kept_defs(defs: Seq<KdlNode>, gone: Seq<Option<Seq<char>>>)
    ensures
        forall|i: int|
            0 <= i < kept_defs(defs, gone).len() ==> !gone.contains(arg0_str(#[trigger] kept_defs(defs, gone)[i])),
        forall|i: int|
            0 <= i < kept_defs(defs, gone).len() ==> defs.contains(#[trigger] kept_defs(defs, gone)[i]),
    decreases defs.len(),
{
    if defs.len() > 0 {
        lemma_kept_defs(defs.drop_last(), gone);
        let k = kept_defs(defs.drop_last(), gone);
        assert forall|i: int| 0 <= i < k.len() implies defs.contains(#[trigger] k[i]) by {
            let j = choose|j: int| 0 <= j < defs.drop_last().len() && defs.drop_last()[j] == k[i];
            assert(defs[j] == k[i]);
        }
        assert(defs[defs.len() - 1] == defs.last());
    }
}

/// `undefine` takes definitions out: no active definition of a block carries a
/// name that one of its `undefine` blocks lists, and every active definition is
/// one of the block's `node` definitions.
pub proof fn law_undefined_names_have_no_definition(nodes: Seq<KdlNode>)
    ensures
        forall|i: int|
            0 <= i < active_defs(nodes).len() ==> !undefined_names(nodes).contains(
                arg0_str(#[trigger] active_defs(nodes)[i]),
            ),
        forall|i: int|
            0 <= i < active_defs(nodes).len() ==> named_nodes(nodes, "node"@).contains(#[trigger] active_defs(nodes)[i]),
{
    lemma_kept_defs(named_nodes(nodes, "node"@), undefined_names(nodes));
}

/// A name that a `disallow` block lists draws one error for each node of that
/// name, and none where no such node occurs.
pub proof fn law_disallowed_node_per_occurrence(nodes: Seq<KdlNode>, name: Seq<char>, msg: Seq<char>)
    ensures
        forbidden_diags(nodes, name, msg).len() == count_named(nodes, name),
        forall|i: int|
            0 <= i < forbidden_diags(nodes, name, msg).len() ==> (#[trigger] forbidden_diags(nodes, name, msg)[i]).severity
                == Severity::Error,
    decreases nodes.len(),
{
    if nodes.len() > 0 {
        law_disallowed_node_per_occurrence(nodes.drop_last(), name, msg);
        let a = forbidden_diags(nodes.drop_last(), name, msg);
        let f = forbidden_diags(nodes, name, msg);
        assert forall|i: int| 0 <= i < f.len() implies (#[trigger] f[i]).severity == Severity::Error by {
            if i < a.len() {
                assert(f[i] == a[i]);
            }
        }
    }
}

/// The `max` of an `args` block bounds a node's positional arguments: a node
/// with more of them than `max` allows draws, among the diagnostics of its
/// entries, the error "Too many arguments: expected at most M, found N" at
/// the node.
pub proof fn law_args_max(
    sd: KdlDocument,
    n: KdlNode,
    prop_defs: Seq<KdlNode>,
    arg_defs: Seq<KdlNode>,
    a: KdlNode,
    props_def: Option<KdlNode>,
    m: KdlNode,
    max: i128,
)
    requires
        child(a, "max"@) == Some(m),
        nth_arg(m.entries@, 0) == Some(KdlValue::Integer(max)),
        arg_count(n.entries@) > max,
    ensures
        entries_with(sd, n, prop_defs, arg_defs, Some(a), props_def).contains(
            diag(
                n.span,
                "Too many arguments: expected at most "@ + int_text(max as int) + ", found "@ + nat_text(
                    arg_count(n.entries@),
                ),
                "too many arguments"@,
                None,
                Severity::Error,
            ),
        ),
{
    reveal(entries_with);
    let total = arg_count(n.entries@);
    let ds = entries_with(sd, n, prop_defs, arg_defs, Some(a), props_def);
    let x = diag(
        n.span,
        "Too many arguments: expected at most "@ + int_text(max as int) + ", found "@ + nat_text(total),
        "too many arguments"@,
        None,
        Severity::Error,
    );
    let ac = args_count_diags(n, Some(a), total);
    let lo = match child(a, "min"@) {
        Some(mn) => match arg0_int(mn) {
            Some(min) => if (total as int) < min {
                seq![
                    diag(
                        n.span,
                        "Too few arguments: expected at least "@ + int_text(min as int) + ", found "@ + nat_text(total),
                        "not enough arguments"@,
                        None,
                        Severity::Error,
                    ),
                ]
            } else {
                Seq::empty()
            },
            None => Seq::empty(),
        },
        None => Seq::empty(),
    };
    assert(ac[lo.len() as int] == x);
    let front = (match props_def {
        Some(p) => match child(p, "names"@) {
            Some(nn) => prop_names_diags(n.entries@, build(sd, nn)),
            None => Seq::empty(),
        },
        None => Seq::empty(),
    }) + entries_loop(
        sd,
        n.entries@,
        prop_defs,
        arg_defs,
        Some(a),
        match props_def {
            Some(p) => setting_on(p, "disallow-others"@),
            None => false,
        },
    ) + required_args_diags(n, arg_defs, total);
    assert(ds[(front.len() + lo.len()) as int] == x);
}

/// The `min` of an `args` block bounds a node's positional arguments: a node
/// with fewer of them than `min` asks draws, among the diagnostics of its
/// entries, the error "Too few arguments: expected at least M, found N" at
/// the node.
pub proof fn law_args_min(
    sd: KdlDocument,
    n: KdlNode,
    prop_defs: Seq<KdlNode>,
    arg_defs: Seq<KdlNode>,
    a: KdlNode,
    props_def: Option<KdlNode>,
    m: KdlNode,
    min: i128,
)
    requires
        child(a, "min"@) == Some(m),
        nth_arg(m.entries@, 0) == Some(KdlValue::Integer(min)),
        arg_count(n.entries@) < min,
    ensures
        entries_with(sd, n, prop_defs, arg_defs, Some(a), props_def).contains(
            diag(
                n.span,
                "Too few arguments: expected at least "@ + int_text(min as int) + ", found "@ + nat_text(
                    arg_count(n.entries@),
                ),
                "not enough arguments"@,
                None,
                Severity::Error,
            ),
        ),
{
    reveal(entries_with);
    let total = arg_count(n.entries@);
    let ds = entries_with(sd, n, prop_defs, arg_defs, Some(a), props_def);
    let x = diag(
        n.span,
        "Too few arguments: expected at least "@ + int_text(min as int) + ", found "@ + nat_text(total),
        "not enough arguments"@,
        None,
        Severity::Error,
    );
    let ac = args_count_diags(n, Some(a), total);
    assert(ac[0] == x);
    let front = (match props_def {
        Some(p) => match child(p, "names"@) {
            Some(nn) => prop_names_diags(n.entries@, build(sd, nn)),
            None => Seq::empty(),
        },
        None => Seq::empty(),
    }) + entries_loop(
        sd,
        n.entries@,
        prop_defs,
        arg_defs,
        Some(a),
        match props_def {
            Some(p) => setting_on(p, "disallow-others"@),
            None => false,
        },
    ) + required_args_diags(n, arg_defs, total);
    assert(ds[front.len() as int] == x);
}

/// Positional argument definitions: a node with at least as many arguments
/// as there are definitions misses none; otherwise each definition past its
/// last argument that is neither `optional` nor defaulted draws "Missing
/// required argument at position k" (counted from one) at the node.
pub proof fn law_required_arguments(n: KdlNode, arg_defs: Seq<KdlNode>, total: nat, k: int)
    ensures
        total >= arg_defs.len() ==> required_args_diags(n, arg_defs, total) == Seq::<DiagnosticModel>::empty(),
        (total <= k < arg_defs.len() && !flag_on(arg_defs[k], "optional"@) && child(arg_defs[k], "default"@) is None)
            ==> required_args_diags(n, arg_defs, total).contains(
            diag(
                n.span,
                with_about("Missing required argument at position "@ + nat_text((k + 1) as nat), arg_defs[k]),
                "missing argument"@,
                Some("Add the required argument or mark it as optional in the schema"@),
                Severity::Error,
            ),
        ),
    decreases arg_defs.len(),
{
    if arg_defs.len() > 0 {
        let front = arg_defs.drop_last();
        law_required_arguments(n, front, total, k);
        let rest = required_args_diags(n, front, total);
        let all = required_args_diags(n, arg_defs, total);
        if 0 <= k < front.len() {
            assert(front[k] == arg_defs[k]);
            if total <= k && !flag_on(arg_defs[k], "optional"@) && child(arg_defs[k], "default"@) is None {
                let x = diag(
                    n.span,
                    with_about("Missing required argument at position "@ + nat_text((k + 1) as nat), arg_defs[k]),
                    "missing argument"@,
                    Some("Add the required argument or mark it as optional in the schema"@),
                    Severity::Error,
                );
                let j = choose|j: int| 0 <= j < rest.len() && rest[j] == x;
                assert(all[j] == x);
            }
        } else if k == front.len() {
            if total <= k && !flag_on(arg_defs[k], "optional"@) && child(arg_defs[k], "default"@) is None {
                assert(all[rest.len() as int] == all.last());
            }
        }
        if total >= arg_defs.len() {
            assert(all =~= rest);
        }
    }
}

} // verus!
