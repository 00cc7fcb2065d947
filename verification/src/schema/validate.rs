//! Validation of a document against a schema: each function computes, in
//! order, the diagnostics that [`crate::schema::rules`] states.

use vstd::prelude::*;

use crate::document::opt_node;

use crate::diagnostic::{diags_view, DiagnosticModel, KdlDiagnostic, Severity};
use crate::document::{arg_count, deref_all, find_node, KdlDocument, KdlEntry, KdlNode};
use crate::schema::rules::{
    block_diags, build, children_diags, counts_diags, definitions_of, effective, entries_diags, entries_loop,
    entry_diags, error_diag, first_unbounded, node_diags, nodes_diags, own_tag_diags, ref_target,
    required_props_diags, tag_diags, tag_names_diags, top_nodes_diags, unbounded, value_and_tag_diags,
    value_count_diags, value_def_for, document_diags,
};
use crate::schema::KdlSchema;
use crate::schema_v2::rules::{arg0_str, child, child_nodes, matching_def, named_nodes, setting_on};
use crate::schema_v2::types::{ConstraintSyntax, Validations};
use crate::schema_v2::validate::{
    arg0_int_c, arg0_str_c, child_c, count_named_c, extend_checked, has_prop_c, id_lookup_c,
    named_nodes_c, names_c, prop_names_c, push_diag, setting_on_c,
};
use crate::text::{push_nat, push_str, string_of};
use crate::value::KdlValue;

verus! {

/// The shared definition that `node` names with its `ref=` property (see [`ref_target`]).
pub fn resolve_ref<'a>(schema: &'a KdlSchema, node: &KdlNode) -> (r: Option<&'a KdlNode>)
    ensures
        opt_node(r) == ref_target(schema.schema_document(), *node),
{
    let id = match node.entry("ref") {
        Some(e) => match e.value().as_string() {
            Some(s) => s,
            None => return None,
        },
        None => return None,
    };
    let defs = match schema.definitions() {
        Some(d) => d,
        None => return None,
    };
    match &defs.children {
        Some(dc) => id_lookup_c(&dc.nodes, id),
        None => None,
    }
}

/// The constraints of a schema node merged with those of the definition it refers to (see [`build`]).
pub fn build_validations(schema: &KdlSchema, node: &KdlNode) -> (r: Validations)
    ensures
        r@ == build(schema.schema_document(), *node),
{
    let mut v = Validations::from_node(node, ConstraintSyntax::V1);
    match resolve_ref(schema, node) {
        Some(r) => {
            let o = Validations::from_node(r, ConstraintSyntax::V1);
            v.merge(&o);
        },
        None => {},
    }
    v
}

/// The definition that stands for a node definition: the one it refers to, or itself.
pub fn get_effective_node_def<'a>(schema: &'a KdlSchema, node_def: &'a KdlNode) -> (r: &'a KdlNode)
    ensures
        *r == effective(schema.schema_document(), *node_def),
{
    match resolve_ref(schema, node_def) {
        Some(r) => r,
        None => node_def,
    }
}

/// The definition that stands for a tag definition: the one it refers to, or itself.
pub fn get_effective_tag_def<'a>(schema: &'a KdlSchema, tag_def: &'a KdlNode) -> (r: &'a KdlNode)
    ensures
        *r == effective(schema.schema_document(), *tag_def),
{
    match resolve_ref(schema, tag_def) {
        Some(r) => r,
        None => tag_def,
    }
}

/// The definition that stands for a `children` definition: the one it refers to, or itself.
pub fn resolve_children_def<'a>(schema: &'a KdlSchema, children_def: &'a KdlNode) -> (r: Option<&'a KdlNode>)
    ensures
        r matches Some(d) && *d == effective(schema.schema_document(), *children_def),
{
    match resolve_ref(schema, children_def) {
        Some(r) => Some(r),
        None => Some(children_def),
    }
}

/// The definition for a node name: the first whose first argument is that
/// name, or else the first without a name (see [`matching_def`]).
pub fn find_matching_node_def<'a>(node_defs: &Vec<&'a KdlNode>, node_name: &str) -> (r: Option<&'a KdlNode>)
    ensures
        opt_node(r) == matching_def(deref_all(node_defs@), node_name@),
{
    crate::schema_v2::validate::find_matching_node_def(node_defs, node_name)
}

fn quoted_message(head: &str, name: &str, tail: &str) -> (r: String)
    ensures
        r@ == head@ + name@ + tail@,
{
    let mut t = string_of(head);
    push_str(&mut t, name);
    push_str(&mut t, tail);
    t
}

/// The diagnostics of the type annotations of `nodes` against `tag-names` constraints.
fn check_tag_names(nodes: &Vec<KdlNode>, v: &Validations, errors: &mut Vec<KdlDiagnostic>)
    ensures
        diags_view(final(errors)@) == diags_view(old(errors)@) + tag_names_diags(nodes@, v@),
{
    let mut i: usize = 0;
    while i < nodes.len()
        invariant
            i <= nodes@.len(),
            diags_view(errors@) == diags_view(old(errors)@) + tag_names_diags(nodes@.take(i as int), v@),
        decreases nodes.len() - i,
    {
        assert(nodes@.take(i + 1).drop_last() =~= nodes@.take(i as int));
        match &nodes[i].ty {
            Some(t) => {
                let found = v.check(&KdlValue::String(t.value.clone()), t.span);
                extend_checked(errors, found);
            },
            None => {},
        }
        i += 1;
        assert(diags_view(errors@) =~= diags_view(old(errors)@) + tag_names_diags(nodes@.take(i as int), v@));
    }
    assert(nodes@.take(i as int) =~= nodes@);
}

/// The diagnostics of validating `target` against the schema (see [`document_diags`]).
#[verifier::rlimit(40)]
pub fn validate_document(schema: &KdlSchema, target: &KdlDocument) -> (r: Vec<KdlDiagnostic>)
    ensures
        diags_view(r@) == document_diags(schema.schema_document(), *target),
{
    let ghost sd = schema.schema_document();
    let mut errors: Vec<KdlDiagnostic> = Vec::new();
    assert(diags_view(errors@) =~= Seq::<DiagnosticModel>::empty());
    let dn = match schema.document_node() {
        Some(d) => d,
        None => return errors,
    };
    let sc = match &dn.children {
        Some(c) => c,
        None => return errors,
    };
    let node_defs = named_nodes_c(&sc.nodes, "node");
    let tag_defs = named_nodes_c(&sc.nodes, "tag");
    let other_nodes_allowed = setting_on_c(dn, "other-nodes-allowed");
    let other_tags_allowed = setting_on_c(dn, "other-tags-allowed");
    match sc.get("node-names") {
        Some(nn) => {
            let v = build_validations(schema, nn);
            names_c(&target.nodes, &v, &mut errors);
        },
        None => {},
    }
    match sc.get("tag-names") {
        Some(tn) => {
            let v = build_validations(schema, tn);
            check_tag_names(&target.nodes, &v, &mut errors);
        },
        None => {},
    }
    let ghost base = diags_view(errors@);
    let ghost dv = deref_all(node_defs@);
    let ghost tv = deref_all(tag_defs@);
    let mut i: usize = 0;
    while i < target.nodes.len()
        invariant
            i <= target.nodes@.len(),
            sd == schema.schema_document(),
            dv == deref_all(node_defs@),
            tv == deref_all(tag_defs@),
            diags_view(errors@) == base + top_nodes_diags(
                sd,
                target.nodes@,
                i as int,
                dv,
                other_nodes_allowed,
                tv,
                other_tags_allowed,
            ),
        decreases target.nodes.len() - i,
    {
        validate_node(schema, &target.nodes[i], &node_defs, other_nodes_allowed, &mut errors);
        validate_node_tag(schema, &target.nodes[i], &tag_defs, other_tags_allowed, &mut errors);
        i += 1;
        assert(diags_view(errors@) =~= base + top_nodes_diags(
            sd,
            target.nodes@,
            i as int,
            dv,
            other_nodes_allowed,
            tv,
            other_tags_allowed,
        ));
    }
    check_node_counts(target, &node_defs, &mut errors);
    assert(diags_view(errors@) =~= document_diags(sd, *target));
    errors
}

/// One node against the definitions it may match (see [`node_diags`]).
#[verifier::rlimit(40)]
pub fn validate_node(
    schema: &KdlSchema,
    node: &KdlNode,
    node_defs: &Vec<&KdlNode>,
    other_allowed: bool,
    errors: &mut Vec<KdlDiagnostic>,
)
    ensures
        diags_view(final(errors)@) == diags_view(old(errors)@) + node_diags(
            schema.schema_document(),
            *node,
            deref_all(node_defs@),
            other_allowed,
        ),
    decreases *node, 1int, 0int,
{
    let ghost sd = schema.schema_document();
    match find_matching_node_def(node_defs, node.name.value.as_str()) {
        Some(def) => {
            let eff = get_effective_node_def(schema, def);
            match child_c(eff, "tag") {
                Some(td) => match &node.ty {
                    Some(t) => {
                        let v = build_validations(schema, td);
                        let found = v.check(&KdlValue::String(t.value.clone()), t.span);
                        extend_checked(errors, found);
                    },
                    None => {},
                },
                None => {},
            }
            let ghost mid = diags_view(errors@);
            assert(mid == diags_view(old(errors)@) + own_tag_diags(sd, *node, *eff));
            validate_node_entries(schema, node, eff, errors);
            validate_node_children(schema, node, eff, errors);
            assert(node_diags(sd, *node, deref_all(node_defs@), other_allowed) == own_tag_diags(sd, *node, *eff)
                + entries_diags(sd, *node, *eff) + children_diags(sd, *node, *eff));
        },
        None => {
            if !other_allowed {
                let t = quoted_message("Unknown node: '", node.name.value.as_str(), "'");
                push_diag(
                    errors,
                    node.span,
                    t,
                    "not defined in schema",
                    Some(string_of("Add this node to the schema or set 'other-nodes-allowed #true'")),
                    Severity::Error,
                );
            }
        },
    }
    assert(diags_view(errors@) =~= diags_view(old(errors)@) + node_diags(
        sd,
        *node,
        deref_all(node_defs@),
        other_allowed,
    ));
}

/// A top-level node's type annotation against the schema's tag definitions (see [`tag_diags`]).
#[verifier::rlimit(40)]
pub fn validate_node_tag(
    schema: &KdlSchema,
    node: &KdlNode,
    tag_defs: &Vec<&KdlNode>,
    other_tags_allowed: bool,
    errors: &mut Vec<KdlDiagnostic>,
)
    ensures
        diags_view(final(errors)@) == diags_view(old(errors)@) + tag_diags(
            schema.schema_document(),
            *node,
            deref_all(tag_defs@),
            other_tags_allowed,
        ),
{
    let ghost sd = schema.schema_document();
    let ty = match &node.ty {
        Some(t) => t,
        None => {
            assert(diags_view(errors@) =~= diags_view(old(errors)@) + tag_diags(
                sd,
                *node,
                deref_all(tag_defs@),
                other_tags_allowed,
            ));
            return;
        },
    };
    let tag_name = ty.value.as_str();
    match crate::schema_v2::validate::find_matching_node_def(tag_defs, tag_name) {
        Some(def) => {
            let eff = get_effective_tag_def(schema, def);
            match &eff.children {
                Some(ec) => {
                    match ec.get("node-names") {
                        Some(nn) => {
                            let v = build_validations(schema, nn);
                            let found = v.check(&KdlValue::String(node.name.value.clone()), node.name.span);
                            extend_checked(errors, found);
                        },
                        None => {},
                    }
                    let other_nodes_allowed = setting_on_c(eff, "other-nodes-allowed");
                    let tag_node_defs = named_nodes_c(&ec.nodes, "node");
                    if tag_node_defs.len() > 0 && !other_nodes_allowed {
                        if find_matching_node_def(&tag_node_defs, node.name.value.as_str()).is_none() {
                            let mut t = quoted_message("Node '", node.name.value.as_str(), "' not allowed for tag '");
                            push_str(&mut t, tag_name);
                            push_str(&mut t, "'");
                            push_diag(errors, node.span, t, "not allowed for this tag", None, Severity::Error);
                        }
                    }
                },
                None => {},
            }
        },
        None => {
            if !other_tags_allowed {
                let t = quoted_message("Unknown tag: '", tag_name, "'");
                push_diag(
                    errors,
                    ty.span,
                    t,
                    "not defined in schema",
                    Some(string_of("Add this tag to the schema or set 'other-tags-allowed #true'")),
                    Severity::Error,
                );
            }
        },
    }
    assert(diags_view(errors@) =~= diags_view(old(errors)@) + tag_diags(
        sd,
        *node,
        deref_all(tag_defs@),
        other_tags_allowed,
    ));
}

/// The first `value` definition without count bounds (see [`first_unbounded`]).
fn first_unbounded_c<'a>(defs: &Vec<&'a KdlNode>) -> (r: Option<&'a KdlNode>)
    ensures
        opt_node(r) == first_unbounded(deref_all(defs@)),
{
    let ghost dv = deref_all(defs@);
    let mut i: usize = 0;
    assert(dv.skip(0) =~= dv);
    while i < defs.len()
        invariant
            i <= defs@.len(),
            dv == deref_all(defs@),
            first_unbounded(dv) == first_unbounded(dv.skip(i as int)),
        decreases defs.len() - i,
    {
        assert(dv.skip(i as int).drop_first() =~= dv.skip(i + 1));
        let d: &KdlNode = defs[i];
        let free = match &d.children {
            Some(c) => c.get("min").is_none() && c.get("max").is_none(),
            None => true,
        };
        assert(free == unbounded(*d));
        if free {
            return Some(d);
        }
        i += 1;
    }
    None
}

/// An entry's value against constraints, and its type annotation against their `tag` part.
fn check_value_and_tag(v: &Validations, e: &KdlEntry, errors: &mut Vec<KdlDiagnostic>)
    ensures
        diags_view(final(errors)@) == diags_view(old(errors)@) + value_and_tag_diags(v@, *e),
{
    let found = v.check(&e.value, e.span);
    extend_checked(errors, found);
    match &v.tag {
        Some(tv) => match &e.ty {
            Some(t) => {
                let more = tv.check(&KdlValue::String(t.value.clone()), t.span);
                extend_checked(errors, more);
            },
            None => {},
        },
        None => {},
    }
    assert(diags_view(errors@) =~= diags_view(old(errors)@) + value_and_tag_diags(v@, *e));
}

/// One entry (see [`entry_diags`]).
#[verifier::rlimit(40)]
fn check_entry(
    schema: &KdlSchema,
    e: &KdlEntry,
    idx: usize,
    prop_defs: &Vec<&KdlNode>,
    value_defs: &Vec<&KdlNode>,
    other_props_allowed: bool,
    errors: &mut Vec<KdlDiagnostic>,
)
    ensures
        diags_view(final(errors)@) == diags_view(old(errors)@) + entry_diags(
            schema.schema_document(),
            *e,
            idx as nat,
            deref_all(prop_defs@),
            deref_all(value_defs@),
            other_props_allowed,
        ),
{
    let ghost sd = schema.schema_document();
    match &e.name {
        Some(name) => match find_matching_node_def(prop_defs, name.value.as_str()) {
            Some(def) => {
                let v = build_validations(schema, def);
                check_value_and_tag(&v, e, errors);
            },
            None => {
                if !other_props_allowed {
                    let t = quoted_message("Unknown property: '", name.value.as_str(), "'");
                    push_diag(
                        errors,
                        e.span,
                        t,
                        "not defined in schema",
                        Some(string_of("Add this property to the schema or set 'other-props-allowed #true'")),
                        Severity::Error,
                    );
                }
            },
        },
        None => {
            let vd = if idx < value_defs.len() {
                Some(value_defs[idx])
            } else {
                first_unbounded_c(value_defs)
            };
            assert(opt_node(vd) == value_def_for(deref_all(value_defs@), idx as nat));
            match vd {
                Some(def) => {
                    let v = build_validations(schema, def);
                    check_value_and_tag(&v, e, errors);
                },
                None => {},
            }
        },
    }
    assert(diags_view(errors@) =~= diags_view(old(errors)@) + entry_diags(
        sd,
        *e,
        idx as nat,
        deref_all(prop_defs@),
        deref_all(value_defs@),
        other_props_allowed,
    ));
}

/// The required properties that a node lacks (see [`required_props_diags`]).
fn check_required_props(node: &KdlNode, prop_defs: &Vec<&KdlNode>, errors: &mut Vec<KdlDiagnostic>)
    ensures
        diags_view(final(errors)@) == diags_view(old(errors)@) + required_props_diags(*node, deref_all(prop_defs@)),
{
    let ghost dv = deref_all(prop_defs@);
    let mut i: usize = 0;
    while i < prop_defs.len()
        invariant
            i <= prop_defs@.len(),
            dv == deref_all(prop_defs@),
            diags_view(errors@) == diags_view(old(errors)@) + required_props_diags(*node, dv.take(i as int)),
        decreases prop_defs.len() - i,
    {
        assert(dv.take(i + 1).drop_last() =~= dv.take(i as int));
        let pd: &KdlNode = prop_defs[i];
        match arg0_str_c(pd) {
            Some(name) => {
                if setting_on_c(pd, "required") && !has_prop_c(&node.entries, name) {
                    let t = quoted_message("Missing required property: '", name, "'");
                    push_diag(errors, node.span, t, "required property not found", None, Severity::Error);
                }
            },
            None => {},
        }
        i += 1;
        assert(diags_view(errors@) =~= diags_view(old(errors)@) + required_props_diags(*node, dv.take(i as int)));
    }
    assert(dv.take(i as int) =~= dv);
}

/// A count bound (`min` or `max` child) of a definition, as a cast to `usize` gives it.
fn count_bound_c(def: &KdlNode, key: &str) -> (r: Option<usize>)
    ensures
        r == crate::schema::rules::count_bound(*def, key@),
{
    match child_c(def, key) {
        Some(c) => match arg0_int_c(c) {
            Some(i) => Some(i as usize),
            None => None,
        },
        None => None,
    }
}

fn count_message(head: &str, expected: usize, found: usize) -> (r: String)
    ensures
        r@ == head@ + crate::text::nat_text(expected as nat) + ", found "@ + crate::text::nat_text(found as nat),
{
    let mut t = string_of(head);
    push_nat(&mut t, expected as u128);
    push_str(&mut t, ", found ");
    push_nat(&mut t, found as u128);
    t
}

/// The number of positional arguments against the first value definition (see [`value_count_diags`]).
fn check_value_count(node: &KdlNode, value_defs: &Vec<&KdlNode>, found: usize, errors: &mut Vec<KdlDiagnostic>)
    requires
        found as nat == arg_count(node.entries@),
    ensures
        diags_view(final(errors)@) == diags_view(old(errors)@) + value_count_diags(*node, deref_all(value_defs@)),
{
    if value_defs.len() == 0 {
        assert(diags_view(errors@) =~= diags_view(old(errors)@) + value_count_diags(*node, deref_all(value_defs@)));
        return;
    }
    let vd: &KdlNode = value_defs[0];
    match count_bound_c(vd, "min") {
        Some(min) => {
            if found < min {
                let t = count_message("Too few arguments: expected at least ", min, found);
                push_diag(errors, node.span, t, "not enough arguments", None, Severity::Error);
            }
        },
        None => {},
    }
    match count_bound_c(vd, "max") {
        Some(max) => {
            if found > max {
                let t = count_message("Too many arguments: expected at most ", max, found);
                push_diag(errors, node.span, t, "too many arguments", None, Severity::Error);
            }
        },
        None => {},
    }
    assert(diags_view(errors@) =~= diags_view(old(errors)@) + value_count_diags(*node, deref_all(value_defs@)));
}

/// A node's properties and arguments against a definition (see [`entries_diags`]).
#[verifier::rlimit(40)]
pub fn validate_node_entries(schema: &KdlSchema, node: &KdlNode, schema_def: &KdlNode, errors: &mut Vec<KdlDiagnostic>)
    ensures
        diags_view(final(errors)@) == diags_view(old(errors)@) + entries_diags(
            schema.schema_document(),
            *node,
            *schema_def,
        ),
{
    let ghost sd = schema.schema_document();
    let dc = match &schema_def.children {
        Some(c) => c,
        None => {
            assert(diags_view(errors@) =~= diags_view(old(errors)@) + entries_diags(sd, *node, *schema_def));
            return;
        },
    };
    let prop_defs = named_nodes_c(&dc.nodes, "prop");
    let value_defs = named_nodes_c(&dc.nodes, "value");
    let other_props_allowed = setting_on_c(schema_def, "other-props-allowed");
    match dc.get("prop-names") {
        Some(pn) => {
            let v = build_validations(schema, pn);
            prop_names_c(&node.entries, &v, errors);
        },
        None => {},
    }
    let ghost base = diags_view(errors@);
    let ghost pv = deref_all(prop_defs@);
    let ghost vv = deref_all(value_defs@);
    let mut arg_idx: usize = 0;
    let mut i: usize = 0;
    while i < node.entries.len()
        invariant
            i <= node.entries@.len(),
            sd == schema.schema_document(),
            pv == deref_all(prop_defs@),
            vv == deref_all(value_defs@),
            arg_idx as nat == arg_count(node.entries@.take(i as int)),
            arg_idx <= i,
            diags_view(errors@) == base + entries_loop(sd, node.entries@.take(i as int), pv, vv, other_props_allowed),
        decreases node.entries.len() - i,
    {
        assert(node.entries@.take(i + 1).drop_last() =~= node.entries@.take(i as int));
        let e = &node.entries[i];
        check_entry(schema, e, arg_idx, &prop_defs, &value_defs, other_props_allowed, errors);
        if e.name.is_none() {
            arg_idx += 1;
        }
        i += 1;
        assert(diags_view(errors@) =~= base + entries_loop(
            sd,
            node.entries@.take(i as int),
            pv,
            vv,
            other_props_allowed,
        ));
    }
    assert(node.entries@.take(i as int) =~= node.entries@);
    check_required_props(node, &prop_defs, errors);
    check_value_count(node, &value_defs, arg_idx, errors);
    assert(diags_view(errors@) =~= diags_view(old(errors)@) + entries_diags(sd, *node, *schema_def));
}

/// The nodes of a children block against a `children` definition (see [`block_diags`]).
#[verifier::rlimit(40)]
fn validate_block(schema: &KdlSchema, td: &KdlDocument, cd: &KdlNode, errors: &mut Vec<KdlDiagnostic>)
    ensures
        diags_view(final(errors)@) == diags_view(old(errors)@) + block_diags(schema.schema_document(), *td, *cd),
    decreases *td, 2int, 0int,
{
    let ghost sd = schema.schema_document();
    let child_node_defs: Vec<&KdlNode> = match &cd.children {
        Some(c) => named_nodes_c(&c.nodes, "node"),
        None => {
            let v: Vec<&KdlNode> = Vec::new();
            assert(deref_all(v@) =~= named_nodes(child_nodes(*cd), "node"@));
            v
        },
    };
    let other_nodes_allowed = setting_on_c(cd, "other-nodes-allowed");
    match child_c(cd, "node-names") {
        Some(nn) => {
            let v = build_validations(schema, nn);
            names_c(&td.nodes, &v, errors);
        },
        None => {},
    }
    validate_nodes(schema, &td.nodes, &child_node_defs, other_nodes_allowed, errors);
    check_node_counts(td, &child_node_defs, errors);
    assert(diags_view(errors@) =~= diags_view(old(errors)@) + block_diags(sd, *td, *cd));
}

/// Each of `nodes` against `defs` (see [`nodes_diags`]).
#[verifier::rlimit(40)]
fn validate_nodes(
    schema: &KdlSchema,
    nodes: &Vec<KdlNode>,
    defs: &Vec<&KdlNode>,
    other_allowed: bool,
    errors: &mut Vec<KdlDiagnostic>,
)
    ensures
        diags_view(final(errors)@) == diags_view(old(errors)@) + nodes_diags(
            schema.schema_document(),
            nodes@,
            nodes@.len() as int,
            deref_all(defs@),
            other_allowed,
        ),
    decreases nodes@, 0int, 0int,
{
    let ghost sd = schema.schema_document();
    let ghost dv = deref_all(defs@);
    let mut i: usize = 0;
    while i < nodes.len()
        invariant
            i <= nodes@.len(),
            sd == schema.schema_document(),
            dv == deref_all(defs@),
            diags_view(errors@) == diags_view(old(errors)@) + nodes_diags(sd, nodes@, i as int, dv, other_allowed),
        decreases nodes.len() - i,
    {
        proof {
            assert(decreases_to!(nodes@ => nodes@[i as int]));
        }
        validate_node(schema, &nodes[i], defs, other_allowed, errors);
        i += 1;
        assert(diags_view(errors@) =~= diags_view(old(errors)@) + nodes_diags(sd, nodes@, i as int, dv, other_allowed));
    }
}

/// A node's children against the `children` block of its definition (see [`children_diags`]).
#[verifier::rlimit(40)]
pub fn validate_node_children(schema: &KdlSchema, node: &KdlNode, schema_def: &KdlNode, errors: &mut Vec<KdlDiagnostic>)
    ensures
        diags_view(final(errors)@) == diags_view(old(errors)@) + children_diags(
            schema.schema_document(),
            *node,
            *schema_def,
        ),
    decreases *node, 0int, 0int,
{
    let ghost sd = schema.schema_document();
    match &node.children {
        Some(td) => match child_c(schema_def, "children") {
            Some(children_def) => {
                let effective_def = match resolve_children_def(schema, children_def) {
                    Some(d) => d,
                    None => children_def,
                };
                proof {
                    assert(decreases_to!(*node => *td));
                }
                validate_block(schema, td, effective_def, errors);
            },
            None => {
                assert(diags_view(errors@) =~= diags_view(old(errors)@) + children_diags(sd, *node, *schema_def));
            },
        },
        None => {
            assert(diags_view(errors@) =~= diags_view(old(errors)@) + children_diags(sd, *node, *schema_def));
        },
    }
}

/// The `min` and `max` counts of the named definitions against the nodes of `target` (see [`counts_diags`]).
#[verifier::rlimit(40)]
pub fn check_node_counts(target: &KdlDocument, node_defs: &Vec<&KdlNode>, errors: &mut Vec<KdlDiagnostic>)
    ensures
        diags_view(final(errors)@) == diags_view(old(errors)@) + counts_diags(*target, deref_all(node_defs@)),
{
    let ghost dv = deref_all(node_defs@);
    let mut i: usize = 0;
    while i < node_defs.len()
        invariant
            i <= node_defs@.len(),
            dv == deref_all(node_defs@),
            diags_view(errors@) == diags_view(old(errors)@) + counts_diags(*target, dv.take(i as int)),
        decreases node_defs.len() - i,
    {
        assert(dv.take(i + 1).drop_last() =~= dv.take(i as int));
        let def: &KdlNode = node_defs[i];
        match arg0_str_c(def) {
            Some(name) => {
                let count = count_named_c(&target.nodes, name);
                match count_bound_c(def, "min") {
                    Some(min) => {
                        if count < min {
                            let head = quoted_message("Too few '", name, "' nodes: expected at least ");
                            let t = count_message(head.as_str(), min, count);
                            push_diag(errors, target.span, t, "missing required nodes", None, Severity::Error);
                        }
                    },
                    None => {},
                }
                match count_bound_c(def, "max") {
                    Some(max) => {
                        if count > max {
                            let head = quoted_message("Too many '", name, "' nodes: expected at most ");
                            let t = count_message(head.as_str(), max, count);
                            push_diag(errors, target.span, t, "too many nodes", None, Severity::Error);
                        }
                    },
                    None => {},
                }
            },
            None => {},
        }
        i += 1;
        assert(diags_view(errors@) =~= diags_view(old(errors)@) + counts_diags(*target, dv.take(i as int)));
    }
    assert(dv.take(i as int) =~= dv);
}

} // verus!
