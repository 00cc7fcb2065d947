//! What a schema asks of a document, stated over the schema document and the
//! target document: the diagnostics that validation reports, in order.
//!
//! A schema's top-level `document` node holds `node` definitions (first
//! argument: the node name, or none for any name), `tag` definitions for type
//! annotations, `node-names` and `tag-names` constraints and the settings
//! `other-nodes-allowed` and `other-tags-allowed`. A definition may name a
//! shared definition with `ref="id"`; the shared ones stand in a `definitions`
//! node inside `document`, each with an `id=` property.

use vstd::prelude::*;

use crate::diagnostic::{DiagnosticModel, Severity};
use crate::document::{arg_count, find_node, last_prop, nth_arg, KdlDocument, KdlEntry, KdlNode, SourceSpan};
use crate::schema_v2::check::check_model;
use crate::schema_v2::rules::{
    arg0_int, arg0_str, child, child_nodes, count_named, diag, has_prop, id_lookup, matching_def, named_nodes,
    names_diags, prop_names_diags, setting_on,
};
use crate::schema_v2::types::{constraints_of, merge_model, ConstraintSyntax, ValidationsModel};
use crate::text::nat_text;
use crate::value::{KdlValue, ValueModel};

verus! {

/// The `definitions` node inside the schema's `document` node.
pub open spec fn definitions_of(sd: KdlDocument) -> Option<KdlNode> {
    match find_node(sd.nodes@, "document"@) {
        Some(dn) => child(dn, "definitions"@),
        None => None,
    }
}

/// The shared definition that a schema node names with its `ref=` property:
/// the first child of `definitions` whose `id=` is that string.
pub open spec fn ref_target(sd: KdlDocument, n: KdlNode) -> Option<KdlNode> {
    match last_prop(n.entries@, "ref"@) {
        Some(e) => match e.value {
            KdlValue::String(id) => match definitions_of(sd) {
                Some(d) => match d.children {
                    Some(dc) => id_lookup(dc.nodes@, id@),
                    None => None,
                },
                None => None,
            },
            _ => None,
        },
        None => None,
    }
}

/// The definition that stands for a schema node: the one it refers to, or itself.
pub open spec fn effective(sd: KdlDocument, n: KdlNode) -> KdlNode {
    match ref_target(sd, n) {
        Some(r) => r,
        None => n,
    }
}

/// The constraints of a schema node, completed by those of the definition it refers to.
pub open spec fn build(sd: KdlDocument, n: KdlNode) -> ValidationsModel {
    match ref_target(sd, n) {
        Some(r) => merge_model(constraints_of(n, ConstraintSyntax::V1), constraints_of(r, ConstraintSyntax::V1)),
        None => constraints_of(n, ConstraintSyntax::V1),
    }
}

/// A count bound of a definition (`min` or `max` child) as a machine size:
/// the integer is taken modulo the word size, as a cast to `usize` does.
pub open spec fn count_bound(def: KdlNode, key: Seq<char>) -> Option<usize> {
    match child(def, key) {
        Some(c) => match arg0_int(c) {
            Some(i) => Some(i as usize),
            None => None,
        },
        None => None,
    }
}

pub open spec fn error_diag(span: SourceSpan, msg: Seq<char>, label: Seq<char>, help: Option<Seq<char>>) -> DiagnosticModel {
    diag(span, msg, label, help, Severity::Error)
}

/// The checks of the type annotations of `nodes` against `tag-names` constraints.
pub open spec fn tag_names_diags(nodes: Seq<KdlNode>, v: ValidationsModel) -> Seq<DiagnosticModel>
    decreases nodes.len(),
{
    if nodes.len() == 0 {
        Seq::empty()
    } else {
        tag_names_diags(nodes.drop_last(), v) + match nodes.last().ty {
            Some(t) => check_model(v, ValueModel::String(t.value@), t.span),
            None => Seq::empty(),
        }
    }
}

/// The `min` and `max` counts of each named definition against the nodes of `target`.
pub open spec fn counts_diags(target: KdlDocument, defs: Seq<KdlNode>) -> Seq<DiagnosticModel>
    decreases defs.len(),
{
    if defs.len() == 0 {
        Seq::empty()
    } else {
        let def = defs.last();
        counts_diags(target, defs.drop_last()) + match arg0_str(def) {
            Some(name) => {
                let count = count_named(target.nodes@, name);
                (match count_bound(def, "min"@) {
                    Some(min) => if count < min as nat {
                        seq![
                            error_diag(
                                target.span,
                                "Too few '"@ + name + "' nodes: expected at least "@ + nat_text(min as nat)
                                    + ", found "@ + nat_text(count),
                                "missing required nodes"@,
                                None,
                            ),
                        ]
                    } else {
                        Seq::empty()
                    },
                    None => Seq::empty(),
                }) + (match count_bound(def, "max"@) {
                    Some(max) => if count > max as nat {
                        seq![
                            error_diag(
                                target.span,
                                "Too many '"@ + name + "' nodes: expected at most "@ + nat_text(max as nat)
                                    + ", found "@ + nat_text(count),
                                "too many nodes"@,
                                None,
                            ),
                        ]
                    } else {
                        Seq::empty()
                    },
                    None => Seq::empty(),
                })
            },
            None => Seq::empty(),
        }
    }
}

/// Whether a `value` definition places no count bound (neither `min` nor `max`).
pub open spec fn unbounded(def: KdlNode) -> bool {
    match def.children {
        Some(c) => find_node(c.nodes@, "min"@) is None && find_node(c.nodes@, "max"@) is None,
        None => true,
    }
}

/// The first `value` definition that places no count bound.
pub open spec fn first_unbounded(defs: Seq<KdlNode>) -> Option<KdlNode>
    decreases defs.len(),
{
    if defs.len() == 0 {
        None
    } else if unbounded(defs[0]) {
        Some(defs[0])
    } else {
        first_unbounded(defs.drop_first())
    }
}

/// The `value` definition for the positional argument at `idx`: the one at
/// that position, or else the first without count bounds.
pub open spec fn value_def_for(defs: Seq<KdlNode>, idx: nat) -> Option<KdlNode> {
    if idx < defs.len() {
        Some(defs[idx as int])
    } else {
        first_unbounded(defs)
    }
}

/// An entry's value against constraints, and its type annotation against their `tag` part.
pub open spec fn value_and_tag_diags(v: ValidationsModel, e: KdlEntry) -> Seq<DiagnosticModel> {
    check_model(v, e.value@, e.span) + match v.tag {
        Some(tv) => match e.ty {
            Some(t) => check_model(*tv, ValueModel::String(t.value@), t.span),
            None => Seq::empty(),
        },
        None => Seq::empty(),
    }
}

/// One entry of a node: a property against its `prop` definition, or a
/// positional argument (the `idx`-th) against its `value` definition.
pub open spec fn entry_diags(
    sd: KdlDocument,
    e: KdlEntry,
    idx: nat,
    prop_defs: Seq<KdlNode>,
    value_defs: Seq<KdlNode>,
    other_props: bool,
) -> Seq<DiagnosticModel> {
    match e.name {
        Some(name) => match matching_def(prop_defs, name.value@) {
            Some(def) => value_and_tag_diags(build(sd, def), e),
            None => if other_props {
                Seq::empty()
            } else {
                seq![
                    error_diag(
                        e.span,
                        "Unknown property: '"@ + name.value@ + "'"@,
                        "not defined in schema"@,
                        Some("Add this property to the schema or set 'other-props-allowed #true'"@),
                    ),
                ]
            },
        },
        None => match value_def_for(value_defs, idx) {
            Some(def) => value_and_tag_diags(build(sd, def), e),
            None => Seq::empty(),
        },
    }
}

/// The entries of a node, each with the number of positional arguments before it.
pub open spec fn entries_loop(
    sd: KdlDocument,
    es: Seq<KdlEntry>,
    prop_defs: Seq<KdlNode>,
    value_defs: Seq<KdlNode>,
    other_props: bool,
) -> Seq<DiagnosticModel>
    decreases es.len(),
{
    if es.len() == 0 {
        Seq::empty()
    } else {
        entries_loop(sd, es.drop_last(), prop_defs, value_defs, other_props) + entry_diags(
            sd,
            es.last(),
            arg_count(es.drop_last()),
            prop_defs,
            value_defs,
            other_props,
        )
    }
}

/// The required properties (`required #true`) that a node lacks, in the order of their definitions.
pub open spec fn required_props_diags(n: KdlNode, prop_defs: Seq<KdlNode>) -> Seq<DiagnosticModel>
    decreases prop_defs.len(),
{
    if prop_defs.len() == 0 {
        Seq::empty()
    } else {
        let pd = prop_defs.last();
        required_props_diags(n, prop_defs.drop_last()) + match arg0_str(pd) {
            Some(name) => if setting_on(pd, "required"@) && !has_prop(n.entries@, name) {
                seq![
                    error_diag(
                        n.span,
                        "Missing required property: '"@ + name + "'"@,
                        "required property not found"@,
                        None,
                    ),
                ]
            } else {
                Seq::empty()
            },
            None => Seq::empty(),
        }
    }
}

/// The number of positional arguments against the first `value` definition's `min` and `max`.
pub open spec fn value_count_diags(n: KdlNode, value_defs: Seq<KdlNode>) -> Seq<DiagnosticModel> {
    if value_defs.len() == 0 {
        Seq::empty()
    } else {
        let vd = value_defs[0];
        let found = arg_count(n.entries@);
        (match count_bound(vd, "min"@) {
            Some(min) => if found < min as nat {
                seq![
                    error_diag(
                        n.span,
                        "Too few arguments: expected at least "@ + nat_text(min as nat) + ", found "@ + nat_text(found),
                        "not enough arguments"@,
                        None,
                    ),
                ]
            } else {
                Seq::empty()
            },
            None => Seq::empty(),
        }) + (match count_bound(vd, "max"@) {
            Some(max) => if found > max as nat {
                seq![
                    error_diag(
                        n.span,
                        "Too many arguments: expected at most "@ + nat_text(max as nat) + ", found "@ + nat_text(found),
                        "too many arguments"@,
                        None,
                    ),
                ]
            } else {
                Seq::empty()
            },
            None => Seq::empty(),
        })
    }
}

/// A node's entries against a definition: property names, each entry, the
/// required properties, and the count of positional arguments.
pub open spec fn entries_diags(sd: KdlDocument, n: KdlNode, def: KdlNode) -> Seq<DiagnosticModel> {
    match def.children {
        None => Seq::empty(),
        Some(dc) => {
            let prop_defs = named_nodes(dc.nodes@, "prop"@);
            let value_defs = named_nodes(dc.nodes@, "value"@);
            let other_props = setting_on(def, "other-props-allowed"@);
            (match find_node(dc.nodes@, "prop-names"@) {
                Some(pn) => prop_names_diags(n.entries@, build(sd, pn)),
                None => Seq::empty(),
            }) + entries_loop(sd, n.entries@, prop_defs, value_defs, other_props) + required_props_diags(
                n,
                prop_defs,
            ) + value_count_diags(n, value_defs)
        },
    }
}

/// A node's type annotation against the `tag` child of its definition.
pub open spec fn own_tag_diags(sd: KdlDocument, n: KdlNode, def: KdlNode) -> Seq<DiagnosticModel> {
    match child(def, "tag"@) {
        Some(td) => match n.ty {
            Some(t) => check_model(build(sd, td), ValueModel::String(t.value@), t.span),
            None => Seq::empty(),
        },
        None => Seq::empty(),
    }
}

/// The diagnostic of a node that no definition matches.
pub open spec fn unknown_node_diag(n: KdlNode) -> DiagnosticModel {
    error_diag(
        n.span,
        "Unknown node: '"@ + n.name.value@ + "'"@,
        "not defined in schema"@,
        Some("Add this node to the schema or set 'other-nodes-allowed #true'"@),
    )
}

/// The diagnostics of the first `k` of `nodes`, each against `defs`.
pub open spec fn nodes_diags(sd: KdlDocument, nodes: Seq<KdlNode>, k: int, defs: Seq<KdlNode>, other_nodes: bool) -> Seq<DiagnosticModel>
    decreases nodes, k, 0int,
{
    if k <= 0 || k > nodes.len() {
        Seq::empty()
    } else {
        nodes_diags(sd, nodes, k - 1, defs, other_nodes) + node_diags(sd, nodes[k - 1], defs, other_nodes)
    }
}

/// One node against the definitions it may match: its annotation, entries and children.
pub open spec fn node_diags(sd: KdlDocument, n: KdlNode, defs: Seq<KdlNode>, other_nodes: bool) -> Seq<DiagnosticModel>
    decreases n, 1int, 0int,
{
    match matching_def(defs, n.name.value@) {
        Some(def) => {
            let eff = effective(sd, def);
            own_tag_diags(sd, n, eff) + entries_diags(sd, n, eff) + children_diags(sd, n, eff)
        },
        None => if other_nodes {
            Seq::empty()
        } else {
            seq![unknown_node_diag(n)]
        },
    }
}

/// A node's children against the `children` block of its definition.
pub open spec fn children_diags(sd: KdlDocument, n: KdlNode, def: KdlNode) -> Seq<DiagnosticModel>
    decreases n, 0int, 0int,
{
    match (n.children, child(def, "children"@)) {
        (Some(td), Some(cd)) => block_diags(sd, td, effective(sd, cd)),
        _ => Seq::empty(),
    }
}

/// The nodes of a children block `td` against a `children` definition.
pub open spec fn block_diags(sd: KdlDocument, td: KdlDocument, cd: KdlNode) -> Seq<DiagnosticModel>
    decreases td, 2int, 0int,
{
    let defs = named_nodes(child_nodes(cd), "node"@);
    let other_nodes = setting_on(cd, "other-nodes-allowed"@);
    (match child(cd, "node-names"@) {
        Some(nn) => names_diags(td.nodes@, build(sd, nn)),
        None => Seq::empty(),
    }) + nodes_diags(sd, td.nodes@, td.nodes@.len() as int, defs, other_nodes) + counts_diags(td, defs)
}

/// A top-level node's type annotation against the schema's `tag` definitions.
pub open spec fn tag_diags(sd: KdlDocument, n: KdlNode, tag_defs: Seq<KdlNode>, other_tags: bool) -> Seq<DiagnosticModel> {
    match n.ty {
        None => Seq::empty(),
        Some(t) => match matching_def(tag_defs, t.value@) {
            Some(def) => {
                let eff = effective(sd, def);
                match eff.children {
                    Some(ec) => {
                        let tag_node_defs = named_nodes(ec.nodes@, "node"@);
                        let other_nodes = setting_on(eff, "other-nodes-allowed"@);
                        (match find_node(ec.nodes@, "node-names"@) {
                            Some(nn) => check_model(build(sd, nn), ValueModel::String(n.name.value@), n.name.span),
                            None => Seq::empty(),
                        }) + if tag_node_defs.len() > 0 && !other_nodes && matching_def(
                            tag_node_defs,
                            n.name.value@,
                        ) is None {
                            seq![
                                error_diag(
                                    n.span,
                                    "Node '"@ + n.name.value@ + "' not allowed for tag '"@ + t.value@ + "'"@,
                                    "not allowed for this tag"@,
                                    None,
                                ),
                            ]
                        } else {
                            Seq::empty()
                        }
                    },
                    None => Seq::empty(),
                }
            },
            None => if other_tags {
                Seq::empty()
            } else {
                seq![
                    error_diag(
                        t.span,
                        "Unknown tag: '"@ + t.value@ + "'"@,
                        "not defined in schema"@,
                        Some("Add this tag to the schema or set 'other-tags-allowed #true'"@),
                    ),
                ]
            },
        },
    }
}

/// The first `k` top-level nodes: each against the node definitions, then its annotation against the tags.
pub open spec fn top_nodes_diags(
    sd: KdlDocument,
    nodes: Seq<KdlNode>,
    k: int,
    defs: Seq<KdlNode>,
    other_nodes: bool,
    tag_defs: Seq<KdlNode>,
    other_tags: bool,
) -> Seq<DiagnosticModel>
    decreases k,
{
    if k <= 0 || k > nodes.len() {
        Seq::empty()
    } else {
        top_nodes_diags(sd, nodes, k - 1, defs, other_nodes, tag_defs, other_tags) + node_diags(
            sd,
            nodes[k - 1],
            defs,
            other_nodes,
        ) + tag_diags(sd, nodes[k - 1], tag_defs, other_tags)
    }
}

/// All diagnostics of validating `target` against the schema document `sd`:
/// `node-names`, then `tag-names`, then each node, then the node counts.
pub open spec fn document_diags(sd: KdlDocument, target: KdlDocument) -> Seq<DiagnosticModel> {
    match find_node(sd.nodes@, "document"@) {
        None => Seq::empty(),
        Some(dn) => match dn.children {
            None => Seq::empty(),
            Some(sc) => {
                let defs = named_nodes(sc.nodes@, "node"@);
                let tag_defs = named_nodes(sc.nodes@, "tag"@);
                let other_nodes = setting_on(dn, "other-nodes-allowed"@);
                let other_tags = setting_on(dn, "other-tags-allowed"@);
                (match find_node(sc.nodes@, "node-names"@) {
                    Some(nn) => names_diags(target.nodes@, build(sd, nn)),
                    None => Seq::empty(),
                }) + (match find_node(sc.nodes@, "tag-names"@) {
                    Some(tn) => tag_names_diags(target.nodes@, build(sd, tn)),
                    None => Seq::empty(),
                }) + top_nodes_diags(
                    sd,
                    target.nodes@,
                    target.nodes@.len() as int,
                    defs,
                    other_nodes,
                    tag_defs,
                    other_tags,
                ) + counts_diags(target, defs)
            },
        },
    }
}


/// A named node definition's `min` and `max` bound how often the node occurs:
/// its count checks report nothing exactly when the count lies between them.
pub proof fn law_node_count_bounds(target: KdlDocument, def: KdlNode, name: Seq<char>, min: usize, max: usize)
    requires
        arg0_str(def) == Some(name),
        count_bound(def, "min"@) == Some(min),
        count_bound(def, "max"@) == Some(max),
    ensures
        counts_diags(target, seq![def]).len() == 0 <==> (min as nat <= count_named(target.nodes@, name) <= max as nat),
{
    let ds = seq![def];
    assert(ds.drop_last() =~= Seq::<KdlNode>::empty());
    assert(ds.last() == def);
    assert(counts_diags(target, ds.drop_last()) == Seq::<DiagnosticModel>::empty());
    let count = count_named(target.nodes@, name);
    let lo: Seq<DiagnosticModel> = if count < min as nat {
        seq![
            error_diag(
                target.span,
                "Too few '"@ + name + "' nodes: expected at least "@ + nat_text(min as nat) + ", found "@ + nat_text(count),
                "missing required nodes"@,
                None,
            ),
        ]
    } else {
        Seq::empty()
    };
    let hi: Seq<DiagnosticModel> = if count > max as nat {
        seq![
            error_diag(
                target.span,
                "Too many '"@ + name + "' nodes: expected at most "@ + nat_text(max as nat) + ", found "@ + nat_text(count),
                "too many nodes"@,
                None,
            ),
        ]
    } else {
        Seq::empty()
    };
    assert(counts_diags(target, ds) == Seq::<DiagnosticModel>::empty() + (lo + hi));
    assert((Seq::<DiagnosticModel>::empty() + (lo + hi)).len() == lo.len() + hi.len());
}

/// A property definition with `required #true` is met exactly when the node
/// has a property of that name.
pub proof fn law_required_property(n: KdlNode, pd: KdlNode, name: Seq<char>)
    requires
        arg0_str(pd) == Some(name),
        setting_on(pd, "required"@),
    ensures
        required_props_diags(n, seq![pd]).len() == 0 <==> has_prop(n.entries@, name),
{
    let ps = seq![pd];
    assert(ps.drop_last() =~= Seq::<KdlNode>::empty());
    assert(ps.last() == pd);
    assert(required_props_diags(n, ps.drop_last()) == Seq::<DiagnosticModel>::empty());
}

/// Whether the children of a `document` block hold no node or tag definition
/// and no `node-names` or `tag-names` rule.
pub open spec fn defines_nothing(nodes: Seq<KdlNode>) -> bool {
    forall|i: int|
        0 <= i < nodes.len() ==> {
            let nm = #[trigger] nodes[i].name.value@;
            nm != "node"@ && nm != "tag"@ && nm != "node-names"@ && nm != "tag-names"@
        }
}

proof fn lemma_none_named(nodes: Seq<KdlNode>, name: Seq<char>)
    requires
        forall|i: int| 0 <= i < nodes.len() ==> #[trigger] nodes[i].name.value@ != name,
    ensures
        named_nodes(nodes, name) == Seq::<KdlNode>::empty(),
        find_node(nodes, name) is None,
    decreases nodes.len(),
{
    if nodes.len() > 0 {
        assert(nodes.last() == nodes[nodes.len() - 1]);
        assert(nodes[0].name.value@ != name);
        let rest = nodes.drop_last();
        assert forall|i: int| 0 <= i < rest.len() implies #[trigger] rest[i].name.value@ != name by {
            assert(rest[i] == nodes[i]);
        }
        lemma_none_named(rest, name);
        let tail = nodes.drop_first();
        assert forall|i: int| 0 <= i < tail.len() implies #[trigger] tail[i].name.value@ != name by {
            assert(tail[i] == nodes[i + 1]);
        }
        lemma_none_named(tail, name);
    }
}

proof fn lemma_open_top_nodes(sd: KdlDocument, nodes: Seq<KdlNode>, k: int)
    ensures
        top_nodes_diags(sd, nodes, k, Seq::empty(), true, Seq::empty(), true) == Seq::<DiagnosticModel>::empty(),
    decreases k,
{
    if 0 < k <= nodes.len() {
        lemma_open_top_nodes(sd, nodes, k - 1);
        let n = nodes[k - 1];
        assert(matching_def(Seq::empty(), n.name.value@) is None);
        assert(node_diags(sd, n, Seq::empty(), true) == Seq::<DiagnosticModel>::empty());
        match n.ty {
            Some(t) => {
                assert(matching_def(Seq::empty(), t.value@) is None);
            },
            None => {},
        }
        assert(tag_diags(sd, n, Seq::empty(), true) == Seq::<DiagnosticModel>::empty());
        assert(top_nodes_diags(sd, nodes, k, Seq::empty(), true, Seq::empty(), true) =~= Seq::<
            DiagnosticModel,
        >::empty());
    }
}

/// A schema whose `document` block defines no node and no tag, has no
/// `node-names` or `tag-names` rule, and sets both `other-nodes-allowed` and
/// `other-tags-allowed`, accepts every document.
pub proof fn law_open_schema_accepts_all(sd: KdlDocument, target: KdlDocument)
    requires
        find_node(sd.nodes@, "document"@) is Some,
        defines_nothing(child_nodes(find_node(sd.nodes@, "document"@)->0)),
        setting_on(find_node(sd.nodes@, "document"@)->0, "other-nodes-allowed"@),
        setting_on(find_node(sd.nodes@, "document"@)->0, "other-tags-allowed"@),
    ensures
        document_diags(sd, target) == Seq::<DiagnosticModel>::empty(),
{
    let dn = find_node(sd.nodes@, "document"@)->0;
    match dn.children {
        None => {},
        Some(sc) => {
            let ns = sc.nodes@;
            assert(ns == child_nodes(dn));
            lemma_none_named(ns, "node"@);
            lemma_none_named(ns, "tag"@);
            lemma_none_named(ns, "node-names"@);
            lemma_none_named(ns, "tag-names"@);
            lemma_open_top_nodes(sd, target.nodes@, target.nodes@.len() as int);
            assert(counts_diags(target, Seq::empty()) == Seq::<DiagnosticModel>::empty());
            assert(document_diags(sd, target) =~= Seq::<DiagnosticModel>::empty());
        },
    }
}

/// Whether a `value` definition bounds how often it applies: it has a child
/// named `min` or `max`.
pub open spec fn has_count_bound(def: KdlNode) -> bool {
    exists|k: int|
        0 <= k < child_nodes(def).len() && (#[trigger] child_nodes(def)[k].name.value@ == "min"@
            || child_nodes(def)[k].name.value@ == "max"@)
}

proof fn lemma_find_named(nodes: Seq<KdlNode>, name: Seq<char>, k: int)
    requires
        0 <= k < nodes.len(),
        nodes[k].name.value@ == name,
    ensures
        find_node(nodes, name) is Some,
    decreases k,
{
    if nodes[0].name.value@ != name {
        assert(nodes.drop_first()[k - 1] == nodes[k]);
        lemma_find_named(nodes.drop_first(), name, k - 1);
    }
}

proof fn lemma_unbounded(def: KdlNode)
    ensures
        unbounded(def) <==> !has_count_bound(def),
{
    match def.children {
        None => {},
        Some(c) => {
            let ns = c.nodes@;
            assert(ns == child_nodes(def));
            if has_count_bound(def) {
                let k = choose|k: int|
                    0 <= k < child_nodes(def).len() && (#[trigger] child_nodes(def)[k].name.value@ == "min"@
                        || child_nodes(def)[k].name.value@ == "max"@);
                if ns[k].name.value@ == "min"@ {
                    lemma_find_named(ns, "min"@, k);
                } else {
                    lemma_find_named(ns, "max"@, k);
                }
            } else {
                assert forall|i: int| 0 <= i < ns.len() implies #[trigger] ns[i].name.value@ != "min"@ by {
                    assert(child_nodes(def)[i] == ns[i]);
                }
                assert forall|i: int| 0 <= i < ns.len() implies #[trigger] ns[i].name.value@ != "max"@ by {
                    assert(child_nodes(def)[i] == ns[i]);
                }
                lemma_none_named(ns, "min"@);
                lemma_none_named(ns, "max"@);
            }
        },
    }
}

proof fn lemma_first_unbounded(defs: Seq<KdlNode>, j: int)
    requires
        0 <= j <= defs.len(),
        forall|i: int| 0 <= i < j ==> has_count_bound(#[trigger] defs[i]),
        j < defs.len() ==> !has_count_bound(defs[j]),
    ensures
        first_unbounded(defs) == if j < defs.len() {
            Some(defs[j])
        } else {
            None
        },
    decreases j,
{
    if defs.len() > 0 {
        lemma_unbounded(defs[0]);
        if j > 0 {
            let rest = defs.drop_first();
            assert forall|i: int| 0 <= i < j - 1 implies has_count_bound(#[trigger] rest[i]) by {
                assert(rest[i] == defs[i + 1]);
            }
            if j < defs.len() {
                assert(rest[j - 1] == defs[j]);
            }
            lemma_first_unbounded(rest, j - 1);
        }
    }
}

/// Which `value` definition a positional argument is checked against: the
/// one at its own position; past the listed definitions, the first that has
/// neither a `min` nor a `max` child; and none where every definition has one.
pub proof fn law_value_definition_for_argument(
    sd: KdlDocument,
    e: KdlEntry,
    idx: nat,
    prop_defs: Seq<KdlNode>,
    value_defs: Seq<KdlNode>,
    other_props: bool,
    j: int,
)
    requires
        e.name is None,
        0 <= j <= value_defs.len(),
        forall|i: int| 0 <= i < j ==> has_count_bound(#[trigger] value_defs[i]),
        j < value_defs.len() ==> !has_count_bound(value_defs[j]),
    ensures
        idx < value_defs.len() ==> entry_diags(sd, e, idx, prop_defs, value_defs, other_props)
            == value_and_tag_diags(build(sd, value_defs[idx as int]), e),
        idx >= value_defs.len() && j < value_defs.len() ==> entry_diags(
            sd,
            e,
            idx,
            prop_defs,
            value_defs,
            other_props,
        ) == value_and_tag_diags(build(sd, value_defs[j]), e),
        idx >= value_defs.len() && j == value_defs.len() ==> entry_diags(
            sd,
            e,
            idx,
            prop_defs,
            value_defs,
            other_props,
        ) == Seq::<DiagnosticModel>::empty(),
{
    lemma_first_unbounded(value_defs, j);
}

/// The `min` and `max` of a node's first `value` definition bound its
/// positional arguments: with more than `max` of them the node draws "Too
/// many arguments: expected at most M, found N", with fewer than `min` "Too
/// few arguments: expected at least M, found N", both at the node.
pub proof fn law_value_count_bounds(n: KdlNode, value_defs: Seq<KdlNode>, m: KdlNode, bound: i128)
    requires
        value_defs.len() > 0,
        0 <= bound <= usize::MAX,
        nth_arg(m.entries@, 0) == Some(KdlValue::Integer(bound)),
    ensures
        child(value_defs[0], "max"@) == Some(m) && arg_count(n.entries@) > bound ==> value_count_diags(
            n,
            value_defs,
        ).contains(
            error_diag(
                n.span,
                "Too many arguments: expected at most "@ + nat_text(bound as nat) + ", found "@ + nat_text(
                    arg_count(n.entries@),
                ),
                "too many arguments"@,
                None,
            ),
        ),
        child(value_defs[0], "min"@) == Some(m) && arg_count(n.entries@) < bound ==> value_count_diags(
            n,
            value_defs,
        ).contains(
            error_diag(
                n.span,
                "Too few arguments: expected at least "@ + nat_text(bound as nat) + ", found "@ + nat_text(
                    arg_count(n.entries@),
                ),
                "not enough arguments"@,
                None,
            ),
        ),
{
    let ds = value_count_diags(n, value_defs);
    let vd = value_defs[0];
    assert((bound as usize) as int == bound as int);
    if child(vd, "min"@) == Some(m) && arg_count(n.entries@) < bound {
        assert(count_bound(vd, "min"@) == Some(bound as usize));
        assert(ds[0] == error_diag(
            n.span,
            "Too few arguments: expected at least "@ + nat_text(bound as nat) + ", found "@ + nat_text(
                arg_count(n.entries@),
            ),
            "not enough arguments"@,
            None,
        ));
    }
    if child(vd, "max"@) == Some(m) && arg_count(n.entries@) > bound {
        assert(count_bound(vd, "max"@) == Some(bound as usize));
        assert(ds.last() == error_diag(
            n.span,
            "Too many arguments: expected at most "@ + nat_text(bound as nat) + ", found "@ + nat_text(
                arg_count(n.entries@),
            ),
            "too many arguments"@,
            None,
        ));
        assert(ds[ds.len() - 1] == ds.last());
    }
}

} // verus!
