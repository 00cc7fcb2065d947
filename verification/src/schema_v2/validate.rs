//! Validation of a document against a v2 schema (see [`crate::schema_v2::rules`]).

use vstd::prelude::*;

use crate::diagnostic::opt_text;
use crate::text::opt_str;
use crate::document::opt_node;

use crate::diagnostic::{diags_view, lemma_diags_view_add, lemma_diags_view_push, DiagnosticModel, KdlDiagnostic, Severity};
use crate::document::{arg_count, deref_all, find_node, last_prop, nth_arg, KdlDocument, KdlEntry, KdlNode, SourceSpan};
use crate::query::query_first;
use crate::query_parser::{parse_query, query_of};
use crate::render::{push_value, value_text, value_to_string};
use crate::schema_v2::check::check_model;
use crate::schema_v2::rules::{
    alt_passes, arg_texts, block_head_diags, diag, arg0_str, arg0_bool, arg0_int, child_nodes, child, flag_on, setting_on, named_nodes, count_named, is_prop_named, has_prop, first_named, first_wildcard, matching_def, undefined_names, kept_defs, active_defs, id_lookup, kql_lookup, ref_target, build, about_text, with_about, names_diags, prop_names_diags, child_count_diags, forbidden_diags, disallow_diags, deprecated_diags, annotation_diags, merged_props, entry_diags, entries_loop, required_args_diags, distinct_diags, args_count_diags, required_props_diags, required_list_diags, own_or_ref, entries_diags, entries_with, cardinality_one, cardinality_diags, block_diags, alt_diags, one_of_diags, nodes_diags, node_diags, children_diags, document_diags,
};
use crate::schema_v2::types::{constraints_of, merge_model, ConstraintSyntax, Validations, ValidationsModel};
use crate::text::{push_int, push_nat, push_str, str_eq, string_of};
use crate::value::{KdlValue, ValueModel};

verus! {

pub fn arg0_str_c(n: &KdlNode) -> (r: Option<&str>)
    ensures
        match r {
            Some(s) => arg0_str(*n) == Some(s@),
            None => arg0_str(*n) is None,
        },
{
    match n.get(0) {
        Some(v) => v.as_string(),
        None => None,
    }
}

pub fn arg0_bool_c(n: &KdlNode) -> (r: Option<bool>)
    ensures
        r == arg0_bool(*n),
{
    match n.get(0) {
        Some(v) => v.as_bool(),
        None => None,
    }
}

pub fn arg0_int_c(n: &KdlNode) -> (r: Option<i128>)
    ensures
        r == arg0_int(*n),
{
    match n.get(0) {
        Some(v) => v.as_integer(),
        None => None,
    }
}

pub fn child_c<'a>(n: &'a KdlNode, name: &str) -> (r: Option<&'a KdlNode>)
    ensures
        match r {
            Some(c) => child(*n, name@) == Some(*c),
            None => child(*n, name@) is None,
        },
{
    match &n.children {
        Some(c) => c.get(name),
        None => None,
    }
}

pub fn flag_on_c(n: &KdlNode, name: &str) -> (r: bool)
    ensures
        r == flag_on(*n, name@),
{
    match child_c(n, name) {
        Some(c) => match arg0_bool_c(c) {
            Some(b) => b,
            None => true,
        },
        None => false,
    }
}

pub fn setting_on_c(n: &KdlNode, name: &str) -> (r: bool)
    ensures
        r == setting_on(*n, name@),
{
    match child_c(n, name) {
        Some(c) => match arg0_bool_c(c) {
            Some(b) => b,
            None => false,
        },
        None => false,
    }
}

pub fn named_nodes_c<'a>(nodes: &'a Vec<KdlNode>, name: &str) -> (r: Vec<&'a KdlNode>)
    ensures
        deref_all(r@) == named_nodes(nodes@, name@),
{
    let mut out: Vec<&KdlNode> = Vec::new();
    let mut i: usize = 0;
    while i < nodes.len()
        invariant
            i <= nodes@.len(),
            deref_all(out@) == named_nodes(nodes@.take(i as int), name@),
        decreases nodes.len() - i,
    {
        let n = &nodes[i];
        assert(nodes@.take(i + 1).drop_last() =~= nodes@.take(i as int));
        if str_eq(n.name.value.as_str(), name) {
            out.push(n);
        }
        i += 1;
        assert(deref_all(out@) =~= named_nodes(nodes@.take(i as int), name@));
    }
    assert(nodes@.take(i as int) =~= nodes@);
    out
}

pub fn count_named_c(nodes: &Vec<KdlNode>, name: &str) -> (r: usize)
    ensures
        r as nat == count_named(nodes@, name@),
{
    let mut count: usize = 0;
    let mut i: usize = 0;
    while i < nodes.len()
        invariant
            i <= nodes@.len(),
            count as nat == count_named(nodes@.take(i as int), name@),
            count <= i,
        decreases nodes.len() - i,
    {
        assert(nodes@.take(i + 1).drop_last() =~= nodes@.take(i as int));
        if str_eq(nodes[i].name.value.as_str(), name) {
            count += 1;
        }
        i += 1;
    }
    assert(nodes@.take(i as int) =~= nodes@);
    count
}

pub fn has_prop_c(es: &Vec<KdlEntry>, name: &str) -> (r: bool)
    ensures
        r == has_prop(es@, name@),
{
    let mut i: usize = 0;
    while i < es.len()
        invariant
            i <= es@.len(),
            forall|j: int| 0 <= j < i ==> !is_prop_named(#[trigger] es@[j], name@),
        decreases es.len() - i,
    {
        match &es[i].name {
            Some(n) => {
                if str_eq(n.value.as_str(), name) {
                    assert(is_prop_named(es@[i as int], name@));
                    return true;
                }
            },
            None => {},
        }
        i += 1;
    }
    false
}

pub fn find_matching_node_def<'a>(defs: &Vec<&'a KdlNode>, name: &str) -> (r: Option<&'a KdlNode>)
    ensures
        match r {
            Some(d) => matching_def(deref_all(defs@), name@) == Some(*d),
            None => matching_def(deref_all(defs@), name@) is None,
        },
{
    let ghost dv = deref_all(defs@);
    let mut i: usize = 0;
    assert(dv.skip(0) =~= dv);
    while i < defs.len()
        invariant
            i <= defs@.len(),
            dv == deref_all(defs@),
            first_named(dv, name@) == first_named(dv.skip(i as int), name@),
        decreases defs.len() - i,
    {
        assert(dv.skip(i as int).drop_first() =~= dv.skip(i + 1));
        let d: &KdlNode = defs[i];
        match arg0_str_c(d) {
            Some(s) => {
                if str_eq(s, name) {
                    return Some(d);
                }
            },
            None => {},
        }
        i += 1;
    }
    let mut j: usize = 0;
    while j < defs.len()
        invariant
            j <= defs@.len(),
            dv == deref_all(defs@),
            first_named(dv, name@) is None,
            first_wildcard(dv) == first_wildcard(dv.skip(j as int)),
        decreases defs.len() - j,
    {
        assert(dv.skip(j as int).drop_first() =~= dv.skip(j + 1));
        let d: &KdlNode = defs[j];
        if d.get(0).is_none() {
            return Some(d);
        }
        j += 1;
    }
    None
}



fn same_opt_str(a: Option<&str>, b: Option<&str>) -> (r: bool)
    ensures
        r == (opt_str(a) == opt_str(b)),
{
    match (a, b) {
        (Some(x), Some(y)) => str_eq(x, y),
        (None, None) => true,
        _ => false,
    }
}

proof fn lemma_contains_concat<A>(a: Seq<A>, b: Seq<A>, x: A)
    ensures
        (a + b).contains(x) <==> (a.contains(x) || b.contains(x)),
{
    if (a + b).contains(x) {
        let i = choose|i: int| 0 <= i < (a + b).len() && (a + b)[i] == x;
        if i < a.len() {
            assert(a[i] == x);
        } else {
            assert(b[i - a.len()] == x);
        }
    }
    if a.contains(x) {
        let i = choose|i: int| 0 <= i < a.len() && a[i] == x;
        assert((a + b)[i] == x);
    }
    if b.contains(x) {
        let i = choose|i: int| 0 <= i < b.len() && b[i] == x;
        assert((a + b)[a.len() + i] == x);
    }
}

#[verifier::loop_isolation(false)]
fn is_undefined_c(nodes: &Vec<KdlNode>, name: Option<&str>) -> (r: bool)
    ensures
        r == undefined_names(nodes@).contains(opt_str(name)),
{
    let ghost x = opt_str(name);
    let mut i: usize = 0;
    while i < nodes.len()
        invariant
            i <= nodes@.len(),
            x == opt_str(name),
            !undefined_names(nodes@.take(i as int)).contains(x),
        decreases nodes.len() - i,
    {
        assert(nodes@.take(i + 1).drop_last() =~= nodes@.take(i as int));
        let u = &nodes[i];
        if str_eq(u.name.value.as_str(), "undefine") {
            let empty: Vec<KdlNode> = Vec::new();
            let kids_src: &Vec<KdlNode> = match &u.children {
                Some(c) => &c.nodes,
                None => &empty,
            };
            assert(kids_src@ == child_nodes(*u));
            let kids = named_nodes_c(kids_src, "node");
            let ghost names = named_nodes(child_nodes(*u), "node"@).map_values(|d: KdlNode| arg0_str(d));
            let mut j: usize = 0;
            while j < kids.len()
                invariant
                    j <= kids@.len(),
                    deref_all(kids@) == named_nodes(child_nodes(*u), "node"@),
                    names == named_nodes(child_nodes(*u), "node"@).map_values(|d: KdlNode| arg0_str(d)),
                    x == opt_str(name),
                    forall|q: int| 0 <= q < j ==> #[trigger] names[q] != x,
                decreases kids.len() - j,
            {
                let k: &KdlNode = kids[j];
                assert(names[j as int] == arg0_str(*k));
                if same_opt_str(arg0_str_c(k), name) {
                    proof {
                        assert(names[j as int] == x);
                        assert(names.contains(x));
                        lemma_contains_concat(undefined_names(nodes@.take(i as int)), names, x);
                        assert(undefined_names(nodes@.take(i + 1)) == undefined_names(nodes@.take(i as int)) + names);
                        lemma_undefined_prefix(nodes@, i + 1, x);
                    }
                    return true;
                }
                j += 1;
            }
            proof {
                assert(!names.contains(x));
                lemma_contains_concat(undefined_names(nodes@.take(i as int)), names, x);
            }
        }
        i += 1;
    }
    assert(nodes@.take(i as int) =~= nodes@);
    false
}

proof fn lemma_undefined_prefix(nodes: Seq<KdlNode>, k: int, x: Option<Seq<char>>)
    requires
        0 <= k <= nodes.len(),
        undefined_names(nodes.take(k)).contains(x),
    ensures
        undefined_names(nodes).contains(x),
    decreases nodes.len() - k,
{
    if k < nodes.len() {
        let t = nodes.take(k + 1);
        assert(t.drop_last() =~= nodes.take(k));
        if t.last().name.value@ == "undefine"@ {
            lemma_contains_concat(
                undefined_names(nodes.take(k)),
                named_nodes(child_nodes(t.last()), "node"@).map_values(|d: KdlNode| arg0_str(d)),
                x,
            );
        }
        lemma_undefined_prefix(nodes, k + 1, x);
    } else {
        assert(nodes.take(k) =~= nodes);
    }
}

pub fn active_defs_c<'a>(nodes: &'a Vec<KdlNode>) -> (r: Vec<&'a KdlNode>)
    ensures
        deref_all(r@) == active_defs(nodes@),
{
    let defs = named_nodes_c(nodes, "node");
    let ghost dv = deref_all(defs@);
    let ghost gone = undefined_names(nodes@);
    let mut out: Vec<&KdlNode> = Vec::new();
    let mut i: usize = 0;
    while i < defs.len()
        invariant
            i <= defs@.len(),
            dv == deref_all(defs@),
            dv == named_nodes(nodes@, "node"@),
            gone == undefined_names(nodes@),
            deref_all(out@) == kept_defs(dv.take(i as int), gone),
        decreases defs.len() - i,
    {
        assert(dv.take(i + 1).drop_last() =~= dv.take(i as int));
        let d: &KdlNode = defs[i];
        let nm = arg0_str_c(d);
        if !is_undefined_c(nodes, nm) {
            out.push(d);
        }
        i += 1;
        assert(deref_all(out@) =~= kept_defs(dv.take(i as int), gone));
    }
    assert(dv.take(i as int) =~= dv);
    out
}

pub fn id_lookup_c<'a>(nodes: &'a Vec<KdlNode>, id: &str) -> (r: Option<&'a KdlNode>)
    ensures
        match r {
            Some(n) => id_lookup(nodes@, id@) == Some(*n),
            None => id_lookup(nodes@, id@) is None,
        },
{
    let mut i: usize = 0;
    assert(nodes@.skip(0) =~= nodes@);
    while i < nodes.len()
        invariant
            i <= nodes@.len(),
            id_lookup(nodes@, id@) == id_lookup(nodes@.skip(i as int), id@),
        decreases nodes.len() - i,
    {
        assert(nodes@.skip(i as int).drop_first() =~= nodes@.skip(i + 1));
        let n = &nodes[i];
        match n.entry("id") {
            Some(e) => match e.value.as_string() {
                Some(s) => {
                    if str_eq(s, id) {
                        return Some(n);
                    }
                },
                None => {},
            },
            None => {},
        }
        i += 1;
    }
    None
}

/// The definition that `n` refers to (see [`ref_target`]).
pub fn resolve_ref<'a>(sd: &'a KdlDocument, n: &KdlNode) -> (r: Option<&'a KdlNode>)
    ensures
        match r {
            Some(x) => ref_target(*sd, *n) == Some(*x),
            None => ref_target(*sd, *n) is None,
        },
{
    let r = match child_c(n, "ref") {
        Some(r) => r,
        None => return None,
    };
    let path = match arg0_str_c(r) {
        Some(p) => p,
        None => return None,
    };
    let d = match sd.get("definitions") {
        Some(d) => d,
        None => return None,
    };
    let dc = match &d.children {
        Some(c) => c,
        None => return None,
    };
    match parse_query(path) {
        Ok(q) => match dc.query(&q) {
            Some(x) => {
                return Some(x);
            },
            None => {},
        },
        Err(_) => {},
    }
    id_lookup_c(&dc.nodes, path)
}

/// The constraints of a schema node completed by those of its reference (see [`build`]).
pub fn build_validations(sd: &KdlDocument, n: &KdlNode) -> (r: Validations)
    ensures
        r@ == build(*sd, *n),
{
    let mut v = Validations::from_node(n, ConstraintSyntax::V2);
    match resolve_ref(sd, n) {
        Some(r) => {
            let o = Validations::from_node(r, ConstraintSyntax::V2);
            v.merge(&o);
        },
        None => {},
    }
    v
}

fn about_text_c(def: &KdlNode) -> (r: Option<&str>)
    ensures
        opt_str(r) == about_text(*def),
{
    let from_prop = match def.entry("about") {
        Some(e) => e.value.as_string(),
        None => None,
    };
    match child_c(def, "about") {
        Some(a) => match arg0_str_c(a) {
            Some(t) => Some(t),
            None => from_prop,
        },
        None => from_prop,
    }
}

fn with_about_c(msg: String, def: &KdlNode) -> (r: String)
    ensures
        r@ == with_about(msg@, *def),
{
    let mut m = msg;
    match about_text_c(def) {
        Some(t) => {
            push_str(&mut m, " (");
            push_str(&mut m, t);
            push_str(&mut m, ")");
        },
        None => {},
    }
    m
}



/// Appends a diagnostic to `errors`.
pub(crate) fn push_diag(errors: &mut Vec<KdlDiagnostic>, span: SourceSpan, msg: String, label: &str, help: Option<String>, sev: Severity)
    ensures
        diags_view(final(errors)@) == diags_view(old(errors)@).push(diag(span, msg@, label@, opt_text(help), sev)),
{
    let d = KdlDiagnostic { span, message: Some(msg), label: Some(string_of(label)), help, severity: sev };
    proof {
        lemma_diags_view_push(errors@, d);
    }
    errors.push(d);
}

pub(crate) fn extend_checked(errors: &mut Vec<KdlDiagnostic>, more: Vec<KdlDiagnostic>)
    ensures
        diags_view(final(errors)@) == diags_view(old(errors)@) + diags_view(more@),
{
    crate::diagnostic::extend_diags(errors, more);
}

pub(crate) fn names_c(nodes: &Vec<KdlNode>, v: &Validations, errors: &mut Vec<KdlDiagnostic>)
    ensures
        diags_view(final(errors)@) == diags_view(old(errors)@) + names_diags(nodes@, v@),
{
    let mut i: usize = 0;
    while i < nodes.len()
        invariant
            i <= nodes@.len(),
            diags_view(errors@) == diags_view(old(errors)@) + names_diags(nodes@.take(i as int), v@),
        decreases nodes.len() - i,
    {
        assert(nodes@.take(i + 1).drop_last() =~= nodes@.take(i as int));
        let n = &nodes[i];
        let found = v.check(&KdlValue::String(n.name.value.clone()), n.name.span);
        extend_checked(errors, found);
        i += 1;
        assert(diags_view(errors@) =~= diags_view(old(errors)@) + names_diags(nodes@.take(i as int), v@));
    }
    assert(nodes@.take(i as int) =~= nodes@);
}

pub(crate) fn prop_names_c(es: &Vec<KdlEntry>, v: &Validations, errors: &mut Vec<KdlDiagnostic>)
    ensures
        diags_view(final(errors)@) == diags_view(old(errors)@) + prop_names_diags(es@, v@),
{
    let mut i: usize = 0;
    while i < es.len()
        invariant
            i <= es@.len(),
            diags_view(errors@) == diags_view(old(errors)@) + prop_names_diags(es@.take(i as int), v@),
        decreases es.len() - i,
    {
        assert(es@.take(i + 1).drop_last() =~= es@.take(i as int));
        match &es[i].name {
            Some(n) => {
                let found = v.check(&KdlValue::String(n.value.clone()), n.span);
                extend_checked(errors, found);
            },
            None => {},
        }
        i += 1;
        assert(diags_view(errors@) =~= diags_view(old(errors)@) + prop_names_diags(es@.take(i as int), v@));
    }
    assert(es@.take(i as int) =~= es@);
}

fn child_count_c(bc: &KdlDocument, target: &KdlDocument, errors: &mut Vec<KdlDiagnostic>)
    ensures
        diags_view(final(errors)@) == diags_view(old(errors)@) + child_count_diags(bc.nodes@, *target),
{
    let len = target.nodes.len();
    match bc.get("min") {
        Some(m) => match arg0_int_c(m) {
            Some(min) => {
                if (len as i128) < min {
                    let mut t = string_of("Too few children: expected at least ");
                    push_int(&mut t, min);
                    push_str(&mut t, ", found ");
                    push_nat(&mut t, len as u128);
                    push_diag(errors, target.span, t, "not enough children", None, Severity::Error);
                }
            },
            None => {},
        },
        None => {},
    }
    match bc.get("max") {
        Some(m) => match arg0_int_c(m) {
            Some(max) => {
                if (len as i128) > max {
                    let mut t = string_of("Too many children: expected at most ");
                    push_int(&mut t, max);
                    push_str(&mut t, ", found ");
                    push_nat(&mut t, len as u128);
                    push_diag(errors, target.span, t, "too many children", None, Severity::Error);
                }
            },
            None => {},
        },
        None => {},
    }
    assert(diags_view(errors@) =~= diags_view(old(errors)@) + child_count_diags(bc.nodes@, *target));
}

fn forbidden_c(nodes: &Vec<KdlNode>, name: &str, msg: &str, errors: &mut Vec<KdlDiagnostic>)
    ensures
        diags_view(final(errors)@) == diags_view(old(errors)@) + forbidden_diags(nodes@, name@, msg@),
{
    let mut i: usize = 0;
    while i < nodes.len()
        invariant
            i <= nodes@.len(),
            diags_view(errors@) == diags_view(old(errors)@) + forbidden_diags(nodes@.take(i as int), name@, msg@),
        decreases nodes.len() - i,
    {
        assert(nodes@.take(i + 1).drop_last() =~= nodes@.take(i as int));
        let n = &nodes[i];
        if str_eq(n.name.value.as_str(), name) {
            push_diag(errors, n.span, string_of(msg), "disallowed node", Some(string_of("Remove this node")), Severity::Error);
        }
        i += 1;
        assert(diags_view(errors@) =~= diags_view(old(errors)@) + forbidden_diags(nodes@.take(i as int), name@, msg@));
    }
    assert(nodes@.take(i as int) =~= nodes@);
}

pub fn check_disallow(target: &Vec<KdlNode>, defs: &Vec<KdlNode>, errors: &mut Vec<KdlDiagnostic>)
    ensures
        diags_view(final(errors)@) == diags_view(old(errors)@) + disallow_diags(target@, defs@),
{
    let mut i: usize = 0;
    while i < defs.len()
        invariant
            i <= defs@.len(),
            diags_view(errors@) == diags_view(old(errors)@) + disallow_diags(target@, defs@.take(i as int)),
        decreases defs.len() - i,
    {
        assert(defs@.take(i + 1).drop_last() =~= defs@.take(i as int));
        let d = &defs[i];
        let ghost before = diags_view(errors@);
        if str_eq(d.name.value.as_str(), "node") {
            match arg0_str_c(d) {
                Some(name) => {
                    let fallback = {
                        let mut t = string_of("Node '");
                        push_str(&mut t, name);
                        push_str(&mut t, "' is not allowed here");
                        t
                    };
                    let msg: String = match child_c(d, "message") {
                        Some(m) => match arg0_str_c(m) {
                            Some(t) => string_of(t),
                            None => fallback,
                        },
                        None => fallback,
                    };
                    forbidden_c(target, name, msg.as_str(), errors);
                },
                None => {},
            }
        }
        i += 1;
        assert(diags_view(errors@) =~= diags_view(old(errors)@) + disallow_diags(target@, defs@.take(i as int)));
    }
    assert(defs@.take(i as int) =~= defs@);
}

pub fn check_deprecated(n: &KdlNode, def: &KdlNode, errors: &mut Vec<KdlDiagnostic>)
    ensures
        diags_view(final(errors)@) == diags_view(old(errors)@) + deprecated_diags(*n, *def),
{
    match child_c(def, "deprecated") {
        Some(dep) => {
            let fallback = {
                let mut t = string_of("Node '");
                push_str(&mut t, n.name.value.as_str());
                push_str(&mut t, "' is deprecated");
                t
            };
            let msg = match dep.entry("message") {
                Some(e) => match e.value.as_string() {
                    Some(m) => string_of(m),
                    None => fallback,
                },
                None => fallback,
            };
            let help = match dep.entry("by") {
                Some(e) => match e.value.as_string() {
                    Some(r) => {
                        let mut h = string_of("Use '");
                        push_str(&mut h, r);
                        push_str(&mut h, "' instead");
                        Some(h)
                    },
                    None => None,
                },
                None => None,
            };
            push_diag(errors, n.span, msg, "deprecated", help, Severity::Warning);
            assert(diags_view(errors@) =~= diags_view(old(errors)@) + deprecated_diags(*n, *def));
        },
        None => {
            assert(diags_view(errors@) =~= diags_view(old(errors)@) + deprecated_diags(*n, *def));
        },
    }
}

#[verifier::rlimit(40)]
pub fn validate_node_annotation(sd: &KdlDocument, n: &KdlNode, def: &KdlNode, errors: &mut Vec<KdlDiagnostic>)
    ensures
        diags_view(final(errors)@) == diags_view(old(errors)@) + annotation_diags(*sd, *n, *def),
{
    match child_c(def, "annotations") {
        Some(ann) => {
            let v = build_validations(sd, ann);
            match &n.ty {
                Some(t) => {
                    let found = v.check(&KdlValue::String(t.value.clone()), t.span);
                    extend_checked(errors, found);
                },
                None => {
                    if v.ty.is_some() || v.enum_values.len() > 0 {
                        push_diag(
                            errors,
                            n.span,
                            string_of("Missing required type annotation"),
                            "type annotation expected",
                            Some(string_of("Add a type annotation like (type)nodename")),
                            Severity::Error,
                        );
                    }
                },
            }
            assert(diags_view(errors@) =~= diags_view(old(errors)@) + annotation_diags(*sd, *n, *def));
        },
        None => {
            assert(diags_view(errors@) =~= diags_view(old(errors)@) + annotation_diags(*sd, *n, *def));
        },
    }
}


fn merged_props_c<'a>(local: Vec<&'a KdlNode>, rs: &Vec<&'a KdlNode>) -> (r: Vec<&'a KdlNode>)
    ensures
        deref_all(r@) == merged_props(deref_all(local@), deref_all(rs@)),
{
    let ghost lv = deref_all(local@);
    let ghost rv = deref_all(rs@);
    let mut out = local;
    let mut i: usize = 0;
    while i < rs.len()
        invariant
            i <= rs@.len(),
            rv == deref_all(rs@),
            deref_all(out@) == merged_props(lv, rv.take(i as int)),
        decreases rs.len() - i,
    {
        assert(rv.take(i + 1).drop_last() =~= rv.take(i as int));
        let d: &KdlNode = rs[i];
        let nm = arg0_str_c(d);
        let ghost prev = deref_all(out@);
        let mut dup = false;
        match nm {
            Some(name) => {
                let mut j: usize = 0;
                while j < out.len()
                    invariant
                        j <= out@.len(),
                        prev == deref_all(out@),
                        opt_str(nm) == Some(name@),
                        !dup ==> forall|q: int| 0 <= q < j ==> arg0_str(#[trigger] prev[q]) != Some(name@),
                        dup ==> exists|q: int| 0 <= q < prev.len() && arg0_str(#[trigger] prev[q]) == Some(name@),
                    decreases out.len() - j,
                {
                    let o: &KdlNode = out[j];
                    match arg0_str_c(o) {
                        Some(t) => {
                            if str_eq(t, name) {
                                assert(arg0_str(prev[j as int]) == Some(name@));
                                dup = true;
                            }
                        },
                        None => {},
                    }
                    j += 1;
                }
            },
            None => {},
        }
        if !dup {
            out.push(d);
        }
        i += 1;
        assert(deref_all(out@) =~= merged_props(lv, rv.take(i as int)));
    }
    assert(rv.take(i as int) =~= rv);
    out
}

fn entry_c(
    sd: &KdlDocument,
    e: &KdlEntry,
    idx: usize,
    prop_defs: &Vec<&KdlNode>,
    arg_defs: &Vec<&KdlNode>,
    args_def: Option<&KdlNode>,
    no_other_props: bool,
    errors: &mut Vec<KdlDiagnostic>,
)
    ensures
        diags_view(final(errors)@) == diags_view(old(errors)@) + entry_diags(
            *sd,
            *e,
            idx as nat,
            deref_all(prop_defs@),
            deref_all(arg_defs@),
            match args_def {
                Some(a) => Some(*a),
                None => None,
            },
            no_other_props,
        ),
{
    reveal(entry_diags);
    match &e.name {
        Some(n) => match find_matching_node_def(prop_defs, n.value.as_str()) {
            Some(d) => {
                let v = build_validations(sd, d);
                let found = v.check(&e.value, e.span);
                extend_checked(errors, found);
            },
            None => {
                if no_other_props {
                    let mut t = string_of("Unknown property: '");
                    push_str(&mut t, n.value.as_str());
                    push_str(&mut t, "'");
                    push_diag(
                        errors,
                        e.span,
                        t,
                        "not defined in schema",
                        Some(string_of("Add this property to the schema or allow other properties")),
                        Severity::Error,
                    );
                }
            },
        },
        None => {
            if idx < arg_defs.len() {
                let d: &KdlNode = arg_defs[idx];
                let v = build_validations(sd, d);
                let found = v.check(&e.value, e.span);
                extend_checked(errors, found);
            } else {
                match args_def {
                    Some(a) => {
                        let v = build_validations(sd, a);
                        let found = v.check(&e.value, e.span);
                        extend_checked(errors, found);
                    },
                    None => {},
                }
            }
        },
    }
    assert(diags_view(errors@) =~= diags_view(old(errors)@) + entry_diags(
        *sd,
        *e,
        idx as nat,
        deref_all(prop_defs@),
        deref_all(arg_defs@),
        match args_def {
            Some(a) => Some(*a),
            None => None,
        },
        no_other_props,
    ));
}


fn entries_loop_c(
    sd: &KdlDocument,
    es: &Vec<KdlEntry>,
    prop_defs: &Vec<&KdlNode>,
    arg_defs: &Vec<&KdlNode>,
    args_def: Option<&KdlNode>,
    no_other_props: bool,
    errors: &mut Vec<KdlDiagnostic>,
) -> (total: usize)
    ensures
        diags_view(final(errors)@) == diags_view(old(errors)@) + entries_loop(
            *sd,
            es@,
            deref_all(prop_defs@),
            deref_all(arg_defs@),
            opt_node(args_def),
            no_other_props,
        ),
        total as nat == arg_count(es@),
{
    let ghost pd = deref_all(prop_defs@);
    let ghost ad = deref_all(arg_defs@);
    let mut idx: usize = 0;
    let mut i: usize = 0;
    while i < es.len()
        invariant
            i <= es@.len(),
            idx as nat == arg_count(es@.take(i as int)),
            idx <= i,
            pd == deref_all(prop_defs@),
            ad == deref_all(arg_defs@),
            diags_view(errors@) == diags_view(old(errors)@) + entries_loop(
                *sd,
                es@.take(i as int),
                pd,
                ad,
                opt_node(args_def),
                no_other_props,
            ),
        decreases es.len() - i,
    {
        assert(es@.take(i + 1).drop_last() =~= es@.take(i as int));
        let e = &es[i];
        entry_c(sd, e, idx, prop_defs, arg_defs, args_def, no_other_props, errors);
        if e.name.is_none() {
            idx += 1;
        }
        i += 1;
        assert(diags_view(errors@) =~= diags_view(old(errors)@) + entries_loop(
            *sd,
            es@.take(i as int),
            pd,
            ad,
            opt_node(args_def),
            no_other_props,
        ));
    }
    assert(es@.take(i as int) =~= es@);
    idx
}

fn required_args_c(n: &KdlNode, arg_defs: &Vec<&KdlNode>, total: usize, errors: &mut Vec<KdlDiagnostic>)
    ensures
        diags_view(final(errors)@) == diags_view(old(errors)@) + required_args_diags(
            *n,
            deref_all(arg_defs@),
            total as nat,
        ),
{
    let ghost ad = deref_all(arg_defs@);
    let mut i: usize = 0;
    while i < arg_defs.len()
        invariant
            i <= arg_defs@.len(),
            ad == deref_all(arg_defs@),
            diags_view(errors@) == diags_view(old(errors)@) + required_args_diags(*n, ad.take(i as int), total as nat),
        decreases arg_defs.len() - i,
    {
        assert(ad.take(i + 1).drop_last() =~= ad.take(i as int));
        let d: &KdlNode = arg_defs[i];
        if !flag_on_c(d, "optional") && child_c(d, "default").is_none() && i >= total {
            let mut t = string_of("Missing required argument at position ");
            push_nat(&mut t, (i as u128) + 1);
            let t = with_about_c(t, d);
            push_diag(
                errors,
                n.span,
                t,
                "missing argument",
                Some(string_of("Add the required argument or mark it as optional in the schema")),
                Severity::Error,
            );
        }
        i += 1;
        assert(diags_view(errors@) =~= diags_view(old(errors)@) + required_args_diags(*n, ad.take(i as int), total as nat));
    }
    assert(ad.take(i as int) =~= ad);
}

pub fn check_distinct_args(es: &Vec<KdlEntry>, errors: &mut Vec<KdlDiagnostic>)
    ensures
        diags_view(final(errors)@) == diags_view(old(errors)@) + distinct_diags(es@),
{
    let mut seen: Vec<String> = Vec::new();
    let mut i: usize = 0;
    while i < es.len()
        invariant
            i <= es@.len(),
            seen@.map_values(|x: String| x@) == arg_texts(es@.take(i as int)),
            diags_view(errors@) == diags_view(old(errors)@) + distinct_diags(es@.take(i as int)),
        decreases es.len() - i,
    {
        assert(es@.take(i + 1).drop_last() =~= es@.take(i as int));
        let e = &es[i];
        let ghost texts = seen@.map_values(|x: String| x@);
        if e.name.is_none() {
            let txt = value_to_string(&e.value);
            let mut dup = false;
            let mut q: usize = 0;
            while q < seen.len()
                invariant
                    q <= seen@.len(),
                    texts == seen@.map_values(|x: String| x@),
                    !dup ==> forall|k: int| 0 <= k < q ==> #[trigger] texts[k] != txt@,
                    dup ==> texts.contains(txt@),
                decreases seen.len() - q,
            {
                if str_eq(seen[q].as_str(), txt.as_str()) {
                    assert(texts[q as int] == txt@);
                    dup = true;
                }
                q += 1;
            }
            if dup {
                let mut m = string_of("Duplicate argument value: ");
                push_str(&mut m, txt.as_str());
                push_diag(errors, e.span, m, "duplicate value", Some(string_of("Arguments must be distinct")), Severity::Error);
            }
            seen.push(txt);
            assert(seen@.map_values(|x: String| x@) =~= texts.push(value_text(e.value@)));
        }
        i += 1;
        assert(diags_view(errors@) =~= diags_view(old(errors)@) + distinct_diags(es@.take(i as int)));
    }
    assert(es@.take(i as int) =~= es@);
}


fn args_count_c(n: &KdlNode, args_def: Option<&KdlNode>, total: usize, errors: &mut Vec<KdlDiagnostic>)
    ensures
        diags_view(final(errors)@) == diags_view(old(errors)@) + args_count_diags(*n, opt_node(args_def), total as nat),
{
    match args_def {
        None => {
            assert(diags_view(errors@) =~= diags_view(old(errors)@) + args_count_diags(*n, opt_node(args_def), total as nat));
        },
        Some(a) => {
            match child_c(a, "min") {
                Some(m) => match arg0_int_c(m) {
                    Some(min) => {
                        if (total as i128) < min {
                            let mut t = string_of("Too few arguments: expected at least ");
                            push_int(&mut t, min);
                            push_str(&mut t, ", found ");
                            push_nat(&mut t, total as u128);
                            push_diag(errors, n.span, t, "not enough arguments", None, Severity::Error);
                        }
                    },
                    None => {},
                },
                None => {},
            }
            match child_c(a, "max") {
                Some(m) => match arg0_int_c(m) {
                    Some(max) => {
                        if (total as i128) > max {
                            let mut t = string_of("Too many arguments: expected at most ");
                            push_int(&mut t, max);
                            push_str(&mut t, ", found ");
                            push_nat(&mut t, total as u128);
                            push_diag(errors, n.span, t, "too many arguments", None, Severity::Error);
                        }
                    },
                    None => {},
                },
                None => {},
            }
            let ghost mid = diags_view(errors@);
            if child_c(a, "distinct").is_some() {
                check_distinct_args(&n.entries, errors);
            }
            assert(diags_view(errors@) =~= diags_view(old(errors)@) + args_count_diags(*n, opt_node(args_def), total as nat));
        },
    }
}

fn required_props_c(n: &KdlNode, prop_defs: &Vec<&KdlNode>, errors: &mut Vec<KdlDiagnostic>)
    ensures
        diags_view(final(errors)@) == diags_view(old(errors)@) + required_props_diags(*n, deref_all(prop_defs@)),
{
    let ghost pd = deref_all(prop_defs@);
    let mut i: usize = 0;
    while i < prop_defs.len()
        invariant
            i <= prop_defs@.len(),
            pd == deref_all(prop_defs@),
            diags_view(errors@) == diags_view(old(errors)@) + required_props_diags(*n, pd.take(i as int)),
        decreases prop_defs.len() - i,
    {
        assert(pd.take(i + 1).drop_last() =~= pd.take(i as int));
        let d: &KdlNode = prop_defs[i];
        match arg0_str_c(d) {
            Some(name) => {
                if flag_on_c(d, "required") && child_c(d, "default").is_none() && !has_prop_c(&n.entries, name) {
                    let mut t = string_of("Missing required property: '");
                    push_str(&mut t, name);
                    push_str(&mut t, "'");
                    let t = with_about_c(t, d);
                    push_diag(errors, n.span, t, "required property not found", None, Severity::Error);
                }
            },
            None => {},
        }
        i += 1;
        assert(diags_view(errors@) =~= diags_view(old(errors)@) + required_props_diags(*n, pd.take(i as int)));
    }
    assert(pd.take(i as int) =~= pd);
}

fn required_list_c(n: &KdlNode, req: &Vec<KdlEntry>, errors: &mut Vec<KdlDiagnostic>)
    ensures
        diags_view(final(errors)@) == diags_view(old(errors)@) + required_list_diags(*n, req@),
{
    let mut i: usize = 0;
    while i < req.len()
        invariant
            i <= req@.len(),
            diags_view(errors@) == diags_view(old(errors)@) + required_list_diags(*n, req@.take(i as int)),
        decreases req.len() - i,
    {
        assert(req@.take(i + 1).drop_last() =~= req@.take(i as int));
        let r = &req[i];
        if r.name.is_none() {
            match r.value.as_string() {
                Some(name) => {
                    if !has_prop_c(&n.entries, name) {
                        let mut t = string_of("Missing required property: '");
                        push_str(&mut t, name);
                        push_str(&mut t, "'");
                        push_diag(errors, n.span, t, "required property not found", None, Severity::Error);
                    }
                },
                None => {},
            }
        }
        i += 1;
        assert(diags_view(errors@) =~= diags_view(old(errors)@) + required_list_diags(*n, req@.take(i as int)));
    }
    assert(req@.take(i as int) =~= req@);
}

fn own_or_ref_c<'a>(dc: &'a KdlDocument, rc: Option<&'a KdlDocument>, name: &str) -> (r: Option<&'a KdlNode>)
    ensures
        opt_node(r) == own_or_ref(
            *dc,
            match rc {
                Some(c) => Some(*c),
                None => None,
            },
            name@,
        ),
{
    match dc.get(name) {
        Some(x) => Some(x),
        None => match rc {
            Some(c) => c.get(name),
            None => None,
        },
    }
}

/// The checks of a node's entries against its definition (see [`entries_diags`]).
pub fn validate_node_entries(sd: &KdlDocument, n: &KdlNode, def: &KdlNode, errors: &mut Vec<KdlDiagnostic>)
    ensures
        diags_view(final(errors)@) == diags_view(old(errors)@) + entries_diags(*sd, *n, *def),
{
    reveal(entries_diags);
    let dc = match &def.children {
        Some(c) => c,
        None => {
            assert(diags_view(errors@) =~= diags_view(old(errors)@) + entries_diags(*sd, *n, *def));
            return;
        },
    };
    let rc: Option<&KdlDocument> = match resolve_ref(sd, def) {
        Some(r) => match &r.children {
            Some(c) => Some(c),
            None => None,
        },
        None => None,
    };
    let empty: Vec<KdlNode> = Vec::new();
    let rnodes: &Vec<KdlNode> = match rc {
        Some(c) => &c.nodes,
        None => &empty,
    };
    let ghost rcv = match rc {
        Some(c) => Some(*c),
        None => None,
    };
    assert(rcv == match ref_target(*sd, *def) {
        Some(r) => r.children,
        None => None,
    });
    assert(rnodes@ == match rcv {
        Some(c) => c.nodes@,
        None => Seq::<KdlNode>::empty(),
    });
    let mut arg_defs = named_nodes_c(&dc.nodes, "arg");
    let mut ref_args = named_nodes_c(rnodes, "arg");
    let ghost a1 = deref_all(arg_defs@);
    let ghost a2 = deref_all(ref_args@);
    arg_defs.append(&mut ref_args);
    assert(deref_all(arg_defs@) =~= a1 + a2);
    let args_def = own_or_ref_c(dc, rc, "args");
    let local_props = named_nodes_c(&dc.nodes, "prop");
    let ref_props = named_nodes_c(rnodes, "prop");
    let prop_defs = merged_props_c(local_props, &ref_props);
    let props_def = own_or_ref_c(dc, rc, "props");
    check_entries_with(sd, n, &prop_defs, &arg_defs, args_def, props_def, errors);
}

/// A node's entries against the definitions gathered for it (see [`entries_with`]).
#[verifier::rlimit(40)]
fn check_entries_with(
    sd: &KdlDocument,
    n: &KdlNode,
    prop_defs: &Vec<&KdlNode>,
    arg_defs: &Vec<&KdlNode>,
    args_def: Option<&KdlNode>,
    props_def: Option<&KdlNode>,
    errors: &mut Vec<KdlDiagnostic>,
)
    ensures
        diags_view(final(errors)@) == diags_view(old(errors)@) + entries_with(
            *sd,
            *n,
            deref_all(prop_defs@),
            deref_all(arg_defs@),
            opt_node(args_def),
            opt_node(props_def),
        ),
{
    reveal(entries_with);
    let no_other_props = match props_def {
        Some(p) => setting_on_c(p, "disallow-others"),
        None => false,
    };
    let ghost pd = deref_all(prop_defs@);
    let ghost ad = deref_all(arg_defs@);
    let ghost e0 = diags_view(errors@);
    let ghost names_part = match opt_node(props_def) {
        Some(p) => match child(p, "names"@) {
            Some(nn) => prop_names_diags(n.entries@, build(*sd, nn)),
            None => Seq::<DiagnosticModel>::empty(),
        },
        None => Seq::<DiagnosticModel>::empty(),
    };
    match props_def {
        Some(p) => match child_c(p, "names") {
            Some(nn) => {
                let v = build_validations(sd, nn);
                prop_names_c(&n.entries, &v, errors);
            },
            None => {},
        },
        None => {},
    }
    assert(diags_view(errors@) =~= e0 + names_part);
    let ghost e1 = diags_view(errors@);
    let total = entries_loop_c(sd, &n.entries, prop_defs, arg_defs, args_def, no_other_props, errors);
    let ghost loop_part = entries_loop(*sd, n.entries@, pd, ad, opt_node(args_def), no_other_props);
    assert(diags_view(errors@) == e1 + loop_part);
    let ghost e2 = diags_view(errors@);
    required_args_c(n, arg_defs, total, errors);
    let ghost e3 = diags_view(errors@);
    args_count_c(n, args_def, total, errors);
    let ghost e4 = diags_view(errors@);
    required_props_c(n, prop_defs, errors);
    let ghost e5 = diags_view(errors@);
    let ghost list_part = match opt_node(props_def) {
        Some(p) => match child(p, "required"@) {
            Some(r) => required_list_diags(*n, r.entries@),
            None => Seq::<DiagnosticModel>::empty(),
        },
        None => Seq::<DiagnosticModel>::empty(),
    };
    match props_def {
        Some(p) => match child_c(p, "required") {
            Some(r) => required_list_c(n, &r.entries, errors),
            None => {},
        },
        None => {},
    }
    assert(diags_view(errors@) =~= e5 + list_part);
    let ghost total_n = arg_count(n.entries@);
    assert(e3 == e2 + required_args_diags(*n, ad, total_n));
    assert(e4 == e3 + args_count_diags(*n, opt_node(args_def), total_n));
    assert(e5 == e4 + required_props_diags(*n, pd));
    assert(entries_with(*sd, *n, pd, ad, opt_node(args_def), opt_node(props_def)) == names_part + loop_part
        + required_args_diags(*n, ad, total_n) + args_count_diags(*n, opt_node(args_def), total_n)
        + required_props_diags(*n, pd) + list_part);
    assert(diags_view(errors@) =~= diags_view(old(errors)@) + entries_with(
        *sd,
        *n,
        pd,
        ad,
        opt_node(args_def),
        opt_node(props_def),
    ));
}

fn cardinality_one_c(target: &KdlDocument, def: &KdlNode, name: &str, errors: &mut Vec<KdlDiagnostic>)
    ensures
        diags_view(final(errors)@) == diags_view(old(errors)@) + cardinality_one(*target, *def, name@),
{
    let count = count_named_c(&target.nodes, name);
    let rep = child_c(def, "repeatable");
    let rmin: Option<usize> = match rep {
        Some(r) => match r.entry("min") {
            Some(e) => match e.value.as_integer() {
                Some(i) => Some(i as usize),
                None => None,
            },
            None => None,
        },
        None => None,
    };
    let rmax: Option<usize> = match rep {
        Some(r) => match r.entry("max") {
            Some(e) => match e.value.as_integer() {
                Some(i) => Some(i as usize),
                None => None,
            },
            None => None,
        },
        None => None,
    };
    if flag_on_c(def, "required") && count == 0 {
        let mut t = string_of("Missing required node: '");
        push_str(&mut t, name);
        push_str(&mut t, "'");
        let t = with_about_c(t, def);
        push_diag(errors, target.span, t, "required node not found", None, Severity::Error);
    }
    if rep.is_none() && count > 1 {
        let mut t = string_of("Node '");
        push_str(&mut t, name);
        push_str(&mut t, "' is not repeatable but appears ");
        push_nat(&mut t, count as u128);
        push_str(&mut t, " times");
        push_diag(
            errors,
            target.span,
            t,
            "duplicate node",
            Some(string_of("Mark the node as 'repeatable' or remove duplicates")),
            Severity::Error,
        );
    }
    match rmin {
        Some(min) => {
            if count < min {
                let mut t = string_of("Too few '");
                push_str(&mut t, name);
                push_str(&mut t, "' nodes: expected at least ");
                push_nat(&mut t, min as u128);
                push_str(&mut t, ", found ");
                push_nat(&mut t, count as u128);
                push_diag(errors, target.span, t, "not enough nodes", None, Severity::Error);
            }
        },
        None => {},
    }
    match rmax {
        Some(max) => {
            if count > max {
                let mut t = string_of("Too many '");
                push_str(&mut t, name);
                push_str(&mut t, "' nodes: expected at most ");
                push_nat(&mut t, max as u128);
                push_str(&mut t, ", found ");
                push_nat(&mut t, count as u128);
                push_diag(errors, target.span, t, "too many nodes", None, Severity::Error);
            }
        },
        None => {},
    }
    assert(diags_view(errors@) =~= diags_view(old(errors)@) + cardinality_one(*target, *def, name@));
}

#[verifier::rlimit(40)]
pub fn check_node_cardinality(target: &KdlDocument, defs: &Vec<&KdlNode>, errors: &mut Vec<KdlDiagnostic>)
    ensures
        diags_view(final(errors)@) == diags_view(old(errors)@) + cardinality_diags(*target, deref_all(defs@)),
{
    let ghost dv = deref_all(defs@);
    let mut i: usize = 0;
    while i < defs.len()
        invariant
            i <= defs@.len(),
            dv == deref_all(defs@),
            diags_view(errors@) == diags_view(old(errors)@) + cardinality_diags(*target, dv.take(i as int)),
        decreases defs.len() - i,
    {
        assert(dv.take(i + 1).drop_last() =~= dv.take(i as int));
        let d: &KdlNode = defs[i];
        match arg0_str_c(d) {
            Some(name) => cardinality_one_c(target, d, name, errors),
            None => {},
        }
        i += 1;
        assert(diags_view(errors@) =~= diags_view(old(errors)@) + cardinality_diags(*target, dv.take(i as int)));
    }
    assert(dv.take(i as int) =~= dv);
}


fn block_head_c(sd: &KdlDocument, target: &KdlDocument, bc: &KdlDocument, errors: &mut Vec<KdlDiagnostic>)
    ensures
        diags_view(final(errors)@) == diags_view(old(errors)@) + block_head_diags(*sd, *target, bc.nodes@),
{
    match bc.get("names") {
        Some(nn) => {
            let v = build_validations(sd, nn);
            names_c(&target.nodes, &v, errors);
        },
        None => {},
    }
    child_count_c(bc, target, errors);
    match bc.get("disallow") {
        Some(d) => {
            let empty: Vec<KdlNode> = Vec::new();
            let kids: &Vec<KdlNode> = match &d.children {
                Some(c) => &c.nodes,
                None => &empty,
            };
            assert(kids@ == child_nodes(*d));
            check_disallow(&target.nodes, kids, errors);
        },
        None => {},
    }
    assert(diags_view(errors@) =~= diags_view(old(errors)@) + block_head_diags(*sd, *target, bc.nodes@));
}

/// The diagnostics of a children block for the nodes of `target` (see [`block_diags`]).
#[verifier::rlimit(40)]
pub fn validate_children_block(sd: &KdlDocument, target: &KdlDocument, block: &KdlNode, errors: &mut Vec<KdlDiagnostic>)
    ensures
        diags_view(final(errors)@) == diags_view(old(errors)@) + block_diags(*sd, *target, *block),
    decreases *target, 4int, 0int,
{
    let bc = match &block.children {
        Some(c) => c,
        None => {
            assert(diags_view(errors@) =~= diags_view(old(errors)@) + block_diags(*sd, *target, *block));
            return;
        },
    };
    let defs = active_defs_c(&bc.nodes);
    let ghost bn = bc.nodes@;
    let ghost dv = deref_all(defs@);
    block_head_c(sd, target, bc, errors);
    let ghost mid = diags_view(errors@);
    assert(mid == diags_view(old(errors)@) + block_head_diags(*sd, *target, bn));
    let ghost tail: Seq<DiagnosticModel>;
    match bc.get("one-of") {
        Some(o) => {
            validate_one_of(sd, target, o, errors);
            proof {
                tail = one_of_diags(*sd, *target, *o);
            }
        },
        None => {
            let dis = flag_on_c(block, "disallow-others");
            nodes_c(sd, &target.nodes, &defs, dis, errors);
            check_node_cardinality(target, &defs, errors);
            proof {
                tail = nodes_diags(*sd, target.nodes@, target.nodes@.len() as int, dv, dis) + cardinality_diags(
                    *target,
                    dv,
                );
            }
        },
    }
    assert(block_diags(*sd, *target, *block) == block_head_diags(*sd, *target, bn) + tail);
    assert(diags_view(errors@) =~= diags_view(old(errors)@) + block_diags(*sd, *target, *block));
}

fn alt_c(sd: &KdlDocument, target: &KdlDocument, alt: &KdlNode, errors: &mut Vec<KdlDiagnostic>)
    ensures
        diags_view(final(errors)@) == diags_view(old(errors)@) + alt_diags(*sd, *target, *alt),
    decreases *target, 1int, 0int,
{
    match &alt.children {
        Some(c) => {
            let defs = named_nodes_c(&c.nodes, "node");
            let ghost dv = deref_all(defs@);
            proof {
                assert(decreases_to!(*target => target.nodes@));
            }
            nodes_c(sd, &target.nodes, &defs, false, errors);
            let ghost mid = diags_view(errors@);
            check_node_cardinality(target, &defs, errors);
            assert(alt_diags(*sd, *target, *alt) == nodes_diags(
                *sd,
                target.nodes@,
                target.nodes@.len() as int,
                dv,
                false,
            ) + cardinality_diags(*target, dv));
            assert(diags_view(errors@) =~= diags_view(old(errors)@) + alt_diags(*sd, *target, *alt));
        },
        None => {
            assert(diags_view(errors@) =~= diags_view(old(errors)@) + alt_diags(*sd, *target, *alt));
        },
    }
}

proof fn lemma_alt_passes_grows(sd: KdlDocument, target: KdlDocument, alts: Seq<KdlNode>, k: int, m: int)
    requires
        0 < k <= m <= alts.len(),
        alt_passes(sd, target, alts, k),
    ensures
        alt_passes(sd, target, alts, m),
    decreases m - k,
{
    if k < m {
        lemma_alt_passes_grows(sd, target, alts, k, m - 1);
    }
}

#[verifier::rlimit(40)]
pub fn validate_one_of(sd: &KdlDocument, target: &KdlDocument, one_of: &KdlNode, errors: &mut Vec<KdlDiagnostic>)
    ensures
        diags_view(final(errors)@) == diags_view(old(errors)@) + one_of_diags(*sd, *target, *one_of),
    decreases *target, 3int, 0int,
{
    let empty: Vec<KdlNode> = Vec::new();
    let alts: &Vec<KdlNode> = match &one_of.children {
        Some(c) => &c.nodes,
        None => &empty,
    };
    assert(alts@ == child_nodes(*one_of));
    let mut passed = false;
    let mut i: usize = 0;
    while i < alts.len() && !passed
        invariant
            i <= alts@.len(),
            alts@ == child_nodes(*one_of),
            passed ==> alt_passes(*sd, *target, alts@, alts@.len() as int),
            !passed ==> !alt_passes(*sd, *target, alts@, i as int),
        decreases alts.len() - i,
    {
        let mut alt_errors: Vec<KdlDiagnostic> = Vec::new();
        assert(diags_view(alt_errors@) =~= Seq::<DiagnosticModel>::empty());
        alt_c(sd, target, &alts[i], &mut alt_errors);
        assert(diags_view(alt_errors@) =~= alt_diags(*sd, *target, alts@[i as int]));
        assert(diags_view(alt_errors@).len() == alt_errors@.len());
        if alt_errors.len() == 0 {
            passed = true;
            proof {
                assert(alt_passes(*sd, *target, alts@, i + 1));
                lemma_alt_passes_grows(*sd, *target, alts@, i + 1, alts@.len() as int);
            }
        }
        i += 1;
    }
    if !passed && alts.len() > 0 {
        push_diag(
            errors,
            target.span,
            string_of("None of the alternatives matched"),
            "no valid alternative",
            Some(string_of("Document must match one of the defined alternatives")),
            Severity::Error,
        );
    }
    assert(diags_view(errors@) =~= diags_view(old(errors)@) + one_of_diags(*sd, *target, *one_of));
}

#[verifier::rlimit(40)]
fn nodes_c(sd: &KdlDocument, nodes: &Vec<KdlNode>, defs: &Vec<&KdlNode>, no_others: bool, errors: &mut Vec<KdlDiagnostic>)
    ensures
        diags_view(final(errors)@) == diags_view(old(errors)@) + nodes_diags(
            *sd,
            nodes@,
            nodes@.len() as int,
            deref_all(defs@),
            no_others,
        ),
    decreases nodes@, 0int, 0int,
{
    let ghost dv = deref_all(defs@);
    let mut i: usize = 0;
    while i < nodes.len()
        invariant
            i <= nodes@.len(),
            dv == deref_all(defs@),
            diags_view(errors@) == diags_view(old(errors)@) + nodes_diags(*sd, nodes@, i as int, dv, no_others),
        decreases nodes.len() - i,
    {
        proof {
            assert(decreases_to!(nodes@ => nodes@[i as int]));
        }
        validate_node(sd, &nodes[i], defs, no_others, errors);
        i += 1;
        assert(diags_view(errors@) =~= diags_view(old(errors)@) + nodes_diags(*sd, nodes@, i as int, dv, no_others));
    }
}

#[verifier::rlimit(40)]
pub fn validate_node(sd: &KdlDocument, n: &KdlNode, defs: &Vec<&KdlNode>, no_others: bool, errors: &mut Vec<KdlDiagnostic>)
    ensures
        diags_view(final(errors)@) == diags_view(old(errors)@) + node_diags(*sd, *n, deref_all(defs@), no_others),
    decreases *n, 1int, 0int,
{
    match find_matching_node_def(defs, n.name.value.as_str()) {
        Some(def) => {
            let ghost e0 = diags_view(errors@);
            check_deprecated(n, def, errors);
            let ghost e1 = diags_view(errors@);
            validate_node_annotation(sd, n, def, errors);
            let ghost e2 = diags_view(errors@);
            validate_node_entries(sd, n, def, errors);
            let ghost e3 = diags_view(errors@);
            validate_node_children(sd, n, def, errors);
            assert(node_diags(*sd, *n, deref_all(defs@), no_others) == deprecated_diags(*n, *def)
                + annotation_diags(*sd, *n, *def) + entries_diags(*sd, *n, *def) + children_diags(*sd, *n, *def));
            assert(diags_view(errors@) =~= e0 + deprecated_diags(*n, *def) + annotation_diags(*sd, *n, *def)
                + entries_diags(*sd, *n, *def) + children_diags(*sd, *n, *def));
        },
        None => {
            if no_others {
                let mut t = string_of("Unknown node: '");
                push_str(&mut t, n.name.value.as_str());
                push_str(&mut t, "'");
                push_diag(
                    errors,
                    n.span,
                    t,
                    "not defined in schema",
                    Some(string_of("Add this node to the schema or remove 'disallow-others'")),
                    Severity::Error,
                );
            }
        },
    }
    assert(diags_view(errors@) =~= diags_view(old(errors)@) + node_diags(*sd, *n, deref_all(defs@), no_others));
}

#[verifier::rlimit(40)]
pub fn validate_node_children(sd: &KdlDocument, n: &KdlNode, def: &KdlNode, errors: &mut Vec<KdlDiagnostic>)
    ensures
        diags_view(final(errors)@) == diags_view(old(errors)@) + children_diags(*sd, *n, *def),
    decreases *n, 0int, 0int,
{
    match &n.children {
        Some(td) => match child_c(def, "children") {
            Some(cd) => {
                proof {
                    assert(decreases_to!(*n => *td));
                }
                validate_children_block(sd, td, cd, errors);
            },
            None => {
                assert(diags_view(errors@) =~= diags_view(old(errors)@) + children_diags(*sd, *n, *def));
            },
        },
        None => {
            assert(diags_view(errors@) =~= diags_view(old(errors)@) + children_diags(*sd, *n, *def));
        },
    }
}

/// The diagnostics of validating `target` against the schema document `sd`
/// (see [`document_diags`]).
pub fn validate_document(sd: &KdlDocument, target: &KdlDocument) -> (r: Vec<KdlDiagnostic>)
    ensures
        diags_view(r@) == document_diags(*sd, *target),
{
    let mut errors: Vec<KdlDiagnostic> = Vec::new();
    assert(diags_view(errors@) =~= Seq::<DiagnosticModel>::empty());
    let dn = match sd.get("document") {
        Some(d) => d,
        None => return errors,
    };
    let sc = match &dn.children {
        Some(c) => c,
        None => return errors,
    };
    match sc.get("children") {
        Some(cb) => validate_children_block(sd, target, cb, &mut errors),
        None => {
            let defs = active_defs_c(&sc.nodes);
            let dis = setting_on_c(dn, "disallow-others");
            nodes_c(sd, &target.nodes, &defs, dis, &mut errors);
            check_node_cardinality(target, &defs, &mut errors);
        },
    }
    assert(diags_view(errors@) =~= document_diags(*sd, *target));
    errors
}

} // verus!
