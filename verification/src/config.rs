//! Workspace configuration: which schema applies to which documents.
//!
//! A configuration document maps glob patterns to schema files:
//!
//! ```text
//! schemas {
//!     mapping "config/*.kdl" schema="schemas/config.kdl"
//! }
//! ```

use vstd::prelude::*;

use crate::document::{find_node, last_prop, KdlDocument, KdlNode};
use crate::schema_v2::rules::arg0_str;
use crate::schema_v2::validate::arg0_str_c;
use crate::text::str_eq;
use crate::value::KdlValue;

verus! {

/// One glob-to-schema mapping, the schema path as written.
#[derive(Debug)]
pub struct ConfigMapping {
    pub pattern: String,
    pub schema: String,
}

/// What a [`ConfigMapping`] holds.
pub struct MappingModel {
    pub pattern: Seq<char>,
    pub schema: Seq<char>,
}

impl View for ConfigMapping {
    type V = MappingModel;

    open spec fn view(&self) -> MappingModel {
        MappingModel { pattern: self.pattern@, schema: self.schema@ }
    }
}

/// The mapping that a node states: a `mapping` node with a string pattern as
/// its first argument and a string `schema=` property.
pub open spec fn mapping_of(n: KdlNode) -> Option<MappingModel> {
    if n.name.value@ == "mapping"@ {
        match (arg0_str(n), last_prop(n.entries@, "schema"@)) {
            (Some(p), Some(e)) => match e.value {
                KdlValue::String(s) => Some(MappingModel { pattern: p, schema: s@ }),
                _ => None,
            },
            _ => None,
        }
    } else {
        None
    }
}

/// The mappings among `nodes`, in order.
pub open spec fn mappings_of(nodes: Seq<KdlNode>) -> Seq<MappingModel>
    decreases nodes.len(),
{
    if nodes.len() == 0 {
        Seq::empty()
    } else {
        mappings_of(nodes.drop_last()) + match mapping_of(nodes.last()) {
            Some(m) => seq![m],
            None => Seq::empty(),
        }
    }
}

/// The mappings of a configuration document: those inside its first `schemas` node.
pub open spec fn config_mappings_of(doc: KdlDocument) -> Seq<MappingModel> {
    match find_node(doc.nodes@, "schemas"@) {
        Some(s) => match s.children {
            Some(c) => mappings_of(c.nodes@),
            None => Seq::empty(),
        },
        None => Seq::empty(),
    }
}

fn mapping_c(n: &KdlNode) -> (r: Option<ConfigMapping>)
    ensures
        match r {
            Some(m) => mapping_of(*n) == Some(m@),
            None => mapping_of(*n) is None,
        },
{
    if !str_eq(n.name.value.as_str(), "mapping") {
        return None;
    }
    let pattern = match arg0_str_c(n) {
        Some(p) => p,
        None => return None,
    };
    match n.entry("schema") {
        Some(e) => match &e.value {
            KdlValue::String(s) => Some(
                ConfigMapping { pattern: crate::text::string_of(pattern), schema: s.clone() },
            ),
            _ => None,
        },
        None => None,
    }
}

/// The glob-to-schema mappings of a configuration document (see [`config_mappings_of`]).
pub fn config_mappings(doc: &KdlDocument) -> (r: Vec<ConfigMapping>)
    ensures
        r@.map_values(|m: ConfigMapping| m@) == config_mappings_of(*doc),
{
    let mut out: Vec<ConfigMapping> = Vec::new();
    let nodes = match doc.get("schemas") {
        Some(s) => match &s.children {
            Some(c) => &c.nodes,
            None => {
                assert(out@.map_values(|m: ConfigMapping| m@) =~= config_mappings_of(*doc));
                return out;
            },
        },
        None => {
            assert(out@.map_values(|m: ConfigMapping| m@) =~= config_mappings_of(*doc));
            return out;
        },
    };
    let mut i: usize = 0;
    while i < nodes.len()
        invariant
            i <= nodes@.len(),
            out@.map_values(|m: ConfigMapping| m@) == mappings_of(nodes@.take(i as int)),
        decreases nodes.len() - i,
    {
        assert(nodes@.take(i + 1).drop_last() =~= nodes@.take(i as int));
        let ghost before = out@.map_values(|m: ConfigMapping| m@);
        match mapping_c(&nodes[i]) {
            Some(m) => {
                let ghost mv = m@;
                out.push(m);
                assert(out@.map_values(|m: ConfigMapping| m@) =~= before.push(mv));
            },
            None => {},
        }
        i += 1;
        assert(out@.map_values(|m: ConfigMapping| m@) =~= mappings_of(nodes@.take(i as int)));
    }
    assert(nodes@.take(i as int) =~= nodes@);
    out
}

} // verus!
