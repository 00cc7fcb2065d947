//! KDL documents: nodes with a name, an optional type annotation, entries
//! (positional arguments and named properties) and an optional children block.

use vstd::prelude::*;

use crate::value::{KdlValue, ValueModel};

verus! {

/// A stretch of the source text: its first character and its length, counted in characters.
#[derive(Clone, Copy, Debug, PartialEq, Eq, Structural)]
pub struct SourceSpan {
    pub offset: usize,
    pub len: usize,
}

impl SourceSpan {
    pub fn new(offset: usize, len: usize) -> (r: SourceSpan)
        ensures
            r.offset == offset,
            r.len == len,
    {
        SourceSpan { offset, len }
    }
}

/// A node name, a property name or a type annotation, with where it stands.
#[derive(Debug)]
pub struct KdlIdentifier {
    pub value: String,
    pub span: SourceSpan,
}

/// An entry of a node: a positional argument (no name) or a property (a name).
#[derive(Debug)]
pub struct KdlEntry {
    pub ty: Option<KdlIdentifier>,
    pub name: Option<KdlIdentifier>,
    pub value: KdlValue,
    pub span: SourceSpan,
}

/// A KDL node.
#[derive(Debug)]
pub struct KdlNode {
    pub ty: Option<KdlIdentifier>,
    pub name: KdlIdentifier,
    pub entries: Vec<KdlEntry>,
    pub children: Option<KdlDocument>,
    pub span: SourceSpan,
}

/// A KDL document: a sequence of nodes.
#[derive(Debug)]
pub struct KdlDocument {
    pub nodes: Vec<KdlNode>,
    pub span: SourceSpan,
}

/// The nodes that a list of references points to.
pub open spec fn deref_all(v: Seq<&KdlNode>) -> Seq<KdlNode> {
    v.map_values(|r: &KdlNode| *r)
}

/// The node an optional reference points to.
pub open spec fn opt_node(o: Option<&KdlNode>) -> Option<KdlNode> {
    match o {
        Some(n) => Some(*n),
        None => None,
    }
}

/// The first node of `nodes` named `name`.
pub open spec fn find_node(nodes: Seq<KdlNode>, name: Seq<char>) -> Option<KdlNode>
    decreases nodes.len(),
{
    if nodes.len() == 0 {
        None
    } else if nodes[0].name.value@ == name {
        Some(nodes[0])
    } else {
        find_node(nodes.drop_first(), name)
    }
}

/// The value of the `k`-th positional argument among `entries`.
pub open spec fn nth_arg(entries: Seq<KdlEntry>, k: nat) -> Option<KdlValue>
    decreases entries.len(),
{
    if entries.len() == 0 {
        None
    } else if entries[0].name is None {
        if k == 0 {
            Some(entries[0].value)
        } else {
            nth_arg(entries.drop_first(), (k - 1) as nat)
        }
    } else {
        nth_arg(entries.drop_first(), k)
    }
}

/// The last property of `entries` named `name`: a later property overrides an earlier one.
pub open spec fn last_prop(entries: Seq<KdlEntry>, name: Seq<char>) -> Option<KdlEntry>
    decreases entries.len(),
{
    if entries.len() == 0 {
        None
    } else if entries.last().name matches Some(n) && n.value@ == name {
        Some(entries.last())
    } else {
        last_prop(entries.drop_last(), name)
    }
}

/// The number of positional arguments among `entries`.
pub open spec fn arg_count(entries: Seq<KdlEntry>) -> nat
    decreases entries.len(),
{
    if entries.len() == 0 {
        0
    } else {
        arg_count(entries.drop_last()) + if entries.last().name is None { 1nat } else { 0nat }
    }
}

pub proof fn lemma_find_node_in(nodes: Seq<KdlNode>, name: Seq<char>)
    ensures
        find_node(nodes, name) matches Some(n) ==> exists|i: int| 0 <= i < nodes.len() && nodes[i] == n,
    decreases nodes.len(),
{
    if nodes.len() > 0 && nodes[0].name.value@ != name {
        lemma_find_node_in(nodes.drop_first(), name);
        if let Some(n) = find_node(nodes.drop_first(), name) {
            let i = choose|i: int| 0 <= i < nodes.drop_first().len() && nodes.drop_first()[i] == n;
            assert(nodes[i + 1] == n);
        }
    }
}

pub proof fn lemma_child_smaller(node: KdlNode, name: Seq<char>)
    requires
        node.children is Some,
    ensures
        find_node(node.children->0.nodes@, name) matches Some(n) ==> decreases_to!(node => n),
{
    let ch = node.children->0;
    lemma_find_node_in(ch.nodes@, name);
    if let Some(n) = find_node(ch.nodes@, name) {
        let i = choose|i: int| 0 <= i < ch.nodes@.len() && ch.nodes@[i] == n;
        assert(decreases_to!(node => ch.nodes@[i]));
    }
}

impl KdlDocument {
    /// The first node named `name`.
    pub fn get(&self, name: &str) -> (r: Option<&KdlNode>)
        ensures
            r matches Some(n) ==> find_node(self.nodes@, name@) == Some(*n),
            r is None ==> find_node(self.nodes@, name@) is None,
    {
        let mut i: usize = 0;
        let target = name.to_owned();
        assert(self.nodes@.skip(0) =~= self.nodes@);
        while i < self.nodes.len()
            invariant
                i <= self.nodes@.len(),
                target@ == name@,
                find_node(self.nodes@, name@) == find_node(self.nodes@.skip(i as int), name@),
            decreases self.nodes.len() - i,
        {
            assert(self.nodes@.skip(i as int).drop_first() =~= self.nodes@.skip(i + 1));
            if self.nodes[i].name.value == target {
                return Some(&self.nodes[i]);
            }
            i += 1;
        }
        None
    }

    /// The nodes of the document.
    pub fn nodes(&self) -> (r: &Vec<KdlNode>)
        ensures
            r@ == self.nodes@,
    {
        &self.nodes
    }
}

impl KdlNode {
    /// The node's name.
    pub fn name(&self) -> (r: &KdlIdentifier)
        ensures
            *r == self.name,
    {
        &self.name
    }

    /// The node's type annotation.
    pub fn ty(&self) -> (r: Option<&KdlIdentifier>)
        ensures
            r matches Some(t) ==> self.ty == Some(*t),
            r is None ==> self.ty is None,
    {
        match &self.ty {
            Some(t) => Some(t),
            None => None,
        }
    }

    /// The node's children block.
    pub fn children(&self) -> (r: Option<&KdlDocument>)
        ensures
            r matches Some(c) ==> self.children == Some(*c),
            r is None ==> self.children is None,
    {
        match &self.children {
            Some(c) => Some(c),
            None => None,
        }
    }

    /// The value of the `index`-th positional argument.
    pub fn get(&self, index: usize) -> (r: Option<&KdlValue>)
        ensures
            r matches Some(v) ==> nth_arg(self.entries@, index as nat) == Some(*v),
            r is None ==> nth_arg(self.entries@, index as nat) is None,
    {
        let mut i: usize = 0;
        let mut k: usize = index;
        assert(self.entries@.skip(0) =~= self.entries@);
        while i < self.entries.len()
            invariant
                i <= self.entries@.len(),
                nth_arg(self.entries@, index as nat) == nth_arg(self.entries@.skip(i as int), k as nat),
            decreases self.entries.len() - i,
        {
            assert(self.entries@.skip(i as int).drop_first() =~= self.entries@.skip(i + 1));
            if self.entries[i].name.is_none() {
                if k == 0 {
                    return Some(&self.entries[i].value);
                }
                k = k - 1;
            }
            i += 1;
        }
        None
    }

    /// The last property named `name`.
    pub fn entry(&self, name: &str) -> (r: Option<&KdlEntry>)
        ensures
            r matches Some(e) ==> last_prop(self.entries@, name@) == Some(*e),
            r is None ==> last_prop(self.entries@, name@) is None,
    {
        let target = name.to_owned();
        let mut i: usize = self.entries.len();
        assert(self.entries@.take(i as int) =~= self.entries@);
        while i > 0
            invariant
                i <= self.entries@.len(),
                target@ == name@,
                last_prop(self.entries@, name@) == last_prop(self.entries@.take(i as int), name@),
            decreases i,
        {
            assert(self.entries@.take(i as int).drop_last() =~= self.entries@.take(i - 1));
            match &self.entries[i - 1].name {
                Some(n) => {
                    if n.value == target {
                        return Some(&self.entries[i - 1]);
                    }
                },
                None => {},
            }
            i -= 1;
        }
        None
    }

    /// The node's entries.
    pub fn entries(&self) -> (r: &Vec<KdlEntry>)
        ensures
            r@ == self.entries@,
    {
        &self.entries
    }
}

impl KdlEntry {
    /// The entry's value.
    pub fn value(&self) -> (r: &KdlValue)
        ensures
            *r == self.value,
    {
        &self.value
    }

    /// The property name, where the entry is a property.
    pub fn name(&self) -> (r: Option<&KdlIdentifier>)
        ensures
            r matches Some(n) ==> self.name == Some(*n),
            r is None ==> self.name is None,
    {
        match &self.name {
            Some(n) => Some(n),
            None => None,
        }
    }
}

impl KdlIdentifier {
    /// The identifier's text.
    pub fn value(&self) -> (r: &str)
        ensures
            r@ == self.value@,
    {
        self.value.as_str()
    }
}

} // verus!
