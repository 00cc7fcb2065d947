//! KDL queries (KQL): what a query is, and what it selects in a document.
//!
//! A query is a list of selectors separated by commas; a selector is a chain of
//! segments joined by combinators (`>`, `>>`, `+`, `++`); a segment is a list of
//! matchers on one node: its type annotation `(type)`, its name, and attribute
//! matchers `[accessor op value]`.

use vstd::prelude::*;

use crate::document::{last_prop, nth_arg, KdlDocument, KdlNode};
use crate::number::{num_order, number_order, Number};
use crate::schema_v2::formats::{contains_sub, contains_sub_c, starts_with, starts_with_c};
use crate::text::{chars_of, string_of};
use crate::value::{value_eq, value_number, KdlValue, ValueModel};

verus! {

/// How a segment relates to the segment after it.
#[derive(Clone, Copy, Debug, PartialEq, Eq, Structural)]
pub enum KdlSegmentCombinator {
    /// `>`: the next segment matches a child of this one.
    Child,
    /// `>>`: the next segment matches a descendant of this one.
    Descendant,
    /// `+`: the next segment matches the sibling right after this one.
    Neighbor,
    /// `++`: the next segment matches a sibling somewhere after this one.
    Sibling,
}

/// How an attribute matcher compares what its accessor reads with its value.
#[derive(Clone, Copy, Debug, PartialEq, Eq, Structural)]
pub enum KdlQueryAttributeOp {
    Equal,
    NotEqual,
    Gt,
    Gte,
    Lt,
    Lte,
    StartsWith,
    EndsWith,
    Contains,
}

/// What part of a node a matcher reads.
#[derive(Debug)]
pub enum KdlQueryMatcherAccessor {
    /// `scope()`: the place the query starts from.
    Scope,
    /// The node's name.
    Node,
    /// The node's type annotation: `(type)` or `type()`.
    Annotation,
    /// A positional argument: `arg()` for the first, `arg(n)` for the `n`-th.
    Arg(Option<usize>),
    /// A property: `prop(name)` or a bare `name`.
    Prop(String),
}

/// One matcher of a segment.
#[derive(Debug)]
pub struct KdlQueryMatcherDetails {
    pub op: KdlQueryAttributeOp,
    pub accessor: KdlQueryMatcherAccessor,
    pub value: Option<KdlValue>,
}

/// The matchers of one segment, all of which a node must meet.
#[derive(Debug)]
pub struct KdlQueryMatcher(pub Vec<KdlQueryMatcherDetails>);

/// One segment of a selector, with the combinator that joins it to the next.
#[derive(Debug)]
pub struct KdlQuerySelectorSegment {
    pub op: Option<KdlSegmentCombinator>,
    pub matcher: KdlQueryMatcher,
}

/// A chain of segments.
#[derive(Debug)]
pub struct KdlQuerySelector(pub Vec<KdlQuerySelectorSegment>);

/// A query: selectors, any one of which may select a node.
#[derive(Debug)]
pub struct KdlQuery(pub Vec<KdlQuerySelector>);

/// What an accessor holds.
pub enum AccessorModel {
    Scope,
    Node,
    Annotation,
    Arg(Option<usize>),
    Prop(Seq<char>),
}

/// What a matcher holds.
pub struct DetailModel {
    pub op: KdlQueryAttributeOp,
    pub accessor: AccessorModel,
    pub value: Option<ValueModel>,
}

/// What a segment holds.
pub struct SegmentModel {
    pub op: Option<KdlSegmentCombinator>,
    pub matchers: Seq<DetailModel>,
}

impl View for KdlQueryMatcherAccessor {
    type V = AccessorModel;

    open spec fn view(&self) -> AccessorModel {
        match self {
            KdlQueryMatcherAccessor::Scope => AccessorModel::Scope,
            KdlQueryMatcherAccessor::Node => AccessorModel::Node,
            KdlQueryMatcherAccessor::Annotation => AccessorModel::Annotation,
            KdlQueryMatcherAccessor::Arg(i) => AccessorModel::Arg(*i),
            KdlQueryMatcherAccessor::Prop(s) => AccessorModel::Prop(s@),
        }
    }
}

impl View for KdlQueryMatcherDetails {
    type V = DetailModel;

    open spec fn view(&self) -> DetailModel {
        DetailModel {
            op: self.op,
            accessor: self.accessor@,
            value: match self.value {
                Some(v) => Some(v@),
                None => None,
            },
        }
    }
}

pub open spec fn details_view(v: Seq<KdlQueryMatcherDetails>) -> Seq<DetailModel> {
    v.map_values(|d: KdlQueryMatcherDetails| d@)
}

impl View for KdlQuerySelectorSegment {
    type V = SegmentModel;

    open spec fn view(&self) -> SegmentModel {
        SegmentModel { op: self.op, matchers: details_view(self.matcher.0@) }
    }
}

pub open spec fn segments_view(v: Seq<KdlQuerySelectorSegment>) -> Seq<SegmentModel> {
    v.map_values(|s: KdlQuerySelectorSegment| s@)
}

impl View for KdlQuerySelector {
    type V = Seq<SegmentModel>;

    open spec fn view(&self) -> Seq<SegmentModel> {
        segments_view(self.0@)
    }
}

pub open spec fn selectors_view(v: Seq<KdlQuerySelector>) -> Seq<Seq<SegmentModel>> {
    v.map_values(|s: KdlQuerySelector| s@)
}

impl View for KdlQuery {
    type V = Seq<Seq<SegmentModel>>;

    open spec fn view(&self) -> Seq<Seq<SegmentModel>> {
        selectors_view(self.0@)
    }
}


impl View for KdlQueryMatcher {
    type V = Seq<DetailModel>;

    open spec fn view(&self) -> Seq<DetailModel> {
        details_view(self.0@)
    }
}

pub open spec fn ends_with(s: Seq<char>, t: Seq<char>) -> bool {
    t.len() <= s.len() && s.skip(s.len() - t.len()) == t
}

/// What an accessor reads from a node.
pub open spec fn accessor_value(a: AccessorModel, n: KdlNode) -> Option<ValueModel> {
    match a {
        AccessorModel::Scope => None,
        AccessorModel::Node => Some(ValueModel::String(n.name.value@)),
        AccessorModel::Annotation => match n.ty {
            Some(t) => Some(ValueModel::String(t.value@)),
            None => None,
        },
        AccessorModel::Arg(i) => match nth_arg(
            n.entries@,
            match i {
                Some(k) => k as nat,
                None => 0,
            },
        ) {
            Some(v) => Some(v@),
            None => None,
        },
        AccessorModel::Prop(name) => match last_prop(n.entries@, name) {
            Some(e) => Some(e.value@),
            None => None,
        },
    }
}

/// Whether `actual` stands in relation `op` to `expected`: equality as KDL values,
/// order between numbers, and prefix, suffix or substring between strings.
pub open spec fn compare(op: KdlQueryAttributeOp, actual: ValueModel, expected: ValueModel) -> bool {
    match op {
        KdlQueryAttributeOp::Equal => value_eq(actual, expected),
        KdlQueryAttributeOp::NotEqual => !value_eq(actual, expected),
        KdlQueryAttributeOp::StartsWith => match (actual, expected) {
            (ValueModel::String(a), ValueModel::String(e)) => starts_with(a, e),
            _ => false,
        },
        KdlQueryAttributeOp::EndsWith => match (actual, expected) {
            (ValueModel::String(a), ValueModel::String(e)) => ends_with(a, e),
            _ => false,
        },
        KdlQueryAttributeOp::Contains => match (actual, expected) {
            (ValueModel::String(a), ValueModel::String(e)) => contains_sub(a, e),
            _ => false,
        },
        _ => match (value_number(actual), value_number(expected)) {
            (Some(a), Some(e)) => match num_order(a, e) {
                Some(c) => match op {
                    KdlQueryAttributeOp::Gt => c > 0,
                    KdlQueryAttributeOp::Gte => c >= 0,
                    KdlQueryAttributeOp::Lt => c < 0,
                    _ => c <= 0,
                },
                None => false,
            },
            _ => false,
        },
    }
}

/// Whether a node meets one matcher: without a value, the accessor must read
/// something; with one, what it reads must compare as the operator asks.
pub open spec fn detail_matches(d: DetailModel, n: KdlNode) -> bool {
    match accessor_value(d.accessor, n) {
        None => false,
        Some(a) => match d.value {
            None => true,
            Some(v) => compare(d.op, a, v),
        },
    }
}

pub open spec fn segment_matches(seg: SegmentModel, n: KdlNode) -> bool {
    forall|i: int| 0 <= i < seg.matchers.len() ==> detail_matches(#[trigger] seg.matchers[i], n)
}

pub open spec fn is_scope_segment(seg: SegmentModel) -> bool {
    seg.matchers.len() == 1 && seg.matchers[0].accessor is Scope
}

/// One level of the path to a node: the nodes of that level and the position on the path.
pub struct Frame {
    pub siblings: Seq<KdlNode>,
    pub index: int,
}

pub open spec fn frames_ok(frames: Seq<Frame>) -> bool {
    forall|i: int| 0 <= i < frames.len() ==> 0 <= #[trigger] frames[i].index < frames[i].siblings.len()
}

pub open spec fn at(frames: Seq<Frame>) -> KdlNode {
    frames.last().siblings[frames.last().index]
}

/// The path with its last level moved to position `i`.
pub open spec fn moved(frames: Seq<Frame>, i: int) -> Seq<Frame> {
    frames.drop_last().push(Frame { siblings: frames.last().siblings, index: i })
}

/// Whether the node at the end of `frames` is selected by the first `k + 1` segments of `sel`.
pub open spec fn selects(sel: Seq<SegmentModel>, k: int, frames: Seq<Frame>) -> bool
    decreases k,
{
    if k < 0 || k >= sel.len() || frames.len() == 0 || is_scope_segment(sel[k]) || !segment_matches(sel[k], at(frames)) {
        false
    } else if k == 0 {
        true
    } else {
        match sel[k - 1].op {
            None => false,
            Some(c) => if is_scope_segment(sel[k - 1]) {
                k - 1 == 0 && match c {
                    KdlSegmentCombinator::Child => frames.len() == 1,
                    KdlSegmentCombinator::Descendant => true,
                    _ => false,
                }
            } else {
                match c {
                    KdlSegmentCombinator::Child => frames.len() >= 2 && selects(sel, k - 1, frames.drop_last()),
                    KdlSegmentCombinator::Descendant => exists|j: int|
                        1 <= j < frames.len() && selects(sel, k - 1, #[trigger] frames.take(j)),
                    KdlSegmentCombinator::Neighbor => frames.last().index >= 1 && selects(
                        sel,
                        k - 1,
                        moved(frames, frames.last().index - 1),
                    ),
                    KdlSegmentCombinator::Sibling => exists|i: int|
                        0 <= i < frames.last().index && selects(sel, k - 1, #[trigger] moved(frames, i)),
                }
            },
        }
    }
}

/// Whether some selector of `q` selects the node at the end of `frames`.
pub open spec fn query_selects(q: Seq<Seq<SegmentModel>>, frames: Seq<Frame>) -> bool {
    exists|i: int| 0 <= i < q.len() && selects(#[trigger] q[i], q[i].len() - 1, frames)
}

/// The first node, in document order (a node before its children, children
/// before later siblings), at or after position `i` of `nodes` or among their
/// descendants, that `q` selects; `frames` is the path to `nodes`.
pub open spec fn search(q: Seq<Seq<SegmentModel>>, frames: Seq<Frame>, nodes: Seq<KdlNode>, i: int) -> Option<KdlNode>
    decreases nodes, nodes.len() - i,
{
    if i < 0 || i >= nodes.len() {
        None
    } else {
        let fr = frames.push(Frame { siblings: nodes, index: i });
        if query_selects(q, fr) {
            Some(nodes[i])
        } else {
            let below = match nodes[i].children {
                Some(c) => {
                    proof {
                        assert(decreases_to!(nodes => nodes[i]));
                        assert(decreases_to!(nodes[i] => c.nodes@));
                    }
                    search(q, fr, c.nodes@, 0)
                },
                None => None,
            };
            match below {
                Some(x) => Some(x),
                None => search(q, frames, nodes, i + 1),
            }
        }
    }
}

/// The first node of a document, in document order, that a query selects.
pub open spec fn query_first(doc: KdlDocument, q: Seq<Seq<SegmentModel>>) -> Option<KdlNode> {
    search(q, Seq::empty(), doc.nodes@, 0)
}


/// One level of the path to a node, as the search keeps it.
#[derive(Clone, Copy)]
pub struct FrameRef<'a> {
    pub siblings: &'a Vec<KdlNode>,
    pub index: usize,
}

pub open spec fn frame_view(f: FrameRef) -> Frame {
    Frame { siblings: f.siblings@, index: f.index as int }
}

pub open spec fn frames_view(v: Seq<FrameRef>) -> Seq<Frame> {
    v.map_values(|f: FrameRef| frame_view(f))
}

fn accessor_value_c(a: &KdlQueryMatcherAccessor, n: &KdlNode) -> (r: Option<KdlValue>)
    ensures
        match r {
            Some(v) => accessor_value(a@, *n) == Some(v@),
            None => accessor_value(a@, *n) is None,
        },
{
    match a {
        KdlQueryMatcherAccessor::Scope => None,
        KdlQueryMatcherAccessor::Node => Some(KdlValue::String(n.name.value.clone())),
        KdlQueryMatcherAccessor::Annotation => match &n.ty {
            Some(t) => Some(KdlValue::String(t.value.clone())),
            None => None,
        },
        KdlQueryMatcherAccessor::Arg(i) => {
            let k: usize = match i {
                Some(k) => *k,
                None => 0,
            };
            match n.get(k) {
                Some(v) => Some(v.clone()),
                None => None,
            }
        },
        KdlQueryMatcherAccessor::Prop(name) => match n.entry(name.as_str()) {
            Some(e) => Some(e.value.clone()),
            None => None,
        },
    }
}

fn ends_with_c(a: &Vec<char>, e: &Vec<char>) -> (r: bool)
    ensures
        r == ends_with(a@, e@),
{
    if e.len() > a.len() {
        return false;
    }
    let off = a.len() - e.len();
    let n = a.len();
    let mut i: usize = 0;
    while i < e.len()
        invariant
            i <= e@.len(),
            n == a@.len(),
            off + e@.len() == a@.len(),
            forall|j: int| 0 <= j < i ==> a@[off + j] == e@[j],
        decreases e.len() - i,
    {
        if a[off + i] != e[i] {
            assert(a@.skip(off as int)[i as int] != e@[i as int]);
            return false;
        }
        i += 1;
    }
    assert(a@.skip(off as int) =~= e@);
    true
}

fn compare_c(op: KdlQueryAttributeOp, actual: &KdlValue, expected: &KdlValue) -> (r: bool)
    ensures
        r == compare(op, actual@, expected@),
{
    match op {
        KdlQueryAttributeOp::Equal => actual.value_equals(expected),
        KdlQueryAttributeOp::NotEqual => !actual.value_equals(expected),
        KdlQueryAttributeOp::StartsWith => match (actual, expected) {
            (KdlValue::String(a), KdlValue::String(e)) => starts_with_c(&chars_of(a.as_str()), &chars_of(e.as_str())),
            _ => false,
        },
        KdlQueryAttributeOp::EndsWith => match (actual, expected) {
            (KdlValue::String(a), KdlValue::String(e)) => ends_with_c(&chars_of(a.as_str()), &chars_of(e.as_str())),
            _ => false,
        },
        KdlQueryAttributeOp::Contains => match (actual, expected) {
            (KdlValue::String(a), KdlValue::String(e)) => contains_sub_c(&chars_of(a.as_str()), &chars_of(e.as_str())),
            _ => false,
        },
        _ => match (actual.as_number(), expected.as_number()) {
            (Some(a), Some(e)) => match number_order(&a, &e) {
                Some(c) => match op {
                    KdlQueryAttributeOp::Gt => c > 0,
                    KdlQueryAttributeOp::Gte => c >= 0,
                    KdlQueryAttributeOp::Lt => c < 0,
                    _ => c <= 0,
                },
                None => false,
            },
            _ => false,
        },
    }
}

fn detail_matches_c(d: &KdlQueryMatcherDetails, n: &KdlNode) -> (r: bool)
    ensures
        r == detail_matches(d@, *n),
{
    match accessor_value_c(&d.accessor, n) {
        None => false,
        Some(a) => match &d.value {
            None => true,
            Some(v) => compare_c(d.op, &a, v),
        },
    }
}

fn segment_matches_c(seg: &KdlQuerySelectorSegment, n: &KdlNode) -> (r: bool)
    ensures
        r == segment_matches(seg@, *n),
{
    let ghost ms = seg@.matchers;
    let mut i: usize = 0;
    while i < seg.matcher.0.len()
        invariant
            i <= seg.matcher.0@.len(),
            ms == details_view(seg.matcher.0@),
            ms == seg@.matchers,
            forall|j: int| 0 <= j < i ==> detail_matches(#[trigger] ms[j], *n),
        decreases seg.matcher.0.len() - i,
    {
        if !detail_matches_c(&seg.matcher.0[i], n) {
            assert(!detail_matches(ms[i as int], *n));
            return false;
        }
        i += 1;
    }
    true
}

fn is_scope_segment_c(seg: &KdlQuerySelectorSegment) -> (r: bool)
    ensures
        r == is_scope_segment(seg@),
{
    seg.matcher.0.len() == 1 && match seg.matcher.0[0].accessor {
        KdlQueryMatcherAccessor::Scope => true,
        _ => false,
    }
}

fn take_frames<'a>(frames: &Vec<FrameRef<'a>>, j: usize) -> (r: Vec<FrameRef<'a>>)
    requires
        j <= frames@.len(),
    ensures
        frames_view(r@) == frames_view(frames@).take(j as int),
        r@.len() == j,
{
    let mut out: Vec<FrameRef<'a>> = Vec::new();
    let mut i: usize = 0;
    while i < j
        invariant
            i <= j <= frames@.len(),
            out@ == frames@.take(i as int),
        decreases j - i,
    {
        out.push(frames[i]);
        i += 1;
        assert(out@ =~= frames@.take(i as int));
    }
    assert(frames_view(out@) =~= frames_view(frames@).take(j as int));
    out
}

fn moved_frames<'a>(frames: &Vec<FrameRef<'a>>, i: usize) -> (r: Vec<FrameRef<'a>>)
    requires
        frames@.len() > 0,
    ensures
        frames_view(r@) == moved(frames_view(frames@), i as int),
        r@.len() == frames@.len(),
{
    let n = frames.len();
    let mut out = take_frames(frames, n - 1);
    let last = frames[n - 1];
    let ghost before = out@;
    out.push(FrameRef { siblings: last.siblings, index: i });
    assert(frames_view(out@) =~= moved(frames_view(frames@), i as int));
    out
}

#[verifier::loop_isolation(false)]
fn selects_c(sel: &Vec<KdlQuerySelectorSegment>, k: usize, frames: &Vec<FrameRef>) -> (r: bool)
    requires
        frames_ok(frames_view(frames@)),
    ensures
        r == selects(segments_view(sel@), k as int, frames_view(frames@)),
    decreases k,
{
    let ghost sv = segments_view(sel@);
    let ghost fv = frames_view(frames@);
    if k >= sel.len() || frames.len() == 0 {
        return false;
    }
    let last = frames[frames.len() - 1];
    assert(fv.last() == frame_view(last));
    assert(fv[fv.len() - 1].index < fv[fv.len() - 1].siblings.len());
    let node = &last.siblings[last.index];
    if is_scope_segment_c(&sel[k]) || !segment_matches_c(&sel[k], node) {
        return false;
    }
    if k == 0 {
        return true;
    }
    match sel[k - 1].op {
        None => false,
        Some(c) => if is_scope_segment_c(&sel[k - 1]) {
            k - 1 == 0 && match c {
                KdlSegmentCombinator::Child => frames.len() == 1,
                KdlSegmentCombinator::Descendant => true,
                _ => false,
            }
        } else {
            match c {
                KdlSegmentCombinator::Child => {
                    if frames.len() < 2 {
                        return false;
                    }
                    let up = take_frames(frames, frames.len() - 1);
                    assert(fv.take(fv.len() - 1) =~= fv.drop_last());
                    selects_c(sel, k - 1, &up)
                },
                KdlSegmentCombinator::Descendant => {
                    let mut j: usize = 1;
                    while j < frames.len()
                        invariant
                            1 <= j <= frames@.len(),
                            fv == frames_view(frames@),
                            sv == segments_view(sel@),
                            frames_ok(fv),
                            0 < k < sel@.len(),
                            forall|jj: int| 1 <= jj < j ==> !selects(sv, k - 1, #[trigger] fv.take(jj)),
                        decreases frames.len() - j,
                    {
                        let up = take_frames(frames, j);
                        if selects_c(sel, k - 1, &up) {
                            return true;
                        }
                        j += 1;
                    }
                    false
                },
                KdlSegmentCombinator::Neighbor => {
                    if last.index < 1 {
                        return false;
                    }
                    let side = moved_frames(frames, last.index - 1);
                    selects_c(sel, k - 1, &side)
                },
                KdlSegmentCombinator::Sibling => {
                    let mut i: usize = 0;
                    while i < last.index
                        invariant
                            i <= last.index,
                            fv == frames_view(frames@),
                            sv == segments_view(sel@),
                            frames_ok(fv),
                            frames@.len() > 0,
                            fv.last().index == last.index,
                            0 < k < sel@.len(),
                            forall|ii: int| 0 <= ii < i ==> !selects(sv, k - 1, #[trigger] moved(fv, ii)),
                        decreases last.index - i,
                    {
                        let side = moved_frames(frames, i);
                        if selects_c(sel, k - 1, &side) {
                            return true;
                        }
                        i += 1;
                    }
                    false
                },
            }
        },
    }
}


fn query_selects_c(q: &KdlQuery, frames: &Vec<FrameRef>) -> (r: bool)
    requires
        frames_ok(frames_view(frames@)),
    ensures
        r == query_selects(q@, frames_view(frames@)),
{
    let ghost qv = q@;
    let mut i: usize = 0;
    while i < q.0.len()
        invariant
            i <= q.0@.len(),
            qv == q@,
            qv == selectors_view(q.0@),
            frames_ok(frames_view(frames@)),
            forall|j: int| 0 <= j < i ==> !selects(#[trigger] qv[j], qv[j].len() - 1, frames_view(frames@)),
        decreases q.0.len() - i,
    {
        let sel = &q.0[i];
        assert(qv[i as int] == segments_view(sel.0@));
        if sel.0.len() > 0 {
            if selects_c(&sel.0, sel.0.len() - 1, frames) {
                return true;
            }
        } else {
            assert(!selects(qv[i as int], qv[i as int].len() - 1, frames_view(frames@)));
        }
        i += 1;
    }
    false
}

fn search_c<'a>(q: &KdlQuery, frames: &Vec<FrameRef<'a>>, nodes: &'a Vec<KdlNode>) -> (r: Option<&'a KdlNode>)
    requires
        frames_ok(frames_view(frames@)),
    ensures
        match r {
            Some(x) => search(q@, frames_view(frames@), nodes@, 0) == Some(*x),
            None => search(q@, frames_view(frames@), nodes@, 0) is None,
        },
    decreases nodes@,
{
    let ghost fv = frames_view(frames@);
    let mut i: usize = 0;
    while i < nodes.len()
        invariant
            i <= nodes@.len(),
            fv == frames_view(frames@),
            frames_ok(fv),
            search(q@, fv, nodes@, 0) == search(q@, fv, nodes@, i as int),
        decreases nodes.len() - i,
    {
        let mut fr = take_frames(frames, frames.len());
        let ghost before = fr@;
        fr.push(FrameRef { siblings: nodes, index: i });
        assert(frames_view(before) =~= fv);
        assert(frames_view(fr@) =~= fv.push(Frame { siblings: nodes@, index: i as int }));
        assert(frames_ok(frames_view(fr@))) by {
            let nf = frames_view(fr@);
            assert forall|j: int| 0 <= j < nf.len() implies 0 <= #[trigger] nf[j].index < nf[j].siblings.len() by {
                if j < fv.len() {
                    assert(nf[j] == fv[j]);
                }
            }
        }
        if query_selects_c(q, &fr) {
            return Some(&nodes[i]);
        }
        match &nodes[i].children {
            Some(c) => {
                proof {
                    assert(decreases_to!(nodes@ => nodes@[i as int]));
                    assert(decreases_to!(nodes@[i as int] => c.nodes@));
                }
                match search_c(q, &fr, &c.nodes) {
                    Some(x) => {
                        return Some(x);
                    },
                    None => {},
                }
            },
            None => {},
        }
        i += 1;
    }
    None
}

impl KdlDocument {
    /// The first node, in document order, that `q` selects (see [`query_first`]).
    pub fn query(&self, q: &KdlQuery) -> (r: Option<&KdlNode>)
        ensures
            match r {
                Some(x) => query_first(*self, q@) == Some(*x),
                None => query_first(*self, q@) is None,
            },
    {
        let frames: Vec<FrameRef> = Vec::new();
        assert(frames_view(frames@) =~= Seq::<Frame>::empty());
        search_c(q, &frames, &self.nodes)
    }
}

/// The string operators of a matcher: `*=` holds exactly when the given text
/// occurs somewhere in the text read, `^=` when the text read begins with it,
/// and `$=` when it ends with it.
pub proof fn law_string_operators(a: Seq<char>, e: Seq<char>)
    ensures
        compare(KdlQueryAttributeOp::Contains, ValueModel::String(a), ValueModel::String(e)) <==> exists|k: int|
            0 <= k && k + e.len() <= a.len() && #[trigger] a.subrange(k, k + e.len()) == e,
        compare(KdlQueryAttributeOp::StartsWith, ValueModel::String(a), ValueModel::String(e)) <==> (e.len()
            <= a.len() && a.subrange(0, e.len() as int) == e),
        compare(KdlQueryAttributeOp::EndsWith, ValueModel::String(a), ValueModel::String(e)) <==> (e.len()
            <= a.len() && a.subrange(a.len() - e.len(), a.len() as int) == e),
{
    if e.len() <= a.len() {
        assert(a.take(e.len() as int) =~= a.subrange(0, e.len() as int));
        assert(a.skip(a.len() - e.len()) =~= a.subrange(a.len() - e.len(), a.len() as int));
    }
}

/// The string operators hold of strings only: with a value that is not a
/// string on either side they do not hold.
pub proof fn law_string_operators_need_strings(op: KdlQueryAttributeOp, a: ValueModel, e: ValueModel)
    requires
        op == KdlQueryAttributeOp::Contains || op == KdlQueryAttributeOp::StartsWith || op
            == KdlQueryAttributeOp::EndsWith,
        !(a is String) || !(e is String),
    ensures
        !compare(op, a, e),
{
}

/// Between integers the comparison operators compare the integers: `>` is
/// "greater", `>=` "at least", `<` "less", `<=` "at most", `=` "equal" and
/// `!=` "different".
pub proof fn law_integer_comparisons(a: i128, b: i128)
    ensures
        compare(KdlQueryAttributeOp::Gt, ValueModel::Integer(a), ValueModel::Integer(b)) <==> a > b,
        compare(KdlQueryAttributeOp::Gte, ValueModel::Integer(a), ValueModel::Integer(b)) <==> a >= b,
        compare(KdlQueryAttributeOp::Lt, ValueModel::Integer(a), ValueModel::Integer(b)) <==> a < b,
        compare(KdlQueryAttributeOp::Lte, ValueModel::Integer(a), ValueModel::Integer(b)) <==> a <= b,
        compare(KdlQueryAttributeOp::Equal, ValueModel::Integer(a), ValueModel::Integer(b)) <==> a == b,
        compare(KdlQueryAttributeOp::NotEqual, ValueModel::Integer(a), ValueModel::Integer(b)) <==> a != b,
{
    assert(crate::number::pow10(0) == 1);
    assert(a as int * crate::number::pow10(0) == a as int);
    assert(b as int * crate::number::pow10(0) == b as int);
}

/// The node at level `j` of a path.
pub open spec fn node_at(frames: Seq<Frame>, j: int) -> KdlNode {
    frames[j].siblings[frames[j].index]
}

/// How two segments `s0 c s1` select a node: the node meets `s1`, and
/// - with `>` (child), its parent meets `s0`;
/// - with `>>` (descendant), some ancestor meets `s0`;
/// - with `+` (neighbour), the sibling just before it meets `s0`;
/// - with `++` (sibling), some earlier sibling meets `s0`.
pub proof fn law_combinators(s0: SegmentModel, s1: SegmentModel, frames: Seq<Frame>)
    requires
        s0.op is Some,
        !is_scope_segment(s0),
        !is_scope_segment(s1),
        frames.len() >= 1,
    ensures
        ({
            let sel = seq![s0, s1];
            let n = frames.len() - 1;
            let last = frames[n];
            selects(sel, 1, frames) <==> segment_matches(s1, node_at(frames, n)) && match s0.op->0 {
                KdlSegmentCombinator::Child => n >= 1 && segment_matches(s0, node_at(frames, n - 1)),
                KdlSegmentCombinator::Descendant => exists|j: int|
                    0 <= j < n && segment_matches(s0, #[trigger] node_at(frames, j)),
                KdlSegmentCombinator::Neighbor => last.index >= 1 && segment_matches(
                    s0,
                    last.siblings[last.index - 1],
                ),
                KdlSegmentCombinator::Sibling => exists|i: int|
                    0 <= i < last.index && segment_matches(s0, #[trigger] last.siblings[i]),
            }
        }),
{
    let sel = seq![s0, s1];
    let n = frames.len() - 1;
    let last = frames[n];
    reveal_with_fuel(selects, 2);
    assert(sel[0] == s0 && sel[1] == s1);
    assert(at(frames) == node_at(frames, n));
    match s0.op->0 {
        KdlSegmentCombinator::Child => {
            if n >= 1 {
                assert(at(frames.drop_last()) == node_at(frames, n - 1));
            }
        },
        KdlSegmentCombinator::Descendant => {
            assert forall|j: int| 1 <= j < frames.len() implies (selects(sel, 0, #[trigger] frames.take(j))
                <==> segment_matches(s0, node_at(frames, j - 1))) by {
                assert(at(frames.take(j)) == node_at(frames, j - 1));
            }
            if exists|j: int| 0 <= j < n && segment_matches(s0, #[trigger] node_at(frames, j)) {
                let j = choose|j: int| 0 <= j < n && segment_matches(s0, #[trigger] node_at(frames, j));
                assert(selects(sel, 0, frames.take(j + 1)));
            }
            if exists|j: int| 1 <= j < frames.len() && selects(sel, 0, #[trigger] frames.take(j)) {
                let j = choose|j: int| 1 <= j < frames.len() && selects(sel, 0, #[trigger] frames.take(j));
                assert(segment_matches(s0, node_at(frames, j - 1)));
            }
        },
        KdlSegmentCombinator::Neighbor => {
            if last.index >= 1 {
                assert(at(moved(frames, last.index - 1)) == last.siblings[last.index - 1]);
            }
        },
        KdlSegmentCombinator::Sibling => {
            assert forall|i: int| 0 <= i < last.index implies (selects(sel, 0, #[trigger] moved(frames, i))
                <==> segment_matches(s0, last.siblings[i])) by {
                assert(at(moved(frames, i)) == last.siblings[i]);
            }
            if exists|i: int| 0 <= i < last.index && segment_matches(s0, #[trigger] last.siblings[i]) {
                let i = choose|i: int| 0 <= i < last.index && segment_matches(s0, #[trigger] last.siblings[i]);
                assert(selects(sel, 0, moved(frames, i)));
            }
        },
    }
}

} // verus!
