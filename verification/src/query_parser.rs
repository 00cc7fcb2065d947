//! The KQL grammar, and a parser that follows it.
//!
//! The grammar is stated over the characters of a query as functions from a
//! position to what is read there (`p_*`), with two kinds of failure: a
//! recoverable one, after which an enclosing choice tries its next alternative,
//! and a committed one, which ends the parse. Positions count characters.

use vstd::prelude::*;

use crate::diagnostic::opt_text;

use crate::chars::{is_digit, is_kdl_space, is_unicode_whitespace, kdl_space_c, unicode_whitespace_c};
use crate::diagnostic::{DiagnosticModel, KdlDiagnostic, Severity};
use crate::document::SourceSpan;
use crate::number::KdlFloat;
use crate::query::{
    AccessorModel, DetailModel, KdlQuery, KdlQueryAttributeOp, KdlQueryMatcher,
    KdlQueryMatcherAccessor, KdlQueryMatcherDetails, KdlQuerySelector, KdlQuerySelectorSegment,
    KdlSegmentCombinator, SegmentModel, details_view, segments_view, selectors_view,
};
use crate::schema_v2::formats::digits_value;
use crate::text::{chars_of, string_of};
use crate::value::{KdlValue, ValueModel};

verus! {

/// A failure to read: `cut` where it ends the parse, with what it reports.
pub struct QErr {
    pub cut: bool,
    pub message: Option<Seq<char>>,
    pub label: Option<Seq<char>>,
    pub help: Option<Seq<char>>,
    pub offset: int,
    pub len: int,
}

/// What a grammar function reads at a position: a value and the position after it, or a failure.
pub enum PRes<T> {
    Read(T, int),
    Fail(QErr),
}

/// The plain recoverable failure.
pub open spec fn backtrack() -> QErr {
    QErr { cut: false, message: None, label: None, help: None, offset: 0, len: 0 }
}

/// A committed failure with a message, a label and a help text.
pub open spec fn cut_err(msg: Seq<char>, label: Seq<char>, help: Seq<char>, offset: int, len: int) -> QErr {
    QErr { cut: true, message: Some(msg), label: Some(label), help: Some(help), offset, len }
}

/// The white space of queries: KDL's spaces and line breaks.
pub open spec fn q_ws(c: char) -> bool {
    is_kdl_space(c) || c == '\r' || c == '\n' || c == '\u{0085}' || c == '\u{000C}' || c
        == '\u{2028}' || c == '\u{2029}'
}

pub open spec fn skip_ws(s: Seq<char>, p: int) -> int
    decreases s.len() - p,
{
    if 0 <= p < s.len() && q_ws(s[p]) {
        skip_ws(s, p + 1)
    } else {
        p
    }
}

/// Whether `t` stands in `s` at `p`.
pub open spec fn lit_at(s: Seq<char>, p: int, t: Seq<char>) -> bool {
    0 <= p && p + t.len() <= s.len() && s.subrange(p, p + t.len()) == t
}

/// The characters of a bare identifier.
pub open spec fn bare_char(c: char) -> bool {
    !is_unicode_whitespace(c) && c != '(' && c != ')' && c != '[' && c != ']' && c != '{' && c
        != '}' && c != ',' && c != '=' && c != '>' && c != '<' && c != '!' && c != '^' && c != '$'
        && c != '*' && c != '"' && c != '\''
}

pub open spec fn bare_end(s: Seq<char>, p: int) -> int
    decreases s.len() - p,
{
    if 0 <= p < s.len() && bare_char(s[p]) {
        bare_end(s, p + 1)
    } else {
        p
    }
}

/// The position of the first `"` at or after `p`, or the end.
pub open spec fn quote_end(s: Seq<char>, p: int) -> int
    decreases s.len() - p,
{
    if 0 <= p < s.len() && s[p] != '"' {
        quote_end(s, p + 1)
    } else {
        p
    }
}

pub open spec fn digit_end(s: Seq<char>, p: int) -> int
    decreases s.len() - p,
{
    if 0 <= p < s.len() && is_digit(s[p]) {
        digit_end(s, p + 1)
    } else {
        p
    }
}

/// The end of a run of digits and dots.
pub open spec fn num_end(s: Seq<char>, p: int) -> int
    decreases s.len() - p,
{
    if 0 <= p < s.len() && (is_digit(s[p]) || s[p] == '.') {
        num_end(s, p + 1)
    } else {
        p
    }
}

/// An identifier: a quoted one, `"` up to the next `"`, or a bare one.
pub open spec fn p_ident(s: Seq<char>, p: int) -> PRes<Seq<char>> {
    if 0 <= p < s.len() && s[p] == '"' {
        let e = quote_end(s, p + 1);
        if e < s.len() {
            PRes::Read(s.subrange(p + 1, e), e + 1)
        } else {
            PRes::Fail(backtrack())
        }
    } else {
        let e = bare_end(s, p);
        if e > p {
            PRes::Read(s.subrange(p, e), e)
        } else {
            PRes::Fail(backtrack())
        }
    }
}

/// The index of `arg(n)`: decimal digits worth a `usize`.
pub open spec fn p_index(s: Seq<char>, p: int) -> PRes<usize> {
    let e = digit_end(s, p);
    if e > p && digits_value(s.subrange(p, e)) <= usize::MAX {
        PRes::Read(digits_value(s.subrange(p, e)) as usize, e)
    } else {
        PRes::Fail(backtrack())
    }
}

/// The position of the first `.` in `t`, or its length.
pub open spec fn dot_index(t: Seq<char>) -> int
    decreases t.len(),
{
    if t.len() == 0 {
        0
    } else if t[0] == '.' {
        0
    } else {
        1 + dot_index(t.drop_first())
    }
}

/// The decimal that a run of digits with one dot reads as, negated where `neg`:
/// the digits as one integer over ten to the number of digits after the dot.
/// `None` where the run has no digit, more than one dot, or a value too long to hold.
pub open spec fn decimal_of(t: Seq<char>, neg: bool) -> Option<KdlFloat> {
    let k = dot_index(t);
    let digits = t.take(k) + t.skip(k + 1);
    let mag = digits_value(digits);
    let m: int = if neg { -mag } else { mag as int };
    if k < t.len() && !t.skip(k + 1).contains('.') && digits.len() > 0 && i128::MIN <= m
        <= i128::MAX && t.len() <= i32::MAX {
        Some(KdlFloat::Decimal { mantissa: m as i128, exponent: -(t.len() - k - 1) as i32 })
    } else {
        None
    }
}

/// A number: an optional sign, then digits and dots; with a dot it is a decimal,
/// without one an integer that fits an `i128`.
pub open spec fn p_number(s: Seq<char>, p: int) -> PRes<ValueModel> {
    let signed = 0 <= p < s.len() && (s[p] == '+' || s[p] == '-');
    let q = if signed { p + 1 } else { p };
    let e = num_end(s, q);
    let neg = signed && s[p] == '-';
    let body = s.subrange(q, e);
    if e == q {
        PRes::Fail(backtrack())
    } else if body.contains('.') {
        match decimal_of(body, neg) {
            Some(f) => PRes::Read(ValueModel::Float(f), e),
            None => PRes::Fail(backtrack()),
        }
    } else {
        let mag = digits_value(body);
        let v: int = if neg { -mag } else { mag as int };
        if i128::MIN <= v <= i128::MAX {
            PRes::Read(ValueModel::Integer(v as i128), e)
        } else {
            PRes::Fail(backtrack())
        }
    }
}

/// A value: a keyword, a quoted string without escapes, or a number.
pub open spec fn p_value(s: Seq<char>, p: int) -> PRes<ValueModel> {
    if lit_at(s, p, "#true"@) {
        PRes::Read(ValueModel::Bool(true), p + 5)
    } else if lit_at(s, p, "#false"@) {
        PRes::Read(ValueModel::Bool(false), p + 6)
    } else if lit_at(s, p, "true"@) {
        PRes::Read(ValueModel::Bool(true), p + 4)
    } else if lit_at(s, p, "false"@) {
        PRes::Read(ValueModel::Bool(false), p + 5)
    } else if lit_at(s, p, "#null"@) {
        PRes::Read(ValueModel::Null, p + 5)
    } else if lit_at(s, p, "null"@) {
        PRes::Read(ValueModel::Null, p + 4)
    } else if lit_at(s, p, "#inf"@) {
        PRes::Read(ValueModel::Float(KdlFloat::Infinity), p + 4)
    } else if lit_at(s, p, "#-inf"@) {
        PRes::Read(ValueModel::Float(KdlFloat::NegInfinity), p + 5)
    } else if lit_at(s, p, "#nan"@) {
        PRes::Read(ValueModel::Float(KdlFloat::NaN), p + 4)
    } else if 0 <= p < s.len() && s[p] == '"' && quote_end(s, p + 1) < s.len() {
        PRes::Read(ValueModel::String(s.subrange(p + 1, quote_end(s, p + 1))), quote_end(s, p + 1) + 1)
    } else {
        p_number(s, p)
    }
}

/// `type()`
pub open spec fn p_type_accessor(s: Seq<char>, p: int) -> PRes<AccessorModel> {
    let a = skip_ws(s, p + 4);
    let b = skip_ws(s, a + 1);
    if lit_at(s, p, "type"@) && lit_at(s, a, "("@) && lit_at(s, b, ")"@) {
        PRes::Read(AccessorModel::Annotation, b + 1)
    } else {
        PRes::Fail(backtrack())
    }
}

/// `arg()` or `arg(n)`
pub open spec fn p_arg_accessor(s: Seq<char>, p: int) -> PRes<AccessorModel> {
    let a = skip_ws(s, p + 4);
    let (idx, b) = match p_index(s, a) {
        PRes::Read(i, b) => (Some(i), b),
        PRes::Fail(_) => (None, a),
    };
    let c = skip_ws(s, b);
    if lit_at(s, p, "arg("@) && lit_at(s, c, ")"@) {
        PRes::Read(AccessorModel::Arg(idx), c + 1)
    } else {
        PRes::Fail(backtrack())
    }
}

/// `prop(name)`
pub open spec fn p_prop_accessor(s: Seq<char>, p: int) -> PRes<AccessorModel> {
    if lit_at(s, p, "prop("@) {
        match p_ident(s, skip_ws(s, p + 5)) {
            PRes::Read(name, b) => if lit_at(s, skip_ws(s, b), ")"@) {
                PRes::Read(AccessorModel::Prop(name), skip_ws(s, b) + 1)
            } else {
                PRes::Fail(backtrack())
            },
            PRes::Fail(_) => PRes::Fail(backtrack()),
        }
    } else {
        PRes::Fail(backtrack())
    }
}

/// A bare property name, not followed by `(`.
pub open spec fn p_prop_name_accessor(s: Seq<char>, p: int) -> PRes<AccessorModel> {
    match p_ident(s, p) {
        PRes::Read(name, b) => if lit_at(s, b, "("@) {
            PRes::Fail(backtrack())
        } else {
            PRes::Read(AccessorModel::Prop(name), b)
        },
        PRes::Fail(_) => PRes::Fail(backtrack()),
    }
}

pub open spec fn p_accessor(s: Seq<char>, p: int) -> PRes<AccessorModel> {
    match p_type_accessor(s, p) {
        PRes::Read(a, q) => PRes::Read(a, q),
        PRes::Fail(_) => match p_arg_accessor(s, p) {
            PRes::Read(a, q) => PRes::Read(a, q),
            PRes::Fail(_) => match p_prop_accessor(s, p) {
                PRes::Read(a, q) => PRes::Read(a, q),
                PRes::Fail(_) => p_prop_name_accessor(s, p),
            },
        },
    }
}

/// An attribute operator, longest spellings first.
pub open spec fn p_op(s: Seq<char>, p: int) -> Option<(KdlQueryAttributeOp, int)> {
    if lit_at(s, p, "!="@) {
        Some((KdlQueryAttributeOp::NotEqual, p + 2))
    } else if lit_at(s, p, ">="@) {
        Some((KdlQueryAttributeOp::Gte, p + 2))
    } else if lit_at(s, p, "<="@) {
        Some((KdlQueryAttributeOp::Lte, p + 2))
    } else if lit_at(s, p, "^="@) {
        Some((KdlQueryAttributeOp::StartsWith, p + 2))
    } else if lit_at(s, p, "$="@) {
        Some((KdlQueryAttributeOp::EndsWith, p + 2))
    } else if lit_at(s, p, "*="@) {
        Some((KdlQueryAttributeOp::Contains, p + 2))
    } else if lit_at(s, p, "="@) {
        Some((KdlQueryAttributeOp::Equal, p + 1))
    } else if lit_at(s, p, ">"@) {
        Some((KdlQueryAttributeOp::Gt, p + 1))
    } else if lit_at(s, p, "<"@) {
        Some((KdlQueryAttributeOp::Lt, p + 1))
    } else {
        None
    }
}

pub open spec fn is_string_op(op: KdlQueryAttributeOp) -> bool {
    op == KdlQueryAttributeOp::StartsWith || op == KdlQueryAttributeOp::EndsWith || op
        == KdlQueryAttributeOp::Contains
}

/// The inside of `[...]`: an accessor with an optional operator and value, or nothing.
pub open spec fn p_attr_inner(s: Seq<char>, p: int) -> PRes<DetailModel> {
    match p_accessor(s, p) {
        PRes::Read(xsr, p1) => {
            let p2 = skip_ws(s, p1);
            match p_op(s, p2) {
                Some((op, p3)) => {
                    let p4 = skip_ws(s, p3);
                    match p_value(s, p4) {
                        PRes::Read(v, p5) => if is_string_op(op) && !(v is String) {
                            PRes::Fail(
                                cut_err(
                                    "String operators require string values"@,
                                    "non-string value"@,
                                    "Use ^=, $=, *= only with strings"@,
                                    p5,
                                    1,
                                ),
                            )
                        } else {
                            PRes::Read(DetailModel { op, accessor: xsr, value: Some(v) }, p5)
                        },
                        PRes::Fail(_) => PRes::Fail(
                            cut_err(
                                "Expected value after operator"@,
                                "operator value"@,
                                "Provide a valid KDL value"@,
                                p4,
                                0,
                            ),
                        ),
                    }
                },
                None => PRes::Read(
                    DetailModel { op: KdlQueryAttributeOp::Equal, accessor: xsr, value: None },
                    skip_ws(s, p2),
                ),
            }
        },
        PRes::Fail(_) => PRes::Read(
            DetailModel { op: KdlQueryAttributeOp::Equal, accessor: AccessorModel::Node, value: None },
            p,
        ),
    }
}

/// `[ inner ]`; a missing `]` ends the parse.
pub open spec fn p_attr(s: Seq<char>, p: int) -> PRes<DetailModel> {
    if lit_at(s, p, "["@) {
        match p_attr_inner(s, skip_ws(s, p + 1)) {
            PRes::Read(d, p2) => {
                let p3 = skip_ws(s, p2);
                if lit_at(s, p3, "]"@) {
                    PRes::Read(d, p3 + 1)
                } else {
                    PRes::Fail(
                        QErr {
                            cut: true,
                            message: None,
                            label: Some("closing ']'"@),
                            help: None,
                            offset: p3,
                            len: 0,
                        },
                    )
                }
            },
            PRes::Fail(e) => PRes::Fail(e),
        }
    } else {
        PRes::Fail(backtrack())
    }
}

/// Zero or more attribute matchers.
pub open spec fn p_attrs(s: Seq<char>, p: int) -> PRes<Seq<DetailModel>>
    decreases s.len() - p,
{
    match p_attr(s, p) {
        PRes::Read(d, p1) => if p < p1 <= s.len() {
            match p_attrs(s, p1) {
                PRes::Read(ds, p2) => PRes::Read(seq![d] + ds, p2),
                PRes::Fail(e) => PRes::Fail(e),
            }
        } else {
            PRes::Fail(backtrack())
        },
        PRes::Fail(e) => if e.cut {
            PRes::Fail(e)
        } else {
            PRes::Read(Seq::empty(), p)
        },
    }
}

/// `( identifier? )`: a type annotation matcher.
pub open spec fn p_annotation(s: Seq<char>, p: int) -> PRes<DetailModel> {
    let a = skip_ws(s, p + 1);
    let (ty, b) = match p_ident(s, a) {
        PRes::Read(t, b) => (Some(ValueModel::String(t)), b),
        PRes::Fail(_) => (None, a),
    };
    let c = skip_ws(s, b);
    if lit_at(s, p, "("@) && lit_at(s, c, ")"@) {
        PRes::Read(
            DetailModel { op: KdlQueryAttributeOp::Equal, accessor: AccessorModel::Annotation, value: ty },
            c + 1,
        )
    } else {
        PRes::Fail(backtrack())
    }
}

pub open spec fn scope_detail() -> DetailModel {
    DetailModel { op: KdlQueryAttributeOp::Equal, accessor: AccessorModel::Scope, value: None }
}

/// After any annotation `ann`: an optional name, then attribute matchers; at
/// least one matcher in all.
pub open spec fn p_named_matchers(s: Seq<char>, ann: Seq<DetailModel>, p2: int) -> PRes<Seq<DetailModel>> {
    let (named, p3) = match p_ident(s, p2) {
        PRes::Read(name, p3) => (
            ann.push(
                DetailModel {
                    op: KdlQueryAttributeOp::Equal,
                    accessor: AccessorModel::Node,
                    value: Some(ValueModel::String(name)),
                },
            ),
            p3,
        ),
        PRes::Fail(_) => (ann, p2),
    };
    if p_annotation(s, p3) is Read {
        PRes::Fail(
            cut_err(
                "Type annotation must come before node name"@,
                "type annotation"@,
                "Syntax: (type)node[attr=value]"@,
                p3,
                1,
            ),
        )
    } else {
        match p_attrs(s, p3) {
            PRes::Read(attrs, p4) => {
                let all = named + attrs;
                if all.len() == 0 {
                    PRes::Fail(
                        QErr {
                            cut: false,
                            message: Some("Empty node matcher"@),
                            label: Some("node matcher"@),
                            help: Some("Provide at least a node name or attribute matcher"@),
                            offset: p4,
                            len: 0,
                        },
                    )
                } else {
                    PRes::Read(all, p4)
                }
            },
            PRes::Fail(e) => PRes::Fail(e),
        }
    }
}

/// The matchers of one segment: `scope()` alone (first segment only), or an
/// optional annotation, an optional name and attribute matchers, at least one of them.
pub open spec fn p_matchers(s: Seq<char>, p: int, is_scope: bool) -> PRes<Seq<DetailModel>> {
    let p1 = skip_ws(s, p);
    let sc = skip_ws(s, p1 + 6);
    if lit_at(s, p1, "scope("@) && lit_at(s, sc, ")"@) {
        if is_scope {
            PRes::Read(seq![scope_detail()], sc + 1)
        } else {
            PRes::Fail(
                cut_err(
                    "scope() must be the first item in a selector"@,
                    "scope()"@,
                    "Move scope() to the beginning"@,
                    p1,
                    7,
                ),
            )
        }
    } else {
        match p_annotation(s, p1) {
            PRes::Read(d, p2) => match p_annotation(s, p2) {
                PRes::Read(_, p2b) => PRes::Fail(
                    cut_err(
                        "Only one type annotation per selector"@,
                        "type annotation"@,
                        "Syntax: (type)node[attr=value]"@,
                        p2b,
                        1,
                    ),
                ),
                PRes::Fail(_) => p_named_matchers(s, seq![d], p2),
            },
            PRes::Fail(_) => p_named_matchers(s, Seq::empty(), p1),
        }
    }
}

/// A combinator between segments.
pub open spec fn p_comb(s: Seq<char>, p: int) -> Option<(KdlSegmentCombinator, int)> {
    if lit_at(s, p, ">>"@) {
        Some((KdlSegmentCombinator::Descendant, p + 2))
    } else if lit_at(s, p, ">"@) {
        Some((KdlSegmentCombinator::Child, p + 1))
    } else if lit_at(s, p, "++"@) {
        Some((KdlSegmentCombinator::Sibling, p + 2))
    } else if lit_at(s, p, "+"@) {
        Some((KdlSegmentCombinator::Neighbor, p + 1))
    } else {
        None
    }
}

/// A selector: segments joined by combinators.
pub open spec fn p_selector(s: Seq<char>, p: int, is_scope: bool) -> PRes<Seq<SegmentModel>>
    decreases s.len() - p,
{
    match p_matchers(s, skip_ws(s, p), is_scope) {
        PRes::Read(ms, p2) => {
            let p3 = skip_ws(s, p2);
            match p_comb(s, p3) {
                None => PRes::Read(seq![SegmentModel { op: None, matchers: ms }], skip_ws(s, p3)),
                Some((c, p4)) => if p < p4 <= s.len() {
                    match p_selector(s, p4, false) {
                        PRes::Read(rest, p5) => PRes::Read(
                            seq![SegmentModel { op: Some(c), matchers: ms }] + rest,
                            p5,
                        ),
                        PRes::Fail(e) => PRes::Fail(e),
                    }
                } else {
                    PRes::Fail(backtrack())
                },
            }
        },
        PRes::Fail(e) => PRes::Fail(e),
    }
}

/// The selectors after the first, each after a comma; a selector that fails
/// recoverably ends the list before its comma.
pub open spec fn p_more(s: Seq<char>, p: int) -> PRes<Seq<Seq<SegmentModel>>>
    decreases s.len() - p,
{
    let a = skip_ws(s, p);
    if lit_at(s, a, ","@) {
        match p_selector(s, skip_ws(s, a + 1), true) {
            PRes::Read(sel, q) => if p < q <= s.len() {
                match p_more(s, q) {
                    PRes::Read(rest, r) => PRes::Read(seq![sel] + rest, r),
                    PRes::Fail(e) => PRes::Fail(e),
                }
            } else {
                PRes::Fail(backtrack())
            },
            PRes::Fail(e) => if e.cut {
                PRes::Fail(e)
            } else {
                PRes::Read(Seq::empty(), p)
            },
        }
    } else {
        PRes::Read(Seq::empty(), p)
    }
}

/// A query: one or more selectors separated by commas.
pub open spec fn p_query(s: Seq<char>) -> PRes<Seq<Seq<SegmentModel>>> {
    match p_selector(s, 0, true) {
        PRes::Read(first, q) => match p_more(s, q) {
            PRes::Read(rest, r) => PRes::Read(seq![first] + rest, r),
            PRes::Fail(e) => PRes::Fail(e),
        },
        PRes::Fail(e) => PRes::Fail(e),
    }
}

pub open spec fn default_query_help() -> Seq<char> {
    "The syntax for queries is '(type)nodename[prop=value], another'."@
}

/// What reading a whole text as a query gives: the query, or the diagnostic of
/// the failure, or of content left over after a query.
pub open spec fn query_of(s: Seq<char>) -> Result<Seq<Seq<SegmentModel>>, DiagnosticModel> {
    match p_query(s) {
        PRes::Read(q, p) => {
            let e = skip_ws(s, p);
            if e < s.len() {
                Err(
                    DiagnosticModel {
                        span: SourceSpan { offset: e as usize, len: 1 },
                        message: Some("Unexpected content after query"@),
                        label: Some("unexpected"@),
                        help: Some("Remove trailing content or check query syntax"@),
                        severity: Severity::Error,
                    },
                )
            } else {
                Ok(q)
            }
        },
        PRes::Fail(e) => Err(
            DiagnosticModel {
                span: SourceSpan {
                    offset: e.offset as usize,
                    len: if e.len >= 1 { e.len as usize } else { 1 },
                },
                message: e.message,
                label: e.label,
                help: match e.help {
                    Some(h) => Some(h),
                    None => Some(default_query_help()),
                },
                severity: Severity::Error,
            },
        ),
    }
}


/// A failure to read a query, as the parser reports it.
#[derive(Debug)]
pub struct QueryParseError {
    pub cut: bool,
    pub message: Option<String>,
    pub label: Option<String>,
    pub help: Option<String>,
    pub offset: usize,
    pub len: usize,
}


impl View for QueryParseError {
    type V = QErr;

    open spec fn view(&self) -> QErr {
        QErr {
            cut: self.cut,
            message: opt_text(self.message),
            label: opt_text(self.label),
            help: opt_text(self.help),
            offset: self.offset as int,
            len: self.len as int,
        }
    }
}

/// What an executable read gives, as a grammar result.
pub open spec fn pres<T, V>(r: Result<(T, usize), QueryParseError>, f: spec_fn(T) -> V) -> PRes<V> {
    match r {
        Ok((x, q)) => PRes::Read(f(x), q as int),
        Err(e) => PRes::Fail(e@),
    }
}

pub open spec fn within<T>(r: Result<(T, usize), QueryParseError>, len: nat) -> bool {
    r matches Ok((_, q)) ==> q <= len
}

fn plain_failure() -> (e: QueryParseError)
    ensures
        e@ == backtrack(),
{
    QueryParseError { cut: false, message: None, label: None, help: None, offset: 0, len: 0 }
}

fn committed(msg: &str, label: &str, help: &str, offset: usize, len: usize) -> (e: QueryParseError)
    ensures
        e@ == cut_err(msg@, label@, help@, offset as int, len as int),
{
    QueryParseError {
        cut: true,
        message: Some(string_of(msg)),
        label: Some(string_of(label)),
        help: Some(string_of(help)),
        offset,
        len,
    }
}

fn q_ws_c(c: char) -> (r: bool)
    ensures
        r == q_ws(c),
{
    kdl_space_c(c) || c == '\r' || c == '\n' || c == '\u{0085}' || c == '\u{000C}' || c == '\u{2028}'
        || c == '\u{2029}'
}

fn skip_ws_c(s: &Vec<char>, p: usize) -> (r: usize)
    requires
        p <= s@.len(),
    ensures
        r as int == skip_ws(s@, p as int),
        p <= r <= s@.len(),
{
    let mut i = p;
    while i < s.len() && q_ws_c(s[i])
        invariant
            p <= i <= s@.len(),
            skip_ws(s@, p as int) == skip_ws(s@, i as int),
        decreases s.len() - i,
    {
        i += 1;
    }
    i
}

fn lit_at_c(s: &Vec<char>, p: usize, t: &str) -> (r: bool)
    requires
        p <= s@.len(),
    ensures
        r == lit_at(s@, p as int, t@),
        s@.len() <= usize::MAX,
{
    let tc = chars_of(t);
    let n = s.len();
    if tc.len() > n - p {
        return false;
    }
    let mut i: usize = 0;
    while i < tc.len()
        invariant
            i <= tc@.len(),
            tc@ == t@,
            n == s@.len(),
            p <= s@.len(),
            p + tc@.len() <= s@.len(),
            forall|j: int| 0 <= j < i ==> s@[p + j] == tc@[j],
        decreases tc.len() - i,
    {
        assert(p + i < s@.len());
        if s[p + i] != tc[i] {
            assert(s@.subrange(p as int, p + tc@.len())[i as int] != t@[i as int]);
            return false;
        }
        i += 1;
    }
    assert(s@.subrange(p as int, p + tc@.len()) =~= t@);
    true
}

fn bare_char_c(c: char) -> (r: bool)
    ensures
        r == bare_char(c),
{
    !unicode_whitespace_c(c) && c != '(' && c != ')' && c != '[' && c != ']' && c != '{' && c != '}'
        && c != ',' && c != '=' && c != '>' && c != '<' && c != '!' && c != '^' && c != '$' && c
        != '*' && c != '"' && c != '\''
}

fn bare_end_c(s: &Vec<char>, p: usize) -> (r: usize)
    requires
        p <= s@.len(),
    ensures
        r as int == bare_end(s@, p as int),
        p <= r <= s@.len(),
{
    let mut i = p;
    while i < s.len() && bare_char_c(s[i])
        invariant
            p <= i <= s@.len(),
            bare_end(s@, p as int) == bare_end(s@, i as int),
        decreases s.len() - i,
    {
        i += 1;
    }
    i
}

fn quote_end_c(s: &Vec<char>, p: usize) -> (r: usize)
    requires
        p <= s@.len(),
    ensures
        r as int == quote_end(s@, p as int),
        p <= r <= s@.len(),
{
    let mut i = p;
    while i < s.len() && s[i] != '"'
        invariant
            p <= i <= s@.len(),
            quote_end(s@, p as int) == quote_end(s@, i as int),
        decreases s.len() - i,
    {
        i += 1;
    }
    i
}

fn digit_end_c(s: &Vec<char>, p: usize) -> (r: usize)
    requires
        p <= s@.len(),
    ensures
        r as int == digit_end(s@, p as int),
        p <= r <= s@.len(),
        forall|j: int| p <= j < r ==> is_digit(#[trigger] s@[j]),
{
    let mut i = p;
    while i < s.len() && '0' <= s[i] && s[i] <= '9'
        invariant
            p <= i <= s@.len(),
            digit_end(s@, p as int) == digit_end(s@, i as int),
            forall|j: int| p <= j < i ==> is_digit(#[trigger] s@[j]),
        decreases s.len() - i,
    {
        i += 1;
    }
    i
}

fn num_end_c(s: &Vec<char>, p: usize) -> (r: usize)
    requires
        p <= s@.len(),
    ensures
        r as int == num_end(s@, p as int),
        p <= r <= s@.len(),
        forall|j: int| p <= j < r ==> is_digit(#[trigger] s@[j]) || s@[j] == '.',
{
    let mut i = p;
    while i < s.len() && (('0' <= s[i] && s[i] <= '9') || s[i] == '.')
        invariant
            p <= i <= s@.len(),
            num_end(s@, p as int) == num_end(s@, i as int),
            forall|j: int| p <= j < i ==> is_digit(#[trigger] s@[j]) || s@[j] == '.',
        decreases s.len() - i,
    {
        i += 1;
    }
    i
}

/// The characters of `s` from `a` to `b`, as a string.
pub fn text_between(s: &Vec<char>, a: usize, b: usize) -> (r: String)
    requires
        a <= b <= s@.len(),
    ensures
        r@ == s@.subrange(a as int, b as int),
{
    let mut t = String::new();
    let mut i = a;
    while i < b
        invariant
            a <= i <= b,
            b <= s@.len(),
            t@ == s@.subrange(a as int, i as int),
        decreases b - i,
    {
        crate::text::push_char(&mut t, s[i]);
        i += 1;
        assert(t@ =~= s@.subrange(a as int, i as int));
    }
    t
}

/// The value of the decimal digits `d[a..e]`, where it is at most `bound`.
pub fn digits_value_upto(d: &Vec<char>, a: usize, e: usize, bound: u128) -> (r: Option<u128>)
    requires
        a <= e <= d@.len(),
        forall|j: int| a <= j < e ==> is_digit(#[trigger] d@[j]),
    ensures
        r matches Some(v) ==> v as nat == digits_value(d@.subrange(a as int, e as int)) && v <= bound,
        r is None ==> digits_value(d@.subrange(a as int, e as int)) > bound,
{
    let ghost t = d@.subrange(a as int, e as int);
    let mut acc: u128 = 0;
    let mut i = a;
    assert(t.take(0) =~= Seq::<char>::empty());
    while i < e
        invariant
            a <= i <= e,
            e <= d@.len(),
            t == d@.subrange(a as int, e as int),
            forall|j: int| a <= j < e ==> is_digit(#[trigger] d@[j]),
            acc as nat == digits_value(t.take(i - a)),
            acc <= bound,
        decreases e - i,
    {
        assert(t.take(i - a + 1).drop_last() =~= t.take(i - a));
        assert(t.take(i - a + 1).last() == d@[i as int]);
        assert(is_digit(d@[i as int]));
        let dig: u128 = (d[i] as u32 - '0' as u32) as u128;
        let step = match acc.checked_mul(10) {
            Some(x) => x.checked_add(dig),
            None => None,
        };
        match step {
            Some(next) => {
                if next > bound {
                    proof {
                        assert(forall|j: int| 0 <= j < t.len() ==> is_digit(#[trigger] t[j]));
                        crate::schema_v2::formats::lemma_digits_value_prefix(t, i - a + 1);
                    }
                    return None;
                }
                acc = next;
            },
            None => {
                proof {
                    assert(forall|j: int| 0 <= j < t.len() ==> is_digit(#[trigger] t[j]));
                    crate::schema_v2::formats::lemma_digits_value_prefix(t, i - a + 1);
                }
                return None;
            },
        }
        i += 1;
    }
    assert(t.take(i - a) =~= t);
    Some(acc)
}

fn ident_c(s: &Vec<char>, p: usize) -> (r: Result<(String, usize), QueryParseError>)
    requires
        p <= s@.len(),
    ensures
        pres(r, |x: String| x@) == p_ident(s@, p as int),
        within(r, s@.len()),
{
    if p < s.len() && s[p] == '"' {
        let e = quote_end_c(s, p + 1);
        if e < s.len() {
            Ok((text_between(s, p + 1, e), e + 1))
        } else {
            Err(plain_failure())
        }
    } else {
        let e = bare_end_c(s, p);
        if e > p {
            Ok((text_between(s, p, e), e))
        } else {
            Err(plain_failure())
        }
    }
}

fn index_c(s: &Vec<char>, p: usize) -> (r: Result<(usize, usize), QueryParseError>)
    requires
        p <= s@.len(),
    ensures
        pres(r, |x: usize| x) == p_index(s@, p as int),
        within(r, s@.len()),
{
    let e = digit_end_c(s, p);
    if e == p {
        return Err(plain_failure());
    }
    match digits_value_upto(s, p, e, usize::MAX as u128) {
        Some(v) => Ok((v as usize, e)),
        None => Err(plain_failure()),
    }
}

/// The position of the first `.` in `t`, or its length.
fn dot_index_c(t: &Vec<char>) -> (r: usize)
    ensures
        r as int == dot_index(t@),
        r <= t@.len(),
        forall|j: int| 0 <= j < r ==> t@[j] != '.',
        r < t@.len() ==> t@[r as int] == '.',
{
    let mut i: usize = 0;
    assert(t@.skip(0) =~= t@);
    while i < t.len() && t[i] != '.'
        invariant
            i <= t@.len(),
            dot_index(t@) == i + dot_index(t@.skip(i as int)),
            forall|j: int| 0 <= j < i ==> t@[j] != '.',
        decreases t.len() - i,
    {
        assert(t@.skip(i as int).drop_first() =~= t@.skip(i + 1));
        i += 1;
    }
    i
}

fn decimal_c(t: &Vec<char>, neg: bool) -> (r: Option<KdlFloat>)
    requires
        forall|j: int| 0 <= j < t@.len() ==> is_digit(#[trigger] t@[j]) || t@[j] == '.',
    ensures
        r == decimal_of(t@, neg),
{
    let k = dot_index_c(t);
    if k >= t.len() {
        return None;
    }
    let mut digits: Vec<char> = Vec::new();
    let mut i: usize = 0;
    while i < k
        invariant
            i <= k < t@.len(),
            digits@ == t@.take(i as int),
        decreases k - i,
    {
        digits.push(t[i]);
        i += 1;
        assert(digits@ =~= t@.take(i as int));
    }
    let mut j: usize = k + 1;
    assert(t@.skip(k + 1).take(0) =~= Seq::<char>::empty());
    while j < t.len()
        invariant
            k < j <= t@.len(),
            k as int == dot_index(t@),
            digits@ == t@.take(k as int) + t@.skip(k + 1).take(j - k - 1),
            forall|q: int| k + 1 <= q < j ==> #[trigger] t@[q] != '.',
        decreases t.len() - j,
    {
        if t[j] == '.' {
            assert(t@.skip(k + 1)[j - k - 1] == '.');
            assert(t@.skip(k + 1).contains('.'));
            assert(decimal_of(t@, neg) is None);
            return None;
        }
        digits.push(t[j]);
        j += 1;
        assert(digits@ =~= t@.take(k as int) + t@.skip(k + 1).take(j - k - 1));
    }
    assert(t@.skip(k + 1).take(j - k - 1) =~= t@.skip(k + 1));
    assert(!t@.skip(k + 1).contains('.'));
    let ghost dg = t@.take(k as int) + t@.skip(k + 1);
    assert(digits@ == dg);
    if digits.len() == 0 {
        return None;
    }
    if t.len() > 2147483647 {
        return None;
    }
    assert forall|q: int| 0 <= q < digits@.len() implies is_digit(#[trigger] digits@[q]) by {
        if q < k {
            assert(digits@[q] == t@[q]);
        } else {
            assert(digits@[q] == t@[q + 1]);
        }
    }
    let bound: u128 = if neg { 0x8000_0000_0000_0000_0000_0000_0000_0000 } else { 0x7fff_ffff_ffff_ffff_ffff_ffff_ffff_ffff };
    assert(digits@.subrange(0, digits@.len() as int) =~= digits@);
    match digits_value_upto(&digits, 0, digits.len(), bound) {
        None => None,
        Some(mag) => {
            let m: i128 = if neg {
                if mag == 0x8000_0000_0000_0000_0000_0000_0000_0000 {
                    i128::MIN
                } else {
                    -(mag as i128)
                }
            } else {
                mag as i128
            };
            let ex: i32 = -((t.len() - k - 1) as i32);
            Some(KdlFloat::Decimal { mantissa: m, exponent: ex })
        },
    }
}


fn number_c(s: &Vec<char>, p: usize) -> (r: Result<(KdlValue, usize), QueryParseError>)
    requires
        p <= s@.len(),
    ensures
        pres(r, |x: KdlValue| x@) == p_number(s@, p as int),
        within(r, s@.len()),
{
    let signed = p < s.len() && (s[p] == '+' || s[p] == '-');
    let q = if signed { p + 1 } else { p };
    let e = num_end_c(s, q);
    let neg = signed && s[p] == '-';
    if e == q {
        return Err(plain_failure());
    }
    let body: Vec<char> = {
        let mut b: Vec<char> = Vec::new();
        let mut i = q;
        while i < e
            invariant
                q <= i <= e,
                e <= s@.len(),
                b@ == s@.subrange(q as int, i as int),
            decreases e - i,
        {
            b.push(s[i]);
            i += 1;
            assert(b@ =~= s@.subrange(q as int, i as int));
        }
        b
    };
    let mut has_dot = false;
    let mut i: usize = 0;
    while i < body.len() && !has_dot
        invariant
            i <= body@.len(),
            has_dot ==> body@.contains('.'),
            !has_dot ==> forall|j: int| 0 <= j < i ==> body@[j] != '.',
        decreases body.len() - i,
    {
        if body[i] == '.' {
            has_dot = true;
        }
        i += 1;
    }
    if has_dot {
        assert forall|j: int| 0 <= j < body@.len() implies is_digit(#[trigger] body@[j]) || body@[j] == '.' by {
            assert(body@[j] == s@[q + j]);
        }
        match decimal_c(&body, neg) {
            Some(f) => Ok((KdlValue::Float(f), e)),
            None => Err(plain_failure()),
        }
    } else {
        assert(!body@.contains('.'));
        assert forall|j: int| q <= j < e implies is_digit(#[trigger] s@[j]) by {
            assert(body@[j - q] == s@[j]);
        }
        let bound: u128 = if neg { 0x8000_0000_0000_0000_0000_0000_0000_0000 } else { 0x7fff_ffff_ffff_ffff_ffff_ffff_ffff_ffff };
        match digits_value_upto(s, q, e, bound) {
            Some(mag) => {
                let v: i128 = if neg {
                    if mag == 0x8000_0000_0000_0000_0000_0000_0000_0000 {
                        i128::MIN
                    } else {
                        -(mag as i128)
                    }
                } else {
                    mag as i128
                };
                Ok((KdlValue::Integer(v), e))
            },
            None => Err(plain_failure()),
        }
    }
}

fn value_c(s: &Vec<char>, p: usize) -> (r: Result<(KdlValue, usize), QueryParseError>)
    requires
        p <= s@.len(),
    ensures
        pres(r, |x: KdlValue| x@) == p_value(s@, p as int),
        within(r, s@.len()),
{
    proof {
        reveal_strlit("#-inf");
        reveal_strlit("#false");
        reveal_strlit("#inf");
        reveal_strlit("#nan");
        reveal_strlit("#null");
        reveal_strlit("#true");
        reveal_strlit("false");
        reveal_strlit("null");
        reveal_strlit("true");
    }
    if lit_at_c(s, p, "#true") {
        Ok((KdlValue::Bool(true), p + 5))
    } else if lit_at_c(s, p, "#false") {
        Ok((KdlValue::Bool(false), p + 6))
    } else if lit_at_c(s, p, "true") {
        Ok((KdlValue::Bool(true), p + 4))
    } else if lit_at_c(s, p, "false") {
        Ok((KdlValue::Bool(false), p + 5))
    } else if lit_at_c(s, p, "#null") {
        Ok((KdlValue::Null, p + 5))
    } else if lit_at_c(s, p, "null") {
        Ok((KdlValue::Null, p + 4))
    } else if lit_at_c(s, p, "#inf") {
        Ok((KdlValue::Float(KdlFloat::Infinity), p + 4))
    } else if lit_at_c(s, p, "#-inf") {
        Ok((KdlValue::Float(KdlFloat::NegInfinity), p + 5))
    } else if lit_at_c(s, p, "#nan") {
        Ok((KdlValue::Float(KdlFloat::NaN), p + 4))
    } else if p < s.len() && s[p] == '"' && quote_end_c(s, p + 1) < s.len() {
        let e = quote_end_c(s, p + 1);
        Ok((KdlValue::String(text_between(s, p + 1, e)), e + 1))
    } else {
        number_c(s, p)
    }
}

fn type_accessor_c(s: &Vec<char>, p: usize) -> (r: Result<(KdlQueryMatcherAccessor, usize), QueryParseError>)
    requires
        p <= s@.len(),
    ensures
        pres(r, |x: KdlQueryMatcherAccessor| x@) == p_type_accessor(s@, p as int),
        within(r, s@.len()),
{
    proof {
        reveal_strlit("(");
        reveal_strlit(")");
        reveal_strlit("type");
    }
    if !lit_at_c(s, p, "type") {
        return Err(plain_failure());
    }
    let a = skip_ws_c(s, p + 4);
    if !lit_at_c(s, a, "(") {
        return Err(plain_failure());
    }
    let b = skip_ws_c(s, a + 1);
    if lit_at_c(s, b, ")") {
        Ok((KdlQueryMatcherAccessor::Annotation, b + 1))
    } else {
        Err(plain_failure())
    }
}

fn arg_accessor_c(s: &Vec<char>, p: usize) -> (r: Result<(KdlQueryMatcherAccessor, usize), QueryParseError>)
    requires
        p <= s@.len(),
    ensures
        pres(r, |x: KdlQueryMatcherAccessor| x@) == p_arg_accessor(s@, p as int),
        within(r, s@.len()),
{
    proof {
        reveal_strlit(")");
        reveal_strlit("arg(");
    }
    if !lit_at_c(s, p, "arg(") {
        return Err(plain_failure());
    }
    let a = skip_ws_c(s, p + 4);
    let (idx, b) = match index_c(s, a) {
        Ok((i, b)) => (Some(i), b),
        Err(_) => (None, a),
    };
    let c = skip_ws_c(s, b);
    if lit_at_c(s, c, ")") {
        Ok((KdlQueryMatcherAccessor::Arg(idx), c + 1))
    } else {
        Err(plain_failure())
    }
}

fn prop_accessor_c(s: &Vec<char>, p: usize) -> (r: Result<(KdlQueryMatcherAccessor, usize), QueryParseError>)
    requires
        p <= s@.len(),
    ensures
        pres(r, |x: KdlQueryMatcherAccessor| x@) == p_prop_accessor(s@, p as int),
        within(r, s@.len()),
{
    proof {
        reveal_strlit(")");
        reveal_strlit("prop(");
    }
    if !lit_at_c(s, p, "prop(") {
        return Err(plain_failure());
    }
    let a = skip_ws_c(s, p + 5);
    match ident_c(s, a) {
        Ok((name, b)) => {
            let c = skip_ws_c(s, b);
            if lit_at_c(s, c, ")") {
                Ok((KdlQueryMatcherAccessor::Prop(name), c + 1))
            } else {
                Err(plain_failure())
            }
        },
        Err(_) => Err(plain_failure()),
    }
}

fn prop_name_accessor_c(s: &Vec<char>, p: usize) -> (r: Result<(KdlQueryMatcherAccessor, usize), QueryParseError>)
    requires
        p <= s@.len(),
    ensures
        pres(r, |x: KdlQueryMatcherAccessor| x@) == p_prop_name_accessor(s@, p as int),
        within(r, s@.len()),
{
    proof {
        reveal_strlit("(");
    }
    match ident_c(s, p) {
        Ok((name, b)) => if lit_at_c(s, b, "(") {
            Err(plain_failure())
        } else {
            Ok((KdlQueryMatcherAccessor::Prop(name), b))
        },
        Err(_) => Err(plain_failure()),
    }
}

fn accessor_c(s: &Vec<char>, p: usize) -> (r: Result<(KdlQueryMatcherAccessor, usize), QueryParseError>)
    requires
        p <= s@.len(),
    ensures
        pres(r, |x: KdlQueryMatcherAccessor| x@) == p_accessor(s@, p as int),
        within(r, s@.len()),
{
    match type_accessor_c(s, p) {
        Ok(x) => Ok(x),
        Err(_) => match arg_accessor_c(s, p) {
            Ok(x) => Ok(x),
            Err(_) => match prop_accessor_c(s, p) {
                Ok(x) => Ok(x),
                Err(_) => prop_name_accessor_c(s, p),
            },
        },
    }
}

fn op_c(s: &Vec<char>, p: usize) -> (r: Option<(KdlQueryAttributeOp, usize)>)
    requires
        p <= s@.len(),
    ensures
        match r {
            Some((op, q)) => p_op(s@, p as int) == Some((op, q as int)) && q <= s@.len(),
            None => p_op(s@, p as int) is None,
        },
{
    proof {
        reveal_strlit("!=");
        reveal_strlit("$=");
        reveal_strlit("*=");
        reveal_strlit("<");
        reveal_strlit("<=");
        reveal_strlit("=");
        reveal_strlit(">");
        reveal_strlit(">=");
        reveal_strlit("^=");
    }
    if lit_at_c(s, p, "!=") {
        Some((KdlQueryAttributeOp::NotEqual, p + 2))
    } else if lit_at_c(s, p, ">=") {
        Some((KdlQueryAttributeOp::Gte, p + 2))
    } else if lit_at_c(s, p, "<=") {
        Some((KdlQueryAttributeOp::Lte, p + 2))
    } else if lit_at_c(s, p, "^=") {
        Some((KdlQueryAttributeOp::StartsWith, p + 2))
    } else if lit_at_c(s, p, "$=") {
        Some((KdlQueryAttributeOp::EndsWith, p + 2))
    } else if lit_at_c(s, p, "*=") {
        Some((KdlQueryAttributeOp::Contains, p + 2))
    } else if lit_at_c(s, p, "=") {
        Some((KdlQueryAttributeOp::Equal, p + 1))
    } else if lit_at_c(s, p, ">") {
        Some((KdlQueryAttributeOp::Gt, p + 1))
    } else if lit_at_c(s, p, "<") {
        Some((KdlQueryAttributeOp::Lt, p + 1))
    } else {
        None
    }
}


fn is_string_op_c(op: KdlQueryAttributeOp) -> (r: bool)
    ensures
        r == is_string_op(op),
{
    match op {
        KdlQueryAttributeOp::StartsWith => true,
        KdlQueryAttributeOp::EndsWith => true,
        KdlQueryAttributeOp::Contains => true,
        _ => false,
    }
}

fn attr_inner_c(s: &Vec<char>, p: usize) -> (r: Result<(KdlQueryMatcherDetails, usize), QueryParseError>)
    requires
        p <= s@.len(),
    ensures
        pres(r, |x: KdlQueryMatcherDetails| x@) == p_attr_inner(s@, p as int),
        within(r, s@.len()),
{
    match accessor_c(s, p) {
        Ok((xsr, p1)) => {
            let p2 = skip_ws_c(s, p1);
            match op_c(s, p2) {
                Some((op, p3)) => {
                    let p4 = skip_ws_c(s, p3);
                    match value_c(s, p4) {
                        Ok((v, p5)) => {
                            let is_str = match &v {
                                KdlValue::String(_) => true,
                                _ => false,
                            };
                            if is_string_op_c(op) && !is_str {
                                Err(
                                    committed(
                                        "String operators require string values",
                                        "non-string value",
                                        "Use ^=, $=, *= only with strings",
                                        p5,
                                        1,
                                    ),
                                )
                            } else {
                                Ok((KdlQueryMatcherDetails { op, accessor: xsr, value: Some(v) }, p5))
                            }
                        },
                        Err(_) => Err(
                            committed(
                                "Expected value after operator",
                                "operator value",
                                "Provide a valid KDL value",
                                p4,
                                0,
                            ),
                        ),
                    }
                },
                None => {
                    let p3 = skip_ws_c(s, p2);
                    Ok((KdlQueryMatcherDetails { op: KdlQueryAttributeOp::Equal, accessor: xsr, value: None }, p3))
                },
            }
        },
        Err(_) => Ok(
            (
                KdlQueryMatcherDetails {
                    op: KdlQueryAttributeOp::Equal,
                    accessor: KdlQueryMatcherAccessor::Node,
                    value: None,
                },
                p,
            ),
        ),
    }
}

fn attr_c(s: &Vec<char>, p: usize) -> (r: Result<(KdlQueryMatcherDetails, usize), QueryParseError>)
    requires
        p <= s@.len(),
    ensures
        pres(r, |x: KdlQueryMatcherDetails| x@) == p_attr(s@, p as int),
        within(r, s@.len()),
{
    proof {
        reveal_strlit("[");
        reveal_strlit("]");
    }
    if !lit_at_c(s, p, "[") {
        return Err(plain_failure());
    }
    let a = skip_ws_c(s, p + 1);
    match attr_inner_c(s, a) {
        Ok((d, p2)) => {
            let p3 = skip_ws_c(s, p2);
            if lit_at_c(s, p3, "]") {
                Ok((d, p3 + 1))
            } else {
                Err(
                    QueryParseError {
                        cut: true,
                        message: None,
                        label: Some(string_of("closing ']'")),
                        help: None,
                        offset: p3,
                        len: 0,
                    },
                )
            }
        },
        Err(e) => Err(e),
    }
}

fn attrs_c(s: &Vec<char>, p: usize) -> (r: Result<(Vec<KdlQueryMatcherDetails>, usize), QueryParseError>)
    requires
        p <= s@.len(),
    ensures
        pres(r, |x: Vec<KdlQueryMatcherDetails>| details_view(x@)) == p_attrs(s@, p as int),
        within(r, s@.len()),
    decreases s@.len() - p,
{
    match attr_c(s, p) {
        Ok((d, p1)) => if p < p1 {
            match attrs_c(s, p1) {
                Ok((ds, p2)) => {
                    let mut out: Vec<KdlQueryMatcherDetails> = Vec::new();
                    let ghost dv = d@;
                    out.push(d);
                    let mut rest = ds;
                    let ghost rv = details_view(rest@);
                    out.append(&mut rest);
                    assert(details_view(out@) =~= seq![dv] + rv);
                    Ok((out, p2))
                },
                Err(e) => Err(e),
            }
        } else {
            Err(plain_failure())
        },
        Err(e) => if e.cut {
            Err(e)
        } else {
            let v: Vec<KdlQueryMatcherDetails> = Vec::new();
            assert(details_view(v@) =~= Seq::<DetailModel>::empty());
            Ok((v, p))
        },
    }
}

fn annotation_c(s: &Vec<char>, p: usize) -> (r: Result<(KdlQueryMatcherDetails, usize), QueryParseError>)
    requires
        p <= s@.len(),
    ensures
        pres(r, |x: KdlQueryMatcherDetails| x@) == p_annotation(s@, p as int),
        within(r, s@.len()),
{
    proof {
        reveal_strlit("(");
        reveal_strlit(")");
    }
    if !lit_at_c(s, p, "(") {
        return Err(plain_failure());
    }
    let a = skip_ws_c(s, p + 1);
    let (ty, b) = match ident_c(s, a) {
        Ok((t, b)) => (Some(KdlValue::String(t)), b),
        Err(_) => (None, a),
    };
    let c = skip_ws_c(s, b);
    if lit_at_c(s, c, ")") {
        Ok(
            (
                KdlQueryMatcherDetails {
                    op: KdlQueryAttributeOp::Equal,
                    accessor: KdlQueryMatcherAccessor::Annotation,
                    value: ty,
                },
                c + 1,
            ),
        )
    } else {
        Err(plain_failure())
    }
}


fn named_matchers_c(s: &Vec<char>, ann: Vec<KdlQueryMatcherDetails>, p2: usize) -> (r: Result<(Vec<KdlQueryMatcherDetails>, usize), QueryParseError>)
    requires
        p2 <= s@.len(),
    ensures
        pres(r, |x: Vec<KdlQueryMatcherDetails>| details_view(x@)) == p_named_matchers(
            s@,
            details_view(ann@),
            p2 as int,
        ),
        within(r, s@.len()),
{
    let mut named = ann;
    let ghost av = details_view(named@);
    let p3 = match ident_c(s, p2) {
        Ok((name, p3)) => {
            let d = KdlQueryMatcherDetails {
                op: KdlQueryAttributeOp::Equal,
                accessor: KdlQueryMatcherAccessor::Node,
                value: Some(KdlValue::String(name)),
            };
            let ghost dv = d@;
            named.push(d);
            assert(details_view(named@) =~= av.push(dv));
            p3
        },
        Err(_) => p2,
    };
    if annotation_c(s, p3).is_ok() {
        return Err(
            committed(
                "Type annotation must come before node name",
                "type annotation",
                "Syntax: (type)node[attr=value]",
                p3,
                1,
            ),
        );
    }
    match attrs_c(s, p3) {
        Ok((attrs, p4)) => {
            let ghost nv = details_view(named@);
            let ghost tv = details_view(attrs@);
            let mut all = named;
            let mut more = attrs;
            all.append(&mut more);
            assert(details_view(all@) =~= nv + tv);
            if all.len() == 0 {
                Err(
                    QueryParseError {
                        cut: false,
                        message: Some(string_of("Empty node matcher")),
                        label: Some(string_of("node matcher")),
                        help: Some(string_of("Provide at least a node name or attribute matcher")),
                        offset: p4,
                        len: 0,
                    },
                )
            } else {
                Ok((all, p4))
            }
        },
        Err(e) => Err(e),
    }
}

fn matchers_c(s: &Vec<char>, p: usize, is_scope: bool) -> (r: Result<(Vec<KdlQueryMatcherDetails>, usize), QueryParseError>)
    requires
        p <= s@.len(),
    ensures
        pres(r, |x: Vec<KdlQueryMatcherDetails>| details_view(x@)) == p_matchers(s@, p as int, is_scope),
        within(r, s@.len()),
{
    proof {
        reveal_strlit("scope(");
        reveal_strlit(")");
    }
    let p1 = skip_ws_c(s, p);
    if lit_at_c(s, p1, "scope(") {
        let sc = skip_ws_c(s, p1 + 6);
        if lit_at_c(s, sc, ")") {
            if is_scope {
                let mut v: Vec<KdlQueryMatcherDetails> = Vec::new();
                v.push(
                    KdlQueryMatcherDetails {
                        op: KdlQueryAttributeOp::Equal,
                        accessor: KdlQueryMatcherAccessor::Scope,
                        value: None,
                    },
                );
                assert(details_view(v@) =~= seq![scope_detail()]);
                return Ok((v, sc + 1));
            } else {
                return Err(
                    committed(
                        "scope() must be the first item in a selector",
                        "scope()",
                        "Move scope() to the beginning",
                        p1,
                        7,
                    ),
                );
            }
        }
    }
    match annotation_c(s, p1) {
        Ok((d, p2)) => match annotation_c(s, p2) {
            Ok((_, p2b)) => Err(
                committed(
                    "Only one type annotation per selector",
                    "type annotation",
                    "Syntax: (type)node[attr=value]",
                    p2b,
                    1,
                ),
            ),
            Err(_) => {
                let mut ann: Vec<KdlQueryMatcherDetails> = Vec::new();
                let ghost dv = d@;
                ann.push(d);
                assert(details_view(ann@) =~= seq![dv]);
                named_matchers_c(s, ann, p2)
            },
        },
        Err(_) => {
            let ann: Vec<KdlQueryMatcherDetails> = Vec::new();
            assert(details_view(ann@) =~= Seq::<DetailModel>::empty());
            named_matchers_c(s, ann, p1)
        },
    }
}

fn comb_c(s: &Vec<char>, p: usize) -> (r: Option<(KdlSegmentCombinator, usize)>)
    requires
        p <= s@.len(),
    ensures
        match r {
            Some((c, q)) => p_comb(s@, p as int) == Some((c, q as int)) && q <= s@.len(),
            None => p_comb(s@, p as int) is None,
        },
{
    proof {
        reveal_strlit(">>");
        reveal_strlit(">");
        reveal_strlit("++");
        reveal_strlit("+");
    }
    if lit_at_c(s, p, ">>") {
        Some((KdlSegmentCombinator::Descendant, p + 2))
    } else if lit_at_c(s, p, ">") {
        Some((KdlSegmentCombinator::Child, p + 1))
    } else if lit_at_c(s, p, "++") {
        Some((KdlSegmentCombinator::Sibling, p + 2))
    } else if lit_at_c(s, p, "+") {
        Some((KdlSegmentCombinator::Neighbor, p + 1))
    } else {
        None
    }
}

fn selector_c(s: &Vec<char>, p: usize, is_scope: bool) -> (r: Result<(Vec<KdlQuerySelectorSegment>, usize), QueryParseError>)
    requires
        p <= s@.len(),
    ensures
        pres(r, |x: Vec<KdlQuerySelectorSegment>| segments_view(x@)) == p_selector(s@, p as int, is_scope),
        within(r, s@.len()),
    decreases s@.len() - p,
{
    let p1 = skip_ws_c(s, p);
    match matchers_c(s, p1, is_scope) {
        Ok((ms, p2)) => {
            let p3 = skip_ws_c(s, p2);
            match comb_c(s, p3) {
                None => {
                    let seg = KdlQuerySelectorSegment { op: None, matcher: KdlQueryMatcher(ms) };
                    let ghost sv = seg@;
                    let mut v: Vec<KdlQuerySelectorSegment> = Vec::new();
                    v.push(seg);
                    assert(segments_view(v@) =~= seq![sv]);
                    let e = skip_ws_c(s, p3);
                    Ok((v, e))
                },
                Some((c, p4)) => if p < p4 {
                    match selector_c(s, p4, false) {
                        Ok((rest, p5)) => {
                            let seg = KdlQuerySelectorSegment { op: Some(c), matcher: KdlQueryMatcher(ms) };
                            let ghost sv = seg@;
                            let ghost rv = segments_view(rest@);
                            let mut v: Vec<KdlQuerySelectorSegment> = Vec::new();
                            v.push(seg);
                            let mut rest = rest;
                            v.append(&mut rest);
                            assert(segments_view(v@) =~= seq![sv] + rv);
                            Ok((v, p5))
                        },
                        Err(e) => Err(e),
                    }
                } else {
                    Err(plain_failure())
                },
            }
        },
        Err(e) => Err(e),
    }
}

fn more_c(s: &Vec<char>, p: usize) -> (r: Result<(Vec<KdlQuerySelector>, usize), QueryParseError>)
    requires
        p <= s@.len(),
    ensures
        pres(r, |x: Vec<KdlQuerySelector>| selectors_view(x@)) == p_more(s@, p as int),
        within(r, s@.len()),
    decreases s@.len() - p,
{
    proof {
        reveal_strlit(",");
    }
    let a = skip_ws_c(s, p);
    if !lit_at_c(s, a, ",") {
        let v: Vec<KdlQuerySelector> = Vec::new();
        assert(selectors_view(v@) =~= Seq::<Seq<SegmentModel>>::empty());
        return Ok((v, p));
    }
    let b = skip_ws_c(s, a + 1);
    match selector_c(s, b, true) {
        Ok((segs, q)) => if p < q {
            match more_c(s, q) {
                Ok((rest, r)) => {
                    let sel = KdlQuerySelector(segs);
                    let ghost sv = sel@;
                    let ghost rv = selectors_view(rest@);
                    let mut v: Vec<KdlQuerySelector> = Vec::new();
                    v.push(sel);
                    let mut rest = rest;
                    v.append(&mut rest);
                    assert(selectors_view(v@) =~= seq![sv] + rv);
                    Ok((v, r))
                },
                Err(e) => Err(e),
            }
        } else {
            Err(plain_failure())
        },
        Err(e) => if e.cut {
            Err(e)
        } else {
            let v: Vec<KdlQuerySelector> = Vec::new();
            assert(selectors_view(v@) =~= Seq::<Seq<SegmentModel>>::empty());
            Ok((v, p))
        },
    }
}

fn query_c(s: &Vec<char>) -> (r: Result<(KdlQuery, usize), QueryParseError>)
    ensures
        pres(r, |x: KdlQuery| x@) == p_query(s@),
        within(r, s@.len()),
{
    match selector_c(s, 0, true) {
        Ok((segs, q)) => match more_c(s, q) {
            Ok((rest, r)) => {
                let sel = KdlQuerySelector(segs);
                let ghost sv = sel@;
                let ghost rv = selectors_view(rest@);
                let mut v: Vec<KdlQuerySelector> = Vec::new();
                v.push(sel);
                let mut rest = rest;
                v.append(&mut rest);
                assert(selectors_view(v@) =~= seq![sv] + rv);
                Ok((KdlQuery(v), r))
            },
            Err(e) => Err(e),
        },
        Err(e) => Err(e),
    }
}

/// Reads `input` as a KDL query (see [`query_of`]); offsets in the diagnostic count characters.
pub fn parse_query(input: &str) -> (r: Result<KdlQuery, KdlDiagnostic>)
    ensures
        match (r, query_of(input@)) {
            (Ok(q), Ok(m)) => q@ == m,
            (Err(d), Err(m)) => d@ == m,
            _ => false,
        },
{
    let s = chars_of(input);
    match query_c(&s) {
        Ok((q, p)) => {
            let e = skip_ws_c(&s, p);
            if e < s.len() {
                Err(
                    KdlDiagnostic {
                        span: SourceSpan { offset: e, len: 1 },
                        message: Some(string_of("Unexpected content after query")),
                        label: Some(string_of("unexpected")),
                        help: Some(string_of("Remove trailing content or check query syntax")),
                        severity: Severity::Error,
                    },
                )
            } else {
                Ok(q)
            }
        },
        Err(e) => {
            let help = match e.help {
                Some(h) => h,
                None => string_of(
                    "The syntax for queries is '(type)nodename[prop=value], another'.",
                ),
            };
            Err(
                KdlDiagnostic {
                    span: SourceSpan { offset: e.offset, len: if e.len >= 1 { e.len } else { 1 } },
                    message: e.message,
                    label: e.label,
                    help: Some(help),
                    severity: Severity::Error,
                },
            )
        },
    }
}

/// Whether the two characters `a`, `b` stand at `p`.
pub open spec fn chars2_at(s: Seq<char>, p: int, a: char, b: char) -> bool {
    0 <= p && p + 1 < s.len() && s[p] == a && s[p + 1] == b
}

/// The operator that the characters at `p` spell, and its length: `!=`,
/// `>=`, `<=`, `^=`, `$=`, `*=`, then `=`, and `>` and `<` alone.
pub open spec fn spelled_op(s: Seq<char>, p: int) -> Option<(KdlQueryAttributeOp, int)> {
    if chars2_at(s, p, '!', '=') {
        Some((KdlQueryAttributeOp::NotEqual, 2))
    } else if chars2_at(s, p, '>', '=') {
        Some((KdlQueryAttributeOp::Gte, 2))
    } else if chars2_at(s, p, '<', '=') {
        Some((KdlQueryAttributeOp::Lte, 2))
    } else if chars2_at(s, p, '^', '=') {
        Some((KdlQueryAttributeOp::StartsWith, 2))
    } else if chars2_at(s, p, '$', '=') {
        Some((KdlQueryAttributeOp::EndsWith, 2))
    } else if chars2_at(s, p, '*', '=') {
        Some((KdlQueryAttributeOp::Contains, 2))
    } else if 0 <= p < s.len() && s[p] == '=' {
        Some((KdlQueryAttributeOp::Equal, 1))
    } else if 0 <= p < s.len() && s[p] == '>' {
        Some((KdlQueryAttributeOp::Gt, 1))
    } else if 0 <= p < s.len() && s[p] == '<' {
        Some((KdlQueryAttributeOp::Lt, 1))
    } else {
        None
    }
}

proof fn lemma_lit1(s: Seq<char>, p: int, t: Seq<char>, a: char)
    requires
        t == seq![a],
    ensures
        lit_at(s, p, t) <==> (0 <= p < s.len() && s[p] == a),
{
    if 0 <= p < s.len() {
        if s[p] == a {
            assert(s.subrange(p, p + 1) =~= t);
        } else {
            assert(s.subrange(p, p + 1)[0] == s[p]);
        }
    }
}

proof fn lemma_lit2(s: Seq<char>, p: int, t: Seq<char>, a: char, b: char)
    requires
        t == seq![a, b],
    ensures
        lit_at(s, p, t) <==> chars2_at(s, p, a, b),
{
    if 0 <= p && p + 1 < s.len() {
        if s[p] == a && s[p + 1] == b {
            assert(s.subrange(p, p + 2) =~= t);
        } else {
            assert(s.subrange(p, p + 2)[0] == s[p]);
            assert(s.subrange(p, p + 2)[1] == s[p + 1]);
        }
    }
}

/// The operator of a matcher is the one its characters spell: `>=` is read
/// as "at least", `<=` as "at most", `*=` as "contains", and so on, each
/// taking up exactly its own characters; anything else is no operator.
pub proof fn law_operator_spellings(s: Seq<char>, p: int)
    ensures
        p_op(s, p) == match spelled_op(s, p) {
            Some((op, n)) => Some((op, p + n)),
            None => None,
        },
{
    reveal_strlit("!=");
    reveal_strlit(">=");
    reveal_strlit("<=");
    reveal_strlit("^=");
    reveal_strlit("$=");
    reveal_strlit("*=");
    reveal_strlit("=");
    reveal_strlit(">");
    reveal_strlit("<");
    assert("!="@ =~= seq!['!', '=']);
    lemma_lit2(s, p, "!="@, '!', '=');
    assert(">="@ =~= seq!['>', '=']);
    lemma_lit2(s, p, ">="@, '>', '=');
    assert("<="@ =~= seq!['<', '=']);
    lemma_lit2(s, p, "<="@, '<', '=');
    assert("^="@ =~= seq!['^', '=']);
    lemma_lit2(s, p, "^="@, '^', '=');
    assert("$="@ =~= seq!['$', '=']);
    lemma_lit2(s, p, "$="@, '$', '=');
    assert("*="@ =~= seq!['*', '=']);
    lemma_lit2(s, p, "*="@, '*', '=');
    assert("="@ =~= seq!['=']);
    lemma_lit1(s, p, "="@, '=');
    assert(">"@ =~= seq!['>']);
    lemma_lit1(s, p, ">"@, '>');
    assert("<"@ =~= seq!['<']);
    lemma_lit1(s, p, "<"@, '<');
}

/// The inside of `[...]` with an accessor followed (after spaces) by an
/// operator's spelling reads, where it reads at all, a matcher with that
/// operator and a value: `[arg(0) >= 10]` compares with "at least".
pub proof fn law_matcher_operator(s: Seq<char>, p: int)
    ensures
        match (p_accessor(s, p), p_attr_inner(s, p)) {
            (PRes::Read(_, p1), PRes::Read(d, _)) => match spelled_op(s, skip_ws(s, p1)) {
                Some((op, _)) => d.op == op && d.value is Some,
                None => d.value is None,
            },
            _ => true,
        },
{
    match p_accessor(s, p) {
        PRes::Read(_, p1) => law_operator_spellings(s, skip_ws(s, p1)),
        _ => {},
    }
}

/// How selector segments are joined: `>>` reads as "descendant", `>` alone
/// as "child", `++` as "sibling" and `+` alone as "neighbour", each taking up
/// exactly its own characters; anything else joins nothing.
pub proof fn law_combinator_spellings(s: Seq<char>, p: int)
    ensures
        chars2_at(s, p, '>', '>') ==> p_comb(s, p) == Some((KdlSegmentCombinator::Descendant, p + 2)),
        0 <= p < s.len() && s[p] == '>' && !chars2_at(s, p, '>', '>') ==> p_comb(s, p) == Some(
            (KdlSegmentCombinator::Child, p + 1),
        ),
        chars2_at(s, p, '+', '+') ==> p_comb(s, p) == Some((KdlSegmentCombinator::Sibling, p + 2)),
        0 <= p < s.len() && s[p] == '+' && !chars2_at(s, p, '+', '+') ==> p_comb(s, p) == Some(
            (KdlSegmentCombinator::Neighbor, p + 1),
        ),
        !(0 <= p < s.len() && (s[p] == '>' || s[p] == '+')) ==> p_comb(s, p) is None,
{
    reveal_strlit(">>");
    reveal_strlit(">");
    reveal_strlit("++");
    reveal_strlit("+");
    assert(">>"@ =~= seq!['>', '>']);
    lemma_lit2(s, p, ">>"@, '>', '>');
    assert("++"@ =~= seq!['+', '+']);
    lemma_lit2(s, p, "++"@, '+', '+');
    assert(">"@ =~= seq!['>']);
    lemma_lit1(s, p, ">"@, '>');
    assert("+"@ =~= seq!['+']);
    lemma_lit1(s, p, "+"@, '+');
}

/// Whether `arg(` stands at `p`.
pub open spec fn arg_open_at(s: Seq<char>, p: int) -> bool {
    0 <= p && p + 3 < s.len() && s[p] == 'a' && s[p + 1] == 'r' && s[p + 2] == 'g' && s[p + 3] == '('
}

/// `arg(d)` with one decimal digit `d` reads the accessor of the positional
/// argument numbered `d`, and `arg()` that of the first argument.
pub proof fn law_arg_accessor(s: Seq<char>, p: int)
    requires
        arg_open_at(s, p),
    ensures
        (p + 5 < s.len() && '0' <= s[p + 4] <= '9' && s[p + 5] == ')') ==> p_arg_accessor(s, p) == PRes::Read(
            AccessorModel::Arg(Some((s[p + 4] as int - '0' as int) as usize)),
            p + 6,
        ),
        (p + 4 < s.len() && s[p + 4] == ')') ==> p_arg_accessor(s, p) == PRes::<AccessorModel>::Read(
            AccessorModel::Arg(None),
            p + 5,
        ),
{
    reveal_strlit("arg(");
    reveal_strlit(")");
    assert(")"@ =~= seq![')']);
    if p + 4 < s.len() {
        assert(s.subrange(p, p + 4) =~= "arg("@);
    }
    if p + 5 < s.len() && '0' <= s[p + 4] <= '9' && s[p + 5] == ')' {
        lemma_lit1(s, p + 5, ")"@, ')');
        assert(digit_end(s, p + 5) == p + 5);
        assert(digit_end(s, p + 4) == p + 5);
        let d = s.subrange(p + 4, p + 5);
        assert(d.drop_last() =~= Seq::<char>::empty());
        assert(digits_value(d.drop_last()) == 0);
        assert(d.last() == s[p + 4]);
        assert(digits_value(d) == (s[p + 4] as nat - '0' as nat) as nat);
    }
    if p + 4 < s.len() && s[p + 4] == ')' {
        lemma_lit1(s, p + 4, ")"@, ')');
    }
}

} // verus!
