//! Checking one value against a set of constraints.

use vstd::prelude::*;
use vstd::utf8::encode_utf8;

use crate::diagnostic::{diags_view, error_diag, lemma_diags_view_push, DiagnosticModel, KdlDiagnostic, Severity};
use crate::document::SourceSpan;
use crate::number::{decimal_order, ext_not_multiple, fin_order, num_ext, num_order, number_not_multiple, number_order, KdlFloat, Number};
use crate::render::{decimal_text, number_text, push_decimal, push_number, push_quoted, quoted_text};
use crate::schema_v2::formats::{
    all_upper, all_upper_c, base64_c, base64_ok, date_parses, datetime_parses, has_char,
    hostname_c, hostname_ok, ipv4_c, ipv4_ok, ipv6_c, ipv6_ok, jiff_date_parses,
    jiff_datetime_parses, jiff_span_parses, jiff_time_parses, jiff_timestamp_parses, span_parses,
    time_parses, timestamp_parses, url_c, url_ok, uuid_c, uuid_ok,
};
use crate::schema_v2::types::{
    empty_model, format_debug_text, merge_model, push_format_debug, FormatModel, Validations, ValidationsModel, ValueFormat,
};
use crate::text::{chars_of, int_text, nat_text, push_int, push_nat, push_str, str_eq, string_of};
use crate::value::{value_eq, value_number, KdlValue, ValueModel};

verus! {

/// Whether the regular expression `pattern` matches somewhere in `text`, as the
/// `regex` crate decides it; `None` where `pattern` is no regular expression it accepts.
pub uninterp spec fn regex_match(pattern: Seq<char>, text: Seq<char>) -> Option<bool>;

/// Trusted: compiles `pattern` with `regex::Regex::new` and, where that succeeds,
/// asks `Regex::is_match` whether it matches somewhere in `text`. Both depend on
/// the two texts alone; the result is named [`regex_match`].
#[verifier::external_body]
fn pattern_matches(pattern: &str, text: &str) -> (r: Option<bool>)
    ensures
        r == regex_match(pattern@, text@),
{
    match regex::Regex::new(pattern) {
        Ok(re) => Some(re.is_match(text)),
        Err(_) => None,
    }
}

/// An error diagnostic with a message and a label and no help.
pub open spec fn err_diag(span: SourceSpan, msg: Seq<char>, label: Seq<char>) -> DiagnosticModel {
    DiagnosticModel {
        span,
        message: Some(msg),
        label: Some(label),
        help: None,
        severity: Severity::Error,
    }
}

/// The name of a value's type in type constraints.
pub open spec fn kind_name(v: ValueModel) -> Seq<char> {
    match v {
        ValueModel::String(_) => "string"@,
        ValueModel::Integer(_) => "integer"@,
        ValueModel::Float(_) => "number"@,
        ValueModel::Bool(_) => "boolean"@,
        ValueModel::Null => "null"@,
    }
}

/// Whether a value of type `actual` meets the type constraint `expected`;
/// `number` admits integers too.
pub open spec fn type_matches(expected: Seq<char>, actual: Seq<char>) -> bool {
    expected == actual || (expected == "number"@ && (actual == "integer"@ || actual == "number"@))
}

pub open spec fn type_diags(ty: Option<Seq<char>>, v: ValueModel, span: SourceSpan) -> Seq<DiagnosticModel> {
    match ty {
        Some(t) => if type_matches(t, kind_name(v)) {
            Seq::empty()
        } else {
            seq![
                err_diag(
                    span,
                    "Expected type '"@ + t + "', found '"@ + kind_name(v) + "'"@,
                    "expected "@ + t,
                ),
            ]
        },
        None => Seq::empty(),
    }
}

/// A value as `{:?}` shows it.
pub open spec fn value_debug_text(v: ValueModel) -> Seq<char> {
    match v {
        ValueModel::String(s) => "String("@ + quoted_text(s) + ")"@,
        ValueModel::Integer(i) => "Integer("@ + int_text(i as int) + ")"@,
        ValueModel::Float(KdlFloat::Decimal { mantissa, exponent }) => "Float("@ + decimal_text(
            mantissa as int,
            exponent as int,
            true,
        ) + ")"@,
        ValueModel::Float(KdlFloat::Infinity) => "Float(inf)"@,
        ValueModel::Float(KdlFloat::NegInfinity) => "Float(-inf)"@,
        ValueModel::Float(KdlFloat::NaN) => "Float(NaN)"@,
        ValueModel::Bool(true) => "Bool(true)"@,
        ValueModel::Bool(false) => "Bool(false)"@,
        ValueModel::Null => "Null"@,
    }
}

/// The items of a list of values as `{:?}` shows them, separated by `, `.
pub open spec fn values_debug_items(vs: Seq<ValueModel>) -> Seq<char>
    decreases vs.len(),
{
    if vs.len() == 0 {
        Seq::empty()
    } else if vs.len() == 1 {
        value_debug_text(vs[0])
    } else {
        values_debug_items(vs.drop_last()) + ", "@ + value_debug_text(vs.last())
    }
}

/// The items of a list of formats as `{:?}` shows them, separated by `, `.
pub open spec fn formats_debug_items(fs: Seq<FormatModel>) -> Seq<char>
    decreases fs.len(),
{
    if fs.len() == 0 {
        Seq::empty()
    } else if fs.len() == 1 {
        format_debug_text(fs[0])
    } else {
        formats_debug_items(fs.drop_last()) + ", "@ + format_debug_text(fs.last())
    }
}

pub open spec fn in_enum(vs: Seq<ValueModel>, v: ValueModel) -> bool {
    exists|i: int| 0 <= i < vs.len() && value_eq(#[trigger] vs[i], v)
}

pub open spec fn enum_diags(c: ValidationsModel, v: ValueModel, span: SourceSpan) -> Seq<DiagnosticModel> {
    if c.enum_values.len() > 0 && !in_enum(c.enum_values, v) && !c.enum_allow_others {
        seq![
            err_diag(
                span,
                "Value not in allowed enum: ["@ + values_debug_items(c.enum_values) + "]"@,
                "invalid value"@,
            ),
        ]
    } else {
        Seq::empty()
    }
}

pub open spec fn pattern_diags(ps: Seq<Seq<char>>, s: Seq<char>, span: SourceSpan) -> Seq<DiagnosticModel>
    decreases ps.len(),
{
    if ps.len() == 0 {
        Seq::empty()
    } else {
        pattern_diags(ps.drop_last(), s, span) + if regex_match(ps.last(), s) == Some(false) {
            seq![err_diag(span, "Value does not match pattern: "@ + ps.last(), "pattern mismatch"@)]
        } else {
            Seq::empty()
        }
    }
}

/// The length of a string in bytes of UTF-8, as `str::len` gives it.
pub open spec fn str_len(s: Seq<char>) -> usize {
    encode_utf8(s).len() as usize
}

pub open spec fn length_diags(c: ValidationsModel, s: Seq<char>, span: SourceSpan) -> Seq<DiagnosticModel> {
    let n = str_len(s);
    (match c.min_length {
        Some(min) => if (n as u64) < min {
            seq![
                err_diag(
                    span,
                    "String length "@ + nat_text(n as nat) + " is less than minimum "@ + nat_text(
                        min as nat,
                    ),
                    "too short"@,
                ),
            ]
        } else {
            Seq::empty()
        },
        None => Seq::empty(),
    }) + (match c.max_length {
        Some(max) => if (n as u64) > max {
            seq![
                err_diag(
                    span,
                    "String length "@ + nat_text(n as nat) + " exceeds maximum "@ + nat_text(max as nat),
                    "too long"@,
                ),
            ]
        } else {
            Seq::empty()
        },
        None => Seq::empty(),
    })
}

/// Whether a string fits a format. Formats without a string rule here,
/// and numeric formats, admit every string.
pub open spec fn string_format_ok(s: Seq<char>, f: FormatModel) -> bool {
    match f {
        FormatModel::DateTime => jiff_timestamp_parses(s) || jiff_datetime_parses(s),
        FormatModel::Date => jiff_date_parses(s),
        FormatModel::Time => jiff_time_parses(s),
        FormatModel::Duration => jiff_span_parses(s),
        FormatModel::Email => s.contains('@') && s.contains('.'),
        FormatModel::Hostname => hostname_ok(s),
        FormatModel::Uuid => uuid_ok(s),
        FormatModel::Ipv4 => ipv4_ok(s),
        FormatModel::Ipv6 => ipv6_ok(s),
        FormatModel::Url => url_ok(s),
        FormatModel::UrlReference => url_ok(s),
        FormatModel::UrlTemplate => s.contains('{') && s.contains('}'),
        FormatModel::Currency => s.len() == 3 && all_upper(s),
        FormatModel::Country2 => s.len() == 2 && all_upper(s),
        FormatModel::Country3 => s.len() == 3 && all_upper(s),
        FormatModel::Base64 => base64_ok(s),
        FormatModel::KPath => s.len() > 0 && (s[0] == '/' || s[0] == '#'),
        _ => true,
    }
}

pub open spec fn any_string_format(fs: Seq<FormatModel>, s: Seq<char>) -> bool {
    exists|i: int| 0 <= i < fs.len() && string_format_ok(s, #[trigger] fs[i])
}

pub open spec fn string_format_diags(fs: Seq<FormatModel>, s: Seq<char>, span: SourceSpan) -> Seq<DiagnosticModel> {
    if fs.len() > 0 && !any_string_format(fs, s) {
        seq![
            err_diag(
                span,
                "Value does not match any of formats: ["@ + formats_debug_items(fs) + "]"@,
                "format mismatch"@,
            ),
        ]
    } else {
        Seq::empty()
    }
}

/// The diagnostics that only strings can draw: patterns, lengths and formats.
pub open spec fn string_diags(c: ValidationsModel, v: ValueModel, span: SourceSpan) -> Seq<DiagnosticModel> {
    match v {
        ValueModel::String(s) => pattern_diags(c.patterns, s, span) + length_diags(c, s, span)
            + string_format_diags(c.formats, s, span),
        _ => Seq::empty(),
    }
}

pub open spec fn multiple_diags(ms: Seq<Number>, n: Number, span: SourceSpan) -> Seq<DiagnosticModel>
    decreases ms.len(),
{
    if ms.len() == 0 {
        Seq::empty()
    } else {
        multiple_diags(ms.drop_last(), n, span) + if ext_not_multiple(num_ext(n), num_ext(ms.last())) {
            seq![
                err_diag(
                    span,
                    "Value "@ + number_text(n) + " is not a multiple of "@ + number_text(ms.last()),
                    "not a multiple"@,
                ),
            ]
        } else {
            Seq::empty()
        }
    }
}

/// The four kinds of numeric bound.
#[derive(Clone, Copy, Debug, PartialEq, Eq, Structural)]
pub enum Bound {
    Gt,
    Gte,
    Lt,
    Lte,
}

/// Whether a value that compares with the bound as `order` (the sign of
/// `value - bound`) breaks the bound.
pub open spec fn out_of_bound(order: int, b: Bound) -> bool {
    match b {
        Bound::Gt => order <= 0,
        Bound::Gte => order < 0,
        Bound::Lt => order >= 0,
        Bound::Lte => order > 0,
    }
}

pub open spec fn bound_words(b: Bound) -> Seq<char> {
    match b {
        Bound::Gt => " must be greater than "@,
        Bound::Gte => " must be greater than or equal to "@,
        Bound::Lt => " must be less than "@,
        Bound::Lte => " must be less than or equal to "@,
    }
}

/// The diagnostic of one bound; a comparison with not-a-number breaks no bound.
pub open spec fn bound_diags(bound: Option<Number>, b: Bound, n: Number, span: SourceSpan) -> Seq<DiagnosticModel> {
    match bound {
        Some(x) => match num_order(n, x) {
            Some(o) => if out_of_bound(o, b) {
                seq![err_diag(span, "Value "@ + number_text(n) + bound_words(b) + number_text(x), "out of range"@)]
            } else {
                Seq::empty()
            },
            None => Seq::empty(),
        },
        None => Seq::empty(),
    }
}

/// Whether an integer fits a format; non-integer formats admit every integer.
pub open spec fn int_format_ok(i: i128, f: FormatModel) -> bool {
    match f {
        FormatModel::I8 => -128 <= i <= 127,
        FormatModel::I16 => -32768 <= i <= 32767,
        FormatModel::I32 => -2147483648 <= i <= 2147483647,
        FormatModel::I64 => -9223372036854775808 <= i <= 9223372036854775807,
        FormatModel::U8 => 0 <= i <= 255,
        FormatModel::U16 => 0 <= i <= 65535,
        FormatModel::U32 => 0 <= i <= 4294967295,
        FormatModel::U64 => 0 <= i <= 18446744073709551615,
        FormatModel::U128 => 0 <= i,
        FormatModel::Isize => isize::MIN <= i <= isize::MAX,
        FormatModel::Usize => 0 <= i <= usize::MAX,
        _ => true,
    }
}

/// The largest finite `f32`, 340282346638528859811704183484516925440, as a mantissa
/// to be scaled by ten.
pub open spec fn f32_max_mantissa() -> int {
    34028234663852885981170418348451692544
}

/// Whether a non-integer number fits a format: `f32` asks for a finite value
/// within the range of `f32`; every other format admits every number.
pub open spec fn float_format_ok(x: KdlFloat, f: FormatModel) -> bool {
    match f {
        FormatModel::F32 => match x {
            KdlFloat::Decimal { mantissa, exponent } => fin_order(
                mantissa as int,
                exponent as int,
                f32_max_mantissa(),
                1,
            ) <= 0 && fin_order(mantissa as int, exponent as int, -f32_max_mantissa(), 1) >= 0,
            _ => false,
        },
        _ => true,
    }
}

pub open spec fn int_format_diags(fs: Seq<FormatModel>, v: ValueModel, span: SourceSpan) -> Seq<DiagnosticModel> {
    match v {
        ValueModel::Integer(i) => if fs.len() > 0 && !(exists|k: int|
            0 <= k < fs.len() && int_format_ok(i, #[trigger] fs[k])) {
            seq![
                err_diag(
                    span,
                    "Integer does not fit any of formats: ["@ + formats_debug_items(fs) + "]"@,
                    "format mismatch"@,
                ),
            ]
        } else {
            Seq::empty()
        },
        _ => Seq::empty(),
    }
}

pub open spec fn float_format_diags(fs: Seq<FormatModel>, v: ValueModel, span: SourceSpan) -> Seq<DiagnosticModel> {
    match v {
        ValueModel::Float(x) => if fs.len() > 0 && !(exists|k: int|
            0 <= k < fs.len() && float_format_ok(x, #[trigger] fs[k])) {
            seq![
                err_diag(
                    span,
                    "Float does not fit any of formats: ["@ + formats_debug_items(fs) + "]"@,
                    "format mismatch"@,
                ),
            ]
        } else {
            Seq::empty()
        },
        _ => Seq::empty(),
    }
}

/// The diagnostics that only numbers can draw: multiples, bounds and numeric formats.
pub open spec fn numeric_diags(c: ValidationsModel, v: ValueModel, span: SourceSpan) -> Seq<DiagnosticModel> {
    match value_number(v) {
        Some(n) => multiple_diags(c.multiple_of, n, span) + bound_diags(c.gt, Bound::Gt, n, span)
            + bound_diags(c.gte, Bound::Gte, n, span) + bound_diags(c.lt, Bound::Lt, n, span)
            + bound_diags(c.lte, Bound::Lte, n, span) + int_format_diags(c.formats, v, span)
            + float_format_diags(c.formats, v, span),
        None => Seq::empty(),
    }
}

/// All diagnostics that a value draws from a set of constraints, in the order
/// type, enum, string checks, numeric checks.
pub open spec fn check_model(c: ValidationsModel, v: ValueModel, span: SourceSpan) -> Seq<DiagnosticModel> {
    type_diags(c.ty, v, span) + enum_diags(c, v, span) + string_diags(c, v, span) + numeric_diags(
        c,
        v,
        span,
    )
}

/// Appends an error diagnostic with `msg` and `label` to `errors`.
fn push_error(errors: &mut Vec<KdlDiagnostic>, span: SourceSpan, msg: String, label: String)
    ensures
        diags_view(final(errors)@) == diags_view(old(errors)@).push(err_diag(span, msg@, label@)),
{
    let d = error_diag(span, msg, Some(label), None);
    proof {
        lemma_diags_view_push(errors@, d);
    }
    errors.push(d);
}

fn kind_name_c(v: &KdlValue) -> (r: &'static str)
    ensures
        r@ == kind_name(v@),
{
    match v {
        KdlValue::String(_) => "string",
        KdlValue::Integer(_) => "integer",
        KdlValue::Float(_) => "number",
        KdlValue::Bool(_) => "boolean",
        KdlValue::Null => "null",
    }
}

fn push_value_debug(s: &mut String, v: &KdlValue)
    ensures
        final(s)@ == old(s)@ + value_debug_text(v@),
{
    match v {
        KdlValue::String(t) => {
            push_str(s, "String(");
            push_quoted(s, t.as_str());
            push_str(s, ")");
        },
        KdlValue::Integer(i) => {
            push_str(s, "Integer(");
            push_int(s, *i);
            push_str(s, ")");
        },
        KdlValue::Float(KdlFloat::Decimal { mantissa, exponent }) => {
            push_str(s, "Float(");
            push_decimal(s, *mantissa, *exponent, true);
            push_str(s, ")");
        },
        KdlValue::Float(KdlFloat::Infinity) => push_str(s, "Float(inf)"),
        KdlValue::Float(KdlFloat::NegInfinity) => push_str(s, "Float(-inf)"),
        KdlValue::Float(KdlFloat::NaN) => push_str(s, "Float(NaN)"),
        KdlValue::Bool(true) => push_str(s, "Bool(true)"),
        KdlValue::Bool(false) => push_str(s, "Bool(false)"),
        KdlValue::Null => push_str(s, "Null"),
    }
    assert(s@ =~= old(s)@ + value_debug_text(v@));
}

fn push_values_debug(s: &mut String, vs: &Vec<KdlValue>)
    ensures
        final(s)@ == old(s)@ + values_debug_items(vs@.map_values(|x: KdlValue| x@)),
{
    let ghost m = vs@.map_values(|x: KdlValue| x@);
    let mut i: usize = 0;
    while i < vs.len()
        invariant
            i <= vs@.len(),
            m == vs@.map_values(|x: KdlValue| x@),
            s@ == old(s)@ + values_debug_items(m.take(i as int)),
        decreases vs.len() - i,
    {
        let ghost before = s@;
        if i > 0 {
            push_str(s, ", ");
        }
        push_value_debug(s, &vs[i]);
        assert(m.take(i + 1).drop_last() =~= m.take(i as int));
        i += 1;
        assert(s@ =~= old(s)@ + values_debug_items(m.take(i as int)));
    }
    assert(m.take(i as int) =~= m);
}

fn push_formats_debug(s: &mut String, fs: &Vec<ValueFormat>)
    ensures
        final(s)@ == old(s)@ + formats_debug_items(fs@.map_values(|x: ValueFormat| x@)),
{
    let ghost m = fs@.map_values(|x: ValueFormat| x@);
    let mut i: usize = 0;
    while i < fs.len()
        invariant
            i <= fs@.len(),
            m == fs@.map_values(|x: ValueFormat| x@),
            s@ == old(s)@ + formats_debug_items(m.take(i as int)),
        decreases fs.len() - i,
    {
        if i > 0 {
            push_str(s, ", ");
        }
        push_format_debug(s, &fs[i]);
        assert(m.take(i + 1).drop_last() =~= m.take(i as int));
        i += 1;
        assert(s@ =~= old(s)@ + formats_debug_items(m.take(i as int)));
    }
    assert(m.take(i as int) =~= m);
}

fn string_format_c(s: &str, cs: &Vec<char>, f: &ValueFormat) -> (r: bool)
    requires
        cs@ == s@,
    ensures
        r == string_format_ok(s@, f@),
{
    match f {
        ValueFormat::DateTime => timestamp_parses(s) || datetime_parses(s),
        ValueFormat::Date => date_parses(s),
        ValueFormat::Time => time_parses(s),
        ValueFormat::Duration => span_parses(s),
        ValueFormat::Email => has_char(cs, '@') && has_char(cs, '.'),
        ValueFormat::Hostname => hostname_c(cs),
        ValueFormat::Uuid => uuid_c(cs),
        ValueFormat::Ipv4 => ipv4_c(cs),
        ValueFormat::Ipv6 => ipv6_c(cs),
        ValueFormat::Url => url_c(cs),
        ValueFormat::UrlReference => url_c(cs),
        ValueFormat::UrlTemplate => has_char(cs, '{') && has_char(cs, '}'),
        ValueFormat::Currency => cs.len() == 3 && all_upper_c(cs),
        ValueFormat::Country2 => cs.len() == 2 && all_upper_c(cs),
        ValueFormat::Country3 => cs.len() == 3 && all_upper_c(cs),
        ValueFormat::Base64 => base64_c(cs),
        ValueFormat::KPath => cs.len() > 0 && (cs[0] == '/' || cs[0] == '#'),
        _ => true,
    }
}

fn int_format_c(i: i128, f: &ValueFormat) -> (r: bool)
    ensures
        r == int_format_ok(i, f@),
{
    match f {
        ValueFormat::I8 => -128 <= i && i <= 127,
        ValueFormat::I16 => -32768 <= i && i <= 32767,
        ValueFormat::I32 => -2147483648 <= i && i <= 2147483647,
        ValueFormat::I64 => -9223372036854775808 <= i && i <= 9223372036854775807,
        ValueFormat::U8 => 0 <= i && i <= 255,
        ValueFormat::U16 => 0 <= i && i <= 65535,
        ValueFormat::U32 => 0 <= i && i <= 4294967295,
        ValueFormat::U64 => 0 <= i && i <= 18446744073709551615,
        ValueFormat::U128 => 0 <= i,
        ValueFormat::Isize => isize::MIN as i128 <= i && i <= isize::MAX as i128,
        ValueFormat::Usize => 0 <= i && i <= usize::MAX as i128,
        _ => true,
    }
}

fn float_format_c(x: KdlFloat, f: &ValueFormat) -> (r: bool)
    ensures
        r == float_format_ok(x, f@),
{
    match f {
        ValueFormat::F32 => match x {
            KdlFloat::Decimal { mantissa, exponent } => {
                let top: i128 = 34028234663852885981170418348451692544;
                decimal_order(mantissa, exponent, top, 1) <= 0 && decimal_order(
                    mantissa,
                    exponent,
                    -top,
                    1,
                ) >= 0
            },
            _ => false,
        },
        _ => true,
    }
}

impl Validations {
    fn check_type(&self, v: &KdlValue, span: SourceSpan, errors: &mut Vec<KdlDiagnostic>)
        ensures
            diags_view(final(errors)@) == diags_view(old(errors)@) + type_diags(self@.ty, v@, span),
    {
        match &self.ty {
            Some(t) => {
                let actual = kind_name_c(v);
                let ok = str_eq(t.as_str(), actual) || (str_eq(t.as_str(), "number") && (str_eq(
                    actual,
                    "integer",
                ) || str_eq(actual, "number")));
                if !ok {
                    let mut m = string_of("Expected type '");
                    push_str(&mut m, t.as_str());
                    push_str(&mut m, "', found '");
                    push_str(&mut m, actual);
                    push_str(&mut m, "'");
                    let mut l = string_of("expected ");
                    push_str(&mut l, t.as_str());
                    push_error(errors, span, m, l);
                    assert(diags_view(errors@) =~= diags_view(old(errors)@) + type_diags(self@.ty, v@, span));
                } else {
                    assert(diags_view(errors@) =~= diags_view(old(errors)@) + type_diags(self@.ty, v@, span));
                }
            },
            None => {
                assert(diags_view(errors@) =~= diags_view(old(errors)@) + type_diags(self@.ty, v@, span));
            },
        }
    }

    fn check_enum(&self, v: &KdlValue, span: SourceSpan, errors: &mut Vec<KdlDiagnostic>)
        ensures
            diags_view(final(errors)@) == diags_view(old(errors)@) + enum_diags(self@, v@, span),
    {
        let ghost vals = self@.enum_values;
        assert(vals == self.enum_values@.map_values(|x: KdlValue| x@));
        let mut found = false;
        let mut i: usize = 0;
        while i < self.enum_values.len() && !found
            invariant
                i <= self.enum_values@.len(),
                vals == self.enum_values@.map_values(|x: KdlValue| x@),
                found ==> in_enum(vals, v@),
                !found ==> forall|k: int| 0 <= k < i ==> !value_eq(#[trigger] vals[k], v@),
            decreases self.enum_values.len() - i,
        {
            if self.enum_values[i].value_equals(v) {
                found = true;
                assert(value_eq(vals[i as int], v@));
            }
            i += 1;
        }
        if self.enum_values.len() > 0 && !found && !self.enum_allow_others {
            let mut m = string_of("Value not in allowed enum: [");
            push_values_debug(&mut m, &self.enum_values);
            push_str(&mut m, "]");
            push_error(errors, span, m, string_of("invalid value"));
            assert(diags_view(errors@) =~= diags_view(old(errors)@) + enum_diags(self@, v@, span));
        } else {
            assert(diags_view(errors@) =~= diags_view(old(errors)@) + enum_diags(self@, v@, span));
        }
    }

    fn check_patterns(&self, s: &str, span: SourceSpan, errors: &mut Vec<KdlDiagnostic>)
        ensures
            diags_view(final(errors)@) == diags_view(old(errors)@) + pattern_diags(self@.patterns, s@, span),
    {
        let ghost ps = self@.patterns;
        let mut i: usize = 0;
        while i < self.patterns.len()
            invariant
                i <= self.patterns@.len(),
                ps == self.patterns@.map_values(|x: String| x@),
                diags_view(errors@) == diags_view(old(errors)@) + pattern_diags(ps.take(i as int), s@, span),
            decreases self.patterns.len() - i,
        {
            assert(ps.take(i + 1).drop_last() =~= ps.take(i as int));
            let p = self.patterns[i].as_str();
            match pattern_matches(p, s) {
                Some(false) => {
                    let mut m = string_of("Value does not match pattern: ");
                    push_str(&mut m, p);
                    push_error(errors, span, m, string_of("pattern mismatch"));
                },
                _ => {},
            }
            i += 1;
            assert(diags_view(errors@) =~= diags_view(old(errors)@) + pattern_diags(ps.take(i as int), s@, span));
        }
        assert(ps.take(i as int) =~= ps);
    }

    fn check_length(&self, s: &str, span: SourceSpan, errors: &mut Vec<KdlDiagnostic>)
        ensures
            diags_view(final(errors)@) == diags_view(old(errors)@) + length_diags(self@, s@, span),
    {
        let n = s.len();
        assert(n == str_len(s@));
        let ghost mid = diags_view(errors@);
        match self.min_length {
            Some(min) => {
                if (n as u64) < min {
                    let mut m = string_of("String length ");
                    push_nat(&mut m, n as u128);
                    push_str(&mut m, " is less than minimum ");
                    push_nat(&mut m, min as u128);
                    push_error(errors, span, m, string_of("too short"));
                }
            },
            None => {},
        }
        let ghost mid2 = diags_view(errors@);
        match self.max_length {
            Some(max) => {
                if (n as u64) > max {
                    let mut m = string_of("String length ");
                    push_nat(&mut m, n as u128);
                    push_str(&mut m, " exceeds maximum ");
                    push_nat(&mut m, max as u128);
                    push_error(errors, span, m, string_of("too long"));
                }
            },
            None => {},
        }
        assert(diags_view(errors@) =~= diags_view(old(errors)@) + length_diags(self@, s@, span));
    }

    fn check_string_formats(&self, s: &str, span: SourceSpan, errors: &mut Vec<KdlDiagnostic>)
        ensures
            diags_view(final(errors)@) == diags_view(old(errors)@) + string_format_diags(self@.formats, s@, span),
    {
        let ghost fs = self@.formats;
        assert(fs == self.formats@.map_values(|x: ValueFormat| x@));
        let cs = chars_of(s);
        let mut any = false;
        let mut i: usize = 0;
        while i < self.formats.len() && !any
            invariant
                i <= self.formats@.len(),
                cs@ == s@,
                fs == self.formats@.map_values(|x: ValueFormat| x@),
                any ==> any_string_format(fs, s@),
                !any ==> forall|k: int| 0 <= k < i ==> !string_format_ok(s@, #[trigger] fs[k]),
            decreases self.formats.len() - i,
        {
            if string_format_c(s, &cs, &self.formats[i]) {
                any = true;
                assert(string_format_ok(s@, fs[i as int]));
            }
            i += 1;
        }
        if self.formats.len() > 0 && !any {
            let mut m = string_of("Value does not match any of formats: [");
            push_formats_debug(&mut m, &self.formats);
            push_str(&mut m, "]");
            push_error(errors, span, m, string_of("format mismatch"));
            assert(diags_view(errors@) =~= diags_view(old(errors)@) + string_format_diags(self@.formats, s@, span));
        } else {
            assert(diags_view(errors@) =~= diags_view(old(errors)@) + string_format_diags(self@.formats, s@, span));
        }
    }

    fn check_multiples(&self, n: &Number, span: SourceSpan, errors: &mut Vec<KdlDiagnostic>)
        ensures
            diags_view(final(errors)@) == diags_view(old(errors)@) + multiple_diags(self@.multiple_of, *n, span),
    {
        let ghost ms = self@.multiple_of;
        let mut i: usize = 0;
        while i < self.multiple_of.len()
            invariant
                i <= self.multiple_of@.len(),
                ms == self.multiple_of@,
                diags_view(errors@) == diags_view(old(errors)@) + multiple_diags(ms.take(i as int), *n, span),
            decreases self.multiple_of.len() - i,
        {
            assert(ms.take(i + 1).drop_last() =~= ms.take(i as int));
            let m = &self.multiple_of[i];
            if number_not_multiple(n, m) {
                let mut t = string_of("Value ");
                push_number(&mut t, n);
                push_str(&mut t, " is not a multiple of ");
                push_number(&mut t, m);
                push_error(errors, span, t, string_of("not a multiple"));
            }
            i += 1;
            assert(diags_view(errors@) =~= diags_view(old(errors)@) + multiple_diags(ms.take(i as int), *n, span));
        }
        assert(ms.take(i as int) =~= ms);
    }

    fn check_formats_of_number(&self, v: &KdlValue, span: SourceSpan, errors: &mut Vec<KdlDiagnostic>)
        ensures
            diags_view(final(errors)@) == diags_view(old(errors)@) + int_format_diags(self@.formats, v@, span)
                + float_format_diags(self@.formats, v@, span),
    {
        let ghost fs = self@.formats;
        assert(fs == self.formats@.map_values(|x: ValueFormat| x@));
        let mut any = false;
        let mut i: usize = 0;
        match v {
            KdlValue::Integer(x) => {
                while i < self.formats.len() && !any
                    invariant
                        i <= self.formats@.len(),
                        fs == self.formats@.map_values(|x: ValueFormat| x@),
                        any ==> exists|k: int| 0 <= k < fs.len() && int_format_ok(*x, #[trigger] fs[k]),
                        !any ==> forall|k: int| 0 <= k < i ==> !int_format_ok(*x, #[trigger] fs[k]),
                    decreases self.formats.len() - i,
                {
                    if int_format_c(*x, &self.formats[i]) {
                        any = true;
                        assert(int_format_ok(*x, fs[i as int]));
                    }
                    i += 1;
                }
                if self.formats.len() > 0 && !any {
                    let mut m = string_of("Integer does not fit any of formats: [");
                    push_formats_debug(&mut m, &self.formats);
                    push_str(&mut m, "]");
                    push_error(errors, span, m, string_of("format mismatch"));
                }
            },
            KdlValue::Float(x) => {
                while i < self.formats.len() && !any
                    invariant
                        i <= self.formats@.len(),
                        fs == self.formats@.map_values(|x: ValueFormat| x@),
                        any ==> exists|k: int| 0 <= k < fs.len() && float_format_ok(*x, #[trigger] fs[k]),
                        !any ==> forall|k: int| 0 <= k < i ==> !float_format_ok(*x, #[trigger] fs[k]),
                    decreases self.formats.len() - i,
                {
                    if float_format_c(*x, &self.formats[i]) {
                        any = true;
                        assert(float_format_ok(*x, fs[i as int]));
                    }
                    i += 1;
                }
                if self.formats.len() > 0 && !any {
                    let mut m = string_of("Float does not fit any of formats: [");
                    push_formats_debug(&mut m, &self.formats);
                    push_str(&mut m, "]");
                    push_error(errors, span, m, string_of("format mismatch"));
                }
            },
            _ => {},
        }
        assert(diags_view(errors@) =~= diags_view(old(errors)@) + int_format_diags(self@.formats, v@, span)
            + float_format_diags(self@.formats, v@, span));
    }
}

fn check_bound(bound: Option<Number>, b: Bound, n: &Number, span: SourceSpan, errors: &mut Vec<KdlDiagnostic>)
    ensures
        diags_view(final(errors)@) == diags_view(old(errors)@) + bound_diags(bound, b, *n, span),
{
    match bound {
        Some(x) => match number_order(n, &x) {
            Some(o) => {
                let bad = match b {
                    Bound::Gt => o <= 0,
                    Bound::Gte => o < 0,
                    Bound::Lt => o >= 0,
                    Bound::Lte => o > 0,
                };
                if bad {
                    let words = match b {
                        Bound::Gt => " must be greater than ",
                        Bound::Gte => " must be greater than or equal to ",
                        Bound::Lt => " must be less than ",
                        Bound::Lte => " must be less than or equal to ",
                    };
                    let mut t = string_of("Value ");
                    push_number(&mut t, n);
                    push_str(&mut t, words);
                    push_number(&mut t, &x);
                    push_error(errors, span, t, string_of("out of range"));
                }
            },
            None => {},
        },
        None => {},
    }
    assert(diags_view(errors@) =~= diags_view(old(errors)@) + bound_diags(bound, b, *n, span));
}

impl Validations {
    fn check_string(&self, value: &KdlValue, span: SourceSpan, errors: &mut Vec<KdlDiagnostic>)
        ensures
            diags_view(final(errors)@) == diags_view(old(errors)@) + string_diags(self@, value@, span),
    {
        match value {
            KdlValue::String(s) => {
                self.check_patterns(s.as_str(), span, errors);
                self.check_length(s.as_str(), span, errors);
                self.check_string_formats(s.as_str(), span, errors);
            },
            _ => {},
        }
        assert(diags_view(errors@) =~= diags_view(old(errors)@) + string_diags(self@, value@, span));
    }

    fn check_number(&self, value: &KdlValue, span: SourceSpan, errors: &mut Vec<KdlDiagnostic>)
        ensures
            diags_view(final(errors)@) == diags_view(old(errors)@) + numeric_diags(self@, value@, span),
    {
        match value.as_number() {
            Some(n) => {
                self.check_multiples(&n, span, errors);
                check_bound(self.gt, Bound::Gt, &n, span, errors);
                check_bound(self.gte, Bound::Gte, &n, span, errors);
                check_bound(self.lt, Bound::Lt, &n, span, errors);
                check_bound(self.lte, Bound::Lte, &n, span, errors);
                self.check_formats_of_number(value, span, errors);
            },
            None => {},
        }
        assert(diags_view(errors@) =~= diags_view(old(errors)@) + numeric_diags(self@, value@, span));
    }

    /// The diagnostics that `value`, found at `span`, draws from these constraints
    /// (see [`check_model`]).
    pub fn check(&self, value: &KdlValue, span: SourceSpan) -> (r: Vec<KdlDiagnostic>)
        ensures
            diags_view(r@) == check_model(self@, value@, span),
    {
        let mut errors: Vec<KdlDiagnostic> = Vec::new();
        assert(diags_view(errors@) =~= Seq::<DiagnosticModel>::empty());
        self.check_type(value, span, &mut errors);
        self.check_enum(value, span, &mut errors);
        self.check_string(value, span, &mut errors);
        self.check_number(value, span, &mut errors);
        assert(diags_view(errors@) =~= check_model(self@, value@, span));
        errors
    }
}

} // verus!

verus! {

/// Referring to a definition that states no constraints changes no check: the
/// merged constraints draw the same diagnostics from every value, and keep the
/// same annotation constraints.
pub proof fn law_merge_with_nothing_keeps_checks(a: ValidationsModel, v: ValueModel, span: SourceSpan)
    ensures
        check_model(merge_model(a, empty_model()), v, span) == check_model(a, v, span),
        merge_model(a, empty_model()).tag == a.tag,
{
    let m = merge_model(a, empty_model());
    assert(m.patterns =~= a.patterns);
    assert(m.formats =~= a.formats);
    assert(m.multiple_of =~= a.multiple_of);
    assert(m.enum_values =~= a.enum_values);
    assert(m.tag == a.tag);
    let a2 = ValidationsModel { enum_allow_others: m.enum_allow_others, ..a };
    assert(m == a2);
    assert(enum_diags(a2, v, span) == enum_diags(a, v, span));
    assert(string_diags(a2, v, span) == string_diags(a, v, span));
    assert(numeric_diags(a2, v, span) == numeric_diags(a, v, span));
}

/// Whether the type named `t` admits the value `v`: `string` the strings,
/// `integer` the integers, `number` the integers and the other numbers,
/// `boolean` the booleans and `null` null; any other name admits nothing.
pub open spec fn type_admits(t: Seq<char>, v: ValueModel) -> bool {
    ||| (t == "string"@ && v is String)
    ||| (t == "integer"@ && v is Integer)
    ||| (t == "number"@ && (v is Integer || v is Float))
    ||| (t == "boolean"@ && v is Bool)
    ||| (t == "null"@ && v is Null)
}

/// The word a type mismatch gives for the type of the value found.
pub open spec fn found_word(v: ValueModel) -> Seq<char> {
    if v is String {
        "string"@
    } else if v is Integer {
        "integer"@
    } else if v is Float {
        "number"@
    } else if v is Bool {
        "boolean"@
    } else {
        "null"@
    }
}

/// A type constraint reports nothing for a value of its type, and for any
/// other value exactly one error, "Expected type 't', found 'u'" at the
/// value: `type integer` refuses `1.5`, `type number` takes `1` and `1.5`.
/// Without a type constraint nothing is reported.
pub proof fn law_type_constraint(t: Seq<char>, v: ValueModel, span: SourceSpan)
    ensures
        type_diags(None, v, span).len() == 0,
        type_admits(t, v) ==> type_diags(Some(t), v, span).len() == 0,
        !type_admits(t, v) ==> type_diags(Some(t), v, span) == seq![
            err_diag(span, "Expected type '"@ + t + "', found '"@ + found_word(v) + "'"@, "expected "@ + t),
        ],
{
    reveal_strlit("string");
    reveal_strlit("integer");
    reveal_strlit("number");
    reveal_strlit("boolean");
    reveal_strlit("null");
    assert("string"@.len() == 6 && "string"@[0] == 's');
    assert("integer"@.len() == 7 && "integer"@[0] == 'i');
    assert("number"@.len() == 6 && "number"@[0] == 'n');
    assert("boolean"@.len() == 7 && "boolean"@[0] == 'b');
    assert("null"@.len() == 4 && "null"@[0] == 'n');
    assert("string"@ != "integer"@);
    assert("string"@ != "number"@);
    assert("integer"@ != "number"@);
    assert("boolean"@ != "number"@ && "boolean"@ != "integer"@);
    assert("null"@ != "number"@ && "null"@ != "integer"@);
    assert(kind_name(v) == found_word(v));
}

/// The checks of a value begin with its type: where the constraints name a
/// type that the value is not of, the first diagnostic is that type error.
pub proof fn law_type_checked_first(c: ValidationsModel, v: ValueModel, span: SourceSpan)
    requires
        c.ty is Some,
        !type_admits(c.ty->0, v),
    ensures
        check_model(c, v, span).len() >= 1,
        check_model(c, v, span)[0] == err_diag(
            span,
            "Expected type '"@ + c.ty->0 + "', found '"@ + found_word(v) + "'"@,
            "expected "@ + c.ty->0,
        ),
{
    law_type_constraint(c.ty->0, v, span);
}

/// Numeric bounds between integers: `gt x` is broken by values not greater
/// than `x`, `gte x` by values less than `x`, `lt x` by values not less than
/// `x`, and `lte x` by values greater than `x`; each breach is one error.
pub proof fn law_integer_bounds(i: i128, x: i128, span: SourceSpan)
    ensures
        bound_diags(Some(Number::Integer(x)), Bound::Gt, Number::Integer(i), span).len() == if i > x {
            0nat
        } else {
            1nat
        },
        bound_diags(Some(Number::Integer(x)), Bound::Gte, Number::Integer(i), span).len() == if i >= x {
            0nat
        } else {
            1nat
        },
        bound_diags(Some(Number::Integer(x)), Bound::Lt, Number::Integer(i), span).len() == if i < x {
            0nat
        } else {
            1nat
        },
        bound_diags(Some(Number::Integer(x)), Bound::Lte, Number::Integer(i), span).len() == if i <= x {
            0nat
        } else {
            1nat
        },
        bound_diags(None, Bound::Gt, Number::Integer(i), span).len() == 0,
{
    assert(crate::number::pow10(0) == 1);
    assert(i as int * crate::number::pow10(0) == i as int);
    assert(x as int * crate::number::pow10(0) == x as int);
}

/// String length bounds, counted in bytes of UTF-8: `min-length m` is
/// broken by shorter strings ("too short"), `max-length m` by longer ones
/// ("too long"), and a string within both draws nothing from them.
pub proof fn law_string_length(c: ValidationsModel, s: Seq<char>, span: SourceSpan)
    ensures
        length_diags(c, s, span).len() == (if c.min_length matches Some(m) && (str_len(s) as nat) < m {
            1nat
        } else {
            0nat
        }) + (if c.max_length matches Some(m) && (str_len(s) as nat) > m {
            1nat
        } else {
            0nat
        }),
        (c.min_length matches Some(m) && (str_len(s) as nat) < m) ==> length_diags(c, s, span)[0].label == Some(
            "too short"@,
        ),
        (c.max_length matches Some(m) && (str_len(s) as nat) > m) ==> length_diags(c, s, span).last().label
            == Some("too long"@),
{
}

/// An enum constraint admits exactly the values equal to one of its listed
/// values (or any value where it allows others, or lists none); any other
/// value draws one error.
pub proof fn law_enum_constraint(c: ValidationsModel, v: ValueModel, span: SourceSpan)
    ensures
        enum_diags(c, v, span).len() == if c.enum_values.len() == 0 || c.enum_allow_others || exists|i: int|
            0 <= i < c.enum_values.len() && value_eq(#[trigger] c.enum_values[i], v) {
            0nat
        } else {
            1nat
        },
{
}

} // verus!
