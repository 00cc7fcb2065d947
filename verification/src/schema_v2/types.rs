//! Validation constraints: what a schema node says a value must be.

use vstd::prelude::*;

use crate::diagnostic::opt_text;

use crate::diagnostic::{diags_view, lemma_diags_view_push, DiagnosticModel, KdlDiagnostic, Severity};
use crate::document::{find_node, lemma_child_smaller, nth_arg, KdlDocument, KdlEntry, KdlNode, SourceSpan};
use crate::number::{ext_not_multiple, float_ext, num_ext, num_order, number_not_multiple, number_order, Ext, KdlFloat, Number};
use crate::render::{number_text, push_number, push_quoted, push_value, quoted_text, value_text, value_to_string};
use crate::schema_v2::formats::{
    all_upper, all_upper_c, base64_c, base64_ok, contains_sub, date_parses, datetime_parses,
    has_char, hostname_c, hostname_ok, ipv4_c, ipv4_ok, ipv6_c, ipv6_ok, jiff_date_parses,
    jiff_datetime_parses, jiff_span_parses, jiff_time_parses, jiff_timestamp_parses, span_parses,
    starts_with, time_parses, timestamp_parses, url_c, url_ok, uuid_c, uuid_ok,
};
use crate::text::{chars_of, int_text, push_char, push_int, push_str, str_eq};
use crate::value::{value_eq, value_number, KdlValue, ValueModel};

verus! {

/// Format constraints for values, by the names that schemas give them.
#[derive(Debug)]
pub enum ValueFormat {
    /// ISO8601 date/time format
    DateTime,
    /// ISO8601 time format
    Time,
    /// ISO8601 date format
    Date,
    /// ISO8601 duration format
    Duration,
    /// IEEE 754-2008 decimal string format
    Decimal,
    /// ISO 4217 currency code
    Currency,
    /// ISO 3166-1 alpha-2 country code
    Country2,
    /// ISO 3166-1 alpha-3 country code
    Country3,
    /// ISO 3166-2 country subdivision code
    CountrySubdivision,
    /// RFC5302 email address
    Email,
    /// RFC6531 internationalized email address
    IdnEmail,
    /// RFC1123 internet hostname
    Hostname,
    /// RFC5890 internationalized internet hostname
    IdnHostname,
    /// RFC2673 dotted-quad IPv4 address
    Ipv4,
    /// RFC2373 IPv6 address
    Ipv6,
    /// RFC3986 URI
    Url,
    /// RFC3986 URI Reference
    UrlReference,
    /// RFC3987 Internationalized Resource Identifier
    Irl,
    /// RFC3987 Internationalized Resource Identifier Reference
    IrlReference,
    /// RFC6570 URI Template
    UrlTemplate,
    /// RFC4122 UUID
    Uuid,
    /// Regular expression
    Regex,
    /// Base64-encoded binary data
    Base64,
    /// KDL Query string
    KdlQuery,
    /// KPath reference
    KPath,
    /// 8-bit signed integer
    I8,
    /// 16-bit signed integer
    I16,
    /// 32-bit signed integer
    I32,
    /// 64-bit signed integer
    I64,
    /// 128-bit signed integer
    I128,
    /// 8-bit unsigned integer
    U8,
    /// 16-bit unsigned integer
    U16,
    /// 32-bit unsigned integer
    U32,
    /// 64-bit unsigned integer
    U64,
    /// 128-bit unsigned integer
    U128,
    /// Platform-dependent signed integer
    Isize,
    /// Platform-dependent unsigned integer
    Usize,
    /// IEEE 754 single precision float
    F32,
    /// IEEE 754 double precision float
    F64,
    /// IEEE 754-2008 64-bit decimal
    Decimal64,
    /// IEEE 754-2008 128-bit decimal
    Decimal128,
    /// Custom or unknown format
    Custom(String),
}

/// What a [`ValueFormat`] holds, with a custom format's name as a sequence of characters.
pub enum FormatModel {
    DateTime,
    Time,
    Date,
    Duration,
    Decimal,
    Currency,
    Country2,
    Country3,
    CountrySubdivision,
    Email,
    IdnEmail,
    Hostname,
    IdnHostname,
    Ipv4,
    Ipv6,
    Url,
    UrlReference,
    Irl,
    IrlReference,
    UrlTemplate,
    Uuid,
    Regex,
    Base64,
    KdlQuery,
    KPath,
    I8,
    I16,
    I32,
    I64,
    I128,
    U8,
    U16,
    U32,
    U64,
    U128,
    Isize,
    Usize,
    F32,
    F64,
    Decimal64,
    Decimal128,
    Custom(Seq<char>),
}

impl View for ValueFormat {
    type V = FormatModel;

    open spec fn view(&self) -> FormatModel {
        match self {
            ValueFormat::DateTime => FormatModel::DateTime,
            ValueFormat::Time => FormatModel::Time,
            ValueFormat::Date => FormatModel::Date,
            ValueFormat::Duration => FormatModel::Duration,
            ValueFormat::Decimal => FormatModel::Decimal,
            ValueFormat::Currency => FormatModel::Currency,
            ValueFormat::Country2 => FormatModel::Country2,
            ValueFormat::Country3 => FormatModel::Country3,
            ValueFormat::CountrySubdivision => FormatModel::CountrySubdivision,
            ValueFormat::Email => FormatModel::Email,
            ValueFormat::IdnEmail => FormatModel::IdnEmail,
            ValueFormat::Hostname => FormatModel::Hostname,
            ValueFormat::IdnHostname => FormatModel::IdnHostname,
            ValueFormat::Ipv4 => FormatModel::Ipv4,
            ValueFormat::Ipv6 => FormatModel::Ipv6,
            ValueFormat::Url => FormatModel::Url,
            ValueFormat::UrlReference => FormatModel::UrlReference,
            ValueFormat::Irl => FormatModel::Irl,
            ValueFormat::IrlReference => FormatModel::IrlReference,
            ValueFormat::UrlTemplate => FormatModel::UrlTemplate,
            ValueFormat::Uuid => FormatModel::Uuid,
            ValueFormat::Regex => FormatModel::Regex,
            ValueFormat::Base64 => FormatModel::Base64,
            ValueFormat::KdlQuery => FormatModel::KdlQuery,
            ValueFormat::KPath => FormatModel::KPath,
            ValueFormat::I8 => FormatModel::I8,
            ValueFormat::I16 => FormatModel::I16,
            ValueFormat::I32 => FormatModel::I32,
            ValueFormat::I64 => FormatModel::I64,
            ValueFormat::I128 => FormatModel::I128,
            ValueFormat::U8 => FormatModel::U8,
            ValueFormat::U16 => FormatModel::U16,
            ValueFormat::U32 => FormatModel::U32,
            ValueFormat::U64 => FormatModel::U64,
            ValueFormat::U128 => FormatModel::U128,
            ValueFormat::Isize => FormatModel::Isize,
            ValueFormat::Usize => FormatModel::Usize,
            ValueFormat::F32 => FormatModel::F32,
            ValueFormat::F64 => FormatModel::F64,
            ValueFormat::Decimal64 => FormatModel::Decimal64,
            ValueFormat::Decimal128 => FormatModel::Decimal128,
            ValueFormat::Custom(c) => FormatModel::Custom(c@),
        }
    }
}

impl Clone for ValueFormat {
    fn clone(&self) -> (r: Self)
        ensures
            r@ == self@,
    {
        match self {
            ValueFormat::DateTime => ValueFormat::DateTime,
            ValueFormat::Time => ValueFormat::Time,
            ValueFormat::Date => ValueFormat::Date,
            ValueFormat::Duration => ValueFormat::Duration,
            ValueFormat::Decimal => ValueFormat::Decimal,
            ValueFormat::Currency => ValueFormat::Currency,
            ValueFormat::Country2 => ValueFormat::Country2,
            ValueFormat::Country3 => ValueFormat::Country3,
            ValueFormat::CountrySubdivision => ValueFormat::CountrySubdivision,
            ValueFormat::Email => ValueFormat::Email,
            ValueFormat::IdnEmail => ValueFormat::IdnEmail,
            ValueFormat::Hostname => ValueFormat::Hostname,
            ValueFormat::IdnHostname => ValueFormat::IdnHostname,
            ValueFormat::Ipv4 => ValueFormat::Ipv4,
            ValueFormat::Ipv6 => ValueFormat::Ipv6,
            ValueFormat::Url => ValueFormat::Url,
            ValueFormat::UrlReference => ValueFormat::UrlReference,
            ValueFormat::Irl => ValueFormat::Irl,
            ValueFormat::IrlReference => ValueFormat::IrlReference,
            ValueFormat::UrlTemplate => ValueFormat::UrlTemplate,
            ValueFormat::Uuid => ValueFormat::Uuid,
            ValueFormat::Regex => ValueFormat::Regex,
            ValueFormat::Base64 => ValueFormat::Base64,
            ValueFormat::KdlQuery => ValueFormat::KdlQuery,
            ValueFormat::KPath => ValueFormat::KPath,
            ValueFormat::I8 => ValueFormat::I8,
            ValueFormat::I16 => ValueFormat::I16,
            ValueFormat::I32 => ValueFormat::I32,
            ValueFormat::I64 => ValueFormat::I64,
            ValueFormat::I128 => ValueFormat::I128,
            ValueFormat::U8 => ValueFormat::U8,
            ValueFormat::U16 => ValueFormat::U16,
            ValueFormat::U32 => ValueFormat::U32,
            ValueFormat::U64 => ValueFormat::U64,
            ValueFormat::U128 => ValueFormat::U128,
            ValueFormat::Isize => ValueFormat::Isize,
            ValueFormat::Usize => ValueFormat::Usize,
            ValueFormat::F32 => ValueFormat::F32,
            ValueFormat::F64 => ValueFormat::F64,
            ValueFormat::Decimal64 => ValueFormat::Decimal64,
            ValueFormat::Decimal128 => ValueFormat::Decimal128,
            ValueFormat::Custom(c) => ValueFormat::Custom(c.clone()),
        }
    }
}

/// The format that a name in a schema stands for.
pub open spec fn format_of(s: Seq<char>) -> FormatModel {
    if s == "date-time"@ {
        FormatModel::DateTime
    } else if s == "time"@ {
        FormatModel::Time
    } else if s == "date"@ {
        FormatModel::Date
    } else if s == "duration"@ {
        FormatModel::Duration
    } else if s == "decimal"@ {
        FormatModel::Decimal
    } else if s == "currency"@ {
        FormatModel::Currency
    } else if s == "country-2"@ {
        FormatModel::Country2
    } else if s == "country-3"@ {
        FormatModel::Country3
    } else if s == "country-subdivision"@ {
        FormatModel::CountrySubdivision
    } else if s == "email"@ {
        FormatModel::Email
    } else if s == "idn-email"@ {
        FormatModel::IdnEmail
    } else if s == "hostname"@ {
        FormatModel::Hostname
    } else if s == "idn-hostname"@ {
        FormatModel::IdnHostname
    } else if s == "ipv4"@ {
        FormatModel::Ipv4
    } else if s == "ipv6"@ {
        FormatModel::Ipv6
    } else if s == "url"@ {
        FormatModel::Url
    } else if s == "url-reference"@ {
        FormatModel::UrlReference
    } else if s == "irl"@ {
        FormatModel::Irl
    } else if s == "irl-reference"@ {
        FormatModel::IrlReference
    } else if s == "url-template"@ {
        FormatModel::UrlTemplate
    } else if s == "uuid"@ {
        FormatModel::Uuid
    } else if s == "regex"@ {
        FormatModel::Regex
    } else if s == "base64"@ {
        FormatModel::Base64
    } else if s == "kdl-query"@ {
        FormatModel::KdlQuery
    } else if s == "kpath"@ {
        FormatModel::KPath
    } else if s == "i8"@ {
        FormatModel::I8
    } else if s == "i16"@ {
        FormatModel::I16
    } else if s == "i32"@ {
        FormatModel::I32
    } else if s == "i64"@ {
        FormatModel::I64
    } else if s == "i128"@ {
        FormatModel::I128
    } else if s == "u8"@ {
        FormatModel::U8
    } else if s == "u16"@ {
        FormatModel::U16
    } else if s == "u32"@ {
        FormatModel::U32
    } else if s == "u64"@ {
        FormatModel::U64
    } else if s == "u128"@ {
        FormatModel::U128
    } else if s == "isize"@ {
        FormatModel::Isize
    } else if s == "usize"@ {
        FormatModel::Usize
    } else if s == "f32"@ {
        FormatModel::F32
    } else if s == "f64"@ {
        FormatModel::F64
    } else if s == "decimal64"@ {
        FormatModel::Decimal64
    } else if s == "decimal128"@ {
        FormatModel::Decimal128
    } else {
        FormatModel::Custom(s)
    }
}

/// The name of a format, as `{:?}` shows it.
pub open spec fn format_debug_text(f: FormatModel) -> Seq<char> {
    match f {
        FormatModel::DateTime => "DateTime"@,
        FormatModel::Time => "Time"@,
        FormatModel::Date => "Date"@,
        FormatModel::Duration => "Duration"@,
        FormatModel::Decimal => "Decimal"@,
        FormatModel::Currency => "Currency"@,
        FormatModel::Country2 => "Country2"@,
        FormatModel::Country3 => "Country3"@,
        FormatModel::CountrySubdivision => "CountrySubdivision"@,
        FormatModel::Email => "Email"@,
        FormatModel::IdnEmail => "IdnEmail"@,
        FormatModel::Hostname => "Hostname"@,
        FormatModel::IdnHostname => "IdnHostname"@,
        FormatModel::Ipv4 => "Ipv4"@,
        FormatModel::Ipv6 => "Ipv6"@,
        FormatModel::Url => "Url"@,
        FormatModel::UrlReference => "UrlReference"@,
        FormatModel::Irl => "Irl"@,
        FormatModel::IrlReference => "IrlReference"@,
        FormatModel::UrlTemplate => "UrlTemplate"@,
        FormatModel::Uuid => "Uuid"@,
        FormatModel::Regex => "Regex"@,
        FormatModel::Base64 => "Base64"@,
        FormatModel::KdlQuery => "KdlQuery"@,
        FormatModel::KPath => "KPath"@,
        FormatModel::I8 => "I8"@,
        FormatModel::I16 => "I16"@,
        FormatModel::I32 => "I32"@,
        FormatModel::I64 => "I64"@,
        FormatModel::I128 => "I128"@,
        FormatModel::U8 => "U8"@,
        FormatModel::U16 => "U16"@,
        FormatModel::U32 => "U32"@,
        FormatModel::U64 => "U64"@,
        FormatModel::U128 => "U128"@,
        FormatModel::Isize => "Isize"@,
        FormatModel::Usize => "Usize"@,
        FormatModel::F32 => "F32"@,
        FormatModel::F64 => "F64"@,
        FormatModel::Decimal64 => "Decimal64"@,
        FormatModel::Decimal128 => "Decimal128"@,
        FormatModel::Custom(c) => "Custom("@ + quoted_text(c) + ")"@,
    }
}

impl ValueFormat {
    /// Parse a format name into a ValueFormat.
    pub fn parse(s: &str) -> (r: ValueFormat)
        ensures
            r@ == format_of(s@),
    {
        if str_eq(s, "date-time") {
            ValueFormat::DateTime
        } else if str_eq(s, "time") {
            ValueFormat::Time
        } else if str_eq(s, "date") {
            ValueFormat::Date
        } else if str_eq(s, "duration") {
            ValueFormat::Duration
        } else if str_eq(s, "decimal") {
            ValueFormat::Decimal
        } else if str_eq(s, "currency") {
            ValueFormat::Currency
        } else if str_eq(s, "country-2") {
            ValueFormat::Country2
        } else if str_eq(s, "country-3") {
            ValueFormat::Country3
        } else if str_eq(s, "country-subdivision") {
            ValueFormat::CountrySubdivision
        } else if str_eq(s, "email") {
            ValueFormat::Email
        } else if str_eq(s, "idn-email") {
            ValueFormat::IdnEmail
        } else if str_eq(s, "hostname") {
            ValueFormat::Hostname
        } else if str_eq(s, "idn-hostname") {
            ValueFormat::IdnHostname
        } else if str_eq(s, "ipv4") {
            ValueFormat::Ipv4
        } else if str_eq(s, "ipv6") {
            ValueFormat::Ipv6
        } else if str_eq(s, "url") {
            ValueFormat::Url
        } else if str_eq(s, "url-reference") {
            ValueFormat::UrlReference
        } else if str_eq(s, "irl") {
            ValueFormat::Irl
        } else if str_eq(s, "irl-reference") {
            ValueFormat::IrlReference
        } else if str_eq(s, "url-template") {
            ValueFormat::UrlTemplate
        } else if str_eq(s, "uuid") {
            ValueFormat::Uuid
        } else if str_eq(s, "regex") {
            ValueFormat::Regex
        } else if str_eq(s, "base64") {
            ValueFormat::Base64
        } else if str_eq(s, "kdl-query") {
            ValueFormat::KdlQuery
        } else if str_eq(s, "kpath") {
            ValueFormat::KPath
        } else if str_eq(s, "i8") {
            ValueFormat::I8
        } else if str_eq(s, "i16") {
            ValueFormat::I16
        } else if str_eq(s, "i32") {
            ValueFormat::I32
        } else if str_eq(s, "i64") {
            ValueFormat::I64
        } else if str_eq(s, "i128") {
            ValueFormat::I128
        } else if str_eq(s, "u8") {
            ValueFormat::U8
        } else if str_eq(s, "u16") {
            ValueFormat::U16
        } else if str_eq(s, "u32") {
            ValueFormat::U32
        } else if str_eq(s, "u64") {
            ValueFormat::U64
        } else if str_eq(s, "u128") {
            ValueFormat::U128
        } else if str_eq(s, "isize") {
            ValueFormat::Isize
        } else if str_eq(s, "usize") {
            ValueFormat::Usize
        } else if str_eq(s, "f32") {
            ValueFormat::F32
        } else if str_eq(s, "f64") {
            ValueFormat::F64
        } else if str_eq(s, "decimal64") {
            ValueFormat::Decimal64
        } else if str_eq(s, "decimal128") {
            ValueFormat::Decimal128
        } else {
            ValueFormat::Custom(s.to_owned())
        }
    }
}

/// Appends the name of a format, as `{:?}` shows it, to `s`.
pub fn push_format_debug(s: &mut String, f: &ValueFormat)
    ensures
        final(s)@ == old(s)@ + format_debug_text(f@),
{
    match f {
        ValueFormat::DateTime => push_str(s, "DateTime"),
        ValueFormat::Time => push_str(s, "Time"),
        ValueFormat::Date => push_str(s, "Date"),
        ValueFormat::Duration => push_str(s, "Duration"),
        ValueFormat::Decimal => push_str(s, "Decimal"),
        ValueFormat::Currency => push_str(s, "Currency"),
        ValueFormat::Country2 => push_str(s, "Country2"),
        ValueFormat::Country3 => push_str(s, "Country3"),
        ValueFormat::CountrySubdivision => push_str(s, "CountrySubdivision"),
        ValueFormat::Email => push_str(s, "Email"),
        ValueFormat::IdnEmail => push_str(s, "IdnEmail"),
        ValueFormat::Hostname => push_str(s, "Hostname"),
        ValueFormat::IdnHostname => push_str(s, "IdnHostname"),
        ValueFormat::Ipv4 => push_str(s, "Ipv4"),
        ValueFormat::Ipv6 => push_str(s, "Ipv6"),
        ValueFormat::Url => push_str(s, "Url"),
        ValueFormat::UrlReference => push_str(s, "UrlReference"),
        ValueFormat::Irl => push_str(s, "Irl"),
        ValueFormat::IrlReference => push_str(s, "IrlReference"),
        ValueFormat::UrlTemplate => push_str(s, "UrlTemplate"),
        ValueFormat::Uuid => push_str(s, "Uuid"),
        ValueFormat::Regex => push_str(s, "Regex"),
        ValueFormat::Base64 => push_str(s, "Base64"),
        ValueFormat::KdlQuery => push_str(s, "KdlQuery"),
        ValueFormat::KPath => push_str(s, "KPath"),
        ValueFormat::I8 => push_str(s, "I8"),
        ValueFormat::I16 => push_str(s, "I16"),
        ValueFormat::I32 => push_str(s, "I32"),
        ValueFormat::I64 => push_str(s, "I64"),
        ValueFormat::I128 => push_str(s, "I128"),
        ValueFormat::U8 => push_str(s, "U8"),
        ValueFormat::U16 => push_str(s, "U16"),
        ValueFormat::U32 => push_str(s, "U32"),
        ValueFormat::U64 => push_str(s, "U64"),
        ValueFormat::U128 => push_str(s, "U128"),
        ValueFormat::Isize => push_str(s, "Isize"),
        ValueFormat::Usize => push_str(s, "Usize"),
        ValueFormat::F32 => push_str(s, "F32"),
        ValueFormat::F64 => push_str(s, "F64"),
        ValueFormat::Decimal64 => push_str(s, "Decimal64"),
        ValueFormat::Decimal128 => push_str(s, "Decimal128"),
        ValueFormat::Custom(c) => {
            push_str(s, "Custom(");
            push_quoted(s, c.as_str());
            push_str(s, ")");
            assert(s@ =~= old(s)@ + format_debug_text(f@));
        },
    }
}

/// Which names a schema gives its range and annotation constraints.
#[derive(Clone, Copy, Debug, PartialEq, Eq, Structural)]
pub enum ConstraintSyntax {
    /// `>`, `>=`, `<`, `<=`, and `tag` for annotations.
    V1,
    /// `gt`, `gte`, `lt`, `lte`, and `annotations` (or `tag`) for annotations.
    V2,
}

/// Validation constraints extracted from a schema node.
#[derive(Debug)]
pub struct Validations {
    /// Type constraint ("string", "number", "integer", "boolean", "null")
    pub ty: Option<String>,
    /// Allowed values
    pub enum_values: Vec<KdlValue>,
    /// Whether other values are allowed (`disallow-others=#false` on `enum`)
    pub enum_allow_others: bool,
    /// Regular expressions that a string must match; one that does not compile is skipped
    pub patterns: Vec<String>,
    /// Minimum string length, in bytes
    pub min_length: Option<u64>,
    /// Maximum string length, in bytes
    pub max_length: Option<u64>,
    /// Formats, any one of which must fit
    pub formats: Vec<ValueFormat>,
    /// Multiple-of constraints
    pub multiple_of: Vec<Number>,
    pub gt: Option<Number>,
    pub gte: Option<Number>,
    pub lt: Option<Number>,
    pub lte: Option<Number>,
    /// Constraints on the value's type annotation
    pub tag: Option<Box<Validations>>,
    /// Default value
    pub default: Option<KdlValue>,
}

/// What a [`Validations`] holds.
pub struct ValidationsModel {
    pub ty: Option<Seq<char>>,
    pub enum_values: Seq<ValueModel>,
    pub enum_allow_others: bool,
    pub patterns: Seq<Seq<char>>,
    pub min_length: Option<u64>,
    pub max_length: Option<u64>,
    pub formats: Seq<FormatModel>,
    pub multiple_of: Seq<Number>,
    pub gt: Option<Number>,
    pub gte: Option<Number>,
    pub lt: Option<Number>,
    pub lte: Option<Number>,
    pub tag: Option<Box<ValidationsModel>>,
    pub default: Option<ValueModel>,
}


pub open spec fn opt_value(v: Option<KdlValue>) -> Option<ValueModel> {
    match v {
        Some(x) => Some(x@),
        None => None,
    }
}

pub open spec fn values_view(v: Seq<KdlValue>) -> Seq<ValueModel> {
    v.map_values(|x: KdlValue| x@)
}

pub open spec fn texts_view(v: Seq<String>) -> Seq<Seq<char>> {
    v.map_values(|x: String| x@)
}

pub open spec fn formats_view(v: Seq<ValueFormat>) -> Seq<FormatModel> {
    v.map_values(|x: ValueFormat| x@)
}

pub open spec fn vmodel(v: Validations) -> ValidationsModel
    decreases v,
{
    ValidationsModel {
        ty: opt_text(v.ty),
        enum_values: values_view(v.enum_values@),
        enum_allow_others: v.enum_allow_others,
        patterns: texts_view(v.patterns@),
        min_length: v.min_length,
        max_length: v.max_length,
        formats: formats_view(v.formats@),
        multiple_of: v.multiple_of@,
        gt: v.gt,
        gte: v.gte,
        lt: v.lt,
        lte: v.lte,
        tag: match v.tag {
            Some(t) => Some(Box::new(vmodel(*t))),
            None => None,
        },
        default: opt_value(v.default),
    }
}

impl View for Validations {
    type V = ValidationsModel;

    open spec fn view(&self) -> ValidationsModel {
        vmodel(*self)
    }
}

pub open spec fn empty_model() -> ValidationsModel {
    ValidationsModel {
        ty: None,
        enum_values: Seq::empty(),
        enum_allow_others: false,
        patterns: Seq::empty(),
        min_length: None,
        max_length: None,
        formats: Seq::empty(),
        multiple_of: Seq::empty(),
        gt: None,
        gte: None,
        lt: None,
        lte: None,
        tag: None,
        default: None,
    }
}

/// The first positional argument of a node, if it has one.
pub open spec fn arg0(n: KdlNode) -> Option<ValueModel> {
    match nth_arg(n.entries@, 0) {
        Some(v) => Some(v@),
        None => None,
    }
}

/// The `type` constraint among a schema node's children: the text of its first argument.
pub open spec fn type_constraint(nodes: Seq<KdlNode>) -> Option<Seq<char>> {
    match find_node(nodes, "type"@) {
        None => None,
        Some(t) => match arg0(t) {
            Some(ValueModel::String(s)) => Some(s),
            Some(v) => Some(value_text(v)),
            None => None,
        },
    }
}

/// The positional values of an `enum` node.
pub open spec fn enum_vals(es: Seq<KdlEntry>) -> Seq<ValueModel>
    decreases es.len(),
{
    if es.len() == 0 {
        Seq::empty()
    } else if es.last().name is None {
        enum_vals(es.drop_last()).push(es.last().value@)
    } else {
        enum_vals(es.drop_last())
    }
}

/// Whether an `enum` node allows other values: the last boolean `disallow-others=` property, negated.
pub open spec fn enum_allow(es: Seq<KdlEntry>) -> bool
    decreases es.len(),
{
    if es.len() == 0 {
        false
    } else if es.last().name matches Some(n) && n.value@ == "disallow-others"@ && es.last().value@ is Bool {
        !es.last().value@->Bool_0
    } else {
        enum_allow(es.drop_last())
    }
}

/// The first arguments of the `pattern` nodes that are strings, in order.
pub open spec fn patterns_of(nodes: Seq<KdlNode>) -> Seq<Seq<char>>
    decreases nodes.len(),
{
    if nodes.len() == 0 {
        Seq::empty()
    } else if nodes.last().name.value@ == "pattern"@ && arg0(nodes.last()) is Some && arg0(
        nodes.last(),
    )->0 is String {
        patterns_of(nodes.drop_last()).push(arg0(nodes.last())->0->String_0)
    } else {
        patterns_of(nodes.drop_last())
    }
}

/// A length bound: the first argument of the node `key`, where it is an integer,
/// converted to `u64` as `as` does.
pub open spec fn length_bound(nodes: Seq<KdlNode>, key: Seq<char>) -> Option<u64> {
    match find_node(nodes, key) {
        Some(n) => match arg0(n) {
            Some(ValueModel::Integer(i)) => Some(i as u64),
            _ => None,
        },
        None => None,
    }
}

/// The formats named by the positional arguments of a `format` node.
pub open spec fn entry_formats(es: Seq<KdlEntry>) -> Seq<FormatModel>
    decreases es.len(),
{
    if es.len() == 0 {
        Seq::empty()
    } else if es.last().name is None {
        let f = match es.last().value@ {
            ValueModel::String(s) => format_of(s),
            v => format_of(value_text(v)),
        };
        entry_formats(es.drop_last()).push(f)
    } else {
        entry_formats(es.drop_last())
    }
}

/// The formats named by all `format` nodes, in order.
pub open spec fn formats_of(nodes: Seq<KdlNode>) -> Seq<FormatModel>
    decreases nodes.len(),
{
    if nodes.len() == 0 {
        Seq::empty()
    } else if nodes.last().name.value@ == "format"@ {
        formats_of(nodes.drop_last()) + entry_formats(nodes.last().entries@)
    } else {
        formats_of(nodes.drop_last())
    }
}

/// The numbers of the `%` nodes, in order.
pub open spec fn multiples_of(nodes: Seq<KdlNode>) -> Seq<Number>
    decreases nodes.len(),
{
    if nodes.len() == 0 {
        Seq::empty()
    } else if nodes.last().name.value@ == "%"@ && arg0(nodes.last()) is Some && value_number(
        arg0(nodes.last())->0,
    ) is Some {
        multiples_of(nodes.drop_last()).push(value_number(arg0(nodes.last())->0)->0)
    } else {
        multiples_of(nodes.drop_last())
    }
}

/// A numeric bound: the first argument of the node `key`, where it is a number.
pub open spec fn num_bound(nodes: Seq<KdlNode>, key: Seq<char>) -> Option<Number> {
    match find_node(nodes, key) {
        Some(n) => match arg0(n) {
            Some(v) => value_number(v),
            None => None,
        },
        None => None,
    }
}

pub open spec fn gt_key(syn: ConstraintSyntax) -> Seq<char> {
    if syn == ConstraintSyntax::V1 {
        ">"@
    } else {
        "gt"@
    }
}

pub open spec fn gte_key(syn: ConstraintSyntax) -> Seq<char> {
    if syn == ConstraintSyntax::V1 {
        ">="@
    } else {
        "gte"@
    }
}

pub open spec fn lt_key(syn: ConstraintSyntax) -> Seq<char> {
    if syn == ConstraintSyntax::V1 {
        "<"@
    } else {
        "lt"@
    }
}

pub open spec fn lte_key(syn: ConstraintSyntax) -> Seq<char> {
    if syn == ConstraintSyntax::V1 {
        "<="@
    } else {
        "lte"@
    }
}

/// The node that holds the constraints on a value's type annotation.
pub open spec fn tag_node(nodes: Seq<KdlNode>, syn: ConstraintSyntax) -> Option<KdlNode> {
    if syn == ConstraintSyntax::V2 && find_node(nodes, "annotations"@) is Some {
        find_node(nodes, "annotations"@)
    } else {
        find_node(nodes, "tag"@)
    }
}

/// The default value: the first argument of the `default` node.
pub open spec fn default_of(nodes: Seq<KdlNode>) -> Option<ValueModel> {
    match find_node(nodes, "default"@) {
        Some(n) => arg0(n),
        None => None,
    }
}

/// The constraints that a schema node states in its children.
pub open spec fn constraints_of(node: KdlNode, syn: ConstraintSyntax) -> ValidationsModel
    decreases node,
{
    match node.children {
        None => empty_model(),
        Some(ch) => {
            let nodes = ch.nodes@;
            let en = find_node(nodes, "enum"@);
            ValidationsModel {
                ty: type_constraint(nodes),
                enum_values: match en {
                    Some(e) => enum_vals(e.entries@),
                    None => Seq::empty(),
                },
                enum_allow_others: match en {
                    Some(e) => enum_allow(e.entries@),
                    None => false,
                },
                patterns: patterns_of(nodes),
                min_length: length_bound(nodes, "min-length"@),
                max_length: length_bound(nodes, "max-length"@),
                formats: formats_of(nodes),
                multiple_of: multiples_of(nodes),
                gt: num_bound(nodes, gt_key(syn)),
                gte: num_bound(nodes, gte_key(syn)),
                lt: num_bound(nodes, lt_key(syn)),
                lte: num_bound(nodes, lte_key(syn)),
                tag: match tag_node(nodes, syn) {
                    Some(t) => {
                        proof {
                            lemma_child_smaller(node, "annotations"@);
                            lemma_child_smaller(node, "tag"@);
                        }
                        Some(Box::new(constraints_of(t, syn)))
                    },
                    None => None,
                },
                default: default_of(nodes),
            }
        },
    }
}

/// The constraints of `a`, completed by those of `b` where `a` states none.
pub open spec fn merge_model(a: ValidationsModel, b: ValidationsModel) -> ValidationsModel {
    ValidationsModel {
        ty: if a.ty is None { b.ty } else { a.ty },
        enum_values: if a.enum_values.len() == 0 { b.enum_values } else { a.enum_values },
        enum_allow_others: if a.enum_values.len() == 0 {
            b.enum_allow_others
        } else {
            a.enum_allow_others
        },
        patterns: a.patterns + b.patterns,
        min_length: if a.min_length is None { b.min_length } else { a.min_length },
        max_length: if a.max_length is None { b.max_length } else { a.max_length },
        formats: a.formats + b.formats,
        multiple_of: a.multiple_of + b.multiple_of,
        gt: if a.gt is None { b.gt } else { a.gt },
        gte: if a.gte is None { b.gte } else { a.gte },
        lt: if a.lt is None { b.lt } else { a.lt },
        lte: if a.lte is None { b.lte } else { a.lte },
        tag: if a.tag is None { b.tag } else { a.tag },
        default: if a.default is None { b.default } else { a.default },
    }
}


/// The first positional argument of a node.
pub fn first_arg(n: &KdlNode) -> (r: Option<&KdlValue>)
    ensures
        r matches Some(v) ==> arg0(*n) == Some(v@) && nth_arg(n.entries@, 0) == Some(*v),
        r is None ==> arg0(*n) is None && nth_arg(n.entries@, 0) is None,
{
    n.get(0)
}

fn type_constraint_c(ch: &KdlDocument) -> (r: Option<String>)
    ensures
        opt_text(r) == type_constraint(ch.nodes@),
{
    match ch.get("type") {
        None => None,
        Some(t) => match first_arg(t) {
            Some(v) => match v.as_string() {
                Some(s) => Some(s.to_owned()),
                None => Some(value_to_string(v)),
            },
            None => None,
        },
    }
}

fn enum_c(es: &Vec<KdlEntry>) -> (r: (Vec<KdlValue>, bool))
    ensures
        values_view(r.0@) == enum_vals(es@),
        r.1 == enum_allow(es@),
{
    let mut vals: Vec<KdlValue> = Vec::new();
    let mut allow = false;
    let mut i: usize = 0;
    while i < es.len()
        invariant
            i <= es@.len(),
            values_view(vals@) == enum_vals(es@.take(i as int)),
            allow == enum_allow(es@.take(i as int)),
        decreases es.len() - i,
    {
        assert(es@.take(i + 1).drop_last() =~= es@.take(i as int));
        let e = &es[i];
        match &e.name {
            None => {
                let ghost before = vals@;
                vals.push(e.value.clone());
                assert(values_view(vals@) =~= values_view(before).push(e.value@));
            },
            Some(n) => {
                if str_eq(n.value.as_str(), "disallow-others") {
                    match e.value.as_bool() {
                        Some(b) => {
                            allow = !b;
                        },
                        None => {},
                    }
                }
            },
        }
        i += 1;
    }
    assert(es@.take(i as int) =~= es@);
    (vals, allow)
}

fn patterns_c(nodes: &Vec<KdlNode>) -> (r: Vec<String>)
    ensures
        texts_view(r@) == patterns_of(nodes@),
{
    let mut pats: Vec<String> = Vec::new();
    let mut i: usize = 0;
    while i < nodes.len()
        invariant
            i <= nodes@.len(),
            texts_view(pats@) == patterns_of(nodes@.take(i as int)),
        decreases nodes.len() - i,
    {
        assert(nodes@.take(i + 1).drop_last() =~= nodes@.take(i as int));
        let n = &nodes[i];
        if str_eq(n.name.value.as_str(), "pattern") {
            match first_arg(n) {
                Some(v) => match v.as_string() {
                    Some(p) => {
                        let ghost before = pats@;
                        pats.push(p.to_owned());
                        assert(texts_view(pats@) =~= texts_view(before).push(p@));
                    },
                    None => {},
                },
                None => {},
            }
        }
        i += 1;
    }
    assert(nodes@.take(i as int) =~= nodes@);
    pats
}

fn length_bound_c(ch: &KdlDocument, key: &str) -> (r: Option<u64>)
    ensures
        r == length_bound(ch.nodes@, key@),
{
    match ch.get(key) {
        Some(n) => match first_arg(n) {
            Some(v) => match v.as_integer() {
                Some(i) => Some(i as u64),
                None => None,
            },
            None => None,
        },
        None => None,
    }
}

fn entry_formats_c(es: &Vec<KdlEntry>, out: &mut Vec<ValueFormat>)
    ensures
        formats_view(final(out)@) == formats_view(old(out)@) + entry_formats(es@),
{
    let mut i: usize = 0;
    assert(formats_view(out@) =~= formats_view(old(out)@) + entry_formats(es@.take(0)));
    while i < es.len()
        invariant
            i <= es@.len(),
            formats_view(out@) == formats_view(old(out)@) + entry_formats(es@.take(i as int)),
        decreases es.len() - i,
    {
        assert(es@.take(i + 1).drop_last() =~= es@.take(i as int));
        let e = &es[i];
        if e.name.is_none() {
            let f = match e.value.as_string() {
                Some(s) => ValueFormat::parse(s),
                None => {
                    let t = value_to_string(&e.value);
                    ValueFormat::parse(t.as_str())
                },
            };
            let ghost before = out@;
            out.push(f);
            assert(formats_view(out@) =~= formats_view(before).push(f@));
        }
        i += 1;
    }
    assert(es@.take(i as int) =~= es@);
}

fn formats_c(nodes: &Vec<KdlNode>) -> (r: Vec<ValueFormat>)
    ensures
        formats_view(r@) == formats_of(nodes@),
{
    let mut out: Vec<ValueFormat> = Vec::new();
    let mut i: usize = 0;
    while i < nodes.len()
        invariant
            i <= nodes@.len(),
            formats_view(out@) == formats_of(nodes@.take(i as int)),
        decreases nodes.len() - i,
    {
        assert(nodes@.take(i + 1).drop_last() =~= nodes@.take(i as int));
        let n = &nodes[i];
        if str_eq(n.name.value.as_str(), "format") {
            entry_formats_c(&n.entries, &mut out);
        }
        i += 1;
    }
    assert(nodes@.take(i as int) =~= nodes@);
    out
}

fn multiples_c(nodes: &Vec<KdlNode>) -> (r: Vec<Number>)
    ensures
        r@ == multiples_of(nodes@),
{
    let mut out: Vec<Number> = Vec::new();
    let mut i: usize = 0;
    while i < nodes.len()
        invariant
            i <= nodes@.len(),
            out@ == multiples_of(nodes@.take(i as int)),
        decreases nodes.len() - i,
    {
        assert(nodes@.take(i + 1).drop_last() =~= nodes@.take(i as int));
        let n = &nodes[i];
        if str_eq(n.name.value.as_str(), "%") {
            match first_arg(n) {
                Some(v) => match v.as_number() {
                    Some(x) => {
                        out.push(x);
                    },
                    None => {},
                },
                None => {},
            }
        }
        i += 1;
    }
    assert(nodes@.take(i as int) =~= nodes@);
    out
}

fn num_bound_c(ch: &KdlDocument, key: &str) -> (r: Option<Number>)
    ensures
        r == num_bound(ch.nodes@, key@),
{
    match ch.get(key) {
        Some(n) => match first_arg(n) {
            Some(v) => v.as_number(),
            None => None,
        },
        None => None,
    }
}

fn key_of(a: &'static str, b: &'static str, syn: ConstraintSyntax) -> (r: &'static str)
    ensures
        r@ == (if syn == ConstraintSyntax::V1 { a@ } else { b@ }),
{
    match syn {
        ConstraintSyntax::V1 => a,
        ConstraintSyntax::V2 => b,
    }
}

impl Validations {
    /// No constraints.
    pub fn empty() -> (r: Validations)
        ensures
            r@ == empty_model(),
    {
        let r = Validations {
            ty: None,
            enum_values: Vec::new(),
            enum_allow_others: false,
            patterns: Vec::new(),
            min_length: None,
            max_length: None,
            formats: Vec::new(),
            multiple_of: Vec::new(),
            gt: None,
            gte: None,
            lt: None,
            lte: None,
            tag: None,
            default: None,
        };
        assert(values_view(r.enum_values@) =~= Seq::empty());
        assert(texts_view(r.patterns@) =~= Seq::empty());
        assert(formats_view(r.formats@) =~= Seq::empty());
        r
    }

    /// The constraints that a schema node states in its children (see [`constraints_of`]).
    pub fn from_node(node: &KdlNode, syn: ConstraintSyntax) -> (r: Validations)
        ensures
            r@ == constraints_of(*node, syn),
        decreases *node,
    {
        let ch = match node.children() {
            None => return Validations::empty(),
            Some(c) => c,
        };
        let ty = type_constraint_c(ch);
        let (enum_values, enum_allow_others) = match ch.get("enum") {
            Some(e) => enum_c(&e.entries),
            None => {
                let v: Vec<KdlValue> = Vec::new();
                assert(values_view(v@) =~= Seq::empty());
                (v, false)
            },
        };
        let patterns = patterns_c(&ch.nodes);
        let min_length = length_bound_c(ch, "min-length");
        let max_length = length_bound_c(ch, "max-length");
        let formats = formats_c(&ch.nodes);
        let multiple_of = multiples_c(&ch.nodes);
        let gt = num_bound_c(ch, key_of(">", "gt", syn));
        let gte = num_bound_c(ch, key_of(">=", "gte", syn));
        let lt = num_bound_c(ch, key_of("<", "lt", syn));
        let lte = num_bound_c(ch, key_of("<=", "lte", syn));
        let tag_src = match syn {
            ConstraintSyntax::V2 => match ch.get("annotations") {
                Some(a) => Some(a),
                None => ch.get("tag"),
            },
            ConstraintSyntax::V1 => ch.get("tag"),
        };
        let tag = match tag_src {
            Some(t) => {
                proof {
                    lemma_child_smaller(*node, "annotations"@);
                    lemma_child_smaller(*node, "tag"@);
                }
                Some(Box::new(Validations::from_node(t, syn)))
            },
            None => None,
        };
        let default = match ch.get("default") {
            Some(d) => match first_arg(d) {
                Some(v) => Some(v.clone()),
                None => None,
            },
            None => None,
        };
        Validations {
            ty,
            enum_values,
            enum_allow_others,
            patterns,
            min_length,
            max_length,
            formats,
            multiple_of,
            gt,
            gte,
            lt,
            lte,
            tag,
            default,
        }
    }
}

fn clone_values(v: &Vec<KdlValue>) -> (r: Vec<KdlValue>)
    ensures
        values_view(r@) == values_view(v@),
{
    let mut out: Vec<KdlValue> = Vec::new();
    let mut i: usize = 0;
    while i < v.len()
        invariant
            i <= v@.len(),
            out@.len() == i,
            forall|j: int| 0 <= j < i ==> out@[j]@ == v@[j]@,
        decreases v.len() - i,
    {
        out.push(v[i].clone());
        i += 1;
    }
    assert(values_view(out@) =~= values_view(v@));
    out
}

fn clone_texts(v: &Vec<String>) -> (r: Vec<String>)
    ensures
        texts_view(r@) == texts_view(v@),
{
    let mut out: Vec<String> = Vec::new();
    let mut i: usize = 0;
    while i < v.len()
        invariant
            i <= v@.len(),
            out@.len() == i,
            forall|j: int| 0 <= j < i ==> out@[j]@ == v@[j]@,
        decreases v.len() - i,
    {
        out.push(v[i].clone());
        i += 1;
    }
    assert(texts_view(out@) =~= texts_view(v@));
    out
}

fn clone_formats(v: &Vec<ValueFormat>) -> (r: Vec<ValueFormat>)
    ensures
        formats_view(r@) == formats_view(v@),
{
    let mut out: Vec<ValueFormat> = Vec::new();
    let mut i: usize = 0;
    while i < v.len()
        invariant
            i <= v@.len(),
            out@.len() == i,
            forall|j: int| 0 <= j < i ==> out@[j]@ == v@[j]@,
        decreases v.len() - i,
    {
        out.push(v[i].clone());
        i += 1;
    }
    assert(formats_view(out@) =~= formats_view(v@));
    out
}

fn clone_numbers(v: &Vec<Number>) -> (r: Vec<Number>)
    ensures
        r@ == v@,
{
    let mut out: Vec<Number> = Vec::new();
    let mut i: usize = 0;
    while i < v.len()
        invariant
            i <= v@.len(),
            out@ == v@.take(i as int),
        decreases v.len() - i,
    {
        out.push(v[i]);
        assert(out@ =~= v@.take(i + 1));
        i += 1;
    }
    assert(v@.take(i as int) =~= v@);
    out
}

fn clone_opt_value(v: &Option<KdlValue>) -> (r: Option<KdlValue>)
    ensures
        opt_value(r) == opt_value(*v),
{
    match v {
        Some(x) => Some(x.clone()),
        None => None,
    }
}

fn clone_opt_text(v: &Option<String>) -> (r: Option<String>)
    ensures
        opt_text(r) == opt_text(*v),
{
    match v {
        Some(x) => Some(x.clone()),
        None => None,
    }
}

impl Validations {
    /// A copy of these constraints.
    pub fn duplicate(&self) -> (r: Validations)
        ensures
            r@ == self@,
        decreases *self,
    {
        let tag = match &self.tag {
            Some(t) => Some(Box::new(t.duplicate())),
            None => None,
        };
        Validations {
            ty: clone_opt_text(&self.ty),
            enum_values: clone_values(&self.enum_values),
            enum_allow_others: self.enum_allow_others,
            patterns: clone_texts(&self.patterns),
            min_length: self.min_length,
            max_length: self.max_length,
            formats: clone_formats(&self.formats),
            multiple_of: clone_numbers(&self.multiple_of),
            gt: self.gt,
            gte: self.gte,
            lt: self.lt,
            lte: self.lte,
            tag,
            default: clone_opt_value(&self.default),
        }
    }

    /// Completes these constraints with those of `other` where these state none
    /// (see [`merge_model`]); patterns, formats and multiples accumulate.
    pub fn merge(&mut self, other: &Validations)
        ensures
            final(self)@ == merge_model(old(self)@, other@),
    {
        if self.ty.is_none() {
            self.ty = clone_opt_text(&other.ty);
        }
        if self.enum_values.len() == 0 {
            self.enum_values = clone_values(&other.enum_values);
            self.enum_allow_others = other.enum_allow_others;
        }
        let ghost p0 = self.patterns@;
        let mut more_p = clone_texts(&other.patterns);
        self.patterns.append(&mut more_p);
        assert(texts_view(self.patterns@) =~= texts_view(p0) + texts_view(other.patterns@));
        if self.min_length.is_none() {
            self.min_length = other.min_length;
        }
        if self.max_length.is_none() {
            self.max_length = other.max_length;
        }
        let ghost f0 = self.formats@;
        let mut more_f = clone_formats(&other.formats);
        self.formats.append(&mut more_f);
        assert(formats_view(self.formats@) =~= formats_view(f0) + formats_view(other.formats@));
        let mut more_m = clone_numbers(&other.multiple_of);
        self.multiple_of.append(&mut more_m);
        if self.gt.is_none() {
            self.gt = other.gt;
        }
        if self.gte.is_none() {
            self.gte = other.gte;
        }
        if self.lt.is_none() {
            self.lt = other.lt;
        }
        if self.lte.is_none() {
            self.lte = other.lte;
        }
        if self.tag.is_none() {
            self.tag = match &other.tag {
                Some(t) => Some(Box::new(t.duplicate())),
                None => None,
            };
        }
        if self.default.is_none() {
            self.default = clone_opt_value(&other.default);
        }
    }
}
} // verus!

verus! {

/// A node that states no constraints takes those of the definition it refers to, whole.
pub proof fn law_merge_into_nothing(b: ValidationsModel)
    ensures
        merge_model(empty_model(), b) == b,
{
    let m = merge_model(empty_model(), b);
    assert(m.patterns =~= b.patterns);
    assert(m.formats =~= b.formats);
    assert(m.multiple_of =~= b.multiple_of);
}

/// What a node states itself wins over what the definition it refers to
/// states; patterns, formats and multiples of both apply.
pub proof fn law_merge_prefers_own(a: ValidationsModel, b: ValidationsModel)
    ensures
        a.ty is Some ==> merge_model(a, b).ty == a.ty,
        a.enum_values.len() > 0 ==> merge_model(a, b).enum_values == a.enum_values,
        a.min_length is Some ==> merge_model(a, b).min_length == a.min_length,
        a.max_length is Some ==> merge_model(a, b).max_length == a.max_length,
        a.gt is Some ==> merge_model(a, b).gt == a.gt,
        a.gte is Some ==> merge_model(a, b).gte == a.gte,
        a.lt is Some ==> merge_model(a, b).lt == a.lt,
        a.lte is Some ==> merge_model(a, b).lte == a.lte,
        a.tag is Some ==> merge_model(a, b).tag == a.tag,
        a.default is Some ==> merge_model(a, b).default == a.default,
        merge_model(a, b).patterns == a.patterns + b.patterns,
        merge_model(a, b).formats == a.formats + b.formats,
        merge_model(a, b).multiple_of == a.multiple_of + b.multiple_of,
{
}

} // verus!
