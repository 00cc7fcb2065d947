//! The KDL 2 text format, and a parser that follows it.
//!
//! The grammar is stated as functions from a position in the text (counted in
//! characters) to what is read there and the position after it (`k_*`), and the
//! parser follows it function by function. It covers nodes with type
//! annotations, arguments and properties, children blocks, `;` and line
//! breaks as terminators, `//` and nested `/* */` comments, `/-` on nodes,
//! entries and children blocks, line continuations, identifier, quoted and raw
//! strings with their escapes, multi-line strings (see [`crate::multiline`]),
//! decimal, hexadecimal, octal and binary numbers, and the `#` keywords.

use vstd::prelude::*;

use crate::chars::{digit_c, hexdigit_c, is_digit, is_hexdigit, is_kdl_newline, is_kdl_space, kdl_newline_c, kdl_space_c};
use crate::diagnostic::{diags_view, DiagnosticModel, KdlDiagnostic, KdlError, Severity};
use crate::document::{KdlDocument, KdlEntry, KdlIdentifier, KdlNode, SourceSpan};
use crate::multiline::{k_multiline, multiline_c};
use crate::number::KdlFloat;
use crate::query_parser::text_between;
use crate::text::{chars_of, push_char, string_of};
use crate::value::{KdlValue, ValueModel};

verus! {

/// A failure to read a document: where, and why.
pub struct KErr {
    pub offset: int,
    pub message: Seq<char>,
}

/// What a grammar function reads at a position: a value and the position after it, or a failure.
pub enum KRes<T> {
    Read(T, int),
    Fail(KErr),
}

pub open spec fn fail<T>(offset: int, message: Seq<char>) -> KRes<T> {
    KRes::Fail(KErr { offset, message })
}

/// What an identifier holds.
pub struct IdentModel {
    pub value: Seq<char>,
    pub span: SourceSpan,
}

/// What an entry holds.
pub struct EntryModel {
    pub ty: Option<IdentModel>,
    pub name: Option<IdentModel>,
    pub value: ValueModel,
    pub span: SourceSpan,
}

/// What a node holds.
pub struct NodeModel {
    pub ty: Option<IdentModel>,
    pub name: IdentModel,
    pub entries: Seq<EntryModel>,
    pub children: Option<DocModel>,
    pub span: SourceSpan,
}

/// What a document holds.
pub struct DocModel {
    pub nodes: Seq<NodeModel>,
    pub span: SourceSpan,
}

pub open spec fn span_of(a: int, b: int) -> SourceSpan {
    SourceSpan { offset: a as usize, len: (b - a) as usize }
}

/// Code points that may not appear in a KDL document.
pub open spec fn is_disallowed(c: char) -> bool {
    c <= '\u{0008}' || ('\u{000E}' <= c <= '\u{001F}') || c == '\u{007F}' || ('\u{200E}' <= c
        <= '\u{200F}') || ('\u{202A}' <= c <= '\u{202E}') || ('\u{2066}' <= c <= '\u{2069}') || c
        == '\u{FEFF}'
}

/// The characters of identifier strings.
pub open spec fn is_id_char(c: char) -> bool {
    !is_kdl_space(c) && !is_kdl_newline(c) && !is_disallowed(c) && c != '\\' && c != '/' && c
        != '(' && c != ')' && c != '{' && c != '}' && c != ';' && c != '[' && c != ']' && c != '"'
        && c != '#' && c != '='
}

pub open spec fn at(s: Seq<char>, p: int, c: char) -> bool {
    0 <= p < s.len() && s[p] == c
}

pub open spec fn at2(s: Seq<char>, p: int, c: char, d: char) -> bool {
    at(s, p, c) && at(s, p + 1, d)
}

/// The length of the line break at `p`: two for `\r\n`, one for another, else none.
pub open spec fn nl_len(s: Seq<char>, p: int) -> int {
    if at2(s, p, '\r', '\n') {
        2
    } else if 0 <= p < s.len() && is_kdl_newline(s[p]) {
        1
    } else {
        0
    }
}

/// The end of a block comment whose body starts at `p`, `depth` comments deep.
pub open spec fn block_end(s: Seq<char>, p: int, depth: nat) -> Option<int>
    decreases s.len() - p,
{
    if p < 0 || p >= s.len() {
        None
    } else if at2(s, p, '*', '/') {
        if depth <= 1 {
            Some(p + 2)
        } else {
            block_end(s, p + 2, (depth - 1) as nat)
        }
    } else if at2(s, p, '/', '*') {
        block_end(s, p + 2, depth + 1)
    } else {
        block_end(s, p + 1, depth)
    }
}

/// The end of a line comment whose body starts at `p`: after its line break, or the end of the text.
pub open spec fn line_end(s: Seq<char>, p: int) -> int
    decreases s.len() - p,
{
    if p < 0 || p >= s.len() {
        p
    } else if nl_len(s, p) > 0 {
        p + nl_len(s, p)
    } else {
        line_end(s, p + 1)
    }
}

/// Spaces and block comments.
pub open spec fn k_ws(s: Seq<char>, p: int) -> KRes<()>
    decreases s.len() - p,
{
    if 0 <= p < s.len() && is_kdl_space(s[p]) {
        k_ws(s, p + 1)
    } else if at2(s, p, '/', '*') {
        match block_end(s, p + 2, 1) {
            Some(q) => if p < q <= s.len() {
                k_ws(s, q)
            } else {
                fail(p, "Unterminated block comment"@)
            },
            None => fail(p, "Unterminated block comment"@),
        }
    } else {
        KRes::Read((), p)
    }
}

/// A line continuation at `p` (a `\`): spaces, then a line comment, a line break or the end.
pub open spec fn k_escline(s: Seq<char>, p: int) -> KRes<()> {
    match k_ws(s, p + 1) {
        KRes::Fail(e) => KRes::Fail(e),
        KRes::Read(_, q) => if q >= s.len() {
            KRes::Read((), q)
        } else if at2(s, q, '/', '/') {
            KRes::Read((), line_end(s, q + 2))
        } else if nl_len(s, q) > 0 {
            KRes::Read((), q + nl_len(s, q))
        } else {
            fail(q, "Expected a line break after a line continuation"@)
        },
    }
}

/// Space within a node: spaces, block comments and line continuations.
pub open spec fn k_node_space(s: Seq<char>, p: int) -> KRes<()>
    decreases s.len() - p,
{
    match k_ws(s, p) {
        KRes::Fail(e) => KRes::Fail(e),
        KRes::Read(_, q) => if at(s, q, '\\') {
            match k_escline(s, q) {
                KRes::Fail(e) => KRes::Fail(e),
                KRes::Read(_, r) => if p < r <= s.len() {
                    k_node_space(s, r)
                } else {
                    KRes::Read((), r)
                },
            }
        } else {
            KRes::Read((), q)
        },
    }
}

/// Space between nodes: node space, line breaks and line comments.
pub open spec fn k_line_space(s: Seq<char>, p: int) -> KRes<()>
    decreases s.len() - p,
{
    match k_node_space(s, p) {
        KRes::Fail(e) => KRes::Fail(e),
        KRes::Read(_, q) => if nl_len(s, q) > 0 && p < q + nl_len(s, q) <= s.len() {
            k_line_space(s, q + nl_len(s, q))
        } else if at2(s, q, '/', '/') && p < line_end(s, q + 2) <= s.len() {
            k_line_space(s, line_end(s, q + 2))
        } else {
            KRes::Read((), q)
        },
    }
}

/// The end of the run of identifier characters from `p`.
pub open spec fn id_end(s: Seq<char>, p: int) -> int
    decreases s.len() - p,
{
    if 0 <= p < s.len() && is_id_char(s[p]) {
        id_end(s, p + 1)
    } else {
        p
    }
}

pub open spec fn is_sign(c: char) -> bool {
    c == '+' || c == '-'
}

/// Whether a number starts at `p`: a digit, or a sign and a digit.
pub open spec fn number_start(s: Seq<char>, p: int) -> bool {
    (0 <= p < s.len() && is_digit(s[p])) || (0 <= p < s.len() && is_sign(s[p]) && 0 <= p + 1
        < s.len() && is_digit(s[p + 1]))
}

/// The bare words that stand for keywords and may not be identifiers.
pub open spec fn is_bare_keyword(t: Seq<char>) -> bool {
    t == "true"@ || t == "false"@ || t == "null"@ || t == "inf"@ || t == "-inf"@ || t == "nan"@
}

/// An identifier string at `p`.
pub open spec fn k_ident(s: Seq<char>, p: int) -> KRes<Seq<char>> {
    let e = id_end(s, p);
    let t = s.subrange(p, e);
    if e <= p {
        fail(p, "Expected a string"@)
    } else if is_digit(t[0]) || (is_sign(t[0]) && t.len() > 1 && is_digit(t[1])) || (t[0] == '.'
        && t.len() > 1 && is_digit(t[1])) || (is_sign(t[0]) && t.len() > 2 && t[1] == '.'
        && is_digit(t[2])) {
        fail(p, "An identifier may not read as a number"@)
    } else if is_bare_keyword(t) {
        fail(p, "Keywords are written with a leading #"@)
    } else {
        KRes::Read(t, e)
    }
}

pub open spec fn hex_val(c: char) -> int {
    if '0' <= c <= '9' {
        c as int - '0' as int
    } else if 'a' <= c <= 'f' {
        c as int - 'a' as int + 10
    } else {
        c as int - 'A' as int + 10
    }
}

/// The end of a run of hexadecimal digits from `p`, at most `max` long.
pub open spec fn hex_run(s: Seq<char>, p: int, max: nat) -> int
    decreases max,
{
    if max > 0 && 0 <= p < s.len() && is_hexdigit(s[p]) {
        hex_run(s, p + 1, (max - 1) as nat)
    } else {
        p
    }
}

/// The value of the hexadecimal digits of `s[a..b]`.
pub open spec fn hex_value(s: Seq<char>, a: int, b: int) -> int
    decreases b - a,
{
    if b <= a {
        0
    } else {
        hex_value(s, a, b - 1) * 16 + hex_val(s[b - 1])
    }
}

/// The end of a run of spaces and line breaks, as a whitespace escape removes them.
pub open spec fn ws_escape_end(s: Seq<char>, p: int) -> int
    decreases s.len() - p,
{
    if 0 <= p < s.len() && (is_kdl_space(s[p]) || is_kdl_newline(s[p])) {
        ws_escape_end(s, p + 1)
    } else {
        p
    }
}

/// What an escape `\c` stands for, for the one-character escapes.
pub open spec fn simple_escape(c: char) -> Option<char> {
    if c == '"' {
        Some('"')
    } else if c == '\\' {
        Some('\\')
    } else if c == 'b' {
        Some('\u{0008}')
    } else if c == 'f' {
        Some('\u{000C}')
    } else if c == 'n' {
        Some('\n')
    } else if c == 'r' {
        Some('\r')
    } else if c == 't' {
        Some('\t')
    } else if c == 's' {
        Some(' ')
    } else {
        None
    }
}

pub open spec fn is_scalar(v: int) -> bool {
    0 <= v <= 0x10FFFF && !(0xD800 <= v <= 0xDFFF)
}

/// The body of a quoted string from `p`, after the characters `acc` read so far.
pub open spec fn k_quoted_body(s: Seq<char>, p: int, acc: Seq<char>) -> KRes<Seq<char>>
    decreases s.len() - p,
{
    if p < 0 || p >= s.len() {
        fail(p, "Unterminated string"@)
    } else if s[p] == '"' {
        KRes::Read(acc, p + 1)
    } else if is_kdl_newline(s[p]) {
        fail(p, "Unterminated string"@)
    } else if s[p] == '\\' {
        if p + 1 >= s.len() {
            fail(p, "Unterminated string"@)
        } else if simple_escape(s[p + 1]) is Some {
            k_quoted_body(s, p + 2, acc.push(simple_escape(s[p + 1])->0))
        } else if s[p + 1] == 'u' {
            let e = hex_run(s, p + 3, 6);
            if at(s, p + 2, '{') && e > p + 3 && at(s, e, '}') && is_scalar(hex_value(s, p + 3, e)) {
                k_quoted_body(s, e + 1, acc.push(hex_value(s, p + 3, e) as char))
            } else {
                fail(p, "Invalid escape sequence"@)
            }
        } else if is_kdl_space(s[p + 1]) || is_kdl_newline(s[p + 1]) {
            if p < ws_escape_end(s, p + 1) <= s.len() {
                k_quoted_body(s, ws_escape_end(s, p + 1), acc)
            } else {
                fail(p, "Invalid escape sequence"@)
            }
        } else {
            fail(p, "Invalid escape sequence"@)
        }
    } else if is_disallowed(s[p]) {
        fail(p, "Disallowed character"@)
    } else {
        k_quoted_body(s, p + 1, acc.push(s[p]))
    }
}

/// A quoted string at `p` (a `"`): on one line, or on several after `"""`.
pub open spec fn k_quoted(s: Seq<char>, p: int) -> KRes<Seq<char>> {
    if at(s, p + 1, '"') && at(s, p + 2, '"') {
        k_multiline(s, p, p + 3, 0, true)
    } else {
        k_quoted_body(s, p + 1, Seq::empty())
    }
}

/// The number of `#` from `p`.
pub open spec fn hash_run(s: Seq<char>, p: int) -> int
    decreases s.len() - p,
{
    if at(s, p, '#') {
        1 + hash_run(s, p + 1)
    } else {
        0
    }
}

/// Whether a raw string starts at `p`: `#`s, then `"`.
pub open spec fn raw_start(s: Seq<char>, p: int) -> bool {
    at(s, p, '#') && at(s, p + hash_run(s, p), '"')
}

/// Whether `n` `#`s stand at `p`.
pub open spec fn hashes_at(s: Seq<char>, p: int, n: int) -> bool {
    0 <= p && p + n <= s.len() && forall|i: int| p <= i < p + n ==> #[trigger] s[i] == '#'
}

/// The position of the `"` that closes a raw string with `n` `#`s, looking from `p`.
pub open spec fn raw_close(s: Seq<char>, p: int, n: int) -> KRes<()>
    decreases s.len() - p,
{
    if p < 0 || p >= s.len() {
        fail(p, "Unterminated string"@)
    } else if s[p] == '"' && hashes_at(s, p + 1, n) {
        KRes::Read((), p)
    } else if is_kdl_newline(s[p]) {
        fail(p, "Unterminated string"@)
    } else if is_disallowed(s[p]) {
        fail(p, "Disallowed character"@)
    } else {
        raw_close(s, p + 1, n)
    }
}

/// A raw string at `p`: `#`s, `"`, any text, `"` and as many `#`s; or a
/// multi-line one, whose quotes are `"""`.
pub open spec fn k_raw(s: Seq<char>, p: int) -> KRes<Seq<char>> {
    let n = hash_run(s, p);
    let q = p + n;
    if at(s, q + 1, '"') && at(s, q + 2, '"') {
        k_multiline(s, p, q + 3, n, false)
    } else {
        match raw_close(s, q + 1, n) {
            KRes::Read(_, c) => KRes::Read(s.subrange(q + 1, c), c + 1 + n),
            KRes::Fail(e) => KRes::Fail(e),
        }
    }
}

/// A string at `p`: quoted, raw or an identifier.
pub open spec fn k_string(s: Seq<char>, p: int) -> KRes<Seq<char>> {
    if at(s, p, '"') {
        k_quoted(s, p)
    } else if raw_start(s, p) {
        k_raw(s, p)
    } else {
        k_ident(s, p)
    }
}

/// Whether a string starts at `p`.
pub open spec fn string_start(s: Seq<char>, p: int) -> bool {
    at(s, p, '"') || raw_start(s, p) || (0 <= p < s.len() && is_id_char(s[p]) && !number_start(s, p))
}

pub open spec fn radix_digit(c: char, radix: int) -> bool {
    if radix == 16 {
        is_hexdigit(c)
    } else if radix == 8 {
        '0' <= c <= '7'
    } else if radix == 2 {
        c == '0' || c == '1'
    } else {
        is_digit(c)
    }
}

/// The end of a run of digits of `radix` and underscores from `p`.
pub open spec fn digits_end(s: Seq<char>, p: int, radix: int) -> int
    decreases s.len() - p,
{
    if 0 <= p < s.len() && (radix_digit(s[p], radix) || s[p] == '_') {
        digits_end(s, p + 1, radix)
    } else {
        p
    }
}

/// The value of the digits of `radix` in `s[a..b]`, underscores and dots skipped.
pub open spec fn radix_value(s: Seq<char>, a: int, b: int, radix: int) -> int
    decreases b - a,
{
    if b <= a {
        0
    } else if s[b - 1] == '_' || s[b - 1] == '.' {
        radix_value(s, a, b - 1, radix)
    } else {
        radix_value(s, a, b - 1, radix) * radix + hex_val(s[b - 1])
    }
}

/// The number of digits in `s[a..b]`.
pub open spec fn digit_count(s: Seq<char>, a: int, b: int) -> int
    decreases b - a,
{
    if b <= a {
        0
    } else {
        digit_count(s, a, b - 1) + if is_digit(s[b - 1]) { 1int } else { 0int }
    }
}

/// A decimal `mag * 10^e` with trailing zeros moved into the exponent; zero has exponent zero.
pub open spec fn normalized(mag: nat, e: int) -> (nat, int)
    decreases mag,
{
    if mag == 0 {
        (0, 0)
    } else if mag % 10 == 0 && e < 0x7fff_ffff {
        normalized(mag / 10, e + 1)
    } else {
        (mag, e)
    }
}

/// A whole number of `radix` from `q` (after the prefix), negated where `neg`; `p` is where the number starts.
pub open spec fn k_radix_number(s: Seq<char>, p: int, q: int, radix: int, neg: bool) -> KRes<ValueModel> {
    let e = digits_end(s, q, radix);
    let mag = radix_value(s, q, e, radix);
    let v = if neg { -mag } else { mag };
    if !(0 <= q < s.len() && radix_digit(s[q], radix)) {
        fail(p, "Invalid number"@)
    } else if 0 <= e < s.len() && is_id_char(s[e]) {
        fail(p, "Invalid number"@)
    } else if !(i128::MIN <= v <= i128::MAX) {
        fail(p, "Number does not fit"@)
    } else {
        KRes::Read(ValueModel::Integer(v as i128), e)
    }
}

/// A decimal number from `q` (after any sign); `p` is where the number starts.
pub open spec fn k_decimal(s: Seq<char>, p: int, q: int, neg: bool) -> KRes<ValueModel> {
    let int_end = digits_end(s, q, 10);
    let has_frac = at(s, int_end, '.') && 0 <= int_end + 1 < s.len() && is_digit(s[int_end + 1]);
    let frac_end = if has_frac { digits_end(s, int_end + 1, 10) } else { int_end };
    let has_exp = (at(s, frac_end, 'e') || at(s, frac_end, 'E')) && (number_start(s, frac_end + 1));
    let exp_start = if has_exp {
        if is_sign(s[frac_end + 1]) { frac_end + 2 } else { frac_end + 1 }
    } else {
        frac_end
    };
    let end = if has_exp { digits_end(s, exp_start, 10) } else { frac_end };
    let mag = radix_value(s, q, frac_end, 10);
    let fracs = if has_frac { digit_count(s, int_end + 1, frac_end) } else { 0 };
    let exp_mag = if has_exp { radix_value(s, exp_start, end, 10) } else { 0 };
    let exp = (if has_exp && at(s, frac_end + 1, '-') { -exp_mag } else { exp_mag }) - fracs;
    let signed = if neg { -mag } else { mag };
    if 0 <= end < s.len() && is_id_char(s[end]) {
        fail(p, "Invalid number"@)
    } else if !has_frac && !has_exp {
        if i128::MIN <= signed <= i128::MAX {
            KRes::Read(ValueModel::Integer(signed as i128), end)
        } else {
            fail(p, "Number does not fit"@)
        }
    } else if !(i128::MIN <= signed <= i128::MAX) || exp_mag > 0x7fff_ffff || fracs > 0x7fff_ffff || !(
    i32::MIN <= exp <= i32::MAX) {
        fail(p, "Number does not fit"@)
    } else {
        let (m, x) = normalized(mag as nat, exp);
        KRes::Read(
            ValueModel::Float(
                KdlFloat::Decimal { mantissa: (if neg { -m } else { m as int }) as i128, exponent: x as i32 },
            ),
            end,
        )
    }
}

/// A number at `p`.
pub open spec fn k_number(s: Seq<char>, p: int) -> KRes<ValueModel> {
    let neg = at(s, p, '-');
    let q = if 0 <= p < s.len() && is_sign(s[p]) { p + 1 } else { p };
    if at2(s, q, '0', 'x') {
        k_radix_number(s, p, q + 2, 16, neg)
    } else if at2(s, q, '0', 'o') {
        k_radix_number(s, p, q + 2, 8, neg)
    } else if at2(s, q, '0', 'b') {
        k_radix_number(s, p, q + 2, 2, neg)
    } else {
        k_decimal(s, p, q, neg)
    }
}

/// Whether `t` stands at `p`, not followed by an identifier character.
pub open spec fn word_at(s: Seq<char>, p: int, t: Seq<char>) -> bool {
    0 <= p && p + t.len() <= s.len() && s.subrange(p, p + t.len()) == t && !(p + t.len() < s.len()
        && is_id_char(s[p + t.len()]))
}

/// A `#` keyword at `p`.
pub open spec fn k_keyword(s: Seq<char>, p: int) -> KRes<ValueModel> {
    if word_at(s, p, "#true"@) {
        KRes::Read(ValueModel::Bool(true), p + 5)
    } else if word_at(s, p, "#false"@) {
        KRes::Read(ValueModel::Bool(false), p + 6)
    } else if word_at(s, p, "#null"@) {
        KRes::Read(ValueModel::Null, p + 5)
    } else if word_at(s, p, "#inf"@) {
        KRes::Read(ValueModel::Float(KdlFloat::Infinity), p + 4)
    } else if word_at(s, p, "#-inf"@) {
        KRes::Read(ValueModel::Float(KdlFloat::NegInfinity), p + 5)
    } else if word_at(s, p, "#nan"@) {
        KRes::Read(ValueModel::Float(KdlFloat::NaN), p + 4)
    } else {
        fail(p, "Unknown keyword"@)
    }
}

/// A value without a type annotation at `p`.
pub open spec fn k_bare_value(s: Seq<char>, p: int) -> KRes<ValueModel> {
    if p < 0 || p >= s.len() {
        fail(p, "Expected a value"@)
    } else if number_start(s, p) {
        k_number(s, p)
    } else if at(s, p, '#') && !raw_start(s, p) {
        k_keyword(s, p)
    } else {
        match k_string(s, p) {
            KRes::Read(t, q) => KRes::Read(ValueModel::String(t), q),
            KRes::Fail(e) => KRes::Fail(e),
        }
    }
}

/// A type annotation at `p` (a `(`): a string between parentheses, with node space around it.
pub open spec fn k_type(s: Seq<char>, p: int) -> KRes<IdentModel> {
    match k_node_space(s, p + 1) {
        KRes::Fail(e) => KRes::Fail(e),
        KRes::Read(_, a) => match k_string(s, a) {
            KRes::Fail(e) => KRes::Fail(e),
            KRes::Read(t, b) => match k_node_space(s, b) {
                KRes::Fail(e) => KRes::Fail(e),
                KRes::Read(_, c) => if at(s, c, ')') {
                    KRes::Read(IdentModel { value: t, span: span_of(a, b) }, c + 1)
                } else {
                    fail(c, "Expected ')'"@)
                },
            },
        },
    }
}

/// A value at `p`, with an optional type annotation.
pub open spec fn k_value(s: Seq<char>, p: int) -> KRes<(Option<IdentModel>, ValueModel)> {
    if at(s, p, '(') {
        match k_type(s, p) {
            KRes::Fail(e) => KRes::Fail(e),
            KRes::Read(t, q) => match k_node_space(s, q) {
                KRes::Fail(e) => KRes::Fail(e),
                KRes::Read(_, r) => match k_bare_value(s, r) {
                    KRes::Fail(e) => KRes::Fail(e),
                    KRes::Read(v, e) => KRes::Read((Some(t), v), e),
                },
            },
        }
    } else {
        match k_bare_value(s, p) {
            KRes::Fail(e) => KRes::Fail(e),
            KRes::Read(v, e) => KRes::Read((None, v), e),
        }
    }
}

/// An entry at `p`: a property `name=value`, or an argument.
pub open spec fn k_entry(s: Seq<char>, p: int) -> KRes<EntryModel> {
    if string_start(s, p) {
        match k_string(s, p) {
            KRes::Fail(e) => KRes::Fail(e),
            KRes::Read(t, q) => match k_node_space(s, q) {
                KRes::Fail(e) => KRes::Fail(e),
                KRes::Read(_, r) => if at(s, r, '=') {
                    match k_node_space(s, r + 1) {
                        KRes::Fail(e) => KRes::Fail(e),
                        KRes::Read(_, v) => match k_value(s, v) {
                            KRes::Fail(e) => KRes::Fail(e),
                            KRes::Read((ty, val), e) => KRes::Read(
                                EntryModel {
                                    ty,
                                    name: Some(IdentModel { value: t, span: span_of(p, q) }),
                                    value: val,
                                    span: span_of(p, e),
                                },
                                e,
                            ),
                        },
                    }
                } else {
                    KRes::Read(
                        EntryModel { ty: None, name: None, value: ValueModel::String(t), span: span_of(p, q) },
                        q,
                    )
                },
            },
        }
    } else {
        match k_value(s, p) {
            KRes::Fail(e) => KRes::Fail(e),
            KRes::Read((ty, val), e) => KRes::Read(
                EntryModel { ty, name: None, value: val, span: span_of(p, e) },
                e,
            ),
        }
    }
}

/// Whether a node ends at `p`: the end of the text, `;`, a line break, a line comment, or `}`.
pub open spec fn at_node_end(s: Seq<char>, p: int) -> bool {
    p >= s.len() || at(s, p, ';') || nl_len(s, p) > 0 || at2(s, p, '/', '/') || at(s, p, '}')
}

/// What follows a node's name: its entries and children. From `cur`, the end of what
/// was read so far (`last` being the end of the node's last part), with the entries
/// `es` and children `ch` kept so far. The result: entries, children, the end of the
/// node's last part, and the position where its terminator is to be read.
#[verifier::rlimit(60)]
pub open spec fn k_rest(s: Seq<char>, cur: int, last: int, es: Seq<EntryModel>, ch: Option<DocModel>) -> KRes<(Seq<EntryModel>, Option<DocModel>, int)>
    decreases s.len() - cur, 1int,
{
    match k_node_space(s, cur) {
        KRes::Fail(e) => KRes::Fail(e),
        KRes::Read(_, q) => if q < cur || q > s.len() {
            fail(cur, "Expected an entry"@)
        } else if at_node_end(s, q) {
            KRes::Read((es, ch, last), q)
        } else if at2(s, q, '/', '-') {
            match k_line_space(s, q + 2) {
                KRes::Fail(e) => KRes::Fail(e),
                KRes::Read(_, r) => if cur < r <= s.len() {
                    if at(s, r, '{') {
                        match k_children(s, r) {
                            KRes::Fail(e) => KRes::Fail(e),
                            KRes::Read(_, t) => if cur < t <= s.len() {
                                k_rest(s, t, last, es, ch)
                            } else {
                                fail(r, "Expected '}'"@)
                            },
                        }
                    } else if ch is Some {
                        fail(r, "Only children blocks may follow a children block"@)
                    } else if q == cur {
                        fail(q, "Expected space before an entry"@)
                    } else {
                        match k_entry(s, r) {
                            KRes::Fail(e) => KRes::Fail(e),
                            KRes::Read(_, t) => if cur < t <= s.len() {
                                k_rest(s, t, last, es, ch)
                            } else {
                                fail(r, "Expected an entry"@)
                            },
                        }
                    }
                } else {
                    fail(q, "Expected an entry or a children block"@)
                },
            }
        } else if at(s, q, '{') {
            if ch is Some {
                fail(q, "A node has one children block"@)
            } else {
                match k_children(s, q) {
                    KRes::Fail(e) => KRes::Fail(e),
                    KRes::Read(d, t) => if cur < t <= s.len() {
                        k_rest(s, t, t, es, Some(d))
                    } else {
                        fail(q, "Expected '}'"@)
                    },
                }
            }
        } else if ch is Some {
            fail(q, "Only children blocks may follow a children block"@)
        } else if q == cur {
            fail(q, "Expected space before an entry"@)
        } else {
            match k_entry(s, q) {
                KRes::Fail(e) => KRes::Fail(e),
                KRes::Read(en, t) => if cur < t <= s.len() {
                    k_rest(s, t, t, es.push(en), ch)
                } else {
                    fail(q, "Expected an entry"@)
                },
            }
        },
    }
}

/// A node at `p`: an optional type annotation, a name, entries and children.
/// The result: the node and the position where its terminator is to be read.
pub open spec fn k_node(s: Seq<char>, p: int) -> KRes<NodeModel>
    decreases s.len() - p, 2int,
{
    let (ty, q0) = if at(s, p, '(') {
        match k_type(s, p) {
            KRes::Read(t, q) => match k_node_space(s, q) {
                KRes::Read(_, r) => (KRes::Read(Some(t), r), r),
                KRes::Fail(e) => (KRes::Fail(e), p),
            },
            KRes::Fail(e) => (KRes::Fail(e), p),
        }
    } else {
        (KRes::Read(None, p), p)
    };
    match ty {
        KRes::Fail(e) => KRes::Fail(e),
        KRes::Read(t, _) => if number_start(s, q0) || at(s, q0, '#') && !raw_start(s, q0) {
            fail(q0, "Expected a node name"@)
        } else {
            match k_string(s, q0) {
                KRes::Fail(e) => KRes::Fail(e),
                KRes::Read(name, q1) => if p < q1 <= s.len() {
                    match k_rest(s, q1, q1, Seq::empty(), None) {
                        KRes::Fail(e) => KRes::Fail(e),
                        KRes::Read((es, ch, last), q2) => KRes::Read(
                            NodeModel {
                                ty: t,
                                name: IdentModel { value: name, span: span_of(q0, q1) },
                                entries: es,
                                children: ch,
                                span: span_of(p, last),
                            },
                            q2,
                        ),
                    }
                } else {
                    fail(q0, "Expected a node name"@)
                },
            }
        },
    }
}

/// The terminator of a node at `p`; in a children block, a `}` ends the last node.
pub open spec fn k_terminator(s: Seq<char>, p: int, in_block: bool) -> KRes<()> {
    if p >= s.len() {
        KRes::Read((), p)
    } else if at(s, p, ';') {
        KRes::Read((), p + 1)
    } else if nl_len(s, p) > 0 {
        KRes::Read((), p + nl_len(s, p))
    } else if at2(s, p, '/', '/') {
        KRes::Read((), line_end(s, p + 2))
    } else if at(s, p, '}') && in_block {
        KRes::Read((), p)
    } else {
        fail(p, "Expected the end of the node"@)
    }
}

/// The nodes from `p`, up to the end of the text or, in a children block, up to its `}`.
pub open spec fn k_nodes(s: Seq<char>, p: int, in_block: bool) -> KRes<Seq<NodeModel>>
    decreases s.len() - p, 4int,
{
    match k_line_space(s, p) {
        KRes::Fail(e) => KRes::Fail(e),
        KRes::Read(_, r) => if r >= s.len() {
            if in_block {
                fail(r, "Expected '}'"@)
            } else {
                KRes::Read(Seq::empty(), r)
            }
        } else if at(s, r, '}') {
            if in_block {
                KRes::Read(Seq::empty(), r)
            } else {
                fail(r, "Unexpected '}'"@)
            }
        } else if at2(s, r, '/', '-') {
            match k_line_space(s, r + 2) {
                KRes::Fail(e) => KRes::Fail(e),
                KRes::Read(_, t) => k_nodes_from(s, p, t, in_block, true),
            }
        } else {
            k_nodes_from(s, p, r, in_block, false)
        },
    }
}

/// A node at `start` (dropped where `dashed`), its terminator, and the nodes after it.
pub open spec fn k_nodes_from(s: Seq<char>, p: int, start: int, in_block: bool, dashed: bool) -> KRes<Seq<NodeModel>>
    decreases s.len() - p, 3int,
{
    if start < p || start > s.len() {
        fail(start, "Expected a node"@)
    } else {
        match k_node(s, start) {
            KRes::Fail(e) => KRes::Fail(e),
            KRes::Read(n, q) => match k_terminator(s, q, in_block) {
                KRes::Fail(e) => KRes::Fail(e),
                KRes::Read(_, t) => if p < t <= s.len() {
                    match k_nodes(s, t, in_block) {
                        KRes::Fail(e) => KRes::Fail(e),
                        KRes::Read(rest, u) => KRes::Read(if dashed { rest } else { seq![n] + rest }, u),
                    }
                } else {
                    fail(q, "Expected the end of the node"@)
                },
            },
        }
    }
}

/// A children block at `p` (a `{`): nodes up to the matching `}`.
pub open spec fn k_children(s: Seq<char>, p: int) -> KRes<DocModel>
    decreases s.len() - p, 0int,
{
    if p < 0 || p >= s.len() {
        fail(p, "Expected '{'"@)
    } else {
        match k_nodes(s, p + 1, true) {
            KRes::Fail(e) => KRes::Fail(e),
            KRes::Read(ns, q) => KRes::Read(DocModel { nodes: ns, span: span_of(p, q + 1) }, q + 1),
        }
    }
}

/// A whole document: an optional byte order mark, then nodes up to the end.
pub open spec fn k_document(s: Seq<char>) -> KRes<DocModel> {
    let start = if at(s, 0, '\u{FEFF}') { 1int } else { 0int };
    match k_nodes(s, start, false) {
        KRes::Fail(e) => KRes::Fail(e),
        KRes::Read(ns, _) => KRes::Read(DocModel { nodes: ns, span: span_of(0, s.len() as int) }, s.len() as int),
    }
}


pub open spec fn ident_model(i: KdlIdentifier) -> IdentModel {
    IdentModel { value: i.value@, span: i.span }
}

pub open spec fn opt_ident_model(o: Option<KdlIdentifier>) -> Option<IdentModel> {
    match o {
        Some(i) => Some(ident_model(i)),
        None => None,
    }
}

pub open spec fn entry_model(e: KdlEntry) -> EntryModel {
    EntryModel { ty: opt_ident_model(e.ty), name: opt_ident_model(e.name), value: e.value@, span: e.span }
}

pub open spec fn entries_model(es: Seq<KdlEntry>) -> Seq<EntryModel> {
    es.map_values(|e: KdlEntry| entry_model(e))
}

/// What a document holds, as a [`DocModel`].
pub open spec fn doc_model(d: KdlDocument) -> DocModel
    decreases d, 0int,
{
    DocModel { nodes: nodes_model(d.nodes@), span: d.span }
}

pub open spec fn nodes_model(ns: Seq<KdlNode>) -> Seq<NodeModel>
    decreases ns, ns.len(),
{
    if ns.len() == 0 {
        Seq::empty()
    } else {
        proof {
            assert(decreases_to!(ns => ns.subrange(0, ns.len() - 1)));
        }
        nodes_model(ns.subrange(0, ns.len() - 1)).push(node_model(ns[ns.len() - 1]))
    }
}

pub open spec fn node_model(n: KdlNode) -> NodeModel
    decreases n, 0int,
{
    NodeModel {
        ty: opt_ident_model(n.ty),
        name: ident_model(n.name),
        entries: entries_model(n.entries@),
        children: match n.children {
            Some(c) => Some(doc_model(c)),
            None => None,
        },
        span: n.span,
    }
}


/// A failure of the parser: where, and why.
#[derive(Debug)]
pub struct ParseFail {
    pub offset: usize,
    pub message: String,
}

impl View for ParseFail {
    type V = KErr;

    open spec fn view(&self) -> KErr {
        KErr { offset: self.offset as int, message: self.message@ }
    }
}

/// What an executable read gives, as a grammar result.
pub open spec fn kres<T, V>(r: Result<(T, usize), ParseFail>, f: spec_fn(T) -> V) -> KRes<V> {
    match r {
        Ok((x, q)) => KRes::Read(f(x), q as int),
        Err(e) => KRes::Fail(e@),
    }
}

pub open spec fn kres_unit(r: Result<usize, ParseFail>) -> KRes<()> {
    match r {
        Ok(q) => KRes::Read((), q as int),
        Err(e) => KRes::Fail(e@),
    }
}

pub open spec fn inside<T>(r: Result<(T, usize), ParseFail>, n: nat) -> bool {
    r matches Ok((_, q)) ==> q <= n
}

pub(crate) fn failure(offset: usize, msg: &str) -> (e: ParseFail)
    ensures
        e@ == (KErr { offset: offset as int, message: msg@ }),
{
    ParseFail { offset, message: string_of(msg) }
}

pub(crate) fn at_c(s: &Vec<char>, p: usize, c: char) -> (r: bool)
    ensures
        r == at(s@, p as int, c),
{
    p < s.len() && s[p] == c
}

fn at2_c(s: &Vec<char>, p: usize, c: char, d: char) -> (r: bool)
    ensures
        r == at2(s@, p as int, c, d),
{
    p < s.len() && s[p] == c && p + 1 < s.len() && s[p + 1] == d
}

pub(crate) fn nl_len_c(s: &Vec<char>, p: usize) -> (r: usize)
    ensures
        r as int == nl_len(s@, p as int),
        r <= 2,
        r > 0 ==> p + r <= s@.len(),
{
    if at2_c(s, p, '\r', '\n') {
        2
    } else if p < s.len() && kdl_newline_c(s[p]) {
        1
    } else {
        0
    }
}

pub(crate) fn is_disallowed_c(c: char) -> (r: bool)
    ensures
        r == is_disallowed(c),
{
    c <= '\u{0008}' || ('\u{000E}' <= c && c <= '\u{001F}') || c == '\u{007F}' || ('\u{200E}' <= c
        && c <= '\u{200F}') || ('\u{202A}' <= c && c <= '\u{202E}') || ('\u{2066}' <= c && c
        <= '\u{2069}') || c == '\u{FEFF}'
}

fn is_id_char_c(c: char) -> (r: bool)
    ensures
        r == is_id_char(c),
{
    !kdl_space_c(c) && !kdl_newline_c(c) && !is_disallowed_c(c) && c != '\\' && c != '/' && c != '('
        && c != ')' && c != '{' && c != '}' && c != ';' && c != '[' && c != ']' && c != '"' && c
        != '#' && c != '='
}

fn block_end_c(s: &Vec<char>, p: usize) -> (r: Option<usize>)
    requires
        p <= s@.len(),
    ensures
        match r {
            Some(q) => block_end(s@, p as int, 1) == Some(q as int) && q <= s@.len(),
            None => block_end(s@, p as int, 1) is None,
        },
{
    let mut i = p;
    let mut depth: usize = 1;
    while i < s.len()
        invariant
            p <= i <= s@.len(),
            1 <= depth <= i + 1,
            block_end(s@, p as int, 1) == block_end(s@, i as int, depth as nat),
        decreases s.len() - i,
    {
        if at2_c(s, i, '*', '/') {
            if depth <= 1 {
                return Some(i + 2);
            }
            depth -= 1;
            i += 2;
        } else if at2_c(s, i, '/', '*') {
            depth += 1;
            i += 2;
        } else {
            i += 1;
        }
    }
    None
}

fn line_end_c(s: &Vec<char>, p: usize) -> (r: usize)
    requires
        p <= s@.len(),
    ensures
        r as int == line_end(s@, p as int),
        p <= r <= s@.len(),
{
    let mut i = p;
    while i < s.len()
        invariant
            p <= i <= s@.len(),
            line_end(s@, p as int) == line_end(s@, i as int),
        decreases s.len() - i,
    {
        let n = nl_len_c(s, i);
        if n > 0 {
            return i + n;
        }
        i += 1;
    }
    i
}

fn ws_c(s: &Vec<char>, p: usize) -> (r: Result<usize, ParseFail>)
    requires
        p <= s@.len(),
    ensures
        kres_unit(r) == k_ws(s@, p as int),
        r matches Ok(q) ==> p <= q <= s@.len(),
{
    let mut i = p;
    while i <= s.len()
        invariant
            p <= i <= s@.len(),
            k_ws(s@, p as int) == k_ws(s@, i as int),
        decreases s.len() - i,
    {
        if i < s.len() && kdl_space_c(s[i]) {
            i += 1;
        } else if at2_c(s, i, '/', '*') {
            match block_end_c(s, i + 2) {
                Some(q) => {
                    if i < q {
                        i = q;
                    } else {
                        return Err(failure(i, "Unterminated block comment"));
                    }
                },
                None => {
                    return Err(failure(i, "Unterminated block comment"));
                },
            }
        } else {
            return Ok(i);
        }
    }
    Ok(i)
}

fn escline_c(s: &Vec<char>, p: usize) -> (r: Result<usize, ParseFail>)
    requires
        p < s@.len(),
    ensures
        kres_unit(r) == k_escline(s@, p as int),
        r matches Ok(q) ==> p <= q <= s@.len(),
{
    let len = s.len();
    assert(p + 1 <= len);
    match ws_c(s, p + 1) {
        Err(e) => Err(e),
        Ok(q) => {
            if q >= s.len() {
                Ok(q)
            } else if at2_c(s, q, '/', '/') {
                Ok(line_end_c(s, q + 2))
            } else {
                let n = nl_len_c(s, q);
                if n > 0 {
                    Ok(q + n)
                } else {
                    Err(failure(q, "Expected a line break after a line continuation"))
                }
            }
        },
    }
}

fn node_space_c(s: &Vec<char>, p: usize) -> (r: Result<usize, ParseFail>)
    requires
        p <= s@.len(),
    ensures
        kres_unit(r) == k_node_space(s@, p as int),
        r matches Ok(q) ==> p <= q <= s@.len(),
{
    let mut i = p;
    loop
        invariant
            p <= i <= s@.len(),
            k_node_space(s@, p as int) == k_node_space(s@, i as int),
        decreases s.len() - i,
    {
        match ws_c(s, i) {
            Err(e) => {
                return Err(e);
            },
            Ok(q) => {
                if at_c(s, q, '\\') {
                    match escline_c(s, q) {
                        Err(e) => {
                            return Err(e);
                        },
                        Ok(r) => {
                            if i < r {
                                i = r;
                            } else {
                                return Ok(r);
                            }
                        },
                    }
                } else {
                    return Ok(q);
                }
            },
        }
    }
}

fn line_space_c(s: &Vec<char>, p: usize) -> (r: Result<usize, ParseFail>)
    requires
        p <= s@.len(),
    ensures
        kres_unit(r) == k_line_space(s@, p as int),
        r matches Ok(q) ==> p <= q <= s@.len(),
{
    let mut i = p;
    loop
        invariant
            p <= i <= s@.len(),
            k_line_space(s@, p as int) == k_line_space(s@, i as int),
        decreases s.len() - i,
    {
        match node_space_c(s, i) {
            Err(e) => {
                return Err(e);
            },
            Ok(q) => {
                let n = nl_len_c(s, q);
                if n > 0 && i < q + n {
                    i = q + n;
                } else if at2_c(s, q, '/', '/') && i < line_end_c(s, q + 2) {
                    i = line_end_c(s, q + 2);
                } else {
                    return Ok(q);
                }
            },
        }
    }
}


fn id_end_c(s: &Vec<char>, p: usize) -> (r: usize)
    requires
        p <= s@.len(),
    ensures
        r as int == id_end(s@, p as int),
        p <= r <= s@.len(),
        forall|j: int| p <= j < r ==> is_id_char(#[trigger] s@[j]),
{
    let mut i = p;
    while i < s.len() && is_id_char_c(s[i])
        invariant
            p <= i <= s@.len(),
            id_end(s@, p as int) == id_end(s@, i as int),
            forall|j: int| p <= j < i ==> is_id_char(#[trigger] s@[j]),
        decreases s.len() - i,
    {
        i += 1;
    }
    i
}

fn is_sign_c(c: char) -> (r: bool)
    ensures
        r == is_sign(c),
{
    c == '+' || c == '-'
}

fn number_start_c(s: &Vec<char>, p: usize) -> (r: bool)
    ensures
        r == number_start(s@, p as int),
{
    (p < s.len() && digit_c(s[p])) || (p < s.len() && is_sign_c(s[p]) && p + 1 < s.len() && digit_c(s[p + 1]))
}

fn ident_c(s: &Vec<char>, p: usize) -> (r: Result<(String, usize), ParseFail>)
    requires
        p <= s@.len(),
    ensures
        kres(r, |x: String| x@) == k_ident(s@, p as int),
        inside(r, s@.len()),
        r matches Ok((_, q)) ==> p <= q,
{
    let e = id_end_c(s, p);
    if e <= p {
        return Err(failure(p, "Expected a string"));
    }
    let ghost t = s@.subrange(p as int, e as int);
    let n = e - p;
    let c0 = s[p];
    let bad_number = digit_c(c0) || (is_sign_c(c0) && n > 1 && digit_c(s[p + 1])) || (c0 == '.' && n > 1
        && digit_c(s[p + 1])) || (is_sign_c(c0) && n > 2 && s[p + 1] == '.' && digit_c(s[p + 2]));
    assert(t[0] == s@[p as int]);
    assert(n > 1 ==> t[1] == s@[p + 1]);
    assert(n > 2 ==> t[2] == s@[p + 2]);
    if bad_number {
        return Err(failure(p, "An identifier may not read as a number"));
    }
    let text = text_between(s, p, e);
    let ts = text.as_str();
    if crate::text::str_eq(ts, "true") || crate::text::str_eq(ts, "false") || crate::text::str_eq(ts, "null")
        || crate::text::str_eq(ts, "inf") || crate::text::str_eq(ts, "-inf") || crate::text::str_eq(ts, "nan") {
        return Err(failure(p, "Keywords are written with a leading #"));
    }
    Ok((text, e))
}

/// Whether a text reads, whole, as a bare identifier string.
pub open spec fn bare_ident(t: Seq<char>) -> bool {
    k_ident(t, 0) matches KRes::Read(_, e) && e == t.len()
}

/// Whether `t` reads, whole, as a bare identifier string (see [`bare_ident`]).
pub fn reads_as_ident(t: &str) -> (r: bool)
    ensures
        r == bare_ident(t@),
{
    let cs = crate::text::chars_of(t);
    match ident_c(&cs, 0) {
        Ok((_, e)) => e == cs.len(),
        Err(_) => false,
    }
}

pub(crate) fn hex_run_c(s: &Vec<char>, p: usize) -> (r: usize)
    requires
        p <= s@.len(),
    ensures
        r as int == hex_run(s@, p as int, 6),
        p <= r <= p + 6,
        r <= s@.len(),
        forall|j: int| p <= j < r ==> is_hexdigit(#[trigger] s@[j]),
{
    let mut i = p;
    let mut k: usize = 6;
    while k > 0 && i < s.len() && hexdigit_c(s[i])
        invariant
            p <= i <= s@.len(),
            i + k == p + 6,
            hex_run(s@, p as int, 6) == hex_run(s@, i as int, k as nat),
            forall|j: int| p <= j < i ==> is_hexdigit(#[trigger] s@[j]),
        decreases k,
    {
        i += 1;
        k -= 1;
    }
    i
}

fn hex_val_c(c: char) -> (r: u32)
    requires
        is_hexdigit(c),
    ensures
        r as int == hex_val(c),
        r < 16,
{
    if '0' <= c && c <= '9' {
        (c as u32) - ('0' as u32)
    } else if 'a' <= c && c <= 'f' {
        (c as u32) - ('a' as u32) + 10
    } else {
        (c as u32) - ('A' as u32) + 10
    }
}

pub(crate) fn hex_value_c(s: &Vec<char>, a: usize, b: usize) -> (r: u32)
    requires
        a <= b <= s@.len(),
        b <= a + 6,
        forall|j: int| a <= j < b ==> is_hexdigit(#[trigger] s@[j]),
    ensures
        r as int == hex_value(s@, a as int, b as int),
{
    let mut v: u32 = 0;
    let mut i = a;
    while i < b
        invariant
            a <= i <= b,
            b <= s@.len(),
            b <= a + 6,
            forall|j: int| a <= j < b ==> is_hexdigit(#[trigger] s@[j]),
            v as int == hex_value(s@, a as int, i as int),
            v < pow16(i - a),
        decreases b - i,
    {
        let d = hex_val_c(s[i]);
        proof {
            lemma_pow16_bound((i - a) as nat);
        }
        v = v * 16 + d;
        i += 1;
    }
    v
}

pub open spec fn pow16(n: int) -> int
    decreases n,
{
    if n <= 0 {
        1
    } else {
        16 * pow16(n - 1)
    }
}

proof fn lemma_pow16_bound(n: nat)
    requires
        n < 6,
    ensures
        pow16(n as int) <= 0x100000,
        pow16(n as int + 1) == 16 * pow16(n as int),
{
    reveal_with_fuel(pow16, 7);
}

fn ws_escape_end_c(s: &Vec<char>, p: usize) -> (r: usize)
    requires
        p <= s@.len(),
    ensures
        r as int == ws_escape_end(s@, p as int),
        p <= r <= s@.len(),
{
    let mut i = p;
    while i < s.len() && (kdl_space_c(s[i]) || kdl_newline_c(s[i]))
        invariant
            p <= i <= s@.len(),
            ws_escape_end(s@, p as int) == ws_escape_end(s@, i as int),
        decreases s.len() - i,
    {
        i += 1;
    }
    i
}

pub(crate) fn simple_escape_c(c: char) -> (r: Option<char>)
    ensures
        r == simple_escape(c),
{
    if c == '"' {
        Some('"')
    } else if c == '\\' {
        Some('\\')
    } else if c == 'b' {
        Some('\u{0008}')
    } else if c == 'f' {
        Some('\u{000C}')
    } else if c == 'n' {
        Some('\n')
    } else if c == 'r' {
        Some('\r')
    } else if c == 't' {
        Some('\t')
    } else if c == 's' {
        Some(' ')
    } else {
        None
    }
}

/// Trusted: `char::from_u32`, whose documentation says that it gives the character
/// with that code where the code is a Unicode scalar value (at most `0x10FFFF` and
/// not a surrogate), and `None` otherwise.
#[verifier::external_body]
pub(crate) fn char_of_code(v: u32) -> (r: Option<char>)
    ensures
        is_scalar(v as int) ==> r == Some(v as char),
        !is_scalar(v as int) ==> r is None,
{
    char::from_u32(v)
}

fn quoted_c(s: &Vec<char>, p: usize) -> (r: Result<(String, usize), ParseFail>)
    requires
        p < s@.len(),
    ensures
        kres(r, |x: String| x@) == k_quoted(s@, p as int),
        inside(r, s@.len()),
        r matches Ok((_, q)) ==> p <= q,
{
    let len = s.len();
    if at_c(s, p + 1, '"') && at_c(s, p + 2, '"') {
        return multiline_c(s, p, p + 3, 0, true);
    }
    let mut acc = String::new();
    let mut i = p + 1;
    assert(acc@ =~= Seq::<char>::empty());
    loop
        invariant
            p < i <= s@.len(),
            len == s@.len(),
            k_quoted(s@, p as int) == k_quoted_body(s@, p + 1, Seq::empty()),
            k_quoted_body(s@, p + 1, Seq::empty()) == k_quoted_body(s@, i as int, acc@),
        decreases s.len() - i,
    {
        if i >= len {
            return Err(failure(i, "Unterminated string"));
        }
        let c = s[i];
        if c == '"' {
            return Ok((acc, i + 1));
        } else if kdl_newline_c(c) {
            return Err(failure(i, "Unterminated string"));
        } else if c == '\\' {
            if i + 1 >= len {
                return Err(failure(i, "Unterminated string"));
            }
            let d = s[i + 1];
            match simple_escape_c(d) {
                Some(x) => {
                    push_char(&mut acc, x);
                    i = i + 2;
                },
                None => {
                    if d == 'u' {
                        if !at_c(s, i + 2, '{') {
                            return Err(failure(i, "Invalid escape sequence"));
                        }
                        let e = hex_run_c(s, i + 3);
                        if e > i + 3 && at_c(s, e, '}') {
                            let v = hex_value_c(s, i + 3, e);
                            match char_of_code(v) {
                                Some(x) => {
                                    push_char(&mut acc, x);
                                    i = e + 1;
                                },
                                None => {
                                    return Err(failure(i, "Invalid escape sequence"));
                                },
                            }
                        } else {
                            return Err(failure(i, "Invalid escape sequence"));
                        }
                    } else if kdl_space_c(d) || kdl_newline_c(d) {
                        let w = ws_escape_end_c(s, i + 1);
                        if i < w {
                            i = w;
                        } else {
                            return Err(failure(i, "Invalid escape sequence"));
                        }
                    } else {
                        return Err(failure(i, "Invalid escape sequence"));
                    }
                },
            }
        } else if is_disallowed_c(c) {
            return Err(failure(i, "Disallowed character"));
        } else {
            push_char(&mut acc, c);
            i += 1;
        }
    }
}

fn hash_run_c(s: &Vec<char>, p: usize) -> (r: usize)
    requires
        p <= s@.len(),
    ensures
        r as int == hash_run(s@, p as int),
        p + r <= s@.len(),
        forall|j: int| p <= j < p + r ==> #[trigger] s@[j] == '#',
{
    let mut i = p;
    while i < s.len() && s[i] == '#'
        invariant
            p <= i <= s@.len(),
            hash_run(s@, p as int) == (i - p) + hash_run(s@, i as int),
            forall|j: int| p <= j < i ==> #[trigger] s@[j] == '#',
        decreases s.len() - i,
    {
        i += 1;
    }
    i - p
}

fn raw_start_c(s: &Vec<char>, p: usize) -> (r: bool)
    requires
        p <= s@.len(),
    ensures
        r == raw_start(s@, p as int),
{
    let len = s.len();
    let n = hash_run_c(s, p);
    at_c(s, p, '#') && at_c(s, p + n, '"')
}

pub(crate) fn hashes_at_c(s: &Vec<char>, p: usize, n: usize) -> (r: bool)
    ensures
        r == hashes_at(s@, p as int, n as int),
{
    let len = s.len();
    if p > len || n > len - p {
        return false;
    }
    let mut i: usize = 0;
    while i < n
        invariant
            i <= n,
            len == s@.len(),
            p + n <= s@.len(),
            forall|j: int| p <= j < p + i ==> #[trigger] s@[j] == '#',
        decreases n - i,
    {
        if s[p + i] != '#' {
            assert(s@[p + i] != '#');
            return false;
        }
        i += 1;
    }
    true
}

fn raw_c(s: &Vec<char>, p: usize) -> (r: Result<(String, usize), ParseFail>)
    requires
        p <= s@.len(),
        raw_start(s@, p as int),
    ensures
        kres(r, |x: String| x@) == k_raw(s@, p as int),
        inside(r, s@.len()),
        r matches Ok((_, q)) ==> p <= q,
{
    let len = s.len();
    let n = hash_run_c(s, p);
    let q = p + n;
    if at_c(s, q + 1, '"') && at_c(s, q + 2, '"') {
        return multiline_c(s, p, q + 3, n, false);
    }
    let mut i = q + 1;
    loop
        invariant
            q + 1 <= i <= s@.len(),
            len == s@.len(),
            q == p + n,
            n as int == hash_run(s@, p as int),
            q < s@.len(),
            !(at(s@, q + 1, '"') && at(s@, q + 2, '"')),
            raw_close(s@, q + 1, n as int) == raw_close(s@, i as int, n as int),
        decreases s.len() - i,
    {
        if i >= len {
            return Err(failure(i, "Unterminated string"));
        }
        let c = s[i];
        if c == '"' && hashes_at_c(s, i + 1, n) {
            let t = text_between(s, q + 1, i);
            return Ok((t, i + 1 + n));
        } else if kdl_newline_c(c) {
            return Err(failure(i, "Unterminated string"));
        } else if is_disallowed_c(c) {
            return Err(failure(i, "Disallowed character"));
        }
        i += 1;
    }
}

fn string_c(s: &Vec<char>, p: usize) -> (r: Result<(String, usize), ParseFail>)
    requires
        p <= s@.len(),
    ensures
        kres(r, |x: String| x@) == k_string(s@, p as int),
        inside(r, s@.len()),
        r matches Ok((_, q)) ==> p <= q,
{
    if at_c(s, p, '"') {
        quoted_c(s, p)
    } else if raw_start_c(s, p) {
        raw_c(s, p)
    } else {
        ident_c(s, p)
    }
}

fn string_start_c(s: &Vec<char>, p: usize) -> (r: bool)
    requires
        p <= s@.len(),
    ensures
        r == string_start(s@, p as int),
{
    at_c(s, p, '"') || raw_start_c(s, p) || (p < s.len() && is_id_char_c(s[p]) && !number_start_c(s, p))
}


fn radix_digit_c(c: char, radix: u32) -> (r: bool)
    ensures
        r == radix_digit(c, radix as int),
{
    if radix == 16 {
        hexdigit_c(c)
    } else if radix == 8 {
        '0' <= c && c <= '7'
    } else if radix == 2 {
        c == '0' || c == '1'
    } else {
        digit_c(c)
    }
}

fn digits_end_c(s: &Vec<char>, p: usize, radix: u32) -> (r: usize)
    requires
        p <= s@.len(),
    ensures
        r as int == digits_end(s@, p as int, radix as int),
        p <= r <= s@.len(),
        forall|j: int| p <= j < r ==> radix_digit(#[trigger] s@[j], radix as int) || s@[j] == '_',
{
    let mut i = p;
    while i < s.len() && (radix_digit_c(s[i], radix) || s[i] == '_')
        invariant
            p <= i <= s@.len(),
            digits_end(s@, p as int, radix as int) == digits_end(s@, i as int, radix as int),
            forall|j: int| p <= j < i ==> radix_digit(#[trigger] s@[j], radix as int) || s@[j] == '_',
        decreases s.len() - i,
    {
        i += 1;
    }
    i
}

pub open spec fn valid_radix(radix: int) -> bool {
    radix == 2 || radix == 8 || radix == 10 || radix == 16
}

/// What a digit run may hold: digits of the radix, underscores and dots.
pub open spec fn digit_run(s: Seq<char>, a: int, b: int, radix: int) -> bool {
    forall|j: int| a <= j < b ==> radix_digit(#[trigger] s[j], radix) || s[j] == '_' || s[j] == '.'
}

proof fn lemma_digit_val(c: char, radix: int)
    requires
        valid_radix(radix),
        radix_digit(c, radix),
    ensures
        0 <= hex_val(c) < radix,
{
}

proof fn lemma_radix_value_grows(s: Seq<char>, a: int, k: int, b: int, radix: int)
    requires
        a <= k <= b <= s.len(),
        0 <= a,
        valid_radix(radix),
        digit_run(s, a, b, radix),
    ensures
        0 <= radix_value(s, a, k, radix) <= radix_value(s, a, b, radix),
    decreases b - k,
{
    lemma_radix_value_nonneg(s, a, k, radix);
    if k < b {
        lemma_radix_value_grows(s, a, k, b - 1, radix);
        lemma_radix_value_nonneg(s, a, b - 1, radix);
        if !(s[b - 1] == '_' || s[b - 1] == '.') {
            lemma_digit_val(s[b - 1], radix);
            assert(radix_value(s, a, b - 1, radix) * radix >= radix_value(s, a, b - 1, radix)) by (nonlinear_arith)
                requires
                    radix_value(s, a, b - 1, radix) >= 0,
                    radix >= 2,
            ;
        }
    }
}

proof fn lemma_radix_value_nonneg(s: Seq<char>, a: int, b: int, radix: int)
    requires
        0 <= a,
        a <= b <= s.len(),
        valid_radix(radix),
        digit_run(s, a, b, radix),
    ensures
        radix_value(s, a, b, radix) >= 0,
    decreases b - a,
{
    if a < b {
        lemma_radix_value_nonneg(s, a, b - 1, radix);
        if !(s[b - 1] == '_' || s[b - 1] == '.') {
            lemma_digit_val(s[b - 1], radix);
            assert(radix_value(s, a, b - 1, radix) * radix >= 0) by (nonlinear_arith)
                requires
                    radix_value(s, a, b - 1, radix) >= 0,
                    radix >= 2,
            ;
        }
    }
}

/// The value of the digits of `s[a..b]` (underscores and dots skipped), where it is at most `bound`.
fn radix_value_c(s: &Vec<char>, a: usize, b: usize, radix: u32, bound: u128) -> (r: Option<u128>)
    requires
        a <= b <= s@.len(),
        valid_radix(radix as int),
        digit_run(s@, a as int, b as int, radix as int),
    ensures
        match r {
            Some(v) => v as int == radix_value(s@, a as int, b as int, radix as int) && v <= bound,
            None => radix_value(s@, a as int, b as int, radix as int) > bound,
        },
{
    let mut acc: u128 = 0;
    let mut i = a;
    while i < b
        invariant
            a <= i <= b,
            b <= s@.len(),
            valid_radix(radix as int),
            digit_run(s@, a as int, b as int, radix as int),
            acc as int == radix_value(s@, a as int, i as int, radix as int),
            acc <= bound,
        decreases b - i,
    {
        let c = s[i];
        if c == '_' || c == '.' {
            i += 1;
        } else {
            proof {
                lemma_digit_val(c, radix as int);
            }
            let d: u128 = if hexdigit_c(c) { hex_val_c(c) as u128 } else { 0 };
            assert(d as int == hex_val(c)) by {
                if radix == 16 {
                } else if radix == 8 {
                    assert(is_hexdigit(c));
                } else if radix == 2 {
                    assert(is_hexdigit(c));
                } else {
                    assert(is_hexdigit(c));
                }
            }
            let step = match acc.checked_mul(radix as u128) {
                Some(x) => x.checked_add(d),
                None => None,
            };
            match step {
                Some(next) => {
                    if next > bound {
                        proof {
                            lemma_radix_value_grows(s@, a as int, i + 1, b as int, radix as int);
                        }
                        return None;
                    }
                    acc = next;
                },
                None => {
                    proof {
                        lemma_radix_value_grows(s@, a as int, i + 1, b as int, radix as int);
                        lemma_radix_value_nonneg(s@, a as int, i as int, radix as int);
                    }
                    return None;
                },
            }
            i += 1;
        }
    }
    Some(acc)
}

fn digit_count_c(s: &Vec<char>, a: usize, b: usize) -> (r: usize)
    requires
        a <= b <= s@.len(),
    ensures
        r as int == digit_count(s@, a as int, b as int),
        r <= b - a,
{
    let mut n: usize = 0;
    let mut i = a;
    while i < b
        invariant
            a <= i <= b,
            b <= s@.len(),
            n as int == digit_count(s@, a as int, i as int),
            n <= i - a,
        decreases b - i,
    {
        if digit_c(s[i]) {
            n += 1;
        }
        i += 1;
    }
    n
}

fn normalized_c(mag: u128, e: i32) -> (r: (u128, i32))
    ensures
        (r.0 as nat, r.1 as int) == normalized(mag as nat, e as int),
        r.0 <= mag,
{
    if mag == 0 {
        return (0, 0);
    }
    let mut m = mag;
    let mut x = e;
    while m % 10 == 0 && x < 0x7fff_ffff
        invariant
            m > 0,
            m <= mag,
            normalized(mag as nat, e as int) == normalized(m as nat, x as int),
        decreases m,
    {
        m = m / 10;
        x = x + 1;
    }
    (m, x)
}


const I128_TOP: u128 = 0x7fff_ffff_ffff_ffff_ffff_ffff_ffff_ffff;

/// The signed value of a magnitude that fits an `i128`.
fn signed_of(mag: u128, neg: bool) -> (r: i128)
    requires
        mag <= (if neg { I128_TOP + 1 } else { I128_TOP as int }),
    ensures
        r as int == (if neg { -(mag as int) } else { mag as int }),
{
    if neg {
        if mag == I128_TOP + 1 {
            i128::MIN
        } else {
            -(mag as i128)
        }
    } else {
        mag as i128
    }
}

fn radix_number_c(s: &Vec<char>, p: usize, q: usize, radix: u32, neg: bool) -> (r: Result<(KdlValue, usize), ParseFail>)
    requires
        p <= q <= s@.len(),
        valid_radix(radix as int),
    ensures
        kres(r, |x: KdlValue| x@) == k_radix_number(s@, p as int, q as int, radix as int, neg),
        inside(r, s@.len()),
        r matches Ok((_, q)) ==> p <= q,
{
    let e = digits_end_c(s, q, radix);
    if !(q < s.len() && radix_digit_c(s[q], radix)) {
        return Err(failure(p, "Invalid number"));
    }
    if e < s.len() && is_id_char_c(s[e]) {
        return Err(failure(p, "Invalid number"));
    }
    let bound: u128 = if neg { I128_TOP + 1 } else { I128_TOP };
    match radix_value_c(s, q, e, radix, bound) {
        Some(mag) => Ok((KdlValue::Integer(signed_of(mag, neg)), e)),
        None => Err(failure(p, "Number does not fit")),
    }
}

fn decimal_c(s: &Vec<char>, p: usize, q: usize, neg: bool) -> (r: Result<(KdlValue, usize), ParseFail>)
    requires
        p <= q <= s@.len(),
    ensures
        kres(r, |x: KdlValue| x@) == k_decimal(s@, p as int, q as int, neg),
        inside(r, s@.len()),
        r matches Ok((_, q)) ==> p <= q,
{
    let len = s.len();
    let int_end = digits_end_c(s, q, 10);
    let has_frac = at_c(s, int_end, '.') && int_end + 1 < len && digit_c(s[int_end + 1]);
    let frac_end = if has_frac { digits_end_c(s, int_end + 1, 10) } else { int_end };
    let has_exp = (at_c(s, frac_end, 'e') || at_c(s, frac_end, 'E')) && number_start_c(s, frac_end + 1);
    let exp_start = if has_exp {
        if is_sign_c(s[frac_end + 1]) { frac_end + 2 } else { frac_end + 1 }
    } else {
        frac_end
    };
    let end = if has_exp { digits_end_c(s, exp_start, 10) } else { frac_end };
    if end < len && is_id_char_c(s[end]) {
        return Err(failure(p, "Invalid number"));
    }
    assert(digit_run(s@, q as int, frac_end as int, 10)) by {
        assert forall|j: int| q <= j < frac_end implies radix_digit(#[trigger] s@[j], 10) || s@[j] == '_' || s@[j] == '.' by {
            if j >= int_end && has_frac && j > int_end {
            }
        }
    }
    let bound: u128 = if neg { I128_TOP + 1 } else { I128_TOP };
    let mag_opt = radix_value_c(s, q, frac_end, 10, bound);
    if !has_frac && !has_exp {
        return match mag_opt {
            Some(mag) => Ok((KdlValue::Integer(signed_of(mag, neg)), end)),
            None => Err(failure(p, "Number does not fit")),
        };
    }
    let fracs: usize = if has_frac { digit_count_c(s, int_end + 1, frac_end) } else { 0 };
    let exp_opt: Option<u128> = if has_exp {
        assert(digit_run(s@, exp_start as int, end as int, 10));
        radix_value_c(s, exp_start, end, 10, 0x7fff_ffff)
    } else {
        Some(0)
    };
    let mag = match mag_opt {
        Some(m) => m,
        None => {
            return Err(failure(p, "Number does not fit"));
        },
    };
    let exp_mag = match exp_opt {
        Some(x) => x,
        None => {
            return Err(failure(p, "Number does not fit"));
        },
    };
    if fracs > 0x7fff_ffff {
        return Err(failure(p, "Number does not fit"));
    }
    let exp_neg = has_exp && at_c(s, frac_end + 1, '-');
    let exp: i64 = (if exp_neg { -(exp_mag as i64) } else { exp_mag as i64 }) - (fracs as i64);
    if exp < -2147483648 || exp > 2147483647 {
        return Err(failure(p, "Number does not fit"));
    }
    let (m, x) = normalized_c(mag, exp as i32);
    Ok((KdlValue::Float(KdlFloat::Decimal { mantissa: signed_of(m, neg), exponent: x }), end))
}

fn number_c(s: &Vec<char>, p: usize) -> (r: Result<(KdlValue, usize), ParseFail>)
    requires
        p <= s@.len(),
    ensures
        kres(r, |x: KdlValue| x@) == k_number(s@, p as int),
        inside(r, s@.len()),
        r matches Ok((_, q)) ==> p <= q,
{
    let neg = at_c(s, p, '-');
    let q = if p < s.len() && is_sign_c(s[p]) { p + 1 } else { p };
    if at2_c(s, q, '0', 'x') {
        radix_number_c(s, p, q + 2, 16, neg)
    } else if at2_c(s, q, '0', 'o') {
        radix_number_c(s, p, q + 2, 8, neg)
    } else if at2_c(s, q, '0', 'b') {
        radix_number_c(s, p, q + 2, 2, neg)
    } else {
        decimal_c(s, p, q, neg)
    }
}


fn word_at_c(s: &Vec<char>, p: usize, t: &str) -> (r: bool)
    requires
        p <= s@.len(),
    ensures
        r == word_at(s@, p as int, t@),
        s@.len() <= usize::MAX,
{
    let len = s.len();
    let tc = chars_of(t);
    if tc.len() > len - p {
        return false;
    }
    let mut i: usize = 0;
    while i < tc.len()
        invariant
            i <= tc@.len(),
            tc@ == t@,
            len == s@.len(),
            p + tc@.len() <= s@.len(),
            forall|j: int| 0 <= j < i ==> s@[p + j] == tc@[j],
        decreases tc.len() - i,
    {
        if s[p + i] != tc[i] {
            assert(s@.subrange(p as int, p + tc@.len())[i as int] != t@[i as int]);
            return false;
        }
        i += 1;
    }
    assert(s@.subrange(p as int, p + tc@.len()) =~= t@);
    let e = p + tc.len();
    !(e < len && is_id_char_c(s[e]))
}

fn keyword_c(s: &Vec<char>, p: usize) -> (r: Result<(KdlValue, usize), ParseFail>)
    requires
        p <= s@.len(),
    ensures
        kres(r, |x: KdlValue| x@) == k_keyword(s@, p as int),
        inside(r, s@.len()),
        r matches Ok((_, q)) ==> p <= q,
{
    proof {
        reveal_strlit("#true");
        reveal_strlit("#false");
        reveal_strlit("#null");
        reveal_strlit("#inf");
        reveal_strlit("#-inf");
        reveal_strlit("#nan");
    }
    if word_at_c(s, p, "#true") {
        Ok((KdlValue::Bool(true), p + 5))
    } else if word_at_c(s, p, "#false") {
        Ok((KdlValue::Bool(false), p + 6))
    } else if word_at_c(s, p, "#null") {
        Ok((KdlValue::Null, p + 5))
    } else if word_at_c(s, p, "#inf") {
        Ok((KdlValue::Float(KdlFloat::Infinity), p + 4))
    } else if word_at_c(s, p, "#-inf") {
        Ok((KdlValue::Float(KdlFloat::NegInfinity), p + 5))
    } else if word_at_c(s, p, "#nan") {
        Ok((KdlValue::Float(KdlFloat::NaN), p + 4))
    } else {
        Err(failure(p, "Unknown keyword"))
    }
}

fn bare_value_c(s: &Vec<char>, p: usize) -> (r: Result<(KdlValue, usize), ParseFail>)
    requires
        p <= s@.len(),
    ensures
        kres(r, |x: KdlValue| x@) == k_bare_value(s@, p as int),
        inside(r, s@.len()),
        r matches Ok((_, q)) ==> p <= q,
{
    if p >= s.len() {
        Err(failure(p, "Expected a value"))
    } else if number_start_c(s, p) {
        number_c(s, p)
    } else if at_c(s, p, '#') && !raw_start_c(s, p) {
        keyword_c(s, p)
    } else {
        match string_c(s, p) {
            Ok((t, q)) => Ok((KdlValue::String(t), q)),
            Err(e) => Err(e),
        }
    }
}

fn type_c(s: &Vec<char>, p: usize) -> (r: Result<(KdlIdentifier, usize), ParseFail>)
    requires
        p < s@.len(),
    ensures
        kres(r, |x: KdlIdentifier| ident_model(x)) == k_type(s@, p as int),
        inside(r, s@.len()),
        r matches Ok((_, q)) ==> p <= q,
{
    let len = s.len();
    match node_space_c(s, p + 1) {
        Err(e) => Err(e),
        Ok(a) => match string_c(s, a) {
            Err(e) => Err(e),
            Ok((t, b)) => match node_space_c(s, b) {
                Err(e) => Err(e),
                Ok(c) => if at_c(s, c, ')') {
                    Ok((KdlIdentifier { value: t, span: SourceSpan { offset: a, len: b - a } }, c + 1))
                } else {
                    Err(failure(c, "Expected ')'"))
                },
            },
        },
    }
}

pub open spec fn typed_value_view(x: (Option<KdlIdentifier>, KdlValue)) -> (Option<IdentModel>, ValueModel) {
    (opt_ident_model(x.0), x.1@)
}

fn value_c(s: &Vec<char>, p: usize) -> (r: Result<((Option<KdlIdentifier>, KdlValue), usize), ParseFail>)
    requires
        p <= s@.len(),
    ensures
        kres(r, |x: (Option<KdlIdentifier>, KdlValue)| typed_value_view(x)) == k_value(s@, p as int),
        inside(r, s@.len()),
        r matches Ok((_, q)) ==> p <= q,
{
    if at_c(s, p, '(') {
        match type_c(s, p) {
            Err(e) => Err(e),
            Ok((t, q)) => match node_space_c(s, q) {
                Err(e) => Err(e),
                Ok(r) => match bare_value_c(s, r) {
                    Err(e) => Err(e),
                    Ok((v, e)) => Ok(((Some(t), v), e)),
                },
            },
        }
    } else {
        match bare_value_c(s, p) {
            Err(e) => Err(e),
            Ok((v, e)) => Ok(((None, v), e)),
        }
    }
}

fn entry_c(s: &Vec<char>, p: usize) -> (r: Result<(KdlEntry, usize), ParseFail>)
    requires
        p <= s@.len(),
    ensures
        kres(r, |x: KdlEntry| entry_model(x)) == k_entry(s@, p as int),
        inside(r, s@.len()),
        r matches Ok((_, q)) ==> p <= q,
{
    let len = s.len();
    if string_start_c(s, p) {
        match string_c(s, p) {
            Err(e) => Err(e),
            Ok((t, q)) => match node_space_c(s, q) {
                Err(e) => Err(e),
                Ok(r) => if at_c(s, r, '=') {
                    match node_space_c(s, r + 1) {
                        Err(e) => Err(e),
                        Ok(v) => match value_c(s, v) {
                            Err(e) => Err(e),
                            Ok(((ty, val), e)) => {
                                Ok(
                                    (
                                        KdlEntry {
                                            ty,
                                            name: Some(KdlIdentifier { value: t, span: SourceSpan { offset: p, len: q - p } }),
                                            value: val,
                                            span: SourceSpan { offset: p, len: e - p },
                                        },
                                        e,
                                    ),
                                )
                            },
                        },
                    }
                } else {
                    Ok(
                        (
                            KdlEntry {
                                ty: None,
                                name: None,
                                value: KdlValue::String(t),
                                span: SourceSpan { offset: p, len: q - p },
                            },
                            q,
                        ),
                    )
                },
            },
        }
    } else {
        match value_c(s, p) {
            Err(e) => Err(e),
            Ok(((ty, val), e)) => {
                Ok((KdlEntry { ty, name: None, value: val, span: SourceSpan { offset: p, len: e - p } }, e))
            },
        }
    }
}


pub open spec fn opt_doc_model(o: Option<KdlDocument>) -> Option<DocModel> {
    match o {
        Some(d) => Some(doc_model(d)),
        None => None,
    }
}

pub open spec fn rest_view(x: (Vec<KdlEntry>, Option<KdlDocument>, usize)) -> (Seq<EntryModel>, Option<DocModel>, int) {
    (entries_model(x.0@), opt_doc_model(x.1), x.2 as int)
}

proof fn lemma_nodes_model_push(v: Seq<KdlNode>, n: KdlNode)
    ensures
        nodes_model(v.push(n)) == nodes_model(v).push(node_model(n)),
{
    let w = v.push(n);
    assert(w.subrange(0, w.len() - 1) =~= v);
}

fn at_node_end_c(s: &Vec<char>, p: usize) -> (r: bool)
    ensures
        r == at_node_end(s@, p as int),
{
    p >= s.len() || at_c(s, p, ';') || nl_len_c(s, p) > 0 || at2_c(s, p, '/', '/') || at_c(s, p, '}')
}

#[verifier::rlimit(100)]
fn rest_c(s: &Vec<char>, cur0: usize, last0: usize, es0: Vec<KdlEntry>, ch0: Option<KdlDocument>) -> (r: Result<((Vec<KdlEntry>, Option<KdlDocument>, usize), usize), ParseFail>)
    requires
        last0 <= cur0 <= s@.len(),
    ensures
        kres(r, |x: (Vec<KdlEntry>, Option<KdlDocument>, usize)| rest_view(x)) == k_rest(
            s@,
            cur0 as int,
            last0 as int,
            entries_model(es0@),
            opt_doc_model(ch0),
        ),
        inside(r, s@.len()),
        r matches Ok((_, q)) ==> cur0 <= q,
        r matches Ok(((_, _, l), _)) ==> last0 <= l,
    decreases s@.len() - cur0, 1int,
{
    let len = s.len();
    let mut cur = cur0;
    let mut last = last0;
    let mut es = es0;
    let mut ch = ch0;
    loop
        invariant
            cur0 <= cur <= s@.len(),
            last0 <= last <= cur,
            len == s@.len(),
            k_rest(s@, cur0 as int, last0 as int, entries_model(es0@), opt_doc_model(ch0)) == k_rest(
                s@,
                cur as int,
                last as int,
                entries_model(es@),
                opt_doc_model(ch),
            ),
        decreases s@.len() - cur,
    {
        let q = match node_space_c(s, cur) {
            Err(e) => {
                return Err(e);
            },
            Ok(q) => q,
        };
        if at_node_end_c(s, q) {
            return Ok(((es, ch, last), q));
        } else if at2_c(s, q, '/', '-') {
            let r = match line_space_c(s, q + 2) {
                Err(e) => {
                    return Err(e);
                },
                Ok(r) => r,
            };
            if !(cur < r) {
                return Err(failure(q, "Expected an entry or a children block"));
            }
            if at_c(s, r, '{') {
                match children_c(s, r) {
                    Err(e) => {
                        return Err(e);
                    },
                    Ok((_, t)) => {
                        if cur < t {
                            cur = t;
                        } else {
                            return Err(failure(r, "Expected '}'"));
                        }
                    },
                }
            } else if ch.is_some() {
                return Err(failure(r, "Only children blocks may follow a children block"));
            } else if q == cur {
                return Err(failure(q, "Expected space before an entry"));
            } else {
                match entry_c(s, r) {
                    Err(e) => {
                        return Err(e);
                    },
                    Ok((_, t)) => {
                        if cur < t {
                            cur = t;
                        } else {
                            return Err(failure(r, "Expected an entry"));
                        }
                    },
                }
            }
        } else if at_c(s, q, '{') {
            if ch.is_some() {
                return Err(failure(q, "A node has one children block"));
            }
            match children_c(s, q) {
                Err(e) => {
                    return Err(e);
                },
                Ok((d, t)) => {
                    if cur < t {
                        cur = t;
                        if last < t {
                            last = t;
                        } else {
                            return Err(failure(q, "Expected '}'"));
                        }
                        ch = Some(d);
                    } else {
                        return Err(failure(q, "Expected '}'"));
                    }
                },
            }
        } else if ch.is_some() {
            return Err(failure(q, "Only children blocks may follow a children block"));
        } else if q == cur {
            return Err(failure(q, "Expected space before an entry"));
        } else {
            match entry_c(s, q) {
                Err(e) => {
                    return Err(e);
                },
                Ok((en, t)) => {
                    if cur < t {
                        let ghost before = es@;
                        let ghost em = entry_model(en);
                        es.push(en);
                        assert(entries_model(es@) =~= entries_model(before).push(em));
                        cur = t;
                        if last < t {
                            last = t;
                        } else {
                            return Err(failure(q, "Expected an entry"));
                        }
                    } else {
                        return Err(failure(q, "Expected an entry"));
                    }
                },
            }
        }
    }
}

fn node_c(s: &Vec<char>, p: usize) -> (r: Result<(KdlNode, usize), ParseFail>)
    requires
        p <= s@.len(),
    ensures
        kres(r, |x: KdlNode| node_model(x)) == k_node(s@, p as int),
        inside(r, s@.len()),
        r matches Ok((_, q)) ==> p <= q,
    decreases s@.len() - p, 2int,
{
    let len = s.len();
    let (ty, q0): (Option<KdlIdentifier>, usize) = if at_c(s, p, '(') {
        match type_c(s, p) {
            Ok((t, q)) => match node_space_c(s, q) {
                Ok(r) => (Some(t), r),
                Err(e) => {
                    return Err(e);
                },
            },
            Err(e) => {
                return Err(e);
            },
        }
    } else {
        (None, p)
    };
    if number_start_c(s, q0) || at_c(s, q0, '#') && !raw_start_c(s, q0) {
        return Err(failure(q0, "Expected a node name"));
    }
    match string_c(s, q0) {
        Err(e) => Err(e),
        Ok((name, q1)) => {
            if !(p < q1) {
                return Err(failure(q0, "Expected a node name"));
            }
            let es: Vec<KdlEntry> = Vec::new();
            assert(entries_model(es@) =~= Seq::<EntryModel>::empty());
            match rest_c(s, q1, q1, es, None) {
                Err(e) => Err(e),
                Ok(((es, ch, last), q2)) => Ok(
                    (
                        KdlNode {
                            ty,
                            name: KdlIdentifier { value: name, span: SourceSpan { offset: q0, len: q1 - q0 } },
                            entries: es,
                            children: ch,
                            span: SourceSpan { offset: p, len: last - p },
                        },
                        q2,
                    ),
                ),
            }
        },
    }
}

fn terminator_c(s: &Vec<char>, p: usize, in_block: bool) -> (r: Result<usize, ParseFail>)
    requires
        p <= s@.len(),
    ensures
        kres_unit(r) == k_terminator(s@, p as int, in_block),
        r matches Ok(q) ==> p <= q <= s@.len(),
{
    let len = s.len();
    if p >= len {
        Ok(p)
    } else if at_c(s, p, ';') {
        Ok(p + 1)
    } else if nl_len_c(s, p) > 0 {
        Ok(p + nl_len_c(s, p))
    } else if at2_c(s, p, '/', '/') {
        Ok(line_end_c(s, p + 2))
    } else if at_c(s, p, '}') && in_block {
        Ok(p)
    } else {
        Err(failure(p, "Expected the end of the node"))
    }
}

pub open spec fn prepended(acc: Seq<NodeModel>, r: KRes<Seq<NodeModel>>) -> KRes<Seq<NodeModel>> {
    match r {
        KRes::Read(ns, u) => KRes::Read(acc + ns, u),
        KRes::Fail(e) => KRes::Fail(e),
    }
}

/// One step over the nodes of a document or block: its end, or a node (dropped
/// where `/-` precedes it) and the position after its terminator.
pub enum NodeStep {
    End(usize),
    Next(Option<KdlNode>, usize),
}

pub open spec fn opt_node_seq(n: Option<KdlNode>) -> Seq<NodeModel> {
    match n {
        Some(x) => seq![node_model(x)],
        None => Seq::empty(),
    }
}

fn node_step_c(s: &Vec<char>, p: usize, in_block: bool) -> (r: Result<NodeStep, ParseFail>)
    requires
        p <= s@.len(),
    ensures
        match r {
            Ok(NodeStep::End(u)) => p <= u <= s@.len() && k_nodes(s@, p as int, in_block) == KRes::Read(
                Seq::<NodeModel>::empty(),
                u as int,
            ),
            Ok(NodeStep::Next(n, t)) => p < t <= s@.len() && k_nodes(s@, p as int, in_block) == prepended(
                opt_node_seq(n),
                k_nodes(s@, t as int, in_block),
            ),
            Err(e) => k_nodes(s@, p as int, in_block) == KRes::<Seq<NodeModel>>::Fail(e@),
        },
    decreases s@.len() - p, 3int,
{
    let len = s.len();
    let r = match line_space_c(s, p) {
        Err(e) => {
            return Err(e);
        },
        Ok(r) => r,
    };
    if r >= len {
        if in_block {
            return Err(failure(r, "Expected '}'"));
        } else {
            return Ok(NodeStep::End(r));
        }
    } else if at_c(s, r, '}') {
        if in_block {
            return Ok(NodeStep::End(r));
        } else {
            return Err(failure(r, "Unexpected '}'"));
        }
    }
    let dashed = at2_c(s, r, '/', '-');
    let start = if dashed {
        match line_space_c(s, r + 2) {
            Err(e) => {
                return Err(e);
            },
            Ok(t) => t,
        }
    } else {
        r
    };
    if start < p || start > len {
        return Err(failure(start, "Expected a node"));
    }
    let (n, q) = match node_c(s, start) {
        Err(e) => {
            return Err(e);
        },
        Ok(x) => x,
    };
    let t = match terminator_c(s, q, in_block) {
        Err(e) => {
            return Err(e);
        },
        Ok(t) => t,
    };
    if !(p < t) {
        return Err(failure(q, "Expected the end of the node"));
    }
    proof {
        let nm = node_model(n);
        match k_nodes(s@, t as int, in_block) {
            KRes::Read(rest, u) => {
                assert(seq![nm] + rest =~= opt_node_seq(Some(n)) + rest);
                assert(rest =~= opt_node_seq(None) + rest);
            },
            KRes::Fail(_) => {},
        }
    }
    if dashed {
        Ok(NodeStep::Next(None, t))
    } else {
        Ok(NodeStep::Next(Some(n), t))
    }
}

fn nodes_c(s: &Vec<char>, p0: usize, in_block: bool) -> (r: Result<(Vec<KdlNode>, usize), ParseFail>)
    requires
        p0 <= s@.len(),
    ensures
        kres(r, |x: Vec<KdlNode>| nodes_model(x@)) == k_nodes(s@, p0 as int, in_block),
        inside(r, s@.len()),
        r matches Ok((_, q)) ==> p0 <= q,
    decreases s@.len() - p0, 4int,
{
    let mut out: Vec<KdlNode> = Vec::new();
    let mut p = p0;
    assert(nodes_model(out@) =~= Seq::<NodeModel>::empty());
    assert(prepended(Seq::empty(), k_nodes(s@, p0 as int, in_block)) =~= k_nodes(s@, p0 as int, in_block)) by {
        match k_nodes(s@, p0 as int, in_block) {
            KRes::Read(ns, u) => {
                assert(Seq::<NodeModel>::empty() + ns =~= ns);
            },
            KRes::Fail(_) => {},
        }
    }
    loop
        invariant
            p0 <= p <= s@.len(),
            k_nodes(s@, p0 as int, in_block) == prepended(nodes_model(out@), k_nodes(s@, p as int, in_block)),
        decreases s@.len() - p,
    {
        match node_step_c(s, p, in_block) {
            Err(e) => {
                return Err(e);
            },
            Ok(NodeStep::End(u)) => {
                assert(nodes_model(out@) + Seq::<NodeModel>::empty() =~= nodes_model(out@));
                return Ok((out, u));
            },
            Ok(NodeStep::Next(n, t)) => {
                proof {
                    let before = nodes_model(out@);
                    match k_nodes(s@, t as int, in_block) {
                        KRes::Read(rest, u) => {
                            assert(before + (opt_node_seq(n) + rest) =~= (before + opt_node_seq(n)) + rest);
                        },
                        KRes::Fail(_) => {},
                    }
                }
                match n {
                    Some(x) => {
                        proof {
                            lemma_nodes_model_push(out@, x);
                            assert(nodes_model(out@) + opt_node_seq(Some(x)) =~= nodes_model(out@).push(node_model(x)));
                        }
                        out.push(x);
                    },
                    None => {
                        assert(nodes_model(out@) + opt_node_seq(None) =~= nodes_model(out@));
                    },
                }
                p = t;
            },
        }
    }
}

proof fn lemma_block_nodes_end(s: Seq<char>, p: int)
    ensures
        k_nodes(s, p, true) matches KRes::Read(_, u) ==> at(s, u, '}'),
    decreases s.len() - p, 1int,
{
    match k_line_space(s, p) {
        KRes::Read(_, r) => {
            if r < s.len() && !at(s, r, '}') {
                if at2(s, r, '/', '-') {
                    match k_line_space(s, r + 2) {
                        KRes::Read(_, t) => lemma_block_from_end(s, p, t, true),
                        KRes::Fail(_) => {},
                    }
                } else {
                    lemma_block_from_end(s, p, r, false);
                }
            }
        },
        KRes::Fail(_) => {},
    }
}

proof fn lemma_block_from_end(s: Seq<char>, p: int, start: int, dashed: bool)
    ensures
        k_nodes_from(s, p, start, true, dashed) matches KRes::Read(_, u) ==> at(s, u, '}'),
    decreases s.len() - p, 0int,
{
    if p <= start <= s.len() {
        match k_node(s, start) {
            KRes::Read(_, q) => match k_terminator(s, q, true) {
                KRes::Read(_, t) => if p < t <= s.len() {
                    lemma_block_nodes_end(s, t);
                },
                KRes::Fail(_) => {},
            },
            KRes::Fail(_) => {},
        }
    }
}

fn children_c(s: &Vec<char>, p: usize) -> (r: Result<(KdlDocument, usize), ParseFail>)
    requires
        p <= s@.len(),
    ensures
        kres(r, |x: KdlDocument| doc_model(x)) == k_children(s@, p as int),
        inside(r, s@.len()),
        r matches Ok((_, q)) ==> p <= q,
    decreases s@.len() - p, 0int,
{
    let len = s.len();
    if p >= len {
        return Err(failure(p, "Expected '{'"));
    }
    match nodes_c(s, p + 1, true) {
        Err(e) => Err(e),
        Ok((ns, q)) => {
            proof {
                lemma_block_nodes_end(s@, p + 1);
            }
            Ok((KdlDocument { nodes: ns, span: SourceSpan { offset: p, len: q + 1 - p } }, q + 1))
        },
    }
}


/// The diagnostic of a failure to read a document.
pub open spec fn failure_diag(s: Seq<char>, e: KErr) -> DiagnosticModel {
    DiagnosticModel {
        span: SourceSpan { offset: e.offset as usize, len: if e.offset < s.len() { 1 } else { 0 } },
        message: Some(e.message),
        label: Some("here"@),
        help: None,
        severity: Severity::Error,
    }
}

/// What reading a whole text as a KDL document gives (see [`k_document`]).
pub open spec fn document_of(s: Seq<char>) -> Result<DocModel, DiagnosticModel> {
    match k_document(s) {
        KRes::Read(d, _) => Ok(d),
        KRes::Fail(e) => Err(failure_diag(s, e)),
    }
}

impl KdlDocument {
    /// Reads a KDL document (see [`document_of`]); spans count characters.
    pub fn parse(input: &str) -> (r: Result<KdlDocument, KdlError>)
        ensures
            match (r, document_of(input@)) {
                (Ok(d), Ok(m)) => doc_model(d) == m,
                (Err(e), Err(m)) => e.input@ == input@ && diags_view(e.diagnostics@) == seq![m],
                _ => false,
            },
    {
        let s = chars_of(input);
        let len = s.len();
        let start: usize = if at_c(&s, 0, '\u{FEFF}') { 1 } else { 0 };
        match nodes_c(&s, start, false) {
            Ok((ns, _)) => Ok(KdlDocument { nodes: ns, span: SourceSpan { offset: 0, len } }),
            Err(e) => {
                let d = KdlDiagnostic {
                    span: SourceSpan { offset: e.offset, len: if e.offset < len { 1 } else { 0 } },
                    message: Some(e.message),
                    label: Some(string_of("here")),
                    help: None,
                    severity: Severity::Error,
                };
                let mut diagnostics: Vec<KdlDiagnostic> = Vec::new();
                diagnostics.push(d);
                assert(diags_view(diagnostics@) =~= seq![failure_diag(s@, e@)]);
                Err(KdlError { input: string_of(input), diagnostics })
            },
        }
    }
}

impl std::str::FromStr for KdlDocument {
    type Err = KdlError;

    fn from_str(input: &str) -> Result<KdlDocument, KdlError> {
        KdlDocument::parse(input)
    }
}


/// Whether some node of `ns` is named `name`.
pub open spec fn model_has_node(ns: Seq<NodeModel>, name: Seq<char>) -> bool {
    exists|i: int| 0 <= i < ns.len() && (#[trigger] ns[i]).name.value == name
}

pub proof fn lemma_nodes_model_index(v: Seq<KdlNode>)
    ensures
        nodes_model(v).len() == v.len(),
        forall|i: int| 0 <= i < v.len() ==> #[trigger] nodes_model(v)[i] == node_model(v[i]),
    decreases v.len(),
{
    if v.len() > 0 {
        let w = v.subrange(0, v.len() - 1);
        lemma_nodes_model_index(w);
        assert forall|i: int| 0 <= i < v.len() implies #[trigger] nodes_model(v)[i] == node_model(v[i]) by {
            if i < v.len() - 1 {
                assert(w[i] == v[i]);
            }
        }
    }
}

pub proof fn lemma_find_node_exists(v: Seq<KdlNode>, name: Seq<char>)
    ensures
        crate::document::find_node(v, name) is Some <==> exists|i: int| 0 <= i < v.len() && (#[trigger] v[i]).name.value@ == name,
    decreases v.len(),
{
    if v.len() > 0 {
        lemma_find_node_exists(v.drop_first(), name);
        if exists|i: int| 0 <= i < v.len() && (#[trigger] v[i]).name.value@ == name {
            let i = choose|i: int| 0 <= i < v.len() && (#[trigger] v[i]).name.value@ == name;
            if i > 0 {
                assert(v.drop_first()[i - 1] == v[i]);
            }
        }
        if exists|i: int| 0 <= i < v.drop_first().len() && (#[trigger] v.drop_first()[i]).name.value@ == name {
            let i = choose|i: int| 0 <= i < v.drop_first().len() && (#[trigger] v.drop_first()[i]).name.value@ == name;
            assert(v[i + 1] == v.drop_first()[i]);
        }
    }
}

/// Whether a document has a node named `name`, stated over the document and its model alike.
pub proof fn lemma_has_node(d: KdlDocument, name: Seq<char>)
    ensures
        crate::document::find_node(d.nodes@, name) is Some <==> model_has_node(doc_model(d).nodes, name),
{
    lemma_find_node_exists(d.nodes@, name);
    lemma_nodes_model_index(d.nodes@);
    let m = doc_model(d).nodes;
    if model_has_node(m, name) {
        let i = choose|i: int| 0 <= i < m.len() && (#[trigger] m[i]).name.value == name;
        assert(m[i] == node_model(d.nodes@[i]));
    }
    if exists|i: int| 0 <= i < d.nodes@.len() && (#[trigger] d.nodes@[i]).name.value@ == name {
        let i = choose|i: int| 0 <= i < d.nodes@.len() && (#[trigger] d.nodes@[i]).name.value@ == name;
        assert(m[i] == node_model(d.nodes@[i]));
    }
}

} // verus!
