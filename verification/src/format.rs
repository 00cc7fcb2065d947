//! The text of a whole document in a uniform layout: one node per line,
//! children indented by four spaces per level, entries separated by one space,
//! names bare where they read as identifiers and quoted otherwise.

use vstd::prelude::*;

use crate::document::{KdlDocument, KdlEntry, KdlIdentifier, KdlNode};
use crate::chars::{is_hexdigit, is_kdl_newline, kdl_newline_c};
use crate::parser::{
    bare_ident, digits_end, hash_run, hex_run, hex_val, hex_value, id_end, is_disallowed, is_disallowed_c, is_id_char,
    digit_count, k_bare_value, k_ident, k_keyword, k_quoted, k_quoted_body, normalized, radix_value, reads_as_ident, word_at,
    KRes,
};
use crate::chars::is_digit;
use crate::number::{lemma_pow10_add, lemma_pow10_pos, pow10, KdlFloat};
use crate::text::{digit_char, int_text, nat_text};
use crate::render::{abs_int, decimal_text, push_value, value_text, zeros};
use crate::text::{chars_of, push_char, push_int, push_str};
use crate::value::ValueModel;

verus! {

/// A lowercase hexadecimal digit.
pub open spec fn hex_digit(d: nat) -> char {
    if d < 10 {
        ((d + 48) as u8) as char
    } else {
        ((d + 87) as u8) as char
    }
}

/// The lowercase hexadecimal digits of `n`.
pub open spec fn hex_text(n: nat) -> Seq<char>
    decreases n,
{
    if n < 16 {
        seq![hex_digit(n)]
    } else {
        hex_text(n / 16) + seq![hex_digit(n % 16)]
    }
}

/// One character inside a quoted string: quotes, backslashes and the common
/// control characters by their escapes, line breaks and characters that a
/// document may not hold by their code, anything else as it is.
pub open spec fn escaped(c: char) -> Seq<char> {
    if c == '"' {
        seq!['\\', '"']
    } else if c == '\\' {
        seq!['\\', '\\']
    } else if c == '\n' {
        seq!['\\', 'n']
    } else if c == '\r' {
        seq!['\\', 'r']
    } else if c == '\t' {
        seq!['\\', 't']
    } else if is_disallowed(c) || is_kdl_newline(c) {
        seq!['\\', 'u', '{'] + hex_text(c as nat) + seq!['}']
    } else {
        seq![c]
    }
}

pub open spec fn escaped_text(t: Seq<char>) -> Seq<char>
    decreases t.len(),
{
    if t.len() == 0 {
        Seq::empty()
    } else {
        escaped_text(t.drop_last()) + escaped(t.last())
    }
}

/// A quoted string holding `t`.
pub open spec fn quoted(t: Seq<char>) -> Seq<char> {
    seq!['"'] + escaped_text(t) + seq!['"']
}

/// A name as it is written: bare where it reads as an identifier, else quoted.
pub open spec fn name_text(t: Seq<char>) -> Seq<char> {
    if bare_ident(t) {
        t
    } else {
        quoted(t)
    }
}

/// Whether a decimal `m * 10^e` is written with all its digits: where the
/// digits and the `.0` after them make a whole number that fits in 128 bits.
pub open spec fn fits_plain(m: int, e: int) -> bool {
    e < 0 || abs_int(m) * pow10((e + 1) as nat) <= i128::MAX
}

/// A value as it is written: strings quoted, a decimal too long to write out
/// with an exponent (`<mantissa>E<exponent>`), other values as [`value_text`]
/// gives them.
pub open spec fn written_value(v: ValueModel) -> Seq<char> {
    match v {
        ValueModel::String(t) => quoted(t),
        ValueModel::Float(KdlFloat::Decimal { mantissa, exponent }) => if fits_plain(
            mantissa as int,
            exponent as int,
        ) {
            value_text(v)
        } else {
            int_text(mantissa as int) + seq!['E'] + int_text(exponent as int)
        },
        _ => value_text(v),
    }
}

/// A type annotation in brackets, or nothing.
pub open spec fn annotation_text(ty: Option<KdlIdentifier>) -> Seq<char> {
    match ty {
        Some(t) => seq!['('] + name_text(t.value@) + seq![')'],
        None => Seq::empty(),
    }
}

/// An entry: `name=` for a property, the annotation, then the value.
pub open spec fn entry_text(e: KdlEntry) -> Seq<char> {
    (match e.name {
        Some(n) => name_text(n.value@) + seq!['='],
        None => Seq::empty(),
    }) + annotation_text(e.ty) + written_value(e.value@)
}

/// Each of the first `k` entries, with a space before it.
pub open spec fn entries_text(es: Seq<KdlEntry>, k: int) -> Seq<char>
    decreases k,
{
    if k <= 0 || k > es.len() {
        Seq::empty()
    } else {
        entries_text(es, k - 1) + seq![' '] + entry_text(es[k - 1])
    }
}

/// Four spaces per level.
pub open spec fn indent(depth: nat) -> Seq<char>
    decreases depth,
{
    if depth == 0 {
        Seq::empty()
    } else {
        indent((depth - 1) as nat) + seq![' ', ' ', ' ', ' ']
    }
}

/// The first `k` nodes of a block, each on its own lines, at `depth`.
pub open spec fn nodes_text(nodes: Seq<KdlNode>, k: int, depth: nat) -> Seq<char>
    decreases nodes, k, 0int,
{
    if k <= 0 || k > nodes.len() {
        Seq::empty()
    } else {
        nodes_text(nodes, k - 1, depth) + node_text(nodes[k - 1], depth)
    }
}

/// A node at `depth`: its line, then its children in braces, one level deeper.
pub open spec fn node_text(n: KdlNode, depth: nat) -> Seq<char>
    decreases n, 1int, 0int,
{
    indent(depth) + annotation_text(n.ty) + name_text(n.name.value@) + entries_text(n.entries@, n.entries@.len() as int)
        + match n.children {
        Some(c) => seq![' ', '{', '\n'] + nodes_text(c.nodes@, c.nodes@.len() as int, depth + 1) + indent(depth)
            + seq!['}', '\n'],
        None => seq!['\n'],
    }
}

/// The text of a document.
pub open spec fn document_text(doc: KdlDocument) -> Seq<char> {
    nodes_text(doc.nodes@, doc.nodes@.len() as int, 0)
}

fn hex_digit_c(d: u32) -> (c: char)
    requires
        d < 16,
    ensures
        c == hex_digit(d as nat),
{
    if d < 10 {
        ((d + 48) as u8) as char
    } else {
        ((d + 87) as u8) as char
    }
}

fn push_hex(s: &mut String, n: u32)
    ensures
        final(s)@ == old(s)@ + hex_text(n as nat),
    decreases n,
{
    if n < 16 {
        push_char(s, hex_digit_c(n));
        assert(s@ =~= old(s)@ + hex_text(n as nat));
    } else {
        push_hex(s, n / 16);
        push_char(s, hex_digit_c(n % 16));
        assert(s@ =~= old(s)@ + hex_text(n as nat));
    }
}

fn push_escaped(s: &mut String, c: char)
    ensures
        final(s)@ == old(s)@ + escaped(c),
{
    if c == '"' {
        push_char(s, '\\');
        push_char(s, '"');
    } else if c == '\\' {
        push_char(s, '\\');
        push_char(s, '\\');
    } else if c == '\n' {
        push_char(s, '\\');
        push_char(s, 'n');
    } else if c == '\r' {
        push_char(s, '\\');
        push_char(s, 'r');
    } else if c == '\t' {
        push_char(s, '\\');
        push_char(s, 't');
    } else if is_disallowed_c(c) || kdl_newline_c(c) {
        push_char(s, '\\');
        push_char(s, 'u');
        push_char(s, '{');
        push_hex(s, c as u32);
        push_char(s, '}');
    } else {
        push_char(s, c);
    }
    assert(s@ =~= old(s)@ + escaped(c));
}

fn push_quoted_text(s: &mut String, t: &str)
    ensures
        final(s)@ == old(s)@ + quoted(t@),
{
    let cs = chars_of(t);
    push_char(s, '"');
    let mut i: usize = 0;
    while i < cs.len()
        invariant
            i <= cs@.len(),
            cs@ == t@,
            s@ == old(s)@ + seq!['"'] + escaped_text(cs@.take(i as int)),
        decreases cs.len() - i,
    {
        push_escaped(s, cs[i]);
        assert(cs@.take(i + 1).drop_last() =~= cs@.take(i as int));
        i += 1;
        assert(s@ =~= old(s)@ + seq!['"'] + escaped_text(cs@.take(i as int)));
    }
    push_char(s, '"');
    assert(cs@.take(i as int) =~= cs@);
    assert(s@ =~= old(s)@ + quoted(t@));
}

fn push_name(s: &mut String, t: &str)
    ensures
        final(s)@ == old(s)@ + name_text(t@),
{
    if reads_as_ident(t) {
        push_str(s, t);
    } else {
        push_quoted_text(s, t);
    }
}

fn fits_plain_c(m: i128, e: i32) -> (r: bool)
    ensures
        r == fits_plain(m as int, e as int),
{
    if e < 0 {
        return true;
    }
    let a: u128 = if m < 0 { ((-(m + 1)) as u128) + 1 } else { m as u128 };
    let ghost n0: nat = (e + 1) as nat;
    assert(a as int == abs_int(m as int));
    if a == 0 {
        assert(abs_int(m as int) * pow10(n0) == 0);
        return true;
    }
    let max: u128 = 0x7fff_ffff_ffff_ffff_ffff_ffff_ffff_ffff;
    proof {
        lemma_pow10_pos(n0);
    }
    if a > max {
        proof {
            lemma_grows(a as int, n0);
        }
        return false;
    }
    let mut v: u128 = a;
    let mut k: u32 = 0;
    let n: u32 = (e as u32) + 1;
    assert(n as nat == n0);
    while k < n
        invariant
            k <= n,
            n as nat == n0,
            n0 == (e + 1) as nat,
            e >= 0,
            a >= 1,
            v as int == a * pow10(k as nat),
            v <= max,
            max == i128::MAX,
            a as int == abs_int(m as int),
        decreases n - k,
    {
        proof {
            assert(pow10((k + 1) as nat) == 10 * pow10(k as nat));
            assert(a * pow10((k + 1) as nat) == 10 * (a * pow10(k as nat))) by (nonlinear_arith);
        }
        if v > max / 10 {
            proof {
                let big = a * pow10((k + 1) as nat);
                assert(big > max);
                lemma_grows_from(a as int, (k + 1) as nat, n0);
            }
            return false;
        }
        v = v * 10;
        k = k + 1;
    }
    true
}

/// A positive number times a power of ten grows with the power.
proof fn lemma_grows_from(a: int, j: nat, n: nat)
    requires
        a >= 1,
        j <= n,
    ensures
        a * pow10(n) >= a * pow10(j),
    decreases n - j,
{
    if j < n {
        lemma_grows_from(a, j, (n - 1) as nat);
        lemma_pow10_pos((n - 1) as nat);
        assert(pow10(n) == 10 * pow10((n - 1) as nat));
        assert(a * pow10(n) == 10 * (a * pow10((n - 1) as nat))) by (nonlinear_arith)
            requires
                pow10(n) == 10 * pow10((n - 1) as nat),
        ;
        assert(a * pow10((n - 1) as nat) >= 0) by (nonlinear_arith)
            requires
                a >= 1,
                pow10((n - 1) as nat) >= 1,
        ;
    }
}

proof fn lemma_grows(a: int, n: nat)
    requires
        a >= 1,
    ensures
        a * pow10(n) >= a,
{
    lemma_grows_from(a, 0, n);
    assert(pow10(0) == 1);
}

fn push_written_value(s: &mut String, v: &crate::value::KdlValue)
    ensures
        final(s)@ == old(s)@ + written_value(v@),
{
    match v {
        crate::value::KdlValue::String(t) => push_quoted_text(s, t.as_str()),
        crate::value::KdlValue::Float(KdlFloat::Decimal { mantissa, exponent }) => {
            if fits_plain_c(*mantissa, *exponent) {
                push_value(s, v);
            } else {
                push_int(s, *mantissa);
                push_char(s, 'E');
                push_int(s, *exponent as i128);
                assert(s@ =~= old(s)@ + written_value(v@));
            }
        },
        _ => push_value(s, v),
    }
}

fn push_annotation(s: &mut String, ty: &Option<KdlIdentifier>)
    ensures
        final(s)@ == old(s)@ + annotation_text(*ty),
{
    match ty {
        Some(t) => {
            push_char(s, '(');
            push_name(s, t.value.as_str());
            push_char(s, ')');
            assert(s@ =~= old(s)@ + annotation_text(*ty));
        },
        None => {
            assert(s@ =~= old(s)@ + annotation_text(*ty));
        },
    }
}

fn push_entry(s: &mut String, e: &KdlEntry)
    ensures
        final(s)@ == old(s)@ + entry_text(*e),
{
    match &e.name {
        Some(n) => {
            push_name(s, n.value.as_str());
            push_char(s, '=');
        },
        None => {},
    }
    let ghost mid = s@;
    push_annotation(s, &e.ty);
    push_written_value(s, &e.value);
    assert(s@ =~= old(s)@ + entry_text(*e));
}

fn push_nodes(s: &mut String, nodes: &Vec<KdlNode>, prefix: &str, Ghost(depth): Ghost<nat>)
    requires
        prefix@ == indent(depth),
    ensures
        final(s)@ == old(s)@ + nodes_text(nodes@, nodes@.len() as int, depth),
    decreases nodes@, 0int, 0int,
{
    let mut i: usize = 0;
    while i < nodes.len()
        invariant
            i <= nodes@.len(),
            prefix@ == indent(depth),
            s@ == old(s)@ + nodes_text(nodes@, i as int, depth),
        decreases nodes.len() - i,
    {
        proof {
            assert(decreases_to!(nodes@ => nodes@[i as int]));
        }
        push_node(s, &nodes[i], prefix, Ghost(depth));
        i += 1;
        assert(s@ =~= old(s)@ + nodes_text(nodes@, i as int, depth));
    }
}

fn push_node(s: &mut String, n: &KdlNode, prefix: &str, Ghost(depth): Ghost<nat>)
    requires
        prefix@ == indent(depth),
    ensures
        final(s)@ == old(s)@ + node_text(*n, depth),
    decreases *n, 1int, 0int,
{
    push_str(s, prefix);
    push_annotation(s, &n.ty);
    push_name(s, n.name.value.as_str());
    let ghost head = s@;
    let mut i: usize = 0;
    while i < n.entries.len()
        invariant
            i <= n.entries@.len(),
            s@ == head + entries_text(n.entries@, i as int),
        decreases n.entries.len() - i,
    {
        push_char(s, ' ');
        push_entry(s, &n.entries[i]);
        i += 1;
        assert(s@ =~= head + entries_text(n.entries@, i as int));
    }
    let ghost line = s@;
    match &n.children {
        Some(c) => {
            push_str(s, " {\n");
            let mut deeper = crate::text::string_of(prefix);
            push_str(&mut deeper, "    ");
            proof {
                reveal_strlit(" {\n");
                reveal_strlit("    ");
                assert(deeper@ =~= indent(depth + 1));
                assert(decreases_to!(*n => c.nodes@));
            }
            push_nodes(s, &c.nodes, deeper.as_str(), Ghost(depth + 1));
            push_str(s, prefix);
            push_str(s, "}\n");
            proof {
                reveal_strlit("}\n");
            }
        },
        None => {
            push_char(s, '\n');
        },
    }
    assert(s@ =~= old(s)@ + node_text(*n, depth));
}

impl KdlDocument {
    /// The document's text in the uniform layout (see [`document_text`]).
    pub fn to_formatted_string(&self) -> (r: String)
        ensures
            r@ == document_text(*self),
    {
        let mut s = String::new();
        let empty = "";
        proof {
            reveal_strlit("");
            assert(empty@ =~= indent(0));
        }
        push_nodes(&mut s, &self.nodes, empty, Ghost(0));
        assert(s@ =~= document_text(*self));
        s
    }
}


proof fn lemma_hex_digit(d: nat)
    requires
        d < 16,
    ensures
        is_hexdigit(hex_digit(d)),
        hex_val(hex_digit(d)) == d,
        hex_digit(d) != '}',
{
}

proof fn lemma_hex_text(n: nat)
    ensures
        1 <= hex_text(n).len(),
        n < 0x10 ==> hex_text(n).len() <= 1,
        n < 0x100 ==> hex_text(n).len() <= 2,
        n < 0x1000 ==> hex_text(n).len() <= 3,
        n < 0x10000 ==> hex_text(n).len() <= 4,
        n < 0x100000 ==> hex_text(n).len() <= 5,
        n < 0x1000000 ==> hex_text(n).len() <= 6,
        forall|i: int| 0 <= i < hex_text(n).len() ==> is_hexdigit(#[trigger] hex_text(n)[i]),
        forall|i: int| 0 <= i < hex_text(n).len() ==> #[trigger] hex_text(n)[i] != '}',
    decreases n,
{
    if n < 16 {
        lemma_hex_digit(n);
    } else {
        lemma_hex_text(n / 16);
        lemma_hex_digit(n % 16);
        let a = hex_text(n / 16);
        assert(hex_text(n) == a + seq![hex_digit(n % 16)]);
        assert forall|i: int| 0 <= i < hex_text(n).len() implies is_hexdigit(#[trigger] hex_text(n)[i]) by {
            if i < a.len() {
                assert(hex_text(n)[i] == a[i]);
            }
        }
        assert forall|i: int| 0 <= i < hex_text(n).len() implies #[trigger] hex_text(n)[i] != '}' by {
            if i < a.len() {
                assert(hex_text(n)[i] == a[i]);
            }
        }
    }
}

proof fn lemma_hex_value(s: Seq<char>, a: int, n: nat)
    requires
        0 <= a,
        a + hex_text(n).len() <= s.len(),
        s.subrange(a, a + hex_text(n).len()) == hex_text(n),
    ensures
        hex_value(s, a, a + hex_text(n).len()) == n,
    decreases n,
{
    let h = hex_text(n);
    let b = a + h.len();
    if n < 16 {
        lemma_hex_digit(n);
        assert(s[a] == h[0]);
        assert(hex_value(s, a, a) == 0);
    } else {
        let h0 = hex_text(n / 16);
        lemma_hex_digit(n % 16);
        assert(h == h0 + seq![hex_digit(n % 16)]);
        assert(s.subrange(a, a + h0.len()) =~= h0) by {
            assert forall|i: int| 0 <= i < h0.len() implies s.subrange(a, a + h0.len())[i] == h0[i] by {
                assert(s.subrange(a, b)[i] == h[i]);
            }
        }
        lemma_hex_value(s, a, n / 16);
        assert(s[b - 1] == s.subrange(a, b)[h.len() - 1]);
        assert(s[b - 1] == hex_digit(n % 16));
        assert(n == (n / 16) * 16 + n % 16);
    }
}

proof fn lemma_hex_run(s: Seq<char>, p: int, k: nat, max: nat)
    requires
        0 <= p,
        k <= max,
        p + k < s.len(),
        forall|i: int| p <= i < p + k ==> is_hexdigit(#[trigger] s[i]),
        !is_hexdigit(s[p + k]),
    ensures
        hex_run(s, p, max) == p + k,
    decreases k,
{
    if k > 0 {
        lemma_hex_run(s, p + 1, (k - 1) as nat, (max - 1) as nat);
    }
}


proof fn lemma_escaped_step(s: Seq<char>, p: int, acc: Seq<char>, c: char)
    requires
        0 <= p,
        p + escaped(c).len() <= s.len(),
        s.subrange(p, p + escaped(c).len()) == escaped(c),
    ensures
        k_quoted_body(s, p, acc) == k_quoted_body(s, p + escaped(c).len(), acc.push(c)),
{
    let e = escaped(c);
    assert(s[p] == e[0]);
    if e.len() >= 2 {
        assert(s[p + 1] == e[1]);
    }
    if c == '"' || c == '\\' || c == '\n' || c == '\r' || c == '\t' {
    } else if is_disallowed(c) || is_kdl_newline(c) {
        let h = hex_text(c as nat);
        lemma_hex_text(c as nat);
        assert(e == seq!['\\', 'u', '{'] + h + seq!['}']);
        assert(s[p + 2] == e[2]);
        let end = p + 3 + h.len();
        assert(s[end] == e[3 + h.len() as int]);
        assert forall|i: int| p + 3 <= i < p + 3 + h.len() implies is_hexdigit(#[trigger] s[i]) by {
            assert(s[i] == e[i - p]);
            assert(e[i - p] == h[i - p - 3]);
        }
        lemma_hex_run(s, p + 3, h.len(), 6);
        assert(s.subrange(p + 3, end) =~= h) by {
            assert forall|i: int| 0 <= i < h.len() implies s.subrange(p + 3, end)[i] == h[i] by {
                assert(s[p + 3 + i] == e[3 + i]);
            }
        }
        lemma_hex_value(s, p + 3, c as nat);
    } else {
    }
}

proof fn lemma_escaped_text_first(u: Seq<char>)
    requires
        u.len() > 0,
    ensures
        escaped_text(u) == escaped(u[0]) + escaped_text(u.drop_first()),
    decreases u.len(),
{
    if u.len() == 1 {
        assert(u.drop_last() =~= Seq::<char>::empty());
        assert(u.drop_first() =~= Seq::<char>::empty());
        assert(escaped_text(u.drop_last()) == Seq::<char>::empty());
        assert(escaped_text(u.drop_first()) == Seq::<char>::empty());
        assert(u.last() == u[0]);
        assert(escaped_text(u) =~= escaped(u[0]) + escaped_text(u.drop_first()));
    } else {
        lemma_escaped_text_first(u.drop_last());
        assert(u.drop_last().drop_first() =~= u.drop_first().drop_last());
        assert(u.drop_first().last() == u.last());
        assert(escaped_text(u) =~= escaped(u[0]) + escaped_text(u.drop_first()));
    }
}

proof fn lemma_escaped_text_reads(s: Seq<char>, p: int, acc: Seq<char>, u: Seq<char>)
    requires
        0 <= p,
        p + escaped_text(u).len() < s.len(),
        s.subrange(p, p + escaped_text(u).len()) == escaped_text(u),
        s[p + escaped_text(u).len()] == '"',
    ensures
        k_quoted_body(s, p, acc) == KRes::Read(acc + u, p + escaped_text(u).len() + 1),
    decreases u.len(),
{
    if u.len() == 0 {
        assert(acc + u =~= acc);
    } else {
        lemma_escaped_text_first(u);
        let e0 = escaped(u[0]);
        let rest = escaped_text(u.drop_first());
        assert(s.subrange(p, p + e0.len()) =~= e0) by {
            assert forall|i: int| 0 <= i < e0.len() implies s.subrange(p, p + e0.len())[i] == e0[i] by {
                assert(s.subrange(p, p + escaped_text(u).len())[i] == escaped_text(u)[i]);
            }
        }
        lemma_escaped_step(s, p, acc, u[0]);
        let q = p + e0.len();
        assert(s.subrange(q, q + rest.len()) =~= rest) by {
            assert forall|i: int| 0 <= i < rest.len() implies s.subrange(q, q + rest.len())[i] == rest[i] by {
                assert(s.subrange(p, p + escaped_text(u).len())[e0.len() + i] == escaped_text(u)[e0.len() + i]);
            }
        }
        lemma_escaped_text_reads(s, q, acc.push(u[0]), u.drop_first());
        assert(acc.push(u[0]) + u.drop_first() =~= acc + u);
    }
}

/// A string that the formatter quotes reads back, by the grammar's rule for
/// quoted strings, as the text it holds; the one exception is the empty string
/// right before another quote, which reads as the start of a multi-line string.
pub proof fn law_quoted_reads_back(t: Seq<char>, rest: Seq<char>)
    requires
        !(t.len() == 0 && rest.len() > 0 && rest[0] == '"'),
    ensures
        k_quoted(quoted(t) + rest, 0) == KRes::Read(t, quoted(t).len() as int),
{
    let s = quoted(t) + rest;
    let e = escaped_text(t);
    assert(quoted(t) == seq!['"'] + e + seq!['"']);
    assert(s.subrange(1, 1 + e.len() as int) =~= e) by {
        assert forall|i: int| 0 <= i < e.len() implies s.subrange(1, 1 + e.len() as int)[i] == e[i] by {
            assert(s[1 + i] == quoted(t)[1 + i]);
        }
    }
    assert(s[1 + e.len() as int] == quoted(t)[1 + e.len() as int]);
    lemma_escaped_text_reads(s, 1, Seq::empty(), t);
    assert(Seq::<char>::empty() + t =~= t);
    if t.len() > 0 {
        lemma_escaped_text_first(t);
        assert(s[1] == escaped(t[0])[0]);
    } else {
        assert(s[1] == '"');
        assert(e.len() == 0);
    }
}


proof fn lemma_id_end_prefix(t: Seq<char>, rest: Seq<char>, p: int)
    requires
        0 <= p <= t.len(),
        id_end(t, p) == t.len(),
        rest.len() == 0 || !is_id_char(rest[0]),
    ensures
        id_end(t + rest, p) == t.len(),
    decreases t.len() - p,
{
    let s = t + rest;
    if p < t.len() {
        assert(s[p] == t[p]);
        lemma_id_end_prefix(t, rest, p + 1);
    } else {
        if rest.len() > 0 {
            assert(s[p] == rest[0]);
        }
    }
}

/// A name that the formatter writes reads back as itself: a bare name by the
/// grammar's rule for identifiers, where what follows it cannot continue an
/// identifier, and a quoted name by the rule for quoted strings (with the
/// exception of [`law_quoted_reads_back`]).
pub proof fn law_name_reads_back(t: Seq<char>, rest: Seq<char>)
    requires
        rest.len() == 0 || !is_id_char(rest[0]),
        !(t.len() == 0 && rest.len() > 0 && rest[0] == '"'),
    ensures
        bare_ident(t) ==> k_ident(name_text(t) + rest, 0) == KRes::Read(t, t.len() as int),
        !bare_ident(t) ==> k_quoted(name_text(t) + rest, 0) == KRes::Read(t, quoted(t).len() as int),
{
    if bare_ident(t) {
        lemma_id_end_prefix(t, rest, 0);
        let s = t + rest;
        assert(s.subrange(0, t.len() as int) =~= t);
        assert(t.subrange(0, t.len() as int) =~= t);
    } else {
        law_quoted_reads_back(t, rest);
    }
}


proof fn lemma_digit_char(d: nat)
    requires
        d < 10,
    ensures
        is_digit(digit_char(d)),
        hex_val(digit_char(d)) == d,
{
}

proof fn lemma_nat_text(n: nat)
    ensures
        1 <= nat_text(n).len(),
        forall|i: int| 0 <= i < nat_text(n).len() ==> is_digit(#[trigger] nat_text(n)[i]),
    decreases n,
{
    if n >= 10 {
        lemma_nat_text(n / 10);
        lemma_digit_char(n % 10);
        let a = nat_text(n / 10);
        assert forall|i: int| 0 <= i < nat_text(n).len() implies is_digit(#[trigger] nat_text(n)[i]) by {
            if i < a.len() {
                assert(nat_text(n)[i] == a[i]);
            }
        }
    } else {
        lemma_digit_char(n);
    }
}

proof fn lemma_radix_value_nat(s: Seq<char>, a: int, n: nat)
    requires
        0 <= a,
        a + nat_text(n).len() <= s.len(),
        s.subrange(a, a + nat_text(n).len()) == nat_text(n),
    ensures
        radix_value(s, a, a + nat_text(n).len(), 10) == n,
    decreases n,
{
    let t = nat_text(n);
    let b = a + t.len();
    if n < 10 {
        lemma_digit_char(n);
        assert(s[a] == t[0]);
        assert(radix_value(s, a, a, 10) == 0);
    } else {
        let t0 = nat_text(n / 10);
        lemma_digit_char(n % 10);
        assert(t == t0.push(digit_char(n % 10)));
        assert(s.subrange(a, a + t0.len()) =~= t0) by {
            assert forall|i: int| 0 <= i < t0.len() implies s.subrange(a, a + t0.len())[i] == t0[i] by {
                assert(s.subrange(a, b)[i] == t[i]);
            }
        }
        lemma_radix_value_nat(s, a, n / 10);
        assert(s[b - 1] == s.subrange(a, b)[t.len() - 1]);
        assert(n == (n / 10) * 10 + n % 10);
    }
}

proof fn lemma_digits_end(s: Seq<char>, p: int, k: nat)
    requires
        0 <= p,
        p + k <= s.len(),
        forall|i: int| p <= i < p + k ==> is_digit(#[trigger] s[i]),
        p + k == s.len() || !(is_digit(s[p + k]) || s[p + k] == '_'),
    ensures
        digits_end(s, p, 10) == p + k,
    decreases k,
{
    if k > 0 {
        lemma_digits_end(s, p + 1, (k - 1) as nat);
    }
}

/// An integer that the formatter writes reads back, by the grammar's rule for
/// numbers, as itself, where what follows it cannot continue a number.
#[verifier::rlimit(80)]
pub proof fn law_integer_reads_back(i: i128, rest: Seq<char>)
    requires
        rest.len() == 0 || !is_id_char(rest[0]),
    ensures
        k_bare_value(written_value(ValueModel::Integer(i)) + rest, 0) == KRes::Read(
            ValueModel::Integer(i),
            int_text(i as int).len() as int,
        ),
{
    let w = int_text(i as int);
    let s = w + rest;
    let neg = i < 0;
    let m: nat = if neg { (-(i as int)) as nat } else { i as nat };
    let d = nat_text(m);
    let q: int = if neg { 1 } else { 0 };
    lemma_nat_text(m);
    assert(written_value(ValueModel::Integer(i)) == w);
    assert(w == if neg { seq!['-'] + d } else { d });
    assert(w.len() == q + d.len());
    assert forall|j: int| q <= j < q + d.len() implies is_digit(#[trigger] s[j]) by {
        assert(s[j] == w[j]);
        assert(w[j] == d[j - q]);
    }
    if w.len() < s.len() {
        assert(s[w.len() as int] == rest[0]);
    }
    lemma_digits_end(s, q, d.len());
    assert(s.subrange(q, q + d.len()) =~= d) by {
        assert forall|j: int| 0 <= j < d.len() implies s.subrange(q, q + d.len())[j] == d[j] by {
            assert(s[q + j] == w[q + j]);
        }
    }
    lemma_radix_value_nat(s, q, m);
    assert(s[q] == d[0]);
    assert(is_digit(d[0]));
    if neg {
        assert(s[0] == '-');
    } else {
        assert(s[0] == d[0]);
    }
    if d.len() > 1 {
        assert(s[q + 1] == d[1]);
        assert(is_digit(d[1]));
    } else if w.len() < s.len() {
        assert(s[q + 1] == rest[0]);
    }
}

proof fn lemma_not_word(s: Seq<char>, t: Seq<char>, j: int)
    requires
        0 <= j < t.len(),
        j < s.len(),
        s[j] != t[j],
    ensures
        !word_at(s, 0, t),
{
    if word_at(s, 0, t) {
        assert(s.subrange(0, t.len() as int)[j] == t[j]);
    }
}

proof fn lemma_word(w: Seq<char>, rest: Seq<char>)
    requires
        rest.len() == 0 || !is_id_char(rest[0]),
    ensures
        word_at(w + rest, 0, w),
{
    let s = w + rest;
    assert(s.subrange(0, w.len() as int) =~= w);
    if w.len() < s.len() {
        assert(s[w.len() as int] == rest[0]);
    }
}

proof fn lemma_bare_keyword(s: Seq<char>, v: ValueModel, n: int)
    requires
        s.len() >= 2,
        s[0] == '#',
        s[1] != '"',
        s[1] != '#',
        k_keyword(s, 0) == KRes::Read(v, n),
    ensures
        k_bare_value(s, 0) == KRes::Read(v, n),
{
    assert(hash_run(s, 1) == 0);
    assert(hash_run(s, 0) == 1);
}

#[verifier::rlimit(80)]
proof fn lemma_keyword_reads(v: ValueModel, rest: Seq<char>)
    requires
        rest.len() == 0 || !is_id_char(rest[0]),
        v is Bool || v is Null || v == ValueModel::Float(KdlFloat::Infinity) || v == ValueModel::Float(
            KdlFloat::NegInfinity,
        ) || v == ValueModel::Float(KdlFloat::NaN),
    ensures
        k_bare_value(value_text(v) + rest, 0) == KRes::Read(v, value_text(v).len() as int),
{
    let w = value_text(v);
    let s = w + rest;
    reveal_strlit("#true");
    reveal_strlit("#false");
    reveal_strlit("#null");
    reveal_strlit("#inf");
    reveal_strlit("#-inf");
    reveal_strlit("#nan");
    lemma_word(w, rest);
    assert(s[0] == w[0]);
    assert(s[1] == w[1]);
    assert(s[2] == w[2]);
    match v {
        ValueModel::Bool(true) => {
            assert(w =~= "#true"@);
            assert(k_keyword(s, 0) == KRes::Read(v, 5));
        },
        ValueModel::Bool(false) => {
            assert(w =~= "#false"@);
            lemma_not_word(s, "#true"@, 1);
            assert(k_keyword(s, 0) == KRes::Read(v, 6));
        },
        ValueModel::Null => {
            assert(w =~= "#null"@);
            lemma_not_word(s, "#true"@, 1);
            lemma_not_word(s, "#false"@, 1);
            assert(k_keyword(s, 0) == KRes::Read(v, 5));
        },
        ValueModel::Float(KdlFloat::Infinity) => {
            assert(w =~= "#inf"@);
            lemma_not_word(s, "#true"@, 1);
            lemma_not_word(s, "#false"@, 1);
            lemma_not_word(s, "#null"@, 1);
            assert(k_keyword(s, 0) == KRes::Read(v, 4));
        },
        ValueModel::Float(KdlFloat::NegInfinity) => {
            assert(w =~= "#-inf"@);
            lemma_not_word(s, "#true"@, 1);
            lemma_not_word(s, "#false"@, 1);
            lemma_not_word(s, "#null"@, 1);
            lemma_not_word(s, "#inf"@, 1);
            assert(k_keyword(s, 0) == KRes::Read(v, 5));
        },
        _ => {
            assert(w =~= "#nan"@);
            lemma_not_word(s, "#true"@, 1);
            lemma_not_word(s, "#false"@, 1);
            lemma_not_word(s, "#null"@, 2);
            lemma_not_word(s, "#inf"@, 1);
            lemma_not_word(s, "#-inf"@, 1);
            assert(k_keyword(s, 0) == KRes::Read(v, 4));
        },
    }
    lemma_bare_keyword(s, v, w.len() as int);
}

/// A keyword value that the formatter writes (`#true`, `#false`, `#null`,
/// `#inf`, `#-inf`, `#nan`) reads back as itself, where what follows it cannot
/// continue a keyword.
pub proof fn law_keyword_reads_back(v: ValueModel, rest: Seq<char>)
    requires
        rest.len() == 0 || !is_id_char(rest[0]),
        v is Bool || v is Null || v == ValueModel::Float(KdlFloat::Infinity) || v == ValueModel::Float(
            KdlFloat::NegInfinity,
        ) || v == ValueModel::Float(KdlFloat::NaN),
    ensures
        k_bare_value(written_value(v) + rest, 0) == KRes::Read(v, written_value(v).len() as int),
{
    assert(written_value(v) == value_text(v));
    lemma_keyword_reads(v, rest);
}

/// A string value that the formatter writes reads back, by the grammar's rule
/// for values, as that string (with the exception of [`law_quoted_reads_back`]).
pub proof fn law_string_value_reads_back(t: Seq<char>, rest: Seq<char>)
    requires
        !(t.len() == 0 && rest.len() > 0 && rest[0] == '"'),
    ensures
        k_bare_value(written_value(ValueModel::String(t)) + rest, 0) == KRes::Read(
            ValueModel::String(t),
            quoted(t).len() as int,
        ),
{
    law_quoted_reads_back(t, rest);
    let s = quoted(t) + rest;
    assert(s[0] == '"');
}


/// The value of the digits of a text, dots skipped, as the grammar reads numbers.
pub open spec fn digits_val(t: Seq<char>) -> int {
    radix_value(t, 0, t.len() as int, 10)
}

/// The number of digits of a text.
pub open spec fn digits_num(t: Seq<char>) -> int {
    digit_count(t, 0, t.len() as int)
}

proof fn lemma_radix_agree(s: Seq<char>, a: int, s2: Seq<char>, a2: int, n: nat)
    requires
        0 <= a,
        0 <= a2,
        a + n <= s.len(),
        a2 + n <= s2.len(),
        forall|i: int| a <= i < a + n ==> #[trigger] s[i] == s2[i - a + a2],
    ensures
        radix_value(s, a, a + n, 10) == radix_value(s2, a2, a2 + n, 10),
        digit_count(s, a, a + n) == digit_count(s2, a2, a2 + n),
    decreases n,
{
    if n > 0 {
        lemma_radix_agree(s, a, s2, a2, (n - 1) as nat);
        assert(s[a + n - 1] == s2[a2 + n - 1]);
    }
}

proof fn lemma_digits_push(t: Seq<char>, c: char)
    ensures
        digits_val(t.push(c)) == if c == '_' || c == '.' { digits_val(t) } else { digits_val(t) * 10 + hex_val(c) },
        digits_num(t.push(c)) == digits_num(t) + if is_digit(c) { 1int } else { 0int },
{
    let u = t.push(c);
    lemma_radix_agree(u, 0, t, 0, t.len());
    assert(u[t.len() as int] == c);
}

proof fn lemma_digits_concat(t: Seq<char>, u: Seq<char>)
    requires
        forall|i: int| 0 <= i < u.len() ==> is_digit(#[trigger] u[i]) || u[i] == '.',
    ensures
        digits_num(u) >= 0,
        digits_val(t + u) == digits_val(t) * pow10(digits_num(u) as nat) + digits_val(u),
        digits_num(t + u) == digits_num(t) + digits_num(u),
    decreases u.len(),
{
    if u.len() == 0 {
        assert(t + u =~= t);
        assert(digits_val(u) == 0);
        assert(digits_num(u) == 0);
        assert(pow10(0) == 1);
    } else {
        let u0 = u.drop_last();
        let c = u.last();
        assert forall|i: int| 0 <= i < u0.len() implies is_digit(#[trigger] u0[i]) || u0[i] == '.' by {
            assert(u0[i] == u[i]);
        }
        lemma_digits_concat(t, u0);
        assert(u =~= u0.push(c));
        assert(t + u =~= (t + u0).push(c));
        lemma_digits_push(t + u0, c);
        lemma_digits_push(u0, c);
        assert(is_digit(c) || c == '.');
        if c == '.' {
        } else {
            let k = digits_num(u0);
            assert(pow10((k + 1) as nat) == 10 * pow10(k as nat));
            assert(digits_val(t) * pow10((k + 1) as nat) == 10 * (digits_val(t) * pow10(k as nat)))
                by (nonlinear_arith)
                requires
                    pow10((k + 1) as nat) == 10 * pow10(k as nat),
            ;
        }
    }
}

proof fn lemma_digits_of_nat(n: nat)
    ensures
        digits_val(nat_text(n)) == n,
        digits_num(nat_text(n)) == nat_text(n).len(),
        forall|i: int| 0 <= i < nat_text(n).len() ==> is_digit(#[trigger] nat_text(n)[i]),
{
    lemma_nat_text(n);
    let t = nat_text(n);
    assert(t.subrange(0, t.len() as int) =~= t);
    lemma_radix_value_nat(t, 0, n);
    lemma_all_digits_count(t);
}

proof fn lemma_all_digits_count(t: Seq<char>)
    requires
        forall|i: int| 0 <= i < t.len() ==> is_digit(#[trigger] t[i]),
    ensures
        digits_num(t) == t.len(),
    decreases t.len(),
{
    if t.len() > 0 {
        let t0 = t.drop_last();
        assert forall|i: int| 0 <= i < t0.len() implies is_digit(#[trigger] t0[i]) by {
            assert(t0[i] == t[i]);
        }
        lemma_all_digits_count(t0);
        assert(t =~= t0.push(t.last()));
        lemma_digits_push(t0, t.last());
    }
}

proof fn lemma_digits_of_zeros(z: nat)
    ensures
        digits_val(zeros(z)) == 0,
        digits_num(zeros(z)) == z,
        forall|i: int| 0 <= i < zeros(z).len() ==> #[trigger] zeros(z)[i] == '0',
    decreases z,
{
    if z > 0 {
        lemma_digits_of_zeros((z - 1) as nat);
        assert(zeros(z) =~= zeros((z - 1) as nat).push('0'));
        lemma_digits_push(zeros((z - 1) as nat), '0');
    }
}

/// Trailing zeros go into the exponent.
proof fn lemma_normalized_strip(a: nat, j: nat, e: int)
    requires
        a > 0,
        a % 10 != 0,
        e + j <= 0x7fff_ffff,
    ensures
        normalized(a * pow10(j) as nat, e) == (a, e + j),
    decreases j,
{
    if j == 0 {
        assert(pow10(0) == 1);
        assert(a * pow10(0) == a);
    } else {
        let p1 = pow10((j - 1) as nat);
        lemma_pow10_pos((j - 1) as nat);
        assert(pow10(j) == 10 * p1);
        let big = a * pow10(j);
        assert(big == 10 * (a * p1)) by (nonlinear_arith)
            requires
                big == a * pow10(j),
                pow10(j) == 10 * p1,
        ;
        assert(a * p1 >= 1) by (nonlinear_arith)
            requires
                a >= 1,
                p1 >= 1,
        ;
        assert((big as nat) % 10 == 0);
        assert((big as nat) / 10 == a * p1);
        lemma_normalized_strip(a, (j - 1) as nat, e + 1);
    }
}


/// The digits of `t` from `p` on: each a digit, with the text of `t` at `p`.
pub open spec fn text_at(s: Seq<char>, p: int, t: Seq<char>) -> bool {
    0 <= p && p + t.len() <= s.len() && forall|i: int| p <= i < p + t.len() ==> #[trigger] s[i] == t[i - p]
}

proof fn lemma_text_at_value(s: Seq<char>, p: int, t: Seq<char>)
    requires
        text_at(s, p, t),
    ensures
        radix_value(s, p, p + t.len(), 10) == digits_val(t),
        digit_count(s, p, p + t.len()) == digits_num(t),
{
    lemma_radix_agree(s, p, t, 0, t.len());
}

/// A decimal written with an exponent (`<mantissa>E<exponent>`) reads back as itself.
#[verifier::rlimit(80)]
proof fn lemma_exponent_form_reads(m: i128, e: i32, rest: Seq<char>)
    requires
        rest.len() == 0 || !is_id_char(rest[0]),
        m != 0,
        abs_int(m as int) % 10 != 0,
        e >= 0,
    ensures
        ({
            let w = int_text(m as int) + seq!['E'] + int_text(e as int);
            k_bare_value(w + rest, 0) == KRes::Read(
                ValueModel::Float(KdlFloat::Decimal { mantissa: m, exponent: e }),
                w.len() as int,
            )
        }),
{
    let neg = m < 0;
    let n: nat = abs_int(m as int) as nat;
    let d = nat_text(n);
    let de = nat_text(e as nat);
    let q: int = if neg { 1 } else { 0 };
    let w = int_text(m as int) + seq!['E'] + int_text(e as int);
    let s = w + rest;
    lemma_digits_of_nat(n);
    lemma_digits_of_nat(e as nat);
    assert(int_text(m as int) == if neg { seq!['-'] + d } else { d });
    assert(int_text(e as int) == de);
    let ie = q + d.len();
    let end = ie + 1 + de.len();
    assert(w.len() == end);
    assert(s[ie] == 'E');
    assert(text_at(s, q, d)) by {
        assert forall|i: int| q <= i < q + d.len() implies #[trigger] s[i] == d[i - q] by {
            assert(s[i] == w[i]);
        }
    }
    assert(text_at(s, ie + 1, de)) by {
        assert forall|i: int| ie + 1 <= i < ie + 1 + de.len() implies #[trigger] s[i] == de[i - (ie + 1)] by {
            assert(s[i] == w[i]);
        }
    }
    assert forall|i: int| q <= i < q + d.len() implies is_digit(#[trigger] s[i]) by {
        assert(s[i] == d[i - q]);
    }
    assert forall|i: int| ie + 1 <= i < ie + 1 + de.len() implies is_digit(#[trigger] s[i]) by {
        assert(s[i] == de[i - (ie + 1)]);
    }
    if end < s.len() {
        assert(s[end] == rest[0]);
    }
    lemma_digits_end(s, q, d.len());
    lemma_digits_end(s, ie + 1, de.len());
    lemma_text_at_value(s, q, d);
    lemma_text_at_value(s, ie + 1, de);
    lemma_normalized_strip(n, 0, e as int);
    assert(n * pow10(0) == n);
    assert(s[q] == d[0]);
    assert(s[ie + 1] == de[0]);
    if neg {
        assert(s[0] == '-');
    }
    if d.len() > 1 {
        assert(s[q + 1] == d[1]);
    }
}


/// Reading a plain decimal: an optional `-`, digits `a`, a `.`, digits `b`.
#[verifier::rlimit(80)]
proof fn lemma_plain_reads(s: Seq<char>, neg: bool, a: Seq<char>, b: Seq<char>)
    requires
        a.len() >= 1,
        b.len() >= 1,
        b.len() <= 0x7fff_ffff,
        forall|i: int| 0 <= i < a.len() ==> is_digit(#[trigger] a[i]),
        forall|i: int| 0 <= i < b.len() ==> is_digit(#[trigger] b[i]),
        neg ==> s.len() > 0 && s[0] == '-',
        text_at(s, if neg { 1int } else { 0int }, a + seq!['.'] + b),
        ({
            let end = (if neg { 1int } else { 0int }) + a.len() + 1 + b.len();
            end == s.len() || !is_id_char(s[end])
        }),
        i128::MIN <= (if neg { -digits_val(a + b) } else { digits_val(a + b) }) <= i128::MAX,
    ensures
        ({
            let q: int = if neg { 1 } else { 0 };
            let (m, x) = normalized(digits_val(a + b) as nat, -(b.len() as int));
            k_bare_value(s, 0) == KRes::Read(
                ValueModel::Float(
                    KdlFloat::Decimal { mantissa: (if neg { -m } else { m as int }) as i128, exponent: x as i32 },
                ),
                q + a.len() + 1 + b.len(),
            )
        }),
{
    let q: int = if neg { 1 } else { 0 };
    let t = a + seq!['.'] + b;
    let ie = q + a.len();
    let fe = ie + 1 + b.len();
    assert(t.len() == a.len() + 1 + b.len());
    assert forall|i: int| q <= i < ie implies is_digit(#[trigger] s[i]) by {
        assert(s[i] == t[i - q]);
        assert(t[i - q] == a[i - q]);
    }
    assert(s[ie] == t[a.len() as int]);
    assert(s[ie] == '.');
    assert forall|i: int| ie + 1 <= i < fe implies is_digit(#[trigger] s[i]) by {
        assert(s[i] == t[i - q]);
        assert(t[i - q] == b[i - ie - 1]);
    }
    lemma_digits_end(s, q, a.len());
    lemma_digits_end(s, ie + 1, b.len());
    assert(text_at(s, ie + 1, b)) by {
        assert forall|i: int| ie + 1 <= i < ie + 1 + b.len() implies #[trigger] s[i] == b[i - (ie + 1)] by {
            assert(s[i] == t[i - q]);
        }
    }
    lemma_text_at_value(s, q, t);
    lemma_text_at_value(s, ie + 1, b);
    lemma_all_digits_count(b);
    assert forall|i: int| 0 <= i < (seq!['.'] + b).len() implies is_digit(#[trigger] (seq!['.'] + b)[i]) || (seq!['.']
        + b)[i] == '.' by {
        if i > 0 {
            assert((seq!['.'] + b)[i] == b[i - 1]);
        }
    }
    assert(t =~= a + (seq!['.'] + b));
    lemma_digits_concat(a, seq!['.'] + b);
    lemma_digits_concat(seq!['.'], b);
    lemma_digits_concat(a, b);
    assert(seq!['.'] =~= Seq::<char>::empty().push('.'));
    lemma_digits_push(Seq::<char>::empty(), '.');
    assert(digits_val(Seq::<char>::empty()) == 0);
    assert(digits_num(Seq::<char>::empty()) == 0);
    assert(digits_val(seq!['.']) == 0);
    assert(digits_num(seq!['.']) == 0);
    assert(digits_val(t) == digits_val(a + b));
    assert(digit_count(s, ie + 1, fe) == b.len());
    assert(s[q] == a[0]) by {
        assert(s[q] == t[0]);
    }
    if a.len() > 1 {
        assert(s[q + 1] == a[1]) by {
            assert(s[q + 1] == t[1]);
        }
    }
    assert(s[ie + 1] == b[0]) by {
        assert(s[ie + 1] == t[a.len() + 1int]);
    }
    if fe < s.len() {
        assert(!is_id_char(s[fe]));
    }
}


proof fn lemma_sign_text(s: Seq<char>, w: Seq<char>, rest: Seq<char>, neg: bool, body: Seq<char>)
    requires
        s == w + rest,
        w == (if neg { seq!['-'] } else { Seq::<char>::empty() }) + body,
    ensures
        text_at(s, if neg { 1int } else { 0int }, body),
        neg ==> s.len() > 0 && s[0] == '-',
        w.len() == (if neg { 1int } else { 0int }) + body.len(),
        w.len() < s.len() ==> s[w.len() as int] == rest[0],
{
    let q: int = if neg { 1 } else { 0 };
    assert forall|i: int| q <= i < q + body.len() implies #[trigger] s[i] == body[i - q] by {
        assert(s[i] == w[i]);
    }
    if neg {
        assert(s[0] == w[0]);
    }
}

proof fn lemma_digit_seq_concat(a: Seq<char>, b: Seq<char>)
    requires
        forall|i: int| 0 <= i < a.len() ==> is_digit(#[trigger] a[i]),
        forall|i: int| 0 <= i < b.len() ==> is_digit(#[trigger] b[i]),
    ensures
        forall|i: int| 0 <= i < (a + b).len() ==> is_digit(#[trigger] (a + b)[i]),
{
    assert forall|i: int| 0 <= i < (a + b).len() implies is_digit(#[trigger] (a + b)[i]) by {
        if i < a.len() {
            assert((a + b)[i] == a[i]);
        } else {
            assert((a + b)[i] == b[i - a.len()]);
        }
    }
}

/// A decimal with a non-negative exponent, written out in full, reads back as itself.
#[verifier::rlimit(80)]
proof fn lemma_whole_decimal_reads(m: i128, e: i32, rest: Seq<char>)
    requires
        rest.len() == 0 || !is_id_char(rest[0]),
        (m == 0 && e == 0) || (m != 0 && abs_int(m as int) % 10 != 0),
        e >= 0,
        fits_plain(m as int, e as int),
    ensures
        ({
            let w = decimal_text(m as int, e as int, true);
            k_bare_value(w + rest, 0) == KRes::Read(
                ValueModel::Float(KdlFloat::Decimal { mantissa: m, exponent: e }),
                w.len() as int,
            )
        }),
{
    let neg = m < 0;
    let n: nat = abs_int(m as int) as nat;
    let d = nat_text(n);
    let z = zeros(e as nat);
    let a = d + z;
    let b = seq!['0'];
    let w = decimal_text(m as int, e as int, true);
    let s = w + rest;
    lemma_digits_of_nat(n);
    lemma_digits_of_zeros(e as nat);
    assert forall|i: int| 0 <= i < z.len() implies is_digit(#[trigger] z[i]) by {
        assert(z[i] == '0');
    }
    lemma_digit_seq_concat(d, z);
    assert forall|i: int| 0 <= i < b.len() implies is_digit(#[trigger] b[i]) by {}
    let body = a + seq!['.'] + b;
    assert(w =~= (if neg { seq!['-'] } else { Seq::<char>::empty() }) + body);
    lemma_sign_text(s, w, rest, neg, body);
    lemma_digits_concat(d, z);
    assert forall|i: int| 0 <= i < b.len() implies is_digit(#[trigger] b[i]) || b[i] == '.' by {}
    lemma_digits_concat(a, b);
    assert(b =~= Seq::<char>::empty().push('0'));
    lemma_digits_push(Seq::<char>::empty(), '0');
    assert(digits_val(Seq::<char>::empty()) == 0);
    assert(digits_num(Seq::<char>::empty()) == 0);
    assert(digits_val(b) == 0);
    assert(digits_num(b) == 1);
    assert(pow10(0) == 1);
    assert(pow10(1) == 10 * pow10(0));
    let pe = pow10(e as nat);
    lemma_pow10_pos(e as nat);
    assert(pow10((e + 1) as nat) == 10 * pe);
    assert(digits_val(a) == n * pe);
    assert(digits_val(a + b) == n * pe * 10);
    assert(n * pe * 10 == n * pow10((e + 1) as nat)) by (nonlinear_arith)
        requires
            pow10((e + 1) as nat) == 10 * pe,
    ;
    assert(abs_int(m as int) * pow10((e + 1) as nat) <= i128::MAX);
    assert(n * pe * 10 >= 0) by (nonlinear_arith)
        requires
            pe >= 1,
    ;
    lemma_plain_reads(s, neg, a, b);
    if n == 0 {
        assert(digits_val(a + b) == 0);
    } else {
        lemma_normalized_strip(n, (e + 1) as nat, -1);
    }
}

/// A decimal with a negative exponent, written with a point inside its digits, reads back as itself.
#[verifier::rlimit(80)]
proof fn lemma_split_fraction_reads(m: i128, e: i32, rest: Seq<char>)
    requires
        rest.len() == 0 || !is_id_char(rest[0]),
        m != 0,
        abs_int(m as int) % 10 != 0,
        e < 0,
        e > i32::MIN,
        nat_text(abs_int(m as int) as nat).len() > -(e as int),
    ensures
        ({
            let w = decimal_text(m as int, e as int, true);
            k_bare_value(w + rest, 0) == KRes::Read(
                ValueModel::Float(KdlFloat::Decimal { mantissa: m, exponent: e }),
                w.len() as int,
            )
        }),
{
    let neg = m < 0;
    let n: nat = abs_int(m as int) as nat;
    let d = nat_text(n);
    let k: int = -(e as int);
    let w = decimal_text(m as int, e as int, true);
    let s = w + rest;
    lemma_digits_of_nat(n);
    let a = d.take(d.len() - k);
    let b = d.skip(d.len() - k);
    assert forall|i: int| 0 <= i < a.len() implies is_digit(#[trigger] a[i]) by {
        assert(a[i] == d[i]);
    }
    assert forall|i: int| 0 <= i < b.len() implies is_digit(#[trigger] b[i]) by {
        assert(b[i] == d[i + d.len() - k]);
    }
    let body = a + seq!['.'] + b;
    assert(w =~= (if neg { seq!['-'] } else { Seq::<char>::empty() }) + body);
    lemma_sign_text(s, w, rest, neg, body);
    assert(a + b =~= d);
    lemma_plain_reads(s, neg, a, b);
    lemma_normalized_strip(n, 0, e as int);
    assert(n * pow10(0) == n);
}

/// A decimal with a negative exponent below its digits, written as `0.` and
/// zeros before them, reads back as itself.
#[verifier::rlimit(80)]
proof fn lemma_small_fraction_reads(m: i128, e: i32, rest: Seq<char>)
    requires
        rest.len() == 0 || !is_id_char(rest[0]),
        m != 0,
        abs_int(m as int) % 10 != 0,
        e < 0,
        e > i32::MIN,
        nat_text(abs_int(m as int) as nat).len() <= -(e as int),
    ensures
        ({
            let w = decimal_text(m as int, e as int, true);
            k_bare_value(w + rest, 0) == KRes::Read(
                ValueModel::Float(KdlFloat::Decimal { mantissa: m, exponent: e }),
                w.len() as int,
            )
        }),
{
    let neg = m < 0;
    let n: nat = abs_int(m as int) as nat;
    let d = nat_text(n);
    let k: int = -(e as int);
    let w = decimal_text(m as int, e as int, true);
    let s = w + rest;
    lemma_digits_of_nat(n);
    let z = zeros((k - d.len()) as nat);
    let a = seq!['0'];
    let b = z + d;
    lemma_digits_of_zeros((k - d.len()) as nat);
    assert forall|i: int| 0 <= i < z.len() implies is_digit(#[trigger] z[i]) by {
        assert(z[i] == '0');
    }
    lemma_digit_seq_concat(z, d);
    assert forall|i: int| 0 <= i < a.len() implies is_digit(#[trigger] a[i]) by {}
    let body = a + seq!['.'] + b;
    assert(w =~= (if neg { seq!['-'] } else { Seq::<char>::empty() }) + body);
    lemma_sign_text(s, w, rest, neg, body);
    lemma_digit_values(a, z, d, n);
    assert(b.len() == k);
    lemma_plain_reads(s, neg, a, b);
    lemma_normalized_strip(n, 0, e as int);
    assert(n * pow10(0) == n);
}

proof fn lemma_digit_values(a: Seq<char>, z: Seq<char>, d: Seq<char>, n: nat)
    requires
        a == seq!['0'],
        forall|i: int| 0 <= i < z.len() ==> #[trigger] z[i] == '0',
        digits_val(z) == 0,
        digits_val(d) == n,
        forall|i: int| 0 <= i < d.len() ==> is_digit(#[trigger] d[i]),
    ensures
        digits_val(a + (z + d)) == n,
{
    assert forall|i: int| 0 <= i < d.len() implies is_digit(#[trigger] d[i]) || d[i] == '.' by {}
    assert forall|i: int| 0 <= i < z.len() implies is_digit(#[trigger] z[i]) || z[i] == '.' by {
        assert(z[i] == '0');
    }
    lemma_digits_concat(a, z);
    assert(a + (z + d) =~= (a + z) + d);
    lemma_digits_concat(a + z, d);
    assert(a =~= Seq::<char>::empty().push('0'));
    lemma_digits_push(Seq::<char>::empty(), '0');
    assert(digits_val(Seq::<char>::empty()) == 0);
    assert(digits_val(a) == 0);
    let pz = pow10(digits_num(z) as nat);
    assert(digits_val(a) * pz == 0) by (nonlinear_arith)
        requires
            digits_val(a) == 0,
    ;
    assert(digits_val(a + z) == 0);
    let pd = pow10(digits_num(d) as nat);
    assert(digits_val(a + z) * pd == 0) by (nonlinear_arith)
        requires
            digits_val(a + z) == 0,
    ;
}

/// A decimal as the parser gives it (its mantissa without trailing zeros, or
/// zero with exponent zero) reads back as itself from the text that the
/// formatter writes for it, where what follows cannot continue a number.
pub proof fn law_decimal_reads_back(m: i128, e: i32, rest: Seq<char>)
    requires
        rest.len() == 0 || !is_id_char(rest[0]),
        (m == 0 && e == 0) || (m != 0 && abs_int(m as int) % 10 != 0),
        e > i32::MIN,
    ensures
        ({
            let v = ValueModel::Float(KdlFloat::Decimal { mantissa: m, exponent: e });
            k_bare_value(written_value(v) + rest, 0) == KRes::Read(v, written_value(v).len() as int)
        }),
{
    let v = ValueModel::Float(KdlFloat::Decimal { mantissa: m, exponent: e });
    if m == 0 {
        assert(pow10(0) == 1);
        assert(pow10(1) == 10 * pow10(0));
        assert(abs_int(m as int) * pow10(1) == 0);
        assert(fits_plain(m as int, e as int));
    }
    if fits_plain(m as int, e as int) {
        assert(written_value(v) == decimal_text(m as int, e as int, true));
        if e >= 0 {
            lemma_whole_decimal_reads(m, e, rest);
        } else if nat_text(abs_int(m as int) as nat).len() > -(e as int) {
            lemma_split_fraction_reads(m, e, rest);
        } else {
            lemma_small_fraction_reads(m, e, rest);
        }
    } else {
        assert(written_value(v) == int_text(m as int) + seq!['E'] + int_text(e as int));
        lemma_exponent_form_reads(m, e, rest);
    }
}

/// Every value that the formatter writes reads back, by the grammar's rule for
/// values, as itself: strings (but an empty one right before a quote), integers,
/// keywords, and decimals as the parser gives them; where what follows the
/// value cannot continue it.
pub proof fn law_value_reads_back(v: ValueModel, rest: Seq<char>)
    requires
        rest.len() == 0 || !is_id_char(rest[0]),
        v matches ValueModel::String(t) ==> !(t.len() == 0 && rest.len() > 0 && rest[0] == '"'),
        v matches ValueModel::Float(KdlFloat::Decimal { mantissa, exponent }) ==> ((mantissa == 0 && exponent == 0)
            || (mantissa != 0 && abs_int(mantissa as int) % 10 != 0)) && exponent > i32::MIN,
    ensures
        k_bare_value(written_value(v) + rest, 0) == KRes::Read(v, written_value(v).len() as int),
{
    match v {
        ValueModel::String(t) => law_string_value_reads_back(t, rest),
        ValueModel::Integer(i) => law_integer_reads_back(i, rest),
        ValueModel::Float(KdlFloat::Decimal { mantissa, exponent }) => law_decimal_reads_back(mantissa, exponent, rest),
        _ => law_keyword_reads_back(v, rest),
    }
}

} // verus!
