//! Texts of values and numbers, as they appear in documents and in diagnostics.

use vstd::prelude::*;

use crate::number::{KdlFloat, Number};
use crate::text::{chars_of, int_text, nat_text, push_char, push_int, push_nat, push_str};
use crate::value::{KdlValue, ValueModel};

verus! {

pub open spec fn zeros(n: nat) -> Seq<char> {
    Seq::new(n, |i: int| '0')
}

pub open spec fn abs_int(m: int) -> int {
    if m < 0 {
        -m
    } else {
        m
    }
}

/// The decimal text of `m * 10^e`; with `point`, an integral value ends in `.0`.
pub open spec fn decimal_text(m: int, e: int, point: bool) -> Seq<char> {
    let sgn = if m < 0 { seq!['-'] } else { Seq::<char>::empty() };
    let d = nat_text(abs_int(m) as nat);
    sgn + if e >= 0 {
        d + zeros(e as nat) + (if point { seq!['.', '0'] } else { Seq::<char>::empty() })
    } else {
        let k = -e;
        if d.len() > k {
            d.take(d.len() - k) + seq!['.'] + d.skip(d.len() - k)
        } else {
            seq!['0', '.'] + zeros((k - d.len()) as nat) + d
        }
    }
}

/// The text of a number in a diagnostic message.
pub open spec fn number_text(n: Number) -> Seq<char> {
    match n {
        Number::Integer(i) => int_text(i as int),
        Number::Float(KdlFloat::Decimal { mantissa, exponent }) => decimal_text(
            mantissa as int,
            exponent as int,
            false,
        ),
        Number::Float(KdlFloat::Infinity) => seq!['i', 'n', 'f'],
        Number::Float(KdlFloat::NegInfinity) => seq!['-', 'i', 'n', 'f'],
        Number::Float(KdlFloat::NaN) => seq!['N', 'a', 'N'],
    }
}

/// The escaped form of one character inside a quoted KDL string.
pub open spec fn escape_char(c: char) -> Seq<char> {
    if c == '"' {
        seq!['\\', '"']
    } else if c == '\\' {
        seq!['\\', '\\']
    } else if c == '\n' {
        seq!['\\', 'n']
    } else if c == '\r' {
        seq!['\\', 'r']
    } else if c == '\t' {
        seq!['\\', 't']
    } else {
        seq![c]
    }
}

pub open spec fn escape_text(s: Seq<char>) -> Seq<char>
    decreases s.len(),
{
    if s.len() == 0 {
        Seq::empty()
    } else {
        escape_text(s.drop_last()) + escape_char(s.last())
    }
}

/// A quoted KDL string holding `s`.
pub open spec fn quoted_text(s: Seq<char>) -> Seq<char> {
    seq!['"'] + escape_text(s) + seq!['"']
}

/// The KDL text of a value.
pub open spec fn value_text(v: ValueModel) -> Seq<char> {
    match v {
        ValueModel::String(s) => quoted_text(s),
        ValueModel::Integer(i) => int_text(i as int),
        ValueModel::Float(KdlFloat::Decimal { mantissa, exponent }) => decimal_text(
            mantissa as int,
            exponent as int,
            true,
        ),
        ValueModel::Float(KdlFloat::Infinity) => seq!['#', 'i', 'n', 'f'],
        ValueModel::Float(KdlFloat::NegInfinity) => seq!['#', '-', 'i', 'n', 'f'],
        ValueModel::Float(KdlFloat::NaN) => seq!['#', 'n', 'a', 'n'],
        ValueModel::Bool(true) => seq!['#', 't', 'r', 'u', 'e'],
        ValueModel::Bool(false) => seq!['#', 'f', 'a', 'l', 's', 'e'],
        ValueModel::Null => seq!['#', 'n', 'u', 'l', 'l'],
    }
}

fn push_zeros(s: &mut String, n: u64)
    ensures
        final(s)@ == old(s)@ + zeros(n as nat),
{
    let mut k: u64 = 0;
    while k < n
        invariant
            k <= n,
            s@ == old(s)@ + zeros(k as nat),
        decreases n - k,
    {
        push_char(s, '0');
        k += 1;
        assert(old(s)@ + zeros((k - 1) as nat) + seq!['0'] =~= old(s)@ + zeros(k as nat));
    }
}

fn push_seq(s: &mut String, v: &Vec<char>, from: usize, to: usize)
    requires
        from <= to <= v@.len(),
    ensures
        final(s)@ == old(s)@ + v@.subrange(from as int, to as int),
{
    let mut i = from;
    while i < to
        invariant
            from <= i <= to,
            to <= v@.len(),
            s@ == old(s)@ + v@.subrange(from as int, i as int),
        decreases to - i,
    {
        push_char(s, v[i]);
        i += 1;
        assert(old(s)@ + v@.subrange(from as int, (i - 1) as int) + seq![v@[(i - 1) as int]] =~= old(s)@
            + v@.subrange(from as int, i as int));
    }
}

/// Appends the decimal text of `m * 10^e` to `s` (see [`decimal_text`]).
pub fn push_decimal(s: &mut String, m: i128, e: i32, point: bool)
    ensures
        final(s)@ == old(s)@ + decimal_text(m as int, e as int, point),
{
    let mag: u128 = if m >= 0 { m as u128 } else { ((-(m + 1)) as u128) + 1 };
    let mut ds = String::new();
    push_nat(&mut ds, mag);
    let d = chars_of(ds.as_str());
    assert(d@ =~= nat_text(abs_int(m as int) as nat));
    let ghost sgn = if m < 0 { seq!['-'] } else { Seq::<char>::empty() };
    if m < 0 {
        push_char(s, '-');
    }
    assert(s@ == old(s)@ + sgn);
    if e >= 0 {
        push_seq(s, &d, 0, d.len());
        push_zeros(s, e as u64);
        if point {
            push_char(s, '.');
            push_char(s, '0');
        }
        assert(d@.subrange(0, d@.len() as int) =~= d@);
        assert(s@ =~= old(s)@ + decimal_text(m as int, e as int, point));
    } else {
        let k: u64 = (-(e as i64)) as u64;
        if (d.len() as u64) > k {
            let cut = d.len() - (k as usize);
            push_seq(s, &d, 0, cut);
            push_char(s, '.');
            push_seq(s, &d, cut, d.len());
            assert(d@.subrange(0, cut as int) =~= d@.take(cut as int));
            assert(d@.subrange(cut as int, d@.len() as int) =~= d@.skip(cut as int));
            assert(s@ =~= old(s)@ + decimal_text(m as int, e as int, point));
        } else {
            push_char(s, '0');
            push_char(s, '.');
            push_zeros(s, k - (d.len() as u64));
            push_seq(s, &d, 0, d.len());
            assert(d@.subrange(0, d@.len() as int) =~= d@);
            assert(s@ =~= old(s)@ + decimal_text(m as int, e as int, point));
        }
    }
}

/// Appends the message text of a number to `s` (see [`number_text`]).
pub fn push_number(s: &mut String, n: &Number)
    ensures
        final(s)@ == old(s)@ + number_text(*n),
{
    match n {
        Number::Integer(i) => push_int(s, *i),
        Number::Float(KdlFloat::Decimal { mantissa, exponent }) => push_decimal(
            s,
            *mantissa,
            *exponent,
            false,
        ),
        Number::Float(KdlFloat::Infinity) => {
            push_char(s, 'i');
            push_char(s, 'n');
            push_char(s, 'f');
            assert(s@ =~= old(s)@ + number_text(*n));
        },
        Number::Float(KdlFloat::NegInfinity) => {
            push_char(s, '-');
            push_char(s, 'i');
            push_char(s, 'n');
            push_char(s, 'f');
            assert(s@ =~= old(s)@ + number_text(*n));
        },
        Number::Float(KdlFloat::NaN) => {
            push_char(s, 'N');
            push_char(s, 'a');
            push_char(s, 'N');
            assert(s@ =~= old(s)@ + number_text(*n));
        },
    }
}

fn push_escaped_char(s: &mut String, c: char)
    ensures
        final(s)@ == old(s)@ + escape_char(c),
{
    if c == '"' {
        push_char(s, '\\');
        push_char(s, '"');
    } else if c == '\\' {
        push_char(s, '\\');
        push_char(s, '\\');
    } else if c == '\n' {
        push_char(s, '\\');
        push_char(s, 'n');
    } else if c == '\r' {
        push_char(s, '\\');
        push_char(s, 'r');
    } else if c == '\t' {
        push_char(s, '\\');
        push_char(s, 't');
    } else {
        push_char(s, c);
    }
    assert(s@ =~= old(s)@ + escape_char(c));
}

/// Appends `t` as a quoted KDL string to `s` (see [`quoted_text`]).
pub fn push_quoted(s: &mut String, t: &str)
    ensures
        final(s)@ == old(s)@ + quoted_text(t@),
{
    let cs = chars_of(t);
    push_char(s, '"');
    let mut i: usize = 0;
    while i < cs.len()
        invariant
            i <= cs@.len(),
            cs@ == t@,
            s@ == old(s)@ + seq!['"'] + escape_text(cs@.take(i as int)),
        decreases cs.len() - i,
    {
        push_escaped_char(s, cs[i]);
        assert(cs@.take(i + 1).drop_last() =~= cs@.take(i as int));
        i += 1;
        assert(s@ =~= old(s)@ + seq!['"'] + escape_text(cs@.take(i as int)));
    }
    push_char(s, '"');
    assert(cs@.take(i as int) =~= cs@);
    assert(s@ =~= old(s)@ + quoted_text(t@));
}

fn push_chars(s: &mut String, Ghost(t): Ghost<Seq<char>>, lit: &str)
    requires
        lit@ == t,
    ensures
        final(s)@ == old(s)@ + t,
{
    push_str(s, lit);
}

/// Appends the KDL text of a value to `s` (see [`value_text`]).
pub fn push_value(s: &mut String, v: &KdlValue)
    ensures
        final(s)@ == old(s)@ + value_text(v@),
{
    match v {
        KdlValue::String(t) => push_quoted(s, t.as_str()),
        KdlValue::Integer(i) => push_int(s, *i),
        KdlValue::Float(KdlFloat::Decimal { mantissa, exponent }) => push_decimal(
            s,
            *mantissa,
            *exponent,
            true,
        ),
        _ => {
            let ghost t = value_text(v@);
            let lit = match v {
                KdlValue::Float(KdlFloat::Infinity) => "#inf",
                KdlValue::Float(KdlFloat::NegInfinity) => "#-inf",
                KdlValue::Float(_) => "#nan",
                KdlValue::Bool(true) => "#true",
                KdlValue::Bool(false) => "#false",
                _ => "#null",
            };
            proof {
                reveal_strlit("#inf");
                reveal_strlit("#-inf");
                reveal_strlit("#nan");
                reveal_strlit("#true");
                reveal_strlit("#false");
                reveal_strlit("#null");
                assert(lit@ == t);
            }
            push_chars(s, Ghost(t), lit);
        },
    }
}

/// The KDL text of a value (see [`value_text`]).
pub fn value_to_string(v: &KdlValue) -> (r: String)
    ensures
        r@ == value_text(v@),
{
    let mut s = String::new();
    push_value(&mut s, v);
    assert(Seq::<char>::empty() + value_text(v@) =~= value_text(v@));
    s
}

} // verus!
