//! The string formats that a `format` constraint can ask for.

use vstd::prelude::*;

use crate::chars::{alnum_c, digit_c, hexdigit_c, is_alnum, is_digit, is_hexdigit, is_upper, upper_c};

verus! {

/// Whether jiff reads `s` as a timestamp (an instant with an offset).
pub uninterp spec fn jiff_timestamp_parses(s: Seq<char>) -> bool;

/// Whether jiff reads `s` as a civil date and time.
pub uninterp spec fn jiff_datetime_parses(s: Seq<char>) -> bool;

/// Whether jiff reads `s` as a civil date.
pub uninterp spec fn jiff_date_parses(s: Seq<char>) -> bool;

/// Whether jiff reads `s` as a civil time.
pub uninterp spec fn jiff_time_parses(s: Seq<char>) -> bool;

/// Whether jiff reads `s` as a span (a duration).
pub uninterp spec fn jiff_span_parses(s: Seq<char>) -> bool;

/// Trusted: `<jiff::Timestamp as FromStr>::from_str`. Its result is a function of
/// the text alone, named [`jiff_timestamp_parses`]; the rules of the format are jiff's.
#[verifier::external_body]
pub(crate) fn timestamp_parses(s: &str) -> (r: bool)
    ensures
        r == jiff_timestamp_parses(s@),
{
    s.parse::<jiff::Timestamp>().is_ok()
}

/// Trusted: `<jiff::civil::DateTime as FromStr>::from_str`, named [`jiff_datetime_parses`].
#[verifier::external_body]
pub(crate) fn datetime_parses(s: &str) -> (r: bool)
    ensures
        r == jiff_datetime_parses(s@),
{
    s.parse::<jiff::civil::DateTime>().is_ok()
}

/// Trusted: `<jiff::civil::Date as FromStr>::from_str`, named [`jiff_date_parses`].
#[verifier::external_body]
pub(crate) fn date_parses(s: &str) -> (r: bool)
    ensures
        r == jiff_date_parses(s@),
{
    s.parse::<jiff::civil::Date>().is_ok()
}

/// Trusted: `<jiff::civil::Time as FromStr>::from_str`, named [`jiff_time_parses`].
#[verifier::external_body]
pub(crate) fn time_parses(s: &str) -> (r: bool)
    ensures
        r == jiff_time_parses(s@),
{
    s.parse::<jiff::civil::Time>().is_ok()
}

/// Trusted: `<jiff::Span as FromStr>::from_str`, named [`jiff_span_parses`].
#[verifier::external_body]
pub(crate) fn span_parses(s: &str) -> (r: bool)
    ensures
        r == jiff_span_parses(s@),
{
    s.parse::<jiff::Span>().is_ok()
}

/// Whether `t` occurs in `s` as a contiguous piece.
pub open spec fn contains_sub(s: Seq<char>, t: Seq<char>) -> bool {
    exists|i: int| 0 <= i && i + t.len() <= s.len() && #[trigger] s.subrange(i, i + t.len()) == t
}

pub open spec fn starts_with(s: Seq<char>, t: Seq<char>) -> bool {
    t.len() <= s.len() && s.take(t.len() as int) == t
}

/// The pieces of `s` between occurrences of `c`, as `str::split` gives them.
pub open spec fn split_on(s: Seq<char>, c: char) -> Seq<Seq<char>>
    decreases s.len(),
{
    if s.len() == 0 {
        seq![Seq::<char>::empty()]
    } else {
        let parts = split_on(s.drop_last(), c);
        if s.last() == c {
            parts.push(Seq::<char>::empty())
        } else {
            parts.update(parts.len() - 1, parts.last().push(s.last()))
        }
    }
}

pub proof fn lemma_split_nonempty(s: Seq<char>, c: char)
    ensures
        split_on(s, c).len() >= 1,
    decreases s.len(),
{
    if s.len() > 0 {
        lemma_split_nonempty(s.drop_last(), c);
    }
}

/// A label of a host name: one to 63 letters, digits or hyphens, not starting or ending with a hyphen.
pub open spec fn label_ok(l: Seq<char>) -> bool {
    &&& l.len() > 0
    &&& l.len() <= 63
    &&& forall|i: int| 0 <= i < l.len() ==> is_alnum(#[trigger] l[i]) || l[i] == '-'
    &&& l[0] != '-'
    &&& l.last() != '-'
}

/// A host name: at most 253 characters, made of labels separated by dots.
pub open spec fn hostname_ok(s: Seq<char>) -> bool {
    &&& s.len() > 0
    &&& s.len() <= 253
    &&& forall|i: int| 0 <= i < split_on(s, '.').len() ==> label_ok(#[trigger] split_on(s, '.')[i])
}

/// A UUID: 36 characters, hyphens at 8, 13, 18 and 23, hexadecimal digits elsewhere.
pub open spec fn uuid_ok(s: Seq<char>) -> bool {
    s.len() == 36 && forall|i: int|
        0 <= i < 36 ==> if i == 8 || i == 13 || i == 18 || i == 23 {
            #[trigger] s[i] == '-'
        } else {
            is_hexdigit(s[i])
        }
}

/// The value of a string of decimal digits.
pub open spec fn digits_value(s: Seq<char>) -> nat
    decreases s.len(),
{
    if s.len() == 0 {
        0
    } else {
        digits_value(s.drop_last()) * 10 + (s.last() as nat - '0' as nat) as nat
    }
}

/// Whether `p` reads as a `u8`: an optional `+`, then decimal digits worth at most 255.
/// The digits of a `u8` text: the text without a leading `+`.
pub open spec fn u8_digits(p: Seq<char>) -> Seq<char> {
    if p.len() > 0 && p[0] == '+' {
        p.skip(1)
    } else {
        p
    }
}

pub open spec fn u8_text_ok(p: Seq<char>) -> bool {
    let d = u8_digits(p);
    &&& d.len() > 0
    &&& forall|i: int| 0 <= i < d.len() ==> is_digit(#[trigger] d[i])
    &&& digits_value(d) <= 255
}

/// A dotted quad: four pieces, each read as a `u8`.
pub open spec fn ipv4_ok(s: Seq<char>) -> bool {
    let parts = split_on(s, '.');
    parts.len() == 4 && forall|i: int| 0 <= i < 4 ==> u8_text_ok(#[trigger] parts[i])
}

pub open spec fn ipv6_ok(s: Seq<char>) -> bool {
    s.contains(':') && forall|i: int| 0 <= i < s.len() ==> is_hexdigit(#[trigger] s[i]) || s[i] == ':'
}

pub open spec fn url_ok(s: Seq<char>) -> bool {
    contains_sub(s, seq![':', '/', '/']) || starts_with(s, seq!['/']) || starts_with(
        s,
        seq!['.', '/'],
    ) || starts_with(s, seq!['.', '.', '/'])
}

pub open spec fn all_upper(s: Seq<char>) -> bool {
    forall|i: int| 0 <= i < s.len() ==> is_upper(#[trigger] s[i])
}

pub open spec fn base64_ok(s: Seq<char>) -> bool {
    forall|i: int| 0 <= i < s.len() ==> is_alnum(#[trigger] s[i]) || s[i] == '+' || s[i] == '/' || s[i] == '='
}

fn contains_char(v: &Vec<char>, c: char) -> (r: bool)
    ensures
        r == v@.contains(c),
{
    let mut i: usize = 0;
    while i < v.len()
        invariant
            i <= v@.len(),
            forall|j: int| 0 <= j < i ==> v@[j] != c,
        decreases v.len() - i,
    {
        if v[i] == c {
            return true;
        }
        i += 1;
    }
    false
}

pub fn starts_with_c(v: &Vec<char>, t: &Vec<char>) -> (r: bool)
    ensures
        r == starts_with(v@, t@),
{
    if t.len() > v.len() {
        return false;
    }
    let mut i: usize = 0;
    while i < t.len()
        invariant
            t@.len() <= v@.len(),
            i <= t@.len(),
            forall|j: int| 0 <= j < i ==> v@[j] == t@[j],
        decreases t.len() - i,
    {
        if v[i] != t[i] {
            assert(v@.take(t@.len() as int)[i as int] != t@[i as int]);
            return false;
        }
        i += 1;
    }
    assert(v@.take(t@.len() as int) =~= t@);
    true
}

pub fn contains_sub_c(v: &Vec<char>, t: &Vec<char>) -> (r: bool)
    ensures
        r == contains_sub(v@, t@),
{
    if t.len() > v.len() {
        return false;
    }
    let mut i: usize = 0;
    while i <= v.len() - t.len()
        invariant
            t@.len() <= v@.len(),
            i <= v@.len() - t@.len() + 1,
            i <= v@.len(),
            forall|j: int| 0 <= j < i ==> #[trigger] v@.subrange(j, j + t@.len()) != t@,
        decreases v.len() - i,
    {
        let mut k: usize = 0;
        let mut same = true;
        let end: usize = i + t.len();
        while k < t.len()
            invariant
                end == i + t@.len(),
                end <= v@.len(),
                k <= t@.len(),
                same == (forall|j: int| 0 <= j < k ==> v@[i + j] == t@[j]),
            decreases t.len() - k,
        {
            let pos: usize = end - t.len() + k;
            if v[pos] != t[k] {
                same = false;
            }
            k += 1;
        }
        if same {
            assert(v@.subrange(i as int, i + t@.len()) =~= t@);
            return true;
        }
        assert(v@.subrange(i as int, i + t@.len()) != t@) by {
            let j = choose|j: int| 0 <= j < t@.len() && v@[i + j] != t@[j];
            assert(v@.subrange(i as int, i + t@.len())[j] != t@[j]);
        }
        i += 1;
    }
    assert forall|j: int| 0 <= j && j + t@.len() <= v@.len() implies #[trigger] v@.subrange(
        j,
        j + t@.len(),
    ) != t@ by {}
    false
}

/// The pieces of `v` between occurrences of `c` (see [`split_on`]).
pub fn split_chars(v: &Vec<char>, c: char) -> (r: Vec<Vec<char>>)
    ensures
        r@.len() == split_on(v@, c).len(),
        forall|i: int| 0 <= i < r@.len() ==> (#[trigger] r@[i])@ == split_on(v@, c)[i],
{
    let mut parts: Vec<Vec<char>> = Vec::new();
    parts.push(Vec::new());
    let mut i: usize = 0;
    assert(v@.take(0) =~= Seq::<char>::empty());
    while i < v.len()
        invariant
            i <= v@.len(),
            parts@.len() == split_on(v@.take(i as int), c).len(),
            parts@.len() >= 1,
            forall|j: int| 0 <= j < parts@.len() ==> (#[trigger] parts@[j])@ == split_on(
                v@.take(i as int),
                c,
            )[j],
        decreases v.len() - i,
    {
        let ghost prev = parts@;
        assert(v@.take(i + 1).drop_last() =~= v@.take(i as int));
        if v[i] == c {
            parts.push(Vec::new());
        } else {
            let last = parts.len() - 1;
            let mut piece = parts.pop().unwrap();
            piece.push(v[i]);
            parts.push(piece);
            assert forall|j: int| 0 <= j < parts@.len() implies (#[trigger] parts@[j])@ == split_on(
                v@.take(i + 1),
                c,
            )[j] by {
                if j < last {
                    assert(parts@[j] == prev[j]);
                }
            }
        }
        i += 1;
    }
    assert(v@.take(i as int) =~= v@);
    parts
}

fn label_ok_c(l: &Vec<char>) -> (r: bool)
    ensures
        r == label_ok(l@),
{
    if l.len() == 0 || l.len() > 63 {
        return false;
    }
    let mut i: usize = 0;
    while i < l.len()
        invariant
            i <= l@.len(),
            forall|j: int| 0 <= j < i ==> is_alnum(#[trigger] l@[j]) || l@[j] == '-',
        decreases l.len() - i,
    {
        if !(alnum_c(l[i]) || l[i] == '-') {
            return false;
        }
        i += 1;
    }
    l[0] != '-' && l[l.len() - 1] != '-'
}

/// Whether `v` is a host name (see [`hostname_ok`]).
pub fn hostname_c(v: &Vec<char>) -> (r: bool)
    ensures
        r == hostname_ok(v@),
{
    if v.len() == 0 || v.len() > 253 {
        return false;
    }
    let parts = split_chars(v, '.');
    let mut i: usize = 0;
    while i < parts.len()
        invariant
            i <= parts@.len(),
            parts@.len() == split_on(v@, '.').len(),
            forall|j: int| 0 <= j < parts@.len() ==> (#[trigger] parts@[j])@ == split_on(v@, '.')[j],
            forall|j: int| 0 <= j < i ==> label_ok(#[trigger] split_on(v@, '.')[j]),
        decreases parts.len() - i,
    {
        if !label_ok_c(&parts[i]) {
            return false;
        }
        i += 1;
    }
    true
}

/// Whether `v` is a UUID (see [`uuid_ok`]).
pub fn uuid_c(v: &Vec<char>) -> (r: bool)
    ensures
        r == uuid_ok(v@),
{
    if v.len() != 36 {
        return false;
    }
    let mut i: usize = 0;
    while i < 36
        invariant
            v@.len() == 36,
            i <= 36,
            forall|j: int|
                0 <= j < i ==> if j == 8 || j == 13 || j == 18 || j == 23 {
                    #[trigger] v@[j] == '-'
                } else {
                    is_hexdigit(v@[j])
                },
        decreases 36 - i,
    {
        let ok = if i == 8 || i == 13 || i == 18 || i == 23 {
            v[i] == '-'
        } else {
            hexdigit_c(v[i])
        };
        if !ok {
            return false;
        }
        i += 1;
    }
    true
}

pub proof fn lemma_digits_value_prefix(s: Seq<char>, k: int)
    requires
        0 <= k <= s.len(),
        forall|i: int| 0 <= i < s.len() ==> is_digit(#[trigger] s[i]),
    ensures
        digits_value(s.take(k)) <= digits_value(s),
    decreases s.len() - k,
{
    if k < s.len() {
        lemma_digits_value_prefix(s, k + 1);
        assert(s.take(k + 1).drop_last() =~= s.take(k));
    } else {
        assert(s.take(k) =~= s);
    }
}

fn u8_text_c(p: &Vec<char>) -> (r: bool)
    ensures
        r == u8_text_ok(p@),
{
    let start: usize = if p.len() > 0 && p[0] == '+' { 1 } else { 0 };
    let ghost d = u8_digits(p@);
    assert(d =~= p@.skip(start as int));
    if start >= p.len() {
        return false;
    }
    let mut i: usize = start;
    let mut val: u32 = 0;
    assert(d.take(0) =~= Seq::<char>::empty());
    while i < p.len()
        invariant
            start <= i <= p@.len(),
            d == u8_digits(p@),
            d =~= p@.skip(start as int),
            forall|j: int| 0 <= j < i - start ==> is_digit(#[trigger] d[j]),
            val as nat == digits_value(d.take(i - start)),
            val <= 255,
        decreases p.len() - i,
    {
        if !digit_c(p[i]) {
            assert(d[i - start] == p@[i as int]);
            assert(!is_digit(d[i - start]));
            assert(!u8_text_ok(p@));
            return false;
        }
        assert(d.take(i - start + 1).drop_last() =~= d.take(i - start));
        let next = val * 10 + (p[i] as u32 - '0' as u32);
        if next > 255 {
            proof {
                assert(d.take(i - start + 1).last() == p@[i as int]);
                assert(digits_value(d.take(i - start + 1)) == next);
                assert(forall|j: int| 0 <= j < i - start + 1 ==> is_digit(#[trigger] d[j]));
                if forall|j: int| 0 <= j < d.len() ==> is_digit(#[trigger] d[j]) {
                    lemma_digits_value_prefix(d, i - start + 1);
                }
            }
            return false;
        }
        val = next;
        i += 1;
    }
    assert(d.take(i - start) =~= d);
    true
}

/// Whether `v` is a dotted quad (see [`ipv4_ok`]).
pub fn ipv4_c(v: &Vec<char>) -> (r: bool)
    ensures
        r == ipv4_ok(v@),
{
    let parts = split_chars(v, '.');
    if parts.len() != 4 {
        return false;
    }
    let mut i: usize = 0;
    while i < 4
        invariant
            i <= 4,
            parts@.len() == 4,
            split_on(v@, '.').len() == 4,
            forall|j: int| 0 <= j < 4 ==> (#[trigger] parts@[j])@ == split_on(v@, '.')[j],
            forall|j: int| 0 <= j < i ==> u8_text_ok(#[trigger] split_on(v@, '.')[j]),
        decreases 4 - i,
    {
        if !u8_text_c(&parts[i]) {
            return false;
        }
        i += 1;
    }
    true
}

/// Whether `v` is an IPv6 address as far as this check goes (see [`ipv6_ok`]).
pub fn ipv6_c(v: &Vec<char>) -> (r: bool)
    ensures
        r == ipv6_ok(v@),
{
    if !contains_char(v, ':') {
        return false;
    }
    let mut i: usize = 0;
    while i < v.len()
        invariant
            i <= v@.len(),
            forall|j: int| 0 <= j < i ==> is_hexdigit(#[trigger] v@[j]) || v@[j] == ':',
        decreases v.len() - i,
    {
        if !(hexdigit_c(v[i]) || v[i] == ':') {
            return false;
        }
        i += 1;
    }
    true
}

/// Whether `v` looks like a URL or a URL reference (see [`url_ok`]).
pub fn url_c(v: &Vec<char>) -> (r: bool)
    ensures
        r == url_ok(v@),
{
    let scheme = vec![':', '/', '/'];
    let slash = vec!['/'];
    let dot = vec!['.', '/'];
    let dotdot = vec!['.', '.', '/'];
    assert(scheme@ =~= seq![':', '/', '/']);
    assert(slash@ =~= seq!['/']);
    assert(dot@ =~= seq!['.', '/']);
    assert(dotdot@ =~= seq!['.', '.', '/']);
    contains_sub_c(v, &scheme) || starts_with_c(v, &slash) || starts_with_c(v, &dot)
        || starts_with_c(v, &dotdot)
}

/// Whether every character of `v` is an upper-case ASCII letter.
pub fn all_upper_c(v: &Vec<char>) -> (r: bool)
    ensures
        r == all_upper(v@),
{
    let mut i: usize = 0;
    while i < v.len()
        invariant
            i <= v@.len(),
            forall|j: int| 0 <= j < i ==> is_upper(#[trigger] v@[j]),
        decreases v.len() - i,
    {
        if !upper_c(v[i]) {
            return false;
        }
        i += 1;
    }
    true
}

/// Whether every character of `v` may stand in Base64 text (see [`base64_ok`]).
pub fn base64_c(v: &Vec<char>) -> (r: bool)
    ensures
        r == base64_ok(v@),
{
    let mut i: usize = 0;
    while i < v.len()
        invariant
            i <= v@.len(),
            forall|j: int| 0 <= j < i ==> is_alnum(#[trigger] v@[j]) || v@[j] == '+' || v@[j] == '/' || v@[j] == '=',
        decreases v.len() - i,
    {
        let c = v[i];
        if !(alnum_c(c) || c == '+' || c == '/' || c == '=') {
            return false;
        }
        i += 1;
    }
    true
}

/// Whether `v` holds `c`.
pub fn has_char(v: &Vec<char>, c: char) -> (r: bool)
    ensures
        r == v@.contains(c),
{
    contains_char(v, c)
}

} // verus!
