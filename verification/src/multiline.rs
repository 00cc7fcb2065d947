//! Multi-line strings of KDL 2.
//!
//! A multi-line string opens with `"""` (after the `#`s of a raw string) and a
//! line break, and closes with `"""` (and as many `#`s) on a line that holds
//! nothing else but whitespace. That whitespace is the indentation of the
//! string: every other line must start with it, and loses it, but for lines of
//! whitespace alone, which become empty. The line breaks between the lines
//! become `\n`; the line break after the opening quotes and the one before the
//! closing line belong to the syntax, not to the text.
//!
//! In a quoted multi-line string the whitespace escapes (`\` and the spaces
//! and line breaks after it) are taken out first, then the lines lose their
//! indentation, and then the other escapes are resolved. A raw multi-line
//! string has no escapes.

use vstd::prelude::*;

use crate::chars::{is_kdl_newline, is_kdl_space, kdl_newline_c, kdl_space_c};
use crate::parser::{
    at, at_c, char_of_code, fail, failure, hashes_at, hashes_at_c, hex_run, hex_run_c, hex_value,
    hex_value_c, is_disallowed, is_disallowed_c, is_scalar, kres, kres_unit, nl_len, nl_len_c,
    simple_escape, simple_escape_c, KRes, ParseFail,
};
use crate::text::push_char;

verus! {

/// Whether `"""` stands at `p`.
pub open spec fn triple_quote(s: Seq<char>, p: int) -> bool {
    at(s, p, '"') && at(s, p + 1, '"') && at(s, p + 2, '"')
}

/// The position of the `"""` that closes a quoted multi-line string, looking
/// from `p`; an escaped character is passed over.
pub open spec fn ml_quoted_close(s: Seq<char>, p: int) -> KRes<()>
    decreases s.len() - p,
{
    if p < 0 || p >= s.len() {
        fail(p, "Unterminated string"@)
    } else if triple_quote(s, p) {
        KRes::Read((), p)
    } else if s[p] == '\\' {
        if p + 1 >= s.len() {
            fail(p, "Unterminated string"@)
        } else {
            ml_quoted_close(s, p + 2)
        }
    } else if is_disallowed(s[p]) {
        fail(p, "Disallowed character"@)
    } else {
        ml_quoted_close(s, p + 1)
    }
}

/// The position of the `"""` that closes a raw multi-line string with `n` `#`s,
/// looking from `p`.
pub open spec fn ml_raw_close(s: Seq<char>, p: int, n: int) -> KRes<()>
    decreases s.len() - p,
{
    if p < 0 || p >= s.len() {
        fail(p, "Unterminated string"@)
    } else if triple_quote(s, p) && hashes_at(s, p + 3, n) {
        KRes::Read((), p)
    } else if is_disallowed(s[p]) {
        fail(p, "Disallowed character"@)
    } else {
        ml_raw_close(s, p + 1, n)
    }
}

pub open spec fn is_blank(c: char) -> bool {
    is_kdl_space(c) || is_kdl_newline(c)
}

/// `b` from `i` with its whitespace escapes taken out, after the characters
/// `acc` kept so far; `skip` holds inside such an escape. Any other escape is
/// kept as it stands, its two characters together.
pub open spec fn drop_ws_escapes(b: Seq<char>, i: int, skip: bool, acc: Seq<char>) -> Seq<char>
    decreases b.len() - i,
{
    if i < 0 || i >= b.len() {
        acc
    } else if skip && is_blank(b[i]) {
        drop_ws_escapes(b, i + 1, true, acc)
    } else if b[i] == '\\' && i + 1 < b.len() && is_blank(b[i + 1]) {
        drop_ws_escapes(b, i + 2, true, acc)
    } else if b[i] == '\\' && i + 1 < b.len() {
        drop_ws_escapes(b, i + 2, false, acc.push(b[i]).push(b[i + 1]))
    } else {
        drop_ws_escapes(b, i + 1, false, acc.push(b[i]))
    }
}

/// The lines of `b` from `i`, split at line breaks (`\r\n` is one): `cur` is
/// the line read so far, `ls` the lines before it.
pub open spec fn split_lines(b: Seq<char>, i: int, cur: Seq<char>, ls: Seq<Seq<char>>) -> Seq<Seq<char>>
    decreases b.len() - i,
{
    if i < 0 || i >= b.len() {
        ls.push(cur)
    } else if nl_len(b, i) > 0 {
        split_lines(b, i + nl_len(b, i), Seq::empty(), ls.push(cur))
    } else {
        split_lines(b, i + 1, cur.push(b[i]), ls)
    }
}

/// Whether a line holds whitespace alone.
pub open spec fn all_space(l: Seq<char>) -> bool {
    forall|k: int| 0 <= k < l.len() ==> is_kdl_space(#[trigger] l[k])
}

/// A line without the indentation `prefix`: empty where it holds whitespace
/// alone, and `None` where it does not start with `prefix`.
pub open spec fn dedented(l: Seq<char>, prefix: Seq<char>) -> Option<Seq<char>> {
    if all_space(l) {
        Some(Seq::empty())
    } else if prefix.len() <= l.len() && l.take(prefix.len() as int) == prefix {
        Some(l.skip(prefix.len() as int))
    } else {
        None
    }
}

/// The lines `ls` from `i`, each without the indentation `prefix`, joined by
/// `\n` after the text `acc` of the lines before them.
pub open spec fn dedent_from(ls: Seq<Seq<char>>, prefix: Seq<char>, i: int, acc: Seq<char>) -> Option<Seq<char>>
    decreases ls.len() - i,
{
    if i < 0 || i >= ls.len() {
        Some(acc)
    } else {
        match dedented(ls[i], prefix) {
            None => None,
            Some(l) => dedent_from(ls, prefix, i + 1, if i == 0 { l } else { acc.push('\n') + l }),
        }
    }
}

/// The text `t` from `i` with its escapes resolved, after the characters
/// `acc` read so far; `None` for an escape that is not one.
pub open spec fn resolve_escapes(t: Seq<char>, i: int, acc: Seq<char>) -> Option<Seq<char>>
    decreases t.len() - i,
{
    if i < 0 || i >= t.len() {
        Some(acc)
    } else if t[i] == '\\' {
        if i + 1 >= t.len() {
            None
        } else if simple_escape(t[i + 1]) is Some {
            resolve_escapes(t, i + 2, acc.push(simple_escape(t[i + 1])->0))
        } else if t[i + 1] == 'u' {
            let e = hex_run(t, i + 3, 6);
            if at(t, i + 2, '{') && e > i + 3 && at(t, e, '}') && is_scalar(hex_value(t, i + 3, e)) {
                resolve_escapes(t, e + 1, acc.push(hex_value(t, i + 3, e) as char))
            } else {
                None
            }
        } else {
            None
        }
    } else {
        resolve_escapes(t, i + 1, acc.push(t[i]))
    }
}

/// The body of a multi-line string, between the line break after its opening
/// quotes and its closing quotes, as it reads: whitespace escapes taken out
/// where it is `quoted`, then split into lines.
pub open spec fn ml_lines(body: Seq<char>, quoted: bool) -> Seq<Seq<char>> {
    split_lines(
        if quoted { drop_ws_escapes(body, 0, false, Seq::empty()) } else { body },
        0,
        Seq::empty(),
        Seq::empty(),
    )
}

/// A multi-line string that starts at `p` and whose opening `"""` ends at `q`:
/// quoted, or raw with `n` `#`s. What it reads is its text and the position
/// after its closing quotes (and `#`s).
#[verifier::opaque]
pub open spec fn k_multiline(s: Seq<char>, p: int, q: int, n: int, quoted: bool) -> KRes<Seq<char>> {
    if nl_len(s, q) == 0 {
        fail(p, "A multi-line string must start with a line break"@)
    } else {
        let a = q + nl_len(s, q);
        match (if quoted { ml_quoted_close(s, a) } else { ml_raw_close(s, a, n) }) {
            KRes::Fail(e) => KRes::Fail(e),
            KRes::Read(_, c) => {
                let ls = ml_lines(s.subrange(a, c), quoted);
                if !all_space(ls.last()) {
                    fail(p, "A multi-line string must close on a line of its own"@)
                } else {
                    match dedent_from(ls.drop_last(), ls.last(), 0, Seq::empty()) {
                        None => fail(
                            p,
                            "Each line of a multi-line string must start with the indentation of its closing line"@,
                        ),
                        Some(t) => if quoted {
                            match resolve_escapes(t, 0, Seq::empty()) {
                                Some(v) => KRes::Read(v, c + 3),
                                None => fail(p, "Invalid escape sequence"@),
                            }
                        } else {
                            KRes::Read(t, c + 3 + n)
                        },
                    }
                }
            },
        }
    }
}

fn ml_quoted_close_c(s: &Vec<char>, a: usize) -> (r: Result<usize, ParseFail>)
    requires
        a <= s@.len(),
    ensures
        kres_unit(r) == ml_quoted_close(s@, a as int),
        r matches Ok(c) ==> a <= c && c + 3 <= s@.len(),
{
    let len = s.len();
    let mut i = a;
    loop
        invariant
            a <= i <= len,
            len == s@.len(),
            ml_quoted_close(s@, a as int) == ml_quoted_close(s@, i as int),
        decreases len - i,
    {
        if i >= len {
            return Err(failure(i, "Unterminated string"));
        }
        if at_c(s, i, '"') && at_c(s, i + 1, '"') && at_c(s, i + 2, '"') {
            return Ok(i);
        }
        if s[i] == '\\' {
            if i + 1 >= len {
                return Err(failure(i, "Unterminated string"));
            }
            i = i + 2;
        } else if is_disallowed_c(s[i]) {
            return Err(failure(i, "Disallowed character"));
        } else {
            i = i + 1;
        }
    }
}

fn ml_raw_close_c(s: &Vec<char>, a: usize, n: usize) -> (r: Result<usize, ParseFail>)
    requires
        a <= s@.len(),
    ensures
        kres_unit(r) == ml_raw_close(s@, a as int, n as int),
        r matches Ok(c) ==> a <= c && c + 3 + n <= s@.len(),
{
    let len = s.len();
    let mut i = a;
    loop
        invariant
            a <= i <= len,
            len == s@.len(),
            ml_raw_close(s@, a as int, n as int) == ml_raw_close(s@, i as int, n as int),
        decreases len - i,
    {
        if i >= len {
            return Err(failure(i, "Unterminated string"));
        }
        if at_c(s, i, '"') && at_c(s, i + 1, '"') && at_c(s, i + 2, '"') && hashes_at_c(s, i + 3, n) {
            return Ok(i);
        }
        if is_disallowed_c(s[i]) {
            return Err(failure(i, "Disallowed character"));
        }
        i = i + 1;
    }
}

/// The characters of `s` from `a` to `b`.
fn chars_between(s: &Vec<char>, a: usize, b: usize) -> (r: Vec<char>)
    requires
        a <= b <= s@.len(),
    ensures
        r@ == s@.subrange(a as int, b as int),
{
    let mut out: Vec<char> = Vec::new();
    let mut i = a;
    while i < b
        invariant
            a <= i <= b,
            b <= s@.len(),
            out@ == s@.subrange(a as int, i as int),
        decreases b - i,
    {
        out.push(s[i]);
        i += 1;
        assert(out@ =~= s@.subrange(a as int, i as int));
    }
    out
}

fn is_blank_c(c: char) -> (r: bool)
    ensures
        r == is_blank(c),
{
    kdl_space_c(c) || kdl_newline_c(c)
}

fn drop_ws_escapes_c(b: &Vec<char>) -> (r: Vec<char>)
    ensures
        r@ == drop_ws_escapes(b@, 0, false, Seq::empty()),
{
    let len = b.len();
    let mut out: Vec<char> = Vec::new();
    let mut skip = false;
    let mut i: usize = 0;
    assert(out@ =~= Seq::<char>::empty());
    while i < len
        invariant
            i <= len,
            len == b@.len(),
            drop_ws_escapes(b@, 0, false, Seq::empty()) == drop_ws_escapes(b@, i as int, skip, out@),
        decreases len - i,
    {
        let c = b[i];
        if skip && is_blank_c(c) {
            i = i + 1;
        } else if c == '\\' && i + 1 < len && is_blank_c(b[i + 1]) {
            skip = true;
            i = i + 2;
        } else if c == '\\' && i + 1 < len {
            out.push(c);
            out.push(b[i + 1]);
            skip = false;
            i = i + 2;
        } else {
            out.push(c);
            skip = false;
            i = i + 1;
        }
    }
    out
}

pub open spec fn lines_view(ls: Seq<Vec<char>>) -> Seq<Seq<char>> {
    ls.map_values(|l: Vec<char>| l@)
}

fn split_lines_c(b: &Vec<char>) -> (r: Vec<Vec<char>>)
    ensures
        lines_view(r@) == split_lines(b@, 0, Seq::empty(), Seq::empty()),
        r@.len() > 0,
{
    let len = b.len();
    let mut ls: Vec<Vec<char>> = Vec::new();
    let mut cur: Vec<char> = Vec::new();
    let mut i: usize = 0;
    assert(lines_view(ls@) =~= Seq::<Seq<char>>::empty());
    assert(cur@ =~= Seq::<char>::empty());
    while i < len
        invariant
            i <= len,
            len == b@.len(),
            split_lines(b@, 0, Seq::empty(), Seq::empty()) == split_lines(
                b@,
                i as int,
                cur@,
                lines_view(ls@),
            ),
        decreases len - i,
    {
        let k = nl_len_c(b, i);
        if k > 0 {
            let ghost before = lines_view(ls@);
            let ghost line = cur@;
            let done = cur;
            ls.push(done);
            cur = Vec::new();
            assert(lines_view(ls@) =~= before.push(line));
            assert(cur@ =~= Seq::<char>::empty());
            i = i + k;
        } else {
            cur.push(b[i]);
            i = i + 1;
        }
    }
    let ghost before = lines_view(ls@);
    let ghost line = cur@;
    ls.push(cur);
    assert(lines_view(ls@) =~= before.push(line));
    ls
}

fn all_space_c(l: &Vec<char>) -> (r: bool)
    ensures
        r == all_space(l@),
{
    let mut k: usize = 0;
    while k < l.len()
        invariant
            k <= l@.len(),
            forall|j: int| 0 <= j < k ==> is_kdl_space(#[trigger] l@[j]),
        decreases l.len() - k,
    {
        if !kdl_space_c(l[k]) {
            return false;
        }
        k += 1;
    }
    true
}

fn dedented_c(l: &Vec<char>, prefix: &Vec<char>) -> (r: Option<Vec<char>>)
    ensures
        match r {
            Some(v) => dedented(l@, prefix@) == Some(v@),
            None => dedented(l@, prefix@) is None,
        },
{
    if all_space_c(l) {
        let v: Vec<char> = Vec::new();
        assert(v@ =~= Seq::<char>::empty());
        return Some(v);
    }
    let m = prefix.len();
    if m > l.len() {
        return None;
    }
    let mut k: usize = 0;
    while k < m
        invariant
            k <= m,
            m == prefix@.len(),
            m <= l@.len(),
            !all_space(l@),
            forall|j: int| 0 <= j < k ==> l@[j] == prefix@[j],
        decreases m - k,
    {
        if l[k] != prefix[k] {
            proof {
                if l@.take(m as int) == prefix@ {
                    assert(l@.take(m as int)[k as int] == prefix@[k as int]);
                }
            }
            return None;
        }
        k += 1;
    }
    assert(l@.take(m as int) =~= prefix@);
    let v = chars_between(l, m, l.len());
    assert(v@ =~= l@.skip(m as int));
    Some(v)
}

/// The first `count` lines of `ls` without the indentation `prefix`, joined by `\n`.
fn dedent_c(ls: &Vec<Vec<char>>, count: usize, prefix: &Vec<char>) -> (r: Option<Vec<char>>)
    requires
        count <= ls@.len(),
    ensures
        match r {
            Some(v) => dedent_from(lines_view(ls@).take(count as int), prefix@, 0, Seq::empty()) == Some(v@),
            None => dedent_from(lines_view(ls@).take(count as int), prefix@, 0, Seq::empty()) is None,
        },
{
    let ghost lv = lines_view(ls@).take(count as int);
    let mut out: Vec<char> = Vec::new();
    let mut i: usize = 0;
    assert(out@ =~= Seq::<char>::empty());
    while i < count
        invariant
            i <= count,
            count <= ls@.len(),
            lv == lines_view(ls@).take(count as int),
            dedent_from(lv, prefix@, 0, Seq::empty()) == dedent_from(lv, prefix@, i as int, out@),
        decreases count - i,
    {
        assert(lv[i as int] == ls@[i as int]@);
        match dedented_c(&ls[i], prefix) {
            None => {
                return None;
            },
            Some(l) => {
                if i == 0 {
                    out = l;
                } else {
                    let ghost before = out@;
                    out.push('\n');
                    let mut j: usize = 0;
                    while j < l.len()
                        invariant
                            j <= l@.len(),
                            out@ == before.push('\n') + l@.take(j as int),
                        decreases l.len() - j,
                    {
                        out.push(l[j]);
                        j += 1;
                        assert(out@ =~= before.push('\n') + l@.take(j as int));
                    }
                    assert(l@.take(l@.len() as int) =~= l@);
                }
            },
        }
        i += 1;
    }
    Some(out)
}

fn resolve_escapes_c(t: &Vec<char>) -> (r: Option<String>)
    ensures
        match r {
            Some(v) => resolve_escapes(t@, 0, Seq::empty()) == Some(v@),
            None => resolve_escapes(t@, 0, Seq::empty()) is None,
        },
{
    let len = t.len();
    let mut acc = String::new();
    let mut i: usize = 0;
    assert(acc@ =~= Seq::<char>::empty());
    while i < len
        invariant
            i <= len,
            len == t@.len(),
            resolve_escapes(t@, 0, Seq::empty()) == resolve_escapes(t@, i as int, acc@),
        decreases len - i,
    {
        let c = t[i];
        if c == '\\' {
            if i + 1 >= len {
                return None;
            }
            match simple_escape_c(t[i + 1]) {
                Some(x) => {
                    push_char(&mut acc, x);
                    i = i + 2;
                },
                None => {
                    if t[i + 1] != 'u' || !at_c(t, i + 2, '{') {
                        return None;
                    }
                    let e = hex_run_c(t, i + 3);
                    if e > i + 3 && at_c(t, e, '}') {
                        let v = hex_value_c(t, i + 3, e);
                        match char_of_code(v) {
                            Some(x) => {
                                push_char(&mut acc, x);
                                i = e + 1;
                            },
                            None => {
                                return None;
                            },
                        }
                    } else {
                        return None;
                    }
                },
            }
        } else {
            push_char(&mut acc, c);
            i = i + 1;
        }
    }
    Some(acc)
}

/// A multi-line string that starts at `p`, whose opening quotes end at `q`
/// (see [`k_multiline`]).
pub(crate) fn multiline_c(s: &Vec<char>, p: usize, q: usize, n: usize, quoted: bool) -> (r: Result<(String, usize), ParseFail>)
    requires
        p < q <= s@.len(),
    ensures
        kres(r, |x: String| x@) == k_multiline(s@, p as int, q as int, n as int, quoted),
        r matches Ok((_, e)) ==> p <= e <= s@.len(),
{
    reveal(k_multiline);
    let len = s.len();
    let k = nl_len_c(s, q);
    if k == 0 {
        return Err(failure(p, "A multi-line string must start with a line break"));
    }
    assert(q + k <= s@.len());
    let a = q + k;
    let c = if quoted {
        match ml_quoted_close_c(s, a) {
            Ok(c) => c,
            Err(e) => {
                return Err(e);
            },
        }
    } else {
        match ml_raw_close_c(s, a, n) {
            Ok(c) => c,
            Err(e) => {
                return Err(e);
            },
        }
    };
    assert(a <= c);
    assert(quoted ==> c + 3 <= s@.len());
    assert(!quoted ==> c + 3 + n <= s@.len());
    let body = chars_between(s, a, c);
    let b = if quoted {
        drop_ws_escapes_c(&body)
    } else {
        body
    };
    let ls = split_lines_c(&b);
    let last = ls.len() - 1;
    proof {
        let lv = lines_view(ls@);
        assert(lv == ml_lines(s@.subrange(a as int, c as int), quoted));
        assert(lv.last() == ls@[last as int]@);
        assert(lv.drop_last() =~= lv.take(last as int));
    }
    if !all_space_c(&ls[last]) {
        return Err(failure(p, "A multi-line string must close on a line of its own"));
    }
    let t = match dedent_c(&ls, last, &ls[last]) {
        Some(t) => t,
        None => {
            return Err(
                failure(
                    p,
                    "Each line of a multi-line string must start with the indentation of its closing line",
                ),
            );
        },
    };
    if quoted {
        match resolve_escapes_c(&t) {
            Some(v) => Ok((v, c + 3)),
            None => Err(failure(p, "Invalid escape sequence")),
        }
    } else {
        let text = crate::query_parser::text_between(&t, 0, t.len());
        assert(t@.subrange(0, t@.len() as int) =~= t@);
        Ok((text, c + 3 + n))
    }
}

} // verus!
