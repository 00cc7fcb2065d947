//! Numbers of KDL documents, held exactly.
//!
//! A KDL number with a fraction or an exponent is kept as a decimal
//! `mantissa * 10^exponent`, so that comparisons and divisibility are exact.

use vstd::prelude::*;

verus! {

/// A non-integer KDL number: a finite decimal or one of the three keywords
/// `#inf`, `#-inf` and `#nan`.
#[derive(Clone, Copy, Debug, PartialEq, Eq, Structural)]
pub enum KdlFloat {
    /// The value `mantissa * 10^exponent`.
    Decimal { mantissa: i128, exponent: i32 },
    /// `#inf`
    Infinity,
    /// `#-inf`
    NegInfinity,
    /// `#nan`
    NaN,
}

/// A number used as a numeric constraint or compared against one.
#[derive(Clone, Copy, Debug, PartialEq, Eq, Structural)]
pub enum Number {
    Integer(i128),
    Float(KdlFloat),
}

/// A number on the extended real line: a finite decimal, an infinity, or not a number.
pub enum Ext {
    Fin(int, int),
    PosInf,
    NegInf,
    NaN,
}

pub open spec fn float_ext(f: KdlFloat) -> Ext {
    match f {
        KdlFloat::Decimal { mantissa, exponent } => Ext::Fin(mantissa as int, exponent as int),
        KdlFloat::Infinity => Ext::PosInf,
        KdlFloat::NegInfinity => Ext::NegInf,
        KdlFloat::NaN => Ext::NaN,
    }
}

pub open spec fn num_ext(n: Number) -> Ext {
    match n {
        Number::Integer(i) => Ext::Fin(i as int, 0),
        Number::Float(f) => float_ext(f),
    }
}

pub open spec fn pow10(n: nat) -> int
    decreases n,
{
    if n == 0 {
        1
    } else {
        10 * pow10((n - 1) as nat)
    }
}

pub open spec fn sign(x: int) -> int {
    if x < 0 {
        -1
    } else if x == 0 {
        0
    } else {
        1
    }
}

pub open spec fn min_int(a: int, b: int) -> int {
    if a <= b {
        a
    } else {
        b
    }
}

/// `m * 10^(e - base)`, the decimal `m * 10^e` written over the exponent `base <= e`.
pub open spec fn aligned(m: int, e: int, base: int) -> int {
    m * pow10((e - base) as nat)
}

/// The sign of `m1 * 10^e1 - m2 * 10^e2`.
pub open spec fn fin_order(m1: int, e1: int, m2: int, e2: int) -> int {
    let e = min_int(e1, e2);
    sign(aligned(m1, e1, e) - aligned(m2, e2, e))
}

/// How `a` compares with `b`: the sign of `a - b`, or `None` where either is not a number.
pub open spec fn ext_order(a: Ext, b: Ext) -> Option<int> {
    match (a, b) {
        (Ext::NaN, _) => None,
        (_, Ext::NaN) => None,
        (Ext::PosInf, Ext::PosInf) => Some(0),
        (Ext::NegInf, Ext::NegInf) => Some(0),
        (Ext::PosInf, _) => Some(1),
        (_, Ext::PosInf) => Some(-1),
        (Ext::NegInf, _) => Some(-1),
        (_, Ext::NegInf) => Some(1),
        (Ext::Fin(m1, e1), Ext::Fin(m2, e2)) => Some(fin_order(m1, e1, m2, e2)),
    }
}

pub open spec fn num_order(a: Number, b: Number) -> Option<int> {
    ext_order(num_ext(a), num_ext(b))
}

/// Whether the decimal `m1 * 10^e1` is an integer multiple of `m2 * 10^e2`, for `m2 != 0`.
pub open spec fn fin_is_multiple(m1: int, e1: int, m2: int, e2: int) -> bool {
    let e = min_int(e1, e2);
    aligned(m1, e1, e) % aligned(m2, e2, e) == 0
}

/// Whether `num` breaks a "multiple of `m`" constraint. A zero, infinite or
/// not-a-number divisor, and an infinite or not-a-number value, break no constraint,
/// except that a non-zero finite value is no multiple of an infinity.
pub open spec fn ext_not_multiple(num: Ext, m: Ext) -> bool {
    match (num, m) {
        (Ext::Fin(m1, e1), Ext::Fin(m2, e2)) => m2 != 0 && !fin_is_multiple(m1, e1, m2, e2),
        (Ext::Fin(m1, _), Ext::PosInf) => m1 != 0,
        (Ext::Fin(m1, _), Ext::NegInf) => m1 != 0,
        _ => false,
    }
}

pub proof fn lemma_pow10_pos(n: nat)
    ensures
        pow10(n) >= 1,
    decreases n,
{
    if n > 0 {
        lemma_pow10_pos((n - 1) as nat);
    }
}

pub proof fn lemma_pow10_add(a: nat, b: nat)
    ensures
        pow10(a + b) == pow10(a) * pow10(b),
    decreases a,
{
    if a > 0 {
        lemma_pow10_add((a - 1) as nat, b);
        assert(pow10(a + b) == 10 * pow10((a - 1 + b) as nat));
        assert(10 * (pow10((a - 1) as nat) * pow10(b)) == (10 * pow10((a - 1) as nat)) * pow10(b))
            by (nonlinear_arith);
    }
}

proof fn lemma_mul_big(x: int, p: int, y: int)
    requires
        p >= 1,
        x > 0 ==> x > y,
        x < 0 ==> x < y,
        x > 0 ==> y >= -x,
        x < 0 ==> y <= -x,
        x != 0,
    ensures
        sign(x * p - y) == sign(x),
{
    if x > 0 {
        assert(x * p >= x) by (nonlinear_arith)
            requires
                x > 0,
                p >= 1,
        ;
    } else {
        assert(x * p <= x) by (nonlinear_arith)
            requires
                x < 0,
                p >= 1,
        ;
    }
}

/// The sign of `x0 * 10^d - y`.
fn scaled_order(x0: i128, d: u64, y: i128) -> (r: i8)
    ensures
        r as int == sign(x0 * pow10(d as nat) - y),
{
    if x0 == 0 {
        assert(x0 * pow10(d as nat) == 0);
        return if y > 0 {
            -1
        } else if y == 0 {
            0
        } else {
            1
        };
    }
    let mut x: i128 = x0;
    let mut k: u64 = 0;
    while k < d
        invariant
            k <= d,
            x as int == x0 * pow10(k as nat),
            x0 != 0,
            x0 > 0 ==> x > 0,
            x0 < 0 ==> x < 0,
        decreases d - k,
    {
        match x.checked_mul(10) {
            Some(nx) => {
                proof {
                    assert(pow10((k + 1) as nat) == 10 * pow10(k as nat));
                    assert(x0 * (10 * pow10(k as nat)) == 10 * (x0 * pow10(k as nat)))
                        by (nonlinear_arith);
                }
                x = nx;
                k = k + 1;
            },
            None => {
                proof {
                    let rest = (d - k - 1) as nat;
                    lemma_pow10_add(k as nat, (rest + 1) as nat);
                    assert((k + rest + 1) as nat == d as nat);
                    assert(pow10((rest + 1) as nat) == 10 * pow10(rest));
                    lemma_pow10_pos(rest);
                    let p = pow10(rest);
                    assert(x0 * pow10(d as nat) == (x * 10) * p) by (nonlinear_arith)
                        requires
                            x as int == x0 * pow10(k as nat),
                            pow10(d as nat) == pow10(k as nat) * pow10((rest + 1) as nat),
                            pow10((rest + 1) as nat) == 10 * p,
                    ;
                    lemma_mul_big(x * 10, p, y as int);
                }
                return if x0 > 0 {
                    1
                } else {
                    -1
                };
            },
        }
    }
    if x > y {
        1
    } else if x == y {
        0
    } else {
        -1
    }
}

/// The sign of `m1 * 10^e1 - m2 * 10^e2`.
pub fn decimal_order(m1: i128, e1: i32, m2: i128, e2: i32) -> (r: i8)
    ensures
        r as int == fin_order(m1 as int, e1 as int, m2 as int, e2 as int),
{
    if e1 >= e2 {
        let d = (e1 as i64 - e2 as i64) as u64;
        assert(pow10(0) == 1);
        assert(m2 * pow10(0) == m2);
        scaled_order(m1, d, m2)
    } else {
        let d = (e2 as i64 - e1 as i64) as u64;
        assert(pow10(0) == 1);
        assert(m1 * pow10(0) == m1);
        let r = scaled_order(m2, d, m1);
        -r
    }
}

/// How two numbers compare: `Some` of the sign of `a - b`, or `None` where
/// either is not a number.
pub fn number_order(a: &Number, b: &Number) -> (r: Option<i8>)
    ensures
        r matches Some(c) ==> num_order(*a, *b) == Some(c as int),
        r is None ==> num_order(*a, *b) is None,
{
    let ea = ext_of(a);
    let eb = ext_of(b);
    match (ea, eb) {
        (ExtExec::NaN, _) => None,
        (_, ExtExec::NaN) => None,
        (ExtExec::PosInf, ExtExec::PosInf) => Some(0),
        (ExtExec::NegInf, ExtExec::NegInf) => Some(0),
        (ExtExec::PosInf, _) => Some(1),
        (_, ExtExec::PosInf) => Some(-1),
        (ExtExec::NegInf, _) => Some(-1),
        (_, ExtExec::NegInf) => Some(1),
        (ExtExec::Fin(m1, e1), ExtExec::Fin(m2, e2)) => Some(decimal_order(m1, e1, m2, e2)),
    }
}

enum ExtExec {
    Fin(i128, i32),
    PosInf,
    NegInf,
    NaN,
}

spec fn ext_exec_view(e: ExtExec) -> Ext {
    match e {
        ExtExec::Fin(m, x) => Ext::Fin(m as int, x as int),
        ExtExec::PosInf => Ext::PosInf,
        ExtExec::NegInf => Ext::NegInf,
        ExtExec::NaN => Ext::NaN,
    }
}

fn ext_of(n: &Number) -> (e: ExtExec)
    ensures
        ext_exec_view(e) == num_ext(*n),
{
    match n {
        Number::Integer(i) => ExtExec::Fin(*i, 0),
        Number::Float(KdlFloat::Decimal { mantissa, exponent }) => ExtExec::Fin(*mantissa, *exponent),
        Number::Float(KdlFloat::Infinity) => ExtExec::PosInf,
        Number::Float(KdlFloat::NegInfinity) => ExtExec::NegInf,
        Number::Float(KdlFloat::NaN) => ExtExec::NaN,
    }
}

fn abs_u128(m: i128) -> (r: u128)
    ensures
        r as int == if m < 0 { -m } else { m as int },
{
    if m >= 0 {
        m as u128
    } else {
        ((-(m + 1)) as u128) + 1
    }
}

proof fn lemma_mod_abs(a: int, b: int)
    requires
        b != 0,
    ensures
        (a % b == 0) <==> ((if a < 0 { -a } else { a }) % (if b < 0 { -b } else { b }) == 0),
{
    let aa = if a < 0 { -a } else { a };
    let bb = if b < 0 { -b } else { b };
    if a % b == 0 {
        let q = a / b;
        assert(a == b * q) by (nonlinear_arith)
            requires
                b != 0,
                a % b == 0,
                q == a / b,
        ;
        let q2 = if (a < 0) == (b < 0) { q } else { -q };
        assert(aa == bb * q2) by (nonlinear_arith)
            requires
                a == b * q,
                aa == (if a < 0 { -a } else { a }),
                bb == (if b < 0 { -b } else { b }),
                q2 == (if (a < 0) == (b < 0) { q } else { -q }),
        ;
        vstd::arithmetic::div_mod::lemma_mod_multiples_basic(q2, bb);
        assert(bb * q2 == q2 * bb) by (nonlinear_arith);
    }
    if aa % bb == 0 {
        let q = aa / bb;
        assert(aa == bb * q) by (nonlinear_arith)
            requires
                bb > 0,
                aa % bb == 0,
                q == aa / bb,
        ;
        let q2 = if (a < 0) == (b < 0) { q } else { -q };
        assert(a == b * q2) by (nonlinear_arith)
            requires
                aa == bb * q,
                aa == (if a < 0 { -a } else { a }),
                bb == (if b < 0 { -b } else { b }),
                q2 == (if (a < 0) == (b < 0) { q } else { -q }),
        ;
        if b > 0 {
            vstd::arithmetic::div_mod::lemma_mod_multiples_basic(q2, b);
            assert(b * q2 == q2 * b) by (nonlinear_arith);
        } else {
            assert(a == (-b) * (-q2)) by (nonlinear_arith)
                requires
                    a == b * q2,
            ;
            vstd::arithmetic::div_mod::lemma_mod_multiples_basic(-q2, -b);
            assert((-b) * (-q2) == (-q2) * (-b)) by (nonlinear_arith);
            // Euclidean remainder does not depend on the divisor's sign
            assert(a % b == a % (-b)) by (nonlinear_arith)
                requires
                    b < 0,
            ;
        }
    }
}

/// `(a + b) % m` for `a, b < m`, without overflow.
fn add_mod(a: u128, b: u128, m: u128) -> (r: u128)
    requires
        a < m,
        b < m,
    ensures
        r as int == (a + b) % (m as int),
        r < m,
{
    if a >= m - b {
        let r = a - (m - b);
        proof {
            vstd::arithmetic::div_mod::lemma_small_mod(r as nat, m as nat);
            vstd::arithmetic::div_mod::lemma_mod_add_multiples_vanish(r as int, m as int);
        }
        r
    } else {
        let r = a + b;
        proof {
            vstd::arithmetic::div_mod::lemma_small_mod(r as nat, m as nat);
        }
        r
    }
}

/// `(rem * 10) % m` for `rem < m`, without overflow.
fn mul10_mod(rem: u128, m: u128) -> (r: u128)
    requires
        rem < m,
    ensures
        r as int == (rem * 10) % (m as int),
        r < m,
{
    let mut acc: u128 = rem;
    let mut j: u32 = 1;
    proof {
        vstd::arithmetic::div_mod::lemma_small_mod(rem as nat, m as nat);
    }
    while j < 10
        invariant
            1 <= j <= 10,
            rem < m,
            acc < m,
            acc as int == (rem * j) % (m as int),
        decreases 10 - j,
    {
        let next = add_mod(acc, rem, m);
        proof {
            vstd::arithmetic::div_mod::lemma_small_mod(rem as nat, m as nat);
            vstd::arithmetic::div_mod::lemma_add_mod_noop((rem * j) as int, rem as int, m as int);
            assert(rem * j + rem == rem * (j + 1)) by (nonlinear_arith);
        }
        acc = next;
        j = j + 1;
    }
    acc
}

/// Whether `x0 * 10^d` is a multiple of `y`, for `y != 0`.
fn scaled_is_multiple(x0: i128, d: u64, y: i128) -> (r: bool)
    requires
        y != 0,
    ensures
        r == ((x0 * pow10(d as nat)) % (y as int) == 0),
{
    let m = abs_u128(y);
    let a = abs_u128(x0);
    let mut rem: u128 = a % m;
    let mut k: u64 = 0;
    proof {
        assert(pow10(0) == 1);
        assert(a * pow10(0) == a);
    }
    while k < d
        invariant
            m > 0,
            m as int == (if y < 0 { -y } else { y as int }),
            a as int == (if x0 < 0 { -x0 } else { x0 as int }),
            k <= d,
            rem < m,
            rem as int == (a * pow10(k as nat)) % (m as int),
        decreases d - k,
    {
        let next = mul10_mod(rem, m);
        proof {
            vstd::arithmetic::div_mod::lemma_mul_mod_noop_left(a * pow10(k as nat), 10, m as int);
            assert(pow10((k + 1) as nat) == 10 * pow10(k as nat));
            assert(a * (10 * pow10(k as nat)) == (a * pow10(k as nat)) * 10) by (nonlinear_arith);
        }
        rem = next;
        k = k + 1;
    }
    proof {
        lemma_pow10_pos(d as nat);
        let p = pow10(d as nat);
        lemma_mod_abs(x0 * p, y as int);
        assert((if x0 * p < 0 { -(x0 * p) } else { x0 * p }) == a * p) by (nonlinear_arith)
            requires
                p >= 1,
                a as int == (if x0 < 0 { -x0 } else { x0 as int }),
        ;
    }
    rem == 0
}

/// Whether `m1 * 10^e1` is an integer multiple of `m2 * 10^e2`, for `m2 != 0`.
pub fn decimal_is_multiple(m1: i128, e1: i32, m2: i128, e2: i32) -> (r: bool)
    requires
        m2 != 0,
    ensures
        r == fin_is_multiple(m1 as int, e1 as int, m2 as int, e2 as int),
{
    assert(pow10(0) == 1);
    if e1 >= e2 {
        let d = (e1 as i64 - e2 as i64) as u64;
        assert(m2 * pow10(0) == m2);
        scaled_is_multiple(m1, d, m2)
    } else {
        // the divisor is m2 * 10^d over the exponent e1
        let d = (e2 as i64 - e1 as i64) as u64;
        assert(m1 * pow10(0) == m1);
        if m1 == 0 {
            proof {
                lemma_pow10_pos(d as nat);
                let b = m2 * pow10(d as nat);
                assert(b != 0) by (nonlinear_arith)
                    requires
                        m2 != 0,
                        pow10(d as nat) >= 1,
                        b == m2 * pow10(d as nat),
                ;
                assert(0int % b == 0) by (nonlinear_arith)
                    requires
                        b != 0,
                ;
            }
            return true;
        }
        let mut b: i128 = m2;
        let mut k: u64 = 0;
        while k < d
            invariant
                k <= d,
                b as int == m2 * pow10(k as nat),
                m2 != 0,
                m1 != 0,
                e1 < e2,
                d as int == e2 - e1,
                m2 > 0 ==> b > 0,
                m2 < 0 ==> b < 0,
            decreases d - k,
        {
            match b.checked_mul(10) {
                Some(nb) => {
                    proof {
                        assert(pow10((k + 1) as nat) == 10 * pow10(k as nat));
                        assert(m2 * (10 * pow10(k as nat)) == 10 * (m2 * pow10(k as nat)))
                            by (nonlinear_arith);
                    }
                    b = nb;
                    k = k + 1;
                },
                None => {
                    // the divisor's magnitude exceeds that of any i128, and m1 != 0
                    proof {
                        let rest = (d - k - 1) as nat;
                        lemma_pow10_add(k as nat, (rest + 1) as nat);
                        assert((k + rest + 1) as nat == d as nat);
                        assert(pow10((rest + 1) as nat) == 10 * pow10(rest));
                        lemma_pow10_pos(rest);
                        let p = pow10(rest);
                        let big = m2 * pow10(d as nat);
                        assert(big == (b * 10) * p) by (nonlinear_arith)
                            requires
                                b as int == m2 * pow10(k as nat),
                                pow10(d as nat) == pow10(k as nat) * pow10((rest + 1) as nat),
                                pow10((rest + 1) as nat) == 10 * p,
                                big == m2 * pow10(d as nat),
                        ;
                        let bb = if big < 0 { -big } else { big };
                        assert(bb > (if m1 < 0 { -m1 } else { m1 as int })) by (nonlinear_arith)
                            requires
                                big == (b * 10) * p,
                                p >= 1,
                                b * 10 > i128::MAX || b * 10 < i128::MIN,
                                bb == (if big < 0 { -big } else { big }),
                                i128::MIN <= m1 <= i128::MAX,
                        ;
                        lemma_mod_abs(m1 as int, big);
                        let aa = if m1 < 0 { -m1 } else { m1 as int };
                        vstd::arithmetic::div_mod::lemma_small_mod(aa as nat, bb as nat);
                        assert(aa % bb != 0);
                        assert(m1 as int % big != 0);
                        assert(min_int(e1 as int, e2 as int) == e1 as int);
                        assert((e2 - e1) as nat == d as nat);
                        assert(aligned(m2 as int, e2 as int, e1 as int) == big);
                        assert(aligned(m1 as int, e1 as int, e1 as int) == m1 as int);
                    }
                    return false;
                },
            }
        }
        let am = abs_u128(m1);
        let bm = abs_u128(b);
        proof {
            lemma_mod_abs(m1 as int, b as int);
        }
        am % bm == 0
    }
}

/// Whether the number `num` breaks a "multiple of `m`" constraint (see [`ext_not_multiple`]).
pub fn number_not_multiple(num: &Number, m: &Number) -> (r: bool)
    ensures
        r == ext_not_multiple(num_ext(*num), num_ext(*m)),
{
    let en = ext_of(num);
    let em = ext_of(m);
    match (en, em) {
        (ExtExec::Fin(m1, e1), ExtExec::Fin(m2, e2)) => m2 != 0 && !decimal_is_multiple(m1, e1, m2, e2),
        (ExtExec::Fin(m1, _), ExtExec::PosInf) => m1 != 0,
        (ExtExec::Fin(m1, _), ExtExec::NegInf) => m1 != 0,
        _ => false,
    }
}

} // verus!
