//! Comparisons between JSON values used by filters, sorting and expressions.

use vstd::prelude::*;
use crate::json::{Json, JsonV, Order, str_order, str_compare, json_eq};

verus! {

/// A number as a fraction `(numerator, denominator)` with a positive
/// denominator; `None` for anything else.
pub open spec fn fraction_of(v: JsonV) -> Option<(int, int)> {
    match v {
        JsonV::Number(n) => Some((n, 1int)),
        JsonV::Real(n, d) => if d > 0 { Some((n, d)) } else { None },
        _ => None,
    }
}

/// Equality of an optional (possibly missing) value with another, where a
/// missing value equals `null` and numbers are equal by value (`1 == 1.0`).
pub open spec fn values_equal_spec(a: Option<JsonV>, b: Option<JsonV>) -> bool {
    match a {
        None => match b {
            None => true,
            Some(y) => y is Null,
        },
        Some(x) => match b {
            None => false,
            Some(y) => match (fraction_of(x), fraction_of(y)) {
                (Some((p, q)), Some((r, s))) => p * s == r * q,
                _ => x == y,
            },
        },
    }
}

pub open spec fn int_order(a: int, b: int) -> Order {
    if a < b {
        Order::Less
    } else if a == b {
        Order::Equal
    } else {
        Order::Greater
    }
}

/// Order between two values of the same scalar type; values of different
/// types (and arrays or objects) are not comparable.
pub open spec fn compare_spec(a: Option<JsonV>, b: JsonV) -> Option<Order> {
    match a {
        None => None,
        Some(x) => match (x, b) {
            (JsonV::Number(m), JsonV::Number(n)) => Some(int_order(m, n)),
            (JsonV::Str(s), JsonV::Str(t)) => Some(str_order(s, t)),
            (JsonV::Bool(p), JsonV::Bool(q)) => Some(
                if p == q { Order::Equal } else if !p { Order::Less } else { Order::Greater },
            ),
            (JsonV::Null, JsonV::Null) => Some(Order::Equal),
            _ => match (fraction_of(x), fraction_of(b)) {
                (Some((p, q)), Some((r, s))) => Some(int_order(p * s, r * q)),
                _ => None,
            },
        },
    }
}

/// The fraction of a number held by the library.
pub fn fraction_exec(v: &Json) -> (r: Option<(i64, i64)>)
    ensures
        match r {
            Some((n, d)) => fraction_of(v@) == Some((n as int, d as int)) && d > 0,
            None => fraction_of(v@) is None,
        },
{
    match v {
        Json::Number(n) => Some((*n, 1)),
        Json::Real(n, d) => if *d > 0 { Some((*n, *d)) } else { None },
        Json::Array(x) => { proof { crate::json::lemma_array_view(*x); } None },
        Json::Object(x) => { proof { crate::json::lemma_object_view(*x); } None },
        _ => None,
    }
}

/// `p * s` and `r * q` for two fractions, without overflow.
pub fn cross_products(p: i64, q: i64, r: i64, s: i64) -> (c: (i128, i128))
    requires
        q > 0,
        s > 0,
    ensures
        c.0 == p * s,
        c.1 == r * q,
{
    proof {
        assert(-0x8000_0000_0000_0000_0000_0000_0000_0000 <= (p as int) * (s as int) <= 0x7fff_ffff_ffff_ffff_ffff_ffff_ffff_ffff)
            by (nonlinear_arith)
            requires
                -0x8000_0000_0000_0000 <= p <= 0x7fff_ffff_ffff_ffff,
                0 < s <= 0x7fff_ffff_ffff_ffff;
        assert(-0x8000_0000_0000_0000_0000_0000_0000_0000 <= (r as int) * (q as int) <= 0x7fff_ffff_ffff_ffff_ffff_ffff_ffff_ffff)
            by (nonlinear_arith)
            requires
                -0x8000_0000_0000_0000 <= r <= 0x7fff_ffff_ffff_ffff,
                0 < q <= 0x7fff_ffff_ffff_ffff;
    }
    ((p as i128) * (s as i128), (r as i128) * (q as i128))
}

/// The truth value of a value in an expression: `false`, `null` and `0` are false.
pub open spec fn is_truthy_spec(v: JsonV) -> bool {
    match v {
        JsonV::Null => false,
        JsonV::Bool(b) => b,
        JsonV::Number(n) => n != 0,
        JsonV::Real(n, _) => n != 0,
        _ => true,
    }
}

pub fn values_equal(a: Option<&Json>, b: Option<&Json>) -> (r: bool)
    ensures
        r == values_equal_spec(
            match a { Some(x) => Some(x@), None => None },
            match b { Some(y) => Some(y@), None => None },
        ),
{
    match a {
        None => match b {
            None => true,
            Some(y) => match y {
                Json::Null => true,
                Json::Array(v) => { proof { crate::json::lemma_array_view(*v); } false },
                Json::Object(v) => { proof { crate::json::lemma_object_view(*v); } false },
                _ => false,
            },
        },
        Some(x) => match b {
            None => false,
            Some(y) => match (fraction_exec(x), fraction_exec(y)) {
                (Some((p, q)), Some((r, s))) => {
                    let (a, c) = cross_products(p, q, r, s);
                    a == c
                },
                _ => json_eq(x, y),
            },
        },
    }
}

pub fn int_compare(a: i64, b: i64) -> (r: Order)
    ensures
        r == int_order(a as int, b as int),
{
    if a < b {
        Order::Less
    } else if a == b {
        Order::Equal
    } else {
        Order::Greater
    }
}

/// Compares two values of the same scalar type.
pub fn compare(a: Option<&Json>, b: &Json) -> (r: Option<Order>)
    ensures
        r == compare_spec(match a { Some(x) => Some(x@), None => None }, b@),
{
    match a {
        None => None,
        Some(x) => match (x, b) {
            (Json::Number(m), Json::Number(n)) => Some(int_compare(*m, *n)),
            (Json::String(s), Json::String(t)) => Some(str_compare(s.as_str(), t.as_str())),
            (Json::Bool(p), Json::Bool(q)) => Some(
                if *p == *q { Order::Equal } else if !*p { Order::Less } else { Order::Greater },
            ),
            (Json::Null, Json::Null) => Some(Order::Equal),
            _ => {
                if let (Some((p, q)), Some((r, s))) = (fraction_exec(x), fraction_exec(b)) {
                    let (a, c) = cross_products(p, q, r, s);
                    return Some(if a < c { Order::Less } else if a == c { Order::Equal } else { Order::Greater });
                }
                proof {
                    match x {
                        Json::Array(v) => crate::json::lemma_array_view(*v),
                        Json::Object(v) => crate::json::lemma_object_view(*v),
                        _ => {},
                    }
                    match b {
                        Json::Array(v) => crate::json::lemma_array_view(*v),
                        Json::Object(v) => crate::json::lemma_object_view(*v),
                        _ => {},
                    }
                }
                None
            },
        },
    }
}

/// The truth value of `v` in an expression.
pub fn is_truthy(v: &Json) -> (r: bool)
    ensures
        r == is_truthy_spec(v@),
{
    match v {
        Json::Null => false,
        Json::Bool(b) => *b,
        Json::Number(n) => *n != 0,
        Json::Real(n, _) => *n != 0,
        Json::Array(x) => { proof { crate::json::lemma_array_view(*x); } true },
        Json::Object(x) => { proof { crate::json::lemma_object_view(*x); } true },
        Json::String(_) => true,
    }
}

// ---------------------------------------------------------------------------
// Exact arithmetic on numbers held as fractions.
// ---------------------------------------------------------------------------

pub open spec fn gcd(a: nat, b: nat) -> nat
    decreases b,
{
    if b == 0 { a } else { gcd(b, a % b) }
}

pub proof fn lemma_gcd_bounds(a: nat, b: nat)
    requires
        b > 0,
    ensures
        0 < gcd(a, b) <= b,
    decreases b,
{
    assert(gcd(a, b) == gcd(b, a % b));
    if a % b != 0 {
        lemma_gcd_bounds(b, a % b);
    } else {
        assert(gcd(b, 0) == b);
    }
}

/// `n / d` (`d > 0`) in lowest terms, the numerator carrying the sign; `None`
/// when a part leaves the 64-bit range.
pub open spec fn reduced(n: int, d: int) -> Option<(int, int)> {
    let a = crate::json::abs_int(n);
    let g = gcd(a, d as nat);
    let q = (a / g) as int;
    let rn = if n < 0 { -q } else { q };
    let rd = ((d as nat) / g) as int;
    if i64::MIN <= rn <= i64::MAX && rd <= i64::MAX { Some((rn, rd)) } else { None }
}

/// A fraction in lowest terms as a value: a whole number when its
/// denominator is 1, else a `Real`.
pub open spec fn number_of_fraction(p: (int, int)) -> JsonV {
    if p.1 == 1 { JsonV::Number(p.0) } else { JsonV::Real(p.0, p.1) }
}

/// The fraction a value counts as in arithmetic: anything but a number counts as 0.
pub open spec fn frac_or_zero(v: JsonV) -> (int, int) {
    match fraction_of(v) {
        Some(p) => p,
        None => (0, 1),
    }
}

pub open spec fn frac_add(x: (int, int), y: (int, int)) -> Option<(int, int)> {
    reduced(x.0 * y.1 + y.0 * x.1, x.1 * y.1)
}

pub open spec fn frac_sub(x: (int, int), y: (int, int)) -> Option<(int, int)> {
    reduced(x.0 * y.1 - y.0 * x.1, x.1 * y.1)
}

pub open spec fn frac_mul(x: (int, int), y: (int, int)) -> Option<(int, int)> {
    reduced(x.0 * y.0, x.1 * y.1)
}

/// `x / y` for `y` not zero.
pub open spec fn frac_div(x: (int, int), y: (int, int)) -> Option<(int, int)> {
    if y.0 < 0 { reduced(-(x.0 * y.1), x.1 * (-y.0)) } else { reduced(x.0 * y.1, x.1 * y.0) }
}

/// The fraction a value counts as in arithmetic.
pub fn frac_or_zero_exec(v: &Json) -> (r: (i64, i64))
    ensures
        r.0 as int == frac_or_zero(v@).0,
        r.1 as int == frac_or_zero(v@).1,
        r.1 > 0,
{
    match fraction_exec(v) {
        Some(p) => p,
        None => (0, 1),
    }
}

/// `n / d` in lowest terms, for `d > 0`.
pub fn reduce_exec(n: i128, d: i128) -> (r: Option<(i64, i64)>)
    requires
        d > 0,
        n > i128::MIN,
    ensures
        match r {
            Some((a, b)) => reduced(n as int, d as int) == Some((a as int, b as int)) && b > 0,
            None => reduced(n as int, d as int) is None,
        },
{
    let a: u128 = if n < 0 { (-n) as u128 } else { n as u128 };
    assert(a as nat == crate::json::abs_int(n as int));
    let mut x: u128 = a;
    let mut y: u128 = d as u128;
    while y != 0
        invariant
            gcd(x as nat, y as nat) == gcd(a as nat, d as nat),
        decreases y,
    {
        let t = x % y;
        x = y;
        y = t;
    }
    let g = x;
    proof { lemma_gcd_bounds(a as nat, d as nat); }
    let q = a / g;
    let rd = (d as u128) / g;
    proof {
        assert(rd >= 1) by (nonlinear_arith)
            requires rd == (d as u128) / g, 0 < g <= d as u128;
    }
    if rd > 0x7fff_ffff_ffff_ffffu128 {
        return None;
    }
    if n < 0 {
        if q > 0x8000_0000_0000_0000u128 {
            return None;
        }
        let neg: i128 = -(q as i128);
        Some((neg as i64, rd as i64))
    } else {
        if q > 0x7fff_ffff_ffff_ffffu128 {
            return None;
        }
        Some((q as i64, rd as i64))
    }
}

proof fn lemma_product_bounds(a: int, b: int)
    requires
        -0x8000_0000_0000_0000 <= a <= 0x7fff_ffff_ffff_ffff,
        0 < b <= 0x7fff_ffff_ffff_ffff,
    ensures
        -0x4000_0000_0000_0000_0000_0000_0000_0000 < a * b < 0x4000_0000_0000_0000_0000_0000_0000_0000,
{
    assert(-0x4000_0000_0000_0000_0000_0000_0000_0000 < a * b < 0x4000_0000_0000_0000_0000_0000_0000_0000)
        by (nonlinear_arith)
        requires
            -0x8000_0000_0000_0000 <= a <= 0x7fff_ffff_ffff_ffff,
            0 < b <= 0x7fff_ffff_ffff_ffff;
}

/// `x + y` (or `x - y`) of two fractions.
pub fn frac_add_exec(x: (i64, i64), y: (i64, i64), subtract: bool) -> (r: Option<(i64, i64)>)
    requires
        x.1 > 0,
        y.1 > 0,
    ensures
        match r {
            Some((a, b)) => Some((a as int, b as int)) == (if subtract {
                frac_sub((x.0 as int, x.1 as int), (y.0 as int, y.1 as int))
            } else {
                frac_add((x.0 as int, x.1 as int), (y.0 as int, y.1 as int))
            }) && b > 0,
            None => (if subtract {
                frac_sub((x.0 as int, x.1 as int), (y.0 as int, y.1 as int))
            } else {
                frac_add((x.0 as int, x.1 as int), (y.0 as int, y.1 as int))
            }) is None,
        },
{
    proof {
        lemma_product_bounds(x.0 as int, y.1 as int);
        lemma_product_bounds(y.0 as int, x.1 as int);
        lemma_product_bounds(x.1 as int, y.1 as int);
        assert((x.1 as int) * (y.1 as int) > 0) by (nonlinear_arith)
            requires x.1 > 0, y.1 > 0;
    }
    let p: i128 = (x.0 as i128) * (y.1 as i128);
    let q: i128 = (y.0 as i128) * (x.1 as i128);
    let d: i128 = (x.1 as i128) * (y.1 as i128);
    let n: i128 = if subtract { p - q } else { p + q };
    reduce_exec(n, d)
}

/// `x * y` of two fractions.
pub fn frac_mul_exec(x: (i64, i64), y: (i64, i64)) -> (r: Option<(i64, i64)>)
    requires
        x.1 > 0,
        y.1 > 0,
    ensures
        match r {
            Some((a, b)) => Some((a as int, b as int)) == frac_mul((x.0 as int, x.1 as int), (y.0 as int, y.1 as int)) && b > 0,
            None => frac_mul((x.0 as int, x.1 as int), (y.0 as int, y.1 as int)) is None,
        },
{
    proof {
        assert(-0x4000_0000_0000_0000_0000_0000_0000_0000 <= (x.0 as int) * (y.0 as int) <= 0x4000_0000_0000_0000_0000_0000_0000_0000)
            by (nonlinear_arith)
            requires
                -0x8000_0000_0000_0000 <= x.0 <= 0x7fff_ffff_ffff_ffff,
                -0x8000_0000_0000_0000 <= y.0 <= 0x7fff_ffff_ffff_ffff;
        lemma_product_bounds(x.1 as int, y.1 as int);
        assert((x.1 as int) * (y.1 as int) > 0) by (nonlinear_arith)
            requires x.1 > 0, y.1 > 0;
    }
    let n: i128 = (x.0 as i128) * (y.0 as i128);
    let d: i128 = (x.1 as i128) * (y.1 as i128);
    reduce_exec(n, d)
}

/// `x / y` of two fractions, `y` not zero.
pub fn frac_div_exec(x: (i64, i64), y: (i64, i64)) -> (r: Option<(i64, i64)>)
    requires
        x.1 > 0,
        y.1 > 0,
        y.0 != 0,
    ensures
        match r {
            Some((a, b)) => Some((a as int, b as int)) == frac_div((x.0 as int, x.1 as int), (y.0 as int, y.1 as int)) && b > 0,
            None => frac_div((x.0 as int, x.1 as int), (y.0 as int, y.1 as int)) is None,
        },
{
    proof {
        lemma_product_bounds(x.0 as int, y.1 as int);
        assert(-0x4000_0000_0000_0000_0000_0000_0000_0000 <= (x.1 as int) * (y.0 as int) <= 0x4000_0000_0000_0000_0000_0000_0000_0000)
            by (nonlinear_arith)
            requires
                0 < x.1 <= 0x7fff_ffff_ffff_ffff,
                -0x8000_0000_0000_0000 <= y.0 <= 0x7fff_ffff_ffff_ffff;
    }
    let n: i128 = (x.0 as i128) * (y.1 as i128);
    let m: i128 = (x.1 as i128) * (y.0 as i128);
    if y.0 < 0 {
        proof {
            assert((x.1 as int) * (y.0 as int) < 0) by (nonlinear_arith)
                requires x.1 > 0, y.0 < 0;
            assert((x.1 as int) * (-(y.0 as int)) == -((x.1 as int) * (y.0 as int))) by (nonlinear_arith);
        }
        reduce_exec(-n, -m)
    } else {
        proof {
            assert((x.1 as int) * (y.0 as int) > 0) by (nonlinear_arith)
                requires x.1 > 0, y.0 > 0;
        }
        reduce_exec(n, m)
    }
}

/// Two numbers order as their fractions do, by cross-multiplication.
pub proof fn lemma_compare_numbers(a: JsonV, b: JsonV, p: int, q: int, r: int, s: int)
    requires
        fraction_of(a) == Some((p, q)),
        fraction_of(b) == Some((r, s)),
    ensures
        compare_spec(Some(a), b) == Some(int_order(p * s, r * q)),
{
    match (a, b) {
        (JsonV::Number(m), JsonV::Number(n)) => {
            assert(s == 1 && q == 1);
            assert(p * s == p && r * q == r) by (nonlinear_arith)
                requires s == 1, q == 1;
        },
        _ => {},
    }
}


/// `gcd(a, b)` divides both `a` and `b`.
pub proof fn lemma_gcd_divides(a: nat, b: nat)
    requires
        a > 0 || b > 0,
    ensures
        gcd(a, b) > 0,
        a % gcd(a, b) == 0,
        b % gcd(a, b) == 0,
    decreases b,
{
    if b == 0 {
        assert(gcd(a, 0) == a);
        assert(a % a == 0) by (nonlinear_arith) requires a > 0;
        assert(0nat % a == 0) by (nonlinear_arith) requires a > 0;
    } else {
        let r = a % b;
        assert(gcd(a, b) == gcd(b, r));
        lemma_gcd_divides(b, r);
        let g = gcd(b, r);
        vstd::arithmetic::div_mod::lemma_fundamental_div_mod(a as int, b as int);
        vstd::arithmetic::div_mod::lemma_fundamental_div_mod(b as int, g as int);
        vstd::arithmetic::div_mod::lemma_fundamental_div_mod(r as int, g as int);
        let qa = a / b;
        let kb = b / g;
        let kr = r / g;
        assert(b == g * kb);
        assert(r == g * kr);
        assert(a == g * (qa * kb + kr)) by (nonlinear_arith)
            requires a == b * qa + r, b == g * kb, r == g * kr;
        assert(a % g == 0) by {
            vstd::arithmetic::div_mod::lemma_mod_multiples_basic((qa * kb + kr) as int, g as int);
            assert((qa * kb + kr) * g == a) by (nonlinear_arith) requires a == g * (qa * kb + kr);
        }
    }
}

/// Lowest terms keep a fraction's value: where `reduced(n, d)` gives
/// `(p, q)` (for `d > 0`), `p / q == n / d` and `q > 0`.
pub proof fn lemma_reduced_value(n: int, d: int)
    requires
        d > 0,
        reduced(n, d) is Some,
    ensures
        match reduced(n, d) {
            Some(p) => p.1 > 0 && p.0 * d == n * p.1,
            None => false,
        },
{
    let a = crate::json::abs_int(n);
    let dn = d as nat;
    lemma_gcd_divides(a, dn);
    let g = gcd(a, dn);
    vstd::arithmetic::div_mod::lemma_fundamental_div_mod(a as int, g as int);
    vstd::arithmetic::div_mod::lemma_fundamental_div_mod(dn as int, g as int);
    let q = a / g;
    let rd = dn / g;
    assert(a == g * q);
    assert(dn == g * rd);
    assert(rd > 0) by (nonlinear_arith) requires dn == g * rd, dn > 0, g > 0;
    assert(q * dn == a * rd) by (nonlinear_arith) requires a == g * q, dn == g * rd;
    let p = reduced(n, d)->0;
    if n < 0 {
        assert(p.0 == -(q as int));
        assert((-(q as int)) * d == n * rd) by (nonlinear_arith) requires q * dn == a * rd, a == -n, dn == d;
    } else {
        assert(p.0 == q as int);
    }
}

/// A whole fraction is already in lowest terms.
pub proof fn lemma_reduced_whole(x: int)
    ensures
        reduced(x, 1) == (if i64::MIN <= x <= i64::MAX { Some((x, 1int)) } else { None::<(int, int)> }),
{
    let a = crate::json::abs_int(x);
    assert(a % 1 == 0nat);
    assert(gcd(1nat, 0nat) == 1nat);
    assert(gcd(a, 1nat) == gcd(1nat, a % 1)) by {
        reveal_with_fuel(gcd, 1);
    }
    assert(gcd(a, (1int) as nat) == 1nat);
    assert(a / 1nat == a);
    assert((1int as nat) / 1nat == 1nat);
}
} // verus!
