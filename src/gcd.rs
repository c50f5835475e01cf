use vstd::arithmetic::div_mod::{
    lemma_div_multiples_vanish, lemma_fundamental_div_mod, lemma_mod_multiples_basic,
    lemma_truncate_middle,
};
use vstd::prelude::*;

verus! {

/// Greatest common divisor, by Euclid's recurrence; `gcd(a, 0) == a`.
pub open spec fn gcd(a: nat, b: nat) -> nat
    decreases b,
{
    if b == 0 {
        a
    } else {
        gcd(b, a % b)
    }
}

/// `k` divides `a` (for a positive `k`).
pub open spec fn divides(k: int, a: int) -> bool {
    k > 0 && a % k == 0
}

proof fn lemma_divides_intro(k: int, m: int)
    requires
        k > 0,
    ensures
        divides(k, k * m),
{
    lemma_mod_multiples_basic(m, k);
    assert(m * k == k * m) by (nonlinear_arith);
}

proof fn lemma_divides_elim(k: int, a: int)
    requires
        divides(k, a),
    ensures
        a == k * (a / k),
{
    lemma_fundamental_div_mod(a, k);
}

/// `n` divides `m * n`.
pub proof fn lemma_divides_product(m: nat, n: nat)
    requires
        n > 0,
    ensures
        divides(n as int, (m * n) as int),
{
    lemma_divides_intro(n as int, m as int);
    assert(n * m == m * n) by (nonlinear_arith);
}

/// A common divisor of `a` and `b` divides `a % b` too.
proof fn lemma_divides_mod(k: int, a: int, b: int)
    requires
        divides(k, a),
        divides(k, b),
        b > 0,
    ensures
        divides(k, a % b),
{
    lemma_divides_elim(k, a);
    lemma_divides_elim(k, b);
    lemma_fundamental_div_mod(a, b);
    let s = a / k;
    let t = b / k;
    let q = a / b;
    assert(a % b == k * (s - t * q)) by (nonlinear_arith)
        requires
            a == k * s,
            b == k * t,
            a == b * q + a % b,
    ;
    lemma_divides_intro(k, s - t * q);
}

/// The gcd divides both arguments, and is positive unless both are zero.
pub proof fn lemma_gcd_divides(a: nat, b: nat)
    requires
        a > 0 || b > 0,
    ensures
        gcd(a, b) > 0,
        divides(gcd(a, b) as int, a as int),
        divides(gcd(a, b) as int, b as int),
        a == gcd(a, b) * (a / gcd(a, b)),
        b == gcd(a, b) * (b / gcd(a, b)),
    decreases b,
{
    if b == 0 {
        lemma_divides_intro(a as int, 1);
        lemma_divides_intro(a as int, 0);
    } else {
        lemma_gcd_divides(b, a % b);
        let g = gcd(a, b) as int;
        lemma_divides_elim(g, b as int);
        lemma_divides_elim(g, (a % b) as int);
        lemma_fundamental_div_mod(a as int, b as int);
        let t = (b as int) / g;
        let r = ((a % b) as int) / g;
        let q = (a as int) / (b as int);
        assert(a == g * (t * q + r)) by (nonlinear_arith)
            requires
                b == g * t,
                a % b == g * r,
                a == b * q + a % b,
        ;
        lemma_divides_intro(g, t * q + r);
    }
    lemma_divides_elim(gcd(a, b) as int, a as int);
    lemma_divides_elim(gcd(a, b) as int, b as int);
}

/// Every common divisor of `a` and `b` divides their gcd.
pub proof fn lemma_common_divisor(a: nat, b: nat, k: int)
    requires
        divides(k, a as int),
        divides(k, b as int),
    ensures
        divides(k, gcd(a, b) as int),
    decreases b,
{
    if b > 0 {
        lemma_divides_mod(k, a as int, b as int);
        lemma_common_divisor(b, a % b, k);
    }
}

/// A common factor comes out of the gcd.
pub proof fn lemma_gcd_scale(a: nat, b: nat, k: nat)
    requires
        k > 0,
    ensures
        gcd(k * a, k * b) == k * gcd(a, b),
    decreases b,
{
    if b == 0 {
        assert(k * b == 0);
    } else {
        assert(k * b > 0) by (nonlinear_arith)
            requires
                k > 0,
                b > 0,
        ;
        lemma_truncate_middle(a as int, k as int, b as int);
        lemma_gcd_scale(b, a % b, k);
    }
}

/// Dividing both arguments by their gcd leaves a coprime pair.
pub proof fn lemma_gcd_reduced(a: nat, b: nat)
    requires
        a > 0 || b > 0,
    ensures
        gcd(a, b) > 0,
        gcd(a / gcd(a, b), b / gcd(a, b)) == 1,
        b > 0 ==> b / gcd(a, b) > 0,
        a / gcd(a, b) <= a,
        b / gcd(a, b) <= b,
{
    lemma_gcd_divides(a, b);
    let g = gcd(a, b);
    lemma_divides_elim(g as int, a as int);
    lemma_divides_elim(g as int, b as int);
    lemma_gcd_scale(a / g, b / g, g);
    let h = gcd(a / g, b / g);
    assert(g * h == g);
    assert(h == 1) by (nonlinear_arith)
        requires
            g * h == g,
            g > 0,
    ;
    assert((b > 0 ==> b / g > 0) && a / g <= a && b / g <= b) by (nonlinear_arith)
        requires
            a == g * (a / g),
            b == g * (b / g),
            g > 0,
            a / g >= 0,
            b / g >= 0,
    ;
}

/// The gcd of `k * a` and `k * b`, divided out, leaves the gcd-reduced pair of `(a, b)`.
pub proof fn lemma_reduce_scaled(a: nat, b: nat, k: nat)
    requires
        k > 0,
        a > 0 || b > 0,
    ensures
        gcd(a, b) > 0,
        (k * a) / gcd(k * a, k * b) == a / gcd(a, b),
        (k * b) / gcd(k * a, k * b) == b / gcd(a, b),
{
    lemma_gcd_divides(a, b);
    lemma_gcd_scale(a, b, k);
    let g = gcd(a, b);
    lemma_divides_elim(g as int, a as int);
    lemma_divides_elim(g as int, b as int);
    let s = a / g;
    let t = b / g;
    assert(k * a == (k * g) * s && k * b == (k * g) * t) by (nonlinear_arith)
        requires
            a == g * s,
            b == g * t,
    ;
    assert(k * g > 0) by (nonlinear_arith)
        requires
            k > 0,
            g > 0,
    ;
    lemma_div_multiples_vanish(s as int, (k * g) as int);
    lemma_div_multiples_vanish(t as int, (k * g) as int);
}

/// A pair with a unit combination `x * u - y * v == ±1` is coprime.
pub proof fn lemma_unit_combination(x: nat, y: nat, u: int, v: int)
    requires
        x * u - y * v == 1 || x * u - y * v == -1,
    ensures
        gcd(x, y) == 1,
{
    if x == 0 && y == 0 {
        assert(x * u - y * v == 0) by (nonlinear_arith)
            requires
                x == 0,
                y == 0,
        ;
    }
    lemma_gcd_divides(x, y);
    let g = gcd(x, y) as int;
    lemma_divides_elim(g, x as int);
    lemma_divides_elim(g, y as int);
    let s = (x as int) / g;
    let t = (y as int) / g;
    let m = s * u - t * v;
    assert(x * u - y * v == g * m) by (nonlinear_arith)
        requires
            x == g * s,
            y == g * t,
            m == s * u - t * v,
    ;
    assert(g == 1) by (nonlinear_arith)
        requires
            g > 0,
            g * m == 1 || g * m == -1,
    ;
}

pub proof fn lemma_gcd_zero_left(b: nat)
    ensures
        gcd(0, b) == b,
{
    if b > 0 {
        assert(gcd(0, b) == gcd(b, 0));
    }
}

pub proof fn lemma_gcd_self(a: nat)
    ensures
        gcd(a, a) == a,
{
    if a > 0 {
        assert(a % a == 0) by {
            lemma_mod_multiples_basic(1, a as int);
        }
        assert(gcd(a, a) == gcd(a, 0));
    }
}

pub proof fn lemma_gcd_one(a: nat)
    ensures
        gcd(a, 1) == 1,
{
    assert(a % 1 == 0);
    assert(gcd(a, 1) == gcd(1, 0));
}

/// The gcd does not depend on the order of its arguments.
pub proof fn lemma_gcd_commutes(a: nat, b: nat)
    ensures
        gcd(a, b) == gcd(b, a),
{
    if a == 0 && b == 0 {
    } else {
        lemma_gcd_divides(a, b);
        lemma_gcd_divides(b, a);
        lemma_common_divisor(a, b, gcd(b, a) as int);
        lemma_common_divisor(b, a, gcd(a, b) as int);
        let g = gcd(a, b) as int;
        let h = gcd(b, a) as int;
        lemma_divides_elim(g, h);
        lemma_divides_elim(h, g);
        assert(g == h) by (nonlinear_arith)
            requires
                g > 0,
                h > 0,
                h == g * (h / g),
                g == h * (g / h),
        ;
    }
}

} // verus!
