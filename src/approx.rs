use crate::gcd::{gcd, lemma_common_divisor, lemma_divides_product};
use vstd::prelude::*;

verus! {

/// The bound on the magnitude of a numerator or denominator: `2^31 - 1`.
pub const LIMIT: u64 = 0x7fff_ffff;

pub open spec fn limit() -> nat {
    LIMIT as nat
}

/// One step of the continued-fraction expansion of `n / d`, seen from the
/// state `(n, d)` with the last two convergents `p0/q0` and `p1/q1`.
/// The walk stops when the remainder runs out or when the next convergent
/// would leave the bound; it yields the two last convergents reached.
pub open spec fn convergents(n: nat, d: nat, p0: nat, q0: nat, p1: nat, q1: nat) -> (
    nat,
    nat,
    nat,
    nat,
)
    decreases d,
{
    if d == 0 {
        (p0, q0, p1, q1)
    } else {
        let a = n / d;
        let p2 = p0 + a * p1;
        let q2 = q0 + a * q1;
        if p2 > limit() || q2 > limit() {
            (p0, q0, p1, q1)
        } else {
            convergents(d, n % d, p1, q1, p2, q2)
        }
    }
}

/// `|p * den - num * q|`: the distance of `p/q` from `num/den`, scaled by `q * den`.
pub open spec fn deviation(p: nat, q: nat, num: nat, den: nat) -> nat {
    let e = p * den - num * q;
    if e >= 0 {
        e as nat
    } else {
        (-e) as nat
    }
}

pub open spec fn min_nat(a: nat, b: nat) -> nat {
    if a <= b {
        a
    } else {
        b
    }
}

/// The largest multiplier `k` such that `(p0 + k * p1, q0 + k * q1)` stays within the bound.
pub open spec fn semi_multiplier(p0: nat, q0: nat, p1: nat, q1: nat) -> nat
    recommends
        p1 > 0,
        q1 > 0,
{
    min_nat(((limit() - q0) / q1 as int) as nat, ((limit() - p0) / p1 as int) as nat)
}

/// The choice between the last convergent `p1/q1` and the semiconvergent past it:
/// the one closer to `num/den`, the convergent on a tie.
pub open spec fn closer_candidate(num: nat, den: nat, p0: nat, q0: nat, p1: nat, q1: nat) -> (
    nat,
    nat,
) {
    if q1 == 0 {
        (limit(), 1)
    } else if p1 == 0 {
        (0, 1)
    } else {
        let k = semi_multiplier(p0, q0, p1, q1);
        let p2 = p0 + k * p1;
        let q2 = q0 + k * q1;
        if deviation(p1, q1, num, den) * q2 <= deviation(p2, q2, num, den) * q1 {
            (p1, q1)
        } else {
            (p2, q2)
        }
    }
}

/// The fraction within the bound that stands for `num/den`: the pair itself where it
/// fits, else the nearer of the last bounded convergent and its semiconvergent.
pub open spec fn approx(num: nat, den: nat) -> (nat, nat) {
    if num <= limit() && den <= limit() {
        (num, den)
    } else {
        let c = convergents(num, den, 0, 1, 1, 0);
        closer_candidate(num, den, c.0, c.1, c.2, c.3)
    }
}

/// What holds at each state of the expansion of `num/den`: `(n, d)` is the remaining
/// pair, `p0/q0` and `p1/q1` the last two convergents, within the bound, with unit
/// determinant. The denominators are zero only at the start, and the numerators only
/// where `num < den`, right after the first step.
pub open spec fn walk_state(num: nat, den: nat, n: nat, d: nat, p0: nat, q0: nat, p1: nat, q1: nat) -> bool {
    &&& p0 <= limit()
    &&& q0 <= limit()
    &&& p1 <= limit()
    &&& q1 <= limit()
    &&& num == p1 * n + p0 * d
    &&& den == q1 * n + q0 * d
    &&& (p1 * q0 - p0 * q1 == 1 || p1 * q0 - p0 * q1 == -1)
    &&& (q1 == 0 ==> p0 == 0 && q0 == 1 && p1 == 1)
    &&& (q1 > 0 ==> n > d)
    &&& (p1 == 0 ==> p0 == 1 && q0 == 0 && q1 == 1)
}

/// The walk ends in a state of the expansion, with the remaining pair `r`, where the
/// remainder ran out or the next convergent leaves the bound.
pub proof fn lemma_walk_end(num: nat, den: nat, n: nat, d: nat, p0: nat, q0: nat, p1: nat, q1: nat) -> (r: (nat, nat))
    requires
        walk_state(num, den, n, d, p0, q0, p1, q1),
    ensures
        ({
            let c = convergents(n, d, p0, q0, p1, q1);
            &&& walk_state(num, den, r.0, r.1, c.0, c.1, c.2, c.3)
            &&& (r.1 == 0 || c.0 + (r.0 / r.1) * c.2 > limit() || c.1 + (r.0 / r.1) * c.3
                > limit())
        }),
    decreases d,
{
    if d == 0 {
        (n, d)
    } else {
        let a = n / d;
        let p2 = p0 + a * p1;
        let q2 = q0 + a * q1;
        if p2 > limit() || q2 > limit() {
            (n, d)
        } else {
            let r = n % d;
            lemma_step_keeps(num as int, n as int, d as int, a as int, r as int, p0 as int, p1 as int);
            lemma_step_keeps(den as int, n as int, d as int, a as int, r as int, q0 as int, q1 as int);
            vstd::arithmetic::div_mod::lemma_mod_bound(n as int, d as int);
            assert(p2 * q1 - p1 * q2 == -(p1 * q0 - p0 * q1)) by (nonlinear_arith)
                requires
                    p2 == p0 + a * p1,
                    q2 == q0 + a * q1,
            ;
            if q1 > 0 {
                vstd::arithmetic::div_mod::lemma_div_is_ordered(d as int, n as int, d as int);
                vstd::arithmetic::div_mod::lemma_div_basics(d as int);
                assert(q2 >= 1 && (p1 >= 1 ==> p2 >= 1)) by (nonlinear_arith)
                    requires
                        a >= 1,
                        q1 >= 1,
                        q2 == q0 + a * q1,
                        p2 == p0 + a * p1,
                ;
            } else {
                assert(q2 == 1 && p2 == a);
            }
            lemma_walk_end(num, den, d, r, p1, q1, p2, q2)
        }
    }
}

/// What the approximation yields is a coprime pair within the bound, with a positive
/// denominator.
pub proof fn lemma_approx_bounded(num: nat, den: nat)
    requires
        den > 0,
        gcd(num, den) == 1,
    ensures
        approx(num, den).0 <= limit(),
        0 < approx(num, den).1 <= limit(),
        gcd(approx(num, den).0, approx(num, den).1) == 1,
{
    if num <= limit() && den <= limit() {
        return;
    }
    let r = lemma_walk_end(num, den, num, den, 0, 1, 1, 0);
    let c = convergents(num, den, 0, 1, 1, 0);
    let (p0, q0, p1, q1) = (c.0, c.1, c.2, c.3);
    if q1 == 0 {
        crate::gcd::lemma_gcd_one(limit());
        return;
    }
    if p1 == 0 {
        crate::gcd::lemma_gcd_zero_left(1);
        return;
    }
    let k = semi_multiplier(p0, q0, p1, q1);
    let ps = p0 + k * p1;
    let qs = q0 + k * q1;
    lemma_mul_div_le(k, (limit() - q0) as nat, q1);
    lemma_mul_div_le(k, (limit() - p0) as nat, p1);
    let dev_1 = deviation(p1, q1, num, den);
    let dev_s = deviation(ps, qs, num, den);
    if dev_1 * qs <= dev_s * q1 {
        crate::gcd::lemma_unit_combination(p1, q1, q0 as int, p0 as int);
    } else {
        assert(qs > 0) by (nonlinear_arith)
            requires
                !(dev_1 * qs <= dev_s * q1),
                dev_s >= 0,
                q1 >= 0,
                qs >= 0,
        ;
        assert(ps * q1 - qs * p1 == -(p1 * q0 - p0 * q1)) by (nonlinear_arith)
            requires
                ps == p0 + k * p1,
                qs == q0 + k * q1,
        ;
        crate::gcd::lemma_unit_combination(ps, qs, q1 as int, p1 as int);
    }
}

pub open spec fn abs_int(x: int) -> int {
    if x >= 0 {
        x
    } else {
        -x
    }
}

proof fn lemma_expand(a: int, b: int, c: int, e: int)
    ensures
        (a + b) * (c + e) == a * c + a * e + b * c + b * e,
{
    assert((a + b) * (c + e) == a * c + a * e + b * c + b * e) by (nonlinear_arith);
}

proof fn lemma_swap(a: int, b: int, c: int, e: int)
    ensures
        (a * b) * (c * e) == (c * b) * (e * a),
        (a * b) * c == (c * b) * a,
        (a * b) * c == c * (a * b),
{
    assert((a * b) * (c * e) == (c * b) * (e * a)) by (nonlinear_arith);
    assert((a * b) * c == (c * b) * a) by (nonlinear_arith);
    assert((a * b) * c == c * (a * b)) by (nonlinear_arith);
}

proof fn lemma_factor(s: int, x: int, y: int)
    ensures
        s * x - s * y == s * (x - y),
        x * s - y * s == s * (x - y),
{
    assert(s * x - s * y == s * (x - y)) by (nonlinear_arith);
    assert(x * s - y * s == s * (x - y)) by (nonlinear_arith);
}

/// The cross products of `num/den` with the semiconvergent `(p0 + k p1)/(q0 + k q1)` and the
/// convergent `p1/q1`, where `num == p1 * n + p0 * d` and `den == q1 * n + q0 * d`.
proof fn lemma_cross_products(p0: int, q0: int, p1: int, q1: int, n: int, d: int, k: int)
    ensures
        (p1 * n + p0 * d) * (q0 + k * q1) - (q1 * n + q0 * d) * (p0 + k * p1) == (p1 * q0 - p0
            * q1) * (n - k * d),
        (p1 * n + p0 * d) * q1 - (q1 * n + q0 * d) * p1 == -(p1 * q0 - p0 * q1) * d,
        p1 * (q0 + k * q1) - (p0 + k * p1) * q1 == p1 * q0 - p0 * q1,
{
    let sigma = p1 * q0 - p0 * q1;
    lemma_expand(p1 * n, p0 * d, q0, k * q1);
    lemma_expand(q1 * n, q0 * d, p0, k * p1);
    lemma_swap(p1, n, k, q1);
    lemma_swap(q1, n, k, p1);
    assert((p1 * n) * (k * q1) == (q1 * n) * (k * p1)) by (nonlinear_arith);
    assert((p0 * d) * q0 == (q0 * d) * p0) by (nonlinear_arith);
    assert((p1 * n) * q0 - (q1 * n) * p0 == sigma * n) by (nonlinear_arith)
        requires
            sigma == p1 * q0 - p0 * q1,
    ;
    assert((p0 * d) * (k * q1) == (p0 * q1) * (k * d)) by (nonlinear_arith);
    assert((q0 * d) * (k * p1) == (p1 * q0) * (k * d)) by (nonlinear_arith);
    lemma_factor(k * d, p1 * q0, p0 * q1);
    assert((k * d) * sigma == sigma * (k * d)) by (nonlinear_arith);
    lemma_factor(sigma, n, k * d);
    assert((p1 * n + p0 * d) * q1 - (q1 * n + q0 * d) * p1 == -(p1 * q0 - p0 * q1) * d)
        by (nonlinear_arith);
    assert(p1 * (q0 + k * q1) - (p0 + k * p1) * q1 == p1 * q0 - p0 * q1) by (nonlinear_arith);
}

/// The cross product with a combination of two fractions is the combination of their
/// cross products.
proof fn lemma_combination(num: int, den: int, ps: int, qs: int, p1: int, q1: int, ca: int, cb: int)
    ensures
        num * (qs * cb + q1 * ca) - den * (p1 * ca + ps * cb) == cb * (num * qs - den * ps) + ca * (
        num * q1 - den * p1),
{
    assert(num * (qs * cb + q1 * ca) == num * (qs * cb) + num * (q1 * ca)) by (nonlinear_arith);
    assert(den * (p1 * ca + ps * cb) == den * (p1 * ca) + den * (ps * cb)) by (nonlinear_arith);
    assert(num * (qs * cb) == cb * (num * qs)) by (nonlinear_arith);
    assert(num * (q1 * ca) == ca * (num * q1)) by (nonlinear_arith);
    assert(den * (p1 * ca) == ca * (den * p1)) by (nonlinear_arith);
    assert(den * (ps * cb) == cb * (den * ps)) by (nonlinear_arith);
    lemma_factor(cb, num * qs, den * ps);
    lemma_factor(ca, num * q1, den * p1);
}

proof fn lemma_abs_unit(sigma: int, x: int)
    requires
        sigma == 1 || sigma == -1,
    ensures
        abs_int(sigma * x) == abs_int(x),
        abs_int(-(sigma * x)) == abs_int(x),
{
    if sigma == 1 {
        assert(sigma * x == x);
    } else {
        assert(sigma * x == -x);
    }
}

/// Against two fractions `ps/qs` and `p1/q1` of unit determinant `sigma`, every pair
/// `(e, f)` has integer coordinates: it is `a` times the one plus `b` times the other.
proof fn lemma_neighbor_coordinates(ps: int, qs: int, p1: int, q1: int, sigma: int, e: int, f: int)
    requires
        p1 * qs - ps * q1 == sigma,
        sigma == 1 || sigma == -1,
    ensures
        f == qs * (sigma * (p1 * f - e * q1)) + q1 * (sigma * (e * qs - ps * f)),
        e == p1 * (sigma * (e * qs - ps * f)) + ps * (sigma * (p1 * f - e * q1)),
{
    if sigma == 1 {
        assert(f == qs * (p1 * f - e * q1) + q1 * (e * qs - ps * f) && e == p1 * (e * qs - ps
            * f) + ps * (p1 * f - e * q1)) by (nonlinear_arith)
            requires
                p1 * qs - ps * q1 == 1,
        ;
    } else {
        assert(f == qs * (-(p1 * f - e * q1)) + q1 * (-(e * qs - ps * f)) && e == p1 * (-(e * qs
            - ps * f)) + ps * (-(p1 * f - e * q1))) by (nonlinear_arith)
            requires
                p1 * qs - ps * q1 == -1,
        ;
    }
    assert(sigma * (p1 * f - e * q1) == (if sigma == 1 { p1 * f - e * q1 } else { -(p1 * f - e * q1) }));
    assert(sigma * (e * qs - ps * f) == (if sigma == 1 { e * qs - ps * f } else { -(e * qs - ps * f) }));
}

/// A pair on the outer side of one of two neighbouring candidates is no nearer than the
/// nearer candidate. With `u` and `v` the scaled distances of the semiconvergent and the
/// convergent, `b` and `a` the pair's coordinates, and `dev_r/rq` the chosen candidate.
proof fn lemma_outside_no_nearer(a: int, b: int, u: int, v: int, qs: int, q1: int, f: int, dev_r: int, rq: int)
    requires
        u > 0,
        v > 0,
        q1 >= 1,
        qs >= 0,
        f >= 1,
        f == qs * b + q1 * a,
        !(a >= 1 && b >= 1),
        (dev_r == v && rq == q1 && v * qs <= u * q1) || (dev_r == u && rq == qs && u * q1 < v
            * qs),
    ensures
        abs_int(b * u - a * v) * rq >= dev_r * f,
{
    if a <= 0 && b <= 0 {
        assert(f <= 0) by (nonlinear_arith)
            requires
                f == qs * b + q1 * a,
                a <= 0,
                b <= 0,
                qs >= 0,
                q1 >= 1,
        ;
    } else if a <= 0 {
        let e = b * u - a * v;
        assert(e >= b * u && b * u > 0 && f <= qs * b && qs >= 1) by (nonlinear_arith)
            requires
                e == b * u - a * v,
                f == qs * b + q1 * a,
                a <= 0,
                b >= 1,
                u > 0,
                v > 0,
                q1 >= 1,
                qs >= 0,
                f >= 1,
        ;
        assert(e * qs >= u * f) by (nonlinear_arith)
            requires
                e >= b * u,
                f <= qs * b,
                qs >= 1,
                u > 0,
        ;
        if dev_r == v && rq == q1 && v * qs <= u * q1 {
            assert(e * q1 >= v * f) by (nonlinear_arith)
                requires
                    e * qs >= u * f,
                    v * qs <= u * q1,
                    qs >= 1,
                    q1 >= 1,
                    f >= 1,
                    v > 0,
            ;
        }
    } else {
        let e = b * u - a * v;
        assert(-e >= a * v && a * v > 0 && f <= q1 * a) by (nonlinear_arith)
            requires
                e == b * u - a * v,
                f == qs * b + q1 * a,
                a >= 1,
                b <= 0,
                u > 0,
                v > 0,
                qs >= 0,
        ;
        assert((-e) * q1 >= v * f) by (nonlinear_arith)
            requires
                -e >= a * v,
                f <= q1 * a,
                q1 >= 1,
                v > 0,
        ;
        if dev_r == u && rq == qs && u * q1 < v * qs {
            assert((-e) * qs >= u * f) by (nonlinear_arith)
                requires
                    (-e) * q1 >= v * f,
                    u * q1 < v * qs,
                    qs >= 0,
                    q1 >= 1,
                    f >= 1,
                    u > 0,
            ;
        }
    }
}

/// No fraction within the bound, with a denominator at most that of `approx(num, den)`,
/// is nearer to `num/den`: `|e/f - num/den| >= |n/d - num/den|` for `(n, d) = approx(num, den)`,
/// written with the products cleared.
pub proof fn law_approx_nearest(num: nat, den: nat, e: nat, f: nat)
    requires
        den > 0,
        gcd(num, den) == 1,
        e <= limit(),
        1 <= f <= limit(),
        f <= approx(num, den).1,
    ensures
        deviation(e, f, num, den) * approx(num, den).1 >= deviation(
            approx(num, den).0,
            approx(num, den).1,
            num,
            den,
        ) * f,
{
    let res = approx(num, den);
    if num <= limit() && den <= limit() {
        assert(res == (num, den));
        assert(num * den - num * den == 0);
        assert(deviation(num, den, num, den) == 0);
        assert(0 * f == 0);
        return;
    }
    let r = lemma_walk_end(num, den, num, den, 0, 1, 1, 0);
    let c = convergents(num, den, 0, 1, 1, 0);
    let (n, d) = (r.0, r.1);
    let (p0, q0, p1, q1) = (c.0, c.1, c.2, c.3);
    if d == 0 {
        assert(p0 * d == 0 && q0 * d == 0) by (nonlinear_arith)
            requires
                d == 0,
        ;
        assert(num == p1 * n && den == q1 * n);
        assert(n > 0);
        lemma_divides_product(p1, n);
        lemma_divides_product(q1, n);
        lemma_common_divisor(num, den, n as int);
        if n > 1 {
            vstd::arithmetic::div_mod::lemma_small_mod(1, n);
        }
        assert(n == 1);
        assert(p1 * 1 == p1 && q1 * 1 == q1);
        assert(false);
    }
    let a = n / d;
    vstd::arithmetic::div_mod::lemma_fundamental_div_mod(n as int, d as int);
    vstd::arithmetic::div_mod::lemma_mod_bound(n as int, d as int);
    if q1 == 0 {
        // only the first quotient was taken: it alone exceeds the bound
        assert(num == n && den == d && a * p1 == a && a * q1 == 0) by (nonlinear_arith)
            requires
                num == p1 * n + p0 * d,
                den == q1 * n + q0 * d,
                p1 == 1,
                p0 == 0,
                q1 == 0,
                q0 == 1,
        ;
        assert(a > limit());
        assert(res == (limit(), 1nat));
        assert(num >= (limit() + 1) * den) by (nonlinear_arith)
            requires
                num == den * a + num % den,
                num % den >= 0,
                a >= limit() + 1,
                den > 0,
        ;
        assert(deviation(e, f, num, den) * 1 >= deviation(limit(), 1, num, den) * f)
            by (nonlinear_arith)
            requires
                num >= (limit() + 1) * den,
                e <= limit(),
                f >= 1,
                den > 0,
                deviation(e, f, num, den) == abs_int(e * den - num * f),
                deviation(limit(), 1, num, den) == abs_int(limit() * den - num * 1),
                abs_int(e * den - num * f) == (if e * den - num * f >= 0 { e * den - num * f } else { -(e * den - num * f) }),
                abs_int(limit() * den - num * 1) == (if limit() * den - num * 1 >= 0 { limit() * den - num * 1 } else { -(limit() * den - num * 1) }),
        ;
        return;
    }
    if p1 == 0 {
        // num/den is below one over the bound; the nearest whole number is zero
        assert(num == d && den == n) by (nonlinear_arith)
            requires
                num == p1 * n + p0 * d,
                den == q1 * n + q0 * d,
                p1 == 0,
                p0 == 1,
                q1 == 1,
                q0 == 0,
        ;
        assert(a * p1 == 0 && a * q1 == a) by (nonlinear_arith)
            requires
                p1 == 0,
                q1 == 1,
        ;
        assert(a > limit());
        assert(res == (0nat, 1nat));
        assert(f == 1);
        assert(den >= 2 * num) by (nonlinear_arith)
            requires
                den == num * a + den % num,
                den % num >= 0,
                a >= limit() + 1,
                num > 0,
        ;
        assert(deviation(e, 1, num, den) >= deviation(0, 1, num, den)) by (nonlinear_arith)
            requires
                den >= 2 * num,
                num > 0,
                deviation(e, 1, num, den) == abs_int(e * den - num * 1),
                deviation(0, 1, num, den) == abs_int(0 * den - num * 1),
                abs_int(e * den - num * 1) == (if e * den - num * 1 >= 0 { e * den - num * 1 } else { -(e * den - num * 1) }),
                abs_int(0 * den - num * 1) == num,
        ;
        return;
    }
    let k = semi_multiplier(p0, q0, p1, q1);
    let ps = p0 + k * p1;
    let qs = q0 + k * q1;
    let kq = ((limit() - q0) / q1 as int) as nat;
    let kp = ((limit() - p0) / p1 as int) as nat;
    lemma_mul_div_le(k, (limit() - q0) as nat, q1);
    lemma_mul_div_le(k, (limit() - p0) as nat, p1);
    vstd::arithmetic::div_mod::lemma_fundamental_div_mod((limit() - q0) as int, q1 as int);
    vstd::arithmetic::div_mod::lemma_mod_bound((limit() - q0) as int, q1 as int);
    vstd::arithmetic::div_mod::lemma_fundamental_div_mod((limit() - p0) as int, p1 as int);
    vstd::arithmetic::div_mod::lemma_mod_bound((limit() - p0) as int, p1 as int);
    // one more step of the semiconvergent leaves the bound
    assert(ps + p1 > limit() || qs + q1 > limit()) by (nonlinear_arith)
        requires
            k == kq || k == kp,
            k <= kq,
            k <= kp,
            (limit() - q0) == q1 * kq + (limit() - q0) % (q1 as int),
            (limit() - q0) % (q1 as int) < q1,
            (limit() - p0) == p1 * kp + (limit() - p0) % (p1 as int),
            (limit() - p0) % (p1 as int) < p1,
            ps == p0 + k * p1,
            qs == q0 + k * q1,
            q0 <= limit(),
            p0 <= limit(),
    ;
    // the semiconvergent stops short of the next convergent
    assert(k < a) by (nonlinear_arith)
        requires
            p0 + a * p1 > limit() || q0 + a * q1 > limit(),
            ps == p0 + k * p1,
            qs == q0 + k * q1,
            ps <= limit(),
            qs <= limit(),
            p1 >= 1,
            q1 >= 1,
    ;
    let sigma = p1 * q0 - p0 * q1;
    let u = n - k * d;
    assert(u >= d) by (nonlinear_arith)
        requires
            u == n - k * d,
            n == d * a + n % d,
            n % d >= 0,
            k + 1 <= a,
            d > 0,
    ;
    lemma_cross_products(p0 as int, q0 as int, p1 as int, q1 as int, n as int, d as int, k as int);
    lemma_neighbor_coordinates(ps as int, qs as int, p1 as int, q1 as int, sigma, e as int, f as int);
    let ca = sigma * (e * qs - ps * f);
    let cb = sigma * (p1 * f - e * q1);
    assert(!(ca >= 1 && cb >= 1)) by (nonlinear_arith)
        requires
            f == qs * cb + q1 * ca,
            e == p1 * ca + ps * cb,
            ps + p1 > limit() || qs + q1 > limit(),
            e <= limit(),
            f <= limit(),
            p1 >= 0,
            ps >= 0,
            q1 >= 0,
            qs >= 0,
    ;
    lemma_combination(num as int, den as int, ps as int, qs as int, p1 as int, q1 as int, ca, cb);
    assert(num * f - den * e == cb * (sigma * u) + ca * (-sigma * d));
    assert(cb * (sigma * u) + ca * (-sigma * d) == sigma * (cb * u - ca * d)) by (nonlinear_arith);
    lemma_abs_unit(sigma, cb * u - ca * d);
    assert(e * den - num * f == -(sigma * (cb * u - ca * d)));
    assert(deviation(e, f, num, den) == abs_int(cb * u - ca * d));
    assert(ps * den - num * qs == -(sigma * u)) by (nonlinear_arith)
        requires
            num * qs - den * ps == sigma * u,
    ;
    assert(p1 * den - num * q1 == -(-sigma * d)) by (nonlinear_arith)
        requires
            num * q1 - den * p1 == -sigma * d,
    ;
    lemma_abs_unit(sigma, u);
    lemma_abs_unit(-sigma, d as int);
    assert(deviation(ps, qs, num, den) == u);
    assert(deviation(p1, q1, num, den) == d);
    lemma_outside_no_nearer(ca, cb, u, d as int, qs as int, q1 as int, f as int, deviation(res.0, res.1, num, den) as int, res.1 as int);
}

/// A step of the expansion does not overflow: with `total == p1 * n + p0 * d` and
/// `q == n / d`, the next convergent part `p0 + q * p1` is at most `total`.
pub proof fn lemma_step_bounded(total: int, n: int, d: int, q: int, p0: int, p1: int)
    requires
        d > 0,
        n >= 0,
        p0 >= 0,
        p1 >= 0,
        q == n / d,
        total == p1 * n + p0 * d,
    ensures
        0 <= q * p1,
        p0 + q * p1 <= total,
{
    vstd::arithmetic::div_mod::lemma_fundamental_div_mod(n, d);
    vstd::arithmetic::div_mod::lemma_mod_bound(n, d);
    vstd::arithmetic::div_mod::lemma_div_pos_is_pos(n, d);
    assert(0 <= q * p1 && p0 + q * p1 <= total) by (nonlinear_arith)
        requires
            d > 0,
            q >= 0,
            p0 >= 0,
            p1 >= 0,
            n == d * q + n % d,
            n % d >= 0,
            total == p1 * n + p0 * d,
    ;
}

/// A step of the expansion keeps `total == p1 * n + p0 * d` for the next state.
pub proof fn lemma_step_keeps(total: int, n: int, d: int, q: int, r: int, p0: int, p1: int)
    requires
        d > 0,
        q == n / d,
        r == n % d,
        total == p1 * n + p0 * d,
    ensures
        total == (p0 + q * p1) * d + p1 * r,
{
    vstd::arithmetic::div_mod::lemma_fundamental_div_mod(n, d);
    assert(total == (p0 + q * p1) * d + p1 * r) by (nonlinear_arith)
        requires
            n == d * q + r,
            total == p1 * n + p0 * d,
    ;
}

pub proof fn lemma_mul_div_le(k: nat, a: nat, b: nat)
    requires
        b > 0,
        k <= a / b,
    ensures
        k * b <= a,
{
    vstd::arithmetic::div_mod::lemma_fundamental_div_mod(a as int, b as int);
    vstd::arithmetic::div_mod::lemma_mod_bound(a as int, b as int);
    assert(k * b <= a) by (nonlinear_arith)
        requires
            b > 0,
            k <= a / b,
            a == b * (a / b) + a % b,
            a % b >= 0,
    ;
}

} // verus!
