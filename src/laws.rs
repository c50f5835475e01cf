use crate::approx::limit;
use crate::fraction::Fraction;
use crate::gcd::{
    gcd, lemma_gcd_commutes, lemma_gcd_divides, lemma_gcd_one, lemma_gcd_reduced, lemma_gcd_self,
};
use crate::model::{
    abs, abs_view, add_category, add_view, canonical, category_of, classify, div_view, fits_i32,
    i32_max, i32_min, is_negative_view, lemma_reduced_canonical, lemma_sentinel_canonical,
    mul_category, mul_view, neg_view, new_view, reciprocal_view, reduced, sentinel, sgn, sign_view,
    sub_view, Category,
};
use crate::ordering::compare_view;
use vstd::arithmetic::div_mod::lemma_div_basics;
use vstd::prelude::*;

verus! {

/// A whole number within the bound reduces to itself over one.
proof fn lemma_reduced_whole(s: int, x: nat)
    requires
        x <= limit(),
    ensures
        reduced(s, x, 1) == (s * x, 1int),
{
    lemma_gcd_one(x);
    lemma_div_basics(x as int);
}

/// Dividing numerator and denominator by their gcd leaves the reduced form as it was.
proof fn lemma_reduced_of_reduced(s: int, num: nat, den: nat)
    requires
        den > 0,
    ensures
        gcd(num, den) > 0,
        reduced(s, num / gcd(num, den), den / gcd(num, den)) == reduced(s, num, den),
{
    lemma_gcd_reduced(num, den);
    let g = gcd(num, den);
    lemma_div_basics((num / g) as int);
    lemma_div_basics((den / g) as int);
}

/// Dividing an integer by a positive divisor of it keeps its sign and divides its magnitude.
proof fn lemma_exact_division(n: int, g: nat)
    requires
        g > 0,
        abs(n) % g == 0,
    ensures
        abs(n / (g as int)) == abs(n) / g,
        sgn(n / (g as int)) == sgn(n),
        n == (g as int) * (n / (g as int)),
{
    let q = abs(n) / g;
    vstd::arithmetic::div_mod::lemma_fundamental_div_mod(abs(n) as int, g as int);
    assert(abs(n) == g * q);
    if n >= 0 {
        assert(n / (g as int) == q) by {
            vstd::arithmetic::div_mod::lemma_div_multiples_vanish(q as int, g as int);
        }
    } else {
        assert(n == (g as int) * (-q)) by (nonlinear_arith)
            requires
                -n == g * q,
        ;
        vstd::arithmetic::div_mod::lemma_div_multiples_vanish(-q, g as int);
    }
    assert(sgn(n / (g as int)) == sgn(n) && n == (g as int) * (n / (g as int))) by (nonlinear_arith)
        requires
            g > 0,
            abs(n) == g * q,
            q >= 0,
            n >= 0 ==> n / (g as int) == q,
            n < 0 ==> n / (g as int) == -q,
            n >= 0 ==> abs(n) == n,
            n < 0 ==> abs(n) == -n,
            sgn(n) == (if n > 0 { 1int } else if n < 0 { -1int } else { 0int }),
            sgn(n / (g as int)) == (if n / (g as int) > 0 { 1int } else if n / (g as int) < 0 { -1int } else { 0int }),
    ;
}

proof fn lemma_unit_product(s: int, t: int)
    requires
        s == 1 || s == -1,
        t == 1 || t == -1,
    ensures
        s * t == 1 || s * t == -1,
{
    assert(s * t == 1 || s * t == -1) by (nonlinear_arith)
        requires
            s == 1 || s == -1,
            t == 1 || t == -1,
    ;
}

/// What `new(n, d)` builds is canonical.
proof fn lemma_new_canonical(n: int, d: int)
    requires
        fits_i32(n),
        fits_i32(d),
    ensures
        canonical(new_view(n, d)),
{
    let c = classify(n, d);
    if c == Category::Normal {
        lemma_unit_product(sgn(n), sgn(d));
        lemma_reduced_canonical(sgn(n) * sgn(d), abs(n), abs(d));
    } else {
        lemma_sentinel_canonical(c);
    }
}

proof fn lemma_add_canonical(x: (int, int), y: (int, int))
    requires
        canonical(x),
        canonical(y),
    ensures
        canonical(add_view(x, y)),
{
    let c = add_category(category_of(x), category_of(y));
    if c == Category::Normal {
        let n = x.0 * y.1 + y.0 * x.1;
        assert(x.1 * y.1 > 0) by (nonlinear_arith)
            requires
                x.1 > 0,
                y.1 > 0,
        ;
        lemma_reduced_canonical(sgn(n), abs(n), (x.1 * y.1) as nat);
    } else {
        lemma_sentinel_canonical(c);
    }
}

proof fn lemma_mul_canonical(x: (int, int), y: (int, int))
    requires
        canonical(x),
        canonical(y),
    ensures
        canonical(mul_view(x, y)),
{
    let c = mul_category(
        category_of(x),
        is_negative_view(x),
        category_of(y),
        is_negative_view(y),
    );
    if c == Category::Normal {
        let n = x.0 * y.0;
        assert(x.1 * y.1 > 0) by (nonlinear_arith)
            requires
                x.1 > 0,
                y.1 > 0,
        ;
        assert(n != 0) by (nonlinear_arith)
            requires
                x.0 != 0,
                y.0 != 0,
                n == x.0 * y.0,
        ;
        lemma_reduced_canonical(sgn(n), abs(n), (x.1 * y.1) as nat);
    } else {
        lemma_sentinel_canonical(c);
    }
}

proof fn lemma_unary_canonical(x: (int, int))
    requires
        canonical(x),
    ensures
        canonical(neg_view(x)),
        canonical(abs_view(x)),
        canonical(reciprocal_view(x)),
        canonical(sign_view(x)),
{
    lemma_gcd_one(1);
    lemma_sentinel_canonical(Category::Infinity);
    lemma_sentinel_canonical(Category::NegInfinity);
    lemma_sentinel_canonical(Category::Zero);
    if category_of(x) == Category::Normal {
        lemma_gcd_commutes(abs(x.0), x.1 as nat);
        let r = reciprocal_view(x);
        assert(abs(r.0) == x.1 && r.0 != 0) by (nonlinear_arith)
            requires
                r.0 == sgn(x.0) * x.1,
                x.1 > 0,
                sgn(x.0) == (if x.0 > 0 { 1int } else { -1int }),
                abs(r.0) == (if r.0 >= 0 { r.0 } else { -r.0 }),
        ;
    }
}

/// Every result stays within the representation: the sum, difference, product, quotient,
/// negation, magnitude, reciprocal and sign of two fractions are canonical. A normal
/// result has numerator and denominator of magnitude at most `2^31 - 1`, a positive
/// denominator and no common factor; every other result is its category's sentinel.
pub proof fn law_results_canonical(a: Fraction, b: Fraction)
    requires
        a.wf(),
        b.wf(),
    ensures
        canonical(add_view(a@, b@)),
        canonical(sub_view(a@, b@)),
        canonical(mul_view(a@, b@)),
        canonical(div_view(a@, b@)),
        canonical(neg_view(a@)),
        canonical(abs_view(a@)),
        canonical(reciprocal_view(a@)),
        canonical(sign_view(a@)),
{
    lemma_unary_canonical(a@);
    lemma_unary_canonical(b@);
    lemma_add_canonical(a@, b@);
    lemma_add_canonical(a@, neg_view(b@));
    lemma_mul_canonical(a@, b@);
    lemma_mul_canonical(a@, reciprocal_view(b@));
}

/// Building a fraction from `n/d` or from `n/d` divided by `gcd(|n|, |d|)` gives the same
/// fraction: construction always reduces.
pub proof fn law_new_reduces(n: i32, d: i32)
    requires
        d != 0,
    ensures
        gcd(abs(n as int), abs(d as int)) > 0,
        new_view(n as int, d as int) == new_view(
            (n as int) / (gcd(abs(n as int), abs(d as int)) as int),
            (d as int) / (gcd(abs(n as int), abs(d as int)) as int),
        ),
        canonical(new_view(n as int, d as int)),
{
    lemma_new_canonical(n as int, d as int);
    let (an, ad) = (abs(n as int), abs(d as int));
    lemma_gcd_divides(an, ad);
    let g = gcd(an, ad);
    lemma_exact_division(n as int, g);
    lemma_exact_division(d as int, g);
    let (n2, d2) = ((n as int) / (g as int), (d as int) / (g as int));
    lemma_reduced_of_reduced(sgn(n as int) * sgn(d as int), an, ad);
    lemma_gcd_reduced(an, ad);
    if g == 1 {
        lemma_div_basics(n as int);
        lemma_div_basics(d as int);
    } else if n == 0 {
        assert(n2 == 0);
    } else {
        assert(abs(n2) <= an / 2 && an / 2 < 0x8000_0000) by {
            vstd::arithmetic::div_mod::lemma_div_is_ordered_by_denominator(an as int, 2, g as int);
        }
        assert(classify(n as int, d as int) == Category::Normal);
        lemma_reduced_of_reduced(sgn(n2) * sgn(d2), abs(n2), abs(d2));
        lemma_div_basics(abs(n2) as int);
        lemma_div_basics(abs(d2) as int);
        if classify(n2, d2) == Category::Infinity {
            lemma_reduced_whole(1, i32_max() as nat);
        }
    }
}

/// The sign of the denominator moves to the numerator: `new(n, -d) == new(-n, d)`.
pub proof fn law_sign_normalization(n: i32, d: i32)
    requires
        d != 0,
        n != i32::MIN,
        d != i32::MIN,
    ensures
        new_view(n as int, -d) == new_view(-n, d as int),
{
    let (sn, sd) = (sgn(n as int), sgn(d as int));
    assert(sgn(-n) == -sn && sgn(-d) == -sd);
    assert(sn * (-sd) == (-sn) * sd) by (nonlinear_arith);
    if n != 0 && (d == 1 || d == -1) {
        lemma_reduced_whole(-sn, abs(n as int));
        lemma_reduced_whole(sn, abs(n as int));
        assert(sn * abs(n as int) == n && (-sn) * abs(n as int) == -n) by (nonlinear_arith)
            requires
                n >= 0 ==> abs(n as int) == n,
                n < 0 ==> abs(n as int) == -n,
                sn == (if n > 0 { 1int } else if n < 0 { -1int } else { 0int }),
        ;
        assert(sn * 1 == sn && (-sn) * 1 == -sn && sn * -1 == -sn && (-sn) * -1 == sn);
    }
}

/// Adding zero leaves a fraction unchanged.
pub proof fn law_add_zero(a: Fraction)
    requires
        a.wf(),
    ensures
        add_view(a@, sentinel(Category::Zero)) == a@,
        Fraction::from_view(add_view(a@, sentinel(Category::Zero))) == a,
{
    Fraction::lemma_from_view(a);
    if category_of(a@) == Category::Normal {
        let x = a@;
        assert(x.0 * 1 + 0 * x.1 == x.0 && x.1 * 1 == x.1);
        lemma_reduced_of_reduced(sgn(x.0), abs(x.0), x.1 as nat);
        lemma_div_basics(abs(x.0) as int);
        lemma_div_basics(x.1);
        assert(sgn(x.0) * abs(x.0) == x.0) by (nonlinear_arith)
            requires
                x.0 >= 0 ==> abs(x.0) == x.0,
                x.0 < 0 ==> abs(x.0) == -x.0,
                sgn(x.0) == (if x.0 > 0 { 1int } else if x.0 < 0 { -1int } else { 0int }),
        ;
    }
}

/// A finite nonzero fraction times its reciprocal is one; `1/(2^31 - 1)` is left out,
/// as its reciprocal is positive infinity.
pub proof fn law_mul_reciprocal(a: Fraction)
    requires
        a.wf(),
        category_of(a@) == Category::Normal,
        a@ != (1int, i32_max()),
    ensures
        mul_view(a@, reciprocal_view(a@)) == (1int, 1int),
{
    let x = a@;
    let r = reciprocal_view(x);
    let m = abs(x.0) * x.1;
    assert(x.0 * r.0 == m && x.1 * r.1 == m && m > 0) by (nonlinear_arith)
        requires
            r.0 == sgn(x.0) * x.1,
            r.1 == abs(x.0),
            x.0 != 0,
            x.1 > 0,
            m == abs(x.0) * x.1,
            x.0 >= 0 ==> abs(x.0) == x.0,
            x.0 < 0 ==> abs(x.0) == -x.0,
            sgn(x.0) == (if x.0 > 0 { 1int } else { -1int }),
    ;
    assert(category_of(r) == Category::Normal);
    lemma_gcd_self(m as nat);
    lemma_div_basics(m as int);
    lemma_reduced_whole(1, 1);
}

/// Negating twice gives the fraction back; `-(2^31 - 1)` is left out, as its negation
/// is positive infinity.
pub proof fn law_double_negation(a: Fraction)
    requires
        a.wf(),
        a@ != (i32_min() + 1, 1int),
    ensures
        neg_view(neg_view(a@)) == a@,
        Fraction::from_view(neg_view(neg_view(a@))) == a,
{
    Fraction::lemma_from_view(a);
}

/// NaN is unordered against everything, itself included.
pub proof fn law_nan_unordered(a: Fraction, b: Fraction)
    requires
        category_of(a@) == Category::NaN || category_of(b@) == Category::NaN,
    ensures
        compare_view(a@, b@) is None,
{
}

} // verus!
