use crate::approx::{approx, lemma_approx_bounded, limit};
use crate::gcd::{gcd, lemma_gcd_reduced, lemma_gcd_zero_left};
use vstd::prelude::*;

verus! {

/// The kind of value a fraction stands for.
#[derive(Debug, Clone, Copy, PartialEq, Eq, Structural, Hash)]
pub enum Category {
    Normal,
    Infinity,
    NegInfinity,
    Zero,
    NaN,
}

pub open spec fn i32_max() -> int {
    0x7fff_ffff
}

pub open spec fn i32_min() -> int {
    -0x8000_0000
}

pub open spec fn fits_i32(n: int) -> bool {
    i32_min() <= n <= i32_max()
}

pub open spec fn abs(n: int) -> nat {
    if n >= 0 {
        n as nat
    } else {
        (-n) as nat
    }
}

pub open spec fn sgn(n: int) -> int {
    if n > 0 {
        1
    } else if n < 0 {
        -1
    } else {
        0
    }
}

/// The category of a raw `(numerator, denominator)` pair.
pub open spec fn classify(n: int, d: int) -> Category {
    if d == 0 {
        if n > 0 {
            Category::Infinity
        } else if n < 0 {
            Category::NegInfinity
        } else {
            Category::NaN
        }
    } else if n == 0 {
        Category::Zero
    } else if d == 1 && n == i32_max() {
        Category::Infinity
    } else if d == 1 && n == i32_min() {
        Category::NegInfinity
    } else {
        Category::Normal
    }
}

/// The one representation of each special category.
pub open spec fn sentinel(c: Category) -> (int, int) {
    match c {
        Category::Infinity => (i32_max(), 1),
        Category::NegInfinity => (i32_min(), 1),
        Category::NaN => (0, 0),
        _ => (0, 1),
    }
}

/// What every fraction's `(numerator, denominator)` satisfies: a special category has
/// its sentinel; a normal value has a positive denominator, is in lowest terms, and
/// both parts are at most `2^31 - 1` in magnitude.
pub open spec fn canonical(v: (int, int)) -> bool {
    let c = classify(v.0, v.1);
    if c == Category::Normal {
        &&& 0 < v.1 <= limit()
        &&& abs(v.0) <= limit()
        &&& gcd(abs(v.0), v.1 as nat) == 1
    } else {
        v == sentinel(c)
    }
}

/// A coprime pair within the bound, with a sign, is canonical.
pub proof fn lemma_signed_canonical(s: int, a: nat, b: nat)
    requires
        s == 1 || s == -1 || a == 0,
        a <= limit(),
        0 < b <= limit(),
        gcd(a, b) == 1,
    ensures
        canonical(signed(s, (a, b))),
{
    lemma_gcd_zero_left(b);
    let v = signed(s, (a, b));
    assert(abs(v.0) == a) by (nonlinear_arith)
        requires
            v.0 == s * a,
            s == 1 || s == -1 || a == 0,
    ;
}

/// A reduced and bounded value is canonical.
pub proof fn lemma_reduced_canonical(s: int, num: nat, den: nat)
    requires
        den > 0,
        s == 1 || s == -1 || num == 0,
    ensures
        canonical(reduced(s, num, den)),
{
    lemma_gcd_reduced(num, den);
    let g = gcd(num, den);
    lemma_approx_bounded(num / g, den / g);
    if num == 0 {
        lemma_gcd_zero_left(den / g);
        assert(0nat / g == 0) by {
            vstd::arithmetic::div_mod::lemma_div_basics(g as int);
        }
    }
    lemma_signed_canonical(s, approx(num / g, den / g).0, approx(num / g, den / g).1);
}

/// Each special category's sentinel is canonical.
pub proof fn lemma_sentinel_canonical(c: Category)
    requires
        c != Category::Normal,
    ensures
        canonical(sentinel(c)),
        category_of(sentinel(c)) == c,
{
}

pub open spec fn signed(s: int, p: (nat, nat)) -> (int, int) {
    (s * p.0, p.1 as int)
}

/// `num/den` with sign `s`, in lowest terms, brought within the bound.
pub open spec fn reduced(s: int, num: nat, den: nat) -> (int, int) {
    let g = gcd(num, den);
    signed(s, approx(num / g, den / g))
}

/// The fraction that `new(n, d)` builds.
pub open spec fn new_view(n: int, d: int) -> (int, int) {
    let c = classify(n, d);
    if c == Category::Normal {
        reduced(sgn(n) * sgn(d), abs(n), abs(d))
    } else {
        sentinel(c)
    }
}

/// The fraction that an integer converts to: itself over one, or NaN where it does not
/// fit in an `i32`.
pub open spec fn int_view(v: int) -> (int, int) {
    if fits_i32(v) {
        (v, 1)
    } else {
        (0, 0)
    }
}

pub open spec fn add_category(a: Category, b: Category) -> Category {
    if a == Category::NaN || b == Category::NaN {
        Category::NaN
    } else if (a == Category::Infinity && b == Category::NegInfinity) || (a
        == Category::NegInfinity && b == Category::Infinity) {
        Category::NaN
    } else if a == Category::Infinity || b == Category::Infinity {
        Category::Infinity
    } else if a == Category::NegInfinity || b == Category::NegInfinity {
        Category::NegInfinity
    } else if a == Category::Zero && b == Category::Zero {
        Category::Zero
    } else {
        Category::Normal
    }
}

/// The category of a product; `neg_a` and `neg_b` say whether each factor is negative.
pub open spec fn mul_category(a: Category, neg_a: bool, b: Category, neg_b: bool) -> Category {
    if a == Category::NaN || b == Category::NaN {
        Category::NaN
    } else if ((a == Category::Infinity || a == Category::NegInfinity) && b == Category::Zero) || (
    a == Category::Zero && (b == Category::Infinity || b == Category::NegInfinity)) {
        Category::NaN
    } else if a == Category::Zero || b == Category::Zero {
        Category::Zero
    } else if a == Category::Normal && b == Category::Normal {
        Category::Normal
    } else if neg_a != neg_b {
        Category::NegInfinity
    } else {
        Category::Infinity
    }
}

pub open spec fn category_of(v: (int, int)) -> Category {
    classify(v.0, v.1)
}

pub open spec fn is_negative_view(v: (int, int)) -> bool {
    let c = category_of(v);
    c == Category::NegInfinity || (c == Category::Normal && v.0 < 0)
}

pub open spec fn is_positive_view(v: (int, int)) -> bool {
    let c = category_of(v);
    c == Category::Infinity || (c == Category::Normal && v.0 > 0)
}

/// The exact sum of two finite values, reduced and brought within the bound.
pub open spec fn sum_view(x: (int, int), y: (int, int)) -> (int, int) {
    let n = x.0 * y.1 + y.0 * x.1;
    reduced(sgn(n), abs(n), (x.1 * y.1) as nat)
}

/// The exact product of two finite values, reduced and brought within the bound.
pub open spec fn product_view(x: (int, int), y: (int, int)) -> (int, int) {
    let n = x.0 * y.0;
    reduced(sgn(n), abs(n), (x.1 * y.1) as nat)
}

pub open spec fn add_view(x: (int, int), y: (int, int)) -> (int, int) {
    let c = add_category(category_of(x), category_of(y));
    if c == Category::Normal {
        sum_view(x, y)
    } else {
        sentinel(c)
    }
}

pub open spec fn mul_view(x: (int, int), y: (int, int)) -> (int, int) {
    let c = mul_category(
        category_of(x),
        is_negative_view(x),
        category_of(y),
        is_negative_view(y),
    );
    if c == Category::Normal {
        product_view(x, y)
    } else {
        sentinel(c)
    }
}

pub open spec fn neg_view(x: (int, int)) -> (int, int) {
    match category_of(x) {
        Category::Infinity => sentinel(Category::NegInfinity),
        Category::NegInfinity => sentinel(Category::Infinity),
        Category::Normal => (-x.0, x.1),
        _ => x,
    }
}

pub open spec fn abs_view(x: (int, int)) -> (int, int) {
    match category_of(x) {
        Category::Infinity => sentinel(Category::Infinity),
        Category::NegInfinity => sentinel(Category::Infinity),
        Category::Normal => (abs(x.0) as int, x.1),
        _ => x,
    }
}

pub open spec fn reciprocal_view(x: (int, int)) -> (int, int) {
    match category_of(x) {
        Category::Infinity => sentinel(Category::Zero),
        Category::NegInfinity => sentinel(Category::Zero),
        Category::Zero => sentinel(Category::Infinity),
        Category::Normal => (sgn(x.0) * x.1, abs(x.0) as int),
        _ => x,
    }
}

pub open spec fn sign_view(x: (int, int)) -> (int, int) {
    match category_of(x) {
        Category::Infinity => (1, 1),
        Category::NegInfinity => (-1, 1),
        Category::Normal => if x.0 >= 0 {
            (1, 1)
        } else {
            (-1, 1)
        },
        _ => x,
    }
}

pub open spec fn sub_view(x: (int, int), y: (int, int)) -> (int, int) {
    add_view(x, neg_view(y))
}

pub open spec fn div_view(x: (int, int), y: (int, int)) -> (int, int) {
    mul_view(x, reciprocal_view(y))
}

} // verus!
