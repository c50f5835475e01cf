use crate::approx::{
    approx, convergents, deviation, lemma_mul_div_le, lemma_step_bounded, lemma_step_keeps, limit,
    LIMIT,
};
use crate::gcd::{
    gcd, lemma_gcd_commutes, lemma_gcd_divides, lemma_gcd_one, lemma_gcd_reduced,
    lemma_gcd_zero_left, lemma_reduce_scaled, lemma_unit_combination,
};
use crate::model::{
    abs, abs_view, add_category, canonical, category_of, classify, fits_i32, i32_max, i32_min,
    is_negative_view, is_positive_view, lemma_signed_canonical, mul_category, neg_view, new_view,
    product_view, reciprocal_view, reduced, sentinel, sgn, sign_view, signed, sum_view, Category,
};
use vstd::prelude::*;

verus! {

/// Why a fraction could not be turned into an integer.
#[derive(Debug, Clone, Copy, PartialEq, Eq, Structural)]
pub enum ConversionError {
    OutOfRangeError,
    NaNConversion,
    InfiniteConversion,
}

/// A rational number whose numerator and denominator fit in an `i32`, with
/// infinities, zero and NaN as categories of their own.
#[derive(Debug, Clone, Copy, PartialEq, Eq, Structural, Hash)]
pub struct Fraction {
    nume: i32,
    deno: i32,
    frac_type: Category,
}

impl View for Fraction {
    type V = (int, int);

    /// The `(numerator, denominator)` pair.
    closed spec fn view(&self) -> (int, int) {
        (self.nume as int, self.deno as int)
    }
}

impl Fraction {
    /// The fraction of a special category, in its one representation.
    pub(crate) fn special(c: Category) -> (r: Self)
        requires
            c != Category::Normal,
        ensures
            r@ == sentinel(c),
            r.category() == c,
            r == Fraction::from_view(sentinel(c)),
    {
        match c {
            Category::Infinity => Self { nume: i32::MAX, deno: 1, frac_type: c },
            Category::NegInfinity => Self { nume: i32::MIN, deno: 1, frac_type: c },
            Category::NaN => Self { nume: 0, deno: 0, frac_type: c },
            _ => Self { nume: 0, deno: 1, frac_type: Category::Zero },
        }
    }

    /// Positive infinity.
    pub fn infinity() -> (r: Self)
        ensures
            r@ == sentinel(Category::Infinity),
    {
        Self::special(Category::Infinity)
    }

    /// Negative infinity.
    pub fn neg_infinity() -> (r: Self)
        ensures
            r@ == sentinel(Category::NegInfinity),
    {
        Self::special(Category::NegInfinity)
    }

    /// Not a number.
    pub fn nan() -> (r: Self)
        ensures
            r@ == sentinel(Category::NaN),
    {
        Self::special(Category::NaN)
    }

    /// Zero, as `0/1`.
    pub fn zero() -> (r: Self)
        ensures
            r@ == sentinel(Category::Zero),
    {
        Self::special(Category::Zero)
    }

    /// The largest finite value, `(2^31 - 2)/1`.
    pub fn max_value() -> (r: Self)
        ensures
            r@ == (i32_max() - 1, 1int),
    {
        proof {
            lemma_gcd_one(0x7fff_fffe);
        }
        Self { nume: i32::MAX - 1, deno: 1, frac_type: Category::Normal }
    }

    /// The smallest finite value, `-(2^31 - 1)/1`.
    pub fn min_value() -> (r: Self)
        ensures
            r@ == (i32_min() + 1, 1int),
    {
        proof {
            lemma_gcd_one(0x7fff_ffff);
        }
        Self { nume: i32::MIN + 1, deno: 1, frac_type: Category::Normal }
    }

    /// The smallest positive value, `1/(2^31 - 1)`.
    pub fn min_positive() -> (r: Self)
        ensures
            r@ == (1int, i32_max()),
    {
        proof {
            assert(gcd(1, 0x7fff_ffff) == gcd(0x7fff_ffff, 1)) by {
                assert(1nat % 0x7fff_ffffnat == 1);
            }
            lemma_gcd_one(0x7fff_ffff);
        }
        Self { nume: 1, deno: i32::MAX, frac_type: Category::Normal }
    }

    /// The category this fraction is in.
    pub closed spec fn category(self) -> Category {
        self.frac_type
    }

    /// Every fraction is canonical, and its category is the one its parts classify to.
    #[verifier::type_invariant]
    closed spec fn inv(self) -> bool {
        self.wf()
    }

    pub open spec fn wf(self) -> bool {
        &&& canonical(self@)
        &&& self.category() == classify(self@.0, self@.1)
    }

    /// Builds the fraction `nume/deno`, reduced to lowest terms with the sign on the
    /// numerator, and brought within the bound where reduction leaves it outside.
    /// A zero denominator gives an infinity or NaN by the numerator's sign.
    pub fn new(nume: i32, deno: i32) -> (r: Self)
        ensures
            r@ == new_view(nume as int, deno as int),
    {
        let frac_type = Self::determine_frac_type(nume, deno);
        match frac_type {
            Category::Normal => {
                let negative = (nume < 0) != (deno < 0);
                let (n, d) = Self::reduce(negative, Self::magnitude(nume), Self::magnitude(deno));
                Self::from_canonical(n, d)
            },
            _ => Self::special(frac_type),
        }
    }

    /// The spec-level fraction with the given parts, in the category they classify to.
    pub closed spec fn from_view(v: (int, int)) -> Fraction {
        Fraction { nume: v.0 as i32, deno: v.1 as i32, frac_type: classify(v.0, v.1) }
    }

    /// A fraction is the one its parts describe.
    pub proof fn lemma_from_view(f: Fraction)
        requires
            f.wf(),
        ensures
            Fraction::from_view(f@) == f,
    {
    }

    /// The parts of `from_view(v)` are `v`.
    pub proof fn lemma_view_of(v: (int, int))
        requires
            fits_i32(v.0),
            fits_i32(v.1),
        ensures
            Fraction::from_view(v)@ == v,
            Fraction::from_view(v).wf() <==> canonical(v),
    {
    }

    /// The fraction with canonical parts `nume/deno`.
    pub(crate) fn from_canonical(nume: i32, deno: i32) -> (r: Self)
        requires
            canonical((nume as int, deno as int)),
        ensures
            r@ == (nume as int, deno as int),
            r == Fraction::from_view((nume as int, deno as int)),
    {
        Self { nume, deno, frac_type: Self::determine_frac_type(nume, deno) }
    }

    /// `|v|`, widened so that `i32::MIN` has one.
    fn magnitude(v: i32) -> (r: u64)
        ensures
            r == abs(v as int),
    {
        if v < 0 {
            (-(v as i64)) as u64
        } else {
            v as u64
        }
    }

    /// `±num/den` in lowest terms, brought within the bound.
    fn reduce(negative: bool, num: u64, den: u64) -> (r: (i32, i32))
        requires
            den > 0,
        ensures
            (r.0 as int, r.1 as int) == reduced(
                if negative {
                    -1int
                } else {
                    1int
                },
                num as nat,
                den as nat,
            ),
            canonical((r.0 as int, r.1 as int)),
    {
        let g = Self::gcd(num, den);
        proof {
            lemma_gcd_reduced(num as nat, den as nat);
        }
        let (n, d) = Self::shrink(num / g, den / g);
        proof {
            lemma_signed_canonical(if negative { -1 } else { 1 }, n as nat, d as nat);
        }
        let nume = if negative {
            -(n as i32)
        } else {
            n as i32
        };
        assert(nume as int == (if negative { -1int } else { 1int }) * (n as int)) by {
            if negative {
                assert(-1int * (n as int) == -(n as int)) by (nonlinear_arith);
            } else {
                assert(1int * (n as int) == n as int) by (nonlinear_arith);
            }
        }
        (nume, d as i32)
    }

    /// The numerator; negative for a negative value.
    pub fn numerator(&self) -> (r: i32)
        ensures
            r == self@.0,
            self.wf(),
    {
        proof {
            use_type_invariant(self);
        }
        self.nume
    }

    /// The denominator; positive but for NaN, whose denominator is zero.
    pub fn denominator(&self) -> (r: i32)
        ensures
            r == self@.1,
            self.wf(),
    {
        proof {
            use_type_invariant(self);
        }
        self.deno
    }

    /// The category of this fraction.
    pub fn kind(&self) -> (r: Category)
        ensures
            r == category_of(self@),
            self.wf(),
    {
        proof {
            use_type_invariant(self);
        }
        self.frac_type
    }

    /// The sign as a fraction: `1` for a positive value or positive infinity, `-1` for a
    /// negative one, zero for zero and NaN for NaN.
    pub fn sign(&self) -> (r: Self)
        ensures
            r@ == sign_view(self@),
    {
        proof {
            use_type_invariant(self);
            lemma_gcd_one(1);
        }
        match self.frac_type {
            Category::NaN => Self::special(Category::NaN),
            Category::Zero => Self::special(Category::Zero),
            Category::Infinity => Self { nume: 1, deno: 1, frac_type: Category::Normal },
            Category::NegInfinity => Self { nume: -1, deno: 1, frac_type: Category::Normal },
            Category::Normal => if self.nume >= 0 {
                Self { nume: 1, deno: 1, frac_type: Category::Normal }
            } else {
                Self { nume: -1, deno: 1, frac_type: Category::Normal }
            },
        }
    }

    /// The sign as an integer: `1`, `-1`, or `0` for zero and NaN.
    fn i32_sign(&self) -> (r: i32)
        ensures
            r == (if category_of(self@) == Category::Normal {
                sgn(self@.0)
            } else if category_of(self@) == Category::Infinity {
                1
            } else if category_of(self@) == Category::NegInfinity {
                -1
            } else {
                0
            }),
    {
        proof {
            use_type_invariant(self);
        }
        match self.frac_type {
            Category::NaN => 0,
            Category::Zero => 0,
            Category::Infinity => 1,
            Category::NegInfinity => -1,
            Category::Normal => if self.nume > 0 {
                1
            } else {
                -1
            },
        }
    }

    /// Greater than zero, positive infinity included.
    pub fn is_positive(&self) -> (r: bool)
        ensures
            r == is_positive_view(self@),
    {
        proof {
            use_type_invariant(self);
        }
        match self.frac_type {
            Category::NegInfinity | Category::NaN | Category::Zero => false,
            Category::Infinity => true,
            _ => self.nume > 0,
        }
    }

    /// Less than zero, negative infinity included.
    pub fn is_negative(&self) -> (r: bool)
        ensures
            r == is_negative_view(self@),
    {
        proof {
            use_type_invariant(self);
        }
        match self.frac_type {
            Category::Infinity | Category::NaN | Category::Zero => false,
            Category::NegInfinity => true,
            _ => self.nume < 0,
        }
    }

    pub fn is_zero(&self) -> (r: bool)
        ensures
            r == (category_of(self@) == Category::Zero),
    {
        proof {
            use_type_invariant(self);
        }
        self.frac_type == Category::Zero
    }

    pub fn is_infinity(&self) -> (r: bool)
        ensures
            r == (category_of(self@) == Category::Infinity),
    {
        proof {
            use_type_invariant(self);
        }
        self.frac_type == Category::Infinity
    }

    pub fn is_neg_infinity(&self) -> (r: bool)
        ensures
            r == (category_of(self@) == Category::NegInfinity),
    {
        proof {
            use_type_invariant(self);
        }
        self.frac_type == Category::NegInfinity
    }

    pub fn is_nan(&self) -> (r: bool)
        ensures
            r == (category_of(self@) == Category::NaN),
    {
        proof {
            use_type_invariant(self);
        }
        self.frac_type == Category::NaN
    }

    pub fn is_normal(&self) -> (r: bool)
        ensures
            r == (category_of(self@) == Category::Normal),
    {
        proof {
            use_type_invariant(self);
        }
        self.frac_type == Category::Normal
    }

    /// The magnitude; both infinities give positive infinity.
    pub fn abs(&self) -> (r: Self)
        ensures
            r@ == abs_view(self@),
    {
        proof {
            use_type_invariant(self);
        }
        match self.frac_type {
            Category::NegInfinity | Category::Infinity => Self::special(Category::Infinity),
            Category::NaN => Self::special(Category::NaN),
            Category::Zero => Self::special(Category::Zero),
            _ => {
                let nume = if self.nume < 0 {
                    -self.nume
                } else {
                    self.nume
                };
                Self::from_canonical(nume, self.deno)
            },
        }
    }

    /// One over this value: zero and the infinities swap, NaN stays NaN.
    pub fn reciprocal(&self) -> (r: Self)
        ensures
            r@ == reciprocal_view(self@),
    {
        proof {
            use_type_invariant(self);
        }
        match self.frac_type {
            Category::Infinity => Self::special(Category::Zero),
            Category::NegInfinity => Self::special(Category::Zero),
            Category::NaN => Self::special(Category::NaN),
            Category::Zero => Self::special(Category::Infinity),
            _ => {
                let magnitude = if self.nume < 0 {
                    -self.nume
                } else {
                    self.nume
                };
                let nume = if self.nume < 0 {
                    -self.deno
                } else {
                    self.deno
                };
                proof {
                    lemma_gcd_commutes(magnitude as nat, self.deno as nat);
                }
                Self::from_canonical(nume, magnitude)
            },
        }
    }

    /// The value with its sign flipped; the infinities swap.
    pub(crate) fn negated(&self) -> (r: Self)
        ensures
            r@ == neg_view(self@),
            r == Fraction::from_view(neg_view(self@)),
    {
        proof {
            use_type_invariant(self);
        }
        match self.frac_type {
            Category::Infinity => Self::special(Category::NegInfinity),
            Category::NegInfinity => Self::special(Category::Infinity),
            Category::NaN => Self::special(Category::NaN),
            Category::Zero => Self::special(Category::Zero),
            Category::Normal => Self::from_canonical(-self.nume, self.deno),
        }
    }

    /// The category of a sum, from the categories of its terms.
    pub(crate) fn get_add_type(self, rhs: Self) -> (r: Category)
        ensures
            r == add_category(category_of(self@), category_of(rhs@)),
    {
        proof {
            use_type_invariant(self);
            use_type_invariant(rhs);
        }
        match (self.frac_type, rhs.frac_type) {
            (Category::NaN, _) | (_, Category::NaN) => Category::NaN,
            (Category::Infinity, Category::NegInfinity)
            | (Category::NegInfinity, Category::Infinity) => Category::NaN,
            (Category::Infinity, _) | (_, Category::Infinity) => Category::Infinity,
            (Category::NegInfinity, _) | (_, Category::NegInfinity) => Category::NegInfinity,
            (Category::Zero, Category::Zero) => Category::Zero,
            _ => Category::Normal,
        }
    }

    /// The category of a product, from the categories and signs of its factors.
    pub(crate) fn get_mul_type(self, rhs: Self) -> (r: Category)
        ensures
            r == mul_category(
                category_of(self@),
                is_negative_view(self@),
                category_of(rhs@),
                is_negative_view(rhs@),
            ),
    {
        proof {
            use_type_invariant(self);
            use_type_invariant(rhs);
        }
        match (self.frac_type, rhs.frac_type) {
            (Category::NaN, _) | (_, Category::NaN) => Category::NaN,
            (Category::Infinity | Category::NegInfinity, Category::Zero)
            | (Category::Zero, Category::Infinity | Category::NegInfinity) => Category::NaN,
            (Category::Infinity, Category::Infinity)
            | (Category::NegInfinity, Category::NegInfinity) => Category::Infinity,
            (Category::Infinity, Category::NegInfinity)
            | (Category::NegInfinity, Category::Infinity) => Category::NegInfinity,
            (Category::Zero, _) | (_, Category::Zero) => Category::Zero,
            (Category::Normal, Category::Normal) => Category::Normal,
            _ => if self.is_negative() != rhs.is_negative() {
                Category::NegInfinity
            } else {
                Category::Infinity
            },
        }
    }

    /// The exact sum of two finite values with a nonzero term, in lowest terms and
    /// within the bound. The terms are brought to the least common multiple of their
    /// denominators through its cofactors, in 64-bit arithmetic.
    pub(crate) fn normal_add(self, rhs: Self) -> (r: (i32, i32))
        requires
            add_category(category_of(self@), category_of(rhs@)) == Category::Normal,
        ensures
            (r.0 as int, r.1 as int) == sum_view(self@, rhs@),
            canonical((r.0 as int, r.1 as int)),
    {
        proof {
            use_type_invariant(self);
            use_type_invariant(rhs);
        }
        let (a, b) = (self.nume as i64, self.deno as i64);
        let (c, d) = (rhs.nume as i64, rhs.deno as i64);
        let (e, f, gcd_bd) = Self::lcm(b as u64, d as u64);
        proof {
            assert(1 <= e <= LIMIT && 1 <= f <= LIMIT) by (nonlinear_arith)
                requires
                    d == e * gcd_bd,
                    b == f * gcd_bd,
                    gcd_bd > 0,
                    0 < b <= LIMIT,
                    0 < d <= LIMIT,
            ;
            assert(-LIMIT * LIMIT <= a * e <= LIMIT * LIMIT) by (nonlinear_arith)
                requires
                    -LIMIT <= a <= LIMIT,
                    0 <= e <= LIMIT,
            ;
            assert(-LIMIT * LIMIT <= c * f <= LIMIT * LIMIT) by (nonlinear_arith)
                requires
                    -LIMIT <= c <= LIMIT,
                    0 <= f <= LIMIT,
            ;
            assert(e * f <= LIMIT * LIMIT && e * f * gcd_bd == e * b && e * b <= LIMIT * LIMIT)
                by (nonlinear_arith)
                requires
                    b == f * gcd_bd,
                    0 <= e <= LIMIT,
                    0 <= f <= b,
                    0 < b <= LIMIT,
            ;
        }
        let nume = a * e as i64 + c * f as i64;
        let deno = e * f * gcd_bd;
        let u_num = if nume < 0 {
            (-nume) as u64
        } else {
            nume as u64
        };
        proof {
            let k = gcd_bd as int;
            assert(self@.0 * rhs@.1 + rhs@.0 * self@.1 == k * nume && self@.1 * rhs@.1 == k
                * deno) by (nonlinear_arith)
                requires
                    self@.0 == a,
                    rhs@.0 == c,
                    self@.1 == b,
                    rhs@.1 == d,
                    d == e * k,
                    b == f * k,
                    nume == a * e + c * f,
                    deno == e * f * k,
            ;
            lemma_scaled_sign(nume as int, k);
            assert(deno > 0) by (nonlinear_arith)
                requires
                    deno == e * b,
                    e >= 1,
                    b >= 1,
                    d == e * k,
                    d > 0,
            ;
            lemma_reduced_scaled(sgn(nume as int), u_num as nat, deno as nat, k as nat);
            if nume == 0 {
                lemma_reduced_zero(0, 1, deno as nat);
            }
        }
        Self::reduce(nume < 0, u_num, deno)
    }

    /// The exact product of two finite nonzero values, in lowest terms and within the
    /// bound. Cross factors cancel before the 64-bit product is formed.
    pub(crate) fn normal_mul(self, rhs: Self) -> (r: (i32, i32))
        requires
            mul_category(
                category_of(self@),
                is_negative_view(self@),
                category_of(rhs@),
                is_negative_view(rhs@),
            ) == Category::Normal,
        ensures
            (r.0 as int, r.1 as int) == product_view(self@, rhs@),
            canonical((r.0 as int, r.1 as int)),
    {
        proof {
            use_type_invariant(self);
            use_type_invariant(rhs);
        }
        let (a, b) = (Self::magnitude(self.nume), self.deno as u64);
        let (c, d) = (Self::magnitude(rhs.nume), rhs.deno as u64);
        let gcd_ad = Self::gcd(a, d);
        let gcd_bc = Self::gcd(b, c);
        proof {
            lemma_gcd_divides(a as nat, d as nat);
            lemma_gcd_divides(b as nat, c as nat);
        }
        let (a2, d2) = (a / gcd_ad, d / gcd_ad);
        let (b2, c2) = (b / gcd_bc, c / gcd_bc);
        proof {
            lemma_gcd_reduced(a as nat, d as nat);
            lemma_gcd_reduced(b as nat, c as nat);
            assert(a2 * c2 <= LIMIT * LIMIT && b2 * d2 <= LIMIT * LIMIT) by (nonlinear_arith)
                requires
                    a2 <= a <= LIMIT,
                    c2 <= c <= LIMIT,
                    b2 <= b <= LIMIT,
                    d2 <= d <= LIMIT,
            ;
        }
        let nume = a2 * c2;
        let deno = b2 * d2;
        let negative = self.i32_sign() * rhs.i32_sign() < 0;
        proof {
            let k = gcd_ad * gcd_bc;
            lemma_abs_product(self@.0, rhs@.0);
            let x = abs(self@.0) as int;
            let y = abs(rhs@.0) as int;
            assert(x * y == k * nume) by (nonlinear_arith)
                requires
                    x == a,
                    y == c,
                    a == gcd_ad * a2,
                    c == gcd_bc * c2,
                    k == gcd_ad * gcd_bc,
                    nume == a2 * c2,
            ;
            assert(self@.1 * rhs@.1 == k * deno) by (nonlinear_arith)
                requires
                    self@.1 == b,
                    rhs@.1 == d,
                    d == gcd_ad * d2,
                    b == gcd_bc * b2,
                    k == gcd_ad * gcd_bc,
                    deno == b2 * d2,
            ;
            assert(k > 0 && deno > 0) by (nonlinear_arith)
                requires
                    b > 0,
                    d > 0,
                    d == gcd_ad * d2,
                    b == gcd_bc * b2,
                    b2 >= 0,
                    d2 >= 0,
                    gcd_ad > 0,
                    gcd_bc > 0,
                    k == gcd_ad * gcd_bc,
                    deno == b2 * d2,
            ;
            lemma_product_sign(self@.0, rhs@.0);
            lemma_reduced_scaled(sgn(self@.0 * rhs@.0), nume as nat, deno as nat, k as nat);
        }
        Self::reduce(negative, nume, deno)
    }

    fn determine_frac_type(nume: i32, deno: i32) -> (r: Category)
        ensures
            r == classify(nume as int, deno as int),
    {
        if deno == 0 {
            if nume > 0 {
                Category::Infinity
            } else if nume < 0 {
                Category::NegInfinity
            } else {
                Category::NaN
            }
        } else if nume == 0 {
            Category::Zero
        } else if deno == 1 {
            if nume == i32::MAX {
                Category::Infinity
            } else if nume == i32::MIN {
                Category::NegInfinity
            } else {
                Category::Normal
            }
        } else {
            Category::Normal
        }
    }

    fn gcd(a: u64, b: u64) -> (r: u64)
        ensures
            r == gcd(a as nat, b as nat),
    {
        let mut x = a;
        let mut y = b;
        while y != 0
            invariant
                gcd(x as nat, y as nat) == gcd(a as nat, b as nat),
            decreases y,
        {
            let t = x % y;
            x = y;
            y = t;
        }
        x
    }

    /// The cofactors that bring `a` and `b` to their least common multiple, and their gcd:
    /// `(b / g, a / g, g)`.
    fn lcm(a: u64, b: u64) -> (r: (u64, u64, u64))
        requires
            a > 0 || b > 0,
        ensures
            r.2 == gcd(a as nat, b as nat),
            r.2 > 0,
            r.0 == b / r.2,
            r.1 == a / r.2,
            a == r.1 * r.2,
            b == r.0 * r.2,
    {
        let g = Self::gcd(a, b);
        proof {
            crate::gcd::lemma_gcd_divides(a as nat, b as nat);
        }
        (b / g, a / g, g)
    }

    /// Brings a coprime pair `nume/deno` within the bound: unchanged where it fits, else
    /// the nearer of the last convergent of its continued fraction that fits and the
    /// semiconvergent past it.
    fn shrink(nume: u64, deno: u64) -> (r: (u32, u32))
        requires
            deno > 0,
            gcd(nume as nat, deno as nat) == 1,
        ensures
            (r.0 as nat, r.1 as nat) == approx(nume as nat, deno as nat),
            r.0 <= LIMIT,
            0 < r.1 <= LIMIT,
            gcd(r.0 as nat, r.1 as nat) == 1,
    {
        if nume <= LIMIT && deno <= LIMIT {
            return (nume as u32, deno as u32);
        }
        let mut p_0: u64 = 0;
        let mut q_0: u64 = 1;
        let mut p_1: u64 = 1;
        let mut q_1: u64 = 0;
        let mut n: u64 = nume;
        let mut d: u64 = deno;
        loop
            invariant
                p_0 <= LIMIT,
                q_0 <= LIMIT,
                p_1 <= LIMIT,
                q_1 <= LIMIT,
                nume == p_1 * n + p_0 * d,
                deno == q_1 * n + q_0 * d,
                p_1 * q_0 - p_0 * q_1 == 1 || p_1 * q_0 - p_0 * q_1 == -1,
                convergents(n as nat, d as nat, p_0 as nat, q_0 as nat, p_1 as nat, q_1 as nat)
                    == convergents(nume as nat, deno as nat, 0, 1, 1, 0),
            ensures
                p_0 <= LIMIT,
                q_0 <= LIMIT,
                p_1 <= LIMIT,
                q_1 <= LIMIT,
                p_1 * q_0 - p_0 * q_1 == 1 || p_1 * q_0 - p_0 * q_1 == -1,
                convergents(nume as nat, deno as nat, 0, 1, 1, 0) == (
                    p_0 as nat,
                    q_0 as nat,
                    p_1 as nat,
                    q_1 as nat,
                ),
            decreases d,
        {
            // a coprime pair beyond the bound leaves it before its expansion ends;
            // the test keeps the division defined for every input
            if d == 0 {
                break;
            }
            let q = n / d;
            proof {
                lemma_step_bounded(nume as int, n as int, d as int, q as int, p_0 as int, p_1 as int);
                lemma_step_bounded(deno as int, n as int, d as int, q as int, q_0 as int, q_1 as int);
            }
            let p_2 = p_0 + q * p_1;
            let q_2 = q_0 + q * q_1;
            if p_2 > LIMIT || q_2 > LIMIT {
                break;
            }
            let r = n % d;
            proof {
                lemma_step_keeps(nume as int, n as int, d as int, q as int, r as int, p_0 as int, p_1 as int);
                lemma_step_keeps(deno as int, n as int, d as int, q as int, r as int, q_0 as int, q_1 as int);
                assert(p_2 * q_1 - p_1 * q_2 == -(p_1 * q_0 - p_0 * q_1)) by (nonlinear_arith)
                    requires
                        p_2 == p_0 + q * p_1,
                        q_2 == q_0 + q * q_1,
                ;
            }
            p_0 = p_1;
            q_0 = q_1;
            p_1 = p_2;
            q_1 = q_2;
            n = d;
            d = r;
        }
        if q_1 == 0 {
            proof {
                lemma_gcd_one(LIMIT as nat);
            }
            return (i32::MAX as u32, 1);
        }
        let k_q = (LIMIT - q_0) / q_1;
        if p_1 == 0 {
            proof {
                lemma_gcd_zero_left(1);
            }
            return (0, 1);
        }
        let k_p = (LIMIT - p_0) / p_1;
        let k = if k_q <= k_p {
            k_q
        } else {
            k_p
        };
        proof {
            lemma_mul_div_le(k as nat, (LIMIT - q_0) as nat, q_1 as nat);
            lemma_mul_div_le(k as nat, (LIMIT - p_0) as nat, p_1 as nat);
        }
        let nume_1 = p_1;
        let deno_1 = q_1;
        let nume_2 = p_0 + k * p_1;
        let deno_2 = q_0 + k * q_1;
        let dev_1 = Self::deviation(nume_1, deno_1, nume, deno);
        let dev_2 = Self::deviation(nume_2, deno_2, nume, deno);
        proof {
            assert(dev_1 * deno_2 < 0x8000_0000_0000_0000_0000_0000_0000_0000) by (nonlinear_arith)
                requires
                    0 <= dev_1 < 0x1_0000_0000_0000_0000_0000_0000,
                    0 <= deno_2 <= LIMIT,
            ;
            assert(dev_2 * deno_1 < 0x8000_0000_0000_0000_0000_0000_0000_0000) by (nonlinear_arith)
                requires
                    0 <= dev_2 < 0x1_0000_0000_0000_0000_0000_0000,
                    0 <= deno_1 <= LIMIT,
            ;
        }
        if dev_1 * deno_2 as i128 <= dev_2 * deno_1 as i128 {
            proof {
                lemma_unit_combination(p_1 as nat, q_1 as nat, q_0 as int, p_0 as int);
            }
            (nume_1 as u32, deno_1 as u32)
        } else {
            proof {
                assert(deno_2 > 0) by (nonlinear_arith)
                    requires
                        !(dev_1 * deno_2 <= dev_2 * deno_1),
                        dev_2 >= 0,
                        deno_1 >= 0,
                        deno_2 >= 0,
                ;
                assert(nume_2 * q_1 - deno_2 * p_1 == -(p_1 * q_0 - p_0 * q_1)) by (nonlinear_arith)
                    requires
                        nume_2 == p_0 + k * p_1,
                        deno_2 == q_0 + k * q_1,
                ;
                lemma_unit_combination(nume_2 as nat, deno_2 as nat, q_1 as int, p_1 as int);
            }
            (nume_2 as u32, deno_2 as u32)
        }
    }

    /// `|p * den - num * q|`, computed exactly.
    fn deviation(p: u64, q: u64, num: u64, den: u64) -> (r: i128)
        requires
            p <= LIMIT,
            q <= LIMIT,
        ensures
            r == deviation(p as nat, q as nat, num as nat, den as nat),
            0 <= r < 0x1_0000_0000_0000_0000_0000_0000,
    {
        proof {
            assert(p * den <= 0x8000_0000 * 0x1_0000_0000_0000_0000) by (nonlinear_arith)
                requires
                    p <= 0x8000_0000,
                    den < 0x1_0000_0000_0000_0000,
            ;
            assert(num * q <= 0x8000_0000 * 0x1_0000_0000_0000_0000) by (nonlinear_arith)
                requires
                    q <= 0x8000_0000,
                    num < 0x1_0000_0000_0000_0000,
            ;
        }
        let e = p as i128 * den as i128 - num as i128 * q as i128;
        if e >= 0 {
            e
        } else {
            -e
        }
    }
}

/// Scaling by a positive `k` keeps the sign and scales the magnitude.
proof fn lemma_scaled_sign(n: int, k: int)
    requires
        k > 0,
    ensures
        sgn(k * n) == sgn(n),
        abs(k * n) == k * abs(n),
{
    if n > 0 {
        assert(k * n > 0) by (nonlinear_arith)
            requires
                k > 0,
                n > 0,
        ;
    } else if n < 0 {
        assert(k * n < 0 && k * (-n) == -(k * n)) by (nonlinear_arith)
            requires
                k > 0,
                n < 0,
        ;
    } else {
        assert(k * n == 0) by (nonlinear_arith)
            requires
                n == 0,
        ;
    }
}

proof fn lemma_abs_product(x: int, y: int)
    ensures
        abs(x * y) == abs(x) * abs(y),
{
    if x >= 0 && y >= 0 {
        assert(x * y >= 0) by (nonlinear_arith)
            requires
                x >= 0,
                y >= 0,
        ;
    } else if x >= 0 && y < 0 {
        assert(x * y <= 0 && x * (-y) == -(x * y)) by (nonlinear_arith)
            requires
                x >= 0,
                y < 0,
        ;
    } else if x < 0 && y >= 0 {
        assert(x * y <= 0 && (-x) * y == -(x * y)) by (nonlinear_arith)
            requires
                x < 0,
                y >= 0,
        ;
    } else {
        assert(x * y > 0 && (-x) * (-y) == x * y) by (nonlinear_arith)
            requires
                x < 0,
                y < 0,
        ;
    }
}

/// The sign of a product of two nonzero integers.
proof fn lemma_product_sign(x: int, y: int)
    requires
        x != 0,
        y != 0,
    ensures
        sgn(x * y) == sgn(x) * sgn(y),
        sgn(x) * sgn(y) == 1 || sgn(x) * sgn(y) == -1,
{
    if x > 0 && y > 0 {
        assert(x * y > 0) by (nonlinear_arith)
            requires
                x > 0,
                y > 0,
        ;
    } else if x > 0 && y < 0 {
        assert(x * y < 0) by (nonlinear_arith)
            requires
                x > 0,
                y < 0,
        ;
    } else if x < 0 && y > 0 {
        assert(x * y < 0) by (nonlinear_arith)
            requires
                x < 0,
                y > 0,
        ;
    } else {
        assert(x * y > 0) by (nonlinear_arith)
            requires
                x < 0,
                y < 0,
        ;
    }
}

/// A common positive factor of numerator and denominator does not change the reduced form.
proof fn lemma_reduced_scaled(s: int, num: nat, den: nat, k: nat)
    requires
        k > 0,
        den > 0,
    ensures
        reduced(s, k * num, k * den) == reduced(s, num, den),
{
    lemma_reduce_scaled(num, den, k);
}

/// Zero reduces to `0/1` whatever the sign.
proof fn lemma_reduced_zero(s: int, t: int, den: nat)
    requires
        den > 0,
    ensures
        reduced(s, 0, den) == reduced(t, 0, den),
        reduced(s, 0, den) == (0int, 1int),
{
    lemma_gcd_zero_left(den);
    vstd::arithmetic::div_mod::lemma_div_basics(den as int);
    assert(s * 0 == 0 && t * 0 == 0);
}

} // verus!
