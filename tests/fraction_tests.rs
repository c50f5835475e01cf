use fraction::Category::{Infinity, NaN, NegInfinity, Normal, Zero};
use fraction::{Category, ConversionError, Fraction};
use std::cmp::Ordering;
use std::collections::hash_map::DefaultHasher;
use std::hash::{Hash, Hasher};

fn to_f64(f: Fraction) -> f64 {
    match f.kind() {
        Category::Infinity => f64::INFINITY,
        Category::NegInfinity => f64::NEG_INFINITY,
        Category::NaN => f64::NAN,
        Category::Zero => 0.0,
        Category::Normal => f.numerator() as f64 / f.denominator() as f64,
    }
}

#[test]
fn test_creation_and_reduction() {
    let f = Fraction::new(4, 6);
    assert_eq!(f, Fraction::new(2, 3));

    let f = Fraction::new(-3, 6);
    assert_eq!(f, Fraction::new(-1, 2));

    let f = Fraction::new(3, -6);
    assert_eq!(f, Fraction::new(-1, 2));

    let f = Fraction::new(0, 5);
    assert_eq!(f, Fraction::new(0, 1));
}

#[test]
fn test_arithmetic_operations() {
    let a = Fraction::new(1, 2);
    let b = Fraction::new(1, 3);
    assert_eq!(a + b, Fraction::new(5, 6));

    let a = Fraction::new(3, 4);
    let b = Fraction::new(1, 4);
    assert_eq!(a - b, Fraction::new(1, 2));

    let a = Fraction::new(2, 3);
    let b = Fraction::new(3, 4);
    assert_eq!(a * b, Fraction::new(1, 2));

    let a = Fraction::new(1, 2);
    let b = Fraction::new(2, 1);
    assert_eq!(a / b, Fraction::new(1, 4));
}

#[test]
fn test_comparisons() {
    let a = Fraction::new(2, 4);
    let b = Fraction::new(1, 2);
    assert_eq!(a, b);

    let a = Fraction::new(1, 2);
    let b = Fraction::new(3, 4);
    assert!(a < b);
}

#[test]
fn test_special_cases() {
    let zero = Fraction::new(0, 1);
    let a = Fraction::new(3, 4);
    assert_eq!(a + zero, a);
    assert_eq!(a - zero, a);

    assert!(Fraction::new(1, 0).is_infinity());
    assert!(Fraction::new(-1, 0).is_neg_infinity());
    assert!(Fraction::new(0, 0).is_nan());
}

#[test]
fn test_assignment_operations() {
    let mut a = Fraction::new(1, 3);
    a += Fraction::new(1, 6);
    assert_eq!(a, Fraction::new(1, 2));

    let mut b = Fraction::new(3, 4);
    b -= Fraction::new(1, 4);
    assert_eq!(b, Fraction::new(1, 2));

    let mut c = Fraction::new(-7, 6);
    c *= Fraction::new(-8, 7);
    assert_eq!(c, Fraction::new(4, 3));

    let mut d = Fraction::new(-7, 6);
    d /= Fraction::new(-7, 8);
    assert_eq!(d, Fraction::new(4, 3));
}

#[test]
fn test_display_formatting() {
    assert_eq!(Fraction::new(5, 1).to_string(), "5");

    assert_eq!(Fraction::new(3, 4).to_string(), "3/4");

    assert_eq!(Fraction::new(-2, 3).to_string(), "-2/3");
}

#[test]
fn test_hash_consistency() {
    let mut hasher1 = DefaultHasher::new();
    let mut hasher2 = DefaultHasher::new();

    Fraction::new(2, 4).hash(&mut hasher1);
    Fraction::new(1, 2).hash(&mut hasher2);

    assert_eq!(hasher1.finish(), hasher2.finish());
}

#[test]
fn test_edge_cases() {
    let f = Fraction::new(i32::MAX, i32::MAX);
    assert_eq!(f, Fraction::new(1, 1));

    let f = Fraction::new(i32::MIN, i32::MIN);
    assert_eq!(f, Fraction::new(1, 1));
}

#[test]
fn test_sign_handling() {
    assert!(Fraction::new(3, 4).is_positive());
    assert!(Fraction::new(-3, 4).is_negative());
    assert!(Fraction::new(0, 1).is_zero());
}

#[test]
fn test_absolute_value() {
    let f = Fraction::new(-3, 4).abs();
    assert_eq!(f, Fraction::new(3, 4));
}

#[test]
fn test_document_in_readme() {
    // safe
    let f64_val: f64 = to_f64(Fraction::new(-5, 4));
    assert_eq!(f64_val, -1.25);
    let f64_inf: f64 = to_f64(Fraction::infinity());
    assert_eq!(f64_inf, f64::INFINITY);
    // checked
    let res_err: Result<i32, _> = Fraction::infinity().try_into();
    assert_eq!(res_err, Err(ConversionError::InfiniteConversion));
    let res_ok: Result<i32, _> = i32::try_from(Fraction::new(-3, 2));
    assert_eq!(res_ok, Ok(-1));

    // shrink
    let n = Fraction::new(2147483647, 4);
    let prev = (n + 1) / 2;
    let curr = (n / prev + prev) / 2;

    // the nearest bounded fraction 805306375/6 (= 134217729.1666...),
    // not the exact 4611686065672028153/34359738416 (= 134217729.1875)
    assert_eq!(curr, Fraction::new(805306375, 6));

    // square root by Newton's iteration
    let n = Fraction::from(100);
    let mut prev = if (n - 1).is_positive() { (n + 1) / 2 } else { Fraction::from(1) };
    let mut curr = (n / prev + prev) / 2;
    while curr - prev != Fraction::zero() {
        prev = curr;
        curr = (n / prev + prev) / 2;
    }
    assert_eq!(curr, Fraction::from(10));

    let a = Fraction::new(155937625, 24970004); // 6.244997998398398
    let b = Fraction::new(2103597937, 336845254); // 6.244997998398398
    assert!(a != b);
    assert!(a - b == Fraction::zero());
}

#[test]
fn reduction_divides_by_the_gcd() {
    for (n, d) in [(12i32, 18i32), (-35, 49), (100, -75), (i32::MIN, 2), (-7, -21)] {
        let g = gcd(n.unsigned_abs(), d.unsigned_abs());
        let reduced = Fraction::new((n as i64 / g as i64) as i32, (d as i64 / g as i64) as i32);
        assert_eq!(Fraction::new(n, d), reduced);
        let f = Fraction::new(n, d);
        assert_eq!(gcd(f.numerator().unsigned_abs(), f.denominator().unsigned_abs()), 1);
    }
}

fn gcd(a: u32, b: u32) -> u32 {
    if b == 0 { a } else { gcd(b, a % b) }
}

#[test]
fn sign_moves_to_the_numerator() {
    for (n, d) in [(3, 7), (-3, 7), (0, 5), (i32::MAX, 1), (-i32::MAX, 1), (10, -4)] {
        assert_eq!(Fraction::new(n, -d), Fraction::new(-n, d));
    }
    let f = Fraction::new(2, -4);
    assert_eq!((f.numerator(), f.denominator()), (-1, 2));
}

#[test]
fn results_stay_within_the_bound() {
    let big = Fraction::new(i32::MAX - 1, 3);
    let sum = big + big + big;
    assert!(sum.numerator().unsigned_abs() <= i32::MAX as u32);
    assert!(0 < sum.denominator());
    let product = Fraction::new(1_000_003, 999_983) * Fraction::new(999_979, 1_000_033);
    assert!(product.numerator() > 0 && product.denominator() > 0);
}

#[test]
fn minimum_numerator_is_approximated() {
    // 2^31 / 3 does not fit; the semiconvergent 1431655765/2 is nearer than 715827883/1
    let f = Fraction::new(i32::MIN, 3);
    assert_eq!((f.numerator(), f.denominator()), (-1431655765, 2));
    assert!(f.is_normal());
}

#[test]
fn large_sums_round_to_the_nearest_bounded_fraction() {
    let a = Fraction::new(i32::MAX - 1, 2);
    let b = Fraction::new(i32::MAX - 2, 3);
    // the exact sum 1789569704 + 2/3 needs a numerator beyond the bound for any denominator
    // above one, so the nearest whole number stands for it
    let s = a + b;
    assert!(s.is_normal());
    assert_eq!(s.denominator(), 1);
    assert_eq!(s.numerator(), 1789569705);
    // a ratio beyond the bound saturates to positive infinity
    assert_eq!(Fraction::max_value() + Fraction::max_value(), Fraction::infinity());
}

#[test]
fn special_value_tables() {
    let inf = Fraction::infinity();
    let ninf = Fraction::neg_infinity();
    let zero = Fraction::zero();
    assert!((inf + ninf).is_nan());
    assert!((inf - inf).is_nan());
    assert!((zero * inf).is_nan());
    assert!((inf / inf).is_nan());
    assert_eq!(inf + 5, inf);
    assert!((Fraction::from(0) / Fraction::from(0)).is_nan());
    assert!((Fraction::from(5) / Fraction::from(0)).is_infinity());
    assert!((Fraction::from(-5) / Fraction::from(0)).is_neg_infinity());
    assert!(Fraction::new(0, 0).is_nan());
    assert!(Fraction::new(5, 0).is_infinity());
    assert!(Fraction::new(-5, 0).is_neg_infinity());
}

#[test]
fn addition_table_is_exhaustive() {
    let values = [
        Fraction::nan(),
        Fraction::infinity(),
        Fraction::neg_infinity(),
        Fraction::zero(),
        Fraction::new(3, 4),
    ];
    let expected = [
        [NaN, NaN, NaN, NaN, NaN],
        [NaN, Infinity, NaN, Infinity, Infinity],
        [NaN, NaN, NegInfinity, NegInfinity, NegInfinity],
        [NaN, Infinity, NegInfinity, Zero, Normal],
        [NaN, Infinity, NegInfinity, Normal, Normal],
    ];
    for i in 0..5 {
        for j in 0..5 {
            assert_eq!((values[i] + values[j]).kind(), expected[i][j], "{} {}", i, j);
        }
    }
}

#[test]
fn multiplication_table_is_exhaustive() {
    let values = [
        Fraction::nan(),
        Fraction::infinity(),
        Fraction::neg_infinity(),
        Fraction::zero(),
        Fraction::new(3, 4),
        Fraction::new(-3, 4),
    ];
    let expected = [
        [NaN, NaN, NaN, NaN, NaN, NaN],
        [NaN, Infinity, NegInfinity, NaN, Infinity, NegInfinity],
        [NaN, NegInfinity, Infinity, NaN, NegInfinity, Infinity],
        [NaN, NaN, NaN, Zero, Zero, Zero],
        [NaN, Infinity, NegInfinity, Zero, Normal, Normal],
        [NaN, NegInfinity, Infinity, Zero, Normal, Normal],
    ];
    for i in 0..6 {
        for j in 0..6 {
            assert_eq!((values[i] * values[j]).kind(), expected[i][j], "{} {}", i, j);
        }
    }
}

#[test]
fn identities_hold() {
    for a in [Fraction::new(3, 4), Fraction::new(-22, 7), Fraction::max_value(), Fraction::new(-1, i32::MAX)] {
        assert_eq!(a + Fraction::zero(), a);
        assert_eq!(a * a.reciprocal(), Fraction::from(1));
        assert_eq!(-(-a), a);
    }
    assert_eq!(Fraction::nan() + Fraction::zero(), Fraction::nan());
    assert_eq!(-(-Fraction::infinity()), Fraction::infinity());
}

#[test]
fn identity_edge_inputs() {
    // the reciprocal of 1/(2^31 - 1) is the sentinel of positive infinity
    assert_eq!(Fraction::min_positive().reciprocal(), Fraction::infinity());
    // the negation of -(2^31 - 1) is the sentinel of positive infinity too
    assert_eq!(-Fraction::min_value(), Fraction::infinity());
}

#[test]
fn nan_is_unordered() {
    let nan = Fraction::nan();
    assert_eq!(nan.partial_cmp(&nan), None);
    assert_eq!(nan.partial_cmp(&Fraction::from(1)), None);
    assert_eq!(Fraction::infinity().partial_cmp(&nan), None);
    assert!(!(nan < nan) && !(nan > nan) && !(nan <= nan));
}

#[test]
fn infinities_bound_the_order() {
    let x = Fraction::new(-5, 3);
    assert_eq!(x.partial_cmp(&Fraction::neg_infinity()), Some(Ordering::Greater));
    assert_eq!(x.partial_cmp(&Fraction::infinity()), Some(Ordering::Less));
    assert_eq!(Fraction::infinity().partial_cmp(&Fraction::infinity()), Some(Ordering::Equal));
    assert_eq!(Fraction::zero().partial_cmp(&Fraction::neg_infinity()), Some(Ordering::Greater));
    assert!(Fraction::new(-1, 2) < Fraction::new(-1, 3));
}

#[test]
fn end_to_end_scenarios() {
    assert_eq!(Fraction::new(4, 6), Fraction::new(2, 3));
    assert_eq!(Fraction::new(1, 2) + Fraction::new(1, 3), Fraction::new(5, 6));
    assert_eq!(Fraction::new(2, 3) * Fraction::new(3, 4), Fraction::new(1, 2));
    assert!(Fraction::new(1, 0).is_infinity());
    assert!(Fraction::new(-1, 0).is_neg_infinity());
    assert!(Fraction::new(0, 0).is_nan());
}

#[test]
fn unary_operations() {
    assert_eq!(Fraction::new(-6, 4).sign(), Fraction::from(-1));
    assert_eq!(Fraction::infinity().sign(), Fraction::from(1));
    assert_eq!(Fraction::zero().sign(), Fraction::zero());
    assert!(Fraction::nan().sign().is_nan());
    assert_eq!(Fraction::neg_infinity().abs(), Fraction::infinity());
    assert_eq!(Fraction::new(-3, 7).reciprocal(), Fraction::new(-7, 3));
    assert_eq!(Fraction::zero().reciprocal(), Fraction::infinity());
    assert_eq!(Fraction::neg_infinity().reciprocal(), Fraction::zero());
    assert_eq!(-Fraction::new(2, 5), Fraction::new(-2, 5));
}

#[test]
fn conversions_from_integers() {
    assert_eq!(Fraction::from(7u8), Fraction::new(7, 1));
    assert_eq!(Fraction::from(-300i16), Fraction::new(-300, 1));
    assert_eq!(Fraction::from(i32::MAX), Fraction::infinity());
    assert_eq!(Fraction::from(i32::MIN), Fraction::neg_infinity());
    assert_eq!(Fraction::from(0u64), Fraction::zero());
    assert!(Fraction::from(u64::MAX).is_nan());
    assert!(Fraction::from(-5_000_000_000i64).is_nan());
    assert_eq!(Fraction::from(1234u128), Fraction::new(1234, 1));
}

#[test]
fn conversions_to_integers() {
    assert_eq!(i8::try_from(Fraction::new(1000, 3)), Err(ConversionError::OutOfRangeError));
    assert_eq!(i16::try_from(Fraction::new(1000, 3)), Ok(333));
    assert_eq!(u32::try_from(Fraction::new(-7, 2)), Err(ConversionError::OutOfRangeError));
    assert_eq!(u64::try_from(Fraction::new(7, 2)), Ok(3));
    assert_eq!(i64::try_from(Fraction::new(-7, 2)), Ok(-3));
    assert_eq!(i32::try_from(Fraction::nan()), Err(ConversionError::NaNConversion));
    assert_eq!(u8::try_from(Fraction::neg_infinity()), Err(ConversionError::InfiniteConversion));
    assert_eq!(i128::try_from(Fraction::zero()), Ok(0));
}

#[test]
fn rendering_of_special_values() {
    assert_eq!(Fraction::infinity().to_string(), "inf");
    assert_eq!(Fraction::neg_infinity().to_string(), "-inf");
    assert_eq!(Fraction::nan().to_string(), "nan");
    assert_eq!(Fraction::zero().to_string(), "0");
    assert_eq!(Fraction::min_value().to_string(), "-2147483647");
    assert_eq!(Fraction::min_positive().to_string(), "1/2147483647");
}

#[test]
fn approximation_is_nearest_for_small_denominators() {
    // 2^31 / 3 became 1431655765 / 2; no fraction with denominator 1 or 2 is nearer
    let f = Fraction::new(i32::MIN, 3);
    let (n, d) = (-(f.numerator() as i128), f.denominator() as i128);
    let (num, den) = (1i128 << 31, 3i128);
    let best = (n * den - num * d).abs() * 1;
    for q in 1..=d {
        let centre = num * q / den;
        for p in (centre - 2).max(0)..=(centre + 2).min(i32::MAX as i128) {
            assert!((p * den - num * q).abs() * d >= best * q, "{}/{}", p, q);
        }
    }
}
