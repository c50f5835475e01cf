use crate::fraction::Fraction;
use crate::model::{category_of, Category};
use std::cmp::Ordering;
use vstd::prelude::*;

verus! {

/// The order of two fractions: none where either is NaN; each infinity equal to itself
/// and beyond every other value; finite values by their rational value.
pub open spec fn compare_view(x: (int, int), y: (int, int)) -> Option<Ordering> {
    let cx = category_of(x);
    let cy = category_of(y);
    if cx == Category::NaN || cy == Category::NaN {
        None
    } else if cx == cy && (cx == Category::Infinity || cx == Category::NegInfinity) {
        Some(Ordering::Equal)
    } else if cx == Category::Infinity || cy == Category::NegInfinity {
        Some(Ordering::Greater)
    } else if cx == Category::NegInfinity || cy == Category::Infinity {
        Some(Ordering::Less)
    } else if x.0 * y.1 < x.1 * y.0 {
        Some(Ordering::Less)
    } else if x.0 * y.1 == x.1 * y.0 {
        Some(Ordering::Equal)
    } else {
        Some(Ordering::Greater)
    }
}

impl PartialOrd for Fraction {
    fn partial_cmp(&self, other: &Fraction) -> Option<Ordering> {
        match (self.kind(), other.kind()) {
            (Category::NaN, _) | (_, Category::NaN) => None,
            (Category::Infinity, Category::Infinity)
            | (Category::NegInfinity, Category::NegInfinity) => Some(Ordering::Equal),
            (Category::Infinity, _) | (_, Category::NegInfinity) => Some(Ordering::Greater),
            (Category::NegInfinity, _) | (_, Category::Infinity) => Some(Ordering::Less),
            _ => {
                let (a, b) = (self.numerator() as i64, self.denominator() as i64);
                let (c, d) = (other.numerator() as i64, other.denominator() as i64);
                proof {
                    assert(-0x4000_0000_0000_0000 <= a * d <= 0x4000_0000_0000_0000)
                        by (nonlinear_arith)
                        requires
                            -0x8000_0000 <= a <= 0x8000_0000,
                            -0x8000_0000 <= d <= 0x8000_0000,
                    ;
                    assert(-0x4000_0000_0000_0000 <= b * c <= 0x4000_0000_0000_0000)
                        by (nonlinear_arith)
                        requires
                            -0x8000_0000 <= b <= 0x8000_0000,
                            -0x8000_0000 <= c <= 0x8000_0000,
                    ;
                }
                let (left, right) = (a * d, b * c);
                if left < right {
                    Some(Ordering::Less)
                } else if left == right {
                    Some(Ordering::Equal)
                } else {
                    Some(Ordering::Greater)
                }
            },
        }
    }
}

impl vstd::std_specs::cmp::PartialOrdSpecImpl for Fraction {
    open spec fn obeys_partial_cmp_spec() -> bool {
        true
    }

    open spec fn partial_cmp_spec(&self, other: &Fraction) -> Option<Ordering> {
        compare_view(self@, other@)
    }
}

} // verus!
