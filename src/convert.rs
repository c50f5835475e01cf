use crate::fraction::{ConversionError, Fraction};
use crate::model::{category_of, int_view, Category};
use vstd::prelude::*;

verus! {

/// Integer division truncated toward zero, as `i32` division does it.
pub open spec fn trunc_div(n: int, d: int) -> int
    recommends
        d > 0,
{
    if n >= 0 {
        n / d
    } else {
        -((-n) / d)
    }
}

/// The integer part of a fraction, or why it has none.
pub open spec fn integer_part_view(v: (int, int)) -> Result<int, ConversionError> {
    match category_of(v) {
        Category::NaN => Err(ConversionError::NaNConversion),
        Category::Infinity => Err(ConversionError::InfiniteConversion),
        Category::NegInfinity => Err(ConversionError::InfiniteConversion),
        Category::Zero => Ok(0),
        Category::Normal => Ok(trunc_div(v.0, v.1)),
    }
}

/// The conversion to an integer type with the range `lo..=hi`.
pub open spec fn to_integer_view(v: (int, int), lo: int, hi: int) -> Result<int, ConversionError> {
    match integer_part_view(v) {
        Ok(i) => if lo <= i <= hi {
            Ok(i)
        } else {
            Err(ConversionError::OutOfRangeError)
        },
        Err(e) => Err(e),
    }
}

impl Fraction {
    /// The integer `v` as the fraction `v/1`; the two extreme values are the infinities.
    pub(crate) fn integer(v: i32) -> (r: Fraction)
        ensures
            r@ == (v as int, 1int),
            r == Fraction::from_view(int_view(v as int)),
    {
        proof {
            crate::gcd::lemma_gcd_one(crate::model::abs(v as int));
        }
        Fraction::from_canonical(v, 1)
    }

    /// The integer part, truncated toward zero, or why there is none.
    fn integer_part(&self) -> (r: Result<i32, ConversionError>)
        ensures
            match (r, integer_part_view(self@)) {
                (Ok(i), Ok(j)) => i == j,
                (Err(e), Err(f)) => e == f,
                _ => false,
            },
    {
        match self.kind() {
            Category::NaN => Err(ConversionError::NaNConversion),
            Category::Infinity | Category::NegInfinity => Err(ConversionError::InfiniteConversion),
            Category::Zero => Ok(0),
            Category::Normal => {
                let n = self.numerator();
                let d = self.denominator();
                if n >= 0 {
                    Ok(n / d)
                } else {
                    Ok(-((-n) / d))
                }
            },
        }
    }
}

impl From<u8> for Fraction {
    fn from(value: u8) -> Fraction {
        Fraction::integer(value as i32)
    }
}

impl vstd::std_specs::convert::FromSpecImpl<u8> for Fraction {
    open spec fn obeys_from_spec() -> bool {
        true
    }

    open spec fn from_spec(v: u8) -> Fraction {
        Fraction::from_view(int_view(v as int))
    }
}

impl From<u16> for Fraction {
    fn from(value: u16) -> Fraction {
        Fraction::integer(value as i32)
    }
}

impl vstd::std_specs::convert::FromSpecImpl<u16> for Fraction {
    open spec fn obeys_from_spec() -> bool {
        true
    }

    open spec fn from_spec(v: u16) -> Fraction {
        Fraction::from_view(int_view(v as int))
    }
}

impl From<i8> for Fraction {
    fn from(value: i8) -> Fraction {
        Fraction::integer(value as i32)
    }
}

impl vstd::std_specs::convert::FromSpecImpl<i8> for Fraction {
    open spec fn obeys_from_spec() -> bool {
        true
    }

    open spec fn from_spec(v: i8) -> Fraction {
        Fraction::from_view(int_view(v as int))
    }
}

impl From<i16> for Fraction {
    fn from(value: i16) -> Fraction {
        Fraction::integer(value as i32)
    }
}

impl vstd::std_specs::convert::FromSpecImpl<i16> for Fraction {
    open spec fn obeys_from_spec() -> bool {
        true
    }

    open spec fn from_spec(v: i16) -> Fraction {
        Fraction::from_view(int_view(v as int))
    }
}

impl From<i32> for Fraction {
    fn from(value: i32) -> Fraction {
        Fraction::integer(value)
    }
}

impl vstd::std_specs::convert::FromSpecImpl<i32> for Fraction {
    open spec fn obeys_from_spec() -> bool {
        true
    }

    open spec fn from_spec(v: i32) -> Fraction {
        Fraction::from_view(int_view(v as int))
    }
}

impl From<i64> for Fraction {
    /// `value/1`, or NaN where `value` does not fit in an `i32`.
    fn from(value: i64) -> Fraction {
        if i32::MIN as i64 <= value && value <= i32::MAX as i64 {
            Fraction::integer(value as i32)
        } else {
            Fraction::special(Category::NaN)
        }
    }
}

impl vstd::std_specs::convert::FromSpecImpl<i64> for Fraction {
    open spec fn obeys_from_spec() -> bool {
        true
    }

    open spec fn from_spec(v: i64) -> Fraction {
        Fraction::from_view(int_view(v as int))
    }
}

impl From<i128> for Fraction {
    /// `value/1`, or NaN where `value` does not fit in an `i32`.
    fn from(value: i128) -> Fraction {
        if i32::MIN as i128 <= value && value <= i32::MAX as i128 {
            Fraction::integer(value as i32)
        } else {
            Fraction::special(Category::NaN)
        }
    }
}

impl vstd::std_specs::convert::FromSpecImpl<i128> for Fraction {
    open spec fn obeys_from_spec() -> bool {
        true
    }

    open spec fn from_spec(v: i128) -> Fraction {
        Fraction::from_view(int_view(v as int))
    }
}

impl From<u32> for Fraction {
    /// `value/1`, or NaN where `value` does not fit in an `i32`.
    fn from(value: u32) -> Fraction {
        if value <= i32::MAX as u32 {
            Fraction::integer(value as i32)
        } else {
            Fraction::special(Category::NaN)
        }
    }
}

impl vstd::std_specs::convert::FromSpecImpl<u32> for Fraction {
    open spec fn obeys_from_spec() -> bool {
        true
    }

    open spec fn from_spec(v: u32) -> Fraction {
        Fraction::from_view(int_view(v as int))
    }
}

impl From<u64> for Fraction {
    /// `value/1`, or NaN where `value` does not fit in an `i32`.
    fn from(value: u64) -> Fraction {
        if value <= i32::MAX as u64 {
            Fraction::integer(value as i32)
        } else {
            Fraction::special(Category::NaN)
        }
    }
}

impl vstd::std_specs::convert::FromSpecImpl<u64> for Fraction {
    open spec fn obeys_from_spec() -> bool {
        true
    }

    open spec fn from_spec(v: u64) -> Fraction {
        Fraction::from_view(int_view(v as int))
    }
}

impl From<u128> for Fraction {
    /// `value/1`, or NaN where `value` does not fit in an `i32`.
    fn from(value: u128) -> Fraction {
        if value <= i32::MAX as u128 {
            Fraction::integer(value as i32)
        } else {
            Fraction::special(Category::NaN)
        }
    }
}

impl vstd::std_specs::convert::FromSpecImpl<u128> for Fraction {
    open spec fn obeys_from_spec() -> bool {
        true
    }

    open spec fn from_spec(v: u128) -> Fraction {
        Fraction::from_view(int_view(v as int))
    }
}

impl TryFrom<Fraction> for u8 {
    type Error = ConversionError;

    /// The integer part, truncated toward zero, where it fits in the target type.
    fn try_from(value: Fraction) -> Result<u8, ConversionError> {
        match value.integer_part() {
            Ok(i) => if 0 <= i && i <= 255 {
                Ok(i as u8)
            } else {
                Err(ConversionError::OutOfRangeError)
            },
            Err(e) => Err(e),
        }
    }
}

impl vstd::std_specs::convert::TryFromSpecImpl<Fraction> for u8 {
    open spec fn obeys_try_from_spec() -> bool {
        true
    }

    open spec fn try_from_spec(v: Fraction) -> Result<u8, ConversionError> {
        match to_integer_view(v@, 0, 255) {
            Ok(i) => Ok(i as u8),
            Err(e) => Err(e),
        }
    }
}

impl TryFrom<Fraction> for u16 {
    type Error = ConversionError;

    /// The integer part, truncated toward zero, where it fits in the target type.
    fn try_from(value: Fraction) -> Result<u16, ConversionError> {
        match value.integer_part() {
            Ok(i) => if 0 <= i && i <= 65535 {
                Ok(i as u16)
            } else {
                Err(ConversionError::OutOfRangeError)
            },
            Err(e) => Err(e),
        }
    }
}

impl vstd::std_specs::convert::TryFromSpecImpl<Fraction> for u16 {
    open spec fn obeys_try_from_spec() -> bool {
        true
    }

    open spec fn try_from_spec(v: Fraction) -> Result<u16, ConversionError> {
        match to_integer_view(v@, 0, 65535) {
            Ok(i) => Ok(i as u16),
            Err(e) => Err(e),
        }
    }
}

impl TryFrom<Fraction> for i8 {
    type Error = ConversionError;

    /// The integer part, truncated toward zero, where it fits in the target type.
    fn try_from(value: Fraction) -> Result<i8, ConversionError> {
        match value.integer_part() {
            Ok(i) => if -128 <= i && i <= 127 {
                Ok(i as i8)
            } else {
                Err(ConversionError::OutOfRangeError)
            },
            Err(e) => Err(e),
        }
    }
}

impl vstd::std_specs::convert::TryFromSpecImpl<Fraction> for i8 {
    open spec fn obeys_try_from_spec() -> bool {
        true
    }

    open spec fn try_from_spec(v: Fraction) -> Result<i8, ConversionError> {
        match to_integer_view(v@, -128, 127) {
            Ok(i) => Ok(i as i8),
            Err(e) => Err(e),
        }
    }
}

impl TryFrom<Fraction> for i16 {
    type Error = ConversionError;

    /// The integer part, truncated toward zero, where it fits in the target type.
    fn try_from(value: Fraction) -> Result<i16, ConversionError> {
        match value.integer_part() {
            Ok(i) => if -32768 <= i && i <= 32767 {
                Ok(i as i16)
            } else {
                Err(ConversionError::OutOfRangeError)
            },
            Err(e) => Err(e),
        }
    }
}

impl vstd::std_specs::convert::TryFromSpecImpl<Fraction> for i16 {
    open spec fn obeys_try_from_spec() -> bool {
        true
    }

    open spec fn try_from_spec(v: Fraction) -> Result<i16, ConversionError> {
        match to_integer_view(v@, -32768, 32767) {
            Ok(i) => Ok(i as i16),
            Err(e) => Err(e),
        }
    }
}

impl TryFrom<Fraction> for u32 {
    type Error = ConversionError;

    /// The integer part, truncated toward zero, where it is not negative.
    fn try_from(value: Fraction) -> Result<u32, ConversionError> {
        match value.integer_part() {
            Ok(i) => if i >= 0 {
                Ok(i as u32)
            } else {
                Err(ConversionError::OutOfRangeError)
            },
            Err(e) => Err(e),
        }
    }
}

impl vstd::std_specs::convert::TryFromSpecImpl<Fraction> for u32 {
    open spec fn obeys_try_from_spec() -> bool {
        true
    }

    open spec fn try_from_spec(v: Fraction) -> Result<u32, ConversionError> {
        match to_integer_view(v@, 0, 4294967295) {
            Ok(i) => Ok(i as u32),
            Err(e) => Err(e),
        }
    }
}

impl TryFrom<Fraction> for u64 {
    type Error = ConversionError;

    /// The integer part, truncated toward zero, where it is not negative.
    fn try_from(value: Fraction) -> Result<u64, ConversionError> {
        match value.integer_part() {
            Ok(i) => if i >= 0 {
                Ok(i as u64)
            } else {
                Err(ConversionError::OutOfRangeError)
            },
            Err(e) => Err(e),
        }
    }
}

impl vstd::std_specs::convert::TryFromSpecImpl<Fraction> for u64 {
    open spec fn obeys_try_from_spec() -> bool {
        true
    }

    open spec fn try_from_spec(v: Fraction) -> Result<u64, ConversionError> {
        match to_integer_view(v@, 0, 18446744073709551615) {
            Ok(i) => Ok(i as u64),
            Err(e) => Err(e),
        }
    }
}

impl TryFrom<Fraction> for u128 {
    type Error = ConversionError;

    /// The integer part, truncated toward zero, where it is not negative.
    fn try_from(value: Fraction) -> Result<u128, ConversionError> {
        match value.integer_part() {
            Ok(i) => if i >= 0 {
                Ok(i as u128)
            } else {
                Err(ConversionError::OutOfRangeError)
            },
            Err(e) => Err(e),
        }
    }
}

impl vstd::std_specs::convert::TryFromSpecImpl<Fraction> for u128 {
    open spec fn obeys_try_from_spec() -> bool {
        true
    }

    open spec fn try_from_spec(v: Fraction) -> Result<u128, ConversionError> {
        match to_integer_view(v@, 0, 340282366920938463463374607431768211455) {
            Ok(i) => Ok(i as u128),
            Err(e) => Err(e),
        }
    }
}

impl TryFrom<Fraction> for i32 {
    type Error = ConversionError;

    /// The integer part, truncated toward zero.
    fn try_from(value: Fraction) -> Result<i32, ConversionError> {
        match value.integer_part() {
            Ok(i) => Ok(i as i32),
            Err(e) => Err(e),
        }
    }
}

impl vstd::std_specs::convert::TryFromSpecImpl<Fraction> for i32 {
    open spec fn obeys_try_from_spec() -> bool {
        true
    }

    open spec fn try_from_spec(v: Fraction) -> Result<i32, ConversionError> {
        match to_integer_view(v@, -2147483648, 2147483647) {
            Ok(i) => Ok(i as i32),
            Err(e) => Err(e),
        }
    }
}

impl TryFrom<Fraction> for i64 {
    type Error = ConversionError;

    /// The integer part, truncated toward zero.
    fn try_from(value: Fraction) -> Result<i64, ConversionError> {
        match value.integer_part() {
            Ok(i) => Ok(i as i64),
            Err(e) => Err(e),
        }
    }
}

impl vstd::std_specs::convert::TryFromSpecImpl<Fraction> for i64 {
    open spec fn obeys_try_from_spec() -> bool {
        true
    }

    open spec fn try_from_spec(v: Fraction) -> Result<i64, ConversionError> {
        match to_integer_view(v@, -0x8000_0000_0000_0000, 0x7fff_ffff_ffff_ffff) {
            Ok(i) => Ok(i as i64),
            Err(e) => Err(e),
        }
    }
}

impl TryFrom<Fraction> for i128 {
    type Error = ConversionError;

    /// The integer part, truncated toward zero.
    fn try_from(value: Fraction) -> Result<i128, ConversionError> {
        match value.integer_part() {
            Ok(i) => Ok(i as i128),
            Err(e) => Err(e),
        }
    }
}

impl vstd::std_specs::convert::TryFromSpecImpl<Fraction> for i128 {
    open spec fn obeys_try_from_spec() -> bool {
        true
    }

    open spec fn try_from_spec(v: Fraction) -> Result<i128, ConversionError> {
        match to_integer_view(v@, -0x8000_0000_0000_0000_0000_0000_0000_0000, 0x7fff_ffff_ffff_ffff_ffff_ffff_ffff_ffff) {
            Ok(i) => Ok(i as i128),
            Err(e) => Err(e),
        }
    }
}

} // verus!
