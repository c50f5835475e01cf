use crate::fraction::Fraction;
use crate::model::{add_view, div_view, int_view, mul_view, neg_view, sub_view, Category};
use vstd::prelude::*;

verus! {

impl std::ops::Add<Fraction> for Fraction {
    type Output = Fraction;

    /// The sum: the category table first, the exact sum only for two finite values.
    fn add(self, rhs: Fraction) -> Fraction {
        let add_type = self.get_add_type(rhs);
        match add_type {
            Category::Normal => {
                let (nume, deno) = self.normal_add(rhs);
                Fraction::from_canonical(nume, deno)
            },
            _ => Fraction::special(add_type),
        }
    }
}

impl vstd::std_specs::ops::AddSpecImpl<Fraction> for Fraction {
    open spec fn obeys_add_spec() -> bool {
        true
    }

    open spec fn add_req(self, rhs: Fraction) -> bool {
        true
    }

    open spec fn add_spec(self, rhs: Fraction) -> Fraction {
        Fraction::from_view(add_view(self@, rhs@))
    }
}

impl std::ops::Sub<Fraction> for Fraction {
    type Output = Fraction;

    /// The difference, as the sum with the negated right-hand side.
    fn sub(self, rhs: Fraction) -> Fraction {
        self + rhs.negated()
    }
}

impl vstd::std_specs::ops::SubSpecImpl<Fraction> for Fraction {
    open spec fn obeys_sub_spec() -> bool {
        true
    }

    open spec fn sub_req(self, rhs: Fraction) -> bool {
        true
    }

    open spec fn sub_spec(self, rhs: Fraction) -> Fraction {
        Fraction::from_view(sub_view(self@, rhs@))
    }
}

impl std::ops::Mul<Fraction> for Fraction {
    type Output = Fraction;

    /// The product: the category table first, the exact product only for two nonzero
    /// finite values.
    fn mul(self, rhs: Fraction) -> Fraction {
        let mul_type = self.get_mul_type(rhs);
        match mul_type {
            Category::Normal => {
                let (nume, deno) = self.normal_mul(rhs);
                Fraction::from_canonical(nume, deno)
            },
            _ => Fraction::special(mul_type),
        }
    }
}

impl vstd::std_specs::ops::MulSpecImpl<Fraction> for Fraction {
    open spec fn obeys_mul_spec() -> bool {
        true
    }

    open spec fn mul_req(self, rhs: Fraction) -> bool {
        true
    }

    open spec fn mul_spec(self, rhs: Fraction) -> Fraction {
        Fraction::from_view(mul_view(self@, rhs@))
    }
}

impl std::ops::Div<Fraction> for Fraction {
    type Output = Fraction;

    /// The quotient, as the product with the reciprocal of the right-hand side.
    fn div(self, rhs: Fraction) -> Fraction {
        self * rhs.reciprocal()
    }
}

impl vstd::std_specs::ops::DivSpecImpl<Fraction> for Fraction {
    open spec fn obeys_div_spec() -> bool {
        true
    }

    open spec fn div_req(self, rhs: Fraction) -> bool {
        true
    }

    open spec fn div_spec(self, rhs: Fraction) -> Fraction {
        Fraction::from_view(div_view(self@, rhs@))
    }
}

impl std::ops::Neg for Fraction {
    type Output = Fraction;

    fn neg(self) -> Fraction {
        self.negated()
    }
}

impl vstd::std_specs::ops::NegSpecImpl for Fraction {
    open spec fn obeys_neg_spec() -> bool {
        true
    }

    open spec fn neg_req(self) -> bool {
        true
    }

    open spec fn neg_spec(self) -> Fraction {
        Fraction::from_view(neg_view(self@))
    }
}

impl std::ops::AddAssign<Fraction> for Fraction {
    fn add_assign(&mut self, rhs: Fraction)
        ensures
            *final(self) == Fraction::from_view(add_view(old(self)@, rhs@)),
    {
        *self = *self + rhs;
    }
}

impl std::ops::SubAssign<Fraction> for Fraction {
    fn sub_assign(&mut self, rhs: Fraction)
        ensures
            *final(self) == Fraction::from_view(sub_view(old(self)@, rhs@)),
    {
        *self = *self - rhs;
    }
}

impl std::ops::MulAssign<Fraction> for Fraction {
    fn mul_assign(&mut self, rhs: Fraction)
        ensures
            *final(self) == Fraction::from_view(mul_view(old(self)@, rhs@)),
    {
        *self = *self * rhs;
    }
}

impl std::ops::DivAssign<Fraction> for Fraction {
    fn div_assign(&mut self, rhs: Fraction)
        ensures
            *final(self) == Fraction::from_view(div_view(old(self)@, rhs@)),
    {
        *self = *self / rhs;
    }
}

impl std::ops::Add<i32> for Fraction {
    type Output = Fraction;

    fn add(self, rhs: i32) -> Fraction {
        let value = Fraction::from(rhs);
        proof {
            Fraction::lemma_view_of(int_view(rhs as int));
        }
        self + value
    }
}

impl vstd::std_specs::ops::AddSpecImpl<i32> for Fraction {
    open spec fn obeys_add_spec() -> bool {
        true
    }

    open spec fn add_req(self, rhs: i32) -> bool {
        true
    }

    open spec fn add_spec(self, rhs: i32) -> Fraction {
        Fraction::from_view(add_view(self@, int_view(rhs as int)))
    }
}

impl std::ops::Sub<i32> for Fraction {
    type Output = Fraction;

    fn sub(self, rhs: i32) -> Fraction {
        let value = Fraction::from(rhs);
        proof {
            Fraction::lemma_view_of(int_view(rhs as int));
        }
        self - value
    }
}

impl vstd::std_specs::ops::SubSpecImpl<i32> for Fraction {
    open spec fn obeys_sub_spec() -> bool {
        true
    }

    open spec fn sub_req(self, rhs: i32) -> bool {
        true
    }

    open spec fn sub_spec(self, rhs: i32) -> Fraction {
        Fraction::from_view(sub_view(self@, int_view(rhs as int)))
    }
}

impl std::ops::Mul<i32> for Fraction {
    type Output = Fraction;

    fn mul(self, rhs: i32) -> Fraction {
        let value = Fraction::from(rhs);
        proof {
            Fraction::lemma_view_of(int_view(rhs as int));
        }
        self * value
    }
}

impl vstd::std_specs::ops::MulSpecImpl<i32> for Fraction {
    open spec fn obeys_mul_spec() -> bool {
        true
    }

    open spec fn mul_req(self, rhs: i32) -> bool {
        true
    }

    open spec fn mul_spec(self, rhs: i32) -> Fraction {
        Fraction::from_view(mul_view(self@, int_view(rhs as int)))
    }
}

impl std::ops::Div<i32> for Fraction {
    type Output = Fraction;

    fn div(self, rhs: i32) -> Fraction {
        let value = Fraction::from(rhs);
        proof {
            Fraction::lemma_view_of(int_view(rhs as int));
        }
        self / value
    }
}

impl vstd::std_specs::ops::DivSpecImpl<i32> for Fraction {
    open spec fn obeys_div_spec() -> bool {
        true
    }

    open spec fn div_req(self, rhs: i32) -> bool {
        true
    }

    open spec fn div_spec(self, rhs: i32) -> Fraction {
        Fraction::from_view(div_view(self@, int_view(rhs as int)))
    }
}

} // verus!
