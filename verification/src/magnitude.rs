//! Non-negative integers of arbitrary size.

use crate::bignum::{
    limbs_difference, limbs_product, limbs_quotient_remainder, limbs_sum, limbs_text, radix_text,
    signed_number, text_limbs,
};
use crate::limbs::{
    is_normal, lemma_normal_unique, lemma_normal_zero, lemma_value_long, lemma_value_one,
    lemma_value_push_zero, lemma_value_two, limbs_value,
};
use vstd::prelude::*;

verus! {

/// A non-negative integer of arbitrary size. Its view is the number itself;
/// two magnitudes are equal exactly when they denote the same number.
#[derive(Debug)]
pub struct Magnitude {
    limbs: Vec<u32>,
}

impl View for Magnitude {
    type V = nat;

    closed spec fn view(&self) -> nat {
        limbs_value(self.limbs@)
    }
}

impl Magnitude {
    #[verifier::type_invariant]
    spec fn normal(self) -> bool {
        is_normal(self.limbs@)
    }

    /// The magnitude that the limbs denote.
    fn from_limbs(limbs: Vec<u32>) -> (magnitude: Magnitude)
        ensures
            magnitude@ == limbs_value(limbs@),
    {
        let mut limbs = limbs;
        let ghost value = limbs_value(limbs@);
        while limbs.len() > 0 && limbs[limbs.len() - 1] == 0
            invariant
                limbs_value(limbs@) == value,
            decreases limbs.len(),
        {
            proof {
                assert(limbs@ =~= limbs@.drop_last().push(0));
                lemma_value_push_zero(limbs@.drop_last());
            }
            limbs.pop();
        }
        Magnitude { limbs }
    }

    /// The number zero.
    pub fn zero() -> (magnitude: Magnitude)
        ensures
            magnitude@ == 0,
    {
        Magnitude { limbs: Vec::new() }
    }

    /// The magnitude of a machine integer.
    pub fn from_u64(value: u64) -> (magnitude: Magnitude)
        ensures
            magnitude@ == value,
    {
        let low: u32 = (value % 4294967296) as u32;
        let high: u32 = (value / 4294967296) as u32;
        let mut limbs: Vec<u32> = Vec::new();
        limbs.push(low);
        limbs.push(high);
        proof {
            assert(limbs@ =~= seq![low, high]);
            lemma_value_two(low, high);
        }
        Magnitude::from_limbs(limbs)
    }

    /// The magnitude of a machine-sized integer.
    pub fn from_usize(value: usize) -> (magnitude: Magnitude)
        ensures
            magnitude@ == value,
    {
        Magnitude::from_u64(value as u64)
    }

    /// Whether this is the number zero.
    pub fn is_zero(&self) -> (zero: bool)
        ensures
            zero == (self@ == 0),
    {
        proof {
            use_type_invariant(self);
            lemma_normal_zero(self.limbs@);
        }
        self.limbs.len() == 0
    }

    /// The number as a machine integer, where it fits in one.
    pub fn to_u64(&self) -> (value: Option<u64>)
        ensures
            value is Some <==> self@ <= u64::MAX,
            value matches Some(number) ==> number == self@,
    {
        proof {
            use_type_invariant(self);
        }
        let count = self.limbs.len();
        if count == 0 {
            Some(0)
        } else if count == 1 {
            proof {
                assert(self.limbs@ =~= seq![self.limbs@[0]]);
                lemma_value_one(self.limbs@[0]);
            }
            Some(self.limbs[0] as u64)
        } else if count == 2 {
            proof {
                assert(self.limbs@ =~= seq![self.limbs@[0], self.limbs@[1]]);
                lemma_value_two(self.limbs@[0], self.limbs@[1]);
            }
            Some(self.limbs[0] as u64 + 4294967296 * (self.limbs[1] as u64))
        } else {
            proof {
                lemma_value_long(self.limbs@);
            }
            None
        }
    }

    /// The number as a machine-sized integer, where it fits in one.
    pub fn to_usize(&self) -> (value: Option<usize>)
        ensures
            value is Some <==> self@ <= usize::MAX,
            value matches Some(number) ==> number == self@,
    {
        match self.to_u64() {
            Some(number) => if number <= usize::MAX as u64 {
                Some(number as usize)
            } else {
                None
            },
            None => None,
        }
    }

    /// The sum of two magnitudes.
    pub fn plus(&self, other: &Magnitude) -> (sum: Magnitude)
        ensures
            sum@ == self@ + other@,
    {
        Magnitude::from_limbs(limbs_sum(&self.limbs, &other.limbs))
    }

    /// The difference of two magnitudes, or `None` where `other` is the larger.
    pub fn minus(&self, other: &Magnitude) -> (difference: Option<Magnitude>)
        ensures
            difference is None <==> self@ < other@,
            difference matches Some(rest) ==> rest@ == self@ - other@,
    {
        match limbs_difference(&self.limbs, &other.limbs) {
            Some(limbs) => Some(Magnitude::from_limbs(limbs)),
            None => None,
        }
    }

    /// The product of two magnitudes.
    pub fn times(&self, other: &Magnitude) -> (product: Magnitude)
        ensures
            product@ == self@ * other@,
    {
        Magnitude::from_limbs(limbs_product(&self.limbs, &other.limbs))
    }

    /// `self * factor + addend`, the step of Horner's rule.
    pub fn times_plus(&self, factor: &Magnitude, addend: &Magnitude) -> (result: Magnitude)
        ensures
            result@ == self@ * factor@ + addend@,
    {
        self.times(factor).plus(addend)
    }

    /// Quotient and remainder of the division by `divisor`, or `None` where
    /// the divisor is zero.
    pub fn div_rem(&self, divisor: &Magnitude) -> (parts: Option<(Magnitude, Magnitude)>)
        ensures
            parts is None <==> divisor@ == 0,
            parts matches Some((quotient, remainder)) ==> {
                &&& quotient@ == self@ / divisor@
                &&& remainder@ == self@ % divisor@
            },
    {
        if divisor.is_zero() {
            None
        } else {
            let (quotient, remainder) = limbs_quotient_remainder(&self.limbs, &divisor.limbs);
            Some((Magnitude::from_limbs(quotient), Magnitude::from_limbs(remainder)))
        }
    }

    /// Whether this magnitude is strictly the smaller of the two.
    pub fn less_than(&self, other: &Magnitude) -> (less: bool)
        ensures
            less == (self@ < other@),
    {
        limbs_difference(&self.limbs, &other.limbs).is_none()
    }

    /// The decimal text of the number, most significant digit first.
    pub fn to_decimal(&self) -> (text: String)
        ensures
            text@ == radix_text(self@, 10),
    {
        limbs_text(&self.limbs, 10)
    }

    /// The magnitude that decimal text denotes, or `None` where the text
    /// denotes no integer or a negative one.
    pub fn from_decimal(text: &str) -> (magnitude: Option<Magnitude>)
        ensures
            match signed_number(text@, 10) {
                Some(number) => if number >= 0 {
                    magnitude matches Some(parsed) && parsed@ == number
                } else {
                    magnitude is None
                },
                None => magnitude is None,
            },
    {
        match text_limbs(text, 10) {
            Some((negative, limbs)) => if negative {
                None
            } else {
                Some(Magnitude::from_limbs(limbs))
            },
            None => None,
        }
    }
}

impl Clone for Magnitude {
    fn clone(&self) -> (copy: Self)
        ensures
            copy@ == self@,
    {
        proof {
            use_type_invariant(self);
        }
        let limbs = self.limbs.clone();
        assert(limbs@ =~= self.limbs@);
        Magnitude { limbs }
    }
}

impl PartialEq for Magnitude {
    fn eq(&self, other: &Magnitude) -> (equal: bool) {
        proof {
            use_type_invariant(self);
            use_type_invariant(other);
            if self@ == other@ {
                lemma_normal_unique(self.limbs@, other.limbs@);
            }
        }
        let count = self.limbs.len();
        if count != other.limbs.len() {
            return false;
        }
        let mut index: usize = 0;
        while index < count
            invariant
                count == self.limbs.len(),
                count == other.limbs.len(),
                index <= count,
                self@ == other@ ==> self.limbs@ == other.limbs@,
                forall|i: int| 0 <= i < index ==> self.limbs@[i] == other.limbs@[i],
            decreases count - index,
        {
            if self.limbs[index] != other.limbs[index] {
                return false;
            }
            index += 1;
        }
        assert(self.limbs@ =~= other.limbs@);
        true
    }
}

impl vstd::std_specs::cmp::PartialEqSpecImpl for Magnitude {
    open spec fn obeys_eq_spec() -> bool {
        true
    }

    open spec fn eq_spec(&self, other: &Magnitude) -> bool {
        self@ == other@
    }
}

impl Eq for Magnitude {

}

} // verus!
