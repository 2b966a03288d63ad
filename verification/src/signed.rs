//! Integers of arbitrary size with a sign.

use crate::magnitude::Magnitude;
use crate::positional::{lemma_euclid_unique, magnitude_of};
use vstd::arithmetic::div_mod::lemma_fundamental_div_mod;
use vstd::prelude::*;

verus! {

/// The sign of a number. Zero is positive.
#[derive(Debug, Clone, Copy, PartialEq, Eq, Structural)]
pub enum Sign {
    Positive,
    Negative,
}

/// An integer of arbitrary size: a sign and a magnitude. There is no
/// negative zero. Its view is the integer itself.
#[derive(Debug)]
pub struct SignedValue {
    negative: bool,
    magnitude: Magnitude,
}

impl View for SignedValue {
    type V = int;

    closed spec fn view(&self) -> int {
        if self.negative {
            -(self.magnitude@ as int)
        } else {
            self.magnitude@ as int
        }
    }
}

impl SignedValue {
    #[verifier::type_invariant]
    spec fn no_negative_zero(self) -> bool {
        self.negative ==> self.magnitude@ != 0
    }

    /// The number with the given sign and magnitude; zero comes out
    /// positive whatever sign is given.
    pub fn new(sign: Sign, magnitude: Magnitude) -> (value: SignedValue)
        ensures
            value@ == (if sign == Sign::Negative {
                -(magnitude@ as int)
            } else {
                magnitude@ as int
            }),
    {
        let negative = sign == Sign::Negative && !magnitude.is_zero();
        SignedValue { negative, magnitude }
    }

    /// The number of a machine integer.
    pub fn from_i64(number: i64) -> (value: SignedValue)
        ensures
            value@ == number,
    {
        if number < 0 {
            let magnitude = Magnitude::from_u64((-(number + 1)) as u64 + 1);
            SignedValue { negative: true, magnitude }
        } else {
            SignedValue { negative: false, magnitude: Magnitude::from_u64(number as u64) }
        }
    }

    /// The number zero.
    pub fn zero() -> (value: SignedValue)
        ensures
            value@ == 0,
    {
        SignedValue { negative: false, magnitude: Magnitude::zero() }
    }

    /// The sign of the number.
    pub fn sign(&self) -> (sign: Sign)
        ensures
            sign == (if self@ < 0 {
                Sign::Negative
            } else {
                Sign::Positive
            }),
    {
        proof {
            use_type_invariant(self);
        }
        if self.negative {
            Sign::Negative
        } else {
            Sign::Positive
        }
    }

    /// Whether the number is below zero.
    pub fn is_negative(&self) -> (negative: bool)
        ensures
            negative == (self@ < 0),
    {
        proof {
            use_type_invariant(self);
        }
        self.negative
    }

    /// Whether the number is zero.
    pub fn is_zero(&self) -> (zero: bool)
        ensures
            zero == (self@ == 0),
    {
        self.magnitude.is_zero()
    }

    /// The absolute value of the number.
    pub fn magnitude(&self) -> (magnitude: &Magnitude)
        ensures
            magnitude@ == magnitude_of(self@),
    {
        &self.magnitude
    }

    /// The number with the opposite sign.
    pub fn negated(&self) -> (value: SignedValue)
        ensures
            value@ == -self@,
    {
        let magnitude = self.magnitude.clone();
        let negative = !self.negative && !magnitude.is_zero();
        SignedValue { negative, magnitude }
    }

    /// `self * factor + addend`, the step of Horner's rule, for a digit
    /// `addend` that is not negative.
    pub fn times_plus(&self, factor: &SignedValue, addend: &Magnitude) -> (result: SignedValue)
        ensures
            result@ == self@ * factor@ + addend@,
    {
        proof {
            use_type_invariant(self);
            use_type_invariant(factor);
        }
        let product = self.magnitude.times(&factor.magnitude);
        let ghost a = self.magnitude@ as int;
        let ghost b = factor.magnitude@ as int;
        if self.negative == factor.negative {
            assert(self@ * factor@ == a * b) by (nonlinear_arith)
                requires
                    self@ == a && factor@ == b || self@ == -a && factor@ == -b,
            ;
            SignedValue { negative: false, magnitude: product.plus(addend) }
        } else {
            assert(self@ * factor@ == -(a * b)) by (nonlinear_arith)
                requires
                    self@ == -a && factor@ == b || self@ == a && factor@ == -b,
            ;
            match product.minus(addend) {
                Some(rest) => {
                    let negative = !rest.is_zero();
                    SignedValue { negative, magnitude: rest }
                },
                None => {
                    let rest = addend.minus(&product);
                    SignedValue { negative: false, magnitude: rest.unwrap() }
                },
            }
        }
    }

    /// Euclidean division: the quotient and the remainder of the division by
    /// `divisor`, the remainder never negative; `None` where the divisor is
    /// zero.
    pub fn div_rem(&self, divisor: &SignedValue) -> (parts: Option<(SignedValue, Magnitude)>)
        ensures
            parts is None <==> divisor@ == 0,
            parts matches Some((quotient, remainder)) ==> {
                &&& quotient@ == self@ / divisor@
                &&& remainder@ == self@ % divisor@
            },
    {
        proof {
            use_type_invariant(self);
            use_type_invariant(divisor);
        }
        match self.magnitude.div_rem(&divisor.magnitude) {
            None => None,
            Some((quotient, remainder)) => {
                let ghost a = self.magnitude@ as int;
                let ghost b = divisor.magnitude@ as int;
                let ghost q = quotient@ as int;
                let ghost r = remainder@ as int;
                proof {
                    lemma_fundamental_div_mod(a, b);
                    vstd::arithmetic::div_mod::lemma_mod_bound(a, b);
                    assert(a == b * q + r);
                }
                if !self.negative || remainder.is_zero() {
                    let negative = (self.negative != divisor.negative) && !quotient.is_zero();
                    let result = SignedValue { negative, magnitude: quotient };
                    proof {
                        assert(self@ == divisor@ * result@ + r) by (nonlinear_arith)
                            requires
                                a == b * q + r,
                                self@ == a || (self@ == -a && r == 0),
                                divisor@ == b || divisor@ == -b,
                                (self@ < 0) == (self@ != a),
                                result@ == (if (self@ < 0) != (divisor@ < 0) {
                                    -q
                                } else {
                                    q
                                }),
                                a >= 0,
                                b > 0,
                                q >= 0,
                                r >= 0,
                        ;
                        lemma_euclid_unique(self@, divisor@, result@, r);
                    }
                    Some((result, remainder))
                } else {
                    let one = Magnitude::from_u64(1);
                    let raised = quotient.plus(&one);
                    let rest = divisor.magnitude.minus(&remainder).unwrap();
                    let result = SignedValue { negative: !divisor.negative, magnitude: raised };
                    proof {
                        assert(self@ == divisor@ * result@ + (b - r)) by (nonlinear_arith)
                            requires
                                a == b * q + r,
                                self@ == -a,
                                divisor@ == b || divisor@ == -b,
                                result@ == (if divisor@ < 0 {
                                    q + 1
                                } else {
                                    -(q + 1)
                                }),
                                b > 0,
                        ;
                        lemma_euclid_unique(self@, divisor@, result@, b - r);
                    }
                    Some((result, rest))
                }
            },
        }
    }
}

impl Clone for SignedValue {
    fn clone(&self) -> (copy: Self)
        ensures
            copy@ == self@,
    {
        proof {
            use_type_invariant(self);
        }
        SignedValue { negative: self.negative, magnitude: self.magnitude.clone() }
    }
}

impl PartialEq for SignedValue {
    fn eq(&self, other: &SignedValue) -> (equal: bool) {
        proof {
            use_type_invariant(self);
            use_type_invariant(other);
        }
        self.negative == other.negative && self.magnitude == other.magnitude
    }
}

impl vstd::std_specs::cmp::PartialEqSpecImpl for SignedValue {
    open spec fn obeys_eq_spec() -> bool {
        true
    }

    open spec fn eq_spec(&self, other: &SignedValue) -> bool {
        self@ == other@
    }
}

impl Eq for SignedValue {

}

} // verus!
