//! The arbitrary-precision arithmetic that `num_bigint` performs for this
//! crate, on little-endian base-2^32 limb vectors.
//!
//! Every function here is a thin call into `num_bigint`; its contract is
//! taken on trust from that crate and is not proved.

use crate::limbs::limbs_value;
use num_bigint::{BigInt, BigUint, Sign};
use num_integer::Integer;
use num_traits::CheckedSub;
use vstd::prelude::*;

verus! {

/// The lower-case symbol that positional text in a radix up to 36 uses for a
/// digit value: `0`-`9`, then `a`-`z`.
pub open spec fn digit_symbol(digit: nat) -> char {
    if digit < 10 {
        (48 + digit) as char
    } else {
        (87 + digit) as char
    }
}

/// The digit value of a symbol of positional text: `0`-`9`, and the letters
/// of either case counting from ten.
pub open spec fn symbol_digit(symbol: char) -> Option<nat> {
    if '0' <= symbol <= '9' {
        Some((symbol as nat - 48) as nat)
    } else if 'a' <= symbol <= 'z' {
        Some((symbol as nat - 87) as nat)
    } else if 'A' <= symbol <= 'Z' {
        Some((symbol as nat - 55) as nat)
    } else {
        None
    }
}

/// The shortest text of `value` in `radix`, most significant digit first;
/// zero is the single digit `0`.
pub open spec fn radix_text(value: nat, radix: nat) -> Seq<char>
    decreases value,
{
    if radix < 2 || value < radix {
        seq![digit_symbol(value)]
    } else {
        proof {
            assert(value / radix < value) by (nonlinear_arith)
                requires
                    radix >= 2,
                    value >= radix,
            ;
        }
        radix_text(value / radix, radix).push(digit_symbol(value % radix))
    }
}

/// The number that a run of digits and `_` separators denotes in `radix`,
/// or `None` where a symbol is neither a separator nor a digit below `radix`.
pub open spec fn digits_number(text: Seq<char>, radix: nat) -> Option<nat>
    decreases text.len(),
{
    if text.len() == 0 {
        Some(0)
    } else {
        match digits_number(text.drop_last(), radix) {
            None => None,
            Some(high) => if text.last() == '_' {
                Some(high)
            } else {
                match symbol_digit(text.last()) {
                    Some(digit) => if digit < radix {
                        Some(high * radix + digit)
                    } else {
                        None
                    },
                    None => None,
                }
            },
        }
    }
}

/// The number that unsigned text denotes: one optional `+` (not followed by a
/// second one), then a non-empty run of digits and separators that does not
/// begin with a separator.
pub open spec fn unsigned_number(text: Seq<char>, radix: nat) -> Option<nat> {
    let body = if text.len() >= 1 && text[0] == '+' && !(text.len() >= 2 && text[1] == '+') {
        text.skip(1)
    } else {
        text
    };
    if body.len() == 0 || body[0] == '_' {
        None
    } else {
        digits_number(body, radix)
    }
}

/// The integer that signed text denotes: an optional `-` (not followed by a
/// `+`) in front of unsigned text.
pub open spec fn signed_number(text: Seq<char>, radix: nat) -> Option<int> {
    if text.len() >= 1 && text[0] == '-' {
        let body = if text.len() >= 2 && text[1] == '+' {
            text
        } else {
            text.skip(1)
        };
        match unsigned_number(body, radix) {
            Some(magnitude) => Some(-(magnitude as int)),
            None => None,
        }
    } else {
        match unsigned_number(text, radix) {
            Some(magnitude) => Some(magnitude as int),
            None => None,
        }
    }
}

/// The integer that a sign flag and limbs stand for, where there is one.
pub open spec fn signed_limbs_value(parsed: Option<(bool, Vec<u32>)>) -> Option<int> {
    match parsed {
        Some((negative, limbs)) => Some(
            if negative {
                -(limbs_value(limbs@) as int)
            } else {
                limbs_value(limbs@) as int
            },
        ),
        None => None,
    }
}

/// `BigUint`'s `+`: the limbs of the sum of two numbers.
#[verifier::external_body]
pub(crate) fn limbs_sum(a: &Vec<u32>, b: &Vec<u32>) -> (sum: Vec<u32>)
    ensures
        limbs_value(sum@) == limbs_value(a@) + limbs_value(b@),
{
    (BigUint::from_slice(a) + BigUint::from_slice(b)).to_u32_digits()
}

/// `BigUint`'s `checked_sub`: the limbs of the difference of two numbers, or
/// `None` where the second is the larger.
#[verifier::external_body]
pub(crate) fn limbs_difference(a: &Vec<u32>, b: &Vec<u32>) -> (difference: Option<Vec<u32>>)
    ensures
        difference is None <==> limbs_value(a@) < limbs_value(b@),
        difference matches Some(limbs) ==> limbs_value(limbs@) == limbs_value(a@) - limbs_value(
            b@,
        ),
{
    let difference = BigUint::from_slice(a).checked_sub(&BigUint::from_slice(b))?;
    Some(difference.to_u32_digits())
}

/// `BigUint`'s `*`: the limbs of the product of two numbers.
#[verifier::external_body]
pub(crate) fn limbs_product(a: &Vec<u32>, b: &Vec<u32>) -> (product: Vec<u32>)
    ensures
        limbs_value(product@) == limbs_value(a@) * limbs_value(b@),
{
    (BigUint::from_slice(a) * BigUint::from_slice(b)).to_u32_digits()
}

/// `Integer::div_rem` on `BigUint`: the limbs of the quotient and of the
/// remainder of a division. The divisor must not be zero, on which
/// `num_bigint` panics.
#[verifier::external_body]
pub(crate) fn limbs_quotient_remainder(a: &Vec<u32>, b: &Vec<u32>) -> (parts: (Vec<u32>, Vec<u32>))
    requires
        limbs_value(b@) != 0,
    ensures
        limbs_value(parts.0@) == limbs_value(a@) / limbs_value(b@),
        limbs_value(parts.1@) == limbs_value(a@) % limbs_value(b@),
{
    let (quotient, remainder) = BigUint::from_slice(a).div_rem(&BigUint::from_slice(b));
    (quotient.to_u32_digits(), remainder.to_u32_digits())
}

/// `BigUint::to_str_radix`: the text of a number in a radix from 2 to 36,
/// outside of which `num_bigint` panics.
#[verifier::external_body]
pub(crate) fn limbs_text(limbs: &Vec<u32>, radix: u32) -> (text: String)
    requires
        2 <= radix <= 36,
    ensures
        text@ == radix_text(limbs_value(limbs@), radix as nat),
{
    BigUint::from_slice(limbs).to_str_radix(radix)
}

/// `BigInt::parse_bytes`: the sign and limbs of the integer that a text
/// denotes in a radix from 2 to 36, outside of which `num_bigint` panics.
/// A negative sign is only reported of a number other than zero.
#[verifier::external_body]
pub(crate) fn text_limbs(text: &str, radix: u32) -> (parsed: Option<(bool, Vec<u32>)>)
    requires
        2 <= radix <= 36,
    ensures
        signed_limbs_value(parsed) == signed_number(text@, radix as nat),
        parsed matches Some((negative, limbs)) ==> (negative ==> limbs_value(limbs@) != 0),
{
    let (sign, limbs) = BigInt::parse_bytes(text.as_bytes(), radix)?.to_u32_digits();
    match sign {
        Sign::Minus => Some((true, limbs)),
        Sign::NoSign => Some((false, limbs)),
        Sign::Plus => Some((false, limbs)),
    }
}

} // verus!
