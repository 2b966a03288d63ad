//! From a number to its written numeral.

use crate::alphabet::Alphabet;
use crate::error::ConversionError;
use crate::magnitude::Magnitude;
use crate::positional::{
    digit_at, is_digit_count, lemma_remaining_agrees, lemma_unit_radices_leave_all, magnitude_of,
    remaining_at,
};
use crate::radix::RadixSource;
use crate::signed::{Sign, SignedValue};
use crate::system::{
    digit_out_of_range, is_numeral, lemma_extends_transitive, lemma_extension_agrees, stalls_at,
    known_below, NumeralSystem,
};
use vstd::prelude::*;

verus! {

/// The number whose digits are written for `value`: the value itself under a
/// negative base, which needs no sign, and its absolute value otherwise.
pub open spec fn written_number(value: int, radix: &RadixSource) -> int {
    if radix.negative_base() {
        value
    } else {
        magnitude_of(value) as int
    }
}

/// Whether `number` has a numeral of `count` digits under the radices: it
/// is zero and `count` is one, or `count` is its digit count and the radix
/// of every position below is known.
pub open spec fn expands_to(radix: spec_fn(nat) -> int, number: int, count: nat) -> bool {
    if number == 0 {
        count == 1
    } else {
        is_digit_count(number, radix, count) && known_below(radix, count)
    }
}

/// An expansion is the same under a later state of the source of radices,
/// as far as it got on.
proof fn lemma_later_state_same_expansion(
    number: int,
    earlier: &RadixSource,
    later: &RadixSource,
    count: nat,
)
    requires
        later.extends(earlier),
        known_below(earlier.radices(), count),
    ensures
        known_below(later.radices(), count),
        forall|position: nat|
            position <= count ==> #[trigger] remaining_at(number, later.radices(), position)
                == remaining_at(number, earlier.radices(), position),
        forall|position: nat|
            position < count ==> #[trigger] digit_at(number, later.radices(), position) == digit_at(
                number,
                earlier.radices(),
                position,
            ),
{
    let first = earlier.radices();
    let second = later.radices();
    assert forall|position: nat| position < count implies #[trigger] first(position) == second(
        position,
    ) by {
        assert(first(position) != 0);
        assert(earlier.knows(position));
        lemma_extension_agrees(earlier, later, position);
    }
    assert forall|position: nat| position < count implies #[trigger] second(position) != 0 by {
        assert(first(position) == second(position));
    }
    assert forall|position: nat| position <= count implies #[trigger] remaining_at(
        number,
        second,
        position,
    ) == remaining_at(number, first, position) by {
        assert forall|below: nat| below < position implies #[trigger] first(below) == second(
            below,
        ) by {}
        lemma_remaining_agrees(number, first, second, position);
    }
    assert forall|position: nat| position < count implies #[trigger] digit_at(
        number,
        second,
        position,
    ) == digit_at(number, first, position) by {
        assert(first(position) == second(position));
        assert(remaining_at(number, second, position) == remaining_at(number, first, position));
    }
}

/// The digits of a number, least significant first, by successive division
/// by the radix of each position; none for zero. A radix of absolute value
/// one gives the digit zero and leaves what was left. It fails with
/// `InvalidBase` for the position at which the expansion comes to a halt:
/// where something is left and the base function gives no radix, or the
/// position is the last that the machine can count.
pub(crate) fn expand(number: &SignedValue, radix: &mut RadixSource) -> (expanded: Result<
    Vec<Magnitude>,
    ConversionError,
>)
    ensures
        final(radix).extends(old(radix)),
        match expanded {
            Ok(digits) => {
                &&& number@ == 0 ==> digits@.len() == 0
                &&& number@ != 0 ==> expands_to(final(radix).radices(), number@, digits@.len() as nat)
                &&& forall|position: int|
                    0 <= position < digits@.len() ==> (#[trigger] digits@[position])@ == digit_at(
                        number@,
                        final(radix).radices(),
                        position as nat,
                    )
            },
            Err(ConversionError::InvalidBase { position }) => stalls_at(
                final(radix).radices(),
                number@,
                position as nat,
            ),
            Err(_) => false,
        },
{
    if radix.is_unit_base() && !number.is_zero() {
        proof {
            lemma_unit_radices_leave_all(number@, radix.radices(), usize::MAX as nat);
        }
        return Err(ConversionError::InvalidBase { position: usize::MAX });
    }
    let mut remaining = number.clone();
    let mut digits: Vec<Magnitude> = Vec::new();
    while !remaining.is_zero()
        invariant
            number@ == 0 ==> digits@.len() == 0,
            radix.extends(old(radix)),
            remaining@ == remaining_at(number@, radix.radices(), digits@.len() as nat),
            known_below(radix.radices(), digits@.len() as nat),
            digits@.len() > 0 ==> remaining_at(
                number@,
                radix.radices(),
                (digits@.len() - 1) as nat,
            ) != 0,
            forall|position: int|
                0 <= position < digits@.len() ==> (#[trigger] digits@[position])@ == digit_at(
                    number@,
                    radix.radices(),
                    position as nat,
                ),
        decreases usize::MAX - digits@.len(),
    {
        let position = digits.len();
        if position == usize::MAX {
            return Err(ConversionError::InvalidBase { position });
        }
        let ghost before = *radix;
        let found = radix.base_at(position);
        proof {
            lemma_extends_transitive(old(radix), &before, radix);
            lemma_later_state_same_expansion(number@, &before, radix, position as nat);
            assert(remaining_at(number@, radix.radices(), position as nat) == remaining@);
            if position > 0 {
                assert(remaining_at(number@, radix.radices(), (position - 1) as nat)
                    == remaining_at(number@, before.radices(), (position - 1) as nat));
            }
            assert forall|below: int| 0 <= below < position implies (#[trigger] digits@[below])@
                == digit_at(number@, radix.radices(), below as nat) by {
                assert(digit_at(number@, radix.radices(), below as nat) == digit_at(
                    number@,
                    before.radices(),
                    below as nat,
                ));
            }
        }
        let base = match found {
            Ok(base) => base,
            Err(error) => {
                assert(radix.radices()(position as nat) == 0);
                return Err(error);
            },
        };
        assert(radix.radices()(position as nat) == base@);
        let (quotient, digit) = remaining.div_rem(&base).unwrap();
        proof {
            assert(remaining_at(number@, radix.radices(), (position + 1) as nat) == remaining@
                / base@);
            assert(digit_at(number@, radix.radices(), position as nat) == digit@);
        }
        let ghost earlier = digits@;
        digits.push(digit);
        remaining = quotient;
        proof {
            assert forall|below: nat| below < position + 1 implies #[trigger] radix.radices()(below)
                != 0 by {}
            assert forall|below: int| 0 <= below < digits@.len() implies (#[trigger] digits@[below])@
                == digit_at(number@, radix.radices(), below as nat) by {
                if below < position {
                    assert(digits@[below] == earlier[below]);
                }
            }
        }
    }
    Ok(digits)
}

/// The symbols of a sequence of digit values, the digits given least
/// significant first and the symbols written most significant first;
/// `ValueOutOfRange` where a digit value has no symbol in the alphabet.
pub fn digit_symbols(alphabet: &Alphabet, digits: &Vec<Magnitude>) -> (written: Result<
    Vec<char>,
    ConversionError,
>)
    ensures
        match written {
            Ok(symbols) => {
                &&& symbols@.len() == digits@.len()
                &&& forall|position: int|
                    0 <= position < digits@.len() ==> (#[trigger] digits@[position])@
                        < alphabet@.len()
                &&& forall|index: int|
                    0 <= index < symbols@.len() ==> #[trigger] symbols@[index]
                        == alphabet@[digits@[digits@.len() - 1 - index]@ as int]
            },
            Err(error) => {
                &&& error == ConversionError::ValueOutOfRange
                &&& exists|position: int|
                    0 <= position < digits@.len() && (#[trigger] digits@[position])@
                        >= alphabet@.len()
            },
        },
{
    let count = digits.len();
    let base = alphabet.base();
    let mut symbols: Vec<char> = Vec::new();
    let mut index: usize = 0;
    while index < count
        invariant
            index <= count,
            count == digits@.len(),
            base == alphabet@.len(),
            symbols@.len() == index,
            forall|position: int|
                count - index <= position < count ==> (#[trigger] digits@[position])@
                    < alphabet@.len(),
            forall|written: int|
                0 <= written < index ==> #[trigger] symbols@[written] == alphabet@[digits@[count
                    - 1 - written]@ as int],
        decreases count - index,
    {
        let position = count - 1 - index;
        let value = match digits[position].to_usize() {
            Some(value) => value,
            None => {
                assert(digits@[position as int]@ >= alphabet@.len());
                return Err(ConversionError::ValueOutOfRange);
            },
        };
        match alphabet.symbol_of(value) {
            Ok(symbol) => {
                symbols.push(symbol);
            },
            Err(error) => {
                assert(digits@[position as int]@ >= alphabet@.len());
                return Err(error);
            },
        }
        index += 1;
    }
    Ok(symbols)
}

/// What writing `value` comes to, given the system before and after. With
/// `number` for what is expanded, the value itself under a negative base and
/// its absolute value otherwise:
///
/// - symbols and a sign flag: the symbols are the numeral of `number`, the
///   flag says whether the value is negative, and no negative value meets a
///   negative base;
/// - `InvalidBase` for a position: the expansion of `number` comes to a halt
///   there, the radix being unknown or the position the last that the
///   machine can count;
/// - `ValueOutOfRange`: `number` is not zero and has a numeral under the
///   radices, and one of its digits has no symbol in the alphabet;
/// - `ConflictingNegativity`: a negative value meets a negative base, after
///   all its digits were found and have symbols;
/// - nothing else.
pub open spec fn encodes(
    value: int,
    before: &NumeralSystem,
    after: &NumeralSystem,
    outcome: Result<(Seq<char>, bool), ConversionError>,
) -> bool {
    let number = written_number(value, &before.radix);
    match outcome {
        Ok((symbols, minus)) => {
            &&& is_numeral(before.alphabet@, after.radices(), number, symbols)
            &&& minus == (value < 0)
            &&& !(value < 0 && before.radix.negative_base())
        },
        Err(ConversionError::InvalidBase { position }) => stalls_at(
            after.radices(),
            number,
            position as nat,
        ),
        Err(ConversionError::ValueOutOfRange) => number != 0 && exists|count: nat|
            {
                &&& #[trigger] expands_to(after.radices(), number, count)
                &&& digit_out_of_range(before.alphabet@.len(), after.radices(), number, count)
            },
        Err(ConversionError::ConflictingNegativity) => {
            &&& value < 0
            &&& before.radix.negative_base()
            &&& exists|count: nat|
                {
                    &&& #[trigger] expands_to(after.radices(), number, count)
                    &&& !digit_out_of_range(
                        before.alphabet@.len(),
                        after.radices(),
                        number,
                        count,
                    )
                }
        },
        Err(_) => false,
    }
}

/// The symbols and the flag, or the error, that a result of writing holds.
pub open spec fn encoded_view(encoded: Result<(Vec<char>, bool), ConversionError>) -> Result<
    (Seq<char>, bool),
    ConversionError,
> {
    match encoded {
        Ok((symbols, minus)) => Ok((symbols@, minus)),
        Err(error) => Err(error),
    }
}

/// Writes a number. The symbols come out most significant first, with a
/// flag that says whether a minus sign belongs in front of them.
///
/// Zero is the one symbol of the digit value zero, without a minus sign.
/// Of any other number the digits are taken off by successive Euclidean
/// division by the radix of each position, from position 0 upwards, until
/// nothing is left: of the absolute value of the number, or of the number
/// itself under a negative base. A radix of absolute value one gives the
/// digit zero. This fails with `InvalidBase` for the position at which
/// something is left and the radix is unknown, or which is the last that
/// the machine can count: so under a constant radix of absolute value one,
/// for every number but zero. The digits are then mapped to their symbols,
/// which fails with `ValueOutOfRange` where a digit has none. A negative
/// number under a negative base is refused at last with
/// `ConflictingNegativity`.
///
/// The system comes out as a later state of what it was: its base function
/// has answered for every position of the numeral.
pub fn encode(value: &SignedValue, system: &mut NumeralSystem) -> (encoded: Result<
    (Vec<char>, bool),
    ConversionError,
>)
    ensures
        final(system).extends(old(system)),
        encodes(value@, old(system), final(system), encoded_view(encoded)),
{
    let negative_base = system.radix.is_negative_base();
    let number = if negative_base {
        value.clone()
    } else {
        SignedValue::new(Sign::Positive, value.magnitude().clone())
    };
    assert(number@ == written_number(value@, &old(system).radix));
    let mut digits = match expand(&number, &mut system.radix) {
        Ok(digits) => digits,
        Err(error) => {
            return Err(error);
        },
    };
    let ghost radix = system.radices();
    if digits.len() == 0 {
        digits.push(Magnitude::zero());
    }
    let ghost count = digits@.len() as nat;
    assert(expands_to(radix, number@, count));
    let base = system.alphabet.base();
    let symbols = match digit_symbols(&system.alphabet, &digits) {
        Ok(symbols) => symbols,
        Err(error) => {
            proof {
                let position = choose|position: int|
                    0 <= position < digits@.len() && (#[trigger] digits@[position])@
                        >= system.alphabet@.len();
                assert(number@ != 0);
                assert(digit_at(number@, radix, position as nat) >= system.alphabet@.len());
                assert(digit_out_of_range(system.alphabet@.len(), radix, number@, count));
            }
            return Err(error);
        },
    };
    proof {
        if number@ == 0 {
            assert(digits@[0]@ == 0);
            assert(symbols@[0] == system.alphabet@[0]);
            assert(symbols@ =~= seq![system.alphabet@[0]]);
        } else {
            assert forall|position: nat| position < count implies !(#[trigger] digit_at(
                number@,
                radix,
                position,
            ) >= system.alphabet@.len()) by {
                assert(digits@[position as int]@ < system.alphabet@.len());
                assert(digits@[position as int]@ == digit_at(number@, radix, position));
            }
            assert forall|index: int| 0 <= index < symbols@.len() implies #[trigger] symbols@[index]
                == system.alphabet@[digit_at(number@, radix, (symbols@.len() - 1 - index) as nat)
                as int] by {
                let position = symbols@.len() - 1 - index;
                assert(digits@[position]@ == digit_at(number@, radix, position as nat));
            }
        }
        assert(is_numeral(system.alphabet@, radix, number@, symbols@));
    }
    if negative_base && value.is_negative() {
        return Err(ConversionError::ConflictingNegativity);
    }
    Ok((symbols, value.is_negative()))
}

} // verus!
