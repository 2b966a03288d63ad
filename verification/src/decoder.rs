//! From a written numeral to the number it denotes.

use crate::alphabet::Alphabet;
use crate::error::ConversionError;
use crate::magnitude::Magnitude;
use crate::positional::numeral_value;
use crate::signed::SignedValue;
use crate::system::{
    denoted, digit_values, lemma_extends_transitive, lemma_extension_agrees,
    lemma_later_state_same_value, NumeralSystem,
};
use vstd::prelude::*;

verus! {

/// The digit values of the symbols of a numeral, in the order in which the
/// symbols are written; `UnknownSymbol` where a symbol is not in the
/// alphabet.
pub fn symbol_values(alphabet: &Alphabet, symbols: &Vec<char>) -> (mapped: Result<
    Vec<usize>,
    ConversionError,
>)
    ensures
        match mapped {
            Ok(values) => {
                &&& values@.len() == symbols@.len()
                &&& forall|index: int|
                    0 <= index < symbols@.len() ==> alphabet@.contains(#[trigger] symbols@[index])
                &&& forall|index: int|
                    0 <= index < symbols@.len() ==> #[trigger] values@[index]
                        == alphabet@.index_of(symbols@[index])
            },
            Err(error) => {
                &&& error == ConversionError::UnknownSymbol
                &&& exists|index: int|
                    0 <= index < symbols@.len() && !alphabet@.contains(#[trigger] symbols@[index])
            },
        },
{
    let mut values: Vec<usize> = Vec::new();
    let mut index: usize = 0;
    while index < symbols.len()
        invariant
            index <= symbols.len(),
            values@.len() == index,
            forall|i: int| 0 <= i < index ==> alphabet@.contains(#[trigger] symbols@[i]),
            forall|i: int|
                0 <= i < index ==> #[trigger] values@[i] == alphabet@.index_of(symbols@[i]),
        decreases symbols.len() - index,
    {
        match alphabet.value_of(symbols[index]) {
            Ok(value) => {
                assert(alphabet@.contains(symbols@[index as int]));
                values.push(value);
            },
            Err(error) => {
                return Err(error);
            },
        }
        index += 1;
    }
    Ok(values)
}

/// The number that `symbols` denote with the sign flag `minus`: the
/// negative of the denoted number where the flag is set.
pub open spec fn signed_denoted(
    alphabet: Seq<char>,
    radix: spec_fn(nat) -> int,
    symbols: Seq<char>,
    minus: bool,
) -> int {
    if minus {
        -denoted(alphabet, radix, symbols)
    } else {
        denoted(alphabet, radix, symbols)
    }
}

/// Whether every symbol of a numeral is in the alphabet.
pub open spec fn all_symbols_known(alphabet: Seq<char>, symbols: Seq<char>) -> bool {
    forall|index: int| 0 <= index < symbols.len() ==> alphabet.contains(#[trigger] symbols[index])
}

/// What reading a numeral comes to, given the system before and after:
///
/// - a number: every symbol is in the alphabet, the radix of every position
///   of the numeral is known afterwards, no minus sign stands in front of a
///   numeral of a negative base, and the number is the one that the symbols
///   denote under the radices, negated where the minus sign is set;
/// - `UnknownSymbol`: a symbol is not in the alphabet, and no radix was asked
///   for;
/// - `InvalidBase` for a position of the numeral: every symbol is in the
///   alphabet, the radix of the position is still unknown, and those of all
///   positions above it are known;
/// - `ConflictingNegativity`: every symbol is in the alphabet, and a minus
///   sign stands in front of a numeral of a negative base;
/// - nothing else.
pub open spec fn decodes(
    symbols: Seq<char>,
    minus: bool,
    before: &NumeralSystem,
    after: &NumeralSystem,
    outcome: Result<int, ConversionError>,
) -> bool {
    match outcome {
        Ok(value) => {
            &&& all_symbols_known(before.alphabet@, symbols)
            &&& forall|position: nat| position < symbols.len() ==> after.radix.knows(position)
            &&& !(minus && before.radix.negative_base())
            &&& value == signed_denoted(before.alphabet@, after.radices(), symbols, minus)
        },
        Err(ConversionError::UnknownSymbol) => {
            &&& !all_symbols_known(before.alphabet@, symbols)
            &&& forall|position: nat| after.radix.knows(position) == before.radix.knows(position)
        },
        Err(ConversionError::InvalidBase { position }) => {
            &&& all_symbols_known(before.alphabet@, symbols)
            &&& position < symbols.len()
            &&& !after.radix.knows(position as nat)
            &&& forall|above: nat| position < above < symbols.len() ==> after.radix.knows(above)
        },
        Err(ConversionError::ConflictingNegativity) => {
            &&& all_symbols_known(before.alphabet@, symbols)
            &&& minus
            &&& before.radix.negative_base()
        },
        Err(_) => false,
    }
}

/// The number or the error that a result of reading holds.
pub open spec fn decoded_view(decoded: Result<SignedValue, ConversionError>) -> Result<
    int,
    ConversionError,
> {
    match decoded {
        Ok(value) => Ok(value@),
        Err(error) => Err(error),
    }
}

/// Reads a numeral. `symbols` are written most significant first; `minus`
/// says whether the literal began with a minus sign.
///
/// The symbols are mapped to their digit values, which fails with
/// `UnknownSymbol` where one is not in the alphabet. The radix of each
/// position is then taken from the most significant position downwards, and
/// the value is computed by Horner's rule; this fails with `InvalidBase`
/// where a base function gives no radix. A minus sign in front of a numeral
/// of a negative base is refused with `ConflictingNegativity`. The digits of
/// a negative base are weighted by its powers, signs included.
///
/// The system comes out as a later state of what it was: its base function
/// has answered for every position of the numeral.
pub fn decode(symbols: &Vec<char>, minus: bool, system: &mut NumeralSystem) -> (decoded: Result<
    SignedValue,
    ConversionError,
>)
    ensures
        final(system).extends(old(system)),
        decodes(symbols@, minus, old(system), final(system), decoded_view(decoded)),
{
    let values = match symbol_values(&system.alphabet, symbols) {
        Ok(values) => values,
        Err(error) => {
            return Err(error);
        },
    };
    let count = symbols.len();
    let ghost digits = digit_values(system.alphabet@, symbols@);
    let mut value = SignedValue::zero();
    let mut index: usize = 0;
    while index < count
        invariant
            index <= count,
            count == symbols@.len(),
            values@.len() == count,
            digits == digit_values(old(system).alphabet@, symbols@),
            forall|i: int|
                0 <= i < count ==> #[trigger] values@[i] == old(system).alphabet@.index_of(
                    symbols@[i],
                ),
            forall|i: int|
                0 <= i < count ==> old(system).alphabet@.contains(#[trigger] symbols@[i]),
            system.extends(old(system)),
            system.radix.negative_base() == old(system).radix.negative_base(),
            forall|position: nat| count - index <= position < count ==> system.radix.knows(position),
            value@ == numeral_value(digits, system.radices(), (count - index) as nat),
        decreases count - index,
    {
        let position = count - 1 - index;
        let ghost before = system.radix;
        let found = system.radix.base_at(position);
        proof {
            lemma_extends_transitive(&old(system).radix, &before, &system.radix);
            assert forall|known: nat| position < known < count implies system.radix.knows(
                known,
            ) by {
                lemma_extension_agrees(&before, &system.radix, known);
            }
        }
        let radix = match found {
            Ok(radix) => radix,
            Err(error) => {
                return Err(error);
            },
        };
        let digit = Magnitude::from_usize(values[index]);
        proof {
            lemma_later_state_same_value(digits, &before, &system.radix, (position + 1) as nat);
            let rest = numeral_value(digits, system.radices(), (position + 1) as nat);
            assert(digits[position as int] == values@[index as int]);
            assert(system.radices()(position as nat) == radix@);
            assert(rest * radix@ == radix@ * rest) by (nonlinear_arith);
        }
        value = value.times_plus(&radix, &digit);
        index += 1;
    }
    if minus {
        if system.radix.is_negative_base() {
            return Err(ConversionError::ConflictingNegativity);
        }
        Ok(value.negated())
    } else {
        Ok(value)
    }
}

} // verus!
