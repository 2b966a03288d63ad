//! A numeral system: an alphabet together with the source of its radices,
//! and what it means for symbols to be the numeral of a number in it.

use crate::alphabet::{lemma_index_of, Alphabet};
use crate::error::ConversionError;
use crate::positional::{
    digit_at, expansion, is_digit_count, law_round_trip, lemma_value_agrees, magnitude_of,
    numeral_value, remaining_at,
};
use crate::radix::RadixSource;
use vstd::prelude::*;

verus! {

/// The digit values of a numeral that is written most significant symbol
/// first, least significant value first: the value of a symbol is its index
/// in the alphabet.
pub open spec fn digit_values(alphabet: Seq<char>, symbols: Seq<char>) -> Seq<nat> {
    Seq::new(
        symbols.len(),
        |position: int| alphabet.index_of(symbols[symbols.len() - 1 - position]) as nat,
    )
}

/// The number that a numeral denotes: the value of its digits by Horner's
/// rule over the radices of the positions.
pub open spec fn denoted(alphabet: Seq<char>, radix: spec_fn(nat) -> int, symbols: Seq<char>) -> int {
    numeral_value(digit_values(alphabet, symbols), radix, 0)
}

/// Whether the radix of every position below `count` is known, that is, not
/// zero, so that an expansion gets on at each of them.
pub open spec fn known_below(radix: spec_fn(nat) -> int, count: nat) -> bool {
    forall|position: nat| position < count ==> #[trigger] radix(position) != 0
}

/// Whether `symbols`, most significant first, are the numeral of `number`.
/// Zero is the one symbol of the digit value zero. Any other number has as
/// many symbols as it has digits, the symbol of its digit at position `p`
/// standing `p` places from the end; every digit has a symbol, and the
/// radix of every position is known.
pub open spec fn is_numeral(
    alphabet: Seq<char>,
    radix: spec_fn(nat) -> int,
    number: int,
    symbols: Seq<char>,
) -> bool {
    if number == 0 {
        symbols == seq![alphabet[0]]
    } else {
        &&& is_digit_count(number, radix, symbols.len())
        &&& known_below(radix, symbols.len())
        &&& !digit_out_of_range(alphabet.len(), radix, number, symbols.len())
        &&& forall|index: int|
            0 <= index < symbols.len() ==> #[trigger] symbols[index] == alphabet[digit_at(
                number,
                radix,
                (symbols.len() - 1 - index) as nat,
            ) as int]
    }
}

/// Whether a digit of the first `count` digits of `number` has no symbol in
/// an alphabet of `base` symbols.
pub open spec fn digit_out_of_range(
    base: nat,
    radix: spec_fn(nat) -> int,
    number: int,
    count: nat,
) -> bool {
    exists|position: nat| position < count && #[trigger] digit_at(number, radix, position) >= base
}

/// Whether the expansion of `number` comes to a halt at `position`: it got
/// on at every position below and something is left, but the radix of the
/// position is unknown, or the position is the last that the machine can
/// count.
pub open spec fn stalls_at(radix: spec_fn(nat) -> int, number: int, position: nat) -> bool {
    &&& known_below(radix, position)
    &&& remaining_at(number, radix, position) != 0
    &&& radix(position) == 0 || position == usize::MAX
}

/// Round trip: the numeral of a number denotes that number, in every
/// alphabet without a repeated symbol and under every radix function.
pub proof fn law_numeral_denotes_number(
    alphabet: Seq<char>,
    radix: spec_fn(nat) -> int,
    number: int,
    symbols: Seq<char>,
)
    requires
        alphabet.len() >= 1,
        alphabet.no_duplicates(),
        is_numeral(alphabet, radix, number, symbols),
    ensures
        denoted(alphabet, radix, symbols) == number,
{
    let values = digit_values(alphabet, symbols);
    if number == 0 {
        lemma_index_of(alphabet, 0);
        assert(values[0] == 0);
        assert(numeral_value(values, radix, 1) == 0);
        assert(radix(0) * 0 == 0);
        assert(numeral_value(values, radix, 0) == values[0] + radix(0) * numeral_value(
            values,
            radix,
            1,
        ));
    } else {
        let count = symbols.len();
        assert forall|position: int| 0 <= position < count implies values[position] == digit_at(
            number,
            radix,
            position as nat,
        ) by {
            let digit = digit_at(number, radix, position as nat);
            assert(digit < alphabet.len());
            assert(symbols[count - 1 - position] == alphabet[digit as int]);
            lemma_index_of(alphabet, digit as int);
        }
        assert(values =~= expansion(number, radix, count));
        law_round_trip(number, radix, count);
    }
}

/// One side of a conversion: an alphabet and the source of the radices.
pub struct NumeralSystem {
    pub alphabet: Alphabet,
    pub radix: RadixSource,
}

impl NumeralSystem {
    /// The system of an alphabet and a source of radices.
    pub fn new(alphabet: Alphabet, radix: RadixSource) -> (system: NumeralSystem)
        ensures
            system.alphabet == alphabet,
            system.radix == radix,
    {
        NumeralSystem { alphabet, radix }
    }

    /// The system of a constant base whose alphabet is the given symbols.
    /// It fails with `ZeroBase` where the base is zero, else as
    /// `Alphabet::build_from_symbols` does, else with
    /// `AlphabetLengthMismatch` where the number of symbols is not the
    /// absolute value of the base.
    pub fn with_constant_base(base: isize, symbols: &Vec<char>) -> (built: Result<
        NumeralSystem,
        ConversionError,
    >)
        ensures
            match built {
                Ok(system) => {
                    &&& base != 0
                    &&& system.alphabet@ == symbols@
                    &&& symbols@.no_duplicates()
                    &&& symbols@.len() == magnitude_of(base as int)
                    &&& system.radix is Constant
                    &&& system.radix.radix_at(0) == base
                },
                Err(error) => error == (if base == 0 || symbols@.len() == 0 {
                    ConversionError::ZeroBase
                } else if !symbols@.no_duplicates() {
                    ConversionError::DuplicateSymbol
                } else {
                    ConversionError::AlphabetLengthMismatch
                }) && (base == 0 || symbols@.len() == 0 || !symbols@.no_duplicates()
                    || symbols@.len() != magnitude_of(base as int)),
            },
    {
        let radix = match RadixSource::constant(base) {
            Ok(radix) => radix,
            Err(error) => {
                return Err(error);
            },
        };
        let alphabet = match Alphabet::build_from_symbols(symbols) {
            Ok(alphabet) => alphabet,
            Err(error) => {
                return Err(error);
            },
        };
        let system = NumeralSystem { alphabet, radix };
        match system.validate() {
            Ok(_) => Ok(system),
            Err(error) => Err(error),
        }
    }

    /// The system of a base function whose alphabet is the given symbols.
    /// It fails as `Alphabet::build_from_symbols` does.
    pub fn with_base_function(function: &str, symbols: &Vec<char>) -> (built: Result<
        NumeralSystem,
        ConversionError,
    >)
        ensures
            match built {
                Ok(system) => {
                    &&& system.alphabet@ == symbols@
                    &&& symbols@.len() >= 1
                    &&& symbols@.no_duplicates()
                    &&& system.radix is PositionFunction
                    &&& forall|position: nat| !system.radix.knows(position)
                },
                Err(error) => error == (if symbols@.len() == 0 {
                    ConversionError::ZeroBase
                } else {
                    ConversionError::DuplicateSymbol
                }) && (symbols@.len() == 0 || !symbols@.no_duplicates()),
            },
    {
        match Alphabet::build_from_symbols(symbols) {
            Ok(alphabet) => Ok(
                NumeralSystem { alphabet, radix: RadixSource::position_function(function) },
            ),
            Err(error) => Err(error),
        }
    }

    /// Whether the alphabet has as many symbols as the declared base asks
    /// for: always with a base function, which declares none.
    pub open spec fn consistent(&self) -> bool {
        self.radix matches RadixSource::Constant(radix) ==> self.alphabet@.len() == magnitude_of(
            radix@,
        )
    }

    /// Whether this system is a later state of `earlier`: the same alphabet,
    /// and a source of radices that extends the earlier one.
    pub open spec fn extends(&self, earlier: &NumeralSystem) -> bool {
        self.alphabet@ == earlier.alphabet@ && self.radix.extends(&earlier.radix)
    }

    /// The radix function of the system as far as it is known.
    pub open spec fn radices(&self) -> spec_fn(nat) -> int {
        self.radix.radices()
    }

    /// Holds the alphabet against the declared base:
    /// `AlphabetLengthMismatch` where a constant base does not have the
    /// absolute value that the alphabet has symbols.
    pub fn validate(&self) -> (checked: Result<(), ConversionError>)
        ensures
            match checked {
                Ok(_) => self.consistent(),
                Err(error) => !self.consistent() && error
                    == ConversionError::AlphabetLengthMismatch,
            },
    {
        match &self.radix {
            RadixSource::Constant(radix) => self.alphabet.validate_length(radix.digit_count()),
            RadixSource::PositionFunction(_) => Ok(()),
        }
    }
}

/// The value of a numeral is the same under a later state of the system,
/// where the radices of all its positions were known before.
pub proof fn lemma_later_state_same_value(
    digits: Seq<nat>,
    earlier: &RadixSource,
    later: &RadixSource,
    from: nat,
)
    requires
        later.extends(earlier),
        forall|position: nat| from <= position < digits.len() ==> earlier.knows(position),
    ensures
        numeral_value(digits, earlier.radices(), from) == numeral_value(
            digits,
            later.radices(),
            from,
        ),
{
    let first = earlier.radices();
    let second = later.radices();
    assert forall|position: nat| from <= position < digits.len() implies #[trigger] first(position)
        == second(position) by {
        assert(earlier.knows(position));
        lemma_extension_agrees(earlier, later, position);
    }
    lemma_value_agrees(digits, first, second, from);
}

/// A later state of a later state is a later state.
pub proof fn lemma_extends_transitive(
    first: &RadixSource,
    second: &RadixSource,
    third: &RadixSource,
)
    requires
        second.extends(first),
        third.extends(second),
    ensures
        third.extends(first),
        third.negative_base() == first.negative_base(),
{
    match (third, second, first) {
        (
            RadixSource::PositionFunction(c),
            RadixSource::PositionFunction(b),
            RadixSource::PositionFunction(a),
        ) => {
            assert(a@.submap_of(c@)) by {
                assert forall|key: nat| #[trigger] a@.dom().contains(key) implies c@.dom().contains(
                    key,
                ) && a@[key] == c@[key] by {
                    assert(b@.dom().contains(key));
                }
            }
        },
        _ => {},
    }
}

/// A later state of a source of radices gives every position that was known
/// before the radix it had.
pub proof fn lemma_extension_agrees(earlier: &RadixSource, later: &RadixSource, position: nat)
    requires
        later.extends(earlier),
        earlier.knows(position),
    ensures
        later.knows(position),
        later.radix_at(position) == earlier.radix_at(position),
{
    match (later, earlier) {
        (RadixSource::PositionFunction(now), RadixSource::PositionFunction(then)) => {
            assert(then@.dom().contains(position));
            assert(now@.dom().contains(position));
        },
        _ => {},
    }
}

} // verus!
