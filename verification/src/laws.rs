//! What holds of reading and writing taken together.

use crate::decoder::{all_symbols_known, decodes};
use crate::encoder::{encodes, written_number};
use crate::error::ConversionError;
use crate::positional::{
    constant_radix, digit_at, law_constant_digit, law_constant_place_value, law_digits_in_range,
    law_horner_is_weighted_sum, lemma_remainder_in_range, lemma_remaining_stays_zero,
    magnitude_of, numeral_value, remaining_at, weighted_sum,
};
use vstd::arithmetic::power::pow;
use crate::system::{
    denoted, digit_values, is_numeral, law_numeral_denotes_number, lemma_extension_agrees,
    lemma_later_state_same_value, NumeralSystem,
};
use vstd::prelude::*;

verus! {

/// Round trip: what was written is read back as the number that was
/// written, sign included, in every numeral system and for every number.
///
/// `written` is the system after writing `value` into `symbols` and `minus`,
/// and `read` the system after reading them back. The one thing that can
/// come between is a base function that gives no radix for position 0: the
/// numeral of zero is written without asking for it, and reading asks.
pub proof fn law_reading_inverts_writing(
    value: int,
    before: &NumeralSystem,
    written: &NumeralSystem,
    read: &NumeralSystem,
    symbols: Seq<char>,
    minus: bool,
    outcome: Result<int, ConversionError>,
)
    requires
        before.alphabet@.len() >= 1,
        before.alphabet@.no_duplicates(),
        written.extends(before),
        read.extends(written),
        encodes(value, before, written, Ok((symbols, minus))),
        decodes(symbols, minus, written, read, outcome),
    ensures
        outcome == Ok::<int, ConversionError>(value) || (value == 0 && outcome == Err::<
            int,
            ConversionError,
        >(ConversionError::InvalidBase { position: 0 }) && !read.radix.knows(0)),
{
    let alphabet = before.alphabet@;
    let number = written_number(value, &before.radix);
    assert(written.radix.negative_base() == before.radix.negative_base());
    assert(is_numeral(alphabet, written.radices(), number, symbols));
    assert(all_symbols_known(alphabet, symbols)) by {
        assert forall|index: int| 0 <= index < symbols.len() implies alphabet.contains(
            #[trigger] symbols[index],
        ) by {
            if number == 0 {
                assert(symbols[index] == alphabet[0]);
            } else {
                let digit = digit_at(
                    number,
                    written.radices(),
                    (symbols.len() - 1 - index) as nat,
                );
                assert(digit < alphabet.len());
                assert(symbols[index] == alphabet[digit as int]);
            }
        }
    }
    if number != 0 {
        assert forall|position: nat| position < symbols.len() implies written.radix.knows(
            position,
        ) by {
            assert(written.radices()(position) != 0);
        }
        assert forall|position: nat| position < symbols.len() implies read.radix.knows(
            position,
        ) by {
            lemma_extension_agrees(&written.radix, &read.radix, position);
        }
    }
    match outcome {
        Ok(result) => {
            let values = digit_values(alphabet, symbols);
            if number == 0 {
                law_numeral_denotes_number(alphabet, read.radices(), number, symbols);
            } else {
                law_numeral_denotes_number(alphabet, written.radices(), number, symbols);
                lemma_later_state_same_value(values, &written.radix, &read.radix, 0);
            }
            assert(denoted(alphabet, read.radices(), symbols) == number);
        },
        Err(_) => {},
    }
}

/// Mixed radix: every digit of a written numeral is below the radix of its
/// position, and the numeral denotes the number that was written.
pub proof fn law_written_digits_in_range(
    alphabet: Seq<char>,
    radix: spec_fn(nat) -> int,
    number: int,
    symbols: Seq<char>,
)
    requires
        alphabet.len() >= 1,
        alphabet.no_duplicates(),
        number != 0,
        is_numeral(alphabet, radix, number, symbols),
    ensures
        forall|position: nat|
            position < symbols.len() ==> #[trigger] digit_at(number, radix, position)
                < magnitude_of(radix(position)),
        denoted(alphabet, radix, symbols) == number,
{
    law_digits_in_range(number, radix, symbols.len());
    assert forall|position: nat| position < symbols.len() implies #[trigger] digit_at(
        number,
        radix,
        position,
    ) < magnitude_of(radix(position)) by {
        let digits = crate::positional::expansion(number, radix, symbols.len());
        assert(digits[position as int] == digit_at(number, radix, position));
    }
    law_numeral_denotes_number(alphabet, radix, number, symbols);
}

/// Zero handling: whatever the sign that zero is given with, it is written
/// as the one symbol of the digit value zero, without a minus sign.
pub proof fn law_zero_is_one_symbol(
    before: &NumeralSystem,
    after: &NumeralSystem,
    symbols: Seq<char>,
    minus: bool,
)
    requires
        encodes(0, before, after, Ok((symbols, minus))),
    ensures
        symbols == seq![before.alphabet@[0]],
        !minus,
{
}

/// Zero handling: writing zero does not fail.
pub proof fn law_zero_is_written(
    before: &NumeralSystem,
    after: &NumeralSystem,
    outcome: Result<(Seq<char>, bool), ConversionError>,
)
    requires
        encodes(0, before, after, outcome),
    ensures
        outcome is Ok,
{
    match outcome {
        Err(ConversionError::InvalidBase { position }) => {
            let radix = after.radices();
            lemma_remaining_stays_zero(0, radix, 0, position as nat);
        },
        _ => {},
    }
}

/// Under a constant base, reading succeeds whenever every symbol is in the
/// alphabet and no minus sign meets a negative base.
pub proof fn law_constant_base_reads(
    symbols: Seq<char>,
    minus: bool,
    before: &NumeralSystem,
    after: &NumeralSystem,
    outcome: Result<int, ConversionError>,
)
    requires
        before.radix is Constant,
        after.extends(before),
        all_symbols_known(before.alphabet@, symbols),
        !(minus && before.radix.negative_base()),
        decodes(symbols, minus, before, after, outcome),
    ensures
        outcome is Ok,
{
}

/// Under a constant base with as many symbols as the base asks for,
/// writing succeeds whenever no negative number meets a negative base,
/// unless the number has more digits than the machine can count.
pub proof fn law_constant_base_writes(
    value: int,
    before: &NumeralSystem,
    after: &NumeralSystem,
    outcome: Result<(Seq<char>, bool), ConversionError>,
)
    requires
        before.radix is Constant,
        before.radix.radix_at(0) != 0,
        before.consistent(),
        after.extends(before),
        !(value < 0 && before.radix.negative_base()),
        encodes(value, before, after, outcome),
    ensures
        outcome is Ok || outcome == Err::<(Seq<char>, bool), ConversionError>(
            ConversionError::InvalidBase { position: usize::MAX },
        ),
{
    let radix = after.radices();
    let number = written_number(value, &before.radix);
    assert forall|position: nat| #[trigger] radix(position) == before.radix.radix_at(0) by {}
    match outcome {
        Err(ConversionError::ValueOutOfRange) => {
            let count = choose|count: nat|
                {
                    &&& #[trigger] crate::encoder::expands_to(radix, number, count)
                    &&& crate::system::digit_out_of_range(
                        before.alphabet@.len(),
                        radix,
                        number,
                        count,
                    )
                };
            let position = choose|position: nat|
                position < count && #[trigger] digit_at(number, radix, position)
                    >= before.alphabet@.len();
            lemma_remainder_in_range(remaining_at(number, radix, position), radix(position));
        },
        _ => {},
    }
}

/// The sum of the first `count` digits, each times the power of the base
/// that belongs to its position: ordinary positional notation.
pub open spec fn power_sum(digits: Seq<nat>, base: int, count: nat) -> int
    decreases count,
{
    if count == 0 {
        0
    } else {
        power_sum(digits, base, (count - 1) as nat) + digits[count - 1] * pow(
            base,
            (count - 1) as nat,
        )
    }
}

/// With a constant base the weighted sum of the digits is the sum of the
/// digits times the powers of the base.
proof fn lemma_weighted_sum_is_power_sum(digits: Seq<nat>, base: int, count: nat)
    ensures
        weighted_sum(digits, constant_radix(base), count) == power_sum(digits, base, count),
    decreases count,
{
    if count > 0 {
        lemma_weighted_sum_is_power_sum(digits, base, (count - 1) as nat);
        law_constant_place_value(base, (count - 1) as nat);
    }
}

/// Constant base: a numeral denotes what ordinary positional notation says,
/// the sum of its digits times the powers of the base; and the digit of a
/// natural number at a position is the number divided by the power of the
/// base that belongs to the position, modulo the base.
pub proof fn law_constant_base_is_ordinary_notation(
    digits: Seq<nat>,
    number: nat,
    base: int,
    position: nat,
)
    requires
        base >= 2,
    ensures
        numeral_value(digits, constant_radix(base), 0) == power_sum(digits, base, digits.len()),
        pow(base, position) > 0,
        digit_at(number as int, constant_radix(base), position) == (number as int / pow(
            base,
            position,
        )) % base,
{
    law_horner_is_weighted_sum(digits, constant_radix(base));
    lemma_weighted_sum_is_power_sum(digits, base, digits.len());
    law_constant_digit(number, base, position);
}

} // verus!
