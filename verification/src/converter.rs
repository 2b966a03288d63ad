//! From a numeral of one system to the numeral of the same number in
//! another.

use crate::config::{has_minus, starts_with_minus, Config, System};
use crate::alphabet::symbols_of;
use crate::decoder::{decode, decodes, signed_denoted};
use crate::encoder::{encode, encoded_view, encodes, expand, expands_to, written_number};
use crate::error::ConversionError;
use crate::magnitude::Magnitude;
use crate::positional::expansion;
use crate::radix::{parse_radix, RadixSource};
use crate::script::{lua_apply, lua_state};
use crate::signed::{Sign, SignedValue};
use crate::system::{stalls_at, NumeralSystem};
use crate::text::{decimal_numeral, magnitudes_view, render, render_decimal, rendered, sign_text};
use mlua::Lua;
use vstd::prelude::*;

verus! {

/// What a conversion comes to, given both systems before and after.
///
/// Where the alphabet of a side does not have as many symbols as its
/// constant base asks for, it is `AlphabetLengthMismatch`. Else the numeral
/// is read in the source system. Where that fails, the conversion fails in
/// the same way. Else the outcome is that of writing the number read in the
/// target system.
pub open spec fn converts(
    symbols: Seq<char>,
    minus: bool,
    source_before: &NumeralSystem,
    source_after: &NumeralSystem,
    target_before: &NumeralSystem,
    target_after: &NumeralSystem,
    outcome: Result<(Seq<char>, bool), ConversionError>,
) -> bool {
    if !source_before.consistent() || !target_before.consistent() {
        outcome == Err::<(Seq<char>, bool), ConversionError>(
            ConversionError::AlphabetLengthMismatch,
        )
    } else {
        let value = signed_denoted(source_before.alphabet@, source_after.radices(), symbols, minus);
        if decodes(symbols, minus, source_before, source_after, Ok(value)) {
            encodes(value, target_before, target_after, outcome)
        } else {
            outcome matches Err(error) && decodes(
                symbols,
                minus,
                source_before,
                source_after,
                Err(error),
            )
        }
    }
}

/// Converts a numeral of the source system into the numeral of the same
/// number in the target system. `symbols` are written most significant
/// first, `minus` says whether a minus sign stood in front of them; the
/// result is given in the same way.
///
/// Both alphabets are first held against their declared bases. Then the
/// numeral is read as `decode` does, and the number is written as `encode`
/// does. The first failure is the failure of the conversion, and no partial
/// result is returned.
pub fn convert(
    symbols: &Vec<char>,
    minus: bool,
    source: &mut NumeralSystem,
    target: &mut NumeralSystem,
) -> (converted: Result<(Vec<char>, bool), ConversionError>)
    ensures
        final(source).extends(old(source)),
        final(target).extends(old(target)),
        converts(
            symbols@,
            minus,
            old(source),
            final(source),
            old(target),
            final(target),
            encoded_view(converted),
        ),
{
    match source.validate() {
        Ok(_) => {},
        Err(error) => {
            return Err(error);
        },
    }
    match target.validate() {
        Ok(_) => {},
        Err(error) => {
            return Err(error);
        },
    }
    let value = match decode(symbols, minus, source) {
        Ok(value) => value,
        Err(error) => {
            return Err(error);
        },
    };
    encode(&value, target)
}

/// The symbols of a literal: the literal without its minus sign.
pub open spec fn literal_symbols(literal: Seq<char>) -> Seq<char> {
    if has_minus(literal) {
        literal.skip(1)
    } else {
        literal
    }
}

/// What a conversion of text comes to: the conversion of the symbols of the
/// literal, its minus sign taken off and noted, with the result written out
/// as `rendered` says.
pub open spec fn converts_literal(
    literal: Seq<char>,
    source_before: &NumeralSystem,
    source_after: &NumeralSystem,
    target_before: &NumeralSystem,
    target_after: &NumeralSystem,
    outcome: Result<Seq<char>, ConversionError>,
) -> bool {
    match outcome {
        Ok(text) => exists|symbols: Seq<char>, minus: bool|
            {
                &&& #[trigger] converts(
                    literal_symbols(literal),
                    has_minus(literal),
                    source_before,
                    source_after,
                    target_before,
                    target_after,
                    Ok((symbols, minus)),
                )
                &&& text == rendered(symbols, minus)
            },
        Err(error) => converts(
            literal_symbols(literal),
            has_minus(literal),
            source_before,
            source_after,
            target_before,
            target_after,
            Err(error),
        ),
    }
}

/// The text or the error that a result holds.
pub open spec fn text_view(printed: Result<String, ConversionError>) -> Result<
    Seq<char>,
    ConversionError,
> {
    match printed {
        Ok(text) => Ok(text@),
        Err(error) => Err(error),
    }
}

/// Converts a literal: text that may begin with a minus sign, followed by
/// the symbols of a numeral of the source system. The result is the
/// numeral of the same number in the target system, with a minus sign in
/// front where the number is negative.
pub fn convert_literal(literal: &str, source: &mut NumeralSystem, target: &mut NumeralSystem) -> (converted:
    Result<String, ConversionError>)
    ensures
        final(source).extends(old(source)),
        final(target).extends(old(target)),
        converts_literal(
            literal@,
            old(source),
            final(source),
            old(target),
            final(target),
            text_view(converted),
        ),
{
    let minus = starts_with_minus(literal);
    let written = symbols_of(literal);
    let mut symbols: Vec<char> = Vec::new();
    let mut index: usize = if minus {
        1
    } else {
        0
    };
    let first = index;
    while index < written.len()
        invariant
            first <= index <= written@.len(),
            symbols@ == written@.subrange(first as int, index as int),
        decreases written@.len() - index,
    {
        symbols.push(written[index]);
        index += 1;
        assert(symbols@ =~= written@.subrange(first as int, index as int));
    }
    assert(symbols@ =~= literal_symbols(literal@));
    match convert(&symbols, minus, source, target) {
        Ok((numeral, sign)) => Ok(render(&numeral, sign)),
        Err(error) => Err(error),
    }
}

/// The digits of a numeral: the one digit zero of zero, and the first
/// `count` digits of any other number.
pub open spec fn numeral_digits(radix: spec_fn(nat) -> int, number: int, count: nat) -> Seq<nat> {
    if number == 0 {
        seq![0nat]
    } else {
        expansion(number, radix, count)
    }
}

/// What writing out the digit values of `value` comes to, given the source of
/// radices before and after. With `number` for what is expanded, the value
/// itself under a negative base and its absolute value otherwise:
///
/// - text: `number` has a numeral under the radices, no negative value
///   meets a negative base, and the text is the sign of the value followed
///   by the digit values of the numeral in decimal;
/// - `InvalidBase` for a position: the expansion of `number` comes to a halt
///   there;
/// - `ConflictingNegativity`: a negative value meets a negative base, after
///   all its digits were found;
/// - nothing else.
pub open spec fn writes_digits(
    value: int,
    before: &RadixSource,
    after: &RadixSource,
    outcome: Result<Seq<char>, ConversionError>,
) -> bool {
    let number = written_number(value, before);
    match outcome {
        Ok(text) => {
            &&& !(value < 0 && before.negative_base())
            &&& exists|count: nat|
                {
                    &&& #[trigger] expands_to(after.radices(), number, count)
                    &&& text == sign_text(value < 0) + decimal_numeral(
                        numeral_digits(after.radices(), number, count),
                    )
                }
        },
        Err(ConversionError::InvalidBase { position }) => stalls_at(
            after.radices(),
            number,
            position as nat,
        ),
        Err(ConversionError::ConflictingNegativity) => {
            &&& value < 0
            &&& before.negative_base()
            &&& exists|count: nat| #[trigger] expands_to(after.radices(), number, count)
        },
        Err(_) => false,
    }
}

/// What printing the digit values of `value` in a described system comes
/// to: the error of the description where it gives no source of radices,
/// else what writing out the digit values under the described radices comes
/// to.
pub open spec fn prints_digits(
    value: int,
    description: &System,
    outcome: Result<Seq<char>, ConversionError>,
) -> bool {
    match description.radix_error() {
        Some(error) => outcome == Err::<Seq<char>, ConversionError>(error),
        None => exists|before: RadixSource, after: RadixSource|
            {
                &&& description.describes_radix(&before)
                &&& after.extends(&before)
                &&& #[trigger] writes_digits(value, &before, &after, outcome)
            },
    }
}

/// What writing the numeral of `value` as text comes to, given the system
/// before and after: what `encodes` says, with the symbols and the sign
/// written out as `rendered` says.
pub open spec fn writes_numeral(
    value: int,
    before: &NumeralSystem,
    after: &NumeralSystem,
    outcome: Result<Seq<char>, ConversionError>,
) -> bool {
    match outcome {
        Ok(text) => exists|symbols: Seq<char>, minus: bool|
            {
                &&& #[trigger] encodes(value, before, after, Ok((symbols, minus)))
                &&& text == rendered(symbols, minus)
            },
        Err(error) => encodes(value, before, after, Err(error)),
    }
}

/// What printing the numeral of `value` in a described system comes to: the
/// error of the description where it resolves to no numeral system, else
/// what writing the numeral in the described system comes to.
pub open spec fn prints_numeral(
    value: int,
    description: &System,
    outcome: Result<Seq<char>, ConversionError>,
) -> bool {
    match description.resolution_error() {
        Some(error) => outcome == Err::<Seq<char>, ConversionError>(error),
        None => exists|before: NumeralSystem, after: NumeralSystem|
            {
                &&& description.describes_system(&before)
                &&& after.extends(&before)
                &&& #[trigger] writes_numeral(value, &before, &after, outcome)
            },
    }
}

/// A number that is to be written in the target system of a described
/// conversion, with an interpreter of its own for base functions.
pub struct Converter<'a> {
    config: &'a Config,
    interpreter: Lua,
    number: SignedValue,
}

impl<'a> Converter<'a> {
    /// The described conversion.
    pub closed spec fn config(&self) -> &'a Config {
        self.config
    }

    /// The number that is to be written.
    pub closed spec fn number(&self) -> int {
        self.number@
    }

    /// A converter of `number` for the described conversion.
    pub fn new(config: &'a Config, number: SignedValue) -> (converter: Converter<'a>)
        ensures
            converter.config() == config,
            converter.number() == number@,
    {
        Converter { config, interpreter: lua_state(), number }
    }

    /// The radix that a base function gives for a position. `function` is
    /// Lua source text that evaluates to a function from the position to
    /// the decimal text of the radix. It fails with `InvalidBase` for the
    /// position where the function fails, or answers anything but the
    /// decimal text of a number that is at least one: see `parse_radix`.
    pub fn calculate_base(&self, function: &str, position: usize) -> (radix: Result<
        Magnitude,
        ConversionError,
    >)
        ensures
            match radix {
                Ok(radix) => radix@ >= 1,
                Err(error) => error == (ConversionError::InvalidBase { position }),
            },
    {
        match lua_apply(&self.interpreter, function, position) {
            Ok(answer) => parse_radix(answer.as_str(), position),
            Err(_) => Err(ConversionError::InvalidBase { position }),
        }
    }

    /// The digit values of the number in the target system, each written in
    /// decimal, one after the other without a separator, most significant
    /// first, after a minus sign where the number is negative. Only the
    /// radices of the target system are used, not its alphabet.
    pub fn print_number_in_target_base(&self) -> (printed: Result<String, ConversionError>)
        ensures
            prints_digits(self.number(), &self.config().target, text_view(printed)),
    {
        let mut radix = match self.config.get_target().radix_source() {
            Ok(radix) => radix,
            Err(error) => {
                return Err(error);
            },
        };
        let ghost before = radix;
        let negative_base = radix.is_negative_base();
        let negative = self.number.is_negative();
        let number = if negative_base {
            self.number.clone()
        } else {
            SignedValue::new(Sign::Positive, self.number.magnitude().clone())
        };
        assert(number@ == written_number(self.number(), &before));
        let mut digits = match expand(&number, &mut radix) {
            Ok(digits) => digits,
            Err(error) => {
                assert(writes_digits(self.number(), &before, &radix, Err(error)));
                return Err(error);
            },
        };
        if digits.len() == 0 {
            digits.push(Magnitude::zero());
        }
        let ghost count = digits@.len() as nat;
        assert(expands_to(radix.radices(), number@, count));
        assert(negative == (self.number() < 0));
        assert(negative_base == before.negative_base());
        if negative_base && negative {
            assert(writes_digits(
                self.number(),
                &before,
                &radix,
                Err(ConversionError::ConflictingNegativity),
            ));
            return Err(ConversionError::ConflictingNegativity);
        }
        let text = render_decimal(&digits, negative);
        proof {
            assert(magnitudes_view(digits@) =~= numeral_digits(radix.radices(), number@, count));
            assert(text@ == sign_text(self.number() < 0) + decimal_numeral(
                numeral_digits(radix.radices(), number@, count),
            ));
            assert(writes_digits(self.number(), &before, &radix, Ok(text@)));
        }
        Ok(text)
    }

    /// The numeral of the number in the target system, with a minus sign in
    /// front where the number is negative.
    pub fn print_number_in_target_alphabet(&self) -> (printed: Result<String, ConversionError>)
        ensures
            prints_numeral(self.number(), &self.config().target, text_view(printed)),
    {
        let mut system = match self.config.get_target().resolve() {
            Ok(system) => system,
            Err(error) => {
                return Err(error);
            },
        };
        let ghost before = system;
        match encode(&self.number, &mut system) {
            Ok((symbols, minus)) => {
                let text = render(&symbols, minus);
                assert(writes_numeral(self.number(), &before, &system, Ok(text@)));
                Ok(text)
            },
            Err(error) => {
                assert(writes_numeral(self.number(), &before, &system, Err(error)));
                Err(error)
            },
        }
    }
}

} // verus!
