//! The ways in which building a numeral system or converting a numeral fails.

use vstd::prelude::*;

verus! {

/// Why a numeral system could not be built or a numeral not be converted.
#[derive(Debug, Clone, Copy, PartialEq, Eq, Structural)]
pub enum ConversionError {
    /// A symbol occurs twice in an alphabet.
    DuplicateSymbol,
    /// More symbols were asked for than the master table holds.
    AlphabetTooSmall,
    /// An alphabet does not have as many symbols as the declared base.
    AlphabetLengthMismatch,
    /// A digit value has no symbol in the alphabet.
    ValueOutOfRange,
    /// A symbol of the input is not in the alphabet.
    UnknownSymbol,
    /// The base function gives no radix for a position, or something is
    /// left at the last position that the machine can count.
    InvalidBase { position: usize },
    /// A minus sign met a negative base on the same side of the conversion.
    ConflictingNegativity,
    /// A constant base of zero, or an alphabet without symbols.
    ZeroBase,
}

/// What an error says in words.
pub open spec fn message_text(error: ConversionError) -> Seq<char> {
    match error {
        ConversionError::DuplicateSymbol => "A symbol occurs twice in the alphabet"@,
        ConversionError::AlphabetTooSmall => "The master table has too few symbols for the base"@,
        ConversionError::AlphabetLengthMismatch => "The alphabet does not have as many symbols as the base"@,
        ConversionError::ValueOutOfRange => "A digit value has no symbol in the alphabet"@,
        ConversionError::UnknownSymbol => "A symbol of the number is not in the alphabet"@,
        ConversionError::InvalidBase { .. } => "The base function gives no radix for a position"@,
        ConversionError::ConflictingNegativity => "Both base and number cannot be negative"@,
        ConversionError::ZeroBase => "The base cannot be zero"@,
    }
}

impl ConversionError {
    /// What the error says in words.
    pub fn message(&self) -> (text: &'static str)
        ensures
            text@ == message_text(*self),
    {
        match self {
            ConversionError::DuplicateSymbol => "A symbol occurs twice in the alphabet",
            ConversionError::AlphabetTooSmall => "The master table has too few symbols for the base",
            ConversionError::AlphabetLengthMismatch => "The alphabet does not have as many symbols as the base",
            ConversionError::ValueOutOfRange => "A digit value has no symbol in the alphabet",
            ConversionError::UnknownSymbol => "A symbol of the number is not in the alphabet",
            ConversionError::InvalidBase { .. } => "The base function gives no radix for a position",
            ConversionError::ConflictingNegativity => "Both base and number cannot be negative",
            ConversionError::ZeroBase => "The base cannot be zero",
        }
    }
}

} // verus!
