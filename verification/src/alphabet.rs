//! The symbols of a numeral system and the digit values they stand for.

use crate::error::ConversionError;
use vstd::prelude::*;
use vstd::string::StrSliceExecFns;

verus! {

/// The master symbol table: the decimal digits, the upper-case and the
/// lower-case Latin letters, the Cyrillic letters and the Greek letters, in
/// that order.
pub const MASTER_SYMBOLS: &'static str =
    "0123456789ABCDEFGHIJKLMNOPQRSTUVWXYZabcdefghijklmnopqrstuvwxyzАБВГДЕЖЗИЙКЛМНОПРСТУФХЦЧШЩЪЫЬЭЮЯабвгдежзийклмнопрстуфхцчшщъыьэюяΑΒΓΔΕΖΗΘΙΚΛΜΝΞΟΠΡΣΤΥΦΧΨΩαβγδεζηθικλμνξοπρστυφχψω";

/// The symbols of a text, one by one.
pub fn symbols_of(text: &str) -> (symbols: Vec<char>)
    ensures
        symbols@ == text@,
{
    let count = text.unicode_len();
    let mut symbols: Vec<char> = Vec::new();
    let mut index: usize = 0;
    while index < count
        invariant
            count == text@.len(),
            index <= count,
            symbols@ == text@.take(index as int),
        decreases count - index,
    {
        symbols.push(text.get_char(index));
        index += 1;
        assert(symbols@ =~= text@.take(index as int));
    }
    assert(text@.take(count as int) =~= text@);
    symbols
}

/// The master symbol table as a sequence of symbols.
pub fn master_table() -> (table: Vec<char>)
    ensures
        table@ == MASTER_SYMBOLS@,
{
    symbols_of(MASTER_SYMBOLS)
}

/// Whether a symbol occurs twice among the first `count` symbols.
fn has_repeat(symbols: &Vec<char>, count: usize) -> (repeat: bool)
    requires
        count <= symbols.len(),
    ensures
        repeat == !symbols@.take(count as int).no_duplicates(),
{
    let ghost prefix = symbols@.take(count as int);
    let mut upper: usize = 0;
    while upper < count
        invariant
            upper <= count <= symbols.len(),
            prefix == symbols@.take(count as int),
            forall|i: int, j: int| 0 <= i < j < upper ==> prefix[i] != prefix[j],
        decreases count - upper,
    {
        let mut lower: usize = 0;
        while lower < upper
            invariant
                lower <= upper < count <= symbols.len(),
                prefix == symbols@.take(count as int),
                forall|i: int| 0 <= i < lower ==> prefix[i] != prefix[upper as int],
            decreases upper - lower,
        {
            if symbols[lower] == symbols[upper] {
                assert(prefix[lower as int] == prefix[upper as int]);
                return true;
            }
            lower += 1;
        }
        upper += 1;
    }
    assert(prefix.no_duplicates()) by {
        assert forall|i: int, j: int|
            0 <= i < prefix.len() && 0 <= j < prefix.len() && i != j implies prefix[i]
            != prefix[j] by {
            if i < j {
                assert(prefix[i] != prefix[j]);
            } else {
                assert(prefix[j] != prefix[i]);
            }
        }
    }
    false
}

/// In an alphabet without a repeated symbol, a symbol has one index only.
pub proof fn lemma_index_of(alphabet: Seq<char>, value: int)
    requires
        alphabet.no_duplicates(),
        0 <= value < alphabet.len(),
    ensures
        alphabet.index_of(alphabet[value]) == value,
{
    let found = alphabet.index_of(alphabet[value]);
    assert(0 <= found < alphabet.len() && alphabet[found] == alphabet[value]);
}

/// The symbols of one numeral system, in the order of their digit values:
/// the symbol at index `i` stands for the digit value `i`. An alphabet has
/// at least one symbol and no symbol twice. Its view is the sequence of its
/// symbols; its base is their number.
#[derive(Debug)]
pub struct Alphabet {
    symbols: Vec<char>,
}

impl View for Alphabet {
    type V = Seq<char>;

    closed spec fn view(&self) -> Seq<char> {
        self.symbols@
    }
}

impl Alphabet {
    #[verifier::type_invariant]
    spec fn distinct_symbols(self) -> bool {
        self.symbols@.len() >= 1 && self.symbols@.no_duplicates()
    }

    /// The alphabet that gives the `i`-th of the symbols the digit value `i`.
    /// It fails with `ZeroBase` where there is no symbol, and with
    /// `DuplicateSymbol` where a symbol occurs twice.
    pub fn build_from_symbols(symbols: &Vec<char>) -> (built: Result<Alphabet, ConversionError>)
        ensures
            match built {
                Ok(alphabet) => {
                    &&& alphabet@ == symbols@
                    &&& symbols@.len() >= 1
                    &&& symbols@.no_duplicates()
                },
                Err(error) => error == (if symbols@.len() == 0 {
                    ConversionError::ZeroBase
                } else {
                    ConversionError::DuplicateSymbol
                }) && (symbols@.len() == 0 || !symbols@.no_duplicates()),
            },
    {
        Alphabet::build_sequential(symbols.len(), symbols)
    }

    /// The alphabet of the first `base` symbols of a master table. It fails
    /// with `ZeroBase` where `base` is zero, with `AlphabetTooSmall` where the
    /// table has fewer than `base` symbols, and with `DuplicateSymbol` where
    /// a symbol occurs twice among the first `base`.
    pub fn build_sequential(base: usize, master_table: &Vec<char>) -> (built: Result<
        Alphabet,
        ConversionError,
    >)
        ensures
            match built {
                Ok(alphabet) => {
                    &&& 1 <= base <= master_table@.len()
                    &&& alphabet@ == master_table@.take(base as int)
                    &&& alphabet@.no_duplicates()
                },
                Err(error) => {
                    if base == 0 {
                        error == ConversionError::ZeroBase
                    } else if base > master_table@.len() {
                        error == ConversionError::AlphabetTooSmall
                    } else {
                        error == ConversionError::DuplicateSymbol && !master_table@.take(
                            base as int,
                        ).no_duplicates()
                    }
                },
            },
    {
        if base == 0 {
            return Err(ConversionError::ZeroBase);
        }
        if base > master_table.len() {
            return Err(ConversionError::AlphabetTooSmall);
        }
        if has_repeat(master_table, base) {
            return Err(ConversionError::DuplicateSymbol);
        }
        let mut symbols: Vec<char> = Vec::new();
        let mut index: usize = 0;
        while index < base
            invariant
                index <= base <= master_table.len(),
                symbols@ == master_table@.take(index as int),
            decreases base - index,
        {
            symbols.push(master_table[index]);
            index += 1;
            assert(symbols@ =~= master_table@.take(index as int));
        }
        Ok(Alphabet { symbols })
    }

    /// The base of the alphabet: the number of its symbols. It is at least
    /// one, and no symbol occurs twice.
    pub fn base(&self) -> (base: usize)
        ensures
            base == self@.len(),
            base >= 1,
            self@.no_duplicates(),
    {
        proof {
            use_type_invariant(self);
        }
        self.symbols.len()
    }

    /// The symbol that stands for a digit value; `ValueOutOfRange` where the
    /// value is not below the base.
    pub fn symbol_of(&self, value: usize) -> (found: Result<char, ConversionError>)
        ensures
            match found {
                Ok(symbol) => value < self@.len() && symbol == self@[value as int],
                Err(error) => value >= self@.len() && error == ConversionError::ValueOutOfRange,
            },
    {
        if value < self.symbols.len() {
            Ok(self.symbols[value])
        } else {
            Err(ConversionError::ValueOutOfRange)
        }
    }

    /// The digit value that a symbol stands for, which is its index in the
    /// alphabet; `UnknownSymbol` where the symbol is not in the alphabet.
    pub fn value_of(&self, symbol: char) -> (found: Result<usize, ConversionError>)
        ensures
            match found {
                Ok(value) => {
                    &&& value < self@.len()
                    &&& self@[value as int] == symbol
                    &&& value == self@.index_of(symbol)
                },
                Err(error) => !self@.contains(symbol) && error == ConversionError::UnknownSymbol,
            },
    {
        proof {
            use_type_invariant(self);
        }
        let mut index: usize = 0;
        while index < self.symbols.len()
            invariant
                index <= self.symbols.len(),
                self.symbols@.no_duplicates(),
                forall|i: int| 0 <= i < index ==> self.symbols@[i] != symbol,
            decreases self.symbols.len() - index,
        {
            if self.symbols[index] == symbol {
                proof {
                    lemma_index_of(self@, index as int);
                }
                return Ok(index);
            }
            index += 1;
        }
        Err(ConversionError::UnknownSymbol)
    }

    /// Holds the alphabet against a base that was declared apart from it;
    /// `AlphabetLengthMismatch` where the two differ.
    pub fn validate_length(&self, expected_base: usize) -> (checked: Result<(), ConversionError>)
        ensures
            match checked {
                Ok(_) => self@.len() == expected_base,
                Err(error) => self@.len() != expected_base && error
                    == ConversionError::AlphabetLengthMismatch,
            },
    {
        if self.symbols.len() == expected_base {
            Ok(())
        } else {
            Err(ConversionError::AlphabetLengthMismatch)
        }
    }

    /// The symbols of the alphabet, in the order of their digit values.
    pub fn symbols(&self) -> (symbols: &Vec<char>)
        ensures
            symbols@ == self@,
    {
        &self.symbols
    }
}

impl Clone for Alphabet {
    fn clone(&self) -> (copy: Self)
        ensures
            copy@ == self@,
    {
        proof {
            use_type_invariant(self);
        }
        let symbols = self.symbols.clone();
        assert(symbols@ =~= self.symbols@);
        Alphabet { symbols }
    }
}

} // verus!
