//! The description of a conversion as it is given on a command line or in a
//! configuration file, and its resolution into numeral systems.

use crate::alphabet::{master_table, symbols_of, Alphabet, MASTER_SYMBOLS};
use crate::error::{message_text, ConversionError};
use crate::positional::magnitude_of;
use crate::radix::{absolute_base, RadixSource};
use crate::system::NumeralSystem;
use vstd::prelude::*;
use vstd::string::StrSliceExecFns;

verus! {

/// The base of a side for which neither a base nor an alphabet is given.
pub const DEFAULT_BASE: isize = 10;

/// What a command line says of a conversion.
#[derive(Debug, Clone)]
pub struct CommandLineArgs {
    /// The constant base of the source side.
    pub source_base: Option<isize>,
    /// The constant base of the target side.
    pub target_base: Option<isize>,
    /// The literal to convert, with its sign.
    pub source_number: String,
    /// The symbols of the source side, in the order of their digit values.
    pub source_alphabet: Option<String>,
    /// The symbols of the target side, in the order of their digit values.
    pub target_alphabet: Option<String>,
    /// The file that holds the whole description instead.
    pub config_file: Option<String>,
}

/// The description of one side of a conversion, as yet unchecked.
#[derive(Debug, Clone)]
pub struct System {
    /// `constant` for one base at all positions, `computed` for a base
    /// function.
    pub kind: String,
    /// The constant base, or the number of symbols of a computed system.
    pub base: Option<isize>,
    /// The Lua source text of the base function.
    pub function: Option<String>,
    /// The digit values and their symbols.
    pub alphabet: Vec<(isize, char)>,
}

/// The description of a conversion: its source side and its target side.
#[derive(Debug, Clone)]
pub struct Config {
    pub source: System,
    pub target: System,
}

/// The base of a side: the one given; else the number of symbols of the
/// alphabet given, as far as the machine can count; else ten.
pub open spec fn chosen_base(base: Option<isize>, alphabet: Option<String>) -> isize {
    match base {
        Some(base) => base,
        None => match alphabet {
            Some(symbols) => if symbols@.len() <= isize::MAX {
                symbols@.len() as isize
            } else {
                isize::MAX
            },
            None => DEFAULT_BASE,
        },
    }
}

/// The symbols paired with their digit values: the `i`-th with `i`.
pub open spec fn numbered(symbols: Seq<char>) -> Seq<(isize, char)> {
    Seq::new(symbols.len(), |index: int| (index as isize, symbols[index]))
}

/// The number of symbols that a base asks for: its absolute value.
pub open spec fn symbols_needed(base: isize) -> nat {
    magnitude_of(base as int)
}

/// Whether a side is given no alphabet and a base that asks for more
/// symbols than the master table holds.
pub open spec fn lacks_symbols(base: Option<isize>, alphabet: Option<String>) -> bool {
    alphabet is None && symbols_needed(chosen_base(base, alphabet)) > MASTER_SYMBOLS@.len()
}

/// The symbols of a side for which no alphabet is given: as many of the
/// first symbols of the master table as the base asks for.
pub open spec fn default_symbols(base: isize) -> Seq<char> {
    MASTER_SYMBOLS@.take(symbols_needed(base) as int)
}

/// The alphabet of a side: the symbols given, or the default symbols of the
/// base, paired with their digit values.
pub open spec fn chosen_alphabet(base: isize, alphabet: Option<String>) -> Seq<(isize, char)> {
    match alphabet {
        Some(symbols) => numbered(symbols@),
        None => numbered(default_symbols(base)),
    }
}

/// Whether a description is that of the constant base and the alphabet
/// that the command line gives for a side.
pub open spec fn describes(system: System, base: Option<isize>, alphabet: Option<String>) -> bool {
    &&& system.kind@ == "constant"@
    &&& system.base == Some(chosen_base(base, alphabet))
    &&& system.function is None
    &&& system.alphabet@ == chosen_alphabet(chosen_base(base, alphabet), alphabet)
}

/// Whether a literal begins with a minus sign.
pub open spec fn has_minus(literal: Seq<char>) -> bool {
    literal.len() > 0 && literal[0] == '-'
}

/// Whether a command line gives a negative source base together with a
/// literal that begins with a minus sign.
pub open spec fn negativity_conflict(arguments: CommandLineArgs) -> bool {
    chosen_base(arguments.source_base, arguments.source_alphabet) < 0 && has_minus(
        arguments.source_number@,
    )
}

/// Whether a literal begins with a minus sign.
pub fn starts_with_minus(literal: &str) -> (minus: bool)
    ensures
        minus == has_minus(literal@),
{
    literal.unicode_len() > 0 && literal.get_char(0) == '-'
}

/// The base of a side of the command line.
fn choose_base(base: Option<isize>, alphabet: &Option<String>) -> (chosen: isize)
    ensures
        chosen == chosen_base(base, *alphabet),
{
    match base {
        Some(base) => base,
        None => match alphabet {
            Some(symbols) => {
                let count = symbols.as_str().unicode_len();
                if count <= isize::MAX as usize {
                    count as isize
                } else {
                    isize::MAX
                }
            },
            None => DEFAULT_BASE,
        },
    }
}

/// The first `count` symbols paired with their digit values.
fn number_symbols(symbols: &Vec<char>, count: usize) -> (pairs: Vec<(isize, char)>)
    requires
        count <= symbols@.len(),
    ensures
        pairs@ == numbered(symbols@.take(count as int)),
{
    let mut pairs: Vec<(isize, char)> = Vec::new();
    let mut index: usize = 0;
    while index < count
        invariant
            index <= count <= symbols@.len(),
            pairs@ == numbered(symbols@.take(index as int)),
        decreases count - index,
    {
        pairs.push((index as isize, symbols[index]));
        index += 1;
        assert(pairs@ =~= numbered(symbols@.take(index as int)));
    }
    pairs
}

/// The alphabet of a side of the command line, or `AlphabetTooSmall`
/// where none is given and the base asks for more symbols than the master
/// table holds.
fn choose_alphabet(base: isize, alphabet: &Option<String>) -> (chosen: Result<
    Vec<(isize, char)>,
    ConversionError,
>)
    ensures
        match chosen {
            Ok(pairs) => {
                &&& pairs@ == chosen_alphabet(base, *alphabet)
                &&& !(*alphabet is None && symbols_needed(base) > MASTER_SYMBOLS@.len())
            },
            Err(error) => {
                &&& error == ConversionError::AlphabetTooSmall
                &&& *alphabet is None
                &&& symbols_needed(base) > MASTER_SYMBOLS@.len()
            },
        },
{
    match alphabet {
        Some(given) => {
            let symbols = symbols_of(given.as_str());
            assert(symbols@.take(symbols@.len() as int) =~= symbols@);
            Ok(number_symbols(&symbols, symbols.len()))
        },
        None => {
            let table = master_table();
            let wanted = absolute_base(base);
            if wanted <= table.len() {
                Ok(number_symbols(&table, wanted))
            } else {
                Err(ConversionError::AlphabetTooSmall)
            }
        },
    }
}

/// The number of slots that hold a symbol.
pub open spec fn filled(slots: Seq<Option<char>>) -> nat
    decreases slots.len(),
{
    if slots.len() == 0 {
        0
    } else {
        filled(slots.drop_last()) + if slots.last() is Some {
            1nat
        } else {
            0nat
        }
    }
}

/// Filling an empty slot makes one filled slot more.
proof fn lemma_filled_update(slots: Seq<Option<char>>, slot: int, symbol: char)
    requires
        0 <= slot < slots.len(),
        slots[slot] is None,
    ensures
        filled(slots.update(slot, Some(symbol))) == filled(slots) + 1,
    decreases slots.len(),
{
    let after = slots.update(slot, Some(symbol));
    if slot == slots.len() - 1 {
        assert(after.drop_last() =~= slots.drop_last());
    } else {
        assert(after.drop_last() =~= slots.drop_last().update(slot, Some(symbol)));
        lemma_filled_update(slots.drop_last(), slot, symbol);
    }
}

/// No more slots are filled than there are, and where as many are filled
/// as there are, every one is.
proof fn lemma_filled_all(slots: Seq<Option<char>>)
    ensures
        filled(slots) <= slots.len(),
        filled(slots) == slots.len() ==> forall|slot: int|
            0 <= slot < slots.len() ==> (#[trigger] slots[slot]) is Some,
    decreases slots.len(),
{
    if slots.len() > 0 {
        lemma_filled_all(slots.drop_last());
        if filled(slots) == slots.len() {
            assert forall|slot: int| 0 <= slot < slots.len() implies (#[trigger] slots[slot])
                is Some by {
                if slot < slots.len() - 1 {
                    assert(slots.drop_last()[slot] == slots[slot]);
                }
            }
        }
    }
}

impl System {
    /// A description from its parts.
    pub fn new(
        kind: String,
        base: Option<isize>,
        function: Option<String>,
        alphabet: Vec<(isize, char)>,
    ) -> (system: System)
        ensures
            system.kind == kind,
            system.base == base,
            system.function == function,
            system.alphabet == alphabet,
    {
        System { kind, base, function, alphabet }
    }

    /// The base that is described: the one given, or ten.
    pub open spec fn described_base(&self) -> isize {
        match self.base {
            Some(base) => base,
            None => DEFAULT_BASE,
        }
    }

    /// Whether the listed digit values are the numbers below the number of
    /// pairs, each listed once, in whatever order.
    pub open spec fn values_form_range(&self) -> bool {
        &&& forall|index: int|
            0 <= index < self.alphabet@.len() ==> 0 <= (#[trigger] self.alphabet@[index]).0
                < self.alphabet@.len()
        &&& forall|first: int, second: int|
            0 <= first < second < self.alphabet@.len() ==> (#[trigger] self.alphabet@[first]).0 != (
            #[trigger] self.alphabet@[second]).0
    }

    /// The index of a pair that is listed with the digit value `value`.
    pub open spec fn index_of_value(&self, value: int) -> int {
        choose|index: int| 0 <= index < self.alphabet@.len() && self.alphabet@[index].0 == value
    }

    /// The symbols that are described, in the order of their digit values:
    /// at index `value` the symbol that is listed with the digit value
    /// `value`.
    pub open spec fn described_symbols(&self) -> Seq<char> {
        Seq::new(
            self.alphabet@.len(),
            |value: int| self.alphabet@[self.index_of_value(value)].1,
        )
    }

    /// Why a description gives no source of radices, if it gives none. The
    /// kind must be `constant` or `computed`, and a computed system must
    /// have its function: else there is no radix for position 0. A constant
    /// base must not be zero.
    pub open spec fn radix_error(&self) -> Option<ConversionError> {
        let constant = self.kind@ == "constant"@;
        if !constant && self.kind@ != "computed"@ {
            Some(ConversionError::InvalidBase { position: 0 })
        } else if !constant && self.function is None {
            Some(ConversionError::InvalidBase { position: 0 })
        } else if constant && self.described_base() == 0 {
            Some(ConversionError::ZeroBase)
        } else {
            None
        }
    }

    /// Whether a source of radices is the one that is described: the
    /// constant base, or the base function with nothing asked of it yet.
    pub open spec fn describes_radix(&self, radix: &RadixSource) -> bool {
        if self.kind@ == "constant"@ {
            radix is Constant && radix.radix_at(0) == self.described_base()
        } else {
            &&& radix is PositionFunction
            &&& self.function matches Some(function)
            &&& radix->PositionFunction_0.source() == function@
            &&& forall|position: nat| !radix.knows(position)
        }
    }

    /// Whether a numeral system is the one that is described: its radices
    /// and its symbols are, and the alphabet agrees with the base.
    pub open spec fn describes_system(&self, system: &NumeralSystem) -> bool {
        &&& self.describes_radix(&system.radix)
        &&& system.alphabet@ == self.described_symbols()
        &&& system.consistent()
    }

    /// Why a description resolves to no numeral system, if it does not. It
    /// must give a source of radices. The listed digit values must be the
    /// numbers below the number of pairs, each once; there must be a symbol,
    /// and none twice. Where a base is given, or the kind is constant, the
    /// number of symbols must be the absolute value of the base.
    pub open spec fn resolution_error(&self) -> Option<ConversionError> {
        if self.radix_error() is Some {
            self.radix_error()
        } else if !self.values_form_range() {
            Some(ConversionError::ValueOutOfRange)
        } else if self.alphabet@.len() == 0 {
            Some(ConversionError::ZeroBase)
        } else if !self.described_symbols().no_duplicates() {
            Some(ConversionError::DuplicateSymbol)
        } else if (self.kind@ == "constant"@ || self.base is Some) && self.alphabet@.len()
            != symbols_needed(self.described_base()) {
            Some(ConversionError::AlphabetLengthMismatch)
        } else {
            None
        }
    }

    /// The base that is described: the one given, or ten.
    pub fn get_base(&self) -> (base: isize)
        ensures
            base == self.described_base(),
    {
        match self.base {
            Some(base) => base,
            None => DEFAULT_BASE,
        }
    }

    /// The digit values and their symbols, as they are listed.
    pub fn get_alphabet(&self) -> (alphabet: &Vec<(isize, char)>)
        ensures
            alphabet == &self.alphabet,
    {
        &self.alphabet
    }

    /// The symbol of the first listed pair with the digit value `value`;
    /// `ValueOutOfRange` where no pair has that value.
    pub fn get_alphabet_letter_by_value(&self, value: isize) -> (found: Result<
        char,
        ConversionError,
    >)
        ensures
            match found {
                Ok(letter) => exists|index: int|
                    {
                        &&& 0 <= index < self.alphabet@.len()
                        &&& #[trigger] self.alphabet@[index] == (value, letter)
                        &&& forall|before: int|
                            0 <= before < index ==> (#[trigger] self.alphabet@[before]).0 != value
                    },
                Err(error) => {
                    &&& error == ConversionError::ValueOutOfRange
                    &&& forall|index: int|
                        0 <= index < self.alphabet@.len() ==> (#[trigger] self.alphabet@[index]).0
                            != value
                },
            },
    {
        let mut index: usize = 0;
        while index < self.alphabet.len()
            invariant
                index <= self.alphabet@.len(),
                forall|before: int|
                    0 <= before < index ==> (#[trigger] self.alphabet@[before]).0 != value,
            decreases self.alphabet@.len() - index,
        {
            if self.alphabet[index].0 == value {
                assert(self.alphabet@[index as int] == (value, self.alphabet@[index as int].1));
                return Ok(self.alphabet[index].1);
            }
            index += 1;
        }
        Err(ConversionError::ValueOutOfRange)
    }

    /// The digit value of the first listed pair with the symbol `letter`;
    /// `UnknownSymbol` where no pair has that symbol.
    pub fn get_value_by_alphabet_letter(&self, letter: char) -> (found: Result<
        isize,
        ConversionError,
    >)
        ensures
            match found {
                Ok(value) => exists|index: int|
                    {
                        &&& 0 <= index < self.alphabet@.len()
                        &&& #[trigger] self.alphabet@[index] == (value, letter)
                        &&& forall|before: int|
                            0 <= before < index ==> (#[trigger] self.alphabet@[before]).1 != letter
                    },
                Err(error) => {
                    &&& error == ConversionError::UnknownSymbol
                    &&& forall|index: int|
                        0 <= index < self.alphabet@.len() ==> (#[trigger] self.alphabet@[index]).1
                            != letter
                },
            },
    {
        let mut index: usize = 0;
        while index < self.alphabet.len()
            invariant
                index <= self.alphabet@.len(),
                forall|before: int|
                    0 <= before < index ==> (#[trigger] self.alphabet@[before]).1 != letter,
            decreases self.alphabet@.len() - index,
        {
            if self.alphabet[index].1 == letter {
                assert(self.alphabet@[index as int] == (self.alphabet@[index as int].0, letter));
                return Ok(self.alphabet[index].0);
            }
            index += 1;
        }
        Err(ConversionError::UnknownSymbol)
    }

    /// The listed symbols in the order of their digit values;
    /// `ValueOutOfRange` where a digit value is not below the number of
    /// pairs, or is listed twice.
    fn ordered_symbols(&self) -> (listed: Result<Vec<char>, ConversionError>)
        ensures
            match listed {
                Ok(symbols) => self.values_form_range() && symbols@ == self.described_symbols(),
                Err(error) => !self.values_form_range() && error
                    == ConversionError::ValueOutOfRange,
            },
    {
        let count = self.alphabet.len();
        let mut slots: Vec<Option<char>> = Vec::new();
        while slots.len() < count
            invariant
                slots@.len() <= count,
                forall|value: int| 0 <= value < slots@.len() ==> slots@[value] is None,
                filled(slots@) == 0,
            decreases count - slots@.len(),
        {
            proof {
                assert(slots@.push(None).drop_last() =~= slots@);
            }
            slots.push(None);
        }
        let mut index: usize = 0;
        while index < count
            invariant
                index <= count,
                count == self.alphabet@.len(),
                slots@.len() == count,
                filled(slots@) == index,
                forall|listed: int|
                    0 <= listed < index ==> 0 <= (#[trigger] self.alphabet@[listed]).0 < count,
                forall|first: int, second: int|
                    0 <= first < second < index ==> (#[trigger] self.alphabet@[first]).0 != (
                    #[trigger] self.alphabet@[second]).0,
                forall|listed: int|
                    0 <= listed < index ==> slots@[(#[trigger] self.alphabet@[listed]).0 as int]
                        == Some(self.alphabet@[listed].1),
                forall|value: int|
                    0 <= value < count && (#[trigger] slots@[value]) is Some ==> exists|listed: int|
                        0 <= listed < index && (#[trigger] self.alphabet@[listed]).0 == value,
            decreases count - index,
        {
            let value = self.alphabet[index].0;
            let symbol = self.alphabet[index].1;
            if value < 0 || value as usize >= count {
                assert(!(0 <= self.alphabet@[index as int].0 < count));
                return Err(ConversionError::ValueOutOfRange);
            }
            if slots[value as usize].is_some() {
                proof {
                    let earlier = choose|listed: int|
                        0 <= listed < index && (#[trigger] self.alphabet@[listed]).0 == value;
                    assert(self.alphabet@[earlier].0 == self.alphabet@[index as int].0);
                }
                return Err(ConversionError::ValueOutOfRange);
            }
            let ghost before = slots@;
            proof {
                lemma_filled_update(before, value as int, symbol);
            }
            slots.set(value as usize, Some(symbol));
            proof {
                assert forall|listed: int| 0 <= listed < index + 1 implies slots@[(
                #[trigger] self.alphabet@[listed]).0 as int] == Some(self.alphabet@[listed].1) by {
                    if listed < index {
                        assert(before[self.alphabet@[listed].0 as int] is Some);
                    }
                }
                assert forall|first: int, second: int| 0 <= first < second < index + 1 implies (
                #[trigger] self.alphabet@[first]).0 != (#[trigger] self.alphabet@[second]).0 by {
                    if second == index {
                        assert(before[self.alphabet@[first].0 as int] is Some);
                    }
                }
                assert forall|other: int|
                    0 <= other < count && (#[trigger] slots@[other]) is Some implies exists|
                    listed: int,
                |
                    0 <= listed < index + 1 && (#[trigger] self.alphabet@[listed]).0 == other by {
                    if other == value {
                        assert(self.alphabet@[index as int].0 == other);
                    } else {
                        assert(before[other] is Some);
                        let listed = choose|listed: int|
                            0 <= listed < index && (#[trigger] self.alphabet@[listed]).0 == other;
                        assert(self.alphabet@[listed].0 == other);
                    }
                }
            }
            index += 1;
        }
        proof {
            lemma_filled_all(slots@);
        }
        let mut symbols: Vec<char> = Vec::new();
        let mut value: usize = 0;
        while value < count
            invariant
                value <= count,
                slots@.len() == count,
                symbols@.len() == value,
                forall|slot: int| 0 <= slot < count ==> (#[trigger] slots@[slot]) is Some,
                forall|slot: int|
                    0 <= slot < value ==> Some(#[trigger] symbols@[slot]) == slots@[slot],
            decreases count - value,
        {
            let symbol = slots[value].unwrap();
            symbols.push(symbol);
            value += 1;
        }
        proof {
            assert forall|slot: int| 0 <= slot < count implies symbols@[slot]
                == self.described_symbols()[slot] by {
                assert(slots@[slot] is Some);
                let listed = self.index_of_value(slot);
                assert(self.alphabet@[listed].0 == slot);
                assert(slots@[self.alphabet@[listed].0 as int] == Some(self.alphabet@[listed].1));
            }
            assert(symbols@ =~= self.described_symbols());
        }
        Ok(symbols)
    }

    /// The source of radices that is described, or why there is none: see
    /// `radix_error`.
    pub fn radix_source(&self) -> (resolved: Result<RadixSource, ConversionError>)
        ensures
            match resolved {
                Ok(radix) => self.radix_error() is None && self.describes_radix(&radix),
                Err(error) => self.radix_error() == Some(error),
            },
    {
        if self.kind == "constant".to_owned() {
            RadixSource::constant(self.get_base())
        } else if self.kind == "computed".to_owned() {
            match &self.function {
                Some(function) => Ok(RadixSource::position_function(function.as_str())),
                None => Err(ConversionError::InvalidBase { position: 0 }),
            }
        } else {
            Err(ConversionError::InvalidBase { position: 0 })
        }
    }

    /// The numeral system that is described, or why there is none: see
    /// `resolution_error`.
    pub fn resolve(&self) -> (resolved: Result<NumeralSystem, ConversionError>)
        ensures
            match resolved {
                Ok(system) => self.resolution_error() is None && self.describes_system(&system),
                Err(error) => self.resolution_error() == Some(error),
            },
    {
        let radix = match self.radix_source() {
            Ok(radix) => radix,
            Err(error) => {
                return Err(error);
            },
        };
        let symbols = match self.ordered_symbols() {
            Ok(symbols) => symbols,
            Err(error) => {
                return Err(error);
            },
        };
        let alphabet = match Alphabet::build_from_symbols(&symbols) {
            Ok(alphabet) => alphabet,
            Err(error) => {
                return Err(error);
            },
        };
        if self.kind == "constant".to_owned() || self.base.is_some() {
            match alphabet.validate_length(absolute_base(self.get_base())) {
                Ok(_) => {},
                Err(error) => {
                    return Err(error);
                },
            }
        }
        Ok(NumeralSystem::new(alphabet, radix))
    }
}

impl Config {
    /// The description of a conversion.
    ///
    /// Where the command line names a configuration file, the description
    /// is the one that the caller has loaded from it, and it is an error to
    /// have loaded none. Otherwise both sides have a constant base: the one
    /// given; else the number of symbols of the alphabet given; else ten.
    /// Their alphabets are the symbols given, or as many of the first
    /// symbols of the master table as the base asks for.
    ///
    /// A negative source base together with a literal that begins with a
    /// minus sign is refused with the message of `ConflictingNegativity`. A
    /// side without an alphabet whose base asks for more symbols than the
    /// master table holds is refused with the message of `AlphabetTooSmall`.
    /// What is given is otherwise taken down unchecked: `System::resolve`
    /// checks it.
    pub fn new(command_line_args: CommandLineArgs, loaded: Option<Config>) -> (made: Result<
        Config,
        &'static str,
    >)
        ensures
            match made {
                Ok(config) => if command_line_args.config_file is Some {
                    loaded == Some(config)
                } else {
                    &&& !negativity_conflict(command_line_args)
                    &&& !lacks_symbols(
                        command_line_args.source_base,
                        command_line_args.source_alphabet,
                    )
                    &&& !lacks_symbols(
                        command_line_args.target_base,
                        command_line_args.target_alphabet,
                    )
                    &&& describes(
                        config.source,
                        command_line_args.source_base,
                        command_line_args.source_alphabet,
                    )
                    &&& describes(
                        config.target,
                        command_line_args.target_base,
                        command_line_args.target_alphabet,
                    )
                },
                Err(message) => if command_line_args.config_file is Some {
                    loaded is None && message@ == "Failed to read config file"@
                } else if negativity_conflict(command_line_args) {
                    message@ == message_text(ConversionError::ConflictingNegativity)
                } else {
                    &&& lacks_symbols(
                        command_line_args.source_base,
                        command_line_args.source_alphabet,
                    ) || lacks_symbols(
                        command_line_args.target_base,
                        command_line_args.target_alphabet,
                    )
                    &&& message@ == message_text(ConversionError::AlphabetTooSmall)
                },
            },
    {
        if command_line_args.config_file.is_some() {
            return match loaded {
                Some(config) => Ok(config),
                None => Err("Failed to read config file"),
            };
        }
        let source_base = choose_base(
            command_line_args.source_base,
            &command_line_args.source_alphabet,
        );
        if source_base < 0 && starts_with_minus(command_line_args.source_number.as_str()) {
            return Err(ConversionError::ConflictingNegativity.message());
        }
        let target_base = choose_base(
            command_line_args.target_base,
            &command_line_args.target_alphabet,
        );
        let source_alphabet = match choose_alphabet(source_base, &command_line_args.source_alphabet) {
            Ok(alphabet) => alphabet,
            Err(error) => {
                return Err(error.message());
            },
        };
        let target_alphabet = match choose_alphabet(target_base, &command_line_args.target_alphabet) {
            Ok(alphabet) => alphabet,
            Err(error) => {
                return Err(error.message());
            },
        };
        Ok(
            Config {
                source: System {
                    kind: "constant".to_owned(),
                    base: Some(source_base),
                    function: None,
                    alphabet: source_alphabet,
                },
                target: System {
                    kind: "constant".to_owned(),
                    base: Some(target_base),
                    function: None,
                    alphabet: target_alphabet,
                },
            },
        )
    }

    /// The description of a conversion from those of its two sides.
    pub fn from_systems(source: System, target: System) -> (config: Config)
        ensures
            config.source == source,
            config.target == target,
    {
        Config { source, target }
    }

    /// The source side.
    pub fn get_source(&self) -> (system: &System)
        ensures
            system == &self.source,
    {
        &self.source
    }

    /// The target side.
    pub fn get_target(&self) -> (system: &System)
        ensures
            system == &self.target,
    {
        &self.target
    }

    /// The base of the source side: the one given, or ten.
    pub fn get_source_base(&self) -> (base: isize)
        ensures
            base == self.source.described_base(),
    {
        self.source.get_base()
    }

    /// The base of the target side: the one given, or ten.
    pub fn get_target_base(&self) -> (base: isize)
        ensures
            base == self.target.described_base(),
    {
        self.target.get_base()
    }

    /// The digit values and symbols of the source side.
    pub fn get_source_alphabet(&self) -> (alphabet: &Vec<(isize, char)>)
        ensures
            alphabet == &self.source.alphabet,
    {
        &self.source.alphabet
    }

    /// The digit values and symbols of the target side.
    pub fn get_target_alphabet(&self) -> (alphabet: &Vec<(isize, char)>)
        ensures
            alphabet == &self.target.alphabet,
    {
        &self.target.alphabet
    }
}

} // verus!
