use radix_converter::alphabet::{master_table, symbols_of, Alphabet, MASTER_SYMBOLS};
use radix_converter::error::ConversionError;
use radix_converter::radix::{ConstantRadix, RadixSource};
use radix_converter::system::NumeralSystem;

#[test]
fn symbols_get_their_index_as_value() {
    let alphabet = Alphabet::build_from_symbols(&symbols_of("0123456789ABCDEF")).unwrap();
    assert_eq!(alphabet.base(), 16);
    assert_eq!(alphabet.symbol_of(0), Ok('0'));
    assert_eq!(alphabet.symbol_of(15), Ok('F'));
    assert_eq!(alphabet.symbol_of(16), Err(ConversionError::ValueOutOfRange));
    assert_eq!(alphabet.value_of('A'), Ok(10));
    assert_eq!(alphabet.value_of('a'), Err(ConversionError::UnknownSymbol));
    assert_eq!(alphabet.symbols(), &symbols_of("0123456789ABCDEF"));
    assert_eq!(alphabet.clone().symbols(), alphabet.symbols());
}

#[test]
fn repeated_symbol_is_a_duplicate() {
    assert_eq!(
        Alphabet::build_from_symbols(&symbols_of("0120")).err(),
        Some(ConversionError::DuplicateSymbol)
    );
    assert_eq!(
        Alphabet::build_from_symbols(&symbols_of("aa")).err(),
        Some(ConversionError::DuplicateSymbol)
    );
}

#[test]
fn no_symbol_is_a_zero_base() {
    assert_eq!(Alphabet::build_from_symbols(&Vec::new()).err(), Some(ConversionError::ZeroBase));
    assert_eq!(
        Alphabet::build_sequential(0, &master_table()).err(),
        Some(ConversionError::ZeroBase)
    );
}

#[test]
fn three_symbols_against_base_four_mismatch() {
    let alphabet = Alphabet::build_from_symbols(&symbols_of("abc")).unwrap();
    assert_eq!(alphabet.validate_length(4), Err(ConversionError::AlphabetLengthMismatch));
    assert_eq!(alphabet.validate_length(3), Ok(()));
    assert_eq!(
        NumeralSystem::with_constant_base(4, &symbols_of("abc")).err(),
        Some(ConversionError::AlphabetLengthMismatch)
    );
    let system = NumeralSystem::new(alphabet, RadixSource::constant(4).unwrap());
    assert_eq!(system.validate(), Err(ConversionError::AlphabetLengthMismatch));
    let negative = NumeralSystem::new(
        Alphabet::build_from_symbols(&symbols_of("abc")).unwrap(),
        RadixSource::constant(-3).unwrap(),
    );
    assert_eq!(negative.validate(), Ok(()));
}

#[test]
fn master_table_has_its_five_scripts_in_order() {
    let table = master_table();
    assert_eq!(table.len(), 174);
    assert_eq!(table.iter().collect::<String>(), MASTER_SYMBOLS);
    assert_eq!(&table[0..10], &symbols_of("0123456789")[..]);
    assert_eq!(table[10], 'A');
    assert_eq!(table[35], 'Z');
    assert_eq!(table[36], 'a');
    assert_eq!(table[61], 'z');
    assert_eq!(table[62], '\u{410}');
    assert_eq!(table[125], '\u{44f}');
    assert_eq!(table[126], '\u{391}');
    assert_eq!(table[173], '\u{3c9}');
}

#[test]
fn sequential_alphabet_is_a_prefix_of_the_table() {
    let table = master_table();
    let alphabet = Alphabet::build_sequential(16, &table).unwrap();
    assert_eq!(alphabet.symbols(), &symbols_of("0123456789ABCDEF"));
    assert!(Alphabet::build_sequential(174, &table).is_ok());
    assert_eq!(
        Alphabet::build_sequential(175, &table).err(),
        Some(ConversionError::AlphabetTooSmall)
    );
    assert_eq!(
        Alphabet::build_sequential(3, &symbols_of("aba")).err(),
        Some(ConversionError::DuplicateSymbol)
    );
    assert!(Alphabet::build_sequential(2, &symbols_of("aba")).is_ok());
}

#[test]
fn constant_base_is_never_zero() {
    assert_eq!(ConstantRadix::new(0).err(), Some(ConversionError::ZeroBase));
    assert_eq!(RadixSource::constant(0).err(), Some(ConversionError::ZeroBase));
    assert_eq!(
        NumeralSystem::with_constant_base(0, &symbols_of("01")).err(),
        Some(ConversionError::ZeroBase)
    );
    let radix = ConstantRadix::new(-16).unwrap();
    assert_eq!(radix.base(), -16);
    assert_eq!(radix.digit_count(), 16);
    assert_eq!(radix.value(), radix_converter::signed::SignedValue::from_i64(-16));
    assert_eq!(ConstantRadix::new(isize::MIN).unwrap().digit_count(), isize::MIN.unsigned_abs());
    assert!(RadixSource::constant(-2).unwrap().is_negative_base());
    assert!(!RadixSource::constant(2).unwrap().is_negative_base());
    assert!(!RadixSource::position_function("return 1").is_negative_base());
}
