use radix_converter::alphabet::{master_table, symbols_of, Alphabet};
use radix_converter::decoder::decode;
use radix_converter::encoder::encode;
use radix_converter::error::ConversionError;
use radix_converter::magnitude::Magnitude;
use radix_converter::signed::{Sign, SignedValue};
use radix_converter::system::NumeralSystem;

fn constant(base: isize, symbols: &str) -> NumeralSystem {
    NumeralSystem::with_constant_base(base, &symbols_of(symbols)).unwrap()
}

fn text(symbols: &Vec<char>) -> String {
    symbols.iter().collect()
}

#[test]
fn binary_literal_decodes_to_ten() {
    let mut binary = constant(2, "01");
    let value = decode(&symbols_of("1010"), false, &mut binary).unwrap();
    assert_eq!(value, SignedValue::from_i64(10));
    assert_eq!(value.sign(), Sign::Positive);
    assert_eq!(value.magnitude().to_u64(), Some(10));
}

#[test]
fn minus_flag_negates() {
    let mut decimal = constant(10, "0123456789");
    let value = decode(&symbols_of("42"), true, &mut decimal).unwrap();
    assert_eq!(value, SignedValue::from_i64(-42));
    let zero = decode(&symbols_of("000"), true, &mut decimal).unwrap();
    assert_eq!(zero.sign(), Sign::Positive);
    assert!(zero.is_zero());
}

#[test]
fn empty_numeral_is_zero() {
    let mut decimal = constant(10, "0123456789");
    assert!(decode(&Vec::new(), false, &mut decimal).unwrap().is_zero());
}

#[test]
fn unknown_symbol_is_refused() {
    let mut binary = constant(2, "01");
    assert_eq!(decode(&symbols_of("1021"), false, &mut binary), Err(ConversionError::UnknownSymbol));
}

#[test]
fn negative_base_with_minus_conflicts() {
    let mut negabinary = constant(-2, "01");
    assert_eq!(
        decode(&symbols_of("1101"), true, &mut negabinary),
        Err(ConversionError::ConflictingNegativity)
    );
}

#[test]
fn negative_base_without_minus_decodes() {
    let mut negabinary = constant(-2, "01");
    // 1*(-8) + 1*4 + 0*(-2) + 1 = -3
    assert_eq!(decode(&symbols_of("1101"), false, &mut negabinary).unwrap(), SignedValue::from_i64(-3));
    // 1*4 + 1*(-2) + 0 = 2
    assert_eq!(decode(&symbols_of("110"), false, &mut negabinary).unwrap(), SignedValue::from_i64(2));
}

#[test]
fn encode_in_decimal() {
    let mut decimal = constant(10, "0123456789");
    let (symbols, minus) = encode(&SignedValue::from_i64(10), &mut decimal).unwrap();
    assert_eq!(text(&symbols), "10");
    assert!(!minus);
    let (symbols, minus) = encode(&SignedValue::from_i64(-9075), &mut decimal).unwrap();
    assert_eq!(text(&symbols), "9075");
    assert!(minus);
}

#[test]
fn zero_is_one_zero_digit() {
    let mut custom = constant(3, "abc");
    let (symbols, minus) = encode(&SignedValue::zero(), &mut custom).unwrap();
    assert_eq!(text(&symbols), "a");
    assert!(!minus);
    let negative_zero = SignedValue::new(Sign::Negative, Magnitude::zero());
    let (symbols, minus) = encode(&negative_zero, &mut custom).unwrap();
    assert_eq!(text(&symbols), "a");
    assert!(!minus);
    let mut negabinary = constant(-2, "01");
    let (symbols, minus) = encode(&negative_zero, &mut negabinary).unwrap();
    assert_eq!(text(&symbols), "0");
    assert!(!minus);
}

#[test]
fn encode_in_negative_base() {
    let mut negabinary = constant(-2, "01");
    let (symbols, minus) = encode(&SignedValue::from_i64(2), &mut negabinary).unwrap();
    assert_eq!(text(&symbols), "110");
    assert!(!minus);
    let (symbols, _) = encode(&SignedValue::from_i64(3), &mut negabinary).unwrap();
    assert_eq!(text(&symbols), "111");
    let (symbols, _) = encode(&SignedValue::from_i64(6), &mut negabinary).unwrap();
    assert_eq!(text(&symbols), "11010");
    let mut negadecimal = constant(-10, "0123456789");
    let (symbols, _) = encode(&SignedValue::from_i64(12345), &mut negadecimal).unwrap();
    assert_eq!(text(&symbols), "28465");
    assert_eq!(
        encode(&SignedValue::from_i64(-3), &mut negabinary),
        Err(ConversionError::ConflictingNegativity)
    );
}

#[test]
fn round_trip_in_many_systems() {
    let table = master_table();
    for base in [2isize, 3, 7, 10, 16, 36, 62, 174, -2, -3, -10, -16] {
        let count = base.unsigned_abs();
        let alphabet = Alphabet::build_sequential(count, &table).unwrap();
        let mut system =
            NumeralSystem::with_constant_base(base, alphabet.symbols()).unwrap();
        for number in [0i64, 1, 2, 9, 10, 255, 256, 1000, 65535, 4294967296, i64::MAX] {
            let value = SignedValue::from_i64(number);
            let (symbols, minus) = encode(&value, &mut system).unwrap();
            assert!(!minus);
            assert_eq!(decode(&symbols, false, &mut system).unwrap(), value);
        }
    }
}

#[test]
fn round_trip_of_a_huge_number() {
    let mut hexadecimal = constant(16, "0123456789ABCDEF");
    let digits = "DEADBEEFCAFEBABE0123456789ABCDEFFEDCBA9876543210";
    let value = decode(&symbols_of(digits), false, &mut hexadecimal).unwrap();
    assert_eq!(value.magnitude().to_u64(), None);
    let (symbols, minus) = encode(&value, &mut hexadecimal).unwrap();
    assert_eq!(text(&symbols), digits);
    assert!(!minus);
    let mut decimal = constant(10, "0123456789");
    let (symbols, _) = encode(&value, &mut decimal).unwrap();
    assert_eq!(Magnitude::from_decimal(&text(&symbols)).as_ref(), Some(value.magnitude()));
}

#[test]
fn base_one_writes_zero_only() {
    let mut unary = constant(1, "|");
    assert!(decode(&symbols_of("|||"), false, &mut unary).unwrap().is_zero());
    let (symbols, _) = encode(&SignedValue::zero(), &mut unary).unwrap();
    assert_eq!(text(&symbols), "|");
    assert_eq!(
        encode(&SignedValue::from_i64(3), &mut unary),
        Err(ConversionError::InvalidBase { position: usize::MAX })
    );
    let mut negative = constant(-1, "|");
    assert_eq!(
        encode(&SignedValue::from_i64(3), &mut negative),
        Err(ConversionError::InvalidBase { position: usize::MAX })
    );
    let (symbols, _) = encode(&SignedValue::zero(), &mut negative).unwrap();
    assert_eq!(text(&symbols), "|");
}

#[test]
fn radix_one_gives_the_digit_zero() {
    let source = "f = function (n) if n <= 1 then return tostring(1) else return tostring(n * f(n - 1)) end end return f";
    let mut system = NumeralSystem::with_base_function(source, &symbols_of("0123456789")).unwrap();
    // radices 1, 1, 2, 6, 24: 10 = 0 + 1*(0 + 1*(0 + 2*5))
    let (symbols, minus) = encode(&SignedValue::from_i64(10), &mut system).unwrap();
    assert_eq!(text(&symbols), "5000");
    assert!(!minus);
    assert_eq!(decode(&symbols, false, &mut system).unwrap(), SignedValue::from_i64(10));
    // 287 = 1 + 2*(5 + 6*(23 + 24*...)): the digit 23 has no symbol
    assert_eq!(
        encode(&SignedValue::from_i64(287), &mut system),
        Err(ConversionError::ValueOutOfRange)
    );
    let (symbols, _) = encode(&SignedValue::from_i64(119), &mut system).unwrap();
    // 119 = 1 + 2*(5 + 6*9)
    assert_eq!(text(&symbols), "95100");
    assert_eq!(decode(&symbols, false, &mut system).unwrap(), SignedValue::from_i64(119));
}

#[test]
fn digit_without_symbol_is_out_of_range() {
    let alphabet = Alphabet::build_from_symbols(&symbols_of("012")).unwrap();
    let radix = radix_converter::radix::RadixSource::constant(4).unwrap();
    let mut system = NumeralSystem::new(alphabet, radix);
    assert_eq!(encode(&SignedValue::from_i64(7), &mut system), Err(ConversionError::ValueOutOfRange));
    let (symbols, _) = encode(&SignedValue::from_i64(6), &mut system).unwrap();
    assert_eq!(text(&symbols), "12");
}

#[test]
fn factorial_like_system() {
    let source = "return function(p) return tostring(p + 2) end";
    let mut system = NumeralSystem::with_base_function(source, &symbols_of("0123456789")).unwrap();
    let (symbols, minus) = encode(&SignedValue::from_i64(10), &mut system).unwrap();
    // 10 = 0 + 2*(2 + 3*(1)): digits 0, 2, 1 at positions 0, 1, 2
    assert_eq!(text(&symbols), "120");
    assert!(!minus);
    for (position, symbol) in symbols.iter().rev().enumerate() {
        assert!((symbol.to_digit(10).unwrap() as usize) < position + 2);
    }
    assert_eq!(decode(&symbols, false, &mut system).unwrap(), SignedValue::from_i64(10));
    let value = decode(&symbols_of("4321"), false, &mut system).unwrap();
    // 1 + 2*(2 + 3*(3 + 4*4)) = 1 + 2*(2 + 57) = 119
    assert_eq!(value, SignedValue::from_i64(119));
}

#[test]
fn failing_base_function_is_an_invalid_base() {
    let symbols = symbols_of("0123456789");
    let mut broken = NumeralSystem::with_base_function("this is not lua", &symbols).unwrap();
    assert_eq!(
        decode(&symbols_of("123"), false, &mut broken),
        Err(ConversionError::InvalidBase { position: 2 })
    );
    assert_eq!(
        encode(&SignedValue::from_i64(5), &mut broken),
        Err(ConversionError::InvalidBase { position: 0 })
    );
    let source = "return function(p) if p < 2 then return '10' else return '0' end end";
    let mut short = NumeralSystem::with_base_function(source, &symbols).unwrap();
    assert_eq!(
        encode(&SignedValue::from_i64(1234), &mut short),
        Err(ConversionError::InvalidBase { position: 2 })
    );
    let (written, _) = encode(&SignedValue::from_i64(34), &mut short).unwrap();
    assert_eq!(text(&written), "34");
    let ones = "return function(p) if p < 3 then return '1' else return 'none' end end";
    let mut stalled = NumeralSystem::with_base_function(ones, &symbols).unwrap();
    assert_eq!(
        encode(&SignedValue::from_i64(1), &mut stalled),
        Err(ConversionError::InvalidBase { position: 3 })
    );
    let negative = "return function(p) return '-10' end";
    let mut refused = NumeralSystem::with_base_function(negative, &symbols).unwrap();
    assert_eq!(
        decode(&symbols_of("7"), false, &mut refused),
        Err(ConversionError::InvalidBase { position: 0 })
    );
}
