use radix_converter::alphabet::symbols_of;
use radix_converter::config::{CommandLineArgs, Config, System};
use radix_converter::converter::{convert, convert_literal, Converter};
use radix_converter::error::ConversionError;
use radix_converter::magnitude::Magnitude;
use radix_converter::radix::{parse_radix, PositionFunction, RadixSource};
use radix_converter::signed::SignedValue;
use radix_converter::system::NumeralSystem;
use radix_converter::text::{render, render_decimal};

#[test]
fn test_calculate_base_1() {
    let lua_function = r#"f = function (n) base = 10^6 return tostring(math.tointeger(base^n)) end return f"#;

    let command_line_args = CommandLineArgs {
        source_base: Some(2),
        target_base: Some(10),
        source_number: "1010".to_string(),
        source_alphabet: Some("01".to_string()),
        target_alphabet: Some("0123456789".to_string()),
        config_file: None,
    };

    let config = Config::new(command_line_args, None);
    let number = SignedValue::from_i64(0);
    let config = &config.unwrap();
    let converter = Converter::new(&config, number);

    assert_eq!(converter.calculate_base(lua_function, 1).unwrap(), Magnitude::from_u64(1000000));
}

#[test]
fn test_calculate_base_2() {
    let lua_function = r#"f = function (n) base = 10^6 return tostring(math.tointeger(base^n)) end return f"#;

    let command_line_args = CommandLineArgs {
        source_base: Some(2),
        target_base: Some(10),
        source_number: "1010".to_string(),
        source_alphabet: Some("01".to_string()),
        target_alphabet: Some("0123456789".to_string()),
        config_file: None,
    };

    let config = Config::new(command_line_args, None);
    let number = SignedValue::from_i64(0);
    let config = &config.unwrap();
    let converter = Converter::new(&config, number);

    assert_eq!(
        converter.calculate_base(lua_function, 2).unwrap(),
        Magnitude::from_decimal("1000000000000").unwrap()
    );
}

#[test]
fn test_calculate_base_0() {
    let lua_function = r#"f = function (n) base = 10^6 return tostring(math.tointeger(base^n)) end return f"#;

    let command_line_args = CommandLineArgs {
        source_base: Some(2),
        target_base: Some(10),
        source_number: "1010".to_string(),
        source_alphabet: Some("01".to_string()),
        target_alphabet: Some("0123456789".to_string()),
        config_file: None,
    };

    let config = Config::new(command_line_args, None);
    let number = SignedValue::from_i64(0);
    let config = &config.unwrap();
    let converter = Converter::new(&config, number);

    assert_eq!(converter.calculate_base(lua_function, 0).unwrap(), Magnitude::from_u64(1));
}

#[test]
fn test_factorial_1() {
    let lua_function = r#"f = function (n) if n <= 1 then return tostring(1) else return tostring(n * f(n - 1)) end end return f"#;

    let command_line_args = CommandLineArgs {
        source_base: Some(2),
        target_base: Some(10),
        source_number: "1".to_string(),
        source_alphabet: Some("01".to_string()),
        target_alphabet: Some("0123456789".to_string()),
        config_file: None,
    };

    let config = Config::new(command_line_args, None);
    let number = SignedValue::from_i64(1);
    let config = &config.unwrap();
    let converter = Converter::new(&config, number);

    assert_eq!(converter.calculate_base(lua_function, 1).unwrap(), Magnitude::from_u64(1));
}

#[test]
fn test_factorial_2() {
    let lua_function = r#"f = function (n) if n <= 1 then return tostring(1) else return tostring(n * f(n - 1)) end end return f"#;

    let command_line_args = CommandLineArgs {
        source_base: Some(2),
        target_base: Some(10),
        source_number: "2".to_string(),
        source_alphabet: Some("01".to_string()),
        target_alphabet: Some("0123456789".to_string()),
        config_file: None,
    };

    let config = Config::new(command_line_args, None);
    let number = SignedValue::from_i64(2);
    let config = &config.unwrap();
    let converter = Converter::new(&config, number);

    assert_eq!(converter.calculate_base(lua_function, 2).unwrap(), Magnitude::from_u64(2));
}

#[test]
fn test_factorial_3() {
    let lua_function = r#"f = function (n) if n <= 1 then return tostring(1) else return tostring(n * f(n - 1)) end end return f"#;

    let command_line_args = CommandLineArgs {
        source_base: Some(2),
        target_base: Some(10),
        source_number: "3".to_string(),
        source_alphabet: Some("01".to_string()),
        target_alphabet: Some("0123456789".to_string()),
        config_file: None,
    };

    let config = Config::new(command_line_args, None);
    let number = SignedValue::from_i64(3);
    let config = &config.unwrap();
    let converter = Converter::new(&config, number);

    assert_eq!(converter.calculate_base(lua_function, 3).unwrap(), Magnitude::from_u64(6));
}

fn constant(base: isize, symbols: &str) -> NumeralSystem {
    NumeralSystem::with_constant_base(base, &symbols_of(symbols)).unwrap()
}

fn config(source: (isize, &str), target: (isize, &str)) -> Config {
    Config::new(
        CommandLineArgs {
            source_base: Some(source.0),
            target_base: Some(target.0),
            source_number: "0".to_string(),
            source_alphabet: Some(source.1.to_string()),
            target_alphabet: Some(target.1.to_string()),
            config_file: None,
        },
        None,
    )
    .unwrap()
}

#[test]
fn binary_to_decimal() {
    let mut source = constant(2, "01");
    let mut target = constant(10, "0123456789");
    let (symbols, minus) = convert(&symbols_of("1010"), false, &mut source, &mut target).unwrap();
    assert_eq!(symbols, symbols_of("10"));
    assert!(!minus);
    assert_eq!(convert_literal("1010", &mut source, &mut target), Ok("10".to_string()));
}

#[test]
fn hexadecimal_to_binary() {
    let mut source = constant(16, "0123456789ABCDEF");
    let mut target = constant(2, "01");
    assert_eq!(convert_literal("FF", &mut source, &mut target), Ok("11111111".to_string()));
}

#[test]
fn sign_is_carried_over() {
    let mut source = constant(10, "0123456789");
    let mut target = constant(3, "xyz");
    assert_eq!(convert_literal("-11", &mut source, &mut target), Ok("-yxz".to_string()));
    assert_eq!(convert_literal("-0", &mut source, &mut target), Ok("x".to_string()));
    assert_eq!(convert_literal("", &mut source, &mut target), Ok("x".to_string()));
    assert_eq!(convert_literal("-", &mut source, &mut target), Ok("x".to_string()));
}

#[test]
fn negative_bases_on_either_side() {
    let mut negabinary = constant(-2, "01");
    let mut decimal = constant(10, "0123456789");
    assert_eq!(convert_literal("1101", &mut negabinary, &mut decimal), Ok("-3".to_string()));
    assert_eq!(convert_literal("110", &mut negabinary, &mut decimal), Ok("2".to_string()));
    assert_eq!(
        convert_literal("-110", &mut negabinary, &mut decimal),
        Err(ConversionError::ConflictingNegativity)
    );
    assert_eq!(convert_literal("6", &mut decimal, &mut negabinary), Ok("11010".to_string()));
    assert_eq!(
        convert_literal("-6", &mut decimal, &mut negabinary),
        Err(ConversionError::ConflictingNegativity)
    );
    let mut negaternary = constant(-3, "012");
    assert_eq!(
        convert_literal("1101", &mut negabinary, &mut negaternary),
        Err(ConversionError::ConflictingNegativity)
    );
    assert_eq!(convert_literal("11010", &mut negabinary, &mut negaternary), Ok("110".to_string()));
}

#[test]
fn inconsistent_side_is_refused_before_anything_is_read() {
    let alphabet = radix_converter::alphabet::Alphabet::build_from_symbols(&symbols_of("abc"));
    let mut wrong = NumeralSystem::new(alphabet.unwrap(), RadixSource::constant(4).unwrap());
    let mut decimal = constant(10, "0123456789");
    assert_eq!(
        convert_literal("?", &mut wrong, &mut decimal),
        Err(ConversionError::AlphabetLengthMismatch)
    );
    assert_eq!(
        convert_literal("?", &mut decimal, &mut wrong),
        Err(ConversionError::AlphabetLengthMismatch)
    );
    assert_eq!(convert_literal("?", &mut decimal, &mut decimal_copy()), Err(ConversionError::UnknownSymbol));
}

fn decimal_copy() -> NumeralSystem {
    constant(10, "0123456789")
}

#[test]
fn mixed_radix_on_both_sides() {
    let digits = symbols_of("0123456789");
    let mut factorial =
        NumeralSystem::with_base_function("return function(p) return tostring(p + 2) end", &digits)
            .unwrap();
    let mut decimal = constant(10, "0123456789");
    assert_eq!(convert_literal("10", &mut decimal, &mut factorial), Ok("120".to_string()));
    assert_eq!(convert_literal("120", &mut factorial, &mut decimal), Ok("10".to_string()));
    assert_eq!(convert_literal("719", &mut decimal, &mut factorial), Ok("54321".to_string()));
    assert_eq!(
        convert_literal("3628799", &mut decimal, &mut factorial),
        Ok("987654321".to_string())
    );
    assert_eq!(
        convert_literal("3628800", &mut decimal, &mut factorial),
        Ok("1000000000".to_string())
    );
    assert_eq!(
        convert_literal("36288000", &mut decimal, &mut factorial),
        Err(ConversionError::ValueOutOfRange)
    );
}

#[test]
fn answers_of_a_base_function_are_remembered() {
    let source = "calls = (calls or 0) + 1 return function(p) return tostring(calls + 1) end";
    let mut function = PositionFunction::new(source);
    assert!(!function.knows(0));
    assert_eq!(function.base_at(0).unwrap().to_u64(), Some(2));
    assert!(function.knows(0));
    assert!(!function.knows(1));
    assert_eq!(function.base_at(3).unwrap().to_u64(), Some(3));
    assert_eq!(function.base_at(0).unwrap().to_u64(), Some(2));
    assert_eq!(function.base_at(3).unwrap().to_u64(), Some(3));
    assert!(!function.knows(2));
    assert_eq!(function.base_at(2).unwrap().to_u64(), Some(4));
    let mut radix = RadixSource::position_function("return function(p) return 7 end");
    assert_eq!(radix.base_at(5), Ok(SignedValue::from_i64(7)));
    let mut constant = RadixSource::constant(-5).unwrap();
    assert_eq!(constant.base_at(0), Ok(SignedValue::from_i64(-5)));
    assert_eq!(constant.base_at(99), Ok(SignedValue::from_i64(-5)));
}

#[test]
fn failed_answer_is_asked_for_again() {
    let source = "return function(p) tries = (tries or 0) + 1 if tries < 2 then error('no') end return '5' end";
    let mut function = PositionFunction::new(source);
    assert_eq!(function.base_at(1), Err(ConversionError::InvalidBase { position: 1 }));
    assert!(!function.knows(1));
    assert_eq!(function.base_at(1).unwrap().to_u64(), Some(5));
}

#[test]
fn radix_text_must_name_a_number_of_at_least_one() {
    assert_eq!(parse_radix("16", 3).unwrap().to_u64(), Some(16));
    assert_eq!(parse_radix("1", 0).unwrap().to_u64(), Some(1));
    assert_eq!(parse_radix("0", 4), Err(ConversionError::InvalidBase { position: 4 }));
    assert_eq!(parse_radix("-2", 5), Err(ConversionError::InvalidBase { position: 5 }));
    assert_eq!(parse_radix("ten", 6), Err(ConversionError::InvalidBase { position: 6 }));
    assert_eq!(parse_radix("2.0", 7), Err(ConversionError::InvalidBase { position: 7 }));
    assert_eq!(parse_radix("", 8), Err(ConversionError::InvalidBase { position: 8 }));
}

#[test]
fn calculate_base_refuses_what_is_no_radix() {
    let config = config((2, "01"), (10, "0123456789"));
    let converter = Converter::new(&config, SignedValue::zero());
    let error = Err(ConversionError::InvalidBase { position: 4 });
    assert_eq!(converter.calculate_base("return function(n) return '0' end", 4), error);
    assert_eq!(converter.calculate_base("return function(n) return '-3' end", 4), error);
    assert_eq!(converter.calculate_base("return function(n) return {} end", 4), error);
    assert_eq!(converter.calculate_base("return function(n) error('no') end", 4), error);
    assert_eq!(converter.calculate_base("return 5", 4), error);
    assert_eq!(converter.calculate_base("function(", 4), error);
    assert_eq!(
        converter.calculate_base("return function(n) return n * 3 end", 4).unwrap().to_u64(),
        Some(12)
    );
}

#[test]
fn number_printed_in_target_alphabet() {
    let config = config((2, "01"), (16, "0123456789ABCDEF"));
    let print = |number: i64| {
        Converter::new(&config, SignedValue::from_i64(number)).print_number_in_target_alphabet()
    };
    assert_eq!(print(255), Ok("FF".to_string()));
    assert_eq!(print(-4096), Ok("-1000".to_string()));
    assert_eq!(print(0), Ok("0".to_string()));
    let reversed = Config::from_systems(
        System::new("constant".to_string(), Some(2), None, vec![(0, '0'), (1, '1')]),
        System::new("constant".to_string(), Some(2), None, vec![(1, 'b'), (0, 'a')]),
    );
    assert_eq!(
        Converter::new(&reversed, SignedValue::from_i64(2)).print_number_in_target_alphabet(),
        Ok("ba".to_string())
    );
    let broken = config_of_sides((2, "01"), (4, "012"));
    assert_eq!(
        Converter::new(&broken, SignedValue::from_i64(1)).print_number_in_target_alphabet(),
        Err(ConversionError::AlphabetLengthMismatch)
    );
}

fn config_of_sides(source: (isize, &str), target: (isize, &str)) -> Config {
    config(source, target)
}

#[test]
fn number_printed_in_target_base() {
    let config = config((2, "01"), (16, "0123456789ABCDEF"));
    let print = |number: i64| {
        Converter::new(&config, SignedValue::from_i64(number)).print_number_in_target_base()
    };
    assert_eq!(print(255), Ok("1515".to_string()));
    assert_eq!(print(-4096), Ok("-1000".to_string()));
    assert_eq!(print(0), Ok("0".to_string()));
    assert_eq!(print(2748), Ok("101112".to_string()));
    let thousand = Config::from_systems(
        System::new("constant".to_string(), Some(2), None, vec![]),
        System::new("constant".to_string(), Some(1000), None, vec![]),
    );
    assert_eq!(
        Converter::new(&thousand, SignedValue::from_i64(1234567)).print_number_in_target_base(),
        Ok("1234567".to_string())
    );
    assert_eq!(
        Converter::new(&thousand, SignedValue::from_i64(1002003)).print_number_in_target_base(),
        Ok("123".to_string())
    );
    let negative = Config::from_systems(
        System::new("constant".to_string(), Some(2), None, vec![]),
        System::new("constant".to_string(), Some(-10), None, vec![]),
    );
    assert_eq!(
        Converter::new(&negative, SignedValue::from_i64(12345)).print_number_in_target_base(),
        Ok("28465".to_string())
    );
    assert_eq!(
        Converter::new(&negative, SignedValue::from_i64(-1)).print_number_in_target_base(),
        Err(ConversionError::ConflictingNegativity)
    );
    let one = Config::from_systems(
        System::new("constant".to_string(), Some(2), None, vec![]),
        System::new("constant".to_string(), Some(1), None, vec![]),
    );
    assert_eq!(
        Converter::new(&one, SignedValue::from_i64(5)).print_number_in_target_base(),
        Err(ConversionError::InvalidBase { position: usize::MAX })
    );
    assert_eq!(
        Converter::new(&one, SignedValue::zero()).print_number_in_target_base(),
        Ok("0".to_string())
    );
    let zero = Config::from_systems(
        System::new("constant".to_string(), Some(2), None, vec![]),
        System::new("constant".to_string(), Some(0), None, vec![]),
    );
    assert_eq!(
        Converter::new(&zero, SignedValue::from_i64(1)).print_number_in_target_base(),
        Err(ConversionError::ZeroBase)
    );
    let computed = Config::from_systems(
        System::new("constant".to_string(), Some(2), None, vec![]),
        System::new(
            "computed".to_string(),
            None,
            Some("return function(p) return tostring(p + 2) end".to_string()),
            vec![],
        ),
    );
    assert_eq!(
        Converter::new(&computed, SignedValue::from_i64(3628799)).print_number_in_target_base(),
        Ok("987654321".to_string())
    );
    assert_eq!(
        Converter::new(&computed, SignedValue::from_i64(36288000 + 5)).print_number_in_target_base(),
        Ok("10000000021".to_string())
    );
    assert_eq!(
        Converter::new(&computed, SignedValue::from_i64(3628800)).print_number_in_target_base(),
        Ok("1000000000".to_string())
    );
}

#[test]
fn numerals_are_rendered_with_their_sign() {
    assert_eq!(render(&symbols_of("120"), false), "120");
    assert_eq!(render(&symbols_of("120"), true), "-120");
    assert_eq!(render(&Vec::new(), true), "-");
    let digits = vec![Magnitude::from_u64(7), Magnitude::from_u64(0), Magnitude::from_u64(12)];
    assert_eq!(render_decimal(&digits, false), "1207");
    assert_eq!(render_decimal(&digits, true), "-1207");
}
