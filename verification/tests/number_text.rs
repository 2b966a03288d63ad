use radix_converter::magnitude::Magnitude;

/// The digit value of a symbol of decimal text, if it has one.
fn digit(symbol: char) -> Option<u64> {
    match symbol {
        '0'..='9' => Some(symbol as u64 - '0' as u64),
        'a'..='z' => Some(symbol as u64 - 'a' as u64 + 10),
        'A'..='Z' => Some(symbol as u64 - 'A' as u64 + 10),
        _ => None,
    }
}

/// The number that unsigned decimal text denotes, by the grammar that the
/// library states.
fn unsigned(text: &[char]) -> Option<u64> {
    let body = if text.len() >= 1 && text[0] == '+' && !(text.len() >= 2 && text[1] == '+') {
        &text[1..]
    } else {
        text
    };
    if body.is_empty() || body[0] == '_' {
        return None;
    }
    let mut number = 0u64;
    for &symbol in body {
        if symbol == '_' {
            continue;
        }
        let value = digit(symbol)?;
        if value >= 10 {
            return None;
        }
        number = number * 10 + value;
    }
    Some(number)
}

/// The number that signed decimal text denotes, with its sign.
fn signed(text: &[char]) -> Option<(bool, u64)> {
    if text.len() >= 1 && text[0] == '-' {
        let body = if text.len() >= 2 && text[1] == '+' { text } else { &text[1..] };
        unsigned(body).map(|number| (true, number))
    } else {
        unsigned(text).map(|number| (false, number))
    }
}

fn check(text: &[char]) {
    let written: String = text.iter().collect();
    let expected = match signed(text) {
        Some((minus, number)) if !minus || number == 0 => Some(number),
        _ => None,
    };
    let parsed = Magnitude::from_decimal(&written).map(|number| number.to_u64().unwrap());
    assert_eq!(parsed, expected, "text {:?}", written);
}

#[test]
fn every_short_text_is_read_as_the_grammar_says() {
    let symbols = ['+', '-', '_', '0', '1', '9', 'a', 'Z', ' ', '.', 'é', '٣'];
    let mut texts: Vec<Vec<char>> = vec![Vec::new()];
    let mut first = 0;
    for _ in 0..4 {
        let last = texts.len();
        for index in first..last {
            for symbol in symbols {
                let mut longer = texts[index].clone();
                longer.push(symbol);
                texts.push(longer);
            }
        }
        first = last;
    }
    assert_eq!(texts.len(), 1 + 12 + 144 + 1728 + 20736);
    for text in &texts {
        check(text);
    }
}

#[test]
fn decimal_text_is_the_shortest() {
    for number in [0u64, 1, 9, 10, 11, 99, 100, 101, 4294967295, 4294967296, u64::MAX] {
        assert_eq!(Magnitude::from_u64(number).to_decimal(), number.to_string());
    }
}
