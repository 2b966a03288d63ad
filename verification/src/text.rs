//! Numerals as text.

use crate::bignum::radix_text;
use crate::magnitude::Magnitude;
use vstd::prelude::*;
use vstd::string::StringExecFns;

verus! {

/// `String::push`: appends one symbol to a text.
#[verifier::external_body]
fn push_symbol(text: &mut String, symbol: char)
    ensures
        final(text)@ == old(text)@.push(symbol),
{
    text.push(symbol)
}

/// The sign of a written number: a minus sign, or nothing.
pub open spec fn sign_text(minus: bool) -> Seq<char> {
    if minus {
        seq!['-']
    } else {
        Seq::<char>::empty()
    }
}

/// A numeral as it is written: a minus sign where one belongs, then the
/// symbols.
pub open spec fn rendered(symbols: Seq<char>, minus: bool) -> Seq<char> {
    sign_text(minus) + symbols
}

/// The digit values of a numeral written out in decimal, one after the
/// other without a separator, most significant first; the digits are given
/// least significant first.
pub open spec fn decimal_numeral(digits: Seq<nat>) -> Seq<char>
    decreases digits.len(),
{
    if digits.len() == 0 {
        Seq::<char>::empty()
    } else {
        radix_text(digits.last(), 10) + decimal_numeral(digits.drop_last())
    }
}

/// The numbers that magnitudes denote.
pub open spec fn magnitudes_view(digits: Seq<Magnitude>) -> Seq<nat> {
    Seq::new(digits.len(), |index: int| digits[index]@)
}

/// The text of a sign.
fn sign_prefix(minus: bool) -> (text: String)
    ensures
        text@ == sign_text(minus),
{
    let mut text = String::new();
    if minus {
        push_symbol(&mut text, '-');
        assert(text@ =~= seq!['-']);
    }
    text
}

/// A numeral as it is written: a minus sign where `minus` is set, then the
/// symbols.
pub fn render(symbols: &Vec<char>, minus: bool) -> (text: String)
    ensures
        text@ == rendered(symbols@, minus),
{
    let mut text = sign_prefix(minus);
    let mut index: usize = 0;
    while index < symbols.len()
        invariant
            index <= symbols@.len(),
            text@ == sign_text(minus) + symbols@.take(index as int),
        decreases symbols@.len() - index,
    {
        push_symbol(&mut text, symbols[index]);
        index += 1;
        assert(text@ =~= sign_text(minus) + symbols@.take(index as int));
    }
    assert(symbols@.take(index as int) =~= symbols@);
    text
}

/// The digit values of a numeral written out in decimal after its sign,
/// most significant first; the digits are given least significant first.
pub fn render_decimal(digits: &Vec<Magnitude>, minus: bool) -> (text: String)
    ensures
        text@ == sign_text(minus) + decimal_numeral(magnitudes_view(digits@)),
{
    let ghost values = magnitudes_view(digits@);
    let mut text = sign_prefix(minus);
    let mut left: usize = digits.len();
    assert(values.take(left as int) =~= values);
    while left > 0
        invariant
            left <= digits@.len(),
            values == magnitudes_view(digits@),
            text@ + decimal_numeral(values.take(left as int)) == sign_text(minus)
                + decimal_numeral(values),
        decreases left,
    {
        let ghost before = text@;
        let ghost lower = values.take(left as int);
        left -= 1;
        let digit = digits[left].to_decimal();
        text.append(digit.as_str());
        proof {
            assert(lower.last() == digits@[left as int]@);
            assert(lower.drop_last() =~= values.take(left as int));
            assert(decimal_numeral(lower) == radix_text(lower.last(), 10) + decimal_numeral(
                lower.drop_last(),
            ));
            assert(text@ + decimal_numeral(values.take(left as int)) =~= before + decimal_numeral(
                lower,
            ));
        }
    }
    assert(values.take(0) =~= Seq::<nat>::empty());
    assert(text@ + Seq::<char>::empty() =~= text@);
    text
}

} // verus!
