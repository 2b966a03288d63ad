//! The mathematics of positional notation with a radix that may change from
//! one position to the next, and may be negative.
//!
//! Position 0 is the least significant one. A *radix function* gives the radix
//! of every position; a digit at position `p` is a natural number below the
//! absolute value of that radix. Division and remainder are Euclidean: the
//! remainder is never negative, whatever the signs of dividend and divisor.

use vstd::arithmetic::div_mod::lemma_fundamental_div_mod;
use vstd::prelude::*;

verus! {

/// The absolute value of an integer.
pub open spec fn magnitude_of(x: int) -> nat {
    if x < 0 {
        (-x) as nat
    } else {
        x as nat
    }
}

/// The radix function of a system whose radix is the same at every position.
pub open spec fn constant_radix(base: int) -> spec_fn(nat) -> int {
    |position: nat| base
}

/// The number that the digits from position `from` upwards denote, counted
/// as if `from` were position 0: `digits[from] + radix(from) * (digits[from + 1]
/// + radix(from + 1) * ...)`. With `from == 0` this is the value of the numeral.
pub open spec fn numeral_value(digits: Seq<nat>, radix: spec_fn(nat) -> int, from: nat) -> int
    decreases digits.len() - from,
{
    if from >= digits.len() {
        0
    } else {
        digits[from as int] + radix(from) * numeral_value(digits, radix, from + 1)
    }
}

/// The weight of a position: the product of the radices of all positions
/// below it.
pub open spec fn place_value(radix: spec_fn(nat) -> int, position: nat) -> int
    decreases position,
{
    if position == 0 {
        1
    } else {
        place_value(radix, (position - 1) as nat) * radix((position - 1) as nat)
    }
}

/// The sum of the first `count` digits, each times the weight of its position.
pub open spec fn weighted_sum(digits: Seq<nat>, radix: spec_fn(nat) -> int, count: nat) -> int
    decreases count,
{
    if count == 0 {
        0
    } else {
        weighted_sum(digits, radix, (count - 1) as nat) + digits[count - 1] * place_value(
            radix,
            (count - 1) as nat,
        )
    }
}

/// What is left of `number` once the digits below `position` are taken off:
/// `number` divided by the radices of the positions below, one after another.
pub open spec fn remaining_at(number: int, radix: spec_fn(nat) -> int, position: nat) -> int
    decreases position,
{
    if position == 0 {
        number
    } else {
        remaining_at(number, radix, (position - 1) as nat) / radix((position - 1) as nat)
    }
}

/// The digit of `number` at `position`: the remainder of what is left there
/// by the radix of the position.
pub open spec fn digit_at(number: int, radix: spec_fn(nat) -> int, position: nat) -> nat {
    (remaining_at(number, radix, position) % radix(position)) as nat
}

/// The first `count` digits of `number`, least significant first.
pub open spec fn expansion(number: int, radix: spec_fn(nat) -> int, count: nat) -> Seq<nat> {
    Seq::new(count, |position: int| digit_at(number, radix, position as nat))
}

/// `count` is the number of digits of the numeral of `number`: the least
/// count, at least one, after which nothing is left.
pub open spec fn is_digit_count(number: int, radix: spec_fn(nat) -> int, count: nat) -> bool {
    &&& count >= 1
    &&& remaining_at(number, radix, count) == 0
    &&& count == 1 || remaining_at(number, radix, (count - 1) as nat) != 0
}

/// Every digit is below the absolute value of the radix of its position.
pub open spec fn digits_in_range(digits: Seq<nat>, radix: spec_fn(nat) -> int) -> bool {
    forall|position: int|
        0 <= position < digits.len() ==> #[trigger] digits[position] < magnitude_of(
            radix(position as nat),
        )
}

/// Euclidean division is the only way to write `x` as `d * q + r` with
/// `0 <= r < |d|`.
pub proof fn lemma_euclid_unique(x: int, d: int, q: int, r: int)
    requires
        d != 0,
        0 <= r < magnitude_of(d),
        x == d * q + r,
    ensures
        x / d == q,
        x % d == r,
{
    lemma_fundamental_div_mod(x, d);
    lemma_remainder_in_range(x, d);
    let q0 = x / d;
    let r0 = x % d;
    assert(d * (q - q0) == r0 - r) by (nonlinear_arith)
        requires
            x == d * q + r,
            x == d * q0 + r0,
    ;
    assert(q == q0) by (nonlinear_arith)
        requires
            d * (q - q0) == r0 - r,
            d != 0,
            -magnitude_of(d) < r0 - r < magnitude_of(d),
            magnitude_of(d) == if d < 0 {
                -d
            } else {
                d
            },
    ;
}

/// A Euclidean remainder lies between zero and the absolute value of the
/// divisor.
pub proof fn lemma_remainder_in_range(x: int, d: int)
    requires
        d != 0,
    ensures
        0 <= x % d < magnitude_of(d),
{
    if d > 0 {
        vstd::arithmetic::div_mod::lemma_mod_bound(x, d);
    } else {
        assert(0 <= x % d < -d) by (nonlinear_arith)
            requires
                d < 0,
        ;
    }
}

/// Under radices of absolute value one, what is left of a number is the
/// number or its negative at every position: the expansion never ends.
pub proof fn lemma_unit_radices_leave_all(number: int, radix: spec_fn(nat) -> int, position: nat)
    requires
        forall|below: nat| below < position ==> magnitude_of(#[trigger] radix(below)) == 1,
    ensures
        magnitude_of(remaining_at(number, radix, position)) == magnitude_of(number),
    decreases position,
{
    if position > 0 {
        let below = (position - 1) as nat;
        lemma_unit_radices_leave_all(number, radix, below);
        let left = remaining_at(number, radix, below);
        assert(magnitude_of(radix(below)) == 1);
        if radix(below) == 1 {
            lemma_euclid_unique(left, 1, left, 0);
        } else {
            lemma_euclid_unique(left, -1, -left, 0);
        }
    }
}

/// The value of a numeral does not depend on the radices of positions that
/// hold none of its digits.
pub proof fn lemma_value_agrees(
    digits: Seq<nat>,
    first: spec_fn(nat) -> int,
    second: spec_fn(nat) -> int,
    from: nat,
)
    requires
        forall|position: nat|
            from <= position < digits.len() ==> #[trigger] first(position) == second(position),
    ensures
        numeral_value(digits, first, from) == numeral_value(digits, second, from),
    decreases digits.len() - from,
{
    if from < digits.len() {
        lemma_value_agrees(digits, first, second, from + 1);
    }
}

/// What is left at a position does not depend on the radices of that
/// position and of those above it.
pub proof fn lemma_remaining_agrees(
    number: int,
    first: spec_fn(nat) -> int,
    second: spec_fn(nat) -> int,
    position: nat,
)
    requires
        forall|below: nat| below < position ==> #[trigger] first(below) == second(below),
    ensures
        remaining_at(number, first, position) == remaining_at(number, second, position),
    decreases position,
{
    if position > 0 {
        lemma_remaining_agrees(number, first, second, (position - 1) as nat);
    }
}

/// Once nothing is left, nothing is left at any higher position either.
pub proof fn lemma_remaining_stays_zero(
    number: int,
    radix: spec_fn(nat) -> int,
    position: nat,
    above: nat,
)
    requires
        position <= above,
        remaining_at(number, radix, position) == 0,
        forall|between: nat| position <= between < above ==> #[trigger] radix(between) != 0,
    ensures
        remaining_at(number, radix, above) == 0,
    decreases above - position,
{
    if position < above {
        lemma_remaining_stays_zero(number, radix, position, (above - 1) as nat);
        let divisor = radix((above - 1) as nat);
        lemma_euclid_unique(0, divisor, 0, 0);
    }
}

/// Every digit of an expansion is in range: it is a natural number below the
/// absolute value of the radix of its position.
pub proof fn law_digits_in_range(number: int, radix: spec_fn(nat) -> int, count: nat)
    requires
        forall|position: nat| position < count ==> #[trigger] radix(position) != 0,
    ensures
        digits_in_range(expansion(number, radix, count), radix),
{
    let digits = expansion(number, radix, count);
    assert forall|position: int| 0 <= position < digits.len() implies #[trigger] digits[position]
        < magnitude_of(radix(position as nat)) by {
        lemma_remainder_in_range(
            remaining_at(number, radix, position as nat),
            radix(position as nat),
        );
    }
}

/// The digits of an expansion from a position upwards denote what is left of
/// the number at that position, where the expansion is long enough to leave
/// nothing.
pub proof fn lemma_tail_value(number: int, radix: spec_fn(nat) -> int, count: nat, from: nat)
    requires
        from <= count,
        remaining_at(number, radix, count) == 0,
        forall|position: nat| position < count ==> #[trigger] radix(position) != 0,
    ensures
        numeral_value(expansion(number, radix, count), radix, from) == remaining_at(
            number,
            radix,
            from,
        ),
    decreases count - from,
{
    if from < count {
        lemma_tail_value(number, radix, count, from + 1);
        let left = remaining_at(number, radix, from);
        assert(remaining_at(number, radix, from + 1) == left / radix(from));
        lemma_fundamental_div_mod(left, radix(from));
        lemma_remainder_in_range(left, radix(from));
        assert(expansion(number, radix, count)[from as int] == digit_at(number, radix, from));
    }
}

/// Round trip: reading back the digits that a number expands to gives the
/// number again, in every system whose radices are not zero, once the
/// expansion has reached its end.
pub proof fn law_round_trip(number: int, radix: spec_fn(nat) -> int, count: nat)
    requires
        remaining_at(number, radix, count) == 0,
        forall|position: nat| position < count ==> #[trigger] radix(position) != 0,
    ensures
        numeral_value(expansion(number, radix, count), radix, 0) == number,
{
    lemma_tail_value(number, radix, count, 0);
}

/// Zero has the single digit zero, whatever the radix of position 0 is,
/// provided it is not zero.
pub proof fn law_zero_expansion(radix: spec_fn(nat) -> int)
    requires
        radix(0) != 0,
    ensures
        is_digit_count(0, radix, 1),
        digit_at(0, radix, 0) == 0,
        expansion(0, radix, 1) == seq![0nat],
{
    lemma_euclid_unique(0, radix(0), 0, 0);
    assert(remaining_at(0, radix, 0) == 0);
    assert(remaining_at(0, radix, 1) == remaining_at(0, radix, 0) / radix(0));
    assert(expansion(0, radix, 1) =~= seq![0nat]);
}

/// A number has one digit count only.
pub proof fn law_digit_count_unique(
    number: int,
    radix: spec_fn(nat) -> int,
    first: nat,
    second: nat,
)
    requires
        is_digit_count(number, radix, first),
        is_digit_count(number, radix, second),
        forall|position: nat| #[trigger] radix(position) != 0,
    ensures
        first == second,
{
    if first < second {
        lemma_remaining_stays_zero(number, radix, first, (second - 1) as nat);
    }
    if second < first {
        lemma_remaining_stays_zero(number, radix, second, (first - 1) as nat);
    }
}

/// Horner's rule and the weighted sum agree from every position on: the
/// digits below `from`, weighted, plus the weight of `from` times what the
/// digits from there upwards denote, is the value of the numeral.
pub proof fn lemma_horner_split(digits: Seq<nat>, radix: spec_fn(nat) -> int, from: nat)
    requires
        from <= digits.len(),
    ensures
        numeral_value(digits, radix, 0) == weighted_sum(digits, radix, from) + place_value(
            radix,
            from,
        ) * numeral_value(digits, radix, from),
    decreases from,
{
    if from == 0 {
        assert(place_value(radix, 0) == 1);
    } else {
        let below = (from - 1) as nat;
        lemma_horner_split(digits, radix, below);
        let weight = place_value(radix, below);
        let digit = digits[below as int] as int;
        let base = radix(below);
        let rest = numeral_value(digits, radix, from);
        assert(numeral_value(digits, radix, below) == digit + base * rest);
        assert(place_value(radix, from) == weight * base);
        assert(weight * (digit + base * rest) == digit * weight + (weight * base) * rest)
            by (nonlinear_arith);
    }
}

/// Horner's rule computes the sum of the digits times the weights of their
/// positions, the weight of a position being the product of the radices
/// below it.
pub proof fn law_horner_is_weighted_sum(digits: Seq<nat>, radix: spec_fn(nat) -> int)
    ensures
        numeral_value(digits, radix, 0) == weighted_sum(digits, radix, digits.len()),
{
    lemma_horner_split(digits, radix, digits.len());
    assert(place_value(radix, digits.len()) * numeral_value(digits, radix, digits.len()) == 0)
        by (nonlinear_arith)
        requires
            numeral_value(digits, radix, digits.len()) == 0,
    ;
}

/// With a constant radix the weight of a position is the power of the radix.
pub proof fn law_constant_place_value(base: int, position: nat)
    ensures
        place_value(constant_radix(base), position) == vstd::arithmetic::power::pow(
            base,
            position,
        ),
    decreases position,
{
    reveal(vstd::arithmetic::power::pow);
    if position > 0 {
        law_constant_place_value(base, (position - 1) as nat);
        let below = vstd::arithmetic::power::pow(base, (position - 1) as nat);
        assert(below * base == base * below) by (nonlinear_arith);
    }
}

/// With a constant radix of at least two, the digit of a natural number at
/// a position is that of ordinary notation: the number divided by the power
/// of the radix, modulo the radix.
pub proof fn law_constant_digit(number: nat, base: int, position: nat)
    requires
        base >= 2,
    ensures
        vstd::arithmetic::power::pow(base, position) > 0,
        remaining_at(number as int, constant_radix(base), position) == (number as int)
            / vstd::arithmetic::power::pow(base, position),
        digit_at(number as int, constant_radix(base), position) == ((number as int)
            / vstd::arithmetic::power::pow(base, position)) % base,
    decreases position,
{
    reveal(vstd::arithmetic::power::pow);
    let radix = constant_radix(base);
    if position > 0 {
        let below = (position - 1) as nat;
        law_constant_digit(number, base, below);
        let power = vstd::arithmetic::power::pow(base, below);
        assert(vstd::arithmetic::power::pow(base, position) == base * power);
        assert(radix(below) == base);
        vstd::arithmetic::div_mod::lemma_div_denominator(number as int, power, base);
        assert(power * base == base * power) by (nonlinear_arith);
        assert(base * power > 0) by (nonlinear_arith)
            requires
                base >= 2,
                power > 0,
        ;
    }
    lemma_remainder_in_range(remaining_at(number as int, radix, position), base);
}

/// Two numerals with digits in range that agree in length and in value
/// agree in every digit.
pub proof fn lemma_same_value_same_digits(
    first: Seq<nat>,
    second: Seq<nat>,
    radix: spec_fn(nat) -> int,
    from: nat,
)
    requires
        first.len() == second.len(),
        digits_in_range(first, radix),
        digits_in_range(second, radix),
        numeral_value(first, radix, from) == numeral_value(second, radix, from),
    ensures
        forall|position: int| from <= position < first.len() ==> first[position] == second[position],
    decreases first.len() - from,
{
    if from < first.len() {
        let value = numeral_value(first, radix, from);
        assert(first[from as int] < magnitude_of(radix(from)));
        assert(second[from as int] < magnitude_of(radix(from)));
        lemma_euclid_unique(
            value,
            radix(from),
            numeral_value(first, radix, from + 1),
            first[from as int] as int,
        );
        lemma_euclid_unique(
            value,
            radix(from),
            numeral_value(second, radix, from + 1),
            second[from as int] as int,
        );
        lemma_same_value_same_digits(first, second, radix, from + 1);
    }
}

/// A numeral is canonical when it has at least one digit and, if it has
/// more than one, its most significant digit is not zero.
pub open spec fn is_canonical(digits: Seq<nat>) -> bool {
    digits.len() >= 1 && (digits.len() == 1 || digits.last() != 0)
}

/// A number has one canonical numeral only: two canonical numerals with
/// digits in range that denote the same number are the same numeral.
pub proof fn law_numeral_unique(first: Seq<nat>, second: Seq<nat>, radix: spec_fn(nat) -> int)
    requires
        is_canonical(first),
        is_canonical(second),
        digits_in_range(first, radix),
        digits_in_range(second, radix),
        numeral_value(first, radix, 0) == numeral_value(second, radix, 0),
    ensures
        first == second,
{
    let (short, long) = if first.len() <= second.len() {
        (first, second)
    } else {
        (second, first)
    };
    let padded = short + Seq::new((long.len() - short.len()) as nat, |i: int| 0nat);
    assert(digits_in_range(padded, radix)) by {
        assert forall|position: int| 0 <= position < padded.len() implies #[trigger] padded[position]
            < magnitude_of(radix(position as nat)) by {
            if position < short.len() {
                assert(padded[position] == short[position]);
            } else {
                assert(long[position] < magnitude_of(radix(position as nat)));
            }
        }
    }
    lemma_padding_keeps_value(short, (long.len() - short.len()) as nat, radix, 0);
    lemma_same_value_same_digits(padded, long, radix, 0);
    if short.len() < long.len() {
        assert(padded[long.len() - 1] == 0);
        assert(long.last() == 0);
    }
    assert(short =~= long);
}

/// Zero digits added at the most significant end do not change the value.
pub proof fn lemma_padding_keeps_value(
    digits: Seq<nat>,
    zeros: nat,
    radix: spec_fn(nat) -> int,
    from: nat,
)
    ensures
        numeral_value(digits + Seq::new(zeros, |i: int| 0nat), radix, from) == numeral_value(
            digits,
            radix,
            from,
        ),
    decreases digits.len() + zeros - from,
{
    let padded = digits + Seq::new(zeros, |i: int| 0nat);
    if from < padded.len() {
        lemma_padding_keeps_value(digits, zeros, radix, from + 1);
        if from < digits.len() {
            assert(padded[from as int] == digits[from as int]);
        } else {
            assert(padded[from as int] == 0);
            assert(numeral_value(digits, radix, from) == 0);
            assert(numeral_value(digits, radix, from + 1) == 0);
            assert(radix(from) * 0 == 0);
        }
    }
}

} // verus!
