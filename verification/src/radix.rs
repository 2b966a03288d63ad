//! Where the radix of each digit position comes from: one constant base, or a
//! base function of the position whose answers are remembered.

use crate::bignum::signed_number;
use crate::error::ConversionError;
use crate::magnitude::Magnitude;
use crate::positional::magnitude_of;
use crate::script::{lua_apply, lua_state};
use crate::signed::{Sign, SignedValue};
use mlua::Lua;
use std::collections::HashMap;
use vstd::prelude::*;

verus! {

broadcast use vstd::std_specs::hash::group_hash_axioms;

/// The radix that the decimal text of a base function's answer names for a
/// position: the number that the text denotes where it is at least one,
/// `InvalidBase` for the position where the text denotes no integer or one
/// below one.
pub fn parse_radix(text: &str, position: usize) -> (parsed: Result<Magnitude, ConversionError>)
    ensures
        match parsed {
            Ok(radix) => signed_number(text@, 10) == Some(radix@ as int) && radix@ >= 1,
            Err(error) => {
                &&& error == (ConversionError::InvalidBase { position })
                &&& signed_number(text@, 10) matches Some(number) ==> number < 1
            },
        },
{
    match Magnitude::from_decimal(text) {
        Some(radix) => if radix.is_zero() {
            Err(ConversionError::InvalidBase { position })
        } else {
            Ok(radix)
        },
        None => Err(ConversionError::InvalidBase { position }),
    }
}

/// The absolute value of a base, which is the number of symbols that the
/// base asks for.
pub fn absolute_base(base: isize) -> (magnitude: usize)
    ensures
        magnitude == magnitude_of(base as int),
{
    if base < 0 {
        (-(base + 1)) as usize + 1
    } else {
        base as usize
    }
}

/// A radix that is the same at every position. It is never zero; a negative
/// one makes a negative-base system.
#[derive(Debug, Clone, Copy)]
pub struct ConstantRadix {
    base: isize,
}

impl View for ConstantRadix {
    type V = int;

    closed spec fn view(&self) -> int {
        self.base as int
    }
}

impl ConstantRadix {
    #[verifier::type_invariant]
    spec fn not_zero(self) -> bool {
        self.base != 0
    }

    /// The constant radix `base`; `ZeroBase` where it is zero.
    pub fn new(base: isize) -> (built: Result<ConstantRadix, ConversionError>)
        ensures
            match built {
                Ok(radix) => radix@ == base && base != 0,
                Err(error) => error == ConversionError::ZeroBase && base == 0,
            },
    {
        if base == 0 {
            Err(ConversionError::ZeroBase)
        } else {
            Ok(ConstantRadix { base })
        }
    }

    /// The base, which is not zero.
    pub fn base(&self) -> (base: isize)
        ensures
            base == self@,
            base != 0,
    {
        proof {
            use_type_invariant(self);
        }
        self.base
    }

    /// The absolute value of the base, which is the number of symbols that
    /// the system needs.
    pub fn digit_count(&self) -> (count: usize)
        ensures
            count == magnitude_of(self@),
            count >= 1,
    {
        proof {
            use_type_invariant(self);
        }
        absolute_base(self.base)
    }

    /// The base as a number of arbitrary size.
    pub fn value(&self) -> (radix: SignedValue)
        ensures
            radix@ == self@,
            radix@ != 0,
    {
        proof {
            use_type_invariant(self);
        }
        SignedValue::from_i64(self.base as i64)
    }
}

/// A radix that a base function gives for each position. The function is
/// Lua source text that evaluates to a function from the position to the
/// decimal text of the radix. An answer, once given, is remembered in a
/// table keyed by the position, and the function is not asked for that
/// position again. Its view maps the positions that were answered to their
/// radices, all at least one.
pub struct PositionFunction {
    interpreter: Lua,
    function: String,
    known: HashMap<usize, Magnitude>,
}

impl View for PositionFunction {
    type V = Map<nat, nat>;

    closed spec fn view(&self) -> Map<nat, nat> {
        Map::new(
            |position: nat| position <= usize::MAX && self.known@.contains_key(position as usize),
            |position: nat| self.known@[position as usize]@,
        )
    }
}

impl PositionFunction {
    #[verifier::type_invariant]
    spec fn positive_radices(self) -> bool {
        forall|position: usize|
            self.known@.contains_key(position) ==> (#[trigger] self.known@[position])@ >= 1
    }

    /// The source text of the base function.
    pub closed spec fn source(&self) -> Seq<char> {
        self.function@
    }

    /// A base function given by its Lua source text, with nothing answered
    /// yet.
    pub fn new(function: &str) -> (built: PositionFunction)
        ensures
            built@ == Map::<nat, nat>::empty(),
            built.source() == function@,
    {
        let built = PositionFunction {
            interpreter: lua_state(),
            function: function.to_owned(),
            known: HashMap::new(),
        };
        assert(built@ =~= Map::<nat, nat>::empty());
        built
    }

    /// Whether the radix of a position has been answered.
    pub fn knows(&self, position: usize) -> (known: bool)
        ensures
            known == self@.contains_key(position as nat),
    {
        self.known.get(&position).is_some()
    }

    /// Remembers the radix of a position.
    fn remember(&mut self, position: usize, radix: Magnitude)
        requires
            radix@ >= 1,
        ensures
            final(self)@ == old(self)@.insert(position as nat, radix@),
            final(self).source() == old(self).source(),
    {
        proof {
            use_type_invariant(&*self);
        }
        let mut known: HashMap<usize, Magnitude> = HashMap::new();
        core::mem::swap(&mut self.known, &mut known);
        let ghost before = known@;
        known.insert(position, radix);
        assert forall|other: usize| known@.contains_key(other) implies (#[trigger] known@[other])@
            >= 1 by {
            if other != position {
                assert(before.contains_key(other));
            }
        }
        core::mem::swap(&mut self.known, &mut known);
        assert(self@ =~= old(self)@.insert(position as nat, radix@));
    }

    /// The radix of a position: the remembered answer where there is one;
    /// else the answer that the base function gives now, which is then
    /// remembered. It fails with `InvalidBase` for the position, and
    /// remembers nothing, where the function fails or answers anything but
    /// the decimal text of a number that is at least one.
    pub fn base_at(&mut self, position: usize) -> (found: Result<Magnitude, ConversionError>)
        ensures
            final(self).source() == old(self).source(),
            old(self)@.contains_key(position as nat) ==> {
                &&& found matches Ok(radix)
                &&& radix@ == old(self)@[position as nat]
                &&& final(self)@ == old(self)@
            },
            match found {
                Ok(radix) => {
                    &&& radix@ >= 1
                    &&& final(self)@ == old(self)@.insert(position as nat, radix@)
                },
                Err(error) => {
                    &&& error == (ConversionError::InvalidBase { position })
                    &&& final(self)@ == old(self)@
                },
            },
    {
        proof {
            use_type_invariant(&*self);
        }
        match self.known.get(&position) {
            Some(radix) => {
                let radix = radix.clone();
                assert(self@ =~= self@.insert(position as nat, radix@));
                return Ok(radix);
            },
            None => {},
        }
        match lua_apply(&self.interpreter, self.function.as_str(), position) {
            Ok(answer) => match parse_radix(answer.as_str(), position) {
                Ok(radix) => {
                    self.remember(position, radix.clone());
                    Ok(radix)
                },
                Err(error) => Err(error),
            },
            Err(_) => Err(ConversionError::InvalidBase { position }),
        }
    }
}

/// The source of the radix of each digit position of a numeral system.
pub enum RadixSource {
    /// The same radix at every position.
    Constant(ConstantRadix),
    /// A radix that a base function gives for each position.
    PositionFunction(PositionFunction),
}

impl RadixSource {
    /// A constant radix; `ZeroBase` where it is zero.
    pub fn constant(base: isize) -> (built: Result<RadixSource, ConversionError>)
        ensures
            match built {
                Ok(source) => source is Constant && source.radix_at(0) == base && base != 0,
                Err(error) => error == ConversionError::ZeroBase && base == 0,
            },
    {
        match ConstantRadix::new(base) {
            Ok(radix) => Ok(RadixSource::Constant(radix)),
            Err(error) => Err(error),
        }
    }

    /// A base function given by its Lua source text.
    pub fn position_function(function: &str) -> (source: RadixSource)
        ensures
            source is PositionFunction,
            source->PositionFunction_0.source() == function@,
            forall|position: nat| !source.knows(position),
    {
        RadixSource::PositionFunction(PositionFunction::new(function))
    }

    /// Whether the radix of a position is known: always with a constant
    /// radix, after the first answer with a base function.
    pub open spec fn knows(&self, position: nat) -> bool {
        match self {
            RadixSource::Constant(_) => true,
            RadixSource::PositionFunction(function) => function@.contains_key(position),
        }
    }

    /// The radix of a position where it is known, zero where it is not.
    pub open spec fn radix_at(&self, position: nat) -> int {
        match self {
            RadixSource::Constant(radix) => radix@,
            RadixSource::PositionFunction(function) => if function@.contains_key(position) {
                function@[position] as int
            } else {
                0
            },
        }
    }

    /// The radix function of the source as far as it is known.
    pub open spec fn radices(&self) -> spec_fn(nat) -> int {
        |position: nat| self.radix_at(position)
    }

    /// Whether this is a constant radix below zero.
    pub open spec fn negative_base(&self) -> bool {
        self matches RadixSource::Constant(radix) && radix@ < 0
    }

    /// Whether this source is a later state of `earlier`: the same kind of
    /// source, with every radix that was known then known now and unchanged.
    pub open spec fn extends(&self, earlier: &RadixSource) -> bool {
        match (self, earlier) {
            (RadixSource::Constant(now), RadixSource::Constant(then)) => now@ == then@,
            (RadixSource::PositionFunction(now), RadixSource::PositionFunction(then)) => {
                &&& now.source() == then.source()
                &&& then@.submap_of(now@)
            },
            _ => false,
        }
    }

    /// Whether this is a constant radix of absolute value one, under which
    /// no number but zero has a numeral.
    pub open spec fn unit_base(&self) -> bool {
        self matches RadixSource::Constant(radix) && magnitude_of(radix@) == 1
    }

    /// Whether this is a constant radix of absolute value one.
    pub fn is_unit_base(&self) -> (unit: bool)
        ensures
            unit == self.unit_base(),
    {
        match self {
            RadixSource::Constant(radix) => radix.base() == 1 || radix.base() == -1,
            RadixSource::PositionFunction(_) => false,
        }
    }

    /// Whether this is a constant radix below zero.
    pub fn is_negative_base(&self) -> (negative: bool)
        ensures
            negative == self.negative_base(),
    {
        match self {
            RadixSource::Constant(radix) => radix.base() < 0,
            RadixSource::PositionFunction(_) => false,
        }
    }

    /// The radix of a position. A constant radix is returned as it is. A
    /// base function is asked where it has not answered for the position
    /// before; `InvalidBase` for the position where it gives no radix.
    pub fn base_at(&mut self, position: usize) -> (found: Result<SignedValue, ConversionError>)
        ensures
            final(self).extends(old(self)),
            old(self).knows(position as nat) ==> found is Ok,
            forall|other: nat|
                other != position ==> final(self).knows(other) == old(self).knows(other),
            match found {
                Ok(radix) => {
                    &&& final(self).knows(position as nat)
                    &&& radix@ == final(self).radix_at(position as nat)
                    &&& radix@ != 0
                    &&& *old(self) is PositionFunction ==> radix@ >= 1
                },
                Err(error) => {
                    &&& error == (ConversionError::InvalidBase { position })
                    &&& !final(self).knows(position as nat)
                },
            },
    {
        match self {
            RadixSource::Constant(radix) => Ok(radix.value()),
            RadixSource::PositionFunction(function) => match function.base_at(position) {
                Ok(radix) => Ok(SignedValue::new(Sign::Positive, radix)),
                Err(error) => Err(error),
            },
        }
    }
}

} // verus!
