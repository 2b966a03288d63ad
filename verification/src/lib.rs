//! Conversion of numerals between positional numeral systems, at arbitrary
//! precision.
//!
//! A numeral system is an alphabet, which gives each digit value its symbol,
//! together with a source of radices: one constant base, which may be
//! negative, or a base function that gives the radix of each digit position.
//! A conversion reads a numeral of the source system into a number and
//! writes that number as a numeral of the target system.
//!
//! - [`positional`] holds the mathematics: the value of a sequence of
//!   digits, the digits of a number, and the laws that connect the two.
//! - [`magnitude`] and [`signed`] hold the numbers, [`alphabet`], [`radix`]
//!   and [`system`] the numeral systems.
//! - [`decoder`], [`encoder`] and [`converter`] read, write and convert;
//!   [`laws`] states what holds of reading and writing together.
//! - [`config`] describes a conversion as a command line or a configuration
//!   file gives it, and resolves the description into numeral systems.
//! - [`bignum`] and [`script`] are the doors to `num_bigint` and to the Lua
//!   interpreter; what is said of them there is taken on trust.

pub mod alphabet;
pub mod bignum;
pub mod config;
pub mod converter;
pub mod decoder;
pub mod encoder;
pub mod error;
pub mod laws;
pub mod limbs;
pub mod magnitude;
pub mod positional;
pub mod radix;
pub mod script;
pub mod signed;
pub mod system;
pub mod text;
