//! The pattern compilation core of a byte-pattern scanning engine.
//!
//! A rule author writes hex patterns such as `{ 01 02 03 [0-2000] 3? }`.
//! Before a pattern goes to a multi-pattern matcher, this crate
//!
//! * converts masked bytes such as `3?` into byte classes and back
//!   ([`masking`]), and
//! * splits a pattern at its very large jumps into pieces that are chained
//!   to one another ([`chaining`]).
//!
//! Both work on the intermediate representation of a pattern ([`hir`]), whose
//! classes are those of `regex_syntax` ([`class`]). The crate also holds the
//! settings of the parser and its check of the source code ([`parser`]).
//!
//! Every function is verified against a contract. The few declarations that
//! state what `regex_syntax`, `bstr` and `u8::count_ones` do are believed, not
//! proved; each of them names the function it speaks of.

pub mod ast;
pub mod bits;
pub mod byte_mask;
pub mod chaining;
pub mod class;
pub mod hir;
pub mod masking;
pub mod parser;
