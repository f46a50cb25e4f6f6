//! Front end of a small procedural-language compiler: scope resolution,
//! structural type checking, and single-pass emission of a linear,
//! stack-machine intermediate representation.
//!
//! The `parsing` module holds the abstract syntax handed over by a parser,
//! `stream` the source positions that diagnostics carry, and `checking` the
//! checker itself together with the semantic types and the emitted
//! instruction set.

pub mod checking;
pub mod parsing;
pub mod stream;
