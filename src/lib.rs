//! Parser combinators over text, with each combinator's behaviour stated as
//! a relation between an input, an output value and the remaining input.
pub mod parser;
pub mod string_parser;
pub mod laws;
