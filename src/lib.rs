//! Parsing of CSS-style `hsl(...)` / `rgb(...)` color notations and exact
//! conversion between the HSL and RGB color models.
//!
//! Real values are held as [`decimal::Decimal`], a fixed-point number with six
//! fractional digits, so that every conversion is exact and deterministic.

use vstd::prelude::*;

pub mod colors;
pub mod decimal;
pub mod lexer;
pub mod parse;
pub mod text;

verus! {

/// The errors that the library reports.
#[derive(Debug, Clone, PartialEq, Eq)]
pub enum Error {
    /// The text is not a complete `hsl`/`hsla`/`rgb`/`rgba` expression.
    InvalidColor,
    /// The name is none of `hsl`, `hsla`, `rgb`, `rgba`, `hex`.
    InvalidColorType(String),
}

} // verus!
