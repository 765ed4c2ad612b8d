//! A handful of small tools: a symbolic differentiator for arithmetic
//! expressions, a Caesar cipher, Fibonacci numbers, a URL shortener,
//! shapes drawn in text, messages hidden in pixels, a task list, and the
//! judging of a typing test.

pub mod caesar;
pub mod drawing;
pub mod expression;
pub mod fibonacci;
pub mod literal;
pub mod numeral;
pub mod parser;
pub mod render;
pub mod roundtrip;
pub mod shortener;
pub mod stegano;
pub mod tasks;
pub mod text;
pub mod typing;
