//! A calculator for reverse Polish notation on 32-bit signed integers.
//!
//! A line is split into words at white space ([`lexer`]). Each word is a
//! number, an operator or neither ([`token`]). A stack machine reads the words
//! from left to right and gives the value of the line, or the first failure
//! with the position of the word that failed ([`calculator`]). The operators
//! and their arithmetic are in [`arith`]; [`laws`] holds what is proved of
//! every evaluation.
//!
//! ```text
//! let calc = RpnCalculator::new(false);
//! calc.eval("2 3 +")  ==  Ok(5)
//! calc.eval("3 0 /")  ==  Err(EvalError::DivisionByZero { position: 3 })
//! ```

pub mod arith;
pub mod calculator;
pub mod laws;
pub mod lexer;
pub mod text;
pub mod token;

pub use crate::arith::Operator;
pub use crate::calculator::{EvalError, Evaluation, RpnCalculator, Snapshot};
pub use crate::lexer::split_whitespace;
pub use crate::token::Token;
