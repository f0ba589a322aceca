//! Conversion of infix arithmetic expressions to Reverse Polish Notation.
//!
//! A text is first split into tokens (`token::tokenize`), and the tokens
//! are then put into Reverse Polish Notation by the shunting-yard method
//! (`parse::to_rpn`). What the two stages compute is defined in `lexing`
//! and `rpn`; what holds of it is stated and proved in `coverage`,
//! `balance`, `content` and `pipeline`.

pub mod balance;
pub mod content;
pub mod coverage;
pub mod lexing;
pub mod parse;
pub mod pipeline;
pub mod report;
pub mod rpn;
pub mod token;
