//! Conversion of arithmetic expressions between infix and prefix notation,
//! and evaluation of prefix expressions against a table of variable bindings.
//!
//! The pipeline is: [`lexer::tokenize`] splits a string into tokens;
//! [`prefix::translate_infix`] turns infix text into prefix text and
//! [`infix::translate_prefix`] does the reverse; [`calculator`] parses prefix
//! text into typed cells, evaluates a cell sequence, and renders cells back
//! to text.
#![verifier::loop_isolation(false)]

pub mod calculator;
pub mod laws;
pub mod infix;
pub mod lexer;
pub mod numeric;
pub mod prefix;

