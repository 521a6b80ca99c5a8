//! A small Lisp interpreter: a reader that turns text into expression
//! trees and an evaluator that reduces them against a scoped environment.
//!
//! Every function is verified against a mathematical model: expressions are
//! modelled by [`syntax::Term`], numbers by an unscaled integer and a scale,
//! and evaluation by the functions of [`model`]. What holds of reading and
//! evaluating for every input is proved in [`laws`].

pub mod boolean;
pub mod built_in;
pub mod decimal;
pub mod env;
pub mod error;
pub mod laws;
pub mod lex;
pub mod math;
pub mod model;
pub mod scope;
pub mod stack;
pub mod stack_encode;
pub mod syntax;
pub mod sys;
pub mod text;
