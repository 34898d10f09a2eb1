//! A small formula language: expressions over numbers, vectors and matrices,
//! with variables and functions, derivatives, integrals and systems of
//! equations.
//!
//! The library reads expressions and decides how they are evaluated and how
//! equations are solved. It computes with no number itself: an expression
//! holds its numbers as the numerals that were written, a value holds them as
//! the bits of a binary64, and all arithmetic is asked of a host, step by
//! step.
//!
//! - [`parser`] turns a text into a syntax tree, as [`grammar`] defines it.
//! - [`evaluator`] evaluates a syntax tree in the small steps that
//!   [`semantics`] defines; [`meaning`] says what the steps come to.
//! - [`calculus`] and [`integral`] take derivatives and integrals.
//! - [`roots`] solves equations in the small steps that [`newton`] defines;
//!   [`solving`] says what the steps come to, and [`elimination`] solves the
//!   linear systems on the way.
//! - [`display`], [`written`], [`picture`] and [`steps`] write trees, values
//!   and calculations out.

pub mod basetypes;
pub mod calculus;
pub mod display;
pub mod elimination;
pub mod errors;
pub mod evaluator;
pub mod grammar;
pub mod helpers;
pub mod integral;
pub mod latex;
pub mod lexer;
pub mod meaning;
pub mod newton;
pub mod numbers;
pub mod parser;
pub mod picture;
pub mod roots;
pub mod selection;
pub mod semantics;
pub mod solver;
pub mod solving;
pub mod steps;
pub mod text;
pub mod unknowns;
pub mod written;

pub use basetypes::{Context, Value, Values, Variable};
pub use calculus::PREC;
pub use errors::MathLibError;
pub use evaluator::{eval, quick_eval};
pub use parser::parse;
pub use steps::{export_history, ExportType, Step};
