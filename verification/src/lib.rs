//! A lexical scanner for a small interpreted language.
//!
//! The scanner turns raw source text into a flat, ordered sequence of
//! [`token::Token`]s in a single left-to-right pass, tracking source line
//! numbers and recording lexical errors as explicit [`report::Diagnostic`]
//! values rather than aborting. The behaviour of a whole pass is captured by
//! the specification functions in [`model`], and the executable
//! [`scanner::Scanner`] is verified against them.

pub mod model;
pub mod report;
pub mod scanner;
pub mod token;
