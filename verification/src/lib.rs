//! A small text-templating engine.
//!
//! A template is compiled from a source string in which directive bodies are
//! written between two configurable delimiter characters.  A compiled
//! template is an ordered sequence of directives (literal text, variable
//! replacement, pattern repetition, conditionals and switches) that can be
//! rendered any number of times against a context mapping names to values.
//!
//! Behavioural choices this engine commits to:
//!
//! - **Strict parsing.**  A directive body whose tokens match none of the
//!   recognized shapes fails the whole compile with a `DirectiveParsing`
//!   error; nothing is silently swallowed.  The one benign exception is the
//!   empty body, which compiles to a directive that renders nothing.
//! - **Existence truthiness for bare conditionals.**  The condition of
//!   `cond ? a : b` reads the bound value's truthiness — a string is truthy
//!   when non-empty, a number when non-zero, a boolean is itself — and an
//!   absent variable is simply false.  The negation form `!cond ? a : b`
//!   instead reads its operand strictly as a boolean and reports absent or
//!   unreadable values as errors.
//! - **Floats as decimal numerals.**  A floating-point value is carried as
//!   its decimal numeral text and rendered in canonical form; numeric
//!   comparison of two numeral texts is exact decimal comparison.

#![allow(unused_imports)]

mod arg;
mod directive;
mod err;
pub mod laws;
mod lexer;
mod num;
mod numeral;
mod parser;
mod template;
mod text;
mod traits;
mod value;

pub use crate::arg::{Argument, ComparisonOp, Expression};
pub use crate::directive::{
    ConditionalDirective, Directive, NoDirective, RepeatDirective, ReplaceDirective,
    SwitchDirective,
};
pub use crate::err::TemplateError;
pub use crate::lexer::{Lexer, Token};
pub use crate::parser::DefaultParser;
pub use crate::template::Template;
pub use crate::traits::ToAstring;
pub use crate::value::{Context, Value};
