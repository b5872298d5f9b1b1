//! A translator from a small imperative scripting language (declarations,
//! assignments, `assign`, `print`, `while` and `for` loops, C-like expressions)
//! to a dialect whose only loop is `UNTIL <condition>`. Each grammar rule is a
//! spec function over the input bytes, and each recognizer is proved to compute it.

use vstd::prelude::*;

pub mod lex;
pub mod number;
pub mod expression;
pub mod statement;
pub mod facts;

pub use statement::translate;
