//! A parsing toolkit for attribute grammars over token trees.
//!
//! An attribute is a keyword and what follows it. Four shapes are read: the
//! bare keyword, the keyword with one value (`word(value)` or
//! `word = value`), the keyword with a list (`word(item, ...)`), and the
//! keyword with a list in parentheses or in braces. Beside them stand the two
//! typed names, `name: Type` and `name: Type = expr`, and the list without a
//! keyword.
//!
//! Every grammar is stated as a function from token trees, and from what the
//! grammar is told from outside, to the node that is read or the fault that
//! is found; every parser is proved to compute that function, and to leave
//! the cursor where the function says. The grammars of literals,
//! expressions, types and identifiers are those of `syn`: it is asked how
//! many tokens a value takes, and whatever it answers, the node is built
//! from the answer as stated.

pub mod cursor;
pub mod error;
pub mod field;
pub mod laws;
pub mod meta;
pub mod named;
pub mod parse;
pub mod payload;
pub mod token;
