//! A small language front end.
//!
//! The core is a lexical scanner that reads its input through a pair of
//! fixed-size buffers: [`lexer`] drives it, over [`buffer`], [`cursor`],
//! [`classifier`] and [`keywords`]. What a scanner hands out is stated
//! over the input alone, in [`grammar`] and [`stream`]; [`window`] holds
//! the reason why the buffers do not show.
//!
//! Beside it stand small tools of a front end: a symbol table
//! ([`symbols`]), two translators from infix to postfix notation
//! ([`translator`], [`rewrite`]), a postfix calculator ([`postfix`]), the
//! failure function of pattern matching ([`failure`]) and roman-style
//! numerals ([`roman`]).

pub mod assoc;
pub mod buffer;
pub mod classifier;
pub mod cursor;
pub mod failure;
pub mod grammar;
pub mod keywords;
pub mod lexer;
pub mod lines;
pub mod number;
pub mod postfix;
pub mod rewrite;
pub mod roman;
pub mod stream;
pub mod symbols;
pub mod text;
pub mod token;
pub mod translator;
pub mod window;
