//! A small C-subset compiler front end.
//!
//! The heart of the crate is the lexical analysis engine in [`lexer`]: it
//! turns raw source lines into a token stream, or fails fast with a
//! line-attributed diagnostic.  Around it stand the error model in
//! [`errors`], the command-line decision logic in [`cli`], and the staged
//! compilation pipeline in [`driver`].

pub mod cli;
pub mod driver;
pub mod errors;
pub mod laws;
pub mod lexer;
