//! An embeddable interpreter for a small Lisp-family language whose evaluator
//! doubles as a command shell.
//!
//! The crate holds the language front end and evaluator: the lexer, the
//! recursive-descent parser producing a persistent list-based syntax tree, the
//! object model, the lexically-scoped environment chain, the evaluator's
//! dispatch and special-form handling, and the builtin layer.  The evaluator
//! never touches the operating system itself: whenever a builtin needs a
//! process spawned, the working directory changed, an environment variable
//! written, or a glob walked, the machine suspends with an action and is
//! resumed with an event by the embedding program.

pub mod compiler;
pub mod env;
pub mod lexer;
pub mod object;
pub mod parser;
pub mod paths;
pub mod strutil;
pub mod token;
pub mod vm;

pub use token::Token;
pub use token::TokenType;
