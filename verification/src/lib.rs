//! A small Lisp: reader, parser, evaluator and printer over one tree type.
//!
//! Text becomes tokens (`lexer`), tokens become a tree (`parse`), the tree is
//! evaluated against an association list and a session that holds the global
//! bindings (`eval`, `lisp`), and the result is rendered back to text.
//!
//! Floating-point values are carried as IEEE 754 double bit patterns. The
//! library compares and truncates them itself; reading, printing and
//! arithmetic on them are done by functions that the caller passes in, and
//! every contract says what is returned for whatever those functions compute.
pub mod arith;
pub mod decimal;
pub mod error;
pub mod eval;
pub mod float;
pub mod lexer;
pub mod lisp;
pub mod parse;
pub mod printer;
pub mod sexpr;
pub mod shell;
pub mod text;
pub mod theorems;

pub use error::{ErrorKind, LispError};
pub use sexpr::{Form, Sexpr};
