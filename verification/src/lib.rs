//! The front end of a compiler for the B programming language.
//!
//! The scanner in [`lexer`] turns source text into tokens, each with the
//! range of the source it was read from. The parser in [`parser`] turns a
//! buffer of tokens into the tree of [`ast`]: it parses expressions by the
//! binding powers of their operators and statements by recursive descent,
//! and it stops at the first error. [`ast`] also holds the visitors that
//! passes over the tree implement, and a printer that renders a tree as
//! text. [`sema`] holds what semantic analysis keeps of names.
//!
//! What the scanner yields and what the parser builds is laid down by spec
//! functions, and the executable functions are proved to compute them. The
//! modules named `laws` state what follows of them for every input, and the
//! modules named `reading` show that the text of a tree tells its shape.

pub mod ast;
pub mod common;
pub mod lexer;
pub mod parser;
pub mod sema;
