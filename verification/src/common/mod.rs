//! Types shared by the scanner and the parser.

pub mod span;
