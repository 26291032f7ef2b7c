//! What semantic analysis keeps of the names of a program.

pub mod symbol_table;
