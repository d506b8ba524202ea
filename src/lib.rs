//! Front end for a small COBOL-like language: a per-line scanner, an
//! order-preserving merge of the scanned lines, and a table- and stack-driven
//! parser that checks declarations and types.
pub mod entities;
pub mod utility;
pub mod grammar;
pub mod fragment;
pub mod machine;
pub mod parser;
pub mod scanner;
pub mod merge;
pub mod laws;
