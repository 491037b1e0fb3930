//! What the engine promises, as theorems over all inputs.
//!
//! Each module states what an operation is for in terms of what goes in and what comes
//! out: the characters of rule text, the nodes of a syntax tree, the fields of tokens
//! and violations, the text of a report.

pub mod captures;
pub mod derived;
pub mod escape;
pub mod explanations;
pub mod files;
pub mod grammar;
pub mod lexemes;
pub mod lexing;
pub mod lists;
pub mod numerals;
pub mod patterns;
pub mod predicates;
pub mod records;
pub mod refusals;
pub mod regions;
pub mod reports;
pub mod run;
pub mod scopes;
pub mod segments;
