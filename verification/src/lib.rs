//! A rule engine for source code: rules are patterns over a file's lexemes, and every
//! match is reported with its place and a message.
//!
//! [`dsl::load`] reads rules, [`frontend`] turns source text into token streams,
//! [`aggregate::run`] matches rules against streams, and [`report::render`] writes the
//! violations out.

pub mod aggregate;
pub mod bignum;
pub mod compile;
pub mod dsl;
pub mod event;
pub mod explain;
pub mod frontend;
pub mod laws;
pub mod lexer;
pub mod manifest;
pub mod matching;
pub mod number;
pub mod order;
pub mod outside;
pub mod paths;
pub mod project;
pub mod report;
pub mod rules;
pub mod schema;
pub mod sequence;
pub mod syntax;
pub mod text;
pub mod token;
pub mod value;
