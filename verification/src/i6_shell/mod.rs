//! The pipe-aware shell language: lexer, parser and interpreter planner.

pub mod lang;
