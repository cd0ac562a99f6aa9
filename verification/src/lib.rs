//! A collection of small command-line tools: a shell language (lexer, parser
//! and interpreter planner), built-in shell commands, an archive packer with
//! password-based encryption, and a small sub-command parser.

pub mod text;
pub mod i6_shell;
pub mod shell;
pub mod pack;
pub mod command_parser;
