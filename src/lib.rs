//! Parses a line of chat-style text such as
//! `!foo arg1 "long arg 2" -opt -key1:val1 -key2:"long val2"` into a command
//! name, positional arguments, flags and key/value parameters.
//!
//! [`Parser::parse`] is proved to follow the transition function
//! [`parser::step`] character by character; [`lemmas`] states consequences of
//! it for whole lines.
pub mod command;
pub mod error;
pub mod lemmas;
pub mod parser;

pub use command::{Command, CommandView};
pub use error::ParseError;
pub use parser::{ParseState, Parser};
