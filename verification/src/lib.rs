//! The Qaw language toolchain: lexer, parser front end, formatter,
//! documentation extractor, package manifest handling and test discovery.
use vstd::prelude::*;

pub mod text;
pub mod lexer;
pub mod ast;
pub mod value;
pub mod interp;
pub mod formatter;
pub mod diff;
pub mod doc;
pub mod manifest;
pub mod testscan;
pub mod parser;
pub mod grammar;
pub mod syntax;

verus! {
}
