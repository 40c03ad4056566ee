//! Command-line parsing by composable parsers: tokens are classified once, and each parser
//! takes what it owns from a state passed by value, left to right, so that alternatives
//! can retry from the same starting point.
pub mod args;
pub mod info;
pub mod laws;
pub mod params;
pub mod parser;

pub use args::{classify, Args, Token, Word};
pub use info::{Error, ErrorV, Item, ItemKind, Meta, MetaV};
pub use params::{
    command, long, positional, positional_if, short, Argument, Command, Flag, Named, Positional,
    PositionalIf,
};
pub use parser::{
    fallback, many, optional, or_else, parse, zip, Fallback, Many, Mapped, Optional, OrElse,
    ParseWith, Parser, Zip,
};
