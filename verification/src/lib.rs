//! Parsing and processing of UI decorator annotations in WezTerm
//! configuration files.

pub mod text;
pub mod markers;
pub mod error;
pub mod ast;
pub mod lexer;
pub mod parser;
pub mod config;
pub mod settings;
pub mod hex;
pub mod numbers;
pub mod widgets;
pub mod layout;
pub mod state;

pub use error::WezzteError;
pub use lexer::{Token, TokenType, Lexer};
pub use parser::{Parser, ConfigEntry};
pub use ast::{Annotation, UiType, ParamValue, ParamMap};
pub use config::{ConfigManager, BackupManager, ConfigUpdater};

use vstd::prelude::*;

verus! {

/// Version of the library.
pub const VERSION: &'static str = "0.1.0";

} // verus!
