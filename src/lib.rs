//! Turns lists of named integer constants into enum declarations and the
//! trait implementations that go with them.
//!
//! The input is read in one of two dialects (`name [= value],` members or
//! `#define NAME VALUE` lines), the constants are ordered by value, and the
//! declaration is written together with any of five capabilities.

pub mod batch;
pub mod cli;
pub mod config;
pub mod emit;
pub mod error;
pub mod literal;
pub mod process;
pub mod scan;
pub mod semantics;
pub mod symbol;
pub mod text;

pub use config::FileArgs;
pub use emit::{Capability, write_enum};
pub use error::DeriveError;
pub use literal::get_num;
pub use process::process;
pub use scan::{Dialect, extract, parse_buff};
pub use symbol::{CEnum, canonicalize, sort_symbols};
