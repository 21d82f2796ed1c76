//! Command line flag library in the gflags style.
//!
//! Flags are declared as descriptors and collected into a process-wide
//! [`registry::Registry`]. A single call to [`parse::parse_os`] (or
//! [`parse::parse`] for UTF-8 positional arguments) consumes the command
//! line once: the [`token::Tokenizer`] turns the raw arguments into
//! getopt-style tokens, the driver routes each flag occurrence to its
//! descriptor, and the resulting publications are applied to the typed
//! one-slot cells of [`state::Flag`]. Everything the command line holds
//! besides flags and their values comes back as positional arguments.

pub mod arg;
pub mod atomic;
pub mod custom;
pub mod dispatch;
pub mod error;
pub mod laws;
pub mod name;
pub mod parse;
pub mod registry;
pub mod state;
mod text;
pub mod token;
pub mod value;

pub use crate::error::Error;
pub use crate::parse::{parse, parse_os};
pub use crate::state::Flag;
