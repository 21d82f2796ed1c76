//! Interface for defining your own flag data type.
//!
//! A list of the built-in supported flag types may be found in the list
//! of impls of the [`Value`] trait. The library is extensible to custom
//! data types by providing your own impl of that trait: parse the
//! argument text into the type, or fail with an [`Error`] naming what
//! went wrong.

pub use crate::arg::Arg;
pub use crate::error::Error;
pub use crate::value::Value;
