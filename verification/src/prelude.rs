//! Convenience re-export of the core types.

pub use crate::{Config, Error, Result};
