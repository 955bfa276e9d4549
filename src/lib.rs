pub mod env;
mod error;
pub mod laws;
pub mod registry;
mod scope_id;
mod table;

pub use env::{Defs, Term};
pub use error::ScopError;
