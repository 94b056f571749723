//! Parser for WQL, a small query language for creating entities and
//! inserting records into them.

pub mod text;
pub mod cursor;
pub mod value;
pub mod literal;
pub mod parser;
pub mod error;
pub mod theorems;

pub use error::Error;
pub use parser::{Wql, parse_wql};
pub use value::{Entity, Types};
