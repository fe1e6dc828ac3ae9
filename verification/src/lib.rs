//! A dynamically typed value and the table that holds such values.
//!
//! A [`Value`] is null, a boolean, an integer, a floating-point number, a
//! text or a [`Table`]; a table maps values to values and is itself a value,
//! so that tables nest and serve as keys of other tables.
//!
//! Every contract speaks of the [`ValueView`] of a value and of the map that
//! a table stands for.

pub mod entries;
pub mod float;
mod hasher;
pub mod laws;
pub mod model;
pub mod table;
pub mod value;

pub use crate::float::F64;
pub use crate::model::{Order, ValueView};
pub use crate::table::Table;
pub use crate::value::Value;
