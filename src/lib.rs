//! A configuration store with two ways in: typed values held per schema
//! field, and string keys looked up in the schema's accessor table.
//!
//! - `value`: preference values and the generic parsed-document tree, with
//!   the conversions between them.
//! - `store`: shapes, errors, schema fields and the store with keyed reads
//!   and writes.
//! - `loader`: building the initial values from a defaults document.
//! - `prefs`: override documents, store construction and default suppliers.
//! - `shared`: the store behind a reader/writer lock.

use vstd::prelude::*;

pub mod loader;
pub mod prefs;
pub mod shared;
pub mod store;
pub mod value;

verus! {

} // verus!
