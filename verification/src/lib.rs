//! A persistent, filesystem-shaped index: a tree of named items with size
//! metadata, kept in an embedded ordered key-value store.

use vstd::prelude::*;

pub mod counter;
pub mod digits;
pub mod error;
pub mod index;
pub mod item;
pub mod keys;
pub mod model;
pub mod scan;
pub mod shape;
pub mod store;

pub use crate::error::IndexError;
pub use crate::index::Index;
pub use crate::item::Item;
pub use crate::keys::{ItemKey, ItemParentKey};
pub use crate::scan::DirEntry;

verus! {

/// Settings of an index. There are none yet.
pub struct Config {}

} // verus!
