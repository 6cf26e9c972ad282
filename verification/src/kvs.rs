//! The operations of a key-value store, and the stores that offer them.

use crate::error::KvsError;
use crate::task::Existence;
use vstd::prelude::*;

pub mod crisper;
pub mod laws;
pub mod memory;

verus! {

/// A key-value store: writes, reads and removals by key.
///
/// Every operation can fail, and a failure is told apart from a key that is not there.
/// What else holds of a store, such as which of two writes is kept, is up to the store.
pub trait KeyValueStore {
    /// The form in which the store hands out a value.
    type OwnedValue;

    /// Writes `value` under `key` and reports whether the key held a value before.
    fn put(&mut self, key: &[u8], value: &[u8]) -> Result<Existence, KvsError>;

    /// Reads the value under `key`, `None` if there is none.
    fn get(&mut self, key: &[u8]) -> Result<Option<Self::OwnedValue>, KvsError>;

    /// Removes `key` and reports whether it held a value.
    fn delete(&mut self, key: &[u8]) -> Result<Existence, KvsError>;
}

} // verus!
