//! The ways in which the registry turns a request down.

use vstd::prelude::*;

verus! {

/// Why the registry turned an operation down. No operation that is turned
/// down changes the registry.
#[derive(Debug, Clone, Copy, PartialEq, Eq, Structural)]
pub enum RegistryError {
    /// The caller may not do this: only the administrator mints, and only
    /// the current owner of an item transfers it.
    Unauthorized,
    /// An item with this id has been minted before.
    AlreadyExists,
    /// No item has this id.
    NotFound,
}

} // verus!
