//! A registry of uniquely identified items and of who owns them.
//!
//! The registry keeps two indexes that must always agree: the table of item
//! records, keyed by item id, and for each account the set of ids it owns.
//! [`GameItems`] is the executable registry; [`ledger::Ledger`] is the
//! mathematical model that its contracts are stated over, and [`laws`] holds
//! the theorems proved about that model.
//!
//! The registry does not know who is calling: each mutating operation
//! takes the caller's account as an argument, and whoever dispatches the
//! operations vouches for it.

pub mod error;
pub mod item;
pub mod laws;
pub mod ledger;
pub mod registry;
mod text_map;
mod text_set;

pub use error::RegistryError;
pub use item::GameItem;
pub use registry::GameItems;
