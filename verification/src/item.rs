//! The item record as the registry hands it out.

use vstd::prelude::*;
use crate::ledger::ItemRecord;

verus! {

/// One item of the registry.
#[derive(Debug, PartialEq, Eq)]
pub struct GameItem {
    /// The item's id: unique in the registry, and fixed once minted.
    pub id: String,
    /// The account that owns the item now.
    pub owner_id: String,
    /// Whatever the minter attached to the item. The registry stores it and
    /// never looks inside.
    pub metadata: String,
}

impl View for GameItem {
    type V = ItemRecord;

    open spec fn view(&self) -> ItemRecord {
        ItemRecord { id: self.id@, owner: self.owner_id@, metadata: self.metadata@ }
    }
}

/// The records of a list of items, in the order of the list.
pub open spec fn records(items: Seq<GameItem>) -> Seq<ItemRecord> {
    items.map_values(|item: GameItem| item@)
}

impl Clone for GameItem {
    fn clone(&self) -> (copy: Self)
        ensures
            copy == *self,
    {
        GameItem {
            id: self.id.clone(),
            owner_id: self.owner_id.clone(),
            metadata: self.metadata.clone(),
        }
    }
}

} // verus!
