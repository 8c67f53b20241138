//! The mathematical model of the registry: what it records, and what each
//! operation does to it.

use vstd::prelude::*;
use crate::error::RegistryError;

verus! {

/// An item id, an account name or a metadata string, as its characters.
pub type Text = Seq<char>;

/// What the registry records of one item.
pub struct ItemRecord {
    pub id: Text,
    pub owner: Text,
    pub metadata: Text,
}

/// The state of a registry.
pub struct Ledger {
    /// The one account that may mint.
    pub admin: Text,
    /// The item table: every item ever minted, under its id.
    pub items: Map<Text, ItemRecord>,
    /// The owner index: for each account that has an entry, the ids it owns.
    pub by_owner: Map<Text, Set<Text>>,
}

/// The ids that an owner index lists for `owner`: none for an account
/// without an entry.
pub open spec fn owned(index: Map<Text, Set<Text>>, owner: Text) -> Set<Text> {
    if index.contains_key(owner) {
        index[owner]
    } else {
        Set::empty()
    }
}

/// An owner index with `id` added to the set of `owner`, whose entry is
/// created if there was none.
pub open spec fn index_with(index: Map<Text, Set<Text>>, owner: Text, id: Text) -> Map<
    Text,
    Set<Text>,
> {
    index.insert(owner, owned(index, owner).insert(id))
}

/// An owner index with `id` taken out of the set of `owner`.
pub open spec fn index_without(index: Map<Text, Set<Text>>, owner: Text, id: Text) -> Map<
    Text,
    Set<Text>,
> {
    index.insert(owner, owned(index, owner).remove(id))
}

/// No two records of the list share an id.
pub open spec fn distinct_ids(records: Seq<ItemRecord>) -> bool {
    forall|i: int, j: int|
        0 <= i < j < records.len() ==> (#[trigger] records[i]).id != (#[trigger] records[j]).id
}

/// `records` lists what the item table `items` holds: each of its records
/// once, under the record's own id, and nothing else.
pub open spec fn lists_items(records: Seq<ItemRecord>, items: Map<Text, ItemRecord>) -> bool {
    &&& distinct_ids(records)
    &&& forall|i: int|
        0 <= i < records.len() ==> items.contains_key((#[trigger] records[i]).id)
            && items[records[i].id] == records[i]
    &&& forall|id: Text| #[trigger]
        items.contains_key(id) ==> exists|i: int|
            0 <= i < records.len() && (#[trigger] records[i]).id == id
}

/// One mutating request, with the account that makes it.
pub enum Op {
    Mint { id: Text, metadata: Text, caller: Text },
    Transfer { id: Text, new_owner: Text, caller: Text },
}

impl Ledger {
    /// The registry right after it was set up: no items, no index entries.
    pub open spec fn empty(admin: Text) -> Ledger {
        Ledger { admin, items: Map::empty(), by_owner: Map::empty() }
    }

    /// The ids that the owner index lists for `owner`.
    pub open spec fn owned_by(self, owner: Text) -> Set<Text> {
        owned(self.by_owner, owner)
    }

    /// The two indexes agree: every record is filed under its own id, and an
    /// account's set holds an id exactly when the item table names that
    /// account as the item's owner.
    pub open spec fn consistent(self) -> bool {
        &&& forall|id: Text| #[trigger]
            self.items.contains_key(id) ==> self.items[id].id == id
        &&& forall|id: Text, owner: Text|
            (self.items.contains_key(id) && self.items[id].owner == owner)
                <==> #[trigger] self.owned_by(owner).contains(id)
    }

    /// The registry with `record` filed in both indexes: in the item table
    /// under its id, and in the set of its owner.
    pub open spec fn with_item(self, record: ItemRecord) -> Ledger {
        Ledger {
            admin: self.admin,
            items: self.items.insert(record.id, record),
            by_owner: index_with(self.by_owner, record.owner, record.id),
        }
    }

    /// The registry of `admin` that holds the listed records, filed one
    /// after the other.
    pub open spec fn restored(admin: Text, records: Seq<ItemRecord>) -> Ledger
        decreases records.len(),
    {
        if records.len() == 0 {
            Ledger::empty(admin)
        } else {
            Ledger::restored(admin, records.drop_last()).with_item(records.last())
        }
    }

    /// Whether `caller` may mint `id` now. The caller's right is looked at
    /// first, so a stranger is told `Unauthorized` whatever the id.
    pub open spec fn mint_outcome(self, id: Text, caller: Text) -> Result<(), RegistryError> {
        if caller != self.admin {
            Err(RegistryError::Unauthorized)
        } else if self.items.contains_key(id) {
            Err(RegistryError::AlreadyExists)
        } else {
            Ok(())
        }
    }

    /// The registry after `caller` asked to mint `id`: with the new item,
    /// owned by the caller, or unchanged where the request is turned down.
    pub open spec fn mint(self, id: Text, metadata: Text, caller: Text) -> Ledger {
        if self.mint_outcome(id, caller) is Ok {
            self.with_item(ItemRecord { id, owner: caller, metadata })
        } else {
            self
        }
    }

    /// Whether `caller` may transfer `id` now.
    pub open spec fn transfer_outcome(self, id: Text, caller: Text) -> Result<(), RegistryError> {
        if !self.items.contains_key(id) {
            Err(RegistryError::NotFound)
        } else if self.items[id].owner != caller {
            Err(RegistryError::Unauthorized)
        } else {
            Ok(())
        }
    }

    /// The registry after `caller` asked to hand `id` to `new_owner`: the id
    /// leaves the caller's set, joins the new owner's set, and the record
    /// names the new owner; or unchanged where the request is turned down.
    pub open spec fn transfer(self, id: Text, new_owner: Text, caller: Text) -> Ledger {
        if self.transfer_outcome(id, caller) is Ok {
            Ledger {
                admin: self.admin,
                items: self.items.insert(
                    id,
                    ItemRecord {
                        id: self.items[id].id,
                        owner: new_owner,
                        metadata: self.items[id].metadata,
                    },
                ),
                by_owner: index_with(index_without(self.by_owner, caller, id), new_owner, id),
            }
        } else {
            self
        }
    }

    /// The registry after one request.
    pub open spec fn step(self, op: Op) -> Ledger {
        match op {
            Op::Mint { id, metadata, caller } => self.mint(id, metadata, caller),
            Op::Transfer { id, new_owner, caller } => self.transfer(id, new_owner, caller),
        }
    }

    /// The registry after a sequence of requests, first to last.
    pub open spec fn run(self, ops: Seq<Op>) -> Ledger
        decreases ops.len(),
    {
        if ops.len() == 0 {
            self
        } else {
            self.run(ops.drop_last()).step(ops.last())
        }
    }
}

} // verus!
