//! The registry: the item table and the owner index, kept in agreement.

use vstd::prelude::*;
use crate::error::RegistryError;
use crate::item::{records, GameItem};
use crate::laws::{
    lemma_empty_consistent, lemma_mint_consistent, lemma_restored, lemma_transfer_consistent,
};
use crate::ledger::{
    distinct_ids, index_with, index_without, lists_items, owned, ItemRecord, Ledger, Text,
};
use crate::text_map::TextMap;
use crate::text_set::TextSet;

verus! {

/// The two indexes. They leave the registry and come back together, so
/// that the registry is never seen with one ahead of the other.
struct Indexes {
    items: TextMap<GameItem>,
    owner_to_items: TextMap<TextSet>,
}

impl Indexes {
    /// The item table as the model has it.
    spec fn items(&self) -> Map<Text, ItemRecord> {
        self.items@.map_values(|item: GameItem| item@)
    }

    /// The owner index as the model has it.
    spec fn by_owner(&self) -> Map<Text, Set<Text>> {
        self.owner_to_items@.map_values(|ids: TextSet| ids@)
    }

    fn new() -> (fresh: Self)
        ensures
            fresh.items() == Map::<Text, ItemRecord>::empty(),
            fresh.by_owner() == Map::<Text, Set<Text>>::empty(),
    {
        let fresh = Indexes { items: TextMap::new(), owner_to_items: TextMap::new() };
        assert(fresh.items() =~= Map::<Text, ItemRecord>::empty());
        assert(fresh.by_owner() =~= Map::<Text, Set<Text>>::empty());
        fresh
    }

    /// Files `item` in the item table under its id.
    fn record(&mut self, item: GameItem)
        ensures
            final(self).items() == old(self).items().insert(item.id@, item@),
            final(self).by_owner() == old(self).by_owner(),
    {
        let ghost id = item.id@;
        let ghost row = item@;
        self.items.insert(item.id.clone(), item);
        assert(self.items() =~= old(self).items().insert(id, row));
    }

    /// Adds `id` to the set of `owner`, starting the set if the account
    /// had none.
    fn add_to_owner(&mut self, owner: String, id: String)
        ensures
            final(self).items() == old(self).items(),
            final(self).by_owner() == index_with(old(self).by_owner(), owner@, id@),
    {
        let mut ids = match self.owner_to_items.remove(&owner) {
            Some(ids) => ids,
            None => TextSet::new(),
        };
        assert(ids@ == owned(old(self).by_owner(), owner@));
        ids.insert(id);
        self.owner_to_items.insert(owner, ids);
        assert(self.by_owner() =~= index_with(old(self).by_owner(), owner@, id@));
    }

    /// Takes `id` out of the set of `owner`. An account without a set is
    /// left without one.
    fn remove_from_owner(&mut self, owner: String, id: &String)
        ensures
            final(self).items() == old(self).items(),
            final(self).by_owner() == if old(self).by_owner().contains_key(owner@) {
                index_without(old(self).by_owner(), owner@, id@)
            } else {
                old(self).by_owner()
            },
    {
        match self.owner_to_items.remove(&owner) {
            Some(mut ids) => {
                ids.remove(id);
                self.owner_to_items.insert(owner, ids);
                assert(self.by_owner() =~= index_without(old(self).by_owner(), owner@, id@));
            },
            None => {
                assert(self.by_owner() =~= old(self).by_owner());
            },
        }
    }
}

/// A registry of items and their owners, with one administrator who alone
/// may mint.
///
/// Its view is the [`Ledger`] it stands for. In every registry the two
/// indexes of that ledger agree ([`Ledger::consistent`]).
pub struct GameItems {
    owner_id: String,
    indexes: Indexes,
}

impl View for GameItems {
    type V = Ledger;

    closed spec fn view(&self) -> Ledger {
        Ledger {
            admin: self.owner_id@,
            items: self.indexes.items(),
            by_owner: self.indexes.by_owner(),
        }
    }
}

impl GameItems {
    #[verifier::type_invariant]
    spec fn indexes_agree(&self) -> bool {
        self@.consistent()
    }

    /// Sets up an empty registry whose administrator is `owner_id`.
    pub fn new(owner_id: String) -> (registry: Self)
        ensures
            registry@ == Ledger::empty(owner_id@),
            registry@.consistent(),
    {
        proof {
            lemma_empty_consistent(owner_id@);
        }
        GameItems { owner_id, indexes: Indexes::new() }
    }

    /// Rebuilds the registry of `owner_id` from a list of its items, such as
    /// [`GameItems::items`] gives. Each item is filed under its id and in
    /// the set of its owner.
    ///
    /// Fails with `AlreadyExists` if two items of the list share an id.
    pub fn restore(owner_id: String, items: &[GameItem]) -> (r: Result<Self, RegistryError>)
        ensures
            match r {
                Ok(registry) => {
                    &&& distinct_ids(records(items@))
                    &&& registry@ == Ledger::restored(owner_id@, records(items@))
                    &&& lists_items(records(items@), registry@.items)
                    &&& registry@.consistent()
                },
                Err(e) => e == RegistryError::AlreadyExists && !distinct_ids(records(items@)),
            },
    {
        let ghost all = records(items@);
        let mut indexes = Indexes::new();
        let mut i: usize = 0;
        while i < items.len()
            invariant
                i <= items@.len(),
                all == records(items@),
                distinct_ids(all.take(i as int)),
                indexes.items() == Ledger::restored(owner_id@, all.take(i as int)).items,
                indexes.by_owner() == Ledger::restored(owner_id@, all.take(i as int)).by_owner,
            decreases items@.len() - i,
        {
            let ghost done = all.take(i as int);
            let item = items[i].clone();
            proof {
                lemma_restored(owner_id@, done);
                assert(all.take(i + 1).drop_last() =~= done);
                assert(all.take(i + 1).last() == item@);
            }
            if indexes.items.contains_key(&item.id) {
                proof {
                    assert(indexes.items().contains_key(item.id@));
                    assert(Ledger::restored(owner_id@, done).items.contains_key(item@.id));
                    let j = choose|j: int|
                        0 <= j < done.len() && (#[trigger] done[j]).id == item@.id;
                    assert(all[j].id == all[i as int].id);
                }
                return Err(RegistryError::AlreadyExists);
            }
            assert forall|j: int, k: int| 0 <= j < k < i + 1 implies (#[trigger] all.take(
                i + 1,
            )[j]).id != (#[trigger] all.take(i + 1)[k]).id by {
                if k == i {
                    assert(done[j].id != item@.id);
                } else {
                    assert(done[j].id != done[k].id);
                }
            }
            let owner = item.owner_id.clone();
            let id = item.id.clone();
            indexes.record(item);
            indexes.add_to_owner(owner, id);
            i += 1;
        }
        proof {
            assert(all.take(i as int) =~= all);
            lemma_restored(owner_id@, all);
        }
        Ok(GameItems { owner_id, indexes })
    }

    /// Every item of the registry, each once, in no particular order.
    pub fn items(&self) -> (all: Vec<GameItem>)
        ensures
            lists_items(records(all@), self@.items),
            self@.consistent(),
    {
        proof {
            use_type_invariant(self);
        }
        let values = self.indexes.items.values();
        let ghost keys = self.indexes.items.keys();
        let mut all: Vec<GameItem> = Vec::new();
        let mut i: usize = 0;
        while i < values.len()
            invariant
                i <= values@.len(),
                all@.len() == i,
                forall|j: int| 0 <= j < i ==> #[trigger] all@[j] == *values@[j],
            decreases values@.len() - i,
        {
            all.push(values[i].clone());
            i += 1;
        }
        proof {
            let listed = records(all@);
            assert forall|j: int| 0 <= j < listed.len() implies self@.items.contains_key(
                (#[trigger] listed[j]).id,
            ) && self@.items[listed[j].id] == listed[j] && listed[j].id == keys[j] by {
                assert(self.indexes.items@.contains_key(keys[j]));
                assert(self@.items.contains_key(keys[j]));
            }
            assert forall|id: Text| #[trigger] self@.items.contains_key(id) implies exists|j: int|
                0 <= j < listed.len() && (#[trigger] listed[j]).id == id by {
                assert(keys.to_set().contains(id));
                let j = choose|j: int| 0 <= j < keys.len() && keys[j] == id;
                assert(listed[j].id == id);
            }
        }
        all
    }

    /// Mints the item `id` with `metadata` for `caller`, who must be the
    /// administrator and becomes its first owner.
    ///
    /// Fails with `Unauthorized` for any other caller, and with
    /// `AlreadyExists` if the id was minted before. A failed call changes
    /// nothing.
    pub fn mint(&mut self, id: String, metadata: String, caller: String) -> (r: Result<
        (),
        RegistryError,
    >)
        ensures
            r == old(self)@.mint_outcome(id@, caller@),
            final(self)@ == old(self)@.mint(id@, metadata@, caller@),
            final(self)@.consistent(),
    {
        proof {
            use_type_invariant(&*self);
        }
        if !(caller == self.owner_id) {
            return Err(RegistryError::Unauthorized);
        }
        if self.indexes.items.contains_key(&id) {
            return Err(RegistryError::AlreadyExists);
        }
        proof {
            lemma_empty_consistent(self.owner_id@);
            lemma_mint_consistent(self@, id@, metadata@, caller@);
        }
        let mut indexes = Indexes::new();
        std::mem::swap(&mut indexes, &mut self.indexes);
        indexes.record(GameItem { id: id.clone(), owner_id: caller.clone(), metadata });
        indexes.add_to_owner(caller, id);
        self.indexes = indexes;
        Ok(())
    }

    /// Hands the item `id` over from `caller`, who must own it, to
    /// `new_owner_id`: the id leaves the caller's set, joins the new owner's
    /// set, and the record names the new owner.
    ///
    /// Fails with `NotFound` if there is no such item, and with
    /// `Unauthorized` if `caller` is not its owner. A failed call changes
    /// nothing.
    pub fn transfer(&mut self, id: String, new_owner_id: String, caller: String) -> (r: Result<
        (),
        RegistryError,
    >)
        ensures
            r == old(self)@.transfer_outcome(id@, caller@),
            final(self)@ == old(self)@.transfer(id@, new_owner_id@, caller@),
            final(self)@.consistent(),
    {
        proof {
            use_type_invariant(&*self);
        }
        match self.indexes.items.get(&id) {
            None => {
                return Err(RegistryError::NotFound);
            },
            Some(item) => {
                if !(item.owner_id == caller) {
                    return Err(RegistryError::Unauthorized);
                }
            },
        }
        proof {
            lemma_empty_consistent(self.owner_id@);
            lemma_transfer_consistent(self@, id@, new_owner_id@, caller@);
            assert(self@.owned_by(caller@).contains(id@));
        }
        let mut indexes = Indexes::new();
        std::mem::swap(&mut indexes, &mut self.indexes);
        let mut item = indexes.items.remove(&id).unwrap();
        indexes.remove_from_owner(caller, &id);
        indexes.add_to_owner(new_owner_id.clone(), id);
        item.owner_id = new_owner_id;
        indexes.record(item);
        proof {
            assert(indexes.items() =~= old(self)@.transfer(id@, new_owner_id@, caller@).items);
        }
        self.indexes = indexes;
        Ok(())
    }

    /// The record of the item `id`, or `NotFound` if there is no such
    /// item.
    pub fn get_item(&self, id: String) -> (r: Result<GameItem, RegistryError>)
        ensures
            match r {
                Ok(item) => self@.items.contains_key(id@) && item@ == self@.items[id@],
                Err(e) => e == RegistryError::NotFound && !self@.items.contains_key(id@),
            },
            self@.consistent(),
    {
        proof {
            use_type_invariant(self);
        }
        match self.indexes.items.get(&id) {
            Some(item) => Ok(item.clone()),
            None => Err(RegistryError::NotFound),
        }
    }

    /// The ids of the items that `owner_id` owns now, each once, in no
    /// particular order. An account that owns nothing, or that the registry
    /// has never seen, gets the empty list.
    pub fn get_items_by_owner(&self, owner_id: String) -> (ids: Vec<String>)
        ensures
            ids.deep_view().no_duplicates(),
            ids.deep_view().to_set() == self@.owned_by(owner_id@),
            ids@.len() == self@.owned_by(owner_id@).len(),
            self@.owned_by(owner_id@) == Set::<Text>::empty() ==> ids@.len() == 0,
            self@.consistent(),
    {
        proof {
            use_type_invariant(self);
        }
        match self.indexes.owner_to_items.get(&owner_id) {
            Some(set) => set.to_vec(),
            None => {
                let ids: Vec<String> = Vec::new();
                assert(ids.deep_view().to_set() =~= Set::<Text>::empty());
                ids
            },
        }
    }
}

} // verus!
