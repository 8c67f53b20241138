//! Theorems about the registry model.

use vstd::prelude::*;
use crate::error::RegistryError;
use crate::ledger::{
    distinct_ids, index_without, lists_items, owned, ItemRecord, Ledger, Op, Text,
};

verus! {

/// A registry that was just set up is consistent.
pub proof fn lemma_empty_consistent(admin: Text)
    ensures
        Ledger::empty(admin).consistent(),
{
}

/// Filing a record under an id that the item table does not hold yet
/// keeps the two indexes in agreement.
pub proof fn lemma_with_item_consistent(s: Ledger, record: ItemRecord)
    requires
        s.consistent(),
        !s.items.contains_key(record.id),
    ensures
        s.with_item(record).consistent(),
{
    let t = s.with_item(record);
    assert forall|i: Text, o: Text|
        (t.items.contains_key(i) && t.items[i].owner == o)
            <==> #[trigger] t.owned_by(o).contains(i) by {
        assert(s.owned_by(o).contains(i) <==> s.items.contains_key(i) && s.items[i].owner == o);
    }
}

/// Minting keeps the two indexes in agreement, whether the request is
/// granted or turned down.
pub proof fn lemma_mint_consistent(s: Ledger, id: Text, metadata: Text, caller: Text)
    requires
        s.consistent(),
    ensures
        s.mint(id, metadata, caller).consistent(),
{
    if s.mint_outcome(id, caller) is Ok {
        lemma_with_item_consistent(s, ItemRecord { id, owner: caller, metadata });
    }
}

/// Transferring keeps the two indexes in agreement, whether the request is
/// granted or turned down.
pub proof fn lemma_transfer_consistent(s: Ledger, id: Text, new_owner: Text, caller: Text)
    requires
        s.consistent(),
    ensures
        s.transfer(id, new_owner, caller).consistent(),
{
    let t = s.transfer(id, new_owner, caller);
    if s.transfer_outcome(id, caller) is Ok {
        let released = index_without(s.by_owner, caller, id);
        assert forall|i: Text, o: Text|
            (t.items.contains_key(i) && t.items[i].owner == o)
                <==> #[trigger] t.owned_by(o).contains(i) by {
            assert(s.owned_by(o).contains(i) <==> s.items.contains_key(i) && s.items[i].owner == o);
            assert(owned(released, o).contains(i) <==> s.owned_by(o).contains(i) && !(o == caller
                && i == id));
        }
    }
}

/// In every state that requests can lead to from a fresh registry, the two
/// indexes agree: an item's record names an account as its owner exactly
/// when that account's set holds the item's id.
pub proof fn lemma_reachable_consistent(admin: Text, ops: Seq<Op>)
    ensures
        Ledger::empty(admin).run(ops).consistent(),
    decreases ops.len(),
{
    if ops.len() == 0 {
        lemma_empty_consistent(admin);
    } else {
        lemma_reachable_consistent(admin, ops.drop_last());
        let s = Ledger::empty(admin).run(ops.drop_last());
        match ops.last() {
            Op::Mint { id, metadata, caller } => lemma_mint_consistent(s, id, metadata, caller),
            Op::Transfer { id, new_owner, caller } => lemma_transfer_consistent(
                s,
                id,
                new_owner,
                caller,
            ),
        }
    }
}

/// Stated for one item and one account: in a consistent registry the record
/// of `id` names `owner` exactly when the set of `owner` holds `id`, and
/// then no other account's set holds it.
pub proof fn lemma_owner_iff_indexed(s: Ledger, id: Text, owner: Text)
    requires
        s.consistent(),
    ensures
        (s.items.contains_key(id) && s.items[id].owner == owner) <==> s.owned_by(owner).contains(
            id,
        ),
        forall|other: Text|
            s.owned_by(owner).contains(id) && #[trigger] s.owned_by(other).contains(id) ==> other
                == owner,
{
}

/// An account that no record names as owner has nothing listed in the
/// owner index, whether or not it has an entry there.
pub proof fn lemma_no_items_nothing_listed(s: Ledger, owner: Text)
    requires
        s.consistent(),
        forall|id: Text| #[trigger] s.items.contains_key(id) ==> s.items[id].owner != owner,
    ensures
        s.owned_by(owner) == Set::<Text>::empty(),
{
    assert forall|id: Text| !s.owned_by(owner).contains(id) by {
        assert(s.owned_by(owner).contains(id) <==> s.items.contains_key(id) && s.items[id].owner
            == owner);
    }
    assert(s.owned_by(owner) =~= Set::<Text>::empty());
}

/// No request changes the administrator or takes an id out of the item
/// table.
pub proof fn lemma_step_keeps_ids(s: Ledger, op: Op, id: Text)
    ensures
        s.step(op).admin == s.admin,
        s.items.contains_key(id) ==> s.step(op).items.contains_key(id),
{
}

/// Once minted, an item keeps its id and its metadata, and its owner
/// changes only by a transfer of that very item which its owner asked for.
pub proof fn lemma_step_keeps_record(s: Ledger, op: Op, id: Text)
    requires
        s.items.contains_key(id),
    ensures
        s.step(op).items[id].id == s.items[id].id,
        s.step(op).items[id].metadata == s.items[id].metadata,
        s.step(op).items[id].owner != s.items[id].owner ==> op == (Op::Transfer {
            id,
            new_owner: s.step(op).items[id].owner,
            caller: s.items[id].owner,
        }),
{
}

/// A granted mint files the item under its id, with the caller as owner and
/// the metadata as given.
pub proof fn lemma_mint_records(s: Ledger, id: Text, metadata: Text, caller: Text)
    requires
        s.mint_outcome(id, caller) is Ok,
    ensures
        caller == s.admin,
        !s.items.contains_key(id),
        s.mint(id, metadata, caller).items.contains_key(id),
        s.mint(id, metadata, caller).items[id] == (ItemRecord { id, owner: caller, metadata }),
        s.mint(id, metadata, caller).owned_by(caller).contains(id),
{
}

/// An id is used once: after any further requests, a request to mint an
/// id that the item table already holds is turned down, and the registry
/// stays as it was. The administrator is told `AlreadyExists`; any other
/// caller is told `Unauthorized`, as for every mint of theirs.
pub proof fn lemma_used_id_rejected(
    s: Ledger,
    id: Text,
    ops: Seq<Op>,
    metadata: Text,
    caller: Text,
)
    requires
        s.items.contains_key(id),
    ensures
        s.run(ops).admin == s.admin,
        s.run(ops).items.contains_key(id),
        s.run(ops).mint_outcome(id, caller) is Err,
        caller == s.admin ==> s.run(ops).mint_outcome(id, caller) == Err::<(), RegistryError>(
            RegistryError::AlreadyExists,
        ),
        s.run(ops).mint(id, metadata, caller) == s.run(ops),
    decreases ops.len(),
{
    if ops.len() > 0 {
        lemma_used_id_rejected(s, id, ops.drop_last(), metadata, caller);
        lemma_step_keeps_ids(s.run(ops.drop_last()), ops.last(), id);
    }
}

/// Only the administrator mints: a request from any other account is turned
/// down with `Unauthorized`, and the registry stays as it was.
pub proof fn lemma_mint_unauthorized(s: Ledger, id: Text, metadata: Text, caller: Text)
    requires
        caller != s.admin,
    ensures
        s.mint_outcome(id, caller) == Err::<(), RegistryError>(RegistryError::Unauthorized),
        s.mint(id, metadata, caller) == s,
{
}

/// Only the owner transfers: a request for an existing item from any
/// account other than its current owner is turned down with `Unauthorized`,
/// and the registry stays as it was.
pub proof fn lemma_transfer_unauthorized(s: Ledger, id: Text, new_owner: Text, caller: Text)
    requires
        s.items.contains_key(id),
        caller != s.items[id].owner,
    ensures
        s.transfer_outcome(id, caller) == Err::<(), RegistryError>(RegistryError::Unauthorized),
        s.transfer(id, new_owner, caller) == s,
{
}

/// A transfer of an item to the account that already owns it is granted and
/// changes nothing: the record, the owner's set and the rest of the registry
/// are as before.
pub proof fn lemma_self_transfer(s: Ledger, id: Text)
    requires
        s.consistent(),
        s.items.contains_key(id),
    ensures
        s.transfer_outcome(id, s.items[id].owner) is Ok,
        s.transfer(id, s.items[id].owner, s.items[id].owner) == s,
{
    let owner = s.items[id].owner;
    let t = s.transfer(id, owner, owner);
    assert(s.owned_by(owner).contains(id));
    assert(s.owned_by(owner).remove(id).insert(id) =~= s.owned_by(owner));
    assert(t.by_owner =~= s.by_owner);
    assert(t.items =~= s.items);
}

/// A registry restored from records with distinct ids is consistent, has
/// the given administrator, and its item table holds exactly the listed
/// records.
pub proof fn lemma_restored(admin: Text, records: Seq<ItemRecord>)
    requires
        distinct_ids(records),
    ensures
        Ledger::restored(admin, records).admin == admin,
        Ledger::restored(admin, records).consistent(),
        lists_items(records, Ledger::restored(admin, records).items),
    decreases records.len(),
{
    if records.len() > 0 {
        let front = records.drop_last();
        let last = records.last();
        let s = Ledger::restored(admin, front);
        lemma_restored(admin, front);
        if s.items.contains_key(last.id) {
            let i = choose|i: int| 0 <= i < front.len() && (#[trigger] front[i]).id == last.id;
            assert(records[i].id == records[records.len() - 1].id);
        }
        lemma_with_item_consistent(s, last);
        let t = s.with_item(last);
        assert forall|i: int| 0 <= i < records.len() implies t.items.contains_key(
            (#[trigger] records[i]).id,
        ) && t.items[records[i].id] == records[i] by {
            if i < front.len() {
                assert(front[i] == records[i]);
            }
        }
        assert forall|id: Text| #[trigger] t.items.contains_key(id) implies exists|i: int|
            0 <= i < records.len() && (#[trigger] records[i]).id == id by {
            if id == last.id {
                assert(records[records.len() - 1].id == id);
            } else {
                let i = choose|i: int| 0 <= i < front.len() && (#[trigger] front[i]).id == id;
                assert(records[i].id == id);
            }
        }
    }
}

/// Two consistent registries with the same item table list the same ids
/// for every account.
pub proof fn lemma_items_fix_owned(s: Ledger, t: Ledger, owner: Text)
    requires
        s.consistent(),
        t.consistent(),
        s.items == t.items,
    ensures
        s.owned_by(owner) == t.owned_by(owner),
{
    assert forall|id: Text| s.owned_by(owner).contains(id) <==> t.owned_by(owner).contains(id) by {
        assert(s.owned_by(owner).contains(id) <==> s.items.contains_key(id) && s.items[id].owner
            == owner);
        assert(t.owned_by(owner).contains(id) <==> t.items.contains_key(id) && t.items[id].owner
            == owner);
    }
    assert(s.owned_by(owner) =~= t.owned_by(owner));
}

/// Listing a consistent registry's records and restoring from the list
/// gives the registry back: the same administrator, the same item table,
/// and for every account the same set of ids.
pub proof fn lemma_restore_round_trip(s: Ledger, records: Seq<ItemRecord>, owner: Text)
    requires
        s.consistent(),
        lists_items(records, s.items),
    ensures
        Ledger::restored(s.admin, records).admin == s.admin,
        Ledger::restored(s.admin, records).items == s.items,
        Ledger::restored(s.admin, records).owned_by(owner) == s.owned_by(owner),
        Ledger::restored(s.admin, records).consistent(),
{
    let t = Ledger::restored(s.admin, records);
    lemma_restored(s.admin, records);
    assert forall|id: Text| t.items.contains_key(id) <==> s.items.contains_key(id) by {
        if t.items.contains_key(id) {
            let i = choose|i: int| 0 <= i < records.len() && (#[trigger] records[i]).id == id;
            assert(s.items.contains_key(records[i].id));
        }
        if s.items.contains_key(id) {
            let i = choose|i: int| 0 <= i < records.len() && (#[trigger] records[i]).id == id;
            assert(t.items.contains_key(records[i].id));
        }
    }
    assert forall|id: Text| t.items.contains_key(id) implies t.items[id] == s.items[id] by {
        let i = choose|i: int| 0 <= i < records.len() && (#[trigger] records[i]).id == id;
        assert(t.items[records[i].id] == records[i]);
        assert(s.items[records[i].id] == records[i]);
    }
    assert(t.items =~= s.items);
    lemma_items_fix_owned(t, s, owner);
}

} // verus!
