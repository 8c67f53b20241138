use game_items::{GameItem, GameItems, RegistryError};

fn s(text: &str) -> String {
    text.to_string()
}

fn sorted(mut ids: Vec<String>) -> Vec<String> {
    ids.sort();
    ids
}

#[test]
fn test_mint_and_transfer() {
    let owner = s("owner");
    let alice = s("alice");
    let bob = s("bob");

    let mut contract = GameItems::new(owner.clone());

    // Mint a new item.
    let minted = contract.mint(
        "item1".to_string(),
        "{\"name\":\"Sword\",\"power\":10}".to_string(),
        owner.clone(),
    );
    assert!(minted.is_ok());
    let item = contract.get_item("item1".to_string()).unwrap();
    assert_eq!(item.owner_id, owner.clone());
    assert_eq!(item.id, "item1");
    assert_eq!(item.metadata, "{\"name\":\"Sword\",\"power\":10}");

    // Transfer the item to Alice.
    let moved = contract.transfer("item1".to_string(), alice.clone(), owner.clone());
    assert!(moved.is_ok());
    let item = contract.get_item("item1".to_string()).unwrap();
    assert_eq!(item.owner_id, alice.clone());

    // Bob does not own the item and may not transfer it.
    let result = contract.transfer("item1".to_string(), bob.clone(), bob.clone());
    assert!(result.is_err());
}

#[test]
fn mint_records_owner_and_metadata() {
    let mut registry = GameItems::new(s("a"));
    assert_eq!(registry.mint(s("sword-1"), s("{power:10}"), s("a")), Ok(()));
    assert_eq!(
        registry.get_item(s("sword-1")),
        Ok(GameItem { id: s("sword-1"), owner_id: s("a"), metadata: s("{power:10}") })
    );
    assert_eq!(registry.get_items_by_owner(s("a")), vec![s("sword-1")]);
}

#[test]
fn transfer_moves_item_between_owner_sets() {
    let mut registry = GameItems::new(s("a"));
    registry.mint(s("sword-1"), s("{power:10}"), s("a")).unwrap();
    assert_eq!(registry.transfer(s("sword-1"), s("b"), s("a")), Ok(()));
    assert_eq!(registry.get_item(s("sword-1")).unwrap().owner_id, "b");
    assert!(!registry.get_items_by_owner(s("a")).contains(&s("sword-1")));
    assert_eq!(registry.get_items_by_owner(s("a")), Vec::<String>::new());
    assert_eq!(registry.get_items_by_owner(s("b")), vec![s("sword-1")]);
    // The rest of the record is untouched.
    let item = registry.get_item(s("sword-1")).unwrap();
    assert_eq!(item.id, "sword-1");
    assert_eq!(item.metadata, "{power:10}");
}

#[test]
fn transfer_by_non_owner_is_unauthorized_and_changes_nothing() {
    let mut registry = GameItems::new(s("a"));
    registry.mint(s("sword-1"), s("{power:10}"), s("a")).unwrap();
    registry.transfer(s("sword-1"), s("b"), s("a")).unwrap();

    assert_eq!(registry.transfer(s("sword-1"), s("c"), s("c")), Err(RegistryError::Unauthorized));

    assert_eq!(
        registry.get_item(s("sword-1")),
        Ok(GameItem { id: s("sword-1"), owner_id: s("b"), metadata: s("{power:10}") })
    );
    assert_eq!(registry.get_items_by_owner(s("a")), Vec::<String>::new());
    assert_eq!(registry.get_items_by_owner(s("b")), vec![s("sword-1")]);
    assert_eq!(registry.get_items_by_owner(s("c")), Vec::<String>::new());
}

#[test]
fn previous_owner_may_not_transfer() {
    let mut registry = GameItems::new(s("a"));
    registry.mint(s("sword-1"), s("{power:10}"), s("a")).unwrap();
    registry.transfer(s("sword-1"), s("b"), s("a")).unwrap();
    // Not even the administrator, once the item is no longer theirs.
    assert_eq!(registry.transfer(s("sword-1"), s("a"), s("a")), Err(RegistryError::Unauthorized));
    assert_eq!(registry.get_item(s("sword-1")).unwrap().owner_id, "b");
}

#[test]
fn mint_by_non_administrator_is_unauthorized() {
    let mut registry = GameItems::new(s("a"));
    registry.mint(s("sword-1"), s("{power:10}"), s("a")).unwrap();
    assert_eq!(
        registry.mint(s("sword-2"), s("{power:20}"), s("b")),
        Err(RegistryError::Unauthorized)
    );
    assert_eq!(registry.get_item(s("sword-2")), Err(RegistryError::NotFound));
    assert_eq!(registry.get_items_by_owner(s("b")), Vec::<String>::new());
    assert_eq!(registry.get_items_by_owner(s("a")), vec![s("sword-1")]);
}

#[test]
fn mint_of_used_id_fails_and_changes_nothing() {
    let mut registry = GameItems::new(s("a"));
    registry.mint(s("sword-1"), s("{power:10}"), s("a")).unwrap();
    assert_eq!(
        registry.mint(s("sword-1"), s("{power:99}"), s("a")),
        Err(RegistryError::AlreadyExists)
    );
    assert_eq!(
        registry.get_item(s("sword-1")),
        Ok(GameItem { id: s("sword-1"), owner_id: s("a"), metadata: s("{power:10}") })
    );
    assert_eq!(registry.get_items_by_owner(s("a")), vec![s("sword-1")]);
}

#[test]
fn used_id_stays_used_after_transfer() {
    let mut registry = GameItems::new(s("a"));
    registry.mint(s("sword-1"), s("{power:10}"), s("a")).unwrap();
    registry.transfer(s("sword-1"), s("b"), s("a")).unwrap();
    assert_eq!(registry.mint(s("sword-1"), s("again"), s("a")), Err(RegistryError::AlreadyExists));
    assert_eq!(registry.get_item(s("sword-1")).unwrap().owner_id, "b");
    assert_eq!(registry.get_item(s("sword-1")).unwrap().metadata, "{power:10}");
    assert_eq!(registry.get_items_by_owner(s("a")), Vec::<String>::new());
    assert_eq!(registry.get_items_by_owner(s("b")), vec![s("sword-1")]);
}

#[test]
fn stranger_minting_used_id_is_told_unauthorized() {
    let mut registry = GameItems::new(s("a"));
    registry.mint(s("sword-1"), s("{power:10}"), s("a")).unwrap();
    assert_eq!(registry.mint(s("sword-1"), s("x"), s("b")), Err(RegistryError::Unauthorized));
}

#[test]
fn unknown_id_is_not_found() {
    let mut registry = GameItems::new(s("a"));
    assert_eq!(registry.get_item(s("ghost")), Err(RegistryError::NotFound));
    assert_eq!(registry.transfer(s("ghost"), s("b"), s("a")), Err(RegistryError::NotFound));
    registry.mint(s("sword-1"), s("{power:10}"), s("a")).unwrap();
    assert_eq!(registry.get_item(s("sword")), Err(RegistryError::NotFound));
    assert_eq!(registry.transfer(s("sword-2"), s("b"), s("a")), Err(RegistryError::NotFound));
    assert_eq!(registry.get_items_by_owner(s("b")), Vec::<String>::new());
}

#[test]
fn owner_without_items_gets_empty_list() {
    let mut registry = GameItems::new(s("a"));
    // Never seen, neither as administrator nor as owner.
    assert_eq!(registry.get_items_by_owner(s("nobody")), Vec::<String>::new());
    // The administrator before the first mint.
    assert_eq!(registry.get_items_by_owner(s("a")), Vec::<String>::new());
    // An account that has given its last item away.
    registry.mint(s("sword-1"), s("{power:10}"), s("a")).unwrap();
    registry.transfer(s("sword-1"), s("b"), s("a")).unwrap();
    registry.transfer(s("sword-1"), s("c"), s("b")).unwrap();
    assert_eq!(registry.get_items_by_owner(s("b")), Vec::<String>::new());
}

#[test]
fn self_transfer_changes_nothing() {
    let mut registry = GameItems::new(s("a"));
    registry.mint(s("sword-1"), s("{power:10}"), s("a")).unwrap();
    registry.mint(s("shield-1"), s("{armor:5}"), s("a")).unwrap();
    registry.transfer(s("sword-1"), s("b"), s("a")).unwrap();

    assert_eq!(registry.transfer(s("sword-1"), s("b"), s("b")), Ok(()));
    assert_eq!(
        registry.get_item(s("sword-1")),
        Ok(GameItem { id: s("sword-1"), owner_id: s("b"), metadata: s("{power:10}") })
    );
    assert_eq!(registry.get_items_by_owner(s("b")), vec![s("sword-1")]);

    assert_eq!(registry.transfer(s("shield-1"), s("a"), s("a")), Ok(()));
    assert_eq!(registry.get_item(s("shield-1")).unwrap().owner_id, "a");
    assert_eq!(registry.get_items_by_owner(s("a")), vec![s("shield-1")]);
}

#[test]
fn indexes_agree_after_many_operations() {
    let mut registry = GameItems::new(s("admin"));
    let ids = ["i1", "i2", "i3", "i4", "i5"];
    for id in ids {
        registry.mint(s(id), format!("meta-{}", id), s("admin")).unwrap();
    }
    registry.transfer(s("i1"), s("x"), s("admin")).unwrap();
    registry.transfer(s("i2"), s("y"), s("admin")).unwrap();
    registry.transfer(s("i3"), s("x"), s("admin")).unwrap();
    registry.transfer(s("i1"), s("y"), s("x")).unwrap();
    registry.transfer(s("i2"), s("admin"), s("y")).unwrap();
    assert_eq!(registry.transfer(s("i3"), s("y"), s("admin")), Err(RegistryError::Unauthorized));

    assert_eq!(sorted(registry.get_items_by_owner(s("admin"))), vec![s("i2"), s("i4"), s("i5")]);
    assert_eq!(sorted(registry.get_items_by_owner(s("x"))), vec![s("i3")]);
    assert_eq!(sorted(registry.get_items_by_owner(s("y"))), vec![s("i1")]);

    // Each record names an account exactly when that account's list holds
    // the id.
    for id in ids {
        let item = registry.get_item(s(id)).unwrap();
        assert_eq!(item.id, id);
        assert_eq!(item.metadata, format!("meta-{}", id));
        for account in ["admin", "x", "y", "z"] {
            let listed = registry.get_items_by_owner(s(account)).contains(&s(id));
            assert_eq!(listed, item.owner_id == account);
        }
    }
}

#[test]
fn owner_list_has_each_id_once() {
    let mut registry = GameItems::new(s("a"));
    registry.mint(s("k1"), s(""), s("a")).unwrap();
    registry.mint(s("k2"), s(""), s("a")).unwrap();
    registry.mint(s("k3"), s(""), s("a")).unwrap();
    // Give away the first of three, then take it back.
    registry.transfer(s("k1"), s("b"), s("a")).unwrap();
    assert_eq!(sorted(registry.get_items_by_owner(s("a"))), vec![s("k2"), s("k3")]);
    registry.transfer(s("k1"), s("a"), s("b")).unwrap();
    assert_eq!(sorted(registry.get_items_by_owner(s("a"))), vec![s("k1"), s("k2"), s("k3")]);
    assert_eq!(registry.get_items_by_owner(s("b")), Vec::<String>::new());
}

#[test]
fn ids_and_accounts_are_compared_exactly() {
    let mut registry = GameItems::new(s("alice"));
    assert_eq!(registry.mint(s("a"), s("m"), s("Alice")), Err(RegistryError::Unauthorized));
    assert_eq!(registry.mint(s("a"), s("m"), s("alice ")), Err(RegistryError::Unauthorized));
    assert_eq!(registry.mint(s(""), s("empty id"), s("alice")), Ok(()));
    assert_eq!(registry.mint(s(""), s("again"), s("alice")), Err(RegistryError::AlreadyExists));
    assert_eq!(registry.mint(s(" "), s("blank id"), s("alice")), Ok(()));
    assert_eq!(registry.get_item(s("")).unwrap().metadata, "empty id");
    assert_eq!(sorted(registry.get_items_by_owner(s("alice"))), vec![s(""), s(" ")]);
}

#[test]
fn item_clone_is_equal() {
    let item = GameItem { id: s("sword-1"), owner_id: s("a"), metadata: s("{power:10}") };
    assert_eq!(item.clone(), item);
}

fn item(id: &str, owner: &str, metadata: &str) -> GameItem {
    GameItem { id: s(id), owner_id: s(owner), metadata: s(metadata) }
}

fn sorted_items(mut items: Vec<GameItem>) -> Vec<GameItem> {
    items.sort_by(|a, b| a.id.cmp(&b.id));
    items
}

#[test]
fn items_lists_every_record_once() {
    let mut registry = GameItems::new(s("a"));
    assert_eq!(registry.items(), Vec::<GameItem>::new());
    registry.mint(s("sword-1"), s("{power:10}"), s("a")).unwrap();
    registry.mint(s("shield-1"), s("{armor:5}"), s("a")).unwrap();
    registry.transfer(s("sword-1"), s("b"), s("a")).unwrap();
    registry.transfer(s("sword-1"), s("b"), s("b")).unwrap();
    assert_eq!(
        sorted_items(registry.items()),
        vec![item("shield-1", "a", "{armor:5}"), item("sword-1", "b", "{power:10}")]
    );
}

#[test]
fn restore_files_items_in_both_indexes() {
    let stored = vec![
        item("sword-1", "b", "{power:10}"),
        item("shield-1", "a", "{armor:5}"),
        item("bow-1", "b", "{range:7}"),
    ];
    let mut registry = GameItems::restore(s("a"), &stored).unwrap();
    assert_eq!(registry.get_item(s("sword-1")), Ok(item("sword-1", "b", "{power:10}")));
    assert_eq!(registry.get_item(s("shield-1")), Ok(item("shield-1", "a", "{armor:5}")));
    assert_eq!(registry.get_item(s("bow-1")), Ok(item("bow-1", "b", "{range:7}")));
    assert_eq!(sorted(registry.get_items_by_owner(s("a"))), vec![s("shield-1")]);
    assert_eq!(sorted(registry.get_items_by_owner(s("b"))), vec![s("bow-1"), s("sword-1")]);
    assert_eq!(registry.get_items_by_owner(s("c")), Vec::<String>::new());
    // The administrator is the one given, and the ids are used.
    assert_eq!(registry.mint(s("axe-1"), s(""), s("b")), Err(RegistryError::Unauthorized));
    assert_eq!(registry.mint(s("bow-1"), s(""), s("a")), Err(RegistryError::AlreadyExists));
    assert_eq!(registry.mint(s("axe-1"), s(""), s("a")), Ok(()));
    assert_eq!(registry.transfer(s("bow-1"), s("c"), s("b")), Ok(()));
    assert_eq!(sorted(registry.get_items_by_owner(s("b"))), vec![s("sword-1")]);
}

#[test]
fn restore_rejects_shared_id() {
    let stored =
        vec![item("sword-1", "a", "x"), item("bow-1", "a", "y"), item("sword-1", "b", "z")];
    assert_eq!(GameItems::restore(s("a"), &stored).err(), Some(RegistryError::AlreadyExists));
    let twice = vec![item("k", "a", "m"), item("k", "a", "m")];
    assert_eq!(GameItems::restore(s("a"), &twice).err(), Some(RegistryError::AlreadyExists));
}

#[test]
fn restore_of_nothing_is_a_fresh_registry() {
    let mut registry = GameItems::restore(s("a"), &[]).unwrap();
    assert_eq!(registry.items(), Vec::<GameItem>::new());
    assert_eq!(registry.get_items_by_owner(s("a")), Vec::<String>::new());
    assert_eq!(registry.mint(s("sword-1"), s("{power:10}"), s("a")), Ok(()));
}

#[test]
fn restore_from_items_gives_the_registry_back() {
    let mut registry = GameItems::new(s("a"));
    for id in ["i1", "i2", "i3", "i4"] {
        registry.mint(s(id), format!("meta-{}", id), s("a")).unwrap();
    }
    registry.transfer(s("i1"), s("b"), s("a")).unwrap();
    registry.transfer(s("i3"), s("c"), s("a")).unwrap();
    registry.transfer(s("i3"), s("b"), s("c")).unwrap();

    let restored = GameItems::restore(s("a"), &registry.items()).unwrap();
    assert_eq!(sorted_items(restored.items()), sorted_items(registry.items()));
    for account in ["a", "b", "c", "d"] {
        assert_eq!(
            sorted(restored.get_items_by_owner(s(account))),
            sorted(registry.get_items_by_owner(s(account)))
        );
    }
    assert_eq!(sorted(restored.get_items_by_owner(s("b"))), vec![s("i1"), s("i3")]);
    assert_eq!(restored.get_items_by_owner(s("c")), Vec::<String>::new());
}
