use emoji_album::catalog::Catalog;
use emoji_album::error::Error;
use emoji_album::holdings::Holdings;
use emoji_album::storage::in_memory::InMemoryStorage;
use emoji_album::storage::Storage;

fn pets_and_reptiles() -> Catalog {
    Catalog::new(vec![
        ("🐶".to_string(), "Pets".to_string()),
        ("🐱".to_string(), "Pets".to_string()),
        ("🐍".to_string(), "Reptiles".to_string()),
    ])
}

fn store_with_alice() -> InMemoryStorage {
    let catalog = pets_and_reptiles();
    let dog = catalog.get(0).clone();
    let cat = catalog.get(1).clone();
    let mut storage = InMemoryStorage::new(catalog);
    storage.credit(&"alice".to_string(), &vec![dog, cat]);
    storage
}

fn total(storage: &InMemoryStorage, users: &[&str], position: usize) -> usize {
    let mut sum = 0;
    for user in users {
        sum += storage.quantity(&user.to_string(), position);
    }
    sum
}

#[test]
fn credit_then_transfer_to_a_known_user() {
    let mut storage = store_with_alice();
    let alice = "alice".to_string();
    let bob = "bob".to_string();

    let album = storage.album(&alice);
    assert_eq!(album.quantity(0), 1);
    assert_eq!(album.quantity(1), 1);
    assert_eq!(album.quantity(2), 0);
    assert_eq!(album.sorted_entries(), vec![(0, 1), (1, 1)]);

    assert_eq!(storage.transfer(&alice, &bob, 0, 1), Err(Error::UnknownRecipient));
    assert_eq!(storage.album(&alice).sorted_entries(), vec![(0, 1), (1, 1)]);
    assert!(!storage.is_known(&bob));

    storage.credit(&bob, &vec![]);
    assert!(storage.is_known(&bob));
    assert!(storage.album(&bob).is_empty());
    assert_eq!(storage.transfer(&alice, &bob, 0, 1), Ok(()));
    assert_eq!(storage.album(&alice).sorted_entries(), vec![(1, 1)]);
    assert_eq!(storage.album(&bob).sorted_entries(), vec![(0, 1)]);
}

#[test]
fn transfer_of_an_emoji_not_held_is_insufficient() {
    let mut storage = store_with_alice();
    let alice = "alice".to_string();
    let bob = "bob".to_string();
    storage.register(&bob);
    assert_eq!(storage.transfer(&alice, &bob, 2, 1), Err(Error::InsufficientHoldings));
    assert_eq!(storage.album(&alice).sorted_entries(), vec![(0, 1), (1, 1)]);
    assert!(storage.album(&bob).is_empty());
}

#[test]
fn transfer_of_more_than_held_is_insufficient() {
    let mut storage = store_with_alice();
    let alice = "alice".to_string();
    let bob = "bob".to_string();
    storage.register(&bob);
    assert_eq!(storage.transfer(&alice, &bob, 0, 2), Err(Error::InsufficientHoldings));
    assert_eq!(storage.quantity(&alice, 0), 1);
    assert_eq!(storage.quantity(&bob, 0), 0);
}

#[test]
fn transfer_from_an_unknown_sender_is_insufficient() {
    let mut storage = store_with_alice();
    let carol = "carol".to_string();
    let alice = "alice".to_string();
    assert_eq!(storage.transfer(&carol, &alice, 0, 1), Err(Error::InsufficientHoldings));
    assert!(!storage.is_known(&carol));
    assert_eq!(storage.quantity(&alice, 0), 1);
}

#[test]
fn transfer_of_nothing_is_an_invalid_quantity() {
    let mut storage = store_with_alice();
    let alice = "alice".to_string();
    let bob = "bob".to_string();
    storage.register(&bob);
    assert_eq!(storage.transfer(&alice, &bob, 0, 0), Err(Error::InvalidQuantity));
    assert_eq!(storage.album(&alice).sorted_entries(), vec![(0, 1), (1, 1)]);
    assert!(storage.album(&bob).is_empty());
}

#[test]
fn the_quantity_is_judged_before_the_sender_and_the_sender_before_the_recipient() {
    let mut storage = store_with_alice();
    let alice = "alice".to_string();
    let nobody = "nobody".to_string();
    assert_eq!(storage.transfer(&nobody, &nobody, 0, 0), Err(Error::InvalidQuantity));
    assert_eq!(storage.transfer(&alice, &nobody, 2, 1), Err(Error::InsufficientHoldings));
    assert_eq!(storage.transfer(&alice, &nobody, 0, 1), Err(Error::UnknownRecipient));
}

#[test]
fn a_transfer_keeps_the_total_of_the_emoji() {
    let catalog = pets_and_reptiles();
    let dog = catalog.get(0).clone();
    let mut storage = InMemoryStorage::new(catalog);
    let alice = "alice".to_string();
    let bob = "bob".to_string();
    storage.credit(&alice, &vec![dog.clone(), dog.clone(), dog.clone()]);
    storage.credit(&bob, &vec![dog]);
    let users = ["alice", "bob"];
    assert_eq!(total(&storage, &users, 0), 4);

    assert_eq!(storage.transfer(&alice, &bob, 0, 2), Ok(()));
    assert_eq!(storage.quantity(&alice, 0), 1);
    assert_eq!(storage.quantity(&bob, 0), 3);
    assert_eq!(total(&storage, &users, 0), 4);

    assert_eq!(storage.transfer(&alice, &bob, 0, 1), Ok(()));
    assert_eq!(storage.quantity(&alice, 0), 0);
    assert_eq!(storage.quantity(&bob, 0), 4);
    assert_eq!(total(&storage, &users, 0), 4);
    assert!(storage.album(&alice).is_empty());
    assert!(storage.is_known(&alice));
}

#[test]
fn a_transfer_keeps_the_total_of_every_emoji() {
    let catalog = pets_and_reptiles();
    let all = catalog.pick(&vec![0, 1, 1, 2, 2, 2]);
    let some = catalog.pick(&vec![1, 2]);
    let mut storage = InMemoryStorage::new(catalog);
    let alice = "alice".to_string();
    let bob = "bob".to_string();
    let carol = "carol".to_string();
    storage.credit(&alice, &all);
    storage.credit(&bob, &some);
    storage.register(&carol);
    let users = ["alice", "bob", "carol"];
    let before: Vec<usize> = (0..3).map(|position| total(&storage, &users, position)).collect();
    assert_eq!(before, vec![1, 3, 4]);

    assert_eq!(storage.transfer(&alice, &bob, 2, 3), Ok(()));
    assert_eq!(storage.transfer(&bob, &carol, 1, 1), Ok(()));
    assert_eq!(storage.transfer(&alice, &alice, 1, 2), Ok(()));
    assert_eq!(storage.transfer(&carol, &alice, 2, 1), Err(Error::InsufficientHoldings));
    assert_eq!(storage.transfer(&alice, &bob, 0, 0), Err(Error::InvalidQuantity));
    let after: Vec<usize> = (0..3).map(|position| total(&storage, &users, position)).collect();
    assert_eq!(after, before);
    assert_eq!(storage.album(&alice).sorted_entries(), vec![(0, 1), (1, 2)]);
    assert_eq!(storage.album(&bob).sorted_entries(), vec![(2, 4)]);
    assert_eq!(storage.album(&carol).sorted_entries(), vec![(1, 1)]);
}

#[test]
fn a_transfer_merges_into_what_the_recipient_holds() {
    let catalog = pets_and_reptiles();
    let dog = catalog.get(0).clone();
    let snake = catalog.get(2).clone();
    let mut storage = InMemoryStorage::new(catalog);
    let alice = "alice".to_string();
    let bob = "bob".to_string();
    storage.credit(&alice, &vec![dog.clone(), snake]);
    storage.credit(&bob, &vec![dog.clone(), dog]);
    assert_eq!(storage.transfer(&alice, &bob, 0, 1), Ok(()));
    assert_eq!(storage.album(&bob).sorted_entries(), vec![(0, 3)]);
    assert_eq!(storage.album(&alice).sorted_entries(), vec![(2, 1)]);
}

#[test]
fn a_transfer_to_oneself_changes_nothing() {
    let mut storage = store_with_alice();
    let alice = "alice".to_string();
    assert_eq!(storage.transfer(&alice, &alice, 0, 1), Ok(()));
    assert_eq!(storage.album(&alice).sorted_entries(), vec![(0, 1), (1, 1)]);
}

#[test]
fn no_entry_holds_a_quantity_of_zero() {
    let mut storage = store_with_alice();
    let alice = "alice".to_string();
    let bob = "bob".to_string();
    storage.register(&bob);
    assert_eq!(storage.transfer(&alice, &bob, 1, 1), Ok(()));
    for (_, quantity) in storage.album(&alice).sorted_entries() {
        assert!(quantity > 0);
    }
    for (_, quantity) in storage.album(&bob).sorted_entries() {
        assert!(quantity > 0);
    }
    assert_eq!(storage.album(&alice).sorted_entries(), vec![(0, 1)]);
}

#[test]
fn the_album_of_a_user_never_credited_is_empty() {
    let storage = store_with_alice();
    let album = storage.album(&"zed".to_string());
    assert!(album.is_empty());
    assert_eq!(album.sorted_entries(), vec![]);
    assert_eq!(album.quantity(0), 0);
    assert!(!storage.is_known(&"zed".to_string()));
}

#[test]
fn credit_adds_an_emoji_as_often_as_it_is_given() {
    let catalog = pets_and_reptiles();
    let dog = catalog.get(0).clone();
    let snake = catalog.get(2).clone();
    let mut storage = InMemoryStorage::new(catalog);
    let alice = "alice".to_string();
    storage.credit(&alice, &vec![snake.clone(), dog.clone(), snake.clone()]);
    assert_eq!(storage.album(&alice).sorted_entries(), vec![(0, 1), (2, 2)]);
    storage.credit(&alice, &vec![snake]);
    assert_eq!(storage.album(&alice).sorted_entries(), vec![(0, 1), (2, 3)]);
    assert_eq!(storage.album(&"bob".to_string()).sorted_entries(), vec![]);
}

#[test]
fn register_keeps_the_album_of_a_known_user() {
    let mut storage = store_with_alice();
    let alice = "alice".to_string();
    storage.register(&alice);
    assert_eq!(storage.album(&alice).sorted_entries(), vec![(0, 1), (1, 1)]);
}

#[test]
fn a_new_store_knows_nobody_and_keeps_its_catalog() {
    let storage = InMemoryStorage::new(pets_and_reptiles());
    assert!(!storage.is_known(&"alice".to_string()));
    assert_eq!(storage.catalog().len(), 3);
    assert_eq!(storage.catalog().get(2).icon, "🐍");
}

#[test]
fn storage_tells_whether_it_has_a_user() {
    let storage = store_with_alice();
    assert_eq!(storage.has_entity("alice"), Ok(()));
    assert_eq!(storage.has_entity("bob"), Err(Error::UnknownRecipient));
}

#[test]
fn storage_inserts_a_user_once() {
    let mut storage = store_with_alice();
    let bob = "bob".to_string();
    let user = storage.insert(&bob).ok().unwrap();
    assert_eq!(user.username, "bob");
    assert!(user.album.is_empty());
    assert_eq!(storage.has_entity("bob"), Ok(()));
    let again = storage.insert(&"alice".to_string()).ok().unwrap();
    assert_eq!(again.album.sorted_entries(), vec![(0, 1), (1, 1)]);
}

#[test]
fn storage_gets_a_user_with_their_album() {
    let storage = store_with_alice();
    let alice = storage.get_user(&"alice".to_string());
    assert_eq!(alice.username, "alice");
    assert_eq!(alice.album.sorted_entries(), vec![(0, 1), (1, 1)]);
    let zed = storage.get_user(&"zed".to_string());
    assert_eq!(zed.username, "zed");
    assert!(zed.album.is_empty());
}

#[test]
fn holdings_count_what_comes_in_and_goes_out() {
    let mut holdings = Holdings::new();
    assert!(holdings.is_empty());
    holdings.credit(4, 3);
    holdings.credit(1, 1);
    holdings.credit(4, 2);
    assert_eq!(holdings.quantity(4), 5);
    assert_eq!(holdings.sorted_entries(), vec![(1, 1), (4, 5)]);
    holdings.debit(4, 2);
    assert_eq!(holdings.quantity(4), 3);
    holdings.debit(1, 1);
    assert_eq!(holdings.quantity(1), 0);
    assert_eq!(holdings.sorted_entries(), vec![(4, 3)]);
    assert!(!holdings.is_empty());
}

#[test]
fn a_snapshot_does_not_follow_the_holdings() {
    let mut holdings = Holdings::new();
    holdings.credit(2, 1);
    let copy = holdings.snapshot();
    holdings.credit(2, 1);
    holdings.credit(0, 7);
    assert_eq!(copy.sorted_entries(), vec![(2, 1)]);
    assert_eq!(holdings.sorted_entries(), vec![(0, 7), (2, 2)]);
}

#[test]
fn sorted_entries_come_by_ascending_position() {
    let mut holdings = Holdings::new();
    holdings.credit(9, 1);
    holdings.credit(3, 2);
    holdings.credit(7, 3);
    holdings.credit(0, 4);
    holdings.debit(9, 1);
    holdings.credit(5, 5);
    assert_eq!(holdings.sorted_entries(), vec![(0, 4), (3, 2), (5, 5), (7, 3)]);
}
