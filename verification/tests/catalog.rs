use emoji_album::catalog::Catalog;
use emoji_album::database::{fetch, DatabaseState};
use emoji_album::error::Error;
use emoji_album::storage::in_memory::InMemoryStorage;
use emoji_album::types::{Command, EmojiRow};

fn icons(catalog: &Catalog) -> Vec<(String, String, usize)> {
    let mut rows = Vec::new();
    for position in 0..catalog.len() {
        let row = catalog.get(position);
        rows.push((row.icon.clone(), row.collection.clone(), row.index));
    }
    rows
}

fn row(icon: &str, collection: &str, index: usize) -> (String, String, usize) {
    (icon.to_string(), collection.to_string(), index)
}

#[test]
fn a_table_gives_one_entry_for_each_line() {
    let catalog = Catalog::from_table("🐶,Pets\n🐱,Pets\n🐍,Reptiles\n").ok().unwrap();
    assert_eq!(
        icons(&catalog),
        vec![row("🐶", "Pets", 0), row("🐱", "Pets", 1), row("🐍", "Reptiles", 2)]
    );
}

#[test]
fn a_table_is_read_without_the_white_space_around_it() {
    let catalog = Catalog::from_table("\n\n  🐶,Pets \n🐍,Big Reptiles \n \n").ok().unwrap();
    assert_eq!(icons(&catalog), vec![row("🐶", "Pets ", 0), row("🐍", "Big Reptiles", 1)]);
}

#[test]
fn a_row_keeps_its_first_two_fields() {
    let catalog = Catalog::from_table("🐶,Pets,extra,more\n,\n🐍,").ok().unwrap();
    assert_eq!(icons(&catalog), vec![row("🐶", "Pets", 0), row("", "", 1), row("🐍", "", 2)]);
}

#[test]
fn a_row_without_a_comma_fails_the_load() {
    assert_eq!(Catalog::from_table("🐶,Pets\n🐱\n🐍,Reptiles").err(), Some(Error::CatalogLoadFailure));
    assert_eq!(Catalog::from_table("🐶,Pets\n\n🐍,Reptiles").err(), Some(Error::CatalogLoadFailure));
    assert_eq!(Catalog::from_table("").err(), Some(Error::CatalogLoadFailure));
    assert_eq!(Catalog::from_table("  \n ").err(), Some(Error::CatalogLoadFailure));
}

#[test]
fn a_catalog_of_pairs_numbers_its_entries() {
    let catalog = Catalog::new(vec![
        ("🐶".to_string(), "Pets".to_string()),
        ("🐍".to_string(), "Reptiles".to_string()),
    ]);
    assert_eq!(catalog.len(), 2);
    assert_eq!(
        *catalog.get(1),
        EmojiRow { icon: "🐍".to_string(), collection: "Reptiles".to_string(), index: 1 }
    );
    assert_eq!(Catalog::new(vec![]).len(), 0);
}

#[test]
fn find_gives_the_first_position_of_an_icon() {
    let catalog = Catalog::from_table("🐶,Pets\n🐍,Reptiles\n🐶,Dogs").ok().unwrap();
    assert_eq!(catalog.find("🐶"), Some(0));
    assert_eq!(catalog.find("🐍"), Some(1));
    assert_eq!(catalog.find("🐱"), None);
    assert_eq!(catalog.find(""), None);
    assert_eq!(catalog.find("🐶 "), None);
}

#[test]
fn entries_are_ordered_by_position() {
    let catalog = Catalog::from_table("🐶,Pets\n🐍,Reptiles\n🐱,Pets").ok().unwrap();
    assert!(catalog.get(0) < catalog.get(1));
    assert!(catalog.get(2) > catalog.get(1));
    assert!(catalog.get(1) <= catalog.get(1));
    assert!(!(catalog.get(2) < catalog.get(0)));
}

#[test]
fn a_clone_of_an_entry_equals_it() {
    let entry = EmojiRow { icon: "🐶".to_string(), collection: "Pets".to_string(), index: 3 };
    assert_eq!(entry.clone(), entry);
}

#[test]
fn fetch_reads_the_user_for_a_start_only() {
    let catalog = Catalog::from_table("🐶,Pets\n🐍,Reptiles").ok().unwrap();
    let snake = catalog.pick(&vec![1, 1]);
    let mut storage = InMemoryStorage::new(catalog);
    let alice = "alice".to_string();
    storage.credit(&alice, &snake);

    match fetch(&storage, &Command::Start, &alice) {
        Ok(DatabaseState::Start { user }) => {
            assert_eq!(user.username, "alice");
            assert_eq!(user.album.sorted_entries(), vec![(1, 2)]);
        }
        _ => panic!("a start fetches the user"),
    }
    match fetch(&storage, &Command::Start, &"zed".to_string()) {
        Ok(DatabaseState::Start { user }) => {
            assert_eq!(user.username, "zed");
            assert!(user.album.is_empty());
        }
        _ => panic!("a start fetches the user"),
    }
    assert!(matches!(fetch(&storage, &Command::Roll, &alice), Ok(DatabaseState::Roll)));
    assert!(matches!(fetch(&storage, &Command::Album, &alice), Ok(DatabaseState::Album)));
    let send = Command::Send("🐍".to_string(), 1, "bob".to_string());
    assert!(matches!(fetch(&storage, &send, &alice), Ok(DatabaseState::Send)));
}
