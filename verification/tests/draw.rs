use emoji_album::catalog::Catalog;
use emoji_album::logic::generate_random_emojis;

fn zoo() -> Catalog {
    Catalog::new(vec![
        ("🐶".to_string(), "Pets".to_string()),
        ("🐱".to_string(), "Pets".to_string()),
        ("🐹".to_string(), "Pets".to_string()),
        ("🐍".to_string(), "Reptiles".to_string()),
        ("🦎".to_string(), "Reptiles".to_string()),
        ("🐢".to_string(), "Reptiles".to_string()),
        ("🦅".to_string(), "Birds".to_string()),
        ("🦉".to_string(), "Birds".to_string()),
    ])
}

#[test]
fn a_draw_of_five_gives_five_different_catalog_entries() {
    let catalog = zoo();
    for _ in 0..50 {
        let drawn = catalog.draw(5);
        assert_eq!(drawn.len(), 5);
        for (i, row) in drawn.iter().enumerate() {
            assert!(row.index < catalog.len());
            assert_eq!(row, catalog.get(row.index));
            for other in &drawn[i + 1..] {
                assert_ne!(row.index, other.index);
            }
        }
    }
}

#[test]
fn random_emojis_are_five_of_the_catalog() {
    let catalog = zoo();
    let drawn = generate_random_emojis(&catalog);
    assert_eq!(drawn.len(), 5);
    let mut positions: Vec<usize> = drawn.iter().map(|row| row.index).collect();
    positions.sort();
    positions.dedup();
    assert_eq!(positions.len(), 5);
    assert!(positions.iter().all(|position| *position < 8));
}

#[test]
fn a_draw_from_a_small_catalog_gives_all_of_it() {
    let catalog = Catalog::new(vec![
        ("🐶".to_string(), "Pets".to_string()),
        ("🐍".to_string(), "Reptiles".to_string()),
    ]);
    let drawn = catalog.draw(5);
    let positions: Vec<usize> = drawn.iter().map(|row| row.index).collect();
    assert_eq!(positions, vec![0, 1]);
    assert_eq!(drawn[1].icon, "🐍");
}

#[test]
fn a_draw_of_none_is_empty() {
    assert!(zoo().draw(0).is_empty());
    assert!(Catalog::new(vec![]).draw(5).is_empty());
}

#[test]
fn a_draw_of_all_gives_each_entry_once() {
    let catalog = zoo();
    let mut positions: Vec<usize> = catalog.draw(8).iter().map(|row| row.index).collect();
    positions.sort();
    assert_eq!(positions, vec![0, 1, 2, 3, 4, 5, 6, 7]);
}

#[test]
fn pick_gives_the_entries_at_the_positions() {
    let catalog = zoo();
    let picked = catalog.pick(&vec![6, 0, 6]);
    let icons: Vec<&str> = picked.iter().map(|row| row.icon.as_str()).collect();
    assert_eq!(icons, vec!["🦅", "🐶", "🦅"]);
    assert_eq!(picked[0].collection, "Birds");
    assert_eq!(picked[0].index, 6);
}
