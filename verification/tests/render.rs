use emoji_album::catalog::Catalog;
use emoji_album::holdings::Holdings;
use emoji_album::logic::{render_emoji_album, render_rolled_emojis};
use emoji_album::render::{gather_cells, render_cells, render_runs, Cell};
use emoji_album::text::{concat_with, repeat_text};

fn pets_and_reptiles_catalog() -> Catalog {
    Catalog::new(vec![
        ("🐶".to_string(), "Pets".to_string()),
        ("🐱".to_string(), "Pets".to_string()),
        ("🐍".to_string(), "Reptiles".to_string()),
    ])
}

fn cell(collection: &str, text: &str) -> Cell {
    Cell { collection: collection.to_string(), text: text.to_string() }
}

#[test]
fn an_album_is_shown_by_collection_and_position() {
    let catalog = pets_and_reptiles_catalog();
    let mut holdings = Holdings::new();
    holdings.credit(2, 1);
    holdings.credit(0, 2);
    assert_eq!(
        render_emoji_album(&catalog, &holdings),
        "Pets Collection\n🐶🐶\n\nReptiles Collection\n🐍\n\n"
    );
}

#[test]
fn emojis_of_one_collection_share_a_section() {
    let catalog = pets_and_reptiles_catalog();
    let mut holdings = Holdings::new();
    holdings.credit(1, 3);
    holdings.credit(0, 1);
    assert_eq!(render_emoji_album(&catalog, &holdings), "Pets Collection\n🐶 🐱🐱🐱\n\n");
}

#[test]
fn an_empty_album_is_shown_as_nothing() {
    assert_eq!(render_emoji_album(&pets_and_reptiles_catalog(), &Holdings::new()), "");
}

#[test]
fn a_collection_has_one_section_though_the_catalog_splits_it() {
    let catalog = Catalog::new(vec![
        ("🐶".to_string(), "Pets".to_string()),
        ("🐍".to_string(), "Reptiles".to_string()),
        ("🐱".to_string(), "Pets".to_string()),
    ]);
    let mut holdings = Holdings::new();
    holdings.credit(0, 1);
    holdings.credit(1, 1);
    holdings.credit(2, 1);
    assert_eq!(
        render_emoji_album(&catalog, &holdings),
        "Pets Collection\n🐶 🐱\n\nReptiles Collection\n🐍\n\n"
    );
}

#[test]
fn a_roll_is_reported_by_collection_in_the_order_drawn() {
    let catalog = pets_and_reptiles_catalog();
    let drawn = catalog.pick(&vec![0, 1, 2]);
    assert_eq!(
        render_rolled_emojis(&drawn),
        "You have rolled:\n\n\nPets Collection\n🐶 🐱\n\n Reptiles Collection\n🐍\n\n"
    );
    let mixed = catalog.pick(&vec![1, 2, 0]);
    assert_eq!(
        render_rolled_emojis(&mixed),
        "You have rolled:\n\n\nPets Collection\n🐱 🐶\n\n Reptiles Collection\n🐍\n\n"
    );
}

#[test]
fn a_roll_of_nothing_reports_nothing() {
    assert_eq!(render_rolled_emojis(&vec![]), "You have rolled:\n\n\n");
}

fn five_cells() -> Vec<Cell> {
    vec![cell("A", "1"), cell("A", "2"), cell("B", "3"), cell("A", "4"), cell("A", "5")]
}

#[test]
fn runs_of_one_collection_share_a_section() {
    assert_eq!(
        render_runs(&five_cells(), "|"),
        "A Collection\n1 2\n\n|B Collection\n3\n\n|A Collection\n4 5\n\n"
    );
    assert_eq!(render_runs(&vec![], "|"), "");
}

#[test]
fn cells_of_one_collection_share_a_section() {
    assert_eq!(
        render_cells(&five_cells(), "|"),
        "A Collection\n1 2 4 5\n\n|B Collection\n3\n\n"
    );
}

#[test]
fn gathering_puts_the_cells_of_a_collection_together() {
    let cells = vec![cell("B", "1"), cell("A", "2"), cell("C", "3"), cell("A", "4"), cell("B", "5")];
    let together: Vec<(String, String)> =
        gather_cells(&cells).into_iter().map(|cell| (cell.collection, cell.text)).collect();
    let expected: Vec<(String, String)> = [("B", "1"), ("B", "5"), ("A", "2"), ("A", "4"), ("C", "3")]
        .iter()
        .map(|(collection, text)| (collection.to_string(), text.to_string()))
        .collect();
    assert_eq!(together, expected);
    assert!(gather_cells(&vec![]).is_empty());
}

#[test]
fn a_single_cell_is_a_section_without_spaces() {
    assert_eq!(render_cells(&vec![cell("Solo", "x")], "-"), "Solo Collection\nx\n\n");
    assert_eq!(render_cells(&vec![], "-"), "");
}

#[test]
fn a_text_is_repeated_as_often_as_asked() {
    assert_eq!(repeat_text("🐶", 3), "🐶🐶🐶");
    assert_eq!(repeat_text("ab", 2), "abab");
    assert_eq!(repeat_text("ab", 0), "");
}

#[test]
fn parts_are_joined_with_the_separator_between_them() {
    let parts = vec!["a".to_string(), "".to_string(), "c".to_string()];
    assert_eq!(concat_with(&parts, ", "), "a, , c");
    assert_eq!(concat_with(&vec!["a".to_string()], ", "), "a");
    assert_eq!(concat_with(&vec![], ", "), "");
}
