//! The catalog of emojis: loading it, looking an icon up, and drawing from
//! it at random.

use crate::error::Error;
use crate::text::{split, split_at_char, trim_text, trimmed};
use crate::types::{EmojiRow, Item};
use rand::rngs::StdRng;
use rand::seq::IteratorRandom;
use rand::FromEntropy;
use vstd::prelude::*;

verus! {

/// The emojis that can be collected, in a fixed order. The entry at position
/// `i` carries `i` as its index.
pub struct Catalog {
    rows: Vec<EmojiRow>,
}

impl View for Catalog {
    type V = Seq<Item>;

    closed spec fn view(&self) -> Seq<Item> {
        Seq::new(self.rows@.len(), |i: int| self.rows@[i]@)
    }
}

/// The first position in `items` that carries `icon`, if there is one.
pub open spec fn first_with_icon(items: Seq<Item>, icon: Seq<char>) -> Option<int> {
    if exists|i: int| 0 <= i < items.len() && items[i].icon == icon {
        Some(
            choose|i: int|
                0 <= i < items.len() && items[i].icon == icon && forall|j: int|
                    0 <= j < i ==> items[j].icon != icon,
        )
    } else {
        None
    }
}

/// Each entry carries its own position.
pub open spec fn indexed(items: Seq<Item>) -> bool {
    forall|i: int| 0 <= i < items.len() ==> (#[trigger] items[i]).index == i
}

/// The rows of a catalog table: the lines of the text, without the white
/// space around it.
pub open spec fn table_rows(text: Seq<char>) -> Seq<Seq<char>> {
    split(trimmed(text), '\n')
}

/// The entry that a row of the table stands for: the icon before the first
/// comma and the collection after it, up to the next comma.
pub open spec fn row_item(row: Seq<char>, index: nat) -> Item {
    Item { icon: split(row, ',')[0], collection: split(row, ',')[1], index }
}

/// The entries that a catalog table stands for, one for each row in order:
/// none where a row has no comma.
pub open spec fn table_items(text: Seq<char>) -> Option<Seq<Item>> {
    let rows = table_rows(text);
    if forall|i: int| 0 <= i < rows.len() ==> (#[trigger] split(rows[i], ',')).len() >= 2 {
        Some(Seq::new(rows.len(), |i: int| row_item(rows[i], i as nat)))
    } else {
        None
    }
}

/// `chosen` holds `amount` different positions below `count`.
pub open spec fn is_sample(chosen: Seq<usize>, count: nat, amount: nat) -> bool {
    &&& chosen.len() == amount
    &&& forall|i: int| 0 <= i < chosen.len() ==> (#[trigger] chosen[i]) < count
    &&& forall|i: int, j: int| 0 <= i < j < chosen.len() ==> chosen[i] != chosen[j]
}

/// `drawn` is a draw of `amount` from `items`: entries of `items`, no entry
/// twice, `amount` of them or, where `items` has fewer, all of them.
pub open spec fn is_draw(items: Seq<Item>, drawn: Seq<EmojiRow>, amount: nat) -> bool {
    &&& drawn.len() == if amount <= items.len() {
        amount
    } else {
        items.len()
    }
    &&& forall|i: int|
        0 <= i < drawn.len() ==> (#[trigger] drawn[i]).index < items.len() && drawn[i]@
            == items[drawn[i].index as int]
    &&& forall|i: int, j: int|
        0 <= i < j < drawn.len() ==> (#[trigger] drawn[i]).index != (#[trigger] drawn[j]).index
}

/// The standard generator of the `rand` crate, carried as it is.
#[verifier::external_type_specification]
#[verifier::external_body]
pub struct ExStdRng(StdRng);

/// `StdRng::from_entropy`: a generator seeded by the machine. Nothing is
/// known of what it will give. The call panics where the machine has no
/// source of entropy at all.
#[verifier::external_body]
fn fresh_generator() -> StdRng {
    StdRng::from_entropy()
}

/// `IteratorRandom::choose_multiple` on the positions of `rows`: whatever
/// the generator gives, `amount` different positions come back. No more is
/// asked for than there are rows, so that the room which the call reserves
/// for the positions is less than the rows themselves take.
#[verifier::external_body]
fn sample_positions(
    rows: &Vec<EmojiRow>,
    generator: &mut StdRng,
    amount: usize,
) -> (chosen: Vec<usize>)
    requires
        amount <= rows@.len(),
    ensures
        is_sample(chosen@, rows@.len(), amount as nat),
{
    (0..rows.len()).choose_multiple(generator, amount)
}

impl Catalog {
    /// The catalog is well formed when each entry carries its own position.
    pub open spec fn wf(&self) -> bool {
        indexed(self@)
    }

    /// A catalog of the given `(icon, collection)` pairs, in their order.
    pub fn new(pairs: Vec<(String, String)>) -> (catalog: Catalog)
        ensures
            catalog.wf(),
            catalog@.len() == pairs@.len(),
            forall|i: int|
                0 <= i < pairs@.len() ==> (#[trigger] catalog@[i]) == (Item {
                    icon: pairs@[i].0@,
                    collection: pairs@[i].1@,
                    index: i as nat,
                }),
    {
        let mut rows: Vec<EmojiRow> = Vec::new();
        let mut i: usize = 0;
        while i < pairs.len()
            invariant
                0 <= i <= pairs@.len(),
                rows@.len() == i,
                forall|j: int|
                    0 <= j < i ==> (#[trigger] rows@[j])@ == (Item {
                        icon: pairs@[j].0@,
                        collection: pairs@[j].1@,
                        index: j as nat,
                    }),
            decreases pairs@.len() - i,
        {
            let row = EmojiRow {
                icon: pairs[i].0.clone(),
                collection: pairs[i].1.clone(),
                index: i,
            };
            rows.push(row);
            i = i + 1;
        }
        Catalog { rows }
    }

    /// The catalog that a table stands for: one row for each entry, the icon
    /// and the name of the collection with a comma between them. The load
    /// fails where a row has no comma.
    pub fn from_table(text: &str) -> (loaded: Result<Catalog, Error>)
        ensures
            match loaded {
                Ok(catalog) => catalog.wf() && table_items(text@) == Some(catalog@),
                Err(error) => error == Error::CatalogLoadFailure && table_items(text@) is None,
            },
    {
        let lines = split_at_char(trim_text(text), '\n');
        let ghost wanted = table_rows(text@);
        assert forall|i: int| 0 <= i < wanted.len() implies #[trigger] wanted[i]
            == lines@[i]@ by {}
        let mut rows: Vec<EmojiRow> = Vec::new();
        let mut i: usize = 0;
        while i < lines.len()
            invariant
                0 <= i <= lines@.len(),
                wanted == table_rows(text@),
                wanted.len() == lines@.len(),
                forall|j: int| 0 <= j < wanted.len() ==> #[trigger] wanted[j] == lines@[j]@,
                rows@.len() == i,
                forall|j: int| 0 <= j < i ==> (#[trigger] split(wanted[j], ',')).len() >= 2,
                forall|j: int|
                    0 <= j < i ==> (#[trigger] rows@[j])@ == row_item(wanted[j], j as nat),
            decreases lines@.len() - i,
        {
            let fields = split_at_char(lines[i].as_str(), ',');
            assert(fields.deep_view() == split(wanted[i as int], ','));
            if fields.len() < 2 {
                return Err(Error::CatalogLoadFailure);
            }
            let row = EmojiRow {
                icon: fields[0].clone(),
                collection: fields[1].clone(),
                index: i,
            };
            rows.push(row);
            i = i + 1;
        }
        let catalog = Catalog { rows };
        Ok(catalog)
    }

    /// The number of entries.
    pub fn len(&self) -> (n: usize)
        ensures
            n == self@.len(),
    {
        self.rows.len()
    }

    /// The entry at `position`.
    pub fn get(&self, position: usize) -> (row: &EmojiRow)
        requires
            position < self@.len(),
        ensures
            row@ == self@[position as int],
    {
        &self.rows[position]
    }

    /// The position of the first entry that carries `icon`.
    pub fn find(&self, icon: &str) -> (found: Option<usize>)
        ensures
            match found {
                Some(position) => first_with_icon(self@, icon@) == Some(position as int),
                None => first_with_icon(self@, icon@) is None,
            },
    {
        let mut i: usize = 0;
        while i < self.rows.len()
            invariant
                0 <= i <= self.rows@.len(),
                forall|j: int| 0 <= j < i ==> self@[j].icon != icon@,
            decreases self.rows@.len() - i,
        {
            if self.rows[i].icon.as_str().eq(icon) {
                assert(self@[i as int].icon == icon@);
                return Some(i);
            }
            i = i + 1;
        }
        None
    }

    /// The entries at the positions `chosen`, in that order.
    pub fn pick(&self, chosen: &Vec<usize>) -> (picked: Vec<EmojiRow>)
        requires
            forall|i: int| 0 <= i < chosen@.len() ==> (#[trigger] chosen@[i]) < self@.len(),
        ensures
            picked@.len() == chosen@.len(),
            forall|i: int|
                0 <= i < chosen@.len() ==> (#[trigger] picked@[i])@ == self@[chosen@[i] as int],
    {
        let mut picked: Vec<EmojiRow> = Vec::new();
        let mut i: usize = 0;
        while i < chosen.len()
            invariant
                0 <= i <= chosen@.len(),
                picked@.len() == i,
                forall|j: int| 0 <= j < chosen@.len() ==> (#[trigger] chosen@[j]) < self@.len(),
                forall|j: int| 0 <= j < i ==> (#[trigger] picked@[j])@ == self@[chosen@[j] as int],
            decreases chosen@.len() - i,
        {
            picked.push(self.rows[chosen[i]].clone());
            i = i + 1;
        }
        picked
    }

    /// Draws `amount` entries at random, none of them twice. A catalog with
    /// fewer entries gives all it has.
    pub fn draw(&self, amount: usize) -> (drawn: Vec<EmojiRow>)
        requires
            self.wf(),
        ensures
            is_draw(self@, drawn@, amount as nat),
    {
        let wanted = if amount <= self.rows.len() {
            amount
        } else {
            self.rows.len()
        };
        let mut generator = fresh_generator();
        let chosen = sample_positions(&self.rows, &mut generator, wanted);
        let drawn = self.pick(&chosen);
        proof {
            assert forall|i: int| 0 <= i < drawn@.len() implies (#[trigger] drawn@[i]).index
                == chosen@[i] by {}
        }
        drawn
    }
}

} // verus!
