//! The emojis that one user holds, kept in an `IndexMap` from catalog
//! position to quantity.

use crate::types::Quantity;
use indexmap::IndexMap;
use vstd::prelude::*;

verus! {

/// The insertion-ordered map of the `indexmap` crate, carried as it is.
#[verifier::external_type_specification]
#[verifier::external_body]
#[verifier::reject_recursive_types(K)]
#[verifier::reject_recursive_types(V)]
#[verifier::reject_recursive_types(S)]
pub struct ExIndexMap<K, V, S>(IndexMap<K, V, S>);

/// Quantities by catalog position.
pub type Entries = Map<usize, usize>;

/// What an index map holds: the quantity stored under each catalog position.
pub uninterp spec fn map_entries(map: IndexMap<usize, usize>) -> Entries;

/// The keys of an index map in the order in which it hands them out.
pub uninterp spec fn map_order(map: IndexMap<usize, usize>) -> Seq<usize>;

/// `IndexMap::new`: the new map holds nothing.
#[verifier::external_body]
fn map_new() -> (fresh: IndexMap<usize, usize>)
    ensures
        map_entries(fresh) == Entries::empty(),
        map_order(fresh) == Seq::<usize>::empty(),
{
    IndexMap::new()
}

/// `IndexMap::get`: the value stored under `key`, if the map has the key.
#[verifier::external_body]
fn map_get(map: &IndexMap<usize, usize>, key: usize) -> (value: Option<usize>)
    ensures
        value == (if map_entries(*map).contains_key(key) {
            Some(map_entries(*map)[key])
        } else {
            None
        }),
{
    map.get(&key).copied()
}

/// `IndexMap::insert`: afterwards `key` maps to `value`; every other key
/// is as before.
#[verifier::external_body]
fn map_insert(map: &mut IndexMap<usize, usize>, key: usize, value: usize)
    ensures
        map_entries(*final(map)) == map_entries(*old(map)).insert(key, value),
{
    map.insert(key, value);
}

/// `IndexMap::swap_remove`: afterwards the map lacks `key`; every other key
/// is as before.
#[verifier::external_body]
fn map_remove(map: &mut IndexMap<usize, usize>, key: usize)
    ensures
        map_entries(*final(map)) == map_entries(*old(map)).remove(key),
{
    map.swap_remove(&key);
}

/// `IndexMap::is_empty`: whether the map holds nothing.
#[verifier::external_body]
fn map_is_empty(map: &IndexMap<usize, usize>) -> (empty: bool)
    ensures
        empty == (map_entries(*map) == Entries::empty()),
{
    map.is_empty()
}

/// `IndexMap::clone`: the copy holds the same entries in the same order.
#[verifier::external_body]
fn map_clone(map: &IndexMap<usize, usize>) -> (copy: IndexMap<usize, usize>)
    ensures
        map_entries(copy) == map_entries(*map),
        map_order(copy) == map_order(*map),
{
    map.clone()
}

/// `IndexMap::sort_keys`: the entries stay, and the keys then come out in
/// ascending order.
#[verifier::external_body]
fn map_sort_keys(map: &mut IndexMap<usize, usize>)
    ensures
        map_entries(*final(map)) == map_entries(*old(map)),
        ascending(map_order(*final(map))),
{
    map.sort_keys();
}

/// `IndexMap::iter`: the pairs of the map, each key once, in the map's order.
#[verifier::external_body]
fn map_pairs(map: &IndexMap<usize, usize>) -> (pairs: Vec<(usize, usize)>)
    ensures
        lists(pairs@, map_entries(*map), map_order(*map)),
{
    map.iter().map(|(key, value)| (*key, *value)).collect()
}

/// Each key is smaller than the next.
pub open spec fn ascending(keys: Seq<usize>) -> bool {
    forall|i: int, j: int| 0 <= i < j < keys.len() ==> keys[i] < keys[j]
}

/// Each pair is a key of `entries` with the value that `entries` has for
/// it, and each key of `entries` is the key of a pair.
pub open spec fn covers(pairs: Seq<(usize, usize)>, entries: Entries) -> bool {
    &&& forall|i: int|
        0 <= i < pairs.len() ==> {
            &&& entries.contains_key((#[trigger] pairs[i]).0)
            &&& entries[pairs[i].0] == pairs[i].1
        }
    &&& forall|key: usize| #[trigger]
        entries.contains_key(key) ==> exists|i: int|
            0 <= i < pairs.len() && (#[trigger] pairs[i]).0 == key
}

/// `pairs` lists `entries` in the order `order`: the keys of `pairs` are
/// `order`, no key comes twice, and the pairs cover the entries.
pub open spec fn lists(pairs: Seq<(usize, usize)>, entries: Entries, order: Seq<usize>) -> bool {
    &&& pairs.len() == order.len()
    &&& forall|i: int| 0 <= i < pairs.len() ==> (#[trigger] pairs[i]).0 == order[i]
    &&& forall|i: int, j: int|
        0 <= i < j < pairs.len() ==> (#[trigger] pairs[i]).0 != (#[trigger] pairs[j]).0
    &&& covers(pairs, entries)
}

/// How many of the emoji at `position` the entries hold: none where they
/// have no entry for it.
pub open spec fn count(entries: Entries, position: usize) -> nat {
    if entries.contains_key(position) {
        entries[position] as nat
    } else {
        0
    }
}

/// No entry holds a quantity of zero.
pub open spec fn positive(entries: Entries) -> bool {
    forall|position: usize| #[trigger] entries.contains_key(position) ==> entries[position] > 0
}

/// The entries after `amount` more of the emoji at `position` came in.
pub open spec fn credited(entries: Entries, position: usize, amount: nat) -> Entries {
    entries.insert(position, (count(entries, position) + amount) as usize)
}

/// The entries after `amount` of the emoji at `position` left: an entry
/// that reaches zero is gone.
pub open spec fn debited(entries: Entries, position: usize, amount: nat) -> Entries {
    if count(entries, position) == amount {
        entries.remove(position)
    } else {
        entries.insert(position, (count(entries, position) - amount) as usize)
    }
}

/// The emojis of one user: a quantity for each catalog position held.
pub struct Holdings {
    entries: IndexMap<usize, usize>,
}

impl View for Holdings {
    type V = Entries;

    closed spec fn view(&self) -> Entries {
        map_entries(self.entries)
    }
}

impl Holdings {
    /// The holdings are well formed when no entry holds a quantity of zero.
    pub open spec fn wf(&self) -> bool {
        positive(self@)
    }

    /// Holdings without any emoji.
    pub fn new() -> (holdings: Holdings)
        ensures
            holdings@ == Entries::empty(),
            holdings.wf(),
    {
        Holdings { entries: map_new() }
    }

    /// Whether no emoji is held.
    pub fn is_empty(&self) -> (empty: bool)
        ensures
            empty == (self@ == Entries::empty()),
    {
        map_is_empty(&self.entries)
    }

    /// How many of the emoji at `position` are held.
    pub fn quantity(&self, position: usize) -> (held: Quantity)
        ensures
            held == count(self@, position),
    {
        match map_get(&self.entries, position) {
            Some(value) => value,
            None => 0,
        }
    }

    /// Adds `amount` of the emoji at `position`.
    pub fn credit(&mut self, position: usize, amount: Quantity)
        requires
            old(self).wf(),
            amount > 0,
            count(old(self)@, position) + amount <= usize::MAX,
        ensures
            final(self).wf(),
            final(self)@ == credited(old(self)@, position, amount as nat),
    {
        let held = self.quantity(position);
        map_insert(&mut self.entries, position, held + amount);
    }

    /// Takes `amount` of the emoji at `position` away.
    pub fn debit(&mut self, position: usize, amount: Quantity)
        requires
            old(self).wf(),
            0 < amount <= count(old(self)@, position),
        ensures
            final(self).wf(),
            final(self)@ == debited(old(self)@, position, amount as nat),
    {
        let held = self.quantity(position);
        if held == amount {
            map_remove(&mut self.entries, position);
        } else {
            map_insert(&mut self.entries, position, held - amount);
        }
    }

    /// A copy of the holdings.
    pub fn snapshot(&self) -> (copy: Holdings)
        ensures
            copy@ == self@,
    {
        Holdings { entries: map_clone(&self.entries) }
    }

    /// The `(position, quantity)` pairs held, by ascending position.
    pub fn sorted_entries(&self) -> (pairs: Vec<(usize, usize)>)
        ensures
            sorted_listing(pairs@, self@),
            pairs@ == listing(self@),
    {
        let mut sorted = map_clone(&self.entries);
        map_sort_keys(&mut sorted);
        let pairs = map_pairs(&sorted);
        proof {
            lemma_listing_unique(pairs@, listing(self@), self@);
        }
        pairs
    }
}

/// `pairs` is the listing of `entries` by ascending position: each entry
/// once, with its quantity.
pub open spec fn sorted_listing(pairs: Seq<(usize, usize)>, entries: Entries) -> bool {
    &&& forall|i: int, j: int|
        0 <= i < j < pairs.len() ==> (#[trigger] pairs[i]).0 < (#[trigger] pairs[j]).0
    &&& covers(pairs, entries)
}

/// The listing of `entries` by ascending position.
pub open spec fn listing(entries: Entries) -> Seq<(usize, usize)> {
    choose|pairs: Seq<(usize, usize)>| sorted_listing(pairs, entries)
}

proof fn lemma_listings_agree(
    a: Seq<(usize, usize)>,
    b: Seq<(usize, usize)>,
    entries: Entries,
    n: nat,
)
    requires
        sorted_listing(a, entries),
        sorted_listing(b, entries),
        n <= a.len(),
        n <= b.len(),
    ensures
        forall|i: int| 0 <= i < n ==> a[i] == b[i],
    decreases n,
{
    if n > 0 {
        lemma_listings_agree(a, b, entries, (n - 1) as nat);
        let i = n - 1;
        assert(entries.contains_key(a[i].0) && entries[a[i].0] == a[i].1);
        assert(entries.contains_key(b[i].0) && entries[b[i].0] == b[i].1);
        if a[i].0 < b[i].0 {
            let m = choose|m: int| 0 <= m < b.len() && (#[trigger] b[m]).0 == a[i].0;
            if m > i {
                assert(b[i].0 < b[m].0);
            }
            assert(m < i);
            assert(a[m] == b[m]);
            assert(a[m].0 < a[i].0);
        } else if b[i].0 < a[i].0 {
            let m = choose|m: int| 0 <= m < a.len() && (#[trigger] a[m]).0 == b[i].0;
            if m > i {
                assert(a[i].0 < a[m].0);
            }
            assert(m < i);
            assert(a[m] == b[m]);
            assert(b[m].0 < b[i].0);
        }
        assert(a[i] == b[i]);
    }
}

proof fn lemma_listing_no_longer(a: Seq<(usize, usize)>, b: Seq<(usize, usize)>, entries: Entries)
    requires
        sorted_listing(a, entries),
        sorted_listing(b, entries),
    ensures
        b.len() <= a.len(),
{
    if a.len() < b.len() {
        let extra = a.len() as int;
        lemma_listings_agree(a, b, entries, a.len());
        assert(entries.contains_key(b[extra].0));
        let m = choose|m: int| 0 <= m < a.len() && (#[trigger] a[m]).0 == b[extra].0;
        assert(a[m] == b[m]);
        assert(b[m].0 < b[extra].0);
    }
}

/// Entries have one listing by ascending position only.
pub proof fn lemma_listing_unique(a: Seq<(usize, usize)>, b: Seq<(usize, usize)>, entries: Entries)
    requires
        sorted_listing(a, entries),
        sorted_listing(b, entries),
    ensures
        a == b,
{
    lemma_listing_no_longer(a, b, entries);
    lemma_listing_no_longer(b, a, entries);
    lemma_listings_agree(a, b, entries, a.len());
}

} // verus!
