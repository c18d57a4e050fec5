//! The store that keeps all albums in memory.
//!
//! A user is known to the store from the first time that emojis are added
//! to their album, or that they are registered, and stays known when their
//! album is empty again.

use crate::catalog::{indexed, Catalog};
use crate::error::Error;
use crate::holdings::{count, credited, debited, Entries, Holdings};
use crate::storage::{
    album_of, credited_with, held, occurrences, positions, registered, sound, transfer_verdict,
    transferred, Ledger, Storage,
};
use crate::types::{EmojiRow, Item, Quantity, User, Username};
use vstd::prelude::*;

verus! {

/// The album of one user.
struct Account {
    username: Username,
    holdings: Holdings,
}

/// Some account carries `name`.
spec fn named(accounts: Seq<Account>, name: Seq<char>) -> bool {
    exists|i: int| 0 <= i < accounts.len() && (#[trigger] accounts[i]).username@ == name
}

/// The place of an account that carries `name`.
spec fn slot(accounts: Seq<Account>, name: Seq<char>) -> int {
    choose|i: int| 0 <= i < accounts.len() && (#[trigger] accounts[i]).username@ == name
}

/// No two accounts carry the same name.
spec fn distinct(accounts: Seq<Account>) -> bool {
    forall|i: int, j: int|
        0 <= i < j < accounts.len() ==> (#[trigger] accounts[i]).username@
            != (#[trigger] accounts[j]).username@
}

/// The ledger that a list of accounts stands for.
spec fn ledger_of(accounts: Seq<Account>) -> Ledger {
    Map::new(
        |name: Seq<char>| named(accounts, name),
        |name: Seq<char>| accounts[slot(accounts, name)].holdings@,
    )
}

/// The store of all albums, together with the catalog they draw on. The
/// accounts are kept in a vector, no username twice, and found by their
/// name: vstd's model of the hash maps of std has no key model for `String`.
pub struct InMemoryStorage {
    catalog: Catalog,
    users_emojis: Vec<Account>,
}

/// The store is viewed as the ledger of its albums. The catalog is no part
/// of the view: `items` gives it, and no function of the store changes it.
impl View for InMemoryStorage {
    type V = Ledger;

    closed spec fn view(&self) -> Ledger {
        ledger_of(self.users_emojis@)
    }
}

proof fn lemma_lookup(accounts: Seq<Account>, i: int)
    requires
        distinct(accounts),
        0 <= i < accounts.len(),
    ensures
        named(accounts, accounts[i].username@),
        slot(accounts, accounts[i].username@) == i,
        ledger_of(accounts).contains_key(accounts[i].username@),
        ledger_of(accounts)[accounts[i].username@] == accounts[i].holdings@,
{
}

proof fn lemma_replace(before: Seq<Account>, after: Seq<Account>, i: int)
    requires
        distinct(before),
        0 <= i < before.len(),
        after.len() == before.len(),
        after[i].username@ == before[i].username@,
        forall|j: int| 0 <= j < before.len() && j != i ==> after[j] == before[j],
    ensures
        distinct(after),
        ledger_of(after) == ledger_of(before).insert(before[i].username@, after[i].holdings@),
{
    let target = ledger_of(before).insert(before[i].username@, after[i].holdings@);
    assert forall|name: Seq<char>| ledger_of(after).contains_key(name) implies #[trigger]
        target.contains_key(name) && ledger_of(after)[name] == target[name] by {
        let k = slot(after, name);
        lemma_lookup(after, k);
        lemma_lookup(before, k);
    }
    lemma_lookup(after, i);
}

proof fn lemma_append(before: Seq<Account>, account: Account)
    requires
        distinct(before),
        !named(before, account.username@),
    ensures
        distinct(before.push(account)),
        ledger_of(before.push(account)) == ledger_of(before).insert(
            account.username@,
            account.holdings@,
        ),
{
    let after = before.push(account);
    let target = ledger_of(before).insert(account.username@, account.holdings@);
    assert forall|name: Seq<char>| ledger_of(after).contains_key(name) implies #[trigger]
        target.contains_key(name) && ledger_of(after)[name] == target[name] by {
        let k = slot(after, name);
        lemma_lookup(after, k);
        if k < before.len() {
            lemma_lookup(before, k);
        }
    }
    assert forall|name: Seq<char>| target.contains_key(name) implies #[trigger] ledger_of(
        after,
    ).contains_key(name) by {
        if name == account.username@ {
            assert(after[before.len() as int].username@ == name);
        } else {
            let k = slot(before, name);
            assert(after[k].username@ == name);
        }
    }
}

proof fn lemma_occurrences_step(wanted: Seq<usize>, i: int, position: usize)
    requires
        0 <= i < wanted.len(),
    ensures
        occurrences(wanted.take(i + 1), position) == occurrences(wanted.take(i), position) + (
        if wanted[i] == position {
            1nat
        } else {
            0nat
        }),
{
    assert(wanted.take(i + 1).drop_last() =~= wanted.take(i));
}

proof fn lemma_occurrences_prefix(wanted: Seq<usize>, i: int, position: usize)
    requires
        0 <= i <= wanted.len(),
    ensures
        occurrences(wanted.take(i), position) <= occurrences(wanted, position),
    decreases wanted.len() - i,
{
    if i == wanted.len() {
        assert(wanted.take(i) =~= wanted);
    } else {
        lemma_occurrences_step(wanted, i, position);
        lemma_occurrences_prefix(wanted, i + 1, position);
    }
}

impl InMemoryStorage {
    /// The entries of the catalog that the store draws on.
    pub closed spec fn items(&self) -> Seq<Item> {
        self.catalog@
    }

    /// What holds of the accounts as they are kept: no username is kept
    /// twice.
    pub closed spec fn kept(&self) -> bool {
        distinct(self.users_emojis@)
    }

    /// The store is well formed when each catalog entry carries its own
    /// position, and every album holds positive quantities only, of emojis
    /// of the catalog only.
    pub open spec fn wf(&self) -> bool {
        &&& self.kept()
        &&& indexed(self.items())
        &&& sound(self@, self.items().len())
    }

    /// An empty store on `catalog`.
    pub fn new(catalog: Catalog) -> (storage: Self)
        requires
            catalog.wf(),
        ensures
            storage.wf(),
            storage@ == Ledger::empty(),
            storage.items() == catalog@,
    {
        let storage = InMemoryStorage { catalog, users_emojis: Vec::new() };
        proof {
            assert(storage@ =~= Ledger::empty());
        }
        storage
    }

    /// The place of the account of `username`, if the store has one.
    fn slot_of(&self, username: &str) -> (found: Option<usize>)
        requires
            distinct(self.users_emojis@),
        ensures
            match found {
                Some(i) => i < self.users_emojis@.len() && self.users_emojis@[i as int].username@
                    == username@ && self@.contains_key(username@) && self@[username@]
                    == self.users_emojis@[i as int].holdings@,
                None => !self@.contains_key(username@),
            },
    {
        let mut i: usize = 0;
        while i < self.users_emojis.len()
            invariant
                0 <= i <= self.users_emojis@.len(),
                distinct(self.users_emojis@),
                forall|j: int|
                    0 <= j < i ==> (#[trigger] self.users_emojis@[j]).username@ != username@,
            decreases self.users_emojis@.len() - i,
        {
            if self.users_emojis[i].username.as_str().eq(username) {
                proof {
                    lemma_lookup(self.users_emojis@, i as int);
                }
                return Some(i);
            }
            i = i + 1;
        }
        None
    }

    /// The catalog that the store draws on.
    pub fn catalog(&self) -> (catalog: &Catalog)
        requires
            self.wf(),
        ensures
            catalog.wf(),
            catalog@ == self.items(),
    {
        &self.catalog
    }

    /// Whether the store has an album for `username`.
    pub fn is_known(&self, username: &Username) -> (known: bool)
        requires
            self.wf(),
        ensures
            known == self@.contains_key(username@),
    {
        self.slot_of(username.as_str()).is_some()
    }

    /// How many of the emoji at `position` the user holds.
    pub fn quantity(&self, username: &Username, position: usize) -> (quantity: Quantity)
        requires
            self.wf(),
        ensures
            quantity == held(self@, username@, position),
    {
        match self.slot_of(username.as_str()) {
            Some(i) => self.users_emojis[i].holdings.quantity(position),
            None => 0,
        }
    }

    /// A copy of the album of `username`: empty for a user without one.
    pub fn album(&self, username: &Username) -> (album: Holdings)
        requires
            self.wf(),
        ensures
            album.wf(),
            album@ == album_of(self@, username@),
    {
        match self.slot_of(username.as_str()) {
            Some(i) => self.users_emojis[i].holdings.snapshot(),
            None => Holdings::new(),
        }
    }

    /// Makes sure that the store has an album for `username`: a new user
    /// gets an empty one, a known user keeps theirs.
    pub fn register(&mut self, username: &Username)
        requires
            old(self).wf(),
        ensures
            final(self).wf(),
            final(self).items() == old(self).items(),
            final(self)@ == registered(old(self)@, username@),
    {
        let _ = self.open_album(username);
    }

    /// The place of the album of `username`, which is opened empty where
    /// the store has none.
    fn open_album(&mut self, username: &Username) -> (i: usize)
        requires
            old(self).wf(),
        ensures
            final(self).wf(),
            final(self).items() == old(self).items(),
            final(self)@ == old(self)@.insert(username@, album_of(old(self)@, username@)),
            i < final(self).users_emojis@.len(),
            final(self).users_emojis@[i as int].username@ == username@,
            final(self).users_emojis@[i as int].holdings@ == album_of(old(self)@, username@),
    {
        match self.slot_of(username.as_str()) {
            Some(i) => {
                i
            },
            None => {
                let account = Account { username: username.clone(), holdings: Holdings::new() };
                proof {
                    lemma_append(self.users_emojis@, account);
                }
                self.users_emojis.push(account);
                proof {
                    lemma_lookup(self.users_emojis@, self.users_emojis@.len() - 1);
                }
                self.users_emojis.len() - 1
            },
        }
    }

    /// Adds one of each emoji in `items` to the album of `username`, which
    /// is opened where the store has none. An emoji that occurs several
    /// times in `items` is added that many times. An item stands for the
    /// catalog entry at its index.
    pub fn credit(&mut self, username: &Username, items: &Vec<EmojiRow>)
        requires
            old(self).wf(),
            forall|i: int|
                0 <= i < items@.len() ==> (#[trigger] items@[i]).index < old(self).items().len(),
            forall|position: usize|
                held(old(self)@, username@, position) + #[trigger] occurrences(
                    positions(items@),
                    position,
                ) <= usize::MAX,
        ensures
            final(self).wf(),
            final(self).items() == old(self).items(),
            credited_with(old(self)@, final(self)@, username@, positions(items@)),
    {
        let place = self.open_album(username);
        let ghost limit = self.items().len();
        let ghost shelf = self.catalog;
        let ghost opened = self.users_emojis@;
        let ghost start = album_of(old(self)@, username@);
        let ghost wanted = positions(items@);
        let mut i: usize = 0;
        while i < items.len()
            invariant
                0 <= i <= items@.len(),
                wanted == positions(items@),
                self.catalog == shelf,
                place < opened.len(),
                self.users_emojis@.len() == opened.len(),
                forall|j: int|
                    0 <= j < opened.len() && j != place ==> self.users_emojis@[j] == opened[j],
                self.users_emojis@[place as int].username@ == username@,
                opened[place as int].username@ == username@,
                self.users_emojis@[place as int].holdings.wf(),
                forall|position: usize| #[trigger]
                    self.users_emojis@[place as int].holdings@.contains_key(position) ==> position
                        < limit,
                forall|position: usize|
                    #[trigger] count(self.users_emojis@[place as int].holdings@, position) == count(
                        start,
                        position,
                    ) + occurrences(wanted.take(i as int), position),
                forall|j: int| 0 <= j < items@.len() ==> (#[trigger] items@[j]).index < limit,
                forall|position: usize|
                    count(start, position) + #[trigger] occurrences(wanted, position) <= usize::MAX,
            decreases items@.len() - i,
        {
            let position = items[i].index;
            let ghost before = self.users_emojis@[place as int].holdings@;
            proof {
                lemma_occurrences_step(wanted, i as int, position);
                lemma_occurrences_prefix(wanted, i + 1, position);
            }
            self.users_emojis[place].holdings.credit(position, 1);
            proof {
                let after = self.users_emojis@[place as int].holdings@;
                assert forall|other: usize|
                    #[trigger] count(after, other) == count(start, other) + occurrences(
                        wanted.take(i + 1),
                        other,
                    ) by {
                    lemma_occurrences_step(wanted, i as int, other);
                    assert(count(before, other) == count(start, other) + occurrences(
                        wanted.take(i as int),
                        other,
                    ));
                }
            }
            i = i + 1;
        }
        proof {
            assert(wanted.take(items@.len() as int) =~= wanted);
            lemma_replace(opened, self.users_emojis@, place as int);
            lemma_lookup(self.users_emojis@, place as int);
            let reached = self.users_emojis@[place as int].holdings@;
            assert(self@ =~= old(self)@.insert(username@, reached));
            assert forall|position: usize|
                #[trigger] count(self@[username@], position) == held(
                    old(self)@,
                    username@,
                    position,
                ) + occurrences(positions(items@), position) by {}
        }
    }

    /// Moves `quantity` of the emoji at `position` from the album of `from`
    /// to the album of `to`, or changes nothing and says why not. The
    /// recipient must have an album already; the sender's entry is dropped
    /// when nothing is left of it.
    pub fn transfer(
        &mut self,
        from: &Username,
        to: &Username,
        position: usize,
        quantity: Quantity,
    ) -> (outcome: Result<(), Error>)
        requires
            old(self).wf(),
            transfer_verdict(old(self)@, from@, to@, position, quantity as nat) is Ok && from@
                != to@ ==> held(old(self)@, to@, position) + quantity <= usize::MAX,
        ensures
            final(self).wf(),
            final(self).items() == old(self).items(),
            outcome == transfer_verdict(old(self)@, from@, to@, position, quantity as nat),
            outcome is Err ==> final(self)@ == old(self)@,
            outcome is Ok ==> final(self)@ == transferred(
                old(self)@,
                from@,
                to@,
                position,
                quantity as nat,
            ),
    {
        if quantity == 0 {
            return Err(Error::InvalidQuantity);
        }
        let sender = match self.slot_of(from.as_str()) {
            Some(i) => i,
            None => {
                return Err(Error::InsufficientHoldings);
            },
        };
        if self.users_emojis[sender].holdings.quantity(position) < quantity {
            return Err(Error::InsufficientHoldings);
        }
        let recipient = match self.slot_of(to.as_str()) {
            Some(j) => j,
            None => {
                return Err(Error::UnknownRecipient);
            },
        };
        let ghost first = self.users_emojis@;
        self.users_emojis[sender].holdings.debit(position, quantity);
        let ghost second = self.users_emojis@;
        proof {
            lemma_replace(first, second, sender as int);
            lemma_lookup(second, recipient as int);
        }
        self.users_emojis[recipient].holdings.credit(position, quantity);
        proof {
            lemma_replace(second, self.users_emojis@, recipient as int);
        }
        Ok(())
    }
}

impl Storage for InMemoryStorage {
    open spec fn ledger(&self) -> Ledger {
        self@
    }

    open spec fn valid(&self) -> bool {
        self.wf()
    }

    fn has_entity(&self, identifier: &str) -> (found: Result<(), Error>) {
        match self.slot_of(identifier) {
            Some(_) => Ok(()),
            None => Err(Error::UnknownRecipient),
        }
    }

    fn insert(&mut self, username: &Username) -> (user: Result<User, Error>)
        ensures
            user is Ok,
            final(self).items() == old(self).items(),
    {
        self.register(username);
        Ok(User { username: username.clone(), album: self.album(username) })
    }

    fn get_user(&self, username: &Username) -> (user: User) {
        User { username: username.clone(), album: self.album(username) }
    }
}

} // verus!
