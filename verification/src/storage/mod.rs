//! The ledger of albums, what a transfer does to it, and the interface of
//! a place that keeps it.

use crate::error::Error;
use crate::holdings::{count, credited, debited, positive, Entries};
use crate::types::{EmojiRow, User, Username};
use vstd::prelude::*;

pub mod in_memory;

verus! {

/// The albums of all known users, by username.
pub type Ledger = Map<Seq<char>, Entries>;

/// How many of the emoji at `position` the user holds: none where the
/// ledger does not know the user.
pub open spec fn held(ledger: Ledger, user: Seq<char>, position: usize) -> nat {
    if ledger.contains_key(user) {
        count(ledger[user], position)
    } else {
        0
    }
}

/// The album of a user: empty where the ledger does not know the user.
pub open spec fn album_of(ledger: Ledger, user: Seq<char>) -> Entries {
    if ledger.contains_key(user) {
        ledger[user]
    } else {
        Entries::empty()
    }
}

/// The ledger knows finitely many users, and every album holds positive
/// quantities only, and only of emojis at positions below `limit`.
pub open spec fn sound(ledger: Ledger, limit: nat) -> bool {
    &&& ledger.dom().finite()
    &&& forall|user: Seq<char>| #[trigger]
        ledger.contains_key(user) ==> positive(ledger[user]) && forall|position: usize| #[trigger]
            ledger[user].contains_key(position) ==> position < limit
}

/// How many of the emoji at `position` all users hold together.
pub open spec fn total(ledger: Ledger, position: usize) -> nat
    decreases ledger.dom().len(),
    when ledger.dom().finite()
{
    if ledger.dom().len() == 0 {
        0
    } else {
        let user = ledger.dom().choose();
        count(ledger[user], position) + total(ledger.remove(user), position)
    }
}

/// How often `position` occurs in `positions`.
pub open spec fn occurrences(positions: Seq<usize>, position: usize) -> nat
    decreases positions.len(),
{
    if positions.len() == 0 {
        0
    } else {
        occurrences(positions.drop_last(), position) + if positions.last() == position {
            1nat
        } else {
            0nat
        }
    }
}

/// The ledger with an album for `user`: the one it has, or an empty one.
pub open spec fn registered(ledger: Ledger, user: Seq<char>) -> Ledger {
    ledger.insert(user, album_of(ledger, user))
}

/// A place that keeps the albums of users by username.
pub trait Storage {
    /// The albums kept.
    spec fn ledger(&self) -> Ledger;

    /// What the storage needs to hold of itself to do its work.
    spec fn valid(&self) -> bool;

    /// Whether the storage has an album under `identifier`.
    fn has_entity(&self, identifier: &str) -> (found: Result<(), Error>)
        requires
            self.valid(),
        ensures
            found == if self.ledger().contains_key(identifier@) {
                Ok::<(), Error>(())
            } else {
                Err::<(), Error>(Error::UnknownRecipient)
            },
    ;

    /// Makes sure that the storage has an album for `username`, and
    /// returns the user. A storage that cannot do so changes nothing.
    fn insert(&mut self, username: &Username) -> (user: Result<User, Error>)
        requires
            old(self).valid(),
        ensures
            final(self).valid(),
            match user {
                Ok(user) => final(self).ledger() == registered(old(self).ledger(), username@)
                    && user@ == (username@, album_of(old(self).ledger(), username@)),
                Err(_) => final(self).ledger() == old(self).ledger(),
            },
    ;

    /// The user of that name, with a copy of their album: an empty one
    /// where the storage has none.
    fn get_user(&self, username: &Username) -> (user: User)
        requires
            self.valid(),
        ensures
            user@ == (username@, album_of(self.ledger(), username@)),
            user.album.wf(),
    ;
}

/// The positions named by a batch of catalog entries.
pub open spec fn positions(items: Seq<EmojiRow>) -> Seq<usize> {
    Seq::new(items.len(), |i: int| items[i].index)
}

/// `after` is `before` with one more of the emoji at each of the positions
/// `wanted` in the album of `user`, an emoji that is wanted several times
/// added that many times, and with every other album as it was.
pub open spec fn credited_with(
    before: Ledger,
    after: Ledger,
    user: Seq<char>,
    wanted: Seq<usize>,
) -> bool {
    &&& after.contains_key(user)
    &&& after == before.insert(user, after[user])
    &&& forall|position: usize|
        #[trigger] count(after[user], position) == held(before, user, position) + occurrences(
            wanted,
            position,
        )
}

/// The user can take one more of each emoji at a position below `limit`.
pub open spec fn has_room(ledger: Ledger, user: Seq<char>, limit: nat) -> bool {
    forall|position: usize|
        position < limit ==> #[trigger] held(ledger, user, position) < usize::MAX
}

/// Whether a transfer goes through, and if not, why. The quantity is
/// looked at first, then the sender's album, then the recipient.
pub open spec fn transfer_verdict(
    ledger: Ledger,
    from: Seq<char>,
    to: Seq<char>,
    position: usize,
    quantity: nat,
) -> Result<(), Error> {
    if quantity == 0 {
        Err(Error::InvalidQuantity)
    } else if held(ledger, from, position) < quantity {
        Err(Error::InsufficientHoldings)
    } else if !ledger.contains_key(to) {
        Err(Error::UnknownRecipient)
    } else {
        Ok(())
    }
}

/// The ledger after `quantity` of the emoji at `position` went from `from`
/// to `to`: first out of the sender's album, then into the recipient's.
pub open spec fn transferred(
    ledger: Ledger,
    from: Seq<char>,
    to: Seq<char>,
    position: usize,
    quantity: nat,
) -> Ledger {
    let taken = ledger.insert(from, debited(ledger[from], position, quantity));
    taken.insert(to, credited(taken[to], position, quantity))
}

/// The total over a ledger is what one of its users holds plus the total
/// over the others.
pub proof fn lemma_total_split(ledger: Ledger, user: Seq<char>, position: usize)
    requires
        ledger.dom().finite(),
        ledger.contains_key(user),
    ensures
        total(ledger, position) == count(ledger[user], position) + total(
            ledger.remove(user),
            position,
        ),
    decreases ledger.dom().len(),
{
    let picked = ledger.dom().choose();
    if picked != user {
        lemma_total_split(ledger.remove(picked), user, position);
        lemma_total_split(ledger.remove(user), picked, position);
        assert(ledger.remove(picked).remove(user) =~= ledger.remove(user).remove(picked));
    }
}

/// A transfer that goes through between two different users takes the
/// quantity out of the sender's album, dropping an entry that reaches zero,
/// knows the same users as before, and leaves every other album and every
/// other emoji as it was.
pub proof fn lemma_transfer_takes_from_sender(
    ledger: Ledger,
    from: Seq<char>,
    to: Seq<char>,
    position: usize,
    quantity: nat,
)
    requires
        transfer_verdict(ledger, from, to, position, quantity) is Ok,
        from != to,
    ensures
        held(transferred(ledger, from, to, position, quantity), from, position) == held(
            ledger,
            from,
            position,
        ) - quantity,
        held(ledger, from, position) == quantity ==> !transferred(
            ledger,
            from,
            to,
            position,
            quantity,
        )[from].contains_key(position),
        forall|user: Seq<char>, other: usize|
            (user != from && user != to) || other != position ==> #[trigger] held(
                transferred(ledger, from, to, position, quantity),
                user,
                other,
            ) == held(ledger, user, other),
        transferred(ledger, from, to, position, quantity).dom() == ledger.dom(),
{
    let after = transferred(ledger, from, to, position, quantity);
    assert(after.dom() =~= ledger.dom());
}

/// A transfer that goes through keeps the total of every other emoji over
/// all users.
pub proof fn lemma_transfer_keeps_other_totals(
    ledger: Ledger,
    from: Seq<char>,
    to: Seq<char>,
    position: usize,
    quantity: nat,
    other: usize,
)
    requires
        ledger.dom().finite(),
        transfer_verdict(ledger, from, to, position, quantity) is Ok,
        other != position,
    ensures
        total(transferred(ledger, from, to, position, quantity), other) == total(ledger, other),
{
    let after = transferred(ledger, from, to, position, quantity);
    if from == to {
        lemma_transfer_to_self(ledger, from, position, quantity);
    } else {
        lemma_transfer_takes_from_sender(ledger, from, to, position, quantity);
        lemma_total_split(ledger, from, other);
        lemma_total_split(ledger.remove(from), to, other);
        lemma_total_split(after, from, other);
        lemma_total_split(after.remove(from), to, other);
        assert(after.remove(from).remove(to) =~= ledger.remove(from).remove(to));
    }
}

/// A transfer that goes through between two different users adds the
/// quantity to what the recipient holds, and keeps the total of the emoji
/// over all users.
pub proof fn lemma_transfer_conserves(
    ledger: Ledger,
    from: Seq<char>,
    to: Seq<char>,
    position: usize,
    quantity: nat,
)
    requires
        ledger.dom().finite(),
        transfer_verdict(ledger, from, to, position, quantity) is Ok,
        from != to,
        held(ledger, to, position) + quantity <= usize::MAX,
    ensures
        held(transferred(ledger, from, to, position, quantity), to, position) == held(
            ledger,
            to,
            position,
        ) + quantity,
        total(transferred(ledger, from, to, position, quantity), position) == total(
            ledger,
            position,
        ),
{
    let after = transferred(ledger, from, to, position, quantity);
    lemma_transfer_takes_from_sender(ledger, from, to, position, quantity);
    lemma_total_split(ledger, from, position);
    lemma_total_split(ledger.remove(from), to, position);
    lemma_total_split(after, from, position);
    lemma_total_split(after.remove(from), to, position);
    assert(after.remove(from).remove(to) =~= ledger.remove(from).remove(to));
}

/// A transfer from a user to themselves that goes through leaves the
/// ledger as it was.
pub proof fn lemma_transfer_to_self(ledger: Ledger, user: Seq<char>, position: usize, quantity: nat)
    requires
        transfer_verdict(ledger, user, user, position, quantity) is Ok,
    ensures
        transferred(ledger, user, user, position, quantity) == ledger,
{
    let after = transferred(ledger, user, user, position, quantity);
    assert(after[user] =~= ledger[user]);
}

/// A transfer that goes through leaves the ledger sound: no entry is left
/// with a quantity of zero.
pub proof fn lemma_transfer_keeps_sound(
    ledger: Ledger,
    limit: nat,
    from: Seq<char>,
    to: Seq<char>,
    position: usize,
    quantity: nat,
)
    requires
        sound(ledger, limit),
        transfer_verdict(ledger, from, to, position, quantity) is Ok,
        from != to ==> held(ledger, to, position) + quantity <= usize::MAX,
    ensures
        sound(transferred(ledger, from, to, position, quantity), limit),
{
    let after = transferred(ledger, from, to, position, quantity);
    assert(ledger.contains_key(from));
    assert(ledger[from].contains_key(position));
    assert(after.dom() =~= ledger.dom());
}

/// A position that is among `wanted` occurs in it once at least.
pub proof fn lemma_present_occurs(wanted: Seq<usize>, i: int)
    requires
        0 <= i < wanted.len(),
    ensures
        occurrences(wanted, wanted[i]) >= 1,
    decreases wanted.len(),
{
    if i < wanted.len() - 1 {
        lemma_present_occurs(wanted.drop_last(), i);
    }
}

/// After emojis were added to an album, the user holds each of them once
/// at least.
pub proof fn lemma_credited_holds_each(
    before: Ledger,
    after: Ledger,
    user: Seq<char>,
    wanted: Seq<usize>,
)
    requires
        credited_with(before, after, user, wanted),
    ensures
        forall|i: int| 0 <= i < wanted.len() ==> held(after, user, #[trigger] wanted[i]) >= 1,
{
    assert forall|i: int| 0 <= i < wanted.len() implies held(after, user, #[trigger] wanted[i])
        >= 1 by {
        lemma_present_occurs(wanted, i);
        assert(count(after[user], wanted[i]) == held(before, user, wanted[i]) + occurrences(
            wanted,
            wanted[i],
        ));
    }
}

/// A position that is not among `wanted` occurs in it no times.
pub proof fn lemma_absent_occurs_never(wanted: Seq<usize>, position: usize)
    requires
        forall|i: int| 0 <= i < wanted.len() ==> wanted[i] != position,
    ensures
        occurrences(wanted, position) == 0,
    decreases wanted.len(),
{
    if wanted.len() > 0 {
        lemma_absent_occurs_never(wanted.drop_last(), position);
    }
}

/// Where no position is wanted twice, each occurs once at most.
pub proof fn lemma_distinct_occur_once(wanted: Seq<usize>, position: usize)
    requires
        forall|i: int, j: int| 0 <= i < j < wanted.len() ==> wanted[i] != wanted[j],
    ensures
        occurrences(wanted, position) <= 1,
    decreases wanted.len(),
{
    if wanted.len() > 0 {
        if wanted.last() == position {
            lemma_absent_occurs_never(wanted.drop_last(), position);
        } else {
            lemma_distinct_occur_once(wanted.drop_last(), position);
        }
    }
}

} // verus!
