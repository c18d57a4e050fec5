//! What each command does to the albums, and what its sender is told.

use crate::catalog::{first_with_icon, is_draw, Catalog};
use crate::error::Error;
use crate::holdings::{listing, Entries, Holdings};
use crate::numbers::{decimal, decimal_text};
use crate::render::{models, render_cells, sections, Cell, CellModel};
use crate::storage::in_memory::InMemoryStorage;
use crate::storage::{
    album_of, credited_with, has_room, held, lemma_absent_occurs_never, lemma_distinct_occur_once,
    lemma_transfer_conserves, lemma_transfer_keeps_other_totals, lemma_transfer_keeps_sound,
    lemma_transfer_takes_from_sender, lemma_transfer_to_self, occurrences, positions, sound, total,
    transfer_verdict, transferred, Ledger,
};
use crate::text::{joined, repeat_text, repeated};
use crate::types::{Command, CommandModel, Emoji, EmojiRow, Item, Quantity, ReplyMsg, Username};
use vstd::prelude::*;

verus! {

/// The text of a reply, whether it reports success or failure.
pub open spec fn reply_text(reply: Result<ReplyMsg, String>) -> Result<Seq<char>, Seq<char>> {
    match reply {
        Ok(text) => Ok(text@),
        Err(text) => Err(text@),
    }
}

/// A reply that reports success.
pub open spec fn accepted(text: Seq<char>) -> Result<Seq<char>, Seq<char>> {
    Ok(text)
}

/// A reply that reports failure.
pub open spec fn refused(text: Seq<char>) -> Result<Seq<char>, Seq<char>> {
    Err(text)
}

/// The greeting.
pub open spec fn welcome_text() -> Seq<char> {
    "Welcome to emoji album!\n\n🎲 Send /roll to get your first emojis!\n\n📖 Send /album to see all your emojis!"@
}

/// What a user without emojis is told about their album.
pub open spec fn empty_album_text() -> Seq<char> {
    "You still have no emojis in your album! Type /roll to get some!"@
}

/// One cell for each emoji rolled: its icon, under its collection.
pub open spec fn roll_cells(drawn: Seq<EmojiRow>) -> Seq<CellModel> {
    Seq::new(
        drawn.len(),
        |i: int| CellModel { collection: drawn[i].collection@, text: drawn[i].icon@ },
    )
}

/// The report of a roll: the emojis of one collection under one header, in
/// the order drawn, the collections in the order in which they were first
/// drawn, a space between each two sections.
pub open spec fn rolled_text(drawn: Seq<EmojiRow>) -> Seq<char> {
    "You have rolled:\n\n\n"@ + joined(sections(roll_cells(drawn)), " "@)
}

/// One cell for each pair of a position and a quantity: the icon at that
/// position of the catalog, written as many times as the quantity says,
/// under its collection.
pub open spec fn album_cells(items: Seq<Item>, pairs: Seq<(usize, usize)>) -> Seq<CellModel> {
    Seq::new(
        pairs.len(),
        |i: int|
            CellModel {
                collection: items[pairs[i].0 as int].collection,
                text: repeated(items[pairs[i].0 as int].icon, pairs[i].1 as nat),
            },
    )
}

/// An album as text: the emojis of one collection under one header, by
/// ascending catalog position, the collections by the position of their
/// first emoji held, each icon written as often as it is held.
pub open spec fn album_text(items: Seq<Item>, entries: Entries) -> Seq<char> {
    joined(sections(album_cells(items, listing(entries))), Seq::empty())
}

/// The reply to a request for the album.
pub open spec fn album_reply(items: Seq<Item>, entries: Entries) -> Seq<char> {
    if entries == Entries::empty() {
        empty_album_text()
    } else {
        "Your album:\n\n\n"@ + album_text(items, entries)
    }
}

/// The report of emojis sent.
pub open spec fn sent_text(quantity: nat, emoji: Seq<char>, to: Seq<char>) -> Seq<char> {
    "You have successfully sent "@ + decimal(quantity) + " "@ + emoji + " to @"@ + to + "!"@
}

/// What a sender is told when their request is turned down. `had` is the
/// quantity of the emoji in the sender's album.
pub open spec fn refusal_text(
    error: Error,
    emoji: Seq<char>,
    to: Seq<char>,
    had: nat,
) -> Seq<char> {
    match error {
        Error::UnknownItem => "Emoji not valid, or there's a space missing between the emoji and the username"@,
        Error::InsufficientHoldings => if had == 0 {
            "You don't have any "@ + emoji + " to send"@
        } else {
            "You don't have enough "@ + emoji + " to send"@
        },
        Error::UnknownRecipient => "Could not find user @"@ + to
            + ". Make sure the user has contacted @EmojiAlbumBot at least once"@,
        Error::InvalidQuantity => "The quantity to send should be at least 1"@,
        Error::CatalogLoadFailure => "The emoji catalog could not be loaded"@,
    }
}

/// Whether emojis can be sent, and if so, from which catalog position. The
/// icon is looked up first; then the transfer is judged.
pub open spec fn send_verdict(
    items: Seq<Item>,
    ledger: Ledger,
    from: Seq<char>,
    emoji: Seq<char>,
    quantity: nat,
    to: Seq<char>,
) -> Result<usize, Error> {
    match first_with_icon(items, emoji) {
        None => Err(Error::UnknownItem),
        Some(position) => match transfer_verdict(ledger, from, to, position as usize, quantity) {
            Ok(_) => Ok(position as usize),
            Err(error) => Err(error),
        },
    }
}

/// The quantity that the sender has of the emoji: none where the catalog
/// lacks the icon.
pub open spec fn sender_had(
    items: Seq<Item>,
    ledger: Ledger,
    from: Seq<char>,
    emoji: Seq<char>,
) -> nat {
    match first_with_icon(items, emoji) {
        None => 0,
        Some(position) => held(ledger, from, position as usize),
    }
}

/// The recipient's quantity stays within what a machine word holds.
pub open spec fn room_to_send(
    items: Seq<Item>,
    ledger: Ledger,
    from: Seq<char>,
    emoji: Seq<char>,
    quantity: nat,
    to: Seq<char>,
) -> bool {
    match send_verdict(items, ledger, from, emoji, quantity, to) {
        Ok(position) => from != to ==> held(ledger, to, position) + quantity <= usize::MAX,
        Err(_) => true,
    }
}

/// The command's additions stay within what a machine word holds.
pub open spec fn fits(
    items: Seq<Item>,
    ledger: Ledger,
    command: CommandModel,
    user: Seq<char>,
) -> bool {
    match command {
        CommandModel::Roll => has_room(ledger, user, items.len()),
        CommandModel::Send(emoji, quantity, to) => room_to_send(
            items,
            ledger,
            user,
            emoji,
            quantity,
            to,
        ),
        _ => true,
    }
}

/// What a roll does: emojis are drawn, five where the catalog has as many,
/// added to the user's album, and reported.
pub open spec fn rolled(
    items: Seq<Item>,
    before: Ledger,
    after: Ledger,
    user: Seq<char>,
    reply: Result<Seq<char>, Seq<char>>,
) -> bool {
    exists|drawn: Seq<EmojiRow>|
        #![trigger positions(drawn)]
        is_draw(items, drawn, 5) && credited_with(before, after, user, positions(drawn)) && reply
            == accepted(rolled_text(drawn))
}

/// What sending does: where it goes through, the emojis move and the
/// sender gets a report; else nothing changes and the sender is told why.
pub open spec fn sent(
    items: Seq<Item>,
    before: Ledger,
    after: Ledger,
    from: Seq<char>,
    emoji: Seq<char>,
    quantity: nat,
    to: Seq<char>,
    reply: Result<Seq<char>, Seq<char>>,
) -> bool {
    match send_verdict(items, before, from, emoji, quantity, to) {
        Ok(position) => after == transferred(before, from, to, position, quantity) && reply
            == accepted(sent_text(quantity, emoji, to)),
        Err(error) => after == before && reply == refused(
            refusal_text(error, emoji, to, sender_had(items, before, from, emoji)),
        ),
    }
}

/// Where emojis were sent from one user to another, the sender holds that
/// many fewer of the emoji, and no entry for it where none is left.
pub proof fn lemma_sent_takes_from_sender(
    items: Seq<Item>,
    before: Ledger,
    after: Ledger,
    from: Seq<char>,
    emoji: Seq<char>,
    quantity: nat,
    to: Seq<char>,
    reply: Result<Seq<char>, Seq<char>>,
)
    requires
        sent(items, before, after, from, emoji, quantity, to, reply),
        reply is Ok,
        from != to,
    ensures
        send_verdict(items, before, from, emoji, quantity, to) is Ok,
        held(after, from, send_verdict(items, before, from, emoji, quantity, to)->Ok_0) == held(
            before,
            from,
            send_verdict(items, before, from, emoji, quantity, to)->Ok_0,
        ) - quantity,
        held(before, from, send_verdict(items, before, from, emoji, quantity, to)->Ok_0)
            == quantity ==> !after[from].contains_key(
            send_verdict(items, before, from, emoji, quantity, to)->Ok_0,
        ),
{
    let position = send_verdict(items, before, from, emoji, quantity, to)->Ok_0;
    lemma_transfer_takes_from_sender(before, from, to, position, quantity);
}

/// Where emojis were sent from one user to another, the recipient holds
/// that many more of the emoji; and whether they were sent or not, and to
/// whom, the total of every emoji over all users is as before.
pub proof fn lemma_sent_conserves(
    items: Seq<Item>,
    before: Ledger,
    after: Ledger,
    from: Seq<char>,
    emoji: Seq<char>,
    quantity: nat,
    to: Seq<char>,
    reply: Result<Seq<char>, Seq<char>>,
)
    requires
        before.dom().finite(),
        sent(items, before, after, from, emoji, quantity, to, reply),
        room_to_send(items, before, from, emoji, quantity, to),
    ensures
        forall|position: usize| #[trigger] total(after, position) == total(before, position),
        reply is Ok && from != to ==> held(
            after,
            to,
            send_verdict(items, before, from, emoji, quantity, to)->Ok_0,
        ) == held(before, to, send_verdict(items, before, from, emoji, quantity, to)->Ok_0)
            + quantity,
{
    match send_verdict(items, before, from, emoji, quantity, to) {
        Ok(position) => {
            if from == to {
                lemma_transfer_to_self(before, from, position, quantity);
            } else {
                lemma_transfer_conserves(before, from, to, position, quantity);
                assert forall|other: usize| #[trigger] total(after, other) == total(
                    before,
                    other,
                ) by {
                    if other != position {
                        lemma_transfer_keeps_other_totals(
                            before,
                            from,
                            to,
                            position,
                            quantity,
                            other,
                        );
                    }
                }
            }
        },
        Err(_) => {},
    }
}

/// Whether emojis were sent or not, no album is left with an entry of
/// quantity zero.
pub proof fn lemma_sent_keeps_sound(
    items: Seq<Item>,
    before: Ledger,
    after: Ledger,
    from: Seq<char>,
    emoji: Seq<char>,
    quantity: nat,
    to: Seq<char>,
    reply: Result<Seq<char>, Seq<char>>,
)
    requires
        sound(before, items.len()),
        sent(items, before, after, from, emoji, quantity, to, reply),
        room_to_send(items, before, from, emoji, quantity, to),
    ensures
        sound(after, items.len()),
{
    match send_verdict(items, before, from, emoji, quantity, to) {
        Ok(position) => {
            lemma_transfer_keeps_sound(before, items.len(), from, to, position, quantity);
        },
        Err(_) => {},
    }
}

/// What carrying a command out for `user` does to the ledger, and what the
/// user is told: a start greets, a roll draws and adds, a request for the
/// album shows it, and sending moves emojis or says why not.
pub open spec fn executed(
    items: Seq<Item>,
    before: Ledger,
    after: Ledger,
    command: CommandModel,
    user: Seq<char>,
    reply: Result<Seq<char>, Seq<char>>,
) -> bool {
    match command {
        CommandModel::Start => after == before && reply == accepted(welcome_text()),
        CommandModel::Roll => rolled(items, before, after, user, reply),
        CommandModel::Album => after == before && reply == accepted(
            album_reply(items, album_of(before, user)),
        ),
        CommandModel::Send(emoji, quantity, to) => sent(
            items,
            before,
            after,
            user,
            emoji,
            quantity,
            to,
            reply,
        ),
    }
}

/// Five emojis of the catalog drawn at random, none of them twice; all of
/// them where the catalog has fewer.
pub fn generate_random_emojis(catalog: &Catalog) -> (random_emojis: Vec<EmojiRow>)
    requires
        catalog.wf(),
    ensures
        is_draw(catalog@, random_emojis@, 5),
{
    catalog.draw(5)
}

/// Adds one of each of the emojis to the user's album.
pub fn add_emojis_to_album(
    storage: &mut InMemoryStorage,
    album: Username,
    emoji_rows: &Vec<EmojiRow>,
)
    requires
        old(storage).wf(),
        forall|i: int|
            0 <= i < emoji_rows@.len() ==> (#[trigger] emoji_rows@[i]).index < old(
                storage,
            ).items().len(),
        forall|position: usize|
            held(old(storage)@, album@, position) + #[trigger] occurrences(
                positions(emoji_rows@),
                position,
            ) <= usize::MAX,
    ensures
        final(storage).wf(),
        final(storage).items() == old(storage).items(),
        credited_with(old(storage)@, final(storage)@, album@, positions(emoji_rows@)),
{
    storage.credit(&album, emoji_rows);
}

/// The report of a roll.
pub fn render_rolled_emojis(rolled_emojis: &Vec<EmojiRow>) -> (text: String)
    ensures
        text@ == rolled_text(rolled_emojis@),
{
    let mut cells: Vec<Cell> = Vec::new();
    let mut i: usize = 0;
    while i < rolled_emojis.len()
        invariant
            0 <= i <= rolled_emojis@.len(),
            cells@.len() == i,
            forall|j: int| 0 <= j < i ==> (#[trigger] cells@[j])@ == roll_cells(rolled_emojis@)[j],
        decreases rolled_emojis@.len() - i,
    {
        cells.push(
            Cell {
                collection: rolled_emojis[i].collection.clone(),
                text: rolled_emojis[i].icon.clone(),
            },
        );
        i = i + 1;
    }
    assert(models(cells@) =~= roll_cells(rolled_emojis@));
    let mut text = "You have rolled:\n\n\n".to_owned();
    let listed = render_cells(&cells, " ");
    text.append(listed.as_str());
    text
}

/// An album as text.
pub fn render_emoji_album(catalog: &Catalog, emojis_map: &Holdings) -> (text: String)
    requires
        forall|position: usize| #[trigger]
            emojis_map@.contains_key(position) ==> position < catalog@.len(),
    ensures
        text@ == album_text(catalog@, emojis_map@),
{
    let pairs = emojis_map.sorted_entries();
    let mut cells: Vec<Cell> = Vec::new();
    let mut i: usize = 0;
    while i < pairs.len()
        invariant
            0 <= i <= pairs@.len(),
            cells@.len() == i,
            forall|j: int|
                0 <= j < pairs@.len() ==> emojis_map@.contains_key((#[trigger] pairs@[j]).0),
            forall|position: usize| #[trigger]
                emojis_map@.contains_key(position) ==> position < catalog@.len(),
            forall|j: int|
                0 <= j < i ==> (#[trigger] cells@[j])@ == album_cells(catalog@, pairs@)[j],
        decreases pairs@.len() - i,
    {
        let position = pairs[i].0;
        let row = catalog.get(position);
        cells.push(
            Cell {
                collection: row.collection.clone(),
                text: repeat_text(row.icon.as_str(), pairs[i].1),
            },
        );
        i = i + 1;
    }
    assert(models(cells@) =~= album_cells(catalog@, pairs@));
    proof {
        reveal_strlit("");
        assert(""@ =~= Seq::<char>::empty());
    }
    render_cells(&cells, "")
}

/// What a sender is told when their request is turned down.
pub fn refusal(error: Error, emoji: &str, to: &str, had: Quantity) -> (text: String)
    ensures
        text@ == refusal_text(error, emoji@, to@, had as nat),
{
    match error {
        Error::UnknownItem => "Emoji not valid, or there's a space missing between the emoji and the username".to_owned(),
        Error::InsufficientHoldings => {
            let mut text = if had == 0 {
                "You don't have any ".to_owned()
            } else {
                "You don't have enough ".to_owned()
            };
            text.append(emoji);
            text.append(" to send");
            text
        },
        Error::UnknownRecipient => {
            let mut text = "Could not find user @".to_owned();
            text.append(to);
            text.append(". Make sure the user has contacted @EmojiAlbumBot at least once");
            text
        },
        Error::InvalidQuantity => "The quantity to send should be at least 1".to_owned(),
        Error::CatalogLoadFailure => "The emoji catalog could not be loaded".to_owned(),
    }
}

impl Command {
    /// Whether what the command would add to an album stays within what a
    /// machine word holds, so that the command can be carried out.
    pub fn fits_within(&self, storage: &InMemoryStorage, msg_username: &Username) -> (room: bool)
        requires
            storage.wf(),
        ensures
            room == fits(storage.items(), storage@, self@, msg_username@),
    {
        match self {
            Command::Roll => {
                let count = storage.catalog().len();
                let mut position: usize = 0;
                while position < count
                    invariant
                        0 <= position <= count,
                        count == storage.items().len(),
                        storage.wf(),
                        self@ == CommandModel::Roll,
                        forall|earlier: usize|
                            earlier < position ==> #[trigger] held(
                                storage@,
                                msg_username@,
                                earlier,
                            ) < usize::MAX,
                    decreases count - position,
                {
                    if storage.quantity(msg_username, position) == usize::MAX {
                        return false;
                    }
                    position = position + 1;
                }
                true
            },
            Command::Send(emoji, quantity, to) => {
                match storage.catalog().find(emoji.as_str()) {
                    None => true,
                    Some(position) => {
                        if *quantity == 0 || storage.quantity(msg_username, position) < *quantity
                            || !storage.is_known(to) || msg_username.as_str().eq(to.as_str()) {
                            true
                        } else {
                            storage.quantity(to, position) <= usize::MAX - *quantity
                        }
                    },
                }
            },
            _ => true,
        }
    }

    /// Carries the command out for the user who gave it, on their album
    /// and, where emojis are sent, on the recipient's.
    pub fn execute(
        self,
        storage: &mut InMemoryStorage,
        msg_username: Username,
    ) -> (reply: Result<ReplyMsg, String>)
        requires
            old(storage).wf(),
            fits(old(storage).items(), old(storage)@, self@, msg_username@),
        ensures
            final(storage).wf(),
            final(storage).items() == old(storage).items(),
            executed(
                old(storage).items(),
                old(storage)@,
                final(storage)@,
                self@,
                msg_username@,
                reply_text(reply),
            ),
    {
        match &self {
            Command::Start => self.start(),
            Command::Roll => self.roll(storage, msg_username),
            Command::Album => self.album(storage, msg_username),
            Command::Send(emoji, quantity, username) => self.send(
                storage,
                emoji,
                *quantity,
                &msg_username,
                username,
            ),
        }
    }

    /// Greets the user.
    pub fn start(&self) -> (reply: Result<ReplyMsg, String>)
        ensures
            reply_text(reply) == accepted(welcome_text()),
    {
        Ok(
            "Welcome to emoji album!\n\n🎲 Send /roll to get your first emojis!\n\n📖 Send /album to see all your emojis!".to_owned(),
        )
    }

    /// Draws emojis for the user, adds them to their album and reports
    /// them.
    pub fn roll(
        &self,
        storage: &mut InMemoryStorage,
        username: Username,
    ) -> (reply: Result<ReplyMsg, String>)
        requires
            old(storage).wf(),
            has_room(old(storage)@, username@, old(storage).items().len()),
        ensures
            final(storage).wf(),
            final(storage).items() == old(storage).items(),
            rolled(
                old(storage).items(),
                old(storage)@,
                final(storage)@,
                username@,
                reply_text(reply),
            ),
    {
        let rolled_emojis = generate_random_emojis(storage.catalog());
        let ghost wanted = positions(rolled_emojis@);
        proof {
            assert forall|position: usize|
                held(storage@, username@, position) + #[trigger] occurrences(wanted, position)
                    <= usize::MAX by {
                if position < storage.items().len() {
                    lemma_distinct_occur_once(wanted, position);
                } else {
                    lemma_absent_occurs_never(wanted, position);
                }
            }
        }
        add_emojis_to_album(storage, username, &rolled_emojis);
        Ok(render_rolled_emojis(&rolled_emojis))
    }

    /// Shows the user their album.
    pub fn album(
        &self,
        storage: &InMemoryStorage,
        username: Username,
    ) -> (reply: Result<ReplyMsg, String>)
        requires
            storage.wf(),
        ensures
            reply_text(reply) == accepted(
                album_reply(storage.items(), album_of(storage@, username@)),
            ),
    {
        let emojis_map = storage.album(&username);
        if emojis_map.is_empty() {
            Ok("You still have no emojis in your album! Type /roll to get some!".to_owned())
        } else {
            let emoji_album = render_emoji_album(storage.catalog(), &emojis_map);
            let mut text = "Your album:\n\n\n".to_owned();
            text.append(emoji_album.as_str());
            Ok(text)
        }
    }

    /// Sends `quantity` of the emoji with the icon `emoji` from the album
    /// of `from` to the album of `to`, or changes nothing and says why not.
    pub fn send(
        &self,
        storage: &mut InMemoryStorage,
        emoji: &Emoji,
        quantity: Quantity,
        from: &Username,
        to: &Username,
    ) -> (reply: Result<ReplyMsg, String>)
        requires
            old(storage).wf(),
            room_to_send(old(storage).items(), old(storage)@, from@, emoji@, quantity as nat, to@),
        ensures
            final(storage).wf(),
            final(storage).items() == old(storage).items(),
            sent(
                old(storage).items(),
                old(storage)@,
                final(storage)@,
                from@,
                emoji@,
                quantity as nat,
                to@,
                reply_text(reply),
            ),
    {
        let position = match storage.catalog().find(emoji.as_str()) {
            Some(position) => position,
            None => {
                return Err(refusal(Error::UnknownItem, emoji.as_str(), to.as_str(), 0));
            },
        };
        let had = storage.quantity(from, position);
        match storage.transfer(from, to, position, quantity) {
            Ok(_) => {
                let mut text = "You have successfully sent ".to_owned();
                text.append(decimal_text(quantity).as_str());
                text.append(" ");
                text.append(emoji.as_str());
                text.append(" to @");
                text.append(to.as_str());
                text.append("!");
                Ok(text)
            },
            Err(error) => Err(refusal(error, emoji.as_str(), to.as_str(), had)),
        }
    }
}

} // verus!
