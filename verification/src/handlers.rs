//! From the text of a message to the reply for its sender.

use crate::logic::{accepted, executed, fits, refused, reply_text, welcome_text};
use crate::parsers::parsed;
use crate::storage::in_memory::InMemoryStorage;
use crate::storage::Ledger;
use crate::types::{Command, CommandModel, Item, ReplyMsg};
use vstd::prelude::*;

verus! {

/// What a sender without a username is told.
pub open spec fn username_missing_text() -> Seq<char> {
    "You must register an username in your Telegram in order to use this bot. Set a username in your telegram app settings."@
}

/// What handling a message does to the ledger, and what the sender is
/// told. A message that is no command changes nothing. A start greets
/// whoever sent it, with a username or without. Every other command needs
/// a sender with a username and changes nothing without one; with one it is
/// carried out.
pub open spec fn handled(
    items: Seq<Item>,
    before: Ledger,
    after: Ledger,
    username: Option<Seq<char>>,
    text: Seq<char>,
    reply: Result<Seq<char>, Seq<char>>,
) -> bool {
    match parsed(text) {
        Err(complaint) => after == before && reply == refused(complaint),
        Ok(CommandModel::Start) => after == before && reply == accepted(welcome_text()),
        Ok(command) => match username {
            None => after == before && reply == refused(username_missing_text()),
            Some(user) => executed(items, before, after, command, user, reply),
        },
    }
}

/// The command that the message holds adds no more than a machine word
/// holds.
pub open spec fn message_fits(
    items: Seq<Item>,
    ledger: Ledger,
    username: Option<Seq<char>>,
    text: Seq<char>,
) -> bool {
    match (parsed(text), username) {
        (Ok(command), Some(user)) => fits(items, ledger, command, user),
        _ => true,
    }
}

/// The name of a user, if there is one.
pub open spec fn name_of(username: Option<&String>) -> Option<Seq<char>> {
    match username {
        Some(name) => Some(name@),
        None => None,
    }
}

/// An error message as it is shown to the user.
pub fn format_error(message: &str) -> (text: String)
    ensures
        text@ == "Error: "@ + message@,
{
    let mut text = "Error: ".to_owned();
    text.append(message);
    text
}

/// Reads the text of a message as a command and carries it out for its
/// sender. Only a start is answered for a sender without a username.
pub fn handle_command(
    storage: &mut InMemoryStorage,
    username: Option<&String>,
    text: &str,
) -> (reply: Result<ReplyMsg, String>)
    requires
        old(storage).wf(),
        message_fits(old(storage).items(), old(storage)@, name_of(username), text@),
    ensures
        final(storage).wf(),
        final(storage).items() == old(storage).items(),
        handled(
            old(storage).items(),
            old(storage)@,
            final(storage)@,
            name_of(username),
            text@,
            reply_text(reply),
        ),
{
    let command = match Command::parse(text) {
        Ok(command) => command,
        Err(complaint) => {
            return Err(complaint.to_owned());
        },
    };
    if let Command::Start = command {
        return command.start();
    }
    let msg_username = match username {
        Some(name) => name.clone(),
        None => {
            return Err(
                "You must register an username in your Telegram in order to use this bot. Set a username in your telegram app settings.".to_owned(),
            );
        },
    };
    command.execute(storage, msg_username)
}

} // verus!
