//! The values that the album works with, and their mathematical models.

use crate::holdings::{Entries, Holdings};
use std::cmp::Ordering;
use vstd::prelude::*;
use vstd::std_specs::cmp::PartialOrdSpecImpl;

verus! {

/// The name by which a user is known.
pub type Username = String;

/// The icon of an emoji.
pub type Emoji = String;

/// How many of an emoji.
pub type Quantity = usize;

/// What a user is told.
pub type ReplyMsg = String;

/// The mathematical value of a catalog entry: its icon, the name of the
/// collection it belongs to, and its position in the catalog.
pub struct Item {
    pub icon: Seq<char>,
    pub collection: Seq<char>,
    pub index: nat,
}

/// One entry of the emoji catalog.
#[derive(Debug, Hash, PartialEq, Eq)]
pub struct EmojiRow {
    pub icon: Emoji,
    pub collection: String,
    pub index: usize,
}

impl View for EmojiRow {
    type V = Item;

    open spec fn view(&self) -> Item {
        Item { icon: self.icon@, collection: self.collection@, index: self.index as nat }
    }
}

impl Clone for EmojiRow {
    fn clone(&self) -> (row: Self)
        ensures
            row == *self,
    {
        EmojiRow { icon: self.icon.clone(), collection: self.collection.clone(), index: self.index }
    }
}

impl PartialOrd for EmojiRow {
    /// Entries are ordered by their position in the catalog.
    fn partial_cmp(&self, other: &Self) -> (order: Option<Ordering>) {
        self.index.partial_cmp(&other.index)
    }
}

impl PartialOrdSpecImpl for EmojiRow {
    open spec fn obeys_partial_cmp_spec() -> bool {
        true
    }

    open spec fn partial_cmp_spec(&self, other: &Self) -> Option<Ordering> {
        if self.index < other.index {
            Some(Ordering::Less)
        } else if self.index == other.index {
            Some(Ordering::Equal)
        } else {
            Some(Ordering::Greater)
        }
    }
}

/// A user as the storage knows them: their name and a copy of their album.
pub struct User {
    pub username: Username,
    pub album: Holdings,
}

impl View for User {
    type V = (Seq<char>, Entries);

    open spec fn view(&self) -> (Seq<char>, Entries) {
        (self.username@, self.album@)
    }
}

/// The mathematical value of a command.
pub enum CommandModel {
    Start,
    Roll,
    Album,
    Send(Seq<char>, nat, Seq<char>),
}

/// A request of a user, already parsed.
#[derive(Debug, PartialEq, Eq)]
pub enum Command {
    Start,
    Roll,
    Album,
    /// Send this many of an emoji to another user.
    Send(Emoji, Quantity, Username),
}

impl View for Command {
    type V = CommandModel;

    open spec fn view(&self) -> CommandModel {
        match self {
            Command::Start => CommandModel::Start,
            Command::Roll => CommandModel::Roll,
            Command::Album => CommandModel::Album,
            Command::Send(emoji, quantity, username) => CommandModel::Send(
                emoji@,
                *quantity as nat,
                username@,
            ),
        }
    }
}

} // verus!
