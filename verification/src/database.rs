//! What a command reads from the storage before it is carried out.

use crate::holdings::Entries;
use crate::storage::{album_of, Ledger, Storage};
use crate::types::{Command, CommandModel, User, Username};
use vstd::prelude::*;

verus! {

/// The mathematical value of a database state.
pub enum StateModel {
    Start { username: Seq<char>, album: Entries },
    Roll,
    Album,
    Send,
}

/// What the storage holds that a command needs before it is carried out.
pub enum DatabaseState {
    /// The user who starts, as the storage knows them.
    Start { user: User },
    Roll,
    Album,
    Send,
}

impl View for DatabaseState {
    type V = StateModel;

    open spec fn view(&self) -> StateModel {
        match self {
            DatabaseState::Start { user } => StateModel::Start {
                username: user.username@,
                album: user.album@,
            },
            DatabaseState::Roll => StateModel::Roll,
            DatabaseState::Album => StateModel::Album,
            DatabaseState::Send => StateModel::Send,
        }
    }
}

/// The storage could not be read.
#[derive(Debug)]
pub struct DatabaseError;

/// The state that a command of `username` needs of the ledger: for a start
/// the user's name and album, for the others nothing.
pub open spec fn fetched(ledger: Ledger, command: CommandModel, username: Seq<char>) -> StateModel {
    match command {
        CommandModel::Start => StateModel::Start { username, album: album_of(ledger, username) },
        CommandModel::Roll => StateModel::Roll,
        CommandModel::Album => StateModel::Album,
        CommandModel::Send(_, _, _) => StateModel::Send,
    }
}

/// Reads from the storage what a command of `username` needs.
pub fn fetch<S: Storage>(
    storage: &S,
    command: &Command,
    username: &Username,
) -> (state: Result<DatabaseState, DatabaseError>)
    requires
        storage.valid(),
    ensures
        state matches Ok(found) && found@ == fetched(storage.ledger(), command@, username@),
{
    let state = match command {
        Command::Start => match fetch_user(storage, username) {
            Ok(user) => DatabaseState::Start { user },
            Err(error) => {
                return Err(error);
            },
        },
        Command::Roll => DatabaseState::Roll,
        Command::Album => DatabaseState::Album,
        Command::Send(_, _, _) => DatabaseState::Send,
    };
    Ok(state)
}

fn fetch_user<S: Storage>(storage: &S, username: &Username) -> (user: Result<User, DatabaseError>)
    requires
        storage.valid(),
    ensures
        user matches Ok(found) && found@ == (username@, album_of(storage.ledger(), username@)),
{
    let user = storage.get_user(username);
    Ok(user)
}

} // verus!
