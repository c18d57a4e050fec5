//! Reading a message as a command.

use crate::numbers::{parse_quantity, parsed_quantity};
use crate::text::{
    begins_with, chars_of, lemma_split_nonempty, split, split_at_char, starts_with,
};
use crate::types::{Command, CommandModel};
use vstd::prelude::*;

verus! {

/// What the sender of `/start` with more after it is told.
pub open spec fn start_arguments_text() -> Seq<char> {
    "/start command accepts no arguments"@
}

/// What the sender of `/roll` with more after it is told.
pub open spec fn roll_arguments_text() -> Seq<char> {
    "/roll command accepts no arguments"@
}

/// What the sender of `/album` with more after it is told.
pub open spec fn album_arguments_text() -> Seq<char> {
    "/album command accepts no arguments"@
}

/// What the sender of `/send` with too few parameters is told.
pub open spec fn send_format_text() -> Seq<char> {
    "To send emojis to someone follow the format `/send QUANTITY EMOJI @USERNAME` like `/send 3 ðŸ˜ @coolusername`. The quantity is optional."@
}

/// What the sender of `/send` with a quantity that is no number is told.
pub open spec fn quantity_text() -> Seq<char> {
    "The quantity parameter should be a integer number, for example: 3"@
}

/// What the sender of `/send` with an empty username is told.
pub open spec fn username_text() -> Seq<char> {
    "/send username cannot be empty. To send emojis to someone follow the format: `/send QUANTITY EMOJI @USERNAME`"@
}

/// What the sender of anything else is told.
pub open spec fn unknown_command_text() -> Seq<char> {
    "Command not found. Type or press / to see all available commands."@
}

/// The username that a text names: the text itself, without one leading
/// `@`. An empty text names none.
pub open spec fn parsed_username(text: Seq<char>) -> Result<Seq<char>, Seq<char>> {
    if text.len() == 0 {
        Err(username_text())
    } else if text[0] == '@' {
        Ok(text.skip(1))
    } else {
        Ok(text)
    }
}

/// What a message that begins with `/send` asks for. Its parameters are the
/// pieces between spaces after the first: an emoji and a username, or a
/// quantity, an emoji and a username; the username is the last piece.
pub open spec fn parsed_send(message: Seq<char>) -> Result<CommandModel, Seq<char>> {
    let params = split(message, ' ').skip(1);
    if params.len() < 2 {
        Err(send_format_text())
    } else {
        let emoji = if params.len() == 2 {
            params[0]
        } else {
            params[1]
        };
        let quantity = if params.len() == 2 {
            Some(1usize)
        } else {
            parsed_quantity(params[0])
        };
        match quantity {
            None => Err(quantity_text()),
            Some(quantity) => match parsed_username(params.last()) {
                Err(text) => Err(text),
                Ok(username) => Ok(CommandModel::Send(emoji, quantity as nat, username)),
            },
        }
    }
}

/// What a message asks for, or what its sender is told instead. The
/// beginning of the message decides which command it is.
pub open spec fn parsed(message: Seq<char>) -> Result<CommandModel, Seq<char>> {
    if starts_with(message, "/start"@) {
        if message == "/start"@ {
            Ok(CommandModel::Start)
        } else {
            Err(start_arguments_text())
        }
    } else if starts_with(message, "/roll"@) {
        if message == "/roll"@ {
            Ok(CommandModel::Roll)
        } else {
            Err(roll_arguments_text())
        }
    } else if starts_with(message, "/album"@) {
        if message == "/album"@ {
            Ok(CommandModel::Album)
        } else {
            Err(album_arguments_text())
        }
    } else if starts_with(message, "/send"@) {
        parsed_send(message)
    } else {
        Err(unknown_command_text())
    }
}

/// The value of what the parser returns.
pub open spec fn parse_view(result: Result<Command, &str>) -> Result<CommandModel, Seq<char>> {
    match result {
        Ok(command) => Ok(command@),
        Err(text) => Err(text@),
    }
}

/// The value of what the username parser returns.
pub open spec fn username_view(result: Result<String, &str>) -> Result<Seq<char>, Seq<char>> {
    match result {
        Ok(username) => Ok(username@),
        Err(text) => Err(text@),
    }
}

impl Command {
    /// Reads a message as a command.
    pub fn parse(message: &str) -> (result: Result<Self, &'static str>)
        ensures
            parse_view(result) == parsed(message@),
    {
        <Self as TryFrom<&str>>::try_from(message)
    }

    /// Reads a message that begins with `/start`: it must end there.
    fn parse_start(message: &str) -> (result: Result<Self, &'static str>)
        ensures
            parse_view(result) == if message@ == "/start"@ {
                Ok(CommandModel::Start)
            } else {
                Err(start_arguments_text())
            },
    {
        if !message.eq("/start") {
            return Err("/start command accepts no arguments");
        }
        return Ok(Self::Start);
    }

    /// Reads a message that begins with `/roll`: it must end there.
    fn parse_roll(message: &str) -> (result: Result<Self, &'static str>)
        ensures
            parse_view(result) == if message@ == "/roll"@ {
                Ok(CommandModel::Roll)
            } else {
                Err(roll_arguments_text())
            },
    {
        if !message.eq("/roll") {
            return Err("/roll command accepts no arguments");
        }
        return Ok(Self::Roll);
    }

    /// Reads a message that begins with `/album`: it must end there.
    fn parse_album(message: &str) -> (result: Result<Self, &'static str>)
        ensures
            parse_view(result) == if message@ == "/album"@ {
                Ok(CommandModel::Album)
            } else {
                Err(album_arguments_text())
            },
    {
        if !message.eq("/album") {
            return Err("/album command accepts no arguments");
        }
        return Ok(Self::Album);
    }

    /// Reads a message that begins with `/send`.
    fn parse_send(message: &str) -> (result: Result<Self, &'static str>)
        ensures
            parse_view(result) == parsed_send(message@),
    {
        let pieces = split_at_char(message, ' ');
        proof {
            lemma_split_nonempty(message@, ' ');
        }
        let ghost params = split(message@, ' ').skip(1);
        assert forall|i: int| 0 <= i < params.len() implies #[trigger] params[i]
            == pieces@[i + 1]@ by {}
        if pieces.len() < 3 {
            return Err(
                "To send emojis to someone follow the format `/send QUANTITY EMOJI @USERNAME` like `/send 3 ðŸ˜ @coolusername`. The quantity is optional.",
            );
        }
        let emoji;
        let quantity = if pieces.len() == 3 {
            emoji = pieces[1].clone();
            1
        } else {
            emoji = pieces[2].clone();
            match parse_quantity(pieces[1].as_str()) {
                Some(quantity) => quantity,
                None => {
                    return Err("The quantity parameter should be a integer number, for example: 3");
                },
            }
        };
        let username = match parse_username(pieces[pieces.len() - 1].as_str()) {
            Ok(username) => username,
            Err(text) => {
                return Err(text);
            },
        };
        return Ok(Self::Send(emoji, quantity, username));
    }
}

impl TryFrom<&str> for Command {
    type Error = &'static str;

    /// Reads a message as the command that its beginning names.
    fn try_from(message: &str) -> (result: Result<Self, &'static str>)
        ensures
            parse_view(result) == parsed(message@),
    {
        let chars = chars_of(message);
        if begins_with(&chars, "/start") {
            return Command::parse_start(message);
        }
        if begins_with(&chars, "/roll") {
            return Command::parse_roll(message);
        }
        if begins_with(&chars, "/album") {
            return Command::parse_album(message);
        }
        if begins_with(&chars, "/send") {
            return Command::parse_send(message);
        }
        Err("Command not found. Type or press / to see all available commands.")
    }
}

/// The conversion is specified by the contract of `try_from` itself, over
/// the values of the message and of the result.
impl vstd::std_specs::convert::TryFromSpecImpl<&str> for Command {
    open spec fn obeys_try_from_spec() -> bool {
        false
    }

    open spec fn try_from_spec(message: &str) -> Result<Self, &'static str> {
        arbitrary()
    }
}

/// Reads a text as a username.
pub fn parse_username(text: &str) -> (result: Result<String, &'static str>)
    ensures
        username_view(result) == parsed_username(text@),
{
    if text.is_empty() {
        return Err(
            "/send username cannot be empty. To send emojis to someone follow the format: `/send QUANTITY EMOJI @USERNAME`",
        );
    }
    if text.get_char(0) == '@' {
        let rest = text.substring_char(1, text.unicode_len());
        return Ok(rest.to_owned());
    }
    Ok(text.to_owned())
}

} // verus!
