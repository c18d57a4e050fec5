use emoji_album::parsers::parse_username;
use emoji_album::numbers::{decimal_text, parse_quantity};
use emoji_album::text::{begins_with, chars_of, split_at_char, trim_text};
use emoji_album::types::Command;

const SEND_FORMAT: &str = "To send emojis to someone follow the format `/send QUANTITY EMOJI @USERNAME` like `/send 3 ðŸ˜ @coolusername`. The quantity is optional.";
const NOT_A_NUMBER: &str = "The quantity parameter should be a integer number, for example: 3";
const NO_USERNAME: &str = "/send username cannot be empty. To send emojis to someone follow the format: `/send QUANTITY EMOJI @USERNAME`";
const NOT_FOUND: &str = "Command not found. Type or press / to see all available commands.";

fn send(emoji: &str, quantity: usize, username: &str) -> Result<Command, &'static str> {
    Ok(Command::Send(emoji.to_string(), quantity, username.to_string()))
}

#[test]
fn the_plain_commands_are_read() {
    assert_eq!(Command::parse("/start"), Ok(Command::Start));
    assert_eq!(Command::parse("/roll"), Ok(Command::Roll));
    assert_eq!(Command::parse("/album"), Ok(Command::Album));
}

#[test]
fn the_plain_commands_take_nothing_after_them() {
    assert_eq!(Command::parse("/start now"), Err("/start command accepts no arguments"));
    assert_eq!(Command::parse("/start "), Err("/start command accepts no arguments"));
    assert_eq!(Command::parse("/rolling"), Err("/roll command accepts no arguments"));
    assert_eq!(Command::parse("/album 1"), Err("/album command accepts no arguments"));
}

#[test]
fn what_is_no_command_is_not_found() {
    assert_eq!(Command::parse(""), Err(NOT_FOUND));
    assert_eq!(Command::parse("hello"), Err(NOT_FOUND));
    assert_eq!(Command::parse(" /start"), Err(NOT_FOUND));
    assert_eq!(Command::parse("/star"), Err(NOT_FOUND));
    assert_eq!(Command::parse("/Start"), Err(NOT_FOUND));
}

#[test]
fn send_with_an_emoji_and_a_username_sends_one() {
    assert_eq!(Command::parse("/send 🐶 @bob"), send("🐶", 1, "bob"));
    assert_eq!(Command::parse("/send 🐶 bob"), send("🐶", 1, "bob"));
}

#[test]
fn send_with_a_quantity_sends_that_many() {
    assert_eq!(Command::parse("/send 3 🐶 @bob"), send("🐶", 3, "bob"));
    assert_eq!(Command::parse("/send 0 🐶 @bob"), send("🐶", 0, "bob"));
    assert_eq!(Command::parse("/send +12 🐍 @@bob"), send("🐍", 12, "@bob"));
}

#[test]
fn send_takes_the_last_piece_as_the_username() {
    assert_eq!(Command::parse("/send 2 🐶 to @bob"), send("🐶", 2, "bob"));
    assert_eq!(Command::parse("/send 2  @bob"), send("", 2, "bob"));
}

#[test]
fn send_with_too_few_pieces_shows_the_format() {
    assert_eq!(Command::parse("/send"), Err(SEND_FORMAT));
    assert_eq!(Command::parse("/send 🐶"), Err(SEND_FORMAT));
    assert_eq!(Command::parse("/send🐶 @bob"), Err(SEND_FORMAT));
}

#[test]
fn send_with_a_quantity_that_is_no_number_says_so() {
    assert_eq!(Command::parse("/send three 🐶 @bob"), Err(NOT_A_NUMBER));
    assert_eq!(Command::parse("/send -1 🐶 @bob"), Err(NOT_A_NUMBER));
    assert_eq!(Command::parse("/send  🐶 @bob"), Err(NOT_A_NUMBER));
    assert_eq!(Command::parse("/send 99999999999999999999999999 🐶 @bob"), Err(NOT_A_NUMBER));
}

#[test]
fn send_with_an_empty_username_says_so() {
    assert_eq!(Command::parse("/send 🐶 "), Err(NO_USERNAME));
    assert_eq!(Command::parse("/send 1 🐶 "), Err(NO_USERNAME));
}

#[test]
fn the_quantity_is_judged_before_the_username() {
    assert_eq!(Command::parse("/send x 🐶 "), Err(NOT_A_NUMBER));
}

#[test]
fn try_from_reads_as_parse_does() {
    assert_eq!(Command::try_from("/roll"), Ok(Command::Roll));
    assert_eq!(Command::try_from("/send 4 🐱 @carol"), send("🐱", 4, "carol"));
    assert_eq!(Command::try_from("nothing"), Err(NOT_FOUND));
}

#[test]
fn a_username_loses_one_leading_at_sign() {
    assert_eq!(parse_username("@bob"), Ok("bob".to_string()));
    assert_eq!(parse_username("bob"), Ok("bob".to_string()));
    assert_eq!(parse_username("@@bob"), Ok("@bob".to_string()));
    assert_eq!(parse_username("@"), Ok("".to_string()));
    assert_eq!(parse_username("é@x"), Ok("é@x".to_string()));
    assert_eq!(parse_username(""), Err(NO_USERNAME));
}

#[test]
fn a_quantity_is_decimal_digits_after_an_optional_plus() {
    assert_eq!(parse_quantity("0"), Some(0));
    assert_eq!(parse_quantity("7"), Some(7));
    assert_eq!(parse_quantity("007"), Some(7));
    assert_eq!(parse_quantity("+42"), Some(42));
    assert_eq!(parse_quantity("1234567890"), Some(1234567890));
    assert_eq!(parse_quantity(""), None);
    assert_eq!(parse_quantity("+"), None);
    assert_eq!(parse_quantity("-3"), None);
    assert_eq!(parse_quantity("++3"), None);
    assert_eq!(parse_quantity("3+"), None);
    assert_eq!(parse_quantity("1 2"), None);
    assert_eq!(parse_quantity("12a"), None);
    assert_eq!(parse_quantity("٣"), None);
}

#[test]
fn a_quantity_is_read_as_std_reads_it() {
    let largest = usize::MAX.to_string();
    assert_eq!(parse_quantity(&largest), Some(usize::MAX));
    let too_large = format!("{}0", largest);
    assert_eq!(parse_quantity(&too_large), None);
    for text in ["", "+", "-", "+0", "-0", "00", "18446744073709551616", "4x", " 4", "4 "] {
        assert_eq!(parse_quantity(text), text.parse::<usize>().ok());
    }
}

#[test]
fn a_number_is_written_in_decimal() {
    assert_eq!(decimal_text(0), "0");
    assert_eq!(decimal_text(9), "9");
    assert_eq!(decimal_text(10), "10");
    assert_eq!(decimal_text(1234567890), "1234567890");
    assert_eq!(decimal_text(usize::MAX), usize::MAX.to_string());
}

#[test]
fn a_text_is_split_at_each_separator() {
    assert_eq!(split_at_char("a b", ' '), vec!["a", "b"]);
    assert_eq!(split_at_char("a  b ", ' '), vec!["a", "", "b", ""]);
    assert_eq!(split_at_char(" a", ' '), vec!["", "a"]);
    assert_eq!(split_at_char("", ' '), vec![""]);
    assert_eq!(split_at_char("🐶,Pets,x", ','), vec!["🐶", "Pets", "x"]);
    assert_eq!(split_at_char("no separator", ','), vec!["no separator"]);
}

#[test]
fn a_text_is_trimmed_of_white_space_around_it() {
    assert_eq!(trim_text("  a b \n"), "a b");
    assert_eq!(trim_text("\t\r\n"), "");
    assert_eq!(trim_text(""), "");
    assert_eq!(trim_text("plain"), "plain");
    assert_eq!(trim_text("\u{3000}🐶\u{a0}"), "🐶");
}

#[test]
fn the_characters_of_a_text_are_its_chars() {
    assert_eq!(chars_of("a🐶é"), vec!['a', '🐶', 'é']);
    assert_eq!(chars_of(""), vec![]);
}

#[test]
fn a_text_begins_with_its_prefixes_only() {
    let text = chars_of("/send 🐶 @bob");
    assert!(begins_with(&text, "/send"));
    assert!(begins_with(&text, ""));
    assert!(begins_with(&text, "/send 🐶 @bob"));
    assert!(!begins_with(&text, "/send 🐶 @bob!"));
    assert!(!begins_with(&text, "send"));
    assert!(!begins_with(&text, "/sent"));
}
