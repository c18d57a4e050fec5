//! Texts: comparing them, taking them apart and putting them together.

use vstd::prelude::*;

verus! {

/// `str`'s `==`: two string slices are equal exactly when they hold the same
/// characters.
pub assume_specification[ <str as PartialEq>::eq ](a: &str, b: &str) -> (same: bool)
    ensures
        same == (a@ == b@),
;

/// Whether std counts a character as white space.
pub uninterp spec fn whitespace(c: char) -> bool;

/// `char::is_whitespace`: whether the character is white space. Which
/// characters are is left to std.
pub assume_specification[ char::is_whitespace ](c: char) -> (white: bool)
    ensures
        white == whitespace(c),
;

/// The characters of a text.
pub fn chars_of(text: &str) -> (chars: Vec<char>)
    ensures
        chars@ == text@,
{
    let mut chars: Vec<char> = Vec::new();
    for c in it: text.chars()
        invariant
            it.seq() == text@,
            chars@ == it.seq().take(it.index() as int),
    {
        chars.push(c);
    }
    chars
}

/// Whether `text` begins with `prefix`.
pub open spec fn starts_with(text: Seq<char>, prefix: Seq<char>) -> bool {
    prefix.len() <= text.len() && text.take(prefix.len() as int) == prefix
}

/// Whether `text` begins with `prefix`.
pub fn begins_with(text: &Vec<char>, prefix: &str) -> (begins: bool)
    ensures
        begins == starts_with(text@, prefix@),
{
    let wanted = chars_of(prefix);
    if wanted.len() > text.len() {
        return false;
    }
    let mut i: usize = 0;
    while i < wanted.len()
        invariant
            0 <= i <= wanted@.len(),
            wanted@.len() <= text@.len(),
            wanted@ == prefix@,
            forall|j: int| 0 <= j < i ==> text@[j] == wanted@[j],
        decreases wanted@.len() - i,
    {
        if text[i] != wanted[i] {
            return false;
        }
        i = i + 1;
    }
    assert(text@.take(prefix@.len() as int) =~= prefix@);
    true
}

/// The pieces of `text` between the occurrences of `separator`. A text
/// without the separator is one piece; two separators in a row have an
/// empty piece between them.
pub open spec fn split(text: Seq<char>, separator: char) -> Seq<Seq<char>>
    decreases text.len(),
{
    if text.len() == 0 {
        seq![Seq::empty()]
    } else {
        let earlier = split(text.drop_last(), separator);
        if text.last() == separator {
            earlier.push(Seq::empty())
        } else {
            earlier.drop_last().push(earlier.last().push(text.last()))
        }
    }
}

/// A text has one piece at least.
pub proof fn lemma_split_nonempty(text: Seq<char>, separator: char)
    ensures
        split(text, separator).len() >= 1,
    decreases text.len(),
{
    if text.len() > 0 {
        lemma_split_nonempty(text.drop_last(), separator);
    }
}

/// No piece of a split text holds the separator, and the pieces joined
/// with the separator between them are the text again.
pub proof fn lemma_split_joins_back(text: Seq<char>, separator: char)
    ensures
        forall|k: int, i: int|
            0 <= k < split(text, separator).len() && 0 <= i < split(text, separator)[k].len()
                ==> (#[trigger] split(text, separator)[k][i]) != separator,
        joined(split(text, separator), seq![separator]) == text,
    decreases text.len(),
{
    let pieces = split(text, separator);
    if text.len() == 0 {
        assert(joined(pieces, seq![separator]) =~= text);
    } else {
        let shorter = text.drop_last();
        let earlier = split(shorter, separator);
        lemma_split_joins_back(shorter, separator);
        lemma_split_nonempty(shorter, separator);
        assert(shorter.push(text.last()) =~= text);
        if text.last() == separator {
            assert(pieces.drop_last() =~= earlier);
            assert(joined(pieces, seq![separator]) =~= text);
        } else {
            let grown = earlier.last().push(text.last());
            assert(pieces == earlier.drop_last().push(grown));
            assert(pieces.drop_last() =~= earlier.drop_last());
            assert(joined(pieces, seq![separator]) =~= joined(earlier, seq![separator]).push(
                text.last(),
            ));
            assert forall|k: int, i: int|
                0 <= k < pieces.len() && 0 <= i < pieces[k].len() implies (#[trigger] pieces[k][i])
                != separator by {
                if k < earlier.len() - 1 {
                    assert(pieces[k][i] == earlier[k][i]);
                } else if i < earlier.last().len() {
                    assert(pieces[k][i] == earlier[earlier.len() - 1][i]);
                }
            }
        }
    }
}

/// The pieces of `text` between the occurrences of `separator`.
pub fn split_at_char(text: &str, separator: char) -> (pieces: Vec<String>)
    ensures
        pieces.deep_view() == split(text@, separator),
{
    let chars = chars_of(text);
    let mut pieces: Vec<String> = Vec::new();
    let mut start: usize = 0;
    let mut i: usize = 0;
    assert(pieces.deep_view().push(text@.subrange(0, 0)) =~~= seq![Seq::<char>::empty()]);
    while i < chars.len()
        invariant
            0 <= start <= i <= chars@.len(),
            chars@ == text@,
            split(text@.take(i as int), separator) == pieces.deep_view().push(
                text@.subrange(start as int, i as int),
            ),
        decreases chars@.len() - i,
    {
        let ghost upto = text@.take(i + 1);
        assert(upto.drop_last() =~= text@.take(i as int));
        if chars[i] == separator {
            pieces.push(text.substring_char(start, i).to_owned());
            start = i + 1;
            assert(text@.subrange(start as int, i + 1) =~= Seq::<char>::empty());
        } else {
            assert(text@.subrange(start as int, i + 1) =~= text@.subrange(
                start as int,
                i as int,
            ).push(upto.last()));
        }
        i = i + 1;
    }
    assert(text@.take(chars@.len() as int) =~= text@);
    pieces.push(text.substring_char(start, i).to_owned());
    pieces
}

/// A text without the white space at its beginning.
pub open spec fn trim_start(text: Seq<char>) -> Seq<char>
    decreases text.len(),
{
    if text.len() > 0 && whitespace(text[0]) {
        trim_start(text.skip(1))
    } else {
        text
    }
}

/// A text without the white space at its end.
pub open spec fn trim_end(text: Seq<char>) -> Seq<char>
    decreases text.len(),
{
    if text.len() > 0 && whitespace(text.last()) {
        trim_end(text.drop_last())
    } else {
        text
    }
}

/// A text without the white space at its beginning and at its end.
pub open spec fn trimmed(text: Seq<char>) -> Seq<char> {
    trim_end(trim_start(text))
}

/// A text without the white space at its beginning and at its end.
pub fn trim_text(text: &str) -> (inner: &str)
    ensures
        inner@ == trimmed(text@),
{
    let chars = chars_of(text);
    let mut from: usize = 0;
    assert(text@.skip(0) =~= text@);
    while from < chars.len() && chars[from].is_whitespace()
        invariant
            0 <= from <= chars@.len(),
            chars@ == text@,
            trim_start(text@) == trim_start(text@.skip(from as int)),
        decreases chars@.len() - from,
    {
        assert(text@.skip(from as int).skip(1) =~= text@.skip(from + 1));
        from = from + 1;
    }
    let ghost rest = text@.skip(from as int);
    let mut to: usize = chars.len();
    while to > from && chars[to - 1].is_whitespace()
        invariant
            from <= to <= chars@.len(),
            chars@ == text@,
            trim_end(rest) == trim_end(text@.subrange(from as int, to as int)),
        decreases to,
    {
        assert(text@.subrange(from as int, to as int).drop_last() =~= text@.subrange(
            from as int,
            to - 1,
        ));
        to = to - 1;
    }
    text.substring_char(from, to)
}

/// `part` written `times` times in a row.
pub open spec fn repeated(part: Seq<char>, times: nat) -> Seq<char>
    decreases times,
{
    if times == 0 {
        Seq::empty()
    } else {
        repeated(part, (times - 1) as nat) + part
    }
}

/// `part` written `times` times in a row.
pub fn repeat_text(part: &str, times: usize) -> (text: String)
    ensures
        text@ == repeated(part@, times as nat),
{
    let mut text = String::new();
    let mut done: usize = 0;
    while done < times
        invariant
            0 <= done <= times,
            text@ == repeated(part@, done as nat),
        decreases times - done,
    {
        text.append(part);
        done = done + 1;
    }
    text
}

/// The parts in a row, with `separator` between each two neighbours.
pub open spec fn joined(parts: Seq<Seq<char>>, separator: Seq<char>) -> Seq<char>
    decreases parts.len(),
{
    if parts.len() == 0 {
        Seq::empty()
    } else if parts.len() == 1 {
        parts[0]
    } else {
        joined(parts.drop_last(), separator) + separator + parts.last()
    }
}

/// The parts in a row, with `separator` between each two neighbours.
pub fn concat_with(parts: &Vec<String>, separator: &str) -> (text: String)
    ensures
        text@ == joined(parts.deep_view(), separator@),
{
    let mut text = String::new();
    let mut done: usize = 0;
    while done < parts.len()
        invariant
            0 <= done <= parts@.len(),
            text@ == joined(parts.deep_view().take(done as int), separator@),
        decreases parts@.len() - done,
    {
        if done > 0 {
            text.append(separator);
        }
        text.append(parts[done].as_str());
        proof {
            let upto = parts.deep_view().take(done + 1);
            assert(upto.drop_last() =~= parts.deep_view().take(done as int));
        }
        done = done + 1;
    }
    assert(parts.deep_view().take(parts@.len() as int) =~= parts.deep_view());
    text
}

} // verus!
