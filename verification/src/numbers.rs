//! Quantities as decimal text, written and read.

use crate::text::chars_of;
use vstd::prelude::*;

verus! {

/// The character for a digit below ten.
pub open spec fn digit(value: nat) -> char {
    if value == 0 {
        '0'
    } else if value == 1 {
        '1'
    } else if value == 2 {
        '2'
    } else if value == 3 {
        '3'
    } else if value == 4 {
        '4'
    } else if value == 5 {
        '5'
    } else if value == 6 {
        '6'
    } else if value == 7 {
        '7'
    } else if value == 8 {
        '8'
    } else {
        '9'
    }
}

/// A number in decimal digits, without leading zeros.
pub open spec fn decimal(number: nat) -> Seq<char>
    decreases number,
{
    if number < 10 {
        seq![digit(number)]
    } else {
        decimal(number / 10).push(digit(number % 10))
    }
}

/// The value of a decimal digit.
pub open spec fn digit_value(c: char) -> Option<nat> {
    if c == '0' {
        Some(0)
    } else if c == '1' {
        Some(1)
    } else if c == '2' {
        Some(2)
    } else if c == '3' {
        Some(3)
    } else if c == '4' {
        Some(4)
    } else if c == '5' {
        Some(5)
    } else if c == '6' {
        Some(6)
    } else if c == '7' {
        Some(7)
    } else if c == '8' {
        Some(8)
    } else if c == '9' {
        Some(9)
    } else {
        None
    }
}

/// The number that decimal digits stand for: none where another character
/// is among them.
pub open spec fn digits_value(digits: Seq<char>) -> Option<nat>
    decreases digits.len(),
{
    if digits.len() == 0 {
        Some(0)
    } else {
        match (digits_value(digits.drop_last()), digit_value(digits.last())) {
            (Some(value), Some(unit)) => Some(10 * value + unit),
            _ => None,
        }
    }
}

/// The quantity that a text stands for: decimal digits, one at least, after
/// an optional `+`, with a value that a machine word holds.
pub open spec fn parsed_quantity(text: Seq<char>) -> Option<usize> {
    let digits = if text.len() > 0 && text[0] == '+' {
        text.skip(1)
    } else {
        text
    };
    if digits.len() == 0 {
        None
    } else {
        match digits_value(digits) {
            Some(value) => if value <= usize::MAX {
                Some(value as usize)
            } else {
                None
            },
            None => None,
        }
    }
}

/// A quantity written in decimal is read back as itself.
pub proof fn lemma_decimal_reads_back(number: nat)
    ensures
        decimal(number).len() > 0,
        decimal(number)[0] != '+',
        digits_value(decimal(number)) == Some(number),
        number <= usize::MAX ==> parsed_quantity(decimal(number)) == Some(number as usize),
    decreases number,
{
    if number < 10 {
        assert(decimal(number).drop_last() =~= Seq::<char>::empty());
        assert(digits_value(decimal(number).drop_last()) == Some(0nat));
    } else {
        lemma_decimal_reads_back(number / 10);
        assert(decimal(number).drop_last() =~= decimal(number / 10));
        assert(decimal(number)[0] == decimal(number / 10)[0]);
    }
}

fn digit_text(value: usize) -> (text: &'static str)
    requires
        value < 10,
    ensures
        text@ == seq![digit(value as nat)],
{
    proof {
        reveal_strlit("0");
        reveal_strlit("1");
        reveal_strlit("2");
        reveal_strlit("3");
        reveal_strlit("4");
        reveal_strlit("5");
        reveal_strlit("6");
        reveal_strlit("7");
        reveal_strlit("8");
        reveal_strlit("9");
    }
    let text = if value == 0 {
        "0"
    } else if value == 1 {
        "1"
    } else if value == 2 {
        "2"
    } else if value == 3 {
        "3"
    } else if value == 4 {
        "4"
    } else if value == 5 {
        "5"
    } else if value == 6 {
        "6"
    } else if value == 7 {
        "7"
    } else if value == 8 {
        "8"
    } else {
        "9"
    };
    text
}

/// A number in decimal digits, without leading zeros.
pub fn decimal_text(number: usize) -> (text: String)
    ensures
        text@ == decimal(number as nat),
    decreases number,
{
    if number < 10 {
        digit_text(number).to_owned()
    } else {
        let mut text = decimal_text(number / 10);
        text.append(digit_text(number % 10));
        text
    }
}

proof fn lemma_digits_prefix(digits: Seq<char>, n: int)
    requires
        0 <= n <= digits.len(),
    ensures
        digits_value(digits.take(n)) is None ==> digits_value(digits) is None,
        digits_value(digits) is Some ==> digits_value(digits.take(n))->0 <= digits_value(digits)->0,
    decreases digits.len() - n,
{
    if n == digits.len() {
        assert(digits.take(n) =~= digits);
    } else {
        assert(digits.take(n + 1).drop_last() =~= digits.take(n));
        lemma_digits_prefix(digits, n + 1);
    }
}

fn digit_of(c: char) -> (value: Option<usize>)
    ensures
        match value {
            Some(unit) => digit_value(c) == Some(unit as nat) && unit < 10,
            None => digit_value(c) is None,
        },
{
    if c == '0' {
        Some(0)
    } else if c == '1' {
        Some(1)
    } else if c == '2' {
        Some(2)
    } else if c == '3' {
        Some(3)
    } else if c == '4' {
        Some(4)
    } else if c == '5' {
        Some(5)
    } else if c == '6' {
        Some(6)
    } else if c == '7' {
        Some(7)
    } else if c == '8' {
        Some(8)
    } else if c == '9' {
        Some(9)
    } else {
        None
    }
}

/// The quantity that a text stands for.
pub fn parse_quantity(text: &str) -> (quantity: Option<usize>)
    ensures
        quantity == parsed_quantity(text@),
{
    let chars = chars_of(text);
    let first: usize = if chars.len() > 0 && chars[0] == '+' {
        1
    } else {
        0
    };
    let ghost digits = if first == 1 {
        text@.skip(1)
    } else {
        text@
    };
    if first == chars.len() {
        return None;
    }
    let mut value: usize = 0;
    let mut i: usize = first;
    while i < chars.len()
        invariant
            first <= i <= chars@.len(),
            first <= 1,
            chars@ == text@,
            digits.len() == chars@.len() - first,
            forall|j: int| first <= j < chars@.len() ==> digits[j - first] == chars@[j],
            parsed_quantity(text@) == match digits_value(digits) {
                Some(whole) => if whole <= usize::MAX {
                    Some(whole as usize)
                } else {
                    None
                },
                None => None,
            },
            digits_value(digits.take(i - first)) == Some(value as nat),
        decreases chars@.len() - i,
    {
        let ghost upto = digits.take(i - first + 1);
        assert(upto.drop_last() =~= digits.take(i - first));
        proof {
            lemma_digits_prefix(digits, i - first + 1);
        }
        let unit = match digit_of(chars[i]) {
            Some(unit) => unit,
            None => {
                return None;
            },
        };
        let tens = match value.checked_mul(10) {
            Some(tens) => tens,
            None => {
                return None;
            },
        };
        value = match tens.checked_add(unit) {
            Some(sum) => sum,
            None => {
                return None;
            },
        };
        i = i + 1;
    }
    assert(digits.take(digits.len() as int) =~= digits);
    Some(value)
}

} // verus!
