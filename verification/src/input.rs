//! What the user types: a line of text, a number, a choice from the menu.

use vstd::prelude::*;
use crate::text::{string_of, to_chars, trim, trim_range};

verus! {

/// `c` is one of the ten decimal digits.
pub open spec fn is_digit(c: char) -> bool {
    '0' <= c && c <= '9'
}

/// The number that the digit `c` stands for.
pub open spec fn digit_value(c: char) -> nat {
    if is_digit(c) {
        (c as u32 - '0' as u32) as nat
    } else {
        0
    }
}

/// The number that `digits` spell in decimal notation.
pub open spec fn decimal_value(digits: Seq<char>) -> nat
    decreases digits.len(),
{
    if digits.len() == 0 {
        0
    } else {
        10 * decimal_value(digits.drop_last()) + digit_value(digits.last())
    }
}

/// `s` is one decimal digit or more, and nothing else.
pub open spec fn is_number(s: Seq<char>) -> bool {
    s.len() > 0 && forall|i: int| 0 <= i < s.len() ==> is_digit(#[trigger] s[i])
}

/// `s` without the plus sign that it may start with.
pub open spec fn after_sign(s: Seq<char>) -> Seq<char> {
    if s.len() > 0 && s[0] == '+' {
        s.drop_first()
    } else {
        s
    }
}

/// The number that the user typed: the trimmed input, read as an optional
/// plus sign and decimal digits, where that gives a number that a `usize`
/// holds. Every other input counts as zero, which is no row and no column.
pub open spec fn parsed_index(input: Seq<char>) -> nat {
    let digits = after_sign(trim(input));
    if is_number(digits) && decimal_value(digits) <= usize::MAX {
        decimal_value(digits)
    } else {
        0
    }
}

/// The digits read so far never spell more than all of them.
pub proof fn lemma_decimal_value_prefix(digits: Seq<char>, k: int)
    requires
        0 <= k <= digits.len(),
    ensures
        decimal_value(digits.take(k)) <= decimal_value(digits),
    decreases digits.len() - k,
{
    if k < digits.len() {
        lemma_decimal_value_prefix(digits, k + 1);
        assert(digits.take(k + 1).drop_last() =~= digits.take(k));
    } else {
        assert(digits.take(k) =~= digits);
    }
}

/// The line that the user typed, without the white space around it.
pub fn get_user_input_string(line: &str) -> (input: String)
    ensures
        input@ == trim(line@),
{
    let chars = to_chars(line);
    assert(chars@.subrange(0, chars.len() as int) =~= line@);
    let bounds = trim_range(&chars, 0, chars.len());
    string_of(&chars, bounds.0, bounds.1)
}

/// The number that the user typed, or zero where `line` holds no number.
pub fn get_user_input(line: &str) -> (value: usize)
    ensures
        value == parsed_index(line@),
{
    let chars = to_chars(line);
    assert(chars@.subrange(0, chars.len() as int) =~= line@);
    let bounds = trim_range(&chars, 0, chars.len());
    let hi: usize = bounds.1;
    let mut i: usize = bounds.0;
    let ghost trimmed = chars@.subrange(bounds.0 as int, hi as int);
    if i < hi && chars[i] == '+' {
        i += 1;
    }
    let start: usize = i;
    let ghost digits = chars@.subrange(start as int, hi as int);
    assert(digits =~= after_sign(trimmed));
    if i == hi {
        return 0;
    }
    let mut value: usize = 0;
    while i < hi
        invariant
            start <= i <= hi <= chars.len(),
            start < hi,
            digits == chars@.subrange(start as int, hi as int),
            digits == after_sign(trim(line@)),
            forall|j: int| 0 <= j < i - start ==> is_digit(#[trigger] digits[j]),
            value == decimal_value(digits.take(i - start)),
        decreases hi - i,
    {
        let c = chars[i];
        assert(c == digits[i - start]);
        if c < '0' || c > '9' {
            return 0;
        }
        let digit: usize = (c as u32 - '0' as u32) as usize;
        proof {
            assert(digits.take(i - start + 1).drop_last() =~= digits.take(i - start));
            assert(digits.take(i - start + 1).last() == c);
            assert(decimal_value(digits.take(i - start + 1)) == 10 * value + digit);
        }
        if value > (usize::MAX - digit) / 10 {
            proof {
                lemma_decimal_value_prefix(digits, i - start + 1);
            }
            return 0;
        }
        value = value * 10 + digit;
        i += 1;
    }
    assert(digits.take(i - start) =~= digits);
    value
}

/// What the user can ask for from the menu.
#[derive(Debug, Clone, Copy, PartialEq, Eq, Structural)]
pub enum Command {
    /// Show every row.
    DisplayAll,
    /// Show a range of rows.
    Paginate,
    /// Remove a row.
    DeleteRow,
    /// Change a cell.
    ModifyField,
    /// Write the table to a file.
    Save,
    /// Leave the editor.
    Exit,
}

/// The command that stands under number `choice` in the menu, if any does.
pub open spec fn command_of(choice: int) -> Option<Command> {
    if choice == 1 {
        Some(Command::DisplayAll)
    } else if choice == 2 {
        Some(Command::Paginate)
    } else if choice == 3 {
        Some(Command::DeleteRow)
    } else if choice == 4 {
        Some(Command::ModifyField)
    } else if choice == 5 {
        Some(Command::Save)
    } else if choice == 6 {
        Some(Command::Exit)
    } else {
        None
    }
}

/// The command that the user chose by typing the number `choice`; `None` for
/// a number that the menu does not offer.
pub fn menu_command(choice: usize) -> (command: Option<Command>)
    ensures
        command == command_of(choice as int),
{
    match choice {
        1 => Some(Command::DisplayAll),
        2 => Some(Command::Paginate),
        3 => Some(Command::DeleteRow),
        4 => Some(Command::ModifyField),
        5 => Some(Command::Save),
        6 => Some(Command::Exit),
        _ => None,
    }
}

} // verus!
