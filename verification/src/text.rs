//! Numbers in decimal digits and texts padded to a width, as the disassembler
//! writes them.

use vstd::prelude::*;
use vstd::string::*;

verus! {

/// The character of a decimal digit.
pub open spec fn digit(d: nat) -> char
    recommends
        d < 10,
{
    if d == 0 {
        '0'
    } else if d == 1 {
        '1'
    } else if d == 2 {
        '2'
    } else if d == 3 {
        '3'
    } else if d == 4 {
        '4'
    } else if d == 5 {
        '5'
    } else if d == 6 {
        '6'
    } else if d == 7 {
        '7'
    } else if d == 8 {
        '8'
    } else {
        '9'
    }
}

/// The decimal digits of a number, without leading zeros.
pub open spec fn decimal(n: nat) -> Seq<char>
    decreases n,
{
    if n < 10 {
        seq![digit(n)]
    } else {
        decimal(n / 10).push(digit(n % 10))
    }
}

/// `count` times the character `c`.
pub open spec fn repeated(c: char, count: nat) -> Seq<char> {
    Seq::new(count, |i: int| c)
}

/// What is missing from `len` to `width`.
pub open spec fn missing(len: nat, width: nat) -> nat {
    if len < width {
        (width - len) as nat
    } else {
        0
    }
}

/// The decimal digits of a number, with zeros before them up to `width`
/// characters.
pub open spec fn zero_padded(n: nat, width: nat) -> Seq<char> {
    repeated('0', missing(decimal(n).len(), width)) + decimal(n)
}

/// A text with spaces after it up to `width` characters.
pub open spec fn left_aligned(text: Seq<char>, width: nat) -> Seq<char> {
    text + repeated(' ', missing(text.len(), width))
}

/// A text with spaces before it up to `width` characters.
pub open spec fn right_aligned(text: Seq<char>, width: nat) -> Seq<char> {
    repeated(' ', missing(text.len(), width)) + text
}

/// The digit that a character stands for; 10 for a character that is no digit.
pub open spec fn digit_value(c: char) -> nat {
    if c == '0' {
        0
    } else if c == '1' {
        1
    } else if c == '2' {
        2
    } else if c == '3' {
        3
    } else if c == '4' {
        4
    } else if c == '5' {
        5
    } else if c == '6' {
        6
    } else if c == '7' {
        7
    } else if c == '8' {
        8
    } else if c == '9' {
        9
    } else {
        10
    }
}

/// The number that a sequence of decimal digits denotes.
pub open spec fn denoted(digits: Seq<char>) -> nat
    decreases digits.len(),
{
    if digits.len() == 0 {
        0
    } else {
        denoted(digits.drop_last()) * 10 + digit_value(digits.last())
    }
}

/// The decimal digits of a number are digits, at least one of them, they
/// denote the number, and only those of zero begin with a zero.
pub proof fn lemma_decimal_denotes(n: nat)
    ensures
        decimal(n).len() >= 1,
        forall|i: int| 0 <= i < decimal(n).len() ==> digit_value(#[trigger] decimal(n)[i]) < 10,
        denoted(decimal(n)) == n,
        n > 0 ==> decimal(n)[0] != '0',
    decreases n,
{
    if n < 10 {
        assert(decimal(n).drop_last() =~= Seq::<char>::empty());
        assert(denoted(decimal(n)) == denoted(decimal(n).drop_last()) * 10 + digit_value(
            decimal(n).last(),
        ));
    } else {
        lemma_decimal_denotes(n / 10);
        assert(decimal(n).drop_last() =~= decimal(n / 10));
        assert(decimal(n)[0] == decimal(n / 10)[0]);
    }
}

fn digit_text(d: usize) -> (text: &'static str)
    requires
        d < 10,
    ensures
        text@ == seq![digit(d as nat)],
{
    proof {
        reveal_strlit("0");
        reveal_strlit("1");
        reveal_strlit("2");
        reveal_strlit("3");
        reveal_strlit("4");
        reveal_strlit("5");
        reveal_strlit("6");
        reveal_strlit("7");
        reveal_strlit("8");
        reveal_strlit("9");
    }
    let text = if d == 0 {
        "0"
    } else if d == 1 {
        "1"
    } else if d == 2 {
        "2"
    } else if d == 3 {
        "3"
    } else if d == 4 {
        "4"
    } else if d == 5 {
        "5"
    } else if d == 6 {
        "6"
    } else if d == 7 {
        "7"
    } else if d == 8 {
        "8"
    } else {
        "9"
    };
    assert(text@ =~= seq![digit(d as nat)]);
    text
}

/// Writes a number in decimal digits.
pub fn decimal_text(n: usize) -> (text: String)
    ensures
        text@ == decimal(n as nat),
    decreases n,
{
    if n < 10 {
        String::from_str(digit_text(n))
    } else {
        let mut text = decimal_text(n / 10);
        text.append(digit_text(n % 10));
        assert(text@ =~= decimal(n as nat));
        text
    }
}

/// `count` times the one character of `unit`.
fn repeated_text(unit: &str, count: usize) -> (text: String)
    requires
        unit@.len() == 1,
    ensures
        text@ == repeated(unit@[0], count as nat),
{
    let mut text = String::new();
    let mut done: usize = 0;
    while done < count
        invariant
            done <= count,
            unit@.len() == 1,
            text@ == repeated(unit@[0], done as nat),
        decreases count - done,
    {
        text.append(unit);
        done += 1;
        assert(text@ =~= repeated(unit@[0], done as nat));
    }
    text
}

fn missing_count(text: &str, width: usize) -> (count: usize)
    ensures
        count == missing(text@.len(), width as nat),
{
    let len = text.unicode_len();
    if len < width {
        width - len
    } else {
        0
    }
}

/// Writes a number in decimal digits, with zeros before them up to `width`
/// characters.
pub fn zero_padded_text(n: usize, width: usize) -> (text: String)
    ensures
        text@ == zero_padded(n as nat, width as nat),
{
    let digits = decimal_text(n);
    proof {
        reveal_strlit("0");
    }
    let mut text = repeated_text("0", missing_count(digits.as_str(), width));
    text.append(digits.as_str());
    text
}

/// Copies a text and writes spaces after it up to `width` characters.
pub fn left_aligned_text(text: &str, width: usize) -> (aligned: String)
    ensures
        aligned@ == left_aligned(text@, width as nat),
{
    proof {
        reveal_strlit(" ");
    }
    let mut aligned = String::from_str(text);
    let padding = repeated_text(" ", missing_count(text, width));
    aligned.append(padding.as_str());
    aligned
}

/// Copies a text and writes spaces before it up to `width` characters.
pub fn right_aligned_text(text: &str, width: usize) -> (aligned: String)
    ensures
        aligned@ == right_aligned(text@, width as nat),
{
    proof {
        reveal_strlit(" ");
    }
    let mut aligned = repeated_text(" ", missing_count(text, width));
    aligned.append(text);
    aligned
}

} // verus!
