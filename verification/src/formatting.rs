use vstd::prelude::*;
use vstd::string::StringExecFns;

use crate::ui::editing::push_char;

verus! {

/// The decimal digit of `d`, for `d` below ten.
pub open spec fn digit_char(d: nat) -> char {
    if d == 0 {
        '0'
    } else if d == 1 {
        '1'
    } else if d == 2 {
        '2'
    } else if d == 3 {
        '3'
    } else if d == 4 {
        '4'
    } else if d == 5 {
        '5'
    } else if d == 6 {
        '6'
    } else if d == 7 {
        '7'
    } else if d == 8 {
        '8'
    } else {
        '9'
    }
}

/// `n` written in decimal, without leading zeros.
pub open spec fn decimal(n: nat) -> Seq<char>
    decreases n,
{
    if n < 10 {
        seq![digit_char(n)]
    } else {
        decimal(n / 10).push(digit_char(n % 10))
    }
}

pub fn digit(d: usize) -> (c: char)
    requires
        d < 10,
    ensures
        c == digit_char(d as nat),
{
    if d == 0 {
        '0'
    } else if d == 1 {
        '1'
    } else if d == 2 {
        '2'
    } else if d == 3 {
        '3'
    } else if d == 4 {
        '4'
    } else if d == 5 {
        '5'
    } else if d == 6 {
        '6'
    } else if d == 7 {
        '7'
    } else if d == 8 {
        '8'
    } else {
        '9'
    }
}

/// `value` written in decimal.
pub fn decimal_text(value: u64) -> (text: String)
    ensures
        text@ == decimal(value as nat),
    decreases value,
{
    if value < 10 {
        let mut text = String::new();
        push_char(&mut text, digit(value as usize));
        text
    } else {
        let mut text = decimal_text(value / 10);
        push_char(&mut text, digit((value % 10) as usize));
        text
    }
}

/// The debug text of a card rank, as `Debug` writes a one-field tuple struct: `CardRank(3)`.
pub open spec fn rank_debug_text(rank: nat) -> Seq<char> {
    "CardRank("@ + decimal(rank) + ")"@
}

/// The debug text of a card rank; see `rank_debug_text`.
pub fn card_rank_text(rank: usize) -> (text: String)
    ensures
        text@ == rank_debug_text(rank as nat),
{
    let mut text = String::from_str("CardRank(");
    let digits = decimal_text(rank as u64);
    text.append(digits.as_str());
    text.append(")");
    text
}

} // verus!
