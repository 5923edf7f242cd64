//! Numbers as text.

use crate::ast::texts_view;
use vstd::prelude::*;
use vstd::string::StringExecFns;

verus! {

/// The character of a decimal digit.
pub open spec fn digit_char(digit: nat) -> char {
    ('0' as nat + digit) as char
}

/// A number in decimal.
pub open spec fn decimal(number: nat) -> Seq<char>
    decreases number,
{
    if number < 10 {
        seq![digit_char(number)]
    } else {
        decimal(number / 10).push(digit_char(number % 10))
    }
}

/// The text of a decimal digit.
fn digit_text(digit: u64) -> (text: &'static str)
    requires
        digit < 10,
    ensures
        text@ == seq![digit_char(digit as nat)],
{
    proof {
        reveal_strlit("0");
        reveal_strlit("1");
        reveal_strlit("2");
        reveal_strlit("3");
        reveal_strlit("4");
        reveal_strlit("5");
        reveal_strlit("6");
        reveal_strlit("7");
        reveal_strlit("8");
        reveal_strlit("9");
    }
    let text = match digit {
        0 => "0",
        1 => "1",
        2 => "2",
        3 => "3",
        4 => "4",
        5 => "5",
        6 => "6",
        7 => "7",
        8 => "8",
        _ => "9",
    };
    assert(text@ =~= seq![digit_char(digit as nat)]);
    text
}

/// A number in decimal.
pub fn wide_text(number: u128) -> (text: String)
    ensures
        text@ == decimal(number as nat),
    decreases number,
{
    if number < 10 {
        String::from_str(digit_text(number as u64))
    } else {
        let mut text = wide_text(number / 10);
        let ghost before = text@;
        text.append(digit_text((number % 10) as u64));
        assert(text@ =~= before.push(digit_char((number % 10) as nat)));
        text
    }
}

/// A number in decimal.
pub fn decimal_text(number: u64) -> (text: String)
    ensures
        text@ == decimal(number as nat),
{
    wide_text(number as u128)
}

/// A number in decimal, with a sign if it is negative.
pub open spec fn signed_decimal(number: int) -> Seq<char> {
    if number < 0 {
        "-"@ + decimal((-number) as nat)
    } else {
        decimal(number as nat)
    }
}

/// A number in decimal, with a sign if it is negative.
pub fn signed_text(number: i128) -> (text: String)
    ensures
        text@ == signed_decimal(number as int),
{
    if number < 0 {
        let rest: u128 = (-(number + 1)) as u128;
        let mut text = String::from_str("-");
        text.append(wide_text(rest + 1).as_str());
        text
    } else {
        wide_text(number as u128)
    }
}

/// The first of some texts, with a separator between each two.
pub open spec fn joined(texts: Seq<Seq<char>>, separator: Seq<char>, count: nat) -> Seq<char>
    decreases count,
{
    if count == 0 || count > texts.len() {
        Seq::empty()
    } else if count == 1 {
        texts[0]
    } else {
        joined(texts, separator, (count - 1) as nat) + separator + texts[count - 1]
    }
}

/// Texts with a separator between each two.
pub fn join_texts(texts: &Vec<String>, separator: &str) -> (text: String)
    ensures
        text@ == joined(texts_view(texts@), separator@, texts@.len()),
{
    let ghost all = texts_view(texts@);
    if texts.len() == 0 {
        return String::new();
    }
    let mut text = texts[0].clone();
    for i in 1..texts.len()
        invariant
            texts@.len() >= 1,
            all == texts_view(texts@),
            text@ == joined(all, separator@, i as nat),
    {
        text.append(separator);
        text.append(texts[i].as_str());
    }
    text
}

/// A character as a text. It calls `String::from` of std on the character, which
/// gives the text that holds this one character.
#[verifier::external_body]
pub(crate) fn char_text(value: char) -> (text: String)
    ensures
        text@ == seq![value],
{
    String::from(value)
}

} // verus!
