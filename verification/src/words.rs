//! The words of messages.
use vstd::prelude::*;

use crate::bstr;
use crate::decimal;

verus! {

/// A number in decimal digits.
pub open spec fn number_text(value: nat) -> Seq<char> {
    decimal::digits(value).map_values(|digit: u8| digit as char)
}

fn digit_text(digit: u8) -> (text: &'static str)
    requires
        digit < 10,
    ensures
        text@ == seq![(decimal::ZERO + digit) as u8 as char],
{
    proof {
        reveal_strlit("0");
        reveal_strlit("1");
        reveal_strlit("2");
        reveal_strlit("3");
        reveal_strlit("4");
        reveal_strlit("5");
        reveal_strlit("6");
        reveal_strlit("7");
        reveal_strlit("8");
        reveal_strlit("9");
    }
    let text = match digit {
        0 => "0",
        1 => "1",
        2 => "2",
        3 => "3",
        4 => "4",
        5 => "5",
        6 => "6",
        7 => "7",
        8 => "8",
        _ => "9",
    };
    assert(text@ =~= seq![(decimal::ZERO + digit) as u8 as char]);
    text
}

/// A number in decimal digits.
pub fn number(value: u64) -> (text: String)
    ensures
        text@ == number_text(value as nat),
    decreases value,
{
    let last = digit_text((value % 10) as u8);
    if value >= 10 {
        let text = number(value / 10).concat(last);
        assert(text@ =~= number_text(value as nat));
        text
    } else {
        assert(last@ =~= number_text(value as nat));
        last.to_owned()
    }
}

/// A byte string as a list of numbers, from `index` on.
pub open spec fn numbers_text(bytes: Seq<u8>, index: int) -> Seq<char>
    decreases bytes.len() - index,
{
    if index >= bytes.len() {
        "]"@
    } else if index == 0 {
        number_text(bytes[index] as nat) + numbers_text(bytes, index + 1)
    } else {
        ", "@ + (number_text(bytes[index] as nat) + numbers_text(bytes, index + 1))
    }
}

/// A byte string as a list of numbers.
pub open spec fn list_text(bytes: Seq<u8>) -> Seq<char> {
    "["@ + numbers_text(bytes, 0)
}

/// A byte string as a list of numbers.
pub fn list(bytes: &[u8]) -> (text: String)
    ensures
        text@ == list_text(bytes@),
{
    let mut text = "[".to_owned();
    let mut index: usize = 0;
    while index < bytes.len()
        invariant
            index <= bytes@.len(),
            text@ + numbers_text(bytes@, index as int) =~= list_text(bytes@),
        decreases bytes@.len() - index,
    {
        if index > 0 {
            text.append(", ");
        }
        text.append(number(bytes[index] as u64).as_str());
        index += 1;
    }
    text.append("]");
    text
}

/// A byte string as text, with a mark in place of what is no text.
pub uninterp spec fn lossy_text(bytes: Seq<u8>) -> Seq<char>;

/// Calls `String::from_utf8_lossy`. The claim is that the text is determined by the bytes, and that
/// bytes that are UTF-8 are those of the text. How marks stand for other bytes is left unsaid.
#[verifier::external_body]
pub(crate) fn lossy(bytes: &[u8]) -> (text: String)
    ensures
        text@ == lossy_text(bytes@),
        bstr::is_utf8(bytes@) ==> bstr::utf8(text@) == bytes@,
{
    String::from_utf8_lossy(bytes).into_owned()
}

/// Two pieces of a message, one after the other.
pub fn two(first: &str, second: &str) -> (text: String)
    ensures
        text@ == first@ + second@,
{
    first.to_owned().concat(second)
}

/// Three pieces of a message, one after the other.
pub fn three(first: &str, second: &str, third: &str) -> (text: String)
    ensures
        text@ == first@ + second@ + third@,
{
    first.to_owned().concat(second).concat(third)
}

/// Four pieces of a message, one after the other.
pub fn four(first: &str, second: &str, third: &str, fourth: &str) -> (text: String)
    ensures
        text@ == first@ + second@ + third@ + fourth@,
{
    first.to_owned().concat(second).concat(third).concat(fourth)
}

/// Five pieces of a message, one after the other.
pub fn five(first: &str, second: &str, third: &str, fourth: &str, fifth: &str) -> (text: String)
    ensures
        text@ == first@ + second@ + third@ + fourth@ + fifth@,
{
    first.to_owned().concat(second).concat(third).concat(fourth).concat(fifth)
}

} // verus!
