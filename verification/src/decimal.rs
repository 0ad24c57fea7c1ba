//! Decimal numbers as text.
use vstd::prelude::*;

use crate::bstr;

verus! {

/// The byte `0`.
pub const ZERO: u8 = 0x30;

/// The decimal digits of a number.
pub open spec fn digits(value: nat) -> Seq<u8>
    decreases value,
{
    if value < 10 {
        seq![(ZERO + value) as u8]
    } else {
        digits(value / 10).push((ZERO + value % 10) as u8)
    }
}

/// A number of zeros.
pub open spec fn zeros(count: int) -> Seq<u8> {
    Seq::new(
        if count > 0 {
            count as nat
        } else {
            0
        },
        |at: int| ZERO,
    )
}

/// The decimal digits of a number, with zeros in front where they are fewer than `width`.
pub open spec fn padded(value: nat, width: nat) -> Seq<u8> {
    zeros(width - digits(value).len()) + digits(value)
}

/// Appends the decimal digits of a number.
pub fn push(target: &mut Vec<u8>, value: u64)
    ensures
        final(target)@ == old(target)@ + digits(value as nat),
    decreases value,
{
    let ghost start = target@;
    if value >= 10 {
        push(target, value / 10);
    }
    target.push(ZERO + (value % 10) as u8);
    assert(target@ =~= start + digits(value as nat));
}

/// Appends the decimal digits of a number, with zeros in front where they are fewer than eight.
pub fn push_padded(target: &mut Vec<u8>, value: u64)
    ensures
        final(target)@ == old(target)@ + padded(value as nat, 8),
{
    let ghost start = target@;
    let mut text: Vec<u8> = Vec::new();
    push(&mut text, value);
    assert(text@ =~= digits(value as nat));
    let mut length: usize = text.len();
    while length < 8
        invariant
            text@ == digits(value as nat),
            text.len() <= length,
            length <= 8 || length == text.len(),
            target@ =~= start + zeros(length - text.len()),
        decreases 8 - length,
    {
        target.push(ZERO);
        length += 1;
    }
    bstr::append(target, text.as_slice());
    assert(target@ =~= start + padded(value as nat, 8));
}

/// Every byte of a text is a decimal digit.
pub open spec fn all_digits(text: Seq<u8>) -> bool {
    forall|at: int| 0 <= at < text.len() ==> bstr::is_digit(#[trigger] text[at])
}

/// The number that decimal digits stand for.
pub open spec fn number(text: Seq<u8>) -> nat
    decreases text.len(),
{
    if text.len() == 0 {
        0
    } else {
        10 * number(text.drop_last()) + (text.last() - ZERO) as nat
    }
}

/// The number that a text of decimal digits stands for, where it is at most `limit`.
pub open spec fn parsed(text: Seq<u8>, limit: nat) -> Option<nat> {
    if text.len() > 0 && all_digits(text) && number(text) <= limit {
        Some(number(text))
    } else {
        None
    }
}

proof fn lemma_number_grows(text: Seq<u8>, count: int)
    requires
        0 <= count <= text.len(),
        all_digits(text),
    ensures
        number(text.take(count)) <= number(text),
    decreases text.len() - count,
{
    if count < text.len() {
        let longer = text.take(count + 1);
        assert(longer.drop_last() =~= text.take(count));
        assert(bstr::is_digit(text[count]));
        lemma_number_grows(text, count + 1);
    } else {
        assert(text.take(count) =~= text);
    }
}

/// Reads a number of at most `limit`.
pub fn parse(text: &[u8], limit: u64) -> (value: Option<u64>)
    ensures
        match value {
            Some(found) => parsed(text@, limit as nat) == Some(found as nat),
            None => parsed(text@, limit as nat) is None,
        },
{
    if text.len() == 0 {
        return None;
    }
    let mut index: usize = 0;
    while index < text.len()
        invariant
            index <= text.len(),
            forall|at: int| 0 <= at < index ==> bstr::is_digit(#[trigger] text@[at]),
        decreases text.len() - index,
    {
        if text[index] < ZERO || text[index] > 0x39 {
            assert(!bstr::is_digit(text@[index as int]));
            return None;
        }
        index += 1;
    }
    let mut total: u64 = 0;
    let mut place: usize = 0;
    assert(text@.take(0) =~= Seq::empty());
    while place < text.len()
        invariant
            place <= text.len(),
            all_digits(text@),
            total == number(text@.take(place as int)),
            total <= limit,
        decreases text.len() - place,
    {
        let ghost longer = text@.take(place + 1);
        assert(bstr::is_digit(text@[place as int]));
        let digit: u64 = (text[place] - ZERO) as u64;
        proof {
            assert(longer.drop_last() =~= text@.take(place as int));
            assert(longer.last() == text@[place as int]);
            lemma_number_grows(text@, place + 1);
        }
        if digit > limit || total > (limit - digit) / 10 {
            assert(number(longer) > limit);
            return None;
        }
        total = total * 10 + digit;
        place += 1;
    }
    assert(text@.take(place as int) =~= text@);
    Some(total)
}

/// The digits of a number are decimal digits, and there is at least one.
pub proof fn lemma_digits(value: nat)
    ensures
        digits(value).len() > 0,
        all_digits(digits(value)),
    decreases value,
{
    if value >= 10 {
        lemma_digits(value / 10);
    }
}

/// Padding adds decimal digits only.
pub proof fn lemma_padded(value: nat, width: nat)
    ensures
        padded(value, width).len() > 0,
        all_digits(padded(value, width)),
{
    lemma_digits(value);
}

/// The digits of a number, and zeros in front of them, stand for that number. Numbers with the same
/// digits are the same.
pub proof fn law_digits_stand_for_their_number(value: nat, count: int)
    ensures
        number(digits(value)) == value,
        number(zeros(count) + digits(value)) == value,
    decreases value,
{
    let text = digits(value);
    let long = zeros(count) + text;
    assert(long.last() == text.last());
    if value >= 10 {
        law_digits_stand_for_their_number(value / 10, count);
        assert(text.drop_last() =~= digits(value / 10));
        assert(long.drop_last() =~= zeros(count) + digits(value / 10));
    } else {
        assert(text.drop_last() =~= Seq::empty());
        assert(number(text.drop_last()) == 0);
        assert(long.drop_last() =~= zeros(count));
        lemma_zeros(count);
    }
}

proof fn lemma_zeros(count: int)
    ensures
        number(zeros(count)) == 0,
    decreases count,
{
    if count > 0 {
        assert(zeros(count).drop_last() =~= zeros(count - 1));
        lemma_zeros(count - 1);
    }
}

} // verus!
