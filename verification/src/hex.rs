//! Hexadecimal text.
use vstd::prelude::*;
use vstd::string::*;

use crate::bstr;

verus! {

/// The lower-case hexadecimal digit of a number below 16.
pub open spec fn digit(value: int) -> char {
    if value < 10 {
        (0x30 + value) as char
    } else {
        (0x57 + value) as char
    }
}

/// Two lower-case hexadecimal digits for each byte.
pub open spec fn hex_text(data: Seq<u8>) -> Seq<char>
    decreases data.len(),
{
    if data.len() == 0 {
        Seq::empty()
    } else {
        hex_text(data.drop_last()).push(digit(data.last() as int / 16)).push(
            digit(data.last() as int % 16),
        )
    }
}

/// The value of a hexadecimal digit, where the byte is one.
pub open spec fn digit_value(byte: u8, upper: bool) -> Option<int> {
    if 0x30 <= byte <= 0x39 {
        Some(byte - 0x30)
    } else if 0x61 <= byte <= 0x66 {
        Some(byte - 0x57)
    } else if upper && 0x41 <= byte <= 0x46 {
        Some(byte - 0x37)
    } else {
        None
    }
}

/// Every byte of a text is a hexadecimal digit.
pub open spec fn all_digits(text: Seq<u8>, upper: bool) -> bool {
    forall|at: int| 0 <= at < text.len() ==> digit_value(#[trigger] text[at], upper) is Some
}

/// The bytes that pairs of hexadecimal digits stand for.
pub open spec fn bytes_of(text: Seq<u8>, upper: bool) -> Seq<u8> {
    Seq::new(
        (text.len() / 2) as nat,
        |at: int|
            (16 * digit_value(text[2 * at], upper)->0 + digit_value(text[2 * at + 1], upper)->0) as u8,
    )
}

/// The bytes that a text of pairs of hexadecimal digits stands for.
pub open spec fn decoded(text: Seq<u8>, upper: bool) -> Option<Seq<u8>> {
    if text.len() % 2 == 0 && all_digits(text, upper) {
        Some(bytes_of(text, upper))
    } else {
        None
    }
}

fn digit_text(value: u8) -> (text: &'static str)
    requires
        value < 16,
    ensures
        text@ == seq![digit(value as int)],
{
    proof {
        reveal_strlit("0");
        reveal_strlit("1");
        reveal_strlit("2");
        reveal_strlit("3");
        reveal_strlit("4");
        reveal_strlit("5");
        reveal_strlit("6");
        reveal_strlit("7");
        reveal_strlit("8");
        reveal_strlit("9");
        reveal_strlit("a");
        reveal_strlit("b");
        reveal_strlit("c");
        reveal_strlit("d");
        reveal_strlit("e");
        reveal_strlit("f");
    }
    let text = match value {
        0 => "0",
        1 => "1",
        2 => "2",
        3 => "3",
        4 => "4",
        5 => "5",
        6 => "6",
        7 => "7",
        8 => "8",
        9 => "9",
        10 => "a",
        11 => "b",
        12 => "c",
        13 => "d",
        14 => "e",
        _ => "f",
    };
    assert(text@ =~= seq![digit(value as int)]);
    text
}

/// The lower-case hexadecimal text of a byte string.
pub fn encode(data: &[u8]) -> (text: String)
    ensures
        text@ == hex_text(data@),
{
    let mut text = String::new();
    let mut index: usize = 0;
    assert(data@.take(0) =~= Seq::empty());
    while index < data.len()
        invariant
            index <= data.len(),
            text@ == hex_text(data@.take(index as int)),
        decreases data.len() - index,
    {
        let ghost before = text@;
        assert(data@.take(index + 1).drop_last() =~= data@.take(index as int));
        assert(data@.take(index + 1).last() == data@[index as int]);
        text.append(digit_text(data[index] / 16));
        text.append(digit_text(data[index] % 16));
        assert(text@ =~= before.push(digit(data@[index as int] as int / 16)).push(
            digit(data@[index as int] as int % 16),
        ));
        index += 1;
    }
    assert(data@.take(index as int) =~= data@);
    text
}

/// The bytes of the lower-case hexadecimal text of a byte string.
pub fn encode_bytes(data: &[u8]) -> (text: Vec<u8>)
    ensures
        text@ == bstr::utf8(hex_text(data@)),
        text@.len() == 2 * data@.len(),
{
    let text = encode(data);
    proof {
        lemma_hex_bytes(data@);
    }
    bstr::from_str(text.as_str())
}

/// The value of a hexadecimal digit, where the byte is one.
pub fn nibble(byte: u8, upper: bool) -> (value: Option<u8>)
    ensures
        match value {
            Some(found) => digit_value(byte, upper) == Some(found as int) && found < 16,
            None => digit_value(byte, upper) is None,
        },
{
    if 0x30 <= byte && byte <= 0x39 {
        Some(byte - 0x30)
    } else if 0x61 <= byte && byte <= 0x66 {
        Some(byte - 0x57)
    } else if upper && 0x41 <= byte && byte <= 0x46 {
        Some(byte - 0x37)
    } else {
        None
    }
}

/// Every byte of a text is a hexadecimal digit.
pub fn is_hex(text: &[u8], upper: bool) -> (yes: bool)
    ensures
        yes == all_digits(text@, upper),
{
    let mut index: usize = 0;
    while index < text.len()
        invariant
            index <= text.len(),
            forall|at: int| 0 <= at < index ==> digit_value(#[trigger] text@[at], upper) is Some,
        decreases text.len() - index,
    {
        if nibble(text[index], upper).is_none() {
            assert(digit_value(text@[index as int], upper) is None);
            return false;
        }
        index += 1;
    }
    true
}

/// The bytes that a text of pairs of hexadecimal digits stands for.
pub fn decode(text: &[u8], upper: bool) -> (data: Option<Vec<u8>>)
    ensures
        bstr::opt_view(data) == decoded(text@, upper),
{
    if text.len() % 2 != 0 || !is_hex(text, upper) {
        return None;
    }
    let mut data: Vec<u8> = Vec::new();
    let mut index: usize = 0;
    while index < text.len() / 2
        invariant
            index <= text.len() / 2,
            text.len() % 2 == 0,
            all_digits(text@, upper),
            data@ =~= bytes_of(text@, upper).take(index as int),
        decreases text.len() / 2 - index,
    {
        assert(digit_value(text@[2 * index], upper) is Some);
        assert(digit_value(text@[2 * index + 1], upper) is Some);
        let high = nibble(text[2 * index], upper);
        let low = nibble(text[2 * index + 1], upper);
        match (high, low) {
            (Some(first), Some(second)) => {
                data.push(16 * first + second);
            },
            _ => {
                return None;
            },
        }
        index += 1;
    }
    assert(data@ =~= bytes_of(text@, upper));
    Some(data)
}

/// The 32 bytes that a text of 64 hexadecimal digits stands for.
pub fn decode_32(text: &[u8], upper: bool) -> (data: Option<[u8; 32]>)
    ensures
        match data {
            Some(bytes) => text@.len() == 64 && decoded(text@, upper) == Some(bytes@),
            None => text@.len() != 64 || decoded(text@, upper) is None,
        },
{
    if text.len() != 64 {
        return None;
    }
    match decode(text, upper) {
        None => None,
        Some(bytes) => {
            let mut data: [u8; 32] = [0;32];
            let mut index: usize = 0;
            while index < 32
                invariant
                    index <= 32,
                    bytes@.len() == 32,
                    data@.len() == 32,
                    forall|at: int| 0 <= at < index ==> data@[at] == bytes@[at],
                decreases 32 - index,
            {
                data[index] = bytes[index];
                index += 1;
            }
            assert(data@ =~= bytes@);
            Some(data)
        },
    }
}

/// The UTF-8 bytes of hexadecimal text are the codes of its digits.
pub proof fn lemma_hex_bytes(data: Seq<u8>)
    ensures
        bstr::utf8(hex_text(data)).len() == 2 * data.len(),
        forall|at: int|
            0 <= at < 2 * data.len() ==> #[trigger] bstr::utf8(hex_text(data))[at]
                == hex_text(data)[at] as u8,
        hex_text(data).len() == 2 * data.len(),
        forall|at: int|
            0 <= at < data.len() ==> hex_text(data)[2 * at] == digit(
                #[trigger] data[at] as int / 16,
            ),
        forall|at: int|
            0 <= at < data.len() ==> hex_text(data)[2 * at + 1] == digit(
                #[trigger] data[at] as int % 16,
            ),
{
    reveal(bstr::utf8);
    lemma_hex_text(data);
    assert(vstd::utf8::is_ascii_chars(hex_text(data))) by {
        assert forall|at: int| 0 <= at < hex_text(data).len() implies 0 <= #[trigger] hex_text(
            data,
        )[at] as int <= 127 by {
            let byte = data[at / 2];
            if at % 2 == 0 {
                assert(hex_text(data)[2 * (at / 2)] == digit(byte as int / 16));
            } else {
                assert(hex_text(data)[2 * (at / 2) + 1] == digit(byte as int % 16));
            }
        }
    }
    vstd::utf8::is_ascii_chars_encode_utf8(hex_text(data));
}

proof fn lemma_hex_text(data: Seq<u8>)
    ensures
        hex_text(data).len() == 2 * data.len(),
        forall|at: int|
            0 <= at < data.len() ==> hex_text(data)[2 * at] == digit(
                #[trigger] data[at] as int / 16,
            ),
        forall|at: int|
            0 <= at < data.len() ==> hex_text(data)[2 * at + 1] == digit(
                #[trigger] data[at] as int % 16,
            ),
    decreases data.len(),
{
    if data.len() > 0 {
        let front = data.drop_last();
        lemma_hex_text(front);
        assert forall|at: int| 0 <= at < data.len() implies hex_text(data)[2 * at] == digit(
            #[trigger] data[at] as int / 16,
        ) && hex_text(data)[2 * at + 1] == digit(data[at] as int % 16) by {
            if at < front.len() {
                assert(front[at] == data[at]);
                assert(hex_text(front)[2 * at] == digit(front[at] as int / 16));
            }
        }
    }
}

/// What is written in hexadecimal reads back as it was.
pub proof fn law_hex_round_trip(data: Seq<u8>, upper: bool)
    ensures
        decoded(bstr::utf8(hex_text(data)), upper) == Some(data),
{
    let text = bstr::utf8(hex_text(data));
    lemma_hex_bytes(data);
    assert forall|at: int| 0 <= at < text.len() implies digit_value(#[trigger] text[at], upper)
        is Some by {
        let byte = data[at / 2];
        if at % 2 == 0 {
            assert(hex_text(data)[2 * (at / 2)] == digit(byte as int / 16));
        } else {
            assert(hex_text(data)[2 * (at / 2) + 1] == digit(byte as int % 16));
        }
    }
    assert forall|at: int| 0 <= at < data.len() implies #[trigger] bytes_of(text, upper)[at]
        == data[at] by {
        assert(hex_text(data)[2 * at] == digit(data[at] as int / 16));
        assert(hex_text(data)[2 * at + 1] == digit(data[at] as int % 16));
        assert(text[2 * at] == hex_text(data)[2 * at] as u8);
        assert(text[2 * at + 1] == hex_text(data)[2 * at + 1] as u8);
    }
    assert(bytes_of(text, upper) =~= data);
}

/// Different byte strings have different hexadecimal texts.
pub proof fn law_hex_injective(left: Seq<u8>, right: Seq<u8>)
    requires
        hex_text(left) == hex_text(right),
    ensures
        left == right,
{
    law_hex_round_trip(left, false);
    law_hex_round_trip(right, false);
}

/// The digits are those of sixteen, in lower case, and the high half of a byte stands first.
pub proof fn law_hex_digits(data: Seq<u8>, at: int)
    requires
        0 <= at < data.len(),
    ensures
        hex_text(data).len() == 2 * data.len(),
        ({
            let high = data[at] as int / 16;
            let low = data[at] as int % 16;
            &&& hex_text(data)[2 * at] as int == (if high < 10 {
                0x30 + high
            } else {
                0x61 + (high - 10)
            })
            &&& hex_text(data)[2 * at + 1] as int == (if low < 10 {
                0x30 + low
            } else {
                0x61 + (low - 10)
            })
        }),
    decreases data.len(),
{
    if data.len() > 1 {
        if at < data.len() - 1 {
            law_hex_digits(data.drop_last(), at);
        } else {
            law_hex_digits(data.drop_last(), at - 1);
        }
    } else {
        assert(data.drop_last() =~= Seq::empty());
        assert(hex_text(data.drop_last()).len() == 0);
    }
}

/// A text is decoded exactly where it has an even number of digits, and each is a decimal digit or a
/// letter from `a` to `f`, in upper case only where that is admitted.
pub proof fn law_which_texts_are_hex(text: Seq<u8>, upper: bool)
    ensures
        decoded(text, upper) is Some <==> text.len() % 2 == 0 && forall|at: int|
            0 <= at < text.len() ==> (0x30 <= #[trigger] text[at] <= 0x39) || (0x61 <= text[at]
                <= 0x66) || (upper && 0x41 <= text[at] <= 0x46),
        decoded(text, upper) matches Some(data) ==> data.len() * 2 == text.len(),
{
}

} // verus!
