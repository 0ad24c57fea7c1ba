//! White space and case in UTF-8 text.
use vstd::prelude::*;

use crate::bstr;

verus! {

/// The length of the white-space character that starts at an index, zero where none does.
pub open spec fn white_at(text: Seq<u8>, at: int) -> int {
    let first = text[at];
    let second = text[at + 1];
    let third = text[at + 2];
    if at < 0 || at >= text.len() {
        0
    } else if (0x09 <= first <= 0x0d) || first == 0x20 {
        1
    } else if at + 1 < text.len() && first == 0xc2 && (second == 0x85 || second == 0xa0) {
        2
    } else if at + 2 < text.len() && ((first == 0xe1 && second == 0x9a && third == 0x80) || (first
        == 0xe2 && second == 0x80 && ((0x80 <= third <= 0x8a) || third == 0xa8 || third == 0xa9
        || third == 0xaf)) || (first == 0xe2 && second == 0x81 && third == 0x9f) || (first == 0xe3
        && second == 0x80 && third == 0x80)) {
        3
    } else {
        0
    }
}

/// The length of the white-space character at the end, zero where none is there.
pub open spec fn white_before(text: Seq<u8>, end: int) -> int {
    if white_at(text.take(end), end - 1) == 1 {
        1
    } else if white_at(text.take(end), end - 2) == 2 {
        2
    } else if white_at(text.take(end), end - 3) == 3 {
        3
    } else {
        0
    }
}

/// The text without white space at its start.
pub open spec fn trimmed_start(text: Seq<u8>) -> Seq<u8>
    decreases text.len(),
{
    let length = white_at(text, 0);
    if length <= 0 || length > text.len() {
        text
    } else {
        trimmed_start(text.skip(length))
    }
}

/// The text without white space at its end.
pub open spec fn trimmed_end(text: Seq<u8>) -> Seq<u8>
    decreases text.len(),
{
    let length = white_before(text, text.len() as int);
    if length <= 0 || length > text.len() {
        text
    } else {
        trimmed_end(text.take(text.len() - length))
    }
}

/// The text without white space around it.
pub open spec fn trimmed(text: Seq<u8>) -> Seq<u8> {
    trimmed_end(trimmed_start(text))
}

fn white_length(text: &[u8], at: usize) -> (length: usize)
    requires
        at < text@.len(),
    ensures
        length == white_at(text@, at as int),
        at + length <= text@.len(),
{
    let left: usize = text.len() - at;
    let first = text[at];
    if (0x09 <= first && first <= 0x0d) || first == 0x20 {
        return 1;
    }
    if left < 2 {
        return 0;
    }
    let second = text[at + 1];
    if first == 0xc2 && (second == 0x85 || second == 0xa0) {
        return 2;
    }
    if left < 3 {
        return 0;
    }
    let third = text[at + 2];
    if (first == 0xe1 && second == 0x9a && third == 0x80) || (first == 0xe2 && second == 0x80 && ((
    0x80 <= third && third <= 0x8a) || third == 0xa8 || third == 0xa9 || third == 0xaf)) || (first
        == 0xe2 && second == 0x81 && third == 0x9f) || (first == 0xe3 && second == 0x80 && third
        == 0x80) {
        3
    } else {
        0
    }
}

fn white_length_before(text: &[u8]) -> (length: usize)
    ensures
        length == white_before(text@, text@.len() as int),
        length <= text@.len(),
{
    let end: usize = text.len();
    assert(text@.take(end as int) =~= text@);
    if end >= 1 && white_length(text, end - 1) == 1 {
        return 1;
    }
    if end >= 2 && white_length(text, end - 2) == 2 {
        return 2;
    }
    if end >= 3 && white_length(text, end - 3) == 3 {
        return 3;
    }
    0
}

/// The text without white space around it.
pub fn trim(text: &[u8]) -> (rest: &[u8])
    ensures
        rest@ == trimmed(text@),
{
    let mut front = text;
    while front.len() > 0
        invariant_except_break
            trimmed_start(front@) == trimmed_start(text@),
        ensures
            front@ == trimmed_start(text@),
        decreases front@.len(),
    {
        let length: usize = white_length(front, 0);
        if length == 0 {
            break;
        }
        front = bstr::skip(front, length);
    }
    let mut rest = front;
    while rest.len() > 0
        invariant_except_break
            trimmed_end(rest@) == trimmed_end(front@),
        ensures
            rest@ == trimmed_end(front@),
        decreases rest@.len(),
    {
        let length: usize = white_length_before(rest);
        if length == 0 {
            break;
        }
        rest = bstr::take(rest, rest.len() - length);
    }
    rest
}

/// The text without a byte.
pub open spec fn without(text: Seq<u8>, byte: u8) -> Seq<u8>
    decreases text.len(),
{
    if text.len() == 0 {
        Seq::empty()
    } else if text.last() == byte {
        without(text.drop_last(), byte)
    } else {
        without(text.drop_last(), byte).push(text.last())
    }
}

/// The text without a byte.
pub fn remove(text: &[u8], byte: u8) -> (rest: Vec<u8>)
    ensures
        rest@ == without(text@, byte),
{
    let mut rest: Vec<u8> = Vec::new();
    let mut index: usize = 0;
    while index < text.len()
        invariant
            index <= text@.len(),
            rest@ == without(text@.take(index as int), byte),
        decreases text@.len() - index,
    {
        assert(text@.take(index + 1).drop_last() =~= text@.take(index as int));
        assert(text@.take(index + 1).last() == text@[index as int]);
        if text[index] != byte {
            rest.push(text[index]);
        }
        index += 1;
    }
    assert(text@.take(index as int) =~= text@);
    rest
}

/// Spaces alone.
pub open spec fn spaces(count: nat) -> Seq<u8> {
    Seq::new(count, |at: int| 0x20u8)
}

proof fn lemma_trimmed_start(count: nat, core: Seq<u8>)
    requires
        core.len() > 0,
        0x20 < core[0] < 0x80,
    ensures
        trimmed_start(spaces(count) + core) == core,
    decreases count,
{
    let whole = spaces(count) + core;
    if count == 0 {
        assert(whole =~= core);
        assert(white_at(core, 0) == 0);
    } else {
        assert(whole[0] == 0x20);
        assert(whole.skip(1) =~= spaces((count - 1) as nat) + core);
        lemma_trimmed_start((count - 1) as nat, core);
    }
}

proof fn lemma_trimmed_end(count: nat, core: Seq<u8>)
    requires
        core.len() > 0,
        0x20 < core.last() < 0x80,
    ensures
        trimmed_end(core + spaces(count)) == core,
    decreases count,
{
    let whole = core + spaces(count);
    let end = whole.len() as int;
    assert(whole.take(end) =~= whole);
    if count == 0 {
        assert(whole =~= core);
        assert(white_at(core, end - 1) == 0);
        assert(white_at(core, end - 2) != 2);
        assert(white_at(core, end - 3) != 3);
        assert(white_before(core, end) == 0);
    } else {
        assert(whole[end - 1] == 0x20);
        assert(white_at(whole, end - 1) == 1);
        assert(whole.take(end - 1) =~= core + spaces((count - 1) as nat));
        lemma_trimmed_end((count - 1) as nat, core);
    }
}

/// Spaces around a text are trimmed away, and nothing of the text is.
pub proof fn law_trimming_keeps_the_text(before: nat, core: Seq<u8>, after: nat)
    requires
        core.len() > 0,
        0x20 < core[0] < 0x80,
        0x20 < core.last() < 0x80,
    ensures
        trimmed(spaces(before) + core + spaces(after)) == core,
        trimmed(core) == core,
{
    assert(spaces(before) + core + spaces(after) =~= spaces(before) + (core + spaces(after)));
    lemma_trimmed_start(before, core + spaces(after));
    lemma_trimmed_end(after, core);
    lemma_trimmed_start(0, core);
    lemma_trimmed_end(0, core);
    assert(spaces(0) + core =~= core);
    assert(core + spaces(0) =~= core);
}

/// Taking a byte out of a text takes it out of each part, keeps what does not hold it, and leaves
/// nothing of what holds only it.
pub proof fn law_taking_out(first: Seq<u8>, second: Seq<u8>, byte: u8)
    ensures
        without(first + second, byte) == without(first, byte) + without(second, byte),
        (forall|at: int| 0 <= at < first.len() ==> first[at] != byte) ==> without(first, byte)
            == first,
        (forall|at: int| 0 <= at < first.len() ==> first[at] == byte) ==> without(first, byte)
            == Seq::<u8>::empty(),
    decreases first.len() + second.len(),
{
    if second.len() > 0 {
        let shorter = second.drop_last();
        law_taking_out(first, shorter, byte);
        assert((first + second).drop_last() =~= first + shorter);
        assert((first + second).last() == second.last());
        assert(without(first + second, byte) =~= without(first, byte) + without(second, byte));
    } else {
        assert(first + second =~= first);
        assert(without(first, byte) + without(second, byte) =~= without(first, byte));
        if first.len() > 0 {
            let shorter = first.drop_last();
            law_taking_out(shorter, Seq::empty(), byte);
            assert(forall|at: int| 0 <= at < shorter.len() ==> shorter[at] == first[at]);
            assert(shorter.push(first.last()) =~= first);
        }
    }
}

} // verus!
