//! Byte strings: the form in which arguments, paths and compiler output are handled.
//!
//! Operating-system strings are arbitrary bytes on the supported platforms, so nothing here
//! assumes that a byte string is text.
use vstd::prelude::*;

verus! {

broadcast use vstd::string::group_string_axioms;

/// The UTF-8 bytes of a sequence of characters.
#[verifier::opaque]
pub open spec fn utf8(text: Seq<char>) -> Seq<u8> {
    vstd::utf8::encode_utf8(text)
}

/// The contents of a list of byte strings.
pub open spec fn views(list: Seq<Vec<u8>>) -> Seq<Seq<u8>> {
    list.map_values(|item: Vec<u8>| item@)
}

/// The contents of an optional byte string.
pub open spec fn opt_view(value: Option<Vec<u8>>) -> Option<Seq<u8>> {
    match value {
        Some(bytes) => Some(bytes@),
        None => None,
    }
}

/// `whole` begins with `prefix`.
pub open spec fn has_prefix(whole: Seq<u8>, prefix: Seq<u8>) -> bool {
    prefix.len() <= whole.len() && whole.take(prefix.len() as int) == prefix
}

/// `whole` ends with `suffix`.
pub open spec fn has_suffix(whole: Seq<u8>, suffix: Seq<u8>) -> bool {
    suffix.len() <= whole.len() && whole.skip(whole.len() - suffix.len()) == suffix
}

/// `needle` occurs in `whole` at `at`.
pub open spec fn occurs_at(whole: Seq<u8>, needle: Seq<u8>, at: int) -> bool {
    0 <= at && at + needle.len() <= whole.len() && whole.subrange(at, at + needle.len()) == needle
}

/// `needle` occurs somewhere in `whole`.
pub open spec fn has_infix(whole: Seq<u8>, needle: Seq<u8>) -> bool {
    exists|at: int| #[trigger] occurs_at(whole, needle, at)
}

/// The ASCII lower-case form of a byte.
pub open spec fn lower(byte: u8) -> u8 {
    if 0x41 <= byte <= 0x5a {
        (byte + 0x20) as u8
    } else {
        byte
    }
}

/// The ASCII lower-case form of a byte string.
pub open spec fn lowered(bytes: Seq<u8>) -> Seq<u8> {
    bytes.map_values(|byte: u8| lower(byte))
}

/// Space, tab, line feed, form feed and carriage return.
pub open spec fn is_space(byte: u8) -> bool {
    byte == 0x20 || byte == 0x09 || byte == 0x0a || byte == 0x0c || byte == 0x0d
}

/// An ASCII upper-case letter.
pub open spec fn is_upper(byte: u8) -> bool {
    0x41 <= byte <= 0x5a
}

/// Some byte is an ASCII upper-case letter.
pub open spec fn has_upper(bytes: Seq<u8>) -> bool {
    exists|at: int| 0 <= at < bytes.len() && is_upper(#[trigger] bytes[at])
}

/// An ASCII decimal digit.
pub open spec fn is_digit(byte: u8) -> bool {
    0x30 <= byte <= 0x39
}

/// The lexicographic order of byte strings, in which a proper prefix comes first.
pub open spec fn before(left: Seq<u8>, right: Seq<u8>) -> bool
    decreases left.len(),
{
    if right.len() == 0 {
        false
    } else if left.len() == 0 {
        true
    } else if left[0] != right[0] {
        left[0] < right[0]
    } else {
        before(left.skip(1), right.skip(1))
    }
}

/// The eight bytes of `value`, least significant first.
pub open spec fn u64_le(value: u64) -> Seq<u8> {
    seq![
        (value % 256) as u8,
        (value / 0x100 % 256) as u8,
        (value / 0x1_0000 % 256) as u8,
        (value / 0x100_0000 % 256) as u8,
        (value / 0x1_0000_0000 % 256) as u8,
        (value / 0x100_0000_0000 % 256) as u8,
        (value / 0x1_0000_0000_0000 % 256) as u8,
        (value / 0x100_0000_0000_0000 % 256) as u8,
    ]
}

/// The four bytes of `value`, least significant first.
pub open spec fn u32_le(value: u32) -> Seq<u8> {
    seq![
        (value % 256) as u8,
        (value / 0x100 % 256) as u8,
        (value / 0x1_0000 % 256) as u8,
        (value / 0x100_0000 % 256) as u8,
    ]
}

/// Two byte strings are equal.
pub fn same(left: &[u8], right: &[u8]) -> (equal: bool)
    ensures
        equal == (left@ == right@),
{
    if left.len() != right.len() {
        return false;
    }
    let mut index: usize = 0;
    while index < left.len()
        invariant
            left.len() == right.len(),
            index <= left.len(),
            forall|at: int| 0 <= at < index ==> left@[at] == right@[at],
        decreases left.len() - index,
    {
        if left[index] != right[index] {
            return false;
        }
        index += 1;
    }
    assert(left@ =~= right@);
    true
}

/// The UTF-8 bytes of a text.
pub fn of(text: &str) -> (bytes: &[u8])
    ensures
        bytes@ == utf8(text@),
{
    proof {
        reveal(utf8);
    }
    text.as_bytes()
}

/// A byte string equals the UTF-8 bytes of a text.
pub fn is(bytes: &[u8], text: &str) -> (equal: bool)
    ensures
        equal == (bytes@ == utf8(text@)),
{
    same(bytes, of(text))
}

/// An owned copy of a byte string.
pub fn copy(bytes: &[u8]) -> (owned: Vec<u8>)
    ensures
        owned@ == bytes@,
{
    vstd::slice::slice_to_vec(bytes)
}

/// The UTF-8 bytes of a text, owned.
pub fn from_str(text: &str) -> (owned: Vec<u8>)
    ensures
        owned@ == utf8(text@),
{
    copy(of(text))
}

/// A copy of an optional byte string.
pub fn copy_opt(value: &Option<Vec<u8>>) -> (owned: Option<Vec<u8>>)
    ensures
        opt_view(owned) == opt_view(*value),
{
    match value {
        Some(bytes) => Some(copy(bytes.as_slice())),
        None => None,
    }
}

/// A copy of a list of byte strings.
pub fn copy_list(list: &Vec<Vec<u8>>) -> (owned: Vec<Vec<u8>>)
    ensures
        views(owned@) == views(list@),
{
    let mut owned: Vec<Vec<u8>> = Vec::new();
    let mut index: usize = 0;
    while index < list.len()
        invariant
            index <= list.len(),
            views(owned@) =~= views(list@).take(index as int),
        decreases list.len() - index,
    {
        let item = copy(list[index].as_slice());
        proof {
            lemma_views_push(owned@, item);
        }
        owned.push(item);
        index += 1;
    }
    assert(views(owned@) =~= views(list@));
    owned
}

/// Appends copies of the items of a list.
pub fn append_list(target: &mut Vec<Vec<u8>>, list: &Vec<Vec<u8>>)
    ensures
        views(final(target)@) == views(old(target)@) + views(list@),
{
    let ghost start = views(target@);
    let mut index: usize = 0;
    while index < list.len()
        invariant
            index <= list.len(),
            views(target@) =~= start + views(list@).take(index as int),
        decreases list.len() - index,
    {
        let item = copy(list[index].as_slice());
        proof {
            lemma_views_push(target@, item);
        }
        target.push(item);
        index += 1;
    }
    assert(views(list@).take(index as int) =~= views(list@));
}

/// The contents of a list grow by the contents of the item that is pushed.
pub broadcast proof fn lemma_views_push(list: Seq<Vec<u8>>, item: Vec<u8>)
    ensures
        #[trigger] views(list.push(item)) == views(list).push(item@),
{
    assert(views(list.push(item)) =~= views(list).push(item@));
}

/// Appends a byte string.
pub fn append(target: &mut Vec<u8>, bytes: &[u8])
    ensures
        final(target)@ == old(target)@ + bytes@,
{
    let ghost start = target@;
    let mut index: usize = 0;
    while index < bytes.len()
        invariant
            index <= bytes.len(),
            target@ =~= start + bytes@.take(index as int),
        decreases bytes.len() - index,
    {
        target.push(bytes[index]);
        index += 1;
    }
    assert(bytes@.take(bytes@.len() as int) =~= bytes@);
}

/// Appends the UTF-8 bytes of a text.
pub fn append_str(target: &mut Vec<u8>, text: &str)
    ensures
        final(target)@ == old(target)@ + utf8(text@),
{
    append(target, of(text));
}

/// The concatenation of two byte strings.
pub fn concat(left: &[u8], right: &[u8]) -> (joined: Vec<u8>)
    ensures
        joined@ == left@ + right@,
{
    let mut joined = copy(left);
    append(&mut joined, right);
    joined
}

/// Appends the eight bytes of a number, least significant first.
pub fn append_u64_le(target: &mut Vec<u8>, value: u64)
    ensures
        final(target)@ == old(target)@ + u64_le(value),
{
    let ghost start = target@;
    target.push((value % 256) as u8);
    target.push((value / 0x100 % 256) as u8);
    target.push((value / 0x1_0000 % 256) as u8);
    target.push((value / 0x100_0000 % 256) as u8);
    target.push((value / 0x1_0000_0000 % 256) as u8);
    target.push((value / 0x100_0000_0000 % 256) as u8);
    target.push((value / 0x1_0000_0000_0000 % 256) as u8);
    target.push((value / 0x100_0000_0000_0000 % 256) as u8);
    assert(target@ =~= start + u64_le(value));
}

/// The four bytes of a number, least significant first.
pub fn from_u32_le(value: u32) -> (bytes: Vec<u8>)
    ensures
        bytes@ == u32_le(value),
{
    let mut bytes: Vec<u8> = Vec::new();
    bytes.push((value % 256) as u8);
    bytes.push((value / 0x100 % 256) as u8);
    bytes.push((value / 0x1_0000 % 256) as u8);
    bytes.push((value / 0x100_0000 % 256) as u8);
    assert(bytes@ =~= u32_le(value));
    bytes
}

/// A number is determined by its eight bytes.
pub proof fn lemma_u64_le_injective(left: u64, right: u64)
    requires
        u64_le(left) == u64_le(right),
    ensures
        left == right,
{
    assert forall|value: u64| value as int == #[trigger] sum_le(u64_le(value)) by {
        lemma_u64_le_sum(value);
    }
    assert(sum_le(u64_le(left)) == left);
    assert(sum_le(u64_le(right)) == right);
}

/// The number whose eight bytes, least significant first, are given.
pub open spec fn sum_le(bytes: Seq<u8>) -> int {
    bytes[0] + 0x100 * bytes[1] + 0x1_0000 * bytes[2] + 0x100_0000 * bytes[3] + 0x1_0000_0000
        * bytes[4] + 0x100_0000_0000 * bytes[5] + 0x1_0000_0000_0000 * bytes[6]
        + 0x100_0000_0000_0000 * bytes[7]
}

proof fn lemma_u64_le_sum(value: u64)
    ensures
        sum_le(u64_le(value)) == value,
{
    assert(value == value % 256 + 0x100 * (value / 0x100 % 256) + 0x1_0000 * (value / 0x1_0000
        % 256) + 0x100_0000 * (value / 0x100_0000 % 256) + 0x1_0000_0000 * (value / 0x1_0000_0000
        % 256) + 0x100_0000_0000 * (value / 0x100_0000_0000 % 256) + 0x1_0000_0000_0000 * (value
        / 0x1_0000_0000_0000 % 256) + 0x100_0000_0000_0000 * (value / 0x100_0000_0000_0000 % 256))
        by (bit_vector);
}

/// A byte string begins with another.
pub fn starts_with(whole: &[u8], prefix: &[u8]) -> (yes: bool)
    ensures
        yes == has_prefix(whole@, prefix@),
{
    if prefix.len() > whole.len() {
        return false;
    }
    let head = vstd::slice::slice_subrange(whole, 0, prefix.len());
    assert(head@ =~= whole@.take(prefix@.len() as int));
    same(head, prefix)
}

/// A byte string begins with the UTF-8 bytes of a text.
pub fn starts_with_str(whole: &[u8], prefix: &str) -> (yes: bool)
    ensures
        yes == has_prefix(whole@, utf8(prefix@)),
{
    starts_with(whole, of(prefix))
}

/// A byte string ends with another.
pub fn ends_with(whole: &[u8], suffix: &[u8]) -> (yes: bool)
    ensures
        yes == has_suffix(whole@, suffix@),
{
    if suffix.len() > whole.len() {
        return false;
    }
    let tail = vstd::slice::slice_subrange(whole, whole.len() - suffix.len(), whole.len());
    assert(tail@ =~= whole@.skip(whole@.len() - suffix@.len()));
    same(tail, suffix)
}

/// A byte string ends with the UTF-8 bytes of a text.
pub fn ends_with_str(whole: &[u8], suffix: &str) -> (yes: bool)
    ensures
        yes == has_suffix(whole@, utf8(suffix@)),
{
    ends_with(whole, of(suffix))
}

/// What follows the prefix of a byte string.
pub fn strip_prefix<'a>(whole: &'a [u8], prefix: &str) -> (rest: Option<&'a [u8]>)
    ensures
        rest is Some == has_prefix(whole@, utf8(prefix@)),
        rest is Some ==> rest->0@ == whole@.skip(utf8(prefix@).len() as int),
{
    let lead = of(prefix);
    if starts_with(whole, lead) {
        let rest = vstd::slice::slice_subrange(whole, lead.len(), whole.len());
        assert(rest@ =~= whole@.skip(lead@.len() as int));
        Some(rest)
    } else {
        None
    }
}

/// What follows the first `count` bytes of a byte string.
pub fn skip(whole: &[u8], count: usize) -> (rest: &[u8])
    requires
        count <= whole@.len(),
    ensures
        rest@ == whole@.skip(count as int),
{
    let rest = vstd::slice::slice_subrange(whole, count, whole.len());
    assert(rest@ =~= whole@.skip(count as int));
    rest
}

/// The first `count` bytes of a byte string.
pub fn take(whole: &[u8], count: usize) -> (head: &[u8])
    requires
        count <= whole@.len(),
    ensures
        head@ == whole@.take(count as int),
{
    let head = vstd::slice::slice_subrange(whole, 0, count);
    assert(head@ =~= whole@.take(count as int));
    head
}

/// A byte occurs in a byte string.
pub fn contains(whole: &[u8], byte: u8) -> (found: bool)
    ensures
        found == whole@.contains(byte),
{
    let mut index: usize = 0;
    while index < whole.len()
        invariant
            index <= whole.len(),
            forall|at: int| 0 <= at < index ==> whole@[at] != byte,
        decreases whole.len() - index,
    {
        if whole[index] == byte {
            assert(whole@[index as int] == byte);
            return true;
        }
        index += 1;
    }
    false
}

/// A byte string occurs in another. The empty byte string occurs everywhere.
pub fn contains_bytes(whole: &[u8], needle: &[u8]) -> (found: bool)
    ensures
        found == has_infix(whole@, needle@),
{
    if needle.len() > whole.len() {
        return false;
    }
    let last: usize = whole.len() - needle.len();
    let mut at: usize = 0;
    while at <= last
        invariant
            needle.len() <= whole.len(),
            last == whole.len() - needle.len(),
            at <= last + 1,
            forall|earlier: int| 0 <= earlier < at ==> !occurs_at(whole@, needle@, earlier),
        decreases last + 1 - at,
    {
        let window = vstd::slice::slice_subrange(whole, at, at + needle.len());
        if same(window, needle) {
            assert(occurs_at(whole@, needle@, at as int));
            return true;
        }
        if at == usize::MAX {
            return false;
        }
        at += 1;
    }
    false
}

/// Some byte is an ASCII upper-case letter.
pub fn contains_upper(bytes: &[u8]) -> (found: bool)
    ensures
        found == has_upper(bytes@),
{
    let mut index: usize = 0;
    while index < bytes.len()
        invariant
            index <= bytes.len(),
            forall|at: int| 0 <= at < index ==> !is_upper(#[trigger] bytes@[at]),
        decreases bytes.len() - index,
    {
        if 0x41 <= bytes[index] && bytes[index] <= 0x5a {
            assert(is_upper(bytes@[index as int]));
            return true;
        }
        index += 1;
    }
    false
}

/// The index of the first occurrence of a byte.
pub fn find(whole: &[u8], byte: u8) -> (at: Option<usize>)
    ensures
        match at {
            Some(index) => index < whole@.len() && whole@[index as int] == byte && forall|earlier: int|
                0 <= earlier < index ==> whole@[earlier] != byte,
            None => !whole@.contains(byte),
        },
{
    let mut index: usize = 0;
    while index < whole.len()
        invariant
            index <= whole.len(),
            forall|at: int| 0 <= at < index ==> whole@[at] != byte,
        decreases whole.len() - index,
    {
        if whole[index] == byte {
            return Some(index);
        }
        index += 1;
    }
    None
}

/// The ASCII lower-case form of a byte string.
pub fn to_lower(bytes: &[u8]) -> (result: Vec<u8>)
    ensures
        result@ == lowered(bytes@),
{
    let mut result: Vec<u8> = Vec::new();
    let mut index: usize = 0;
    while index < bytes.len()
        invariant
            index <= bytes.len(),
            result@ =~= lowered(bytes@).take(index as int),
        decreases bytes.len() - index,
    {
        let byte: u8 = bytes[index];
        if 0x41 <= byte && byte <= 0x5a {
            result.push(byte + 0x20);
        } else {
            result.push(byte);
        }
        index += 1;
    }
    assert(result@ =~= lowered(bytes@));
    result
}

/// Two byte strings are equal when ASCII letters are taken without regard to case.
pub fn same_ignoring_case(left: &[u8], right: &[u8]) -> (equal: bool)
    ensures
        equal == (lowered(left@) == lowered(right@)),
{
    let left_lower = to_lower(left);
    let right_lower = to_lower(right);
    same(left_lower.as_slice(), right_lower.as_slice())
}

/// An ASCII whitespace byte.
pub fn space(byte: u8) -> (yes: bool)
    ensures
        yes == is_space(byte),
{
    byte == 0x20 || byte == 0x09 || byte == 0x0a || byte == 0x0c || byte == 0x0d
}

/// One byte string comes before another in lexicographic order.
pub fn less(left: &[u8], right: &[u8]) -> (yes: bool)
    ensures
        yes == before(left@, right@),
{
    let mut index: usize = 0;
    assert(left@.skip(0) =~= left@);
    assert(right@.skip(0) =~= right@);
    while index < left.len() && index < right.len()
        invariant
            index <= left.len(),
            index <= right.len(),
            before(left@, right@) == before(left@.skip(index as int), right@.skip(index as int)),
        decreases left.len() - index,
    {
        assert(left@.skip(index as int)[0] == left@[index as int]);
        assert(right@.skip(index as int)[0] == right@[index as int]);
        assert(left@.skip(index as int).skip(1) =~= left@.skip(index + 1));
        assert(right@.skip(index as int).skip(1) =~= right@.skip(index + 1));
        if left[index] != right[index] {
            return left[index] < right[index];
        }
        index += 1;
    }
    index < right.len()
}

/// The lexicographic order is irreflexive.
pub proof fn lemma_before_irreflexive(bytes: Seq<u8>)
    ensures
        !before(bytes, bytes),
    decreases bytes.len(),
{
    if bytes.len() > 0 {
        lemma_before_irreflexive(bytes.skip(1));
    }
}

/// The lexicographic order is transitive.
pub proof fn lemma_before_transitive(first: Seq<u8>, second: Seq<u8>, third: Seq<u8>)
    requires
        before(first, second),
        before(second, third),
    ensures
        before(first, third),
    decreases first.len(),
{
    if first.len() > 0 && second.len() > 0 && third.len() > 0 && first[0] == second[0] && second[0]
        == third[0] {
        lemma_before_transitive(first.skip(1), second.skip(1), third.skip(1));
    }
}

/// Of two different byte strings one comes before the other.
pub proof fn lemma_before_total(left: Seq<u8>, right: Seq<u8>)
    ensures
        before(left, right) || before(right, left) || left == right,
    decreases left.len(),
{
    if left.len() > 0 && right.len() > 0 {
        if left[0] == right[0] {
            lemma_before_total(left.skip(1), right.skip(1));
            if left.skip(1) == right.skip(1) {
                assert(left.len() == left.skip(1).len() + 1);
                assert(right.len() == right.skip(1).len() + 1);
                assert forall|at: int| 0 <= at < left.len() implies left[at] == right[at] by {
                    if at > 0 {
                        assert(left.skip(1)[at - 1] == left[at]);
                        assert(right.skip(1)[at - 1] == right[at]);
                    }
                }
                assert(left =~= right);
            }
        }
    } else if left.len() == 0 && right.len() == 0 {
        assert(left =~= right);
    }
}

/// The index of the first `byte`, or the length where there is none.
pub open spec fn first(text: Seq<u8>, byte: u8) -> nat
    decreases text.len(),
{
    if text.len() == 0 || text[0] == byte {
        0
    } else {
        1 + first(text.skip(1), byte)
    }
}

/// What stands before, between and after the occurrences of `byte`.
pub open spec fn pieces(text: Seq<u8>, byte: u8) -> Seq<Seq<u8>>
    decreases text.len(),
{
    let end = first(text, byte) as int;
    if end >= text.len() {
        seq![text]
    } else {
        seq![text.take(end)] + pieces(text.skip(end + 1), byte)
    }
}

/// Where the first `byte` stands, or the end where there is none, is what `first` says.
pub proof fn lemma_first(text: Seq<u8>, byte: u8, end: int)
    requires
        0 <= end <= text.len(),
        forall|at: int| 0 <= at < end ==> text[at] != byte,
        end < text.len() ==> text[end] == byte,
    ensures
        first(text, byte) == end,
    decreases text.len(),
{
    if text.len() > 0 && text[0] != byte {
        assert forall|at: int| 0 <= at < end - 1 implies text.skip(1)[at] != byte by {
            assert(text.skip(1)[at] == text[at + 1]);
        }
        lemma_first(text.skip(1), byte, end - 1);
    }
}

/// Before its first `byte`, a text has none.
pub proof fn lemma_first_absent(text: Seq<u8>, byte: u8)
    ensures
        first(text, byte) <= text.len(),
        forall|at: int| 0 <= at < first(text, byte) ==> text[at] != byte,
        first(text, byte) < text.len() ==> text[first(text, byte) as int] == byte,
    decreases text.len(),
{
    if text.len() > 0 && text[0] != byte {
        lemma_first_absent(text.skip(1), byte);
        assert forall|at: int| 0 <= at < first(text, byte) implies text[at] != byte by {
            if at > 0 {
                assert(text[at] == text.skip(1)[at - 1]);
            }
        }
    }
}

/// What follows a text does not change where its first `byte` stands.
pub proof fn lemma_first_prefix(text: Seq<u8>, rest: Seq<u8>, byte: u8)
    requires
        first(text, byte) < text.len(),
    ensures
        first(text + rest, byte) == first(text, byte),
{
    lemma_first_absent(text, byte);
    lemma_first(text + rest, byte, first(text, byte) as int);
}

/// The index of the first `byte`, or the length where there is none.
pub fn find_or_end(text: &[u8], byte: u8) -> (at: usize)
    ensures
        at == first(text@, byte),
        at <= text@.len(),
{
    let mut index: usize = 0;
    while index < text.len() && text[index] != byte
        invariant
            index <= text.len(),
            forall|at: int| 0 <= at < index ==> text@[at] != byte,
        decreases text.len() - index,
    {
        index += 1;
    }
    proof {
        lemma_first(text@, byte, index as int);
    }
    index
}

/// What stands before, between and after the occurrences of `byte`.
pub fn split(text: &[u8], byte: u8) -> (parts: Vec<Vec<u8>>)
    ensures
        views(parts@) == pieces(text@, byte),
{
    let mut parts: Vec<Vec<u8>> = Vec::new();
    let mut start: usize = 0;
    assert(text@.skip(0) =~= text@);
    assert(views(parts@) =~= Seq::empty());
    loop
        invariant
            start <= text.len(),
            views(parts@) + pieces(text@.skip(start as int), byte) =~= pieces(text@, byte),
        decreases text.len() - start,
    {
        let rest = skip(text, start);
        let end: usize = find_or_end(rest, byte);
        let ghost before = views(parts@);
        if end >= rest.len() {
            let part = copy(rest);
            proof {
                lemma_views_push(parts@, part);
            }
            parts.push(part);
            assert(views(parts@) =~= before + pieces(rest@, byte));
            return parts;
        }
        let part = copy(take(rest, end));
        proof {
            lemma_views_push(parts@, part);
            assert(rest@.skip(end + 1) =~= text@.skip(start + end + 1));
        }
        parts.push(part);
        assert(views(parts@) + pieces(text@.skip(start + end + 1), byte) =~= before + pieces(
            rest@,
            byte,
        ));
        start = start + end + 1;
    }
}

/// What is left of a text without the white space before it.
pub open spec fn trimmed_start(text: Seq<u8>) -> Seq<u8>
    decreases text.len(),
{
    if text.len() > 0 && is_space(text[0]) {
        trimmed_start(text.skip(1))
    } else {
        text
    }
}

/// What is left of a text without the white space after it.
pub open spec fn trimmed_end(text: Seq<u8>) -> Seq<u8>
    decreases text.len(),
{
    if text.len() > 0 && is_space(text.last()) {
        trimmed_end(text.drop_last())
    } else {
        text
    }
}

/// What is left of a text without the white space around it.
pub open spec fn trimmed(text: Seq<u8>) -> Seq<u8> {
    trimmed_end(trimmed_start(text))
}

/// The text without the white space around it.
pub fn trim_ascii(text: &[u8]) -> (rest: &[u8])
    ensures
        rest@ == trimmed(text@),
{
    let mut start: usize = 0;
    assert(text@.skip(0) =~= text@);
    while start < text.len() && space(text[start])
        invariant
            start <= text.len(),
            trimmed_start(text@) == trimmed_start(text@.skip(start as int)),
        decreases text.len() - start,
    {
        assert(text@.skip(start as int).skip(1) =~= text@.skip(start + 1));
        start += 1;
    }
    let rest = skip(text, start);
    assert(rest@ == trimmed_start(text@));
    let mut end: usize = rest.len();
    assert(rest@.take(end as int) =~= rest@);
    while end > 0 && space(rest[end - 1])
        invariant
            end <= rest.len(),
            trimmed_end(rest@) == trimmed_end(rest@.take(end as int)),
        decreases end,
    {
        assert(rest@.take(end as int).drop_last() =~= rest@.take(end - 1));
        assert(rest@.take(end as int).last() == rest@[end - 1]);
        end -= 1;
    }
    assert(end > 0 ==> rest@.take(end as int).last() == rest@[end - 1]);
    take(rest, end)
}

/// The bytes are those of a text.
pub open spec fn is_utf8(bytes: Seq<u8>) -> bool {
    vstd::utf8::valid_utf8(bytes)
}

/// Calls `str::from_utf8`. The claim is that it hands out a text exactly where the bytes are UTF-8,
/// and that the bytes are those of the text.
#[verifier::external_body]
pub(crate) fn to_text(bytes: &[u8]) -> (text: Option<String>)
    ensures
        match text {
            Some(found) => is_utf8(bytes@) && utf8(found@) == bytes@,
            None => !is_utf8(bytes@),
        },
{
    std::str::from_utf8(bytes).ok().map(String::from)
}

/// The UTF-8 bytes of ASCII text are the codes of its characters.
pub proof fn lemma_ascii(text: Seq<char>)
    requires
        forall|at: int| 0 <= at < text.len() ==> 0 <= #[trigger] text[at] as int <= 127,
    ensures
        utf8(text).len() == text.len(),
        forall|at: int| 0 <= at < text.len() ==> #[trigger] utf8(text)[at] == text[at] as u8,
{
    reveal(utf8);
    assert(vstd::utf8::is_ascii_chars(text));
    vstd::utf8::is_ascii_chars_encode_utf8(text);
}

/// Byte strings are ordered by the first byte in which they differ, and one that another continues
/// comes before it.
pub proof fn law_bytewise_order(common: Seq<u8>, left: Seq<u8>, right: Seq<u8>)
    ensures
        right.len() > 0 && (left.len() == 0 || left[0] < right[0]) ==> before(
            common + left,
            common + right,
        ),
        left.len() > 0 && (right.len() == 0 || right[0] < left[0]) ==> !before(
            common + left,
            common + right,
        ),
        !before(common, common),
    decreases common.len(),
{
    if common.len() == 0 {
        assert(common + left =~= left);
        assert(common + right =~= right);
    } else {
        law_bytewise_order(common.skip(1), left, right);
        assert((common + left).skip(1) =~= common.skip(1) + left);
        assert((common + right).skip(1) =~= common.skip(1) + right);
    }
}

/// The parts with a byte between each two of them.
pub open spec fn joined(parts: Seq<Seq<u8>>, byte: u8) -> Seq<u8>
    decreases parts.len(),
{
    if parts.len() == 0 {
        Seq::empty()
    } else if parts.len() == 1 {
        parts[0]
    } else {
        parts[0] + seq![byte] + joined(parts.skip(1), byte)
    }
}

/// Parts that are joined by a byte, and do not hold it, are the pieces between its occurrences.
pub proof fn law_pieces_are_the_joined_parts(parts: Seq<Seq<u8>>, byte: u8)
    requires
        parts.len() > 0,
        forall|part: int, at: int|
            0 <= part < parts.len() && 0 <= at < parts[part].len() ==> #[trigger] parts[part][at]
                != byte,
    ensures
        pieces(joined(parts, byte), byte) == parts,
    decreases parts.len(),
{
    let text = joined(parts, byte);
    let end = parts[0].len() as int;
    assert forall|at: int| 0 <= at < end implies text[at] != byte by {
        assert(text[at] == parts[0][at]);
    }
    if parts.len() == 1 {
        lemma_first(text, byte, end);
        assert(parts =~= seq![text]);
    } else {
        assert(text[end] == byte);
        lemma_first(text, byte, end);
        let rest = parts.skip(1);
        assert forall|part: int, at: int|
            0 <= part < rest.len() && 0 <= at < rest[part].len() implies #[trigger] rest[part][at]
            != byte by {
            assert(parts[part + 1][at] != byte);
        }
        law_pieces_are_the_joined_parts(rest, byte);
        assert(text.take(end) =~= parts[0]);
        assert(text.skip(end + 1) =~= joined(rest, byte));
        assert(seq![parts[0]] + rest =~= parts);
    }
}

/// Only the letters from `A` to `Z` have another lower-case form, which lies 32 behind them.
pub proof fn law_lower_case(bytes: Seq<u8>, at: int)
    requires
        0 <= at < bytes.len(),
    ensures
        lowered(bytes).len() == bytes.len(),
        0x41 <= bytes[at] <= 0x5a ==> lowered(bytes)[at] == bytes[at] + 32,
        !(0x41 <= bytes[at] <= 0x5a) ==> lowered(bytes)[at] == bytes[at],
        has_upper(bytes) <==> exists|other: int|
            0 <= other < bytes.len() && 0x41 <= #[trigger] bytes[other] <= 0x5a,
{
    if has_upper(bytes) {
        let other = choose|other: int| 0 <= other < bytes.len() && is_upper(#[trigger] bytes[other]);
        assert(0x41 <= bytes[other] <= 0x5a);
    }
}

/// The bytes of a number stand for it, the least significant first.
pub proof fn law_little_endian(value: u64, short: u32)
    ensures
        u64_le(value).len() == 8,
        value == u64_le(value)[0] + 0x100 * u64_le(value)[1] + 0x1_0000 * u64_le(value)[2]
            + 0x100_0000 * u64_le(value)[3] + 0x1_0000_0000 * u64_le(value)[4] + 0x100_0000_0000
            * u64_le(value)[5] + 0x1_0000_0000_0000 * u64_le(value)[6] + 0x100_0000_0000_0000
            * u64_le(value)[7],
        u32_le(short).len() == 4,
        short == u32_le(short)[0] + 0x100 * u32_le(short)[1] + 0x1_0000 * u32_le(short)[2]
            + 0x100_0000 * u32_le(short)[3],
{
    lemma_u64_le_sum(value);
    assert(short == short % 256 + 0x100 * (short / 0x100 % 256) + 0x1_0000 * (short / 0x1_0000
        % 256) + 0x100_0000 * (short / 0x100_0000 % 256)) by (bit_vector);
}

} // verus!
