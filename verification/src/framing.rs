//! Length-framed byte strings.
//!
//! What is hashed is a concatenation of frames. A frame carries the length of its contents, so that
//! the contents can be told from the concatenation: different lists of contents never become the
//! same bytes.
use vstd::prelude::*;

use crate::bstr;

verus! {

/// The length of a byte string, in eight bytes, and the byte string.
pub open spec fn sized(bytes: Seq<u8>) -> Seq<u8> {
    bstr::u64_le(bytes.len() as u64) + bytes
}

/// A tag, the length of a byte string and the byte string.
pub open spec fn tagged(tag: u8, bytes: Seq<u8>) -> Seq<u8> {
    seq![tag] + sized(bytes)
}

/// The sized items of a list, in order.
pub open spec fn sized_all(items: Seq<Seq<u8>>) -> Seq<u8>
    decreases items.len(),
{
    if items.len() == 0 {
        Seq::empty()
    } else {
        sized(items[0]) + sized_all(items.skip(1))
    }
}

/// The length of a byte string fits its frame. Every byte string in memory does.
pub open spec fn fits(bytes: Seq<u8>) -> bool {
    bytes.len() <= u64::MAX
}

/// Appends a sized byte string.
pub fn push_sized(target: &mut Vec<u8>, bytes: &[u8])
    ensures
        final(target)@ == old(target)@ + sized(bytes@),
{
    let ghost start = target@;
    bstr::append_u64_le(target, bytes.len() as u64);
    bstr::append(target, bytes);
    assert(target@ =~= start + sized(bytes@));
}

/// Appends a tagged byte string.
pub fn push_tagged(target: &mut Vec<u8>, tag: u8, bytes: &[u8])
    ensures
        final(target)@ == old(target)@ + tagged(tag, bytes@),
{
    let ghost start = target@;
    target.push(tag);
    push_sized(target, bytes);
    assert(target@ =~= start + tagged(tag, bytes@));
}

/// A sized byte string and what follows it can be told apart.
pub proof fn lemma_sized_prefix(
    left: Seq<u8>,
    left_rest: Seq<u8>,
    right: Seq<u8>,
    right_rest: Seq<u8>,
)
    requires
        fits(left),
        fits(right),
        sized(left) + left_rest == sized(right) + right_rest,
    ensures
        left == right,
        left_rest == right_rest,
{
    let whole = sized(left) + left_rest;
    assert(whole.take(8) =~= bstr::u64_le(left.len() as u64));
    assert(whole.take(8) =~= bstr::u64_le(right.len() as u64)) by {
        assert((sized(right) + right_rest).take(8) =~= bstr::u64_le(right.len() as u64));
    }
    bstr::lemma_u64_le_injective(left.len() as u64, right.len() as u64);
    let length = left.len() as int;
    assert(whole.subrange(8, 8 + length) =~= left);
    assert((sized(right) + right_rest).subrange(8, 8 + length) =~= right);
    assert(whole.skip(8 + length) =~= left_rest);
    assert((sized(right) + right_rest).skip(8 + length) =~= right_rest);
}

/// A tagged byte string and what follows it can be told apart.
pub proof fn lemma_tagged_prefix(
    left_tag: u8,
    left: Seq<u8>,
    left_rest: Seq<u8>,
    right_tag: u8,
    right: Seq<u8>,
    right_rest: Seq<u8>,
)
    requires
        fits(left),
        fits(right),
        tagged(left_tag, left) + left_rest == tagged(right_tag, right) + right_rest,
    ensures
        left_tag == right_tag,
        left == right,
        left_rest == right_rest,
{
    let whole = tagged(left_tag, left) + left_rest;
    assert(whole[0] == left_tag);
    assert((tagged(right_tag, right) + right_rest)[0] == right_tag);
    assert(whole.skip(1) =~= sized(left) + left_rest);
    assert((tagged(right_tag, right) + right_rest).skip(1) =~= sized(right) + right_rest);
    lemma_sized_prefix(left, left_rest, right, right_rest);
}

/// A list of sized byte strings is determined by their concatenation.
pub proof fn law_sized_all_injective(left: Seq<Seq<u8>>, right: Seq<Seq<u8>>)
    requires
        forall|at: int| 0 <= at < left.len() ==> fits(#[trigger] left[at]),
        forall|at: int| 0 <= at < right.len() ==> fits(#[trigger] right[at]),
        sized_all(left) == sized_all(right),
    ensures
        left == right,
    decreases left.len(),
{
    if left.len() == 0 {
        if right.len() > 0 {
            assert(sized_all(right).len() >= 8);
        }
        assert(left =~= right);
    } else if right.len() == 0 {
        assert(sized_all(left).len() >= 8);
    } else {
        lemma_sized_prefix(left[0], sized_all(left.skip(1)), right[0], sized_all(right.skip(1)));
        assert forall|at: int| 0 <= at < left.skip(1).len() implies fits(
            #[trigger] left.skip(1)[at],
        ) by {
            assert(left.skip(1)[at] == left[at + 1]);
        }
        assert forall|at: int| 0 <= at < right.skip(1).len() implies fits(
            #[trigger] right.skip(1)[at],
        ) by {
            assert(right.skip(1)[at] == right[at + 1]);
        }
        law_sized_all_injective(left.skip(1), right.skip(1));
        assert(left =~= seq![left[0]] + left.skip(1));
        assert(right =~= seq![right[0]] + right.skip(1));
    }
}

/// A tag and a byte string.
pub struct Frame<B> {
    pub tag: u8,
    pub bytes: B,
}

/// The tagged byte strings of a list, in order.
pub open spec fn tagged_all(frames: Seq<Frame<Seq<u8>>>) -> Seq<u8>
    decreases frames.len(),
{
    if frames.len() == 0 {
        Seq::empty()
    } else {
        tagged_all(frames.drop_last()) + tagged(frames.last().tag, frames.last().bytes)
    }
}

/// The lengths of all byte strings of a list fit their frames.
pub open spec fn frames_fit(frames: Seq<Frame<Seq<u8>>>) -> bool {
    forall|at: int| 0 <= at < frames.len() ==> fits((#[trigger] frames[at]).bytes)
}

proof fn lemma_tagged_all_first(frames: Seq<Frame<Seq<u8>>>)
    requires
        frames.len() > 0,
    ensures
        tagged_all(frames) == tagged(frames[0].tag, frames[0].bytes) + tagged_all(frames.skip(1)),
    decreases frames.len(),
{
    if frames.len() == 1 {
        assert(frames.drop_last() =~= Seq::empty());
        assert(frames.skip(1) =~= Seq::empty());
        assert(tagged_all(frames) =~= tagged(frames[0].tag, frames[0].bytes) + tagged_all(
            frames.skip(1),
        ));
    } else {
        lemma_tagged_all_first(frames.drop_last());
        assert(frames.skip(1).drop_last() =~= frames.drop_last().skip(1));
        assert(frames.skip(1).last() == frames.last());
        assert(tagged_all(frames) =~= tagged(frames[0].tag, frames[0].bytes) + tagged_all(
            frames.skip(1),
        ));
    }
}

/// A list of tagged byte strings is determined by their concatenation.
pub proof fn law_tagged_all_injective(
    left: Seq<Frame<Seq<u8>>>,
    right: Seq<Frame<Seq<u8>>>,
)
    requires
        frames_fit(left),
        frames_fit(right),
        tagged_all(left) == tagged_all(right),
    ensures
        left == right,
    decreases left.len(),
{
    if left.len() == 0 {
        if right.len() > 0 {
            lemma_tagged_all_first(right);
            assert(tagged_all(right).len() >= 9);
        }
        assert(left =~= right);
    } else if right.len() == 0 {
        lemma_tagged_all_first(left);
        assert(tagged_all(left).len() >= 9);
    } else {
        lemma_tagged_all_first(left);
        lemma_tagged_all_first(right);
        lemma_tagged_prefix(
            left[0].tag,
            left[0].bytes,
            tagged_all(left.skip(1)),
            right[0].tag,
            right[0].bytes,
            tagged_all(right.skip(1)),
        );
        assert forall|at: int| 0 <= at < left.skip(1).len() implies fits(
            (#[trigger] left.skip(1)[at]).bytes,
        ) by {
            assert(left.skip(1)[at] == left[at + 1]);
        }
        assert forall|at: int| 0 <= at < right.skip(1).len() implies fits(
            (#[trigger] right.skip(1)[at]).bytes,
        ) by {
            assert(right.skip(1)[at] == right[at + 1]);
        }
        law_tagged_all_injective(left.skip(1), right.skip(1));
        assert(left =~= seq![left[0]] + left.skip(1));
        assert(right =~= seq![right[0]] + right.skip(1));
    }
}

proof fn lemma_concat_associates(first: Seq<u8>, second: Seq<u8>, third: Seq<u8>)
    ensures
        first + (second + third) == (first + second) + third,
        Seq::<u8>::empty() + first == first,
        first + Seq::<u8>::empty() == first,
{
    assert(first + (second + third) =~= (first + second) + third);
    assert(Seq::<u8>::empty() + first =~= first);
    assert(first + Seq::<u8>::empty() =~= first);
}

/// One more item is framed after the others.
pub proof fn lemma_sized_all_push(items: Seq<Seq<u8>>, item: Seq<u8>)
    ensures
        sized_all(items.push(item)) == sized_all(items) + sized(item),
    decreases items.len(),
{
    let longer = items.push(item);
    let last = sized(item);
    if items.len() == 0 {
        assert(longer.skip(1) =~= Seq::empty());
        assert(longer[0] == item);
        assert(sized_all(longer.skip(1)) == Seq::<u8>::empty());
        assert(sized_all(longer) == last + Seq::<u8>::empty());
        assert(sized_all(items) == Seq::<u8>::empty());
        lemma_concat_associates(last, last, last);
    } else {
        let lead = sized(items[0]);
        assert(longer.skip(1) =~= items.skip(1).push(item));
        lemma_sized_all_push(items.skip(1), item);
        assert(sized_all(longer) == lead + (sized_all(items.skip(1)) + last));
        lemma_concat_associates(lead, sized_all(items.skip(1)), last);
    }
}

/// Writes sized byte strings one after the other.
pub struct SizedWriter {
    pub bytes: Vec<u8>,
    pub items: Ghost<Seq<Seq<u8>>>,
}

impl SizedWriter {
    /// What was written is the frames of the items.
    pub open spec fn holds(self) -> bool {
        self.bytes@ == sized_all(self.items@)
    }

    /// A writer that has written nothing.
    pub fn new() -> (writer: Self)
        ensures
            writer.holds(),
            writer.items@ == Seq::<Seq<u8>>::empty(),
    {
        let writer = SizedWriter { bytes: Vec::new(), items: Ghost(Seq::empty()) };
        assert(writer.bytes@ =~= sized_all(writer.items@));
        writer
    }

    /// Writes one more item.
    pub fn write(&mut self, item: &[u8])
        requires
            old(self).holds(),
        ensures
            final(self).holds(),
            final(self).items@ == old(self).items@.push(item@),
    {
        proof {
            lemma_sized_all_push(self.items@, item@);
            self.items@ = self.items@.push(item@);
        }
        push_sized(&mut self.bytes, item);
    }
}

} // verus!
