//! Ordered sets of byte strings, kept as sorted lists without repetition.
use vstd::prelude::*;

use crate::bstr;

verus! {

/// The list is in lexicographic order, and no byte string stands in it twice.
pub open spec fn sorted(list: Seq<Seq<u8>>) -> bool {
    forall|left: int, right: int|
        0 <= left < right < list.len() ==> bstr::before(#[trigger] list[left], #[trigger] list[right])
}

/// A list holds a byte string.
pub fn contains(list: &Vec<Vec<u8>>, name: &[u8]) -> (found: bool)
    ensures
        found == bstr::views(list@).contains(name@),
{
    let ghost all = bstr::views(list@);
    let mut index: usize = 0;
    while index < list.len()
        invariant
            index <= list.len(),
            all == bstr::views(list@),
            forall|at: int| 0 <= at < index ==> #[trigger] all[at] != name@,
        decreases list.len() - index,
    {
        assert(all[index as int] == list@[index as int]@);
        if bstr::same(list[index].as_slice(), name) {
            return true;
        }
        index += 1;
    }
    false
}

/// Where a byte string stands in a sorted list, or belongs.
pub fn find(list: &Vec<Vec<u8>>, name: &[u8]) -> (place: (usize, bool))
    requires
        sorted(bstr::views(list@)),
    ensures
        place.0 <= list@.len(),
        forall|at: int| 0 <= at < place.0 ==> bstr::before(#[trigger] bstr::views(list@)[at], name@),
        place.1 ==> place.0 < list@.len() && bstr::views(list@)[place.0 as int] == name@,
        !place.1 ==> forall|at: int|
            place.0 <= at < list@.len() ==> bstr::before(name@, #[trigger] bstr::views(list@)[at]),
        place.1 == bstr::views(list@).contains(name@),
{
    let ghost all = bstr::views(list@);
    let mut index: usize = 0;
    while index < list.len() && bstr::less(list[index].as_slice(), name)
        invariant
            index <= list.len(),
            all == bstr::views(list@),
            sorted(all),
            forall|at: int| 0 <= at < index ==> bstr::before(#[trigger] all[at], name@),
        decreases list.len() - index,
    {
        assert(all[index as int] == list@[index as int]@);
        index += 1;
    }
    let found = index < list.len() && bstr::same(list[index].as_slice(), name);
    proof {
        bstr::lemma_before_irreflexive(name@);
        if index < list.len() {
            assert(all[index as int] == list@[index as int]@);
            if !found {
                bstr::lemma_before_total(all[index as int], name@);
                assert forall|at: int| index <= at < all.len() implies bstr::before(
                    name@,
                    #[trigger] all[at],
                ) by {
                    if at > index {
                        bstr::lemma_before_transitive(name@, all[index as int], all[at]);
                    }
                }
            }
        }
        if !found {
            assert forall|at: int| 0 <= at < all.len() implies #[trigger] all[at] != name@ by {}
        }
    }
    (index, found)
}

/// Inserting a byte string where it belongs keeps a list sorted.
pub proof fn lemma_insert_sorted(list: Seq<Seq<u8>>, index: int, name: Seq<u8>)
    requires
        sorted(list),
        0 <= index <= list.len(),
        forall|at: int| 0 <= at < index ==> bstr::before(#[trigger] list[at], name),
        forall|at: int| index <= at < list.len() ==> bstr::before(name, #[trigger] list[at]),
    ensures
        sorted(list.insert(index, name)),
        forall|other: Seq<u8>| #[trigger]
            list.insert(index, name).contains(other) <==> list.contains(other) || other == name,
{
    let longer = list.insert(index, name);
    assert forall|left: int, right: int| 0 <= left < right < longer.len() implies bstr::before(
        #[trigger] longer[left],
        #[trigger] longer[right],
    ) by {
        if left < index {
            assert(longer[left] == list[left]);
        } else if left > index {
            assert(longer[left] == list[left - 1]);
        }
        if right < index {
            assert(longer[right] == list[right]);
        } else if right > index {
            assert(longer[right] == list[right - 1]);
        }
    }
    assert forall|other: Seq<u8>| #[trigger]
        longer.contains(other) <==> list.contains(other) || other == name by {
        if list.contains(other) {
            let at = choose|at: int| 0 <= at < list.len() && list[at] == other;
            if at < index {
                assert(longer[at] == other);
            } else {
                assert(longer[at + 1] == other);
            }
        }
        if other == name {
            assert(longer[index] == other);
        }
        if longer.contains(other) {
            let at = choose|at: int| 0 <= at < longer.len() && longer[at] == other;
            if at < index {
                assert(list[at] == other);
            } else if at > index {
                assert(list[at - 1] == other);
            }
        }
    }
}

/// Inserts a byte string into a sorted list. Says whether it was new.
pub fn insert(list: &mut Vec<Vec<u8>>, name: &[u8]) -> (new: bool)
    requires
        sorted(bstr::views(old(list)@)),
    ensures
        sorted(bstr::views(final(list)@)),
        forall|other: Seq<u8>| #[trigger]
            bstr::views(final(list)@).contains(other) <==> bstr::views(old(list)@).contains(other)
                || other == name@,
        new == !bstr::views(old(list)@).contains(name@),
{
    let (index, found) = find(list, name);
    if found {
        return false;
    }
    let ghost before = bstr::views(list@);
    list.insert(index, bstr::copy(name));
    proof {
        lemma_insert_sorted(before, index as int, name@);
        assert(bstr::views(list@) =~= before.insert(index as int, name@));
    }
    true
}

/// A sorted list is determined by what it holds.
pub proof fn law_sorted_lists_are_sets(left: Seq<Seq<u8>>, right: Seq<Seq<u8>>)
    requires
        sorted(left),
        sorted(right),
        forall|name: Seq<u8>| #[trigger] left.contains(name) <==> right.contains(name),
    ensures
        left == right,
    decreases left.len(),
{
    if left.len() == 0 {
        if right.len() > 0 {
            assert(right.contains(right[0]));
            assert(left.contains(right[0]));
        }
        assert(left =~= right);
    } else {
        assert(left.contains(left[0]));
        assert(right.len() > 0);
        let at = choose|at: int| 0 <= at < right.len() && right[at] == left[0];
        assert(right.contains(right[0]));
        assert(left.contains(right[0]));
        let other = choose|other: int| 0 <= other < left.len() && left[other] == right[0];
        if at > 0 {
            assert(bstr::before(right[0], right[at]));
            if other > 0 {
                assert(bstr::before(left[0], left[other]));
                bstr::lemma_before_transitive(left[0], right[0], left[0]);
            }
            bstr::lemma_before_irreflexive(left[0]);
        }
        assert(left[0] == right[0]);
        let left_rest = left.skip(1);
        let right_rest = right.skip(1);
        assert forall|name: Seq<u8>| #[trigger]
            left_rest.contains(name) <==> right_rest.contains(name) by {
            lemma_rest_contains(left, name);
            lemma_rest_contains(right, name);
            assert(left.contains(name) <==> right.contains(name));
        }
        assert forall|first: int, second: int| 0 <= first < second < left_rest.len() implies
            bstr::before(#[trigger] left_rest[first], #[trigger] left_rest[second]) by {
            assert(left_rest[first] == left[first + 1]);
            assert(left_rest[second] == left[second + 1]);
        }
        assert forall|first: int, second: int| 0 <= first < second < right_rest.len() implies
            bstr::before(#[trigger] right_rest[first], #[trigger] right_rest[second]) by {
            assert(right_rest[first] == right[first + 1]);
            assert(right_rest[second] == right[second + 1]);
        }
        law_sorted_lists_are_sets(left_rest, right_rest);
        assert(left =~= seq![left[0]] + left_rest);
        assert(right =~= seq![right[0]] + right_rest);
    }
}

proof fn lemma_rest_contains(list: Seq<Seq<u8>>, name: Seq<u8>)
    requires
        sorted(list),
        list.len() > 0,
    ensures
        list.skip(1).contains(name) <==> list.contains(name) && name != list[0],
{
    if list.skip(1).contains(name) {
        let at = choose|at: int| 0 <= at < list.skip(1).len() && list.skip(1)[at] == name;
        assert(list[at + 1] == name);
        assert(bstr::before(list[0], list[at + 1]));
        bstr::lemma_before_irreflexive(name);
    }
    if list.contains(name) && name != list[0] {
        let at = choose|at: int| 0 <= at < list.len() && list[at] == name;
        assert(list.skip(1)[at - 1] == name);
    }
}

/// Two sorted lists name what they share in the same order.
pub proof fn law_shared_names_keep_their_order(
    left: Seq<Seq<u8>>,
    right: Seq<Seq<u8>>,
    first: int,
    second: int,
    other_first: int,
    other_second: int,
)
    requires
        sorted(left),
        sorted(right),
        0 <= first < second < left.len(),
        0 <= other_first < right.len(),
        0 <= other_second < right.len(),
        left[first] == right[other_first],
        left[second] == right[other_second],
    ensures
        other_first < other_second,
{
    assert(bstr::before(left[first], left[second]));
    bstr::lemma_before_irreflexive(left[first]);
    if other_second < other_first {
        assert(bstr::before(right[other_second], right[other_first]));
        bstr::lemma_before_transitive(left[first], left[second], left[first]);
    }
}

} // verus!
