//! Counts by reason, in the order of the reasons.
use vstd::prelude::*;

use crate::bstr;
use crate::names;

verus! {

/// `left + right`, or the largest number where the sum is larger.
pub open spec fn plus(left: u64, right: u64) -> u64 {
    if left + right > u64::MAX {
        u64::MAX
    } else {
        (left + right) as u64
    }
}

/// How often one thing happened.
#[derive(Clone, Debug, PartialEq, Eq)]
pub struct Reason {
    pub name: Vec<u8>,
    pub count: u64,
}

/// How often each of several things happened. The names are UTF-8 texts; each occurs once, and they
/// stand in the order of their bytes.
#[derive(Debug, PartialEq, Eq)]
pub struct Reasons {
    entries: Vec<Reason>,
}

/// The names of a list of counts.
pub open spec fn reason_names(entries: Seq<Reason>) -> Seq<Seq<u8>> {
    entries.map_values(|entry: Reason| entry.name@)
}

/// Some entry has the name.
pub open spec fn has_reason(entries: Seq<Reason>, name: Seq<u8>) -> bool {
    exists|at: int| 0 <= at < entries.len() && (#[trigger] entries[at]).name@ == name
}

/// Where an entry with the name stands.
pub open spec fn reason_place(entries: Seq<Reason>, name: Seq<u8>) -> int {
    choose|at: int| 0 <= at < entries.len() && (#[trigger] entries[at]).name@ == name
}

/// The count that stands beside a name.
pub open spec fn reason_count(entries: Seq<Reason>, name: Seq<u8>) -> u64 {
    entries[reason_place(entries, name)].count
}

/// The counts by name.
pub open spec fn reason_map(entries: Seq<Reason>) -> Map<Seq<u8>, u64> {
    Map::new(|name: Seq<u8>| has_reason(entries, name), |name: Seq<u8>| reason_count(entries, name))
}

/// The count of a name, zero where it has none.
pub open spec fn count_in(counts: Map<Seq<u8>, u64>, name: Seq<u8>) -> u64 {
    if counts.dom().contains(name) {
        counts[name]
    } else {
        0
    }
}

/// The counts of two maps, added up name by name.
pub open spec fn merged_reasons(left: Map<Seq<u8>, u64>, right: Map<Seq<u8>, u64>) -> Map<
    Seq<u8>,
    u64,
> {
    Map::new(
        |name: Seq<u8>| left.dom().contains(name) || right.dom().contains(name),
        |name: Seq<u8>| plus(count_in(left, name), count_in(right, name)),
    )
}

/// The counts with `count` more of one name.
pub open spec fn counted(counts: Map<Seq<u8>, u64>, name: Seq<u8>, count: u64) -> Map<
    Seq<u8>,
    u64,
> {
    counts.insert(name, plus(count_in(counts, name), count))
}

proof fn lemma_unique(entries: Seq<Reason>, at: int)
    requires
        names::sorted(reason_names(entries)),
        0 <= at < entries.len(),
    ensures
        has_reason(entries, entries[at].name@),
        reason_count(entries, entries[at].name@) == entries[at].count,
{
    let name = entries[at].name@;
    assert(has_reason(entries, name));
    let other = reason_place(entries, name);
    let all = reason_names(entries);
    assert(all[at] == name && all[other] == name);
    bstr::lemma_before_irreflexive(name);
    if other < at {
        assert(bstr::before(all[other], all[at]));
    } else if at < other {
        assert(bstr::before(all[at], all[other]));
    }
}

/// Adding to a count that is there changes that count only.
proof fn lemma_updated(entries: Seq<Reason>, at: int, changed: Reason)
    requires
        names::sorted(reason_names(entries)),
        0 <= at < entries.len(),
        changed.name@ == entries[at].name@,
    ensures
        names::sorted(reason_names(entries.update(at, changed))),
        reason_map(entries.update(at, changed)) == reason_map(entries).insert(
            changed.name@,
            changed.count,
        ),
{
    let after = entries.update(at, changed);
    assert(reason_names(after) =~= reason_names(entries));
    assert forall|name: Seq<u8>| has_reason(after, name) == (has_reason(entries, name) || name
        == changed.name@) by {
        if has_reason(entries, name) {
            let place = choose|place: int|
                0 <= place < entries.len() && (#[trigger] entries[place]).name@ == name;
            assert(after[place].name@ == name);
        }
        assert(after[at].name@ == changed.name@);
        if has_reason(after, name) {
            let place = choose|place: int|
                0 <= place < after.len() && (#[trigger] after[place]).name@ == name;
            assert(entries[place].name@ == name);
        }
    }
    assert forall|name: Seq<u8>| has_reason(after, name) implies reason_count(after, name) == (
    if name == changed.name@ {
        changed.count
    } else {
        reason_count(entries, name)
    }) by {
        let place = choose|place: int|
            0 <= place < after.len() && (#[trigger] after[place]).name@ == name;
        lemma_unique(after, place);
        lemma_unique(entries, place);
        lemma_unique(after, at);
    }
    assert(reason_map(after) =~= reason_map(entries).insert(changed.name@, changed.count));
}

/// Inserting a new name adds its count and changes no other.
proof fn lemma_inserted(entries: Seq<Reason>, at: int, new: Reason)
    requires
        names::sorted(reason_names(entries)),
        0 <= at <= entries.len(),
        forall|place: int|
            0 <= place < at ==> bstr::before(#[trigger] reason_names(entries)[place], new.name@),
        forall|place: int|
            at <= place < entries.len() ==> bstr::before(
                new.name@,
                #[trigger] reason_names(entries)[place],
            ),
    ensures
        names::sorted(reason_names(entries.insert(at, new))),
        reason_map(entries.insert(at, new)) == reason_map(entries).insert(new.name@, new.count),
{
    let after = entries.insert(at, new);
    assert(reason_names(after) =~= reason_names(entries).insert(at, new.name@));
    names::lemma_insert_sorted(reason_names(entries), at, new.name@);
    assert(after[at] == new);
    assert forall|name: Seq<u8>| has_reason(after, name) == (has_reason(entries, name) || name
        == new.name@) by {
        if has_reason(entries, name) {
            let place = choose|place: int|
                0 <= place < entries.len() && (#[trigger] entries[place]).name@ == name;
            if place < at {
                assert(after[place] == entries[place]);
            } else {
                assert(after[place + 1] == entries[place]);
            }
        }
        if has_reason(after, name) {
            let place = choose|place: int|
                0 <= place < after.len() && (#[trigger] after[place]).name@ == name;
            if place < at {
                assert(after[place] == entries[place]);
            } else if place > at {
                assert(after[place] == entries[place - 1]);
            }
        }
    }
    assert forall|name: Seq<u8>| has_reason(after, name) implies reason_count(after, name) == (
    if name == new.name@ {
        new.count
    } else {
        reason_count(entries, name)
    }) by {
        let place = choose|place: int|
            0 <= place < after.len() && (#[trigger] after[place]).name@ == name;
        lemma_unique(after, place);
        lemma_unique(after, at);
        if place < at {
            assert(after[place] == entries[place]);
            lemma_unique(entries, place);
        } else if place > at {
            assert(after[place] == entries[place - 1]);
            lemma_unique(entries, place - 1);
        }
    }
    assert(reason_map(after) =~= reason_map(entries).insert(new.name@, new.count));
}

/// Where the name stands, or where it would have to stand.
fn find_reason(entries: &Vec<Reason>, name: &[u8]) -> (place: (usize, bool))
    requires
        names::sorted(reason_names(entries@)),
    ensures
        place.0 <= entries@.len(),
        place.1 ==> place.0 < entries@.len() && entries@[place.0 as int].name@ == name@,
        place.1 == has_reason(entries@, name@),
        !place.1 ==> (forall|at: int|
            0 <= at < place.0 ==> bstr::before(#[trigger] reason_names(entries@)[at], name@)) && (
        forall|at: int|
            place.0 <= at < entries@.len() ==> bstr::before(
                name@,
                #[trigger] reason_names(entries@)[at],
            )),
{
    let mut index: usize = 0;
    while index < entries.len() && bstr::less(entries[index].name.as_slice(), name)
        invariant
            index <= entries@.len(),
            forall|at: int|
                0 <= at < index ==> bstr::before(#[trigger] reason_names(entries@)[at], name@),
        decreases entries@.len() - index,
    {
        assert(reason_names(entries@)[index as int] == entries@[index as int].name@);
        index += 1;
    }
    if index < entries.len() && bstr::same(entries[index].name.as_slice(), name) {
        assert(entries@[index as int].name@ == name@);
        return (index, true);
    }
    proof {
        let all = reason_names(entries@);
        if index < entries@.len() {
            assert(all[index as int] == entries@[index as int].name@);
            bstr::lemma_before_total(all[index as int], name@);
            assert forall|at: int| index <= at < entries@.len() implies bstr::before(
                name@,
                #[trigger] all[at],
            ) by {
                if at > index {
                    bstr::lemma_before_transitive(name@, all[index as int], all[at]);
                }
            }
        }
        assert forall|at: int| 0 <= at < entries@.len() implies (#[trigger] entries@[at]).name@
            != name@ by {
            assert(all[at] == entries@[at].name@);
            bstr::lemma_before_irreflexive(name@);
        }
    }
    (index, false)
}

impl View for Reasons {
    type V = Map<Seq<u8>, u64>;

    closed spec fn view(&self) -> Map<Seq<u8>, u64> {
        reason_map(self.entries@)
    }
}

impl Reasons {
    #[verifier::type_invariant]
    spec fn ordered(self) -> bool {
        names::sorted(reason_names(self.entries@))
    }

    /// The names and counts, as a list.
    pub closed spec fn listed(self) -> Seq<Reason> {
        self.entries@
    }

    /// No counts.
    pub fn new() -> (reasons: Self)
        ensures
            reasons@ == Map::<Seq<u8>, u64>::empty(),
            reasons.listed() == Seq::<Reason>::empty(),
    {
        let reasons = Reasons { entries: Vec::new() };
        assert(reasons@ =~= Map::<Seq<u8>, u64>::empty());
        reasons
    }

    /// The names and counts: each name once, in the order of the names, and the list says what the
    /// counts by name are.
    pub fn entries(&self) -> (entries: &Vec<Reason>)
        ensures
            entries@ == self.listed(),
            names::sorted(reason_names(entries@)),
            self@ == reason_map(entries@),
    {
        proof {
            use_type_invariant(self);
        }
        &self.entries
    }

    /// The count of a name.
    pub fn get(&self, name: &[u8]) -> (count: Option<u64>)
        ensures
            count == (if self@.dom().contains(name@) {
                Some(self@[name@])
            } else {
                None::<u64>
            }),
    {
        proof {
            use_type_invariant(self);
        }
        let (place, found) = find_reason(&self.entries, name);
        if found {
            proof {
                lemma_unique(self.entries@, place as int);
            }
            Some(self.entries[place].count)
        } else {
            None
        }
    }

    /// Counts `count` more of a name.
    pub fn count(&mut self, name: &[u8], count: u64)
        ensures
            final(self)@ == counted(old(self)@, name@, count),
    {
        proof {
            use_type_invariant(&*self);
        }
        let mut entries: Vec<Reason> = Vec::new();
        assert(reason_names(entries@) =~= Seq::<Seq<u8>>::empty());
        std::mem::swap(&mut entries, &mut self.entries);
        let ghost before = entries@;
        let (place, found) = find_reason(&entries, name);
        if found {
            let changed = Reason {
                name: bstr::copy(name),
                count: entries[place].count.saturating_add(count),
            };
            proof {
                lemma_unique(before, place as int);
                lemma_updated(before, place as int, changed);
            }
            entries.set(place, changed);
        } else {
            let new = Reason { name: bstr::copy(name), count };
            proof {
                lemma_inserted(before, place as int, new);
            }
            entries.insert(place, new);
        }
        self.entries = entries;
    }

    /// Counts what the other counts, name by name.
    pub fn merge(&mut self, other: &Self)
        ensures
            final(self)@ == merged_reasons(old(self)@, other@),
    {
        proof {
            use_type_invariant(other);
        }
        let ghost start = self@;
        let mut index: usize = 0;
        assert(self@ =~= merged_reasons(start, reason_map(other.entries@.take(0))));
        while index < other.entries.len()
            invariant
                names::sorted(reason_names(other.entries@)),
                index <= other.entries@.len(),
                self@ == merged_reasons(start, reason_map(other.entries@.take(index as int))),
            decreases other.entries@.len() - index,
        {
            let ghost reached = self@;
            self.count(other.entries[index].name.as_slice(), other.entries[index].count);
            proof {
                lemma_one_more(start, other.entries@, index as int);
            }
            index += 1;
        }
        assert(other.entries@.take(index as int) =~= other.entries@);
    }
}

impl Clone for Reasons {
    fn clone(&self) -> (copied: Self)
        ensures
            copied@ == self@,
    {
        let mut copied = Reasons::new();
        copied.merge(self);
        proof {
            law_reasons_add_up(self@, Map::empty(), Map::empty());
        }
        copied
    }
}

proof fn lemma_one_more(start: Map<Seq<u8>, u64>, entries: Seq<Reason>, index: int)
    requires
        names::sorted(reason_names(entries)),
        0 <= index < entries.len(),
    ensures
        counted(
            merged_reasons(start, reason_map(entries.take(index))),
            entries[index].name@,
            entries[index].count,
        ) == merged_reasons(start, reason_map(entries.take(index + 1))),
{
    let head = entries.take(index);
    let last = entries[index];
    assert(reason_names(head) =~= reason_names(entries).take(index));
    assert forall|place: int| 0 <= place < index implies bstr::before(
        #[trigger] reason_names(head)[place],
        last.name@,
    ) by {
        assert(reason_names(head)[place] == reason_names(entries)[place]);
        assert(reason_names(entries)[index] == last.name@);
    }
    lemma_inserted(head, index, last);
    assert(head.insert(index, last) =~= entries.take(index + 1));
    assert(!has_reason(head, last.name@)) by {
        if has_reason(head, last.name@) {
            let place = choose|place: int|
                0 <= place < head.len() && (#[trigger] head[place]).name@ == last.name@;
            assert(reason_names(head)[place] == last.name@);
            bstr::lemma_before_irreflexive(last.name@);
        }
    }
    assert(counted(merged_reasons(start, reason_map(head)), last.name@, last.count)
        =~= merged_reasons(start, reason_map(entries.take(index + 1))));
}

/// It does not matter in which order, nor in which groups, counts are added up, and adding no counts
/// changes nothing.
pub proof fn law_reasons_add_up(
    first: Map<Seq<u8>, u64>,
    second: Map<Seq<u8>, u64>,
    third: Map<Seq<u8>, u64>,
)
    ensures
        merged_reasons(first, second) == merged_reasons(second, first),
        merged_reasons(merged_reasons(first, second), third) == merged_reasons(
            first,
            merged_reasons(second, third),
        ),
        merged_reasons(first, Map::empty()) == first,
        merged_reasons(Map::empty(), first) == first,
{
    assert(merged_reasons(first, second) =~= merged_reasons(second, first));
    assert(merged_reasons(merged_reasons(first, second), third) =~= merged_reasons(
        first,
        merged_reasons(second, third),
    ));
    assert(merged_reasons(first, Map::empty()) =~= first);
    assert(merged_reasons(Map::empty(), first) =~= first);
}

/// Counting a reason adds to its count and to no other.
pub proof fn law_counting_adds_to_one_reason(
    counts: Map<Seq<u8>, u64>,
    name: Seq<u8>,
    count: u64,
    other: Seq<u8>,
)
    ensures
        counted(counts, name, count).dom() == counts.dom().insert(name),
        counts.dom().contains(name) && counts[name] + count <= u64::MAX ==> counted(
            counts,
            name,
            count,
        )[name] == counts[name] + count,
        counts.dom().contains(name) && counts[name] + count > u64::MAX ==> counted(
            counts,
            name,
            count,
        )[name] == u64::MAX,
        !counts.dom().contains(name) ==> counted(counts, name, count)[name] == count,
        other != name && counts.dom().contains(other) ==> counted(counts, name, count)[other]
            == counts[other],
{
}

} // verus!
