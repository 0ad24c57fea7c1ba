//! Which environment variables the compiler sees, and which of them matter.
use vstd::prelude::*;

use crate::bstr;
use crate::cache::request;
use crate::cache::request::Pair;

verus! {

/// The contents of a list of pairs grow by the contents of the pair that is pushed.
pub broadcast proof fn lemma_pair_views_push(list: Seq<Pair>, pair: Pair)
    ensures
        #[trigger] request::pair_views(list.push(pair)) == request::pair_views(list).push(pair@),
{
    assert(request::pair_views(list.push(pair)) =~= request::pair_views(list).push(pair@));
}

/// A copy of a pair.
pub fn copy_pair(pair: &Pair) -> (copied: Pair)
    ensures
        copied@ == pair@,
{
    Pair { name: bstr::copy(pair.name.as_slice()), value: bstr::copy(pair.value.as_slice()) }
}

/// The variable belongs to the launcher itself.
pub open spec fn reserved(name: Seq<u8>) -> bool {
    bstr::has_prefix(name, bstr::utf8("FCACHE_"@))
}

/// The order of variables: by name, and by value where the names are the same.
pub open spec fn pair_before(left: Pair<Seq<u8>>, right: Pair<Seq<u8>>) -> bool {
    bstr::before(left.name, right.name) || (left.name == right.name && bstr::before(
        left.value,
        right.value,
    ))
}

fn pair_less(left: &Pair, right: &Pair) -> (yes: bool)
    ensures
        yes == pair_before(left@, right@),
{
    bstr::less(left.name.as_slice(), right.name.as_slice()) || (bstr::same(
        left.name.as_slice(),
        right.name.as_slice(),
    ) && bstr::less(left.value.as_slice(), right.value.as_slice()))
}

/// An ordered list with one more pair, after those that do not come later.
pub open spec fn placed(list: Seq<Pair<Seq<u8>>>, pair: Pair<Seq<u8>>) -> Seq<Pair<Seq<u8>>>
    decreases list.len(),
{
    if list.len() > 0 && pair_before(pair, list.last()) {
        placed(list.drop_last(), pair).push(list.last())
    } else {
        list.push(pair)
    }
}

/// The variables that the compiler sees, in order.
pub open spec fn compiler_environment(values: Seq<Pair<Seq<u8>>>) -> Seq<Pair<Seq<u8>>>
    decreases values.len(),
{
    if values.len() == 0 {
        Seq::empty()
    } else if reserved(values.last().name) {
        compiler_environment(values.drop_last())
    } else {
        placed(compiler_environment(values.drop_last()), values.last())
    }
}

proof fn lemma_placed_at(list: Seq<Pair<Seq<u8>>>, pair: Pair<Seq<u8>>, index: int)
    requires
        0 <= index <= list.len(),
        index > 0 ==> !pair_before(pair, list[index - 1]),
        forall|at: int| index <= at < list.len() ==> pair_before(pair, #[trigger] list[at]),
    ensures
        placed(list, pair) == list.insert(index, pair),
    decreases list.len(),
{
    if list.len() > index {
        let shorter = list.drop_last();
        assert forall|at: int| index <= at < shorter.len() implies pair_before(
            pair,
            #[trigger] shorter[at],
        ) by {
            assert(shorter[at] == list[at]);
        }
        lemma_placed_at(shorter, pair, index);
        assert(pair_before(pair, list[list.len() - 1]));
    }
    assert(placed(list, pair) =~= list.insert(index, pair));
}

fn place(list: &mut Vec<Pair>, pair: Pair)
    ensures
        request::pair_views(final(list)@) == placed(request::pair_views(old(list)@), pair@),
{
    let ghost all = request::pair_views(list@);
    let mut index: usize = list.len();
    while index > 0 && pair_less(&pair, &list[index - 1])
        invariant
            index <= list.len(),
            all == request::pair_views(list@),
            forall|at: int| index <= at < list.len() ==> pair_before(pair@, #[trigger] all[at]),
        decreases index,
    {
        assert(all[index - 1] == list@[index - 1]@);
        index -= 1;
    }
    proof {
        if index > 0 {
            assert(all[index - 1] == list@[index - 1]@);
        }
        lemma_placed_at(all, pair@, index as int);
    }
    list.insert(index, pair);
    assert(request::pair_views(list@) =~= all.insert(index as int, pair@));
}

/// The variables that the compiler sees: all but those of the launcher, in order.
pub fn filter_compiler_environment(values: &Vec<Pair>) -> (environment: Vec<Pair>)
    ensures
        request::pair_views(environment@) == compiler_environment(request::pair_views(values@)),
{
    let ghost all = request::pair_views(values@);
    let mut environment: Vec<Pair> = Vec::new();
    let mut index: usize = 0;
    assert(request::pair_views(environment@) =~= Seq::empty());
    assert(all.take(0) =~= Seq::empty());
    while index < values.len()
        invariant
            index <= values.len(),
            all == request::pair_views(values@),
            request::pair_views(environment@) == compiler_environment(all.take(index as int)),
        decreases values.len() - index,
    {
        assert(all.take(index + 1).drop_last() =~= all.take(index as int));
        assert(all.take(index + 1).last() == values@[index as int]@);
        if !bstr::starts_with_str(values[index].name.as_slice(), "FCACHE_") {
            let pair = copy_pair(&values[index]);
            place(&mut environment, pair);
        }
        index += 1;
    }
    assert(all.take(index as int) =~= all);
    environment
}

/// The variable can change what the compiler writes. Job-server settings of Make cannot.
pub open spec fn affects_output(name: Seq<u8>) -> bool {
    name != bstr::utf8("MAKEFLAGS"@) && name != bstr::utf8("MFLAGS"@)
}

/// The variable can change what the compiler writes.
pub fn environment_affects_compiler_output(name: &[u8]) -> (yes: bool)
    ensures
        yes == affects_output(name@),
        !yes <==> name@ == bstr::utf8("MAKEFLAGS"@) || name@ == bstr::utf8("MFLAGS"@),
{
    !bstr::is(name, "MAKEFLAGS") && !bstr::is(name, "MFLAGS")
}

/// The variables that can change what the compiler writes.
pub open spec fn relevant(environment: Seq<Pair<Seq<u8>>>) -> Seq<Pair<Seq<u8>>>
    decreases environment.len(),
{
    if environment.len() == 0 {
        Seq::empty()
    } else if affects_output(environment.last().name) {
        relevant(environment.drop_last()).push(environment.last())
    } else {
        relevant(environment.drop_last())
    }
}

/// The variables that can change what the compiler writes.
pub fn relevant_environment(environment: &Vec<Pair>) -> (kept: Vec<Pair>)
    ensures
        request::pair_views(kept@) == relevant(request::pair_views(environment@)),
{
    let ghost all = request::pair_views(environment@);
    let mut kept: Vec<Pair> = Vec::new();
    let mut index: usize = 0;
    assert(request::pair_views(kept@) =~= Seq::empty());
    assert(all.take(0) =~= Seq::empty());
    while index < environment.len()
        invariant
            index <= environment.len(),
            all == request::pair_views(environment@),
            request::pair_views(kept@) == relevant(all.take(index as int)),
        decreases environment.len() - index,
    {
        assert(all.take(index + 1).drop_last() =~= all.take(index as int));
        assert(all.take(index + 1).last() == environment@[index as int]@);
        if environment_affects_compiler_output(environment[index].name.as_slice()) {
            let pair = copy_pair(&environment[index]);
            proof {
                lemma_pair_views_push(kept@, pair);
            }
            kept.push(pair);
        }
        index += 1;
    }
    assert(all.take(index as int) =~= all);
    kept
}

/// The variable adds search directories or dependency outputs that are not modelled.
pub open spec fn changes_search(name: Seq<u8>) -> bool {
    ||| name == bstr::utf8("CPATH"@)
    ||| name == bstr::utf8("C_INCLUDE_PATH"@)
    ||| name == bstr::utf8("CPLUS_INCLUDE_PATH"@)
    ||| name == bstr::utf8("OBJC_INCLUDE_PATH"@)
    ||| name == bstr::utf8("GFORTRAN_INCLUDE_PATH"@)
    ||| name == bstr::utf8("GCC_EXEC_PREFIX"@)
    ||| name == bstr::utf8("DEPENDENCIES_OUTPUT"@)
    ||| name == bstr::utf8("SUNPRO_DEPENDENCIES"@)
}

fn changes_search_of(name: &[u8]) -> (yes: bool)
    ensures
        yes == changes_search(name@),
{
    bstr::is(name, "CPATH") || bstr::is(name, "C_INCLUDE_PATH") || bstr::is(
        name,
        "CPLUS_INCLUDE_PATH",
    ) || bstr::is(name, "OBJC_INCLUDE_PATH") || bstr::is(name, "GFORTRAN_INCLUDE_PATH")
        || bstr::is(name, "GCC_EXEC_PREFIX") || bstr::is(name, "DEPENDENCIES_OUTPUT")
        || bstr::is(name, "SUNPRO_DEPENDENCIES")
}

/// Some variable that is not empty changes the search for files in a way that is not modelled.
pub open spec fn search_unmodeled(environment: Seq<Pair<Seq<u8>>>) -> bool {
    exists|at: int|
        0 <= at < environment.len() && (#[trigger] environment[at]).value.len() > 0
            && changes_search(environment[at].name)
}

/// Some variable that is not empty changes the search for files in a way that is not modelled.
pub fn direct_search_environment_is_unmodeled(environment: &Vec<Pair>) -> (yes: bool)
    ensures
        yes == search_unmodeled(request::pair_views(environment@)),
{
    let ghost all = request::pair_views(environment@);
    let mut index: usize = 0;
    while index < environment.len()
        invariant
            index <= environment.len(),
            all == request::pair_views(environment@),
            forall|at: int|
                0 <= at < index ==> !((#[trigger] all[at]).value.len() > 0 && changes_search(
                    all[at].name,
                )),
        decreases environment.len() - index,
    {
        assert(all[index as int] == environment@[index as int]@);
        if environment[index].value.len() > 0 && changes_search_of(
            environment[index].name.as_slice(),
        ) {
            return true;
        }
        index += 1;
    }
    false
}

/// The list is in order.
pub open spec fn ordered(list: Seq<Pair<Seq<u8>>>) -> bool {
    forall|left: int, right: int|
        0 <= left < right < list.len() ==> !pair_before(
            #[trigger] list[right],
            #[trigger] list[left],
        )
}

proof fn lemma_pair_order(first: Pair<Seq<u8>>, second: Pair<Seq<u8>>, third: Pair<Seq<u8>>)
    ensures
        !pair_before(first, first),
        pair_before(first, second) ==> !pair_before(second, first),
        !pair_before(second, first) && pair_before(second, third) ==> !pair_before(third, first),
        !pair_before(second, first) && !pair_before(third, second) ==> !pair_before(third, first),
{
    bstr::lemma_before_irreflexive(first.name);
    bstr::lemma_before_irreflexive(first.value);
    bstr::lemma_before_irreflexive(second.name);
    bstr::lemma_before_irreflexive(second.value);
    lemma_total_order(first.name, second.name, third.name);
    lemma_total_order(first.value, second.value, third.value);
}

proof fn lemma_total_order(first: Seq<u8>, second: Seq<u8>, third: Seq<u8>)
    ensures
        bstr::before(first, second) ==> !bstr::before(second, first),
        bstr::before(third, second) ==> !bstr::before(second, third),
        bstr::before(third, first) ==> !bstr::before(first, third),
        first != second ==> bstr::before(first, second) || bstr::before(second, first),
        second != third ==> bstr::before(second, third) || bstr::before(third, second),
        first != third ==> bstr::before(first, third) || bstr::before(third, first),
        bstr::before(first, second) && bstr::before(second, third) ==> bstr::before(first, third),
        bstr::before(third, first) && bstr::before(first, second) ==> bstr::before(third, second),
        bstr::before(second, third) && bstr::before(third, first) ==> bstr::before(second, first),
        bstr::before(third, second) && bstr::before(second, first) ==> bstr::before(third, first),
{
    bstr::lemma_before_irreflexive(first);
    bstr::lemma_before_irreflexive(second);
    bstr::lemma_before_irreflexive(third);
    if bstr::before(first, second) && bstr::before(second, first) {
        bstr::lemma_before_transitive(first, second, first);
    }
    if bstr::before(third, second) && bstr::before(second, third) {
        bstr::lemma_before_transitive(third, second, third);
    }
    if bstr::before(third, first) && bstr::before(first, third) {
        bstr::lemma_before_transitive(third, first, third);
    }
    if bstr::before(first, second) && bstr::before(second, third) {
        bstr::lemma_before_transitive(first, second, third);
    }
    if bstr::before(third, first) && bstr::before(first, second) {
        bstr::lemma_before_transitive(third, first, second);
    }
    if bstr::before(second, third) && bstr::before(third, first) {
        bstr::lemma_before_transitive(second, third, first);
    }
    if bstr::before(third, second) && bstr::before(second, first) {
        bstr::lemma_before_transitive(third, second, first);
    }
    if first != second {
        bstr::lemma_before_total(first, second);
    }
    if second != third {
        bstr::lemma_before_total(second, third);
    }
    if first != third {
        bstr::lemma_before_total(first, third);
    }
}

proof fn lemma_placed_ordered(list: Seq<Pair<Seq<u8>>>, pair: Pair<Seq<u8>>)
    requires
        ordered(list),
    ensures
        ordered(placed(list, pair)),
        forall|other: Pair<Seq<u8>>| #[trigger]
            placed(list, pair).contains(other) <==> list.contains(other) || other == pair,
    decreases list.len(),
{
    let result = placed(list, pair);
    if list.len() > 0 && pair_before(pair, list.last()) {
        let shorter = list.drop_last();
        assert(ordered(shorter)) by {
            assert forall|left: int, right: int|
                0 <= left < right < shorter.len() implies !pair_before(
                #[trigger] shorter[right],
                #[trigger] shorter[left],
            ) by {
                assert(shorter[left] == list[left] && shorter[right] == list[right]);
            }
        }
        lemma_placed_ordered(shorter, pair);
        let inner = placed(shorter, pair);
        let last = list.last();
        assert(list =~= shorter.push(last));
        assert forall|left: int, right: int| 0 <= left < right < result.len() implies !pair_before(
            #[trigger] result[right],
            #[trigger] result[left],
        ) by {
            if right < inner.len() {
                assert(result[left] == inner[left] && result[right] == inner[right]);
            } else {
                assert(result[right] == last && result[left] == inner[left]);
                assert(inner.contains(inner[left]));
                if inner[left] == pair {
                    lemma_pair_order(pair, last, last);
                } else {
                    assert(shorter.contains(inner[left]));
                    let at = choose|at: int| 0 <= at < shorter.len() && shorter[at] == inner[left];
                    assert(list[at] == inner[left]);
                    assert(!pair_before(list[list.len() - 1], list[at]));
                }
            }
        }
        assert forall|other: Pair<Seq<u8>>| #[trigger]
            result.contains(other) <==> list.contains(other) || other == pair by {
            if result.contains(other) {
                let at = choose|at: int| 0 <= at < result.len() && result[at] == other;
                if at < inner.len() {
                    assert(inner[at] == other);
                    assert(inner.contains(other));
                    if shorter.contains(other) {
                        let from = choose|from: int|
                            0 <= from < shorter.len() && shorter[from] == other;
                        assert(list[from] == other);
                    }
                } else {
                    assert(list[list.len() - 1] == other);
                }
            }
            if list.contains(other) {
                let at = choose|at: int| 0 <= at < list.len() && list[at] == other;
                if at < shorter.len() {
                    assert(shorter[at] == other);
                    assert(inner.contains(other));
                    let from = choose|from: int| 0 <= from < inner.len() && inner[from] == other;
                    assert(result[from] == other);
                } else {
                    assert(result[result.len() - 1] == other);
                }
            }
            if other == pair {
                assert(inner.contains(pair));
                let from = choose|from: int| 0 <= from < inner.len() && inner[from] == pair;
                assert(result[from] == pair);
            }
        }
    } else {
        assert forall|left: int, right: int| 0 <= left < right < result.len() implies !pair_before(
            #[trigger] result[right],
            #[trigger] result[left],
        ) by {
            if right < list.len() {
                assert(result[left] == list[left] && result[right] == list[right]);
            } else {
                assert(result[left] == list[left] && result[right] == pair);
                if left < list.len() - 1 {
                    assert(!pair_before(list[list.len() - 1], list[left]));
                    lemma_pair_order(list[left], list.last(), pair);
                }
            }
        }
        assert forall|other: Pair<Seq<u8>>| #[trigger]
            result.contains(other) <==> list.contains(other) || other == pair by {
            if result.contains(other) {
                let at = choose|at: int| 0 <= at < result.len() && result[at] == other;
                if at < list.len() {
                    assert(list[at] == other);
                }
            }
            if list.contains(other) {
                let at = choose|at: int| 0 <= at < list.len() && list[at] == other;
                assert(result[at] == other);
            }
            if other == pair {
                assert(result[list.len() as int] == other);
            }
        }
    }
}

/// The compiler never sees a variable of the launcher, sees every other one, and sees them in one
/// order whatever order they came in.
pub proof fn law_compiler_environment(values: Seq<Pair<Seq<u8>>>)
    ensures
        ordered(compiler_environment(values)),
        forall|pair: Pair<Seq<u8>>| #[trigger]
            compiler_environment(values).contains(pair) <==> values.contains(pair) && !reserved(
                pair.name,
            ),
        forall|pair: Pair<Seq<u8>>| #[trigger]
            compiler_environment(values).contains(pair) <==> values.contains(pair)
                && !bstr::has_prefix(pair.name, bstr::utf8("FCACHE_"@)),
    decreases values.len(),
{
    if values.len() > 0 {
        let shorter = values.drop_last();
        let last = values.last();
        law_compiler_environment(shorter);
        assert(values =~= shorter.push(last));
        if !reserved(last.name) {
            lemma_placed_ordered(compiler_environment(shorter), last);
        }
        assert forall|pair: Pair<Seq<u8>>| #[trigger]
            compiler_environment(values).contains(pair) <==> values.contains(pair) && !reserved(
                pair.name,
            ) by {
            assert(values.contains(pair) <==> shorter.contains(pair) || pair == last) by {
                if values.contains(pair) {
                    let at = choose|at: int| 0 <= at < values.len() && values[at] == pair;
                    if at < shorter.len() {
                        assert(shorter[at] == pair);
                    }
                }
                if shorter.contains(pair) {
                    let at = choose|at: int| 0 <= at < shorter.len() && shorter[at] == pair;
                    assert(values[at] == pair);
                }
                assert(values[values.len() - 1] == last);
            }
            assert(compiler_environment(shorter).contains(pair) <==> shorter.contains(pair)
                && !reserved(pair.name));
        }
    }
}

/// Every variable of an environment but `MAKEFLAGS` and `MFLAGS` is relevant, with its value and in
/// its place among the others, and neither of these two is.
pub proof fn law_all_but_the_job_server_is_relevant(environment: Seq<Pair<Seq<u8>>>)
    ensures
        relevant(environment) == environment.filter(
            |pair: Pair<Seq<u8>>|
                pair.name != bstr::utf8("MAKEFLAGS"@) && pair.name != bstr::utf8("MFLAGS"@),
        ),
        forall|pair: Pair<Seq<u8>>| #[trigger]
            relevant(environment).contains(pair) <==> environment.contains(pair) && pair.name
                != bstr::utf8("MAKEFLAGS"@) && pair.name != bstr::utf8("MFLAGS"@),
    decreases environment.len(),
{
    if environment.len() > 0 {
        let shorter = environment.drop_last();
        let last = environment.last();
        law_all_but_the_job_server_is_relevant(shorter);
        assert(environment =~= shorter.push(last));
        reveal(Seq::filter);
        assert forall|pair: Pair<Seq<u8>>| #[trigger]
            relevant(environment).contains(pair) <==> environment.contains(pair) && pair.name
                != bstr::utf8("MAKEFLAGS"@) && pair.name != bstr::utf8("MFLAGS"@) by {
            assert(environment.contains(pair) <==> shorter.contains(pair) || pair == last) by {
                if environment.contains(pair) {
                    let at = choose|at: int| 0 <= at < environment.len() && environment[at] == pair;
                    if at < shorter.len() {
                        assert(shorter[at] == pair);
                    }
                }
                if shorter.contains(pair) {
                    let at = choose|at: int| 0 <= at < shorter.len() && shorter[at] == pair;
                    assert(environment[at] == pair);
                }
                assert(environment[environment.len() - 1] == last);
            }
            let before = relevant(shorter);
            let all = relevant(environment);
            assert(before.contains(pair) <==> shorter.contains(pair) && pair.name != bstr::utf8(
                "MAKEFLAGS"@,
            ) && pair.name != bstr::utf8("MFLAGS"@));
            if last.name != bstr::utf8("MAKEFLAGS"@) && last.name != bstr::utf8("MFLAGS"@) {
                assert(all == before.push(last));
                if all.contains(pair) {
                    let at = choose|at: int| 0 <= at < all.len() && all[at] == pair;
                    if at < before.len() {
                        assert(before[at] == pair);
                    }
                }
                if before.contains(pair) {
                    let at = choose|at: int| 0 <= at < before.len() && before[at] == pair;
                    assert(all[at] == pair);
                }
                assert(all[all.len() - 1] == last);
            }
        }
    }
}

/// Environments that differ in the value of a variable other than `MAKEFLAGS` and `MFLAGS`, or in
/// whether it is set, have different relevant environments.
pub proof fn law_relevant_environments_tell_apart(
    left: Seq<Pair<Seq<u8>>>,
    right: Seq<Pair<Seq<u8>>>,
    pair: Pair<Seq<u8>>,
)
    requires
        left.contains(pair),
        !right.contains(pair),
        pair.name != bstr::utf8("MAKEFLAGS"@),
        pair.name != bstr::utf8("MFLAGS"@),
    ensures
        relevant(left) != relevant(right),
{
    law_all_but_the_job_server_is_relevant(left);
    law_all_but_the_job_server_is_relevant(right);
    assert(relevant(left).contains(pair));
    assert(!relevant(right).contains(pair));
}

/// The search for files is modelled unless one of these variables is set to something: those that
/// add directories, move the compiler's own, or ask for dependency outputs.
pub proof fn law_search_variables(environment: Seq<Pair<Seq<u8>>>)
    ensures
        search_unmodeled(environment) <==> exists|at: int|
            0 <= at < environment.len() && (#[trigger] environment[at]).value != Seq::<u8>::empty()
                && {
                let name = environment[at].name;
                ||| name == bstr::utf8("CPATH"@)
                ||| name == bstr::utf8("C_INCLUDE_PATH"@)
                ||| name == bstr::utf8("CPLUS_INCLUDE_PATH"@)
                ||| name == bstr::utf8("OBJC_INCLUDE_PATH"@)
                ||| name == bstr::utf8("GFORTRAN_INCLUDE_PATH"@)
                ||| name == bstr::utf8("GCC_EXEC_PREFIX"@)
                ||| name == bstr::utf8("DEPENDENCIES_OUTPUT"@)
                ||| name == bstr::utf8("SUNPRO_DEPENDENCIES"@)
            },
{
    assert forall|at: int| 0 <= at < environment.len() implies ((#[trigger] environment[at]).value
        != Seq::<u8>::empty() <==> environment[at].value.len() > 0) by {
        if environment[at].value.len() == 0 {
            assert(environment[at].value =~= Seq::empty());
        }
    }
}

} // verus!
