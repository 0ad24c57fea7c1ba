//! When an observation may be trusted again.
use vstd::prelude::*;

use crate::bstr;
use crate::cache::direct;
use crate::cache::direct::{
    AbsentCapture, AbsentPathWitness, DirectInput, DirectRecord, InputCapture,
    NegativeResolutionWitness, PathWitness, PositiveCapture, PositiveResolutionWitness,
    RecordCapture, StoredIndex, WitnessFileType,
};
use crate::digest;
use crate::hex;
use crate::upath;

verus! {

/// A path leads where it led, over the same links, to the same type of file.
pub open spec fn unchanged(witness: PathWitness, current: Result<PathWitness, String>) -> bool {
    &&& current is Ok
    &&& current->Ok_0.resolved_path@ == witness.resolved_path@
    &&& current->Ok_0.canonical_path@ == witness.canonical_path@
    &&& current->Ok_0.metadata.file_type == witness.metadata.file_type
    &&& current->Ok_0.symlinks@.len() == witness.symlinks@.len()
    &&& forall|at: int|
        0 <= at < witness.symlinks@.len() ==> {
            let link = #[trigger] witness.symlinks@[at];
            let found = current->Ok_0.symlinks@[at];
            found.path@ == link.path@ && found.target@ == link.target@ && found.metadata
                == link.metadata
        }
}

/// A path is absent, below the directory below which it was.
pub open spec fn still_absent(witness: AbsentPathWitness, current: AbsentCapture) -> bool {
    current.absence is Ok && unchanged(witness.nearest_existing_ancestor, current.ancestor)
}

/// An input has the contents that it had, behind the path behind which it was.
pub open spec fn same_input(input: DirectInput, current: InputCapture) -> bool {
    &&& unchanged(input.path, current.before)
    &&& unchanged(input.path, current.after)
    &&& current.contents is Ok
    &&& current.contents->Ok_0.digest@ == input.digest@
    &&& current.contents->Ok_0.size == input.size
}

/// A search ends at the file at which it ended, and everything that it passed is absent.
pub open spec fn same_selection(
    witness: PositiveResolutionWitness,
    current: PositiveCapture,
) -> bool {
    &&& unchanged(witness.selected_path, current.selected)
    &&& forall|at: int|
        0 <= at < witness.earlier_candidates@.len() ==> still_absent(
            #[trigger] witness.earlier_candidates@[at],
            current.earlier@[at],
        )
}

proof fn lemma_path(witness: PathWitness, kind: WitnessFileType, current: Result<PathWitness, String>)
    requires
        direct::path_fault(witness) is None,
        !(kind is Symlink),
    ensures
        direct::path_change(witness, kind, current) is None <==> unchanged(witness, current),
{
    if let Ok(found) = current {
        if direct::identical(witness, found, kind) {
            assert forall|at: int| 0 <= at < witness.symlinks@.len() implies {
                let link = #[trigger] witness.symlinks@[at];
                let other = found.symlinks@[at];
                other.path@ == link.path@ && other.target@ == link.target@ && other.metadata
                    == link.metadata
            } by {
                assert(direct::same_symlink(witness.symlinks@[at], found.symlinks@[at]));
            }
        }
        if unchanged(witness, current) {
            assert forall|at: int| 0 <= at < witness.symlinks@.len() implies direct::same_symlink(
                #[trigger] witness.symlinks@[at],
                found.symlinks@[at],
            ) by {
                assert(witness.symlinks@[at].metadata == found.symlinks@[at].metadata);
            }
        }
    }
}

proof fn lemma_absent(witness: AbsentPathWitness, current: AbsentCapture)
    requires
        direct::absent_fault(witness) is None,
    ensures
        direct::absent_change(witness, current) is None <==> still_absent(witness, current),
{
    lemma_path(witness.nearest_existing_ancestor, WitnessFileType::Directory, current.ancestor);
}

proof fn lemma_absents(list: Seq<AbsentPathWitness>, current: Seq<AbsentCapture>, index: int)
    requires
        0 <= index <= list.len(),
        direct::absents_fault(list, index) is None,
    ensures
        direct::absents_change(list, current, index) is None <==> forall|at: int|
            index <= at < list.len() ==> still_absent(#[trigger] list[at], current[at]),
    decreases list.len() - index,
{
    if index < list.len() {
        lemma_absent(list[index], current[index]);
        lemma_absents(list, current, index + 1);
        assert((forall|at: int|
            index <= at < list.len() ==> still_absent(#[trigger] list[at], current[at])) <==> (
        still_absent(list[index], current[index]) && forall|at: int|
            index + 1 <= at < list.len() ==> still_absent(#[trigger] list[at], current[at])));
    }
}

proof fn lemma_roots(list: Seq<PathWitness>, current: Seq<Result<PathWitness, String>>, index: int)
    requires
        0 <= index <= list.len(),
        direct::roots_fault(list, index) is None,
    ensures
        direct::roots_change(list, current, index) is None <==> forall|at: int|
            index <= at < list.len() ==> unchanged(#[trigger] list[at], current[at]),
    decreases list.len() - index,
{
    if index < list.len() {
        lemma_path(list[index], WitnessFileType::Directory, current[index]);
        lemma_roots(list, current, index + 1);
        assert((forall|at: int|
            index <= at < list.len() ==> unchanged(#[trigger] list[at], current[at])) <==> (
        unchanged(list[index], current[index]) && forall|at: int|
            index + 1 <= at < list.len() ==> unchanged(#[trigger] list[at], current[at])));
    }
}

proof fn lemma_inputs(list: Seq<DirectInput>, current: Seq<InputCapture>, index: int)
    requires
        0 <= index <= list.len(),
        direct::inputs_fault(list, index) is None,
    ensures
        direct::inputs_change(list, current, index) is None <==> forall|at: int|
            index <= at < list.len() ==> same_input(#[trigger] list[at], current[at]),
    decreases list.len() - index,
{
    if index < list.len() {
        let input = list[index];
        lemma_path(input.path, WitnessFileType::Regular, current[index].before);
        lemma_path(input.path, WitnessFileType::Regular, current[index].after);
        lemma_inputs(list, current, index + 1);
        assert(direct::input_change(input, current[index]) is None <==> same_input(
            input,
            current[index],
        ));
        assert((forall|at: int|
            index <= at < list.len() ==> same_input(#[trigger] list[at], current[at])) <==> (
        same_input(list[index], current[index]) && forall|at: int|
            index + 1 <= at < list.len() ==> same_input(#[trigger] list[at], current[at])));
    }
}

proof fn lemma_positives(
    list: Seq<PositiveResolutionWitness>,
    inputs: Seq<DirectInput>,
    current: Seq<PositiveCapture>,
    index: int,
)
    requires
        0 <= index <= list.len(),
        direct::positives_fault(list, inputs, index) is None,
    ensures
        direct::positives_change(list, current, index) is None <==> forall|at: int|
            index <= at < list.len() ==> same_selection(#[trigger] list[at], current[at]),
    decreases list.len() - index,
{
    if index < list.len() {
        let witness = list[index];
        lemma_path(witness.selected_path, WitnessFileType::Regular, current[index].selected);
        lemma_absents(witness.earlier_candidates@, current[index].earlier@, 0);
        lemma_positives(list, inputs, current, index + 1);
        assert(direct::positive_change(witness, current[index]) is None <==> same_selection(
            witness,
            current[index],
        ));
        assert((forall|at: int|
            index <= at < list.len() ==> same_selection(#[trigger] list[at], current[at])) <==> (
        same_selection(list[index], current[index]) && forall|at: int|
            index + 1 <= at < list.len() ==> same_selection(#[trigger] list[at], current[at])));
    }
}

proof fn lemma_negatives(
    list: Seq<NegativeResolutionWitness>,
    current: Seq<AbsentCapture>,
    index: int,
)
    requires
        0 <= index <= list.len(),
        direct::negatives_fault(list, index) is None,
    ensures
        direct::negatives_change(list, current, index) is None <==> forall|at: int|
            index <= at < list.len() ==> still_absent((#[trigger] list[at]).candidate, current[at]),
    decreases list.len() - index,
{
    if index < list.len() {
        lemma_absent(list[index].candidate, current[index]);
        lemma_negatives(list, current, index + 1);
        assert((forall|at: int|
            index <= at < list.len() ==> still_absent(
                (#[trigger] list[at]).candidate,
                current[at],
            )) <==> (still_absent(list[index].candidate, current[index]) && forall|at: int|
            index + 1 <= at < list.len() ==> still_absent(
                (#[trigger] list[at]).candidate,
                current[at],
            )));
    }
}

/// A sound record is valid exactly where nothing has changed: each directory that was searched is
/// still where it was, each input has the contents that it had, before and after it is read, each
/// search still ends where it ended, and each path that had to be absent still is.
pub proof fn law_which_records_are_valid(record: DirectRecord, capture: RecordCapture)
    requires
        direct::record_fault(record) is None,
        direct::captures(record, capture),
    ensures
        direct::validation_failure(record, capture) is None <==> {
            let resolution = record.resolution;
            &&& forall|at: int|
                0 <= at < resolution.roots@.len() ==> unchanged(
                    #[trigger] resolution.roots@[at],
                    capture.roots@[at],
                )
            &&& forall|at: int|
                0 <= at < record.inputs@.len() ==> same_input(
                    #[trigger] record.inputs@[at],
                    capture.inputs@[at],
                )
            &&& forall|at: int|
                0 <= at < resolution.positive@.len() ==> same_selection(
                    #[trigger] resolution.positive@[at],
                    capture.positive@[at],
                )
            &&& forall|at: int|
                0 <= at < resolution.negative@.len() ==> still_absent(
                    (#[trigger] resolution.negative@[at]).candidate,
                    capture.negative@[at],
                )
        },
{
    lemma_roots(record.resolution.roots@, capture.roots@, 0);
    lemma_inputs(record.inputs@, capture.inputs@, 0);
    lemma_positives(record.resolution.positive@, record.inputs@, capture.positive@, 0);
    lemma_negatives(record.resolution.negative@, capture.negative@, 0);
}

proof fn lemma_input_faults(list: Seq<DirectInput>, index: int, at: int)
    requires
        0 <= index <= at < list.len(),
        direct::inputs_fault(list, index) is None,
    ensures
        direct::input_fault(list[at]) is None,
    decreases list.len() - index,
{
    if index < at {
        lemma_input_faults(list, index + 1, at);
    }
}

/// The bounds of a record: the second form of records, one to 4096 inputs, at most 1024 directories,
/// at most 16384 absent paths, and one to 256 outputs. Inputs are regular files of the recorded size
/// behind absolute paths of at most 65536 bytes.
pub proof fn law_records_are_bounded(record: DirectRecord, at: int)
    requires
        direct::record_fault(record) is None,
    ensures
        record.schema_version == 2,
        1 <= record.inputs@.len() <= 4096,
        record.resolution.roots@.len() <= 1024,
        record.resolution.negative@.len() + direct::earlier_count(record.resolution.positive@)
            <= 16384,
        1 <= record.expected_artifacts@.len() <= 256,
        0 <= at < record.inputs@.len() ==> {
            let input = record.inputs@[at];
            &&& input.path.metadata.file_type is Regular
            &&& input.path.metadata.size == input.size
            &&& input.raw_path@.len() <= 65536 && !input.raw_path@.contains(0)
            &&& 0 < input.path.resolved_path@.len() <= 65536
            &&& input.path.resolved_path@[0] == 0x2f
            &&& !input.path.resolved_path@.contains(0)
            &&& 0 < input.path.canonical_path@.len() <= 65536
            &&& input.path.canonical_path@[0] == 0x2f
            &&& !input.path.canonical_path@.contains(0)
            &&& input.path.symlinks@.len() <= 256
        },
{
    if 0 <= at < record.inputs@.len() {
        lemma_input_faults(record.inputs@, 0, at);
    }
}

proof fn lemma_occurrences(names: Seq<Seq<u8>>, name: Seq<u8>)
    ensures
        direct::occurrences(names, name) > 0 <==> names.contains(name),
    decreases names.len(),
{
    if names.len() > 0 {
        let shorter = names.drop_last();
        lemma_occurrences(shorter, name);
        if names.contains(name) {
            let at = choose|at: int| 0 <= at < names.len() && names[at] == name;
            if at < shorter.len() {
                assert(shorter[at] == name);
            }
        }
        if shorter.contains(name) {
            let at = choose|at: int| 0 <= at < shorter.len() && shorter[at] == name;
            assert(names[at] == name);
        }
        if names.last() == name {
            assert(names[names.len() - 1] == name);
        }
    }
}

proof fn lemma_observed(
    rules: Seq<direct::DepfileRuleShape>,
    rule: int,
    prerequisite: int,
)
    requires
        0 <= rule < rules.len(),
        0 <= prerequisite < rules[rule].prerequisites@.len(),
        rules[rule].prerequisites@[prerequisite].kind is Ordinary,
    ensures
        direct::observed_names(rules).contains(rules[rule].prerequisites@[prerequisite].bytes@),
    decreases rules.len(),
{
    let shorter = rules.drop_last();
    let before = direct::observed_names(shorter);
    let last = direct::ordinary_names(rules.last().prerequisites@);
    let name = rules[rule].prerequisites@[prerequisite].bytes@;
    if rule < rules.len() - 1 {
        lemma_observed(shorter, rule, prerequisite);
        let at = choose|at: int| 0 <= at < before.len() && before[at] == name;
        assert((before + last)[at] == name);
    } else {
        lemma_ordinary(rules[rule].prerequisites@, prerequisite);
        let at = choose|at: int| 0 <= at < last.len() && last[at] == name;
        assert((before + last)[before.len() + at] == name);
    }
}

proof fn lemma_ordinary(list: Seq<direct::DepfilePrerequisiteShape>, at: int)
    requires
        0 <= at < list.len(),
        list[at].kind is Ordinary,
    ensures
        direct::ordinary_names(list).contains(list[at].bytes@),
    decreases list.len(),
{
    let shorter = list.drop_last();
    let before = direct::ordinary_names(shorter);
    let all = direct::ordinary_names(list);
    if at < list.len() - 1 {
        lemma_ordinary(shorter, at);
        let from = choose|from: int| 0 <= from < before.len() && before[from] == list[at].bytes@;
        assert(all[from] == list[at].bytes@);
    } else {
        assert(all[before.len() as int] == list[at].bytes@);
    }
}

/// No dependency goes unexplained: whatever a probe named as an ordinary prerequisite, a sound record
/// holds the search that found it.
pub proof fn law_every_prerequisite_is_explained(
    record: DirectRecord,
    rule: int,
    prerequisite: int,
)
    requires
        direct::record_fault(record) is None,
        0 <= rule < record.probe_rules@.len(),
        0 <= prerequisite < record.probe_rules@[rule].prerequisites@.len(),
        record.probe_rules@[rule].prerequisites@[prerequisite].kind is Ordinary,
    ensures
        exists|at: int|
            0 <= at < record.resolution.positive@.len() && (
            #[trigger] record.resolution.positive@[at]).requested_name@
                == record.probe_rules@[rule].prerequisites@[prerequisite].bytes@,
{
    let observed = direct::observed_names(record.probe_rules@);
    let selected = direct::selected_names(record.resolution.positive@);
    let name = record.probe_rules@[rule].prerequisites@[prerequisite].bytes@;
    lemma_observed(record.probe_rules@, rule, prerequisite);
    lemma_occurrences(observed, name);
    lemma_occurrences(selected, name);
    assert(direct::occurrences(observed, name) <= direct::occurrences(selected, name));
    let at = choose|at: int| 0 <= at < selected.len() && selected[at] == name;
    assert(record.resolution.positive@[at].requested_name@ == name);
}

proof fn lemma_candidates(list: Seq<DirectRecord>, index: int)
    requires
        0 <= index <= list.len(),
    ensures
        !direct::candidates_corrupt(list, index) <==> forall|at: int|
            index <= at < list.len() ==> direct::record_fault(#[trigger] list[at]) is None
                && !direct::acted_before(list, list[at].action_key@, at),
    decreases list.len() - index,
{
    if index < list.len() {
        lemma_candidates(list, index + 1);
        assert((forall|at: int|
            index <= at < list.len() ==> direct::record_fault(#[trigger] list[at]) is None
                && !direct::acted_before(list, list[at].action_key@, at)) <==> (
        direct::record_fault(list[index]) is None && !direct::acted_before(
            list,
            list[index].action_key@,
            index,
        ) && forall|at: int|
            index + 1 <= at < list.len() ==> direct::record_fault(#[trigger] list[at]) is None
                && !direct::acted_before(list, list[at].action_key@, at)));
    }
}

/// An index is read exactly where it is a regular file of at most four megabytes, in the second form
/// of indexes, for the request that is asked for, with the checksum of its candidates, and holds one
/// to four sound records of different actions.
pub proof fn law_which_indexes_are_read(stored: StoredIndex, expected_key: Seq<u8>)
    ensures
        direct::load_miss(stored, expected_key) is None <==> (stored is File && {
            let file = stored->file->0;
            &&& stored->length <= 4 * 1024 * 1024
            &&& stored->schema_version == Some(2u32)
            &&& stored->file is Some
            &&& file.schema_version == 2
            &&& file.request_key@ == expected_key
            &&& file.checksum@ == digest::blake3_digest(stored->payload@)
            &&& 1 <= file.candidates@.len() <= 4
            &&& forall|at: int|
                0 <= at < file.candidates@.len() ==> direct::record_fault(
                    #[trigger] file.candidates@[at],
                ) is None
            &&& forall|left: int, right: int|
                0 <= left < right < file.candidates@.len() ==> (
                #[trigger] file.candidates@[left]).action_key@ != (
                #[trigger] file.candidates@[right]).action_key@
        }),
{
    if stored is File && stored->file is Some {
        let list = stored->file->0.candidates@;
        lemma_candidates(list, 0);
        if !direct::candidates_corrupt(list, 0) {
            assert forall|left: int, right: int| 0 <= left < right < list.len() implies (
            #[trigger] list[left]).action_key@ != (#[trigger] list[right]).action_key@ by {
                assert(!direct::acted_before(list, list[right].action_key@, right));
            }
        }
        if forall|left: int, right: int|
            0 <= left < right < list.len() ==> (#[trigger] list[left]).action_key@ != (
            #[trigger] list[right]).action_key@ {
            assert forall|at: int| 0 <= at < list.len() implies !direct::acted_before(
                list,
                (#[trigger] list[at]).action_key@,
                at,
            ) by {
                if direct::acted_before(list, list[at].action_key@, at) {
                    let left = choose|left: int|
                        0 <= left < at && (#[trigger] list[left]).action_key@ == list[at].action_key@;
                    assert(list[left].action_key@ != list[at].action_key@);
                }
            }
        }
    }
}

/// How many of the records before an index are kept when a record of an action is published: those
/// of other actions whose result is there.
pub open spec fn kept_before(
    list: Seq<DirectRecord>,
    present: Seq<bool>,
    action: Seq<u8>,
    count: int,
) -> nat
    decreases count,
{
    if count <= 0 {
        0
    } else if list[count - 1].action_key@ != action && count - 1 < present.len() && present[count
        - 1] {
        kept_before(list, present, action, count - 1) + 1
    } else {
        kept_before(list, present, action, count - 1)
    }
}

proof fn lemma_retained(
    list: Seq<DirectRecord>,
    present: Seq<bool>,
    action: Seq<u8>,
    count: int,
    at: int,
)
    requires
        0 <= at < count <= list.len(),
        list[at].action_key@ != action,
        at < present.len(),
        present[at],
    ensures
        direct::retained(list, present, action, count).len() == kept_before(
            list,
            present,
            action,
            count,
        ),
        kept_before(list, present, action, at) < kept_before(list, present, action, count),
        direct::retained(list, present, action, count)[kept_before(list, present, action, at) as int]
            == list[at],
    decreases count,
{
    lemma_retained_len(list, present, action, count - 1);
    if at < count - 1 {
        lemma_retained(list, present, action, count - 1, at);
    } else {
        lemma_retained_len(list, present, action, at);
    }
}

proof fn lemma_retained_len(
    list: Seq<DirectRecord>,
    present: Seq<bool>,
    action: Seq<u8>,
    count: int,
)
    ensures
        direct::retained(list, present, action, count).len() == kept_before(
            list,
            present,
            action,
            count,
        ),
    decreases count,
{
    if count > 0 {
        lemma_retained_len(list, present, action, count - 1);
    }
}

/// A published record comes first. The records of other actions whose results are there follow in
/// the order in which they stood, as long as there are no more than four; nothing else is kept.
pub proof fn law_publication_keeps_other_actions(
    list: Seq<DirectRecord>,
    present: Seq<bool>,
    record: DirectRecord,
    at: int,
)
    requires
        0 <= at < list.len(),
    ensures
        ({
            let kept = direct::published(list, present, record);
            let action = record.action_key@;
            let others = kept_before(list, present, action, list.len() as int);
            let place = kept_before(list, present, action, at);
            &&& kept[0] == record
            &&& kept.len() == (if others + 1 <= 4 {
                others + 1
            } else {
                4
            })
            &&& list[at].action_key@ != action && at < present.len() && present[at] && place < 3
                ==> kept[place as int + 1] == list[at]
        }),
{
    let action = record.action_key@;
    let rest = direct::retained(list, present, action, list.len() as int);
    let all = seq![record] + rest;
    lemma_retained_len(list, present, action, list.len() as int);
    if list[at].action_key@ != action && at < present.len() && present[at] {
        lemma_retained(list, present, action, list.len() as int, at);
        let place = kept_before(list, present, action, at) as int;
        assert(all[place + 1] == rest[place]);
    }
}

/// The file of an index: below the directory of the direct cache, in a directory that is named by
/// the first two digits of the request, under the digits of the request.
pub proof fn law_index_files(root: Seq<u8>, request: Seq<u8>)
    requires
        root.len() > 0,
        root.last() != 0x2f,
        request.len() > 0,
    ensures
        ({
            let name = bstr::utf8(hex::hex_text(request));
            &&& name.len() == 2 * request.len()
            &&& direct::index_file(root, request) == root + bstr::utf8("/v1/direct/index/"@)
                + name.take(2) + bstr::utf8("/"@) + name + bstr::utf8(".json"@)
            &&& direct::lock_file(root, request) == root + bstr::utf8("/v1/direct/locks/"@) + name
        }),
{
    let name = bstr::utf8(hex::hex_text(request));
    hex::lemma_hex_bytes(request);
    hex::law_hex_digits(request, 0);
    assert(name[0] == hex::hex_text(request)[0] as u8);
    assert(name[0] != 0x2f && name.take(2)[0] == name[0]);
    reveal_strlit("/v1/direct/index/");
    reveal_strlit("/v1/direct/locks/");
    reveal_strlit("v1/direct");
    reveal_strlit("index");
    reveal_strlit("locks");
    reveal_strlit("/");
    bstr::lemma_ascii("/v1/direct/index/"@);
    bstr::lemma_ascii("/v1/direct/locks/"@);
    bstr::lemma_ascii("v1/direct"@);
    bstr::lemma_ascii("index"@);
    bstr::lemma_ascii("locks"@);
    bstr::lemma_ascii("/"@);
    let directory = direct::direct_directory(root);
    assert(directory =~= root + seq![0x2fu8] + bstr::utf8("v1/direct"@));
    let indexes = upath::joined(directory, bstr::utf8("index"@));
    assert(indexes =~= root + seq![0x2fu8] + bstr::utf8("v1/direct"@) + seq![0x2fu8] + bstr::utf8(
        "index"@,
    ));
    assert(direct::index_file(root, request) =~= root + bstr::utf8("/v1/direct/index/"@) + name.take(
        2,
    ) + bstr::utf8("/"@) + name + bstr::utf8(".json"@));
    assert(direct::lock_file(root, request) =~= root + bstr::utf8("/v1/direct/locks/"@) + name);
}

} // verus!
