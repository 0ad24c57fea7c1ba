//! What holds of every run, whatever comes of its steps.
use vstd::prelude::*;

use crate::cache::direct::DirectRecord;
use crate::cache::snapshot::DirectorySnapshot;
use crate::compiler::gfortran::DependencyMode;
use crate::launcher::admission;
use crate::launcher::flow;
use crate::launcher::flow::{Event, Ran, RunState, Stage, Step};
use crate::launcher::observation;
use crate::launcher::observation::Observed;
use crate::launcher::observing;
use crate::launcher::restoring;
use crate::launcher::search;
use crate::launcher::search::Compilation;

verus! {

/// The run after a number of events, and the step that follows.
pub open spec fn after(start: RunState, events: Seq<Event>) -> Ran
    decreases events.len(),
{
    if events.len() == 0 {
        Ran { run: start, step: Step::OpenStore }
    } else {
        flow::transition(after(start, events.drop_last()).run, events.last())
    }
}

/// A run that has not begun.
pub open spec fn is_start(run: RunState) -> bool {
    run.stage is Store && run.snapshot is None && run.record is None
}


/// The compiler ran and succeeded.
#[verifier::opaque]
pub open spec fn is_success(event: Event) -> bool {
    event matches Event::Compiled { outcome, .. } && outcome matches Ok(state) && state.succeeded()
}

/// The compiler ran and succeeded, in one of the events.
pub open spec fn saw_success(events: Seq<Event>) -> bool {
    exists|at: int| 0 <= at < events.len() && is_success(#[trigger] events[at])
}

proof fn lemma_success(events: Seq<Event>, event: Event)
    ensures
        saw_success(events) ==> saw_success(events.push(event)),
        is_success(event) ==> saw_success(events.push(event)),
{
    if saw_success(events) {
        let at = choose|at: int| 0 <= at < events.len() && is_success(#[trigger] events[at]);
        assert(events.push(event)[at] == events[at]);
    }
    assert(events.push(event)[events.len() as int] == event);
}

/// The compiler ran and ended with the code.
#[verifier::opaque]
pub open spec fn is_exit(event: Event, code: i32) -> bool {
    event matches Event::Compiled { outcome, .. } && outcome matches Ok(state)
        && admission::exit_code(state) as i32 == code
}

/// The compiler ran and ended with the code, in one of the events.
pub open spec fn saw_exit(events: Seq<Event>, code: i32) -> bool {
    exists|at: int| 0 <= at < events.len() && is_exit(#[trigger] events[at], code)
}

proof fn lemma_exit(events: Seq<Event>, event: Event, code: i32)
    ensures
        saw_exit(events, code) ==> saw_exit(events.push(event), code),
        is_exit(event, code) ==> saw_exit(events.push(event), code),
{
    if saw_exit(events, code) {
        let at = choose|at: int| 0 <= at < events.len() && is_exit(#[trigger] events[at], code);
        assert(events.push(event)[at] == events[at]);
    }
    assert(events.push(event)[events.len() as int] == event);
}

/// The directory of the modules changed as predicted.
#[verifier::opaque]
pub open spec fn is_expected_change(event: Event, before: Option<DirectorySnapshot>, observed: Observed) -> bool {
    event matches Event::Snapshot(look) && look matches Some(current) && flow::changed_as_predicted(
        before->0,
        current,
        observed,
    )
}

/// The directory of the modules changed as predicted, in one of the events.
pub open spec fn saw_expected_change(events: Seq<Event>, before: Option<DirectorySnapshot>, observed: Observed) -> bool {
    exists|at: int| 0 <= at < events.len() && is_expected_change(#[trigger] events[at], before, observed)
}

proof fn lemma_expected_change(events: Seq<Event>, event: Event, before: Option<DirectorySnapshot>, observed: Observed)
    ensures
        saw_expected_change(events, before, observed) ==> saw_expected_change(events.push(event), before, observed),
        is_expected_change(event, before, observed) ==> saw_expected_change(events.push(event), before, observed),
{
    if saw_expected_change(events, before, observed) {
        let at = choose|at: int| 0 <= at < events.len() && is_expected_change(#[trigger] events[at], before, observed);
        assert(events.push(event)[at] == events[at]);
    }
    assert(events.push(event)[events.len() as int] == event);
}

/// The dependency file that the compiler wrote agrees with what was observed.
#[verifier::opaque]
pub open spec fn is_agreeing_depfile(event: Event, compilation: Compilation, observed: Observed) -> bool {
    event matches Event::Depfile(facts) && observing::real_fault(
        compilation.invocation@,
        observed,
        compilation.cwd@,
        facts,
    ) is None
}

/// The dependency file that the compiler wrote agrees with what was observed, in one of the events.
pub open spec fn saw_agreeing_depfile(events: Seq<Event>, compilation: Compilation, observed: Observed) -> bool {
    exists|at: int| 0 <= at < events.len() && is_agreeing_depfile(#[trigger] events[at], compilation, observed)
}

proof fn lemma_agreeing_depfile(events: Seq<Event>, event: Event, compilation: Compilation, observed: Observed)
    ensures
        saw_agreeing_depfile(events, compilation, observed) ==> saw_agreeing_depfile(events.push(event), compilation, observed),
        is_agreeing_depfile(event, compilation, observed) ==> saw_agreeing_depfile(events.push(event), compilation, observed),
{
    if saw_agreeing_depfile(events, compilation, observed) {
        let at = choose|at: int| 0 <= at < events.len() && is_agreeing_depfile(#[trigger] events[at], compilation, observed);
        assert(events.push(event)[at] == events[at]);
    }
    assert(events.push(event)[events.len() as int] == event);
}

/// The inputs are unchanged after the compilation.
#[verifier::opaque]
pub open spec fn is_unchanged_inputs(event: Event, observed: Observed) -> bool {
    event matches Event::Inputs(readings) && observation::unchanged(observed.inputs, readings@)
}

/// The inputs are unchanged after the compilation, in one of the events.
pub open spec fn saw_unchanged_inputs(events: Seq<Event>, observed: Observed) -> bool {
    exists|at: int| 0 <= at < events.len() && is_unchanged_inputs(#[trigger] events[at], observed)
}

proof fn lemma_unchanged_inputs(events: Seq<Event>, event: Event, observed: Observed)
    ensures
        saw_unchanged_inputs(events, observed) ==> saw_unchanged_inputs(events.push(event), observed),
        is_unchanged_inputs(event, observed) ==> saw_unchanged_inputs(events.push(event), observed),
{
    if saw_unchanged_inputs(events, observed) {
        let at = choose|at: int| 0 <= at < events.len() && is_unchanged_inputs(#[trigger] events[at], observed);
        assert(events.push(event)[at] == events[at]);
    }
    assert(events.push(event)[events.len() as int] == event);
}

/// The preprocessor writes what it wrote before.
#[verifier::opaque]
pub open spec fn is_same_preprocessing(event: Event, observed: Observed) -> bool {
    event matches Event::Preprocessed { outcome, .. } && outcome matches Some(value)
        && observation::preprocessor_view(value) == observed.preprocessor
}

/// The preprocessor writes what it wrote before, in one of the events.
pub open spec fn saw_same_preprocessing(events: Seq<Event>, observed: Observed) -> bool {
    exists|at: int| 0 <= at < events.len() && is_same_preprocessing(#[trigger] events[at], observed)
}

proof fn lemma_same_preprocessing(events: Seq<Event>, event: Event, observed: Observed)
    ensures
        saw_same_preprocessing(events, observed) ==> saw_same_preprocessing(events.push(event), observed),
        is_same_preprocessing(event, observed) ==> saw_same_preprocessing(events.push(event), observed),
{
    if saw_same_preprocessing(events, observed) {
        let at = choose|at: int| 0 <= at < events.len() && is_same_preprocessing(#[trigger] events[at], observed);
        assert(events.push(event)[at] == events[at]);
    }
    assert(events.push(event)[events.len() as int] == event);
}

/// A second observation is like the first.
#[verifier::opaque]
pub open spec fn is_same_observation(event: Event, observed: Observed) -> bool {
    event matches Event::Observed { outcome, .. } && outcome matches Some(again)
        && observation::alike(observed, again@)
}

/// A second observation is like the first, in one of the events.
pub open spec fn saw_same_observation(events: Seq<Event>, observed: Observed) -> bool {
    exists|at: int| 0 <= at < events.len() && is_same_observation(#[trigger] events[at], observed)
}

proof fn lemma_same_observation(events: Seq<Event>, event: Event, observed: Observed)
    ensures
        saw_same_observation(events, observed) ==> saw_same_observation(events.push(event), observed),
        is_same_observation(event, observed) ==> saw_same_observation(events.push(event), observed),
{
    if saw_same_observation(events, observed) {
        let at = choose|at: int| 0 <= at < events.len() && is_same_observation(#[trigger] events[at], observed);
        assert(events.push(event)[at] == events[at]);
    }
    assert(events.push(event)[events.len() as int] == event);
}

/// What the record witnesses holds after the compilation.
#[verifier::opaque]
pub open spec fn is_held_record(event: Event, record: Option<DirectRecord>) -> bool {
    event matches Event::RecordCaptured(capture) && search::record_holds(record->0, capture)
}

/// What the record witnesses holds after the compilation, in one of the events.
pub open spec fn saw_held_record(events: Seq<Event>, record: Option<DirectRecord>) -> bool {
    exists|at: int| 0 <= at < events.len() && is_held_record(#[trigger] events[at], record)
}

proof fn lemma_held_record(events: Seq<Event>, event: Event, record: Option<DirectRecord>)
    ensures
        saw_held_record(events, record) ==> saw_held_record(events.push(event), record),
        is_held_record(event, record) ==> saw_held_record(events.push(event), record),
{
    if saw_held_record(events, record) {
        let at = choose|at: int| 0 <= at < events.len() && is_held_record(#[trigger] events[at], record);
        assert(events.push(event)[at] == events[at]);
    }
    assert(events.push(event)[events.len() as int] == event);
}

/// The compiler is still the one that was identified.
#[verifier::opaque]
pub open spec fn is_same_compiler(event: Event) -> bool {
    event matches Event::IdentityRevalidated { valid, .. } && valid
}

/// The compiler is still the one that was identified, in one of the events.
pub open spec fn saw_same_compiler(events: Seq<Event>) -> bool {
    exists|at: int| 0 <= at < events.len() && is_same_compiler(#[trigger] events[at])
}

proof fn lemma_same_compiler(events: Seq<Event>, event: Event)
    ensures
        saw_same_compiler(events) ==> saw_same_compiler(events.push(event)),
        is_same_compiler(event) ==> saw_same_compiler(events.push(event)),
{
    if saw_same_compiler(events) {
        let at = choose|at: int| 0 <= at < events.len() && is_same_compiler(#[trigger] events[at]);
        assert(events.push(event)[at] == events[at]);
    }
    assert(events.push(event)[events.len() as int] == event);
}

/// What a restore rests on holds, and the compiler is the one that was identified.
#[verifier::opaque]
pub open spec fn is_restorable(event: Event, observed: Observed) -> bool {
    event matches Event::RestoreChecked { inputs, contract, identity } && identity
        && observation::unchanged(observed.inputs, inputs@) && restoring::contract_holds(
        observed,
        contract,
    )
}

/// What a restore rests on holds, and the compiler is the one that was identified, in one of the events.
pub open spec fn saw_restorable(events: Seq<Event>, observed: Observed) -> bool {
    exists|at: int| 0 <= at < events.len() && is_restorable(#[trigger] events[at], observed)
}

proof fn lemma_restorable(events: Seq<Event>, event: Event, observed: Observed)
    ensures
        saw_restorable(events, observed) ==> saw_restorable(events.push(event), observed),
        is_restorable(event, observed) ==> saw_restorable(events.push(event), observed),
{
    if saw_restorable(events, observed) {
        let at = choose|at: int| 0 <= at < events.len() && is_restorable(#[trigger] events[at], observed);
        assert(events.push(event)[at] == events[at]);
    }
    assert(events.push(event)[events.len() as int] == event);
}

/// What a restore rests on holds once more.
#[verifier::opaque]
pub open spec fn is_still_restorable(event: Event, observed: Observed) -> bool {
    event matches Event::RestoreRechecked { inputs, contract } && observation::unchanged(
        observed.inputs,
        inputs@,
    ) && restoring::contract_holds(observed, contract)
}

/// What a restore rests on holds once more, in one of the events.
pub open spec fn saw_still_restorable(events: Seq<Event>, observed: Observed) -> bool {
    exists|at: int| 0 <= at < events.len() && is_still_restorable(#[trigger] events[at], observed)
}

proof fn lemma_still_restorable(events: Seq<Event>, event: Event, observed: Observed)
    ensures
        saw_still_restorable(events, observed) ==> saw_still_restorable(events.push(event), observed),
        is_still_restorable(event, observed) ==> saw_still_restorable(events.push(event), observed),
{
    if saw_still_restorable(events, observed) {
        let at = choose|at: int| 0 <= at < events.len() && is_still_restorable(#[trigger] events[at], observed);
        assert(events.push(event)[at] == events[at]);
    }
    assert(events.push(event)[events.len() as int] == event);
}

/// The compilation did what was observed before it: by its dependency file and its inputs, or by a
/// second observation.
pub open spec fn settled(compilation: Compilation, observed: Observed, events: Seq<Event>) -> bool {
    if compilation.invocation@.dependency_mode == Some(DependencyMode::Md) {
        saw_unchanged_inputs(events, observed) && (observed.preprocessor is Some
            ==> saw_same_preprocessing(events, observed))
    } else {
        saw_same_observation(events, observed)
    }
}

/// Every check of a new result was passed.
pub open spec fn every_check_passed(run: RunState, events: Seq<Event>) -> bool {
    let observed = run.observation->0@;
    &&& !run.read_only
    &&& saw_success(events)
    &&& saw_expected_change(events, run.snapshot, observed)
    &&& saw_agreeing_depfile(events, run.compilation, observed)
    &&& settled(run.compilation, observed, events)
    &&& run.record is Some ==> saw_held_record(events, run.record)
    &&& saw_same_compiler(events)
}

/// How far the checks of a new result have come.
spec fn progress(stage: Stage) -> int {
    match stage {
        Stage::After => 1,
        Stage::Depfile => 2,
        Stage::Inputs => 3,
        Stage::SecondProbe => 3,
        Stage::Preprocessing => 4,
        Stage::RecordCheck => 5,
        Stage::IdentityCheck => 6,
        Stage::Storing => 7,
        Stage::Publication => 7,
        _ => 0,
    }
}

/// What the stage of a run says of the events that led to it.
spec fn evidence(run: RunState, events: Seq<Event>) -> bool {
    let stage = run.stage;
    let observed = run.observation->0@;
    let full = run.compilation.invocation@.dependency_mode == Some(DependencyMode::Md);
    &&& stage is Before || progress(stage) >= 1 ==> !run.read_only
    &&& progress(stage) >= 1 ==> saw_success(events) && saw_exit(events, run.exit_code)
    &&& progress(stage) >= 2 ==> saw_expected_change(events, run.snapshot, observed)
    &&& progress(stage) >= 3 ==> saw_agreeing_depfile(events, run.compilation, observed)
    &&& stage is Inputs || stage is Preprocessing ==> full
    &&& stage is SecondProbe ==> !full
    &&& stage is Preprocessing ==> saw_unchanged_inputs(events, observed)
    &&& progress(stage) >= 5 ==> settled(run.compilation, observed, events)
    &&& progress(stage) >= 6 && run.record is Some ==> saw_held_record(events, run.record)
    &&& progress(stage) >= 7 ==> saw_same_compiler(events)
    &&& stage is Loading || stage is Staging || stage is Recheck || stage is Commit
        ==> saw_restorable(events, observed)
}

/// What a step says of the event that it follows, and of those before it.
spec fn told(ran: Ran, event: Event, events: Seq<Event>) -> bool {
    &&& ran.step is StoreResult ==> ran.run.stage is Storing
    &&& ran.step is CommitRestore ==> ran.run.stage is Commit && is_still_restorable(
        event,
        ran.run.observation->0@,
    )
    &&& ran.step matches Step::Exit(code) ==> (code == 0 && event is Replayed) || saw_exit(
        events,
        code,
    )
}

proof fn lemma_all_seen(
    events: Seq<Event>,
    event: Event,
    code: i32,
    before: Option<DirectorySnapshot>,
    compilation: Compilation,
    observed: Observed,
    record: Option<DirectRecord>,
)
    ensures
        saw_success(events) || is_success(event) ==> saw_success(events.push(event)),
        saw_exit(events, code) || is_exit(event, code) ==> saw_exit(events.push(event), code),
        saw_expected_change(events, before, observed) || is_expected_change(event, before, observed) ==> saw_expected_change(events.push(event), before, observed),
        saw_agreeing_depfile(events, compilation, observed) || is_agreeing_depfile(event, compilation, observed) ==> saw_agreeing_depfile(events.push(event), compilation, observed),
        saw_unchanged_inputs(events, observed) || is_unchanged_inputs(event, observed) ==> saw_unchanged_inputs(events.push(event), observed),
        saw_same_preprocessing(events, observed) || is_same_preprocessing(event, observed) ==> saw_same_preprocessing(events.push(event), observed),
        saw_same_observation(events, observed) || is_same_observation(event, observed) ==> saw_same_observation(events.push(event), observed),
        saw_held_record(events, record) || is_held_record(event, record) ==> saw_held_record(events.push(event), record),
        saw_same_compiler(events) || is_same_compiler(event) ==> saw_same_compiler(events.push(event)),
        saw_restorable(events, observed) || is_restorable(event, observed) ==> saw_restorable(events.push(event), observed),
        saw_still_restorable(events, observed) || is_still_restorable(event, observed) ==> saw_still_restorable(events.push(event), observed),
{
    lemma_success(events, event);
    lemma_exit(events, event, code);
    lemma_expected_change(events, event, before, observed);
    lemma_agreeing_depfile(events, event, compilation, observed);
    lemma_unchanged_inputs(events, event, observed);
    lemma_same_preprocessing(events, event, observed);
    lemma_same_observation(events, event, observed);
    lemma_held_record(events, event, record);
    lemma_same_compiler(events, event);
    lemma_restorable(events, event, observed);
    lemma_still_restorable(events, event, observed);
}


proof fn lemma_evidence_stays(run: RunState, events: Seq<Event>, event: Event)
    requires
        evidence(run, events),
    ensures
        evidence(flow::transition(run, event).run, events.push(event)),
        told(flow::transition(run, event), event, events.push(event)),
{
    match event {
        Event::Store(_) => lemma_store_keeps(run, events, event),
        Event::Identity(_) => lemma_identity_keeps(run, events, event),
        Event::Source(_) => lemma_source_keeps(run, events, event),
        Event::Direct { .. } => lemma_direct_keeps(run, events, event),
        Event::Replayed(_) => lemma_replayed_keeps(run, events, event),
        Event::Observed { .. } => lemma_observed_keeps(run, events, event),
        Event::Locked(_) => lemma_locked_keeps(run, events, event),
        Event::RestoreChecked { .. } => lemma_restorechecked_keeps(run, events, event),
        Event::Loaded(_) => lemma_loaded_keeps(run, events, event),
        Event::Staged(_) => lemma_staged_keeps(run, events, event),
        Event::RestoreRechecked { .. } => lemma_restorerechecked_keeps(run, events, event),
        Event::Committed(_) => lemma_committed_keeps(run, events, event),
        Event::DirectPublished { .. } => lemma_directpublished_keeps(run, events, event),
        Event::Revalidated { .. } => lemma_revalidated_keeps(run, events, event),
        Event::Snapshot(_) => lemma_snapshot_keeps(run, events, event),
        Event::Compiled { .. } => lemma_compiled_keeps(run, events, event),
        Event::Depfile(_) => lemma_depfile_keeps(run, events, event),
        Event::Inputs(_) => lemma_inputs_keeps(run, events, event),
        Event::Preprocessed { .. } => lemma_preprocessed_keeps(run, events, event),
        Event::RecordCaptured(_) => lemma_recordcaptured_keeps(run, events, event),
        Event::IdentityRevalidated { .. } => lemma_identityrevalidated_keeps(run, events, event),
        Event::Stored { .. } => lemma_stored_keeps(run, events, event),
    }
}


proof fn lemma_store_keeps(run: RunState, events: Seq<Event>, event: Event)
    requires
        evidence(run, events),
        event is Store,
    ensures
        evidence(flow::transition(run, event).run, events.push(event)),
        told(flow::transition(run, event), event, events.push(event)),
{
    let next = flow::transition(run, event).run;
    lemma_all_seen(
        events,
        event,
        next.exit_code,
        next.snapshot,
        next.compilation,
        next.observation->0@,
        next.record,
    );
    reveal(RunState::confused);
    reveal(RunState::at_store);
}


proof fn lemma_identity_keeps(run: RunState, events: Seq<Event>, event: Event)
    requires
        evidence(run, events),
        event is Identity,
    ensures
        evidence(flow::transition(run, event).run, events.push(event)),
        told(flow::transition(run, event), event, events.push(event)),
{
    let next = flow::transition(run, event).run;
    lemma_all_seen(
        events,
        event,
        next.exit_code,
        next.snapshot,
        next.compilation,
        next.observation->0@,
        next.record,
    );
    reveal(RunState::confused);
    reveal(RunState::at_identity);
}


proof fn lemma_source_keeps(run: RunState, events: Seq<Event>, event: Event)
    requires
        evidence(run, events),
        event is Source,
    ensures
        evidence(flow::transition(run, event).run, events.push(event)),
        told(flow::transition(run, event), event, events.push(event)),
{
    let next = flow::transition(run, event).run;
    lemma_all_seen(
        events,
        event,
        next.exit_code,
        next.snapshot,
        next.compilation,
        next.observation->0@,
        next.record,
    );
    reveal(RunState::confused);
    reveal(RunState::at_source);
}


proof fn lemma_direct_keeps(run: RunState, events: Seq<Event>, event: Event)
    requires
        evidence(run, events),
        event is Direct,
    ensures
        evidence(flow::transition(run, event).run, events.push(event)),
        told(flow::transition(run, event), event, events.push(event)),
{
    let next = flow::transition(run, event).run;
    lemma_all_seen(
        events,
        event,
        next.exit_code,
        next.snapshot,
        next.compilation,
        next.observation->0@,
        next.record,
    );
    reveal(RunState::confused);
    reveal(RunState::at_direct);
}


proof fn lemma_replayed_keeps(run: RunState, events: Seq<Event>, event: Event)
    requires
        evidence(run, events),
        event is Replayed,
    ensures
        evidence(flow::transition(run, event).run, events.push(event)),
        told(flow::transition(run, event), event, events.push(event)),
{
    let next = flow::transition(run, event).run;
    lemma_all_seen(
        events,
        event,
        next.exit_code,
        next.snapshot,
        next.compilation,
        next.observation->0@,
        next.record,
    );
    reveal(RunState::confused);
    reveal(RunState::at_direct_replay);
    reveal(RunState::at_replay);
}


proof fn lemma_observed_keeps(run: RunState, events: Seq<Event>, event: Event)
    requires
        evidence(run, events),
        event is Observed,
    ensures
        evidence(flow::transition(run, event).run, events.push(event)),
        told(flow::transition(run, event), event, events.push(event)),
{
    let next = flow::transition(run, event).run;
    lemma_all_seen(
        events,
        event,
        next.exit_code,
        next.snapshot,
        next.compilation,
        next.observation->0@,
        next.record,
    );
    reveal(RunState::confused);
    reveal(RunState::at_probe);
    reveal(RunState::at_second_probe);
    reveal(is_same_observation);
}


proof fn lemma_locked_keeps(run: RunState, events: Seq<Event>, event: Event)
    requires
        evidence(run, events),
        event is Locked,
    ensures
        evidence(flow::transition(run, event).run, events.push(event)),
        told(flow::transition(run, event), event, events.push(event)),
{
    let next = flow::transition(run, event).run;
    lemma_all_seen(
        events,
        event,
        next.exit_code,
        next.snapshot,
        next.compilation,
        next.observation->0@,
        next.record,
    );
    reveal(RunState::confused);
    reveal(RunState::at_locks);
}


proof fn lemma_restorechecked_keeps(run: RunState, events: Seq<Event>, event: Event)
    requires
        evidence(run, events),
        event is RestoreChecked,
    ensures
        evidence(flow::transition(run, event).run, events.push(event)),
        told(flow::transition(run, event), event, events.push(event)),
{
    let next = flow::transition(run, event).run;
    lemma_all_seen(
        events,
        event,
        next.exit_code,
        next.snapshot,
        next.compilation,
        next.observation->0@,
        next.record,
    );
    reveal(RunState::confused);
    reveal(RunState::at_restore_check);
    reveal(is_restorable);
}


proof fn lemma_loaded_keeps(run: RunState, events: Seq<Event>, event: Event)
    requires
        evidence(run, events),
        event is Loaded,
    ensures
        evidence(flow::transition(run, event).run, events.push(event)),
        told(flow::transition(run, event), event, events.push(event)),
{
    let next = flow::transition(run, event).run;
    lemma_all_seen(
        events,
        event,
        next.exit_code,
        next.snapshot,
        next.compilation,
        next.observation->0@,
        next.record,
    );
    reveal(RunState::confused);
    reveal(RunState::at_loading);
}


proof fn lemma_staged_keeps(run: RunState, events: Seq<Event>, event: Event)
    requires
        evidence(run, events),
        event is Staged,
    ensures
        evidence(flow::transition(run, event).run, events.push(event)),
        told(flow::transition(run, event), event, events.push(event)),
{
    let next = flow::transition(run, event).run;
    lemma_all_seen(
        events,
        event,
        next.exit_code,
        next.snapshot,
        next.compilation,
        next.observation->0@,
        next.record,
    );
    reveal(RunState::confused);
    reveal(RunState::at_staging);
}


proof fn lemma_restorerechecked_keeps(run: RunState, events: Seq<Event>, event: Event)
    requires
        evidence(run, events),
        event is RestoreRechecked,
    ensures
        evidence(flow::transition(run, event).run, events.push(event)),
        told(flow::transition(run, event), event, events.push(event)),
{
    let next = flow::transition(run, event).run;
    lemma_all_seen(
        events,
        event,
        next.exit_code,
        next.snapshot,
        next.compilation,
        next.observation->0@,
        next.record,
    );
    reveal(RunState::confused);
    reveal(RunState::at_recheck);
    reveal(is_still_restorable);
}


proof fn lemma_committed_keeps(run: RunState, events: Seq<Event>, event: Event)
    requires
        evidence(run, events),
        event is Committed,
    ensures
        evidence(flow::transition(run, event).run, events.push(event)),
        told(flow::transition(run, event), event, events.push(event)),
{
    let next = flow::transition(run, event).run;
    lemma_all_seen(
        events,
        event,
        next.exit_code,
        next.snapshot,
        next.compilation,
        next.observation->0@,
        next.record,
    );
    reveal(RunState::confused);
    reveal(RunState::at_commit);
}


proof fn lemma_directpublished_keeps(run: RunState, events: Seq<Event>, event: Event)
    requires
        evidence(run, events),
        event is DirectPublished,
    ensures
        evidence(flow::transition(run, event).run, events.push(event)),
        told(flow::transition(run, event), event, events.push(event)),
{
    let next = flow::transition(run, event).run;
    lemma_all_seen(
        events,
        event,
        next.exit_code,
        next.snapshot,
        next.compilation,
        next.observation->0@,
        next.record,
    );
    reveal(RunState::confused);
    reveal(RunState::at_hit_publication);
    reveal(RunState::at_publication);
}


proof fn lemma_revalidated_keeps(run: RunState, events: Seq<Event>, event: Event)
    requires
        evidence(run, events),
        event is Revalidated,
    ensures
        evidence(flow::transition(run, event).run, events.push(event)),
        told(flow::transition(run, event), event, events.push(event)),
{
    let next = flow::transition(run, event).run;
    lemma_all_seen(
        events,
        event,
        next.exit_code,
        next.snapshot,
        next.compilation,
        next.observation->0@,
        next.record,
    );
    reveal(RunState::confused);
    reveal(RunState::at_revalidation);
}


proof fn lemma_snapshot_keeps(run: RunState, events: Seq<Event>, event: Event)
    requires
        evidence(run, events),
        event is Snapshot,
    ensures
        evidence(flow::transition(run, event).run, events.push(event)),
        told(flow::transition(run, event), event, events.push(event)),
{
    let next = flow::transition(run, event).run;
    lemma_all_seen(
        events,
        event,
        next.exit_code,
        next.snapshot,
        next.compilation,
        next.observation->0@,
        next.record,
    );
    reveal(RunState::confused);
    reveal(RunState::at_before);
    reveal(RunState::at_after);
    reveal(is_expected_change);
}


proof fn lemma_compiled_keeps(run: RunState, events: Seq<Event>, event: Event)
    requires
        evidence(run, events),
        event is Compiled,
    ensures
        evidence(flow::transition(run, event).run, events.push(event)),
        told(flow::transition(run, event), event, events.push(event)),
{
    let next = flow::transition(run, event).run;
    lemma_all_seen(
        events,
        event,
        next.exit_code,
        next.snapshot,
        next.compilation,
        next.observation->0@,
        next.record,
    );
    reveal(RunState::confused);
    reveal(RunState::at_compiling);
    reveal(is_success);
    reveal(is_exit);
}


proof fn lemma_depfile_keeps(run: RunState, events: Seq<Event>, event: Event)
    requires
        evidence(run, events),
        event is Depfile,
    ensures
        evidence(flow::transition(run, event).run, events.push(event)),
        told(flow::transition(run, event), event, events.push(event)),
{
    let next = flow::transition(run, event).run;
    lemma_all_seen(
        events,
        event,
        next.exit_code,
        next.snapshot,
        next.compilation,
        next.observation->0@,
        next.record,
    );
    reveal(RunState::confused);
    reveal(RunState::at_depfile);
    reveal(is_agreeing_depfile);
}


proof fn lemma_inputs_keeps(run: RunState, events: Seq<Event>, event: Event)
    requires
        evidence(run, events),
        event is Inputs,
    ensures
        evidence(flow::transition(run, event).run, events.push(event)),
        told(flow::transition(run, event), event, events.push(event)),
{
    let next = flow::transition(run, event).run;
    lemma_all_seen(
        events,
        event,
        next.exit_code,
        next.snapshot,
        next.compilation,
        next.observation->0@,
        next.record,
    );
    reveal(RunState::confused);
    reveal(RunState::at_inputs);
    reveal(is_unchanged_inputs);
}


proof fn lemma_preprocessed_keeps(run: RunState, events: Seq<Event>, event: Event)
    requires
        evidence(run, events),
        event is Preprocessed,
    ensures
        evidence(flow::transition(run, event).run, events.push(event)),
        told(flow::transition(run, event), event, events.push(event)),
{
    let next = flow::transition(run, event).run;
    lemma_all_seen(
        events,
        event,
        next.exit_code,
        next.snapshot,
        next.compilation,
        next.observation->0@,
        next.record,
    );
    reveal(RunState::confused);
    reveal(RunState::at_preprocessing);
    reveal(is_same_preprocessing);
}


proof fn lemma_recordcaptured_keeps(run: RunState, events: Seq<Event>, event: Event)
    requires
        evidence(run, events),
        event is RecordCaptured,
    ensures
        evidence(flow::transition(run, event).run, events.push(event)),
        told(flow::transition(run, event), event, events.push(event)),
{
    let next = flow::transition(run, event).run;
    lemma_all_seen(
        events,
        event,
        next.exit_code,
        next.snapshot,
        next.compilation,
        next.observation->0@,
        next.record,
    );
    reveal(RunState::confused);
    reveal(RunState::at_record_check);
    reveal(is_held_record);
}


proof fn lemma_identityrevalidated_keeps(run: RunState, events: Seq<Event>, event: Event)
    requires
        evidence(run, events),
        event is IdentityRevalidated,
    ensures
        evidence(flow::transition(run, event).run, events.push(event)),
        told(flow::transition(run, event), event, events.push(event)),
{
    let next = flow::transition(run, event).run;
    lemma_all_seen(
        events,
        event,
        next.exit_code,
        next.snapshot,
        next.compilation,
        next.observation->0@,
        next.record,
    );
    reveal(RunState::confused);
    reveal(RunState::at_identity_check);
    reveal(is_same_compiler);
}


proof fn lemma_stored_keeps(run: RunState, events: Seq<Event>, event: Event)
    requires
        evidence(run, events),
        event is Stored,
    ensures
        evidence(flow::transition(run, event).run, events.push(event)),
        told(flow::transition(run, event), event, events.push(event)),
{
    let next = flow::transition(run, event).run;
    lemma_all_seen(
        events,
        event,
        next.exit_code,
        next.snapshot,
        next.compilation,
        next.observation->0@,
        next.record,
    );
    reveal(RunState::confused);
    reveal(RunState::at_storing);
}


proof fn lemma_evidence(start: RunState, events: Seq<Event>)
    requires
        is_start(start),
    ensures
        evidence(after(start, events).run, events),
        events.len() > 0 ==> told(after(start, events), events.last(), events),
    decreases events.len(),
{
    if events.len() > 0 {
        lemma_evidence(start, events.drop_last());
        lemma_evidence_stays(
            after(start, events.drop_last()).run,
            events.drop_last(),
            events.last(),
        );
        assert(events.drop_last().push(events.last()) =~= events);
    }
}

/// A new result is stored only where every check was passed: the compiler succeeded; the directory
/// of the modules changed as predicted and not otherwise; the dependency file agrees; what was
/// observed before the compilation was still so after it; what the record of the direct path
/// witnesses, where there is one, held; and the compiler was still the same.
pub proof fn law_results_are_stored_only_after_every_check(start: RunState, events: Seq<Event>)
    requires
        is_start(start),
        after(start, events).step is StoreResult,
    ensures
        every_check_passed(after(start, events).run, events),
{
    lemma_evidence(start, events);
}

/// A stored result is put in place only where the inputs were unchanged, and the outputs could be
/// put in place, both before the result was staged and after; and where the compiler was still the
/// one that was identified.
pub proof fn law_results_are_restored_only_after_every_check(start: RunState, events: Seq<Event>)
    requires
        is_start(start),
        after(start, events).step is CommitRestore,
    ensures
        saw_restorable(events, after(start, events).run.observation->0@),
        is_still_restorable(events.last(), after(start, events).run.observation->0@),
{
    lemma_evidence(start, events);
}

/// The launcher ends with the code with which the compiler ended, or with zero where a stored
/// result took the place of the compilation and its messages were repeated.
pub proof fn law_the_exit_code_is_that_of_the_compiler(start: RunState, events: Seq<Event>)
    requires
        is_start(start),
        after(start, events).step is Exit,
    ensures
        saw_exit(events, after(start, events).step->Exit_0) || (after(start, events).step->Exit_0
            == 0 && events.last() is Replayed),
{
    lemma_evidence(start, events);
}

} // verus!
