//! What a run comes to where nothing stands against it.
use vstd::prelude::*;

use crate::cache::manifest::Manifest;
use crate::cache::snapshot::DirectorySnapshot;
use crate::compiler::gfortran::DependencyMode;
use crate::hex;
use crate::launcher::admission;
use crate::launcher::admission::ExitState;
use crate::launcher::flow;
use crate::launcher::flow::{Event, Identified, Ran, RunState, Stage, Step};
use crate::launcher::observation;
use crate::launcher::observation::{Observation, Reading};
use crate::launcher::observing;
use crate::launcher::observing::RealFacts;
use crate::launcher::pending;
use crate::launcher::pending::{Pending, ProbeTelemetry};
use crate::launcher::promises;
use crate::launcher::restoring;
use crate::launcher::restoring::ContractFacts;
use crate::launcher::search;

verus! {

/// What an event makes of a run.
#[verifier::opaque]
spec fn moved(run: RunState, event: Event) -> Ran {
    flow::transition(run, event)
}

/// The run after the first of a number of events.
#[verifier::opaque]
spec fn reached(start: RunState, events: Seq<Event>, count: int) -> Ran {
    promises::after(start, events.take(count))
}

proof fn lemma_opened(run: RunState)
    requires
        run.stage is Store,
    ensures
        moved(run, Event::Store(true)) == (Ran {
            run: RunState {
                stage: Stage::Identity, ..run
            },
            step: Step::FindIdentity,
        }),
{
    reveal(moved);
    reveal(RunState::at_store);
}

proof fn lemma_identified(run: RunState, identified: Identified)
    requires
        run.stage is Identity,
        !run.direct,
        11 <= identified.known.fingerprint.major_version <= 16,
    ensures
        moved(run, Event::Identity(Some(identified))) == (Ran {
            run: RunState {
                stage: Stage::Probe,
                stats: run.stats.identified(identified.reused, identified.elapsed),
                known: Some(identified.known),
                ..run
            },
            step: Step::Observe,
        }),
{
    reveal(moved);
    reveal(RunState::at_identity);
}

proof fn lemma_observed(run: RunState, observation: Observation, telemetry: ProbeTelemetry, elapsed: u64)
    requires
        run.stage is Probe,
        run.known is Some && run.record is None,
        !run.compilation.invocation@.syntax_only,
    ensures
        moved(run, Event::Observed { outcome: Some(observation), telemetry, elapsed }) == (Ran {
            run: RunState {
                stage: Stage::Locks,
                stats: run.stats.probed(telemetry, elapsed),
                observation: Some(observation),
                action: Some(search::action_of(run.compilation, run.known->0, observation@)),
                ..run
            },
            step: Step::AcquireLocks,
        }),
{
    reveal(moved);
    reveal(RunState::at_probe);
}

proof fn lemma_locked(run: RunState)
    requires
        run.stage is Locks,
        run.record is None,
    ensures
        moved(run, Event::Locked(true)) == (Ran {
            run: RunState {
                stage: Stage::RestoreCheck, locked: true, ..run
            },
            step: Step::CheckRestore,
        }),
{
    reveal(moved);
    reveal(RunState::at_locks);
}

proof fn lemma_checked(run: RunState, inputs: Vec<Reading>, contract: ContractFacts)
    requires
        run.stage is RestoreCheck,
        observation::unchanged(run.observation->0@.inputs, inputs@),
        restoring::contract_holds(run.observation->0@, contract),
    ensures
        moved(run, Event::RestoreChecked { inputs, contract, identity: true }) == (Ran {
            run: RunState {
                stage: Stage::Loading, ..run
            },
            step: Step::LoadManifest,
        }),
{
    reveal(moved);
    reveal(RunState::at_restore_check);
}

proof fn lemma_loaded(run: RunState, manifest: Manifest)
    requires
        run.stage is Loading,
        run.known is Some,
        manifest@.compiler_digest == hex::hex_text(run.known->0.fingerprint@.digest),
    ensures
        moved(run, Event::Loaded(Ok(Some(manifest)))) == (Ran {
            run: RunState {
                stage: Stage::Staging, ..run
            },
            step: Step::PrepareRestore,
        }),
{
    reveal(moved);
    reveal(RunState::at_loading);
}

proof fn lemma_staged(run: RunState)
    requires
        run.stage is Staging,
    ensures
        moved(run, Event::Staged(Ok(()))) == (Ran {
            run: RunState {
                stage: Stage::Recheck, ..run
            },
            step: Step::RecheckRestore,
        }),
{
    reveal(moved);
    reveal(RunState::at_staging);
}

proof fn lemma_rechecked(run: RunState, inputs: Vec<Reading>, contract: ContractFacts)
    requires
        run.stage is Recheck,
        observation::unchanged(run.observation->0@.inputs, inputs@),
        restoring::contract_holds(run.observation->0@, contract),
    ensures
        moved(run, Event::RestoreRechecked { inputs, contract }) == (Ran {
            run: RunState {
                stage: Stage::Commit, ..run
            },
            step: Step::CommitRestore,
        }),
{
    reveal(moved);
    reveal(RunState::at_recheck);
}

proof fn lemma_committed(run: RunState, payload: u64)
    requires
        run.stage is Commit,
        run.request is None,
    ensures
        moved(run, Event::Committed(Ok(payload))) == (Ran {
            run: RunState {
                stage: Stage::Replay, payload, locked: false, ..run
            },
            step: Step::Replay,
        }),
{
    reveal(moved);
    reveal(RunState::at_commit);
}

proof fn lemma_replayed(run: RunState)
    requires
        run.stage is Replay,
    ensures
        moved(run, Event::Replayed(Ok(()))) == (Ran {
            run: RunState {
                stage: Stage::Done,
                stats: run.stats.hit(run.action_name(), false, run.payload),
                locked: false,
                ..run
            },
            step: Step::Exit(0),
        }),
{
    reveal(moved);
    reveal(RunState::at_replay);
}

proof fn lemma_absent(run: RunState)
    requires
        run.stage is Loading,
        run.record is None && !run.read_only,
    ensures
        moved(run, Event::Loaded(Ok(None))) == (Ran {
            run: RunState {
                stage: Stage::Before, stats: run.stats.missed(run.action_name()), ..run
            },
            step: Step::SnapshotModules,
        }),
{
    reveal(moved);
    reveal(RunState::at_loading);
}

proof fn lemma_seen(run: RunState, before: DirectorySnapshot)
    requires
        run.stage is Before,
    ensures
        moved(run, Event::Snapshot(Some(before))) == (Ran {
            run: RunState {
                stage: Stage::Compiling, snapshot: Some(before), ..run
            },
            step: Step::Compile,
        }),
{
    reveal(moved);
    reveal(RunState::at_before);
}

proof fn lemma_compiled(run: RunState, state: ExitState, elapsed: u64)
    requires
        run.stage is Compiling,
        !run.read_only && run.snapshot is Some,
        state.succeeded(),
    ensures
        moved(run, Event::Compiled { outcome: Ok(state), elapsed }) == (Ran {
            run: RunState {
                stage: Stage::After,
                stats: run.stats.compiled(elapsed).compiler_succeeded(run.action_name()),
                exit_code: admission::exit_code(state) as i32,
                ..run
            },
            step: Step::SnapshotModules,
        }),
{
    reveal(moved);
    reveal(RunState::at_compiling);
}

proof fn lemma_changed(run: RunState, later: DirectorySnapshot)
    requires
        run.stage is After,
        flow::changed_as_predicted(run.snapshot->0, later, run.observation->0@),
    ensures
        moved(run, Event::Snapshot(Some(later))) == (Ran {
            run: RunState {
                stage: Stage::Depfile, ..run
            },
            step: Step::ReadDepfile,
        }),
{
    reveal(moved);
    reveal(RunState::at_after);
}

proof fn lemma_agreed(run: RunState, depfile: RealFacts)
    requires
        run.stage is Depfile,
        run.compilation.invocation@.dependency_mode == Some(DependencyMode::Md),
        observing::real_fault(
            run.compilation.invocation@,
            run.observation->0@,
            run.compilation.cwd@,
            depfile,
        ) is None,
    ensures
        moved(run, Event::Depfile(depfile)) == (Ran {
            run: RunState {
                stage: Stage::Inputs, ..run
            },
            step: Step::ReadInputs,
        }),
{
    reveal(moved);
    reveal(RunState::at_depfile);
}

proof fn lemma_read(run: RunState, readings: Vec<Reading>)
    requires
        run.stage is Inputs,
        run.record is None,
        run.observation->0@.preprocessor is None,
        observation::unchanged(run.observation->0@.inputs, readings@),
    ensures
        moved(run, Event::Inputs(readings)) == (Ran {
            run: RunState {
                stage: Stage::IdentityCheck, stats: run.stats.depfile_sufficed(), ..run
            },
            step: Step::RecheckIdentity,
        }),
{
    reveal(moved);
    reveal(RunState::at_inputs);
}

proof fn lemma_same(run: RunState, elapsed: u64)
    requires
        run.stage is IdentityCheck,
    ensures
        moved(run, Event::IdentityRevalidated { valid: true, elapsed }) == (Ran {
            run: RunState {
                stage: Stage::Storing, stats: run.stats.validated(elapsed), ..run
            },
            step: Step::StoreResult,
        }),
{
    reveal(moved);
    reveal(RunState::at_identity_check);
}

proof fn lemma_kept(run: RunState, bytes: u64, elapsed: u64)
    requires
        run.stage is Storing,
        run.request is None,
    ensures
        moved(run, Event::Stored { bytes: Some(bytes), elapsed }) == (Ran {
            run: RunState {
                stage: Stage::Done,
                stats: run.stats.stored(run.action_name(), bytes).publicized(elapsed),
                locked: false,
                ..run
            },
            step: Step::Exit(run.exit_code),
        }),
{
    reveal(moved);
    reveal(RunState::at_storing);
}

/// The hits, the misses, the bytes that were put in place, the bytes that were stored and the
/// compilations that were counted.
spec fn tally(counts: Pending) -> (u64, u64, u64, u64, u64) {
    (
        counts.delta.hits,
        counts.delta.misses,
        counts.delta.bytes_restored,
        counts.delta.bytes_stored,
        counts.delta.process_counts.real_compilations,
    )
}

proof fn lemma_begun_tally(
    counts: Pending,
    reused: bool,
    first: u64,
    telemetry: ProbeTelemetry,
    elapsed: u64,
)
    ensures
        tally(counts.identified(reused, first).probed(telemetry, elapsed)) == tally(counts),
{
    reveal(Pending::identified);
    reveal(Pending::probed);
}

proof fn lemma_hit_tally(counts: Pending, key: Seq<u8>, payload: u64)
    ensures
        ({
            let now = tally(counts.hit(key, false, payload));
            &&& pending::rose(tally(counts).0, now.0, 1)
            &&& pending::rose(tally(counts).2, now.2, payload as int)
            &&& now.1 == tally(counts).1 && now.3 == tally(counts).3 && now.4 == tally(counts).4
        }),
{
    reveal(Pending::hit);
}

proof fn lemma_compiled_tally(counts: Pending, key: Seq<u8>, elapsed: u64)
    ensures
        ({
            let now = tally(counts.missed(key).compiled(elapsed).compiler_succeeded(key));
            &&& pending::rose(tally(counts).1, now.1, 1)
            &&& pending::rose(tally(counts).4, now.4, 1)
            &&& now.0 == tally(counts).0 && now.2 == tally(counts).2 && now.3 == tally(counts).3
        }),
{
    reveal(Pending::missed);
    reveal(Pending::compiled);
    reveal(Pending::compiler_succeeded);
}

proof fn lemma_stored_tally(counts: Pending, key: Seq<u8>, bytes: u64, elapsed: u64)
    ensures
        ({
            let checked = counts.depfile_sufficed().validated(elapsed);
            let now = tally(checked.stored(key, bytes).publicized(elapsed));
            &&& pending::rose(tally(counts).3, now.3, bytes as int)
            &&& now.0 == tally(counts).0 && now.1 == tally(counts).1
            &&& now.2 == tally(counts).2 && now.4 == tally(counts).4
        }),
{
    reveal(Pending::depfile_sufficed);
    reveal(Pending::validated);
    reveal(Pending::stored);
    reveal(Pending::publicized);
}

proof fn lemma_none(start: RunState, events: Seq<Event>)
    ensures
        reached(start, events, 0).run == start,
        reached(start, events, events.len() as int) == promises::after(start, events),
{
    reveal(reached);
    assert(events.take(0) =~= Seq::<Event>::empty());
    assert(events.take(events.len() as int) =~= events);
}

proof fn lemma_next(start: RunState, events: Seq<Event>, at: int)
    requires
        0 <= at < events.len(),
    ensures
        reached(start, events, at + 1) == moved(reached(start, events, at).run, events[at]),
{
    reveal(moved);
    reveal(reached);
    assert(events.take(at + 1).drop_last() =~= events.take(at));
}

/// A stored result takes the place of the compilation wherever nothing stands against it: the cache
/// is there and the compiler known, the inputs are as they were observed, the outputs can be put in
/// place, the result is there and of this compiler, and putting it in place succeeds. The launcher
/// ends with zero, and one hit is counted with the bytes of the result; no compiler is run.
#[verifier::spinoff_prover]
pub proof fn law_a_stored_result_takes_the_place_of_a_compilation(
    start: RunState,
    identified: Identified,
    observation: Observation,
    telemetry: ProbeTelemetry,
    elapsed: u64,
    inputs: Vec<Reading>,
    contract: ContractFacts,
    manifest: Manifest,
    later_inputs: Vec<Reading>,
    later_contract: ContractFacts,
    payload: u64,
)
    requires
        promises::is_start(start),
        !start.direct,
        start.request is None,
        11 <= identified.known.fingerprint.major_version <= 16,
        !start.compilation.invocation@.syntax_only,
        observation::unchanged(observation@.inputs, inputs@),
        restoring::contract_holds(observation@, contract),
        manifest@.compiler_digest == hex::hex_text(identified.known.fingerprint@.digest),
        observation::unchanged(observation@.inputs, later_inputs@),
        restoring::contract_holds(observation@, later_contract),
    ensures
        ({
            let reached = promises::after(
                start,
                seq![
                    Event::Store(true),
                    Event::Identity(Some(identified)),
                    Event::Observed { outcome: Some(observation), telemetry, elapsed },
                    Event::Locked(true),
                    Event::RestoreChecked { inputs, contract, identity: true },
                    Event::Loaded(Ok(Some(manifest))),
                    Event::Staged(Ok(())),
                    Event::RestoreRechecked { inputs: later_inputs, contract: later_contract },
                    Event::Committed(Ok(payload)),
                    Event::Replayed(Ok(())),
                ],
            );
            &&& reached.step == Step::<Seq<char>>::Exit(0)
            &&& pending::rose(start.stats.delta.hits, reached.run.stats.delta.hits, 1)
            &&& pending::rose(
                start.stats.delta.bytes_restored,
                reached.run.stats.delta.bytes_restored,
                payload as int,
            )
            &&& reached.run.stats.delta.process_counts.real_compilations
                == start.stats.delta.process_counts.real_compilations
        }),
{
    let first = RunState { stage: Stage::Identity, ..start };
    lemma_opened(start);
    lemma_identified(first, identified);
    let second = RunState {
        stage: Stage::Probe,
        stats: start.stats.identified(identified.reused, identified.elapsed),
        known: Some(identified.known),
        ..start
    };
    lemma_observed(second, observation, telemetry, elapsed);
    let third = RunState {
        stage: Stage::Locks,
        stats: second.stats.probed(telemetry, elapsed),
        observation: Some(observation),
        action: Some(search::action_of(start.compilation, identified.known, observation@)),
        ..second
    };
    lemma_locked(third);
    let run = RunState { stage: Stage::RestoreCheck, locked: true, ..third };
    lemma_checked(run, inputs, contract);
    let checked = RunState { stage: Stage::Loading, ..run };
    lemma_loaded(checked, manifest);
    let loaded = RunState { stage: Stage::Staging, ..run };
    lemma_staged(loaded);
    let staged = RunState { stage: Stage::Recheck, ..run };
    lemma_rechecked(staged, later_inputs, later_contract);
    let rechecked = RunState { stage: Stage::Commit, ..run };
    lemma_committed(rechecked, payload);
    let committed = RunState { stage: Stage::Replay, payload, locked: false, ..run };
    lemma_replayed(committed);
    lemma_begun_tally(start.stats, identified.reused, identified.elapsed, telemetry, elapsed);
    lemma_hit_tally(run.stats, committed.action_name(), payload);
    let events = seq![
        Event::Store(true),
        Event::Identity(Some(identified)),
        Event::Observed { outcome: Some(observation), telemetry, elapsed },
        Event::Locked(true),
        Event::RestoreChecked { inputs, contract, identity: true },
        Event::Loaded(Ok(Some(manifest))),
        Event::Staged(Ok(())),
        Event::RestoreRechecked { inputs: later_inputs, contract: later_contract },
        Event::Committed(Ok(payload)),
        Event::Replayed(Ok(())),
    ];
    lemma_none(start, events);
    lemma_next(start, events, 0);
    lemma_next(start, events, 1);
    lemma_next(start, events, 2);
    lemma_next(start, events, 3);
    lemma_next(start, events, 4);
    lemma_next(start, events, 5);
    lemma_next(start, events, 6);
    lemma_next(start, events, 7);
    lemma_next(start, events, 8);
    lemma_next(start, events, 9);
}

/// What the compiler produced is stored wherever nothing stands against it: no result is there, the
/// compiler succeeded, the directory of the modules changed as predicted, the dependency file agrees,
/// the inputs are as they were observed, and the compiler is still the same. The launcher ends with
/// the code of the compiler, and one miss, one compilation and the bytes of the result are counted.
#[verifier::spinoff_prover]
pub proof fn law_a_new_result_is_stored(
    start: RunState,
    identified: Identified,
    observation: Observation,
    telemetry: ProbeTelemetry,
    elapsed: u64,
    inputs: Vec<Reading>,
    contract: ContractFacts,
    before: DirectorySnapshot,
    state: ExitState,
    later: DirectorySnapshot,
    depfile: RealFacts,
    readings: Vec<Reading>,
    bytes: u64,
)
    requires
        promises::is_start(start),
        !start.direct,
        !start.read_only,
        start.request is None,
        11 <= identified.known.fingerprint.major_version <= 16,
        !start.compilation.invocation@.syntax_only,
        start.compilation.invocation@.dependency_mode == Some(DependencyMode::Md),
        observation@.preprocessor is None,
        observation::unchanged(observation@.inputs, inputs@),
        restoring::contract_holds(observation@, contract),
        state.succeeded(),
        flow::changed_as_predicted(before, later, observation@),
        observing::real_fault(
            start.compilation.invocation@,
            observation@,
            start.compilation.cwd@,
            depfile,
        ) is None,
        observation::unchanged(observation@.inputs, readings@),
    ensures
        ({
            let reached = promises::after(
                start,
                seq![
                    Event::Store(true),
                    Event::Identity(Some(identified)),
                    Event::Observed { outcome: Some(observation), telemetry, elapsed },
                    Event::Locked(true),
                    Event::RestoreChecked { inputs, contract, identity: true },
                    Event::Loaded(Ok(None)),
                    Event::Snapshot(Some(before)),
                    Event::Compiled { outcome: Ok(state), elapsed },
                    Event::Snapshot(Some(later)),
                    Event::Depfile(depfile),
                    Event::Inputs(readings),
                    Event::IdentityRevalidated { valid: true, elapsed },
                    Event::Stored { bytes: Some(bytes), elapsed },
                ],
            );
            &&& reached.step == Step::<Seq<char>>::Exit(admission::exit_code(state) as i32)
            &&& pending::rose(start.stats.delta.misses, reached.run.stats.delta.misses, 1)
            &&& pending::rose(
                start.stats.delta.process_counts.real_compilations,
                reached.run.stats.delta.process_counts.real_compilations,
                1,
            )
            &&& pending::rose(
                start.stats.delta.bytes_stored,
                reached.run.stats.delta.bytes_stored,
                bytes as int,
            )
        }),
{
    let first = RunState { stage: Stage::Identity, ..start };
    lemma_opened(start);
    lemma_identified(first, identified);
    let second = RunState {
        stage: Stage::Probe,
        stats: start.stats.identified(identified.reused, identified.elapsed),
        known: Some(identified.known),
        ..start
    };
    lemma_observed(second, observation, telemetry, elapsed);
    let third = RunState {
        stage: Stage::Locks,
        stats: second.stats.probed(telemetry, elapsed),
        observation: Some(observation),
        action: Some(search::action_of(start.compilation, identified.known, observation@)),
        ..second
    };
    lemma_locked(third);
    let run = RunState { stage: Stage::RestoreCheck, locked: true, ..third };
    let name = run.action_name();
    lemma_checked(run, inputs, contract);
    let checked = RunState { stage: Stage::Loading, ..run };
    lemma_absent(checked);
    let missed = RunState { stage: Stage::Before, stats: run.stats.missed(name), ..run };
    lemma_seen(missed, before);
    let seen = RunState { stage: Stage::Compiling, snapshot: Some(before), ..missed };
    lemma_compiled(seen, state, elapsed);
    let compiled = RunState {
        stage: Stage::After,
        stats: missed.stats.compiled(elapsed).compiler_succeeded(name),
        exit_code: admission::exit_code(state) as i32,
        ..seen
    };
    lemma_changed(compiled, later);
    let changed = RunState { stage: Stage::Depfile, ..compiled };
    lemma_agreed(changed, depfile);
    let agreed = RunState { stage: Stage::Inputs, ..compiled };
    lemma_read(agreed, readings);
    let sufficed = compiled.stats.depfile_sufficed();
    let read = RunState { stage: Stage::IdentityCheck, stats: sufficed, ..compiled };
    lemma_same(read, elapsed);
    let same = RunState { stage: Stage::Storing, stats: sufficed.validated(elapsed), ..compiled };
    lemma_kept(same, bytes, elapsed);
    lemma_begun_tally(start.stats, identified.reused, identified.elapsed, telemetry, elapsed);
    lemma_compiled_tally(run.stats, name, elapsed);
    lemma_stored_tally(compiled.stats, name, bytes, elapsed);
    let events = seq![
        Event::Store(true),
        Event::Identity(Some(identified)),
        Event::Observed { outcome: Some(observation), telemetry, elapsed },
        Event::Locked(true),
        Event::RestoreChecked { inputs, contract, identity: true },
        Event::Loaded(Ok(None)),
        Event::Snapshot(Some(before)),
        Event::Compiled { outcome: Ok(state), elapsed },
        Event::Snapshot(Some(later)),
        Event::Depfile(depfile),
        Event::Inputs(readings),
        Event::IdentityRevalidated { valid: true, elapsed },
        Event::Stored { bytes: Some(bytes), elapsed },
    ];
    lemma_none(start, events);
    lemma_next(start, events, 0);
    lemma_next(start, events, 1);
    lemma_next(start, events, 2);
    lemma_next(start, events, 3);
    lemma_next(start, events, 4);
    lemma_next(start, events, 5);
    lemma_next(start, events, 6);
    lemma_next(start, events, 7);
    lemma_next(start, events, 8);
    lemma_next(start, events, 9);
    lemma_next(start, events, 10);
    lemma_next(start, events, 11);
    lemma_next(start, events, 12);
}

} // verus!
