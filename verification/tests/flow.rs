use fcache::cache::direct::{
    AbsentCapture, CompilerWitnessRef, Contents, DirectDigest, DirectInput, DirectRecord,
    EncodedOsString, InputCapture, MetadataWitness, PathWitness, PositiveCapture,
    PositiveResolutionWitness, PreprocessorShape, RecordCapture, ResolutionKind,
    SearchResolutionWitnesses, WitnessFileType, DIRECT_RECORD_SCHEMA_VERSION,
};
use fcache::cache::direct::ExpectedArtifact as RecordedArtifact;
use fcache::cache::key::ActionKey;
use fcache::cache::manifest::{ArtifactKind, DestinationRole, Manifest};
use fcache::cache::request::Pair;
use fcache::cache::snapshot::{
    DirectoryEntryKind, DirectoryObservation, DirectorySnapshot, FileIdentity, FileTimestamp,
    MetadataStability,
};
use fcache::cache::restore::{DestinationFacts, RestoreFacts};
use fcache::cache::store::{
    CacheError, CacheStore, ExpectedDirectory, FileBytes, ManifestFacts, PathState, Publication,
    StoredBlob, StoredManifest,
};
use fcache::compiler::fingerprint::CompilerFingerprint;
use fcache::compiler::gfortran::{parse_gfortran_args, BypassReason};
use fcache::launcher::admission::{
    bypass_name, decide_admission, status_code, uses_direct_path, Admission, ExitState,
};
use fcache::launcher::explain::{
    explain, explain_code, explain_command, explain_compiler, ExplainReason, ExplainStart,
};
use fcache::launcher::flow::{
    DirectEnd, DirectPublication, Event, Identified, Run, Stage, Step,
};
use fcache::launcher::observation::{
    DepfilePrerequisite, DepfileShape, DepfileTarget, ExpectedArtifact, FileStat, InputFile,
    Observation, ObservedDepfileRule, Reading,
};
use fcache::launcher::observing::RealFacts;
use fcache::launcher::pending::{PendingStats, ProbeTelemetry};
use fcache::launcher::projection::{OutputFacts, OutputState, PathFacts};
use fcache::launcher::record::observation_from_direct;
use fcache::launcher::restoring::{
    capture_artifact, direct_manifest_matches, plan_locks, restore_destinations, store_result,
    validate_restore_output_contract, ArtifactReading, ArtifactStat, CaptureError, ContractFacts,
    StoreFacts,
};
use fcache::launcher::search::{
    key_of, validate_direct_candidate, Compilation, DirectSearch, KnownCompiler, SearchEnd,
    SearchEvent, SearchStep,
};
use fcache::process::{CompilerCommand, CompilerOutput, ProcessError, Stream};

const SOURCE: &[u8] = b"program source\nend\n";

fn args(values: &[&str]) -> Vec<Vec<u8>> {
    values.iter().map(|value| value.as_bytes().to_vec()).collect()
}

fn compilation() -> Compilation {
    let arguments = args(&["-cpp", "-c", "source.F90", "-o", "source.o"]);
    let invocation = parse_gfortran_args(&arguments).unwrap();
    Compilation {
        compiler: b"gfortran".to_vec(),
        arguments,
        invocation,
        cwd: b"/work".to_vec(),
        variables: vec![Pair { name: b"PATH".to_vec(), value: b"/bin".to_vec() }],
        umask: 0o022,
    }
}

fn known(major_version: u32) -> KnownCompiler {
    KnownCompiler {
        fingerprint: CompilerFingerprint {
            digest: [7; 32],
            driver: b"/usr/bin/gfortran".to_vec(),
            f951: b"/usr/libexec/f951".to_vec(),
            assembler: b"/usr/bin/as".to_vec(),
            major_version,
        },
        context: [8; 32],
    }
}

fn identity(inode: u64) -> FileIdentity {
    FileIdentity { device: 1, inode }
}

fn reading(contents: &[u8]) -> Reading {
    let stat = FileStat {
        regular: true,
        size: contents.len() as u64,
        modified: Some(5),
        identity: Some(identity(1)),
    };
    Reading { before: Ok(stat), contents: Ok(contents.to_vec()), after: Ok(stat) }
}

fn observation() -> Observation {
    Observation {
        inputs: vec![InputFile {
            raw_path: b"source.F90".to_vec(),
            observed_path: b"/work/source.F90".to_vec(),
            path: b"/work/source.F90".to_vec(),
            digest: *blake3::hash(SOURCE).as_bytes(),
            size: SOURCE.len() as u64,
        }],
        dependencies: Vec::new(),
        outputs: vec![ExpectedArtifact {
            logical_name: "object".into(),
            kind: ArtifactKind::Object,
            role: DestinationRole::Object,
            path: b"/work/source.o".to_vec(),
            probe_digest: None,
            probe_size: None,
        }],
        depfile_shape: DepfileShape {
            primary_rules: vec![ObservedDepfileRule {
                targets: vec![DepfileTarget::Ordinary(b"source.o".to_vec())],
                prerequisites: vec![DepfilePrerequisite::Ordinary(b"source.F90".to_vec())],
            }],
            dummy_targets: Vec::new(),
        },
        preprocessor: None,
    }
}

fn output() -> OutputFacts {
    OutputFacts {
        parent: Some(b"/work".to_vec()),
        state: OutputState::Absent,
        canonical: Err("absent".to_string()),
    }
}

fn contract() -> ContractFacts {
    ContractFacts {
        outputs: vec![output()],
        modules: Vec::new(),
        inputs: vec![Ok(Some(identity(1)))],
    }
}

fn key() -> ActionKey {
    key_of(&compilation(), &known(14), &observation()).unwrap()
}

fn manifest() -> Manifest {
    let facts = StoreFacts {
        inputs_before: vec![reading(SOURCE)],
        contract: contract(),
        artifacts: vec![artifact(b"object")],
        artifacts_again: vec![reading(b"object")],
        inputs_after: vec![reading(SOURCE)],
    };
    store_result(key(), &known(14).fingerprint, &observation(), b"out", b"err", &facts)
        .unwrap()
        .manifest
}

fn artifact(contents: &[u8]) -> ArtifactReading {
    let stat = ArtifactStat {
        plain_file: true,
        links: 1,
        size: contents.len() as u64,
        modified: Some(5),
        identity: Some(identity(9)),
        mode: 0o644,
    };
    ArtifactReading { before: Ok(stat), contents: Ok(contents.to_vec()), after: Ok(stat) }
}

fn snapshot() -> DirectorySnapshot {
    let stable = MetadataStability {
        kind: DirectoryEntryKind::Directory,
        identity: Some(identity(50)),
        mode: 0o755,
        size: 4096,
        modified: FileTimestamp { seconds: 1, nanoseconds: 0 },
        changed: FileTimestamp { seconds: 1, nanoseconds: 0 },
    };
    DirectorySnapshot::read(&DirectoryObservation {
        directory: b"/work".to_vec(),
        before: stable,
        entries: Vec::new(),
        after: stable,
    })
    .unwrap()
}

fn observed() -> Event {
    Event::Observed {
        outcome: Some(observation()),
        telemetry: ProbeTelemetry { preprocessing_probes: 1, dependency_probes: 1 },
        elapsed: 3,
    }
}

fn identified(major: u32) -> Event {
    Event::Identity(Some(Identified { known: known(major), reused: true, elapsed: 2 }))
}

fn exited(code: i32) -> Event {
    Event::Compiled { outcome: Ok(ExitState { code: Some(code), signal: None }), elapsed: 9 }
}

fn started(read_only: bool, direct: bool) -> Run {
    let (run, step) = Run::new(compilation(), read_only, direct, PendingStats::new());
    assert!(matches!(step, Step::OpenStore));
    run
}

fn up_to_locks(read_only: bool) -> Run {
    let mut run = started(read_only, false);
    assert!(matches!(run.advance(Event::Store(true)), Step::FindIdentity));
    assert!(matches!(run.advance(identified(14)), Step::Observe));
    assert!(matches!(run.advance(observed()), Step::AcquireLocks));
    assert!(matches!(run.advance(Event::Locked(true)), Step::CheckRestore));
    run
}

fn up_to_compile(read_only: bool) -> Run {
    let mut run = up_to_locks(read_only);
    let checked = Event::RestoreChecked {
        inputs: vec![reading(SOURCE)],
        contract: contract(),
        identity: true,
    };
    assert!(matches!(run.advance(checked), Step::LoadManifest));
    let step = run.advance(Event::Loaded(Ok(None)));
    if read_only {
        assert!(matches!(step, Step::Compile));
    } else {
        assert!(matches!(step, Step::SnapshotModules));
        assert!(matches!(run.advance(Event::Snapshot(Some(snapshot()))), Step::Compile));
    }
    run
}

#[test]
fn a_stored_result_is_put_in_place_of_a_compilation() {
    let mut run = up_to_locks(false);
    let checked = Event::RestoreChecked {
        inputs: vec![reading(SOURCE)],
        contract: contract(),
        identity: true,
    };
    assert!(matches!(run.advance(checked), Step::LoadManifest));
    assert!(matches!(run.advance(Event::Loaded(Ok(Some(manifest())))), Step::PrepareRestore));
    assert!(matches!(run.advance(Event::Staged(Ok(()))), Step::RecheckRestore));
    let rechecked =
        Event::RestoreRechecked { inputs: vec![reading(SOURCE)], contract: contract() };
    assert!(matches!(run.advance(rechecked), Step::CommitRestore));
    assert!(matches!(run.advance(Event::Committed(Ok(12))), Step::Replay));
    assert!(matches!(run.advance(Event::Replayed(Ok(()))), Step::Exit(0)));
    assert_eq!(run.stage, Stage::Done);
    let flushed = run.stats.flush().unwrap();
    assert_eq!(flushed.delta.hits, 1);
    assert_eq!(flushed.delta.bytes_restored, 12);
    assert_eq!(flushed.key, Some(key().to_hex().into_bytes()));
}

#[test]
fn a_changed_input_is_compiled_anew() {
    let mut run = up_to_locks(false);
    let checked = Event::RestoreChecked {
        inputs: vec![reading(b"program other\nend\n")],
        contract: contract(),
        identity: true,
    };
    assert!(matches!(run.advance(checked), Step::SnapshotModules));
    let mut run = up_to_locks(false);
    let checked = Event::RestoreChecked {
        inputs: vec![reading(SOURCE)],
        contract: contract(),
        identity: false,
    };
    assert!(matches!(run.advance(checked), Step::SnapshotModules));
}

#[test]
fn a_result_is_stored_after_every_check() {
    let mut run = up_to_compile(false);
    assert!(matches!(run.advance(exited(0)), Step::SnapshotModules));
    assert!(matches!(run.advance(Event::Snapshot(Some(snapshot()))), Step::ReadDepfile));
    let facts = RealFacts {
        depfile: Err("none".to_string()),
        targets: Vec::new(),
        outputs: Vec::new(),
        prerequisites: Vec::<Vec<PathFacts>>::new(),
        source: Ok(b"/work/source.F90".to_vec()),
    };
    assert!(matches!(run.advance(Event::Depfile(facts)), Step::Observe));
    assert!(matches!(run.advance(observed()), Step::RecheckIdentity));
    let valid = Event::IdentityRevalidated { valid: true, elapsed: 1 };
    assert!(matches!(run.advance(valid), Step::StoreResult));
    let step = run.advance(Event::Stored { bytes: Some(100), elapsed: 1 });
    assert!(matches!(step, Step::Exit(0)));
    let flushed = run.stats.flush().unwrap();
    assert_eq!(flushed.delta.misses, 1);
    assert_eq!(flushed.delta.bytes_stored, 100);
    assert_eq!(flushed.delta.process_counts.real_compilations, 1);
    assert!(run.stats.flush().is_none());
}

#[test]
fn a_compilation_that_changes_underway_is_not_stored() {
    let mut run = up_to_compile(false);
    run.advance(exited(0));
    run.advance(Event::Snapshot(Some(snapshot())));
    let facts = RealFacts {
        depfile: Err("none".to_string()),
        targets: Vec::new(),
        outputs: Vec::new(),
        prerequisites: Vec::<Vec<PathFacts>>::new(),
        source: Ok(b"/work/source.F90".to_vec()),
    };
    run.advance(Event::Depfile(facts));
    let mut changed = observation();
    changed.inputs[0].digest = [0; 32];
    let step = run.advance(Event::Observed {
        outcome: Some(changed),
        telemetry: ProbeTelemetry::default(),
        elapsed: 0,
    });
    assert!(matches!(step, Step::Exit(0)));
    let flushed = run.stats.flush().unwrap();
    assert_eq!(flushed.delta.bypass_reasons.get(b"inputs-changed-during-compilation"), Some(1));
    assert_eq!(flushed.delta.bytes_stored, 0);
}

#[test]
fn the_exit_code_of_the_compiler_is_handed_on() {
    let mut run = up_to_compile(false);
    assert!(matches!(run.advance(exited(3)), Step::Exit(3)));
    let mut run = up_to_compile(true);
    assert!(matches!(run.advance(exited(0)), Step::Exit(0)));
    let mut run = up_to_compile(false);
    let killed =
        Event::Compiled { outcome: Ok(ExitState { code: None, signal: Some(9) }), elapsed: 1 };
    assert!(matches!(run.advance(killed), Step::Exit(137)));
    let mut run = up_to_compile(false);
    let unstarted = Event::Compiled { outcome: Err("cannot start".to_string()), elapsed: 1 };
    assert!(matches!(run.advance(unstarted), Step::Fail(text) if text == "cannot start"));
    assert_eq!(status_code(ExitState { code: None, signal: None }), 1);
}

#[test]
fn what_cannot_be_looked_up_is_passed_through() {
    let mut run = started(false, false);
    assert!(matches!(run.advance(Event::Store(false)), Step::PassThrough { flush: true }));

    let mut run = started(false, false);
    run.advance(Event::Store(true));
    assert!(matches!(run.advance(Event::Identity(None)), Step::PassThrough { flush: true }));

    let mut run = started(false, false);
    run.advance(Event::Store(true));
    assert!(matches!(run.advance(identified(17)), Step::PassThrough { flush: true }));
    let flushed = run.stats.flush().unwrap();
    assert_eq!(flushed.delta.bypass_reasons.get(b"unsupported-compiler-version"), Some(1));

    let mut run = started(false, false);
    assert!(matches!(run.advance(Event::Locked(true)), Step::Fail(_)));
}

#[test]
fn unreadable_results_are_misses() {
    let mut run = up_to_locks(false);
    let checked = Event::RestoreChecked {
        inputs: vec![reading(SOURCE)],
        contract: contract(),
        identity: true,
    };
    run.advance(checked);
    let corrupt = Event::Loaded(Err(CacheError::Corrupt("x".to_string())));
    assert!(matches!(run.advance(corrupt), Step::SnapshotModules));
    let flushed = run.stats.flush().unwrap();
    assert_eq!(flushed.delta.corruption, 1);
    assert_eq!(flushed.delta.misses, 1);
}

fn metadata(file_type: WitnessFileType) -> MetadataWitness {
    MetadataWitness {
        file_type,
        size: SOURCE.len() as u64,
        mode: 0o644,
        device: 1,
        inode: 1,
        modified_seconds: 1,
        modified_nanoseconds: 0,
        changed_seconds: 1,
        changed_nanoseconds: 0,
    }
}

fn witness(path: &str, file_type: WitnessFileType) -> PathWitness {
    let bytes = path.as_bytes().to_vec();
    PathWitness::capture(bytes.clone(), bytes, metadata(file_type), Vec::new(), file_type).unwrap()
}

fn contents() -> Contents {
    Contents { digest: DirectDigest::hash(SOURCE), size: SOURCE.len() as u64 }
}

fn record() -> DirectRecord {
    let rules = fcache::launcher::record::direct_probe_rules(&observation());
    let mut record = DirectRecord {
        schema_version: DIRECT_RECORD_SCHEMA_VERSION,
        compiler: CompilerWitnessRef {
            context_key: DirectDigest::from_bytes([8; 32]),
            compiler_digest: DirectDigest::from_bytes([7; 32]),
        },
        inputs: vec![DirectInput::capture(
            b"source.F90",
            witness("/work/source.F90", WitnessFileType::Regular),
            contents(),
        )],
        resolution: SearchResolutionWitnesses {
            roots: vec![witness("/work", WitnessFileType::Directory)],
            positive: vec![PositiveResolutionWitness {
                kind: ResolutionKind::Source,
                requested_name: EncodedOsString::from_os_str(b"source.F90"),
                selected_input: 0,
                selected_path: witness("/work/source.F90", WitnessFileType::Regular),
                earlier_candidates: Vec::new(),
            }],
            negative: Vec::new(),
        },
        expected_artifacts: vec![RecordedArtifact {
            kind: ArtifactKind::Object,
            logical_name: "object".into(),
            destination: EncodedOsString::from_path(b"/work/source.o"),
            digest: DirectDigest::hash(b"object"),
            size: 6,
            mode: 0o644,
        }],
        probe_rules: rules,
        depfile: None,
        preprocessor: PreprocessorShape::Inactive,
        action_key: key(),
    };
    let restored = observation_from_direct(&record).unwrap();
    record.action_key = key_of(&compilation(), &known(14), &restored).unwrap();
    record
}

fn capture() -> RecordCapture {
    RecordCapture {
        roots: vec![Ok(witness("/work", WitnessFileType::Directory))],
        inputs: vec![InputCapture {
            before: Ok(witness("/work/source.F90", WitnessFileType::Regular)),
            contents: Ok(contents()),
            after: Ok(witness("/work/source.F90", WitnessFileType::Regular)),
        }],
        positive: vec![PositiveCapture {
            selected: Ok(witness("/work/source.F90", WitnessFileType::Regular)),
            earlier: Vec::new(),
        }],
        negative: Vec::<AbsentCapture>::new(),
    }
}

fn recorded_manifest() -> Manifest {
    let facts = StoreFacts {
        inputs_before: vec![reading(SOURCE)],
        contract: contract(),
        artifacts: vec![artifact(b"object")],
        artifacts_again: vec![reading(b"object")],
        inputs_after: vec![reading(SOURCE)],
    };
    let key = record().action_key;
    store_result(key, &known(14).fingerprint, &observation(), b"", b"", &facts)
        .unwrap()
        .manifest
}

#[test]
fn a_record_gives_back_what_was_observed() {
    let restored = observation_from_direct(&record()).unwrap();
    assert_eq!(restored.inputs, observation().inputs);
    assert_eq!(restored.outputs, observation().outputs);
    assert_eq!(restored.depfile_shape, observation().depfile_shape);
    assert_eq!(restored.preprocessor, None);
}

#[test]
fn a_direct_hit_needs_every_witness() {
    let mut stats = PendingStats::new();
    let (mut search, step) = DirectSearch::new(vec![record()], Vec::new()).unwrap();
    assert!(matches!(step, SearchStep::Capture));
    assert_eq!(search.current().unwrap().action_key, record().action_key);
    let compilation = compilation();
    let known = known(14);
    let step =
        search.advance(SearchEvent::Captured(capture()), &compilation, &known, &mut stats);
    assert!(matches!(step, SearchStep::CheckContract));
    let step =
        search.advance(SearchEvent::Contract(contract()), &compilation, &known, &mut stats);
    assert!(matches!(step, SearchStep::Lock));
    let step = search.advance(SearchEvent::Locked(true), &compilation, &known, &mut stats);
    assert!(matches!(step, SearchStep::CheckContract));
    let step =
        search.advance(SearchEvent::Contract(contract()), &compilation, &known, &mut stats);
    assert!(matches!(step, SearchStep::Prepare));
    let prepared = SearchEvent::Prepared(Some(recorded_manifest()));
    let step = search.advance(prepared, &compilation, &known, &mut stats);
    assert!(matches!(step, SearchStep::Recheck));
    let rechecked =
        SearchEvent::Rechecked { capture: capture(), identity: true, contract: contract() };
    let step = search.advance(rechecked, &compilation, &known, &mut stats);
    assert!(matches!(step, SearchStep::Commit));
    let step = search.advance(SearchEvent::Committed(true), &compilation, &known, &mut stats);
    assert!(matches!(step, SearchStep::Finished(SearchEnd::Hit)));
}

#[test]
fn stale_records_end_in_a_miss() {
    let mut stats = PendingStats::new();
    let (mut search, _) = DirectSearch::new(vec![record()], Vec::new()).unwrap();
    let mut changed = capture();
    changed.inputs[0].contents =
        Ok(Contents { digest: DirectDigest::hash(b"other"), size: SOURCE.len() as u64 });
    let step = search.advance(
        SearchEvent::Captured(changed),
        &compilation(),
        &known(14),
        &mut stats,
    );
    assert!(matches!(step, SearchStep::Finished(SearchEnd::Miss)));
    let (_, step) = DirectSearch::new(Vec::new(), Vec::new()).unwrap();
    assert!(matches!(step, SearchStep::Finished(SearchEnd::Miss)));
    assert!(validate_direct_candidate(&record(), &compilation(), &known(14), &capture()).is_ok());
    let mut other = known(14);
    other.context = [0; 32];
    assert!(validate_direct_candidate(&record(), &compilation(), &other, &capture()).is_err());
}

#[test]
fn a_record_without_a_result_plans_the_compilation() {
    let mut stats = PendingStats::new();
    let (mut search, _) = DirectSearch::new(Vec::new(), vec![record()]).unwrap();
    let step = search.advance(
        SearchEvent::Captured(capture()),
        &compilation(),
        &known(14),
        &mut stats,
    );
    assert!(matches!(step, SearchStep::CheckContract));
    let step = search.advance(
        SearchEvent::Contract(contract()),
        &compilation(),
        &known(14),
        &mut stats,
    );
    assert!(matches!(step, SearchStep::Finished(SearchEnd::Compile)));
    assert_eq!(search.plan.as_ref().unwrap().at, 0);

    let mut run = started(false, true);
    run.advance(Event::Store(true));
    assert!(matches!(run.advance(identified(14)), Step::ReadSource));
    assert!(matches!(run.advance(Event::Source(reading(SOURCE))), Step::SearchDirect));
    let end = DirectEnd::Compile { record: record(), observation: search.plan.unwrap().observation };
    assert!(matches!(run.advance(Event::Direct { end, elapsed: 1 }), Step::AcquireLocks));
    assert!(matches!(run.advance(Event::Locked(true)), Step::Revalidate));
    let valid = Event::Revalidated { capture: capture(), identity: true };
    assert!(matches!(run.advance(valid), Step::SnapshotModules));
}

#[test]
fn direct_hits_are_replayed_and_counted() {
    let mut run = started(false, true);
    run.advance(Event::Store(true));
    run.advance(identified(14));
    run.advance(Event::Source(reading(SOURCE)));
    let end = DirectEnd::Hit { key: record().action_key, payload: 6 };
    assert!(matches!(run.advance(Event::Direct { end, elapsed: 1 }), Step::Replay));
    assert!(matches!(run.advance(Event::Replayed(Ok(()))), Step::Exit(0)));
    let flushed = run.stats.flush().unwrap();
    assert_eq!(flushed.delta.direct_path.validated_hits, 1);
    assert_eq!(flushed.delta.hits, 1);

    let mut run = started(false, true);
    run.advance(Event::Store(true));
    run.advance(identified(14));
    run.advance(Event::Source(reading(SOURCE)));
    let end = DirectEnd::Failed(SearchEnd::Unlocked);
    assert!(matches!(run.advance(Event::Direct { end, elapsed: 1 }), Step::Observe));
}

#[test]
fn new_results_are_recorded_for_the_direct_path() {
    let mut run = started(false, true);
    run.advance(Event::Store(true));
    run.advance(identified(14));
    run.advance(Event::Source(reading(SOURCE)));
    run.advance(Event::Direct { end: DirectEnd::Miss, elapsed: 1 });
    run.advance(observed());
    run.advance(Event::Locked(true));
    run.advance(Event::RestoreChecked {
        inputs: vec![reading(SOURCE)],
        contract: contract(),
        identity: true,
    });
    run.advance(Event::Loaded(Ok(Some(manifest()))));
    run.advance(Event::Staged(Ok(())));
    run.advance(Event::RestoreRechecked { inputs: vec![reading(SOURCE)], contract: contract() });
    assert!(matches!(run.advance(Event::Committed(Ok(12))), Step::PublishDirect));
    let published =
        Event::DirectPublished { outcome: DirectPublication::Unindexed, elapsed: 1 };
    assert!(matches!(run.advance(published), Step::Replay));
}

#[test]
fn results_hold_what_was_compiled() {
    let manifest = manifest();
    assert_eq!(manifest.action_key, key());
    assert_eq!(manifest.artifacts.len(), 1);
    assert_eq!(
        manifest.artifacts[0].blob.digest,
        blake3::hash(b"object").to_hex().to_string()
    );
    assert_eq!(manifest.stdout.digest, blake3::hash(b"out").to_hex().to_string());
    assert_eq!(manifest.exit_code, 0);
    assert!(direct_manifest_matches(&record(), &recorded_manifest()));
    let mut other = recorded_manifest();
    other.artifacts.pop();
    assert!(!direct_manifest_matches(&record(), &other));
}

#[test]
fn outputs_that_change_are_not_stored() {
    assert!(capture_artifact(&artifact(b"object")).is_ok());
    let mut linked = artifact(b"object");
    linked.before = Ok(ArtifactStat { links: 2, ..linked.before.clone().unwrap() });
    assert_eq!(capture_artifact(&linked), Err(CaptureError::HardLinked));
    let mut odd = artifact(b"object");
    odd.before = Ok(ArtifactStat { plain_file: false, ..odd.before.clone().unwrap() });
    assert_eq!(capture_artifact(&odd), Err(CaptureError::NotRegular));
    let mut changed = artifact(b"object");
    changed.after = Ok(ArtifactStat { modified: Some(6), ..changed.after.clone().unwrap() });
    assert_eq!(capture_artifact(&changed), Err(CaptureError::Changed));
    let mut unread = artifact(b"object");
    unread.contents = Err("io".to_string());
    assert_eq!(capture_artifact(&unread), Err(CaptureError::Failed("io".to_string())));
}

#[test]
fn restores_write_the_observed_outputs() {
    assert!(validate_restore_output_contract(&observation(), &contract()));
    let aliased = ContractFacts {
        outputs: vec![OutputFacts {
            parent: Some(b"/work".to_vec()),
            state: OutputState::Present { regular: true, links: 1, identity: Some(identity(1)) },
            canonical: Ok(b"/work/source.o".to_vec()),
        }],
        ..contract()
    };
    assert!(!validate_restore_output_contract(&observation(), &aliased));
    let destinations = restore_destinations(&observation());
    assert_eq!(destinations.list.len(), 1);
    assert_eq!(destinations.list[0].path, b"/work/source.o");
    let plan = plan_locks(&compilation().invocation, &observation(), b"/work", true);
    assert!(plan.requested.iter().any(|lock| lock.path == b"/work/source.o"));
}

#[test]
fn only_supported_commands_are_cached() {
    let mut stats = PendingStats::new();
    let command = args(&["gfortran", "-c", "source.F90"]);
    assert!(matches!(
        decide_admission(&command, true, false, &mut stats),
        Admission::Cached(_)
    ));
    assert_eq!(stats.flush().unwrap().delta.requests, 1);
    let mut stats = PendingStats::new();
    assert!(matches!(
        decide_admission(&command, false, false, &mut stats),
        Admission::PassThrough { flush: false }
    ));
    assert!(stats.flush().is_none());
    assert!(matches!(decide_admission(&[], true, false, &mut stats), Admission::Help));
    let link = args(&["gfortran", "source.F90"]);
    assert!(matches!(
        decide_admission(&link, true, false, &mut stats),
        Admission::PassThrough { flush: true }
    ));
    let flushed = stats.flush().unwrap();
    assert_eq!(flushed.delta.bypass_reasons.get(b"link-action"), Some(1));
    let invocation = parse_gfortran_args(&args(&["-c", "@args", "x.F90"])).unwrap();
    match invocation.cacheability {
        fcache::compiler::gfortran::Cacheability::Bypass(reason) => {
            assert_eq!(bypass_name(&reason), "response-file")
        }
        other => panic!("expected a bypass, got {other:?}"),
    }
    assert!(!uses_direct_path(false, 14, &compilation().invocation));
    assert!(uses_direct_path(true, 14, &compilation().invocation));
}

#[test]
fn explanations_say_what_would_be_looked_up() {
    assert!(matches!(explain_command(&[]), ExplainStart::NoCommand));
    match explain_command(&args(&["clang", "-c", "x.c"])) {
        ExplainStart::Refused(report) => {
            assert_eq!(report.reason, Some(ExplainReason::UnsupportedCompiler));
            assert_eq!(explain_code(&report), 1);
        }
        other => panic!("expected a refusal, got {other:?}"),
    }
    assert!(matches!(
        explain_command(&args(&["gfortran", "-c", "x.F90"])),
        ExplainStart::Open(_)
    ));
    assert!(explain_compiler(&known(14).fingerprint).is_none());
    let refused = explain_compiler(&known(17).fingerprint).unwrap();
    assert_eq!(refused.reason, Some(ExplainReason::UnsupportedVersion));
    let report = explain(&compilation(), &known(14), Some(observation()));
    assert_eq!(report.reason, None);
    assert_eq!(report.action_key, Some(key().to_hex()));
    assert_eq!(report.compiler_major, Some(14));
    assert_eq!(report.inputs.len(), 1);
    assert_eq!(report.outputs[0].logical_name, "object");
    assert_eq!(explain_code(&report), 0);
    let failed = explain(&compilation(), &known(14), None);
    assert_eq!(failed.reason, Some(ExplainReason::ProbeFailed));
    assert_eq!(
        ExplainReason::<Vec<u8>>::ProbeFailed.message(""),
        "dependency-probe: dependency probe failed"
    );
    assert_eq!(
        ExplainReason::Bypassed(BypassReason::UnknownOption(b"-z".to_vec())).message("\"-z\""),
        "unknown-option: UnknownOption(\"-z\")"
    );
}

#[test]
fn commands_are_built_up() {
    let command = CompilerCommand::new(b"/bin/sh".to_vec())
        .arg(b"-c".to_vec())
        .args(&args(&["exit 7", "x"]))
        .current_dir(b"/work".to_vec())
        .tee_output(true);
    assert_eq!(command.program, b"/bin/sh");
    assert_eq!(command.args, args(&["-c", "exit 7", "x"]));
    assert_eq!(command.current_dir, Some(b"/work".to_vec()));
    assert_eq!(command.environment, None);
    assert!(command.tee_output);
    let output = CompilerOutput {
        status: ExitState { code: Some(7), signal: None },
        stdout: b"out".to_vec(),
        stderr: b"err".to_vec(),
        elapsed: 1,
    };
    assert!(!output.success());
    assert_eq!(ProcessError::ReaderPanic.message(), "compiler output reader thread panicked");
    let unread = ProcessError::Read { stream: Stream::Stderr, source: "io".to_string() };
    assert_eq!(unread.message(), "failed reading compiler stderr: io");
}

fn cache_areas(area: &str) -> Vec<ExpectedDirectory> {
    CacheStore::new(b"/cache".to_vec())
        .area_directories(area)
        .into_iter()
        .map(|path| ExpectedDirectory { path, state: PathState::Directory })
        .collect()
}

fn cached(contents: &[u8]) -> StoredBlob {
    StoredBlob {
        areas: cache_areas("blobs"),
        shard: PathState::Directory,
        file: PathState::File,
        contents: FileBytes::Read(contents.to_vec()),
    }
}

fn cached_manifest(existing: StoredManifest) -> ManifestFacts {
    ManifestFacts {
        results: cache_areas("results"),
        conflicts: cache_areas("conflicts"),
        conflict: false,
        shard: PathState::Directory,
        existing,
    }
}

#[test]
fn a_hit_gives_back_what_was_compiled() {
    let store = CacheStore::new(b"/cache".to_vec());
    let blobs = vec![cached(b"object"), cached(b"out"), cached(b"err")];
    assert!(matches!(
        store.publish(&manifest(), cached_manifest(StoredManifest::Missing), &blobs),
        Publication::Install
    ));
    let facts = RestoreFacts {
        manifest: cached_manifest(StoredManifest::Read {
            length: 100,
            parsed: Ok(manifest()),
        }),
        places: vec![DestinationFacts {
            cwd: Ok(b"/work".to_vec()),
            canonical: None,
            canonical_parent: Some(b"/work".to_vec()),
        }],
        states: vec![PathState::Missing("gone".to_string())],
        artifacts: vec![cached(b"object")],
        stdout: cached(b"out"),
        stderr: cached(b"err"),
    };
    let ready =
        store.prepare_restore(&key(), &restore_destinations(&observation()), facts).unwrap();
    assert_eq!(ready.artifacts.len(), 1);
    assert_eq!(ready.artifacts[0].destination, b"/work/source.o");
    assert_eq!(ready.artifacts[0].content, b"object");
    assert_eq!(ready.artifacts[0].role, DestinationRole::Object);
}

#[test]
fn an_explanation_names_the_key_of_the_run() {
    let run = up_to_locks(false);
    let report = explain(&compilation(), &known(14), Some(observation()));
    assert_eq!(report.action_key, Some(run.action.unwrap().to_hex()));
}
