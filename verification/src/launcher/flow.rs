//! What happens with a compilation that may be cached.
//!
//! A run says what has to be done next and is told what came of it. Everything that can go wrong with
//! the cache ends in the compiler doing the work; a new result is stored only once every check was
//! passed.
use vstd::prelude::*;
use vstd::string::*;

use crate::bstr;
use crate::cache::direct::{DirectRecord, RecordCapture};
use crate::cache::key::ActionKey;
use crate::cache::manifest::Manifest;
use crate::cache::request;
use crate::cache::request::DirectRequestKey;
use crate::cache::snapshot;
use crate::cache::snapshot::DirectorySnapshot;
use crate::cache::store;
use crate::cache::store::CacheError;
use crate::compiler::gfortran::DependencyMode;
use crate::digest;
use crate::hex;
use crate::launcher::admission;
use crate::launcher::admission::ExitState;
use crate::launcher::observation;
use crate::launcher::observation::{Observation, Observed, PreprocessorObservation, Reading};
use crate::launcher::observing;
use crate::launcher::observing::RealFacts;
use crate::launcher::pending::{Pending, PendingStats, ProbeTelemetry};
use crate::launcher::restoring;
use crate::launcher::restoring::ContractFacts;
use crate::launcher::search;
use crate::launcher::search::{Compilation, KnownCompiler, SearchEnd};
use crate::names;

verus! {

/// What a run waits for.
#[derive(Clone, Copy, Debug, PartialEq, Eq, Structural)]
pub enum Stage {
    Store,
    Identity,
    Source,
    Direct,
    DirectReplay,
    Probe,
    Locks,
    RestoreCheck,
    Loading,
    Staging,
    Recheck,
    Commit,
    HitPublication,
    Replay,
    Revalidation,
    Before,
    Compiling,
    After,
    Depfile,
    Inputs,
    Preprocessing,
    SecondProbe,
    RecordCheck,
    IdentityCheck,
    Storing,
    Publication,
    Done,
}

/// What has to be done next.
#[derive(Debug)]
pub enum Step<S = String> {
    /// The cache is opened.
    OpenStore,
    /// The compiler is identified.
    FindIdentity,
    /// The source is read.
    ReadSource,
    /// The candidates of the request are searched.
    SearchDirect,
    /// The messages of the result are repeated.
    Replay,
    /// It is found out what the compilation reads and writes.
    Observe,
    /// The outputs are locked.
    AcquireLocks,
    /// The inputs, the places of the outputs and the compiler are looked at.
    CheckRestore,
    /// The manifest of the action is loaded.
    LoadManifest,
    /// The stored result is staged.
    PrepareRestore,
    /// The inputs and the places of the outputs are looked at once more.
    RecheckRestore,
    /// The stored result is put in place.
    CommitRestore,
    /// What the compilation reads is recorded for the direct path.
    PublishDirect,
    /// What the record witnesses and the compiler are looked at.
    Revalidate,
    /// The directory of the modules is looked at.
    SnapshotModules,
    /// The compiler runs.
    Compile,
    /// The dependency file of the compilation is read.
    ReadDepfile,
    /// The inputs are read.
    ReadInputs,
    /// The preprocessor is asked once more.
    Preprocess,
    /// What the record witnesses is looked at.
    RecheckRecord,
    /// The compiler is looked at.
    RecheckIdentity,
    /// The new result is stored.
    StoreResult,
    /// The compiler takes over. What was counted is written first where `flush` says so.
    PassThrough { flush: bool },
    /// The launcher ends with a code.
    Exit(i32),
    /// The launcher ends with a message.
    Fail(S),
}

/// What has to be done next, in views.
pub type Ordered = Step<Seq<char>>;

impl View for Step {
    type V = Ordered;

    open spec fn view(&self) -> Ordered {
        match *self {
            Step::OpenStore => Step::OpenStore,
            Step::FindIdentity => Step::FindIdentity,
            Step::ReadSource => Step::ReadSource,
            Step::SearchDirect => Step::SearchDirect,
            Step::Replay => Step::Replay,
            Step::Observe => Step::Observe,
            Step::AcquireLocks => Step::AcquireLocks,
            Step::CheckRestore => Step::CheckRestore,
            Step::LoadManifest => Step::LoadManifest,
            Step::PrepareRestore => Step::PrepareRestore,
            Step::RecheckRestore => Step::RecheckRestore,
            Step::CommitRestore => Step::CommitRestore,
            Step::PublishDirect => Step::PublishDirect,
            Step::Revalidate => Step::Revalidate,
            Step::SnapshotModules => Step::SnapshotModules,
            Step::Compile => Step::Compile,
            Step::ReadDepfile => Step::ReadDepfile,
            Step::ReadInputs => Step::ReadInputs,
            Step::Preprocess => Step::Preprocess,
            Step::RecheckRecord => Step::RecheckRecord,
            Step::RecheckIdentity => Step::RecheckIdentity,
            Step::StoreResult => Step::StoreResult,
            Step::PassThrough { flush } => Step::PassThrough { flush },
            Step::Exit(code) => Step::Exit(code),
            Step::Fail(text) => Step::Fail(text@),
        }
    }
}

/// The compiler as it was identified.
#[derive(Debug)]
pub struct Identified {
    pub known: KnownCompiler,
    /// It was known before.
    pub reused: bool,
    pub elapsed: u64,
}

/// How the direct path ended.
#[derive(Debug)]
pub enum DirectEnd {
    /// A result is in place.
    Hit { key: ActionKey, payload: u64 },
    /// A record says what the compilation reads.
    Compile { record: DirectRecord, observation: Observation },
    Miss,
    Failed(SearchEnd),
}

/// How recording for the direct path ended.
#[derive(Clone, Copy, Debug, PartialEq, Eq, Structural)]
pub enum DirectPublication {
    Done,
    /// There is nothing that could be recorded.
    Unrecorded,
    /// The record could not be written.
    Unindexed,
}

/// What came of a step.
#[derive(Debug)]
pub enum Event {
    Store(bool),
    Identity(Option<Identified>),
    Source(Reading),
    Direct { end: DirectEnd, elapsed: u64 },
    Replayed(Result<(), String>),
    Observed { outcome: Option<Observation>, telemetry: ProbeTelemetry, elapsed: u64 },
    Locked(bool),
    RestoreChecked { inputs: Vec<Reading>, contract: ContractFacts, identity: bool },
    Loaded(Result<Option<Manifest>, CacheError>),
    Staged(Result<(), CacheError>),
    RestoreRechecked { inputs: Vec<Reading>, contract: ContractFacts },
    /// The size of the result that is in place.
    Committed(Result<u64, CacheError>),
    DirectPublished { outcome: DirectPublication, elapsed: u64 },
    Revalidated { capture: RecordCapture, identity: bool },
    Snapshot(Option<DirectorySnapshot>),
    Compiled { outcome: Result<ExitState, String>, elapsed: u64 },
    Depfile(RealFacts),
    Inputs(Vec<Reading>),
    Preprocessed { outcome: Option<Option<PreprocessorObservation>>, elapsed: u64 },
    RecordCaptured(RecordCapture),
    IdentityRevalidated { valid: bool, elapsed: u64 },
    /// The size of the result that was stored.
    Stored { bytes: Option<u64>, elapsed: u64 },
}

/// A run, and what it has found out.
#[derive(Debug)]
pub struct Run {
    pub compilation: Compilation,
    pub read_only: bool,
    /// The direct path may be tried.
    pub direct: bool,
    pub stage: Stage,
    pub stats: PendingStats,
    pub known: Option<KnownCompiler>,
    /// The request of the direct path.
    pub request: Option<DirectRequestKey>,
    /// The record that says what the compilation reads.
    pub record: Option<DirectRecord>,
    pub observation: Option<Observation>,
    /// The key of the compilation, or of the result that is in place.
    pub action: Option<ActionKey>,
    /// The size of the result that is in place.
    pub payload: u64,
    /// The directory of the modules before the compilation.
    pub snapshot: Option<DirectorySnapshot>,
    pub exit_code: i32,
    /// The locks of the outputs are held.
    pub locked: bool,
}

/// The contents of a `Run`.
pub struct RunState {
    pub compilation: Compilation,
    pub read_only: bool,
    pub direct: bool,
    pub stage: Stage,
    pub stats: Pending,
    pub known: Option<KnownCompiler>,
    pub request: Option<Seq<u8>>,
    pub record: Option<DirectRecord>,
    pub observation: Option<Observation>,
    pub action: Option<Seq<u8>>,
    pub payload: u64,
    pub snapshot: Option<DirectorySnapshot>,
    pub exit_code: i32,
    pub locked: bool,
}

impl View for Run {
    type V = RunState;

    open spec fn view(&self) -> RunState {
        RunState {
            compilation: self.compilation,
            read_only: self.read_only,
            direct: self.direct,
            stage: self.stage,
            stats: self.stats@,
            known: self.known,
            request: match self.request {
                Some(key) => Some(key@),
                None => None,
            },
            record: self.record,
            observation: self.observation,
            action: match self.action {
                Some(key) => Some(key@),
                None => None,
            },
            payload: self.payload,
            snapshot: self.snapshot,
            exit_code: self.exit_code,
            locked: self.locked,
        }
    }
}

/// The run and the next step.
pub struct Ran {
    pub run: RunState,
    pub step: Ordered,
}

impl RunState {
    /// The run waits for something else.
    pub open spec fn awaiting(self, stage: Stage, step: Ordered) -> Ran {
        Ran { run: RunState { stage, ..self }, step }
    }

    /// The run is over.
    pub open spec fn ending(self, step: Ordered) -> Ran {
        Ran { run: RunState { stage: Stage::Done, locked: false, ..self }, step }
    }

    /// The run has counted something.
    pub open spec fn having(self, stats: Pending) -> RunState {
        RunState { stats, ..self }
    }

    /// The key of the compilation, as it is written.
    pub open spec fn action_name(self) -> Seq<u8> {
        store::action_name(self.action->0)
    }

    /// The compiler takes over without a lookup.
    pub open spec fn giving_up(self, reason: Seq<char>) -> Ran {
        self.having(self.stats.not_attempted(reason)).ending(Step::PassThrough { flush: true })
    }

    /// The compiler did the work, and its result is not stored.
    pub open spec fn withholding(self, reason: Seq<char>) -> Ran {
        self.having(self.stats.not_published(reason)).ending(Step::Exit(self.exit_code))
    }

    /// It is known what the compilation reads and writes.
    pub open spec fn observed(self) -> Ran {
        let found = self.observation->0@;
        if self.compilation.invocation@.syntax_only && observation::has_module(found.outputs) {
            self.giving_up("syntax-only-module-outputs"@)
        } else {
            RunState {
                action: Some(
                    match self.record {
                        Some(record) => record.action_key@,
                        None => search::action_of(self.compilation, self.known->0, found),
                    },
                ),
                ..self
            }.awaiting(Stage::Locks, Step::AcquireLocks)
        }
    }

    /// There is no result that could be put in place.
    pub open spec fn missing(self) -> Ran {
        let missed = self.having(self.stats.missed(self.action_name()));
        if self.record is Some {
            missed.awaiting(Stage::Revalidation, Step::Revalidate)
        } else {
            missed.preparing()
        }
    }

    /// The compiler is about to run.
    pub open spec fn preparing(self) -> Ran {
        if self.read_only {
            self.awaiting(Stage::Compiling, Step::Compile)
        } else {
            self.awaiting(Stage::Before, Step::SnapshotModules)
        }
    }

    /// A stored result could not be read.
    pub open spec fn unreadable(self, error: CacheError) -> Ran {
        match error {
            CacheError::Miss => self.missing(),
            CacheError::Corrupt(_) => self.having(
                self.stats.unread(self.action_name(), true),
            ).missing(),
            CacheError::Manifest(_) => self.having(
                self.stats.unread(self.action_name(), true),
            ).missing(),
            _ => self.having(self.stats.unread(self.action_name(), false)).missing(),
        }
    }

    /// What was observed still holds. The last checks follow.
    pub open spec fn concluding(self) -> Ran {
        if self.record is Some {
            self.awaiting(Stage::RecordCheck, Step::RecheckRecord)
        } else {
            self.awaiting(Stage::IdentityCheck, Step::RecheckIdentity)
        }
    }

    /// The direct path is not of use, or was not tried.
    pub open spec fn probing(self) -> Ran {
        self.awaiting(Stage::Probe, Step::Observe)
    }

    /// What it means for the direct path how its publication ended.
    pub open spec fn published(self, outcome: DirectPublication) -> RunState {
        match outcome {
            DirectPublication::Done => self,
            DirectPublication::Unrecorded => self.having(
                self.stats.fallen_back("record-publication"@),
            ),
            DirectPublication::Unindexed => self.having(
                self.stats.fallen_back("index-publication"@),
            ),
        }
    }
}

/// The names are those of the modules that the compilation writes, in order.
pub open spec fn is_prediction(predicted: Seq<Seq<u8>>, observed: Observed) -> bool {
    &&& names::sorted(predicted)
    &&& forall|name: Seq<u8>| #[trigger]
        predicted.contains(name) <==> observation::predicts(
            observed.outputs,
            name,
            observed.outputs.len() as int,
        )
}

/// Between two looks at the directory of the modules, only what the compilation was to write has
/// changed.
pub open spec fn changed_as_predicted(
    before: DirectorySnapshot,
    after: DirectorySnapshot,
    observed: Observed,
) -> bool {
    exists|predicted: Seq<Seq<u8>>| #[trigger]
        is_prediction(predicted, observed) && snapshot::change_fault(before, after, predicted)
            is None
}

impl RunState {
    /// An answer came to a question that was not asked.
    #[verifier::opaque]
    pub open spec fn confused(self) -> Ran {
        self.ending(Step::Fail("unexpected event"@))
    }

    /// The cache was opened, or not.
    #[verifier::opaque]
    pub open spec fn at_store(self, opened: bool) -> Ran {
        if opened {
            self.awaiting(Stage::Identity, Step::FindIdentity)
        } else {
            self.having(self.stats.without_store()).ending(Step::PassThrough { flush: true })
        }
    }

    /// The compiler was identified, or not.
    #[verifier::opaque]
    pub open spec fn at_identity(self, outcome: Option<Identified>) -> Ran {
        match outcome {
            None => self.giving_up("compiler-fingerprint"@),
            Some(identified) => {
                let major = identified.known.fingerprint.major_version;
                let next = RunState { known: Some(identified.known), ..self }.having(
                    self.stats.identified(identified.reused, identified.elapsed),
                );
                if !(11 <= major <= 16) {
                    next.giving_up("unsupported-compiler-version"@)
                } else if admission::direct_path_open(
                    self.direct,
                    major,
                    self.compilation.invocation@,
                ) {
                    next.awaiting(Stage::Source, Step::ReadSource)
                } else {
                    next.probing()
                }
            },
        }
    }

    /// The source was read.
    #[verifier::opaque]
    pub open spec fn at_source(self, reading: Reading) -> Ran {
        match admission::direct_request(
            self.compilation.compiler@,
            bstr::views(self.compilation.arguments@),
            self.compilation.invocation@,
            self.compilation.cwd@,
            request::pair_views(self.compilation.variables@),
            reading,
            self.compilation.umask,
        ) {
            Some(wanted) => RunState {
                request: Some(digest::blake3_digest(request::request_preimage(wanted))),
                ..self
            }.awaiting(Stage::Direct, Step::SearchDirect),
            None => self.probing(),
        }
    }

    /// The direct path ended.
    #[verifier::opaque]
    pub open spec fn at_direct(self, end: DirectEnd, elapsed: u64) -> Ran {
        match end {
            DirectEnd::Hit { key, payload } => RunState {
                action: Some(key@),
                payload,
                ..self
            }.having(self.stats.searched(elapsed)).awaiting(Stage::DirectReplay, Step::Replay),
            DirectEnd::Compile { record, observation } => RunState {
                record: Some(record),
                observation: Some(observation),
                ..self
            }.having(self.stats.searched(elapsed).planned()).observed(),
            DirectEnd::Miss => self.having(self.stats.searched(elapsed)).probing(),
            DirectEnd::Failed(reason) => self.having(
                self.stats.fallen_back(reason.failure()),
            ).probing(),
        }
    }

    /// The messages of a result of the direct path were repeated, or not.
    #[verifier::opaque]
    pub open spec fn at_direct_replay(self, outcome: Result<(), String>) -> Ran {
        match outcome {
            Err(text) => self.having(self.stats.launcher_failed(self.action_name())).ending(
                Step::Fail(text@),
            ),
            Ok(_) => self.having(self.stats.hit(self.action_name(), true, self.payload)).ending(
                Step::Exit(0),
            ),
        }
    }

    /// The compilation was observed, or not.
    #[verifier::opaque]
    pub open spec fn at_probe(
        self,
        outcome: Option<Observation>,
        telemetry: ProbeTelemetry,
        elapsed: u64,
    ) -> Ran {
        match outcome {
            None => self.having(self.stats.probed(telemetry, elapsed)).giving_up(
                "dependency-probe"@,
            ),
            Some(observation) => RunState { observation: Some(observation), ..self }.having(
                self.stats.probed(telemetry, elapsed),
            ).observed(),
        }
    }

    /// The outputs were locked, or not.
    #[verifier::opaque]
    pub open spec fn at_locks(self, locked: bool) -> Ran {
        if !locked {
            self.giving_up("output-lock"@)
        } else if self.record is Some {
            RunState { locked: true, ..self }.missing()
        } else {
            RunState { locked: true, ..self }.awaiting(Stage::RestoreCheck, Step::CheckRestore)
        }
    }

    /// What a restore rests on was looked at.
    #[verifier::opaque]
    pub open spec fn at_restore_check(
        self,
        inputs: Vec<Reading>,
        contract: ContractFacts,
        identity: bool,
    ) -> Ran {
        let found = self.observation->0@;
        if observation::unchanged(found.inputs, inputs@) && restoring::contract_holds(
            found,
            contract,
        ) && identity {
            self.awaiting(Stage::Loading, Step::LoadManifest)
        } else {
            self.missing()
        }
    }

    /// The manifest was loaded, or not.
    #[verifier::opaque]
    pub open spec fn at_loading(self, outcome: Result<Option<Manifest>, CacheError>) -> Ran {
        match outcome {
            Err(error) => self.unreadable(error),
            Ok(None) => self.missing(),
            Ok(Some(manifest)) => if manifest@.compiler_digest == hex::hex_text(
                self.known->0.fingerprint@.digest,
            ) {
                self.awaiting(Stage::Staging, Step::PrepareRestore)
            } else {
                self.missing()
            },
        }
    }

    /// The result was staged, or not.
    #[verifier::opaque]
    pub open spec fn at_staging(self, outcome: Result<(), CacheError>) -> Ran {
        match outcome {
            Err(error) => self.unreadable(error),
            Ok(_) => self.awaiting(Stage::Recheck, Step::RecheckRestore),
        }
    }

    /// What a restore rests on was looked at once more.
    #[verifier::opaque]
    pub open spec fn at_recheck(self, inputs: Vec<Reading>, contract: ContractFacts) -> Ran {
        let found = self.observation->0@;
        if observation::unchanged(found.inputs, inputs@) && restoring::contract_holds(
            found,
            contract,
        ) {
            self.awaiting(Stage::Commit, Step::CommitRestore)
        } else {
            self.missing()
        }
    }

    /// The result was put in place, or not.
    #[verifier::opaque]
    pub open spec fn at_commit(self, outcome: Result<u64, CacheError>) -> Ran {
        match outcome {
            Err(error) => self.unreadable(error),
            Ok(payload) => {
                let next = RunState { payload, locked: false, ..self };
                if self.request is Some {
                    next.awaiting(Stage::HitPublication, Step::PublishDirect)
                } else {
                    next.awaiting(Stage::Replay, Step::Replay)
                }
            },
        }
    }

    /// A result that was found was recorded for the direct path, or not.
    #[verifier::opaque]
    pub open spec fn at_hit_publication(self, outcome: DirectPublication) -> Ran {
        self.published(outcome).awaiting(Stage::Replay, Step::Replay)
    }

    /// The messages of a result were repeated, or not.
    #[verifier::opaque]
    pub open spec fn at_replay(self, outcome: Result<(), String>) -> Ran {
        match outcome {
            Err(text) => self.having(self.stats.launcher_failed(self.action_name())).ending(
                Step::Fail(text@),
            ),
            Ok(_) => self.having(self.stats.hit(self.action_name(), false, self.payload)).ending(
                Step::Exit(0),
            ),
        }
    }

    /// What the record and the compiler were was looked at.
    #[verifier::opaque]
    pub open spec fn at_revalidation(self, capture: RecordCapture, identity: bool) -> Ran {
        if search::record_holds(self.record->0, capture) && identity {
            self.preparing()
        } else {
            self.having(self.stats.fallen_back("precompile-revalidation"@)).ending(
                Step::PassThrough { flush: false },
            )
        }
    }

    /// The directory of the modules was looked at before the compilation.
    #[verifier::opaque]
    pub open spec fn at_before(self, before: Option<DirectorySnapshot>) -> Ran {
        RunState { snapshot: before, ..self }.awaiting(Stage::Compiling, Step::Compile)
    }

    /// The compiler ran, or could not be started.
    #[verifier::opaque]
    pub open spec fn at_compiling(self, outcome: Result<ExitState, String>, elapsed: u64) -> Ran {
        match outcome {
            Err(text) => self.ending(Step::Fail(text@)),
            Ok(state) => {
                let code = admission::exit_code(state) as i32;
                let ran = RunState { exit_code: code, ..self };
                let name = self.action_name();
                if !state.succeeded() {
                    ran.having(self.stats.compiled(elapsed).compiler_failed(name)).ending(
                        Step::Exit(code),
                    )
                } else {
                    let succeeded = ran.having(
                        self.stats.compiled(elapsed).compiler_succeeded(name),
                    );
                    if self.read_only {
                        succeeded.ending(Step::Exit(code))
                    } else if self.snapshot is None {
                        succeeded.withholding("module-output-snapshot"@)
                    } else {
                        succeeded.awaiting(Stage::After, Step::SnapshotModules)
                    }
                }
            },
        }
    }

    /// The directory of the modules was looked at after the compilation.
    #[verifier::opaque]
    pub open spec fn at_after(self, after: Option<DirectorySnapshot>) -> Ran {
        let found = self.observation->0@;
        match after {
            None => self.withholding("module-output-snapshot"@),
            Some(current) => if changed_as_predicted(self.snapshot->0, current, found) {
                self.awaiting(Stage::Depfile, Step::ReadDepfile)
            } else {
                self.withholding("real-module-output-mismatch"@)
            },
        }
    }

    /// The dependency file was read.
    #[verifier::opaque]
    pub open spec fn at_depfile(self, facts: RealFacts) -> Ran {
        let found = self.observation->0@;
        if observing::real_fault(
            self.compilation.invocation@,
            found,
            self.compilation.cwd@,
            facts,
        ) is Some {
            self.withholding("real-depfile-mismatch"@)
        } else if self.compilation.invocation@.dependency_mode == Some(DependencyMode::Md) {
            self.awaiting(Stage::Inputs, Step::ReadInputs)
        } else {
            self.having(self.stats.probing_again()).awaiting(Stage::SecondProbe, Step::Observe)
        }
    }

    /// The inputs were read after the compilation.
    #[verifier::opaque]
    pub open spec fn at_inputs(self, readings: Vec<Reading>) -> Ran {
        let found = self.observation->0@;
        if !observation::unchanged(found.inputs, readings@) {
            self.withholding("inputs-changed-during-compilation"@)
        } else if found.preprocessor is Some {
            self.having(self.stats.preprocessing()).awaiting(Stage::Preprocessing, Step::Preprocess)
        } else {
            self.having(self.stats.depfile_sufficed()).concluding()
        }
    }

    /// The preprocessor answered once more, or not.
    #[verifier::opaque]
    pub open spec fn at_preprocessing(
        self,
        outcome: Option<Option<PreprocessorObservation>>,
        elapsed: u64,
    ) -> Ran {
        let found = self.observation->0@;
        match outcome {
            None => self.withholding("preprocessor-validation-failed"@),
            Some(value) => {
                let timed = self.stats.preprocessed(elapsed);
                if observation::preprocessor_view(value) != found.preprocessor {
                    self.having(timed).withholding("preprocessor-changed-during-compilation"@)
                } else {
                    self.having(timed.depfile_sufficed()).concluding()
                }
            },
        }
    }

    /// The compilation was observed a second time, or not.
    #[verifier::opaque]
    pub open spec fn at_second_probe(
        self,
        outcome: Option<Observation>,
        telemetry: ProbeTelemetry,
        elapsed: u64,
    ) -> Ran {
        let found = self.observation->0@;
        let probed = self.having(self.stats.probed(telemetry, elapsed));
        match outcome {
            None => probed.ending(Step::Exit(self.exit_code)),
            Some(again) => if observation::alike(found, again@) {
                probed.concluding()
            } else {
                probed.withholding("inputs-changed-during-compilation"@)
            },
        }
    }

    /// What the record witnesses was looked at after the compilation.
    #[verifier::opaque]
    pub open spec fn at_record_check(self, capture: RecordCapture) -> Ran {
        if search::record_holds(self.record->0, capture) {
            self.awaiting(Stage::IdentityCheck, Step::RecheckIdentity)
        } else {
            self.withholding("direct-observation-changed"@)
        }
    }

    /// The compiler was looked at after the compilation.
    #[verifier::opaque]
    pub open spec fn at_identity_check(self, valid: bool, elapsed: u64) -> Ran {
        if valid {
            self.having(self.stats.validated(elapsed)).awaiting(Stage::Storing, Step::StoreResult)
        } else {
            self.withholding("compiler-identity-changed"@)
        }
    }

    /// The new result was stored, or not.
    #[verifier::opaque]
    pub open spec fn at_storing(self, bytes: Option<u64>, elapsed: u64) -> Ran {
        match bytes {
            None => self.having(self.stats.unwritten(self.action_name())).withholding(
                "cache-publication"@,
            ),
            Some(size) => {
                let kept = self.stats.stored(self.action_name(), size);
                if self.request is Some {
                    self.having(kept).awaiting(Stage::Publication, Step::PublishDirect)
                } else {
                    self.having(kept.publicized(elapsed)).ending(Step::Exit(self.exit_code))
                }
            },
        }
    }

    /// A new result was recorded for the direct path, or not.
    #[verifier::opaque]
    pub open spec fn at_publication(self, outcome: DirectPublication, elapsed: u64) -> Ran {
        let told = self.published(outcome);
        told.having(told.stats.publicized(elapsed)).ending(Step::Exit(self.exit_code))
    }
}

/// What came of a step, and what follows from it.
pub open spec fn transition(run: RunState, event: Event) -> Ran {
    match event {
        Event::Store(opened) => if run.stage is Store {
            run.at_store(opened)
        } else {
            run.confused()
        },
        Event::Identity(outcome) => if run.stage is Identity {
            run.at_identity(outcome)
        } else {
            run.confused()
        },
        Event::Source(reading) => if run.stage is Source {
            run.at_source(reading)
        } else {
            run.confused()
        },
        Event::Direct { end, elapsed } => if run.stage is Direct {
            run.at_direct(end, elapsed)
        } else {
            run.confused()
        },
        Event::Replayed(outcome) => if run.stage is DirectReplay {
            run.at_direct_replay(outcome)
        } else if run.stage is Replay {
            run.at_replay(outcome)
        } else {
            run.confused()
        },
        Event::Observed { outcome, telemetry, elapsed } => if run.stage is Probe {
            run.at_probe(outcome, telemetry, elapsed)
        } else if run.stage is SecondProbe {
            run.at_second_probe(outcome, telemetry, elapsed)
        } else {
            run.confused()
        },
        Event::Locked(locked) => if run.stage is Locks {
            run.at_locks(locked)
        } else {
            run.confused()
        },
        Event::RestoreChecked { inputs, contract, identity } => if run.stage is RestoreCheck {
            run.at_restore_check(inputs, contract, identity)
        } else {
            run.confused()
        },
        Event::Loaded(outcome) => if run.stage is Loading {
            run.at_loading(outcome)
        } else {
            run.confused()
        },
        Event::Staged(outcome) => if run.stage is Staging {
            run.at_staging(outcome)
        } else {
            run.confused()
        },
        Event::RestoreRechecked { inputs, contract } => if run.stage is Recheck {
            run.at_recheck(inputs, contract)
        } else {
            run.confused()
        },
        Event::Committed(outcome) => if run.stage is Commit {
            run.at_commit(outcome)
        } else {
            run.confused()
        },
        Event::DirectPublished { outcome, elapsed } => if run.stage is HitPublication {
            run.at_hit_publication(outcome)
        } else if run.stage is Publication {
            run.at_publication(outcome, elapsed)
        } else {
            run.confused()
        },
        Event::Revalidated { capture, identity } => if run.stage is Revalidation {
            run.at_revalidation(capture, identity)
        } else {
            run.confused()
        },
        Event::Snapshot(look) => if run.stage is Before {
            run.at_before(look)
        } else if run.stage is After {
            run.at_after(look)
        } else {
            run.confused()
        },
        Event::Compiled { outcome, elapsed } => if run.stage is Compiling {
            run.at_compiling(outcome, elapsed)
        } else {
            run.confused()
        },
        Event::Depfile(facts) => if run.stage is Depfile {
            run.at_depfile(facts)
        } else {
            run.confused()
        },
        Event::Inputs(readings) => if run.stage is Inputs {
            run.at_inputs(readings)
        } else {
            run.confused()
        },
        Event::Preprocessed { outcome, elapsed } => if run.stage is Preprocessing {
            run.at_preprocessing(outcome, elapsed)
        } else {
            run.confused()
        },
        Event::RecordCaptured(capture) => if run.stage is RecordCheck {
            run.at_record_check(capture)
        } else {
            run.confused()
        },
        Event::IdentityRevalidated { valid, elapsed } => if run.stage is IdentityCheck {
            run.at_identity_check(valid, elapsed)
        } else {
            run.confused()
        },
        Event::Stored { bytes, elapsed } => if run.stage is Storing {
            run.at_storing(bytes, elapsed)
        } else {
            run.confused()
        },
    }
}

impl RunState {
    /// The run has found out what its stage rests on.
    pub open spec fn ready(self) -> bool {
        &&& !(self.stage is Store || self.stage is Identity || self.stage is Done)
            ==> self.known is Some
        &&& !(self.stage is Store || self.stage is Identity || self.stage is Done
            || self.stage is Source || self.stage is Direct || self.stage is DirectReplay
            || self.stage is Probe) ==> self.observation is Some && self.action is Some
        &&& self.stage is DirectReplay ==> self.action is Some
        &&& self.stage is Revalidation || self.stage is RecordCheck ==> self.record is Some
        &&& self.stage is After ==> self.snapshot is Some
    }
}

impl Run {
    /// A run for a compilation, and its first step.
    pub fn new(
        compilation: Compilation,
        read_only: bool,
        direct: bool,
        stats: PendingStats,
    ) -> (started: (Self, Step))
        ensures
            started.0@ == (RunState {
                compilation,
                read_only,
                direct,
                stage: Stage::Store,
                stats: stats@,
                known: None,
                request: None,
                record: None,
                observation: None,
                action: None,
                payload: 0,
                snapshot: None,
                exit_code: 0,
                locked: false,
            }),
            started.0@.ready(),
            started.1 == Step::<String>::OpenStore,
    {
        let run = Run {
            compilation,
            read_only,
            direct,
            stage: Stage::Store,
            stats,
            known: None,
            request: None,
            record: None,
            observation: None,
            action: None,
            payload: 0,
            snapshot: None,
            exit_code: 0,
            locked: false,
        };
        (run, Step::OpenStore)
    }

    fn end(&mut self, step: Step) -> (given: Step)
        ensures
            (Ran { run: final(self)@, step: given@ }) == old(self)@.ending(step@),
    {
        self.stage = Stage::Done;
        self.locked = false;
        step
    }

    fn wait(&mut self, stage: Stage, step: Step) -> (given: Step)
        ensures
            (Ran { run: final(self)@, step: given@ }) == old(self)@.awaiting(stage, step@),
    {
        self.stage = stage;
        step
    }

    fn give_up(&mut self, reason: &str) -> (given: Step)
        ensures
            (Ran { run: final(self)@, step: given@ }) == old(self)@.giving_up(reason@),
    {
        self.stats.record_attempted_bypass(reason);
        self.end(Step::PassThrough { flush: true })
    }

    fn withhold(&mut self, reason: &str) -> (given: Step)
        ensures
            (Ran { run: final(self)@, step: given@ }) == old(self)@.withholding(reason@),
    {
        self.stats.record_nonpublication(reason);
        let code = self.exit_code;
        self.end(Step::Exit(code))
    }

    fn name(&self) -> (name: Vec<u8>)
        requires
            self@.action is Some,
        ensures
            name@ == self@.action_name(),
    {
        match &self.action {
            Some(key) => hex::encode_bytes(key.bytes.as_slice()),
            None => Vec::new(),
        }
    }

    fn prepare(&mut self) -> (given: Step)
        ensures
            (Ran { run: final(self)@, step: given@ }) == old(self)@.preparing(),
    {
        if self.read_only {
            self.wait(Stage::Compiling, Step::Compile)
        } else {
            self.wait(Stage::Before, Step::SnapshotModules)
        }
    }

    fn miss(&mut self) -> (given: Step)
        requires
            old(self)@.action is Some,
        ensures
            (Ran { run: final(self)@, step: given@ }) == old(self)@.missing(),
    {
        let name = self.name();
        self.stats.record_miss(name.as_slice());
        if self.record.is_some() {
            self.wait(Stage::Revalidation, Step::Revalidate)
        } else {
            self.prepare()
        }
    }

    fn read_failed(&mut self, error: &CacheError) -> (given: Step)
        requires
            old(self)@.action is Some,
        ensures
            (Ran { run: final(self)@, step: given@ }) == old(self)@.unreadable(*error),
    {
        let name = self.name();
        match error {
            CacheError::Miss => {},
            CacheError::Corrupt(_) => self.stats.record_unread(name.as_slice(), true),
            CacheError::Manifest(_) => self.stats.record_unread(name.as_slice(), true),
            _ => self.stats.record_unread(name.as_slice(), false),
        }
        self.miss()
    }

    fn after_observation(&mut self) -> (given: Step)
        requires
            old(self)@.known is Some,
            old(self)@.observation is Some,
        ensures
            (Ran { run: final(self)@, step: given@ }) == old(self)@.observed(),
    {
        let modules = match &self.observation {
            Some(found) => observation::produces_modules(&found.outputs),
            None => false,
        };
        if self.compilation.invocation.syntax_only && modules {
            return self.give_up("syntax-only-module-outputs");
        }
        let action = match &self.record {
            Some(record) => Some(record.action_key),
            None => match (&self.known, &self.observation) {
                (Some(known), Some(found)) => match search::key_of(
                    &self.compilation,
                    known,
                    found,
                ) {
                    Ok(key) => Some(key),
                    Err(_) => None,
                },
                _ => None,
            },
        };
        self.action = action;
        self.wait(Stage::Locks, Step::AcquireLocks)
    }

    fn conclude(&mut self) -> (given: Step)
        ensures
            (Ran { run: final(self)@, step: given@ }) == old(self)@.concluding(),
    {
        if self.record.is_some() {
            self.wait(Stage::RecordCheck, Step::RecheckRecord)
        } else {
            self.wait(Stage::IdentityCheck, Step::RecheckIdentity)
        }
    }

    fn record_direct_publication(&mut self, outcome: DirectPublication)
        ensures
            final(self)@ == old(self)@.published(outcome),
    {
        match outcome {
            DirectPublication::Done => {},
            DirectPublication::Unrecorded => {
                self.stats.record_direct_fallback("record-publication");
            },
            DirectPublication::Unindexed => {
                self.stats.record_direct_fallback("index-publication");
            },
        }
    }

    fn on_identity(&mut self, outcome: Option<Identified>) -> (given: Step)
        requires
            old(self)@.ready(),
            old(self)@.stage is Identity,
        ensures
            (Ran { run: final(self)@, step: given@ }) == old(self)@.at_identity(outcome),
            final(self)@.ready(),
    {
        proof {
            reveal(RunState::at_identity);
        }
        match outcome {
            None => self.give_up("compiler-fingerprint"),
            Some(identified) => {
                let major = identified.known.fingerprint.major_version;
                self.stats.record_identity(identified.reused, identified.elapsed);
                self.known = Some(identified.known);
                if !admission::supported_gfortran_major(major) {
                    return self.give_up("unsupported-compiler-version");
                }
                if admission::uses_direct_path(self.direct, major, &self.compilation.invocation) {
                    self.wait(Stage::Source, Step::ReadSource)
                } else {
                    self.wait(Stage::Probe, Step::Observe)
                }
            },
        }
    }

    fn on_source(&mut self, reading: Reading) -> (given: Step)
        requires
            old(self)@.ready(),
            old(self)@.stage is Source,
        ensures
            (Ran { run: final(self)@, step: given@ }) == old(self)@.at_source(reading),
            final(self)@.ready(),
    {
        proof {
            reveal(RunState::at_source);
        }
        let key = admission::direct_request_key(
            self.compilation.compiler.as_slice(),
            &self.compilation.arguments,
            &self.compilation.invocation,
            self.compilation.cwd.as_slice(),
            &self.compilation.variables,
            &reading,
            self.compilation.umask,
        );
        match key {
            Some(found) => {
                self.request = Some(found);
                self.wait(Stage::Direct, Step::SearchDirect)
            },
            None => self.wait(Stage::Probe, Step::Observe),
        }
    }

    fn on_direct(&mut self, end: DirectEnd, elapsed: u64) -> (given: Step)
        requires
            old(self)@.ready(),
            old(self)@.stage is Direct,
        ensures
            (Ran { run: final(self)@, step: given@ }) == old(self)@.at_direct(end, elapsed),
            final(self)@.ready(),
    {
        proof {
            reveal(RunState::at_direct);
        }
        match end {
            DirectEnd::Hit { key, payload } => {
                self.stats.record_search(elapsed);
                self.action = Some(key);
                self.payload = payload;
                self.wait(Stage::DirectReplay, Step::Replay)
            },
            DirectEnd::Compile { record, observation } => {
                self.stats.record_search(elapsed);
                self.stats.record_plan();
                self.record = Some(record);
                self.observation = Some(observation);
                self.after_observation()
            },
            DirectEnd::Miss => {
                self.stats.record_search(elapsed);
                self.wait(Stage::Probe, Step::Observe)
            },
            DirectEnd::Failed(reason) => {
                self.stats.record_direct_fallback(reason.failure_reason());
                self.wait(Stage::Probe, Step::Observe)
            },
        }
    }

    fn on_replayed(&mut self, outcome: Result<(), String>, direct: bool) -> (given: Step)
        requires
            old(self)@.ready(),
            direct ==> old(self)@.stage is DirectReplay,
            !direct ==> old(self)@.stage is Replay,
        ensures
            direct ==> (Ran { run: final(self)@, step: given@ })
                == old(self)@.at_direct_replay(outcome),
            !direct ==> (Ran { run: final(self)@, step: given@ }) == old(self)@.at_replay(outcome),
            final(self)@.ready(),
    {
        proof {
            reveal(RunState::at_direct_replay);
            reveal(RunState::at_replay);
        }
        let name = self.name();
        match outcome {
            Err(text) => {
                self.stats.record_launcher_failure(name.as_slice());
                self.end(Step::Fail(text))
            },
            Ok(_) => {
                let payload = self.payload;
                self.stats.record_hit(name.as_slice(), direct, payload);
                self.end(Step::Exit(0))
            },
        }
    }

    fn on_observed(
        &mut self,
        outcome: Option<Observation>,
        telemetry: ProbeTelemetry,
        elapsed: u64,
    ) -> (given: Step)
        requires
            old(self)@.ready(),
            old(self)@.stage is Probe,
        ensures
            (Ran { run: final(self)@, step: given@ }) == old(self)@.at_probe(outcome, telemetry, elapsed),
            final(self)@.ready(),
    {
        proof {
            reveal(RunState::at_probe);
        }
        self.stats.record_probe_telemetry(telemetry, elapsed);
        match outcome {
            None => self.give_up("dependency-probe"),
            Some(found) => {
                self.observation = Some(found);
                self.after_observation()
            },
        }
    }

    fn on_locked(&mut self, locked: bool) -> (given: Step)
        requires
            old(self)@.ready(),
            old(self)@.stage is Locks,
        ensures
            (Ran { run: final(self)@, step: given@ }) == old(self)@.at_locks(locked),
            final(self)@.ready(),
    {
        proof {
            reveal(RunState::at_locks);
        }
        if !locked {
            return self.give_up("output-lock");
        }
        self.locked = true;
        if self.record.is_some() {
            self.miss()
        } else {
            self.wait(Stage::RestoreCheck, Step::CheckRestore)
        }
    }

    fn undisturbed(&self, inputs: &Vec<Reading>, contract: &ContractFacts) -> (yes: bool)
        requires
            self@.observation is Some,
        ensures
            yes == (observation::unchanged(self@.observation->0@.inputs, inputs@)
                && restoring::contract_holds(self@.observation->0@, *contract)),
    {
        match &self.observation {
            Some(found) => observation::inputs_unchanged(&found.inputs, inputs)
                && restoring::validate_restore_output_contract(found, contract),
            None => false,
        }
    }

    fn on_loaded(&mut self, outcome: Result<Option<Manifest>, CacheError>) -> (given: Step)
        requires
            old(self)@.ready(),
            old(self)@.stage is Loading,
        ensures
            (Ran { run: final(self)@, step: given@ }) == old(self)@.at_loading(outcome),
            final(self)@.ready(),
    {
        proof {
            reveal(RunState::at_loading);
        }
        match outcome {
            Err(error) => self.read_failed(&error),
            Ok(None) => self.miss(),
            Ok(Some(manifest)) => {
                let fits = match &self.known {
                    Some(known) => manifest.compiler_digest == known.fingerprint.digest_hex(),
                    None => false,
                };
                if fits {
                    self.wait(Stage::Staging, Step::PrepareRestore)
                } else {
                    self.miss()
                }
            },
        }
    }

    fn on_committed(&mut self, outcome: Result<u64, CacheError>) -> (given: Step)
        requires
            old(self)@.ready(),
            old(self)@.stage is Commit,
        ensures
            (Ran { run: final(self)@, step: given@ }) == old(self)@.at_commit(outcome),
            final(self)@.ready(),
    {
        proof {
            reveal(RunState::at_commit);
        }
        match outcome {
            Err(error) => self.read_failed(&error),
            Ok(payload) => {
                self.payload = payload;
                self.locked = false;
                if self.request.is_some() {
                    self.wait(Stage::HitPublication, Step::PublishDirect)
                } else {
                    self.wait(Stage::Replay, Step::Replay)
                }
            },
        }
    }

    fn on_revalidated(&mut self, capture: RecordCapture, identity: bool) -> (given: Step)
        requires
            old(self)@.ready(),
            old(self)@.stage is Revalidation,
        ensures
            (Ran { run: final(self)@, step: given@ }) == old(self)@.at_revalidation(capture, identity),
            final(self)@.ready(),
    {
        proof {
            reveal(RunState::at_revalidation);
        }
        let holds = match &self.record {
            Some(record) => search::still_holds(record, &capture),
            None => false,
        };
        if holds && identity {
            self.prepare()
        } else {
            self.stats.record_direct_fallback("precompile-revalidation");
            self.end(Step::PassThrough { flush: false })
        }
    }

    fn on_compiled(&mut self, outcome: Result<ExitState, String>, elapsed: u64) -> (given: Step)
        requires
            old(self)@.ready(),
            old(self)@.stage is Compiling,
        ensures
            (Ran { run: final(self)@, step: given@ }) == old(self)@.at_compiling(outcome, elapsed),
            final(self)@.ready(),
    {
        proof {
            reveal(RunState::at_compiling);
        }
        match outcome {
            Err(text) => self.end(Step::Fail(text)),
            Ok(state) => {
                let name = self.name();
                self.stats.record_compilation(elapsed);
                let code = admission::status_code(state);
                self.exit_code = code;
                let success = match state.code {
                    Some(found) => found == 0,
                    None => false,
                };
                self.stats.record_compiler_outcome(name.as_slice(), success);
                if !success || self.read_only {
                    return self.end(Step::Exit(code));
                }
                if self.snapshot.is_none() {
                    return self.withhold("module-output-snapshot");
                }
                self.wait(Stage::After, Step::SnapshotModules)
            },
        }
    }

    fn on_after(&mut self, after: Option<DirectorySnapshot>) -> (given: Step)
        requires
            old(self)@.ready(),
            old(self)@.stage is After,
        ensures
            (Ran { run: final(self)@, step: given@ }) == old(self)@.at_after(after),
            final(self)@.ready(),
    {
        proof {
            reveal(RunState::at_after);
        }
        let current = match after {
            None => {
                return self.withhold("module-output-snapshot");
            },
            Some(current) => current,
        };
        let agrees = match (&self.snapshot, &self.observation) {
            (Some(before), Some(found)) => {
                let predicted = observation::predicted_module_names(found);
                let outcome = before.validate_changes(&current, &predicted);
                proof {
                    let list = bstr::views(predicted@);
                    assert(is_prediction(list, found@));
                    if changed_as_predicted(*before, current, found@) {
                        let other = choose|other: Seq<Seq<u8>>| #[trigger]
                            is_prediction(other, found@) && snapshot::change_fault(
                                *before,
                                current,
                                other,
                            ) is None;
                        names::law_sorted_lists_are_sets(list, other);
                    }
                }
                outcome.is_ok()
            },
            _ => false,
        };
        if agrees {
            self.wait(Stage::Depfile, Step::ReadDepfile)
        } else {
            self.withhold("real-module-output-mismatch")
        }
    }

    fn on_depfile(&mut self, facts: RealFacts) -> (given: Step)
        requires
            old(self)@.ready(),
            old(self)@.stage is Depfile,
        ensures
            (Ran { run: final(self)@, step: given@ }) == old(self)@.at_depfile(facts),
            final(self)@.ready(),
    {
        proof {
            reveal(RunState::at_depfile);
        }
        let agrees = match &self.observation {
            Some(found) => observing::validate_real_depfile_targets(
                &self.compilation.invocation,
                found,
                self.compilation.cwd.as_slice(),
                &facts,
            ).is_ok(),
            None => false,
        };
        if !agrees {
            return self.withhold("real-depfile-mismatch");
        }
        if matches!(self.compilation.invocation.dependency_mode, Some(DependencyMode::Md)) {
            self.wait(Stage::Inputs, Step::ReadInputs)
        } else {
            self.stats.record_second_probe();
            self.wait(Stage::SecondProbe, Step::Observe)
        }
    }

    fn on_inputs(&mut self, readings: Vec<Reading>) -> (given: Step)
        requires
            old(self)@.ready(),
            old(self)@.stage is Inputs,
        ensures
            (Ran { run: final(self)@, step: given@ }) == old(self)@.at_inputs(readings),
            final(self)@.ready(),
    {
        proof {
            reveal(RunState::at_inputs);
        }
        let (unchanged, preprocessed) = match &self.observation {
            Some(found) => (
                observation::inputs_unchanged(&found.inputs, &readings),
                found.preprocessor.is_some(),
            ),
            None => (false, false),
        };
        if !unchanged {
            return self.withhold("inputs-changed-during-compilation");
        }
        if preprocessed {
            self.stats.record_preprocessing();
            self.wait(Stage::Preprocessing, Step::Preprocess)
        } else {
            self.stats.record_depfile_sufficed();
            self.conclude()
        }
    }

    fn on_preprocessed(
        &mut self,
        outcome: Option<Option<PreprocessorObservation>>,
        elapsed: u64,
    ) -> (given: Step)
        requires
            old(self)@.ready(),
            old(self)@.stage is Preprocessing,
        ensures
            (Ran { run: final(self)@, step: given@ }) == old(self)@.at_preprocessing(outcome, elapsed),
            final(self)@.ready(),
    {
        proof {
            reveal(RunState::at_preprocessing);
        }
        match outcome {
            None => self.withhold("preprocessor-validation-failed"),
            Some(value) => {
                self.stats.record_preprocessed(elapsed);
                let same = match &self.observation {
                    Some(found) => observation::same_preprocessor(&value, &found.preprocessor),
                    None => false,
                };
                if !same {
                    return self.withhold("preprocessor-changed-during-compilation");
                }
                self.stats.record_depfile_sufficed();
                self.conclude()
            },
        }
    }

    fn on_second_probe(
        &mut self,
        outcome: Option<Observation>,
        telemetry: ProbeTelemetry,
        elapsed: u64,
    ) -> (given: Step)
        requires
            old(self)@.ready(),
            old(self)@.stage is SecondProbe,
        ensures
            (Ran { run: final(self)@, step: given@ }) == old(self)@.at_second_probe(outcome, telemetry, elapsed),
            final(self)@.ready(),
    {
        proof {
            reveal(RunState::at_second_probe);
        }
        self.stats.record_probe_telemetry(telemetry, elapsed);
        match outcome {
            None => {
                let code = self.exit_code;
                self.end(Step::Exit(code))
            },
            Some(again) => {
                let same = match &self.observation {
                    Some(found) => found.same(&again),
                    None => false,
                };
                if same {
                    self.conclude()
                } else {
                    self.withhold("inputs-changed-during-compilation")
                }
            },
        }
    }

    fn on_record_captured(&mut self, capture: RecordCapture) -> (given: Step)
        requires
            old(self)@.ready(),
            old(self)@.stage is RecordCheck,
        ensures
            (Ran { run: final(self)@, step: given@ }) == old(self)@.at_record_check(capture),
            final(self)@.ready(),
    {
        proof {
            reveal(RunState::at_record_check);
        }
        let holds = match &self.record {
            Some(record) => search::still_holds(record, &capture),
            None => false,
        };
        if holds {
            self.wait(Stage::IdentityCheck, Step::RecheckIdentity)
        } else {
            self.withhold("direct-observation-changed")
        }
    }

    fn on_stored(&mut self, bytes: Option<u64>, elapsed: u64) -> (given: Step)
        requires
            old(self)@.ready(),
            old(self)@.stage is Storing,
        ensures
            (Ran { run: final(self)@, step: given@ }) == old(self)@.at_storing(bytes, elapsed),
            final(self)@.ready(),
    {
        proof {
            reveal(RunState::at_storing);
        }
        let name = self.name();
        match bytes {
            None => {
                self.stats.record_unwritten(name.as_slice());
                self.withhold("cache-publication")
            },
            Some(size) => {
                self.stats.record_stored(name.as_slice(), size);
                if self.request.is_some() {
                    self.wait(Stage::Publication, Step::PublishDirect)
                } else {
                    self.stats.record_publication(elapsed);
                    let code = self.exit_code;
                    self.end(Step::Exit(code))
                }
            },
        }
    }

    fn confuse(&mut self) -> (given: Step)
        requires
            old(self)@.ready(),
        ensures
            (Ran { run: final(self)@, step: given@ }) == old(self)@.confused(),
            final(self)@.ready(),
    {
        proof {
            reveal(RunState::confused);
        }
        self.end(Step::Fail("unexpected event".to_owned()))
    }

    fn on_store(&mut self, opened: bool) -> (given: Step)
        requires
            old(self)@.ready(),
            old(self)@.stage is Store,
        ensures
            (Ran { run: final(self)@, step: given@ }) == old(self)@.at_store(opened),
            final(self)@.ready(),
    {
        proof {
            reveal(RunState::at_store);
        }
        if opened {
            self.wait(Stage::Identity, Step::FindIdentity)
        } else {
            self.stats.record_without_store();
            self.end(Step::PassThrough { flush: true })
        }
    }

    fn on_restore_checked(
        &mut self,
        inputs: Vec<Reading>,
        contract: ContractFacts,
        identity: bool,
    ) -> (given: Step)
        requires
            old(self)@.ready(),
            old(self)@.stage is RestoreCheck,
        ensures
            (Ran { run: final(self)@, step: given@ }) == old(self)@.at_restore_check(
                inputs,
                contract,
                identity,
            ),
            final(self)@.ready(),
    {
        proof {
            reveal(RunState::at_restore_check);
        }
        if self.undisturbed(&inputs, &contract) && identity {
            self.wait(Stage::Loading, Step::LoadManifest)
        } else {
            self.miss()
        }
    }

    fn on_staged(&mut self, outcome: Result<(), CacheError>) -> (given: Step)
        requires
            old(self)@.ready(),
            old(self)@.stage is Staging,
        ensures
            (Ran { run: final(self)@, step: given@ }) == old(self)@.at_staging(outcome),
            final(self)@.ready(),
    {
        proof {
            reveal(RunState::at_staging);
        }
        match outcome {
            Err(error) => self.read_failed(&error),
            Ok(_) => self.wait(Stage::Recheck, Step::RecheckRestore),
        }
    }

    fn on_restore_rechecked(&mut self, inputs: Vec<Reading>, contract: ContractFacts) -> (given:
        Step)
        requires
            old(self)@.ready(),
            old(self)@.stage is Recheck,
        ensures
            (Ran { run: final(self)@, step: given@ }) == old(self)@.at_recheck(inputs, contract),
            final(self)@.ready(),
    {
        proof {
            reveal(RunState::at_recheck);
        }
        if self.undisturbed(&inputs, &contract) {
            self.wait(Stage::Commit, Step::CommitRestore)
        } else {
            self.miss()
        }
    }

    fn on_hit_published(&mut self, outcome: DirectPublication) -> (given: Step)
        requires
            old(self)@.ready(),
            old(self)@.stage is HitPublication,
        ensures
            (Ran { run: final(self)@, step: given@ }) == old(self)@.at_hit_publication(outcome),
            final(self)@.ready(),
    {
        proof {
            reveal(RunState::at_hit_publication);
        }
        self.record_direct_publication(outcome);
        self.wait(Stage::Replay, Step::Replay)
    }

    fn on_published(&mut self, outcome: DirectPublication, elapsed: u64) -> (given: Step)
        requires
            old(self)@.ready(),
            old(self)@.stage is Publication,
        ensures
            (Ran { run: final(self)@, step: given@ }) == old(self)@.at_publication(
                outcome,
                elapsed,
            ),
            final(self)@.ready(),
    {
        proof {
            reveal(RunState::at_publication);
        }
        self.record_direct_publication(outcome);
        self.stats.record_publication(elapsed);
        let code = self.exit_code;
        self.end(Step::Exit(code))
    }

    fn on_before(&mut self, before: Option<DirectorySnapshot>) -> (given: Step)
        requires
            old(self)@.ready(),
            old(self)@.stage is Before,
        ensures
            (Ran { run: final(self)@, step: given@ }) == old(self)@.at_before(before),
            final(self)@.ready(),
    {
        proof {
            reveal(RunState::at_before);
        }
        self.snapshot = before;
        self.wait(Stage::Compiling, Step::Compile)
    }

    fn on_identity_revalidated(&mut self, valid: bool, elapsed: u64) -> (given: Step)
        requires
            old(self)@.ready(),
            old(self)@.stage is IdentityCheck,
        ensures
            (Ran { run: final(self)@, step: given@ }) == old(self)@.at_identity_check(
                valid,
                elapsed,
            ),
            final(self)@.ready(),
    {
        proof {
            reveal(RunState::at_identity_check);
        }
        if valid {
            self.stats.record_validation(elapsed);
            self.wait(Stage::Storing, Step::StoreResult)
        } else {
            self.withhold("compiler-identity-changed")
        }
    }

    /// Tells a run what came of its step, and gives the next one. An answer to a question that was
    /// not asked ends the run.
    pub fn advance(&mut self, event: Event) -> (step: Step)
        requires
            old(self)@.ready(),
        ensures
            (Ran { run: final(self)@, step: step@ }) == transition(old(self)@, event),
            final(self)@.ready(),
    {
        match event {
            Event::Store(opened) => match self.stage {
                Stage::Store => self.on_store(opened),
                _ => self.confuse(),
            },
            Event::Identity(outcome) => match self.stage {
                Stage::Identity => self.on_identity(outcome),
                _ => self.confuse(),
            },
            Event::Source(reading) => match self.stage {
                Stage::Source => self.on_source(reading),
                _ => self.confuse(),
            },
            Event::Direct { end, elapsed } => match self.stage {
                Stage::Direct => self.on_direct(end, elapsed),
                _ => self.confuse(),
            },
            Event::Replayed(outcome) => match self.stage {
                Stage::DirectReplay => self.on_replayed(outcome, true),
                Stage::Replay => self.on_replayed(outcome, false),
                _ => self.confuse(),
            },
            Event::Observed { outcome, telemetry, elapsed } => match self.stage {
                Stage::Probe => self.on_observed(outcome, telemetry, elapsed),
                Stage::SecondProbe => self.on_second_probe(outcome, telemetry, elapsed),
                _ => self.confuse(),
            },
            Event::Locked(locked) => match self.stage {
                Stage::Locks => self.on_locked(locked),
                _ => self.confuse(),
            },
            Event::RestoreChecked { inputs, contract, identity } => match self.stage {
                Stage::RestoreCheck => self.on_restore_checked(inputs, contract, identity),
                _ => self.confuse(),
            },
            Event::Loaded(outcome) => match self.stage {
                Stage::Loading => self.on_loaded(outcome),
                _ => self.confuse(),
            },
            Event::Staged(outcome) => match self.stage {
                Stage::Staging => self.on_staged(outcome),
                _ => self.confuse(),
            },
            Event::RestoreRechecked { inputs, contract } => match self.stage {
                Stage::Recheck => self.on_restore_rechecked(inputs, contract),
                _ => self.confuse(),
            },
            Event::Committed(outcome) => match self.stage {
                Stage::Commit => self.on_committed(outcome),
                _ => self.confuse(),
            },
            Event::DirectPublished { outcome, elapsed } => match self.stage {
                Stage::HitPublication => self.on_hit_published(outcome),
                Stage::Publication => self.on_published(outcome, elapsed),
                _ => self.confuse(),
            },
            Event::Revalidated { capture, identity } => match self.stage {
                Stage::Revalidation => self.on_revalidated(capture, identity),
                _ => self.confuse(),
            },
            Event::Snapshot(look) => match self.stage {
                Stage::Before => self.on_before(look),
                Stage::After => self.on_after(look),
                _ => self.confuse(),
            },
            Event::Compiled { outcome, elapsed } => match self.stage {
                Stage::Compiling => self.on_compiled(outcome, elapsed),
                _ => self.confuse(),
            },
            Event::Depfile(facts) => match self.stage {
                Stage::Depfile => self.on_depfile(facts),
                _ => self.confuse(),
            },
            Event::Inputs(readings) => match self.stage {
                Stage::Inputs => self.on_inputs(readings),
                _ => self.confuse(),
            },
            Event::Preprocessed { outcome, elapsed } => match self.stage {
                Stage::Preprocessing => self.on_preprocessed(outcome, elapsed),
                _ => self.confuse(),
            },
            Event::RecordCaptured(capture) => match self.stage {
                Stage::RecordCheck => self.on_record_captured(capture),
                _ => self.confuse(),
            },
            Event::IdentityRevalidated { valid, elapsed } => match self.stage {
                Stage::IdentityCheck => self.on_identity_revalidated(valid, elapsed),
                _ => self.confuse(),
            },
            Event::Stored { bytes, elapsed } => match self.stage {
                Stage::Storing => self.on_stored(bytes, elapsed),
                _ => self.confuse(),
            },
        }
    }
}

} // verus!
