//! The direct path: restoring a result without asking the compiler what it would read.
//!
//! A search goes through the candidates of a request. It says what has to be done next, is told what
//! came of it, and ends with a result that is in place, with a record that says what the
//! compilation reads, or with neither.
use vstd::prelude::*;

use crate::cache::direct;
use crate::cache::direct::{DirectLookup, DirectMissReason, DirectRecord, RecordCapture};
use crate::cache::key;
use crate::cache::key::ActionKey;
use crate::cache::manifest::{Manifest, ManifestView};
use crate::cache::request;
use crate::cache::request::Pair;
use crate::compiler::fingerprint::CompilerFingerprint;
use crate::compiler::gfortran::GfortranInvocation;
use crate::digest;
use crate::hex;
use crate::launcher::action;
use crate::launcher::action::Action;
use crate::launcher::observation::{Observation, Observed};
use crate::launcher::pending::{Pending, PendingStats};
use crate::launcher::record;
use crate::launcher::restoring;
use crate::launcher::restoring::ContractFacts;

verus! {

/// A compilation that is handled.
#[derive(Debug)]
pub struct Compilation {
    pub compiler: Vec<u8>,
    /// The arguments of the compiler.
    pub arguments: Vec<Vec<u8>>,
    pub invocation: GfortranInvocation,
    pub cwd: Vec<u8>,
    /// The environment of the compiler.
    pub variables: Vec<Pair>,
    /// The file mode creation mask of the process.
    pub umask: u32,
}

/// The compiler as it is known.
#[derive(Debug)]
pub struct KnownCompiler {
    pub fingerprint: CompilerFingerprint,
    /// The digest of the context in which it was identified.
    pub context: [u8; 32],
}

/// The key of a compilation, given what it reads and writes.
pub open spec fn action_of(
    compilation: Compilation,
    known: KnownCompiler,
    observed: Observed,
) -> Seq<u8> {
    digest::blake3_digest(
        key::preimage(
            action::action_fields(
                Action {
                    umask: compilation.umask,
                    compiler: compilation.compiler@,
                    compiler_digest: known.fingerprint@.digest,
                    cwd: compilation.cwd@,
                    invocation: compilation.invocation@,
                    environment: request::pair_views(compilation.variables@),
                    observation: observed,
                },
            ),
        ),
    )
}

/// The key of a compilation, given what it reads and writes.
pub fn key_of(compilation: &Compilation, known: &KnownCompiler, observation: &Observation) -> (key:
    Result<ActionKey, key::KeyError>)
    ensures
        key is Ok,
        key->Ok_0@ == action_of(*compilation, *known, observation@),
{
    action::build_action_key(
        compilation.compiler.as_slice(),
        &compilation.invocation,
        &known.fingerprint,
        compilation.cwd.as_slice(),
        &compilation.variables,
        observation,
        compilation.umask,
    )
}

/// What a record witnesses is still so.
pub open spec fn record_holds(record: DirectRecord, capture: RecordCapture) -> bool {
    direct::captures(record, capture) && direct::validation_failure(record, capture) is None
}

fn covers(record: &DirectRecord, capture: &RecordCapture) -> (yes: bool)
    ensures
        yes == direct::captures(*record, *capture),
{
    let resolution = &record.resolution;
    if capture.roots.len() != resolution.roots.len() || capture.inputs.len() != record.inputs.len()
        || capture.positive.len() != resolution.positive.len() || capture.negative.len()
        != resolution.negative.len() {
        return false;
    }
    let mut index: usize = 0;
    while index < resolution.positive.len()
        invariant
            *resolution == record.resolution,
            capture.positive@.len() == resolution.positive@.len(),
            index <= resolution.positive@.len(),
            forall|at: int|
                0 <= at < index ==> (#[trigger] capture.positive@[at]).earlier@.len()
                    == resolution.positive@[at].earlier_candidates@.len(),
        decreases resolution.positive@.len() - index,
    {
        if capture.positive[index].earlier.len()
            != resolution.positive[index].earlier_candidates.len() {
            return false;
        }
        index += 1;
    }
    true
}

/// What a record witnesses is still so.
pub fn still_holds(record: &DirectRecord, capture: &RecordCapture) -> (yes: bool)
    ensures
        yes == record_holds(*record, *capture),
{
    covers(record, capture) && record.validate_filesystem(capture).is_ok()
}

/// Why a candidate is of no use, as far as its record says.
pub open spec fn candidate_fault(
    candidate: DirectRecord,
    compilation: Compilation,
    known: KnownCompiler,
    capture: RecordCapture,
) -> Option<Seq<char>> {
    if candidate.compiler.context_key@ != known.context@ || candidate.compiler.compiler_digest@
        != known.fingerprint@.digest {
        Some("compiler-witness"@)
    } else if !record_holds(candidate, capture) {
        Some("filesystem-witness"@)
    } else if !record::selections_known(candidate) {
        Some("record-conversion"@)
    } else if action_of(compilation, known, record::observed_of(candidate))
        != candidate.action_key@ {
        Some("action-key"@)
    } else {
        None
    }
}

/// What a candidate says that the compilation reads and writes, or why it is of no use. Whether its
/// outputs can be put in place is another question.
pub fn validate_direct_candidate(
    candidate: &DirectRecord,
    compilation: &Compilation,
    known: &KnownCompiler,
    capture: &RecordCapture,
) -> (outcome: Result<Observation, &'static str>)
    ensures
        match outcome {
            Ok(found) => candidate_fault(*candidate, *compilation, *known, *capture) is None
                && found@ == record::observed_of(*candidate),
            Err(reason) => candidate_fault(*candidate, *compilation, *known, *capture) == Some(
                reason@,
            ),
        },
{
    if !digest::same(candidate.compiler.context_key.as_bytes(), &known.context) || !digest::same(
        candidate.compiler.compiler_digest.as_bytes(),
        known.fingerprint.digest(),
    ) {
        return Err("compiler-witness");
    }
    if !still_holds(candidate, capture) {
        return Err("filesystem-witness");
    }
    let observation = match record::observation_from_direct(candidate) {
        Some(found) => found,
        None => {
            return Err("record-conversion");
        },
    };
    match key_of(compilation, known, &observation) {
        Ok(found) => {
            if !found.same(&candidate.action_key) {
                return Err("action-key");
            }
        },
        Err(_) => {
            return Err("action-key");
        },
    }
    Ok(observation)
}

/// What a search waits for.
#[derive(Clone, Copy, Debug, PartialEq, Eq, Structural)]
pub enum SearchStage {
    Validation,
    Contract,
    Lock,
    LockedContract,
    Staging,
    Recheck,
    Commit,
    Done,
}

/// How a search ended.
#[derive(Clone, Copy, Debug, PartialEq, Eq, Structural)]
pub enum SearchEnd {
    /// A result is in place.
    Hit,
    /// A record says what the compilation reads.
    Compile,
    Miss,
    /// The outputs could not be locked.
    Unlocked,
    /// A result could not be put in place.
    Uncommitted,
    /// The candidates could not be read.
    Unread,
}

impl SearchEnd {
    /// The reason under which a search that failed is counted.
    pub open spec fn failure(self) -> Seq<char> {
        match self {
            SearchEnd::Unlocked => "direct-output-lock"@,
            SearchEnd::Uncommitted => "direct-commit"@,
            _ => "direct-index-read"@,
        }
    }

    /// The reason under which a search that failed is counted.
    pub fn failure_reason(self) -> (reason: &'static str)
        ensures
            reason@ == self.failure(),
    {
        match self {
            SearchEnd::Unlocked => "direct-output-lock",
            SearchEnd::Uncommitted => "direct-commit",
            _ => "direct-index-read",
        }
    }
}

/// A stored index was found, and is not one that can be used.
pub open spec fn index_corrupt(reason: Option<DirectMissReason>) -> bool {
    match reason {
        Some(found) => match found {
            DirectMissReason::Corrupt => true,
            DirectMissReason::Oversized => true,
            DirectMissReason::UnsupportedSchema(_) => true,
            DirectMissReason::RequestKeyMismatch => true,
            _ => false,
        },
        None => false,
    }
}

/// Counts what a lookup found.
pub fn record_lookup(lookup: &DirectLookup, stats: &mut PendingStats)
    ensures
        final(stats)@ == old(stats)@.candidates(
            lookup.candidates@.len() as u64,
            lookup.missing_result_candidates@.len() as u64,
            index_corrupt(lookup.miss_reason),
        ),
{
    let corrupt = match &lookup.miss_reason {
        Some(found) => match found {
            DirectMissReason::Corrupt => true,
            DirectMissReason::Oversized => true,
            DirectMissReason::UnsupportedSchema(_) => true,
            DirectMissReason::RequestKeyMismatch => true,
            _ => false,
        },
        None => false,
    };
    stats.record_candidates(
        lookup.candidates.len() as u64,
        lookup.missing_result_candidates.len() as u64,
        corrupt,
    );
}

/// What has to be done for the candidate at which a search is.
#[derive(Clone, Copy, Debug, PartialEq, Eq, Structural)]
pub enum SearchStep {
    /// What its record witnesses is looked at.
    Capture,
    /// The places of its outputs are looked at.
    CheckContract,
    /// Its outputs are locked.
    Lock,
    /// Its result is staged.
    Prepare,
    /// Everything is looked at once more.
    Recheck,
    /// Its result is put in place.
    Commit,
    Finished(SearchEnd),
}

/// What came of a step.
#[derive(Debug)]
pub enum SearchEvent {
    Captured(RecordCapture),
    Contract(ContractFacts),
    Locked(bool),
    Prepared(Option<Manifest>),
    Rechecked { capture: RecordCapture, identity: bool, contract: ContractFacts },
    Committed(bool),
}

/// A record that says what the compilation reads: where it stands among the candidates, and what it
/// says.
#[derive(Debug)]
pub struct DirectCompilePlan {
    pub at: usize,
    pub observation: Observation,
}

/// A search through the candidates of a request: first those with a result, then those whose result
/// is gone.
#[derive(Debug)]
pub struct DirectSearch {
    pub candidates: Vec<DirectRecord>,
    pub missing: Vec<DirectRecord>,
    pub at: usize,
    pub stage: SearchStage,
    pub observation: Option<Observation>,
    pub manifest: Option<Manifest>,
    pub plan: Option<DirectCompilePlan>,
}

impl DirectSearch {
    /// The number of candidates.
    pub open spec fn total(self) -> int {
        (self.candidates@.len() + self.missing@.len()) as int
    }

    /// The search is at one of its candidates, as far as it is not done, and knows what that says
    /// once it was validated.
    pub open spec fn well_formed(self) -> bool {
        &&& self.total() <= usize::MAX
        &&& self.stage != SearchStage::Done ==> self.at < self.total()
        &&& self.stage != SearchStage::Done && self.stage != SearchStage::Validation
            ==> self.observation is Some
    }

    /// The candidate at an index.
    pub open spec fn candidate(self, at: int) -> DirectRecord {
        if at < self.candidates@.len() {
            self.candidates@[at]
        } else {
            self.missing@[at - self.candidates@.len()]
        }
    }
}

/// The search and what it counts, and the next step.
pub struct Searched {
    pub search: DirectSearch,
    pub stats: Pending,
    pub step: SearchStep,
}

/// The search goes on with the candidate at `search.at`.
pub open spec fn at_candidate(search: DirectSearch, stats: Pending) -> Searched {
    if search.at < search.total() {
        Searched {
            search: DirectSearch {
                stage: SearchStage::Validation,
                observation: None,
                manifest: None,
                ..search
            },
            stats,
            step: SearchStep::Capture,
        }
    } else {
        Searched {
            search: DirectSearch {
                stage: SearchStage::Done,
                observation: None,
                manifest: None,
                ..search
            },
            stats,
            step: SearchStep::Finished(
                if search.plan is Some {
                    SearchEnd::Compile
                } else {
                    SearchEnd::Miss
                },
            ),
        }
    }
}

/// The candidate is of no use.
pub open spec fn rejecting(search: DirectSearch, stats: Pending, reason: Seq<char>) -> Searched {
    at_candidate(
        DirectSearch { at: (search.at + 1) as usize, ..search },
        stats.fallen_back(reason),
    )
}

/// The candidate says what the compilation reads, and has no result that could be used.
pub open spec fn planning(search: DirectSearch, stats: Pending) -> Searched {
    at_candidate(
        DirectSearch {
            at: (search.at + 1) as usize,
            plan: match search.plan {
                Some(plan) => Some(plan),
                None => Some(
                    DirectCompilePlan { at: search.at, observation: search.observation->0 },
                ),
            },
            ..search
        },
        stats,
    )
}

/// The search waits for something else.
pub open spec fn awaiting(
    search: DirectSearch,
    stats: Pending,
    stage: SearchStage,
    step: SearchStep,
) -> Searched {
    Searched { search: DirectSearch { stage, ..search }, stats, step }
}

/// A manifest is the one that a candidate and the compiler promise.
pub open spec fn manifest_fits(
    candidate: DirectRecord,
    known: KnownCompiler,
    manifest: ManifestView,
) -> bool {
    manifest.compiler_digest == hex::hex_text(known.fingerprint@.digest)
        && restoring::manifest_matches(candidate, manifest)
}

/// The search after what came of a step. `found` is what the candidate says where it was just
/// validated.
pub open spec fn searching(
    search: DirectSearch,
    stats: Pending,
    event: SearchEvent,
    compilation: Compilation,
    known: KnownCompiler,
    found: Option<Observation>,
) -> Searched {
    let candidate = search.candidate(search.at as int);
    let observed = search.observation->0@;
    match (search.stage, event) {
        (SearchStage::Validation, SearchEvent::Captured(capture)) => match candidate_fault(
            candidate,
            compilation,
            known,
            capture,
        ) {
            Some(reason) => rejecting(search, stats, reason),
            None => awaiting(
                DirectSearch { observation: found, ..search },
                stats,
                SearchStage::Contract,
                SearchStep::CheckContract,
            ),
        },
        (SearchStage::Contract, SearchEvent::Contract(facts)) => if !restoring::contract_holds(
            observed,
            facts,
        ) {
            rejecting(search, stats, "output-contract"@)
        } else if search.at < search.candidates@.len() {
            awaiting(search, stats, SearchStage::Lock, SearchStep::Lock)
        } else {
            planning(search, stats)
        },
        (SearchStage::Lock, SearchEvent::Locked(locked)) => if locked {
            awaiting(search, stats, SearchStage::LockedContract, SearchStep::CheckContract)
        } else {
            awaiting(
                search,
                stats,
                SearchStage::Done,
                SearchStep::Finished(SearchEnd::Unlocked),
            )
        },
        (SearchStage::LockedContract, SearchEvent::Contract(facts)) => {
            if !restoring::contract_holds(observed, facts) {
                rejecting(search, stats, "output-contract"@)
            } else {
                awaiting(search, stats, SearchStage::Staging, SearchStep::Prepare)
            }
        },
        (SearchStage::Staging, SearchEvent::Prepared(prepared)) => match prepared {
            None => planning(search, stats.fallen_back("result-staging"@)),
            Some(manifest) => if !manifest_fits(candidate, known, manifest@) {
                rejecting(search, stats, "precommit-revalidation"@)
            } else {
                awaiting(
                    DirectSearch { manifest: Some(manifest), ..search },
                    stats,
                    SearchStage::Recheck,
                    SearchStep::Recheck,
                )
            },
        },
        (SearchStage::Recheck, SearchEvent::Rechecked { capture, identity, contract }) => {
            if !record_holds(candidate, capture) || !identity || !restoring::contract_holds(
                observed,
                contract,
            ) {
                rejecting(search, stats, "precommit-revalidation"@)
            } else {
                awaiting(search, stats, SearchStage::Commit, SearchStep::Commit)
            }
        },
        (SearchStage::Commit, SearchEvent::Committed(committed)) => awaiting(
            search,
            stats,
            SearchStage::Done,
            SearchStep::Finished(
                if committed {
                    SearchEnd::Hit
                } else {
                    SearchEnd::Uncommitted
                },
            ),
        ),
        _ => awaiting(search, stats, SearchStage::Done, SearchStep::Finished(SearchEnd::Miss)),
    }
}

/// The state of a search is one that it can be in.
pub open spec fn search_sound(
    search: DirectSearch,
    compilation: Compilation,
    known: KnownCompiler,
) -> bool {
    let candidate = search.candidate(search.at as int);
    let stage = search.stage;
    &&& search.total() <= usize::MAX
    &&& search.at <= search.total()
    &&& stage != SearchStage::Done ==> search.at < search.total()
    &&& stage != SearchStage::Done && stage != SearchStage::Validation ==> {
        &&& search.observation is Some
        &&& search.observation->0@ == record::observed_of(candidate)
        &&& candidate.compiler.context_key@ == known.context@
        &&& candidate.compiler.compiler_digest@ == known.fingerprint@.digest
        &&& action_of(compilation, known, record::observed_of(candidate)) == candidate.action_key@
    }
    &&& stage == SearchStage::Recheck || stage == SearchStage::Commit ==> {
        &&& search.manifest is Some
        &&& manifest_fits(candidate, known, search.manifest->0@)
    }
    &&& search.plan is Some ==> {
        let planned = search.candidate(search.plan->0.at as int);
        &&& search.plan->0.at < search.total()
        &&& search.plan->0.observation@ == record::observed_of(planned)
        &&& action_of(compilation, known, record::observed_of(planned)) == planned.action_key@
    }
}

/// The result that a search puts in place is that of the compilation, as far as anyone can tell:
/// its candidate has the key of the compilation and the digests of the compiler; what its record
/// witnesses held, and its outputs could be put in place, when that was looked at just before; and
/// the manifest that is put in place has the compiler and the artifacts that the record expects.
#[verifier::rlimit(60)]
pub proof fn law_direct_hits_are_justified(
    search: DirectSearch,
    stats: Pending,
    event: SearchEvent,
    compilation: Compilation,
    known: KnownCompiler,
    found: Option<Observation>,
)
    requires
        search_sound(search, compilation, known),
        search.stage is Validation && event is Captured && candidate_fault(
            search.candidate(search.at as int),
            compilation,
            known,
            event->Captured_0,
        ) is None ==> found is Some && found->0@ == record::observed_of(
            search.candidate(search.at as int),
        ),
    ensures
        search_sound(
            searching(search, stats, event, compilation, known, found).search,
            compilation,
            known,
        ),
        searching(search, stats, event, compilation, known, found).step == SearchStep::Commit ==> {
            &&& event is Rechecked
            &&& record_holds(search.candidate(search.at as int), event->capture)
            &&& event->identity
            &&& restoring::contract_holds(
                record::observed_of(search.candidate(search.at as int)),
                event->contract,
            )
            &&& manifest_fits(
                search.candidate(search.at as int),
                known,
                search.manifest->0@,
            )
        },
        searching(search, stats, event, compilation, known, found).step == SearchStep::Finished(
            SearchEnd::Hit,
        ) ==> search.stage is Commit && action_of(
            compilation,
            known,
            record::observed_of(search.candidate(search.at as int)),
        ) == search.candidate(search.at as int).action_key@,
{
    let after = searching(search, stats, event, compilation, known, found).search;
    assert(after.candidates == search.candidates && after.missing == search.missing);
    assert(forall|at: int| #[trigger] after.candidate(at) == search.candidate(at));
    match search.stage {
        SearchStage::Validation => {},
        SearchStage::Contract => {},
        SearchStage::Lock => {},
        SearchStage::LockedContract => {},
        SearchStage::Staging => {},
        SearchStage::Recheck => {},
        SearchStage::Commit => {},
        SearchStage::Done => {},
    }
}

impl DirectSearch {
    /// A search through candidates, and its first step.
    pub fn new(candidates: Vec<DirectRecord>, missing: Vec<DirectRecord>) -> (started: Option<
        (Self, SearchStep),
    >)
        ensures
            match started {
                Some((search, step)) => {
                    &&& search.candidates@ == candidates@
                    &&& search.missing@ == missing@
                    &&& search.at == 0
                    &&& search.plan is None
                    &&& search.well_formed()
                    &&& step == (if search.total() == 0 {
                        SearchStep::Finished(SearchEnd::Miss)
                    } else {
                        SearchStep::Capture
                    })
                    &&& search.stage == (if search.total() == 0 {
                        SearchStage::Done
                    } else {
                        SearchStage::Validation
                    })
                },
                None => candidates@.len() + missing@.len() > usize::MAX,
            },
    {
        let total: usize = match candidates.len().checked_add(missing.len()) {
            Some(total) => total,
            None => {
                return None;
            },
        };
        let (stage, step) = if total == 0 {
            (SearchStage::Done, SearchStep::Finished(SearchEnd::Miss))
        } else {
            (SearchStage::Validation, SearchStep::Capture)
        };
        Some(
            (
                DirectSearch {
                    candidates,
                    missing,
                    at: 0,
                    stage,
                    observation: None,
                    manifest: None,
                    plan: None,
                },
                step,
            ),
        )
    }

    /// The candidate at which the search is.
    pub fn current(&self) -> (candidate: Option<&DirectRecord>)
        ensures
            match candidate {
                Some(found) => self.at < self.total() && *found == self.candidate(self.at as int),
                None => self.at >= self.total(),
            },
    {
        if self.at < self.candidates.len() {
            Some(&self.candidates[self.at])
        } else if self.at - self.candidates.len() < self.missing.len() {
            Some(&self.missing[self.at - self.candidates.len()])
        } else {
            None
        }
    }

    fn await_candidate(&mut self) -> (step: SearchStep)
        requires
            old(self).total() <= usize::MAX,
        ensures
            forall|stats: Pending| #[trigger]
                at_candidate(*old(self), stats) == (Searched { search: *final(self), stats, step }),
    {
        self.observation = None;
        self.manifest = None;
        if self.at < self.candidates.len() + self.missing.len() {
            self.stage = SearchStage::Validation;
            SearchStep::Capture
        } else {
            self.stage = SearchStage::Done;
            if self.plan.is_some() {
                SearchStep::Finished(SearchEnd::Compile)
            } else {
                SearchStep::Finished(SearchEnd::Miss)
            }
        }
    }

    fn reject(&mut self, stats: &mut PendingStats, reason: &str) -> (step: SearchStep)
        requires
            old(self).at < old(self).total() <= usize::MAX,
        ensures
            (Searched { search: *final(self), stats: final(stats)@, step }) == rejecting(
                *old(self),
                old(stats)@,
                reason@,
            ),
    {
        stats.record_direct_fallback(reason);
        self.at = self.at + 1;
        self.await_candidate()
    }

    fn keep_plan(&mut self) -> (step: SearchStep)
        requires
            old(self).at < old(self).total() <= usize::MAX,
            old(self).observation is Some,
        ensures
            forall|stats: Pending| #[trigger]
                planning(*old(self), stats) == (Searched { search: *final(self), stats, step }),
    {
        let ghost start = *self;
        if self.plan.is_none() {
            let mut observation: Option<Observation> = None;
            std::mem::swap(&mut observation, &mut self.observation);
            if let Some(found) = observation {
                self.plan = Some(DirectCompilePlan { at: self.at, observation: found });
            }
        }
        self.at = self.at + 1;
        let ghost reached = *self;
        let step = self.await_candidate();
        proof {
            let planned = DirectSearch { observation: start.observation, ..reached };
            assert forall|stats: Pending| #[trigger] planning(start, stats) == (Searched {
                search: *self,
                stats,
                step,
            }) by {
                assert(planning(start, stats) == at_candidate(planned, stats));
                assert(at_candidate(planned, stats) == at_candidate(reached, stats));
            }
        }
        step
    }

    /// Tells a search what came of its step, and gives the next one. An answer to a question that
    /// was not asked ends the search.
    pub fn advance(
        &mut self,
        event: SearchEvent,
        compilation: &Compilation,
        known: &KnownCompiler,
        stats: &mut PendingStats,
    ) -> (step: SearchStep)
        requires
            old(self).well_formed(),
        ensures
            final(self).well_formed(),
            exists|found: Option<Observation>|
                (Searched { search: *final(self), stats: final(stats)@, step }) == (
                #[trigger] searching(
                    *old(self),
                    old(stats)@,
                    event,
                    *compilation,
                    *known,
                    found,
                )) && (found is Some ==> found->0@ == record::observed_of(
                    old(self).candidate(old(self).at as int),
                )),
    {
        let ghost start = *self;
        let ghost counted = stats@;
        let mut ghost_found: Ghost<Option<Observation>> = Ghost(None);
        let step = match (self.stage, event) {
            (SearchStage::Validation, SearchEvent::Captured(capture)) => {
                let verdict = match self.current() {
                    Some(candidate) => validate_direct_candidate(
                        candidate,
                        compilation,
                        known,
                        &capture,
                    ),
                    None => Err("record-conversion"),
                };
                match verdict {
                    Err(reason) => self.reject(stats, reason),
                    Ok(observation) => {
                        proof {
                            ghost_found@ = Some(observation);
                        }
                        self.observation = Some(observation);
                        self.stage = SearchStage::Contract;
                        SearchStep::CheckContract
                    },
                }
            },
            (SearchStage::Contract, SearchEvent::Contract(facts)) => {
                if !self.outputs_fit(&facts) {
                    self.reject(stats, "output-contract")
                } else if self.at < self.candidates.len() {
                    self.stage = SearchStage::Lock;
                    SearchStep::Lock
                } else {
                    self.keep_plan()
                }
            },
            (SearchStage::Lock, SearchEvent::Locked(locked)) => {
                if locked {
                    self.stage = SearchStage::LockedContract;
                    SearchStep::CheckContract
                } else {
                    self.stage = SearchStage::Done;
                    SearchStep::Finished(SearchEnd::Unlocked)
                }
            },
            (SearchStage::LockedContract, SearchEvent::Contract(facts)) => {
                if !self.outputs_fit(&facts) {
                    self.reject(stats, "output-contract")
                } else {
                    self.stage = SearchStage::Staging;
                    SearchStep::Prepare
                }
            },
            (SearchStage::Staging, SearchEvent::Prepared(prepared)) => match prepared {
                None => {
                    stats.record_direct_fallback("result-staging");
                    self.keep_plan()
                },
                Some(manifest) => {
                    let fits = match self.current() {
                        Some(candidate) => manifest.compiler_digest
                            == known.fingerprint.digest_hex()
                            && restoring::direct_manifest_matches(candidate, &manifest),
                        None => false,
                    };
                    if !fits {
                        self.reject(stats, "precommit-revalidation")
                    } else {
                        self.manifest = Some(manifest);
                        self.stage = SearchStage::Recheck;
                        SearchStep::Recheck
                    }
                },
            },
            (SearchStage::Recheck, SearchEvent::Rechecked { capture, identity, contract }) => {
                let holds = match self.current() {
                    Some(candidate) => still_holds(candidate, &capture),
                    None => false,
                };
                if !holds || !identity || !self.outputs_fit(&contract) {
                    self.reject(stats, "precommit-revalidation")
                } else {
                    self.stage = SearchStage::Commit;
                    SearchStep::Commit
                }
            },
            (SearchStage::Commit, SearchEvent::Committed(committed)) => {
                self.stage = SearchStage::Done;
                if committed {
                    SearchStep::Finished(SearchEnd::Hit)
                } else {
                    SearchStep::Finished(SearchEnd::Uncommitted)
                }
            },
            _ => {
                self.stage = SearchStage::Done;
                SearchStep::Finished(SearchEnd::Miss)
            },
        };
        proof {
            let found = ghost_found@;
            assert((Searched { search: *self, stats: stats@, step }) == searching(
                start,
                counted,
                event,
                *compilation,
                *known,
                found,
            ));
        }
        step
    }

    fn outputs_fit(&self, facts: &ContractFacts) -> (yes: bool)
        requires
            self.observation is Some,
        ensures
            yes == restoring::contract_holds(self.observation->0@, *facts),
    {
        match &self.observation {
            Some(observation) => restoring::validate_restore_output_contract(observation, facts),
            None => false,
        }
    }
}

/// A candidate is of use exactly where it is of this compiler, what its record witnesses holds, and
/// the key of its result is that of the compilation.
pub proof fn law_which_candidates_are_of_use(
    candidate: DirectRecord,
    compilation: Compilation,
    known: KnownCompiler,
    capture: RecordCapture,
)
    ensures
        candidate_fault(candidate, compilation, known, capture) is None <==> {
            &&& candidate.compiler.context_key@ == known.context@
            &&& candidate.compiler.compiler_digest@ == known.fingerprint@.digest
            &&& direct::captures(candidate, capture)
            &&& direct::validation_failure(candidate, capture) is None
            &&& record::selections_known(candidate)
            &&& action_of(compilation, known, record::observed_of(candidate))
                == candidate.action_key@
        },
{
}

/// A candidate that is of no use is passed over, and the next one is looked at; the search ends behind
/// the last one, in a compilation whose plan is known where one was found.
pub proof fn law_candidates_are_tried_in_order(
    search: DirectSearch,
    stats: Pending,
    capture: RecordCapture,
    compilation: Compilation,
    known: KnownCompiler,
    found: Option<Observation>,
)
    requires
        search.stage is Validation,
        search.at < search.candidates@.len() + search.missing@.len() <= usize::MAX,
        candidate_fault(search.candidate(search.at as int), compilation, known, capture) is Some,
    ensures
        ({
            let next = searching(
                search,
                stats,
                SearchEvent::Captured(capture),
                compilation,
                known,
                found,
            );
            &&& next.search.at == search.at + 1
            &&& next.search.plan == search.plan
            &&& next.search.candidates == search.candidates
            &&& next.search.missing == search.missing
            &&& search.at + 1 < search.candidates@.len() + search.missing@.len() ==> next.step
                == SearchStep::Capture
            &&& search.at + 1 == search.candidates@.len() + search.missing@.len() ==> next.step
                == SearchStep::Finished(
                if search.plan is Some {
                    SearchEnd::Compile
                } else {
                    SearchEnd::Miss
                },
            )
        }),
{
}

/// A candidate against which nothing stands is put in place: its outputs are looked at, locked and
/// looked at again, its result is made ready, everything is looked at once more, and it is put in
/// place; and the search has found it.
pub proof fn law_a_fitting_candidate_is_put_in_place(
    search: DirectSearch,
    stats: Pending,
    capture: RecordCapture,
    contract: ContractFacts,
    manifest: Manifest,
    compilation: Compilation,
    known: KnownCompiler,
    found: Option<Observation>,
)
    requires
        search.at < search.candidates@.len(),
        search.observation is Some,
        record_holds(search.candidate(search.at as int), capture),
        restoring::contract_holds(search.observation->0@, contract),
        manifest_fits(search.candidate(search.at as int), known, manifest@),
    ensures
        search.stage is Validation && candidate_fault(
            search.candidate(search.at as int),
            compilation,
            known,
            capture,
        ) is None ==> searching(
            search,
            stats,
            SearchEvent::Captured(capture),
            compilation,
            known,
            found,
        ).step is CheckContract,
        search.stage is Contract ==> searching(
            search,
            stats,
            SearchEvent::Contract(contract),
            compilation,
            known,
            found,
        ).step is Lock,
        search.stage is Lock ==> searching(
            search,
            stats,
            SearchEvent::Locked(true),
            compilation,
            known,
            found,
        ).step is CheckContract,
        search.stage is LockedContract ==> searching(
            search,
            stats,
            SearchEvent::Contract(contract),
            compilation,
            known,
            found,
        ).step is Prepare,
        search.stage is Staging ==> searching(
            search,
            stats,
            SearchEvent::Prepared(Some(manifest)),
            compilation,
            known,
            found,
        ).step is Recheck,
        search.stage is Recheck ==> searching(
            search,
            stats,
            SearchEvent::Rechecked { capture, identity: true, contract },
            compilation,
            known,
            found,
        ).step is Commit,
        search.stage is Commit ==> searching(
            search,
            stats,
            SearchEvent::Committed(true),
            compilation,
            known,
            found,
        ).step == SearchStep::Finished(SearchEnd::Hit),
{
}

} // verus!
