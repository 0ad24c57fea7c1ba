//! What the cache counts.
use vstd::prelude::*;

use crate::cache::reasons;
use crate::cache::reasons::Reasons;
use crate::words;

verus! {

/// The version of the counts that are written.
pub const STATS_SCHEMA_VERSION: u32 = 3;

/// The most reasons that one map may count.
pub const MAX_REASON_ENTRIES: usize = 256;

/// The longest reason, in bytes.
pub const MAX_REASON_BYTES: usize = 256;

/// The counts by reason.
pub type Counts = Map<Seq<u8>, u64>;

/// Adds to a counter, which stops at its largest value.
pub fn increase(value: &mut u64, increment: u64)
    ensures
        *final(value) == reasons::plus(*old(value), increment),
{
    *value = value.saturating_add(increment);
}


/// How lookups in the cache ended.
#[derive(Clone, Copy, Debug, PartialEq, Eq, Structural)]
pub struct LookupResults {
    pub hits: u64,
    pub misses: u64,
    pub not_attempted: u64,
}

impl LookupResults {
    /// Nothing counted.
    pub open spec fn zero() -> Self {
        LookupResults {
            hits: 0,
            misses: 0,
            not_attempted: 0,
        }
    }

    /// What two counts make together.
    pub open spec fn merged(self, other: Self) -> Self {
        LookupResults {
            hits: reasons::plus(self.hits, other.hits),
            misses: reasons::plus(self.misses, other.misses),
            not_attempted: reasons::plus(self.not_attempted, other.not_attempted),
        }
    }

    /// Counts what the other counts.
    pub fn merge(&mut self, other: &Self)
        ensures
            *final(self) == old(self).merged(*other),
    {
        increase(&mut self.hits, other.hits);
        increase(&mut self.misses, other.misses);
        increase(&mut self.not_attempted, other.not_attempted);
    }
}

impl Default for LookupResults {
    fn default() -> (value: Self)
        ensures
            value == LookupResults::zero(),
    {
        LookupResults {
            hits: 0,
            misses: 0,
            not_attempted: 0,
        }
    }
}

/// How handled compilations ended.
#[derive(Clone, Copy, Debug, PartialEq, Eq, Structural)]
pub struct ObservedOutcomes {
    pub cache_hit_success: u64,
    pub compiler_success: u64,
    pub compiler_failure: u64,
    pub launcher_failure: u64,
}

impl ObservedOutcomes {
    /// Nothing counted.
    pub open spec fn zero() -> Self {
        ObservedOutcomes {
            cache_hit_success: 0,
            compiler_success: 0,
            compiler_failure: 0,
            launcher_failure: 0,
        }
    }

    /// What two counts make together.
    pub open spec fn merged(self, other: Self) -> Self {
        ObservedOutcomes {
            cache_hit_success: reasons::plus(self.cache_hit_success, other.cache_hit_success),
            compiler_success: reasons::plus(self.compiler_success, other.compiler_success),
            compiler_failure: reasons::plus(self.compiler_failure, other.compiler_failure),
            launcher_failure: reasons::plus(self.launcher_failure, other.launcher_failure),
        }
    }

    /// Counts what the other counts.
    pub fn merge(&mut self, other: &Self)
        ensures
            *final(self) == old(self).merged(*other),
    {
        increase(&mut self.cache_hit_success, other.cache_hit_success);
        increase(&mut self.compiler_success, other.compiler_success);
        increase(&mut self.compiler_failure, other.compiler_failure);
        increase(&mut self.launcher_failure, other.launcher_failure);
    }
}

impl Default for ObservedOutcomes {
    fn default() -> (value: Self)
        ensures
            value == ObservedOutcomes::zero(),
    {
        ObservedOutcomes {
            cache_hit_success: 0,
            compiler_success: 0,
            compiler_failure: 0,
            launcher_failure: 0,
        }
    }
}

/// Compiler subprocesses launched while handling cache requests.
#[derive(Clone, Copy, Debug, PartialEq, Eq, Structural)]
pub struct ProcessCounts {
    pub fingerprint_queries: u64,
    pub preprocessing_probes: u64,
    pub dependency_probes: u64,
    pub real_compilations: u64,
    pub pass_through_executions: u64,
}

impl ProcessCounts {
    /// Nothing counted.
    pub open spec fn zero() -> Self {
        ProcessCounts {
            fingerprint_queries: 0,
            preprocessing_probes: 0,
            dependency_probes: 0,
            real_compilations: 0,
            pass_through_executions: 0,
        }
    }

    /// What two counts make together.
    pub open spec fn merged(self, other: Self) -> Self {
        ProcessCounts {
            fingerprint_queries: reasons::plus(self.fingerprint_queries, other.fingerprint_queries),
            preprocessing_probes: reasons::plus(self.preprocessing_probes, other.preprocessing_probes),
            dependency_probes: reasons::plus(self.dependency_probes, other.dependency_probes),
            real_compilations: reasons::plus(self.real_compilations, other.real_compilations),
            pass_through_executions: reasons::plus(self.pass_through_executions, other.pass_through_executions),
        }
    }

    /// Counts what the other counts.
    pub fn merge(&mut self, other: &Self)
        ensures
            *final(self) == old(self).merged(*other),
    {
        increase(&mut self.fingerprint_queries, other.fingerprint_queries);
        increase(&mut self.preprocessing_probes, other.preprocessing_probes);
        increase(&mut self.dependency_probes, other.dependency_probes);
        increase(&mut self.real_compilations, other.real_compilations);
        increase(&mut self.pass_through_executions, other.pass_through_executions);
    }
}

impl Default for ProcessCounts {
    fn default() -> (value: Self)
        ensures
            value == ProcessCounts::zero(),
    {
        ProcessCounts {
            fingerprint_queries: 0,
            preprocessing_probes: 0,
            dependency_probes: 0,
            real_compilations: 0,
            pass_through_executions: 0,
        }
    }
}

/// Miss-observation strategy selections, attempts, and successful validations.
#[derive(Clone, Copy, Debug, PartialEq, Eq, Structural)]
pub struct MissObservationStats {
    pub validated_precompile_selections: u64,
    pub real_md_validation_successes: u64,
    pub post_compile_probe_attempts: u64,
}

impl MissObservationStats {
    /// Nothing counted.
    pub open spec fn zero() -> Self {
        MissObservationStats {
            validated_precompile_selections: 0,
            real_md_validation_successes: 0,
            post_compile_probe_attempts: 0,
        }
    }

    /// What two counts make together.
    pub open spec fn merged(self, other: Self) -> Self {
        MissObservationStats {
            validated_precompile_selections: reasons::plus(self.validated_precompile_selections, other.validated_precompile_selections),
            real_md_validation_successes: reasons::plus(self.real_md_validation_successes, other.real_md_validation_successes),
            post_compile_probe_attempts: reasons::plus(self.post_compile_probe_attempts, other.post_compile_probe_attempts),
        }
    }

    /// Counts what the other counts.
    pub fn merge(&mut self, other: &Self)
        ensures
            *final(self) == old(self).merged(*other),
    {
        increase(&mut self.validated_precompile_selections, other.validated_precompile_selections);
        increase(&mut self.real_md_validation_successes, other.real_md_validation_successes);
        increase(&mut self.post_compile_probe_attempts, other.post_compile_probe_attempts);
    }
}

impl Default for MissObservationStats {
    fn default() -> (value: Self)
        ensures
            value == MissObservationStats::zero(),
    {
        MissObservationStats {
            validated_precompile_selections: 0,
            real_md_validation_successes: 0,
            post_compile_probe_attempts: 0,
        }
    }
}

/// Cumulative monotonic time spent in launcher phases, in nanoseconds.
#[derive(Clone, Copy, Debug, PartialEq, Eq, Structural)]
pub struct PhaseTimingsNs {
    pub parsing: u64,
    pub compiler_identity: u64,
    pub direct_validation: u64,
    pub preprocessing_qualification: u64,
    pub dependency_probing: u64,
    pub cache_lookup_staging: u64,
    pub real_compilation: u64,
    pub post_compile_validation: u64,
    pub publication: u64,
    pub lock_waiting: u64,
    pub maintenance: u64,
}

impl PhaseTimingsNs {
    /// Nothing counted.
    pub open spec fn zero() -> Self {
        PhaseTimingsNs {
            parsing: 0,
            compiler_identity: 0,
            direct_validation: 0,
            preprocessing_qualification: 0,
            dependency_probing: 0,
            cache_lookup_staging: 0,
            real_compilation: 0,
            post_compile_validation: 0,
            publication: 0,
            lock_waiting: 0,
            maintenance: 0,
        }
    }

    /// What two counts make together.
    pub open spec fn merged(self, other: Self) -> Self {
        PhaseTimingsNs {
            parsing: reasons::plus(self.parsing, other.parsing),
            compiler_identity: reasons::plus(self.compiler_identity, other.compiler_identity),
            direct_validation: reasons::plus(self.direct_validation, other.direct_validation),
            preprocessing_qualification: reasons::plus(self.preprocessing_qualification, other.preprocessing_qualification),
            dependency_probing: reasons::plus(self.dependency_probing, other.dependency_probing),
            cache_lookup_staging: reasons::plus(self.cache_lookup_staging, other.cache_lookup_staging),
            real_compilation: reasons::plus(self.real_compilation, other.real_compilation),
            post_compile_validation: reasons::plus(self.post_compile_validation, other.post_compile_validation),
            publication: reasons::plus(self.publication, other.publication),
            lock_waiting: reasons::plus(self.lock_waiting, other.lock_waiting),
            maintenance: reasons::plus(self.maintenance, other.maintenance),
        }
    }

    /// Counts what the other counts.
    pub fn merge(&mut self, other: &Self)
        ensures
            *final(self) == old(self).merged(*other),
    {
        increase(&mut self.parsing, other.parsing);
        increase(&mut self.compiler_identity, other.compiler_identity);
        increase(&mut self.direct_validation, other.direct_validation);
        increase(&mut self.preprocessing_qualification, other.preprocessing_qualification);
        increase(&mut self.dependency_probing, other.dependency_probing);
        increase(&mut self.cache_lookup_staging, other.cache_lookup_staging);
        increase(&mut self.real_compilation, other.real_compilation);
        increase(&mut self.post_compile_validation, other.post_compile_validation);
        increase(&mut self.publication, other.publication);
        increase(&mut self.lock_waiting, other.lock_waiting);
        increase(&mut self.maintenance, other.maintenance);
    }
}

impl Default for PhaseTimingsNs {
    fn default() -> (value: Self)
        ensures
            value == PhaseTimingsNs::zero(),
    {
        PhaseTimingsNs {
            parsing: 0,
            compiler_identity: 0,
            direct_validation: 0,
            preprocessing_qualification: 0,
            dependency_probing: 0,
            cache_lookup_staging: 0,
            real_compilation: 0,
            post_compile_validation: 0,
            publication: 0,
            lock_waiting: 0,
            maintenance: 0,
        }
    }
}

/// Outcomes from attempting the compiler-free direct path.
#[verifier::ext_equal]
#[derive(Clone, Debug, PartialEq, Eq)]
pub struct DirectPathStats<R = Reasons> {
    pub candidates_found: u64,
    pub validated_hits: u64,
    pub validated_compile_plans: u64,
    pub stale_records: u64,
    pub corrupt_records: u64,
    pub missing_result_manifests: u64,
    pub validation_fallback_reasons: R,
}

impl View for DirectPathStats {
    type V = DirectPathStats<Counts>;

    open spec fn view(&self) -> DirectPathStats<Counts> {
        DirectPathStats {
            candidates_found: self.candidates_found,
            validated_hits: self.validated_hits,
            validated_compile_plans: self.validated_compile_plans,
            stale_records: self.stale_records,
            corrupt_records: self.corrupt_records,
            missing_result_manifests: self.missing_result_manifests,
            validation_fallback_reasons: self.validation_fallback_reasons@,
        }
    }
}

impl DirectPathStats<Counts> {
    /// Nothing counted.
    pub open spec fn zero() -> Self {
        DirectPathStats {
            candidates_found: 0,
            validated_hits: 0,
            validated_compile_plans: 0,
            stale_records: 0,
            corrupt_records: 0,
            missing_result_manifests: 0,
            validation_fallback_reasons: Map::empty(),
        }
    }

    /// What two counts make together.
    pub open spec fn merged(self, other: Self) -> Self {
        DirectPathStats {
            candidates_found: reasons::plus(self.candidates_found, other.candidates_found),
            validated_hits: reasons::plus(self.validated_hits, other.validated_hits),
            validated_compile_plans: reasons::plus(self.validated_compile_plans, other.validated_compile_plans),
            stale_records: reasons::plus(self.stale_records, other.stale_records),
            corrupt_records: reasons::plus(self.corrupt_records, other.corrupt_records),
            missing_result_manifests: reasons::plus(self.missing_result_manifests, other.missing_result_manifests),
            validation_fallback_reasons: reasons::merged_reasons(
                self.validation_fallback_reasons,
                other.validation_fallback_reasons,
            ),
        }
    }
}

impl DirectPathStats {
    /// Counts what the other counts.
    pub fn merge(&mut self, other: &Self)
        ensures
            final(self)@ == old(self)@.merged(other@),
    {
        increase(&mut self.candidates_found, other.candidates_found);
        increase(&mut self.validated_hits, other.validated_hits);
        increase(&mut self.validated_compile_plans, other.validated_compile_plans);
        increase(&mut self.stale_records, other.stale_records);
        increase(&mut self.corrupt_records, other.corrupt_records);
        increase(&mut self.missing_result_manifests, other.missing_result_manifests);
        self.validation_fallback_reasons.merge(&other.validation_fallback_reasons);
    }
}

impl Default for DirectPathStats {
    fn default() -> (value: Self)
        ensures
            value@ == DirectPathStats::<Counts>::zero(),
            value.validation_fallback_reasons.listed() == Seq::<reasons::Reason>::empty(),
    {
        DirectPathStats {
            candidates_found: 0,
            validated_hits: 0,
            validated_compile_plans: 0,
            stale_records: 0,
            corrupt_records: 0,
            missing_result_manifests: 0,
            validation_fallback_reasons: Reasons::new(),
        }
    }
}

/// What the cache has counted.
#[verifier::ext_equal]
#[derive(Clone, Debug, PartialEq, Eq)]
pub struct Stats<R = Reasons> {
    pub schema_version: u32,
    pub requests: u64,
    pub hits: u64,
    pub misses: u64,
    pub lookup_results: LookupResults,
    pub observed_outcomes: ObservedOutcomes,
    pub process_counts: ProcessCounts,
    pub direct_path: DirectPathStats<R>,
    pub miss_observation: MissObservationStats,
    pub phase_timings_ns: PhaseTimingsNs,
    pub bypass_reasons: R,
    pub compiler_failures: u64,
    pub cache_read_failures: u64,
    pub cache_write_failures: u64,
    pub corruption: u64,
    /// Logical payload bytes published in cache bundles, including artifacts and diagnostics.
    ///
    /// This counts payload sizes for every publication, independently of deduplication,
    /// compression, metadata, or physical storage writes.
    pub bytes_stored: u64,
    /// Logical payload bytes delivered from cache bundles, including artifacts and diagnostics.
    ///
    /// This uses the same payload definition as [`Stats::bytes_stored`], independently of
    /// deduplication, compression, metadata, or physical storage reads.
    pub bytes_restored: u64,
}

impl View for Stats {
    type V = Stats<Counts>;

    open spec fn view(&self) -> Stats<Counts> {
        Stats {
            schema_version: self.schema_version,
            requests: self.requests,
            hits: self.hits,
            misses: self.misses,
            compiler_failures: self.compiler_failures,
            cache_read_failures: self.cache_read_failures,
            cache_write_failures: self.cache_write_failures,
            corruption: self.corruption,
            bytes_stored: self.bytes_stored,
            bytes_restored: self.bytes_restored,
            lookup_results: self.lookup_results,
            observed_outcomes: self.observed_outcomes,
            process_counts: self.process_counts,
            direct_path: self.direct_path@,
            miss_observation: self.miss_observation,
            phase_timings_ns: self.phase_timings_ns,
            bypass_reasons: self.bypass_reasons@,
        }
    }
}

impl Stats<Counts> {
    /// Nothing counted.
    pub open spec fn zero() -> Self {
        Stats {
            schema_version: STATS_SCHEMA_VERSION,
            requests: 0,
            hits: 0,
            misses: 0,
            compiler_failures: 0,
            cache_read_failures: 0,
            cache_write_failures: 0,
            corruption: 0,
            bytes_stored: 0,
            bytes_restored: 0,
            lookup_results: LookupResults::zero(),
            observed_outcomes: ObservedOutcomes::zero(),
            process_counts: ProcessCounts::zero(),
            direct_path: DirectPathStats::<Counts>::zero(),
            miss_observation: MissObservationStats::zero(),
            phase_timings_ns: PhaseTimingsNs::zero(),
            bypass_reasons: Map::empty(),
        }
    }

    /// What two counts make together.
    pub open spec fn merged(self, other: Self) -> Self {
        Stats {
            schema_version: STATS_SCHEMA_VERSION,
            requests: reasons::plus(self.requests, other.requests),
            hits: reasons::plus(self.hits, other.hits),
            misses: reasons::plus(self.misses, other.misses),
            compiler_failures: reasons::plus(self.compiler_failures, other.compiler_failures),
            cache_read_failures: reasons::plus(self.cache_read_failures, other.cache_read_failures),
            cache_write_failures: reasons::plus(self.cache_write_failures, other.cache_write_failures),
            corruption: reasons::plus(self.corruption, other.corruption),
            bytes_stored: reasons::plus(self.bytes_stored, other.bytes_stored),
            bytes_restored: reasons::plus(self.bytes_restored, other.bytes_restored),
            lookup_results: self.lookup_results.merged(other.lookup_results),
            observed_outcomes: self.observed_outcomes.merged(other.observed_outcomes),
            process_counts: self.process_counts.merged(other.process_counts),
            direct_path: self.direct_path.merged(other.direct_path),
            miss_observation: self.miss_observation.merged(other.miss_observation),
            phase_timings_ns: self.phase_timings_ns.merged(other.phase_timings_ns),
            bypass_reasons: reasons::merged_reasons(self.bypass_reasons, other.bypass_reasons),
        }
    }
}

impl Stats {
    /// Counts what the other counts.
    pub fn merge(&mut self, other: &Self)
        ensures
            final(self)@ == old(self)@.merged(other@),
    {
        self.schema_version = STATS_SCHEMA_VERSION;
        increase(&mut self.requests, other.requests);
        increase(&mut self.hits, other.hits);
        increase(&mut self.misses, other.misses);
        self.lookup_results.merge(&other.lookup_results);
        self.observed_outcomes.merge(&other.observed_outcomes);
        self.process_counts.merge(&other.process_counts);
        self.direct_path.merge(&other.direct_path);
        self.miss_observation.merge(&other.miss_observation);
        self.phase_timings_ns.merge(&other.phase_timings_ns);
        increase(&mut self.compiler_failures, other.compiler_failures);
        increase(&mut self.cache_read_failures, other.cache_read_failures);
        increase(&mut self.cache_write_failures, other.cache_write_failures);
        increase(&mut self.corruption, other.corruption);
        increase(&mut self.bytes_stored, other.bytes_stored);
        increase(&mut self.bytes_restored, other.bytes_restored);
        self.bypass_reasons.merge(&other.bypass_reasons);
    }
}

impl Default for Stats {
    fn default() -> (value: Self)
        ensures
            value@ == Stats::<Counts>::zero(),
            stats_fault(value) is None,
    {
        Stats {
            schema_version: STATS_SCHEMA_VERSION,
            requests: 0,
            hits: 0,
            misses: 0,
            lookup_results: LookupResults::default(),
            observed_outcomes: ObservedOutcomes::default(),
            process_counts: ProcessCounts::default(),
            direct_path: DirectPathStats::default(),
            miss_observation: MissObservationStats::default(),
            phase_timings_ns: PhaseTimingsNs::default(),
            bypass_reasons: Reasons::new(),
            compiler_failures: 0,
            cache_read_failures: 0,
            cache_write_failures: 0,
            corruption: 0,
            bytes_stored: 0,
            bytes_restored: 0,
        }
    }
}

/// Counts that were kept or read are refused.
#[derive(Clone, Debug, PartialEq, Eq)]
pub enum StatsError<B = Vec<u8>, S = String> {
    /// Reading or writing failed.
    Io(S),
    /// The bytes are no counts.
    Json(S),
    /// Another version wrote them.
    UnsupportedSchema(u32),
    /// A path is not what it has to be.
    InvalidPath(B),
    /// More bytes than are read or written.
    RecordTooLarge,
    /// A journal holds something else than records.
    CorruptJournal(B),
    /// Too many reasons, or too long ones.
    InvalidReasons,
}

/// Counts are refused, in views.
pub type Fault = StatsError<Seq<u8>, Seq<char>>;

impl View for StatsError {
    type V = Fault;

    open spec fn view(&self) -> Fault {
        match *self {
            StatsError::Io(text) => StatsError::Io(text@),
            StatsError::Json(text) => StatsError::Json(text@),
            StatsError::UnsupportedSchema(version) => StatsError::UnsupportedSchema(version),
            StatsError::InvalidPath(path) => StatsError::InvalidPath(path@),
            StatsError::RecordTooLarge => StatsError::RecordTooLarge,
            StatsError::CorruptJournal(path) => StatsError::CorruptJournal(path@),
            StatsError::InvalidReasons => StatsError::InvalidReasons,
        }
    }
}

/// The words of an error.
pub open spec fn error_text(error: Fault) -> Seq<char> {
    match error {
        StatsError::Io(text) => "stats I/O failed: "@ + text,
        StatsError::Json(text) => "stats JSON failed: "@ + text,
        StatsError::UnsupportedSchema(version) => {
            "unsupported stats schema version "@ + words::number_text(version as nat)
        },
        StatsError::InvalidPath(path) => "invalid stats path: "@ + words::lossy_text(path),
        StatsError::RecordTooLarge => "stats record exceeds its size limit"@,
        StatsError::CorruptJournal(path) => {
            "stats journal is corrupt: "@ + words::lossy_text(path)
        },
        StatsError::InvalidReasons => "stats reason map exceeds its bounds"@,
    }
}

impl StatsError {
    /// The words of the error.
    pub fn message(&self) -> (text: String)
        ensures
            text@ == error_text(self@),
    {
        match self {
            StatsError::Io(text) => words::two("stats I/O failed: ", text.as_str()),
            StatsError::Json(text) => words::two("stats JSON failed: ", text.as_str()),
            StatsError::UnsupportedSchema(version) => words::two(
                "unsupported stats schema version ",
                words::number(*version as u64).as_str(),
            ),
            StatsError::InvalidPath(path) => words::two(
                "invalid stats path: ",
                words::lossy(path.as_slice()).as_str(),
            ),
            StatsError::RecordTooLarge => "stats record exceeds its size limit".to_owned(),
            StatsError::CorruptJournal(path) => words::two(
                "stats journal is corrupt: ",
                words::lossy(path.as_slice()).as_str(),
            ),
            StatsError::InvalidReasons => "stats reason map exceeds its bounds".to_owned(),
        }
    }
}

/// A list of reasons is within the limits.
pub open spec fn bounded_reasons(entries: Seq<reasons::Reason>) -> bool {
    &&& entries.len() <= MAX_REASON_ENTRIES
    &&& forall|at: int|
        0 <= at < entries.len() ==> (#[trigger] entries[at]).name@.len() <= MAX_REASON_BYTES
}

/// Why counts are refused.
pub open spec fn stats_fault(stats: Stats) -> Option<Fault> {
    if stats.schema_version > STATS_SCHEMA_VERSION {
        Some(StatsError::UnsupportedSchema(stats.schema_version))
    } else if !bounded_reasons(stats.bypass_reasons.listed()) || !bounded_reasons(
        stats.direct_path.validation_fallback_reasons.listed(),
    ) {
        Some(StatsError::InvalidReasons)
    } else {
        None
    }
}

/// Checks that reasons are within the limits.
pub fn validate_reasons(reasons: &Reasons) -> (outcome: Result<(), StatsError>)
    ensures
        outcome == (if bounded_reasons(reasons.listed()) {
            Ok::<(), StatsError>(())
        } else {
            Err(StatsError::InvalidReasons)
        }),
{
    let entries = reasons.entries();
    if entries.len() > MAX_REASON_ENTRIES {
        return Err(StatsError::InvalidReasons);
    }
    let mut index: usize = 0;
    while index < entries.len()
        invariant
            entries@ == reasons.listed(),
            entries@.len() <= MAX_REASON_ENTRIES,
            index <= entries@.len(),
            forall|at: int|
                0 <= at < index ==> (#[trigger] entries@[at]).name@.len() <= MAX_REASON_BYTES,
        decreases entries@.len() - index,
    {
        if entries[index].name.len() > MAX_REASON_BYTES {
            return Err(StatsError::InvalidReasons);
        }
        index += 1;
    }
    Ok(())
}

/// Checks counts that are about to be written, or that were read.
pub fn validate_stats(stats: &Stats) -> (outcome: Result<(), StatsError>)
    ensures
        match outcome {
            Ok(_) => stats_fault(*stats) is None,
            Err(error) => stats_fault(*stats) == Some(error@),
        },
{
    if stats.schema_version != 0 && stats.schema_version != 1 && stats.schema_version != 2
        && stats.schema_version != STATS_SCHEMA_VERSION {
        return Err(StatsError::UnsupportedSchema(stats.schema_version));
    }
    validate_reasons(&stats.bypass_reasons)?;
    validate_reasons(&stats.direct_path.validation_fallback_reasons)
}

proof fn lemma_commutes(first: Stats<Counts>, second: Stats<Counts>)
    ensures
        first.merged(second) == second.merged(first),
{
    let nothing = Map::<Seq<u8>, u64>::empty();
    reasons::law_reasons_add_up(first.bypass_reasons, second.bypass_reasons, nothing);
    reasons::law_reasons_add_up(
        first.direct_path.validation_fallback_reasons,
        second.direct_path.validation_fallback_reasons,
        nothing,
    );
}

#[verifier::spinoff_prover]
proof fn lemma_groups(first: Stats<Counts>, second: Stats<Counts>, third: Stats<Counts>)
    ensures
        first.merged(second).merged(third) == first.merged(second.merged(third)),
{
    reasons::law_reasons_add_up(
        first.bypass_reasons,
        second.bypass_reasons,
        third.bypass_reasons,
    );
    reasons::law_reasons_add_up(
        first.direct_path.validation_fallback_reasons,
        second.direct_path.validation_fallback_reasons,
        third.direct_path.validation_fallback_reasons,
    );
    let left = first.merged(second).merged(third);
    let right = first.merged(second.merged(third));
    assert(left.lookup_results == right.lookup_results);
    assert(left.observed_outcomes == right.observed_outcomes);
    assert(left.process_counts == right.process_counts);
    assert(left.direct_path == right.direct_path);
    assert(left.miss_observation == right.miss_observation);
    assert(left.phase_timings_ns == right.phase_timings_ns);
    assert(left.bypass_reasons == right.bypass_reasons);
}

proof fn lemma_nothing_more(counts: Stats<Counts>)
    requires
        counts.schema_version == STATS_SCHEMA_VERSION,
    ensures
        counts.merged(Stats::<Counts>::zero()) == counts,
{
    let nothing = Map::<Seq<u8>, u64>::empty();
    reasons::law_reasons_add_up(counts.bypass_reasons, nothing, nothing);
    reasons::law_reasons_add_up(
        counts.direct_path.validation_fallback_reasons,
        nothing,
        nothing,
    );
}

/// It does not matter in which order, nor in which groups, counts are added up: what is counted
/// does not depend on which process writes first. Adding nothing changes nothing.
pub proof fn law_counts_add_up(
    first: Stats<Counts>,
    second: Stats<Counts>,
    third: Stats<Counts>,
)
    ensures
        first.merged(second) == second.merged(first),
        first.merged(second).merged(third) == first.merged(second.merged(third)),
        first.schema_version == STATS_SCHEMA_VERSION ==> first.merged(Stats::<Counts>::zero())
            == first && Stats::<Counts>::zero().merged(first) == first,
{
    lemma_commutes(first, second);
    lemma_groups(first, second, third);
    if first.schema_version == STATS_SCHEMA_VERSION {
        lemma_nothing_more(first);
        lemma_commutes(first, Stats::<Counts>::zero());
    }
}

/// A count is the sum of two others, or the largest count where the sum is larger.
pub open spec fn is_sum(sum: u64, first: u64, second: u64) -> bool {
    sum == (if first + second <= u64::MAX {
        first + second
    } else {
        u64::MAX as int
    })
}

/// Merged statistics count, in every counter, what both counted. Where nothing was counted every
/// counter is zero.
pub proof fn law_every_counter_is_a_sum(first: Stats<Counts>, second: Stats<Counts>)
    ensures
        ({
            let sum = first.merged(second);
            &&& sum.schema_version == 3
            &&& is_sum(sum.requests, first.requests, second.requests)
            &&& is_sum(sum.hits, first.hits, second.hits)
            &&& is_sum(sum.misses, first.misses, second.misses)
            &&& is_sum(sum.compiler_failures, first.compiler_failures, second.compiler_failures)
            &&& is_sum(sum.cache_read_failures, first.cache_read_failures, second.cache_read_failures)
            &&& is_sum(sum.cache_write_failures, first.cache_write_failures, second.cache_write_failures)
            &&& is_sum(sum.corruption, first.corruption, second.corruption)
            &&& is_sum(sum.bytes_stored, first.bytes_stored, second.bytes_stored)
            &&& is_sum(sum.bytes_restored, first.bytes_restored, second.bytes_restored)
            &&& is_sum(sum.lookup_results.hits, first.lookup_results.hits, second.lookup_results.hits)
            &&& is_sum(sum.lookup_results.misses, first.lookup_results.misses, second.lookup_results.misses)
            &&& is_sum(sum.lookup_results.not_attempted, first.lookup_results.not_attempted, second.lookup_results.not_attempted)
            &&& is_sum(sum.observed_outcomes.cache_hit_success, first.observed_outcomes.cache_hit_success, second.observed_outcomes.cache_hit_success)
            &&& is_sum(sum.observed_outcomes.compiler_success, first.observed_outcomes.compiler_success, second.observed_outcomes.compiler_success)
            &&& is_sum(sum.observed_outcomes.compiler_failure, first.observed_outcomes.compiler_failure, second.observed_outcomes.compiler_failure)
            &&& is_sum(sum.observed_outcomes.launcher_failure, first.observed_outcomes.launcher_failure, second.observed_outcomes.launcher_failure)
            &&& is_sum(sum.process_counts.fingerprint_queries, first.process_counts.fingerprint_queries, second.process_counts.fingerprint_queries)
            &&& is_sum(sum.process_counts.preprocessing_probes, first.process_counts.preprocessing_probes, second.process_counts.preprocessing_probes)
            &&& is_sum(sum.process_counts.dependency_probes, first.process_counts.dependency_probes, second.process_counts.dependency_probes)
            &&& is_sum(sum.process_counts.real_compilations, first.process_counts.real_compilations, second.process_counts.real_compilations)
            &&& is_sum(sum.process_counts.pass_through_executions, first.process_counts.pass_through_executions, second.process_counts.pass_through_executions)
            &&& is_sum(sum.miss_observation.validated_precompile_selections, first.miss_observation.validated_precompile_selections, second.miss_observation.validated_precompile_selections)
            &&& is_sum(sum.miss_observation.real_md_validation_successes, first.miss_observation.real_md_validation_successes, second.miss_observation.real_md_validation_successes)
            &&& is_sum(sum.miss_observation.post_compile_probe_attempts, first.miss_observation.post_compile_probe_attempts, second.miss_observation.post_compile_probe_attempts)
            &&& is_sum(sum.phase_timings_ns.parsing, first.phase_timings_ns.parsing, second.phase_timings_ns.parsing)
            &&& is_sum(sum.phase_timings_ns.compiler_identity, first.phase_timings_ns.compiler_identity, second.phase_timings_ns.compiler_identity)
            &&& is_sum(sum.phase_timings_ns.direct_validation, first.phase_timings_ns.direct_validation, second.phase_timings_ns.direct_validation)
            &&& is_sum(sum.phase_timings_ns.preprocessing_qualification, first.phase_timings_ns.preprocessing_qualification, second.phase_timings_ns.preprocessing_qualification)
            &&& is_sum(sum.phase_timings_ns.dependency_probing, first.phase_timings_ns.dependency_probing, second.phase_timings_ns.dependency_probing)
            &&& is_sum(sum.phase_timings_ns.cache_lookup_staging, first.phase_timings_ns.cache_lookup_staging, second.phase_timings_ns.cache_lookup_staging)
            &&& is_sum(sum.phase_timings_ns.real_compilation, first.phase_timings_ns.real_compilation, second.phase_timings_ns.real_compilation)
            &&& is_sum(sum.phase_timings_ns.post_compile_validation, first.phase_timings_ns.post_compile_validation, second.phase_timings_ns.post_compile_validation)
            &&& is_sum(sum.phase_timings_ns.publication, first.phase_timings_ns.publication, second.phase_timings_ns.publication)
            &&& is_sum(sum.phase_timings_ns.lock_waiting, first.phase_timings_ns.lock_waiting, second.phase_timings_ns.lock_waiting)
            &&& is_sum(sum.phase_timings_ns.maintenance, first.phase_timings_ns.maintenance, second.phase_timings_ns.maintenance)
            &&& is_sum(sum.direct_path.candidates_found, first.direct_path.candidates_found, second.direct_path.candidates_found)
            &&& is_sum(sum.direct_path.validated_hits, first.direct_path.validated_hits, second.direct_path.validated_hits)
            &&& is_sum(sum.direct_path.validated_compile_plans, first.direct_path.validated_compile_plans, second.direct_path.validated_compile_plans)
            &&& is_sum(sum.direct_path.stale_records, first.direct_path.stale_records, second.direct_path.stale_records)
            &&& is_sum(sum.direct_path.corrupt_records, first.direct_path.corrupt_records, second.direct_path.corrupt_records)
            &&& is_sum(sum.direct_path.missing_result_manifests, first.direct_path.missing_result_manifests, second.direct_path.missing_result_manifests)
        }),
        ({
            let zero = Stats::<Counts>::zero();
            &&& zero.schema_version == 3
            &&& zero.requests == 0
            &&& zero.hits == 0
            &&& zero.misses == 0
            &&& zero.compiler_failures == 0
            &&& zero.cache_read_failures == 0
            &&& zero.cache_write_failures == 0
            &&& zero.corruption == 0
            &&& zero.bytes_stored == 0
            &&& zero.bytes_restored == 0
            &&& zero.lookup_results.hits == 0
            &&& zero.lookup_results.misses == 0
            &&& zero.lookup_results.not_attempted == 0
            &&& zero.observed_outcomes.cache_hit_success == 0
            &&& zero.observed_outcomes.compiler_success == 0
            &&& zero.observed_outcomes.compiler_failure == 0
            &&& zero.observed_outcomes.launcher_failure == 0
            &&& zero.process_counts.fingerprint_queries == 0
            &&& zero.process_counts.preprocessing_probes == 0
            &&& zero.process_counts.dependency_probes == 0
            &&& zero.process_counts.real_compilations == 0
            &&& zero.process_counts.pass_through_executions == 0
            &&& zero.miss_observation.validated_precompile_selections == 0
            &&& zero.miss_observation.real_md_validation_successes == 0
            &&& zero.miss_observation.post_compile_probe_attempts == 0
            &&& zero.phase_timings_ns.parsing == 0
            &&& zero.phase_timings_ns.compiler_identity == 0
            &&& zero.phase_timings_ns.direct_validation == 0
            &&& zero.phase_timings_ns.preprocessing_qualification == 0
            &&& zero.phase_timings_ns.dependency_probing == 0
            &&& zero.phase_timings_ns.cache_lookup_staging == 0
            &&& zero.phase_timings_ns.real_compilation == 0
            &&& zero.phase_timings_ns.post_compile_validation == 0
            &&& zero.phase_timings_ns.publication == 0
            &&& zero.phase_timings_ns.lock_waiting == 0
            &&& zero.phase_timings_ns.maintenance == 0
            &&& zero.direct_path.candidates_found == 0
            &&& zero.direct_path.validated_hits == 0
            &&& zero.direct_path.validated_compile_plans == 0
            &&& zero.direct_path.stale_records == 0
            &&& zero.direct_path.corrupt_records == 0
            &&& zero.direct_path.missing_result_manifests == 0
            &&& zero.bypass_reasons == Map::<Seq<u8>, u64>::empty()
            &&& zero.direct_path.validation_fallback_reasons == Map::<Seq<u8>, u64>::empty()
        }),
        forall|name: Seq<u8>|
            #![trigger first.merged(second).bypass_reasons.dom().contains(name)]
            {
                let sum = first.merged(second).bypass_reasons;
                let left = first.bypass_reasons;
                let right = second.bypass_reasons;
                &&& sum.dom().contains(name) <==> left.dom().contains(name) || right.dom().contains(
                    name,
                )
                &&& left.dom().contains(name) && right.dom().contains(name) ==> is_sum(
                    sum[name],
                    left[name],
                    right[name],
                )
                &&& left.dom().contains(name) && !right.dom().contains(name) ==> sum[name]
                    == left[name]
                &&& !left.dom().contains(name) && right.dom().contains(name) ==> sum[name]
                    == right[name]
            },
        forall|name: Seq<u8>|
            #![trigger first.merged(second).direct_path.validation_fallback_reasons.dom().contains(name)]
            {
                let sum = first.merged(second).direct_path.validation_fallback_reasons;
                let left = first.direct_path.validation_fallback_reasons;
                let right = second.direct_path.validation_fallback_reasons;
                &&& sum.dom().contains(name) <==> left.dom().contains(name) || right.dom().contains(
                    name,
                )
                &&& left.dom().contains(name) && right.dom().contains(name) ==> is_sum(
                    sum[name],
                    left[name],
                    right[name],
                )
                &&& left.dom().contains(name) && !right.dom().contains(name) ==> sum[name]
                    == left[name]
                &&& !left.dom().contains(name) && right.dom().contains(name) ==> sum[name]
                    == right[name]
            },
{
}

/// Statistics are refused exactly where they are of a later form, name more than 256 reasons, or
/// name one with more than 256 bytes.
pub proof fn law_which_statistics_are_refused(stats: Stats)
    ensures
        stats_fault(stats) is None <==> {
            let bypasses = stats.bypass_reasons.listed();
            let fallbacks = stats.direct_path.validation_fallback_reasons.listed();
            &&& stats.schema_version <= 3
            &&& bypasses.len() <= 256 && fallbacks.len() <= 256
            &&& forall|at: int|
                0 <= at < bypasses.len() ==> (#[trigger] bypasses[at]).name@.len() <= 256
            &&& forall|at: int|
                0 <= at < fallbacks.len() ==> (#[trigger] fallbacks[at]).name@.len() <= 256
        },
{
}

} // verus!
