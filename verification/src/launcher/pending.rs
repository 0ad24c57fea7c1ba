//! What one run of the launcher has counted and not yet recorded.
use vstd::prelude::*;

use crate::bstr;
use crate::cache::reasons;
use crate::cache::stats;
use crate::cache::stats::{
    Counts, DirectPathStats, LookupResults, MissObservationStats, ObservedOutcomes, PhaseTimingsNs,
    ProcessCounts, Stats,
};

verus! {

/// How many probes an observation took.
#[derive(Clone, Copy, Debug, PartialEq, Eq, Structural)]
pub struct ProbeTelemetry {
    pub preprocessing_probes: u64,
    pub dependency_probes: u64,
}

impl Default for ProbeTelemetry {
    fn default() -> (value: Self)
        ensures
            value == (ProbeTelemetry { preprocessing_probes: 0, dependency_probes: 0 }),
    {
        ProbeTelemetry { preprocessing_probes: 0, dependency_probes: 0 }
    }
}

/// What was counted, and the key of the action by which the journal for it is chosen.
#[derive(Debug)]
pub struct PendingStats {
    pub key: Option<Vec<u8>>,
    pub delta: Stats,
    pub dirty: bool,
}

/// The contents of a `PendingStats`.
#[verifier::ext_equal]
pub struct Pending {
    pub key: Option<Seq<u8>>,
    pub delta: Stats<Counts>,
    pub dirty: bool,
}

impl View for PendingStats {
    type V = Pending;

    closed spec fn view(&self) -> Pending {
        Pending { key: bstr::opt_view(self.key), delta: self.delta@, dirty: self.dirty }
    }
}

/// What is handed to a journal.
#[derive(Debug)]
pub struct FlushedStats {
    pub key: Option<Vec<u8>>,
    pub delta: Stats,
}

/// One more.
pub open spec fn one_more(value: u64) -> u64 {
    reasons::plus(value, 1)
}

impl Pending {
    /// Nothing counted.
    pub open spec fn fresh() -> Self {
        Pending { key: None, delta: Stats::<Counts>::zero(), dirty: false }
    }

    /// Other counts, under the same key.
    pub open spec fn counting(self, delta: Stats<Counts>) -> Self {
        Pending { key: self.key, delta, dirty: true }
    }

    /// Other counts, under the given key.
    pub open spec fn keyed(self, key: Seq<u8>, delta: Stats<Counts>) -> Self {
        Pending { key: Some(key), delta, dirty: true }
    }

    /// A compilation was handed to the compiler before it was looked at closely.
    #[verifier::opaque]
    pub open spec fn bypassed(self, reason: Seq<char>) -> Self {
        let delta = self.delta;
        self.counting(
            Stats {
                requests: one_more(delta.requests),
                lookup_results: LookupResults {
                    not_attempted: one_more(delta.lookup_results.not_attempted),
                    ..delta.lookup_results
                },
                process_counts: ProcessCounts {
                    pass_through_executions: one_more(
                        delta.process_counts.pass_through_executions,
                    ),
                    ..delta.process_counts
                },
                bypass_reasons: reasons::counted(delta.bypass_reasons, bstr::utf8(reason), 1),
                ..delta
            },
        )
    }

    /// A request was handed to the compiler without a lookup.
    #[verifier::opaque]
    pub open spec fn not_attempted(self, reason: Seq<char>) -> Self {
        let delta = self.delta;
        self.counting(
            Stats {
                lookup_results: LookupResults {
                    not_attempted: one_more(delta.lookup_results.not_attempted),
                    ..delta.lookup_results
                },
                process_counts: ProcessCounts {
                    pass_through_executions: one_more(
                        delta.process_counts.pass_through_executions,
                    ),
                    ..delta.process_counts
                },
                bypass_reasons: reasons::counted(delta.bypass_reasons, bstr::utf8(reason), 1),
                ..delta
            },
        )
    }

    /// A result was not published.
    #[verifier::opaque]
    pub open spec fn not_published(self, reason: Seq<char>) -> Self {
        let delta = self.delta;
        self.counting(
            Stats {
                bypass_reasons: reasons::counted(delta.bypass_reasons, bstr::utf8(reason), 1),
                ..delta
            },
        )
    }

    /// A record of the direct path was of no use.
    #[verifier::opaque]
    pub open spec fn fallen_back(self, reason: Seq<char>) -> Self {
        let delta = self.delta;
        self.counting(
            Stats {
                direct_path: DirectPathStats {
                    stale_records: one_more(delta.direct_path.stale_records),
                    validation_fallback_reasons: reasons::counted(
                        delta.direct_path.validation_fallback_reasons,
                        bstr::utf8(reason),
                        1,
                    ),
                    ..delta.direct_path
                },
                ..delta
            },
        )
    }

    /// A request is handled.
    #[verifier::opaque]
    pub open spec fn requested(self) -> Self {
        let delta = self.delta;
        self.counting(Stats { requests: one_more(delta.requests), ..delta })
    }

    /// The cache cannot be used.
    #[verifier::opaque]
    pub open spec fn without_store(self) -> Self {
        let delta = self.delta;
        self.counting(
            Stats {
                cache_read_failures: one_more(delta.cache_read_failures),
                process_counts: ProcessCounts {
                    pass_through_executions: one_more(
                        delta.process_counts.pass_through_executions,
                    ),
                    ..delta.process_counts
                },
                ..delta
            },
        )
    }

    /// The compiler is known, after some time, and after eight questions where it was not known
    /// before.
    #[verifier::opaque]
    pub open spec fn identified(self, reused: bool, elapsed: u64) -> Self {
        let delta = self.delta;
        self.counting(
            Stats {
                phase_timings_ns: PhaseTimingsNs {
                    compiler_identity: reasons::plus(
                        delta.phase_timings_ns.compiler_identity,
                        elapsed,
                    ),
                    ..delta.phase_timings_ns
                },
                process_counts: ProcessCounts {
                    fingerprint_queries: if reused {
                        delta.process_counts.fingerprint_queries
                    } else {
                        reasons::plus(delta.process_counts.fingerprint_queries, 8)
                    },
                    ..delta.process_counts
                },
                ..delta
            },
        )
    }

    /// Candidates of the direct path were found.
    #[verifier::opaque]
    pub open spec fn candidates(self, found: u64, missing: u64, corrupt: bool) -> Self {
        let delta = self.delta;
        self.counting(
            Stats {
                direct_path: DirectPathStats {
                    candidates_found: reasons::plus(
                        delta.direct_path.candidates_found,
                        reasons::plus(found, missing),
                    ),
                    missing_result_manifests: reasons::plus(
                        delta.direct_path.missing_result_manifests,
                        missing,
                    ),
                    corrupt_records: if corrupt {
                        one_more(delta.direct_path.corrupt_records)
                    } else {
                        delta.direct_path.corrupt_records
                    },
                    ..delta.direct_path
                },
                ..delta
            },
        )
    }

    /// The direct path took some time.
    #[verifier::opaque]
    pub open spec fn searched(self, elapsed: u64) -> Self {
        let delta = self.delta;
        self.counting(
            Stats {
                phase_timings_ns: PhaseTimingsNs {
                    direct_validation: reasons::plus(
                        delta.phase_timings_ns.direct_validation,
                        elapsed,
                    ),
                    ..delta.phase_timings_ns
                },
                ..delta
            },
        )
    }

    /// A record says what the compilation reads, but has no result.
    #[verifier::opaque]
    pub open spec fn planned(self) -> Self {
        let delta = self.delta;
        self.counting(
            Stats {
                direct_path: DirectPathStats {
                    validated_compile_plans: one_more(delta.direct_path.validated_compile_plans),
                    ..delta.direct_path
                },
                miss_observation: MissObservationStats {
                    validated_precompile_selections: one_more(
                        delta.miss_observation.validated_precompile_selections,
                    ),
                    ..delta.miss_observation
                },
                ..delta
            },
        )
    }

    /// The messages of a result could not be repeated.
    #[verifier::opaque]
    pub open spec fn launcher_failed(self, key: Seq<u8>) -> Self {
        let delta = self.delta;
        self.keyed(
            key,
            Stats {
                observed_outcomes: ObservedOutcomes {
                    launcher_failure: one_more(delta.observed_outcomes.launcher_failure),
                    ..delta.observed_outcomes
                },
                ..delta
            },
        )
    }

    /// A stored result took the place of the compilation.
    #[verifier::opaque]
    pub open spec fn hit(self, key: Seq<u8>, direct: bool, payload: u64) -> Self {
        let delta = self.delta;
        self.keyed(
            key,
            Stats {
                hits: one_more(delta.hits),
                lookup_results: LookupResults {
                    hits: one_more(delta.lookup_results.hits),
                    ..delta.lookup_results
                },
                observed_outcomes: ObservedOutcomes {
                    cache_hit_success: one_more(delta.observed_outcomes.cache_hit_success),
                    ..delta.observed_outcomes
                },
                direct_path: DirectPathStats {
                    validated_hits: if direct {
                        one_more(delta.direct_path.validated_hits)
                    } else {
                        delta.direct_path.validated_hits
                    },
                    ..delta.direct_path
                },
                bytes_restored: reasons::plus(delta.bytes_restored, payload),
                ..delta
            },
        )
    }

    /// An observation took probes and time.
    #[verifier::opaque]
    pub open spec fn probed(self, telemetry: ProbeTelemetry, elapsed: u64) -> Self {
        let delta = self.delta;
        self.counting(
            Stats {
                process_counts: ProcessCounts {
                    dependency_probes: reasons::plus(
                        delta.process_counts.dependency_probes,
                        telemetry.dependency_probes,
                    ),
                    preprocessing_probes: reasons::plus(
                        delta.process_counts.preprocessing_probes,
                        telemetry.preprocessing_probes,
                    ),
                    ..delta.process_counts
                },
                phase_timings_ns: PhaseTimingsNs {
                    dependency_probing: reasons::plus(
                        delta.phase_timings_ns.dependency_probing,
                        elapsed,
                    ),
                    ..delta.phase_timings_ns
                },
                ..delta
            },
        )
    }

    /// A stored result could not be read, or is not what it should be.
    #[verifier::opaque]
    pub open spec fn unread(self, key: Seq<u8>, corrupt: bool) -> Self {
        let delta = self.delta;
        self.keyed(
            key,
            Stats {
                corruption: if corrupt {
                    one_more(delta.corruption)
                } else {
                    delta.corruption
                },
                cache_read_failures: one_more(delta.cache_read_failures),
                ..delta
            },
        )
    }

    /// There is no stored result.
    #[verifier::opaque]
    pub open spec fn missed(self, key: Seq<u8>) -> Self {
        let delta = self.delta;
        self.keyed(
            key,
            Stats {
                misses: one_more(delta.misses),
                lookup_results: LookupResults {
                    misses: one_more(delta.lookup_results.misses),
                    ..delta.lookup_results
                },
                ..delta
            },
        )
    }

    /// The compiler ran.
    #[verifier::opaque]
    pub open spec fn compiled(self, elapsed: u64) -> Self {
        let delta = self.delta;
        self.counting(
            Stats {
                process_counts: ProcessCounts {
                    real_compilations: one_more(delta.process_counts.real_compilations),
                    ..delta.process_counts
                },
                phase_timings_ns: PhaseTimingsNs {
                    real_compilation: reasons::plus(
                        delta.phase_timings_ns.real_compilation,
                        elapsed,
                    ),
                    ..delta.phase_timings_ns
                },
                ..delta
            },
        )
    }

    /// The compiler failed.
    #[verifier::opaque]
    pub open spec fn compiler_failed(self, key: Seq<u8>) -> Self {
        let delta = self.delta;
        self.keyed(
            key,
            Stats {
                compiler_failures: one_more(delta.compiler_failures),
                observed_outcomes: ObservedOutcomes {
                    compiler_failure: one_more(delta.observed_outcomes.compiler_failure),
                    ..delta.observed_outcomes
                },
                ..delta
            },
        )
    }

    /// The compiler succeeded.
    #[verifier::opaque]
    pub open spec fn compiler_succeeded(self, key: Seq<u8>) -> Self {
        let delta = self.delta;
        self.keyed(
            key,
            Stats {
                observed_outcomes: ObservedOutcomes {
                    compiler_success: one_more(delta.observed_outcomes.compiler_success),
                    ..delta.observed_outcomes
                },
                ..delta
            },
        )
    }

    /// The preprocessor is asked once more.
    #[verifier::opaque]
    pub open spec fn preprocessing(self) -> Self {
        let delta = self.delta;
        self.counting(
            Stats {
                process_counts: ProcessCounts {
                    preprocessing_probes: one_more(delta.process_counts.preprocessing_probes),
                    ..delta.process_counts
                },
                ..delta
            },
        )
    }

    /// The preprocessor answered after some time.
    #[verifier::opaque]
    pub open spec fn preprocessed(self, elapsed: u64) -> Self {
        let delta = self.delta;
        self.counting(
            Stats {
                phase_timings_ns: PhaseTimingsNs {
                    preprocessing_qualification: reasons::plus(
                        delta.phase_timings_ns.preprocessing_qualification,
                        elapsed,
                    ),
                    ..delta.phase_timings_ns
                },
                ..delta
            },
        )
    }

    /// The dependency file of the compilation took the place of a second observation.
    #[verifier::opaque]
    pub open spec fn depfile_sufficed(self) -> Self {
        let delta = self.delta;
        self.counting(
            Stats {
                miss_observation: MissObservationStats {
                    real_md_validation_successes: one_more(
                        delta.miss_observation.real_md_validation_successes,
                    ),
                    ..delta.miss_observation
                },
                ..delta
            },
        )
    }

    /// A second observation is made.
    #[verifier::opaque]
    pub open spec fn probing_again(self) -> Self {
        let delta = self.delta;
        self.counting(
            Stats {
                miss_observation: MissObservationStats {
                    post_compile_probe_attempts: one_more(
                        delta.miss_observation.post_compile_probe_attempts,
                    ),
                    ..delta.miss_observation
                },
                ..delta
            },
        )
    }

    /// The checks after the compilation took some time.
    #[verifier::opaque]
    pub open spec fn validated(self, elapsed: u64) -> Self {
        let delta = self.delta;
        self.counting(
            Stats {
                phase_timings_ns: PhaseTimingsNs {
                    post_compile_validation: reasons::plus(
                        delta.phase_timings_ns.post_compile_validation,
                        elapsed,
                    ),
                    ..delta.phase_timings_ns
                },
                ..delta
            },
        )
    }

    /// A result was stored.
    #[verifier::opaque]
    pub open spec fn stored(self, key: Seq<u8>, bytes: u64) -> Self {
        let delta = self.delta;
        self.keyed(
            key,
            Stats { bytes_stored: reasons::plus(delta.bytes_stored, bytes), ..delta },
        )
    }

    /// A result could not be stored.
    #[verifier::opaque]
    pub open spec fn unwritten(self, key: Seq<u8>) -> Self {
        let delta = self.delta;
        self.keyed(
            key,
            Stats { cache_write_failures: one_more(delta.cache_write_failures), ..delta },
        )
    }

    /// Publication took some time.
    #[verifier::opaque]
    pub open spec fn publicized(self, elapsed: u64) -> Self {
        let delta = self.delta;
        self.counting(
            Stats {
                phase_timings_ns: PhaseTimingsNs {
                    publication: reasons::plus(delta.phase_timings_ns.publication, elapsed),
                    ..delta.phase_timings_ns
                },
                ..delta
            },
        )
    }
}

impl PendingStats {
    /// Nothing counted.
    pub fn new() -> (pending: Self)
        ensures
            pending@ == Pending::fresh(),
    {
        PendingStats { key: None, delta: Stats::default(), dirty: false }
    }

    /// Hands over what was counted, where there is anything, and counts from nothing again.
    pub fn flush(&mut self) -> (flushed: Option<FlushedStats>)
        ensures
            match flushed {
                Some(found) => old(self)@.dirty && bstr::opt_view(found.key) == old(self)@.key
                    && found.delta@ == old(self)@.delta,
                None => !old(self)@.dirty,
            },
            old(self)@.dirty ==> final(self)@ == (Pending {
                key: old(self)@.key,
                delta: Stats::<Counts>::zero(),
                dirty: false,
            }),
            !old(self)@.dirty ==> final(self)@ == old(self)@,
    {
        if !self.dirty {
            return None;
        }
        let mut delta = Stats::default();
        std::mem::swap(&mut delta, &mut self.delta);
        self.dirty = false;
        Some(FlushedStats { key: bstr::copy_opt(&self.key), delta })
    }

    fn bypass(&mut self, reason: &str)
        ensures
            final(self)@ == old(self)@.not_attempted(reason@),
    {
        proof {
            reveal(Pending::not_attempted);
        }
        stats::increase(&mut self.delta.lookup_results.not_attempted, 1);
        stats::increase(&mut self.delta.process_counts.pass_through_executions, 1);
        self.delta.bypass_reasons.count(bstr::of(reason), 1);
        self.dirty = true;
    }

    /// Counts a compilation that is handed to the compiler before it is looked at closely.
    pub fn record_bypass(&mut self, reason: &str)
        ensures
            final(self)@ == old(self)@.bypassed(reason@),
    {
        proof {
            reveal(Pending::bypassed);
            reveal(Pending::not_attempted);
        }
        stats::increase(&mut self.delta.requests, 1);
        self.bypass(reason);
    }

    /// Counts a request that is handed to the compiler without a lookup.
    pub fn record_attempted_bypass(&mut self, reason: &str)
        ensures
            final(self)@ == old(self)@.not_attempted(reason@),
    {
        self.bypass(reason);
    }

    /// Counts a result that is not published.
    pub fn record_nonpublication(&mut self, reason: &str)
        ensures
            final(self)@ == old(self)@.not_published(reason@),
    {
        proof {
            reveal(Pending::not_published);
        }
        self.delta.bypass_reasons.count(bstr::of(reason), 1);
        self.dirty = true;
    }

    /// Counts a record of the direct path that was of no use.
    pub fn record_direct_fallback(&mut self, reason: &str)
        ensures
            final(self)@ == old(self)@.fallen_back(reason@),
    {
        proof {
            reveal(Pending::fallen_back);
        }
        stats::increase(&mut self.delta.direct_path.stale_records, 1);
        self.delta.direct_path.validation_fallback_reasons.count(bstr::of(reason), 1);
        self.dirty = true;
    }

    /// Counts a request.
    pub fn record_request(&mut self)
        ensures
            final(self)@ == old(self)@.requested(),
    {
        proof {
            reveal(Pending::requested);
        }
        stats::increase(&mut self.delta.requests, 1);
        self.dirty = true;
    }

    /// Counts that the cache cannot be used.
    pub fn record_without_store(&mut self)
        ensures
            final(self)@ == old(self)@.without_store(),
    {
        proof {
            reveal(Pending::without_store);
        }
        stats::increase(&mut self.delta.cache_read_failures, 1);
        stats::increase(&mut self.delta.process_counts.pass_through_executions, 1);
        self.dirty = true;
    }

    /// Counts what it took to know the compiler.
    pub fn record_identity(&mut self, reused: bool, elapsed: u64)
        ensures
            final(self)@ == old(self)@.identified(reused, elapsed),
    {
        proof {
            reveal(Pending::identified);
        }
        stats::increase(&mut self.delta.phase_timings_ns.compiler_identity, elapsed);
        if !reused {
            stats::increase(&mut self.delta.process_counts.fingerprint_queries, 8);
        }
        self.dirty = true;
    }

    /// Counts the candidates of the direct path.
    pub fn record_candidates(&mut self, found: u64, missing: u64, corrupt: bool)
        ensures
            final(self)@ == old(self)@.candidates(found, missing, corrupt),
    {
        proof {
            reveal(Pending::candidates);
        }
        stats::increase(
            &mut self.delta.direct_path.candidates_found,
            found.saturating_add(missing),
        );
        stats::increase(&mut self.delta.direct_path.missing_result_manifests, missing);
        if corrupt {
            stats::increase(&mut self.delta.direct_path.corrupt_records, 1);
        }
        self.dirty = true;
    }

    /// Counts the time of the direct path.
    pub fn record_search(&mut self, elapsed: u64)
        ensures
            final(self)@ == old(self)@.searched(elapsed),
    {
        proof {
            reveal(Pending::searched);
        }
        stats::increase(&mut self.delta.phase_timings_ns.direct_validation, elapsed);
        self.dirty = true;
    }

    /// Counts a record that says what the compilation reads.
    pub fn record_plan(&mut self)
        ensures
            final(self)@ == old(self)@.planned(),
    {
        proof {
            reveal(Pending::planned);
        }
        stats::increase(&mut self.delta.direct_path.validated_compile_plans, 1);
        stats::increase(&mut self.delta.miss_observation.validated_precompile_selections, 1);
        self.dirty = true;
    }

    /// Counts messages that could not be repeated.
    pub fn record_launcher_failure(&mut self, key: &[u8])
        ensures
            final(self)@ == old(self)@.launcher_failed(key@),
    {
        proof {
            reveal(Pending::launcher_failed);
        }
        self.key = Some(bstr::copy(key));
        stats::increase(&mut self.delta.observed_outcomes.launcher_failure, 1);
        self.dirty = true;
    }

    /// Counts a stored result that took the place of the compilation.
    pub fn record_hit(&mut self, key: &[u8], direct: bool, payload: u64)
        ensures
            final(self)@ == old(self)@.hit(key@, direct, payload),
    {
        proof {
            reveal(Pending::hit);
        }
        self.key = Some(bstr::copy(key));
        stats::increase(&mut self.delta.hits, 1);
        stats::increase(&mut self.delta.lookup_results.hits, 1);
        stats::increase(&mut self.delta.observed_outcomes.cache_hit_success, 1);
        if direct {
            stats::increase(&mut self.delta.direct_path.validated_hits, 1);
        }
        stats::increase(&mut self.delta.bytes_restored, payload);
        self.dirty = true;
    }

    /// Counts the probes and the time of an observation.
    pub fn record_probe_telemetry(&mut self, telemetry: ProbeTelemetry, elapsed: u64)
        ensures
            final(self)@ == old(self)@.probed(telemetry, elapsed),
    {
        proof {
            reveal(Pending::probed);
        }
        stats::increase(
            &mut self.delta.process_counts.dependency_probes,
            telemetry.dependency_probes,
        );
        stats::increase(
            &mut self.delta.process_counts.preprocessing_probes,
            telemetry.preprocessing_probes,
        );
        stats::increase(&mut self.delta.phase_timings_ns.dependency_probing, elapsed);
        self.dirty = true;
    }

    /// Counts a stored result that could not be read, or that is not what it should be.
    pub fn record_unread(&mut self, key: &[u8], corrupt: bool)
        ensures
            final(self)@ == old(self)@.unread(key@, corrupt),
    {
        proof {
            reveal(Pending::unread);
        }
        self.key = Some(bstr::copy(key));
        if corrupt {
            stats::increase(&mut self.delta.corruption, 1);
        }
        stats::increase(&mut self.delta.cache_read_failures, 1);
        self.dirty = true;
    }

    /// Counts that there is no stored result.
    pub fn record_miss(&mut self, key: &[u8])
        ensures
            final(self)@ == old(self)@.missed(key@),
    {
        proof {
            reveal(Pending::missed);
        }
        self.key = Some(bstr::copy(key));
        stats::increase(&mut self.delta.misses, 1);
        stats::increase(&mut self.delta.lookup_results.misses, 1);
        self.dirty = true;
    }

    /// Counts a run of the compiler.
    pub fn record_compilation(&mut self, elapsed: u64)
        ensures
            final(self)@ == old(self)@.compiled(elapsed),
    {
        proof {
            reveal(Pending::compiled);
        }
        stats::increase(&mut self.delta.process_counts.real_compilations, 1);
        stats::increase(&mut self.delta.phase_timings_ns.real_compilation, elapsed);
        self.dirty = true;
    }

    /// Counts how the compiler ended.
    pub fn record_compiler_outcome(&mut self, key: &[u8], success: bool)
        ensures
            final(self)@ == (if success {
                old(self)@.compiler_succeeded(key@)
            } else {
                old(self)@.compiler_failed(key@)
            }),
    {
        proof {
            reveal(Pending::compiler_succeeded);
            reveal(Pending::compiler_failed);
        }
        self.key = Some(bstr::copy(key));
        if success {
            stats::increase(&mut self.delta.observed_outcomes.compiler_success, 1);
        } else {
            stats::increase(&mut self.delta.compiler_failures, 1);
            stats::increase(&mut self.delta.observed_outcomes.compiler_failure, 1);
        }
        self.dirty = true;
    }

    /// Counts that the preprocessor is asked once more.
    pub fn record_preprocessing(&mut self)
        ensures
            final(self)@ == old(self)@.preprocessing(),
    {
        proof {
            reveal(Pending::preprocessing);
        }
        stats::increase(&mut self.delta.process_counts.preprocessing_probes, 1);
        self.dirty = true;
    }

    /// Counts the time of the preprocessor.
    pub fn record_preprocessed(&mut self, elapsed: u64)
        ensures
            final(self)@ == old(self)@.preprocessed(elapsed),
    {
        proof {
            reveal(Pending::preprocessed);
        }
        stats::increase(&mut self.delta.phase_timings_ns.preprocessing_qualification, elapsed);
        self.dirty = true;
    }

    /// Counts a dependency file that took the place of a second observation.
    pub fn record_depfile_sufficed(&mut self)
        ensures
            final(self)@ == old(self)@.depfile_sufficed(),
    {
        proof {
            reveal(Pending::depfile_sufficed);
        }
        stats::increase(&mut self.delta.miss_observation.real_md_validation_successes, 1);
        self.dirty = true;
    }

    /// Counts a second observation.
    pub fn record_second_probe(&mut self)
        ensures
            final(self)@ == old(self)@.probing_again(),
    {
        proof {
            reveal(Pending::probing_again);
        }
        stats::increase(&mut self.delta.miss_observation.post_compile_probe_attempts, 1);
        self.dirty = true;
    }

    /// Counts the time of the checks after the compilation.
    pub fn record_validation(&mut self, elapsed: u64)
        ensures
            final(self)@ == old(self)@.validated(elapsed),
    {
        proof {
            reveal(Pending::validated);
        }
        stats::increase(&mut self.delta.phase_timings_ns.post_compile_validation, elapsed);
        self.dirty = true;
    }

    /// Counts a stored result.
    pub fn record_stored(&mut self, key: &[u8], bytes: u64)
        ensures
            final(self)@ == old(self)@.stored(key@, bytes),
    {
        proof {
            reveal(Pending::stored);
        }
        self.key = Some(bstr::copy(key));
        stats::increase(&mut self.delta.bytes_stored, bytes);
        self.dirty = true;
    }

    /// Counts a result that could not be stored.
    pub fn record_unwritten(&mut self, key: &[u8])
        ensures
            final(self)@ == old(self)@.unwritten(key@),
    {
        proof {
            reveal(Pending::unwritten);
        }
        self.key = Some(bstr::copy(key));
        stats::increase(&mut self.delta.cache_write_failures, 1);
        self.dirty = true;
    }

    /// Counts the time of publication.
    pub fn record_publication(&mut self, elapsed: u64)
        ensures
            final(self)@ == old(self)@.publicized(elapsed),
    {
        proof {
            reveal(Pending::publicized);
        }
        stats::increase(&mut self.delta.phase_timings_ns.publication, elapsed);
        self.dirty = true;
    }
}

/// Whether a counter went up by a number: by all of it, unless the counter ends there.
pub open spec fn rose(before: u64, after: u64, by: int) -> bool {
    if before + by < 0x1_0000_0000_0000_0000 {
        after == before + by
    } else {
        after == 0xffff_ffff_ffff_ffff
    }
}

/// A request counts once, also where it bypasses the cache. One that bypasses it is no lookup, and
/// the compiler is run in its place; the reason is counted.
pub proof fn law_requests_are_counted(
    before: Pending,
    reason: Seq<char>,
)
    ensures
        ({
            let after = before.requested();
            &&& after.dirty
            &&& after.key == before.key
            &&& rose(before.delta.requests, after.delta.requests, 1)
            &&& after.delta == (Stats {
                requests: after.delta.requests,
                ..before.delta
            })
        }),
        ({
            let after = before.bypassed(reason);
            &&& after.dirty
            &&& after.key == before.key
            &&& rose(before.delta.requests, after.delta.requests, 1)
            &&& rose(
                before.delta.lookup_results.not_attempted,
                after.delta.lookup_results.not_attempted,
                1,
            )
            &&& rose(
                before.delta.process_counts.pass_through_executions,
                after.delta.process_counts.pass_through_executions,
                1,
            )
            &&& after.delta.bypass_reasons == reasons::counted(
                before.delta.bypass_reasons,
                bstr::utf8(reason),
                1,
            )
            &&& after.delta == (Stats {
                requests: after.delta.requests,
                bypass_reasons: after.delta.bypass_reasons,
                lookup_results: LookupResults {
                    not_attempted: after.delta.lookup_results.not_attempted,
                    ..before.delta.lookup_results
                },
                process_counts: ProcessCounts {
                    pass_through_executions: after.delta.process_counts.pass_through_executions,
                    ..before.delta.process_counts
                },
                ..before.delta
            })
        }),
        ({
            let after = before.not_attempted(reason);
            &&& after.dirty
            &&& after.key == before.key
            &&& rose(
                before.delta.lookup_results.not_attempted,
                after.delta.lookup_results.not_attempted,
                1,
            )
            &&& rose(
                before.delta.process_counts.pass_through_executions,
                after.delta.process_counts.pass_through_executions,
                1,
            )
            &&& after.delta.bypass_reasons == reasons::counted(
                before.delta.bypass_reasons,
                bstr::utf8(reason),
                1,
            )
            &&& after.delta == (Stats {
                bypass_reasons: after.delta.bypass_reasons,
                lookup_results: LookupResults {
                    not_attempted: after.delta.lookup_results.not_attempted,
                    ..before.delta.lookup_results
                },
                process_counts: ProcessCounts {
                    pass_through_executions: after.delta.process_counts.pass_through_executions,
                    ..before.delta.process_counts
                },
                ..before.delta
            })
        }),
        ({
            let after = before.not_published(reason);
            &&& after.dirty
            &&& after.key == before.key
            &&& after.delta.bypass_reasons == reasons::counted(
                before.delta.bypass_reasons,
                bstr::utf8(reason),
                1,
            )
            &&& after.delta == (Stats {
                bypass_reasons: after.delta.bypass_reasons,
                ..before.delta
            })
        }),
        ({
            let after = before.without_store();
            &&& after.dirty
            &&& after.key == before.key
            &&& rose(before.delta.cache_read_failures, after.delta.cache_read_failures, 1)
            &&& rose(
                before.delta.process_counts.pass_through_executions,
                after.delta.process_counts.pass_through_executions,
                1,
            )
            &&& after.delta == (Stats {
                cache_read_failures: after.delta.cache_read_failures,
                process_counts: ProcessCounts {
                    pass_through_executions: after.delta.process_counts.pass_through_executions,
                    ..before.delta.process_counts
                },
                ..before.delta
            })
        }),
{
    reveal(Pending::requested);
    reveal(Pending::bypassed);
    reveal(Pending::not_attempted);
    reveal(Pending::not_published);
    reveal(Pending::without_store);
}

/// A lookup is a hit or a miss, and a hit counts the bytes that it put in place; one that was found
/// directly counts as such too. What became of a compilation counts once.
pub proof fn law_outcomes_are_counted(
    before: Pending,
    key: Seq<u8>,
    direct: bool,
    bytes: u64,
)
    ensures
        ({
            let after = before.hit(key, direct, bytes);
            &&& after.dirty
            &&& after.key == Some(key)
            &&& rose(before.delta.hits, after.delta.hits, 1)
            &&& rose(before.delta.lookup_results.hits, after.delta.lookup_results.hits, 1)
            &&& rose(
                before.delta.observed_outcomes.cache_hit_success,
                after.delta.observed_outcomes.cache_hit_success,
                1,
            )
            &&& rose(
                before.delta.direct_path.validated_hits,
                after.delta.direct_path.validated_hits,
                if direct { 1int } else { 0 },
            )
            &&& rose(before.delta.bytes_restored, after.delta.bytes_restored, bytes as int)
            &&& after.delta == (Stats {
                hits: after.delta.hits,
                bytes_restored: after.delta.bytes_restored,
                lookup_results: LookupResults {
                    hits: after.delta.lookup_results.hits,
                    ..before.delta.lookup_results
                },
                observed_outcomes: ObservedOutcomes {
                    cache_hit_success: after.delta.observed_outcomes.cache_hit_success,
                    ..before.delta.observed_outcomes
                },
                direct_path: DirectPathStats {
                    validated_hits: after.delta.direct_path.validated_hits,
                    ..before.delta.direct_path
                },
                ..before.delta
            })
        }),
        ({
            let after = before.missed(key);
            &&& after.dirty
            &&& after.key == Some(key)
            &&& rose(before.delta.misses, after.delta.misses, 1)
            &&& rose(before.delta.lookup_results.misses, after.delta.lookup_results.misses, 1)
            &&& after.delta == (Stats {
                misses: after.delta.misses,
                lookup_results: LookupResults {
                    misses: after.delta.lookup_results.misses,
                    ..before.delta.lookup_results
                },
                ..before.delta
            })
        }),
        ({
            let after = before.compiler_failed(key);
            &&& after.dirty
            &&& after.key == Some(key)
            &&& rose(before.delta.compiler_failures, after.delta.compiler_failures, 1)
            &&& rose(
                before.delta.observed_outcomes.compiler_failure,
                after.delta.observed_outcomes.compiler_failure,
                1,
            )
            &&& after.delta == (Stats {
                compiler_failures: after.delta.compiler_failures,
                observed_outcomes: ObservedOutcomes {
                    compiler_failure: after.delta.observed_outcomes.compiler_failure,
                    ..before.delta.observed_outcomes
                },
                ..before.delta
            })
        }),
        ({
            let after = before.compiler_succeeded(key);
            &&& after.dirty
            &&& after.key == Some(key)
            &&& rose(
                before.delta.observed_outcomes.compiler_success,
                after.delta.observed_outcomes.compiler_success,
                1,
            )
            &&& after.delta == (Stats {
                observed_outcomes: ObservedOutcomes {
                    compiler_success: after.delta.observed_outcomes.compiler_success,
                    ..before.delta.observed_outcomes
                },
                ..before.delta
            })
        }),
        ({
            let after = before.launcher_failed(key);
            &&& after.dirty
            &&& after.key == Some(key)
            &&& rose(
                before.delta.observed_outcomes.launcher_failure,
                after.delta.observed_outcomes.launcher_failure,
                1,
            )
            &&& after.delta == (Stats {
                observed_outcomes: ObservedOutcomes {
                    launcher_failure: after.delta.observed_outcomes.launcher_failure,
                    ..before.delta.observed_outcomes
                },
                ..before.delta
            })
        }),
{
    reveal(Pending::hit);
    reveal(Pending::missed);
    reveal(Pending::compiler_failed);
    reveal(Pending::compiler_succeeded);
    reveal(Pending::launcher_failed);
}

/// What cannot be read counts as a failure to read, and where it is damaged as such too; what is
/// stored counts its bytes, and what cannot be stored a failure to write.
pub proof fn law_failures_of_the_cache_are_counted(
    before: Pending,
    key: Seq<u8>,
    corrupt: bool,
    bytes: u64,
)
    ensures
        ({
            let after = before.unread(key, corrupt);
            &&& after.dirty
            &&& after.key == Some(key)
            &&& rose(before.delta.cache_read_failures, after.delta.cache_read_failures, 1)
            &&& rose(
                before.delta.corruption,
                after.delta.corruption,
                if corrupt { 1int } else { 0 },
            )
            &&& after.delta == (Stats {
                cache_read_failures: after.delta.cache_read_failures,
                corruption: after.delta.corruption,
                ..before.delta
            })
        }),
        ({
            let after = before.stored(key, bytes);
            &&& after.dirty
            &&& after.key == Some(key)
            &&& rose(before.delta.bytes_stored, after.delta.bytes_stored, bytes as int)
            &&& after.delta == (Stats {
                bytes_stored: after.delta.bytes_stored,
                ..before.delta
            })
        }),
        ({
            let after = before.unwritten(key);
            &&& after.dirty
            &&& after.key == Some(key)
            &&& rose(before.delta.cache_write_failures, after.delta.cache_write_failures, 1)
            &&& after.delta == (Stats {
                cache_write_failures: after.delta.cache_write_failures,
                ..before.delta
            })
        }),
{
    reveal(Pending::unread);
    reveal(Pending::stored);
    reveal(Pending::unwritten);
}

/// Every candidate counts, also one whose result is missing; an index that is damaged counts once.
/// A candidate that does not hold counts as stale, with its reason.
pub proof fn law_direct_lookups_are_counted(
    before: Pending,
    found: u64,
    missing: u64,
    corrupt: bool,
    reason: Seq<char>,
)
    ensures
        ({
            let after = before.candidates(found, missing, corrupt);
            &&& after.dirty
            &&& after.key == before.key
            &&& rose(
                before.delta.direct_path.candidates_found,
                after.delta.direct_path.candidates_found,
                found + missing,
            )
            &&& rose(
                before.delta.direct_path.missing_result_manifests,
                after.delta.direct_path.missing_result_manifests,
                missing as int,
            )
            &&& rose(
                before.delta.direct_path.corrupt_records,
                after.delta.direct_path.corrupt_records,
                if corrupt { 1int } else { 0 },
            )
            &&& after.delta == (Stats {
                direct_path: DirectPathStats {
                    candidates_found: after.delta.direct_path.candidates_found,
                    missing_result_manifests: after.delta.direct_path.missing_result_manifests,
                    corrupt_records: after.delta.direct_path.corrupt_records,
                    ..before.delta.direct_path
                },
                ..before.delta
            })
        }),
        ({
            let after = before.fallen_back(reason);
            &&& after.dirty
            &&& after.key == before.key
            &&& rose(
                before.delta.direct_path.stale_records,
                after.delta.direct_path.stale_records,
                1,
            )
            &&& after.delta.direct_path.validation_fallback_reasons == reasons::counted(
                before.delta.direct_path.validation_fallback_reasons,
                bstr::utf8(reason),
                1,
            )
            &&& after.delta == (Stats {
                direct_path: DirectPathStats {
                    stale_records: after.delta.direct_path.stale_records,
                    validation_fallback_reasons: after.delta.direct_path.validation_fallback_reasons,
                    ..before.delta.direct_path
                },
                ..before.delta
            })
        }),
        ({
            let after = before.planned();
            &&& after.dirty
            &&& after.key == before.key
            &&& rose(
                before.delta.direct_path.validated_compile_plans,
                after.delta.direct_path.validated_compile_plans,
                1,
            )
            &&& rose(
                before.delta.miss_observation.validated_precompile_selections,
                after.delta.miss_observation.validated_precompile_selections,
                1,
            )
            &&& after.delta == (Stats {
                direct_path: DirectPathStats {
                    validated_compile_plans: after.delta.direct_path.validated_compile_plans,
                    ..before.delta.direct_path
                },
                miss_observation: MissObservationStats {
                    validated_precompile_selections: after.delta.miss_observation.validated_precompile_selections,
                    ..before.delta.miss_observation
                },
                ..before.delta
            })
        }),
        ({
            let after = before.depfile_sufficed();
            &&& after.dirty
            &&& after.key == before.key
            &&& rose(
                before.delta.miss_observation.real_md_validation_successes,
                after.delta.miss_observation.real_md_validation_successes,
                1,
            )
            &&& after.delta == (Stats {
                miss_observation: MissObservationStats {
                    real_md_validation_successes: after.delta.miss_observation.real_md_validation_successes,
                    ..before.delta.miss_observation
                },
                ..before.delta
            })
        }),
        ({
            let after = before.probing_again();
            &&& after.dirty
            &&& after.key == before.key
            &&& rose(
                before.delta.miss_observation.post_compile_probe_attempts,
                after.delta.miss_observation.post_compile_probe_attempts,
                1,
            )
            &&& after.delta == (Stats {
                miss_observation: MissObservationStats {
                    post_compile_probe_attempts: after.delta.miss_observation.post_compile_probe_attempts,
                    ..before.delta.miss_observation
                },
                ..before.delta
            })
        }),
{
    reveal(Pending::candidates);
    reveal(Pending::fallen_back);
    reveal(Pending::planned);
    reveal(Pending::depfile_sufficed);
    reveal(Pending::probing_again);
}

/// A compiler that is not known takes eight queries, and one that is known takes none. Every probe
/// and every compilation counts as a process.
pub proof fn law_processes_are_counted(
    before: Pending,
    reused: bool,
    telemetry: ProbeTelemetry,
    elapsed: u64,
)
    ensures
        ({
            let after = before.identified(reused, elapsed);
            &&& after.dirty
            &&& after.key == before.key
            &&& rose(
                before.delta.process_counts.fingerprint_queries,
                after.delta.process_counts.fingerprint_queries,
                if reused { 0int } else { 8 },
            )
            &&& rose(
                before.delta.phase_timings_ns.compiler_identity,
                after.delta.phase_timings_ns.compiler_identity,
                elapsed as int,
            )
            &&& after.delta == (Stats {
                process_counts: ProcessCounts {
                    fingerprint_queries: after.delta.process_counts.fingerprint_queries,
                    ..before.delta.process_counts
                },
                phase_timings_ns: PhaseTimingsNs {
                    compiler_identity: after.delta.phase_timings_ns.compiler_identity,
                    ..before.delta.phase_timings_ns
                },
                ..before.delta
            })
        }),
        ({
            let after = before.probed(telemetry, elapsed);
            &&& after.dirty
            &&& after.key == before.key
            &&& rose(
                before.delta.process_counts.dependency_probes,
                after.delta.process_counts.dependency_probes,
                telemetry.dependency_probes as int,
            )
            &&& rose(
                before.delta.process_counts.preprocessing_probes,
                after.delta.process_counts.preprocessing_probes,
                telemetry.preprocessing_probes as int,
            )
            &&& rose(
                before.delta.phase_timings_ns.dependency_probing,
                after.delta.phase_timings_ns.dependency_probing,
                elapsed as int,
            )
            &&& after.delta == (Stats {
                process_counts: ProcessCounts {
                    dependency_probes: after.delta.process_counts.dependency_probes,
                    preprocessing_probes: after.delta.process_counts.preprocessing_probes,
                    ..before.delta.process_counts
                },
                phase_timings_ns: PhaseTimingsNs {
                    dependency_probing: after.delta.phase_timings_ns.dependency_probing,
                    ..before.delta.phase_timings_ns
                },
                ..before.delta
            })
        }),
        ({
            let after = before.compiled(elapsed);
            &&& after.dirty
            &&& after.key == before.key
            &&& rose(
                before.delta.process_counts.real_compilations,
                after.delta.process_counts.real_compilations,
                1,
            )
            &&& rose(
                before.delta.phase_timings_ns.real_compilation,
                after.delta.phase_timings_ns.real_compilation,
                elapsed as int,
            )
            &&& after.delta == (Stats {
                process_counts: ProcessCounts {
                    real_compilations: after.delta.process_counts.real_compilations,
                    ..before.delta.process_counts
                },
                phase_timings_ns: PhaseTimingsNs {
                    real_compilation: after.delta.phase_timings_ns.real_compilation,
                    ..before.delta.phase_timings_ns
                },
                ..before.delta
            })
        }),
        ({
            let after = before.preprocessing();
            &&& after.dirty
            &&& after.key == before.key
            &&& rose(
                before.delta.process_counts.preprocessing_probes,
                after.delta.process_counts.preprocessing_probes,
                1,
            )
            &&& after.delta == (Stats {
                process_counts: ProcessCounts {
                    preprocessing_probes: after.delta.process_counts.preprocessing_probes,
                    ..before.delta.process_counts
                },
                ..before.delta
            })
        }),
{
    reveal(Pending::identified);
    reveal(Pending::probed);
    reveal(Pending::compiled);
    reveal(Pending::preprocessing);
}

/// The time of a phase is added to that phase alone.
pub proof fn law_phases_are_timed(
    before: Pending,
    elapsed: u64,
)
    ensures
        ({
            let after = before.searched(elapsed);
            &&& after.dirty
            &&& after.key == before.key
            &&& rose(
                before.delta.phase_timings_ns.direct_validation,
                after.delta.phase_timings_ns.direct_validation,
                elapsed as int,
            )
            &&& after.delta == (Stats {
                phase_timings_ns: PhaseTimingsNs {
                    direct_validation: after.delta.phase_timings_ns.direct_validation,
                    ..before.delta.phase_timings_ns
                },
                ..before.delta
            })
        }),
        ({
            let after = before.preprocessed(elapsed);
            &&& after.dirty
            &&& after.key == before.key
            &&& rose(
                before.delta.phase_timings_ns.preprocessing_qualification,
                after.delta.phase_timings_ns.preprocessing_qualification,
                elapsed as int,
            )
            &&& after.delta == (Stats {
                phase_timings_ns: PhaseTimingsNs {
                    preprocessing_qualification: after.delta.phase_timings_ns.preprocessing_qualification,
                    ..before.delta.phase_timings_ns
                },
                ..before.delta
            })
        }),
        ({
            let after = before.validated(elapsed);
            &&& after.dirty
            &&& after.key == before.key
            &&& rose(
                before.delta.phase_timings_ns.post_compile_validation,
                after.delta.phase_timings_ns.post_compile_validation,
                elapsed as int,
            )
            &&& after.delta == (Stats {
                phase_timings_ns: PhaseTimingsNs {
                    post_compile_validation: after.delta.phase_timings_ns.post_compile_validation,
                    ..before.delta.phase_timings_ns
                },
                ..before.delta
            })
        }),
        ({
            let after = before.publicized(elapsed);
            &&& after.dirty
            &&& after.key == before.key
            &&& rose(
                before.delta.phase_timings_ns.publication,
                after.delta.phase_timings_ns.publication,
                elapsed as int,
            )
            &&& after.delta == (Stats {
                phase_timings_ns: PhaseTimingsNs {
                    publication: after.delta.phase_timings_ns.publication,
                    ..before.delta.phase_timings_ns
                },
                ..before.delta
            })
        }),
{
    reveal(Pending::searched);
    reveal(Pending::preprocessed);
    reveal(Pending::validated);
    reveal(Pending::publicized);
}

} // verus!
