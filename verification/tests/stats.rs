use fcache::cache::journal::{
    check_append, check_journal, compact_entry, decode_frame, delta_entry, encode_frame,
    journal_payloads, legacy_counts, read_journal, repair_truncated_tail, reset_entry,
    same_regular_file, JournalEnd, JournalEntry, OpenedFile, StatsStore, MAX_FRAME_BYTES,
    MAX_JOURNAL_BYTES, MAX_LEGACY_BYTES, MAX_RECORD_BYTES, SHARDS,
};
use fcache::cache::reasons::Reasons;
use fcache::cache::stats::{
    increase, validate_reasons, validate_stats, DirectPathStats, LookupResults,
    MissObservationStats, ObservedOutcomes, PhaseTimingsNs, ProcessCounts, Stats, StatsError,
    STATS_SCHEMA_VERSION,
};

fn populated_stats() -> Stats {
    let mut fallback = Reasons::new();
    fallback.count(b"input-changed", 1);
    let mut stats = Stats {
        requests: 7,
        hits: 2,
        misses: 3,
        lookup_results: LookupResults { hits: 2, misses: 3, not_attempted: 2 },
        observed_outcomes: ObservedOutcomes {
            cache_hit_success: 2,
            compiler_success: 2,
            compiler_failure: 1,
            launcher_failure: 1,
        },
        process_counts: ProcessCounts {
            fingerprint_queries: 6,
            preprocessing_probes: 1,
            dependency_probes: 1,
            real_compilations: 3,
            pass_through_executions: 1,
        },
        direct_path: DirectPathStats {
            candidates_found: 3,
            validated_hits: 2,
            validated_compile_plans: 1,
            stale_records: 1,
            corrupt_records: 0,
            missing_result_manifests: 1,
            validation_fallback_reasons: fallback,
        },
        miss_observation: MissObservationStats {
            validated_precompile_selections: 1,
            real_md_validation_successes: 2,
            post_compile_probe_attempts: 3,
        },
        phase_timings_ns: PhaseTimingsNs {
            parsing: 1,
            compiler_identity: 2,
            direct_validation: 3,
            preprocessing_qualification: 4,
            dependency_probing: 5,
            cache_lookup_staging: 6,
            real_compilation: 7,
            post_compile_validation: 8,
            publication: 9,
            lock_waiting: 10,
            maintenance: 11,
        },
        compiler_failures: 1,
        cache_read_failures: 2,
        cache_write_failures: 1,
        corruption: 1,
        bytes_stored: 128,
        bytes_restored: 64,
        ..Stats::default()
    };
    stats.bypass_reasons.count(b"flag", 2);
    stats
}

fn store() -> StatsStore {
    StatsStore::new(b"/cache")
}

fn replay(contents: &[u8], entries: Vec<Option<JournalEntry>>) -> Result<Stats, StatsError> {
    let (payloads, end) = journal_payloads(contents);
    assert_eq!(payloads.len(), entries.len());
    read_journal(b"/cache/v1/stats/00.journal", Stats::default(), entries, end)
}

fn requests(count: u64) -> Stats {
    Stats { requests: count, ..Stats::default() }
}

/// The journals of a store. Every record is written as a number that stands for it.
struct Journals {
    contents: Vec<Vec<u8>>,
    entries: Vec<JournalEntry>,
}

impl Journals {
    fn new() -> Self {
        Journals { contents: vec![Vec::new(); SHARDS as usize], entries: Vec::new() }
    }

    fn write(&mut self, entry: JournalEntry) -> Vec<u8> {
        self.entries.push(entry);
        format!("record {}", self.entries.len() - 1).into_bytes()
    }

    fn shard(&self, shard: u64) -> Stats {
        let (payloads, end) = journal_payloads(&self.contents[shard as usize]);
        let entries = payloads
            .iter()
            .map(|payload| {
                let text = String::from_utf8(payload.clone()).unwrap();
                let number: usize = text.strip_prefix("record ").unwrap().parse().unwrap();
                Some(self.entries[number].clone())
            })
            .collect();
        read_journal(&store().journal_path(shard), Stats::default(), entries, end).unwrap()
    }

    fn aggregate(&self) -> Stats {
        let shards = (0..SHARDS).map(|shard| self.shard(shard)).collect();
        store().aggregate(&shards)
    }

    fn record_delta(&mut self, key: &[u8], counts: &Stats) {
        let payload = self.write(delta_entry(counts.clone()));
        let frame = store().record_delta(counts, &payload).unwrap();
        let shard = store().shard_number(Some(key), 7);
        self.contents[shard as usize].extend(frame);
    }

    fn record(&mut self, key: &[u8], update: impl FnOnce(Stats) -> Stats) {
        match store().record(update) {
            JournalEntry::Delta(counts) => self.record_delta(key, &counts),
            JournalEntry::Snapshot(_) => panic!("an update is no snapshot"),
        }
    }

    fn compact(&mut self) {
        for shard in 0..SHARDS {
            let counts = self.shard(shard);
            let payload = self.write(compact_entry(counts.clone()));
            self.contents[shard as usize] = store().compact(&counts, &payload).unwrap();
        }
    }

    fn reset(&mut self) {
        for shard in 0..SHARDS {
            let payload = self.write(reset_entry());
            self.contents[shard as usize] = store().reset(&payload).unwrap();
        }
    }
}

#[test]
fn round_trip_reset_and_compact() {
    let mut journals = Journals::new();
    let expected = populated_stats();

    journals.record_delta(b"x", &expected);
    assert_eq!(journals.aggregate(), expected);
    journals.compact();
    assert_eq!(journals.aggregate(), expected);
    journals.reset();
    assert_eq!(journals.aggregate(), Stats::default());
}

#[test]
fn updates_are_applied_to_no_counts_and_added() {
    let mut journals = Journals::new();
    journals.record_delta(b"x", &populated_stats());
    journals.record(b"x", |none| {
        assert_eq!(none, Stats::default());
        Stats { requests: 2, ..none }
    });
    journals.record(b"another", |none| Stats { requests: 3, hits: 1, ..none });
    let mut expected = populated_stats();
    expected.merge(&requests(2));
    expected.merge(&Stats { hits: 1, ..requests(3) });
    assert_eq!(journals.aggregate(), expected);
    assert_eq!(expected.requests, 12);
}

#[test]
fn records_say_whether_they_add_or_replace() {
    assert!(matches!(delta_entry(requests(4)), JournalEntry::Delta(counts) if counts == requests(4)));
    assert!(matches!(
        compact_entry(requests(4)),
        JournalEntry::Snapshot(counts) if counts == requests(4)
    ));
    assert!(matches!(
        reset_entry(),
        JournalEntry::Snapshot(counts) if counts == Stats::default()
    ));
}

#[test]
fn stats_errors_say_what_is_wrong() {
    assert_eq!(
        StatsError::<Vec<u8>, String>::UnsupportedSchema(12).message(),
        "unsupported stats schema version 12"
    );
    assert_eq!(
        StatsError::<Vec<u8>, String>::CorruptJournal(b"/cache/00.journal".to_vec()).message(),
        "stats journal is corrupt: /cache/00.journal"
    );
}

#[test]
fn reads_legacy_schema_shards() {
    assert!(legacy_counts(b"{\"requests\":4}").unwrap());
    assert!(!legacy_counts(b" \n").unwrap());
    assert!(matches!(
        legacy_counts(&vec![b'{'; MAX_LEGACY_BYTES as usize + 1]),
        Err(StatsError::RecordTooLarge)
    ));
    for schema in [0, 1, 2, STATS_SCHEMA_VERSION] {
        let mut legacy =
            Stats { schema_version: schema, hits: 1, misses: 2, ..requests(4) };
        legacy.bypass_reasons.count(b"unsupported-compiler", 1);
        assert!(validate_stats(&legacy).is_ok());
        let shard = read_journal(b"00.journal", legacy, Vec::new(), JournalEnd::Reached).unwrap();
        let stats = store().aggregate(&vec![shard]);
        assert_eq!(stats.schema_version, STATS_SCHEMA_VERSION);
        assert_eq!(stats.requests, 4);
        assert_eq!(stats.hits, 1);
        assert_eq!(stats.misses, 2);
        assert_eq!(stats.bypass_reasons.get(b"unsupported-compiler"), Some(1));
        assert_eq!(stats.process_counts, ProcessCounts::default());
        assert_eq!(stats.direct_path, DirectPathStats::default());
        assert_eq!(stats.phase_timings_ns, PhaseTimingsNs::default());
    }
}

#[test]
fn reads_and_compacts_schema_two_journal_frames() {
    let encode = |payload: &[u8]| {
        let checksum = blake3::hash(payload).to_hex();
        let mut frame = Vec::new();
        frame.extend_from_slice(b"FCS1 ");
        frame.extend_from_slice(checksum.as_bytes());
        frame.push(b' ');
        frame.extend_from_slice(payload);
        frame.push(b'\n');
        frame
    };
    let snapshot =
        b"{\"kind\":\"snapshot\",\"stats\":{\"schema_version\":2,\"requests\":3,\"hits\":1}}";
    let delta = b"{\"kind\":\"delta\",\"stats\":{\"schema_version\":2,\"requests\":1,\"misses\":2,\"direct_path\":{\"validated_hits\":1}}}";
    let mut journal = encode(snapshot);
    journal.extend(encode(delta));
    assert_eq!(encode_frame(snapshot).unwrap(), encode(snapshot));
    let (payloads, end) = journal_payloads(&journal);
    assert_eq!(payloads, vec![snapshot.to_vec(), delta.to_vec()]);
    assert_eq!(end, JournalEnd::Reached);

    let stats = replay(
        &journal,
        vec![
            Some(JournalEntry::Snapshot(Stats {
                schema_version: 2,
                hits: 1,
                ..requests(3)
            })),
            Some(JournalEntry::Delta(Stats {
                schema_version: 2,
                misses: 2,
                direct_path: DirectPathStats { validated_hits: 1, ..DirectPathStats::default() },
                ..requests(1)
            })),
        ],
    )
    .unwrap();
    let counts = stats.clone();
    let stats = store().aggregate(&vec![stats]);
    assert_eq!(stats.schema_version, STATS_SCHEMA_VERSION);
    assert_eq!(stats.requests, 4);
    assert_eq!(stats.hits, 1);
    assert_eq!(stats.misses, 2);
    assert_eq!(stats.direct_path.validated_hits, 1);
    assert_eq!(stats.miss_observation, MissObservationStats::default());

    let compacted = store().compact(&counts, b"{}").unwrap();
    let again = replay(&compacted, vec![Some(compact_entry(counts))]).unwrap();
    assert_eq!(store().aggregate(&vec![again]), stats);
}

#[test]
fn a_snapshot_replaces_what_came_before_it() {
    let mut journal = encode_frame(b"one").unwrap();
    journal.extend(encode_frame(b"two").unwrap());
    let stats = replay(
        &journal,
        vec![Some(JournalEntry::Delta(requests(5))), Some(JournalEntry::Snapshot(requests(2)))],
    )
    .unwrap();
    assert_eq!(stats.requests, 2);
}

#[test]
fn rejects_unknown_schema_version() {
    let stats = Stats { schema_version: STATS_SCHEMA_VERSION + 1, ..Stats::default() };
    assert!(matches!(
        validate_stats(&stats),
        Err(StatsError::UnsupportedSchema(version)) if version == STATS_SCHEMA_VERSION + 1
    ));
}

#[test]
fn truncated_tail_is_ignored_and_repaired_before_append() {
    let mut journal = encode_frame(b"first").unwrap();
    let whole = journal.len() as u64;
    journal.extend_from_slice(b"FCS1 torn");
    let first = replay(&journal, vec![Some(JournalEntry::Delta(requests(1)))]).unwrap();
    assert_eq!(first.requests, 1);

    let kept = repair_truncated_tail(journal.len() as u64, &journal).unwrap();
    assert_eq!(kept, whole);
    journal.truncate(kept as usize);
    journal.extend(encode_frame(b"second").unwrap());
    let both = replay(
        &journal,
        vec![Some(JournalEntry::Delta(requests(1))), Some(JournalEntry::Delta(requests(2)))],
    )
    .unwrap();
    assert_eq!(both.requests, 3);
    assert_eq!(repair_truncated_tail(9, b"FCS1 torn").unwrap(), 0);
}

#[test]
fn checksum_mismatch_is_rejected() {
    let mut journal = encode_frame(b"{payload}").unwrap();
    let at = journal.iter().position(|byte| *byte == b'{').unwrap();
    journal[at] = b'[';
    assert_eq!(decode_frame(&journal[..journal.len() - 1]), None);
    let path = b"/cache/v1/stats/00.journal";
    assert!(matches!(
        replay(&journal, Vec::new()),
        Err(StatsError::CorruptJournal(found)) if found == path
    ));
}

#[test]
fn serializes_reason_maps_in_key_order() {
    let mut stats = Stats::default();
    stats.bypass_reasons.count(b"zeta", 1);
    stats.bypass_reasons.count(b"alpha", 2);
    stats.direct_path.validation_fallback_reasons.count(b"zeta", 1);
    stats.direct_path.validation_fallback_reasons.count(b"alpha", 2);
    for reasons in [&stats.bypass_reasons, &stats.direct_path.validation_fallback_reasons] {
        let names: Vec<&[u8]> =
            reasons.entries().iter().map(|reason| reason.name.as_slice()).collect();
        assert_eq!(names, vec![b"alpha".as_slice(), b"zeta".as_slice()]);
        assert_eq!(reasons.get(b"alpha"), Some(2));
        assert_eq!(reasons.get(b"beta"), None);
    }
}

#[test]
fn concurrent_records_do_not_lose_updates() {
    let mut journal = Vec::new();
    let mut entries = Vec::new();
    for _ in 0..8 * 25 {
        let mut stats = requests(1);
        stats.lookup_results.misses = 1;
        stats.observed_outcomes.compiler_success = 1;
        stats.process_counts.real_compilations = 1;
        stats.phase_timings_ns.real_compilation = 10;
        journal.extend(store().record_delta(&stats, b"{}").unwrap());
        entries.push(Some(JournalEntry::Delta(stats)));
    }
    let stats = replay(&journal, entries).unwrap();
    assert_eq!(stats.requests, 200);
    assert_eq!(stats.lookup_results.misses, 200);
    assert_eq!(stats.observed_outcomes.compiler_success, 200);
    assert_eq!(stats.process_counts.real_compilations, 200);
    assert_eq!(stats.phase_timings_ns.real_compilation, 2000);
}

#[test]
fn rejects_symlinked_stats_files() {
    let file = OpenedFile { regular: true, device: 1, inode: 2, links: 1 };
    assert!(same_regular_file(file, file));
    assert!(!same_regular_file(OpenedFile { regular: false, ..file }, file));
    assert!(!same_regular_file(OpenedFile { inode: 3, ..file }, file));
}

#[test]
fn counts_saturate() {
    let mut value = u64::MAX - 1;
    increase(&mut value, 5);
    assert_eq!(value, u64::MAX);
    let mut stats = requests(u64::MAX);
    stats.merge(&requests(1));
    assert_eq!(stats.requests, u64::MAX);
}

#[test]
fn counts_add_up_in_any_order() {
    let mut left = populated_stats();
    left.merge(&requests(3));
    let mut right = requests(3);
    right.merge(&populated_stats());
    assert_eq!(left, right);
    assert_eq!(left.requests, 10);
    assert_eq!(left.bypass_reasons.get(b"flag"), Some(2));
    let mut doubled = populated_stats();
    doubled.merge(&populated_stats());
    assert_eq!(doubled.bypass_reasons.get(b"flag"), Some(4));
    assert_eq!(doubled.direct_path.validation_fallback_reasons.get(b"input-changed"), Some(2));
}

#[test]
fn reasons_and_records_are_bounded() {
    let mut reasons = Reasons::new();
    reasons.count(&vec![b'x'; 1000], 1);
    assert!(matches!(validate_reasons(&reasons), Err(StatsError::InvalidReasons)));
    assert!(matches!(
        encode_frame(&vec![b'x'; MAX_RECORD_BYTES + 1]),
        Err(StatsError::RecordTooLarge)
    ));
    assert!(check_append(MAX_JOURNAL_BYTES, 1).is_err());
    assert!(check_append(0, 1).is_ok());
    assert!(check_journal(MAX_JOURNAL_BYTES).is_ok());
    assert!(check_journal(MAX_JOURNAL_BYTES + 1).is_err());
    let (_, end) = journal_payloads(&vec![b'x'; MAX_FRAME_BYTES + 1]);
    assert_eq!(end, JournalEnd::TooLarge);
}

#[test]
fn shards_are_chosen_by_key_or_process() {
    assert_eq!(store().shard_number(None, 18), 2);
    let shard = store().shard_number(Some(b"x"), 0);
    assert!(shard < SHARDS);
    assert_eq!(shard, store().shard_number(Some(b"x"), 7));
    assert_eq!(store().journal_path(3), b"/cache/v1/stats/03.journal");
    assert_eq!(store().legacy_path(10), b"/cache/v1/stats/10.json");
}

#[test]
fn journals_are_replaced_by_one_line() {
    let line = store().compact(&requests(2), b"payload").unwrap();
    assert_eq!(line, encode_frame(b"payload").unwrap());
    assert_eq!(journal_payloads(&line), (vec![b"payload".to_vec()], JournalEnd::Reached));
    assert_eq!(store().reset(b"empty").unwrap(), encode_frame(b"empty").unwrap());
    assert_eq!(
        store().reset(&vec![b' '; MAX_RECORD_BYTES + 1]),
        Err(StatsError::RecordTooLarge)
    );
    let unknown = Stats { schema_version: STATS_SCHEMA_VERSION + 1, ..Stats::default() };
    assert!(matches!(
        store().compact(&unknown, b"payload"),
        Err(StatsError::UnsupportedSchema(_))
    ));
}
