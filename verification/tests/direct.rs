use fcache::cache::direct::{
    AbsentCapture, AbsentPathWitness, CompilerWitnessRef, Contents, DirectDigest, DirectIndex,
    DirectIndexError, DirectIndexFile, DirectInput, DirectMissReason, DirectRecord, DirectRecordError,
    DirectValidationError, EncodedOsString, ExpectedArtifact, InputCapture, LoadedIndex,
    MetadataWitness, PathWitness, PreprocessorShape, RecordCapture, SearchResolutionWitnesses,
    StoredIndex, WitnessFileType, DIRECT_INDEX_SCHEMA_VERSION, DIRECT_RECORD_SCHEMA_VERSION,
    MAX_DIRECT_CANDIDATES, MAX_DIRECT_INDEX_SIZE,
};
use fcache::cache::key::{ActionKey, ActionKeyBuilder};
use fcache::cache::manifest::ArtifactKind;
use fcache::cache::request::{DirectRequestKey, Pair};

fn action(number: u8) -> ActionKey {
    ActionKeyBuilder::new().bytes("action", &[number]).finish().unwrap()
}

fn metadata(file_type: WitnessFileType, inode: u64) -> MetadataWitness {
    MetadataWitness {
        file_type,
        size: 15,
        mode: 0o644,
        device: 1,
        inode,
        modified_seconds: 1,
        modified_nanoseconds: 2,
        changed_seconds: 3,
        changed_nanoseconds: 4,
    }
}

fn witness(path: &str, file_type: WitnessFileType, inode: u64) -> PathWitness {
    PathWitness::capture(
        path.as_bytes().to_vec(),
        path.as_bytes().to_vec(),
        metadata(file_type, inode),
        Vec::new(),
        file_type,
    )
    .unwrap()
}

fn contents(bytes: &[u8]) -> Contents {
    Contents { digest: DirectDigest::hash(bytes), size: bytes.len() as u64 }
}

fn source(number: u8) -> String {
    format!("/build/source-{number}.f90")
}

fn text(number: u8) -> String {
    format!("program p{number}\nend\n")
}

fn input(number: u8) -> DirectInput {
    let path = source(number);
    DirectInput::capture(
        path.as_bytes(),
        witness(&path, WitnessFileType::Regular, 10),
        contents(text(number).as_bytes()),
    )
}

fn record(number: u8) -> DirectRecord {
    DirectRecord {
        schema_version: DIRECT_RECORD_SCHEMA_VERSION,
        compiler: CompilerWitnessRef {
            context_key: DirectDigest::hash(b"context"),
            compiler_digest: DirectDigest::hash(b"compiler"),
        },
        inputs: vec![input(number)],
        resolution: SearchResolutionWitnesses {
            roots: vec![witness("/build", WitnessFileType::Directory, 5)],
            positive: Vec::new(),
            negative: Vec::new(),
        },
        expected_artifacts: vec![ExpectedArtifact {
            kind: ArtifactKind::Object,
            logical_name: "object".into(),
            destination: EncodedOsString::from_path(format!("/build/result-{number}.o").as_bytes()),
            digest: DirectDigest::hash(&[number]),
            size: 1,
            mode: 0o644,
        }],
        probe_rules: Vec::new(),
        depfile: None,
        preprocessor: PreprocessorShape::Inactive,
        action_key: action(number),
    }
}

fn request(number: u8) -> DirectRequestKey {
    DirectRequestKey::compute(
        b"gfortran",
        b"/build",
        &vec![b"-c".to_vec(), format!("source-{number}.f90").into_bytes()],
        &vec![Pair { name: b"PATH".to_vec(), value: b"/usr/bin".to_vec() }],
        b"/build/source.f90",
        DirectDigest::hash(&[number]).as_bytes(),
        &vec![Pair { name: b"module-dir".to_vec(), value: b"/build/modules".to_vec() }],
    )
}

fn index() -> DirectIndex {
    DirectIndex::open(b"/cache".to_vec())
}

fn stored(key: DirectRequestKey, candidates: Vec<DirectRecord>) -> LoadedIndex {
    let payload = b"payload".to_vec();
    let file = DirectIndexFile::seal(key, candidates, &payload);
    index().load_file(
        &key,
        StoredIndex::File {
            length: 100,
            schema_version: Some(DIRECT_INDEX_SCHEMA_VERSION),
            file: Some(file),
            payload,
        },
    )
}

#[test]
fn request_key_preserves_argument_and_environment_order() {
    let digest = DirectDigest::hash(b"source");
    let environment = vec![Pair { name: b"A".to_vec(), value: b"1".to_vec() }];
    let compute = |arguments: Vec<Vec<u8>>| {
        DirectRequestKey::compute(
            b"gfortran",
            b"/build",
            &arguments,
            &environment,
            b"/build/x.f90",
            digest.as_bytes(),
            &Vec::new(),
        )
    };
    let first = compute(vec![b"-O2".to_vec(), b"-g".to_vec()]);
    let reordered = compute(vec![b"-g".to_vec(), b"-O2".to_vec()]);
    assert_ne!(first, reordered);
}

#[test]
fn encoded_paths_round_trip_non_utf8_bytes() {
    let original = b"source-\xff.f90".to_vec();
    let encoded = EncodedOsString::from_os_str(&original);
    let decoded = EncodedOsString::from_hex(&encoded.to_hex()).unwrap();
    assert_eq!(decoded.to_os_string(), original);
    assert_eq!(encoded.to_hex(), "736f757263652dff2e663930");
    assert_eq!(EncodedOsString::from_hex("7"), None);
}

#[test]
fn lookup_does_not_create_cache_directories() {
    let loaded = index().load_file(&request(1), StoredIndex::Missing);
    let lookup = index().lookup(loaded);
    assert_eq!(lookup.miss_reason, Some(DirectMissReason::Missing));
    assert!(lookup.is_miss());
}

#[test]
fn publication_retains_only_four_recent_candidates() {
    let key = request(1);
    let mut candidates = Vec::new();
    for number in 0..6 {
        let loaded = if number == 0 {
            index().load_file(&key, StoredIndex::Missing)
        } else {
            stored(key, candidates)
        };
        candidates = index().publish(loaded, record(number)).unwrap();
    }
    let lookup = index().lookup(stored(key, candidates));
    assert_eq!(lookup.candidates.len(), MAX_DIRECT_CANDIDATES);
    assert_eq!(
        lookup.candidates.iter().map(|value| value.action_key).collect::<Vec<_>>(),
        vec![action(5), action(4), action(3), action(2)]
    );
}

#[test]
fn publishing_a_record_again_moves_it_to_the_front() {
    let key = request(1);
    let loaded = stored(key, vec![record(2), record(1)]);
    let candidates = index().publish(loaded, record(1)).unwrap();
    assert_eq!(
        candidates.iter().map(|value| value.action_key).collect::<Vec<_>>(),
        vec![action(1), action(2)]
    );
}

#[test]
fn corrupt_and_stale_indexes_are_misses() {
    let key = request(1);
    let reason = |stored: StoredIndex| index().lookup(index().load_file(&key, stored)).miss_reason;
    let file = |length: u64, schema_version: Option<u32>, file: Option<DirectIndexFile>| {
        StoredIndex::File { length, schema_version, file, payload: b"payload".to_vec() }
    };
    assert_eq!(reason(file(8, None, None)), Some(DirectMissReason::Corrupt));
    assert_eq!(
        reason(file(22, Some(999), None)),
        Some(DirectMissReason::UnsupportedSchema(999))
    );
    assert_eq!(
        reason(file(MAX_DIRECT_INDEX_SIZE as u64 + 1, Some(2), None)),
        Some(DirectMissReason::Oversized)
    );
    let other = DirectIndexFile::seal(request(2), vec![record(1)], b"payload");
    assert_eq!(
        reason(file(100, Some(2), Some(other))),
        Some(DirectMissReason::RequestKeyMismatch)
    );
}

#[test]
fn checksum_rejects_structurally_valid_direct_record_modification() {
    let key = request(1);
    let mut file = DirectIndexFile::seal(key, vec![record(1)], b"written");
    file.candidates[0].expected_artifacts[0].mode = 0o600;
    let loaded = index().load_file(
        &key,
        StoredIndex::File {
            length: 100,
            schema_version: Some(2),
            file: Some(file),
            payload: b"modified".to_vec(),
        },
    );
    assert_eq!(index().lookup(loaded).miss_reason, Some(DirectMissReason::Corrupt));
}

#[test]
fn missing_result_candidates_are_preserved_without_writing() {
    let key = request(1);
    let loaded = stored(key, vec![record(2), record(1)]);
    let lookup = index().lookup_with_manifest_check(loaded, &vec![true, false]);
    assert_eq!(lookup.candidates.len(), 1);
    assert_eq!(lookup.candidates[0].action_key, action(2));
    assert_eq!(lookup.missing_result_candidates.len(), 1);
    assert_eq!(lookup.missing_result_candidates[0].action_key, action(1));
}

#[test]
fn content_and_negative_witness_changes_fail_validation() {
    let value = input(1);
    let capture = |bytes: &[u8], inode: u64| InputCapture {
        before: Ok(witness(&source(1), WitnessFileType::Regular, inode)),
        contents: Ok(contents(bytes)),
        after: Ok(witness(&source(1), WitnessFileType::Regular, inode)),
    };
    value.validate_contents(&capture(text(1).as_bytes(), 10)).unwrap();
    assert!(matches!(
        value.validate_contents(&capture(b"program changed\nend\n", 10)),
        Err(DirectValidationError::ContentChanged(_))
    ));

    let absent = AbsentPathWitness::capture(
        b"/build/shadow.mod".to_vec(),
        witness("/build", WitnessFileType::Directory, 5),
    );
    let ancestor = || Ok(witness("/build", WitnessFileType::Directory, 5));
    absent.validate(&AbsentCapture { ancestor: ancestor(), absence: Ok(()) }).unwrap();
    assert!(matches!(
        absent.validate(&AbsentCapture {
            ancestor: ancestor(),
            absence: Err("the path exists".to_string()),
        }),
        Err(DirectValidationError::NegativeCandidateChanged { .. })
    ));
}

#[test]
fn unrelated_directory_entries_do_not_invalidate_search_root_identity() {
    let directory = witness("/build", WitnessFileType::Directory, 5);
    let mut touched = directory.clone();
    touched.metadata.modified_seconds = 99;
    touched.metadata.size = 99;
    directory.validate(WitnessFileType::Directory, &Ok(touched)).unwrap();
}

#[test]
fn recreated_search_root_keeps_exact_absence_witness_valid() {
    let directory = witness("/build/modules", WitnessFileType::Directory, 5);
    let recreated = witness("/build/modules", WitnessFileType::Directory, 6);
    directory.validate(WitnessFileType::Directory, &Ok(recreated.clone())).unwrap();
    let absent = AbsentPathWitness::capture(b"/build/modules/wanted.mod".to_vec(), directory);
    absent.validate(&AbsentCapture { ancestor: Ok(recreated), absence: Ok(()) }).unwrap();
}

#[test]
fn same_content_atomic_input_replacement_remains_valid() {
    let replaced = witness(&source(1), WitnessFileType::Regular, 77);
    input(1)
        .validate_contents(&InputCapture {
            before: Ok(replaced.clone()),
            contents: Ok(contents(text(1).as_bytes())),
            after: Ok(replaced),
        })
        .unwrap();
}

#[test]
fn symlink_retargeting_fails_revalidation() {
    let mut retargeted = witness(&source(1), WitnessFileType::Regular, 10);
    retargeted.canonical_path = EncodedOsString::from_path(b"/build/second");
    let outcome = input(1).validate_contents(&InputCapture {
        before: Ok(retargeted.clone()),
        contents: Ok(contents(text(1).as_bytes())),
        after: Ok(retargeted),
    });
    assert!(matches!(outcome, Err(DirectValidationError::WitnessChanged(_))));
}

#[test]
fn validation_token_rechecks_after_staging_window() {
    let value = record(1);
    let capture = |bytes: &[u8]| RecordCapture {
        roots: vec![Ok(witness("/build", WitnessFileType::Directory, 5))],
        inputs: vec![InputCapture {
            before: Ok(witness(&source(1), WitnessFileType::Regular, 10)),
            contents: Ok(contents(bytes)),
            after: Ok(witness(&source(1), WitnessFileType::Regular, 10)),
        }],
        positive: Vec::new(),
        negative: Vec::new(),
    };
    let validated = value.validate_filesystem(&capture(text(1).as_bytes())).unwrap();
    assert_eq!(validated.record().action_key, action(1));
    assert!(validated.revalidate(&capture(b"changed")).is_err());
}

#[test]
fn records_of_another_shape_are_rejected() {
    let mut value = record(1);
    value.schema_version = 1;
    assert_eq!(
        value.validate_schema(),
        Err(DirectRecordError::UnsupportedRecordSchema(1))
    );
    let mut value = record(1);
    value.inputs.clear();
    assert_eq!(value.validate_schema(), Err(DirectRecordError::InvalidInputCount));
    let mut value = record(1);
    value.expected_artifacts.clear();
    assert_eq!(value.validate_schema(), Err(DirectRecordError::InvalidArtifactCount));
    let mut value = record(1);
    value.inputs[0].raw_path = EncodedOsString::from_os_str(b"a\0b");
    assert_eq!(value.validate_schema(), Err(DirectRecordError::NulPath));
    assert_eq!(record(1).validate_schema(), Ok(()));
}

#[test]
fn oversized_or_broken_indexes_are_not_written() {
    let file = DirectIndexFile::seal(request(1), vec![record(1)], b"payload");
    assert_eq!(file.to_json(b"payload", Ok(b"text".to_vec())), Ok(b"text".to_vec()));
    assert_eq!(
        file.to_json(b"another payload", Ok(b"text".to_vec())),
        Err(DirectIndexError::TooLarge)
    );
    assert_eq!(
        file.to_json(b"payload", Ok(vec![b' '; 4 * 1024 * 1024 + 1])),
        Err(DirectIndexError::TooLarge)
    );
    assert_eq!(
        file.to_json(b"payload", Err("broken".to_string())),
        Err(DirectIndexError::Json("broken".to_string()))
    );
}

#[test]
fn invalid_records_are_not_indexed() {
    let mut value = record(1);
    value.inputs.clear();
    let loaded = index().load_file(&request(1), StoredIndex::Missing);
    let error = index().publish(loaded, value).unwrap_err();
    assert_eq!(error, DirectIndexError::Record(DirectRecordError::InvalidInputCount));
    assert_eq!(
        error.message(),
        "invalid direct record: direct record has an invalid input count"
    );
    assert_eq!(
        DirectRecordError::InvalidInputCount.message(),
        "direct record has an invalid input count"
    );
    assert_eq!(
        DirectValidationError::<Vec<u8>, String>::WitnessChanged(b"/x".to_vec()).message(),
        "witnessed path changed: /x"
    );
    assert_eq!(
        DirectValidationError::<Vec<u8>, String>::PathChanged {
            path: b"/x".to_vec(),
            source: "gone".to_string(),
        }
        .message(),
        "could not validate witnessed path /x: gone"
    );
    assert_eq!(
        DirectRecordError::UnsupportedRecordSchema(4294967295).message(),
        "unsupported direct record schema version 4294967295"
    );
}
