use fcache::cache::request::Pair;
use fcache::compiler::fingerprint::{
    CompilerFingerprint, FingerprintContext, FingerprintError, FingerprintObservation,
    QueryOutputs, ResolutionObservation,
};
use fcache::compiler::identity::{
    capture_path_nodes, context_key, node_paths, CompilerIdentityCache, IdentityError,
    IdentityFacts, IdentityMode, IdentityRecord, LookupEvent, LookupStep, MetadataWitness,
    NodeFacts, ResolutionFacts, ToolCapture, ToolFacts, ToolMetadata, ToolWitness,
    ValidatedCompilerIdentity, MAX_RECORD_SIZE,
};
use fcache::compiler::trust::{
    decode_mount_path, filesystems_are_trustworthy, trusted_mountpoints,
};

fn context(pairs: &[(&str, &str)]) -> FingerprintContext {
    FingerprintContext::new(
        b"gfortran".to_vec(),
        b"/tmp".to_vec(),
        pairs
            .iter()
            .map(|(name, value)| Pair {
                name: name.as_bytes().to_vec(),
                value: value.as_bytes().to_vec(),
            })
            .collect(),
    )
}

fn metadata(inode: u64) -> MetadataWitness {
    MetadataWitness {
        device: 1,
        inode,
        mode: 0o100755,
        size: 9,
        modified_seconds: 5,
        modified_nanoseconds: 0,
        changed_seconds: 5,
        changed_nanoseconds: 0,
    }
}

fn found(inode: u64) -> ToolMetadata {
    ToolMetadata { is_file: true, metadata: metadata(inode) }
}

fn tool(path: &str, inode: u64) -> ToolWitness {
    let paths = node_paths(path.as_bytes());
    let facts = paths.iter().map(|_| NodeFacts { metadata: metadata(inode), target: None }).collect();
    let nodes = capture_path_nodes(&paths, &facts).unwrap();
    ToolWitness::capture(
        path.as_bytes(),
        [7; 32],
        ToolCapture {
            canonical: Ok(path.as_bytes().to_vec()),
            before: Ok(found(inode)),
            nodes: Ok(nodes),
            digest: Ok([7; 32]),
            after: Ok(found(inode)),
        },
    )
    .unwrap()
}

fn resolution(path: &str, earlier: &[&str]) -> ResolutionObservation {
    ResolutionObservation {
        selected: path.as_bytes().to_vec(),
        earlier_absent: earlier.iter().map(|path| path.as_bytes().to_vec()).collect(),
    }
}

fn record(key: &str) -> IdentityRecord {
    let output = || b"text".to_vec();
    let observation = FingerprintObservation {
        fingerprint: CompilerFingerprint {
            digest: [3; 32],
            driver: b"/opt/gfortran".to_vec(),
            f951: b"/opt/f951".to_vec(),
            assembler: b"/opt/as".to_vec(),
            major_version: 16,
        },
        driver_resolution: resolution("/opt/gfortran", &["/early/gfortran"]),
        f951_resolution: resolution("/opt/f951", &[]),
        assembler_resolution: resolution("/opt/as", &[]),
        specs_path: None,
        specs_absent: vec![b"/opt/specs".to_vec()],
        specs_resolution_complete: true,
        tool_content_digests: Vec::new(),
        query_outputs: QueryOutputs {
            f951: output(),
            assembler: output(),
            version: output(),
            numeric_version: output(),
            target: output(),
            search_dirs: output(),
            specs_name: output(),
            specs: output(),
        },
    };
    let tools = vec![tool("/opt/gfortran", 1), tool("/opt/f951", 2), tool("/opt/as", 3)];
    IdentityRecord::from_observation(key.to_string(), observation, tools).seal(b"canonical")
}

fn tool_facts(path: &str, inode: u64) -> ToolFacts {
    ToolFacts {
        canonical: Ok(path.as_bytes().to_vec()),
        metadata: Ok(found(inode)),
        nodes: vec![Ok(NodeFacts { metadata: metadata(inode), target: None })],
        digest: Ok([7; 32]),
    }
}

fn facts() -> IdentityFacts {
    let here = |earlier: Vec<Result<bool, String>>| ResolutionFacts { earlier, selected: true };
    IdentityFacts {
        canonical: Ok(b"canonical".to_vec()),
        driver: here(vec![Ok(false)]),
        f951: here(Vec::new()),
        assembler: here(Vec::new()),
        devices: vec![Some(1), Some(1), Some(1)],
        trusted: vec![Some(1)],
        tools: vec![
            tool_facts("/opt/gfortran", 1),
            tool_facts("/opt/f951", 2),
            tool_facts("/opt/as", 3),
        ],
        specs_absent: vec![Ok(false)],
    }
}

fn cache(read_only: bool) -> CompilerIdentityCache {
    CompilerIdentityCache::new(b"/cache", read_only)
}

fn load(record: IdentityRecord, facts: &IdentityFacts) -> Option<ValidatedCompilerIdentity> {
    cache(false).try_load(&"key".to_string(), 100, record, facts)
}

#[test]
fn context_key_preserves_environment_order_and_bytes() {
    let first = context(&[("A", "1"), ("B", "2")]);
    let second = context(&[("B", "2"), ("A", "1")]);
    assert_ne!(context_key(&first), context_key(&second));
    assert_ne!(context_key(&context(&[("A", "1B")])), context_key(&context(&[("A1", "B")])));
    assert_eq!(context_key(&first).len(), 64);
}

#[test]
fn auto_reuses_a_valid_record_without_compiler_queries_on_supported_filesystems() {
    assert_eq!(cache(false).lookup(IdentityMode::Auto, LookupEvent::Begun), LookupStep::Load);
    let identity = load(record("key"), &facts()).unwrap();
    assert!(identity.was_reused());
    assert_eq!(identity.fingerprint().major_version, 16);
    assert_eq!(identity.fingerprint().driver, b"/opt/gfortran");
    assert_eq!(
        cache(false).lookup(IdentityMode::Auto, LookupEvent::Loaded(true)),
        LookupStep::Reuse
    );

    let untrusted = IdentityFacts { trusted: vec![Some(9)], ..facts() };
    assert!(load(record("key"), &untrusted).is_none());
    assert_eq!(
        record("key").validate(true, &untrusted),
        Err(IdentityError::Untrusted)
    );
    assert_eq!(record("key").validate(false, &untrusted), Ok(()));
}

#[test]
fn strict_always_executes_the_full_fingerprint() {
    let cache = cache(false);
    assert_eq!(cache.lookup(IdentityMode::Strict, LookupEvent::Begun), LookupStep::Lock);
    assert_eq!(
        cache.lookup(IdentityMode::Strict, LookupEvent::Locked(true)),
        LookupStep::Fingerprint { publish: true }
    );
    assert_eq!(
        cache.lookup(IdentityMode::Strict, LookupEvent::Locked(false)),
        LookupStep::Fingerprint { publish: false }
    );
    assert_eq!(IdentityMode::default(), IdentityMode::Auto);
}

#[test]
fn changed_tool_metadata_invalidates_auto_reuse() {
    let mut changed = facts();
    changed.tools[1] = tool_facts("/opt/f951", 8);
    assert!(load(record("key"), &changed).is_none());
    assert_eq!(record("key").validate(true, &changed), Err(IdentityError::MetadataChanged));
    let mut moved = facts();
    moved.tools[1].canonical = Ok(b"/elsewhere/f951".to_vec());
    assert_eq!(record("key").validate(true, &moved), Err(IdentityError::CanonicalChanged));
    let mut linked = facts();
    linked.tools[1].nodes =
        vec![Ok(NodeFacts { metadata: metadata(2), target: Some(b"f".to_vec()) })];
    assert_eq!(record("key").validate(true, &linked), Err(IdentityError::LinkChanged));
}

#[test]
fn newly_appearing_external_specs_candidate_invalidates_auto_reuse() {
    let appeared = IdentityFacts { specs_absent: vec![Ok(true)], ..facts() };
    assert!(load(record("key"), &appeared).is_none());
    assert_eq!(record("key").validate(true, &appeared), Err(IdentityError::SpecsAppeared));
}

#[test]
fn same_size_rewrite_with_restored_mtime_still_invalidates_reuse() {
    let mut rewritten = facts();
    rewritten.tools[1].metadata = Ok(ToolMetadata {
        is_file: true,
        metadata: MetadataWitness { changed_seconds: 6, ..metadata(2) },
    });
    assert!(load(record("key"), &rewritten).is_none());
}

#[test]
fn newly_appearing_earlier_path_candidate_invalidates_reuse() {
    let appeared = IdentityFacts {
        driver: ResolutionFacts { earlier: vec![Ok(true)], selected: true },
        ..facts()
    };
    assert!(load(record("key"), &appeared).is_none());
    assert_eq!(record("key").validate(true, &appeared), Err(IdentityError::ToolAppeared));
    let gone = IdentityFacts {
        driver: ResolutionFacts { earlier: vec![Ok(false)], selected: false },
        ..facts()
    };
    assert_eq!(record("key").validate(true, &gone), Err(IdentityError::ToolDisappeared));
}

#[test]
fn read_only_consumes_records_but_does_not_publish() {
    let cache = cache(true);
    assert_eq!(cache.lookup(IdentityMode::Auto, LookupEvent::Begun), LookupStep::Load);
    assert_eq!(
        cache.lookup(IdentityMode::Auto, LookupEvent::Loaded(false)),
        LookupStep::Fingerprint { publish: false }
    );
    assert_eq!(
        cache.lookup(IdentityMode::Auto, LookupEvent::Loaded(true)),
        LookupStep::Reuse
    );
    assert_eq!(
        cache.lookup(IdentityMode::Strict, LookupEvent::Begun),
        LookupStep::Fingerprint { publish: false }
    );
}

#[test]
fn corrupt_and_oversized_records_fall_back_to_full_fingerprint() {
    let cache = cache(false);
    assert!(cache
        .try_load(&"key".to_string(), MAX_RECORD_SIZE + 1, record("key"), &facts())
        .is_none());
    assert!(cache.try_load(&"other".to_string(), 100, record("key"), &facts()).is_none());
    assert_eq!(
        cache.lookup(IdentityMode::Auto, LookupEvent::Loaded(false)),
        LookupStep::Lock
    );
    assert!(cache.may_publish(MAX_RECORD_SIZE));
    assert!(!cache.may_publish(MAX_RECORD_SIZE + 1));
}

#[test]
fn checksum_rejects_a_structurally_valid_modified_record() {
    let mut modified = record("key");
    modified.major_version = 99;
    let written = IdentityFacts { canonical: Ok(b"modified".to_vec()), ..facts() };
    assert!(load(modified, &written).is_none());
    assert_eq!(record("key").validate(true, &written), Err(IdentityError::Checksum));
    assert_eq!(record("key").checksum, *blake3::hash(b"canonical").as_bytes());
}

#[test]
fn context_lock_coalesces_concurrent_initial_fingerprints() {
    let cache = cache(false);
    assert_eq!(
        cache.lookup(IdentityMode::Auto, LookupEvent::Locked(true)),
        LookupStep::LoadLocked
    );
    assert_eq!(
        cache.lookup(IdentityMode::Auto, LookupEvent::LoadedLocked(true)),
        LookupStep::Reuse
    );
    assert_eq!(
        cache.lookup(IdentityMode::Auto, LookupEvent::LoadedLocked(false)),
        LookupStep::Fingerprint { publish: true }
    );
}

#[test]
fn revalidation_detects_tool_mutation() {
    let identity = ValidatedCompilerIdentity::new(record("key"), false);
    assert!(identity.revalidate(&facts()).is_ok());
    let mut mutated = IdentityFacts { trusted: Vec::new(), ..facts() };
    mutated.tools[2].digest = Ok([8; 32]);
    assert!(matches!(
        identity.revalidate(&mutated),
        Err(FingerprintError::InvalidRecord(text)) if text == "compiler tool contents changed"
    ));
    let mut rewritten = facts();
    if let Ok(found) = &mut rewritten.tools[1].metadata {
        found.metadata.modified_nanoseconds += 1;
    }
    assert!(matches!(
        identity.revalidate(&rewritten),
        Err(FingerprintError::InvalidRecord(text)) if text == "compiler tool metadata changed"
    ));
    assert!(identity.revalidate(&facts()).is_ok());
    assert_eq!(identity.context_digest(), *blake3::hash(b"key").as_bytes());
    assert_eq!(identity.into_fingerprint().digest, [3; 32]);
}

#[test]
fn records_without_their_witnesses_are_refused() {
    let mut short = record("key");
    short.tools.pop();
    assert_eq!(short.validate(true, &facts()), Err(IdentityError::MissingTool));
    let mut specs = record("key");
    specs.specs_path = Some(b"/opt/other-specs".to_vec());
    assert_eq!(specs.validate(true, &facts()), Err(IdentityError::MissingSpecs));
    let mut open = record("key");
    open.specs_resolution_complete = false;
    assert_eq!(open.validate(true, &facts()), Err(IdentityError::IncompleteSpecs));
    assert_eq!(open.validate(false, &facts()), Ok(()));
    let mut old = record("key");
    old.schema = 1;
    assert_eq!(old.validate(true, &facts()), Err(IdentityError::Unsupported));
    let mut wide = record("key");
    wide.specs_absent = vec![b"x".to_vec(); 257];
    assert!(!wide.is_bounded());
    assert_eq!(
        record("key").validate(true, &IdentityFacts { tools: Vec::new(), ..facts() }),
        Err(IdentityError::MissingFact)
    );
}

#[test]
fn tools_that_change_while_they_are_captured_have_no_witness() {
    let capture = |digest: u8, after: u64| ToolCapture {
        canonical: Ok(b"/opt/as".to_vec()),
        before: Ok(found(1)),
        nodes: Ok(Vec::new()),
        digest: Ok([digest; 32]),
        after: Ok(found(after)),
    };
    assert!(ToolWitness::capture(b"/opt/as", [7; 32], capture(7, 1)).is_ok());
    assert!(ToolWitness::capture(b"/opt/as", [7; 32], capture(8, 1)).is_err());
    assert!(ToolWitness::capture(b"/opt/as", [7; 32], capture(7, 2)).is_err());
}

#[test]
fn paths_are_witnessed_by_their_links_and_their_end() {
    let paths = node_paths(b"/opt/link/as");
    assert_eq!(
        paths,
        vec![b"/".to_vec(), b"/opt".to_vec(), b"/opt/link".to_vec(), b"/opt/link/as".to_vec()]
    );
    let plain = || NodeFacts { metadata: metadata(1), target: None };
    let facts =
        vec![plain(), plain(), NodeFacts { target: Some(b"real".to_vec()), ..plain() }, plain()];
    let nodes = capture_path_nodes(&paths, &facts).unwrap();
    assert_eq!(nodes.len(), 2);
    assert_eq!(nodes[0].path, b"/opt/link");
    assert_eq!(nodes[0].symlink_target, Some(b"real".to_vec()));
    assert_eq!(nodes[1].path, b"/opt/link/as");
}

#[test]
fn only_local_filesystems_are_trusted() {
    assert_eq!(decode_mount_path(b"/mnt/a\\040b"), b"/mnt/a b");
    let table = b"22 1 8:1 / / rw - ext4 /dev/sda1 rw\n23 1 0:5 / /net rw - nfs server:/ rw\n";
    let paths = trusted_mountpoints(table);
    assert!(paths.contains(&b"/".to_vec()));
    assert!(!paths.contains(&b"/net".to_vec()));
    assert!(filesystems_are_trustworthy(&vec![Some(1)], &vec![Some(2), Some(1)]));
    assert!(!filesystems_are_trustworthy(&vec![Some(1), Some(3)], &vec![Some(1)]));
    assert!(!filesystems_are_trustworthy(&vec![None], &vec![Some(1)]));
}

#[test]
fn identity_files_are_named_by_their_key() {
    let cache = cache(false);
    assert_eq!(cache.record_path("key"), b"/cache/v1/compiler-identities/records/key.json");
    assert_eq!(cache.lock_path("key"), b"/cache/v1/compiler-identities/locks/key.lock");
    assert_eq!(cache.directories().len(), 3);
}
