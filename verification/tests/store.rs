use fcache::cache::key::{ActionKey, ActionKeyBuilder};
use fcache::cache::manifest::{
    Artifact, ArtifactKind, BlobRef, DestinationRole, Manifest, ManifestError, MAX_JSON_SIZE,
};
use fcache::cache::restore::{
    backup_destination, check_destination, plan_commit, plan_rollback, preserved_if_unchanged,
    restore_role_order, validate_restore_contract, CommitStep, DestinationFacts,
    RestoreDestinations, RestoreFacts, StagedArtifact,
};
use fcache::cache::snapshot::FileTimestamp;
use fcache::cache::store::{
    blobs_to_verify, manifest_blobs, reference_to, require_real_directory, same_manifest,
    validate_area, validate_existing_cache_directory, validate_existing_directories, CacheError,
    CacheStore, ExpectedDirectory, FileBytes, ManifestFacts, PathState, Publication, StoredBlob,
    StoredManifest,
};
use fcache::cache::trim::{
    is_later, is_result_name, moment_before, newest_first, FoundBlob, FoundResult, Grace,
    StoredResult, TrimFacts,
};

fn store() -> CacheStore {
    CacheStore::new(b"/cache".to_vec())
}

fn key() -> ActionKey {
    ActionKeyBuilder::new().bytes("x", b"y").finish().unwrap()
}

fn artifact(kind: ArtifactKind, name: &str, role: DestinationRole, bytes: &[u8]) -> Artifact {
    Artifact::new(kind, name, role, reference_to(bytes, 0o644))
}

fn bundle(artifacts: Vec<Artifact>) -> Manifest {
    let diagnostics = reference_to(b"", 0o644);
    Manifest::new(key(), "a".repeat(64), artifacts, diagnostics.clone(), diagnostics)
}

fn object_and_module() -> Manifest {
    bundle(vec![
        artifact(ArtifactKind::Object, "object", DestinationRole::Object, b"object"),
        artifact(ArtifactKind::Module, "module:x.mod", DestinationRole::Module, b"module"),
    ])
}

fn areas(area: &str) -> Vec<ExpectedDirectory> {
    store()
        .area_directories(area)
        .into_iter()
        .map(|path| ExpectedDirectory { path, state: PathState::Directory })
        .collect()
}

fn found(conflict: bool, existing: StoredManifest) -> ManifestFacts {
    ManifestFacts {
        results: areas("results"),
        conflicts: areas("conflicts"),
        conflict,
        shard: PathState::Directory,
        existing,
    }
}

fn read(parsed: Result<Manifest, String>) -> StoredManifest {
    StoredManifest::Read { length: 100, parsed }
}

fn bundle_blobs() -> Vec<StoredBlob> {
    vec![stored(b"object"), stored(b"module"), stored(b""), stored(b"")]
}

fn stored(contents: &[u8]) -> StoredBlob {
    StoredBlob {
        areas: areas("blobs"),
        shard: PathState::Directory,
        file: PathState::File,
        contents: FileBytes::Read(contents.to_vec()),
    }
}

fn place(path: &str) -> DestinationFacts {
    DestinationFacts {
        cwd: Ok(b"/work".to_vec()),
        canonical: Some(path.as_bytes().to_vec()),
        canonical_parent: Some(b"/work".to_vec()),
    }
}

#[test]
fn corrupted_blob_is_reported() {
    let reference = reference_to(b"good", 0o644);
    assert_eq!(reference.digest, blake3::hash(b"good").to_hex().to_string());
    assert_eq!(reference.size, 4);
    assert!(matches!(
        store().read_blob(&reference, stored(b"bad")),
        Err(CacheError::Corrupt(_))
    ));
    assert!(matches!(
        store().verify_blob(&reference, &stored(b"gooo")),
        Err(CacheError::Corrupt(_))
    ));
    assert_eq!(store().read_blob(&reference, stored(b"good")).unwrap(), b"good");
}

#[test]
fn absent_or_unreadable_blobs_are_told_apart() {
    let reference = reference_to(b"good", 0o644);
    let missing = StoredBlob { file: PathState::Missing("gone".to_string()), ..stored(b"") };
    assert!(matches!(store().read_blob(&reference, missing), Err(CacheError::Miss)));
    let unread = StoredBlob { contents: FileBytes::Unreadable("io".to_string()), ..stored(b"") };
    assert!(matches!(store().read_blob(&reference, unread), Err(CacheError::Io(_))));
    let odd = BlobRef::new("zz".to_string(), 0, 0o644);
    assert!(matches!(store().read_blob(&odd, stored(b"")), Err(CacheError::Manifest(_))));
}

#[test]
fn identical_modules_are_not_replaced() {
    assert!(preserved_if_unchanged(ArtifactKind::Module));
    assert!(!preserved_if_unchanged(ArtifactKind::Object));
    let steps = plan_commit(&vec![StagedArtifact {
        role: DestinationRole::Module,
        unchanged: true,
    }]);
    assert!(steps.is_empty());
}

#[test]
fn preparation_rejects_duplicate_destinations_and_role_mismatches() {
    let manifest = object_and_module();
    let mut destinations = RestoreDestinations::new();
    destinations.insert_with_role("object", DestinationRole::Object, b"/work/shared");
    destinations.insert_with_role("module:x.mod", DestinationRole::Module, b"/work/shared");
    let facts = vec![place("/work/shared"), place("/work/shared")];
    assert!(matches!(
        validate_restore_contract(&manifest, &destinations, true, &facts),
        Err(CacheError::DuplicateDestination(_))
    ));

    destinations.insert_with_role("module:x.mod", DestinationRole::Dependency, b"/work/x.mod");
    let facts = vec![place("/work/shared"), place("/work/x.mod")];
    assert!(matches!(
        validate_restore_contract(&manifest, &destinations, true, &facts),
        Err(CacheError::DestinationRoleMismatch(name)) if name == "module:x.mod"
    ));
}

#[test]
fn every_artifact_needs_a_destination_and_no_other() {
    let manifest = object_and_module();
    let facts = || vec![place("/work/x.o"), place("/work/x.mod")];
    let mut destinations = RestoreDestinations::new();
    destinations.insert_with_role("object", DestinationRole::Object, b"/work/x.o");
    assert!(matches!(
        validate_restore_contract(&manifest, &destinations, true, &facts()),
        Err(CacheError::MissingDestination(name)) if name == "module:x.mod"
    ));
    destinations.insert_with_role("module:x.mod", DestinationRole::Module, b"/work/x.mod");
    assert!(validate_restore_contract(&manifest, &destinations, true, &facts()).is_ok());
    destinations.insert_with_role("module:y.mod", DestinationRole::Module, b"/work/y.mod");
    assert!(matches!(
        validate_restore_contract(&manifest, &destinations, true, &facts()),
        Err(CacheError::UnexpectedDestination(name)) if name == "module:y.mod"
    ));
}

#[test]
fn the_last_destination_of_a_name_counts() {
    let mut destinations = RestoreDestinations::new();
    destinations.insert("object", b"/work/first.o");
    destinations.insert_with_role("object", DestinationRole::Object, b"/work/second.o");
    let found = destinations.get(&"object".to_string()).unwrap();
    assert_eq!(found.path, b"/work/second.o");
    assert_eq!(found.role, Some(DestinationRole::Object));
    assert!(destinations.get(&"other".to_string()).is_none());
}

#[test]
fn failed_object_commit_rolls_back_earlier_artifacts() {
    let staged = vec![
        StagedArtifact { role: DestinationRole::Object, unchanged: false },
        StagedArtifact { role: DestinationRole::Dependency, unchanged: false },
        StagedArtifact { role: DestinationRole::Module, unchanged: false },
    ];
    let steps = plan_commit(&staged);
    assert_eq!(
        steps,
        vec![
            CommitStep::Backup(0),
            CommitStep::Remove(0),
            CommitStep::Backup(1),
            CommitStep::Install(1),
            CommitStep::Backup(2),
            CommitStep::Install(2),
            CommitStep::Install(0),
        ]
    );
    assert_eq!(plan_rollback(&steps, 6), vec![0, 2, 1]);
    assert_eq!(plan_rollback(&steps, 0), Vec::<usize>::new());

    let old = ["old object", "old dependency", "old module"];
    let new = ["new object", "new dependency", "new module"];
    let mut places: Vec<Option<&str>> = old.iter().map(|text| Some(*text)).collect();
    let mut backups: Vec<Option<&str>> = vec![None; 3];
    for step in &steps[..6] {
        match step {
            CommitStep::Backup(at) => backups[*at] = places[*at],
            CommitStep::Remove(at) => places[*at] = None,
            CommitStep::Install(at) => places[*at] = Some(new[*at]),
        }
    }
    assert_eq!(places, vec![None, Some("new dependency"), Some("new module")]);
    for at in plan_rollback(&steps, 6) {
        places[at] = backups[at];
    }
    assert_eq!(places, vec![Some("old object"), Some("old dependency"), Some("old module")]);
}

#[test]
fn the_object_is_restored_last() {
    assert!(
        restore_role_order(&DestinationRole::Dependency)
            < restore_role_order(&DestinationRole::Module)
    );
    assert!(
        restore_role_order(&DestinationRole::Submodule)
            < restore_role_order(&DestinationRole::Object)
    );
}

#[test]
fn destinations_are_files_or_absent() {
    let path = b"/work/x.o";
    assert!(check_destination(path, &PathState::File).is_ok());
    assert!(check_destination(path, &PathState::Missing("gone".to_string())).is_ok());
    assert!(matches!(
        check_destination(path, &PathState::Symlink),
        Err(CacheError::SymlinkDestination(_))
    ));
    assert!(backup_destination(path, &PathState::File).unwrap());
    assert!(!backup_destination(path, &PathState::Missing("gone".to_string())).unwrap());
}

#[test]
fn rejects_symlinked_cache_directories() {
    assert!(matches!(
        require_real_directory(b"/cache", &PathState::Symlink),
        Err(CacheError::InvalidCacheDirectory(path)) if path == b"/cache"
    ));
    let areas = vec![
        ExpectedDirectory { path: b"/cache".to_vec(), state: PathState::Directory },
        ExpectedDirectory { path: b"/cache/v1".to_vec(), state: PathState::File },
    ];
    assert!(matches!(
        validate_area(&areas),
        Err(CacheError::InvalidCacheDirectory(path)) if path == b"/cache/v1"
    ));
    assert!(!validate_existing_cache_directory(
        b"/cache/v1",
        &PathState::Missing("gone".to_string())
    )
    .unwrap());
}

#[test]
fn rejects_symlinked_cache_shards_on_read() {
    let action = ActionKey::from_bytes([0xab; 32]);
    let outcome = store().load_manifest_metadata(
        &action,
        ManifestFacts { shard: PathState::Symlink, ..found(false, StoredManifest::Missing) },
    );
    assert!(matches!(
        outcome,
        Err(CacheError::InvalidCacheDirectory(path)) if path == b"/cache/v1/results/ab"
    ));

    let blob = BlobRef::new(format!("cd{}", "0".repeat(62)), 0, 0o644);
    let linked = StoredBlob { shard: PathState::Symlink, ..stored(b"") };
    assert!(matches!(
        store().read_blob(&blob, linked),
        Err(CacheError::InvalidCacheDirectory(path)) if path == b"/cache/v1/blobs/cd"
    ));
}

#[test]
fn a_result_is_published_once() {
    let manifest = object_and_module();
    let publish = |conflict: bool, existing: StoredManifest| {
        store().publish_manifest(&manifest, found(conflict, existing), &bundle_blobs())
    };
    assert!(matches!(publish(false, StoredManifest::Missing), Publication::Install));
    assert!(matches!(
        publish(false, read(Ok(object_and_module()))),
        Publication::Unchanged
    ));
    let mut other = object_and_module();
    other.artifacts.pop();
    assert!(!same_manifest(&manifest, &other));
    assert!(matches!(
        publish(false, read(Ok(other))),
        Publication::Conflict { mark: true }
    ));
    assert!(matches!(
        publish(true, StoredManifest::Missing),
        Publication::Conflict { mark: false }
    ));
    assert!(matches!(
        publish(false, StoredManifest::Symlink),
        Publication::Refused(CacheError::SymlinkCacheFile(_))
    ));
    assert!(matches!(
        publish(false, StoredManifest::Unreadable("io".to_string())),
        Publication::Refused(CacheError::Io(_))
    ));
    let mut broken = object_and_module();
    broken.compiler_digest = "x".to_string();
    assert!(matches!(
        store().publish(&broken, found(false, StoredManifest::Missing), &bundle_blobs()),
        Publication::Refused(CacheError::Manifest(_))
    ));
    assert!(matches!(
        store().confirm_publication(b"mine", &FileBytes::Read(b"theirs".to_vec())),
        Publication::Conflict { mark: true }
    ));
}

#[test]
fn a_result_is_published_only_with_its_content() {
    let manifest = object_and_module();
    let publish = |blobs: Vec<StoredBlob>| {
        store().publish_manifest(&manifest, found(false, StoredManifest::Missing), &blobs)
    };
    assert_eq!(manifest_blobs(&manifest).len(), 4);
    assert!(matches!(publish(bundle_blobs()), Publication::Install));
    let mut blobs = bundle_blobs();
    blobs[1] = stored(b"other!");
    assert!(matches!(publish(blobs), Publication::Refused(CacheError::Corrupt(_))));
    let mut blobs = bundle_blobs();
    blobs[3].file = PathState::Missing("gone".to_string());
    assert!(matches!(publish(blobs), Publication::Refused(CacheError::Miss)));
    let mut blobs = bundle_blobs();
    blobs.pop();
    assert!(matches!(publish(blobs), Publication::Refused(CacheError::Miss)));
    let mut facts = found(false, StoredManifest::Missing);
    facts.results[2].state = PathState::Symlink;
    assert!(matches!(
        store().publish_manifest(&manifest, facts, &bundle_blobs()),
        Publication::Refused(CacheError::InvalidCacheDirectory(path))
            if path == b"/cache/v1/results"
    ));
}

#[test]
fn results_in_conflict_are_never_used() {
    let manifest = object_and_module();
    let load = |conflict: bool, existing: StoredManifest| {
        store().load_manifest_metadata(&key(), found(conflict, existing))
    };
    assert_eq!(
        load(false, read(Ok(object_and_module()))).unwrap(),
        Some(manifest)
    );
    assert_eq!(load(true, read(Ok(object_and_module()))).unwrap(), None);
    assert_eq!(load(false, StoredManifest::Missing).unwrap(), None);
    assert!(matches!(
        load(false, read(Err("broken".to_string()))),
        Err(CacheError::Corrupt(_))
    ));
    let mut foreign = object_and_module();
    foreign.action_key = ActionKey::from_bytes([1; 32]);
    assert!(matches!(
        load(false, read(Ok(foreign))),
        Err(CacheError::Corrupt(text)) if text == "action key does not match result path"
    ));
}

#[test]
fn only_valid_manifests_are_loaded() {
    let load = |existing: StoredManifest| {
        store().load(&key(), found(false, existing), &bundle_blobs())
    };
    assert_eq!(load(read(Ok(object_and_module()))).unwrap(), Some(object_and_module()));
    let mut failed = object_and_module();
    failed.exit_code = 1;
    assert_eq!(
        load(read(Ok(failed.clone()))),
        Err(CacheError::Corrupt("manifest must describe a successful compilation".to_string()))
    );
    let mut nameless = object_and_module();
    nameless.compiler_digest = String::new();
    assert_eq!(
        load(read(Ok(nameless))),
        Err(CacheError::Corrupt("invalid blob digest".to_string()))
    );
    let long =
        StoredManifest::Read { length: MAX_JSON_SIZE + 1, parsed: Ok(object_and_module()) };
    assert_eq!(
        load(long),
        Err(CacheError::Corrupt("manifest JSON is too large".to_string()))
    );
    assert_eq!(
        load(read(Err("expected value".to_string()))),
        Err(CacheError::Corrupt("invalid manifest JSON: expected value".to_string()))
    );
    assert!(matches!(
        store().publish(&object_and_module(), found(false, read(Ok(failed.clone()))), &bundle_blobs()),
        Publication::Refused(CacheError::Corrupt(_))
    ));
    let invalid = FoundResult {
        modified: at(1, 0),
        result: Ok(StoredResult { length: 9, parsed: Ok(failed) }),
    };
    let facts = trim_facts(vec![invalid], Vec::new());
    assert_eq!(store().trim_to_size(1000, &facts).unwrap().results, vec![0]);
}

#[test]
fn cache_errors_say_what_is_wrong() {
    let texts = [
        (CacheError::Miss, "cache miss"),
        (
            CacheError::Manifest(ManifestError::UnsafeName("../x".to_string())),
            "manifest error: unsafe logical destination ../x",
        ),
        (CacheError::Io("denied".to_string()), "I/O error: denied"),
        (
            CacheError::InvalidCacheDirectory(b"/cache/v1".to_vec()),
            "cache-owned path is not a real directory: /cache/v1",
        ),
        (
            CacheError::SymlinkDestination(b"/x\xff".to_vec()),
            "destination is a symlink: /x\u{fffd}",
        ),
        (
            CacheError::MissingDestination("object".to_string()),
            "missing destination for artifact object",
        ),
    ];
    for (error, text) in texts {
        assert_eq!(error.message(), text);
    }
}

#[test]
fn a_result_is_loaded_only_with_its_content() {
    let facts = || found(false, read(Ok(object_and_module())));
    let whole = vec![stored(b"object"), stored(b"module"), stored(b"")];
    assert_eq!(store().load(&key(), facts(), &whole).unwrap(), Some(object_and_module()));
    assert_eq!(store().get(&key(), facts(), &whole).unwrap(), Some(object_and_module()));
    let broken = vec![stored(b"object"), stored(b"nodule"), stored(b"")];
    assert!(matches!(store().load(&key(), facts(), &broken), Err(CacheError::Corrupt(_))));
    assert!(matches!(
        store().verify_manifest_blobs(&object_and_module(), &vec![stored(b"object")]),
        Err(CacheError::Miss)
    ));
}

#[test]
fn content_is_written_once() {
    let planned = store().put_blob(b"good", 0o755, &areas("blobs"), false).unwrap();
    let digest = blake3::hash(b"good").to_hex().to_string();
    assert_eq!(planned.reference, BlobRef::new(digest.clone(), 4, 0o755));
    assert_eq!(
        planned.path,
        format!("/cache/v1/blobs/{}/{digest}", &digest[..2]).into_bytes()
    );
    assert!(planned.write);
    assert!(!store().put_blob(b"good", 0o755, &areas("blobs"), true).unwrap().write);
    let mut linked = areas("blobs");
    linked[0].state = PathState::Symlink;
    assert!(matches!(
        store().put_blob(b"good", 0o755, &linked, false),
        Err(CacheError::InvalidCacheDirectory(path)) if path == b"/cache"
    ));
}

#[test]
fn missing_directories_are_no_fault_of_an_index() {
    let mut list = areas("direct");
    assert!(validate_existing_directories(&list).unwrap());
    list[2].state = PathState::Missing("gone".to_string());
    assert!(!validate_existing_directories(&list).unwrap());
    list[1].state = PathState::File;
    assert!(matches!(
        validate_existing_directories(&list),
        Err(CacheError::InvalidCacheDirectory(path)) if path == b"/cache/v1"
    ));
}

fn new_bundle() -> Manifest {
    bundle(vec![
        artifact(ArtifactKind::Object, "object", DestinationRole::Object, b"new object"),
        artifact(ArtifactKind::Module, "module:x.mod", DestinationRole::Module, b"new module"),
    ])
}

fn restore_facts(manifest: Manifest, module: &[u8]) -> RestoreFacts {
    RestoreFacts {
        manifest: found(false, read(Ok(manifest))),
        places: vec![place("/work/x.o"), place("/work/x.mod")],
        states: vec![PathState::File, PathState::File],
        artifacts: vec![stored(b"new object"), stored(module)],
        stdout: stored(b""),
        stderr: stored(b""),
    }
}

fn both_destinations() -> RestoreDestinations {
    let mut destinations = RestoreDestinations::new();
    destinations.insert_with_role("object", DestinationRole::Object, b"/work/x.o");
    destinations.insert_with_role("module:x.mod", DestinationRole::Module, b"/work/x.mod");
    destinations
}

#[test]
fn a_prepared_result_replaces_what_differs() {
    let facts = restore_facts(new_bundle(), b"new module");
    let ready = store().prepare_restore(&key(), &both_destinations(), facts).unwrap();
    assert_eq!(ready.manifest(), &new_bundle());
    assert_eq!(ready.artifacts[0].destination, b"/work/x.o");
    assert_eq!(ready.artifacts[0].content, b"new object");
    assert_eq!(ready.artifacts[1].destination, b"/work/x.mod");
    assert_eq!(ready.artifacts[1].content, b"new module");
    let files = vec![PathState::File, PathState::File];
    let replaced = vec![
        CommitStep::Backup(0),
        CommitStep::Remove(0),
        CommitStep::Backup(1),
        CommitStep::Install(1),
        CommitStep::Install(0),
    ];
    let old = vec![
        FileBytes::Read(b"old object".to_vec()),
        FileBytes::Read(b"old module".to_vec()),
    ];
    assert_eq!(ready.commit(&files, &old).unwrap(), replaced);
    let same = vec![
        FileBytes::Read(b"new object".to_vec()),
        FileBytes::Read(b"new module".to_vec()),
    ];
    assert_eq!(
        ready.commit(&files, &same).unwrap(),
        vec![CommitStep::Backup(0), CommitStep::Remove(0), CommitStep::Install(0)]
    );
    let linked = vec![PathState::File, PathState::Symlink];
    assert!(matches!(
        ready.commit(&linked, &old),
        Err(CacheError::SymlinkDestination(path)) if path == b"/work/x.mod"
    ));
    let unread = vec![
        FileBytes::Unreadable("io".to_string()),
        FileBytes::Unreadable("io".to_string()),
    ];
    assert!(matches!(ready.commit(&files, &unread), Err(CacheError::Io(_))));
}

#[test]
fn preparation_failure_does_not_mutate_any_destination() {
    let facts = RestoreFacts {
        states: vec![PathState::File, PathState::Directory],
        ..restore_facts(new_bundle(), b"new module")
    };
    assert!(matches!(
        store().prepare_restore(&key(), &both_destinations(), facts),
        Err(CacheError::InvalidDestination(path)) if path == b"/work/x.mod"
    ));
    let facts = RestoreFacts {
        manifest: found(false, StoredManifest::Unreadable("io".to_string())),
        ..restore_facts(new_bundle(), b"new module")
    };
    assert!(matches!(
        store().prepare_restore(&key(), &both_destinations(), facts),
        Err(CacheError::Io(_))
    ));
    let facts = RestoreFacts {
        manifest: found(false, StoredManifest::Missing),
        ..restore_facts(new_bundle(), b"new module")
    };
    assert!(matches!(
        store().prepare_restore(&key(), &both_destinations(), facts),
        Err(CacheError::Miss)
    ));
}

#[test]
fn corrupted_artifact_prevents_any_destination_mutation() {
    let facts = restore_facts(new_bundle(), b"corrupt");
    assert!(matches!(
        store().prepare_restore(&key(), &both_destinations(), facts),
        Err(CacheError::Corrupt(_))
    ));
    let facts = restore_facts(new_bundle(), b"new module");
    let ready = store().prepare_restore(&key(), &both_destinations(), facts).unwrap();
    assert_eq!(ready.artifacts[0].content, b"new object");
    assert_eq!(ready.artifacts[1].content, b"new module");
}

#[test]
fn corrupted_diagnostics_prevent_destination_commit() {
    let manifest = Manifest::new(
        key(),
        "a".repeat(64),
        vec![artifact(ArtifactKind::Object, "object", DestinationRole::Object, b"new object")],
        reference_to(b"compiler output", 0o644),
        reference_to(b"", 0o644),
    );
    let mut destinations = RestoreDestinations::new();
    destinations.insert_with_role("object", DestinationRole::Object, b"/work/x.o");
    let facts = |stdout: &[u8]| RestoreFacts {
        manifest: found(false, read(Ok(manifest.clone()))),
        places: vec![place("/work/x.o")],
        states: vec![PathState::File],
        artifacts: vec![stored(b"new object")],
        stdout: stored(stdout),
        stderr: stored(b""),
    };
    assert!(matches!(
        store().prepare_restore(&key(), &destinations, facts(b"corrupt")),
        Err(CacheError::Corrupt(_))
    ));
    assert!(store().prepare_restore(&key(), &destinations, facts(b"compiler output")).is_ok());
}

#[test]
fn messages_that_are_artifacts_too_are_read_once() {
    let manifest = Manifest::new(
        key(),
        "a".repeat(64),
        vec![artifact(ArtifactKind::Object, "object", DestinationRole::Object, b"same")],
        reference_to(b"same", 0o644),
        reference_to(b"same", 0o644),
    );
    let mut destinations = RestoreDestinations::new();
    destinations.insert("object", b"/work/x.o");
    let facts = RestoreFacts {
        manifest: found(false, read(Ok(manifest))),
        places: vec![place("/work/x.o")],
        states: vec![PathState::Missing("gone".to_string())],
        artifacts: vec![stored(b"same")],
        stdout: stored(b"unread"),
        stderr: stored(b"unread"),
    };
    assert!(store().restore(&key(), &destinations, facts).is_ok());
}

#[test]
fn every_blob_is_verified_once() {
    let blobs = blobs_to_verify(&object_and_module());
    let digests: Vec<String> = blobs.into_iter().map(|blob| blob.digest).collect();
    assert_eq!(digests.len(), 3);
    assert!(digests.contains(&blake3::hash(b"object").to_hex().to_string()));
    assert!(digests.contains(&blake3::hash(b"module").to_hex().to_string()));
    assert!(digests.contains(&blake3::hash(b"").to_hex().to_string()));
}

#[test]
fn paths_are_sharded_by_two_digits() {
    let digest = format!("cd{}", "0".repeat(62));
    assert_eq!(
        store().blob_path(&digest),
        format!("/cache/v1/blobs/cd/{digest}").into_bytes()
    );
    assert_eq!(
        store().result_path(&ActionKey::from_bytes([0xab; 32])),
        format!("/cache/v1/results/ab/{}.json", "ab".repeat(32)).into_bytes()
    );
}

fn at(seconds: i64, nanoseconds: i64) -> FileTimestamp {
    FileTimestamp { seconds, nanoseconds }
}

fn trim_facts(results: Vec<FoundResult>, blobs: Vec<FoundBlob>) -> TrimFacts {
    TrimFacts {
        result_areas: areas("results"),
        blob_areas: areas("blobs"),
        results,
        blobs,
        now: at(3610, 0),
    }
}

fn result(seconds: i64, length: usize) -> FoundResult {
    FoundResult {
        modified: at(seconds, 0),
        result: Ok(StoredResult { length, parsed: Ok(object_and_module()) }),
    }
}

#[test]
fn newest_results_are_kept_within_the_limit() {
    assert!(is_later(at(2, 0), at(1, 9)));
    assert!(is_later(at(2, 1), at(2, 0)));
    assert_eq!(newest_first(&vec![at(1, 0), at(3, 0), at(2, 5), at(2, 1)]), vec![1, 2, 3, 0]);

    let removed = |limit: u64| {
        let facts = trim_facts(vec![result(1, 100), result(2, 100)], Vec::new());
        store().trim_to_size(limit, &facts).unwrap().results
    };
    assert_eq!(removed(212), Vec::<usize>::new());
    assert_eq!(removed(211), vec![0]);
    assert_eq!(removed(111), vec![1, 0]);
    let unread = FoundResult { modified: at(1, 0), result: Err("io".to_string()) };
    assert!(matches!(
        store().trim_to_size(1000, &trim_facts(vec![unread], Vec::new())),
        Err(CacheError::Io(_))
    ));
}

#[test]
fn referenced_and_recent_content_is_no_orphan() {
    let blob = |content: &[u8], seconds: i64| FoundBlob {
        name: blake3::hash(content).to_hex().to_string().into_bytes(),
        modified: at(seconds, 0),
    };
    let blobs = || vec![blob(b"object", 1), blob(b"other", 1), blob(b"other", 11)];
    let grace = |seconds: u64| Grace { seconds, nanoseconds: 0 };
    let facts = || trim_facts(vec![result(1, 9)], blobs());
    let kept = store().trim_with_grace(1, grace(3600), &facts()).unwrap();
    assert_eq!(kept.results, Vec::<usize>::new());
    assert_eq!(kept.blobs, vec![1]);
    let cleared = store().trim(0, &facts()).unwrap();
    assert_eq!(cleared.results, vec![0]);
    assert_eq!(cleared.blobs, vec![0, 1]);
    let at_once = store().trim_with_grace(0, grace(0), &facts()).unwrap();
    assert_eq!(at_once.blobs, vec![0, 1, 2]);
    let late = store().trim_with_grace(0, grace(4000), &facts()).unwrap();
    assert_eq!(late.blobs, Vec::<usize>::new());
    let sized = store().trim_to_size(0, &facts()).unwrap();
    assert_eq!(sized.results, vec![0]);
    assert_eq!(sized.blobs, vec![0, 1]);
    let mut linked = trim_facts(Vec::new(), blobs());
    linked.blob_areas[1].state = PathState::Symlink;
    assert!(matches!(
        store().trim(0, &linked),
        Err(CacheError::InvalidCacheDirectory(path)) if path == b"/cache/v1"
    ));
}

#[test]
fn only_manifests_count_as_results() {
    assert!(is_result_name(b"ab.json"));
    assert!(!is_result_name(b"ab.tmp"));
    assert!(!is_result_name(b".json"));
    let grace = |seconds: u64, nanoseconds: u32| Grace { seconds, nanoseconds };
    assert_eq!(moment_before(at(5000, 7), grace(3600, 0)), at(1400, 7));
    assert_eq!(moment_before(at(5000, 7), grace(3600, 9)), at(1399, 999_999_998));
    assert_eq!(moment_before(at(0, 7), grace(3600, 0)), at(-3600, 7));
    assert_eq!(moment_before(at(i64::MIN, 7), grace(3600, 0)), at(0, 0));
    assert_eq!(moment_before(at(i64::MIN, 7), grace(0, 8)), at(0, 0));
    assert_eq!(moment_before(at(5, 0), grace(u64::MAX, 0)), at(0, 0));
}

#[test]
fn clearing_removes_the_contents_and_makes_the_areas_anew() {
    let areas: Vec<Vec<u8>> =
        [&b"/cache/v1"[..], b"/cache/v1/blobs", b"/cache/v1/results", b"/cache/v1/conflicts"]
            .iter()
            .map(|path| path.to_vec())
            .collect();
    let full = store().clear(&PathState::Directory, true, &PathState::Directory).unwrap();
    assert_eq!(full.remove, Some(b"/cache/v1".to_vec()));
    assert_eq!(full.create, areas);
    let empty = store()
        .clear(&PathState::Directory, false, &PathState::Missing("gone".to_string()))
        .unwrap();
    assert_eq!(empty.remove, None);
    assert_eq!(empty.create, areas);
}

#[test]
fn clearing_follows_no_links() {
    assert_eq!(
        store().clear(&PathState::Symlink, true, &PathState::Directory),
        Err(CacheError::InvalidCacheDirectory(b"/cache".to_vec()))
    );
    assert_eq!(
        store().clear(&PathState::Directory, true, &PathState::Symlink),
        Err(CacheError::InvalidCacheDirectory(b"/cache/v1".to_vec()))
    );
    assert_eq!(
        store().clear(&PathState::Directory, true, &PathState::Unreadable("denied".to_string())),
        Err(CacheError::Io("denied".to_string()))
    );
}

#[test]
fn the_maintenance_lock_is_no_link() {
    let path = b"/cache/.fcache-maintenance.lock".to_vec();
    assert_eq!(store().maintenance_lock(&PathState::Directory, &PathState::File), Ok(path.clone()));
    assert_eq!(
        store().maintenance_lock(&PathState::Directory, &PathState::Symlink),
        Err(CacheError::SymlinkCacheFile(path))
    );
    assert_eq!(
        store().maintenance_lock(&PathState::File, &PathState::File),
        Err(CacheError::InvalidCacheDirectory(b"/cache".to_vec()))
    );
}
