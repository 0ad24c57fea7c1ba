use fcache::cache::output_lock::{
    is_stable_lock, normalize_target, LockLook, LockMode, ModuleDirectoryAccess, OutputLockPlan,
};
use fcache::cache::snapshot::{
    DirectoryEntryKind, DirectoryObservation, DirectorySnapshot, FileIdentity, FileTimestamp,
    MetadataStability, ObservedEntry, SnapshotError,
};

#[test]
fn aliases_of_the_same_parent_share_one_lock_file() {
    let mut plan = OutputLockPlan::new();
    plan.add_output(b"/out/nested/../result.o".to_vec());
    plan.add_output(b"/out/result.o".to_vec());
    let first = normalize_target(b"/out/nested/../result.o", None, Some(b"/out".to_vec()));
    let second = normalize_target(b"/out/result.o", None, Some(b"/out".to_vec()));
    assert_eq!(first, b"/out/result.o");
    let targets = plan.lock_targets(&vec![first, second]).unwrap();
    assert_eq!(targets.len(), 1);
    assert_eq!(targets[0].mode, LockMode::Exclusive);
}

#[test]
fn duplicate_shared_and_exclusive_targets_are_promoted() {
    let target = b"/out/result.o".to_vec();
    let mut plan = OutputLockPlan::new();
    plan.add_module_directory(target.clone(), ModuleDirectoryAccess::CompilerMissWithoutModules);
    plan.add_output(target.clone());
    let targets = plan.lock_targets(&vec![target.clone(), target]).unwrap();
    assert_eq!(targets.len(), 1);
    assert_eq!(targets[0].mode, LockMode::Exclusive);
}

#[test]
fn shared_module_directory_locks_can_coexist() {
    let plan = || {
        let mut plan = OutputLockPlan::new();
        plan.add_module_directory(
            b"/out".to_vec(),
            ModuleDirectoryAccess::CompilerMissWithoutModules,
        );
        plan.lock_targets(&vec![b"/out".to_vec()]).unwrap()
    };
    let first = plan();
    let second = plan();
    assert_eq!(first.len(), 1);
    assert_eq!(second.len(), 1);
    assert_eq!(first[0].mode, LockMode::Shared);
    assert_eq!(first, second);
}

#[test]
fn module_producers_and_restores_exclude_each_other() {
    assert_eq!(ModuleDirectoryAccess::CompilerModuleProducer.lock_mode(), LockMode::Exclusive);
    assert_eq!(ModuleDirectoryAccess::ModuleRestore.lock_mode(), LockMode::Exclusive);
}

#[test]
fn locks_are_taken_in_one_order() {
    let mut plan = OutputLockPlan::new();
    for path in [b"/out/a.o", b"/out/b.o", b"/out/c.o"] {
        plan.add_output(path.to_vec());
    }
    let mut reversed = OutputLockPlan::new();
    for path in [b"/out/c.o", b"/out/b.o", b"/out/a.o"] {
        reversed.add_output(path.to_vec());
    }
    let paths = vec![b"/out/a.o".to_vec(), b"/out/b.o".to_vec(), b"/out/c.o".to_vec()];
    let mut back = paths.clone();
    back.reverse();
    let targets = plan.lock_targets(&paths).unwrap();
    assert_eq!(targets, reversed.lock_targets(&back).unwrap());
    assert!(targets[0].name < targets[1].name && targets[1].name < targets[2].name);
}

fn metadata(kind: DirectoryEntryKind, inode: u64, size: u64) -> MetadataStability {
    MetadataStability {
        kind,
        identity: Some(FileIdentity { device: 1, inode }),
        mode: 0o644,
        size,
        modified: FileTimestamp { seconds: inode as i64, nanoseconds: 0 },
        changed: FileTimestamp { seconds: inode as i64, nanoseconds: 0 },
    }
}

fn regular(name: &[u8], contents: &[u8], inode: u64) -> ObservedEntry {
    let stable = metadata(DirectoryEntryKind::RegularFile, inode, contents.len() as u64);
    ObservedEntry {
        name: name.to_vec(),
        first: stable,
        digest: Some(*blake3::hash(contents).as_bytes()),
        symlink_target: None,
        again: stable,
    }
}

fn link(name: &[u8], target: &[u8], inode: u64) -> ObservedEntry {
    let stable = metadata(DirectoryEntryKind::Symlink, inode, target.len() as u64);
    ObservedEntry {
        name: name.to_vec(),
        first: stable,
        digest: None,
        symlink_target: Some(target.to_vec()),
        again: stable,
    }
}

fn directory(entries: Vec<ObservedEntry>) -> DirectoryObservation {
    DirectoryObservation {
        directory: b"/work/modules".to_vec(),
        before: metadata(DirectoryEntryKind::Directory, 1, 4096),
        entries,
        after: metadata(DirectoryEntryKind::Directory, 1, 4096),
    }
}

#[test]
fn snapshot_preserves_non_utf8_names_and_entry_details() {
    let name = b"module-\xff.mod".to_vec();
    let observed = directory(vec![regular(&name, b"module bytes", 2)]);
    let snapshot = DirectorySnapshot::read_for_outputs(&observed, &vec![name.clone()]).unwrap();
    let entry = &snapshot.entries()[0];
    assert_eq!(entry.name, name);
    assert_eq!(entry.snapshot.kind, DirectoryEntryKind::RegularFile);
    assert!(entry.snapshot.identity.is_some());
    assert_eq!(entry.snapshot.size, 12);
    assert_eq!(entry.snapshot.digest, Some(*blake3::hash(b"module bytes").as_bytes()));
}

#[test]
fn snapshot_does_not_hash_unrelated_regular_files() {
    let observed = directory(vec![regular(b"large-object.o", b"object bytes", 2)]);
    let snapshot = DirectorySnapshot::read(&observed).unwrap();
    assert_eq!(snapshot.entries()[0].snapshot.digest, None);
}

#[test]
fn snapshot_hashes_explicitly_predicted_non_module_outputs() {
    let observed = directory(vec![regular(b"generated.interface", b"interface", 2)]);
    let predicted = vec![b"generated.interface".to_vec()];
    let snapshot = DirectorySnapshot::read_for_outputs(&observed, &predicted).unwrap();
    assert_eq!(
        snapshot.entries()[0].snapshot.digest,
        Some(*blake3::hash(b"interface").as_bytes())
    );
}

#[test]
fn validation_rejects_unpredicted_changes() {
    let existing = || regular(b"existing.mod", b"before", 2);
    let before = DirectorySnapshot::read(&directory(vec![existing()])).unwrap();
    let after = DirectorySnapshot::read(&directory(vec![
        existing(),
        regular(b"unexpected.mod", b"created", 3),
    ]))
    .unwrap();
    assert_eq!(
        before.validate_changes(&after, &Vec::new()),
        Err(SnapshotError::UnpredictedChange)
    );
}

#[test]
fn validation_ignores_concurrent_non_module_outputs() {
    let before = DirectorySnapshot::read(&directory(Vec::new())).unwrap();
    let after =
        DirectorySnapshot::read(&directory(vec![regular(b"other-job.o", b"object", 2)])).unwrap();
    assert!(before.validate_changes(&after, &Vec::new()).unwrap().is_empty());
}

#[test]
fn validation_accepts_only_predicted_regular_changes() {
    let existing = || regular(b"existing.txt", b"unchanged", 2);
    let before = DirectorySnapshot::read(&directory(vec![existing()])).unwrap();
    let predicted = vec![b"generated.mod".to_vec()];
    let after = DirectorySnapshot::read_for_outputs(
        &directory(vec![existing(), regular(b"generated.mod", b"generated", 3)]),
        &predicted,
    )
    .unwrap();
    assert_eq!(before.validate_changes(&after, &predicted).unwrap(), predicted);
    assert_eq!(
        before.validate_changes(&before, &predicted),
        Err(SnapshotError::PredictedAbsent)
    );
}

#[test]
fn validation_rejects_predicted_symlinks() {
    let before =
        DirectorySnapshot::read(&directory(vec![regular(b"target", b"target", 2)])).unwrap();
    let predicted = vec![b"generated.mod".to_vec()];
    let after = DirectorySnapshot::read_for_outputs(
        &directory(vec![
            regular(b"target", b"target", 2),
            link(b"generated.mod", b"target", 3),
        ]),
        &predicted,
    )
    .unwrap();
    assert_eq!(
        before.validate_changes(&after, &predicted),
        Err(SnapshotError::PredictedNotRegular)
    );
}

#[test]
fn validation_rejects_hard_link_aliases() {
    let existing = || regular(b"existing.mod", b"module", 2);
    let before = DirectorySnapshot::read(&directory(vec![existing()])).unwrap();
    let predicted = vec![b"generated.mod".to_vec()];
    let after = DirectorySnapshot::read_for_outputs(
        &directory(vec![existing(), regular(b"generated.mod", b"module", 2)]),
        &predicted,
    )
    .unwrap();
    assert!(before.validate_changes(&after, &predicted).is_err());
}

#[test]
fn an_unstable_directory_gives_no_snapshot() {
    let mut observed = directory(Vec::new());
    observed.after = metadata(DirectoryEntryKind::Directory, 9, 4096);
    assert_eq!(DirectorySnapshot::read(&observed), Err(SnapshotError::DirectoryChanged));
    assert_eq!(
        SnapshotError::DirectoryChanged.message("/work"),
        "module output directory changed while observing: /work"
    );

    let mut observed = directory(vec![regular(b"a.mod", b"a", 2)]);
    observed.entries[0].again = metadata(DirectoryEntryKind::RegularFile, 3, 1);
    assert_eq!(DirectorySnapshot::read(&observed), Err(SnapshotError::EntryChanged));

    let mut observed = directory(Vec::new());
    observed.before = metadata(DirectoryEntryKind::RegularFile, 1, 4096);
    assert_eq!(DirectorySnapshot::read(&observed), Err(SnapshotError::NotADirectory));

    assert_eq!(
        DirectorySnapshot::read_for_outputs(&directory(Vec::new()), &vec![b"a/b".to_vec()]),
        Err(SnapshotError::IndirectPrediction)
    );
}

#[test]
fn a_lock_is_the_file_that_its_path_names() {
    let look = |regular: bool, inode: u64| LockLook {
        regular,
        identity: Some(FileIdentity { device: 1, inode }),
    };
    assert!(is_stable_lock(look(true, 1), look(true, 1)));
    assert!(!is_stable_lock(look(true, 1), look(true, 2)));
    assert!(!is_stable_lock(look(true, 1), look(false, 1)));
    assert!(!is_stable_lock(look(true, 1), LockLook { regular: true, identity: None }));
}
