use fcache::cache::direct::{MetadataWitness, WitnessFileType};
use fcache::cache::snapshot::{
    hash_regular_file, DirectoryEntryKind, EntryReading, FileIdentity, FileTimestamp, HashError,
    MetadataStability,
};
use fcache::cache::store::PathState;
use fcache::cache::witness::{
    ancestors, capture_symlinks, hash_stable_regular_file, nearest_existing_ancestor,
    require_absent, witness_path, AncestorState, FileLook, FileReading, PartState, PathLook,
};
use fcache::cli::{errand, Command, Errand};
use fcache::compiler::fingerprint::FingerprintError;
use fcache::compiler::gfortran::Preprocessing;
use fcache::compiler::identity::digest_file;
use fcache::launcher::probe::{preprocessor_question, PreprocessorQuestion};

fn metadata(size: u64, inode: u64) -> MetadataWitness {
    MetadataWitness {
        file_type: WitnessFileType::Regular,
        size,
        mode: 0o100644,
        device: 1,
        inode,
        modified_seconds: 3,
        modified_nanoseconds: 4,
        changed_seconds: 5,
        changed_nanoseconds: 6,
    }
}

fn look(size: u64) -> Result<FileLook, String> {
    Ok(FileLook { regular: true, metadata: metadata(size, 7) })
}

fn file(contents: &[u8]) -> FileReading {
    let size = contents.len() as u64;
    FileReading {
        before: look(size),
        contents: Ok(contents.to_vec()),
        after: look(size),
        named: look(size),
    }
}

#[test]
fn stable_files_are_hashed() {
    let contents = hash_stable_regular_file(&file(b"text")).unwrap();
    assert_eq!(contents.size, 4);
    assert_eq!(contents.digest.as_bytes(), blake3::hash(b"text").as_bytes());
}

#[test]
fn files_that_change_while_they_are_read_are_refused() {
    let swapped = FileReading {
        named: Ok(FileLook { regular: true, metadata: metadata(4, 8) }),
        ..file(b"text")
    };
    assert_eq!(
        hash_stable_regular_file(&swapped).unwrap_err(),
        "input changed while it was read"
    );
    let grown = FileReading { contents: Ok(b"text and more".to_vec()), ..file(b"text") };
    assert!(hash_stable_regular_file(&grown).is_err());
    let unread = FileReading { contents: Err("io".to_string()), ..file(b"text") };
    assert_eq!(hash_stable_regular_file(&unread).unwrap_err(), "io");
    let special = FileReading {
        before: Ok(FileLook { regular: false, metadata: metadata(4, 7) }),
        ..file(b"text")
    };
    assert!(hash_stable_regular_file(&special).is_err());
}

#[test]
fn links_on_the_way_are_witnessed() {
    let parts: Vec<Vec<u8>> = vec![b"/".to_vec(), b"/link".to_vec(), b"/link/x".to_vec()];
    let states = vec![
        PartState::Plain,
        PartState::Link { target: Ok(b"real".to_vec()), metadata: metadata(4, 9) },
        PartState::Missing,
    ];
    let links = capture_symlinks(&parts, &states).unwrap();
    assert_eq!(links.len(), 1);
    assert_eq!(links[0].path.as_bytes(), b"/link");
    assert_eq!(links[0].target.as_bytes(), b"real");
    let failed = vec![PartState::Plain, PartState::Failed("io".to_string()), PartState::Plain];
    assert_eq!(capture_symlinks(&parts, &failed).unwrap_err(), "io");
}

#[test]
fn the_nearest_directory_above_a_missing_path_is_found() {
    assert_eq!(
        ancestors(b"/a/b/c"),
        vec![b"/a/b".to_vec(), b"/a".to_vec(), b"/".to_vec()]
    );
    assert_eq!(
        nearest_existing_ancestor(&vec![
            AncestorState::Missing,
            AncestorState::Directory,
            AncestorState::Directory,
        ]),
        Ok(1)
    );
    assert_eq!(
        nearest_existing_ancestor(&vec![AncestorState::Failed("io".to_string())]),
        Err("io".to_string())
    );
    assert!(nearest_existing_ancestor(&vec![AncestorState::Other]).is_err());
}

#[test]
fn only_missing_paths_are_absent() {
    assert!(require_absent(&PathState::Missing("gone".to_string())).is_ok());
    assert_eq!(
        require_absent(&PathState::File).unwrap_err(),
        "negative resolution candidate now exists"
    );
    assert_eq!(require_absent(&PathState::Unreadable("io".to_string())).unwrap_err(), "io");
}

#[test]
fn a_path_is_witnessed_as_what_it_is_expected_to_be() {
    let seen = |matches: bool| PathLook {
        canonical: Ok(b"/real/x".to_vec()),
        matches,
        metadata: Ok(metadata(4, 7)),
        symlinks: Ok(Vec::new()),
    };
    let witness = witness_path(b"/link/x", seen(true), WitnessFileType::Regular).unwrap();
    assert_eq!(witness.resolved_path.as_bytes(), b"/link/x");
    assert_eq!(witness.canonical_path.as_bytes(), b"/real/x");
    assert_eq!(witness.metadata, metadata(4, 7));
    assert!(witness_path(b"/link/x", seen(false), WitnessFileType::Directory).is_err());
}

fn stability(size: u64, inode: u64) -> MetadataStability {
    MetadataStability {
        kind: DirectoryEntryKind::RegularFile,
        identity: Some(FileIdentity { device: 1, inode }),
        mode: 0o100644,
        size,
        modified: FileTimestamp { seconds: 1, nanoseconds: 2 },
        changed: FileTimestamp { seconds: 3, nanoseconds: 4 },
    }
}

#[test]
fn predicted_outputs_are_hashed_while_they_stay() {
    let reading = |before: u64, after: u64| EntryReading {
        before: Ok(stability(6, before)),
        contents: Ok(b"module".to_vec()),
        after: Ok(stability(6, after)),
    };
    assert_eq!(
        hash_regular_file(&stability(6, 1), &reading(1, 1)).unwrap(),
        *blake3::hash(b"module").as_bytes()
    );
    assert_eq!(
        hash_regular_file(&stability(6, 1), &reading(2, 1)),
        Err(HashError::ChangedBefore)
    );
    assert_eq!(
        hash_regular_file(&stability(6, 1), &reading(1, 2)),
        Err(HashError::ChangedWhile)
    );
    let short = EntryReading { contents: Ok(b"mod".to_vec()), ..reading(1, 1) };
    assert_eq!(hash_regular_file(&stability(6, 1), &short), Err(HashError::ChangedWhile));
    let unread = EntryReading { contents: Err("io".to_string()), ..reading(1, 1) };
    assert_eq!(
        hash_regular_file(&stability(6, 1), &unread),
        Err(HashError::Failed("io".to_string()))
    );
}

#[test]
fn tools_are_hashed_as_long_as_they_are() {
    assert_eq!(digest_file(4, b"tool").unwrap(), *blake3::hash(b"tool").as_bytes());
    assert!(digest_file(5, b"tool").is_err());
}

#[test]
fn the_preprocessor_is_asked_where_it_decides() {
    assert_eq!(preprocessor_question(Preprocessing::Auto, 14), PreprocessorQuestion::Identity);
    assert_eq!(preprocessor_question(Preprocessing::Cpp, 12), PreprocessorQuestion::Observation);
    assert_eq!(preprocessor_question(Preprocessing::Cpp, 13), PreprocessorQuestion::Nothing);
    assert_eq!(preprocessor_question(Preprocessing::NoCpp, 11), PreprocessorQuestion::Nothing);
}

#[test]
fn a_disabled_launcher_only_passes_compilers_through() {
    let compiler = Command::Compiler(vec![b"gfortran".to_vec()]);
    let yes = Some(b"1".to_vec());
    assert_eq!(errand(&compiler, &yes), Ok(Errand::PassThrough));
    assert_eq!(errand(&compiler, &None), Ok(Errand::Configured));
    assert_eq!(errand(&Command::Compiler(Vec::new()), &yes), Ok(Errand::ShowHelp { code: 2 }));
    assert!(errand(&compiler, &Some(b"maybe".to_vec())).is_err());
    assert_eq!(errand(&Command::Version, &Some(b"maybe".to_vec())), Ok(Errand::ShowVersion));
    assert_eq!(errand(&Command::Help, &None), Ok(Errand::ShowHelp { code: 0 }));
    let explain = Command::Explain { arguments: vec![b"gfortran".to_vec()], json: false };
    assert_eq!(errand(&explain, &yes), Ok(Errand::Explain));
    assert_eq!(errand(&Command::Trim, &yes), Ok(Errand::Configured));
}

#[test]
fn fingerprint_errors_say_what_failed() {
    assert_eq!(
        FingerprintError::<Vec<u8>, String>::CacheIo("io".to_string()).message(""),
        "compiler identity cache I/O failed: io"
    );
    let program = || b"gfortran".to_vec();
    assert_eq!(
        FingerprintError::<Vec<u8>, String>::DriverNotFound(program()).message("\"gfortran\""),
        "compiler driver \"gfortran\" was not found"
    );
    assert_eq!(
        FingerprintError::<Vec<u8>, String>::QueryOutputTooLarge {
            program: program(),
            limit: 1048576,
        }
        .message("\"gfortran\""),
        "compiler command \"gfortran\" produced more than 1048576 bytes"
    );
}
