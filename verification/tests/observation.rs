use fcache::cache::manifest::{ArtifactKind, DestinationRole};
use fcache::cache::request::Pair;
use fcache::cache::snapshot::FileIdentity;
use fcache::compiler::depfile::{Depfile, DepfileRule};
use fcache::compiler::fingerprint::CompilerFingerprint;
use fcache::compiler::gfortran::parse_gfortran_args;
use fcache::launcher::action::build_action_key;
use fcache::launcher::admission::{is_gfortran, supported_gfortran_major};
use fcache::launcher::environment::{
    direct_search_environment_is_unmodeled, environment_affects_compiler_output,
    filter_compiler_environment,
};
use fcache::launcher::inputs::{read_inputs, resolved_depfile_prerequisites};
use fcache::launcher::observation::{
    default_object, inputs_unchanged, predicted_module_names, read_stable, DepfilePrerequisite,
    DepfileShape, DepfileTarget, ExpectedArtifact, FileStat, InputFile, Observation,
    ObservedDepfileRule, ReadError, Reading,
};
use fcache::launcher::observing::{
    observe, validate_real_depfile_targets, ProbeFacts, RealDepfileError, RealFacts,
};
use fcache::launcher::probe::{
    preprocessor_output_is_identity, qualify_automatic_preprocessing, PreprocessorRun, ProbeEntry,
};
use fcache::launcher::projection::{
    ObservationError, OutputFacts, OutputState, PathFacts, ProjectedOutputs,
};

fn args(values: &[&str]) -> Vec<Vec<u8>> {
    values.iter().map(|value| value.as_bytes().to_vec()).collect()
}

fn pair(name: &str, value: &str) -> Pair {
    Pair { name: name.as_bytes().to_vec(), value: value.as_bytes().to_vec() }
}

fn identity(inode: u64) -> FileIdentity {
    FileIdentity { device: 1, inode }
}

fn stat(size: usize, inode: u64) -> FileStat {
    FileStat {
        regular: true,
        size: size as u64,
        modified: Some(5),
        identity: Some(identity(inode)),
    }
}

fn reading(contents: &[u8], inode: u64) -> Reading {
    Reading {
        before: Ok(stat(contents.len(), inode)),
        contents: Ok(contents.to_vec()),
        after: Ok(stat(contents.len(), inode)),
    }
}

fn file(path: &str, contents: &[u8], inode: u64) -> PathFacts {
    PathFacts {
        canonical: Ok(path.as_bytes().to_vec()),
        identity: Ok(Some(identity(inode))),
        reading: reading(contents, inode),
    }
}

fn new_output(parent: &str) -> OutputFacts {
    OutputFacts {
        parent: Some(parent.as_bytes().to_vec()),
        state: OutputState::Absent,
        canonical: Err("absent".to_string()),
    }
}

fn old_output(parent: &str, path: &str, inode: u64) -> OutputFacts {
    OutputFacts {
        parent: Some(parent.as_bytes().to_vec()),
        state: OutputState::Present { regular: true, links: 1, identity: Some(identity(inode)) },
        canonical: Ok(path.as_bytes().to_vec()),
    }
}

fn module(path: &str, contents: &[u8]) -> ExpectedArtifact {
    ExpectedArtifact {
        logical_name: "module:first.mod".into(),
        kind: ArtifactKind::Module,
        role: DestinationRole::Module,
        path: path.as_bytes().to_vec(),
        probe_digest: Some(*blake3::hash(contents).as_bytes()),
        probe_size: Some(contents.len() as u64),
    }
}

fn object(path: &str) -> ExpectedArtifact {
    ExpectedArtifact {
        logical_name: "object".into(),
        kind: ArtifactKind::Object,
        role: DestinationRole::Object,
        path: path.as_bytes().to_vec(),
        probe_digest: None,
        probe_size: None,
    }
}

#[test]
fn strips_reserved_environment() {
    let values = filter_compiler_environment(&vec![
        pair("FCACHE_TEST_RESERVED", "value"),
        pair("PATH", "/bin"),
    ]);
    assert!(!values.iter().any(|value| value.name == b"FCACHE_TEST_RESERVED"));
    assert!(values.iter().any(|value| value.name == b"PATH"));
}

#[test]
fn excludes_make_jobserver_metadata_only_from_action_keys() {
    let values = filter_compiler_environment(&vec![
        pair("MAKEFLAGS", "-j12 --jobserver-auth=fifo:/tmp/one"),
        pair("MFLAGS", "-j12 --jobserver-auth=fifo:/tmp/one"),
        pair("PATH", "/bin"),
    ]);
    assert!(values.iter().any(|value| value.name == b"MAKEFLAGS"));
    assert!(values.iter().any(|value| value.name == b"MFLAGS"));
    assert!(!environment_affects_compiler_output(b"MAKEFLAGS"));
    assert!(!environment_affects_compiler_output(b"MFLAGS"));
    assert!(environment_affects_compiler_output(b"PATH"));
}

#[test]
fn search_variables_rule_out_the_direct_path() {
    assert!(direct_search_environment_is_unmodeled(&vec![pair("CPATH", "/include")]));
    assert!(!direct_search_environment_is_unmodeled(&vec![pair("PATH", "/bin")]));
}

#[test]
fn derives_default_object_in_working_directory() {
    let invocation = parse_gfortran_args(&args(&["-c", "source/example.F90"])).unwrap();
    assert_eq!(default_object(&invocation), Some(b"example.o".to_vec()));
}

#[test]
fn detects_input_changes_after_observation() {
    let observed = read_stable(b"/work/input.F90", &reading(b"program first\nend\n", 1)).unwrap();
    let inputs = vec![observed];
    assert!(inputs_unchanged(&inputs, &vec![reading(b"program first\nend\n", 1)]));
    assert!(!inputs_unchanged(&inputs, &vec![reading(b"program second\nend\n", 1)]));
}

#[test]
fn a_file_that_changes_while_it_is_read_is_no_input() {
    let mut unstable = reading(b"text", 1);
    unstable.after = Ok(stat(4, 2));
    assert!(matches!(read_stable(b"/work/x", &unstable), Err(ReadError::Changed(_))));
    let mut odd = reading(b"text", 1);
    odd.before = Ok(FileStat { regular: false, ..stat(4, 1) });
    assert!(matches!(read_stable(b"/work/x", &odd), Err(ReadError::NotRegular(_))));
    let mut gone = reading(b"text", 1);
    gone.contents = Err("gone".to_string());
    assert!(matches!(read_stable(b"/work/x", &gone), Err(ReadError::Failed(_))));
    let read = read_stable(b"/work/x", &reading(b"text", 1)).unwrap();
    assert_eq!(read.digest, *blake3::hash(b"text").as_bytes());
    assert_eq!(read.size, 4);
}

#[test]
fn source_is_hashed_even_when_the_depfile_has_no_prerequisites() {
    let invocation = parse_gfortran_args(&args(&["-cpp", "-c", "source.F90"])).unwrap();
    let projected = ProjectedOutputs::resolve(&Vec::new(), &Vec::new()).unwrap();
    let read = read_inputs(
        &Depfile { rules: Vec::new() },
        &invocation,
        b"/work",
        &Vec::new(),
        &projected,
        &file("/work/source.F90", b"program source\nend\n", 1),
        &Vec::new(),
    )
    .unwrap();
    assert_eq!(read.inputs.len(), 1);
    assert_eq!(read.inputs[0].path, b"/work/source.F90");
    assert_eq!(read.inputs[0].digest, *blake3::hash(b"program source\nend\n").as_bytes());
}

#[test]
fn automatic_preprocessing_requires_byte_identity() {
    let source = b"program source\nend program source\n";
    let mut prefixed = b"\n\n".to_vec();
    prefixed.extend_from_slice(source);
    assert!(preprocessor_output_is_identity(&prefixed, source));
    assert!(preprocessor_output_is_identity(source, source));
    assert!(preprocessor_output_is_identity(
        b"\n\nprogram source\nend program source\n",
        b"program source\nend program source"
    ));
    assert!(!preprocessor_output_is_identity(b"\n\nprogram changed\n", b"program source"));
    assert!(!preprocessor_output_is_identity(b"\nprogram changed\n", source));
    assert!(!preprocessor_output_is_identity(b"# 1 source.f90\n", source));
}

#[test]
fn a_preprocessor_that_fails_or_changes_the_source_does_not_qualify() {
    let run = |success: bool, stdout: &[u8]| PreprocessorRun {
        success,
        stdout: stdout.to_vec(),
        stderr: b"note".to_vec(),
    };
    let observed = qualify_automatic_preprocessing(&run(true, b"\nprogram p\n"), b"program p\n");
    let observed = observed.unwrap();
    assert_eq!(observed.stdout_digest, *blake3::hash(b"\nprogram p\n").as_bytes());
    assert_eq!(observed.stderr_size, 4);
    assert!(observed.automatic_lowercase_source);
    assert!(qualify_automatic_preprocessing(&run(false, b"program p\n"), b"program p\n").is_none());
    assert!(qualify_automatic_preprocessing(&run(true, b"program q\n"), b"program p\n").is_none());
}

#[test]
fn reports_predicted_module_names_as_raw_bytes() {
    let observation = Observation {
        inputs: Vec::new(),
        dependencies: Vec::new(),
        outputs: vec![ExpectedArtifact {
            logical_name: "module:expected.mod".into(),
            kind: ArtifactKind::Module,
            role: DestinationRole::Module,
            path: b"expected.mod".to_vec(),
            probe_digest: Some([2; 32]),
            probe_size: Some(1),
        }],
        depfile_shape: DepfileShape::default(),
        preprocessor: None,
    };
    assert_eq!(predicted_module_names(&observation), vec![b"expected.mod".to_vec()]);
}

#[test]
fn skips_same_compilation_module_used_as_a_later_prerequisite() {
    let invocation =
        parse_gfortran_args(&args(&["-cpp", "-c", "-J", ".", "multi.F90", "-o", "multi.o"]))
            .unwrap();
    let depfile = Depfile {
        rules: vec![DepfileRule {
            targets: args(&["first.mod", "multi.o"]),
            prerequisites: args(&["multi.F90", "first.mod"]),
        }],
    };
    let projected = ProjectedOutputs::resolve(
        &vec![module("/work/first.mod", b"module")],
        &vec![old_output("/work", "/work/first.mod", 2)],
    )
    .unwrap();
    let source = b"module first\nend module first\n";
    let read = read_inputs(
        &depfile,
        &invocation,
        b"/work",
        &Vec::new(),
        &projected,
        &file("/work/multi.F90", source, 1),
        &vec![vec![file("/work/multi.F90", source, 1), file("/work/first.mod", b"module", 2)]],
    )
    .unwrap();
    assert_eq!(read.inputs.len(), 1);
    assert_eq!(read.inputs[0].path, b"/work/multi.F90");
}

#[test]
fn a_module_with_other_contents_collides_with_the_generated_one() {
    let invocation =
        parse_gfortran_args(&args(&["-cpp", "-c", "multi.F90", "-o", "multi.o"])).unwrap();
    let depfile = Depfile {
        rules: vec![DepfileRule {
            targets: args(&["multi.o"]),
            prerequisites: args(&["multi.F90", "first.mod"]),
        }],
    };
    let projected = ProjectedOutputs::resolve(
        &vec![module("/work/first.mod", b"module")],
        &vec![old_output("/work", "/work/first.mod", 2)],
    )
    .unwrap();
    let error = read_inputs(
        &depfile,
        &invocation,
        b"/work",
        &Vec::new(),
        &projected,
        &file("/work/multi.F90", b"x", 1),
        &vec![vec![file("/work/multi.F90", b"x", 1), file("/work/first.mod", b"stale", 2)]],
    )
    .unwrap_err();
    assert!(matches!(error, ObservationError::ModuleCollision(_)));
}

#[test]
fn rejects_dependency_that_collides_with_a_projected_output() {
    let invocation =
        parse_gfortran_args(&args(&["-cpp", "-c", "source.F90", "-o", "source.o"])).unwrap();
    let depfile = Depfile {
        rules: vec![DepfileRule {
            targets: args(&["source.o"]),
            prerequisites: args(&["source.F90", "source.o"]),
        }],
    };
    let projected = ProjectedOutputs::resolve(
        &vec![object("/work/source.o")],
        &vec![old_output("/work", "/work/source.o", 2)],
    )
    .unwrap();
    let source = b"program source\nend\n";
    let error = read_inputs(
        &depfile,
        &invocation,
        b"/work",
        &Vec::new(),
        &projected,
        &file("/work/source.F90", source, 1),
        &vec![vec![
            file("/work/source.F90", source, 1),
            file("/work/source.o", b"not-an-object", 2),
        ]],
    )
    .unwrap_err();
    let message = error.message();
    assert!(message.contains("collides with a projected output"), "unexpected error: {message}");
    assert_eq!(
        message,
        "compiler dependency collides with a projected output: /work/source.o"
    );
    let count = ObservationError::<Vec<u8>, String>::TargetCount {
        module: b"x.mod".to_vec(),
        count: 2,
    };
    assert_eq!(
        count.message(),
        "probe module x.mod has 2 dependency targets instead of one"
    );
}

#[test]
fn outputs_must_be_plain_files_of_their_own() {
    let linked = OutputFacts {
        state: OutputState::Present { regular: true, links: 2, identity: Some(identity(2)) },
        ..old_output("/work", "/work/source.o", 2)
    };
    assert!(matches!(
        ProjectedOutputs::resolve(&vec![object("/work/source.o")], &vec![linked]),
        Err(ObservationError::OutputHardLinked(_))
    ));
    let odd = OutputFacts {
        state: OutputState::Present { regular: false, links: 1, identity: Some(identity(2)) },
        ..old_output("/work", "/work/source.o", 2)
    };
    assert!(matches!(
        ProjectedOutputs::resolve(&vec![object("/work/source.o")], &vec![odd]),
        Err(ObservationError::OutputNotRegular(_))
    ));
    assert!(ProjectedOutputs::resolve(
        &vec![object("/work/a.o"), module("/work/a.o", b"m")],
        &vec![new_output("/work"), new_output("/work")],
    )
    .is_err());
}

fn observation() -> Observation {
    let input = |name: &str, digest: u8| InputFile {
        raw_path: format!("/work/{name}").into_bytes(),
        observed_path: format!("/work/{name}").into_bytes(),
        path: format!("/work/{name}").into_bytes(),
        digest: [digest; 32],
        size: 1,
    };
    Observation {
        inputs: vec![input("source.F90", 1), input("value.inc", 2), input("used.mod", 3)],
        dependencies: Vec::new(),
        outputs: vec![object("/work/source.o")],
        depfile_shape: DepfileShape {
            primary_rules: vec![ObservedDepfileRule {
                targets: vec![DepfileTarget::Ordinary(b"source.o".to_vec())],
                prerequisites: vec![
                    DepfilePrerequisite::Ordinary(b"source.F90".to_vec()),
                    DepfilePrerequisite::Ordinary(b"value.inc".to_vec()),
                    DepfilePrerequisite::Ordinary(b"used.mod".to_vec()),
                ],
            }],
            ..DepfileShape::default()
        },
        preprocessor: None,
    }
}

fn prerequisites(names: &[&str]) -> Vec<Vec<PathFacts>> {
    vec![names
        .iter()
        .enumerate()
        .map(|(at, name)| file(&format!("/work/{name}"), b"x", at as u64 + 1))
        .collect()]
}

#[test]
fn real_depfile_comparison_requires_matching_targets_and_prerequisites() {
    let observation = observation();
    let projected =
        ProjectedOutputs::resolve(&observation.outputs, &vec![new_output("/work")]).unwrap();
    let depfile = |names: &[&str]| Depfile {
        rules: vec![DepfileRule { targets: args(&["source.o"]), prerequisites: args(names) }],
    };
    let all = ["source.F90", "value.inc", "used.mod"];
    let mut resolved = resolved_depfile_prerequisites(
        &depfile(&all),
        b"/work",
        &Vec::new(),
        &projected,
        &prerequisites(&all),
    )
    .unwrap();
    resolved.sort();
    let mut expected: Vec<Vec<u8>> =
        observation.inputs.iter().map(|input| input.path.clone()).collect();
    expected.sort();
    assert_eq!(resolved, expected);

    let some = ["source.F90", "value.inc"];
    let actual = resolved_depfile_prerequisites(
        &depfile(&some),
        b"/work",
        &Vec::new(),
        &projected,
        &prerequisites(&some),
    )
    .unwrap();
    assert_ne!(actual, expected);
}

fn real_facts(depfile: &[u8], names: &[&str]) -> RealFacts {
    RealFacts {
        depfile: Ok(depfile.to_vec()),
        targets: vec![vec![None]],
        outputs: vec![new_output("/work")],
        prerequisites: prerequisites(names),
        source: Ok(b"/work/source.F90".to_vec()),
    }
}

#[test]
fn a_real_depfile_must_agree_with_what_was_observed() {
    let invocation = parse_gfortran_args(&args(&[
        "-cpp", "-c", "-MD", "source.F90", "-o", "source.o",
    ]))
    .unwrap();
    let all = ["source.F90", "value.inc", "used.mod"];
    let good = real_facts(b"source.o: source.F90 value.inc used.mod\n", &all);
    assert_eq!(
        validate_real_depfile_targets(&invocation, &observation(), b"/work", &good),
        Ok(())
    );
    let missing = real_facts(b"source.o: source.F90 value.inc\n", &["source.F90", "value.inc"]);
    assert!(
        validate_real_depfile_targets(&invocation, &observation(), b"/work", &missing).is_err()
    );
    let other = real_facts(b"other.o: source.F90 value.inc used.mod\n", &all);
    assert!(validate_real_depfile_targets(&invocation, &observation(), b"/work", &other).is_err());
    let broken = real_facts(b"source.o\n", &[]);
    assert!(matches!(
        validate_real_depfile_targets(&invocation, &observation(), b"/work", &broken),
        Err(RealDepfileError::Undecodable(_))
    ));
    let mut unread = real_facts(b"", &[]);
    unread.depfile = Err("gone".to_string());
    assert!(matches!(
        validate_real_depfile_targets(&invocation, &observation(), b"/work", &unread),
        Err(RealDepfileError::Unreadable(_))
    ));
    let unasked = parse_gfortran_args(&args(&["-cpp", "-c", "source.F90"])).unwrap();
    assert_eq!(
        validate_real_depfile_targets(&unasked, &observation(), b"/work", &good),
        Ok(())
    );
}

#[test]
fn a_probe_tells_inputs_and_generated_modules_apart() {
    let invocation = parse_gfortran_args(&args(&[
        "-cpp", "-c", "-J", "mods", "source.F90", "-o", "source.o",
    ]))
    .unwrap();
    let depfile = Depfile {
        rules: vec![DepfileRule {
            targets: args(&["source.o", "/tmp/probe/first.mod"]),
            prerequisites: args(&["source.F90"]),
        }],
    };
    let facts = ProbeFacts {
        entries: vec![ProbeEntry {
            path: b"/tmp/probe/first.mod".to_vec(),
            plain_file: Ok(true),
            name: Some("first.mod".to_string()),
            canonical: Ok(b"/tmp/probe/first.mod".to_vec()),
            reading: reading(b"module", 9),
        }],
        targets: vec![vec![None, Some(b"/tmp/probe/first.mod".to_vec())]],
        outputs: vec![new_output("/work/mods"), new_output("/work")],
        source: file("/work/source.F90", b"text", 1),
        prerequisites: prerequisites(&["source.F90"]),
    };
    let observed = observe(&invocation, b"/work", &depfile, &facts, None).unwrap();
    assert_eq!(observed.inputs.len(), 1);
    assert_eq!(observed.outputs.len(), 2);
    let made = observed.outputs.iter().find(|output| output.kind == ArtifactKind::Module).unwrap();
    assert_eq!(made.logical_name, "module:first.mod");
    assert_eq!(made.path, b"/work/mods/first.mod");
    assert_eq!(made.probe_digest, Some(*blake3::hash(b"module").as_bytes()));
    assert!(observed.depfile_shape.primary_rules[0]
        .targets
        .contains(&DepfileTarget::GeneratedModule(b"first.mod".to_vec())));
}

#[test]
fn action_keys_tell_compilations_apart() {
    let fingerprint = CompilerFingerprint {
        digest: [7; 32],
        driver: b"/usr/bin/gfortran".to_vec(),
        f951: b"/usr/libexec/f951".to_vec(),
        assembler: b"/usr/bin/as".to_vec(),
        major_version: 14,
    };
    let invocation = parse_gfortran_args(&args(&["-c", "source.F90"])).unwrap();
    let key = |variables: Vec<Pair>, umask: u32, observation: Observation| {
        build_action_key(
            b"gfortran",
            &invocation,
            &fingerprint,
            b"/work",
            &variables,
            &observation,
            umask,
        )
        .unwrap()
    };
    let first = key(vec![pair("PATH", "/bin")], 0o022, observation());
    assert_eq!(first, key(vec![pair("PATH", "/bin")], 0o022, observation()));
    assert_eq!(
        first,
        key(vec![pair("MAKEFLAGS", "-j2"), pair("PATH", "/bin")], 0o022, observation())
    );
    assert_ne!(first, key(vec![pair("PATH", "/usr/bin")], 0o022, observation()));
    assert_ne!(first, key(vec![pair("PATH", "/bin")], 0o077, observation()));
    let mut changed = observation();
    changed.inputs[1].digest = [9; 32];
    assert_ne!(first, key(vec![pair("PATH", "/bin")], 0o022, changed));
}

#[test]
fn supports_declared_gfortran_versions_and_driver_names() {
    assert!(!supported_gfortran_major(10));
    assert!(supported_gfortran_major(11));
    assert!(supported_gfortran_major(12));
    assert!(supported_gfortran_major(16));
    assert!(!supported_gfortran_major(17));
    assert!(is_gfortran(b"gfortran"));
    assert!(is_gfortran(b"/opt/gcc-11/bin/gfortran-11"));
    assert!(!is_gfortran(b"vendor-gfortran"));
}
