use fcache::bstr::trim_ascii;
use fcache::cache::direct::DirectDigest;
use fcache::compiler::fingerprint::{
    fingerprint_digest, fingerprint_gfortran_in, observe_gfortran, parse_major_version,
    parse_program_search_dirs, program_candidates, query_answer, CandidateState,
    FingerprintContext, FingerprintError, QueryOutputs, QueryRun, SpecsState, ToolAnswer,
    ToolReading, ToolStat, ToolchainAnswers,
};
use fcache::framing::push_sized;

fn append_field(buffer: &mut Vec<u8>, value: &[u8]) {
    push_sized(buffer, value);
}

#[test]
fn serialization_is_length_delimited() {
    let mut bytes = Vec::new();
    append_field(&mut bytes, b"a");
    append_field(&mut bytes, b"bc");
    assert_eq!(&bytes[..8], &1u64.to_le_bytes());
    assert_eq!(&bytes[9..17], &2u64.to_le_bytes());
}

#[test]
fn trims_non_utf8_output_without_loss() {
    assert_eq!(trim_ascii(b" \ttool\n"), b"tool");
}

#[test]
fn parses_numeric_compiler_major() {
    assert_eq!(parse_major_version(b"16.1.0\n"), Some(16));
    assert_eq!(parse_major_version(b"not-a-version"), None);
}

fn outputs() -> QueryOutputs {
    QueryOutputs {
        f951: b"/usr/libexec/f951\n".to_vec(),
        assembler: b"as\n".to_vec(),
        version: b"GNU Fortran 14\n".to_vec(),
        numeric_version: b"14.2.0\n".to_vec(),
        target: b"x86_64-linux-gnu\n".to_vec(),
        search_dirs: b"programs: =/usr/libexec:/usr/bin\n".to_vec(),
        specs_name: b"specs\n".to_vec(),
        specs: b"*asm:\n".to_vec(),
    }
}

#[test]
fn streaming_digest_matches_canonical_serialization() {
    let tool = vec![0x5a; 128 * 1024 + 17];
    let outputs = outputs();
    let mut canonical = Vec::new();
    append_field(&mut canonical, b"fcache-gfortran-fingerprint-v2");
    append_field(&mut canonical, b"/usr/bin/gfortran");
    append_field(&mut canonical, &tool);
    append_field(&mut canonical, &outputs.f951);
    append_field(&mut canonical, b"/usr/libexec/f951");
    append_field(&mut canonical, &tool);
    append_field(&mut canonical, &outputs.assembler);
    append_field(&mut canonical, b"/usr/bin/as");
    append_field(&mut canonical, &tool);
    append_field(&mut canonical, &outputs.version);
    append_field(&mut canonical, &outputs.numeric_version);
    append_field(&mut canonical, &outputs.target);
    append_field(&mut canonical, &outputs.search_dirs);
    append_field(&mut canonical, &outputs.specs_name);
    append_field(&mut canonical, b"built-in-specs");
    append_field(&mut canonical, &outputs.specs);
    let digest = fingerprint_digest(
        (b"/usr/bin/gfortran", &tool),
        (b"/usr/libexec/f951", &tool),
        (b"/usr/bin/as", &tool),
        None,
        &outputs,
    );
    assert_eq!(digest, *blake3::hash(&canonical).as_bytes());
    assert_eq!(DirectDigest::hash(&canonical).bytes, digest);
}

fn answered(text: &str) -> QueryRun {
    QueryRun::Answered { stdout: text.as_bytes().to_vec(), stderr: Vec::new() }
}

fn stat(inode: u64, size: usize) -> ToolStat {
    ToolStat {
        device: 1,
        inode,
        mode: 0o100755,
        size: size as u64,
        modified_seconds: 10,
        modified_nanoseconds: 0,
        changed_seconds: 10,
        changed_nanoseconds: 0,
    }
}

fn reading(contents: &[u8]) -> ToolReading {
    let stat = stat(1, contents.len());
    ToolReading { before: Ok(stat), contents: Ok(contents.to_vec()), after: Ok(stat) }
}

fn context() -> FingerprintContext {
    FingerprintContext::new(b"/usr/bin/gfortran".to_vec(), b"/work".to_vec(), Vec::new())
}

fn answers() -> ToolchainAnswers {
    ToolchainAnswers {
        cwd_is_directory: true,
        driver_states: vec![CandidateState::File],
        search_dirs: answered("programs: =/usr/libexec:/usr/bin\n"),
        f951: ToolAnswer {
            run: answered("/usr/libexec/f951\n"),
            states: vec![CandidateState::File],
            reading: reading(b"f951"),
        },
        assembler: ToolAnswer {
            run: answered("/usr/bin/as\n"),
            states: vec![CandidateState::File],
            reading: reading(b"as"),
        },
        version: answered("GNU Fortran 14\n"),
        numeric_version: answered("14.2.0\n"),
        target: answered("x86_64-linux-gnu\n"),
        specs_name: answered("specs\n"),
        specs: answered("*asm:\n"),
        specs_files: vec![false, false, false],
        specs_canonical: None,
        specs_states: vec![SpecsState::Absent, SpecsState::Absent],
        driver_reading: reading(b"driver"),
        specs_reading: reading(b""),
    }
}

#[test]
fn a_toolchain_is_identified_by_its_tools_and_answers() {
    let observed = observe_gfortran(&context(), &answers()).unwrap();
    assert_eq!(observed.fingerprint.major_version, 14);
    assert_eq!(observed.fingerprint.driver, b"/usr/bin/gfortran");
    assert_eq!(observed.fingerprint.f951, b"/usr/libexec/f951");
    assert_eq!(observed.fingerprint.assembler, b"/usr/bin/as");
    assert_eq!(observed.specs_path, None);
    assert_eq!(
        observed.specs_absent,
        vec![b"/usr/libexec/specs".to_vec(), b"/usr/bin/specs".to_vec()]
    );
    assert!(observed.specs_resolution_complete);

    let mut other = answers();
    other.f951.reading = reading(b"patched");
    let changed = fingerprint_gfortran_in(&context(), &other).unwrap();
    assert_ne!(changed.digest, observed.fingerprint.digest);
    assert_eq!(changed.digest_hex().len(), 64);
}

#[test]
fn a_toolchain_that_cannot_be_asked_has_no_fingerprint() {
    let mut given = answers();
    given.driver_states = vec![CandidateState::Absent];
    assert!(matches!(
        observe_gfortran(&context(), &given),
        Err(FingerprintError::DriverNotFound(_))
    ));

    let mut given = answers();
    given.version = QueryRun::Failed("denied".to_string());
    assert!(matches!(
        observe_gfortran(&context(), &given),
        Err(FingerprintError::Execute { .. })
    ));

    let mut given = answers();
    given.target = QueryRun::Exited("exit status: 1".to_string());
    assert!(matches!(
        observe_gfortran(&context(), &given),
        Err(FingerprintError::CommandFailed { .. })
    ));

    let mut given = answers();
    given.assembler.run = answered("\n");
    assert!(matches!(
        observe_gfortran(&context(), &given),
        Err(FingerprintError::MissingToolPath { .. })
    ));

    let mut given = answers();
    given.driver_reading.after = Ok(stat(2, 6));
    assert!(matches!(
        observe_gfortran(&context(), &given),
        Err(FingerprintError::ReadTool { .. })
    ));

    let mut given = answers();
    given.specs =
        QueryRun::Answered { stdout: vec![0; 0x40_0000], stderr: Vec::new() };
    assert!(matches!(
        observe_gfortran(&context(), &given),
        Err(FingerprintError::QueryOutputTooLarge { .. })
    ));
}

#[test]
fn answers_keep_both_streams_apart() {
    let run = QueryRun::Answered { stdout: b"out".to_vec(), stderr: b"err".to_vec() };
    assert_eq!(query_answer(b"gfortran", &run).unwrap(), b"out\0stderr\0err");
}

#[test]
fn programs_are_looked_for_in_order() {
    let roots = parse_program_search_dirs(b"install: /x\nprograms: =/a:rel\n", b"/work");
    assert_eq!(roots, vec![b"/a".to_vec(), b"/work/rel".to_vec()]);
    assert_eq!(
        program_candidates(b"as", b"/work", &Some(b"/bin:/usr/bin".to_vec()), &roots),
        vec![
            b"/a/as".to_vec(),
            b"/work/rel/as".to_vec(),
            b"/bin/as".to_vec(),
            b"/usr/bin/as".to_vec(),
        ]
    );
    assert_eq!(
        program_candidates(b"./as", b"/work", &None, &roots),
        vec![b"/work/./as".to_vec()]
    );
}
