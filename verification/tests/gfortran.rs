use fcache::compiler::gfortran::{
    parse_args, BypassReason, Cacheability, DependencyMode, ParseError, Preprocessing, ProbeError,
};

fn text(value: &str) -> Vec<u8> {
    value.as_bytes().to_vec()
}

fn args(values: &[&str]) -> Vec<Vec<u8>> {
    values.iter().map(|value| value.as_bytes().to_vec()).collect()
}

fn assert_bypass(option_args: &[&str], expected: BypassReason) {
    let mut command = vec!["-c"];
    command.extend_from_slice(option_args);
    command.push("main.f90");
    assert_eq!(
        parse_args(&args(&command)).unwrap().cacheability,
        Cacheability::Bypass(expected)
    );
}

#[test]
fn parses_ordered_paths_and_outputs() {
    let parsed = parse_args(&args(&[
        "-c",
        "-cpp",
        "-Ione",
        "-I",
        "two",
        "-Jold",
        "-o",
        "x.o",
        "-MMD",
        "-MFdeps.d",
        "main.f90",
    ]))
    .unwrap();
    assert_eq!(parsed.cacheability, Cacheability::Cacheable);
    assert_eq!(parsed.preprocessing, Preprocessing::Cpp);
    assert_eq!(parsed.include_dirs, args(&["one", "two"]));
    assert_eq!(parsed.original_module_dirs, args(&["old"]));
    assert_eq!(parsed.object, Some(text("x.o")));
    assert_eq!(parsed.user_depfile, Some(text("deps.d")));
    assert_eq!(parsed.dependency_mode, Some(DependencyMode::Mmd));
}

#[test]
fn rejects_links_response_files_and_side_effects() {
    let linked = parse_args(&args(&["main.f90"])).unwrap();
    assert_eq!(linked.cacheability, Cacheability::Bypass(BypassReason::LinkAction));
    let response = parse_args(&args(&["-c", "@args", "main.f90"])).unwrap();
    assert!(matches!(
        response.cacheability,
        Cacheability::Bypass(BypassReason::ResponseFile(_))
    ));
    let profile = parse_args(&args(&["-c", "-fprofile-generate", "main.f90"])).unwrap();
    assert_eq!(profile.cacheability, Cacheability::Bypass(BypassReason::CoverageOrProfile));
    let callgraph = parse_args(&args(&["-c", "-fcallgraph-info", "main.f90"])).unwrap();
    assert_eq!(callgraph.cacheability, Cacheability::Bypass(BypassReason::DumpOutput));
}

#[test]
fn accepts_explicitly_supported_semantic_options() {
    let parsed = parse_args(&args(&[
        "-c",
        "-Wall",
        "-Wimplicit-interface",
        "-O2",
        "-std=f2018",
        "-ffree-form",
        "-fcheck=bounds",
        "-fPIC",
        "-march=native",
        "-g3",
        "main.f90",
    ]))
    .unwrap();
    assert_eq!(parsed.cacheability, Cacheability::Cacheable);
}

#[test]
fn accepts_wsjtx_macos_options() {
    let command = args(&[
        "-c",
        "-cpp",
        "-isysroot",
        "/Applications/Xcode.app/SDKs/MacOSX.sdk",
        "-iframework",
        "/opt/homebrew/opt/qt@5/lib",
        "-F/opt/homebrew/opt/qt@5/lib",
        "-mmacosx-version-min=12.0",
        "-fno-f2c",
        "-fbounds-check",
        "-fbacktrace",
        "-ffpe-summary=invalid,zero,overflow",
        "-Wmaybe-uninitialized",
        "-Wno-conversion",
        "-Wno-c-binding-type",
        "-Wno-aliasing",
        "-Wno-unused-dummy-argument",
        "-fno-second-underscore",
        "-fvisibility=hidden",
        "-O3",
        "-funroll-loops",
        "-funroll-all-loops",
        "-Wall",
        "-J",
        "modules",
        "-fopenmp",
        "main.F90",
    ]);
    let parsed = parse_args(&command).unwrap();
    assert_eq!(parsed.cacheability, Cacheability::Cacheable);
    assert_eq!(parsed.original_args, command);
}

#[test]
fn accepts_wsjtx_linux_options() {
    let command = args(&[
        "-c",
        "-cpp",
        "-Wa,--noexecstack",
        "-fsanitize=address,undefined",
        "-fno-sanitize-recover=all",
        "-fno-omit-frame-pointer",
        "-fdata-sections",
        "-ffunction-sections",
        "main.F90",
    ]);
    let parsed = parse_args(&command).unwrap();
    assert_eq!(parsed.cacheability, Cacheability::Cacheable);
    assert_eq!(parsed.original_args, command);
}

#[test]
fn rejects_missing_isysroot_value() {
    assert_eq!(
        parse_args(&args(&["-c", "main.F90", "-isysroot"])),
        Err(ParseError::MissingOptionArgument { option: text("-isysroot") })
    );
}

#[test]
fn rejects_missing_framework_search_values() {
    for option in ["-iframework", "-F"] {
        assert_eq!(
            parse_args(&args(&["-c", "main.F90", option])),
            Err(ParseError::MissingOptionArgument { option: text(option) })
        );
    }
}

#[test]
fn rejects_nearby_unsupported_wsjtx_option_spellings() {
    for option in [
        "-isysroot/Applications/Xcode.app/SDKs/MacOSX.sdk",
        "-mmacosx-version-min",
        "-mmacosx-version-min=",
        "-fno-f2cc",
        "-ffpe-summary=",
        "-ffpe-summaries=all",
        "-Wno-conversions",
        "-Wno-c-binding-types",
        "-fno-second-underscores",
        "-fvisibility=default",
    ] {
        assert_bypass(&[option], BypassReason::UnknownOption(text(option)));
    }
}

#[test]
fn bypasses_language_overrides() {
    assert_bypass(&["-x", "f95"], BypassReason::LanguageOverride);
    assert_bypass(&["-xf95"], BypassReason::LanguageOverride);
    assert_bypass(&["-x=f95"], BypassReason::LanguageOverride);
}

#[test]
fn bypasses_coverage_and_profile_outputs() {
    for option in [
        "--coverage",
        "-coverage",
        "-fprofile-arcs",
        "-ftest-coverage",
        "-fcondition-coverage",
        "-fpath-coverage",
        "-fprofile-generate",
        "-fprofile-use=profiles",
    ] {
        assert_bypass(&[option], BypassReason::CoverageOrProfile);
    }
}

#[test]
fn bypasses_optimization_records() {
    assert_bypass(&["-fsave-optimization-record"], BypassReason::OptimizationRecord);
    assert_bypass(
        &["-foptimization-record-file=main.opt-record.json.gz"],
        BypassReason::OptimizationRecord,
    );
}

#[test]
fn bypasses_file_diagnostics() {
    for option in [
        "-fdiagnostics-format=sarif-file",
        "-fdiagnostics-format=sarif-stderr",
        "-fdiagnostics-file=main.diag",
        "-fdiagnostics-add-output=sarif:file=main.sarif",
    ] {
        assert_bypass(&[option], BypassReason::FileDiagnostic);
    }
}

#[test]
fn bypasses_autofdo_inputs() {
    for option in
        ["-fauto-profile", "-fauto-profile=profile.afdo", "-fprofile-sample-use=profile.afdo"]
    {
        assert_bypass(&[option], BypassReason::AutoFdo);
    }
}

#[test]
fn bypasses_argument_carriers() {
    for option in [
        "-Wp,-DVALUE=1",
        "-Wa,--compress-debug-sections",
        "-Wa,--fatal-warnings",
        "-Wa,-a=listing.lst",
        "-Wl,-rpath,/tmp/lib",
    ] {
        assert_bypass(&[option], BypassReason::ArgumentCarrier);
    }
    for (option, value) in [
        ("-Wp", "-DVALUE=1"),
        ("-Wa", "--compress-debug-sections"),
        ("-Wl", "-rpath"),
        ("-Xpreprocessor", "-DVALUE=1"),
        ("-Xassembler", "--compress-debug-sections"),
        ("-Xlinker", "-rpath"),
    ] {
        assert_bypass(&[option, value], BypassReason::ArgumentCarrier);
    }
}

#[test]
fn rejects_empty_instrumentation_values() {
    for option in
        ["-fsanitize=", "-fno-sanitize=", "-fsanitize-recover=", "-fno-sanitize-recover="]
    {
        assert_bypass(&[option], BypassReason::UnknownOption(text(option)));
    }
}

#[test]
fn bypasses_plugins_specs_and_unknown_options() {
    for option in
        ["-fplugin=checker.so", "-fplugin-arg-checker-mode=strict", "-specs=custom.specs"]
    {
        assert_bypass(&[option], BypassReason::PluginOrSpecs);
    }
    for option in ["-funknown-semantic", "-Wunknown-warning", "-munknown-target", "-Ounknown"] {
        assert_bypass(&[option], BypassReason::UnknownOption(text(option)));
    }
}

#[test]
fn bypasses_stdout_depfiles() {
    assert_bypass(&["-MD", "-MF", "-"], BypassReason::StdoutDepfile);
    assert_bypass(&["-MD", "-MF-"], BypassReason::StdoutDepfile);
}

#[test]
fn probe_strips_dependency_flags_and_keeps_module_search_order() {
    let parsed =
        parse_args(&args(&["-c", "-cpp", "-Ione", "-Jorig", "-MD", "-MFuser.d", "main.f90"]))
            .unwrap();
    let probe =
        parsed.dependency_probe_argv(b"internal.d", b"private").unwrap();
    assert_eq!(
        probe,
        args(&[
            "-I",
            "one",
            "-I",
            "orig",
            "-fsyntax-only",
            "-cpp",
            "-Werror=date-time",
            "-MD",
            "-MF",
            "internal.d",
            "-J",
            "private",
            "main.f90",
        ])
    );
}

#[test]
fn probe_appends_original_module_dir_after_explicit_includes() {
    for command in [
        ["-c", "-cpp", "-J", "jmods", "-I", "explicit", "main.f90"],
        ["-c", "-cpp", "-I", "explicit", "-J", "jmods", "main.f90"],
    ] {
        let parsed = parse_args(&args(&command)).unwrap();
        let probe = parsed
            .dependency_probe_argv(b"internal.d", b"private")
            .unwrap();
        assert_eq!(
            probe,
            args(&[
                "-I",
                "explicit",
                "-I",
                "jmods",
                "-fsyntax-only",
                "-cpp",
                "-Werror=date-time",
                "-MD",
                "-MF",
                "internal.d",
                "-J",
                "private",
                "main.f90",
            ]),
            "command: {command:?}"
        );
    }
}

#[test]
fn duplicate_module_directories_bypass() {
    assert_bypass(&["-J", "a", "-J", "b"], BypassReason::DuplicateModuleDirectory);
    assert_bypass(&["-Ja", "-Jb"], BypassReason::DuplicateModuleDirectory);
    assert_bypass(&["-J", "same", "-J", "same"], BypassReason::DuplicateModuleDirectory);
}

#[test]
fn automatic_source_builds_identity_and_dependency_probes() {
    let parsed =
        parse_args(&args(&["-c", "-DVALUE=1", "-Ione", "-Jmodules", "main.f90"])).unwrap();
    assert_eq!(parsed.preprocessing, Preprocessing::Auto);
    assert_eq!(
        parsed.preprocessor_identity_argv().unwrap(),
        args(&[
            "-DVALUE=1",
            "-I",
            "one",
            "-I",
            "modules",
            "-cpp",
            "-Werror=date-time",
            "-E",
            "-P",
            "main.f90",
        ])
    );
    assert!(
        parsed.dependency_probe_argv(b"internal.d", b"private").is_ok()
    );

    let explicit = parse_args(&args(&["-c", "-cpp", "-DVALUE=1", "main.F90"])).unwrap();
    assert_eq!(
        explicit.preprocessor_observation_argv().unwrap(),
        args(&["-DVALUE=1", "-cpp", "-Werror=date-time", "-E", "-P", "main.F90",])
    );
}

#[test]
fn probe_preserves_wsjtx_macos_semantic_options() {
    let parsed = parse_args(&args(&[
        "-c",
        "-cpp",
        "-isysroot",
        "/Applications/Xcode.app/SDKs/MacOSX.sdk",
        "-mmacosx-version-min=12.0",
        "-fno-f2c",
        "-ffpe-summary=invalid,zero,overflow",
        "-Wno-conversion",
        "-Wno-c-binding-type",
        "-Wno-aliasing",
        "-Wno-unused-dummy-argument",
        "-fno-second-underscore",
        "-fvisibility=hidden",
        "-O3",
        "-funroll-loops",
        "-Wall",
        "-Jmodules",
        "-fopenmp",
        "main.F90",
    ]))
    .unwrap();
    let probe =
        parsed.dependency_probe_argv(b"internal.d", b"private").unwrap();
    assert_eq!(
        probe,
        args(&[
            "-isysroot",
            "/Applications/Xcode.app/SDKs/MacOSX.sdk",
            "-mmacosx-version-min=12.0",
            "-fno-f2c",
            "-ffpe-summary=invalid,zero,overflow",
            "-Wno-conversion",
            "-Wno-c-binding-type",
            "-Wno-aliasing",
            "-Wno-unused-dummy-argument",
            "-fno-second-underscore",
            "-fvisibility=hidden",
            "-O3",
            "-funroll-loops",
            "-Wall",
            "-fopenmp",
            "-I",
            "modules",
            "-fsyntax-only",
            "-cpp",
            "-Werror=date-time",
            "-MD",
            "-MF",
            "internal.d",
            "-J",
            "private",
            "main.F90",
        ])
    );
}

#[test]
fn derives_default_user_depfile_and_replays_make_target_options() {
    let parsed = parse_args(&args(&[
        "-c",
        "-cpp",
        "-MD",
        "-MT",
        "custom target",
        "-MQ",
        "quoted target",
        "-MQquoted target",
        "-MP",
        "-MTsecond",
        "-MP",
        "-o",
        "objects/main.o",
        "main.F90",
    ]))
    .unwrap();
    assert_eq!(parsed.cacheability, Cacheability::Cacheable);
    assert_eq!(parsed.user_depfile, Some(text("objects/main.d")));
    assert_eq!(parsed.dependency_mode, Some(DependencyMode::Md));
    assert_eq!(
        parsed.dependency_target_modifiers,
        args(&[
            "-MT",
            "custom target",
            "-MQ",
            "quoted target",
            "-MQquoted target",
            "-MP",
            "-MTsecond",
            "-MP",
        ])
    );
    let probe =
        parsed.dependency_probe_argv(b"internal.d", b"private").unwrap();
    assert_eq!(
        probe,
        args(&[
            "-fsyntax-only",
            "-cpp",
            "-Werror=date-time",
            "-MD",
            "-MF",
            "internal.d",
            "-J",
            "private",
            "-MT",
            "custom target",
            "-MQ",
            "quoted target",
            "-MQquoted target",
            "-MP",
            "-MTsecond",
            "-MP",
            "-o",
            "objects/main.o",
            "main.F90",
        ])
    );
}

#[test]
fn last_dependency_mode_wins() {
    let md = parse_args(&args(&["-c", "-MMD", "-MD", "main.f90"])).unwrap();
    assert_eq!(md.dependency_mode, Some(DependencyMode::Md));

    let mmd = parse_args(&args(&["-c", "-MD", "-MMD", "main.f90"])).unwrap();
    assert_eq!(mmd.dependency_mode, Some(DependencyMode::Mmd));
}

#[test]
fn rejects_fpreprocessed_dependency_probes() {
    let parsed = parse_args(&args(&["-c", "-fpreprocessed", "main.f90"])).unwrap();
    assert_eq!(parsed.preprocessing, Preprocessing::Fpreprocessed);
    assert!(!parsed.preprocessing.permits_probe());
    assert_eq!(
        parsed.dependency_probe_argv(b"internal.d", b"private"),
        Err(ProbeError::NotProbeable(BypassReason::MissingDependencyProbePreprocessing))
    );
}

#[test]
fn parse_and_probe_errors_say_what_is_wrong() {
    let missing = parse_args(&[text("-c"), text("-o")]).unwrap_err();
    assert_eq!(missing, ParseError::MissingOptionArgument { option: text("-o") });
    assert_eq!(missing.message("\"-o\""), "option \"-o\" requires an argument");
    assert_eq!(
        ProbeError::<Vec<u8>>::EmptyInternalPath.message(""),
        "dependency probe internal path is empty"
    );
    assert_eq!(
        ProbeError::NotProbeable(BypassReason::UnknownOption(text("-z"))).message("\"-z\""),
        "invocation is not probeable: UnknownOption(\"-z\")"
    );
    assert_eq!(
        ProbeError::<Vec<u8>>::NotProbeable(BypassReason::LinkAction).message(""),
        "invocation is not probeable: LinkAction"
    );
}
