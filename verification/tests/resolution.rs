use fcache::compiler::gfortran::parse_args;
use fcache::compiler::resolution::{
    DependencyObservation, DependencyResolutionKind, DirectIneligibleReason, EnvironmentSearchPaths,
    ForcedInput, ForcedInputKind, ObservedSearchFeatures, ResolutionContext, SearchPath,
    SearchPathKind, SearchRootOrigin,
};

fn text(value: &str) -> Vec<u8> {
    value.as_bytes().to_vec()
}

fn args(values: &[&str]) -> Vec<Vec<u8>> {
    values.iter().map(|value| value.as_bytes().to_vec()).collect()
}

fn context<'a>(
    parents: &'a Vec<Vec<u8>>,
    environment: &'a EnvironmentSearchPaths,
    features: &'a ObservedSearchFeatures,
) -> ResolutionContext<'a> {
    ResolutionContext {
        cwd: b"/work".as_slice(),
        include_parents: parents,
        environment,
        observed_features: features,
    }
}

#[test]
fn parses_structured_search_arguments_without_reordering_probe_argv() {
    let parsed = parse_args(&args(&[
        "-c",
        "-cpp",
        "-iquote",
        "quote",
        "-Iinclude-one",
        "-isystemsystem",
        "-I",
        "include-two",
        "-idirafter",
        "after",
        "-include",
        "forced.h",
        "-imacrosmacros.h",
        "-fintrinsic-modules-path=intrinsic",
        "-fintrinsic-modules-path",
        "intrinsic-two",
        "-Jmodules",
        "main.F90",
    ]))
    .unwrap();

    assert_eq!(
        parsed.search_paths,
        vec![
            SearchPath { kind: SearchPathKind::Quote, path: text("quote") },
            SearchPath { kind: SearchPathKind::Include, path: text("include-one") },
            SearchPath { kind: SearchPathKind::System, path: text("system") },
            SearchPath { kind: SearchPathKind::Include, path: text("include-two") },
            SearchPath { kind: SearchPathKind::After, path: text("after") },
        ]
    );
    assert_eq!(
        parsed.forced_inputs,
        vec![
            ForcedInput { kind: ForcedInputKind::Include, path: text("forced.h") },
            ForcedInput { kind: ForcedInputKind::Imacros, path: text("macros.h") },
        ]
    );
    assert_eq!(parsed.intrinsic_module_dirs, args(&["intrinsic", "intrinsic-two"]));
    assert_eq!(
        parsed
            .dependency_probe_argv(
                b"probe.d",
                b"private"
            )
            .unwrap(),
        args(&[
            "-iquote",
            "quote",
            "-I",
            "include-one",
            "-isystemsystem",
            "-I",
            "include-two",
            "-idirafter",
            "after",
            "-include",
            "forced.h",
            "-imacrosmacros.h",
            "-fintrinsic-modules-path=intrinsic",
            "-fintrinsic-modules-path",
            "intrinsic-two",
            "-I",
            "modules",
            "-fsyntax-only",
            "-cpp",
            "-Werror=date-time",
            "-MD",
            "-MF",
            "probe.d",
            "-J",
            "private",
            "main.F90",
        ])
    );
}

#[test]
fn constructs_search_tiers_and_places_module_output_after_explicit_includes() {
    let parsed = parse_args(&args(&[
        "-c",
        "-Ione",
        "-Jmodules",
        "-Itwo",
        "-iquotequote",
        "-isystemsystem",
        "main.F90",
    ]))
    .unwrap();
    let parents = vec![text("/work/nested")];
    let environment = EnvironmentSearchPaths {
        includes: args(&["env-include"]),
        system: args(&["env-system"]),
        modules: args(&["env-modules"]),
        complete: true,
        ..EnvironmentSearchPaths::default()
    };
    let features = ObservedSearchFeatures::scan(&vec![b"program main".to_vec()]);
    let model =
        parsed.search_resolution_model(context(&parents, &environment, &features)).unwrap();

    let module_paths = model.module_roots.iter().map(|root| &root.path).collect::<Vec<_>>();
    assert_eq!(
        module_paths,
        vec![
            &text("/work"),
            &text("/work/one"),
            &text("/work/two"),
            &text("/work/modules"),
            &text("/work/env-modules"),
        ]
    );
    assert_eq!(model.module_roots[3].origin, SearchRootOrigin::ModuleOutput);
    let quoted_paths =
        model.quoted_include_roots.iter().map(|root| &root.path).collect::<Vec<_>>();
    assert_eq!(
        quoted_paths,
        vec![
            &text("/work"),
            &text("/work/nested"),
            &text("/work"),
            &text("/work/quote"),
            &text("/work/one"),
            &text("/work/two"),
            &text("/work/env-include"),
            &text("/work/system"),
            &text("/work/env-system"),
        ]
    );
}

#[test]
fn derives_all_earlier_module_and_include_shadow_candidates() {
    let parsed =
        parse_args(&args(&["-c", "-Iearly", "-Iselected", "-Jmodules", "main.F90"])).unwrap();
    let environment = EnvironmentSearchPaths::complete_empty();
    let features = ObservedSearchFeatures::scan(&vec![b"program main".to_vec()]);
    let model = parsed.search_resolution_model(context(&Vec::new(), &environment, &features)).unwrap();
    let proof = model
        .prove(&vec![
            DependencyObservation {
                prerequisite: b"selected/shadow.mod".to_vec(),
                resolved_path: text("/work/selected/shadow.mod"),
                kind: DependencyResolutionKind::Module,
            },
            DependencyObservation {
                prerequisite: b"selected/nested/value.inc".to_vec(),
                resolved_path: text("/work/selected/nested/value.inc"),
                kind: DependencyResolutionKind::Include,
            },
        ])
        .unwrap();

    let negatives = proof
        .negative_candidates
        .iter()
        .map(|witness| witness.path.clone())
        .collect::<Vec<_>>();
    assert!(negatives.contains(&text("/work/shadow.mod")));
    assert!(negatives.contains(&text("/work/early/shadow.mod")));
    assert!(negatives.contains(&text("/work/nested/value.inc")));
    assert!(negatives.contains(&text("/work/early/nested/value.inc")));
    assert_eq!(proof.selected.len(), 2);
}

#[test]
fn rejects_incomplete_or_unprovable_search_semantics() {
    let parsed = parse_args(&args(&["-c", "-Iinclude", "main.F90"])).unwrap();
    let environment = EnvironmentSearchPaths::default();
    let features = ObservedSearchFeatures::scan(&vec![b"program main".to_vec()]);
    assert_eq!(
        parsed.search_resolution_model(context(&Vec::new(), &environment, &features)),
        Err(DirectIneligibleReason::UnmodeledEnvironment)
    );

    let environment = EnvironmentSearchPaths::complete_empty();
    let include_next = ObservedSearchFeatures::scan(&vec![b"#include_next <value.h>".to_vec()]);
    assert_eq!(
        parsed.search_resolution_model(context(&Vec::new(), &environment, &include_next)),
        Err(DirectIneligibleReason::IncludeNext)
    );
    let has_include =
        ObservedSearchFeatures::scan(&vec![b"#if __has_include(<value.h>)".to_vec()]);
    assert_eq!(
        parsed.search_resolution_model(context(&Vec::new(), &environment, &has_include)),
        Err(DirectIneligibleReason::HasInclude)
    );
    let spliced_has_include =
        ObservedSearchFeatures::scan(&vec![b"#if __has_\\\ninclude(<value.h>)".to_vec()]);
    assert_eq!(
        parsed.search_resolution_model(context(&Vec::new(), &environment, &spliced_has_include)),
        Err(DirectIneligibleReason::HasInclude)
    );
    let token_pasting =
        ObservedSearchFeatures::scan(&vec![b"#define QUERY(a, b) a ## b".to_vec()]);
    assert_eq!(
        parsed.search_resolution_model(context(&Vec::new(), &environment, &token_pasting)),
        Err(DirectIneligibleReason::TokenPasting)
    );

    let fortran_text = ObservedSearchFeatures::scan(&vec![
        b"character(len=*), parameter :: marker = '##' ! __has_include include_next".to_vec()]);
    assert!(parsed.search_resolution_model(context(&Vec::new(), &environment, &fortran_text)).is_ok());

    let model = parsed.search_resolution_model(context(&Vec::new(), &environment, &features)).unwrap();
    assert_eq!(
        model.prove(&vec![DependencyObservation {
            prerequisite: b"/outside/value.inc".to_vec(),
            resolved_path: text("/outside/value.inc"),
            kind: DependencyResolutionKind::Include,
        }]),
        Err(DirectIneligibleReason::UnresolvedPrerequisite(b"/outside/value.inc".to_vec()))
    );
}

#[test]
fn rejects_search_arguments_with_unmodeled_resolution_rules() {
    let environment = EnvironmentSearchPaths::complete_empty();
    let features = ObservedSearchFeatures::scan(&vec![b"program main".to_vec()]);
    for arguments in [vec!["-c", "-I-", "main.F90"], vec!["-c", "-F/frameworks", "main.F90"]] {
        let parsed = parse_args(&args(&arguments)).unwrap();
        assert!(matches!(
            parsed.search_resolution_model(context(&Vec::new(), &environment, &features)),
            Err(DirectIneligibleReason::UnmodeledArgument(_))
        ));
    }

    let sysroot = parse_args(&args(&["-c", "-isysroot", "/sdk", "main.F90"])).unwrap();
    assert!(sysroot.search_resolution_model(context(&Vec::new(), &environment, &features)).is_ok());
}

#[test]
fn requires_each_forced_input_to_match_its_configured_spelling() {
    let parsed =
        parse_args(&args(&["-c", "-Iinclude", "-include", "nested/forced.h", "main.F90"]))
            .unwrap();
    let environment = EnvironmentSearchPaths::complete_empty();
    let features = ObservedSearchFeatures::scan(&vec![b"program main".to_vec()]);
    let model = parsed.search_resolution_model(context(&Vec::new(), &environment, &features)).unwrap();
    assert_eq!(model.prove(&Vec::new()), Err(DirectIneligibleReason::MissingForcedInput(0)));
    assert_eq!(
        model.prove(&vec![DependencyObservation {
            prerequisite: b"include/other.h".to_vec(),
            resolved_path: text("/work/include/other.h"),
            kind: DependencyResolutionKind::ForcedInput(0),
        }]),
        Err(DirectIneligibleReason::UnresolvedPrerequisite(b"include/other.h".to_vec()))
    );
    let proof = model
        .prove(&vec![DependencyObservation {
            prerequisite: b"include/nested/forced.h".to_vec(),
            resolved_path: text("/work/include/nested/forced.h"),
            kind: DependencyResolutionKind::ForcedInput(0),
        }])
        .unwrap();
    assert_eq!(proof.selected.len(), 1);
    assert!(
        proof
            .negative_candidates
            .iter()
            .any(|witness| witness.path == b"/work/nested/forced.h")
    );
}

#[test]
fn preserves_non_utf8_prerequisite_bytes() {
    let include_dir = b"inc\xff".to_vec();
    let source = text("main.F90");
    let parsed =
        parse_args(&[text("-c"), text("-I"), include_dir, source]).unwrap();
    let environment = EnvironmentSearchPaths::complete_empty();
    let features = ObservedSearchFeatures::scan(&vec![b"program main".to_vec()]);
    let model = parsed.search_resolution_model(context(&Vec::new(), &environment, &features)).unwrap();
    let resolved = b"/work/inc\xff/value.inc".to_vec();
    let proof = model
        .prove(&vec![DependencyObservation {
            prerequisite: b"inc\xff/value.inc".to_vec(),
            resolved_path: resolved.clone(),
            kind: DependencyResolutionKind::Include,
        }])
        .unwrap();
    assert_eq!(proof.selected[0].selected_path, resolved);
}

#[test]
fn ineligible_searches_say_why() {
    assert_eq!(
        DirectIneligibleReason::<Vec<u8>>::IncludeNext.message(""),
        "include_next cannot be proven from a depfile"
    );
    assert_eq!(
        DirectIneligibleReason::<Vec<u8>>::RelativeWorkingDirectory.message(""),
        "the working directory must be absolute"
    );
    assert_eq!(
        DirectIneligibleReason::<Vec<u8>>::MissingForcedInput(10).message(""),
        "forced input at argument index 10 is absent from the authoritative observation"
    );
    assert_eq!(
        DirectIneligibleReason::UnmodeledArgument(b"-I-".to_vec()).message("\"-I-\""),
        "search-affecting argument \"-I-\" is not modeled"
    );
    assert_eq!(
        DirectIneligibleReason::UnresolvedPrerequisite(b"a.h".to_vec()).message(""),
        "dependency prerequisite [97, 46, 104] has no complete modeled resolution"
    );
    assert_eq!(
        DirectIneligibleReason::UnresolvedPrerequisite(Vec::new()).message(""),
        "dependency prerequisite [] has no complete modeled resolution"
    );
}
