use fcache::compiler::depfile::{parse, DepfileError, DepfileRule};

#[test]
fn parses_escaped_paths_and_preserves_rule_boundaries() {
    let parsed =
        parse(b"x.o y.mod: src\\ file.f90 inc\\#x\\$y\\\\z \\\n  more.f90\n.PHONY: all\n")
            .unwrap();
    assert_eq!(
        parsed.rules,
        vec![
            DepfileRule {
                targets: vec![b"x.o".to_vec(), b"y.mod".to_vec()],
                prerequisites: vec![
                    b"src file.f90".to_vec(),
                    b"inc#x$y\\z".to_vec(),
                    b"more.f90".to_vec(),
                ],
            },
            DepfileRule {
                targets: vec![b".PHONY".to_vec()],
                prerequisites: vec![b"all".to_vec()],
            },
        ]
    );
}

#[test]
fn treats_literal_phony_target_as_an_ordinary_dependency_rule() {
    let parsed = parse(b".PHONY: source.F90 value.inc\n").unwrap();
    assert_eq!(parsed.rules[0].targets, vec![b".PHONY".to_vec()]);
    assert_eq!(
        parsed.rules[0].prerequisites,
        vec![b"source.F90".to_vec(), b"value.inc".to_vec()]
    );
}

#[test]
fn preserves_dummy_rules_without_inferring_module_outputs() {
    let parsed = parse(b"custom.mod: main.f90\nused.mod:\n").unwrap();
    assert_eq!(parsed.rules.len(), 2);
    assert_eq!(parsed.rules[0].targets, vec![b"custom.mod".to_vec()]);
    assert!(!parsed.rules[0].is_dummy());
    assert_eq!(parsed.rules[1].targets, vec![b"used.mod".to_vec()]);
    assert!(parsed.rules[1].is_dummy());
}

#[test]
fn preserves_non_utf8_path_bytes() {
    let parsed = parse(b"target\xff.o: source\xfe.f90\n").unwrap();
    assert_eq!(parsed.rules[0].targets, vec![b"target\xff.o".to_vec()]);
    assert_eq!(parsed.rules[0].prerequisites, vec![b"source\xfe.f90".to_vec()]);
}

#[test]
fn does_not_treat_colon_without_following_space_as_separator() {
    assert!(parse(b"x.o:y.f90\n").is_err());
}

#[test]
fn depfile_errors_say_what_is_missing() {
    assert_eq!(DepfileError::MissingTarget.message(), "dependency rule has no target");
    assert_eq!(DepfileError::MissingSeparator.message(), "dependency rule has no separator");
}
