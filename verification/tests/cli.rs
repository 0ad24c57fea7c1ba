use fcache::cli::{parse, parse_option, CliError, Command, Flag};

fn args(values: &[&str]) -> Vec<Vec<u8>> {
    values.iter().map(|value| value.as_bytes().to_vec()).collect()
}

#[test]
fn compiler_arguments_are_preserved_verbatim() {
    let input = args(&["gfortran", "-O2", "--help", "--show-stats", "--json"]);
    assert_eq!(parse(input.clone()).unwrap(), Command::Compiler(input));
}

#[test]
fn empty_invocation_remains_a_compiler_invocation() {
    assert_eq!(parse(Vec::new()).unwrap(), Command::Compiler(Vec::new()));
}

#[test]
fn parses_all_administrative_actions() {
    assert_eq!(parse(args(&["--show-stats", "--json"])).unwrap(), Command::ShowStats { json: true });
    assert_eq!(parse(args(&["--zero-stats"])).unwrap(), Command::ZeroStats);
    assert_eq!(parse(args(&["--show-config"])).unwrap(), Command::ShowConfig);
    assert_eq!(parse(args(&["--trim"])).unwrap(), Command::Trim);
    assert_eq!(parse(args(&["--clear"])).unwrap(), Command::Clear);
    assert_eq!(parse(args(&["--version"])).unwrap(), Command::Version);
    assert_eq!(parse(args(&["--help"])).unwrap(), Command::Help);
}

#[test]
fn parses_explain_with_required_separator() {
    assert_eq!(
        parse(args(&["--explain", "--json", "--", "gfortran", "-c", "source.f90"])).unwrap(),
        Command::Explain { arguments: args(&["gfortran", "-c", "source.f90"]), json: true }
    );
}

#[test]
fn administrative_actions_are_mutually_exclusive() {
    let error = parse(args(&["--trim", "--clear"])).unwrap_err();
    assert_eq!(error, CliError::ConflictingActions);
}

#[test]
fn unsupported_json_is_an_error() {
    let error = parse(args(&["--zero-stats", "--json"])).unwrap_err();
    assert_eq!(error, CliError::UnsupportedJson);
    assert!(error.message().contains("--show-stats or --explain"));
}

#[test]
fn json_without_an_action_is_an_error() {
    let error = parse(args(&["--json"])).unwrap_err();
    assert_eq!(error, CliError::MissingAction);
}

#[test]
fn explain_requires_a_compiler_command() {
    let error = parse(args(&["--explain"])).unwrap_err();
    assert_eq!(error, CliError::MissingCompiler);
    assert!(error.message().contains("-- <compiler> <arguments...>"));
    assert_eq!(parse(args(&["--explain", "--"])), Err(CliError::MissingCompiler));
}

#[test]
fn explain_rejects_arguments_without_separator() {
    let error = parse(args(&["--explain", "gfortran", "-c", "source.f90"])).unwrap_err();
    assert_eq!(error, CliError::UnknownArgument);
}

#[test]
fn malformed_leading_option_is_not_a_compiler_invocation() {
    let error = parse(args(&["--show-stats=unexpected"])).unwrap_err();
    assert_ne!(error, CliError::MissingAction);
    assert_ne!(error, CliError::MissingCompiler);
    assert_eq!(error, CliError::UnexpectedValue);
}

#[test]
fn options_are_long_flags_given_once() {
    assert_eq!(parse_option(b"--trim"), Ok(Flag::Trim));
    assert_eq!(parse_option(b"--tri"), Err(CliError::UnknownArgument));
    assert_eq!(parse_option(b"-t"), Err(CliError::UnknownArgument));
    assert_eq!(parse_option(b"trim"), Err(CliError::UnknownArgument));
    assert_eq!(parse(args(&["--trim", "--trim"])), Err(CliError::RepeatedOption));
    assert_eq!(parse(args(&["--trim", "-"])), Err(CliError::UnknownArgument));
    assert_eq!(parse(args(&["--", "gfortran"])), Err(CliError::MissingAction));
}

#[test]
fn everything_behind_the_separator_belongs_to_the_compiler() {
    assert_eq!(
        parse(args(&["--explain", "--", "gfortran", "--", "--json"])).unwrap(),
        Command::Explain { arguments: args(&["gfortran", "--", "--json"]), json: false }
    );
    assert_eq!(parse(args(&["--trim", "--", "gfortran"])).unwrap(), Command::Trim);
}

#[test]
fn a_program_name_that_is_no_text_is_a_compiler() {
    let input = vec![vec![0x2d, 0xff], b"--trim".to_vec()];
    assert_eq!(parse(input.clone()).unwrap(), Command::Compiler(input));
}
