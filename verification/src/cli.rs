//! Administrative command-line handling.
use vstd::prelude::*;

use crate::bstr;
use crate::config;
use crate::config::ConfigError;

verus! {

broadcast use bstr::lemma_views_push;

/// The byte `-`.
pub const DASH: u8 = 0x2d;

/// The byte `=`.
pub const EQUALS: u8 = 0x3d;

/// What the launcher is asked to do.
#[derive(Clone, Debug, PartialEq, Eq)]
pub enum Command<L = Vec<Vec<u8>>> {
    Compiler(L),
    Explain { arguments: L, json: bool },
    ShowStats { json: bool },
    ZeroStats,
    ShowConfig,
    Trim,
    Clear,
    Version,
    Help,
}

impl View for Command {
    type V = Command<Seq<Seq<u8>>>;

    open spec fn view(&self) -> Command<Seq<Seq<u8>>> {
        match *self {
            Command::Compiler(arguments) => Command::Compiler(bstr::views(arguments@)),
            Command::Explain { arguments, json } => Command::Explain {
                arguments: bstr::views(arguments@),
                json,
            },
            Command::ShowStats { json } => Command::ShowStats { json },
            Command::ZeroStats => Command::ZeroStats,
            Command::ShowConfig => Command::ShowConfig,
            Command::Trim => Command::Trim,
            Command::Clear => Command::Clear,
            Command::Version => Command::Version,
            Command::Help => Command::Help,
        }
    }
}

/// An administrative option.
#[derive(Clone, Copy, Debug, PartialEq, Eq, Structural)]
pub enum Flag {
    Explain,
    ShowStats,
    Json,
    ZeroStats,
    ShowConfig,
    Trim,
    Clear,
    Version,
    Help,
}

/// Why a command line is refused.
#[derive(Clone, Copy, Debug, PartialEq, Eq, Structural)]
pub enum CliError {
    /// An argument is none of the options.
    UnknownArgument,
    /// An option was given a value.
    UnexpectedValue,
    /// An option was given twice.
    RepeatedOption,
    /// There are two things to do.
    ConflictingActions,
    /// There is nothing to do.
    MissingAction,
    /// There is nothing that could be shown as JSON.
    UnsupportedJson,
    /// There is no compiler command to explain.
    MissingCompiler,
}

impl CliError {
    /// What is wrong.
    pub fn message(self) -> (text: &'static str)
        ensures
            text@ == match self {
                CliError::UnknownArgument => "unexpected argument found"@,
                CliError::UnexpectedValue => "unexpected value for an option"@,
                CliError::RepeatedOption => "an option cannot be used multiple times"@,
                CliError::ConflictingActions => "only one administrative action can be used"@,
                CliError::MissingAction => "an administrative action is required"@,
                CliError::UnsupportedJson => {
                    "--json can only be used with --show-stats or --explain"@
                },
                CliError::MissingCompiler => "--explain requires `-- <compiler> <arguments...>`"@,
            },
    {
        match self {
            CliError::UnknownArgument => "unexpected argument found",
            CliError::UnexpectedValue => "unexpected value for an option",
            CliError::RepeatedOption => "an option cannot be used multiple times",
            CliError::ConflictingActions => "only one administrative action can be used",
            CliError::MissingAction => "an administrative action is required",
            CliError::UnsupportedJson => "--json can only be used with --show-stats or --explain",
            CliError::MissingCompiler => "--explain requires `-- <compiler> <arguments...>`",
        }
    }
}

/// A command line starts with an option, and not with a compiler.
pub open spec fn administrative(arguments: Seq<Seq<u8>>) -> bool {
    arguments.len() > 0 && bstr::is_utf8(arguments[0]) && arguments[0].len() > 0
        && arguments[0][0] == DASH
}

/// The option of a name.
pub open spec fn named(name: Seq<u8>) -> Option<Flag> {
    if name == bstr::utf8("explain"@) {
        Some(Flag::Explain)
    } else if name == bstr::utf8("show-stats"@) {
        Some(Flag::ShowStats)
    } else if name == bstr::utf8("json"@) {
        Some(Flag::Json)
    } else if name == bstr::utf8("zero-stats"@) {
        Some(Flag::ZeroStats)
    } else if name == bstr::utf8("show-config"@) {
        Some(Flag::ShowConfig)
    } else if name == bstr::utf8("trim"@) {
        Some(Flag::Trim)
    } else if name == bstr::utf8("clear"@) {
        Some(Flag::Clear)
    } else if name == bstr::utf8("version"@) {
        Some(Flag::Version)
    } else if name == bstr::utf8("help"@) {
        Some(Flag::Help)
    } else {
        None
    }
}

/// The option that an argument is.
pub open spec fn option_of(argument: Seq<u8>) -> Result<Flag, CliError> {
    if !(argument.len() >= 2 && argument[0] == DASH && argument[1] == DASH) {
        Err(CliError::UnknownArgument)
    } else {
        let text = argument.skip(2);
        let end = bstr::first(text, EQUALS);
        match named(text.take(end as int)) {
            None => Err(CliError::UnknownArgument),
            Some(flag) => if end < text.len() {
                Err(CliError::UnexpectedValue)
            } else {
                Ok(flag)
            },
        }
    }
}

/// The options that arguments are, each at most once.
pub open spec fn options_of(arguments: Seq<Seq<u8>>) -> Result<Seq<Flag>, CliError>
    decreases arguments.len(),
{
    if arguments.len() == 0 {
        Ok(Seq::empty())
    } else {
        match options_of(arguments.drop_last()) {
            Err(error) => Err(error),
            Ok(flags) => match option_of(arguments.last()) {
                Err(error) => Err(error),
                Ok(flag) => if flags.contains(flag) {
                    Err(CliError::RepeatedOption)
                } else {
                    Ok(flags.push(flag))
                },
            },
        }
    }
}

/// Where the options end: at the first `--`.
pub open spec fn separator(arguments: Seq<Seq<u8>>) -> int
    decreases arguments.len(),
{
    if arguments.len() == 0 {
        0
    } else if arguments[0] == seq![DASH, DASH] {
        0
    } else {
        1 + separator(arguments.drop_first())
    }
}

/// What stands behind the first `--`.
pub open spec fn behind(arguments: Seq<Seq<u8>>) -> Seq<Seq<u8>> {
    if separator(arguments) < arguments.len() {
        arguments.skip(separator(arguments) + 1)
    } else {
        Seq::empty()
    }
}

/// What the options ask for, or why they are refused.
pub open spec fn selected(flags: Seq<Flag>, rest: Seq<Seq<u8>>) -> Result<
    Command<Seq<Seq<u8>>>,
    CliError,
> {
    let json = flags.contains(Flag::Json);
    let actions = flags.len() - if json {
        1int
    } else {
        0
    };
    if actions > 1 {
        Err(CliError::ConflictingActions)
    } else if actions < 1 {
        Err(CliError::MissingAction)
    } else if json && !flags.contains(Flag::ShowStats) && !flags.contains(Flag::Explain) {
        Err(CliError::UnsupportedJson)
    } else if flags.contains(Flag::Explain) && rest.len() == 0 {
        Err(CliError::MissingCompiler)
    } else if flags.contains(Flag::Explain) {
        Ok(Command::Explain { arguments: rest, json })
    } else if flags.contains(Flag::ShowStats) {
        Ok(Command::ShowStats { json })
    } else if flags.contains(Flag::ZeroStats) {
        Ok(Command::ZeroStats)
    } else if flags.contains(Flag::ShowConfig) {
        Ok(Command::ShowConfig)
    } else if flags.contains(Flag::Trim) {
        Ok(Command::Trim)
    } else if flags.contains(Flag::Clear) {
        Ok(Command::Clear)
    } else if flags.contains(Flag::Version) {
        Ok(Command::Version)
    } else {
        Ok(Command::Help)
    }
}

/// What a command line asks for, or why it is refused.
pub open spec fn parsed(arguments: Seq<Seq<u8>>) -> Result<Command<Seq<Seq<u8>>>, CliError> {
    if !administrative(arguments) {
        Ok(Command::Compiler(arguments))
    } else {
        match options_of(arguments.take(separator(arguments))) {
            Err(error) => Err(error),
            Ok(flags) => selected(flags, behind(arguments)),
        }
    }
}

fn is_administrative(arguments: &Vec<Vec<u8>>) -> (yes: bool)
    ensures
        yes == administrative(bstr::views(arguments@)),
{
    arguments.len() > 0 && bstr::to_text(arguments[0].as_slice()).is_some() && arguments[0].len()
        > 0 && arguments[0][0] == DASH
}

fn flag_named(name: &[u8]) -> (flag: Option<Flag>)
    ensures
        flag == named(name@),
{
    if bstr::is(name, "explain") {
        Some(Flag::Explain)
    } else if bstr::is(name, "show-stats") {
        Some(Flag::ShowStats)
    } else if bstr::is(name, "json") {
        Some(Flag::Json)
    } else if bstr::is(name, "zero-stats") {
        Some(Flag::ZeroStats)
    } else if bstr::is(name, "show-config") {
        Some(Flag::ShowConfig)
    } else if bstr::is(name, "trim") {
        Some(Flag::Trim)
    } else if bstr::is(name, "clear") {
        Some(Flag::Clear)
    } else if bstr::is(name, "version") {
        Some(Flag::Version)
    } else if bstr::is(name, "help") {
        Some(Flag::Help)
    } else {
        None
    }
}

/// The option that an argument is.
pub fn parse_option(argument: &[u8]) -> (outcome: Result<Flag, CliError>)
    ensures
        outcome == option_of(argument@),
{
    if !(argument.len() >= 2 && argument[0] == DASH && argument[1] == DASH) {
        return Err(CliError::UnknownArgument);
    }
    let text = bstr::skip(argument, 2);
    let end: usize = bstr::find_or_end(text, EQUALS);
    match flag_named(bstr::take(text, end)) {
        None => Err(CliError::UnknownArgument),
        Some(flag) => if end < text.len() {
            Err(CliError::UnexpectedValue)
        } else {
            Ok(flag)
        },
    }
}

fn given(flags: &Vec<Flag>, flag: Flag) -> (found: bool)
    ensures
        found == flags@.contains(flag),
{
    let mut index: usize = 0;
    while index < flags.len()
        invariant
            index <= flags@.len(),
            forall|at: int| 0 <= at < index ==> flags@[at] != flag,
        decreases flags@.len() - index,
    {
        if flags[index] == flag {
            return true;
        }
        index += 1;
    }
    false
}

fn find_separator(arguments: &Vec<Vec<u8>>) -> (at: usize)
    ensures
        at == separator(bstr::views(arguments@)),
        at <= arguments@.len(),
        at < arguments@.len() ==> bstr::views(arguments@)[at as int] == seq![DASH, DASH],
{
    let ghost all = bstr::views(arguments@);
    let mut index: usize = 0;
    assert(all.skip(0) =~= all);
    while index < arguments.len()
        invariant
            all == bstr::views(arguments@),
            all.len() == arguments@.len(),
            index <= all.len(),
            separator(all) == index + separator(all.skip(index as int)),
        decreases all.len() - index,
    {
        let argument = &arguments[index];
        assert(all[index as int] == argument@);
        assert(all.skip(index as int)[0] == argument@);
        assert(all.skip(index as int).drop_first() =~= all.skip(index + 1));
        if argument.len() == 2 && argument[0] == DASH && argument[1] == DASH {
            assert(argument@ =~= seq![DASH, DASH]);
            return index;
        }
        index += 1;
    }
    index
}

proof fn lemma_first_error(arguments: Seq<Seq<u8>>, count: int)
    requires
        0 <= count <= arguments.len(),
        options_of(arguments.take(count)) is Err,
    ensures
        options_of(arguments) == options_of(arguments.take(count)),
    decreases arguments.len() - count,
{
    if count < arguments.len() {
        assert(arguments.take(count + 1).drop_last() =~= arguments.take(count));
        lemma_first_error(arguments, count + 1);
    } else {
        assert(arguments.take(count) =~= arguments);
    }
}

fn parse_options(arguments: &Vec<Vec<u8>>, end: usize) -> (outcome: Result<Vec<Flag>, CliError>)
    requires
        end <= arguments@.len(),
    ensures
        match outcome {
            Ok(flags) => options_of(bstr::views(arguments@).take(end as int)) == Ok::<
                Seq<Flag>,
                CliError,
            >(flags@),
            Err(error) => options_of(bstr::views(arguments@).take(end as int)) == Err::<
                Seq<Flag>,
                CliError,
            >(error),
        },
{
    let ghost all = bstr::views(arguments@).take(end as int);
    let mut flags: Vec<Flag> = Vec::new();
    let mut index: usize = 0;
    while index < end
        invariant
            all == bstr::views(arguments@).take(end as int),
            all.len() == end,
            index <= end <= arguments@.len(),
            options_of(all.take(index as int)) == Ok::<Seq<Flag>, CliError>(flags@),
        decreases end - index,
    {
        assert(all[index as int] == arguments@[index as int]@);
        assert(all.take(index + 1).drop_last() =~= all.take(index as int));
        match parse_option(arguments[index].as_slice()) {
            Err(error) => {
                proof {
                    lemma_first_error(all, index + 1);
                }
                return Err(error);
            },
            Ok(flag) => {
                if given(&flags, flag) {
                    proof {
                        lemma_first_error(all, index + 1);
                    }
                    return Err(CliError::RepeatedOption);
                }
                flags.push(flag);
            },
        }
        index += 1;
    }
    assert(all.take(index as int) =~= all);
    Ok(flags)
}

fn select(flags: &Vec<Flag>, rest: Vec<Vec<u8>>) -> (outcome: Result<Command, CliError>)
    ensures
        match outcome {
            Ok(command) => selected(flags@, bstr::views(rest@)) == Ok::<
                Command<Seq<Seq<u8>>>,
                CliError,
            >(command@),
            Err(error) => selected(flags@, bstr::views(rest@)) == Err::<
                Command<Seq<Seq<u8>>>,
                CliError,
            >(error),
        },
{
    let json = given(flags, Flag::Json);
    let others: usize = if json {
        1
    } else {
        0
    };
    if flags.len() > 1 + others {
        return Err(CliError::ConflictingActions);
    }
    if flags.len() <= others {
        return Err(CliError::MissingAction);
    }
    if json && !given(flags, Flag::ShowStats) && !given(flags, Flag::Explain) {
        return Err(CliError::UnsupportedJson);
    }
    if given(flags, Flag::Explain) {
        if rest.len() == 0 {
            return Err(CliError::MissingCompiler);
        }
        return Ok(Command::Explain { arguments: rest, json });
    }
    Ok(
        if given(flags, Flag::ShowStats) {
            Command::ShowStats { json }
        } else if given(flags, Flag::ZeroStats) {
            Command::ZeroStats
        } else if given(flags, Flag::ShowConfig) {
            Command::ShowConfig
        } else if given(flags, Flag::Trim) {
            Command::Trim
        } else if given(flags, Flag::Clear) {
            Command::Clear
        } else if given(flags, Flag::Version) {
            Command::Version
        } else {
            Command::Help
        },
    )
}

/// Parses a leading administrative option or returns a compiler argument vector unchanged.
pub fn parse(arguments: Vec<Vec<u8>>) -> (outcome: Result<Command, CliError>)
    ensures
        match outcome {
            Ok(command) => parsed(bstr::views(arguments@)) == Ok::<
                Command<Seq<Seq<u8>>>,
                CliError,
            >(command@),
            Err(error) => parsed(bstr::views(arguments@)) == Err::<
                Command<Seq<Seq<u8>>>,
                CliError,
            >(error),
        },
{
    if !is_administrative(&arguments) {
        return Ok(Command::Compiler(arguments));
    }
    let ghost all = bstr::views(arguments@);
    let end: usize = find_separator(&arguments);
    let flags = parse_options(&arguments, end)?;
    let mut rest: Vec<Vec<u8>> = Vec::new();
    if end < arguments.len() {
        let mut index: usize = end + 1;
        assert(bstr::views(rest@) =~= all.subrange(end + 1, end + 1));
        while index < arguments.len()
            invariant
                all == bstr::views(arguments@),
                all.len() == arguments@.len(),
                end < index <= all.len(),
                bstr::views(rest@) == all.subrange(end + 1, index as int),
            decreases all.len() - index,
        {
            let argument = bstr::copy(arguments[index].as_slice());
            assert(all[index as int] == argument@);
            rest.push(argument);
            assert(bstr::views(rest@) =~= all.subrange(end + 1, index + 1));
            index += 1;
        }
        assert(all.subrange(end + 1, all.len() as int) =~= all.skip(end + 1));
    } else {
        assert(bstr::views(rest@) =~= Seq::empty());
    }
    select(&flags, rest)
}

/// What is done about a command.
#[derive(Clone, Copy, Debug, PartialEq, Eq, Structural)]
pub enum Errand {
    ShowVersion,
    /// The help is shown, and the launcher ends with the code.
    ShowHelp { code: i32 },
    Explain,
    /// The compiler takes over: caching is switched off.
    PassThrough,
    /// The configuration is loaded first.
    Configured,
}

/// What is done about a command. `disable` is the value of the variable that switches caching off: it
/// counts for compilations alone, and before any configuration.
pub open spec fn errand_of(command: Command<Seq<Seq<u8>>>, disable: Option<Seq<u8>>) -> Result<
    Errand,
    config::Fault,
> {
    match command {
        Command::Version => Ok(Errand::ShowVersion),
        Command::Help => Ok(Errand::ShowHelp { code: 0 }),
        Command::Explain { .. } => Ok(Errand::Explain),
        Command::Compiler(arguments) => match disable {
            None => Ok(Errand::Configured),
            Some(value) => match config::truth_of(value) {
                Err(wrong) => Err(ConfigError::Value("FCACHE_DISABLE"@, wrong)),
                Ok(off) => if !off {
                    Ok(Errand::Configured)
                } else if arguments.len() == 0 {
                    Ok(Errand::ShowHelp { code: 2 })
                } else {
                    Ok(Errand::PassThrough)
                },
            },
        },
        _ => Ok(Errand::Configured),
    }
}

/// What is done about a command.
pub fn errand(command: &Command, disable: &Option<Vec<u8>>) -> (outcome: Result<
    Errand,
    ConfigError,
>)
    ensures
        match outcome {
            Ok(errand) => errand_of(command@, bstr::opt_view(*disable)) == Ok::<
                Errand,
                config::Fault,
            >(errand),
            Err(error) => errand_of(command@, bstr::opt_view(*disable)) == Err::<
                Errand,
                config::Fault,
            >(error@),
        },
{
    match command {
        Command::Version => Ok(Errand::ShowVersion),
        Command::Help => Ok(Errand::ShowHelp { code: 0 }),
        Command::Explain { .. } => Ok(Errand::Explain),
        Command::Compiler(arguments) => {
            if !config::disabled_by_env(disable)? {
                Ok(Errand::Configured)
            } else if arguments.len() == 0 {
                Ok(Errand::ShowHelp { code: 2 })
            } else {
                Ok(Errand::PassThrough)
            }
        },
        Command::ShowStats { .. } => Ok(Errand::Configured),
        Command::ZeroStats => Ok(Errand::Configured),
        Command::ShowConfig => Ok(Errand::Configured),
        Command::Trim => Ok(Errand::Configured),
        Command::Clear => Ok(Errand::Configured),
    }
}

/// The argument that spells an option.
pub open spec fn spelled(flag: Flag) -> Seq<u8> {
    match flag {
        Flag::Explain => bstr::utf8("--explain"@),
        Flag::ShowStats => bstr::utf8("--show-stats"@),
        Flag::Json => bstr::utf8("--json"@),
        Flag::ZeroStats => bstr::utf8("--zero-stats"@),
        Flag::ShowConfig => bstr::utf8("--show-config"@),
        Flag::Trim => bstr::utf8("--trim"@),
        Flag::Clear => bstr::utf8("--clear"@),
        Flag::Version => bstr::utf8("--version"@),
        Flag::Help => bstr::utf8("--help"@),
    }
}

/// The name of an option.
spec fn name_of(flag: Flag) -> Seq<u8> {
    match flag {
        Flag::Explain => bstr::utf8("explain"@),
        Flag::ShowStats => bstr::utf8("show-stats"@),
        Flag::Json => bstr::utf8("json"@),
        Flag::ZeroStats => bstr::utf8("zero-stats"@),
        Flag::ShowConfig => bstr::utf8("show-config"@),
        Flag::Trim => bstr::utf8("trim"@),
        Flag::Clear => bstr::utf8("clear"@),
        Flag::Version => bstr::utf8("version"@),
        Flag::Help => bstr::utf8("help"@),
    }
}

#[verifier::spinoff_prover]
proof fn lemma_named(flag: Flag)
    ensures
        named(name_of(flag)) == Some(flag),
        spelled(flag).len() == name_of(flag).len() + 2,
        spelled(flag).len() > 4,
        spelled(flag)[0] == DASH && spelled(flag)[1] == DASH,
        spelled(flag).skip(2) == name_of(flag),
        forall|at: int| 0 <= at < name_of(flag).len() ==> name_of(flag)[at] != EQUALS,
        bstr::is_utf8(spelled(flag)),
{
    reveal_strlit("explain");
    bstr::lemma_ascii("explain"@);
    reveal_strlit("show-stats");
    bstr::lemma_ascii("show-stats"@);
    reveal_strlit("json");
    bstr::lemma_ascii("json"@);
    reveal_strlit("zero-stats");
    bstr::lemma_ascii("zero-stats"@);
    reveal_strlit("show-config");
    bstr::lemma_ascii("show-config"@);
    reveal_strlit("trim");
    bstr::lemma_ascii("trim"@);
    reveal_strlit("clear");
    bstr::lemma_ascii("clear"@);
    reveal_strlit("version");
    bstr::lemma_ascii("version"@);
    reveal_strlit("help");
    bstr::lemma_ascii("help"@);
    reveal_strlit("--explain");
    bstr::lemma_ascii("--explain"@);
    reveal_strlit("--show-stats");
    bstr::lemma_ascii("--show-stats"@);
    reveal_strlit("--json");
    bstr::lemma_ascii("--json"@);
    reveal_strlit("--zero-stats");
    bstr::lemma_ascii("--zero-stats"@);
    reveal_strlit("--show-config");
    bstr::lemma_ascii("--show-config"@);
    reveal_strlit("--trim");
    bstr::lemma_ascii("--trim"@);
    reveal_strlit("--clear");
    bstr::lemma_ascii("--clear"@);
    reveal_strlit("--version");
    bstr::lemma_ascii("--version"@);
    reveal_strlit("--help");
    bstr::lemma_ascii("--help"@);
    assert(bstr::utf8("explain"@)[0] == 0x65 && bstr::utf8("version"@)[0] == 0x76);
    assert(bstr::utf8("show-stats"@)[0] == 0x73 && bstr::utf8("zero-stats"@)[0] == 0x7a);
    assert(bstr::utf8("json"@)[0] == 0x6a && bstr::utf8("trim"@)[0] == 0x74 && bstr::utf8(
        "help"@,
    )[0] == 0x68);
    assert(spelled(flag).skip(2) =~= name_of(flag));
    assert(bstr::is_utf8(spelled(flag))) by {
        reveal(bstr::utf8);
        broadcast use vstd::utf8::encode_utf8_valid_utf8;
    }
}

proof fn lemma_option(flag: Flag, value: Seq<u8>)
    ensures
        option_of(spelled(flag)) == Ok::<Flag, CliError>(flag),
        option_of(spelled(flag).push(0x3d) + value) == Err::<Flag, CliError>(
            CliError::UnexpectedValue,
        ),
{
    lemma_named(flag);
    let name = name_of(flag);
    bstr::lemma_first(name, EQUALS, name.len() as int);
    assert(name.take(name.len() as int) =~= name);
    let longer = spelled(flag).push(0x3d) + value;
    let text = longer.skip(2);
    assert(text =~= name.push(EQUALS) + value);
    assert forall|at: int| 0 <= at < name.len() implies text[at] != EQUALS by {
        assert(text[at] == name[at]);
    }
    bstr::lemma_first(text, EQUALS, name.len() as int);
    assert(text.take(name.len() as int) =~= name);
    assert(longer[0] == spelled(flag)[0] && longer[1] == spelled(flag)[1]);
}

/// The arguments that spell a list of options.
pub open spec fn all_spelled(flags: Seq<Flag>) -> Seq<Seq<u8>> {
    flags.map_values(|flag: Flag| spelled(flag))
}

proof fn lemma_options(flags: Seq<Flag>)
    requires
        flags.no_duplicates(),
    ensures
        options_of(all_spelled(flags)) == Ok::<Seq<Flag>, CliError>(flags),
    decreases flags.len(),
{
    if flags.len() == 0 {
        assert(flags =~= Seq::empty());
    } else {
        let shorter = flags.drop_last();
        let last = flags.last();
        lemma_options(shorter);
        lemma_option(last, Seq::empty());
        assert(all_spelled(flags).drop_last() =~= all_spelled(shorter));
        assert(all_spelled(flags).last() == spelled(last));
        if shorter.contains(last) {
            let at = choose|at: int| 0 <= at < shorter.len() && shorter[at] == last;
            assert(flags[at] == flags[flags.len() - 1]);
        }
        assert(shorter.push(last) =~= flags);
    }
}

proof fn lemma_separator(flags: Seq<Flag>, rest: Seq<Seq<u8>>)
    requires
        rest.len() == 0 || rest[0] == seq![DASH, DASH],
    ensures
        separator(all_spelled(flags) + rest) == flags.len(),
    decreases flags.len(),
{
    let arguments = all_spelled(flags) + rest;
    if flags.len() == 0 {
        assert(arguments =~= rest);
    } else {
        lemma_named(flags[0]);
        assert(arguments[0] == spelled(flags[0]));
        assert(arguments.drop_first() =~= all_spelled(flags.drop_first()) + rest);
        lemma_separator(flags.drop_first(), rest);
    }
}

/// What the launcher is asked to do follows from the options that are given, in any order. There is
/// one action, JSON is for statistics and explanations alone, and the command to explain stands
/// behind a double hyphen. An option takes no value. What does not start with a hyphen is a
/// compiler command.
pub proof fn law_administrative_commands(
    flags: Seq<Flag>,
    behind_dashes: Seq<Seq<u8>>,
    value: Seq<u8>,
)
    requires
        flags.no_duplicates(),
        flags.len() > 0,
    ensures
        ({
            let plain = parsed(all_spelled(flags));
            let followed = parsed(
                all_spelled(flags) + (seq![bstr::utf8("--"@)] + behind_dashes),
            );
            let json = flags.contains(Flag::Json);
            let actions = flags.len() - (if json {
                1int
            } else {
                0
            });
            &&& actions > 1 ==> followed == Err::<Command<Seq<Seq<u8>>>, CliError>(
                CliError::ConflictingActions,
            )
            &&& actions == 0 ==> followed == Err::<Command<Seq<Seq<u8>>>, CliError>(
                CliError::MissingAction,
            )
            &&& actions == 1 && flags.contains(Flag::Explain) ==> {
                &&& behind_dashes.len() > 0 ==> followed == Ok::<Command<Seq<Seq<u8>>>, CliError>(
                    Command::Explain { arguments: behind_dashes, json },
                )
                &&& behind_dashes.len() == 0 ==> followed == Err::<Command<Seq<Seq<u8>>>, CliError>(
                    CliError::MissingCompiler,
                )
                &&& plain == Err::<Command<Seq<Seq<u8>>>, CliError>(CliError::MissingCompiler)
            }
            &&& actions == 1 && flags.contains(Flag::ShowStats) ==> plain == Ok::<
                Command<Seq<Seq<u8>>>,
                CliError,
            >(Command::ShowStats { json })
            &&& actions == 1 && !json && flags.contains(Flag::ZeroStats) ==> plain == Ok::<
                Command<Seq<Seq<u8>>>,
                CliError,
            >(Command::ZeroStats)
            &&& actions == 1 && !json && flags.contains(Flag::ShowConfig) ==> plain == Ok::<
                Command<Seq<Seq<u8>>>,
                CliError,
            >(Command::ShowConfig)
            &&& actions == 1 && !json && flags.contains(Flag::Trim) ==> plain == Ok::<
                Command<Seq<Seq<u8>>>,
                CliError,
            >(Command::Trim)
            &&& actions == 1 && !json && flags.contains(Flag::Clear) ==> plain == Ok::<
                Command<Seq<Seq<u8>>>,
                CliError,
            >(Command::Clear)
            &&& actions == 1 && !json && flags.contains(Flag::Version) ==> plain == Ok::<
                Command<Seq<Seq<u8>>>,
                CliError,
            >(Command::Version)
            &&& actions == 1 && !json && flags.contains(Flag::Help) ==> plain == Ok::<
                Command<Seq<Seq<u8>>>,
                CliError,
            >(Command::Help)
            &&& actions == 1 && json && !flags.contains(Flag::Explain) && !flags.contains(
                Flag::ShowStats,
            ) ==> plain == Err::<Command<Seq<Seq<u8>>>, CliError>(CliError::UnsupportedJson)
            &&& !flags.contains(Flag::Explain) ==> plain == followed
        }),
        parsed(seq![spelled(flags[0]).push(0x3d) + value]) is Err || !bstr::is_utf8(
            spelled(flags[0]).push(0x3d) + value,
        ),
        parsed(seq![spelled(flags[0]), spelled(flags[0])]) == Err::<
            Command<Seq<Seq<u8>>>,
            CliError,
        >(CliError::RepeatedOption),
{
    let dashes = seq![bstr::utf8("--"@)] + behind_dashes;
    let none = Seq::<Seq<u8>>::empty();
    reveal_strlit("--");
    bstr::lemma_ascii("--"@);
    assert(bstr::utf8("--"@) =~= seq![DASH, DASH]);
    lemma_options(flags);
    lemma_separator(flags, dashes);
    lemma_separator(flags, none);
    assert(all_spelled(flags) + none =~= all_spelled(flags));
    let arguments = all_spelled(flags) + dashes;
    assert(arguments.take(flags.len() as int) =~= all_spelled(flags));
    assert(all_spelled(flags).take(flags.len() as int) =~= all_spelled(flags));
    assert(arguments.skip(flags.len() as int + 1) =~= behind_dashes);
    lemma_named(flags[0]);
    assert(arguments[0] == spelled(flags[0]));
    assert(all_spelled(flags)[0] == spelled(flags[0]));
    lemma_one_action(flags);
    // An option with a value, and one that is given twice.
    let valued = seq![spelled(flags[0]).push(0x3d) + value];
    lemma_option(flags[0], value);
    assert(valued[0][0] == spelled(flags[0])[0]);
    assert(valued[0].len() > 2);
    assert(valued.drop_first() =~= none);
    assert(separator(none) == 0);
    assert(separator(valued) == 1);
    assert(valued.take(1) =~= valued);
    assert(valued.drop_last() =~= none);
    assert(options_of(none) == Ok::<Seq<Flag>, CliError>(Seq::empty()));
    let twice = seq![spelled(flags[0]), spelled(flags[0])];
    assert(twice =~= all_spelled(seq![flags[0], flags[0]]) + none);
    lemma_separator(seq![flags[0], flags[0]], none);
    assert(twice.take(2) =~= twice);
    assert(twice.drop_last() =~= all_spelled(seq![flags[0]]));
    lemma_options(seq![flags[0]]);
    assert(seq![flags[0]].contains(flags[0])) by {
        assert(seq![flags[0]][0] == flags[0]);
    }
}

/// Of options without a repetition, at most one is left beside each.
proof fn lemma_one_action(flags: Seq<Flag>)
    requires
        flags.no_duplicates(),
    ensures
        flags.len() == 1 ==> forall|flag: Flag| #[trigger] flags.contains(flag) ==> flag == flags[0],
        flags.len() == 2 ==> forall|flag: Flag| #[trigger]
            flags.contains(flag) ==> flag == flags[0] || flag == flags[1],
        flags.len() > 0 ==> flags.contains(flags[0]),
        flags.len() > 1 ==> flags.contains(flags[1]) && flags[0] != flags[1],
{
    if flags.len() > 0 {
        assert(flags.contains(flags[0]));
    }
    if flags.len() > 1 {
        assert(flags.contains(flags[1]));
        assert(flags[0] != flags[1]);
    }
}

/// What does not start with a hyphen is a compiler command, as it stands, and so is nothing at all.
pub proof fn law_compiler_commands(arguments: Seq<Seq<u8>>)
    ensures
        arguments.len() == 0 || arguments[0].len() == 0 || arguments[0][0] != 0x2d ==> parsed(
            arguments,
        ) == Ok::<Command<Seq<Seq<u8>>>, CliError>(Command::Compiler(arguments)),
{
}

/// The version, the help and explanations do not ask whether caching is switched off. A compiler
/// command does: where `FCACHE_DISABLE` stands for truth the compiler takes over, and where nothing
/// is left to run the help is shown.
pub proof fn law_errands(command: Command<Seq<Seq<u8>>>, disable: Option<Seq<u8>>)
    ensures
        command is Version ==> errand_of(command, disable) == Ok::<Errand, config::Fault>(
            Errand::ShowVersion,
        ),
        command is Help ==> errand_of(command, disable) == Ok::<Errand, config::Fault>(
            (Errand::ShowHelp { code: 0 }),
        ),
        command is Explain ==> errand_of(command, disable) == Ok::<Errand, config::Fault>(
            Errand::Explain,
        ),
        command is ShowStats || command is ZeroStats || command is ShowConfig || command is Trim
            || command is Clear ==> errand_of(command, disable) == Ok::<Errand, config::Fault>(
            Errand::Configured,
        ),
        command matches Command::Compiler(arguments) ==> {
            let truth = config::truth_of(disable->0);
            &&& disable is None || truth == Ok::<bool, config::Wrong>(false) ==> errand_of(
                command,
                disable,
            ) == Ok::<Errand, config::Fault>(Errand::Configured)
            &&& disable is Some && truth == Ok::<bool, config::Wrong>(true) && arguments.len() > 0
                ==> errand_of(command, disable) == Ok::<Errand, config::Fault>(Errand::PassThrough)
            &&& disable is Some && truth == Ok::<bool, config::Wrong>(true) && arguments.len() == 0
                ==> errand_of(command, disable) == Ok::<Errand, config::Fault>(
                (Errand::ShowHelp { code: 2 }),
            )
            &&& disable is Some && truth is Err ==> errand_of(command, disable) is Err
        },
{
}

} // verus!
