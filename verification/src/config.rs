//! Configuration loading and validation.
use vstd::prelude::*;
use vstd::string::*;

use crate::bstr;
use crate::decimal;
use crate::text;
use crate::upath;
use crate::words;

verus! {

/// The byte ` `.
pub const SPACE: u8 = 0x20;

/// The byte `+`.
pub const PLUS: u8 = 0x2b;

/// The size of a cache that is not configured.
pub const DEFAULT_MAX_SIZE: u64 = 0x2_8000_0000;

/// How the compiler is identified.
#[derive(Clone, Copy, Debug, PartialEq, Eq, Structural)]
pub enum CompilerIdentityPolicy {
    Auto,
    Strict,
}

/// The configuration of the cache.
#[derive(Clone, Debug, PartialEq, Eq)]
pub struct Config<B = Vec<u8>> {
    pub cache_dir: B,
    pub max_size: u64,
    pub enabled: bool,
    pub read_only: bool,
    pub direct: bool,
    pub compiler_identity: CompilerIdentityPolicy,
}

impl View for Config {
    type V = Config<Seq<u8>>;

    open spec fn view(&self) -> Config<Seq<u8>> {
        Config {
            cache_dir: self.cache_dir@,
            max_size: self.max_size,
            enabled: self.enabled,
            read_only: self.read_only,
            direct: self.direct,
            compiler_identity: self.compiler_identity,
        }
    }
}

/// What is wrong with a value.
#[derive(Clone, Debug, PartialEq, Eq)]
pub enum ValueFault<B = Vec<u8>> {
    NotText,
    NotABoolean(B),
    NotAPolicy(B),
    NotASize(B),
    SizeTooLarge,
}

/// What is wrong with a value, in views.
pub type Wrong = ValueFault<Seq<u8>>;

impl View for ValueFault {
    type V = Wrong;

    open spec fn view(&self) -> Wrong {
        match *self {
            ValueFault::NotText => ValueFault::NotText,
            ValueFault::NotABoolean(text) => ValueFault::NotABoolean(text@),
            ValueFault::NotAPolicy(text) => ValueFault::NotAPolicy(text@),
            ValueFault::NotASize(text) => ValueFault::NotASize(text@),
            ValueFault::SizeTooLarge => ValueFault::SizeTooLarge,
        }
    }
}

/// What is wrong with a value, in words.
pub open spec fn value_text(fault: Wrong) -> Seq<char> {
    match fault {
        ValueFault::NotText => "must be valid UTF-8"@,
        ValueFault::NotABoolean(given) => {
            "expected a boolean value, got '"@ + words::lossy_text(given) + "'"@
        },
        ValueFault::NotAPolicy(given) => {
            "expected 'auto' or 'strict', got '"@ + words::lossy_text(given) + "'"@
        },
        ValueFault::NotASize(given) => "invalid size '"@ + words::lossy_text(given) + "'"@,
        ValueFault::SizeTooLarge => "size is too large"@,
    }
}

impl ValueFault {
    /// What is wrong with the value, in words.
    pub fn message(&self) -> (text: String)
        ensures
            text@ == value_text(self@),
    {
        match self {
            ValueFault::NotText => "must be valid UTF-8".to_owned(),
            ValueFault::NotABoolean(given) => words::three(
                "expected a boolean value, got '",
                words::lossy(given.as_slice()).as_str(),
                "'",
            ),
            ValueFault::NotAPolicy(given) => words::three(
                "expected 'auto' or 'strict', got '",
                words::lossy(given.as_slice()).as_str(),
                "'",
            ),
            ValueFault::NotASize(given) => words::three(
                "invalid size '",
                words::lossy(given.as_slice()).as_str(),
                "'",
            ),
            ValueFault::SizeTooLarge => "size is too large".to_owned(),
        }
    }
}

/// Why there is no configuration.
#[derive(Clone, Debug, PartialEq, Eq)]
pub enum ConfigError<B = Vec<u8>, S = String> {
    NoCacheDirectory,
    Read { path: B, source: S },
    Toml { path: B, source: S },
    /// The value of the given name is wrong.
    Value(S, ValueFault<B>),
}

/// Why there is no configuration, in views.
pub type Fault = ConfigError<Seq<u8>, Seq<char>>;

impl View for ConfigError {
    type V = Fault;

    open spec fn view(&self) -> Fault {
        match *self {
            ConfigError::NoCacheDirectory => ConfigError::NoCacheDirectory,
            ConfigError::Read { path, source } => ConfigError::Read {
                path: path@,
                source: source@,
            },
            ConfigError::Toml { path, source } => ConfigError::Toml {
                path: path@,
                source: source@,
            },
            ConfigError::Value(name, fault) => ConfigError::Value(name@, fault@),
        }
    }
}

/// The words of an error.
pub open spec fn error_text(error: Fault) -> Seq<char> {
    match error {
        ConfigError::NoCacheDirectory => "cannot determine platform cache directory"@,
        ConfigError::Read { path, source } => {
            "cannot read config file "@ + words::lossy_text(path) + ": "@ + source
        },
        ConfigError::Toml { path, source } => {
            "invalid config file "@ + words::lossy_text(path) + ": "@ + source
        },
        ConfigError::Value(name, fault) => "invalid "@ + name + ": "@ + value_text(fault),
    }
}

impl ConfigError {
    /// The words of the error.
    pub fn message(&self) -> (text: String)
        ensures
            text@ == error_text(self@),
    {
        match self {
            ConfigError::NoCacheDirectory => "cannot determine platform cache directory".to_owned(),
            ConfigError::Read { path, source } => words::four(
                "cannot read config file ",
                words::lossy(path.as_slice()).as_str(),
                ": ",
                source.as_str(),
            ),
            ConfigError::Toml { path, source } => words::four(
                "invalid config file ",
                words::lossy(path.as_slice()).as_str(),
                ": ",
                source.as_str(),
            ),
            ConfigError::Value(name, fault) => words::four(
                "invalid ",
                name.as_str(),
                ": ",
                fault.message().as_str(),
            ),
        }
    }
}

/// A text without the white space around it, in lower case.
pub open spec fn word_of(value: Seq<u8>) -> Seq<u8> {
    bstr::lowered(text::trimmed(value))
}

/// The policy that a text names.
pub open spec fn policy_of(value: Seq<u8>) -> Result<CompilerIdentityPolicy, Wrong> {
    let word = word_of(value);
    if word == bstr::utf8("auto"@) {
        Ok(CompilerIdentityPolicy::Auto)
    } else if word == bstr::utf8("strict"@) {
        Ok(CompilerIdentityPolicy::Strict)
    } else {
        Err(ValueFault::NotAPolicy(word))
    }
}

/// The policy that a text names.
pub fn parse_compiler_identity(value: &[u8], name: &str) -> (outcome: Result<
    CompilerIdentityPolicy,
    ConfigError,
>)
    ensures
        match outcome {
            Ok(policy) => policy_of(value@) == Ok::<CompilerIdentityPolicy, Wrong>(policy),
            Err(error) => policy_of(value@) is Err && error@ == Fault::Value(
                name@,
                policy_of(value@)->Err_0,
            ),
        },
{
    let word = bstr::to_lower(text::trim(value));
    if bstr::is(word.as_slice(), "auto") {
        Ok(CompilerIdentityPolicy::Auto)
    } else if bstr::is(word.as_slice(), "strict") {
        Ok(CompilerIdentityPolicy::Strict)
    } else {
        Err(ConfigError::Value(name.to_owned(), ValueFault::NotAPolicy(word)))
    }
}

/// The truth value that the value of a variable stands for. A variable that is set to nothing
/// stands for truth.
pub open spec fn truth_of(value: Seq<u8>) -> Result<bool, Wrong> {
    let word = word_of(value);
    if !bstr::is_utf8(value) {
        Err(ValueFault::NotText)
    } else if word.len() == 0 || word == bstr::utf8("1"@) || word == bstr::utf8("true"@) || word
        == bstr::utf8("yes"@) || word == bstr::utf8("on"@) {
        Ok(true)
    } else if word == bstr::utf8("0"@) || word == bstr::utf8("false"@) || word == bstr::utf8("no"@)
        || word == bstr::utf8("off"@) {
        Ok(false)
    } else {
        Err(ValueFault::NotABoolean(word))
    }
}

/// The truth value that a variable stands for, where it is set.
pub fn parse_bool_value(name: &str, value: &Option<Vec<u8>>) -> (outcome: Result<
    Option<bool>,
    ConfigError,
>)
    ensures
        match *value {
            None => outcome == Ok::<Option<bool>, ConfigError>(None),
            Some(bytes) => match outcome {
                Ok(found) => found is Some && truth_of(bytes@) == Ok::<bool, Wrong>(found->0),
                Err(error) => truth_of(bytes@) is Err && error@ == Fault::Value(
                    name@,
                    truth_of(bytes@)->Err_0,
                ),
            },
        },
{
    let bytes = match value {
        Some(bytes) => bytes,
        None => {
            return Ok(None);
        },
    };
    if bstr::to_text(bytes.as_slice()).is_none() {
        return Err(ConfigError::Value(name.to_owned(), ValueFault::NotText));
    }
    let word = bstr::to_lower(text::trim(bytes.as_slice()));
    let found = word.as_slice();
    if found.len() == 0 || bstr::is(found, "1") || bstr::is(found, "true") || bstr::is(found, "yes")
        || bstr::is(found, "on") {
        Ok(Some(true))
    } else if bstr::is(found, "0") || bstr::is(found, "false") || bstr::is(found, "no") || bstr::is(
        found,
        "off",
    ) {
        Ok(Some(false))
    } else {
        Err(ConfigError::Value(name.to_owned(), ValueFault::NotABoolean(word)))
    }
}

/// Reports an emergency bypass by the variable `FCACHE_DISABLE`, without a configuration file.
pub fn disabled_by_env(value: &Option<Vec<u8>>) -> (outcome: Result<bool, ConfigError>)
    ensures
        match *value {
            None => outcome == Ok::<bool, ConfigError>(false),
            Some(bytes) => match outcome {
                Ok(found) => truth_of(bytes@) == Ok::<bool, Wrong>(found),
                Err(error) => truth_of(bytes@) is Err && error@ == Fault::Value(
                    "FCACHE_DISABLE"@,
                    truth_of(bytes@)->Err_0,
                ),
            },
        },
{
    match parse_bool_value("FCACHE_DISABLE", value) {
        Ok(Some(found)) => Ok(found),
        Ok(None) => Ok(false),
        Err(error) => Err(error),
    }
}

/// A unit, and the number of bytes that it stands for. The units that are asked for first stand
/// first.
pub open spec fn unit(index: int) -> (Seq<char>, u64) {
    if index == 0 {
        ("kib"@, 0x400u64)
    } else if index == 1 {
        ("mib"@, 0x10_0000u64)
    } else if index == 2 {
        ("gib"@, 0x4000_0000u64)
    } else if index == 3 {
        ("tib"@, 0x100_0000_0000u64)
    } else if index == 4 {
        ("kb"@, 0x400u64)
    } else if index == 5 {
        ("mb"@, 0x10_0000u64)
    } else if index == 6 {
        ("gb"@, 0x4000_0000u64)
    } else {
        ("tb"@, 0x100_0000_0000u64)
    }
}

/// A number and its unit, where the text ends with one of the units from `index` on.
pub open spec fn measured(value: Seq<u8>, index: int) -> (Seq<u8>, u64)
    decreases 8 - index,
{
    if index >= 8 {
        (value, 1u64)
    } else {
        let ending = bstr::utf8(unit(index).0);
        if bstr::has_suffix(value, ending) {
            (value.take(value.len() - ending.len()), unit(index).1)
        } else {
            measured(value, index + 1)
        }
    }
}

/// The number that decimal digits stand for, with or without a plus before them.
pub open spec fn count_of(digits: Seq<u8>) -> Option<nat> {
    decimal::parsed(
        if digits.len() > 0 && digits[0] == PLUS {
            digits.skip(1)
        } else {
            digits
        },
        u64::MAX as nat,
    )
}

/// The number of bytes that a text stands for.
pub open spec fn size_of(value: Seq<u8>) -> Result<nat, Wrong> {
    let (number, bytes) = measured(text::without(word_of(value), SPACE), 0);
    match count_of(text::trimmed(number)) {
        None => Err(ValueFault::NotASize(value)),
        Some(count) => if count * (bytes as nat) > u64::MAX {
            Err(ValueFault::SizeTooLarge)
        } else {
            Ok(count * (bytes as nat))
        },
    }
}

fn strip<'a>(value: &'a [u8], ending: &str) -> (rest: Option<&'a [u8]>)
    ensures
        match rest {
            Some(found) => bstr::has_suffix(value@, bstr::utf8(ending@)) && found@ == value@.take(
                value@.len() - bstr::utf8(ending@).len(),
            ),
            None => !bstr::has_suffix(value@, bstr::utf8(ending@)),
        },
{
    if bstr::ends_with_str(value, ending) {
        let length: usize = bstr::of(ending).len();
        Some(bstr::take(value, value.len() - length))
    } else {
        None
    }
}

fn measure(value: &[u8]) -> (found: (&[u8], u64))
    ensures
        (found.0@, found.1) == measured(value@, 0),
{
    proof {
        reveal_with_fuel(measured, 9);
    }
    if let Some(rest) = strip(value, "kib") {
        return (rest, 0x400);
    }
    if let Some(rest) = strip(value, "mib") {
        return (rest, 0x10_0000);
    }
    if let Some(rest) = strip(value, "gib") {
        return (rest, 0x4000_0000);
    }
    if let Some(rest) = strip(value, "tib") {
        return (rest, 0x100_0000_0000);
    }
    if let Some(rest) = strip(value, "kb") {
        return (rest, 0x400);
    }
    if let Some(rest) = strip(value, "mb") {
        return (rest, 0x10_0000);
    }
    if let Some(rest) = strip(value, "gb") {
        return (rest, 0x4000_0000);
    }
    if let Some(rest) = strip(value, "tb") {
        return (rest, 0x100_0000_0000);
    }
    (value, 1)
}

/// The number of bytes that a text stands for: a decimal number, and a unit behind it where it does
/// not count bytes.
pub fn parse_size(value: &str, name: &str) -> (outcome: Result<u64, ConfigError>)
    ensures
        match outcome {
            Ok(size) => size_of(bstr::utf8(value@)) == Ok::<nat, Wrong>(size as nat),
            Err(error) => size_of(bstr::utf8(value@)) is Err && error@ == Fault::Value(
                name@,
                size_of(bstr::utf8(value@))->Err_0,
            ),
        },
{
    size_in(bstr::of(value), name)
}

fn size_in(value: &[u8], name: &str) -> (outcome: Result<u64, ConfigError>)
    ensures
        match outcome {
            Ok(size) => size_of(value@) == Ok::<nat, Wrong>(size as nat),
            Err(error) => size_of(value@) is Err && error@ == Fault::Value(
                name@,
                size_of(value@)->Err_0,
            ),
        },
{
    let word = bstr::to_lower(text::trim(value));
    let normalized = text::remove(word.as_slice(), SPACE);
    let (number, bytes) = measure(normalized.as_slice());
    let digits = text::trim(number);
    let plain = if digits.len() > 0 && digits[0] == PLUS {
        bstr::skip(digits, 1)
    } else {
        digits
    };
    match decimal::parse(plain, u64::MAX) {
        None => Err(ConfigError::Value(name.to_owned(), ValueFault::NotASize(bstr::copy(value)))),
        Some(count) => match count.checked_mul(bytes) {
            Some(size) => Ok(size),
            None => Err(ConfigError::Value(name.to_owned(), ValueFault::SizeTooLarge)),
        },
    }
}

/// What a configuration file says.
#[derive(Clone, Debug, PartialEq, Eq)]
pub struct FileConfig {
    pub dir: Option<Vec<u8>>,
    pub max_size: Option<String>,
    pub enabled: Option<bool>,
    pub read_only: Option<bool>,
    pub direct: Option<bool>,
    pub compiler_identity: Option<String>,
}

/// What came of the configuration file.
#[derive(Clone, Debug, PartialEq, Eq)]
pub enum ConfigFile {
    /// There is none that would have to be read.
    Ignored,
    Unreadable { path: Vec<u8>, source: String },
    Invalid { path: Vec<u8>, source: String },
    Read(FileConfig),
}

/// The variables that configure the cache.
#[derive(Clone, Debug, PartialEq, Eq)]
pub struct ConfigVariables {
    /// `FCACHE_DIR`
    pub dir: Option<Vec<u8>>,
    /// `FCACHE_MAX_SIZE`
    pub max_size: Option<Vec<u8>>,
    /// `FCACHE_DISABLE`
    pub disable: Option<Vec<u8>>,
    /// `FCACHE_READ_ONLY`
    pub read_only: Option<Vec<u8>>,
    /// `FCACHE_DIRECT`
    pub direct: Option<Vec<u8>>,
    /// `FCACHE_COMPILER_IDENTITY`
    pub compiler_identity: Option<Vec<u8>>,
}

/// The configuration where nothing else is said.
pub open spec fn default_config(cache_home: Seq<u8>) -> Config<Seq<u8>> {
    Config {
        cache_dir: upath::joined(cache_home, bstr::utf8("fcache"@)),
        max_size: DEFAULT_MAX_SIZE,
        enabled: true,
        read_only: false,
        direct: true,
        compiler_identity: CompilerIdentityPolicy::Auto,
    }
}

/// A value, or another where it is not set.
pub open spec fn or<T>(value: Option<T>, other: T) -> T {
    match value {
        Some(found) => found,
        None => other,
    }
}

/// The configuration with what a file says.
pub open spec fn with_file(config: Config<Seq<u8>>, file: FileConfig) -> Result<
    Config<Seq<u8>>,
    Fault,
> {
    let size = match file.max_size {
        Some(value) => size_of(bstr::utf8(value@)),
        None => Ok(config.max_size as nat),
    };
    let policy = match file.compiler_identity {
        Some(value) => policy_of(bstr::utf8(value@)),
        None => Ok(config.compiler_identity),
    };
    match size {
        Err(fault) => Err(ConfigError::Value("max_size"@, fault)),
        Ok(max_size) => match policy {
            Err(fault) => Err(ConfigError::Value("compiler_identity"@, fault)),
            Ok(compiler_identity) => Ok(
                Config {
                    cache_dir: or(bstr::opt_view(file.dir), config.cache_dir),
                    max_size: max_size as u64,
                    enabled: or(file.enabled, config.enabled),
                    read_only: or(file.read_only, config.read_only),
                    direct: or(file.direct, config.direct),
                    compiler_identity,
                },
            ),
        },
    }
}

/// The size that a variable stands for.
pub open spec fn size_in_variable(value: Option<Seq<u8>>, other: u64) -> Result<nat, Wrong> {
    match value {
        None => Ok(other as nat),
        Some(bytes) => if !bstr::is_utf8(bytes) {
            Err(ValueFault::NotText)
        } else {
            size_of(bytes)
        },
    }
}

/// The truth value that a variable stands for.
pub open spec fn truth_in_variable(value: Option<Seq<u8>>, other: bool) -> Result<bool, Wrong> {
    match value {
        None => Ok(other),
        Some(bytes) => truth_of(bytes),
    }
}

/// The policy that a variable names.
pub open spec fn policy_in_variable(
    value: Option<Seq<u8>>,
    other: CompilerIdentityPolicy,
) -> Result<CompilerIdentityPolicy, Wrong> {
    match value {
        None => Ok(other),
        Some(bytes) => if !bstr::is_utf8(bytes) {
            Err(ValueFault::NotText)
        } else {
            policy_of(bytes)
        },
    }
}

/// The configuration with what the variables say. Of several wrong values the first is named.
pub open spec fn with_variables(config: Config<Seq<u8>>, variables: ConfigVariables) -> Result<
    Config<Seq<u8>>,
    Fault,
> {
    let size = size_in_variable(bstr::opt_view(variables.max_size), config.max_size);
    let disabled = truth_in_variable(bstr::opt_view(variables.disable), !config.enabled);
    let read_only = truth_in_variable(bstr::opt_view(variables.read_only), config.read_only);
    let direct = truth_in_variable(bstr::opt_view(variables.direct), config.direct);
    let policy = policy_in_variable(
        bstr::opt_view(variables.compiler_identity),
        config.compiler_identity,
    );
    if size is Err {
        Err(ConfigError::Value("FCACHE_MAX_SIZE"@, size->Err_0))
    } else if disabled is Err {
        Err(ConfigError::Value("FCACHE_DISABLE"@, disabled->Err_0))
    } else if read_only is Err {
        Err(ConfigError::Value("FCACHE_READ_ONLY"@, read_only->Err_0))
    } else if direct is Err {
        Err(ConfigError::Value("FCACHE_DIRECT"@, direct->Err_0))
    } else if policy is Err {
        Err(ConfigError::Value("FCACHE_COMPILER_IDENTITY"@, policy->Err_0))
    } else {
        Ok(
            Config {
                cache_dir: or(bstr::opt_view(variables.dir), config.cache_dir),
                max_size: size->Ok_0 as u64,
                enabled: !disabled->Ok_0,
                read_only: read_only->Ok_0,
                direct: direct->Ok_0,
                compiler_identity: policy->Ok_0,
            },
        )
    }
}

/// The configuration: what the variables say, else what the file says, else what holds by default.
pub open spec fn configured(
    cache_home: Option<Seq<u8>>,
    file: ConfigFile,
    variables: ConfigVariables,
) -> Result<Config<Seq<u8>>, Fault> {
    match cache_home {
        None => Err(ConfigError::NoCacheDirectory),
        Some(home) => match file {
            ConfigFile::Ignored => with_variables(default_config(home), variables),
            ConfigFile::Unreadable { path, source } => Err(
                ConfigError::Read { path: path@, source: source@ },
            ),
            ConfigFile::Invalid { path, source } => Err(
                ConfigError::Toml { path: path@, source: source@ },
            ),
            ConfigFile::Read(said) => match with_file(default_config(home), said) {
                Err(fault) => Err(fault),
                Ok(config) => with_variables(config, variables),
            },
        },
    }
}

fn size_variable(value: &Option<Vec<u8>>, other: u64) -> (outcome: Result<u64, ConfigError>)
    ensures
        match outcome {
            Ok(size) => size_in_variable(bstr::opt_view(*value), other) == Ok::<nat, Wrong>(
                size as nat,
            ),
            Err(error) => size_in_variable(bstr::opt_view(*value), other) is Err && error@
                == Fault::Value(
                "FCACHE_MAX_SIZE"@,
                size_in_variable(bstr::opt_view(*value), other)->Err_0,
            ),
        },
{
    match value {
        None => Ok(other),
        Some(bytes) => {
            if bstr::to_text(bytes.as_slice()).is_none() {
                return Err(
                    ConfigError::Value("FCACHE_MAX_SIZE".to_owned(), ValueFault::NotText),
                );
            }
            size_in(bytes.as_slice(), "FCACHE_MAX_SIZE")
        },
    }
}

fn truth_variable(name: &str, value: &Option<Vec<u8>>, other: bool) -> (outcome: Result<
    bool,
    ConfigError,
>)
    ensures
        match outcome {
            Ok(found) => truth_in_variable(bstr::opt_view(*value), other) == Ok::<bool, Wrong>(
                found,
            ),
            Err(error) => truth_in_variable(bstr::opt_view(*value), other) is Err && error@
                == Fault::Value(name@, truth_in_variable(bstr::opt_view(*value), other)->Err_0),
        },
{
    match parse_bool_value(name, value) {
        Ok(Some(found)) => Ok(found),
        Ok(None) => Ok(other),
        Err(error) => Err(error),
    }
}

fn policy_variable(value: &Option<Vec<u8>>, other: CompilerIdentityPolicy) -> (outcome: Result<
    CompilerIdentityPolicy,
    ConfigError,
>)
    ensures
        match outcome {
            Ok(found) => policy_in_variable(bstr::opt_view(*value), other) == Ok::<
                CompilerIdentityPolicy,
                Wrong,
            >(found),
            Err(error) => policy_in_variable(bstr::opt_view(*value), other) is Err && error@
                == Fault::Value(
                "FCACHE_COMPILER_IDENTITY"@,
                policy_in_variable(bstr::opt_view(*value), other)->Err_0,
            ),
        },
{
    match value {
        None => Ok(other),
        Some(bytes) => {
            if bstr::to_text(bytes.as_slice()).is_none() {
                return Err(
                    ConfigError::Value("FCACHE_COMPILER_IDENTITY".to_owned(), ValueFault::NotText),
                );
            }
            parse_compiler_identity(bytes.as_slice(), "FCACHE_COMPILER_IDENTITY")
        },
    }
}

impl Config {
    /// The configuration where nothing else is said. `cache_home` is the directory in which the
    /// platform keeps caches.
    pub fn defaults(cache_home: &Option<Vec<u8>>) -> (outcome: Result<Self, ConfigError>)
        ensures
            match outcome {
                Ok(config) => *cache_home is Some && config@ == default_config(cache_home->0@),
                Err(error) => *cache_home is None && error@ == Fault::NoCacheDirectory,
            },
    {
        match cache_home {
            None => Err(ConfigError::NoCacheDirectory),
            Some(home) => Ok(
                Config {
                    cache_dir: upath::join(home.as_slice(), bstr::of("fcache")),
                    max_size: DEFAULT_MAX_SIZE,
                    enabled: true,
                    read_only: false,
                    direct: true,
                    compiler_identity: CompilerIdentityPolicy::Auto,
                },
            ),
        }
    }

    /// The configuration file where no other is named. `config_home` is the directory in which the
    /// platform keeps configurations.
    pub fn config_path(config_home: &Option<Vec<u8>>) -> (path: Option<Vec<u8>>)
        ensures
            bstr::opt_view(path) == (match *config_home {
                Some(home) => Some(upath::joined(home@, bstr::utf8("fcache/config.toml"@))),
                None => None,
            }),
    {
        match config_home {
            Some(home) => Some(upath::join(home.as_slice(), bstr::of("fcache/config.toml"))),
            None => None,
        }
    }

    /// The configuration file that is read, and whether it has to be there: one that is named has
    /// to. `selected` is the name that was given.
    pub fn config_file(selected: &Option<Vec<u8>>, config_home: &Option<Vec<u8>>) -> (choice: (
        Vec<u8>,
        bool,
    ))
        ensures
            choice.0@ == (match (*selected, *config_home) {
                (Some(path), _) => path@,
                (None, Some(home)) => upath::joined(home@, bstr::utf8("fcache/config.toml"@)),
                (None, None) => bstr::utf8("fcache.toml"@),
            }),
            choice.1 == selected is Some,
    {
        match selected {
            Some(path) => (bstr::copy(path.as_slice()), true),
            None => match Self::config_path(config_home) {
                Some(path) => (path, false),
                None => (bstr::copy(bstr::of("fcache.toml")), false),
            },
        }
    }

    fn apply_file(&mut self, file: &FileConfig) -> (outcome: Result<(), ConfigError>)
        ensures
            match outcome {
                Ok(_) => with_file(old(self)@, *file) == Ok::<Config<Seq<u8>>, Fault>(
                    final(self)@,
                ),
                Err(error) => with_file(old(self)@, *file) == Err::<Config<Seq<u8>>, Fault>(error@),
            },
    {
        if let Some(value) = &file.max_size {
            self.max_size = parse_size(value.as_str(), "max_size")?;
        }
        if let Some(value) = &file.compiler_identity {
            self.compiler_identity = parse_compiler_identity(
                bstr::of(value.as_str()),
                "compiler_identity",
            )?;
        }
        if let Some(value) = &file.dir {
            self.cache_dir = bstr::copy(value.as_slice());
        }
        if let Some(value) = file.enabled {
            self.enabled = value;
        }
        if let Some(value) = file.read_only {
            self.read_only = value;
        }
        if let Some(value) = file.direct {
            self.direct = value;
        }
        Ok(())
    }

    fn apply_variables(&mut self, variables: &ConfigVariables) -> (outcome: Result<(), ConfigError>)
        ensures
            match outcome {
                Ok(_) => with_variables(old(self)@, *variables) == Ok::<Config<Seq<u8>>, Fault>(
                    final(self)@,
                ),
                Err(error) => with_variables(old(self)@, *variables) == Err::<
                    Config<Seq<u8>>,
                    Fault,
                >(error@),
            },
    {
        let max_size = size_variable(&variables.max_size, self.max_size)?;
        let disabled = truth_variable("FCACHE_DISABLE", &variables.disable, !self.enabled)?;
        let read_only = truth_variable("FCACHE_READ_ONLY", &variables.read_only, self.read_only)?;
        let direct = truth_variable("FCACHE_DIRECT", &variables.direct, self.direct)?;
        let policy = policy_variable(&variables.compiler_identity, self.compiler_identity)?;
        if let Some(value) = &variables.dir {
            self.cache_dir = bstr::copy(value.as_slice());
        }
        self.max_size = max_size;
        self.enabled = !disabled;
        self.read_only = read_only;
        self.direct = direct;
        self.compiler_identity = policy;
        Ok(())
    }

    /// The configuration: what the variables say, else what the file says, else what holds by
    /// default.
    pub fn load_with(
        cache_home: &Option<Vec<u8>>,
        file: ConfigFile,
        variables: &ConfigVariables,
    ) -> (outcome: Result<Self, ConfigError>)
        ensures
            match outcome {
                Ok(config) => configured(bstr::opt_view(*cache_home), file, *variables) == Ok::<
                    Config<Seq<u8>>,
                    Fault,
                >(config@),
                Err(error) => configured(bstr::opt_view(*cache_home), file, *variables) == Err::<
                    Config<Seq<u8>>,
                    Fault,
                >(error@),
            },
    {
        let mut config = Config::defaults(cache_home)?;
        match file {
            ConfigFile::Ignored => {},
            ConfigFile::Unreadable { path, source } => {
                return Err(ConfigError::Read { path, source });
            },
            ConfigFile::Invalid { path, source } => {
                return Err(ConfigError::Toml { path, source });
            },
            ConfigFile::Read(said) => {
                config.apply_file(&said)?;
            },
        }
        config.apply_variables(variables)?;
        Ok(config)
    }
}

/// What a variable says counts, whatever the file says; what the file says counts where no variable
/// says otherwise.
pub proof fn law_variables_override_the_file(
    home: Seq<u8>,
    said: FileConfig,
    variables: ConfigVariables,
)
    ensures
        configured(Some(home), ConfigFile::Read(said), variables) matches Ok(config) ==> {
            &&& variables.dir is Some ==> config.cache_dir == variables.dir->0@
            &&& variables.dir is None && said.dir is Some ==> config.cache_dir == said.dir->0@
            &&& variables.disable is Some ==> Ok::<bool, Wrong>(!config.enabled) == truth_of(
                variables.disable->0@,
            )
            &&& variables.disable is None && said.enabled is Some ==> config.enabled
                == said.enabled->0
            &&& variables.read_only is Some ==> Ok::<bool, Wrong>(config.read_only) == truth_of(
                variables.read_only->0@,
            )
            &&& variables.read_only is None && said.read_only is Some ==> config.read_only
                == said.read_only->0
            &&& variables.direct is Some ==> Ok::<bool, Wrong>(config.direct) == truth_of(
                variables.direct->0@,
            )
            &&& variables.direct is None && said.direct is Some ==> config.direct == said.direct->0
        },
{
}

/// The text of the unit of `power` kilobytes, in either case and with or without an `i`; nothing
/// where bytes are counted.
pub open spec fn names_unit(ending: Seq<u8>, power: nat) -> bool {
    let letter: int = if power == 1 {
        0x4b
    } else if power == 2 {
        0x4d
    } else if power == 3 {
        0x47
    } else {
        0x54
    };
    if power == 0 {
        ending.len() == 0
    } else {
        &&& power <= 4
        &&& 2 <= ending.len() <= 3
        &&& ending[0] == letter || ending[0] == letter + 0x20
        &&& ending.last() == 0x42 || ending.last() == 0x62
        &&& ending.len() == 3 ==> ending[1] == 0x49 || ending[1] == 0x69
    }
}

proof fn lemma_unit_bytes()
    ensures
        bstr::utf8("kib"@) == seq![0x6bu8, 0x69u8, 0x62u8],
        bstr::utf8("mib"@) == seq![0x6du8, 0x69u8, 0x62u8],
        bstr::utf8("gib"@) == seq![0x67u8, 0x69u8, 0x62u8],
        bstr::utf8("tib"@) == seq![0x74u8, 0x69u8, 0x62u8],
        bstr::utf8("kb"@) == seq![0x6bu8, 0x62u8],
        bstr::utf8("mb"@) == seq![0x6du8, 0x62u8],
        bstr::utf8("gb"@) == seq![0x67u8, 0x62u8],
        bstr::utf8("tb"@) == seq![0x74u8, 0x62u8],
{
    reveal_strlit("kib");
    reveal_strlit("mib");
    reveal_strlit("gib");
    reveal_strlit("tib");
    reveal_strlit("kb");
    reveal_strlit("mb");
    reveal_strlit("gb");
    reveal_strlit("tb");
    bstr::lemma_ascii("kib"@);
    bstr::lemma_ascii("mib"@);
    bstr::lemma_ascii("gib"@);
    bstr::lemma_ascii("tib"@);
    bstr::lemma_ascii("kb"@);
    bstr::lemma_ascii("mb"@);
    bstr::lemma_ascii("gb"@);
    bstr::lemma_ascii("tb"@);
    assert(bstr::utf8("kib"@) =~= seq![0x6bu8, 0x69u8, 0x62u8]);
    assert(bstr::utf8("mib"@) =~= seq![0x6du8, 0x69u8, 0x62u8]);
    assert(bstr::utf8("gib"@) =~= seq![0x67u8, 0x69u8, 0x62u8]);
    assert(bstr::utf8("tib"@) =~= seq![0x74u8, 0x69u8, 0x62u8]);
    assert(bstr::utf8("kb"@) =~= seq![0x6bu8, 0x62u8]);
    assert(bstr::utf8("mb"@) =~= seq![0x6du8, 0x62u8]);
    assert(bstr::utf8("gb"@) =~= seq![0x67u8, 0x62u8]);
    assert(bstr::utf8("tb"@) =~= seq![0x74u8, 0x62u8]);
}

proof fn lemma_suffix(value: Seq<u8>, ending: Seq<u8>)
    requires
        bstr::has_suffix(value, ending),
    ensures
        ending.len() <= value.len(),
        forall|at: int|
            0 <= at < ending.len() ==> #[trigger] ending[at] == value[value.len() - ending.len()
                + at],
{
    let found = value.skip(value.len() - ending.len());
    assert forall|at: int| 0 <= at < ending.len() implies #[trigger] ending[at]
        == value[value.len() - ending.len() + at] by {
        assert(found[at] == ending[at]);
    }
}

#[verifier::spinoff_prover]
proof fn lemma_measured(digits: Seq<u8>, ending: Seq<u8>, power: nat)
    requires
        digits.len() > 0,
        decimal::all_digits(digits),
        names_unit(ending, power),
    ensures
        measured(digits + bstr::lowered(ending), 0).0 == digits,
        power == 0 ==> measured(digits + bstr::lowered(ending), 0).1 == 1,
        power == 1 ==> measured(digits + bstr::lowered(ending), 0).1 == 1024,
        power == 2 ==> measured(digits + bstr::lowered(ending), 0).1 == 1024 * 1024,
        power == 3 ==> measured(digits + bstr::lowered(ending), 0).1 == 1024 * 1024 * 1024,
        power == 4 ==> measured(digits + bstr::lowered(ending), 0).1 == 1024 * 1024 * 1024 * 1024,
{
    let low = bstr::lowered(ending);
    let value = digits + low;
    lemma_unit_bytes();
    reveal_with_fuel(measured, 9);
    assert(bstr::is_digit(digits[digits.len() - 1]));
    assert(value[digits.len() - 1] == digits[digits.len() - 1]);
    assert forall|at: int| 0 <= at < low.len() implies value[digits.len() + at] == #[trigger] low[at] by {}
    assert forall|index: int| 0 <= index < 8 && bstr::has_suffix(
        value,
        bstr::utf8(#[trigger] unit(index).0),
    ) implies low == bstr::utf8(unit(index).0) by {
        let text = bstr::utf8(unit(index).0);
        lemma_suffix(value, text);
        assert(text[text.len() - 1] == value[value.len() - 1]);
        assert(text[text.len() - 2] == value[value.len() - 2]);
        if text.len() == 3 {
            assert(text[0] == value[value.len() - 3]);
        }
        assert(low =~= text);
    }
    if power == 0 {
        assert(low =~= Seq::empty());
        assert(value =~= digits);
    } else {
        assert(low[0] == bstr::lower(ending[0]));
        assert(low[low.len() - 1] == bstr::lower(ending[ending.len() - 1]));
        if low.len() == 3 {
            assert(low[1] == bstr::lower(ending[1]));
        }
        let index: int = if low.len() == 3 {
            power - 1
        } else {
            power as int + 3
        };
        assert(low =~= bstr::utf8(unit(index).0));
        assert(value.skip(value.len() - low.len()) =~= low);
        assert(bstr::has_suffix(value, bstr::utf8(unit(index).0)));
        assert(value.take(value.len() - low.len()) =~= digits);
    }
}

/// Each unit means its power of 1024. The size of a number and a unit behind it is the number times
/// 1024, as often as the unit says, where that fits into 64 bits, and is refused where it does not.
/// Case, spaces and the `i` of a unit do not matter, and without a unit bytes are counted.
pub proof fn law_units_are_powers(
    before: nat,
    count: nat,
    between: nat,
    ending: Seq<u8>,
    power: nat,
    after: nat,
)
    requires
        count <= u64::MAX,
        names_unit(ending, power),
    ensures
        ({
            let value = text::spaces(before) + (decimal::digits(count) + text::spaces(between)
                + ending) + text::spaces(after);
            let size = count * vstd::arithmetic::power::pow(1024, power);
            if size <= u64::MAX {
                size_of(value) == Ok::<nat, Wrong>(size as nat)
            } else {
                size_of(value) == Err::<nat, Wrong>(ValueFault::SizeTooLarge)
            }
        }),
{
    let digits = decimal::digits(count);
    decimal::lemma_digits(count);
    decimal::law_digits_stand_for_their_number(count, 0);
    // Spaces behind a number that has no unit are spaces behind the whole.
    let (kept, tail): (nat, nat) = if power == 0 {
        (0, between + after)
    } else {
        (between, after)
    };
    let core = digits + text::spaces(kept) + ending;
    let value = text::spaces(before) + (digits + text::spaces(between) + ending) + text::spaces(
        after,
    );
    assert(value =~= text::spaces(before) + core + text::spaces(tail));
    assert(bstr::is_digit(digits[0]));
    assert(bstr::is_digit(digits[digits.len() - 1]));
    assert(core[0] == digits[0]);
    assert(core.last() == if power == 0 {
        digits[digits.len() - 1]
    } else {
        ending[ending.len() - 1]
    });
    text::law_trimming_keeps_the_text(before, core, tail);
    text::law_trimming_keeps_the_text(0, digits, 0);
    let low = bstr::lowered(ending);
    let word = bstr::lowered(core);
    assert forall|at: int| 0 <= at < digits.len() implies bstr::lower(digits[at]) == digits[at] by {
        assert(bstr::is_digit(digits[at]));
    }
    assert(word =~= digits + text::spaces(kept) + low);
    text::law_taking_out(digits + text::spaces(kept), low, SPACE);
    text::law_taking_out(digits, text::spaces(kept), SPACE);
    text::law_taking_out(text::spaces(kept), Seq::empty(), SPACE);
    text::law_taking_out(low, Seq::empty(), SPACE);
    assert(forall|at: int| 0 <= at < digits.len() ==> digits[at] != SPACE) by {
        assert forall|at: int| 0 <= at < digits.len() implies digits[at] != SPACE by {
            assert(bstr::is_digit(digits[at]));
        }
    }
    assert(forall|at: int| 0 <= at < low.len() ==> low[at] != SPACE);
    assert(text::without(word, SPACE) =~= digits + low);
    lemma_measured(digits, ending, power);
    assert(vstd::arithmetic::power::pow(1024, 0) == 1
        && vstd::arithmetic::power::pow(1024, 1) == 1024
        && vstd::arithmetic::power::pow(1024, 2) == 1024 * 1024
        && vstd::arithmetic::power::pow(1024, 3) == 1024 * 1024 * 1024
        && vstd::arithmetic::power::pow(1024, 4) == 1024 * 1024 * 1024 * 1024) by {
        reveal_with_fuel(vstd::arithmetic::power::pow, 5);
    }
}

/// Units with an `i` and without it are the same size, and 1024 of a unit are one of the next.
pub proof fn law_units_follow_each_other(
    count: nat,
    ending: Seq<u8>,
    other: Seq<u8>,
    next: Seq<u8>,
    power: nat,
)
    requires
        count * 1024 <= u64::MAX,
        names_unit(ending, power),
        names_unit(other, power),
        names_unit(next, power + 1),
    ensures
        size_of(decimal::digits(count) + ending) == size_of(decimal::digits(count) + other),
        size_of(decimal::digits(count * 1024) + ending) == size_of(decimal::digits(count) + next),
{
    law_units_are_powers(0, count, 0, ending, power, 0);
    law_units_are_powers(0, count, 0, other, power, 0);
    law_units_are_powers(0, count * 1024, 0, ending, power, 0);
    law_units_are_powers(0, count, 0, next, power + 1, 0);
    let none = text::spaces(0);
    let once = decimal::digits(count);
    let often = decimal::digits(count * 1024);
    assert(none + (once + none + ending) + none =~= once + ending);
    assert(none + (once + none + other) + none =~= once + other);
    assert(none + (often + none + ending) + none =~= often + ending);
    assert(none + (once + none + next) + none =~= once + next);
    let unit_size = vstd::arithmetic::power::pow(1024, power);
    assert(vstd::arithmetic::power::pow(1024, power + 1) == 1024 * unit_size) by {
        reveal(vstd::arithmetic::power::pow);
    }
    assert(count * (1024 * unit_size) == (count * 1024) * unit_size) by (nonlinear_arith);
}

/// Where nothing is said, the cache lies below the directory for caches, holds ten gigabytes, and is
/// on, writable and consulted before the preprocessor runs.
pub proof fn law_defaults(home: Seq<u8>, variables: ConfigVariables)
    requires
        variables.dir is None,
        variables.max_size is None,
        variables.disable is None,
        variables.read_only is None,
        variables.direct is None,
        variables.compiler_identity is None,
    ensures
        configured(Some(home), ConfigFile::Ignored, variables) == Ok::<Config<Seq<u8>>, Fault>(
            (Config {
                cache_dir: upath::joined(home, bstr::utf8("fcache"@)),
                max_size: (10 * 1024 * 1024 * 1024) as u64,
                enabled: true,
                read_only: false,
                direct: true,
                compiler_identity: CompilerIdentityPolicy::Auto,
            }),
        ),
{
}

/// A variable stands for truth where it is empty, `1`, `true`, `yes` or `on`, for falsehood where it
/// is `0`, `false`, `no` or `off`, and for nothing else. Case and surrounding white space do not
/// matter.
pub proof fn law_truth_values(value: Seq<u8>)
    ensures
        ({
            let word = bstr::lowered(text::trimmed(value));
            let yes = word == Seq::<u8>::empty() || word == bstr::utf8("1"@) || word == bstr::utf8(
                "true"@,
            ) || word == bstr::utf8("yes"@) || word == bstr::utf8("on"@);
            let no = word == bstr::utf8("0"@) || word == bstr::utf8("false"@) || word == bstr::utf8(
                "no"@,
            ) || word == bstr::utf8("off"@);
            &&& truth_of(value) == Ok::<bool, Wrong>(true) <==> bstr::is_utf8(value) && yes
            &&& truth_of(value) == Ok::<bool, Wrong>(false) <==> bstr::is_utf8(value) && no
            &&& truth_of(value) is Ok ==> yes != no
        }),
{
    let word = bstr::lowered(text::trimmed(value));
    assert(word.len() == 0 <==> word =~= Seq::<u8>::empty());
    reveal_strlit("1");
    reveal_strlit("true");
    reveal_strlit("yes");
    reveal_strlit("on");
    reveal_strlit("0");
    reveal_strlit("false");
    reveal_strlit("no");
    reveal_strlit("off");
    bstr::lemma_ascii("1"@);
    bstr::lemma_ascii("true"@);
    bstr::lemma_ascii("yes"@);
    bstr::lemma_ascii("on"@);
    bstr::lemma_ascii("0"@);
    bstr::lemma_ascii("false"@);
    bstr::lemma_ascii("no"@);
    bstr::lemma_ascii("off"@);
    let one = bstr::utf8("1"@);
    assert(one[0] == 0x31);
    assert(bstr::utf8("true"@)[0] == 0x74);
    assert(bstr::utf8("yes"@)[0] == 0x79);
    assert(bstr::utf8("on"@)[1] == 0x6e);
    assert(bstr::utf8("0"@)[0] == 0x30);
    assert(bstr::utf8("false"@)[0] == 0x66);
    assert(bstr::utf8("no"@)[1] == 0x6f);
    assert(bstr::utf8("off"@)[0] == 0x6f);
}

/// The policies are `auto` and `strict`, in either case and with white space around them, and no
/// other text names one.
pub proof fn law_policies(value: Seq<u8>)
    ensures
        ({
            let word = bstr::lowered(text::trimmed(value));
            &&& policy_of(value) == Ok::<CompilerIdentityPolicy, Wrong>(
                CompilerIdentityPolicy::Auto,
            ) <==> word == bstr::utf8("auto"@)
            &&& policy_of(value) == Ok::<CompilerIdentityPolicy, Wrong>(
                CompilerIdentityPolicy::Strict,
            ) <==> word == bstr::utf8("strict"@)
        }),
{
    reveal_strlit("auto");
    reveal_strlit("strict");
    bstr::lemma_ascii("auto"@);
    bstr::lemma_ascii("strict"@);
    assert(bstr::utf8("auto"@).len() != bstr::utf8("strict"@).len());
}

/// The size limit and the policy come from their variables, else from the file, else they are ten
/// gigabytes and `auto`. What neither a variable nor the file says keeps its default.
pub proof fn law_limit_and_policy(home: Seq<u8>, said: FileConfig, variables: ConfigVariables)
    ensures
        configured(Some(home), ConfigFile::Read(said), variables) matches Ok(config) ==> {
            let limit = Ok::<nat, Wrong>(config.max_size as nat);
            let policy = Ok::<CompilerIdentityPolicy, Wrong>(config.compiler_identity);
            &&& variables.max_size matches Some(text) ==> size_of(text@) == limit
            &&& variables.max_size is None ==> (said.max_size matches Some(text) ==> size_of(
                bstr::utf8(text@),
            ) == limit)
            &&& variables.max_size is None && said.max_size is None ==> config.max_size == 10 * 1024
                * 1024 * 1024
            &&& variables.compiler_identity matches Some(text) ==> policy_of(text@) == policy
            &&& variables.compiler_identity is None ==> (said.compiler_identity matches Some(text)
                ==> policy_of(bstr::utf8(text@)) == policy)
            &&& variables.compiler_identity is None && said.compiler_identity is None
                ==> config.compiler_identity == CompilerIdentityPolicy::Auto
            &&& variables.dir is None && said.dir is None ==> config.cache_dir == upath::joined(
                home,
                bstr::utf8("fcache"@),
            )
            &&& variables.disable is None && said.enabled is None ==> config.enabled
            &&& variables.read_only is None && said.read_only is None ==> !config.read_only
            &&& variables.direct is None && said.direct is None ==> config.direct
        },
{
}

/// A configuration is accepted exactly where every value that is set, in the file or in a variable,
/// can be read; a file that cannot be read or is not valid is refused, and one that is ignored says
/// nothing.
pub proof fn law_configurations_are_accepted(
    home: Seq<u8>,
    said: FileConfig,
    variables: ConfigVariables,
)
    ensures
        configured(Some(home), ConfigFile::Read(said), variables) is Ok <==> {
            &&& said.max_size matches Some(text) ==> size_of(bstr::utf8(text@)) is Ok
            &&& said.compiler_identity matches Some(text) ==> policy_of(bstr::utf8(text@)) is Ok
            &&& variables.max_size matches Some(text) ==> bstr::is_utf8(text@) && size_of(
                text@,
            ) is Ok
            &&& variables.disable matches Some(text) ==> truth_of(text@) is Ok
            &&& variables.read_only matches Some(text) ==> truth_of(text@) is Ok
            &&& variables.direct matches Some(text) ==> truth_of(text@) is Ok
            &&& variables.compiler_identity matches Some(text) ==> bstr::is_utf8(text@)
                && policy_of(text@) is Ok
        },
        forall|path: Vec<u8>, source: String|
            (#[trigger] configured(Some(home), ConfigFile::Unreadable { path, source }, variables)) is Err,
        forall|path: Vec<u8>, source: String|
            (#[trigger] configured(Some(home), ConfigFile::Invalid { path, source }, variables)) is Err,
        said == (FileConfig {
            dir: None,
            max_size: None,
            enabled: None,
            read_only: None,
            direct: None,
            compiler_identity: None,
        }) ==> configured(Some(home), ConfigFile::Read(said), variables) == configured(
            Some(home),
            ConfigFile::Ignored,
            variables,
        ),
{
}

} // verus!
