//! gfortran command lines: what an invocation reads, writes and searches, and whether it can be
//! cached.
//!
//! A command line is read argument by argument. Each argument, with the next one where it takes a
//! value, is one directive, and the invocation is what the directives amount to. The types that
//! hold byte strings are generic in them, so that contracts speak of the same types over `Seq<u8>`.
use vstd::prelude::*;

use crate::bstr;
use crate::compiler::options;
use crate::compiler::resolution;
use crate::compiler::resolution::{
    ForcedInput, ForcedInputKind, SearchPath, SearchPathKind,
};
use crate::upath;
use crate::words;

verus! {

broadcast use {
    bstr::lemma_views_push,
    resolution::lemma_search_views_push,
    resolution::lemma_forced_views_push,
};

/// Whether an invocation is eligible for caching.
#[derive(Clone, Debug, PartialEq, Eq)]
pub enum Cacheability<B = Vec<u8>> {
    Cacheable,
    Bypass(BypassReason<B>),
}

/// A reason an invocation cannot safely be cached or probed.
#[derive(Clone, Debug, PartialEq, Eq)]
pub enum BypassReason<B = Vec<u8>> {
    EmptyInvocation,
    ResponseFile(B),
    StdinSource,
    MissingSource,
    MultipleSources,
    NonFortranInput(B),
    LinkAction,
    PreprocessOnly,
    AssemblyOutput,
    StdoutDepfile,
    SaveTemps,
    DumpOutput,
    CoverageOrProfile,
    OptimizationRecord,
    FileDiagnostic,
    AutoFdo,
    LanguageOverride,
    ArgumentCarrier,
    PluginOrSpecs,
    UnknownOption(B),
    MissingDependencyProbePreprocessing,
    DuplicateModuleDirectory,
}

impl View for BypassReason {
    type V = BypassReason<Seq<u8>>;

    open spec fn view(&self) -> BypassReason<Seq<u8>> {
        match *self {
            BypassReason::EmptyInvocation => BypassReason::EmptyInvocation,
            BypassReason::ResponseFile(arg) => BypassReason::ResponseFile(arg@),
            BypassReason::StdinSource => BypassReason::StdinSource,
            BypassReason::MissingSource => BypassReason::MissingSource,
            BypassReason::MultipleSources => BypassReason::MultipleSources,
            BypassReason::NonFortranInput(arg) => BypassReason::NonFortranInput(arg@),
            BypassReason::LinkAction => BypassReason::LinkAction,
            BypassReason::PreprocessOnly => BypassReason::PreprocessOnly,
            BypassReason::AssemblyOutput => BypassReason::AssemblyOutput,
            BypassReason::StdoutDepfile => BypassReason::StdoutDepfile,
            BypassReason::SaveTemps => BypassReason::SaveTemps,
            BypassReason::DumpOutput => BypassReason::DumpOutput,
            BypassReason::CoverageOrProfile => BypassReason::CoverageOrProfile,
            BypassReason::OptimizationRecord => BypassReason::OptimizationRecord,
            BypassReason::FileDiagnostic => BypassReason::FileDiagnostic,
            BypassReason::AutoFdo => BypassReason::AutoFdo,
            BypassReason::LanguageOverride => BypassReason::LanguageOverride,
            BypassReason::ArgumentCarrier => BypassReason::ArgumentCarrier,
            BypassReason::PluginOrSpecs => BypassReason::PluginOrSpecs,
            BypassReason::UnknownOption(arg) => BypassReason::UnknownOption(arg@),
            BypassReason::MissingDependencyProbePreprocessing => {
                BypassReason::MissingDependencyProbePreprocessing
            },
            BypassReason::DuplicateModuleDirectory => BypassReason::DuplicateModuleDirectory,
        }
    }
}

/// A reason by its name. `shown` is how the argument that it is about is shown.
pub open spec fn reason_text(reason: BypassReason<Seq<u8>>, shown: Seq<char>) -> Seq<char> {
    match reason {
        BypassReason::EmptyInvocation => "EmptyInvocation"@,
        BypassReason::ResponseFile(_) => "ResponseFile("@ + shown + ")"@,
        BypassReason::StdinSource => "StdinSource"@,
        BypassReason::MissingSource => "MissingSource"@,
        BypassReason::MultipleSources => "MultipleSources"@,
        BypassReason::NonFortranInput(_) => "NonFortranInput("@ + shown + ")"@,
        BypassReason::LinkAction => "LinkAction"@,
        BypassReason::PreprocessOnly => "PreprocessOnly"@,
        BypassReason::AssemblyOutput => "AssemblyOutput"@,
        BypassReason::StdoutDepfile => "StdoutDepfile"@,
        BypassReason::SaveTemps => "SaveTemps"@,
        BypassReason::DumpOutput => "DumpOutput"@,
        BypassReason::CoverageOrProfile => "CoverageOrProfile"@,
        BypassReason::OptimizationRecord => "OptimizationRecord"@,
        BypassReason::FileDiagnostic => "FileDiagnostic"@,
        BypassReason::AutoFdo => "AutoFdo"@,
        BypassReason::LanguageOverride => "LanguageOverride"@,
        BypassReason::ArgumentCarrier => "ArgumentCarrier"@,
        BypassReason::PluginOrSpecs => "PluginOrSpecs"@,
        BypassReason::UnknownOption(_) => "UnknownOption("@ + shown + ")"@,
        BypassReason::MissingDependencyProbePreprocessing => {
            "MissingDependencyProbePreprocessing"@
        },
        BypassReason::DuplicateModuleDirectory => "DuplicateModuleDirectory"@,
    }
}

impl BypassReason {
    /// The reason by its name. `shown` is how the argument that it is about is shown.
    pub fn message(&self, shown: &str) -> (text: String)
        ensures
            text@ == reason_text(self@, shown@),
    {
        match self {
            BypassReason::EmptyInvocation => "EmptyInvocation".to_owned(),
            BypassReason::ResponseFile(_) => words::three("ResponseFile(", shown, ")"),
            BypassReason::StdinSource => "StdinSource".to_owned(),
            BypassReason::MissingSource => "MissingSource".to_owned(),
            BypassReason::MultipleSources => "MultipleSources".to_owned(),
            BypassReason::NonFortranInput(_) => words::three("NonFortranInput(", shown, ")"),
            BypassReason::LinkAction => "LinkAction".to_owned(),
            BypassReason::PreprocessOnly => "PreprocessOnly".to_owned(),
            BypassReason::AssemblyOutput => "AssemblyOutput".to_owned(),
            BypassReason::StdoutDepfile => "StdoutDepfile".to_owned(),
            BypassReason::SaveTemps => "SaveTemps".to_owned(),
            BypassReason::DumpOutput => "DumpOutput".to_owned(),
            BypassReason::CoverageOrProfile => "CoverageOrProfile".to_owned(),
            BypassReason::OptimizationRecord => "OptimizationRecord".to_owned(),
            BypassReason::FileDiagnostic => "FileDiagnostic".to_owned(),
            BypassReason::AutoFdo => "AutoFdo".to_owned(),
            BypassReason::LanguageOverride => "LanguageOverride".to_owned(),
            BypassReason::ArgumentCarrier => "ArgumentCarrier".to_owned(),
            BypassReason::PluginOrSpecs => "PluginOrSpecs".to_owned(),
            BypassReason::UnknownOption(_) => words::three("UnknownOption(", shown, ")"),
            BypassReason::MissingDependencyProbePreprocessing => {
                "MissingDependencyProbePreprocessing".to_owned()
            },
            BypassReason::DuplicateModuleDirectory => "DuplicateModuleDirectory".to_owned(),
        }
    }
}

impl View for Cacheability {
    type V = Cacheability<Seq<u8>>;

    open spec fn view(&self) -> Cacheability<Seq<u8>> {
        match *self {
            Cacheability::Cacheable => Cacheability::Cacheable,
            Cacheability::Bypass(reason) => Cacheability::Bypass(reason@),
        }
    }
}

/// A copy of a bypass reason.
pub fn copy_reason(reason: &BypassReason) -> (copied: BypassReason)
    ensures
        copied@ == reason@,
{
    match reason {
        BypassReason::EmptyInvocation => BypassReason::EmptyInvocation,
        BypassReason::ResponseFile(arg) => BypassReason::ResponseFile(bstr::copy(arg.as_slice())),
        BypassReason::StdinSource => BypassReason::StdinSource,
        BypassReason::MissingSource => BypassReason::MissingSource,
        BypassReason::MultipleSources => BypassReason::MultipleSources,
        BypassReason::NonFortranInput(arg) => BypassReason::NonFortranInput(
            bstr::copy(arg.as_slice()),
        ),
        BypassReason::LinkAction => BypassReason::LinkAction,
        BypassReason::PreprocessOnly => BypassReason::PreprocessOnly,
        BypassReason::AssemblyOutput => BypassReason::AssemblyOutput,
        BypassReason::StdoutDepfile => BypassReason::StdoutDepfile,
        BypassReason::SaveTemps => BypassReason::SaveTemps,
        BypassReason::DumpOutput => BypassReason::DumpOutput,
        BypassReason::CoverageOrProfile => BypassReason::CoverageOrProfile,
        BypassReason::OptimizationRecord => BypassReason::OptimizationRecord,
        BypassReason::FileDiagnostic => BypassReason::FileDiagnostic,
        BypassReason::AutoFdo => BypassReason::AutoFdo,
        BypassReason::LanguageOverride => BypassReason::LanguageOverride,
        BypassReason::ArgumentCarrier => BypassReason::ArgumentCarrier,
        BypassReason::PluginOrSpecs => BypassReason::PluginOrSpecs,
        BypassReason::UnknownOption(arg) => BypassReason::UnknownOption(bstr::copy(arg.as_slice())),
        BypassReason::MissingDependencyProbePreprocessing => {
            BypassReason::MissingDependencyProbePreprocessing
        },
        BypassReason::DuplicateModuleDirectory => BypassReason::DuplicateModuleDirectory,
    }
}

/// Preprocessing selected for a source file.
#[derive(Clone, Copy, Debug, PartialEq, Eq, Structural)]
pub enum Preprocessing {
    Auto,
    Cpp,
    NoCpp,
    Fpreprocessed,
}

impl Preprocessing {
    /// Whether an invocation can attempt a dependency probe.
    pub fn permits_probe(self) -> (yes: bool)
        ensures
            yes == self.may_probe(),
    {
        match self {
            Preprocessing::Auto => true,
            Preprocessing::Cpp => true,
            Preprocessing::NoCpp => false,
            Preprocessing::Fpreprocessed => false,
        }
    }

    /// Automatic and explicit preprocessing allow a dependency probe.
    pub open spec fn may_probe(self) -> bool {
        self is Auto || self is Cpp
    }
}

/// Dependency-file mode requested for the real compiler invocation.
#[derive(Clone, Copy, Debug, PartialEq, Eq, Structural)]
pub enum DependencyMode {
    /// User and system prerequisites.
    Md,
    /// System prerequisites are left out of the user depfile.
    Mmd,
}

/// Parsed gfortran command-line state.
#[derive(Clone, Debug, PartialEq, Eq)]
pub struct GfortranInvocation {
    pub cacheability: Cacheability,
    pub source: Option<Vec<u8>>,
    pub object: Option<Vec<u8>>,
    pub module_dir: Option<Vec<u8>>,
    pub include_dirs: Vec<Vec<u8>>,
    pub original_module_dirs: Vec<Vec<u8>>,
    /// Ordered command-line search paths, classified by compiler search tier.
    pub search_paths: Vec<SearchPath>,
    /// Files injected into preprocessing from the command line.
    pub forced_inputs: Vec<ForcedInput>,
    /// Command-line intrinsic module search directories.
    pub intrinsic_module_dirs: Vec<Vec<u8>>,
    pub user_depfile: Option<Vec<u8>>,
    pub dependency_mode: Option<DependencyMode>,
    pub dependency_target_modifiers: Vec<Vec<u8>>,
    pub compile_only: bool,
    pub syntax_only: bool,
    pub preprocessing: Preprocessing,
    pub original_args: Vec<Vec<u8>>,
    /// The arguments that a probe repeats.
    pub extra_args: Vec<Vec<u8>>,
    /// An argument that changes the search for files in a way that is not modelled.
    pub unmodeled_search_argument: Option<Vec<u8>>,
}

/// The contents of a `GfortranInvocation`.
#[verifier::ext_equal]
pub struct Invocation {
    pub cacheability: Cacheability<Seq<u8>>,
    pub source: Option<Seq<u8>>,
    pub object: Option<Seq<u8>>,
    pub module_dir: Option<Seq<u8>>,
    pub include_dirs: Seq<Seq<u8>>,
    pub original_module_dirs: Seq<Seq<u8>>,
    pub search_paths: Seq<SearchPath<Seq<u8>>>,
    pub forced_inputs: Seq<ForcedInput<Seq<u8>>>,
    pub intrinsic_module_dirs: Seq<Seq<u8>>,
    pub user_depfile: Option<Seq<u8>>,
    pub dependency_mode: Option<DependencyMode>,
    pub dependency_target_modifiers: Seq<Seq<u8>>,
    pub compile_only: bool,
    pub syntax_only: bool,
    pub preprocessing: Preprocessing,
    pub original_args: Seq<Seq<u8>>,
    pub extra_args: Seq<Seq<u8>>,
    pub unmodeled_search_argument: Option<Seq<u8>>,
}

impl View for GfortranInvocation {
    type V = Invocation;

    open spec fn view(&self) -> Invocation {
        Invocation {
            cacheability: self.cacheability@,
            source: bstr::opt_view(self.source),
            object: bstr::opt_view(self.object),
            module_dir: bstr::opt_view(self.module_dir),
            include_dirs: bstr::views(self.include_dirs@),
            original_module_dirs: bstr::views(self.original_module_dirs@),
            search_paths: resolution::search_views(self.search_paths@),
            forced_inputs: resolution::forced_views(self.forced_inputs@),
            intrinsic_module_dirs: bstr::views(self.intrinsic_module_dirs@),
            user_depfile: bstr::opt_view(self.user_depfile),
            dependency_mode: self.dependency_mode,
            dependency_target_modifiers: bstr::views(self.dependency_target_modifiers@),
            compile_only: self.compile_only,
            syntax_only: self.syntax_only,
            preprocessing: self.preprocessing,
            original_args: bstr::views(self.original_args@),
            extra_args: bstr::views(self.extra_args@),
            unmodeled_search_argument: bstr::opt_view(self.unmodeled_search_argument),
        }
    }
}

/// Why a command line cannot be read.
#[derive(Clone, Debug, PartialEq, Eq)]
pub enum ParseError<B = Vec<u8>> {
    EmptyInvocation,
    MissingOptionArgument { option: B },
}

impl View for ParseError {
    type V = ParseError<Seq<u8>>;

    open spec fn view(&self) -> ParseError<Seq<u8>> {
        match *self {
            ParseError::EmptyInvocation => ParseError::EmptyInvocation,
            ParseError::MissingOptionArgument { option } => ParseError::MissingOptionArgument {
                option: option@,
            },
        }
    }
}

/// The words of an error. `shown` is how the option that it is about is shown.
pub open spec fn parse_error_text(error: ParseError<Seq<u8>>, shown: Seq<char>) -> Seq<char> {
    match error {
        ParseError::EmptyInvocation => "gfortran argument list is empty"@,
        ParseError::MissingOptionArgument { .. } => "option "@ + shown + " requires an argument"@,
    }
}

impl ParseError {
    /// The words of the error. `shown` is how the option that it is about is shown.
    pub fn message(&self, shown: &str) -> (text: String)
        ensures
            text@ == parse_error_text(self@, shown@),
    {
        match self {
            ParseError::EmptyInvocation => "gfortran argument list is empty".to_owned(),
            ParseError::MissingOptionArgument { .. } => words::three(
                "option ",
                shown,
                " requires an argument",
            ),
        }
    }
}

/// What one argument, with its value where the next argument holds it, asks for.
pub enum Directive<B> {
    EndOfOptions,
    CompileOnly,
    SyntaxOnly,
    Cpp,
    NoCpp,
    Fpreprocessed,
    Mode(DependencyMode),
    /// A dependency target modifier that stands alone.
    Modifier(B),
    /// A dependency target modifier and its value.
    TargetModifier(B, B),
    /// An option without effect on the invocation.
    Nothing,
    Reject(BypassReason<B>),
    Object(B),
    ModuleDirectory(B),
    /// An argument that adds an include directory, and the directory.
    IncludeDirectory(B, B),
    Depfile(B),
    /// A supported argument without effect on the search for files.
    Carried(B),
    /// A supported option and its value.
    Valued(B, B),
    /// A supported option.
    Supported(B),
    Positional(B),
}

impl View for Directive<Vec<u8>> {
    type V = Directive<Seq<u8>>;

    open spec fn view(&self) -> Directive<Seq<u8>> {
        match *self {
            Directive::EndOfOptions => Directive::EndOfOptions,
            Directive::CompileOnly => Directive::CompileOnly,
            Directive::SyntaxOnly => Directive::SyntaxOnly,
            Directive::Cpp => Directive::Cpp,
            Directive::NoCpp => Directive::NoCpp,
            Directive::Fpreprocessed => Directive::Fpreprocessed,
            Directive::Mode(mode) => Directive::Mode(mode),
            Directive::Modifier(arg) => Directive::Modifier(arg@),
            Directive::TargetModifier(arg, value) => Directive::TargetModifier(arg@, value@),
            Directive::Nothing => Directive::Nothing,
            Directive::Reject(reason) => Directive::Reject(reason@),
            Directive::Object(value) => Directive::Object(value@),
            Directive::ModuleDirectory(value) => Directive::ModuleDirectory(value@),
            Directive::IncludeDirectory(arg, value) => Directive::IncludeDirectory(arg@, value@),
            Directive::Depfile(value) => Directive::Depfile(value@),
            Directive::Carried(arg) => Directive::Carried(arg@),
            Directive::Valued(arg, value) => Directive::Valued(arg@, value@),
            Directive::Supported(arg) => Directive::Supported(arg@),
            Directive::Positional(arg) => Directive::Positional(arg@),
        }
    }
}

/// The options whose value is the next argument.
#[verifier::opaque]
pub open spec fn takes_value(arg: Seq<u8>) -> bool {
    ||| arg == bstr::utf8("-MT"@)
    ||| arg == bstr::utf8("-MQ"@)
    ||| arg == bstr::utf8("-o"@)
    ||| arg == bstr::utf8("-J"@)
    ||| arg == bstr::utf8("-I"@)
    ||| arg == bstr::utf8("-MF"@)
    ||| arg == bstr::utf8("-x"@)
    ||| options::separate_argument_carrier(arg)
    ||| options::separate_value_option(arg)
}

/// What an option asks for with the next argument as its value.
#[verifier::opaque]
pub open spec fn with_value(arg: Seq<u8>, value: Seq<u8>) -> Directive<Seq<u8>> {
    if arg == bstr::utf8("-MT"@) || arg == bstr::utf8("-MQ"@) {
        Directive::TargetModifier(arg, value)
    } else if arg == bstr::utf8("-o"@) {
        Directive::Object(value)
    } else if arg == bstr::utf8("-J"@) {
        Directive::ModuleDirectory(value)
    } else if arg == bstr::utf8("-I"@) {
        Directive::IncludeDirectory(arg, value)
    } else if arg == bstr::utf8("-MF"@) {
        Directive::Depfile(value)
    } else if arg == bstr::utf8("-x"@) {
        Directive::Reject(BypassReason::LanguageOverride)
    } else if options::separate_argument_carrier(arg) {
        Directive::Reject(BypassReason::ArgumentCarrier)
    } else {
        Directive::Valued(arg, value)
    }
}

/// The reason for which an option with side effects is rejected.
#[verifier::opaque]
pub open spec fn side_effect(arg: Seq<u8>) -> BypassReason<Seq<u8>> {
    if options::language_override(arg) {
        BypassReason::LanguageOverride
    } else if options::argument_carrier(arg) {
        BypassReason::ArgumentCarrier
    } else if bstr::has_prefix(arg, bstr::utf8("-fauto-profile"@)) || bstr::has_prefix(
        arg,
        bstr::utf8("-fprofile-sample-use"@),
    ) {
        BypassReason::AutoFdo
    } else if bstr::has_prefix(arg, bstr::utf8("-fsave-optimization-record"@)) || bstr::has_prefix(
        arg,
        bstr::utf8("-foptimization-record-file"@),
    ) {
        BypassReason::OptimizationRecord
    } else if options::file_diagnostic(arg) {
        BypassReason::FileDiagnostic
    } else if bstr::has_prefix(arg, bstr::utf8("-save-temps"@)) {
        BypassReason::SaveTemps
    } else if {
        ||| bstr::has_prefix(arg, bstr::utf8("-dump"@))
        ||| bstr::has_prefix(arg, bstr::utf8("-fdump-"@))
        ||| bstr::has_prefix(arg, bstr::utf8("-fopt-info"@))
        ||| bstr::has_prefix(arg, bstr::utf8("-ftime-report"@))
        ||| bstr::has_prefix(arg, bstr::utf8("-fmem-report"@))
        ||| bstr::has_prefix(arg, bstr::utf8("-fstack-usage"@))
        ||| bstr::has_prefix(arg, bstr::utf8("-fcallgraph-info"@))
    } {
        BypassReason::DumpOutput
    } else if bstr::has_prefix(arg, bstr::utf8("-fplugin"@)) || bstr::has_prefix(
        arg,
        bstr::utf8("-specs"@),
    ) {
        BypassReason::PluginOrSpecs
    } else {
        BypassReason::CoverageOrProfile
    }
}

/// What an argument asks for that does not take the next one as its value.
#[verifier::opaque]
pub open spec fn alone(arg: Seq<u8>) -> Directive<Seq<u8>> {
    if arg == bstr::utf8("--"@) {
        Directive::EndOfOptions
    } else if arg.len() > 0 && arg[0] == 0x40 {
        Directive::Reject(BypassReason::ResponseFile(arg))
    } else if arg == bstr::utf8("-c"@) {
        Directive::CompileOnly
    } else if arg == bstr::utf8("-fsyntax-only"@) {
        Directive::SyntaxOnly
    } else if arg == bstr::utf8("-cpp"@) {
        Directive::Cpp
    } else if arg == bstr::utf8("-nocpp"@) {
        Directive::NoCpp
    } else if arg == bstr::utf8("-fpreprocessed"@) {
        Directive::Fpreprocessed
    } else if arg == bstr::utf8("-MD"@) {
        Directive::Mode(DependencyMode::Md)
    } else if arg == bstr::utf8("-MMD"@) {
        Directive::Mode(DependencyMode::Mmd)
    } else if arg == bstr::utf8("-MP"@) {
        Directive::Modifier(arg)
    } else if arg == bstr::utf8("-MG"@) {
        Directive::Nothing
    } else if bstr::has_prefix(arg, bstr::utf8("-MT"@)) || bstr::has_prefix(
        arg,
        bstr::utf8("-MQ"@),
    ) {
        Directive::Modifier(arg)
    } else if arg == bstr::utf8("-M"@) || arg == bstr::utf8("-MM"@) || arg == bstr::utf8("-E"@) {
        Directive::Reject(BypassReason::PreprocessOnly)
    } else if arg == bstr::utf8("-S"@) {
        Directive::Reject(BypassReason::AssemblyOutput)
    } else if bstr::has_prefix(arg, bstr::utf8("-MF"@)) {
        Directive::Depfile(attached(arg, "-MF"@))
    } else if bstr::has_prefix(arg, bstr::utf8("-J"@)) {
        Directive::ModuleDirectory(attached(arg, "-J"@))
    } else if bstr::has_prefix(arg, bstr::utf8("-I"@)) {
        Directive::IncludeDirectory(arg, attached(arg, "-I"@))
    } else if bstr::has_prefix(arg, bstr::utf8("-o"@)) {
        Directive::Object(attached(arg, "-o"@))
    } else if options::safe_argument_carrier(arg) {
        Directive::Carried(arg)
    } else if options::rejected_side_effect(arg) {
        Directive::Reject(side_effect(arg))
    } else if bstr::has_prefix(arg, bstr::utf8("-"@)) {
        if options::safe_option(arg) {
            Directive::Supported(arg)
        } else {
            Directive::Reject(BypassReason::UnknownOption(arg))
        }
    } else {
        Directive::Positional(arg)
    }
}

/// The directive at `index`, and the number of arguments that it takes.
pub open spec fn directive_at(args: Seq<Seq<u8>>, index: int, end_options: bool) -> Result<
    (Directive<Seq<u8>>, int),
    ParseError<Seq<u8>>,
> {
    let arg = args[index];
    if end_options {
        Ok((Directive::Positional(arg), 1int))
    } else if takes_value(arg) {
        if index + 1 < args.len() {
            Ok((with_value(arg, args[index + 1]), 2int))
        } else {
            Err(ParseError::MissingOptionArgument { option: arg })
        }
    } else {
        Ok((alone(arg), 1int))
    }
}

/// A command line that has been read in part.
#[verifier::ext_equal]
pub struct Partial {
    pub invocation: Invocation,
    pub positional: Seq<Seq<u8>>,
    pub end_options: bool,
    pub explicit_cpp: Option<bool>,
    pub fpreprocessed: bool,
}

/// A reason is recorded only where none is yet.
pub open spec fn bypassed(invocation: Invocation, reason: BypassReason<Seq<u8>>) -> Invocation {
    if invocation.cacheability is Cacheable {
        Invocation { cacheability: Cacheability::Bypass(reason), ..invocation }
    } else {
        invocation
    }
}

/// The invocation with one more search path.
pub open spec fn searching(invocation: Invocation, kind: SearchPathKind, path: Seq<u8>) -> Invocation {
    Invocation { search_paths: invocation.search_paths.push(SearchPath { kind, path }), ..invocation }
}

/// The invocation with one more forced input.
pub open spec fn forcing(invocation: Invocation, kind: ForcedInputKind, path: Seq<u8>) -> Invocation {
    Invocation {
        forced_inputs: invocation.forced_inputs.push(ForcedInput { kind, path }),
        ..invocation
    }
}

/// The invocation with an argument that makes its search unmodelled.
pub open spec fn unmodeled(invocation: Invocation, arg: Seq<u8>) -> Invocation {
    Invocation { unmodeled_search_argument: Some(arg), ..invocation }
}

/// The invocation with one more intrinsic module directory.
pub open spec fn intrinsic(invocation: Invocation, path: Seq<u8>) -> Invocation {
    Invocation {
        intrinsic_module_dirs: invocation.intrinsic_module_dirs.push(path),
        ..invocation
    }
}

/// What an option with a separate value does to the search for files.
pub open spec fn resolution_option(
    invocation: Invocation,
    option: Seq<u8>,
    value: Seq<u8>,
) -> Invocation {
    if option == bstr::utf8("-iquote"@) {
        searching(invocation, SearchPathKind::Quote, value)
    } else if option == bstr::utf8("-isystem"@) {
        searching(invocation, SearchPathKind::System, value)
    } else if option == bstr::utf8("-idirafter"@) {
        searching(invocation, SearchPathKind::After, value)
    } else if option == bstr::utf8("-include"@) {
        forcing(invocation, ForcedInputKind::Include, value)
    } else if option == bstr::utf8("-imacros"@) {
        forcing(invocation, ForcedInputKind::Imacros, value)
    } else if option == bstr::utf8("-fintrinsic-modules-path"@) {
        intrinsic(invocation, value)
    } else if option == bstr::utf8("-iframework"@) || option == bstr::utf8("-F"@) {
        unmodeled(invocation, option)
    } else {
        invocation
    }
}

/// The value attached to an option.
pub open spec fn attached(arg: Seq<u8>, prefix: Seq<char>) -> Seq<u8> {
    arg.skip(bstr::utf8(prefix).len() as int)
}

/// The first byte is `-`.
pub open spec fn dashed(value: Seq<u8>) -> bool {
    value.len() > 0 && value[0] == 0x2d
}

/// What an option with an attached value does to the search for files.
pub open spec fn attached_resolution_option(invocation: Invocation, arg: Seq<u8>) -> Invocation {
    if options::valued(arg, "-iquote"@) {
        if dashed(attached(arg, "-iquote"@)) {
            unmodeled(invocation, arg)
        } else {
            searching(invocation, SearchPathKind::Quote, attached(arg, "-iquote"@))
        }
    } else if options::valued(arg, "-isystem"@) {
        if dashed(attached(arg, "-isystem"@)) {
            unmodeled(invocation, arg)
        } else {
            searching(invocation, SearchPathKind::System, attached(arg, "-isystem"@))
        }
    } else if options::valued(arg, "-idirafter"@) {
        if dashed(attached(arg, "-idirafter"@)) {
            unmodeled(invocation, arg)
        } else {
            searching(invocation, SearchPathKind::After, attached(arg, "-idirafter"@))
        }
    } else if options::valued(arg, "-include"@) {
        if dashed(attached(arg, "-include"@)) {
            unmodeled(invocation, arg)
        } else {
            forcing(invocation, ForcedInputKind::Include, attached(arg, "-include"@))
        }
    } else if options::valued(arg, "-imacros"@) {
        if dashed(attached(arg, "-imacros"@)) {
            unmodeled(invocation, arg)
        } else {
            forcing(invocation, ForcedInputKind::Imacros, attached(arg, "-imacros"@))
        }
    } else if bstr::has_prefix(arg, bstr::utf8("-fintrinsic-modules-path="@)) {
        intrinsic(invocation, attached(arg, "-fintrinsic-modules-path="@))
    } else if bstr::has_prefix(arg, bstr::utf8("-F"@)) {
        unmodeled(invocation, arg)
    } else {
        invocation
    }
}

/// The invocation with one more argument that probes repeat.
pub open spec fn carrying(invocation: Invocation, arg: Seq<u8>) -> Invocation {
    Invocation { extra_args: invocation.extra_args.push(arg), ..invocation }
}

/// The invocation with one more include directory.
pub open spec fn including(invocation: Invocation, arg: Seq<u8>, directory: Seq<u8>) -> Invocation {
    let searched = if directory == bstr::utf8("-"@) {
        unmodeled(invocation, arg)
    } else {
        invocation
    };
    carrying(
        carrying(
            searching(
                Invocation { include_dirs: searched.include_dirs.push(directory), ..searched },
                SearchPathKind::Include,
                directory,
            ),
            bstr::utf8("-I"@),
        ),
        directory,
    )
}

/// The invocation with a user depfile. A depfile on standard output cannot be replayed.
pub open spec fn with_depfile(invocation: Invocation, path: Seq<u8>) -> Invocation {
    let marked = if path == bstr::utf8("-"@) {
        bypassed(invocation, BypassReason::StdoutDepfile)
    } else {
        invocation
    };
    Invocation { user_depfile: Some(path), ..marked }
}

/// The invocation with one more dependency target modifier.
pub open spec fn modifying(invocation: Invocation, arg: Seq<u8>) -> Invocation {
    Invocation {
        dependency_target_modifiers: invocation.dependency_target_modifiers.push(arg),
        ..invocation
    }
}

/// What a directive makes of the invocation so far.
#[verifier::opaque]
pub open spec fn amended(invocation: Invocation, directive: Directive<Seq<u8>>) -> Invocation {
    match directive {
        Directive::EndOfOptions => invocation,
        Directive::CompileOnly => Invocation { compile_only: true, ..invocation },
        Directive::SyntaxOnly => Invocation { syntax_only: true, ..invocation },
        Directive::Cpp => invocation,
        Directive::NoCpp => invocation,
        Directive::Fpreprocessed => invocation,
        Directive::Mode(mode) => Invocation { dependency_mode: Some(mode), ..invocation },
        Directive::Modifier(arg) => modifying(invocation, arg),
        Directive::TargetModifier(arg, value) => modifying(modifying(invocation, arg), value),
        Directive::Nothing => invocation,
        Directive::Reject(reason) => bypassed(invocation, reason),
        Directive::Object(value) => Invocation { object: Some(value), ..invocation },
        Directive::ModuleDirectory(value) => Invocation {
            original_module_dirs: invocation.original_module_dirs.push(value),
            ..invocation
        },
        Directive::IncludeDirectory(arg, value) => including(invocation, arg, value),
        Directive::Depfile(value) => with_depfile(invocation, value),
        Directive::Carried(arg) => carrying(invocation, arg),
        Directive::Valued(arg, value) => carrying(
            carrying(resolution_option(invocation, arg, value), arg),
            value,
        ),
        Directive::Supported(arg) => carrying(attached_resolution_option(invocation, arg), arg),
        Directive::Positional(arg) => invocation,
    }
}

/// What a directive makes of the command line read so far.
pub open spec fn advanced(partial: Partial, directive: Directive<Seq<u8>>) -> Partial {
    Partial {
        invocation: amended(partial.invocation, directive),
        positional: match directive {
            Directive::Positional(arg) => partial.positional.push(arg),
            _ => partial.positional,
        },
        end_options: partial.end_options || directive is EndOfOptions,
        explicit_cpp: match directive {
            Directive::Cpp => Some(true),
            Directive::NoCpp => Some(false),
            _ => partial.explicit_cpp,
        },
        fpreprocessed: partial.fpreprocessed || directive is Fpreprocessed,
    }
}

/// The command line read from `index` on.
pub open spec fn read_from(args: Seq<Seq<u8>>, index: int, partial: Partial) -> Result<
    Partial,
    ParseError<Seq<u8>>,
>
    decreases args.len() - index,
{
    if index >= args.len() {
        Ok(partial)
    } else {
        match directive_at(args, index, partial.end_options) {
            Err(error) => Err(error),
            Ok((directive, width)) => if width >= 1 {
                read_from(args, index + width, advanced(partial, directive))
            } else {
                Ok(partial)
            },
        }
    }
}

/// An invocation of which nothing has been read yet.
pub open spec fn unread(args: Seq<Seq<u8>>) -> Invocation {
    Invocation {
        cacheability: Cacheability::Cacheable,
        source: None,
        object: None,
        module_dir: None,
        include_dirs: Seq::empty(),
        original_module_dirs: Seq::empty(),
        search_paths: Seq::empty(),
        forced_inputs: Seq::empty(),
        intrinsic_module_dirs: Seq::empty(),
        user_depfile: None,
        dependency_mode: None,
        dependency_target_modifiers: Seq::empty(),
        compile_only: false,
        syntax_only: false,
        preprocessing: Preprocessing::Auto,
        original_args: args,
        extra_args: Seq::empty(),
        unmodeled_search_argument: None,
    }
}

/// A file name extension of Fortran sources.
#[verifier::opaque]
pub open spec fn fortran_extension(extension: Seq<u8>) -> bool {
    ||| extension == bstr::utf8("f"@)
    ||| extension == bstr::utf8("for"@)
    ||| extension == bstr::utf8("f77"@)
    ||| extension == bstr::utf8("f90"@)
    ||| extension == bstr::utf8("f95"@)
    ||| extension == bstr::utf8("f03"@)
    ||| extension == bstr::utf8("f08"@)
    ||| extension == bstr::utf8("f18"@)
    ||| extension == bstr::utf8("F"@)
    ||| extension == bstr::utf8("FOR"@)
    ||| extension == bstr::utf8("F77"@)
    ||| extension == bstr::utf8("F90"@)
    ||| extension == bstr::utf8("F95"@)
    ||| extension == bstr::utf8("F03"@)
    ||| extension == bstr::utf8("F08"@)
    ||| extension == bstr::utf8("F18"@)
    ||| extension == bstr::utf8("fpp"@)
    ||| extension == bstr::utf8("FPP"@)
}

/// A path with the extension of a Fortran source.
pub open spec fn fortran_source(path: Seq<u8>) -> bool {
    match upath::extension_of(path) {
        Some(extension) => fortran_extension(extension),
        None => false,
    }
}

/// A path whose extension has an ASCII upper-case letter.
pub open spec fn uppercase_extension(path: Seq<u8>) -> bool {
    match upath::extension_of(path) {
        Some(extension) => bstr::has_upper(extension),
        None => false,
    }
}

/// What one positional argument makes of the invocation.
pub open spec fn with_input(invocation: Invocation, value: Seq<u8>) -> Invocation {
    if value == bstr::utf8("-"@) {
        bypassed(invocation, BypassReason::StdinSource)
    } else if fortran_source(value) {
        if invocation.source is Some {
            bypassed(invocation, BypassReason::MultipleSources)
        } else {
            Invocation { source: Some(value), ..invocation }
        }
    } else {
        bypassed(invocation, BypassReason::NonFortranInput(value))
    }
}

/// What the positional arguments make of the invocation.
pub open spec fn with_inputs(invocation: Invocation, positional: Seq<Seq<u8>>) -> Invocation
    decreases positional.len(),
{
    if positional.len() == 0 {
        invocation
    } else {
        with_input(with_inputs(invocation, positional.drop_last()), positional.last())
    }
}

/// The module directory, which only one `-J` can set.
pub open spec fn with_module_directory(invocation: Invocation) -> Invocation {
    if invocation.original_module_dirs.len() > 1 {
        bypassed(
            Invocation { module_dir: None, ..invocation },
            BypassReason::DuplicateModuleDirectory,
        )
    } else if invocation.original_module_dirs.len() == 1 {
        Invocation { module_dir: Some(invocation.original_module_dirs[0]), ..invocation }
    } else {
        Invocation { module_dir: None, ..invocation }
    }
}

/// Neither a source that is missing nor a link can be cached.
pub open spec fn with_action(invocation: Invocation) -> Invocation {
    let sourced = if invocation.source is None {
        bypassed(invocation, BypassReason::MissingSource)
    } else {
        invocation
    };
    if !sourced.compile_only && !sourced.syntax_only {
        bypassed(sourced, BypassReason::LinkAction)
    } else {
        sourced
    }
}

/// The preprocessing that the options and the source select.
pub open spec fn selected_preprocessing(
    fpreprocessed: bool,
    explicit_cpp: Option<bool>,
    source: Option<Seq<u8>>,
) -> Preprocessing {
    if fpreprocessed {
        Preprocessing::Fpreprocessed
    } else if explicit_cpp is Some {
        if explicit_cpp->0 {
            Preprocessing::Cpp
        } else {
            Preprocessing::NoCpp
        }
    } else if source is Some && uppercase_extension(source->0) {
        Preprocessing::Cpp
    } else {
        Preprocessing::Auto
    }
}

/// The depfile that gfortran writes where none is named.
pub open spec fn depfile_by_default(invocation: Invocation) -> Option<Seq<u8>> {
    if invocation.object is Some {
        Some(upath::with_extension_of(invocation.object->0, bstr::utf8("d"@)))
    } else if invocation.source is Some {
        match upath::file_name_of(invocation.source->0) {
            Some(name) => Some(upath::with_extension_of(name, bstr::utf8("d"@))),
            None => None,
        }
    } else {
        None
    }
}

/// The user depfile is the default one where a mode asks for one and none is named.
pub open spec fn with_default_depfile(invocation: Invocation) -> Invocation {
    if invocation.dependency_mode is Some && invocation.user_depfile is None {
        Invocation { user_depfile: depfile_by_default(invocation), ..invocation }
    } else {
        invocation
    }
}

/// The invocation that a command line, read to its end, amounts to.
pub open spec fn completed(partial: Partial) -> Invocation {
    let acting = with_action(
        with_inputs(with_module_directory(partial.invocation), partial.positional),
    );
    with_default_depfile(
        Invocation {
            preprocessing: selected_preprocessing(
                partial.fpreprocessed,
                partial.explicit_cpp,
                acting.source,
            ),
            ..acting
        },
    )
}

/// A command line of which nothing has been read yet.
pub open spec fn beginning(args: Seq<Seq<u8>>) -> Partial {
    Partial {
        invocation: unread(args),
        positional: Seq::empty(),
        end_options: false,
        explicit_cpp: None,
        fpreprocessed: false,
    }
}

/// What a command line, without the compiler executable, amounts to.
pub open spec fn parsed(args: Seq<Seq<u8>>) -> Result<Invocation, ParseError<Seq<u8>>> {
    if args.len() == 0 {
        Err(ParseError::EmptyInvocation)
    } else {
        match read_from(args, 0, beginning(args)) {
            Ok(partial) => Ok(completed(partial)),
            Err(error) => Err(error),
        }
    }
}

fn requires_value(arg: &[u8]) -> (yes: bool)
    ensures
        yes == takes_value(arg@),
{
    proof {
        reveal(takes_value);
    }
    bstr::is(arg, "-MT") || bstr::is(arg, "-MQ") || bstr::is(arg, "-o") || bstr::is(arg, "-J")
        || bstr::is(arg, "-I") || bstr::is(arg, "-MF") || bstr::is(arg, "-x")
        || options::is_separate_argument_carrier(arg) || options::is_separate_value_option(arg)
}

fn value_directive(arg: &[u8], value: Vec<u8>) -> (directive: Directive<Vec<u8>>)
    ensures
        directive@ == with_value(arg@, value@),
{
    proof {
        reveal(with_value);
    }
    if bstr::is(arg, "-MT") || bstr::is(arg, "-MQ") {
        Directive::TargetModifier(bstr::copy(arg), value)
    } else if bstr::is(arg, "-o") {
        Directive::Object(value)
    } else if bstr::is(arg, "-J") {
        Directive::ModuleDirectory(value)
    } else if bstr::is(arg, "-I") {
        Directive::IncludeDirectory(bstr::copy(arg), value)
    } else if bstr::is(arg, "-MF") {
        Directive::Depfile(value)
    } else if bstr::is(arg, "-x") {
        Directive::Reject(BypassReason::LanguageOverride)
    } else if options::is_separate_argument_carrier(arg) {
        Directive::Reject(BypassReason::ArgumentCarrier)
    } else {
        Directive::Valued(bstr::copy(arg), value)
    }
}

/// The reason for which an option with side effects is rejected.
pub fn side_effect_reason(arg: &[u8]) -> (reason: BypassReason)
    ensures
        reason@ == side_effect(arg@),
{
    proof {
        reveal(side_effect);
    }
    if options::is_language_override(arg) {
        BypassReason::LanguageOverride
    } else if options::is_argument_carrier(arg) {
        BypassReason::ArgumentCarrier
    } else if bstr::starts_with_str(arg, "-fauto-profile") || bstr::starts_with_str(
        arg,
        "-fprofile-sample-use",
    ) {
        BypassReason::AutoFdo
    } else if bstr::starts_with_str(arg, "-fsave-optimization-record") || bstr::starts_with_str(
        arg,
        "-foptimization-record-file",
    ) {
        BypassReason::OptimizationRecord
    } else if options::is_file_diagnostic(arg) {
        BypassReason::FileDiagnostic
    } else if bstr::starts_with_str(arg, "-save-temps") {
        BypassReason::SaveTemps
    } else if bstr::starts_with_str(arg, "-dump") || bstr::starts_with_str(arg, "-fdump-")
        || bstr::starts_with_str(arg, "-fopt-info") || bstr::starts_with_str(arg, "-ftime-report")
        || bstr::starts_with_str(arg, "-fmem-report") || bstr::starts_with_str(arg, "-fstack-usage")
        || bstr::starts_with_str(arg, "-fcallgraph-info") {
        BypassReason::DumpOutput
    } else if bstr::starts_with_str(arg, "-fplugin") || bstr::starts_with_str(arg, "-specs") {
        BypassReason::PluginOrSpecs
    } else {
        BypassReason::CoverageOrProfile
    }
}

fn lone_directive(arg: &[u8]) -> (directive: Directive<Vec<u8>>)
    ensures
        directive@ == alone(arg@),
{
    proof {
        reveal(alone);
    }
    if bstr::is(arg, "--") {
        Directive::EndOfOptions
    } else if arg.len() > 0 && arg[0] == 0x40 {
        Directive::Reject(BypassReason::ResponseFile(bstr::copy(arg)))
    } else if bstr::is(arg, "-c") {
        Directive::CompileOnly
    } else if bstr::is(arg, "-fsyntax-only") {
        Directive::SyntaxOnly
    } else if bstr::is(arg, "-cpp") {
        Directive::Cpp
    } else if bstr::is(arg, "-nocpp") {
        Directive::NoCpp
    } else if bstr::is(arg, "-fpreprocessed") {
        Directive::Fpreprocessed
    } else if bstr::is(arg, "-MD") {
        Directive::Mode(DependencyMode::Md)
    } else if bstr::is(arg, "-MMD") {
        Directive::Mode(DependencyMode::Mmd)
    } else if bstr::is(arg, "-MP") {
        Directive::Modifier(bstr::copy(arg))
    } else if bstr::is(arg, "-MG") {
        Directive::Nothing
    } else if bstr::starts_with_str(arg, "-MT") || bstr::starts_with_str(arg, "-MQ") {
        Directive::Modifier(bstr::copy(arg))
    } else if bstr::is(arg, "-M") || bstr::is(arg, "-MM") || bstr::is(arg, "-E") {
        Directive::Reject(BypassReason::PreprocessOnly)
    } else if bstr::is(arg, "-S") {
        Directive::Reject(BypassReason::AssemblyOutput)
    } else if let Some(value) = bstr::strip_prefix(arg, "-MF") {
        Directive::Depfile(bstr::copy(value))
    } else if let Some(value) = bstr::strip_prefix(arg, "-J") {
        Directive::ModuleDirectory(bstr::copy(value))
    } else if let Some(value) = bstr::strip_prefix(arg, "-I") {
        Directive::IncludeDirectory(bstr::copy(arg), bstr::copy(value))
    } else if let Some(value) = bstr::strip_prefix(arg, "-o") {
        Directive::Object(bstr::copy(value))
    } else if options::is_safe_argument_carrier(arg) {
        Directive::Carried(bstr::copy(arg))
    } else if options::is_rejected_side_effect(arg) {
        Directive::Reject(side_effect_reason(arg))
    } else if bstr::starts_with_str(arg, "-") {
        if options::is_safe_option(arg) {
            Directive::Supported(bstr::copy(arg))
        } else {
            Directive::Reject(BypassReason::UnknownOption(bstr::copy(arg)))
        }
    } else {
        Directive::Positional(bstr::copy(arg))
    }
}

/// The value that follows an option.
fn next_value(args: &[Vec<u8>], index: usize) -> (value: Result<Vec<u8>, ParseError>)
    requires
        index < args.len(),
    ensures
        match value {
            Ok(bytes) => index + 1 < args@.len() && bytes@ == args@[index + 1]@,
            Err(error) => index + 1 >= args@.len() && error@
                == (ParseError::MissingOptionArgument { option: args@[index as int]@ }),
        },
{
    if index + 1 < args.len() {
        Ok(bstr::copy(args[index + 1].as_slice()))
    } else {
        Err(ParseError::MissingOptionArgument { option: bstr::copy(args[index].as_slice()) })
    }
}

struct CommandLine {
    invocation: GfortranInvocation,
    positional: Vec<Vec<u8>>,
    end_options: bool,
    explicit_cpp: Option<bool>,
    fpreprocessed: bool,
}

impl CommandLine {
    spec fn partial(self) -> Partial {
        Partial {
            invocation: self.invocation@,
            positional: bstr::views(self.positional@),
            end_options: self.end_options,
            explicit_cpp: self.explicit_cpp,
            fpreprocessed: self.fpreprocessed,
        }
    }
}

fn mark_bypass(invocation: &mut GfortranInvocation, reason: BypassReason)
    ensures
        final(invocation)@ == bypassed(old(invocation)@, reason@),
{
    if let Cacheability::Cacheable = invocation.cacheability {
        invocation.cacheability = Cacheability::Bypass(reason);
    }
    assert(invocation@ =~= bypassed(old(invocation)@, reason@));
}

fn push_search(invocation: &mut GfortranInvocation, kind: SearchPathKind, path: Vec<u8>)
    ensures
        final(invocation)@ == searching(old(invocation)@, kind, path@),
{
    invocation.search_paths.push(SearchPath { kind, path });
    assert(invocation@ =~= searching(old(invocation)@, kind, path@));
}

fn push_forced(invocation: &mut GfortranInvocation, kind: ForcedInputKind, path: Vec<u8>)
    ensures
        final(invocation)@ == forcing(old(invocation)@, kind, path@),
{
    invocation.forced_inputs.push(ForcedInput { kind, path });
    assert(invocation@ =~= forcing(old(invocation)@, kind, path@));
}

fn mark_unmodeled(invocation: &mut GfortranInvocation, arg: &[u8])
    ensures
        final(invocation)@ == unmodeled(old(invocation)@, arg@),
{
    invocation.unmodeled_search_argument = Some(bstr::copy(arg));
    assert(invocation@ =~= unmodeled(old(invocation)@, arg@));
}

fn push_intrinsic(invocation: &mut GfortranInvocation, path: Vec<u8>)
    ensures
        final(invocation)@ == intrinsic(old(invocation)@, path@),
{
    invocation.intrinsic_module_dirs.push(path);
    assert(invocation@ =~= intrinsic(old(invocation)@, path@));
}

fn push_extra(invocation: &mut GfortranInvocation, arg: Vec<u8>)
    ensures
        final(invocation)@ == carrying(old(invocation)@, arg@),
{
    invocation.extra_args.push(arg);
    assert(invocation@ =~= carrying(old(invocation)@, arg@));
}

fn push_modifier(invocation: &mut GfortranInvocation, arg: Vec<u8>)
    ensures
        final(invocation)@ == modifying(old(invocation)@, arg@),
{
    invocation.dependency_target_modifiers.push(arg);
    assert(invocation@ =~= modifying(old(invocation)@, arg@));
}

fn record_resolution_option(invocation: &mut GfortranInvocation, option: &[u8], value: &[u8])
    ensures
        final(invocation)@ == resolution_option(old(invocation)@, option@, value@),
{
    if bstr::is(option, "-iquote") {
        push_search(invocation, SearchPathKind::Quote, bstr::copy(value));
    } else if bstr::is(option, "-isystem") {
        push_search(invocation, SearchPathKind::System, bstr::copy(value));
    } else if bstr::is(option, "-idirafter") {
        push_search(invocation, SearchPathKind::After, bstr::copy(value));
    } else if bstr::is(option, "-include") {
        push_forced(invocation, ForcedInputKind::Include, bstr::copy(value));
    } else if bstr::is(option, "-imacros") {
        push_forced(invocation, ForcedInputKind::Imacros, bstr::copy(value));
    } else if bstr::is(option, "-fintrinsic-modules-path") {
        push_intrinsic(invocation, bstr::copy(value));
    } else if bstr::is(option, "-iframework") || bstr::is(option, "-F") {
        mark_unmodeled(invocation, option);
    }
}

/// The value attached to an option, where it is not empty.
fn attached_value<'a>(arg: &'a [u8], prefix: &str) -> (value: Option<&'a [u8]>)
    ensures
        value is Some == options::valued(arg@, prefix@),
        value is Some ==> value->0@ == attached(arg@, prefix@),
{
    match bstr::strip_prefix(arg, prefix) {
        Some(value) => if value.len() > 0 {
            Some(value)
        } else {
            None
        },
        None => None,
    }
}

fn push_attached_search(
    invocation: &mut GfortranInvocation,
    arg: &[u8],
    kind: SearchPathKind,
    value: &[u8],
)
    ensures
        final(invocation)@ == if dashed(value@) {
            unmodeled(old(invocation)@, arg@)
        } else {
            searching(old(invocation)@, kind, value@)
        },
{
    if value.len() > 0 && value[0] == 0x2d {
        mark_unmodeled(invocation, arg);
    } else {
        push_search(invocation, kind, bstr::copy(value));
    }
}

fn push_attached_forced(
    invocation: &mut GfortranInvocation,
    arg: &[u8],
    kind: ForcedInputKind,
    value: &[u8],
)
    ensures
        final(invocation)@ == if dashed(value@) {
            unmodeled(old(invocation)@, arg@)
        } else {
            forcing(old(invocation)@, kind, value@)
        },
{
    if value.len() > 0 && value[0] == 0x2d {
        mark_unmodeled(invocation, arg);
    } else {
        push_forced(invocation, kind, bstr::copy(value));
    }
}

fn record_attached_resolution_option(invocation: &mut GfortranInvocation, arg: &[u8])
    ensures
        final(invocation)@ == attached_resolution_option(old(invocation)@, arg@),
{
    if let Some(value) = attached_value(arg, "-iquote") {
        push_attached_search(invocation, arg, SearchPathKind::Quote, value);
    } else if let Some(value) = attached_value(arg, "-isystem") {
        push_attached_search(invocation, arg, SearchPathKind::System, value);
    } else if let Some(value) = attached_value(arg, "-idirafter") {
        push_attached_search(invocation, arg, SearchPathKind::After, value);
    } else if let Some(value) = attached_value(arg, "-include") {
        push_attached_forced(invocation, arg, ForcedInputKind::Include, value);
    } else if let Some(value) = attached_value(arg, "-imacros") {
        push_attached_forced(invocation, arg, ForcedInputKind::Imacros, value);
    } else if let Some(value) = bstr::strip_prefix(arg, "-fintrinsic-modules-path=") {
        push_intrinsic(invocation, bstr::copy(value));
    } else if bstr::starts_with_str(arg, "-F") {
        mark_unmodeled(invocation, arg);
    }
}

fn push_include(invocation: &mut GfortranInvocation, arg: &[u8], directory: Vec<u8>)
    ensures
        final(invocation)@ == including(old(invocation)@, arg@, directory@),
{
    if bstr::is(directory.as_slice(), "-") {
        mark_unmodeled(invocation, arg);
    }
    let ghost searched = invocation@;
    let listed = bstr::copy(directory.as_slice());
    invocation.include_dirs.push(listed);
    assert(invocation@ =~= (Invocation {
        include_dirs: searched.include_dirs.push(directory@),
        ..searched
    }));
    push_search(invocation, SearchPathKind::Include, bstr::copy(directory.as_slice()));
    push_extra(invocation, bstr::from_str("-I"));
    push_extra(invocation, directory);
}

fn amend(invocation: &mut GfortranInvocation, directive: Directive<Vec<u8>>)
    ensures
        final(invocation)@ == amended(old(invocation)@, directive@),
{
    proof {
        reveal(amended);
    }
    match directive {
        Directive::CompileOnly => {
            invocation.compile_only = true;
        },
        Directive::SyntaxOnly => {
            invocation.syntax_only = true;
        },
        Directive::Mode(mode) => {
            invocation.dependency_mode = Some(mode);
        },
        Directive::Modifier(arg) => {
            push_modifier(invocation, arg);
        },
        Directive::TargetModifier(arg, value) => {
            push_modifier(invocation, arg);
            push_modifier(invocation, value);
        },
        Directive::Reject(reason) => {
            mark_bypass(invocation, reason);
        },
        Directive::Object(value) => {
            invocation.object = Some(value);
        },
        Directive::ModuleDirectory(value) => {
            invocation.original_module_dirs.push(value);
        },
        Directive::IncludeDirectory(arg, value) => {
            push_include(invocation, arg.as_slice(), value);
        },
        Directive::Depfile(value) => {
            if bstr::is(value.as_slice(), "-") {
                mark_bypass(invocation, BypassReason::StdoutDepfile);
            }
            invocation.user_depfile = Some(value);
        },
        Directive::Carried(arg) => {
            push_extra(invocation, arg);
        },
        Directive::Valued(arg, value) => {
            record_resolution_option(invocation, arg.as_slice(), value.as_slice());
            push_extra(invocation, arg);
            push_extra(invocation, value);
        },
        Directive::Supported(arg) => {
            record_attached_resolution_option(invocation, arg.as_slice());
            push_extra(invocation, arg);
        },
        Directive::EndOfOptions => {},
        Directive::Cpp => {},
        Directive::NoCpp => {},
        Directive::Fpreprocessed => {},
        Directive::Nothing => {},
        Directive::Positional(_) => {},
    }
    assert(invocation@ =~= amended(old(invocation)@, directive@));
}

fn advance(line: &mut CommandLine, directive: Directive<Vec<u8>>)
    ensures
        final(line).partial() == advanced(old(line).partial(), directive@),
{
    match &directive {
        Directive::EndOfOptions => {
            line.end_options = true;
        },
        Directive::Cpp => {
            line.explicit_cpp = Some(true);
        },
        Directive::NoCpp => {
            line.explicit_cpp = Some(false);
        },
        Directive::Fpreprocessed => {
            line.fpreprocessed = true;
        },
        Directive::Positional(arg) => {
            let input = bstr::copy(arg.as_slice());
            line.positional.push(input);
        },
        _ => {},
    }
    amend(&mut line.invocation, directive);
    assert(line.partial() =~= advanced(old(line).partial(), directive@));
}

/// A path with the extension of a Fortran source.
pub fn is_fortran_source(path: &[u8]) -> (yes: bool)
    ensures
        yes == fortran_source(path@),
{
    proof {
        reveal(fortran_extension);
    }
    match upath::extension(path) {
        None => false,
        Some(found) => {
            let extension = found.as_slice();
            bstr::is(extension, "f") || bstr::is(extension, "for") || bstr::is(extension, "f77")
                || bstr::is(extension, "f90") || bstr::is(extension, "f95") || bstr::is(
                extension,
                "f03",
            ) || bstr::is(extension, "f08") || bstr::is(extension, "f18") || bstr::is(
                extension,
                "F",
            ) || bstr::is(extension, "FOR") || bstr::is(extension, "F77") || bstr::is(
                extension,
                "F90",
            ) || bstr::is(extension, "F95") || bstr::is(extension, "F03") || bstr::is(
                extension,
                "F08",
            ) || bstr::is(extension, "F18") || bstr::is(extension, "fpp") || bstr::is(
                extension,
                "FPP",
            )
        },
    }
}

/// A path whose extension has an ASCII upper-case letter.
pub fn has_uppercase_fortran_extension(path: &[u8]) -> (yes: bool)
    ensures
        yes == uppercase_extension(path@),
{
    match upath::extension(path) {
        None => false,
        Some(extension) => bstr::contains_upper(extension.as_slice()),
    }
}

fn add_input(invocation: &mut GfortranInvocation, value: &[u8])
    ensures
        final(invocation)@ == with_input(old(invocation)@, value@),
{
    if bstr::is(value, "-") {
        mark_bypass(invocation, BypassReason::StdinSource);
    } else if is_fortran_source(value) {
        if invocation.source.is_some() {
            mark_bypass(invocation, BypassReason::MultipleSources);
        } else {
            invocation.source = Some(bstr::copy(value));
        }
    } else {
        mark_bypass(invocation, BypassReason::NonFortranInput(bstr::copy(value)));
    }
    assert(invocation@ =~= with_input(old(invocation)@, value@));
}

fn add_inputs(invocation: &mut GfortranInvocation, positional: &Vec<Vec<u8>>)
    ensures
        final(invocation)@ == with_inputs(old(invocation)@, bstr::views(positional@)),
{
    let ghost start = invocation@;
    let ghost all = bstr::views(positional@);
    let mut index: usize = 0;
    assert(all.take(0) =~= Seq::empty());
    while index < positional.len()
        invariant
            index <= positional.len(),
            all == bstr::views(positional@),
            invocation@ == with_inputs(start, all.take(index as int)),
        decreases positional.len() - index,
    {
        assert(all.take(index + 1).drop_last() =~= all.take(index as int));
        assert(all.take(index + 1).last() == positional@[index as int]@);
        add_input(invocation, positional[index].as_slice());
        index += 1;
    }
    assert(all.take(index as int) =~= all);
}

fn choose_module_directory(invocation: &mut GfortranInvocation)
    ensures
        final(invocation)@ == with_module_directory(old(invocation)@),
{
    if invocation.original_module_dirs.len() > 1 {
        invocation.module_dir = None;
        mark_bypass(invocation, BypassReason::DuplicateModuleDirectory);
    } else if invocation.original_module_dirs.len() == 1 {
        invocation.module_dir = Some(bstr::copy(invocation.original_module_dirs[0].as_slice()));
    } else {
        invocation.module_dir = None;
    }
    assert(invocation@ =~= with_module_directory(old(invocation)@));
}

fn check_action(invocation: &mut GfortranInvocation)
    ensures
        final(invocation)@ == with_action(old(invocation)@),
{
    if invocation.source.is_none() {
        mark_bypass(invocation, BypassReason::MissingSource);
    }
    if !invocation.compile_only && !invocation.syntax_only {
        mark_bypass(invocation, BypassReason::LinkAction);
    }
}

fn select_preprocessing(
    fpreprocessed: bool,
    explicit_cpp: Option<bool>,
    source: &Option<Vec<u8>>,
) -> (preprocessing: Preprocessing)
    ensures
        preprocessing == selected_preprocessing(
            fpreprocessed,
            explicit_cpp,
            bstr::opt_view(*source),
        ),
{
    if fpreprocessed {
        return Preprocessing::Fpreprocessed;
    }
    if let Some(cpp) = explicit_cpp {
        return if cpp {
            Preprocessing::Cpp
        } else {
            Preprocessing::NoCpp
        };
    }
    if let Some(path) = source {
        if has_uppercase_fortran_extension(path.as_slice()) {
            return Preprocessing::Cpp;
        }
    }
    Preprocessing::Auto
}

/// The depfile that gfortran writes where none is named.
fn default_depfile(invocation: &GfortranInvocation) -> (depfile: Option<Vec<u8>>)
    ensures
        bstr::opt_view(depfile) == depfile_by_default(invocation@),
{
    if let Some(object) = &invocation.object {
        return Some(upath::with_extension(object.as_slice(), "d"));
    }
    if let Some(source) = &invocation.source {
        if let Some(name) = upath::file_name(source.as_slice()) {
            return Some(upath::with_extension(name.as_slice(), "d"));
        }
    }
    None
}

fn complete(line: CommandLine) -> (invocation: GfortranInvocation)
    ensures
        invocation@ == completed(line.partial()),
{
    let mut invocation = line.invocation;
    choose_module_directory(&mut invocation);
    add_inputs(&mut invocation, &line.positional);
    check_action(&mut invocation);
    let ghost acting = invocation@;
    invocation.preprocessing =
    select_preprocessing(line.fpreprocessed, line.explicit_cpp, &invocation.source);
    let ghost selected = Invocation {
        preprocessing: selected_preprocessing(
            line.fpreprocessed,
            line.explicit_cpp,
            acting.source,
        ),
        ..acting
    };
    assert(invocation@ =~= selected);
    if invocation.dependency_mode.is_some() && invocation.user_depfile.is_none() {
        invocation.user_depfile = default_depfile(&invocation);
    }
    assert(invocation@ =~= with_default_depfile(selected));
    invocation
}

/// Reads the arguments that follow the compiler executable.
pub fn parse_args(args: &[Vec<u8>]) -> (outcome: Result<GfortranInvocation, ParseError>)
    ensures
        match outcome {
            Ok(invocation) => parsed(bstr::views(args@)) == Ok::<
                Invocation,
                ParseError<Seq<u8>>,
            >(invocation@),
            Err(error) => parsed(bstr::views(args@)) == Err::<Invocation, ParseError<Seq<u8>>>(
                error@,
            ),
        },
{
    if args.len() == 0 {
        return Err(ParseError::EmptyInvocation);
    }
    let mut original_args: Vec<Vec<u8>> = Vec::new();
    let mut copied: usize = 0;
    let ghost all = bstr::views(args@);
    while copied < args.len()
        invariant
            copied <= args.len(),
            all == bstr::views(args@),
            bstr::views(original_args@) =~= all.take(copied as int),
        decreases args.len() - copied,
    {
        let arg = bstr::copy(args[copied].as_slice());
        original_args.push(arg);
        copied += 1;
    }
    assert(bstr::views(original_args@) =~= all);
    let mut line = CommandLine {
        invocation: GfortranInvocation {
            cacheability: Cacheability::Cacheable,
            source: None,
            object: None,
            module_dir: None,
            include_dirs: Vec::new(),
            original_module_dirs: Vec::new(),
            search_paths: Vec::new(),
            forced_inputs: Vec::new(),
            intrinsic_module_dirs: Vec::new(),
            user_depfile: None,
            dependency_mode: None,
            dependency_target_modifiers: Vec::new(),
            compile_only: false,
            syntax_only: false,
            preprocessing: Preprocessing::Auto,
            original_args,
            extra_args: Vec::new(),
            unmodeled_search_argument: None,
        },
        positional: Vec::new(),
        end_options: false,
        explicit_cpp: None,
        fpreprocessed: false,
    };
    assert(line.partial() =~= beginning(all));
    let mut index: usize = 0;
    while index < args.len()
        invariant
            index <= args.len(),
            all == bstr::views(args@),
            read_from(all, 0, beginning(all)) == read_from(all, index as int, line.partial()),
            all.len() > 0,
        decreases args.len() - index,
    {
        let arg = args[index].as_slice();
        assert(all[index as int] == arg@);
        if line.end_options {
            let directive = Directive::Positional(bstr::copy(arg));
            advance(&mut line, directive);
            index += 1;
        } else if requires_value(arg) {
            let value = match next_value(args, index) {
                Ok(value) => value,
                Err(error) => {
                    return Err(error);
                },
            };
            assert(all[index + 1] == value@);
            let directive = value_directive(arg, value);
            advance(&mut line, directive);
            index += 2;
        } else {
            let directive = lone_directive(arg);
            advance(&mut line, directive);
            index += 1;
        }
    }
    Ok(complete(line))
}

/// Reads the arguments that follow the compiler executable.
pub fn parse_gfortran_args(args: &[Vec<u8>]) -> (outcome: Result<GfortranInvocation, ParseError>)
    ensures
        match outcome {
            Ok(invocation) => parsed(bstr::views(args@)) == Ok::<
                Invocation,
                ParseError<Seq<u8>>,
            >(invocation@),
            Err(error) => parsed(bstr::views(args@)) == Err::<Invocation, ParseError<Seq<u8>>>(
                error@,
            ),
        },
{
    parse_args(args)
}

/// Why a probe cannot be made of an invocation.
#[derive(Clone, Debug, PartialEq, Eq)]
pub enum ProbeError<B = Vec<u8>> {
    NotProbeable(BypassReason<B>),
    EmptyInternalPath,
    EmptyPrivateModulePath,
}

impl View for ProbeError {
    type V = ProbeError<Seq<u8>>;

    open spec fn view(&self) -> ProbeError<Seq<u8>> {
        match *self {
            ProbeError::NotProbeable(reason) => ProbeError::NotProbeable(reason@),
            ProbeError::EmptyInternalPath => ProbeError::EmptyInternalPath,
            ProbeError::EmptyPrivateModulePath => ProbeError::EmptyPrivateModulePath,
        }
    }
}

/// The words of an error. `shown` is how the argument that it is about is shown.
pub open spec fn probe_error_text(error: ProbeError<Seq<u8>>, shown: Seq<char>) -> Seq<char> {
    match error {
        ProbeError::NotProbeable(reason) => {
            "invocation is not probeable: "@ + reason_text(reason, shown)
        },
        ProbeError::EmptyInternalPath => "dependency probe internal path is empty"@,
        ProbeError::EmptyPrivateModulePath => "dependency probe module path is empty"@,
    }
}

impl ProbeError {
    /// The words of the error. `shown` is how the argument that it is about is shown.
    pub fn message(&self, shown: &str) -> (text: String)
        ensures
            text@ == probe_error_text(self@, shown@),
    {
        match self {
            ProbeError::NotProbeable(reason) => words::two(
                "invocation is not probeable: ",
                reason.message(shown).as_str(),
            ),
            ProbeError::EmptyInternalPath => "dependency probe internal path is empty".to_owned(),
            ProbeError::EmptyPrivateModulePath => {
                "dependency probe module path is empty".to_owned()
            },
        }
    }
}

/// The arguments that every probe repeats. A probe writes its modules elsewhere, so the one module
/// directory is searched by an `-I` of its own.
pub open spec fn repeated_args(invocation: Invocation) -> Seq<Seq<u8>> {
    if invocation.original_module_dirs.len() == 1 {
        invocation.extra_args.push(bstr::utf8("-I"@)).push(invocation.original_module_dirs[0])
    } else {
        invocation.extra_args
    }
}

/// The reason for which an invocation with one of the accepted kinds of preprocessing cannot be
/// probed.
pub open spec fn unprobeable(invocation: Invocation, accepted: bool) -> Option<
    BypassReason<Seq<u8>>,
> {
    match invocation.cacheability {
        Cacheability::Bypass(reason) => Some(reason),
        Cacheability::Cacheable => if !accepted {
            Some(BypassReason::MissingDependencyProbePreprocessing)
        } else if invocation.source is None {
            Some(BypassReason::MissingSource)
        } else {
            None
        },
    }
}

/// The arguments that preprocess the source of an invocation.
pub open spec fn preprocessor_probe(invocation: Invocation, expected: Preprocessing) -> Result<
    Seq<Seq<u8>>,
    ProbeError<Seq<u8>>,
> {
    match unprobeable(invocation, invocation.preprocessing == expected) {
        Some(reason) => Err(ProbeError::NotProbeable(reason)),
        None => Ok(
            repeated_args(invocation).push(bstr::utf8("-cpp"@)).push(
                bstr::utf8("-Werror=date-time"@),
            ).push(bstr::utf8("-E"@)).push(bstr::utf8("-P"@)).push(invocation.source->0),
        ),
    }
}

/// The arguments that make the compiler list the dependencies of an invocation in
/// `internal_depfile`, with the modules that it writes in `private_module_dir`.
pub open spec fn dependency_probe(
    invocation: Invocation,
    internal_depfile: Seq<u8>,
    private_module_dir: Seq<u8>,
) -> Result<Seq<Seq<u8>>, ProbeError<Seq<u8>>> {
    if internal_depfile.len() == 0 {
        Err(ProbeError::EmptyInternalPath)
    } else if private_module_dir.len() == 0 {
        Err(ProbeError::EmptyPrivateModulePath)
    } else {
        match unprobeable(invocation, invocation.preprocessing.may_probe()) {
            Some(reason) => Err(ProbeError::NotProbeable(reason)),
            None => {
                let private = repeated_args(invocation).push(bstr::utf8("-fsyntax-only"@)).push(
                    bstr::utf8("-cpp"@),
                ).push(bstr::utf8("-Werror=date-time"@)).push(bstr::utf8("-MD"@)).push(
                    bstr::utf8("-MF"@),
                ).push(internal_depfile).push(bstr::utf8("-J"@)).push(private_module_dir)
                    + invocation.dependency_target_modifiers;
                let named = match invocation.object {
                    Some(object) => private.push(bstr::utf8("-o"@)).push(object),
                    None => private,
                };
                Ok(named.push(invocation.source->0))
            },
        }
    }
}

impl GfortranInvocation {
    /// The arguments that preprocess an automatic lower-case source, to see that preprocessing
    /// leaves it as it is.
    pub fn preprocessor_identity_argv(&self) -> (argv: Result<Vec<Vec<u8>>, ProbeError>)
        ensures
            match argv {
                Ok(args) => preprocessor_probe(self@, Preprocessing::Auto) == Ok::<
                    Seq<Seq<u8>>,
                    ProbeError<Seq<u8>>,
                >(bstr::views(args@)),
                Err(error) => preprocessor_probe(self@, Preprocessing::Auto) == Err::<
                    Seq<Seq<u8>>,
                    ProbeError<Seq<u8>>,
                >(error@),
            },
    {
        self.preprocessor_probe_argv(Preprocessing::Auto)
    }

    /// The arguments that observe preprocessing for legacy gfortran versions.
    pub fn preprocessor_observation_argv(&self) -> (argv: Result<Vec<Vec<u8>>, ProbeError>)
        ensures
            match argv {
                Ok(args) => preprocessor_probe(self@, Preprocessing::Cpp) == Ok::<
                    Seq<Seq<u8>>,
                    ProbeError<Seq<u8>>,
                >(bstr::views(args@)),
                Err(error) => preprocessor_probe(self@, Preprocessing::Cpp) == Err::<
                    Seq<Seq<u8>>,
                    ProbeError<Seq<u8>>,
                >(error@),
            },
    {
        self.preprocessor_probe_argv(Preprocessing::Cpp)
    }

    fn preprocessor_probe_argv(&self, expected: Preprocessing) -> (argv: Result<
        Vec<Vec<u8>>,
        ProbeError,
    >)
        ensures
            match argv {
                Ok(args) => preprocessor_probe(self@, expected) == Ok::<
                    Seq<Seq<u8>>,
                    ProbeError<Seq<u8>>,
                >(bstr::views(args@)),
                Err(error) => preprocessor_probe(self@, expected) == Err::<
                    Seq<Seq<u8>>,
                    ProbeError<Seq<u8>>,
                >(error@),
            },
    {
        let source = match self.probe_source(self.preprocessing == expected) {
            Ok(source) => source,
            Err(reason) => {
                return Err(ProbeError::NotProbeable(reason));
            },
        };
        let mut probe = self.probe_args();
        probe.push(bstr::from_str("-cpp"));
        probe.push(bstr::from_str("-Werror=date-time"));
        probe.push(bstr::from_str("-E"));
        probe.push(bstr::from_str("-P"));
        probe.push(source);
        Ok(probe)
    }

    fn probe_source(&self, accepted: bool) -> (source: Result<Vec<u8>, BypassReason>)
        ensures
            match source {
                Ok(path) => unprobeable(self@, accepted) is None && self@.source == Some(path@),
                Err(reason) => unprobeable(self@, accepted) == Some(reason@),
            },
    {
        if let Cacheability::Bypass(reason) = &self.cacheability {
            return Err(copy_reason(reason));
        }
        if !accepted {
            return Err(BypassReason::MissingDependencyProbePreprocessing);
        }
        match &self.source {
            Some(source) => Ok(bstr::copy(source.as_slice())),
            None => Err(BypassReason::MissingSource),
        }
    }

    fn probe_args(&self) -> (args: Vec<Vec<u8>>)
        ensures
            bstr::views(args@) == repeated_args(self@),
    {
        let mut args = bstr::copy_list(&self.extra_args);
        if self.original_module_dirs.len() == 1 {
            args.push(bstr::from_str("-I"));
            args.push(bstr::copy(self.original_module_dirs[0].as_slice()));
        }
        args
    }

    /// The arguments of a private dependency probe.
    pub fn dependency_probe_argv(
        &self,
        internal_depfile: &[u8],
        private_module_dir: &[u8],
    ) -> (argv: Result<Vec<Vec<u8>>, ProbeError>)
        ensures
            match argv {
                Ok(args) => dependency_probe(self@, internal_depfile@, private_module_dir@)
                    == Ok::<Seq<Seq<u8>>, ProbeError<Seq<u8>>>(bstr::views(args@)),
                Err(error) => dependency_probe(self@, internal_depfile@, private_module_dir@)
                    == Err::<Seq<Seq<u8>>, ProbeError<Seq<u8>>>(error@),
            },
    {
        if internal_depfile.len() == 0 {
            return Err(ProbeError::EmptyInternalPath);
        }
        if private_module_dir.len() == 0 {
            return Err(ProbeError::EmptyPrivateModulePath);
        }
        let source = match self.probe_source(self.preprocessing.permits_probe()) {
            Ok(source) => source,
            Err(reason) => {
                return Err(ProbeError::NotProbeable(reason));
            },
        };
        let mut probe = self.probe_args();
        probe.push(bstr::from_str("-fsyntax-only"));
        probe.push(bstr::from_str("-cpp"));
        probe.push(bstr::from_str("-Werror=date-time"));
        probe.push(bstr::from_str("-MD"));
        probe.push(bstr::from_str("-MF"));
        probe.push(bstr::copy(internal_depfile));
        probe.push(bstr::from_str("-J"));
        probe.push(bstr::copy(private_module_dir));
        bstr::append_list(&mut probe, &self.dependency_target_modifiers);
        if let Some(object) = &self.object {
            probe.push(bstr::from_str("-o"));
            probe.push(bstr::copy(object.as_slice()));
        }
        probe.push(source);
        Ok(probe)
    }
}

/// One of the directives from `index` on rejects caching.
pub open spec fn rejects_from(args: Seq<Seq<u8>>, index: int, end_options: bool) -> bool
    decreases args.len() - index,
{
    if index >= args.len() {
        false
    } else {
        match directive_at(args, index, end_options) {
            Err(error) => false,
            Ok((directive, width)) => if width >= 1 {
                directive is Reject || rejects_from(
                    args,
                    index + width,
                    end_options || directive is EndOfOptions,
                )
            } else {
                false
            },
        }
    }
}

/// The arguments that a directive hands on to probes.
pub open spec fn handed_on(directive: Directive<Seq<u8>>) -> Seq<Seq<u8>> {
    match directive {
        Directive::IncludeDirectory(arg, value) => seq![bstr::utf8("-I"@), value],
        Directive::Carried(arg) => seq![arg],
        Directive::Valued(arg, value) => seq![arg, value],
        Directive::Supported(arg) => seq![arg],
        _ => Seq::empty(),
    }
}

/// The arguments that the directives from `index` on hand on to probes.
pub open spec fn handed_on_from(args: Seq<Seq<u8>>, index: int, end_options: bool) -> Seq<Seq<u8>>
    decreases args.len() - index,
{
    if index >= args.len() {
        Seq::empty()
    } else {
        match directive_at(args, index, end_options) {
            Err(error) => Seq::empty(),
            Ok((directive, width)) => if width >= 1 {
                handed_on(directive) + handed_on_from(
                    args,
                    index + width,
                    end_options || directive is EndOfOptions,
                )
            } else {
                Seq::empty()
            },
        }
    }
}

/// The dependency target modifiers of a directive.
pub open spec fn modifiers(directive: Directive<Seq<u8>>) -> Seq<Seq<u8>> {
    match directive {
        Directive::Modifier(arg) => seq![arg],
        Directive::TargetModifier(arg, value) => seq![arg, value],
        _ => Seq::empty(),
    }
}

/// The dependency target modifiers of the directives from `index` on.
pub open spec fn modifiers_from(args: Seq<Seq<u8>>, index: int, end_options: bool) -> Seq<Seq<u8>>
    decreases args.len() - index,
{
    if index >= args.len() {
        Seq::empty()
    } else {
        match directive_at(args, index, end_options) {
            Err(error) => Seq::empty(),
            Ok((directive, width)) => if width >= 1 {
                modifiers(directive) + modifiers_from(
                    args,
                    index + width,
                    end_options || directive is EndOfOptions,
                )
            } else {
                Seq::empty()
            },
        }
    }
}

proof fn lemma_amended(invocation: Invocation, directive: Directive<Seq<u8>>)
    ensures
        invocation.cacheability is Bypass ==> amended(invocation, directive).cacheability
            == invocation.cacheability,
        directive is Reject ==> amended(invocation, directive).cacheability is Bypass,
        amended(invocation, directive).extra_args =~= invocation.extra_args + handed_on(directive),
        amended(invocation, directive).dependency_target_modifiers
            =~= invocation.dependency_target_modifiers + modifiers(directive),
        amended(invocation, directive).original_args == invocation.original_args,
        amended(invocation, directive).source == invocation.source,
{
    reveal(amended);
}

proof fn lemma_read_from(args: Seq<Seq<u8>>, index: int, partial: Partial)
    ensures
        match read_from(args, index, partial) {
            Ok(whole) => {
                &&& partial.invocation.cacheability is Bypass ==> whole.invocation.cacheability
                    == partial.invocation.cacheability
                &&& rejects_from(args, index, partial.end_options)
                    ==> whole.invocation.cacheability is Bypass
                &&& whole.invocation.extra_args =~= partial.invocation.extra_args + handed_on_from(
                    args,
                    index,
                    partial.end_options,
                )
                &&& whole.invocation.dependency_target_modifiers
                    =~= partial.invocation.dependency_target_modifiers + modifiers_from(
                    args,
                    index,
                    partial.end_options,
                )
                &&& whole.invocation.original_args == partial.invocation.original_args
                &&& whole.invocation.source == partial.invocation.source
            },
            Err(_) => true,
        },
    decreases args.len() - index,
{
    if index < args.len() {
        match directive_at(args, index, partial.end_options) {
            Err(_) => {},
            Ok((directive, width)) => {
                if width >= 1 {
                    lemma_amended(partial.invocation, directive);
                    lemma_read_from(args, index + width, advanced(partial, directive));
                }
            },
        }
    }
}

proof fn lemma_with_inputs(invocation: Invocation, positional: Seq<Seq<u8>>)
    ensures
        ({
            let result = with_inputs(invocation, positional);
            &&& invocation.cacheability is Bypass ==> result.cacheability == invocation.cacheability
            &&& result == (Invocation {
                cacheability: result.cacheability,
                source: result.source,
                ..invocation
            })
            &&& invocation.source is None && result.cacheability is Cacheable && positional.len()
                > 0 ==> positional.len() == 1 && result.source == Some(positional[0])
                && fortran_source(positional[0])
            &&& invocation.source is None && positional.len() == 0 ==> result.source is None
            &&& invocation.source is None && positional.len() > 0 && result.cacheability
                is Cacheable ==> result.source is Some
        }),
    decreases positional.len(),
{
    if positional.len() > 0 {
        lemma_with_inputs(invocation, positional.drop_last());
    }
}

/// Caching fails closed: an invocation is cacheable only where no directive rejects it, exactly one
/// input is named, that input is a Fortran source, the action compiles without linking, and at most
/// one module directory is set.
pub proof fn law_cacheable_is_fully_understood(args: Seq<Seq<u8>>)
    requires
        parsed(args) is Ok,
        parsed(args)->Ok_0.cacheability is Cacheable,
    ensures
        ({
            let invocation = parsed(args)->Ok_0;
            let whole = read_from(args, 0, beginning(args))->Ok_0;
            &&& !rejects_from(args, 0, false)
            &&& whole.positional.len() == 1
            &&& invocation.source == Some(whole.positional[0])
            &&& fortran_source(whole.positional[0])
            &&& invocation.compile_only || invocation.syntax_only
            &&& invocation.original_module_dirs.len() <= 1
        }),
{
    lemma_read_from(args, 0, beginning(args));
    let whole = read_from(args, 0, beginning(args))->Ok_0;
    lemma_with_inputs(with_module_directory(whole.invocation), whole.positional);
}

/// The first reason against caching is the one that is reported: what is read later, the inputs and
/// the final checks do not replace it.
pub proof fn law_first_bypass_reason_is_kept(args: Seq<Seq<u8>>, index: int, partial: Partial)
    requires
        read_from(args, index, partial) is Ok,
        partial.invocation.cacheability is Bypass,
    ensures
        completed(read_from(args, index, partial)->Ok_0).cacheability
            == partial.invocation.cacheability,
{
    lemma_read_from(args, index, partial);
    let whole = read_from(args, index, partial)->Ok_0;
    lemma_with_inputs(with_module_directory(whole.invocation), whole.positional);
}

/// Probes repeat exactly the supported options and the include directories, in order, and the
/// dependency target modifiers are kept in order. Dependency outputs, the object and the module
/// directory of the user are never among the repeated arguments.
pub proof fn law_probe_arguments(args: Seq<Seq<u8>>)
    requires
        parsed(args) is Ok,
    ensures
        parsed(args)->Ok_0.extra_args == handed_on_from(args, 0, false),
        parsed(args)->Ok_0.dependency_target_modifiers == modifiers_from(args, 0, false),
        parsed(args)->Ok_0.original_args == args,
{
    lemma_read_from(args, 0, beginning(args));
    let whole = read_from(args, 0, beginning(args))->Ok_0;
    lemma_with_inputs(with_module_directory(whole.invocation), whole.positional);
}

/// A probe for dependencies repeats what the compilation says of its search, and checks the syntax
/// of its source with the preprocessor on. It refuses what depends on the time, writes all
/// dependencies to its own depfile and modules to its own directory, names the targets as the
/// compilation does, and has nothing but the object in common with it that it could write. It is
/// refused exactly where a place is missing, the invocation is not cached or names no source, or
/// the preprocessor may not run.
pub proof fn law_dependency_probes(
    invocation: Invocation,
    internal_depfile: Seq<u8>,
    private_module_dir: Seq<u8>,
)
    ensures
        dependency_probe(invocation, internal_depfile, private_module_dir) is Ok <==> {
            &&& internal_depfile.len() > 0 && private_module_dir.len() > 0
            &&& invocation.cacheability is Cacheable && invocation.source is Some
            &&& invocation.preprocessing == Preprocessing::Auto || invocation.preprocessing
                == Preprocessing::Cpp
        },
        dependency_probe(invocation, internal_depfile, private_module_dir) matches Ok(args) ==> args
            == invocation.extra_args + (if invocation.original_module_dirs.len() == 1 {
            seq![bstr::utf8("-I"@), invocation.original_module_dirs[0]]
        } else {
            Seq::empty()
        }) + seq![
            bstr::utf8("-fsyntax-only"@),
            bstr::utf8("-cpp"@),
            bstr::utf8("-Werror=date-time"@),
            bstr::utf8("-MD"@),
            bstr::utf8("-MF"@),
            internal_depfile,
            bstr::utf8("-J"@),
            private_module_dir,
        ] + invocation.dependency_target_modifiers + (if invocation.object is Some {
            seq![bstr::utf8("-o"@), invocation.object->0]
        } else {
            Seq::empty()
        }) + seq![invocation.source->0],
{
    if let Ok(args) = dependency_probe(invocation, internal_depfile, private_module_dir) {
        assert(args =~= invocation.extra_args + (if invocation.original_module_dirs.len() == 1 {
            seq![bstr::utf8("-I"@), invocation.original_module_dirs[0]]
        } else {
            Seq::empty()
        }) + seq![
            bstr::utf8("-fsyntax-only"@),
            bstr::utf8("-cpp"@),
            bstr::utf8("-Werror=date-time"@),
            bstr::utf8("-MD"@),
            bstr::utf8("-MF"@),
            internal_depfile,
            bstr::utf8("-J"@),
            private_module_dir,
        ] + invocation.dependency_target_modifiers + (if invocation.object is Some {
            seq![bstr::utf8("-o"@), invocation.object->0]
        } else {
            Seq::empty()
        }) + seq![invocation.source->0]);
    }
}

/// A probe of the preprocessor repeats what the compilation says of its search, writes the
/// preprocessed source without line markers, and refuses what depends on the time. It is made for
/// the kind of preprocessing that is expected.
pub proof fn law_preprocessor_probes(invocation: Invocation, expected: Preprocessing)
    ensures
        preprocessor_probe(invocation, expected) is Ok <==> invocation.cacheability is Cacheable
            && invocation.source is Some && invocation.preprocessing == expected,
        preprocessor_probe(invocation, expected) matches Ok(args) ==> args == invocation.extra_args
            + (if invocation.original_module_dirs.len() == 1 {
            seq![bstr::utf8("-I"@), invocation.original_module_dirs[0]]
        } else {
            Seq::empty()
        }) + seq![
            bstr::utf8("-cpp"@),
            bstr::utf8("-Werror=date-time"@),
            bstr::utf8("-E"@),
            bstr::utf8("-P"@),
            invocation.source->0,
        ],
{
    if let Ok(args) = preprocessor_probe(invocation, expected) {
        assert(args =~= invocation.extra_args + (if invocation.original_module_dirs.len() == 1 {
            seq![bstr::utf8("-I"@), invocation.original_module_dirs[0]]
        } else {
            Seq::empty()
        }) + seq![
            bstr::utf8("-cpp"@),
            bstr::utf8("-Werror=date-time"@),
            bstr::utf8("-E"@),
            bstr::utf8("-P"@),
            invocation.source->0,
        ]);
    }
}

} // verus!
