//! Which compilations are cached, and what tells them apart before they are looked at closely.
use vstd::prelude::*;

use crate::bstr;
use crate::cache::request;
use crate::cache::request::{DirectRequestKey, Pair, Request};
use crate::compiler::gfortran;
use crate::compiler::gfortran::{
    BypassReason, Cacheability, DependencyMode, GfortranInvocation, Invocation, Preprocessing,
};
use crate::digest;
use crate::launcher::action;
use crate::launcher::environment;
use crate::launcher::observation;
use crate::launcher::observation::Reading;
use crate::launcher::pending::PendingStats;
use crate::upath;

verus! {

/// The oldest version of the compiler whose results are cached.
pub const MIN_GFORTRAN_MAJOR: u32 = 11;

/// The newest version of the compiler whose results are cached.
pub const MAX_GFORTRAN_MAJOR: u32 = 16;

/// Results of the version are cached.
pub fn supported_gfortran_major(major: u32) -> (yes: bool)
    ensures
        yes == (11 <= major <= 16),
{
    MIN_GFORTRAN_MAJOR <= major && major <= MAX_GFORTRAN_MAJOR
}

/// The last name of a program is that of the compiler, with or without a version.
pub open spec fn names_gfortran(program: Seq<u8>) -> bool {
    match upath::file_name_of(program) {
        None => false,
        Some(name) => bstr::is_utf8(name) && (name == bstr::utf8("gfortran"@) || bstr::has_prefix(
            name,
            bstr::utf8("gfortran-"@),
        )),
    }
}

/// A program is the compiler.
pub fn is_gfortran(program: &[u8]) -> (yes: bool)
    ensures
        yes == names_gfortran(program@),
{
    match upath::file_name(program) {
        None => false,
        Some(name) => bstr::to_text(name.as_slice()).is_some() && (bstr::is(
            name.as_slice(),
            "gfortran",
        ) || bstr::starts_with_str(name.as_slice(), "gfortran-")),
    }
}

/// The name under which a reason is counted.
pub open spec fn reason_name(reason: BypassReason<Seq<u8>>) -> Seq<char> {
    match reason {
        BypassReason::EmptyInvocation => "empty-invocation"@,
        BypassReason::ResponseFile(_) => "response-file"@,
        BypassReason::StdinSource => "stdin-source"@,
        BypassReason::MissingSource => "missing-source"@,
        BypassReason::MultipleSources => "multiple-sources"@,
        BypassReason::NonFortranInput(_) => "non-fortran-input"@,
        BypassReason::LinkAction => "link-action"@,
        BypassReason::PreprocessOnly => "preprocess-only"@,
        BypassReason::AssemblyOutput => "assembly-output"@,
        BypassReason::SaveTemps => "save-temps"@,
        BypassReason::DumpOutput => "dump-output"@,
        BypassReason::CoverageOrProfile => "coverage-or-profile"@,
        BypassReason::PluginOrSpecs => "plugin-or-specs"@,
        BypassReason::StdoutDepfile => "depfile-stdout"@,
        BypassReason::OptimizationRecord => "optimization-record"@,
        BypassReason::FileDiagnostic => "file-diagnostic"@,
        BypassReason::AutoFdo => "autofdo"@,
        BypassReason::LanguageOverride => "language-override"@,
        BypassReason::ArgumentCarrier => "argument-carrier"@,
        BypassReason::UnknownOption(_) => "unknown-option"@,
        BypassReason::MissingDependencyProbePreprocessing => "dependency-probe-preprocessing"@,
        BypassReason::DuplicateModuleDirectory => "duplicate-module-directory"@,
    }
}

/// The name under which a reason is counted.
pub fn bypass_name(reason: &BypassReason) -> (name: &'static str)
    ensures
        name@ == reason_name(reason@),
{
    match reason {
        BypassReason::EmptyInvocation => "empty-invocation",
        BypassReason::ResponseFile(_) => "response-file",
        BypassReason::StdinSource => "stdin-source",
        BypassReason::MissingSource => "missing-source",
        BypassReason::MultipleSources => "multiple-sources",
        BypassReason::NonFortranInput(_) => "non-fortran-input",
        BypassReason::LinkAction => "link-action",
        BypassReason::PreprocessOnly => "preprocess-only",
        BypassReason::AssemblyOutput => "assembly-output",
        BypassReason::SaveTemps => "save-temps",
        BypassReason::DumpOutput => "dump-output",
        BypassReason::CoverageOrProfile => "coverage-or-profile",
        BypassReason::PluginOrSpecs => "plugin-or-specs",
        BypassReason::StdoutDepfile => "depfile-stdout",
        BypassReason::OptimizationRecord => "optimization-record",
        BypassReason::FileDiagnostic => "file-diagnostic",
        BypassReason::AutoFdo => "autofdo",
        BypassReason::LanguageOverride => "language-override",
        BypassReason::ArgumentCarrier => "argument-carrier",
        BypassReason::UnknownOption(_) => "unknown-option",
        BypassReason::MissingDependencyProbePreprocessing => "dependency-probe-preprocessing",
        BypassReason::DuplicateModuleDirectory => "duplicate-module-directory",
    }
}

/// Why a compilation is handed to the compiler as it is, if it is.
pub open spec fn refusal(
    compiler: Seq<u8>,
    arguments: Seq<Seq<u8>>,
) -> Option<Seq<char>> {
    if !names_gfortran(compiler) {
        Some("unsupported-compiler"@)
    } else {
        match gfortran::parsed(arguments) {
            Err(_) => Some("argument-parse"@),
            Ok(invocation) => match invocation.cacheability {
                Cacheability::Bypass(reason) => Some(reason_name(reason)),
                Cacheability::Cacheable => if !invocation.preprocessing.may_probe() {
                    Some("dependency-probe-preprocessing"@)
                } else {
                    None
                },
            },
        }
    }
}

/// What happens with a command line.
#[derive(Debug)]
pub enum Admission {
    /// There is no compiler: the user is told how to call the launcher.
    Help,
    /// The compiler takes over. What was counted is written first where `flush` says so.
    PassThrough { flush: bool },
    /// The result may be cached.
    Cached(GfortranInvocation),
}

/// Decides what happens with a command line. Nothing is cached, nor counted, where the cache is
/// switched off or the output goes to a terminal.
pub fn decide_admission(
    command: &[Vec<u8>],
    enabled: bool,
    terminal: bool,
    stats: &mut PendingStats,
) -> (admission: Admission)
    ensures
        command@.len() == 0 ==> admission is Help && final(stats)@ == old(stats)@,
        command@.len() > 0 && (!enabled || terminal) ==> admission == (Admission::PassThrough {
            flush: false,
        }) && final(stats)@ == old(stats)@,
        command@.len() > 0 && enabled && !terminal ==> match refusal(
            command@[0]@,
            bstr::views(command@.skip(1)),
        ) {
            Some(reason) => {
                &&& admission == (Admission::PassThrough { flush: true })
                &&& final(stats)@ == old(stats)@.bypassed(reason)
            },
            None => admission is Cached && gfortran::parsed(bstr::views(command@.skip(1))) == Ok::<
                Invocation,
                gfortran::ParseError<Seq<u8>>,
            >(admission->Cached_0@) && final(stats)@ == old(stats)@.requested(),
        },
{
    if command.len() == 0 {
        return Admission::Help;
    }
    if !enabled || terminal {
        return Admission::PassThrough { flush: false };
    }
    if !is_gfortran(command[0].as_slice()) {
        stats.record_bypass("unsupported-compiler");
        return Admission::PassThrough { flush: true };
    }
    let arguments = vstd::slice::slice_subrange(command, 1, command.len());
    assert(arguments@ =~= command@.skip(1));
    let invocation = match gfortran::parse_gfortran_args(arguments) {
        Ok(found) => found,
        Err(_) => {
            stats.record_bypass("argument-parse");
            return Admission::PassThrough { flush: true };
        },
    };
    if let Cacheability::Bypass(reason) = &invocation.cacheability {
        stats.record_bypass(bypass_name(reason));
        return Admission::PassThrough { flush: true };
    }
    if !invocation.preprocessing.permits_probe() {
        stats.record_bypass("dependency-probe-preprocessing");
        return Admission::PassThrough { flush: true };
    }
    stats.record_request();
    Admission::Cached(invocation)
}

/// The preprocessor of older compilers writes what its output cannot be reconstructed from.
pub open spec fn must_observe(major: u32, preprocessing: Preprocessing) -> bool {
    major <= 12 && preprocessing is Cpp
}

/// The direct path is tried for a compilation.
pub open spec fn direct_path_open(direct: bool, major: u32, invocation: Invocation) -> bool {
    direct && invocation.compile_only && !invocation.syntax_only && !must_observe(
        major,
        invocation.preprocessing,
    )
}

/// The direct path is tried for a compilation.
pub fn uses_direct_path(direct: bool, major: u32, invocation: &GfortranInvocation) -> (yes: bool)
    ensures
        yes == direct_path_open(direct, major, invocation@),
{
    let observed = major <= 12 && matches!(invocation.preprocessing, Preprocessing::Cpp);
    direct && invocation.compile_only && !invocation.syntax_only && !observed
}

/// The name of a kind of preprocessing.
pub open spec fn preprocessing_name(preprocessing: Preprocessing) -> Seq<char> {
    match preprocessing {
        Preprocessing::Auto => "Auto"@,
        Preprocessing::Cpp => "Cpp"@,
        Preprocessing::NoCpp => "NoCpp"@,
        Preprocessing::Fpreprocessed => "Fpreprocessed"@,
    }
}

/// The name of a kind of dependency file.
pub open spec fn dependency_mode_name(mode: Option<DependencyMode>) -> Seq<char> {
    match mode {
        None => "None"@,
        Some(DependencyMode::Md) => "Some(Md)"@,
        Some(DependencyMode::Mmd) => "Some(Mmd)"@,
    }
}

/// What else decides what a compilation gives.
pub open spec fn request_semantics(
    preprocessing: Preprocessing,
    mode: Option<DependencyMode>,
    umask: u32,
) -> Seq<Pair<Seq<u8>>> {
    seq![
        Pair { name: bstr::utf8("action-schema"@), value: bstr::utf8(action::KEY_SCHEMA@) },
        Pair {
            name: bstr::utf8("preprocessing"@),
            value: bstr::utf8(preprocessing_name(preprocessing)),
        },
        Pair {
            name: bstr::utf8("dependency-mode"@),
            value: bstr::utf8(dependency_mode_name(mode)),
        },
        Pair { name: bstr::utf8("umask"@), value: bstr::u32_le(umask) },
    ]
}

/// The request that a compilation makes of the direct path, where its source can be read.
pub open spec fn direct_request(
    compiler: Seq<u8>,
    arguments: Seq<Seq<u8>>,
    invocation: Invocation,
    cwd: Seq<u8>,
    variables: Seq<Pair<Seq<u8>>>,
    source: Reading,
    umask: u32,
) -> Option<Request> {
    match invocation.source {
        None => None,
        Some(name) => match observation::read_of(upath::joined(cwd, name), source) {
            Err(_) => None,
            Ok(content) => Some(
                Request {
                    compiler,
                    cwd,
                    arguments,
                    environment: environment::relevant(variables),
                    source_path: upath::joined(cwd, name),
                    source_digest: content.digest,
                    semantics: request_semantics(
                        invocation.preprocessing,
                        invocation.dependency_mode,
                        umask,
                    ),
                },
            ),
        },
    }
}

fn semantics_of(invocation: &GfortranInvocation, umask: u32) -> (list: Vec<Pair>)
    ensures
        request::pair_views(list@) == request_semantics(
            invocation@.preprocessing,
            invocation@.dependency_mode,
            umask,
        ),
{
    let preprocessing = match invocation.preprocessing {
        Preprocessing::Auto => "Auto",
        Preprocessing::Cpp => "Cpp",
        Preprocessing::NoCpp => "NoCpp",
        Preprocessing::Fpreprocessed => "Fpreprocessed",
    };
    let mode = match invocation.dependency_mode {
        None => "None",
        Some(DependencyMode::Md) => "Some(Md)",
        Some(DependencyMode::Mmd) => "Some(Mmd)",
    };
    let mut list: Vec<Pair> = Vec::new();
    list.push(
        Pair { name: bstr::from_str("action-schema"), value: bstr::from_str(action::KEY_SCHEMA) },
    );
    list.push(
        Pair { name: bstr::from_str("preprocessing"), value: bstr::from_str(preprocessing) },
    );
    list.push(Pair { name: bstr::from_str("dependency-mode"), value: bstr::from_str(mode) });
    list.push(Pair { name: bstr::from_str("umask"), value: bstr::from_u32_le(umask) });
    assert(request::pair_views(list@) =~= request_semantics(
        invocation@.preprocessing,
        invocation@.dependency_mode,
        umask,
    ));
    list
}

/// The key of the request that a compilation makes of the direct path. `source` is what was read of
/// its source; there is no key where that failed.
pub fn direct_request_key(
    compiler: &[u8],
    arguments: &Vec<Vec<u8>>,
    invocation: &GfortranInvocation,
    cwd: &[u8],
    variables: &Vec<Pair>,
    source: &Reading,
    umask: u32,
) -> (key: Option<DirectRequestKey>)
    ensures
        match direct_request(
            compiler@,
            bstr::views(arguments@),
            invocation@,
            cwd@,
            request::pair_views(variables@),
            *source,
            umask,
        ) {
            Some(request) => key is Some && key->0@ == digest::blake3_digest(
                request::request_preimage(request),
            ),
            None => key is None,
        },
{
    let name = match &invocation.source {
        Some(name) => name,
        None => {
            return None;
        },
    };
    let path = observation::absolute_output(cwd, name.as_slice());
    let input = match observation::read_stable(path.as_slice(), source) {
        Ok(input) => input,
        Err(_) => {
            return None;
        },
    };
    let relevant = environment::relevant_environment(variables);
    let semantics = semantics_of(invocation, umask);
    Some(
        DirectRequestKey::compute(
            compiler,
            cwd,
            arguments,
            &relevant,
            path.as_slice(),
            &input.digest,
            &semantics,
        ),
    )
}

/// How a process ended.
#[derive(Clone, Copy, Debug, PartialEq, Eq, Structural)]
pub struct ExitState {
    pub code: Option<i32>,
    /// The number of a signal has seven bits.
    pub signal: Option<u8>,
}

impl ExitState {
    /// It ended of its own accord, with zero.
    pub open spec fn succeeded(self) -> bool {
        self.code == Some(0i32)
    }
}

/// The code with which the launcher ends in place of a process: its own, or 128 and the signal that
/// ended it, or one.
pub open spec fn exit_code(state: ExitState) -> int {
    match state.code {
        Some(code) => code as int,
        None => match state.signal {
            Some(signal) => 128 + signal,
            None => 1,
        },
    }
}

/// The code with which the launcher ends in place of a process.
pub fn status_code(state: ExitState) -> (code: i32)
    ensures
        code == exit_code(state),
{
    match state.code {
        Some(code) => code,
        None => match state.signal {
            Some(signal) => 128 + signal as i32,
            None => 1,
        },
    }
}

/// Programs are taken for gfortran where the last component of their path is `gfortran`, or starts
/// with `gfortran-`, whatever directory they lie in.
pub proof fn law_which_programs_are_gfortran(program: Seq<u8>)
    ensures
        names_gfortran(program) <==> (upath::file_name_of(program) is Some && bstr::is_utf8(
            upath::file_name_of(program)->0,
        ) && (upath::file_name_of(program)->0 == bstr::utf8("gfortran"@) || bstr::has_prefix(
            upath::file_name_of(program)->0,
            bstr::utf8("gfortran-"@),
        ))),
{
}

/// A compilation is cached exactly where the compiler is gfortran, the command line can be read and
/// cached, and the preprocessor may run. Otherwise a reason is counted.
pub proof fn law_what_is_cached(compiler: Seq<u8>, arguments: Seq<Seq<u8>>)
    ensures
        refusal(compiler, arguments) is None <==> (names_gfortran(compiler) && gfortran::parsed(
            arguments,
        ) is Ok && gfortran::parsed(arguments)->Ok_0.cacheability is Cacheable && (gfortran::parsed(
            arguments,
        )->Ok_0.preprocessing == Preprocessing::Auto || gfortran::parsed(
            arguments,
        )->Ok_0.preprocessing == Preprocessing::Cpp)),
{
}

/// The direct path serves compilations to an object where it is switched on. Up to release 12 of the
/// compiler it does not serve what is preprocessed.
pub proof fn law_when_the_direct_path_is_tried(direct: bool, major: u32, invocation: Invocation)
    ensures
        direct_path_open(direct, major, invocation) <==> (direct && invocation.compile_only
            && !invocation.syntax_only && (major > 12 || invocation.preprocessing
            != Preprocessing::Cpp)),
{
}

/// The launcher ends as the compiler did: with its code, or with 128 and the signal that ended it.
/// Where neither is known it ends with one. Only a process that ended with the code zero succeeded.
pub proof fn law_exit_codes(state: ExitState)
    ensures
        exit_code(state) == (if state.code is Some {
            state.code->0 as int
        } else if state.signal is Some {
            128 + state.signal->0
        } else {
            1
        }),
        state.succeeded() <==> state.code == Some(0i32),
{
}

/// Requests tell apart every kind of preprocessing, every dependency mode and every file mode
/// creation mask.
pub proof fn law_request_semantics_tell_apart(
    preprocessing: Preprocessing,
    mode: Option<DependencyMode>,
    umask: u32,
    other_preprocessing: Preprocessing,
    other_mode: Option<DependencyMode>,
    other_umask: u32,
)
    requires
        request_semantics(preprocessing, mode, umask) == request_semantics(
            other_preprocessing,
            other_mode,
            other_umask,
        ),
    ensures
        preprocessing == other_preprocessing,
        mode == other_mode,
        umask == other_umask,
{
    let left = request_semantics(preprocessing, mode, umask);
    let right = request_semantics(other_preprocessing, other_mode, other_umask);
    assert(left[1] == right[1] && left[2] == right[2] && left[3] == right[3]);
    bstr::law_little_endian(0, umask);
    bstr::law_little_endian(0, other_umask);
    reveal_strlit("Auto");
    reveal_strlit("Cpp");
    reveal_strlit("NoCpp");
    reveal_strlit("Fpreprocessed");
    reveal_strlit("None");
    reveal_strlit("Some(Md)");
    reveal_strlit("Some(Mmd)");
    bstr::lemma_ascii("Auto"@);
    bstr::lemma_ascii("Cpp"@);
    bstr::lemma_ascii("NoCpp"@);
    bstr::lemma_ascii("Fpreprocessed"@);
    bstr::lemma_ascii("None"@);
    bstr::lemma_ascii("Some(Md)"@);
    bstr::lemma_ascii("Some(Mmd)"@);
}

} // verus!
