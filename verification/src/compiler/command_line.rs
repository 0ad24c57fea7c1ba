//! Command lines by what they ask for.
//!
//! A command line is a list of words, each spelled as one or two arguments. What a command line of
//! understood words amounts to is said word by word, whatever their order.
use vstd::prelude::*;
use vstd::string::*;

use crate::bstr;
use crate::compiler::gfortran;
use crate::compiler::gfortran::{
    BypassReason, Cacheability, DependencyMode, Directive, Invocation, Partial, Preprocessing,
};
use crate::compiler::options;
use crate::compiler::resolution::{ForcedInput, ForcedInputKind, SearchPath, SearchPathKind};
use crate::upath;

verus! {

/// What one word of a command line asks for. A value can be attached to its option or be the next
/// argument.
pub enum Word {
    Compile,
    CheckSyntax,
    Cpp,
    NoCpp,
    Preprocessed,
    AllDependencies,
    UserDependencies,
    PhonyTargets,
    GeneratedHeaders,
    Target { option: TargetOption, value: Seq<u8>, attached: bool },
    Depfile { path: Seq<u8>, attached: bool },
    Object { path: Seq<u8>, attached: bool },
    Modules { directory: Seq<u8>, attached: bool },
    Includes { directory: Seq<u8>, attached: bool },
    Search { tier: Tier, directory: Seq<u8>, attached: bool },
    Forced { macros: bool, path: Seq<u8>, attached: bool },
    Intrinsics { directory: Seq<u8>, attached: bool },
    Define { value: Seq<u8>, attached: bool },
    Undefine { value: Seq<u8>, attached: bool },
    SystemRoot { directory: Seq<u8> },
    NoExecutableStack,
    Supported { option: Seq<u8> },
    Source { lead: Seq<u8>, stem: Seq<u8>, extension: Seq<u8> },
    /// An argument that keeps the command line from being cached.
    Refused { arg: Seq<u8> },
    /// An option with a value that keeps the command line from being cached.
    RefusedPair { option: Seq<u8>, value: Seq<u8> },
}

/// How the targets of a depfile are named.
pub enum TargetOption {
    Plain,
    Quoted,
}

/// The search tiers that are named on the command line beside that of `-I`.
pub enum Tier {
    Quote,
    System,
    After,
}

/// An option and its value, as one argument or as two.
pub open spec fn option_and_value(option: Seq<u8>, value: Seq<u8>, attached: bool) -> Seq<Seq<u8>> {
    if attached {
        seq![option + value]
    } else {
        seq![option, value]
    }
}

/// The arguments that spell a word.
pub open spec fn spelled(word: Word) -> Seq<Seq<u8>> {
    match word {
        Word::Compile => seq![bstr::utf8("-c"@)],
        Word::CheckSyntax => seq![bstr::utf8("-fsyntax-only"@)],
        Word::Cpp => seq![bstr::utf8("-cpp"@)],
        Word::NoCpp => seq![bstr::utf8("-nocpp"@)],
        Word::Preprocessed => seq![bstr::utf8("-fpreprocessed"@)],
        Word::AllDependencies => seq![bstr::utf8("-MD"@)],
        Word::UserDependencies => seq![bstr::utf8("-MMD"@)],
        Word::PhonyTargets => seq![bstr::utf8("-MP"@)],
        Word::GeneratedHeaders => seq![bstr::utf8("-MG"@)],
        Word::Target { option, value, attached } => option_and_value(
            match option {
                TargetOption::Plain => bstr::utf8("-MT"@),
                TargetOption::Quoted => bstr::utf8("-MQ"@),
            },
            value,
            attached,
        ),
        Word::Depfile { path, attached } => option_and_value(bstr::utf8("-MF"@), path, attached),
        Word::Object { path, attached } => option_and_value(bstr::utf8("-o"@), path, attached),
        Word::Modules { directory, attached } => option_and_value(
            bstr::utf8("-J"@),
            directory,
            attached,
        ),
        Word::Includes { directory, attached } => option_and_value(
            bstr::utf8("-I"@),
            directory,
            attached,
        ),
        Word::Search { tier, directory, attached } => option_and_value(
            match tier {
                Tier::Quote => bstr::utf8("-iquote"@),
                Tier::System => bstr::utf8("-isystem"@),
                Tier::After => bstr::utf8("-idirafter"@),
            },
            directory,
            attached,
        ),
        Word::Forced { macros, path, attached } => option_and_value(
            if macros {
                bstr::utf8("-imacros"@)
            } else {
                bstr::utf8("-include"@)
            },
            path,
            attached,
        ),
        Word::Intrinsics { directory, attached } => if attached {
            seq![bstr::utf8("-fintrinsic-modules-path="@) + directory]
        } else {
            seq![bstr::utf8("-fintrinsic-modules-path"@), directory]
        },
        Word::Define { value, attached } => option_and_value(bstr::utf8("-D"@), value, attached),
        Word::Undefine { value, attached } => option_and_value(bstr::utf8("-U"@), value, attached),
        Word::SystemRoot { directory } => seq![bstr::utf8("-isysroot"@), directory],
        Word::NoExecutableStack => seq![bstr::utf8("-Wa,--noexecstack"@)],
        Word::Supported { option } => seq![option],
        Word::Source { lead, stem, extension } => seq![lead + stem + seq![0x2e] + extension],
        Word::Refused { arg } => seq![arg],
        Word::RefusedPair { option, value } => seq![option, value],
    }
}

/// An attached value is not empty, and does not look like an option.
pub open spec fn attachable(value: Seq<u8>, attached: bool) -> bool {
    attached ==> value.len() > 0 && value[0] != 0x2d
}

/// The extensions of Fortran sources.
pub open spec fn source_extension(extension: Seq<u8>) -> bool {
    ||| extension == bstr::utf8("f"@)
    ||| extension == bstr::utf8("for"@)
    ||| extension == bstr::utf8("f77"@)
    ||| extension == bstr::utf8("f90"@)
    ||| extension == bstr::utf8("f95"@)
    ||| extension == bstr::utf8("f03"@)
    ||| extension == bstr::utf8("f08"@)
    ||| extension == bstr::utf8("f18"@)
    ||| extension == bstr::utf8("F"@)
    ||| extension == bstr::utf8("FOR"@)
    ||| extension == bstr::utf8("F77"@)
    ||| extension == bstr::utf8("F90"@)
    ||| extension == bstr::utf8("F95"@)
    ||| extension == bstr::utf8("F03"@)
    ||| extension == bstr::utf8("F08"@)
    ||| extension == bstr::utf8("F18"@)
    ||| extension == bstr::utf8("fpp"@)
    ||| extension == bstr::utf8("FPP"@)
}

/// The extensions of Fortran sources that are preprocessed.
pub open spec fn upper_extension(extension: Seq<u8>) -> bool {
    ||| extension == bstr::utf8("F"@)
    ||| extension == bstr::utf8("FOR"@)
    ||| extension == bstr::utf8("F77"@)
    ||| extension == bstr::utf8("F90"@)
    ||| extension == bstr::utf8("F95"@)
    ||| extension == bstr::utf8("F03"@)
    ||| extension == bstr::utf8("F08"@)
    ||| extension == bstr::utf8("F18"@)
    ||| extension == bstr::utf8("FPP"@)
}

/// An optimisation level.
pub open spec fn optimization_option(arg: Seq<u8>) -> bool {
    ||| arg == bstr::utf8("-O"@)
    ||| arg == bstr::utf8("-O0"@)
    ||| arg == bstr::utf8("-O1"@)
    ||| arg == bstr::utf8("-O2"@)
    ||| arg == bstr::utf8("-O3"@)
    ||| arg == bstr::utf8("-Os"@)
    ||| arg == bstr::utf8("-Og"@)
    ||| arg == bstr::utf8("-Ofast"@)
    ||| arg == bstr::utf8("-Oz"@)
}

/// An option that asks for warnings.
pub open spec fn warning_option(arg: Seq<u8>) -> bool {
    ||| arg == bstr::utf8("-w"@)
    ||| arg == bstr::utf8("-Wall"@)
    ||| arg == bstr::utf8("-Wextra"@)
    ||| arg == bstr::utf8("-Werror"@)
    ||| arg == bstr::utf8("-Wpedantic"@)
    ||| arg == bstr::utf8("-Wconversion"@)
    ||| arg == bstr::utf8("-Wconversion-extra"@)
    ||| arg == bstr::utf8("-Wimplicit-interface"@)
    ||| arg == bstr::utf8("-Wimplicit-procedure"@)
    ||| arg == bstr::utf8("-Winteger-division"@)
    ||| arg == bstr::utf8("-Wintrinsic-shadow"@)
    ||| arg == bstr::utf8("-Wintrinsics-std"@)
    ||| arg == bstr::utf8("-Wline-truncation"@)
    ||| arg == bstr::utf8("-Wreal-q-constant"@)
    ||| arg == bstr::utf8("-Wsurprising"@)
    ||| arg == bstr::utf8("-Wunderflow"@)
    ||| arg == bstr::utf8("-Warray-temporaries"@)
    ||| arg == bstr::utf8("-Wcharacter-truncation"@)
    ||| arg == bstr::utf8("-Wfunction-elimination"@)
    ||| arg == bstr::utf8("-Wrealloc-lhs"@)
    ||| arg == bstr::utf8("-Wrealloc-lhs-all"@)
    ||| arg == bstr::utf8("-Wcompare-reals"@)
    ||| arg == bstr::utf8("-Wtarget-lifetime"@)
    ||| arg == bstr::utf8("-Wdo-subscript"@)
    ||| arg == bstr::utf8("-Wuse-without-only"@)
    ||| arg == bstr::utf8("-Wno-align-commons"@)
    ||| arg == bstr::utf8("-Wno-aliasing"@)
    ||| arg == bstr::utf8("-Wno-c-binding-type"@)
    ||| arg == bstr::utf8("-Wno-conversion"@)
    ||| arg == bstr::utf8("-Wno-unused-dummy-argument"@)
    ||| arg == bstr::utf8("-Wmaybe-uninitialized"@)
}

/// A code generation or dialect option.
pub open spec fn fortran_option(arg: Seq<u8>) -> bool {
    ||| arg == bstr::utf8("-fall-intrinsics"@)
    ||| arg == bstr::utf8("-fbacktrace"@)
    ||| arg == bstr::utf8("-fbackslash"@)
    ||| arg == bstr::utf8("-fbounds-check"@)
    ||| arg == bstr::utf8("-fcray-pointer"@)
    ||| arg == bstr::utf8("-fd-lines-as-code"@)
    ||| arg == bstr::utf8("-fd-lines-as-comments"@)
    ||| arg == bstr::utf8("-fdefault-double-8"@)
    ||| arg == bstr::utf8("-fdefault-integer-8"@)
    ||| arg == bstr::utf8("-fdefault-real-8"@)
    ||| arg == bstr::utf8("-fdollar-ok"@)
    ||| arg == bstr::utf8("-ffixed-form"@)
    ||| arg == bstr::utf8("-ffree-form"@)
    ||| arg == bstr::utf8("-fimplicit-none"@)
    ||| arg == bstr::utf8("-finteger-4-integer-8"@)
    ||| arg == bstr::utf8("-fmodule-private"@)
    ||| arg == bstr::utf8("-fno-align-commons"@)
    ||| arg == bstr::utf8("-fno-backslash"@)
    ||| arg == bstr::utf8("-fno-backtrace"@)
    ||| arg == bstr::utf8("-fno-f2c"@)
    ||| arg == bstr::utf8("-fno-range-check"@)
    ||| arg == bstr::utf8("-fno-realloc-lhs"@)
    ||| arg == bstr::utf8("-fno-second-underscore"@)
    ||| arg == bstr::utf8("-fno-underscoring"@)
    ||| arg == bstr::utf8("-frange-check"@)
    ||| arg == bstr::utf8("-freal-4-real-8"@)
    ||| arg == bstr::utf8("-freal-4-real-10"@)
    ||| arg == bstr::utf8("-freal-4-real-16"@)
    ||| arg == bstr::utf8("-freal-8-real-4"@)
    ||| arg == bstr::utf8("-freal-8-real-10"@)
    ||| arg == bstr::utf8("-freal-8-real-16"@)
    ||| arg == bstr::utf8("-frecursive"@)
    ||| arg == bstr::utf8("-frepack-arrays"@)
    ||| arg == bstr::utf8("-fsecond-underscore"@)
    ||| arg == bstr::utf8("-fstack-arrays"@)
    ||| arg == bstr::utf8("-funderscoring"@)
    ||| arg == bstr::utf8("-fwhole-file"@)
    ||| arg == bstr::utf8("-fPIC"@)
    ||| arg == bstr::utf8("-fpic"@)
    ||| arg == bstr::utf8("-fPIE"@)
    ||| arg == bstr::utf8("-fpie"@)
    ||| arg == bstr::utf8("-fno-pic"@)
    ||| arg == bstr::utf8("-fno-PIC"@)
    ||| arg == bstr::utf8("-fno-pie"@)
    ||| arg == bstr::utf8("-fno-PIE"@)
    ||| arg == bstr::utf8("-fopenmp"@)
    ||| arg == bstr::utf8("-fopenacc"@)
    ||| arg == bstr::utf8("-flto"@)
    ||| arg == bstr::utf8("-fno-lto"@)
    ||| arg == bstr::utf8("-ffast-math"@)
    ||| arg == bstr::utf8("-fno-fast-math"@)
    ||| arg == bstr::utf8("-fdata-sections"@)
    ||| arg == bstr::utf8("-ffunction-sections"@)
    ||| arg == bstr::utf8("-funroll-loops"@)
    ||| arg == bstr::utf8("-funroll-all-loops"@)
    ||| arg == bstr::utf8("-fno-unroll-loops"@)
    ||| arg == bstr::utf8("-ftree-vectorize"@)
    ||| arg == bstr::utf8("-fno-tree-vectorize"@)
    ||| arg == bstr::utf8("-fomit-frame-pointer"@)
    ||| arg == bstr::utf8("-fno-omit-frame-pointer"@)
    ||| arg == bstr::utf8("-fwrapv"@)
    ||| arg == bstr::utf8("-fno-wrapv"@)
    ||| arg == bstr::utf8("-fvisibility=hidden"@)
    ||| options::valued(arg, "-fblas-matmul-limit="@)
    ||| options::valued(arg, "-fcheck="@)
    ||| options::valued(arg, "-fcoarray="@)
    ||| options::valued(arg, "-fconvert="@)
    ||| options::valued(arg, "-ffpe-summary="@)
    ||| options::valued(arg, "-ffile-prefix-map="@)
    ||| options::valued(arg, "-ffixed-line-length-"@)
    ||| options::valued(arg, "-ffree-line-length-"@)
    ||| options::valued(arg, "-finline-limit="@)
    ||| options::valued(arg, "-fmax-identifier-length="@)
    ||| options::valued(arg, "-fmax-stack-var-size="@)
    ||| options::valued(arg, "-fpack-derived="@)
    ||| options::valued(arg, "-frecord-marker="@)
    ||| options::valued(arg, "-frandom-seed="@)
}

/// An option that selects the machine.
pub open spec fn machine_option(arg: Seq<u8>) -> bool {
    ||| arg == bstr::utf8("-m32"@)
    ||| arg == bstr::utf8("-m64"@)
    ||| arg == bstr::utf8("-mx32"@)
    ||| arg == bstr::utf8("-msoft-float"@)
    ||| arg == bstr::utf8("-mhard-float"@)
    ||| options::valued(arg, "-march="@)
    ||| options::valued(arg, "-mcpu="@)
    ||| options::valued(arg, "-mtune="@)
    ||| options::valued(arg, "-mfpu="@)
    ||| options::valued(arg, "-mabi="@)
    ||| options::valued(arg, "-mmacosx-version-min="@)
}

/// An option that asks for debug information.
pub open spec fn debug_option(arg: Seq<u8>) -> bool {
    ||| arg == bstr::utf8("-g"@)
    ||| arg == bstr::utf8("-g0"@)
    ||| arg == bstr::utf8("-g1"@)
    ||| arg == bstr::utf8("-g2"@)
    ||| arg == bstr::utf8("-g3"@)
    ||| arg == bstr::utf8("-ggdb"@)
    ||| arg == bstr::utf8("-ggdb0"@)
    ||| arg == bstr::utf8("-ggdb1"@)
    ||| arg == bstr::utf8("-ggdb2"@)
    ||| arg == bstr::utf8("-ggdb3"@)
    ||| arg == bstr::utf8("-gdwarf"@)
    ||| arg == bstr::utf8("-gdwarf-2"@)
    ||| arg == bstr::utf8("-gdwarf-3"@)
    ||| arg == bstr::utf8("-gdwarf-4"@)
    ||| arg == bstr::utf8("-gdwarf-5"@)
    ||| options::valued(arg, "-fdebug-prefix-map="@)
    ||| options::valued(arg, "-fmacro-prefix-map="@)
}

/// An option that selects sanitizers.
pub open spec fn sanitizer_option(arg: Seq<u8>) -> bool {
    ||| options::valued(arg, "-fsanitize="@)
    ||| options::valued(arg, "-fno-sanitize="@)
    ||| options::valued(arg, "-fsanitize-recover="@)
    ||| options::valued(arg, "-fno-sanitize-recover="@)
}

/// A language standard, or an option of the preprocessor.
pub open spec fn general_option(arg: Seq<u8>) -> bool {
    ||| arg == bstr::utf8("-pedantic"@)
    ||| arg == bstr::utf8("-pedantic-errors"@)
    ||| arg == bstr::utf8("-traditional-cpp"@)
    ||| arg == bstr::utf8("-undef"@)
    ||| arg == bstr::utf8("-P"@)
    ||| arg == bstr::utf8("-std=f95"@)
    ||| arg == bstr::utf8("-std=f2003"@)
    ||| arg == bstr::utf8("-std=f2008"@)
    ||| arg == bstr::utf8("-std=f2008ts"@)
    ||| arg == bstr::utf8("-std=f2018"@)
    ||| arg == bstr::utf8("-std=f2023"@)
    ||| arg == bstr::utf8("-std=gnu"@)
    ||| arg == bstr::utf8("-std=legacy"@)
}

/// An option that a cached command line can hold, and that its probes repeat.
pub open spec fn supported_option(arg: Seq<u8>) -> bool {
    ||| optimization_option(arg)
    ||| warning_option(arg)
    ||| fortran_option(arg)
    ||| machine_option(arg)
    ||| debug_option(arg)
    ||| sanitizer_option(arg)
    ||| general_option(arg)
}

/// An argument that hands something to another tool.
pub open spec fn carrier_option(arg: Seq<u8>) -> bool {
    &&& arg != bstr::utf8("-Wa,--noexecstack"@)
    &&& {
        ||| bstr::has_prefix(arg, bstr::utf8("-Wp,"@))
        ||| bstr::has_prefix(arg, bstr::utf8("-Wa,"@))
        ||| bstr::has_prefix(arg, bstr::utf8("-Wl,"@))
        ||| bstr::has_prefix(arg, bstr::utf8("-Xpreprocessor="@))
        ||| bstr::has_prefix(arg, bstr::utf8("-Xassembler="@))
        ||| bstr::has_prefix(arg, bstr::utf8("-Xlinker="@))
    }
}

/// An option that reads a sampled profile.
pub open spec fn auto_profile_option(arg: Seq<u8>) -> bool {
    ||| bstr::has_prefix(arg, bstr::utf8("-fauto-profile"@))
    ||| bstr::has_prefix(arg, bstr::utf8("-fprofile-sample-use"@))
}

/// An option that writes what was optimised.
pub open spec fn record_option(arg: Seq<u8>) -> bool {
    ||| bstr::has_prefix(arg, bstr::utf8("-fsave-optimization-record"@))
    ||| bstr::has_prefix(arg, bstr::utf8("-foptimization-record-file"@))
}

/// An option that writes diagnostics to a file.
pub open spec fn diagnostic_option(arg: Seq<u8>) -> bool {
    ||| bstr::has_prefix(arg, bstr::utf8("-fdiagnostics-file="@))
    ||| bstr::has_prefix(arg, bstr::utf8("-fdiagnostics-add-output="@))
    ||| bstr::has_prefix(arg, bstr::utf8("-fdiagnostics-set-output="@))
    ||| bstr::has_prefix(arg, bstr::utf8("-fdiagnostics-format=sarif"@))
}

/// An option that keeps intermediate files.
pub open spec fn temporaries_option(arg: Seq<u8>) -> bool {
    ||| bstr::has_prefix(arg, bstr::utf8("-save-temps"@))
}

/// An option that writes dumps or reports.
pub open spec fn dump_option(arg: Seq<u8>) -> bool {
    ||| bstr::has_prefix(arg, bstr::utf8("-dump"@))
    ||| bstr::has_prefix(arg, bstr::utf8("-fdump-"@))
    ||| bstr::has_prefix(arg, bstr::utf8("-fopt-info"@))
    ||| bstr::has_prefix(arg, bstr::utf8("-ftime-report"@))
    ||| bstr::has_prefix(arg, bstr::utf8("-fmem-report"@))
    ||| bstr::has_prefix(arg, bstr::utf8("-fstack-usage"@))
    ||| bstr::has_prefix(arg, bstr::utf8("-fcallgraph-info"@))
}

/// An option that changes the compiler itself.
pub open spec fn plugin_option(arg: Seq<u8>) -> bool {
    ||| bstr::has_prefix(arg, bstr::utf8("-fplugin"@))
    ||| bstr::has_prefix(arg, bstr::utf8("-specs"@))
}

/// An option for coverage or profiling.
pub open spec fn profile_option(arg: Seq<u8>) -> bool {
    &&& !bstr::has_prefix(arg, bstr::utf8("-fprofile-sample-use"@))
    &&& {
        ||| arg == bstr::utf8("--coverage"@)
        ||| arg == bstr::utf8("-coverage"@)
        ||| arg == bstr::utf8("-p"@)
        ||| arg == bstr::utf8("-pg"@)
        ||| arg == bstr::utf8("-fprofile-arcs"@)
        ||| arg == bstr::utf8("-ftest-coverage"@)
        ||| arg == bstr::utf8("-fcondition-coverage"@)
        ||| arg == bstr::utf8("-fpath-coverage"@)
        ||| arg == bstr::utf8("-fbranch-probabilities"@)
        ||| bstr::has_prefix(arg, bstr::utf8("-fprofile-"@))
    }
}

/// Why an argument keeps a command line from being cached, where it does.
pub open spec fn refusal(arg: Seq<u8>) -> Option<BypassReason<Seq<u8>>> {
    if arg.len() > 0 && arg[0] == 0x40 {
        Some(BypassReason::ResponseFile(arg))
    } else if arg == bstr::utf8("-E"@) || arg == bstr::utf8("-M"@) || arg == bstr::utf8("-MM"@) {
        Some(BypassReason::PreprocessOnly)
    } else if arg == bstr::utf8("-S"@) {
        Some(BypassReason::AssemblyOutput)
    } else if bstr::has_prefix(arg, bstr::utf8("-x"@)) && arg.len() > 2 {
        Some(BypassReason::LanguageOverride)
    } else if carrier_option(arg) {
        Some(BypassReason::ArgumentCarrier)
    } else if auto_profile_option(arg) {
        Some(BypassReason::AutoFdo)
    } else if record_option(arg) {
        Some(BypassReason::OptimizationRecord)
    } else if diagnostic_option(arg) {
        Some(BypassReason::FileDiagnostic)
    } else if temporaries_option(arg) {
        Some(BypassReason::SaveTemps)
    } else if dump_option(arg) {
        Some(BypassReason::DumpOutput)
    } else if plugin_option(arg) {
        Some(BypassReason::PluginOrSpecs)
    } else if profile_option(arg) {
        Some(BypassReason::CoverageOrProfile)
    } else {
        None
    }
}

/// Why an option and the argument behind it keep a command line from being cached.
pub open spec fn refusal_with_value(option: Seq<u8>) -> Option<BypassReason<Seq<u8>>> {
    if option == bstr::utf8("-x"@) {
        Some(BypassReason::LanguageOverride)
    } else if option == bstr::utf8("-Wp"@) || option == bstr::utf8("-Wa"@) || option == bstr::utf8(
        "-Wl"@,
    ) || option == bstr::utf8("-Xpreprocessor"@) || option == bstr::utf8("-Xassembler"@) || option
        == bstr::utf8("-Xlinker"@) {
        Some(BypassReason::ArgumentCarrier)
    } else {
        None
    }
}

/// A word whose meaning is known.
pub open spec fn understood(word: Word) -> bool {
    match word {
        Word::Target { option, value, attached } => attachable(value, attached),
        Word::Depfile { path, attached } => attachable(path, attached) && path != bstr::utf8("-"@),
        Word::Object { path, attached } => attachable(path, attached),
        Word::Modules { directory, attached } => attachable(directory, attached),
        Word::Includes { directory, attached } => attachable(directory, attached) && directory
            != bstr::utf8("-"@),
        Word::Search { tier, directory, attached } => attachable(directory, attached),
        Word::Forced { macros, path, attached } => attachable(path, attached),
        Word::Intrinsics { directory, attached } => attachable(directory, attached),
        Word::Define { value, attached } => attachable(value, attached),
        Word::Undefine { value, attached } => attachable(value, attached),
        Word::Supported { option } => supported_option(option),
        Word::Source { lead, stem, extension } => {
            &&& lead.len() == 0 || lead.last() == 0x2f
            &&& stem.len() > 0
            &&& forall|at: int| 0 <= at < stem.len() ==> stem[at] != 0x2f
            &&& source_extension(extension)
            &&& (lead + stem)[0] != 0x2d && (lead + stem)[0] != 0x40
        },
        Word::Refused { arg } => refusal(arg) is Some,
        Word::RefusedPair { option, value } => refusal_with_value(option) is Some,
        _ => true,
    }
}

/// The arguments that spell a list of words.
pub open spec fn command_line(words: Seq<Word>) -> Seq<Seq<u8>>
    decreases words.len(),
{
    if words.len() == 0 {
        Seq::empty()
    } else {
        command_line(words.drop_last()) + spelled(words.last())
    }
}

/// What the last word says of those that say something.
pub open spec fn last_of<T>(words: Seq<Word>, says: spec_fn(Word) -> Option<T>) -> Option<T>
    decreases words.len(),
{
    if words.len() == 0 {
        None
    } else {
        match says(words.last()) {
            Some(found) => Some(found),
            None => last_of(words.drop_last(), says),
        }
    }
}

/// What the first word says of those that say something.
pub open spec fn first_of<T>(words: Seq<Word>, says: spec_fn(Word) -> Option<T>) -> Option<T>
    decreases words.len(),
{
    if words.len() == 0 {
        None
    } else {
        match first_of(words.drop_last(), says) {
            Some(found) => Some(found),
            None => says(words.last()),
        }
    }
}

/// What the words say, in order.
pub open spec fn all_of<T>(words: Seq<Word>, says: spec_fn(Word) -> Seq<T>) -> Seq<T>
    decreases words.len(),
{
    if words.len() == 0 {
        Seq::empty()
    } else {
        all_of(words.drop_last(), says) + says(words.last())
    }
}

/// Some word is as asked for.
pub open spec fn some_of(words: Seq<Word>, wanted: spec_fn(Word) -> bool) -> bool {
    exists|at: int| 0 <= at < words.len() && wanted(#[trigger] words[at])
}

/// Why a word keeps the command line from being cached.
pub open spec fn refused(word: Word) -> Option<BypassReason<Seq<u8>>> {
    match word {
        Word::Refused { arg } => refusal(arg),
        Word::RefusedPair { option, value } => refusal_with_value(option),
        _ => None,
    }
}

/// The source that a word names.
pub open spec fn sources(word: Word) -> Seq<Seq<u8>> {
    match word {
        Word::Source { lead, stem, extension } => seq![lead + stem + seq![0x2e] + extension],
        _ => Seq::empty(),
    }
}

/// The object that a word names.
pub open spec fn object(word: Word) -> Option<Seq<u8>> {
    match word {
        Word::Object { path, attached } => Some(path),
        _ => None,
    }
}

/// The depfile that a word names.
pub open spec fn depfile(word: Word) -> Option<Seq<u8>> {
    match word {
        Word::Depfile { path, attached } => Some(path),
        _ => None,
    }
}

/// The module directory that a word names.
pub open spec fn module_directories(word: Word) -> Seq<Seq<u8>> {
    match word {
        Word::Modules { directory, attached } => seq![directory],
        _ => Seq::empty(),
    }
}

/// The include directory that a word names.
pub open spec fn include_directories(word: Word) -> Seq<Seq<u8>> {
    match word {
        Word::Includes { directory, attached } => seq![directory],
        _ => Seq::empty(),
    }
}

/// The directory that a word adds to the search for files, with its tier.
pub open spec fn searched(word: Word) -> Seq<SearchPath<Seq<u8>>> {
    match word {
        Word::Includes { directory, attached } => seq![
            SearchPath { kind: SearchPathKind::Include, path: directory },
        ],
        Word::Search { tier, directory, attached } => seq![
            SearchPath {
                kind: match tier {
                    Tier::Quote => SearchPathKind::Quote,
                    Tier::System => SearchPathKind::System,
                    Tier::After => SearchPathKind::After,
                },
                path: directory,
            },
        ],
        _ => Seq::empty(),
    }
}

/// The file that a word injects.
pub open spec fn forced(word: Word) -> Seq<ForcedInput<Seq<u8>>> {
    match word {
        Word::Forced { macros, path, attached } => seq![
            ForcedInput {
                kind: if macros {
                    ForcedInputKind::Imacros
                } else {
                    ForcedInputKind::Include
                },
                path,
            },
        ],
        _ => Seq::empty(),
    }
}

/// The directory of intrinsic modules that a word names.
pub open spec fn intrinsic_directories(word: Word) -> Seq<Seq<u8>> {
    match word {
        Word::Intrinsics { directory, attached } => seq![directory],
        _ => Seq::empty(),
    }
}

/// The dependency mode that a word sets.
pub open spec fn mode(word: Word) -> Option<DependencyMode> {
    match word {
        Word::AllDependencies => Some(DependencyMode::Md),
        Word::UserDependencies => Some(DependencyMode::Mmd),
        _ => None,
    }
}

/// Whether a word asks for the preprocessor.
pub open spec fn preprocessor(word: Word) -> Option<bool> {
    match word {
        Word::Cpp => Some(true),
        Word::NoCpp => Some(false),
        _ => None,
    }
}

/// The arguments of a word that name the targets of a depfile.
pub open spec fn target_arguments(word: Word) -> Seq<Seq<u8>> {
    match word {
        Word::Target { option, value, attached } => spelled(word),
        Word::PhonyTargets => spelled(word),
        _ => Seq::empty(),
    }
}

/// The arguments of a word that a probe repeats.
pub open spec fn repeated(word: Word) -> Seq<Seq<u8>> {
    match word {
        Word::Includes { directory, attached } => seq![bstr::utf8("-I"@), directory],
        Word::Search { .. } | Word::Forced { .. } | Word::Intrinsics { .. } | Word::Define { .. }
        | Word::Undefine { .. } | Word::SystemRoot { .. } | Word::NoExecutableStack
        | Word::Supported { .. } => spelled(word),
        _ => Seq::empty(),
    }
}

proof fn lemma_prefix(arg: Seq<u8>, prefix: Seq<u8>)
    ensures
        bstr::has_prefix(arg, prefix) ==> prefix.len() <= arg.len() && (forall|at: int|
            #![trigger prefix[at]]
            #![trigger arg[at]]
            0 <= at < prefix.len() ==> prefix[at] == arg[at]),
{
    if bstr::has_prefix(arg, prefix) {
        assert forall|at: int|
            #![trigger prefix[at]]
            #![trigger arg[at]]
            0 <= at < prefix.len() implies prefix[at] == arg[at] by {
            assert(arg.take(prefix.len() as int)[at] == arg[at]);
        }
    }
}

proof fn lemma_attached(option: Seq<u8>, value: Seq<u8>)
    ensures
        bstr::has_prefix(option + value, option),
        (option + value).skip(option.len() as int) == value,
{
    assert((option + value).take(option.len() as int) =~= option);
    assert((option + value).skip(option.len() as int) =~= value);
}

#[verifier::spinoff_prover]
proof fn lemma_takes_value(arg: Seq<u8>)
    ensures
        gfortran::takes_value(arg) ==> {
            &&& arg.len() >= 2 && arg[0] == 0x2d
            &&& (arg[1] == 0x44 || arg[1] == 0x46 || arg[1] == 0x49 || arg[1] == 0x4a || arg[1] == 0x4d || arg[1] == 0x55 || arg[1] == 0x57 || arg[1] == 0x58 || arg[1] == 0x66 || arg[1] == 0x69 || arg[1] == 0x6f || arg[1] == 0x78)
            &&& (arg[1] == 0x6f || arg[1] == 0x4a || arg[1] == 0x49 || arg[1] == 0x78 || arg[1] == 0x44 || arg[1] == 0x55 || arg[1] == 0x46) ==> arg.len() == 2
            &&& arg[1] == 0x4d ==> arg.len() == 3 && (arg[2] == 0x54 || arg[2] == 0x51 || arg[2] == 0x46)
            &&& arg[1] == 0x66 ==> arg.len() >= 3 && arg[2] == 0x69 && arg == bstr::utf8(
                "-fintrinsic-modules-path"@,
            )
            &&& arg[1] == 0x69 ==> (arg == bstr::utf8("-include"@) || arg == bstr::utf8("-imacros"@) || arg == bstr::utf8("-isystem"@) || arg == bstr::utf8("-isysroot"@) || arg == bstr::utf8("-iframework"@) || arg == bstr::utf8("-iquote"@) || arg == bstr::utf8("-idirafter"@))
        },
{
    reveal(gfortran::takes_value);
    reveal(options::separate_argument_carrier);
    reveal(options::separate_value_option);
    reveal_strlit("-MT");
    bstr::lemma_ascii("-MT"@);
    reveal_strlit("-MQ");
    bstr::lemma_ascii("-MQ"@);
    reveal_strlit("-o");
    bstr::lemma_ascii("-o"@);
    reveal_strlit("-J");
    bstr::lemma_ascii("-J"@);
    reveal_strlit("-I");
    bstr::lemma_ascii("-I"@);
    reveal_strlit("-MF");
    bstr::lemma_ascii("-MF"@);
    reveal_strlit("-x");
    bstr::lemma_ascii("-x"@);
    reveal_strlit("-Wp");
    bstr::lemma_ascii("-Wp"@);
    reveal_strlit("-Wa");
    bstr::lemma_ascii("-Wa"@);
    reveal_strlit("-Wl");
    bstr::lemma_ascii("-Wl"@);
    reveal_strlit("-Xpreprocessor");
    bstr::lemma_ascii("-Xpreprocessor"@);
    reveal_strlit("-Xassembler");
    bstr::lemma_ascii("-Xassembler"@);
    reveal_strlit("-Xlinker");
    bstr::lemma_ascii("-Xlinker"@);
    reveal_strlit("-D");
    bstr::lemma_ascii("-D"@);
    reveal_strlit("-U");
    bstr::lemma_ascii("-U"@);
    reveal_strlit("-include");
    bstr::lemma_ascii("-include"@);
    reveal_strlit("-imacros");
    bstr::lemma_ascii("-imacros"@);
    reveal_strlit("-isystem");
    bstr::lemma_ascii("-isystem"@);
    reveal_strlit("-isysroot");
    bstr::lemma_ascii("-isysroot"@);
    reveal_strlit("-iframework");
    bstr::lemma_ascii("-iframework"@);
    reveal_strlit("-iquote");
    bstr::lemma_ascii("-iquote"@);
    reveal_strlit("-idirafter");
    bstr::lemma_ascii("-idirafter"@);
    reveal_strlit("-F");
    bstr::lemma_ascii("-F"@);
    reveal_strlit("-fintrinsic-modules-path");
    bstr::lemma_ascii("-fintrinsic-modules-path"@);
}

#[verifier::spinoff_prover]
proof fn lemma_rejected(arg: Seq<u8>)
    ensures
        options::rejected_side_effect(arg) ==> {
            &&& arg.len() >= 2 && arg[0] == 0x2d
            &&& (arg[1] == 0x2d || arg[1] == 0x57 || arg[1] == 0x58 || arg[1] == 0x63 || arg[1] == 0x64 || arg[1] == 0x66 || arg[1] == 0x70 || arg[1] == 0x73 || arg[1] == 0x78)
            &&& arg[1] == 0x66 ==> arg.len() >= 3 && (arg[2] == 0x61 || arg[2] == 0x62 || arg[2] == 0x63 || arg[2] == 0x64 || arg[2] == 0x6d || arg[2] == 0x6f || arg[2] == 0x70 || arg[2] == 0x73 || arg[2] == 0x74)
        },
{
    reveal(options::rejected_side_effect);
    reveal(options::language_override);
    reveal(options::argument_carrier);
    reveal(options::file_diagnostic);
    reveal_strlit("--coverage");
    bstr::lemma_ascii("--coverage"@);
    reveal_strlit("-coverage");
    bstr::lemma_ascii("-coverage"@);
    reveal_strlit("-p");
    bstr::lemma_ascii("-p"@);
    reveal_strlit("-pg");
    bstr::lemma_ascii("-pg"@);
    reveal_strlit("-fprofile-arcs");
    bstr::lemma_ascii("-fprofile-arcs"@);
    reveal_strlit("-ftest-coverage");
    bstr::lemma_ascii("-ftest-coverage"@);
    reveal_strlit("-fcondition-coverage");
    bstr::lemma_ascii("-fcondition-coverage"@);
    reveal_strlit("-fpath-coverage");
    bstr::lemma_ascii("-fpath-coverage"@);
    reveal_strlit("-fbranch-probabilities");
    bstr::lemma_ascii("-fbranch-probabilities"@);
    reveal_strlit("-x");
    bstr::lemma_ascii("-x"@);
    reveal_strlit("-Wp,");
    bstr::lemma_ascii("-Wp,"@);
    reveal_strlit("-Wa,");
    bstr::lemma_ascii("-Wa,"@);
    reveal_strlit("-Wl,");
    bstr::lemma_ascii("-Wl,"@);
    reveal_strlit("-Xpreprocessor=");
    bstr::lemma_ascii("-Xpreprocessor="@);
    reveal_strlit("-Xassembler=");
    bstr::lemma_ascii("-Xassembler="@);
    reveal_strlit("-Xlinker=");
    bstr::lemma_ascii("-Xlinker="@);
    reveal_strlit("-fprofile-");
    bstr::lemma_ascii("-fprofile-"@);
    reveal_strlit("-fauto-profile");
    bstr::lemma_ascii("-fauto-profile"@);
    reveal_strlit("-fprofile-sample-use");
    bstr::lemma_ascii("-fprofile-sample-use"@);
    reveal_strlit("-save-temps");
    bstr::lemma_ascii("-save-temps"@);
    reveal_strlit("-dump");
    bstr::lemma_ascii("-dump"@);
    reveal_strlit("-fdump-");
    bstr::lemma_ascii("-fdump-"@);
    reveal_strlit("-fopt-info");
    bstr::lemma_ascii("-fopt-info"@);
    reveal_strlit("-fsave-optimization-record");
    bstr::lemma_ascii("-fsave-optimization-record"@);
    reveal_strlit("-foptimization-record-file");
    bstr::lemma_ascii("-foptimization-record-file"@);
    reveal_strlit("-fdiagnostics-file=");
    bstr::lemma_ascii("-fdiagnostics-file="@);
    reveal_strlit("-fdiagnostics-add-output=");
    bstr::lemma_ascii("-fdiagnostics-add-output="@);
    reveal_strlit("-fdiagnostics-set-output=");
    bstr::lemma_ascii("-fdiagnostics-set-output="@);
    reveal_strlit("-fdiagnostics-format=sarif");
    bstr::lemma_ascii("-fdiagnostics-format=sarif"@);
    reveal_strlit("-ftime-report");
    bstr::lemma_ascii("-ftime-report"@);
    reveal_strlit("-fmem-report");
    bstr::lemma_ascii("-fmem-report"@);
    reveal_strlit("-fstack-usage");
    bstr::lemma_ascii("-fstack-usage"@);
    reveal_strlit("-fcallgraph-info");
    bstr::lemma_ascii("-fcallgraph-info"@);
    reveal_strlit("-fplugin");
    bstr::lemma_ascii("-fplugin"@);
    reveal_strlit("-specs");
    bstr::lemma_ascii("-specs"@);
    lemma_prefix(arg, bstr::utf8("-x"@));
    lemma_prefix(arg, bstr::utf8("-Wp,"@));
    lemma_prefix(arg, bstr::utf8("-Wa,"@));
    lemma_prefix(arg, bstr::utf8("-Wl,"@));
    lemma_prefix(arg, bstr::utf8("-Xpreprocessor="@));
    lemma_prefix(arg, bstr::utf8("-Xassembler="@));
    lemma_prefix(arg, bstr::utf8("-Xlinker="@));
    lemma_prefix(arg, bstr::utf8("-fprofile-"@));
    lemma_prefix(arg, bstr::utf8("-fauto-profile"@));
    lemma_prefix(arg, bstr::utf8("-fprofile-sample-use"@));
    lemma_prefix(arg, bstr::utf8("-save-temps"@));
    lemma_prefix(arg, bstr::utf8("-dump"@));
    lemma_prefix(arg, bstr::utf8("-fdump-"@));
    lemma_prefix(arg, bstr::utf8("-fopt-info"@));
    lemma_prefix(arg, bstr::utf8("-fsave-optimization-record"@));
    lemma_prefix(arg, bstr::utf8("-foptimization-record-file"@));
    lemma_prefix(arg, bstr::utf8("-fdiagnostics-file="@));
    lemma_prefix(arg, bstr::utf8("-fdiagnostics-add-output="@));
    lemma_prefix(arg, bstr::utf8("-fdiagnostics-set-output="@));
    lemma_prefix(arg, bstr::utf8("-fdiagnostics-format=sarif"@));
    lemma_prefix(arg, bstr::utf8("-ftime-report"@));
    lemma_prefix(arg, bstr::utf8("-fmem-report"@));
    lemma_prefix(arg, bstr::utf8("-fstack-usage"@));
    lemma_prefix(arg, bstr::utf8("-fcallgraph-info"@));
    lemma_prefix(arg, bstr::utf8("-fplugin"@));
    lemma_prefix(arg, bstr::utf8("-specs"@));
}

/// The directive that a word is read as.
spec fn directive_of(word: Word) -> Directive<Seq<u8>> {
    let first = spelled(word)[0];
    match word {
        Word::Compile => Directive::CompileOnly,
        Word::CheckSyntax => Directive::SyntaxOnly,
        Word::Cpp => Directive::Cpp,
        Word::NoCpp => Directive::NoCpp,
        Word::Preprocessed => Directive::Fpreprocessed,
        Word::AllDependencies => Directive::Mode(DependencyMode::Md),
        Word::UserDependencies => Directive::Mode(DependencyMode::Mmd),
        Word::PhonyTargets => Directive::Modifier(first),
        Word::GeneratedHeaders => Directive::Nothing,
        Word::Target { option, value, attached } => if attached {
            Directive::Modifier(first)
        } else {
            Directive::TargetModifier(first, value)
        },
        Word::Depfile { path, attached } => Directive::Depfile(path),
        Word::Object { path, attached } => Directive::Object(path),
        Word::Modules { directory, attached } => Directive::ModuleDirectory(directory),
        Word::Includes { directory, attached } => Directive::IncludeDirectory(first, directory),
        Word::Search { tier, directory, attached } => option_directive(first, directory, attached),
        Word::Forced { macros, path, attached } => option_directive(first, path, attached),
        Word::Intrinsics { directory, attached } => option_directive(first, directory, attached),
        Word::Define { value, attached } => option_directive(first, value, attached),
        Word::Undefine { value, attached } => option_directive(first, value, attached),
        Word::SystemRoot { directory } => Directive::Valued(first, directory),
        Word::NoExecutableStack => Directive::Carried(first),
        Word::Supported { option } => Directive::Supported(option),
        Word::Source { lead, stem, extension } => Directive::Positional(first),
        Word::Refused { arg } => Directive::Reject(refusal(arg)->0),
        Word::RefusedPair { option, value } => Directive::Reject(refusal_with_value(option)->0),
    }
}

spec fn option_directive(arg: Seq<u8>, value: Seq<u8>, attached: bool) -> Directive<Seq<u8>> {
    if attached {
        Directive::Supported(arg)
    } else {
        Directive::Valued(arg, value)
    }
}

#[verifier::spinoff_prover]
proof fn lemma_exact(word: Word)
    requires
        word is Compile || word is CheckSyntax || word is Cpp || word is NoCpp || word is Preprocessed
            || word is AllDependencies || word is UserDependencies || word is PhonyTargets
            || word is GeneratedHeaders || word is NoExecutableStack,
    ensures
        !gfortran::takes_value(spelled(word)[0]),
        gfortran::alone(spelled(word)[0]) == directive_of(word),
        spelled(word).len() == 1,
{
    let arg = spelled(word)[0];
    lemma_takes_value(arg);
    reveal(gfortran::alone);
    reveal(options::safe_argument_carrier);
    reveal_strlit("--");
    bstr::lemma_ascii("--"@);
    reveal_strlit("-c");
    bstr::lemma_ascii("-c"@);
    reveal_strlit("-fsyntax-only");
    bstr::lemma_ascii("-fsyntax-only"@);
    reveal_strlit("-cpp");
    bstr::lemma_ascii("-cpp"@);
    reveal_strlit("-nocpp");
    bstr::lemma_ascii("-nocpp"@);
    reveal_strlit("-fpreprocessed");
    bstr::lemma_ascii("-fpreprocessed"@);
    reveal_strlit("-MD");
    bstr::lemma_ascii("-MD"@);
    reveal_strlit("-MMD");
    bstr::lemma_ascii("-MMD"@);
    reveal_strlit("-MP");
    bstr::lemma_ascii("-MP"@);
    reveal_strlit("-MG");
    bstr::lemma_ascii("-MG"@);
    reveal_strlit("-MT");
    bstr::lemma_ascii("-MT"@);
    reveal_strlit("-MQ");
    bstr::lemma_ascii("-MQ"@);
    reveal_strlit("-M");
    bstr::lemma_ascii("-M"@);
    reveal_strlit("-MM");
    bstr::lemma_ascii("-MM"@);
    reveal_strlit("-E");
    bstr::lemma_ascii("-E"@);
    reveal_strlit("-S");
    bstr::lemma_ascii("-S"@);
    reveal_strlit("-MF");
    bstr::lemma_ascii("-MF"@);
    reveal_strlit("-J");
    bstr::lemma_ascii("-J"@);
    reveal_strlit("-I");
    bstr::lemma_ascii("-I"@);
    reveal_strlit("-o");
    bstr::lemma_ascii("-o"@);
    reveal_strlit("-Wa,--noexecstack");
    bstr::lemma_ascii("-Wa,--noexecstack"@);
    reveal_strlit("-");
    bstr::lemma_ascii("-"@);
    lemma_prefix(arg, bstr::utf8("-MT"@));
    lemma_prefix(arg, bstr::utf8("-MQ"@));
    lemma_prefix(arg, bstr::utf8("-MF"@));
    lemma_prefix(arg, bstr::utf8("-J"@));
    lemma_prefix(arg, bstr::utf8("-I"@));
    lemma_prefix(arg, bstr::utf8("-o"@));
    lemma_prefix(arg, bstr::utf8("-"@));
    assert(arg[0] == 0x2d && arg.len() >= 2);
    assert(arg[1] == 0x63 || arg[1] == 0x66 || arg[1] == 0x6e || arg[1] == 0x4d || arg[1] == 0x57);
    if arg[1] == 0x66 {
        assert(arg[2] == 0x73 || arg[2] == 0x70);
    }
    if arg[1] == 0x57 {
        assert(arg.len() > 3);
        assert(!gfortran::takes_value(arg)) by {
            reveal(gfortran::takes_value);
            reveal(options::separate_argument_carrier);
            reveal(options::separate_value_option);
            assert(arg[2] == 0x61 && arg.len() == 17);
            reveal_strlit("-Wp");
            bstr::lemma_ascii("-Wp"@);
            reveal_strlit("-Wa");
            bstr::lemma_ascii("-Wa"@);
            reveal_strlit("-Wl");
            bstr::lemma_ascii("-Wl"@);
            reveal_strlit("-Xpreprocessor");
            bstr::lemma_ascii("-Xpreprocessor"@);
            reveal_strlit("-Xassembler");
            bstr::lemma_ascii("-Xassembler"@);
            reveal_strlit("-Xlinker");
            bstr::lemma_ascii("-Xlinker"@);
            reveal_strlit("-MT");
            bstr::lemma_ascii("-MT"@);
            reveal_strlit("-MQ");
            bstr::lemma_ascii("-MQ"@);
            reveal_strlit("-o");
            bstr::lemma_ascii("-o"@);
            reveal_strlit("-J");
            bstr::lemma_ascii("-J"@);
            reveal_strlit("-I");
            bstr::lemma_ascii("-I"@);
            reveal_strlit("-MF");
            bstr::lemma_ascii("-MF"@);
            reveal_strlit("-x");
            bstr::lemma_ascii("-x"@);
            reveal_strlit("-D");
            bstr::lemma_ascii("-D"@);
            reveal_strlit("-U");
            bstr::lemma_ascii("-U"@);
            reveal_strlit("-include");
            bstr::lemma_ascii("-include"@);
            reveal_strlit("-imacros");
            bstr::lemma_ascii("-imacros"@);
            reveal_strlit("-isystem");
            bstr::lemma_ascii("-isystem"@);
            reveal_strlit("-isysroot");
            bstr::lemma_ascii("-isysroot"@);
            reveal_strlit("-iframework");
            bstr::lemma_ascii("-iframework"@);
            reveal_strlit("-iquote");
            bstr::lemma_ascii("-iquote"@);
            reveal_strlit("-idirafter");
            bstr::lemma_ascii("-idirafter"@);
            reveal_strlit("-F");
            bstr::lemma_ascii("-F"@);
            reveal_strlit("-fintrinsic-modules-path");
            bstr::lemma_ascii("-fintrinsic-modules-path"@);
        }
    }
}

#[verifier::spinoff_prover]
proof fn lemma_attached_first(option: Seq<u8>, value: Seq<u8>)
    requires
        option == bstr::utf8("-MT"@) || option == bstr::utf8("-MQ"@) || option == bstr::utf8("-MF"@)
            || option == bstr::utf8("-J"@) || option == bstr::utf8("-I"@) || option == bstr::utf8(
            "-o"@,
        ),
        value.len() > 0,
    ensures
        !gfortran::takes_value(option + value),
        gfortran::alone(option + value) == (if option == bstr::utf8("-MT"@) || option
            == bstr::utf8("-MQ"@) {
            Directive::Modifier(option + value)
        } else if option == bstr::utf8("-MF"@) {
            Directive::Depfile(value)
        } else if option == bstr::utf8("-J"@) {
            Directive::ModuleDirectory(value)
        } else if option == bstr::utf8("-I"@) {
            Directive::IncludeDirectory(option + value, value)
        } else {
            Directive::Object(value)
        }),
{
    let arg = option + value;
    lemma_takes_value(arg);
    lemma_attached(option, value);
    reveal(gfortran::alone);
    reveal_strlit("--");
    bstr::lemma_ascii("--"@);
    reveal_strlit("-c");
    bstr::lemma_ascii("-c"@);
    reveal_strlit("-fsyntax-only");
    bstr::lemma_ascii("-fsyntax-only"@);
    reveal_strlit("-cpp");
    bstr::lemma_ascii("-cpp"@);
    reveal_strlit("-nocpp");
    bstr::lemma_ascii("-nocpp"@);
    reveal_strlit("-fpreprocessed");
    bstr::lemma_ascii("-fpreprocessed"@);
    reveal_strlit("-MD");
    bstr::lemma_ascii("-MD"@);
    reveal_strlit("-MMD");
    bstr::lemma_ascii("-MMD"@);
    reveal_strlit("-MP");
    bstr::lemma_ascii("-MP"@);
    reveal_strlit("-MG");
    bstr::lemma_ascii("-MG"@);
    reveal_strlit("-MT");
    bstr::lemma_ascii("-MT"@);
    reveal_strlit("-MQ");
    bstr::lemma_ascii("-MQ"@);
    reveal_strlit("-M");
    bstr::lemma_ascii("-M"@);
    reveal_strlit("-MM");
    bstr::lemma_ascii("-MM"@);
    reveal_strlit("-E");
    bstr::lemma_ascii("-E"@);
    reveal_strlit("-S");
    bstr::lemma_ascii("-S"@);
    reveal_strlit("-MF");
    bstr::lemma_ascii("-MF"@);
    reveal_strlit("-J");
    bstr::lemma_ascii("-J"@);
    reveal_strlit("-I");
    bstr::lemma_ascii("-I"@);
    reveal_strlit("-o");
    bstr::lemma_ascii("-o"@);
    reveal_strlit("-Wa,--noexecstack");
    bstr::lemma_ascii("-Wa,--noexecstack"@);
    reveal_strlit("-");
    bstr::lemma_ascii("-"@);
    lemma_prefix(arg, bstr::utf8("-MT"@));
    lemma_prefix(arg, bstr::utf8("-MQ"@));
    lemma_prefix(arg, bstr::utf8("-MF"@));
    lemma_prefix(arg, bstr::utf8("-J"@));
    lemma_prefix(arg, bstr::utf8("-I"@));
    lemma_prefix(arg, bstr::utf8("-o"@));
    lemma_prefix(arg, bstr::utf8("-"@));
    assert(arg[0] == option[0] && arg[1] == option[1]);
    assert(option.len() == 3 ==> arg[2] == option[2]);
    assert(bstr::utf8("-MT"@)[2] == 0x54);
    assert(bstr::utf8("-MQ"@)[2] == 0x51);
    assert(bstr::utf8("-MF"@)[2] == 0x46);
    assert(bstr::utf8("-J"@)[1] == 0x4a);
    assert(bstr::utf8("-I"@)[1] == 0x49);
    assert(bstr::utf8("-o"@)[1] == 0x6f);
    assert(bstr::utf8("-MD"@)[2] == 0x44);
    assert(bstr::utf8("-MMD"@)[2] == 0x4d);
    assert(bstr::utf8("-MP"@)[2] == 0x50);
    assert(bstr::utf8("-MG"@)[2] == 0x47);
    assert(bstr::utf8("-MM"@)[2] == 0x4d);
}

#[verifier::spinoff_prover]
proof fn lemma_attached_option(option: Seq<u8>, value: Seq<u8>)
    requires
        option == bstr::utf8("-iquote"@) || option == bstr::utf8("-isystem"@) || option
            == bstr::utf8("-idirafter"@) || option == bstr::utf8("-include"@) || option
            == bstr::utf8("-imacros"@) || option == bstr::utf8("-fintrinsic-modules-path="@)
            || option == bstr::utf8("-D"@) || option == bstr::utf8("-U"@),
        value.len() > 0,
    ensures
        !gfortran::takes_value(option + value),
        gfortran::alone(option + value) == Directive::Supported(option + value),
{
    let arg = option + value;
    lemma_takes_value(arg);
    lemma_rejected(arg);
    lemma_attached(option, value);
    reveal(gfortran::alone);
    reveal(options::safe_argument_carrier);
    reveal(options::safe_option);
    reveal(options::safe_fortran_option);
    reveal_strlit("--");
    bstr::lemma_ascii("--"@);
    reveal_strlit("-c");
    bstr::lemma_ascii("-c"@);
    reveal_strlit("-fsyntax-only");
    bstr::lemma_ascii("-fsyntax-only"@);
    reveal_strlit("-cpp");
    bstr::lemma_ascii("-cpp"@);
    reveal_strlit("-nocpp");
    bstr::lemma_ascii("-nocpp"@);
    reveal_strlit("-fpreprocessed");
    bstr::lemma_ascii("-fpreprocessed"@);
    reveal_strlit("-MD");
    bstr::lemma_ascii("-MD"@);
    reveal_strlit("-MMD");
    bstr::lemma_ascii("-MMD"@);
    reveal_strlit("-MP");
    bstr::lemma_ascii("-MP"@);
    reveal_strlit("-MG");
    bstr::lemma_ascii("-MG"@);
    reveal_strlit("-MT");
    bstr::lemma_ascii("-MT"@);
    reveal_strlit("-MQ");
    bstr::lemma_ascii("-MQ"@);
    reveal_strlit("-M");
    bstr::lemma_ascii("-M"@);
    reveal_strlit("-MM");
    bstr::lemma_ascii("-MM"@);
    reveal_strlit("-E");
    bstr::lemma_ascii("-E"@);
    reveal_strlit("-S");
    bstr::lemma_ascii("-S"@);
    reveal_strlit("-MF");
    bstr::lemma_ascii("-MF"@);
    reveal_strlit("-J");
    bstr::lemma_ascii("-J"@);
    reveal_strlit("-I");
    bstr::lemma_ascii("-I"@);
    reveal_strlit("-o");
    bstr::lemma_ascii("-o"@);
    reveal_strlit("-Wa,--noexecstack");
    bstr::lemma_ascii("-Wa,--noexecstack"@);
    reveal_strlit("-");
    bstr::lemma_ascii("-"@);
    reveal_strlit("-iquote");
    bstr::lemma_ascii("-iquote"@);
    reveal_strlit("-isystem");
    bstr::lemma_ascii("-isystem"@);
    reveal_strlit("-idirafter");
    bstr::lemma_ascii("-idirafter"@);
    reveal_strlit("-include");
    bstr::lemma_ascii("-include"@);
    reveal_strlit("-imacros");
    bstr::lemma_ascii("-imacros"@);
    reveal_strlit("-fintrinsic-modules-path");
    bstr::lemma_ascii("-fintrinsic-modules-path"@);
    reveal_strlit("-fintrinsic-modules-path=");
    bstr::lemma_ascii("-fintrinsic-modules-path="@);
    reveal_strlit("-D");
    bstr::lemma_ascii("-D"@);
    reveal_strlit("-U");
    bstr::lemma_ascii("-U"@);
    reveal_strlit("-isysroot");
    bstr::lemma_ascii("-isysroot"@);
    reveal_strlit("-iframework");
    bstr::lemma_ascii("-iframework"@);
    reveal_strlit("-F");
    bstr::lemma_ascii("-F"@);
    reveal_strlit("-x");
    bstr::lemma_ascii("-x"@);
    reveal_strlit("-Wp");
    bstr::lemma_ascii("-Wp"@);
    reveal_strlit("-Wa");
    bstr::lemma_ascii("-Wa"@);
    reveal_strlit("-Wl");
    bstr::lemma_ascii("-Wl"@);
    reveal_strlit("-Xpreprocessor");
    bstr::lemma_ascii("-Xpreprocessor"@);
    reveal_strlit("-Xassembler");
    bstr::lemma_ascii("-Xassembler"@);
    reveal_strlit("-Xlinker");
    bstr::lemma_ascii("-Xlinker"@);
    lemma_prefix(arg, bstr::utf8("-MT"@));
    lemma_prefix(arg, bstr::utf8("-MQ"@));
    lemma_prefix(arg, bstr::utf8("-MF"@));
    lemma_prefix(arg, bstr::utf8("-J"@));
    lemma_prefix(arg, bstr::utf8("-I"@));
    lemma_prefix(arg, bstr::utf8("-o"@));
    lemma_prefix(arg, bstr::utf8("-"@));
    assert(arg[0] == option[0] && arg[1] == option[1]);
    assert(option.len() > 2 ==> arg[2] == option[2]);
    assert(option.len() > 3 ==> arg[3] == option[3]);
    assert(option.len() > 4 ==> arg[4] == option[4]);
    assert(arg[0] == 0x2d);
    assert(arg[1] == 0x69 || arg[1] == 0x66 || arg[1] == 0x44 || arg[1] == 0x55);
    if arg[1] == 0x66 {
        assert(arg[2] == 0x69);
        assert(arg.len() > 25);
        assert(bstr::utf8("-fintrinsic-modules-path"@).len() == 24);
    }
    if arg[1] == 0x69 {
        assert(arg[2] == 0x71 || arg[2] == 0x73 || arg[2] == 0x64 || arg[2] == 0x6e || arg[2]
            == 0x6d);
        assert(bstr::utf8("-isystem"@)[3] == 0x79 && bstr::utf8("-isystem"@)[4] == 0x73);
        assert(bstr::utf8("-isysroot"@)[5] == 0x72);
        if option == bstr::utf8("-isystem"@) {
            assert(arg[5] == option[5] && option[5] == 0x74);
        }
        assert(!gfortran::takes_value(arg));
    }
    assert(arg.take(1) =~= bstr::utf8("-"@));
}

#[verifier::spinoff_prover]
proof fn lemma_separate(option: Seq<u8>, value: Seq<u8>)
    ensures
        option == bstr::utf8("-MT"@) || option == bstr::utf8("-MQ"@) ==> gfortran::takes_value(
            option,
        ) && gfortran::with_value(option, value) == Directive::TargetModifier(option, value),
        option == bstr::utf8("-MF"@) ==> gfortran::takes_value(option) && gfortran::with_value(
            option,
            value,
        ) == Directive::Depfile(value),
        option == bstr::utf8("-J"@) ==> gfortran::takes_value(option) && gfortran::with_value(
            option,
            value,
        ) == Directive::ModuleDirectory(value),
        option == bstr::utf8("-I"@) ==> gfortran::takes_value(option) && gfortran::with_value(
            option,
            value,
        ) == Directive::IncludeDirectory(option, value),
        option == bstr::utf8("-o"@) ==> gfortran::takes_value(option) && gfortran::with_value(
            option,
            value,
        ) == Directive::Object(value),
        option == bstr::utf8("-iquote"@) || option == bstr::utf8("-isystem"@) || option
            == bstr::utf8("-idirafter"@) || option == bstr::utf8("-include"@) || option
            == bstr::utf8("-imacros"@) || option == bstr::utf8("-fintrinsic-modules-path"@)
            || option == bstr::utf8("-D"@) || option == bstr::utf8("-U"@) || option == bstr::utf8(
            "-isysroot"@,
        ) ==> gfortran::takes_value(option) && gfortran::with_value(option, value)
            == Directive::Valued(option, value),
{
    reveal(gfortran::takes_value);
    reveal(gfortran::with_value);
    reveal(options::separate_argument_carrier);
    reveal(options::separate_value_option);
    reveal_strlit("-MT");
    bstr::lemma_ascii("-MT"@);
    reveal_strlit("-MQ");
    bstr::lemma_ascii("-MQ"@);
    reveal_strlit("-o");
    bstr::lemma_ascii("-o"@);
    reveal_strlit("-J");
    bstr::lemma_ascii("-J"@);
    reveal_strlit("-I");
    bstr::lemma_ascii("-I"@);
    reveal_strlit("-MF");
    bstr::lemma_ascii("-MF"@);
    reveal_strlit("-iquote");
    bstr::lemma_ascii("-iquote"@);
    reveal_strlit("-isystem");
    bstr::lemma_ascii("-isystem"@);
    reveal_strlit("-idirafter");
    bstr::lemma_ascii("-idirafter"@);
    reveal_strlit("-include");
    bstr::lemma_ascii("-include"@);
    reveal_strlit("-imacros");
    bstr::lemma_ascii("-imacros"@);
    reveal_strlit("-fintrinsic-modules-path");
    bstr::lemma_ascii("-fintrinsic-modules-path"@);
    reveal_strlit("-fintrinsic-modules-path=");
    bstr::lemma_ascii("-fintrinsic-modules-path="@);
    reveal_strlit("-D");
    bstr::lemma_ascii("-D"@);
    reveal_strlit("-U");
    bstr::lemma_ascii("-U"@);
    reveal_strlit("-isysroot");
    bstr::lemma_ascii("-isysroot"@);
    reveal_strlit("-iframework");
    bstr::lemma_ascii("-iframework"@);
    reveal_strlit("-F");
    bstr::lemma_ascii("-F"@);
    reveal_strlit("-x");
    bstr::lemma_ascii("-x"@);
    reveal_strlit("-Wp");
    bstr::lemma_ascii("-Wp"@);
    reveal_strlit("-Wa");
    bstr::lemma_ascii("-Wa"@);
    reveal_strlit("-Wl");
    bstr::lemma_ascii("-Wl"@);
    reveal_strlit("-Xpreprocessor");
    bstr::lemma_ascii("-Xpreprocessor"@);
    reveal_strlit("-Xassembler");
    bstr::lemma_ascii("-Xassembler"@);
    reveal_strlit("-Xlinker");
    bstr::lemma_ascii("-Xlinker"@);
    assert(bstr::utf8("-MT"@)[2] == 0x54);
    assert(bstr::utf8("-MQ"@)[2] == 0x51);
    assert(bstr::utf8("-MF"@)[2] == 0x46);
    assert(bstr::utf8("-J"@)[1] == 0x4a);
    assert(bstr::utf8("-I"@)[1] == 0x49);
    assert(bstr::utf8("-o"@)[1] == 0x6f);
    assert(bstr::utf8("-x"@)[1] == 0x78);
    assert(bstr::utf8("-D"@)[1] == 0x44);
    assert(bstr::utf8("-U"@)[1] == 0x55);
    assert(bstr::utf8("-Wp"@)[1] == 0x57);
    assert(bstr::utf8("-Wa"@)[1] == 0x57);
    assert(bstr::utf8("-Wl"@)[1] == 0x57);
    assert(bstr::utf8("-Xpreprocessor"@)[1] == 0x58);
    assert(bstr::utf8("-Xassembler"@)[1] == 0x58);
    assert(bstr::utf8("-Xlinker"@)[1] == 0x58);
    assert(bstr::utf8("-iquote"@)[1] == 0x69);
    assert(bstr::utf8("-isystem"@)[1] == 0x69);
    assert(bstr::utf8("-isysroot"@)[1] == 0x69);
    assert(bstr::utf8("-idirafter"@)[1] == 0x69);
    assert(bstr::utf8("-include"@)[1] == 0x69);
    assert(bstr::utf8("-imacros"@)[1] == 0x69);
    assert(bstr::utf8("-fintrinsic-modules-path"@)[1] == 0x66);
}

proof fn lemma_positional(path: Seq<u8>)
    requires
        path.len() > 0,
        path[0] != 0x2d,
        path[0] != 0x40,
    ensures
        !gfortran::takes_value(path),
        gfortran::alone(path) == Directive::Positional(path),
{
    let arg = path;
    lemma_takes_value(arg);
    lemma_rejected(arg);
    reveal(gfortran::alone);
    reveal(options::safe_argument_carrier);
    reveal_strlit("--");
    bstr::lemma_ascii("--"@);
    reveal_strlit("-c");
    bstr::lemma_ascii("-c"@);
    reveal_strlit("-fsyntax-only");
    bstr::lemma_ascii("-fsyntax-only"@);
    reveal_strlit("-cpp");
    bstr::lemma_ascii("-cpp"@);
    reveal_strlit("-nocpp");
    bstr::lemma_ascii("-nocpp"@);
    reveal_strlit("-fpreprocessed");
    bstr::lemma_ascii("-fpreprocessed"@);
    reveal_strlit("-MD");
    bstr::lemma_ascii("-MD"@);
    reveal_strlit("-MMD");
    bstr::lemma_ascii("-MMD"@);
    reveal_strlit("-MP");
    bstr::lemma_ascii("-MP"@);
    reveal_strlit("-MG");
    bstr::lemma_ascii("-MG"@);
    reveal_strlit("-MT");
    bstr::lemma_ascii("-MT"@);
    reveal_strlit("-MQ");
    bstr::lemma_ascii("-MQ"@);
    reveal_strlit("-M");
    bstr::lemma_ascii("-M"@);
    reveal_strlit("-MM");
    bstr::lemma_ascii("-MM"@);
    reveal_strlit("-E");
    bstr::lemma_ascii("-E"@);
    reveal_strlit("-S");
    bstr::lemma_ascii("-S"@);
    reveal_strlit("-MF");
    bstr::lemma_ascii("-MF"@);
    reveal_strlit("-J");
    bstr::lemma_ascii("-J"@);
    reveal_strlit("-I");
    bstr::lemma_ascii("-I"@);
    reveal_strlit("-o");
    bstr::lemma_ascii("-o"@);
    reveal_strlit("-Wa,--noexecstack");
    bstr::lemma_ascii("-Wa,--noexecstack"@);
    reveal_strlit("-");
    bstr::lemma_ascii("-"@);
    lemma_prefix(arg, bstr::utf8("-MT"@));
    lemma_prefix(arg, bstr::utf8("-MQ"@));
    lemma_prefix(arg, bstr::utf8("-MF"@));
    lemma_prefix(arg, bstr::utf8("-J"@));
    lemma_prefix(arg, bstr::utf8("-I"@));
    lemma_prefix(arg, bstr::utf8("-o"@));
    lemma_prefix(arg, bstr::utf8("-"@));
}

/// A text that cannot be taken for an option that takes a value or is refused.
spec fn shaped(arg: Seq<u8>) -> bool {
    &&& arg.len() >= 2 && arg[0] == 0x2d
    &&& arg[1] == 0x4f || arg[1] == 0x77 || arg[1] == 0x57 || arg[1] == 0x66 || arg[1] == 0x6d
        || arg[1] == 0x67 || arg[1] == 0x70 || arg[1] == 0x74 || arg[1] == 0x75 || arg[1] == 0x50
        || arg[1] == 0x73
    &&& arg[1] == 0x57 ==> arg.len() > 3 && arg[3] != 0x2c
    &&& arg[1] == 0x70 ==> arg.len() > 3
    &&& arg[1] == 0x73 ==> arg.len() > 2 && arg[2] == 0x74
    &&& arg[1] == 0x66 ==> arg.len() >= 5 && !refused_shape(arg) && !(arg[2] == 0x69 && arg[3]
        == 0x6e && arg[4] == 0x74 && arg[5] == 0x72) && !(arg[2] == 0x73 && arg[3] == 0x79)
        && !(arg[2] == 0x70 && arg[3] == 0x72)
}

/// The start of an option that is refused, behind `-f`.
spec fn refused_shape(arg: Seq<u8>) -> bool {
    ||| arg[2] == 0x61 && arg[3] == 0x75 && arg[4] == 0x74 && arg[5] == 0x6f
    ||| arg[2] == 0x62 && arg[3] == 0x72 && arg[4] == 0x61 && arg[5] == 0x6e
    ||| arg[2] == 0x63 && arg[3] == 0x61 && arg[4] == 0x6c && arg[5] == 0x6c
    ||| arg[2] == 0x63 && arg[3] == 0x6f && arg[4] == 0x6e && arg[5] == 0x64
    ||| arg[2] == 0x64 && arg[3] == 0x69 && arg[4] == 0x61 && arg[5] == 0x67
    ||| arg[2] == 0x64 && arg[3] == 0x75 && arg[4] == 0x6d && arg[5] == 0x70
    ||| arg[2] == 0x6d && arg[3] == 0x65 && arg[4] == 0x6d && arg[5] == 0x2d
    ||| arg[2] == 0x6f && arg[3] == 0x70 && arg[4] == 0x74 && arg[5] == 0x2d
    ||| arg[2] == 0x6f && arg[3] == 0x70 && arg[4] == 0x74 && arg[5] == 0x69
    ||| arg[2] == 0x70 && arg[3] == 0x61 && arg[4] == 0x74 && arg[5] == 0x68
    ||| arg[2] == 0x70 && arg[3] == 0x6c && arg[4] == 0x75 && arg[5] == 0x67
    ||| arg[2] == 0x70 && arg[3] == 0x72 && arg[4] == 0x6f && arg[5] == 0x66
    ||| arg[2] == 0x73 && arg[3] == 0x61 && arg[4] == 0x76 && arg[5] == 0x65
    ||| arg[2] == 0x73 && arg[3] == 0x74 && arg[4] == 0x61 && arg[5] == 0x63 && arg[8] == 0x75
    ||| arg[2] == 0x74 && arg[3] == 0x65 && arg[4] == 0x73 && arg[5] == 0x74
    ||| arg[2] == 0x74 && arg[3] == 0x69 && arg[4] == 0x6d && arg[5] == 0x65
}

#[verifier::spinoff_prover]
proof fn lemma_refused_shape(arg: Seq<u8>)
    ensures
        options::rejected_side_effect(arg) && arg[1] == 0x66 ==> refused_shape(arg),
        options::rejected_side_effect(arg) && arg[1] == 0x57 ==> arg[3] == 0x2c,
        options::rejected_side_effect(arg) && arg[1] == 0x70 ==> arg.len() <= 3,
        options::rejected_side_effect(arg) && arg[1] == 0x73 ==> arg[2] != 0x74,
{
    reveal(options::rejected_side_effect);
    reveal(options::language_override);
    reveal(options::argument_carrier);
    reveal(options::file_diagnostic);
    reveal_strlit("--coverage");
    bstr::lemma_ascii("--coverage"@);
    reveal_strlit("-coverage");
    bstr::lemma_ascii("-coverage"@);
    reveal_strlit("-p");
    bstr::lemma_ascii("-p"@);
    reveal_strlit("-pg");
    bstr::lemma_ascii("-pg"@);
    reveal_strlit("-fprofile-arcs");
    bstr::lemma_ascii("-fprofile-arcs"@);
    reveal_strlit("-ftest-coverage");
    bstr::lemma_ascii("-ftest-coverage"@);
    reveal_strlit("-fcondition-coverage");
    bstr::lemma_ascii("-fcondition-coverage"@);
    reveal_strlit("-fpath-coverage");
    bstr::lemma_ascii("-fpath-coverage"@);
    reveal_strlit("-fbranch-probabilities");
    bstr::lemma_ascii("-fbranch-probabilities"@);
    reveal_strlit("-x");
    bstr::lemma_ascii("-x"@);
    reveal_strlit("-Wp,");
    bstr::lemma_ascii("-Wp,"@);
    reveal_strlit("-Wa,");
    bstr::lemma_ascii("-Wa,"@);
    reveal_strlit("-Wl,");
    bstr::lemma_ascii("-Wl,"@);
    reveal_strlit("-Xpreprocessor=");
    bstr::lemma_ascii("-Xpreprocessor="@);
    reveal_strlit("-Xassembler=");
    bstr::lemma_ascii("-Xassembler="@);
    reveal_strlit("-Xlinker=");
    bstr::lemma_ascii("-Xlinker="@);
    reveal_strlit("-fprofile-");
    bstr::lemma_ascii("-fprofile-"@);
    reveal_strlit("-fauto-profile");
    bstr::lemma_ascii("-fauto-profile"@);
    reveal_strlit("-fprofile-sample-use");
    bstr::lemma_ascii("-fprofile-sample-use"@);
    reveal_strlit("-save-temps");
    bstr::lemma_ascii("-save-temps"@);
    reveal_strlit("-dump");
    bstr::lemma_ascii("-dump"@);
    reveal_strlit("-fdump-");
    bstr::lemma_ascii("-fdump-"@);
    reveal_strlit("-fopt-info");
    bstr::lemma_ascii("-fopt-info"@);
    reveal_strlit("-fsave-optimization-record");
    bstr::lemma_ascii("-fsave-optimization-record"@);
    reveal_strlit("-foptimization-record-file");
    bstr::lemma_ascii("-foptimization-record-file"@);
    reveal_strlit("-fdiagnostics-file=");
    bstr::lemma_ascii("-fdiagnostics-file="@);
    reveal_strlit("-fdiagnostics-add-output=");
    bstr::lemma_ascii("-fdiagnostics-add-output="@);
    reveal_strlit("-fdiagnostics-set-output=");
    bstr::lemma_ascii("-fdiagnostics-set-output="@);
    reveal_strlit("-fdiagnostics-format=sarif");
    bstr::lemma_ascii("-fdiagnostics-format=sarif"@);
    reveal_strlit("-ftime-report");
    bstr::lemma_ascii("-ftime-report"@);
    reveal_strlit("-fmem-report");
    bstr::lemma_ascii("-fmem-report"@);
    reveal_strlit("-fstack-usage");
    bstr::lemma_ascii("-fstack-usage"@);
    reveal_strlit("-fcallgraph-info");
    bstr::lemma_ascii("-fcallgraph-info"@);
    reveal_strlit("-fplugin");
    bstr::lemma_ascii("-fplugin"@);
    reveal_strlit("-specs");
    bstr::lemma_ascii("-specs"@);
    lemma_prefix(arg, bstr::utf8("-x"@));
    lemma_prefix(arg, bstr::utf8("-Wp,"@));
    lemma_prefix(arg, bstr::utf8("-Wa,"@));
    lemma_prefix(arg, bstr::utf8("-Wl,"@));
    lemma_prefix(arg, bstr::utf8("-Xpreprocessor="@));
    lemma_prefix(arg, bstr::utf8("-Xassembler="@));
    lemma_prefix(arg, bstr::utf8("-Xlinker="@));
    lemma_prefix(arg, bstr::utf8("-fprofile-"@));
    lemma_prefix(arg, bstr::utf8("-fauto-profile"@));
    lemma_prefix(arg, bstr::utf8("-fprofile-sample-use"@));
    lemma_prefix(arg, bstr::utf8("-save-temps"@));
    lemma_prefix(arg, bstr::utf8("-dump"@));
    lemma_prefix(arg, bstr::utf8("-fdump-"@));
    lemma_prefix(arg, bstr::utf8("-fopt-info"@));
    lemma_prefix(arg, bstr::utf8("-fsave-optimization-record"@));
    lemma_prefix(arg, bstr::utf8("-foptimization-record-file"@));
    lemma_prefix(arg, bstr::utf8("-fdiagnostics-file="@));
    lemma_prefix(arg, bstr::utf8("-fdiagnostics-add-output="@));
    lemma_prefix(arg, bstr::utf8("-fdiagnostics-set-output="@));
    lemma_prefix(arg, bstr::utf8("-fdiagnostics-format=sarif"@));
    lemma_prefix(arg, bstr::utf8("-ftime-report"@));
    lemma_prefix(arg, bstr::utf8("-fmem-report"@));
    lemma_prefix(arg, bstr::utf8("-fstack-usage"@));
    lemma_prefix(arg, bstr::utf8("-fcallgraph-info"@));
    lemma_prefix(arg, bstr::utf8("-fplugin"@));
    lemma_prefix(arg, bstr::utf8("-specs"@));
}

#[verifier::spinoff_prover]
proof fn lemma_shaped(arg: Seq<u8>)
    requires
        shaped(arg),
        options::safe_option(arg),
    ensures
        !gfortran::takes_value(arg),
        gfortran::alone(arg) == Directive::Supported(arg),
{
    lemma_takes_value(arg);
    lemma_rejected(arg);
    lemma_refused_shape(arg);
    reveal(gfortran::alone);
    reveal(options::safe_argument_carrier);
    reveal_strlit("--");
    bstr::lemma_ascii("--"@);
    reveal_strlit("-c");
    bstr::lemma_ascii("-c"@);
    reveal_strlit("-fsyntax-only");
    bstr::lemma_ascii("-fsyntax-only"@);
    reveal_strlit("-cpp");
    bstr::lemma_ascii("-cpp"@);
    reveal_strlit("-nocpp");
    bstr::lemma_ascii("-nocpp"@);
    reveal_strlit("-fpreprocessed");
    bstr::lemma_ascii("-fpreprocessed"@);
    reveal_strlit("-MD");
    bstr::lemma_ascii("-MD"@);
    reveal_strlit("-MMD");
    bstr::lemma_ascii("-MMD"@);
    reveal_strlit("-MP");
    bstr::lemma_ascii("-MP"@);
    reveal_strlit("-MG");
    bstr::lemma_ascii("-MG"@);
    reveal_strlit("-MT");
    bstr::lemma_ascii("-MT"@);
    reveal_strlit("-MQ");
    bstr::lemma_ascii("-MQ"@);
    reveal_strlit("-M");
    bstr::lemma_ascii("-M"@);
    reveal_strlit("-MM");
    bstr::lemma_ascii("-MM"@);
    reveal_strlit("-E");
    bstr::lemma_ascii("-E"@);
    reveal_strlit("-S");
    bstr::lemma_ascii("-S"@);
    reveal_strlit("-MF");
    bstr::lemma_ascii("-MF"@);
    reveal_strlit("-J");
    bstr::lemma_ascii("-J"@);
    reveal_strlit("-I");
    bstr::lemma_ascii("-I"@);
    reveal_strlit("-o");
    bstr::lemma_ascii("-o"@);
    reveal_strlit("-Wa,--noexecstack");
    bstr::lemma_ascii("-Wa,--noexecstack"@);
    reveal_strlit("-");
    bstr::lemma_ascii("-"@);
    lemma_prefix(arg, bstr::utf8("-MT"@));
    lemma_prefix(arg, bstr::utf8("-MQ"@));
    lemma_prefix(arg, bstr::utf8("-MF"@));
    lemma_prefix(arg, bstr::utf8("-J"@));
    lemma_prefix(arg, bstr::utf8("-I"@));
    lemma_prefix(arg, bstr::utf8("-o"@));
    lemma_prefix(arg, bstr::utf8("-"@));
    reveal_strlit("-fintrinsic-modules-path");
    bstr::lemma_ascii("-fintrinsic-modules-path"@);
    assert(!gfortran::takes_value(arg)) by {
        if arg[1] == 0x57 {
            reveal(gfortran::takes_value);
            reveal(options::separate_argument_carrier);
            reveal(options::separate_value_option);
            reveal_strlit("-MT");
            bstr::lemma_ascii("-MT"@);
            reveal_strlit("-MQ");
            bstr::lemma_ascii("-MQ"@);
            reveal_strlit("-o");
            bstr::lemma_ascii("-o"@);
            reveal_strlit("-J");
            bstr::lemma_ascii("-J"@);
            reveal_strlit("-I");
            bstr::lemma_ascii("-I"@);
            reveal_strlit("-MF");
            bstr::lemma_ascii("-MF"@);
            reveal_strlit("-x");
            bstr::lemma_ascii("-x"@);
            reveal_strlit("-Wp");
            bstr::lemma_ascii("-Wp"@);
            reveal_strlit("-Wa");
            bstr::lemma_ascii("-Wa"@);
            reveal_strlit("-Wl");
            bstr::lemma_ascii("-Wl"@);
            reveal_strlit("-Xpreprocessor");
            bstr::lemma_ascii("-Xpreprocessor"@);
            reveal_strlit("-Xassembler");
            bstr::lemma_ascii("-Xassembler"@);
            reveal_strlit("-Xlinker");
            bstr::lemma_ascii("-Xlinker"@);
            reveal_strlit("-D");
            bstr::lemma_ascii("-D"@);
            reveal_strlit("-U");
            bstr::lemma_ascii("-U"@);
            reveal_strlit("-include");
            bstr::lemma_ascii("-include"@);
            reveal_strlit("-imacros");
            bstr::lemma_ascii("-imacros"@);
            reveal_strlit("-isystem");
            bstr::lemma_ascii("-isystem"@);
            reveal_strlit("-isysroot");
            bstr::lemma_ascii("-isysroot"@);
            reveal_strlit("-iframework");
            bstr::lemma_ascii("-iframework"@);
            reveal_strlit("-iquote");
            bstr::lemma_ascii("-iquote"@);
            reveal_strlit("-idirafter");
            bstr::lemma_ascii("-idirafter"@);
            reveal_strlit("-F");
            bstr::lemma_ascii("-F"@);
            reveal_strlit("-fintrinsic-modules-path");
            bstr::lemma_ascii("-fintrinsic-modules-path"@);
        }
        if arg[1] == 0x66 {
            assert(bstr::utf8("-fintrinsic-modules-path"@)[3] == 0x6e);
            assert(bstr::utf8("-fintrinsic-modules-path"@)[4] == 0x74);
            assert(bstr::utf8("-fintrinsic-modules-path"@)[5] == 0x72);
        }
    }
    assert(bstr::utf8("-fsyntax-only"@)[3] == 0x79);
    assert(bstr::utf8("-fpreprocessed"@)[3] == 0x72);
    assert(bstr::utf8("-Wa,--noexecstack"@)[3] == 0x2c);
    assert(arg.take(1) =~= bstr::utf8("-"@));
}

#[verifier::spinoff_prover]
proof fn lemma_optimization_option(arg: Seq<u8>)
    requires
        optimization_option(arg),
    ensures
        shaped(arg),
        options::safe_option(arg),
{
    reveal(options::safe_option);
    reveal(options::safe_optimization_option);
    reveal_strlit("-O");
    bstr::lemma_ascii("-O"@);
    reveal_strlit("-O0");
    bstr::lemma_ascii("-O0"@);
    reveal_strlit("-O1");
    bstr::lemma_ascii("-O1"@);
    reveal_strlit("-O2");
    bstr::lemma_ascii("-O2"@);
    reveal_strlit("-O3");
    bstr::lemma_ascii("-O3"@);
    reveal_strlit("-Os");
    bstr::lemma_ascii("-Os"@);
    reveal_strlit("-Og");
    bstr::lemma_ascii("-Og"@);
    reveal_strlit("-Ofast");
    bstr::lemma_ascii("-Ofast"@);
    reveal_strlit("-Oz");
    bstr::lemma_ascii("-Oz"@);
}

#[verifier::spinoff_prover]
proof fn lemma_warning_option(arg: Seq<u8>)
    requires
        warning_option(arg),
    ensures
        shaped(arg),
        options::safe_option(arg),
{
    reveal(options::safe_option);
    reveal(options::safe_warning_option);
    reveal_strlit("-w");
    bstr::lemma_ascii("-w"@);
    reveal_strlit("-Wall");
    bstr::lemma_ascii("-Wall"@);
    reveal_strlit("-Wextra");
    bstr::lemma_ascii("-Wextra"@);
    reveal_strlit("-Werror");
    bstr::lemma_ascii("-Werror"@);
    reveal_strlit("-Wpedantic");
    bstr::lemma_ascii("-Wpedantic"@);
    reveal_strlit("-Wconversion");
    bstr::lemma_ascii("-Wconversion"@);
    reveal_strlit("-Wconversion-extra");
    bstr::lemma_ascii("-Wconversion-extra"@);
    reveal_strlit("-Wimplicit-interface");
    bstr::lemma_ascii("-Wimplicit-interface"@);
    reveal_strlit("-Wimplicit-procedure");
    bstr::lemma_ascii("-Wimplicit-procedure"@);
    reveal_strlit("-Winteger-division");
    bstr::lemma_ascii("-Winteger-division"@);
    reveal_strlit("-Wintrinsic-shadow");
    bstr::lemma_ascii("-Wintrinsic-shadow"@);
    reveal_strlit("-Wintrinsics-std");
    bstr::lemma_ascii("-Wintrinsics-std"@);
    reveal_strlit("-Wline-truncation");
    bstr::lemma_ascii("-Wline-truncation"@);
    reveal_strlit("-Wreal-q-constant");
    bstr::lemma_ascii("-Wreal-q-constant"@);
    reveal_strlit("-Wsurprising");
    bstr::lemma_ascii("-Wsurprising"@);
    reveal_strlit("-Wunderflow");
    bstr::lemma_ascii("-Wunderflow"@);
    reveal_strlit("-Warray-temporaries");
    bstr::lemma_ascii("-Warray-temporaries"@);
    reveal_strlit("-Wcharacter-truncation");
    bstr::lemma_ascii("-Wcharacter-truncation"@);
    reveal_strlit("-Wfunction-elimination");
    bstr::lemma_ascii("-Wfunction-elimination"@);
    reveal_strlit("-Wrealloc-lhs");
    bstr::lemma_ascii("-Wrealloc-lhs"@);
    reveal_strlit("-Wrealloc-lhs-all");
    bstr::lemma_ascii("-Wrealloc-lhs-all"@);
    reveal_strlit("-Wcompare-reals");
    bstr::lemma_ascii("-Wcompare-reals"@);
    reveal_strlit("-Wtarget-lifetime");
    bstr::lemma_ascii("-Wtarget-lifetime"@);
    reveal_strlit("-Wdo-subscript");
    bstr::lemma_ascii("-Wdo-subscript"@);
    reveal_strlit("-Wuse-without-only");
    bstr::lemma_ascii("-Wuse-without-only"@);
    reveal_strlit("-Wno-align-commons");
    bstr::lemma_ascii("-Wno-align-commons"@);
    reveal_strlit("-Wno-aliasing");
    bstr::lemma_ascii("-Wno-aliasing"@);
    reveal_strlit("-Wno-c-binding-type");
    bstr::lemma_ascii("-Wno-c-binding-type"@);
    reveal_strlit("-Wno-conversion");
    bstr::lemma_ascii("-Wno-conversion"@);
    reveal_strlit("-Wno-unused-dummy-argument");
    bstr::lemma_ascii("-Wno-unused-dummy-argument"@);
    reveal_strlit("-Wmaybe-uninitialized");
    bstr::lemma_ascii("-Wmaybe-uninitialized"@);
}

#[verifier::spinoff_prover]
proof fn lemma_fortran_option(arg: Seq<u8>)
    requires
        fortran_option(arg),
    ensures
        shaped(arg),
        options::safe_option(arg),
{
    reveal(options::safe_option);
    reveal(options::safe_fortran_option);
    reveal_strlit("-fall-intrinsics");
    bstr::lemma_ascii("-fall-intrinsics"@);
    reveal_strlit("-fbacktrace");
    bstr::lemma_ascii("-fbacktrace"@);
    reveal_strlit("-fbackslash");
    bstr::lemma_ascii("-fbackslash"@);
    reveal_strlit("-fbounds-check");
    bstr::lemma_ascii("-fbounds-check"@);
    reveal_strlit("-fcray-pointer");
    bstr::lemma_ascii("-fcray-pointer"@);
    reveal_strlit("-fd-lines-as-code");
    bstr::lemma_ascii("-fd-lines-as-code"@);
    reveal_strlit("-fd-lines-as-comments");
    bstr::lemma_ascii("-fd-lines-as-comments"@);
    reveal_strlit("-fdefault-double-8");
    bstr::lemma_ascii("-fdefault-double-8"@);
    reveal_strlit("-fdefault-integer-8");
    bstr::lemma_ascii("-fdefault-integer-8"@);
    reveal_strlit("-fdefault-real-8");
    bstr::lemma_ascii("-fdefault-real-8"@);
    reveal_strlit("-fdollar-ok");
    bstr::lemma_ascii("-fdollar-ok"@);
    reveal_strlit("-ffixed-form");
    bstr::lemma_ascii("-ffixed-form"@);
    reveal_strlit("-ffree-form");
    bstr::lemma_ascii("-ffree-form"@);
    reveal_strlit("-fimplicit-none");
    bstr::lemma_ascii("-fimplicit-none"@);
    reveal_strlit("-finteger-4-integer-8");
    bstr::lemma_ascii("-finteger-4-integer-8"@);
    reveal_strlit("-fmodule-private");
    bstr::lemma_ascii("-fmodule-private"@);
    reveal_strlit("-fno-align-commons");
    bstr::lemma_ascii("-fno-align-commons"@);
    reveal_strlit("-fno-backslash");
    bstr::lemma_ascii("-fno-backslash"@);
    reveal_strlit("-fno-backtrace");
    bstr::lemma_ascii("-fno-backtrace"@);
    reveal_strlit("-fno-f2c");
    bstr::lemma_ascii("-fno-f2c"@);
    reveal_strlit("-fno-range-check");
    bstr::lemma_ascii("-fno-range-check"@);
    reveal_strlit("-fno-realloc-lhs");
    bstr::lemma_ascii("-fno-realloc-lhs"@);
    reveal_strlit("-fno-second-underscore");
    bstr::lemma_ascii("-fno-second-underscore"@);
    reveal_strlit("-fno-underscoring");
    bstr::lemma_ascii("-fno-underscoring"@);
    reveal_strlit("-frange-check");
    bstr::lemma_ascii("-frange-check"@);
    reveal_strlit("-freal-4-real-8");
    bstr::lemma_ascii("-freal-4-real-8"@);
    reveal_strlit("-freal-4-real-10");
    bstr::lemma_ascii("-freal-4-real-10"@);
    reveal_strlit("-freal-4-real-16");
    bstr::lemma_ascii("-freal-4-real-16"@);
    reveal_strlit("-freal-8-real-4");
    bstr::lemma_ascii("-freal-8-real-4"@);
    reveal_strlit("-freal-8-real-10");
    bstr::lemma_ascii("-freal-8-real-10"@);
    reveal_strlit("-freal-8-real-16");
    bstr::lemma_ascii("-freal-8-real-16"@);
    reveal_strlit("-frecursive");
    bstr::lemma_ascii("-frecursive"@);
    reveal_strlit("-frepack-arrays");
    bstr::lemma_ascii("-frepack-arrays"@);
    reveal_strlit("-fsecond-underscore");
    bstr::lemma_ascii("-fsecond-underscore"@);
    reveal_strlit("-fstack-arrays");
    bstr::lemma_ascii("-fstack-arrays"@);
    reveal_strlit("-funderscoring");
    bstr::lemma_ascii("-funderscoring"@);
    reveal_strlit("-fwhole-file");
    bstr::lemma_ascii("-fwhole-file"@);
    reveal_strlit("-fPIC");
    bstr::lemma_ascii("-fPIC"@);
    reveal_strlit("-fpic");
    bstr::lemma_ascii("-fpic"@);
    reveal_strlit("-fPIE");
    bstr::lemma_ascii("-fPIE"@);
    reveal_strlit("-fpie");
    bstr::lemma_ascii("-fpie"@);
    reveal_strlit("-fno-pic");
    bstr::lemma_ascii("-fno-pic"@);
    reveal_strlit("-fno-PIC");
    bstr::lemma_ascii("-fno-PIC"@);
    reveal_strlit("-fno-pie");
    bstr::lemma_ascii("-fno-pie"@);
    reveal_strlit("-fno-PIE");
    bstr::lemma_ascii("-fno-PIE"@);
    reveal_strlit("-fopenmp");
    bstr::lemma_ascii("-fopenmp"@);
    reveal_strlit("-fopenacc");
    bstr::lemma_ascii("-fopenacc"@);
    reveal_strlit("-flto");
    bstr::lemma_ascii("-flto"@);
    reveal_strlit("-fno-lto");
    bstr::lemma_ascii("-fno-lto"@);
    reveal_strlit("-ffast-math");
    bstr::lemma_ascii("-ffast-math"@);
    reveal_strlit("-fno-fast-math");
    bstr::lemma_ascii("-fno-fast-math"@);
    reveal_strlit("-fdata-sections");
    bstr::lemma_ascii("-fdata-sections"@);
    reveal_strlit("-ffunction-sections");
    bstr::lemma_ascii("-ffunction-sections"@);
    reveal_strlit("-funroll-loops");
    bstr::lemma_ascii("-funroll-loops"@);
    reveal_strlit("-funroll-all-loops");
    bstr::lemma_ascii("-funroll-all-loops"@);
    reveal_strlit("-fno-unroll-loops");
    bstr::lemma_ascii("-fno-unroll-loops"@);
    reveal_strlit("-ftree-vectorize");
    bstr::lemma_ascii("-ftree-vectorize"@);
    reveal_strlit("-fno-tree-vectorize");
    bstr::lemma_ascii("-fno-tree-vectorize"@);
    reveal_strlit("-fomit-frame-pointer");
    bstr::lemma_ascii("-fomit-frame-pointer"@);
    reveal_strlit("-fno-omit-frame-pointer");
    bstr::lemma_ascii("-fno-omit-frame-pointer"@);
    reveal_strlit("-fwrapv");
    bstr::lemma_ascii("-fwrapv"@);
    reveal_strlit("-fno-wrapv");
    bstr::lemma_ascii("-fno-wrapv"@);
    reveal_strlit("-fvisibility=hidden");
    bstr::lemma_ascii("-fvisibility=hidden"@);
    reveal_strlit("-fblas-matmul-limit=");
    bstr::lemma_ascii("-fblas-matmul-limit="@);
    reveal_strlit("-fcheck=");
    bstr::lemma_ascii("-fcheck="@);
    reveal_strlit("-fcoarray=");
    bstr::lemma_ascii("-fcoarray="@);
    reveal_strlit("-fconvert=");
    bstr::lemma_ascii("-fconvert="@);
    reveal_strlit("-ffpe-summary=");
    bstr::lemma_ascii("-ffpe-summary="@);
    reveal_strlit("-ffile-prefix-map=");
    bstr::lemma_ascii("-ffile-prefix-map="@);
    reveal_strlit("-ffixed-line-length-");
    bstr::lemma_ascii("-ffixed-line-length-"@);
    reveal_strlit("-ffree-line-length-");
    bstr::lemma_ascii("-ffree-line-length-"@);
    reveal_strlit("-finline-limit=");
    bstr::lemma_ascii("-finline-limit="@);
    reveal_strlit("-fmax-identifier-length=");
    bstr::lemma_ascii("-fmax-identifier-length="@);
    reveal_strlit("-fmax-stack-var-size=");
    bstr::lemma_ascii("-fmax-stack-var-size="@);
    reveal_strlit("-fpack-derived=");
    bstr::lemma_ascii("-fpack-derived="@);
    reveal_strlit("-frecord-marker=");
    bstr::lemma_ascii("-frecord-marker="@);
    reveal_strlit("-frandom-seed=");
    bstr::lemma_ascii("-frandom-seed="@);
    lemma_prefix(arg, bstr::utf8("-fblas-matmul-limit="@));
    lemma_prefix(arg, bstr::utf8("-fcheck="@));
    lemma_prefix(arg, bstr::utf8("-fcoarray="@));
    lemma_prefix(arg, bstr::utf8("-fconvert="@));
    lemma_prefix(arg, bstr::utf8("-ffpe-summary="@));
    lemma_prefix(arg, bstr::utf8("-ffile-prefix-map="@));
    lemma_prefix(arg, bstr::utf8("-ffixed-line-length-"@));
    lemma_prefix(arg, bstr::utf8("-ffree-line-length-"@));
    lemma_prefix(arg, bstr::utf8("-finline-limit="@));
    lemma_prefix(arg, bstr::utf8("-fmax-identifier-length="@));
    lemma_prefix(arg, bstr::utf8("-fmax-stack-var-size="@));
    lemma_prefix(arg, bstr::utf8("-fpack-derived="@));
    lemma_prefix(arg, bstr::utf8("-frecord-marker="@));
    lemma_prefix(arg, bstr::utf8("-frandom-seed="@));
}

#[verifier::spinoff_prover]
proof fn lemma_machine_option(arg: Seq<u8>)
    requires
        machine_option(arg),
    ensures
        shaped(arg),
        options::safe_option(arg),
{
    reveal(options::safe_option);
    reveal(options::safe_machine_option);
    reveal_strlit("-m32");
    bstr::lemma_ascii("-m32"@);
    reveal_strlit("-m64");
    bstr::lemma_ascii("-m64"@);
    reveal_strlit("-mx32");
    bstr::lemma_ascii("-mx32"@);
    reveal_strlit("-msoft-float");
    bstr::lemma_ascii("-msoft-float"@);
    reveal_strlit("-mhard-float");
    bstr::lemma_ascii("-mhard-float"@);
    reveal_strlit("-march=");
    bstr::lemma_ascii("-march="@);
    reveal_strlit("-mcpu=");
    bstr::lemma_ascii("-mcpu="@);
    reveal_strlit("-mtune=");
    bstr::lemma_ascii("-mtune="@);
    reveal_strlit("-mfpu=");
    bstr::lemma_ascii("-mfpu="@);
    reveal_strlit("-mabi=");
    bstr::lemma_ascii("-mabi="@);
    reveal_strlit("-mmacosx-version-min=");
    bstr::lemma_ascii("-mmacosx-version-min="@);
    lemma_prefix(arg, bstr::utf8("-march="@));
    lemma_prefix(arg, bstr::utf8("-mcpu="@));
    lemma_prefix(arg, bstr::utf8("-mtune="@));
    lemma_prefix(arg, bstr::utf8("-mfpu="@));
    lemma_prefix(arg, bstr::utf8("-mabi="@));
    lemma_prefix(arg, bstr::utf8("-mmacosx-version-min="@));
}

#[verifier::spinoff_prover]
proof fn lemma_debug_option(arg: Seq<u8>)
    requires
        debug_option(arg),
    ensures
        shaped(arg),
        options::safe_option(arg),
{
    reveal(options::safe_option);
    reveal(options::safe_debug_option);
    reveal_strlit("-g");
    bstr::lemma_ascii("-g"@);
    reveal_strlit("-g0");
    bstr::lemma_ascii("-g0"@);
    reveal_strlit("-g1");
    bstr::lemma_ascii("-g1"@);
    reveal_strlit("-g2");
    bstr::lemma_ascii("-g2"@);
    reveal_strlit("-g3");
    bstr::lemma_ascii("-g3"@);
    reveal_strlit("-ggdb");
    bstr::lemma_ascii("-ggdb"@);
    reveal_strlit("-ggdb0");
    bstr::lemma_ascii("-ggdb0"@);
    reveal_strlit("-ggdb1");
    bstr::lemma_ascii("-ggdb1"@);
    reveal_strlit("-ggdb2");
    bstr::lemma_ascii("-ggdb2"@);
    reveal_strlit("-ggdb3");
    bstr::lemma_ascii("-ggdb3"@);
    reveal_strlit("-gdwarf");
    bstr::lemma_ascii("-gdwarf"@);
    reveal_strlit("-gdwarf-2");
    bstr::lemma_ascii("-gdwarf-2"@);
    reveal_strlit("-gdwarf-3");
    bstr::lemma_ascii("-gdwarf-3"@);
    reveal_strlit("-gdwarf-4");
    bstr::lemma_ascii("-gdwarf-4"@);
    reveal_strlit("-gdwarf-5");
    bstr::lemma_ascii("-gdwarf-5"@);
    reveal_strlit("-fdebug-prefix-map=");
    bstr::lemma_ascii("-fdebug-prefix-map="@);
    reveal_strlit("-fmacro-prefix-map=");
    bstr::lemma_ascii("-fmacro-prefix-map="@);
    lemma_prefix(arg, bstr::utf8("-fdebug-prefix-map="@));
    lemma_prefix(arg, bstr::utf8("-fmacro-prefix-map="@));
}

#[verifier::spinoff_prover]
proof fn lemma_sanitizer_option(arg: Seq<u8>)
    requires
        sanitizer_option(arg),
    ensures
        shaped(arg),
        options::safe_option(arg),
{
    reveal(options::safe_option);
    reveal(options::safe_instrumentation_option);
    reveal_strlit("-fsanitize=");
    bstr::lemma_ascii("-fsanitize="@);
    reveal_strlit("-fno-sanitize=");
    bstr::lemma_ascii("-fno-sanitize="@);
    reveal_strlit("-fsanitize-recover=");
    bstr::lemma_ascii("-fsanitize-recover="@);
    reveal_strlit("-fno-sanitize-recover=");
    bstr::lemma_ascii("-fno-sanitize-recover="@);
    lemma_prefix(arg, bstr::utf8("-fsanitize="@));
    lemma_prefix(arg, bstr::utf8("-fno-sanitize="@));
    lemma_prefix(arg, bstr::utf8("-fsanitize-recover="@));
    lemma_prefix(arg, bstr::utf8("-fno-sanitize-recover="@));
}

#[verifier::spinoff_prover]
proof fn lemma_general_option(arg: Seq<u8>)
    requires
        general_option(arg),
    ensures
        shaped(arg),
        options::safe_option(arg),
{
    reveal(options::safe_option);
    reveal_strlit("-pedantic");
    bstr::lemma_ascii("-pedantic"@);
    reveal_strlit("-pedantic-errors");
    bstr::lemma_ascii("-pedantic-errors"@);
    reveal_strlit("-traditional-cpp");
    bstr::lemma_ascii("-traditional-cpp"@);
    reveal_strlit("-undef");
    bstr::lemma_ascii("-undef"@);
    reveal_strlit("-P");
    bstr::lemma_ascii("-P"@);
    reveal_strlit("-std=f95");
    bstr::lemma_ascii("-std=f95"@);
    reveal_strlit("-std=f2003");
    bstr::lemma_ascii("-std=f2003"@);
    reveal_strlit("-std=f2008");
    bstr::lemma_ascii("-std=f2008"@);
    reveal_strlit("-std=f2008ts");
    bstr::lemma_ascii("-std=f2008ts"@);
    reveal_strlit("-std=f2018");
    bstr::lemma_ascii("-std=f2018"@);
    reveal_strlit("-std=f2023");
    bstr::lemma_ascii("-std=f2023"@);
    reveal_strlit("-std=gnu");
    bstr::lemma_ascii("-std=gnu"@);
    reveal_strlit("-std=legacy");
    bstr::lemma_ascii("-std=legacy"@);
}

proof fn lemma_supported(arg: Seq<u8>)
    requires
        supported_option(arg),
    ensures
        !gfortran::takes_value(arg),
        gfortran::alone(arg) == Directive::Supported(arg),
        arg.len() > 1 && arg[1] != 0x69 && arg[1] != 0x46,
        !bstr::has_prefix(arg, bstr::utf8("-fintrinsic-modules-path="@)),
{
    if optimization_option(arg) {
        lemma_optimization_option(arg);
    } else if warning_option(arg) {
        lemma_warning_option(arg);
    } else if fortran_option(arg) {
        lemma_fortran_option(arg);
    } else if machine_option(arg) {
        lemma_machine_option(arg);
    } else if debug_option(arg) {
        lemma_debug_option(arg);
    } else if sanitizer_option(arg) {
        lemma_sanitizer_option(arg);
    } else if general_option(arg) {
        lemma_general_option(arg);
    }
    lemma_shaped(arg);
    reveal_strlit("-fintrinsic-modules-path=");
    bstr::lemma_ascii("-fintrinsic-modules-path="@);
    lemma_prefix(arg, bstr::utf8("-fintrinsic-modules-path="@));
    let path = bstr::utf8("-fintrinsic-modules-path="@);
    assert(path[1] == 0x66 && path[2] == 0x69 && path[3] == 0x6e && path[4] == 0x74 && path[5]
        == 0x72);
}

#[verifier::spinoff_prover]
proof fn lemma_carrier_option(arg: Seq<u8>)
    requires
        carrier_option(arg),
    ensures
        !gfortran::takes_value(arg),
        gfortran::alone(arg) == Directive::Reject(BypassReason::<Seq<u8>>::ArgumentCarrier),
{
    lemma_takes_value(arg);
    reveal(gfortran::alone);
    reveal(gfortran::side_effect);
    reveal(options::safe_argument_carrier);
    reveal(options::rejected_side_effect);
    reveal(options::language_override);
    reveal(options::argument_carrier);
    reveal(options::file_diagnostic);
    reveal_strlit("--");
    bstr::lemma_ascii("--"@);
    reveal_strlit("-c");
    bstr::lemma_ascii("-c"@);
    reveal_strlit("-fsyntax-only");
    bstr::lemma_ascii("-fsyntax-only"@);
    reveal_strlit("-cpp");
    bstr::lemma_ascii("-cpp"@);
    reveal_strlit("-nocpp");
    bstr::lemma_ascii("-nocpp"@);
    reveal_strlit("-fpreprocessed");
    bstr::lemma_ascii("-fpreprocessed"@);
    reveal_strlit("-MD");
    bstr::lemma_ascii("-MD"@);
    reveal_strlit("-MMD");
    bstr::lemma_ascii("-MMD"@);
    reveal_strlit("-MP");
    bstr::lemma_ascii("-MP"@);
    reveal_strlit("-MG");
    bstr::lemma_ascii("-MG"@);
    reveal_strlit("-MT");
    bstr::lemma_ascii("-MT"@);
    reveal_strlit("-MQ");
    bstr::lemma_ascii("-MQ"@);
    reveal_strlit("-M");
    bstr::lemma_ascii("-M"@);
    reveal_strlit("-MM");
    bstr::lemma_ascii("-MM"@);
    reveal_strlit("-E");
    bstr::lemma_ascii("-E"@);
    reveal_strlit("-S");
    bstr::lemma_ascii("-S"@);
    reveal_strlit("-MF");
    bstr::lemma_ascii("-MF"@);
    reveal_strlit("-J");
    bstr::lemma_ascii("-J"@);
    reveal_strlit("-I");
    bstr::lemma_ascii("-I"@);
    reveal_strlit("-o");
    bstr::lemma_ascii("-o"@);
    reveal_strlit("-Wa,--noexecstack");
    bstr::lemma_ascii("-Wa,--noexecstack"@);
    reveal_strlit("-");
    bstr::lemma_ascii("-"@);
    reveal_strlit("-x");
    bstr::lemma_ascii("-x"@);
    reveal_strlit("-Wp,");
    bstr::lemma_ascii("-Wp,"@);
    reveal_strlit("-Wa,");
    bstr::lemma_ascii("-Wa,"@);
    reveal_strlit("-Wl,");
    bstr::lemma_ascii("-Wl,"@);
    reveal_strlit("-Xpreprocessor=");
    bstr::lemma_ascii("-Xpreprocessor="@);
    reveal_strlit("-Xassembler=");
    bstr::lemma_ascii("-Xassembler="@);
    reveal_strlit("-Xlinker=");
    bstr::lemma_ascii("-Xlinker="@);
    reveal_strlit("-fauto-profile");
    bstr::lemma_ascii("-fauto-profile"@);
    reveal_strlit("-fprofile-sample-use");
    bstr::lemma_ascii("-fprofile-sample-use"@);
    reveal_strlit("-fsave-optimization-record");
    bstr::lemma_ascii("-fsave-optimization-record"@);
    reveal_strlit("-foptimization-record-file");
    bstr::lemma_ascii("-foptimization-record-file"@);
    reveal_strlit("-fdiagnostics-file=");
    bstr::lemma_ascii("-fdiagnostics-file="@);
    reveal_strlit("-fdiagnostics-add-output=");
    bstr::lemma_ascii("-fdiagnostics-add-output="@);
    reveal_strlit("-fdiagnostics-set-output=");
    bstr::lemma_ascii("-fdiagnostics-set-output="@);
    reveal_strlit("-fdiagnostics-format=sarif");
    bstr::lemma_ascii("-fdiagnostics-format=sarif"@);
    reveal_strlit("-save-temps");
    bstr::lemma_ascii("-save-temps"@);
    reveal_strlit("-dump");
    bstr::lemma_ascii("-dump"@);
    reveal_strlit("-fdump-");
    bstr::lemma_ascii("-fdump-"@);
    reveal_strlit("-fopt-info");
    bstr::lemma_ascii("-fopt-info"@);
    reveal_strlit("-ftime-report");
    bstr::lemma_ascii("-ftime-report"@);
    reveal_strlit("-fmem-report");
    bstr::lemma_ascii("-fmem-report"@);
    reveal_strlit("-fstack-usage");
    bstr::lemma_ascii("-fstack-usage"@);
    reveal_strlit("-fcallgraph-info");
    bstr::lemma_ascii("-fcallgraph-info"@);
    reveal_strlit("-fplugin");
    bstr::lemma_ascii("-fplugin"@);
    reveal_strlit("-specs");
    bstr::lemma_ascii("-specs"@);
    reveal_strlit("-fprofile-");
    bstr::lemma_ascii("-fprofile-"@);
    lemma_prefix(arg, bstr::utf8("-MT"@));
    lemma_prefix(arg, bstr::utf8("-MQ"@));
    lemma_prefix(arg, bstr::utf8("-MF"@));
    lemma_prefix(arg, bstr::utf8("-J"@));
    lemma_prefix(arg, bstr::utf8("-I"@));
    lemma_prefix(arg, bstr::utf8("-o"@));
    lemma_prefix(arg, bstr::utf8("-"@));
    lemma_prefix(arg, bstr::utf8("-x"@));
    lemma_prefix(arg, bstr::utf8("-Wp,"@));
    lemma_prefix(arg, bstr::utf8("-Wa,"@));
    lemma_prefix(arg, bstr::utf8("-Wl,"@));
    lemma_prefix(arg, bstr::utf8("-Xpreprocessor="@));
    lemma_prefix(arg, bstr::utf8("-Xassembler="@));
    lemma_prefix(arg, bstr::utf8("-Xlinker="@));
    lemma_prefix(arg, bstr::utf8("-fauto-profile"@));
    lemma_prefix(arg, bstr::utf8("-fprofile-sample-use"@));
    lemma_prefix(arg, bstr::utf8("-fsave-optimization-record"@));
    lemma_prefix(arg, bstr::utf8("-foptimization-record-file"@));
    lemma_prefix(arg, bstr::utf8("-fdiagnostics-file="@));
    lemma_prefix(arg, bstr::utf8("-fdiagnostics-add-output="@));
    lemma_prefix(arg, bstr::utf8("-fdiagnostics-set-output="@));
    lemma_prefix(arg, bstr::utf8("-fdiagnostics-format=sarif"@));
    lemma_prefix(arg, bstr::utf8("-save-temps"@));
    lemma_prefix(arg, bstr::utf8("-dump"@));
    lemma_prefix(arg, bstr::utf8("-fdump-"@));
    lemma_prefix(arg, bstr::utf8("-fopt-info"@));
    lemma_prefix(arg, bstr::utf8("-ftime-report"@));
    lemma_prefix(arg, bstr::utf8("-fmem-report"@));
    lemma_prefix(arg, bstr::utf8("-fstack-usage"@));
    lemma_prefix(arg, bstr::utf8("-fcallgraph-info"@));
    lemma_prefix(arg, bstr::utf8("-fplugin"@));
    lemma_prefix(arg, bstr::utf8("-specs"@));
    lemma_prefix(arg, bstr::utf8("-fprofile-"@));
    assert((arg[1] == 0x57 && arg[2] == 0x70 && arg[3] == 0x2c) || (arg[1] == 0x57 && arg[2] == 0x61 && arg[3] == 0x2c) || (arg[1] == 0x57 && arg[2] == 0x6c && arg[3] == 0x2c) || (arg[1] == 0x58 && arg[2] == 0x70 && arg[3] == 0x72 && arg[4] == 0x65 && arg[5] == 0x70 && arg[6] == 0x72 && arg[7] == 0x6f && arg[8] == 0x63 && arg[9] == 0x65) || (arg[1] == 0x58 && arg[2] == 0x61 && arg[3] == 0x73 && arg[4] == 0x73 && arg[5] == 0x65 && arg[6] == 0x6d && arg[7] == 0x62 && arg[8] == 0x6c && arg[9] == 0x65) || (arg[1] == 0x58 && arg[2] == 0x6c && arg[3] == 0x69 && arg[4] == 0x6e && arg[5] == 0x6b && arg[6] == 0x65 && arg[7] == 0x72 && arg[8] == 0x3d));
    assert(arg[3] == 0x2c || arg[1] == 0x58);
    assert(!gfortran::takes_value(arg)) by {
        reveal(gfortran::takes_value);
        reveal(options::separate_argument_carrier);
        reveal(options::separate_value_option);
        reveal_strlit("-MT");
        bstr::lemma_ascii("-MT"@);
        reveal_strlit("-MQ");
        bstr::lemma_ascii("-MQ"@);
        reveal_strlit("-o");
        bstr::lemma_ascii("-o"@);
        reveal_strlit("-J");
        bstr::lemma_ascii("-J"@);
        reveal_strlit("-I");
        bstr::lemma_ascii("-I"@);
        reveal_strlit("-MF");
        bstr::lemma_ascii("-MF"@);
        reveal_strlit("-x");
        bstr::lemma_ascii("-x"@);
        reveal_strlit("-Wp");
        bstr::lemma_ascii("-Wp"@);
        reveal_strlit("-Wa");
        bstr::lemma_ascii("-Wa"@);
        reveal_strlit("-Wl");
        bstr::lemma_ascii("-Wl"@);
        reveal_strlit("-Xpreprocessor");
        bstr::lemma_ascii("-Xpreprocessor"@);
        reveal_strlit("-Xassembler");
        bstr::lemma_ascii("-Xassembler"@);
        reveal_strlit("-Xlinker");
        bstr::lemma_ascii("-Xlinker"@);
        reveal_strlit("-D");
        bstr::lemma_ascii("-D"@);
        reveal_strlit("-U");
        bstr::lemma_ascii("-U"@);
        reveal_strlit("-include");
        bstr::lemma_ascii("-include"@);
        reveal_strlit("-imacros");
        bstr::lemma_ascii("-imacros"@);
        reveal_strlit("-isystem");
        bstr::lemma_ascii("-isystem"@);
        reveal_strlit("-isysroot");
        bstr::lemma_ascii("-isysroot"@);
        reveal_strlit("-iframework");
        bstr::lemma_ascii("-iframework"@);
        reveal_strlit("-iquote");
        bstr::lemma_ascii("-iquote"@);
        reveal_strlit("-idirafter");
        bstr::lemma_ascii("-idirafter"@);
        reveal_strlit("-F");
        bstr::lemma_ascii("-F"@);
        reveal_strlit("-fintrinsic-modules-path");
        bstr::lemma_ascii("-fintrinsic-modules-path"@);
        assert(arg.len() > 3);
        if arg[1] == 0x58 {
            assert(bstr::utf8("-Xpreprocessor="@).len() == 15 && bstr::utf8("-Xassembler="@).len()
                == 12 && bstr::utf8("-Xlinker="@).len() == 9);
            assert(bstr::utf8("-Xpreprocessor"@)[2] == 0x70 && bstr::utf8("-Xassembler"@)[2] == 0x61
                && bstr::utf8("-Xlinker"@)[2] == 0x6c);
        }
    }
}

#[verifier::spinoff_prover]
proof fn lemma_auto_profile_option(arg: Seq<u8>)
    requires
        auto_profile_option(arg),
    ensures
        !gfortran::takes_value(arg),
        gfortran::alone(arg) == Directive::Reject(BypassReason::<Seq<u8>>::AutoFdo),
{
    lemma_takes_value(arg);
    reveal(gfortran::alone);
    reveal(gfortran::side_effect);
    reveal(options::safe_argument_carrier);
    reveal(options::rejected_side_effect);
    reveal(options::language_override);
    reveal(options::argument_carrier);
    reveal(options::file_diagnostic);
    reveal_strlit("--");
    bstr::lemma_ascii("--"@);
    reveal_strlit("-c");
    bstr::lemma_ascii("-c"@);
    reveal_strlit("-fsyntax-only");
    bstr::lemma_ascii("-fsyntax-only"@);
    reveal_strlit("-cpp");
    bstr::lemma_ascii("-cpp"@);
    reveal_strlit("-nocpp");
    bstr::lemma_ascii("-nocpp"@);
    reveal_strlit("-fpreprocessed");
    bstr::lemma_ascii("-fpreprocessed"@);
    reveal_strlit("-MD");
    bstr::lemma_ascii("-MD"@);
    reveal_strlit("-MMD");
    bstr::lemma_ascii("-MMD"@);
    reveal_strlit("-MP");
    bstr::lemma_ascii("-MP"@);
    reveal_strlit("-MG");
    bstr::lemma_ascii("-MG"@);
    reveal_strlit("-MT");
    bstr::lemma_ascii("-MT"@);
    reveal_strlit("-MQ");
    bstr::lemma_ascii("-MQ"@);
    reveal_strlit("-M");
    bstr::lemma_ascii("-M"@);
    reveal_strlit("-MM");
    bstr::lemma_ascii("-MM"@);
    reveal_strlit("-E");
    bstr::lemma_ascii("-E"@);
    reveal_strlit("-S");
    bstr::lemma_ascii("-S"@);
    reveal_strlit("-MF");
    bstr::lemma_ascii("-MF"@);
    reveal_strlit("-J");
    bstr::lemma_ascii("-J"@);
    reveal_strlit("-I");
    bstr::lemma_ascii("-I"@);
    reveal_strlit("-o");
    bstr::lemma_ascii("-o"@);
    reveal_strlit("-Wa,--noexecstack");
    bstr::lemma_ascii("-Wa,--noexecstack"@);
    reveal_strlit("-");
    bstr::lemma_ascii("-"@);
    reveal_strlit("-x");
    bstr::lemma_ascii("-x"@);
    reveal_strlit("-Wp,");
    bstr::lemma_ascii("-Wp,"@);
    reveal_strlit("-Wa,");
    bstr::lemma_ascii("-Wa,"@);
    reveal_strlit("-Wl,");
    bstr::lemma_ascii("-Wl,"@);
    reveal_strlit("-Xpreprocessor=");
    bstr::lemma_ascii("-Xpreprocessor="@);
    reveal_strlit("-Xassembler=");
    bstr::lemma_ascii("-Xassembler="@);
    reveal_strlit("-Xlinker=");
    bstr::lemma_ascii("-Xlinker="@);
    reveal_strlit("-fauto-profile");
    bstr::lemma_ascii("-fauto-profile"@);
    reveal_strlit("-fprofile-sample-use");
    bstr::lemma_ascii("-fprofile-sample-use"@);
    reveal_strlit("-fsave-optimization-record");
    bstr::lemma_ascii("-fsave-optimization-record"@);
    reveal_strlit("-foptimization-record-file");
    bstr::lemma_ascii("-foptimization-record-file"@);
    reveal_strlit("-fdiagnostics-file=");
    bstr::lemma_ascii("-fdiagnostics-file="@);
    reveal_strlit("-fdiagnostics-add-output=");
    bstr::lemma_ascii("-fdiagnostics-add-output="@);
    reveal_strlit("-fdiagnostics-set-output=");
    bstr::lemma_ascii("-fdiagnostics-set-output="@);
    reveal_strlit("-fdiagnostics-format=sarif");
    bstr::lemma_ascii("-fdiagnostics-format=sarif"@);
    reveal_strlit("-save-temps");
    bstr::lemma_ascii("-save-temps"@);
    reveal_strlit("-dump");
    bstr::lemma_ascii("-dump"@);
    reveal_strlit("-fdump-");
    bstr::lemma_ascii("-fdump-"@);
    reveal_strlit("-fopt-info");
    bstr::lemma_ascii("-fopt-info"@);
    reveal_strlit("-ftime-report");
    bstr::lemma_ascii("-ftime-report"@);
    reveal_strlit("-fmem-report");
    bstr::lemma_ascii("-fmem-report"@);
    reveal_strlit("-fstack-usage");
    bstr::lemma_ascii("-fstack-usage"@);
    reveal_strlit("-fcallgraph-info");
    bstr::lemma_ascii("-fcallgraph-info"@);
    reveal_strlit("-fplugin");
    bstr::lemma_ascii("-fplugin"@);
    reveal_strlit("-specs");
    bstr::lemma_ascii("-specs"@);
    reveal_strlit("-fprofile-");
    bstr::lemma_ascii("-fprofile-"@);
    lemma_prefix(arg, bstr::utf8("-MT"@));
    lemma_prefix(arg, bstr::utf8("-MQ"@));
    lemma_prefix(arg, bstr::utf8("-MF"@));
    lemma_prefix(arg, bstr::utf8("-J"@));
    lemma_prefix(arg, bstr::utf8("-I"@));
    lemma_prefix(arg, bstr::utf8("-o"@));
    lemma_prefix(arg, bstr::utf8("-"@));
    lemma_prefix(arg, bstr::utf8("-x"@));
    lemma_prefix(arg, bstr::utf8("-Wp,"@));
    lemma_prefix(arg, bstr::utf8("-Wa,"@));
    lemma_prefix(arg, bstr::utf8("-Wl,"@));
    lemma_prefix(arg, bstr::utf8("-Xpreprocessor="@));
    lemma_prefix(arg, bstr::utf8("-Xassembler="@));
    lemma_prefix(arg, bstr::utf8("-Xlinker="@));
    lemma_prefix(arg, bstr::utf8("-fauto-profile"@));
    lemma_prefix(arg, bstr::utf8("-fprofile-sample-use"@));
    lemma_prefix(arg, bstr::utf8("-fsave-optimization-record"@));
    lemma_prefix(arg, bstr::utf8("-foptimization-record-file"@));
    lemma_prefix(arg, bstr::utf8("-fdiagnostics-file="@));
    lemma_prefix(arg, bstr::utf8("-fdiagnostics-add-output="@));
    lemma_prefix(arg, bstr::utf8("-fdiagnostics-set-output="@));
    lemma_prefix(arg, bstr::utf8("-fdiagnostics-format=sarif"@));
    lemma_prefix(arg, bstr::utf8("-save-temps"@));
    lemma_prefix(arg, bstr::utf8("-dump"@));
    lemma_prefix(arg, bstr::utf8("-fdump-"@));
    lemma_prefix(arg, bstr::utf8("-fopt-info"@));
    lemma_prefix(arg, bstr::utf8("-ftime-report"@));
    lemma_prefix(arg, bstr::utf8("-fmem-report"@));
    lemma_prefix(arg, bstr::utf8("-fstack-usage"@));
    lemma_prefix(arg, bstr::utf8("-fcallgraph-info"@));
    lemma_prefix(arg, bstr::utf8("-fplugin"@));
    lemma_prefix(arg, bstr::utf8("-specs"@));
    lemma_prefix(arg, bstr::utf8("-fprofile-"@));
    assert((arg[1] == 0x66 && arg[2] == 0x61 && arg[3] == 0x75 && arg[4] == 0x74 && arg[5] == 0x6f && arg[6] == 0x2d && arg[7] == 0x70 && arg[8] == 0x72 && arg[9] == 0x6f) || (arg[1] == 0x66 && arg[2] == 0x70 && arg[3] == 0x72 && arg[4] == 0x6f && arg[5] == 0x66 && arg[6] == 0x69 && arg[7] == 0x6c && arg[8] == 0x65 && arg[9] == 0x2d));
}

#[verifier::spinoff_prover]
proof fn lemma_record_option(arg: Seq<u8>)
    requires
        record_option(arg),
    ensures
        !gfortran::takes_value(arg),
        gfortran::alone(arg) == Directive::Reject(BypassReason::<Seq<u8>>::OptimizationRecord),
{
    lemma_takes_value(arg);
    reveal(gfortran::alone);
    reveal(gfortran::side_effect);
    reveal(options::safe_argument_carrier);
    reveal(options::rejected_side_effect);
    reveal(options::language_override);
    reveal(options::argument_carrier);
    reveal(options::file_diagnostic);
    reveal_strlit("--");
    bstr::lemma_ascii("--"@);
    reveal_strlit("-c");
    bstr::lemma_ascii("-c"@);
    reveal_strlit("-fsyntax-only");
    bstr::lemma_ascii("-fsyntax-only"@);
    reveal_strlit("-cpp");
    bstr::lemma_ascii("-cpp"@);
    reveal_strlit("-nocpp");
    bstr::lemma_ascii("-nocpp"@);
    reveal_strlit("-fpreprocessed");
    bstr::lemma_ascii("-fpreprocessed"@);
    reveal_strlit("-MD");
    bstr::lemma_ascii("-MD"@);
    reveal_strlit("-MMD");
    bstr::lemma_ascii("-MMD"@);
    reveal_strlit("-MP");
    bstr::lemma_ascii("-MP"@);
    reveal_strlit("-MG");
    bstr::lemma_ascii("-MG"@);
    reveal_strlit("-MT");
    bstr::lemma_ascii("-MT"@);
    reveal_strlit("-MQ");
    bstr::lemma_ascii("-MQ"@);
    reveal_strlit("-M");
    bstr::lemma_ascii("-M"@);
    reveal_strlit("-MM");
    bstr::lemma_ascii("-MM"@);
    reveal_strlit("-E");
    bstr::lemma_ascii("-E"@);
    reveal_strlit("-S");
    bstr::lemma_ascii("-S"@);
    reveal_strlit("-MF");
    bstr::lemma_ascii("-MF"@);
    reveal_strlit("-J");
    bstr::lemma_ascii("-J"@);
    reveal_strlit("-I");
    bstr::lemma_ascii("-I"@);
    reveal_strlit("-o");
    bstr::lemma_ascii("-o"@);
    reveal_strlit("-Wa,--noexecstack");
    bstr::lemma_ascii("-Wa,--noexecstack"@);
    reveal_strlit("-");
    bstr::lemma_ascii("-"@);
    reveal_strlit("-x");
    bstr::lemma_ascii("-x"@);
    reveal_strlit("-Wp,");
    bstr::lemma_ascii("-Wp,"@);
    reveal_strlit("-Wa,");
    bstr::lemma_ascii("-Wa,"@);
    reveal_strlit("-Wl,");
    bstr::lemma_ascii("-Wl,"@);
    reveal_strlit("-Xpreprocessor=");
    bstr::lemma_ascii("-Xpreprocessor="@);
    reveal_strlit("-Xassembler=");
    bstr::lemma_ascii("-Xassembler="@);
    reveal_strlit("-Xlinker=");
    bstr::lemma_ascii("-Xlinker="@);
    reveal_strlit("-fauto-profile");
    bstr::lemma_ascii("-fauto-profile"@);
    reveal_strlit("-fprofile-sample-use");
    bstr::lemma_ascii("-fprofile-sample-use"@);
    reveal_strlit("-fsave-optimization-record");
    bstr::lemma_ascii("-fsave-optimization-record"@);
    reveal_strlit("-foptimization-record-file");
    bstr::lemma_ascii("-foptimization-record-file"@);
    reveal_strlit("-fdiagnostics-file=");
    bstr::lemma_ascii("-fdiagnostics-file="@);
    reveal_strlit("-fdiagnostics-add-output=");
    bstr::lemma_ascii("-fdiagnostics-add-output="@);
    reveal_strlit("-fdiagnostics-set-output=");
    bstr::lemma_ascii("-fdiagnostics-set-output="@);
    reveal_strlit("-fdiagnostics-format=sarif");
    bstr::lemma_ascii("-fdiagnostics-format=sarif"@);
    reveal_strlit("-save-temps");
    bstr::lemma_ascii("-save-temps"@);
    reveal_strlit("-dump");
    bstr::lemma_ascii("-dump"@);
    reveal_strlit("-fdump-");
    bstr::lemma_ascii("-fdump-"@);
    reveal_strlit("-fopt-info");
    bstr::lemma_ascii("-fopt-info"@);
    reveal_strlit("-ftime-report");
    bstr::lemma_ascii("-ftime-report"@);
    reveal_strlit("-fmem-report");
    bstr::lemma_ascii("-fmem-report"@);
    reveal_strlit("-fstack-usage");
    bstr::lemma_ascii("-fstack-usage"@);
    reveal_strlit("-fcallgraph-info");
    bstr::lemma_ascii("-fcallgraph-info"@);
    reveal_strlit("-fplugin");
    bstr::lemma_ascii("-fplugin"@);
    reveal_strlit("-specs");
    bstr::lemma_ascii("-specs"@);
    reveal_strlit("-fprofile-");
    bstr::lemma_ascii("-fprofile-"@);
    lemma_prefix(arg, bstr::utf8("-MT"@));
    lemma_prefix(arg, bstr::utf8("-MQ"@));
    lemma_prefix(arg, bstr::utf8("-MF"@));
    lemma_prefix(arg, bstr::utf8("-J"@));
    lemma_prefix(arg, bstr::utf8("-I"@));
    lemma_prefix(arg, bstr::utf8("-o"@));
    lemma_prefix(arg, bstr::utf8("-"@));
    lemma_prefix(arg, bstr::utf8("-x"@));
    lemma_prefix(arg, bstr::utf8("-Wp,"@));
    lemma_prefix(arg, bstr::utf8("-Wa,"@));
    lemma_prefix(arg, bstr::utf8("-Wl,"@));
    lemma_prefix(arg, bstr::utf8("-Xpreprocessor="@));
    lemma_prefix(arg, bstr::utf8("-Xassembler="@));
    lemma_prefix(arg, bstr::utf8("-Xlinker="@));
    lemma_prefix(arg, bstr::utf8("-fauto-profile"@));
    lemma_prefix(arg, bstr::utf8("-fprofile-sample-use"@));
    lemma_prefix(arg, bstr::utf8("-fsave-optimization-record"@));
    lemma_prefix(arg, bstr::utf8("-foptimization-record-file"@));
    lemma_prefix(arg, bstr::utf8("-fdiagnostics-file="@));
    lemma_prefix(arg, bstr::utf8("-fdiagnostics-add-output="@));
    lemma_prefix(arg, bstr::utf8("-fdiagnostics-set-output="@));
    lemma_prefix(arg, bstr::utf8("-fdiagnostics-format=sarif"@));
    lemma_prefix(arg, bstr::utf8("-save-temps"@));
    lemma_prefix(arg, bstr::utf8("-dump"@));
    lemma_prefix(arg, bstr::utf8("-fdump-"@));
    lemma_prefix(arg, bstr::utf8("-fopt-info"@));
    lemma_prefix(arg, bstr::utf8("-ftime-report"@));
    lemma_prefix(arg, bstr::utf8("-fmem-report"@));
    lemma_prefix(arg, bstr::utf8("-fstack-usage"@));
    lemma_prefix(arg, bstr::utf8("-fcallgraph-info"@));
    lemma_prefix(arg, bstr::utf8("-fplugin"@));
    lemma_prefix(arg, bstr::utf8("-specs"@));
    lemma_prefix(arg, bstr::utf8("-fprofile-"@));
    assert((arg[1] == 0x66 && arg[2] == 0x73 && arg[3] == 0x61 && arg[4] == 0x76 && arg[5] == 0x65 && arg[6] == 0x2d && arg[7] == 0x6f && arg[8] == 0x70 && arg[9] == 0x74) || (arg[1] == 0x66 && arg[2] == 0x6f && arg[3] == 0x70 && arg[4] == 0x74 && arg[5] == 0x69 && arg[6] == 0x6d && arg[7] == 0x69 && arg[8] == 0x7a && arg[9] == 0x61));
}

#[verifier::spinoff_prover]
proof fn lemma_diagnostic_option(arg: Seq<u8>)
    requires
        diagnostic_option(arg),
    ensures
        !gfortran::takes_value(arg),
        gfortran::alone(arg) == Directive::Reject(BypassReason::<Seq<u8>>::FileDiagnostic),
{
    lemma_takes_value(arg);
    reveal(gfortran::alone);
    reveal(gfortran::side_effect);
    reveal(options::safe_argument_carrier);
    reveal(options::rejected_side_effect);
    reveal(options::language_override);
    reveal(options::argument_carrier);
    reveal(options::file_diagnostic);
    reveal_strlit("--");
    bstr::lemma_ascii("--"@);
    reveal_strlit("-c");
    bstr::lemma_ascii("-c"@);
    reveal_strlit("-fsyntax-only");
    bstr::lemma_ascii("-fsyntax-only"@);
    reveal_strlit("-cpp");
    bstr::lemma_ascii("-cpp"@);
    reveal_strlit("-nocpp");
    bstr::lemma_ascii("-nocpp"@);
    reveal_strlit("-fpreprocessed");
    bstr::lemma_ascii("-fpreprocessed"@);
    reveal_strlit("-MD");
    bstr::lemma_ascii("-MD"@);
    reveal_strlit("-MMD");
    bstr::lemma_ascii("-MMD"@);
    reveal_strlit("-MP");
    bstr::lemma_ascii("-MP"@);
    reveal_strlit("-MG");
    bstr::lemma_ascii("-MG"@);
    reveal_strlit("-MT");
    bstr::lemma_ascii("-MT"@);
    reveal_strlit("-MQ");
    bstr::lemma_ascii("-MQ"@);
    reveal_strlit("-M");
    bstr::lemma_ascii("-M"@);
    reveal_strlit("-MM");
    bstr::lemma_ascii("-MM"@);
    reveal_strlit("-E");
    bstr::lemma_ascii("-E"@);
    reveal_strlit("-S");
    bstr::lemma_ascii("-S"@);
    reveal_strlit("-MF");
    bstr::lemma_ascii("-MF"@);
    reveal_strlit("-J");
    bstr::lemma_ascii("-J"@);
    reveal_strlit("-I");
    bstr::lemma_ascii("-I"@);
    reveal_strlit("-o");
    bstr::lemma_ascii("-o"@);
    reveal_strlit("-Wa,--noexecstack");
    bstr::lemma_ascii("-Wa,--noexecstack"@);
    reveal_strlit("-");
    bstr::lemma_ascii("-"@);
    reveal_strlit("-x");
    bstr::lemma_ascii("-x"@);
    reveal_strlit("-Wp,");
    bstr::lemma_ascii("-Wp,"@);
    reveal_strlit("-Wa,");
    bstr::lemma_ascii("-Wa,"@);
    reveal_strlit("-Wl,");
    bstr::lemma_ascii("-Wl,"@);
    reveal_strlit("-Xpreprocessor=");
    bstr::lemma_ascii("-Xpreprocessor="@);
    reveal_strlit("-Xassembler=");
    bstr::lemma_ascii("-Xassembler="@);
    reveal_strlit("-Xlinker=");
    bstr::lemma_ascii("-Xlinker="@);
    reveal_strlit("-fauto-profile");
    bstr::lemma_ascii("-fauto-profile"@);
    reveal_strlit("-fprofile-sample-use");
    bstr::lemma_ascii("-fprofile-sample-use"@);
    reveal_strlit("-fsave-optimization-record");
    bstr::lemma_ascii("-fsave-optimization-record"@);
    reveal_strlit("-foptimization-record-file");
    bstr::lemma_ascii("-foptimization-record-file"@);
    reveal_strlit("-fdiagnostics-file=");
    bstr::lemma_ascii("-fdiagnostics-file="@);
    reveal_strlit("-fdiagnostics-add-output=");
    bstr::lemma_ascii("-fdiagnostics-add-output="@);
    reveal_strlit("-fdiagnostics-set-output=");
    bstr::lemma_ascii("-fdiagnostics-set-output="@);
    reveal_strlit("-fdiagnostics-format=sarif");
    bstr::lemma_ascii("-fdiagnostics-format=sarif"@);
    reveal_strlit("-save-temps");
    bstr::lemma_ascii("-save-temps"@);
    reveal_strlit("-dump");
    bstr::lemma_ascii("-dump"@);
    reveal_strlit("-fdump-");
    bstr::lemma_ascii("-fdump-"@);
    reveal_strlit("-fopt-info");
    bstr::lemma_ascii("-fopt-info"@);
    reveal_strlit("-ftime-report");
    bstr::lemma_ascii("-ftime-report"@);
    reveal_strlit("-fmem-report");
    bstr::lemma_ascii("-fmem-report"@);
    reveal_strlit("-fstack-usage");
    bstr::lemma_ascii("-fstack-usage"@);
    reveal_strlit("-fcallgraph-info");
    bstr::lemma_ascii("-fcallgraph-info"@);
    reveal_strlit("-fplugin");
    bstr::lemma_ascii("-fplugin"@);
    reveal_strlit("-specs");
    bstr::lemma_ascii("-specs"@);
    reveal_strlit("-fprofile-");
    bstr::lemma_ascii("-fprofile-"@);
    lemma_prefix(arg, bstr::utf8("-MT"@));
    lemma_prefix(arg, bstr::utf8("-MQ"@));
    lemma_prefix(arg, bstr::utf8("-MF"@));
    lemma_prefix(arg, bstr::utf8("-J"@));
    lemma_prefix(arg, bstr::utf8("-I"@));
    lemma_prefix(arg, bstr::utf8("-o"@));
    lemma_prefix(arg, bstr::utf8("-"@));
    lemma_prefix(arg, bstr::utf8("-x"@));
    lemma_prefix(arg, bstr::utf8("-Wp,"@));
    lemma_prefix(arg, bstr::utf8("-Wa,"@));
    lemma_prefix(arg, bstr::utf8("-Wl,"@));
    lemma_prefix(arg, bstr::utf8("-Xpreprocessor="@));
    lemma_prefix(arg, bstr::utf8("-Xassembler="@));
    lemma_prefix(arg, bstr::utf8("-Xlinker="@));
    lemma_prefix(arg, bstr::utf8("-fauto-profile"@));
    lemma_prefix(arg, bstr::utf8("-fprofile-sample-use"@));
    lemma_prefix(arg, bstr::utf8("-fsave-optimization-record"@));
    lemma_prefix(arg, bstr::utf8("-foptimization-record-file"@));
    lemma_prefix(arg, bstr::utf8("-fdiagnostics-file="@));
    lemma_prefix(arg, bstr::utf8("-fdiagnostics-add-output="@));
    lemma_prefix(arg, bstr::utf8("-fdiagnostics-set-output="@));
    lemma_prefix(arg, bstr::utf8("-fdiagnostics-format=sarif"@));
    lemma_prefix(arg, bstr::utf8("-save-temps"@));
    lemma_prefix(arg, bstr::utf8("-dump"@));
    lemma_prefix(arg, bstr::utf8("-fdump-"@));
    lemma_prefix(arg, bstr::utf8("-fopt-info"@));
    lemma_prefix(arg, bstr::utf8("-ftime-report"@));
    lemma_prefix(arg, bstr::utf8("-fmem-report"@));
    lemma_prefix(arg, bstr::utf8("-fstack-usage"@));
    lemma_prefix(arg, bstr::utf8("-fcallgraph-info"@));
    lemma_prefix(arg, bstr::utf8("-fplugin"@));
    lemma_prefix(arg, bstr::utf8("-specs"@));
    lemma_prefix(arg, bstr::utf8("-fprofile-"@));
    assert((arg[1] == 0x66 && arg[2] == 0x64 && arg[3] == 0x69 && arg[4] == 0x61 && arg[5] == 0x67 && arg[6] == 0x6e && arg[7] == 0x6f && arg[8] == 0x73 && arg[9] == 0x74));
}

#[verifier::spinoff_prover]
proof fn lemma_temporaries_option(arg: Seq<u8>)
    requires
        temporaries_option(arg),
    ensures
        !gfortran::takes_value(arg),
        gfortran::alone(arg) == Directive::Reject(BypassReason::<Seq<u8>>::SaveTemps),
{
    lemma_takes_value(arg);
    reveal(gfortran::alone);
    reveal(gfortran::side_effect);
    reveal(options::safe_argument_carrier);
    reveal(options::rejected_side_effect);
    reveal(options::language_override);
    reveal(options::argument_carrier);
    reveal(options::file_diagnostic);
    reveal_strlit("--");
    bstr::lemma_ascii("--"@);
    reveal_strlit("-c");
    bstr::lemma_ascii("-c"@);
    reveal_strlit("-fsyntax-only");
    bstr::lemma_ascii("-fsyntax-only"@);
    reveal_strlit("-cpp");
    bstr::lemma_ascii("-cpp"@);
    reveal_strlit("-nocpp");
    bstr::lemma_ascii("-nocpp"@);
    reveal_strlit("-fpreprocessed");
    bstr::lemma_ascii("-fpreprocessed"@);
    reveal_strlit("-MD");
    bstr::lemma_ascii("-MD"@);
    reveal_strlit("-MMD");
    bstr::lemma_ascii("-MMD"@);
    reveal_strlit("-MP");
    bstr::lemma_ascii("-MP"@);
    reveal_strlit("-MG");
    bstr::lemma_ascii("-MG"@);
    reveal_strlit("-MT");
    bstr::lemma_ascii("-MT"@);
    reveal_strlit("-MQ");
    bstr::lemma_ascii("-MQ"@);
    reveal_strlit("-M");
    bstr::lemma_ascii("-M"@);
    reveal_strlit("-MM");
    bstr::lemma_ascii("-MM"@);
    reveal_strlit("-E");
    bstr::lemma_ascii("-E"@);
    reveal_strlit("-S");
    bstr::lemma_ascii("-S"@);
    reveal_strlit("-MF");
    bstr::lemma_ascii("-MF"@);
    reveal_strlit("-J");
    bstr::lemma_ascii("-J"@);
    reveal_strlit("-I");
    bstr::lemma_ascii("-I"@);
    reveal_strlit("-o");
    bstr::lemma_ascii("-o"@);
    reveal_strlit("-Wa,--noexecstack");
    bstr::lemma_ascii("-Wa,--noexecstack"@);
    reveal_strlit("-");
    bstr::lemma_ascii("-"@);
    reveal_strlit("-x");
    bstr::lemma_ascii("-x"@);
    reveal_strlit("-Wp,");
    bstr::lemma_ascii("-Wp,"@);
    reveal_strlit("-Wa,");
    bstr::lemma_ascii("-Wa,"@);
    reveal_strlit("-Wl,");
    bstr::lemma_ascii("-Wl,"@);
    reveal_strlit("-Xpreprocessor=");
    bstr::lemma_ascii("-Xpreprocessor="@);
    reveal_strlit("-Xassembler=");
    bstr::lemma_ascii("-Xassembler="@);
    reveal_strlit("-Xlinker=");
    bstr::lemma_ascii("-Xlinker="@);
    reveal_strlit("-fauto-profile");
    bstr::lemma_ascii("-fauto-profile"@);
    reveal_strlit("-fprofile-sample-use");
    bstr::lemma_ascii("-fprofile-sample-use"@);
    reveal_strlit("-fsave-optimization-record");
    bstr::lemma_ascii("-fsave-optimization-record"@);
    reveal_strlit("-foptimization-record-file");
    bstr::lemma_ascii("-foptimization-record-file"@);
    reveal_strlit("-fdiagnostics-file=");
    bstr::lemma_ascii("-fdiagnostics-file="@);
    reveal_strlit("-fdiagnostics-add-output=");
    bstr::lemma_ascii("-fdiagnostics-add-output="@);
    reveal_strlit("-fdiagnostics-set-output=");
    bstr::lemma_ascii("-fdiagnostics-set-output="@);
    reveal_strlit("-fdiagnostics-format=sarif");
    bstr::lemma_ascii("-fdiagnostics-format=sarif"@);
    reveal_strlit("-save-temps");
    bstr::lemma_ascii("-save-temps"@);
    reveal_strlit("-dump");
    bstr::lemma_ascii("-dump"@);
    reveal_strlit("-fdump-");
    bstr::lemma_ascii("-fdump-"@);
    reveal_strlit("-fopt-info");
    bstr::lemma_ascii("-fopt-info"@);
    reveal_strlit("-ftime-report");
    bstr::lemma_ascii("-ftime-report"@);
    reveal_strlit("-fmem-report");
    bstr::lemma_ascii("-fmem-report"@);
    reveal_strlit("-fstack-usage");
    bstr::lemma_ascii("-fstack-usage"@);
    reveal_strlit("-fcallgraph-info");
    bstr::lemma_ascii("-fcallgraph-info"@);
    reveal_strlit("-fplugin");
    bstr::lemma_ascii("-fplugin"@);
    reveal_strlit("-specs");
    bstr::lemma_ascii("-specs"@);
    reveal_strlit("-fprofile-");
    bstr::lemma_ascii("-fprofile-"@);
    lemma_prefix(arg, bstr::utf8("-MT"@));
    lemma_prefix(arg, bstr::utf8("-MQ"@));
    lemma_prefix(arg, bstr::utf8("-MF"@));
    lemma_prefix(arg, bstr::utf8("-J"@));
    lemma_prefix(arg, bstr::utf8("-I"@));
    lemma_prefix(arg, bstr::utf8("-o"@));
    lemma_prefix(arg, bstr::utf8("-"@));
    lemma_prefix(arg, bstr::utf8("-x"@));
    lemma_prefix(arg, bstr::utf8("-Wp,"@));
    lemma_prefix(arg, bstr::utf8("-Wa,"@));
    lemma_prefix(arg, bstr::utf8("-Wl,"@));
    lemma_prefix(arg, bstr::utf8("-Xpreprocessor="@));
    lemma_prefix(arg, bstr::utf8("-Xassembler="@));
    lemma_prefix(arg, bstr::utf8("-Xlinker="@));
    lemma_prefix(arg, bstr::utf8("-fauto-profile"@));
    lemma_prefix(arg, bstr::utf8("-fprofile-sample-use"@));
    lemma_prefix(arg, bstr::utf8("-fsave-optimization-record"@));
    lemma_prefix(arg, bstr::utf8("-foptimization-record-file"@));
    lemma_prefix(arg, bstr::utf8("-fdiagnostics-file="@));
    lemma_prefix(arg, bstr::utf8("-fdiagnostics-add-output="@));
    lemma_prefix(arg, bstr::utf8("-fdiagnostics-set-output="@));
    lemma_prefix(arg, bstr::utf8("-fdiagnostics-format=sarif"@));
    lemma_prefix(arg, bstr::utf8("-save-temps"@));
    lemma_prefix(arg, bstr::utf8("-dump"@));
    lemma_prefix(arg, bstr::utf8("-fdump-"@));
    lemma_prefix(arg, bstr::utf8("-fopt-info"@));
    lemma_prefix(arg, bstr::utf8("-ftime-report"@));
    lemma_prefix(arg, bstr::utf8("-fmem-report"@));
    lemma_prefix(arg, bstr::utf8("-fstack-usage"@));
    lemma_prefix(arg, bstr::utf8("-fcallgraph-info"@));
    lemma_prefix(arg, bstr::utf8("-fplugin"@));
    lemma_prefix(arg, bstr::utf8("-specs"@));
    lemma_prefix(arg, bstr::utf8("-fprofile-"@));
    assert((arg[1] == 0x73 && arg[2] == 0x61 && arg[3] == 0x76 && arg[4] == 0x65 && arg[5] == 0x2d && arg[6] == 0x74 && arg[7] == 0x65 && arg[8] == 0x6d && arg[9] == 0x70));
}

#[verifier::spinoff_prover]
proof fn lemma_dump_option(arg: Seq<u8>)
    requires
        dump_option(arg),
    ensures
        !gfortran::takes_value(arg),
        gfortran::alone(arg) == Directive::Reject(BypassReason::<Seq<u8>>::DumpOutput),
{
    lemma_takes_value(arg);
    reveal(gfortran::alone);
    reveal(gfortran::side_effect);
    reveal(options::safe_argument_carrier);
    reveal(options::rejected_side_effect);
    reveal(options::language_override);
    reveal(options::argument_carrier);
    reveal(options::file_diagnostic);
    reveal_strlit("--");
    bstr::lemma_ascii("--"@);
    reveal_strlit("-c");
    bstr::lemma_ascii("-c"@);
    reveal_strlit("-fsyntax-only");
    bstr::lemma_ascii("-fsyntax-only"@);
    reveal_strlit("-cpp");
    bstr::lemma_ascii("-cpp"@);
    reveal_strlit("-nocpp");
    bstr::lemma_ascii("-nocpp"@);
    reveal_strlit("-fpreprocessed");
    bstr::lemma_ascii("-fpreprocessed"@);
    reveal_strlit("-MD");
    bstr::lemma_ascii("-MD"@);
    reveal_strlit("-MMD");
    bstr::lemma_ascii("-MMD"@);
    reveal_strlit("-MP");
    bstr::lemma_ascii("-MP"@);
    reveal_strlit("-MG");
    bstr::lemma_ascii("-MG"@);
    reveal_strlit("-MT");
    bstr::lemma_ascii("-MT"@);
    reveal_strlit("-MQ");
    bstr::lemma_ascii("-MQ"@);
    reveal_strlit("-M");
    bstr::lemma_ascii("-M"@);
    reveal_strlit("-MM");
    bstr::lemma_ascii("-MM"@);
    reveal_strlit("-E");
    bstr::lemma_ascii("-E"@);
    reveal_strlit("-S");
    bstr::lemma_ascii("-S"@);
    reveal_strlit("-MF");
    bstr::lemma_ascii("-MF"@);
    reveal_strlit("-J");
    bstr::lemma_ascii("-J"@);
    reveal_strlit("-I");
    bstr::lemma_ascii("-I"@);
    reveal_strlit("-o");
    bstr::lemma_ascii("-o"@);
    reveal_strlit("-Wa,--noexecstack");
    bstr::lemma_ascii("-Wa,--noexecstack"@);
    reveal_strlit("-");
    bstr::lemma_ascii("-"@);
    reveal_strlit("-x");
    bstr::lemma_ascii("-x"@);
    reveal_strlit("-Wp,");
    bstr::lemma_ascii("-Wp,"@);
    reveal_strlit("-Wa,");
    bstr::lemma_ascii("-Wa,"@);
    reveal_strlit("-Wl,");
    bstr::lemma_ascii("-Wl,"@);
    reveal_strlit("-Xpreprocessor=");
    bstr::lemma_ascii("-Xpreprocessor="@);
    reveal_strlit("-Xassembler=");
    bstr::lemma_ascii("-Xassembler="@);
    reveal_strlit("-Xlinker=");
    bstr::lemma_ascii("-Xlinker="@);
    reveal_strlit("-fauto-profile");
    bstr::lemma_ascii("-fauto-profile"@);
    reveal_strlit("-fprofile-sample-use");
    bstr::lemma_ascii("-fprofile-sample-use"@);
    reveal_strlit("-fsave-optimization-record");
    bstr::lemma_ascii("-fsave-optimization-record"@);
    reveal_strlit("-foptimization-record-file");
    bstr::lemma_ascii("-foptimization-record-file"@);
    reveal_strlit("-fdiagnostics-file=");
    bstr::lemma_ascii("-fdiagnostics-file="@);
    reveal_strlit("-fdiagnostics-add-output=");
    bstr::lemma_ascii("-fdiagnostics-add-output="@);
    reveal_strlit("-fdiagnostics-set-output=");
    bstr::lemma_ascii("-fdiagnostics-set-output="@);
    reveal_strlit("-fdiagnostics-format=sarif");
    bstr::lemma_ascii("-fdiagnostics-format=sarif"@);
    reveal_strlit("-save-temps");
    bstr::lemma_ascii("-save-temps"@);
    reveal_strlit("-dump");
    bstr::lemma_ascii("-dump"@);
    reveal_strlit("-fdump-");
    bstr::lemma_ascii("-fdump-"@);
    reveal_strlit("-fopt-info");
    bstr::lemma_ascii("-fopt-info"@);
    reveal_strlit("-ftime-report");
    bstr::lemma_ascii("-ftime-report"@);
    reveal_strlit("-fmem-report");
    bstr::lemma_ascii("-fmem-report"@);
    reveal_strlit("-fstack-usage");
    bstr::lemma_ascii("-fstack-usage"@);
    reveal_strlit("-fcallgraph-info");
    bstr::lemma_ascii("-fcallgraph-info"@);
    reveal_strlit("-fplugin");
    bstr::lemma_ascii("-fplugin"@);
    reveal_strlit("-specs");
    bstr::lemma_ascii("-specs"@);
    reveal_strlit("-fprofile-");
    bstr::lemma_ascii("-fprofile-"@);
    lemma_prefix(arg, bstr::utf8("-MT"@));
    lemma_prefix(arg, bstr::utf8("-MQ"@));
    lemma_prefix(arg, bstr::utf8("-MF"@));
    lemma_prefix(arg, bstr::utf8("-J"@));
    lemma_prefix(arg, bstr::utf8("-I"@));
    lemma_prefix(arg, bstr::utf8("-o"@));
    lemma_prefix(arg, bstr::utf8("-"@));
    lemma_prefix(arg, bstr::utf8("-x"@));
    lemma_prefix(arg, bstr::utf8("-Wp,"@));
    lemma_prefix(arg, bstr::utf8("-Wa,"@));
    lemma_prefix(arg, bstr::utf8("-Wl,"@));
    lemma_prefix(arg, bstr::utf8("-Xpreprocessor="@));
    lemma_prefix(arg, bstr::utf8("-Xassembler="@));
    lemma_prefix(arg, bstr::utf8("-Xlinker="@));
    lemma_prefix(arg, bstr::utf8("-fauto-profile"@));
    lemma_prefix(arg, bstr::utf8("-fprofile-sample-use"@));
    lemma_prefix(arg, bstr::utf8("-fsave-optimization-record"@));
    lemma_prefix(arg, bstr::utf8("-foptimization-record-file"@));
    lemma_prefix(arg, bstr::utf8("-fdiagnostics-file="@));
    lemma_prefix(arg, bstr::utf8("-fdiagnostics-add-output="@));
    lemma_prefix(arg, bstr::utf8("-fdiagnostics-set-output="@));
    lemma_prefix(arg, bstr::utf8("-fdiagnostics-format=sarif"@));
    lemma_prefix(arg, bstr::utf8("-save-temps"@));
    lemma_prefix(arg, bstr::utf8("-dump"@));
    lemma_prefix(arg, bstr::utf8("-fdump-"@));
    lemma_prefix(arg, bstr::utf8("-fopt-info"@));
    lemma_prefix(arg, bstr::utf8("-ftime-report"@));
    lemma_prefix(arg, bstr::utf8("-fmem-report"@));
    lemma_prefix(arg, bstr::utf8("-fstack-usage"@));
    lemma_prefix(arg, bstr::utf8("-fcallgraph-info"@));
    lemma_prefix(arg, bstr::utf8("-fplugin"@));
    lemma_prefix(arg, bstr::utf8("-specs"@));
    lemma_prefix(arg, bstr::utf8("-fprofile-"@));
    assert((arg[1] == 0x64 && arg[2] == 0x75 && arg[3] == 0x6d && arg[4] == 0x70) || (arg[1] == 0x66 && arg[2] == 0x64 && arg[3] == 0x75 && arg[4] == 0x6d && arg[5] == 0x70 && arg[6] == 0x2d) || (arg[1] == 0x66 && arg[2] == 0x6f && arg[3] == 0x70 && arg[4] == 0x74 && arg[5] == 0x2d && arg[6] == 0x69 && arg[7] == 0x6e && arg[8] == 0x66 && arg[9] == 0x6f) || (arg[1] == 0x66 && arg[2] == 0x74 && arg[3] == 0x69 && arg[4] == 0x6d && arg[5] == 0x65 && arg[6] == 0x2d && arg[7] == 0x72 && arg[8] == 0x65 && arg[9] == 0x70) || (arg[1] == 0x66 && arg[2] == 0x6d && arg[3] == 0x65 && arg[4] == 0x6d && arg[5] == 0x2d && arg[6] == 0x72 && arg[7] == 0x65 && arg[8] == 0x70 && arg[9] == 0x6f) || (arg[1] == 0x66 && arg[2] == 0x73 && arg[3] == 0x74 && arg[4] == 0x61 && arg[5] == 0x63 && arg[6] == 0x6b && arg[7] == 0x2d && arg[8] == 0x75 && arg[9] == 0x73) || (arg[1] == 0x66 && arg[2] == 0x63 && arg[3] == 0x61 && arg[4] == 0x6c && arg[5] == 0x6c && arg[6] == 0x67 && arg[7] == 0x72 && arg[8] == 0x61 && arg[9] == 0x70));
}

#[verifier::spinoff_prover]
proof fn lemma_plugin_option(arg: Seq<u8>)
    requires
        plugin_option(arg),
    ensures
        !gfortran::takes_value(arg),
        gfortran::alone(arg) == Directive::Reject(BypassReason::<Seq<u8>>::PluginOrSpecs),
{
    lemma_takes_value(arg);
    reveal(gfortran::alone);
    reveal(gfortran::side_effect);
    reveal(options::safe_argument_carrier);
    reveal(options::rejected_side_effect);
    reveal(options::language_override);
    reveal(options::argument_carrier);
    reveal(options::file_diagnostic);
    reveal_strlit("--");
    bstr::lemma_ascii("--"@);
    reveal_strlit("-c");
    bstr::lemma_ascii("-c"@);
    reveal_strlit("-fsyntax-only");
    bstr::lemma_ascii("-fsyntax-only"@);
    reveal_strlit("-cpp");
    bstr::lemma_ascii("-cpp"@);
    reveal_strlit("-nocpp");
    bstr::lemma_ascii("-nocpp"@);
    reveal_strlit("-fpreprocessed");
    bstr::lemma_ascii("-fpreprocessed"@);
    reveal_strlit("-MD");
    bstr::lemma_ascii("-MD"@);
    reveal_strlit("-MMD");
    bstr::lemma_ascii("-MMD"@);
    reveal_strlit("-MP");
    bstr::lemma_ascii("-MP"@);
    reveal_strlit("-MG");
    bstr::lemma_ascii("-MG"@);
    reveal_strlit("-MT");
    bstr::lemma_ascii("-MT"@);
    reveal_strlit("-MQ");
    bstr::lemma_ascii("-MQ"@);
    reveal_strlit("-M");
    bstr::lemma_ascii("-M"@);
    reveal_strlit("-MM");
    bstr::lemma_ascii("-MM"@);
    reveal_strlit("-E");
    bstr::lemma_ascii("-E"@);
    reveal_strlit("-S");
    bstr::lemma_ascii("-S"@);
    reveal_strlit("-MF");
    bstr::lemma_ascii("-MF"@);
    reveal_strlit("-J");
    bstr::lemma_ascii("-J"@);
    reveal_strlit("-I");
    bstr::lemma_ascii("-I"@);
    reveal_strlit("-o");
    bstr::lemma_ascii("-o"@);
    reveal_strlit("-Wa,--noexecstack");
    bstr::lemma_ascii("-Wa,--noexecstack"@);
    reveal_strlit("-");
    bstr::lemma_ascii("-"@);
    reveal_strlit("-x");
    bstr::lemma_ascii("-x"@);
    reveal_strlit("-Wp,");
    bstr::lemma_ascii("-Wp,"@);
    reveal_strlit("-Wa,");
    bstr::lemma_ascii("-Wa,"@);
    reveal_strlit("-Wl,");
    bstr::lemma_ascii("-Wl,"@);
    reveal_strlit("-Xpreprocessor=");
    bstr::lemma_ascii("-Xpreprocessor="@);
    reveal_strlit("-Xassembler=");
    bstr::lemma_ascii("-Xassembler="@);
    reveal_strlit("-Xlinker=");
    bstr::lemma_ascii("-Xlinker="@);
    reveal_strlit("-fauto-profile");
    bstr::lemma_ascii("-fauto-profile"@);
    reveal_strlit("-fprofile-sample-use");
    bstr::lemma_ascii("-fprofile-sample-use"@);
    reveal_strlit("-fsave-optimization-record");
    bstr::lemma_ascii("-fsave-optimization-record"@);
    reveal_strlit("-foptimization-record-file");
    bstr::lemma_ascii("-foptimization-record-file"@);
    reveal_strlit("-fdiagnostics-file=");
    bstr::lemma_ascii("-fdiagnostics-file="@);
    reveal_strlit("-fdiagnostics-add-output=");
    bstr::lemma_ascii("-fdiagnostics-add-output="@);
    reveal_strlit("-fdiagnostics-set-output=");
    bstr::lemma_ascii("-fdiagnostics-set-output="@);
    reveal_strlit("-fdiagnostics-format=sarif");
    bstr::lemma_ascii("-fdiagnostics-format=sarif"@);
    reveal_strlit("-save-temps");
    bstr::lemma_ascii("-save-temps"@);
    reveal_strlit("-dump");
    bstr::lemma_ascii("-dump"@);
    reveal_strlit("-fdump-");
    bstr::lemma_ascii("-fdump-"@);
    reveal_strlit("-fopt-info");
    bstr::lemma_ascii("-fopt-info"@);
    reveal_strlit("-ftime-report");
    bstr::lemma_ascii("-ftime-report"@);
    reveal_strlit("-fmem-report");
    bstr::lemma_ascii("-fmem-report"@);
    reveal_strlit("-fstack-usage");
    bstr::lemma_ascii("-fstack-usage"@);
    reveal_strlit("-fcallgraph-info");
    bstr::lemma_ascii("-fcallgraph-info"@);
    reveal_strlit("-fplugin");
    bstr::lemma_ascii("-fplugin"@);
    reveal_strlit("-specs");
    bstr::lemma_ascii("-specs"@);
    reveal_strlit("-fprofile-");
    bstr::lemma_ascii("-fprofile-"@);
    lemma_prefix(arg, bstr::utf8("-MT"@));
    lemma_prefix(arg, bstr::utf8("-MQ"@));
    lemma_prefix(arg, bstr::utf8("-MF"@));
    lemma_prefix(arg, bstr::utf8("-J"@));
    lemma_prefix(arg, bstr::utf8("-I"@));
    lemma_prefix(arg, bstr::utf8("-o"@));
    lemma_prefix(arg, bstr::utf8("-"@));
    lemma_prefix(arg, bstr::utf8("-x"@));
    lemma_prefix(arg, bstr::utf8("-Wp,"@));
    lemma_prefix(arg, bstr::utf8("-Wa,"@));
    lemma_prefix(arg, bstr::utf8("-Wl,"@));
    lemma_prefix(arg, bstr::utf8("-Xpreprocessor="@));
    lemma_prefix(arg, bstr::utf8("-Xassembler="@));
    lemma_prefix(arg, bstr::utf8("-Xlinker="@));
    lemma_prefix(arg, bstr::utf8("-fauto-profile"@));
    lemma_prefix(arg, bstr::utf8("-fprofile-sample-use"@));
    lemma_prefix(arg, bstr::utf8("-fsave-optimization-record"@));
    lemma_prefix(arg, bstr::utf8("-foptimization-record-file"@));
    lemma_prefix(arg, bstr::utf8("-fdiagnostics-file="@));
    lemma_prefix(arg, bstr::utf8("-fdiagnostics-add-output="@));
    lemma_prefix(arg, bstr::utf8("-fdiagnostics-set-output="@));
    lemma_prefix(arg, bstr::utf8("-fdiagnostics-format=sarif"@));
    lemma_prefix(arg, bstr::utf8("-save-temps"@));
    lemma_prefix(arg, bstr::utf8("-dump"@));
    lemma_prefix(arg, bstr::utf8("-fdump-"@));
    lemma_prefix(arg, bstr::utf8("-fopt-info"@));
    lemma_prefix(arg, bstr::utf8("-ftime-report"@));
    lemma_prefix(arg, bstr::utf8("-fmem-report"@));
    lemma_prefix(arg, bstr::utf8("-fstack-usage"@));
    lemma_prefix(arg, bstr::utf8("-fcallgraph-info"@));
    lemma_prefix(arg, bstr::utf8("-fplugin"@));
    lemma_prefix(arg, bstr::utf8("-specs"@));
    lemma_prefix(arg, bstr::utf8("-fprofile-"@));
    assert((arg[1] == 0x66 && arg[2] == 0x70 && arg[3] == 0x6c && arg[4] == 0x75 && arg[5] == 0x67 && arg[6] == 0x69 && arg[7] == 0x6e) || (arg[1] == 0x73 && arg[2] == 0x70 && arg[3] == 0x65 && arg[4] == 0x63 && arg[5] == 0x73));
}

#[verifier::spinoff_prover]
proof fn lemma_profile_option(arg: Seq<u8>)
    requires
        profile_option(arg),
    ensures
        !gfortran::takes_value(arg),
        gfortran::alone(arg) == Directive::Reject(BypassReason::<Seq<u8>>::CoverageOrProfile),
{
    lemma_takes_value(arg);
    reveal(gfortran::alone);
    reveal(gfortran::side_effect);
    reveal(options::safe_argument_carrier);
    reveal(options::rejected_side_effect);
    reveal(options::language_override);
    reveal(options::argument_carrier);
    reveal(options::file_diagnostic);
    reveal_strlit("--");
    bstr::lemma_ascii("--"@);
    reveal_strlit("-c");
    bstr::lemma_ascii("-c"@);
    reveal_strlit("-fsyntax-only");
    bstr::lemma_ascii("-fsyntax-only"@);
    reveal_strlit("-cpp");
    bstr::lemma_ascii("-cpp"@);
    reveal_strlit("-nocpp");
    bstr::lemma_ascii("-nocpp"@);
    reveal_strlit("-fpreprocessed");
    bstr::lemma_ascii("-fpreprocessed"@);
    reveal_strlit("-MD");
    bstr::lemma_ascii("-MD"@);
    reveal_strlit("-MMD");
    bstr::lemma_ascii("-MMD"@);
    reveal_strlit("-MP");
    bstr::lemma_ascii("-MP"@);
    reveal_strlit("-MG");
    bstr::lemma_ascii("-MG"@);
    reveal_strlit("-MT");
    bstr::lemma_ascii("-MT"@);
    reveal_strlit("-MQ");
    bstr::lemma_ascii("-MQ"@);
    reveal_strlit("-M");
    bstr::lemma_ascii("-M"@);
    reveal_strlit("-MM");
    bstr::lemma_ascii("-MM"@);
    reveal_strlit("-E");
    bstr::lemma_ascii("-E"@);
    reveal_strlit("-S");
    bstr::lemma_ascii("-S"@);
    reveal_strlit("-MF");
    bstr::lemma_ascii("-MF"@);
    reveal_strlit("-J");
    bstr::lemma_ascii("-J"@);
    reveal_strlit("-I");
    bstr::lemma_ascii("-I"@);
    reveal_strlit("-o");
    bstr::lemma_ascii("-o"@);
    reveal_strlit("-Wa,--noexecstack");
    bstr::lemma_ascii("-Wa,--noexecstack"@);
    reveal_strlit("-");
    bstr::lemma_ascii("-"@);
    reveal_strlit("-x");
    bstr::lemma_ascii("-x"@);
    reveal_strlit("-Wp,");
    bstr::lemma_ascii("-Wp,"@);
    reveal_strlit("-Wa,");
    bstr::lemma_ascii("-Wa,"@);
    reveal_strlit("-Wl,");
    bstr::lemma_ascii("-Wl,"@);
    reveal_strlit("-Xpreprocessor=");
    bstr::lemma_ascii("-Xpreprocessor="@);
    reveal_strlit("-Xassembler=");
    bstr::lemma_ascii("-Xassembler="@);
    reveal_strlit("-Xlinker=");
    bstr::lemma_ascii("-Xlinker="@);
    reveal_strlit("-fauto-profile");
    bstr::lemma_ascii("-fauto-profile"@);
    reveal_strlit("-fprofile-sample-use");
    bstr::lemma_ascii("-fprofile-sample-use"@);
    reveal_strlit("-fsave-optimization-record");
    bstr::lemma_ascii("-fsave-optimization-record"@);
    reveal_strlit("-foptimization-record-file");
    bstr::lemma_ascii("-foptimization-record-file"@);
    reveal_strlit("-fdiagnostics-file=");
    bstr::lemma_ascii("-fdiagnostics-file="@);
    reveal_strlit("-fdiagnostics-add-output=");
    bstr::lemma_ascii("-fdiagnostics-add-output="@);
    reveal_strlit("-fdiagnostics-set-output=");
    bstr::lemma_ascii("-fdiagnostics-set-output="@);
    reveal_strlit("-fdiagnostics-format=sarif");
    bstr::lemma_ascii("-fdiagnostics-format=sarif"@);
    reveal_strlit("-save-temps");
    bstr::lemma_ascii("-save-temps"@);
    reveal_strlit("-dump");
    bstr::lemma_ascii("-dump"@);
    reveal_strlit("-fdump-");
    bstr::lemma_ascii("-fdump-"@);
    reveal_strlit("-fopt-info");
    bstr::lemma_ascii("-fopt-info"@);
    reveal_strlit("-ftime-report");
    bstr::lemma_ascii("-ftime-report"@);
    reveal_strlit("-fmem-report");
    bstr::lemma_ascii("-fmem-report"@);
    reveal_strlit("-fstack-usage");
    bstr::lemma_ascii("-fstack-usage"@);
    reveal_strlit("-fcallgraph-info");
    bstr::lemma_ascii("-fcallgraph-info"@);
    reveal_strlit("-fplugin");
    bstr::lemma_ascii("-fplugin"@);
    reveal_strlit("-specs");
    bstr::lemma_ascii("-specs"@);
    reveal_strlit("-fprofile-");
    bstr::lemma_ascii("-fprofile-"@);
    reveal_strlit("--coverage");
    bstr::lemma_ascii("--coverage"@);
    reveal_strlit("-coverage");
    bstr::lemma_ascii("-coverage"@);
    reveal_strlit("-p");
    bstr::lemma_ascii("-p"@);
    reveal_strlit("-pg");
    bstr::lemma_ascii("-pg"@);
    reveal_strlit("-fprofile-arcs");
    bstr::lemma_ascii("-fprofile-arcs"@);
    reveal_strlit("-ftest-coverage");
    bstr::lemma_ascii("-ftest-coverage"@);
    reveal_strlit("-fcondition-coverage");
    bstr::lemma_ascii("-fcondition-coverage"@);
    reveal_strlit("-fpath-coverage");
    bstr::lemma_ascii("-fpath-coverage"@);
    reveal_strlit("-fbranch-probabilities");
    bstr::lemma_ascii("-fbranch-probabilities"@);
    lemma_prefix(arg, bstr::utf8("-MT"@));
    lemma_prefix(arg, bstr::utf8("-MQ"@));
    lemma_prefix(arg, bstr::utf8("-MF"@));
    lemma_prefix(arg, bstr::utf8("-J"@));
    lemma_prefix(arg, bstr::utf8("-I"@));
    lemma_prefix(arg, bstr::utf8("-o"@));
    lemma_prefix(arg, bstr::utf8("-"@));
    lemma_prefix(arg, bstr::utf8("-x"@));
    lemma_prefix(arg, bstr::utf8("-Wp,"@));
    lemma_prefix(arg, bstr::utf8("-Wa,"@));
    lemma_prefix(arg, bstr::utf8("-Wl,"@));
    lemma_prefix(arg, bstr::utf8("-Xpreprocessor="@));
    lemma_prefix(arg, bstr::utf8("-Xassembler="@));
    lemma_prefix(arg, bstr::utf8("-Xlinker="@));
    lemma_prefix(arg, bstr::utf8("-fauto-profile"@));
    lemma_prefix(arg, bstr::utf8("-fprofile-sample-use"@));
    lemma_prefix(arg, bstr::utf8("-fsave-optimization-record"@));
    lemma_prefix(arg, bstr::utf8("-foptimization-record-file"@));
    lemma_prefix(arg, bstr::utf8("-fdiagnostics-file="@));
    lemma_prefix(arg, bstr::utf8("-fdiagnostics-add-output="@));
    lemma_prefix(arg, bstr::utf8("-fdiagnostics-set-output="@));
    lemma_prefix(arg, bstr::utf8("-fdiagnostics-format=sarif"@));
    lemma_prefix(arg, bstr::utf8("-save-temps"@));
    lemma_prefix(arg, bstr::utf8("-dump"@));
    lemma_prefix(arg, bstr::utf8("-fdump-"@));
    lemma_prefix(arg, bstr::utf8("-fopt-info"@));
    lemma_prefix(arg, bstr::utf8("-ftime-report"@));
    lemma_prefix(arg, bstr::utf8("-fmem-report"@));
    lemma_prefix(arg, bstr::utf8("-fstack-usage"@));
    lemma_prefix(arg, bstr::utf8("-fcallgraph-info"@));
    lemma_prefix(arg, bstr::utf8("-fplugin"@));
    lemma_prefix(arg, bstr::utf8("-specs"@));
    lemma_prefix(arg, bstr::utf8("-fprofile-"@));
    assert((arg[1] == 0x2d && arg[2] == 0x63 && arg[3] == 0x6f && arg[4] == 0x76 && arg[5] == 0x65 && arg[6] == 0x72 && arg[7] == 0x61 && arg[8] == 0x67 && arg[9] == 0x65) || (arg[1] == 0x63 && arg[2] == 0x6f && arg[3] == 0x76 && arg[4] == 0x65 && arg[5] == 0x72 && arg[6] == 0x61 && arg[7] == 0x67 && arg[8] == 0x65) || (arg[1] == 0x70) || (arg[1] == 0x70 && arg[2] == 0x67) || (arg[1] == 0x66 && arg[2] == 0x70 && arg[3] == 0x72 && arg[4] == 0x6f && arg[5] == 0x66 && arg[6] == 0x69 && arg[7] == 0x6c && arg[8] == 0x65 && arg[9] == 0x2d) || (arg[1] == 0x66 && arg[2] == 0x74 && arg[3] == 0x65 && arg[4] == 0x73 && arg[5] == 0x74 && arg[6] == 0x2d && arg[7] == 0x63 && arg[8] == 0x6f && arg[9] == 0x76) || (arg[1] == 0x66 && arg[2] == 0x63 && arg[3] == 0x6f && arg[4] == 0x6e && arg[5] == 0x64 && arg[6] == 0x69 && arg[7] == 0x74 && arg[8] == 0x69 && arg[9] == 0x6f) || (arg[1] == 0x66 && arg[2] == 0x70 && arg[3] == 0x61 && arg[4] == 0x74 && arg[5] == 0x68 && arg[6] == 0x2d && arg[7] == 0x63 && arg[8] == 0x6f && arg[9] == 0x76) || (arg[1] == 0x66 && arg[2] == 0x62 && arg[3] == 0x72 && arg[4] == 0x61 && arg[5] == 0x6e && arg[6] == 0x63 && arg[7] == 0x68 && arg[8] == 0x2d && arg[9] == 0x70));
}

#[verifier::spinoff_prover]
proof fn lemma_plain_refusal(arg: Seq<u8>)
    requires
        (arg.len() > 0 && arg[0] == 0x40) || arg == bstr::utf8("-E"@) || arg == bstr::utf8("-M"@)
            || arg == bstr::utf8("-MM"@) || arg == bstr::utf8("-S"@) || (bstr::has_prefix(
            arg,
            bstr::utf8("-x"@),
        ) && arg.len() > 2),
    ensures
        !gfortran::takes_value(arg),
        refusal(arg) is Some,
        gfortran::alone(arg) == Directive::Reject(refusal(arg)->0),
{
    lemma_takes_value(arg);
    reveal(gfortran::alone);
    reveal(gfortran::side_effect);
    reveal(options::safe_argument_carrier);
    reveal(options::rejected_side_effect);
    reveal(options::language_override);
    reveal_strlit("--");
    bstr::lemma_ascii("--"@);
    reveal_strlit("-c");
    bstr::lemma_ascii("-c"@);
    reveal_strlit("-fsyntax-only");
    bstr::lemma_ascii("-fsyntax-only"@);
    reveal_strlit("-cpp");
    bstr::lemma_ascii("-cpp"@);
    reveal_strlit("-nocpp");
    bstr::lemma_ascii("-nocpp"@);
    reveal_strlit("-fpreprocessed");
    bstr::lemma_ascii("-fpreprocessed"@);
    reveal_strlit("-MD");
    bstr::lemma_ascii("-MD"@);
    reveal_strlit("-MMD");
    bstr::lemma_ascii("-MMD"@);
    reveal_strlit("-MP");
    bstr::lemma_ascii("-MP"@);
    reveal_strlit("-MG");
    bstr::lemma_ascii("-MG"@);
    reveal_strlit("-MT");
    bstr::lemma_ascii("-MT"@);
    reveal_strlit("-MQ");
    bstr::lemma_ascii("-MQ"@);
    reveal_strlit("-M");
    bstr::lemma_ascii("-M"@);
    reveal_strlit("-MM");
    bstr::lemma_ascii("-MM"@);
    reveal_strlit("-E");
    bstr::lemma_ascii("-E"@);
    reveal_strlit("-S");
    bstr::lemma_ascii("-S"@);
    reveal_strlit("-MF");
    bstr::lemma_ascii("-MF"@);
    reveal_strlit("-J");
    bstr::lemma_ascii("-J"@);
    reveal_strlit("-I");
    bstr::lemma_ascii("-I"@);
    reveal_strlit("-o");
    bstr::lemma_ascii("-o"@);
    reveal_strlit("-Wa,--noexecstack");
    bstr::lemma_ascii("-Wa,--noexecstack"@);
    reveal_strlit("-");
    bstr::lemma_ascii("-"@);
    reveal_strlit("-x");
    bstr::lemma_ascii("-x"@);
    lemma_prefix(arg, bstr::utf8("-MT"@));
    lemma_prefix(arg, bstr::utf8("-MQ"@));
    lemma_prefix(arg, bstr::utf8("-MF"@));
    lemma_prefix(arg, bstr::utf8("-J"@));
    lemma_prefix(arg, bstr::utf8("-I"@));
    lemma_prefix(arg, bstr::utf8("-o"@));
    lemma_prefix(arg, bstr::utf8("-"@));
    lemma_prefix(arg, bstr::utf8("-x"@));
}

proof fn lemma_refused(arg: Seq<u8>)
    requires
        refusal(arg) is Some,
    ensures
        !gfortran::takes_value(arg),
        gfortran::alone(arg) == Directive::Reject(refusal(arg)->0),
{
    if (arg.len() > 0 && arg[0] == 0x40) || arg == bstr::utf8("-E"@) || arg == bstr::utf8("-M"@)
        || arg == bstr::utf8("-MM"@) || arg == bstr::utf8("-S"@) || (bstr::has_prefix(
        arg,
        bstr::utf8("-x"@),
    ) && arg.len() > 2) {
        lemma_plain_refusal(arg);
    } else if carrier_option(arg) {
        lemma_carrier_option(arg);
    } else if auto_profile_option(arg) {
        lemma_auto_profile_option(arg);
    } else if record_option(arg) {
        lemma_record_option(arg);
    } else if diagnostic_option(arg) {
        lemma_diagnostic_option(arg);
    } else if temporaries_option(arg) {
        lemma_temporaries_option(arg);
    } else if dump_option(arg) {
        lemma_dump_option(arg);
    } else if plugin_option(arg) {
        lemma_plugin_option(arg);
    } else if profile_option(arg) {
        lemma_profile_option(arg);
    }
}

#[verifier::spinoff_prover]
proof fn lemma_refused_with_value(option: Seq<u8>, value: Seq<u8>)
    requires
        refusal_with_value(option) is Some,
    ensures
        gfortran::takes_value(option),
        gfortran::with_value(option, value) == Directive::Reject(refusal_with_value(option)->0),
{
    reveal(gfortran::takes_value);
    reveal(gfortran::with_value);
    reveal(options::separate_argument_carrier);
    reveal_strlit("-MT");
    bstr::lemma_ascii("-MT"@);
    reveal_strlit("-MQ");
    bstr::lemma_ascii("-MQ"@);
    reveal_strlit("-MF");
    bstr::lemma_ascii("-MF"@);
    reveal_strlit("-o");
    bstr::lemma_ascii("-o"@);
    reveal_strlit("-J");
    bstr::lemma_ascii("-J"@);
    reveal_strlit("-I");
    bstr::lemma_ascii("-I"@);
    reveal_strlit("-x");
    bstr::lemma_ascii("-x"@);
    reveal_strlit("-Wp");
    bstr::lemma_ascii("-Wp"@);
    reveal_strlit("-Wa");
    bstr::lemma_ascii("-Wa"@);
    reveal_strlit("-Wl");
    bstr::lemma_ascii("-Wl"@);
    reveal_strlit("-Xpreprocessor");
    bstr::lemma_ascii("-Xpreprocessor"@);
    reveal_strlit("-Xassembler");
    bstr::lemma_ascii("-Xassembler"@);
    reveal_strlit("-Xlinker");
    bstr::lemma_ascii("-Xlinker"@);
    assert(bstr::utf8("-MT"@)[1] == 0x4d && bstr::utf8("-MQ"@)[1] == 0x4d && bstr::utf8("-MF"@)[1]
        == 0x4d);
    assert(bstr::utf8("-x"@)[1] == 0x78);
    assert(bstr::utf8("-o"@)[1] == 0x6f && bstr::utf8("-J"@)[1] == 0x4a && bstr::utf8("-I"@)[1]
        == 0x49);
    assert(bstr::utf8("-Wp"@)[1] == 0x57 && bstr::utf8("-Wa"@)[1] == 0x57 && bstr::utf8("-Wl"@)[1]
        == 0x57);
    assert(bstr::utf8("-Xpreprocessor"@)[1] == 0x58 && bstr::utf8("-Xassembler"@)[1] == 0x58
        && bstr::utf8("-Xlinker"@)[1] == 0x58);
}

#[verifier::spinoff_prover]
proof fn lemma_directive(word: Word, args: Seq<Seq<u8>>, index: int)
    requires
        understood(word),
        0 <= index,
        index + spelled(word).len() <= args.len(),
        forall|at: int|
            0 <= at < spelled(word).len() ==> args[index + at] == #[trigger] spelled(word)[at],
    ensures
        gfortran::directive_at(args, index, false) == Ok::<
            (Directive<Seq<u8>>, int),
            gfortran::ParseError<Seq<u8>>,
        >((directive_of(word), spelled(word).len() as int)),
        spelled(word).len() > 0,
{
    let arg = spelled(word)[0];
    assert(args[index + 0] == arg);
    match word {
        Word::Target { option, value, attached } => {
            let name = match option {
                TargetOption::Plain => bstr::utf8("-MT"@),
                TargetOption::Quoted => bstr::utf8("-MQ"@),
            };
            lemma_option(name, value, attached, args, index, word);
        },
        Word::Depfile { path, attached } => {
            lemma_option(bstr::utf8("-MF"@), path, attached, args, index, word);
        },
        Word::Object { path, attached } => {
            lemma_option(bstr::utf8("-o"@), path, attached, args, index, word);
        },
        Word::Modules { directory, attached } => {
            lemma_option(bstr::utf8("-J"@), directory, attached, args, index, word);
        },
        Word::Includes { directory, attached } => {
            lemma_option(bstr::utf8("-I"@), directory, attached, args, index, word);
        },
        Word::Search { tier, directory, attached } => {
            let name = match tier {
                Tier::Quote => bstr::utf8("-iquote"@),
                Tier::System => bstr::utf8("-isystem"@),
                Tier::After => bstr::utf8("-idirafter"@),
            };
            lemma_option(name, directory, attached, args, index, word);
        },
        Word::Forced { macros, path, attached } => {
            let name = if macros {
                bstr::utf8("-imacros"@)
            } else {
                bstr::utf8("-include"@)
            };
            lemma_option(name, path, attached, args, index, word);
        },
        Word::Intrinsics { directory, attached } => {
            if attached {
                lemma_attached_option(bstr::utf8("-fintrinsic-modules-path="@), directory);
            } else {
                assert(args[index + 1] == spelled(word)[1]);
                lemma_separate(bstr::utf8("-fintrinsic-modules-path"@), directory);
            }
        },
        Word::Define { value, attached } => {
            lemma_option(bstr::utf8("-D"@), value, attached, args, index, word);
        },
        Word::Undefine { value, attached } => {
            lemma_option(bstr::utf8("-U"@), value, attached, args, index, word);
        },
        Word::SystemRoot { directory } => {
            assert(args[index + 1] == spelled(word)[1]);
            lemma_separate(bstr::utf8("-isysroot"@), directory);
        },
        Word::Supported { option } => {
            lemma_supported(option);
        },
        Word::Source { lead, stem, extension } => {
            assert(arg[0] == (lead + stem)[0]);
            lemma_positional(arg);
        },
        Word::Refused { arg } => {
            lemma_refused(arg);
        },
        Word::RefusedPair { option, value } => {
            assert(args[index + 1] == spelled(word)[1]);
            lemma_refused_with_value(option, value);
        },
        _ => {
            lemma_exact(word);
        },
    }
}

proof fn lemma_option(
    option: Seq<u8>,
    value: Seq<u8>,
    attached: bool,
    args: Seq<Seq<u8>>,
    index: int,
    word: Word,
)
    requires
        spelled(word) == option_and_value(option, value, attached),
        attachable(value, attached),
        0 <= index,
        index + spelled(word).len() <= args.len(),
        forall|at: int|
            0 <= at < spelled(word).len() ==> args[index + at] == #[trigger] spelled(word)[at],
        option == bstr::utf8("-MT"@) || option == bstr::utf8("-MQ"@) || option == bstr::utf8("-MF"@)
            || option == bstr::utf8("-J"@) || option == bstr::utf8("-I"@) || option == bstr::utf8(
            "-o"@,
        ) || option == bstr::utf8("-iquote"@) || option == bstr::utf8("-isystem"@) || option
            == bstr::utf8("-idirafter"@) || option == bstr::utf8("-include"@) || option
            == bstr::utf8("-imacros"@) || option == bstr::utf8("-D"@) || option == bstr::utf8(
            "-U"@,
        ),
    ensures
        spelled(word).len() == (if attached {
            1int
        } else {
            2int
        }),
        gfortran::directive_at(args, index, false) == Ok::<
            (Directive<Seq<u8>>, int),
            gfortran::ParseError<Seq<u8>>,
        >(
            (
                if option == bstr::utf8("-MT"@) || option == bstr::utf8("-MQ"@) {
                    if attached {
                        Directive::Modifier(option + value)
                    } else {
                        Directive::TargetModifier(option, value)
                    }
                } else if option == bstr::utf8("-MF"@) {
                    Directive::Depfile(value)
                } else if option == bstr::utf8("-J"@) {
                    Directive::ModuleDirectory(value)
                } else if option == bstr::utf8("-I"@) {
                    Directive::IncludeDirectory(spelled(word)[0], value)
                } else if option == bstr::utf8("-o"@) {
                    Directive::Object(value)
                } else {
                    option_directive(spelled(word)[0], value, attached)
                },
                spelled(word).len() as int,
            ),
        ),
        bstr::utf8("-MT"@) != bstr::utf8("-MF"@) && bstr::utf8("-MQ"@) != bstr::utf8("-MF"@),
        bstr::utf8("-J"@) != bstr::utf8("-I"@) && bstr::utf8("-J"@) != bstr::utf8("-o"@)
            && bstr::utf8("-I"@) != bstr::utf8("-o"@),
        bstr::utf8("-D"@).len() == 2 && bstr::utf8("-U"@).len() == 2 && bstr::utf8("-J"@).len() == 2
            && bstr::utf8("-I"@).len() == 2 && bstr::utf8("-o"@).len() == 2,
        bstr::utf8("-MT"@).len() == 3 && bstr::utf8("-MQ"@).len() == 3 && bstr::utf8("-MF"@).len()
            == 3,
        bstr::utf8("-D"@)[1] == 0x44 && bstr::utf8("-U"@)[1] == 0x55 && bstr::utf8("-J"@)[1] == 0x4a
            && bstr::utf8("-I"@)[1] == 0x49 && bstr::utf8("-o"@)[1] == 0x6f,
        bstr::utf8("-iquote"@).len() > 3 && bstr::utf8("-isystem"@).len() > 3 && bstr::utf8(
            "-idirafter"@,
        ).len() > 3 && bstr::utf8("-include"@).len() > 3 && bstr::utf8("-imacros"@).len() > 3,
{
    reveal_strlit("-MT");
    reveal_strlit("-MQ");
    reveal_strlit("-MF");
    reveal_strlit("-J");
    reveal_strlit("-I");
    reveal_strlit("-o");
    reveal_strlit("-D");
    reveal_strlit("-U");
    reveal_strlit("-iquote");
    reveal_strlit("-isystem");
    reveal_strlit("-idirafter");
    reveal_strlit("-include");
    reveal_strlit("-imacros");
    bstr::lemma_ascii("-MT"@);
    bstr::lemma_ascii("-MQ"@);
    bstr::lemma_ascii("-MF"@);
    bstr::lemma_ascii("-J"@);
    bstr::lemma_ascii("-I"@);
    bstr::lemma_ascii("-o"@);
    bstr::lemma_ascii("-D"@);
    bstr::lemma_ascii("-U"@);
    bstr::lemma_ascii("-iquote"@);
    bstr::lemma_ascii("-isystem"@);
    bstr::lemma_ascii("-idirafter"@);
    bstr::lemma_ascii("-include"@);
    bstr::lemma_ascii("-imacros"@);
    assert(bstr::utf8("-MT"@)[2] == 0x54);
    assert(bstr::utf8("-MQ"@)[2] == 0x51);
    assert(bstr::utf8("-MF"@)[2] == 0x46);
    assert(bstr::utf8("-D"@)[1] == 0x44 && bstr::utf8("-U"@)[1] == 0x55);
    assert(bstr::utf8("-J"@)[1] == 0x4a && bstr::utf8("-I"@)[1] == 0x49 && bstr::utf8("-o"@)[1]
        == 0x6f);
    assert(args[index + 0] == spelled(word)[0]);
    if attached {
        if option.len() == 3 || option[1] == 0x4a || option[1] == 0x49 || option[1] == 0x6f {
            if option.len() > 3 {
                lemma_attached_option(option, value);
            } else {
                lemma_attached_first(option, value);
            }
        } else {
            lemma_attached_option(option, value);
        }
    } else {
        assert(args[index + 1] == spelled(word)[1]);
        lemma_separate(option, value);
    }
}

/// The invocation with what a word asks for.
spec fn amends(before: Invocation, word: Word) -> Invocation {
    Invocation {
        cacheability: match refused(word) {
            Some(reason) => if before.cacheability is Cacheable {
                Cacheability::Bypass(reason)
            } else {
                before.cacheability
            },
            None => before.cacheability,
        },
        object: if object(word) is Some {
            object(word)
        } else {
            before.object
        },
        include_dirs: before.include_dirs + include_directories(word),
        original_module_dirs: before.original_module_dirs + module_directories(word),
        search_paths: before.search_paths + searched(word),
        forced_inputs: before.forced_inputs + forced(word),
        intrinsic_module_dirs: before.intrinsic_module_dirs + intrinsic_directories(word),
        user_depfile: if depfile(word) is Some {
            depfile(word)
        } else {
            before.user_depfile
        },
        dependency_mode: if mode(word) is Some {
            mode(word)
        } else {
            before.dependency_mode
        },
        dependency_target_modifiers: before.dependency_target_modifiers + target_arguments(word),
        compile_only: before.compile_only || word is Compile,
        syntax_only: before.syntax_only || word is CheckSyntax,
        extra_args: before.extra_args + repeated(word),
        ..before
    }
}

#[verifier::spinoff_prover]
proof fn lemma_attached_search(before: Invocation, option: Seq<u8>, value: Seq<u8>)
    requires
        value.len() > 0,
        value[0] != 0x2d,
    ensures
        option == bstr::utf8("-iquote"@) ==> gfortran::attached_resolution_option(
            before,
            option + value,
        ) == gfortran::searching(before, SearchPathKind::Quote, value),
        option == bstr::utf8("-isystem"@) ==> gfortran::attached_resolution_option(
            before,
            option + value,
        ) == gfortran::searching(before, SearchPathKind::System, value),
        option == bstr::utf8("-idirafter"@) ==> gfortran::attached_resolution_option(
            before,
            option + value,
        ) == gfortran::searching(before, SearchPathKind::After, value),
        option == bstr::utf8("-include"@) ==> gfortran::attached_resolution_option(
            before,
            option + value,
        ) == gfortran::forcing(before, ForcedInputKind::Include, value),
        option == bstr::utf8("-imacros"@) ==> gfortran::attached_resolution_option(
            before,
            option + value,
        ) == gfortran::forcing(before, ForcedInputKind::Imacros, value),
        option == bstr::utf8("-fintrinsic-modules-path="@) ==> gfortran::attached_resolution_option(
            before,
            option + value,
        ) == gfortran::intrinsic(before, value),
{
    let arg = option + value;
    lemma_attached(option, value);
    reveal_strlit("-iquote");
    bstr::lemma_ascii("-iquote"@);
    reveal_strlit("-isystem");
    bstr::lemma_ascii("-isystem"@);
    reveal_strlit("-idirafter");
    bstr::lemma_ascii("-idirafter"@);
    reveal_strlit("-include");
    bstr::lemma_ascii("-include"@);
    reveal_strlit("-imacros");
    bstr::lemma_ascii("-imacros"@);
    reveal_strlit("-fintrinsic-modules-path");
    bstr::lemma_ascii("-fintrinsic-modules-path"@);
    reveal_strlit("-fintrinsic-modules-path=");
    bstr::lemma_ascii("-fintrinsic-modules-path="@);
    reveal_strlit("-iframework");
    bstr::lemma_ascii("-iframework"@);
    reveal_strlit("-F");
    bstr::lemma_ascii("-F"@);
    reveal_strlit("-D");
    bstr::lemma_ascii("-D"@);
    reveal_strlit("-U");
    bstr::lemma_ascii("-U"@);
    reveal_strlit("-isysroot");
    bstr::lemma_ascii("-isysroot"@);
    lemma_prefix(arg, bstr::utf8("-iquote"@));
    lemma_prefix(arg, bstr::utf8("-isystem"@));
    lemma_prefix(arg, bstr::utf8("-idirafter"@));
    lemma_prefix(arg, bstr::utf8("-include"@));
    lemma_prefix(arg, bstr::utf8("-imacros"@));
    lemma_prefix(arg, bstr::utf8("-fintrinsic-modules-path="@));
    lemma_prefix(arg, bstr::utf8("-F"@));
    if option == bstr::utf8("-iquote"@) || option == bstr::utf8("-isystem"@) || option
        == bstr::utf8("-idirafter"@) || option == bstr::utf8("-include"@) || option == bstr::utf8(
        "-imacros"@,
    ) || option == bstr::utf8("-fintrinsic-modules-path="@) {
        assert(arg[1] == option[1]);
        assert(arg[2] == option[2]);
        assert(bstr::utf8("-iquote"@)[2] == 0x71);
        assert(bstr::utf8("-isystem"@)[2] == 0x73);
        assert(bstr::utf8("-idirafter"@)[2] == 0x64);
        assert(bstr::utf8("-include"@)[2] == 0x6e);
        assert(bstr::utf8("-imacros"@)[2] == 0x6d);
        assert(bstr::utf8("-fintrinsic-modules-path="@)[1] == 0x66);
    }
}

proof fn lemma_unsearched(before: Invocation, arg: Seq<u8>)
    requires
        arg.len() > 1,
        arg[1] != 0x69,
        arg[1] != 0x46,
        !bstr::has_prefix(arg, bstr::utf8("-fintrinsic-modules-path="@)),
    ensures
        gfortran::attached_resolution_option(before, arg) == before,
{
    reveal_strlit("-iquote");
    bstr::lemma_ascii("-iquote"@);
    reveal_strlit("-isystem");
    bstr::lemma_ascii("-isystem"@);
    reveal_strlit("-idirafter");
    bstr::lemma_ascii("-idirafter"@);
    reveal_strlit("-include");
    bstr::lemma_ascii("-include"@);
    reveal_strlit("-imacros");
    bstr::lemma_ascii("-imacros"@);
    reveal_strlit("-fintrinsic-modules-path");
    bstr::lemma_ascii("-fintrinsic-modules-path"@);
    reveal_strlit("-fintrinsic-modules-path=");
    bstr::lemma_ascii("-fintrinsic-modules-path="@);
    reveal_strlit("-iframework");
    bstr::lemma_ascii("-iframework"@);
    reveal_strlit("-F");
    bstr::lemma_ascii("-F"@);
    reveal_strlit("-D");
    bstr::lemma_ascii("-D"@);
    reveal_strlit("-U");
    bstr::lemma_ascii("-U"@);
    reveal_strlit("-isysroot");
    bstr::lemma_ascii("-isysroot"@);
    lemma_prefix(arg, bstr::utf8("-iquote"@));
    lemma_prefix(arg, bstr::utf8("-isystem"@));
    lemma_prefix(arg, bstr::utf8("-idirafter"@));
    lemma_prefix(arg, bstr::utf8("-include"@));
    lemma_prefix(arg, bstr::utf8("-imacros"@));
    lemma_prefix(arg, bstr::utf8("-fintrinsic-modules-path="@));
    lemma_prefix(arg, bstr::utf8("-F"@));
}

#[verifier::spinoff_prover]
proof fn lemma_separate_search(before: Invocation, option: Seq<u8>, value: Seq<u8>)
    ensures
        option == bstr::utf8("-iquote"@) ==> gfortran::resolution_option(before, option, value)
            == gfortran::searching(before, SearchPathKind::Quote, value),
        option == bstr::utf8("-isystem"@) ==> gfortran::resolution_option(before, option, value)
            == gfortran::searching(before, SearchPathKind::System, value),
        option == bstr::utf8("-idirafter"@) ==> gfortran::resolution_option(before, option, value)
            == gfortran::searching(before, SearchPathKind::After, value),
        option == bstr::utf8("-include"@) ==> gfortran::resolution_option(before, option, value)
            == gfortran::forcing(before, ForcedInputKind::Include, value),
        option == bstr::utf8("-imacros"@) ==> gfortran::resolution_option(before, option, value)
            == gfortran::forcing(before, ForcedInputKind::Imacros, value),
        option == bstr::utf8("-fintrinsic-modules-path"@) ==> gfortran::resolution_option(
            before,
            option,
            value,
        ) == gfortran::intrinsic(before, value),
        option == bstr::utf8("-D"@) || option == bstr::utf8("-U"@) || option == bstr::utf8(
            "-isysroot"@,
        ) ==> gfortran::resolution_option(before, option, value) == before,
{
    reveal_strlit("-iquote");
    bstr::lemma_ascii("-iquote"@);
    reveal_strlit("-isystem");
    bstr::lemma_ascii("-isystem"@);
    reveal_strlit("-idirafter");
    bstr::lemma_ascii("-idirafter"@);
    reveal_strlit("-include");
    bstr::lemma_ascii("-include"@);
    reveal_strlit("-imacros");
    bstr::lemma_ascii("-imacros"@);
    reveal_strlit("-fintrinsic-modules-path");
    bstr::lemma_ascii("-fintrinsic-modules-path"@);
    reveal_strlit("-fintrinsic-modules-path=");
    bstr::lemma_ascii("-fintrinsic-modules-path="@);
    reveal_strlit("-iframework");
    bstr::lemma_ascii("-iframework"@);
    reveal_strlit("-F");
    bstr::lemma_ascii("-F"@);
    reveal_strlit("-D");
    bstr::lemma_ascii("-D"@);
    reveal_strlit("-U");
    bstr::lemma_ascii("-U"@);
    reveal_strlit("-isysroot");
    bstr::lemma_ascii("-isysroot"@);
    assert(bstr::utf8("-iquote"@)[2] == 0x71);
    assert(bstr::utf8("-isystem"@)[5] == 0x74);
    assert(bstr::utf8("-isysroot"@)[5] == 0x72);
    assert(bstr::utf8("-idirafter"@)[2] == 0x64);
    assert(bstr::utf8("-include"@)[2] == 0x6e);
    assert(bstr::utf8("-imacros"@)[2] == 0x6d);
    assert(bstr::utf8("-iframework"@)[2] == 0x66);
    assert(bstr::utf8("-F"@)[1] == 0x46);
    assert(bstr::utf8("-D"@)[1] == 0x44);
    assert(bstr::utf8("-U"@)[1] == 0x55);
}

#[verifier::spinoff_prover]
proof fn lemma_amended(before: Invocation, word: Word)
    requires
        understood(word),
    ensures
        gfortran::amended(before, directive_of(word)) == amends(before, word),
{
    reveal(gfortran::amended);
    let after = gfortran::amended(before, directive_of(word));
    match word {
        Word::Search { tier, directory, attached } => {
            let name = match tier {
                Tier::Quote => bstr::utf8("-iquote"@),
                Tier::System => bstr::utf8("-isystem"@),
                Tier::After => bstr::utf8("-idirafter"@),
            };
            if attached {
                lemma_attached_search(before, name, directory);
            } else {
                lemma_separate_search(before, name, directory);
            }
        },
        Word::Forced { macros, path, attached } => {
            let name = if macros {
                bstr::utf8("-imacros"@)
            } else {
                bstr::utf8("-include"@)
            };
            if attached {
                lemma_attached_search(before, name, path);
            } else {
                lemma_separate_search(before, name, path);
            }
        },
        Word::Intrinsics { directory, attached } => {
            if attached {
                lemma_attached_search(
                    before,
                    bstr::utf8("-fintrinsic-modules-path="@),
                    directory,
                );
            } else {
                lemma_separate_search(before, bstr::utf8("-fintrinsic-modules-path"@), directory);
            }
        },
        Word::Define { value, attached } => {
            lemma_defining(before, bstr::utf8("-D"@), value, attached);
        },
        Word::Undefine { value, attached } => {
            lemma_defining(before, bstr::utf8("-U"@), value, attached);
        },
        Word::SystemRoot { directory } => {
            lemma_separate_search(before, bstr::utf8("-isysroot"@), directory);
        },
        Word::Supported { option } => {
            lemma_supported(option);
            lemma_unsearched(before, option);
        },
        _ => {},
    }
    assert(after =~= amends(before, word));
}

proof fn lemma_defining(before: Invocation, option: Seq<u8>, value: Seq<u8>, attached: bool)
    requires
        option == bstr::utf8("-D"@) || option == bstr::utf8("-U"@),
        attachable(value, attached),
    ensures
        attached ==> gfortran::attached_resolution_option(before, option + value) == before,
        !attached ==> gfortran::resolution_option(before, option, value) == before,
{
    reveal_strlit("-D");
    reveal_strlit("-U");
    reveal_strlit("-fintrinsic-modules-path=");
    bstr::lemma_ascii("-D"@);
    bstr::lemma_ascii("-U"@);
    bstr::lemma_ascii("-fintrinsic-modules-path="@);
    let arg = option + value;
    assert(bstr::utf8("-D"@)[1] == 0x44 && bstr::utf8("-U"@)[1] == 0x55);
    assert(arg[1] == option[1]);
    lemma_prefix(arg, bstr::utf8("-fintrinsic-modules-path="@));
    assert(bstr::utf8("-fintrinsic-modules-path="@)[1] == 0x66);
    if attached {
        lemma_unsearched(before, arg);
    } else {
        lemma_separate_search(before, option, value);
    }
}

/// The command line read up to some word.
spec fn folded(words: Seq<Word>, args: Seq<Seq<u8>>) -> Partial
    decreases words.len(),
{
    if words.len() == 0 {
        gfortran::beginning(args)
    } else {
        gfortran::advanced(folded(words.drop_last(), args), directive_of(words.last()))
    }
}

proof fn lemma_spelled_at(words: Seq<Word>, index: int)
    requires
        0 <= index < words.len(),
    ensures
        ({
            let start = command_line(words.take(index)).len() as int;
            &&& start + spelled(words[index]).len() <= command_line(words).len()
            &&& command_line(words.take(index + 1)).len() == start + spelled(words[index]).len()
            &&& forall|at: int|
                0 <= at < spelled(words[index]).len() ==> command_line(words)[start + at]
                    == #[trigger] spelled(words[index])[at]
        }),
    decreases words.len(),
{
    let next = words.take(index + 1);
    assert(next.drop_last() =~= words.take(index));
    assert(next.last() == words[index]);
    if index == words.len() - 1 {
        assert(next =~= words);
    } else {
        let shorter = words.drop_last();
        lemma_spelled_at(shorter, index);
        assert(shorter.take(index) =~= words.take(index));
        assert(shorter.take(index + 1) =~= next);
        assert(shorter[index] == words[index]);
    }
}

proof fn lemma_end_options(words: Seq<Word>, args: Seq<Seq<u8>>)
    ensures
        !folded(words, args).end_options,
    decreases words.len(),
{
    if words.len() > 0 {
        lemma_end_options(words.drop_last(), args);
    }
}

proof fn lemma_read(words: Seq<Word>, index: int, args: Seq<Seq<u8>>)
    requires
        0 <= index <= words.len(),
        forall|at: int| 0 <= at < words.len() ==> understood(#[trigger] words[at]),
        command_line(words).len() <= args.len(),
        forall|at: int|
            0 <= at < command_line(words).len() ==> args[at] == #[trigger] command_line(words)[at],
    ensures
        gfortran::read_from(
            args,
            command_line(words.take(index)).len() as int,
            folded(words.take(index), args),
        ) == gfortran::read_from(args, command_line(words).len() as int, folded(words, args)),
    decreases words.len() - index,
{
    if index == words.len() {
        assert(words.take(index) =~= words);
    } else {
        lemma_spelled_at(words, index);
        lemma_end_options(words.take(index), args);
        let start = command_line(words.take(index)).len() as int;
        let word = words[index];
        assert forall|at: int| 0 <= at < spelled(word).len() implies args[start + at]
            == #[trigger] spelled(word)[at] by {
            assert(command_line(words)[start + at] == spelled(word)[at]);
        }
        lemma_directive(word, args, start);
        lemma_read(words, index + 1, args);
        let next = words.take(index + 1);
        assert(next.drop_last() =~= words.take(index));
        assert(next.last() == word);
    }
}

/// The invocation that the options of a list of words make.
pub open spec fn options_of(words: Seq<Word>) -> Invocation {
    Invocation {
        cacheability: match first_of(words, |word: Word| refused(word)) {
            Some(reason) => Cacheability::Bypass(reason),
            None => Cacheability::Cacheable,
        },
        source: None,
        object: last_of(words, |word: Word| object(word)),
        module_dir: None,
        include_dirs: all_of(words, |word: Word| include_directories(word)),
        original_module_dirs: all_of(words, |word: Word| module_directories(word)),
        search_paths: all_of(words, |word: Word| searched(word)),
        forced_inputs: all_of(words, |word: Word| forced(word)),
        intrinsic_module_dirs: all_of(words, |word: Word| intrinsic_directories(word)),
        user_depfile: last_of(words, |word: Word| depfile(word)),
        dependency_mode: last_of(words, |word: Word| mode(word)),
        dependency_target_modifiers: all_of(words, |word: Word| target_arguments(word)),
        compile_only: some_of(words, |word: Word| word is Compile),
        syntax_only: some_of(words, |word: Word| word is CheckSyntax),
        preprocessing: Preprocessing::Auto,
        original_args: command_line(words),
        extra_args: all_of(words, |word: Word| repeated(word)),
        unmodeled_search_argument: None,
    }
}

proof fn lemma_some_of(words: Seq<Word>, wanted: spec_fn(Word) -> bool)
    requires
        words.len() > 0,
    ensures
        some_of(words, wanted) <==> some_of(words.drop_last(), wanted) || wanted(words.last()),
{
    let shorter = words.drop_last();
    if some_of(words, wanted) {
        let at = choose|at: int| 0 <= at < words.len() && wanted(#[trigger] words[at]);
        if at < shorter.len() {
            assert(wanted(shorter[at]));
        }
    }
    if some_of(shorter, wanted) {
        let at = choose|at: int| 0 <= at < shorter.len() && wanted(#[trigger] shorter[at]);
        assert(wanted(words[at]));
    }
    assert(words[words.len() - 1] == words.last());
}

#[verifier::spinoff_prover]
proof fn lemma_folded(words: Seq<Word>, args: Seq<Seq<u8>>)
    requires
        forall|at: int| 0 <= at < words.len() ==> understood(#[trigger] words[at]),
    ensures
        ({
            let partial = folded(words, args);
            &&& partial.invocation == (Invocation { original_args: args, ..options_of(words) })
            &&& partial.positional == all_of(words, |word: Word| sources(word))
            &&& partial.explicit_cpp == last_of(words, |word: Word| preprocessor(word))
            &&& partial.fpreprocessed == some_of(words, |word: Word| word is Preprocessed)
        }),
    decreases words.len(),
{
    if words.len() > 0 {
        let shorter = words.drop_last();
        let last = words.last();
        assert(forall|at: int| 0 <= at < shorter.len() ==> shorter[at] == words[at]);
        lemma_folded(shorter, args);
        let before = folded(shorter, args);
        lemma_amended(before.invocation, last);
        lemma_some_of(words, |word: Word| word is Compile);
        lemma_some_of(words, |word: Word| word is CheckSyntax);
        lemma_some_of(words, |word: Word| word is Preprocessed);
        let after = folded(words, args);
        assert(after.invocation == amends(before.invocation, last));
        assert(after.invocation =~= (Invocation { original_args: args, ..options_of(words) }));
        assert(after.positional =~= all_of(words, |word: Word| sources(word)));
    } else {
        assert(folded(words, args).invocation =~= (Invocation {
            original_args: args,
            ..options_of(words)
        }));
        assert(folded(words, args).positional =~= all_of(words, |word: Word| sources(word)));
    }
}

#[verifier::spinoff_prover]
proof fn lemma_extension(extension: Seq<u8>)
    requires
        source_extension(extension),
    ensures
        extension.len() > 0,
        forall|at: int|
            0 <= at < extension.len() ==> extension[at] != 0x2f && extension[at] != 0x2e,
        upper_extension(extension) <==> bstr::has_upper(extension),
{
    reveal_strlit("f");
    bstr::lemma_ascii("f"@);
    reveal_strlit("for");
    bstr::lemma_ascii("for"@);
    reveal_strlit("f77");
    bstr::lemma_ascii("f77"@);
    reveal_strlit("f90");
    bstr::lemma_ascii("f90"@);
    reveal_strlit("f95");
    bstr::lemma_ascii("f95"@);
    reveal_strlit("f03");
    bstr::lemma_ascii("f03"@);
    reveal_strlit("f08");
    bstr::lemma_ascii("f08"@);
    reveal_strlit("f18");
    bstr::lemma_ascii("f18"@);
    reveal_strlit("F");
    bstr::lemma_ascii("F"@);
    reveal_strlit("FOR");
    bstr::lemma_ascii("FOR"@);
    reveal_strlit("F77");
    bstr::lemma_ascii("F77"@);
    reveal_strlit("F90");
    bstr::lemma_ascii("F90"@);
    reveal_strlit("F95");
    bstr::lemma_ascii("F95"@);
    reveal_strlit("F03");
    bstr::lemma_ascii("F03"@);
    reveal_strlit("F08");
    bstr::lemma_ascii("F08"@);
    reveal_strlit("F18");
    bstr::lemma_ascii("F18"@);
    reveal_strlit("fpp");
    bstr::lemma_ascii("fpp"@);
    reveal_strlit("FPP");
    bstr::lemma_ascii("FPP"@);
    if upper_extension(extension) {
        assert(bstr::is_upper(extension[0]));
    } else {
        assert(forall|at: int| 0 <= at < extension.len() ==> !bstr::is_upper(extension[at]));
    }
}

/// Exactly the paths whose last component is a name, a dot and one of these extensions are Fortran
/// sources, and exactly those with an upper-case extension are preprocessed unasked.
pub proof fn law_fortran_sources(path: Seq<u8>)
    ensures
        gfortran::fortran_source(path) <==> (upath::extension_of(path) is Some
            && source_extension(upath::extension_of(path)->0)),
        gfortran::fortran_source(path) ==> (gfortran::uppercase_extension(path) <==> upper_extension(
            upath::extension_of(path)->0,
        )),
        gfortran::fortran_source(path) ==> exists|stem: Seq<u8>, extension: Seq<u8>|
            stem.len() > 0 && source_extension(extension) && upath::file_name_of(path) == Some(
                #[trigger] (stem.push(0x2e) + extension),
            ),
{
    reveal(gfortran::fortran_extension);
    if gfortran::fortran_source(path) {
        let extension = upath::extension_of(path)->0;
        lemma_extension(extension);
        upath::law_extension_follows_a_dot(path);
        let stem = choose|stem: Seq<u8>|
            stem.len() > 0 && upath::file_name_of(path)->0 == #[trigger] stem.push(0x2e) + extension;
        assert(upath::file_name_of(path) == Some(stem.push(0x2e) + extension));
    }
}

proof fn lemma_one_source(words: Seq<Word>, at: int)
    requires
        0 <= at < words.len(),
        words[at] is Source,
        forall|other: int|
            0 <= other < words.len() && other != at ==> !(#[trigger] words[other] is Source),
    ensures
        all_of(words, |word: Word| sources(word)) == spelled(words[at]),
    decreases words.len(),
{
    let shorter = words.drop_last();
    assert(forall|other: int| 0 <= other < shorter.len() ==> shorter[other] == words[other]);
    if at == words.len() - 1 {
        lemma_no_source(shorter);
        assert(Seq::<Seq<u8>>::empty() + spelled(words[at]) =~= spelled(words[at]));
    } else {
        lemma_one_source(shorter, at);
        assert(!(words[words.len() - 1] is Source));
        assert(spelled(words[at]) + Seq::<Seq<u8>>::empty() =~= spelled(words[at]));
    }
}

proof fn lemma_no_source(words: Seq<Word>)
    requires
        forall|at: int| 0 <= at < words.len() ==> !(#[trigger] words[at] is Source),
    ensures
        all_of(words, |word: Word| sources(word)) == Seq::<Seq<u8>>::empty(),
    decreases words.len(),
{
    if words.len() > 0 {
        let shorter = words.drop_last();
        assert(forall|at: int| 0 <= at < shorter.len() ==> shorter[at] == words[at]);
        lemma_no_source(shorter);
        assert(!(words[words.len() - 1] is Source));
        assert(Seq::<Seq<u8>>::empty() + Seq::<Seq<u8>>::empty() =~= Seq::<Seq<u8>>::empty());
    }
}

/// The reason that is kept: the earlier one.
pub open spec fn or_else(
    first: Cacheability<Seq<u8>>,
    second: Cacheability<Seq<u8>>,
) -> Cacheability<Seq<u8>> {
    if first is Cacheable {
        second
    } else {
        first
    }
}

/// The reason for which a list of words is not cached, where no word is refused: two module
/// directories, then two sources, then none, then that nothing is compiled.
pub open spec fn shape_of(words: Seq<Word>) -> Cacheability<Seq<u8>> {
    let named = all_of(words, |word: Word| sources(word)).len();
    if all_of(words, |word: Word| module_directories(word)).len() > 1 {
        Cacheability::Bypass(BypassReason::DuplicateModuleDirectory)
    } else if named > 1 {
        Cacheability::Bypass(BypassReason::MultipleSources)
    } else if named == 0 {
        Cacheability::Bypass(BypassReason::MissingSource)
    } else if !some_of(words, |word: Word| word is Compile) && !some_of(
        words,
        |word: Word| word is CheckSyntax,
    ) {
        Cacheability::Bypass(BypassReason::LinkAction)
    } else {
        Cacheability::Cacheable
    }
}

proof fn lemma_sources(words: Seq<Word>, paths: Seq<Seq<u8>>)
    requires
        paths == all_of(words, |word: Word| sources(word)),
        forall|at: int| 0 <= at < words.len() ==> understood(#[trigger] words[at]),
    ensures
        forall|at: int| 0 <= at < paths.len() ==> fortran_input(#[trigger] paths[at]),
    decreases words.len(),
{
    if words.len() > 0 {
        let shorter = words.drop_last();
        let last = words[words.len() - 1];
        assert(forall|at: int| 0 <= at < shorter.len() ==> shorter[at] == words[at]);
        let before = all_of(shorter, |word: Word| sources(word));
        lemma_sources(shorter, before);
        assert(understood(last));
        match last {
            Word::Source { lead, stem, extension } => {
                lemma_extension(extension);
                upath::law_extensions(lead, stem, extension, Seq::empty());
                reveal(gfortran::fortran_extension);
                reveal_strlit("-");
                bstr::lemma_ascii("-"@);
                assert(fortran_input(lead + stem + seq![0x2e] + extension));
            },
            _ => {},
        }
        assert(paths == before + sources(last));
        assert forall|at: int| 0 <= at < paths.len() implies fortran_input(#[trigger] paths[at]) by {
            if at < before.len() {
                assert(paths[at] == before[at]);
            } else {
                assert(paths[at] == sources(last)[at - before.len()]);
            }
        }
    }
}

/// A path that is compiled as a source.
spec fn fortran_input(path: Seq<u8>) -> bool {
    gfortran::fortran_source(path) && path != bstr::utf8("-"@)
}

proof fn lemma_inputs(before: Invocation, paths: Seq<Seq<u8>>)
    requires
        forall|at: int| 0 <= at < paths.len() ==> fortran_input(#[trigger] paths[at]),
        before.source is None,
    ensures
        gfortran::with_inputs(before, paths) == (Invocation {
            source: if paths.len() > 0 {
                Some(paths[0])
            } else {
                None
            },
            cacheability: if paths.len() > 1 {
                or_else(before.cacheability, Cacheability::Bypass(BypassReason::MultipleSources))
            } else {
                before.cacheability
            },
            ..before
        }),
    decreases paths.len(),
{
    if paths.len() > 0 {
        let shorter = paths.drop_last();
        assert(forall|at: int| 0 <= at < shorter.len() ==> shorter[at] == paths[at]);
        lemma_inputs(before, shorter);
        assert(fortran_input(paths[paths.len() - 1]));
    }
}

/// A command line of known words is cached exactly where none of them is refused, one source is
/// named, it is compiled or checked, and modules have one directory at most. Otherwise the first
/// refused word gives the reason, or else what is amiss with the whole.
pub proof fn law_which_command_lines_are_cached(words: Seq<Word>)
    requires
        words.len() > 0,
        forall|at: int| 0 <= at < words.len() ==> understood(#[trigger] words[at]),
    ensures
        gfortran::parsed(command_line(words)) is Ok,
        gfortran::parsed(command_line(words))->Ok_0.cacheability == (match first_of(
            words,
            |word: Word| refused(word),
        ) {
            Some(reason) => Cacheability::Bypass(reason),
            None => shape_of(words),
        }),
{
    lemma_parsed(words);
    let partial = folded(words, command_line(words));
    lemma_folded(words, command_line(words));
    lemma_sources(words, partial.positional);
    lemma_inputs(gfortran::with_module_directory(partial.invocation), partial.positional);
}

proof fn lemma_parsed(words: Seq<Word>)
    requires
        words.len() > 0,
        forall|at: int| 0 <= at < words.len() ==> understood(#[trigger] words[at]),
    ensures
        gfortran::parsed(command_line(words)) == Ok::<Invocation, gfortran::ParseError<Seq<u8>>>(
            gfortran::completed(folded(words, command_line(words))),
        ),
{
    let args = command_line(words);
    assert(words.take(0) =~= Seq::empty());
    lemma_read(words, 0, args);
    lemma_spelled_at(words, 0);
    assert(words.take(0) =~= Seq::empty());
    assert(forall|at: int| 0 <= at < spelled(words[0]).len() ==> args[at] == spelled(words[0])[at]);
    assert(understood(words[0]));
    assert(spelled(words[0]).len() > 0);
}

/// A command line of known words with one source amounts to what its words say, whatever order they
/// stand in. The source is the one that is named. The object, the depfile, the dependency mode and
/// the preprocessing are those of the last word that sets them; directories, injected files and the
/// arguments that probes repeat are kept in order. Where a dependency mode is set and no depfile
/// named, the depfile is that of the object, or else of the source in the working directory. A
/// source with an upper-case extension is preprocessed unless a word says otherwise.
#[verifier::spinoff_prover]
pub proof fn law_command_lines_amount_to_their_words(words: Seq<Word>, at: int)
    requires
        forall|other: int| 0 <= other < words.len() ==> understood(#[trigger] words[other]),
        0 <= at < words.len(),
        words[at] is Source,
        forall|other: int|
            0 <= other < words.len() && other != at ==> !(#[trigger] words[other] is Source),
    ensures
        ({
            let said = options_of(words);
            gfortran::parsed(command_line(words)) == Ok::<
                Invocation,
                gfortran::ParseError<Seq<u8>>,
            >(
                (Invocation {
                    cacheability: match first_of(words, |word: Word| refused(word)) {
                        Some(reason) => Cacheability::Bypass(reason),
                        None => shape_of(words),
                    },
                    source: Some(spelled(words[at])[0]),
                    module_dir: if said.original_module_dirs.len() == 1 {
                        Some(said.original_module_dirs[0])
                    } else {
                        None
                    },
                    user_depfile: if said.user_depfile is Some || said.dependency_mode is None {
                        said.user_depfile
                    } else if said.object is Some {
                        Some(upath::with_extension_of(said.object->0, bstr::utf8("d"@)))
                    } else {
                        Some(words[at]->stem + bstr::utf8(".d"@))
                    },
                    preprocessing: if some_of(words, |word: Word| word is Preprocessed) {
                        Preprocessing::Fpreprocessed
                    } else {
                        match last_of(words, |word: Word| preprocessor(word)) {
                            Some(true) => Preprocessing::Cpp,
                            Some(false) => Preprocessing::NoCpp,
                            None => if upper_extension(words[at]->extension) {
                                Preprocessing::Cpp
                            } else {
                                Preprocessing::Auto
                            },
                        }
                    },
                    ..said
                }),
            )
        }),
{
    let args = command_line(words);
    let lead = words[at]->lead;
    let stem = words[at]->stem;
    let extension = words[at]->extension;
    let path = lead + stem + seq![0x2e] + extension;
    assert(understood(words[at]));
    lemma_extension(extension);
    upath::law_extensions(lead, stem, extension, bstr::utf8("d"@));
    upath::law_extensions(Seq::empty(), stem, extension, bstr::utf8("d"@));
    assert(Seq::<u8>::empty() + stem =~= stem);
    law_fortran_sources(path);
    lemma_parsed(words);
    lemma_folded(words, args);
    lemma_one_source(words, at);
    reveal_strlit(".d");
    bstr::lemma_ascii(".d"@);
    reveal_strlit("d");
    bstr::lemma_ascii("d"@);
    assert(stem + seq![0x2e] + bstr::utf8("d"@) =~= stem + bstr::utf8(".d"@));
    let partial = folded(words, args);
    assert(partial.positional == seq![path]);
    lemma_sources(words, partial.positional);
    lemma_inputs(gfortran::with_module_directory(partial.invocation), partial.positional);
}

/// A command line that ends in an option whose value is missing cannot be read, and the option is
/// named. Without any argument there is nothing to read.
pub proof fn law_missing_values(words: Seq<Word>, option: Seq<u8>)
    requires
        forall|at: int| 0 <= at < words.len() ==> understood(#[trigger] words[at]),
        option == bstr::utf8("-o"@) || option == bstr::utf8("-J"@) || option == bstr::utf8("-I"@)
            || option == bstr::utf8("-MF"@) || option == bstr::utf8("-MT"@) || option == bstr::utf8(
            "-MQ"@,
        ) || option == bstr::utf8("-D"@) || option == bstr::utf8("-U"@) || option == bstr::utf8(
            "-iquote"@,
        ) || option == bstr::utf8("-isystem"@) || option == bstr::utf8("-isysroot"@) || option
            == bstr::utf8("-idirafter"@) || option == bstr::utf8("-include"@) || option
            == bstr::utf8("-imacros"@) || option == bstr::utf8("-fintrinsic-modules-path"@)
            || refusal_with_value(option) is Some,
    ensures
        gfortran::parsed(command_line(words).push(option)) == Err::<
            Invocation,
            gfortran::ParseError<Seq<u8>>,
        >(gfortran::ParseError::MissingOptionArgument { option }),
        gfortran::parsed(Seq::empty()) == Err::<Invocation, gfortran::ParseError<Seq<u8>>>(
            gfortran::ParseError::EmptyInvocation,
        ),
{
    let args = command_line(words).push(option);
    assert(words.take(0) =~= Seq::empty());
    lemma_read(words, 0, args);
    lemma_end_options(words, args);
    lemma_separate(option, Seq::empty());
    if refusal_with_value(option) is Some {
        lemma_refused_with_value(option, Seq::empty());
    }
    assert(gfortran::takes_value(option));
    assert(args[command_line(words).len() as int] == option);
}

} // verus!
