//! The gfortran options that are understood, by what they mean for caching.
//!
//! An option that none of these tables names is unknown, and an invocation that uses one is not
//! cached.
use vstd::prelude::*;

use crate::bstr;

verus! {

/// `arg` is `prefix` followed by a value that is not empty.
pub open spec fn valued(arg: Seq<u8>, prefix: Seq<char>) -> bool {
    bstr::has_prefix(arg, bstr::utf8(prefix)) && arg.len() > bstr::utf8(prefix).len()
}

/// `arg` is `prefix` followed by a value that is not empty.
pub fn has_value_prefix(arg: &[u8], prefix: &str) -> (yes: bool)
    ensures
        yes == valued(arg@, prefix@),
{
    bstr::starts_with_str(arg, prefix) && arg.len() > bstr::of(prefix).len()
}

/// Options that set the source language.
#[verifier::opaque]
pub open spec fn language_override(arg: Seq<u8>) -> bool {
    ||| bstr::has_prefix(arg, bstr::utf8("-x"@))
}

/// Options that set the source language.
pub fn is_language_override(arg: &[u8]) -> (yes: bool)
    ensures
        yes == language_override(arg@),
{
    proof {
        reveal(language_override);
    }
    bstr::starts_with_str(arg, "-x")
}

/// Options whose next argument is handed to another tool.
#[verifier::opaque]
pub open spec fn separate_argument_carrier(arg: Seq<u8>) -> bool {
    ||| arg == bstr::utf8("-Wp"@)
    ||| arg == bstr::utf8("-Wa"@)
    ||| arg == bstr::utf8("-Wl"@)
    ||| arg == bstr::utf8("-Xpreprocessor"@)
    ||| arg == bstr::utf8("-Xassembler"@)
    ||| arg == bstr::utf8("-Xlinker"@)
}

/// Options whose next argument is handed to another tool.
pub fn is_separate_argument_carrier(arg: &[u8]) -> (yes: bool)
    ensures
        yes == separate_argument_carrier(arg@),
{
    proof {
        reveal(separate_argument_carrier);
    }
    bstr::is(arg, "-Wp")
        || bstr::is(arg, "-Wa")
        || bstr::is(arg, "-Wl")
        || bstr::is(arg, "-Xpreprocessor")
        || bstr::is(arg, "-Xassembler")
        || bstr::is(arg, "-Xlinker")
}

/// Options that hand what follows in the same argument to another tool.
#[verifier::opaque]
pub open spec fn argument_carrier(arg: Seq<u8>) -> bool {
    ||| bstr::has_prefix(arg, bstr::utf8("-Wp,"@))
    ||| bstr::has_prefix(arg, bstr::utf8("-Wa,"@))
    ||| bstr::has_prefix(arg, bstr::utf8("-Wl,"@))
    ||| bstr::has_prefix(arg, bstr::utf8("-Xpreprocessor="@))
    ||| bstr::has_prefix(arg, bstr::utf8("-Xassembler="@))
    ||| bstr::has_prefix(arg, bstr::utf8("-Xlinker="@))
}

/// Options that hand what follows in the same argument to another tool.
pub fn is_argument_carrier(arg: &[u8]) -> (yes: bool)
    ensures
        yes == argument_carrier(arg@),
{
    proof {
        reveal(argument_carrier);
    }
    bstr::starts_with_str(arg, "-Wp,")
        || bstr::starts_with_str(arg, "-Wa,")
        || bstr::starts_with_str(arg, "-Wl,")
        || bstr::starts_with_str(arg, "-Xpreprocessor=")
        || bstr::starts_with_str(arg, "-Xassembler=")
        || bstr::starts_with_str(arg, "-Xlinker=")
}

/// The one carrier whose effect on the object is known.
#[verifier::opaque]
pub open spec fn safe_argument_carrier(arg: Seq<u8>) -> bool {
    ||| arg == bstr::utf8("-Wa,--noexecstack"@)
}

/// The one carrier whose effect on the object is known.
pub fn is_safe_argument_carrier(arg: &[u8]) -> (yes: bool)
    ensures
        yes == safe_argument_carrier(arg@),
{
    proof {
        reveal(safe_argument_carrier);
    }
    bstr::is(arg, "-Wa,--noexecstack")
}

/// Options that write diagnostics to a file.
#[verifier::opaque]
pub open spec fn file_diagnostic(arg: Seq<u8>) -> bool {
    ||| bstr::has_prefix(arg, bstr::utf8("-fdiagnostics-file="@))
    ||| bstr::has_prefix(arg, bstr::utf8("-fdiagnostics-add-output="@))
    ||| bstr::has_prefix(arg, bstr::utf8("-fdiagnostics-set-output="@))
    ||| bstr::has_prefix(arg, bstr::utf8("-fdiagnostics-format=sarif"@))
}

/// Options that write diagnostics to a file.
pub fn is_file_diagnostic(arg: &[u8]) -> (yes: bool)
    ensures
        yes == file_diagnostic(arg@),
{
    proof {
        reveal(file_diagnostic);
    }
    bstr::starts_with_str(arg, "-fdiagnostics-file=")
        || bstr::starts_with_str(arg, "-fdiagnostics-add-output=")
        || bstr::starts_with_str(arg, "-fdiagnostics-set-output=")
        || bstr::starts_with_str(arg, "-fdiagnostics-format=sarif")
}

/// Supported options whose value is the next argument.
#[verifier::opaque]
pub open spec fn separate_value_option(arg: Seq<u8>) -> bool {
    ||| arg == bstr::utf8("-D"@)
    ||| arg == bstr::utf8("-U"@)
    ||| arg == bstr::utf8("-include"@)
    ||| arg == bstr::utf8("-imacros"@)
    ||| arg == bstr::utf8("-isystem"@)
    ||| arg == bstr::utf8("-isysroot"@)
    ||| arg == bstr::utf8("-iframework"@)
    ||| arg == bstr::utf8("-iquote"@)
    ||| arg == bstr::utf8("-idirafter"@)
    ||| arg == bstr::utf8("-F"@)
    ||| arg == bstr::utf8("-fintrinsic-modules-path"@)
}

/// Supported options whose value is the next argument.
pub fn is_separate_value_option(arg: &[u8]) -> (yes: bool)
    ensures
        yes == separate_value_option(arg@),
{
    proof {
        reveal(separate_value_option);
    }
    bstr::is(arg, "-D")
        || bstr::is(arg, "-U")
        || bstr::is(arg, "-include")
        || bstr::is(arg, "-imacros")
        || bstr::is(arg, "-isystem")
        || bstr::is(arg, "-isysroot")
        || bstr::is(arg, "-iframework")
        || bstr::is(arg, "-iquote")
        || bstr::is(arg, "-idirafter")
        || bstr::is(arg, "-F")
        || bstr::is(arg, "-fintrinsic-modules-path")
}

/// Supported optimisation levels.
#[verifier::opaque]
pub open spec fn safe_optimization_option(arg: Seq<u8>) -> bool {
    ||| arg == bstr::utf8("-O"@)
    ||| arg == bstr::utf8("-O0"@)
    ||| arg == bstr::utf8("-O1"@)
    ||| arg == bstr::utf8("-O2"@)
    ||| arg == bstr::utf8("-O3"@)
    ||| arg == bstr::utf8("-Os"@)
    ||| arg == bstr::utf8("-Og"@)
    ||| arg == bstr::utf8("-Ofast"@)
    ||| arg == bstr::utf8("-Oz"@)
}

/// Supported optimisation levels.
pub fn is_safe_optimization_option(arg: &[u8]) -> (yes: bool)
    ensures
        yes == safe_optimization_option(arg@),
{
    proof {
        reveal(safe_optimization_option);
    }
    bstr::is(arg, "-O")
        || bstr::is(arg, "-O0")
        || bstr::is(arg, "-O1")
        || bstr::is(arg, "-O2")
        || bstr::is(arg, "-O3")
        || bstr::is(arg, "-Os")
        || bstr::is(arg, "-Og")
        || bstr::is(arg, "-Ofast")
        || bstr::is(arg, "-Oz")
}

/// Supported warning options.
#[verifier::opaque]
pub open spec fn safe_warning_option(arg: Seq<u8>) -> bool {
    ||| arg == bstr::utf8("-w"@)
    ||| arg == bstr::utf8("-Wall"@)
    ||| arg == bstr::utf8("-Wextra"@)
    ||| arg == bstr::utf8("-Werror"@)
    ||| arg == bstr::utf8("-Wpedantic"@)
    ||| arg == bstr::utf8("-Wconversion"@)
    ||| arg == bstr::utf8("-Wconversion-extra"@)
    ||| arg == bstr::utf8("-Wimplicit-interface"@)
    ||| arg == bstr::utf8("-Wimplicit-procedure"@)
    ||| arg == bstr::utf8("-Winteger-division"@)
    ||| arg == bstr::utf8("-Wintrinsic-shadow"@)
    ||| arg == bstr::utf8("-Wintrinsics-std"@)
    ||| arg == bstr::utf8("-Wline-truncation"@)
    ||| arg == bstr::utf8("-Wreal-q-constant"@)
    ||| arg == bstr::utf8("-Wsurprising"@)
    ||| arg == bstr::utf8("-Wunderflow"@)
    ||| arg == bstr::utf8("-Warray-temporaries"@)
    ||| arg == bstr::utf8("-Wcharacter-truncation"@)
    ||| arg == bstr::utf8("-Wfunction-elimination"@)
    ||| arg == bstr::utf8("-Wrealloc-lhs"@)
    ||| arg == bstr::utf8("-Wrealloc-lhs-all"@)
    ||| arg == bstr::utf8("-Wcompare-reals"@)
    ||| arg == bstr::utf8("-Wtarget-lifetime"@)
    ||| arg == bstr::utf8("-Wdo-subscript"@)
    ||| arg == bstr::utf8("-Wuse-without-only"@)
    ||| arg == bstr::utf8("-Wno-align-commons"@)
    ||| arg == bstr::utf8("-Wno-aliasing"@)
    ||| arg == bstr::utf8("-Wno-c-binding-type"@)
    ||| arg == bstr::utf8("-Wno-conversion"@)
    ||| arg == bstr::utf8("-Wno-unused-dummy-argument"@)
    ||| arg == bstr::utf8("-Wmaybe-uninitialized"@)
}

/// Supported warning options.
pub fn is_safe_warning_option(arg: &[u8]) -> (yes: bool)
    ensures
        yes == safe_warning_option(arg@),
{
    proof {
        reveal(safe_warning_option);
    }
    bstr::is(arg, "-w")
        || bstr::is(arg, "-Wall")
        || bstr::is(arg, "-Wextra")
        || bstr::is(arg, "-Werror")
        || bstr::is(arg, "-Wpedantic")
        || bstr::is(arg, "-Wconversion")
        || bstr::is(arg, "-Wconversion-extra")
        || bstr::is(arg, "-Wimplicit-interface")
        || bstr::is(arg, "-Wimplicit-procedure")
        || bstr::is(arg, "-Winteger-division")
        || bstr::is(arg, "-Wintrinsic-shadow")
        || bstr::is(arg, "-Wintrinsics-std")
        || bstr::is(arg, "-Wline-truncation")
        || bstr::is(arg, "-Wreal-q-constant")
        || bstr::is(arg, "-Wsurprising")
        || bstr::is(arg, "-Wunderflow")
        || bstr::is(arg, "-Warray-temporaries")
        || bstr::is(arg, "-Wcharacter-truncation")
        || bstr::is(arg, "-Wfunction-elimination")
        || bstr::is(arg, "-Wrealloc-lhs")
        || bstr::is(arg, "-Wrealloc-lhs-all")
        || bstr::is(arg, "-Wcompare-reals")
        || bstr::is(arg, "-Wtarget-lifetime")
        || bstr::is(arg, "-Wdo-subscript")
        || bstr::is(arg, "-Wuse-without-only")
        || bstr::is(arg, "-Wno-align-commons")
        || bstr::is(arg, "-Wno-aliasing")
        || bstr::is(arg, "-Wno-c-binding-type")
        || bstr::is(arg, "-Wno-conversion")
        || bstr::is(arg, "-Wno-unused-dummy-argument")
        || bstr::is(arg, "-Wmaybe-uninitialized")
}

/// Supported code generation and Fortran dialect options.
#[verifier::opaque]
pub open spec fn safe_fortran_option(arg: Seq<u8>) -> bool {
    ||| arg == bstr::utf8("-fall-intrinsics"@)
    ||| arg == bstr::utf8("-fbacktrace"@)
    ||| arg == bstr::utf8("-fbackslash"@)
    ||| arg == bstr::utf8("-fbounds-check"@)
    ||| arg == bstr::utf8("-fcray-pointer"@)
    ||| arg == bstr::utf8("-fd-lines-as-code"@)
    ||| arg == bstr::utf8("-fd-lines-as-comments"@)
    ||| arg == bstr::utf8("-fdefault-double-8"@)
    ||| arg == bstr::utf8("-fdefault-integer-8"@)
    ||| arg == bstr::utf8("-fdefault-real-8"@)
    ||| arg == bstr::utf8("-fdollar-ok"@)
    ||| arg == bstr::utf8("-ffixed-form"@)
    ||| arg == bstr::utf8("-ffree-form"@)
    ||| arg == bstr::utf8("-fimplicit-none"@)
    ||| arg == bstr::utf8("-finteger-4-integer-8"@)
    ||| arg == bstr::utf8("-fmodule-private"@)
    ||| arg == bstr::utf8("-fno-align-commons"@)
    ||| arg == bstr::utf8("-fno-backslash"@)
    ||| arg == bstr::utf8("-fno-backtrace"@)
    ||| arg == bstr::utf8("-fno-f2c"@)
    ||| arg == bstr::utf8("-fno-range-check"@)
    ||| arg == bstr::utf8("-fno-realloc-lhs"@)
    ||| arg == bstr::utf8("-fno-second-underscore"@)
    ||| arg == bstr::utf8("-fno-underscoring"@)
    ||| arg == bstr::utf8("-frange-check"@)
    ||| arg == bstr::utf8("-freal-4-real-8"@)
    ||| arg == bstr::utf8("-freal-4-real-10"@)
    ||| arg == bstr::utf8("-freal-4-real-16"@)
    ||| arg == bstr::utf8("-freal-8-real-4"@)
    ||| arg == bstr::utf8("-freal-8-real-10"@)
    ||| arg == bstr::utf8("-freal-8-real-16"@)
    ||| arg == bstr::utf8("-frecursive"@)
    ||| arg == bstr::utf8("-frepack-arrays"@)
    ||| arg == bstr::utf8("-fsecond-underscore"@)
    ||| arg == bstr::utf8("-fstack-arrays"@)
    ||| arg == bstr::utf8("-funderscoring"@)
    ||| arg == bstr::utf8("-fwhole-file"@)
    ||| arg == bstr::utf8("-fPIC"@)
    ||| arg == bstr::utf8("-fpic"@)
    ||| arg == bstr::utf8("-fPIE"@)
    ||| arg == bstr::utf8("-fpie"@)
    ||| arg == bstr::utf8("-fno-pic"@)
    ||| arg == bstr::utf8("-fno-PIC"@)
    ||| arg == bstr::utf8("-fno-pie"@)
    ||| arg == bstr::utf8("-fno-PIE"@)
    ||| arg == bstr::utf8("-fopenmp"@)
    ||| arg == bstr::utf8("-fopenacc"@)
    ||| arg == bstr::utf8("-flto"@)
    ||| arg == bstr::utf8("-fno-lto"@)
    ||| arg == bstr::utf8("-ffast-math"@)
    ||| arg == bstr::utf8("-fno-fast-math"@)
    ||| arg == bstr::utf8("-fdata-sections"@)
    ||| arg == bstr::utf8("-ffunction-sections"@)
    ||| arg == bstr::utf8("-funroll-loops"@)
    ||| arg == bstr::utf8("-funroll-all-loops"@)
    ||| arg == bstr::utf8("-fno-unroll-loops"@)
    ||| arg == bstr::utf8("-ftree-vectorize"@)
    ||| arg == bstr::utf8("-fno-tree-vectorize"@)
    ||| arg == bstr::utf8("-fomit-frame-pointer"@)
    ||| arg == bstr::utf8("-fno-omit-frame-pointer"@)
    ||| arg == bstr::utf8("-fwrapv"@)
    ||| arg == bstr::utf8("-fno-wrapv"@)
    ||| arg == bstr::utf8("-fvisibility=hidden"@)
    ||| valued(arg, "-fblas-matmul-limit="@)
    ||| valued(arg, "-fcheck="@)
    ||| valued(arg, "-fcoarray="@)
    ||| valued(arg, "-fconvert="@)
    ||| valued(arg, "-ffpe-summary="@)
    ||| valued(arg, "-ffile-prefix-map="@)
    ||| valued(arg, "-ffixed-line-length-"@)
    ||| valued(arg, "-ffree-line-length-"@)
    ||| valued(arg, "-finline-limit="@)
    ||| valued(arg, "-fintrinsic-modules-path="@)
    ||| valued(arg, "-fmax-identifier-length="@)
    ||| valued(arg, "-fmax-stack-var-size="@)
    ||| valued(arg, "-fpack-derived="@)
    ||| valued(arg, "-frecord-marker="@)
    ||| valued(arg, "-frandom-seed="@)
}

/// Supported code generation and Fortran dialect options.
pub fn is_safe_fortran_option(arg: &[u8]) -> (yes: bool)
    ensures
        yes == safe_fortran_option(arg@),
{
    proof {
        reveal(safe_fortran_option);
    }
    bstr::is(arg, "-fall-intrinsics")
        || bstr::is(arg, "-fbacktrace")
        || bstr::is(arg, "-fbackslash")
        || bstr::is(arg, "-fbounds-check")
        || bstr::is(arg, "-fcray-pointer")
        || bstr::is(arg, "-fd-lines-as-code")
        || bstr::is(arg, "-fd-lines-as-comments")
        || bstr::is(arg, "-fdefault-double-8")
        || bstr::is(arg, "-fdefault-integer-8")
        || bstr::is(arg, "-fdefault-real-8")
        || bstr::is(arg, "-fdollar-ok")
        || bstr::is(arg, "-ffixed-form")
        || bstr::is(arg, "-ffree-form")
        || bstr::is(arg, "-fimplicit-none")
        || bstr::is(arg, "-finteger-4-integer-8")
        || bstr::is(arg, "-fmodule-private")
        || bstr::is(arg, "-fno-align-commons")
        || bstr::is(arg, "-fno-backslash")
        || bstr::is(arg, "-fno-backtrace")
        || bstr::is(arg, "-fno-f2c")
        || bstr::is(arg, "-fno-range-check")
        || bstr::is(arg, "-fno-realloc-lhs")
        || bstr::is(arg, "-fno-second-underscore")
        || bstr::is(arg, "-fno-underscoring")
        || bstr::is(arg, "-frange-check")
        || bstr::is(arg, "-freal-4-real-8")
        || bstr::is(arg, "-freal-4-real-10")
        || bstr::is(arg, "-freal-4-real-16")
        || bstr::is(arg, "-freal-8-real-4")
        || bstr::is(arg, "-freal-8-real-10")
        || bstr::is(arg, "-freal-8-real-16")
        || bstr::is(arg, "-frecursive")
        || bstr::is(arg, "-frepack-arrays")
        || bstr::is(arg, "-fsecond-underscore")
        || bstr::is(arg, "-fstack-arrays")
        || bstr::is(arg, "-funderscoring")
        || bstr::is(arg, "-fwhole-file")
        || bstr::is(arg, "-fPIC")
        || bstr::is(arg, "-fpic")
        || bstr::is(arg, "-fPIE")
        || bstr::is(arg, "-fpie")
        || bstr::is(arg, "-fno-pic")
        || bstr::is(arg, "-fno-PIC")
        || bstr::is(arg, "-fno-pie")
        || bstr::is(arg, "-fno-PIE")
        || bstr::is(arg, "-fopenmp")
        || bstr::is(arg, "-fopenacc")
        || bstr::is(arg, "-flto")
        || bstr::is(arg, "-fno-lto")
        || bstr::is(arg, "-ffast-math")
        || bstr::is(arg, "-fno-fast-math")
        || bstr::is(arg, "-fdata-sections")
        || bstr::is(arg, "-ffunction-sections")
        || bstr::is(arg, "-funroll-loops")
        || bstr::is(arg, "-funroll-all-loops")
        || bstr::is(arg, "-fno-unroll-loops")
        || bstr::is(arg, "-ftree-vectorize")
        || bstr::is(arg, "-fno-tree-vectorize")
        || bstr::is(arg, "-fomit-frame-pointer")
        || bstr::is(arg, "-fno-omit-frame-pointer")
        || bstr::is(arg, "-fwrapv")
        || bstr::is(arg, "-fno-wrapv")
        || bstr::is(arg, "-fvisibility=hidden")
        || has_value_prefix(arg, "-fblas-matmul-limit=")
        || has_value_prefix(arg, "-fcheck=")
        || has_value_prefix(arg, "-fcoarray=")
        || has_value_prefix(arg, "-fconvert=")
        || has_value_prefix(arg, "-ffpe-summary=")
        || has_value_prefix(arg, "-ffile-prefix-map=")
        || has_value_prefix(arg, "-ffixed-line-length-")
        || has_value_prefix(arg, "-ffree-line-length-")
        || has_value_prefix(arg, "-finline-limit=")
        || has_value_prefix(arg, "-fintrinsic-modules-path=")
        || has_value_prefix(arg, "-fmax-identifier-length=")
        || has_value_prefix(arg, "-fmax-stack-var-size=")
        || has_value_prefix(arg, "-fpack-derived=")
        || has_value_prefix(arg, "-frecord-marker=")
        || has_value_prefix(arg, "-frandom-seed=")
}

/// Supported sanitizer options, with a value.
#[verifier::opaque]
pub open spec fn safe_instrumentation_option(arg: Seq<u8>) -> bool {
    ||| valued(arg, "-fsanitize="@)
    ||| valued(arg, "-fno-sanitize="@)
    ||| valued(arg, "-fsanitize-recover="@)
    ||| valued(arg, "-fno-sanitize-recover="@)
}

/// Supported sanitizer options, with a value.
pub fn is_safe_instrumentation_option(arg: &[u8]) -> (yes: bool)
    ensures
        yes == safe_instrumentation_option(arg@),
{
    proof {
        reveal(safe_instrumentation_option);
    }
    has_value_prefix(arg, "-fsanitize=")
        || has_value_prefix(arg, "-fno-sanitize=")
        || has_value_prefix(arg, "-fsanitize-recover=")
        || has_value_prefix(arg, "-fno-sanitize-recover=")
}

/// Supported machine options.
#[verifier::opaque]
pub open spec fn safe_machine_option(arg: Seq<u8>) -> bool {
    ||| arg == bstr::utf8("-m32"@)
    ||| arg == bstr::utf8("-m64"@)
    ||| arg == bstr::utf8("-mx32"@)
    ||| arg == bstr::utf8("-msoft-float"@)
    ||| arg == bstr::utf8("-mhard-float"@)
    ||| valued(arg, "-march="@)
    ||| valued(arg, "-mcpu="@)
    ||| valued(arg, "-mtune="@)
    ||| valued(arg, "-mfpu="@)
    ||| valued(arg, "-mabi="@)
    ||| valued(arg, "-mmacosx-version-min="@)
}

/// Supported machine options.
pub fn is_safe_machine_option(arg: &[u8]) -> (yes: bool)
    ensures
        yes == safe_machine_option(arg@),
{
    proof {
        reveal(safe_machine_option);
    }
    bstr::is(arg, "-m32")
        || bstr::is(arg, "-m64")
        || bstr::is(arg, "-mx32")
        || bstr::is(arg, "-msoft-float")
        || bstr::is(arg, "-mhard-float")
        || has_value_prefix(arg, "-march=")
        || has_value_prefix(arg, "-mcpu=")
        || has_value_prefix(arg, "-mtune=")
        || has_value_prefix(arg, "-mfpu=")
        || has_value_prefix(arg, "-mabi=")
        || has_value_prefix(arg, "-mmacosx-version-min=")
}

/// Supported debug information options.
#[verifier::opaque]
pub open spec fn safe_debug_option(arg: Seq<u8>) -> bool {
    ||| arg == bstr::utf8("-g"@)
    ||| arg == bstr::utf8("-g0"@)
    ||| arg == bstr::utf8("-g1"@)
    ||| arg == bstr::utf8("-g2"@)
    ||| arg == bstr::utf8("-g3"@)
    ||| arg == bstr::utf8("-ggdb"@)
    ||| arg == bstr::utf8("-ggdb0"@)
    ||| arg == bstr::utf8("-ggdb1"@)
    ||| arg == bstr::utf8("-ggdb2"@)
    ||| arg == bstr::utf8("-ggdb3"@)
    ||| arg == bstr::utf8("-gdwarf"@)
    ||| arg == bstr::utf8("-gdwarf-2"@)
    ||| arg == bstr::utf8("-gdwarf-3"@)
    ||| arg == bstr::utf8("-gdwarf-4"@)
    ||| arg == bstr::utf8("-gdwarf-5"@)
    ||| valued(arg, "-fdebug-prefix-map="@)
    ||| valued(arg, "-fmacro-prefix-map="@)
}

/// Supported debug information options.
pub fn is_safe_debug_option(arg: &[u8]) -> (yes: bool)
    ensures
        yes == safe_debug_option(arg@),
{
    proof {
        reveal(safe_debug_option);
    }
    bstr::is(arg, "-g")
        || bstr::is(arg, "-g0")
        || bstr::is(arg, "-g1")
        || bstr::is(arg, "-g2")
        || bstr::is(arg, "-g3")
        || bstr::is(arg, "-ggdb")
        || bstr::is(arg, "-ggdb0")
        || bstr::is(arg, "-ggdb1")
        || bstr::is(arg, "-ggdb2")
        || bstr::is(arg, "-ggdb3")
        || bstr::is(arg, "-gdwarf")
        || bstr::is(arg, "-gdwarf-2")
        || bstr::is(arg, "-gdwarf-3")
        || bstr::is(arg, "-gdwarf-4")
        || bstr::is(arg, "-gdwarf-5")
        || has_value_prefix(arg, "-fdebug-prefix-map=")
        || has_value_prefix(arg, "-fmacro-prefix-map=")
}

/// Options that may stand in a cached invocation and in its probes.
#[verifier::opaque]
pub open spec fn safe_option(arg: Seq<u8>) -> bool {
    ||| safe_optimization_option(arg)
    ||| safe_warning_option(arg)
    ||| safe_fortran_option(arg)
    ||| safe_machine_option(arg)
    ||| safe_debug_option(arg)
    ||| arg == bstr::utf8("-pedantic"@)
    ||| arg == bstr::utf8("-pedantic-errors"@)
    ||| arg == bstr::utf8("-traditional-cpp"@)
    ||| arg == bstr::utf8("-undef"@)
    ||| arg == bstr::utf8("-P"@)
    ||| arg == bstr::utf8("-std=f95"@)
    ||| arg == bstr::utf8("-std=f2003"@)
    ||| arg == bstr::utf8("-std=f2008"@)
    ||| arg == bstr::utf8("-std=f2008ts"@)
    ||| arg == bstr::utf8("-std=f2018"@)
    ||| arg == bstr::utf8("-std=f2023"@)
    ||| arg == bstr::utf8("-std=gnu"@)
    ||| arg == bstr::utf8("-std=legacy"@)
    ||| bstr::has_prefix(arg, bstr::utf8("-D"@))
    ||| bstr::has_prefix(arg, bstr::utf8("-U"@))
    ||| bstr::has_prefix(arg, bstr::utf8("-include"@))
    ||| bstr::has_prefix(arg, bstr::utf8("-imacros"@))
    ||| bstr::has_prefix(arg, bstr::utf8("-isystem"@))
    ||| bstr::has_prefix(arg, bstr::utf8("-iquote"@))
    ||| bstr::has_prefix(arg, bstr::utf8("-idirafter"@))
    ||| valued(arg, "-F"@)
    ||| safe_instrumentation_option(arg)
}

/// Options that may stand in a cached invocation and in its probes.
pub fn is_safe_option(arg: &[u8]) -> (yes: bool)
    ensures
        yes == safe_option(arg@),
{
    proof {
        reveal(safe_option);
    }
    is_safe_optimization_option(arg)
        || is_safe_warning_option(arg)
        || is_safe_fortran_option(arg)
        || is_safe_machine_option(arg)
        || is_safe_debug_option(arg)
        || bstr::is(arg, "-pedantic")
        || bstr::is(arg, "-pedantic-errors")
        || bstr::is(arg, "-traditional-cpp")
        || bstr::is(arg, "-undef")
        || bstr::is(arg, "-P")
        || bstr::is(arg, "-std=f95")
        || bstr::is(arg, "-std=f2003")
        || bstr::is(arg, "-std=f2008")
        || bstr::is(arg, "-std=f2008ts")
        || bstr::is(arg, "-std=f2018")
        || bstr::is(arg, "-std=f2023")
        || bstr::is(arg, "-std=gnu")
        || bstr::is(arg, "-std=legacy")
        || bstr::starts_with_str(arg, "-D")
        || bstr::starts_with_str(arg, "-U")
        || bstr::starts_with_str(arg, "-include")
        || bstr::starts_with_str(arg, "-imacros")
        || bstr::starts_with_str(arg, "-isystem")
        || bstr::starts_with_str(arg, "-iquote")
        || bstr::starts_with_str(arg, "-idirafter")
        || has_value_prefix(arg, "-F")
        || is_safe_instrumentation_option(arg)
}

/// Options whose effects reach past the modelled inputs and outputs.
#[verifier::opaque]
pub open spec fn rejected_side_effect(arg: Seq<u8>) -> bool {
    ||| language_override(arg)
    ||| argument_carrier(arg)
    ||| arg == bstr::utf8("--coverage"@)
    ||| arg == bstr::utf8("-coverage"@)
    ||| arg == bstr::utf8("-p"@)
    ||| arg == bstr::utf8("-pg"@)
    ||| arg == bstr::utf8("-fprofile-arcs"@)
    ||| arg == bstr::utf8("-ftest-coverage"@)
    ||| arg == bstr::utf8("-fcondition-coverage"@)
    ||| arg == bstr::utf8("-fpath-coverage"@)
    ||| arg == bstr::utf8("-fbranch-probabilities"@)
    ||| bstr::has_prefix(arg, bstr::utf8("-fprofile-"@))
    ||| bstr::has_prefix(arg, bstr::utf8("-fauto-profile"@))
    ||| bstr::has_prefix(arg, bstr::utf8("-fprofile-sample-use"@))
    ||| bstr::has_prefix(arg, bstr::utf8("-save-temps"@))
    ||| bstr::has_prefix(arg, bstr::utf8("-dump"@))
    ||| bstr::has_prefix(arg, bstr::utf8("-fdump-"@))
    ||| bstr::has_prefix(arg, bstr::utf8("-fopt-info"@))
    ||| bstr::has_prefix(arg, bstr::utf8("-fsave-optimization-record"@))
    ||| bstr::has_prefix(arg, bstr::utf8("-foptimization-record-file"@))
    ||| file_diagnostic(arg)
    ||| bstr::has_prefix(arg, bstr::utf8("-ftime-report"@))
    ||| bstr::has_prefix(arg, bstr::utf8("-fmem-report"@))
    ||| bstr::has_prefix(arg, bstr::utf8("-fstack-usage"@))
    ||| bstr::has_prefix(arg, bstr::utf8("-fcallgraph-info"@))
    ||| bstr::has_prefix(arg, bstr::utf8("-fplugin"@))
    ||| bstr::has_prefix(arg, bstr::utf8("-specs"@))
}

/// Options whose effects reach past the modelled inputs and outputs.
pub fn is_rejected_side_effect(arg: &[u8]) -> (yes: bool)
    ensures
        yes == rejected_side_effect(arg@),
{
    proof {
        reveal(rejected_side_effect);
    }
    is_language_override(arg)
        || is_argument_carrier(arg)
        || bstr::is(arg, "--coverage")
        || bstr::is(arg, "-coverage")
        || bstr::is(arg, "-p")
        || bstr::is(arg, "-pg")
        || bstr::is(arg, "-fprofile-arcs")
        || bstr::is(arg, "-ftest-coverage")
        || bstr::is(arg, "-fcondition-coverage")
        || bstr::is(arg, "-fpath-coverage")
        || bstr::is(arg, "-fbranch-probabilities")
        || bstr::starts_with_str(arg, "-fprofile-")
        || bstr::starts_with_str(arg, "-fauto-profile")
        || bstr::starts_with_str(arg, "-fprofile-sample-use")
        || bstr::starts_with_str(arg, "-save-temps")
        || bstr::starts_with_str(arg, "-dump")
        || bstr::starts_with_str(arg, "-fdump-")
        || bstr::starts_with_str(arg, "-fopt-info")
        || bstr::starts_with_str(arg, "-fsave-optimization-record")
        || bstr::starts_with_str(arg, "-foptimization-record-file")
        || is_file_diagnostic(arg)
        || bstr::starts_with_str(arg, "-ftime-report")
        || bstr::starts_with_str(arg, "-fmem-report")
        || bstr::starts_with_str(arg, "-fstack-usage")
        || bstr::starts_with_str(arg, "-fcallgraph-info")
        || bstr::starts_with_str(arg, "-fplugin")
        || bstr::starts_with_str(arg, "-specs")
}

} // verus!
