//! Saying whether a compilation is cached, and why.
use vstd::prelude::*;
use vstd::string::*;

use crate::bstr;
use crate::cache::manifest::{ArtifactKind, DestinationRole};
use crate::compiler::fingerprint::CompilerFingerprint;
use crate::compiler::gfortran;
use crate::compiler::gfortran::{
    BypassReason, Cacheability, GfortranInvocation, Invocation, ParseError,
};
use crate::hex;
use crate::launcher::admission;
use crate::launcher::flow::RunState;
use crate::launcher::observation;
use crate::launcher::observation::{ExpectedArtifact, InputFile, Observation, Observed};
use crate::launcher::search;
use crate::launcher::search::{Compilation, KnownCompiler};
use crate::words;

verus! {

/// An input, as it is shown.
#[derive(Clone, Debug, PartialEq, Eq)]
pub struct ExplainInput<B = Vec<u8>, S = String> {
    pub path: B,
    pub digest: S,
    pub size: u64,
}

impl View for ExplainInput {
    type V = ExplainInput<Seq<u8>, Seq<char>>;

    open spec fn view(&self) -> ExplainInput<Seq<u8>, Seq<char>> {
        ExplainInput { path: self.path@, digest: self.digest@, size: self.size }
    }
}

/// An output, as it is shown.
#[derive(Clone, Debug, PartialEq, Eq)]
pub struct ExplainOutput<B = Vec<u8>, S = String> {
    pub logical_name: S,
    pub kind: ArtifactKind,
    pub destination_role: DestinationRole,
    pub path: B,
    pub probe_digest: Option<S>,
}

impl View for ExplainOutput {
    type V = ExplainOutput<Seq<u8>, Seq<char>>;

    open spec fn view(&self) -> ExplainOutput<Seq<u8>, Seq<char>> {
        ExplainOutput {
            logical_name: self.logical_name@,
            kind: self.kind,
            destination_role: self.destination_role,
            path: self.path@,
            probe_digest: text_view(self.probe_digest),
        }
    }
}

/// A text that may be missing, in views.
pub open spec fn text_view(text: Option<String>) -> Option<Seq<char>> {
    match text {
        Some(found) => Some(found@),
        None => None,
    }
}

/// Why a compilation is not cached.
#[derive(Clone, Debug, PartialEq, Eq)]
pub enum ExplainReason<B = Vec<u8>> {
    UnsupportedCompiler,
    Bypassed(BypassReason<B>),
    ProbePreprocessing,
    UnsupportedVersion,
    ProbeFailed,
    SyntaxOnlyModules,
}

impl View for ExplainReason {
    type V = ExplainReason<Seq<u8>>;

    open spec fn view(&self) -> ExplainReason<Seq<u8>> {
        match *self {
            ExplainReason::UnsupportedCompiler => ExplainReason::UnsupportedCompiler,
            ExplainReason::Bypassed(reason) => ExplainReason::Bypassed(reason@),
            ExplainReason::ProbePreprocessing => ExplainReason::ProbePreprocessing,
            ExplainReason::UnsupportedVersion => ExplainReason::UnsupportedVersion,
            ExplainReason::ProbeFailed => ExplainReason::ProbeFailed,
            ExplainReason::SyntaxOnlyModules => ExplainReason::SyntaxOnlyModules,
        }
    }
}

/// A reason in words. `shown` is how the argument that it is about is shown.
pub open spec fn told(reason: ExplainReason<Seq<u8>>, shown: Seq<char>) -> Seq<char> {
    match reason {
        ExplainReason::UnsupportedCompiler => "unsupported-compiler"@,
        ExplainReason::Bypassed(bypass) => {
            admission::reason_name(bypass) + ": "@ + gfortran::reason_text(bypass, shown)
        },
        ExplainReason::ProbePreprocessing => "dependency-probe-preprocessing"@,
        ExplainReason::UnsupportedVersion => "unsupported-compiler-version"@,
        ExplainReason::ProbeFailed => "dependency-probe: dependency probe failed"@,
        ExplainReason::SyntaxOnlyModules => "syntax-only-module-outputs"@,
    }
}

impl ExplainReason {
    /// The reason in words. `shown` is how the argument that it is about is shown.
    pub fn message(&self, shown: &str) -> (text: String)
        ensures
            text@ == told(self@, shown@),
    {
        match self {
            ExplainReason::UnsupportedCompiler => "unsupported-compiler".to_owned(),
            ExplainReason::Bypassed(bypass) => words::three(
                admission::bypass_name(bypass),
                ": ",
                bypass.message(shown).as_str(),
            ),
            ExplainReason::ProbePreprocessing => "dependency-probe-preprocessing".to_owned(),
            ExplainReason::UnsupportedVersion => "unsupported-compiler-version".to_owned(),
            ExplainReason::ProbeFailed => "dependency-probe: dependency probe failed".to_owned(),
            ExplainReason::SyntaxOnlyModules => "syntax-only-module-outputs".to_owned(),
        }
    }
}

/// What is said of a compilation. It is cached where there is no reason against it.
#[derive(Clone, Debug, PartialEq, Eq)]
pub struct ExplainReport {
    pub reason: Option<ExplainReason>,
    pub compiler_major: Option<u32>,
    pub compiler_digest: Option<String>,
    pub action_key: Option<String>,
    pub inputs: Vec<ExplainInput>,
    pub outputs: Vec<ExplainOutput>,
}

/// The contents of an `ExplainReport`.
#[verifier::ext_equal]
pub struct Explained {
    pub reason: Option<ExplainReason<Seq<u8>>>,
    pub compiler_major: Option<u32>,
    pub compiler_digest: Option<Seq<char>>,
    pub action_key: Option<Seq<char>>,
    pub inputs: Seq<ExplainInput<Seq<u8>, Seq<char>>>,
    pub outputs: Seq<ExplainOutput<Seq<u8>, Seq<char>>>,
}

impl View for ExplainReport {
    type V = Explained;

    open spec fn view(&self) -> Explained {
        Explained {
            reason: match self.reason {
                Some(reason) => Some(reason@),
                None => None,
            },
            compiler_major: self.compiler_major,
            compiler_digest: text_view(self.compiler_digest),
            action_key: text_view(self.action_key),
            inputs: self.inputs@.map_values(|input: ExplainInput| input@),
            outputs: self.outputs@.map_values(|output: ExplainOutput| output@),
        }
    }
}

/// A compilation of which nothing is known but why it is not cached.
pub open spec fn refused(reason: ExplainReason<Seq<u8>>) -> Explained {
    Explained {
        reason: Some(reason),
        compiler_major: None,
        compiler_digest: None,
        action_key: None,
        inputs: Seq::empty(),
        outputs: Seq::empty(),
    }
}

/// A compilation whose compiler is known, and which is not cached.
pub open spec fn refused_with(
    reason: ExplainReason<Seq<u8>>,
    fingerprint: CompilerFingerprint<Seq<u8>, Seq<u8>>,
) -> Explained {
    Explained {
        reason: Some(reason),
        compiler_major: Some(fingerprint.major_version),
        compiler_digest: Some(hex::hex_text(fingerprint.digest)),
        action_key: None,
        inputs: Seq::empty(),
        outputs: Seq::empty(),
    }
}

/// The inputs, as they are shown.
pub open spec fn shown_inputs(inputs: Seq<InputFile<Seq<u8>, Seq<u8>>>) -> Seq<
    ExplainInput<Seq<u8>, Seq<char>>,
> {
    inputs.map_values(
        |input: InputFile<Seq<u8>, Seq<u8>>|
            ExplainInput {
                path: input.path,
                digest: hex::hex_text(input.digest),
                size: input.size,
            },
    )
}

/// An output, as it is shown.
pub open spec fn shown_output(output: ExpectedArtifact<Seq<char>, Seq<u8>, Seq<u8>>) -> ExplainOutput<
    Seq<u8>,
    Seq<char>,
> {
    ExplainOutput {
        logical_name: output.logical_name,
        kind: output.kind,
        destination_role: output.role,
        path: output.path,
        probe_digest: match output.probe_digest {
            Some(found) => Some(hex::hex_text(found)),
            None => None,
        },
    }
}

/// A compilation whose compiler, inputs and outputs are known.
pub open spec fn observed_report(
    reason: Option<ExplainReason<Seq<u8>>>,
    fingerprint: CompilerFingerprint<Seq<u8>, Seq<u8>>,
    action_key: Option<Seq<char>>,
    observed: Observed,
) -> Explained {
    Explained {
        reason,
        compiler_major: Some(fingerprint.major_version),
        compiler_digest: Some(hex::hex_text(fingerprint.digest)),
        action_key,
        inputs: shown_inputs(observed.inputs),
        outputs: observed.outputs.map_values(
            |output: ExpectedArtifact<Seq<char>, Seq<u8>, Seq<u8>>| shown_output(output),
        ),
    }
}

/// The name of a kind of artifact, as it is shown.
pub fn kind_name(kind: ArtifactKind) -> (name: &'static str)
    ensures
        name@ == match kind {
            ArtifactKind::Object => "object"@,
            ArtifactKind::Module => "module"@,
            ArtifactKind::Submodule => "submodule"@,
            ArtifactKind::Dependency => "dependency"@,
        },
{
    match kind {
        ArtifactKind::Object => "object",
        ArtifactKind::Module => "module",
        ArtifactKind::Submodule => "submodule",
        ArtifactKind::Dependency => "dependency",
    }
}

/// The name of the role of an artifact, as it is shown.
pub fn role_name(role: DestinationRole) -> (name: &'static str)
    ensures
        name@ == match role {
            DestinationRole::Object => "object"@,
            DestinationRole::Module => "module"@,
            DestinationRole::Submodule => "submodule"@,
            DestinationRole::Dependency => "dependency"@,
        },
{
    match role {
        DestinationRole::Object => "object",
        DestinationRole::Module => "module",
        DestinationRole::Submodule => "submodule",
        DestinationRole::Dependency => "dependency",
    }
}

fn bare(reason: ExplainReason) -> (report: ExplainReport)
    ensures
        report@ == refused(reason@),
{
    let report = ExplainReport {
        reason: Some(reason),
        compiler_major: None,
        compiler_digest: None,
        action_key: None,
        inputs: Vec::new(),
        outputs: Vec::new(),
    };
    assert(report@ =~= refused(reason@));
    report
}

fn bare_with(reason: ExplainReason, fingerprint: &CompilerFingerprint) -> (report: ExplainReport)
    ensures
        report@ == refused_with(reason@, fingerprint@),
{
    let report = ExplainReport {
        reason: Some(reason),
        compiler_major: Some(fingerprint.major_version),
        compiler_digest: Some(fingerprint.digest_hex()),
        action_key: None,
        inputs: Vec::new(),
        outputs: Vec::new(),
    };
    assert(report@ =~= refused_with(reason@, fingerprint@));
    report
}

/// What is known of a command line.
#[derive(Debug)]
pub enum ExplainStart {
    /// There is no compiler.
    NoCommand,
    /// The arguments cannot be read.
    Unreadable(ParseError),
    /// It is not cached.
    Refused(ExplainReport),
    /// More has to be found out.
    Open(GfortranInvocation),
}

/// What a command line alone says.
pub fn explain_command(command: &[Vec<u8>]) -> (start: ExplainStart)
    ensures
        match start {
            ExplainStart::NoCommand => command@.len() == 0,
            ExplainStart::Unreadable(error) => {
                &&& command@.len() > 0
                &&& admission::names_gfortran(command@[0]@)
                &&& gfortran::parsed(bstr::views(command@.skip(1))) == Err::<
                    Invocation,
                    ParseError<Seq<u8>>,
                >(error@)
            },
            ExplainStart::Refused(report) => {
                &&& command@.len() > 0
                &&& if !admission::names_gfortran(command@[0]@) {
                    report@ == refused(ExplainReason::UnsupportedCompiler)
                } else {
                    &&& gfortran::parsed(bstr::views(command@.skip(1))) is Ok
                    &&& match gfortran::parsed(
                        bstr::views(command@.skip(1)),
                    )->Ok_0.cacheability {
                        Cacheability::Bypass(reason) => report@ == refused(
                            ExplainReason::Bypassed(reason),
                        ),
                        Cacheability::Cacheable => !gfortran::parsed(
                            bstr::views(command@.skip(1)),
                        )->Ok_0.preprocessing.may_probe() && report@ == refused(
                            ExplainReason::ProbePreprocessing,
                        ),
                    }
                }
            },
            ExplainStart::Open(invocation) => {
                &&& command@.len() > 0
                &&& admission::refusal(command@[0]@, bstr::views(command@.skip(1))) is None
                &&& gfortran::parsed(bstr::views(command@.skip(1))) == Ok::<
                    Invocation,
                    ParseError<Seq<u8>>,
                >(invocation@)
            },
        },
{
    if command.len() == 0 {
        return ExplainStart::NoCommand;
    }
    if !admission::is_gfortran(command[0].as_slice()) {
        return ExplainStart::Refused(bare(ExplainReason::UnsupportedCompiler));
    }
    let arguments = vstd::slice::slice_subrange(command, 1, command.len());
    assert(arguments@ =~= command@.skip(1));
    let invocation = match gfortran::parse_gfortran_args(arguments) {
        Ok(found) => found,
        Err(error) => {
            return ExplainStart::Unreadable(error);
        },
    };
    if let Cacheability::Bypass(reason) = &invocation.cacheability {
        return ExplainStart::Refused(
            bare(ExplainReason::Bypassed(gfortran::copy_reason(reason))),
        );
    }
    if !invocation.preprocessing.permits_probe() {
        return ExplainStart::Refused(bare(ExplainReason::ProbePreprocessing));
    }
    ExplainStart::Open(invocation)
}

/// Why the results of a compiler are not cached, if they are not.
pub fn explain_compiler(fingerprint: &CompilerFingerprint) -> (report: Option<ExplainReport>)
    ensures
        match report {
            Some(found) => !(11 <= fingerprint@.major_version <= 16) && found@ == refused_with(
                ExplainReason::UnsupportedVersion,
                fingerprint@,
            ),
            None => 11 <= fingerprint@.major_version <= 16,
        },
{
    if admission::supported_gfortran_major(fingerprint.major_version) {
        None
    } else {
        Some(bare_with(ExplainReason::UnsupportedVersion, fingerprint))
    }
}

fn show_inputs(inputs: &Vec<InputFile>) -> (shown: Vec<ExplainInput>)
    ensures
        shown@.map_values(|input: ExplainInput| input@) == shown_inputs(
            observation::input_views(inputs@),
        ),
{
    let ghost all = shown_inputs(observation::input_views(inputs@));
    let mut shown: Vec<ExplainInput> = Vec::new();
    let mut index: usize = 0;
    while index < inputs.len()
        invariant
            all == shown_inputs(observation::input_views(inputs@)),
            all.len() == inputs@.len(),
            index <= inputs@.len(),
            shown@.len() == index,
            forall|at: int| 0 <= at < index ==> (#[trigger] shown@[at])@ == all[at],
        decreases inputs@.len() - index,
    {
        let input = &inputs[index];
        assert(observation::input_views(inputs@)[index as int] == input@);
        shown.push(
            ExplainInput {
                path: bstr::copy(input.path.as_slice()),
                digest: hex::encode(input.digest.as_slice()),
                size: input.size,
            },
        );
        index += 1;
    }
    assert(shown@.map_values(|input: ExplainInput| input@) =~= all);
    shown
}

fn show_outputs(outputs: &Vec<ExpectedArtifact>) -> (shown: Vec<ExplainOutput>)
    ensures
        shown@.map_values(|output: ExplainOutput| output@) == observation::output_views(
            outputs@,
        ).map_values(|output: ExpectedArtifact<Seq<char>, Seq<u8>, Seq<u8>>| shown_output(output)),
{
    let ghost all = observation::output_views(outputs@).map_values(
        |output: ExpectedArtifact<Seq<char>, Seq<u8>, Seq<u8>>| shown_output(output),
    );
    let mut shown: Vec<ExplainOutput> = Vec::new();
    let mut index: usize = 0;
    while index < outputs.len()
        invariant
            all == observation::output_views(outputs@).map_values(
                |output: ExpectedArtifact<Seq<char>, Seq<u8>, Seq<u8>>| shown_output(output),
            ),
            all.len() == outputs@.len(),
            index <= outputs@.len(),
            shown@.len() == index,
            forall|at: int| 0 <= at < index ==> (#[trigger] shown@[at])@ == all[at],
        decreases outputs@.len() - index,
    {
        let output = &outputs[index];
        assert(observation::output_views(outputs@)[index as int] == output@);
        let probe_digest = match &output.probe_digest {
            Some(found) => Some(hex::encode(found.as_slice())),
            None => None,
        };
        shown.push(
            ExplainOutput {
                logical_name: output.logical_name.clone(),
                kind: output.kind,
                destination_role: output.role,
                path: bstr::copy(output.path.as_slice()),
                probe_digest,
            },
        );
        index += 1;
    }
    assert(shown@.map_values(|output: ExplainOutput| output@) =~= all);
    shown
}

/// What is said of a compilation whose compiler, inputs and outputs are known.
pub fn explain_report(
    reason: Option<ExplainReason>,
    fingerprint: &CompilerFingerprint,
    action_key: Option<String>,
    observation: &Observation,
) -> (report: ExplainReport)
    ensures
        report@ == observed_report(
            match reason {
                Some(found) => Some(found@),
                None => None,
            },
            fingerprint@,
            text_view(action_key),
            observation@,
        ),
{
    ExplainReport {
        reason,
        compiler_major: Some(fingerprint.major_version),
        compiler_digest: Some(fingerprint.digest_hex()),
        action_key,
        inputs: show_inputs(&observation.inputs),
        outputs: show_outputs(&observation.outputs),
    }
}

/// What is said of a compilation with a supported compiler, given what was observed of it, or
/// `None` where the compiler did not say what it would read.
pub open spec fn explanation(
    compilation: Compilation,
    known: KnownCompiler,
    outcome: Option<Observation>,
) -> Explained {
    let fingerprint = known.fingerprint@;
    match outcome {
        None => refused_with(ExplainReason::ProbeFailed, fingerprint),
        Some(found) => if compilation.invocation@.syntax_only && observation::has_module(
            found@.outputs,
        ) {
            observed_report(Some(ExplainReason::SyntaxOnlyModules), fingerprint, None, found@)
        } else {
            observed_report(
                None,
                fingerprint,
                Some(hex::hex_text(search::action_of(compilation, known, found@))),
                found@,
            )
        },
    }
}

/// What is said of a compilation with a supported compiler, given what was observed of it.
pub fn explain(compilation: &Compilation, known: &KnownCompiler, outcome: Option<Observation>) -> (
    report: ExplainReport)
    ensures
        report@ == explanation(*compilation, *known, outcome),
{
    let found = match outcome {
        None => {
            return bare_with(ExplainReason::ProbeFailed, &known.fingerprint);
        },
        Some(found) => found,
    };
    if compilation.invocation.syntax_only && observation::produces_modules(&found.outputs) {
        return explain_report(
            Some(ExplainReason::SyntaxOnlyModules),
            &known.fingerprint,
            None,
            &found,
        );
    }
    let key = match search::key_of(compilation, known, &found) {
        Ok(key) => Some(key.to_hex()),
        Err(_) => None,
    };
    explain_report(None, &known.fingerprint, key, &found)
}

/// The code with which the launcher ends: zero where the compilation is cached.
pub fn explain_code(report: &ExplainReport) -> (code: i32)
    ensures
        code == (if report@.reason is None {
            0int
        } else {
            1
        }),
{
    if report.reason.is_none() {
        0
    } else {
        1
    }
}

/// What is explained is what a run does: an explanation names a key exactly where a run that
/// observed the same goes on to look for a result, and it is the key that the run looks for.
pub proof fn law_explanations_agree_with_runs(run: RunState, observation: Observation)
    requires
        run.known is Some,
        run.record is None,
        run.observation == Some(observation),
    ensures
        ({
            let told = explanation(run.compilation, run.known->0, Some(observation));
            let next = run.observed();
            &&& told.reason is None <==> next.step is AcquireLocks
            &&& next.step is AcquireLocks ==> next.run.action is Some && told.action_key == Some(
                hex::hex_text(next.run.action->0),
            )
            &&& !(next.step is AcquireLocks) ==> next.step is PassThrough && told.action_key is None
        }),
{
}

} // verus!
