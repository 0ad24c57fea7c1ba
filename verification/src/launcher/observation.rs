//! What one compilation was observed to read and to write.
use vstd::prelude::*;
use vstd::string::*;

use crate::bstr;
use crate::cache::manifest::{ArtifactKind, DestinationRole};
use crate::cache::snapshot::FileIdentity;
use crate::compiler::gfortran::{DependencyMode, GfortranInvocation, Invocation};
use crate::digest;
use crate::names;
use crate::upath;
use crate::words;

verus! {

/// A file that was read, with its contents.
#[derive(Clone, Debug, PartialEq, Eq)]
pub struct InputFile<B = Vec<u8>, D = [u8; 32]> {
    /// The path as the compiler wrote it.
    pub raw_path: B,
    /// The path seen from the working directory.
    pub observed_path: B,
    /// The path with all links resolved.
    pub path: B,
    pub digest: D,
    pub size: u64,
}

impl View for InputFile {
    type V = InputFile<Seq<u8>, Seq<u8>>;

    open spec fn view(&self) -> InputFile<Seq<u8>, Seq<u8>> {
        InputFile {
            raw_path: self.raw_path@,
            observed_path: self.observed_path@,
            path: self.path@,
            digest: self.digest@,
            size: self.size,
        }
    }
}

/// The contents of a list of inputs.
pub open spec fn input_views(list: Seq<InputFile>) -> Seq<InputFile<Seq<u8>, Seq<u8>>> {
    list.map_values(|input: InputFile| input@)
}

/// One mention of an input by the compiler.
#[derive(Clone, Debug, PartialEq, Eq)]
pub struct ObservedDependency<B = Vec<u8>> {
    pub raw_path: B,
    pub observed_path: B,
    pub path: B,
}

impl View for ObservedDependency {
    type V = ObservedDependency<Seq<u8>>;

    open spec fn view(&self) -> ObservedDependency<Seq<u8>> {
        ObservedDependency {
            raw_path: self.raw_path@,
            observed_path: self.observed_path@,
            path: self.path@,
        }
    }
}

/// The contents of a list of dependencies.
pub open spec fn dependency_views(list: Seq<ObservedDependency>) -> Seq<
    ObservedDependency<Seq<u8>>,
> {
    list.map_values(|dependency: ObservedDependency| dependency@)
}

/// An output that the compilation writes, with what the probe wrote for it.
#[derive(Clone, Debug, PartialEq, Eq)]
pub struct ExpectedArtifact<S = String, B = Vec<u8>, D = [u8; 32]> {
    pub logical_name: S,
    pub kind: ArtifactKind,
    pub role: DestinationRole,
    pub path: B,
    pub probe_digest: Option<D>,
    pub probe_size: Option<u64>,
}

/// The bytes of a digest that may be absent.
pub open spec fn digest_view(digest: Option<[u8; 32]>) -> Option<Seq<u8>> {
    match digest {
        Some(bytes) => Some(bytes@),
        None => None,
    }
}

impl View for ExpectedArtifact {
    type V = ExpectedArtifact<Seq<char>, Seq<u8>, Seq<u8>>;

    open spec fn view(&self) -> ExpectedArtifact<Seq<char>, Seq<u8>, Seq<u8>> {
        ExpectedArtifact {
            logical_name: self.logical_name@,
            kind: self.kind,
            role: self.role,
            path: self.path@,
            probe_digest: digest_view(self.probe_digest),
            probe_size: self.probe_size,
        }
    }
}

/// The contents of a list of outputs.
pub open spec fn output_views(list: Seq<ExpectedArtifact>) -> Seq<
    ExpectedArtifact<Seq<char>, Seq<u8>, Seq<u8>>,
> {
    list.map_values(|output: ExpectedArtifact| output@)
}

/// What the preprocessor wrote.
#[derive(Clone, Copy, Debug, PartialEq, Eq)]
pub struct PreprocessorObservation<D = [u8; 32]> {
    pub stdout_digest: D,
    pub stdout_size: u64,
    pub stderr_digest: D,
    pub stderr_size: u64,
    pub automatic_lowercase_source: bool,
}

impl View for PreprocessorObservation {
    type V = PreprocessorObservation<Seq<u8>>;

    open spec fn view(&self) -> PreprocessorObservation<Seq<u8>> {
        PreprocessorObservation {
            stdout_digest: self.stdout_digest@,
            stdout_size: self.stdout_size,
            stderr_digest: self.stderr_digest@,
            stderr_size: self.stderr_size,
            automatic_lowercase_source: self.automatic_lowercase_source,
        }
    }
}

/// The contents of a preprocessor observation that may be absent.
pub open spec fn preprocessor_view(value: Option<PreprocessorObservation>) -> Option<
    PreprocessorObservation<Seq<u8>>,
> {
    match value {
        Some(observed) => Some(observed@),
        None => None,
    }
}

/// A target of a dependency rule. A module of this compilation goes by its name alone, since the
/// probe writes it elsewhere.
#[derive(Clone, Debug, PartialEq, Eq, PartialOrd, Ord)]
pub enum DepfileTarget<B = Vec<u8>> {
    Ordinary(B),
    GeneratedModule(B),
}

impl View for DepfileTarget {
    type V = DepfileTarget<Seq<u8>>;

    open spec fn view(&self) -> DepfileTarget<Seq<u8>> {
        match *self {
            DepfileTarget::Ordinary(bytes) => DepfileTarget::Ordinary(bytes@),
            DepfileTarget::GeneratedModule(bytes) => DepfileTarget::GeneratedModule(bytes@),
        }
    }
}

/// The contents of a list of targets.
pub open spec fn target_views(list: Seq<DepfileTarget>) -> Seq<DepfileTarget<Seq<u8>>> {
    list.map_values(|target: DepfileTarget| target@)
}

/// A prerequisite of a dependency rule.
#[derive(Clone, Debug, PartialEq, Eq, PartialOrd, Ord)]
pub enum DepfilePrerequisite<B = Vec<u8>> {
    Ordinary(B),
    GeneratedModule(B),
}

impl View for DepfilePrerequisite {
    type V = DepfilePrerequisite<Seq<u8>>;

    open spec fn view(&self) -> DepfilePrerequisite<Seq<u8>> {
        match *self {
            DepfilePrerequisite::Ordinary(bytes) => DepfilePrerequisite::Ordinary(bytes@),
            DepfilePrerequisite::GeneratedModule(bytes) => DepfilePrerequisite::GeneratedModule(
                bytes@,
            ),
        }
    }
}

/// The contents of a list of prerequisites.
pub open spec fn prerequisite_views(list: Seq<DepfilePrerequisite>) -> Seq<
    DepfilePrerequisite<Seq<u8>>,
> {
    list.map_values(|prerequisite: DepfilePrerequisite| prerequisite@)
}

/// A dependency rule with prerequisites.
#[derive(Clone, Debug, PartialEq, Eq)]
pub struct ObservedDepfileRule {
    pub targets: Vec<DepfileTarget>,
    pub prerequisites: Vec<DepfilePrerequisite>,
}

/// The contents of an `ObservedDepfileRule`.
#[verifier::ext_equal]
pub struct ObservedRule {
    pub targets: Seq<DepfileTarget<Seq<u8>>>,
    pub prerequisites: Seq<DepfilePrerequisite<Seq<u8>>>,
}

impl View for ObservedDepfileRule {
    type V = ObservedRule;

    open spec fn view(&self) -> ObservedRule {
        ObservedRule {
            targets: target_views(self.targets@),
            prerequisites: prerequisite_views(self.prerequisites@),
        }
    }
}

/// The contents of a list of rules.
pub open spec fn rule_views(list: Seq<ObservedDepfileRule>) -> Seq<ObservedRule> {
    list.map_values(|rule: ObservedDepfileRule| rule@)
}

/// The rules of a dependency file: those with prerequisites, and the targets of the others.
#[derive(Clone, Debug, Default, PartialEq, Eq)]
pub struct DepfileShape {
    pub primary_rules: Vec<ObservedDepfileRule>,
    pub dummy_targets: Vec<DepfileTarget>,
}

/// The contents of a `DepfileShape`.
#[verifier::ext_equal]
pub struct Shape {
    pub primary_rules: Seq<ObservedRule>,
    pub dummy_targets: Seq<DepfileTarget<Seq<u8>>>,
}

impl View for DepfileShape {
    type V = Shape;

    open spec fn view(&self) -> Shape {
        Shape {
            primary_rules: rule_views(self.primary_rules@),
            dummy_targets: target_views(self.dummy_targets@),
        }
    }
}

/// What one compilation was observed to read and to write.
#[derive(Debug, PartialEq, Eq)]
pub struct Observation {
    pub inputs: Vec<InputFile>,
    pub dependencies: Vec<ObservedDependency>,
    pub outputs: Vec<ExpectedArtifact>,
    pub depfile_shape: DepfileShape,
    pub preprocessor: Option<PreprocessorObservation>,
}

/// The contents of an `Observation`.
#[verifier::ext_equal]
pub struct Observed {
    pub inputs: Seq<InputFile<Seq<u8>, Seq<u8>>>,
    pub dependencies: Seq<ObservedDependency<Seq<u8>>>,
    pub outputs: Seq<ExpectedArtifact<Seq<char>, Seq<u8>, Seq<u8>>>,
    pub depfile_shape: Shape,
    pub preprocessor: Option<PreprocessorObservation<Seq<u8>>>,
}

impl View for Observation {
    type V = Observed;

    open spec fn view(&self) -> Observed {
        Observed {
            inputs: input_views(self.inputs@),
            dependencies: dependency_views(self.dependencies@),
            outputs: output_views(self.outputs@),
            depfile_shape: self.depfile_shape@,
            preprocessor: preprocessor_view(self.preprocessor),
        }
    }
}

/// An output is a module or a submodule.
pub open spec fn module_kind(kind: ArtifactKind) -> bool {
    kind is Module || kind is Submodule
}

/// An output is a module or a submodule.
pub fn is_module_kind(kind: ArtifactKind) -> (yes: bool)
    ensures
        yes == module_kind(kind),
{
    match kind {
        ArtifactKind::Module => true,
        ArtifactKind::Submodule => true,
        ArtifactKind::Object => false,
        ArtifactKind::Dependency => false,
    }
}

/// Some output is a module or a submodule.
pub open spec fn has_module(outputs: Seq<ExpectedArtifact<Seq<char>, Seq<u8>, Seq<u8>>>) -> bool {
    exists|at: int| 0 <= at < outputs.len() && module_kind((#[trigger] outputs[at]).kind)
}

/// Some output is a module or a submodule.
pub fn produces_modules(outputs: &Vec<ExpectedArtifact>) -> (yes: bool)
    ensures
        yes == has_module(output_views(outputs@)),
{
    let ghost all = output_views(outputs@);
    let mut index: usize = 0;
    while index < outputs.len()
        invariant
            index <= outputs.len(),
            all == output_views(outputs@),
            forall|at: int| 0 <= at < index ==> !module_kind((#[trigger] all[at]).kind),
        decreases outputs.len() - index,
    {
        assert(all[index as int] == outputs@[index as int]@);
        if is_module_kind(outputs[index].kind) {
            return true;
        }
        index += 1;
    }
    false
}

/// The names of the modules that a compilation writes.
pub open spec fn predicts(
    outputs: Seq<ExpectedArtifact<Seq<char>, Seq<u8>, Seq<u8>>>,
    name: Seq<u8>,
    count: int,
) -> bool {
    exists|at: int|
        0 <= at < count && module_kind((#[trigger] outputs[at]).kind) && upath::file_name_of(
            outputs[at].path,
        ) == Some(name)
}

/// The names of the modules that a compilation writes, in order, as raw bytes.
pub fn predicted_module_names(observation: &Observation) -> (predicted: Vec<Vec<u8>>)
    ensures
        names::sorted(bstr::views(predicted@)),
        forall|name: Seq<u8>| #[trigger]
            bstr::views(predicted@).contains(name) <==> predicts(
                observation@.outputs,
                name,
                observation@.outputs.len() as int,
            ),
{
    let ghost all = observation@.outputs;
    let mut predicted: Vec<Vec<u8>> = Vec::new();
    let mut index: usize = 0;
    assert(bstr::views(predicted@) =~= Seq::empty());
    while index < observation.outputs.len()
        invariant
            index <= observation.outputs.len(),
            all == observation@.outputs,
            names::sorted(bstr::views(predicted@)),
            forall|name: Seq<u8>| #[trigger]
                bstr::views(predicted@).contains(name) <==> predicts(all, name, index as int),
        decreases observation.outputs.len() - index,
    {
        let output = &observation.outputs[index];
        let ghost before = bstr::views(predicted@);
        assert(all[index as int] == output@);
        if is_module_kind(output.kind) {
            if let Some(name) = upath::file_name(output.path.as_slice()) {
                let _ = names::insert(&mut predicted, name.as_slice());
            }
        }
        proof {
            assert forall|name: Seq<u8>| #[trigger]
                bstr::views(predicted@).contains(name) <==> predicts(all, name, index + 1) by {
                assert(before.contains(name) <==> predicts(all, name, index as int));
                if predicts(all, name, index as int) {
                    let at = choose|at: int|
                        0 <= at < index && module_kind((#[trigger] all[at]).kind)
                            && upath::file_name_of(all[at].path) == Some(name);
                    assert(module_kind(all[at].kind));
                }
                if predicts(all, name, index + 1) && !predicts(all, name, index as int) {
                    let at = choose|at: int|
                        0 <= at < index + 1 && module_kind((#[trigger] all[at]).kind)
                            && upath::file_name_of(all[at].path) == Some(name);
                    assert(at == index);
                }
            }
        }
        index += 1;
    }
    predicted
}

/// A path seen from the working directory.
pub fn absolute_output(cwd: &[u8], path: &[u8]) -> (seen: Vec<u8>)
    ensures
        seen@ == upath::joined(cwd@, path@),
{
    upath::join(cwd, path)
}

/// The object that the compiler writes by default: the name of the source with `.o`.
pub open spec fn object_by_default(source: Option<Seq<u8>>) -> Option<Seq<u8>> {
    match source {
        None => None,
        Some(path) => match upath::file_name_of(path) {
            None => None,
            Some(name) => Some(upath::with_extension_of(name, bstr::utf8("o"@))),
        },
    }
}

/// The object that the compiler writes by default.
pub fn default_object(invocation: &GfortranInvocation) -> (object: Option<Vec<u8>>)
    ensures
        bstr::opt_view(object) == object_by_default(invocation@.source),
{
    match &invocation.source {
        None => None,
        Some(source) => match upath::file_name(source.as_slice()) {
            None => None,
            Some(name) => Some(upath::with_extension(name.as_slice(), "o")),
        },
    }
}

/// The extension of a path is `expected`, in either case.
pub open spec fn extension_matches(path: Seq<u8>, expected: Seq<char>) -> bool {
    match upath::extension_of(path) {
        None => false,
        Some(extension) => bstr::lowered(extension) == bstr::lowered(bstr::utf8(expected)),
    }
}

/// The extension of a path is `expected`, in either case.
pub fn extension_is(path: &[u8], expected: &str) -> (yes: bool)
    ensures
        yes == extension_matches(path@, expected@),
{
    match upath::extension(path) {
        None => false,
        Some(extension) => bstr::same_ignoring_case(extension.as_slice(), bstr::of(expected)),
    }
}

/// A path has the extension of a module or submodule file.
pub open spec fn names_module_file(path: Seq<u8>) -> bool {
    extension_matches(path, "mod"@) || extension_matches(path, "smod"@)
}

/// A path has the extension of a module or submodule file.
pub fn is_module_path(path: &[u8]) -> (yes: bool)
    ensures
        yes == names_module_file(path@),
{
    extension_is(path, "mod") || extension_is(path, "smod")
}

/// The directory in which the compiler leaves modules.
pub open spec fn module_directory(module_dir: Option<Seq<u8>>, cwd: Seq<u8>) -> Seq<u8> {
    match module_dir {
        None => cwd,
        Some(path) => upath::joined(cwd, path),
    }
}

/// The directory in which the compiler leaves modules.
pub fn final_module_dir(invocation: &GfortranInvocation, cwd: &[u8]) -> (directory: Vec<u8>)
    ensures
        directory@ == module_directory(invocation@.module_dir, cwd@),
{
    match &invocation.module_dir {
        None => bstr::copy(cwd),
        Some(path) => absolute_output(cwd, path.as_slice()),
    }
}

/// A module that the probe wrote.
#[derive(Clone, Debug, PartialEq, Eq)]
pub struct ProbeModule<S = String, B = Vec<u8>, D = [u8; 32]> {
    pub name: S,
    pub private_path: B,
    pub digest: D,
    pub size: u64,
}

impl View for ProbeModule {
    type V = ProbeModule<Seq<char>, Seq<u8>, Seq<u8>>;

    open spec fn view(&self) -> ProbeModule<Seq<char>, Seq<u8>, Seq<u8>> {
        ProbeModule {
            name: self.name@,
            private_path: self.private_path@,
            digest: self.digest@,
            size: self.size,
        }
    }
}

/// The contents of a list of modules.
pub open spec fn module_views(list: Seq<ProbeModule>) -> Seq<
    ProbeModule<Seq<char>, Seq<u8>, Seq<u8>>,
> {
    list.map_values(|module: ProbeModule| module@)
}

/// The output that a module becomes.
pub open spec fn module_output(
    module: ProbeModule<Seq<char>, Seq<u8>, Seq<u8>>,
    directory: Seq<u8>,
) -> ExpectedArtifact<Seq<char>, Seq<u8>, Seq<u8>> {
    let submodule = bstr::has_suffix(bstr::utf8(module.name), bstr::utf8(".smod"@));
    ExpectedArtifact {
        logical_name: (if submodule {
            "submodule:"@
        } else {
            "module:"@
        }) + module.name,
        kind: if submodule {
            ArtifactKind::Submodule
        } else {
            ArtifactKind::Module
        },
        role: if submodule {
            DestinationRole::Submodule
        } else {
            DestinationRole::Module
        },
        path: upath::joined(directory, bstr::utf8(module.name)),
        probe_digest: Some(module.digest),
        probe_size: Some(module.size),
    }
}

/// A list in order of names with one more output, after those of the same name.
pub open spec fn placed(
    list: Seq<ExpectedArtifact<Seq<char>, Seq<u8>, Seq<u8>>>,
    output: ExpectedArtifact<Seq<char>, Seq<u8>, Seq<u8>>,
) -> Seq<ExpectedArtifact<Seq<char>, Seq<u8>, Seq<u8>>>
    decreases list.len(),
{
    if list.len() > 0 && bstr::before(
        bstr::utf8(output.logical_name),
        bstr::utf8(list.last().logical_name),
    ) {
        placed(list.drop_last(), output).push(list.last())
    } else {
        list.push(output)
    }
}

/// A list in order of names with the outputs of modules placed in it.
pub open spec fn with_modules(
    list: Seq<ExpectedArtifact<Seq<char>, Seq<u8>, Seq<u8>>>,
    modules: Seq<ProbeModule<Seq<char>, Seq<u8>, Seq<u8>>>,
    directory: Seq<u8>,
) -> Seq<ExpectedArtifact<Seq<char>, Seq<u8>, Seq<u8>>>
    decreases modules.len(),
{
    if modules.len() == 0 {
        list
    } else {
        placed(
            with_modules(list, modules.drop_last(), directory),
            module_output(modules.last(), directory),
        )
    }
}

/// An output that the probe does not write.
pub open spec fn plain_output(
    name: Seq<char>,
    kind: ArtifactKind,
    role: DestinationRole,
    path: Seq<u8>,
) -> ExpectedArtifact<Seq<char>, Seq<u8>, Seq<u8>> {
    ExpectedArtifact { logical_name: name, kind, role, path, probe_digest: None, probe_size: None }
}

/// The object that an invocation names, or else the default.
pub open spec fn object_of(invocation: Invocation) -> Option<Seq<u8>> {
    if invocation.object is Some {
        invocation.object
    } else {
        object_by_default(invocation.source)
    }
}

/// The outputs of an invocation, in the order of their names, where its object is known.
pub open spec fn outputs_of(
    invocation: Invocation,
    modules: Seq<ProbeModule<Seq<char>, Seq<u8>, Seq<u8>>>,
    cwd: Seq<u8>,
) -> Option<Seq<ExpectedArtifact<Seq<char>, Seq<u8>, Seq<u8>>>> {
    let object_wanted = invocation.compile_only && !invocation.syntax_only;
    if object_wanted && object_of(invocation) is None {
        None
    } else {
        let start = if object_wanted {
            seq![
                plain_output(
                    "object"@,
                    ArtifactKind::Object,
                    DestinationRole::Object,
                    upath::joined(cwd, object_of(invocation)->0),
                ),
            ]
        } else {
            Seq::empty()
        };
        let middle = with_modules(start, modules, module_directory(invocation.module_dir, cwd));
        if invocation.dependency_mode is Some && invocation.user_depfile is Some {
            Some(
                placed(
                    middle,
                    plain_output(
                        "dependency"@,
                        ArtifactKind::Dependency,
                        DestinationRole::Dependency,
                        upath::joined(cwd, invocation.user_depfile->0),
                    ),
                ),
            )
        } else {
            Some(middle)
        }
    }
}

proof fn lemma_placed_at(
    list: Seq<ExpectedArtifact<Seq<char>, Seq<u8>, Seq<u8>>>,
    output: ExpectedArtifact<Seq<char>, Seq<u8>, Seq<u8>>,
    index: int,
)
    requires
        0 <= index <= list.len(),
        index > 0 ==> !bstr::before(
            bstr::utf8(output.logical_name),
            bstr::utf8(list[index - 1].logical_name),
        ),
        forall|at: int|
            index <= at < list.len() ==> bstr::before(
                bstr::utf8(output.logical_name),
                bstr::utf8((#[trigger] list[at]).logical_name),
            ),
    ensures
        placed(list, output) == list.insert(index, output),
    decreases list.len(),
{
    if list.len() > index {
        let shorter = list.drop_last();
        assert forall|at: int| index <= at < shorter.len() implies bstr::before(
            bstr::utf8(output.logical_name),
            bstr::utf8((#[trigger] shorter[at]).logical_name),
        ) by {
            assert(shorter[at] == list[at]);
        }
        lemma_placed_at(shorter, output, index);
        assert(bstr::before(
            bstr::utf8(output.logical_name),
            bstr::utf8(list[list.len() - 1].logical_name),
        ));
        assert(placed(list, output) =~= list.insert(index, output));
    } else {
        assert(placed(list, output) =~= list.insert(index, output));
    }
}

fn place(list: &mut Vec<ExpectedArtifact>, output: ExpectedArtifact)
    ensures
        output_views(final(list)@) == placed(output_views(old(list)@), output@),
{
    let ghost all = output_views(list@);
    let mut index: usize = list.len();
    while index > 0 && bstr::less(
        bstr::of(output.logical_name.as_str()),
        bstr::of(list[index - 1].logical_name.as_str()),
    )
        invariant
            index <= list.len(),
            all == output_views(list@),
            forall|at: int|
                index <= at < list.len() ==> bstr::before(
                    bstr::utf8(output.logical_name@),
                    bstr::utf8((#[trigger] all[at]).logical_name),
                ),
        decreases index,
    {
        assert(all[index - 1] == list@[index - 1]@);
        index -= 1;
    }
    proof {
        if index > 0 {
            assert(all[index - 1] == list@[index - 1]@);
        }
        lemma_placed_at(all, output@, index as int);
    }
    list.insert(index, output);
    assert(output_views(list@) =~= all.insert(index as int, output@));
}

fn module_artifact(module: &ProbeModule, directory: &[u8]) -> (output: ExpectedArtifact)
    ensures
        output@ == module_output(module@, directory@),
{
    let name = module.name.as_str();
    let submodule = bstr::ends_with_str(bstr::of(name), ".smod");
    let mut logical_name: String = (if submodule {
        "submodule:"
    } else {
        "module:"
    }).to_owned();
    logical_name.append(name);
    ExpectedArtifact {
        logical_name,
        kind: if submodule {
            ArtifactKind::Submodule
        } else {
            ArtifactKind::Module
        },
        role: if submodule {
            DestinationRole::Submodule
        } else {
            DestinationRole::Module
        },
        path: upath::join(directory, bstr::of(name)),
        probe_digest: Some(module.digest),
        probe_size: Some(module.size),
    }
}

/// Some output of a list has a role and a path.
pub open spec fn has_output(
    list: Seq<ExpectedArtifact>,
    role: DestinationRole,
    path: Seq<u8>,
) -> bool {
    exists|at: int|
        0 <= at < list.len() && (#[trigger] list[at]).role == role && list[at].path@ == path
}

/// The outputs of an invocation, in the order of their names. There are none where the object is
/// not known.
pub fn expected_outputs(
    invocation: &GfortranInvocation,
    modules: &Vec<ProbeModule>,
    cwd: &[u8],
) -> (outputs: Option<Vec<ExpectedArtifact>>)
    ensures
        match outputs {
            Some(list) => outputs_of(invocation@, module_views(modules@), cwd@) == Some(
                output_views(list@),
            ),
            None => outputs_of(invocation@, module_views(modules@), cwd@) is None,
        },
        outputs is Some && (invocation@.dependency_mode == Some(DependencyMode::Md)
            || invocation@.dependency_mode == Some(DependencyMode::Mmd))
            && invocation@.user_depfile is Some ==> has_output(
            outputs->0@,
            DestinationRole::Dependency,
            upath::joined(cwd@, invocation@.user_depfile->0),
        ),
        outputs is Some && invocation@.compile_only && !invocation@.syntax_only ==> has_output(
            outputs->0@,
            DestinationRole::Object,
            upath::joined(cwd@, object_of(invocation@)->0),
        ),
{
    let mut outputs: Vec<ExpectedArtifact> = Vec::new();
    if invocation.compile_only && !invocation.syntax_only {
        let object = match &invocation.object {
            Some(path) => bstr::copy(path.as_slice()),
            None => match default_object(invocation) {
                Some(path) => path,
                None => {
                    return None;
                },
            },
        };
        outputs.push(
            ExpectedArtifact {
                logical_name: "object".to_owned(),
                kind: ArtifactKind::Object,
                role: DestinationRole::Object,
                path: absolute_output(cwd, object.as_slice()),
                probe_digest: None,
                probe_size: None,
            },
        );
    }
    let ghost start = output_views(outputs@);
    proof {
        if invocation.compile_only && !invocation.syntax_only {
            assert(start =~= seq![
                plain_output(
                    "object"@,
                    ArtifactKind::Object,
                    DestinationRole::Object,
                    upath::joined(cwd@, object_of(invocation@)->0),
                ),
            ]);
        } else {
            assert(start =~= Seq::empty());
        }
    }
    let directory = final_module_dir(invocation, cwd);
    let ghost all = module_views(modules@);
    let mut index: usize = 0;
    assert(all.take(0) =~= Seq::empty());
    while index < modules.len()
        invariant
            index <= modules.len(),
            all == module_views(modules@),
            output_views(outputs@) == with_modules(start, all.take(index as int), directory@),
        decreases modules.len() - index,
    {
        assert(all.take(index + 1).drop_last() =~= all.take(index as int));
        assert(all.take(index + 1).last() == modules@[index as int]@);
        let output = module_artifact(&modules[index], directory.as_slice());
        place(&mut outputs, output);
        index += 1;
    }
    assert(all.take(index as int) =~= all);
    if invocation.dependency_mode.is_some() {
        if let Some(depfile) = &invocation.user_depfile {
            let output = ExpectedArtifact {
                logical_name: "dependency".to_owned(),
                kind: ArtifactKind::Dependency,
                role: DestinationRole::Dependency,
                path: absolute_output(cwd, depfile.as_slice()),
                probe_digest: None,
                probe_size: None,
            };
            place(&mut outputs, output);
        }
    }
    proof {
        lemma_outputs_listed(invocation@, all, cwd@, outputs@);
    }
    Some(outputs)
}

/// An output is the one that a module becomes: below the module directory, under the name of the
/// module, with the contents that the probe saw.
pub open spec fn is_output_of(
    output: ExpectedArtifact<Seq<char>, Seq<u8>, Seq<u8>>,
    module: ProbeModule<Seq<char>, Seq<u8>, Seq<u8>>,
    directory: Seq<u8>,
) -> bool {
    let submodule = bstr::has_suffix(bstr::utf8(module.name), bstr::utf8(".smod"@));
    &&& output.path == upath::joined(directory, bstr::utf8(module.name))
    &&& output.probe_digest == Some(module.digest)
    &&& output.probe_size == Some(module.size)
    &&& submodule ==> output.role == DestinationRole::Submodule && output.kind
        == ArtifactKind::Submodule && output.logical_name == "submodule:"@ + module.name
    &&& !submodule ==> output.role == DestinationRole::Module && output.kind == ArtifactKind::Module
        && output.logical_name == "module:"@ + module.name
}

/// The outputs stand in the order of their names.
pub open spec fn in_order_of_names(list: Seq<ExpectedArtifact<Seq<char>, Seq<u8>, Seq<u8>>>) -> bool {
    forall|left: int, right: int|
        0 <= left < right < list.len() ==> !bstr::before(
            bstr::utf8((#[trigger] list[right]).logical_name),
            bstr::utf8((#[trigger] list[left]).logical_name),
        )
}

proof fn lemma_not_before(first: Seq<u8>, second: Seq<u8>, third: Seq<u8>)
    ensures
        bstr::before(first, second) ==> !bstr::before(second, first),
        !bstr::before(second, first) && !bstr::before(third, second) ==> !bstr::before(
            third,
            first,
        ),
{
    bstr::lemma_before_irreflexive(first);
    if bstr::before(first, second) && bstr::before(second, first) {
        bstr::lemma_before_transitive(first, second, first);
    }
    if first != second {
        bstr::lemma_before_total(first, second);
    }
    if second != third {
        bstr::lemma_before_total(second, third);
    }
    if bstr::before(first, second) && bstr::before(second, third) {
        bstr::lemma_before_transitive(first, second, third);
    }
    if bstr::before(first, third) && bstr::before(third, first) {
        bstr::lemma_before_transitive(first, third, first);
    }
}

proof fn lemma_placed(list: Seq<ExpectedArtifact<Seq<char>, Seq<u8>, Seq<u8>>>, output: ExpectedArtifact<Seq<char>, Seq<u8>, Seq<u8>>)
    requires
        in_order_of_names(list),
    ensures
        placed(list, output).len() == list.len() + 1,
        in_order_of_names(placed(list, output)),
        forall|other: ExpectedArtifact<Seq<char>, Seq<u8>, Seq<u8>>| #[trigger]
            placed(list, output).contains(other) <==> list.contains(other) || other == output,
    decreases list.len(),
{
    let result = placed(list, output);
    let name = bstr::utf8(output.logical_name);
    if list.len() > 0 && bstr::before(name, bstr::utf8(list.last().logical_name)) {
        let shorter = list.drop_last();
        let last = list.last();
        assert forall|at: int| 0 <= at < shorter.len() implies #[trigger] shorter[at]
            == list[at] by {}
        assert(in_order_of_names(shorter));
        lemma_placed(shorter, output);
        let inner = placed(shorter, output);
        assert(result == inner.push(last));
        assert forall|left: int, right: int|
            0 <= left < right < result.len() implies !bstr::before(
            bstr::utf8((#[trigger] result[right]).logical_name),
            bstr::utf8((#[trigger] result[left]).logical_name),
        ) by {
            if right < inner.len() {
                assert(result[right] == inner[right] && result[left] == inner[left]);
            } else {
                assert(result[left] == inner[left]);
                assert(inner.contains(inner[left]));
                if inner[left] == output {
                    lemma_not_before(name, bstr::utf8(last.logical_name), name);
                } else {
                    assert(shorter.contains(inner[left]));
                    let at = choose|at: int| 0 <= at < shorter.len() && shorter[at] == inner[left];
                    assert(list[at] == inner[left] && list[list.len() - 1] == last);
                }
            }
        }
        assert forall|other: ExpectedArtifact<Seq<char>, Seq<u8>, Seq<u8>>| #[trigger]
            result.contains(other) <==> list.contains(other) || other == output by {
            lemma_pushed(inner, last, other);
            assert(list =~= shorter.push(last));
            lemma_pushed(shorter, last, other);
            assert(inner.contains(other) <==> shorter.contains(other) || other == output);
        }
    } else {
        assert(result == list.push(output));
        assert forall|left: int, right: int|
            0 <= left < right < result.len() implies !bstr::before(
            bstr::utf8((#[trigger] result[right]).logical_name),
            bstr::utf8((#[trigger] result[left]).logical_name),
        ) by {
            if right < list.len() {
                assert(result[right] == list[right] && result[left] == list[left]);
            } else {
                assert(result[left] == list[left]);
                if left < list.len() - 1 {
                    let last = list[list.len() - 1];
                    assert(!bstr::before(
                        bstr::utf8(last.logical_name),
                        bstr::utf8(list[left].logical_name),
                    ));
                    lemma_not_before(
                        bstr::utf8(list[left].logical_name),
                        bstr::utf8(last.logical_name),
                        name,
                    );
                }
            }
        }
        assert forall|other: ExpectedArtifact<Seq<char>, Seq<u8>, Seq<u8>>| #[trigger]
            result.contains(other) <==> list.contains(other) || other == output by {
            lemma_pushed(list, output, other);
        }
    }
}

proof fn lemma_pushed<T>(list: Seq<T>, last: T, item: T)
    ensures
        list.push(last).contains(item) <==> list.contains(item) || item == last,
{
    let all = list.push(last);
    if all.contains(item) {
        let at = choose|at: int| 0 <= at < all.len() && all[at] == item;
        if at < list.len() {
            assert(list[at] == item);
        }
    }
    if list.contains(item) {
        let at = choose|at: int| 0 <= at < list.len() && list[at] == item;
        assert(all[at] == item);
    }
    assert(all[list.len() as int] == last);
}

proof fn lemma_with_modules(
    list: Seq<ExpectedArtifact<Seq<char>, Seq<u8>, Seq<u8>>>,
    modules: Seq<ProbeModule<Seq<char>, Seq<u8>, Seq<u8>>>,
    directory: Seq<u8>,
)
    requires
        in_order_of_names(list),
    ensures
        with_modules(list, modules, directory).len() == list.len() + modules.len(),
        in_order_of_names(with_modules(list, modules, directory)),
        forall|other: ExpectedArtifact<Seq<char>, Seq<u8>, Seq<u8>>| #[trigger]
            with_modules(list, modules, directory).contains(other) <==> list.contains(other) || (
            exists|at: int|
                0 <= at < modules.len() && other == module_output(#[trigger] modules[at], directory)),
    decreases modules.len(),
{
    if modules.len() > 0 {
        let shorter = modules.drop_last();
        let last = modules.last();
        lemma_with_modules(list, shorter, directory);
        let inner = with_modules(list, shorter, directory);
        lemma_placed(inner, module_output(last, directory));
        assert forall|other: ExpectedArtifact<Seq<char>, Seq<u8>, Seq<u8>>| #[trigger]
            with_modules(list, modules, directory).contains(other) <==> list.contains(other) || (
            exists|at: int|
                0 <= at < modules.len() && other == module_output(
                    #[trigger] modules[at],
                    directory,
                )) by {
            assert(inner.contains(other) <==> list.contains(other) || (exists|at: int|
                0 <= at < shorter.len() && other == module_output(#[trigger] shorter[at], directory)));
            if exists|at: int|
                0 <= at < shorter.len() && other == module_output(#[trigger] shorter[at], directory) {
                let at = choose|at: int|
                    0 <= at < shorter.len() && other == module_output(
                        #[trigger] shorter[at],
                        directory,
                    );
                assert(modules[at] == shorter[at]);
            }
            if exists|at: int|
                0 <= at < modules.len() && other == module_output(#[trigger] modules[at], directory) {
                let at = choose|at: int|
                    0 <= at < modules.len() && other == module_output(
                        #[trigger] modules[at],
                        directory,
                    );
                if at < shorter.len() {
                    assert(modules[at] == shorter[at]);
                }
            }
            assert(modules[modules.len() - 1] == last);
        }
    }
}

/// What is expected of an invocation is complete. With `-c`, and without `-fsyntax-only`, an object
/// is expected where the invocation names it, or else in the working directory. With `-MD` or with
/// `-MMD` the dependency file that the invocation names is expected. Every module that the probe
/// wrote is expected in the module directory, with the contents that the probe saw. Nothing else is
/// expected, nothing twice, and the names are in order.
pub proof fn law_every_output_is_expected(
    invocation: Invocation,
    modules: Seq<ProbeModule<Seq<char>, Seq<u8>, Seq<u8>>>,
    cwd: Seq<u8>,
)
    requires
        outputs_of(invocation, modules, cwd) is Some,
    ensures
        ({
            let outputs = outputs_of(invocation, modules, cwd)->0;
            let compiles = invocation.compile_only && !invocation.syntax_only;
            let depends = (invocation.dependency_mode == Some(DependencyMode::Md)
                || invocation.dependency_mode == Some(DependencyMode::Mmd))
                && invocation.user_depfile is Some;
            let directory = match invocation.module_dir {
                Some(path) => upath::joined(cwd, path),
                None => cwd,
            };
            let object = (ExpectedArtifact::<Seq<char>, Seq<u8>, Seq<u8>> {
                logical_name: "object"@,
                kind: ArtifactKind::Object,
                role: DestinationRole::Object,
                path: upath::joined(
                    cwd,
                    match invocation.object {
                        Some(path) => path,
                        None => object_by_default(invocation.source)->0,
                    },
                ),
                probe_digest: None,
                probe_size: None,
            });
            let dependency = (ExpectedArtifact::<Seq<char>, Seq<u8>, Seq<u8>> {
                logical_name: "dependency"@,
                kind: ArtifactKind::Dependency,
                role: DestinationRole::Dependency,
                path: upath::joined(cwd, invocation.user_depfile->0),
                probe_digest: None,
                probe_size: None,
            });
            &&& compiles ==> outputs.contains(object)
            &&& depends ==> outputs.contains(dependency)
            &&& forall|at: int|
                0 <= at < modules.len() ==> exists|from: int|
                    0 <= from < outputs.len() && is_output_of(
                        #[trigger] outputs[from],
                        #[trigger] modules[at],
                        directory,
                    )
            &&& forall|from: int|
                0 <= from < outputs.len() ==> {
                    ||| compiles && #[trigger] outputs[from] == object
                    ||| depends && outputs[from] == dependency
                    ||| exists|at: int|
                        0 <= at < modules.len() && is_output_of(
                            outputs[from],
                            #[trigger] modules[at],
                            directory,
                        )
                }
            &&& outputs.len() == modules.len() + (if compiles {
                1int
            } else {
                0
            }) + (if depends {
                1int
            } else {
                0
            })
            &&& in_order_of_names(outputs)
        }),
{
    let outputs = outputs_of(invocation, modules, cwd)->0;
    let directory = module_directory(invocation.module_dir, cwd);
    let compiles = invocation.compile_only && !invocation.syntax_only;
    let start = if compiles {
        seq![
            plain_output(
                "object"@,
                ArtifactKind::Object,
                DestinationRole::Object,
                upath::joined(cwd, object_of(invocation)->0),
            ),
        ]
    } else {
        Seq::empty()
    };
    assert(compiles ==> start.contains(start[0]));
    if let Some(mode) = invocation.dependency_mode {
        assert(mode == DependencyMode::Md || mode == DependencyMode::Mmd);
    }
    let middle = with_modules(start, modules, directory);
    lemma_with_modules(start, modules, directory);
    if invocation.dependency_mode is Some && invocation.user_depfile is Some {
        lemma_placed(
            middle,
            plain_output(
                "dependency"@,
                ArtifactKind::Dependency,
                DestinationRole::Dependency,
                upath::joined(cwd, invocation.user_depfile->0),
            ),
        );
    }
    assert forall|at: int| 0 <= at < modules.len() implies exists|from: int|
        0 <= from < outputs.len() && is_output_of(
            #[trigger] outputs[from],
            #[trigger] modules[at],
            directory,
        ) by {
        let output = module_output(modules[at], directory);
        assert(middle.contains(output));
        assert(outputs.contains(output));
        let from = choose|from: int| 0 <= from < outputs.len() && outputs[from] == output;
        assert(is_output_of(outputs[from], modules[at], directory));
    }
    assert forall|from: int| 0 <= from < outputs.len() implies ({
        ||| compiles && #[trigger] outputs[from] == start[0]
        ||| invocation.dependency_mode is Some && invocation.user_depfile is Some && outputs[from]
            == plain_output(
            "dependency"@,
            ArtifactKind::Dependency,
            DestinationRole::Dependency,
            upath::joined(cwd, invocation.user_depfile->0),
        )
        ||| exists|at: int|
            0 <= at < modules.len() && is_output_of(outputs[from], #[trigger] modules[at], directory)
    }) by {
        assert(outputs.contains(outputs[from]));
        if middle.contains(outputs[from]) {
            if exists|at: int|
                0 <= at < modules.len() && outputs[from] == module_output(
                    #[trigger] modules[at],
                    directory,
                ) {
                let at = choose|at: int|
                    0 <= at < modules.len() && outputs[from] == module_output(
                        #[trigger] modules[at],
                        directory,
                    );
                assert(is_output_of(outputs[from], modules[at], directory));
            }
        }
    }
}

/// The object of a source without a named object carries the name of the source, with the extension
/// `o` in place of its own, and lies in the working directory, wherever the source lies.
pub proof fn law_default_object(lead: Seq<u8>, stem: Seq<u8>, extension: Seq<u8>)
    requires
        lead.len() == 0 || lead.last() == 0x2f,
        stem.len() > 0,
        extension.len() > 0,
        forall|at: int| 0 <= at < stem.len() ==> stem[at] != 0x2f,
        forall|at: int|
            0 <= at < extension.len() ==> extension[at] != 0x2f && extension[at] != 0x2e,
    ensures
        object_by_default(Some(lead + stem + seq![0x2e] + extension)) == Some(
            stem + bstr::utf8(".o"@),
        ),
{
    upath::law_extensions(lead, stem, extension, bstr::utf8("o"@));
    upath::law_extensions(Seq::empty(), stem, extension, bstr::utf8("o"@));
    assert(Seq::<u8>::empty() + stem =~= stem);
    reveal_strlit(".o");
    reveal_strlit("o");
    bstr::lemma_ascii(".o"@);
    bstr::lemma_ascii("o"@);
    assert(stem + seq![0x2e] + bstr::utf8("o"@) =~= stem + bstr::utf8(".o"@));
}

proof fn lemma_outputs_listed(
    invocation: Invocation,
    modules: Seq<ProbeModule<Seq<char>, Seq<u8>, Seq<u8>>>,
    cwd: Seq<u8>,
    outputs: Seq<ExpectedArtifact>,
)
    requires
        outputs_of(invocation, modules, cwd) == Some(output_views(outputs)),
    ensures
        (invocation.dependency_mode == Some(DependencyMode::Md) || invocation.dependency_mode
            == Some(DependencyMode::Mmd)) && invocation.user_depfile is Some ==> has_output(
            outputs,
            DestinationRole::Dependency,
            upath::joined(cwd, invocation.user_depfile->0),
        ),
        invocation.compile_only && !invocation.syntax_only ==> has_output(
            outputs,
            DestinationRole::Object,
            upath::joined(cwd, object_of(invocation)->0),
        ),
{
    let views = output_views(outputs);
    law_every_output_is_expected(invocation, modules, cwd);
    if invocation.dependency_mode is Some && invocation.user_depfile is Some {
        let dependency = plain_output(
            "dependency"@,
            ArtifactKind::Dependency,
            DestinationRole::Dependency,
            upath::joined(cwd, invocation.user_depfile->0),
        );
        let mode = invocation.dependency_mode->0;
        assert(mode == DependencyMode::Md || mode == DependencyMode::Mmd);
        assert(views.contains(dependency));
        let at = choose|at: int| 0 <= at < views.len() && views[at] == dependency;
        assert(outputs[at]@ == views[at]);
    }
    if invocation.compile_only && !invocation.syntax_only {
        let object = plain_output(
            "object"@,
            ArtifactKind::Object,
            DestinationRole::Object,
            upath::joined(cwd, object_of(invocation)->0),
        );
        assert(views.contains(object));
        let at = choose|at: int| 0 <= at < views.len() && views[at] == object;
        assert(outputs[at]@ == views[at]);
    }
}

/// The metadata of a file by which a change while it is read is seen.
#[derive(Clone, Copy, Debug, PartialEq, Eq, Structural)]
pub struct FileStat {
    pub regular: bool,
    pub size: u64,
    /// The time of the last change, in nanoseconds, where there is one.
    pub modified: Option<i128>,
    pub identity: Option<FileIdentity>,
}

/// What was found when a file was read: its metadata, its contents, and its metadata once more.
#[derive(Debug)]
pub struct Reading {
    pub before: Result<FileStat, String>,
    pub contents: Result<Vec<u8>, String>,
    pub after: Result<FileStat, String>,
}

/// Why a file counts as not read.
#[derive(Clone, Debug, PartialEq, Eq)]
pub enum ReadError<B = Vec<u8>, S = String> {
    Failed(S),
    NotRegular(B),
    Changed(B),
}

impl View for ReadError {
    type V = ReadError<Seq<u8>, Seq<char>>;

    open spec fn view(&self) -> ReadError<Seq<u8>, Seq<char>> {
        match *self {
            ReadError::Failed(message) => ReadError::Failed(message@),
            ReadError::NotRegular(path) => ReadError::NotRegular(path@),
            ReadError::Changed(path) => ReadError::Changed(path@),
        }
    }
}

/// The words of an error.
pub open spec fn read_error_text(error: ReadError<Seq<u8>, Seq<char>>) -> Seq<char> {
    match error {
        ReadError::Failed(text) => text,
        ReadError::NotRegular(path) => {
            "dependency is not a regular file: "@ + words::lossy_text(path)
        },
        ReadError::Changed(path) => {
            "dependency changed while hashing: "@ + words::lossy_text(path)
        },
    }
}

impl ReadError {
    /// The words of the error.
    pub fn message(&self) -> (text: String)
        ensures
            text@ == read_error_text(self@),
    {
        match self {
            ReadError::Failed(text) => text.clone(),
            ReadError::NotRegular(path) => words::two(
                "dependency is not a regular file: ",
                words::lossy(path.as_slice()).as_str(),
            ),
            ReadError::Changed(path) => words::two(
                "dependency changed while hashing: ",
                words::lossy(path.as_slice()).as_str(),
            ),
        }
    }
}

/// The digest and the size of a file.
#[verifier::ext_equal]
pub struct Content {
    pub digest: Seq<u8>,
    pub size: u64,
}

/// The metadata did not change while the file was read, and counts the bytes that were read.
pub open spec fn steady(before: FileStat, after: FileStat, length: nat) -> bool {
    before.size == after.size && before.modified == after.modified && before.identity
        == after.identity && before.size == length
}

/// What was read of a file, where it was a regular file that did not change meanwhile.
pub open spec fn read_of(path: Seq<u8>, reading: Reading) -> Result<
    Content,
    ReadError<Seq<u8>, Seq<char>>,
> {
    match reading.before {
        Err(message) => Err(ReadError::Failed(message@)),
        Ok(before) => if !before.regular {
            Err(ReadError::NotRegular(path))
        } else {
            match reading.contents {
                Err(message) => Err(ReadError::Failed(message@)),
                Ok(bytes) => match reading.after {
                    Err(message) => Err(ReadError::Failed(message@)),
                    Ok(after) => if steady(before, after, bytes@.len()) {
                        Ok(
                            Content {
                                digest: digest::blake3_digest(bytes@),
                                size: bytes@.len() as u64,
                            },
                        )
                    } else {
                        Err(ReadError::Changed(path))
                    },
                },
            }
        },
    }
}

fn same_stat(before: &FileStat, after: &FileStat, length: usize) -> (yes: bool)
    ensures
        yes == steady(*before, *after, length as nat),
{
    let modified = match (before.modified, after.modified) {
        (Some(left), Some(right)) => left == right,
        (None, None) => true,
        _ => false,
    };
    before.size == after.size && modified && same_identity(before.identity, after.identity)
        && before.size == length as u64
}

/// Two files have the same identity, or neither has one.
pub fn same_identity(left: Option<FileIdentity>, right: Option<FileIdentity>) -> (equal: bool)
    ensures
        equal == (left == right),
{
    match (left, right) {
        (Some(first), Some(second)) => first == second,
        (None, None) => true,
        _ => false,
    }
}

/// The input that a file is, with the paths under which it is known.
pub open spec fn input_of(
    path: Seq<u8>,
    raw_path: Seq<u8>,
    observed_path: Seq<u8>,
    content: Content,
) -> InputFile<Seq<u8>, Seq<u8>> {
    InputFile { raw_path, observed_path, path, digest: content.digest, size: content.size }
}

/// The input that was read under a path.
pub fn read_stable(path: &[u8], reading: &Reading) -> (outcome: Result<InputFile, ReadError>)
    ensures
        match outcome {
            Ok(input) => read_of(path@, *reading) is Ok && input@ == input_of(
                path@,
                path@,
                path@,
                read_of(path@, *reading)->Ok_0,
            ),
            Err(error) => read_of(path@, *reading) == Err::<Content, _>(error@),
        },
{
    read_stable_with_paths(path, path, path, reading)
}

/// The input that was read under a path, known under other paths too.
pub fn read_stable_with_paths(
    path: &[u8],
    raw_path: &[u8],
    observed_path: &[u8],
    reading: &Reading,
) -> (outcome: Result<InputFile, ReadError>)
    ensures
        match outcome {
            Ok(input) => read_of(path@, *reading) is Ok && input@ == input_of(
                path@,
                raw_path@,
                observed_path@,
                read_of(path@, *reading)->Ok_0,
            ),
            Err(error) => read_of(path@, *reading) == Err::<Content, _>(error@),
        },
{
    let before = match &reading.before {
        Ok(stat) => stat,
        Err(message) => {
            return Err(ReadError::Failed(message.clone()));
        },
    };
    if !before.regular {
        return Err(ReadError::NotRegular(bstr::copy(path)));
    }
    let bytes = match &reading.contents {
        Ok(bytes) => bytes,
        Err(message) => {
            return Err(ReadError::Failed(message.clone()));
        },
    };
    let after = match &reading.after {
        Ok(stat) => stat,
        Err(message) => {
            return Err(ReadError::Failed(message.clone()));
        },
    };
    if !same_stat(before, after, bytes.len()) {
        return Err(ReadError::Changed(bstr::copy(path)));
    }
    Ok(
        InputFile {
            raw_path: bstr::copy(raw_path),
            observed_path: bstr::copy(observed_path),
            path: bstr::copy(path),
            digest: digest::hash(bytes.as_slice()),
            size: bytes.len() as u64,
        },
    )
}

/// Two digests that may be absent are equal.
pub fn same_digest(left: &Option<[u8; 32]>, right: &Option<[u8; 32]>) -> (equal: bool)
    ensures
        equal == (digest_view(*left) == digest_view(*right)),
{
    match (left, right) {
        (Some(first), Some(second)) => digest::same(first, second),
        (None, None) => true,
        _ => false,
    }
}

fn same_size(left: Option<u64>, right: Option<u64>) -> (equal: bool)
    ensures
        equal == (left == right),
{
    match (left, right) {
        (Some(first), Some(second)) => first == second,
        (None, None) => true,
        _ => false,
    }
}

fn same_target(left: &DepfileTarget, right: &DepfileTarget) -> (equal: bool)
    ensures
        equal == (left@ == right@),
{
    match (left, right) {
        (DepfileTarget::Ordinary(first), DepfileTarget::Ordinary(second)) => bstr::same(
            first.as_slice(),
            second.as_slice(),
        ),
        (DepfileTarget::GeneratedModule(first), DepfileTarget::GeneratedModule(second)) => {
            bstr::same(first.as_slice(), second.as_slice())
        },
        _ => false,
    }
}

/// Two lists of targets are equal.
pub fn same_targets(left: &Vec<DepfileTarget>, right: &Vec<DepfileTarget>) -> (equal: bool)
    ensures
        equal == (target_views(left@) == target_views(right@)),
{
    let ghost first = target_views(left@);
    let ghost second = target_views(right@);
    if left.len() != right.len() {
        assert(first.len() != second.len());
        return false;
    }
    let mut index: usize = 0;
    while index < left.len()
        invariant
            index <= left.len(),
            left.len() == right.len(),
            first == target_views(left@),
            second == target_views(right@),
            forall|at: int| 0 <= at < index ==> #[trigger] first[at] == second[at],
        decreases left.len() - index,
    {
        if !same_target(&left[index], &right[index]) {
            assert(first[index as int] != second[index as int]);
            return false;
        }
        assert(first[index as int] == second[index as int]);
        index += 1;
    }
    assert(first =~= second);
    true
}

/// Some target of a list is `target`.
pub fn contains_target(list: &Vec<DepfileTarget>, target: &DepfileTarget) -> (found: bool)
    ensures
        found == target_views(list@).contains(target@),
{
    let ghost all = target_views(list@);
    let mut index: usize = 0;
    while index < list.len()
        invariant
            index <= list.len(),
            all == target_views(list@),
            forall|at: int| 0 <= at < index ==> #[trigger] all[at] != target@,
        decreases list.len() - index,
    {
        assert(all[index as int] == list@[index as int]@);
        if same_target(&list[index], target) {
            return true;
        }
        index += 1;
    }
    false
}

fn same_prerequisite(left: &DepfilePrerequisite, right: &DepfilePrerequisite) -> (equal: bool)
    ensures
        equal == (left@ == right@),
{
    match (left, right) {
        (DepfilePrerequisite::Ordinary(first), DepfilePrerequisite::Ordinary(second)) => {
            bstr::same(first.as_slice(), second.as_slice())
        },
        (
            DepfilePrerequisite::GeneratedModule(first),
            DepfilePrerequisite::GeneratedModule(second),
        ) => bstr::same(first.as_slice(), second.as_slice()),
        _ => false,
    }
}

fn same_prerequisites(left: &Vec<DepfilePrerequisite>, right: &Vec<DepfilePrerequisite>) -> (equal:
    bool)
    ensures
        equal == (prerequisite_views(left@) == prerequisite_views(right@)),
{
    let ghost first = prerequisite_views(left@);
    let ghost second = prerequisite_views(right@);
    if left.len() != right.len() {
        assert(first.len() != second.len());
        return false;
    }
    let mut index: usize = 0;
    while index < left.len()
        invariant
            index <= left.len(),
            left.len() == right.len(),
            first == prerequisite_views(left@),
            second == prerequisite_views(right@),
            forall|at: int| 0 <= at < index ==> #[trigger] first[at] == second[at],
        decreases left.len() - index,
    {
        if !same_prerequisite(&left[index], &right[index]) {
            assert(first[index as int] != second[index as int]);
            return false;
        }
        assert(first[index as int] == second[index as int]);
        index += 1;
    }
    assert(first =~= second);
    true
}

fn same_rules(left: &Vec<ObservedDepfileRule>, right: &Vec<ObservedDepfileRule>) -> (equal: bool)
    ensures
        equal == (rule_views(left@) == rule_views(right@)),
{
    let ghost first = rule_views(left@);
    let ghost second = rule_views(right@);
    if left.len() != right.len() {
        assert(first.len() != second.len());
        return false;
    }
    let mut index: usize = 0;
    while index < left.len()
        invariant
            index <= left.len(),
            left.len() == right.len(),
            first == rule_views(left@),
            second == rule_views(right@),
            forall|at: int| 0 <= at < index ==> #[trigger] first[at] == second[at],
        decreases left.len() - index,
    {
        assert(first[index as int] == left@[index as int]@);
        assert(second[index as int] == right@[index as int]@);
        if !same_targets(&left[index].targets, &right[index].targets) || !same_prerequisites(
            &left[index].prerequisites,
            &right[index].prerequisites,
        ) {
            assert(first[index as int] != second[index as int]);
            return false;
        }
        assert(first[index as int] =~= second[index as int]);
        index += 1;
    }
    assert(first =~= second);
    true
}

/// Two dependency files have the same rules.
pub fn same_shape(left: &DepfileShape, right: &DepfileShape) -> (equal: bool)
    ensures
        equal == (left@ == right@),
{
    same_rules(&left.primary_rules, &right.primary_rules) && same_targets(
        &left.dummy_targets,
        &right.dummy_targets,
    )
}

/// Two preprocessor observations are equal, or both absent.
pub fn same_preprocessor(
    left: &Option<PreprocessorObservation>,
    right: &Option<PreprocessorObservation>,
) -> (equal: bool)
    ensures
        equal == (preprocessor_view(*left) == preprocessor_view(*right)),
{
    match (left, right) {
        (Some(first), Some(second)) => digest::same(&first.stdout_digest, &second.stdout_digest)
            && first.stdout_size == second.stdout_size && digest::same(
            &first.stderr_digest,
            &second.stderr_digest,
        ) && first.stderr_size == second.stderr_size && first.automatic_lowercase_source
            == second.automatic_lowercase_source,
        (None, None) => true,
        _ => false,
    }
}

/// Two inputs are the same: byte for byte as the compiler wrote them, by their paths and by their
/// contents.
pub open spec fn alike_inputs(
    left: InputFile<Seq<u8>, Seq<u8>>,
    right: InputFile<Seq<u8>, Seq<u8>>,
) -> bool {
    &&& left.raw_path == right.raw_path
    &&& upath::same_path(left.observed_path, right.observed_path)
    &&& upath::same_path(left.path, right.path)
    &&& left.digest == right.digest
    &&& left.size == right.size
}

/// Two dependencies are the same.
pub open spec fn alike_dependencies(
    left: ObservedDependency<Seq<u8>>,
    right: ObservedDependency<Seq<u8>>,
) -> bool {
    &&& left.raw_path == right.raw_path
    &&& upath::same_path(left.observed_path, right.observed_path)
    &&& upath::same_path(left.path, right.path)
}

/// Two outputs are the same.
pub open spec fn alike_outputs(
    left: ExpectedArtifact<Seq<char>, Seq<u8>, Seq<u8>>,
    right: ExpectedArtifact<Seq<char>, Seq<u8>, Seq<u8>>,
) -> bool {
    &&& left.logical_name == right.logical_name
    &&& left.kind == right.kind
    &&& left.role == right.role
    &&& upath::same_path(left.path, right.path)
    &&& left.probe_digest == right.probe_digest
    &&& left.probe_size == right.probe_size
}

/// Two observations are the same. Paths are compared by their components.
pub open spec fn alike(left: Observed, right: Observed) -> bool {
    &&& left.inputs.len() == right.inputs.len()
    &&& forall|at: int|
        0 <= at < left.inputs.len() ==> alike_inputs(#[trigger] left.inputs[at], right.inputs[at])
    &&& left.dependencies.len() == right.dependencies.len()
    &&& forall|at: int|
        0 <= at < left.dependencies.len() ==> alike_dependencies(
            #[trigger] left.dependencies[at],
            right.dependencies[at],
        )
    &&& left.outputs.len() == right.outputs.len()
    &&& forall|at: int|
        0 <= at < left.outputs.len() ==> alike_outputs(
            #[trigger] left.outputs[at],
            right.outputs[at],
        )
    &&& left.depfile_shape == right.depfile_shape
    &&& left.preprocessor == right.preprocessor
}

fn same_inputs(left: &Vec<InputFile>, right: &Vec<InputFile>) -> (equal: bool)
    ensures
        equal == (left@.len() == right@.len() && forall|at: int|
            0 <= at < left@.len() ==> alike_inputs(
                #[trigger] input_views(left@)[at],
                input_views(right@)[at],
            )),
{
    let ghost first = input_views(left@);
    let ghost second = input_views(right@);
    if left.len() != right.len() {
        return false;
    }
    let mut index: usize = 0;
    while index < left.len()
        invariant
            index <= left.len(),
            left.len() == right.len(),
            first == input_views(left@),
            second == input_views(right@),
            forall|at: int| 0 <= at < index ==> alike_inputs(#[trigger] first[at], second[at]),
        decreases left.len() - index,
    {
        let one = &left[index];
        let two = &right[index];
        assert(first[index as int] == one@ && second[index as int] == two@);
        if !bstr::same(one.raw_path.as_slice(), two.raw_path.as_slice()) || !upath::same(
            one.observed_path.as_slice(),
            two.observed_path.as_slice(),
        ) || !upath::same(one.path.as_slice(), two.path.as_slice()) || !digest::same(
            &one.digest,
            &two.digest,
        ) || one.size != two.size {
            assert(!alike_inputs(first[index as int], second[index as int]));
            return false;
        }
        index += 1;
    }
    true
}

fn same_dependencies(left: &Vec<ObservedDependency>, right: &Vec<ObservedDependency>) -> (equal:
    bool)
    ensures
        equal == (left@.len() == right@.len() && forall|at: int|
            0 <= at < left@.len() ==> alike_dependencies(
                #[trigger] dependency_views(left@)[at],
                dependency_views(right@)[at],
            )),
{
    let ghost first = dependency_views(left@);
    let ghost second = dependency_views(right@);
    if left.len() != right.len() {
        return false;
    }
    let mut index: usize = 0;
    while index < left.len()
        invariant
            index <= left.len(),
            left.len() == right.len(),
            first == dependency_views(left@),
            second == dependency_views(right@),
            forall|at: int| 0 <= at < index ==> alike_dependencies(#[trigger] first[at], second[at]),
        decreases left.len() - index,
    {
        let one = &left[index];
        let two = &right[index];
        assert(first[index as int] == one@ && second[index as int] == two@);
        if !bstr::same(one.raw_path.as_slice(), two.raw_path.as_slice()) || !upath::same(
            one.observed_path.as_slice(),
            two.observed_path.as_slice(),
        ) || !upath::same(one.path.as_slice(), two.path.as_slice()) {
            assert(!alike_dependencies(first[index as int], second[index as int]));
            return false;
        }
        index += 1;
    }
    true
}

fn same_outputs(left: &Vec<ExpectedArtifact>, right: &Vec<ExpectedArtifact>) -> (equal: bool)
    ensures
        equal == (left@.len() == right@.len() && forall|at: int|
            0 <= at < left@.len() ==> alike_outputs(
                #[trigger] output_views(left@)[at],
                output_views(right@)[at],
            )),
{
    let ghost first = output_views(left@);
    let ghost second = output_views(right@);
    if left.len() != right.len() {
        return false;
    }
    let mut index: usize = 0;
    while index < left.len()
        invariant
            index <= left.len(),
            left.len() == right.len(),
            first == output_views(left@),
            second == output_views(right@),
            forall|at: int| 0 <= at < index ==> alike_outputs(#[trigger] first[at], second[at]),
        decreases left.len() - index,
    {
        let one = &left[index];
        let two = &right[index];
        assert(first[index as int] == one@ && second[index as int] == two@);
        if !(one.logical_name == two.logical_name) || !(one.kind == two.kind) || !(one.role
            == two.role) || !upath::same(one.path.as_slice(), two.path.as_slice()) || !same_digest(
            &one.probe_digest,
            &two.probe_digest,
        ) || !same_size(one.probe_size, two.probe_size) {
            assert(!alike_outputs(first[index as int], second[index as int]));
            return false;
        }
        index += 1;
    }
    true
}

impl Observation {
    /// Two observations are the same. Paths are compared by their components.
    pub fn same(&self, other: &Observation) -> (equal: bool)
        ensures
            equal == alike(self@, other@),
    {
        same_inputs(&self.inputs, &other.inputs) && same_dependencies(
            &self.dependencies,
            &other.dependencies,
        ) && same_outputs(&self.outputs, &other.outputs) && same_shape(
            &self.depfile_shape,
            &other.depfile_shape,
        ) && same_preprocessor(&self.preprocessor, &other.preprocessor)
    }
}

/// The inputs are as they were observed, where `readings` is what is read of them now.
pub open spec fn unchanged(
    inputs: Seq<InputFile<Seq<u8>, Seq<u8>>>,
    readings: Seq<Reading>,
) -> bool {
    &&& readings.len() == inputs.len()
    &&& forall|at: int|
        0 <= at < inputs.len() ==> read_of((#[trigger] inputs[at]).path, readings[at]) == Ok::<
            _,
            ReadError<Seq<u8>, Seq<char>>,
        >(Content { digest: inputs[at].digest, size: inputs[at].size })
}

/// The inputs are as they were observed, where `readings` is what is read of them now.
pub fn inputs_unchanged(inputs: &Vec<InputFile>, readings: &Vec<Reading>) -> (yes: bool)
    ensures
        yes == unchanged(input_views(inputs@), readings@),
{
    let ghost all = input_views(inputs@);
    if inputs.len() != readings.len() {
        return false;
    }
    let mut index: usize = 0;
    while index < inputs.len()
        invariant
            index <= inputs.len(),
            inputs.len() == readings.len(),
            all == input_views(inputs@),
            forall|at: int|
                0 <= at < index ==> read_of((#[trigger] all[at]).path, readings@[at]) == Ok::<
                    _,
                    ReadError<Seq<u8>, Seq<char>>,
                >(Content { digest: all[at].digest, size: all[at].size }),
        decreases inputs.len() - index,
    {
        let expected = &inputs[index];
        assert(all[index as int] == expected@);
        match read_stable(expected.path.as_slice(), &readings[index]) {
            Ok(current) => {
                if !digest::same(&current.digest, &expected.digest) || current.size
                    != expected.size {
                    assert(read_of(all[index as int].path, readings@[index as int])->Ok_0 != (
                    Content { digest: all[index as int].digest, size: all[index as int].size }));
                    return false;
                }
            },
            Err(_) => {
                return false;
            },
        }
        index += 1;
    }
    true
}

} // verus!
