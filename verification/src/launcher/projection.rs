//! Where the outputs of a compilation go, and what is there before it.
//!
//! No output may stand in for another, and no input may be an output: such a compilation is not
//! cached.
use vstd::prelude::*;

use crate::bstr;
use crate::cache::snapshot::FileIdentity;
use crate::digest;
use crate::launcher::observation;
use crate::launcher::observation::{Content, ExpectedArtifact, ReadError, Reading};
use crate::upath;
use crate::words;

verus! {

broadcast use bstr::lemma_views_push;

/// Why a compilation cannot be observed.
#[derive(Clone, Debug, PartialEq, Eq)]
pub enum ObservationError<B = Vec<u8>, S = String> {
    /// Something was not asked of the filesystem.
    MissingFact,
    MissingSource,
    MissingObject,
    SourceCollides(B),
    Unresolvable { path: B, source: S },
    ModuleCollision(B),
    OutputCollision(B),
    Uninspectable { path: B, source: S },
    AliasesOutput(B),
    Read(ReadError<B, S>),
    SameDestination(B),
    OutputUninspectable { path: B, source: S },
    OutputNotRegular(B),
    OutputHardLinked(B),
    OutputUnresolvable { path: B, source: S },
    SamePath(B),
    SharedIdentity { previous: B, path: B },
    MissingProbeDigest,
    MissingProbeSize,
    EntryType(S),
    UnexpectedOutput(B),
    NameNotText,
    UnexpectedName(S),
    ModuleUnresolvable { path: B, source: S },
    ModuleUnreadable { name: S, error: ReadError<B, S> },
    DuplicateModule(B),
    TargetCount { module: B, count: u8 },
    NamelessModule,
    IncompleteDepfile,
}

/// The contents of an `ObservationError`.
pub type Fault = ObservationError<Seq<u8>, Seq<char>>;

impl View for ObservationError {
    type V = ObservationError<Seq<u8>, Seq<char>>;

    open spec fn view(&self) -> ObservationError<Seq<u8>, Seq<char>> {
        match *self {
            ObservationError::MissingFact => ObservationError::MissingFact,
            ObservationError::MissingSource => ObservationError::MissingSource,
            ObservationError::MissingObject => ObservationError::MissingObject,
            ObservationError::SourceCollides(path) => ObservationError::SourceCollides(path@),
            ObservationError::Unresolvable { path, source } => ObservationError::Unresolvable {
                path: path@,
                source: source@,
            },
            ObservationError::ModuleCollision(path) => ObservationError::ModuleCollision(path@),
            ObservationError::OutputCollision(path) => ObservationError::OutputCollision(path@),
            ObservationError::Uninspectable { path, source } => ObservationError::Uninspectable {
                path: path@,
                source: source@,
            },
            ObservationError::AliasesOutput(path) => ObservationError::AliasesOutput(path@),
            ObservationError::Read(error) => ObservationError::Read(error@),
            ObservationError::SameDestination(path) => ObservationError::SameDestination(path@),
            ObservationError::OutputUninspectable { path, source } => {
                ObservationError::OutputUninspectable { path: path@, source: source@ }
            },
            ObservationError::OutputNotRegular(path) => ObservationError::OutputNotRegular(path@),
            ObservationError::OutputHardLinked(path) => ObservationError::OutputHardLinked(path@),
            ObservationError::OutputUnresolvable { path, source } => {
                ObservationError::OutputUnresolvable { path: path@, source: source@ }
            },
            ObservationError::SamePath(path) => ObservationError::SamePath(path@),
            ObservationError::SharedIdentity { previous, path } => {
                ObservationError::SharedIdentity { previous: previous@, path: path@ }
            },
            ObservationError::MissingProbeDigest => ObservationError::MissingProbeDigest,
            ObservationError::MissingProbeSize => ObservationError::MissingProbeSize,
            ObservationError::EntryType(source) => ObservationError::EntryType(source@),
            ObservationError::UnexpectedOutput(path) => ObservationError::UnexpectedOutput(path@),
            ObservationError::NameNotText => ObservationError::NameNotText,
            ObservationError::UnexpectedName(name) => ObservationError::UnexpectedName(name@),
            ObservationError::ModuleUnresolvable { path, source } => {
                ObservationError::ModuleUnresolvable { path: path@, source: source@ }
            },
            ObservationError::ModuleUnreadable { name, error } => {
                ObservationError::ModuleUnreadable { name: name@, error: error@ }
            },
            ObservationError::DuplicateModule(path) => ObservationError::DuplicateModule(path@),
            ObservationError::TargetCount { module, count } => ObservationError::TargetCount {
                module: module@,
                count,
            },
            ObservationError::NamelessModule => ObservationError::NamelessModule,
            ObservationError::IncompleteDepfile => ObservationError::IncompleteDepfile,
        }
    }
}

/// The words of an error.
pub open spec fn error_text(error: Fault) -> Seq<char> {
    match error {
        ObservationError::MissingFact => "a filesystem observation is missing"@,
        ObservationError::MissingSource => "missing source input"@,
        ObservationError::MissingObject => "cannot derive object output"@,
        ObservationError::SourceCollides(path) => {
            "source input collides with a compiler output: "@ + words::lossy_text(path)
        },
        ObservationError::Unresolvable { path, source } => {
            "cannot resolve compiler dependency "@ + words::lossy_text(path) + ": "@ + source
        },
        ObservationError::ModuleCollision(path) => {
            "compiler dependency collides with a different projected module output: "@
                + words::lossy_text(path)
        },
        ObservationError::OutputCollision(path) => {
            "compiler dependency collides with a projected output: "@ + words::lossy_text(path)
        },
        ObservationError::Uninspectable { path, source } => {
            "cannot inspect compiler dependency "@ + words::lossy_text(path) + ": "@ + source
        },
        ObservationError::AliasesOutput(path) => {
            "compiler dependency aliases a projected output: "@ + words::lossy_text(path)
        },
        ObservationError::Read(error) => observation::read_error_text(error),
        ObservationError::SameDestination(path) => {
            "projected outputs resolve to the same destination: "@ + words::lossy_text(path)
        },
        ObservationError::OutputUninspectable { path, source } => {
            "cannot inspect projected output "@ + words::lossy_text(path) + ": "@ + source
        },
        ObservationError::OutputNotRegular(path) => {
            "projected output is not a regular file: "@ + words::lossy_text(path)
        },
        ObservationError::OutputHardLinked(path) => {
            "projected output has multiple hard links: "@ + words::lossy_text(path)
        },
        ObservationError::OutputUnresolvable { path, source } => {
            "cannot resolve projected output "@ + words::lossy_text(path) + ": "@ + source
        },
        ObservationError::SamePath(path) => {
            "projected outputs resolve to the same path: "@ + words::lossy_text(path)
        },
        ObservationError::SharedIdentity { previous, path } => {
            "projected outputs share a filesystem identity: "@
                + words::lossy_text(previous)
                + " and "@
                + words::lossy_text(path)
        },
        ObservationError::MissingProbeDigest => "module output is missing its probe digest"@,
        ObservationError::MissingProbeSize => "module output is missing its probe size"@,
        ObservationError::EntryType(source) => {
            "cannot inspect probe module entry type: "@ + source
        },
        ObservationError::UnexpectedOutput(path) => {
            "unexpected probe module output: "@ + words::lossy_text(path)
        },
        ObservationError::NameNotText => "probe module output name is not valid UTF-8"@,
        ObservationError::UnexpectedName(name) => {
            "unexpected probe output in module directory: "@ + name
        },
        ObservationError::ModuleUnresolvable { path, source } => {
            "cannot resolve probe module "@ + words::lossy_text(path) + ": "@ + source
        },
        ObservationError::ModuleUnreadable { name, error } => {
            "cannot read probe module "@ + name + ": "@ + observation::read_error_text(error)
        },
        ObservationError::DuplicateModule(path) => {
            "duplicate probe module output: "@ + words::lossy_text(path)
        },
        ObservationError::TargetCount { module, count } => {
            "probe module "@
                + words::lossy_text(module)
                + " has "@
                + words::number_text(count as nat)
                + " dependency targets instead of one"@
        },
        ObservationError::NamelessModule => "generated module prerequisite has no file name"@,
        ObservationError::IncompleteDepfile => {
            "preprocessor filesystem queries are not completely represented by depfiles"@
        },
    }
}

impl ObservationError {
    /// The words of the error.
    pub fn message(&self) -> (text: String)
        ensures
            text@ == error_text(self@),
    {
        match self {
            ObservationError::MissingFact => "a filesystem observation is missing".to_owned(),
            ObservationError::MissingSource => "missing source input".to_owned(),
            ObservationError::MissingObject => "cannot derive object output".to_owned(),
            ObservationError::SourceCollides(path) => words::two(
                "source input collides with a compiler output: ",
                words::lossy(path.as_slice()).as_str(),
            ),
            ObservationError::Unresolvable { path, source } => words::four(
                "cannot resolve compiler dependency ",
                words::lossy(path.as_slice()).as_str(),
                ": ",
                source.as_str(),
            ),
            ObservationError::ModuleCollision(path) => words::two(
                "compiler dependency collides with a different projected module output: ",
                words::lossy(path.as_slice()).as_str(),
            ),
            ObservationError::OutputCollision(path) => words::two(
                "compiler dependency collides with a projected output: ",
                words::lossy(path.as_slice()).as_str(),
            ),
            ObservationError::Uninspectable { path, source } => words::four(
                "cannot inspect compiler dependency ",
                words::lossy(path.as_slice()).as_str(),
                ": ",
                source.as_str(),
            ),
            ObservationError::AliasesOutput(path) => words::two(
                "compiler dependency aliases a projected output: ",
                words::lossy(path.as_slice()).as_str(),
            ),
            ObservationError::Read(error) => error.message(),
            ObservationError::SameDestination(path) => words::two(
                "projected outputs resolve to the same destination: ",
                words::lossy(path.as_slice()).as_str(),
            ),
            ObservationError::OutputUninspectable { path, source } => words::four(
                "cannot inspect projected output ",
                words::lossy(path.as_slice()).as_str(),
                ": ",
                source.as_str(),
            ),
            ObservationError::OutputNotRegular(path) => words::two(
                "projected output is not a regular file: ",
                words::lossy(path.as_slice()).as_str(),
            ),
            ObservationError::OutputHardLinked(path) => words::two(
                "projected output has multiple hard links: ",
                words::lossy(path.as_slice()).as_str(),
            ),
            ObservationError::OutputUnresolvable { path, source } => words::four(
                "cannot resolve projected output ",
                words::lossy(path.as_slice()).as_str(),
                ": ",
                source.as_str(),
            ),
            ObservationError::SamePath(path) => words::two(
                "projected outputs resolve to the same path: ",
                words::lossy(path.as_slice()).as_str(),
            ),
            ObservationError::SharedIdentity { previous, path } => words::four(
                "projected outputs share a filesystem identity: ",
                words::lossy(previous.as_slice()).as_str(),
                " and ",
                words::lossy(path.as_slice()).as_str(),
            ),
            ObservationError::MissingProbeDigest => {
                "module output is missing its probe digest".to_owned()
            },
            ObservationError::MissingProbeSize => {
                "module output is missing its probe size".to_owned()
            },
            ObservationError::EntryType(source) => words::two(
                "cannot inspect probe module entry type: ",
                source.as_str(),
            ),
            ObservationError::UnexpectedOutput(path) => words::two(
                "unexpected probe module output: ",
                words::lossy(path.as_slice()).as_str(),
            ),
            ObservationError::NameNotText => {
                "probe module output name is not valid UTF-8".to_owned()
            },
            ObservationError::UnexpectedName(name) => words::two(
                "unexpected probe output in module directory: ",
                name.as_str(),
            ),
            ObservationError::ModuleUnresolvable { path, source } => words::four(
                "cannot resolve probe module ",
                words::lossy(path.as_slice()).as_str(),
                ": ",
                source.as_str(),
            ),
            ObservationError::ModuleUnreadable { name, error } => words::four(
                "cannot read probe module ",
                name.as_str(),
                ": ",
                error.message().as_str(),
            ),
            ObservationError::DuplicateModule(path) => words::two(
                "duplicate probe module output: ",
                words::lossy(path.as_slice()).as_str(),
            ),
            ObservationError::TargetCount { module, count } => words::five(
                "probe module ",
                words::lossy(module.as_slice()).as_str(),
                " has ",
                words::number(*count as u64).as_str(),
                " dependency targets instead of one",
            ),
            ObservationError::NamelessModule => {
                "generated module prerequisite has no file name".to_owned()
            },
            ObservationError::IncompleteDepfile => {
                "preprocessor filesystem queries are not completely represented by depfiles".to_owned()
            },
        }
    }
}

/// What is where an output goes.
#[derive(Clone, Debug, PartialEq, Eq)]
pub enum OutputState {
    Absent,
    Failed(String),
    Present { regular: bool, links: u64, identity: Option<FileIdentity> },
}

/// What is found out about the place of an output.
#[derive(Debug)]
pub struct OutputFacts {
    /// The canonical path of the directory, where there is one.
    pub parent: Option<Vec<u8>>,
    pub state: OutputState,
    /// The canonical path of the output itself.
    pub canonical: Result<Vec<u8>, String>,
}

/// Where an output goes: its name below its directory, or else its path by its text alone.
pub open spec fn destination(path: Seq<u8>, parent: Option<Seq<u8>>) -> Seq<u8> {
    if parent is Some && upath::file_name_of(path) is Some {
        upath::joined(parent->0, upath::file_name_of(path)->0)
    } else {
        upath::normalized_of(path)
    }
}

/// Where an output goes.
pub fn normalize_output_path(path: &[u8], parent: &Option<Vec<u8>>) -> (place: Vec<u8>)
    ensures
        place@ == destination(path@, bstr::opt_view(*parent)),
{
    if let Some(directory) = parent {
        if let Some(name) = upath::file_name(path) {
            return upath::join(directory.as_slice(), name.as_slice());
        }
    }
    upath::normalize(path)
}

/// A module that is where the compilation will write it.
#[derive(Clone, Debug, PartialEq, Eq)]
pub struct ProjectedModule<B = Vec<u8>, D = [u8; 32]> {
    pub path: B,
    pub digest: D,
    pub size: u64,
}

impl View for ProjectedModule {
    type V = ProjectedModule<Seq<u8>, Seq<u8>>;

    open spec fn view(&self) -> ProjectedModule<Seq<u8>, Seq<u8>> {
        ProjectedModule { path: self.path@, digest: self.digest@, size: self.size }
    }
}

/// The identity of an output that is there.
#[derive(Clone, Debug, PartialEq, Eq)]
pub struct ProjectedIdentity<B = Vec<u8>> {
    pub identity: FileIdentity,
    pub path: B,
}

impl View for ProjectedIdentity {
    type V = ProjectedIdentity<Seq<u8>>;

    open spec fn view(&self) -> ProjectedIdentity<Seq<u8>> {
        ProjectedIdentity { identity: self.identity, path: self.path@ }
    }
}

/// What is there already of the outputs.
#[derive(Clone, Debug, PartialEq, Eq)]
pub struct ProjectedOutputs {
    pub modules: Vec<ProjectedModule>,
    pub collisions: Vec<Vec<u8>>,
    pub identities: Vec<ProjectedIdentity>,
}

/// The contents of a `ProjectedOutputs`.
#[verifier::ext_equal]
pub struct Projection {
    pub modules: Seq<ProjectedModule<Seq<u8>, Seq<u8>>>,
    pub collisions: Seq<Seq<u8>>,
    pub identities: Seq<ProjectedIdentity<Seq<u8>>>,
}

impl View for ProjectedOutputs {
    type V = Projection;

    open spec fn view(&self) -> Projection {
        Projection {
            modules: self.modules@.map_values(|module: ProjectedModule| module@),
            collisions: bstr::views(self.collisions@),
            identities: self.identities@.map_values(|item: ProjectedIdentity| item@),
        }
    }
}

/// The place of the output at `at`.
pub open spec fn place_at(
    outputs: Seq<ExpectedArtifact<Seq<char>, Seq<u8>, Seq<u8>>>,
    facts: Seq<OutputFacts>,
    at: int,
) -> Seq<u8> {
    destination(outputs[at].path, bstr::opt_view(facts[at].parent))
}

/// The places of the first `count` outputs.
pub open spec fn places(
    outputs: Seq<ExpectedArtifact<Seq<char>, Seq<u8>, Seq<u8>>>,
    facts: Seq<OutputFacts>,
    count: int,
) -> Seq<Seq<u8>> {
    Seq::new(count as nat, |at: int| place_at(outputs, facts, at))
}

/// The canonical path of the output at `at`, where it is there.
pub open spec fn canonical_at(facts: Seq<OutputFacts>, at: int) -> Seq<u8> {
    match facts[at].canonical {
        Ok(path) => path@,
        Err(_) => Seq::empty(),
    }
}

/// What is there already of the first `count` outputs.
pub open spec fn projection_of(
    outputs: Seq<ExpectedArtifact<Seq<char>, Seq<u8>, Seq<u8>>>,
    facts: Seq<OutputFacts>,
    count: int,
) -> Projection
    decreases count,
{
    if count <= 0 {
        Projection {
            modules: Seq::empty(),
            collisions: Seq::empty(),
            identities: Seq::empty(),
        }
    } else {
        let earlier = projection_of(outputs, facts, count - 1);
        let output = outputs[count - 1];
        let path = canonical_at(facts, count - 1);
        match facts[count - 1].state {
            OutputState::Present { identity, .. } => Projection {
                modules: if observation::module_kind(output.kind) {
                    earlier.modules.push(
                        ProjectedModule {
                            path,
                            digest: output.probe_digest->0,
                            size: output.probe_size->0,
                        },
                    )
                } else {
                    earlier.modules
                },
                collisions: earlier.collisions.push(path),
                identities: match identity {
                    Some(found) => earlier.identities.push(
                        ProjectedIdentity { identity: found, path },
                    ),
                    None => earlier.identities,
                },
            },
            _ => earlier,
        }
    }
}

/// The path that has an identity, where one of a list has it.
pub open spec fn owner(
    list: Seq<ProjectedIdentity<Seq<u8>>>,
    identity: FileIdentity,
    index: int,
) -> Option<Seq<u8>>
    decreases list.len() - index,
{
    if index >= list.len() {
        None
    } else if list[index].identity == identity {
        Some(list[index].path)
    } else {
        owner(list, identity, index + 1)
    }
}

/// What is wrong with an output that is there, beside those of an earlier projection.
pub open spec fn presence_fault(
    earlier: Projection,
    output: ExpectedArtifact<Seq<char>, Seq<u8>, Seq<u8>>,
    identity: Option<FileIdentity>,
    path: Seq<u8>,
) -> Option<Fault> {
    if identity is Some && owner(earlier.identities, identity->0, 0) is Some {
        Some(
            ObservationError::SharedIdentity {
                previous: owner(earlier.identities, identity->0, 0)->0,
                path,
            },
        )
    } else if observation::module_kind(output.kind) && output.probe_digest is None {
        Some(ObservationError::MissingProbeDigest)
    } else if observation::module_kind(output.kind) && output.probe_size is None {
        Some(ObservationError::MissingProbeSize)
    } else {
        None
    }
}

/// What is wrong with the output at `at`, seen beside the outputs before it.
pub open spec fn output_fault(
    outputs: Seq<ExpectedArtifact<Seq<char>, Seq<u8>, Seq<u8>>>,
    facts: Seq<OutputFacts>,
    at: int,
) -> Option<Fault> {
    let output = outputs[at];
    let earlier = projection_of(outputs, facts, at);
    if at >= facts.len() {
        Some(ObservationError::MissingFact)
    } else if upath::lists(places(outputs, facts, at), place_at(outputs, facts, at)) {
        Some(ObservationError::SameDestination(place_at(outputs, facts, at)))
    } else {
        match facts[at].state {
            OutputState::Absent => None,
            OutputState::Failed(source) => Some(
                ObservationError::OutputUninspectable { path: output.path, source: source@ },
            ),
            OutputState::Present { regular, links, identity } => if !regular {
                Some(ObservationError::OutputNotRegular(output.path))
            } else if links > 1 {
                Some(ObservationError::OutputHardLinked(output.path))
            } else {
                match facts[at].canonical {
                    Err(source) => Some(
                        ObservationError::OutputUnresolvable {
                            path: output.path,
                            source: source@,
                        },
                    ),
                    Ok(path) => if upath::lists(earlier.collisions, path@) {
                        Some(ObservationError::SamePath(path@))
                    } else {
                        presence_fault(earlier, output, identity, path@)
                    },
                }
            },
        }
    }
}

/// The first thing that is wrong with the outputs from `at` on.
pub open spec fn first_output_fault(
    outputs: Seq<ExpectedArtifact<Seq<char>, Seq<u8>, Seq<u8>>>,
    facts: Seq<OutputFacts>,
    at: int,
) -> Option<Fault>
    decreases outputs.len() - at,
{
    if at >= outputs.len() {
        None
    } else if output_fault(outputs, facts, at) is Some {
        output_fault(outputs, facts, at)
    } else {
        first_output_fault(outputs, facts, at + 1)
    }
}

/// What is there already of the outputs, or the first thing that is wrong with them.
pub open spec fn projected(
    outputs: Seq<ExpectedArtifact<Seq<char>, Seq<u8>, Seq<u8>>>,
    facts: Seq<OutputFacts>,
) -> Result<Projection, Fault> {
    match first_output_fault(outputs, facts, 0) {
        Some(fault) => Err(fault),
        None => Ok(projection_of(outputs, facts, outputs.len() as int)),
    }
}

fn identity_owner<'a>(list: &'a Vec<ProjectedIdentity>, identity: FileIdentity) -> (path: Option<
    &'a Vec<u8>,
>)
    ensures
        match path {
            Some(found) => owner(
                list@.map_values(|item: ProjectedIdentity| item@),
                identity,
                0,
            ) == Some(found@),
            None => owner(
                list@.map_values(|item: ProjectedIdentity| item@),
                identity,
                0,
            ) is None,
        },
{
    let ghost all = list@.map_values(|item: ProjectedIdentity| item@);
    let mut index: usize = 0;
    while index < list.len()
        invariant
            index <= list.len(),
            all == list@.map_values(|item: ProjectedIdentity| item@),
            owner(all, identity, 0) == owner(all, identity, index as int),
        decreases list.len() - index,
    {
        assert(all[index as int] == list@[index as int]@);
        if list[index].identity == identity {
            return Some(&list[index].path);
        }
        index += 1;
    }
    None
}

impl ProjectedOutputs {
    fn empty() -> (projected: Self)
        ensures
            projected@ == (Projection {
                modules: Seq::empty(),
                collisions: Seq::empty(),
                identities: Seq::empty(),
            }),
    {
        let projected = ProjectedOutputs {
            modules: Vec::new(),
            collisions: Vec::new(),
            identities: Vec::new(),
        };
        assert(projected@.modules =~= Seq::empty());
        assert(projected@.collisions =~= Seq::empty());
        assert(projected@.identities =~= Seq::empty());
        projected
    }

    fn add_collision(&mut self, path: &[u8])
        ensures
            final(self)@ == (Projection {
                collisions: old(self)@.collisions.push(path@),
                ..old(self)@
            }),
    {
        self.collisions.push(bstr::copy(path));
    }

    fn add_identity(&mut self, identity: FileIdentity, path: &[u8])
        ensures
            final(self)@ == (Projection {
                identities: old(self)@.identities.push(ProjectedIdentity { identity, path: path@ }),
                ..old(self)@
            }),
    {
        let ghost before = self@.identities;
        let item = ProjectedIdentity { identity, path: bstr::copy(path) };
        self.identities.push(item);
        assert(self@.identities =~= before.push(item@));
    }

    fn add_module(&mut self, path: &[u8], digest: [u8; 32], size: u64)
        ensures
            final(self)@ == (Projection {
                modules: old(self)@.modules.push(
                    ProjectedModule { path: path@, digest: digest@, size },
                ),
                ..old(self)@
            }),
    {
        let ghost before = self@.modules;
        let item = ProjectedModule { path: bstr::copy(path), digest, size };
        self.modules.push(item);
        assert(self@.modules =~= before.push(item@));
    }

    fn add_present(
        &mut self,
        output: &ExpectedArtifact,
        identity: Option<FileIdentity>,
        canonical: &[u8],
    ) -> (outcome: Result<(), ObservationError>)
        requires
            !upath::lists(old(self)@.collisions, canonical@),
        ensures
            match outcome {
                Ok(_) => {
                    &&& presence_fault(old(self)@, output@, identity, canonical@) is None
                    &&& final(self)@ == (Projection {
                        modules: if observation::module_kind(output.kind) {
                            old(self)@.modules.push(
                                ProjectedModule {
                                    path: canonical@,
                                    digest: output@.probe_digest->0,
                                    size: output@.probe_size->0,
                                },
                            )
                        } else {
                            old(self)@.modules
                        },
                        collisions: old(self)@.collisions.push(canonical@),
                        identities: match identity {
                            Some(found) => old(self)@.identities.push(
                                ProjectedIdentity { identity: found, path: canonical@ },
                            ),
                            None => old(self)@.identities,
                        },
                    })
                },
                Err(error) => presence_fault(old(self)@, output@, identity, canonical@) == Some(
                    error@,
                ),
            },
    {
        self.add_collision(canonical);
        if let Some(found) = identity {
            if let Some(previous) = identity_owner(&self.identities, found) {
                return Err(
                    ObservationError::SharedIdentity {
                        previous: bstr::copy(previous.as_slice()),
                        path: bstr::copy(canonical),
                    },
                );
            }
            self.add_identity(found, canonical);
        }
        if observation::is_module_kind(output.kind) {
            let digest = match output.probe_digest {
                Some(digest) => digest,
                None => {
                    return Err(ObservationError::MissingProbeDigest);
                },
            };
            let size = match output.probe_size {
                Some(size) => size,
                None => {
                    return Err(ObservationError::MissingProbeSize);
                },
            };
            self.add_module(canonical, digest, size);
        }
        Ok(())
    }

    /// What is there already of the outputs, from what was found out about the place of each.
    pub fn resolve(outputs: &Vec<ExpectedArtifact>, facts: &Vec<OutputFacts>) -> (outcome: Result<
        Self,
        ObservationError,
    >)
        ensures
            match outcome {
                Ok(found) => projected(observation::output_views(outputs@), facts@) == Ok::<
                    Projection,
                    Fault,
                >(found@),
                Err(error) => projected(observation::output_views(outputs@), facts@) == Err::<
                    Projection,
                    Fault,
                >(error@),
            },
    {
        let ghost all = observation::output_views(outputs@);
        let mut found = ProjectedOutputs::empty();
        let mut destinations: Vec<Vec<u8>> = Vec::new();
        let mut index: usize = 0;
        assert(bstr::views(destinations@) =~= places(all, facts@, 0));
        while index < outputs.len()
            invariant
                index <= outputs.len(),
                all == observation::output_views(outputs@),
                found@ == projection_of(all, facts@, index as int),
                bstr::views(destinations@) == places(all, facts@, index as int),
                first_output_fault(all, facts@, 0) == first_output_fault(all, facts@, index as int),
            decreases outputs.len() - index,
        {
            let output = &outputs[index];
            assert(all[index as int] == output@);
            if index >= facts.len() {
                return Err(ObservationError::MissingFact);
            }
            let fact = &facts[index];
            let place = normalize_output_path(output.path.as_slice(), &fact.parent);
            assert(place@ == place_at(all, facts@, index as int));
            if upath::contains(&destinations, place.as_slice()) {
                return Err(ObservationError::SameDestination(place));
            }
            destinations.push(place);
            assert(bstr::views(destinations@) =~= places(all, facts@, index + 1));
            match &fact.state {
                OutputState::Absent => {},
                OutputState::Failed(source) => {
                    return Err(
                        ObservationError::OutputUninspectable {
                            path: bstr::copy(output.path.as_slice()),
                            source: source.clone(),
                        },
                    );
                },
                OutputState::Present { regular, links, identity } => {
                    if !*regular {
                        return Err(
                            ObservationError::OutputNotRegular(bstr::copy(output.path.as_slice())),
                        );
                    }
                    if *links > 1 {
                        return Err(
                            ObservationError::OutputHardLinked(bstr::copy(output.path.as_slice())),
                        );
                    }
                    let canonical = match &fact.canonical {
                        Ok(path) => path,
                        Err(source) => {
                            return Err(
                                ObservationError::OutputUnresolvable {
                                    path: bstr::copy(output.path.as_slice()),
                                    source: source.clone(),
                                },
                            );
                        },
                    };
                    if upath::contains(&found.collisions, canonical.as_slice()) {
                        return Err(ObservationError::SamePath(bstr::copy(canonical.as_slice())));
                    }
                    found.add_present(output, *identity, canonical.as_slice())?;
                },
            }
            assert(output_fault(all, facts@, index as int) is None);
            index += 1;
        }
        Ok(found)
    }
}

/// What is found out about a file that the compiler reads.
#[derive(Debug)]
pub struct PathFacts {
    pub canonical: Result<Vec<u8>, String>,
    pub identity: Result<Option<FileIdentity>, String>,
    pub reading: Reading,
}

/// The module of a projection that is at a path.
pub open spec fn module_at(
    modules: Seq<ProjectedModule<Seq<u8>, Seq<u8>>>,
    path: Seq<u8>,
    index: int,
) -> Option<ProjectedModule<Seq<u8>, Seq<u8>>>
    decreases modules.len() - index,
{
    if index >= modules.len() {
        None
    } else if upath::same_path(modules[index].path, path) {
        Some(modules[index])
    } else {
        module_at(modules, path, index + 1)
    }
}

/// The module of a projection that is at a path.
pub fn find_module<'a>(projected: &'a ProjectedOutputs, path: &[u8]) -> (module: Option<
    &'a ProjectedModule,
>)
    ensures
        match module {
            Some(found) => module_at(projected@.modules, path@, 0) == Some(found@),
            None => module_at(projected@.modules, path@, 0) is None,
        },
{
    let ghost all = projected@.modules;
    let mut index: usize = 0;
    while index < projected.modules.len()
        invariant
            index <= projected.modules.len(),
            all == projected@.modules,
            module_at(all, path@, 0) == module_at(all, path@, index as int),
        decreases projected.modules.len() - index,
    {
        assert(all[index as int] == projected.modules@[index as int]@);
        if upath::same(projected.modules[index].path.as_slice(), path) {
            return Some(&projected.modules[index]);
        }
        index += 1;
    }
    None
}

/// The canonical path of an input. A module that this compilation writes is no input: there is
/// none, provided that what is there is what the probe wrote.
pub open spec fn input_path(
    path: Seq<u8>,
    facts: PathFacts,
    generated: Seq<Seq<u8>>,
    projection: Projection,
) -> Result<Option<Seq<u8>>, Fault> {
    match facts.canonical {
        Err(source) => Err(ObservationError::Unresolvable { path, source: source@ }),
        Ok(canonical) => if upath::lists(generated, canonical@) {
            Ok(None)
        } else {
            match module_at(projection.modules, canonical@, 0) {
                Some(module) => match observation::read_of(canonical@, facts.reading) {
                    Err(error) => Err(ObservationError::Read(error)),
                    Ok(content) => if content == (Content {
                        digest: module.digest,
                        size: module.size,
                    }) {
                        Ok(None)
                    } else {
                        Err(ObservationError::ModuleCollision(path))
                    },
                },
                None => if upath::lists(projection.collisions, canonical@) {
                    Err(ObservationError::OutputCollision(path))
                } else {
                    match facts.identity {
                        Err(source) => Err(
                            ObservationError::Uninspectable { path, source: source@ },
                        ),
                        Ok(identity) => if identity is Some && owner(
                            projection.identities,
                            identity->0,
                            0,
                        ) is Some {
                            Err(ObservationError::AliasesOutput(path))
                        } else {
                            Ok(Some(canonical@))
                        },
                    }
                },
            }
        },
    }
}

/// The canonical path of an input, where it is one.
pub fn resolve_optional_input(
    path: &[u8],
    facts: &PathFacts,
    generated: &Vec<Vec<u8>>,
    projected: &ProjectedOutputs,
) -> (outcome: Result<Option<Vec<u8>>, ObservationError>)
    ensures
        match outcome {
            Ok(found) => input_path(path@, *facts, bstr::views(generated@), projected@) == Ok::<
                _,
                Fault,
            >(bstr::opt_view(found)),
            Err(error) => input_path(path@, *facts, bstr::views(generated@), projected@) == Err::<
                Option<Seq<u8>>,
                Fault,
            >(error@),
        },
{
    let canonical = match &facts.canonical {
        Ok(canonical) => canonical,
        Err(source) => {
            return Err(
                ObservationError::Unresolvable { path: bstr::copy(path), source: source.clone() },
            );
        },
    };
    if upath::contains(generated, canonical.as_slice()) {
        return Ok(None);
    }
    if let Some(module) = find_module(projected, canonical.as_slice()) {
        return match observation::read_stable(canonical.as_slice(), &facts.reading) {
            Err(error) => Err(ObservationError::Read(error)),
            Ok(current) => {
                if digest::same(&current.digest, &module.digest) && current.size == module.size {
                    Ok(None)
                } else {
                    Err(ObservationError::ModuleCollision(bstr::copy(path)))
                }
            },
        };
    }
    if upath::contains(&projected.collisions, canonical.as_slice()) {
        return Err(ObservationError::OutputCollision(bstr::copy(path)));
    }
    match &facts.identity {
        Err(source) => Err(
            ObservationError::Uninspectable { path: bstr::copy(path), source: source.clone() },
        ),
        Ok(identity) => {
            if let Some(found) = identity {
                if identity_owner(&projected.identities, *found).is_some() {
                    return Err(ObservationError::AliasesOutput(bstr::copy(path)));
                }
            }
            Ok(Some(bstr::copy(canonical.as_slice())))
        },
    }
}

/// An input that is resolved is none of the outputs that are there: neither by its path nor by its
/// identity.
pub proof fn law_inputs_are_no_outputs(
    path: Seq<u8>,
    facts: PathFacts,
    generated: Seq<Seq<u8>>,
    projection: Projection,
)
    requires
        input_path(path, facts, generated, projection) is Ok,
        input_path(path, facts, generated, projection)->Ok_0 is Some,
    ensures
        !upath::lists(
            projection.collisions,
            input_path(path, facts, generated, projection)->Ok_0->0,
        ),
        forall|at: int|
            0 <= at < projection.identities.len() ==> facts.identity->Ok_0 != Some(
                (#[trigger] projection.identities[at]).identity,
            ),
{
    if facts.identity->Ok_0 is Some {
        lemma_owner(projection.identities, facts.identity->Ok_0->0, 0);
    }
}

proof fn lemma_owner(
    list: Seq<ProjectedIdentity<Seq<u8>>>,
    identity: FileIdentity,
    index: int,
)
    requires
        0 <= index <= list.len(),
        owner(list, identity, index) is None,
    ensures
        forall|at: int|
            index <= at < list.len() ==> (#[trigger] list[at]).identity != identity,
    decreases list.len() - index,
{
    if index < list.len() {
        lemma_owner(list, identity, index + 1);
    }
}

} // verus!
