//! Observations of a compilation: from a probe before it, and from the compiler itself after it.
use vstd::prelude::*;

use crate::bstr;
use crate::compiler::depfile;
use crate::compiler::depfile::{Depfile, DepfileError, Rule};
use crate::compiler::gfortran::{DependencyMode, GfortranInvocation, Invocation};
use crate::compiler::resolution;
use crate::compiler::resolution::ObservedSearchFeatures;
use crate::launcher::inputs;
use crate::launcher::observation;
use crate::launcher::observation::{
    DepfileShape, DepfileTarget, ExpectedArtifact, Observation, Observed, ObservedDepfileRule,
    ObservedRule, PreprocessorObservation, Shape,
};
use crate::launcher::probe;
use crate::launcher::probe::{NamedPath, ProbeEntry};
use crate::launcher::projection;
use crate::launcher::projection::{
    Fault, ObservationError, OutputFacts, PathFacts, ProjectedOutputs, Projection,
};
use crate::upath;

verus! {

/// All that is found out about a probe from outside.
#[derive(Debug)]
pub struct ProbeFacts {
    /// The entries of the directory in which the probe leaves modules.
    pub entries: Vec<ProbeEntry>,
    /// The canonical path of each target of each rule.
    pub targets: Vec<Vec<Option<Vec<u8>>>>,
    /// What is where each output goes.
    pub outputs: Vec<OutputFacts>,
    pub source: PathFacts,
    /// What each prerequisite of each rule is.
    pub prerequisites: Vec<Vec<PathFacts>>,
}

/// Dependency files can name every file that the inputs and the arguments ask for.
pub open spec fn nameable(contents: Seq<Seq<u8>>, args: Seq<Seq<u8>>) -> bool {
    &&& !resolution::inputs_mention(contents, bstr::utf8("__has_include"@))
    &&& !resolution::inputs_mention(contents, bstr::utf8("##"@))
    &&& !resolution::arguments_mention(args, bstr::utf8("__has_include"@))
    &&& !resolution::arguments_mention(args, bstr::utf8("##"@))
}

/// What is observed of a compilation by a probe.
pub open spec fn observed_by_probe(
    invocation: Invocation,
    cwd: Seq<u8>,
    rules: Seq<Rule>,
    facts: ProbeFacts,
    preprocessor: Option<PreprocessorObservation<Seq<u8>>>,
) -> Result<Observed, Fault> {
    match probe::discovered(facts.entries@, rules, facts.targets@) {
        Err(fault) => Err(fault),
        Ok(found) => match observation::outputs_of(invocation, found.modules, cwd) {
            None => Err(ObservationError::MissingObject),
            Some(outputs) => match projection::projected(outputs, facts.outputs@) {
                Err(fault) => Err(fault),
                Ok(projection) => match inputs::inputs_of(
                    rules,
                    invocation.source,
                    cwd,
                    found.canonical_paths,
                    projection,
                    facts.source,
                    facts.prerequisites@,
                ) {
                    Err(fault) => Err(fault),
                    Ok(read) => if !nameable(read.contents, invocation.original_args) {
                        Err(ObservationError::IncompleteDepfile)
                    } else {
                        match probe::shape_of(
                            rules,
                            found.generated_targets,
                            facts.prerequisites@,
                            found.canonical_paths,
                            projection,
                            rules.len() as int,
                        ) {
                            Err(fault) => Err(fault),
                            Ok(depfile_shape) => Ok(
                                Observed {
                                    inputs: read.inputs,
                                    dependencies: read.dependencies,
                                    outputs,
                                    depfile_shape,
                                    preprocessor,
                                },
                            ),
                        }
                    },
                },
            },
        },
    }
}

/// What is observed of a compilation by a probe, from its dependency file and all that is found out
/// about the files that it names.
pub fn observe(
    invocation: &GfortranInvocation,
    cwd: &[u8],
    depfile: &Depfile,
    facts: &ProbeFacts,
    preprocessor: Option<PreprocessorObservation>,
) -> (outcome: Result<Observation, ObservationError>)
    ensures
        match outcome {
            Ok(found) => observed_by_probe(
                invocation@,
                cwd@,
                depfile@,
                *facts,
                observation::preprocessor_view(preprocessor),
            ) == Ok::<Observed, Fault>(found@),
            Err(error) => observed_by_probe(
                invocation@,
                cwd@,
                depfile@,
                *facts,
                observation::preprocessor_view(preprocessor),
            ) == Err::<Observed, Fault>(error@),
        },
{
    let found = probe::discover_probe_modules(depfile, &facts.entries, &facts.targets)?;
    let outputs = match observation::expected_outputs(invocation, &found.modules, cwd) {
        Some(outputs) => outputs,
        None => {
            return Err(ObservationError::MissingObject);
        },
    };
    let projected = ProjectedOutputs::resolve(&outputs, &facts.outputs)?;
    let read = inputs::read_inputs(
        depfile,
        invocation,
        cwd,
        &found.canonical_paths,
        &projected,
        &facts.source,
        &facts.prerequisites,
    )?;
    let features = ObservedSearchFeatures::scan(&read.contents);
    if !invocation.permits_complete_depfile_observation(&features) {
        return Err(ObservationError::IncompleteDepfile);
    }
    let depfile_shape = probe::depfile_shape(
        depfile,
        &found.generated_targets,
        &found.canonical_paths,
        &projected,
        &facts.prerequisites,
    )?;
    Ok(
        Observation {
            inputs: read.inputs,
            dependencies: read.dependencies,
            outputs,
            depfile_shape,
            preprocessor,
        },
    )
}

/// All that is found out about the dependency file that the compiler itself wrote.
#[derive(Debug)]
pub struct RealFacts {
    /// The bytes of the file.
    pub depfile: Result<Vec<u8>, String>,
    pub targets: Vec<Vec<Option<Vec<u8>>>>,
    pub outputs: Vec<OutputFacts>,
    pub prerequisites: Vec<Vec<PathFacts>>,
    /// The canonical path of the source.
    pub source: Result<Vec<u8>, String>,
}

/// Why the dependency file that the compiler wrote does not agree with the probe.
#[derive(Clone, Debug, PartialEq, Eq)]
pub enum RealDepfileError<B = Vec<u8>, S = String> {
    NoPath,
    Unreadable(S),
    Undecodable(DepfileError),
    Observation(ObservationError<B, S>),
    TargetsDiffer,
    ShapeDiffers,
    PrerequisitesDiffer,
    UnknownTargets,
    UnknownPrerequisites,
    MissingSource,
    UnresolvableSource(S),
    OmitsSource,
}

/// The contents of a `RealDepfileError`.
pub type RealFault = RealDepfileError<Seq<u8>, Seq<char>>;

impl View for RealDepfileError {
    type V = RealDepfileError<Seq<u8>, Seq<char>>;

    open spec fn view(&self) -> RealDepfileError<Seq<u8>, Seq<char>> {
        match *self {
            RealDepfileError::NoPath => RealDepfileError::NoPath,
            RealDepfileError::Unreadable(source) => RealDepfileError::Unreadable(source@),
            RealDepfileError::Undecodable(error) => RealDepfileError::Undecodable(error),
            RealDepfileError::Observation(error) => RealDepfileError::Observation(error@),
            RealDepfileError::TargetsDiffer => RealDepfileError::TargetsDiffer,
            RealDepfileError::ShapeDiffers => RealDepfileError::ShapeDiffers,
            RealDepfileError::PrerequisitesDiffer => RealDepfileError::PrerequisitesDiffer,
            RealDepfileError::UnknownTargets => RealDepfileError::UnknownTargets,
            RealDepfileError::UnknownPrerequisites => RealDepfileError::UnknownPrerequisites,
            RealDepfileError::MissingSource => RealDepfileError::MissingSource,
            RealDepfileError::UnresolvableSource(source) => RealDepfileError::UnresolvableSource(
                source@,
            ),
            RealDepfileError::OmitsSource => RealDepfileError::OmitsSource,
        }
    }
}

/// Where the modules among the first `count` outputs are.
pub open spec fn real_places(
    outputs: Seq<ExpectedArtifact<Seq<char>, Seq<u8>, Seq<u8>>>,
    facts: Seq<OutputFacts>,
    count: int,
) -> Result<Seq<NamedPath<Seq<u8>>>, Fault>
    decreases count,
{
    if count <= 0 {
        Ok(Seq::empty())
    } else {
        let output = outputs[count - 1];
        match real_places(outputs, facts, count - 1) {
            Err(fault) => Err(fault),
            Ok(earlier) => if !observation::module_kind(output.kind) {
                Ok(earlier)
            } else if count > facts.len() {
                Err(ObservationError::MissingFact)
            } else {
                match facts[count - 1].canonical {
                    Err(source) => Err(
                        ObservationError::OutputUnresolvable {
                            path: output.path,
                            source: source@,
                        },
                    ),
                    Ok(path) => match upath::file_name_of(output.path) {
                        None => Err(ObservationError::NamelessModule),
                        Some(name) => Ok(earlier.push(NamedPath { path: path@, name })),
                    },
                }
            },
        }
    }
}

proof fn lemma_places_fail(
    outputs: Seq<ExpectedArtifact<Seq<char>, Seq<u8>, Seq<u8>>>,
    facts: Seq<OutputFacts>,
    count: int,
    total: int,
)
    requires
        0 <= count <= total,
        real_places(outputs, facts, count) is Err,
    ensures
        real_places(outputs, facts, total) == real_places(outputs, facts, count),
    decreases total - count,
{
    if count < total {
        lemma_places_fail(outputs, facts, count, total - 1);
    }
}

fn find_real_places(outputs: &Vec<ExpectedArtifact>, facts: &Vec<OutputFacts>) -> (outcome: Result<
    Vec<NamedPath>,
    ObservationError,
>)
    ensures
        match outcome {
            Ok(places) => real_places(
                observation::output_views(outputs@),
                facts@,
                outputs@.len() as int,
            ) == Ok::<_, Fault>(probe::place_views(places@)),
            Err(error) => real_places(
                observation::output_views(outputs@),
                facts@,
                outputs@.len() as int,
            ) == Err::<Seq<NamedPath<Seq<u8>>>, Fault>(error@),
        },
{
    let ghost all = observation::output_views(outputs@);
    let mut places: Vec<NamedPath> = Vec::new();
    let mut index: usize = 0;
    assert(probe::place_views(places@) =~= Seq::empty());
    while index < outputs.len()
        invariant
            index <= outputs.len(),
            all == observation::output_views(outputs@),
            real_places(all, facts@, index as int) == Ok::<_, Fault>(probe::place_views(places@)),
        decreases outputs.len() - index,
    {
        let output = &outputs[index];
        assert(all[index as int] == output@);
        if observation::is_module_kind(output.kind) {
            match find_real_place(output, facts, index) {
                Ok(place) => {
                    let ghost before = probe::place_views(places@);
                    places.push(place);
                    assert(probe::place_views(places@) =~= before.push(place@));
                },
                Err(error) => {
                    proof {
                        lemma_places_fail(all, facts@, index + 1, all.len() as int);
                    }
                    return Err(error);
                },
            }
        }
        index += 1;
    }
    Ok(places)
}

/// Where a module that is the output at `index` is.
pub open spec fn real_place(
    output: ExpectedArtifact<Seq<char>, Seq<u8>, Seq<u8>>,
    facts: Seq<OutputFacts>,
    index: int,
) -> Result<NamedPath<Seq<u8>>, Fault> {
    if index >= facts.len() {
        Err(ObservationError::MissingFact)
    } else {
        match facts[index].canonical {
            Err(source) => Err(
                ObservationError::OutputUnresolvable { path: output.path, source: source@ },
            ),
            Ok(path) => match upath::file_name_of(output.path) {
                None => Err(ObservationError::NamelessModule),
                Some(name) => Ok(NamedPath { path: path@, name }),
            },
        }
    }
}

fn find_real_place(output: &ExpectedArtifact, facts: &Vec<OutputFacts>, index: usize) -> (outcome:
    Result<NamedPath, ObservationError>)
    ensures
        match outcome {
            Ok(place) => real_place(output@, facts@, index as int) == Ok::<_, Fault>(place@),
            Err(error) => real_place(output@, facts@, index as int) == Err::<
                NamedPath<Seq<u8>>,
                Fault,
            >(error@),
        },
{
    if index >= facts.len() {
        return Err(ObservationError::MissingFact);
    }
    match &facts[index].canonical {
        Err(source) => Err(
            ObservationError::OutputUnresolvable {
                path: bstr::copy(output.path.as_slice()),
                source: source.clone(),
            },
        ),
        Ok(path) => match upath::file_name(output.path.as_slice()) {
            Some(name) => Ok(NamedPath { path: bstr::copy(path.as_slice()), name }),
            None => Err(ObservationError::NamelessModule),
        },
    }
}

/// The rules of the dependency file of the compiler itself.
pub open spec fn real_shape(
    rules: Seq<Rule>,
    outputs: Seq<ExpectedArtifact<Seq<char>, Seq<u8>, Seq<u8>>>,
    facts: RealFacts,
) -> Result<Shape, Fault> {
    match real_places(outputs, facts.outputs@, outputs.len() as int) {
        Err(fault) => Err(fault),
        Ok(places) => {
            let generated = probe::generated_in(
                places,
                facts.targets@,
                rules,
                rules.len() as int,
            );
            match probe::miscounted(places, generated, 0) {
                Some(fault) => Err(fault),
                None => match projection::projected(outputs, facts.outputs@) {
                    Err(fault) => Err(fault),
                    Ok(projection) => probe::shape_of(
                        rules,
                        generated,
                        facts.prerequisites@,
                        probe::place_paths(places),
                        projection,
                        rules.len() as int,
                    ),
                },
            }
        },
    }
}

fn observe_real_shape(
    depfile: &Depfile,
    outputs: &Vec<ExpectedArtifact>,
    facts: &RealFacts,
) -> (outcome: Result<(DepfileShape, ProjectedOutputs), ObservationError>)
    ensures
        match outcome {
            Ok(found) => real_shape(depfile@, observation::output_views(outputs@), *facts) == Ok::<
                Shape,
                Fault,
            >(found.0@) && projection::projected(
                observation::output_views(outputs@),
                facts.outputs@,
            ) == Ok::<Projection, Fault>(found.1@),
            Err(error) => real_shape(
                depfile@,
                observation::output_views(outputs@),
                *facts,
            ) == Err::<Shape, Fault>(error@),
        },
{
    let places = find_real_places(outputs, &facts.outputs)?;
    let generated = probe::match_targets(&places, &facts.targets, depfile);
    probe::check_counts(&places, &generated)?;
    let projected = ProjectedOutputs::resolve(outputs, &facts.outputs)?;
    let paths = probe::paths_of(&places);
    let shape = probe::depfile_shape(
        depfile,
        &generated,
        &paths,
        &projected,
        &facts.prerequisites,
    )?;
    Ok((shape, projected))
}

/// The rules have the same targets.
pub open spec fn same_rule_targets(left: Seq<ObservedRule>, right: Seq<ObservedRule>) -> bool {
    left.len() == right.len() && forall|at: int|
        0 <= at < left.len() ==> (#[trigger] left[at]).targets == right[at].targets
}

fn rule_targets_agree(left: &Vec<ObservedDepfileRule>, right: &Vec<ObservedDepfileRule>) -> (yes:
    bool)
    ensures
        yes == same_rule_targets(
            observation::rule_views(left@),
            observation::rule_views(right@),
        ),
{
    let ghost first = observation::rule_views(left@);
    let ghost second = observation::rule_views(right@);
    if left.len() != right.len() {
        return false;
    }
    let mut index: usize = 0;
    while index < left.len()
        invariant
            index <= left.len(),
            left.len() == right.len(),
            first == observation::rule_views(left@),
            second == observation::rule_views(right@),
            forall|at: int| 0 <= at < index ==> (#[trigger] first[at]).targets == second[at].targets,
        decreases left.len() - index,
    {
        assert(first[index as int] == left@[index as int]@);
        assert(second[index as int] == right@[index as int]@);
        if !observation::same_targets(&left[index].targets, &right[index].targets) {
            return false;
        }
        index += 1;
    }
    true
}

/// Every path of a list is in another.
pub open spec fn within(list: Seq<Seq<u8>>, other: Seq<Seq<u8>>) -> bool {
    forall|at: int| 0 <= at < list.len() ==> upath::lists(other, #[trigger] list[at])
}

fn is_within(list: &Vec<Vec<u8>>, other: &Vec<Vec<u8>>) -> (yes: bool)
    ensures
        yes == within(bstr::views(list@), bstr::views(other@)),
{
    let ghost all = bstr::views(list@);
    let mut index: usize = 0;
    while index < list.len()
        invariant
            index <= list.len(),
            all == bstr::views(list@),
            forall|at: int|
                0 <= at < index ==> upath::lists(bstr::views(other@), #[trigger] all[at]),
        decreases list.len() - index,
    {
        assert(all[index as int] == list@[index as int]@);
        if !upath::contains(other, list[index].as_slice()) {
            return false;
        }
        index += 1;
    }
    true
}

/// Every target of a list is in another.
pub open spec fn targets_within(
    list: Seq<DepfileTarget<Seq<u8>>>,
    other: Seq<DepfileTarget<Seq<u8>>>,
) -> bool {
    forall|at: int| 0 <= at < list.len() ==> other.contains(#[trigger] list[at])
}

fn are_targets_within(list: &Vec<DepfileTarget>, other: &Vec<DepfileTarget>) -> (yes: bool)
    ensures
        yes == targets_within(
            observation::target_views(list@),
            observation::target_views(other@),
        ),
{
    let ghost all = observation::target_views(list@);
    let mut index: usize = 0;
    while index < list.len()
        invariant
            index <= list.len(),
            all == observation::target_views(list@),
            forall|at: int|
                0 <= at < index ==> observation::target_views(other@).contains(#[trigger] all[at]),
        decreases list.len() - index,
    {
        assert(all[index as int] == list@[index as int]@);
        if !observation::contains_target(other, &list[index]) {
            return false;
        }
        index += 1;
    }
    true
}

/// The paths of the inputs.
pub open spec fn observed_paths(observed: Observed) -> Seq<Seq<u8>> {
    observed.inputs.map_values(
        |input: crate::launcher::observation::InputFile<Seq<u8>, Seq<u8>>| input.path,
    )
}

fn input_paths(observation: &Observation) -> (paths: Vec<Vec<u8>>)
    ensures
        bstr::views(paths@) == observed_paths(observation@),
{
    let ghost all = observed_paths(observation@);
    let mut paths: Vec<Vec<u8>> = Vec::new();
    let mut index: usize = 0;
    assert(bstr::views(paths@) =~= all.take(0));
    while index < observation.inputs.len()
        invariant
            index <= observation.inputs.len(),
            all == observed_paths(observation@),
            bstr::views(paths@) == all.take(index as int),
        decreases observation.inputs.len() - index,
    {
        assert(observation@.inputs[index as int] == observation.inputs@[index as int]@);
        let path = bstr::copy(observation.inputs[index].path.as_slice());
        proof {
            bstr::lemma_views_push(paths@, path);
        }
        paths.push(path);
        assert(bstr::views(paths@) =~= all.take(index + 1));
        index += 1;
    }
    assert(all.take(index as int) =~= all);
    paths
}

/// How the rules and prerequisites of the compiler itself disagree with a probe. With `-MMD` it may
/// leave some out, but not the source.
pub open spec fn disagreement(
    mode: DependencyMode,
    source: Option<Seq<u8>>,
    observed: Observed,
    shape: Shape,
    prerequisites: Seq<Seq<u8>>,
    canonical_source: Result<Vec<u8>, String>,
) -> Option<RealFault> {
    let expected = observed_paths(observed);
    match mode {
        DependencyMode::Md => if shape != observed.depfile_shape {
            Some(RealDepfileError::ShapeDiffers)
        } else if !within(prerequisites, expected) || !within(expected, prerequisites) {
            Some(RealDepfileError::PrerequisitesDiffer)
        } else {
            None
        },
        DependencyMode::Mmd => if !targets_within(
            shape.dummy_targets,
            observed.depfile_shape.dummy_targets,
        ) {
            Some(RealDepfileError::UnknownTargets)
        } else if !within(prerequisites, expected) {
            Some(RealDepfileError::UnknownPrerequisites)
        } else if source is None {
            Some(RealDepfileError::MissingSource)
        } else {
            match canonical_source {
                Err(message) => Some(RealDepfileError::UnresolvableSource(message@)),
                Ok(path) => if !upath::lists(prerequisites, path@) {
                    Some(RealDepfileError::OmitsSource)
                } else {
                    None
                },
            }
        },
    }
}

fn compare_modes(
    mode: DependencyMode,
    invocation: &GfortranInvocation,
    observation: &Observation,
    shape: &DepfileShape,
    prerequisites: &Vec<Vec<u8>>,
    canonical_source: &Result<Vec<u8>, String>,
) -> (outcome: Result<(), RealDepfileError>)
    ensures
        match outcome {
            Ok(_) => disagreement(
                mode,
                invocation@.source,
                observation@,
                shape@,
                bstr::views(prerequisites@),
                *canonical_source,
            ) is None,
            Err(error) => disagreement(
                mode,
                invocation@.source,
                observation@,
                shape@,
                bstr::views(prerequisites@),
                *canonical_source,
            ) == Some(error@),
        },
{
    let expected = input_paths(observation);
    match mode {
        DependencyMode::Md => {
            if !observation::same_shape(shape, &observation.depfile_shape) {
                return Err(RealDepfileError::ShapeDiffers);
            }
            if !is_within(prerequisites, &expected) || !is_within(&expected, prerequisites) {
                return Err(RealDepfileError::PrerequisitesDiffer);
            }
            Ok(())
        },
        DependencyMode::Mmd => {
            if !are_targets_within(
                &shape.dummy_targets,
                &observation.depfile_shape.dummy_targets,
            ) {
                return Err(RealDepfileError::UnknownTargets);
            }
            if !is_within(prerequisites, &expected) {
                return Err(RealDepfileError::UnknownPrerequisites);
            }
            if invocation.source.is_none() {
                return Err(RealDepfileError::MissingSource);
            }
            match canonical_source {
                Err(message) => Err(RealDepfileError::UnresolvableSource(message.clone())),
                Ok(path) => {
                    if !upath::contains(prerequisites, path.as_slice()) {
                        return Err(RealDepfileError::OmitsSource);
                    }
                    Ok(())
                },
            }
        },
    }
}

/// Why the dependency file that the compiler wrote does not agree with the probe. There is nothing
/// to agree on where none was asked for.
pub open spec fn real_fault(
    invocation: Invocation,
    observed: Observed,
    cwd: Seq<u8>,
    facts: RealFacts,
) -> Option<RealFault> {
    match invocation.dependency_mode {
        None => None,
        Some(mode) => if invocation.user_depfile is None {
            Some(RealDepfileError::NoPath)
        } else {
            match facts.depfile {
                Err(message) => Some(RealDepfileError::Unreadable(message@)),
                Ok(bytes) => match depfile::decoded(bytes@) {
                    Err(error) => Some(RealDepfileError::Undecodable(error)),
                    Ok(rules) => match real_shape(rules, observed.outputs, facts) {
                        Err(fault) => Some(RealDepfileError::Observation(fault)),
                        Ok(shape) => if !same_rule_targets(
                            shape.primary_rules,
                            observed.depfile_shape.primary_rules,
                        ) {
                            Some(RealDepfileError::TargetsDiffer)
                        } else {
                            match inputs::prerequisite_paths(
                                rules,
                                cwd,
                                Seq::empty(),
                                projection::projected(observed.outputs, facts.outputs@)->Ok_0,
                                facts.prerequisites@,
                            ) {
                                Err(fault) => Some(RealDepfileError::Observation(fault)),
                                Ok(prerequisites) => disagreement(
                                    mode,
                                    invocation.source,
                                    observed,
                                    shape,
                                    prerequisites,
                                    facts.source,
                                ),
                            }
                        },
                    },
                },
            }
        },
    }
}

/// Checks that the dependency file that the compiler wrote agrees with the probe: in its targets
/// always, and with `-MD` in everything.
pub fn validate_real_depfile_targets(
    invocation: &GfortranInvocation,
    observation: &Observation,
    cwd: &[u8],
    facts: &RealFacts,
) -> (outcome: Result<(), RealDepfileError>)
    ensures
        match outcome {
            Ok(_) => real_fault(invocation@, observation@, cwd@, *facts) is None,
            Err(error) => real_fault(invocation@, observation@, cwd@, *facts) == Some(error@),
        },
{
    let mode = match invocation.dependency_mode {
        Some(mode) => mode,
        None => {
            return Ok(());
        },
    };
    if invocation.user_depfile.is_none() {
        return Err(RealDepfileError::NoPath);
    }
    let bytes = match &facts.depfile {
        Ok(bytes) => bytes,
        Err(message) => {
            return Err(RealDepfileError::Unreadable(message.clone()));
        },
    };
    let parsed = match depfile::parse_depfile(bytes.as_slice()) {
        Ok(parsed) => parsed,
        Err(error) => {
            return Err(RealDepfileError::Undecodable(error));
        },
    };
    let (shape, projected) = match observe_real_shape(&parsed, &observation.outputs, facts) {
        Ok(found) => found,
        Err(error) => {
            return Err(RealDepfileError::Observation(error));
        },
    };
    if !rule_targets_agree(&shape.primary_rules, &observation.depfile_shape.primary_rules) {
        return Err(RealDepfileError::TargetsDiffer);
    }
    let none: Vec<Vec<u8>> = Vec::new();
    assert(bstr::views(none@) =~= Seq::empty());
    let prerequisites = match inputs::resolved_depfile_prerequisites(
        &parsed,
        cwd,
        &none,
        &projected,
        &facts.prerequisites,
    ) {
        Ok(prerequisites) => prerequisites,
        Err(error) => {
            return Err(RealDepfileError::Observation(error));
        },
    };
    compare_modes(mode, invocation, observation, &shape, &prerequisites, &facts.source)
}

} // verus!
