//! Records of observations: what is kept of a compilation so that the next one like it needs no
//! probe.
use vstd::prelude::*;

use crate::bstr;
use crate::cache::direct;
use crate::cache::direct::{
    DepfilePrerequisiteKind, DepfilePrerequisiteShape, DepfileRuleShape, DepfileTargetKind,
    DepfileTargetShape, DirectInput, DirectRecord, EncodedOsString, PositiveResolutionWitness,
    PreprocessorShape,
};
use crate::cache::manifest::{ArtifactKind, DestinationRole};
use crate::compiler::resolution;
use crate::launcher::observation;
use crate::launcher::observation::{
    DepfilePrerequisite, DepfileShape, DepfileTarget, ExpectedArtifact, InputFile, Observation,
    Observed, ObservedDepfileRule, ObservedDependency, ObservedRule, PreprocessorObservation,
    Shape,
};

verus! {

broadcast use bstr::lemma_views_push;

/// The target that a recorded target is.
pub open spec fn target_of(shape: DepfileTargetShape) -> DepfileTarget<Seq<u8>> {
    match shape.kind {
        DepfileTargetKind::Ordinary => DepfileTarget::Ordinary(shape.bytes@),
        DepfileTargetKind::GeneratedModule => DepfileTarget::GeneratedModule(shape.bytes@),
    }
}

/// The prerequisite that a recorded prerequisite is.
pub open spec fn prerequisite_of(shape: DepfilePrerequisiteShape) -> DepfilePrerequisite<Seq<u8>> {
    match shape.kind {
        DepfilePrerequisiteKind::Ordinary => DepfilePrerequisite::Ordinary(shape.bytes@),
        DepfilePrerequisiteKind::GeneratedModule => DepfilePrerequisite::GeneratedModule(
            shape.bytes@,
        ),
    }
}

/// The rule that a recorded rule is.
pub open spec fn rule_of(shape: DepfileRuleShape) -> ObservedRule {
    ObservedRule {
        targets: shape.targets@.map_values(|target: DepfileTargetShape| target_of(target)),
        prerequisites: shape.prerequisites@.map_values(
            |prerequisite: DepfilePrerequisiteShape| prerequisite_of(prerequisite),
        ),
    }
}

/// The rules that recorded rules are.
pub open spec fn rules_of(list: Seq<DepfileRuleShape>) -> Seq<ObservedRule> {
    list.map_values(|rule: DepfileRuleShape| rule_of(rule))
}

/// The shape that the first `count` rules make up.
pub open spec fn shape_from(rules: Seq<ObservedRule>, count: int) -> Shape
    decreases count,
{
    if count <= 0 {
        Shape { primary_rules: Seq::empty(), dummy_targets: Seq::empty() }
    } else {
        let earlier = shape_from(rules, count - 1);
        let rule = rules[count - 1];
        if rule.prerequisites.len() == 0 {
            Shape { dummy_targets: earlier.dummy_targets + rule.targets, ..earlier }
        } else {
            Shape { primary_rules: earlier.primary_rules.push(rule), ..earlier }
        }
    }
}

/// The preprocessor observation that a recorded one is.
pub open spec fn preprocessor_of(shape: PreprocessorShape) -> Option<
    PreprocessorObservation<Seq<u8>>,
> {
    match shape {
        PreprocessorShape::Inactive => None,
        PreprocessorShape::CompilerObserved {
            stdout_digest,
            stdout_size,
            stderr_digest,
            stderr_size,
            automatic_lowercase_source,
        } => Some(
            PreprocessorObservation {
                stdout_digest: stdout_digest@,
                stdout_size,
                stderr_digest: stderr_digest@,
                stderr_size,
                automatic_lowercase_source,
            },
        ),
    }
}

/// Where an output of a kind goes.
pub open spec fn role_of(kind: ArtifactKind) -> DestinationRole {
    match kind {
        ArtifactKind::Object => DestinationRole::Object,
        ArtifactKind::Module => DestinationRole::Module,
        ArtifactKind::Submodule => DestinationRole::Submodule,
        ArtifactKind::Dependency => DestinationRole::Dependency,
    }
}

/// The input that a recorded input is.
pub open spec fn input_of(input: DirectInput) -> InputFile<Seq<u8>, Seq<u8>> {
    InputFile {
        raw_path: input.raw_path@,
        observed_path: input.path.resolved_path@,
        path: input.path.canonical_path@,
        digest: input.digest@,
        size: input.size,
    }
}

/// The output that a recorded output is. Only of modules does a probe know the contents.
pub open spec fn output_of(artifact: direct::ExpectedArtifact) -> ExpectedArtifact<
    Seq<char>,
    Seq<u8>,
    Seq<u8>,
> {
    let module = observation::module_kind(artifact.kind);
    ExpectedArtifact {
        logical_name: artifact.logical_name@,
        kind: artifact.kind,
        role: role_of(artifact.kind),
        path: artifact.destination@,
        probe_digest: if module {
            Some(artifact.digest@)
        } else {
            None
        },
        probe_size: if module {
            Some(artifact.size)
        } else {
            None
        },
    }
}

/// The dependency that a recorded selection is.
pub open spec fn dependency_of(
    witness: PositiveResolutionWitness,
    inputs: Seq<DirectInput>,
) -> ObservedDependency<Seq<u8>> {
    ObservedDependency {
        raw_path: witness.requested_name@,
        observed_path: witness.selected_path.resolved_path@,
        path: inputs[witness.selected_input as int].path.canonical_path@,
    }
}

/// Every selection names an input of the record.
pub open spec fn selections_known(record: DirectRecord) -> bool {
    forall|at: int|
        0 <= at < record.resolution.positive@.len() ==> (
        #[trigger] record.resolution.positive@[at]).selected_input < record.inputs@.len()
}

/// The observation that a record was made from.
pub open spec fn observed_of(record: DirectRecord) -> Observed {
    Observed {
        inputs: record.inputs@.map_values(|input: DirectInput| input_of(input)),
        dependencies: record.resolution.positive@.map_values(
            |witness: PositiveResolutionWitness| dependency_of(witness, record.inputs@),
        ),
        outputs: record.expected_artifacts@.map_values(
            |artifact: direct::ExpectedArtifact| output_of(artifact),
        ),
        depfile_shape: shape_from(
            rules_of(record.probe_rules@),
            record.probe_rules@.len() as int,
        ),
        preprocessor: preprocessor_of(record.preprocessor),
    }
}

fn role_for(kind: ArtifactKind) -> (role: DestinationRole)
    ensures
        role == role_of(kind),
{
    match kind {
        ArtifactKind::Object => DestinationRole::Object,
        ArtifactKind::Module => DestinationRole::Module,
        ArtifactKind::Submodule => DestinationRole::Submodule,
        ArtifactKind::Dependency => DestinationRole::Dependency,
    }
}

fn restore_inputs(record: &DirectRecord) -> (inputs: Vec<InputFile>)
    ensures
        observation::input_views(inputs@) == observed_of(*record).inputs,
{
    let ghost all = observed_of(*record).inputs;
    let mut inputs: Vec<InputFile> = Vec::new();
    let mut index: usize = 0;
    assert(observation::input_views(inputs@) =~= all.take(0));
    while index < record.inputs.len()
        invariant
            index <= record.inputs.len(),
            all == observed_of(*record).inputs,
            observation::input_views(inputs@) == all.take(index as int),
        decreases record.inputs.len() - index,
    {
        let input = &record.inputs[index];
        let ghost before = inputs@;
        let restored = InputFile {
            raw_path: bstr::copy(input.raw_path.as_bytes()),
            observed_path: input.path.resolved_path.to_path_buf(),
            path: input.path.canonical_path.to_path_buf(),
            digest: input.digest.bytes,
            size: input.size,
        };
        assert(restored@ == all[index as int]);
        inputs.push(restored);
        assert(observation::input_views(inputs@) =~= observation::input_views(before).push(
            restored@,
        ));
        assert(observation::input_views(inputs@) =~= all.take(index + 1));
        index += 1;
    }
    assert(all.take(index as int) =~= all);
    inputs
}

fn restore_dependencies(record: &DirectRecord) -> (dependencies: Option<Vec<ObservedDependency>>)
    ensures
        match dependencies {
            Some(list) => selections_known(*record) && observation::dependency_views(list@)
                == observed_of(*record).dependencies,
            None => !selections_known(*record),
        },
{
    let ghost all = observed_of(*record).dependencies;
    let mut list: Vec<ObservedDependency> = Vec::new();
    let mut index: usize = 0;
    assert(observation::dependency_views(list@) =~= all.take(0));
    while index < record.resolution.positive.len()
        invariant
            index <= record.resolution.positive.len(),
            all == observed_of(*record).dependencies,
            observation::dependency_views(list@) == all.take(index as int),
            forall|at: int|
                0 <= at < index ==> (#[trigger] record.resolution.positive@[at]).selected_input
                    < record.inputs@.len(),
        decreases record.resolution.positive.len() - index,
    {
        let witness = &record.resolution.positive[index];
        if witness.selected_input >= record.inputs.len() {
            assert(!(record.resolution.positive@[index as int].selected_input
                < record.inputs@.len()));
            return None;
        }
        let ghost before = list@;
        let restored = ObservedDependency {
            raw_path: bstr::copy(witness.requested_name.as_bytes()),
            observed_path: witness.selected_path.resolved_path.to_path_buf(),
            path: record.inputs[witness.selected_input].path.canonical_path.to_path_buf(),
        };
        assert(restored@ == all[index as int]);
        list.push(restored);
        assert(observation::dependency_views(list@) =~= observation::dependency_views(before).push(
            restored@,
        ));
        assert(observation::dependency_views(list@) =~= all.take(index + 1));
        index += 1;
    }
    assert(all.take(index as int) =~= all);
    Some(list)
}

fn restore_outputs(record: &DirectRecord) -> (outputs: Vec<ExpectedArtifact>)
    ensures
        observation::output_views(outputs@) == observed_of(*record).outputs,
{
    let ghost all = observed_of(*record).outputs;
    let mut outputs: Vec<ExpectedArtifact> = Vec::new();
    let mut index: usize = 0;
    assert(observation::output_views(outputs@) =~= all.take(0));
    while index < record.expected_artifacts.len()
        invariant
            index <= record.expected_artifacts.len(),
            all == observed_of(*record).outputs,
            observation::output_views(outputs@) == all.take(index as int),
        decreases record.expected_artifacts.len() - index,
    {
        let artifact = &record.expected_artifacts[index];
        let module = observation::is_module_kind(artifact.kind);
        let ghost before = outputs@;
        let restored = ExpectedArtifact {
            logical_name: artifact.logical_name.clone(),
            kind: artifact.kind,
            role: role_for(artifact.kind),
            path: artifact.destination.to_path_buf(),
            probe_digest: if module {
                Some(artifact.digest.bytes)
            } else {
                None
            },
            probe_size: if module {
                Some(artifact.size)
            } else {
                None
            },
        };
        assert(restored@ == all[index as int]);
        outputs.push(restored);
        assert(observation::output_views(outputs@) =~= observation::output_views(before).push(
            restored@,
        ));
        assert(observation::output_views(outputs@) =~= all.take(index + 1));
        index += 1;
    }
    assert(all.take(index as int) =~= all);
    outputs
}

fn restore_targets(rule: &DepfileRuleShape) -> (targets: Vec<DepfileTarget>)
    ensures
        observation::target_views(targets@) == rule_of(*rule).targets,
{
    let ghost all = rule_of(*rule).targets;
    let mut targets: Vec<DepfileTarget> = Vec::new();
    let mut index: usize = 0;
    assert(observation::target_views(targets@) =~= all.take(0));
    while index < rule.targets.len()
        invariant
            index <= rule.targets.len(),
            all == rule_of(*rule).targets,
            observation::target_views(targets@) == all.take(index as int),
        decreases rule.targets.len() - index,
    {
        let shape = &rule.targets[index];
        let ghost before = targets@;
        let bytes = bstr::copy(shape.bytes.as_bytes());
        let restored = match shape.kind {
            DepfileTargetKind::Ordinary => DepfileTarget::Ordinary(bytes),
            DepfileTargetKind::GeneratedModule => DepfileTarget::GeneratedModule(bytes),
        };
        assert(restored@ == all[index as int]);
        targets.push(restored);
        assert(observation::target_views(targets@) =~= observation::target_views(before).push(
            restored@,
        ));
        assert(observation::target_views(targets@) =~= all.take(index + 1));
        index += 1;
    }
    assert(all.take(index as int) =~= all);
    targets
}

fn restore_prerequisites(rule: &DepfileRuleShape) -> (prerequisites: Vec<DepfilePrerequisite>)
    ensures
        observation::prerequisite_views(prerequisites@) == rule_of(*rule).prerequisites,
{
    let ghost all = rule_of(*rule).prerequisites;
    let mut prerequisites: Vec<DepfilePrerequisite> = Vec::new();
    let mut index: usize = 0;
    assert(observation::prerequisite_views(prerequisites@) =~= all.take(0));
    while index < rule.prerequisites.len()
        invariant
            index <= rule.prerequisites.len(),
            all == rule_of(*rule).prerequisites,
            observation::prerequisite_views(prerequisites@) == all.take(index as int),
        decreases rule.prerequisites.len() - index,
    {
        let shape = &rule.prerequisites[index];
        let ghost before = prerequisites@;
        let bytes = bstr::copy(shape.bytes.as_bytes());
        let restored = match shape.kind {
            DepfilePrerequisiteKind::Ordinary => DepfilePrerequisite::Ordinary(bytes),
            DepfilePrerequisiteKind::GeneratedModule => DepfilePrerequisite::GeneratedModule(bytes),
        };
        assert(restored@ == all[index as int]);
        prerequisites.push(restored);
        assert(observation::prerequisite_views(prerequisites@)
            =~= observation::prerequisite_views(before).push(restored@));
        assert(observation::prerequisite_views(prerequisites@) =~= all.take(index + 1));
        index += 1;
    }
    assert(all.take(index as int) =~= all);
    prerequisites
}

fn append_targets(targets: &mut Vec<DepfileTarget>, added: Vec<DepfileTarget>)
    ensures
        observation::target_views(final(targets)@) == observation::target_views(old(targets)@)
            + observation::target_views(added@),
{
    let ghost before = targets@;
    let ghost more = added@;
    let mut added = added;
    targets.append(&mut added);
    assert(observation::target_views(targets@) =~= observation::target_views(before)
        + observation::target_views(more));
}

fn restore_shape(record: &DirectRecord) -> (shape: DepfileShape)
    ensures
        shape@ == observed_of(*record).depfile_shape,
{
    let ghost all = rules_of(record.probe_rules@);
    let mut shape = DepfileShape { primary_rules: Vec::new(), dummy_targets: Vec::new() };
    let mut index: usize = 0;
    assert(shape@.primary_rules =~= Seq::empty());
    assert(shape@.dummy_targets =~= Seq::empty());
    while index < record.probe_rules.len()
        invariant
            index <= record.probe_rules.len(),
            all == rules_of(record.probe_rules@),
            shape@ == shape_from(all, index as int),
        decreases record.probe_rules.len() - index,
    {
        let rule = &record.probe_rules[index];
        assert(all[index as int] == rule_of(*rule));
        let targets = restore_targets(rule);
        if rule.prerequisites.len() == 0 {
            append_targets(&mut shape.dummy_targets, targets);
        } else {
            let ghost before = observation::rule_views(shape.primary_rules@);
            let restored = ObservedDepfileRule {
                targets,
                prerequisites: restore_prerequisites(rule),
            };
            shape.primary_rules.push(restored);
            assert(observation::rule_views(shape.primary_rules@) =~= before.push(restored@));
            assert(restored@ =~= rule_of(*rule));
        }
        index += 1;
    }
    shape
}

/// The observation that a record was made from. There is none where a selection names no input.
pub fn observation_from_direct(record: &DirectRecord) -> (restored: Option<Observation>)
    ensures
        match restored {
            Some(found) => selections_known(*record) && found@ == observed_of(*record),
            None => !selections_known(*record),
        },
{
    let dependencies = match restore_dependencies(record) {
        Some(dependencies) => dependencies,
        None => {
            return None;
        },
    };
    let preprocessor = match record.preprocessor {
        PreprocessorShape::Inactive => None,
        PreprocessorShape::CompilerObserved {
            stdout_digest,
            stdout_size,
            stderr_digest,
            stderr_size,
            automatic_lowercase_source,
        } => Some(
            PreprocessorObservation {
                stdout_digest: stdout_digest.bytes,
                stdout_size,
                stderr_digest: stderr_digest.bytes,
                stderr_size,
                automatic_lowercase_source,
            },
        ),
    };
    Some(
        Observation {
            inputs: restore_inputs(record),
            dependencies,
            outputs: restore_outputs(record),
            depfile_shape: restore_shape(record),
            preprocessor,
        },
    )
}

/// The rules that are recorded: those with prerequisites, and one for each target without.
pub open spec fn recorded_rules(shape: Shape) -> Seq<ObservedRule> {
    shape.primary_rules + shape.dummy_targets.map_values(
        |target: DepfileTarget<Seq<u8>>|
            ObservedRule { targets: seq![target], prerequisites: Seq::empty() },
    )
}

fn direct_depfile_target(target: &DepfileTarget) -> (shape: DepfileTargetShape)
    ensures
        target_of(shape) == target@,
{
    match target {
        DepfileTarget::Ordinary(bytes) => DepfileTargetShape {
            kind: DepfileTargetKind::Ordinary,
            bytes: EncodedOsString::from_os_str(bytes.as_slice()),
        },
        DepfileTarget::GeneratedModule(bytes) => DepfileTargetShape {
            kind: DepfileTargetKind::GeneratedModule,
            bytes: EncodedOsString::from_os_str(bytes.as_slice()),
        },
    }
}

fn direct_depfile_prerequisite(prerequisite: &DepfilePrerequisite) -> (shape:
    DepfilePrerequisiteShape)
    ensures
        prerequisite_of(shape) == prerequisite@,
{
    match prerequisite {
        DepfilePrerequisite::Ordinary(bytes) => DepfilePrerequisiteShape {
            kind: DepfilePrerequisiteKind::Ordinary,
            bytes: EncodedOsString::from_os_str(bytes.as_slice()),
        },
        DepfilePrerequisite::GeneratedModule(bytes) => DepfilePrerequisiteShape {
            kind: DepfilePrerequisiteKind::GeneratedModule,
            bytes: EncodedOsString::from_os_str(bytes.as_slice()),
        },
    }
}

fn record_rule(rule: &ObservedDepfileRule) -> (shape: DepfileRuleShape)
    ensures
        rule_of(shape) == rule@,
{
    let mut targets: Vec<DepfileTargetShape> = Vec::new();
    let mut index: usize = 0;
    while index < rule.targets.len()
        invariant
            index <= rule.targets.len(),
            targets@.len() == index,
            forall|at: int| 0 <= at < index ==> target_of(#[trigger] targets@[at]) == rule.targets@[at]@,
        decreases rule.targets.len() - index,
    {
        targets.push(direct_depfile_target(&rule.targets[index]));
        index += 1;
    }
    let mut prerequisites: Vec<DepfilePrerequisiteShape> = Vec::new();
    let mut place: usize = 0;
    while place < rule.prerequisites.len()
        invariant
            place <= rule.prerequisites.len(),
            prerequisites@.len() == place,
            forall|at: int|
                0 <= at < place ==> prerequisite_of(#[trigger] prerequisites@[at])
                    == rule.prerequisites@[at]@,
        decreases rule.prerequisites.len() - place,
    {
        prerequisites.push(direct_depfile_prerequisite(&rule.prerequisites[place]));
        place += 1;
    }
    let shape = DepfileRuleShape { targets, prerequisites };
    assert(rule_of(shape).targets =~= rule@.targets);
    assert(rule_of(shape).prerequisites =~= rule@.prerequisites);
    shape
}

/// The rules that are recorded of an observation.
pub fn direct_probe_rules(observation: &Observation) -> (rules: Vec<DepfileRuleShape>)
    ensures
        rules_of(rules@) == recorded_rules(observation@.depfile_shape),
{
    let shape = &observation.depfile_shape;
    let ghost all = recorded_rules(shape@);
    let mut rules: Vec<DepfileRuleShape> = Vec::new();
    let mut index: usize = 0;
    assert(rules_of(rules@) =~= all.take(0));
    while index < shape.primary_rules.len()
        invariant
            index <= shape.primary_rules.len(),
            all == recorded_rules(shape@),
            rules_of(rules@) == all.take(index as int),
        decreases shape.primary_rules.len() - index,
    {
        let ghost before = rules@;
        let rule = record_rule(&shape.primary_rules[index]);
        assert(rule_of(rule) == all[index as int]);
        rules.push(rule);
        assert(rules_of(rules@) =~= rules_of(before).push(rule_of(rule)));
        assert(rules_of(rules@) =~= all.take(index + 1));
        index += 1;
    }
    let mut dummy: usize = 0;
    while dummy < shape.dummy_targets.len()
        invariant
            dummy <= shape.dummy_targets.len(),
            all == recorded_rules(shape@),
            rules_of(rules@) == all.take(shape.primary_rules@.len() + dummy),
        decreases shape.dummy_targets.len() - dummy,
    {
        let ghost before = rules@;
        let ghost place = shape.primary_rules@.len() + dummy;
        let mut targets: Vec<DepfileTargetShape> = Vec::new();
        targets.push(direct_depfile_target(&shape.dummy_targets[dummy]));
        let rule = DepfileRuleShape { targets, prerequisites: Vec::new() };
        assert(rule_of(rule).targets =~= seq![shape.dummy_targets@[dummy as int]@]);
        assert(rule_of(rule).prerequisites =~= Seq::empty());
        assert(rule_of(rule) == all[place as int]);
        rules.push(rule);
        assert(rules_of(rules@) =~= rules_of(before).push(rule_of(rule)));
        assert(rules_of(rules@) =~= all.take(place + 1));
        dummy += 1;
    }
    assert(all.take(shape.primary_rules@.len() + dummy) =~= all);
    rules
}

proof fn lemma_shape_of_primary(shape: Shape, count: int)
    requires
        0 <= count <= shape.primary_rules.len(),
        forall|at: int|
            0 <= at < shape.primary_rules.len() ==> (
            #[trigger] shape.primary_rules[at]).prerequisites.len() > 0,
    ensures
        shape_from(recorded_rules(shape), count) == (Shape {
            primary_rules: shape.primary_rules.take(count),
            dummy_targets: Seq::empty(),
        }),
    decreases count,
{
    let rules = recorded_rules(shape);
    if count > 0 {
        lemma_shape_of_primary(shape, count - 1);
        assert(rules[count - 1] == shape.primary_rules[count - 1]);
        assert(shape.primary_rules.take(count) =~= shape.primary_rules.take(count - 1).push(
            shape.primary_rules[count - 1],
        ));
    } else {
        assert(shape.primary_rules.take(0) =~= Seq::empty());
    }
}

proof fn lemma_shape_of_dummies(shape: Shape, count: int)
    requires
        0 <= count <= shape.dummy_targets.len(),
        forall|at: int|
            0 <= at < shape.primary_rules.len() ==> (
            #[trigger] shape.primary_rules[at]).prerequisites.len() > 0,
    ensures
        shape_from(recorded_rules(shape), shape.primary_rules.len() + count) == (Shape {
            primary_rules: shape.primary_rules,
            dummy_targets: shape.dummy_targets.take(count),
        }),
    decreases count,
{
    let rules = recorded_rules(shape);
    let start = shape.primary_rules.len();
    if count > 0 {
        lemma_shape_of_dummies(shape, count - 1);
        assert(rules[start + count - 1] == (ObservedRule {
            targets: seq![shape.dummy_targets[count - 1]],
            prerequisites: Seq::empty(),
        }));
        assert(shape.dummy_targets.take(count) =~= shape.dummy_targets.take(count - 1) + seq![
            shape.dummy_targets[count - 1],
        ]);
    } else {
        lemma_shape_of_primary(shape, start as int);
        assert(shape.primary_rules.take(start as int) =~= shape.primary_rules);
        assert(shape.dummy_targets.take(0) =~= Seq::empty());
    }
}

/// What is recorded of the rules of a dependency file gives them back as they were.
pub proof fn law_recorded_rules_read_back(shape: Shape)
    requires
        forall|at: int|
            0 <= at < shape.primary_rules.len() ==> (
            #[trigger] shape.primary_rules[at]).prerequisites.len() > 0,
    ensures
        shape_from(recorded_rules(shape), recorded_rules(shape).len() as int) == shape,
{
    lemma_shape_of_dummies(shape, shape.dummy_targets.len() as int);
    assert(shape.dummy_targets.take(shape.dummy_targets.len() as int) =~= shape.dummy_targets);
    assert(recorded_rules(shape).len() == shape.primary_rules.len() + shape.dummy_targets.len());
}

} // verus!
