//! What must hold before a stored result is put in place, and before a new one is stored.
use vstd::prelude::*;
use vstd::string::*;

use crate::bstr;
use crate::cache::direct;
use crate::cache::direct::DirectRecord;
use crate::cache::key::ActionKey;
use crate::cache::manifest;
use crate::cache::manifest::{Artifact, Manifest, ManifestView};
use crate::cache::output_lock::{LockMode, ModuleDirectoryAccess, OutputLockPlan, PlannedLock};
use crate::cache::reasons;
use crate::cache::restore;
use crate::cache::restore::{RestoreDestination, RestoreDestinations, RestoreFacts};
use crate::cache::snapshot::FileIdentity;
use crate::cache::store;
use crate::cache::store::{ManifestFacts, StoredBlob};
use crate::compiler::fingerprint::CompilerFingerprint;
use crate::compiler::gfortran::GfortranInvocation;
use crate::digest;
use crate::hex;
use crate::launcher::observation;
use crate::launcher::observation::{ExpectedArtifact, Observation, Observed, Reading};
use crate::launcher::projection;
use crate::launcher::projection::{OutputFacts, ProjectedIdentity, ProjectedOutputs, Projection};

verus! {

/// What is found out about the places of the outputs, the modules that are there, and the inputs.
#[derive(Debug)]
pub struct ContractFacts {
    pub outputs: Vec<OutputFacts>,
    /// What is read of each module that is where the compilation would write it.
    pub modules: Vec<Reading>,
    /// The identity of each input.
    pub inputs: Vec<Result<Option<FileIdentity>, String>>,
}

/// The modules that are there are those that the probe foresaw.
pub open spec fn modules_current(found: Projection, readings: Seq<Reading>) -> bool {
    &&& readings.len() == found.modules.len()
    &&& forall|at: int|
        0 <= at < found.modules.len() ==> match observation::read_of(
            (#[trigger] found.modules[at]).path,
            readings[at],
        ) {
            Ok(content) => content.digest == found.modules[at].digest && content.size
                == found.modules[at].size,
            Err(_) => false,
        }
}

/// No input is a file that an output would replace.
pub open spec fn inputs_apart(
    found: Projection,
    count: nat,
    identities: Seq<Result<Option<FileIdentity>, String>>,
) -> bool {
    &&& identities.len() == count
    &&& forall|at: int|
        0 <= at < count ==> match #[trigger] identities[at] {
            Ok(Some(identity)) => projection::owner(found.identities, identity, 0) is None,
            Ok(None) => true,
            Err(_) => false,
        }
}

/// The outputs of an observation can be put in place, and what is there of them is as foreseen.
pub open spec fn contract_holds(observed: Observed, facts: ContractFacts) -> bool {
    match projection::projected(observed.outputs, facts.outputs@) {
        Err(_) => false,
        Ok(found) => modules_current(found, facts.modules@) && inputs_apart(
            found,
            observed.inputs.len(),
            facts.inputs@,
        ),
    }
}

fn modules_agree(found: &ProjectedOutputs, readings: &Vec<Reading>) -> (yes: bool)
    ensures
        yes == modules_current(found@, readings@),
{
    if readings.len() != found.modules.len() {
        assert(found@.modules.len() == found.modules@.len());
        return false;
    }
    let mut index: usize = 0;
    while index < readings.len()
        invariant
            readings@.len() == found.modules@.len(),
            index <= readings@.len(),
            forall|at: int|
                0 <= at < index ==> match observation::read_of(
                    (#[trigger] found@.modules[at]).path,
                    readings@[at],
                ) {
                    Ok(content) => content.digest == found@.modules[at].digest && content.size
                        == found@.modules[at].size,
                    Err(_) => false,
                },
        decreases readings@.len() - index,
    {
        let module = &found.modules[index];
        assert(found@.modules[index as int] == module@);
        match observation::read_stable(module.path.as_slice(), &readings[index]) {
            Ok(current) => {
                if !digest::same(&current.digest, &module.digest) || current.size != module.size {
                    return false;
                }
            },
            Err(_) => {
                return false;
            },
        }
        index += 1;
    }
    true
}

fn is_owned(list: &Vec<ProjectedIdentity>, identity: FileIdentity) -> (yes: bool)
    ensures
        yes == (projection::owner(
            list@.map_values(|item: ProjectedIdentity| item@),
            identity,
            0,
        ) is Some),
{
    let ghost all = list@.map_values(|item: ProjectedIdentity| item@);
    let mut index: usize = 0;
    while index < list.len()
        invariant
            index <= list@.len(),
            all == list@.map_values(|item: ProjectedIdentity| item@),
            projection::owner(all, identity, 0) == projection::owner(all, identity, index as int),
        decreases list@.len() - index,
    {
        assert(all[index as int] == list@[index as int]@);
        if list[index].identity == identity {
            return true;
        }
        index += 1;
    }
    false
}

fn no_input_owned(
    found: &ProjectedOutputs,
    count: usize,
    identities: &Vec<Result<Option<FileIdentity>, String>>,
) -> (yes: bool)
    ensures
        yes == inputs_apart(found@, count as nat, identities@),
{
    if identities.len() != count {
        return false;
    }
    let mut index: usize = 0;
    while index < count
        invariant
            identities@.len() == count,
            index <= count,
            forall|at: int|
                0 <= at < index ==> match #[trigger] identities@[at] {
                    Ok(Some(identity)) => projection::owner(found@.identities, identity, 0) is None,
                    Ok(None) => true,
                    Err(_) => false,
                },
        decreases count - index,
    {
        match &identities[index] {
            Ok(Some(identity)) => {
                if is_owned(&found.identities, *identity) {
                    return false;
                }
            },
            Ok(None) => {},
            Err(_) => {
                return false;
            },
        }
        index += 1;
    }
    true
}

/// The outputs of an observation can be put in place: none stands in for another, the modules that
/// are there are those that the probe foresaw, and no input would be replaced.
pub fn validate_restore_output_contract(observation: &Observation, facts: &ContractFacts) -> (yes:
    bool)
    ensures
        yes == contract_holds(observation@, *facts),
{
    match ProjectedOutputs::resolve(&observation.outputs, &facts.outputs) {
        Err(_) => false,
        Ok(found) => modules_agree(&found, &facts.modules) && no_input_owned(
            &found,
            observation.inputs.len(),
            &facts.inputs,
        ),
    }
}

/// The destinations of the first `count` outputs.
pub open spec fn destinations_of(
    outputs: Seq<ExpectedArtifact<Seq<char>, Seq<u8>, Seq<u8>>>,
    count: int,
) -> Seq<RestoreDestination<Seq<char>, Seq<u8>>>
    decreases count,
{
    if count <= 0 {
        Seq::empty()
    } else {
        restore::with_destination(
            destinations_of(outputs, count - 1),
            RestoreDestination {
                logical_name: outputs[count - 1].logical_name,
                path: outputs[count - 1].path,
                role: Some(outputs[count - 1].role),
            },
        )
    }
}

/// Where the artifacts of a result go: where the compilation would write them.
pub fn restore_destinations(observation: &Observation) -> (destinations: RestoreDestinations)
    ensures
        destinations@ == destinations_of(
            observation@.outputs,
            observation@.outputs.len() as int,
        ),
{
    let ghost all = observation@.outputs;
    let mut destinations = RestoreDestinations::new();
    let mut index: usize = 0;
    while index < observation.outputs.len()
        invariant
            all == observation@.outputs,
            all.len() == observation.outputs@.len(),
            index <= all.len(),
            destinations@ == destinations_of(all, index as int),
        decreases all.len() - index,
    {
        let output = &observation.outputs[index];
        assert(all[index as int] == output@);
        destinations.insert_with_role(
            output.logical_name.as_str(),
            output.role,
            output.path.as_slice(),
        );
        index += 1;
    }
    destinations
}

/// The locks for the outputs of an observation and for the directory of its modules.
pub open spec fn locks_of(
    observed: Observed,
    module_directory: Seq<u8>,
) -> Seq<PlannedLock<Seq<u8>>> {
    observed.outputs.map_values(
        |output: ExpectedArtifact<Seq<char>, Seq<u8>, Seq<u8>>|
            PlannedLock { path: output.path, mode: LockMode::Exclusive },
    ).push(
        PlannedLock {
            path: module_directory,
            mode: if observation::has_module(observed.outputs) {
                LockMode::Exclusive
            } else {
                LockMode::Shared
            },
        },
    )
}

/// The locks under which outputs are written: each output alone, and the directory of the modules
/// alone where modules are written. `restoring` says that a stored result is put in place.
pub fn plan_locks(
    invocation: &GfortranInvocation,
    observation: &Observation,
    cwd: &[u8],
    restoring: bool,
) -> (plan: OutputLockPlan)
    ensures
        plan@ == locks_of(
            observation@,
            observation::module_directory(invocation@.module_dir, cwd@),
        ),
{
    let ghost all = observation@.outputs;
    let mut plan = OutputLockPlan::new();
    let mut index: usize = 0;
    let ghost locks = all.map_values(
        |output: ExpectedArtifact<Seq<char>, Seq<u8>, Seq<u8>>|
            PlannedLock { path: output.path, mode: LockMode::Exclusive },
    );
    assert(plan@ =~= locks.take(0));
    while index < observation.outputs.len()
        invariant
            all == observation@.outputs,
            all.len() == observation.outputs@.len(),
            locks == all.map_values(
                |output: ExpectedArtifact<Seq<char>, Seq<u8>, Seq<u8>>|
                    PlannedLock { path: output.path, mode: LockMode::Exclusive },
            ),
            index <= all.len(),
            plan@ == locks.take(index as int),
        decreases all.len() - index,
    {
        let output = &observation.outputs[index];
        assert(all[index as int] == output@);
        plan.add_output(bstr::copy(output.path.as_slice()));
        assert(plan@ =~= locks.take(index + 1));
        index += 1;
    }
    assert(locks.take(index as int) =~= locks);
    let access = if !observation::produces_modules(&observation.outputs) {
        ModuleDirectoryAccess::CompilerMissWithoutModules
    } else if restoring {
        ModuleDirectoryAccess::ModuleRestore
    } else {
        ModuleDirectoryAccess::CompilerModuleProducer
    };
    plan.add_module_directory(observation::final_module_dir(invocation, cwd), access);
    plan
}

/// A manifest has the artifact that a record expects.
pub open spec fn has_expected(manifest: ManifestView, expected: direct::ExpectedArtifact) -> bool {
    exists|at: int|
        0 <= at < manifest.artifacts.len() && (#[trigger] manifest.artifacts[at]).kind
            == expected.kind && manifest.artifacts[at].logical_name == expected.logical_name@
            && manifest.artifacts[at].blob.digest == hex::hex_text(expected.digest@)
            && manifest.artifacts[at].blob.size == expected.size
            && manifest.artifacts[at].blob.mode == expected.mode
}

/// A manifest has the artifacts that a record expects, and as many.
pub open spec fn manifest_matches(record: DirectRecord, manifest: ManifestView) -> bool {
    &&& record.expected_artifacts@.len() == manifest.artifacts.len()
    &&& forall|at: int|
        0 <= at < record.expected_artifacts@.len() ==> has_expected(
            manifest,
            #[trigger] record.expected_artifacts@[at],
        )
}

fn finds_expected(manifest: &Manifest, expected: &direct::ExpectedArtifact) -> (yes: bool)
    ensures
        yes == has_expected(manifest@, *expected),
{
    let digest = expected.digest.to_hex();
    let mut index: usize = 0;
    while index < manifest.artifacts.len()
        invariant
            digest@ == hex::hex_text(expected.digest@),
            index <= manifest.artifacts@.len(),
            forall|at: int|
                0 <= at < index ==> !((#[trigger] manifest@.artifacts[at]).kind == expected.kind
                    && manifest@.artifacts[at].logical_name == expected.logical_name@
                    && manifest@.artifacts[at].blob.digest == hex::hex_text(expected.digest@)
                    && manifest@.artifacts[at].blob.size == expected.size
                    && manifest@.artifacts[at].blob.mode == expected.mode),
        decreases manifest.artifacts@.len() - index,
    {
        let artifact = &manifest.artifacts[index];
        assert(manifest@.artifacts[index as int] == artifact@);
        if artifact.kind == expected.kind && artifact.logical_name == expected.logical_name
            && artifact.blob.digest == digest && artifact.blob.size == expected.size
            && artifact.blob.mode == expected.mode {
            return true;
        }
        index += 1;
    }
    false
}

/// A manifest has the artifacts that a record expects, and as many.
pub fn direct_manifest_matches(record: &DirectRecord, manifest: &Manifest) -> (yes: bool)
    ensures
        yes == manifest_matches(*record, manifest@),
{
    if record.expected_artifacts.len() != manifest.artifacts.len() {
        assert(manifest@.artifacts.len() == manifest.artifacts@.len());
        return false;
    }
    let mut index: usize = 0;
    while index < record.expected_artifacts.len()
        invariant
            record.expected_artifacts@.len() == manifest@.artifacts.len(),
            index <= record.expected_artifacts@.len(),
            forall|at: int|
                0 <= at < index ==> has_expected(
                    manifest@,
                    #[trigger] record.expected_artifacts@[at],
                ),
        decreases record.expected_artifacts@.len() - index,
    {
        if !finds_expected(manifest, &record.expected_artifacts[index]) {
            return false;
        }
        index += 1;
    }
    true
}

/// The metadata of an output, links not followed.
#[derive(Clone, Copy, Debug, PartialEq, Eq, Structural)]
pub struct ArtifactStat {
    /// It is a file, and no link.
    pub plain_file: bool,
    pub links: u64,
    pub size: u64,
    /// The time of the last change, in nanoseconds, where there is one.
    pub modified: Option<i128>,
    pub identity: Option<FileIdentity>,
    pub mode: u32,
}

/// What was found when an output was read: its metadata, its contents, and its metadata once more.
#[derive(Debug)]
pub struct ArtifactReading {
    pub before: Result<ArtifactStat, String>,
    pub contents: Result<Vec<u8>, String>,
    pub after: Result<ArtifactStat, String>,
}

/// An output that was read.
#[derive(Clone, Debug, PartialEq, Eq)]
pub struct CapturedArtifact<B = Vec<u8>, D = [u8; 32]> {
    pub bytes: B,
    pub mode: u32,
    pub digest: D,
}

impl View for CapturedArtifact {
    type V = CapturedArtifact<Seq<u8>, Seq<u8>>;

    open spec fn view(&self) -> CapturedArtifact<Seq<u8>, Seq<u8>> {
        CapturedArtifact { bytes: self.bytes@, mode: self.mode, digest: self.digest@ }
    }
}

/// Why an output cannot be stored.
#[derive(Clone, Debug, PartialEq, Eq)]
pub enum CaptureError<S = String> {
    Failed(S),
    NotRegular,
    HardLinked,
    Changed,
}

/// Why an output cannot be stored, in views.
pub type CaptureFault = CaptureError<Seq<char>>;

impl View for CaptureError {
    type V = CaptureFault;

    open spec fn view(&self) -> CaptureFault {
        match *self {
            CaptureError::Failed(text) => CaptureError::Failed(text@),
            CaptureError::NotRegular => CaptureError::NotRegular,
            CaptureError::HardLinked => CaptureError::HardLinked,
            CaptureError::Changed => CaptureError::Changed,
        }
    }
}

/// The output as it was read, where it is a file with one name that did not change meanwhile.
pub open spec fn captured(reading: ArtifactReading) -> Result<
    CapturedArtifact<Seq<u8>, Seq<u8>>,
    CaptureFault,
> {
    match reading.before {
        Err(text) => Err(CaptureError::Failed(text@)),
        Ok(before) => if !before.plain_file {
            Err(CaptureError::NotRegular)
        } else if before.links > 1 {
            Err(CaptureError::HardLinked)
        } else {
            match reading.contents {
                Err(text) => Err(CaptureError::Failed(text@)),
                Ok(bytes) => match reading.after {
                    Err(text) => Err(CaptureError::Failed(text@)),
                    Ok(after) => if before.size != after.size || before.modified != after.modified
                        || before.identity != after.identity || before.size != bytes@.len() {
                        Err(CaptureError::Changed)
                    } else {
                        Ok(
                            CapturedArtifact {
                                bytes: bytes@,
                                mode: after.mode,
                                digest: digest::blake3_digest(bytes@),
                            },
                        )
                    },
                },
            }
        },
    }
}

/// The output as it was read, where it is a file with one name that did not change meanwhile.
pub fn capture_artifact(reading: &ArtifactReading) -> (outcome: Result<
    CapturedArtifact,
    CaptureError,
>)
    ensures
        match outcome {
            Ok(found) => captured(*reading) == Ok::<
                CapturedArtifact<Seq<u8>, Seq<u8>>,
                CaptureFault,
            >(found@),
            Err(error) => captured(*reading) == Err::<
                CapturedArtifact<Seq<u8>, Seq<u8>>,
                CaptureFault,
            >(error@),
        },
{
    let before = match &reading.before {
        Ok(stat) => stat,
        Err(text) => {
            return Err(CaptureError::Failed(text.clone()));
        },
    };
    if !before.plain_file {
        return Err(CaptureError::NotRegular);
    }
    if before.links > 1 {
        return Err(CaptureError::HardLinked);
    }
    let bytes = match &reading.contents {
        Ok(bytes) => bytes,
        Err(text) => {
            return Err(CaptureError::Failed(text.clone()));
        },
    };
    let after = match &reading.after {
        Ok(stat) => stat,
        Err(text) => {
            return Err(CaptureError::Failed(text.clone()));
        },
    };
    let modified = match (before.modified, after.modified) {
        (Some(left), Some(right)) => left == right,
        (None, None) => true,
        _ => false,
    };
    if before.size != after.size || !modified || !observation::same_identity(
        before.identity,
        after.identity,
    ) || before.size != bytes.len() as u64 {
        return Err(CaptureError::Changed);
    }
    Ok(
        CapturedArtifact {
            bytes: bstr::copy(bytes.as_slice()),
            mode: after.mode,
            digest: digest::hash(bytes.as_slice()),
        },
    )
}

/// What is found out when a new result is stored.
#[derive(Debug)]
pub struct StoreFacts {
    /// What is read of the inputs first.
    pub inputs_before: Vec<Reading>,
    pub contract: ContractFacts,
    pub artifacts: Vec<ArtifactReading>,
    /// What is read of the outputs once more.
    pub artifacts_again: Vec<Reading>,
    /// What is read of the inputs at last.
    pub inputs_after: Vec<Reading>,
}

/// An output is what the probe foresaw, and is still what it was when it was read.
pub open spec fn output_settled(
    output: ExpectedArtifact<Seq<char>, Seq<u8>, Seq<u8>>,
    reading: ArtifactReading,
    again: Reading,
) -> bool {
    &&& captured(reading) is Ok
    &&& output.probe_digest is Some ==> output.probe_digest->0 == captured(reading)->Ok_0.digest
    &&& match observation::read_of(output.path, again) {
        Ok(content) => content.digest == captured(reading)->Ok_0.digest && content.size
            == captured(reading)->Ok_0.bytes.len(),
        Err(_) => false,
    }
}

/// A new result may be stored: the inputs are unchanged before and after the outputs were read, and
/// every output is settled.
pub open spec fn storable(observed: Observed, facts: StoreFacts) -> bool {
    &&& observation::unchanged(observed.inputs, facts.inputs_before@)
    &&& contract_holds(observed, facts.contract)
    &&& facts.artifacts@.len() == observed.outputs.len()
    &&& facts.artifacts_again@.len() == observed.outputs.len()
    &&& forall|at: int|
        0 <= at < observed.outputs.len() ==> output_settled(
            #[trigger] observed.outputs[at],
            facts.artifacts@[at],
            facts.artifacts_again@[at],
        )
    &&& observation::unchanged(observed.inputs, facts.inputs_after@)
}

/// The artifact that an output becomes.
pub open spec fn stored_artifact(
    output: ExpectedArtifact<Seq<char>, Seq<u8>, Seq<u8>>,
    reading: ArtifactReading,
) -> Artifact<Seq<char>> {
    let found = captured(reading)->Ok_0;
    Artifact {
        kind: output.kind,
        logical_name: output.logical_name,
        destination_role: output.role,
        blob: store::reference_of(found.bytes, found.mode),
    }
}

/// The artifacts that the outputs become.
pub open spec fn stored_artifacts(
    outputs: Seq<ExpectedArtifact<Seq<char>, Seq<u8>, Seq<u8>>>,
    readings: Seq<ArtifactReading>,
) -> Seq<Artifact<Seq<char>>> {
    Seq::new(outputs.len(), |at: int| stored_artifact(outputs[at], readings[at]))
}

/// The size of the first `count` artifacts.
pub open spec fn stored_size(artifacts: Seq<Artifact<Seq<char>>>, count: int) -> u64
    decreases count,
{
    if count <= 0 {
        0
    } else {
        reasons::plus(stored_size(artifacts, count - 1), artifacts[count - 1].blob.size)
    }
}

/// A result that is ready to be stored: the contents, each of an artifact in its place, and the
/// manifest that refers to them.
#[derive(Debug)]
pub struct PreparedResult {
    pub contents: Vec<CapturedArtifact>,
    pub manifest: Manifest,
    /// The size of all contents, messages included.
    pub bytes: u64,
}

fn is_settled(output: &ExpectedArtifact, found: &CapturedArtifact, again: &Reading) -> (yes: bool)
    ensures
        yes == ((output@.probe_digest is Some ==> output@.probe_digest->0 == found@.digest)
            && match observation::read_of(output@.path, *again) {
            Ok(content) => content.digest == found@.digest && content.size == found@.bytes.len(),
            Err(_) => false,
        }),
{
    if let Some(expected) = &output.probe_digest {
        if !digest::same(expected, &found.digest) {
            return false;
        }
    }
    match observation::read_stable(output.path.as_slice(), again) {
        Ok(current) => digest::same(&current.digest, &found.digest) && current.size
            == found.bytes.len() as u64,
        Err(_) => false,
    }
}

/// The result of a compilation, where it may be stored. `stdout` and `stderr` are the messages of
/// the compiler.
pub fn store_result(
    action: ActionKey,
    fingerprint: &CompilerFingerprint,
    observation: &Observation,
    stdout: &[u8],
    stderr: &[u8],
    facts: &StoreFacts,
) -> (result: Option<PreparedResult>)
    ensures
        match result {
            None => !storable(observation@, *facts),
            Some(prepared) => {
                let artifacts = stored_artifacts(observation@.outputs, facts.artifacts@);
                let out = store::reference_of(stdout@, manifest::DEFAULT_MODE);
                let err = store::reference_of(stderr@, manifest::DEFAULT_MODE);
                &&& storable(observation@, *facts)
                &&& prepared.manifest@ == (ManifestView {
                    schema_version: manifest::SCHEMA_VERSION,
                    action_key: action@,
                    compiler_digest: hex::hex_text(fingerprint@.digest),
                    artifacts,
                    stdout: out,
                    stderr: err,
                    exit_code: 0,
                })
                &&& prepared.contents@.len() == artifacts.len()
                &&& forall|at: int|
                    0 <= at < artifacts.len() ==> (#[trigger] prepared.contents@[at])@ == captured(
                        facts.artifacts@[at],
                    )->Ok_0
                &&& prepared.bytes == reasons::plus(
                    reasons::plus(stored_size(artifacts, artifacts.len() as int), out.size),
                    err.size,
                )
            },
        },
{
    let ghost all = observation@.outputs;
    if !observation::inputs_unchanged(&observation.inputs, &facts.inputs_before)
        || !validate_restore_output_contract(observation, &facts.contract)
        || facts.artifacts.len() != observation.outputs.len() || facts.artifacts_again.len()
        != observation.outputs.len() || !observation::inputs_unchanged(
        &observation.inputs,
        &facts.inputs_after,
    ) {
        return None;
    }
    let ghost expected = stored_artifacts(all, facts.artifacts@);
    let mut contents: Vec<CapturedArtifact> = Vec::new();
    let mut artifacts: Vec<Artifact> = Vec::new();
    let mut bytes: u64 = 0;
    let mut index: usize = 0;
    assert(manifest::artifact_views(artifacts@) =~= expected.take(0));
    while index < observation.outputs.len()
        invariant
            all == observation@.outputs,
            all.len() == observation.outputs@.len(),
            facts.artifacts@.len() == all.len(),
            facts.artifacts_again@.len() == all.len(),
            expected == stored_artifacts(all, facts.artifacts@),
            index <= all.len(),
            forall|at: int|
                0 <= at < index ==> output_settled(
                    #[trigger] all[at],
                    facts.artifacts@[at],
                    facts.artifacts_again@[at],
                ),
            contents@.len() == index,
            forall|at: int|
                0 <= at < index ==> (#[trigger] contents@[at])@ == captured(
                    facts.artifacts@[at],
                )->Ok_0,
            manifest::artifact_views(artifacts@) == expected.take(index as int),
            bytes == stored_size(expected, index as int),
        decreases all.len() - index,
    {
        let output = &observation.outputs[index];
        assert(all[index as int] == output@);
        let found = match capture_artifact(&facts.artifacts[index]) {
            Ok(found) => found,
            Err(_) => {
                assert(!output_settled(
                    all[index as int],
                    facts.artifacts@[index as int],
                    facts.artifacts_again@[index as int],
                ));
                return None;
            },
        };
        if !is_settled(output, &found, &facts.artifacts_again[index]) {
            assert(!output_settled(
                all[index as int],
                facts.artifacts@[index as int],
                facts.artifacts_again@[index as int],
            ));
            return None;
        }
        let blob = store::reference_to(found.bytes.as_slice(), found.mode);
        bytes = bytes.saturating_add(blob.size);
        let artifact = Artifact::new(output.kind, output.logical_name.as_str(), output.role, blob);
        let ghost before = artifacts@;
        assert(artifact@ == expected[index as int]);
        artifacts.push(artifact);
        assert(manifest::artifact_views(artifacts@) =~= manifest::artifact_views(before).push(
            expected[index as int],
        ));
        assert(manifest::artifact_views(artifacts@) =~= expected.take(index + 1));
        contents.push(found);
        index += 1;
    }
    assert(expected.take(index as int) =~= expected);
    let out = store::reference_to(stdout, manifest::DEFAULT_MODE);
    let err = store::reference_to(stderr, manifest::DEFAULT_MODE);
    bytes = bytes.saturating_add(out.size).saturating_add(err.size);
    let manifest = Manifest::new(action, fingerprint.digest_hex(), artifacts, out, err);
    Some(PreparedResult { contents, manifest, bytes })
}

/// A result that is stored holds every output of the compilation, under its name, with its kind and
/// role and exactly the bytes that were captured of it.
pub proof fn law_a_result_holds_every_output(
    outputs: Seq<ExpectedArtifact<Seq<char>, Seq<u8>, Seq<u8>>>,
    readings: Seq<ArtifactReading>,
    at: int,
)
    requires
        0 <= at < outputs.len(),
        captured(readings[at]) is Ok,
    ensures
        stored_artifacts(outputs, readings).len() == outputs.len(),
        stored_artifacts(outputs, readings)[at].logical_name == outputs[at].logical_name,
        stored_artifacts(outputs, readings)[at].kind == outputs[at].kind,
        stored_artifacts(outputs, readings)[at].destination_role == outputs[at].role,
        stored_artifacts(outputs, readings)[at].blob.size == captured(
            readings[at],
        )->Ok_0.bytes.len(),
        stored_artifacts(outputs, readings)[at].blob.digest == hex::hex_text(
            digest::blake3_digest(captured(readings[at])->Ok_0.bytes),
        ),
{
}

proof fn lemma_destination(
    outputs: Seq<ExpectedArtifact<Seq<char>, Seq<u8>, Seq<u8>>>,
    count: int,
    at: int,
)
    requires
        0 <= at < count <= outputs.len(),
        forall|left: int, right: int|
            0 <= left < right < outputs.len() ==> (#[trigger] outputs[left]).logical_name != (
            #[trigger] outputs[right]).logical_name,
    ensures
        restore::destination_from(
            destinations_of(outputs, count),
            outputs[at].logical_name,
            0,
        ) == Some(
            RestoreDestination {
                logical_name: outputs[at].logical_name,
                path: outputs[at].path,
                role: Some(outputs[at].role),
            },
        ),
    decreases count,
{
    let last = outputs[count - 1];
    restore::law_last_destination_counts(
        destinations_of(outputs, count - 1),
        RestoreDestination {
            logical_name: last.logical_name,
            path: last.path,
            role: Some(last.role),
        },
        outputs[at].logical_name,
    );
    if at < count - 1 {
        assert(outputs[at].logical_name != outputs[count - 1].logical_name);
        lemma_destination(outputs, count - 1, at);
    }
}

/// What a hit puts in place is what the compilation produced: for each output, content of the same
/// digest and size, with the same mode, at the path that the compilation wrote it to.
pub proof fn law_a_hit_gives_back_the_compilation(
    root: Seq<u8>,
    outputs: Seq<ExpectedArtifact<Seq<char>, Seq<u8>, Seq<u8>>>,
    readings: Seq<ArtifactReading>,
    published: ManifestView,
    place: ManifestFacts,
    stored: Seq<StoredBlob>,
    facts: RestoreFacts,
    at: int,
)
    requires
        store::publication(root, published, place, stored) is Install,
        published.artifacts == stored_artifacts(outputs, readings),
        restore::prepared(
            root,
            published.action_key,
            destinations_of(outputs, outputs.len() as int),
            true,
            facts,
        ) is Ok,
        restore::prepared(
            root,
            published.action_key,
            destinations_of(outputs, outputs.len() as int),
            true,
            facts,
        )->Ok_0.manifest == published,
        0 <= at < outputs.len(),
        captured(readings[at]) is Ok,
    ensures
        ({
            let ready = restore::prepared(
                root,
                published.action_key,
                destinations_of(outputs, outputs.len() as int),
                true,
                facts,
            )->Ok_0;
            let found = captured(readings[at])->Ok_0;
            &&& ready.artifacts.len() == outputs.len()
            &&& ready.artifacts[at].destination == outputs[at].path
            &&& ready.artifacts[at].role == outputs[at].role
            &&& ready.artifacts[at].mode == found.mode
            &&& ready.artifacts[at].content.len() == found.bytes.len()
            &&& digest::blake3_digest(ready.artifacts[at].content) == digest::blake3_digest(
                found.bytes,
            )
        }),
{
    let list = destinations_of(outputs, outputs.len() as int);
    let ready = restore::prepared(root, published.action_key, list, true, facts)->Ok_0;
    let found = captured(readings[at])->Ok_0;
    manifest::law_accepted_manifests_are_valid(published);
    assert forall|left: int, right: int| 0 <= left < right < outputs.len() implies (
    #[trigger] outputs[left]).logical_name != (#[trigger] outputs[right]).logical_name by {
        assert(published.artifacts[left].logical_name == outputs[left].logical_name);
        assert(published.artifacts[right].logical_name == outputs[right].logical_name);
    }
    lemma_destination(outputs, outputs.len() as int, at);
    law_a_result_holds_every_output(outputs, readings, at);
    restore::law_a_restore_gives_back_what_was_published(
        root,
        published.action_key,
        list,
        true,
        facts,
        at,
    );
    hex::law_hex_injective(
        digest::blake3_digest(ready.artifacts[at].content),
        digest::blake3_digest(found.bytes),
    );
}

} // verus!
