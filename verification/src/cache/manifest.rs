//! Versioned cache result manifests.
//!
//! A manifest names every output of one successful compilation, with the content that each had.
use vstd::prelude::*;

use crate::bstr;
use crate::cache::key::ActionKey;
use crate::hex;
use crate::words;

verus! {

/// The version of the manifest format.
pub const SCHEMA_VERSION: u32 = 1;

/// The number of artifacts that one manifest can hold.
pub const MAX_ARTIFACTS: usize = 256;

/// The size that one blob can have.
pub const MAX_BLOB_SIZE: u64 = 0x4000_0000;

/// The size that all blobs of one manifest can have.
pub const MAX_TOTAL_BLOB_SIZE: u64 = 0x8000_0000;

/// The size that the text of a manifest can have.
pub const MAX_JSON_SIZE: usize = 0x40_0000;

/// The mode of a blob that names none.
pub const DEFAULT_MODE: u32 = 0o644;

/// Why a manifest is refused.
#[derive(Clone, Debug, PartialEq, Eq)]
pub enum ManifestError<S = String> {
    UnsupportedSchema(u32),
    TooLarge,
    TooManyArtifacts,
    DuplicateArtifact(S),
    UnsafeName(S),
    InvalidDigest,
    BlobTooLarge,
    TotalBlobTooLarge,
    NonZeroExit,
    InconsistentArtifact(S),
    MultipleObjectArtifacts,
    MultipleDependencyArtifacts,
    /// The text of the manifest is not the JSON form of one.
    Json(S),
}

impl View for ManifestError {
    type V = ManifestError<Seq<char>>;

    open spec fn view(&self) -> ManifestError<Seq<char>> {
        match *self {
            ManifestError::UnsupportedSchema(version) => ManifestError::UnsupportedSchema(version),
            ManifestError::TooLarge => ManifestError::TooLarge,
            ManifestError::TooManyArtifacts => ManifestError::TooManyArtifacts,
            ManifestError::DuplicateArtifact(name) => ManifestError::DuplicateArtifact(name@),
            ManifestError::UnsafeName(name) => ManifestError::UnsafeName(name@),
            ManifestError::InvalidDigest => ManifestError::InvalidDigest,
            ManifestError::BlobTooLarge => ManifestError::BlobTooLarge,
            ManifestError::TotalBlobTooLarge => ManifestError::TotalBlobTooLarge,
            ManifestError::NonZeroExit => ManifestError::NonZeroExit,
            ManifestError::InconsistentArtifact(name) => ManifestError::InconsistentArtifact(name@),
            ManifestError::MultipleObjectArtifacts => ManifestError::MultipleObjectArtifacts,
            ManifestError::MultipleDependencyArtifacts => {
                ManifestError::MultipleDependencyArtifacts
            },
            ManifestError::Json(message) => ManifestError::Json(message@),
        }
    }
}

/// The words of an error.
pub open spec fn error_text(error: ManifestError<Seq<char>>) -> Seq<char> {
    match error {
        ManifestError::UnsupportedSchema(version) => {
            "unsupported manifest schema version "@ + words::number_text(version as nat)
        },
        ManifestError::TooLarge => "manifest JSON is too large"@,
        ManifestError::TooManyArtifacts => "manifest has too many artifacts"@,
        ManifestError::DuplicateArtifact(name) => "manifest contains duplicate artifact "@ + name,
        ManifestError::UnsafeName(name) => "unsafe logical destination "@ + name,
        ManifestError::InvalidDigest => "invalid blob digest"@,
        ManifestError::BlobTooLarge => "blob size exceeds the manifest limit"@,
        ManifestError::TotalBlobTooLarge => "manifest total blob size exceeds the limit"@,
        ManifestError::NonZeroExit => "manifest must describe a successful compilation"@,
        ManifestError::InconsistentArtifact(name) => {
            "artifact kind and destination role do not agree for "@ + name
        },
        ManifestError::MultipleObjectArtifacts => {
            "manifest contains more than one object artifact"@
        },
        ManifestError::MultipleDependencyArtifacts => {
            "manifest contains more than one dependency artifact"@
        },
        ManifestError::Json(text) => "invalid manifest JSON: "@ + text,
    }
}

impl ManifestError {
    /// The words of the error.
    pub fn message(&self) -> (text: String)
        ensures
            text@ == error_text(self@),
    {
        match self {
            ManifestError::UnsupportedSchema(version) => words::two(
                "unsupported manifest schema version ",
                words::number(*version as u64).as_str(),
            ),
            ManifestError::TooLarge => "manifest JSON is too large".to_owned(),
            ManifestError::TooManyArtifacts => "manifest has too many artifacts".to_owned(),
            ManifestError::DuplicateArtifact(name) => words::two(
                "manifest contains duplicate artifact ",
                name.as_str(),
            ),
            ManifestError::UnsafeName(name) => words::two(
                "unsafe logical destination ",
                name.as_str(),
            ),
            ManifestError::InvalidDigest => "invalid blob digest".to_owned(),
            ManifestError::BlobTooLarge => "blob size exceeds the manifest limit".to_owned(),
            ManifestError::TotalBlobTooLarge => {
                "manifest total blob size exceeds the limit".to_owned()
            },
            ManifestError::NonZeroExit => {
                "manifest must describe a successful compilation".to_owned()
            },
            ManifestError::InconsistentArtifact(name) => words::two(
                "artifact kind and destination role do not agree for ",
                name.as_str(),
            ),
            ManifestError::MultipleObjectArtifacts => {
                "manifest contains more than one object artifact".to_owned()
            },
            ManifestError::MultipleDependencyArtifacts => {
                "manifest contains more than one dependency artifact".to_owned()
            },
            ManifestError::Json(text) => words::two("invalid manifest JSON: ", text.as_str()),
        }
    }
}

/// What an output of a compilation is.
#[derive(Clone, Copy, Debug, PartialEq, Eq, Hash, Structural)]
pub enum ArtifactKind {
    Object,
    Module,
    Submodule,
    Dependency,
}

/// Where an output of a compilation goes.
#[derive(Clone, Copy, Debug, PartialEq, Eq, Hash, Structural)]
pub enum DestinationRole {
    Object,
    Module,
    Submodule,
    Dependency,
}

/// Stored content, by its digest.
#[derive(Clone, Debug, PartialEq, Eq)]
pub struct BlobRef<S = String> {
    pub digest: S,
    pub size: u64,
    pub mode: u32,
}

impl View for BlobRef {
    type V = BlobRef<Seq<char>>;

    open spec fn view(&self) -> BlobRef<Seq<char>> {
        BlobRef { digest: self.digest@, size: self.size, mode: self.mode }
    }
}

/// The text of a digest: 64 lower-case hexadecimal digits.
pub open spec fn digest_text(text: Seq<char>) -> bool {
    bstr::utf8(text).len() == 64 && hex::all_digits(bstr::utf8(text), false)
}

/// A text is that of a digest.
pub fn is_digest_text(text: &str) -> (yes: bool)
    ensures
        yes == digest_text(text@),
{
    let bytes = bstr::of(text);
    bytes.len() == 64 && hex::is_hex(bytes, false)
}

/// The first fault of a blob.
pub open spec fn blob_fault(blob: BlobRef<Seq<char>>) -> Option<ManifestError<Seq<char>>> {
    if !digest_text(blob.digest) {
        Some(ManifestError::InvalidDigest)
    } else if blob.size > MAX_BLOB_SIZE {
        Some(ManifestError::BlobTooLarge)
    } else {
        None
    }
}

impl BlobRef {
    /// A reference to stored content.
    pub fn new(digest: String, size: u64, mode: u32) -> (blob: Self)
        ensures
            blob@ == (BlobRef { digest: digest@, size, mode }),
    {
        BlobRef { digest, size, mode }
    }

    /// Checks the digest and the size.
    pub fn validate(&self) -> (outcome: Result<(), ManifestError>)
        ensures
            match outcome {
                Ok(_) => blob_fault(self@) is None,
                Err(error) => blob_fault(self@) == Some(error@),
            },
    {
        if !is_digest_text(self.digest.as_str()) {
            return Err(ManifestError::InvalidDigest);
        }
        if self.size > MAX_BLOB_SIZE {
            return Err(ManifestError::BlobTooLarge);
        }
        Ok(())
    }
}

/// A copy of a reference to stored content.
pub fn copy_blob(blob: &BlobRef) -> (copied: BlobRef)
    ensures
        copied@ == blob@,
{
    BlobRef { digest: blob.digest.clone(), size: blob.size, mode: blob.mode }
}

/// One output of a compilation.
#[derive(Clone, Debug, PartialEq, Eq)]
pub struct Artifact<S = String> {
    pub kind: ArtifactKind,
    pub logical_name: S,
    pub destination_role: DestinationRole,
    pub blob: BlobRef<S>,
}

impl View for Artifact {
    type V = Artifact<Seq<char>>;

    open spec fn view(&self) -> Artifact<Seq<char>> {
        Artifact {
            kind: self.kind,
            logical_name: self.logical_name@,
            destination_role: self.destination_role,
            blob: self.blob@,
        }
    }
}

impl Artifact {
    /// An output of a compilation.
    pub fn new(
        kind: ArtifactKind,
        logical_name: &str,
        destination_role: DestinationRole,
        blob: BlobRef,
    ) -> (artifact: Self)
        ensures
            artifact@ == (Artifact {
                kind,
                logical_name: logical_name@,
                destination_role,
                blob: blob@,
            }),
    {
        Artifact { kind, logical_name: logical_name.to_owned(), destination_role, blob }
    }
}

/// The contents of a list of artifacts.
pub open spec fn artifact_views(list: Seq<Artifact>) -> Seq<Artifact<Seq<char>>> {
    list.map_values(|artifact: Artifact| artifact@)
}

/// The outputs of one successful compilation.
#[derive(Clone, Debug, PartialEq, Eq)]
pub struct Manifest {
    pub schema_version: u32,
    pub action_key: ActionKey,
    pub compiler_digest: String,
    pub artifacts: Vec<Artifact>,
    pub stdout: BlobRef,
    pub stderr: BlobRef,
    pub exit_code: i32,
}

/// The contents of a `Manifest`.
#[verifier::ext_equal]
pub struct ManifestView {
    pub schema_version: u32,
    pub action_key: Seq<u8>,
    pub compiler_digest: Seq<char>,
    pub artifacts: Seq<Artifact<Seq<char>>>,
    pub stdout: BlobRef<Seq<char>>,
    pub stderr: BlobRef<Seq<char>>,
    pub exit_code: i32,
}

impl View for Manifest {
    type V = ManifestView;

    open spec fn view(&self) -> ManifestView {
        ManifestView {
            schema_version: self.schema_version,
            action_key: self.action_key@,
            compiler_digest: self.compiler_digest@,
            artifacts: artifact_views(self.artifacts@),
            stdout: self.stdout@,
            stderr: self.stderr@,
            exit_code: self.exit_code,
        }
    }
}

/// A name that could leave the directory that it is meant for, or that no file can have.
pub open spec fn unsafe_name(name: Seq<u8>) -> bool {
    ||| name.len() == 0
    ||| name.contains(0x00)
    ||| name.contains(0x2f)
    ||| name.contains(0x5c)
    ||| name == seq![0x2eu8]
    ||| name == seq![0x2eu8, 0x2eu8]
}

/// Checks that a name stays inside the directory that it is meant for.
pub fn validate_logical_name(name: &str) -> (outcome: Result<(), ManifestError>)
    ensures
        match outcome {
            Ok(_) => !unsafe_name(bstr::utf8(name@)),
            Err(error) => unsafe_name(bstr::utf8(name@)) && error@ == ManifestError::UnsafeName(
                name@,
            ),
        },
{
    let bytes = bstr::of(name);
    let dots = (bytes.len() == 1 && bytes[0] == 0x2e) || (bytes.len() == 2 && bytes[0] == 0x2e
        && bytes[1] == 0x2e);
    proof {
        if dots {
            assert(bytes@ =~= seq![0x2eu8] || bytes@ =~= seq![0x2eu8, 0x2eu8]);
        } else {
            assert(seq![0x2eu8].len() == 1 && seq![0x2eu8, 0x2eu8].len() == 2);
            assert(bytes@ != seq![0x2eu8] && bytes@ != seq![0x2eu8, 0x2eu8]);
        }
    }
    if bytes.len() == 0 || bstr::contains(bytes, 0x00) || bstr::contains(bytes, 0x2f)
        || bstr::contains(bytes, 0x5c) || dots {
        return Err(ManifestError::UnsafeName(name.to_owned()));
    }
    Ok(())
}

/// An output of a kind goes where its role says.
pub open spec fn matching_role(kind: ArtifactKind, role: DestinationRole) -> bool {
    match kind {
        ArtifactKind::Object => role is Object,
        ArtifactKind::Module => role is Module,
        ArtifactKind::Submodule => role is Submodule,
        ArtifactKind::Dependency => role is Dependency,
    }
}

/// An output of a kind goes where its role says.
pub fn artifact_kind_matches_role(kind: ArtifactKind, role: DestinationRole) -> (yes: bool)
    ensures
        yes == matching_role(kind, role),
{
    match (kind, role) {
        (ArtifactKind::Object, DestinationRole::Object) => true,
        (ArtifactKind::Module, DestinationRole::Module) => true,
        (ArtifactKind::Submodule, DestinationRole::Submodule) => true,
        (ArtifactKind::Dependency, DestinationRole::Dependency) => true,
        _ => false,
    }
}

/// Some artifact before `count` has the given name.
pub open spec fn named_before(
    artifacts: Seq<Artifact<Seq<char>>>,
    name: Seq<char>,
    count: int,
) -> bool {
    exists|at: int| 0 <= at < count && (#[trigger] artifacts[at]).logical_name == name
}

/// The first fault of the artifact at `index`, after those before it.
pub open spec fn artifact_fault(artifacts: Seq<Artifact<Seq<char>>>, index: int) -> Option<
    ManifestError<Seq<char>>,
> {
    let artifact = artifacts[index];
    if unsafe_name(bstr::utf8(artifact.logical_name)) {
        Some(ManifestError::UnsafeName(artifact.logical_name))
    } else if named_before(artifacts, artifact.logical_name, index) {
        Some(ManifestError::DuplicateArtifact(artifact.logical_name))
    } else if !matching_role(artifact.kind, artifact.destination_role) {
        Some(ManifestError::InconsistentArtifact(artifact.logical_name))
    } else {
        blob_fault(artifact.blob)
    }
}

/// The first fault of the artifacts from `index` on.
pub open spec fn artifacts_fault(artifacts: Seq<Artifact<Seq<char>>>, index: int) -> Option<
    ManifestError<Seq<char>>,
>
    decreases artifacts.len() - index,
{
    if index >= artifacts.len() {
        None
    } else if artifact_fault(artifacts, index) is Some {
        artifact_fault(artifacts, index)
    } else {
        artifacts_fault(artifacts, index + 1)
    }
}

/// The number of artifacts with a role.
pub open spec fn count_role(artifacts: Seq<Artifact<Seq<char>>>, role: DestinationRole) -> nat
    decreases artifacts.len(),
{
    if artifacts.len() == 0 {
        0
    } else if artifacts.last().destination_role == role {
        count_role(artifacts.drop_last(), role) + 1
    } else {
        count_role(artifacts.drop_last(), role)
    }
}

/// The size of the blobs of all artifacts.
pub open spec fn artifacts_size(artifacts: Seq<Artifact<Seq<char>>>) -> nat
    decreases artifacts.len(),
{
    if artifacts.len() == 0 {
        0
    } else {
        artifacts_size(artifacts.drop_last()) + artifacts.last().blob.size as nat
    }
}

/// The size of all blobs of a manifest.
pub open spec fn payload_size(manifest: ManifestView) -> nat {
    artifacts_size(manifest.artifacts) + manifest.stdout.size as nat + manifest.stderr.size as nat
}

/// The first fault of a manifest.
pub open spec fn manifest_fault(manifest: ManifestView) -> Option<ManifestError<Seq<char>>> {
    if manifest.schema_version != SCHEMA_VERSION {
        Some(ManifestError::UnsupportedSchema(manifest.schema_version))
    } else if manifest.exit_code != 0 {
        Some(ManifestError::NonZeroExit)
    } else if !digest_text(manifest.compiler_digest) {
        Some(ManifestError::InvalidDigest)
    } else if manifest.artifacts.len() > MAX_ARTIFACTS {
        Some(ManifestError::TooManyArtifacts)
    } else if blob_fault(manifest.stdout) is Some {
        blob_fault(manifest.stdout)
    } else if blob_fault(manifest.stderr) is Some {
        blob_fault(manifest.stderr)
    } else if artifacts_fault(manifest.artifacts, 0) is Some {
        artifacts_fault(manifest.artifacts, 0)
    } else if count_role(manifest.artifacts, DestinationRole::Object) > 1 {
        Some(ManifestError::MultipleObjectArtifacts)
    } else if count_role(manifest.artifacts, DestinationRole::Dependency) > 1 {
        Some(ManifestError::MultipleDependencyArtifacts)
    } else if payload_size(manifest) > MAX_TOTAL_BLOB_SIZE {
        Some(ManifestError::TotalBlobTooLarge)
    } else {
        None
    }
}

/// Checks the size of the text of a manifest before it is read.
pub fn check_json_size(length: usize) -> (outcome: Result<(), ManifestError>)
    ensures
        match outcome {
            Ok(_) => length <= MAX_JSON_SIZE,
            Err(error) => length > MAX_JSON_SIZE && error@ == ManifestError::<Seq<char>>::TooLarge,
        },
{
    if length > MAX_JSON_SIZE {
        Err(ManifestError::TooLarge)
    } else {
        Ok(())
    }
}

/// The manifest in a text of the given length, or why there is none. `parsed` is what the text says.
pub open spec fn read_of(length: int, parsed: Result<Manifest, String>) -> Result<
    ManifestView,
    ManifestError<Seq<char>>,
> {
    if length > MAX_JSON_SIZE {
        Err(ManifestError::TooLarge)
    } else {
        match parsed {
            Err(text) => Err(ManifestError::Json(text@)),
            Ok(manifest) => match manifest_fault(manifest@) {
                Some(fault) => Err(fault),
                None => Ok(manifest@),
            },
        }
    }
}

impl Manifest {
    /// The manifest of a successful compilation.
    pub fn new(
        action_key: ActionKey,
        compiler_digest: String,
        artifacts: Vec<Artifact>,
        stdout: BlobRef,
        stderr: BlobRef,
    ) -> (manifest: Self)
        ensures
            manifest@ == (ManifestView {
                schema_version: SCHEMA_VERSION,
                action_key: action_key@,
                compiler_digest: compiler_digest@,
                artifacts: artifact_views(artifacts@),
                stdout: stdout@,
                stderr: stderr@,
                exit_code: 0,
            }),
    {
        Manifest {
            schema_version: SCHEMA_VERSION,
            action_key,
            compiler_digest,
            artifacts,
            stdout,
            stderr,
            exit_code: 0,
        }
    }

    fn validate_artifact(&self, index: usize) -> (outcome: Result<(), ManifestError>)
        requires
            index < self.artifacts@.len(),
        ensures
            match outcome {
                Ok(_) => artifact_fault(self@.artifacts, index as int) is None,
                Err(error) => artifact_fault(self@.artifacts, index as int) == Some(error@),
            },
    {
        let ghost all = self@.artifacts;
        let artifact = &self.artifacts[index];
        assert(all[index as int] == artifact@);
        validate_logical_name(artifact.logical_name.as_str())?;
        let mut earlier: usize = 0;
        while earlier < index
            invariant
                earlier <= index < self.artifacts@.len(),
                all == self@.artifacts,
                artifact@ == all[index as int],
                !unsafe_name(bstr::utf8(artifact@.logical_name)),
                forall|at: int|
                    0 <= at < earlier ==> (#[trigger] all[at]).logical_name
                        != artifact@.logical_name,
            decreases index - earlier,
        {
            assert(all[earlier as int] == self.artifacts@[earlier as int]@);
            if self.artifacts[earlier].logical_name == artifact.logical_name {
                assert(all[earlier as int].logical_name == artifact@.logical_name);
                return Err(ManifestError::DuplicateArtifact(artifact.logical_name.clone()));
            }
            earlier += 1;
        }
        if !artifact_kind_matches_role(artifact.kind, artifact.destination_role) {
            return Err(ManifestError::InconsistentArtifact(artifact.logical_name.clone()));
        }
        artifact.blob.validate()
    }

    /// The manifest in a text of the given length. `parsed` is what the text says.
    pub fn from_json(length: usize, parsed: Result<Manifest, String>) -> (outcome: Result<
        Manifest,
        ManifestError,
    >)
        ensures
            match outcome {
                Ok(manifest) => read_of(length as int, parsed) == Ok::<
                    ManifestView,
                    ManifestError<Seq<char>>,
                >(manifest@),
                Err(error) => read_of(length as int, parsed) == Err::<
                    ManifestView,
                    ManifestError<Seq<char>>,
                >(error@),
            },
    {
        check_json_size(length)?;
        match parsed {
            Ok(manifest) => {
                manifest.validate()?;
                Ok(manifest)
            },
            Err(text) => Err(ManifestError::Json(text)),
        }
    }

    /// The text of a manifest. `written` is what writing it gave.
    pub fn to_json(&self, written: Result<Vec<u8>, String>) -> (outcome: Result<
        Vec<u8>,
        ManifestError,
    >)
        ensures
            match outcome {
                Ok(text) => manifest_fault(self@) is None && written == Ok::<Vec<u8>, String>(text),
                Err(error) => match manifest_fault(self@) {
                    Some(fault) => error@ == fault,
                    None => written is Err && error@ == ManifestError::<Seq<char>>::Json(
                        written->Err_0@,
                    ),
                },
            },
    {
        self.validate()?;
        match written {
            Ok(text) => Ok(text),
            Err(text) => Err(ManifestError::Json(text)),
        }
    }

    /// Checks a manifest.
    pub fn validate(&self) -> (outcome: Result<(), ManifestError>)
        ensures
            match outcome {
                Ok(_) => manifest_fault(self@) is None,
                Err(error) => manifest_fault(self@) == Some(error@),
            },
    {
        if self.schema_version != SCHEMA_VERSION {
            return Err(ManifestError::UnsupportedSchema(self.schema_version));
        }
        if self.exit_code != 0 {
            return Err(ManifestError::NonZeroExit);
        }
        if !is_digest_text(self.compiler_digest.as_str()) {
            return Err(ManifestError::InvalidDigest);
        }
        if self.artifacts.len() > MAX_ARTIFACTS {
            return Err(ManifestError::TooManyArtifacts);
        }
        self.stdout.validate()?;
        self.stderr.validate()?;
        let ghost all = self@.artifacts;
        let mut total: u64 = self.stdout.size + self.stderr.size;
        let mut object_count: usize = 0;
        let mut dependency_count: usize = 0;
        let mut index: usize = 0;
        assert(all.take(0) =~= Seq::empty());
        while index < self.artifacts.len()
            invariant
                index <= self.artifacts.len() <= MAX_ARTIFACTS,
                all == self@.artifacts,
                all.len() == self.artifacts.len(),
                self.schema_version == SCHEMA_VERSION,
                self.exit_code == 0,
                digest_text(self@.compiler_digest),
                blob_fault(self@.stdout) is None,
                blob_fault(self@.stderr) is None,
                artifacts_fault(all, 0) == artifacts_fault(all, index as int),
                object_count == count_role(all.take(index as int), DestinationRole::Object),
                dependency_count == count_role(all.take(index as int), DestinationRole::Dependency),
                object_count <= index,
                dependency_count <= index,
                total == artifacts_size(all.take(index as int)) + self.stdout.size
                    + self.stderr.size,
                total <= (index + 2) * MAX_BLOB_SIZE,
            decreases self.artifacts.len() - index,
        {
            let artifact = &self.artifacts[index];
            assert(all[index as int] == artifact@);
            assert(all.take(index + 1).drop_last() =~= all.take(index as int));
            assert(all.take(index + 1).last() == artifact@);
            self.validate_artifact(index)?;
            match artifact.destination_role {
                DestinationRole::Object => {
                    object_count += 1;
                },
                DestinationRole::Dependency => {
                    dependency_count += 1;
                },
                DestinationRole::Module => {},
                DestinationRole::Submodule => {},
            }
            total = total + artifact.blob.size;
            index += 1;
        }
        assert(all.take(index as int) =~= all);
        if object_count > 1 {
            return Err(ManifestError::MultipleObjectArtifacts);
        }
        if dependency_count > 1 {
            return Err(ManifestError::MultipleDependencyArtifacts);
        }
        if total > MAX_TOTAL_BLOB_SIZE {
            return Err(ManifestError::TotalBlobTooLarge);
        }
        Ok(())
    }

    /// The size of all blobs of a manifest. A manifest that passes its checks has a size.
    pub fn payload(&self) -> (size: Option<u64>)
        ensures
            match size {
                Some(bytes) => bytes == payload_size(self@),
                None => payload_size(self@) > u64::MAX,
            },
    {
        let ghost all = self@.artifacts;
        let mut total: u64 = match self.stdout.size.checked_add(self.stderr.size) {
            Some(total) => total,
            None => {
                return None;
            },
        };
        let mut index: usize = 0;
        assert(all.take(0) =~= Seq::empty());
        while index < self.artifacts.len()
            invariant
                index <= self.artifacts.len(),
                all == self@.artifacts,
                all.len() == self.artifacts.len(),
                total == artifacts_size(all.take(index as int)) + self.stdout.size
                    + self.stderr.size,
            decreases self.artifacts.len() - index,
        {
            assert(all[index as int] == self.artifacts@[index as int]@);
            assert(all.take(index + 1).drop_last() =~= all.take(index as int));
            assert(all.take(index + 1).last() == self.artifacts@[index as int]@);
            match total.checked_add(self.artifacts[index].blob.size) {
                Some(sum) => {
                    total = sum;
                },
                None => {
                    proof {
                        lemma_artifacts_size_grows(all, index + 1);
                    }
                    return None;
                },
            }
            index += 1;
        }
        assert(all.take(index as int) =~= all);
        Some(total)
    }
}

proof fn lemma_artifacts_size_grows(artifacts: Seq<Artifact<Seq<char>>>, count: int)
    requires
        0 <= count <= artifacts.len(),
    ensures
        artifacts_size(artifacts.take(count)) <= artifacts_size(artifacts),
    decreases artifacts.len() - count,
{
    if count < artifacts.len() {
        assert(artifacts.take(count + 1).drop_last() =~= artifacts.take(count));
        lemma_artifacts_size_grows(artifacts, count + 1);
    } else {
        assert(artifacts.take(count) =~= artifacts);
    }
}

/// What holds of a manifest that passes its checks.
pub open spec fn valid(manifest: ManifestView) -> bool {
    &&& manifest.schema_version == SCHEMA_VERSION
    &&& manifest.exit_code == 0
    &&& digest_text(manifest.compiler_digest)
    &&& manifest.artifacts.len() <= MAX_ARTIFACTS
    &&& blob_fault(manifest.stdout) is None
    &&& blob_fault(manifest.stderr) is None
    &&& forall|at: int|
        0 <= at < manifest.artifacts.len() ==> {
            &&& !unsafe_name(bstr::utf8((#[trigger] manifest.artifacts[at]).logical_name))
            &&& matching_role(
                manifest.artifacts[at].kind,
                manifest.artifacts[at].destination_role,
            )
            &&& blob_fault(manifest.artifacts[at].blob) is None
        }
    &&& forall|left: int, right: int|
        0 <= left < right < manifest.artifacts.len() ==> (
        #[trigger] manifest.artifacts[left]).logical_name != (
        #[trigger] manifest.artifacts[right]).logical_name
    &&& count_role(manifest.artifacts, DestinationRole::Object) <= 1
    &&& count_role(manifest.artifacts, DestinationRole::Dependency) <= 1
    &&& payload_size(manifest) <= MAX_TOTAL_BLOB_SIZE
}

proof fn lemma_artifacts_fault(artifacts: Seq<Artifact<Seq<char>>>, index: int)
    requires
        0 <= index,
    ensures
        artifacts_fault(artifacts, index) is None <==> forall|at: int|
            index <= at < artifacts.len() ==> (#[trigger] artifact_fault(artifacts, at)) is None,
    decreases artifacts.len() - index,
{
    if index < artifacts.len() {
        lemma_artifacts_fault(artifacts, index + 1);
        if artifact_fault(artifacts, index) is None && artifacts_fault(artifacts, index + 1)
            is None {
            assert forall|at: int| index <= at < artifacts.len() implies (
            #[trigger] artifact_fault(artifacts, at)) is None by {
                if at > index {
                    assert(index + 1 <= at);
                }
            }
        }
    }
}

/// A manifest passes its checks exactly where it describes one successful compilation completely
/// and safely: known schema and exit code zero, safe and distinct names, roles that agree with the
/// kinds, at most one object and one depfile, and all sizes within their limits.
pub proof fn law_accepted_manifests_are_valid(manifest: ManifestView)
    ensures
        manifest_fault(manifest) is None <==> valid(manifest),
{
    let artifacts = manifest.artifacts;
    lemma_artifacts_fault(artifacts, 0);
    if artifacts_fault(artifacts, 0) is None {
        assert forall|at: int| 0 <= at < artifacts.len() implies {
            &&& !unsafe_name(bstr::utf8((#[trigger] artifacts[at]).logical_name))
            &&& matching_role(artifacts[at].kind, artifacts[at].destination_role)
            &&& blob_fault(artifacts[at].blob) is None
        } by {
            assert(artifact_fault(artifacts, at) is None);
        }
        assert forall|left: int, right: int| 0 <= left < right < artifacts.len() implies (
        #[trigger] artifacts[left]).logical_name != (#[trigger] artifacts[right]).logical_name by {
            assert(artifact_fault(artifacts, right) is None);
        }
    }
    if valid(manifest) {
        assert forall|at: int| 0 <= at < artifacts.len() implies (
        #[trigger] artifact_fault(artifacts, at)) is None by {
            assert(!unsafe_name(bstr::utf8(artifacts[at].logical_name)));
        }
    }
}

/// A content reference names 32 bytes in lower-case hexadecimal, and at most a gigabyte.
pub open spec fn sound_blob(blob: BlobRef<Seq<char>>) -> bool {
    let text = bstr::utf8(blob.digest);
    &&& text.len() == 64
    &&& forall|at: int|
        0 <= at < 64 ==> (0x30 <= #[trigger] text[at] <= 0x39) || (0x61 <= text[at] <= 0x66)
    &&& blob.size <= 1024 * 1024 * 1024
}

/// The bytes of the artifacts together.
pub open spec fn total_size(artifacts: Seq<Artifact<Seq<char>>>) -> nat
    decreases artifacts.len(),
{
    if artifacts.len() == 0 {
        0
    } else {
        artifacts[0].blob.size as nat + total_size(artifacts.skip(1))
    }
}

proof fn lemma_total_size(artifacts: Seq<Artifact<Seq<char>>>)
    ensures
        total_size(artifacts) == artifacts_size(artifacts),
    decreases artifacts.len(),
{
    if artifacts.len() == 1 {
        assert(artifacts.skip(1) =~= Seq::empty());
        assert(artifacts.drop_last() =~= Seq::empty());
        assert(artifacts_size(artifacts.drop_last()) == 0);
        assert(total_size(artifacts.skip(1)) == 0);
    } else if artifacts.len() > 1 {
        let middle = artifacts.skip(1).drop_last();
        lemma_total_size(artifacts.skip(1));
        lemma_total_size(artifacts.drop_last());
        lemma_total_size(middle);
        assert(artifacts.drop_last().skip(1) =~= middle);
        assert(artifacts.skip(1).last() == artifacts.last());
    }
}

proof fn lemma_count_role(
    artifacts: Seq<Artifact<Seq<char>>>,
    role: DestinationRole,
)
    ensures
        count_role(artifacts, role) == 0 <==> forall|at: int|
            0 <= at < artifacts.len() ==> (#[trigger] artifacts[at]).destination_role != role,
        count_role(artifacts, role) <= 1 <==> forall|left: int, right: int|
            0 <= left < right < artifacts.len() ==> !((
            #[trigger] artifacts[left]).destination_role == role && (
            #[trigger] artifacts[right]).destination_role == role),
    decreases artifacts.len(),
{
    if artifacts.len() > 0 {
        let shorter = artifacts.drop_last();
        let last = artifacts.len() - 1;
        lemma_count_role(shorter, role);
        assert forall|at: int| 0 <= at < last implies #[trigger] shorter[at] == artifacts[at] by {}
        if artifacts[last].destination_role == role {
            if count_role(shorter, role) > 0 {
                let at = choose|at: int|
                    0 <= at < shorter.len() && (#[trigger] shorter[at]).destination_role == role;
                assert(artifacts[at].destination_role == role && artifacts[last].destination_role
                    == role);
            } else {
                assert forall|left: int, right: int|
                    0 <= left < right < artifacts.len() implies !((
                #[trigger] artifacts[left]).destination_role == role && (
                #[trigger] artifacts[right]).destination_role == role) by {
                    assert(shorter[left].destination_role != role);
                }
            }
        } else {
            if count_role(shorter, role) > 1 {
                let (left, right) = choose|left: int, right: int|
                    0 <= left < right < shorter.len() && (
                    #[trigger] shorter[left]).destination_role == role && (
                    #[trigger] shorter[right]).destination_role == role;
                assert(artifacts[left].destination_role == role
                    && artifacts[right].destination_role == role);
            } else {
                assert forall|left: int, right: int|
                    0 <= left < right < artifacts.len() implies !((
                #[trigger] artifacts[left]).destination_role == role && (
                #[trigger] artifacts[right]).destination_role == role) by {
                    if right < last {
                        assert(shorter[left] == artifacts[left] && shorter[right]
                            == artifacts[right]);
                    }
                }
            }
            if count_role(shorter, role) > 0 {
                let at = choose|at: int|
                    0 <= at < shorter.len() && (#[trigger] shorter[at]).destination_role == role;
                assert(artifacts[at].destination_role == role);
            }
        }
        if count_role(artifacts, role) == 0 {
            assert forall|at: int| 0 <= at < artifacts.len() implies (
            #[trigger] artifacts[at]).destination_role != role by {
                if at < last {
                    assert(shorter[at].destination_role != role);
                }
            }
        } else if artifacts[last].destination_role == role {
            assert(!(forall|at: int|
                0 <= at < artifacts.len() ==> (#[trigger] artifacts[at]).destination_role != role));
        }
    }
}

/// A manifest is accepted exactly where it tells of a compilation that ended with zero, in the first
/// form of manifests, with at most 256 artifacts of two gigabytes together, the two streams counted
/// in. Names are no paths and are distinct, roles agree with kinds, and there is at most one object
/// and one depfile.
pub proof fn law_which_manifests_are_accepted(manifest: ManifestView)
    ensures
        manifest_fault(manifest) is None <==> {
            let artifacts = manifest.artifacts;
            &&& manifest.schema_version == 1
            &&& manifest.exit_code == 0
            &&& sound_blob(
                BlobRef { digest: manifest.compiler_digest, size: 0, mode: 0 },
            )
            &&& artifacts.len() <= 256
            &&& sound_blob(manifest.stdout)
            &&& sound_blob(manifest.stderr)
            &&& forall|at: int|
                0 <= at < artifacts.len() ==> {
                    let artifact = #[trigger] artifacts[at];
                    let name = bstr::utf8(artifact.logical_name);
                    &&& sound_blob(artifact.blob)
                    &&& name.len() > 0 && name != seq![0x2eu8] && name != seq![0x2eu8, 0x2eu8]
                    &&& !name.contains(0x00) && !name.contains(0x2f) && !name.contains(0x5c)
                    &&& artifact.kind is Object <==> artifact.destination_role is Object
                    &&& artifact.kind is Module <==> artifact.destination_role is Module
                    &&& artifact.kind is Submodule <==> artifact.destination_role is Submodule
                    &&& artifact.kind is Dependency <==> artifact.destination_role is Dependency
                }
            &&& forall|left: int, right: int|
                0 <= left < right < artifacts.len() ==> {
                    let one = #[trigger] artifacts[left];
                    let other = #[trigger] artifacts[right];
                    &&& one.logical_name != other.logical_name
                    &&& !(one.destination_role is Object && other.destination_role is Object)
                    &&& !(one.destination_role is Dependency && other.destination_role
                        is Dependency)
                }
            &&& total_size(artifacts) + manifest.stdout.size + manifest.stderr.size <= 2 * 1024
                * 1024 * 1024
        },
{
    let artifacts = manifest.artifacts;
    law_accepted_manifests_are_valid(manifest);
    lemma_total_size(artifacts);
    lemma_count_role(artifacts, DestinationRole::Object);
    lemma_count_role(artifacts, DestinationRole::Dependency);
    lemma_sound(BlobRef { digest: manifest.compiler_digest, size: 0, mode: 0 });
    lemma_sound(manifest.stdout);
    lemma_sound(manifest.stderr);
    assert forall|at: int| 0 <= at < artifacts.len() implies (blob_fault(
        (#[trigger] artifacts[at]).blob,
    ) is None <==> sound_blob(artifacts[at].blob)) by {
        lemma_sound(artifacts[at].blob);
    }
}

/// What makes a reference sound is what its checks ask for.
pub proof fn lemma_sound(blob: BlobRef<Seq<char>>)
    ensures
        blob_fault(blob) is None <==> sound_blob(blob),
        digest_text(blob.digest) && blob.size == 0 ==> sound_blob(blob),
{
    let text = bstr::utf8(blob.digest);
    if digest_text(blob.digest) {
        assert forall|at: int| 0 <= at < 64 implies (0x30 <= #[trigger] text[at] <= 0x39) || (0x61
            <= text[at] <= 0x66) by {
            assert(hex::digit_value(text[at], false) is Some);
        }
    }
    if sound_blob(blob) {
        assert forall|at: int| 0 <= at < text.len() implies hex::digit_value(
            #[trigger] text[at],
            false,
        ) is Some by {
            assert((0x30 <= text[at] <= 0x39) || (0x61 <= text[at] <= 0x66));
        }
    }
}

/// A stored manifest is read where its text is at most four megabytes, can be parsed, and is
/// accepted.
pub proof fn law_which_manifests_are_read(length: int, parsed: Result<Manifest, String>)
    ensures
        read_of(length, parsed) is Ok <==> length <= 4 * 1024 * 1024 && parsed is Ok
            && manifest_fault(parsed->Ok_0@) is None,
        read_of(length, parsed) is Ok ==> read_of(length, parsed)->Ok_0 == parsed->Ok_0@,
{
}

} // verus!
