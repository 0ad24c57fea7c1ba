//! Persistent observations used to prove compiler-free direct cache hits.
//!
//! A record keeps, for one action, every input with the exact file that satisfied it, and every
//! path that must stay absent. It is trusted only where its schema holds and all that it witnesses
//! is found again as it was.
use vstd::prelude::*;

use crate::bstr;
use crate::cache::key::ActionKey;
use crate::cache::manifest;
use crate::cache::manifest::ArtifactKind;
use crate::cache::request::DirectRequestKey;
use crate::digest;
use crate::hex;
use crate::upath;
use crate::words;

verus! {

pub const DIRECT_RECORD_SCHEMA_VERSION: u32 = 2;

pub const DIRECT_INDEX_SCHEMA_VERSION: u32 = 2;

pub const MAX_DIRECT_CANDIDATES: usize = 4;

pub const MAX_DIRECT_INDEX_SIZE: usize = 0x40_0000;

pub const MAX_DIRECT_INPUTS: usize = 4096;

pub const MAX_SEARCH_ROOTS: usize = 1024;

pub const MAX_RESOLUTION_WITNESSES: usize = 16_384;

pub const MAX_EXPECTED_ARTIFACTS: usize = 256;

pub const MAX_PATH_BYTES: usize = 0x1_0000;

pub const MAX_OBSERVATION_BYTES: u64 = 0x40_0000;

pub const MAX_SYMLINKS_PER_PATH: usize = 256;

/// Why a direct record is refused.
#[derive(Clone, Copy, Debug, PartialEq, Eq, Structural)]
pub enum DirectRecordError {
    UnsupportedRecordSchema(u32),
    PathTooLong,
    NulPath,
    NonAbsoluteResolvedPath,
    TooManySymlinks,
    InvalidWitnessType,
    InvalidInputCount,
    InvalidInput,
    TooManySearchRoots,
    TooManyResolutionWitnesses,
    InvalidSelectedInput,
    IncompleteResolutionProof,
    InvalidArtifactCount,
    InvalidArtifact,
    InvalidDepfile,
    InvalidPreprocessor,
    InvalidDigest,
}

/// The words of an error of a record.
pub open spec fn record_error_text(error: DirectRecordError) -> Seq<char> {
    match error {
        DirectRecordError::UnsupportedRecordSchema(version) => {
            "unsupported direct record schema version "@ + words::number_text(version as nat)
        },
        DirectRecordError::PathTooLong => "direct path exceeds the size limit"@,
        DirectRecordError::NulPath => "direct path contains a NUL byte"@,
        DirectRecordError::NonAbsoluteResolvedPath => {
            "resolved and canonical witness paths must be absolute"@
        },
        DirectRecordError::TooManySymlinks => "path witness has too many symlinks"@,
        DirectRecordError::InvalidWitnessType => "path witness has an inconsistent file type"@,
        DirectRecordError::InvalidInputCount => "direct record has an invalid input count"@,
        DirectRecordError::InvalidInput => "direct input is inconsistent with its path witness"@,
        DirectRecordError::TooManySearchRoots => "direct record has too many search roots"@,
        DirectRecordError::TooManyResolutionWitnesses => {
            "direct record has too many resolution witnesses"@
        },
        DirectRecordError::InvalidSelectedInput => {
            "positive resolution refers to an unknown input"@
        },
        DirectRecordError::IncompleteResolutionProof => {
            "direct record does not prove every compiler-observed prerequisite"@
        },
        DirectRecordError::InvalidArtifactCount => "direct record has an invalid artifact count"@,
        DirectRecordError::InvalidArtifact => "direct record has a duplicate or invalid artifact"@,
        DirectRecordError::InvalidDepfile => "direct record has an invalid dependency-file shape"@,
        DirectRecordError::InvalidPreprocessor => {
            "direct record has an invalid preprocessor observation"@
        },
        DirectRecordError::InvalidDigest => "invalid hexadecimal digest"@,
    }
}

impl DirectRecordError {
    /// The words of the error.
    pub fn message(&self) -> (text: String)
        ensures
            text@ == record_error_text(*self),
    {
        match self {
            DirectRecordError::UnsupportedRecordSchema(version) => words::two(
                "unsupported direct record schema version ",
                words::number(*version as u64).as_str(),
            ),
            DirectRecordError::PathTooLong => "direct path exceeds the size limit".to_owned(),
            DirectRecordError::NulPath => "direct path contains a NUL byte".to_owned(),
            DirectRecordError::NonAbsoluteResolvedPath => {
                "resolved and canonical witness paths must be absolute".to_owned()
            },
            DirectRecordError::TooManySymlinks => "path witness has too many symlinks".to_owned(),
            DirectRecordError::InvalidWitnessType => {
                "path witness has an inconsistent file type".to_owned()
            },
            DirectRecordError::InvalidInputCount => {
                "direct record has an invalid input count".to_owned()
            },
            DirectRecordError::InvalidInput => {
                "direct input is inconsistent with its path witness".to_owned()
            },
            DirectRecordError::TooManySearchRoots => {
                "direct record has too many search roots".to_owned()
            },
            DirectRecordError::TooManyResolutionWitnesses => {
                "direct record has too many resolution witnesses".to_owned()
            },
            DirectRecordError::InvalidSelectedInput => {
                "positive resolution refers to an unknown input".to_owned()
            },
            DirectRecordError::IncompleteResolutionProof => {
                "direct record does not prove every compiler-observed prerequisite".to_owned()
            },
            DirectRecordError::InvalidArtifactCount => {
                "direct record has an invalid artifact count".to_owned()
            },
            DirectRecordError::InvalidArtifact => {
                "direct record has a duplicate or invalid artifact".to_owned()
            },
            DirectRecordError::InvalidDepfile => {
                "direct record has an invalid dependency-file shape".to_owned()
            },
            DirectRecordError::InvalidPreprocessor => {
                "direct record has an invalid preprocessor observation".to_owned()
            },
            DirectRecordError::InvalidDigest => "invalid hexadecimal digest".to_owned(),
        }
    }
}

/// A byte-preserving operating-system string stored in direct-index metadata.
#[derive(Clone, Debug, Default, PartialEq, Eq, PartialOrd, Ord, Hash)]
pub struct EncodedOsString {
    pub bytes: Vec<u8>,
}

impl View for EncodedOsString {
    type V = Seq<u8>;

    open spec fn view(&self) -> Seq<u8> {
        self.bytes@
    }
}

/// The fault of an operating-system string.
pub open spec fn string_fault(bytes: Seq<u8>) -> Option<DirectRecordError> {
    if bytes.len() > MAX_PATH_BYTES {
        Some(DirectRecordError::PathTooLong)
    } else if bytes.contains(0) {
        Some(DirectRecordError::NulPath)
    } else {
        None
    }
}

impl EncodedOsString {
    /// The string with the given bytes.
    pub fn new(bytes: Vec<u8>) -> (value: Self)
        ensures
            value@ == bytes@,
    {
        EncodedOsString { bytes }
    }

    /// The stored form of an operating-system string.
    pub fn from_os_str(value: &[u8]) -> (stored: Self)
        ensures
            stored@ == value@,
    {
        EncodedOsString { bytes: bstr::copy(value) }
    }

    /// The stored form of a path.
    pub fn from_path(value: &[u8]) -> (stored: Self)
        ensures
            stored@ == value@,
    {
        EncodedOsString { bytes: bstr::copy(value) }
    }

    /// The bytes of the string.
    pub fn as_bytes(&self) -> (bytes: &[u8])
        ensures
            bytes@ == self@,
    {
        self.bytes.as_slice()
    }

    /// The operating-system string.
    pub fn to_os_string(&self) -> (value: Vec<u8>)
        ensures
            value@ == self@,
    {
        bstr::copy(self.bytes.as_slice())
    }

    /// The path.
    pub fn to_path_buf(&self) -> (path: Vec<u8>)
        ensures
            path@ == self@,
    {
        bstr::copy(self.bytes.as_slice())
    }

    /// The text in which the string is stored.
    pub fn to_hex(&self) -> (text: String)
        ensures
            text@ == hex::hex_text(self@),
    {
        hex::encode(self.bytes.as_slice())
    }

    /// Reads a string from its stored text, which has only lower-case digits.
    pub fn from_hex(text: &str) -> (value: Option<Self>)
        ensures
            match value {
                Some(stored) => hex::decoded(bstr::utf8(text@), false) == Some(stored@),
                None => hex::decoded(bstr::utf8(text@), false) is None,
            },
    {
        match hex::decode(bstr::of(text), false) {
            Some(bytes) => Some(EncodedOsString { bytes }),
            None => None,
        }
    }

    /// Two strings are equal.
    pub fn same(&self, other: &EncodedOsString) -> (equal: bool)
        ensures
            equal == (self@ == other@),
    {
        bstr::same(self.bytes.as_slice(), other.bytes.as_slice())
    }

    fn validate(&self) -> (outcome: Result<(), DirectRecordError>)
        ensures
            match outcome {
                Ok(_) => string_fault(self@) is None,
                Err(error) => string_fault(self@) == Some(error),
            },
    {
        if self.bytes.len() > MAX_PATH_BYTES {
            return Err(DirectRecordError::PathTooLong);
        }
        if bstr::contains(self.bytes.as_slice(), 0) {
            return Err(DirectRecordError::NulPath);
        }
        Ok(())
    }
}

/// A stored operating-system string reads back byte for byte.
pub proof fn law_encoded_string_round_trip(bytes: Seq<u8>)
    ensures
        hex::decoded(bstr::utf8(hex::hex_text(bytes)), false) == Some(bytes),
{
    hex::law_hex_round_trip(bytes, false);
}

/// A BLAKE3 digest used by direct observations.
#[derive(Clone, Copy, Debug, PartialEq, Eq, PartialOrd, Ord, Hash)]
pub struct DirectDigest {
    pub bytes: [u8; 32],
}

impl View for DirectDigest {
    type V = Seq<u8>;

    open spec fn view(&self) -> Seq<u8> {
        self.bytes@
    }
}

/// The digest that a text of 64 lower-case hexadecimal digits stands for.
pub open spec fn digest_of(text: Seq<u8>) -> Option<Seq<u8>> {
    if text.len() == 64 {
        hex::decoded(text, false)
    } else {
        None
    }
}

impl DirectDigest {
    /// The digest with the given bytes.
    pub fn from_bytes(bytes: [u8; 32]) -> (digest: Self)
        ensures
            digest@ == bytes@,
    {
        DirectDigest { bytes }
    }

    /// The digest of a byte string.
    pub fn hash(bytes: &[u8]) -> (digest: Self)
        ensures
            digest@ == digest::blake3_digest(bytes@),
    {
        DirectDigest { bytes: digest::hash(bytes) }
    }

    /// The bytes of the digest.
    pub fn as_bytes(&self) -> (bytes: &[u8; 32])
        ensures
            bytes@ == self@,
    {
        &self.bytes
    }

    /// The digest in lower-case hexadecimal.
    pub fn to_hex(&self) -> (text: String)
        ensures
            text@ == hex::hex_text(self@),
    {
        hex::encode(self.bytes.as_slice())
    }

    /// Reads a digest from lower-case hexadecimal text.
    pub fn parse(value: &str) -> (outcome: Result<Self, DirectRecordError>)
        ensures
            match outcome {
                Ok(found) => digest_of(bstr::utf8(value@)) == Some(found@),
                Err(error) => error is InvalidDigest && digest_of(bstr::utf8(value@)) is None,
            },
    {
        match hex::decode_32(bstr::of(value), false) {
            Some(bytes) => Ok(DirectDigest { bytes }),
            None => Err(DirectRecordError::InvalidDigest),
        }
    }

    /// Two digests are equal.
    pub fn same(&self, other: &DirectDigest) -> (equal: bool)
        ensures
            equal == (self@ == other@),
    {
        digest::same(&self.bytes, &other.bytes)
    }
}

impl DirectRequestKey {
    /// Reads a request key from lower-case hexadecimal text.
    pub fn parse(value: &str) -> (outcome: Result<Self, DirectRecordError>)
        ensures
            match outcome {
                Ok(key) => digest_of(bstr::utf8(value@)) == Some(key@),
                Err(error) => error is InvalidDigest && digest_of(bstr::utf8(value@)) is None,
            },
    {
        let found = DirectDigest::parse(value)?;
        Ok(DirectRequestKey { bytes: found.bytes })
    }
}

/// A digest or request key that is written in hexadecimal reads back as it was.
pub proof fn law_digest_text_round_trip(digest: Seq<u8>)
    requires
        digest.len() == 32,
    ensures
        digest_of(bstr::utf8(hex::hex_text(digest))) == Some(digest),
{
    hex::law_hex_round_trip(digest, false);
    hex::lemma_hex_bytes(digest);
}

/// The type of a witnessed file.
#[derive(Clone, Copy, Debug, PartialEq, Eq, Structural)]
pub enum WitnessFileType {
    Regular,
    Directory,
    Symlink,
}

/// Metadata fields used to detect replacement or mutation of a witnessed path.
#[derive(Clone, Copy, Debug, PartialEq, Eq, Structural)]
pub struct MetadataWitness {
    pub file_type: WitnessFileType,
    pub size: u64,
    pub mode: u32,
    pub device: u64,
    pub inode: u64,
    pub modified_seconds: i64,
    pub modified_nanoseconds: i64,
    pub changed_seconds: i64,
    pub changed_nanoseconds: i64,
}

/// A symbolic link on the way to a witnessed path.
#[derive(Clone, Debug, PartialEq, Eq)]
pub struct SymlinkWitness {
    pub path: EncodedOsString,
    pub target: EncodedOsString,
    pub metadata: MetadataWitness,
}

/// Canonical and symlink identity for a resolved filesystem path.
#[derive(Clone, Debug, PartialEq, Eq)]
pub struct PathWitness {
    pub resolved_path: EncodedOsString,
    pub canonical_path: EncodedOsString,
    pub metadata: MetadataWitness,
    pub symlinks: Vec<SymlinkWitness>,
}

/// Two links have the same path, target and metadata.
pub open spec fn same_symlink(left: SymlinkWitness, right: SymlinkWitness) -> bool {
    left.path@ == right.path@ && left.target@ == right.target@ && left.metadata == right.metadata
}

/// Two lists of links are the same.
pub open spec fn same_symlinks(left: Seq<SymlinkWitness>, right: Seq<SymlinkWitness>) -> bool {
    left.len() == right.len() && forall|at: int|
        0 <= at < left.len() ==> same_symlink(#[trigger] left[at], right[at])
}

/// A witnessed path is found again. Of files and directories the way to them counts, not their own
/// metadata: contents are compared by digest, and directories change with their entries.
pub open spec fn identical(
    witness: PathWitness,
    current: PathWitness,
    expected_type: WitnessFileType,
) -> bool {
    &&& witness.resolved_path@ == current.resolved_path@
    &&& witness.canonical_path@ == current.canonical_path@
    &&& same_symlinks(witness.symlinks@, current.symlinks@)
    &&& match expected_type {
        WitnessFileType::Symlink => witness.metadata == current.metadata,
        _ => witness.metadata.file_type == current.metadata.file_type,
    }
}

/// The fault of a link.
pub open spec fn symlink_fault(symlink: SymlinkWitness) -> Option<DirectRecordError> {
    if string_fault(symlink.path@) is Some {
        string_fault(symlink.path@)
    } else if string_fault(symlink.target@) is Some {
        string_fault(symlink.target@)
    } else if !(symlink.metadata.file_type is Symlink) {
        Some(DirectRecordError::InvalidWitnessType)
    } else {
        None
    }
}

/// The first fault of the links from `index` on.
pub open spec fn symlinks_fault(list: Seq<SymlinkWitness>, index: int) -> Option<DirectRecordError>
    decreases list.len() - index,
{
    if index >= list.len() {
        None
    } else if symlink_fault(list[index]) is Some {
        symlink_fault(list[index])
    } else {
        symlinks_fault(list, index + 1)
    }
}

/// The first fault of a witnessed path.
pub open spec fn path_fault(witness: PathWitness) -> Option<DirectRecordError> {
    if string_fault(witness.resolved_path@) is Some {
        string_fault(witness.resolved_path@)
    } else if string_fault(witness.canonical_path@) is Some {
        string_fault(witness.canonical_path@)
    } else if !upath::absolute(witness.resolved_path@) || !upath::absolute(
        witness.canonical_path@,
    ) {
        Some(DirectRecordError::NonAbsoluteResolvedPath)
    } else if witness.symlinks@.len() > MAX_SYMLINKS_PER_PATH {
        Some(DirectRecordError::TooManySymlinks)
    } else {
        symlinks_fault(witness.symlinks@, 0)
    }
}

/// Why the filesystem no longer agrees with a record.
#[derive(Clone, Debug, PartialEq, Eq)]
pub enum DirectValidationError<B = Vec<u8>, S = String> {
    Record(DirectRecordError),
    WitnessChanged(B),
    ContentChanged(B),
    PathChanged { path: B, source: S },
    NegativeCandidateChanged { path: B, source: S },
}

impl View for DirectValidationError {
    type V = DirectValidationError<Seq<u8>, Seq<char>>;

    open spec fn view(&self) -> DirectValidationError<Seq<u8>, Seq<char>> {
        match *self {
            DirectValidationError::Record(error) => DirectValidationError::Record(error),
            DirectValidationError::WitnessChanged(path) => DirectValidationError::WitnessChanged(
                path@,
            ),
            DirectValidationError::ContentChanged(path) => DirectValidationError::ContentChanged(
                path@,
            ),
            DirectValidationError::PathChanged { path, source } => {
                DirectValidationError::PathChanged { path: path@, source: source@ }
            },
            DirectValidationError::NegativeCandidateChanged { path, source } => {
                DirectValidationError::NegativeCandidateChanged { path: path@, source: source@ }
            },
        }
    }
}

/// The words of an error of a validation.
pub open spec fn validation_error_text(error: DirectValidationError<Seq<u8>, Seq<char>>) -> Seq<
    char,
> {
    match error {
        DirectValidationError::Record(fault) => {
            "invalid direct record: "@ + record_error_text(fault)
        },
        DirectValidationError::WitnessChanged(path) => {
            "witnessed path changed: "@ + words::lossy_text(path)
        },
        DirectValidationError::ContentChanged(path) => {
            "witnessed input contents changed: "@ + words::lossy_text(path)
        },
        DirectValidationError::PathChanged { path, source } => {
            "could not validate witnessed path "@ + words::lossy_text(path) + ": "@ + source
        },
        DirectValidationError::NegativeCandidateChanged { path, source } => {
            "negative resolution candidate changed at "@ + words::lossy_text(path) + ": "@ + source
        },
    }
}

impl DirectValidationError {
    /// The words of the error.
    pub fn message(&self) -> (text: String)
        ensures
            text@ == validation_error_text(self@),
    {
        match self {
            DirectValidationError::Record(fault) => words::two(
                "invalid direct record: ",
                fault.message().as_str(),
            ),
            DirectValidationError::WitnessChanged(path) => words::two(
                "witnessed path changed: ",
                words::lossy(path.as_slice()).as_str(),
            ),
            DirectValidationError::ContentChanged(path) => words::two(
                "witnessed input contents changed: ",
                words::lossy(path.as_slice()).as_str(),
            ),
            DirectValidationError::PathChanged { path, source } => words::four(
                "could not validate witnessed path ",
                words::lossy(path.as_slice()).as_str(),
                ": ",
                source.as_str(),
            ),
            DirectValidationError::NegativeCandidateChanged { path, source } => words::four(
                "negative resolution candidate changed at ",
                words::lossy(path.as_slice()).as_str(),
                ": ",
                source.as_str(),
            ),
        }
    }
}

/// How a witnessed path fails to be found again, where `current` is what was captured of it now.
pub open spec fn path_change(
    witness: PathWitness,
    expected_type: WitnessFileType,
    current: Result<PathWitness, String>,
) -> Option<DirectValidationError<Seq<u8>, Seq<char>>> {
    if path_fault(witness) is Some {
        Some(DirectValidationError::Record(path_fault(witness)->0))
    } else {
        match current {
            Err(source) => Some(
                DirectValidationError::PathChanged {
                    path: witness.resolved_path@,
                    source: source@,
                },
            ),
            Ok(found) => if identical(witness, found, expected_type) {
                None
            } else {
                Some(DirectValidationError::WitnessChanged(witness.resolved_path@))
            },
        }
    }
}

impl PathWitness {
    /// The witness of a path of the expected type, from what was found of it: its canonical path,
    /// its metadata and the links on the way to it.
    pub fn capture(
        resolved_path: Vec<u8>,
        canonical_path: Vec<u8>,
        metadata: MetadataWitness,
        symlinks: Vec<SymlinkWitness>,
        expected_type: WitnessFileType,
    ) -> (witness: Option<Self>)
        ensures
            match witness {
                Some(found) => {
                    &&& metadata.file_type == expected_type
                    &&& found.resolved_path@ == resolved_path@
                    &&& found.canonical_path@ == canonical_path@
                    &&& found.metadata == metadata
                    &&& found.symlinks == symlinks
                },
                None => metadata.file_type != expected_type,
            },
    {
        if metadata.file_type == expected_type {
            Some(
                PathWitness {
                    resolved_path: EncodedOsString::new(resolved_path),
                    canonical_path: EncodedOsString::new(canonical_path),
                    metadata,
                    symlinks,
                },
            )
        } else {
            None
        }
    }

    /// Compares a witnessed path with what was captured of it now. A capture that failed brings its
    /// message.
    pub fn validate(
        &self,
        expected_type: WitnessFileType,
        current: &Result<PathWitness, String>,
    ) -> (outcome: Result<(), DirectValidationError>)
        ensures
            match outcome {
                Ok(_) => path_change(*self, expected_type, *current) is None,
                Err(error) => path_change(*self, expected_type, *current) == Some(error@),
            },
    {
        match self.validate_schema() {
            Ok(_) => {},
            Err(error) => {
                return Err(DirectValidationError::Record(error));
            },
        }
        match current {
            Err(source) => Err(
                DirectValidationError::PathChanged {
                    path: self.resolved_path.to_path_buf(),
                    source: source.clone(),
                },
            ),
            Ok(found) => {
                if self.same_identity(found, expected_type) {
                    Ok(())
                } else {
                    Err(DirectValidationError::WitnessChanged(self.resolved_path.to_path_buf()))
                }
            },
        }
    }

    fn same_identity(&self, current: &PathWitness, expected_type: WitnessFileType) -> (yes: bool)
        ensures
            yes == identical(*self, *current, expected_type),
    {
        if !self.resolved_path.same(&current.resolved_path) || !self.canonical_path.same(
            &current.canonical_path,
        ) || self.symlinks.len() != current.symlinks.len() {
            return false;
        }
        let mut index: usize = 0;
        while index < self.symlinks.len()
            invariant
                index <= self.symlinks.len(),
                self.symlinks.len() == current.symlinks.len(),
                forall|at: int|
                    0 <= at < index ==> same_symlink(
                        #[trigger] self.symlinks@[at],
                        current.symlinks@[at],
                    ),
            decreases self.symlinks.len() - index,
        {
            let left = &self.symlinks[index];
            let right = &current.symlinks[index];
            if !left.path.same(&right.path) || !left.target.same(&right.target) || !(left.metadata
                == right.metadata) {
                assert(!same_symlink(
                    self.symlinks@[index as int],
                    current.symlinks@[index as int],
                ));
                return false;
            }
            index += 1;
        }
        match expected_type {
            WitnessFileType::Symlink => self.metadata == current.metadata,
            WitnessFileType::Regular => self.metadata.file_type == current.metadata.file_type,
            WitnessFileType::Directory => self.metadata.file_type == current.metadata.file_type,
        }
    }

    fn validate_schema(&self) -> (outcome: Result<(), DirectRecordError>)
        ensures
            match outcome {
                Ok(_) => path_fault(*self) is None,
                Err(error) => path_fault(*self) == Some(error),
            },
    {
        self.resolved_path.validate()?;
        self.canonical_path.validate()?;
        if !upath::is_absolute(self.resolved_path.as_bytes()) || !upath::is_absolute(
            self.canonical_path.as_bytes(),
        ) {
            return Err(DirectRecordError::NonAbsoluteResolvedPath);
        }
        if self.symlinks.len() > MAX_SYMLINKS_PER_PATH {
            return Err(DirectRecordError::TooManySymlinks);
        }
        let mut index: usize = 0;
        while index < self.symlinks.len()
            invariant
                index <= self.symlinks.len() <= MAX_SYMLINKS_PER_PATH,
                string_fault(self.resolved_path@) is None,
                string_fault(self.canonical_path@) is None,
                upath::absolute(self.resolved_path@),
                upath::absolute(self.canonical_path@),
                symlinks_fault(self.symlinks@, 0) == symlinks_fault(self.symlinks@, index as int),
            decreases self.symlinks.len() - index,
        {
            let symlink = &self.symlinks[index];
            symlink.path.validate()?;
            symlink.target.validate()?;
            match symlink.metadata.file_type {
                WitnessFileType::Symlink => {},
                _ => {
                    return Err(DirectRecordError::InvalidWitnessType);
                },
            }
            index += 1;
        }
        Ok(())
    }
}

/// A compiler-reported input and the exact regular file that satisfied it.
#[derive(Clone, Debug, PartialEq, Eq)]
pub struct DirectInput {
    pub raw_path: EncodedOsString,
    pub path: PathWitness,
    pub digest: DirectDigest,
    pub size: u64,
}

/// The digest and the size of the contents of a file.
#[derive(Clone, Copy, Debug, PartialEq, Eq)]
pub struct Contents {
    pub digest: DirectDigest,
    pub size: u64,
}

/// What is found now of a recorded input: its path, its contents, and its path once more.
#[derive(Debug)]
pub struct InputCapture {
    pub before: Result<PathWitness, String>,
    pub contents: Result<Contents, String>,
    pub after: Result<PathWitness, String>,
}

/// The first fault of an input.
pub open spec fn input_fault(input: DirectInput) -> Option<DirectRecordError> {
    if string_fault(input.raw_path@) is Some {
        string_fault(input.raw_path@)
    } else if path_fault(input.path) is Some {
        path_fault(input.path)
    } else if !(input.path.metadata.file_type is Regular) || input.path.metadata.size
        != input.size {
        Some(DirectRecordError::InvalidInput)
    } else {
        None
    }
}

/// How an input fails to be found again with the same contents.
pub open spec fn input_change(input: DirectInput, current: InputCapture) -> Option<
    DirectValidationError<Seq<u8>, Seq<char>>,
> {
    if input_fault(input) is Some {
        Some(DirectValidationError::Record(input_fault(input)->0))
    } else if path_change(input.path, WitnessFileType::Regular, current.before) is Some {
        path_change(input.path, WitnessFileType::Regular, current.before)
    } else {
        match current.contents {
            Err(source) => Some(
                DirectValidationError::PathChanged {
                    path: input.path.resolved_path@,
                    source: source@,
                },
            ),
            Ok(contents) => if contents.digest@ != input.digest@ || contents.size != input.size {
                Some(DirectValidationError::ContentChanged(input.path.resolved_path@))
            } else {
                path_change(input.path, WitnessFileType::Regular, current.after)
            },
        }
    }
}

impl DirectInput {
    /// The input that the compiler names `raw_path`, from what was found of it.
    pub fn capture(raw_path: &[u8], path: PathWitness, contents: Contents) -> (input: Self)
        ensures
            input.raw_path@ == raw_path@,
            input.path == path,
            input.digest@ == contents.digest@,
            input.size == contents.size,
    {
        DirectInput {
            raw_path: EncodedOsString::from_os_str(raw_path),
            path,
            digest: contents.digest,
            size: contents.size,
        }
    }

    /// Compares an input with what is found of it now.
    pub fn validate_contents(&self, current: &InputCapture) -> (outcome: Result<
        (),
        DirectValidationError,
    >)
        ensures
            match outcome {
                Ok(_) => input_change(*self, *current) is None,
                Err(error) => input_change(*self, *current) == Some(error@),
            },
    {
        match self.validate_schema() {
            Ok(_) => {},
            Err(error) => {
                return Err(DirectValidationError::Record(error));
            },
        }
        self.path.validate(WitnessFileType::Regular, &current.before)?;
        match &current.contents {
            Err(source) => {
                return Err(
                    DirectValidationError::PathChanged {
                        path: self.path.resolved_path.to_path_buf(),
                        source: source.clone(),
                    },
                );
            },
            Ok(contents) => {
                if !contents.digest.same(&self.digest) || contents.size != self.size {
                    return Err(
                        DirectValidationError::ContentChanged(
                            self.path.resolved_path.to_path_buf(),
                        ),
                    );
                }
            },
        }
        self.path.validate(WitnessFileType::Regular, &current.after)
    }

    fn validate_schema(&self) -> (outcome: Result<(), DirectRecordError>)
        ensures
            match outcome {
                Ok(_) => input_fault(*self) is None,
                Err(error) => input_fault(*self) == Some(error),
            },
    {
        self.raw_path.validate()?;
        self.path.validate_schema()?;
        match self.path.metadata.file_type {
            WitnessFileType::Regular => {},
            _ => {
                return Err(DirectRecordError::InvalidInput);
            },
        }
        if self.path.metadata.size != self.size {
            return Err(DirectRecordError::InvalidInput);
        }
        Ok(())
    }
}

/// Proof that an exact earlier search candidate did not exist.
#[derive(Clone, Debug, PartialEq, Eq)]
pub struct AbsentPathWitness {
    pub path: EncodedOsString,
    pub nearest_existing_ancestor: PathWitness,
}

/// What is found now of a path that must stay absent: its ancestor, and that nothing is there.
#[derive(Debug)]
pub struct AbsentCapture {
    pub ancestor: Result<PathWitness, String>,
    pub absence: Result<(), String>,
}

/// The first fault of a path that must stay absent.
pub open spec fn absent_fault(witness: AbsentPathWitness) -> Option<DirectRecordError> {
    if string_fault(witness.path@) is Some {
        string_fault(witness.path@)
    } else if !upath::absolute(witness.path@) {
        Some(DirectRecordError::NonAbsoluteResolvedPath)
    } else if path_fault(witness.nearest_existing_ancestor) is Some {
        path_fault(witness.nearest_existing_ancestor)
    } else if !(witness.nearest_existing_ancestor.metadata.file_type is Directory) {
        Some(DirectRecordError::InvalidWitnessType)
    } else {
        None
    }
}

/// How a path fails to be absent still.
pub open spec fn absent_change(witness: AbsentPathWitness, current: AbsentCapture) -> Option<
    DirectValidationError<Seq<u8>, Seq<char>>,
> {
    if absent_fault(witness) is Some {
        Some(DirectValidationError::Record(absent_fault(witness)->0))
    } else if path_change(
        witness.nearest_existing_ancestor,
        WitnessFileType::Directory,
        current.ancestor,
    ) is Some {
        path_change(
            witness.nearest_existing_ancestor,
            WitnessFileType::Directory,
            current.ancestor,
        )
    } else {
        match current.absence {
            Ok(_) => None,
            Err(source) => Some(
                DirectValidationError::NegativeCandidateChanged {
                    path: witness.path@,
                    source: source@,
                },
            ),
        }
    }
}

impl AbsentPathWitness {
    /// The witness of a path of which nothing was found below its nearest existing ancestor.
    pub fn capture(path: Vec<u8>, nearest_existing_ancestor: PathWitness) -> (witness: Self)
        ensures
            witness.path@ == path@,
            witness.nearest_existing_ancestor == nearest_existing_ancestor,
    {
        AbsentPathWitness { path: EncodedOsString { bytes: path }, nearest_existing_ancestor }
    }

    /// Compares a path that must stay absent with what is found of it now.
    pub fn validate(&self, current: &AbsentCapture) -> (outcome: Result<(), DirectValidationError>)
        ensures
            match outcome {
                Ok(_) => absent_change(*self, *current) is None,
                Err(error) => absent_change(*self, *current) == Some(error@),
            },
    {
        match self.validate_schema() {
            Ok(_) => {},
            Err(error) => {
                return Err(DirectValidationError::Record(error));
            },
        }
        self.nearest_existing_ancestor.validate(WitnessFileType::Directory, &current.ancestor)?;
        match &current.absence {
            Ok(_) => Ok(()),
            Err(source) => Err(
                DirectValidationError::NegativeCandidateChanged {
                    path: self.path.to_path_buf(),
                    source: source.clone(),
                },
            ),
        }
    }

    fn validate_schema(&self) -> (outcome: Result<(), DirectRecordError>)
        ensures
            match outcome {
                Ok(_) => absent_fault(*self) is None,
                Err(error) => absent_fault(*self) == Some(error),
            },
    {
        self.path.validate()?;
        if !upath::is_absolute(self.path.as_bytes()) {
            return Err(DirectRecordError::NonAbsoluteResolvedPath);
        }
        self.nearest_existing_ancestor.validate_schema()?;
        match self.nearest_existing_ancestor.metadata.file_type {
            WitnessFileType::Directory => Ok(()),
            _ => Err(DirectRecordError::InvalidWitnessType),
        }
    }
}

/// How a recorded dependency was found.
#[derive(Clone, Copy, Debug, PartialEq, Eq, Structural)]
pub enum ResolutionKind {
    Source,
    Include,
    ForcedInput,
    Module,
    Submodule,
    IntrinsicModule,
    ModuleOrInclude,
}

/// A selected input together with every earlier candidate that could shadow it.
#[derive(Clone, Debug, PartialEq, Eq)]
pub struct PositiveResolutionWitness {
    pub kind: ResolutionKind,
    pub requested_name: EncodedOsString,
    pub selected_input: usize,
    pub selected_path: PathWitness,
    pub earlier_candidates: Vec<AbsentPathWitness>,
}

/// An exact candidate that must remain absent even when no positive input was selected.
#[derive(Clone, Debug, PartialEq, Eq)]
pub struct NegativeResolutionWitness {
    pub kind: ResolutionKind,
    pub requested_name: EncodedOsString,
    pub candidate: AbsentPathWitness,
}

/// All that the search for inputs depended on.
#[derive(Clone, Debug, PartialEq, Eq)]
pub struct SearchResolutionWitnesses {
    pub roots: Vec<PathWitness>,
    pub positive: Vec<PositiveResolutionWitness>,
    pub negative: Vec<NegativeResolutionWitness>,
}

/// The compiler of a record.
#[derive(Clone, Copy, Debug, PartialEq, Eq)]
pub struct CompilerWitnessRef {
    pub context_key: DirectDigest,
    pub compiler_digest: DirectDigest,
}

/// The dependency mode of a record.
#[derive(Clone, Copy, Debug, PartialEq, Eq, Structural)]
pub enum DependencyMode {
    Unrequested,
    Md,
    Mmd,
}

/// A target of a recorded dependency rule.
#[derive(Clone, Debug, PartialEq, Eq)]
pub struct DepfileTargetShape {
    pub kind: DepfileTargetKind,
    pub bytes: EncodedOsString,
}

/// What a target of a dependency rule is.
#[derive(Clone, Copy, Debug, PartialEq, Eq, Structural)]
pub enum DepfileTargetKind {
    Ordinary,
    GeneratedModule,
}

/// A prerequisite of a recorded dependency rule.
#[derive(Clone, Debug, PartialEq, Eq)]
pub struct DepfilePrerequisiteShape {
    pub kind: DepfilePrerequisiteKind,
    pub bytes: EncodedOsString,
}

/// What a prerequisite of a dependency rule is.
#[derive(Clone, Copy, Debug, PartialEq, Eq, Structural)]
pub enum DepfilePrerequisiteKind {
    Ordinary,
    GeneratedModule,
}

/// A recorded dependency rule.
#[derive(Clone, Debug, PartialEq, Eq)]
pub struct DepfileRuleShape {
    pub targets: Vec<DepfileTargetShape>,
    pub prerequisites: Vec<DepfilePrerequisiteShape>,
}

/// The recorded user depfile.
#[derive(Clone, Debug, PartialEq, Eq)]
pub struct DepfileShape {
    pub mode: DependencyMode,
    pub destination: EncodedOsString,
    pub target_modifiers: Vec<EncodedOsString>,
    pub rules: Vec<DepfileRuleShape>,
    pub digest: DirectDigest,
    pub size: u64,
}

/// The recorded preprocessor observation.
#[derive(Clone, Copy, Debug, PartialEq, Eq)]
pub enum PreprocessorShape {
    Inactive,
    CompilerObserved {
        stdout_digest: DirectDigest,
        stdout_size: u64,
        stderr_digest: DirectDigest,
        stderr_size: u64,
        automatic_lowercase_source: bool,
    },
}

/// An output that a recorded action produces.
#[derive(Clone, Debug, PartialEq, Eq)]
pub struct ExpectedArtifact {
    pub kind: ArtifactKind,
    pub logical_name: String,
    pub destination: EncodedOsString,
    pub digest: DirectDigest,
    pub size: u64,
    pub mode: u32,
}

/// A complete compiler-authoritative observation associated with one action result.
#[derive(Clone, Debug, PartialEq, Eq)]
pub struct DirectRecord {
    pub schema_version: u32,
    pub compiler: CompilerWitnessRef,
    pub inputs: Vec<DirectInput>,
    pub resolution: SearchResolutionWitnesses,
    pub expected_artifacts: Vec<ExpectedArtifact>,
    pub probe_rules: Vec<DepfileRuleShape>,
    pub depfile: Option<DepfileShape>,
    pub preprocessor: PreprocessorShape,
    pub action_key: ActionKey,
}

/// The number of paths that must stay absent for the selected inputs.
pub open spec fn earlier_count(positive: Seq<PositiveResolutionWitness>) -> nat
    decreases positive.len(),
{
    if positive.len() == 0 {
        0
    } else {
        earlier_count(positive.drop_last()) + positive.last().earlier_candidates@.len()
    }
}

/// The first fault of the inputs from `index` on.
pub open spec fn inputs_fault(list: Seq<DirectInput>, index: int) -> Option<DirectRecordError>
    decreases list.len() - index,
{
    if index >= list.len() {
        None
    } else if input_fault(list[index]) is Some {
        input_fault(list[index])
    } else {
        inputs_fault(list, index + 1)
    }
}

/// The first fault of a search root, which is a directory.
pub open spec fn root_fault(root: PathWitness) -> Option<DirectRecordError> {
    if path_fault(root) is Some {
        path_fault(root)
    } else if !(root.metadata.file_type is Directory) {
        Some(DirectRecordError::InvalidWitnessType)
    } else {
        None
    }
}

/// The first fault of the search roots from `index` on.
pub open spec fn roots_fault(list: Seq<PathWitness>, index: int) -> Option<DirectRecordError>
    decreases list.len() - index,
{
    if index >= list.len() {
        None
    } else if root_fault(list[index]) is Some {
        root_fault(list[index])
    } else {
        roots_fault(list, index + 1)
    }
}

/// The first fault of the absent paths from `index` on.
pub open spec fn absents_fault(list: Seq<AbsentPathWitness>, index: int) -> Option<
    DirectRecordError,
>
    decreases list.len() - index,
{
    if index >= list.len() {
        None
    } else if absent_fault(list[index]) is Some {
        absent_fault(list[index])
    } else {
        absents_fault(list, index + 1)
    }
}

/// The first fault of a selection, which names one of the inputs.
pub open spec fn positive_fault(witness: PositiveResolutionWitness, inputs: Seq<DirectInput>) -> Option<
    DirectRecordError,
> {
    if string_fault(witness.requested_name@) is Some {
        string_fault(witness.requested_name@)
    } else if witness.selected_input >= inputs.len() {
        Some(DirectRecordError::InvalidSelectedInput)
    } else if path_fault(witness.selected_path) is Some {
        path_fault(witness.selected_path)
    } else if !(witness.selected_path.metadata.file_type is Regular) {
        Some(DirectRecordError::InvalidWitnessType)
    } else if witness.selected_path.canonical_path@
        != inputs[witness.selected_input as int].path.canonical_path@ {
        Some(DirectRecordError::InvalidSelectedInput)
    } else {
        absents_fault(witness.earlier_candidates@, 0)
    }
}

/// The first fault of the selections from `index` on.
pub open spec fn positives_fault(
    list: Seq<PositiveResolutionWitness>,
    inputs: Seq<DirectInput>,
    index: int,
) -> Option<DirectRecordError>
    decreases list.len() - index,
{
    if index >= list.len() {
        None
    } else if positive_fault(list[index], inputs) is Some {
        positive_fault(list[index], inputs)
    } else {
        positives_fault(list, inputs, index + 1)
    }
}

/// The first fault of a candidate that must stay absent.
pub open spec fn negative_fault(witness: NegativeResolutionWitness) -> Option<DirectRecordError> {
    if string_fault(witness.requested_name@) is Some {
        string_fault(witness.requested_name@)
    } else {
        absent_fault(witness.candidate)
    }
}

/// The first fault of the candidates from `index` on.
pub open spec fn negatives_fault(list: Seq<NegativeResolutionWitness>, index: int) -> Option<
    DirectRecordError,
>
    decreases list.len() - index,
{
    if index >= list.len() {
        None
    } else if negative_fault(list[index]) is Some {
        negative_fault(list[index])
    } else {
        negatives_fault(list, index + 1)
    }
}

/// Some artifact before `count` has the given name.
pub open spec fn artifact_named_before(
    list: Seq<ExpectedArtifact>,
    name: Seq<char>,
    count: int,
) -> bool {
    exists|at: int| 0 <= at < count && (#[trigger] list[at]).logical_name@ == name
}

/// Some artifact before `count` goes to the given path.
pub open spec fn artifact_placed_before(
    list: Seq<ExpectedArtifact>,
    path: Seq<u8>,
    count: int,
) -> bool {
    exists|at: int|
        0 <= at < count && upath::same_path((#[trigger] list[at]).destination@, path)
}

/// Some artifact before `count` is a depfile.
pub open spec fn depfile_before(list: Seq<ExpectedArtifact>, count: int) -> bool {
    exists|at: int| 0 <= at < count && (#[trigger] list[at]).kind is Dependency
}

/// The first fault of the artifact at `index`, after those before it.
pub open spec fn artifact_fault(list: Seq<ExpectedArtifact>, index: int) -> Option<
    DirectRecordError,
> {
    let artifact = list[index];
    let name = bstr::utf8(artifact.logical_name@);
    if name.len() > MAX_PATH_BYTES || manifest::unsafe_name(name) || artifact_named_before(
        list,
        artifact.logical_name@,
        index,
    ) {
        Some(DirectRecordError::InvalidArtifact)
    } else if string_fault(artifact.destination@) is Some {
        string_fault(artifact.destination@)
    } else if !upath::absolute(artifact.destination@) || artifact_placed_before(
        list,
        artifact.destination@,
        index,
    ) {
        Some(DirectRecordError::InvalidArtifact)
    } else if artifact.kind is Dependency && depfile_before(list, index) {
        Some(DirectRecordError::InvalidArtifact)
    } else {
        None
    }
}

/// The first fault of the artifacts from `index` on.
pub open spec fn artifacts_fault(list: Seq<ExpectedArtifact>, index: int) -> Option<
    DirectRecordError,
>
    decreases list.len() - index,
{
    if index >= list.len() {
        None
    } else if artifact_fault(list, index) is Some {
        artifact_fault(list, index)
    } else {
        artifacts_fault(list, index + 1)
    }
}

/// The number of object files among the artifacts.
pub open spec fn object_count(list: Seq<ExpectedArtifact>) -> nat
    decreases list.len(),
{
    if list.len() == 0 {
        0
    } else if list.last().kind is Object {
        object_count(list.drop_last()) + 1
    } else {
        object_count(list.drop_last())
    }
}

/// The index of the last depfile among the artifacts.
pub open spec fn depfile_index(list: Seq<ExpectedArtifact>) -> Option<int>
    decreases list.len(),
{
    if list.len() == 0 {
        None
    } else if list.last().kind is Dependency {
        Some(list.len() - 1)
    } else {
        depfile_index(list.drop_last())
    }
}

/// The recorded depfile is the one among the artifacts.
pub open spec fn depfile_agrees(depfile: Option<DepfileShape>, list: Seq<ExpectedArtifact>) -> bool {
    match (depfile, depfile_index(list)) {
        (Some(shape), Some(index)) => {
            &&& !(shape.mode is Unrequested)
            &&& shape.destination@ == list[index].destination@
            &&& shape.digest@ == list[index].digest@
            &&& shape.size == list[index].size
        },
        (None, None) => true,
        _ => false,
    }
}

/// The first fault of the artifacts of a record.
pub open spec fn record_artifacts_fault(
    list: Seq<ExpectedArtifact>,
    depfile: Option<DepfileShape>,
) -> Option<DirectRecordError> {
    if artifacts_fault(list, 0) is Some {
        artifacts_fault(list, 0)
    } else if object_count(list) != 1 {
        Some(DirectRecordError::InvalidArtifact)
    } else if !depfile_agrees(depfile, list) {
        Some(DirectRecordError::InvalidDepfile)
    } else {
        None
    }
}

/// The first fault of the targets from `index` on.
pub open spec fn targets_fault(list: Seq<DepfileTargetShape>, index: int) -> Option<
    DirectRecordError,
>
    decreases list.len() - index,
{
    if index >= list.len() {
        None
    } else if string_fault(list[index].bytes@) is Some {
        string_fault(list[index].bytes@)
    } else {
        targets_fault(list, index + 1)
    }
}

/// The first fault of the prerequisites from `index` on.
pub open spec fn prerequisites_fault(list: Seq<DepfilePrerequisiteShape>, index: int) -> Option<
    DirectRecordError,
>
    decreases list.len() - index,
{
    if index >= list.len() {
        None
    } else if string_fault(list[index].bytes@) is Some {
        string_fault(list[index].bytes@)
    } else {
        prerequisites_fault(list, index + 1)
    }
}

/// The number of words of the first `count` rules.
pub open spec fn word_count(list: Seq<DepfileRuleShape>, count: int) -> nat
    decreases count,
{
    if count <= 0 {
        0
    } else {
        word_count(list, count - 1) + list[count - 1].targets@.len()
            + list[count - 1].prerequisites@.len()
    }
}

/// The first fault of the rules from `index` on. A rule has a target.
pub open spec fn rules_fault(list: Seq<DepfileRuleShape>, words: nat, index: int) -> Option<
    DirectRecordError,
>
    decreases list.len() - index,
{
    if index >= list.len() {
        None
    } else {
        let rule = list[index];
        if rule.targets@.len() == 0 {
            Some(DirectRecordError::InvalidDepfile)
        } else if words + word_count(list, index + 1) > usize::MAX {
            Some(DirectRecordError::InvalidDepfile)
        } else if targets_fault(rule.targets@, 0) is Some {
            targets_fault(rule.targets@, 0)
        } else if prerequisites_fault(rule.prerequisites@, 0) is Some {
            prerequisites_fault(rule.prerequisites@, 0)
        } else {
            rules_fault(list, words, index + 1)
        }
    }
}

/// The first fault of a list of rules that stands beside `words` other words.
pub open spec fn rule_shapes_fault(list: Seq<DepfileRuleShape>, words: nat) -> Option<
    DirectRecordError,
> {
    if rules_fault(list, words, 0) is Some {
        rules_fault(list, words, 0)
    } else if words + word_count(list, list.len() as int) > MAX_RESOLUTION_WITNESSES {
        Some(DirectRecordError::InvalidDepfile)
    } else {
        None
    }
}

/// The first fault of the strings from `index` on.
pub open spec fn strings_fault(list: Seq<EncodedOsString>, index: int) -> Option<DirectRecordError>
    decreases list.len() - index,
{
    if index >= list.len() {
        None
    } else if string_fault(list[index]@) is Some {
        string_fault(list[index]@)
    } else {
        strings_fault(list, index + 1)
    }
}

/// The first fault of the preprocessor observation and the depfile of a record.
pub open spec fn depfile_fault(depfile: Option<DepfileShape>, preprocessor: PreprocessorShape) -> Option<
    DirectRecordError,
> {
    if preprocessor is CompilerObserved && (preprocessor->stdout_size > MAX_OBSERVATION_BYTES
        || preprocessor->stderr_size > MAX_OBSERVATION_BYTES) {
        Some(DirectRecordError::InvalidPreprocessor)
    } else {
        match depfile {
            None => None,
            Some(shape) => if string_fault(shape.destination@) is Some {
                string_fault(shape.destination@)
            } else if shape.destination@.len() == 0 || shape.size > MAX_OBSERVATION_BYTES {
                Some(DirectRecordError::InvalidDepfile)
            } else if strings_fault(shape.target_modifiers@, 0) is Some {
                strings_fault(shape.target_modifiers@, 0)
            } else {
                rule_shapes_fault(shape.rules@, shape.target_modifiers@.len())
            },
        }
    }
}

/// The names of the ordinary prerequisites of one rule.
pub open spec fn ordinary_names(list: Seq<DepfilePrerequisiteShape>) -> Seq<Seq<u8>>
    decreases list.len(),
{
    if list.len() == 0 {
        Seq::empty()
    } else if list.last().kind is Ordinary {
        ordinary_names(list.drop_last()).push(list.last().bytes@)
    } else {
        ordinary_names(list.drop_last())
    }
}

/// The names of the ordinary prerequisites of all rules.
pub open spec fn observed_names(rules: Seq<DepfileRuleShape>) -> Seq<Seq<u8>>
    decreases rules.len(),
{
    if rules.len() == 0 {
        Seq::empty()
    } else {
        observed_names(rules.drop_last()) + ordinary_names(rules.last().prerequisites@)
    }
}

/// The names for which a file was selected.
pub open spec fn selected_names(positive: Seq<PositiveResolutionWitness>) -> Seq<Seq<u8>> {
    positive.map_values(|witness: PositiveResolutionWitness| witness.requested_name@)
}

/// How often a name stands in a list.
pub open spec fn occurrences(names: Seq<Seq<u8>>, name: Seq<u8>) -> nat
    decreases names.len(),
{
    if names.len() == 0 {
        0
    } else if names.last() == name {
        occurrences(names.drop_last(), name) + 1
    } else {
        occurrences(names.drop_last(), name)
    }
}

/// Every name that the compiler reported is explained as often as it was reported.
pub open spec fn explained(observed: Seq<Seq<u8>>, selected: Seq<Seq<u8>>) -> bool {
    forall|name: Seq<u8>| #[trigger] occurrences(observed, name) <= occurrences(selected, name)
}

/// The first fault of a record.
pub open spec fn record_fault(record: DirectRecord) -> Option<DirectRecordError> {
    let resolution = record.resolution;
    if record.schema_version != DIRECT_RECORD_SCHEMA_VERSION {
        Some(DirectRecordError::UnsupportedRecordSchema(record.schema_version))
    } else if record.inputs@.len() == 0 || record.inputs@.len() > MAX_DIRECT_INPUTS {
        Some(DirectRecordError::InvalidInputCount)
    } else if resolution.roots@.len() > MAX_SEARCH_ROOTS {
        Some(DirectRecordError::TooManySearchRoots)
    } else if resolution.negative@.len() + earlier_count(resolution.positive@)
        > MAX_RESOLUTION_WITNESSES {
        Some(DirectRecordError::TooManyResolutionWitnesses)
    } else if record.expected_artifacts@.len() == 0 || record.expected_artifacts@.len()
        > MAX_EXPECTED_ARTIFACTS {
        Some(DirectRecordError::InvalidArtifactCount)
    } else if inputs_fault(record.inputs@, 0) is Some {
        inputs_fault(record.inputs@, 0)
    } else if roots_fault(resolution.roots@, 0) is Some {
        roots_fault(resolution.roots@, 0)
    } else if positives_fault(resolution.positive@, record.inputs@, 0) is Some {
        positives_fault(resolution.positive@, record.inputs@, 0)
    } else if negatives_fault(resolution.negative@, 0) is Some {
        negatives_fault(resolution.negative@, 0)
    } else if record_artifacts_fault(record.expected_artifacts@, record.depfile) is Some {
        record_artifacts_fault(record.expected_artifacts@, record.depfile)
    } else if rule_shapes_fault(record.probe_rules@, 0) is Some {
        rule_shapes_fault(record.probe_rules@, 0)
    } else if !explained(
        observed_names(record.probe_rules@),
        selected_names(resolution.positive@),
    ) {
        Some(DirectRecordError::IncompleteResolutionProof)
    } else {
        depfile_fault(record.depfile, record.preprocessor)
    }
}

fn validate_absents(list: &Vec<AbsentPathWitness>) -> (outcome: Result<(), DirectRecordError>)
    ensures
        match outcome {
            Ok(_) => absents_fault(list@, 0) is None,
            Err(error) => absents_fault(list@, 0) == Some(error),
        },
{
    let mut index: usize = 0;
    while index < list.len()
        invariant
            index <= list.len(),
            absents_fault(list@, 0) == absents_fault(list@, index as int),
        decreases list.len() - index,
    {
        list[index].validate_schema()?;
        index += 1;
    }
    Ok(())
}

fn validate_inputs(list: &Vec<DirectInput>) -> (outcome: Result<(), DirectRecordError>)
    ensures
        match outcome {
            Ok(_) => inputs_fault(list@, 0) is None,
            Err(error) => inputs_fault(list@, 0) == Some(error),
        },
{
    let mut index: usize = 0;
    while index < list.len()
        invariant
            index <= list.len(),
            inputs_fault(list@, 0) == inputs_fault(list@, index as int),
        decreases list.len() - index,
    {
        list[index].validate_schema()?;
        index += 1;
    }
    Ok(())
}

fn validate_roots(list: &Vec<PathWitness>) -> (outcome: Result<(), DirectRecordError>)
    ensures
        match outcome {
            Ok(_) => roots_fault(list@, 0) is None,
            Err(error) => roots_fault(list@, 0) == Some(error),
        },
{
    let mut index: usize = 0;
    while index < list.len()
        invariant
            index <= list.len(),
            roots_fault(list@, 0) == roots_fault(list@, index as int),
        decreases list.len() - index,
    {
        list[index].validate_schema()?;
        match list[index].metadata.file_type {
            WitnessFileType::Directory => {},
            _ => {
                return Err(DirectRecordError::InvalidWitnessType);
            },
        }
        index += 1;
    }
    Ok(())
}

fn validate_positive(witness: &PositiveResolutionWitness, inputs: &Vec<DirectInput>) -> (outcome:
    Result<(), DirectRecordError>)
    ensures
        match outcome {
            Ok(_) => positive_fault(*witness, inputs@) is None,
            Err(error) => positive_fault(*witness, inputs@) == Some(error),
        },
{
    witness.requested_name.validate()?;
    if witness.selected_input >= inputs.len() {
        return Err(DirectRecordError::InvalidSelectedInput);
    }
    witness.selected_path.validate_schema()?;
    match witness.selected_path.metadata.file_type {
        WitnessFileType::Regular => {},
        _ => {
            return Err(DirectRecordError::InvalidWitnessType);
        },
    }
    if !witness.selected_path.canonical_path.same(
        &inputs[witness.selected_input].path.canonical_path,
    ) {
        return Err(DirectRecordError::InvalidSelectedInput);
    }
    validate_absents(&witness.earlier_candidates)
}

fn validate_positives(list: &Vec<PositiveResolutionWitness>, inputs: &Vec<DirectInput>) -> (outcome:
    Result<(), DirectRecordError>)
    ensures
        match outcome {
            Ok(_) => positives_fault(list@, inputs@, 0) is None,
            Err(error) => positives_fault(list@, inputs@, 0) == Some(error),
        },
{
    let mut index: usize = 0;
    while index < list.len()
        invariant
            index <= list.len(),
            positives_fault(list@, inputs@, 0) == positives_fault(list@, inputs@, index as int),
        decreases list.len() - index,
    {
        validate_positive(&list[index], inputs)?;
        index += 1;
    }
    Ok(())
}

fn validate_negatives(list: &Vec<NegativeResolutionWitness>) -> (outcome: Result<
    (),
    DirectRecordError,
>)
    ensures
        match outcome {
            Ok(_) => negatives_fault(list@, 0) is None,
            Err(error) => negatives_fault(list@, 0) == Some(error),
        },
{
    let mut index: usize = 0;
    while index < list.len()
        invariant
            index <= list.len(),
            negatives_fault(list@, 0) == negatives_fault(list@, index as int),
        decreases list.len() - index,
    {
        list[index].requested_name.validate()?;
        list[index].candidate.validate_schema()?;
        index += 1;
    }
    Ok(())
}

fn validate_artifact(list: &Vec<ExpectedArtifact>, index: usize) -> (outcome: Result<
    (),
    DirectRecordError,
>)
    requires
        index < list@.len(),
    ensures
        match outcome {
            Ok(_) => artifact_fault(list@, index as int) is None,
            Err(error) => artifact_fault(list@, index as int) == Some(error),
        },
{
    let artifact = &list[index];
    let name = bstr::of(artifact.logical_name.as_str());
    if name.len() > MAX_PATH_BYTES {
        return Err(DirectRecordError::InvalidArtifact);
    }
    match manifest::validate_logical_name(artifact.logical_name.as_str()) {
        Ok(_) => {},
        Err(_) => {
            return Err(DirectRecordError::InvalidArtifact);
        },
    }
    let mut named = false;
    let mut placed = false;
    let mut depfile = false;
    let mut earlier: usize = 0;
    while earlier < index
        invariant
            earlier <= index < list@.len(),
            *artifact == list@[index as int],
            named == artifact_named_before(list@, artifact.logical_name@, earlier as int),
            placed == artifact_placed_before(list@, artifact.destination@, earlier as int),
            depfile == depfile_before(list@, earlier as int),
        decreases index - earlier,
    {
        let other = &list[earlier];
        if other.logical_name == artifact.logical_name {
            assert(list@[earlier as int].logical_name@ == artifact.logical_name@);
            named = true;
        }
        if upath::same(other.destination.as_bytes(), artifact.destination.as_bytes()) {
            assert(upath::same_path(list@[earlier as int].destination@, artifact.destination@));
            placed = true;
        }
        if let ArtifactKind::Dependency = other.kind {
            assert(list@[earlier as int].kind is Dependency);
            depfile = true;
        }
        proof {
            lemma_before_step(
                list@,
                artifact.logical_name@,
                artifact.destination@,
                earlier as int,
            );
        }
        earlier += 1;
    }
    if named {
        return Err(DirectRecordError::InvalidArtifact);
    }
    artifact.destination.validate()?;
    if !upath::is_absolute(artifact.destination.as_bytes()) || placed {
        return Err(DirectRecordError::InvalidArtifact);
    }
    if let ArtifactKind::Dependency = artifact.kind {
        if depfile {
            return Err(DirectRecordError::InvalidArtifact);
        }
    }
    Ok(())
}

proof fn lemma_before_step(
    list: Seq<ExpectedArtifact>,
    name: Seq<char>,
    path: Seq<u8>,
    count: int,
)
    requires
        0 <= count < list.len(),
    ensures
        artifact_named_before(list, name, count + 1) == (artifact_named_before(list, name, count)
            || list[count].logical_name@ == name),
        artifact_placed_before(list, path, count + 1) == (artifact_placed_before(list, path, count)
            || upath::same_path(list[count].destination@, path)),
        depfile_before(list, count + 1) == (depfile_before(list, count) || list[count].kind
            is Dependency),
{
    if artifact_named_before(list, name, count) {
        let at = choose|at: int| 0 <= at < count && (#[trigger] list[at]).logical_name@ == name;
        assert(0 <= at < count + 1 && list[at].logical_name@ == name);
    }
    if list[count].logical_name@ == name {
        assert(0 <= count < count + 1 && list[count].logical_name@ == name);
    }
    if artifact_placed_before(list, path, count) {
        let at = choose|at: int|
            0 <= at < count && upath::same_path((#[trigger] list[at]).destination@, path);
        assert(0 <= at < count + 1 && upath::same_path(list[at].destination@, path));
    }
    if upath::same_path(list[count].destination@, path) {
        assert(0 <= count < count + 1 && upath::same_path(list[count].destination@, path));
    }
    if depfile_before(list, count) {
        let at = choose|at: int| 0 <= at < count && (#[trigger] list[at]).kind is Dependency;
        assert(0 <= at < count + 1 && list[at].kind is Dependency);
    }
    if list[count].kind is Dependency {
        assert(0 <= count < count + 1 && list[count].kind is Dependency);
    }
}

fn validate_targets(list: &Vec<DepfileTargetShape>) -> (outcome: Result<(), DirectRecordError>)
    ensures
        match outcome {
            Ok(_) => targets_fault(list@, 0) is None,
            Err(error) => targets_fault(list@, 0) == Some(error),
        },
{
    let mut index: usize = 0;
    while index < list.len()
        invariant
            index <= list.len(),
            targets_fault(list@, 0) == targets_fault(list@, index as int),
        decreases list.len() - index,
    {
        list[index].bytes.validate()?;
        index += 1;
    }
    Ok(())
}

fn validate_prerequisites(list: &Vec<DepfilePrerequisiteShape>) -> (outcome: Result<
    (),
    DirectRecordError,
>)
    ensures
        match outcome {
            Ok(_) => prerequisites_fault(list@, 0) is None,
            Err(error) => prerequisites_fault(list@, 0) == Some(error),
        },
{
    let mut index: usize = 0;
    while index < list.len()
        invariant
            index <= list.len(),
            prerequisites_fault(list@, 0) == prerequisites_fault(list@, index as int),
        decreases list.len() - index,
    {
        list[index].bytes.validate()?;
        index += 1;
    }
    Ok(())
}

fn validate_rule_shapes(rules: &Vec<DepfileRuleShape>, words: usize) -> (outcome: Result<
    (),
    DirectRecordError,
>)
    ensures
        match outcome {
            Ok(_) => rule_shapes_fault(rules@, words as nat) is None,
            Err(error) => rule_shapes_fault(rules@, words as nat) == Some(error),
        },
{
    let mut count: usize = words;
    let mut index: usize = 0;
    while index < rules.len()
        invariant
            index <= rules.len(),
            count == words + word_count(rules@, index as int),
            rules_fault(rules@, words as nat, 0) == rules_fault(
                rules@,
                words as nat,
                index as int,
            ),
        decreases rules.len() - index,
    {
        let rule = &rules[index];
        if rule.targets.len() == 0 {
            return Err(DirectRecordError::InvalidDepfile);
        }
        let with_targets = match count.checked_add(rule.targets.len()) {
            Some(sum) => sum,
            None => {
                return Err(DirectRecordError::InvalidDepfile);
            },
        };
        count = match with_targets.checked_add(rule.prerequisites.len()) {
            Some(sum) => sum,
            None => {
                return Err(DirectRecordError::InvalidDepfile);
            },
        };
        validate_targets(&rule.targets)?;
        validate_prerequisites(&rule.prerequisites)?;
        index += 1;
    }
    if count > MAX_RESOLUTION_WITNESSES {
        return Err(DirectRecordError::InvalidDepfile);
    }
    Ok(())
}

fn collect_ordinary(names: &mut Vec<Vec<u8>>, list: &Vec<DepfilePrerequisiteShape>)
    ensures
        bstr::views(final(names)@) == bstr::views(old(names)@) + ordinary_names(list@),
{
    let ghost start = bstr::views(names@);
    let mut index: usize = 0;
    assert(list@.take(0) =~= Seq::empty());
    assert(start + ordinary_names(list@.take(0)) =~= start);
    while index < list.len()
        invariant
            index <= list.len(),
            bstr::views(names@) == start + ordinary_names(list@.take(index as int)),
        decreases list.len() - index,
    {
        assert(list@.take(index + 1).drop_last() =~= list@.take(index as int));
        assert(list@.take(index + 1).last() == list@[index as int]);
        if let DepfilePrerequisiteKind::Ordinary = list[index].kind {
            let name = bstr::copy(list[index].bytes.as_bytes());
            proof {
                bstr::lemma_views_push(names@, name);
            }
            names.push(name);
            assert(bstr::views(names@) =~= start + ordinary_names(list@.take(index + 1)));
        }
        index += 1;
    }
    assert(list@.take(index as int) =~= list@);
}

fn collect_observed(rules: &Vec<DepfileRuleShape>) -> (names: Vec<Vec<u8>>)
    ensures
        bstr::views(names@) == observed_names(rules@),
{
    let mut names: Vec<Vec<u8>> = Vec::new();
    let mut index: usize = 0;
    assert(rules@.take(0) =~= Seq::empty());
    assert(bstr::views(names@) =~= Seq::empty());
    while index < rules.len()
        invariant
            index <= rules.len(),
            bstr::views(names@) == observed_names(rules@.take(index as int)),
        decreases rules.len() - index,
    {
        assert(rules@.take(index + 1).drop_last() =~= rules@.take(index as int));
        assert(rules@.take(index + 1).last() == rules@[index as int]);
        collect_ordinary(&mut names, &rules[index].prerequisites);
        index += 1;
    }
    assert(rules@.take(index as int) =~= rules@);
    names
}

fn count_name(names: &Vec<Vec<u8>>, limit: usize, name: &[u8]) -> (count: usize)
    requires
        limit <= names@.len(),
    ensures
        count == occurrences(bstr::views(names@).take(limit as int), name@),
{
    let ghost all = bstr::views(names@);
    let mut count: usize = 0;
    let mut index: usize = 0;
    assert(all.take(0) =~= Seq::empty());
    while index < limit
        invariant
            index <= limit <= names@.len(),
            all == bstr::views(names@),
            count <= index,
            count == occurrences(all.take(index as int), name@),
        decreases limit - index,
    {
        assert(all.take(index + 1).drop_last() =~= all.take(index as int));
        assert(all.take(index + 1).last() == names@[index as int]@);
        if bstr::same(names[index].as_slice(), name) {
            count += 1;
        }
        index += 1;
    }
    count
}

proof fn lemma_explained(observed: Seq<Seq<u8>>, selected: Seq<Seq<u8>>, count: int)
    requires
        0 <= count <= observed.len(),
        forall|at: int|
            0 <= at < count ==> occurrences(observed.take(at + 1), #[trigger] observed[at])
                <= occurrences(selected, observed[at]),
    ensures
        explained(observed.take(count), selected),
    decreases count,
{
    if count > 0 {
        lemma_explained(observed, selected, count - 1);
        assert(observed.take(count).drop_last() =~= observed.take(count - 1));
        assert(observed.take(count).last() == observed[count - 1]);
        assert forall|name: Seq<u8>| #[trigger] occurrences(observed.take(count), name)
            <= occurrences(selected, name) by {
            assert(occurrences(observed.take(count - 1), name) <= occurrences(selected, name));
            if name == observed[count - 1] {
                assert(observed.take((count - 1) + 1) =~= observed.take(count));
            }
        }
    }
}

proof fn lemma_occurrences_grow(names: Seq<Seq<u8>>, count: int, name: Seq<u8>)
    requires
        0 <= count <= names.len(),
    ensures
        occurrences(names.take(count), name) <= occurrences(names, name),
    decreases names.len() - count,
{
    if count < names.len() {
        assert(names.take(count + 1).drop_last() =~= names.take(count));
        lemma_occurrences_grow(names, count + 1, name);
    } else {
        assert(names.take(count) =~= names);
    }
}

fn all_explained(observed: &Vec<Vec<u8>>, selected: &Vec<Vec<u8>>) -> (yes: bool)
    ensures
        yes == explained(bstr::views(observed@), bstr::views(selected@)),
{
    let ghost seen = bstr::views(observed@);
    let ghost chosen = bstr::views(selected@);
    let mut index: usize = 0;
    while index < observed.len()
        invariant
            index <= observed.len(),
            seen == bstr::views(observed@),
            chosen == bstr::views(selected@),
            forall|at: int|
                0 <= at < index ==> occurrences(seen.take(at + 1), #[trigger] seen[at])
                    <= occurrences(chosen, seen[at]),
        decreases observed.len() - index,
    {
        let name = observed[index].as_slice();
        assert(seen[index as int] == name@);
        let reported = count_name(observed, index + 1, name);
        let found = count_name(selected, selected.len(), name);
        assert(chosen.take(selected@.len() as int) =~= chosen);
        if reported > found {
            proof {
                lemma_occurrences_grow(seen, index + 1, name@);
                assert(occurrences(seen, name@) > occurrences(chosen, name@));
            }
            return false;
        }
        index += 1;
    }
    proof {
        lemma_explained(seen, chosen, seen.len() as int);
        assert(seen.take(seen.len() as int) =~= seen);
    }
    true
}

/// A record of which schema and filesystem have been checked.
#[derive(Debug)]
pub struct ValidatedDirectRecord<'a> {
    pub record: &'a DirectRecord,
}

impl DirectRecord {
    fn count_candidates(&self) -> (count: Option<usize>)
        ensures
            match count {
                Some(total) => total == self.resolution.negative@.len() + earlier_count(
                    self.resolution.positive@,
                ),
                None => self.resolution.negative@.len() + earlier_count(self.resolution.positive@)
                    > usize::MAX,
            },
    {
        let positive = &self.resolution.positive;
        let mut count: usize = self.resolution.negative.len();
        let mut index: usize = 0;
        assert(positive@.take(0) =~= Seq::empty());
        while index < positive.len()
            invariant
                index <= positive.len(),
                *positive == self.resolution.positive,
                count == self.resolution.negative@.len() + earlier_count(
                    positive@.take(index as int),
                ),
            decreases positive.len() - index,
        {
            assert(positive@.take(index + 1).drop_last() =~= positive@.take(index as int));
            assert(positive@.take(index + 1).last() == positive@[index as int]);
            match count.checked_add(positive[index].earlier_candidates.len()) {
                Some(sum) => {
                    count = sum;
                },
                None => {
                    proof {
                        lemma_earlier_count_grows(positive@, index + 1);
                    }
                    return None;
                },
            }
            index += 1;
        }
        assert(positive@.take(index as int) =~= positive@);
        Some(count)
    }

    /// Checks all of a record that can be checked without the filesystem.
    pub fn validate_schema(&self) -> (outcome: Result<(), DirectRecordError>)
        ensures
            match outcome {
                Ok(_) => record_fault(*self) is None,
                Err(error) => record_fault(*self) == Some(error),
            },
    {
        if self.schema_version != DIRECT_RECORD_SCHEMA_VERSION {
            return Err(DirectRecordError::UnsupportedRecordSchema(self.schema_version));
        }
        if self.inputs.len() == 0 || self.inputs.len() > MAX_DIRECT_INPUTS {
            return Err(DirectRecordError::InvalidInputCount);
        }
        if self.resolution.roots.len() > MAX_SEARCH_ROOTS {
            return Err(DirectRecordError::TooManySearchRoots);
        }
        match self.count_candidates() {
            Some(count) => {
                if count > MAX_RESOLUTION_WITNESSES {
                    return Err(DirectRecordError::TooManyResolutionWitnesses);
                }
            },
            None => {
                return Err(DirectRecordError::TooManyResolutionWitnesses);
            },
        }
        if self.expected_artifacts.len() == 0 || self.expected_artifacts.len()
            > MAX_EXPECTED_ARTIFACTS {
            return Err(DirectRecordError::InvalidArtifactCount);
        }
        validate_inputs(&self.inputs)?;
        validate_roots(&self.resolution.roots)?;
        validate_positives(&self.resolution.positive, &self.inputs)?;
        validate_negatives(&self.resolution.negative)?;
        self.validate_artifacts()?;
        validate_rule_shapes(&self.probe_rules, 0)?;
        self.validate_resolution_coverage()?;
        self.validate_depfile()
    }

    fn validate_resolution_coverage(&self) -> (outcome: Result<(), DirectRecordError>)
        ensures
            match outcome {
                Ok(_) => explained(
                    observed_names(self.probe_rules@),
                    selected_names(self.resolution.positive@),
                ),
                Err(error) => error is IncompleteResolutionProof && !explained(
                    observed_names(self.probe_rules@),
                    selected_names(self.resolution.positive@),
                ),
            },
    {
        let observed = collect_observed(&self.probe_rules);
        let positive = &self.resolution.positive;
        let mut selected: Vec<Vec<u8>> = Vec::new();
        let mut index: usize = 0;
        while index < positive.len()
            invariant
                index <= positive.len(),
                *positive == self.resolution.positive,
                bstr::views(selected@) =~= selected_names(positive@).take(index as int),
            decreases positive.len() - index,
        {
            let name = bstr::copy(positive[index].requested_name.as_bytes());
            proof {
                bstr::lemma_views_push(selected@, name);
            }
            selected.push(name);
            index += 1;
        }
        assert(bstr::views(selected@) =~= selected_names(positive@));
        if all_explained(&observed, &selected) {
            Ok(())
        } else {
            Err(DirectRecordError::IncompleteResolutionProof)
        }
    }

    fn validate_artifacts(&self) -> (outcome: Result<(), DirectRecordError>)
        requires
            self.expected_artifacts@.len() <= MAX_EXPECTED_ARTIFACTS,
        ensures
            match outcome {
                Ok(_) => record_artifacts_fault(self.expected_artifacts@, self.depfile) is None,
                Err(error) => record_artifacts_fault(self.expected_artifacts@, self.depfile)
                    == Some(error),
            },
    {
        let list = &self.expected_artifacts;
        let mut objects: usize = 0;
        let mut dependency: Option<usize> = None;
        let mut index: usize = 0;
        assert(list@.take(0) =~= Seq::empty());
        while index < list.len()
            invariant
                index <= list.len() <= MAX_EXPECTED_ARTIFACTS,
                *list == self.expected_artifacts,
                artifacts_fault(list@, 0) == artifacts_fault(list@, index as int),
                objects <= index,
                objects == object_count(list@.take(index as int)),
                match dependency {
                    Some(at) => at < index && depfile_index(list@.take(index as int)) == Some(
                        at as int,
                    ),
                    None => depfile_index(list@.take(index as int)) is None,
                },
            decreases list.len() - index,
        {
            assert(list@.take(index + 1).drop_last() =~= list@.take(index as int));
            assert(list@.take(index + 1).last() == list@[index as int]);
            validate_artifact(list, index)?;
            match list[index].kind {
                ArtifactKind::Object => {
                    objects += 1;
                },
                ArtifactKind::Dependency => {
                    dependency = Some(index);
                },
                ArtifactKind::Module => {},
                ArtifactKind::Submodule => {},
            }
            index += 1;
        }
        assert(list@.take(index as int) =~= list@);
        if objects != 1 {
            return Err(DirectRecordError::InvalidArtifact);
        }
        let agrees = match (&self.depfile, dependency) {
            (Some(depfile), Some(at)) => {
                let artifact = &list[at];
                let requested = match depfile.mode {
                    DependencyMode::Unrequested => false,
                    DependencyMode::Md => true,
                    DependencyMode::Mmd => true,
                };
                requested && depfile.destination.same(&artifact.destination) && depfile.digest.same(
                    &artifact.digest,
                ) && depfile.size == artifact.size
            },
            (None, None) => true,
            _ => false,
        };
        if agrees {
            Ok(())
        } else {
            Err(DirectRecordError::InvalidDepfile)
        }
    }

    fn validate_depfile(&self) -> (outcome: Result<(), DirectRecordError>)
        ensures
            match outcome {
                Ok(_) => depfile_fault(self.depfile, self.preprocessor) is None,
                Err(error) => depfile_fault(self.depfile, self.preprocessor) == Some(error),
            },
    {
        if let PreprocessorShape::CompilerObserved { stdout_size, stderr_size, .. } =
            self.preprocessor {
            if stdout_size > MAX_OBSERVATION_BYTES || stderr_size > MAX_OBSERVATION_BYTES {
                return Err(DirectRecordError::InvalidPreprocessor);
            }
        }
        match &self.depfile {
            None => Ok(()),
            Some(depfile) => {
                depfile.destination.validate()?;
                if depfile.destination.bytes.len() == 0 || depfile.size > MAX_OBSERVATION_BYTES {
                    return Err(DirectRecordError::InvalidDepfile);
                }
                let modifiers = &depfile.target_modifiers;
                let mut index: usize = 0;
                while index < modifiers.len()
                    invariant
                        index <= modifiers.len(),
                        self.depfile == Some(*depfile),
                        *modifiers == depfile.target_modifiers,
                        !(self.preprocessor is CompilerObserved && (self.preprocessor->stdout_size
                            > MAX_OBSERVATION_BYTES || self.preprocessor->stderr_size
                            > MAX_OBSERVATION_BYTES)),
                        string_fault(depfile.destination@) is None,
                        depfile.destination@.len() > 0,
                        depfile.size <= MAX_OBSERVATION_BYTES,
                        strings_fault(modifiers@, 0) == strings_fault(modifiers@, index as int),
                    decreases modifiers.len() - index,
                {
                    modifiers[index].validate()?;
                    index += 1;
                }
                validate_rule_shapes(&depfile.rules, modifiers.len())
            },
        }
    }
}

proof fn lemma_earlier_count_grows(positive: Seq<PositiveResolutionWitness>, count: int)
    requires
        0 <= count <= positive.len(),
    ensures
        earlier_count(positive.take(count)) <= earlier_count(positive),
    decreases positive.len() - count,
{
    if count < positive.len() {
        assert(positive.take(count + 1).drop_last() =~= positive.take(count));
        lemma_earlier_count_grows(positive, count + 1);
    } else {
        assert(positive.take(count) =~= positive);
    }
}

/// What is found now of a selected input and of the paths that must stay absent for it.
#[derive(Debug)]
pub struct PositiveCapture {
    pub selected: Result<PathWitness, String>,
    pub earlier: Vec<AbsentCapture>,
}

/// What is found now of all that a record witnesses, item for item.
#[derive(Debug)]
pub struct RecordCapture {
    pub roots: Vec<Result<PathWitness, String>>,
    pub inputs: Vec<InputCapture>,
    pub positive: Vec<PositiveCapture>,
    pub negative: Vec<AbsentCapture>,
}

/// A capture holds one item for each witness of a record.
pub open spec fn captures(record: DirectRecord, capture: RecordCapture) -> bool {
    &&& capture.roots@.len() == record.resolution.roots@.len()
    &&& capture.inputs@.len() == record.inputs@.len()
    &&& capture.positive@.len() == record.resolution.positive@.len()
    &&& capture.negative@.len() == record.resolution.negative@.len()
    &&& forall|at: int|
        0 <= at < capture.positive@.len() ==> (#[trigger] capture.positive@[at]).earlier@.len()
            == record.resolution.positive@[at].earlier_candidates@.len()
}

/// The first change of the search roots from `index` on.
pub open spec fn roots_change(
    list: Seq<PathWitness>,
    current: Seq<Result<PathWitness, String>>,
    index: int,
) -> Option<DirectValidationError<Seq<u8>, Seq<char>>>
    decreases list.len() - index,
{
    if index >= list.len() {
        None
    } else if path_change(list[index], WitnessFileType::Directory, current[index]) is Some {
        path_change(list[index], WitnessFileType::Directory, current[index])
    } else {
        roots_change(list, current, index + 1)
    }
}

/// The first change of the inputs from `index` on.
pub open spec fn inputs_change(
    list: Seq<DirectInput>,
    current: Seq<InputCapture>,
    index: int,
) -> Option<DirectValidationError<Seq<u8>, Seq<char>>>
    decreases list.len() - index,
{
    if index >= list.len() {
        None
    } else if input_change(list[index], current[index]) is Some {
        input_change(list[index], current[index])
    } else {
        inputs_change(list, current, index + 1)
    }
}

/// The first change of the absent paths from `index` on.
pub open spec fn absents_change(
    list: Seq<AbsentPathWitness>,
    current: Seq<AbsentCapture>,
    index: int,
) -> Option<DirectValidationError<Seq<u8>, Seq<char>>>
    decreases list.len() - index,
{
    if index >= list.len() {
        None
    } else if absent_change(list[index], current[index]) is Some {
        absent_change(list[index], current[index])
    } else {
        absents_change(list, current, index + 1)
    }
}

/// The first change of a selection.
pub open spec fn positive_change(
    witness: PositiveResolutionWitness,
    current: PositiveCapture,
) -> Option<DirectValidationError<Seq<u8>, Seq<char>>> {
    if path_change(witness.selected_path, WitnessFileType::Regular, current.selected) is Some {
        path_change(witness.selected_path, WitnessFileType::Regular, current.selected)
    } else {
        absents_change(witness.earlier_candidates@, current.earlier@, 0)
    }
}

/// The first change of the selections from `index` on.
pub open spec fn positives_change(
    list: Seq<PositiveResolutionWitness>,
    current: Seq<PositiveCapture>,
    index: int,
) -> Option<DirectValidationError<Seq<u8>, Seq<char>>>
    decreases list.len() - index,
{
    if index >= list.len() {
        None
    } else if positive_change(list[index], current[index]) is Some {
        positive_change(list[index], current[index])
    } else {
        positives_change(list, current, index + 1)
    }
}

/// The first change of the candidates from `index` on.
pub open spec fn negatives_change(
    list: Seq<NegativeResolutionWitness>,
    current: Seq<AbsentCapture>,
    index: int,
) -> Option<DirectValidationError<Seq<u8>, Seq<char>>>
    decreases list.len() - index,
{
    if index >= list.len() {
        None
    } else if absent_change(list[index].candidate, current[index]) is Some {
        absent_change(list[index].candidate, current[index])
    } else {
        negatives_change(list, current, index + 1)
    }
}

/// The first change of what a record witnesses.
pub open spec fn filesystem_change(record: DirectRecord, capture: RecordCapture) -> Option<
    DirectValidationError<Seq<u8>, Seq<char>>,
> {
    let resolution = record.resolution;
    if roots_change(resolution.roots@, capture.roots@, 0) is Some {
        roots_change(resolution.roots@, capture.roots@, 0)
    } else if inputs_change(record.inputs@, capture.inputs@, 0) is Some {
        inputs_change(record.inputs@, capture.inputs@, 0)
    } else if positives_change(resolution.positive@, capture.positive@, 0) is Some {
        positives_change(resolution.positive@, capture.positive@, 0)
    } else {
        negatives_change(resolution.negative@, capture.negative@, 0)
    }
}

/// The first fault or change of a record.
pub open spec fn validation_failure(record: DirectRecord, capture: RecordCapture) -> Option<
    DirectValidationError<Seq<u8>, Seq<char>>,
> {
    if record_fault(record) is Some {
        Some(DirectValidationError::Record(record_fault(record)->0))
    } else {
        filesystem_change(record, capture)
    }
}

fn compare_absents(list: &Vec<AbsentPathWitness>, current: &Vec<AbsentCapture>) -> (outcome: Result<
    (),
    DirectValidationError,
>)
    requires
        list@.len() == current@.len(),
    ensures
        match outcome {
            Ok(_) => absents_change(list@, current@, 0) is None,
            Err(error) => absents_change(list@, current@, 0) == Some(error@),
        },
{
    let mut index: usize = 0;
    while index < list.len()
        invariant
            index <= list.len() == current.len(),
            absents_change(list@, current@, 0) == absents_change(list@, current@, index as int),
        decreases list.len() - index,
    {
        list[index].validate(&current[index])?;
        index += 1;
    }
    Ok(())
}

impl DirectRecord {
    /// Compares all recorded inputs and namespace witnesses with what is found of them now.
    pub fn validate_filesystem(&self, capture: &RecordCapture) -> (outcome: Result<
        ValidatedDirectRecord<'_>,
        DirectValidationError,
    >)
        requires
            captures(*self, *capture),
        ensures
            match outcome {
                Ok(validated) => validation_failure(*self, *capture) is None && *validated.record
                    == *self,
                Err(error) => validation_failure(*self, *capture) == Some(error@),
            },
    {
        match self.validate_schema() {
            Ok(_) => {},
            Err(error) => {
                return Err(DirectValidationError::Record(error));
            },
        }
        self.validate_filesystem_once(capture)?;
        Ok(ValidatedDirectRecord { record: self })
    }

    fn validate_filesystem_once(&self, capture: &RecordCapture) -> (outcome: Result<
        (),
        DirectValidationError,
    >)
        requires
            captures(*self, *capture),
        ensures
            match outcome {
                Ok(_) => filesystem_change(*self, *capture) is None,
                Err(error) => filesystem_change(*self, *capture) == Some(error@),
            },
    {
        let roots = &self.resolution.roots;
        let mut index: usize = 0;
        while index < roots.len()
            invariant
                index <= roots.len() == capture.roots.len(),
                *roots == self.resolution.roots,
                roots_change(roots@, capture.roots@, 0) == roots_change(
                    roots@,
                    capture.roots@,
                    index as int,
                ),
            decreases roots.len() - index,
        {
            roots[index].validate(WitnessFileType::Directory, &capture.roots[index])?;
            index += 1;
        }
        self.compare_inputs(capture)?;
        self.compare_positives(capture)?;
        self.compare_negatives(capture)
    }

    fn compare_inputs(&self, capture: &RecordCapture) -> (outcome: Result<
        (),
        DirectValidationError,
    >)
        requires
            captures(*self, *capture),
        ensures
            match outcome {
                Ok(_) => inputs_change(self.inputs@, capture.inputs@, 0) is None,
                Err(error) => inputs_change(self.inputs@, capture.inputs@, 0) == Some(error@),
            },
    {
        let mut index: usize = 0;
        while index < self.inputs.len()
            invariant
                index <= self.inputs.len() == capture.inputs.len(),
                inputs_change(self.inputs@, capture.inputs@, 0) == inputs_change(
                    self.inputs@,
                    capture.inputs@,
                    index as int,
                ),
            decreases self.inputs.len() - index,
        {
            self.inputs[index].validate_contents(&capture.inputs[index])?;
            index += 1;
        }
        Ok(())
    }

    fn compare_positives(&self, capture: &RecordCapture) -> (outcome: Result<
        (),
        DirectValidationError,
    >)
        requires
            captures(*self, *capture),
        ensures
            match outcome {
                Ok(_) => positives_change(self.resolution.positive@, capture.positive@, 0) is None,
                Err(error) => positives_change(self.resolution.positive@, capture.positive@, 0)
                    == Some(error@),
            },
    {
        let positive = &self.resolution.positive;
        let mut index: usize = 0;
        while index < positive.len()
            invariant
                index <= positive.len() == capture.positive.len(),
                *positive == self.resolution.positive,
                captures(*self, *capture),
                positives_change(positive@, capture.positive@, 0) == positives_change(
                    positive@,
                    capture.positive@,
                    index as int,
                ),
            decreases positive.len() - index,
        {
            let witness = &positive[index];
            let current = &capture.positive[index];
            witness.selected_path.validate(WitnessFileType::Regular, &current.selected)?;
            assert(capture.positive@[index as int].earlier@.len()
                == positive@[index as int].earlier_candidates@.len());
            compare_absents(&witness.earlier_candidates, &current.earlier)?;
            index += 1;
        }
        Ok(())
    }

    fn compare_negatives(&self, capture: &RecordCapture) -> (outcome: Result<
        (),
        DirectValidationError,
    >)
        requires
            captures(*self, *capture),
        ensures
            match outcome {
                Ok(_) => negatives_change(self.resolution.negative@, capture.negative@, 0) is None,
                Err(error) => negatives_change(self.resolution.negative@, capture.negative@, 0)
                    == Some(error@),
            },
    {
        let negative = &self.resolution.negative;
        let mut index: usize = 0;
        while index < negative.len()
            invariant
                index <= negative.len() == capture.negative.len(),
                *negative == self.resolution.negative,
                negatives_change(negative@, capture.negative@, 0) == negatives_change(
                    negative@,
                    capture.negative@,
                    index as int,
                ),
            decreases negative.len() - index,
        {
            negative[index].candidate.validate(&capture.negative[index])?;
            index += 1;
        }
        Ok(())
    }
}

impl<'a> ValidatedDirectRecord<'a> {
    /// The record.
    pub fn record(&self) -> (record: &DirectRecord)
        ensures
            *record == *self.record,
    {
        self.record
    }

    /// Repeats all filesystem checks, on what is found just before restored outputs are committed.
    pub fn revalidate(&self, capture: &RecordCapture) -> (outcome: Result<
        (),
        DirectValidationError,
    >)
        requires
            captures(*self.record, *capture),
        ensures
            match outcome {
                Ok(_) => filesystem_change(*self.record, *capture) is None,
                Err(error) => filesystem_change(*self.record, *capture) == Some(error@),
            },
    {
        self.record.validate_filesystem_once(capture)
    }
}

proof fn lemma_inputs_unchanged(
    list: Seq<DirectInput>,
    current: Seq<InputCapture>,
    index: int,
    at: int,
)
    requires
        0 <= index <= at < list.len(),
        inputs_change(list, current, index) is None,
    ensures
        input_change(list[at], current[at]) is None,
    decreases at - index,
{
    if index < at {
        lemma_inputs_unchanged(list, current, index + 1, at);
    }
}

proof fn lemma_positives_unchanged(
    list: Seq<PositiveResolutionWitness>,
    current: Seq<PositiveCapture>,
    index: int,
    at: int,
)
    requires
        0 <= index <= at < list.len(),
        positives_change(list, current, index) is None,
    ensures
        positive_change(list[at], current[at]) is None,
    decreases at - index,
{
    if index < at {
        lemma_positives_unchanged(list, current, index + 1, at);
    }
}

proof fn lemma_absents_unchanged(
    list: Seq<AbsentPathWitness>,
    current: Seq<AbsentCapture>,
    index: int,
    at: int,
)
    requires
        0 <= index <= at < list.len(),
        absents_change(list, current, index) is None,
    ensures
        absent_change(list[at], current[at]) is None,
    decreases at - index,
{
    if index < at {
        lemma_absents_unchanged(list, current, index + 1, at);
    }
}

/// A record is valid only while every input has the recorded contents behind the recorded path.
pub proof fn law_valid_inputs_are_unchanged(
    record: DirectRecord,
    capture: RecordCapture,
    at: int,
)
    requires
        filesystem_change(record, capture) is None,
        0 <= at < record.inputs@.len(),
    ensures
        ({
            let input = record.inputs@[at];
            let current = capture.inputs@[at];
            &&& current.contents matches Ok(contents) && contents.digest@ == input.digest@
                && contents.size == input.size
            &&& current.before matches Ok(found) && identical(
                input.path,
                found,
                WitnessFileType::Regular,
            )
            &&& current.after matches Ok(found) && identical(
                input.path,
                found,
                WitnessFileType::Regular,
            )
        }),
{
    lemma_inputs_unchanged(record.inputs@, capture.inputs@, 0, at);
}

/// A record is valid only while every path that could shadow a selected input is still absent.
pub proof fn law_valid_shadows_are_absent(
    record: DirectRecord,
    capture: RecordCapture,
    at: int,
    candidate: int,
)
    requires
        filesystem_change(record, capture) is None,
        0 <= at < record.resolution.positive@.len(),
        0 <= candidate < record.resolution.positive@[at].earlier_candidates@.len(),
    ensures
        capture.positive@[at].earlier@[candidate].absence is Ok,
{
    let positive = record.resolution.positive@;
    lemma_positives_unchanged(positive, capture.positive@, 0, at);
    lemma_absents_unchanged(
        positive[at].earlier_candidates@,
        capture.positive@[at].earlier@,
        0,
        candidate,
    );
}

/// Why an index holds no candidates for a request.
#[derive(Clone, Copy, Debug, PartialEq, Eq, Structural)]
pub enum DirectMissReason {
    Missing,
    Oversized,
    Corrupt,
    UnsupportedSchema(u32),
    RequestKeyMismatch,
}

/// The candidates that an index holds for a request.
#[derive(Clone, Debug, PartialEq, Eq)]
pub struct DirectLookup {
    pub candidates: Vec<DirectRecord>,
    pub missing_result_candidates: Vec<DirectRecord>,
    pub miss_reason: Option<DirectMissReason>,
}

impl DirectLookup {
    fn miss(reason: DirectMissReason) -> (lookup: Self)
        ensures
            lookup.candidates@.len() == 0,
            lookup.missing_result_candidates@.len() == 0,
            lookup.miss_reason == Some(reason),
    {
        DirectLookup {
            candidates: Vec::new(),
            missing_result_candidates: Vec::new(),
            miss_reason: Some(reason),
        }
    }

    /// There is no candidate at all.
    pub fn is_miss(&self) -> (yes: bool)
        ensures
            yes == (self.candidates@.len() == 0 && self.missing_result_candidates@.len() == 0),
    {
        self.candidates.len() == 0 && self.missing_result_candidates.len() == 0
    }
}

/// Why records are not indexed.
#[derive(Clone, Debug, PartialEq, Eq)]
pub enum DirectIndexError<S = String> {
    Record(DirectRecordError),
    /// The file system refuses.
    Io(S),
    /// The records cannot be written down.
    Json(S),
    TooLarge,
}

/// Why records are not indexed, in views.
pub type IndexFault = DirectIndexError<Seq<char>>;

impl View for DirectIndexError {
    type V = IndexFault;

    open spec fn view(&self) -> IndexFault {
        match *self {
            DirectIndexError::Record(error) => DirectIndexError::Record(error),
            DirectIndexError::Io(text) => DirectIndexError::Io(text@),
            DirectIndexError::Json(text) => DirectIndexError::Json(text@),
            DirectIndexError::TooLarge => DirectIndexError::TooLarge,
        }
    }
}

/// The words of an error of an index.
pub open spec fn index_error_text(error: IndexFault) -> Seq<char> {
    match error {
        DirectIndexError::Record(fault) => "invalid direct record: "@ + record_error_text(fault),
        DirectIndexError::Io(text) => "direct index I/O error: "@ + text,
        DirectIndexError::Json(text) => "direct index serialization failed: "@ + text,
        DirectIndexError::TooLarge => "direct index exceeds the size limit"@,
    }
}

impl DirectIndexError {
    /// The words of the error.
    pub fn message(&self) -> (text: String)
        ensures
            text@ == index_error_text(self@),
    {
        match self {
            DirectIndexError::Record(fault) => words::two(
                "invalid direct record: ",
                fault.message().as_str(),
            ),
            DirectIndexError::Io(text) => words::two("direct index I/O error: ", text.as_str()),
            DirectIndexError::Json(text) => words::two(
                "direct index serialization failed: ",
                text.as_str(),
            ),
            DirectIndexError::TooLarge => "direct index exceeds the size limit".to_owned(),
        }
    }
}

/// The stored candidates of one request.
#[derive(Clone, Debug, PartialEq, Eq)]
pub struct DirectIndexFile {
    pub schema_version: u32,
    pub request_key: DirectRequestKey,
    pub candidates: Vec<DirectRecord>,
    pub checksum: DirectDigest,
}

/// Why stored candidates are refused.
#[derive(Clone, Copy, Debug, PartialEq, Eq, Structural)]
pub enum DirectIndexDecodeError {
    UnsupportedSchema(u32),
    RequestKeyMismatch,
    Oversized,
    Corrupt,
}

/// Some candidate before `count` has the given action.
pub open spec fn acted_before(list: Seq<DirectRecord>, action: Seq<u8>, count: int) -> bool {
    exists|at: int| 0 <= at < count && (#[trigger] list[at]).action_key@ == action
}

/// Some candidate from `index` on is invalid or repeats an action.
pub open spec fn candidates_corrupt(list: Seq<DirectRecord>, index: int) -> bool
    decreases list.len() - index,
{
    if index >= list.len() {
        false
    } else {
        ||| record_fault(list[index]) is Some
        ||| acted_before(list, list[index].action_key@, index)
        ||| candidates_corrupt(list, index + 1)
    }
}

/// The first fault of stored candidates, of which `payload` is what their checksum covers.
pub open spec fn index_fault(
    file: DirectIndexFile,
    expected_key: Seq<u8>,
    payload: Seq<u8>,
) -> Option<DirectIndexDecodeError> {
    if file.schema_version != DIRECT_INDEX_SCHEMA_VERSION {
        Some(DirectIndexDecodeError::UnsupportedSchema(file.schema_version))
    } else if file.request_key@ != expected_key {
        Some(DirectIndexDecodeError::RequestKeyMismatch)
    } else if file.checksum@ != digest::blake3_digest(payload) {
        Some(DirectIndexDecodeError::Corrupt)
    } else if file.candidates@.len() == 0 || file.candidates@.len() > MAX_DIRECT_CANDIDATES {
        Some(DirectIndexDecodeError::Corrupt)
    } else if candidates_corrupt(file.candidates@, 0) {
        Some(DirectIndexDecodeError::Corrupt)
    } else {
        None
    }
}

impl DirectIndexFile {
    /// The stored form of candidates, of which `payload` is what their checksum covers.
    pub fn seal(
        request_key: DirectRequestKey,
        candidates: Vec<DirectRecord>,
        payload: &[u8],
    ) -> (file: Self)
        ensures
            file.schema_version == DIRECT_INDEX_SCHEMA_VERSION,
            file.request_key == request_key,
            file.candidates == candidates,
            file.checksum@ == digest::blake3_digest(payload@),
    {
        DirectIndexFile {
            schema_version: DIRECT_INDEX_SCHEMA_VERSION,
            request_key,
            candidates,
            checksum: DirectDigest::hash(payload),
        }
    }

    /// The text of stored candidates, of which `payload` is what their checksum covers. `written`
    /// is what writing them gave.
    pub fn to_json(&self, payload: &[u8], written: Result<Vec<u8>, String>) -> (outcome: Result<
        Vec<u8>,
        DirectIndexError,
    >)
        ensures
            match outcome {
                Ok(text) => index_fault(*self, self.request_key@, payload@) is None && written
                    == Ok::<Vec<u8>, String>(text) && text@.len() <= MAX_DIRECT_INDEX_SIZE,
                Err(error) => if index_fault(*self, self.request_key@, payload@) is Some {
                    error@ == IndexFault::TooLarge
                } else {
                    match written {
                        Err(text) => error@ == IndexFault::Json(text@),
                        Ok(text) => text@.len() > MAX_DIRECT_INDEX_SIZE && error@
                            == IndexFault::TooLarge,
                    }
                },
            },
    {
        if self.validate(&self.request_key, payload).is_err() {
            return Err(DirectIndexError::TooLarge);
        }
        match written {
            Err(text) => Err(DirectIndexError::Json(text)),
            Ok(text) => if text.len() > MAX_DIRECT_INDEX_SIZE {
                Err(DirectIndexError::TooLarge)
            } else {
                Ok(text)
            },
        }
    }

    /// Checks stored candidates, of which `payload` is what their checksum covers.
    pub fn validate(&self, expected_key: &DirectRequestKey, payload: &[u8]) -> (outcome: Result<
        (),
        DirectIndexDecodeError,
    >)
        ensures
            match outcome {
                Ok(_) => index_fault(*self, expected_key@, payload@) is None,
                Err(error) => index_fault(*self, expected_key@, payload@) == Some(error),
            },
    {
        if self.schema_version != DIRECT_INDEX_SCHEMA_VERSION {
            return Err(DirectIndexDecodeError::UnsupportedSchema(self.schema_version));
        }
        if !self.request_key.same(expected_key) {
            return Err(DirectIndexDecodeError::RequestKeyMismatch);
        }
        if !DirectDigest::hash(payload).same(&self.checksum) {
            return Err(DirectIndexDecodeError::Corrupt);
        }
        let list = &self.candidates;
        if list.len() == 0 || list.len() > MAX_DIRECT_CANDIDATES {
            return Err(DirectIndexDecodeError::Corrupt);
        }
        let mut index: usize = 0;
        while index < list.len()
            invariant
                index <= list.len(),
                *list == self.candidates,
                self.schema_version == DIRECT_INDEX_SCHEMA_VERSION,
                self.request_key@ == expected_key@,
                self.checksum@ == digest::blake3_digest(payload@),
                0 < list@.len() <= MAX_DIRECT_CANDIDATES,
                candidates_corrupt(list@, 0) == candidates_corrupt(list@, index as int),
            decreases list.len() - index,
        {
            if list[index].validate_schema().is_err() {
                return Err(DirectIndexDecodeError::Corrupt);
            }
            let mut earlier: usize = 0;
            while earlier < index
                invariant
                    earlier <= index < list.len(),
                    *list == self.candidates,
                    self.schema_version == DIRECT_INDEX_SCHEMA_VERSION,
                    self.request_key@ == expected_key@,
                    self.checksum@ == digest::blake3_digest(payload@),
                    0 < list@.len() <= MAX_DIRECT_CANDIDATES,
                    candidates_corrupt(list@, 0) == candidates_corrupt(list@, index as int),
                    forall|at: int|
                        0 <= at < earlier ==> (#[trigger] list@[at]).action_key@
                            != list@[index as int].action_key@,
                decreases index - earlier,
            {
                if list[earlier].action_key.same(&list[index].action_key) {
                    assert(list@[earlier as int].action_key@ == list@[index as int].action_key@);
                    return Err(DirectIndexDecodeError::Corrupt);
                }
                earlier += 1;
            }
            index += 1;
        }
        Ok(())
    }
}

/// What was found where the candidates of a request are stored.
#[derive(Debug)]
pub enum StoredIndex {
    Missing,
    /// Something that is not a regular file.
    NotRegular,
    /// A file of `length` bytes: the schema version that its text states, the candidates that its
    /// text holds, and what their checksum covers.
    File {
        length: u64,
        schema_version: Option<u32>,
        file: Option<DirectIndexFile>,
        payload: Vec<u8>,
    },
}

/// The candidates that were loaded.
#[derive(Debug)]
pub enum LoadedIndex {
    File(DirectIndexFile),
    Miss(DirectMissReason),
}

/// Why nothing can be loaded of what was found.
pub open spec fn load_miss(stored: StoredIndex, expected_key: Seq<u8>) -> Option<
    DirectMissReason,
> {
    match stored {
        StoredIndex::Missing => Some(DirectMissReason::Missing),
        StoredIndex::NotRegular => Some(DirectMissReason::Corrupt),
        StoredIndex::File { length, schema_version, file, payload } => if length
            > MAX_DIRECT_INDEX_SIZE {
            Some(DirectMissReason::Oversized)
        } else if schema_version is None {
            Some(DirectMissReason::Corrupt)
        } else if schema_version->0 != DIRECT_INDEX_SCHEMA_VERSION {
            Some(DirectMissReason::UnsupportedSchema(schema_version->0))
        } else if file is None {
            Some(DirectMissReason::Corrupt)
        } else {
            match index_fault(file->0, expected_key, payload@) {
                None => None,
                Some(DirectIndexDecodeError::UnsupportedSchema(version)) => Some(
                    DirectMissReason::UnsupportedSchema(version),
                ),
                Some(DirectIndexDecodeError::RequestKeyMismatch) => Some(
                    DirectMissReason::RequestKeyMismatch,
                ),
                Some(DirectIndexDecodeError::Oversized) => Some(DirectMissReason::Oversized),
                Some(DirectIndexDecodeError::Corrupt) => Some(DirectMissReason::Corrupt),
            }
        },
    }
}

/// Those of the first `count` items of a list whose flag has the given value.
pub open spec fn flagged(
    list: Seq<DirectRecord>,
    flags: Seq<bool>,
    value: bool,
    count: int,
) -> Seq<DirectRecord>
    decreases count,
{
    if count <= 0 {
        Seq::empty()
    } else if (count - 1 < flags.len() && flags[count - 1]) == value {
        flagged(list, flags, value, count - 1).push(list[count - 1])
    } else {
        flagged(list, flags, value, count - 1)
    }
}

/// Those of the first `count` candidates that stay beside a new one: their result still exists, and
/// their action is another.
pub open spec fn retained(
    list: Seq<DirectRecord>,
    present: Seq<bool>,
    action: Seq<u8>,
    count: int,
) -> Seq<DirectRecord>
    decreases count,
{
    if count <= 0 {
        Seq::empty()
    } else if list[count - 1].action_key@ != action && count - 1 < present.len() && present[count
        - 1] {
        retained(list, present, action, count - 1).push(list[count - 1])
    } else {
        retained(list, present, action, count - 1)
    }
}

/// The candidates with a new one first, as many as an index keeps.
pub open spec fn published(
    list: Seq<DirectRecord>,
    present: Seq<bool>,
    record: DirectRecord,
) -> Seq<DirectRecord> {
    let all = seq![record] + retained(list, present, record.action_key@, list.len() as int);
    if all.len() > MAX_DIRECT_CANDIDATES {
        all.take(MAX_DIRECT_CANDIDATES as int)
    } else {
        all
    }
}

/// The candidates that were loaded, of which there are none on a miss.
pub open spec fn loaded_candidates(loaded: LoadedIndex) -> Seq<DirectRecord> {
    match loaded {
        LoadedIndex::File(file) => file.candidates@,
        LoadedIndex::Miss(_) => Seq::empty(),
    }
}

/// Where the candidates of requests are stored.
#[derive(Clone, Debug)]
pub struct DirectIndex {
    pub cache_root: Vec<u8>,
}

/// The directory of all direct observations.
pub open spec fn direct_directory(cache_root: Seq<u8>) -> Seq<u8> {
    upath::joined(cache_root, bstr::utf8("v1/direct"@))
}

/// The file with the candidates of a request.
pub open spec fn index_file(cache_root: Seq<u8>, request_key: Seq<u8>) -> Seq<u8> {
    let name = bstr::utf8(hex::hex_text(request_key));
    upath::joined(
        upath::joined(
            upath::joined(direct_directory(cache_root), bstr::utf8("index"@)),
            name.take(2),
        ),
        name + bstr::utf8(".json"@),
    )
}

/// The file by which writers of the candidates of a request exclude each other.
pub open spec fn lock_file(cache_root: Seq<u8>, request_key: Seq<u8>) -> Seq<u8> {
    upath::joined(
        upath::joined(direct_directory(cache_root), bstr::utf8("locks"@)),
        bstr::utf8(hex::hex_text(request_key)),
    )
}

impl DirectIndex {
    /// An index below a cache directory. Nothing is created or read.
    pub fn open(cache_root: Vec<u8>) -> (index: Self)
        ensures
            index.cache_root@ == cache_root@,
    {
        DirectIndex { cache_root }
    }

    fn direct_root(&self) -> (path: Vec<u8>)
        ensures
            path@ == direct_directory(self.cache_root@),
    {
        upath::join(self.cache_root.as_slice(), bstr::of("v1/direct"))
    }

    /// The directory of the stored candidates.
    pub fn index_root(&self) -> (path: Vec<u8>)
        ensures
            path@ == upath::joined(direct_directory(self.cache_root@), bstr::utf8("index"@)),
    {
        upath::join(self.direct_root().as_slice(), bstr::of("index"))
    }

    /// The directory of the lock files.
    pub fn lock_root(&self) -> (path: Vec<u8>)
        ensures
            path@ == upath::joined(direct_directory(self.cache_root@), bstr::utf8("locks"@)),
    {
        upath::join(self.direct_root().as_slice(), bstr::of("locks"))
    }

    /// The file with the candidates of a request.
    pub fn index_path(&self, request_key: &DirectRequestKey) -> (path: Vec<u8>)
        ensures
            path@ == index_file(self.cache_root@, request_key@),
    {
        let name = hex::encode_bytes(request_key.bytes.as_slice());
        let shard = upath::join(self.index_root().as_slice(), bstr::take(name.as_slice(), 2));
        let file = bstr::concat(name.as_slice(), bstr::of(".json"));
        upath::join(shard.as_slice(), file.as_slice())
    }

    /// The file by which writers of the candidates of a request exclude each other.
    pub fn lock_path(&self, request_key: &DirectRequestKey) -> (path: Vec<u8>)
        ensures
            path@ == lock_file(self.cache_root@, request_key@),
    {
        let name = hex::encode_bytes(request_key.bytes.as_slice());
        upath::join(self.lock_root().as_slice(), name.as_slice())
    }

    /// The candidates of what was found for a request.
    pub fn load_file(&self, request_key: &DirectRequestKey, stored: StoredIndex) -> (loaded:
        LoadedIndex)
        ensures
            match loaded {
                LoadedIndex::Miss(reason) => load_miss(stored, request_key@) == Some(reason),
                LoadedIndex::File(file) => load_miss(stored, request_key@) is None && stored is File
                    && stored->file == Some(file),
            },
    {
        match stored {
            StoredIndex::Missing => LoadedIndex::Miss(DirectMissReason::Missing),
            StoredIndex::NotRegular => LoadedIndex::Miss(DirectMissReason::Corrupt),
            StoredIndex::File { length, schema_version, file, payload } => {
                if length > MAX_DIRECT_INDEX_SIZE as u64 {
                    return LoadedIndex::Miss(DirectMissReason::Oversized);
                }
                match schema_version {
                    None => {
                        return LoadedIndex::Miss(DirectMissReason::Corrupt);
                    },
                    Some(version) => {
                        if version != DIRECT_INDEX_SCHEMA_VERSION {
                            return LoadedIndex::Miss(DirectMissReason::UnsupportedSchema(version));
                        }
                    },
                }
                match file {
                    None => LoadedIndex::Miss(DirectMissReason::Corrupt),
                    Some(found) => match found.validate(request_key, payload.as_slice()) {
                        Ok(_) => LoadedIndex::File(found),
                        Err(DirectIndexDecodeError::UnsupportedSchema(version)) => {
                            LoadedIndex::Miss(DirectMissReason::UnsupportedSchema(version))
                        },
                        Err(DirectIndexDecodeError::RequestKeyMismatch) => LoadedIndex::Miss(
                            DirectMissReason::RequestKeyMismatch,
                        ),
                        Err(DirectIndexDecodeError::Oversized) => LoadedIndex::Miss(
                            DirectMissReason::Oversized,
                        ),
                        Err(DirectIndexDecodeError::Corrupt) => LoadedIndex::Miss(
                            DirectMissReason::Corrupt,
                        ),
                    },
                }
            },
        }
    }

    /// The candidates that were loaded.
    pub fn lookup(&self, loaded: LoadedIndex) -> (lookup: DirectLookup)
        ensures
            lookup.candidates@ == loaded_candidates(loaded),
            lookup.missing_result_candidates@.len() == 0,
            lookup.miss_reason == match loaded {
                LoadedIndex::File(_) => None::<DirectMissReason>,
                LoadedIndex::Miss(reason) => Some(reason),
            },
    {
        match loaded {
            LoadedIndex::Miss(reason) => {
                let missed = DirectLookup::miss(reason);
                assert(missed.candidates@ =~= Seq::empty());
                missed
            },
            LoadedIndex::File(file) => DirectLookup {
                candidates: file.candidates,
                missing_result_candidates: Vec::new(),
                miss_reason: None,
            },
        }
    }

    /// The candidates that were loaded, those whose result is gone kept apart. `present` says for
    /// each candidate whether its result still exists.
    pub fn lookup_with_manifest_check(&self, loaded: LoadedIndex, present: &Vec<bool>) -> (lookup:
        DirectLookup)
        ensures
            lookup.candidates@ == flagged(
                loaded_candidates(loaded),
                present@,
                true,
                loaded_candidates(loaded).len() as int,
            ),
            lookup.missing_result_candidates@ == flagged(
                loaded_candidates(loaded),
                present@,
                false,
                loaded_candidates(loaded).len() as int,
            ),
            lookup.miss_reason == match loaded {
                LoadedIndex::File(_) => None::<DirectMissReason>,
                LoadedIndex::Miss(reason) => Some(reason),
            },
    {
        let file = match loaded {
            LoadedIndex::Miss(reason) => {
                let missed = DirectLookup::miss(reason);
                assert(missed.candidates@ =~= Seq::empty());
                assert(missed.missing_result_candidates@ =~= Seq::empty());
                return missed;
            },
            LoadedIndex::File(file) => file,
        };
        let ghost all = file.candidates@;
        let mut waiting = file.candidates;
        let mut candidates: Vec<DirectRecord> = Vec::new();
        let mut missing_result_candidates: Vec<DirectRecord> = Vec::new();
        let mut index: usize = 0;
        assert(waiting@ =~= all.skip(0));
        while waiting.len() > 0
            invariant
                index + waiting@.len() == all.len(),
                index + waiting.len() <= usize::MAX,
                waiting@ =~= all.skip(index as int),
                candidates@ =~= flagged(all, present@, true, index as int),
                missing_result_candidates@ =~= flagged(all, present@, false, index as int),
            decreases waiting@.len(),
        {
            let candidate = waiting.remove(0);
            assert(candidate == all[index as int]);
            if index < present.len() && present[index] {
                candidates.push(candidate);
            } else {
                missing_result_candidates.push(candidate);
            }
            index += 1;
        }
        DirectLookup { candidates, missing_result_candidates, miss_reason: None }
    }

    /// The candidates with a new observation first, the older ones behind it.
    pub fn publish(&self, loaded: LoadedIndex, record: DirectRecord) -> (outcome: Result<
        Vec<DirectRecord>,
        DirectIndexError,
    >)
        ensures
            match outcome {
                Ok(candidates) => record_fault(record) is None && candidates@ == published(
                    loaded_candidates(loaded),
                    Seq::new(loaded_candidates(loaded).len(), |at: int| true),
                    record,
                ),
                Err(error) => record_fault(record) is Some && error@ == IndexFault::Record(
                    record_fault(record)->0,
                ),
            },
    {
        let count = match &loaded {
            LoadedIndex::File(file) => file.candidates.len(),
            LoadedIndex::Miss(_) => 0,
        };
        let mut present: Vec<bool> = Vec::new();
        let mut index: usize = 0;
        while index < count
            invariant
                index <= count,
                present@ =~= Seq::new(index as nat, |at: int| true),
            decreases count - index,
        {
            present.push(true);
            index += 1;
        }
        self.publish_with_manifest_check(loaded, record, &present)
    }

    /// The candidates with a new observation first, and behind it those of other actions whose
    /// result still exists. `present` says for each loaded candidate whether its result does.
    pub fn publish_with_manifest_check(
        &self,
        loaded: LoadedIndex,
        record: DirectRecord,
        present: &Vec<bool>,
    ) -> (outcome: Result<Vec<DirectRecord>, DirectIndexError>)
        ensures
            match outcome {
                Ok(candidates) => record_fault(record) is None && candidates@ == published(
                    loaded_candidates(loaded),
                    present@,
                    record,
                ),
                Err(error) => record_fault(record) is Some && error@ == IndexFault::Record(
                    record_fault(record)->0,
                ),
            },
    {
        match record.validate_schema() {
            Ok(_) => {},
            Err(error) => {
                return Err(DirectIndexError::Record(error));
            },
        }
        let ghost all = loaded_candidates(loaded);
        let ghost action = record.action_key@;
        let mut waiting = match loaded {
            LoadedIndex::File(file) => file.candidates,
            LoadedIndex::Miss(_) => Vec::new(),
        };
        assert(waiting@ =~= all);
        let action_key = record.action_key;
        let mut candidates: Vec<DirectRecord> = Vec::new();
        candidates.push(record);
        let mut index: usize = 0;
        assert(waiting@ =~= all.skip(0));
        while waiting.len() > 0
            invariant
                index + waiting@.len() == all.len(),
                index + waiting.len() <= usize::MAX,
                waiting@ =~= all.skip(index as int),
                action == action_key@,
                candidates@ =~= seq![record] + retained(all, present@, action, index as int),
            decreases waiting@.len(),
        {
            let candidate = waiting.remove(0);
            assert(candidate == all[index as int]);
            if !candidate.action_key.same(&action_key) && index < present.len() && present[index] {
                candidates.push(candidate);
            }
            index += 1;
        }
        candidates.truncate(MAX_DIRECT_CANDIDATES);
        Ok(candidates)
    }
}

proof fn lemma_retained(
    list: Seq<DirectRecord>,
    present: Seq<bool>,
    action: Seq<u8>,
    count: int,
)
    requires
        0 <= count <= list.len(),
    ensures
        forall|at: int|
            0 <= at < retained(list, present, action, count).len() ==> (#[trigger] retained(
                list,
                present,
                action,
                count,
            )[at]).action_key@ != action,
        forall|at: int|
            0 <= at < retained(list, present, action, count).len() ==> list.take(count).contains(
                #[trigger] retained(list, present, action, count)[at],
            ),
    decreases count,
{
    if count > 0 {
        lemma_retained(list, present, action, count - 1);
        let before = retained(list, present, action, count - 1);
        let after = retained(list, present, action, count);
        assert forall|at: int| 0 <= at < after.len() implies list.take(count).contains(
            #[trigger] after[at],
        ) by {
            if at < before.len() {
                assert(list.take(count - 1).contains(before[at]));
                let seen = list.take(count - 1);
                let found = choose|found: int| 0 <= found < seen.len() && seen[found] == before[at];
                assert(list.take(count)[found] == before[at]);
            } else {
                assert(list.take(count)[count - 1] == list[count - 1]);
            }
        }
    }
}

proof fn lemma_retained_distinct(
    list: Seq<DirectRecord>,
    present: Seq<bool>,
    action: Seq<u8>,
    count: int,
)
    requires
        0 <= count <= list.len(),
        forall|left: int, right: int|
            0 <= left < right < list.len() ==> (#[trigger] list[left]).action_key@ != (
            #[trigger] list[right]).action_key@,
    ensures
        ({
            let kept = retained(list, present, action, count);
            forall|left: int, right: int|
                0 <= left < right < kept.len() ==> (#[trigger] kept[left]).action_key@ != (
                #[trigger] kept[right]).action_key@
        }),
    decreases count,
{
    if count > 0 {
        lemma_retained_distinct(list, present, action, count - 1);
        lemma_retained(list, present, action, count - 1);
        let before = retained(list, present, action, count - 1);
        let after = retained(list, present, action, count);
        assert forall|left: int, right: int| 0 <= left < right < after.len() implies (
        #[trigger] after[left]).action_key@ != (#[trigger] after[right]).action_key@ by {
            if right == before.len() {
                assert(after[left] == before[left]);
                assert(list.take(count - 1).contains(before[left]));
                let seen = list.take(count - 1);
                let found = choose|found: int|
                    0 <= found < seen.len() && seen[found] == before[left];
                assert(list[found] == before[left]);
                assert(after[right] == list[count - 1]);
            } else {
                assert(after[left] == before[left]);
                assert(after[right] == before[right]);
            }
        }
    }
}

/// Publication keeps the newest observation first, never more than the limit, and never two of the
/// same action.
pub proof fn law_publication_keeps_recent_distinct_candidates(
    list: Seq<DirectRecord>,
    present: Seq<bool>,
    record: DirectRecord,
)
    requires
        forall|left: int, right: int|
            0 <= left < right < list.len() ==> (#[trigger] list[left]).action_key@ != (
            #[trigger] list[right]).action_key@,
    ensures
        ({
            let kept = published(list, present, record);
            &&& 0 < kept.len() <= MAX_DIRECT_CANDIDATES
            &&& kept[0] == record
            &&& forall|left: int, right: int|
                0 <= left < right < kept.len() ==> (#[trigger] kept[left]).action_key@ != (
                #[trigger] kept[right]).action_key@
        }),
{
    let action = record.action_key@;
    let count = list.len() as int;
    lemma_retained(list, present, action, count);
    lemma_retained_distinct(list, present, action, count);
    let older = retained(list, present, action, count);
    let kept = published(list, present, record);
    assert forall|left: int, right: int| 0 <= left < right < kept.len() implies (
    #[trigger] kept[left]).action_key@ != (#[trigger] kept[right]).action_key@ by {
        assert(kept[right] == older[right - 1]);
        if left > 0 {
            assert(kept[left] == older[left - 1]);
        }
    }
}

proof fn lemma_flagged(list: Seq<DirectRecord>, flags: Seq<bool>, count: int)
    requires
        0 <= count <= list.len(),
    ensures
        flagged(list, flags, true, count).len() + flagged(list, flags, false, count).len() == count,
    decreases count,
{
    if count > 0 {
        lemma_flagged(list, flags, count - 1);
    }
}

/// A lookup loses no observation: each loaded candidate is among those with a result or among those
/// without.
pub proof fn law_lookup_keeps_every_candidate(list: Seq<DirectRecord>, present: Seq<bool>)
    ensures
        flagged(list, present, true, list.len() as int).len() + flagged(
            list,
            present,
            false,
            list.len() as int,
        ).len() == list.len(),
{
    lemma_flagged(list, present, list.len() as int);
}

} // verus!
