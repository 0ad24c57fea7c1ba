//! Content-addressable local storage.
//!
//! What is in the file system comes in as plain values; what has to be done there goes out.
use vstd::prelude::*;
use vstd::string::*;

use crate::bstr;
use crate::cache::key::ActionKey;
use crate::cache::manifest;
use crate::cache::manifest::{Artifact, BlobRef, Manifest, ManifestError, ManifestView};
use crate::digest;
use crate::hex;
use crate::upath;
use crate::words;

verus! {

/// Why the cache does not do what was asked.
#[derive(Clone, Debug, PartialEq, Eq)]
pub enum CacheError<B = Vec<u8>, S = String> {
    /// Nothing is stored.
    Miss,
    /// Something else is stored.
    Corrupt(S),
    /// Two different results were produced.
    Conflict,
    /// A manifest is refused.
    Manifest(ManifestError<S>),
    /// The file system refuses.
    Io(S),
    SymlinkDestination(B),
    MissingDestination(S),
    UnexpectedDestination(S),
    DestinationRoleMismatch(S),
    DuplicateDestination(B),
    InvalidDestination(B),
    InvalidCacheDirectory(B),
    SymlinkCacheFile(B),
}

/// Why the cache does not do what was asked, in views.
pub type Fault = CacheError<Seq<u8>, Seq<char>>;

impl View for CacheError {
    type V = Fault;

    open spec fn view(&self) -> Fault {
        match *self {
            CacheError::Miss => CacheError::Miss,
            CacheError::Corrupt(text) => CacheError::Corrupt(text@),
            CacheError::Conflict => CacheError::Conflict,
            CacheError::Manifest(error) => CacheError::Manifest(error@),
            CacheError::Io(text) => CacheError::Io(text@),
            CacheError::SymlinkDestination(path) => CacheError::SymlinkDestination(path@),
            CacheError::MissingDestination(name) => CacheError::MissingDestination(name@),
            CacheError::UnexpectedDestination(name) => CacheError::UnexpectedDestination(name@),
            CacheError::DestinationRoleMismatch(name) => CacheError::DestinationRoleMismatch(name@),
            CacheError::DuplicateDestination(path) => CacheError::DuplicateDestination(path@),
            CacheError::InvalidDestination(path) => CacheError::InvalidDestination(path@),
            CacheError::InvalidCacheDirectory(path) => CacheError::InvalidCacheDirectory(path@),
            CacheError::SymlinkCacheFile(path) => CacheError::SymlinkCacheFile(path@),
        }
    }
}

/// The words of an error.
pub open spec fn error_text(error: Fault) -> Seq<char> {
    match error {
        CacheError::Miss => "cache miss"@,
        CacheError::Corrupt(text) => "cache entry is corrupt: "@ + text,
        CacheError::Conflict => "cache entry conflicts with an existing result"@,
        CacheError::Manifest(fault) => "manifest error: "@ + manifest::error_text(fault),
        CacheError::Io(text) => "I/O error: "@ + text,
        CacheError::SymlinkDestination(path) => {
            "destination is a symlink: "@ + words::lossy_text(path)
        },
        CacheError::MissingDestination(name) => "missing destination for artifact "@ + name,
        CacheError::UnexpectedDestination(name) => "unexpected destination for artifact "@ + name,
        CacheError::DestinationRoleMismatch(name) => {
            "destination role does not match artifact "@ + name
        },
        CacheError::DuplicateDestination(path) => {
            "restore destination is used by more than one artifact: "@ + words::lossy_text(path)
        },
        CacheError::InvalidDestination(path) => {
            "destination paths must be regular files or absent: "@ + words::lossy_text(path)
        },
        CacheError::InvalidCacheDirectory(path) => {
            "cache-owned path is not a real directory: "@ + words::lossy_text(path)
        },
        CacheError::SymlinkCacheFile(path) => {
            "cache-owned file is a symlink: "@ + words::lossy_text(path)
        },
    }
}

impl CacheError {
    /// The words of the error.
    pub fn message(&self) -> (text: String)
        ensures
            text@ == error_text(self@),
    {
        match self {
            CacheError::Miss => "cache miss".to_owned(),
            CacheError::Corrupt(text) => words::two("cache entry is corrupt: ", text.as_str()),
            CacheError::Conflict => "cache entry conflicts with an existing result".to_owned(),
            CacheError::Manifest(fault) => words::two(
                "manifest error: ",
                fault.message().as_str(),
            ),
            CacheError::Io(text) => words::two("I/O error: ", text.as_str()),
            CacheError::SymlinkDestination(path) => words::two(
                "destination is a symlink: ",
                words::lossy(path.as_slice()).as_str(),
            ),
            CacheError::MissingDestination(name) => words::two(
                "missing destination for artifact ",
                name.as_str(),
            ),
            CacheError::UnexpectedDestination(name) => words::two(
                "unexpected destination for artifact ",
                name.as_str(),
            ),
            CacheError::DestinationRoleMismatch(name) => words::two(
                "destination role does not match artifact ",
                name.as_str(),
            ),
            CacheError::DuplicateDestination(path) => words::two(
                "restore destination is used by more than one artifact: ",
                words::lossy(path.as_slice()).as_str(),
            ),
            CacheError::InvalidDestination(path) => words::two(
                "destination paths must be regular files or absent: ",
                words::lossy(path.as_slice()).as_str(),
            ),
            CacheError::InvalidCacheDirectory(path) => words::two(
                "cache-owned path is not a real directory: ",
                words::lossy(path.as_slice()).as_str(),
            ),
            CacheError::SymlinkCacheFile(path) => words::two(
                "cache-owned file is a symlink: ",
                words::lossy(path.as_slice()).as_str(),
            ),
        }
    }
}

/// What stands at a path, links not followed.
#[derive(Clone, Debug)]
pub enum PathState {
    /// Nothing, and what the file system says of that.
    Missing(String),
    /// It cannot be told.
    Unreadable(String),
    Directory,
    File,
    Symlink,
    Other,
}

/// What reading a file gave.
#[derive(Clone, Debug)]
pub enum FileBytes {
    Read(Vec<u8>),
    /// There is no such file, and what the file system says of that.
    Missing(String),
    Unreadable(String),
}

/// A path that has to be a directory of the cache.
#[derive(Clone, Debug)]
pub struct ExpectedDirectory {
    pub path: Vec<u8>,
    pub state: PathState,
}

/// Why a path is not a directory of the cache.
pub open spec fn directory_fault(path: Seq<u8>, state: PathState) -> Option<Fault> {
    match state {
        PathState::Directory => None,
        PathState::Missing(text) => Some(CacheError::Io(text@)),
        PathState::Unreadable(text) => Some(CacheError::Io(text@)),
        _ => Some(CacheError::InvalidCacheDirectory(path)),
    }
}

/// Checks that a path is a directory, and no link to one.
pub fn require_real_directory(path: &[u8], state: &PathState) -> (outcome: Result<(), CacheError>)
    ensures
        match outcome {
            Ok(_) => directory_fault(path@, *state) is None,
            Err(error) => directory_fault(path@, *state) == Some(error@),
        },
{
    match state {
        PathState::Directory => Ok(()),
        PathState::Missing(text) => Err(CacheError::Io(text.clone())),
        PathState::Unreadable(text) => Err(CacheError::Io(text.clone())),
        _ => Err(CacheError::InvalidCacheDirectory(bstr::copy(path))),
    }
}

/// The first fault of directories that have to be there.
pub open spec fn area_fault(areas: Seq<ExpectedDirectory>, index: int) -> Option<Fault>
    decreases areas.len() - index,
{
    if index >= areas.len() {
        None
    } else if directory_fault(areas[index].path@, areas[index].state) is Some {
        directory_fault(areas[index].path@, areas[index].state)
    } else {
        area_fault(areas, index + 1)
    }
}

/// Checks the directories that lead to an area of the cache, outermost first.
pub fn validate_area(areas: &Vec<ExpectedDirectory>) -> (outcome: Result<(), CacheError>)
    ensures
        match outcome {
            Ok(_) => area_fault(areas@, 0) is None,
            Err(error) => area_fault(areas@, 0) == Some(error@),
        },
{
    let mut index: usize = 0;
    while index < areas.len()
        invariant
            index <= areas@.len(),
            area_fault(areas@, 0) == area_fault(areas@, index as int),
        decreases areas@.len() - index,
    {
        let area = &areas[index];
        require_real_directory(area.path.as_slice(), &area.state)?;
        index += 1;
    }
    Ok(())
}

/// Whether a directory that may be missing is there, or why it cannot be used.
pub open spec fn existing_directory(path: Seq<u8>, state: PathState) -> Result<bool, Fault> {
    match state {
        PathState::Directory => Ok(true),
        PathState::Missing(_) => Ok(false),
        PathState::Unreadable(text) => Err(CacheError::Io(text@)),
        _ => Err(CacheError::InvalidCacheDirectory(path)),
    }
}

/// Whether a directory that may be missing is there.
pub fn validate_existing_cache_directory(path: &[u8], state: &PathState) -> (outcome: Result<
    bool,
    CacheError,
>)
    ensures
        match outcome {
            Ok(there) => existing_directory(path@, *state) == Ok::<bool, Fault>(there),
            Err(error) => existing_directory(path@, *state) == Err::<bool, Fault>(error@),
        },
{
    match state {
        PathState::Directory => Ok(true),
        PathState::Missing(_) => Ok(false),
        PathState::Unreadable(text) => Err(CacheError::Io(text.clone())),
        _ => Err(CacheError::InvalidCacheDirectory(bstr::copy(path))),
    }
}

/// Whether directories, from `index` on, are all there, or why one of them cannot be used.
pub open spec fn existing_directories(areas: Seq<ExpectedDirectory>, index: int) -> Result<
    bool,
    Fault,
>
    decreases areas.len() - index,
{
    if index >= areas.len() {
        Ok(true)
    } else {
        match existing_directory(areas[index].path@, areas[index].state) {
            Err(fault) => Err(fault),
            Ok(there) => if there {
                existing_directories(areas, index + 1)
            } else {
                Ok(false)
            },
        }
    }
}

/// Whether directories that may be missing are all there, outermost first.
pub fn validate_existing_directories(areas: &Vec<ExpectedDirectory>) -> (outcome: Result<
    bool,
    CacheError,
>)
    ensures
        match outcome {
            Ok(there) => existing_directories(areas@, 0) == Ok::<bool, Fault>(there),
            Err(error) => existing_directories(areas@, 0) == Err::<bool, Fault>(error@),
        },
{
    let mut index: usize = 0;
    while index < areas.len()
        invariant
            index <= areas@.len(),
            existing_directories(areas@, 0) == existing_directories(areas@, index as int),
        decreases areas@.len() - index,
    {
        let area = &areas[index];
        if !validate_existing_cache_directory(area.path.as_slice(), &area.state)? {
            return Ok(false);
        }
        index += 1;
    }
    Ok(true)
}

/// The first two bytes of a text, if it has as many, are whole characters.
pub open spec fn splits_at_two(text: Seq<char>) -> bool {
    bstr::utf8(text).len() < 2 || exists|count: int|
        0 <= count <= text.len() && bstr::utf8(#[trigger] text.take(count)).len() == 2
}

/// The first two bytes, or all of them where they are fewer.
pub open spec fn shard_name(name: Seq<u8>) -> Seq<u8> {
    if name.len() < 2 {
        name
    } else {
        name.take(2)
    }
}

/// The file of stored content.
pub open spec fn blob_file(root: Seq<u8>, digest: Seq<u8>) -> Seq<u8> {
    upath::joined(
        upath::joined(upath::joined(root, bstr::utf8("v1/blobs"@)), shard_name(digest)),
        digest,
    )
}

/// The name of an action, as it is written.
pub open spec fn action_name(action: Seq<u8>) -> Seq<u8> {
    bstr::utf8(hex::hex_text(action))
}

/// The file of the result of an action.
pub open spec fn result_file(root: Seq<u8>, action: Seq<u8>) -> Seq<u8> {
    upath::joined(
        upath::joined(
            upath::joined(root, bstr::utf8("v1/results"@)),
            shard_name(action_name(action)),
        ),
        action_name(action) + bstr::utf8(".json"@),
    )
}

/// The file that marks an action with different results.
pub open spec fn conflict_file(root: Seq<u8>, action: Seq<u8>) -> Seq<u8> {
    upath::joined(upath::joined(root, bstr::utf8("v1/conflicts"@)), action_name(action))
}

/// The reference to content.
pub open spec fn reference_of(content: Seq<u8>, mode: u32) -> BlobRef<Seq<char>> {
    BlobRef {
        digest: hex::hex_text(digest::blake3_digest(content)),
        size: content.len() as u64,
        mode,
    }
}

/// The reference to content.
pub fn reference_to(content: &[u8], mode: u32) -> (reference: BlobRef)
    ensures
        reference@ == reference_of(content@, mode),
        digest::blake3_digest(content@).len() == 32,
{
    let sum = digest::hash(content);
    BlobRef::new(hex::encode(sum.as_slice()), content.len() as u64, mode)
}

/// How content is stored.
#[derive(Clone, Debug, PartialEq, Eq)]
pub struct PlannedBlob {
    pub reference: BlobRef,
    /// The file of the content.
    pub path: Vec<u8>,
    /// The file has to be written.
    pub write: bool,
}

/// How a cache is emptied.
#[derive(Clone, Debug, PartialEq, Eq)]
pub struct Clearing {
    /// The directory that is removed with all that it holds.
    pub remove: Option<Vec<u8>>,
    /// The directories that are made anew, outermost first.
    pub create: Vec<Vec<u8>>,
}

/// Why a cache cannot be emptied. `present` says that something can be found where its contents
/// belong.
pub open spec fn clearing_fault(
    root: Seq<u8>,
    root_state: PathState,
    present: bool,
    version: PathState,
) -> Option<Fault> {
    if directory_fault(root, root_state) is Some {
        directory_fault(root, root_state)
    } else if present {
        directory_fault(upath::joined(root, bstr::utf8("v1"@)), version)
    } else {
        None
    }
}

/// What is known of stored content.
#[derive(Clone, Debug)]
pub struct StoredBlob {
    /// The directories that lead to stored content, outermost first.
    pub areas: Vec<ExpectedDirectory>,
    /// The directory that the content is in.
    pub shard: PathState,
    /// The file of the content.
    pub file: PathState,
    /// What is in it.
    pub contents: FileBytes,
}

/// The stored content, or why there is none that can be used.
pub open spec fn blob_contents(
    root: Seq<u8>,
    reference: BlobRef<Seq<char>>,
    stored: StoredBlob,
) -> Result<Seq<u8>, Fault> {
    let file = blob_file(root, bstr::utf8(reference.digest));
    let shard = upath::joined(
        upath::joined(root, bstr::utf8("v1/blobs"@)),
        shard_name(bstr::utf8(reference.digest)),
    );
    if area_fault(stored.areas@, 0) is Some {
        Err(area_fault(stored.areas@, 0)->0)
    } else if manifest::blob_fault(reference) is Some {
        Err(CacheError::Manifest(manifest::blob_fault(reference)->0))
    } else {
        match existing_directory(shard, stored.shard) {
            Err(fault) => Err(fault),
            Ok(there) => if !there {
                Err(CacheError::Miss)
            } else {
                match stored.file {
                    PathState::Missing(_) => Err(CacheError::Miss),
                    PathState::Unreadable(text) => Err(CacheError::Io(text@)),
                    PathState::File => match stored.contents {
                        FileBytes::Read(bytes) => if bytes@.len() != reference.size
                            || hex::hex_text(digest::blake3_digest(bytes@)) != reference.digest {
                            Err(CacheError::Corrupt(reference.digest))
                        } else {
                            Ok(bytes@)
                        },
                        FileBytes::Missing(text) => Err(CacheError::Io(text@)),
                        FileBytes::Unreadable(text) => Err(CacheError::Io(text@)),
                    },
                    _ => Err(CacheError::Corrupt(reference.digest)),
                }
            },
        }
    }
}

/// A cache directory.
#[derive(Clone, Debug)]
pub struct CacheStore {
    pub root: Vec<u8>,
}

impl CacheStore {
    /// The cache below a directory. Nothing is created or read: the directories that have to be
    /// there are those of `directories`.
    pub fn new(root: Vec<u8>) -> (store: Self)
        ensures
            store.root@ == root@,
    {
        CacheStore { root }
    }

    /// The cache directory.
    pub fn root(&self) -> (path: &[u8])
        ensures
            path@ == self.root@,
    {
        self.root.as_slice()
    }

    /// The directories of a cache, outermost first.
    pub fn directories(&self) -> (list: Vec<Vec<u8>>)
        ensures
            bstr::views(list@) == seq![
                self.root@,
                upath::joined(self.root@, bstr::utf8("v1"@)),
                upath::joined(self.root@, bstr::utf8("v1/blobs"@)),
                upath::joined(self.root@, bstr::utf8("v1/results"@)),
                upath::joined(self.root@, bstr::utf8("v1/conflicts"@)),
            ],
    {
        let root = self.root.as_slice();
        let mut list: Vec<Vec<u8>> = Vec::new();
        list.push(bstr::copy(root));
        list.push(upath::join(root, bstr::of("v1")));
        list.push(upath::join(root, bstr::of("v1/blobs")));
        list.push(upath::join(root, bstr::of("v1/results")));
        list.push(upath::join(root, bstr::of("v1/conflicts")));
        assert(bstr::views(list@) =~= seq![
            self.root@,
            upath::joined(self.root@, bstr::utf8("v1"@)),
            upath::joined(self.root@, bstr::utf8("v1/blobs"@)),
            upath::joined(self.root@, bstr::utf8("v1/results"@)),
            upath::joined(self.root@, bstr::utf8("v1/conflicts"@)),
        ]);
        list
    }

    /// The directories that lead to an area, outermost first.
    pub fn area_directories(&self, area: &str) -> (list: Vec<Vec<u8>>)
        ensures
            bstr::views(list@) == seq![
                self.root@,
                upath::joined(self.root@, bstr::utf8("v1"@)),
                upath::joined(upath::joined(self.root@, bstr::utf8("v1"@)), bstr::utf8(area@)),
            ],
    {
        let root = self.root.as_slice();
        let version = upath::join(root, bstr::of("v1"));
        let inner = upath::join(version.as_slice(), bstr::of(area));
        let mut list: Vec<Vec<u8>> = Vec::new();
        list.push(bstr::copy(root));
        list.push(version);
        list.push(inner);
        assert(bstr::views(list@) =~= seq![
            self.root@,
            upath::joined(self.root@, bstr::utf8("v1"@)),
            upath::joined(upath::joined(self.root@, bstr::utf8("v1"@)), bstr::utf8(area@)),
        ]);
        list
    }

    /// The file by which maintenance and publication exclude each other.
    pub fn maintenance_lock_path(&self) -> (path: Vec<u8>)
        ensures
            path@ == upath::joined(self.root@, bstr::utf8(".fcache-maintenance.lock"@)),
    {
        upath::join(self.root.as_slice(), bstr::of(".fcache-maintenance.lock"))
    }

    /// The file to lock before maintenance or publication, which must not be a link.
    pub fn maintenance_lock(&self, root_state: &PathState, file: &PathState) -> (outcome: Result<
        Vec<u8>,
        CacheError,
    >)
        ensures
            match outcome {
                Ok(path) => {
                    &&& directory_fault(self.root@, *root_state) is None
                    &&& *file !is Symlink
                    &&& path@ == upath::joined(self.root@, bstr::utf8(".fcache-maintenance.lock"@))
                },
                Err(error) => if directory_fault(self.root@, *root_state) is Some {
                    directory_fault(self.root@, *root_state) == Some(error@)
                } else {
                    *file is Symlink && error@ == CacheError::<Seq<u8>, Seq<char>>::SymlinkCacheFile(
                        upath::joined(self.root@, bstr::utf8(".fcache-maintenance.lock"@)),
                    )
                },
            },
    {
        require_real_directory(self.root.as_slice(), root_state)?;
        let path = self.maintenance_lock_path();
        match file {
            PathState::Symlink => Err(CacheError::SymlinkCacheFile(path)),
            _ => Ok(path),
        }
    }

    /// The file of stored content.
    pub fn blob_path(&self, digest: &str) -> (path: Vec<u8>)
        requires
            splits_at_two(digest@),
        ensures
            path@ == blob_file(self.root@, bstr::utf8(digest@)),
    {
        let name = bstr::of(digest);
        let area = upath::join(self.root.as_slice(), bstr::of("v1/blobs"));
        let shard = if name.len() < 2 {
            name
        } else {
            bstr::take(name, 2)
        };
        upath::join(upath::join(area.as_slice(), shard).as_slice(), name)
    }

    /// The file of the result of an action.
    pub fn result_path(&self, action: &ActionKey) -> (path: Vec<u8>)
        ensures
            path@ == result_file(self.root@, action@),
    {
        let name = hex::encode_bytes(action.bytes.as_slice());
        proof {
            hex::lemma_hex_bytes(action@);
        }
        let area = upath::join(self.root.as_slice(), bstr::of("v1/results"));
        let shard = upath::join(area.as_slice(), bstr::take(name.as_slice(), 2));
        let file = bstr::concat(name.as_slice(), bstr::of(".json"));
        upath::join(shard.as_slice(), file.as_slice())
    }

    /// The file that marks an action with different results.
    pub fn conflict_path(&self, action: &ActionKey) -> (path: Vec<u8>)
        ensures
            path@ == conflict_file(self.root@, action@),
    {
        let name = hex::encode_bytes(action.bytes.as_slice());
        let area = upath::join(self.root.as_slice(), bstr::of("v1/conflicts"));
        upath::join(area.as_slice(), name.as_slice())
    }

    /// What has to be done to remove all results. `present` says that something can be found where
    /// the contents of the cache belong, and `version` what stands there itself.
    pub fn clear(&self, root_state: &PathState, present: bool, version: &PathState) -> (outcome:
        Result<Clearing, CacheError>)
        ensures
            match outcome {
                Ok(clearing) => {
                    &&& clearing_fault(self.root@, *root_state, present, *version) is None
                    &&& match clearing.remove {
                        Some(path) => present && path@ == upath::joined(
                            self.root@,
                            bstr::utf8("v1"@),
                        ),
                        None => !present,
                    }
                    &&& bstr::views(clearing.create@) == seq![
                        upath::joined(self.root@, bstr::utf8("v1"@)),
                        upath::joined(self.root@, bstr::utf8("v1/blobs"@)),
                        upath::joined(self.root@, bstr::utf8("v1/results"@)),
                        upath::joined(self.root@, bstr::utf8("v1/conflicts"@)),
                    ]
                },
                Err(error) => clearing_fault(self.root@, *root_state, present, *version) == Some(
                    error@,
                ),
            },
    {
        let root = self.root.as_slice();
        require_real_directory(root, root_state)?;
        let remove = if present {
            let path = upath::join(root, bstr::of("v1"));
            require_real_directory(path.as_slice(), version)?;
            Some(path)
        } else {
            None
        };
        let mut create: Vec<Vec<u8>> = Vec::new();
        create.push(upath::join(root, bstr::of("v1")));
        create.push(upath::join(root, bstr::of("v1/blobs")));
        create.push(upath::join(root, bstr::of("v1/results")));
        create.push(upath::join(root, bstr::of("v1/conflicts")));
        assert(bstr::views(create@) =~= seq![
            upath::joined(self.root@, bstr::utf8("v1"@)),
            upath::joined(self.root@, bstr::utf8("v1/blobs"@)),
            upath::joined(self.root@, bstr::utf8("v1/results"@)),
            upath::joined(self.root@, bstr::utf8("v1/conflicts"@)),
        ]);
        Ok(Clearing { remove, create })
    }

    /// What has to be done to store content. `areas` are the directories that lead to stored
    /// content, outermost first; `present` says that its file is there.
    pub fn put_blob(
        &self,
        content: &[u8],
        mode: u32,
        areas: &Vec<ExpectedDirectory>,
        present: bool,
    ) -> (outcome: Result<PlannedBlob, CacheError>)
        ensures
            match outcome {
                Ok(planned) => area_fault(areas@, 0) is None && planned.reference@ == reference_of(
                    content@,
                    mode,
                ) && planned.path@ == blob_file(
                    self.root@,
                    bstr::utf8(reference_of(content@, mode).digest),
                ) && planned.write == !present,
                Err(error) => area_fault(areas@, 0) == Some(error@),
            },
    {
        validate_area(areas)?;
        let reference = reference_to(content, mode);
        let name = bstr::of(reference.digest.as_str());
        proof {
            hex::lemma_hex_bytes(digest::blake3_digest(content@));
        }
        let area = upath::join(self.root.as_slice(), bstr::of("v1/blobs"));
        let shard = upath::join(area.as_slice(), bstr::take(name, 2));
        let path = upath::join(shard.as_slice(), name);
        Ok(PlannedBlob { reference, path, write: !present })
    }

    /// Checks that the content of a reference is stored.
    pub fn verify_blob(&self, reference: &BlobRef, stored: &StoredBlob) -> (outcome: Result<
        (),
        CacheError,
    >)
        ensures
            match outcome {
                Ok(_) => blob_contents(self.root@, reference@, *stored) is Ok,
                Err(error) => blob_contents(self.root@, reference@, *stored) == Err::<
                    Seq<u8>,
                    Fault,
                >(error@),
            },
    {
        validate_area(&stored.areas)?;
        match reference.validate() {
            Ok(_) => {},
            Err(error) => {
                return Err(CacheError::Manifest(error));
            },
        }
        let name = bstr::of(reference.digest.as_str());
        let area = upath::join(self.root.as_slice(), bstr::of("v1/blobs"));
        let shard = upath::join(area.as_slice(), bstr::take(name, 2));
        if !validate_existing_cache_directory(shard.as_slice(), &stored.shard)? {
            return Err(CacheError::Miss);
        }
        match &stored.file {
            PathState::Missing(_) => Err(CacheError::Miss),
            PathState::Unreadable(text) => Err(CacheError::Io(text.clone())),
            PathState::File => match &stored.contents {
                FileBytes::Read(bytes) => {
                    let sum = digest::hash(bytes.as_slice());
                    if bytes.len() as u64 != reference.size || hex::encode(sum.as_slice())
                        != reference.digest {
                        return Err(CacheError::Corrupt(reference.digest.clone()));
                    }
                    Ok(())
                },
                FileBytes::Missing(text) => Err(CacheError::Io(text.clone())),
                FileBytes::Unreadable(text) => Err(CacheError::Io(text.clone())),
            },
            _ => Err(CacheError::Corrupt(reference.digest.clone())),
        }
    }

    /// The stored content of a reference: only content of that size and digest is handed out.
    pub fn read_blob(&self, reference: &BlobRef, stored: StoredBlob) -> (outcome: Result<
        Vec<u8>,
        CacheError,
    >)
        ensures
            match outcome {
                Ok(content) => blob_contents(self.root@, reference@, stored) == Ok::<
                    Seq<u8>,
                    Fault,
                >(content@),
                Err(error) => blob_contents(self.root@, reference@, stored) == Err::<
                    Seq<u8>,
                    Fault,
                >(error@),
            },
    {
        self.verify_blob(reference, &stored)?;
        match stored.contents {
            FileBytes::Read(bytes) => Ok(bytes),
            _ => Err(CacheError::Miss),
        }
    }
}

/// Content that is stored under its reference is given back as it was, and nothing else is given
/// back in its place that has another size or digest.
pub proof fn law_stored_content_is_given_back(
    root: Seq<u8>,
    content: Seq<u8>,
    mode: u32,
    stored: StoredBlob,
)
    requires
        digest::blake3_digest(content).len() == 32,
        content.len() <= manifest::MAX_BLOB_SIZE,
        area_fault(stored.areas@, 0) is None,
        stored.shard is Directory,
        stored.file is File,
        stored.contents is Read,
    ensures
        stored.contents->Read_0@ == content ==> blob_contents(
            root,
            reference_of(content, mode),
            stored,
        ) == Ok::<Seq<u8>, Fault>(content),
        blob_contents(root, reference_of(content, mode), stored) is Ok ==> digest::blake3_digest(
            stored.contents->Read_0@,
        ) == digest::blake3_digest(content) && stored.contents->Read_0@.len() == content.len(),
{
    let sum = digest::blake3_digest(content);
    hex::law_hex_round_trip(sum, false);
    hex::lemma_hex_bytes(sum);
    assert(manifest::blob_fault(reference_of(content, mode)) is None);
    let found = digest::blake3_digest(stored.contents->Read_0@);
    if hex::hex_text(found) == hex::hex_text(sum) {
        hex::law_hex_injective(found, sum);
    }
}

fn same_blob(left: &BlobRef, right: &BlobRef) -> (equal: bool)
    ensures
        equal == (left@ == right@),
{
    left.digest == right.digest && left.size == right.size && left.mode == right.mode
}

fn same_artifact(left: &Artifact, right: &Artifact) -> (equal: bool)
    ensures
        equal == (left@ == right@),
{
    left.kind == right.kind && left.logical_name == right.logical_name && left.destination_role
        == right.destination_role && same_blob(&left.blob, &right.blob)
}

/// Two manifests say the same.
pub fn same_manifest(left: &Manifest, right: &Manifest) -> (equal: bool)
    ensures
        equal == (left@ == right@),
{
    if left.schema_version != right.schema_version || !left.action_key.same(&right.action_key)
        || left.compiler_digest != right.compiler_digest || left.exit_code != right.exit_code
        || !same_blob(&left.stdout, &right.stdout) || !same_blob(&left.stderr, &right.stderr)
        || left.artifacts.len() != right.artifacts.len() {
        assert(left@.artifacts.len() == left.artifacts@.len());
        assert(right@.artifacts.len() == right.artifacts@.len());
        return false;
    }
    let mut index: usize = 0;
    while index < left.artifacts.len()
        invariant
            left.artifacts@.len() == right.artifacts@.len(),
            index <= left.artifacts@.len(),
            forall|at: int|
                0 <= at < index ==> (#[trigger] left@.artifacts[at]) == right@.artifacts[at],
        decreases left.artifacts@.len() - index,
    {
        if !same_artifact(&left.artifacts[index], &right.artifacts[index]) {
            assert(left@.artifacts[index as int] == left.artifacts@[index as int]@);
            assert(right@.artifacts[index as int] == right.artifacts@[index as int]@);
            return false;
        }
        index += 1;
    }
    assert(left@.artifacts =~= right@.artifacts);
    true
}

/// A manifest as it was found in its file.
#[derive(Debug)]
pub enum StoredManifest {
    Missing,
    Symlink,
    Unreadable(String),
    /// The file was read: its length, and what its text says, or why it is not the text of a
    /// manifest.
    Read { length: usize, parsed: Result<Manifest, String> },
}

/// What is known of the place of a manifest.
#[derive(Debug)]
pub struct ManifestFacts {
    /// The directories that lead to the results, outermost first.
    pub results: Vec<ExpectedDirectory>,
    /// The directories that lead to the marks of different results, outermost first.
    pub conflicts: Vec<ExpectedDirectory>,
    /// The action is marked with different results.
    pub conflict: bool,
    /// The directory that the manifest is in.
    pub shard: PathState,
    pub existing: StoredManifest,
}

/// What has to be done to publish a manifest.
#[derive(Debug)]
pub enum Publication<B = Vec<u8>, S = String> {
    /// Its file has to be written.
    Install,
    /// It is published already.
    Unchanged,
    /// The action is marked with different results; the mark has to be written where `mark` says.
    Conflict { mark: bool },
    /// It is not published.
    Refused(CacheError<B, S>),
}

/// What has to be done to publish a manifest, in views.
pub type Publishing = Publication<Seq<u8>, Seq<char>>;

impl View for Publication {
    type V = Publishing;

    open spec fn view(&self) -> Publishing {
        match *self {
            Publication::Install => Publication::Install,
            Publication::Unchanged => Publication::Unchanged,
            Publication::Conflict { mark } => Publication::Conflict { mark },
            Publication::Refused(error) => Publication::Refused(error@),
        }
    }
}

/// The blobs of a manifest: those of the artifacts, then those of the messages.
pub open spec fn blobs_of(manifest: ManifestView) -> Seq<BlobRef<Seq<char>>> {
    manifest.artifacts.map_values(|artifact: Artifact<Seq<char>>| artifact.blob).push(
        manifest.stdout,
    ).push(manifest.stderr)
}

/// Why the content of one of the references, from `index` on, cannot be used: the first reason.
/// Content that nobody looked for counts as missing.
pub open spec fn content_fault(
    root: Seq<u8>,
    list: Seq<BlobRef<Seq<char>>>,
    stored: Seq<StoredBlob>,
    index: int,
) -> Option<Fault>
    decreases list.len() - index,
{
    if index >= list.len() {
        None
    } else if index >= stored.len() {
        Some(CacheError::Miss)
    } else {
        match blob_contents(root, list[index], stored[index]) {
            Err(fault) => Some(fault),
            Ok(_) => content_fault(root, list, stored, index + 1),
        }
    }
}

/// The directory that the manifest of an action is in.
pub open spec fn result_shard(root: Seq<u8>, action: Seq<u8>) -> Seq<u8> {
    upath::joined(
        upath::joined(root, bstr::utf8("v1/results"@)),
        shard_name(action_name(action)),
    )
}

/// Why the areas of the results cannot be used.
pub open spec fn areas_fault(facts: ManifestFacts) -> Option<Fault> {
    if area_fault(facts.results@, 0) is Some {
        area_fault(facts.results@, 0)
    } else {
        area_fault(facts.conflicts@, 0)
    }
}

/// What has to be done to publish a manifest. `stored` is what is stored of each of its blobs.
pub open spec fn publication(
    root: Seq<u8>,
    manifest: ManifestView,
    facts: ManifestFacts,
    stored: Seq<StoredBlob>,
) -> Publishing {
    if areas_fault(facts) is Some {
        Publication::Refused(areas_fault(facts)->0)
    } else if manifest::manifest_fault(manifest) is Some {
        Publication::Refused(CacheError::Manifest(manifest::manifest_fault(manifest)->0))
    } else if content_fault(root, blobs_of(manifest), stored, 0) is Some {
        Publication::Refused(content_fault(root, blobs_of(manifest), stored, 0)->0)
    } else if facts.conflict {
        Publication::Conflict { mark: false }
    } else if directory_fault(result_shard(root, manifest.action_key), facts.shard) is Some {
        Publication::Refused(
            directory_fault(result_shard(root, manifest.action_key), facts.shard)->0,
        )
    } else {
        match facts.existing {
            StoredManifest::Missing => Publication::Install,
            StoredManifest::Symlink => Publication::Refused(
                CacheError::SymlinkCacheFile(result_file(root, manifest.action_key)),
            ),
            StoredManifest::Unreadable(text) => Publication::Refused(CacheError::Io(text@)),
            StoredManifest::Read { length, parsed } => match manifest::read_of(
                length as int,
                parsed,
            ) {
                Err(fault) => Publication::Refused(
                    CacheError::Corrupt(manifest::error_text(fault)),
                ),
                Ok(found) => if found == manifest {
                    Publication::Unchanged
                } else {
                    Publication::Conflict { mark: true }
                },
            },
        }
    }
}

/// The manifest of an action, or why there is none that can be used.
pub open spec fn loaded(root: Seq<u8>, action: Seq<u8>, facts: ManifestFacts) -> Result<
    Option<ManifestView>,
    Fault,
> {
    if areas_fault(facts) is Some {
        Err(areas_fault(facts)->0)
    } else if facts.conflict {
        Ok(None)
    } else {
        match existing_directory(result_shard(root, action), facts.shard) {
            Err(fault) => Err(fault),
            Ok(there) => if !there {
                Ok(None)
            } else {
                match facts.existing {
                    StoredManifest::Missing => Ok(None),
                    StoredManifest::Symlink => Err(
                        CacheError::SymlinkCacheFile(result_file(root, action)),
                    ),
                    StoredManifest::Unreadable(text) => Err(CacheError::Io(text@)),
                    StoredManifest::Read { length, parsed } => match manifest::read_of(
                        length as int,
                        parsed,
                    ) {
                        Err(fault) => Err(CacheError::Corrupt(manifest::error_text(fault))),
                        Ok(found) => if found.action_key != action {
                            Err(CacheError::Corrupt("action key does not match result path"@))
                        } else {
                            Ok(Some(found))
                        },
                    },
                }
            },
        }
    }
}

/// The manifest of an action whose content is stored, or why there is none that can be used.
/// `stored` is what is stored of each content that the manifest refers to.
pub open spec fn loaded_whole(
    root: Seq<u8>,
    action: Seq<u8>,
    facts: ManifestFacts,
    stored: Seq<StoredBlob>,
) -> Result<Option<ManifestView>, Fault> {
    match loaded(root, action, facts) {
        Err(fault) => Err(fault),
        Ok(None) => Ok(None),
        Ok(Some(manifest)) => match content_fault(
            root,
            distinct_blobs(blobs_of(manifest)),
            stored,
            0,
        ) {
            Some(fault) => Err(fault),
            None => Ok(Some(manifest)),
        },
    }
}

/// A manifest that was loaded, in views.
pub open spec fn loaded_view(found: Option<Manifest>) -> Option<ManifestView> {
    match found {
        Some(manifest) => Some(manifest@),
        None => None,
    }
}

impl CacheStore {
    fn result_directory(&self, action: &ActionKey) -> (path: Vec<u8>)
        ensures
            path@ == result_shard(self.root@, action@),
    {
        let name = hex::encode_bytes(action.bytes.as_slice());
        proof {
            hex::lemma_hex_bytes(action@);
        }
        let area = upath::join(self.root.as_slice(), bstr::of("v1/results"));
        upath::join(area.as_slice(), bstr::take(name.as_slice(), 2))
    }

    /// Checks that the content of every reference is stored. `stored` says of each what is there.
    pub fn verify_blobs(&self, list: &Vec<BlobRef>, stored: &Vec<StoredBlob>) -> (outcome: Result<
        (),
        CacheError,
    >)
        ensures
            match outcome {
                Ok(_) => content_fault(self.root@, blob_views(list@), stored@, 0) is None,
                Err(error) => content_fault(self.root@, blob_views(list@), stored@, 0) == Some(
                    error@,
                ),
            },
    {
        let mut index: usize = 0;
        while index < list.len()
            invariant
                index <= list@.len(),
                content_fault(self.root@, blob_views(list@), stored@, 0) == content_fault(
                    self.root@,
                    blob_views(list@),
                    stored@,
                    index as int,
                ),
            decreases list@.len() - index,
        {
            assert(blob_views(list@)[index as int] == list@[index as int]@);
            if index >= stored.len() {
                return Err(CacheError::Miss);
            }
            self.verify_blob(&list[index], &stored[index])?;
            index += 1;
        }
        Ok(())
    }

    /// What has to be done to publish a manifest. `stored` says of each of its blobs, those of the
    /// messages last, what is stored.
    pub fn publish_manifest(
        &self,
        manifest: &Manifest,
        facts: ManifestFacts,
        stored: &Vec<StoredBlob>,
    ) -> (step: Publication)
        ensures
            step@ == publication(self.root@, manifest@, facts, stored@),
    {
        match validate_area(&facts.results) {
            Ok(_) => {},
            Err(error) => {
                return Publication::Refused(error);
            },
        }
        match validate_area(&facts.conflicts) {
            Ok(_) => {},
            Err(error) => {
                return Publication::Refused(error);
            },
        }
        match manifest.validate() {
            Ok(_) => {},
            Err(error) => {
                return Publication::Refused(CacheError::Manifest(error));
            },
        }
        match self.verify_blobs(&manifest_blobs(manifest), stored) {
            Ok(_) => {},
            Err(error) => {
                return Publication::Refused(error);
            },
        }
        if facts.conflict {
            return Publication::Conflict { mark: false };
        }
        let directory = self.result_directory(&manifest.action_key);
        match require_real_directory(directory.as_slice(), &facts.shard) {
            Ok(_) => {},
            Err(error) => {
                return Publication::Refused(error);
            },
        }
        match facts.existing {
            StoredManifest::Missing => Publication::Install,
            StoredManifest::Symlink => Publication::Refused(
                CacheError::SymlinkCacheFile(self.result_path(&manifest.action_key)),
            ),
            StoredManifest::Unreadable(text) => Publication::Refused(CacheError::Io(text)),
            StoredManifest::Read { length, parsed } => match Manifest::from_json(length, parsed) {
                Err(error) => Publication::Refused(CacheError::Corrupt(error.message())),
                Ok(found) => if same_manifest(&found, manifest) {
                    Publication::Unchanged
                } else {
                    Publication::Conflict { mark: true }
                },
            },
        }
    }

    /// Like `publish_manifest`.
    pub fn publish(
        &self,
        manifest: &Manifest,
        facts: ManifestFacts,
        stored: &Vec<StoredBlob>,
    ) -> (step: Publication)
        ensures
            step@ == publication(self.root@, manifest@, facts, stored@),
    {
        self.publish_manifest(manifest, facts, stored)
    }

    /// Whether the file of a published manifest holds what was written. Where another process wrote
    /// something else first, the action has to be marked with different results.
    pub fn confirm_publication(&self, written: &[u8], current: &FileBytes) -> (step: Publication)
        ensures
            step@ == (match *current {
                FileBytes::Read(bytes) => if bytes@ == written@ {
                    Publishing::Unchanged
                } else {
                    Publishing::Conflict { mark: true }
                },
                _ => Publishing::Unchanged,
            }),
    {
        match current {
            FileBytes::Read(bytes) => if bstr::same(bytes.as_slice(), written) {
                Publication::Unchanged
            } else {
                Publication::Conflict { mark: true }
            },
            _ => Publication::Unchanged,
        }
    }

    /// The manifest of an action, its content unread.
    pub fn load_manifest_metadata(&self, action: &ActionKey, facts: ManifestFacts) -> (outcome:
        Result<Option<Manifest>, CacheError>)
        ensures
            match outcome {
                Ok(found) => loaded(self.root@, action@, facts) == Ok::<
                    Option<ManifestView>,
                    Fault,
                >(loaded_view(found)),
                Err(error) => loaded(self.root@, action@, facts) == Err::<
                    Option<ManifestView>,
                    Fault,
                >(error@),
            },
    {
        validate_area(&facts.results)?;
        validate_area(&facts.conflicts)?;
        if facts.conflict {
            return Ok(None);
        }
        let directory = self.result_directory(action);
        if !validate_existing_cache_directory(directory.as_slice(), &facts.shard)? {
            return Ok(None);
        }
        match facts.existing {
            StoredManifest::Missing => Ok(None),
            StoredManifest::Symlink => Err(CacheError::SymlinkCacheFile(self.result_path(action))),
            StoredManifest::Unreadable(text) => Err(CacheError::Io(text)),
            StoredManifest::Read { length, parsed } => match Manifest::from_json(length, parsed) {
                Err(error) => Err(CacheError::Corrupt(error.message())),
                Ok(found) => if !found.action_key.same(action) {
                    Err(CacheError::Corrupt("action key does not match result path".to_owned()))
                } else {
                    Ok(Some(found))
                },
            },
        }
    }

    /// Checks that all content that a manifest refers to is stored. `stored` says what is there of
    /// each of `blobs_to_verify`.
    pub fn verify_manifest_blobs(&self, manifest: &Manifest, stored: &Vec<StoredBlob>) -> (outcome:
        Result<(), CacheError>)
        ensures
            match outcome {
                Ok(_) => content_fault(
                    self.root@,
                    distinct_blobs(blobs_of(manifest@)),
                    stored@,
                    0,
                ) is None,
                Err(error) => content_fault(
                    self.root@,
                    distinct_blobs(blobs_of(manifest@)),
                    stored@,
                    0,
                ) == Some(error@),
            },
    {
        self.verify_blobs(&blobs_to_verify(manifest), stored)
    }

    /// The manifest of an action whose content is all stored.
    pub fn load(&self, action: &ActionKey, facts: ManifestFacts, stored: &Vec<StoredBlob>) -> (
    outcome: Result<Option<Manifest>, CacheError>)
        ensures
            match outcome {
                Ok(found) => loaded_whole(self.root@, action@, facts, stored@) == Ok::<
                    Option<ManifestView>,
                    Fault,
                >(loaded_view(found)),
                Err(error) => loaded_whole(self.root@, action@, facts, stored@) == Err::<
                    Option<ManifestView>,
                    Fault,
                >(error@),
            },
            outcome matches Ok(Some(found)) ==> manifest::manifest_fault(found@) is None
                && found@.action_key == action@,
    {
        let found = self.load_manifest_metadata(action, facts)?;
        if let Some(manifest) = &found {
            self.verify_manifest_blobs(manifest, stored)?;
        }
        Ok(found)
    }

    /// Like `load`.
    pub fn get(&self, action: &ActionKey, facts: ManifestFacts, stored: &Vec<StoredBlob>) -> (
    outcome: Result<Option<Manifest>, CacheError>)
        ensures
            match outcome {
                Ok(found) => loaded_whole(self.root@, action@, facts, stored@) == Ok::<
                    Option<ManifestView>,
                    Fault,
                >(loaded_view(found)),
                Err(error) => loaded_whole(self.root@, action@, facts, stored@) == Err::<
                    Option<ManifestView>,
                    Fault,
                >(error@),
            },
            outcome matches Ok(Some(found)) ==> manifest::manifest_fault(found@) is None
                && found@.action_key == action@,
    {
        self.load(action, facts, stored)
    }
}

/// A manifest that was published is the one that is loaded, and it is never replaced by another:
/// whoever publishes another is told of a conflict, and nothing is loaded from then on.
pub proof fn law_a_result_is_never_replaced(
    root: Seq<u8>,
    published: Manifest,
    length: usize,
    other: ManifestView,
    facts: ManifestFacts,
    stored: Seq<StoredBlob>,
)
    requires
        areas_fault(facts) is None,
        facts.shard is Directory,
        facts.existing == (StoredManifest::Read { length, parsed: Ok(published) }),
        length <= manifest::MAX_JSON_SIZE,
        manifest::manifest_fault(published@) is None,
        manifest::manifest_fault(other) is None,
        other.action_key == published@.action_key,
        content_fault(root, blobs_of(other), stored, 0) is None,
    ensures
        loaded(root, published@.action_key, facts) == Ok::<Option<ManifestView>, Fault>(
            if facts.conflict {
                None
            } else {
                Some(published@)
            },
        ),
        publication(root, other, facts, stored) == (if facts.conflict {
            Publishing::Conflict { mark: false }
        } else if published@ == other {
            Publishing::Unchanged
        } else {
            Publishing::Conflict { mark: true }
        }),
{
}

/// A manifest that is loaded is valid and belongs to the action. With different results, or
/// without a stored one, there is none; the manifest of another action is refused.
pub proof fn law_loaded_manifests_are_valid(root: Seq<u8>, action: Seq<u8>, facts: ManifestFacts)
    ensures
        loaded(root, action, facts) matches Ok(Some(found)) ==> {
            &&& manifest::manifest_fault(found) is None
            &&& manifest::valid(found)
            &&& found.action_key == action
            &&& !facts.conflict
        },
        areas_fault(facts) is None && facts.conflict ==> loaded(root, action, facts) == Ok::<
            Option<ManifestView>,
            Fault,
        >(None),
        areas_fault(facts) is None && facts.existing is Missing && (facts.shard is Directory
            || facts.shard is Missing) ==> loaded(root, action, facts) == Ok::<
            Option<ManifestView>,
            Fault,
        >(None),
        areas_fault(facts) is None && !facts.conflict && facts.shard is Directory && (
        facts.existing matches StoredManifest::Read { length, parsed } && (parsed matches Ok(found)
            && found@.action_key != action)) ==> loaded(root, action, facts) matches Err(
            CacheError::Corrupt(_),
        ),
{
    if let Ok(Some(found)) = loaded(root, action, facts) {
        manifest::law_accepted_manifests_are_valid(found);
    }
}

/// A result that is loaded is whole: of every content that its manifest refers to, bytes of that
/// digest and size are stored.
pub proof fn law_loaded_results_are_whole(
    root: Seq<u8>,
    action: Seq<u8>,
    facts: ManifestFacts,
    stored: Seq<StoredBlob>,
    at: int,
) -> (place: int)
    requires
        loaded_whole(root, action, facts, stored) matches Ok(Some(_)),
        0 <= at < blobs_of(loaded_whole(root, action, facts, stored)->Ok_0->0).len(),
    ensures
        ({
            let all = blobs_of(loaded_whole(root, action, facts, stored)->Ok_0->0);
            let contents = blob_contents(root, distinct_blobs(all)[place], stored[place]);
            &&& loaded(root, action, facts) == loaded_whole(root, action, facts, stored)
            &&& 0 <= place < stored.len()
            &&& contents matches Ok(bytes) && bytes.len() == all[at].size && hex::hex_text(
                digest::blake3_digest(bytes),
            ) == all[at].digest
        }),
{
    let all = blobs_of(loaded_whole(root, action, facts, stored)->Ok_0->0);
    let list = distinct_blobs(all);
    law_distinct_blobs_cover_all(all, at);
    let place = choose|place: int|
        0 <= place < list.len() && (#[trigger] list[place]).digest == all[at].digest
            && list[place].size == all[at].size;
    lemma_content(root, list, stored, 0, place);
    place
}

proof fn lemma_content(
    root: Seq<u8>,
    list: Seq<BlobRef<Seq<char>>>,
    stored: Seq<StoredBlob>,
    index: int,
    at: int,
)
    requires
        content_fault(root, list, stored, index) is None,
        0 <= index <= at < list.len(),
    ensures
        at < stored.len(),
        blob_contents(root, list[at], stored[at]) is Ok,
    decreases at - index,
{
    if index < at {
        lemma_content(root, list, stored, index + 1, at);
    }
}

/// A manifest is published only where all content that it refers to is stored as the manifest says.
pub proof fn law_results_are_published_with_their_content(
    root: Seq<u8>,
    manifest: ManifestView,
    facts: ManifestFacts,
    stored: Seq<StoredBlob>,
    at: int,
)
    requires
        publication(root, manifest, facts, stored) is Install,
        0 <= at < blobs_of(manifest).len(),
    ensures
        at < stored.len(),
        blob_contents(root, blobs_of(manifest)[at], stored[at]) is Ok,
{
    lemma_content(root, blobs_of(manifest), stored, 0, at);
}

/// A list has content of the same digest and size.
pub open spec fn lists_content(list: Seq<BlobRef<Seq<char>>>, blob: BlobRef<Seq<char>>) -> bool {
    exists|at: int|
        0 <= at < list.len() && (#[trigger] list[at]).digest == blob.digest && list[at].size
            == blob.size
}

/// The blobs of which no earlier one has the same digest and size.
pub open spec fn distinct_blobs(list: Seq<BlobRef<Seq<char>>>) -> Seq<BlobRef<Seq<char>>>
    decreases list.len(),
{
    if list.len() == 0 {
        Seq::empty()
    } else {
        let found = distinct_blobs(list.drop_last());
        if lists_content(found, list.last()) {
            found
        } else {
            found.push(list.last())
        }
    }
}

/// References, in views.
pub open spec fn blob_views(list: Seq<BlobRef>) -> Seq<BlobRef<Seq<char>>> {
    list.map_values(|blob: BlobRef| blob@)
}

fn note_blob(list: &mut Vec<BlobRef>, blob: &BlobRef)
    ensures
        blob_views(final(list)@) == (if lists_content(blob_views(old(list)@), blob@) {
            blob_views(old(list)@)
        } else {
            blob_views(old(list)@).push(blob@)
        }),
{
    let ghost before = list@;
    let mut index: usize = 0;
    while index < list.len()
        invariant
            list@ == before,
            index <= list@.len(),
            forall|at: int|
                0 <= at < index ==> !((#[trigger] blob_views(before)[at]).digest == blob@.digest
                    && blob_views(before)[at].size == blob@.size),
        decreases list@.len() - index,
    {
        assert(blob_views(before)[index as int] == before[index as int]@);
        if list[index].digest == blob.digest && list[index].size == blob.size {
            return;
        }
        index += 1;
    }
    let copied = manifest::copy_blob(blob);
    list.push(copied);
    assert(blob_views(list@) =~= blob_views(before).push(blob@));
}

/// The blobs of a manifest: those of the artifacts, then those of the messages.
pub fn manifest_blobs(manifest: &Manifest) -> (list: Vec<BlobRef>)
    ensures
        blob_views(list@) == blobs_of(manifest@),
{
    let ghost all = blobs_of(manifest@);
    let mut list: Vec<BlobRef> = Vec::new();
    let mut index: usize = 0;
    assert(blob_views(list@) =~= all.take(0));
    while index < manifest.artifacts.len()
        invariant
            all == blobs_of(manifest@),
            all.len() == manifest.artifacts@.len() + 2,
            index <= manifest.artifacts@.len(),
            blob_views(list@) == all.take(index as int),
        decreases manifest.artifacts@.len() - index,
    {
        let copied = manifest::copy_blob(&manifest.artifacts[index].blob);
        proof {
            assert(manifest@.artifacts[index as int] == manifest.artifacts@[index as int]@);
            assert(all[index as int] == copied@);
            assert(blob_views(list@.push(copied)) =~= blob_views(list@).push(copied@));
            assert(all.take(index + 1) =~= all.take(index as int).push(copied@));
        }
        list.push(copied);
        index += 1;
    }
    let out = manifest::copy_blob(&manifest.stdout);
    let err = manifest::copy_blob(&manifest.stderr);
    proof {
        assert(blob_views(list@.push(out).push(err)) =~= blob_views(list@).push(out@).push(err@));
        assert(all =~= all.take(index as int).push(out@).push(err@));
    }
    list.push(out);
    list.push(err);
    list
}

/// The blobs of a manifest whose content has to be verified, each content once.
pub fn blobs_to_verify(manifest: &Manifest) -> (list: Vec<BlobRef>)
    ensures
        blob_views(list@) == distinct_blobs(blobs_of(manifest@)),
{
    let ghost all = blobs_of(manifest@);
    let mut list: Vec<BlobRef> = Vec::new();
    let mut index: usize = 0;
    assert(blob_views(list@) =~= distinct_blobs(all.take(0)));
    while index < manifest.artifacts.len()
        invariant
            all == blobs_of(manifest@),
            all.len() == manifest.artifacts@.len() + 2,
            index <= manifest.artifacts@.len(),
            blob_views(list@) == distinct_blobs(all.take(index as int)),
        decreases manifest.artifacts@.len() - index,
    {
        let blob = &manifest.artifacts[index].blob;
        assert(all[index as int] == blob@) by {
            assert(manifest@.artifacts[index as int] == manifest.artifacts@[index as int]@);
        }
        note_blob(&mut list, blob);
        assert(all.take(index + 1).drop_last() =~= all.take(index as int));
        assert(all.take(index + 1).last() == all[index as int]);
        index += 1;
    }
    note_blob(&mut list, &manifest.stdout);
    assert(blob_views(list@) == distinct_blobs(all.drop_last())) by {
        assert(all.drop_last().drop_last() =~= all.take(index as int));
        assert(all.drop_last().last() == manifest@.stdout);
    }
    note_blob(&mut list, &manifest.stderr);
    assert(all.last() == manifest@.stderr);
    list
}

/// Every content of a list is among those that are listed once.
pub proof fn law_distinct_blobs_cover_all(list: Seq<BlobRef<Seq<char>>>, at: int)
    requires
        0 <= at < list.len(),
    ensures
        lists_content(distinct_blobs(list), list[at]),
    decreases list.len(),
{
    let found = distinct_blobs(list.drop_last());
    if at < list.len() - 1 {
        law_distinct_blobs_cover_all(list.drop_last(), at);
        let place = choose|place: int|
            0 <= place < found.len() && (#[trigger] found[place]).digest == list[at].digest
                && found[place].size == list[at].size;
        assert(distinct_blobs(list)[place] == found[place]);
    } else if !lists_content(found, list.last()) {
        assert(distinct_blobs(list)[found.len() as int] == list.last());
    }
}

/// Where things lie below the root of a cache: content and results in directories that are named by
/// the first two digits, results with the extension `json`, and conflicts beside them.
pub proof fn law_where_things_lie(root: Seq<u8>, digest: Seq<u8>, action: Seq<u8>)
    requires
        root.len() > 0,
        root.last() != 0x2f,
        digest.len() >= 2,
        digest[0] != 0x2f,
        digest[1] != 0x2f,
        action.len() > 0,
    ensures
        ({
            let name = bstr::utf8(hex::hex_text(action));
            &&& blob_file(root, digest) == root + bstr::utf8("/v1/blobs/"@) + digest.take(2)
                + bstr::utf8("/"@) + digest
            &&& result_file(root, action) == root + bstr::utf8("/v1/results/"@) + name.take(2)
                + bstr::utf8("/"@) + name + bstr::utf8(".json"@)
            &&& conflict_file(root, action) == root + bstr::utf8("/v1/conflicts/"@) + name
        }),
{
    let name = bstr::utf8(hex::hex_text(action));
    hex::lemma_hex_bytes(action);
    hex::law_hex_digits(action, 0);
    assert(name[0] == hex::hex_text(action)[0] as u8);
    assert(name[1] == hex::hex_text(action)[1] as u8);
    reveal_strlit("/v1/blobs/");
    reveal_strlit("/v1/results/");
    reveal_strlit("/v1/conflicts/");
    reveal_strlit("v1/blobs");
    reveal_strlit("v1/results");
    reveal_strlit("v1/conflicts");
    reveal_strlit("/");
    bstr::lemma_ascii("/v1/blobs/"@);
    bstr::lemma_ascii("/v1/results/"@);
    bstr::lemma_ascii("/v1/conflicts/"@);
    bstr::lemma_ascii("v1/blobs"@);
    bstr::lemma_ascii("v1/results"@);
    bstr::lemma_ascii("v1/conflicts"@);
    bstr::lemma_ascii("/"@);
    assert(digest.take(2)[0] == digest[0] && name.take(2)[0] == name[0]);
    assert(digest.take(2).last() == digest[1] && name.take(2).last() == name[1]);
    assert(blob_file(root, digest) =~= root + bstr::utf8("/v1/blobs/"@) + digest.take(2)
        + bstr::utf8("/"@) + digest);
    assert(result_file(root, action) =~= root + bstr::utf8("/v1/results/"@) + name.take(2)
        + bstr::utf8("/"@) + name + bstr::utf8(".json"@));
    assert(conflict_file(root, action) =~= root + bstr::utf8("/v1/conflicts/"@) + name);
}

proof fn lemma_areas(areas: Seq<ExpectedDirectory>, index: int)
    requires
        0 <= index <= areas.len(),
    ensures
        area_fault(areas, index) is None <==> forall|at: int|
            index <= at < areas.len() ==> (#[trigger] areas[at]).state is Directory,
    decreases areas.len() - index,
{
    if index < areas.len() {
        lemma_areas(areas, index + 1);
        assert((forall|at: int|
            index <= at < areas.len() ==> (#[trigger] areas[at]).state is Directory) <==> (
        areas[index].state is Directory && forall|at: int|
            index + 1 <= at < areas.len() ==> (#[trigger] areas[at]).state is Directory));
    }
}

/// Content is given out exactly where every directory that leads to it is a real directory, its
/// reference is sound, and a regular file of the size holds bytes of the digest. What is given out
/// are these bytes.
pub proof fn law_which_content_is_given_out(
    root: Seq<u8>,
    reference: BlobRef<Seq<char>>,
    stored: StoredBlob,
)
    ensures
        blob_contents(root, reference, stored) is Ok <==> {
            &&& forall|at: int|
                0 <= at < stored.areas@.len() ==> (#[trigger] stored.areas@[at]).state is Directory
            &&& manifest::sound_blob(reference)
            &&& stored.shard is Directory
            &&& stored.file is File
            &&& stored.contents is Read
            &&& stored.contents->Read_0@.len() == reference.size
            &&& hex::hex_text(digest::blake3_digest(stored.contents->Read_0@)) == reference.digest
        },
        blob_contents(root, reference, stored) matches Ok(bytes) ==> bytes
            == stored.contents->Read_0@,
{
    lemma_areas(stored.areas@, 0);
    manifest::lemma_sound(reference);
}

/// A result is found exactly where the directories are real ones, no conflict is marked, and the
/// manifest of the action can be read.
pub proof fn law_which_results_are_found(root: Seq<u8>, action: Seq<u8>, facts: ManifestFacts)
    ensures
        (loaded(root, action, facts) is Ok && loaded(root, action, facts)->Ok_0 is Some) <==> {
            &&& forall|at: int|
                0 <= at < facts.results@.len() ==> (#[trigger] facts.results@[at]).state
                    is Directory
            &&& forall|at: int|
                0 <= at < facts.conflicts@.len() ==> (#[trigger] facts.conflicts@[at]).state
                    is Directory
            &&& !facts.conflict
            &&& facts.shard is Directory
            &&& facts.existing is Read
            &&& manifest::read_of(facts.existing->length as int, facts.existing->parsed) is Ok
            &&& manifest::read_of(
                facts.existing->length as int,
                facts.existing->parsed,
            )->Ok_0.action_key == action
        },
        loaded(root, action, facts) matches Ok(Some(found)) ==> manifest::read_of(
            facts.existing->length as int,
            facts.existing->parsed,
        ) == Ok::<ManifestView, manifest::ManifestError<Seq<char>>>(found),
{
    lemma_areas(facts.results@, 0);
    lemma_areas(facts.conflicts@, 0);
}

} // verus!
