//! Observations of a module directory, before and after a compilation.
//!
//! A compilation may change the modules that its probe predicted, and no others: anything else in
//! the directory belongs to other jobs.
use vstd::prelude::*;

use crate::bstr;
use crate::digest;
use crate::names;
use crate::upath;
use crate::words;

verus! {

/// The filesystem identity of one directory entry.
#[derive(Clone, Copy, Debug, PartialEq, Eq, PartialOrd, Ord, Structural)]
pub struct FileIdentity {
    pub device: u64,
    pub inode: u64,
}

/// The non-following file type observed for a direct directory entry.
#[derive(Clone, Copy, Debug, PartialEq, Eq, Structural)]
pub enum DirectoryEntryKind {
    RegularFile,
    Directory,
    Symlink,
    Other,
}

/// A filesystem timestamp with its native nanosecond component.
#[derive(Clone, Copy, Debug, PartialEq, Eq, Structural)]
pub struct FileTimestamp {
    pub seconds: i64,
    pub nanoseconds: i64,
}

/// The metadata by which an entry is seen to stay as it is while it is observed.
#[derive(Clone, Copy, Debug, PartialEq, Eq, Structural)]
pub struct MetadataStability {
    pub kind: DirectoryEntryKind,
    pub identity: Option<FileIdentity>,
    pub mode: u32,
    pub size: u64,
    pub modified: FileTimestamp,
    pub changed: FileTimestamp,
}

/// A byte-preserving observation of one direct directory entry.
#[derive(Clone, Debug, PartialEq, Eq)]
pub struct DirectoryEntrySnapshot {
    pub kind: DirectoryEntryKind,
    pub identity: Option<FileIdentity>,
    pub mode: u32,
    pub size: u64,
    pub modified: FileTimestamp,
    pub changed: FileTimestamp,
    pub digest: Option<[u8; 32]>,
    pub symlink_target: Option<Vec<u8>>,
}

/// The contents of a `DirectoryEntrySnapshot`.
#[verifier::ext_equal]
pub struct Entry {
    pub kind: DirectoryEntryKind,
    pub identity: Option<FileIdentity>,
    pub mode: u32,
    pub size: u64,
    pub modified: FileTimestamp,
    pub changed: FileTimestamp,
    pub digest: Option<Seq<u8>>,
    pub symlink_target: Option<Seq<u8>>,
}

impl View for DirectoryEntrySnapshot {
    type V = Entry;

    open spec fn view(&self) -> Entry {
        Entry {
            kind: self.kind,
            identity: self.identity,
            mode: self.mode,
            size: self.size,
            modified: self.modified,
            changed: self.changed,
            digest: match self.digest {
                Some(bytes) => Some(bytes@),
                None => None,
            },
            symlink_target: bstr::opt_view(self.symlink_target),
        }
    }
}

/// A directory entry under its raw file name.
#[derive(Clone, Debug, PartialEq, Eq)]
pub struct DirectoryEntry {
    pub name: Vec<u8>,
    pub snapshot: DirectoryEntrySnapshot,
}

/// The names of directory entries.
pub open spec fn entry_names(entries: Seq<DirectoryEntry>) -> Seq<Seq<u8>> {
    entries.map_values(|entry: DirectoryEntry| entry.name@)
}

/// A complete, byte-preserving observation of a directory's direct entries, in the order of their
/// names.
#[derive(Clone, Debug, PartialEq, Eq)]
pub struct DirectorySnapshot {
    pub directory: Vec<u8>,
    pub directory_identity: FileIdentity,
    pub entries: Vec<DirectoryEntry>,
}

/// Why an observation or a change of a directory is refused.
#[derive(Clone, Copy, Debug, PartialEq, Eq, Structural)]
pub enum SnapshotError {
    IndirectPrediction,
    NotADirectory,
    NoIdentity,
    InvalidEntryName,
    DirectoryChanged,
    EntryChanged,
    DifferentDirectories,
    PredictedNotRegular,
    PredictedAbsent,
    UnpredictedChange,
    AliasedOutput,
}

/// The words of an error. `shown` is how the directory, or the entry that changed, is shown.
pub open spec fn error_text(error: SnapshotError, shown: Seq<char>) -> Seq<char> {
    match error {
        SnapshotError::IndirectPrediction => "predicted output is not a direct filename"@,
        SnapshotError::NotADirectory => "module output path is not a real directory: "@ + shown,
        SnapshotError::NoIdentity => "directory snapshots require stable filesystem identities"@,
        SnapshotError::InvalidEntryName => "invalid or duplicate directory entry name"@,
        SnapshotError::DirectoryChanged => {
            "module output directory changed while observing: "@ + shown
        },
        SnapshotError::EntryChanged => "module output entry changed while observing: "@ + shown,
        SnapshotError::DifferentDirectories => "directory snapshots refer to different paths"@,
        SnapshotError::PredictedNotRegular => "predicted output is not a regular file"@,
        SnapshotError::PredictedAbsent => "predicted output is absent"@,
        SnapshotError::UnpredictedChange => "compiler changed an unpredicted module output"@,
        SnapshotError::AliasedOutput => "predicted output aliases another directory entry"@,
    }
}

impl SnapshotError {
    /// The words of the error. `shown` is how the directory, or the entry that changed, is shown.
    pub fn message(&self, shown: &str) -> (text: String)
        ensures
            text@ == error_text(*self, shown@),
    {
        match self {
            SnapshotError::IndirectPrediction => {
                "predicted output is not a direct filename".to_owned()
            },
            SnapshotError::NotADirectory => words::two(
                "module output path is not a real directory: ",
                shown,
            ),
            SnapshotError::NoIdentity => {
                "directory snapshots require stable filesystem identities".to_owned()
            },
            SnapshotError::InvalidEntryName => {
                "invalid or duplicate directory entry name".to_owned()
            },
            SnapshotError::DirectoryChanged => words::two(
                "module output directory changed while observing: ",
                shown,
            ),
            SnapshotError::EntryChanged => words::two(
                "module output entry changed while observing: ",
                shown,
            ),
            SnapshotError::DifferentDirectories => {
                "directory snapshots refer to different paths".to_owned()
            },
            SnapshotError::PredictedNotRegular => {
                "predicted output is not a regular file".to_owned()
            },
            SnapshotError::PredictedAbsent => "predicted output is absent".to_owned(),
            SnapshotError::UnpredictedChange => {
                "compiler changed an unpredicted module output".to_owned()
            },
            SnapshotError::AliasedOutput => {
                "predicted output aliases another directory entry".to_owned()
            },
        }
    }
}

/// A name that stands for one file of a directory.
pub open spec fn direct_name(name: Seq<u8>) -> bool {
    &&& name.len() > 0
    &&& name != seq![upath::DOT]
    &&& name != seq![upath::DOT, upath::DOT]
    &&& !name.contains(upath::SLASH)
    &&& !name.contains(0)
}

/// A name that stands for one file of a directory.
pub fn is_direct_name(name: &[u8]) -> (yes: bool)
    ensures
        yes == direct_name(name@),
{
    let dots = (name.len() == 1 && name[0] == upath::DOT) || (name.len() == 2 && name[0]
        == upath::DOT && name[1] == upath::DOT);
    proof {
        if dots {
            assert(name@ =~= seq![upath::DOT] || name@ =~= seq![upath::DOT, upath::DOT]);
        } else {
            assert(seq![upath::DOT].len() == 1 && seq![upath::DOT, upath::DOT].len() == 2);
            assert(name@ != seq![upath::DOT] && name@ != seq![upath::DOT, upath::DOT]);
        }
    }
    name.len() > 0 && !dots && !bstr::contains(name, upath::SLASH) && !bstr::contains(name, 0)
}

/// The name of a module or submodule file.
pub open spec fn module_name(name: Seq<u8>) -> bool {
    bstr::has_suffix(name, bstr::utf8(".mod"@)) || bstr::has_suffix(name, bstr::utf8(".smod"@))
}

/// The name of a module or submodule file.
pub fn is_module_name(name: &[u8]) -> (yes: bool)
    ensures
        yes == module_name(name@),
{
    bstr::ends_with_str(name, ".mod") || bstr::ends_with_str(name, ".smod")
}

/// What was read of a file that is opened once, and what it was before and afterwards.
#[derive(Debug)]
pub struct EntryReading {
    pub before: Result<MetadataStability, String>,
    pub contents: Result<Vec<u8>, String>,
    pub after: Result<MetadataStability, String>,
}

/// Why a predicted output has no digest.
#[derive(Clone, Debug, PartialEq, Eq)]
pub enum HashError<S = String> {
    /// The file system refuses.
    Failed(S),
    ChangedBefore,
    ChangedWhile,
}

impl View for HashError {
    type V = HashError<Seq<char>>;

    open spec fn view(&self) -> HashError<Seq<char>> {
        match *self {
            HashError::Failed(text) => HashError::Failed(text@),
            HashError::ChangedBefore => HashError::ChangedBefore,
            HashError::ChangedWhile => HashError::ChangedWhile,
        }
    }
}

/// The digest of a file that stayed as it was seen, or why it has none.
pub open spec fn stable_digest(expected: MetadataStability, reading: EntryReading) -> Result<
    Seq<u8>,
    HashError<Seq<char>>,
> {
    match reading.before {
        Err(text) => Err(HashError::Failed(text@)),
        Ok(before) => if !(before.kind is RegularFile) || before != expected {
            Err(HashError::ChangedBefore)
        } else {
            match reading.contents {
                Err(text) => Err(HashError::Failed(text@)),
                Ok(contents) => match reading.after {
                    Err(text) => Err(HashError::Failed(text@)),
                    Ok(after) => if after != expected || contents@.len() != after.size {
                        Err(HashError::ChangedWhile)
                    } else {
                        Ok(digest::blake3_digest(contents@))
                    },
                },
            }
        },
    }
}

/// The digest of a file that stayed as it was seen.
pub fn hash_regular_file(expected: &MetadataStability, reading: &EntryReading) -> (outcome: Result<
    [u8; 32],
    HashError,
>)
    ensures
        match outcome {
            Ok(sum) => stable_digest(*expected, *reading) == Ok::<Seq<u8>, HashError<Seq<char>>>(
                sum@,
            ),
            Err(error) => stable_digest(*expected, *reading) == Err::<
                Seq<u8>,
                HashError<Seq<char>>,
            >(error@),
        },
{
    match &reading.before {
        Err(text) => {
            return Err(HashError::Failed(text.clone()));
        },
        Ok(before) => {
            if before.kind != DirectoryEntryKind::RegularFile || !same_stability(before, expected) {
                return Err(HashError::ChangedBefore);
            }
        },
    }
    let contents = match &reading.contents {
        Err(text) => {
            return Err(HashError::Failed(text.clone()));
        },
        Ok(contents) => contents,
    };
    match &reading.after {
        Err(text) => Err(HashError::Failed(text.clone())),
        Ok(after) => if !same_stability(after, expected) || contents.len() as u64 != after.size {
            Err(HashError::ChangedWhile)
        } else {
            Ok(digest::hash(contents.as_slice()))
        },
    }
}

/// What one entry of a directory was when it was first seen and when it was seen again, with the
/// digest and the link target that were read of it.
#[derive(Clone, Debug)]
pub struct ObservedEntry {
    pub name: Vec<u8>,
    pub first: MetadataStability,
    pub digest: Option<[u8; 32]>,
    pub symlink_target: Option<Vec<u8>>,
    pub again: MetadataStability,
}

/// What a directory and its entries were when they were observed.
#[derive(Clone, Debug)]
pub struct DirectoryObservation {
    pub directory: Vec<u8>,
    pub before: MetadataStability,
    pub entries: Vec<ObservedEntry>,
    pub after: MetadataStability,
}

/// Some of the first `count` names is not that of one file of the directory.
pub open spec fn indirect_before(predicted: Seq<Seq<u8>>, count: int) -> bool {
    exists|at: int| 0 <= at < count && !direct_name(#[trigger] predicted[at])
}

/// The entry at `index` has no name, or the name of an earlier one.
pub open spec fn bad_name(entries: Seq<ObservedEntry>, index: int) -> bool {
    entries[index].name@.len() == 0 || exists|at: int|
        0 <= at < index && (#[trigger] entries[at]).name@ == entries[index].name@
}

/// Some of the first `count` entries has no name, or the name of an earlier one.
pub open spec fn bad_names(entries: Seq<ObservedEntry>, count: int) -> bool {
    exists|at: int| 0 <= at < count && #[trigger] bad_name(entries, at)
}

/// Some of the first `count` entries did not stay as it was.
pub open spec fn unstable(entries: Seq<ObservedEntry>, count: int) -> bool {
    exists|at: int| 0 <= at < count && (#[trigger] entries[at]).first != entries[at].again
}

/// The first fault of an observation for predicted outputs.
pub open spec fn observation_fault(
    observation: DirectoryObservation,
    predicted: Seq<Seq<u8>>,
) -> Option<SnapshotError> {
    let entries = observation.entries@;
    if indirect_before(predicted, predicted.len() as int) {
        Some(SnapshotError::IndirectPrediction)
    } else if !(observation.before.kind is Directory) {
        Some(SnapshotError::NotADirectory)
    } else if observation.before.identity is None {
        Some(SnapshotError::NoIdentity)
    } else if bad_names(entries, entries.len() as int) {
        Some(SnapshotError::InvalidEntryName)
    } else if observation.after != observation.before {
        Some(SnapshotError::DirectoryChanged)
    } else if unstable(entries, entries.len() as int) {
        Some(SnapshotError::EntryChanged)
    } else {
        None
    }
}

/// What is kept of an observed entry: the digest of a predicted regular file, and the target of a
/// link.
pub open spec fn kept_entry(observed: ObservedEntry, predicted: Seq<Seq<u8>>) -> Entry {
    Entry {
        kind: observed.first.kind,
        identity: observed.first.identity,
        mode: observed.first.mode,
        size: observed.first.size,
        modified: observed.first.modified,
        changed: observed.first.changed,
        digest: if observed.first.kind is RegularFile && predicted.contains(observed.name@) {
            match observed.digest {
                Some(bytes) => Some(bytes@),
                None => None,
            }
        } else {
            None
        },
        symlink_target: if observed.first.kind is Symlink {
            bstr::opt_view(observed.symlink_target)
        } else {
            None
        },
    }
}

/// A snapshot holds exactly the first `count` observed entries, sorted by name.
pub open spec fn holds_entries(
    kept: Seq<DirectoryEntry>,
    observed: Seq<ObservedEntry>,
    predicted: Seq<Seq<u8>>,
    count: int,
) -> bool {
    &&& names::sorted(entry_names(kept))
    &&& kept.len() == count
    &&& forall|at: int|
        0 <= at < kept.len() ==> exists|from: int|
            0 <= from < count && (#[trigger] kept[at]).name@ == (
            #[trigger] observed[from]).name@ && kept[at].snapshot@ == kept_entry(
                observed[from],
                predicted,
            )
}

fn keep_entry(observed: &ObservedEntry, predicted: &Vec<Vec<u8>>) -> (entry: DirectoryEntry)
    ensures
        entry.name@ == observed.name@,
        entry.snapshot@ == kept_entry(*observed, bstr::views(predicted@)),
{
    let digest = match observed.first.kind {
        DirectoryEntryKind::RegularFile => if names::contains(
            predicted,
            observed.name.as_slice(),
        ) {
            observed.digest
        } else {
            None
        },
        _ => None,
    };
    let symlink_target = match observed.first.kind {
        DirectoryEntryKind::Symlink => bstr::copy_opt(&observed.symlink_target),
        _ => None,
    };
    DirectoryEntry {
        name: bstr::copy(observed.name.as_slice()),
        snapshot: DirectoryEntrySnapshot {
            kind: observed.first.kind,
            identity: observed.first.identity,
            mode: observed.first.mode,
            size: observed.first.size,
            modified: observed.first.modified,
            changed: observed.first.changed,
            digest,
            symlink_target,
        },
    }
}

/// The entry of a name.
pub open spec fn entry_of(entries: Seq<DirectoryEntry>, name: Seq<u8>, index: int) -> Option<Entry>
    decreases entries.len() - index,
{
    if index >= entries.len() {
        None
    } else if entries[index].name@ == name {
        Some(entries[index].snapshot@)
    } else {
        entry_of(entries, name, index + 1)
    }
}

/// The entry of a name differs between two observations.
pub open spec fn changed(
    before: Seq<DirectoryEntry>,
    after: Seq<DirectoryEntry>,
    name: Seq<u8>,
) -> bool {
    entry_of(before, name, 0) != entry_of(after, name, 0)
}

/// The first fault of the predicted names from `index` on: each is now a regular file that was
/// read.
pub open spec fn prediction_fault(
    after: Seq<DirectoryEntry>,
    predicted: Seq<Seq<u8>>,
    index: int,
) -> Option<SnapshotError>
    decreases predicted.len() - index,
{
    if index >= predicted.len() {
        None
    } else if !direct_name(predicted[index]) {
        Some(SnapshotError::IndirectPrediction)
    } else {
        match entry_of(after, predicted[index], 0) {
            None => Some(SnapshotError::PredictedAbsent),
            Some(entry) => if entry.kind is RegularFile && entry.digest is Some {
                prediction_fault(after, predicted, index + 1)
            } else {
                Some(SnapshotError::PredictedNotRegular)
            },
        }
    }
}

/// A module that was not predicted is among the changed entries of a list.
pub open spec fn unpredicted_among(
    list: Seq<DirectoryEntry>,
    before: Seq<DirectoryEntry>,
    after: Seq<DirectoryEntry>,
    predicted: Seq<Seq<u8>>,
) -> bool {
    exists|at: int|
        0 <= at < list.len() && module_name((#[trigger] list[at]).name@) && !predicted.contains(
            list[at].name@,
        ) && changed(before, after, list[at].name@)
}

/// A predicted output is the same file as another entry.
pub open spec fn aliased(after: Seq<DirectoryEntry>, predicted: Seq<Seq<u8>>) -> bool {
    exists|left: int, right: int|
        0 <= left < after.len() && 0 <= right < after.len() && left != right && predicted.contains(
            (#[trigger] after[left]).name@,
        ) && after[left].snapshot.identity is Some && after[left].snapshot.identity == (
        #[trigger] after[right]).snapshot.identity
}

/// Why the changes between two observations are refused.
pub open spec fn change_fault(
    before: DirectorySnapshot,
    after: DirectorySnapshot,
    predicted: Seq<Seq<u8>>,
) -> Option<SnapshotError> {
    if !upath::same_path(before.directory@, after.directory@) || before.directory_identity
        != after.directory_identity {
        Some(SnapshotError::DifferentDirectories)
    } else if prediction_fault(after.entries@, predicted, 0) is Some {
        prediction_fault(after.entries@, predicted, 0)
    } else if unpredicted_among(before.entries@, before.entries@, after.entries@, predicted)
        || unpredicted_among(after.entries@, before.entries@, after.entries@, predicted) {
        Some(SnapshotError::UnpredictedChange)
    } else if aliased(after.entries@, predicted) {
        Some(SnapshotError::AliasedOutput)
    } else {
        None
    }
}

fn same_digest(left: &Option<[u8; 32]>, right: &Option<[u8; 32]>) -> (equal: bool)
    ensures
        equal == ((match *left {
            Some(bytes) => Some(bytes@),
            None => None,
        }) == (match *right {
            Some(bytes) => Some(bytes@),
            None => None::<Seq<u8>>,
        })),
{
    match (left, right) {
        (Some(first), Some(second)) => crate::digest::same(first, second),
        (None, None) => true,
        _ => false,
    }
}

fn same_target(left: &Option<Vec<u8>>, right: &Option<Vec<u8>>) -> (equal: bool)
    ensures
        equal == (bstr::opt_view(*left) == bstr::opt_view(*right)),
{
    match (left, right) {
        (Some(first), Some(second)) => bstr::same(first.as_slice(), second.as_slice()),
        (None, None) => true,
        _ => false,
    }
}

fn same_identity(left: Option<FileIdentity>, right: Option<FileIdentity>) -> (equal: bool)
    ensures
        equal == (left == right),
{
    match (left, right) {
        (Some(first), Some(second)) => first == second,
        (None, None) => true,
        _ => false,
    }
}

fn same_entry(left: &DirectoryEntrySnapshot, right: &DirectoryEntrySnapshot) -> (equal: bool)
    ensures
        equal == (left@ == right@),
{
    left.kind == right.kind && same_identity(left.identity, right.identity) && left.mode
        == right.mode && left.size == right.size && left.modified == right.modified && left.changed
        == right.changed && same_digest(&left.digest, &right.digest) && same_target(
        &left.symlink_target,
        &right.symlink_target,
    )
}

fn find_entry<'a>(entries: &'a Vec<DirectoryEntry>, name: &[u8]) -> (entry: Option<
    &'a DirectoryEntrySnapshot,
>)
    ensures
        match entry {
            Some(found) => entry_of(entries@, name@, 0) == Some(found@),
            None => entry_of(entries@, name@, 0) is None,
        },
{
    let mut index: usize = 0;
    while index < entries.len()
        invariant
            index <= entries.len(),
            entry_of(entries@, name@, 0) == entry_of(entries@, name@, index as int),
        decreases entries.len() - index,
    {
        if bstr::same(entries[index].name.as_slice(), name) {
            return Some(&entries[index].snapshot);
        }
        index += 1;
    }
    None
}

impl DirectorySnapshot {
    /// Observes a directory for which no output is predicted.
    pub fn read(observation: &DirectoryObservation) -> (outcome: Result<Self, SnapshotError>)
        ensures
            match outcome {
                Ok(snapshot) => {
                    &&& observation_fault(*observation, Seq::empty()) is None
                    &&& snapshot.directory@ == observation.directory@
                    &&& Some(snapshot.directory_identity) == observation.before.identity
                    &&& holds_entries(
                        snapshot.entries@,
                        observation.entries@,
                        Seq::empty(),
                        observation.entries@.len() as int,
                    )
                },
                Err(error) => observation_fault(*observation, Seq::empty()) == Some(error),
            },
    {
        let predicted: Vec<Vec<u8>> = Vec::new();
        assert(bstr::views(predicted@) =~= Seq::empty());
        Self::read_for_outputs(observation, &predicted)
    }

    /// Observes a directory, with the digests of predicted outputs alone.
    pub fn read_for_outputs(
        observation: &DirectoryObservation,
        predicted: &Vec<Vec<u8>>,
    ) -> (outcome: Result<Self, SnapshotError>)
        ensures
            match outcome {
                Ok(snapshot) => {
                    &&& observation_fault(*observation, bstr::views(predicted@)) is None
                    &&& snapshot.directory@ == observation.directory@
                    &&& Some(snapshot.directory_identity) == observation.before.identity
                    &&& holds_entries(
                        snapshot.entries@,
                        observation.entries@,
                        bstr::views(predicted@),
                        observation.entries@.len() as int,
                    )
                },
                Err(error) => observation_fault(*observation, bstr::views(predicted@)) == Some(
                    error,
                ),
            },
    {
        let ghost wanted = bstr::views(predicted@);
        let mut index: usize = 0;
        while index < predicted.len()
            invariant
                index <= predicted.len(),
                wanted == bstr::views(predicted@),
                forall|at: int| 0 <= at < index ==> direct_name(#[trigger] wanted[at]),
            decreases predicted.len() - index,
        {
            assert(wanted[index as int] == predicted@[index as int]@);
            if !is_direct_name(predicted[index].as_slice()) {
                assert(!direct_name(wanted[index as int]));
                return Err(SnapshotError::IndirectPrediction);
            }
            index += 1;
        }
        match observation.before.kind {
            DirectoryEntryKind::Directory => {},
            _ => {
                return Err(SnapshotError::NotADirectory);
            },
        }
        let directory_identity = match observation.before.identity {
            Some(identity) => identity,
            None => {
                return Err(SnapshotError::NoIdentity);
            },
        };
        let entries = match collect_entries(&observation.entries, predicted) {
            Some(entries) => entries,
            None => {
                return Err(SnapshotError::InvalidEntryName);
            },
        };
        if !same_stability(&observation.after, &observation.before) {
            return Err(SnapshotError::DirectoryChanged);
        }
        let mut entry: usize = 0;
        while entry < observation.entries.len()
            invariant
                entry <= observation.entries.len(),
                !indirect_before(wanted, wanted.len() as int),
                wanted == bstr::views(predicted@),
                observation.before.kind is Directory,
                observation.before.identity is Some,
                !bad_names(observation.entries@, observation.entries@.len() as int),
                observation.after == observation.before,
                forall|at: int|
                    0 <= at < entry ==> (#[trigger] observation.entries@[at]).first
                        == observation.entries@[at].again,
            decreases observation.entries.len() - entry,
        {
            if !same_stability(&observation.entries[entry].again, &observation.entries[entry].first) {
                assert(observation.entries@[entry as int].first
                    != observation.entries@[entry as int].again);
                return Err(SnapshotError::EntryChanged);
            }
            entry += 1;
        }
        Ok(
            DirectorySnapshot {
                directory: bstr::copy(observation.directory.as_slice()),
                directory_identity,
                entries,
            },
        )
    }

    /// All entries, in the order of their raw names.
    pub fn entries(&self) -> (entries: &Vec<DirectoryEntry>)
        ensures
            *entries == self.entries,
    {
        &self.entries
    }

    /// The names of the predicted outputs that changed, in order, where all changes of modules are
    /// those of predicted regular files.
    pub fn validate_changes(&self, after: &Self, predicted: &Vec<Vec<u8>>) -> (outcome: Result<
        Vec<Vec<u8>>,
        SnapshotError,
    >)
        ensures
            match outcome {
                Ok(changes) => {
                    &&& change_fault(*self, *after, bstr::views(predicted@)) is None
                    &&& names::sorted(bstr::views(changes@))
                    &&& forall|name: Seq<u8>| #[trigger]
                        bstr::views(changes@).contains(name) <==> bstr::views(
                            predicted@,
                        ).contains(name) && changed(self.entries@, after.entries@, name)
                },
                Err(error) => change_fault(*self, *after, bstr::views(predicted@)) == Some(error),
            },
    {
        if !upath::same(self.directory.as_slice(), after.directory.as_slice()) || !(
        self.directory_identity == after.directory_identity) {
            return Err(SnapshotError::DifferentDirectories);
        }
        check_predictions(&after.entries, predicted)?;
        if self.has_unpredicted(&self.entries, after, predicted) || self.has_unpredicted(
            &after.entries,
            after,
            predicted,
        ) {
            return Err(SnapshotError::UnpredictedChange);
        }
        if has_alias(&after.entries, predicted) {
            return Err(SnapshotError::AliasedOutput);
        }
        let ghost wanted = bstr::views(predicted@);
        let mut changes: Vec<Vec<u8>> = Vec::new();
        let mut index: usize = 0;
        assert(bstr::views(changes@) =~= Seq::empty());
        while index < predicted.len()
            invariant
                index <= predicted.len(),
                wanted == bstr::views(predicted@),
                names::sorted(bstr::views(changes@)),
                forall|name: Seq<u8>| #[trigger]
                    bstr::views(changes@).contains(name) <==> wanted.take(index as int).contains(
                        name,
                    ) && changed(self.entries@, after.entries@, name),
            decreases predicted.len() - index,
        {
            let ghost current = wanted[index as int];
            assert(current == predicted@[index as int]@);
            let ghost before = bstr::views(changes@);
            if self.entry_changed(after, predicted[index].as_slice()) {
                let _ = names::insert(&mut changes, predicted[index].as_slice());
            }
            proof {
                assert forall|name: Seq<u8>| #[trigger]
                    bstr::views(changes@).contains(name) <==> wanted.take(index + 1).contains(name)
                        && changed(self.entries@, after.entries@, name) by {
                    lemma_take_contains(wanted, index as int, name);
                    assert(before.contains(name) <==> wanted.take(index as int).contains(name)
                        && changed(self.entries@, after.entries@, name));
                }
            }
            index += 1;
        }
        assert(wanted.take(index as int) =~= wanted);
        Ok(changes)
    }

    fn entry_changed(&self, after: &Self, name: &[u8]) -> (yes: bool)
        ensures
            yes == changed(self.entries@, after.entries@, name@),
    {
        match (find_entry(&self.entries, name), find_entry(&after.entries, name)) {
            (Some(left), Some(right)) => !same_entry(left, right),
            (None, None) => false,
            _ => true,
        }
    }

    fn has_unpredicted(
        &self,
        list: &Vec<DirectoryEntry>,
        after: &Self,
        predicted: &Vec<Vec<u8>>,
    ) -> (yes: bool)
        ensures
            yes == unpredicted_among(
                list@,
                self.entries@,
                after.entries@,
                bstr::views(predicted@),
            ),
    {
        let ghost wanted = bstr::views(predicted@);
        let mut index: usize = 0;
        while index < list.len()
            invariant
                index <= list.len(),
                wanted == bstr::views(predicted@),
                forall|at: int|
                    0 <= at < index ==> !(module_name((#[trigger] list@[at]).name@)
                        && !wanted.contains(list@[at].name@) && changed(
                        self.entries@,
                        after.entries@,
                        list@[at].name@,
                    )),
            decreases list.len() - index,
        {
            let name = list[index].name.as_slice();
            if is_module_name(name) && !names::contains(predicted, name) && self.entry_changed(
                after,
                name,
            ) {
                assert(module_name(list@[index as int].name@));
                return true;
            }
            index += 1;
        }
        false
    }
}

proof fn lemma_take_contains(list: Seq<Seq<u8>>, index: int, name: Seq<u8>)
    requires
        0 <= index < list.len(),
    ensures
        list.take(index + 1).contains(name) <==> list.take(index).contains(name) || list[index]
            == name,
{
    let longer = list.take(index + 1);
    let shorter = list.take(index);
    if shorter.contains(name) {
        let at = choose|at: int| 0 <= at < shorter.len() && shorter[at] == name;
        assert(longer[at] == name);
    }
    if list[index] == name {
        assert(longer[index] == name);
    }
    if longer.contains(name) {
        let at = choose|at: int| 0 <= at < longer.len() && longer[at] == name;
        if at < index {
            assert(shorter[at] == name);
        }
    }
}

fn same_stability(left: &MetadataStability, right: &MetadataStability) -> (equal: bool)
    ensures
        equal == (*left == *right),
{
    left.kind == right.kind && same_identity(left.identity, right.identity) && left.mode
        == right.mode && left.size == right.size && left.modified == right.modified && left.changed
        == right.changed
}

fn collect_entries(observed: &Vec<ObservedEntry>, predicted: &Vec<Vec<u8>>) -> (entries: Option<
    Vec<DirectoryEntry>,
>)
    ensures
        match entries {
            Some(kept) => !bad_names(observed@, observed@.len() as int) && holds_entries(
                kept@,
                observed@,
                bstr::views(predicted@),
                observed@.len() as int,
            ),
            None => bad_names(observed@, observed@.len() as int),
        },
{
    let ghost wanted = bstr::views(predicted@);
    let mut kept: Vec<DirectoryEntry> = Vec::new();
    let mut index: usize = 0;
    assert(entry_names(kept@) =~= Seq::empty());
    while index < observed.len()
        invariant
            index <= observed.len(),
            wanted == bstr::views(predicted@),
            !bad_names(observed@, index as int),
            holds_entries(kept@, observed@, wanted, index as int),
            forall|from: int|
                0 <= from < index ==> entry_names(kept@).contains((#[trigger] observed@[from]).name@),
        decreases observed.len() - index,
    {
        let name = observed[index].name.as_slice();
        let ghost known = entry_names(kept@);
        if name.len() == 0 {
            assert(bad_name(observed@, index as int));
            return None;
        }
        let mut place: usize = 0;
        while place < kept.len() && bstr::less(kept[place].name.as_slice(), name)
            invariant
                place <= kept.len(),
                known == entry_names(kept@),
                names::sorted(known),
                forall|at: int| 0 <= at < place ==> bstr::before(#[trigger] known[at], name@),
            decreases kept.len() - place,
        {
            assert(known[place as int] == kept@[place as int].name@);
            place += 1;
        }
        if place < kept.len() && bstr::same(kept[place].name.as_slice(), name) {
            proof {
                let from = choose|from: int|
                    0 <= from < index && kept@[place as int].name@ == (
                    #[trigger] observed@[from]).name@ && kept@[place as int].snapshot@ == kept_entry(
                        observed@[from],
                        wanted,
                    );
                assert(observed@[from].name@ == observed@[index as int].name@);
                assert(bad_name(observed@, index as int));
            }
            return None;
        }
        proof {
            bstr::lemma_before_irreflexive(name@);
            if place < kept.len() {
                assert(known[place as int] == kept@[place as int].name@);
                bstr::lemma_before_total(known[place as int], name@);
                assert forall|at: int| place <= at < known.len() implies bstr::before(
                    name@,
                    #[trigger] known[at],
                ) by {
                    if at > place {
                        bstr::lemma_before_transitive(name@, known[place as int], known[at]);
                    }
                }
            }
            names::lemma_insert_sorted(known, place as int, name@);
            assert(!known.contains(name@));
            assert(!bad_name(observed@, index as int)) by {
                if bad_name(observed@, index as int) {
                    let at = choose|at: int|
                        0 <= at < index && (#[trigger] observed@[at]).name@
                            == observed@[index as int].name@;
                    assert(known.contains(observed@[at].name@));
                }
            }
            assert forall|at: int| 0 <= at < index + 1 implies !#[trigger] bad_name(
                observed@,
                at,
            ) by {
                if at < index {
                    assert(!bad_name(observed@, at));
                }
            }
        }
        let entry = keep_entry(&observed[index], predicted);
        let ghost before = kept@;
        kept.insert(place, entry);
        proof {
            assert(entry_names(kept@) =~= known.insert(place as int, name@));
            assert forall|at: int| 0 <= at < kept@.len() implies exists|from: int|
                0 <= from < index + 1 && (#[trigger] kept@[at]).name@ == (
                #[trigger] observed@[from]).name@ && kept@[at].snapshot@ == kept_entry(
                    observed@[from],
                    wanted,
                ) by {
                if at == place {
                    assert(kept@[at].name@ == observed@[index as int].name@);
                } else {
                    let old_at = if at < place {
                        at
                    } else {
                        at - 1
                    };
                    assert(kept@[at] == before[old_at]);
                    let from = choose|from: int|
                        0 <= from < index && before[old_at].name@ == (
                        #[trigger] observed@[from]).name@ && before[old_at].snapshot@ == kept_entry(
                            observed@[from],
                            wanted,
                        );
                    assert(kept@[at].name@ == observed@[from].name@);
                }
            }
        }
        index += 1;
    }
    Some(kept)
}

fn check_predictions(after: &Vec<DirectoryEntry>, predicted: &Vec<Vec<u8>>) -> (outcome: Result<
    (),
    SnapshotError,
>)
    ensures
        match outcome {
            Ok(_) => prediction_fault(after@, bstr::views(predicted@), 0) is None,
            Err(error) => prediction_fault(after@, bstr::views(predicted@), 0) == Some(error),
        },
{
    let ghost wanted = bstr::views(predicted@);
    let mut index: usize = 0;
    while index < predicted.len()
        invariant
            index <= predicted.len(),
            wanted == bstr::views(predicted@),
            prediction_fault(after@, wanted, 0) == prediction_fault(after@, wanted, index as int),
        decreases predicted.len() - index,
    {
        let name = predicted[index].as_slice();
        assert(wanted[index as int] == name@);
        if !is_direct_name(name) {
            return Err(SnapshotError::IndirectPrediction);
        }
        match find_entry(after, name) {
            None => {
                return Err(SnapshotError::PredictedAbsent);
            },
            Some(entry) => {
                let regular = match entry.kind {
                    DirectoryEntryKind::RegularFile => true,
                    _ => false,
                };
                if !regular || entry.digest.is_none() {
                    return Err(SnapshotError::PredictedNotRegular);
                }
            },
        }
        index += 1;
    }
    Ok(())
}

fn has_alias(after: &Vec<DirectoryEntry>, predicted: &Vec<Vec<u8>>) -> (yes: bool)
    ensures
        yes == aliased(after@, bstr::views(predicted@)),
{
    let ghost wanted = bstr::views(predicted@);
    let mut left: usize = 0;
    while left < after.len()
        invariant
            left <= after.len(),
            wanted == bstr::views(predicted@),
            forall|at: int, other: int|
                0 <= at < left && 0 <= other < after@.len() && at != other && wanted.contains(
                    (#[trigger] after@[at]).name@,
                ) && after@[at].snapshot.identity is Some ==> after@[at].snapshot.identity != (
                #[trigger] after@[other]).snapshot.identity,
        decreases after.len() - left,
    {
        if names::contains(predicted, after[left].name.as_slice())
            && after[left].snapshot.identity.is_some() {
            let mut right: usize = 0;
            while right < after.len()
                invariant
                    right <= after.len(),
                    left < after.len(),
                    wanted == bstr::views(predicted@),
                    wanted.contains(after@[left as int].name@),
                    after@[left as int].snapshot.identity is Some,
                    forall|other: int|
                        0 <= other < right && other != left ==> after@[left as int].snapshot.identity
                            != (#[trigger] after@[other]).snapshot.identity,
                decreases after.len() - right,
            {
                if right != left && same_identity(
                    after[left].snapshot.identity,
                    after[right].snapshot.identity,
                ) {
                    assert(after@[left as int].snapshot.identity
                        == after@[right as int].snapshot.identity);
                    return true;
                }
                right += 1;
            }
        }
        left += 1;
    }
    false
}

proof fn lemma_entry_of(entries: Seq<DirectoryEntry>, name: Seq<u8>, index: int)
    requires
        0 <= index <= entries.len(),
    ensures
        entry_of(entries, name, index) is None <==> forall|at: int|
            index <= at < entries.len() ==> (#[trigger] entries[at]).name@ != name,
        entry_of(entries, name, index) matches Some(entry) ==> exists|at: int|
            index <= at < entries.len() && (#[trigger] entries[at]).name@ == name
                && entries[at].snapshot@ == entry,
    decreases entries.len() - index,
{
    if index < entries.len() && entries[index].name@ != name {
        lemma_entry_of(entries, name, index + 1);
        if entry_of(entries, name, index + 1) is None {
            assert forall|at: int| index <= at < entries.len() implies (
            #[trigger] entries[at]).name@ != name by {
                if at > index {
                    assert(index + 1 <= at);
                }
            }
        }
    }
}

proof fn lemma_predictions(after: Seq<DirectoryEntry>, predicted: Seq<Seq<u8>>, index: int)
    requires
        0 <= index <= predicted.len(),
    ensures
        prediction_fault(after, predicted, index) is None <==> forall|at: int|
            index <= at < predicted.len() ==> direct_name(#[trigger] predicted[at]) && (entry_of(
                after,
                predicted[at],
                0,
            ) matches Some(entry) && entry.kind is RegularFile && entry.digest is Some),
    decreases predicted.len() - index,
{
    if index < predicted.len() {
        lemma_predictions(after, predicted, index + 1);
        if prediction_fault(after, predicted, index) is None {
            assert forall|at: int| index <= at < predicted.len() implies direct_name(
                #[trigger] predicted[at],
            ) && (entry_of(after, predicted[at], 0) matches Some(entry) && entry.kind
                is RegularFile && entry.digest is Some) by {
                if at > index {
                    assert(index + 1 <= at);
                }
            }
        } else if forall|at: int|
            index <= at < predicted.len() ==> direct_name(#[trigger] predicted[at]) && (entry_of(
                after,
                predicted[at],
                0,
            ) matches Some(entry) && entry.kind is RegularFile && entry.digest is Some) {
            assert(direct_name(predicted[index]));
            assert(forall|at: int|
                index + 1 <= at < predicted.len() ==> direct_name(#[trigger] predicted[at]) && (
                entry_of(after, predicted[at], 0) matches Some(entry) && entry.kind is RegularFile
                    && entry.digest is Some));
        }
    }
}

/// The changes of a module directory are accepted only where it is the same directory, each
/// predicted output is there, a regular file under a plain name whose contents are known, and no
/// other name for a file; and where no other file named `.mod` or `.smod` came, went or changed in
/// any way.
pub proof fn law_accepted_changes_are_predicted(
    before: DirectorySnapshot,
    after: DirectorySnapshot,
    predicted: Seq<Seq<u8>>,
)
    requires
        change_fault(before, after, predicted) is None,
    ensures
        before.directory_identity == after.directory_identity,
        upath::same_path(before.directory@, after.directory@),
        forall|at: int|
            0 <= at < predicted.len() ==> {
                let name = #[trigger] predicted[at];
                &&& name.len() > 0 && !name.contains(0x2f) && !name.contains(0x00)
                &&& name != seq![0x2eu8] && name != seq![0x2eu8, 0x2eu8]
                &&& exists|from: int|
                    0 <= from < after.entries@.len() && (#[trigger] after.entries@[from]).name@
                        == name && after.entries@[from].snapshot.kind is RegularFile
                        && after.entries@[from].snapshot.digest is Some
            },
        forall|name: Seq<u8>|
            (bstr::has_suffix(name, bstr::utf8(".mod"@)) || bstr::has_suffix(
                name,
                bstr::utf8(".smod"@),
            )) && !predicted.contains(name) ==> #[trigger] entry_of(before.entries@, name, 0)
                == entry_of(after.entries@, name, 0),
        forall|left: int, right: int|
            0 <= left < after.entries@.len() && 0 <= right < after.entries@.len() && left != right
                && predicted.contains((#[trigger] after.entries@[left]).name@)
                && after.entries@[left].snapshot.identity is Some
                ==> after.entries@[left].snapshot.identity != (
            #[trigger] after.entries@[right]).snapshot.identity,
{
    lemma_predictions(after.entries@, predicted, 0);
    assert forall|at: int| 0 <= at < predicted.len() implies {
        let name = #[trigger] predicted[at];
        &&& name.len() > 0 && !name.contains(0x2f) && !name.contains(0x00)
        &&& name != seq![0x2eu8] && name != seq![0x2eu8, 0x2eu8]
        &&& exists|from: int|
            0 <= from < after.entries@.len() && (#[trigger] after.entries@[from]).name@ == name
                && after.entries@[from].snapshot.kind is RegularFile
                && after.entries@[from].snapshot.digest is Some
    } by {
        let name = predicted[at];
        assert(direct_name(name));
        lemma_entry_of(after.entries@, name, 0);
        let entry = entry_of(after.entries@, name, 0)->0;
        let from = choose|from: int|
            0 <= from < after.entries@.len() && (#[trigger] after.entries@[from]).name@ == name
                && after.entries@[from].snapshot@ == entry;
        assert(after.entries@[from].snapshot.kind is RegularFile);
        assert(after.entries@[from].snapshot.digest is Some);
    }
    assert forall|name: Seq<u8>|
        (bstr::has_suffix(name, bstr::utf8(".mod"@)) || bstr::has_suffix(
            name,
            bstr::utf8(".smod"@),
        )) && !predicted.contains(name) implies #[trigger] entry_of(before.entries@, name, 0)
        == entry_of(after.entries@, name, 0) by {
        lemma_entry_of(before.entries@, name, 0);
        lemma_entry_of(after.entries@, name, 0);
        if changed(before.entries@, after.entries@, name) {
            if entry_of(before.entries@, name, 0) is Some {
                let at = choose|at: int|
                    0 <= at < before.entries@.len() && (#[trigger] before.entries@[at]).name@
                        == name;
                assert(module_name(before.entries@[at].name@));
            } else {
                let at = choose|at: int|
                    0 <= at < after.entries@.len() && (#[trigger] after.entries@[at]).name@ == name;
                assert(module_name(after.entries@[at].name@));
            }
        }
    }
}

/// A file is hashed where it is a regular file with the expected metadata before and after, and as
/// long as its contents; the digest is that of its contents.
pub proof fn law_hashed_files_are_stable(expected: MetadataStability, reading: EntryReading)
    ensures
        stable_digest(expected, reading) is Ok <==> {
            &&& reading.before is Ok && reading.contents is Ok && reading.after is Ok
            &&& reading.before->Ok_0 == expected && reading.after->Ok_0 == expected
            &&& expected.kind is RegularFile
            &&& reading.contents->Ok_0@.len() == expected.size
        },
        stable_digest(expected, reading) matches Ok(found) ==> found == digest::blake3_digest(
            reading.contents->Ok_0@,
        ),
{
}

} // verus!
