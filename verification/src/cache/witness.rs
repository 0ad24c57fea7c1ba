//! How files are witnessed: what was found of a path and of its parts becomes a witness, or does not.
use vstd::prelude::*;
use vstd::string::*;

use crate::bstr;
use crate::cache::direct::{
    Contents, DirectDigest, EncodedOsString, MetadataWitness, PathWitness, SymlinkWitness,
    WitnessFileType, MAX_SYMLINKS_PER_PATH,
};
use crate::cache::store::PathState;
use crate::digest;
use crate::upath;

verus! {

broadcast use bstr::lemma_views_push;

/// What is found of a file.
#[derive(Clone, Copy, Debug, PartialEq, Eq, Structural)]
pub struct FileLook {
    pub regular: bool,
    pub metadata: MetadataWitness,
}

/// What is found when a file is read: of the open file before and after, and of its path after.
#[derive(Debug)]
pub struct FileReading {
    pub before: Result<FileLook, String>,
    pub contents: Result<Vec<u8>, String>,
    pub after: Result<FileLook, String>,
    pub named: Result<FileLook, String>,
}

/// What is told of a file that changes.
pub open spec fn changed_text() -> Seq<char> {
    "input changed while it was read"@
}

/// What is told of a path that is not what it should be.
pub open spec fn type_text() -> Seq<char> {
    "unexpected file type"@
}

/// What a file holds, where nothing of it changes while it is read, or why that is not known.
pub open spec fn stable(reading: FileReading) -> Result<(Seq<u8>, nat), Seq<char>> {
    if reading.before is Err {
        Err(reading.before->Err_0@)
    } else if !reading.before->Ok_0.regular {
        Err(type_text())
    } else if reading.contents is Err {
        Err(reading.contents->Err_0@)
    } else if reading.after is Err {
        Err(reading.after->Err_0@)
    } else if reading.named is Err {
        Err(reading.named->Err_0@)
    } else {
        let first = reading.before->Ok_0.metadata;
        let bytes = reading.contents->Ok_0@;
        if reading.after->Ok_0.metadata != first || reading.named->Ok_0.metadata != first
            || bytes.len() != first.size {
            Err(changed_text())
        } else {
            Ok((digest::blake3_digest(bytes), bytes.len()))
        }
    }
}

/// The digest and the size of a file, where nothing of it changes while it is read.
pub fn hash_stable_regular_file(reading: &FileReading) -> (outcome: Result<Contents, String>)
    ensures
        match outcome {
            Ok(contents) => stable(*reading) == Ok::<(Seq<u8>, nat), Seq<char>>(
                (contents.digest@, contents.size as nat),
            ),
            Err(text) => stable(*reading) == Err::<(Seq<u8>, nat), Seq<char>>(text@),
        },
{
    let before = match &reading.before {
        Ok(look) => look,
        Err(text) => {
            return Err(text.clone());
        },
    };
    if !before.regular {
        return Err("unexpected file type".to_owned());
    }
    let contents = match &reading.contents {
        Ok(bytes) => bytes,
        Err(text) => {
            return Err(text.clone());
        },
    };
    let after = match &reading.after {
        Ok(look) => look,
        Err(text) => {
            return Err(text.clone());
        },
    };
    let named = match &reading.named {
        Ok(look) => look,
        Err(text) => {
            return Err(text.clone());
        },
    };
    if after.metadata != before.metadata || named.metadata != before.metadata
        || contents.len() as u64 != before.metadata.size {
        return Err("input changed while it was read".to_owned());
    }
    Ok(
        Contents {
            digest: DirectDigest::hash(contents.as_slice()),
            size: contents.len() as u64,
        },
    )
}

/// What is found of a part of a path.
#[derive(Debug)]
pub enum PartState {
    Missing,
    Failed(String),
    /// It is no link.
    Plain,
    /// It is a link, and where it leads could be read or not.
    Link { target: Result<Vec<u8>, String>, metadata: MetadataWitness },
}

/// A link, in views.
#[verifier::ext_equal]
pub struct Link {
    pub path: Seq<u8>,
    pub target: Seq<u8>,
    pub metadata: MetadataWitness,
}

/// The contents of a link.
pub open spec fn link_view(link: SymlinkWitness) -> Link {
    Link { path: link.path@, target: link.target@, metadata: link.metadata }
}

/// The contents of links.
pub open spec fn link_views(links: Seq<SymlinkWitness>) -> Seq<Link> {
    links.map_values(|link: SymlinkWitness| link_view(link))
}

/// The links among the first `count` parts of a path, or why they are not known.
pub open spec fn links_among(parts: Seq<Seq<u8>>, states: Seq<PartState>, count: int) -> Result<
    Seq<Link>,
    Seq<char>,
>
    decreases count,
{
    if count <= 0 {
        Ok(Seq::empty())
    } else {
        match links_among(parts, states, count - 1) {
            Err(text) => Err(text),
            Ok(links) => match states[count - 1] {
                PartState::Missing => Ok(links),
                PartState::Plain => Ok(links),
                PartState::Failed(text) => Err(text@),
                PartState::Link { target, metadata } => match target {
                    Err(text) => Err(text@),
                    Ok(place) => Ok(
                        links.push(Link { path: parts[count - 1], target: place@, metadata }),
                    ),
                },
            },
        }
    }
}

/// What is told of a path with more links than one can have.
pub open spec fn many_text() -> Seq<char> {
    "too many symlinks in path"@
}

proof fn lemma_links_fail(parts: Seq<Seq<u8>>, states: Seq<PartState>, count: int, total: int)
    requires
        0 <= count <= total,
        links_among(parts, states, count) is Err,
    ensures
        links_among(parts, states, total) == links_among(parts, states, count),
    decreases total - count,
{
    if count < total {
        lemma_links_fail(parts, states, count + 1, total);
    }
}

/// The links on the way along a path. `states` says what is found of each of its parts.
pub fn capture_symlinks(parts: &Vec<Vec<u8>>, states: &Vec<PartState>) -> (outcome: Result<
    Vec<SymlinkWitness>,
    String,
>)
    requires
        states@.len() == parts@.len(),
    ensures
        match (outcome, links_among(bstr::views(parts@), states@, parts@.len() as int)) {
            (Ok(links), Ok(found)) => link_views(links@) == found && found.len()
                <= MAX_SYMLINKS_PER_PATH,
            (Err(text), Ok(found)) => found.len() > MAX_SYMLINKS_PER_PATH && text@ == many_text(),
            (Err(text), Err(told)) => text@ == told,
            (Ok(_), Err(_)) => false,
        },
{
    let ghost all = bstr::views(parts@);
    let mut links: Vec<SymlinkWitness> = Vec::new();
    let mut index: usize = 0;
    assert(link_views(links@) =~= Seq::empty());
    while index < parts.len()
        invariant
            all == bstr::views(parts@),
            all.len() == parts@.len(),
            states@.len() == parts@.len(),
            index <= parts@.len(),
            links_among(all, states@, index as int) == Ok::<Seq<Link>, Seq<char>>(
                link_views(links@),
            ),
        decreases parts@.len() - index,
    {
        assert(all[index as int] == parts@[index as int]@);
        match &states[index] {
            PartState::Missing => {},
            PartState::Plain => {},
            PartState::Failed(text) => {
                proof {
                    lemma_links_fail(all, states@, index + 1, parts@.len() as int);
                }
                return Err(text.clone());
            },
            PartState::Link { target, metadata } => {
                match target {
                    Err(text) => {
                        proof {
                            lemma_links_fail(all, states@, index + 1, parts@.len() as int);
                        }
                        return Err(text.clone());
                    },
                    Ok(place) => {
                        let link = SymlinkWitness {
                            path: EncodedOsString::from_path(parts[index].as_slice()),
                            target: EncodedOsString::from_path(place.as_slice()),
                            metadata: *metadata,
                        };
                        let ghost before = links@;
                        links.push(link);
                        assert(link_views(links@) =~= link_views(before).push(link_view(link)));
                    },
                }
            },
        }
        index += 1;
    }
    if links.len() > MAX_SYMLINKS_PER_PATH {
        return Err("too many symlinks in path".to_owned());
    }
    Ok(links)
}

/// The directories above a path, the nearest first.
pub open spec fn above(path: Seq<u8>, limit: nat) -> Seq<Seq<u8>>
    decreases limit,
{
    if limit == 0 {
        Seq::empty()
    } else {
        match upath::parent_of(path) {
            None => Seq::empty(),
            Some(parent) => seq![parent] + above(parent, (limit - 1) as nat),
        }
    }
}

/// The directories above a path, the nearest first.
pub fn ancestors(path: &[u8]) -> (list: Vec<Vec<u8>>)
    ensures
        bstr::views(list@) == above(path@, path@.len()),
{
    let mut list: Vec<Vec<u8>> = Vec::new();
    let mut current = bstr::copy(path);
    let mut left: usize = path.len();
    let ghost whole = above(path@, path@.len());
    assert(bstr::views(list@) + above(current@, left as nat) =~= whole);
    while left > 0
        invariant
            bstr::views(list@) + above(current@, left as nat) == whole,
            whole == above(path@, path@.len()),
        decreases left,
    {
        match upath::parent(current.as_slice()) {
            None => {
                assert(bstr::views(list@) =~= whole);
                return list;
            },
            Some(parent) => {
                let ghost before = bstr::views(list@);
                let ghost rest = above(parent@, (left - 1) as nat);
                list.push(bstr::copy(parent.as_slice()));
                assert(bstr::views(list@) =~= before.push(parent@));
                assert(bstr::views(list@) + rest =~= before + (seq![parent@] + rest));
                current = parent;
            },
        }
        left -= 1;
    }
    assert(bstr::views(list@) =~= whole);
    list
}

/// What is found at a place above a path, with links followed.
#[derive(Clone, Debug, PartialEq, Eq)]
pub enum AncestorState {
    Directory,
    Other,
    Missing,
    Failed(String),
}

/// What is told where there is no directory at all.
pub open spec fn nowhere_text() -> Seq<char> {
    "no existing ancestor"@
}

/// The first place, from `index` on, at which there is a directory, or why none is known.
pub open spec fn nearest(states: Seq<AncestorState>, index: int) -> Result<int, Seq<char>>
    decreases states.len() - index,
{
    if index >= states.len() {
        Err(nowhere_text())
    } else {
        match states[index] {
            AncestorState::Directory => Ok(index),
            AncestorState::Failed(text) => Err(text@),
            _ => nearest(states, index + 1),
        }
    }
}

/// The nearest directory above a path. `states` says what is at each place above it.
pub fn nearest_existing_ancestor(states: &Vec<AncestorState>) -> (outcome: Result<usize, String>)
    ensures
        match outcome {
            Ok(at) => nearest(states@, 0) == Ok::<int, Seq<char>>(at as int) && at < states@.len(),
            Err(text) => nearest(states@, 0) == Err::<int, Seq<char>>(text@),
        },
{
    let mut index: usize = 0;
    while index < states.len()
        invariant
            index <= states@.len(),
            nearest(states@, 0) == nearest(states@, index as int),
        decreases states@.len() - index,
    {
        match &states[index] {
            AncestorState::Directory => {
                return Ok(index);
            },
            AncestorState::Failed(text) => {
                return Err(text.clone());
            },
            _ => {},
        }
        index += 1;
    }
    Err("no existing ancestor".to_owned())
}

/// What is told of a candidate that is there after all.
pub open spec fn present_text() -> Seq<char> {
    "negative resolution candidate now exists"@
}

/// Checks that nothing is at a path, with links not followed.
pub fn require_absent(state: &PathState) -> (outcome: Result<(), String>)
    ensures
        match *state {
            PathState::Missing(_) => outcome is Ok,
            PathState::Unreadable(text) => outcome is Err && outcome->Err_0@ == text@,
            _ => outcome is Err && outcome->Err_0@ == present_text(),
        },
{
    match state {
        PathState::Missing(_) => Ok(()),
        PathState::Unreadable(text) => Err(text.clone()),
        _ => Err("negative resolution candidate now exists".to_owned()),
    }
}

/// What is found of a path that is to be witnessed.
#[derive(Debug)]
pub struct PathLook {
    pub canonical: Result<Vec<u8>, String>,
    /// The type that is expected, with the metadata of what the path leads to.
    pub matches: bool,
    pub metadata: Result<MetadataWitness, String>,
    pub symlinks: Result<Vec<SymlinkWitness>, String>,
}

/// Why a path is not witnessed.
pub open spec fn look_fault(look: PathLook) -> Option<Seq<char>> {
    if look.canonical is Err {
        Some(look.canonical->Err_0@)
    } else if look.metadata is Err {
        Some(look.metadata->Err_0@)
    } else if !look.matches {
        Some(type_text())
    } else if look.symlinks is Err {
        Some(look.symlinks->Err_0@)
    } else {
        None
    }
}

/// The witness of a path, from what is found of it.
pub fn witness_path(path: &[u8], look: PathLook, expected_type: WitnessFileType) -> (outcome: Result<
    PathWitness,
    String,
>)
    ensures
        match outcome {
            Ok(witness) => {
                &&& look_fault(look) is None
                &&& witness.resolved_path@ == path@
                &&& witness.canonical_path@ == look.canonical->Ok_0@
                &&& witness.metadata == (MetadataWitness {
                    file_type: expected_type,
                    ..look.metadata->Ok_0
                })
                &&& witness.symlinks == look.symlinks->Ok_0
            },
            Err(text) => look_fault(look) == Some(text@),
        },
{
    let canonical = match look.canonical {
        Ok(found) => found,
        Err(text) => {
            return Err(text);
        },
    };
    let metadata = match look.metadata {
        Ok(found) => found,
        Err(text) => {
            return Err(text);
        },
    };
    if !look.matches {
        return Err("unexpected file type".to_owned());
    }
    let symlinks = match look.symlinks {
        Ok(found) => found,
        Err(text) => {
            return Err(text);
        },
    };
    Ok(
        PathWitness {
            resolved_path: EncodedOsString::from_path(path),
            canonical_path: EncodedOsString::new(canonical),
            metadata: MetadataWitness { file_type: expected_type, ..metadata },
            symlinks,
        },
    )
}

/// A file that is read without a change has the metadata after that it had before, under its path as
/// well, and the witnessed size is that of what was read.
pub proof fn law_stable_contents_are_witnessed(reading: FileReading)
    requires
        stable(reading) is Ok,
    ensures
        reading.contents is Ok,
        stable(reading)->Ok_0 == (
            digest::blake3_digest(reading.contents->Ok_0@),
            reading.contents->Ok_0@.len(),
        ),
        reading.before->Ok_0.metadata.size == reading.contents->Ok_0@.len(),
        reading.after->Ok_0.metadata == reading.before->Ok_0.metadata,
        reading.named->Ok_0.metadata == reading.before->Ok_0.metadata,
{
}

/// A file was read without a change where it is a regular file, everything could be looked at, its
/// metadata is the same before and after, under its path as well, and what was read is as long as it
/// says.
pub proof fn law_which_readings_are_stable(reading: FileReading)
    ensures
        stable(reading) is Ok <==> {
            &&& reading.before is Ok && reading.before->Ok_0.regular
            &&& reading.contents is Ok && reading.after is Ok && reading.named is Ok
            &&& reading.after->Ok_0.metadata == reading.before->Ok_0.metadata
            &&& reading.named->Ok_0.metadata == reading.before->Ok_0.metadata
            &&& reading.contents->Ok_0@.len() == reading.before->Ok_0.metadata.size
        },
{
}

/// The links on the way to a file are all parts of its path that are links, in order, each with its
/// target; what cannot be looked at makes them unknown.
pub proof fn law_every_link_is_witnessed(parts: Seq<Seq<u8>>, states: Seq<PartState>, count: int)
    requires
        0 <= count <= parts.len(),
        parts.len() == states.len(),
    ensures
        links_among(parts, states, count) is Ok <==> forall|at: int|
            0 <= at < count ==> !(#[trigger] states[at] is Failed) && (states[at] is Link
                ==> states[at]->target is Ok),
        links_among(parts, states, count) matches Ok(links) ==> {
            &&& forall|at: int|
                0 <= at < count && (#[trigger] states[at]) is Link ==> links.contains(
                    Link {
                        path: parts[at],
                        target: states[at]->target->Ok_0@,
                        metadata: states[at]->metadata,
                    },
                )
            &&& forall|place: int|
                0 <= place < links.len() ==> exists|at: int|
                    0 <= at < count && (#[trigger] states[at]) is Link && parts[at] == (
                    #[trigger] links[place]).path && states[at]->target->Ok_0@
                        == links[place].target && states[at]->metadata == links[place].metadata
        },
    decreases count,
{
    if count > 0 {
        law_every_link_is_witnessed(parts, states, count - 1);
        if links_among(parts, states, count) is Ok {
            let earlier = links_among(parts, states, count - 1)->Ok_0;
            let links = links_among(parts, states, count)->Ok_0;
            let state = states[count - 1];
            if state is Link {
                let link = Link {
                    path: parts[count - 1],
                    target: state->target->Ok_0@,
                    metadata: state->metadata,
                };
                assert(links == earlier.push(link));
                assert(links[earlier.len() as int] == link);
                assert forall|at: int|
                    0 <= at < count && (#[trigger] states[at]) is Link implies links.contains(
                    Link {
                        path: parts[at],
                        target: states[at]->target->Ok_0@,
                        metadata: states[at]->metadata,
                    },
                ) by {
                    if at < count - 1 {
                        let found = Link {
                            path: parts[at],
                            target: states[at]->target->Ok_0@,
                            metadata: states[at]->metadata,
                        };
                        let place = choose|place: int|
                            0 <= place < earlier.len() && earlier[place] == found;
                        assert(links[place] == found);
                    }
                }
                assert forall|place: int| 0 <= place < links.len() implies exists|at: int|
                    0 <= at < count && (#[trigger] states[at]) is Link && parts[at] == (
                    #[trigger] links[place]).path && states[at]->target->Ok_0@
                        == links[place].target && states[at]->metadata == links[place].metadata by {
                    if place < earlier.len() {
                        assert(links[place] == earlier[place]);
                        let at = choose|at: int|
                            0 <= at < count - 1 && (#[trigger] states[at]) is Link && parts[at]
                                == earlier[place].path && states[at]->target->Ok_0@
                                == earlier[place].target && states[at]->metadata
                                == earlier[place].metadata;
                        assert(states[at] is Link);
                    } else {
                        assert(states[count - 1] is Link);
                    }
                }
            } else {
                assert(links == earlier);
            }
        }
    }
}

/// The nearest directory is the first one of the places, where everything before it was looked at
/// and is none; there is one wherever no place before it could not be looked at.
pub proof fn law_the_nearest_directory(states: Seq<AncestorState>, index: int, place: int)
    requires
        0 <= index <= place < states.len(),
        states[place] is Directory,
        forall|at: int|
            index <= at < place ==> !(#[trigger] states[at] is Directory) && !(states[at] is Failed),
    ensures
        nearest(states, index) == Ok::<int, Seq<char>>(place),
    decreases place - index,
{
    if index < place {
        assert(!(states[index] is Directory));
        law_the_nearest_directory(states, index + 1, place);
    }
}

/// The places above a path are its parent, the parent of that and so on.
pub proof fn law_places_above(path: Seq<u8>, limit: nat, at: int)
    requires
        0 <= at < above(path, limit).len(),
    ensures
        above(path, limit).len() <= limit,
        upath::parent_of(
            if at == 0 {
                path
            } else {
                above(path, limit)[at - 1]
            },
        ) == Some(above(path, limit)[at]),
    decreases limit,
{
    if limit > 0 {
        let parent = upath::parent_of(path)->0;
        let rest = above(parent, (limit - 1) as nat);
        assert(above(path, limit) =~= seq![parent] + rest);
        if rest.len() > 0 {
            law_places_above(parent, (limit - 1) as nat, 0);
        }
        if at > 0 {
            law_places_above(parent, (limit - 1) as nat, at - 1);
        }
    }
}

} // verus!
