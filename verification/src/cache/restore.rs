//! Putting a stored result in place: where its artifacts go, and in which order.
use vstd::prelude::*;
use vstd::string::*;

use crate::bstr;
use crate::cache::key::ActionKey;
use crate::cache::manifest;
use crate::cache::manifest::{
    Artifact, ArtifactKind, BlobRef, DestinationRole, Manifest, ManifestView,
};
use crate::cache::output_lock;
use crate::cache::store;
use crate::cache::store::{
    CacheError, CacheStore, Fault, FileBytes, ManifestFacts, PathState, StoredBlob,
};
use crate::digest;
use crate::hex;
use crate::upath;

verus! {

/// Where an artifact goes, and what it has to be, where that is said.
#[derive(Clone, Debug, PartialEq, Eq)]
pub struct RestoreDestination<S = String, B = Vec<u8>> {
    pub logical_name: S,
    pub path: B,
    pub role: Option<DestinationRole>,
}

impl View for RestoreDestination {
    type V = RestoreDestination<Seq<char>, Seq<u8>>;

    open spec fn view(&self) -> RestoreDestination<Seq<char>, Seq<u8>> {
        RestoreDestination { logical_name: self.logical_name@, path: self.path@, role: self.role }
    }
}

/// Where the artifacts of a result go.
#[derive(Clone, Debug, PartialEq, Eq)]
pub struct RestoreDestinations {
    pub list: Vec<RestoreDestination>,
}

/// Destinations, in views.
pub open spec fn destination_views(list: Seq<RestoreDestination>) -> Seq<
    RestoreDestination<Seq<char>, Seq<u8>>,
> {
    list.map_values(|destination: RestoreDestination| destination@)
}

/// The destination for a name, from `index` on.
pub open spec fn destination_from(
    list: Seq<RestoreDestination<Seq<char>, Seq<u8>>>,
    name: Seq<char>,
    index: int,
) -> Option<RestoreDestination<Seq<char>, Seq<u8>>>
    decreases list.len() - index,
{
    if index >= list.len() {
        None
    } else if list[index].logical_name == name {
        Some(list[index])
    } else {
        destination_from(list, name, index + 1)
    }
}

impl View for RestoreDestinations {
    type V = Seq<RestoreDestination<Seq<char>, Seq<u8>>>;

    open spec fn view(&self) -> Seq<RestoreDestination<Seq<char>, Seq<u8>>> {
        destination_views(self.list@)
    }
}

/// Where the first destination for a name stands, from `index` on; the length where there is none.
pub open spec fn destination_index(
    list: Seq<RestoreDestination<Seq<char>, Seq<u8>>>,
    name: Seq<char>,
    index: int,
) -> int
    decreases list.len() - index,
{
    if index >= list.len() {
        list.len() as int
    } else if list[index].logical_name == name {
        index
    } else {
        destination_index(list, name, index + 1)
    }
}

/// The destinations with one more, which takes the place of the one for the same name.
pub open spec fn with_destination(
    list: Seq<RestoreDestination<Seq<char>, Seq<u8>>>,
    destination: RestoreDestination<Seq<char>, Seq<u8>>,
) -> Seq<RestoreDestination<Seq<char>, Seq<u8>>> {
    let at = destination_index(list, destination.logical_name, 0);
    if at < list.len() {
        list.update(at, destination)
    } else {
        list.push(destination)
    }
}

proof fn lemma_index(
    list: Seq<RestoreDestination<Seq<char>, Seq<u8>>>,
    name: Seq<char>,
    index: int,
)
    requires
        0 <= index <= list.len(),
    ensures
        index <= destination_index(list, name, index) <= list.len(),
        destination_index(list, name, index) < list.len() ==> list[destination_index(
            list,
            name,
            index,
        )].logical_name == name,
        destination_from(list, name, index) == (if destination_index(list, name, index)
            < list.len() {
            Some(list[destination_index(list, name, index)])
        } else {
            None
        }),
        forall|at: int|
            index <= at < destination_index(list, name, index) ==> (
            #[trigger] list[at]).logical_name != name,
    decreases list.len() - index,
{
    if index < list.len() && list[index].logical_name != name {
        lemma_index(list, name, index + 1);
    }
}

proof fn lemma_found_at(
    list: Seq<RestoreDestination<Seq<char>, Seq<u8>>>,
    name: Seq<char>,
    index: int,
    place: int,
)
    requires
        0 <= index <= place <= list.len(),
        forall|at: int| index <= at < place ==> (#[trigger] list[at]).logical_name != name,
        place < list.len() ==> list[place].logical_name == name,
    ensures
        destination_from(list, name, index) == (if place < list.len() {
            Some(list[place])
        } else {
            None
        }),
        destination_index(list, name, index) == place,
    decreases place - index,
{
    if index < place {
        lemma_found_at(list, name, index + 1, place);
    }
}

/// What was inserted for a name is what is found for it, and no other name is affected.
pub proof fn law_last_destination_counts(
    list: Seq<RestoreDestination<Seq<char>, Seq<u8>>>,
    destination: RestoreDestination<Seq<char>, Seq<u8>>,
    name: Seq<char>,
)
    ensures
        destination_from(with_destination(list, destination), name, 0) == (if name
            == destination.logical_name {
            Some(destination)
        } else {
            destination_from(list, name, 0)
        }),
{
    let after = with_destination(list, destination);
    let at = destination_index(list, destination.logical_name, 0);
    lemma_index(list, destination.logical_name, 0);
    if name == destination.logical_name {
        lemma_found_at(after, name, 0, at);
    } else {
        lemma_index(list, name, 0);
        let place = destination_index(list, name, 0);
        if place < list.len() {
            lemma_found_at(after, name, 0, place);
        } else {
            lemma_found_at(after, name, 0, after.len() as int);
        }
    }
}

/// No two destinations are for the same name.
pub open spec fn distinct_names(list: Seq<RestoreDestination<Seq<char>, Seq<u8>>>) -> bool {
    forall|left: int, right: int|
        0 <= left < right < list.len() ==> (#[trigger] list[left]).logical_name != (
        #[trigger] list[right]).logical_name
}

/// Inserting never leaves two destinations for one name.
pub proof fn law_destinations_stay_distinct(
    list: Seq<RestoreDestination<Seq<char>, Seq<u8>>>,
    destination: RestoreDestination<Seq<char>, Seq<u8>>,
)
    requires
        distinct_names(list),
    ensures
        distinct_names(with_destination(list, destination)),
{
    lemma_index(list, destination.logical_name, 0);
}

impl RestoreDestinations {
    /// No destinations.
    pub fn new() -> (destinations: Self)
        ensures
            destinations@ == Seq::<RestoreDestination<Seq<char>, Seq<u8>>>::empty(),
    {
        let destinations = RestoreDestinations { list: Vec::new() };
        assert(destinations@ =~= Seq::<RestoreDestination<Seq<char>, Seq<u8>>>::empty());
        destinations
    }

    fn find(&self, name: &String) -> (at: usize)
        ensures
            at == destination_index(self@, name@, 0),
            at <= self.list@.len(),
    {
        let mut index: usize = 0;
        while index < self.list.len()
            invariant
                index <= self.list@.len(),
                destination_index(self@, name@, 0) == destination_index(
                    self@,
                    name@,
                    index as int,
                ),
            decreases self.list@.len() - index,
        {
            assert(self@[index as int] == self.list@[index as int]@);
            if self.list[index].logical_name == *name {
                return index;
            }
            index += 1;
        }
        index
    }

    fn place(&mut self, destination: RestoreDestination)
        ensures
            final(self)@ == with_destination(old(self)@, destination@),
    {
        let at: usize = self.find(&destination.logical_name);
        let ghost before = self@;
        let ghost new = destination@;
        if at < self.list.len() {
            self.list.set(at, destination);
            assert(self@ =~= before.update(at as int, new));
        } else {
            self.list.push(destination);
            assert(self@ =~= before.push(new));
        }
    }

    /// Says where the artifact of a name goes.
    pub fn insert(&mut self, logical_name: &str, destination: &[u8])
        ensures
            final(self)@ == with_destination(
                old(self)@,
                (RestoreDestination {
                    logical_name: logical_name@,
                    path: destination@,
                    role: None,
                }),
            ),
    {
        self.place(
            RestoreDestination {
                logical_name: logical_name.to_owned(),
                path: bstr::copy(destination),
                role: None,
            },
        );
    }

    /// Says where the artifact of a name goes, and what it has to be.
    pub fn insert_with_role(
        &mut self,
        logical_name: &str,
        role: DestinationRole,
        destination: &[u8],
    )
        ensures
            final(self)@ == with_destination(
                old(self)@,
                (RestoreDestination {
                    logical_name: logical_name@,
                    path: destination@,
                    role: Some(role),
                }),
            ),
    {
        self.place(
            RestoreDestination {
                logical_name: logical_name.to_owned(),
                path: bstr::copy(destination),
                role: Some(role),
            },
        );
    }

    /// Where the artifact of a name goes.
    pub fn get(&self, name: &String) -> (found: Option<&RestoreDestination>)
        ensures
            match found {
                Some(destination) => destination_from(self@, name@, 0) == Some(destination@),
                None => destination_from(self@, name@, 0) is None,
            },
    {
        let at: usize = self.find(name);
        proof {
            lemma_index(self@, name@, 0);
        }
        if at < self.list.len() {
            assert(self@[at as int] == self.list@[at as int]@);
            Some(&self.list[at])
        } else {
            None
        }
    }
}

/// What resolving a destination gave: the working directory, the destination, and the directory
/// that it is in.
#[derive(Debug)]
pub struct DestinationFacts {
    pub cwd: Result<Vec<u8>, String>,
    pub canonical: Option<Vec<u8>>,
    pub canonical_parent: Option<Vec<u8>>,
}

/// The path by which a destination is told from others.
pub open spec fn destination_identity(path: Seq<u8>, facts: DestinationFacts) -> Result<
    Seq<u8>,
    Fault,
> {
    if !upath::absolute(path) && facts.cwd is Err {
        Err(CacheError::Io(facts.cwd->Err_0@))
    } else {
        let absolute = if upath::absolute(path) {
            path
        } else {
            upath::joined(facts.cwd->Ok_0@, path)
        };
        Ok(
            output_lock::target_path(
                absolute,
                bstr::opt_view(facts.canonical),
                bstr::opt_view(facts.canonical_parent),
            ),
        )
    }
}

/// The path by which a destination is told from others.
pub fn normalized_destination(path: &[u8], facts: &DestinationFacts) -> (outcome: Result<
    Vec<u8>,
    CacheError,
>)
    ensures
        match outcome {
            Ok(identity) => destination_identity(path@, *facts) == Ok::<Seq<u8>, Fault>(identity@),
            Err(error) => destination_identity(path@, *facts) == Err::<Seq<u8>, Fault>(error@),
        },
{
    let absolute = if upath::is_absolute(path) {
        bstr::copy(path)
    } else {
        match &facts.cwd {
            Ok(cwd) => upath::join(cwd.as_slice(), path),
            Err(text) => {
                return Err(CacheError::Io(text.clone()));
            },
        }
    };
    Ok(
        output_lock::normalize_target(
            absolute.as_slice(),
            bstr::copy_opt(&facts.canonical),
            bstr::copy_opt(&facts.canonical_parent),
        ),
    )
}

/// A manifest has an artifact of the name.
pub open spec fn names_artifact(artifacts: Seq<Artifact<Seq<char>>>, name: Seq<char>) -> bool {
    exists|at: int| 0 <= at < artifacts.len() && (#[trigger] artifacts[at]).logical_name == name
}

/// The first destination, from `index` on, that no artifact has.
pub open spec fn unexpected_from(
    list: Seq<RestoreDestination<Seq<char>, Seq<u8>>>,
    artifacts: Seq<Artifact<Seq<char>>>,
    index: int,
) -> Option<Fault>
    decreases list.len() - index,
{
    if index >= list.len() {
        None
    } else if !names_artifact(artifacts, list[index].logical_name) {
        Some(CacheError::UnexpectedDestination(list[index].logical_name))
    } else {
        unexpected_from(list, artifacts, index + 1)
    }
}

/// The paths by which the destinations of the first artifacts are told apart, or the first fault.
pub open spec fn identities(
    list: Seq<RestoreDestination<Seq<char>, Seq<u8>>>,
    artifacts: Seq<Artifact<Seq<char>>>,
    require_roles: bool,
    facts: Seq<DestinationFacts>,
    count: int,
) -> Result<Seq<Seq<u8>>, Fault>
    decreases count,
{
    if count <= 0 {
        Ok(Seq::empty())
    } else {
        match identities(list, artifacts, require_roles, facts, count - 1) {
            Err(fault) => Err(fault),
            Ok(earlier) => {
                let artifact = artifacts[count - 1];
                match destination_from(list, artifact.logical_name, 0) {
                    None => Err(CacheError::MissingDestination(artifact.logical_name)),
                    Some(destination) => if destination.role != Some(artifact.destination_role) && (
                    require_roles || destination.role is Some) {
                        Err(CacheError::DestinationRoleMismatch(artifact.logical_name))
                    } else {
                        match destination_identity(destination.path, facts[count - 1]) {
                            Err(fault) => Err(fault),
                            Ok(identity) => if upath::lists(earlier, identity) {
                                Err(CacheError::DuplicateDestination(destination.path))
                            } else {
                                Ok(earlier.push(identity))
                            },
                        }
                    },
                }
            },
        }
    }
}

/// Why the artifacts of a manifest cannot go where they should.
pub open spec fn restore_fault(
    list: Seq<RestoreDestination<Seq<char>, Seq<u8>>>,
    artifacts: Seq<Artifact<Seq<char>>>,
    require_roles: bool,
    facts: Seq<DestinationFacts>,
) -> Option<Fault> {
    if unexpected_from(list, artifacts, 0) is Some {
        unexpected_from(list, artifacts, 0)
    } else {
        match identities(list, artifacts, require_roles, facts, artifacts.len() as int) {
            Err(fault) => Some(fault),
            Ok(_) => None,
        }
    }
}

proof fn lemma_identities_fail(
    list: Seq<RestoreDestination<Seq<char>, Seq<u8>>>,
    artifacts: Seq<Artifact<Seq<char>>>,
    require_roles: bool,
    facts: Seq<DestinationFacts>,
    count: int,
    total: int,
)
    requires
        0 <= count <= total,
        identities(list, artifacts, require_roles, facts, count) is Err,
    ensures
        identities(list, artifacts, require_roles, facts, total) == identities(
            list,
            artifacts,
            require_roles,
            facts,
            count,
        ),
    decreases total - count,
{
    if count < total {
        assert(identities(list, artifacts, require_roles, facts, count + 1) == identities(
            list,
            artifacts,
            require_roles,
            facts,
            count,
        ));
        lemma_identities_fail(list, artifacts, require_roles, facts, count + 1, total);
    }
}

fn has_artifact(manifest: &Manifest, name: &String) -> (yes: bool)
    ensures
        yes == names_artifact(manifest@.artifacts, name@),
{
    let mut index: usize = 0;
    while index < manifest.artifacts.len()
        invariant
            index <= manifest.artifacts@.len(),
            forall|at: int|
                0 <= at < index ==> (#[trigger] manifest@.artifacts[at]).logical_name != name@,
        decreases manifest.artifacts@.len() - index,
    {
        assert(manifest@.artifacts[index as int] == manifest.artifacts@[index as int]@);
        if manifest.artifacts[index].logical_name == *name {
            return true;
        }
        index += 1;
    }
    false
}

/// Checks that every artifact has its own destination, and that there is none without an artifact.
/// `facts` says of each artifact, in the order of the manifest, what resolving its destination gave.
pub fn validate_restore_contract(
    manifest: &Manifest,
    destinations: &RestoreDestinations,
    require_roles: bool,
    facts: &Vec<DestinationFacts>,
) -> (outcome: Result<(), CacheError>)
    requires
        facts@.len() == manifest.artifacts@.len(),
    ensures
        match outcome {
            Ok(_) => restore_fault(destinations@, manifest@.artifacts, require_roles, facts@)
                is None,
            Err(error) => restore_fault(destinations@, manifest@.artifacts, require_roles, facts@)
                == Some(error@),
        },
{
    let mut index: usize = 0;
    while index < destinations.list.len()
        invariant
            index <= destinations.list@.len(),
            unexpected_from(destinations@, manifest@.artifacts, 0) == unexpected_from(
                destinations@,
                manifest@.artifacts,
                index as int,
            ),
        decreases destinations.list@.len() - index,
    {
        assert(destinations@[index as int] == destinations.list@[index as int]@);
        let name = &destinations.list[index].logical_name;
        if !has_artifact(manifest, name) {
            return Err(CacheError::UnexpectedDestination(name.clone()));
        }
        index += 1;
    }
    let mut paths: Vec<Vec<u8>> = Vec::new();
    let mut count: usize = 0;
    let ghost all = manifest@.artifacts;
    assert(bstr::views(paths@) =~= Seq::empty());
    while count < manifest.artifacts.len()
        invariant
            all == manifest@.artifacts,
            all.len() == manifest.artifacts@.len(),
            facts@.len() == all.len(),
            count <= all.len(),
            unexpected_from(destinations@, all, 0) is None,
            identities(destinations@, all, require_roles, facts@, count as int) == Ok::<
                Seq<Seq<u8>>,
                Fault,
            >(bstr::views(paths@)),
        decreases all.len() - count,
    {
        let artifact = &manifest.artifacts[count];
        proof {
            assert(all[count as int] == artifact@);
            if identities(destinations@, all, require_roles, facts@, count + 1) is Err {
                lemma_identities_fail(
                    destinations@,
                    all,
                    require_roles,
                    facts@,
                    count + 1,
                    all.len() as int,
                );
            }
        }
        let destination = match destinations.get(&artifact.logical_name) {
            Some(found) => found,
            None => {
                return Err(CacheError::MissingDestination(artifact.logical_name.clone()));
            },
        };
        let matching = match destination.role {
            Some(role) => role == artifact.destination_role,
            None => !require_roles,
        };
        if !matching {
            return Err(CacheError::DestinationRoleMismatch(artifact.logical_name.clone()));
        }
        let identity = match normalized_destination(destination.path.as_slice(), &facts[count]) {
            Ok(found) => found,
            Err(error) => {
                return Err(error);
            },
        };
        if upath::contains(&paths, identity.as_slice()) {
            return Err(CacheError::DuplicateDestination(bstr::copy(destination.path.as_slice())));
        }
        proof {
            bstr::lemma_views_push(paths@, identity);
        }
        paths.push(identity);
        count += 1;
    }
    Ok(())
}

/// Why nothing can be put at a destination.
pub open spec fn destination_fault(path: Seq<u8>, state: PathState) -> Option<Fault> {
    match state {
        PathState::Symlink => Some(CacheError::SymlinkDestination(path)),
        PathState::Directory => Some(CacheError::InvalidDestination(path)),
        PathState::Other => Some(CacheError::InvalidDestination(path)),
        _ => None,
    }
}

/// Checks that a destination is a regular file or absent.
pub fn check_destination(path: &[u8], state: &PathState) -> (outcome: Result<(), CacheError>)
    ensures
        match outcome {
            Ok(_) => destination_fault(path@, *state) is None,
            Err(error) => destination_fault(path@, *state) == Some(error@),
        },
{
    match state {
        PathState::Symlink => Err(CacheError::SymlinkDestination(bstr::copy(path))),
        PathState::Directory => Err(CacheError::InvalidDestination(bstr::copy(path))),
        PathState::Other => Err(CacheError::InvalidDestination(bstr::copy(path))),
        _ => Ok(()),
    }
}

/// Whether a destination has something that must be kept until the restore is complete.
pub fn backup_destination(path: &[u8], state: &PathState) -> (outcome: Result<bool, CacheError>)
    ensures
        match outcome {
            Ok(kept) => match *state {
                PathState::Missing(_) => !kept,
                _ => *state is File && kept,
            },
            Err(error) => match *state {
                PathState::Unreadable(text) => error@ == Fault::Io(text@),
                _ => destination_fault(path@, *state) == Some(error@),
            },
        },
{
    match state {
        PathState::Missing(_) => Ok(false),
        PathState::Unreadable(text) => Err(CacheError::Io(text.clone())),
        _ => {
            check_destination(path, state)?;
            Ok(true)
        },
    }
}

/// An artifact that stays untouched where its destination has the same content.
pub fn preserved_if_unchanged(kind: ArtifactKind) -> (yes: bool)
    ensures
        yes == (kind is Module || kind is Submodule),
{
    matches!(kind, ArtifactKind::Module | ArtifactKind::Submodule)
}

/// When an artifact is installed: dependency files, then modules, then the object.
pub open spec fn rank(role: DestinationRole) -> int {
    match role {
        DestinationRole::Dependency => 0,
        DestinationRole::Module => 1,
        DestinationRole::Submodule => 1,
        DestinationRole::Object => 2,
    }
}

/// When an artifact is installed.
pub fn restore_role_order(role: &DestinationRole) -> (order: u8)
    ensures
        order == rank(*role),
{
    match role {
        DestinationRole::Dependency => 0,
        DestinationRole::Module => 1,
        DestinationRole::Submodule => 1,
        DestinationRole::Object => 2,
    }
}

/// An artifact that is ready to be put in place.
#[derive(Clone, Copy, Debug, PartialEq, Eq, Structural)]
pub struct StagedArtifact {
    pub role: DestinationRole,
    /// Its destination has the same content already, and it is one that then stays.
    pub unchanged: bool,
}

/// The artifacts, among the first `count`, that are replaced and have the rank.
pub open spec fn of_rank(staged: Seq<StagedArtifact>, wanted: int, count: int) -> Seq<int>
    decreases count,
{
    if count <= 0 {
        Seq::empty()
    } else if !staged[count - 1].unchanged && rank(staged[count - 1].role) == wanted {
        of_rank(staged, wanted, count - 1).push(count - 1)
    } else {
        of_rank(staged, wanted, count - 1)
    }
}

/// One step of putting a result in place. The number is that of the artifact.
#[derive(Clone, Copy, Debug, PartialEq, Eq, Structural)]
pub enum CommitStep {
    /// What stands at the destination is kept aside.
    Backup(usize),
    /// The destination is removed.
    Remove(usize),
    /// The artifact is put at its destination.
    Install(usize),
}

/// Each artifact is kept aside and installed in turn.
pub open spec fn replacing(list: Seq<int>) -> Seq<CommitStep>
    decreases list.len(),
{
    if list.len() == 0 {
        Seq::empty()
    } else {
        replacing(list.drop_last()).push(CommitStep::Backup(list.last() as usize)).push(
            CommitStep::Install(list.last() as usize),
        )
    }
}

/// The artifacts that are replaced before the object.
pub open spec fn companions(staged: Seq<StagedArtifact>) -> Seq<int> {
    of_rank(staged, 0, staged.len() as int) + of_rank(staged, 1, staged.len() as int)
}

/// The object that is replaced, if there is one.
pub open spec fn object_of(staged: Seq<StagedArtifact>) -> Option<int> {
    let objects = of_rank(staged, 2, staged.len() as int);
    if objects.len() == 0 {
        None
    } else {
        Some(objects.last())
    }
}

/// The steps of putting a result in place. The object goes first and comes back last: while it is
/// there, everything else is as it belongs to it.
pub open spec fn commit_steps(staged: Seq<StagedArtifact>) -> Seq<CommitStep> {
    match object_of(staged) {
        None => replacing(companions(staged)),
        Some(object) => seq![
            CommitStep::Backup(object as usize),
            CommitStep::Remove(object as usize),
        ] + replacing(companions(staged)) + seq![CommitStep::Install(object as usize)],
    }
}

fn ranked(staged: &Vec<StagedArtifact>, wanted: u8) -> (list: Vec<usize>)
    ensures
        list@.map_values(|index: usize| index as int) == of_rank(
            staged@,
            wanted as int,
            staged@.len() as int,
        ),
        forall|at: int| 0 <= at < list@.len() ==> #[trigger] list@[at] < staged@.len(),
{
    let mut list: Vec<usize> = Vec::new();
    let mut count: usize = 0;
    assert(list@.map_values(|index: usize| index as int) =~= of_rank(staged@, wanted as int, 0));
    while count < staged.len()
        invariant
            count <= staged@.len(),
            list@.map_values(|index: usize| index as int) == of_rank(
                staged@,
                wanted as int,
                count as int,
            ),
            forall|at: int| 0 <= at < list@.len() ==> #[trigger] list@[at] < count,
        decreases staged@.len() - count,
    {
        if !staged[count].unchanged && restore_role_order(&staged[count].role) == wanted {
            let ghost before = list@;
            list.push(count);
            assert(list@.map_values(|index: usize| index as int) =~= before.map_values(
                |index: usize| index as int,
            ).push(count as int));
        }
        count += 1;
    }
    list
}

fn push_replacing(
    steps: &mut Vec<CommitStep>,
    list: &Vec<usize>,
    Ghost(head): Ghost<Seq<CommitStep>>,
    Ghost(done): Ghost<Seq<int>>,
)
    requires
        old(steps)@ == head + replacing(done),
    ensures
        final(steps)@ == head + replacing(
            done + list@.map_values(|index: usize| index as int),
        ),
{
    let ghost all = list@.map_values(|index: usize| index as int);
    let mut index: usize = 0;
    assert(done + all.take(0) =~= done);
    while index < list.len()
        invariant
            all == list@.map_values(|index: usize| index as int),
            index <= list@.len(),
            steps@ == head + replacing(done + all.take(index as int)),
        decreases list@.len() - index,
    {
        let ghost before = steps@;
        steps.push(CommitStep::Backup(list[index]));
        steps.push(CommitStep::Install(list[index]));
        proof {
            let more = done + all.take(index + 1);
            assert(more.drop_last() =~= done + all.take(index as int));
            assert(more.last() == list@[index as int] as int);
            assert(steps@ =~= head + replacing(more));
        }
        index += 1;
    }
    assert(all.take(index as int) =~= all);
}

/// The steps of putting a result in place.
pub fn plan_commit(staged: &Vec<StagedArtifact>) -> (steps: Vec<CommitStep>)
    ensures
        steps@ == commit_steps(staged@),
{
    let dependencies = ranked(staged, 0);
    let modules = ranked(staged, 1);
    let objects = ranked(staged, 2);
    let mut steps: Vec<CommitStep> = Vec::new();
    let ghost mut head: Seq<CommitStep> = Seq::empty();
    let object: Option<usize> = if objects.len() > 0 {
        Some(objects[objects.len() - 1])
    } else {
        None
    };
    proof {
        let found = objects@.map_values(|index: usize| index as int);
        assert(found.len() == objects@.len());
        assert(object is Some ==> found.last() == object->0);
    }
    if let Some(index) = object {
        steps.push(CommitStep::Backup(index));
        steps.push(CommitStep::Remove(index));
        proof {
            head = seq![CommitStep::Backup(index), CommitStep::Remove(index)];
        }
    }
    assert(steps@ =~= head + replacing(Seq::empty()));
    push_replacing(&mut steps, &dependencies, Ghost(head), Ghost(Seq::empty()));
    let ghost first = dependencies@.map_values(|index: usize| index as int);
    assert(Seq::<int>::empty() + first =~= first);
    push_replacing(&mut steps, &modules, Ghost(head), Ghost(first));
    if let Some(index) = object {
        steps.push(CommitStep::Install(index));
    }
    assert(steps@ =~= commit_steps(staged@));
    steps
}

/// The artifacts installed by the first `count` steps, the last one first.
pub open spec fn installed(steps: Seq<CommitStep>, count: int) -> Seq<usize>
    decreases count,
{
    if count <= 0 {
        Seq::empty()
    } else {
        match steps[count - 1] {
            CommitStep::Install(artifact) => seq![artifact] + installed(steps, count - 1),
            _ => installed(steps, count - 1),
        }
    }
}

/// The artifact whose destination was removed by the first `count` steps.
pub open spec fn removed(steps: Seq<CommitStep>, count: int) -> Seq<usize>
    decreases count,
{
    if count <= 0 {
        Seq::empty()
    } else {
        match steps[count - 1] {
            CommitStep::Remove(artifact) => seq![artifact] + removed(steps, count - 1),
            _ => removed(steps, count - 1),
        }
    }
}

/// The destination that a step may have changed although it failed.
pub open spec fn own(step: CommitStep) -> Seq<usize> {
    match step {
        CommitStep::Backup(_) => Seq::empty(),
        CommitStep::Remove(artifact) => seq![artifact],
        CommitStep::Install(artifact) => seq![artifact],
    }
}

/// The destinations that are put back, in this order, where a step failed.
pub open spec fn undone(steps: Seq<CommitStep>, failed: int) -> Seq<usize> {
    let kept = removed(steps, failed);
    own(steps[failed]) + installed(steps, failed) + if kept == own(steps[failed]) {
        Seq::empty()
    } else {
        kept
    }
}

/// The destinations that are put back, in this order, where a step failed: that of the step, those
/// of what was installed, the last one first, and that of the object.
pub fn plan_rollback(steps: &Vec<CommitStep>, failed: usize) -> (list: Vec<usize>)
    requires
        failed < steps@.len(),
    ensures
        list@ == undone(steps@, failed as int),
{
    let mut list: Vec<usize> = Vec::new();
    let mut own_artifact: Option<usize> = None;
    match &steps[failed] {
        CommitStep::Backup(_) => {},
        CommitStep::Remove(artifact) => {
            own_artifact = Some(*artifact);
        },
        CommitStep::Install(artifact) => {
            own_artifact = Some(*artifact);
        },
    }
    if let Some(artifact) = own_artifact {
        list.push(artifact);
    }
    assert(list@ =~= own(steps@[failed as int]));
    let mut kept: Vec<usize> = Vec::new();
    let mut index: usize = failed;
    let ghost first = own(steps@[failed as int]);
    while index > 0
        invariant
            failed < steps@.len(),
            index <= failed,
            list@ + installed(steps@, index as int) == first + installed(steps@, failed as int),
            kept@ + removed(steps@, index as int) == removed(steps@, failed as int),
        decreases index,
    {
        let ghost before = list@;
        let ghost kept_before = kept@;
        match &steps[index - 1] {
            CommitStep::Backup(_) => {},
            CommitStep::Remove(artifact) => {
                kept.push(*artifact);
                assert(kept@ + removed(steps@, index - 1) =~= kept_before + removed(
                    steps@,
                    index as int,
                ));
            },
            CommitStep::Install(artifact) => {
                list.push(*artifact);
                assert(list@ + installed(steps@, index - 1) =~= before + installed(
                    steps@,
                    index as int,
                ));
            },
        }
        index -= 1;
    }
    assert(list@ =~= first + installed(steps@, failed as int));
    assert(kept@ =~= removed(steps@, failed as int));
    let repeated = match own_artifact {
        Some(artifact) => kept.len() == 1 && kept[0] == artifact,
        None => kept.len() == 0,
    };
    proof {
        if repeated {
            assert(kept@ =~= first);
        } else if kept@ == first {
            assert(kept@.len() == first.len());
        }
    }
    if !repeated {
        list.append(&mut kept);
    }
    assert(list@ =~= undone(steps@, failed as int));
    list
}

/// What stands at each destination after the first `count` steps. `before` says what stood there,
/// `new` what the artifacts hold.
pub open spec fn standing<C>(
    steps: Seq<CommitStep>,
    before: Seq<Option<C>>,
    new: Seq<C>,
    count: int,
) -> Seq<Option<C>>
    decreases count,
{
    if count <= 0 {
        before
    } else {
        let reached = standing(steps, before, new, count - 1);
        match steps[count - 1] {
            CommitStep::Backup(_) => reached,
            CommitStep::Remove(artifact) => reached.update(artifact as int, None),
            CommitStep::Install(artifact) => reached.update(
                artifact as int,
                Some(new[artifact as int]),
            ),
        }
    }
}

/// What stands at each destination once those in the list were put back.
pub open spec fn put_back<C>(
    reached: Seq<Option<C>>,
    before: Seq<Option<C>>,
    list: Seq<usize>,
) -> Seq<Option<C>>
    decreases list.len(),
{
    if list.len() == 0 {
        reached
    } else {
        put_back(reached.update(list[0] as int, before[list[0] as int]), before, list.skip(1))
    }
}

/// Steps that speak of the given number of artifacts.
pub open spec fn within(steps: Seq<CommitStep>, artifacts: nat) -> bool {
    forall|at: int|
        0 <= at < steps.len() ==> match #[trigger] steps[at] {
            CommitStep::Backup(artifact) => artifact < artifacts,
            CommitStep::Remove(artifact) => artifact < artifacts,
            CommitStep::Install(artifact) => artifact < artifacts,
        }
}

proof fn lemma_changed<C>(
    steps: Seq<CommitStep>,
    before: Seq<Option<C>>,
    new: Seq<C>,
    count: int,
    artifact: int,
)
    requires
        within(steps, before.len()),
        0 <= count <= steps.len(),
        0 <= artifact < before.len(),
        before.len() <= usize::MAX,
    ensures
        standing(steps, before, new, count).len() == before.len(),
        standing(steps, before, new, count)[artifact] == before[artifact] || installed(
            steps,
            count,
        ).contains(artifact as usize) || removed(steps, count).contains(artifact as usize),
    decreases count,
{
    if count > 0 {
        lemma_changed(steps, before, new, count - 1, artifact);
        let place = artifact as usize;
        let earlier = installed(steps, count - 1);
        let gone = removed(steps, count - 1);
        match steps[count - 1] {
            CommitStep::Backup(_) => {},
            CommitStep::Remove(other) => {
                let more = seq![other] + gone;
                assert(more[0] == other);
                if gone.contains(place) {
                    let at = choose|at: int| 0 <= at < gone.len() && gone[at] == place;
                    assert(more[at + 1] == place);
                }
            },
            CommitStep::Install(other) => {
                let more = seq![other] + earlier;
                assert(more[0] == other);
                if earlier.contains(place) {
                    let at = choose|at: int| 0 <= at < earlier.len() && earlier[at] == place;
                    assert(more[at + 1] == place);
                }
            },
        }
    }
}

proof fn lemma_bounds(steps: Seq<CommitStep>, artifacts: nat, count: int)
    requires
        within(steps, artifacts),
        0 <= count <= steps.len(),
    ensures
        forall|at: int|
            0 <= at < installed(steps, count).len() ==> #[trigger] installed(steps, count)[at]
                < artifacts,
        forall|at: int|
            0 <= at < removed(steps, count).len() ==> #[trigger] removed(steps, count)[at]
                < artifacts,
    decreases count,
{
    if count > 0 {
        lemma_bounds(steps, artifacts, count - 1);
        let earlier = installed(steps, count - 1);
        let gone = removed(steps, count - 1);
        match steps[count - 1] {
            CommitStep::Backup(_) => {},
            CommitStep::Remove(artifact) => {
                assert forall|at: int| 0 <= at < removed(steps, count).len() implies
                    #[trigger] removed(steps, count)[at] < artifacts by {
                    if at > 0 {
                        assert(removed(steps, count)[at] == gone[at - 1]);
                    }
                }
            },
            CommitStep::Install(artifact) => {
                assert forall|at: int| 0 <= at < installed(steps, count).len() implies
                    #[trigger] installed(steps, count)[at] < artifacts by {
                    if at > 0 {
                        assert(installed(steps, count)[at] == earlier[at - 1]);
                    }
                }
            },
        }
    }
}

proof fn lemma_put_back<C>(
    reached: Seq<Option<C>>,
    before: Seq<Option<C>>,
    list: Seq<usize>,
)
    requires
        reached.len() == before.len(),
        before.len() <= usize::MAX,
        forall|at: int| 0 <= at < list.len() ==> #[trigger] list[at] < before.len(),
        forall|artifact: int|
            0 <= artifact < before.len() ==> #[trigger] reached[artifact] == before[artifact]
                || list.contains(artifact as usize),
    ensures
        put_back(reached, before, list) == before,
    decreases list.len(),
{
    if list.len() == 0 {
        assert(reached =~= before);
    } else {
        let after = reached.update(list[0] as int, before[list[0] as int]);
        assert(list[0] < before.len());
        assert forall|artifact: int| 0 <= artifact < before.len() implies #[trigger] after[artifact]
            == before[artifact] || list.skip(1).contains(artifact as usize) by {
            assert(reached[artifact] == before[artifact] || list.contains(artifact as usize));
            if after[artifact] != before[artifact] {
                let at = choose|at: int| 0 <= at < list.len() && list[at] == artifact as usize;
                assert(list.skip(1)[at - 1] == artifact as usize);
            }
        }
        assert forall|at: int| 0 <= at < list.skip(1).len() implies #[trigger] list.skip(1)[at]
            < before.len() by {
            assert(list.skip(1)[at] == list[at + 1]);
        }
        lemma_put_back(after, before, list.skip(1));
    }
}

/// Where a step fails, every destination is put back as it was, whatever the failing step left at
/// its own.
pub proof fn law_a_failed_commit_leaves_no_trace<C>(
    steps: Seq<CommitStep>,
    before: Seq<Option<C>>,
    new: Seq<C>,
    failed: int,
    left: Option<C>,
)
    requires
        within(steps, before.len()),
        0 <= failed < steps.len(),
        before.len() <= usize::MAX,
    ensures
        put_back(
            match steps[failed] {
                CommitStep::Backup(_) => standing(steps, before, new, failed),
                CommitStep::Remove(artifact) => standing(steps, before, new, failed).update(
                    artifact as int,
                    left,
                ),
                CommitStep::Install(artifact) => standing(steps, before, new, failed).update(
                    artifact as int,
                    left,
                ),
            },
            before,
            undone(steps, failed),
        ) == before,
{
    let reached = match steps[failed] {
        CommitStep::Backup(_) => standing(steps, before, new, failed),
        CommitStep::Remove(artifact) => standing(steps, before, new, failed).update(
            artifact as int,
            left,
        ),
        CommitStep::Install(artifact) => standing(steps, before, new, failed).update(
            artifact as int,
            left,
        ),
    };
    let list = undone(steps, failed);
    let mine = own(steps[failed]);
    let earlier = installed(steps, failed);
    let kept = removed(steps, failed);
    assert forall|artifact: int| 0 <= artifact < before.len() implies #[trigger] reached[artifact]
        == before[artifact] || list.contains(artifact as usize) by {
        lemma_changed(steps, before, new, failed, artifact);
        let place = artifact as usize;
        if mine.contains(place) {
            let at = choose|at: int| 0 <= at < mine.len() && mine[at] == place;
            assert(list[at] == place);
        } else if earlier.contains(place) {
            let at = choose|at: int| 0 <= at < earlier.len() && earlier[at] == place;
            assert(list[mine.len() + at] == place);
        } else if kept.contains(place) {
            let at = choose|at: int| 0 <= at < kept.len() && kept[at] == place;
            assert(kept != mine);
            assert(list[mine.len() + earlier.len() + at] == place);
        } else {
            match steps[failed] {
                CommitStep::Backup(_) => {},
                CommitStep::Remove(other) => {
                    assert(mine[0] == other);
                },
                CommitStep::Install(other) => {
                    assert(mine[0] == other);
                },
            }
        }
    }
    lemma_bounds(steps, before.len(), failed);
    assert forall|at: int| 0 <= at < list.len() implies #[trigger] list[at] < before.len() by {
        if at < mine.len() {
            assert(list[at] == mine[at]);
        } else if at < mine.len() + earlier.len() {
            assert(list[at] == earlier[at - mine.len()]);
        } else {
            assert(list[at] == kept[at - mine.len() - earlier.len()]);
        }
    }
    lemma_changed(steps, before, new, failed, 0);
    lemma_put_back(reached, before, list);
}

proof fn lemma_of_rank(staged: Seq<StagedArtifact>, wanted: int, count: int)
    requires
        0 <= count <= staged.len(),
    ensures
        forall|at: int|
            0 <= at < of_rank(staged, wanted, count).len() ==> 0 <= #[trigger] of_rank(
                staged,
                wanted,
                count,
            )[at] < count && rank(staged[of_rank(staged, wanted, count)[at]].role) == wanted,
    decreases count,
{
    if count > 0 {
        lemma_of_rank(staged, wanted, count - 1);
    }
}

proof fn lemma_replacing(list: Seq<int>, count: int)
    requires
        0 <= count < replacing(list).len(),
        forall|at: int| 0 <= at < list.len() ==> 0 <= #[trigger] list[at] <= usize::MAX,
    ensures
        match replacing(list)[count] {
            CommitStep::Backup(artifact) => list.contains(artifact as int),
            CommitStep::Remove(_) => false,
            CommitStep::Install(artifact) => list.contains(artifact as int),
        },
    decreases list.len(),
{
    if list.len() > 0 {
        let shorter = replacing(list.drop_last());
        if count < shorter.len() {
            lemma_replacing(list.drop_last(), count);
            let artifact = match replacing(list)[count] {
                CommitStep::Backup(artifact) => artifact,
                CommitStep::Remove(artifact) => artifact,
                CommitStep::Install(artifact) => artifact,
            };
            let at = choose|at: int|
                0 <= at < list.drop_last().len() && list.drop_last()[at] == artifact as int;
            assert(list[at] == artifact as int);
        } else {
            assert(list[list.len() - 1] == list.last());
        }
    }
}

proof fn lemma_object_gone<C>(
    staged: Seq<StagedArtifact>,
    before: Seq<Option<C>>,
    new: Seq<C>,
    object: int,
    count: int,
)
    requires
        before.len() == staged.len(),
        staged.len() <= usize::MAX,
        object_of(staged) == Some(object),
        2 <= count < commit_steps(staged).len(),
    ensures
        standing(commit_steps(staged), before, new, count).len() == before.len(),
        standing(commit_steps(staged), before, new, count)[object] is None,
    decreases count,
{
    let steps = commit_steps(staged);
    let others = companions(staged);
    lemma_of_rank(staged, 0, staged.len() as int);
    lemma_of_rank(staged, 1, staged.len() as int);
    lemma_of_rank(staged, 2, staged.len() as int);
    let objects = of_rank(staged, 2, staged.len() as int);
    assert(objects[objects.len() - 1] == object);
    assert(steps[0] == CommitStep::Backup(object as usize));
    assert(steps[1] == CommitStep::Remove(object as usize));
    if count == 2 {
        assert(standing(steps, before, new, 0) == before);
        assert(standing(steps, before, new, 1) == before);
    } else {
        lemma_object_gone(staged, before, new, object, count - 1);
        let inner = replacing(others);
        assert(steps[count - 1] == inner[count - 3]);
        assert forall|at: int| 0 <= at < others.len() implies 0 <= #[trigger] others[at]
            <= usize::MAX && others[at] != object by {
            let first = of_rank(staged, 0, staged.len() as int);
            if at < first.len() {
                assert(others[at] == first[at]);
            } else {
                assert(others[at] == of_rank(staged, 1, staged.len() as int)[at - first.len()]);
            }
        }
        lemma_replacing(others, count - 3);
    }
}

/// The object of a result stands in its place only while nothing was changed yet, or once
/// everything is in place: between its removal and the last step there is none.
pub proof fn law_the_object_completes_a_restore<C>(
    staged: Seq<StagedArtifact>,
    before: Seq<Option<C>>,
    new: Seq<C>,
    object: int,
    count: int,
)
    requires
        before.len() == staged.len(),
        staged.len() <= usize::MAX,
        object_of(staged) == Some(object),
        0 <= count <= commit_steps(staged).len(),
    ensures
        count <= 1 ==> standing(commit_steps(staged), before, new, count) == before,
        1 < count < commit_steps(staged).len() ==> standing(
            commit_steps(staged),
            before,
            new,
            count,
        )[object] is None,
        count == commit_steps(staged).len() ==> standing(commit_steps(staged), before, new, count)[object]
            == Some(new[object]),
{
    let steps = commit_steps(staged);
    lemma_of_rank(staged, 2, staged.len() as int);
    let objects = of_rank(staged, 2, staged.len() as int);
    assert(objects[objects.len() - 1] == object);
    assert(steps[0] == CommitStep::Backup(object as usize));
    assert(standing(steps, before, new, 0) == before);
    if 1 < count < steps.len() {
        lemma_object_gone(staged, before, new, object, count);
    }
    if count == steps.len() {
        lemma_object_gone(staged, before, new, object, count - 1);
        assert(steps[count - 1] == CommitStep::Install(object as usize));
    }
}

proof fn lemma_ranked(staged: Seq<StagedArtifact>, artifact: int, count: int) -> (at: int)
    requires
        0 <= artifact < count <= staged.len(),
        !staged[artifact].unchanged,
    ensures
        0 <= at < of_rank(staged, rank(staged[artifact].role), count).len(),
        of_rank(staged, rank(staged[artifact].role), count)[at] == artifact,
    decreases count,
{
    let wanted = rank(staged[artifact].role);
    if artifact == count - 1 {
        of_rank(staged, wanted, count).len() - 1
    } else {
        lemma_ranked(staged, artifact, count - 1)
    }
}

proof fn lemma_replaced(list: Seq<int>, at: int)
    requires
        0 <= at < list.len(),
    ensures
        replacing(list).len() == 2 * list.len(),
        replacing(list)[2 * at + 1] == CommitStep::Install(list[at] as usize),
    decreases list.len(),
{
    if list.len() > 1 {
        lemma_replaced(list.drop_last(), if at < list.len() - 1 {
            at
        } else {
            0
        });
    } else {
        assert(replacing(list.drop_last()) =~= Seq::empty());
    }
}

proof fn lemma_stays_installed<C>(
    steps: Seq<CommitStep>,
    before: Seq<Option<C>>,
    new: Seq<C>,
    artifact: int,
    at: int,
    count: int,
)
    requires
        within(steps, before.len()),
        0 <= artifact < before.len() <= usize::MAX,
        0 <= at < count <= steps.len(),
        steps[at] == CommitStep::Install(artifact as usize),
        forall|later: int|
            at < later < count ==> #[trigger] steps[later] != CommitStep::Remove(
                artifact as usize,
            ),
    ensures
        standing(steps, before, new, count)[artifact] == Some(new[artifact]),
    decreases count,
{
    lemma_changed(steps, before, new, count - 1, artifact);
    if at < count - 1 {
        lemma_stays_installed(steps, before, new, artifact, at, count - 1);
        assert(steps[count - 1] != CommitStep::Remove(artifact as usize));
    }
}

proof fn lemma_companions(staged: Seq<StagedArtifact>)
    requires
        staged.len() <= usize::MAX,
    ensures
        forall|at: int|
            0 <= at < companions(staged).len() ==> 0 <= #[trigger] companions(staged)[at]
                < staged.len() && staged[companions(staged)[at]].role !is Object,
{
    let others = companions(staged);
    let first = of_rank(staged, 0, staged.len() as int);
    lemma_of_rank(staged, 0, staged.len() as int);
    lemma_of_rank(staged, 1, staged.len() as int);
    assert forall|at: int| 0 <= at < others.len() implies 0 <= #[trigger] others[at] < staged.len()
        && staged[others[at]].role !is Object by {
        if at < first.len() {
            assert(others[at] == first[at]);
        } else {
            assert(others[at] == of_rank(staged, 1, staged.len() as int)[at - first.len()]);
        }
    }
}

proof fn lemma_steps(staged: Seq<StagedArtifact>)
    requires
        staged.len() <= usize::MAX,
    ensures
        within(commit_steps(staged), staged.len()),
        forall|at: int|
            2 <= at < commit_steps(staged).len() ==> #[trigger] commit_steps(staged)[at] !is Remove,
        object_of(staged) is None ==> forall|at: int|
            0 <= at < commit_steps(staged).len() ==> #[trigger] commit_steps(staged)[at] !is Remove,
{
    let steps = commit_steps(staged);
    let others = companions(staged);
    let inner = replacing(others);
    lemma_companions(staged);
    lemma_of_rank(staged, 2, staged.len() as int);
    let offset = match object_of(staged) {
        None => 0int,
        Some(_) => 2,
    };
    assert forall|at: int| 0 <= at < inner.len() implies #[trigger] inner[at] !is Remove
        && match inner[at] {
        CommitStep::Backup(artifact) => artifact < staged.len(),
        CommitStep::Remove(artifact) => artifact < staged.len(),
        CommitStep::Install(artifact) => artifact < staged.len(),
    } by {
        lemma_replacing(others, at);
    }
    assert forall|at: int| offset <= at < offset + inner.len() implies #[trigger] steps[at]
        == inner[at - offset] by {}
    if let Some(object) = object_of(staged) {
        let objects = of_rank(staged, 2, staged.len() as int);
        assert(objects[objects.len() - 1] == object);
        assert(steps.len() == inner.len() + 3);
        assert(steps[0] == CommitStep::Backup(object as usize));
        assert(steps[1] == CommitStep::Remove(object as usize));
        assert(steps[inner.len() as int + 2] == CommitStep::Install(object as usize));
    } else {
        assert(steps == inner);
    }
}

/// Once every step is done, each artifact that had to be replaced stands at its destination.
pub proof fn law_a_complete_commit_installs_everything<C>(
    staged: Seq<StagedArtifact>,
    before: Seq<Option<C>>,
    new: Seq<C>,
    artifact: int,
)
    requires
        before.len() == staged.len(),
        staged.len() <= usize::MAX,
        0 <= artifact < staged.len(),
        !staged[artifact].unchanged,
        staged[artifact].role is Object ==> object_of(staged) == Some(artifact),
    ensures
        standing(commit_steps(staged), before, new, commit_steps(staged).len() as int)[artifact]
            == Some(new[artifact]),
{
    let steps = commit_steps(staged);
    let others = companions(staged);
    let inner = replacing(others);
    lemma_steps(staged);
    let place = lemma_ranked(staged, artifact, staged.len() as int);
    if staged[artifact].role is Object {
        law_the_object_completes_a_restore(staged, before, new, artifact, steps.len() as int);
    } else {
        let first = of_rank(staged, 0, staged.len() as int);
        let second = of_rank(staged, 1, staged.len() as int);
        let at = if rank(staged[artifact].role) == 0 {
            place
        } else {
            first.len() + place
        };
        assert(others == first + second);
        assert(others[at] == artifact);
        lemma_replaced(others, at);
        let offset = match object_of(staged) {
            None => 0int,
            Some(_) => 2,
        };
        assert(steps[offset + 2 * at + 1] == inner[2 * at + 1]);
        lemma_stays_installed(
            steps,
            before,
            new,
            artifact,
            offset + 2 * at + 1,
            steps.len() as int,
        );
    }
}

/// What is known before a result is restored.
#[derive(Debug)]
pub struct RestoreFacts {
    pub manifest: ManifestFacts,
    /// What resolving the destination of each artifact gave, in the order of the manifest.
    pub places: Vec<DestinationFacts>,
    /// What stands at the destination of each artifact.
    pub states: Vec<PathState>,
    /// What is stored of each artifact.
    pub artifacts: Vec<StoredBlob>,
    /// What is stored of the messages.
    pub stdout: StoredBlob,
    pub stderr: StoredBlob,
}

/// An artifact with its content and the place that it goes to.
#[derive(Clone, Debug, PartialEq, Eq)]
pub struct PreparedArtifact<B = Vec<u8>> {
    pub destination: B,
    pub content: B,
    pub mode: u32,
    pub role: DestinationRole,
    /// It stays untouched where its destination has the same content.
    pub preserve_if_unchanged: bool,
}

impl View for PreparedArtifact {
    type V = PreparedArtifact<Seq<u8>>;

    open spec fn view(&self) -> PreparedArtifact<Seq<u8>> {
        PreparedArtifact {
            destination: self.destination@,
            content: self.content@,
            mode: self.mode,
            role: self.role,
            preserve_if_unchanged: self.preserve_if_unchanged,
        }
    }
}

/// Prepared artifacts, in views.
pub open spec fn prepared_views(list: Seq<PreparedArtifact>) -> Seq<PreparedArtifact<Seq<u8>>> {
    list.map_values(|artifact: PreparedArtifact| artifact@)
}

/// A result that is ready to be put in place.
#[derive(Debug)]
pub struct PreparedRestore {
    pub manifest: Manifest,
    pub artifacts: Vec<PreparedArtifact>,
}

/// A result that is ready to be put in place, in views.
#[verifier::ext_equal]
pub struct Restoration {
    pub manifest: ManifestView,
    pub artifacts: Seq<PreparedArtifact<Seq<u8>>>,
}

impl View for PreparedRestore {
    type V = Restoration;

    open spec fn view(&self) -> Restoration {
        Restoration { manifest: self.manifest@, artifacts: prepared_views(self.artifacts@) }
    }
}

/// The first `count` artifacts with their content, or the first fault.
pub open spec fn prepared_artifacts(
    root: Seq<u8>,
    list: Seq<RestoreDestination<Seq<char>, Seq<u8>>>,
    artifacts: Seq<Artifact<Seq<char>>>,
    states: Seq<PathState>,
    stored: Seq<StoredBlob>,
    count: int,
) -> Result<Seq<PreparedArtifact<Seq<u8>>>, Fault>
    decreases count,
{
    if count <= 0 {
        Ok(Seq::empty())
    } else {
        match prepared_artifacts(root, list, artifacts, states, stored, count - 1) {
            Err(fault) => Err(fault),
            Ok(earlier) => {
                let artifact = artifacts[count - 1];
                match destination_from(list, artifact.logical_name, 0) {
                    None => Err(CacheError::MissingDestination(artifact.logical_name)),
                    Some(destination) => if destination_fault(
                        destination.path,
                        states[count - 1],
                    ) is Some {
                        Err(destination_fault(destination.path, states[count - 1])->0)
                    } else {
                        match store::blob_contents(root, artifact.blob, stored[count - 1]) {
                            Err(fault) => Err(fault),
                            Ok(content) => Ok(
                                earlier.push(
                                    PreparedArtifact {
                                        destination: destination.path,
                                        content,
                                        mode: artifact.blob.mode,
                                        role: artifact.destination_role,
                                        preserve_if_unchanged: artifact.kind is Module
                                            || artifact.kind is Submodule,
                                    },
                                ),
                            ),
                        }
                    },
                }
            },
        }
    }
}

/// The blobs of the artifacts.
pub open spec fn artifact_blobs(artifacts: Seq<Artifact<Seq<char>>>) -> Seq<BlobRef<Seq<char>>> {
    artifacts.map_values(|artifact: Artifact<Seq<char>>| artifact.blob)
}

/// Why the messages of a result cannot be repeated. Content that is among the artifacts was read
/// with them.
pub open spec fn message_fault(root: Seq<u8>, manifest: ManifestView, facts: RestoreFacts) -> Option<
    Fault,
> {
    let read = artifact_blobs(manifest.artifacts);
    let out = store::blob_contents(root, manifest.stdout, facts.stdout);
    let err = store::blob_contents(root, manifest.stderr, facts.stderr);
    if !store::lists_content(read, manifest.stdout) && out is Err {
        Some(out->Err_0)
    } else if !store::lists_content(read.push(manifest.stdout), manifest.stderr) && err is Err {
        Some(err->Err_0)
    } else {
        None
    }
}

/// Everything about the artifacts was looked at.
pub open spec fn complete_facts(artifacts: nat, facts: RestoreFacts) -> bool {
    facts.places@.len() == artifacts && facts.states@.len() == artifacts && facts.artifacts@.len()
        == artifacts
}

/// The result of an action with everything that has to be put in place, or why it is not restored.
pub open spec fn prepared(
    root: Seq<u8>,
    action: Seq<u8>,
    list: Seq<RestoreDestination<Seq<char>, Seq<u8>>>,
    require_roles: bool,
    facts: RestoreFacts,
) -> Result<Restoration, Fault> {
    match store::loaded(root, action, facts.manifest) {
        Err(fault) => Err(fault),
        Ok(None) => Err(CacheError::Miss),
        Ok(Some(manifest)) => if !complete_facts(manifest.artifacts.len(), facts) {
            Err(CacheError::Miss)
        } else if restore_fault(list, manifest.artifacts, require_roles, facts.places@) is Some {
            Err(restore_fault(list, manifest.artifacts, require_roles, facts.places@)->0)
        } else {
            match prepared_artifacts(
                root,
                list,
                manifest.artifacts,
                facts.states@,
                facts.artifacts@,
                manifest.artifacts.len() as int,
            ) {
                Err(fault) => Err(fault),
                Ok(artifacts) => match message_fault(root, manifest, facts) {
                    Some(fault) => Err(fault),
                    None => Ok(Restoration { manifest, artifacts }),
                },
            }
        },
    }
}

proof fn lemma_prepared_fail(
    root: Seq<u8>,
    list: Seq<RestoreDestination<Seq<char>, Seq<u8>>>,
    artifacts: Seq<Artifact<Seq<char>>>,
    states: Seq<PathState>,
    stored: Seq<StoredBlob>,
    count: int,
    total: int,
)
    requires
        0 <= count <= total,
        prepared_artifacts(root, list, artifacts, states, stored, count) is Err,
    ensures
        prepared_artifacts(root, list, artifacts, states, stored, total) == prepared_artifacts(
            root,
            list,
            artifacts,
            states,
            stored,
            count,
        ),
    decreases total - count,
{
    if count < total {
        assert(prepared_artifacts(root, list, artifacts, states, stored, count + 1)
            == prepared_artifacts(root, list, artifacts, states, stored, count));
        lemma_prepared_fail(root, list, artifacts, states, stored, count + 1, total);
    }
}

fn read_with_artifacts(manifest: &Manifest, blob: &BlobRef) -> (yes: bool)
    ensures
        yes == store::lists_content(artifact_blobs(manifest@.artifacts), blob@),
{
    let ghost read = artifact_blobs(manifest@.artifacts);
    let mut index: usize = 0;
    while index < manifest.artifacts.len()
        invariant
            read == artifact_blobs(manifest@.artifacts),
            read.len() == manifest.artifacts@.len(),
            index <= manifest.artifacts@.len(),
            forall|at: int|
                0 <= at < index ==> !((#[trigger] read[at]).digest == blob@.digest && read[at].size
                    == blob@.size),
        decreases manifest.artifacts@.len() - index,
    {
        let found = &manifest.artifacts[index].blob;
        assert(read[index as int] == found@) by {
            assert(manifest@.artifacts[index as int] == manifest.artifacts@[index as int]@);
        }
        if found.digest == blob.digest && found.size == blob.size {
            return true;
        }
        index += 1;
    }
    false
}

impl CacheStore {
    fn prepare_artifacts(
        &self,
        manifest: &Manifest,
        destinations: &RestoreDestinations,
        facts: &RestoreFacts,
    ) -> (outcome: Result<Vec<PreparedArtifact>, CacheError>)
        requires
            complete_facts(manifest@.artifacts.len(), *facts),
        ensures
            match outcome {
                Ok(list) => prepared_artifacts(
                    self.root@,
                    destinations@,
                    manifest@.artifacts,
                    facts.states@,
                    facts.artifacts@,
                    manifest@.artifacts.len() as int,
                ) == Ok::<Seq<PreparedArtifact<Seq<u8>>>, Fault>(prepared_views(list@)),
                Err(error) => prepared_artifacts(
                    self.root@,
                    destinations@,
                    manifest@.artifacts,
                    facts.states@,
                    facts.artifacts@,
                    manifest@.artifacts.len() as int,
                ) == Err::<Seq<PreparedArtifact<Seq<u8>>>, Fault>(error@),
            },
    {
        let ghost all = manifest@.artifacts;
        let mut list: Vec<PreparedArtifact> = Vec::new();
        let mut count: usize = 0;
        assert(prepared_views(list@) =~= Seq::empty());
        while count < manifest.artifacts.len()
            invariant
                all == manifest@.artifacts,
                all.len() == manifest.artifacts@.len(),
                complete_facts(all.len(), *facts),
                count <= all.len(),
                prepared_artifacts(
                    self.root@,
                    destinations@,
                    all,
                    facts.states@,
                    facts.artifacts@,
                    count as int,
                ) == Ok::<Seq<PreparedArtifact<Seq<u8>>>, Fault>(prepared_views(list@)),
            decreases all.len() - count,
        {
            let artifact = &manifest.artifacts[count];
            proof {
                assert(all[count as int] == artifact@);
                if prepared_artifacts(
                    self.root@,
                    destinations@,
                    all,
                    facts.states@,
                    facts.artifacts@,
                    count + 1,
                ) is Err {
                    lemma_prepared_fail(
                        self.root@,
                        destinations@,
                        all,
                        facts.states@,
                        facts.artifacts@,
                        count + 1,
                        all.len() as int,
                    );
                }
            }
            let destination = match destinations.get(&artifact.logical_name) {
                Some(found) => found,
                None => {
                    return Err(CacheError::MissingDestination(artifact.logical_name.clone()));
                },
            };
            check_destination(destination.path.as_slice(), &facts.states[count])?;
            let stored = &facts.artifacts[count];
            self.verify_blob(&artifact.blob, stored)?;
            let content = match &stored.contents {
                FileBytes::Read(bytes) => bstr::copy(bytes.as_slice()),
                _ => Vec::new(),
            };
            let made = PreparedArtifact {
                destination: bstr::copy(destination.path.as_slice()),
                content,
                mode: artifact.blob.mode,
                role: artifact.destination_role,
                preserve_if_unchanged: preserved_if_unchanged(artifact.kind),
            };
            assert(prepared_views(list@.push(made)) =~= prepared_views(list@).push(made@));
            list.push(made);
            count += 1;
        }
        Ok(list)
    }

    fn prepare_restore_impl(
        &self,
        action: &ActionKey,
        destinations: &RestoreDestinations,
        require_roles: bool,
        facts: RestoreFacts,
    ) -> (outcome: Result<PreparedRestore, CacheError>)
        ensures
            match outcome {
                Ok(ready) => prepared(self.root@, action@, destinations@, require_roles, facts)
                    == Ok::<Restoration, Fault>(ready@),
                Err(error) => prepared(self.root@, action@, destinations@, require_roles, facts)
                    == Err::<Restoration, Fault>(error@),
            },
    {
        let ghost given = facts;
        let mut facts = facts;
        let mut place = ManifestFacts {
            results: Vec::new(),
            conflicts: Vec::new(),
            conflict: true,
            shard: PathState::Other,
            existing: store::StoredManifest::Missing,
        };
        std::mem::swap(&mut facts.manifest, &mut place);
        let manifest = match self.load_manifest_metadata(action, place)? {
            Some(found) => found,
            None => {
                return Err(CacheError::Miss);
            },
        };
        let total: usize = manifest.artifacts.len();
        if facts.places.len() != total || facts.states.len() != total || facts.artifacts.len()
            != total {
            return Err(CacheError::Miss);
        }
        validate_restore_contract(&manifest, destinations, require_roles, &facts.places)?;
        let artifacts = self.prepare_artifacts(&manifest, destinations, &facts)?;
        let ghost read = artifact_blobs(manifest@.artifacts);
        if !read_with_artifacts(&manifest, &manifest.stdout) {
            self.verify_blob(&manifest.stdout, &facts.stdout)?;
        }
        let repeated = manifest.stderr.digest == manifest.stdout.digest && manifest.stderr.size
            == manifest.stdout.size;
        let listed = read_with_artifacts(&manifest, &manifest.stderr);
        proof {
            let more = read.push(manifest@.stdout);
            if listed {
                let at = choose|at: int|
                    0 <= at < read.len() && (#[trigger] read[at]).digest == manifest@.stderr.digest
                        && read[at].size == manifest@.stderr.size;
                assert(more[at] == read[at]);
            }
            if repeated {
                assert(more[read.len() as int] == manifest@.stdout);
            }
            if store::lists_content(more, manifest@.stderr) {
                let at = choose|at: int|
                    0 <= at < more.len() && (#[trigger] more[at]).digest == manifest@.stderr.digest
                        && more[at].size == manifest@.stderr.size;
                if at < read.len() {
                    assert(read[at] == more[at]);
                }
            }
        }
        if !listed && !repeated {
            self.verify_blob(&manifest.stderr, &facts.stderr)?;
        }
        Ok(PreparedRestore { manifest, artifacts })
    }

    /// Prepares a result for places that say what each artifact has to be.
    pub fn prepare_restore(
        &self,
        action: &ActionKey,
        destinations: &RestoreDestinations,
        facts: RestoreFacts,
    ) -> (outcome: Result<PreparedRestore, CacheError>)
        ensures
            match outcome {
                Ok(ready) => prepared(self.root@, action@, destinations@, true, facts) == Ok::<
                    Restoration,
                    Fault,
                >(ready@),
                Err(error) => prepared(self.root@, action@, destinations@, true, facts) == Err::<
                    Restoration,
                    Fault,
                >(error@),
            },
    {
        self.prepare_restore_impl(action, destinations, true, facts)
    }

    /// Prepares a result for places that need not say what each artifact has to be.
    pub fn restore(
        &self,
        action: &ActionKey,
        destinations: &RestoreDestinations,
        facts: RestoreFacts,
    ) -> (outcome: Result<PreparedRestore, CacheError>)
        ensures
            match outcome {
                Ok(ready) => prepared(self.root@, action@, destinations@, false, facts) == Ok::<
                    Restoration,
                    Fault,
                >(ready@),
                Err(error) => prepared(self.root@, action@, destinations@, false, facts) == Err::<
                    Restoration,
                    Fault,
                >(error@),
            },
    {
        self.prepare_restore_impl(action, destinations, false, facts)
    }
}

proof fn lemma_prepared_at(
    root: Seq<u8>,
    list: Seq<RestoreDestination<Seq<char>, Seq<u8>>>,
    artifacts: Seq<Artifact<Seq<char>>>,
    states: Seq<PathState>,
    stored: Seq<StoredBlob>,
    count: int,
    at: int,
)
    requires
        0 <= at < count,
        prepared_artifacts(root, list, artifacts, states, stored, count) is Ok,
    ensures
        ({
            let made = prepared_artifacts(root, list, artifacts, states, stored, count)->Ok_0;
            let found = destination_from(list, artifacts[at].logical_name, 0);
            &&& made.len() == count
            &&& found is Some
            &&& made[at].destination == found->0.path
            &&& made[at].mode == artifacts[at].blob.mode
            &&& made[at].role == artifacts[at].destination_role
            &&& destination_fault(found->0.path, states[at]) is None
            &&& store::blob_contents(root, artifacts[at].blob, stored[at]) == Ok::<Seq<u8>, Fault>(
                made[at].content,
            )
        }),
    decreases count,
{
    let earlier = prepared_artifacts(root, list, artifacts, states, stored, count - 1);
    assert(earlier is Ok);
    if count > 1 {
        lemma_prepared_at(
            root,
            list,
            artifacts,
            states,
            stored,
            count - 1,
            if at < count - 1 {
                at
            } else {
                0
            },
        );
    }
}

/// A restore goes by a valid manifest. It puts each of its artifacts, with exactly the content that
/// the manifest says, at the place that was given for its name, and only where a file or nothing
/// stands.
pub proof fn law_a_restore_gives_back_what_was_published(
    root: Seq<u8>,
    action: Seq<u8>,
    list: Seq<RestoreDestination<Seq<char>, Seq<u8>>>,
    require_roles: bool,
    facts: RestoreFacts,
    at: int,
)
    requires
        prepared(root, action, list, require_roles, facts) is Ok,
        0 <= at < prepared(root, action, list, require_roles, facts)->Ok_0.manifest.artifacts.len(),
    ensures
        ({
            let ready = prepared(root, action, list, require_roles, facts)->Ok_0;
            let artifact = ready.manifest.artifacts[at];
            let found = destination_from(list, artifact.logical_name, 0);
            &&& ready.manifest.action_key == action
            &&& manifest::manifest_fault(ready.manifest) is None
            &&& ready.artifacts.len() == ready.manifest.artifacts.len()
            &&& ready.artifacts[at].content.len() == artifact.blob.size
            &&& hex::hex_text(digest::blake3_digest(ready.artifacts[at].content))
                == artifact.blob.digest
            &&& ready.artifacts[at].mode == artifact.blob.mode
            &&& ready.artifacts[at].role == artifact.destination_role
            &&& found is Some
            &&& ready.artifacts[at].destination == found->0.path
            &&& destination_fault(found->0.path, facts.states@[at]) is None
        }),
{
    let ready = prepared(root, action, list, require_roles, facts)->Ok_0;
    lemma_prepared_at(
        root,
        list,
        ready.manifest.artifacts,
        facts.states@,
        facts.artifacts@,
        ready.manifest.artifacts.len() as int,
        at,
    );
}

/// Why nothing can be put at one of the destinations, from `index` on: the first reason.
pub open spec fn destinations_fault(
    artifacts: Seq<PreparedArtifact<Seq<u8>>>,
    states: Seq<PathState>,
    index: int,
) -> Option<Fault>
    decreases artifacts.len() - index,
{
    if index >= artifacts.len() {
        None
    } else if destination_fault(artifacts[index].destination, states[index]) is Some {
        destination_fault(artifacts[index].destination, states[index])
    } else {
        destinations_fault(artifacts, states, index + 1)
    }
}

/// The first `count` artifacts with what has to be done for them. `current` is what stands at the
/// destinations.
pub open spec fn staged_artifacts(
    artifacts: Seq<PreparedArtifact<Seq<u8>>>,
    current: Seq<FileBytes>,
    count: int,
) -> Result<Seq<StagedArtifact>, Fault>
    decreases count,
{
    if count <= 0 {
        Ok(Seq::empty())
    } else {
        match staged_artifacts(artifacts, current, count - 1) {
            Err(fault) => Err(fault),
            Ok(earlier) => {
                let artifact = artifacts[count - 1];
                match current[count - 1] {
                    FileBytes::Unreadable(text) => if artifact.preserve_if_unchanged {
                        Err(CacheError::Io(text@))
                    } else {
                        Ok(earlier.push(StagedArtifact { role: artifact.role, unchanged: false }))
                    },
                    FileBytes::Missing(_) => Ok(
                        earlier.push(StagedArtifact { role: artifact.role, unchanged: false }),
                    ),
                    FileBytes::Read(bytes) => Ok(
                        earlier.push(
                            StagedArtifact {
                                role: artifact.role,
                                unchanged: artifact.preserve_if_unchanged && bytes@
                                    == artifact.content,
                            },
                        ),
                    ),
                }
            },
        }
    }
}

/// The steps of putting prepared artifacts in place, or why nothing is touched.
pub open spec fn committing(
    artifacts: Seq<PreparedArtifact<Seq<u8>>>,
    states: Seq<PathState>,
    current: Seq<FileBytes>,
) -> Result<Seq<CommitStep>, Fault> {
    if states.len() != artifacts.len() || current.len() != artifacts.len() {
        Err(CacheError::Miss)
    } else if destinations_fault(artifacts, states, 0) is Some {
        Err(destinations_fault(artifacts, states, 0)->0)
    } else {
        match staged_artifacts(artifacts, current, artifacts.len() as int) {
            Err(fault) => Err(fault),
            Ok(staged) => Ok(commit_steps(staged)),
        }
    }
}

proof fn lemma_staged_fail(
    artifacts: Seq<PreparedArtifact<Seq<u8>>>,
    current: Seq<FileBytes>,
    count: int,
    total: int,
)
    requires
        0 <= count <= total,
        staged_artifacts(artifacts, current, count) is Err,
    ensures
        staged_artifacts(artifacts, current, total) == staged_artifacts(artifacts, current, count),
    decreases total - count,
{
    if count < total {
        assert(staged_artifacts(artifacts, current, count + 1) == staged_artifacts(
            artifacts,
            current,
            count,
        ));
        lemma_staged_fail(artifacts, current, count + 1, total);
    }
}

impl PreparedRestore {
    /// The manifest of the result.
    pub fn manifest(&self) -> (manifest: &Manifest)
        ensures
            manifest@ == self@.manifest,
    {
        &self.manifest
    }

    /// The steps of putting the result in place. `states` says what stands at each destination,
    /// `current` what is in it.
    pub fn commit(&self, states: &Vec<PathState>, current: &Vec<FileBytes>) -> (outcome: Result<
        Vec<CommitStep>,
        CacheError,
    >)
        ensures
            match outcome {
                Ok(steps) => committing(self@.artifacts, states@, current@) == Ok::<
                    Seq<CommitStep>,
                    Fault,
                >(steps@),
                Err(error) => committing(self@.artifacts, states@, current@) == Err::<
                    Seq<CommitStep>,
                    Fault,
                >(error@),
            },
    {
        let ghost all = self@.artifacts;
        let total: usize = self.artifacts.len();
        if states.len() != total || current.len() != total {
            return Err(CacheError::Miss);
        }
        let mut index: usize = 0;
        while index < total
            invariant
                all == self@.artifacts,
                total == self.artifacts@.len(),
                total == all.len(),
                states@.len() == total,
                current@.len() == total,
                index <= total,
                destinations_fault(all, states@, 0) == destinations_fault(
                    all,
                    states@,
                    index as int,
                ),
            decreases total - index,
        {
            assert(all[index as int] == self.artifacts@[index as int]@);
            check_destination(self.artifacts[index].destination.as_slice(), &states[index])?;
            index += 1;
        }
        let mut staged: Vec<StagedArtifact> = Vec::new();
        let mut count: usize = 0;
        while count < total
            invariant
                all == self@.artifacts,
                total == self.artifacts@.len(),
                total == all.len(),
                states@.len() == total,
                current@.len() == total,
                destinations_fault(all, states@, 0) is None,
                count <= total,
                staged_artifacts(all, current@, count as int) == Ok::<Seq<StagedArtifact>, Fault>(
                    staged@,
                ),
            decreases total - count,
        {
            let artifact = &self.artifacts[count];
            proof {
                assert(all[count as int] == artifact@);
                if staged_artifacts(all, current@, count + 1) is Err {
                    lemma_staged_fail(all, current@, count + 1, total as int);
                }
            }
            let unchanged = match &current[count] {
                FileBytes::Unreadable(text) => {
                    if artifact.preserve_if_unchanged {
                        return Err(CacheError::Io(text.clone()));
                    }
                    false
                },
                FileBytes::Missing(_) => false,
                FileBytes::Read(bytes) => artifact.preserve_if_unchanged && bstr::same(
                    bytes.as_slice(),
                    artifact.content.as_slice(),
                ),
            };
            staged.push(StagedArtifact { role: artifact.role, unchanged });
            count += 1;
        }
        Ok(plan_commit(&staged))
    }
}

/// The artifact that a step is about.
pub open spec fn subject(step: CommitStep) -> int {
    match step {
        CommitStep::Backup(artifact) => artifact as int,
        CommitStep::Remove(artifact) => artifact as int,
        CommitStep::Install(artifact) => artifact as int,
    }
}

/// A depfile is installed before modules, and the object behind everything else.
pub open spec fn may_precede(first: DestinationRole, second: DestinationRole) -> bool {
    match second {
        DestinationRole::Dependency => first is Dependency,
        DestinationRole::Module => !(first is Object),
        DestinationRole::Submodule => !(first is Object),
        DestinationRole::Object => true,
    }
}

proof fn lemma_rank_listed(staged: Seq<StagedArtifact>, wanted: int, count: int)
    requires
        0 <= count <= staged.len(),
    ensures
        forall|at: int|
            0 <= at < of_rank(staged, wanted, count).len() ==> {
                let entry = #[trigger] of_rank(staged, wanted, count)[at];
                0 <= entry < count && !staged[entry].unchanged && rank(staged[entry].role) == wanted
            },
    decreases count,
{
    if count > 0 {
        lemma_rank_listed(staged, wanted, count - 1);
        let before = of_rank(staged, wanted, count - 1);
        let all = of_rank(staged, wanted, count);
        assert forall|at: int| 0 <= at < all.len() implies {
            let entry = #[trigger] all[at];
            0 <= entry < count && !staged[entry].unchanged && rank(staged[entry].role) == wanted
        } by {
            if at < before.len() {
                assert(all[at] == before[at]);
            }
        }
    }
}

proof fn lemma_replaced_at(list: Seq<int>)
    ensures
        replacing(list).len() == 2 * list.len(),
        forall|at: int|
            0 <= at < list.len() ==> replacing(list)[2 * at] == CommitStep::Backup(
                #[trigger] list[at] as usize,
            ),
        forall|at: int|
            0 <= at < list.len() ==> replacing(list)[2 * at + 1] == CommitStep::Install(
                #[trigger] list[at] as usize,
            ),
    decreases list.len(),
{
    if list.len() > 0 {
        let shorter = list.drop_last();
        lemma_replaced_at(shorter);
        let before = replacing(shorter);
        let all = replacing(list);
        assert(all == before.push(CommitStep::Backup(list.last() as usize)).push(
            CommitStep::Install(list.last() as usize),
        ));
        assert forall|at: int| 0 <= at < list.len() implies all[2 * at] == CommitStep::Backup(
            #[trigger] list[at] as usize,
        ) && all[2 * at + 1] == CommitStep::Install(list[at] as usize) by {
            if at < shorter.len() {
                assert(shorter[at] == list[at]);
                assert(all[2 * at] == before[2 * at]);
                assert(all[2 * at + 1] == before[2 * at + 1]);
            }
        }
    }
}

proof fn lemma_companions_in_order(staged: Seq<StagedArtifact>)
    ensures
        forall|at: int|
            0 <= at < companions(staged).len() ==> {
                let entry = #[trigger] companions(staged)[at];
                0 <= entry < staged.len() && !staged[entry].unchanged && !(staged[entry].role
                    is Object)
            },
        forall|left: int, right: int|
            0 <= left < right < companions(staged).len() ==> may_precede(
                staged[#[trigger] companions(staged)[left]].role,
                staged[#[trigger] companions(staged)[right]].role,
            ),
{
    let first = of_rank(staged, 0, staged.len() as int);
    let second = of_rank(staged, 1, staged.len() as int);
    let all = companions(staged);
    lemma_rank_listed(staged, 0, staged.len() as int);
    lemma_rank_listed(staged, 1, staged.len() as int);
    assert forall|at: int| 0 <= at < all.len() implies {
        let entry = #[trigger] all[at];
        0 <= entry < staged.len() && !staged[entry].unchanged && !(staged[entry].role is Object)
    } by {
        if at < first.len() {
            assert(all[at] == first[at]);
        } else {
            assert(all[at] == second[at - first.len()]);
        }
    }
    assert forall|left: int, right: int| 0 <= left < right < all.len() implies may_precede(
        staged[#[trigger] all[left]].role,
        staged[#[trigger] all[right]].role,
    ) by {
        if right < first.len() {
            assert(all[left] == first[left] && all[right] == first[right]);
        } else if left < first.len() {
            assert(all[left] == first[left] && all[right] == second[right - first.len()]);
        } else {
            assert(all[left] == second[left - first.len()] && all[right] == second[right
                - first.len()]);
        }
    }
}

/// The order of a commit. A depfile is installed before modules and submodules, and these before the
/// object. What is replaced is backed up before. What did not change is not touched.
#[verifier::spinoff_prover]
pub proof fn law_the_order_of_a_commit(staged: Seq<StagedArtifact>, left: int, right: int)
    requires
        staged.len() <= usize::MAX,
        0 <= left <= right < commit_steps(staged).len(),
    ensures
        ({
            let steps = commit_steps(staged);
            &&& 0 <= subject(steps[right]) < staged.len()
            &&& !staged[subject(steps[right])].unchanged
            &&& steps[left] is Install && steps[right] is Install ==> may_precede(
                staged[subject(steps[left])].role,
                staged[subject(steps[right])].role,
            )
            &&& steps[right] is Install || steps[right] is Remove ==> exists|at: int|
                0 <= at < right && #[trigger] steps[at] == CommitStep::Backup(
                    subject(steps[right]) as usize,
                )
        }),
{
    let steps = commit_steps(staged);
    let list = companions(staged);
    let middle = replacing(list);
    lemma_companions_in_order(staged);
    lemma_replaced_at(list);
    lemma_rank_listed(staged, 2, staged.len() as int);
    let lead: int = if object_of(staged) is Some {
        2
    } else {
        0
    };
    if object_of(staged) is Some {
        let objects = of_rank(staged, 2, staged.len() as int);
        let object = objects[objects.len() - 1];
        assert(object_of(staged) == Some(object));
        assert(staged[object].role is Object);
        assert(steps[0] == CommitStep::Backup(object as usize));
        assert(steps[1] == CommitStep::Remove(object as usize));
        assert(steps[steps.len() - 1] == CommitStep::Install(object as usize));
    }
    assert forall|at: int| lead <= at < lead + middle.len() implies #[trigger] steps[at]
        == middle[at - lead] by {}
    assert forall|at: int| lead <= at < lead + middle.len() implies {
        let entry = list[(at - lead) / 2];
        #[trigger] steps[at] == (if (at - lead) % 2 == 0 {
            CommitStep::Backup(entry as usize)
        } else {
            CommitStep::Install(entry as usize)
        })
    } by {
        let half = (at - lead) / 2;
        assert(steps[at] == middle[at - lead]);
        if (at - lead) % 2 == 0 {
            assert(middle[2 * half] == CommitStep::Backup(list[half] as usize));
        } else {
            assert(middle[2 * half + 1] == CommitStep::Install(list[half] as usize));
        }
    }
    if lead <= right < lead + middle.len() {
        let half = (right - lead) / 2;
        assert(0 <= list[half] < staged.len());
        if steps[right] is Install {
            assert(steps[right - 1] == CommitStep::Backup(list[half] as usize));
        }
        if lead <= left && steps[left] is Install && steps[right] is Install {
            let other = (left - lead) / 2;
            if other < half {
                assert(may_precede(staged[list[other]].role, staged[list[half]].role));
            }
        }
    }
}

/// Only a file, or nothing, may stand at a destination: a link, a directory or anything else is
/// refused.
pub proof fn law_what_may_be_replaced(path: Seq<u8>, state: PathState)
    ensures
        state is Symlink ==> destination_fault(path, state) == Some(
            Fault::SymlinkDestination(path),
        ),
        state is Directory || state is Other ==> destination_fault(path, state) == Some(
            Fault::InvalidDestination(path),
        ),
        state is File || state is Missing ==> destination_fault(path, state) is None,
{
}

} // verus!
