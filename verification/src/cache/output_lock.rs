//! Which locks an action takes for its outputs, and what it may change in a module directory.
use vstd::prelude::*;

use crate::bstr;
use crate::cache::snapshot::FileIdentity;
use crate::digest;
use crate::hex;
use crate::names;
use crate::upath;

verus! {

/// How an action will use its final module output directory.
#[derive(Clone, Copy, Debug, PartialEq, Eq, Structural)]
pub enum ModuleDirectoryAccess {
    /// A compiler miss whose probe predicted no generated modules.
    CompilerMissWithoutModules,
    /// A compiler miss whose probe predicted generated modules.
    CompilerModuleProducer,
    /// A cache restoration that installs generated modules.
    ModuleRestore,
}

/// How a lock is held.
#[derive(Clone, Copy, Debug, PartialEq, Eq, PartialOrd, Ord, Structural)]
pub enum LockMode {
    Shared,
    Exclusive,
}

impl ModuleDirectoryAccess {
    /// Only an action that writes no module shares the directory.
    pub fn lock_mode(self) -> (mode: LockMode)
        ensures
            mode is Shared == self is CompilerMissWithoutModules,
    {
        match self {
            ModuleDirectoryAccess::CompilerMissWithoutModules => LockMode::Shared,
            ModuleDirectoryAccess::CompilerModuleProducer => LockMode::Exclusive,
            ModuleDirectoryAccess::ModuleRestore => LockMode::Exclusive,
        }
    }
}

/// A path and how it is locked.
#[derive(Clone, Debug, PartialEq, Eq)]
pub struct PlannedLock<B = Vec<u8>> {
    pub path: B,
    pub mode: LockMode,
}

impl View for PlannedLock {
    type V = PlannedLock<Seq<u8>>;

    open spec fn view(&self) -> PlannedLock<Seq<u8>> {
        PlannedLock { path: self.path@, mode: self.mode }
    }
}

/// Every output and module-directory lock required by an action.
#[derive(Clone, Debug, Default)]
pub struct OutputLockPlan {
    pub requested: Vec<PlannedLock>,
}

impl View for OutputLockPlan {
    type V = Seq<PlannedLock<Seq<u8>>>;

    open spec fn view(&self) -> Seq<PlannedLock<Seq<u8>>> {
        self.requested@.map_values(|planned: PlannedLock| planned@)
    }
}

/// The name of the lock file of a path.
pub open spec fn lock_name(path: Seq<u8>) -> Seq<u8> {
    bstr::utf8(hex::hex_text(digest::blake3_digest(path)))
}

/// A lock file and how it is locked.
#[derive(Clone, Debug, PartialEq, Eq)]
pub struct LockTarget {
    pub name: Vec<u8>,
    pub mode: LockMode,
}

/// The names of lock files.
pub open spec fn target_names(targets: Seq<LockTarget>) -> Seq<Seq<u8>> {
    targets.map_values(|target: LockTarget| target.name@)
}

/// Some of the first `count` paths has the lock file `name`.
pub open spec fn wanted(paths: Seq<Seq<u8>>, name: Seq<u8>, count: int) -> bool {
    exists|at: int| 0 <= at < count && lock_name(#[trigger] paths[at]) == name
}

/// Some of the first `count` paths has the lock file `name` and asks for it alone.
pub open spec fn wanted_alone(
    requested: Seq<PlannedLock<Seq<u8>>>,
    paths: Seq<Seq<u8>>,
    name: Seq<u8>,
    count: int,
) -> bool {
    exists|at: int|
        0 <= at < count && lock_name(#[trigger] paths[at]) == name && requested[at].mode
            is Exclusive
}

/// The lock files of the first `count` requests: one for each name, in the order of the names,
/// exclusive where any request for it is.
pub open spec fn unified(
    targets: Seq<LockTarget>,
    requested: Seq<PlannedLock<Seq<u8>>>,
    paths: Seq<Seq<u8>>,
    count: int,
) -> bool {
    &&& names::sorted(target_names(targets))
    &&& forall|name: Seq<u8>| #[trigger]
        target_names(targets).contains(name) <==> wanted(paths, name, count)
    &&& forall|at: int|
        0 <= at < targets.len() ==> ((#[trigger] targets[at]).mode is Exclusive <==> wanted_alone(
            requested,
            paths,
            targets[at].name@,
            count,
        ))
}

impl OutputLockPlan {
    /// A plan without locks.
    pub fn new() -> (plan: Self)
        ensures
            plan@ == Seq::<PlannedLock<Seq<u8>>>::empty(),
    {
        let plan = OutputLockPlan { requested: Vec::new() };
        assert(plan@ =~= Seq::empty());
        plan
    }

    fn add_lock(&mut self, path: Vec<u8>, mode: LockMode)
        ensures
            final(self)@ == old(self)@.push(PlannedLock { path: path@, mode }),
    {
        let ghost before = self.requested@;
        let planned = PlannedLock { path, mode };
        self.requested.push(planned);
        assert(self@ =~= before.map_values(|planned: PlannedLock| planned@).push(planned@));
    }

    /// Adds a compiler output, which always requires exclusive access.
    pub fn add_output(&mut self, path: Vec<u8>)
        ensures
            final(self)@ == old(self)@.push(
                PlannedLock { path: path@, mode: LockMode::Exclusive },
            ),
    {
        self.add_lock(path, LockMode::Exclusive);
    }

    /// Adds the final module directory with the mode required by the action kind.
    pub fn add_module_directory(&mut self, path: Vec<u8>, access: ModuleDirectoryAccess)
        ensures
            final(self)@ == old(self)@.push(
                PlannedLock {
                    path: path@,
                    mode: if access is CompilerMissWithoutModules {
                        LockMode::Shared
                    } else {
                        LockMode::Exclusive
                    },
                },
            ),
    {
        let mode = access.lock_mode();
        self.add_lock(path, mode);
    }

    /// The lock files of a plan, in the order in which they are locked. `normalized` holds the path
    /// that each requested path leads to. An empty requested path has no lock file.
    pub fn lock_targets(&self, normalized: &Vec<Vec<u8>>) -> (targets: Option<Vec<LockTarget>>)
        requires
            normalized@.len() == self.requested@.len(),
        ensures
            match targets {
                Some(list) => {
                    &&& forall|at: int| 0 <= at < self@.len() ==> (#[trigger] self@[at]).path.len() > 0
                    &&& unified(
                        list@,
                        self@,
                        bstr::views(normalized@),
                        self@.len() as int,
                    )
                },
                None => exists|at: int|
                    0 <= at < self@.len() && (#[trigger] self@[at]).path.len() == 0,
            },
    {
        let ghost requested = self@;
        let ghost paths = bstr::views(normalized@);
        let mut targets: Vec<LockTarget> = Vec::new();
        let mut index: usize = 0;
        assert(target_names(targets@) =~= Seq::empty());
        while index < self.requested.len()
            invariant
                index <= self.requested.len() == normalized.len(),
                requested == self@,
                paths == bstr::views(normalized@),
                forall|at: int| 0 <= at < index ==> (#[trigger] requested[at]).path.len() > 0,
                unified(targets@, requested, paths, index as int),
            decreases self.requested.len() - index,
        {
            let planned = &self.requested[index];
            assert(requested[index as int] == planned@);
            if planned.path.len() == 0 {
                assert(self@[index as int].path.len() == 0);
                return None;
            }
            let path_digest = digest::hash(normalized[index].as_slice());
            let name = hex::encode_bytes(path_digest.as_slice());
            assert(paths[index as int] == normalized@[index as int]@);
            assert(name@ == lock_name(paths[index as int]));
            add_target(
                &mut targets,
                name,
                planned.mode,
                Ghost(requested),
                Ghost(paths),
                Ghost(index as int),
            );
            index += 1;
        }
        Some(targets)
    }
}

proof fn lemma_wanted_step(
    requested: Seq<PlannedLock<Seq<u8>>>,
    paths: Seq<Seq<u8>>,
    name: Seq<u8>,
    count: int,
)
    requires
        0 <= count < paths.len(),
    ensures
        wanted(paths, name, count + 1) == (wanted(paths, name, count) || lock_name(paths[count])
            == name),
        wanted_alone(requested, paths, name, count + 1) == (wanted_alone(
            requested,
            paths,
            name,
            count,
        ) || (lock_name(paths[count]) == name && requested[count].mode is Exclusive)),
{
    if wanted(paths, name, count) {
        let at = choose|at: int| 0 <= at < count && lock_name(#[trigger] paths[at]) == name;
        assert(0 <= at < count + 1 && lock_name(paths[at]) == name);
    }
    if lock_name(paths[count]) == name {
        assert(0 <= count < count + 1 && lock_name(paths[count]) == name);
    }
    if wanted_alone(requested, paths, name, count) {
        let at = choose|at: int|
            0 <= at < count && lock_name(#[trigger] paths[at]) == name && requested[at].mode
                is Exclusive;
        assert(0 <= at < count + 1 && lock_name(paths[at]) == name && requested[at].mode
            is Exclusive);
    }
}

fn add_target(
    targets: &mut Vec<LockTarget>,
    name: Vec<u8>,
    mode: LockMode,
    Ghost(requested): Ghost<Seq<PlannedLock<Seq<u8>>>>,
    Ghost(paths): Ghost<Seq<Seq<u8>>>,
    Ghost(count): Ghost<int>,
)
    requires
        0 <= count < paths.len(),
        paths.len() == requested.len(),
        unified(old(targets)@, requested, paths, count),
        name@ == lock_name(paths[count]),
        mode == requested[count].mode,
    ensures
        unified(final(targets)@, requested, paths, count + 1),
{
    let ghost before = targets@;
    let ghost known = target_names(before);
    proof {
        assert forall|other: Seq<u8>| #![trigger wanted(paths, other, count + 1)]
            wanted(paths, other, count + 1) == (wanted(paths, other, count) || other == name@) by {
            lemma_wanted_step(requested, paths, other, count);
        }
    }
    let mut index: usize = 0;
    while index < targets.len() && bstr::less(targets[index].name.as_slice(), name.as_slice())
        invariant
            index <= targets.len(),
            targets@ == before,
            known == target_names(before),
            names::sorted(known),
            forall|at: int| 0 <= at < index ==> bstr::before(#[trigger] known[at], name@),
        decreases targets.len() - index,
    {
        assert(known[index as int] == targets@[index as int].name@);
        index += 1;
    }
    if index < targets.len() && bstr::same(targets[index].name.as_slice(), name.as_slice()) {
        assert(known[index as int] == name@);
        assert(known.contains(name@));
        let merged = match (targets[index].mode, mode) {
            (LockMode::Shared, LockMode::Shared) => LockMode::Shared,
            _ => LockMode::Exclusive,
        };
        let target = LockTarget { name, mode: merged };
        targets.set(index, target);
        proof {
            assert(target_names(targets@) =~= known);
            assert forall|at: int| 0 <= at < targets@.len() implies (
            (#[trigger] targets@[at]).mode is Exclusive <==> wanted_alone(
                requested,
                paths,
                targets@[at].name@,
                count + 1,
            )) by {
                lemma_wanted_step(requested, paths, targets@[at].name@, count);
                if at == index {
                    assert(before[index as int].name@ == name@);
                } else {
                    assert(targets@[at] == before[at]);
                    assert(known[at] == before[at].name@);
                    assert(known[index as int] == before[index as int].name@);
                    bstr::lemma_before_irreflexive(name@);
                }
            }
        }
    } else {
        proof {
            bstr::lemma_before_irreflexive(name@);
            if index < targets.len() {
                assert(known[index as int] == before[index as int].name@);
                bstr::lemma_before_total(known[index as int], name@);
                assert forall|at: int| index <= at < known.len() implies bstr::before(
                    name@,
                    #[trigger] known[at],
                ) by {
                    if at > index {
                        bstr::lemma_before_transitive(name@, known[index as int], known[at]);
                    }
                }
            }
            names::lemma_insert_sorted(known, index as int, name@);
            assert(!known.contains(name@));
            assert(!wanted(paths, name@, count));
        }
        let target = LockTarget { name, mode };
        targets.insert(index, target);
        proof {
            assert(target_names(targets@) =~= known.insert(index as int, name@));
            assert forall|at: int| 0 <= at < targets@.len() implies (
            (#[trigger] targets@[at]).mode is Exclusive <==> wanted_alone(
                requested,
                paths,
                targets@[at].name@,
                count + 1,
            )) by {
                lemma_wanted_step(requested, paths, targets@[at].name@, count);
                if at == index {
                    assert(!wanted_alone(requested, paths, name@, count));
                } else {
                    let old_at = if at < index {
                        at
                    } else {
                        at - 1
                    };
                    assert(targets@[at] == before[old_at]);
                    assert(known[old_at] == before[old_at].name@);
                    assert(before[old_at].name@ != name@);
                }
            }
        }
    }
}

/// Actions cannot deadlock on their locks: what two of them lock in common, both lock in the same
/// order.
pub proof fn law_common_locks_are_taken_in_one_order(
    left: Seq<LockTarget>,
    right: Seq<LockTarget>,
    first: int,
    second: int,
    other_first: int,
    other_second: int,
)
    requires
        names::sorted(target_names(left)),
        names::sorted(target_names(right)),
        0 <= first < second < left.len(),
        0 <= other_first < right.len(),
        0 <= other_second < right.len(),
        left[first].name@ == right[other_first].name@,
        left[second].name@ == right[other_second].name@,
    ensures
        other_first < other_second,
{
    let left_names = target_names(left);
    let right_names = target_names(right);
    assert(left_names[first] == left[first].name@);
    assert(left_names[second] == left[second].name@);
    assert(right_names[other_first] == right[other_first].name@);
    assert(right_names[other_second] == right[other_second].name@);
    names::law_shared_names_keep_their_order(
        left_names,
        right_names,
        first,
        second,
        other_first,
        other_second,
    );
}

/// The path that a requested path leads to: itself, where it can be resolved; else its name below
/// its parent, where that can be; else its text with `.` and `..` resolved.
pub open spec fn target_path(
    path: Seq<u8>,
    canonical: Option<Seq<u8>>,
    canonical_parent: Option<Seq<u8>>,
) -> Seq<u8> {
    if canonical is Some {
        canonical->0
    } else if upath::parent_of(path) is Some && upath::file_name_of(path) is Some
        && canonical_parent is Some {
        upath::joined(canonical_parent->0, upath::file_name_of(path)->0)
    } else {
        upath::normalized_of(path)
    }
}

/// The path that a requested path leads to, with the results of resolving it and its parent.
pub fn normalize_target(
    path: &[u8],
    canonical: Option<Vec<u8>>,
    canonical_parent: Option<Vec<u8>>,
) -> (target: Vec<u8>)
    ensures
        target@ == target_path(
            path@,
            bstr::opt_view(canonical),
            bstr::opt_view(canonical_parent),
        ),
{
    if let Some(found) = canonical {
        return found;
    }
    if let (Some(_), Some(name)) = (upath::parent(path), upath::file_name(path)) {
        if let Some(parent) = canonical_parent {
            return upath::join(parent.as_slice(), name.as_slice());
        }
    }
    upath::normalize(path)
}

/// What is known of a lock file: whether it is a regular file, and which.
#[derive(Clone, Copy, Debug, PartialEq, Eq, Structural)]
pub struct LockLook {
    pub regular: bool,
    pub identity: Option<FileIdentity>,
}

/// A lock file that was opened is the regular file that its path names.
pub fn is_stable_lock(opened: LockLook, named: LockLook) -> (yes: bool)
    ensures
        yes == (opened.regular && named.regular && opened.identity == named.identity),
{
    let same = match (opened.identity, named.identity) {
        (Some(left), Some(right)) => left == right,
        (None, None) => true,
        _ => false,
    };
    opened.regular && named.regular && same
}

} // verus!
