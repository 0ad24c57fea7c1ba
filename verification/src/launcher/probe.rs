//! What a dependency probe shows: the modules that it wrote, and which targets and prerequisites of
//! its dependency file they are.
use vstd::prelude::*;

use crate::bstr;
use crate::compiler::depfile::{Depfile, DepfileRule, Rule};
use crate::compiler::gfortran::Preprocessing;
use crate::digest;
use crate::launcher::inputs;
use crate::launcher::observation;
use crate::launcher::observation::{
    Content, DepfilePrerequisite, DepfileShape, DepfileTarget, ObservedDepfileRule, ObservedRule,
    PreprocessorObservation, ProbeModule, Reading, Shape,
};
use crate::launcher::projection;
use crate::launcher::projection::{
    Fault, ObservationError, PathFacts, ProjectedOutputs, Projection,
};
use crate::upath;

verus! {

broadcast use bstr::lemma_views_push;

/// What is found out about one entry of the directory in which the probe leaves modules.
#[derive(Debug)]
pub struct ProbeEntry {
    pub path: Vec<u8>,
    /// Whether it is a file, and no link.
    pub plain_file: Result<bool, String>,
    /// Its name, where that is text.
    pub name: Option<String>,
    pub canonical: Result<Vec<u8>, String>,
    pub reading: Reading,
}

/// A name that a module or a submodule can have.
pub open spec fn module_name(name: Seq<char>) -> bool {
    bstr::has_suffix(bstr::utf8(name), bstr::utf8(".mod"@)) || bstr::has_suffix(
        bstr::utf8(name),
        bstr::utf8(".smod"@),
    )
}

/// The module that an entry is.
pub open spec fn module_of(entry: ProbeEntry) -> Result<
    ProbeModule<Seq<char>, Seq<u8>, Seq<u8>>,
    Fault,
> {
    match entry.plain_file {
        Err(source) => Err(ObservationError::EntryType(source@)),
        Ok(plain) => if !plain {
            Err(ObservationError::UnexpectedOutput(entry.path@))
        } else {
            match entry.name {
                None => Err(ObservationError::NameNotText),
                Some(name) => if !module_name(name@) {
                    Err(ObservationError::UnexpectedName(name@))
                } else {
                    match entry.canonical {
                        Err(source) => Err(
                            ObservationError::ModuleUnresolvable {
                                path: entry.path@,
                                source: source@,
                            },
                        ),
                        Ok(private_path) => match observation::read_of(
                            private_path@,
                            entry.reading,
                        ) {
                            Err(error) => Err(
                                ObservationError::ModuleUnreadable { name: name@, error },
                            ),
                            Ok(content) => Ok(
                                ProbeModule {
                                    name: name@,
                                    private_path: private_path@,
                                    digest: content.digest,
                                    size: content.size,
                                },
                            ),
                        },
                    }
                },
            }
        },
    }
}

fn read_module(entry: &ProbeEntry) -> (outcome: Result<ProbeModule, ObservationError>)
    ensures
        match outcome {
            Ok(module) => module_of(*entry) == Ok::<_, Fault>(module@),
            Err(error) => module_of(*entry) == Err::<
                ProbeModule<Seq<char>, Seq<u8>, Seq<u8>>,
                Fault,
            >(error@),
        },
{
    match &entry.plain_file {
        Err(source) => {
            return Err(ObservationError::EntryType(source.clone()));
        },
        Ok(plain) => {
            if !*plain {
                return Err(ObservationError::UnexpectedOutput(bstr::copy(entry.path.as_slice())));
            }
        },
    }
    let name = match &entry.name {
        Some(name) => name,
        None => {
            return Err(ObservationError::NameNotText);
        },
    };
    let bytes = bstr::of(name.as_str());
    if !bstr::ends_with_str(bytes, ".mod") && !bstr::ends_with_str(bytes, ".smod") {
        return Err(ObservationError::UnexpectedName(name.clone()));
    }
    let private_path = match &entry.canonical {
        Ok(path) => path,
        Err(source) => {
            return Err(
                ObservationError::ModuleUnresolvable {
                    path: bstr::copy(entry.path.as_slice()),
                    source: source.clone(),
                },
            );
        },
    };
    match observation::read_stable(private_path.as_slice(), &entry.reading) {
        Ok(contents) => Ok(
            ProbeModule {
                name: name.clone(),
                private_path: bstr::copy(private_path.as_slice()),
                digest: contents.digest,
                size: contents.size,
            },
        ),
        Err(error) => Err(ObservationError::ModuleUnreadable { name: name.clone(), error }),
    }
}

/// Modules in the order of their names with one more, after those of the same name.
pub open spec fn placed(
    list: Seq<ProbeModule<Seq<char>, Seq<u8>, Seq<u8>>>,
    module: ProbeModule<Seq<char>, Seq<u8>, Seq<u8>>,
) -> Seq<ProbeModule<Seq<char>, Seq<u8>, Seq<u8>>>
    decreases list.len(),
{
    if list.len() > 0 && bstr::before(bstr::utf8(module.name), bstr::utf8(list.last().name)) {
        placed(list.drop_last(), module).push(list.last())
    } else {
        list.push(module)
    }
}

/// Some module of a list is at a path.
pub open spec fn lists_module(
    list: Seq<ProbeModule<Seq<char>, Seq<u8>, Seq<u8>>>,
    path: Seq<u8>,
) -> bool {
    exists|at: int|
        0 <= at < list.len() && upath::same_path((#[trigger] list[at]).private_path, path)
}

/// The modules that the first `count` entries are, in the order of their names.
pub open spec fn modules_of(entries: Seq<ProbeEntry>, count: int) -> Result<
    Seq<ProbeModule<Seq<char>, Seq<u8>, Seq<u8>>>,
    Fault,
>
    decreases count,
{
    if count <= 0 {
        Ok(Seq::empty())
    } else {
        match modules_of(entries, count - 1) {
            Err(fault) => Err(fault),
            Ok(earlier) => match module_of(entries[count - 1]) {
                Err(fault) => Err(fault),
                Ok(module) => if lists_module(earlier, module.private_path) {
                    Err(ObservationError::DuplicateModule(module.private_path))
                } else {
                    Ok(placed(earlier, module))
                },
            },
        }
    }
}

proof fn lemma_modules_fail(entries: Seq<ProbeEntry>, count: int, total: int)
    requires
        0 <= count <= total,
        modules_of(entries, count) is Err,
    ensures
        modules_of(entries, total) == modules_of(entries, count),
    decreases total - count,
{
    if count < total {
        lemma_modules_fail(entries, count, total - 1);
    }
}

proof fn lemma_placed_at(
    list: Seq<ProbeModule<Seq<char>, Seq<u8>, Seq<u8>>>,
    module: ProbeModule<Seq<char>, Seq<u8>, Seq<u8>>,
    index: int,
)
    requires
        0 <= index <= list.len(),
        index > 0 ==> !bstr::before(bstr::utf8(module.name), bstr::utf8(list[index - 1].name)),
        forall|at: int|
            index <= at < list.len() ==> bstr::before(
                bstr::utf8(module.name),
                bstr::utf8((#[trigger] list[at]).name),
            ),
    ensures
        placed(list, module) == list.insert(index, module),
    decreases list.len(),
{
    if list.len() > index {
        let shorter = list.drop_last();
        assert forall|at: int| index <= at < shorter.len() implies bstr::before(
            bstr::utf8(module.name),
            bstr::utf8((#[trigger] shorter[at]).name),
        ) by {
            assert(shorter[at] == list[at]);
        }
        lemma_placed_at(shorter, module, index);
        assert(bstr::before(bstr::utf8(module.name), bstr::utf8(list[list.len() - 1].name)));
    }
    assert(placed(list, module) =~= list.insert(index, module));
}

fn place(list: &mut Vec<ProbeModule>, module: ProbeModule)
    ensures
        observation::module_views(final(list)@) == placed(
            observation::module_views(old(list)@),
            module@,
        ),
{
    let ghost all = observation::module_views(list@);
    let mut index: usize = list.len();
    while index > 0 && bstr::less(
        bstr::of(module.name.as_str()),
        bstr::of(list[index - 1].name.as_str()),
    )
        invariant
            index <= list.len(),
            all == observation::module_views(list@),
            forall|at: int|
                index <= at < list.len() ==> bstr::before(
                    bstr::utf8(module.name@),
                    bstr::utf8((#[trigger] all[at]).name),
                ),
        decreases index,
    {
        assert(all[index - 1] == list@[index - 1]@);
        index -= 1;
    }
    proof {
        if index > 0 {
            assert(all[index - 1] == list@[index - 1]@);
        }
        lemma_placed_at(all, module@, index as int);
    }
    list.insert(index, module);
    assert(observation::module_views(list@) =~= all.insert(index as int, module@));
}

fn has_module(list: &Vec<ProbeModule>, path: &[u8]) -> (found: bool)
    ensures
        found == lists_module(observation::module_views(list@), path@),
{
    let ghost all = observation::module_views(list@);
    let mut index: usize = 0;
    while index < list.len()
        invariant
            index <= list.len(),
            all == observation::module_views(list@),
            forall|at: int|
                0 <= at < index ==> !upath::same_path((#[trigger] all[at]).private_path, path@),
        decreases list.len() - index,
    {
        assert(all[index as int] == list@[index as int]@);
        if upath::same(list[index].private_path.as_slice(), path) {
            return true;
        }
        index += 1;
    }
    false
}

fn read_modules(entries: &Vec<ProbeEntry>) -> (outcome: Result<Vec<ProbeModule>, ObservationError>)
    ensures
        match outcome {
            Ok(modules) => modules_of(entries@, entries@.len() as int) == Ok::<_, Fault>(
                observation::module_views(modules@),
            ),
            Err(error) => modules_of(entries@, entries@.len() as int) == Err::<
                Seq<ProbeModule<Seq<char>, Seq<u8>, Seq<u8>>>,
                Fault,
            >(error@),
        },
{
    let mut modules: Vec<ProbeModule> = Vec::new();
    let mut index: usize = 0;
    assert(observation::module_views(modules@) =~= Seq::empty());
    while index < entries.len()
        invariant
            index <= entries.len(),
            modules_of(entries@, index as int) == Ok::<_, Fault>(
                observation::module_views(modules@),
            ),
        decreases entries.len() - index,
    {
        match read_module(&entries[index]) {
            Ok(module) => {
                if has_module(&modules, module.private_path.as_slice()) {
                    proof {
                        lemma_modules_fail(entries@, index + 1, entries@.len() as int);
                    }
                    return Err(ObservationError::DuplicateModule(module.private_path));
                }
                place(&mut modules, module);
            },
            Err(error) => {
                proof {
                    lemma_modules_fail(entries@, index + 1, entries@.len() as int);
                }
                return Err(error);
            },
        }
        index += 1;
    }
    Ok(modules)
}

/// A file that is a module of the compilation, and the name of the module.
#[derive(Clone, Debug, PartialEq, Eq)]
pub struct NamedPath<B = Vec<u8>> {
    pub path: B,
    pub name: B,
}

impl View for NamedPath {
    type V = NamedPath<Seq<u8>>;

    open spec fn view(&self) -> NamedPath<Seq<u8>> {
        NamedPath { path: self.path@, name: self.name@ }
    }
}

/// The contents of a list of named paths.
pub open spec fn place_views(list: Seq<NamedPath>) -> Seq<NamedPath<Seq<u8>>> {
    list.map_values(|place: NamedPath| place@)
}

/// A target of a rule that is a module of the compilation.
#[derive(Clone, Debug, PartialEq, Eq)]
pub struct GeneratedTarget<B = Vec<u8>> {
    pub rule: usize,
    pub target: usize,
    /// Which module it is.
    pub place: usize,
    pub name: B,
}

impl View for GeneratedTarget {
    type V = GeneratedTarget<Seq<u8>>;

    open spec fn view(&self) -> GeneratedTarget<Seq<u8>> {
        GeneratedTarget {
            rule: self.rule,
            target: self.target,
            place: self.place,
            name: self.name@,
        }
    }
}

/// The contents of a list of generated targets.
pub open spec fn generated_views(list: Seq<GeneratedTarget>) -> Seq<GeneratedTarget<Seq<u8>>> {
    list.map_values(|target: GeneratedTarget| target@)
}

/// The last of the first `count` places that is at a path.
pub open spec fn place_of(places: Seq<NamedPath<Seq<u8>>>, path: Seq<u8>, count: int) -> Option<int>
    decreases count,
{
    if count <= 0 {
        None
    } else if upath::same_path(places[count - 1].path, path) {
        Some(count - 1)
    } else {
        place_of(places, path, count - 1)
    }
}

/// The canonical path of one target of one rule, where it has one.
pub open spec fn target_path(
    canonical: Seq<Vec<Option<Vec<u8>>>>,
    rule: int,
    target: int,
) -> Option<Seq<u8>> {
    if 0 <= rule < canonical.len() && 0 <= target < canonical[rule]@.len() {
        bstr::opt_view(canonical[rule]@[target])
    } else {
        None
    }
}

/// The first `count` targets of a rule that are modules.
pub open spec fn generated_in_rule(
    places: Seq<NamedPath<Seq<u8>>>,
    canonical: Seq<Vec<Option<Vec<u8>>>>,
    rule: int,
    count: int,
) -> Seq<GeneratedTarget<Seq<u8>>>
    decreases count,
{
    if count <= 0 {
        Seq::empty()
    } else {
        let earlier = generated_in_rule(places, canonical, rule, count - 1);
        match target_path(canonical, rule, count - 1) {
            None => earlier,
            Some(path) => match place_of(places, path, places.len() as int) {
                None => earlier,
                Some(place) => earlier.push(
                    GeneratedTarget {
                        rule: rule as usize,
                        target: (count - 1) as usize,
                        place: place as usize,
                        name: places[place].name,
                    },
                ),
            },
        }
    }
}

/// The targets of the first `count` rules with prerequisites that are modules.
pub open spec fn generated_in(
    places: Seq<NamedPath<Seq<u8>>>,
    canonical: Seq<Vec<Option<Vec<u8>>>>,
    rules: Seq<Rule>,
    count: int,
) -> Seq<GeneratedTarget<Seq<u8>>>
    decreases count,
{
    if count <= 0 {
        Seq::empty()
    } else if rules[count - 1].prerequisites.len() == 0 {
        generated_in(places, canonical, rules, count - 1)
    } else {
        generated_in(places, canonical, rules, count - 1) + generated_in_rule(
            places,
            canonical,
            count - 1,
            rules[count - 1].targets.len() as int,
        )
    }
}

/// How many targets are the module at `place`.
pub open spec fn times(generated: Seq<GeneratedTarget<Seq<u8>>>, place: int) -> nat
    decreases generated.len(),
{
    if generated.len() == 0 {
        0
    } else {
        times(generated.drop_last(), place) + (if generated.last().place == place {
            1nat
        } else {
            0nat
        })
    }
}

/// The first place from `index` on that is not exactly one target.
pub open spec fn miscounted(
    places: Seq<NamedPath<Seq<u8>>>,
    generated: Seq<GeneratedTarget<Seq<u8>>>,
    index: int,
) -> Option<Fault>
    decreases places.len() - index,
{
    if index >= places.len() {
        None
    } else if times(generated, index) != 1 {
        Some(
            ObservationError::TargetCount {
                module: places[index].name,
                count: if times(generated, index) > 255 {
                    255u8
                } else {
                    times(generated, index) as u8
                },
            },
        )
    } else {
        miscounted(places, generated, index + 1)
    }
}

fn find_place(places: &Vec<NamedPath>, path: &[u8]) -> (place: Option<usize>)
    ensures
        match place {
            Some(found) => place_of(place_views(places@), path@, places@.len() as int) == Some(
                found as int,
            ) && found < places@.len(),
            None => place_of(place_views(places@), path@, places@.len() as int) is None,
        },
{
    let ghost all = place_views(places@);
    let mut count: usize = places.len();
    while count > 0
        invariant
            count <= places.len(),
            all == place_views(places@),
            place_of(all, path@, all.len() as int) == place_of(all, path@, count as int),
        decreases count,
    {
        assert(all[count - 1] == places@[count - 1]@);
        if upath::same(places[count - 1].path.as_slice(), path) {
            return Some(count - 1);
        }
        count -= 1;
    }
    None
}

fn match_rule(
    places: &Vec<NamedPath>,
    canonical: &Vec<Vec<Option<Vec<u8>>>>,
    rule: usize,
    targets: usize,
) -> (generated: Vec<GeneratedTarget>)
    ensures
        generated_views(generated@) == generated_in_rule(
            place_views(places@),
            canonical@,
            rule as int,
            targets as int,
        ),
{
    let ghost all = place_views(places@);
    let mut generated: Vec<GeneratedTarget> = Vec::new();
    let mut index: usize = 0;
    assert(generated_views(generated@) =~= Seq::empty());
    while index < targets
        invariant
            index <= targets,
            all == place_views(places@),
            generated_views(generated@) == generated_in_rule(
                all,
                canonical@,
                rule as int,
                index as int,
            ),
        decreases targets - index,
    {
        if rule < canonical.len() && index < canonical[rule].len() {
            if let Some(path) = &canonical[rule][index] {
                if let Some(place) = find_place(places, path.as_slice()) {
                    let ghost before = generated_views(generated@);
                    assert(all[place as int] == places@[place as int]@);
                    let target = GeneratedTarget {
                        rule,
                        target: index,
                        place,
                        name: bstr::copy(places[place].name.as_slice()),
                    };
                    generated.push(target);
                    assert(generated_views(generated@) =~= before.push(target@));
                }
            }
        }
        index += 1;
    }
    generated
}

fn append_generated(target: &mut Vec<GeneratedTarget>, list: Vec<GeneratedTarget>)
    ensures
        generated_views(final(target)@) == generated_views(old(target)@) + generated_views(list@),
{
    let ghost before = target@;
    let ghost added = list@;
    let mut list = list;
    target.append(&mut list);
    assert(generated_views(target@) =~= generated_views(before) + generated_views(added));
}

/// The targets of rules with prerequisites that are modules.
pub fn match_targets(
    places: &Vec<NamedPath>,
    canonical: &Vec<Vec<Option<Vec<u8>>>>,
    depfile: &Depfile,
) -> (generated: Vec<GeneratedTarget>)
    ensures
        generated_views(generated@) == generated_in(
            place_views(places@),
            canonical@,
            depfile@,
            depfile@.len() as int,
        ),
{
    let ghost all = depfile@;
    let mut generated: Vec<GeneratedTarget> = Vec::new();
    let mut index: usize = 0;
    assert(generated_views(generated@) =~= Seq::empty());
    while index < depfile.rules.len()
        invariant
            index <= depfile.rules.len(),
            all == depfile@,
            generated_views(generated@) == generated_in(
                place_views(places@),
                canonical@,
                all,
                index as int,
            ),
        decreases depfile.rules.len() - index,
    {
        let rule = &depfile.rules[index];
        assert(all[index as int] == rule@);
        if !rule.is_dummy() {
            let found = match_rule(places, canonical, index, rule.targets.len());
            append_generated(&mut generated, found);
        }
        index += 1;
    }
    generated
}

fn count_times(generated: &Vec<GeneratedTarget>, place: usize) -> (count: usize)
    ensures
        count == times(generated_views(generated@), place as int),
{
    let ghost all = generated_views(generated@);
    let mut count: usize = 0;
    let mut index: usize = 0;
    assert(all.take(0) =~= Seq::empty());
    while index < generated.len()
        invariant
            index <= generated.len(),
            count <= index,
            all == generated_views(generated@),
            count == times(all.take(index as int), place as int),
        decreases generated.len() - index,
    {
        assert(all.take(index + 1).drop_last() =~= all.take(index as int));
        assert(all.take(index + 1).last() == generated@[index as int]@);
        if generated[index].place == place {
            count += 1;
        }
        index += 1;
    }
    assert(all.take(index as int) =~= all);
    count
}

/// Checks that each place is exactly one target.
pub fn check_counts(places: &Vec<NamedPath>, generated: &Vec<GeneratedTarget>) -> (outcome: Result<
    (),
    ObservationError,
>)
    ensures
        match outcome {
            Ok(_) => miscounted(
                place_views(places@),
                generated_views(generated@),
                0,
            ) is None,
            Err(error) => miscounted(
                place_views(places@),
                generated_views(generated@),
                0,
            ) == Some(error@),
        },
{
    let ghost all = place_views(places@);
    let ghost targets = generated_views(generated@);
    let mut index: usize = 0;
    while index < places.len()
        invariant
            index <= places.len(),
            all == place_views(places@),
            targets == generated_views(generated@),
            miscounted(all, targets, 0) == miscounted(all, targets, index as int),
        decreases places.len() - index,
    {
        assert(all[index as int] == places@[index as int]@);
        let count = count_times(generated, index);
        if count != 1 {
            let shown: u8 = if count > 255 {
                255
            } else {
                count as u8
            };
            return Err(
                ObservationError::TargetCount {
                    module: bstr::copy(places[index].name.as_slice()),
                    count: shown,
                },
            );
        }
        index += 1;
    }
    Ok(())
}

/// Where the modules of a probe are.
pub open spec fn module_places(modules: Seq<ProbeModule<Seq<char>, Seq<u8>, Seq<u8>>>) -> Seq<
    NamedPath<Seq<u8>>,
> {
    modules.map_values(
        |module: ProbeModule<Seq<char>, Seq<u8>, Seq<u8>>|
            NamedPath { path: module.private_path, name: bstr::utf8(module.name) },
    )
}

fn places_of(modules: &Vec<ProbeModule>) -> (places: Vec<NamedPath>)
    ensures
        place_views(places@) == module_places(observation::module_views(modules@)),
{
    let ghost all = module_places(observation::module_views(modules@));
    let mut places: Vec<NamedPath> = Vec::new();
    let mut index: usize = 0;
    assert(place_views(places@) =~= all.take(0));
    while index < modules.len()
        invariant
            index <= modules.len(),
            all == module_places(observation::module_views(modules@)),
            place_views(places@) == all.take(index as int),
        decreases modules.len() - index,
    {
        assert(observation::module_views(modules@)[index as int] == modules@[index as int]@);
        let ghost before = places@;
        let place = NamedPath {
            path: bstr::copy(modules[index].private_path.as_slice()),
            name: bstr::from_str(modules[index].name.as_str()),
        };
        assert(place@ == all[index as int]);
        places.push(place);
        assert(place_views(places@) =~= place_views(before).push(place@));
        assert(place_views(places@) =~= all.take(index + 1));
        index += 1;
    }
    assert(all.take(index as int) =~= all);
    places
}

/// The paths of places.
pub open spec fn place_paths(places: Seq<NamedPath<Seq<u8>>>) -> Seq<Seq<u8>> {
    places.map_values(|place: NamedPath<Seq<u8>>| place.path)
}

/// The paths of places.
pub fn paths_of(places: &Vec<NamedPath>) -> (paths: Vec<Vec<u8>>)
    ensures
        bstr::views(paths@) == place_paths(place_views(places@)),
{
    let ghost all = place_paths(place_views(places@));
    let mut paths: Vec<Vec<u8>> = Vec::new();
    let mut index: usize = 0;
    assert(bstr::views(paths@) =~= all.take(0));
    while index < places.len()
        invariant
            index <= places.len(),
            all == place_paths(place_views(places@)),
            bstr::views(paths@) == all.take(index as int),
        decreases places.len() - index,
    {
        assert(place_views(places@)[index as int] == places@[index as int]@);
        let path = bstr::copy(places[index].path.as_slice());
        paths.push(path);
        assert(bstr::views(paths@) =~= all.take(index + 1));
        index += 1;
    }
    assert(all.take(index as int) =~= all);
    paths
}

/// The modules that a probe wrote, with the targets that they are.
#[derive(Debug)]
pub struct ProbeModules {
    pub modules: Vec<ProbeModule>,
    pub generated_targets: Vec<GeneratedTarget>,
    pub canonical_paths: Vec<Vec<u8>>,
}

/// The contents of a `ProbeModules`.
#[verifier::ext_equal]
pub struct Modules {
    pub modules: Seq<ProbeModule<Seq<char>, Seq<u8>, Seq<u8>>>,
    pub generated_targets: Seq<GeneratedTarget<Seq<u8>>>,
    pub canonical_paths: Seq<Seq<u8>>,
}

impl View for ProbeModules {
    type V = Modules;

    open spec fn view(&self) -> Modules {
        Modules {
            modules: observation::module_views(self.modules@),
            generated_targets: generated_views(self.generated_targets@),
            canonical_paths: bstr::views(self.canonical_paths@),
        }
    }
}

/// The modules that a probe wrote, each of which is exactly one target of its dependency file.
pub open spec fn discovered(
    entries: Seq<ProbeEntry>,
    rules: Seq<Rule>,
    canonical: Seq<Vec<Option<Vec<u8>>>>,
) -> Result<Modules, Fault> {
    match modules_of(entries, entries.len() as int) {
        Err(fault) => Err(fault),
        Ok(modules) => {
            let places = module_places(modules);
            let generated = generated_in(places, canonical, rules, rules.len() as int);
            match miscounted(places, generated, 0) {
                Some(fault) => Err(fault),
                None => Ok(
                    Modules {
                        modules,
                        generated_targets: generated,
                        canonical_paths: place_paths(places),
                    },
                ),
            }
        },
    }
}

/// The modules that a probe wrote, from the entries of its module directory and the canonical paths
/// of the targets of its dependency file.
pub fn discover_probe_modules(
    depfile: &Depfile,
    entries: &Vec<ProbeEntry>,
    canonical: &Vec<Vec<Option<Vec<u8>>>>,
) -> (outcome: Result<ProbeModules, ObservationError>)
    ensures
        match outcome {
            Ok(found) => discovered(entries@, depfile@, canonical@) == Ok::<Modules, Fault>(found@),
            Err(error) => discovered(entries@, depfile@, canonical@) == Err::<Modules, Fault>(
                error@,
            ),
        },
{
    let modules = read_modules(entries)?;
    let places = places_of(&modules);
    let generated_targets = match_targets(&places, canonical, depfile);
    check_counts(&places, &generated_targets)?;
    let canonical_paths = paths_of(&places);
    Ok(ProbeModules { modules, generated_targets, canonical_paths })
}

/// The name of the module that a target is, where it is one.
pub open spec fn generated_name(
    generated: Seq<GeneratedTarget<Seq<u8>>>,
    rule: int,
    target: int,
    index: int,
) -> Option<Seq<u8>>
    decreases generated.len() - index,
{
    if index >= generated.len() {
        None
    } else if generated[index].rule == rule && generated[index].target == target {
        Some(generated[index].name)
    } else {
        generated_name(generated, rule, target, index + 1)
    }
}

fn find_name<'a>(generated: &'a Vec<GeneratedTarget>, rule: usize, target: usize) -> (name: Option<
    &'a Vec<u8>,
>)
    ensures
        match name {
            Some(found) => generated_name(
                generated_views(generated@),
                rule as int,
                target as int,
                0,
            ) == Some(found@),
            None => generated_name(
                generated_views(generated@),
                rule as int,
                target as int,
                0,
            ) is None,
        },
{
    let ghost all = generated_views(generated@);
    let mut index: usize = 0;
    while index < generated.len()
        invariant
            index <= generated.len(),
            all == generated_views(generated@),
            generated_name(all, rule as int, target as int, 0) == generated_name(
                all,
                rule as int,
                target as int,
                index as int,
            ),
        decreases generated.len() - index,
    {
        assert(all[index as int] == generated@[index as int]@);
        if generated[index].rule == rule && generated[index].target == target {
            return Some(&generated[index].name);
        }
        index += 1;
    }
    None
}

/// The targets of a rule: modules by their names, others by their bytes.
pub open spec fn shape_targets(
    targets: Seq<Seq<u8>>,
    rule: int,
    generated: Seq<GeneratedTarget<Seq<u8>>>,
) -> Seq<DepfileTarget<Seq<u8>>> {
    Seq::new(
        targets.len(),
        |at: int|
            match generated_name(generated, rule, at, 0) {
                Some(name) => DepfileTarget::GeneratedModule(name),
                None => DepfileTarget::Ordinary(targets[at]),
            },
    )
}

/// The targets of a rule without prerequisites.
pub open spec fn plain_targets(targets: Seq<Seq<u8>>) -> Seq<DepfileTarget<Seq<u8>>> {
    targets.map_values(|target: Seq<u8>| DepfileTarget::Ordinary(target))
}

/// A module by the name of its file.
pub open spec fn by_file_name(canonical: Seq<u8>) -> Result<DepfilePrerequisite<Seq<u8>>, Fault> {
    match upath::file_name_of(canonical) {
        None => Err(ObservationError::NamelessModule),
        Some(name) => Ok(DepfilePrerequisite::GeneratedModule(name)),
    }
}

/// A prerequisite: a module that this compilation writes by its name, any other by its bytes.
pub open spec fn shape_prerequisite(
    prerequisite: Seq<u8>,
    fact: Option<PathFacts>,
    generated_modules: Seq<Seq<u8>>,
    projection: Projection,
) -> Result<DepfilePrerequisite<Seq<u8>>, Fault> {
    match fact {
        None => Err(ObservationError::MissingFact),
        Some(found) => match found.canonical {
            Err(_) => Ok(DepfilePrerequisite::Ordinary(prerequisite)),
            Ok(canonical) => if upath::lists(generated_modules, canonical@) {
                by_file_name(canonical@)
            } else {
                match projection::module_at(projection.modules, canonical@, 0) {
                    None => Ok(DepfilePrerequisite::Ordinary(prerequisite)),
                    Some(module) => match observation::read_of(canonical@, found.reading) {
                        Err(error) => Err(ObservationError::Read(error)),
                        Ok(content) => if content == (Content {
                            digest: module.digest,
                            size: module.size,
                        }) {
                            by_file_name(canonical@)
                        } else {
                            Ok(DepfilePrerequisite::Ordinary(prerequisite))
                        },
                    },
                }
            },
        },
    }
}

/// The first `count` prerequisites of a rule.
pub open spec fn shape_prerequisites(
    prerequisites: Seq<Seq<u8>>,
    rule: int,
    facts: Seq<Vec<PathFacts>>,
    generated_modules: Seq<Seq<u8>>,
    projection: Projection,
    count: int,
) -> Result<Seq<DepfilePrerequisite<Seq<u8>>>, Fault>
    decreases count,
{
    if count <= 0 {
        Ok(Seq::empty())
    } else {
        match shape_prerequisites(
            prerequisites,
            rule,
            facts,
            generated_modules,
            projection,
            count - 1,
        ) {
            Err(fault) => Err(fault),
            Ok(earlier) => match shape_prerequisite(
                prerequisites[count - 1],
                inputs::fact_at(facts, rule, count - 1),
                generated_modules,
                projection,
            ) {
                Err(fault) => Err(fault),
                Ok(prerequisite) => Ok(earlier.push(prerequisite)),
            },
        }
    }
}

/// The first `count` rules of a dependency file.
pub open spec fn shape_of(
    rules: Seq<Rule>,
    generated: Seq<GeneratedTarget<Seq<u8>>>,
    facts: Seq<Vec<PathFacts>>,
    generated_modules: Seq<Seq<u8>>,
    projection: Projection,
    count: int,
) -> Result<Shape, Fault>
    decreases count,
{
    if count <= 0 {
        Ok(Shape { primary_rules: Seq::empty(), dummy_targets: Seq::empty() })
    } else {
        let rule = rules[count - 1];
        match shape_of(rules, generated, facts, generated_modules, projection, count - 1) {
            Err(fault) => Err(fault),
            Ok(earlier) => if rule.prerequisites.len() == 0 {
                Ok(
                    Shape {
                        dummy_targets: earlier.dummy_targets + plain_targets(rule.targets),
                        ..earlier
                    },
                )
            } else {
                match shape_prerequisites(
                    rule.prerequisites,
                    count - 1,
                    facts,
                    generated_modules,
                    projection,
                    rule.prerequisites.len() as int,
                ) {
                    Err(fault) => Err(fault),
                    Ok(prerequisites) => Ok(
                        Shape {
                            primary_rules: earlier.primary_rules.push(
                                ObservedRule {
                                    targets: shape_targets(rule.targets, count - 1, generated),
                                    prerequisites,
                                },
                            ),
                            ..earlier
                        },
                    ),
                }
            },
        }
    }
}

proof fn lemma_prerequisites_fail(
    prerequisites: Seq<Seq<u8>>,
    rule: int,
    facts: Seq<Vec<PathFacts>>,
    generated_modules: Seq<Seq<u8>>,
    projection: Projection,
    count: int,
    total: int,
)
    requires
        0 <= count <= total,
        shape_prerequisites(
            prerequisites,
            rule,
            facts,
            generated_modules,
            projection,
            count,
        ) is Err,
    ensures
        shape_prerequisites(prerequisites, rule, facts, generated_modules, projection, total)
            == shape_prerequisites(
            prerequisites,
            rule,
            facts,
            generated_modules,
            projection,
            count,
        ),
    decreases total - count,
{
    if count < total {
        lemma_prerequisites_fail(
            prerequisites,
            rule,
            facts,
            generated_modules,
            projection,
            count,
            total - 1,
        );
    }
}

proof fn lemma_shape_fails(
    rules: Seq<Rule>,
    generated: Seq<GeneratedTarget<Seq<u8>>>,
    facts: Seq<Vec<PathFacts>>,
    generated_modules: Seq<Seq<u8>>,
    projection: Projection,
    count: int,
    total: int,
)
    requires
        0 <= count <= total,
        shape_of(rules, generated, facts, generated_modules, projection, count) is Err,
    ensures
        shape_of(rules, generated, facts, generated_modules, projection, total) == shape_of(
            rules,
            generated,
            facts,
            generated_modules,
            projection,
            count,
        ),
    decreases total - count,
{
    if count < total {
        lemma_shape_fails(
            rules,
            generated,
            facts,
            generated_modules,
            projection,
            count,
            total - 1,
        );
    }
}

fn name_prerequisite(canonical: &[u8]) -> (outcome: Result<DepfilePrerequisite, ObservationError>)
    ensures
        match outcome {
            Ok(found) => by_file_name(canonical@) == Ok::<_, Fault>(found@),
            Err(error) => by_file_name(canonical@) == Err::<DepfilePrerequisite<Seq<u8>>, Fault>(
                error@,
            ),
        },
{
    match upath::file_name(canonical) {
        Some(name) => Ok(DepfilePrerequisite::GeneratedModule(name)),
        None => Err(ObservationError::NamelessModule),
    }
}

fn observe_prerequisite(
    prerequisite: &[u8],
    fact: Option<&PathFacts>,
    generated_modules: &Vec<Vec<u8>>,
    projected: &ProjectedOutputs,
) -> (outcome: Result<DepfilePrerequisite, ObservationError>)
    ensures
        match outcome {
            Ok(found) => shape_prerequisite(
                prerequisite@,
                match fact {
                    Some(known) => Some(*known),
                    None => None,
                },
                bstr::views(generated_modules@),
                projected@,
            ) == Ok::<_, Fault>(found@),
            Err(error) => shape_prerequisite(
                prerequisite@,
                match fact {
                    Some(known) => Some(*known),
                    None => None,
                },
                bstr::views(generated_modules@),
                projected@,
            ) == Err::<DepfilePrerequisite<Seq<u8>>, Fault>(error@),
        },
{
    let known = match fact {
        Some(known) => known,
        None => {
            return Err(ObservationError::MissingFact);
        },
    };
    let canonical = match &known.canonical {
        Ok(canonical) => canonical.as_slice(),
        Err(_) => {
            return Ok(DepfilePrerequisite::Ordinary(bstr::copy(prerequisite)));
        },
    };
    if upath::contains(generated_modules, canonical) {
        return name_prerequisite(canonical);
    }
    if let Some(module) = projection::find_module(projected, canonical) {
        return match observation::read_stable(canonical, &known.reading) {
            Err(error) => Err(ObservationError::Read(error)),
            Ok(current) => {
                if digest::same(&current.digest, &module.digest) && current.size == module.size {
                    name_prerequisite(canonical)
                } else {
                    Ok(DepfilePrerequisite::Ordinary(bstr::copy(prerequisite)))
                }
            },
        };
    }
    Ok(DepfilePrerequisite::Ordinary(bstr::copy(prerequisite)))
}

fn observe_prerequisites(
    rule: &DepfileRule,
    number: usize,
    facts: &Vec<Vec<PathFacts>>,
    generated_modules: &Vec<Vec<u8>>,
    projected: &ProjectedOutputs,
) -> (outcome: Result<Vec<DepfilePrerequisite>, ObservationError>)
    ensures
        match outcome {
            Ok(found) => shape_prerequisites(
                rule@.prerequisites,
                number as int,
                facts@,
                bstr::views(generated_modules@),
                projected@,
                rule@.prerequisites.len() as int,
            ) == Ok::<_, Fault>(observation::prerequisite_views(found@)),
            Err(error) => shape_prerequisites(
                rule@.prerequisites,
                number as int,
                facts@,
                bstr::views(generated_modules@),
                projected@,
                rule@.prerequisites.len() as int,
            ) == Err::<Seq<DepfilePrerequisite<Seq<u8>>>, Fault>(error@),
        },
{
    let ghost all = rule@.prerequisites;
    let ghost modules = bstr::views(generated_modules@);
    let mut found: Vec<DepfilePrerequisite> = Vec::new();
    let mut index: usize = 0;
    assert(observation::prerequisite_views(found@) =~= Seq::empty());
    while index < rule.prerequisites.len()
        invariant
            index <= rule.prerequisites.len(),
            all == rule@.prerequisites,
            modules == bstr::views(generated_modules@),
            shape_prerequisites(
                all,
                number as int,
                facts@,
                modules,
                projected@,
                index as int,
            ) == Ok::<_, Fault>(observation::prerequisite_views(found@)),
        decreases rule.prerequisites.len() - index,
    {
        assert(all[index as int] == rule.prerequisites@[index as int]@);
        let fact = inputs::find_fact(facts, number, index);
        match observe_prerequisite(
            rule.prerequisites[index].as_slice(),
            fact,
            generated_modules,
            projected,
        ) {
            Ok(prerequisite) => {
                let ghost before = observation::prerequisite_views(found@);
                found.push(prerequisite);
                assert(observation::prerequisite_views(found@) =~= before.push(prerequisite@));
            },
            Err(error) => {
                proof {
                    lemma_prerequisites_fail(
                        all,
                        number as int,
                        facts@,
                        modules,
                        projected@,
                        index + 1,
                        all.len() as int,
                    );
                }
                return Err(error);
            },
        }
        index += 1;
    }
    Ok(found)
}

fn observe_targets(rule: &DepfileRule, number: usize, generated: &Vec<GeneratedTarget>) -> (targets:
    Vec<DepfileTarget>)
    ensures
        observation::target_views(targets@) == shape_targets(
            rule@.targets,
            number as int,
            generated_views(generated@),
        ),
{
    let ghost all = shape_targets(rule@.targets, number as int, generated_views(generated@));
    let mut targets: Vec<DepfileTarget> = Vec::new();
    let mut index: usize = 0;
    assert(observation::target_views(targets@) =~= all.take(0));
    while index < rule.targets.len()
        invariant
            index <= rule.targets.len(),
            all == shape_targets(rule@.targets, number as int, generated_views(generated@)),
            observation::target_views(targets@) == all.take(index as int),
        decreases rule.targets.len() - index,
    {
        assert(rule@.targets[index as int] == rule.targets@[index as int]@);
        let target = match find_name(generated, number, index) {
            Some(name) => DepfileTarget::GeneratedModule(bstr::copy(name.as_slice())),
            None => DepfileTarget::Ordinary(bstr::copy(rule.targets[index].as_slice())),
        };
        let ghost before = targets@;
        assert(target@ == all[index as int]);
        targets.push(target);
        assert(observation::target_views(targets@) =~= observation::target_views(before).push(
            target@,
        ));
        assert(observation::target_views(targets@) =~= all.take(index + 1));
        index += 1;
    }
    assert(all.take(index as int) =~= all);
    targets
}

fn append_plain(targets: &mut Vec<DepfileTarget>, rule: &DepfileRule)
    ensures
        observation::target_views(final(targets)@) == observation::target_views(old(targets)@)
            + plain_targets(rule@.targets),
{
    let ghost start = observation::target_views(targets@);
    let ghost all = plain_targets(rule@.targets);
    let mut index: usize = 0;
    assert(start + all.take(0) =~= start);
    while index < rule.targets.len()
        invariant
            index <= rule.targets.len(),
            all == plain_targets(rule@.targets),
            observation::target_views(targets@) == start + all.take(index as int),
        decreases rule.targets.len() - index,
    {
        assert(rule@.targets[index as int] == rule.targets@[index as int]@);
        let ghost before = targets@;
        let target = DepfileTarget::Ordinary(bstr::copy(rule.targets[index].as_slice()));
        assert(target@ == all[index as int]);
        targets.push(target);
        assert(observation::target_views(targets@) =~= observation::target_views(before).push(
            target@,
        ));
        assert(observation::target_views(targets@) =~= start + all.take(index + 1));
        index += 1;
    }
    assert(all.take(index as int) =~= all);
}

/// The rules of a dependency file, in which modules of the compilation go by their names.
pub fn depfile_shape(
    depfile: &Depfile,
    generated: &Vec<GeneratedTarget>,
    generated_modules: &Vec<Vec<u8>>,
    projected: &ProjectedOutputs,
    facts: &Vec<Vec<PathFacts>>,
) -> (outcome: Result<DepfileShape, ObservationError>)
    ensures
        match outcome {
            Ok(shape) => shape_of(
                depfile@,
                generated_views(generated@),
                facts@,
                bstr::views(generated_modules@),
                projected@,
                depfile@.len() as int,
            ) == Ok::<Shape, Fault>(shape@),
            Err(error) => shape_of(
                depfile@,
                generated_views(generated@),
                facts@,
                bstr::views(generated_modules@),
                projected@,
                depfile@.len() as int,
            ) == Err::<Shape, Fault>(error@),
        },
{
    let ghost all = depfile@;
    let ghost targets = generated_views(generated@);
    let ghost modules = bstr::views(generated_modules@);
    let mut shape = DepfileShape { primary_rules: Vec::new(), dummy_targets: Vec::new() };
    let mut index: usize = 0;
    assert(shape@.primary_rules =~= Seq::empty());
    assert(shape@.dummy_targets =~= Seq::empty());
    while index < depfile.rules.len()
        invariant
            index <= depfile.rules.len(),
            all == depfile@,
            targets == generated_views(generated@),
            modules == bstr::views(generated_modules@),
            shape_of(all, targets, facts@, modules, projected@, index as int) == Ok::<Shape, Fault>(
                shape@,
            ),
        decreases depfile.rules.len() - index,
    {
        let rule = &depfile.rules[index];
        assert(all[index as int] == rule@);
        if rule.is_dummy() {
            append_plain(&mut shape.dummy_targets, rule);
        } else {
            match observe_prerequisites(rule, index, facts, generated_modules, projected) {
                Ok(prerequisites) => {
                    let ghost before = observation::rule_views(shape.primary_rules@);
                    let observed = ObservedDepfileRule {
                        targets: observe_targets(rule, index, generated),
                        prerequisites,
                    };
                    shape.primary_rules.push(observed);
                    assert(observation::rule_views(shape.primary_rules@) =~= before.push(
                        observed@,
                    ));
                },
                Err(error) => {
                    proof {
                        lemma_shape_fails(
                            all,
                            targets,
                            facts@,
                            modules,
                            projected@,
                            index + 1,
                            all.len() as int,
                        );
                    }
                    return Err(error);
                },
            }
        }
        index += 1;
    }
    Ok(shape)
}

/// The output is the source with line feeds in front of it.
pub open spec fn source_after_line_feeds(output: Seq<u8>, source: Seq<u8>) -> bool {
    output.len() >= source.len() && output.skip(output.len() - source.len()) == source && forall|
        at: int,
    |
        0 <= at < output.len() - source.len() ==> #[trigger] output[at] == 0x0a
}

/// The output is the source with line feeds in front of it.
pub fn output_matches_source_with_newline_prefix(output: &[u8], source: &[u8]) -> (yes: bool)
    ensures
        yes == source_after_line_feeds(output@, source@),
{
    if output.len() < source.len() {
        return false;
    }
    let lead: usize = output.len() - source.len();
    let mut index: usize = 0;
    while index < lead
        invariant
            index <= lead == output.len() - source.len(),
            forall|at: int| 0 <= at < index ==> #[trigger] output@[at] == 0x0a,
        decreases lead - index,
    {
        if output[index] != 0x0a {
            assert(output@[index as int] != 0x0a);
            return false;
        }
        index += 1;
    }
    bstr::same(bstr::skip(output, lead), source)
}

/// Preprocessing left the source as it is, but for line feeds in front of it and a last line feed
/// that the source lacks.
pub open spec fn left_as_is(output: Seq<u8>, source: Seq<u8>) -> bool {
    ||| source_after_line_feeds(output, source)
    ||| !(source.len() > 0 && source.last() == 0x0a) && output.len() > 0 && output.last() == 0x0a
        && source_after_line_feeds(output.drop_last(), source)
}

/// Preprocessing left the source as it is.
pub fn preprocessor_output_is_identity(output: &[u8], source: &[u8]) -> (yes: bool)
    ensures
        yes == left_as_is(output@, source@),
{
    if output_matches_source_with_newline_prefix(output, source) {
        return true;
    }
    if source.len() > 0 && source[source.len() - 1] == 0x0a {
        return false;
    }
    if output.len() == 0 || output[output.len() - 1] != 0x0a {
        return false;
    }
    let trimmed = bstr::take(output, output.len() - 1);
    assert(trimmed@ =~= output@.drop_last());
    output_matches_source_with_newline_prefix(trimmed, source)
}

/// What the preprocessor wrote, by its digests.
pub open spec fn preprocessed(stdout: Seq<u8>, stderr: Seq<u8>, automatic: bool) -> PreprocessorObservation<
    Seq<u8>,
> {
    PreprocessorObservation {
        stdout_digest: digest::blake3_digest(stdout),
        stdout_size: stdout.len() as u64,
        stderr_digest: digest::blake3_digest(stderr),
        stderr_size: stderr.len() as u64,
        automatic_lowercase_source: automatic,
    }
}

fn observe_output(stdout: &[u8], stderr: &[u8], automatic: bool) -> (observed:
    PreprocessorObservation)
    ensures
        observed@ == preprocessed(stdout@, stderr@, automatic),
{
    PreprocessorObservation {
        stdout_digest: digest::hash(stdout),
        stdout_size: stdout.len() as u64,
        stderr_digest: digest::hash(stderr),
        stderr_size: stderr.len() as u64,
        automatic_lowercase_source: automatic,
    }
}

/// What came of running the preprocessor alone.
#[derive(Clone, Debug, PartialEq, Eq)]
pub struct PreprocessorRun {
    pub success: bool,
    pub stdout: Vec<u8>,
    pub stderr: Vec<u8>,
}

/// What the preprocessor of an older compiler wrote, where it succeeded.
pub fn observe_legacy_preprocessing(run: &PreprocessorRun) -> (observed: Option<
    PreprocessorObservation,
>)
    ensures
        observation::preprocessor_view(observed) == (if run.success {
            Some(preprocessed(run.stdout@, run.stderr@, false))
        } else {
            None
        }),
{
    if !run.success {
        return None;
    }
    Some(observe_output(run.stdout.as_slice(), run.stderr.as_slice(), false))
}

/// What the preprocessor wrote, where it succeeded and left the source as it is.
pub fn qualify_automatic_preprocessing(run: &PreprocessorRun, source: &[u8]) -> (observed: Option<
    PreprocessorObservation,
>)
    ensures
        observation::preprocessor_view(observed) == (if run.success && left_as_is(
            run.stdout@,
            source@,
        ) {
            Some(preprocessed(run.stdout@, run.stderr@, true))
        } else {
            None
        }),
{
    if !run.success || !preprocessor_output_is_identity(run.stdout.as_slice(), source) {
        return None;
    }
    Some(observe_output(run.stdout.as_slice(), run.stderr.as_slice(), true))
}

/// How the preprocessor is asked before a compilation is observed.
#[derive(Clone, Copy, Debug, PartialEq, Eq, Structural)]
pub enum PreprocessorQuestion {
    /// It is not asked.
    Nothing,
    /// Whether it hands the source on as it is.
    Identity,
    /// What it makes of the source.
    Observation,
}

/// How the preprocessor is asked: it must leave a source alone that it reads on its own account, and
/// its output is observed where the compiler does not tell all that it looks for.
pub open spec fn question(preprocessing: Preprocessing, major: u32) -> PreprocessorQuestion {
    match preprocessing {
        Preprocessing::Auto => PreprocessorQuestion::Identity,
        Preprocessing::Cpp => if major <= 12 {
            PreprocessorQuestion::Observation
        } else {
            PreprocessorQuestion::Nothing
        },
        _ => PreprocessorQuestion::Nothing,
    }
}

/// How the preprocessor is asked before a compilation is observed.
pub fn preprocessor_question(preprocessing: Preprocessing, major: u32) -> (asked:
    PreprocessorQuestion)
    ensures
        asked == question(preprocessing, major),
{
    match preprocessing {
        Preprocessing::Auto => PreprocessorQuestion::Identity,
        Preprocessing::Cpp => if major <= 12 {
            PreprocessorQuestion::Observation
        } else {
            PreprocessorQuestion::Nothing
        },
        Preprocessing::NoCpp => PreprocessorQuestion::Nothing,
        Preprocessing::Fpreprocessed => PreprocessorQuestion::Nothing,
    }
}

/// Line feeds alone.
pub open spec fn feeds(count: nat) -> Seq<u8> {
    Seq::new(count, |at: int| 0x0au8)
}

/// The preprocessor left a source as it is exactly where it wrote any number of line feeds and the
/// source behind them, and perhaps the last line feed where the source has none.
pub proof fn law_what_leaves_a_source_as_it_is(output: Seq<u8>, source: Seq<u8>, count: nat)
    ensures
        left_as_is(feeds(count) + source, source),
        source.len() == 0 || source.last() != 0x0a ==> left_as_is(
            feeds(count) + source.push(0x0a),
            source,
        ),
        left_as_is(output, source) ==> exists|lead: nat|
            output == #[trigger] feeds(lead) + source || ((source.len() == 0 || source.last()
                != 0x0a) && output == feeds(lead) + source.push(0x0a)),
{
    let plain = feeds(count) + source;
    assert(plain.skip(plain.len() - source.len()) =~= source);
    assert(source_after_line_feeds(plain, source));
    let ended = feeds(count) + source.push(0x0a);
    assert(ended.drop_last() =~= plain);
    assert(ended.last() == 0x0a);
    if left_as_is(output, source) {
        if source_after_line_feeds(output, source) {
            let lead = (output.len() - source.len()) as nat;
            assert(output =~= feeds(lead) + output.skip(lead as int));
        } else {
            let shorter = output.drop_last();
            let lead = (shorter.len() - source.len()) as nat;
            assert(shorter =~= feeds(lead) + shorter.skip(lead as int));
            assert(output =~= shorter.push(0x0a));
            assert(output =~= feeds(lead) + source.push(0x0a));
        }
    }
}

/// The preprocessor has to leave a source alone where nothing says that it should run. Where it
/// runs, what it makes of the source is observed up to release 12 of the compiler.
pub proof fn law_when_the_preprocessor_is_asked(preprocessing: Preprocessing, major: u32)
    ensures
        question(preprocessing, major) is Identity <==> preprocessing == Preprocessing::Auto,
        question(preprocessing, major) is Observation <==> preprocessing == Preprocessing::Cpp
            && major < 13,
{
}

} // verus!
