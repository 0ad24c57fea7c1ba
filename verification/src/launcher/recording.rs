//! Making the record of an observation: the proof that the compiler would select the same files
//! again, with a witness of each of them.
use vstd::prelude::*;

use crate::bstr;
use crate::cache::direct;
use crate::cache::direct::{
    AbsentPathWitness, CompilerWitnessRef, Contents, DIRECT_RECORD_SCHEMA_VERSION, DirectDigest,
    DirectInput, DirectRecord, EncodedOsString, PathWitness, PositiveResolutionWitness,
    PreprocessorShape, ResolutionKind, SearchResolutionWitnesses,
};
use crate::cache::manifest;
use crate::cache::manifest::{Artifact, ArtifactKind, Manifest, ManifestView};
use crate::cache::request;
use crate::cache::request::Pair;
use crate::compiler::gfortran::{DependencyMode, GfortranInvocation, Invocation};
use crate::compiler::resolution;
use crate::compiler::resolution::{
    DependencyObservation, DependencyResolutionKind, Environment, EnvironmentSearchPaths,
    NegativePathWitness, ObservedSearchFeatures, ResolutionContext, ResolutionProof, SearchRoot,
    Selection, Witnesses,
};
use crate::launcher::environment;
use crate::launcher::observation;
use crate::launcher::observation::{
    ExpectedArtifact, InputFile, Observation, Observed, ObservedDependency,
};
use crate::launcher::record;
use crate::upath;

verus! {

broadcast use bstr::lemma_views_push;

/// Why an observation is not recorded.
#[derive(Clone, Copy, Debug, PartialEq, Eq, Structural)]
pub enum RecordError {
    /// Something was not asked of the filesystem.
    MissingFact,
    IncompleteSearch,
    MissingSource,
    UnresolvableSource,
    UnreadableInput,
    Ineligible,
    UncapturedInput,
    UncapturedRoot,
    UnresolvableSelection,
    UnknownInput,
    UncapturedShadow,
    UncapturedSelection,
    UnobservedArtifact,
    InvalidDigest,
    MissingDepfile,
    UnobservedDepfile,
}

/// Paths in order, with one more unless it is among them.
pub open spec fn placed(list: Seq<Seq<u8>>, path: Seq<u8>) -> Seq<Seq<u8>>
    decreases list.len(),
{
    if list.len() == 0 {
        seq![path]
    } else if upath::same_path(list[0], path) {
        list
    } else if upath::path_before(path, list[0]) {
        seq![path] + list
    } else {
        seq![list[0]] + placed(list.skip(1), path)
    }
}

fn place(list: &mut Vec<Vec<u8>>, path: Vec<u8>)
    ensures
        bstr::views(final(list)@) == placed(bstr::views(old(list)@), path@),
{
    let ghost all = bstr::views(list@);
    let ghost item = path@;
    let mut index: usize = 0;
    assert(all.take(0) + placed(all.skip(0), item) =~= placed(all, item)) by {
        assert(all.skip(0) =~= all);
    }
    while index < list.len()
        invariant_except_break
            index <= list.len(),
            all == bstr::views(list@),
            item == path@,
            all.take(index as int) + placed(all.skip(index as int), item) =~= placed(all, item),
        ensures
            index <= list.len(),
            all == bstr::views(list@),
            item == path@,
            placed(all, item) =~= all.insert(index as int, item),
        decreases list.len() - index,
    {
        let ghost rest = all.skip(index as int);
        assert(rest[0] == list@[index as int]@);
        if upath::same(list[index].as_slice(), path.as_slice()) {
            assert(placed(rest, item) == rest);
            assert(all.take(index as int) + rest =~= all);
            return ;
        }
        if upath::less(path.as_slice(), list[index].as_slice()) {
            assert(placed(rest, item) == seq![item] + rest);
            assert(all.take(index as int) + (seq![item] + rest) =~= all.insert(index as int, item));
            break;
        }
        assert(rest.skip(1) =~= all.skip(index + 1));
        assert(all.take(index as int) + (seq![rest[0]] + placed(rest.skip(1), item)) =~= all.take(
            index + 1,
        ) + placed(all.skip(index + 1), item));
        index += 1;
        proof {
            if index == list.len() {
                assert(all.skip(index as int) =~= Seq::empty());
                assert(all.take(index as int) + seq![item] =~= all.insert(index as int, item));
            }
        }
    }
    proof {
        if all.len() == 0 {
            assert(placed(all, item) =~= all.insert(0, item));
        }
    }
    list.insert(index, path);
    assert(bstr::views(list@) =~= all.insert(index as int, item));
}

/// Paths in order, with a directory where there is one.
pub open spec fn with_parent(list: Seq<Seq<u8>>, parent: Option<Seq<u8>>) -> Seq<Seq<u8>> {
    match parent {
        Some(path) => placed(list, path),
        None => list,
    }
}

/// The directories of the first `count` dependencies, without those of the source, in order.
pub open spec fn parents_of(
    dependencies: Seq<ObservedDependency<Seq<u8>>>,
    source: Seq<u8>,
    count: int,
) -> Seq<Seq<u8>>
    decreases count,
{
    if count <= 0 {
        Seq::empty()
    } else {
        let earlier = parents_of(dependencies, source, count - 1);
        let dependency = dependencies[count - 1];
        if upath::same_path(dependency.path, source) {
            earlier
        } else {
            with_parent(
                with_parent(earlier, upath::parent_of(dependency.observed_path)),
                upath::parent_of(dependency.path),
            )
        }
    }
}

fn find_parents(dependencies: &Vec<ObservedDependency>, source: &[u8]) -> (parents: Vec<Vec<u8>>)
    ensures
        bstr::views(parents@) == parents_of(
            observation::dependency_views(dependencies@),
            source@,
            dependencies@.len() as int,
        ),
{
    let ghost all = observation::dependency_views(dependencies@);
    let mut parents: Vec<Vec<u8>> = Vec::new();
    let mut index: usize = 0;
    assert(bstr::views(parents@) =~= Seq::empty());
    while index < dependencies.len()
        invariant
            index <= dependencies.len(),
            all == observation::dependency_views(dependencies@),
            bstr::views(parents@) == parents_of(all, source@, index as int),
        decreases dependencies.len() - index,
    {
        let dependency = &dependencies[index];
        assert(all[index as int] == dependency@);
        if !upath::same(dependency.path.as_slice(), source) {
            if let Some(parent) = upath::parent(dependency.observed_path.as_slice()) {
                place(&mut parents, parent);
            }
            if let Some(parent) = upath::parent(dependency.path.as_slice()) {
                place(&mut parents, parent);
            }
        }
        index += 1;
    }
    parents
}

/// How a dependency was found: as the source, as a module or else as an included file.
pub open spec fn kind_of(path: Seq<u8>, source: Seq<u8>) -> DependencyResolutionKind {
    if upath::same_path(path, source) {
        DependencyResolutionKind::Source
    } else if observation::names_module_file(path) {
        DependencyResolutionKind::ModuleOrInclude
    } else {
        DependencyResolutionKind::Include
    }
}

/// The dependencies, as the search model sees them.
pub open spec fn observations_of(
    dependencies: Seq<ObservedDependency<Seq<u8>>>,
    source: Seq<u8>,
) -> Seq<DependencyObservation<Seq<u8>>> {
    dependencies.map_values(
        |dependency: ObservedDependency<Seq<u8>>|
            DependencyObservation {
                prerequisite: dependency.raw_path,
                resolved_path: dependency.observed_path,
                kind: kind_of(dependency.path, source),
            },
    )
}

fn find_kind(path: &[u8], source: &[u8]) -> (kind: DependencyResolutionKind)
    ensures
        kind == kind_of(path@, source@),
{
    if upath::same(path, source) {
        DependencyResolutionKind::Source
    } else if observation::is_module_path(path) {
        DependencyResolutionKind::ModuleOrInclude
    } else {
        DependencyResolutionKind::Include
    }
}

fn observations(dependencies: &Vec<ObservedDependency>, source: &[u8]) -> (list: Vec<
    DependencyObservation,
>)
    ensures
        resolution::observation_views(list@) == observations_of(
            observation::dependency_views(dependencies@),
            source@,
        ),
{
    let ghost all = observations_of(observation::dependency_views(dependencies@), source@);
    let mut list: Vec<DependencyObservation> = Vec::new();
    let mut index: usize = 0;
    assert(resolution::observation_views(list@) =~= all.take(0));
    while index < dependencies.len()
        invariant
            index <= dependencies.len(),
            all == observations_of(observation::dependency_views(dependencies@), source@),
            resolution::observation_views(list@) == all.take(index as int),
        decreases dependencies.len() - index,
    {
        let dependency = &dependencies[index];
        assert(observation::dependency_views(dependencies@)[index as int] == dependency@);
        let ghost before = list@;
        let observed = DependencyObservation {
            prerequisite: bstr::copy(dependency.raw_path.as_slice()),
            resolved_path: bstr::copy(dependency.observed_path.as_slice()),
            kind: find_kind(dependency.path.as_slice(), source),
        };
        assert(observed@ == all[index as int]);
        list.push(observed);
        assert(resolution::observation_views(list@) =~= resolution::observation_views(before).push(
            observed@,
        ));
        assert(resolution::observation_views(list@) =~= all.take(index + 1));
        index += 1;
    }
    assert(all.take(index as int) =~= all);
    list
}

/// What a scan of the inputs finds.
pub open spec fn features_of(contents: Seq<Seq<u8>>) -> ObservedSearchFeatures {
    ObservedSearchFeatures {
        scan_complete: true,
        include_next: resolution::inputs_mention(contents, bstr::utf8("include_next"@)),
        has_include: resolution::inputs_mention(contents, bstr::utf8("__has_include"@)),
        token_pasting: resolution::inputs_mention(contents, bstr::utf8("##"@)),
    }
}

/// An environment without search paths of its own.
pub open spec fn no_search_paths() -> Environment {
    Environment {
        quote: Seq::empty(),
        includes: Seq::empty(),
        system: Seq::empty(),
        after: Seq::empty(),
        modules: Seq::empty(),
        intrinsic_modules: Seq::empty(),
        complete: true,
    }
}

/// The proof that the compiler would select the same files again.
pub open spec fn proof_of(
    invocation: Invocation,
    cwd: Seq<u8>,
    variables: Seq<Pair<Seq<u8>>>,
    dependencies: Seq<ObservedDependency<Seq<u8>>>,
    source: Result<Vec<u8>, String>,
    contents: Result<Vec<Vec<u8>>, String>,
) -> Result<Witnesses, RecordError> {
    if invocation.forced_inputs.len() > 0 || environment::search_unmodeled(variables) {
        Err(RecordError::IncompleteSearch)
    } else if invocation.source is None {
        Err(RecordError::MissingSource)
    } else {
        match (source, contents) {
            (Err(_), _) => Err(RecordError::UnresolvableSource),
            (_, Err(_)) => Err(RecordError::UnreadableInput),
            (Ok(path), Ok(bytes)) => {
                if resolution::ineligible(
                    invocation,
                    cwd,
                    no_search_paths(),
                    features_of(bstr::views(bytes@)),
                ) is Some {
                    Err(RecordError::Ineligible)
                } else {
                    match resolution::proved(
                        resolution::chains_of(
                            invocation,
                            cwd,
                            parents_of(dependencies, path@, dependencies.len() as int),
                            no_search_paths(),
                        ),
                        observations_of(dependencies, path@),
                    ) {
                        Err(_) => Err(RecordError::Ineligible),
                        Ok(witnesses) => Ok(witnesses),
                    }
                }
            },
        }
    }
}

/// The proof that the compiler would select the same files again, from the canonical path of the
/// source and the contents of the inputs.
pub fn direct_proof(
    invocation: &GfortranInvocation,
    cwd: &[u8],
    variables: &Vec<Pair>,
    observation: &Observation,
    source: &Result<Vec<u8>, String>,
    contents: &Result<Vec<Vec<u8>>, String>,
) -> (outcome: Result<ResolutionProof, RecordError>)
    ensures
        match outcome {
            Ok(found) => proof_of(
                invocation@,
                cwd@,
                request::pair_views(variables@),
                observation@.dependencies,
                *source,
                *contents,
            ) == Ok::<Witnesses, RecordError>(found@),
            Err(error) => proof_of(
                invocation@,
                cwd@,
                request::pair_views(variables@),
                observation@.dependencies,
                *source,
                *contents,
            ) == Err::<Witnesses, RecordError>(error),
        },
{
    if invocation.forced_inputs.len() > 0 || environment::direct_search_environment_is_unmodeled(
        variables,
    ) {
        return Err(RecordError::IncompleteSearch);
    }
    if invocation.source.is_none() {
        return Err(RecordError::MissingSource);
    }
    let path = match source {
        Ok(path) => path,
        Err(_) => {
            return Err(RecordError::UnresolvableSource);
        },
    };
    let bytes = match contents {
        Ok(bytes) => bytes,
        Err(_) => {
            return Err(RecordError::UnreadableInput);
        },
    };
    let features = ObservedSearchFeatures::scan(bytes);
    assert(features == features_of(bstr::views(bytes@)));
    let parents = find_parents(&observation.dependencies, path.as_slice());
    let paths = EnvironmentSearchPaths::complete_empty();
    let model = match invocation.search_resolution_model(
        ResolutionContext {
            cwd,
            include_parents: &parents,
            environment: &paths,
            observed_features: &features,
        },
    ) {
        Ok(model) => model,
        Err(_) => {
            return Err(RecordError::Ineligible);
        },
    };
    let list = observations(&observation.dependencies, path.as_slice());
    match model.prove(&list) {
        Ok(found) => Ok(found),
        Err(_) => Err(RecordError::Ineligible),
    }
}

/// The roots of the first `count` selections, one after the other.
pub open spec fn roots_of(selected: Seq<Selection>, count: int) -> Seq<Seq<u8>>
    decreases count,
{
    if count <= 0 {
        Seq::empty()
    } else {
        roots_of(selected, count - 1) + selected[count - 1].possible_roots.map_values(
            |root: SearchRoot<Seq<u8>>| root.path,
        )
    }
}

/// The roots of all selections, one after the other: each is looked at for a record.
pub fn proof_roots(found: &ResolutionProof) -> (roots: Vec<Vec<u8>>)
    ensures
        bstr::views(roots@) == roots_of(found@.selected, found@.selected.len() as int),
{
    let ghost all = found@.selected;
    let mut roots: Vec<Vec<u8>> = Vec::new();
    let mut index: usize = 0;
    assert(bstr::views(roots@) =~= Seq::empty());
    while index < found.selected.len()
        invariant
            index <= found.selected.len(),
            all == found@.selected,
            bstr::views(roots@) == roots_of(all, index as int),
        decreases found.selected.len() - index,
    {
        let selection = &found.selected[index];
        assert(all[index as int] == selection@);
        let ghost start = bstr::views(roots@);
        let ghost added = selection@.possible_roots.map_values(
            |root: SearchRoot<Seq<u8>>| root.path,
        );
        let mut place: usize = 0;
        assert(start + added.take(0) =~= start);
        while place < selection.possible_roots.len()
            invariant
                place <= selection.possible_roots.len(),
                added == selection@.possible_roots.map_values(
                    |root: SearchRoot<Seq<u8>>| root.path,
                ),
                bstr::views(roots@) == start + added.take(place as int),
            decreases selection.possible_roots.len() - place,
        {
            assert(selection@.possible_roots[place as int]
                == selection.possible_roots@[place as int]@);
            let path = bstr::copy(selection.possible_roots[place].path.as_slice());
            roots.push(path);
            assert(bstr::views(roots@) =~= start + added.take(place + 1));
            place += 1;
        }
        assert(added.take(place as int) =~= added);
        index += 1;
    }
    roots
}

/// The paths that must stay absent for a prerequisite, among the first `count`.
pub open spec fn shadows_of(
    negatives: Seq<NegativePathWitness<Seq<u8>>>,
    prerequisite: Seq<u8>,
    count: int,
) -> Seq<Seq<u8>>
    decreases count,
{
    if count <= 0 {
        Seq::empty()
    } else if negatives[count - 1].prerequisite == prerequisite {
        shadows_of(negatives, prerequisite, count - 1).push(negatives[count - 1].path)
    } else {
        shadows_of(negatives, prerequisite, count - 1)
    }
}

/// The paths that must stay absent for a prerequisite.
pub fn proof_shadows(found: &ResolutionProof, prerequisite: &[u8]) -> (paths: Vec<Vec<u8>>)
    ensures
        bstr::views(paths@) == shadows_of(
            found@.negative_candidates,
            prerequisite@,
            found@.negative_candidates.len() as int,
        ),
{
    let ghost all = found@.negative_candidates;
    let mut paths: Vec<Vec<u8>> = Vec::new();
    let mut index: usize = 0;
    assert(bstr::views(paths@) =~= Seq::empty());
    while index < found.negative_candidates.len()
        invariant
            index <= found.negative_candidates.len(),
            all == found@.negative_candidates,
            bstr::views(paths@) == shadows_of(all, prerequisite@, index as int),
        decreases found.negative_candidates.len() - index,
    {
        let negative = &found.negative_candidates[index];
        assert(all[index as int] == negative@);
        if bstr::same(negative.prerequisite.as_slice(), prerequisite) {
            paths.push(bstr::copy(negative.path.as_slice()));
        }
        index += 1;
    }
    paths
}

/// What is found of a search root.
#[derive(Debug)]
pub struct RootCapture {
    pub is_directory: bool,
    pub witness: Result<PathWitness, String>,
}

/// What is found of a selected file.
#[derive(Debug)]
pub struct SelectionCapture {
    pub canonical: Result<Vec<u8>, String>,
    /// The nearest existing ancestor of each path that must stay absent, where nothing is there.
    pub ancestors: Vec<Result<PathWitness, String>>,
    pub witness: Result<PathWitness, String>,
}

/// What is found of an input.
#[derive(Debug)]
pub struct CapturedInput {
    pub path: PathWitness,
    pub contents: Contents,
}

/// All that is found out from outside for a record.
#[derive(Debug)]
pub struct RecordFacts {
    /// The canonical path of the source.
    pub source: Result<Vec<u8>, String>,
    /// What the inputs hold.
    pub contents: Result<Vec<Vec<u8>>, String>,
    pub inputs: Vec<Result<CapturedInput, String>>,
    /// What is found of each root of the proof.
    pub roots: Vec<RootCapture>,
    /// What is found of each selection of the proof.
    pub selected: Vec<SelectionCapture>,
}

/// The first input from `index` on that was not captured.
pub open spec fn input_fault(
    inputs: Seq<InputFile<Seq<u8>, Seq<u8>>>,
    captures: Seq<Result<CapturedInput, String>>,
    index: int,
) -> Option<RecordError>
    decreases inputs.len() - index,
{
    if index >= inputs.len() {
        None
    } else if index >= captures.len() {
        Some(RecordError::MissingFact)
    } else if captures[index] is Err {
        Some(RecordError::UncapturedInput)
    } else {
        input_fault(inputs, captures, index + 1)
    }
}

/// A recorded input is the observed one with what was captured of it.
pub open spec fn records_input(
    recorded: DirectInput,
    input: InputFile<Seq<u8>, Seq<u8>>,
    capture: Result<CapturedInput, String>,
) -> bool {
    &&& capture is Ok
    &&& recorded.raw_path@ == input.raw_path
    &&& recorded.path == capture->Ok_0.path
    &&& recorded.digest@ == capture->Ok_0.contents.digest@
    &&& recorded.size == capture->Ok_0.contents.size
}

fn record_inputs(inputs: &Vec<InputFile>, captures: Vec<Result<CapturedInput, String>>) -> (outcome:
    Result<Vec<DirectInput>, RecordError>)
    ensures
        match outcome {
            Ok(list) => {
                &&& input_fault(observation::input_views(inputs@), captures@, 0) is None
                &&& list@.len() == inputs@.len()
                &&& forall|at: int|
                    0 <= at < inputs@.len() ==> records_input(
                        #[trigger] list@[at],
                        observation::input_views(inputs@)[at],
                        captures@[at],
                    )
            },
            Err(error) => input_fault(observation::input_views(inputs@), captures@, 0) == Some(
                error,
            ),
        },
{
    let ghost all = observation::input_views(inputs@);
    let ghost found = captures@;
    let mut rest = captures;
    let mut list: Vec<DirectInput> = Vec::new();
    let mut index: usize = 0;
    assert(found.skip(0) =~= found);
    while index < inputs.len()
        invariant
            index <= inputs.len(),
            index <= found.len(),
            all == observation::input_views(inputs@),
            found == captures@,
            rest@ == found.skip(index as int),
            list@.len() == index,
            forall|at: int|
                0 <= at < index ==> records_input(#[trigger] list@[at], all[at], found[at]),
            input_fault(all, found, 0) == input_fault(all, found, index as int),
        decreases inputs.len() - index,
    {
        assert(all[index as int] == inputs@[index as int]@);
        if rest.len() == 0 {
            return Err(RecordError::MissingFact);
        }
        let capture = rest.remove(0);
        assert(capture == found[index as int]);
        assert(rest@ =~= found.skip(index + 1));
        match capture {
            Ok(captured) => {
                list.push(
                    DirectInput::capture(
                        inputs[index].raw_path.as_slice(),
                        captured.path,
                        captured.contents,
                    ),
                );
            },
            Err(_) => {
                return Err(RecordError::UncapturedInput);
            },
        }
        index += 1;
    }
    Ok(list)
}

/// The roots that are recorded: directories, each once.
#[verifier::ext_equal]
pub struct Roots {
    pub seen: Seq<Seq<u8>>,
    pub witnesses: Seq<PathWitness>,
}

/// The roots that are recorded of the first `count`.
pub open spec fn recorded_roots(
    paths: Seq<Seq<u8>>,
    captures: Seq<RootCapture>,
    count: int,
) -> Result<Roots, RecordError>
    decreases count,
{
    if count <= 0 {
        Ok(Roots { seen: Seq::empty(), witnesses: Seq::empty() })
    } else {
        match recorded_roots(paths, captures, count - 1) {
            Err(error) => Err(error),
            Ok(earlier) => if count > captures.len() {
                Err(RecordError::MissingFact)
            } else if !captures[count - 1].is_directory || upath::lists(
                earlier.seen,
                paths[count - 1],
            ) {
                Ok(earlier)
            } else {
                match captures[count - 1].witness {
                    Err(_) => Err(RecordError::UncapturedRoot),
                    Ok(witness) => Ok(
                        Roots {
                            seen: earlier.seen.push(paths[count - 1]),
                            witnesses: earlier.witnesses.push(witness),
                        },
                    ),
                }
            },
        }
    }
}

proof fn lemma_roots_fail(
    paths: Seq<Seq<u8>>,
    captures: Seq<RootCapture>,
    count: int,
    total: int,
)
    requires
        0 <= count <= total,
        recorded_roots(paths, captures, count) is Err,
    ensures
        recorded_roots(paths, captures, total) == recorded_roots(paths, captures, count),
    decreases total - count,
{
    if count < total {
        lemma_roots_fail(paths, captures, count, total - 1);
    }
}

fn record_roots(paths: &Vec<Vec<u8>>, captures: Vec<RootCapture>) -> (outcome: Result<
    Vec<PathWitness>,
    RecordError,
>)
    ensures
        match outcome {
            Ok(list) => recorded_roots(
                bstr::views(paths@),
                captures@,
                paths@.len() as int,
            ) is Ok && list@ == recorded_roots(
                bstr::views(paths@),
                captures@,
                paths@.len() as int,
            )->Ok_0.witnesses,
            Err(error) => recorded_roots(
                bstr::views(paths@),
                captures@,
                paths@.len() as int,
            ) == Err::<Roots, RecordError>(error),
        },
{
    let ghost all = bstr::views(paths@);
    let ghost found = captures@;
    let mut rest = captures;
    let mut seen: Vec<Vec<u8>> = Vec::new();
    let mut list: Vec<PathWitness> = Vec::new();
    let mut index: usize = 0;
    assert(found.skip(0) =~= found);
    assert(bstr::views(seen@) =~= Seq::empty());
    assert(list@ =~= Seq::empty());
    while index < paths.len()
        invariant
            index <= paths.len(),
            index <= found.len(),
            all == bstr::views(paths@),
            found == captures@,
            rest@ == found.skip(index as int),
            recorded_roots(all, found, index as int) == Ok::<Roots, RecordError>(
                Roots { seen: bstr::views(seen@), witnesses: list@ },
            ),
        decreases paths.len() - index,
    {
        assert(all[index as int] == paths@[index as int]@);
        if rest.len() == 0 {
            proof {
                lemma_roots_fail(all, found, index + 1, all.len() as int);
            }
            return Err(RecordError::MissingFact);
        }
        let capture = rest.remove(0);
        assert(capture == found[index as int]);
        assert(rest@ =~= found.skip(index + 1));
        if capture.is_directory && !upath::contains(&seen, paths[index].as_slice()) {
            match capture.witness {
                Ok(witness) => {
                    seen.push(bstr::copy(paths[index].as_slice()));
                    list.push(witness);
                },
                Err(_) => {
                    proof {
                        lemma_roots_fail(all, found, index + 1, all.len() as int);
                    }
                    return Err(RecordError::UncapturedRoot);
                },
            }
        }
        index += 1;
    }
    Ok(list)
}

/// Where a selected file is among the inputs.
pub open spec fn position_of(
    inputs: Seq<InputFile<Seq<u8>, Seq<u8>>>,
    canonical: Seq<u8>,
    selected: Seq<u8>,
    index: int,
) -> Option<int>
    decreases inputs.len() - index,
{
    if index >= inputs.len() {
        None
    } else if upath::same_path(inputs[index].path, canonical) || upath::same_path(
        inputs[index].path,
        selected,
    ) {
        Some(index)
    } else {
        position_of(inputs, canonical, selected, index + 1)
    }
}

fn find_position(inputs: &Vec<InputFile>, canonical: &[u8], selected: &[u8]) -> (position: Option<
    usize,
>)
    ensures
        match position {
            Some(found) => position_of(
                observation::input_views(inputs@),
                canonical@,
                selected@,
                0,
            ) == Some(found as int),
            None => position_of(
                observation::input_views(inputs@),
                canonical@,
                selected@,
                0,
            ) is None,
        },
{
    let ghost all = observation::input_views(inputs@);
    let mut index: usize = 0;
    while index < inputs.len()
        invariant
            index <= inputs.len(),
            all == observation::input_views(inputs@),
            position_of(all, canonical@, selected@, 0) == position_of(
                all,
                canonical@,
                selected@,
                index as int,
            ),
        decreases inputs.len() - index,
    {
        assert(all[index as int] == inputs@[index as int]@);
        if upath::same(inputs[index].path.as_slice(), canonical) || upath::same(
            inputs[index].path.as_slice(),
            selected,
        ) {
            return Some(index);
        }
        index += 1;
    }
    None
}

/// The kind under which a selection is recorded.
pub open spec fn recorded_kind(kind: DependencyResolutionKind) -> ResolutionKind {
    match kind {
        DependencyResolutionKind::Source => ResolutionKind::Source,
        DependencyResolutionKind::Include => ResolutionKind::Include,
        DependencyResolutionKind::ForcedInput(_) => ResolutionKind::ForcedInput,
        DependencyResolutionKind::Module => ResolutionKind::Module,
        DependencyResolutionKind::Submodule => ResolutionKind::Submodule,
        DependencyResolutionKind::IntrinsicModule => ResolutionKind::IntrinsicModule,
        DependencyResolutionKind::ModuleOrInclude => ResolutionKind::ModuleOrInclude,
    }
}

/// The kind under which a selection is recorded.
pub fn direct_resolution_kind(kind: DependencyResolutionKind) -> (recorded: ResolutionKind)
    ensures
        recorded == recorded_kind(kind),
{
    match kind {
        DependencyResolutionKind::Source => ResolutionKind::Source,
        DependencyResolutionKind::Include => ResolutionKind::Include,
        DependencyResolutionKind::ForcedInput(_) => ResolutionKind::ForcedInput,
        DependencyResolutionKind::Module => ResolutionKind::Module,
        DependencyResolutionKind::Submodule => ResolutionKind::Submodule,
        DependencyResolutionKind::IntrinsicModule => ResolutionKind::IntrinsicModule,
        DependencyResolutionKind::ModuleOrInclude => ResolutionKind::ModuleOrInclude,
    }
}

/// The first path from `index` on that was not found absent.
pub open spec fn shadow_fault(
    paths: Seq<Seq<u8>>,
    ancestors: Seq<Result<PathWitness, String>>,
    index: int,
) -> Option<RecordError>
    decreases paths.len() - index,
{
    if index >= paths.len() {
        None
    } else if index >= ancestors.len() {
        Some(RecordError::MissingFact)
    } else if ancestors[index] is Err {
        Some(RecordError::UncapturedShadow)
    } else {
        shadow_fault(paths, ancestors, index + 1)
    }
}

/// The recorded absent paths are those of the proof.
pub open spec fn records_shadows(
    recorded: Seq<AbsentPathWitness>,
    paths: Seq<Seq<u8>>,
    ancestors: Seq<Result<PathWitness, String>>,
) -> bool {
    &&& recorded.len() == paths.len()
    &&& forall|at: int|
        0 <= at < paths.len() ==> {
            &&& (#[trigger] recorded[at]).path@ == paths[at]
            &&& ancestors[at] == Ok::<PathWitness, String>(recorded[at].nearest_existing_ancestor)
        }
}

fn record_shadows(paths: Vec<Vec<u8>>, ancestors: Vec<Result<PathWitness, String>>) -> (outcome:
    Result<Vec<AbsentPathWitness>, RecordError>)
    ensures
        match outcome {
            Ok(list) => shadow_fault(bstr::views(paths@), ancestors@, 0) is None && records_shadows(
                list@,
                bstr::views(paths@),
                ancestors@,
            ),
            Err(error) => shadow_fault(bstr::views(paths@), ancestors@, 0) == Some(error),
        },
{
    let ghost all = bstr::views(paths@);
    let ghost found = ancestors@;
    let mut rest = ancestors;
    let mut list: Vec<AbsentPathWitness> = Vec::new();
    let mut index: usize = 0;
    assert(found.skip(0) =~= found);
    while index < paths.len()
        invariant
            index <= paths.len(),
            index <= found.len(),
            all == bstr::views(paths@),
            found == ancestors@,
            rest@ == found.skip(index as int),
            list@.len() == index,
            forall|at: int|
                0 <= at < index ==> {
                    &&& (#[trigger] list@[at]).path@ == all[at]
                    &&& found[at] == Ok::<PathWitness, String>(
                        list@[at].nearest_existing_ancestor,
                    )
                },
            shadow_fault(all, found, 0) == shadow_fault(all, found, index as int),
        decreases paths.len() - index,
    {
        assert(all[index as int] == paths@[index as int]@);
        if rest.len() == 0 {
            return Err(RecordError::MissingFact);
        }
        let ancestor = rest.remove(0);
        assert(ancestor == found[index as int]);
        assert(rest@ =~= found.skip(index + 1));
        match ancestor {
            Ok(witness) => {
                let path = bstr::copy(paths[index].as_slice());
                list.push(AbsentPathWitness::capture(path, witness));
            },
            Err(_) => {
                return Err(RecordError::UncapturedShadow);
            },
        }
        index += 1;
    }
    Ok(list)
}

/// The paths that must stay absent for a selection.
pub open spec fn shadows_for(found: Witnesses, selection: Selection) -> Seq<Seq<u8>> {
    shadows_of(
        found.negative_candidates,
        selection.prerequisite,
        found.negative_candidates.len() as int,
    )
}

/// What keeps a selection from being recorded.
pub open spec fn one_selection_fault(
    found: Witnesses,
    selection: Selection,
    capture: SelectionCapture,
    inputs: Seq<InputFile<Seq<u8>, Seq<u8>>>,
) -> Option<RecordError> {
    match capture.canonical {
        Err(_) => Some(RecordError::UnresolvableSelection),
        Ok(canonical) => if position_of(inputs, canonical@, selection.selected_path, 0) is None {
            Some(RecordError::UnknownInput)
        } else if shadow_fault(shadows_for(found, selection), capture.ancestors@, 0) is Some {
            shadow_fault(shadows_for(found, selection), capture.ancestors@, 0)
        } else if capture.witness is Err {
            Some(RecordError::UncapturedSelection)
        } else {
            None
        },
    }
}

/// A recorded selection is that of the proof, with what was captured of it.
pub open spec fn records_selection(
    recorded: PositiveResolutionWitness,
    found: Witnesses,
    selection: Selection,
    capture: SelectionCapture,
    inputs: Seq<InputFile<Seq<u8>, Seq<u8>>>,
) -> bool {
    &&& recorded.kind == recorded_kind(selection.kind)
    &&& recorded.requested_name@ == selection.prerequisite
    &&& position_of(inputs, capture.canonical->Ok_0@, selection.selected_path, 0) == Some(
        recorded.selected_input as int,
    )
    &&& capture.witness == Ok::<PathWitness, String>(recorded.selected_path)
    &&& records_shadows(
        recorded.earlier_candidates@,
        shadows_for(found, selection),
        capture.ancestors@,
    )
}

fn record_selection(
    found: &ResolutionProof,
    index: usize,
    capture: SelectionCapture,
    inputs: &Vec<InputFile>,
) -> (outcome: Result<PositiveResolutionWitness, RecordError>)
    requires
        index < found.selected@.len(),
    ensures
        match outcome {
            Ok(recorded) => one_selection_fault(
                found@,
                found@.selected[index as int],
                capture,
                observation::input_views(inputs@),
            ) is None && records_selection(
                recorded,
                found@,
                found@.selected[index as int],
                capture,
                observation::input_views(inputs@),
            ),
            Err(error) => one_selection_fault(
                found@,
                found@.selected[index as int],
                capture,
                observation::input_views(inputs@),
            ) == Some(error),
        },
{
    let selection = &found.selected[index];
    assert(found@.selected[index as int] == selection@);
    let canonical = match capture.canonical {
        Ok(canonical) => canonical,
        Err(_) => {
            return Err(RecordError::UnresolvableSelection);
        },
    };
    let selected_input = match find_position(
        inputs,
        canonical.as_slice(),
        selection.selected_path.as_slice(),
    ) {
        Some(position) => position,
        None => {
            return Err(RecordError::UnknownInput);
        },
    };
    let paths = proof_shadows(found, selection.prerequisite.as_slice());
    let earlier_candidates = record_shadows(paths, capture.ancestors)?;
    match capture.witness {
        Ok(selected_path) => Ok(
            PositiveResolutionWitness {
                kind: direct_resolution_kind(selection.kind),
                requested_name: EncodedOsString::from_os_str(selection.prerequisite.as_slice()),
                selected_input,
                selected_path,
                earlier_candidates,
            },
        ),
        Err(_) => Err(RecordError::UncapturedSelection),
    }
}

/// What keeps the selections from `index` on from being recorded.
pub open spec fn selection_fault(
    found: Witnesses,
    captures: Seq<SelectionCapture>,
    inputs: Seq<InputFile<Seq<u8>, Seq<u8>>>,
    index: int,
) -> Option<RecordError>
    decreases found.selected.len() - index,
{
    if index >= found.selected.len() {
        None
    } else if index >= captures.len() {
        Some(RecordError::MissingFact)
    } else if one_selection_fault(
        found,
        found.selected[index],
        captures[index],
        inputs,
    ) is Some {
        one_selection_fault(found, found.selected[index], captures[index], inputs)
    } else {
        selection_fault(found, captures, inputs, index + 1)
    }
}

fn record_selections(
    found: &ResolutionProof,
    captures: Vec<SelectionCapture>,
    inputs: &Vec<InputFile>,
) -> (outcome: Result<Vec<PositiveResolutionWitness>, RecordError>)
    ensures
        match outcome {
            Ok(list) => {
                &&& selection_fault(
                    found@,
                    captures@,
                    observation::input_views(inputs@),
                    0,
                ) is None
                &&& list@.len() == found@.selected.len()
                &&& forall|at: int|
                    0 <= at < list@.len() ==> records_selection(
                        #[trigger] list@[at],
                        found@,
                        found@.selected[at],
                        captures@[at],
                        observation::input_views(inputs@),
                    )
            },
            Err(error) => selection_fault(
                found@,
                captures@,
                observation::input_views(inputs@),
                0,
            ) == Some(error),
        },
{
    let ghost all = observation::input_views(inputs@);
    let ghost given = captures@;
    let mut rest = captures;
    let mut list: Vec<PositiveResolutionWitness> = Vec::new();
    let mut index: usize = 0;
    assert(given.skip(0) =~= given);
    while index < found.selected.len()
        invariant
            index <= found.selected.len(),
            index <= given.len(),
            all == observation::input_views(inputs@),
            given == captures@,
            rest@ == given.skip(index as int),
            list@.len() == index,
            forall|at: int|
                0 <= at < index ==> records_selection(
                    #[trigger] list@[at],
                    found@,
                    found@.selected[at],
                    given[at],
                    all,
                ),
            selection_fault(found@, given, all, 0) == selection_fault(
                found@,
                given,
                all,
                index as int,
            ),
        decreases found.selected.len() - index,
    {
        if rest.len() == 0 {
            return Err(RecordError::MissingFact);
        }
        let capture = rest.remove(0);
        assert(capture == given[index as int]);
        assert(rest@ =~= given.skip(index + 1));
        let recorded = record_selection(found, index, capture, inputs)?;
        list.push(recorded);
        index += 1;
    }
    Ok(list)
}

/// The output of a name.
pub open spec fn output_named(
    outputs: Seq<ExpectedArtifact<Seq<char>, Seq<u8>, Seq<u8>>>,
    name: Seq<char>,
    index: int,
) -> Option<ExpectedArtifact<Seq<char>, Seq<u8>, Seq<u8>>>
    decreases outputs.len() - index,
{
    if index >= outputs.len() {
        None
    } else if outputs[index].logical_name == name {
        Some(outputs[index])
    } else {
        output_named(outputs, name, index + 1)
    }
}

fn find_output<'a>(outputs: &'a Vec<ExpectedArtifact>, name: &String) -> (output: Option<
    &'a ExpectedArtifact,
>)
    ensures
        match output {
            Some(found) => output_named(observation::output_views(outputs@), name@, 0) == Some(
                found@,
            ),
            None => output_named(observation::output_views(outputs@), name@, 0) is None,
        },
{
    let ghost all = observation::output_views(outputs@);
    let mut index: usize = 0;
    while index < outputs.len()
        invariant
            index <= outputs.len(),
            all == observation::output_views(outputs@),
            output_named(all, name@, 0) == output_named(all, name@, index as int),
        decreases outputs.len() - index,
    {
        assert(all[index as int] == outputs@[index as int]@);
        if outputs[index].logical_name == *name {
            return Some(&outputs[index]);
        }
        index += 1;
    }
    None
}

/// What keeps the artifacts from `index` on from being recorded.
pub open spec fn artifact_fault(
    artifacts: Seq<Artifact<Seq<char>>>,
    outputs: Seq<ExpectedArtifact<Seq<char>, Seq<u8>, Seq<u8>>>,
    index: int,
) -> Option<RecordError>
    decreases artifacts.len() - index,
{
    if index >= artifacts.len() {
        None
    } else if output_named(outputs, artifacts[index].logical_name, 0) is None {
        Some(RecordError::UnobservedArtifact)
    } else if direct::digest_of(bstr::utf8(artifacts[index].blob.digest)) is None {
        Some(RecordError::InvalidDigest)
    } else {
        artifact_fault(artifacts, outputs, index + 1)
    }
}

/// A recorded artifact is that of the manifest, at the path of the observed output.
pub open spec fn records_artifact(
    recorded: direct::ExpectedArtifact,
    artifact: Artifact<Seq<char>>,
    outputs: Seq<ExpectedArtifact<Seq<char>, Seq<u8>, Seq<u8>>>,
) -> bool {
    &&& recorded.kind == artifact.kind
    &&& recorded.logical_name@ == artifact.logical_name
    &&& recorded.destination@ == output_named(outputs, artifact.logical_name, 0)->0.path
    &&& direct::digest_of(bstr::utf8(artifact.blob.digest)) == Some(recorded.digest@)
    &&& recorded.size == artifact.blob.size
    &&& recorded.mode == artifact.blob.mode
}

fn record_artifacts(artifacts: &Vec<Artifact>, outputs: &Vec<ExpectedArtifact>) -> (outcome: Result<
    Vec<direct::ExpectedArtifact>,
    RecordError,
>)
    ensures
        match outcome {
            Ok(list) => {
                &&& artifact_fault(
                    manifest::artifact_views(artifacts@),
                    observation::output_views(outputs@),
                    0,
                ) is None
                &&& list@.len() == artifacts@.len()
                &&& forall|at: int|
                    0 <= at < list@.len() ==> records_artifact(
                        #[trigger] list@[at],
                        manifest::artifact_views(artifacts@)[at],
                        observation::output_views(outputs@),
                    )
            },
            Err(error) => artifact_fault(
                manifest::artifact_views(artifacts@),
                observation::output_views(outputs@),
                0,
            ) == Some(error),
        },
{
    let ghost all = manifest::artifact_views(artifacts@);
    let ghost known = observation::output_views(outputs@);
    let mut list: Vec<direct::ExpectedArtifact> = Vec::new();
    let mut index: usize = 0;
    while index < artifacts.len()
        invariant
            index <= artifacts.len(),
            all == manifest::artifact_views(artifacts@),
            known == observation::output_views(outputs@),
            list@.len() == index,
            forall|at: int|
                0 <= at < index ==> records_artifact(#[trigger] list@[at], all[at], known),
            artifact_fault(all, known, 0) == artifact_fault(all, known, index as int),
        decreases artifacts.len() - index,
    {
        let artifact = &artifacts[index];
        assert(all[index as int] == artifact@);
        let output = match find_output(outputs, &artifact.logical_name) {
            Some(output) => output,
            None => {
                return Err(RecordError::UnobservedArtifact);
            },
        };
        let digest = match DirectDigest::parse(artifact.blob.digest.as_str()) {
            Ok(digest) => digest,
            Err(_) => {
                return Err(RecordError::InvalidDigest);
            },
        };
        list.push(
            direct::ExpectedArtifact {
                kind: artifact.kind,
                logical_name: artifact.logical_name.clone(),
                destination: EncodedOsString::from_path(output.path.as_slice()),
                digest,
                size: artifact.blob.size,
                mode: artifact.blob.mode,
            },
        );
        index += 1;
    }
    Ok(list)
}

/// The first dependency file among the artifacts of a manifest.
pub open spec fn dependency_artifact(artifacts: Seq<Artifact<Seq<char>>>, index: int) -> Option<
    Artifact<Seq<char>>,
>
    decreases artifacts.len() - index,
{
    if index >= artifacts.len() {
        None
    } else if artifacts[index].kind is Dependency {
        Some(artifacts[index])
    } else {
        dependency_artifact(artifacts, index + 1)
    }
}

fn find_dependency_artifact<'a>(artifacts: &'a Vec<Artifact>) -> (artifact: Option<&'a Artifact>)
    ensures
        match artifact {
            Some(found) => dependency_artifact(manifest::artifact_views(artifacts@), 0) == Some(
                found@,
            ),
            None => dependency_artifact(manifest::artifact_views(artifacts@), 0) is None,
        },
{
    let ghost all = manifest::artifact_views(artifacts@);
    let mut index: usize = 0;
    while index < artifacts.len()
        invariant
            index <= artifacts.len(),
            all == manifest::artifact_views(artifacts@),
            dependency_artifact(all, 0) == dependency_artifact(all, index as int),
        decreases artifacts.len() - index,
    {
        assert(all[index as int] == artifacts@[index as int]@);
        if matches!(artifacts[index].kind, ArtifactKind::Dependency) {
            return Some(&artifacts[index]);
        }
        index += 1;
    }
    None
}

/// The first dependency file among the outputs.
pub open spec fn dependency_output(
    outputs: Seq<ExpectedArtifact<Seq<char>, Seq<u8>, Seq<u8>>>,
    index: int,
) -> Option<ExpectedArtifact<Seq<char>, Seq<u8>, Seq<u8>>>
    decreases outputs.len() - index,
{
    if index >= outputs.len() {
        None
    } else if outputs[index].kind is Dependency {
        Some(outputs[index])
    } else {
        dependency_output(outputs, index + 1)
    }
}

fn find_dependency_output<'a>(outputs: &'a Vec<ExpectedArtifact>) -> (output: Option<
    &'a ExpectedArtifact,
>)
    ensures
        match output {
            Some(found) => dependency_output(observation::output_views(outputs@), 0) == Some(
                found@,
            ),
            None => dependency_output(observation::output_views(outputs@), 0) is None,
        },
{
    let ghost all = observation::output_views(outputs@);
    let mut index: usize = 0;
    while index < outputs.len()
        invariant
            index <= outputs.len(),
            all == observation::output_views(outputs@),
            dependency_output(all, 0) == dependency_output(all, index as int),
        decreases outputs.len() - index,
    {
        assert(all[index as int] == outputs@[index as int]@);
        if matches!(outputs[index].kind, ArtifactKind::Dependency) {
            return Some(&outputs[index]);
        }
        index += 1;
    }
    None
}

/// What keeps the dependency file from being recorded.
pub open spec fn depfile_fault(
    mode: Option<DependencyMode>,
    artifacts: Seq<Artifact<Seq<char>>>,
    outputs: Seq<ExpectedArtifact<Seq<char>, Seq<u8>, Seq<u8>>>,
) -> Option<RecordError> {
    if mode is None {
        None
    } else if dependency_artifact(artifacts, 0) is None {
        Some(RecordError::MissingDepfile)
    } else if dependency_output(outputs, 0) is None {
        Some(RecordError::UnobservedDepfile)
    } else if direct::digest_of(
        bstr::utf8(dependency_artifact(artifacts, 0)->0.blob.digest),
    ) is None {
        Some(RecordError::InvalidDigest)
    } else {
        None
    }
}

/// The recorded dependency file is that of the manifest, at the path of the observed output, with
/// the rules of the probe.
pub open spec fn records_depfile(
    recorded: Option<direct::DepfileShape>,
    invocation: Invocation,
    observed: Observed,
    artifacts: Seq<Artifact<Seq<char>>>,
) -> bool {
    match (invocation.dependency_mode, recorded) {
        (None, None) => true,
        (Some(mode), Some(shape)) => {
            let artifact = dependency_artifact(artifacts, 0)->0;
            &&& shape.mode == (match mode {
                DependencyMode::Md => direct::DependencyMode::Md,
                DependencyMode::Mmd => direct::DependencyMode::Mmd,
            })
            &&& shape.destination@ == dependency_output(observed.outputs, 0)->0.path
            &&& shape.target_modifiers@.map_values(|value: EncodedOsString| value@)
                == invocation.dependency_target_modifiers
            &&& record::rules_of(shape.rules@) == record::recorded_rules(observed.depfile_shape)
            &&& direct::digest_of(bstr::utf8(artifact.blob.digest)) == Some(shape.digest@)
            &&& shape.size == artifact.blob.size
        },
        _ => false,
    }
}

fn encode_modifiers(modifiers: &Vec<Vec<u8>>) -> (list: Vec<EncodedOsString>)
    ensures
        list@.map_values(|value: EncodedOsString| value@) == bstr::views(modifiers@),
{
    let mut list: Vec<EncodedOsString> = Vec::new();
    let mut index: usize = 0;
    while index < modifiers.len()
        invariant
            index <= modifiers.len(),
            list@.len() == index,
            forall|at: int| 0 <= at < index ==> (#[trigger] list@[at])@ == modifiers@[at]@,
        decreases modifiers.len() - index,
    {
        list.push(EncodedOsString::from_os_str(modifiers[index].as_slice()));
        index += 1;
    }
    assert(list@.map_values(|value: EncodedOsString| value@) =~= bstr::views(modifiers@));
    list
}

/// The dependency file that is recorded.
pub fn build_direct_depfile(
    invocation: &GfortranInvocation,
    observation: &Observation,
    manifest: &Manifest,
) -> (outcome: Result<Option<direct::DepfileShape>, RecordError>)
    ensures
        match outcome {
            Ok(recorded) => depfile_fault(
                invocation@.dependency_mode,
                manifest@.artifacts,
                observation@.outputs,
            ) is None && records_depfile(
                recorded,
                invocation@,
                observation@,
                manifest@.artifacts,
            ),
            Err(error) => depfile_fault(
                invocation@.dependency_mode,
                manifest@.artifacts,
                observation@.outputs,
            ) == Some(error),
        },
{
    let mode = match invocation.dependency_mode {
        Some(mode) => mode,
        None => {
            return Ok(None);
        },
    };
    let artifact = match find_dependency_artifact(&manifest.artifacts) {
        Some(artifact) => artifact,
        None => {
            return Err(RecordError::MissingDepfile);
        },
    };
    let output = match find_dependency_output(&observation.outputs) {
        Some(output) => output,
        None => {
            return Err(RecordError::UnobservedDepfile);
        },
    };
    let digest = match DirectDigest::parse(artifact.blob.digest.as_str()) {
        Ok(digest) => digest,
        Err(_) => {
            return Err(RecordError::InvalidDigest);
        },
    };
    Ok(
        Some(
            direct::DepfileShape {
                mode: match mode {
                    DependencyMode::Md => direct::DependencyMode::Md,
                    DependencyMode::Mmd => direct::DependencyMode::Mmd,
                },
                destination: EncodedOsString::from_path(output.path.as_slice()),
                target_modifiers: encode_modifiers(&invocation.dependency_target_modifiers),
                rules: record::direct_probe_rules(observation),
                digest,
                size: artifact.blob.size,
            },
        ),
    )
}

/// What keeps an observation from being recorded.
pub open spec fn record_fault(
    invocation: Invocation,
    cwd: Seq<u8>,
    variables: Seq<Pair<Seq<u8>>>,
    observed: Observed,
    manifest: ManifestView,
    facts: RecordFacts,
) -> Option<RecordError> {
    match proof_of(
        invocation,
        cwd,
        variables,
        observed.dependencies,
        facts.source,
        facts.contents,
    ) {
        Err(error) => Some(error),
        Ok(found) => {
            let roots = roots_of(found.selected, found.selected.len() as int);
            if input_fault(observed.inputs, facts.inputs@, 0) is Some {
                input_fault(observed.inputs, facts.inputs@, 0)
            } else if recorded_roots(roots, facts.roots@, roots.len() as int) is Err {
                Some(recorded_roots(roots, facts.roots@, roots.len() as int)->Err_0)
            } else if selection_fault(found, facts.selected@, observed.inputs, 0) is Some {
                selection_fault(found, facts.selected@, observed.inputs, 0)
            } else if artifact_fault(manifest.artifacts, observed.outputs, 0) is Some {
                artifact_fault(manifest.artifacts, observed.outputs, 0)
            } else {
                depfile_fault(
                    invocation.dependency_mode,
                    manifest.artifacts,
                    observed.outputs,
                )
            }
        },
    }
}

/// A record holds an observation, with the proof for it and the result in a manifest.
pub open spec fn records(
    recorded: DirectRecord,
    invocation: Invocation,
    cwd: Seq<u8>,
    variables: Seq<Pair<Seq<u8>>>,
    observed: Observed,
    manifest: ManifestView,
    facts: RecordFacts,
) -> bool {
    let found = proof_of(
        invocation,
        cwd,
        variables,
        observed.dependencies,
        facts.source,
        facts.contents,
    )->Ok_0;
    let roots = roots_of(found.selected, found.selected.len() as int);
    &&& recorded.schema_version == DIRECT_RECORD_SCHEMA_VERSION
    &&& recorded.inputs@.len() == observed.inputs.len()
    &&& forall|at: int|
        0 <= at < observed.inputs.len() ==> records_input(
            #[trigger] recorded.inputs@[at],
            observed.inputs[at],
            facts.inputs@[at],
        )
    &&& recorded.resolution.roots@ == recorded_roots(
        roots,
        facts.roots@,
        roots.len() as int,
    )->Ok_0.witnesses
    &&& recorded.resolution.positive@.len() == found.selected.len()
    &&& forall|at: int|
        0 <= at < found.selected.len() ==> records_selection(
            #[trigger] recorded.resolution.positive@[at],
            found,
            found.selected[at],
            facts.selected@[at],
            observed.inputs,
        )
    &&& recorded.resolution.negative@.len() == 0
    &&& recorded.expected_artifacts@.len() == manifest.artifacts.len()
    &&& forall|at: int|
        0 <= at < manifest.artifacts.len() ==> records_artifact(
            #[trigger] recorded.expected_artifacts@[at],
            manifest.artifacts[at],
            observed.outputs,
        )
    &&& record::rules_of(recorded.probe_rules@) == record::recorded_rules(observed.depfile_shape)
    &&& records_depfile(recorded.depfile, invocation, observed, manifest.artifacts)
    &&& record::preprocessor_of(recorded.preprocessor) == observed.preprocessor
    &&& recorded.action_key@ == manifest.action_key
}

/// The record of an observation. `context_digest` and `compiler_digest` identify the compiler.
pub fn build_direct_record(
    invocation: &GfortranInvocation,
    cwd: &[u8],
    variables: &Vec<Pair>,
    context_digest: [u8; 32],
    compiler_digest: [u8; 32],
    observation: &Observation,
    manifest: &Manifest,
    facts: RecordFacts,
) -> (outcome: Result<DirectRecord, RecordError>)
    ensures
        match outcome {
            Ok(recorded) => {
                &&& record_fault(
                    invocation@,
                    cwd@,
                    request::pair_views(variables@),
                    observation@,
                    manifest@,
                    facts,
                ) is None
                &&& records(
                    recorded,
                    invocation@,
                    cwd@,
                    request::pair_views(variables@),
                    observation@,
                    manifest@,
                    facts,
                )
                &&& recorded.compiler.context_key@ == context_digest@
                &&& recorded.compiler.compiler_digest@ == compiler_digest@
            },
            Err(error) => record_fault(
                invocation@,
                cwd@,
                request::pair_views(variables@),
                observation@,
                manifest@,
                facts,
            ) == Some(error),
        },
{
    let found = direct_proof(
        invocation,
        cwd,
        variables,
        observation,
        &facts.source,
        &facts.contents,
    )?;
    let inputs = record_inputs(&observation.inputs, facts.inputs)?;
    let root_paths = proof_roots(&found);
    let roots = record_roots(&root_paths, facts.roots)?;
    let positive = record_selections(&found, facts.selected, &observation.inputs)?;
    let expected_artifacts = record_artifacts(&manifest.artifacts, &observation.outputs)?;
    let depfile = build_direct_depfile(invocation, observation, manifest)?;
    let preprocessor = match &observation.preprocessor {
        None => PreprocessorShape::Inactive,
        Some(value) => PreprocessorShape::CompilerObserved {
            stdout_digest: DirectDigest::from_bytes(value.stdout_digest),
            stdout_size: value.stdout_size,
            stderr_digest: DirectDigest::from_bytes(value.stderr_digest),
            stderr_size: value.stderr_size,
            automatic_lowercase_source: value.automatic_lowercase_source,
        },
    };
    Ok(
        DirectRecord {
            schema_version: DIRECT_RECORD_SCHEMA_VERSION,
            compiler: CompilerWitnessRef {
                context_key: DirectDigest::from_bytes(context_digest),
                compiler_digest: DirectDigest::from_bytes(compiler_digest),
            },
            inputs,
            resolution: SearchResolutionWitnesses { roots, positive, negative: Vec::new() },
            expected_artifacts,
            probe_rules: record::direct_probe_rules(observation),
            depfile,
            preprocessor,
            action_key: manifest.action_key,
        },
    )
}

proof fn lemma_position(
    inputs: Seq<InputFile<Seq<u8>, Seq<u8>>>,
    canonical: Seq<u8>,
    selected: Seq<u8>,
    index: int,
)
    requires
        0 <= index,
        position_of(inputs, canonical, selected, index) is Some,
    ensures
        index <= position_of(inputs, canonical, selected, index)->0 < inputs.len(),
    decreases inputs.len() - index,
{
    if index < inputs.len() && !(upath::same_path(inputs[index].path, canonical)
        || upath::same_path(inputs[index].path, selected)) {
        lemma_position(inputs, canonical, selected, index + 1);
    }
}

/// A record gives back what the observation says of the compilation: every selection is one of the
/// inputs, under the name that the compiler gave it, and the dependency rules and what the
/// preprocessor wrote are as they were observed.
pub proof fn law_record_gives_back_the_observation(
    recorded: DirectRecord,
    invocation: Invocation,
    cwd: Seq<u8>,
    variables: Seq<Pair<Seq<u8>>>,
    observed: Observed,
    manifest: ManifestView,
    facts: RecordFacts,
)
    requires
        records(recorded, invocation, cwd, variables, observed, manifest, facts),
        forall|at: int|
            0 <= at < observed.depfile_shape.primary_rules.len() ==> (
            #[trigger] observed.depfile_shape.primary_rules[at]).prerequisites.len() > 0,
    ensures
        record::selections_known(recorded),
        record::observed_of(recorded).inputs.len() == observed.inputs.len(),
        forall|at: int|
            0 <= at < observed.inputs.len() ==> (#[trigger] record::observed_of(
                recorded,
            ).inputs[at]).raw_path == observed.inputs[at].raw_path,
        record::observed_of(recorded).depfile_shape == observed.depfile_shape,
        record::observed_of(recorded).preprocessor == observed.preprocessor,
{
    let found = proof_of(
        invocation,
        cwd,
        variables,
        observed.dependencies,
        facts.source,
        facts.contents,
    )->Ok_0;
    assert forall|at: int| 0 <= at < recorded.resolution.positive@.len() implies (
    #[trigger] recorded.resolution.positive@[at]).selected_input < recorded.inputs@.len() by {
        assert(records_selection(
            recorded.resolution.positive@[at],
            found,
            found.selected[at],
            facts.selected@[at],
            observed.inputs,
        ));
        lemma_position(
            observed.inputs,
            facts.selected@[at].canonical->Ok_0@,
            found.selected[at].selected_path,
            0,
        );
    }
    assert forall|at: int| 0 <= at < observed.inputs.len() implies (#[trigger] record::observed_of(
        recorded,
    ).inputs[at]).raw_path == observed.inputs[at].raw_path by {
        assert(records_input(recorded.inputs@[at], observed.inputs[at], facts.inputs@[at]));
    }
    record::law_recorded_rules_read_back(observed.depfile_shape);
    assert(record::rules_of(recorded.probe_rules@).len() == recorded.probe_rules@.len());
}

} // verus!
