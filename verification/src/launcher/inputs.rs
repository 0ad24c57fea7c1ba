//! The inputs of a compilation, from the dependency file that a probe wrote.
use vstd::prelude::*;

use crate::bstr;
use crate::compiler::depfile::{Depfile, DepfileRule, Rule};
use crate::compiler::gfortran::GfortranInvocation;
use crate::launcher::observation;
use crate::launcher::observation::{InputFile, ObservedDependency, Reading};
use crate::launcher::projection;
use crate::launcher::projection::{
    Fault, ObservationError, PathFacts, ProjectedOutputs, Projection,
};
use crate::upath;

verus! {

/// What was found out about one prerequisite of one rule.
pub open spec fn fact_at(facts: Seq<Vec<PathFacts>>, rule: int, index: int) -> Option<PathFacts> {
    if 0 <= rule < facts.len() && 0 <= index < facts[rule]@.len() {
        Some(facts[rule]@[index])
    } else {
        None
    }
}

/// What was found out about one prerequisite of one rule.
pub fn find_fact<'a>(facts: &'a Vec<Vec<PathFacts>>, rule: usize, index: usize) -> (fact: Option<
    &'a PathFacts,
>)
    ensures
        match fact {
            Some(found) => fact_at(facts@, rule as int, index as int) == Some(*found),
            None => fact_at(facts@, rule as int, index as int) is None,
        },
{
    if rule < facts.len() && index < facts[rule].len() {
        Some(&facts[rule][index])
    } else {
        None
    }
}

/// An input with all its paths, not yet read.
#[verifier::ext_equal]
pub struct Candidate {
    pub path: Seq<u8>,
    pub raw_path: Seq<u8>,
    pub observed_path: Seq<u8>,
    pub reading: Reading,
}

/// Inputs in the order of their paths, with one more unless it is among them.
pub open spec fn placed(list: Seq<Candidate>, candidate: Candidate) -> Seq<Candidate>
    decreases list.len(),
{
    if list.len() == 0 {
        seq![candidate]
    } else if upath::same_path(list[0].path, candidate.path) {
        list
    } else if upath::path_before(candidate.path, list[0].path) {
        seq![candidate] + list
    } else {
        seq![list[0]] + placed(list.skip(1), candidate)
    }
}

/// The inputs found so far, and each mention of them.
#[verifier::ext_equal]
pub struct Collected {
    pub dependencies: Seq<ObservedDependency<Seq<u8>>>,
    pub candidates: Seq<Candidate>,
}

/// What is found so far, with one more prerequisite.
pub open spec fn with_prerequisite(
    cwd: Seq<u8>,
    raw_path: Seq<u8>,
    fact: Option<PathFacts>,
    generated: Seq<Seq<u8>>,
    projection: Projection,
    state: Collected,
) -> Result<Collected, Fault> {
    let observed_path = upath::joined(cwd, raw_path);
    match fact {
        None => Err(ObservationError::MissingFact),
        Some(found) => match projection::input_path(observed_path, found, generated, projection) {
            Err(fault) => Err(fault),
            Ok(None) => Ok(state),
            Ok(Some(path)) => Ok(
                Collected {
                    dependencies: state.dependencies.push(
                        ObservedDependency { raw_path, observed_path, path },
                    ),
                    candidates: placed(
                        state.candidates,
                        Candidate { path, raw_path, observed_path, reading: found.reading },
                    ),
                },
            ),
        },
    }
}

/// What is found so far, with the prerequisites of one rule from `index` on.
pub open spec fn with_rule(
    cwd: Seq<u8>,
    prerequisites: Seq<Seq<u8>>,
    facts: Seq<Vec<PathFacts>>,
    rule: int,
    index: int,
    generated: Seq<Seq<u8>>,
    projection: Projection,
    state: Collected,
) -> Result<Collected, Fault>
    decreases prerequisites.len() - index,
{
    if index >= prerequisites.len() {
        Ok(state)
    } else {
        match with_prerequisite(
            cwd,
            prerequisites[index],
            fact_at(facts, rule, index),
            generated,
            projection,
            state,
        ) {
            Err(fault) => Err(fault),
            Ok(next) => with_rule(
                cwd,
                prerequisites,
                facts,
                rule,
                index + 1,
                generated,
                projection,
                next,
            ),
        }
    }
}

/// What is found so far, with the prerequisites of the rules from `rule` on.
pub open spec fn with_rules(
    cwd: Seq<u8>,
    rules: Seq<Rule>,
    facts: Seq<Vec<PathFacts>>,
    rule: int,
    generated: Seq<Seq<u8>>,
    projection: Projection,
    state: Collected,
) -> Result<Collected, Fault>
    decreases rules.len() - rule,
{
    if rule >= rules.len() {
        Ok(state)
    } else {
        match with_rule(
            cwd,
            rules[rule].prerequisites,
            facts,
            rule,
            0,
            generated,
            projection,
            state,
        ) {
            Err(fault) => Err(fault),
            Ok(next) => with_rules(cwd, rules, facts, rule + 1, generated, projection, next),
        }
    }
}

/// The source, which is always an input.
pub open spec fn with_source(
    cwd: Seq<u8>,
    source: Seq<u8>,
    facts: PathFacts,
    generated: Seq<Seq<u8>>,
    projection: Projection,
) -> Result<Collected, Fault> {
    let observed_path = upath::joined(cwd, source);
    match projection::input_path(observed_path, facts, generated, projection) {
        Err(fault) => Err(fault),
        Ok(None) => Err(ObservationError::SourceCollides(observed_path)),
        Ok(Some(path)) => Ok(
            Collected {
                dependencies: seq![
                    ObservedDependency { raw_path: source, observed_path, path },
                ],
                candidates: seq![
                    Candidate { path, raw_path: source, observed_path, reading: facts.reading },
                ],
            },
        ),
    }
}

/// The first `count` inputs, read.
pub open spec fn read_first(list: Seq<Candidate>, count: int) -> Result<
    Seq<InputFile<Seq<u8>, Seq<u8>>>,
    Fault,
>
    decreases count,
{
    if count <= 0 {
        Ok(Seq::empty())
    } else {
        match read_first(list, count - 1) {
            Err(fault) => Err(fault),
            Ok(earlier) => {
                let candidate = list[count - 1];
                match observation::read_of(candidate.path, candidate.reading) {
                    Err(error) => Err(ObservationError::Read(error)),
                    Ok(content) => Ok(
                        earlier.push(
                            observation::input_of(
                                candidate.path,
                                candidate.raw_path,
                                candidate.observed_path,
                                content,
                            ),
                        ),
                    ),
                }
            },
        }
    }
}

/// What the inputs hold.
pub open spec fn contents_of(list: Seq<Candidate>) -> Seq<Seq<u8>> {
    list.map_values(
        |candidate: Candidate|
            match candidate.reading.contents {
                Ok(bytes) => bytes@,
                Err(_) => Seq::empty(),
            },
    )
}

/// The inputs of a compilation, each mention of them, and what they hold.
#[derive(Debug)]
pub struct ReadInputs {
    pub inputs: Vec<InputFile>,
    pub dependencies: Vec<ObservedDependency>,
    pub contents: Vec<Vec<u8>>,
}

/// The contents of a `ReadInputs`.
#[verifier::ext_equal]
pub struct Inputs {
    pub inputs: Seq<InputFile<Seq<u8>, Seq<u8>>>,
    pub dependencies: Seq<ObservedDependency<Seq<u8>>>,
    pub contents: Seq<Seq<u8>>,
}

impl View for ReadInputs {
    type V = Inputs;

    open spec fn view(&self) -> Inputs {
        Inputs {
            inputs: observation::input_views(self.inputs@),
            dependencies: observation::dependency_views(self.dependencies@),
            contents: bstr::views(self.contents@),
        }
    }
}

/// The inputs of a compilation: its source and all prerequisites, each once, in the order of their
/// paths, and each mention of them.
pub open spec fn inputs_of(
    rules: Seq<Rule>,
    source: Option<Seq<u8>>,
    cwd: Seq<u8>,
    generated: Seq<Seq<u8>>,
    projection: Projection,
    source_facts: PathFacts,
    facts: Seq<Vec<PathFacts>>,
) -> Result<Inputs, Fault> {
    match source {
        None => Err(ObservationError::MissingSource),
        Some(path) => match with_source(cwd, path, source_facts, generated, projection) {
            Err(fault) => Err(fault),
            Ok(start) => match with_rules(cwd, rules, facts, 0, generated, projection, start) {
                Err(fault) => Err(fault),
                Ok(found) => match read_first(
                    found.candidates,
                    found.candidates.len() as int,
                ) {
                    Err(fault) => Err(fault),
                    Ok(inputs) => Ok(
                        Inputs {
                            inputs,
                            dependencies: found.dependencies,
                            contents: contents_of(found.candidates),
                        },
                    ),
                },
            },
        },
    }
}

struct Pending<'a> {
    path: Vec<u8>,
    raw_path: Vec<u8>,
    observed_path: Vec<u8>,
    reading: &'a Reading,
}

impl<'a> Pending<'a> {
    spec fn contents(self) -> Candidate {
        Candidate {
            path: self.path@,
            raw_path: self.raw_path@,
            observed_path: self.observed_path@,
            reading: *self.reading,
        }
    }
}

spec fn pending_views(list: Seq<Pending>) -> Seq<Candidate> {
    list.map_values(|pending: Pending| pending.contents())
}

struct Collection<'a> {
    dependencies: Vec<ObservedDependency>,
    pending: Vec<Pending<'a>>,
}

impl<'a> Collection<'a> {
    spec fn contents(self) -> Collected {
        Collected {
            dependencies: observation::dependency_views(self.dependencies@),
            candidates: pending_views(self.pending@),
        }
    }
}

fn place<'a>(list: &mut Vec<Pending<'a>>, pending: Pending<'a>)
    ensures
        pending_views(final(list)@) == placed(pending_views(old(list)@), pending.contents()),
{
    let ghost all = pending_views(list@);
    let ghost item = pending.contents();
    let mut index: usize = 0;
    assert(all.take(0) + placed(all.skip(0), item) =~= placed(all, item)) by {
        assert(all.skip(0) =~= all);
    }
    while index < list.len()
        invariant_except_break
            index <= list.len(),
            all == pending_views(list@),
            item == pending.contents(),
            all.take(index as int) + placed(all.skip(index as int), item) =~= placed(all, item),
        ensures
            index <= list.len(),
            all == pending_views(list@),
            item == pending.contents(),
            placed(all, item) =~= all.insert(index as int, item),
        decreases list.len() - index,
    {
        let ghost rest = all.skip(index as int);
        assert(rest[0] == list@[index as int].contents());
        if upath::same(list[index].path.as_slice(), pending.path.as_slice()) {
            assert(placed(rest, item) == rest);
            assert(all.take(index as int) + rest =~= all);
            return ;
        }
        if upath::less(pending.path.as_slice(), list[index].path.as_slice()) {
            assert(placed(rest, item) == seq![item] + rest);
            assert(all.take(index as int) + (seq![item] + rest) =~= all.insert(index as int, item));
            break;
        }
        assert(rest.skip(1) =~= all.skip(index + 1));
        assert(all.take(index as int) + (seq![rest[0]] + placed(rest.skip(1), item)) =~= all.take(
            index + 1,
        ) + placed(all.skip(index + 1), item));
        index += 1;
        proof {
            if index == list.len() {
                assert(all.skip(index as int) =~= Seq::empty());
                assert(all.take(index as int) + seq![item] =~= all.insert(index as int, item));
            }
        }
    }
    proof {
        if all.len() == 0 {
            assert(placed(all, item) =~= all.insert(0, item));
        }
    }
    list.insert(index, pending);
    assert(pending_views(list@) =~= all.insert(index as int, item));
}

fn add_prerequisite<'a>(
    cwd: &[u8],
    raw_path: &[u8],
    fact: Option<&'a PathFacts>,
    generated: &Vec<Vec<u8>>,
    projected: &ProjectedOutputs,
    state: &mut Collection<'a>,
) -> (outcome: Result<(), ObservationError>)
    ensures
        match outcome {
            Ok(_) => with_prerequisite(
                cwd@,
                raw_path@,
                match fact {
                    Some(found) => Some(*found),
                    None => None,
                },
                bstr::views(generated@),
                projected@,
                old(state).contents(),
            ) == Ok::<Collected, Fault>(final(state).contents()),
            Err(error) => with_prerequisite(
                cwd@,
                raw_path@,
                match fact {
                    Some(found) => Some(*found),
                    None => None,
                },
                bstr::views(generated@),
                projected@,
                old(state).contents(),
            ) == Err::<Collected, Fault>(error@),
        },
{
    let found = match fact {
        Some(found) => found,
        None => {
            return Err(ObservationError::MissingFact);
        },
    };
    let observed_path = upath::join(cwd, raw_path);
    let canonical = projection::resolve_optional_input(
        observed_path.as_slice(),
        found,
        generated,
        projected,
    )?;
    if let Some(path) = canonical {
        let ghost before = observation::dependency_views(state.dependencies@);
        let dependency = ObservedDependency {
            raw_path: bstr::copy(raw_path),
            observed_path: bstr::copy(observed_path.as_slice()),
            path: bstr::copy(path.as_slice()),
        };
        state.dependencies.push(dependency);
        assert(observation::dependency_views(state.dependencies@) =~= before.push(dependency@));
        let pending = Pending {
            path,
            raw_path: bstr::copy(raw_path),
            observed_path,
            reading: &found.reading,
        };
        place(&mut state.pending, pending);
    }
    Ok(())
}

fn add_rule<'a>(
    cwd: &[u8],
    rule: &DepfileRule,
    facts: &'a Vec<Vec<PathFacts>>,
    number: usize,
    generated: &Vec<Vec<u8>>,
    projected: &ProjectedOutputs,
    state: &mut Collection<'a>,
) -> (outcome: Result<(), ObservationError>)
    ensures
        match outcome {
            Ok(_) => with_rule(
                cwd@,
                rule@.prerequisites,
                facts@,
                number as int,
                0,
                bstr::views(generated@),
                projected@,
                old(state).contents(),
            ) == Ok::<Collected, Fault>(final(state).contents()),
            Err(error) => with_rule(
                cwd@,
                rule@.prerequisites,
                facts@,
                number as int,
                0,
                bstr::views(generated@),
                projected@,
                old(state).contents(),
            ) == Err::<Collected, Fault>(error@),
        },
{
    let ghost all = rule@.prerequisites;
    let ghost modules = bstr::views(generated@);
    let ghost start = state.contents();
    let mut index: usize = 0;
    while index < rule.prerequisites.len()
        invariant
            index <= rule.prerequisites.len(),
            all == rule@.prerequisites,
            modules == bstr::views(generated@),
            start == old(state).contents(),
            with_rule(cwd@, all, facts@, number as int, 0, modules, projected@, start) == with_rule(
                cwd@,
                all,
                facts@,
                number as int,
                index as int,
                modules,
                projected@,
                state.contents(),
            ),
        decreases rule.prerequisites.len() - index,
    {
        assert(all[index as int] == rule.prerequisites@[index as int]@);
        let fact = find_fact(facts, number, index);
        add_prerequisite(
            cwd,
            rule.prerequisites[index].as_slice(),
            fact,
            generated,
            projected,
            state,
        )?;
        index += 1;
    }
    Ok(())
}

fn add_rules<'a>(
    cwd: &[u8],
    depfile: &Depfile,
    facts: &'a Vec<Vec<PathFacts>>,
    generated: &Vec<Vec<u8>>,
    projected: &ProjectedOutputs,
    state: &mut Collection<'a>,
) -> (outcome: Result<(), ObservationError>)
    ensures
        match outcome {
            Ok(_) => with_rules(
                cwd@,
                depfile@,
                facts@,
                0,
                bstr::views(generated@),
                projected@,
                old(state).contents(),
            ) == Ok::<Collected, Fault>(final(state).contents()),
            Err(error) => with_rules(
                cwd@,
                depfile@,
                facts@,
                0,
                bstr::views(generated@),
                projected@,
                old(state).contents(),
            ) == Err::<Collected, Fault>(error@),
        },
{
    let ghost all = depfile@;
    let ghost modules = bstr::views(generated@);
    let ghost start = state.contents();
    let mut index: usize = 0;
    while index < depfile.rules.len()
        invariant
            index <= depfile.rules.len(),
            all == depfile@,
            modules == bstr::views(generated@),
            start == old(state).contents(),
            with_rules(cwd@, all, facts@, 0, modules, projected@, start) == with_rules(
                cwd@,
                all,
                facts@,
                index as int,
                modules,
                projected@,
                state.contents(),
            ),
        decreases depfile.rules.len() - index,
    {
        assert(all[index as int] == depfile.rules@[index as int]@);
        add_rule(cwd, &depfile.rules[index], facts, index, generated, projected, state)?;
        index += 1;
    }
    Ok(())
}

proof fn lemma_read_fails(list: Seq<Candidate>, count: int, total: int)
    requires
        0 <= count <= total,
        read_first(list, count) is Err,
    ensures
        read_first(list, total) == read_first(list, count),
    decreases total - count,
{
    if count < total {
        lemma_read_fails(list, count, total - 1);
    }
}

fn read_pending(list: &Vec<Pending>) -> (outcome: Result<Vec<InputFile>, ObservationError>)
    ensures
        match outcome {
            Ok(inputs) => read_first(pending_views(list@), list@.len() as int) == Ok::<_, Fault>(
                observation::input_views(inputs@),
            ),
            Err(error) => read_first(pending_views(list@), list@.len() as int) == Err::<
                Seq<InputFile<Seq<u8>, Seq<u8>>>,
                Fault,
            >(error@),
        },
{
    let ghost all = pending_views(list@);
    let mut inputs: Vec<InputFile> = Vec::new();
    let mut index: usize = 0;
    assert(observation::input_views(inputs@) =~= Seq::empty());
    while index < list.len()
        invariant
            index <= list.len(),
            all == pending_views(list@),
            read_first(all, index as int) == Ok::<_, Fault>(observation::input_views(inputs@)),
        decreases list.len() - index,
    {
        let pending = &list[index];
        assert(all[index as int] == pending.contents());
        match observation::read_stable_with_paths(
            pending.path.as_slice(),
            pending.raw_path.as_slice(),
            pending.observed_path.as_slice(),
            pending.reading,
        ) {
            Ok(input) => {
                let ghost before = observation::input_views(inputs@);
                inputs.push(input);
                assert(observation::input_views(inputs@) =~= before.push(input@));
            },
            Err(error) => {
                proof {
                    assert(read_first(all, index + 1) is Err);
                    lemma_read_fails(all, index + 1, all.len() as int);
                }
                return Err(ObservationError::Read(error));
            },
        }
        index += 1;
    }
    Ok(inputs)
}

fn copy_contents(list: &Vec<Pending>) -> (contents: Vec<Vec<u8>>)
    ensures
        bstr::views(contents@) == contents_of(pending_views(list@)),
{
    let ghost all = contents_of(pending_views(list@));
    let mut contents: Vec<Vec<u8>> = Vec::new();
    let mut index: usize = 0;
    assert(bstr::views(contents@) =~= all.take(0));
    while index < list.len()
        invariant
            index <= list.len(),
            all == contents_of(pending_views(list@)),
            bstr::views(contents@) == all.take(index as int),
        decreases list.len() - index,
    {
        assert(pending_views(list@)[index as int] == list@[index as int].contents());
        let bytes = match &list[index].reading.contents {
            Ok(bytes) => bstr::copy(bytes.as_slice()),
            Err(_) => Vec::new(),
        };
        proof {
            bstr::lemma_views_push(contents@, bytes);
        }
        contents.push(bytes);
        assert(bstr::views(contents@) =~= all.take(index + 1));
        index += 1;
    }
    assert(all.take(index as int) =~= all);
    contents
}

/// The inputs of a compilation and each mention of them, where `source_facts` and `facts` say what
/// was found out about the source and about each prerequisite.
pub fn read_inputs(
    depfile: &Depfile,
    invocation: &GfortranInvocation,
    cwd: &[u8],
    generated: &Vec<Vec<u8>>,
    projected: &ProjectedOutputs,
    source_facts: &PathFacts,
    facts: &Vec<Vec<PathFacts>>,
) -> (outcome: Result<ReadInputs, ObservationError>)
    ensures
        match outcome {
            Ok(found) => inputs_of(
                depfile@,
                invocation@.source,
                cwd@,
                bstr::views(generated@),
                projected@,
                *source_facts,
                facts@,
            ) == Ok::<Inputs, Fault>(found@),
            Err(error) => inputs_of(
                depfile@,
                invocation@.source,
                cwd@,
                bstr::views(generated@),
                projected@,
                *source_facts,
                facts@,
            ) == Err::<Inputs, Fault>(error@),
        },
{
    let source = match &invocation.source {
        Some(source) => source,
        None => {
            return Err(ObservationError::MissingSource);
        },
    };
    let observed_path = upath::join(cwd, source.as_slice());
    let path = match projection::resolve_optional_input(
        observed_path.as_slice(),
        source_facts,
        generated,
        projected,
    )? {
        Some(path) => path,
        None => {
            return Err(ObservationError::SourceCollides(observed_path));
        },
    };
    let mut state = Collection { dependencies: Vec::new(), pending: Vec::new() };
    let dependency = ObservedDependency {
        raw_path: bstr::copy(source.as_slice()),
        observed_path: bstr::copy(observed_path.as_slice()),
        path: bstr::copy(path.as_slice()),
    };
    let pending = Pending {
        path,
        raw_path: bstr::copy(source.as_slice()),
        observed_path,
        reading: &source_facts.reading,
    };
    state.dependencies.push(dependency);
    state.pending.push(pending);
    assert(state.contents().dependencies =~= seq![dependency@]);
    assert(state.contents().candidates =~= seq![pending.contents()]);
    add_rules(cwd, depfile, facts, generated, projected, &mut state)?;
    let inputs = read_pending(&state.pending)?;
    let contents = copy_contents(&state.pending);
    Ok(ReadInputs { inputs, dependencies: state.dependencies, contents })
}

/// The canonical paths of all prerequisites that are inputs.
pub open spec fn prerequisite_paths(
    rules: Seq<Rule>,
    cwd: Seq<u8>,
    generated: Seq<Seq<u8>>,
    projection: Projection,
    facts: Seq<Vec<PathFacts>>,
) -> Result<Seq<Seq<u8>>, Fault> {
    match with_rules(
        cwd,
        rules,
        facts,
        0,
        generated,
        projection,
        Collected { dependencies: Seq::empty(), candidates: Seq::empty() },
    ) {
        Err(fault) => Err(fault),
        Ok(found) => Ok(
            found.dependencies.map_values(
                |dependency: ObservedDependency<Seq<u8>>| dependency.path,
            ),
        ),
    }
}

/// The canonical paths of all prerequisites that are inputs.
pub fn resolved_depfile_prerequisites(
    depfile: &Depfile,
    cwd: &[u8],
    generated: &Vec<Vec<u8>>,
    projected: &ProjectedOutputs,
    facts: &Vec<Vec<PathFacts>>,
) -> (outcome: Result<Vec<Vec<u8>>, ObservationError>)
    ensures
        match outcome {
            Ok(paths) => prerequisite_paths(
                depfile@,
                cwd@,
                bstr::views(generated@),
                projected@,
                facts@,
            ) == Ok::<_, Fault>(bstr::views(paths@)),
            Err(error) => prerequisite_paths(
                depfile@,
                cwd@,
                bstr::views(generated@),
                projected@,
                facts@,
            ) == Err::<Seq<Seq<u8>>, Fault>(error@),
        },
{
    let mut state = Collection { dependencies: Vec::new(), pending: Vec::new() };
    assert(state.contents().dependencies =~= Seq::empty());
    assert(state.contents().candidates =~= Seq::empty());
    add_rules(cwd, depfile, facts, generated, projected, &mut state)?;
    let ghost all = observation::dependency_views(state.dependencies@).map_values(
        |dependency: ObservedDependency<Seq<u8>>| dependency.path,
    );
    let mut paths: Vec<Vec<u8>> = Vec::new();
    let mut index: usize = 0;
    assert(bstr::views(paths@) =~= all.take(0));
    while index < state.dependencies.len()
        invariant
            index <= state.dependencies.len(),
            all == observation::dependency_views(state.dependencies@).map_values(
                |dependency: ObservedDependency<Seq<u8>>| dependency.path,
            ),
            bstr::views(paths@) == all.take(index as int),
        decreases state.dependencies.len() - index,
    {
        let path = bstr::copy(state.dependencies[index].path.as_slice());
        proof {
            bstr::lemma_views_push(paths@, path);
        }
        paths.push(path);
        assert(bstr::views(paths@) =~= all.take(index + 1));
        index += 1;
    }
    assert(all.take(index as int) =~= all);
    Ok(paths)
}

proof fn lemma_placed_keeps(list: Seq<Candidate>, candidate: Candidate)
    ensures
        exists|at: int|
            0 <= at < placed(list, candidate).len() && upath::same_path(
                (#[trigger] placed(list, candidate)[at]).path,
                candidate.path,
            ),
        forall|from: int|
            0 <= from < list.len() ==> placed(list, candidate).contains(#[trigger] list[from]),
    decreases list.len(),
{
    let result = placed(list, candidate);
    if list.len() == 0 {
        assert(upath::same_path(result[0].path, candidate.path));
    } else if upath::same_path(list[0].path, candidate.path) {
        assert(upath::same_path(result[0].path, candidate.path));
    } else if upath::path_before(candidate.path, list[0].path) {
        assert(upath::same_path(result[0].path, candidate.path));
        assert forall|from: int| 0 <= from < list.len() implies result.contains(
            #[trigger] list[from],
        ) by {
            assert(result[from + 1] == list[from]);
        }
    } else {
        let rest = list.skip(1);
        let inner = placed(rest, candidate);
        lemma_placed_keeps(rest, candidate);
        let at = choose|at: int|
            0 <= at < inner.len() && upath::same_path((#[trigger] inner[at]).path, candidate.path);
        assert(result[at + 1] == inner[at]);
        assert forall|from: int| 0 <= from < list.len() implies result.contains(
            #[trigger] list[from],
        ) by {
            if from == 0 {
                assert(result[0] == list[0]);
            } else {
                assert(rest[from - 1] == list[from]);
                assert(inner.contains(rest[from - 1]));
                let place = choose|place: int|
                    0 <= place < inner.len() && inner[place] == rest[from - 1];
                assert(result[place + 1] == list[from]);
            }
        }
    }
}

/// Every mention of an input is one of the inputs.
pub open spec fn covered(state: Collected) -> bool {
    forall|mention: int|
        0 <= mention < state.dependencies.len() ==> exists|at: int|
            0 <= at < state.candidates.len() && upath::same_path(
                (#[trigger] state.candidates[at]).path,
                (#[trigger] state.dependencies[mention]).path,
            )
}

proof fn lemma_prerequisite_covered(
    cwd: Seq<u8>,
    raw_path: Seq<u8>,
    fact: Option<PathFacts>,
    generated: Seq<Seq<u8>>,
    projection: Projection,
    state: Collected,
)
    requires
        covered(state),
        with_prerequisite(cwd, raw_path, fact, generated, projection, state) is Ok,
    ensures
        covered(with_prerequisite(cwd, raw_path, fact, generated, projection, state)->Ok_0),
{
    let next = with_prerequisite(cwd, raw_path, fact, generated, projection, state)->Ok_0;
    let observed_path = upath::joined(cwd, raw_path);
    if let Ok(Some(path)) = projection::input_path(
        observed_path,
        fact->0,
        generated,
        projection,
    ) {
        let candidate = Candidate { path, raw_path, observed_path, reading: fact->0.reading };
        lemma_placed_keeps(state.candidates, candidate);
        assert(next.candidates == placed(state.candidates, candidate));
        assert forall|mention: int| 0 <= mention < next.dependencies.len() implies exists|at: int|
            0 <= at < next.candidates.len() && upath::same_path(
                (#[trigger] next.candidates[at]).path,
                (#[trigger] next.dependencies[mention]).path,
            ) by {
            if mention < state.dependencies.len() {
                assert(next.dependencies[mention] == state.dependencies[mention]);
                let from = choose|from: int|
                    0 <= from < state.candidates.len() && upath::same_path(
                        (#[trigger] state.candidates[from]).path,
                        state.dependencies[mention].path,
                    );
                assert(next.candidates.contains(state.candidates[from]));
                let at = choose|at: int|
                    0 <= at < next.candidates.len() && next.candidates[at]
                        == state.candidates[from];
                assert(upath::same_path(next.candidates[at].path, next.dependencies[mention].path));
            } else {
                assert(next.dependencies[mention].path == path);
            }
        }
    }
}

proof fn lemma_rule_covered(
    cwd: Seq<u8>,
    prerequisites: Seq<Seq<u8>>,
    facts: Seq<Vec<PathFacts>>,
    rule: int,
    index: int,
    generated: Seq<Seq<u8>>,
    projection: Projection,
    state: Collected,
)
    requires
        covered(state),
        with_rule(cwd, prerequisites, facts, rule, index, generated, projection, state) is Ok,
    ensures
        covered(
            with_rule(
                cwd,
                prerequisites,
                facts,
                rule,
                index,
                generated,
                projection,
                state,
            )->Ok_0,
        ),
    decreases prerequisites.len() - index,
{
    if index < prerequisites.len() {
        let fact = fact_at(facts, rule, index);
        lemma_prerequisite_covered(cwd, prerequisites[index], fact, generated, projection, state);
        let next = with_prerequisite(
            cwd,
            prerequisites[index],
            fact,
            generated,
            projection,
            state,
        )->Ok_0;
        lemma_rule_covered(
            cwd,
            prerequisites,
            facts,
            rule,
            index + 1,
            generated,
            projection,
            next,
        );
    }
}

proof fn lemma_rules_covered(
    cwd: Seq<u8>,
    rules: Seq<Rule>,
    facts: Seq<Vec<PathFacts>>,
    rule: int,
    generated: Seq<Seq<u8>>,
    projection: Projection,
    state: Collected,
)
    requires
        covered(state),
        with_rules(cwd, rules, facts, rule, generated, projection, state) is Ok,
    ensures
        covered(with_rules(cwd, rules, facts, rule, generated, projection, state)->Ok_0),
    decreases rules.len() - rule,
{
    if rule < rules.len() {
        lemma_rule_covered(
            cwd,
            rules[rule].prerequisites,
            facts,
            rule,
            0,
            generated,
            projection,
            state,
        );
        let next = with_rule(
            cwd,
            rules[rule].prerequisites,
            facts,
            rule,
            0,
            generated,
            projection,
            state,
        )->Ok_0;
        lemma_rules_covered(cwd, rules, facts, rule + 1, generated, projection, next);
    }
}

proof fn lemma_read_paths(list: Seq<Candidate>, count: int)
    requires
        0 <= count <= list.len(),
        read_first(list, count) is Ok,
    ensures
        read_first(list, count)->Ok_0.len() == count,
        forall|at: int|
            0 <= at < count ==> (#[trigger] read_first(list, count)->Ok_0[at]).path
                == list[at].path,
    decreases count,
{
    if count > 0 {
        lemma_read_paths(list, count - 1);
    }
}

/// Every file that the compiler mentions is hashed: each dependency of a compilation, and its
/// source, is one of its inputs.
pub proof fn law_every_dependency_is_an_input(
    rules: Seq<Rule>,
    source: Option<Seq<u8>>,
    cwd: Seq<u8>,
    generated: Seq<Seq<u8>>,
    projection: Projection,
    source_facts: PathFacts,
    facts: Seq<Vec<PathFacts>>,
    mention: int,
)
    requires
        inputs_of(rules, source, cwd, generated, projection, source_facts, facts) is Ok,
        0 <= mention < inputs_of(
            rules,
            source,
            cwd,
            generated,
            projection,
            source_facts,
            facts,
        )->Ok_0.dependencies.len(),
    ensures
        exists|at: int|
            0 <= at < inputs_of(
                rules,
                source,
                cwd,
                generated,
                projection,
                source_facts,
                facts,
            )->Ok_0.inputs.len() && upath::same_path(
                (#[trigger] inputs_of(
                    rules,
                    source,
                    cwd,
                    generated,
                    projection,
                    source_facts,
                    facts,
                )->Ok_0.inputs[at]).path,
                inputs_of(
                    rules,
                    source,
                    cwd,
                    generated,
                    projection,
                    source_facts,
                    facts,
                )->Ok_0.dependencies[mention].path,
            ),
{
    let start = with_source(cwd, source->0, source_facts, generated, projection)->Ok_0;
    assert(covered(start)) by {
        assert(upath::same_path(start.candidates[0].path, start.dependencies[0].path));
    }
    lemma_rules_covered(cwd, rules, facts, 0, generated, projection, start);
    let found = with_rules(cwd, rules, facts, 0, generated, projection, start)->Ok_0;
    lemma_read_paths(found.candidates, found.candidates.len() as int);
    let result = inputs_of(rules, source, cwd, generated, projection, source_facts, facts)->Ok_0;
    assert(result.dependencies == found.dependencies);
    let at = choose|at: int|
        0 <= at < found.candidates.len() && upath::same_path(
            (#[trigger] found.candidates[at]).path,
            found.dependencies[mention].path,
        );
    assert(result.inputs[at].path == found.candidates[at].path);
}

} // verus!
