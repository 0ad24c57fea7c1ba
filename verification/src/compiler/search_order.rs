//! The order in which files are searched for, and what makes a search provable.
use vstd::prelude::*;

use crate::bstr;
use crate::compiler::gfortran::Invocation;
use crate::compiler::resolution;
use crate::compiler::resolution::{
    Chains, DependencyResolutionKind, Environment, ObservedSearchFeatures, RootList, SearchPath,
    SearchPathKind, SearchRoot, SearchRootOrigin,
};
use crate::upath;

verus! {

/// The turn of a root in the search for an included file.
pub open spec fn turn(origin: SearchRootOrigin) -> int {
    match origin {
        SearchRootOrigin::SourceDirectory => 0,
        SearchRootOrigin::IncludeParent(_) => 1,
        SearchRootOrigin::WorkingDirectory => 2,
        SearchRootOrigin::CommandLine(SearchPathKind::Quote, _) => 3,
        SearchRootOrigin::EnvironmentQuote(_) => 4,
        SearchRootOrigin::CommandLine(SearchPathKind::Include, _) => 5,
        SearchRootOrigin::EnvironmentInclude(_) => 6,
        SearchRootOrigin::CommandLine(SearchPathKind::System, _) => 7,
        SearchRootOrigin::EnvironmentSystem(_) => 8,
        SearchRootOrigin::CommandLine(SearchPathKind::After, _) => 9,
        SearchRootOrigin::EnvironmentAfter(_) => 10,
        SearchRootOrigin::ModuleOutput => 11,
        SearchRootOrigin::EnvironmentModule(_) => 12,
        SearchRootOrigin::IntrinsicModule(_) => 13,
        SearchRootOrigin::EnvironmentIntrinsicModule(_) => 14,
    }
}

/// The place of a root among those of its turn.
pub open spec fn place(origin: SearchRootOrigin) -> int {
    match origin {
        SearchRootOrigin::IncludeParent(index) => index as int,
        SearchRootOrigin::CommandLine(_, index) => index as int,
        SearchRootOrigin::IntrinsicModule(index) => index as int,
        SearchRootOrigin::EnvironmentQuote(index) => index as int,
        SearchRootOrigin::EnvironmentInclude(index) => index as int,
        SearchRootOrigin::EnvironmentSystem(index) => index as int,
        SearchRootOrigin::EnvironmentAfter(index) => index as int,
        SearchRootOrigin::EnvironmentModule(index) => index as int,
        SearchRootOrigin::EnvironmentIntrinsicModule(index) => index as int,
        _ => 0,
    }
}

/// One root is searched before another.
pub open spec fn searched_first(
    first: SearchRoot<Seq<u8>>,
    second: SearchRoot<Seq<u8>>,
) -> bool {
    turn(first.origin) < turn(second.origin) || (turn(first.origin) == turn(second.origin) && place(
        first.origin,
    ) < place(second.origin))
}

/// Every root of a chain is searched before those behind it.
pub open spec fn in_turn(chain: Seq<SearchRoot<Seq<u8>>>) -> bool {
    forall|left: int, right: int|
        0 <= left < right < chain.len() ==> searched_first(
            #[trigger] chain[left],
            #[trigger] chain[right],
        )
}

/// The roots of a chain have their turn within bounds.
spec fn between(chain: Seq<SearchRoot<Seq<u8>>>, low: int, high: int) -> bool {
    forall|at: int|
        0 <= at < chain.len() ==> low <= turn((#[trigger] chain[at]).origin) && turn(
            chain[at].origin,
        ) <= high
}

proof fn lemma_appended(
    first: Seq<SearchRoot<Seq<u8>>>,
    second: Seq<SearchRoot<Seq<u8>>>,
    low: int,
    middle: int,
    high: int,
)
    requires
        in_turn(first),
        in_turn(second),
        between(first, low, middle),
        between(second, middle + 1, high),
        low <= middle < high,
    ensures
        in_turn(first + second),
        between(first + second, low, high),
{
    let all = first + second;
    assert forall|left: int, right: int| 0 <= left < right < all.len() implies searched_first(
        #[trigger] all[left],
        #[trigger] all[right],
    ) by {
        if right < first.len() {
            assert(all[left] == first[left] && all[right] == first[right]);
        } else if left >= first.len() {
            assert(all[left] == second[left - first.len()] && all[right] == second[right
                - first.len()]);
        } else {
            assert(all[left] == first[left] && all[right] == second[right - first.len()]);
        }
    }
    assert forall|at: int| 0 <= at < all.len() implies low <= turn((#[trigger] all[at]).origin)
        && turn(all[at].origin) <= high by {
        if at < first.len() {
            assert(all[at] == first[at]);
        } else {
            assert(all[at] == second[at - first.len()]);
        }
    }
}

/// The directory of a list entry, as a root.
pub open spec fn root_of(origin: SearchRootOrigin, cwd: Seq<u8>, directory: Seq<u8>) -> SearchRoot<
    Seq<u8>,
> {
    SearchRoot {
        origin,
        path: if directory.len() == 0 {
            cwd
        } else {
            upath::joined(cwd, directory)
        },
    }
}

proof fn lemma_tier(paths: Seq<SearchPath<Seq<u8>>>, kind: SearchPathKind, cwd: Seq<u8>)
    requires
        paths.len() <= usize::MAX,
    ensures
        in_turn(resolution::tier(paths, kind, cwd)),
        between(
            resolution::tier(paths, kind, cwd),
            turn(SearchRootOrigin::CommandLine(kind, 0)),
            turn(SearchRootOrigin::CommandLine(kind, 0)),
        ),
        forall|at: int|
            0 <= at < resolution::tier(paths, kind, cwd).len() ==> place(
                (#[trigger] resolution::tier(paths, kind, cwd)[at]).origin,
            ) < paths.len(),
        forall|at: int|
            0 <= at < paths.len() && (#[trigger] paths[at]).kind == kind ==> resolution::tier(
                paths,
                kind,
                cwd,
            ).contains(root_of(SearchRootOrigin::CommandLine(kind, at as usize), cwd, paths[at].path)),
    decreases paths.len(),
{
    if paths.len() > 0 {
        let shorter = paths.drop_last();
        lemma_tier(shorter, kind, cwd);
        let before = resolution::tier(shorter, kind, cwd);
        let all = resolution::tier(paths, kind, cwd);
        let last = paths.len() - 1;
        assert forall|at: int|
            0 <= at < paths.len() && (#[trigger] paths[at]).kind == kind implies all.contains(
            root_of(SearchRootOrigin::CommandLine(kind, at as usize), cwd, paths[at].path),
        ) by {
            let root = root_of(SearchRootOrigin::CommandLine(kind, at as usize), cwd, paths[at].path);
            if at < last {
                assert(shorter[at] == paths[at]);
                assert(before.contains(root));
                let from = choose|from: int| 0 <= from < before.len() && before[from] == root;
                assert(all[from] == root);
            } else {
                assert(all[before.len() as int] == root);
            }
        }
        assert forall|left: int, right: int| 0 <= left < right < all.len() implies searched_first(
            #[trigger] all[left],
            #[trigger] all[right],
        ) by {
            assert(all[left] == before[left]);
            if right < before.len() {
                assert(all[right] == before[right]);
            }
        }
        assert forall|at: int| 0 <= at < all.len() implies place((#[trigger] all[at]).origin)
            < paths.len() by {
            if at < before.len() {
                assert(all[at] == before[at]);
            }
        }
        assert forall|at: int| 0 <= at < all.len() implies turn((#[trigger] all[at]).origin) == turn(
            SearchRootOrigin::CommandLine(kind, 0),
        ) by {
            if at < before.len() {
                assert(all[at] == before[at]);
            }
        }
    }
}

proof fn lemma_listed(cwd: Seq<u8>, paths: Seq<Seq<u8>>, list: RootList)
    requires
        paths.len() <= usize::MAX,
    ensures
        in_turn(resolution::listed_roots(cwd, paths, list)),
        between(
            resolution::listed_roots(cwd, paths, list),
            turn(resolution::origin_at(list, 0)),
            turn(resolution::origin_at(list, 0)),
        ),
        forall|at: int|
            0 <= at < paths.len() ==> resolution::listed_roots(cwd, paths, list).contains(
                root_of(resolution::origin_at(list, at as usize), cwd, #[trigger] paths[at]),
            ),
{
    let all = resolution::listed_roots(cwd, paths, list);
    assert forall|at: int| 0 <= at < paths.len() implies all.contains(
        root_of(resolution::origin_at(list, at as usize), cwd, #[trigger] paths[at]),
    ) by {
        assert(all[at] == root_of(resolution::origin_at(list, at as usize), cwd, paths[at]));
    }
}

/// Each root of a part of a chain is a root of the chain.
proof fn lemma_part(
    before: Seq<SearchRoot<Seq<u8>>>,
    part: Seq<SearchRoot<Seq<u8>>>,
    after: Seq<SearchRoot<Seq<u8>>>,
)
    ensures
        forall|root: SearchRoot<Seq<u8>>|
            #![trigger part.contains(root)]
            #![trigger (before + part + after).contains(root)]
            part.contains(root) ==> (before + part + after).contains(root),
{
    let all = before + part + after;
    assert forall|root: SearchRoot<Seq<u8>>|
        #![trigger part.contains(root)]
        #![trigger all.contains(root)]
        part.contains(root) implies all.contains(root) by {
        let at = choose|at: int| 0 <= at < part.len() && part[at] == root;
        assert(all[before.len() + at] == root);
    }
}

/// The lists fit into memory.
pub open spec fn lists_fit(
    invocation: Invocation,
    parents: Seq<Seq<u8>>,
    environment: Environment,
) -> bool {
    &&& invocation.search_paths.len() <= usize::MAX
    &&& invocation.intrinsic_module_dirs.len() <= usize::MAX
    &&& parents.len() <= usize::MAX
    &&& environment.quote.len() <= usize::MAX
    &&& environment.includes.len() <= usize::MAX
    &&& environment.system.len() <= usize::MAX
    &&& environment.after.len() <= usize::MAX
    &&& environment.modules.len() <= usize::MAX
    &&& environment.intrinsic_modules.len() <= usize::MAX
}

#[verifier::spinoff_prover]
proof fn lemma_angle(
    invocation: Invocation,
    cwd: Seq<u8>,
    parents: Seq<Seq<u8>>,
    environment: Environment,
)
    requires
        lists_fit(invocation, parents, environment),
    ensures
        in_turn(resolution::angle_chain(invocation, cwd, environment)),
        between(resolution::angle_chain(invocation, cwd, environment), 5, 10),
{
    let paths = invocation.search_paths;
    let a = resolution::tier(paths, SearchPathKind::Include, cwd);
    let b = resolution::listed_roots(cwd, environment.includes, RootList::EnvironmentInclude);
    let c = resolution::tier(paths, SearchPathKind::System, cwd);
    let d = resolution::listed_roots(cwd, environment.system, RootList::EnvironmentSystem);
    let e = resolution::tier(paths, SearchPathKind::After, cwd);
    let f = resolution::listed_roots(cwd, environment.after, RootList::EnvironmentAfter);
    lemma_tier(paths, SearchPathKind::Include, cwd);
    lemma_tier(paths, SearchPathKind::System, cwd);
    lemma_tier(paths, SearchPathKind::After, cwd);
    lemma_listed(cwd, environment.includes, RootList::EnvironmentInclude);
    lemma_listed(cwd, environment.system, RootList::EnvironmentSystem);
    lemma_listed(cwd, environment.after, RootList::EnvironmentAfter);
    lemma_appended(a, b, 5, 5, 6);
    lemma_appended(a + b, c, 5, 6, 7);
    lemma_appended(a + b + c, d, 5, 7, 8);
    lemma_appended(a + b + c + d, e, 5, 8, 9);
    lemma_appended(a + b + c + d + e, f, 5, 9, 10);
}

/// A file that is included in quotes is searched for in the directory of the source, in those of the
/// including files, in the working directory, then where `-iquote` says. It goes on as for a file in
/// angle brackets: where `-I`, `-isystem` and `-idirafter` say. Behind each option stand the
/// directories that the environment adds to it, and every list is searched in order. Files that are
/// injected are looked for in the working directory first.
#[verifier::spinoff_prover]
pub proof fn law_include_search_order(
    invocation: Invocation,
    cwd: Seq<u8>,
    parents: Seq<Seq<u8>>,
    environment: Environment,
)
    requires
        lists_fit(invocation, parents, environment),
    ensures
        ({
            let model = resolution::chains_of(invocation, cwd, parents, environment);
            &&& in_turn(model.quoted_include_roots)
            &&& in_turn(model.angle_include_roots)
            &&& model.quoted_include_roots[0].origin == SearchRootOrigin::SourceDirectory
            &&& model.forced_include_roots == seq![
                root_of(SearchRootOrigin::WorkingDirectory, cwd, Seq::empty()),
            ] + model.quoted_include_roots
        }),
{
    lemma_angle(invocation, cwd, parents, environment);
    let source = resolution::rooted(cwd, invocation.source->0);
    let first = seq![
        SearchRoot {
            origin: SearchRootOrigin::SourceDirectory,
            path: resolution::source_parent(cwd, source),
        },
    ];
    let second = resolution::listed_roots(cwd, parents, RootList::IncludeParents);
    let third = seq![resolution::working_root(cwd)];
    let fourth = resolution::tier(invocation.search_paths, SearchPathKind::Quote, cwd);
    let fifth = resolution::listed_roots(cwd, environment.quote, RootList::EnvironmentQuote);
    let rest = resolution::angle_chain(invocation, cwd, environment);
    lemma_listed(cwd, parents, RootList::IncludeParents);
    lemma_tier(invocation.search_paths, SearchPathKind::Quote, cwd);
    lemma_listed(cwd, environment.quote, RootList::EnvironmentQuote);
    lemma_appended(first, second, 0, 0, 1);
    lemma_appended(first + second, third, 0, 1, 2);
    lemma_appended(first + second + third, fourth, 0, 2, 3);
    lemma_appended(first + second + third + fourth, fifth, 0, 3, 4);
    lemma_appended(first + second + third + fourth + fifth, rest, 0, 4, 10);
    assert((first + second).push(resolution::working_root(cwd)) =~= first + second + third);
}

/// Modules are searched for in the working directory, where `-I` says, in the directory in which
/// modules are left, and where the environment says, in this order; intrinsic modules where their
/// option says and then where the environment does.
#[verifier::spinoff_prover]
pub proof fn law_module_search_order(
    invocation: Invocation,
    cwd: Seq<u8>,
    parents: Seq<Seq<u8>>,
    environment: Environment,
)
    requires
        lists_fit(invocation, parents, environment),
    ensures
        ({
            let model = resolution::chains_of(invocation, cwd, parents, environment);
            &&& in_turn(model.module_roots)
            &&& in_turn(model.intrinsic_module_roots)
            &&& model.module_roots[0] == root_of(
                SearchRootOrigin::WorkingDirectory,
                cwd,
                Seq::empty(),
            )
            &&& invocation.module_dir matches Some(directory) ==> model.module_roots.contains(
                root_of(SearchRootOrigin::ModuleOutput, cwd, directory),
            )
        }),
{
    let first = seq![resolution::working_root(cwd)];
    let second = resolution::tier(invocation.search_paths, SearchPathKind::Include, cwd);
    let third = match invocation.module_dir {
        Some(directory) => seq![
            SearchRoot {
                origin: SearchRootOrigin::ModuleOutput,
                path: resolution::rooted(cwd, directory),
            },
        ],
        None => Seq::empty(),
    };
    let fourth = resolution::listed_roots(cwd, environment.modules, RootList::EnvironmentModules);
    lemma_tier(invocation.search_paths, SearchPathKind::Include, cwd);
    lemma_listed(cwd, environment.modules, RootList::EnvironmentModules);
    lemma_appended(first, second, 2, 4, 5);
    lemma_appended(first + second, third, 2, 10, 11);
    lemma_appended(first + second + third, fourth, 2, 11, 12);
    let chain = resolution::module_chain(invocation, cwd, environment);
    assert(chain =~= first + second + third + fourth);
    if invocation.module_dir is Some {
        assert(third.contains(third[0]));
        lemma_part(first + second, third, fourth);
        assert(chain.contains(third[0]));
    }
    let own = resolution::listed_roots(
        cwd,
        invocation.intrinsic_module_dirs,
        RootList::IntrinsicModules,
    );
    let given = resolution::listed_roots(
        cwd,
        environment.intrinsic_modules,
        RootList::EnvironmentIntrinsicModules,
    );
    lemma_listed(cwd, invocation.intrinsic_module_dirs, RootList::IntrinsicModules);
    lemma_listed(cwd, environment.intrinsic_modules, RootList::EnvironmentIntrinsicModules);
    lemma_appended(own, given, 13, 13, 14);
}

/// No directory is left out: every search path of the command line stands in the chain of its tier,
/// those of `-I` in that of modules too, and so does every directory of the environment.
#[verifier::spinoff_prover]
pub proof fn law_every_directory_is_searched(
    invocation: Invocation,
    cwd: Seq<u8>,
    parents: Seq<Seq<u8>>,
    environment: Environment,
    at: int,
)
    requires
        lists_fit(invocation, parents, environment),
    ensures
        ({
            let model = resolution::chains_of(invocation, cwd, parents, environment);
            let paths = invocation.search_paths;
            &&& 0 <= at < paths.len() ==> {
                let root = root_of(
                    SearchRootOrigin::CommandLine(paths[at].kind, at as usize),
                    cwd,
                    paths[at].path,
                );
                &&& model.quoted_include_roots.contains(root)
                &&& paths[at].kind != SearchPathKind::Quote ==> model.angle_include_roots.contains(
                    root,
                )
                &&& paths[at].kind == SearchPathKind::Include ==> model.module_roots.contains(root)
            }
            &&& 0 <= at < parents.len() ==> model.quoted_include_roots.contains(
                root_of(SearchRootOrigin::IncludeParent(at as usize), cwd, parents[at]),
            )
            &&& 0 <= at < environment.quote.len() ==> model.quoted_include_roots.contains(
                root_of(SearchRootOrigin::EnvironmentQuote(at as usize), cwd, environment.quote[at]),
            )
            &&& 0 <= at < environment.includes.len() ==> {
                let root = root_of(
                    SearchRootOrigin::EnvironmentInclude(at as usize),
                    cwd,
                    environment.includes[at],
                );
                model.angle_include_roots.contains(root) && model.quoted_include_roots.contains(root)
            }
            &&& 0 <= at < environment.system.len() ==> {
                let root = root_of(
                    SearchRootOrigin::EnvironmentSystem(at as usize),
                    cwd,
                    environment.system[at],
                );
                model.angle_include_roots.contains(root) && model.quoted_include_roots.contains(root)
            }
            &&& 0 <= at < environment.after.len() ==> {
                let root = root_of(
                    SearchRootOrigin::EnvironmentAfter(at as usize),
                    cwd,
                    environment.after[at],
                );
                model.angle_include_roots.contains(root) && model.quoted_include_roots.contains(root)
            }
            &&& 0 <= at < environment.modules.len() ==> model.module_roots.contains(
                root_of(
                    SearchRootOrigin::EnvironmentModule(at as usize),
                    cwd,
                    environment.modules[at],
                ),
            )
            &&& 0 <= at < invocation.intrinsic_module_dirs.len()
                ==> model.intrinsic_module_roots.contains(
                root_of(
                    SearchRootOrigin::IntrinsicModule(at as usize),
                    cwd,
                    invocation.intrinsic_module_dirs[at],
                ),
            )
            &&& 0 <= at < environment.intrinsic_modules.len()
                ==> model.intrinsic_module_roots.contains(
                root_of(
                    SearchRootOrigin::EnvironmentIntrinsicModule(at as usize),
                    cwd,
                    environment.intrinsic_modules[at],
                ),
            )
        }),
{
    let paths = invocation.search_paths;
    let none = Seq::<SearchRoot<Seq<u8>>>::empty();
    let a = resolution::tier(paths, SearchPathKind::Include, cwd);
    let b = resolution::listed_roots(cwd, environment.includes, RootList::EnvironmentInclude);
    let c = resolution::tier(paths, SearchPathKind::System, cwd);
    let d = resolution::listed_roots(cwd, environment.system, RootList::EnvironmentSystem);
    let e = resolution::tier(paths, SearchPathKind::After, cwd);
    let f = resolution::listed_roots(cwd, environment.after, RootList::EnvironmentAfter);
    lemma_tier(paths, SearchPathKind::Quote, cwd);
    lemma_tier(paths, SearchPathKind::Include, cwd);
    lemma_tier(paths, SearchPathKind::System, cwd);
    lemma_tier(paths, SearchPathKind::After, cwd);
    lemma_listed(cwd, parents, RootList::IncludeParents);
    lemma_listed(cwd, environment.quote, RootList::EnvironmentQuote);
    lemma_listed(cwd, environment.includes, RootList::EnvironmentInclude);
    lemma_listed(cwd, environment.system, RootList::EnvironmentSystem);
    lemma_listed(cwd, environment.after, RootList::EnvironmentAfter);
    lemma_listed(cwd, environment.modules, RootList::EnvironmentModules);
    lemma_listed(cwd, invocation.intrinsic_module_dirs, RootList::IntrinsicModules);
    lemma_listed(cwd, environment.intrinsic_modules, RootList::EnvironmentIntrinsicModules);
    let angle = resolution::angle_chain(invocation, cwd, environment);
    lemma_part(none, a, b + c + d + e + f);
    lemma_part(a, b, c + d + e + f);
    lemma_part(a + b, c, d + e + f);
    lemma_part(a + b + c, d, e + f);
    lemma_part(a + b + c + d, e, f);
    lemma_part(a + b + c + d + e, f, none);
    assert(none + a + (b + c + d + e + f) =~= angle);
    assert(a + b + (c + d + e + f) =~= angle);
    assert(a + b + c + (d + e + f) =~= angle);
    assert(a + b + c + d + (e + f) =~= angle);
    assert(a + b + c + d + e + f + none =~= angle);
    let source = resolution::rooted(cwd, invocation.source->0);
    let first = seq![
        SearchRoot {
            origin: SearchRootOrigin::SourceDirectory,
            path: resolution::source_parent(cwd, source),
        },
    ];
    let second = resolution::listed_roots(cwd, parents, RootList::IncludeParents);
    let third = seq![resolution::working_root(cwd)];
    let fourth = resolution::tier(paths, SearchPathKind::Quote, cwd);
    let fifth = resolution::listed_roots(cwd, environment.quote, RootList::EnvironmentQuote);
    let quoted = resolution::quoted_chain(invocation, cwd, source, parents, environment);
    assert((first + second).push(resolution::working_root(cwd)) =~= first + second + third);
    lemma_part(first, second, third + fourth + fifth + angle);
    lemma_part(first + second + third, fourth, fifth + angle);
    lemma_part(first + second + third + fourth, fifth, angle);
    lemma_part(first + second + third + fourth + fifth, angle, none);
    assert(first + second + (third + fourth + fifth + angle) =~= quoted);
    assert(first + second + third + fourth + (fifth + angle) =~= quoted);
    assert(first + second + third + fourth + fifth + angle + none =~= quoted);
    let modules = resolution::module_chain(invocation, cwd, environment);
    let left = match invocation.module_dir {
        Some(directory) => seq![
            SearchRoot {
                origin: SearchRootOrigin::ModuleOutput,
                path: resolution::rooted(cwd, directory),
            },
        ],
        None => Seq::empty(),
    };
    let given = resolution::listed_roots(cwd, environment.modules, RootList::EnvironmentModules);
    lemma_part(third, a, left + given);
    lemma_part(third + a + left, given, none);
    assert(third + a + (left + given) =~= modules);
    assert(third + a + left + given + none =~= modules);
    let own = resolution::listed_roots(
        cwd,
        invocation.intrinsic_module_dirs,
        RootList::IntrinsicModules,
    );
    let others = resolution::listed_roots(
        cwd,
        environment.intrinsic_modules,
        RootList::EnvironmentIntrinsicModules,
    );
    lemma_part(none, own, others);
    lemma_part(own, others, none);
    assert(none + own + others =~= resolution::intrinsic_chain(invocation, cwd, environment));
    assert(own + others + none =~= resolution::intrinsic_chain(invocation, cwd, environment));
}

/// Each kind of dependency is explained by the chains through which it can have been found.
pub proof fn law_chains_of_a_dependency(model: Chains, forced: usize)
    ensures
        ({
            let of = |kind: DependencyResolutionKind| resolution::chains_for(model, kind);
            &&& of(DependencyResolutionKind::Include).contains(model.quoted_include_roots)
            &&& of(DependencyResolutionKind::Include).contains(model.angle_include_roots)
            &&& of(DependencyResolutionKind::ForcedInput(forced)).contains(
                model.forced_include_roots,
            )
            &&& of(DependencyResolutionKind::Module).contains(model.module_roots)
            &&& of(DependencyResolutionKind::Submodule).contains(model.module_roots)
            &&& of(DependencyResolutionKind::IntrinsicModule).contains(model.intrinsic_module_roots)
            &&& of(DependencyResolutionKind::ModuleOrInclude).contains(model.quoted_include_roots)
            &&& of(DependencyResolutionKind::ModuleOrInclude).contains(model.angle_include_roots)
            &&& of(DependencyResolutionKind::ModuleOrInclude).contains(model.module_roots)
        }),
{
    let includes = resolution::chains_for(model, DependencyResolutionKind::Include);
    let either = resolution::chains_for(model, DependencyResolutionKind::ModuleOrInclude);
    assert(includes[0] == model.quoted_include_roots && includes[1] == model.angle_include_roots);
    assert(either[0] == model.quoted_include_roots && either[1] == model.angle_include_roots
        && either[2] == model.module_roots);
    let injected = resolution::chains_for(model, DependencyResolutionKind::ForcedInput(forced));
    assert(injected[0] == model.forced_include_roots);
    let modules = resolution::chains_for(model, DependencyResolutionKind::Module);
    assert(modules[0] == model.module_roots);
    let submodules = resolution::chains_for(model, DependencyResolutionKind::Submodule);
    assert(submodules[0] == model.module_roots);
    let intrinsics = resolution::chains_for(model, DependencyResolutionKind::IntrinsicModule);
    assert(intrinsics[0] == model.intrinsic_module_roots);
}

/// A search can be proved exactly where the invocation is cached and names its source, the working
/// directory is absolute, every argument and variable is modelled, and neither an input nor an
/// argument can query the file system behind the depfile.
pub proof fn law_which_searches_can_be_proved(
    invocation: Invocation,
    cwd: Seq<u8>,
    environment: Environment,
    features: ObservedSearchFeatures,
)
    ensures
        resolution::ineligible(invocation, cwd, environment, features) is None <==> {
            &&& invocation.cacheability is Cacheable
            &&& invocation.source is Some
            &&& cwd.len() > 0 && cwd[0] == 0x2f
            &&& invocation.unmodeled_search_argument is None
            &&& environment.complete
            &&& features.scan_complete
            &&& !features.include_next && !features.has_include && !features.token_pasting
            &&& forall|at: int|
                0 <= at < invocation.original_args.len() ==> !bstr::has_infix(
                    #[trigger] invocation.original_args[at],
                    bstr::utf8("include_next"@),
                ) && !bstr::has_infix(
                    invocation.original_args[at],
                    bstr::utf8("__has_include"@),
                ) && !bstr::has_infix(invocation.original_args[at], bstr::utf8("##"@))
        },
{
}

/// Blanks, and a number sign behind them.
pub open spec fn starts_directive(line: Seq<u8>, sign: int) -> bool {
    &&& 0 <= sign < line.len()
    &&& line[sign] == 0x23
    &&& forall|at: int|
        0 <= at < sign ==> #[trigger] line[at] == 0x20 || line[at] == 0x09 || line[at] == 0x0b
            || line[at] == 0x0c || line[at] == 0x0d
}

proof fn lemma_directive(line: Seq<u8>)
    ensures
        resolution::is_directive(line) <==> exists|sign: int| starts_directive(line, sign),
    decreases line.len(),
{
    if line.len() > 0 {
        let rest = line.skip(1);
        if resolution::is_blank(line[0]) {
            lemma_directive(rest);
            if exists|sign: int| starts_directive(rest, sign) {
                let sign = choose|sign: int| starts_directive(rest, sign);
                assert forall|at: int| 0 <= at < sign + 1 implies #[trigger] line[at] == 0x20
                    || line[at] == 0x09 || line[at] == 0x0b || line[at] == 0x0c || line[at]
                    == 0x0d by {
                    if at > 0 {
                        assert(rest[at - 1] == line[at]);
                    }
                }
                assert(starts_directive(line, sign + 1));
            }
            if exists|sign: int| starts_directive(line, sign) {
                let sign = choose|sign: int| starts_directive(line, sign);
                assert forall|at: int| 0 <= at < sign - 1 implies #[trigger] rest[at] == 0x20
                    || rest[at] == 0x09 || rest[at] == 0x0b || rest[at] == 0x0c || rest[at]
                    == 0x0d by {
                    assert(rest[at] == line[at + 1]);
                }
                assert(starts_directive(rest, sign - 1));
            }
        } else if line[0] == 0x23 {
            assert(starts_directive(line, 0));
        } else {
            assert forall|sign: int| !starts_directive(line, sign) by {
                if starts_directive(line, sign) && sign > 0 {
                    assert(line[0] != 0x20);
                }
            }
        }
    }
}

proof fn lemma_line_len(text: Seq<u8>, end: int)
    requires
        0 <= end <= text.len(),
        forall|at: int| 0 <= at < end ==> text[at] != 0x0a,
        end < text.len() ==> text[end] == 0x0a,
    ensures
        resolution::line_len(text) == end,
    decreases text.len(),
{
    if text.len() > 0 && end > 0 {
        assert forall|at: int| 0 <= at < end - 1 implies text.skip(1)[at] != 0x0a by {
            assert(text.skip(1)[at] == text[at + 1]);
        }
        lemma_line_len(text.skip(1), end - 1);
    }
}

/// A text is found to mention something exactly where one of its preprocessor lines does: a line in
/// which a number sign stands behind nothing but blanks.
pub proof fn law_mentions_in_directives_are_found(lines: Seq<Seq<u8>>, needle: Seq<u8>)
    requires
        lines.len() > 0,
        forall|line: int, at: int|
            0 <= line < lines.len() && 0 <= at < lines[line].len() ==> #[trigger] lines[line][at]
                != 0x0a,
    ensures
        resolution::directive_mentions(bstr::joined(lines, 0x0a), needle) <==> exists|line: int|
            0 <= line < lines.len() && bstr::has_infix(#[trigger] lines[line], needle)
                && exists|sign: int| starts_directive(lines[line], sign),
    decreases lines.len(),
{
    let text = bstr::joined(lines, 0x0a);
    let end = lines[0].len() as int;
    assert forall|at: int| 0 <= at < end implies text[at] != 0x0a by {
        assert(text[at] == lines[0][at]);
    }
    lemma_directive(lines[0]);
    if lines.len() == 1 {
        lemma_line_len(text, end);
        assert(text.take(end) =~= lines[0]);
    } else {
        assert(text[end] == 0x0a);
        lemma_line_len(text, end);
        assert(text.take(end) =~= lines[0]);
        let rest = lines.skip(1);
        assert(text.skip(end + 1) =~= bstr::joined(rest, 0x0a));
        assert forall|line: int, at: int|
            0 <= line < rest.len() && 0 <= at < rest[line].len() implies #[trigger] rest[line][at]
            != 0x0a by {
            assert(lines[line + 1][at] != 0x0a);
        }
        law_mentions_in_directives_are_found(rest, needle);
        if exists|line: int|
            0 <= line < rest.len() && bstr::has_infix(#[trigger] rest[line], needle)
                && exists|sign: int| starts_directive(rest[line], sign) {
            let line = choose|line: int|
                0 <= line < rest.len() && bstr::has_infix(#[trigger] rest[line], needle)
                    && exists|sign: int| starts_directive(rest[line], sign);
            assert(lines[line + 1] == rest[line]);
        }
        if exists|line: int|
            0 <= line < lines.len() && bstr::has_infix(#[trigger] lines[line], needle)
                && exists|sign: int| starts_directive(lines[line], sign) {
            let line = choose|line: int|
                0 <= line < lines.len() && bstr::has_infix(#[trigger] lines[line], needle)
                    && exists|sign: int| starts_directive(lines[line], sign);
            if line > 0 {
                assert(rest[line - 1] == lines[line]);
            }
        }
    }
}

/// A line that a backslash continues is one line, however its end is written, and nothing else is
/// taken out of a text.
pub proof fn law_splices_are_taken_out(first: Seq<u8>, second: Seq<u8>)
    requires
        forall|at: int| 0 <= at < first.len() ==> #[trigger] first[at] != 0x5c,
    ensures
        resolution::spliced(first + seq![0x5cu8, 0x0au8] + second) == first + resolution::spliced(
            second,
        ),
        resolution::spliced(first + seq![0x5cu8, 0x0du8, 0x0au8] + second) == first
            + resolution::spliced(second),
        resolution::spliced(first) == first,
    decreases first.len(),
{
    let short = first + seq![0x5cu8, 0x0au8] + second;
    let long = first + seq![0x5cu8, 0x0du8, 0x0au8] + second;
    if first.len() == 0 {
        assert(short.skip(2) =~= second);
        assert(long.skip(3) =~= second);
        assert(short[0] == 0x5c && short[1] == 0x0a);
        assert(long[0] == 0x5c && long[1] == 0x0d && long[2] == 0x0a);
        assert(first + resolution::spliced(second) =~= resolution::spliced(second));
        assert(first =~= Seq::empty());
    } else {
        let rest = first.skip(1);
        assert forall|at: int| 0 <= at < rest.len() implies #[trigger] rest[at] != 0x5c by {
            assert(rest[at] == first[at + 1]);
        }
        law_splices_are_taken_out(rest, second);
        assert(first[0] != 0x5c);
        assert(short[0] == first[0] && long[0] == first[0]);
        assert(short.skip(1) =~= rest + seq![0x5cu8, 0x0au8] + second);
        assert(long.skip(1) =~= rest + seq![0x5cu8, 0x0du8, 0x0au8] + second);
        assert(resolution::spliced(short) =~= first + resolution::spliced(second));
        assert(resolution::spliced(long) =~= first + resolution::spliced(second));
        assert(resolution::spliced(first) =~= first);
    }
}

} // verus!
