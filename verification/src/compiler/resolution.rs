//! Proofs that an observed dependency is the file that gfortran would select again.
//!
//! The compiler says which files it read. For each of them the search roots that could have led to
//! it are listed, with every earlier candidate path of those chains: while the selected files stay
//! as they are and the candidates stay absent, the compiler selects the same files. What the search
//! model does not cover is refused with a reason.
use vstd::prelude::*;

use crate::bstr;
use crate::compiler::gfortran::{Cacheability, GfortranInvocation, Invocation};
use crate::upath;
use crate::words;

verus! {

broadcast use bstr::lemma_views_push;

/// A command-line directory search tier.
#[derive(Clone, Copy, Debug, PartialEq, Eq, Structural)]
pub enum SearchPathKind {
    Quote,
    Include,
    System,
    After,
}

/// A command-line search path.
#[derive(Clone, Debug, PartialEq, Eq)]
pub struct SearchPath<B = Vec<u8>> {
    pub kind: SearchPathKind,
    pub path: B,
}

impl View for SearchPath {
    type V = SearchPath<Seq<u8>>;

    open spec fn view(&self) -> SearchPath<Seq<u8>> {
        SearchPath { kind: self.kind, path: self.path@ }
    }
}

/// The preprocessing action that injects a file.
#[derive(Clone, Copy, Debug, PartialEq, Eq, Structural)]
pub enum ForcedInputKind {
    Include,
    Imacros,
}

/// A file that the command line injects into preprocessing.
#[derive(Clone, Debug, PartialEq, Eq)]
pub struct ForcedInput<B = Vec<u8>> {
    pub kind: ForcedInputKind,
    pub path: B,
}

impl View for ForcedInput {
    type V = ForcedInput<Seq<u8>>;

    open spec fn view(&self) -> ForcedInput<Seq<u8>> {
        ForcedInput { kind: self.kind, path: self.path@ }
    }
}

/// The contents of a list of search paths.
pub open spec fn search_views(list: Seq<SearchPath>) -> Seq<SearchPath<Seq<u8>>> {
    list.map_values(|search: SearchPath| search@)
}

/// The contents of a list of forced inputs.
pub open spec fn forced_views(list: Seq<ForcedInput>) -> Seq<ForcedInput<Seq<u8>>> {
    list.map_values(|forced: ForcedInput| forced@)
}

/// The contents of a list grow by the contents of the item that is pushed.
pub broadcast proof fn lemma_search_views_push(list: Seq<SearchPath>, item: SearchPath)
    ensures
        #[trigger] search_views(list.push(item)) == search_views(list).push(item@),
{
    assert(search_views(list.push(item)) =~= search_views(list).push(item@));
}

/// The contents of a list grow by the contents of the item that is pushed.
pub broadcast proof fn lemma_forced_views_push(list: Seq<ForcedInput>, item: ForcedInput)
    ensures
        #[trigger] forced_views(list.push(item)) == forced_views(list).push(item@),
{
    assert(forced_views(list.push(item)) =~= forced_views(list).push(item@));
}

/// Search paths obtained outside the command line, in compiler search order within each tier.
#[derive(Clone, Debug, Default, PartialEq, Eq)]
pub struct EnvironmentSearchPaths {
    pub quote: Vec<Vec<u8>>,
    pub includes: Vec<Vec<u8>>,
    pub system: Vec<Vec<u8>>,
    pub after: Vec<Vec<u8>>,
    pub modules: Vec<Vec<u8>>,
    pub intrinsic_modules: Vec<Vec<u8>>,
    /// False unless all search-affecting environment and compiler-default paths were modelled.
    pub complete: bool,
}

/// The contents of an `EnvironmentSearchPaths`.
#[verifier::ext_equal]
pub struct Environment {
    pub quote: Seq<Seq<u8>>,
    pub includes: Seq<Seq<u8>>,
    pub system: Seq<Seq<u8>>,
    pub after: Seq<Seq<u8>>,
    pub modules: Seq<Seq<u8>>,
    pub intrinsic_modules: Seq<Seq<u8>>,
    pub complete: bool,
}

impl View for EnvironmentSearchPaths {
    type V = Environment;

    open spec fn view(&self) -> Environment {
        Environment {
            quote: bstr::views(self.quote@),
            includes: bstr::views(self.includes@),
            system: bstr::views(self.system@),
            after: bstr::views(self.after@),
            modules: bstr::views(self.modules@),
            intrinsic_modules: bstr::views(self.intrinsic_modules@),
            complete: self.complete,
        }
    }
}

impl EnvironmentSearchPaths {
    /// A fully modelled environment with no additional search paths.
    pub fn complete_empty() -> (paths: Self)
        ensures
            paths@ == (Environment {
                quote: Seq::empty(),
                includes: Seq::empty(),
                system: Seq::empty(),
                after: Seq::empty(),
                modules: Seq::empty(),
                intrinsic_modules: Seq::empty(),
                complete: true,
            }),
    {
        let paths = EnvironmentSearchPaths {
            quote: Vec::new(),
            includes: Vec::new(),
            system: Vec::new(),
            after: Vec::new(),
            modules: Vec::new(),
            intrinsic_modules: Vec::new(),
            complete: true,
        };
        assert(paths@.quote =~= Seq::empty());
        assert(paths@.includes =~= Seq::empty());
        assert(paths@.system =~= Seq::empty());
        assert(paths@.after =~= Seq::empty());
        assert(paths@.modules =~= Seq::empty());
        assert(paths@.intrinsic_modules =~= Seq::empty());
        paths
    }
}

/// Source constructs relevant to filesystem search that were found in all observed inputs.
#[derive(Clone, Copy, Debug, Default, PartialEq, Eq, Structural)]
pub struct ObservedSearchFeatures {
    pub scan_complete: bool,
    pub include_next: bool,
    pub has_include: bool,
    pub token_pasting: bool,
}

/// The input without the line splices: a backslash before a line end joins two lines.
pub open spec fn spliced(input: Seq<u8>) -> Seq<u8>
    decreases input.len(),
{
    if input.len() == 0 {
        Seq::empty()
    } else if input.len() >= 2 && input[0] == 0x5c && input[1] == 0x0a {
        spliced(input.skip(2))
    } else if input.len() >= 3 && input[0] == 0x5c && input[1] == 0x0d && input[2] == 0x0a {
        spliced(input.skip(3))
    } else {
        seq![input[0]] + spliced(input.skip(1))
    }
}

/// The input without the line splices.
pub fn join_line_splices(input: &[u8]) -> (joined: Vec<u8>)
    ensures
        joined@ == spliced(input@),
{
    let mut joined: Vec<u8> = Vec::new();
    let mut index: usize = 0;
    assert(input@.skip(0) =~= input@);
    while index < input.len()
        invariant
            index <= input.len(),
            joined@ + spliced(input@.skip(index as int)) =~= spliced(input@),
        decreases input.len() - index,
    {
        let ghost rest = input@.skip(index as int);
        assert(rest[0] == input@[index as int]);
        assert(rest.len() >= 2 ==> rest[1] == input@[index + 1]);
        assert(rest.len() >= 3 ==> rest[2] == input@[index + 2]);
        if input.len() - index >= 2 && input[index] == 0x5c && input[index + 1] == 0x0a {
            assert(rest.skip(2) =~= input@.skip(index + 2));
            index += 2;
        } else if input.len() - index >= 3 && input[index] == 0x5c && input[index + 1] == 0x0d
            && input[index + 2] == 0x0a {
            assert(rest.skip(3) =~= input@.skip(index + 3));
            index += 3;
        } else {
            assert(rest.skip(1) =~= input@.skip(index + 1));
            joined.push(input[index]);
            index += 1;
        }
    }
    assert(input@.skip(index as int) =~= Seq::empty());
    joined
}

/// Bytes that may stand before the `#` of a directive.
pub open spec fn is_blank(byte: u8) -> bool {
    byte == 0x20 || byte == 0x09 || byte == 0x0b || byte == 0x0c || byte == 0x0d
}

/// The first byte of the line that is not blank is `#`.
pub open spec fn is_directive(line: Seq<u8>) -> bool
    decreases line.len(),
{
    if line.len() == 0 {
        false
    } else if is_blank(line[0]) {
        is_directive(line.skip(1))
    } else {
        line[0] == 0x23
    }
}

/// The length of the first line.
pub open spec fn line_len(text: Seq<u8>) -> nat
    decreases text.len(),
{
    if text.len() == 0 || text[0] == 0x0a {
        0
    } else {
        1 + line_len(text.skip(1))
    }
}

/// Some directive line of a text mentions `needle`.
pub open spec fn directive_mentions(text: Seq<u8>, needle: Seq<u8>) -> bool
    decreases text.len(),
{
    let end = line_len(text) as int;
    let line = text.take(end);
    ||| is_directive(line) && bstr::has_infix(line, needle)
    ||| end < text.len() && directive_mentions(text.skip(end + 1), needle)
}

/// Some input has a directive line that mentions `needle`.
pub open spec fn inputs_mention(inputs: Seq<Seq<u8>>, needle: Seq<u8>) -> bool {
    exists|at: int| 0 <= at < inputs.len() && directive_mentions(#[trigger] spliced(inputs[at]), needle)
}

/// Some argument mentions `needle`.
pub open spec fn arguments_mention(args: Seq<Seq<u8>>, needle: Seq<u8>) -> bool {
    exists|at: int| 0 <= at < args.len() && bstr::has_infix(#[trigger] args[at], needle)
}

proof fn lemma_line_len(text: Seq<u8>, end: int)
    requires
        0 <= end <= text.len(),
        forall|at: int| 0 <= at < end ==> text[at] != 0x0a,
        end < text.len() ==> text[end] == 0x0a,
    ensures
        line_len(text) == end,
    decreases text.len(),
{
    if text.len() > 0 && text[0] != 0x0a {
        assert forall|at: int| 0 <= at < end - 1 implies text.skip(1)[at] != 0x0a by {
            assert(text.skip(1)[at] == text[at + 1]);
        }
        lemma_line_len(text.skip(1), end - 1);
    }
}

fn directive_line(line: &[u8]) -> (yes: bool)
    ensures
        yes == is_directive(line@),
{
    let mut index: usize = 0;
    assert(line@.skip(0) =~= line@);
    while index < line.len()
        invariant
            index <= line.len(),
            is_directive(line@.skip(index as int)) == is_directive(line@),
        decreases line.len() - index,
    {
        let byte: u8 = line[index];
        assert(line@.skip(index as int)[0] == byte);
        assert(line@.skip(index as int).skip(1) =~= line@.skip(index + 1));
        if !(byte == 0x20 || byte == 0x09 || byte == 0x0b || byte == 0x0c || byte == 0x0d) {
            return byte == 0x23;
        }
        index += 1;
    }
    false
}

fn directive_contains(text: &[u8], needle: &str) -> (found: bool)
    ensures
        found == directive_mentions(text@, bstr::utf8(needle@)),
{
    let ghost wanted = bstr::utf8(needle@);
    let mut start: usize = 0;
    assert(text@.skip(0) =~= text@);
    loop
        invariant
            start <= text.len(),
            wanted == bstr::utf8(needle@),
            directive_mentions(text@.skip(start as int), wanted) == directive_mentions(
                text@,
                wanted,
            ),
        decreases text.len() - start,
    {
        let rest = bstr::skip(text, start);
        let end: usize = match bstr::find(rest, 0x0a) {
            Some(at) => at,
            None => rest.len(),
        };
        proof {
            assert forall|at: int| 0 <= at < end implies rest@[at] != 0x0a by {
                if rest@[at] == 0x0a {
                    assert(rest@.contains(0x0a));
                }
            }
            lemma_line_len(rest@, end as int);
        }
        let line = bstr::take(rest, end);
        if directive_line(line) && bstr::contains_bytes(line, bstr::of(needle)) {
            return true;
        }
        if end >= rest.len() {
            return false;
        }
        assert(rest@.skip(end + 1) =~= text@.skip(start + end + 1));
        start = start + end + 1;
    }
}

impl ObservedSearchFeatures {
    /// Scans every observed source and included input.
    pub fn scan(inputs: &Vec<Vec<u8>>) -> (features: Self)
        ensures
            features.scan_complete,
            features.include_next == inputs_mention(
                bstr::views(inputs@),
                bstr::utf8("include_next"@),
            ),
            features.has_include == inputs_mention(
                bstr::views(inputs@),
                bstr::utf8("__has_include"@),
            ),
            features.token_pasting == inputs_mention(bstr::views(inputs@), bstr::utf8("##"@)),
    {
        ObservedSearchFeatures {
            scan_complete: true,
            include_next: Self::observe(inputs, "include_next"),
            has_include: Self::observe(inputs, "__has_include"),
            token_pasting: Self::observe(inputs, "##"),
        }
    }

    fn observe(inputs: &Vec<Vec<u8>>, needle: &str) -> (found: bool)
        ensures
            found == inputs_mention(bstr::views(inputs@), bstr::utf8(needle@)),
    {
        let ghost all = bstr::views(inputs@);
        let mut index: usize = 0;
        while index < inputs.len()
            invariant
                index <= inputs.len(),
                all == bstr::views(inputs@),
                forall|at: int|
                    0 <= at < index ==> !directive_mentions(
                        #[trigger] spliced(all[at]),
                        bstr::utf8(needle@),
                    ),
            decreases inputs.len() - index,
        {
            let joined = join_line_splices(inputs[index].as_slice());
            assert(all[index as int] == inputs@[index as int]@);
            if directive_contains(joined.as_slice(), needle) {
                assert(directive_mentions(spliced(all[index as int]), bstr::utf8(needle@)));
                return true;
            }
            index += 1;
        }
        false
    }

    /// Whether compiler depfiles can enumerate every filesystem query in these inputs.
    pub fn permits_complete_depfile_observation(&self) -> (yes: bool)
        ensures
            yes == (self.scan_complete && !self.has_include && !self.token_pasting),
    {
        self.scan_complete && !self.has_include && !self.token_pasting
    }
}

/// What is needed to construct ordered search chains for a prior compiler observation.
#[derive(Clone, Copy, Debug)]
pub struct ResolutionContext<'a> {
    pub cwd: &'a [u8],
    /// Parent directories of every compiler-observed input, in depfile order.
    pub include_parents: &'a Vec<Vec<u8>>,
    pub environment: &'a EnvironmentSearchPaths,
    pub observed_features: &'a ObservedSearchFeatures,
}

/// The origin of a modelled search root.
#[derive(Clone, Copy, Debug, PartialEq, Eq, Structural)]
pub enum SearchRootOrigin {
    SourceDirectory,
    IncludeParent(usize),
    WorkingDirectory,
    CommandLine(SearchPathKind, usize),
    ModuleOutput,
    IntrinsicModule(usize),
    EnvironmentQuote(usize),
    EnvironmentInclude(usize),
    EnvironmentSystem(usize),
    EnvironmentAfter(usize),
    EnvironmentModule(usize),
    EnvironmentIntrinsicModule(usize),
}

/// An absolute lexical search root and its source.
#[derive(Clone, Debug, PartialEq, Eq)]
pub struct SearchRoot<B = Vec<u8>> {
    pub origin: SearchRootOrigin,
    pub path: B,
}

impl View for SearchRoot {
    type V = SearchRoot<Seq<u8>>;

    open spec fn view(&self) -> SearchRoot<Seq<u8>> {
        SearchRoot { origin: self.origin, path: self.path@ }
    }
}

/// The contents of a list of search roots.
pub open spec fn root_views(list: Seq<SearchRoot>) -> Seq<SearchRoot<Seq<u8>>> {
    list.map_values(|root: SearchRoot| root@)
}

/// Two search roots have the same origin and the same path.
pub open spec fn same_root(left: SearchRoot<Seq<u8>>, right: SearchRoot<Seq<u8>>) -> bool {
    left.origin == right.origin && upath::same_path(left.path, right.path)
}

/// Ordered search chains used only to validate a compiler-authoritative observation.
#[derive(Clone, Debug, PartialEq, Eq)]
pub struct SearchResolutionModel {
    pub quoted_include_roots: Vec<SearchRoot>,
    pub angle_include_roots: Vec<SearchRoot>,
    pub forced_include_roots: Vec<SearchRoot>,
    pub module_roots: Vec<SearchRoot>,
    pub intrinsic_module_roots: Vec<SearchRoot>,
    pub forced_inputs: Vec<ForcedInput>,
    pub cwd: Vec<u8>,
    pub source: Vec<u8>,
}

/// The contents of a `SearchResolutionModel`.
#[verifier::ext_equal]
pub struct Chains {
    pub quoted_include_roots: Seq<SearchRoot<Seq<u8>>>,
    pub angle_include_roots: Seq<SearchRoot<Seq<u8>>>,
    pub forced_include_roots: Seq<SearchRoot<Seq<u8>>>,
    pub module_roots: Seq<SearchRoot<Seq<u8>>>,
    pub intrinsic_module_roots: Seq<SearchRoot<Seq<u8>>>,
    pub forced_inputs: Seq<ForcedInput<Seq<u8>>>,
    pub cwd: Seq<u8>,
    pub source: Seq<u8>,
}

impl View for SearchResolutionModel {
    type V = Chains;

    open spec fn view(&self) -> Chains {
        Chains {
            quoted_include_roots: root_views(self.quoted_include_roots@),
            angle_include_roots: root_views(self.angle_include_roots@),
            forced_include_roots: root_views(self.forced_include_roots@),
            module_roots: root_views(self.module_roots@),
            intrinsic_module_roots: root_views(self.intrinsic_module_roots@),
            forced_inputs: forced_views(self.forced_inputs@),
            cwd: self.cwd@,
            source: self.source@,
        }
    }
}

/// How a compiler-observed prerequisite was resolved.
#[derive(Clone, Copy, Debug, PartialEq, Eq, Structural)]
pub enum DependencyResolutionKind {
    Source,
    Include,
    ForcedInput(usize),
    Module,
    Submodule,
    IntrinsicModule,
    ModuleOrInclude,
}

/// A raw depfile prerequisite correlated with the path that the compiler read.
#[derive(Clone, Debug, PartialEq, Eq)]
pub struct DependencyObservation<B = Vec<u8>> {
    pub prerequisite: B,
    pub resolved_path: B,
    pub kind: DependencyResolutionKind,
}

impl View for DependencyObservation {
    type V = DependencyObservation<Seq<u8>>;

    open spec fn view(&self) -> DependencyObservation<Seq<u8>> {
        DependencyObservation {
            prerequisite: self.prerequisite@,
            resolved_path: self.resolved_path@,
            kind: self.kind,
        }
    }
}

/// The contents of a list of observations.
pub open spec fn observation_views(list: Seq<DependencyObservation>) -> Seq<
    DependencyObservation<Seq<u8>>,
> {
    list.map_values(|observation: DependencyObservation| observation@)
}

/// The selected file and all modelled roots that could have selected it.
#[derive(Clone, Debug, PartialEq, Eq)]
pub struct SelectedPathWitness {
    pub prerequisite: Vec<u8>,
    pub selected_path: Vec<u8>,
    pub kind: DependencyResolutionKind,
    pub possible_roots: Vec<SearchRoot>,
}

/// The contents of a `SelectedPathWitness`.
#[verifier::ext_equal]
pub struct Selection {
    pub prerequisite: Seq<u8>,
    pub selected_path: Seq<u8>,
    pub kind: DependencyResolutionKind,
    pub possible_roots: Seq<SearchRoot<Seq<u8>>>,
}

impl View for SelectedPathWitness {
    type V = Selection;

    open spec fn view(&self) -> Selection {
        Selection {
            prerequisite: self.prerequisite@,
            selected_path: self.selected_path@,
            kind: self.kind,
            possible_roots: root_views(self.possible_roots@),
        }
    }
}

/// A path that must remain absent so it cannot shadow a previously selected file.
#[derive(Clone, Debug, PartialEq, Eq)]
pub struct NegativePathWitness<B = Vec<u8>> {
    pub prerequisite: B,
    pub path: B,
}

impl View for NegativePathWitness {
    type V = NegativePathWitness<Seq<u8>>;

    open spec fn view(&self) -> NegativePathWitness<Seq<u8>> {
        NegativePathWitness { prerequisite: self.prerequisite@, path: self.path@ }
    }
}

/// Positive selections and conservative earlier negative candidates.
#[derive(Clone, Debug, Default, PartialEq, Eq)]
pub struct ResolutionProof {
    pub selected: Vec<SelectedPathWitness>,
    pub negative_candidates: Vec<NegativePathWitness>,
}

/// The contents of a `ResolutionProof`.
#[verifier::ext_equal]
pub struct Witnesses {
    pub selected: Seq<Selection>,
    pub negative_candidates: Seq<NegativePathWitness<Seq<u8>>>,
}

impl View for ResolutionProof {
    type V = Witnesses;

    open spec fn view(&self) -> Witnesses {
        Witnesses {
            selected: self.selected@.map_values(|selected: SelectedPathWitness| selected@),
            negative_candidates: self.negative_candidates@.map_values(
                |negative: NegativePathWitness| negative@,
            ),
        }
    }
}

/// Why a compiler observation cannot use compiler-free direct validation.
#[derive(Clone, Debug, PartialEq, Eq)]
pub enum DirectIneligibleReason<B = Vec<u8>> {
    InvocationNotCacheable,
    UnmodeledArgument(B),
    UnmodeledEnvironment,
    IncompleteFeatureScan,
    IncludeNext,
    HasInclude,
    TokenPasting,
    UnsupportedPathEncoding,
    UnknownForcedInput(usize),
    MissingForcedInput(usize),
    RelativeWorkingDirectory,
    UnresolvedPrerequisite(B),
}

impl View for DirectIneligibleReason {
    type V = DirectIneligibleReason<Seq<u8>>;

    open spec fn view(&self) -> DirectIneligibleReason<Seq<u8>> {
        match *self {
            DirectIneligibleReason::InvocationNotCacheable => {
                DirectIneligibleReason::InvocationNotCacheable
            },
            DirectIneligibleReason::UnmodeledArgument(argument) => {
                DirectIneligibleReason::UnmodeledArgument(argument@)
            },
            DirectIneligibleReason::UnmodeledEnvironment => {
                DirectIneligibleReason::UnmodeledEnvironment
            },
            DirectIneligibleReason::IncompleteFeatureScan => {
                DirectIneligibleReason::IncompleteFeatureScan
            },
            DirectIneligibleReason::IncludeNext => DirectIneligibleReason::IncludeNext,
            DirectIneligibleReason::HasInclude => DirectIneligibleReason::HasInclude,
            DirectIneligibleReason::TokenPasting => DirectIneligibleReason::TokenPasting,
            DirectIneligibleReason::UnsupportedPathEncoding => {
                DirectIneligibleReason::UnsupportedPathEncoding
            },
            DirectIneligibleReason::UnknownForcedInput(index) => {
                DirectIneligibleReason::UnknownForcedInput(index)
            },
            DirectIneligibleReason::MissingForcedInput(index) => {
                DirectIneligibleReason::MissingForcedInput(index)
            },
            DirectIneligibleReason::RelativeWorkingDirectory => {
                DirectIneligibleReason::RelativeWorkingDirectory
            },
            DirectIneligibleReason::UnresolvedPrerequisite(prerequisite) => {
                DirectIneligibleReason::UnresolvedPrerequisite(prerequisite@)
            },
        }
    }
}

/// Why there is no proof, in words. `shown` is how the argument that it is about is shown.
pub open spec fn ineligible_text(
    error: DirectIneligibleReason<Seq<u8>>,
    shown: Seq<char>,
) -> Seq<char> {
    match error {
        DirectIneligibleReason::InvocationNotCacheable => "the invocation is not cacheable"@,
        DirectIneligibleReason::UnmodeledArgument(_) => {
            "search-affecting argument "@ + shown + " is not modeled"@
        },
        DirectIneligibleReason::UnmodeledEnvironment => {
            "search-affecting environment or compiler defaults are incomplete"@
        },
        DirectIneligibleReason::IncompleteFeatureScan => {
            "the observed-input search-feature scan is incomplete"@
        },
        DirectIneligibleReason::IncludeNext => "include_next cannot be proven from a depfile"@,
        DirectIneligibleReason::HasInclude => {
            "__has_include filesystem queries cannot be proven from a depfile"@
        },
        DirectIneligibleReason::TokenPasting => {
            "preprocessor token pasting can hide filesystem query operators"@
        },
        DirectIneligibleReason::UnsupportedPathEncoding => {
            "dependency observation has an unsupported path encoding"@
        },
        DirectIneligibleReason::UnknownForcedInput(index) => {
            "forced-input observation refers to missing argument index "@
                + words::number_text(index as nat)
        },
        DirectIneligibleReason::MissingForcedInput(index) => {
            "forced input at argument index "@
                + words::number_text(index as nat)
                + " is absent from the authoritative observation"@
        },
        DirectIneligibleReason::RelativeWorkingDirectory => {
            "the working directory must be absolute"@
        },
        DirectIneligibleReason::UnresolvedPrerequisite(prerequisite) => {
            "dependency prerequisite "@
                + words::list_text(prerequisite)
                + " has no complete modeled resolution"@
        },
    }
}

impl DirectIneligibleReason {
    /// Why there is no proof, in words. `shown` is how the argument that it is about is shown.
    pub fn message(&self, shown: &str) -> (text: String)
        ensures
            text@ == ineligible_text(self@, shown@),
    {
        match self {
            DirectIneligibleReason::InvocationNotCacheable => {
                "the invocation is not cacheable".to_owned()
            },
            DirectIneligibleReason::UnmodeledArgument(_) => words::three(
                "search-affecting argument ",
                shown,
                " is not modeled",
            ),
            DirectIneligibleReason::UnmodeledEnvironment => {
                "search-affecting environment or compiler defaults are incomplete".to_owned()
            },
            DirectIneligibleReason::IncompleteFeatureScan => {
                "the observed-input search-feature scan is incomplete".to_owned()
            },
            DirectIneligibleReason::IncludeNext => {
                "include_next cannot be proven from a depfile".to_owned()
            },
            DirectIneligibleReason::HasInclude => {
                "__has_include filesystem queries cannot be proven from a depfile".to_owned()
            },
            DirectIneligibleReason::TokenPasting => {
                "preprocessor token pasting can hide filesystem query operators".to_owned()
            },
            DirectIneligibleReason::UnsupportedPathEncoding => {
                "dependency observation has an unsupported path encoding".to_owned()
            },
            DirectIneligibleReason::UnknownForcedInput(index) => words::two(
                "forced-input observation refers to missing argument index ",
                words::number(*index as u64).as_str(),
            ),
            DirectIneligibleReason::MissingForcedInput(index) => words::three(
                "forced input at argument index ",
                words::number(*index as u64).as_str(),
                " is absent from the authoritative observation",
            ),
            DirectIneligibleReason::RelativeWorkingDirectory => {
                "the working directory must be absolute".to_owned()
            },
            DirectIneligibleReason::UnresolvedPrerequisite(prerequisite) => words::three(
                "dependency prerequisite ",
                words::list(prerequisite.as_slice()).as_str(),
                " has no complete modeled resolution",
            ),
        }
    }
}

/// A path seen from the working directory. The empty path is the directory itself.
pub open spec fn rooted(cwd: Seq<u8>, value: Seq<u8>) -> Seq<u8> {
    if value.len() == 0 {
        cwd
    } else {
        upath::joined(cwd, value)
    }
}

fn absolute_root(cwd: &[u8], value: &[u8]) -> (path: Vec<u8>)
    ensures
        path@ == rooted(cwd@, value@),
{
    if value.len() == 0 {
        bstr::copy(cwd)
    } else {
        upath::join(cwd, value)
    }
}

/// The search roots of one command-line tier, in order.
pub open spec fn tier(paths: Seq<SearchPath<Seq<u8>>>, kind: SearchPathKind, cwd: Seq<u8>) -> Seq<
    SearchRoot<Seq<u8>>,
>
    decreases paths.len(),
{
    if paths.len() == 0 {
        Seq::empty()
    } else {
        let earlier = tier(paths.drop_last(), kind, cwd);
        if paths.last().kind == kind {
            earlier.push(
                SearchRoot {
                    origin: SearchRootOrigin::CommandLine(kind, (paths.len() - 1) as usize),
                    path: rooted(cwd, paths.last().path),
                },
            )
        } else {
            earlier
        }
    }
}

/// The lists of search roots whose order is that of the list that they come from.
#[derive(Clone, Copy, Debug, PartialEq, Eq, Structural)]
pub enum RootList {
    IncludeParents,
    IntrinsicModules,
    EnvironmentQuote,
    EnvironmentInclude,
    EnvironmentSystem,
    EnvironmentAfter,
    EnvironmentModules,
    EnvironmentIntrinsicModules,
}

/// The origin of the item at `index` of a list of search roots.
pub open spec fn origin_at(list: RootList, index: usize) -> SearchRootOrigin {
    match list {
        RootList::IncludeParents => SearchRootOrigin::IncludeParent(index),
        RootList::IntrinsicModules => SearchRootOrigin::IntrinsicModule(index),
        RootList::EnvironmentQuote => SearchRootOrigin::EnvironmentQuote(index),
        RootList::EnvironmentInclude => SearchRootOrigin::EnvironmentInclude(index),
        RootList::EnvironmentSystem => SearchRootOrigin::EnvironmentSystem(index),
        RootList::EnvironmentAfter => SearchRootOrigin::EnvironmentAfter(index),
        RootList::EnvironmentModules => SearchRootOrigin::EnvironmentModule(index),
        RootList::EnvironmentIntrinsicModules => {
            SearchRootOrigin::EnvironmentIntrinsicModule(index)
        },
    }
}

/// The search roots of a list of directories.
pub open spec fn listed_roots(cwd: Seq<u8>, paths: Seq<Seq<u8>>, list: RootList) -> Seq<
    SearchRoot<Seq<u8>>,
> {
    Seq::new(
        paths.len(),
        |index: int|
            SearchRoot { origin: origin_at(list, index as usize), path: rooted(cwd, paths[index]) },
    )
}

/// The directory of the source, of which the search for quoted names starts.
pub open spec fn source_parent(cwd: Seq<u8>, source: Seq<u8>) -> Seq<u8> {
    match upath::parent_of(source) {
        Some(parent) => parent,
        None => cwd,
    }
}

/// The working directory as a search root.
pub open spec fn working_root(cwd: Seq<u8>) -> SearchRoot<Seq<u8>> {
    SearchRoot { origin: SearchRootOrigin::WorkingDirectory, path: cwd }
}

/// The chain for names in angle brackets.
pub open spec fn angle_chain(invocation: Invocation, cwd: Seq<u8>, environment: Environment) -> Seq<
    SearchRoot<Seq<u8>>,
> {
    tier(invocation.search_paths, SearchPathKind::Include, cwd) + listed_roots(
        cwd,
        environment.includes,
        RootList::EnvironmentInclude,
    ) + tier(invocation.search_paths, SearchPathKind::System, cwd) + listed_roots(
        cwd,
        environment.system,
        RootList::EnvironmentSystem,
    ) + tier(invocation.search_paths, SearchPathKind::After, cwd) + listed_roots(
        cwd,
        environment.after,
        RootList::EnvironmentAfter,
    )
}

/// The chain for quoted names.
pub open spec fn quoted_chain(
    invocation: Invocation,
    cwd: Seq<u8>,
    source: Seq<u8>,
    parents: Seq<Seq<u8>>,
    environment: Environment,
) -> Seq<SearchRoot<Seq<u8>>> {
    (seq![
        SearchRoot {
            origin: SearchRootOrigin::SourceDirectory,
            path: source_parent(cwd, source),
        },
    ] + listed_roots(cwd, parents, RootList::IncludeParents)).push(working_root(cwd)) + tier(
        invocation.search_paths,
        SearchPathKind::Quote,
        cwd,
    ) + listed_roots(cwd, environment.quote, RootList::EnvironmentQuote) + angle_chain(
        invocation,
        cwd,
        environment,
    )
}

/// The chain for modules.
pub open spec fn module_chain(invocation: Invocation, cwd: Seq<u8>, environment: Environment) -> Seq<
    SearchRoot<Seq<u8>>,
> {
    let searched = seq![working_root(cwd)] + tier(
        invocation.search_paths,
        SearchPathKind::Include,
        cwd,
    );
    let written = match invocation.module_dir {
        Some(directory) => searched.push(
            SearchRoot { origin: SearchRootOrigin::ModuleOutput, path: rooted(cwd, directory) },
        ),
        None => searched,
    };
    written + listed_roots(cwd, environment.modules, RootList::EnvironmentModules)
}

/// The chain for intrinsic modules.
pub open spec fn intrinsic_chain(
    invocation: Invocation,
    cwd: Seq<u8>,
    environment: Environment,
) -> Seq<SearchRoot<Seq<u8>>> {
    listed_roots(cwd, invocation.intrinsic_module_dirs, RootList::IntrinsicModules) + listed_roots(
        cwd,
        environment.intrinsic_modules,
        RootList::EnvironmentIntrinsicModules,
    )
}

/// The construct that keeps depfiles from listing every query, in inputs or arguments.
pub open spec fn hidden_query(include_next: bool, has_include: bool, token_pasting: bool) -> Option<
    DirectIneligibleReason<Seq<u8>>,
> {
    if include_next {
        Some(DirectIneligibleReason::IncludeNext)
    } else if has_include {
        Some(DirectIneligibleReason::HasInclude)
    } else if token_pasting {
        Some(DirectIneligibleReason::TokenPasting)
    } else {
        None
    }
}

/// The reason for which the search of an invocation cannot be modelled.
pub open spec fn ineligible(
    invocation: Invocation,
    cwd: Seq<u8>,
    environment: Environment,
    features: ObservedSearchFeatures,
) -> Option<DirectIneligibleReason<Seq<u8>>> {
    if !(invocation.cacheability is Cacheable) {
        Some(DirectIneligibleReason::InvocationNotCacheable)
    } else if !upath::absolute(cwd) {
        Some(DirectIneligibleReason::RelativeWorkingDirectory)
    } else if invocation.unmodeled_search_argument is Some {
        Some(DirectIneligibleReason::UnmodeledArgument(invocation.unmodeled_search_argument->0))
    } else if !environment.complete {
        Some(DirectIneligibleReason::UnmodeledEnvironment)
    } else if !features.scan_complete {
        Some(DirectIneligibleReason::IncompleteFeatureScan)
    } else if hidden_query(features.include_next, features.has_include, features.token_pasting)
        is Some {
        hidden_query(features.include_next, features.has_include, features.token_pasting)
    } else if hidden_argument(invocation.original_args) is Some {
        hidden_argument(invocation.original_args)
    } else if invocation.source is None {
        Some(DirectIneligibleReason::InvocationNotCacheable)
    } else {
        None
    }
}

/// The construct in the arguments that keeps depfiles from listing every query.
pub open spec fn hidden_argument(args: Seq<Seq<u8>>) -> Option<DirectIneligibleReason<Seq<u8>>> {
    hidden_query(
        arguments_mention(args, bstr::utf8("include_next"@)),
        arguments_mention(args, bstr::utf8("__has_include"@)),
        arguments_mention(args, bstr::utf8("##"@)),
    )
}

/// The search chains of an invocation.
pub open spec fn chains_of(
    invocation: Invocation,
    cwd: Seq<u8>,
    parents: Seq<Seq<u8>>,
    environment: Environment,
) -> Chains {
    let source = rooted(cwd, invocation.source->0);
    let quoted = quoted_chain(invocation, cwd, source, parents, environment);
    Chains {
        quoted_include_roots: quoted,
        angle_include_roots: angle_chain(invocation, cwd, environment),
        forced_include_roots: seq![working_root(cwd)] + quoted,
        module_roots: module_chain(invocation, cwd, environment),
        intrinsic_module_roots: intrinsic_chain(invocation, cwd, environment),
        forced_inputs: invocation.forced_inputs,
        cwd,
        source,
    }
}

proof fn lemma_root_views_push(list: Seq<SearchRoot>, item: SearchRoot)
    ensures
        root_views(list.push(item)) == root_views(list).push(item@),
{
    assert(root_views(list.push(item)) =~= root_views(list).push(item@));
}

fn copy_root(root: &SearchRoot) -> (copied: SearchRoot)
    ensures
        copied@ == root@,
{
    SearchRoot { origin: root.origin, path: bstr::copy(root.path.as_slice()) }
}

fn append_roots(target: &mut Vec<SearchRoot>, list: &Vec<SearchRoot>)
    ensures
        root_views(final(target)@) == root_views(old(target)@) + root_views(list@),
{
    let ghost start = root_views(target@);
    let mut index: usize = 0;
    while index < list.len()
        invariant
            index <= list.len(),
            root_views(target@) =~= start + root_views(list@).take(index as int),
        decreases list.len() - index,
    {
        let root = copy_root(&list[index]);
        proof {
            lemma_root_views_push(target@, root);
        }
        target.push(root);
        index += 1;
    }
    assert(root_views(list@).take(index as int) =~= root_views(list@));
}

fn tier_roots(paths: &Vec<SearchPath>, kind: SearchPathKind, cwd: &[u8]) -> (roots: Vec<SearchRoot>)
    ensures
        root_views(roots@) == tier(search_views(paths@), kind, cwd@),
{
    let ghost all = search_views(paths@);
    let mut roots: Vec<SearchRoot> = Vec::new();
    let mut index: usize = 0;
    assert(all.take(0) =~= Seq::empty());
    assert(root_views(roots@) =~= Seq::empty());
    while index < paths.len()
        invariant
            index <= paths.len(),
            all == search_views(paths@),
            root_views(roots@) == tier(all.take(index as int), kind, cwd@),
        decreases paths.len() - index,
    {
        assert(all.take(index + 1).drop_last() =~= all.take(index as int));
        assert(all.take(index + 1).last() == paths@[index as int]@);
        if paths[index].kind == kind {
            let root = SearchRoot {
                origin: SearchRootOrigin::CommandLine(kind, index),
                path: absolute_root(cwd, paths[index].path.as_slice()),
            };
            proof {
                lemma_root_views_push(roots@, root);
            }
            roots.push(root);
        }
        index += 1;
    }
    assert(all.take(index as int) =~= all);
    roots
}

fn origin(list: RootList, index: usize) -> (result: SearchRootOrigin)
    ensures
        result == origin_at(list, index),
{
    match list {
        RootList::IncludeParents => SearchRootOrigin::IncludeParent(index),
        RootList::IntrinsicModules => SearchRootOrigin::IntrinsicModule(index),
        RootList::EnvironmentQuote => SearchRootOrigin::EnvironmentQuote(index),
        RootList::EnvironmentInclude => SearchRootOrigin::EnvironmentInclude(index),
        RootList::EnvironmentSystem => SearchRootOrigin::EnvironmentSystem(index),
        RootList::EnvironmentAfter => SearchRootOrigin::EnvironmentAfter(index),
        RootList::EnvironmentModules => SearchRootOrigin::EnvironmentModule(index),
        RootList::EnvironmentIntrinsicModules => SearchRootOrigin::EnvironmentIntrinsicModule(
            index,
        ),
    }
}

fn environment_roots(cwd: &[u8], paths: &Vec<Vec<u8>>, list: RootList) -> (roots: Vec<SearchRoot>)
    ensures
        root_views(roots@) == listed_roots(cwd@, bstr::views(paths@), list),
{
    let mut roots: Vec<SearchRoot> = Vec::new();
    let mut index: usize = 0;
    while index < paths.len()
        invariant
            index <= paths.len(),
            root_views(roots@) =~= listed_roots(cwd@, bstr::views(paths@), list).take(
                index as int,
            ),
        decreases paths.len() - index,
    {
        let root = SearchRoot {
            origin: origin(list, index),
            path: absolute_root(cwd, paths[index].as_slice()),
        };
        proof {
            lemma_root_views_push(roots@, root);
        }
        roots.push(root);
        index += 1;
    }
    assert(root_views(roots@) =~= listed_roots(cwd@, bstr::views(paths@), list));
    roots
}

fn copy_forced(list: &Vec<ForcedInput>) -> (copied: Vec<ForcedInput>)
    ensures
        forced_views(copied@) == forced_views(list@),
{
    let mut copied: Vec<ForcedInput> = Vec::new();
    let mut index: usize = 0;
    while index < list.len()
        invariant
            index <= list.len(),
            forced_views(copied@) =~= forced_views(list@).take(index as int),
        decreases list.len() - index,
    {
        let item = ForcedInput { kind: list[index].kind, path: bstr::copy(list[index].path.as_slice()) };
        proof {
            lemma_forced_views_push(copied@, item);
        }
        copied.push(item);
        index += 1;
    }
    assert(forced_views(copied@) =~= forced_views(list@));
    copied
}

fn arguments_contain(args: &Vec<Vec<u8>>, needle: &str) -> (found: bool)
    ensures
        found == arguments_mention(bstr::views(args@), bstr::utf8(needle@)),
{
    let ghost all = bstr::views(args@);
    let mut index: usize = 0;
    while index < args.len()
        invariant
            index <= args.len(),
            all == bstr::views(args@),
            forall|at: int|
                0 <= at < index ==> !bstr::has_infix(#[trigger] all[at], bstr::utf8(needle@)),
        decreases args.len() - index,
    {
        assert(all[index as int] == args@[index as int]@);
        if bstr::contains_bytes(args[index].as_slice(), bstr::of(needle)) {
            assert(bstr::has_infix(all[index as int], bstr::utf8(needle@)));
            return true;
        }
        index += 1;
    }
    false
}

impl GfortranInvocation {
    /// Whether depfiles can represent the filesystem queries of both inputs and arguments.
    pub fn permits_complete_depfile_observation(
        &self,
        observed_features: &ObservedSearchFeatures,
    ) -> (yes: bool)
        ensures
            yes == {
                &&& observed_features.scan_complete
                &&& !observed_features.has_include
                &&& !observed_features.token_pasting
                &&& !arguments_mention(self@.original_args, bstr::utf8("__has_include"@))
                &&& !arguments_mention(self@.original_args, bstr::utf8("##"@))
            },
    {
        if !observed_features.permits_complete_depfile_observation() {
            return false;
        }
        let features = self.argument_search_features();
        !features.has_include && !features.token_pasting
    }

    fn argument_search_features(&self) -> (features: ObservedSearchFeatures)
        ensures
            features.scan_complete,
            features.include_next == arguments_mention(
                self@.original_args,
                bstr::utf8("include_next"@),
            ),
            features.has_include == arguments_mention(
                self@.original_args,
                bstr::utf8("__has_include"@),
            ),
            features.token_pasting == arguments_mention(self@.original_args, bstr::utf8("##"@)),
    {
        ObservedSearchFeatures {
            scan_complete: true,
            include_next: arguments_contain(&self.original_args, "include_next"),
            has_include: arguments_contain(&self.original_args, "__has_include"),
            token_pasting: arguments_contain(&self.original_args, "##"),
        }
    }

    fn search_refusal(&self, context: ResolutionContext<'_>) -> (reason: Option<
        DirectIneligibleReason,
    >)
        ensures
            match reason {
                Some(refused) => ineligible(
                    self@,
                    context.cwd@,
                    context.environment@,
                    *context.observed_features,
                ) == Some(refused@),
                None => ineligible(
                    self@,
                    context.cwd@,
                    context.environment@,
                    *context.observed_features,
                ) is None,
            },
    {
        if let Cacheability::Bypass(_) = self.cacheability {
            return Some(DirectIneligibleReason::InvocationNotCacheable);
        }
        if !upath::is_absolute(context.cwd) {
            return Some(DirectIneligibleReason::RelativeWorkingDirectory);
        }
        if let Some(argument) = &self.unmodeled_search_argument {
            return Some(DirectIneligibleReason::UnmodeledArgument(bstr::copy(argument.as_slice())));
        }
        if !context.environment.complete {
            return Some(DirectIneligibleReason::UnmodeledEnvironment);
        }
        if !context.observed_features.scan_complete {
            return Some(DirectIneligibleReason::IncompleteFeatureScan);
        }
        if context.observed_features.include_next {
            return Some(DirectIneligibleReason::IncludeNext);
        }
        if context.observed_features.has_include {
            return Some(DirectIneligibleReason::HasInclude);
        }
        if context.observed_features.token_pasting {
            return Some(DirectIneligibleReason::TokenPasting);
        }
        let features = self.argument_search_features();
        if features.include_next {
            return Some(DirectIneligibleReason::IncludeNext);
        }
        if features.has_include {
            return Some(DirectIneligibleReason::HasInclude);
        }
        if features.token_pasting {
            return Some(DirectIneligibleReason::TokenPasting);
        }
        if self.source.is_none() {
            return Some(DirectIneligibleReason::InvocationNotCacheable);
        }
        None
    }

    fn angle_roots(&self, context: ResolutionContext<'_>) -> (roots: Vec<SearchRoot>)
        ensures
            root_views(roots@) == angle_chain(self@, context.cwd@, context.environment@),
    {
        let cwd = context.cwd;
        let mut roots = tier_roots(&self.search_paths, SearchPathKind::Include, cwd);
        let include_environment = environment_roots(
            cwd,
            &context.environment.includes,
            RootList::EnvironmentInclude,
        );
        append_roots(&mut roots, &include_environment);
        let system = tier_roots(&self.search_paths, SearchPathKind::System, cwd);
        append_roots(&mut roots, &system);
        let system_environment = environment_roots(
            cwd,
            &context.environment.system,
            RootList::EnvironmentSystem,
        );
        append_roots(&mut roots, &system_environment);
        let after = tier_roots(&self.search_paths, SearchPathKind::After, cwd);
        append_roots(&mut roots, &after);
        let after_environment = environment_roots(
            cwd,
            &context.environment.after,
            RootList::EnvironmentAfter,
        );
        append_roots(&mut roots, &after_environment);
        roots
    }

    fn quoted_roots(
        &self,
        context: ResolutionContext<'_>,
        source: &[u8],
        angle: &Vec<SearchRoot>,
    ) -> (roots: Vec<SearchRoot>)
        requires
            root_views(angle@) == angle_chain(self@, context.cwd@, context.environment@),
        ensures
            root_views(roots@) == quoted_chain(
                self@,
                context.cwd@,
                source@,
                bstr::views(context.include_parents@),
                context.environment@,
            ),
    {
        let cwd = context.cwd;
        let source_directory = match upath::parent(source) {
            Some(parent) => parent,
            None => bstr::copy(cwd),
        };
        let mut roots: Vec<SearchRoot> = Vec::new();
        roots.push(
            SearchRoot { origin: SearchRootOrigin::SourceDirectory, path: source_directory },
        );
        assert(root_views(roots@) =~= seq![
            SearchRoot {
                origin: SearchRootOrigin::SourceDirectory,
                path: source_parent(cwd@, source@),
            },
        ]);
        let parents = environment_roots(cwd, context.include_parents, RootList::IncludeParents);
        append_roots(&mut roots, &parents);
        let working = SearchRoot {
            origin: SearchRootOrigin::WorkingDirectory,
            path: bstr::copy(cwd),
        };
        proof {
            lemma_root_views_push(roots@, working);
        }
        roots.push(working);
        let quote = tier_roots(&self.search_paths, SearchPathKind::Quote, cwd);
        append_roots(&mut roots, &quote);
        let quote_environment = environment_roots(
            cwd,
            &context.environment.quote,
            RootList::EnvironmentQuote,
        );
        append_roots(&mut roots, &quote_environment);
        append_roots(&mut roots, angle);
        roots
    }

    fn module_chain_roots(&self, context: ResolutionContext<'_>) -> (roots: Vec<SearchRoot>)
        ensures
            root_views(roots@) == module_chain(self@, context.cwd@, context.environment@),
    {
        let cwd = context.cwd;
        let mut roots: Vec<SearchRoot> = Vec::new();
        roots.push(
            SearchRoot { origin: SearchRootOrigin::WorkingDirectory, path: bstr::copy(cwd) },
        );
        assert(root_views(roots@) =~= seq![working_root(cwd@)]);
        let includes = tier_roots(&self.search_paths, SearchPathKind::Include, cwd);
        append_roots(&mut roots, &includes);
        if let Some(directory) = &self.module_dir {
            let written = SearchRoot {
                origin: SearchRootOrigin::ModuleOutput,
                path: absolute_root(cwd, directory.as_slice()),
            };
            proof {
                lemma_root_views_push(roots@, written);
            }
            roots.push(written);
        }
        let environment = environment_roots(
            cwd,
            &context.environment.modules,
            RootList::EnvironmentModules,
        );
        append_roots(&mut roots, &environment);
        roots
    }

    /// The ordered search chains of an invocation.
    pub fn search_resolution_model(&self, context: ResolutionContext<'_>) -> (model: Result<
        SearchResolutionModel,
        DirectIneligibleReason,
    >)
        ensures
            match model {
                Ok(chains) => ineligible(
                    self@,
                    context.cwd@,
                    context.environment@,
                    *context.observed_features,
                ) is None && chains@ == chains_of(
                    self@,
                    context.cwd@,
                    bstr::views(context.include_parents@),
                    context.environment@,
                ),
                Err(reason) => ineligible(
                    self@,
                    context.cwd@,
                    context.environment@,
                    *context.observed_features,
                ) == Some(reason@),
            },
    {
        if let Some(reason) = self.search_refusal(context) {
            return Err(reason);
        }
        let cwd = context.cwd;
        let source = match &self.source {
            Some(source) => absolute_root(cwd, source.as_slice()),
            None => {
                return Err(DirectIneligibleReason::InvocationNotCacheable);
            },
        };
        let angle_include_roots = self.angle_roots(context);
        let quoted_include_roots = self.quoted_roots(context, source.as_slice(), &angle_include_roots);
        let mut forced_include_roots: Vec<SearchRoot> = Vec::new();
        forced_include_roots.push(
            SearchRoot { origin: SearchRootOrigin::WorkingDirectory, path: bstr::copy(cwd) },
        );
        assert(root_views(forced_include_roots@) =~= seq![working_root(cwd@)]);
        append_roots(&mut forced_include_roots, &quoted_include_roots);
        let module_roots = self.module_chain_roots(context);
        let mut intrinsic_module_roots = environment_roots(
            cwd,
            &self.intrinsic_module_dirs,
            RootList::IntrinsicModules,
        );
        let intrinsic_environment = environment_roots(
            cwd,
            &context.environment.intrinsic_modules,
            RootList::EnvironmentIntrinsicModules,
        );
        append_roots(&mut intrinsic_module_roots, &intrinsic_environment);
        let model = SearchResolutionModel {
            quoted_include_roots,
            angle_include_roots,
            forced_include_roots,
            module_roots,
            intrinsic_module_roots,
            forced_inputs: copy_forced(&self.forced_inputs),
            cwd: bstr::copy(cwd),
            source,
        };
        Ok(model)
    }
}

/// The path names one file and nothing else.
pub open spec fn single_name(path: Seq<u8>) -> bool {
    let parts = upath::components_of(path);
    parts.len() == 1 && parts[0] != seq![upath::SLASH] && parts[0] != seq![upath::DOT] && parts[0]
        != seq![upath::DOT, upath::DOT]
}

fn is_single_file_name(path: &[u8]) -> (yes: bool)
    ensures
        yes == single_name(path@),
{
    let parts = upath::components(path);
    let ghost views = bstr::views(parts@);
    if parts.len() != 1 {
        return false;
    }
    let part = parts[0].as_slice();
    assert(views[0] == part@);
    assert(seq![upath::SLASH].len() == 1 && seq![upath::DOT].len() == 1);
    assert(seq![upath::DOT, upath::DOT].len() == 2);
    if part.len() == 1 && (part[0] == upath::SLASH || part[0] == upath::DOT) {
        assert(part@ =~= seq![upath::SLASH] || part@ =~= seq![upath::DOT]);
        return false;
    }
    if part.len() == 2 && part[0] == upath::DOT && part[1] == upath::DOT {
        assert(part@ =~= seq![upath::DOT, upath::DOT]);
        return false;
    }
    true
}

/// What is looked for along a search chain.
pub struct Query {
    /// The paths under which the selected file is known.
    pub paths: Seq<Seq<u8>>,
    /// Only a name directly below a root can be selected.
    pub module_name_only: bool,
    /// The spelling with which the command line names the file.
    pub required: Option<Seq<u8>>,
}

/// The name below `root` under which `path` is selected.
pub open spec fn selecting(path: Seq<u8>, root: Seq<u8>, query: Query) -> Option<Seq<u8>> {
    match upath::stripped(path, root) {
        None => None,
        Some(suffix) => if suffix.len() == 0 {
            None
        } else if query.module_name_only && !single_name(suffix) {
            None
        } else if query.required is Some && !upath::same_path(
            if upath::absolute(query.required->0) {
                path
            } else {
                suffix
            },
            query.required->0,
        ) {
            None
        } else {
            Some(suffix)
        },
    }
}

/// The roots that could have selected a file, and the earlier candidates that did not exist.
#[verifier::ext_equal]
pub struct Found {
    pub roots: Seq<SearchRoot<Seq<u8>>>,
    pub negatives: Seq<Seq<u8>>,
}

/// Some root of a list is the given one.
pub open spec fn lists_root(list: Seq<SearchRoot<Seq<u8>>>, root: SearchRoot<Seq<u8>>) -> bool {
    exists|at: int| 0 <= at < list.len() && same_root(#[trigger] list[at], root)
}

/// The list with a root that is not yet in it.
pub open spec fn with_root(
    list: Seq<SearchRoot<Seq<u8>>>,
    root: SearchRoot<Seq<u8>>,
) -> Seq<SearchRoot<Seq<u8>>> {
    if lists_root(list, root) {
        list
    } else {
        list.push(root)
    }
}

/// The candidates with one that is neither the selected file nor yet among them.
pub open spec fn with_candidate(
    negatives: Seq<Seq<u8>>,
    candidate: Seq<u8>,
    paths: Seq<Seq<u8>>,
) -> Seq<Seq<u8>> {
    if upath::lists(paths, candidate) || upath::lists(negatives, candidate) {
        negatives
    } else {
        negatives.push(candidate)
    }
}

/// The candidates with those of the first `count` roots of a chain.
pub open spec fn with_shadows(
    negatives: Seq<Seq<u8>>,
    chain: Seq<SearchRoot<Seq<u8>>>,
    count: int,
    suffix: Seq<u8>,
    paths: Seq<Seq<u8>>,
) -> Seq<Seq<u8>>
    decreases count,
{
    if count <= 0 {
        negatives
    } else {
        with_candidate(
            with_shadows(negatives, chain, count - 1, suffix, paths),
            upath::joined(chain[count - 1].path, suffix),
            paths,
        )
    }
}

/// What one root of a chain adds for one path.
pub open spec fn with_path(
    found: Found,
    chain: Seq<SearchRoot<Seq<u8>>>,
    index: int,
    path: Seq<u8>,
    query: Query,
) -> Found {
    match selecting(path, chain[index].path, query) {
        None => found,
        Some(suffix) => Found {
            roots: with_root(found.roots, chain[index]),
            negatives: with_shadows(found.negatives, chain, index, suffix, query.paths),
        },
    }
}

/// What one root of a chain adds for the first `count` paths.
pub open spec fn with_paths(
    found: Found,
    chain: Seq<SearchRoot<Seq<u8>>>,
    index: int,
    query: Query,
    count: int,
) -> Found
    decreases count,
{
    if count <= 0 {
        found
    } else {
        with_path(
            with_paths(found, chain, index, query, count - 1),
            chain,
            index,
            query.paths[count - 1],
            query,
        )
    }
}

/// What the first `count` roots of a chain add.
pub open spec fn with_roots(
    found: Found,
    chain: Seq<SearchRoot<Seq<u8>>>,
    query: Query,
    count: int,
) -> Found
    decreases count,
{
    if count <= 0 {
        found
    } else {
        with_paths(
            with_roots(found, chain, query, count - 1),
            chain,
            count - 1,
            query,
            query.paths.len() as int,
        )
    }
}

/// What the first `count` chains add.
pub open spec fn with_chains(
    found: Found,
    chains: Seq<Seq<SearchRoot<Seq<u8>>>>,
    query: Query,
    count: int,
) -> Found
    decreases count,
{
    if count <= 0 {
        found
    } else {
        with_roots(
            with_chains(found, chains, query, count - 1),
            chains[count - 1],
            query,
            chains[count - 1].len() as int,
        )
    }
}

/// All that the chains say of a query.
pub open spec fn search(chains: Seq<Seq<SearchRoot<Seq<u8>>>>, query: Query) -> Found {
    with_chains(
        Found { roots: Seq::empty(), negatives: Seq::empty() },
        chains,
        query,
        chains.len() as int,
    )
}

/// The chains along which a dependency of a kind is searched.
pub open spec fn chains_for(model: Chains, kind: DependencyResolutionKind) -> Seq<
    Seq<SearchRoot<Seq<u8>>>,
> {
    match kind {
        DependencyResolutionKind::Source => Seq::empty(),
        DependencyResolutionKind::Include => {
            seq![model.quoted_include_roots, model.angle_include_roots]
        },
        DependencyResolutionKind::ForcedInput(_) => seq![model.forced_include_roots],
        DependencyResolutionKind::Module => seq![model.module_roots],
        DependencyResolutionKind::Submodule => seq![model.module_roots],
        DependencyResolutionKind::IntrinsicModule => seq![model.intrinsic_module_roots],
        DependencyResolutionKind::ModuleOrInclude => {
            seq![model.quoted_include_roots, model.angle_include_roots, model.module_roots]
        },
    }
}

/// Only names directly below a root can be modules.
pub open spec fn names_module(kind: DependencyResolutionKind) -> bool {
    kind is Module || kind is Submodule || kind is IntrinsicModule
}

/// The paths under which an observed dependency is known.
pub open spec fn known_paths(cwd: Seq<u8>, observation: DependencyObservation<Seq<u8>>) -> Seq<
    Seq<u8>,
> {
    let prerequisite = rooted(cwd, observation.prerequisite);
    let resolved = rooted(cwd, observation.resolved_path);
    if upath::same_path(prerequisite, resolved) {
        seq![resolved]
    } else {
        seq![prerequisite, resolved]
    }
}

/// What is looked for to explain an observed dependency.
pub open spec fn query_for(model: Chains, observation: DependencyObservation<Seq<u8>>) -> Query {
    Query {
        paths: known_paths(model.cwd, observation),
        module_name_only: names_module(observation.kind),
        required: match observation.kind {
            DependencyResolutionKind::ForcedInput(index) => Some(
                model.forced_inputs[index as int].path,
            ),
            _ => None,
        },
    }
}

/// A proof under construction.
#[verifier::ext_equal]
pub struct Progress {
    pub witnesses: Witnesses,
    /// The forced inputs that have been observed.
    pub observed: Seq<bool>,
}

/// A negative witness is in a list.
pub open spec fn lists_negative(
    list: Seq<NegativePathWitness<Seq<u8>>>,
    prerequisite: Seq<u8>,
    path: Seq<u8>,
) -> bool {
    exists|at: int|
        0 <= at < list.len() && (#[trigger] list[at]).prerequisite == prerequisite
            && upath::same_path(list[at].path, path)
}

/// The list with the first `count` of the candidates of a prerequisite that are not yet in it.
pub open spec fn with_negatives(
    list: Seq<NegativePathWitness<Seq<u8>>>,
    prerequisite: Seq<u8>,
    candidates: Seq<Seq<u8>>,
    count: int,
) -> Seq<NegativePathWitness<Seq<u8>>>
    decreases count,
{
    if count <= 0 {
        list
    } else {
        let earlier = with_negatives(list, prerequisite, candidates, count - 1);
        if lists_negative(earlier, prerequisite, candidates[count - 1]) {
            earlier
        } else {
            earlier.push(NegativePathWitness { prerequisite, path: candidates[count - 1] })
        }
    }
}

/// The proof with one more selection.
pub open spec fn selected(
    model: Chains,
    progress: Progress,
    observation: DependencyObservation<Seq<u8>>,
    found: Found,
) -> Progress {
    Progress {
        witnesses: Witnesses {
            selected: progress.witnesses.selected.push(
                Selection {
                    prerequisite: observation.prerequisite,
                    selected_path: rooted(model.cwd, observation.resolved_path),
                    kind: observation.kind,
                    possible_roots: found.roots,
                },
            ),
            negative_candidates: with_negatives(
                progress.witnesses.negative_candidates,
                observation.prerequisite,
                found.negatives,
                found.negatives.len() as int,
            ),
        },
        observed: match observation.kind {
            DependencyResolutionKind::ForcedInput(index) => progress.observed.update(
                index as int,
                true,
            ),
            _ => progress.observed,
        },
    }
}

/// The proof with one more observation.
pub open spec fn explained(
    model: Chains,
    progress: Progress,
    observation: DependencyObservation<Seq<u8>>,
) -> Result<Progress, DirectIneligibleReason<Seq<u8>>> {
    if observation.kind is ForcedInput && observation.kind->ForcedInput_0
        >= model.forced_inputs.len() {
        Err(DirectIneligibleReason::UnknownForcedInput(observation.kind->ForcedInput_0))
    } else if observation.kind is Source {
        if upath::same_path(rooted(model.cwd, observation.prerequisite), model.source)
            || upath::same_path(rooted(model.cwd, observation.resolved_path), model.source) {
            Ok(
                selected(
                    model,
                    progress,
                    observation,
                    Found { roots: Seq::empty(), negatives: Seq::empty() },
                ),
            )
        } else {
            Err(DirectIneligibleReason::UnresolvedPrerequisite(observation.prerequisite))
        }
    } else {
        let found = search(chains_for(model, observation.kind), query_for(model, observation));
        if found.roots.len() == 0 {
            Err(DirectIneligibleReason::UnresolvedPrerequisite(observation.prerequisite))
        } else {
            Ok(selected(model, progress, observation, found))
        }
    }
}

/// The proof of the first `count` observations.
pub open spec fn explained_all(
    model: Chains,
    observations: Seq<DependencyObservation<Seq<u8>>>,
    count: int,
) -> Result<Progress, DirectIneligibleReason<Seq<u8>>>
    decreases count,
{
    if count <= 0 {
        Ok(
            Progress {
                witnesses: Witnesses { selected: Seq::empty(), negative_candidates: Seq::empty() },
                observed: Seq::new(model.forced_inputs.len(), |at: int| false),
            },
        )
    } else {
        match explained_all(model, observations, count - 1) {
            Err(reason) => Err(reason),
            Ok(progress) => explained(model, progress, observations[count - 1]),
        }
    }
}

/// The first flag that is not set.
pub open spec fn first_unset(flags: Seq<bool>) -> Option<usize>
    decreases flags.len(),
{
    if flags.len() == 0 {
        None
    } else if first_unset(flags.drop_last()) is Some {
        first_unset(flags.drop_last())
    } else if !flags.last() {
        Some((flags.len() - 1) as usize)
    } else {
        None
    }
}

/// The witnesses of all observations, where every forced input is among them.
pub open spec fn proved(model: Chains, observations: Seq<DependencyObservation<Seq<u8>>>) -> Result<
    Witnesses,
    DirectIneligibleReason<Seq<u8>>,
> {
    match explained_all(model, observations, observations.len() as int) {
        Err(reason) => Err(reason),
        Ok(progress) => match first_unset(progress.observed) {
            Some(index) => Err(DirectIneligibleReason::MissingForcedInput(index)),
            None => Ok(progress.witnesses),
        },
    }
}

fn contains_root(list: &Vec<SearchRoot>, root: &SearchRoot) -> (found: bool)
    ensures
        found == lists_root(root_views(list@), root@),
{
    let ghost all = root_views(list@);
    let mut index: usize = 0;
    while index < list.len()
        invariant
            index <= list.len(),
            all == root_views(list@),
            forall|at: int| 0 <= at < index ==> !same_root(#[trigger] all[at], root@),
        decreases list.len() - index,
    {
        assert(all[index as int] == list@[index as int]@);
        if list[index].origin == root.origin && upath::same(
            list[index].path.as_slice(),
            root.path.as_slice(),
        ) {
            assert(same_root(all[index as int], root@));
            return true;
        }
        index += 1;
    }
    false
}

fn contains_negative(list: &Vec<NegativePathWitness>, prerequisite: &[u8], path: &[u8]) -> (found:
    bool)
    ensures
        found == lists_negative(
            list@.map_values(|negative: NegativePathWitness| negative@),
            prerequisite@,
            path@,
        ),
{
    let ghost all = list@.map_values(|negative: NegativePathWitness| negative@);
    let mut index: usize = 0;
    while index < list.len()
        invariant
            index <= list.len(),
            all == list@.map_values(|negative: NegativePathWitness| negative@),
            forall|at: int|
                0 <= at < index ==> !((#[trigger] all[at]).prerequisite == prerequisite@
                    && upath::same_path(all[at].path, path@)),
        decreases list.len() - index,
    {
        assert(all[index as int] == list@[index as int]@);
        if bstr::same(list[index].prerequisite.as_slice(), prerequisite) && upath::same(
            list[index].path.as_slice(),
            path,
        ) {
            assert(all[index as int].prerequisite == prerequisite@);
            return true;
        }
        index += 1;
    }
    false
}

struct Search {
    paths: Vec<Vec<u8>>,
    module_name_only: bool,
    required: Option<Vec<u8>>,
}

impl Search {
    spec fn query(self) -> Query {
        Query {
            paths: bstr::views(self.paths@),
            module_name_only: self.module_name_only,
            required: bstr::opt_view(self.required),
        }
    }

    fn select(&self, path: &[u8], root: &[u8]) -> (suffix: Option<Vec<u8>>)
        ensures
            bstr::opt_view(suffix) == selecting(path@, root@, self.query()),
    {
        match upath::strip_prefix(path, root) {
            None => None,
            Some(suffix) => {
                if suffix.len() == 0 {
                    return None;
                }
                if self.module_name_only && !is_single_file_name(suffix.as_slice()) {
                    return None;
                }
                if let Some(required) = &self.required {
                    let spelled = if upath::is_absolute(required.as_slice()) {
                        upath::same(path, required.as_slice())
                    } else {
                        upath::same(suffix.as_slice(), required.as_slice())
                    };
                    if !spelled {
                        return None;
                    }
                }
                Some(suffix)
            },
        }
    }
}

struct Finding {
    roots: Vec<SearchRoot>,
    negatives: Vec<Vec<u8>>,
}

impl Finding {
    spec fn found(self) -> Found {
        Found { roots: root_views(self.roots@), negatives: bstr::views(self.negatives@) }
    }

    fn add_shadows(
        &mut self,
        chain: &Vec<SearchRoot>,
        count: usize,
        suffix: &[u8],
        paths: &Vec<Vec<u8>>,
    )
        requires
            count <= chain@.len(),
        ensures
            final(self).found().roots == old(self).found().roots,
            final(self).found().negatives == with_shadows(
                old(self).found().negatives,
                root_views(chain@),
                count as int,
                suffix@,
                bstr::views(paths@),
            ),
    {
        let ghost start = self.found();
        let mut index: usize = 0;
        while index < count
            invariant
                index <= count <= chain@.len(),
                self.found().roots == start.roots,
                self.found().negatives == with_shadows(
                    start.negatives,
                    root_views(chain@),
                    index as int,
                    suffix@,
                    bstr::views(paths@),
                ),
            decreases count - index,
        {
            let candidate = upath::join(chain[index].path.as_slice(), suffix);
            assert(root_views(chain@)[index as int] == chain@[index as int]@);
            if !upath::contains(paths, candidate.as_slice()) && !upath::contains(
                &self.negatives,
                candidate.as_slice(),
            ) {
                self.negatives.push(candidate);
            }
            index += 1;
        }
    }

    fn add_path(&mut self, chain: &Vec<SearchRoot>, index: usize, path: &[u8], search: &Search)
        requires
            index < chain@.len(),
        ensures
            final(self).found() == with_path(
                old(self).found(),
                root_views(chain@),
                index as int,
                path@,
                search.query(),
            ),
    {
        let root = &chain[index];
        assert(root_views(chain@)[index as int] == root@);
        if let Some(suffix) = search.select(path, root.path.as_slice()) {
            if !contains_root(&self.roots, root) {
                let copied = copy_root(root);
                proof {
                    lemma_root_views_push(self.roots@, copied);
                }
                self.roots.push(copied);
            }
            self.add_shadows(chain, index, suffix.as_slice(), &search.paths);
        }
        assert(self.found() =~= with_path(
            old(self).found(),
            root_views(chain@),
            index as int,
            path@,
            search.query(),
        ));
    }

    fn add_chain(&mut self, chain: &Vec<SearchRoot>, search: &Search)
        ensures
            final(self).found() == with_roots(
                old(self).found(),
                root_views(chain@),
                search.query(),
                chain@.len() as int,
            ),
    {
        let ghost start = self.found();
        let ghost roots = root_views(chain@);
        let mut index: usize = 0;
        while index < chain.len()
            invariant
                index <= chain.len(),
                roots == root_views(chain@),
                self.found() == with_roots(start, roots, search.query(), index as int),
            decreases chain.len() - index,
        {
            let ghost before = self.found();
            let mut tried: usize = 0;
            while tried < search.paths.len()
                invariant
                    tried <= search.paths.len(),
                    index < chain.len(),
                    roots == root_views(chain@),
                    self.found() == with_paths(
                        before,
                        roots,
                        index as int,
                        search.query(),
                        tried as int,
                    ),
                decreases search.paths.len() - tried,
            {
                assert(search.query().paths[tried as int] == search.paths@[tried as int]@);
                self.add_path(chain, index, search.paths[tried].as_slice(), search);
                tried += 1;
            }
            index += 1;
        }
    }
}

impl SearchResolutionModel {
    fn search_for(&self, observation: &DependencyObservation) -> (search: Search)
        requires
            observation.kind is ForcedInput ==> observation.kind->ForcedInput_0
                < self.forced_inputs@.len(),
        ensures
            search.query() == query_for(self@, observation@),
    {
        let prerequisite = absolute_root(
            self.cwd.as_slice(),
            observation.prerequisite.as_slice(),
        );
        let resolved = absolute_root(self.cwd.as_slice(), observation.resolved_path.as_slice());
        let mut paths: Vec<Vec<u8>> = Vec::new();
        if !upath::same(prerequisite.as_slice(), resolved.as_slice()) {
            paths.push(prerequisite);
        }
        paths.push(resolved);
        assert(bstr::views(paths@) =~= known_paths(self@.cwd, observation@));
        let module_name_only = match observation.kind {
            DependencyResolutionKind::Module => true,
            DependencyResolutionKind::Submodule => true,
            DependencyResolutionKind::IntrinsicModule => true,
            _ => false,
        };
        let required = match observation.kind {
            DependencyResolutionKind::ForcedInput(index) => {
                assert(self@.forced_inputs[index as int] == self.forced_inputs@[index as int]@);
                Some(bstr::copy(self.forced_inputs[index].path.as_slice()))
            },
            _ => None,
        };
        Search { paths, module_name_only, required }
    }

    fn resolve_observation(&self, observation: &DependencyObservation) -> (finding: Finding)
        requires
            observation.kind is ForcedInput ==> observation.kind->ForcedInput_0
                < self.forced_inputs@.len(),
        ensures
            finding.found() == search(
                chains_for(self@, observation.kind),
                query_for(self@, observation@),
            ),
    {
        let search_query = self.search_for(observation);
        let mut finding = Finding { roots: Vec::new(), negatives: Vec::new() };
        let ghost chains = chains_for(self@, observation.kind);
        let ghost query = query_for(self@, observation@);
        let ghost nothing = Found { roots: Seq::empty(), negatives: Seq::empty() };
        assert(finding.found() =~= nothing);
        assert(finding.found() == with_chains(nothing, chains, query, 0));
        match observation.kind {
            DependencyResolutionKind::Source => {},
            DependencyResolutionKind::Include => {
                finding.add_chain(&self.quoted_include_roots, &search_query);
                assert(finding.found() == with_chains(nothing, chains, query, 1));
                finding.add_chain(&self.angle_include_roots, &search_query);
            },
            DependencyResolutionKind::ForcedInput(_) => {
                finding.add_chain(&self.forced_include_roots, &search_query);
            },
            DependencyResolutionKind::Module => {
                finding.add_chain(&self.module_roots, &search_query);
            },
            DependencyResolutionKind::Submodule => {
                finding.add_chain(&self.module_roots, &search_query);
            },
            DependencyResolutionKind::IntrinsicModule => {
                finding.add_chain(&self.intrinsic_module_roots, &search_query);
            },
            DependencyResolutionKind::ModuleOrInclude => {
                finding.add_chain(&self.quoted_include_roots, &search_query);
                assert(finding.found() == with_chains(nothing, chains, query, 1));
                finding.add_chain(&self.angle_include_roots, &search_query);
                assert(finding.found() == with_chains(nothing, chains, query, 2));
                finding.add_chain(&self.module_roots, &search_query);
            },
        }
        finding
    }

    fn explain(&self, progress: &mut Explaining, observation: &DependencyObservation) -> (refused:
        Option<DirectIneligibleReason>)
        requires
            old(progress).observed@.len() == self.forced_inputs@.len(),
        ensures
            final(progress).observed@.len() == self.forced_inputs@.len(),
            match refused {
                Some(reason) => explained(self@, old(progress).view(), observation@) == Err::<
                    Progress,
                    DirectIneligibleReason<Seq<u8>>,
                >(reason@),
                None => explained(self@, old(progress).view(), observation@) == Ok::<
                    Progress,
                    DirectIneligibleReason<Seq<u8>>,
                >(final(progress).view()),
            },
    {
        if let DependencyResolutionKind::ForcedInput(index) = observation.kind {
            if index >= self.forced_inputs.len() {
                return Some(DirectIneligibleReason::UnknownForcedInput(index));
            }
        }
        let cwd = self.cwd.as_slice();
        let finding = match observation.kind {
            DependencyResolutionKind::Source => {
                let prerequisite = absolute_root(cwd, observation.prerequisite.as_slice());
                let resolved = absolute_root(cwd, observation.resolved_path.as_slice());
                if !upath::same(prerequisite.as_slice(), self.source.as_slice()) && !upath::same(
                    resolved.as_slice(),
                    self.source.as_slice(),
                ) {
                    return Some(
                        DirectIneligibleReason::UnresolvedPrerequisite(
                            bstr::copy(observation.prerequisite.as_slice()),
                        ),
                    );
                }
                let nothing = Finding { roots: Vec::new(), negatives: Vec::new() };
                assert(nothing.found() =~= (Found { roots: Seq::empty(), negatives: Seq::empty() }));
                nothing
            },
            _ => {
                let finding = self.resolve_observation(observation);
                if finding.roots.len() == 0 {
                    return Some(
                        DirectIneligibleReason::UnresolvedPrerequisite(
                            bstr::copy(observation.prerequisite.as_slice()),
                        ),
                    );
                }
                finding
            },
        };
        progress.select(
            cwd,
            observation,
            finding,
            Ghost(self@),
        );
        None
    }

    /// Derives every earlier candidate that could shadow a selected input.
    pub fn prove(&self, observations: &Vec<DependencyObservation>) -> (result: Result<
        ResolutionProof,
        DirectIneligibleReason,
    >)
        ensures
            match result {
                Ok(proof_found) => proved(self@, observation_views(observations@)) == Ok::<
                    Witnesses,
                    DirectIneligibleReason<Seq<u8>>,
                >(proof_found@),
                Err(reason) => proved(self@, observation_views(observations@)) == Err::<
                    Witnesses,
                    DirectIneligibleReason<Seq<u8>>,
                >(reason@),
            },
    {
        let ghost all = observation_views(observations@);
        let mut observed: Vec<bool> = Vec::new();
        let mut marked: usize = 0;
        while marked < self.forced_inputs.len()
            invariant
                marked <= self.forced_inputs.len(),
                observed@.len() == marked,
                forall|at: int| 0 <= at < marked ==> observed@[at] == false,
            decreases self.forced_inputs.len() - marked,
        {
            observed.push(false);
            marked += 1;
        }
        let mut progress = Explaining {
            proof_found: ResolutionProof { selected: Vec::new(), negative_candidates: Vec::new() },
            observed,
        };
        assert(progress.view() =~= explained_all(self@, all, 0)->Ok_0);
        let mut index: usize = 0;
        while index < observations.len()
            invariant
                index <= observations.len(),
                all == observation_views(observations@),
                progress.observed@.len() == self.forced_inputs@.len(),
                explained_all(self@, all, index as int) == Ok::<
                    Progress,
                    DirectIneligibleReason<Seq<u8>>,
                >(progress.view()),
            decreases observations.len() - index,
        {
            assert(all[index as int] == observations@[index as int]@);
            let refused = self.explain(&mut progress, &observations[index]);
            if let Some(reason) = refused {
                proof {
                    lemma_explained_error(self@, all, index + 1, all.len() as int, reason@);
                }
                return Err(reason);
            }
            index += 1;
        }
        if let Some(missing) = find_unset(&progress.observed) {
            return Err(DirectIneligibleReason::MissingForcedInput(missing));
        }
        Ok(progress.proof_found)
    }
}

proof fn lemma_explained_error(
    model: Chains,
    observations: Seq<DependencyObservation<Seq<u8>>>,
    count: int,
    total: int,
    reason: DirectIneligibleReason<Seq<u8>>,
)
    requires
        0 < count <= total,
        explained_all(model, observations, count) == Err::<
            Progress,
            DirectIneligibleReason<Seq<u8>>,
        >(reason),
    ensures
        explained_all(model, observations, total) == Err::<
            Progress,
            DirectIneligibleReason<Seq<u8>>,
        >(reason),
    decreases total - count,
{
    if count < total {
        lemma_explained_error(model, observations, count + 1, total, reason);
    }
}

fn find_unset(flags: &Vec<bool>) -> (index: Option<usize>)
    ensures
        index == first_unset(flags@),
{
    let mut index: usize = 0;
    assert(flags@.take(0) =~= Seq::empty());
    while index < flags.len()
        invariant
            index <= flags.len(),
            first_unset(flags@.take(index as int)) is None,
        decreases flags.len() - index,
    {
        assert(flags@.take(index + 1).drop_last() =~= flags@.take(index as int));
        assert(flags@.take(index + 1).last() == flags@[index as int]);
        if !flags[index] {
            proof {
                lemma_first_unset(flags@, index + 1, index);
            }
            return Some(index);
        }
        index += 1;
    }
    assert(flags@.take(index as int) =~= flags@);
    None
}

proof fn lemma_first_unset(flags: Seq<bool>, count: int, index: usize)
    requires
        0 < count <= flags.len(),
        first_unset(flags.take(count)) == Some(index),
    ensures
        first_unset(flags) == Some(index),
    decreases flags.len() - count,
{
    if count < flags.len() {
        assert(flags.take(count + 1).drop_last() =~= flags.take(count));
        lemma_first_unset(flags, count + 1, index);
    } else {
        assert(flags.take(count) =~= flags);
    }
}

struct Explaining {
    proof_found: ResolutionProof,
    observed: Vec<bool>,
}

impl Explaining {
    spec fn view(&self) -> Progress {
        Progress { witnesses: self.proof_found@, observed: self.observed@ }
    }

    fn select(
        &mut self,
        cwd: &[u8],
        observation: &DependencyObservation,
        finding: Finding,
        Ghost(model): Ghost<Chains>,
    )
        requires
            model.cwd == cwd@,
            observation.kind is ForcedInput ==> observation.kind->ForcedInput_0
                < old(self).observed@.len(),
        ensures
            final(self).view() == selected(
                model,
                old(self).view(),
                observation@,
                finding.found(),
            ),
            final(self).observed@.len() == old(self).observed@.len(),
    {
        let ghost start = self.view();
        let ghost found = finding.found();
        let mut index: usize = 0;
        while index < finding.negatives.len()
            invariant
                index <= finding.negatives.len(),
                found == finding.found(),
                self.view().observed == start.observed,
                self.view().witnesses.selected == start.witnesses.selected,
                self.view().witnesses.negative_candidates == with_negatives(
                    start.witnesses.negative_candidates,
                    observation@.prerequisite,
                    found.negatives,
                    index as int,
                ),
            decreases finding.negatives.len() - index,
        {
            let path = bstr::copy(finding.negatives[index].as_slice());
            assert(found.negatives[index as int] == path@);
            if !contains_negative(
                &self.proof_found.negative_candidates,
                observation.prerequisite.as_slice(),
                path.as_slice(),
            ) {
                let witness = NegativePathWitness {
                    prerequisite: bstr::copy(observation.prerequisite.as_slice()),
                    path,
                };
                let ghost before = self.proof_found.negative_candidates@;
                self.proof_found.negative_candidates.push(witness);
                assert(self.view().witnesses.negative_candidates =~= before.map_values(
                    |negative: NegativePathWitness| negative@,
                ).push(witness@));
            }
            index += 1;
        }
        let witness = SelectedPathWitness {
            prerequisite: bstr::copy(observation.prerequisite.as_slice()),
            selected_path: absolute_root(cwd, observation.resolved_path.as_slice()),
            kind: observation.kind,
            possible_roots: finding.roots,
        };
        let ghost before = self.proof_found.selected@;
        self.proof_found.selected.push(witness);
        assert(self.view().witnesses.selected =~= before.map_values(
            |selection: SelectedPathWitness| selection@,
        ).push(witness@));
        if let DependencyResolutionKind::ForcedInput(forced) = observation.kind {
            self.observed.set(forced, true);
        }
        assert(self.view() =~= selected(model, start, observation@, found));
    }
}

/// A candidate is one of the paths of the selected file, or a path that must stay absent.
pub open spec fn covered(found: Found, query: Query, candidate: Seq<u8>) -> bool {
    upath::lists(query.paths, candidate) || upath::lists(found.negatives, candidate)
}

/// Whatever an earlier finding covers and lists, a later one does too, and no candidate is one of
/// the paths of the selected file.
spec fn extends(earlier: Found, later: Found, query: Query) -> bool {
    &&& forall|path: Seq<u8>|
        #![trigger upath::lists(later.negatives, path)]
        upath::lists(earlier.negatives, path) ==> upath::lists(later.negatives, path)
    &&& forall|root: SearchRoot<Seq<u8>>|
        #![trigger lists_root(later.roots, root)]
        lists_root(earlier.roots, root) ==> lists_root(later.roots, root)
    &&& (forall|at: int|
        0 <= at < earlier.negatives.len() ==> !upath::lists(
            query.paths,
            #[trigger] earlier.negatives[at],
        )) ==> (forall|at: int|
        0 <= at < later.negatives.len() ==> !upath::lists(
            query.paths,
            #[trigger] later.negatives[at],
        ))
}

proof fn lemma_extends_transitive(first: Found, second: Found, third: Found, query: Query)
    requires
        extends(first, second, query),
        extends(second, third, query),
    ensures
        extends(first, third, query),
{
    assert forall|path: Seq<u8>|
        #![trigger upath::lists(third.negatives, path)]
        upath::lists(first.negatives, path) implies upath::lists(third.negatives, path) by {
        assert(upath::lists(second.negatives, path));
    }
    assert forall|root: SearchRoot<Seq<u8>>|
        #![trigger lists_root(third.roots, root)]
        lists_root(first.roots, root) implies lists_root(third.roots, root) by {
        assert(lists_root(second.roots, root));
    }
}

proof fn lemma_with_candidate(found: Found, candidate: Seq<u8>, query: Query)
    ensures
        ({
            let later = Found {
                negatives: with_candidate(found.negatives, candidate, query.paths),
                ..found
            };
            extends(found, later, query) && covered(later, query, candidate)
        }),
{
    let negatives = with_candidate(found.negatives, candidate, query.paths);
    assert forall|path: Seq<u8>| #[trigger]
        upath::lists(found.negatives, path) implies upath::lists(negatives, path) by {
        let at = choose|at: int|
            0 <= at < found.negatives.len() && upath::same_path(
                #[trigger] found.negatives[at],
                path,
            );
        assert(negatives[at] == found.negatives[at]);
    }
    if !upath::lists(query.paths, candidate) && !upath::lists(found.negatives, candidate) {
        assert(upath::same_path(negatives[negatives.len() - 1], candidate));
        assert forall|at: int| 0 <= at < negatives.len() implies (#[trigger] negatives[at]
            == candidate || at < found.negatives.len()) by {}
    }
}

proof fn lemma_with_shadows(
    found: Found,
    chain: Seq<SearchRoot<Seq<u8>>>,
    count: int,
    suffix: Seq<u8>,
    query: Query,
)
    ensures
        ({
            let later = Found {
                negatives: with_shadows(found.negatives, chain, count, suffix, query.paths),
                ..found
            };
            extends(found, later, query) && forall|at: int|
                0 <= at < count ==> covered(
                    later,
                    query,
                    #[trigger] upath::joined(chain[at].path, suffix),
                )
        }),
    decreases count,
{
    if count > 0 {
        lemma_with_shadows(found, chain, count - 1, suffix, query);
        let middle = Found {
            negatives: with_shadows(found.negatives, chain, count - 1, suffix, query.paths),
            ..found
        };
        lemma_with_candidate(middle, upath::joined(chain[count - 1].path, suffix), query);
        let later = Found {
            negatives: with_shadows(found.negatives, chain, count, suffix, query.paths),
            ..found
        };
        lemma_extends_transitive(found, middle, later, query);
    }
}

proof fn lemma_with_path(
    found: Found,
    chain: Seq<SearchRoot<Seq<u8>>>,
    index: int,
    path: Seq<u8>,
    query: Query,
)
    ensures
        extends(found, with_path(found, chain, index, path, query), query),
        selecting(path, chain[index].path, query) is Some ==> ({
            let later = with_path(found, chain, index, path, query);
            let suffix = selecting(path, chain[index].path, query)->0;
            lists_root(later.roots, chain[index]) && forall|at: int|
                0 <= at < index ==> covered(
                    later,
                    query,
                    #[trigger] upath::joined(chain[at].path, suffix),
                )
        }),
{
    if selecting(path, chain[index].path, query) is Some {
        let suffix = selecting(path, chain[index].path, query)->0;
        let later = with_path(found, chain, index, path, query);
        lemma_with_shadows(found, chain, index, suffix, query);
        assert forall|root: SearchRoot<Seq<u8>>| #[trigger]
            lists_root(found.roots, root) implies lists_root(later.roots, root) by {
            let at = choose|at: int|
                0 <= at < found.roots.len() && same_root(#[trigger] found.roots[at], root);
            assert(later.roots[at] == found.roots[at]);
        }
        if !lists_root(found.roots, chain[index]) {
            assert(same_root(later.roots[later.roots.len() - 1], chain[index]));
        }
    }
}

proof fn lemma_with_paths(
    found: Found,
    chain: Seq<SearchRoot<Seq<u8>>>,
    index: int,
    query: Query,
    count: int,
)
    ensures
        extends(found, with_paths(found, chain, index, query, count), query),
    decreases count,
{
    if count > 0 {
        lemma_with_paths(found, chain, index, query, count - 1);
        let middle = with_paths(found, chain, index, query, count - 1);
        lemma_with_path(middle, chain, index, query.paths[count - 1], query);
        lemma_extends_transitive(
            found,
            middle,
            with_paths(found, chain, index, query, count),
            query,
        );
    }
}

proof fn lemma_with_paths_at(
    found: Found,
    chain: Seq<SearchRoot<Seq<u8>>>,
    index: int,
    query: Query,
    count: int,
    known: int,
    earlier: int,
)
    requires
        0 <= known < count,
        0 <= earlier < index,
        selecting(query.paths[known], chain[index].path, query) is Some,
    ensures
        ({
            let later = with_paths(found, chain, index, query, count);
            let suffix = selecting(query.paths[known], chain[index].path, query)->0;
            lists_root(later.roots, chain[index]) && covered(
                later,
                query,
                upath::joined(chain[earlier].path, suffix),
            )
        }),
    decreases count,
{
    let middle = with_paths(found, chain, index, query, count - 1);
    lemma_with_path(middle, chain, index, query.paths[count - 1], query);
    if known < count - 1 {
        lemma_with_paths_at(found, chain, index, query, count - 1, known, earlier);
    }
}

proof fn lemma_with_roots(
    found: Found,
    chain: Seq<SearchRoot<Seq<u8>>>,
    query: Query,
    count: int,
)
    ensures
        extends(found, with_roots(found, chain, query, count), query),
    decreases count,
{
    if count > 0 {
        lemma_with_roots(found, chain, query, count - 1);
        let middle = with_roots(found, chain, query, count - 1);
        lemma_with_paths(middle, chain, count - 1, query, query.paths.len() as int);
        lemma_extends_transitive(found, middle, with_roots(found, chain, query, count), query);
    }
}

proof fn lemma_with_roots_at(
    found: Found,
    chain: Seq<SearchRoot<Seq<u8>>>,
    query: Query,
    count: int,
    index: int,
    known: int,
    earlier: int,
)
    requires
        0 <= index < count,
        0 <= known < query.paths.len(),
        0 <= earlier < index,
        selecting(query.paths[known], chain[index].path, query) is Some,
    ensures
        ({
            let later = with_roots(found, chain, query, count);
            let suffix = selecting(query.paths[known], chain[index].path, query)->0;
            lists_root(later.roots, chain[index]) && covered(
                later,
                query,
                upath::joined(chain[earlier].path, suffix),
            )
        }),
    decreases count,
{
    let middle = with_roots(found, chain, query, count - 1);
    let total = query.paths.len() as int;
    lemma_with_paths(middle, chain, count - 1, query, total);
    if index < count - 1 {
        lemma_with_roots_at(found, chain, query, count - 1, index, known, earlier);
    } else {
        lemma_with_paths_at(middle, chain, index, query, total, known, earlier);
    }
}

proof fn lemma_with_chains(
    found: Found,
    chains: Seq<Seq<SearchRoot<Seq<u8>>>>,
    query: Query,
    count: int,
)
    ensures
        extends(found, with_chains(found, chains, query, count), query),
    decreases count,
{
    if count > 0 {
        lemma_with_chains(found, chains, query, count - 1);
        let middle = with_chains(found, chains, query, count - 1);
        lemma_with_roots(middle, chains[count - 1], query, chains[count - 1].len() as int);
        lemma_extends_transitive(found, middle, with_chains(found, chains, query, count), query);
    }
}

proof fn lemma_with_chains_at(
    found: Found,
    chains: Seq<Seq<SearchRoot<Seq<u8>>>>,
    query: Query,
    count: int,
    chain: int,
    index: int,
    known: int,
    earlier: int,
)
    requires
        0 <= chain < count,
        0 <= index < chains[chain].len(),
        0 <= known < query.paths.len(),
        0 <= earlier < index,
        selecting(query.paths[known], chains[chain][index].path, query) is Some,
    ensures
        ({
            let later = with_chains(found, chains, query, count);
            let suffix = selecting(query.paths[known], chains[chain][index].path, query)->0;
            lists_root(later.roots, chains[chain][index]) && covered(
                later,
                query,
                upath::joined(chains[chain][earlier].path, suffix),
            )
        }),
    decreases count,
{
    let middle = with_chains(found, chains, query, count - 1);
    let total = chains[count - 1].len() as int;
    lemma_with_roots(middle, chains[count - 1], query, total);
    if chain < count - 1 {
        lemma_with_chains_at(found, chains, query, count - 1, chain, index, known, earlier);
    } else {
        lemma_with_roots_at(middle, chains[chain], query, total, index, known, earlier);
    }
}

/// No shadow is missed: where a root of a chain selects a file, every earlier root of the chain
/// gives a candidate that is either the file itself or listed as a path that must stay absent.
pub proof fn law_every_shadow_is_witnessed(
    chains: Seq<Seq<SearchRoot<Seq<u8>>>>,
    query: Query,
    chain: int,
    index: int,
    known: int,
    earlier: int,
)
    requires
        0 <= chain < chains.len(),
        0 <= index < chains[chain].len(),
        0 <= known < query.paths.len(),
        0 <= earlier < index,
        selecting(query.paths[known], chains[chain][index].path, query) is Some,
    ensures
        covered(
            search(chains, query),
            query,
            upath::joined(
                chains[chain][earlier].path,
                selecting(query.paths[known], chains[chain][index].path, query)->0,
            ),
        ),
        lists_root(search(chains, query).roots, chains[chain][index]),
{
    lemma_with_chains_at(
        Found { roots: Seq::empty(), negatives: Seq::empty() },
        chains,
        query,
        chains.len() as int,
        chain,
        index,
        known,
        earlier,
    );
}

/// A path that must stay absent is never one of the paths of the selected file.
pub proof fn law_selection_is_no_shadow(
    chains: Seq<Seq<SearchRoot<Seq<u8>>>>,
    query: Query,
    at: int,
)
    requires
        0 <= at < search(chains, query).negatives.len(),
    ensures
        !upath::lists(query.paths, search(chains, query).negatives[at]),
{
    lemma_with_chains(
        Found { roots: Seq::empty(), negatives: Seq::empty() },
        chains,
        query,
        chains.len() as int,
    );
}

proof fn lemma_with_negatives(
    list: Seq<NegativePathWitness<Seq<u8>>>,
    prerequisite: Seq<u8>,
    candidates: Seq<Seq<u8>>,
    count: int,
)
    requires
        count <= candidates.len(),
    ensures
        ({
            let later = with_negatives(list, prerequisite, candidates, count);
            &&& later.len() >= list.len()
            &&& forall|at: int| 0 <= at < list.len() ==> later[at] == #[trigger] list[at]
            &&& forall|at: int|
                0 <= at < count ==> lists_negative(later, prerequisite, #[trigger] candidates[at])
        }),
    decreases count,
{
    if count > 0 {
        lemma_with_negatives(list, prerequisite, candidates, count - 1);
        let middle = with_negatives(list, prerequisite, candidates, count - 1);
        let later = with_negatives(list, prerequisite, candidates, count);
        assert forall|at: int| 0 <= at < count implies lists_negative(
            later,
            prerequisite,
            #[trigger] candidates[at],
        ) by {
            if at < count - 1 {
                let found = choose|found: int|
                    0 <= found < middle.len() && (#[trigger] middle[found]).prerequisite
                        == prerequisite && upath::same_path(middle[found].path, candidates[at]);
                assert(later[found] == middle[found]);
            } else if !lists_negative(middle, prerequisite, candidates[count - 1]) {
                assert(later[middle.len() as int].prerequisite == prerequisite);
            }
        }
    }
}

proof fn lemma_explained_all(
    model: Chains,
    observations: Seq<DependencyObservation<Seq<u8>>>,
    count: int,
    at: int,
)
    requires
        0 <= at < count <= observations.len(),
        explained_all(model, observations, count) is Ok,
    ensures
        ({
            let witnesses = explained_all(model, observations, count)->Ok_0.witnesses;
            let observation = observations[at];
            &&& witnesses.selected.len() == count
            &&& witnesses.selected[at].prerequisite == observation.prerequisite
            &&& witnesses.selected[at].selected_path == rooted(
                model.cwd,
                observation.resolved_path,
            )
            &&& witnesses.selected[at].kind == observation.kind
            &&& !(observation.kind is Source) ==> {
                let found = search(
                    chains_for(model, observation.kind),
                    query_for(model, observation),
                );
                witnesses.selected[at].possible_roots == found.roots && found.roots.len() > 0
                    && forall|candidate: int|
                    0 <= candidate < found.negatives.len() ==> lists_negative(
                        witnesses.negative_candidates,
                        observation.prerequisite,
                        #[trigger] found.negatives[candidate],
                    )
            }
        }),
    decreases count,
{
    let before = explained_all(model, observations, count - 1)->Ok_0;
    let after = explained_all(model, observations, count)->Ok_0;
    let last = observations[count - 1];
    let found = if last.kind is Source {
        Found { roots: Seq::empty(), negatives: Seq::empty() }
    } else {
        search(chains_for(model, last.kind), query_for(model, last))
    };
    lemma_with_negatives(
        before.witnesses.negative_candidates,
        last.prerequisite,
        found.negatives,
        found.negatives.len() as int,
    );
    lemma_explained_len(model, observations, count - 1);
    if at < count - 1 {
        lemma_explained_all(model, observations, count - 1, at);
        let observation = observations[at];
        if !(observation.kind is Source) {
            let earlier = search(
                chains_for(model, observation.kind),
                query_for(model, observation),
            );
            assert forall|candidate: int| 0 <= candidate < earlier.negatives.len() implies
                lists_negative(
                after.witnesses.negative_candidates,
                observation.prerequisite,
                #[trigger] earlier.negatives[candidate],
            ) by {
                let old_list = before.witnesses.negative_candidates;
                let held = choose|held: int|
                    0 <= held < old_list.len() && (#[trigger] old_list[held]).prerequisite
                        == observation.prerequisite && upath::same_path(
                        old_list[held].path,
                        earlier.negatives[candidate],
                    );
                assert(after.witnesses.negative_candidates[held] == old_list[held]);
            }
        }
    }
}

proof fn lemma_explained_len(
    model: Chains,
    observations: Seq<DependencyObservation<Seq<u8>>>,
    count: int,
)
    requires
        0 <= count,
        explained_all(model, observations, count) is Ok,
    ensures
        explained_all(model, observations, count)->Ok_0.witnesses.selected.len() == count,
    decreases count,
{
    if count > 0 {
        lemma_explained_len(model, observations, count - 1);
    }
}

/// A proof explains every observation: it keeps the selected path with the roots that could have
/// selected it, at least one, and lists every path that must stay absent for that selection.
pub proof fn law_proof_explains_every_observation(
    model: Chains,
    observations: Seq<DependencyObservation<Seq<u8>>>,
    at: int,
)
    requires
        proved(model, observations) is Ok,
        0 <= at < observations.len(),
    ensures
        ({
            let witnesses = proved(model, observations)->Ok_0;
            let observation = observations[at];
            &&& witnesses.selected.len() == observations.len()
            &&& witnesses.selected[at].prerequisite == observation.prerequisite
            &&& witnesses.selected[at].selected_path == rooted(
                model.cwd,
                observation.resolved_path,
            )
            &&& !(observation.kind is Source) ==> {
                let found = search(
                    chains_for(model, observation.kind),
                    query_for(model, observation),
                );
                witnesses.selected[at].possible_roots == found.roots && found.roots.len() > 0
                    && forall|candidate: int|
                    0 <= candidate < found.negatives.len() ==> lists_negative(
                        witnesses.negative_candidates,
                        observation.prerequisite,
                        #[trigger] found.negatives[candidate],
                    )
            }
        }),
{
    lemma_explained_all(model, observations, observations.len() as int, at);
}

} // verus!
