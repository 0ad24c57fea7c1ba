//! Persistent, locally validated compiler identity records.
//!
//! A record says which toolchain a driver leads to, with a witness of every file that this rests on.
//! What is in the file system comes in as plain values.
use vstd::prelude::*;
use vstd::string::*;

use crate::bstr;
use crate::cache::request::Pair;
use crate::compiler::fingerprint;
use crate::compiler::fingerprint::{
    CompilerFingerprint, Context, Fault, FingerprintContext, FingerprintError,
    FingerprintObservation, QueryOutputs, Resolution, ResolutionObservation,
};
use crate::compiler::trust;
use crate::digest;
use crate::framing;
use crate::hex;
use crate::upath;

verus! {

broadcast use bstr::lemma_views_push;

/// The version of the records that are written.
pub const IDENTITY_SCHEMA: u32 = 2;

/// The largest record.
pub const MAX_RECORD_SIZE: u64 = 0x80_0000;

/// The most parts of one witness.
pub const MAX_WITNESS_NODES: usize = 256;

/// Controls whether persistent compiler identity observations may be reused.
#[derive(Clone, Copy, Debug, PartialEq, Eq, Structural)]
pub enum IdentityMode {
    /// Reuse an identity only when local filesystem witnesses remain authoritative.
    Auto,
    /// Execute the complete compiler fingerprint operation every time.
    Strict,
}

impl Default for IdentityMode {
    fn default() -> (mode: Self)
        ensures
            mode == IdentityMode::Auto,
    {
        IdentityMode::Auto
    }
}

/// The names and values of an environment, one after the other.
pub open spec fn flattened(pairs: Seq<Pair<Seq<u8>>>) -> Seq<Seq<u8>>
    decreases pairs.len(),
{
    if pairs.len() == 0 {
        Seq::empty()
    } else {
        flattened(pairs.drop_last()).push(pairs.last().name).push(pairs.last().value)
    }
}

/// What is hashed of a context.
pub open spec fn context_preimage(context: Context) -> Seq<u8> {
    framing::sized(bstr::utf8("fcache-compiler-identity-context-v1"@)) + framing::sized(
        context.driver,
    ) + framing::sized(context.cwd) + bstr::u64_le(context.environment.len() as u64)
        + framing::sized_all(flattened(context.environment))
}

/// The key of a context.
pub open spec fn key_text(context: Context) -> Seq<char> {
    hex::hex_text(digest::blake3_digest(context_preimage(context)))
}

/// The key of a context.
pub fn context_key(context: &FingerprintContext) -> (key: String)
    ensures
        key@ == key_text(context@),
{
    let mut bytes: Vec<u8> = Vec::new();
    framing::push_sized(&mut bytes, bstr::of("fcache-compiler-identity-context-v1"));
    framing::push_sized(&mut bytes, context.driver.as_slice());
    framing::push_sized(&mut bytes, context.cwd.as_slice());
    bstr::append_u64_le(&mut bytes, context.environment.len() as u64);
    let ghost head = bytes@;
    let ghost all = context@.environment;
    let mut index: usize = 0;
    assert(framing::sized_all(flattened(all.take(0))) =~= Seq::empty());
    while index < context.environment.len()
        invariant
            all == context@.environment,
            all.len() == context.environment@.len(),
            index <= all.len(),
            bytes@ == head + framing::sized_all(flattened(all.take(index as int))),
        decreases all.len() - index,
    {
        let pair = &context.environment[index];
        assert(all[index as int] == pair@);
        let ghost done = flattened(all.take(index as int));
        framing::push_sized(&mut bytes, pair.name.as_slice());
        framing::push_sized(&mut bytes, pair.value.as_slice());
        proof {
            framing::lemma_sized_all_push(done, pair@.name);
            framing::lemma_sized_all_push(done.push(pair@.name), pair@.value);
            assert(all.take(index + 1).drop_last() =~= all.take(index as int));
            assert(all.take(index + 1).last() == pair@);
            assert(bytes@ =~= head + framing::sized_all(flattened(all.take(index + 1))));
        }
        index += 1;
    }
    assert(all.take(index as int) =~= all);
    assert(bytes@ =~= context_preimage(context@));
    let sum = digest::hash(bytes.as_slice());
    hex::encode(sum.as_slice())
}

/// Every part of a context fits its frame. Every byte string in memory does.
pub open spec fn context_fits(context: Context) -> bool {
    &&& framing::fits(context.driver)
    &&& framing::fits(context.cwd)
    &&& context.environment.len() <= u64::MAX
    &&& forall|at: int|
        0 <= at < context.environment.len() ==> framing::fits(
            (#[trigger] context.environment[at]).name,
        ) && framing::fits(context.environment[at].value)
}

proof fn lemma_flattened(pairs: Seq<Pair<Seq<u8>>>)
    ensures
        flattened(pairs).len() == 2 * pairs.len(),
        forall|at: int|
            0 <= at < pairs.len() ==> flattened(pairs)[2 * at] == (#[trigger] pairs[at]).name
                && flattened(pairs)[2 * at + 1] == pairs[at].value,
    decreases pairs.len(),
{
    if pairs.len() > 0 {
        let front = pairs.drop_last();
        lemma_flattened(front);
        assert forall|at: int| 0 <= at < pairs.len() implies flattened(pairs)[2 * at] == (
        #[trigger] pairs[at]).name && flattened(pairs)[2 * at + 1] == pairs[at].value by {
            if at < front.len() {
                assert(front[at] == pairs[at]);
            }
        }
    }
}

proof fn lemma_flattened_fits(context: Context)
    requires
        context_fits(context),
    ensures
        forall|at: int|
            0 <= at < flattened(context.environment).len() ==> framing::fits(
                #[trigger] flattened(context.environment)[at],
            ),
{
    let pairs = context.environment;
    lemma_flattened(pairs);
    assert forall|at: int| 0 <= at < flattened(pairs).len() implies framing::fits(
        #[trigger] flattened(pairs)[at],
    ) by {
        let pair = pairs[at / 2];
        assert(at == 2 * (at / 2) || at == 2 * (at / 2) + 1);
    }
}

proof fn lemma_flattened_injective(left: Seq<Pair<Seq<u8>>>, right: Seq<Pair<Seq<u8>>>)
    requires
        flattened(left) == flattened(right),
    ensures
        left == right,
{
    lemma_flattened(left);
    lemma_flattened(right);
    assert(left.len() == right.len());
    assert forall|at: int| 0 <= at < left.len() implies #[trigger] left[at] == right[at] by {
        assert(flattened(left)[2 * at] == left[at].name);
        assert(flattened(right)[2 * at] == right[at].name);
        assert(flattened(right)[2 * at + 1] == right[at].value);
    }
    assert(left =~= right);
}

proof fn lemma_context_heads(left: Context, right: Context)
    requires
        framing::fits(left.driver),
        framing::fits(left.cwd),
        framing::fits(right.driver),
        framing::fits(right.cwd),
        context_preimage(left) == context_preimage(right),
    ensures
        left.driver == right.driver,
        left.cwd == right.cwd,
        framing::sized_all(flattened(left.environment)) == framing::sized_all(
            flattened(right.environment),
        ),
{
    let tag = bstr::utf8("fcache-compiler-identity-context-v1"@);
    let left_count = bstr::u64_le(left.environment.len() as u64);
    let right_count = bstr::u64_le(right.environment.len() as u64);
    let left_tail = framing::sized_all(flattened(left.environment));
    let right_tail = framing::sized_all(flattened(right.environment));
    let head = framing::sized(tag);
    let left_rest = framing::sized(left.driver) + (framing::sized(left.cwd) + (left_count
        + left_tail));
    let right_rest = framing::sized(right.driver) + (framing::sized(right.cwd) + (right_count
        + right_tail));
    assert(context_preimage(left) =~= head + left_rest);
    assert(context_preimage(right) =~= head + right_rest);
    assert(left_rest =~= context_preimage(left).skip(head.len() as int));
    assert(right_rest =~= context_preimage(right).skip(head.len() as int));
    framing::lemma_sized_prefix(
        left.driver,
        framing::sized(left.cwd) + (left_count + left_tail),
        right.driver,
        framing::sized(right.cwd) + (right_count + right_tail),
    );
    framing::lemma_sized_prefix(
        left.cwd,
        left_count + left_tail,
        right.cwd,
        right_count + right_tail,
    );
    assert(left_tail =~= (left_count + left_tail).skip(8));
    assert(right_tail =~= (right_count + right_tail).skip(8));
}

/// Contexts that differ in the driver, the directory or the environment, in names, values or order,
/// are hashed as different byte strings.
pub proof fn law_contexts_never_collide(left: Context, right: Context)
    requires
        context_fits(left),
        context_fits(right),
        context_preimage(left) == context_preimage(right),
    ensures
        left == right,
{
    lemma_context_heads(left, right);
    lemma_flattened_fits(left);
    lemma_flattened_fits(right);
    framing::law_sized_all_injective(flattened(left.environment), flattened(right.environment));
    lemma_flattened_injective(left.environment, right.environment);
}

/// The metadata of a file by which a change of it is seen.
#[derive(Clone, Copy, Debug, PartialEq, Eq, Structural)]
pub struct MetadataWitness {
    pub device: u64,
    pub inode: u64,
    pub mode: u32,
    pub size: u64,
    pub modified_seconds: i64,
    pub modified_nanoseconds: i64,
    pub changed_seconds: i64,
    pub changed_nanoseconds: i64,
}

/// A part of a path that is a link, or its last part.
#[derive(Clone, Debug, PartialEq, Eq)]
pub struct PathNodeWitness<B = Vec<u8>> {
    pub path: B,
    pub metadata: MetadataWitness,
    pub symlink_target: Option<B>,
}

impl View for PathNodeWitness {
    type V = PathNodeWitness<Seq<u8>>;

    open spec fn view(&self) -> PathNodeWitness<Seq<u8>> {
        PathNodeWitness {
            path: self.path@,
            metadata: self.metadata,
            symlink_target: bstr::opt_view(self.symlink_target),
        }
    }
}

/// Parts of a path, in views.
pub open spec fn node_views(list: Seq<PathNodeWitness>) -> Seq<PathNodeWitness<Seq<u8>>> {
    list.map_values(|node: PathNodeWitness| node@)
}

/// A tool of the compiler, with all by which a change of it is seen.
#[derive(Clone, Debug, PartialEq, Eq)]
pub struct ToolWitness {
    pub path: Vec<u8>,
    pub canonical_path: Vec<u8>,
    pub metadata: MetadataWitness,
    pub nodes: Vec<PathNodeWitness>,
    pub content_digest: [u8; 32],
}

/// What is found of one part of a path: its metadata, and where it leads if it is a link.
#[derive(Clone, Debug, PartialEq, Eq)]
pub struct NodeFacts {
    pub metadata: MetadataWitness,
    pub target: Option<Vec<u8>>,
}

/// What is found of a tool.
#[derive(Clone, Copy, Debug, PartialEq, Eq, Structural)]
pub struct ToolMetadata {
    pub is_file: bool,
    pub metadata: MetadataWitness,
}

/// The paths of the parts of a path, each with all before it.
pub open spec fn part_paths(path: Seq<u8>) -> Seq<Seq<u8>> {
    let components = upath::components_of(path);
    Seq::new(components.len(), |at: int| upath::rendered(components.take(at + 1)))
}

/// The paths of the parts of a path, each with all before it.
pub fn node_paths(path: &[u8]) -> (paths: Vec<Vec<u8>>)
    ensures
        bstr::views(paths@) == part_paths(path@),
{
    let components = upath::components(path);
    let ghost all = bstr::views(components@);
    let mut paths: Vec<Vec<u8>> = Vec::new();
    let mut current: Vec<u8> = Vec::new();
    let mut index: usize = 0;
    assert(current@ =~= upath::rendered(all.take(0)));
    assert(bstr::views(paths@) =~= part_paths(path@).take(0));
    while index < components.len()
        invariant
            all == bstr::views(components@),
            all == upath::components_of(path@),
            all.len() == components@.len(),
            index <= all.len(),
            current@ == upath::rendered(all.take(index as int)),
            bstr::views(paths@) == part_paths(path@).take(index as int),
        decreases all.len() - index,
    {
        assert(all[index as int] == components@[index as int]@);
        assert(all.take(index + 1).drop_last() =~= all.take(index as int));
        assert(all.take(index + 1).last() == all[index as int]);
        current = upath::join(current.as_slice(), components[index].as_slice());
        let part = bstr::copy(current.as_slice());
        paths.push(part);
        assert(bstr::views(paths@) =~= part_paths(path@).take(index + 1));
        index += 1;
    }
    assert(part_paths(path@).take(index as int) =~= part_paths(path@));
    paths
}

/// The first `count` parts that are kept: links, and the last part.
pub open spec fn kept_nodes(
    paths: Seq<Seq<u8>>,
    facts: Seq<NodeFacts>,
    count: int,
) -> Seq<PathNodeWitness<Seq<u8>>>
    decreases count,
{
    if count <= 0 {
        Seq::empty()
    } else {
        let earlier = kept_nodes(paths, facts, count - 1);
        let fact = facts[count - 1];
        if fact.target is Some || count == paths.len() {
            earlier.push(
                PathNodeWitness {
                    path: paths[count - 1],
                    metadata: fact.metadata,
                    symlink_target: bstr::opt_view(fact.target),
                },
            )
        } else {
            earlier
        }
    }
}

/// The witness of a path: its parts that are links, and its last part. There is none where these are
/// too many. `facts` says what is found of each part.
pub fn capture_path_nodes(paths: &Vec<Vec<u8>>, facts: &Vec<NodeFacts>) -> (nodes: Option<
    Vec<PathNodeWitness>,
>)
    requires
        facts@.len() == paths@.len(),
    ensures
        match nodes {
            Some(found) => node_views(found@) == kept_nodes(
                bstr::views(paths@),
                facts@,
                paths@.len() as int,
            ) && found@.len() <= MAX_WITNESS_NODES,
            None => kept_nodes(bstr::views(paths@), facts@, paths@.len() as int).len()
                > MAX_WITNESS_NODES,
        },
{
    let ghost all = bstr::views(paths@);
    let mut nodes: Vec<PathNodeWitness> = Vec::new();
    let mut index: usize = 0;
    assert(node_views(nodes@) =~= kept_nodes(all, facts@, 0));
    while index < paths.len()
        invariant
            all == bstr::views(paths@),
            all.len() == paths@.len(),
            facts@.len() == paths@.len(),
            index <= paths@.len(),
            node_views(nodes@) == kept_nodes(all, facts@, index as int),
            nodes@.len() <= MAX_WITNESS_NODES,
        decreases paths@.len() - index,
    {
        let fact = &facts[index];
        if fact.target.is_some() || index + 1 == paths.len() {
            let node = PathNodeWitness {
                path: bstr::copy(paths[index].as_slice()),
                metadata: fact.metadata,
                symlink_target: bstr::copy_opt(&fact.target),
            };
            let ghost before = nodes@;
            assert(all[index as int] == paths@[index as int]@);
            assert(node_views(before.push(node)) =~= node_views(before).push(node@));
            nodes.push(node);
            if nodes.len() > MAX_WITNESS_NODES {
                proof {
                    lemma_kept_grows(all, facts@, index + 1, paths@.len() as int);
                }
                return None;
            }
        }
        index += 1;
    }
    Some(nodes)
}

proof fn lemma_kept_grows(
    paths: Seq<Seq<u8>>,
    facts: Seq<NodeFacts>,
    count: int,
    total: int,
)
    requires
        0 <= count <= total,
    ensures
        kept_nodes(paths, facts, count).len() <= kept_nodes(paths, facts, total).len(),
    decreases total - count,
{
    if count < total {
        lemma_kept_grows(paths, facts, count + 1, total);
    }
}

/// The digest of what was read of a tool, where that is as long as the tool was at first.
pub fn digest_file(expected: u64, contents: &[u8]) -> (outcome: Result<[u8; 32], String>)
    ensures
        match outcome {
            Ok(sum) => contents@.len() == expected && sum@ == digest::blake3_digest(contents@),
            Err(text) => contents@.len() != expected && text@
                == "compiler tool changed while hashing"@,
        },
{
    if contents.len() as u64 != expected {
        return Err("compiler tool changed while hashing".to_owned());
    }
    Ok(digest::hash(contents))
}

/// What is found when the identity of a tool is captured.
#[derive(Debug)]
pub struct ToolCapture {
    pub canonical: Result<Vec<u8>, String>,
    pub before: Result<ToolMetadata, String>,
    /// The witness of its path.
    pub nodes: Result<Vec<PathNodeWitness>, String>,
    /// The digest of what it holds.
    pub digest: Result<[u8; 32], String>,
    pub after: Result<ToolMetadata, String>,
}

/// Why the identity of a tool is not captured.
pub open spec fn capture_fault(path: Seq<u8>, expected: Seq<u8>, facts: ToolCapture) -> Option<
    Fault,
> {
    if facts.canonical is Err {
        Some(FingerprintError::ReadTool { path, source: facts.canonical->Err_0@ })
    } else if facts.before is Err {
        Some(FingerprintError::ReadTool { path, source: facts.before->Err_0@ })
    } else if !facts.before->Ok_0.is_file {
        Some(FingerprintError::InvalidRecord("compiler tool is not a regular file"@))
    } else if facts.nodes is Err {
        Some(FingerprintError::CacheIo(facts.nodes->Err_0@))
    } else if facts.digest is Err {
        Some(FingerprintError::ReadTool { path, source: facts.digest->Err_0@ })
    } else if facts.after is Err {
        Some(FingerprintError::ReadTool { path, source: facts.after->Err_0@ })
    } else if facts.before->Ok_0.metadata != facts.after->Ok_0.metadata || facts.digest->Ok_0@
        != expected {
        Some(
            FingerprintError::InvalidRecord("compiler tool changed while its identity was captured"@),
        )
    } else {
        None
    }
}

impl ToolWitness {
    /// The witness of a tool whose contents have the digest.
    pub fn capture(path: &[u8], content_digest: [u8; 32], facts: ToolCapture) -> (outcome: Result<
        Self,
        FingerprintError,
    >)
        ensures
            match outcome {
                Ok(tool) => {
                    &&& capture_fault(path@, content_digest@, facts) is None
                    &&& tool.path@ == path@
                    &&& tool.canonical_path@ == facts.canonical->Ok_0@
                    &&& tool.metadata == facts.after->Ok_0.metadata
                    &&& tool.nodes@ == facts.nodes->Ok_0@
                    &&& tool.content_digest@ == content_digest@
                },
                Err(error) => capture_fault(path@, content_digest@, facts) == Some(error@),
            },
    {
        let canonical = match facts.canonical {
            Ok(found) => found,
            Err(source) => {
                return Err(FingerprintError::ReadTool { path: bstr::copy(path), source });
            },
        };
        let before = match facts.before {
            Ok(found) => found,
            Err(source) => {
                return Err(FingerprintError::ReadTool { path: bstr::copy(path), source });
            },
        };
        if !before.is_file {
            return Err(
                FingerprintError::InvalidRecord("compiler tool is not a regular file".to_owned()),
            );
        }
        let nodes = match facts.nodes {
            Ok(found) => found,
            Err(source) => {
                return Err(FingerprintError::CacheIo(source));
            },
        };
        let observed = match facts.digest {
            Ok(found) => found,
            Err(source) => {
                return Err(FingerprintError::ReadTool { path: bstr::copy(path), source });
            },
        };
        let after = match facts.after {
            Ok(found) => found,
            Err(source) => {
                return Err(FingerprintError::ReadTool { path: bstr::copy(path), source });
            },
        };
        if before.metadata != after.metadata || !digest::same(&observed, &content_digest) {
            return Err(
                FingerprintError::InvalidRecord(
                    "compiler tool changed while its identity was captured".to_owned(),
                ),
            );
        }
        Ok(
            ToolWitness {
                path: bstr::copy(path),
                canonical_path: canonical,
                metadata: after.metadata,
                nodes,
                content_digest,
            },
        )
    }
}

/// Why a record is of no use.
#[derive(Clone, Debug, PartialEq, Eq)]
pub enum IdentityError<S = String> {
    /// Something was not asked of the filesystem.
    MissingFact,
    Failed(S),
    Unsupported,
    Checksum,
    ResolutionTooLarge,
    ToolAppeared,
    ToolDisappeared,
    Untrusted,
    CanonicalChanged,
    MetadataChanged,
    InvalidPath,
    PartChanged,
    LinkChanged,
    ContentsChanged,
    MissingTool,
    MissingSpecs,
    IncompleteSpecs,
    SpecsAppeared,
}

/// Why a record is of no use, in views.
pub type Doubt = IdentityError<Seq<char>>;

impl View for IdentityError {
    type V = Doubt;

    open spec fn view(&self) -> Doubt {
        match *self {
            IdentityError::MissingFact => IdentityError::MissingFact,
            IdentityError::Failed(text) => IdentityError::Failed(text@),
            IdentityError::Unsupported => IdentityError::Unsupported,
            IdentityError::Checksum => IdentityError::Checksum,
            IdentityError::ResolutionTooLarge => IdentityError::ResolutionTooLarge,
            IdentityError::ToolAppeared => IdentityError::ToolAppeared,
            IdentityError::ToolDisappeared => IdentityError::ToolDisappeared,
            IdentityError::Untrusted => IdentityError::Untrusted,
            IdentityError::CanonicalChanged => IdentityError::CanonicalChanged,
            IdentityError::MetadataChanged => IdentityError::MetadataChanged,
            IdentityError::InvalidPath => IdentityError::InvalidPath,
            IdentityError::PartChanged => IdentityError::PartChanged,
            IdentityError::LinkChanged => IdentityError::LinkChanged,
            IdentityError::ContentsChanged => IdentityError::ContentsChanged,
            IdentityError::MissingTool => IdentityError::MissingTool,
            IdentityError::MissingSpecs => IdentityError::MissingSpecs,
            IdentityError::IncompleteSpecs => IdentityError::IncompleteSpecs,
            IdentityError::SpecsAppeared => IdentityError::SpecsAppeared,
        }
    }
}

/// The words of a doubt.
pub open spec fn doubt_text(doubt: Doubt) -> Seq<char> {
    match doubt {
        IdentityError::MissingFact => "a filesystem observation is missing"@,
        IdentityError::Failed(text) => text,
        IdentityError::Unsupported => "unsupported or unbounded compiler identity record"@,
        IdentityError::Checksum => "compiler identity record checksum does not match"@,
        IdentityError::ResolutionTooLarge => "compiler resolution witness is too large"@,
        IdentityError::ToolAppeared => "an earlier compiler tool candidate appeared"@,
        IdentityError::ToolDisappeared => "selected compiler tool disappeared"@,
        IdentityError::Untrusted => "compiler tool is not on a trustworthy local filesystem"@,
        IdentityError::CanonicalChanged => "compiler tool canonical path changed"@,
        IdentityError::MetadataChanged => "compiler tool metadata changed"@,
        IdentityError::InvalidPath => "invalid compiler path witness"@,
        IdentityError::PartChanged => "compiler path component changed"@,
        IdentityError::LinkChanged => "compiler path symlink changed"@,
        IdentityError::ContentsChanged => "compiler tool contents changed"@,
        IdentityError::MissingTool => "compiler identity is missing a tool witness"@,
        IdentityError::MissingSpecs => "compiler identity is missing its external specs witness"@,
        IdentityError::IncompleteSpecs => {
            "external specs resolution cannot be witnessed completely"@
        },
        IdentityError::SpecsAppeared => "an earlier external specs candidate appeared"@,
    }
}

impl IdentityError {
    /// The words of the error.
    pub fn message(&self) -> (text: String)
        ensures
            text@ == doubt_text(self@),
    {
        match self {
            IdentityError::MissingFact => "a filesystem observation is missing".to_owned(),
            IdentityError::Failed(text) => text.clone(),
            IdentityError::Unsupported => {
                "unsupported or unbounded compiler identity record".to_owned()
            },
            IdentityError::Checksum => {
                "compiler identity record checksum does not match".to_owned()
            },
            IdentityError::ResolutionTooLarge => {
                "compiler resolution witness is too large".to_owned()
            },
            IdentityError::ToolAppeared => {
                "an earlier compiler tool candidate appeared".to_owned()
            },
            IdentityError::ToolDisappeared => "selected compiler tool disappeared".to_owned(),
            IdentityError::Untrusted => {
                "compiler tool is not on a trustworthy local filesystem".to_owned()
            },
            IdentityError::CanonicalChanged => "compiler tool canonical path changed".to_owned(),
            IdentityError::MetadataChanged => "compiler tool metadata changed".to_owned(),
            IdentityError::InvalidPath => "invalid compiler path witness".to_owned(),
            IdentityError::PartChanged => "compiler path component changed".to_owned(),
            IdentityError::LinkChanged => "compiler path symlink changed".to_owned(),
            IdentityError::ContentsChanged => "compiler tool contents changed".to_owned(),
            IdentityError::MissingTool => {
                "compiler identity is missing a tool witness".to_owned()
            },
            IdentityError::MissingSpecs => {
                "compiler identity is missing its external specs witness".to_owned()
            },
            IdentityError::IncompleteSpecs => {
                "external specs resolution cannot be witnessed completely".to_owned()
            },
            IdentityError::SpecsAppeared => {
                "an earlier external specs candidate appeared".to_owned()
            },
        }
    }
}

/// The first reason to doubt that paths are absent. `presence` says of each whether it is there.
pub open spec fn absence_doubt(
    count: nat,
    presence: Seq<Result<bool, String>>,
    appeared: Doubt,
    index: int,
) -> Option<Doubt>
    decreases count - index,
{
    if index >= count {
        None
    } else if index >= presence.len() {
        Some(IdentityError::MissingFact)
    } else {
        match presence[index] {
            Ok(there) => if there {
                Some(appeared)
            } else {
                absence_doubt(count, presence, appeared, index + 1)
            },
            Err(text) => Some(IdentityError::Failed(text@)),
        }
    }
}

fn check_absent(
    count: usize,
    presence: &Vec<Result<bool, String>>,
    specs: bool,
) -> (outcome: Result<(), IdentityError>)
    ensures
        match outcome {
            Ok(_) => absence_doubt(
                count as nat,
                presence@,
                if specs {
                    IdentityError::SpecsAppeared
                } else {
                    IdentityError::ToolAppeared
                },
                0,
            ) is None,
            Err(error) => absence_doubt(
                count as nat,
                presence@,
                if specs {
                    IdentityError::SpecsAppeared
                } else {
                    IdentityError::ToolAppeared
                },
                0,
            ) == Some(error@),
        },
{
    let ghost appeared: Doubt = if specs {
        IdentityError::SpecsAppeared
    } else {
        IdentityError::ToolAppeared
    };
    let mut index: usize = 0;
    while index < count
        invariant
            appeared == (if specs {
                Doubt::SpecsAppeared
            } else {
                Doubt::ToolAppeared
            }),
            index <= count,
            absence_doubt(count as nat, presence@, appeared, 0) == absence_doubt(
                count as nat,
                presence@,
                appeared,
                index as int,
            ),
        decreases count - index,
    {
        if index >= presence.len() {
            return Err(IdentityError::MissingFact);
        }
        match &presence[index] {
            Ok(there) => {
                if *there {
                    return Err(
                        if specs {
                            IdentityError::SpecsAppeared
                        } else {
                            IdentityError::ToolAppeared
                        },
                    );
                }
            },
            Err(text) => {
                return Err(IdentityError::Failed(text.clone()));
            },
        }
        index += 1;
    }
    Ok(())
}

/// What is found of the places where a tool was looked for.
#[derive(Debug)]
pub struct ResolutionFacts {
    pub earlier: Vec<Result<bool, String>>,
    /// The tool is a file.
    pub selected: bool,
}

/// The first reason to doubt where a tool is found.
pub open spec fn resolution_doubt(resolution: Resolution, facts: ResolutionFacts) -> Option<Doubt> {
    if resolution.earlier_absent.len() > MAX_WITNESS_NODES {
        Some(IdentityError::ResolutionTooLarge)
    } else if absence_doubt(
        resolution.earlier_absent.len(),
        facts.earlier@,
        IdentityError::ToolAppeared,
        0,
    ) is Some {
        absence_doubt(
            resolution.earlier_absent.len(),
            facts.earlier@,
            IdentityError::ToolAppeared,
            0,
        )
    } else if !facts.selected {
        Some(IdentityError::ToolDisappeared)
    } else {
        None
    }
}

/// Checks that a tool is still found where it was.
pub fn validate_resolution(resolution: &ResolutionObservation, facts: &ResolutionFacts) -> (outcome:
    Result<(), IdentityError>)
    ensures
        match outcome {
            Ok(_) => resolution_doubt(resolution@, *facts) is None,
            Err(error) => resolution_doubt(resolution@, *facts) == Some(error@),
        },
{
    if resolution.earlier_absent.len() > MAX_WITNESS_NODES {
        return Err(IdentityError::ResolutionTooLarge);
    }
    check_absent(resolution.earlier_absent.len(), &facts.earlier, false)?;
    if !facts.selected {
        return Err(IdentityError::ToolDisappeared);
    }
    Ok(())
}

/// The first reason to doubt a path, from `index` on.
pub open spec fn nodes_doubt(
    nodes: Seq<PathNodeWitness<Seq<u8>>>,
    facts: Seq<Result<NodeFacts, String>>,
    index: int,
) -> Option<Doubt>
    decreases nodes.len() - index,
{
    if index >= nodes.len() {
        None
    } else if index >= facts.len() {
        Some(IdentityError::MissingFact)
    } else {
        match facts[index] {
            Err(text) => Some(IdentityError::Failed(text@)),
            Ok(found) => if found.metadata != nodes[index].metadata {
                Some(IdentityError::PartChanged)
            } else if bstr::opt_view(found.target) != nodes[index].symlink_target {
                Some(IdentityError::LinkChanged)
            } else {
                nodes_doubt(nodes, facts, index + 1)
            },
        }
    }
}

/// The first reason to doubt a path.
pub open spec fn path_doubt(
    nodes: Seq<PathNodeWitness<Seq<u8>>>,
    facts: Seq<Result<NodeFacts, String>>,
) -> Option<Doubt> {
    if nodes.len() == 0 || nodes.len() > MAX_WITNESS_NODES {
        Some(IdentityError::InvalidPath)
    } else {
        nodes_doubt(nodes, facts, 0)
    }
}

fn same_target(left: &Option<Vec<u8>>, right: &Option<Vec<u8>>) -> (equal: bool)
    ensures
        equal == (bstr::opt_view(*left) == bstr::opt_view(*right)),
{
    match (left, right) {
        (Some(first), Some(second)) => bstr::same(first.as_slice(), second.as_slice()),
        (None, None) => true,
        _ => false,
    }
}

/// Checks that the parts of a path are as they were.
pub fn validate_path_nodes(
    nodes: &Vec<PathNodeWitness>,
    facts: &Vec<Result<NodeFacts, String>>,
) -> (outcome: Result<(), IdentityError>)
    ensures
        match outcome {
            Ok(_) => path_doubt(node_views(nodes@), facts@) is None,
            Err(error) => path_doubt(node_views(nodes@), facts@) == Some(error@),
        },
{
    let ghost all = node_views(nodes@);
    if nodes.len() == 0 || nodes.len() > MAX_WITNESS_NODES {
        return Err(IdentityError::InvalidPath);
    }
    let mut index: usize = 0;
    while index < nodes.len()
        invariant
            all == node_views(nodes@),
            all.len() == nodes@.len(),
            index <= nodes@.len(),
            0 < nodes@.len() <= MAX_WITNESS_NODES,
            nodes_doubt(all, facts@, 0) == nodes_doubt(all, facts@, index as int),
        decreases nodes@.len() - index,
    {
        assert(all[index as int] == nodes@[index as int]@);
        if index >= facts.len() {
            return Err(IdentityError::MissingFact);
        }
        match &facts[index] {
            Err(text) => {
                return Err(IdentityError::Failed(text.clone()));
            },
            Ok(found) => {
                if found.metadata != nodes[index].metadata {
                    return Err(IdentityError::PartChanged);
                }
                if !same_target(&found.target, &nodes[index].symlink_target) {
                    return Err(IdentityError::LinkChanged);
                }
            },
        }
        index += 1;
    }
    Ok(())
}

/// What is found of a tool when a record is checked.
#[derive(Debug)]
pub struct ToolFacts {
    pub canonical: Result<Vec<u8>, String>,
    pub metadata: Result<ToolMetadata, String>,
    pub nodes: Vec<Result<NodeFacts, String>>,
    /// The digest of what it holds. It counts only where the file system is not trusted.
    pub digest: Result<[u8; 32], String>,
}

/// The first reason to doubt a tool.
pub open spec fn tool_doubt(tool: ToolWitness, facts: ToolFacts, verify_content: bool) -> Option<
    Doubt,
> {
    if facts.canonical is Err {
        Some(IdentityError::Failed(facts.canonical->Err_0@))
    } else if facts.canonical->Ok_0@ != tool.canonical_path@ {
        Some(IdentityError::CanonicalChanged)
    } else if facts.metadata is Err {
        Some(IdentityError::Failed(facts.metadata->Err_0@))
    } else if !facts.metadata->Ok_0.is_file || facts.metadata->Ok_0.metadata != tool.metadata {
        Some(IdentityError::MetadataChanged)
    } else if path_doubt(node_views(tool.nodes@), facts.nodes@) is Some {
        path_doubt(node_views(tool.nodes@), facts.nodes@)
    } else if !verify_content {
        None
    } else if facts.digest is Err {
        Some(IdentityError::Failed(facts.digest->Err_0@))
    } else if facts.digest->Ok_0@ != tool.content_digest@ {
        Some(IdentityError::ContentsChanged)
    } else {
        None
    }
}

impl ToolWitness {
    /// Checks that a tool is as it was: by its metadata, and by its contents where its file system
    /// is not trusted.
    pub fn validate(&self, verify_content: bool, facts: &ToolFacts) -> (outcome: Result<
        (),
        IdentityError,
    >)
        ensures
            match outcome {
                Ok(_) => tool_doubt(*self, *facts, verify_content) is None,
                Err(error) => tool_doubt(*self, *facts, verify_content) == Some(error@),
            },
    {
        match &facts.canonical {
            Err(text) => {
                return Err(IdentityError::Failed(text.clone()));
            },
            Ok(found) => {
                if !bstr::same(found.as_slice(), self.canonical_path.as_slice()) {
                    return Err(IdentityError::CanonicalChanged);
                }
            },
        }
        match &facts.metadata {
            Err(text) => {
                return Err(IdentityError::Failed(text.clone()));
            },
            Ok(found) => {
                if !found.is_file || found.metadata != self.metadata {
                    return Err(IdentityError::MetadataChanged);
                }
            },
        }
        validate_path_nodes(&self.nodes, &facts.nodes)?;
        if verify_content {
            match &facts.digest {
                Err(text) => {
                    return Err(IdentityError::Failed(text.clone()));
                },
                Ok(found) => {
                    if !digest::same(found, &self.content_digest) {
                        return Err(IdentityError::ContentsChanged);
                    }
                },
            }
        }
        Ok(())
    }
}

/// Which toolchain a driver leads to, with a witness of every file that this rests on.
#[derive(Clone, Debug, PartialEq, Eq)]
pub struct IdentityRecord {
    pub schema: u32,
    pub checksum: [u8; 32],
    pub context_key: String,
    pub digest: [u8; 32],
    pub major_version: u32,
    pub driver: Vec<u8>,
    pub f951: Vec<u8>,
    pub assembler: Vec<u8>,
    pub driver_resolution: ResolutionObservation,
    pub f951_resolution: ResolutionObservation,
    pub assembler_resolution: ResolutionObservation,
    pub specs_path: Option<Vec<u8>>,
    pub specs_absent: Vec<Vec<u8>>,
    pub specs_resolution_complete: bool,
    pub query_outputs: QueryOutputs,
    pub tools: Vec<ToolWitness>,
}

/// A record is not larger than records are.
pub open spec fn bounded(record: IdentityRecord) -> bool {
    &&& record.tools@.len() <= 4
    &&& forall|at: int|
        0 <= at < record.tools@.len() ==> (#[trigger] record.tools@[at]).nodes@.len()
            <= MAX_WITNESS_NODES
    &&& record.driver_resolution.earlier_absent@.len() <= MAX_WITNESS_NODES
    &&& record.f951_resolution.earlier_absent@.len() <= MAX_WITNESS_NODES
    &&& record.assembler_resolution.earlier_absent@.len() <= MAX_WITNESS_NODES
    &&& record.specs_absent@.len() <= MAX_WITNESS_NODES
}

/// A record has a witness of the file.
pub open spec fn witnessed(tools: Seq<ToolWitness>, path: Seq<u8>) -> bool {
    exists|at: int| 0 <= at < tools.len() && (#[trigger] tools[at]).path@ == path
}

/// What is found when a record is checked.
#[derive(Debug)]
pub struct IdentityFacts {
    /// The record as it is written, with zeros for its checksum.
    pub canonical: Result<Vec<u8>, String>,
    pub driver: ResolutionFacts,
    pub f951: ResolutionFacts,
    pub assembler: ResolutionFacts,
    /// The device of each tool.
    pub devices: Vec<Option<u64>>,
    /// The devices of the mount points of trusted file systems.
    pub trusted: Vec<Option<u64>>,
    pub tools: Vec<ToolFacts>,
    pub specs_absent: Vec<Result<bool, String>>,
}

/// The first reason to doubt the tools, from `index` on.
pub open spec fn tools_doubt(
    tools: Seq<ToolWitness>,
    facts: Seq<ToolFacts>,
    verify_content: bool,
    index: int,
) -> Option<Doubt>
    decreases tools.len() - index,
{
    if index >= tools.len() {
        None
    } else if index >= facts.len() {
        Some(IdentityError::MissingFact)
    } else if tool_doubt(tools[index], facts[index], verify_content) is Some {
        tool_doubt(tools[index], facts[index], verify_content)
    } else {
        tools_doubt(tools, facts, verify_content, index + 1)
    }
}

/// The first reason to doubt where the tools are found.
pub open spec fn resolutions_doubt(record: IdentityRecord, facts: IdentityFacts) -> Option<Doubt> {
    if resolution_doubt(record.driver_resolution@, facts.driver) is Some {
        resolution_doubt(record.driver_resolution@, facts.driver)
    } else if resolution_doubt(record.f951_resolution@, facts.f951) is Some {
        resolution_doubt(record.f951_resolution@, facts.f951)
    } else {
        resolution_doubt(record.assembler_resolution@, facts.assembler)
    }
}

/// The first reason to doubt that a record has the witnesses that it needs.
pub open spec fn witnesses_doubt(record: IdentityRecord, facts: IdentityFacts, strict: bool) -> Option<
    Doubt,
> {
    if !witnessed(record.tools@, record.driver@) || !witnessed(record.tools@, record.f951@)
        || !witnessed(record.tools@, record.assembler@) {
        Some(IdentityError::MissingTool)
    } else if record.specs_path is Some && !witnessed(record.tools@, record.specs_path->0@) {
        Some(IdentityError::MissingSpecs)
    } else if strict && !record.specs_resolution_complete {
        Some(IdentityError::IncompleteSpecs)
    } else {
        absence_doubt(
            record.specs_absent@.len(),
            facts.specs_absent@,
            IdentityError::SpecsAppeared,
            0,
        )
    }
}

/// The first reason to doubt a record. `strict` asks that the files are on trusted file systems.
pub open spec fn record_doubt(record: IdentityRecord, facts: IdentityFacts, strict: bool) -> Option<
    Doubt,
> {
    let trusted = trust::trustworthy(facts.devices@, facts.trusted@);
    if record.schema != IDENTITY_SCHEMA || !bounded(record) {
        Some(IdentityError::Unsupported)
    } else if facts.canonical is Err {
        Some(IdentityError::Failed(facts.canonical->Err_0@))
    } else if digest::blake3_digest(facts.canonical->Ok_0@) != record.checksum@ {
        Some(IdentityError::Checksum)
    } else if resolutions_doubt(record, facts) is Some {
        resolutions_doubt(record, facts)
    } else if strict && !trusted {
        Some(IdentityError::Untrusted)
    } else if tools_doubt(record.tools@, facts.tools@, !trusted, 0) is Some {
        tools_doubt(record.tools@, facts.tools@, !trusted, 0)
    } else {
        witnesses_doubt(record, facts, strict)
    }
}

/// The toolchain that a record speaks of.
pub open spec fn recorded(record: IdentityRecord) -> CompilerFingerprint<Seq<u8>, Seq<u8>> {
    CompilerFingerprint {
        digest: record.digest@,
        driver: record.driver@,
        f951: record.f951@,
        assembler: record.assembler@,
        major_version: record.major_version,
    }
}

fn has_witness(tools: &Vec<ToolWitness>, path: &[u8]) -> (yes: bool)
    ensures
        yes == witnessed(tools@, path@),
{
    let mut index: usize = 0;
    while index < tools.len()
        invariant
            index <= tools@.len(),
            forall|at: int| 0 <= at < index ==> (#[trigger] tools@[at]).path@ != path@,
        decreases tools@.len() - index,
    {
        if bstr::same(tools[index].path.as_slice(), path) {
            return true;
        }
        index += 1;
    }
    false
}

impl IdentityRecord {
    /// The record of an observation, with a witness of each tool. Its checksum is still to be
    /// computed.
    pub fn from_observation(
        context_key: String,
        observation: FingerprintObservation,
        tools: Vec<ToolWitness>,
    ) -> (record: Self)
        ensures
            record.schema == IDENTITY_SCHEMA,
            forall|at: int| 0 <= at < 32 ==> record.checksum@[at] == 0,
            record.context_key@ == context_key@,
            recorded(record) == observation@.fingerprint,
            record.driver_resolution@ == observation@.driver_resolution,
            record.f951_resolution@ == observation@.f951_resolution,
            record.assembler_resolution@ == observation@.assembler_resolution,
            bstr::opt_view(record.specs_path) == observation@.specs_path,
            bstr::views(record.specs_absent@) == observation@.specs_absent,
            record.specs_resolution_complete == observation@.specs_resolution_complete,
            record.query_outputs@ == observation@.query_outputs,
            record.tools@ == tools@,
    {
        IdentityRecord {
            schema: IDENTITY_SCHEMA,
            checksum: [0;32],
            context_key,
            digest: observation.fingerprint.digest,
            major_version: observation.fingerprint.major_version,
            driver: observation.fingerprint.driver,
            f951: observation.fingerprint.f951,
            assembler: observation.fingerprint.assembler,
            driver_resolution: observation.driver_resolution,
            f951_resolution: observation.f951_resolution,
            assembler_resolution: observation.assembler_resolution,
            specs_path: observation.specs_path,
            specs_absent: observation.specs_absent,
            specs_resolution_complete: observation.specs_resolution_complete,
            query_outputs: observation.query_outputs,
            tools,
        }
    }

    /// The record with its checksum, given how it is written with zeros for its checksum.
    pub fn seal(self, canonical: &[u8]) -> (sealed: Self)
        ensures
            sealed.checksum@ == digest::blake3_digest(canonical@),
            sealed == (IdentityRecord { checksum: sealed.checksum, ..self }),
    {
        IdentityRecord { checksum: digest::hash(canonical), ..self }
    }

    /// The toolchain that the record speaks of.
    pub fn fingerprint(&self) -> (fingerprint: CompilerFingerprint)
        ensures
            fingerprint@ == recorded(*self),
    {
        CompilerFingerprint {
            digest: self.digest,
            driver: bstr::copy(self.driver.as_slice()),
            f951: bstr::copy(self.f951.as_slice()),
            assembler: bstr::copy(self.assembler.as_slice()),
            major_version: self.major_version,
        }
    }

    /// The record is not larger than records are.
    pub fn is_bounded(&self) -> (yes: bool)
        ensures
            yes == bounded(*self),
    {
        if self.tools.len() > 4 {
            return false;
        }
        let mut index: usize = 0;
        while index < self.tools.len()
            invariant
                self.tools@.len() <= 4,
                index <= self.tools@.len(),
                forall|at: int|
                    0 <= at < index ==> (#[trigger] self.tools@[at]).nodes@.len()
                        <= MAX_WITNESS_NODES,
            decreases self.tools@.len() - index,
        {
            if self.tools[index].nodes.len() > MAX_WITNESS_NODES {
                return false;
            }
            index += 1;
        }
        self.driver_resolution.earlier_absent.len() <= MAX_WITNESS_NODES
            && self.f951_resolution.earlier_absent.len() <= MAX_WITNESS_NODES
            && self.assembler_resolution.earlier_absent.len() <= MAX_WITNESS_NODES
            && self.specs_absent.len() <= MAX_WITNESS_NODES
    }

    fn validate_tools(&self, verify_content: bool, facts: &IdentityFacts) -> (outcome: Result<
        (),
        IdentityError,
    >)
        ensures
            match outcome {
                Ok(_) => tools_doubt(self.tools@, facts.tools@, verify_content, 0) is None,
                Err(error) => tools_doubt(self.tools@, facts.tools@, verify_content, 0) == Some(
                    error@,
                ),
            },
    {
        let mut index: usize = 0;
        while index < self.tools.len()
            invariant
                index <= self.tools@.len(),
                tools_doubt(self.tools@, facts.tools@, verify_content, 0) == tools_doubt(
                    self.tools@,
                    facts.tools@,
                    verify_content,
                    index as int,
                ),
            decreases self.tools@.len() - index,
        {
            if index >= facts.tools.len() {
                return Err(IdentityError::MissingFact);
            }
            self.tools[index].validate(verify_content, &facts.tools[index])?;
            index += 1;
        }
        Ok(())
    }

    fn validate_witnesses(&self, facts: &IdentityFacts, strict: bool) -> (outcome: Result<
        (),
        IdentityError,
    >)
        ensures
            match outcome {
                Ok(_) => witnesses_doubt(*self, *facts, strict) is None,
                Err(error) => witnesses_doubt(*self, *facts, strict) == Some(error@),
            },
    {
        if !has_witness(&self.tools, self.driver.as_slice()) || !has_witness(
            &self.tools,
            self.f951.as_slice(),
        ) || !has_witness(&self.tools, self.assembler.as_slice()) {
            return Err(IdentityError::MissingTool);
        }
        if let Some(specs) = &self.specs_path {
            if !has_witness(&self.tools, specs.as_slice()) {
                return Err(IdentityError::MissingSpecs);
            }
        }
        if strict && !self.specs_resolution_complete {
            return Err(IdentityError::IncompleteSpecs);
        }
        check_absent(self.specs_absent.len(), &facts.specs_absent, true)
    }

    /// Checks a record against what is found now. Where the files are on file systems that are not
    /// trusted, their contents are compared as well; a record that is reused asks for trusted ones.
    pub fn validate(&self, require_trustworthy_filesystem: bool, facts: &IdentityFacts) -> (outcome:
        Result<(), IdentityError>)
        ensures
            match outcome {
                Ok(_) => record_doubt(*self, *facts, require_trustworthy_filesystem) is None,
                Err(error) => record_doubt(*self, *facts, require_trustworthy_filesystem) == Some(
                    error@,
                ),
            },
    {
        if self.schema != IDENTITY_SCHEMA || !self.is_bounded() {
            return Err(IdentityError::Unsupported);
        }
        match &facts.canonical {
            Err(text) => {
                return Err(IdentityError::Failed(text.clone()));
            },
            Ok(canonical) => {
                let sum = digest::hash(canonical.as_slice());
                if !digest::same(&sum, &self.checksum) {
                    return Err(IdentityError::Checksum);
                }
            },
        }
        validate_resolution(&self.driver_resolution, &facts.driver)?;
        validate_resolution(&self.f951_resolution, &facts.f951)?;
        validate_resolution(&self.assembler_resolution, &facts.assembler)?;
        let trusted = trust::filesystems_are_trustworthy(&facts.devices, &facts.trusted);
        if require_trustworthy_filesystem && !trusted {
            return Err(IdentityError::Untrusted);
        }
        self.validate_tools(!trusted, facts)?;
        self.validate_witnesses(facts, require_trustworthy_filesystem)
    }
}

/// A compiler identity whose tool resolution and filesystem witnesses were validated.
#[derive(Clone, Debug)]
pub struct ValidatedCompilerIdentity {
    pub fingerprint: CompilerFingerprint,
    pub record: IdentityRecord,
    pub reused: bool,
}

impl ValidatedCompilerIdentity {
    /// The identity that a record speaks of.
    pub fn new(record: IdentityRecord, reused: bool) -> (identity: Self)
        ensures
            identity.record == record,
            identity.reused == reused,
            identity.fingerprint@ == recorded(record),
    {
        let fingerprint = record.fingerprint();
        ValidatedCompilerIdentity { fingerprint, record, reused }
    }

    /// The toolchain.
    pub fn fingerprint(&self) -> (fingerprint: &CompilerFingerprint)
        ensures
            *fingerprint == self.fingerprint,
    {
        &self.fingerprint
    }

    /// The toolchain alone.
    pub fn into_fingerprint(self) -> (fingerprint: CompilerFingerprint)
        ensures
            fingerprint == self.fingerprint,
    {
        self.fingerprint
    }

    /// The identity was recorded before.
    pub fn was_reused(&self) -> (yes: bool)
        ensures
            yes == self.reused,
    {
        self.reused
    }

    /// Digest of the exact driver, working-directory, and environment lookup context.
    pub fn context_digest(&self) -> (digest: [u8; 32])
        ensures
            digest@ == digest::blake3_digest(bstr::utf8(self.record.context_key@)),
    {
        digest::hash(bstr::of(self.record.context_key.as_str()))
    }

    /// Revalidate immediately before committing outputs to close the toolchain TOCTOU window.
    pub fn revalidate(&self, facts: &IdentityFacts) -> (outcome: Result<(), FingerprintError>)
        ensures
            match outcome {
                Ok(_) => record_doubt(self.record, *facts, self.reused) is None,
                Err(error) => record_doubt(self.record, *facts, self.reused) is Some && error@
                    == Fault::InvalidRecord(
                    doubt_text(record_doubt(self.record, *facts, self.reused)->0),
                ),
            },
    {
        match self.record.validate(self.reused, facts) {
            Ok(_) => Ok(()),
            Err(error) => Err(FingerprintError::InvalidRecord(error.message())),
        }
    }
}

/// What has to be done to identify a compiler.
#[derive(Clone, Copy, Debug, PartialEq, Eq, Structural)]
pub enum LookupStep {
    /// The record is loaded.
    Load,
    /// The directories are made and the lock is taken.
    Lock,
    /// The record is loaded under the lock: another process may have written it.
    LoadLocked,
    /// The record is used.
    Reuse,
    /// The compiler is asked. The answer is recorded where `publish` says so.
    Fingerprint { publish: bool },
}

/// What came of a step.
#[derive(Clone, Copy, Debug, PartialEq, Eq, Structural)]
pub enum LookupEvent {
    Begun,
    /// A record was found, and nothing speaks against it.
    Loaded(bool),
    Locked(bool),
    LoadedLocked(bool),
}

/// Persistent compiler identity storage rooted in an fcache cache directory.
#[derive(Clone, Debug, PartialEq, Eq)]
pub struct CompilerIdentityCache {
    pub root: Vec<u8>,
    pub read_only: bool,
}

/// What has to be done next to identify a compiler.
pub open spec fn lookup_next(mode: IdentityMode, read_only: bool, event: LookupEvent) -> LookupStep {
    match event {
        LookupEvent::Begun => if mode is Auto {
            LookupStep::Load
        } else if read_only {
            LookupStep::Fingerprint { publish: false }
        } else {
            LookupStep::Lock
        },
        LookupEvent::Loaded(found) => if found {
            LookupStep::Reuse
        } else if read_only {
            LookupStep::Fingerprint { publish: false }
        } else {
            LookupStep::Lock
        },
        LookupEvent::Locked(locked) => if !locked {
            LookupStep::Fingerprint { publish: false }
        } else if mode is Auto {
            LookupStep::LoadLocked
        } else {
            LookupStep::Fingerprint { publish: true }
        },
        LookupEvent::LoadedLocked(found) => if found {
            LookupStep::Reuse
        } else {
            LookupStep::Fingerprint { publish: true }
        },
    }
}

/// A record that was found may be reused: it is not too large, it is the one for the key, and
/// nothing speaks against it.
pub open spec fn reusable(
    length: u64,
    record: IdentityRecord,
    key: Seq<char>,
    facts: IdentityFacts,
) -> bool {
    length <= MAX_RECORD_SIZE && record.context_key@ == key && record_doubt(record, facts, true)
        is None
}

impl CompilerIdentityCache {
    /// The identities below a cache directory. Nothing is created or read.
    pub fn new(cache_root: &[u8], read_only: bool) -> (cache: Self)
        ensures
            cache.root@ == upath::joined(cache_root@, bstr::utf8("v1/compiler-identities"@)),
            cache.read_only == read_only,
    {
        CompilerIdentityCache {
            root: upath::join(cache_root, bstr::of("v1/compiler-identities")),
            read_only,
        }
    }

    /// The directories of the identities, outermost first.
    pub fn directories(&self) -> (list: Vec<Vec<u8>>)
        ensures
            bstr::views(list@) == seq![
                self.root@,
                upath::joined(self.root@, bstr::utf8("records"@)),
                upath::joined(self.root@, bstr::utf8("locks"@)),
            ],
    {
        let mut list: Vec<Vec<u8>> = Vec::new();
        list.push(bstr::copy(self.root.as_slice()));
        list.push(upath::join(self.root.as_slice(), bstr::of("records")));
        list.push(upath::join(self.root.as_slice(), bstr::of("locks")));
        assert(bstr::views(list@) =~= seq![
            self.root@,
            upath::joined(self.root@, bstr::utf8("records"@)),
            upath::joined(self.root@, bstr::utf8("locks"@)),
        ]);
        list
    }

    /// The file of the record for a key.
    pub fn record_path(&self, key: &str) -> (path: Vec<u8>)
        ensures
            path@ == upath::joined(
                upath::joined(self.root@, bstr::utf8("records"@)),
                bstr::utf8(key@) + bstr::utf8(".json"@),
            ),
    {
        let directory = upath::join(self.root.as_slice(), bstr::of("records"));
        let file = bstr::concat(bstr::of(key), bstr::of(".json"));
        upath::join(directory.as_slice(), file.as_slice())
    }

    /// The file by which processes that identify the same compiler exclude each other.
    pub fn lock_path(&self, key: &str) -> (path: Vec<u8>)
        ensures
            path@ == upath::joined(
                upath::joined(self.root@, bstr::utf8("locks"@)),
                bstr::utf8(key@) + bstr::utf8(".lock"@),
            ),
    {
        let directory = upath::join(self.root.as_slice(), bstr::of("locks"));
        let file = bstr::concat(bstr::of(key), bstr::of(".lock"));
        upath::join(directory.as_slice(), file.as_slice())
    }

    /// What has to be done next to identify a compiler. Whatever is doubtful ends in asking it.
    pub fn lookup(&self, mode: IdentityMode, event: LookupEvent) -> (step: LookupStep)
        ensures
            step == lookup_next(mode, self.read_only, event),
    {
        let auto = matches!(mode, IdentityMode::Auto);
        match event {
            LookupEvent::Begun => if auto {
                LookupStep::Load
            } else if self.read_only {
                LookupStep::Fingerprint { publish: false }
            } else {
                LookupStep::Lock
            },
            LookupEvent::Loaded(found) => if found {
                LookupStep::Reuse
            } else if self.read_only {
                LookupStep::Fingerprint { publish: false }
            } else {
                LookupStep::Lock
            },
            LookupEvent::Locked(locked) => if !locked {
                LookupStep::Fingerprint { publish: false }
            } else if auto {
                LookupStep::LoadLocked
            } else {
                LookupStep::Fingerprint { publish: true }
            },
            LookupEvent::LoadedLocked(found) => if found {
                LookupStep::Reuse
            } else {
                LookupStep::Fingerprint { publish: true }
            },
        }
    }

    /// The identity of a record that was found, where it may be reused. `length` is that of its
    /// file.
    pub fn try_load(
        &self,
        key: &String,
        length: u64,
        record: IdentityRecord,
        facts: &IdentityFacts,
    ) -> (identity: Option<ValidatedCompilerIdentity>)
        ensures
            match identity {
                Some(found) => reusable(length, record, key@, *facts) && found.record == record
                    && found.reused && found.fingerprint@ == recorded(record),
                None => !reusable(length, record, key@, *facts),
            },
    {
        if length > MAX_RECORD_SIZE || record.context_key != *key {
            return None;
        }
        match record.validate(true, facts) {
            Ok(_) => Some(ValidatedCompilerIdentity::new(record, true)),
            Err(_) => None,
        }
    }

    /// A record of the given length may be written.
    pub fn may_publish(&self, length: u64) -> (yes: bool)
        ensures
            yes == (length <= MAX_RECORD_SIZE),
    {
        length <= MAX_RECORD_SIZE
    }
}

/// With the strict mode no record is ever loaded or used; and where the cache is read-only, nothing
/// is locked or recorded.
pub proof fn law_modes_are_kept(mode: IdentityMode, read_only: bool, found: bool, locked: bool)
    ensures
        mode is Strict ==> {
            let first = lookup_next(mode, read_only, LookupEvent::Begun);
            let second = lookup_next(mode, read_only, LookupEvent::Locked(locked));
            &&& first is Lock || first is Fingerprint
            &&& second is Fingerprint
        },
        read_only ==> {
            let first = lookup_next(mode, read_only, LookupEvent::Begun);
            let second = lookup_next(mode, read_only, LookupEvent::Loaded(found));
            &&& first is Load || first == (LookupStep::Fingerprint { publish: false })
            &&& second is Reuse || second == (LookupStep::Fingerprint { publish: false })
        },
{
}

/// A record that is reused is one of which nothing changed: every tool has the metadata and the path
/// that it had, none of the places where it was not found before has it now, and its files are where
/// changes are seen.
pub proof fn law_reused_records_are_current(
    length: u64,
    record: IdentityRecord,
    key: Seq<char>,
    facts: IdentityFacts,
    at: int,
)
    requires
        reusable(length, record, key, facts),
        0 <= at < record.tools@.len(),
    ensures
        trust::trustworthy(facts.devices@, facts.trusted@),
        resolution_doubt(record.driver_resolution@, facts.driver) is None,
        resolution_doubt(record.f951_resolution@, facts.f951) is None,
        resolution_doubt(record.assembler_resolution@, facts.assembler) is None,
        at < facts.tools@.len(),
        facts.tools@[at].metadata is Ok,
        facts.tools@[at].metadata->Ok_0.metadata == record.tools@[at].metadata,
        facts.tools@[at].canonical is Ok,
        facts.tools@[at].canonical->Ok_0@ == record.tools@[at].canonical_path@,
{
    lemma_tools_current(record.tools@, facts.tools@, false, 0, at);
}

/// A tool whose contents changed makes an identity invalid. Where its file system is trusted, a
/// change is one that shows in its metadata; where it is not, the digest of what it holds now
/// tells.
pub proof fn law_revalidation_detects_changed_tools(
    identity: ValidatedCompilerIdentity,
    facts: IdentityFacts,
    at: int,
    contents: Seq<u8>,
)
    requires
        0 <= at < identity.record.tools@.len(),
        at < facts.tools@.len(),
        facts.tools@[at].digest matches Ok(sum) && sum@ == digest::blake3_digest(contents),
        digest::blake3_digest(contents) != identity.record.tools@[at].content_digest@,
        trust::trustworthy(facts.devices@, facts.trusted@) ==> (
        facts.tools@[at].metadata matches Ok(found) ==> found.metadata
            != identity.record.tools@[at].metadata),
    ensures
        record_doubt(identity.record, facts, identity.reused) is Some,
{
    let trusted = trust::trustworthy(facts.devices@, facts.trusted@);
    if record_doubt(identity.record, facts, identity.reused) is None {
        lemma_tools_current(identity.record.tools@, facts.tools@, !trusted, 0, at);
    }
}

/// Nothing stands where a tool was not found before, and the tool is still there.
pub open spec fn still_resolved(resolution: Resolution, facts: ResolutionFacts) -> bool {
    &&& resolution.earlier_absent.len() <= facts.earlier@.len()
    &&& forall|at: int|
        0 <= at < resolution.earlier_absent.len() ==> #[trigger] facts.earlier@[at] == Ok::<
            bool,
            String,
        >(false)
    &&& facts.selected
}

/// A tool is as its witness says.
pub open spec fn still_witnessed(tool: ToolWitness, facts: ToolFacts) -> bool {
    &&& facts.canonical matches Ok(found) && found@ == tool.canonical_path@
    &&& facts.metadata matches Ok(found) && found.is_file && found.metadata == tool.metadata
    &&& 0 < tool.nodes@.len() <= facts.nodes@.len()
    &&& forall|at: int|
        0 <= at < tool.nodes@.len() ==> (#[trigger] facts.nodes@[at] matches Ok(found)
            && found.metadata == tool.nodes@[at]@.metadata && bstr::opt_view(found.target)
            == tool.nodes@[at]@.symlink_target)
    &&& facts.digest matches Ok(found) && found@ == tool.content_digest@
}

/// Everything that a record rests on is as it was.
pub open spec fn unchanged(record: IdentityRecord, facts: IdentityFacts) -> bool {
    &&& facts.canonical matches Ok(written) && digest::blake3_digest(written@) == record.checksum@
    &&& still_resolved(record.driver_resolution@, facts.driver)
    &&& still_resolved(record.f951_resolution@, facts.f951)
    &&& still_resolved(record.assembler_resolution@, facts.assembler)
    &&& record.tools@.len() <= facts.tools@.len()
    &&& forall|at: int|
        0 <= at < record.tools@.len() ==> still_witnessed(
            #[trigger] record.tools@[at],
            facts.tools@[at],
        )
    &&& record.specs_absent@.len() <= facts.specs_absent@.len()
    &&& forall|at: int|
        0 <= at < record.specs_absent@.len() ==> #[trigger] facts.specs_absent@[at] == Ok::<
            bool,
            String,
        >(false)
}

/// A record that is as records are: bounded, and with a witness of every file that it names.
pub open spec fn complete(record: IdentityRecord) -> bool {
    &&& record.schema == IDENTITY_SCHEMA
    &&& bounded(record)
    &&& witnessed(record.tools@, record.driver@)
    &&& witnessed(record.tools@, record.f951@)
    &&& witnessed(record.tools@, record.assembler@)
    &&& record.specs_path is Some ==> witnessed(record.tools@, record.specs_path->0@)
}

/// An identity stays valid as long as nothing changes. One that was recorded before rests on
/// trusted file systems and on a complete search for its specs.
pub proof fn law_unchanged_identities_stay_valid(
    identity: ValidatedCompilerIdentity,
    facts: IdentityFacts,
)
    requires
        complete(identity.record),
        unchanged(identity.record, facts),
        identity.reused ==> trust::trustworthy(facts.devices@, facts.trusted@)
            && identity.record.specs_resolution_complete,
    ensures
        record_doubt(identity.record, facts, identity.reused) is None,
{
    let record = identity.record;
    let trusted = trust::trustworthy(facts.devices@, facts.trusted@);
    lemma_still_resolved(record.driver_resolution@, facts.driver);
    lemma_still_resolved(record.f951_resolution@, facts.f951);
    lemma_still_resolved(record.assembler_resolution@, facts.assembler);
    lemma_still_witnessed(record.tools@, facts.tools@, !trusted, 0);
    lemma_still_absent(
        record.specs_absent@.len(),
        facts.specs_absent@,
        IdentityError::SpecsAppeared,
        0,
    );
}

proof fn lemma_still_absent(
    count: nat,
    presence: Seq<Result<bool, String>>,
    appeared: Doubt,
    index: int,
)
    requires
        0 <= index <= count <= presence.len(),
        forall|at: int| 0 <= at < count ==> #[trigger] presence[at] == Ok::<bool, String>(false),
    ensures
        absence_doubt(count, presence, appeared, index) is None,
    decreases count - index,
{
    if index < count {
        assert(presence[index] == Ok::<bool, String>(false));
        lemma_still_absent(count, presence, appeared, index + 1);
    }
}

proof fn lemma_still_resolved(resolution: Resolution, facts: ResolutionFacts)
    requires
        still_resolved(resolution, facts),
        resolution.earlier_absent.len() <= MAX_WITNESS_NODES,
    ensures
        resolution_doubt(resolution, facts) is None,
{
    lemma_still_absent(
        resolution.earlier_absent.len(),
        facts.earlier@,
        IdentityError::ToolAppeared,
        0,
    );
}

proof fn lemma_same_nodes(tool: ToolWitness, facts: ToolFacts, index: int)
    requires
        still_witnessed(tool, facts),
        0 <= index <= tool.nodes@.len(),
    ensures
        nodes_doubt(node_views(tool.nodes@), facts.nodes@, index) is None,
    decreases tool.nodes@.len() - index,
{
    if index < tool.nodes@.len() {
        assert(facts.nodes@[index] is Ok);
        assert(node_views(tool.nodes@)[index] == tool.nodes@[index]@);
        lemma_same_nodes(tool, facts, index + 1);
    }
}

proof fn lemma_still_witnessed(
    tools: Seq<ToolWitness>,
    facts: Seq<ToolFacts>,
    verify_content: bool,
    index: int,
)
    requires
        0 <= index <= tools.len() <= facts.len(),
        forall|at: int|
            0 <= at < tools.len() ==> still_witnessed(#[trigger] tools[at], facts[at])
                && tools[at].nodes@.len() <= MAX_WITNESS_NODES,
    ensures
        tools_doubt(tools, facts, verify_content, index) is None,
    decreases tools.len() - index,
{
    if index < tools.len() {
        assert(still_witnessed(tools[index], facts[index]));
        lemma_same_nodes(tools[index], facts[index], 0);
        lemma_still_witnessed(tools, facts, verify_content, index + 1);
    }
}

proof fn lemma_tools_current(
    tools: Seq<ToolWitness>,
    facts: Seq<ToolFacts>,
    verify_content: bool,
    index: int,
    at: int,
)
    requires
        0 <= index <= at < tools.len(),
        tools_doubt(tools, facts, verify_content, index) is None,
    ensures
        at < facts.len(),
        tool_doubt(tools[at], facts[at], verify_content) is None,
    decreases at - index,
{
    if index < at {
        lemma_tools_current(tools, facts, verify_content, index + 1, at);
    }
}

/// A record of an identity is read up to eight megabytes, and holds no more than four tools and 256
/// witnesses of each sort.
pub proof fn law_limits_of_an_identity(record: IdentityRecord, facts: IdentityFacts, strict: bool)
    ensures
        MAX_RECORD_SIZE == 8 * 1024 * 1024,
        record_doubt(record, facts, strict) is None ==> {
            &&& record.schema == 2
            &&& record.tools@.len() <= 4
            &&& record.driver_resolution.earlier_absent@.len() <= 256
            &&& record.f951_resolution.earlier_absent@.len() <= 256
            &&& record.assembler_resolution.earlier_absent@.len() <= 256
            &&& record.specs_absent@.len() <= 256
            &&& forall|at: int|
                0 <= at < record.tools@.len() ==> (#[trigger] record.tools@[at]).nodes@.len() <= 256
        },
{
}

proof fn lemma_absent(
    count: nat,
    presence: Seq<Result<bool, String>>,
    appeared: Doubt,
    index: int,
)
    requires
        0 <= index,
        absence_doubt(count, presence, appeared, index) is None,
    ensures
        index < count ==> count <= presence.len(),
        forall|at: int| index <= at < count ==> #[trigger] presence[at] == Ok::<bool, String>(false),
    decreases count - index,
{
    if index < count {
        lemma_absent(count, presence, appeared, index + 1);
        assert(presence[index] == Ok::<bool, String>(false));
    }
}

proof fn lemma_nodes_unchanged(tool: ToolWitness, facts: ToolFacts, index: int)
    requires
        0 <= index,
        nodes_doubt(node_views(tool.nodes@), facts.nodes@, index) is None,
    ensures
        index < tool.nodes@.len() ==> tool.nodes@.len() <= facts.nodes@.len(),
        forall|at: int|
            index <= at < tool.nodes@.len() ==> (#[trigger] facts.nodes@[at] matches Ok(found)
                && found.metadata == tool.nodes@[at]@.metadata && bstr::opt_view(found.target)
                == tool.nodes@[at]@.symlink_target),
    decreases tool.nodes@.len() - index,
{
    if index < tool.nodes@.len() {
        assert(node_views(tool.nodes@)[index] == tool.nodes@[index]@);
        lemma_nodes_unchanged(tool, facts, index + 1);
    }
}

/// An identity is used only where nothing changed: no earlier candidate appeared, the tools that were
/// found are still there, every one of them has its path, its metadata and all that its path leads
/// through, and its contents too where its file system is not trusted; and no specs file appeared.
/// A record that was read back is used on trusted file systems only, and where the search for its
/// specs was complete.
pub proof fn law_used_identities_are_unchanged(
    record: IdentityRecord,
    facts: IdentityFacts,
    strict: bool,
    at: int,
)
    requires
        record_doubt(record, facts, strict) is None,
        0 <= at < record.tools@.len(),
    ensures
        facts.canonical matches Ok(written) && digest::blake3_digest(written@) == record.checksum@,
        still_resolved(record.driver_resolution@, facts.driver),
        still_resolved(record.f951_resolution@, facts.f951),
        still_resolved(record.assembler_resolution@, facts.assembler),
        record.tools@.len() <= facts.tools@.len(),
        ({
            let tool = record.tools@[at];
            let found = facts.tools@[at];
            &&& !trust::trustworthy(facts.devices@, facts.trusted@) ==> still_witnessed(tool, found)
            &&& found.canonical matches Ok(path) && path@ == tool.canonical_path@
            &&& found.metadata matches Ok(seen) && seen.is_file && seen.metadata == tool.metadata
            &&& 0 < tool.nodes@.len() <= found.nodes@.len()
            &&& forall|node: int|
                0 <= node < tool.nodes@.len() ==> (#[trigger] found.nodes@[node] matches Ok(seen)
                    && seen.metadata == tool.nodes@[node]@.metadata && bstr::opt_view(seen.target)
                    == tool.nodes@[node]@.symlink_target)
        }),
        forall|place: int|
            0 <= place < record.specs_absent@.len() ==> #[trigger] facts.specs_absent@[place]
                == Ok::<bool, String>(false),
        witnessed(record.tools@, record.driver@),
        witnessed(record.tools@, record.f951@),
        witnessed(record.tools@, record.assembler@),
        record.specs_path is Some ==> witnessed(record.tools@, record.specs_path->0@),
        strict ==> trust::trustworthy(facts.devices@, facts.trusted@)
            && record.specs_resolution_complete,
{
    let trusted = trust::trustworthy(facts.devices@, facts.trusted@);
    lemma_tools_current(record.tools@, facts.tools@, !trusted, 0, at);
    lemma_tools_current(record.tools@, facts.tools@, !trusted, 0, record.tools@.len() - 1);
    lemma_nodes_unchanged(record.tools@[at], facts.tools@[at], 0);
    lemma_absent(
        record.driver_resolution@.earlier_absent.len(),
        facts.driver.earlier@,
        IdentityError::ToolAppeared,
        0,
    );
    lemma_absent(
        record.f951_resolution@.earlier_absent.len(),
        facts.f951.earlier@,
        IdentityError::ToolAppeared,
        0,
    );
    lemma_absent(
        record.assembler_resolution@.earlier_absent.len(),
        facts.assembler.earlier@,
        IdentityError::ToolAppeared,
        0,
    );
    lemma_absent(
        record.specs_absent@.len(),
        facts.specs_absent@,
        IdentityError::SpecsAppeared,
        0,
    );
}

/// A record is looked for where records may be used. What is found is used; otherwise the compiler is
/// asked, once more after the lock was taken, and its answer is recorded where the lock was taken.
pub proof fn law_records_are_looked_for(mode: IdentityMode, read_only: bool)
    ensures
        mode is Auto ==> lookup_next(mode, read_only, LookupEvent::Begun) is Load,
        lookup_next(mode, read_only, LookupEvent::Loaded(true)) is Reuse,
        lookup_next(mode, read_only, LookupEvent::LoadedLocked(true)) is Reuse,
        !read_only ==> lookup_next(mode, read_only, LookupEvent::Loaded(false)) is Lock,
        !read_only && mode is Strict ==> lookup_next(mode, read_only, LookupEvent::Begun) is Lock,
        mode is Auto ==> lookup_next(mode, read_only, LookupEvent::Locked(true)) is LoadLocked,
        mode is Strict ==> lookup_next(mode, read_only, LookupEvent::Locked(true)) == (
        LookupStep::Fingerprint { publish: true }),
        lookup_next(mode, read_only, LookupEvent::LoadedLocked(false)) == (
        LookupStep::Fingerprint { publish: true }),
        lookup_next(mode, read_only, LookupEvent::Locked(false)) == (
        LookupStep::Fingerprint { publish: false }),
{
}

} // verus!
