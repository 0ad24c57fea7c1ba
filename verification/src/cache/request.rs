//! The identity of a compiler request, known before the compiler is run.
use vstd::prelude::*;

use crate::bstr;
use crate::digest;
use crate::framing;
use crate::framing::Frame;
use crate::hex;

verus! {

/// The version of the format that a request key hashes.
pub const DIRECT_REQUEST_KEY_VERSION: u8 = 1;

/// A name and a value.
#[derive(Clone, Debug, PartialEq, Eq)]
pub struct Pair<B = Vec<u8>> {
    pub name: B,
    pub value: B,
}

impl View for Pair {
    type V = Pair<Seq<u8>>;

    open spec fn view(&self) -> Pair<Seq<u8>> {
        Pair { name: self.name@, value: self.value@ }
    }
}

/// The contents of a list of pairs.
pub open spec fn pair_views(list: Seq<Pair>) -> Seq<Pair<Seq<u8>>> {
    list.map_values(|pair: Pair| pair@)
}

/// What identifies a request.
#[verifier::ext_equal]
pub struct Request {
    pub compiler: Seq<u8>,
    pub cwd: Seq<u8>,
    pub arguments: Seq<Seq<u8>>,
    pub environment: Seq<Pair<Seq<u8>>>,
    pub source_path: Seq<u8>,
    pub source_digest: Seq<u8>,
    pub semantics: Seq<Pair<Seq<u8>>>,
}

/// The frames of a list of byte strings.
pub open spec fn list_frames(items: Seq<Seq<u8>>, tag: u8) -> Seq<Frame<Seq<u8>>> {
    items.map_values(|bytes: Seq<u8>| Frame { tag, bytes })
}

/// The frames of a list of pairs.
pub open spec fn pair_frames(pairs: Seq<Pair<Seq<u8>>>, name_tag: u8, value_tag: u8) -> Seq<
    Frame<Seq<u8>>,
> {
    Seq::new(
        2 * pairs.len(),
        |at: int|
            if at % 2 == 0 {
                Frame { tag: name_tag, bytes: pairs[at / 2].name }
            } else {
                Frame { tag: value_tag, bytes: pairs[at / 2].value }
            },
    )
}

/// The frames of a request, in the order in which they are hashed.
pub open spec fn request_frames(request: Request) -> Seq<Frame<Seq<u8>>> {
    seq![
        Frame { tag: 1u8, bytes: request.compiler },
        Frame { tag: 2u8, bytes: request.cwd },
    ] + list_frames(request.arguments, 3) + pair_frames(request.environment, 4, 5) + seq![
        Frame { tag: 6u8, bytes: request.source_path },
        Frame { tag: 7u8, bytes: request.source_digest },
    ] + pair_frames(request.semantics, 8, 9)
}

/// What is hashed for a request: the domain, the format version and the frames.
pub open spec fn request_preimage(request: Request) -> Seq<u8> {
    bstr::utf8("fcache.direct-request-key\0"@).push(DIRECT_REQUEST_KEY_VERSION)
        + framing::tagged_all(request_frames(request))
}

struct FrameWriter {
    bytes: Vec<u8>,
    frames: Ghost<Seq<Frame<Seq<u8>>>>,
    lead: Ghost<Seq<u8>>,
}

impl FrameWriter {
    spec fn holds(self) -> bool {
        self.bytes@ == self.lead@ + framing::tagged_all(self.frames@)
    }

    fn write(&mut self, tag: u8, bytes: &[u8])
        requires
            old(self).holds(),
        ensures
            final(self).holds(),
            final(self).lead == old(self).lead,
            final(self).frames@ == old(self).frames@.push(Frame { tag, bytes: bytes@ }),
    {
        let ghost before = self.frames@;
        let ghost after = before.push(Frame { tag, bytes: bytes@ });
        framing::push_tagged(&mut self.bytes, tag, bytes);
        proof {
            assert(after.drop_last() =~= before);
            self.frames@ = after;
            assert(self.bytes@ =~= self.lead@ + framing::tagged_all(after));
        }
    }

    fn write_list(&mut self, items: &Vec<Vec<u8>>, tag: u8)
        requires
            old(self).holds(),
        ensures
            final(self).holds(),
            final(self).lead == old(self).lead,
            final(self).frames@ == old(self).frames@ + list_frames(bstr::views(items@), tag),
    {
        let ghost start = self.frames@;
        let ghost all = list_frames(bstr::views(items@), tag);
        let mut index: usize = 0;
        while index < items.len()
            invariant
                index <= items.len(),
                all == list_frames(bstr::views(items@), tag),
                self.holds(),
                self.lead == old(self).lead,
                self.frames@ =~= start + all.take(index as int),
            decreases items.len() - index,
        {
            self.write(tag, items[index].as_slice());
            index += 1;
        }
        assert(all.take(index as int) =~= all);
    }

    fn write_pairs(&mut self, pairs: &Vec<Pair>, name_tag: u8, value_tag: u8)
        requires
            old(self).holds(),
        ensures
            final(self).holds(),
            final(self).lead == old(self).lead,
            final(self).frames@ == old(self).frames@ + pair_frames(
                pair_views(pairs@),
                name_tag,
                value_tag,
            ),
    {
        let ghost start = self.frames@;
        let ghost all = pair_frames(pair_views(pairs@), name_tag, value_tag);
        let mut index: usize = 0;
        while index < pairs.len()
            invariant
                index <= pairs.len(),
                all == pair_frames(pair_views(pairs@), name_tag, value_tag),
                self.holds(),
                self.lead == old(self).lead,
                self.frames@ =~= start + all.take(2 * index),
            decreases pairs.len() - index,
        {
            let ghost before = self.frames@;
            self.write(name_tag, pairs[index].name.as_slice());
            self.write(value_tag, pairs[index].value.as_slice());
            proof {
                assert(all[2 * index] == (Frame {
                    tag: name_tag,
                    bytes: pairs@[index as int].name@,
                })) by {
                    assert((2 * index) % 2 == 0 && (2 * index) / 2 == index);
                }
                assert(all[2 * index + 1] == (Frame {
                    tag: value_tag,
                    bytes: pairs@[index as int].value@,
                })) by {
                    assert((2 * index + 1) % 2 == 1 && (2 * index + 1) / 2 == index);
                }
                assert(self.frames@ =~= start + all.take(2 * index + 2));
            }
            index += 1;
        }
        assert(all.take(2 * index) =~= all);
    }
}

/// A request identity available before compiler fingerprinting or dependency probes.
#[derive(Clone, Copy, Debug, PartialEq, Eq, PartialOrd, Ord, Hash)]
pub struct DirectRequestKey {
    pub bytes: [u8; 32],
}

impl View for DirectRequestKey {
    type V = Seq<u8>;

    open spec fn view(&self) -> Seq<u8> {
        self.bytes@
    }
}

impl DirectRequestKey {
    /// The key with the given bytes.
    pub fn from_bytes(bytes: [u8; 32]) -> (key: Self)
        ensures
            key@ == bytes@,
    {
        DirectRequestKey { bytes }
    }

    /// The bytes of the key.
    pub fn as_bytes(&self) -> (bytes: &[u8; 32])
        ensures
            bytes@ == self@,
    {
        &self.bytes
    }

    /// The key in lower-case hexadecimal.
    pub fn to_hex(&self) -> (text: String)
        ensures
            text@ == hex::hex_text(self@),
    {
        hex::encode(self.bytes.as_slice())
    }

    /// Two keys are equal.
    pub fn same(&self, other: &DirectRequestKey) -> (equal: bool)
        ensures
            equal == (self@ == other@),
    {
        digest::same(&self.bytes, &other.bytes)
    }

    /// Hashes a request. Arguments, environment and semantics keep their order.
    pub fn compute(
        compiler: &[u8],
        cwd: &[u8],
        arguments: &Vec<Vec<u8>>,
        environment: &Vec<Pair>,
        source_path: &[u8],
        source_digest: &[u8; 32],
        semantics: &Vec<Pair>,
    ) -> (key: Self)
        ensures
            key@ == digest::blake3_digest(
                request_preimage(
                    (Request {
                        compiler: compiler@,
                        cwd: cwd@,
                        arguments: bstr::views(arguments@),
                        environment: pair_views(environment@),
                        source_path: source_path@,
                        source_digest: source_digest@,
                        semantics: pair_views(semantics@),
                    }),
                ),
            ),
    {
        let ghost request = Request {
            compiler: compiler@,
            cwd: cwd@,
            arguments: bstr::views(arguments@),
            environment: pair_views(environment@),
            source_path: source_path@,
            source_digest: source_digest@,
            semantics: pair_views(semantics@),
        };
        let mut bytes = bstr::from_str("fcache.direct-request-key\0");
        bytes.push(DIRECT_REQUEST_KEY_VERSION);
        let ghost lead_bytes = bytes@;
        let mut writer = FrameWriter {
            bytes,
            frames: Ghost(Seq::empty()),
            lead: Ghost(lead_bytes),
        };
        assert(writer.bytes@ =~= writer.lead@ + framing::tagged_all(Seq::empty()));
        writer.write(1, compiler);
        writer.write(2, cwd);
        writer.write_list(arguments, 3);
        writer.write_pairs(environment, 4, 5);
        writer.write(6, source_path);
        writer.write(7, source_digest.as_slice());
        writer.write_pairs(semantics, 8, 9);
        assert(writer.frames@ =~= request_frames(request));
        DirectRequestKey { bytes: digest::hash(writer.bytes.as_slice()) }
    }
}

/// Every part of a request fits its frame. Every byte string in memory does.
pub open spec fn request_fits(request: Request) -> bool {
    framing::frames_fit(request_frames(request))
}

proof fn lemma_pairs_from_frames(
    left: Seq<Pair<Seq<u8>>>,
    right: Seq<Pair<Seq<u8>>>,
    name_tag: u8,
    value_tag: u8,
)
    requires
        pair_frames(left, name_tag, value_tag) == pair_frames(right, name_tag, value_tag),
    ensures
        left == right,
{
    let left_frames = pair_frames(left, name_tag, value_tag);
    let right_frames = pair_frames(right, name_tag, value_tag);
    assert(left_frames.len() == 2 * left.len());
    assert(right_frames.len() == 2 * right.len());
    assert forall|at: int| 0 <= at < left.len() implies left[at] == right[at] by {
        assert((2 * at) % 2 == 0 && (2 * at) / 2 == at);
        assert((2 * at + 1) % 2 == 1 && (2 * at + 1) / 2 == at);
        assert(left_frames[2 * at].bytes == left[at].name);
        assert(right_frames[2 * at].bytes == right[at].name);
        assert(left_frames[2 * at + 1].bytes == left[at].value);
        assert(right_frames[2 * at + 1].bytes == right[at].value);
    }
    assert(left =~= right);
}

/// The tag of the frame at `at` of a request, by where the frame stands.
proof fn lemma_frame_tags(request: Request)
    ensures
        ({
            let frames = request_frames(request);
            let args = request.arguments.len() as int;
            let pairs = 2 * request.environment.len() as int;
            &&& frames.len() == 4 + args + pairs + 2 * request.semantics.len()
            &&& frames[0].bytes == request.compiler
            &&& frames[1].bytes == request.cwd
            &&& forall|at: int|
                2 <= at < 2 + args ==> #[trigger] frames[at] == (Frame {
                    tag: 3u8,
                    bytes: request.arguments[at - 2],
                })
            &&& forall|at: int|
                2 + args <= at < 2 + args + pairs ==> (#[trigger] frames[at]).tag == 4
                    || frames[at].tag == 5
            &&& frames[2 + args + pairs] == (Frame { tag: 6u8, bytes: request.source_path })
            &&& frames[3 + args + pairs] == (Frame { tag: 7u8, bytes: request.source_digest })
            &&& frames.subrange(2 + args, 2 + args + pairs) =~= pair_frames(
                request.environment,
                4,
                5,
            )
            &&& frames.skip(4 + args + pairs) =~= pair_frames(request.semantics, 8, 9)
        }),
{
}

/// Different requests, in any part or in the order of arguments, environment or semantics, are
/// hashed as different bytes.
pub proof fn law_requests_never_collide(left: Request, right: Request)
    requires
        request_fits(left),
        request_fits(right),
        request_preimage(left) == request_preimage(right),
    ensures
        left == right,
{
    let lead = bstr::utf8("fcache.direct-request-key\0"@).push(DIRECT_REQUEST_KEY_VERSION);
    assert(request_preimage(left).skip(lead.len() as int) =~= framing::tagged_all(
        request_frames(left),
    ));
    assert(request_preimage(right).skip(lead.len() as int) =~= framing::tagged_all(
        request_frames(right),
    ));
    framing::law_tagged_all_injective(request_frames(left), request_frames(right));
    let frames = request_frames(left);
    lemma_frame_tags(left);
    lemma_frame_tags(right);
    let left_args = left.arguments.len() as int;
    let right_args = right.arguments.len() as int;
    if left_args < right_args {
        assert(frames[2 + left_args].tag == 3);
        assert(frames[2 + left_args].tag != 3);
    }
    if right_args < left_args {
        assert(frames[2 + right_args].tag == 3);
        assert(frames[2 + right_args].tag != 3);
    }
    assert forall|at: int| 0 <= at < left_args implies left.arguments[at] == right.arguments[at] by {
        assert(frames[at + 2].bytes == left.arguments[at]);
        assert(frames[at + 2].bytes == right.arguments[at]);
    }
    assert(left.arguments =~= right.arguments);
    let left_pairs = 2 * left.environment.len() as int;
    let right_pairs = 2 * right.environment.len() as int;
    if left_pairs < right_pairs {
        assert(frames[2 + left_args + left_pairs].tag == 6);
    }
    if right_pairs < left_pairs {
        assert(frames[2 + left_args + right_pairs].tag == 6);
    }
    lemma_pairs_from_frames(left.environment, right.environment, 4, 5);
    lemma_pairs_from_frames(left.semantics, right.semantics, 8, 9);
    assert(left =~= right);
}

} // verus!
