//! Which results and which content leave the cache.
use vstd::prelude::*;

use crate::bstr;
use crate::cache::manifest;
use crate::cache::manifest::{BlobRef, Manifest, ManifestView};
use crate::cache::reasons;
use crate::cache::snapshot::FileTimestamp;
use crate::cache::store;
use crate::cache::store::{CacheError, CacheStore, ExpectedDirectory, Fault};
use crate::upath;

verus! {

/// One moment is later than another.
pub open spec fn later(left: FileTimestamp, right: FileTimestamp) -> bool {
    left.seconds > right.seconds || (left.seconds == right.seconds && left.nanoseconds
        > right.nanoseconds)
}

/// One moment is later than another.
pub fn is_later(left: FileTimestamp, right: FileTimestamp) -> (yes: bool)
    ensures
        yes == later(left, right),
{
    left.seconds > right.seconds || (left.seconds == right.seconds && left.nanoseconds
        > right.nanoseconds)
}

/// The order with one more entry, which goes behind those that are not older.
pub open spec fn placed(order: Seq<int>, times: Seq<FileTimestamp>, entry: int) -> Seq<int>
    decreases order.len(),
{
    if order.len() == 0 || !later(times[entry], times[order.last()]) {
        order.push(entry)
    } else {
        placed(order.drop_last(), times, entry).push(order.last())
    }
}

/// The first `count` entries, the newest first; entries of one age keep their order.
pub open spec fn by_age(times: Seq<FileTimestamp>, count: int) -> Seq<int>
    decreases count,
{
    if count <= 0 {
        Seq::empty()
    } else {
        placed(by_age(times, count - 1), times, count - 1)
    }
}

spec fn as_ints(order: Seq<usize>) -> Seq<int> {
    order.map_values(|entry: usize| entry as int)
}

proof fn lemma_placed_at(order: Seq<int>, times: Seq<FileTimestamp>, entry: int, at: int)
    requires
        0 <= at <= order.len(),
        forall|place: int|
            at <= place < order.len() ==> later(times[entry], times[#[trigger] order[place]]),
        at > 0 ==> !later(times[entry], times[order[at - 1]]),
    ensures
        placed(order, times, entry) == order.insert(at, entry),
    decreases order.len(),
{
    if at == order.len() {
        assert(order.insert(at, entry) =~= order.push(entry));
    } else {
        assert(order.last() == order[order.len() - 1]);
        lemma_placed_at(order.drop_last(), times, entry, at);
        assert(order.drop_last().insert(at, entry).push(order.last()) =~= order.insert(at, entry));
    }
}

/// The entries, the newest first; entries of one age keep their order.
pub fn newest_first(times: &Vec<FileTimestamp>) -> (order: Vec<usize>)
    ensures
        order@.map_values(|entry: usize| entry as int) == by_age(times@, times@.len() as int),
        order@.len() == times@.len(),
        forall|at: int| 0 <= at < order@.len() ==> #[trigger] order@[at] < times@.len(),
{
    let mut order: Vec<usize> = Vec::new();
    let mut count: usize = 0;
    assert(as_ints(order@) =~= by_age(times@, 0));
    while count < times.len()
        invariant
            count <= times@.len(),
            order@.len() == count,
            forall|place: int| 0 <= place < order@.len() ==> #[trigger] order@[place] < count,
            as_ints(order@) == by_age(times@, count as int),
        decreases times@.len() - count,
    {
        let mut at: usize = order.len();
        while at > 0 && is_later(times[count], times[order[at - 1]])
            invariant
                count < times@.len(),
                at <= order@.len(),
                forall|place: int| 0 <= place < order@.len() ==> #[trigger] order@[place] < count,
                forall|place: int|
                    at <= place < order@.len() ==> later(
                        times@[count as int],
                        times@[#[trigger] as_ints(order@)[place]],
                    ),
            decreases at,
        {
            at -= 1;
            assert(as_ints(order@)[at as int] == order@[at as int]);
        }
        proof {
            if at > 0 {
                assert(as_ints(order@)[at - 1] == order@[at - 1]);
            }
            lemma_placed_at(as_ints(order@), times@, count as int, at as int);
        }
        let ghost before = order@;
        order.insert(at, count);
        proof {
            assert(as_ints(order@) =~= as_ints(before).insert(at as int, count as int));
            assert forall|place: int| 0 <= place < order@.len() implies #[trigger] order@[place]
                < count + 1 by {
                if place < at {
                    assert(order@[place] == before[place]);
                } else if place > at {
                    assert(order@[place] == before[place - 1]);
                }
            }
        }
        count += 1;
    }
    assert(order@.map_values(|entry: usize| entry as int) =~= as_ints(order@));
    order
}

/// The order has every entry once, and none stands behind an older one.
pub proof fn law_newest_entries_come_first(times: Seq<FileTimestamp>, count: int)
    requires
        0 <= count <= times.len(),
    ensures
        by_age(times, count).len() == count,
        forall|entry: int|
            0 <= entry < count ==> #[trigger] by_age(times, count).contains(entry),
        forall|left: int, right: int|
            0 <= left < right < count ==> !later(
                times[#[trigger] by_age(times, count)[right]],
                times[#[trigger] by_age(times, count)[left]],
            ),
    decreases count,
{
    if count > 0 {
        law_newest_entries_come_first(times, count - 1);
        lemma_placed_keeps(by_age(times, count - 1), times, count - 1);
        assert forall|entry: int| 0 <= entry < count implies #[trigger] by_age(
            times,
            count,
        ).contains(entry) by {
            if entry < count - 1 {
                assert(by_age(times, count - 1).contains(entry));
            }
        }
    }
}

spec fn descending(order: Seq<int>, times: Seq<FileTimestamp>) -> bool {
    forall|left: int, right: int|
        0 <= left < right < order.len() ==> !later(
            times[#[trigger] order[right]],
            times[#[trigger] order[left]],
        )
}

proof fn lemma_placed_keeps(order: Seq<int>, times: Seq<FileTimestamp>, entry: int)
    requires
        descending(order, times),
    ensures
        placed(order, times, entry).len() == order.len() + 1,
        placed(order, times, entry).contains(entry),
        forall|other: int|
            order.contains(other) ==> #[trigger] placed(order, times, entry).contains(other),
        forall|at: int|
            0 <= at <= order.len() ==> #[trigger] placed(order, times, entry)[at] == entry
                || order.contains(placed(order, times, entry)[at]),
        descending(placed(order, times, entry), times),
    decreases order.len(),
{
    let after = placed(order, times, entry);
    if order.len() == 0 || !later(times[entry], times[order.last()]) {
        assert(after[order.len() as int] == entry);
        assert forall|other: int| order.contains(other) implies #[trigger] after.contains(other) by {
            let at = choose|at: int| 0 <= at < order.len() && order[at] == other;
            assert(after[at] == other);
        }
        assert forall|at: int| 0 <= at <= order.len() implies #[trigger] after[at] == entry
            || order.contains(after[at]) by {
            if at < order.len() {
                assert(order[at] == after[at]);
            }
        }
        assert forall|left: int, right: int| 0 <= left < right < after.len() implies !later(
            times[#[trigger] after[right]],
            times[#[trigger] after[left]],
        ) by {
            assert(after[left] == order[left]);
            if right == order.len() {
                assert(order.last() == order[order.len() - 1]);
                if left < order.len() - 1 {
                    assert(!later(times[order[order.len() - 1]], times[order[left]]));
                }
            } else {
                assert(after[right] == order[right]);
            }
        }
    } else {
        let front = order.drop_last();
        let inner = placed(front, times, entry);
        assert forall|left: int, right: int| 0 <= left < right < front.len() implies !later(
            times[#[trigger] front[right]],
            times[#[trigger] front[left]],
        ) by {
            assert(front[left] == order[left] && front[right] == order[right]);
        }
        lemma_placed_keeps(front, times, entry);
        let place = choose|place: int| 0 <= place < inner.len() && inner[place] == entry;
        assert(after[place] == entry);
        assert forall|other: int| order.contains(other) implies #[trigger] after.contains(other) by {
            let at = choose|at: int| 0 <= at < order.len() && order[at] == other;
            if at < front.len() {
                assert(front[at] == other);
                assert(front.contains(other));
                assert(inner.contains(other));
                let there = choose|there: int| 0 <= there < inner.len() && inner[there] == other;
                assert(after[there] == other);
            } else {
                assert(after[inner.len() as int] == other);
            }
        }
        assert forall|at: int| 0 <= at <= order.len() implies #[trigger] after[at] == entry
            || order.contains(after[at]) by {
            if at < inner.len() {
                assert(inner[at] == after[at]);
                if inner[at] != entry {
                    assert(front.contains(inner[at]));
                    let there = choose|there: int|
                        0 <= there < front.len() && front[there] == inner[at];
                    assert(order[there] == inner[at]);
                }
            } else {
                assert(order[order.len() - 1] == after[at]);
            }
        }
        assert forall|left: int, right: int| 0 <= left < right < after.len() implies !later(
            times[#[trigger] after[right]],
            times[#[trigger] after[left]],
        ) by {
            assert(after[left] == inner[left]);
            if right == inner.len() {
                assert(after[right] == order.last());
                assert(inner[left] == entry || front.contains(inner[left]));
                if inner[left] != entry {
                    let there = choose|there: int|
                        0 <= there < front.len() && front[there] == inner[left];
                    assert(order[there] == inner[left]);
                    assert(order[order.len() - 1] == order.last());
                }
            } else {
                assert(after[right] == inner[right]);
            }
        }
    }
}

/// A result as it was found when the cache is trimmed: the length of its file, and what its text
/// says, or why it is not the text of a manifest.
#[derive(Debug)]
pub struct StoredResult {
    pub length: usize,
    pub parsed: Result<Manifest, String>,
}

impl StoredResult {
    /// The manifest of the result, where its file holds one that is valid.
    pub open spec fn manifest(self) -> Option<ManifestView> {
        match manifest::read_of(self.length as int, self.parsed) {
            Ok(found) => Some(found),
            Err(_) => None,
        }
    }

    fn usable(&self) -> (found: Option<&Manifest>)
        ensures
            match found {
                Some(manifest) => self.manifest() == Some(manifest@),
                None => self.manifest() is None,
            },
    {
        match (manifest::check_json_size(self.length), &self.parsed) {
            (Ok(_), Ok(parsed)) => match parsed.validate() {
                Ok(_) => Some(parsed),
                Err(_) => None,
            },
            _ => None,
        }
    }
}

/// What results take up: the bytes, and the digests of the content that was counted.
#[verifier::ext_equal]
pub struct Usage {
    pub bytes: u64,
    pub digests: Seq<Seq<char>>,
}

/// The usage with content that may have been counted before.
pub open spec fn with_blob(usage: Usage, blob: BlobRef<Seq<char>>) -> Usage {
    if usage.digests.contains(blob.digest) {
        usage
    } else {
        Usage {
            bytes: reasons::plus(usage.bytes, blob.size),
            digests: usage.digests.push(blob.digest),
        }
    }
}

/// The usage with the first `count` blobs.
pub open spec fn with_blobs(usage: Usage, blobs: Seq<BlobRef<Seq<char>>>, count: int) -> Usage
    decreases count,
{
    if count <= 0 {
        usage
    } else {
        with_blob(with_blobs(usage, blobs, count - 1), blobs[count - 1])
    }
}

/// How many of the results, from `index` on, fit into what is left: all up to the first that does
/// not fit, or that is no result.
pub open spec fn fitting(
    results: Seq<Result<StoredResult, String>>,
    index: int,
    used: Usage,
    limit: u64,
) -> Result<int, Fault>
    decreases results.len() - index,
{
    if index >= results.len() {
        Ok(0)
    } else {
        match results[index] {
            Err(text) => Err(CacheError::Io(text@)),
            Ok(result) => match result.manifest() {
                None => Ok(0),
                Some(manifest) => {
                    let added = with_blobs(
                        Usage { bytes: result.length as u64, digests: used.digests },
                        store::blobs_of(manifest),
                        store::blobs_of(manifest).len() as int,
                    );
                    let total = reasons::plus(used.bytes, added.bytes);
                    if total > limit {
                        Ok(0)
                    } else {
                        match fitting(
                            results,
                            index + 1,
                            Usage { bytes: total, digests: added.digests },
                            limit,
                        ) {
                            Err(fault) => Err(fault),
                            Ok(more) => Ok(more + 1),
                        }
                    }
                },
            },
        }
    }
}

/// The texts of a list.
pub open spec fn texts(list: Seq<String>) -> Seq<Seq<char>> {
    list.map_values(|text: String| text@)
}

fn holds(list: &Vec<String>, text: &String) -> (found: bool)
    ensures
        found == texts(list@).contains(text@),
{
    let mut index: usize = 0;
    while index < list.len()
        invariant
            index <= list@.len(),
            forall|at: int| 0 <= at < index ==> #[trigger] texts(list@)[at] != text@,
        decreases list@.len() - index,
    {
        assert(texts(list@)[index as int] == list@[index as int]@);
        if list[index] == *text {
            return true;
        }
        index += 1;
    }
    false
}

fn count_blob(digests: &mut Vec<String>, bytes: u64, blob: &BlobRef) -> (total: u64)
    ensures
        (Usage { bytes: total, digests: texts(final(digests)@) }) == with_blob(
            Usage { bytes, digests: texts(old(digests)@) },
            blob@,
        ),
{
    let ghost before = digests@;
    if holds(digests, &blob.digest) {
        return bytes;
    }
    digests.push(blob.digest.clone());
    assert(texts(digests@) =~= texts(before).push(blob@.digest));
    bytes.saturating_add(blob.size)
}

fn count_blobs(digests: &mut Vec<String>, start: u64, manifest: &Manifest) -> (total: u64)
    ensures
        (Usage { bytes: total, digests: texts(final(digests)@) }) == with_blobs(
            Usage { bytes: start, digests: texts(old(digests)@) },
            store::blobs_of(manifest@),
            store::blobs_of(manifest@).len() as int,
        ),
{
    let ghost all = store::blobs_of(manifest@);
    let ghost begun = Usage { bytes: start, digests: texts(digests@) };
    let mut total: u64 = start;
    let mut index: usize = 0;
    while index < manifest.artifacts.len()
        invariant
            all == store::blobs_of(manifest@),
            all.len() == manifest.artifacts@.len() + 2,
            index <= manifest.artifacts@.len(),
            (Usage { bytes: total, digests: texts(digests@) }) == with_blobs(
                begun,
                all,
                index as int,
            ),
        decreases manifest.artifacts@.len() - index,
    {
        let blob = &manifest.artifacts[index].blob;
        assert(all[index as int] == blob@) by {
            assert(manifest@.artifacts[index as int] == manifest.artifacts@[index as int]@);
        }
        total = count_blob(digests, total, blob);
        index += 1;
    }
    assert(all[index as int] == manifest@.stdout);
    assert(all[index + 1] == manifest@.stderr);
    total = count_blob(digests, total, &manifest.stdout);
    assert((Usage { bytes: total, digests: texts(digests@) }) == with_blobs(begun, all, index + 1));
    count_blob(digests, total, &manifest.stderr)
}

/// How many of the newest results fit into a number of bytes. `order` has the newest first.
/// Content that several results share is counted once.
fn results_within(results: &Vec<FoundResult>, order: &Vec<usize>, limit: u64) -> (outcome: Result<
    usize,
    CacheError,
>)
    requires
        forall|at: int| 0 <= at < order@.len() ==> #[trigger] order@[at] < results@.len(),
    ensures
        match outcome {
            Ok(keep) => fitting(
                in_order(results@, as_ints(order@)),
                0,
                Usage { bytes: 0, digests: Seq::empty() },
                limit,
            ) == Ok::<int, Fault>(keep as int),
            Err(error) => fitting(
                in_order(results@, as_ints(order@)),
                0,
                Usage { bytes: 0, digests: Seq::empty() },
                limit,
            ) == Err::<int, Fault>(error@),
        },
{
    let ghost listed = in_order(results@, as_ints(order@));
    let mut digests: Vec<String> = Vec::new();
    let mut bytes: u64 = 0;
    let mut keep: usize = 0;
    let ghost start = Usage { bytes: 0, digests: Seq::empty() };
    assert(texts(digests@) =~= Seq::empty());
    while keep < order.len()
        invariant
            forall|at: int| 0 <= at < order@.len() ==> #[trigger] order@[at] < results@.len(),
            listed == in_order(results@, as_ints(order@)),
            listed.len() == order@.len(),
            start == (Usage { bytes: 0, digests: Seq::empty() }),
            keep <= order@.len(),
            fitting(listed, 0, start, limit) == (match fitting(
                listed,
                keep as int,
                Usage { bytes, digests: texts(digests@) },
                limit,
            ) {
                Ok(more) => Ok::<int, Fault>(more + keep),
                Err(fault) => Err::<int, Fault>(fault),
            }),
        decreases order@.len() - keep,
    {
        let entry: usize = order[keep];
        assert(listed[keep as int] == results@[entry as int].result);
        match &results[entry].result {
            Err(text) => {
                return Err(CacheError::Io(text.clone()));
            },
            Ok(result) => match result.usable() {
                None => {
                    return Ok(keep);
                },
                Some(manifest) => {
                    let added = count_blobs(&mut digests, result.length as u64, manifest);
                    let total = bytes.saturating_add(added);
                    if total > limit {
                        return Ok(keep);
                    }
                    bytes = total;
                },
            },
        }
        keep += 1;
    }
    Ok(keep)
}

/// A blob of the list has the digest.
pub open spec fn mentions(list: Seq<BlobRef<Seq<char>>>, digest: Seq<char>) -> bool {
    exists|blob: int| 0 <= blob < list.len() && (#[trigger] list[blob]).digest == digest
}

/// A kept result refers to the content.
pub open spec fn refers(kept: Seq<Option<ManifestView>>, digest: Seq<char>) -> bool {
    exists|at: int|
        0 <= at < kept.len() && (#[trigger] kept[at]) is Some && mentions(
            store::blobs_of(kept[at]->0),
            digest,
        )
}

fn mark(marked: &mut Vec<String>, manifest: &Manifest)
    ensures
        forall|digest: Seq<char>| #[trigger]
            texts(final(marked)@).contains(digest) <==> texts(old(marked)@).contains(digest)
                || mentions(store::blobs_of(manifest@), digest),
{
    let ghost all = store::blobs_of(manifest@);
    let ghost start = texts(marked@);
    let list = store::blobs_to_verify(manifest);
    let ghost wanted = store::blob_views(list@);
    let mut index: usize = 0;
    while index < list.len()
        invariant
            wanted == store::blob_views(list@),
            wanted.len() == list@.len(),
            index <= list@.len(),
            forall|digest: Seq<char>| #[trigger]
                texts(marked@).contains(digest) <==> start.contains(digest) || mentions(
                    wanted.take(index as int),
                    digest,
                ),
        decreases list@.len() - index,
    {
        let ghost before = texts(marked@);
        marked.push(list[index].digest.clone());
        proof {
            let new = wanted[index as int].digest;
            let head = wanted.take(index as int);
            let more = wanted.take(index + 1);
            assert(texts(marked@) =~= before.push(new));
            assert forall|digest: Seq<char>| #[trigger]
                texts(marked@).contains(digest) <==> start.contains(digest) || mentions(
                    more,
                    digest,
                ) by {
                if texts(marked@).contains(digest) {
                    let at = choose|at: int|
                        0 <= at < texts(marked@).len() && texts(marked@)[at] == digest;
                    if at < before.len() {
                        assert(before[at] == digest);
                        assert(before.contains(digest));
                        if mentions(head, digest) {
                            let blob = choose|blob: int|
                                0 <= blob < head.len() && (#[trigger] head[blob]).digest == digest;
                            assert(more[blob].digest == digest);
                        }
                    } else {
                        assert(more[index as int].digest == digest);
                    }
                }
                if before.contains(digest) {
                    let at = choose|at: int| 0 <= at < before.len() && before[at] == digest;
                    assert(texts(marked@)[at] == digest);
                }
                if mentions(more, digest) {
                    let blob = choose|blob: int|
                        0 <= blob < more.len() && (#[trigger] more[blob]).digest == digest;
                    if blob < index {
                        assert(head[blob].digest == digest);
                        assert(before.contains(digest));
                    } else {
                        assert(texts(marked@)[before.len() as int] == digest);
                    }
                }
            }
        }
        index += 1;
    }
    proof {
        assert(wanted.take(index as int) =~= wanted);
        assert forall|digest: Seq<char>| #[trigger] mentions(wanted, digest) <==> mentions(
            all,
            digest,
        ) by {
            if mentions(all, digest) {
                let blob = choose|blob: int|
                    0 <= blob < all.len() && (#[trigger] all[blob]).digest == digest;
                store::law_distinct_blobs_cover_all(all, blob);
            }
            if mentions(wanted, digest) {
                let blob = choose|blob: int|
                    0 <= blob < wanted.len() && (#[trigger] wanted[blob]).digest == digest;
                lemma_distinct_from(all, blob);
            }
        }
    }
}

proof fn lemma_distinct_from(list: Seq<BlobRef<Seq<char>>>, at: int)
    requires
        0 <= at < store::distinct_blobs(list).len(),
    ensures
        exists|place: int|
            0 <= place < list.len() && #[trigger] list[place] == store::distinct_blobs(list)[at],
    decreases list.len(),
{
    if list.len() > 0 {
        let found = store::distinct_blobs(list.drop_last());
        if at < found.len() {
            lemma_distinct_from(list.drop_last(), at);
            let place = choose|place: int|
                0 <= place < list.drop_last().len() && #[trigger] list.drop_last()[place]
                    == found[at];
            assert(list[place] == found[at]);
        } else {
            assert(list[list.len() - 1] == list.last());
        }
    }
}

/// A result that was found, and when it was written.
#[derive(Debug)]
pub struct FoundResult {
    pub modified: FileTimestamp,
    /// What is in its file.
    pub result: Result<StoredResult, String>,
}

/// Stored content that was found: the name of its file, and when it was written.
#[derive(Clone, Debug, PartialEq, Eq)]
pub struct FoundBlob {
    pub name: Vec<u8>,
    pub modified: FileTimestamp,
}

/// A length of time, with less than a second in nanoseconds.
#[derive(Clone, Copy, Debug, PartialEq, Eq, Structural)]
pub struct Grace {
    pub seconds: u64,
    pub nanoseconds: u32,
}

/// How long content stays that nothing refers to yet, in seconds.
pub const ORPHAN_GRACE: u64 = 3600;

/// How long content stays that nothing refers to yet: an hour.
pub open spec fn one_hour() -> Grace {
    Grace { seconds: ORPHAN_GRACE, nanoseconds: 0 }
}

/// The nanoseconds of a second.
pub const NANOSECONDS: i64 = 1_000_000_000;

/// The moment that lies a length of time before another; the epoch where there is none.
pub open spec fn earlier(now: FileTimestamp, grace: Grace) -> FileTimestamp {
    let borrowed = now.nanoseconds < grace.nanoseconds;
    let seconds = now.seconds - grace.seconds - if borrowed {
        1int
    } else {
        0int
    };
    if seconds < i64::MIN {
        FileTimestamp { seconds: 0, nanoseconds: 0 }
    } else {
        FileTimestamp {
            seconds: seconds as i64,
            nanoseconds: (now.nanoseconds - grace.nanoseconds + if borrowed {
                NANOSECONDS as int
            } else {
                0int
            }) as i64,
        }
    }
}

/// The moment that lies a length of time before another; the epoch where there is none.
pub fn moment_before(now: FileTimestamp, grace: Grace) -> (moment: FileTimestamp)
    requires
        0 <= now.nanoseconds < NANOSECONDS,
        grace.nanoseconds < NANOSECONDS,
    ensures
        moment == earlier(now, grace),
{
    let borrowed = now.nanoseconds < grace.nanoseconds as i64;
    let mut seconds: i128 = now.seconds as i128 - grace.seconds as i128;
    let mut nanoseconds: i64 = now.nanoseconds - grace.nanoseconds as i64;
    if borrowed {
        seconds = seconds - 1;
        nanoseconds = nanoseconds + NANOSECONDS;
    }
    if seconds < i64::MIN as i128 {
        FileTimestamp { seconds: 0, nanoseconds: 0 }
    } else {
        FileTimestamp { seconds: seconds as i64, nanoseconds }
    }
}

/// What is known of a cache that is trimmed.
#[derive(Debug)]
pub struct TrimFacts {
    /// The directories that lead to the results, outermost first.
    pub result_areas: Vec<ExpectedDirectory>,
    /// The directories that lead to the content, outermost first.
    pub blob_areas: Vec<ExpectedDirectory>,
    pub results: Vec<FoundResult>,
    pub blobs: Vec<FoundBlob>,
    /// The moment at which it is trimmed.
    pub now: FileTimestamp,
}

/// The nanoseconds of a moment and of a length of time are less than a second.
pub open spec fn timely(facts: TrimFacts, grace: Grace) -> bool {
    0 <= facts.now.nanoseconds < NANOSECONDS && grace.nanoseconds < NANOSECONDS
}

/// What leaves the cache, by the numbers of what was found.
#[derive(Clone, Debug, PartialEq, Eq)]
pub struct Trimming {
    pub results: Vec<usize>,
    pub blobs: Vec<usize>,
}

/// What leaves the cache.
#[verifier::ext_equal]
pub struct Trimmed {
    pub results: Seq<int>,
    pub blobs: Seq<int>,
}

impl View for Trimming {
    type V = Trimmed;

    open spec fn view(&self) -> Trimmed {
        Trimmed {
            results: self.results@.map_values(|entry: usize| entry as int),
            blobs: self.blobs@.map_values(|entry: usize| entry as int),
        }
    }
}

/// When the results were written.
pub open spec fn times_of(results: Seq<FoundResult>) -> Seq<FileTimestamp> {
    results.map_values(|found: FoundResult| found.modified)
}

/// The results, the newest first; results of one age keep their order.
pub open spec fn result_order(results: Seq<FoundResult>) -> Seq<int> {
    by_age(times_of(results), results.len() as int)
}

/// The manifest of a result, if it has one.
pub open spec fn manifest_of(found: FoundResult) -> Option<ManifestView> {
    match found.result {
        Ok(result) => result.manifest(),
        Err(_) => None,
    }
}

/// The number of results that are kept where `keep` are asked for.
pub open spec fn kept_count(results: Seq<FoundResult>, keep: int) -> int {
    if keep < result_order(results).len() {
        keep
    } else {
        result_order(results).len() as int
    }
}

/// The manifests of the newest results.
pub open spec fn kept_manifests(results: Seq<FoundResult>, keep: int) -> Seq<Option<ManifestView>> {
    result_order(results).take(kept_count(results, keep)).map_values(
        |entry: int| manifest_of(results[entry]),
    )
}

/// Content with this name is referred to by a kept result.
pub open spec fn keeps(kept: Seq<Option<ManifestView>>, name: Seq<u8>) -> bool {
    exists|digest: Seq<char>| #[trigger] refers(kept, digest) && bstr::utf8(digest) == name
}

/// The content, among the first `count`, that no kept result refers to and that was not written
/// after the given moment.
pub open spec fn orphans(
    blobs: Seq<FoundBlob>,
    kept: Seq<Option<ManifestView>>,
    cutoff: FileTimestamp,
    count: int,
) -> Seq<int>
    decreases count,
{
    if count <= 0 {
        Seq::empty()
    } else if !keeps(kept, blobs[count - 1].name@) && !later(blobs[count - 1].modified, cutoff) {
        orphans(blobs, kept, cutoff, count - 1).push(count - 1)
    } else {
        orphans(blobs, kept, cutoff, count - 1)
    }
}

/// What leaves the cache where the newest results are kept, and content that nothing refers to for
/// a time after it was written.
pub open spec fn trimmed(facts: TrimFacts, keep: int, grace: Grace) -> Result<Trimmed, Fault> {
    let results = facts.results@;
    if store::area_fault(facts.result_areas@, 0) is Some {
        Err(store::area_fault(facts.result_areas@, 0)->0)
    } else if store::area_fault(facts.blob_areas@, 0) is Some {
        Err(store::area_fault(facts.blob_areas@, 0)->0)
    } else {
        Ok(
            Trimmed {
                results: result_order(results).skip(kept_count(results, keep)),
                blobs: orphans(
                    facts.blobs@,
                    kept_manifests(results, keep),
                    earlier(facts.now, grace),
                    facts.blobs@.len() as int,
                ),
            },
        )
    }
}

/// The results as they are found in their files, in the given order.
pub open spec fn in_order(results: Seq<FoundResult>, order: Seq<int>) -> Seq<
    Result<StoredResult, String>,
> {
    order.map_values(|entry: int| results[entry].result)
}

/// What leaves the cache where its results have to fit into a number of bytes.
pub open spec fn trimmed_to_size(facts: TrimFacts, limit: u64) -> Result<Trimmed, Fault> {
    match fitting(
        in_order(facts.results@, result_order(facts.results@)),
        0,
        Usage { bytes: 0, digests: Seq::empty() },
        limit,
    ) {
        Err(fault) => Err(fault),
        Ok(keep) => trimmed(facts, keep, one_hour()),
    }
}

/// The digests of the content that the results, in the given order, refer to.
fn marked_digests(results: &Vec<FoundResult>, order: &Vec<usize>, keep: usize) -> (marked: Vec<
    String,
>)
    requires
        keep <= order@.len(),
        forall|at: int| 0 <= at < order@.len() ==> #[trigger] order@[at] < results@.len(),
    ensures
        forall|digest: Seq<char>| #[trigger]
            texts(marked@).contains(digest) <==> refers(
                as_ints(order@).take(keep as int).map_values(
                    |entry: int| manifest_of(results@[entry]),
                ),
                digest,
            ),
{
    let ghost kept = as_ints(order@).take(keep as int).map_values(
        |entry: int| manifest_of(results@[entry]),
    );
    let mut marked: Vec<String> = Vec::new();
    let mut index: usize = 0;
    assert(kept.take(0) =~= Seq::empty());
    while index < keep
        invariant
            keep <= order@.len(),
            forall|at: int| 0 <= at < order@.len() ==> #[trigger] order@[at] < results@.len(),
            kept == as_ints(order@).take(keep as int).map_values(
                |entry: int| manifest_of(results@[entry]),
            ),
            kept.len() == keep,
            index <= keep,
            forall|digest: Seq<char>| #[trigger]
                texts(marked@).contains(digest) <==> refers(kept.take(index as int), digest),
        decreases keep - index,
    {
        let ghost before = texts(marked@);
        let ghost head = kept.take(index as int);
        let ghost more = kept.take(index + 1);
        let entry: usize = order[index];
        assert(kept[index as int] == manifest_of(results@[entry as int]));
        if let Ok(result) = &results[entry].result {
            if let Some(manifest) = result.usable() {
                mark(&mut marked, manifest);
            }
        }
        proof {
            assert(more[index as int] == kept[index as int]);
            assert forall|digest: Seq<char>| #[trigger]
                texts(marked@).contains(digest) <==> refers(more, digest) by {
                assert(before.contains(digest) <==> refers(head, digest));
                if refers(more, digest) {
                    let at = choose|at: int|
                        0 <= at < more.len() && (#[trigger] more[at]) is Some && mentions(
                            store::blobs_of(more[at]->0),
                            digest,
                        );
                    if at < index {
                        assert(head[at] == more[at]);
                    }
                }
                if refers(head, digest) {
                    let at = choose|at: int|
                        0 <= at < head.len() && (#[trigger] head[at]) is Some && mentions(
                            store::blobs_of(head[at]->0),
                            digest,
                        );
                    assert(more[at] == head[at]);
                }
                if kept[index as int] is Some && mentions(
                    store::blobs_of(kept[index as int]->0),
                    digest,
                ) {
                    assert(more[index as int] is Some);
                }
            }
        }
        index += 1;
    }
    assert(kept.take(index as int) =~= kept);
    marked
}

/// A text of the list has the bytes.
pub open spec fn names_marked(marked: Seq<String>, name: Seq<u8>) -> bool {
    exists|at: int| 0 <= at < marked.len() && bstr::utf8((#[trigger] marked[at])@) == name
}

/// No kept result refers to stored content, and it was not changed after the given moment.
fn is_orphan(
    name: &[u8],
    marked: &Vec<String>,
    modified: FileTimestamp,
    cutoff: FileTimestamp,
) -> (yes: bool)
    ensures
        yes == (!names_marked(marked@, name@) && !later(modified, cutoff)),
{
    let mut index: usize = 0;
    while index < marked.len()
        invariant
            index <= marked@.len(),
            forall|at: int| 0 <= at < index ==> bstr::utf8((#[trigger] marked@[at])@) != name@,
        decreases marked@.len() - index,
    {
        if bstr::is(name, marked[index].as_str()) {
            assert(bstr::utf8(marked@[index as int]@) == name@);
            return false;
        }
        index += 1;
    }
    !is_later(modified, cutoff)
}

proof fn lemma_marked(kept: Seq<Option<ManifestView>>, marked: Seq<String>, name: Seq<u8>)
    requires
        forall|other: Seq<char>| #[trigger]
            texts(marked).contains(other) <==> refers(kept, other),
    ensures
        names_marked(marked, name) == keeps(kept, name),
{
    let list = texts(marked);
    if names_marked(marked, name) {
        let at = choose|at: int|
            0 <= at < marked.len() && bstr::utf8((#[trigger] marked[at])@) == name;
        assert(list[at] == marked[at]@);
        assert(list.contains(marked[at]@));
    }
    if keeps(kept, name) {
        let digest = choose|digest: Seq<char>| #[trigger]
            refers(kept, digest) && bstr::utf8(digest) == name;
        assert(list.contains(digest));
        let at = choose|at: int| 0 <= at < list.len() && list[at] == digest;
        assert(marked[at]@ == digest);
    }
}

/// The name of the file of a result.
pub open spec fn result_name(name: Seq<u8>) -> bool {
    upath::extension_of(name) == Some(bstr::utf8("json"@))
}

/// The name of the file of a result.
pub fn is_result_name(name: &[u8]) -> (yes: bool)
    ensures
        yes == result_name(name@),
{
    match upath::extension(name) {
        Some(found) => bstr::is(found.as_slice(), "json"),
        None => false,
    }
}

fn order_results(results: &Vec<FoundResult>) -> (order: Vec<usize>)
    ensures
        as_ints(order@) == result_order(results@),
        order@.len() == results@.len(),
        forall|at: int| 0 <= at < order@.len() ==> #[trigger] order@[at] < results@.len(),
{
    let mut times: Vec<FileTimestamp> = Vec::new();
    let mut index: usize = 0;
    while index < results.len()
        invariant
            index <= results@.len(),
            times@ =~= times_of(results@).take(index as int),
        decreases results@.len() - index,
    {
        times.push(results[index].modified);
        index += 1;
    }
    assert(times@ =~= times_of(results@));
    newest_first(&times)
}

impl CacheStore {
    /// What leaves the cache where the newest results are kept. Content that no kept result refers
    /// to leaves too, unless it was written within the given time.
    pub fn trim_with_grace(&self, keep_recent: usize, orphan_grace: Grace, facts: &TrimFacts) -> (
    outcome: Result<Trimming, CacheError>)
        requires
            timely(*facts, orphan_grace),
        ensures
            match outcome {
                Ok(found) => trimmed(*facts, keep_recent as int, orphan_grace) == Ok::<
                    Trimmed,
                    Fault,
                >(found@),
                Err(error) => trimmed(*facts, keep_recent as int, orphan_grace) == Err::<
                    Trimmed,
                    Fault,
                >(error@),
            },
    {
        let cutoff = moment_before(facts.now, orphan_grace);
        store::validate_area(&facts.result_areas)?;
        store::validate_area(&facts.blob_areas)?;
        let order = order_results(&facts.results);
        let keep: usize = if keep_recent < order.len() {
            keep_recent
        } else {
            order.len()
        };
        let ghost kept = kept_manifests(facts.results@, keep_recent as int);
        let marked = marked_digests(&facts.results, &order, keep);
        assert(as_ints(order@).take(keep as int).map_values(
            |entry: int| manifest_of(facts.results@[entry]),
        ) =~= kept);
        let mut results: Vec<usize> = Vec::new();
        let mut at: usize = keep;
        while at < order.len()
            invariant
                keep <= at <= order@.len(),
                results@ =~= order@.subrange(keep as int, at as int),
            decreases order@.len() - at,
        {
            results.push(order[at]);
            at += 1;
        }
        let mut blobs: Vec<usize> = Vec::new();
        let mut count: usize = 0;
        assert(as_ints(blobs@) =~= Seq::empty());
        while count < facts.blobs.len()
            invariant
                cutoff == earlier(facts.now, orphan_grace),
                forall|other: Seq<char>| #[trigger]
                    texts(marked@).contains(other) <==> refers(kept, other),
                count <= facts.blobs@.len(),
                as_ints(blobs@) == orphans(facts.blobs@, kept, cutoff, count as int),
            decreases facts.blobs@.len() - count,
        {
            let blob = &facts.blobs[count];
            proof {
                lemma_marked(kept, marked@, blob.name@);
            }
            if is_orphan(blob.name.as_slice(), &marked, blob.modified, cutoff) {
                assert(as_ints(blobs@.push(count)) =~= as_ints(blobs@).push(count as int));
                blobs.push(count);
            }
            count += 1;
        }
        let found = Trimming { results, blobs };
        assert(found@.results =~= result_order(facts.results@).skip(
            kept_count(facts.results@, keep_recent as int),
        ));
        assert(found@.blobs =~= as_ints(blobs@));
        Ok(found)
    }

    /// What leaves the cache where the newest results are kept. Content that no kept result refers
    /// to leaves too, unless it was written within the last hour.
    pub fn trim(&self, keep_recent: usize, facts: &TrimFacts) -> (outcome: Result<
        Trimming,
        CacheError,
    >)
        requires
            timely(*facts, one_hour()),
        ensures
            match outcome {
                Ok(found) => trimmed(*facts, keep_recent as int, one_hour()) == Ok::<
                    Trimmed,
                    Fault,
                >(found@),
                Err(error) => trimmed(*facts, keep_recent as int, one_hour()) == Err::<
                    Trimmed,
                    Fault,
                >(error@),
            },
    {
        self.trim_with_grace(
            keep_recent,
            Grace { seconds: ORPHAN_GRACE, nanoseconds: 0 },
            facts,
        )
    }

    /// What leaves the cache where its results have to fit into a number of bytes: the oldest, and
    /// what no kept result refers to and what was not written within the last hour.
    pub fn trim_to_size(&self, max_bytes: u64, facts: &TrimFacts) -> (outcome: Result<
        Trimming,
        CacheError,
    >)
        requires
            timely(*facts, one_hour()),
        ensures
            match outcome {
                Ok(found) => trimmed_to_size(*facts, max_bytes) == Ok::<Trimmed, Fault>(found@),
                Err(error) => trimmed_to_size(*facts, max_bytes) == Err::<Trimmed, Fault>(error@),
            },
    {
        let order = order_results(&facts.results);
        let keep: usize = results_within(&facts.results, &order, max_bytes)?;
        self.trim_with_grace(keep, Grace { seconds: ORPHAN_GRACE, nanoseconds: 0 }, facts)
    }
}

/// Content that a kept result refers to never leaves the cache.
pub proof fn law_trimming_keeps_referenced_content(
    facts: TrimFacts,
    keep: int,
    grace: Grace,
    digest: Seq<char>,
    blob: int,
)
    requires
        trimmed(facts, keep, grace) is Ok,
        refers(kept_manifests(facts.results@, keep), digest),
        0 <= blob < facts.blobs@.len(),
        facts.blobs@[blob].name@ == bstr::utf8(digest),
    ensures
        !trimmed(facts, keep, grace)->Ok_0.blobs.contains(blob),
{
    let kept = kept_manifests(facts.results@, keep);
    assert(keeps(kept, bstr::utf8(digest)));
    lemma_no_orphan(
        facts.blobs@,
        kept,
        earlier(facts.now, grace),
        facts.blobs@.len() as int,
        blob,
    );
}

/// Content that was written within the given time never leaves the cache.
pub proof fn law_trimming_keeps_recent_content(
    facts: TrimFacts,
    keep: int,
    grace: Grace,
    blob: int,
)
    requires
        trimmed(facts, keep, grace) is Ok,
        0 <= blob < facts.blobs@.len(),
        later(facts.blobs@[blob].modified, earlier(facts.now, grace)),
    ensures
        !trimmed(facts, keep, grace)->Ok_0.blobs.contains(blob),
{
    lemma_no_orphan(
        facts.blobs@,
        kept_manifests(facts.results@, keep),
        earlier(facts.now, grace),
        facts.blobs@.len() as int,
        blob,
    );
}

proof fn lemma_no_orphan(
    blobs: Seq<FoundBlob>,
    kept: Seq<Option<ManifestView>>,
    cutoff: FileTimestamp,
    count: int,
    blob: int,
)
    requires
        keeps(kept, blobs[blob].name@) || later(blobs[blob].modified, cutoff),
        0 <= blob,
    ensures
        !orphans(blobs, kept, cutoff, count).contains(blob),
    decreases count,
{
    if count > 0 {
        lemma_no_orphan(blobs, kept, cutoff, count - 1, blob);
        let before = orphans(blobs, kept, cutoff, count - 1);
        let list = orphans(blobs, kept, cutoff, count);
        if list.contains(blob) {
            let at = choose|at: int| 0 <= at < list.len() && list[at] == blob;
            if at < before.len() {
                assert(before[at] == blob);
            }
        }
    }
}

/// The usage with one more result.
pub open spec fn grown(used: Usage, result: StoredResult, manifest: ManifestView) -> Usage {
    let added = with_blobs(
        Usage { bytes: result.length as u64, digests: used.digests },
        store::blobs_of(manifest),
        store::blobs_of(manifest).len() as int,
    );
    Usage { bytes: reasons::plus(used.bytes, added.bytes), digests: added.digests }
}

/// What `count` results from `index` on take up, beside what is used.
pub open spec fn usage_of(
    results: Seq<Result<StoredResult, String>>,
    index: int,
    used: Usage,
    count: int,
) -> Usage
    decreases count,
{
    if count <= 0 {
        used
    } else {
        match results[index] {
            Ok(result) => match result.manifest() {
                Some(manifest) => usage_of(
                    results,
                    index + 1,
                    grown(used, result, manifest),
                    count - 1,
                ),
                None => used,
            },
            Err(_) => used,
        }
    }
}

proof fn lemma_fitting(
    results: Seq<Result<StoredResult, String>>,
    index: int,
    used: Usage,
    limit: u64,
)
    requires
        0 <= index <= results.len(),
        used.bytes <= limit,
        fitting(results, index, used, limit) is Ok,
    ensures
        ({
            let keep = fitting(results, index, used, limit)->Ok_0;
            &&& 0 <= keep <= results.len() - index
            &&& usage_of(results, index, used, keep).bytes <= limit
            &&& index + keep < results.len() ==> results[index + keep] is Ok && (
            results[index + keep]->Ok_0.manifest() is Some ==> usage_of(
                results,
                index,
                used,
                keep + 1,
            ).bytes > limit)
        }),
    decreases results.len() - index,
{
    reveal_with_fuel(usage_of, 2);
    if index < results.len() && results[index] is Ok && results[index]->Ok_0.manifest() is Some {
        let result = results[index]->Ok_0;
        let more = grown(used, result, result.manifest()->0);
        if more.bytes <= limit {
            lemma_fitting(results, index + 1, more, limit);
        }
    }
}

/// The results that are kept fit into the limit, and no more of them would: the next one is too
/// large, or its file holds no valid manifest.
pub proof fn law_kept_results_fit_the_limit(
    results: Seq<Result<StoredResult, String>>,
    limit: u64,
)
    requires
        fitting(results, 0, Usage { bytes: 0, digests: Seq::empty() }, limit) is Ok,
    ensures
        ({
            let start = Usage { bytes: 0, digests: Seq::empty() };
            let keep = fitting(results, 0, start, limit)->Ok_0;
            &&& 0 <= keep <= results.len()
            &&& usage_of(results, 0, start, keep).bytes <= limit
            &&& keep < results.len() ==> results[keep] is Ok && (results[keep]->Ok_0.manifest()
                is Some ==> usage_of(results, 0, start, keep + 1).bytes > limit)
        }),
{
    lemma_fitting(results, 0, Usage { bytes: 0, digests: Seq::empty() }, limit);
}

/// How much of a list of content is new: each content counts once, and not at all where it is known.
pub open spec fn new_bytes(
    known: Seq<Seq<char>>,
    blobs: Seq<BlobRef<Seq<char>>>,
    count: int,
) -> nat
    decreases count,
{
    if count <= 0 {
        0
    } else {
        let blob = blobs[count - 1];
        let repeated = known.contains(blob.digest) || exists|at: int|
            0 <= at < count - 1 && (#[trigger] blobs[at]).digest == blob.digest;
        new_bytes(known, blobs, count - 1) + (if repeated {
            0
        } else {
            blob.size as nat
        })
    }
}

proof fn lemma_counted(
    usage: Usage,
    blobs: Seq<BlobRef<Seq<char>>>,
    count: int,
    digest: Seq<char>,
)
    requires
        0 <= count <= blobs.len(),
    ensures
        with_blobs(usage, blobs, count).digests.contains(digest) <==> usage.digests.contains(digest)
            || exists|at: int| 0 <= at < count && (#[trigger] blobs[at]).digest == digest,
    decreases count,
{
    if count > 0 {
        lemma_counted(usage, blobs, count - 1, digest);
        let before = with_blobs(usage, blobs, count - 1);
        let blob = blobs[count - 1];
        let after = with_blobs(usage, blobs, count);
        if before.digests.contains(blob.digest) {
            assert(after == before);
        } else {
            assert(after.digests == before.digests.push(blob.digest));
            if after.digests.contains(digest) {
                let at = choose|at: int| 0 <= at < after.digests.len() && after.digests[at] == digest;
                if at < before.digests.len() {
                    assert(before.digests[at] == digest);
                }
            }
            if before.digests.contains(digest) {
                let at = choose|at: int|
                    0 <= at < before.digests.len() && before.digests[at] == digest;
                assert(after.digests[at] == digest);
            }
            assert(after.digests[before.digests.len() as int] == blob.digest);
        }
    }
}

/// Content counts once, however many results refer to it: what a list of content adds to the size of
/// the cache is the size of what was not counted before.
pub proof fn law_content_counts_once(usage: Usage, blobs: Seq<BlobRef<Seq<char>>>, count: int)
    requires
        0 <= count <= blobs.len(),
    ensures
        with_blobs(usage, blobs, count).bytes == (if usage.bytes + new_bytes(
            usage.digests,
            blobs,
            count,
        ) <= u64::MAX {
            usage.bytes + new_bytes(usage.digests, blobs, count)
        } else {
            u64::MAX as int
        }),
    decreases count,
{
    if count > 0 {
        law_content_counts_once(usage, blobs, count - 1);
        lemma_counted(usage, blobs, count - 1, blobs[count - 1].digest);
    }
}

/// What a result adds to the size of the cache: the bytes of its own file, and its new content.
pub proof fn law_results_count_their_file_and_content(
    used: Usage,
    result: StoredResult,
    manifest: ManifestView,
)
    requires
        result.length <= u64::MAX,
    ensures
        ({
            let blobs = store::blobs_of(manifest);
            let size = result.length as int + new_bytes(used.digests, blobs, blobs.len() as int);
            grown(used, result, manifest).bytes == (if used.bytes + size <= u64::MAX {
                used.bytes + size
            } else {
                u64::MAX as int
            })
        }),
{
    let blobs = store::blobs_of(manifest);
    law_content_counts_once(
        Usage { bytes: result.length as u64, digests: used.digests },
        blobs,
        blobs.len() as int,
    );
}

/// The age of a moment, in nanoseconds.
pub open spec fn age(now: FileTimestamp, past: FileTimestamp) -> int {
    (now.seconds - past.seconds) * 1_000_000_000 + (now.nanoseconds - past.nanoseconds)
}

/// The moment is a whole second and a part of one.
pub open spec fn is_moment(time: FileTimestamp) -> bool {
    0 <= time.nanoseconds < 1_000_000_000
}

proof fn lemma_orphans(
    blobs: Seq<FoundBlob>,
    kept: Seq<Option<ManifestView>>,
    cutoff: FileTimestamp,
    count: int,
    blob: int,
)
    requires
        !keeps(kept, blobs[blob].name@),
        !later(blobs[blob].modified, cutoff),
        0 <= blob < count,
    ensures
        orphans(blobs, kept, cutoff, count).contains(blob),
    decreases count,
{
    let before = orphans(blobs, kept, cutoff, count - 1);
    let list = orphans(blobs, kept, cutoff, count);
    if blob == count - 1 {
        assert(list[before.len() as int] == blob);
    } else {
        lemma_orphans(blobs, kept, cutoff, count - 1, blob);
        let at = choose|at: int| 0 <= at < before.len() && before[at] == blob;
        assert(list[at] == blob);
    }
}

/// Content leaves the cache exactly where no kept result refers to it and it is at least an hour
/// old.
pub proof fn law_orphans_leave_after_an_hour(facts: TrimFacts, limit: u64, keep: int, blob: int)
    requires
        trimmed_to_size(facts, limit) is Ok,
        fitting(
            in_order(facts.results@, result_order(facts.results@)),
            0,
            (Usage { bytes: 0, digests: Seq::empty() }),
            limit,
        ) == Ok::<int, Fault>(keep),
        0 <= blob < facts.blobs@.len(),
        is_moment(facts.now),
        is_moment(facts.blobs@[blob].modified),
        facts.now.seconds >= i64::MIN + 3601,
    ensures
        trimmed_to_size(facts, limit)->Ok_0.blobs.contains(blob) <==> age(
            facts.now,
            facts.blobs@[blob].modified,
        ) >= 3600 * 1_000_000_000 && !keeps(
            kept_manifests(facts.results@, keep),
            facts.blobs@[blob].name@,
        ),
{
    let kept = kept_manifests(facts.results@, keep);
    let cutoff = earlier(facts.now, one_hour());
    let modified = facts.blobs@[blob].modified;
    let count = facts.blobs@.len() as int;
    assert(cutoff.seconds == facts.now.seconds - 3600 && cutoff.nanoseconds
        == facts.now.nanoseconds);
    assert(later(modified, cutoff) <==> age(facts.now, modified) < 3600 * 1_000_000_000);
    if keeps(kept, facts.blobs@[blob].name@) || later(modified, cutoff) {
        lemma_no_orphan(facts.blobs@, kept, cutoff, count, blob);
    } else {
        lemma_orphans(facts.blobs@, kept, cutoff, count, blob);
    }
}

/// The oldest results leave first: none that is kept is older than one that leaves. Each result
/// leaves once or stays.
pub proof fn law_oldest_results_leave_first(
    facts: TrimFacts,
    keep: int,
    grace: Grace,
    kept: int,
    leaving: int,
)
    requires
        trimmed(facts, keep, grace) is Ok,
        0 <= keep,
        0 <= kept < facts.results@.len(),
        !trimmed(facts, keep, grace)->Ok_0.results.contains(kept),
        trimmed(facts, keep, grace)->Ok_0.results.contains(leaving),
        0 <= leaving < facts.results@.len(),
    ensures
        ({
            let newer = facts.results@[kept].modified;
            let older = facts.results@[leaving].modified;
            newer.seconds > older.seconds || (newer.seconds == older.seconds && newer.nanoseconds
                >= older.nanoseconds)
        }),
        trimmed(facts, keep, grace)->Ok_0.results.len() == (if keep < facts.results@.len() {
            facts.results@.len() - keep
        } else {
            0
        }),
{
    let results = facts.results@;
    let times = times_of(results);
    let order = result_order(results);
    let count = kept_count(results, keep);
    law_newest_entries_come_first(times, results.len() as int);
    assert(order.contains(kept));
    let left = choose|at: int| 0 <= at < order.len() && order[at] == kept;
    let gone = order.skip(count);
    let at = choose|at: int| 0 <= at < gone.len() && gone[at] == leaving;
    let right = count + at;
    assert(order[right] == leaving);
    if left >= count {
        assert(gone[left - count] == kept);
    }
    assert(!later(times[order[right]], times[order[left]]));
}

/// A result that is kept keeps its content: every artifact, and what the compiler wrote to its
/// standard output and its standard error.
pub proof fn law_kept_results_keep_their_content(
    facts: TrimFacts,
    keep: int,
    grace: Grace,
    kept: int,
    artifact: int,
    blob: int,
)
    requires
        trimmed(facts, keep, grace) is Ok,
        0 <= keep,
        0 <= kept < facts.results@.len(),
        !trimmed(facts, keep, grace)->Ok_0.results.contains(kept),
        manifest_of(facts.results@[kept]) is Some,
        0 <= blob < facts.blobs@.len(),
        ({
            let manifest = manifest_of(facts.results@[kept])->0;
            let name = facts.blobs@[blob].name@;
            ||| name == bstr::utf8(manifest.stdout.digest)
            ||| name == bstr::utf8(manifest.stderr.digest)
            ||| 0 <= artifact < manifest.artifacts.len() && name == bstr::utf8(
                manifest.artifacts[artifact].blob.digest,
            )
        }),
    ensures
        !trimmed(facts, keep, grace)->Ok_0.blobs.contains(blob),
{
    let results = facts.results@;
    let order = result_order(results);
    let count = kept_count(results, keep);
    law_newest_entries_come_first(times_of(results), results.len() as int);
    assert(order.contains(kept));
    let place = choose|at: int| 0 <= at < order.len() && order[at] == kept;
    if place >= count {
        assert(order.skip(count)[place - count] == kept);
    }
    let list = kept_manifests(results, keep);
    assert(list[place] == manifest_of(results[kept]));
    let manifest = manifest_of(results[kept])->0;
    let name = facts.blobs@[blob].name@;
    let blobs = store::blobs_of(manifest);
    let number = manifest.artifacts.len() as int;
    let at = if name == bstr::utf8(manifest.stdout.digest) {
        number
    } else if name == bstr::utf8(manifest.stderr.digest) {
        number + 1
    } else {
        artifact
    };
    let digest = blobs[at].digest;
    assert(mentions(blobs, digest));
    assert(refers(list, digest));
    law_trimming_keeps_referenced_content(facts, keep, grace, digest, blob);
}

} // verus!
