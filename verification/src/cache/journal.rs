//! The journals in which counts are kept.
//!
//! Every shard has a journal: one line for each record, with a checksum. A record adds to what was
//! counted before, or replaces it.
use vstd::prelude::*;

use crate::bstr;
use crate::cache::stats;
use crate::cache::stats::{Counts, Fault, Stats, StatsError};
use crate::decimal;
use crate::digest;
use crate::hex;
use crate::upath;

verus! {

/// How many journals share the counts.
pub const SHARDS: u64 = 16;

/// What every line of a journal begins with.
pub const JOURNAL_PREFIX: &'static str = "FCS1 ";

/// The length of that beginning.
pub const PREFIX_BYTES: usize = 5;

/// The length of a checksum in hexadecimal.
pub const CHECKSUM_HEX_BYTES: usize = 64;

/// The largest record.
pub const MAX_RECORD_BYTES: usize = 0x4_0000;

/// The longest line, with its end.
pub const MAX_FRAME_BYTES: usize = 0x4_0047;

/// The largest file of the older form.
pub const MAX_LEGACY_BYTES: u64 = 0x10_0000;

/// The largest journal.
pub const MAX_JOURNAL_BYTES: u64 = 0x400_0000;

/// The byte that ends a line.
pub const LINE_FEED: u8 = 0x0a;

/// The byte between a checksum and its record.
pub const SPACE: u8 = 0x20;

/// A record of a journal.
#[derive(Clone, Debug)]
pub enum JournalEntry {
    /// Counts that are added.
    Delta(Stats),
    /// Counts that replace what was counted before.
    Snapshot(Stats),
}

impl JournalEntry {
    /// The counts of the record.
    pub open spec fn counts(self) -> Stats {
        match self {
            JournalEntry::Delta(counts) => counts,
            JournalEntry::Snapshot(counts) => counts,
        }
    }
}

/// The record of counts that are added.
pub fn delta_entry(counts: Stats) -> (entry: JournalEntry)
    ensures
        entry == JournalEntry::Delta(counts),
{
    JournalEntry::Delta(counts)
}

/// The record that takes the place of a journal: what it counts.
pub fn compact_entry(counts: Stats) -> (entry: JournalEntry)
    ensures
        entry == JournalEntry::Snapshot(counts),
{
    JournalEntry::Snapshot(counts)
}

/// The record that takes the place of a journal where counting starts anew: no counts.
pub fn reset_entry() -> (entry: JournalEntry)
    ensures
        entry is Snapshot,
        entry.counts()@ == Stats::<Counts>::zero(),
        stats::stats_fault(entry.counts()) is None,
{
    JournalEntry::Snapshot(Stats::default())
}

/// The checksum of a record, as it is written.
pub open spec fn checksum(payload: Seq<u8>) -> Seq<u8> {
    bstr::utf8(hex::hex_text(digest::blake3_digest(payload)))
}

/// A record as a line of a journal.
pub open spec fn framed(payload: Seq<u8>) -> Seq<u8> {
    bstr::utf8(JOURNAL_PREFIX@) + checksum(payload) + seq![SPACE] + payload + seq![LINE_FEED]
}

/// The record of a line, where the line holds one.
pub open spec fn unframed(line: Seq<u8>) -> Option<Seq<u8>> {
    let end = PREFIX_BYTES + CHECKSUM_HEX_BYTES;
    if line.len() <= end + 1 || !bstr::has_prefix(line, bstr::utf8(JOURNAL_PREFIX@)) || line[end]
        != SPACE {
        None
    } else if checksum(line.skip(end + 1)) != line.subrange(PREFIX_BYTES as int, end) {
        None
    } else {
        Some(line.skip(end + 1))
    }
}

proof fn lemma_prefix()
    ensures
        bstr::utf8(JOURNAL_PREFIX@).len() == PREFIX_BYTES,
        forall|at: int|
            0 <= at < PREFIX_BYTES ==> #[trigger] bstr::utf8(JOURNAL_PREFIX@)[at] != LINE_FEED,
{
    reveal_strlit("FCS1 ");
    bstr::lemma_ascii(JOURNAL_PREFIX@);
}

proof fn lemma_checksum(payload: Seq<u8>)
    requires
        digest::blake3_digest(payload).len() == 32,
    ensures
        checksum(payload).len() == CHECKSUM_HEX_BYTES,
        forall|at: int|
            0 <= at < CHECKSUM_HEX_BYTES ==> #[trigger] checksum(payload)[at] != LINE_FEED,
{
    let data = digest::blake3_digest(payload);
    hex::lemma_hex_bytes(data);
    assert forall|at: int| 0 <= at < CHECKSUM_HEX_BYTES implies #[trigger] checksum(payload)[at]
        != LINE_FEED by {
        let byte = data[at / 2];
        if at % 2 == 0 {
            assert(hex::hex_text(data)[2 * (at / 2)] == hex::digit(byte as int / 16));
        } else {
            assert(hex::hex_text(data)[2 * (at / 2) + 1] == hex::digit(byte as int % 16));
        }
    }
}

proof fn lemma_framed(payload: Seq<u8>)
    requires
        digest::blake3_digest(payload).len() == 32,
        payload.len() > 0,
    ensures
        framed(payload).len() == PREFIX_BYTES + CHECKSUM_HEX_BYTES + 2 + payload.len(),
        framed(payload).last() == LINE_FEED,
        unframed(framed(payload).drop_last()) == Some(payload),
        bstr::first(payload, LINE_FEED) == payload.len() ==> bstr::first(framed(payload), LINE_FEED)
            == framed(payload).len() - 1,
{
    lemma_prefix();
    lemma_checksum(payload);
    let head = bstr::utf8(JOURNAL_PREFIX@);
    let line = framed(payload).drop_last();
    let end = PREFIX_BYTES + CHECKSUM_HEX_BYTES;
    assert(line =~= head + checksum(payload) + seq![SPACE] + payload);
    assert(line.take(PREFIX_BYTES as int) =~= head);
    assert(line.subrange(PREFIX_BYTES as int, end) =~= checksum(payload));
    assert(line.skip(end + 1) =~= payload);
    assert(line[end] == SPACE);
    if bstr::first(payload, LINE_FEED) == payload.len() {
        bstr::lemma_first_absent(payload, LINE_FEED);
        assert forall|at: int| 0 <= at < line.len() implies framed(payload)[at] != LINE_FEED by {
            if at < PREFIX_BYTES {
                assert(framed(payload)[at] == head[at]);
            } else if at < end {
                assert(framed(payload)[at] == checksum(payload)[at - PREFIX_BYTES]);
            } else if at > end {
                assert(framed(payload)[at] == payload[at - end - 1]);
            }
        }
        bstr::lemma_first(framed(payload), LINE_FEED, line.len() as int);
    }
}

/// Writes a record as a line, where it is small enough. Every line that comes back holds its
/// record.
pub fn encode_frame(payload: &[u8]) -> (outcome: Result<Vec<u8>, StatsError>)
    ensures
        match outcome {
            Ok(frame) => payload@.len() <= MAX_RECORD_BYTES && frame@ == framed(payload@) && (
            payload@.len() > 0 ==> unframed(frame@.drop_last()) == Some(payload@)) && frame@.len()
                <= MAX_FRAME_BYTES,
            Err(error) => payload@.len() > MAX_RECORD_BYTES && error@ == Fault::RecordTooLarge,
        },
{
    if payload.len() > MAX_RECORD_BYTES {
        return Err(StatsError::RecordTooLarge);
    }
    let sum = digest::hash(payload);
    let text = hex::encode_bytes(sum.as_slice());
    let mut frame = bstr::from_str(JOURNAL_PREFIX);
    bstr::append(&mut frame, text.as_slice());
    frame.push(SPACE);
    bstr::append(&mut frame, payload);
    frame.push(LINE_FEED);
    proof {
        assert(frame@ =~= framed(payload@));
        lemma_prefix();
        lemma_checksum(payload@);
        if payload@.len() > 0 {
            lemma_framed(payload@);
        }
    }
    Ok(frame)
}

/// The record of a line, where the line holds one and its checksum is right.
pub fn decode_frame(line: &[u8]) -> (payload: Option<Vec<u8>>)
    ensures
        bstr::opt_view(payload) == unframed(line@),
{
    let end: usize = PREFIX_BYTES + CHECKSUM_HEX_BYTES;
    if line.len() <= end + 1 || !bstr::starts_with_str(line, JOURNAL_PREFIX) || line[end] != SPACE {
        return None;
    }
    let payload = bstr::skip(line, end + 1);
    let sum = digest::hash(payload);
    let text = hex::encode_bytes(sum.as_slice());
    let stated = bstr::take(bstr::skip(line, PREFIX_BYTES), CHECKSUM_HEX_BYTES);
    assert(stated@ =~= line@.subrange(PREFIX_BYTES as int, end as int));
    if !bstr::same(text.as_slice(), stated) {
        return None;
    }
    Some(bstr::copy(payload))
}

/// Why a journal is not read further.
#[derive(Clone, Copy, Debug, PartialEq, Eq, Structural)]
pub enum JournalEnd {
    /// It ends, after a line or within one.
    Reached,
    /// A line holds no record.
    Corrupt,
    /// A line is too long.
    TooLarge,
}

/// The records of a journal as far as it can be read, and why it is not read further.
#[verifier::ext_equal]
pub struct Journal {
    pub payloads: Seq<Seq<u8>>,
    pub end: JournalEnd,
}

/// What a journal holds.
pub open spec fn journal_of(contents: Seq<u8>) -> Journal
    decreases contents.len(),
{
    let at = bstr::first(contents, LINE_FEED) as int;
    if contents.len() == 0 {
        Journal { payloads: Seq::empty(), end: JournalEnd::Reached }
    } else if at >= contents.len() {
        Journal {
            payloads: Seq::empty(),
            end: if contents.len() > MAX_FRAME_BYTES {
                JournalEnd::TooLarge
            } else {
                JournalEnd::Reached
            },
        }
    } else if at + 1 > MAX_FRAME_BYTES {
        Journal { payloads: Seq::empty(), end: JournalEnd::TooLarge }
    } else {
        match unframed(contents.take(at)) {
            None => Journal { payloads: Seq::empty(), end: JournalEnd::Corrupt },
            Some(payload) => {
                let rest = journal_of(contents.skip(at + 1));
                Journal { payloads: seq![payload] + rest.payloads, end: rest.end }
            },
        }
    }
}

/// The records of a journal as far as it can be read, and why it is not read further. A line
/// without an end at the end of the journal was not written to its end: it is left out.
pub fn journal_payloads(contents: &[u8]) -> (journal: (Vec<Vec<u8>>, JournalEnd))
    ensures
        bstr::views(journal.0@) == journal_of(contents@).payloads,
        journal.1 == journal_of(contents@).end,
{
    let mut payloads: Vec<Vec<u8>> = Vec::new();
    let length: usize = contents.len();
    let mut start: usize = 0;
    assert(contents@.skip(0) =~= contents@);
    assert(bstr::views(payloads@) =~= Seq::empty());
    loop
        invariant
            start <= length,
            length == contents@.len(),
            bstr::views(payloads@) + journal_of(contents@.skip(start as int)).payloads
                =~= journal_of(contents@).payloads,
            journal_of(contents@.skip(start as int)).end == journal_of(contents@).end,
        decreases contents@.len() - start,
    {
        let rest = bstr::skip(contents, start);
        if rest.len() == 0 {
            return (payloads, JournalEnd::Reached);
        }
        let at: usize = bstr::find_or_end(rest, LINE_FEED);
        if at >= rest.len() {
            if rest.len() > MAX_FRAME_BYTES {
                return (payloads, JournalEnd::TooLarge);
            }
            return (payloads, JournalEnd::Reached);
        }
        if at >= MAX_FRAME_BYTES {
            return (payloads, JournalEnd::TooLarge);
        }
        match decode_frame(bstr::take(rest, at)) {
            None => {
                return (payloads, JournalEnd::Corrupt);
            },
            Some(payload) => {
                let ghost before = bstr::views(payloads@);
                proof {
                    bstr::lemma_views_push(payloads@, payload);
                    assert(rest@.skip(at + 1) =~= contents@.skip(start + at + 1));
                }
                payloads.push(payload);
                assert(bstr::views(payloads@) + journal_of(
                    contents@.skip(start + at + 1),
                ).payloads =~= before + journal_of(rest@).payloads);
                start = start + at + 1;
            },
        }
    }
}

/// What is counted after the first `count` records, where all of them can be used.
pub open spec fn folded(start: Stats<Counts>, entries: Seq<Option<JournalEntry>>, count: int) -> Option<
    Stats<Counts>,
>
    decreases count,
{
    if count <= 0 {
        Some(start)
    } else {
        match (folded(start, entries, count - 1), entries[count - 1]) {
            (Some(counts), Some(entry)) => if stats::stats_fault(entry.counts()) is Some {
                None
            } else {
                match entry {
                    JournalEntry::Delta(delta) => Some(counts.merged(delta@)),
                    JournalEntry::Snapshot(snapshot) => Some(snapshot@),
                }
            },
            _ => None,
        }
    }
}

proof fn lemma_folded_fails(
    start: Stats<Counts>,
    entries: Seq<Option<JournalEntry>>,
    count: int,
    total: int,
)
    requires
        0 <= count <= total,
        folded(start, entries, count) is None,
    ensures
        folded(start, entries, total) is None,
    decreases total - count,
{
    if count < total {
        lemma_folded_fails(start, entries, count + 1, total);
    }
}

/// What a journal counts on top of what was counted before: its records in their order. A record
/// that is no entry (`None`) or that counts something impossible makes the journal unusable, and so
/// does a journal that could not be read to its end.
pub fn read_journal(
    path: &[u8],
    start: Stats,
    entries: Vec<Option<JournalEntry>>,
    end: JournalEnd,
) -> (outcome: Result<Stats, StatsError>)
    ensures
        match outcome {
            Ok(counts) => end == JournalEnd::Reached && folded(
                start@,
                entries@,
                entries@.len() as int,
            ) == Some(counts@),
            Err(error) => if folded(start@, entries@, entries@.len() as int) is None || end
                == JournalEnd::Corrupt {
                error@ == Fault::CorruptJournal(path@)
            } else {
                end == JournalEnd::TooLarge && error@ == Fault::RecordTooLarge
            },
        },
{
    let ghost total = entries@.len() as int;
    let mut counts = start;
    let mut rest = entries;
    let ghost mut index: int = 0;
    assert(rest@ =~= entries@.skip(0));
    while rest.len() > 0
        invariant
            0 <= index <= total,
            total == entries@.len(),
            rest@ == entries@.skip(index),
            folded(start@, entries@, index) == Some(counts@),
        decreases rest@.len(),
    {
        assert(rest@[0] == entries@[index]);
        let next = rest.remove(0);
        assert(rest@ =~= entries@.skip(index + 1));
        match next {
            None => {
                proof {
                    lemma_folded_fails(start@, entries@, index + 1, total);
                }
                return Err(StatsError::CorruptJournal(bstr::copy(path)));
            },
            Some(entry) => {
                let usable = match &entry {
                    JournalEntry::Delta(found) => stats::validate_stats(found).is_ok(),
                    JournalEntry::Snapshot(found) => stats::validate_stats(found).is_ok(),
                };
                if !usable {
                    proof {
                        assert(folded(start@, entries@, index + 1) is None);
                        lemma_folded_fails(start@, entries@, index + 1, total);
                    }
                    return Err(StatsError::CorruptJournal(bstr::copy(path)));
                }
                match entry {
                    JournalEntry::Delta(delta) => counts.merge(&delta),
                    JournalEntry::Snapshot(snapshot) => {
                        counts = snapshot;
                    },
                }
            },
        }
        proof {
            index = index + 1;
        }
    }
    match end {
        JournalEnd::Reached => Ok(counts),
        JournalEnd::Corrupt => Err(StatsError::CorruptJournal(bstr::copy(path))),
        JournalEnd::TooLarge => Err(StatsError::RecordTooLarge),
    }
}

/// What is read of a journal before it is repaired: its last bytes.
pub open spec fn inspected(length: u64) -> int {
    if length < MAX_FRAME_BYTES {
        length as int
    } else {
        MAX_FRAME_BYTES as int
    }
}

/// The length up to and with the last line end, zero where there is none.
pub open spec fn whole_lines(tail: Seq<u8>) -> nat
    decreases tail.len(),
{
    if tail.len() == 0 || tail.last() == LINE_FEED {
        tail.len()
    } else {
        whole_lines(tail.drop_last())
    }
}

/// The length to which a journal has to be cut before a line is appended, so that it ends with a
/// whole line. `tail` holds its last bytes. A journal that has no line end among them is refused
/// where it is longer than a line.
pub fn repair_truncated_tail(length: u64, tail: &[u8]) -> (outcome: Result<u64, StatsError>)
    requires
        tail@.len() == inspected(length),
    ensures
        match outcome {
            Ok(kept) => kept == (if whole_lines(tail@) == 0 {
                0
            } else {
                length - tail@.len() + whole_lines(tail@)
            }) && (whole_lines(tail@) == 0 ==> length <= MAX_FRAME_BYTES),
            Err(error) => whole_lines(tail@) == 0 && length > MAX_FRAME_BYTES && error@
                == Fault::RecordTooLarge,
        },
{
    let mut end: usize = tail.len();
    assert(tail@.take(end as int) =~= tail@);
    while end > 0 && tail[end - 1] != LINE_FEED
        invariant
            end <= tail@.len(),
            whole_lines(tail@) == whole_lines(tail@.take(end as int)),
        decreases end,
    {
        assert(tail@.take(end as int).drop_last() =~= tail@.take(end - 1));
        assert(tail@.take(end as int).last() == tail@[end - 1]);
        end -= 1;
    }
    assert(end > 0 ==> tail@.take(end as int).last() == tail@[end - 1]);
    assert(whole_lines(tail@) == end);
    if end == 0 {
        if length > MAX_FRAME_BYTES as u64 {
            return Err(StatsError::RecordTooLarge);
        }
        return Ok(0);
    }
    Ok(length - tail.len() as u64 + end as u64)
}

/// A line may be appended to a journal of the given length.
pub fn check_append(length: u64, frame: usize) -> (outcome: Result<(), StatsError>)
    ensures
        match outcome {
            Ok(_) => length + frame <= MAX_JOURNAL_BYTES,
            Err(error) => length + frame > MAX_JOURNAL_BYTES && error@ == Fault::RecordTooLarge,
        },
{
    if length.saturating_add(frame as u64) > MAX_JOURNAL_BYTES {
        Err(StatsError::RecordTooLarge)
    } else {
        Ok(())
    }
}

/// A journal of the given length may be read.
pub fn check_journal(length: u64) -> (outcome: Result<(), StatsError>)
    ensures
        match outcome {
            Ok(_) => length <= MAX_JOURNAL_BYTES,
            Err(error) => length > MAX_JOURNAL_BYTES && error@ == Fault::RecordTooLarge,
        },
{
    if length > MAX_JOURNAL_BYTES {
        Err(StatsError::RecordTooLarge)
    } else {
        Ok(())
    }
}

/// All bytes are white space.
pub open spec fn blank(contents: Seq<u8>) -> bool {
    forall|at: int| 0 <= at < contents.len() ==> bstr::is_space(#[trigger] contents[at])
}

/// What has to be done with a file of the older form: `false` where it counts nothing, `true` where
/// it has to be read as counts.
pub fn legacy_counts(contents: &[u8]) -> (outcome: Result<bool, StatsError>)
    ensures
        match outcome {
            Ok(counts) => contents@.len() <= MAX_LEGACY_BYTES && counts == !blank(contents@),
            Err(error) => contents@.len() > MAX_LEGACY_BYTES && error@ == Fault::RecordTooLarge,
        },
{
    if contents.len() as u64 > MAX_LEGACY_BYTES {
        return Err(StatsError::RecordTooLarge);
    }
    let mut index: usize = 0;
    while index < contents.len()
        invariant
            contents@.len() <= MAX_LEGACY_BYTES,
            index <= contents@.len(),
            forall|at: int| 0 <= at < index ==> bstr::is_space(#[trigger] contents@[at]),
        decreases contents@.len() - index,
    {
        if !bstr::space(contents[index]) {
            assert(!bstr::is_space(contents@[index as int]));
            return Ok(true);
        }
        index += 1;
    }
    Ok(false)
}

/// What is known of a file by its path, or of a file that is open.
#[derive(Clone, Copy, Debug, PartialEq, Eq, Structural)]
pub struct OpenedFile {
    pub regular: bool,
    pub device: u64,
    pub inode: u64,
    pub links: u64,
}

/// The path and the open file are one regular file that has no other name.
pub fn same_regular_file(path: OpenedFile, file: OpenedFile) -> (yes: bool)
    ensures
        yes == (path.regular && file.regular && path.device == file.device && path.inode
            == file.inode && path.links == 1),
{
    path.regular && file.regular && path.device == file.device && path.inode == file.inode
        && path.links == 1
}

/// The journals below a cache directory.
#[derive(Clone, Debug)]
pub struct StatsStore {
    pub root: Vec<u8>,
}

/// The directory of the counts.
pub open spec fn stats_directory(cache_dir: Seq<u8>) -> Seq<u8> {
    upath::joined(upath::joined(cache_dir, bstr::utf8("v1"@)), bstr::utf8("stats"@))
}

/// The journal of a key.
pub open spec fn shard_of(key: Seq<u8>) -> int {
    bstr::sum_le(digest::blake3_digest(key)) % (SHARDS as int)
}

/// The name of a file that belongs to a shard.
pub open spec fn shard_file(shard: u64, ending: Seq<char>) -> Seq<u8> {
    (if shard < 10 {
        seq![decimal::ZERO]
    } else {
        Seq::empty()
    }) + decimal::digits(shard as nat) + bstr::utf8(ending)
}

/// The contents of a list of counts.
pub open spec fn stats_views(list: Seq<Stats>) -> Seq<Stats<Counts>> {
    list.map_values(|counts: Stats| counts@)
}

/// The shards added up.
pub open spec fn added_up(shards: Seq<Stats<Counts>>) -> Stats<Counts>
    decreases shards.len(),
{
    if shards.len() == 0 {
        Stats::<Counts>::zero()
    } else {
        added_up(shards.drop_last()).merged(shards.last())
    }
}

impl StatsStore {
    /// The journals below a cache directory. Nothing is created or read: the directories that have
    /// to be there, outermost first, are those of `directories`.
    pub fn new(cache_dir: &[u8]) -> (store: Self)
        ensures
            store.root@ == stats_directory(cache_dir@),
    {
        let version = upath::join(cache_dir, bstr::of("v1"));
        StatsStore { root: upath::join(version.as_slice(), bstr::of("stats")) }
    }

    /// The directories that have to be there, outermost first.
    pub fn directories(cache_dir: &[u8]) -> (list: Vec<Vec<u8>>)
        ensures
            bstr::views(list@) == seq![
                cache_dir@,
                upath::joined(cache_dir@, bstr::utf8("v1"@)),
                stats_directory(cache_dir@),
            ],
    {
        let version = upath::join(cache_dir, bstr::of("v1"));
        let root = upath::join(version.as_slice(), bstr::of("stats"));
        let mut list: Vec<Vec<u8>> = Vec::new();
        list.push(bstr::copy(cache_dir));
        list.push(version);
        list.push(root);
        assert(bstr::views(list@) =~= seq![
            cache_dir@,
            upath::joined(cache_dir@, bstr::utf8("v1"@)),
            stats_directory(cache_dir@),
        ]);
        list
    }

    /// The directory of the journals.
    pub fn path(&self) -> (path: &[u8])
        ensures
            path@ == self.root@,
    {
        self.root.as_slice()
    }

    /// The journal for a key, or for the process where there is no key.
    pub fn shard_number(&self, key: Option<&[u8]>, process: u32) -> (shard: u64)
        ensures
            shard == match key {
                Some(bytes) => shard_of(bytes@),
                None => process as int % (SHARDS as int),
            },
            shard < SHARDS,
    {
        match key {
            Some(bytes) => {
                let sum = digest::hash(bytes);
                assert(shard_of(bytes@) == sum@[0] % 16);
                (sum[0] % 16) as u64
            },
            None => process as u64 % SHARDS,
        }
    }

    fn shard_path(&self, shard: u64, ending: &str) -> (path: Vec<u8>)
        ensures
            path@ == upath::joined(self.root@, shard_file(shard, ending@)),
    {
        let mut name: Vec<u8> = Vec::new();
        if shard < 10 {
            name.push(decimal::ZERO);
        }
        decimal::push(&mut name, shard);
        bstr::append_str(&mut name, ending);
        assert(name@ =~= shard_file(shard, ending@));
        upath::join(self.root.as_slice(), name.as_slice())
    }

    /// The file of a shard in the older form.
    pub fn legacy_path(&self, shard: u64) -> (path: Vec<u8>)
        ensures
            path@ == upath::joined(self.root@, shard_file(shard, ".json"@)),
    {
        self.shard_path(shard, ".json")
    }

    /// The journal of a shard.
    pub fn journal_path(&self, shard: u64) -> (path: Vec<u8>)
        ensures
            path@ == upath::joined(self.root@, shard_file(shard, ".journal"@)),
    {
        self.shard_path(shard, ".journal")
    }

    /// The file by which writers of a shard exclude each other.
    pub fn lock_path(&self, shard: u64) -> (path: Vec<u8>)
        ensures
            path@ == upath::joined(self.root@, shard_file(shard, ".lock"@)),
    {
        self.shard_path(shard, ".lock")
    }

    /// The record of what an update adds. The update is applied to no counts, and not to what was
    /// counted before.
    pub fn record<F: FnOnce(Stats) -> Stats>(&self, update: F) -> (entry: JournalEntry)
        requires
            forall|none: Stats|
                none@ == Stats::<Counts>::zero() ==> #[trigger] call_requires(update, (none,)),
        ensures
            entry is Delta,
            exists|none: Stats|
                none@ == Stats::<Counts>::zero() && #[trigger] call_ensures(
                    update,
                    (none,),
                    entry.counts(),
                ),
    {
        let none = Stats::default();
        let ghost begun = none;
        let delta = update(none);
        let entry = delta_entry(delta);
        assert(begun@ == Stats::<Counts>::zero() && call_ensures(
            update,
            (begun,),
            entry.counts(),
        ));
        entry
    }

    /// The line that records counts, given the bytes of the record. Impossible counts are refused.
    pub fn record_delta(&self, counts: &Stats, payload: &[u8]) -> (outcome: Result<
        Vec<u8>,
        StatsError,
    >)
        ensures
            match outcome {
                Ok(frame) => stats::stats_fault(*counts) is None && payload@.len()
                    <= MAX_RECORD_BYTES && frame@ == framed(payload@) && (payload@.len() > 0
                    ==> unframed(frame@.drop_last()) == Some(payload@)),
                Err(error) => match stats::stats_fault(*counts) {
                    Some(fault) => error@ == fault,
                    None => payload@.len() > MAX_RECORD_BYTES && error@ == Fault::RecordTooLarge,
                },
            },
    {
        stats::validate_stats(counts)?;
        encode_frame(payload)
    }

    /// The line that takes the place of a journal, given the bytes of the record of its counts.
    /// Impossible counts are refused.
    pub fn compact(&self, counts: &Stats, payload: &[u8]) -> (outcome: Result<Vec<u8>, StatsError>)
        ensures
            match outcome {
                Ok(frame) => stats::stats_fault(*counts) is None && payload@.len()
                    <= MAX_RECORD_BYTES && frame@ == framed(payload@) && (payload@.len() > 0
                    ==> unframed(frame@.drop_last()) == Some(payload@)),
                Err(error) => match stats::stats_fault(*counts) {
                    Some(fault) => error@ == fault,
                    None => payload@.len() > MAX_RECORD_BYTES && error@ == Fault::RecordTooLarge,
                },
            },
    {
        self.record_delta(counts, payload)
    }

    /// The line that takes the place of a journal where counting starts anew, given the bytes of the
    /// record of no counts.
    pub fn reset(&self, payload: &[u8]) -> (outcome: Result<Vec<u8>, StatsError>)
        ensures
            match outcome {
                Ok(frame) => payload@.len() <= MAX_RECORD_BYTES && frame@ == framed(payload@) && (
                payload@.len() > 0 ==> unframed(frame@.drop_last()) == Some(payload@)),
                Err(error) => payload@.len() > MAX_RECORD_BYTES && error@ == Fault::RecordTooLarge,
            },
    {
        encode_frame(payload)
    }

    /// What all shards count together.
    pub fn aggregate(&self, shards: &Vec<Stats>) -> (total: Stats)
        ensures
            total@ == added_up(stats_views(shards@)),
    {
        let ghost all = stats_views(shards@);
        let mut total = Stats::default();
        let mut index: usize = 0;
        while index < shards.len()
            invariant
                all == stats_views(shards@),
                index <= shards@.len(),
                total@ == added_up(all.take(index as int)),
            decreases shards@.len() - index,
        {
            total.merge(&shards[index]);
            assert(all.take(index + 1).drop_last() =~= all.take(index as int));
            assert(all.take(index + 1).last() == shards@[index as int]@);
            index += 1;
        }
        assert(all.take(index as int) =~= all);
        total
    }
}

/// A line that reads back as the record that was written: it ends where its only line end stands.
pub open spec fn is_frame(line: Seq<u8>, payload: Seq<u8>) -> bool {
    &&& 0 < line.len() <= MAX_FRAME_BYTES
    &&& bstr::first(line, LINE_FEED) == line.len() - 1
    &&& unframed(line.drop_last()) == Some(payload)
}

/// Lines one after the other.
pub open spec fn lines_of(lines: Seq<Seq<u8>>) -> Seq<u8>
    decreases lines.len(),
{
    if lines.len() == 0 {
        Seq::empty()
    } else {
        lines[0] + lines_of(lines.skip(1))
    }
}

/// The line of a record that has no line end in it is a frame.
pub proof fn law_records_are_frames(payload: Seq<u8>)
    requires
        digest::blake3_digest(payload).len() == 32,
        0 < payload.len() <= MAX_RECORD_BYTES,
        bstr::first(payload, LINE_FEED) == payload.len(),
    ensures
        is_frame(framed(payload), payload),
{
    lemma_framed(payload);
}

/// A journal gives back every record that was written to it, in the order of writing. What a writer
/// left of a line that it did not finish hides none of them.
pub proof fn law_journal_gives_back_its_records(
    lines: Seq<Seq<u8>>,
    payloads: Seq<Seq<u8>>,
    torn: Seq<u8>,
)
    requires
        lines.len() == payloads.len(),
        forall|at: int|
            0 <= at < lines.len() ==> is_frame(#[trigger] lines[at], payloads[at]),
        torn.len() <= MAX_FRAME_BYTES,
        bstr::first(torn, LINE_FEED) == torn.len(),
    ensures
        journal_of(lines_of(lines) + torn) == (Journal { payloads, end: JournalEnd::Reached }),
    decreases lines.len(),
{
    let contents = lines_of(lines) + torn;
    if lines.len() == 0 {
        assert(contents =~= torn);
        assert(payloads =~= Seq::empty());
    } else {
        let line = lines[0];
        let rest = lines_of(lines.skip(1)) + torn;
        assert(is_frame(line, payloads[0]));
        assert(contents =~= line + rest);
        bstr::lemma_first_prefix(line, rest, LINE_FEED);
        assert(contents.take(line.len() - 1) =~= line.drop_last());
        assert(contents.skip(line.len() as int) =~= rest);
        assert forall|at: int| 0 <= at < lines.skip(1).len() implies is_frame(
            #[trigger] lines.skip(1)[at],
            payloads.skip(1)[at],
        ) by {
            assert(lines.skip(1)[at] == lines[at + 1]);
            assert(is_frame(lines[at + 1], payloads[at + 1]));
        }
        law_journal_gives_back_its_records(lines.skip(1), payloads.skip(1), torn);
        assert(seq![payloads[0]] + payloads.skip(1) =~= payloads);
    }
}

/// What is left of a journal that was cut before a line is appended: the whole lines, and nothing of
/// the unfinished one.
pub proof fn law_repair_keeps_whole_lines(lines: Seq<u8>, torn: Seq<u8>)
    requires
        lines.len() > 0,
        lines.last() == LINE_FEED,
        bstr::first(torn, LINE_FEED) == torn.len(),
    ensures
        whole_lines(lines + torn) == lines.len(),
    decreases torn.len(),
{
    bstr::lemma_first_absent(torn, LINE_FEED);
    if torn.len() == 0 {
        assert(lines + torn =~= lines);
    } else {
        assert((lines + torn).drop_last() =~= lines + torn.drop_last());
        assert((lines + torn).last() == torn.last());
        bstr::lemma_first(torn.drop_last(), LINE_FEED, torn.len() - 1);
        law_repair_keeps_whole_lines(lines, torn.drop_last());
    }
}

/// A snapshot of what a journal counts can take the place of the journal: records that are appended
/// later count the same on top of either.
pub proof fn law_compaction_keeps_the_counts(
    start: Stats<Counts>,
    legacy: Stats<Counts>,
    entries: Seq<Option<JournalEntry>>,
    snapshot: Stats,
    later: Seq<Option<JournalEntry>>,
)
    requires
        stats::stats_fault(snapshot) is None,
        folded(start, entries, entries.len() as int) == Some(snapshot@),
    ensures
        folded(start, entries + later, (entries.len() + later.len()) as int) == folded(
            legacy,
            seq![Some(JournalEntry::Snapshot(snapshot))] + later,
            (1 + later.len()) as int,
        ),
    decreases later.len(),
{
    let head = seq![Some(JournalEntry::Snapshot(snapshot))];
    if later.len() == 0 {
        assert(entries + later =~= entries);
        assert(head + later =~= head);
        assert(folded(legacy, head, 0) == Some(legacy));
        assert(head[0] == Some(JournalEntry::Snapshot(snapshot)));
        assert(folded(legacy, head, 1) == Some(snapshot@));
    } else {
        let shorter = later.drop_last();
        law_compaction_keeps_the_counts(start, legacy, entries, snapshot, shorter);
        lemma_folded_prefix(
            start,
            entries + later,
            entries + shorter,
            (entries.len() + shorter.len()) as int,
        );
        lemma_folded_prefix(legacy, head + later, head + shorter, (1 + shorter.len()) as int);
        assert((entries + later)[(entries.len() + shorter.len()) as int] == later.last());
        assert((head + later)[(1 + shorter.len()) as int] == later.last());
    }
}

/// What the records of a journal say. `reads` is what the bytes of a record stand for.
pub open spec fn entries_of(
    payloads: Seq<Seq<u8>>,
    reads: spec_fn(Seq<u8>) -> Option<JournalEntry>,
) -> Seq<Option<JournalEntry>> {
    payloads.map_values(reads)
}

/// What a shard counts: its journal on top of what was counted in the older form, where all of it
/// can be used.
pub open spec fn shard_counts(
    legacy: Stats<Counts>,
    contents: Seq<u8>,
    reads: spec_fn(Seq<u8>) -> Option<JournalEntry>,
) -> Option<Stats<Counts>> {
    let entries = entries_of(journal_of(contents).payloads, reads);
    if journal_of(contents).end is Reached {
        folded(legacy, entries, entries.len() as int)
    } else {
        None
    }
}

/// A journal to which the last writer wrote whole lines.
pub open spec fn whole(contents: Seq<u8>) -> bool {
    contents.len() == 0 || contents.last() == LINE_FEED
}

/// What is left of a line that a writer did not finish.
pub open spec fn torn(rest: Seq<u8>) -> bool {
    rest.len() <= MAX_FRAME_BYTES && bstr::first(rest, LINE_FEED) == rest.len()
}

proof fn lemma_continued(contents: Seq<u8>, more: Seq<u8>)
    requires
        whole(contents),
    ensures
        journal_of(contents + more) == (if journal_of(contents).end is Reached {
            Journal {
                payloads: journal_of(contents).payloads + journal_of(more).payloads,
                end: journal_of(more).end,
            }
        } else {
            journal_of(contents)
        }),
    decreases contents.len(),
{
    let all = contents + more;
    if contents.len() == 0 {
        assert(all =~= more);
        assert(journal_of(contents).payloads + journal_of(more).payloads
            =~= journal_of(more).payloads);
    } else {
        let at = bstr::first(contents, LINE_FEED) as int;
        bstr::lemma_first_absent(contents, LINE_FEED);
        assert(contents[contents.len() - 1] == LINE_FEED);
        let rest = contents.skip(at + 1);
        bstr::lemma_first_prefix(contents, more, LINE_FEED);
        assert(all.take(at) =~= contents.take(at));
        assert(all.skip(at + 1) =~= rest + more);
        if rest.len() > 0 {
            assert(rest.last() == contents.last());
        }
        lemma_continued(rest, more);
        if at + 1 <= MAX_FRAME_BYTES && unframed(contents.take(at)) is Some {
            let head = seq![unframed(contents.take(at))->0];
            assert(head + (journal_of(rest).payloads + journal_of(more).payloads) =~= head
                + journal_of(rest).payloads + journal_of(more).payloads);
        }
    }
}

proof fn lemma_one_line(payload: Seq<u8>)
    requires
        digest::blake3_digest(payload).len() == 32,
        0 < payload.len() <= MAX_RECORD_BYTES,
        bstr::first(payload, LINE_FEED) == payload.len(),
    ensures
        journal_of(framed(payload)) == (Journal {
            payloads: seq![payload],
            end: JournalEnd::Reached,
        }),
{
    law_records_are_frames(payload);
    let lines = seq![framed(payload)];
    assert(lines.skip(1) =~= Seq::empty());
    assert(lines_of(lines.skip(1)) =~= Seq::empty());
    assert(lines_of(lines) =~= framed(payload));
    assert(lines_of(lines) + Seq::<u8>::empty() =~= framed(payload));
    law_journal_gives_back_its_records(lines, seq![payload], Seq::empty());
}

/// Recording counts adds them to what the shard counted, whatever a writer left of a line that it
/// did not finish, and to what all shards count together, whichever shard it is.
pub proof fn law_recorded_counts_are_added(
    legacy: Stats<Counts>,
    contents: Seq<u8>,
    rest: Seq<u8>,
    delta: Stats,
    payload: Seq<u8>,
    reads: spec_fn(Seq<u8>) -> Option<JournalEntry>,
    shards: Seq<Stats<Counts>>,
    shard: int,
)
    requires
        whole(contents),
        torn(rest),
        shard_counts(legacy, contents + rest, reads) is Some,
        stats::stats_fault(delta) is None,
        reads(payload) == Some(JournalEntry::Delta(delta)),
        digest::blake3_digest(payload).len() == 32,
        0 < payload.len() <= MAX_RECORD_BYTES,
        bstr::first(payload, LINE_FEED) == payload.len(),
        0 <= shard < shards.len(),
        shards[shard] == shard_counts(legacy, contents + rest, reads)->0,
    ensures
        shard_counts(legacy, contents + framed(payload), reads) == Some(
            shards[shard].merged(delta@),
        ),
        added_up(shards.update(shard, shards[shard].merged(delta@))) == added_up(shards).merged(
            delta@,
        ),
{
    let before = journal_of(contents);
    lemma_continued(contents, rest);
    assert(journal_of(rest) == (Journal { payloads: Seq::empty(), end: JournalEnd::Reached }));
    assert(before.payloads + Seq::<Seq<u8>>::empty() =~= before.payloads);
    lemma_one_line(payload);
    lemma_continued(contents, framed(payload));
    let entries = entries_of(before.payloads, reads);
    let more = entries_of(before.payloads + seq![payload], reads);
    assert(more =~= entries.push(Some(JournalEntry::Delta(delta))));
    lemma_folded_prefix(legacy, more, entries, entries.len() as int);
    lemma_added_to_one(shards, shard, delta@);
}

proof fn lemma_added_to_one(shards: Seq<Stats<Counts>>, shard: int, delta: Stats<Counts>)
    requires
        0 <= shard < shards.len(),
    ensures
        added_up(shards.update(shard, shards[shard].merged(delta))) == added_up(shards).merged(
            delta,
        ),
    decreases shards.len(),
{
    let changed = shards.update(shard, shards[shard].merged(delta));
    let front = added_up(shards.drop_last());
    if shard == shards.len() - 1 {
        assert(changed.drop_last() =~= shards.drop_last());
        stats::law_counts_add_up(front, shards.last(), delta);
    } else {
        lemma_added_to_one(shards.drop_last(), shard, delta);
        assert(changed.drop_last() =~= shards.drop_last().update(
            shard,
            shards[shard].merged(delta),
        ));
        stats::law_counts_add_up(front, delta, shards.last());
        stats::law_counts_add_up(front, shards.last(), delta);
        stats::law_counts_add_up(delta, shards.last(), delta);
    }
}

/// After a reset every shard counts nothing, whatever was counted in the older form, and so do all
/// shards together.
pub proof fn law_a_reset_counts_nothing(
    legacy: Seq<Stats<Counts>>,
    entry: JournalEntry,
    payload: Seq<u8>,
    reads: spec_fn(Seq<u8>) -> Option<JournalEntry>,
    shards: Seq<Stats<Counts>>,
)
    requires
        entry is Snapshot,
        entry.counts()@ == Stats::<Counts>::zero(),
        stats::stats_fault(entry.counts()) is None,
        reads(payload) == Some(entry),
        digest::blake3_digest(payload).len() == 32,
        0 < payload.len() <= MAX_RECORD_BYTES,
        bstr::first(payload, LINE_FEED) == payload.len(),
        legacy.len() == shards.len(),
        forall|shard: int|
            0 <= shard < shards.len() ==> Some(#[trigger] shards[shard]) == shard_counts(
                legacy[shard],
                framed(payload),
                reads,
            ),
    ensures
        forall|shard: int|
            0 <= shard < shards.len() ==> #[trigger] shards[shard] == Stats::<Counts>::zero(),
        added_up(shards) == Stats::<Counts>::zero(),
{
    lemma_one_line(payload);
    let entries = entries_of(seq![payload], reads);
    assert forall|shard: int| 0 <= shard < shards.len() implies #[trigger] shards[shard]
        == Stats::<Counts>::zero() by {
        lemma_only_snapshot(legacy[shard], entries);
        assert(Some(shards[shard]) == shard_counts(legacy[shard], framed(payload), reads));
    }
    lemma_nothing_added(shards);
}

proof fn lemma_only_snapshot(legacy: Stats<Counts>, entries: Seq<Option<JournalEntry>>)
    requires
        entries.len() == 1,
        entries[0] is Some,
        entries[0]->0 is Snapshot,
        stats::stats_fault(entries[0]->0.counts()) is None,
    ensures
        folded(legacy, entries, 1) == Some(entries[0]->0.counts()@),
{
    assert(folded(legacy, entries, 0) == Some(legacy));
}

proof fn lemma_nothing_added(shards: Seq<Stats<Counts>>)
    requires
        forall|shard: int|
            0 <= shard < shards.len() ==> #[trigger] shards[shard] == Stats::<Counts>::zero(),
    ensures
        added_up(shards) == Stats::<Counts>::zero(),
    decreases shards.len(),
{
    if shards.len() > 0 {
        lemma_nothing_added(shards.drop_last());
        let zero = Stats::<Counts>::zero();
        stats::law_counts_add_up(zero, zero, zero);
    }
}

/// After a journal was compacted, its shard counts what it counted before.
pub proof fn law_a_compacted_journal_counts_the_same(
    legacy: Stats<Counts>,
    contents: Seq<u8>,
    snapshot: Stats,
    payload: Seq<u8>,
    reads: spec_fn(Seq<u8>) -> Option<JournalEntry>,
)
    requires
        shard_counts(legacy, contents, reads) == Some(snapshot@),
        stats::stats_fault(snapshot) is None,
        reads(payload) == Some(JournalEntry::Snapshot(snapshot)),
        digest::blake3_digest(payload).len() == 32,
        0 < payload.len() <= MAX_RECORD_BYTES,
        bstr::first(payload, LINE_FEED) == payload.len(),
    ensures
        shard_counts(legacy, framed(payload), reads) == shard_counts(legacy, contents, reads),
{
    lemma_one_line(payload);
    lemma_only_snapshot(legacy, entries_of(seq![payload], reads));
}

proof fn lemma_folded_prefix(
    start: Stats<Counts>,
    left: Seq<Option<JournalEntry>>,
    right: Seq<Option<JournalEntry>>,
    count: int,
)
    requires
        count <= left.len(),
        count <= right.len(),
        forall|at: int| 0 <= at < count ==> left[at] == right[at],
    ensures
        folded(start, left, count) == folded(start, right, count),
    decreases count,
{
    if count > 0 {
        lemma_folded_prefix(start, left, right, count - 1);
    }
}

/// A record is at most 256 kilobytes long, its line 71 bytes longer, a journal at most 64 megabytes,
/// and a file of the older form one megabyte; and there are sixteen journals.
pub proof fn law_limits_of_a_journal()
    ensures
        MAX_RECORD_BYTES == 256 * 1024,
        MAX_FRAME_BYTES == 256 * 1024 + 71,
        MAX_JOURNAL_BYTES == 64 * 1024 * 1024,
        MAX_LEGACY_BYTES == 1024 * 1024,
        SHARDS == 16,
{
}

/// A line is `FCS1 `, the checksum of its record in hexadecimal digits, a space, the record and a line
/// end; and a line whose checksum is not that of its record gives none.
pub proof fn law_lines_of_a_journal(payload: Seq<u8>, sum: Seq<u8>)
    requires
        payload.len() > 0,
        sum.len() == 64,
        digest::blake3_digest(payload).len() == 32,
    ensures
        framed(payload) == seq![0x46u8, 0x43, 0x53, 0x31, 0x20] + bstr::utf8(
            hex::hex_text(digest::blake3_digest(payload)),
        ) + seq![0x20u8] + payload + seq![0x0au8],
        framed(payload).len() == payload.len() + 71,
        ({
            let line = seq![0x46u8, 0x43, 0x53, 0x31, 0x20] + sum + seq![0x20u8] + payload;
            unframed(line) == if sum == bstr::utf8(
                hex::hex_text(digest::blake3_digest(payload)),
            ) {
                Some(payload)
            } else {
                None
            }
        }),
{
    reveal_strlit("FCS1 ");
    bstr::lemma_ascii("FCS1 "@);
    let prefix = bstr::utf8("FCS1 "@);
    assert(prefix =~= seq![0x46u8, 0x43, 0x53, 0x31, 0x20]);
    hex::lemma_hex_bytes(digest::blake3_digest(payload));
    let line = prefix + sum + seq![0x20u8] + payload;
    assert(line.take(5) =~= prefix);
    assert(line[69] == 0x20);
    assert(line.skip(70) =~= payload);
    assert(line.subrange(5, 69) =~= sum);
}

/// The counts of a journal that is one unfinished line, longer than the longest record can make it,
/// cannot be read.
pub proof fn law_overlong_journals_are_refused(
    legacy: Stats<Counts>,
    line: Seq<u8>,
    reads: spec_fn(Seq<u8>) -> Option<JournalEntry>,
)
    requires
        line.len() > 256 * 1024 + 71,
        forall|at: int| 0 <= at < line.len() ==> line[at] != 0x0a,
    ensures
        shard_counts(legacy, line, reads) is None,
{
    bstr::lemma_first(line, LINE_FEED, line.len() as int);
    assert(line.take(line.len() as int) =~= line);
}

/// The counts of a key lie in the journal whose number is the rest of the first byte of the digest by
/// sixteen; the name of a file is that number with two digits and its ending.
pub proof fn law_journals_of_a_key(cache_dir: Seq<u8>, key: Seq<u8>, shard: u64, ending: Seq<char>)
    requires
        digest::blake3_digest(key).len() == 32,
        shard < 16,
        cache_dir.len() > 0 && cache_dir.last() != 0x2f,
    ensures
        shard_of(key) == digest::blake3_digest(key)[0] % 16,
        shard_file(shard, ending) == seq![
            (0x30 + shard / 10) as u8,
            (0x30 + shard % 10) as u8,
        ] + bstr::utf8(ending),
        stats_directory(cache_dir) == cache_dir + seq![
            0x2fu8,
            0x76,
            0x31,
            0x2f,
            0x73,
            0x74,
            0x61,
            0x74,
            0x73,
        ],
{
    let digits = decimal::digits(shard as nat);
    reveal_with_fuel(decimal::digits, 3);
    assert(shard_file(shard, ending) =~= seq![
        (0x30 + shard / 10) as u8,
        (0x30 + shard % 10) as u8,
    ] + bstr::utf8(ending));
    reveal_strlit("v1");
    reveal_strlit("stats");
    bstr::lemma_ascii("v1"@);
    bstr::lemma_ascii("stats"@);
    assert(bstr::utf8("v1"@) =~= seq![0x76u8, 0x31]);
    assert(bstr::utf8("stats"@) =~= seq![0x73u8, 0x74, 0x61, 0x74, 0x73]);
    upath::law_paths_are_seen_below(cache_dir, bstr::utf8("v1"@));
    let version = cache_dir + seq![0x2fu8] + bstr::utf8("v1"@);
    assert(version.last() == 0x31);
    upath::law_paths_are_seen_below(version, bstr::utf8("stats"@));
    assert(stats_directory(cache_dir) =~= cache_dir + seq![
        0x2fu8,
        0x76,
        0x31,
        0x2f,
        0x73,
        0x74,
        0x61,
        0x74,
        0x73,
    ]);
}

} // verus!
