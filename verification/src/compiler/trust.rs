//! Which file systems report changes of files reliably.
use vstd::prelude::*;

use crate::bstr;

verus! {

broadcast use bstr::lemma_views_push;

/// The byte that ends a line.
pub const LINE_FEED: u8 = 0x0a;

/// The byte between the fields of a line.
pub const SPACE: u8 = 0x20;

/// The byte `\`.
pub const BACKSLASH: u8 = 0x5c;

/// The byte is an octal digit.
pub open spec fn octal(byte: u8) -> bool {
    0x30 <= byte <= 0x37
}

/// A byte is written at an index as a backslash and three octal digits.
pub open spec fn escaped_at(text: Seq<u8>, index: int) -> bool {
    &&& index + 3 < text.len()
    &&& text[index] == BACKSLASH
    &&& octal(text[index + 1])
    &&& octal(text[index + 2])
    &&& octal(text[index + 3])
}

/// The path that stands in a mount table from `index` on. Of an octal code beyond a byte, the low
/// eight bits count.
pub open spec fn decoded_mount(text: Seq<u8>, index: int) -> Seq<u8>
    decreases text.len() - index,
{
    if index < 0 || index >= text.len() {
        Seq::empty()
    } else if escaped_at(text, index) {
        seq![
            (((text[index + 1] - 0x30) * 64 + (text[index + 2] - 0x30) * 8 + (text[index + 3]
                - 0x30)) % 256) as u8,
        ] + decoded_mount(text, index + 4)
    } else {
        seq![text[index]] + decoded_mount(text, index + 1)
    }
}

fn is_octal(byte: u8) -> (yes: bool)
    ensures
        yes == octal(byte),
{
    0x30 <= byte && byte <= 0x37
}

/// The path that stands in a mount table.
pub fn decode_mount_path(text: &[u8]) -> (path: Vec<u8>)
    ensures
        path@ == decoded_mount(text@, 0),
{
    let mut path: Vec<u8> = Vec::new();
    let length: usize = text.len();
    let mut index: usize = 0;
    while index < length
        invariant
            length == text@.len(),
            index <= length,
            path@ + decoded_mount(text@, index as int) == decoded_mount(text@, 0),
        decreases length - index,
    {
        let ghost before = path@;
        if length - index > 3 && text[index] == BACKSLASH && is_octal(text[index + 1]) && is_octal(
            text[index + 2],
        ) && is_octal(text[index + 3]) {
            let high: u32 = (text[index + 1] - 0x30) as u32;
            let middle: u32 = (text[index + 2] - 0x30) as u32;
            let low: u32 = (text[index + 3] - 0x30) as u32;
            path.push(((high * 64 + middle * 8 + low) % 256) as u8);
            assert(path@ + decoded_mount(text@, index + 4) =~= before + decoded_mount(
                text@,
                index as int,
            ));
            index += 4;
        } else {
            path.push(text[index]);
            assert(path@ + decoded_mount(text@, index + 1) =~= before + decoded_mount(
                text@,
                index as int,
            ));
            index += 1;
        }
    }
    assert(path@ =~= decoded_mount(text@, 0));
    path
}

/// Where the lone dash stands among fields, from `index` on; the length where there is none.
pub open spec fn dash_from(fields: Seq<Seq<u8>>, index: int) -> int
    decreases fields.len() - index,
{
    if index >= fields.len() {
        fields.len() as int
    } else if fields[index] == bstr::utf8("-"@) {
        index
    } else {
        dash_from(fields, index + 1)
    }
}

/// The path at which a line of the mount table mounts a file system that is trusted.
pub open spec fn trusted_mount(line: Seq<u8>) -> Option<Seq<u8>> {
    let fields = bstr::pieces(line, SPACE);
    let dash = dash_from(fields, 0);
    if dash < 6 || dash + 1 >= fields.len() {
        None
    } else {
        let kind = fields[dash + 1];
        if kind == bstr::utf8("ext4"@) || kind == bstr::utf8("xfs"@) || kind == bstr::utf8("btrfs"@)
            || kind == bstr::utf8("apfs"@) {
            Some(decoded_mount(fields[4], 0))
        } else {
            None
        }
    }
}

/// The paths at which the first lines mount file systems that are trusted.
pub open spec fn trusted_in(lines: Seq<Seq<u8>>, count: int) -> Seq<Seq<u8>>
    decreases count,
{
    if count <= 0 {
        Seq::empty()
    } else {
        match trusted_mount(lines[count - 1]) {
            Some(path) => trusted_in(lines, count - 1).push(path),
            None => trusted_in(lines, count - 1),
        }
    }
}

fn trusted_line(line: &[u8]) -> (path: Option<Vec<u8>>)
    ensures
        bstr::opt_view(path) == trusted_mount(line@),
{
    let fields = bstr::split(line, SPACE);
    let ghost all = bstr::views(fields@);
    let mut dash: usize = 0;
    while dash < fields.len() && !bstr::is(fields[dash].as_slice(), "-")
        invariant
            all == bstr::views(fields@),
            all.len() == fields@.len(),
            dash <= fields@.len(),
            dash_from(all, 0) == dash_from(all, dash as int),
        decreases fields@.len() - dash,
    {
        assert(all[dash as int] == fields@[dash as int]@);
        dash += 1;
    }
    proof {
        if dash < fields@.len() {
            assert(all[dash as int] == fields@[dash as int]@);
        }
        assert(dash_from(all, 0) == dash);
    }
    if dash < 6 || dash >= fields.len() || dash + 1 >= fields.len() {
        return None;
    }
    let kind = fields[dash + 1].as_slice();
    assert(all[dash + 1] == kind@);
    assert(all[4] == fields@[4]@);
    if bstr::is(kind, "ext4") || bstr::is(kind, "xfs") || bstr::is(kind, "btrfs") || bstr::is(
        kind,
        "apfs",
    ) {
        Some(decode_mount_path(fields[4].as_slice()))
    } else {
        None
    }
}

/// The paths at which file systems are mounted that report changes of files reliably, given the
/// mount table of the process.
pub fn trusted_mountpoints(table: &[u8]) -> (paths: Vec<Vec<u8>>)
    ensures
        bstr::views(paths@) == trusted_in(
            bstr::pieces(table@, LINE_FEED),
            bstr::pieces(table@, LINE_FEED).len() as int,
        ),
{
    let lines = bstr::split(table, LINE_FEED);
    let ghost all = bstr::views(lines@);
    let mut paths: Vec<Vec<u8>> = Vec::new();
    let mut index: usize = 0;
    assert(bstr::views(paths@) =~= trusted_in(all, 0));
    while index < lines.len()
        invariant
            all == bstr::views(lines@),
            all.len() == lines@.len(),
            index <= lines@.len(),
            bstr::views(paths@) == trusted_in(all, index as int),
        decreases lines@.len() - index,
    {
        assert(all[index as int] == lines@[index as int]@);
        if let Some(path) = trusted_line(lines[index].as_slice()) {
            paths.push(path);
        }
        index += 1;
    }
    paths
}

/// All devices are known, and each is among the trusted ones. There has to be one.
pub open spec fn trustworthy(devices: Seq<Option<u64>>, trusted: Seq<Option<u64>>) -> bool {
    &&& devices.len() > 0
    &&& forall|at: int|
        0 <= at < devices.len() ==> (#[trigger] devices[at]) is Some && trusted.contains(
            devices[at],
        )
}

fn holds_device(list: &Vec<Option<u64>>, device: u64) -> (found: bool)
    ensures
        found == list@.contains(Some(device)),
{
    let mut index: usize = 0;
    while index < list.len()
        invariant
            index <= list@.len(),
            forall|at: int| 0 <= at < index ==> list@[at] != Some(device),
        decreases list@.len() - index,
    {
        if let Some(other) = list[index] {
            if other == device {
                assert(list@[index as int] == Some(device));
                return true;
            }
        }
        index += 1;
    }
    false
}

/// Files are on file systems that report changes reliably. `devices` are those of the files, and
/// `trusted` those of the trusted mount points; `None` stands for one that cannot be found out.
pub fn filesystems_are_trustworthy(devices: &Vec<Option<u64>>, trusted: &Vec<Option<u64>>) -> (yes:
    bool)
    ensures
        yes == trustworthy(devices@, trusted@),
{
    if devices.len() == 0 {
        return false;
    }
    let mut index: usize = 0;
    while index < devices.len()
        invariant
            index <= devices@.len(),
            forall|at: int|
                0 <= at < index ==> (#[trigger] devices@[at]) is Some && trusted@.contains(
                    devices@[at],
                ),
        decreases devices@.len() - index,
    {
        match devices[index] {
            Some(device) => {
                if !holds_device(trusted, device) {
                    assert(!trusted@.contains(devices@[index as int]));
                    return false;
                }
            },
            None => {
                assert(devices@[index as int] is None);
                return false;
            },
        }
        index += 1;
    }
    true
}

/// How the mount table writes a path: white space and backslashes as three octal digits behind a
/// backslash.
pub open spec fn mount_text(path: Seq<u8>) -> Seq<u8>
    decreases path.len(),
{
    if path.len() == 0 {
        Seq::empty()
    } else {
        let byte = path[0];
        (if byte == 0x20 || byte == 0x09 || byte == 0x0a || byte == 0x5c {
            seq![
                0x5cu8,
                (0x30 + byte / 64) as u8,
                (0x30 + byte / 8 % 8) as u8,
                (0x30 + byte % 8) as u8,
            ]
        } else {
            seq![byte]
        }) + mount_text(path.skip(1))
    }
}

proof fn lemma_decoded_mount(before: Seq<u8>, path: Seq<u8>)
    ensures
        decoded_mount(before + mount_text(path), before.len() as int) == path,
    decreases path.len(),
{
    let text = before + mount_text(path);
    let index = before.len() as int;
    if path.len() == 0 {
        assert(text =~= before);
        assert(path =~= Seq::empty());
    } else {
        let byte = path[0];
        let rest = mount_text(path.skip(1));
        let piece = if byte == 0x20 || byte == 0x09 || byte == 0x0a || byte == 0x5c {
            seq![
                0x5cu8,
                (0x30 + byte / 64) as u8,
                (0x30 + byte / 8 % 8) as u8,
                (0x30 + byte % 8) as u8,
            ]
        } else {
            seq![byte]
        };
        lemma_decoded_mount(before + piece, path.skip(1));
        assert(before + piece + rest =~= text);
        assert(text[index] == piece[0]);
        assert(seq![byte] + path.skip(1) =~= path);
        if piece.len() == 4 {
            assert(text[index + 1] == piece[1] && text[index + 2] == piece[2] && text[index + 3]
                == piece[3]);
            assert(escaped_at(text, index));
        } else {
            assert(!escaped_at(text, index));
        }
    }
}

/// A mount point is read from the mount table as the path that it is.
pub proof fn law_mount_points_are_read(path: Seq<u8>)
    ensures
        decoded_mount(mount_text(path), 0) == path,
{
    lemma_decoded_mount(Seq::empty(), path);
    assert(Seq::<u8>::empty() + mount_text(path) =~= mount_text(path));
}

proof fn lemma_dash_from(fields: Seq<Seq<u8>>, from: int, dash: int)
    requires
        0 <= from <= dash < fields.len(),
        fields[dash] == bstr::utf8("-"@),
        forall|at: int| from <= at < dash ==> #[trigger] fields[at] != bstr::utf8("-"@),
    ensures
        dash_from(fields, from) == dash,
    decreases dash - from,
{
    if from < dash {
        lemma_dash_from(fields, from + 1, dash);
    }
}

/// A line of the mount table names a trusted mount point exactly where the kind of file system,
/// which stands behind the first hyphen, is `ext4`, `xfs`, `btrfs` or `apfs`. The mount point is the
/// fifth field.
pub proof fn law_trusted_file_systems(fields: Seq<Seq<u8>>, dash: int, path: Seq<u8>)
    requires
        6 <= dash,
        dash + 1 < fields.len(),
        fields[dash] == bstr::utf8("-"@),
        forall|at: int| 0 <= at < dash ==> #[trigger] fields[at] != bstr::utf8("-"@),
        forall|field: int, at: int|
            0 <= field < fields.len() && 0 <= at < fields[field].len()
                ==> #[trigger] fields[field][at] != 0x20,
        fields[4] == mount_text(path),
    ensures
        ({
            let kind = fields[dash + 1];
            trusted_mount(bstr::joined(fields, 0x20)) == (if kind == bstr::utf8("ext4"@) || kind
                == bstr::utf8("xfs"@) || kind == bstr::utf8("btrfs"@) || kind == bstr::utf8(
                "apfs"@,
            ) {
                Some(path)
            } else {
                None
            })
        }),
{
    bstr::law_pieces_are_the_joined_parts(fields, 0x20);
    lemma_dash_from(fields, 0, dash);
    law_mount_points_are_read(path);
}

/// The trusted mount points are those of the trusted lines, in the order of the table.
pub proof fn law_every_trusted_line_counts(lines: Seq<Seq<u8>>, count: int, line: int)
    requires
        0 <= line < count <= lines.len(),
    ensures
        trusted_mount(lines[line]) matches Some(path) ==> trusted_in(lines, count).contains(path),
        forall|at: int|
            0 <= at < trusted_in(lines, count).len() ==> exists|from: int|
                0 <= from < count && trusted_mount(#[trigger] lines[from]) == Some(
                    #[trigger] trusted_in(lines, count)[at],
                ),
    decreases count,
{
    let before = trusted_in(lines, count - 1);
    let all = trusted_in(lines, count);
    if count > 1 {
        if line < count - 1 {
            law_every_trusted_line_counts(lines, count - 1, line);
        } else {
            law_every_trusted_line_counts(lines, count - 1, 0);
        }
    } else {
        assert(before =~= Seq::empty());
    }
    if let Some(path) = trusted_mount(lines[line]) {
        if line < count - 1 {
            let at = choose|at: int| 0 <= at < before.len() && before[at] == path;
            assert(all[at] == path);
        } else {
            assert(all[before.len() as int] == path);
        }
    }
    assert forall|at: int| 0 <= at < all.len() implies exists|from: int|
        0 <= from < count && trusted_mount(#[trigger] lines[from]) == Some(#[trigger] all[at]) by {
        if at < before.len() {
            assert(all[at] == before[at]);
            let from = choose|from: int|
                0 <= from < count - 1 && trusted_mount(#[trigger] lines[from]) == Some(
                    #[trigger] before[at],
                );
            assert(trusted_mount(lines[from]) == Some(all[at]));
        } else {
            assert(trusted_mount(lines[count - 1]) == Some(all[at]));
        }
    }
}

} // verus!
