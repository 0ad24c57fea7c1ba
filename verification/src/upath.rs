//! Paths as byte strings, with the component rules of Unix paths.
//!
//! A path is split at `/`. Empty pieces and `.` pieces carry no meaning, except for a leading `/`,
//! which makes the path absolute, and a leading `.`, which is kept. Two paths are the same when
//! their components are.
use vstd::prelude::*;

use crate::bstr;

verus! {

/// The separator `/`.
pub const SLASH: u8 = 0x2f;

/// The byte `.`.
pub const DOT: u8 = 0x2e;

/// The index of the first `/`, or the length when there is none.
pub open spec fn first_slash(path: Seq<u8>) -> nat
    decreases path.len(),
{
    if path.len() == 0 || path[0] == SLASH {
        0
    } else {
        1 + first_slash(path.skip(1))
    }
}

/// The component that a piece between separators stands for, if any.
pub open spec fn kept(piece: Seq<u8>) -> Seq<Seq<u8>> {
    if piece.len() == 0 || piece == seq![DOT] {
        Seq::empty()
    } else {
        seq![piece]
    }
}

/// The components of the pieces of a path.
pub open spec fn names(path: Seq<u8>) -> Seq<Seq<u8>>
    decreases path.len(),
{
    let end = first_slash(path);
    if end >= path.len() {
        kept(path)
    } else {
        kept(path.take(end as int)) + names(path.skip(end as int + 1))
    }
}

/// The leading component that is not a name: `/` of an absolute path, `.` where a relative path
/// starts with it.
pub open spec fn lead(path: Seq<u8>) -> Seq<Seq<u8>> {
    if absolute(path) {
        seq![seq![SLASH]]
    } else if path.len() > 0 && path.take(first_slash(path) as int) == seq![DOT] {
        seq![seq![DOT]]
    } else {
        Seq::empty()
    }
}

/// The components of a path.
pub open spec fn components_of(path: Seq<u8>) -> Seq<Seq<u8>> {
    lead(path) + names(path)
}

/// The path starts at the root.
pub open spec fn absolute(path: Seq<u8>) -> bool {
    path.len() > 0 && path[0] == SLASH
}

/// Two paths have the same components.
pub open spec fn same_path(left: Seq<u8>, right: Seq<u8>) -> bool {
    components_of(left) == components_of(right)
}

/// `path` seen from `base`: `path` itself where it is absolute.
pub open spec fn joined(base: Seq<u8>, path: Seq<u8>) -> Seq<u8> {
    if absolute(path) {
        path
    } else if base.len() == 0 || base.last() == SLASH {
        base + path
    } else {
        base.push(SLASH) + path
    }
}

/// The path without trailing separators and trailing `.` pieces.
pub open spec fn trimmed(path: Seq<u8>) -> Seq<u8>
    decreases path.len(),
{
    if path.len() >= 2 && path.last() == SLASH {
        trimmed(path.drop_last())
    } else if path.len() >= 2 && path.last() == DOT && path[path.len() - 2] == SLASH {
        trimmed(path.drop_last())
    } else {
        path
    }
}

/// The number of bytes up to and with the last `/`.
pub open spec fn after_last_slash(path: Seq<u8>) -> nat
    decreases path.len(),
{
    if path.len() == 0 {
        0
    } else if path.last() == SLASH {
        path.len()
    } else {
        after_last_slash(path.drop_last())
    }
}

/// The path without its last component. The root and the empty path have no parent.
pub open spec fn parent_of(path: Seq<u8>) -> Option<Seq<u8>> {
    let whole = trimmed(path);
    if whole.len() == 0 || whole == seq![SLASH] {
        None
    } else {
        Some(trimmed(whole.take(after_last_slash(whole) as int)))
    }
}

/// The last component of a path, where it is a name.
pub open spec fn file_name_of(path: Seq<u8>) -> Option<Seq<u8>> {
    let whole = trimmed(path);
    let name = whole.skip(after_last_slash(whole) as int);
    if name.len() == 0 || name == seq![DOT] || name == seq![DOT, DOT] {
        None
    } else {
        Some(name)
    }
}

/// The index of the last `.`, where there is one.
pub open spec fn last_dot(name: Seq<u8>) -> Option<nat>
    decreases name.len(),
{
    if name.len() == 0 {
        None
    } else if name.last() == DOT {
        Some((name.len() - 1) as nat)
    } else {
        last_dot(name.drop_last())
    }
}

/// What follows the last `.` of the file name, unless the name starts there.
pub open spec fn extension_of(path: Seq<u8>) -> Option<Seq<u8>> {
    match file_name_of(path) {
        None => None,
        Some(name) => match last_dot(name) {
            None => None,
            Some(dot) => if dot == 0 {
                None
            } else {
                Some(name.skip(dot as int + 1))
            },
        },
    }
}

/// The length of the file name without its extension.
pub open spec fn stem_len(name: Seq<u8>) -> nat {
    match last_dot(name) {
        None => name.len(),
        Some(dot) => if dot == 0 {
            name.len()
        } else {
            dot
        },
    }
}

/// The path with the extension of its file name replaced. A path without a file name is unchanged.
pub open spec fn with_extension_of(path: Seq<u8>, extension: Seq<u8>) -> Seq<u8> {
    match file_name_of(path) {
        None => path,
        Some(name) => path.take(trimmed(path).len() - name.len() + stem_len(name)).push(DOT)
            + extension,
    }
}

/// The components left when `..` removes the component before it and `.` is dropped.
pub open spec fn resolved(components: Seq<Seq<u8>>) -> Seq<Seq<u8>>
    decreases components.len(),
{
    if components.len() == 0 {
        Seq::empty()
    } else {
        let stack = resolved(components.drop_last());
        let last = components.last();
        if last == seq![DOT] {
            stack
        } else if last == seq![DOT, DOT] {
            if stack.len() == 0 || stack.last() == seq![SLASH] {
                stack
            } else {
                stack.drop_last()
            }
        } else {
            stack.push(last)
        }
    }
}

/// The path made of components, each seen from those before it.
pub open spec fn rendered(components: Seq<Seq<u8>>) -> Seq<u8>
    decreases components.len(),
{
    if components.len() == 0 {
        Seq::empty()
    } else {
        joined(rendered(components.drop_last()), components.last())
    }
}

/// The path with `.` and `..` resolved by its text alone.
pub open spec fn normalized_of(path: Seq<u8>) -> Seq<u8> {
    rendered(resolved(components_of(path)))
}

/// What follows the first piece of a path and its separator.
pub open spec fn after_piece(body: Seq<u8>) -> Seq<u8> {
    let end = first_slash(body);
    if end >= body.len() {
        Seq::empty()
    } else {
        body.skip(end as int + 1)
    }
}

/// The first piece of a path.
pub open spec fn piece(body: Seq<u8>) -> Seq<u8> {
    let end = first_slash(body);
    if end >= body.len() {
        body
    } else {
        body.take(end as int)
    }
}

/// The pieces of a path from the one that follows `count` names on.
pub open spec fn after_names(body: Seq<u8>, count: int) -> Seq<u8>
    decreases body.len(),
{
    if body.len() == 0 {
        body
    } else if kept(piece(body)).len() == 0 {
        after_names(after_piece(body), count)
    } else if count > 0 {
        after_names(after_piece(body), count - 1)
    } else {
        body
    }
}

/// What follows the first `count` components of a path.
pub open spec fn after_components(path: Seq<u8>, count: int) -> Seq<u8> {
    if count <= 0 {
        trimmed(path)
    } else if lead(path).len() > 0 {
        trimmed(after_names(path.skip(1), count - 1))
    } else {
        trimmed(after_names(path, count))
    }
}

/// What follows `base` in a path that starts with the components of `base`.
pub open spec fn stripped(path: Seq<u8>, base: Seq<u8>) -> Option<Seq<u8>> {
    let above = components_of(base);
    let whole = components_of(path);
    if above.len() <= whole.len() && whole.take(above.len() as int) == above {
        Some(after_components(path, above.len() as int))
    } else {
        None
    }
}

/// Some path of a list has the components of `path`.
pub open spec fn lists(paths: Seq<Seq<u8>>, path: Seq<u8>) -> bool {
    exists|at: int| 0 <= at < paths.len() && same_path(#[trigger] paths[at], path)
}

proof fn lemma_first_slash(path: Seq<u8>, end: int)
    requires
        0 <= end <= path.len(),
        forall|at: int| 0 <= at < end ==> path[at] != SLASH,
        end < path.len() ==> path[end] == SLASH,
    ensures
        first_slash(path) == end,
    decreases path.len(),
{
    if path.len() > 0 && path[0] != SLASH {
        assert forall|at: int| 0 <= at < end - 1 implies path.skip(1)[at] != SLASH by {
            assert(path.skip(1)[at] == path[at + 1]);
        }
        lemma_first_slash(path.skip(1), end - 1);
    }
}

/// The path starts at the root.
pub fn is_absolute(path: &[u8]) -> (yes: bool)
    ensures
        yes == absolute(path@),
{
    path.len() > 0 && path[0] == SLASH
}

/// `path` seen from `base`.
pub fn join(base: &[u8], path: &[u8]) -> (result: Vec<u8>)
    ensures
        result@ == joined(base@, path@),
{
    if is_absolute(path) {
        return bstr::copy(path);
    }
    let mut result = bstr::copy(base);
    if base.len() > 0 && base[base.len() - 1] != SLASH {
        result.push(SLASH);
    }
    bstr::append(&mut result, path);
    result
}

/// The components of a path.
pub fn components(path: &[u8]) -> (result: Vec<Vec<u8>>)
    ensures
        bstr::views(result@) == components_of(path@),
{
    let mut result: Vec<Vec<u8>> = Vec::new();
    let mut start: usize = 0;
    let mut index: usize = 0;
    if is_absolute(path) {
        let mut root: Vec<u8> = Vec::new();
        root.push(SLASH);
        assert(root@ =~= seq![SLASH]);
        result.push(root);
    } else if path.len() > 0 && path[0] == DOT && (path.len() == 1 || path[1] == SLASH) {
        let mut current: Vec<u8> = Vec::new();
        current.push(DOT);
        assert(current@ =~= seq![DOT]);
        proof {
            lemma_first_slash(path@, 1);
            assert(path@.take(1) =~= seq![DOT]);
        }
        result.push(current);
    } else {
        proof {
            if path@.len() > 0 && path@.take(first_slash(path@) as int) == seq![DOT] {
                let end = first_slash(path@) as int;
                assert(path@.take(end)[0] == DOT);
                assert(path@.take(end).len() == 1);
                lemma_first_slash_bound(path@);
                assert(end == 1);
                assert(false);
            }
        }
    }
    assert(bstr::views(result@) =~= lead(path@));
    assert(path@.skip(0) =~= path@);
    while index < path.len()
        invariant
            start <= index <= path.len(),
            bstr::views(result@) + names(path@.skip(start as int)) == components_of(path@),
            forall|at: int| start <= at < index ==> path@[at] != SLASH,
        decreases path.len() - index,
    {
        if path[index] == SLASH {
            let piece = bstr::skip(bstr::take(path, index), start);
            proof {
                let rest = path@.skip(start as int);
                lemma_first_slash(rest, index - start);
                assert(rest.take(index - start) =~= piece@);
                assert(rest.skip(index - start + 1) =~= path@.skip(index + 1));
            }
            let ghost before = bstr::views(result@);
            push_kept(&mut result, piece);
            assert(bstr::views(result@) + names(path@.skip(index + 1)) =~= before + names(
                path@.skip(start as int),
            ));
            start = index + 1;
        }
        index += 1;
    }
    let piece = bstr::skip(path, start);
    proof {
        lemma_first_slash(piece@, piece@.len() as int);
    }
    push_kept(&mut result, piece);
    result
}

proof fn lemma_first_slash_bound(path: Seq<u8>)
    ensures
        first_slash(path) <= path.len(),
        first_slash(path) < path.len() ==> path[first_slash(path) as int] == SLASH,
        forall|at: int| 0 <= at < first_slash(path) ==> path[at] != SLASH,
    decreases path.len(),
{
    if path.len() > 0 && path[0] != SLASH {
        lemma_first_slash_bound(path.skip(1));
        assert forall|at: int| 0 <= at < first_slash(path) implies path[at] != SLASH by {
            if at > 0 {
                assert(path.skip(1)[at - 1] == path[at]);
            }
        }
    }
}

fn push_kept(list: &mut Vec<Vec<u8>>, piece: &[u8])
    ensures
        bstr::views(final(list)@) == bstr::views(old(list)@) + kept(piece@),
{
    let ghost start = list@;
    if piece.len() == 0 {
        assert(bstr::views(list@) =~= bstr::views(start) + kept(piece@));
        return ;
    }
    if piece.len() == 1 && piece[0] == DOT {
        assert(piece@ =~= seq![DOT]);
        assert(bstr::views(list@) =~= bstr::views(start) + kept(piece@));
        return ;
    }
    let item = bstr::copy(piece);
    assert(piece@ != seq![DOT]) by {
        if piece@ == seq![DOT] {
            assert(piece@.len() == 1);
            assert(piece@[0] == DOT);
        }
    }
    list.push(item);
    assert(bstr::views(list@) =~= bstr::views(start) + kept(piece@));
}

/// Two lists of byte strings have the same contents.
pub fn same_list(left: &Vec<Vec<u8>>, right: &Vec<Vec<u8>>) -> (equal: bool)
    ensures
        equal == (bstr::views(left@) == bstr::views(right@)),
{
    if left.len() != right.len() {
        assert(bstr::views(left@).len() != bstr::views(right@).len());
        return false;
    }
    let mut index: usize = 0;
    while index < left.len()
        invariant
            left.len() == right.len(),
            index <= left.len(),
            forall|at: int| 0 <= at < index ==> left@[at]@ == right@[at]@,
        decreases left.len() - index,
    {
        if !bstr::same(left[index].as_slice(), right[index].as_slice()) {
            assert(bstr::views(left@)[index as int] != bstr::views(right@)[index as int]);
            return false;
        }
        index += 1;
    }
    assert(bstr::views(left@) =~= bstr::views(right@));
    true
}

/// Two paths have the same components.
pub fn same(left: &[u8], right: &[u8]) -> (equal: bool)
    ensures
        equal == same_path(left@, right@),
{
    let left_components = components(left);
    let right_components = components(right);
    same_list(&left_components, &right_components)
}

/// The length of the path without trailing separators and trailing `.` pieces.
fn trimmed_len(path: &[u8]) -> (length: usize)
    ensures
        length <= path@.len(),
        path@.take(length as int) == trimmed(path@),
{
    let mut length: usize = path.len();
    assert(path@.take(length as int) =~= path@);
    while length >= 2 && (path[length - 1] == SLASH || (path[length - 1] == DOT && path[length - 2]
        == SLASH))
        invariant
            length <= path@.len(),
            trimmed(path@.take(length as int)) == trimmed(path@),
        decreases length,
    {
        assert(path@.take(length as int).drop_last() =~= path@.take(length - 1));
        assert(path@.take(length as int).last() == path@[length - 1]);
        length -= 1;
    }
    proof {
        let rest = path@.take(length as int);
        if length >= 2 {
            assert(rest.last() == path@[length - 1]);
            assert(rest[length - 2] == path@[length - 2]);
        }
    }
    length
}

proof fn lemma_after_last_slash_bound(path: Seq<u8>)
    ensures
        after_last_slash(path) <= path.len(),
    decreases path.len(),
{
    if path.len() > 0 && path.last() != SLASH {
        lemma_after_last_slash_bound(path.drop_last());
    }
}

fn name_start(path: &[u8]) -> (start: usize)
    ensures
        start == after_last_slash(path@),
        start <= path@.len(),
{
    let mut start: usize = path.len();
    assert(path@.take(start as int) =~= path@);
    while start > 0 && path[start - 1] != SLASH
        invariant
            start <= path@.len(),
            after_last_slash(path@.take(start as int)) == after_last_slash(path@),
        decreases start,
    {
        assert(path@.take(start as int).drop_last() =~= path@.take(start - 1));
        assert(path@.take(start as int).last() == path@[start - 1]);
        start -= 1;
    }
    proof {
        if start > 0 {
            assert(path@.take(start as int).last() == path@[start - 1]);
        }
    }
    start
}

/// The path without its last component.
pub fn parent(path: &[u8]) -> (result: Option<Vec<u8>>)
    ensures
        bstr::opt_view(result) == parent_of(path@),
{
    let length = trimmed_len(path);
    let whole = bstr::take(path, length);
    if whole.len() == 0 {
        return None;
    }
    if whole.len() == 1 && whole[0] == SLASH {
        assert(whole@ =~= seq![SLASH]);
        return None;
    }
    assert(whole@ != seq![SLASH]) by {
        if whole@ == seq![SLASH] {
            assert(whole@.len() == 1 && whole@[0] == SLASH);
        }
    }
    let start = name_start(whole);
    let above = bstr::take(whole, start);
    let above_len = trimmed_len(above);
    Some(bstr::copy(bstr::take(above, above_len)))
}

/// The last component of a path, where it is a name.
pub fn file_name(path: &[u8]) -> (result: Option<Vec<u8>>)
    ensures
        bstr::opt_view(result) == file_name_of(path@),
{
    let length = trimmed_len(path);
    let whole = bstr::take(path, length);
    let start = name_start(whole);
    let name = bstr::skip(whole, start);
    if name.len() == 0 {
        return None;
    }
    if name.len() == 1 && name[0] == DOT {
        assert(name@ =~= seq![DOT]);
        return None;
    }
    if name.len() == 2 && name[0] == DOT && name[1] == DOT {
        assert(name@ =~= seq![DOT, DOT]);
        return None;
    }
    assert(name@ != seq![DOT]) by {
        if name@ == seq![DOT] {
            assert(name@.len() == 1 && name@[0] == DOT);
        }
    }
    assert(name@ != seq![DOT, DOT]) by {
        if name@ == seq![DOT, DOT] {
            assert(name@.len() == 2 && name@[0] == DOT && name@[1] == DOT);
        }
    }
    Some(bstr::copy(name))
}

fn find_last_dot(name: &[u8]) -> (dot: Option<usize>)
    ensures
        match dot {
            Some(index) => last_dot(name@) == Some(index as nat) && index < name.len(),
            None => last_dot(name@) is None,
        },
{
    let mut end: usize = name.len();
    assert(name@.take(end as int) =~= name@);
    while end > 0
        invariant
            end <= name@.len(),
            last_dot(name@.take(end as int)) == last_dot(name@),
        decreases end,
    {
        assert(name@.take(end as int).drop_last() =~= name@.take(end - 1));
        assert(name@.take(end as int).last() == name@[end - 1]);
        if name[end - 1] == DOT {
            return Some(end - 1);
        }
        end -= 1;
    }
    None
}

/// What follows the last `.` of the file name, unless the name starts there.
pub fn extension(path: &[u8]) -> (result: Option<Vec<u8>>)
    ensures
        bstr::opt_view(result) == extension_of(path@),
{
    match file_name(path) {
        None => None,
        Some(name) => match find_last_dot(name.as_slice()) {
            None => None,
            Some(dot) => if dot == 0 {
                None
            } else {
                Some(bstr::copy(bstr::skip(name.as_slice(), dot + 1)))
            },
        },
    }
}

/// The path with the extension of its file name replaced.
pub fn with_extension(path: &[u8], extension: &str) -> (result: Vec<u8>)
    ensures
        result@ == with_extension_of(path@, bstr::utf8(extension@)),
{
    match file_name(path) {
        None => bstr::copy(path),
        Some(name) => {
            let whole = trimmed_len(path);
            assert(trimmed(path@).len() == whole);
            proof {
                lemma_after_last_slash_bound(trimmed(path@));
            }
            let stem: usize = match find_last_dot(name.as_slice()) {
                None => name.len(),
                Some(dot) => if dot == 0 {
                    name.len()
                } else {
                    dot
                },
            };
            let mut result = bstr::copy(bstr::take(path, whole - name.len() + stem));
            result.push(DOT);
            bstr::append_str(&mut result, extension);
            result
        },
    }
}

/// The path with `.` and `..` resolved by its text alone.
pub fn normalize(path: &[u8]) -> (result: Vec<u8>)
    ensures
        result@ == normalized_of(path@),
{
    let parts = components(path);
    let mut stack: Vec<Vec<u8>> = Vec::new();
    let mut index: usize = 0;
    assert(bstr::views(stack@) =~= resolved(bstr::views(parts@).take(0)));
    while index < parts.len()
        invariant
            index <= parts.len(),
            bstr::views(stack@) == resolved(bstr::views(parts@).take(index as int)),
        decreases parts.len() - index,
    {
        let ghost seen = bstr::views(parts@).take(index + 1);
        let part = bstr::copy(parts[index].as_slice());
        let ghost before = stack@;
        assert(seen.drop_last() =~= bstr::views(parts@).take(index as int));
        assert(seen.last() == part@);
        if part.len() == 1 && part[0] == DOT {
            assert(part@ =~= seq![DOT]);
        } else if part.len() == 2 && part[0] == DOT && part[1] == DOT {
            assert(part@ =~= seq![DOT, DOT]);
            assert(part@ != seq![DOT]) by {
                assert(seq![DOT].len() == 1);
            }
            if stack.len() > 0 {
                let last = &stack[stack.len() - 1];
                let at_root = last.len() == 1 && last[0] == SLASH;
                assert(at_root == (last@ == seq![SLASH])) by {
                    if at_root {
                        assert(last@ =~= seq![SLASH]);
                    } else if last@ == seq![SLASH] {
                        assert(last@.len() == 1 && last@[0] == SLASH);
                    }
                }
                assert(bstr::views(before).last() == last@);
                if !at_root {
                    let _ = stack.pop();
                    assert(bstr::views(stack@) =~= bstr::views(before).drop_last());
                }
            }
        } else {
            assert(part@ != seq![DOT] && part@ != seq![DOT, DOT]) by {
                if part@ == seq![DOT] {
                    assert(part@.len() == 1 && part@[0] == DOT);
                }
                if part@ == seq![DOT, DOT] {
                    assert(part@.len() == 2 && part@[0] == DOT && part@[1] == DOT);
                }
            }
            proof {
                bstr::lemma_views_push(stack@, part);
            }
            stack.push(part);
        }
        index += 1;
    }
    assert(bstr::views(parts@).take(index as int) =~= bstr::views(parts@));
    let mut result: Vec<u8> = Vec::new();
    let mut depth: usize = 0;
    assert(bstr::views(stack@).take(0) =~= Seq::<Seq<u8>>::empty());
    assert(result@ =~= rendered(bstr::views(stack@).take(0)));
    while depth < stack.len()
        invariant
            depth <= stack.len(),
            result@ == rendered(bstr::views(stack@).take(depth as int)),
        decreases stack.len() - depth,
    {
        let ghost seen = bstr::views(stack@).take(depth + 1);
        assert(seen.drop_last() =~= bstr::views(stack@).take(depth as int));
        assert(seen.last() == stack@[depth as int]@);
        result = join(result.as_slice(), stack[depth].as_slice());
        depth += 1;
    }
    assert(bstr::views(stack@).take(depth as int) =~= bstr::views(stack@));
    result
}

/// The index of the first separator, or the length when there is none.
fn find_slash(body: &[u8]) -> (end: usize)
    ensures
        end == first_slash(body@),
        end <= body@.len(),
{
    match bstr::find(body, SLASH) {
        Some(end) => {
            proof {
                lemma_first_slash(body@, end as int);
            }
            end
        },
        None => {
            proof {
                assert forall|at: int| 0 <= at < body@.len() implies body@[at] != SLASH by {
                    if body@[at] == SLASH {
                        assert(body@.contains(SLASH));
                    }
                }
                lemma_first_slash(body@, body@.len() as int);
            }
            body.len()
        },
    }
}

/// The pieces of a path from the one that follows `count` names on.
fn skip_names(body: &[u8], count: usize) -> (rest: &[u8])
    ensures
        rest@ == after_names(body@, count as int),
{
    let mut rest = body;
    let mut left: usize = count;
    while rest.len() > 0
        invariant
            after_names(rest@, left as int) == after_names(body@, count as int),
        ensures
            rest@ == after_names(body@, count as int),
        decreases rest@.len(),
    {
        let end = find_slash(rest);
        let first = bstr::take(rest, end);
        let empty = first.len() == 0 || (first.len() == 1 && first[0] == DOT);
        let next = if end < rest.len() {
            bstr::skip(rest, end + 1)
        } else {
            bstr::skip(rest, rest.len())
        };
        proof {
            if end >= rest@.len() {
                assert(first@ =~= rest@);
                assert(next@ =~= Seq::<u8>::empty());
            }
            assert(first@ == piece(rest@));
            assert(next@ == after_piece(rest@));
            if empty {
                if first@.len() == 1 {
                    assert(first@ =~= seq![DOT]);
                }
            } else {
                if first@ == seq![DOT] {
                    assert(first@.len() == 1 && first@[0] == DOT);
                }
            }
        }
        if !empty {
            if left == 0 {
                break;
            }
            left -= 1;
        }
        rest = next;
    }
    rest
}

/// What follows `base` in a path that starts with the components of `base`.
pub fn strip_prefix(path: &[u8], base: &[u8]) -> (rest: Option<Vec<u8>>)
    ensures
        bstr::opt_view(rest) == stripped(path@, base@),
{
    let above = components(base);
    let whole = components(path);
    if above.len() > whole.len() {
        return None;
    }
    let mut index: usize = 0;
    while index < above.len()
        invariant
            index <= above.len() <= whole.len(),
            bstr::views(above@) == components_of(base@),
            bstr::views(whole@) == components_of(path@),
            forall|at: int| 0 <= at < index ==> above@[at]@ == whole@[at]@,
        decreases above.len() - index,
    {
        if !bstr::same(above[index].as_slice(), whole[index].as_slice()) {
            assert(components_of(path@).take(above@.len() as int)[index as int]
                == whole@[index as int]@);
            assert(components_of(base@)[index as int] == above@[index as int]@);
            return None;
        }
        index += 1;
    }
    assert(components_of(path@).take(above@.len() as int) =~= components_of(base@));
    if above.len() == 0 {
        let length = trimmed_len(path);
        return Some(bstr::copy(bstr::take(path, length)));
    }
    let led = path.len() > 0 && (path[0] == SLASH || (path[0] == DOT && (path.len() == 1 || path[1]
        == SLASH)));
    proof {
        lemma_led(path@);
    }
    let body = if led {
        skip_names(bstr::skip(path, 1), above.len() - 1)
    } else {
        skip_names(path, above.len())
    };
    let length = trimmed_len(body);
    Some(bstr::copy(bstr::take(body, length)))
}

proof fn lemma_led(path: Seq<u8>)
    ensures
        (lead(path).len() > 0) == (path.len() > 0 && (path[0] == SLASH || (path[0] == DOT && (
        path.len() == 1 || path[1] == SLASH)))),
{
    lemma_first_slash_bound(path);
    if path.len() > 0 && path[0] == DOT && (path.len() == 1 || path[1] == SLASH) {
        lemma_first_slash(path, 1);
        assert(path.take(1) =~= seq![DOT]);
    }
    if !absolute(path) && path.len() > 0 && path.take(first_slash(path) as int) == seq![DOT] {
        assert(path.take(first_slash(path) as int)[0] == DOT);
        assert(path.take(first_slash(path) as int).len() == 1);
    }
}

/// Some path of a list has the components of `path`.
pub fn contains(paths: &Vec<Vec<u8>>, path: &[u8]) -> (found: bool)
    ensures
        found == lists(bstr::views(paths@), path@),
{
    let mut index: usize = 0;
    while index < paths.len()
        invariant
            index <= paths.len(),
            forall|at: int| 0 <= at < index ==> !same_path(#[trigger] paths@[at]@, path@),
        decreases paths.len() - index,
    {
        if same(paths[index].as_slice(), path) {
            assert(same_path(bstr::views(paths@)[index as int], path@));
            return true;
        }
        index += 1;
    }
    assert forall|at: int| 0 <= at < paths@.len() implies !same_path(
        #[trigger] bstr::views(paths@)[at],
        path@,
    ) by {
        assert(bstr::views(paths@)[at] == paths@[at]@);
    }
    false
}

/// What a component is: the root, the working directory, a parent or a name.
pub open spec fn rank(component: Seq<u8>) -> int {
    if component == seq![SLASH] {
        0
    } else if component == seq![DOT] {
        1
    } else if component == seq![DOT, DOT] {
        2
    } else {
        3
    }
}

/// The order of components: names come last, by their bytes.
pub open spec fn component_before(left: Seq<u8>, right: Seq<u8>) -> bool {
    rank(left) < rank(right) || (rank(left) == 3 && rank(right) == 3 && bstr::before(left, right))
}

/// The lexicographic order of lists of components.
pub open spec fn list_before(left: Seq<Seq<u8>>, right: Seq<Seq<u8>>) -> bool
    decreases left.len(),
{
    if right.len() == 0 {
        false
    } else if left.len() == 0 {
        true
    } else if left[0] != right[0] {
        component_before(left[0], right[0])
    } else {
        list_before(left.skip(1), right.skip(1))
    }
}

/// The order of paths: by their components.
pub open spec fn path_before(left: Seq<u8>, right: Seq<u8>) -> bool {
    list_before(components_of(left), components_of(right))
}

fn rank_of(component: &[u8]) -> (number: u8)
    ensures
        number == rank(component@),
{
    proof {
        assert(seq![SLASH].len() == 1 && seq![DOT].len() == 1 && seq![DOT, DOT].len() == 2);
        if component@.len() == 1 {
            assert(component@ =~= seq![component@[0]]);
            assert(component@ == seq![SLASH] ==> component@[0] == seq![SLASH][0]);
            assert(component@ == seq![DOT] ==> component@[0] == seq![DOT][0]);
        }
        if component@.len() == 2 {
            assert(component@ =~= seq![component@[0], component@[1]]);
            assert(component@ == seq![DOT, DOT] ==> component@[0] == seq![DOT, DOT][0]
                && component@[1] == seq![DOT, DOT][1]);
        }
    }
    if component.len() == 1 && component[0] == SLASH {
        0
    } else if component.len() == 1 && component[0] == DOT {
        1
    } else if component.len() == 2 && component[0] == DOT && component[1] == DOT {
        2
    } else {
        3
    }
}

fn component_less(left: &[u8], right: &[u8]) -> (yes: bool)
    ensures
        yes == component_before(left@, right@),
{
    let left_rank = rank_of(left);
    let right_rank = rank_of(right);
    left_rank < right_rank || (left_rank == 3 && right_rank == 3 && bstr::less(left, right))
}

/// The order of paths.
pub fn less(left: &[u8], right: &[u8]) -> (yes: bool)
    ensures
        yes == path_before(left@, right@),
{
    let first = components(left);
    let second = components(right);
    let ghost left_all = bstr::views(first@);
    let ghost right_all = bstr::views(second@);
    let mut index: usize = 0;
    assert(left_all.skip(0) =~= left_all);
    assert(right_all.skip(0) =~= right_all);
    while index < first.len() && index < second.len()
        invariant
            index <= first.len(),
            index <= second.len(),
            left_all == bstr::views(first@),
            right_all == bstr::views(second@),
            left_all == components_of(left@),
            right_all == components_of(right@),
            list_before(left_all, right_all) == list_before(
                left_all.skip(index as int),
                right_all.skip(index as int),
            ),
        decreases first.len() - index,
    {
        let ghost rest = left_all.skip(index as int);
        let ghost other = right_all.skip(index as int);
        assert(rest[0] == first@[index as int]@);
        assert(other[0] == second@[index as int]@);
        assert(rest.skip(1) =~= left_all.skip(index + 1));
        assert(other.skip(1) =~= right_all.skip(index + 1));
        if !bstr::same(first[index].as_slice(), second[index].as_slice()) {
            return component_less(first[index].as_slice(), second[index].as_slice());
        }
        index += 1;
    }
    index < second.len()
}

proof fn lemma_after_last_slash(lead: Seq<u8>, name: Seq<u8>)
    requires
        lead.len() == 0 || lead.last() == SLASH,
        forall|at: int| 0 <= at < name.len() ==> name[at] != SLASH,
    ensures
        after_last_slash(lead + name) == lead.len(),
    decreases name.len(),
{
    if name.len() == 0 {
        assert(lead + name =~= lead);
    } else {
        assert((lead + name).last() == name[name.len() - 1]);
        assert((lead + name).drop_last() =~= lead + name.drop_last());
        assert forall|at: int| 0 <= at < name.drop_last().len() implies name.drop_last()[at]
            != SLASH by {
            assert(name.drop_last()[at] == name[at]);
        }
        lemma_after_last_slash(lead, name.drop_last());
    }
}

proof fn lemma_last_dot(stem: Seq<u8>, extension: Seq<u8>)
    requires
        forall|at: int| 0 <= at < extension.len() ==> extension[at] != DOT,
    ensures
        last_dot(stem.push(DOT) + extension) == Some(stem.len()),
    decreases extension.len(),
{
    let name = stem.push(DOT) + extension;
    if extension.len() == 0 {
        assert(name =~= stem.push(DOT));
    } else {
        assert(name.last() == extension[extension.len() - 1]);
        assert(name.drop_last() =~= stem.push(DOT) + extension.drop_last());
        assert forall|at: int| 0 <= at < extension.drop_last().len() implies extension.drop_last()[at]
            != DOT by {
            assert(extension.drop_last()[at] == extension[at]);
        }
        lemma_last_dot(stem, extension.drop_last());
    }
}

proof fn lemma_last_dot_found(name: Seq<u8>)
    ensures
        last_dot(name) matches Some(dot) ==> dot < name.len() && name[dot as int] == DOT && (
        forall|at: int| dot < at < name.len() ==> name[at] != DOT),
        last_dot(name) is None ==> forall|at: int| 0 <= at < name.len() ==> name[at] != DOT,
    decreases name.len(),
{
    if name.len() > 0 && name.last() != DOT {
        let shorter = name.drop_last();
        lemma_last_dot_found(shorter);
        assert forall|at: int| 0 <= at < shorter.len() implies name[at] == shorter[at] by {}
    }
}

proof fn lemma_named(lead: Seq<u8>, stem: Seq<u8>, extension: Seq<u8>)
    requires
        lead.len() == 0 || lead.last() == SLASH,
        stem.len() > 0,
        extension.len() > 0,
        forall|at: int| 0 <= at < stem.len() ==> stem[at] != SLASH,
        forall|at: int| 0 <= at < extension.len() ==> extension[at] != SLASH && extension[at] != DOT,
    ensures
        trimmed(lead + (stem.push(DOT) + extension)) == lead + (stem.push(DOT) + extension),
        file_name_of(lead + (stem.push(DOT) + extension)) == Some(stem.push(DOT) + extension),
{
    let name = stem.push(DOT) + extension;
    let path = lead + name;
    assert(path.last() == extension[extension.len() - 1]);
    assert(trimmed(path) == path);
    assert forall|at: int| 0 <= at < name.len() implies name[at] != SLASH by {
        if at < stem.len() {
            assert(name[at] == stem[at]);
        } else if at > stem.len() {
            assert(name[at] == extension[at - stem.len() - 1]);
        }
    }
    lemma_after_last_slash(lead, name);
    assert(path.skip(lead.len() as int) =~= name);
    assert(name.len() >= 3);
}

/// The last component of a path that ends in a name, a dot and an extension is that name with the
/// dot and the extension, and the extension is what follows the dot. Another extension takes the
/// place of the first.
#[verifier::spinoff_prover]
pub proof fn law_extensions(lead: Seq<u8>, stem: Seq<u8>, extension: Seq<u8>, other: Seq<u8>)
    requires
        lead.len() == 0 || lead.last() == 0x2f,
        stem.len() > 0,
        extension.len() > 0,
        forall|at: int| 0 <= at < stem.len() ==> stem[at] != 0x2f,
        forall|at: int|
            0 <= at < extension.len() ==> extension[at] != 0x2f && extension[at] != 0x2e,
    ensures
        file_name_of(lead + stem + seq![0x2e] + extension) == Some(stem + seq![0x2e] + extension),
        extension_of(lead + stem + seq![0x2e] + extension) == Some(extension),
        with_extension_of(lead + stem + seq![0x2e] + extension, other) == lead + stem + seq![0x2e]
            + other,
{
    let name = stem.push(DOT) + extension;
    let path = lead + name;
    assert(path =~= lead + stem + seq![0x2e] + extension);
    assert(name =~= stem + seq![0x2e] + extension);
    lemma_named(lead, stem, extension);
    lemma_last_dot(stem, extension);
    assert(name.skip(stem.len() as int + 1) =~= extension);
    assert(path.take(path.len() - name.len() + stem.len()).push(DOT) + other =~= lead + stem
        + seq![0x2e] + other);
}

/// What is the extension of a path follows the last dot of its last component, and something stands
/// before that dot.
pub proof fn law_extension_follows_a_dot(path: Seq<u8>)
    requires
        extension_of(path) is Some,
    ensures
        file_name_of(path) is Some,
        exists|stem: Seq<u8>|
            stem.len() > 0 && file_name_of(path)->0 == #[trigger] stem.push(0x2e)
                + extension_of(path)->0,
        forall|at: int| 0 <= at < extension_of(path)->0.len() ==> extension_of(path)->0[at] != 0x2e,
{
    let name = file_name_of(path)->0;
    lemma_last_dot_found(name);
    let dot = last_dot(name)->0 as int;
    let stem = name.take(dot);
    assert(name =~= stem.push(0x2e) + name.skip(dot + 1));
}

/// A path that starts at the root is seen as it is from everywhere; another one is seen below the
/// directory from which it is seen.
pub proof fn law_paths_are_seen_below(base: Seq<u8>, path: Seq<u8>)
    ensures
        path.len() > 0 && path[0] == 0x2f ==> joined(base, path) == path,
        !(path.len() > 0 && path[0] == 0x2f) && base.len() > 0 && base.last() != 0x2f ==> joined(
            base,
            path,
        ) == base + seq![0x2f] + path,
        !(path.len() > 0 && path[0] == 0x2f) && (base.len() == 0 || base.last() == 0x2f) ==> joined(
            base,
            path,
        ) == base + path,
{
    assert(base.push(SLASH) + path =~= base + seq![0x2f] + path);
}

/// Whether a component is a plain name: neither empty nor `.` nor `..`, and without a separator.
pub open spec fn plain(name: Seq<u8>) -> bool {
    &&& name.len() > 0
    &&& name != seq![0x2eu8]
    &&& name != seq![0x2eu8, 0x2e]
    &&& forall|at: int| 0 <= at < name.len() ==> name[at] != 0x2f
}

proof fn lemma_names(parts: Seq<Seq<u8>>)
    requires
        forall|at: int| 0 <= at < parts.len() ==> plain(#[trigger] parts[at]),
    ensures
        names(bstr::joined(parts, SLASH)) == parts,
    decreases parts.len(),
{
    let path = bstr::joined(parts, SLASH);
    if parts.len() == 0 {
        assert(names(path) =~= parts);
    } else if parts.len() == 1 {
        assert(plain(parts[0]));
        lemma_first_slash(path, path.len() as int);
        assert(names(path) =~= parts);
    } else {
        let rest = parts.skip(1);
        assert(plain(parts[0]));
        assert forall|at: int| 0 <= at < rest.len() implies plain(#[trigger] rest[at]) by {
            assert(plain(parts[at + 1]));
        }
        lemma_names(rest);
        let end = parts[0].len() as int;
        lemma_first_slash(path, end);
        assert(path.take(end) =~= parts[0]);
        assert(path.skip(end + 1) =~= bstr::joined(rest, SLASH));
        assert(names(path) =~= parts);
    }
}

/// The components of a path are the names between its separators, with the root before them where it
/// starts there.
pub proof fn law_components(parts: Seq<Seq<u8>>)
    requires
        parts.len() > 0,
        forall|at: int| 0 <= at < parts.len() ==> plain(#[trigger] parts[at]),
    ensures
        components_of(bstr::joined(parts, 0x2f)) == parts,
        components_of(seq![0x2fu8] + bstr::joined(parts, 0x2f)) == seq![seq![0x2fu8]] + parts,
{
    let path = bstr::joined(parts, SLASH);
    let whole = seq![SLASH] + path;
    lemma_names(parts);
    assert(plain(parts[0]));
    assert(path[0] == parts[0][0]);
    let end = parts[0].len() as int;
    if parts.len() == 1 {
        lemma_first_slash(path, path.len() as int);
    } else {
        lemma_first_slash(path, end);
    }
    assert(path.take(end) =~= parts[0]);
    assert(lead(path) =~= Seq::empty());
    assert(components_of(path) =~= parts);
    assert(whole.take(0) =~= Seq::empty());
    assert(whole.skip(1) =~= path);
    assert(names(whole) =~= parts);
}

/// A component `.` says nothing, a name and the `..` that follows it cancel each other, and a `..` at
/// the root says nothing; plain names stay as they are.
pub proof fn law_dots_are_resolved(before: Seq<Seq<u8>>, name: Seq<u8>, behind: Seq<Seq<u8>>)
    requires
        plain(name),
    ensures
        resolved(before + seq![seq![0x2eu8]] + behind) == resolved(before + behind),
        resolved(before + seq![name, seq![0x2eu8, 0x2e]] + behind) == resolved(before + behind),
        resolved(seq![seq![0x2fu8], seq![0x2eu8, 0x2e]] + behind) == resolved(
            seq![seq![0x2fu8]] + behind,
        ),
        (forall|at: int| 0 <= at < before.len() ==> plain(#[trigger] before[at])) ==> resolved(before)
            == before,
    decreases before.len() + behind.len(),
{
    let dot = seq![DOT];
    let up = seq![DOT, DOT];
    let root = seq![SLASH];
    assert(dot[0] == 0x2e && up[0] == 0x2e && root[0] == 0x2f);
    assert(dot.len() == 1 && up.len() == 2);
    if behind.len() == 0 {
        assert(before + seq![dot] + behind =~= before.push(dot));
        assert(before.push(dot).drop_last() =~= before);
        assert(before + behind =~= before);
        assert(before + seq![name, up] + behind =~= before.push(name).push(up));
        assert(before.push(name).push(up).drop_last() =~= before.push(name));
        assert(before.push(name).drop_last() =~= before);
        assert(name != root) by {
            assert(root[0] == SLASH);
        }
        assert(resolved(before.push(name)) == resolved(before).push(name));
        assert(resolved(before).push(name).drop_last() =~= resolved(before));
        assert(resolved(before.push(name)).last() == name);
        assert(before.push(name).push(up).last() == up);
        assert(resolved(before.push(name).push(up)) == resolved(before.push(name)).drop_last());
        assert(seq![root, up] + behind =~= seq![root].push(up));
        assert(seq![root].push(up).drop_last() =~= seq![root]);
        assert(seq![root] + behind =~= seq![root]);
        assert(seq![root].drop_last() =~= Seq::<Seq<u8>>::empty());
        assert(root != dot && root != up);
        assert(resolved(Seq::<Seq<u8>>::empty()) =~= Seq::empty());
        assert(seq![root].last() == root);
        assert(resolved(seq![root]) =~= seq![root]);
        assert(seq![root].push(up).last() == up);
        assert(resolved(seq![root]).last() == root);
    } else {
        let fewer = behind.drop_last();
        law_dots_are_resolved(before, name, fewer);
        assert((before + seq![dot] + behind).drop_last() =~= before + seq![dot] + fewer);
        assert((before + seq![name, up] + behind).drop_last() =~= before + seq![name, up] + fewer);
        assert((before + behind).drop_last() =~= before + fewer);
        assert((seq![root, up] + behind).drop_last() =~= seq![root, up] + fewer);
        assert((seq![root] + behind).drop_last() =~= seq![root] + fewer);
    }
    if forall|at: int| 0 <= at < before.len() ==> plain(#[trigger] before[at]) {
        lemma_plain_stays(before);
    }
}

proof fn lemma_plain_stays(list: Seq<Seq<u8>>)
    requires
        forall|at: int| 0 <= at < list.len() ==> plain(#[trigger] list[at]),
    ensures
        resolved(list) == list,
    decreases list.len(),
{
    if list.len() > 0 {
        let fewer = list.drop_last();
        assert forall|at: int| 0 <= at < fewer.len() implies plain(#[trigger] fewer[at]) by {
            assert(plain(list[at]));
        }
        lemma_plain_stays(fewer);
        assert(plain(list[list.len() - 1]));
        assert(resolved(list) =~= list);
    } else {
        assert(resolved(list) =~= list);
    }
}

/// The parent of a path below a directory is that directory, and its last component is its name.
pub proof fn law_parents(directory: Seq<u8>, name: Seq<u8>)
    requires
        plain(name),
        directory.len() > 0,
        directory.last() != 0x2f,
        directory.last() != 0x2e,
    ensures
        parent_of(directory + seq![0x2fu8] + name) == Some(directory),
        file_name_of(directory + seq![0x2fu8] + name) == Some(name),
        parent_of(seq![0x2fu8] + name) == Some(seq![0x2fu8]),
        parent_of(name) == Some(Seq::<u8>::empty()),
        parent_of(seq![0x2fu8]) is None,
{
    let above = directory + seq![SLASH];
    let path = above + name;
    lemma_below(above, name);
    assert(trimmed(above) == directory) by {
        assert(above.drop_last() =~= directory);
        assert(trimmed(directory) == directory);
        assert(above.len() >= 2 && above.last() == SLASH);
    }
    assert(path.take(above.len() as int) =~= above);
    assert(path.skip(above.len() as int) =~= name);
    let root = seq![SLASH];
    lemma_below(root, name);
    assert((root + name).take(1) =~= root);
    assert((root + name).len() > 1);
    let none = Seq::<u8>::empty();
    lemma_below(none, name);
    assert(none + name =~= name);
    assert(name.take(0) =~= none);
    assert(name != root) by {
        assert(root[0] == SLASH);
    }
}

proof fn lemma_below(above: Seq<u8>, name: Seq<u8>)
    requires
        plain(name),
        above.len() == 0 || above.last() == SLASH,
    ensures
        trimmed(above + name) == above + name,
        after_last_slash(above + name) == above.len(),
{
    let path = above + name;
    assert(path.last() == name[name.len() - 1]);
    if path.last() == DOT && path.len() >= 2 {
        if name.len() == 1 {
            assert(name =~= seq![DOT]);
        } else {
            assert(path[path.len() - 2] == name[name.len() - 2]);
        }
    }
    lemma_after_last_slash(above, name);
}

} // verus!
