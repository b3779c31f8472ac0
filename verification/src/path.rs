//! From a request path to the file below the root that it names.
//!
//! The request path, without its one leading separator, is joined to the
//! root, and the result is brought into its normal form: cut at its
//! separators into parts, the empty parts and the parts `.` left out, and
//! every `..` taken away together with the part before it. The file is
//! served where that normal form lies inside the root's own normal form,
//! and nowhere else.

use crate::bytes::{append, same_bytes};
use vstd::prelude::*;
use vstd::slice::slice_subrange;

verus! {

/// The separator between the parts of a path, `/`.
pub const SEPARATOR: u8 = 0x2F;

/// The byte `.`.
pub const DOT: u8 = 0x2E;

/// The part `.`, the directory itself.
pub open spec fn this_dir() -> Seq<u8> {
    seq![DOT]
}

/// The part `..`, the directory above.
pub open spec fn parent_dir() -> Seq<u8> {
    seq![DOT, DOT]
}

/// Whether `path` begins at the top of the file system.
pub open spec fn is_absolute(path: Seq<u8>) -> bool {
    path.len() > 0 && path[0] == SEPARATOR
}

/// The parts of `path`, in order: what stands between its separators. A
/// path with `n` separators has `n + 1` parts, some of them perhaps empty.
pub open spec fn parts(path: Seq<u8>) -> Seq<Seq<u8>>
    decreases path.len(),
{
    if path.len() == 0 {
        seq![Seq::<u8>::empty()]
    } else {
        let before = parts(path.drop_last());
        if path.last() == SEPARATOR {
            before.push(Seq::<u8>::empty())
        } else {
            before.drop_last().push(before.last().push(path.last()))
        }
    }
}

/// What one more part makes of the parts kept so far. An empty part and
/// `.` change nothing. A part `..` takes away the part kept last; where
/// there is none to take, or only a `..`, it stays where it is in an
/// absolute path, whose top has nothing above it, and is itself kept in a
/// relative one. Every other part is kept.
pub open spec fn step(kept: Seq<Seq<u8>>, part: Seq<u8>, absolute: bool) -> Seq<Seq<u8>> {
    if part.len() == 0 || part == this_dir() {
        kept
    } else if part == parent_dir() {
        if kept.len() > 0 && kept.last() != parent_dir() {
            kept.drop_last()
        } else if absolute {
            kept
        } else {
            kept.push(part)
        }
    } else {
        kept.push(part)
    }
}

/// What is kept after `kept` when the parts of `list` are taken one after
/// the other.
pub open spec fn walk(kept: Seq<Seq<u8>>, list: Seq<Seq<u8>>, absolute: bool) -> Seq<Seq<u8>>
    decreases list.len(),
{
    if list.len() == 0 {
        kept
    } else {
        step(walk(kept, list.drop_last(), absolute), list.last(), absolute)
    }
}

/// The normal form of a path, as parts.
pub open spec fn normal_parts(path: Seq<u8>) -> Seq<Seq<u8>> {
    walk(Seq::<Seq<u8>>::empty(), parts(path), is_absolute(path))
}

/// A request path without its one leading separator, if it has one.
pub open spec fn relative(path: Seq<u8>) -> Seq<u8> {
    if path.len() > 0 && path[0] == SEPARATOR {
        path.skip(1)
    } else {
        path
    }
}

/// Whether the join of the root and a request path is absolute: it is
/// where the root is, and also where what is left of the request path is
/// itself absolute, for then the join is that path alone.
pub open spec fn target_is_absolute(root: Seq<u8>, path: Seq<u8>) -> bool {
    is_absolute(relative(path)) || is_absolute(root)
}

/// The normal form of the join of the root and a request path, as parts:
/// the parts of the root and then those of the request path, walked
/// together; or, where what is left of the request path is itself
/// absolute, the normal form of that path alone.
pub open spec fn target_parts(root: Seq<u8>, path: Seq<u8>) -> Seq<Seq<u8>> {
    let rest = relative(path);
    if is_absolute(rest) {
        normal_parts(rest)
    } else {
        walk(Seq::<Seq<u8>>::empty(), parts(root) + parts(rest), is_absolute(root))
    }
}

/// Whether no part of `list` from place `from` on is `..`.
pub open spec fn no_parent_from(list: Seq<Seq<u8>>, from: int) -> bool {
    forall|k: int| from <= k < list.len() ==> #[trigger] list[k] != parent_dir()
}

/// Whether the join of the root and a request path lies inside the root:
/// both are absolute or both are not, the normal form of the join begins
/// with the normal form of the root, and nothing after that beginning
/// leads up again.
pub open spec fn lies_inside(root: Seq<u8>, path: Seq<u8>) -> bool {
    let base = normal_parts(root);
    let whole = target_parts(root, path);
    &&& target_is_absolute(root, path) == is_absolute(root)
    &&& base.len() <= whole.len()
    &&& whole.take(base.len() as int) == base
    &&& no_parent_from(whole, base.len() as int)
}

/// The parts put together again, one separator between two neighbours.
pub open spec fn joined(kept: Seq<Seq<u8>>) -> Seq<u8>
    decreases kept.len(),
{
    if kept.len() == 0 {
        Seq::<u8>::empty()
    } else if kept.len() == 1 {
        kept[0]
    } else {
        joined(kept.drop_last()).push(SEPARATOR) + kept.last()
    }
}

/// A path in normal form, written out: the parts with one separator
/// between two neighbours, a separator before them where the path is
/// absolute, and `.` for a relative path without parts.
pub open spec fn written(absolute: bool, list: Seq<Seq<u8>>) -> Seq<u8> {
    if absolute {
        seq![SEPARATOR] + joined(list)
    } else if list.len() == 0 {
        this_dir()
    } else {
        joined(list)
    }
}

/// The file that a request for `path` names when `root` is served: the
/// join of the two in normal form. It is `None` exactly where that join
/// lies outside the root.
pub open spec fn resolved(root: Seq<u8>, path: Seq<u8>) -> Option<Seq<u8>> {
    if lies_inside(root, path) {
        Some(written(is_absolute(root), target_parts(root, path)))
    } else {
        None
    }
}

/// A part that names a file or a directory: not empty, neither `.` nor
/// `..`, and without a separator in it.
pub open spec fn is_name(part: Seq<u8>) -> bool {
    &&& part.len() > 0
    &&& part != this_dir()
    &&& part != parent_dir()
    &&& forall|i: int| 0 <= i < part.len() ==> part[i] != SEPARATOR
}

/// Whether no byte of `part` is a separator.
pub open spec fn no_separator(part: Seq<u8>) -> bool {
    forall|i: int| 0 <= i < part.len() ==> part[i] != SEPARATOR
}

/// Cutting a path leaves at least one part, and no part holds a separator.
pub proof fn lemma_parts_hold_no_separator(path: Seq<u8>)
    ensures
        parts(path).len() >= 1,
        forall|k: int| 0 <= k < parts(path).len() ==> no_separator(#[trigger] parts(path)[k]),
    decreases path.len(),
{
    if path.len() > 0 {
        lemma_parts_hold_no_separator(path.drop_last());
    }
}

/// Putting the parts of a path together again gives the path.
pub proof fn lemma_joined_parts(path: Seq<u8>)
    ensures
        joined(parts(path)) == path,
    decreases path.len(),
{
    if path.len() == 0 {
        assert(joined(parts(path)) =~= path);
    } else {
        let before = parts(path.drop_last());
        lemma_joined_parts(path.drop_last());
        lemma_parts_hold_no_separator(path.drop_last());
        if path.last() == SEPARATOR {
            let all = before.push(Seq::<u8>::empty());
            assert(all.drop_last() =~= before);
            assert(joined(all) =~= path);
        } else {
            let all = before.drop_last().push(before.last().push(path.last()));
            assert(all.drop_last() =~= before.drop_last());
            assert(all.last() == before.last().push(path.last()));
            if before.len() > 1 {
                let front = joined(before.drop_last()).push(SEPARATOR);
                assert(front + before.last().push(path.last()) =~= (front + before.last()).push(
                    path.last(),
                ));
            }
            assert(path.drop_last().push(path.last()) =~= path);
            assert(joined(all) =~= path);
        }
    }
}

/// Cutting what was put together from parts without separators gives
/// those parts again.
pub proof fn lemma_parts_of_joined(kept: Seq<Seq<u8>>)
    requires
        kept.len() >= 1,
        forall|k: int| 0 <= k < kept.len() ==> no_separator(#[trigger] kept[k]),
    ensures
        parts(joined(kept)) == kept,
    decreases kept.len(),
{
    if kept.len() == 1 {
        lemma_parts_of_one(kept[0]);
        assert(parts(joined(kept)) =~= kept);
    } else {
        let front = kept.drop_last();
        assert forall|k: int| 0 <= k < front.len() implies no_separator(#[trigger] front[k]) by {
            assert(front[k] == kept[k]);
        }
        lemma_parts_of_joined(front);
        assert(no_separator(kept[kept.len() - 1]));
        lemma_parts_of_both(joined(front), kept.last());
        lemma_parts_of_one(kept.last());
        assert(front + seq![kept.last()] =~= kept);
    }
}

/// A path without a separator is its own one part.
pub proof fn lemma_parts_of_one(part: Seq<u8>)
    requires
        no_separator(part),
    ensures
        parts(part) == seq![part],
    decreases part.len(),
{
    if part.len() == 0 {
        assert(part =~= Seq::<u8>::empty());
        assert(parts(part) =~= seq![part]);
    } else {
        lemma_parts_of_one(part.drop_last());
        assert(part[part.len() - 1] != SEPARATOR);
        assert(part.drop_last().push(part.last()) =~= part);
        let before = parts(part.drop_last());
        let rebuilt = before.drop_last().push(before.last().push(part.last()));
        assert(parts(part) == rebuilt);
        assert(before.last() == part.drop_last());
        assert(rebuilt.len() == 1);
        assert(rebuilt[0] == part);
        assert(rebuilt =~= seq![part]);
    }
}

/// A path that begins with a separator has an empty first part.
pub proof fn lemma_first_part_of_absolute(path: Seq<u8>)
    requires
        path.len() > 0,
        path[0] == SEPARATOR,
    ensures
        parts(path).len() >= 2,
        parts(path)[0].len() == 0,
    decreases path.len(),
{
    lemma_parts_hold_no_separator(path.drop_last());
    if path.len() == 1 {
        assert(path.drop_last() =~= Seq::<u8>::empty());
    } else {
        lemma_first_part_of_absolute(path.drop_last());
    }
}

/// The parts of two paths with a separator between them are the parts of
/// the first and then the parts of the second.
pub proof fn lemma_parts_of_both(front: Seq<u8>, back: Seq<u8>)
    ensures
        parts(front.push(SEPARATOR) + back) == parts(front) + parts(back),
    decreases back.len(),
{
    let whole = front.push(SEPARATOR) + back;
    lemma_parts_hold_no_separator(front);
    if back.len() == 0 {
        assert(whole =~= front.push(SEPARATOR));
        assert(whole.drop_last() =~= front);
        assert(parts(whole) =~= parts(front) + parts(back));
    } else {
        lemma_parts_of_both(front, back.drop_last());
        lemma_parts_hold_no_separator(back.drop_last());
        assert(whole.drop_last() =~= front.push(SEPARATOR) + back.drop_last());
        assert(whole.last() == back.last());
        assert(parts(whole) =~= parts(front) + parts(back));
    }
}

/// A part that is a name or `..`.
pub open spec fn is_name_or_parent(part: Seq<u8>) -> bool {
    is_name(part) || part == parent_dir()
}

/// Walking over one list and then another is walking over the two put
/// together.
pub proof fn lemma_walk_of_both(
    kept: Seq<Seq<u8>>,
    front: Seq<Seq<u8>>,
    back: Seq<Seq<u8>>,
    absolute: bool,
)
    ensures
        walk(kept, front + back, absolute) == walk(walk(kept, front, absolute), back, absolute),
    decreases back.len(),
{
    if back.len() == 0 {
        assert(front + back =~= front);
    } else {
        lemma_walk_of_both(kept, front, back.drop_last(), absolute);
        assert((front + back).drop_last() =~= front + back.drop_last());
        assert((front + back).last() == back.last());
    }
}

/// Names are all kept, after what was kept before.
pub proof fn lemma_walk_of_names(kept: Seq<Seq<u8>>, list: Seq<Seq<u8>>, absolute: bool)
    requires
        forall|k: int| 0 <= k < list.len() ==> is_name(#[trigger] list[k]),
    ensures
        walk(kept, list, absolute) == kept + list,
    decreases list.len(),
{
    if list.len() == 0 {
        assert(kept + list =~= kept);
    } else {
        let front = list.drop_last();
        assert forall|k: int| 0 <= k < front.len() implies is_name(#[trigger] front[k]) by {
            assert(front[k] == list[k]);
        }
        lemma_walk_of_names(kept, front, absolute);
        assert(is_name(list[list.len() - 1]));
        assert((kept + front).push(list.last()) =~= kept + list);
    }
}

/// A normal form holds names and, at most, `..`: nothing empty, no `.`,
/// no separator.
pub proof fn lemma_walk_keeps_names(kept: Seq<Seq<u8>>, list: Seq<Seq<u8>>, absolute: bool)
    requires
        forall|k: int| 0 <= k < kept.len() ==> is_name_or_parent(#[trigger] kept[k]),
        forall|k: int| 0 <= k < list.len() ==> no_separator(#[trigger] list[k]),
    ensures
        forall|k: int|
            0 <= k < walk(kept, list, absolute).len() ==> is_name_or_parent(
                #[trigger] walk(kept, list, absolute)[k],
            ),
    decreases list.len(),
{
    if list.len() > 0 {
        let front = list.drop_last();
        assert forall|k: int| 0 <= k < front.len() implies no_separator(#[trigger] front[k]) by {
            assert(front[k] == list[k]);
        }
        lemma_walk_keeps_names(kept, front, absolute);
        assert(no_separator(list[list.len() - 1]));
        let before = walk(kept, front, absolute);
        let after = walk(kept, list, absolute);
        assert(after == step(before, list.last(), absolute));
        assert forall|k: int| 0 <= k < after.len() implies is_name_or_parent(
            #[trigger] after[k],
        ) by {
            if k < before.len() {
                assert(is_name_or_parent(before[k]));
            }
        }
    }
}

/// Inside the root and nowhere else: a file that a request resolves to is
/// the root in its normal form followed by names, and is written out as
/// such. Nothing that follows the root's own parts is empty, `.` or `..`,
/// so the file's path does not lead out of the root.
pub proof fn lemma_resolved_stays_below_root(root: Seq<u8>, path: Seq<u8>)
    requires
        resolved(root, path) is Some,
    ensures
        ({
            let base = normal_parts(root);
            let whole = target_parts(root, path);
            let names = whole.skip(base.len() as int);
            &&& whole == base + names
            &&& forall|k: int| 0 <= k < names.len() ==> is_name(#[trigger] names[k])
            &&& resolved(root, path) == Some(written(is_absolute(root), base + names))
        }),
{
    let base = normal_parts(root);
    let whole = target_parts(root, path);
    let names = whole.skip(base.len() as int);
    let rest = relative(path);
    let none = Seq::<Seq<u8>>::empty();
    lemma_parts_hold_no_separator(root);
    lemma_parts_hold_no_separator(rest);
    if is_absolute(rest) {
        lemma_walk_keeps_names(none, parts(rest), true);
    } else {
        let all = parts(root) + parts(rest);
        assert forall|k: int| 0 <= k < all.len() implies no_separator(#[trigger] all[k]) by {
            if k < parts(root).len() {
                assert(all[k] == parts(root)[k]);
            } else {
                assert(all[k] == parts(rest)[k - parts(root).len()]);
            }
        }
        lemma_walk_keeps_names(none, all, is_absolute(root));
    }
    assert(whole =~= base + names);
    assert forall|k: int| 0 <= k < names.len() implies is_name(#[trigger] names[k]) by {
        assert(names[k] == whole[base.len() + k]);
        assert(is_name_or_parent(whole[base.len() + k]));
    }
}

/// A request path made of names alone is served as it stands: the file is
/// the root in its normal form followed by the names of the path.
pub proof fn lemma_plain_path_is_served(root: Seq<u8>, path: Seq<u8>)
    requires
        forall|k: int|
            0 <= k < parts(relative(path)).len() ==> is_name(#[trigger] parts(relative(path))[k]),
    ensures
        resolved(root, path) == Some(
            written(is_absolute(root), normal_parts(root) + parts(relative(path))),
        ),
{
    let rest = relative(path);
    let base = normal_parts(root);
    let none = Seq::<Seq<u8>>::empty();
    lemma_parts_hold_no_separator(rest);
    if is_absolute(rest) {
        lemma_first_part_of_absolute(rest);
        assert(is_name(parts(rest)[0]));
    }
    lemma_walk_of_both(none, parts(root), parts(rest), is_absolute(root));
    lemma_walk_of_names(base, parts(rest), is_absolute(root));
    let whole = target_parts(root, path);
    assert(whole == base + parts(rest));
    assert(whole.take(base.len() as int) =~= base);
    assert forall|k: int| base.len() <= k < whole.len() implies #[trigger] whole[k]
        != parent_dir() by {
        assert(whole[k] == parts(rest)[k - base.len()]);
        assert(is_name(parts(rest)[k - base.len()]));
    }
}

/// Out of the root and back into it is inside the root: a request path
/// that goes up from a root whose last part is a name, names that last
/// part again and goes on with names is served like the names alone.
pub proof fn lemma_out_and_back_is_served(root: Seq<u8>, path: Seq<u8>, names: Seq<Seq<u8>>)
    requires
        normal_parts(root).len() > 0,
        is_name(normal_parts(root).last()),
        !is_absolute(relative(path)),
        parts(relative(path)) == seq![parent_dir(), normal_parts(root).last()] + names,
        forall|k: int| 0 <= k < names.len() ==> is_name(#[trigger] names[k]),
    ensures
        resolved(root, path) == Some(written(is_absolute(root), normal_parts(root) + names)),
{
    let rest = relative(path);
    let base = normal_parts(root);
    let absolute = is_absolute(root);
    let none = Seq::<Seq<u8>>::empty();
    let turn = seq![parent_dir(), base.last()];
    lemma_walk_of_both(none, parts(root), parts(rest), absolute);
    lemma_walk_of_both(base, turn, names, absolute);
    assert(turn.drop_last() =~= seq![parent_dir()]);
    assert(seq![parent_dir()].drop_last() =~= none);
    assert(walk(base, none, absolute) == base);
    assert(walk(base, seq![parent_dir()], absolute) == step(base, parent_dir(), absolute));
    assert(parent_dir().len() == 2 && this_dir().len() == 1);
    assert(walk(base, seq![parent_dir()], absolute) == base.drop_last());
    assert(walk(base, turn, absolute) == step(base.drop_last(), base.last(), absolute));
    assert(base.drop_last().push(base.last()) =~= base);
    assert(walk(base, turn, absolute) == base);
    lemma_walk_of_names(base, names, absolute);
    let whole = target_parts(root, path);
    assert(whole == base + names);
    assert(whole.take(base.len() as int) =~= base);
    assert forall|k: int| base.len() <= k < whole.len() implies #[trigger] whole[k]
        != parent_dir() by {
        assert(whole[k] == names[k - base.len()]);
        assert(is_name(names[k - base.len()]));
    }
}

/// What lies above the root is refused: a request for `..` alone names
/// the directory above the root, which is outside it, unless the root is
/// the top of the file system, which has nothing above it.
pub proof fn lemma_parent_of_root_is_refused(root: Seq<u8>, path: Seq<u8>)
    requires
        relative(path) == parent_dir(),
        !(is_absolute(root) && normal_parts(root).len() == 0),
    ensures
        resolved(root, path) is None,
{
    let rest = relative(path);
    let base = normal_parts(root);
    let absolute = is_absolute(root);
    let none = Seq::<Seq<u8>>::empty();
    assert(rest[0] == DOT);
    assert(no_separator(parent_dir()));
    lemma_parts_of_one(parent_dir());
    lemma_walk_of_both(none, parts(root), parts(rest), absolute);
    assert(seq![parent_dir()].drop_last() =~= none);
    assert(walk(base, none, absolute) == base);
    assert(parent_dir().len() == 2 && this_dir().len() == 1);
    let whole = target_parts(root, path);
    assert(whole == step(base, parent_dir(), absolute));
    if base.len() > 0 && base.last() != parent_dir() {
        assert(whole.len() < base.len());
    } else {
        if absolute {
            lemma_absolute_holds_no_parent(none, parts(root));
            assert(base[base.len() - 1] != parent_dir());
        }
        assert(whole == base.push(parent_dir()));
        assert(whole[base.len() as int] == parent_dir());
    }
}

/// The normal form of an absolute path holds no `..`: at the top there is
/// nothing to go up to.
pub proof fn lemma_absolute_holds_no_parent(kept: Seq<Seq<u8>>, list: Seq<Seq<u8>>)
    requires
        no_parent_from(kept, 0),
    ensures
        no_parent_from(walk(kept, list, true), 0),
    decreases list.len(),
{
    if list.len() > 0 {
        lemma_absolute_holds_no_parent(kept, list.drop_last());
        let before = walk(kept, list.drop_last(), true);
        let after = walk(kept, list, true);
        assert forall|k: int| 0 <= k < after.len() implies #[trigger] after[k]
            != parent_dir() by {
            if k < before.len() {
                assert(before[k] != parent_dir());
            }
        }
    }
}

/// The byte strings that a list of vectors holds.
spec fn views(stack: Seq<Vec<u8>>) -> Seq<Seq<u8>> {
    Seq::new(stack.len(), |k: int| stack[k]@)
}

/// Whether `part` is `..`.
fn is_parent(part: &[u8]) -> (yes: bool)
    ensures
        yes == (part@ == parent_dir()),
{
    if part.len() == 2 && part[0] == DOT && part[1] == DOT {
        assert(part@ =~= parent_dir());
        true
    } else {
        assert(part@ != parent_dir()) by {
            if part@ == parent_dir() {
                assert(part@.len() == 2);
                assert(part@[0] == DOT && part@[1] == DOT);
            }
        }
        false
    }
}

/// Whether `part` is `.`.
fn is_this(part: &[u8]) -> (yes: bool)
    ensures
        yes == (part@ == this_dir()),
{
    if part.len() == 1 && part[0] == DOT {
        assert(part@ =~= this_dir());
        true
    } else {
        assert(part@ != this_dir()) by {
            if part@ == this_dir() {
                assert(part@.len() == 1);
                assert(part@[0] == DOT);
            }
        }
        false
    }
}

/// Takes one more part into account.
fn take_part(kept: &mut Vec<Vec<u8>>, part: &[u8], absolute: bool)
    ensures
        views(final(kept)@) == step(views(old(kept)@), part@, absolute),
{
    let ghost before = views(kept@);
    if part.len() == 0 || is_this(part) {
        return ;
    }
    if is_parent(part) {
        let n = kept.len();
        if n > 0 && !is_parent(kept[n - 1].as_slice()) {
            assert(before.last() == kept@[n - 1]@);
            kept.pop();
            assert(views(kept@) =~= before.drop_last());
            return ;
        }
        if n > 0 {
            assert(before.last() == kept@[n - 1]@);
        }
        if absolute {
            return ;
        }
    }
    let mut copy: Vec<u8> = Vec::new();
    append(&mut copy, part);
    assert(copy@ =~= part@);
    kept.push(copy);
    assert(views(kept@) =~= before.push(part@));
}

/// Walks over the parts of `path`, after what was kept before.
fn walk_over(kept: &mut Vec<Vec<u8>>, path: &[u8], absolute: bool)
    ensures
        views(final(kept)@) == walk(views(old(kept)@), parts(path@), absolute),
{
    let ghost before = views(kept@);
    let n = path.len();
    let mut start: usize = 0;
    let mut i: usize = 0;
    assert(path@.take(0) =~= Seq::<u8>::empty());
    assert(parts(path@.take(0)).drop_last() =~= Seq::<Seq<u8>>::empty());
    assert(path@.subrange(0, 0) =~= Seq::<u8>::empty());
    while i < n
        invariant
            n == path@.len(),
            start <= i <= n,
            parts(path@.take(i as int)).len() >= 1,
            parts(path@.take(i as int)).last() == path@.subrange(start as int, i as int),
            views(kept@) == walk(before, parts(path@.take(i as int)).drop_last(), absolute),
        decreases n - i,
    {
        let ghost so_far = parts(path@.take(i as int));
        assert(path@.take(i + 1).drop_last() =~= path@.take(i as int));
        assert(path@.take(i + 1).last() == path@[i as int]);
        if path[i] == SEPARATOR {
            assert(parts(path@.take(i + 1)) == so_far.push(Seq::<u8>::empty()));
            assert(so_far.push(Seq::<u8>::empty()).drop_last() =~= so_far);
            take_part(kept, slice_subrange(path, start, i), absolute);
            start = i + 1;
            assert(path@.subrange(start as int, start as int) =~= Seq::<u8>::empty());
        } else {
            assert(parts(path@.take(i + 1)) == so_far.drop_last().push(
                so_far.last().push(path@[i as int]),
            ));
            assert(so_far.drop_last().push(so_far.last().push(path@[i as int])).drop_last()
                =~= so_far.drop_last());
            assert(path@.subrange(start as int, i + 1) =~= path@.subrange(
                start as int,
                i as int,
            ).push(path@[i as int]));
        }
        i = i + 1;
    }
    assert(path@.take(n as int) =~= path@);
    take_part(kept, slice_subrange(path, start, n), absolute);
}

/// Whether `whole` begins with the parts of `base`.
fn begins_with(whole: &Vec<Vec<u8>>, base: &Vec<Vec<u8>>) -> (yes: bool)
    ensures
        yes == (views(base@).len() <= views(whole@).len() && views(whole@).take(
            views(base@).len() as int,
        ) == views(base@)),
{
    if base.len() > whole.len() {
        return false;
    }
    let mut k: usize = 0;
    assert(views(whole@).take(0) =~= views(base@).take(0));
    while k < base.len()
        invariant
            k <= base@.len() <= whole@.len(),
            views(whole@).take(k as int) == views(base@).take(k as int),
        decreases base@.len() - k,
    {
        if !same_bytes(whole[k].as_slice(), base[k].as_slice()) {
            assert(views(whole@).take(views(base@).len() as int)[k as int] != views(base@)[k as int]);
            return false;
        }
        assert(views(whole@).take(k + 1) =~= views(whole@).take(k as int).push(whole@[k as int]@));
        assert(views(base@).take(k + 1) =~= views(base@).take(k as int).push(base@[k as int]@));
        k = k + 1;
    }
    assert(views(base@).take(k as int) =~= views(base@));
    true
}

/// Whether no part of `list` from place `from` on is `..`.
fn holds_no_parent_from(list: &Vec<Vec<u8>>, from: usize) -> (yes: bool)
    requires
        from <= list@.len(),
    ensures
        yes == no_parent_from(views(list@), from as int),
{
    let mut k: usize = from;
    while k < list.len()
        invariant
            from <= k <= list@.len(),
            forall|j: int| from <= j < k ==> #[trigger] views(list@)[j] != parent_dir(),
        decreases list@.len() - k,
    {
        if is_parent(list[k].as_slice()) {
            assert(views(list@)[k as int] == parent_dir());
            return false;
        }
        assert(views(list@)[k as int] == list@[k as int]@);
        k = k + 1;
    }
    true
}

/// Writes a path in normal form out.
fn write_out(absolute: bool, list: &Vec<Vec<u8>>) -> (out: Vec<u8>)
    ensures
        out@ == written(absolute, views(list@)),
{
    let mut out: Vec<u8> = Vec::new();
    if absolute {
        out.push(SEPARATOR);
    } else if list.len() == 0 {
        out.push(DOT);
        assert(out@ =~= this_dir());
        return out;
    }
    let ghost lead = out@;
    let mut k: usize = 0;
    assert(views(list@).take(0) =~= Seq::<Seq<u8>>::empty());
    assert(out@ =~= lead + joined(views(list@).take(0)));
    while k < list.len()
        invariant
            k <= list@.len(),
            out@ == lead + joined(views(list@).take(k as int)),
        decreases list@.len() - k,
    {
        let ghost done = views(list@).take(k as int);
        let ghost next = views(list@).take(k + 1);
        assert(next.drop_last() =~= done);
        assert(next.last() == list@[k as int]@);
        if k > 0 {
            out.push(SEPARATOR);
        }
        append(&mut out, list[k].as_slice());
        assert(out@ =~= lead + joined(next));
        k = k + 1;
    }
    assert(views(list@).take(k as int) =~= views(list@));
    out
}

/// Finds the file that a request for `path` names when `root` is served.
/// The result is `None` exactly where the join of the two, in normal form,
/// lies outside the root.
pub fn resolve(root: &[u8], path: &[u8]) -> (file: Option<Vec<u8>>)
    ensures
        match (file, resolved(root@, path@)) {
            (Some(f), Some(r)) => f@ == r,
            (None, None) => true,
            _ => false,
        },
{
    let root_absolute = root.len() > 0 && root[0] == SEPARATOR;
    let first: usize = if path.len() > 0 && path[0] == SEPARATOR {
        1
    } else {
        0
    };
    let rest = slice_subrange(path, first, path.len());
    assert(rest@ =~= relative(path@));
    let rest_absolute = rest.len() > 0 && rest[0] == SEPARATOR;
    let mut base: Vec<Vec<u8>> = Vec::new();
    let mut whole: Vec<Vec<u8>> = Vec::new();
    assert(views(base@) =~= Seq::<Seq<u8>>::empty());
    assert(views(whole@) =~= Seq::<Seq<u8>>::empty());
    walk_over(&mut base, root, root_absolute);
    if rest_absolute {
        walk_over(&mut whole, rest, true);
    } else {
        walk_over(&mut whole, root, root_absolute);
        walk_over(&mut whole, rest, root_absolute);
        proof {
            lemma_walk_of_both(
                Seq::<Seq<u8>>::empty(),
                parts(root@),
                parts(rest@),
                root_absolute,
            );
        }
    }
    assert(views(base@) == normal_parts(root@));
    assert(views(whole@) == target_parts(root@, path@));
    if rest_absolute && !root_absolute {
        return None;
    }
    if !begins_with(&whole, &base) {
        return None;
    }
    if !holds_no_parent_from(&whole, base.len()) {
        return None;
    }
    Some(write_out(root_absolute, &whole))
}

} // verus!
