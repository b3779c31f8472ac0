//! From a path to the content type that is announced for it.
//!
//! The type goes by the extension of the path's file name: what follows the
//! last dot of the name, where that dot is not the name's first byte. Nine
//! extensions are known, and they are told apart by case; every other
//! path is announced as `application/octet-stream`.

use crate::bytes::same_bytes;
use crate::path::{parent_dir, parts, this_dir, DOT, SEPARATOR};
use vstd::prelude::*;
use vstd::slice::slice_subrange;
use vstd::string::StringSliceAdditionalSpecFns;

verus! {

/// The last of the parts that is neither empty nor `.`, if there is one.
pub open spec fn last_real_part(list: Seq<Seq<u8>>) -> Option<Seq<u8>>
    decreases list.len(),
{
    if list.len() == 0 {
        None
    } else if list.last().len() == 0 || list.last() == this_dir() {
        last_real_part(list.drop_last())
    } else {
        Some(list.last())
    }
}

/// The file name of a path: its last part that is neither empty nor `.`,
/// unless that part is `..` or there is none.
pub open spec fn file_name(path: Seq<u8>) -> Option<Seq<u8>> {
    match last_real_part(parts(path)) {
        None => None,
        Some(part) => if part == parent_dir() {
            None
        } else {
            Some(part)
        },
    }
}

/// The place of the last dot in `name`, and -1 where it has none.
pub open spec fn last_dot(name: Seq<u8>) -> int
    decreases name.len(),
{
    if name.len() == 0 {
        -1
    } else if name.last() == DOT {
        name.len() - 1
    } else {
        last_dot(name.drop_last())
    }
}

/// The extension of a file name: what follows its last dot. A name without
/// a dot has none, nor has a name whose only dot is its first byte.
pub open spec fn extension_of(name: Seq<u8>) -> Option<Seq<u8>> {
    if last_dot(name) <= 0 {
        None
    } else {
        Some(name.skip(last_dot(name) + 1))
    }
}

/// The extension of a path: that of its file name.
pub open spec fn extension(path: Seq<u8>) -> Option<Seq<u8>> {
    match file_name(path) {
        None => None,
        Some(name) => extension_of(name),
    }
}

/// Whether `ext` is one of the nine extensions that have a type of their
/// own.
pub open spec fn is_known(ext: Seq<u8>) -> bool {
    ||| ext == "html".spec_bytes()
    ||| ext == "css".spec_bytes()
    ||| ext == "js".spec_bytes()
    ||| ext == "json".spec_bytes()
    ||| ext == "png".spec_bytes()
    ||| ext == "jpg".spec_bytes()
    ||| ext == "jpeg".spec_bytes()
    ||| ext == "gif".spec_bytes()
    ||| ext == "svg".spec_bytes()
}

/// The table from extension to content type.
pub open spec fn mime_type(ext: Option<Seq<u8>>) -> &'static str {
    match ext {
        None => "application/octet-stream",
        Some(e) => if e == "html".spec_bytes() {
            "text/html"
        } else if e == "css".spec_bytes() {
            "text/css"
        } else if e == "js".spec_bytes() {
            "application/javascript"
        } else if e == "json".spec_bytes() {
            "application/json"
        } else if e == "png".spec_bytes() {
            "image/png"
        } else if e == "jpg".spec_bytes() || e == "jpeg".spec_bytes() {
            "image/jpeg"
        } else if e == "gif".spec_bytes() {
            "image/gif"
        } else if e == "svg".spec_bytes() {
            "image/svg+xml"
        } else {
            "application/octet-stream"
        },
    }
}

/// The content type that is announced for `path`.
pub open spec fn content_type(path: Seq<u8>) -> &'static str {
    mime_type(extension(path))
}

/// Every path without one of the nine known extensions, and so every path
/// without any extension, is announced as `application/octet-stream`.
pub proof fn lemma_unknown_extension(path: Seq<u8>)
    requires
        extension(path) matches Some(ext) ==> !is_known(ext),
    ensures
        content_type(path) == "application/octet-stream",
{
}

/// A path that holds no dot at all has no extension.
pub proof fn lemma_no_dot_no_extension(path: Seq<u8>)
    requires
        forall|i: int| 0 <= i < path.len() ==> path[i] != DOT,
    ensures
        extension(path) is None,
        content_type(path) == "application/octet-stream",
{
    lemma_parts_hold_no_dot(path);
    lemma_last_real_part_is_a_part(parts(path));
    match file_name(path) {
        None => {},
        Some(name) => {
            lemma_last_dot(name);
        },
    }
}

/// The parts of a path without a dot hold no dot.
proof fn lemma_parts_hold_no_dot(path: Seq<u8>)
    requires
        forall|i: int| 0 <= i < path.len() ==> path[i] != DOT,
    ensures
        parts(path).len() >= 1,
        forall|k: int, i: int|
            0 <= k < parts(path).len() && 0 <= i < parts(path)[k].len() ==> #[trigger] parts(
                path,
            )[k][i] != DOT,
    decreases path.len(),
{
    if path.len() > 0 {
        lemma_parts_hold_no_dot(path.drop_last());
    }
}

/// The last real part of a list is one of its parts.
proof fn lemma_last_real_part_is_a_part(list: Seq<Seq<u8>>)
    ensures
        last_real_part(list) matches Some(part) ==> exists|k: int|
            0 <= k < list.len() && #[trigger] list[k] == part,
    decreases list.len(),
{
    if list.len() > 0 {
        if list.last().len() == 0 || list.last() == this_dir() {
            lemma_last_real_part_is_a_part(list.drop_last());
            if let Some(part) = last_real_part(list) {
                let k = choose|k: int|
                    0 <= k < list.drop_last().len() && #[trigger] list.drop_last()[k] == part;
                assert(list[k] == part);
            }
        } else {
            assert(list[list.len() - 1] == list.last());
        }
    }
}

/// Where the last dot is: at a place that holds a dot, with none after it;
/// and -1 exactly where the name holds no dot.
pub proof fn lemma_last_dot(name: Seq<u8>)
    ensures
        -1 <= last_dot(name) < name.len(),
        last_dot(name) >= 0 ==> name[last_dot(name)] == DOT,
        forall|i: int| last_dot(name) < i < name.len() ==> name[i] != DOT,
    decreases name.len(),
{
    if name.len() > 0 && name.last() != DOT {
        lemma_last_dot(name.drop_last());
        assert forall|i: int| last_dot(name) < i < name.len() implies name[i] != DOT by {
            if i < name.len() - 1 {
                assert(name.drop_last()[i] == name[i]);
            }
        }
    }
}

/// The content type for a path given as bytes.
pub fn content_type_of(path: &[u8]) -> (t: &'static str)
    ensures
        t == content_type(path@),
{
    let n = path.len();
    let mut found = false;
    let mut name_start: usize = 0;
    let mut name_end: usize = 0;
    let mut start: usize = 0;
    let mut i: usize = 0;
    assert(path@.take(0) =~= Seq::<u8>::empty());
    assert(parts(path@.take(0)).drop_last() =~= Seq::<Seq<u8>>::empty());
    assert(path@.subrange(0, 0) =~= Seq::<u8>::empty());
    while i < n
        invariant
            n == path@.len(),
            start <= i <= n,
            name_start <= name_end <= n,
            parts(path@.take(i as int)).len() >= 1,
            parts(path@.take(i as int)).last() == path@.subrange(start as int, i as int),
            last_real_part(parts(path@.take(i as int)).drop_last()) == if found {
                Some(path@.subrange(name_start as int, name_end as int))
            } else {
                None
            },
        decreases n - i,
    {
        let ghost before = parts(path@.take(i as int));
        assert(path@.take(i + 1).drop_last() =~= path@.take(i as int));
        assert(path@.take(i + 1).last() == path@[i as int]);
        if path[i] == SEPARATOR {
            assert(parts(path@.take(i + 1)) == before.push(Seq::<u8>::empty()));
            assert(before.push(Seq::<u8>::empty()).drop_last() =~= before);
            if is_real_part(path, start, i) {
                found = true;
                name_start = start;
                name_end = i;
            }
            start = i + 1;
            assert(path@.subrange(start as int, start as int) =~= Seq::<u8>::empty());
        } else {
            assert(parts(path@.take(i + 1)) == before.drop_last().push(
                before.last().push(path@[i as int]),
            ));
            assert(before.drop_last().push(before.last().push(path@[i as int])).drop_last()
                =~= before.drop_last());
            assert(path@.subrange(start as int, i + 1) =~= path@.subrange(
                start as int,
                i as int,
            ).push(path@[i as int]));
        }
        i = i + 1;
    }
    assert(path@.take(n as int) =~= path@);
    if is_real_part(path, start, n) {
        found = true;
        name_start = start;
        name_end = n;
    }
    assert(last_real_part(parts(path@)) == if found {
        Some(path@.subrange(name_start as int, name_end as int))
    } else {
        None
    });
    if !found {
        return "application/octet-stream";
    }
    let name = slice_subrange(path, name_start, name_end);
    if name.len() == 2 && name[0] == DOT && name[1] == DOT {
        assert(name@ =~= parent_dir());
        return "application/octet-stream";
    }
    assert(name@ != parent_dir()) by {
        if name@ == parent_dir() {
            assert(name@.len() == 2);
            assert(name@[0] == DOT && name@[1] == DOT);
        }
    }
    assert(file_name(path@) == Some(name@));
    match extension_in(name) {
        None => "application/octet-stream",
        Some(ext) => type_for(ext),
    }
}

/// Whether the part of `path` from `start` to `end` is neither empty nor
/// `.`.
fn is_real_part(path: &[u8], start: usize, end: usize) -> (counts: bool)
    requires
        start <= end <= path@.len(),
    ensures
        counts == !(path@.subrange(start as int, end as int).len() == 0 || path@.subrange(
            start as int,
            end as int,
        ) == this_dir()),
{
    let ghost part = path@.subrange(start as int, end as int);
    if end - start == 0 {
        false
    } else if end - start == 1 && path[start] == DOT {
        assert(part =~= this_dir());
        false
    } else {
        assert(part != this_dir()) by {
            if part == this_dir() {
                assert(part.len() == 1);
                assert(part[0] == DOT);
            }
        }
        true
    }
}

/// Cuts the extension out of a file name.
fn extension_in(name: &[u8]) -> (ext: Option<&[u8]>)
    ensures
        match (ext, extension_of(name@)) {
            (Some(e), Some(x)) => e@ == x,
            (None, None) => true,
            _ => false,
        },
{
    let n = name.len();
    let mut i: usize = n;
    assert(name@.take(n as int) =~= name@);
    while i > 0 && name[i - 1] != DOT
        invariant
            n == name@.len(),
            i <= n,
            last_dot(name@) == last_dot(name@.take(i as int)),
        decreases i,
    {
        assert(name@.take(i as int).drop_last() =~= name@.take(i - 1));
        i = i - 1;
    }
    if i <= 1 {
        assert(last_dot(name@) <= 0) by {
            if i == 1 {
                assert(name@.take(1).last() == DOT);
            }
        }
        None
    } else {
        assert(name@.take(i as int).last() == DOT);
        assert(last_dot(name@) == i - 1);
        let ext = slice_subrange(name, i, n);
        assert(ext@ =~= name@.skip(i as int));
        Some(ext)
    }
}

/// Looks an extension up in the table.
fn type_for(ext: &[u8]) -> (t: &'static str)
    ensures
        t == mime_type(Some(ext@)),
{
    if same_bytes(ext, "html".as_bytes()) {
        "text/html"
    } else if same_bytes(ext, "css".as_bytes()) {
        "text/css"
    } else if same_bytes(ext, "js".as_bytes()) {
        "application/javascript"
    } else if same_bytes(ext, "json".as_bytes()) {
        "application/json"
    } else if same_bytes(ext, "png".as_bytes()) {
        "image/png"
    } else if same_bytes(ext, "jpg".as_bytes()) || same_bytes(ext, "jpeg".as_bytes()) {
        "image/jpeg"
    } else if same_bytes(ext, "gif".as_bytes()) {
        "image/gif"
    } else if same_bytes(ext, "svg".as_bytes()) {
        "image/svg+xml"
    } else {
        "application/octet-stream"
    }
}

} // verus!
