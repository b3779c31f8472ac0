//! The request line. Of a request only its first line is read, and of that
//! line only the second word, the path; a request without one asks for `/`.

use crate::bytes::append;
use vstd::prelude::*;
use vstd::slice::slice_subrange;
use vstd::string::StringSliceAdditionalSpecFns;

verus! {

/// Whether three bytes encode one of the white-space characters that take
/// three bytes: U+1680, U+2000 to U+200A, U+2028, U+2029, U+202F, U+205F
/// and U+3000.
pub open spec fn wide_space(a: u8, b: u8, c: u8) -> bool {
    ||| a == 0xE1 && b == 0x9A && c == 0x80
    ||| a == 0xE2 && b == 0x80 && (0x80 <= c <= 0x8A || c == 0xA8 || c == 0xA9 || c == 0xAF)
    ||| a == 0xE2 && b == 0x81 && c == 0x9F
    ||| a == 0xE3 && b == 0x80 && c == 0x80
}

/// The number of bytes of the white-space character that begins at byte
/// `i` of `s`, and 0 where none begins: one byte for a space and for U+0009
/// to U+000D, two for U+0085 and U+00A0, three for the rest.
pub open spec fn space_width(s: Seq<u8>, i: int) -> int {
    if !(0 <= i < s.len()) {
        0
    } else if s[i] == 0x20 || 0x09 <= s[i] <= 0x0D {
        1
    } else if i + 1 < s.len() && s[i] == 0xC2 && (s[i + 1] == 0x85 || s[i + 1] == 0xA0) {
        2
    } else if i + 2 < s.len() && wide_space(s[i], s[i + 1], s[i + 2]) {
        3
    } else {
        0
    }
}

/// Where the line that holds byte `from` ends: the place of the first line
/// feed at or after `from`, or the end of `s`.
pub open spec fn line_end(s: Seq<u8>, from: int) -> int
    decreases s.len() - from,
{
    if 0 <= from < s.len() && s[from] != 0x0A {
        line_end(s, from + 1)
    } else {
        from
    }
}

/// Where the white space that begins at `from` ends: the first place at or
/// after `from` at which no white-space character begins.
pub open spec fn spaces_end(s: Seq<u8>, from: int) -> int
    decreases s.len() - from,
{
    if space_width(s, from) > 0 {
        spaces_end(s, from + space_width(s, from))
    } else {
        from
    }
}

/// Where the word that begins at `from` ends: the first place at or after
/// `from` at which white space begins, or the end of `s`.
pub open spec fn word_end(s: Seq<u8>, from: int) -> int
    decreases s.len() - from,
{
    if 0 <= from < s.len() && space_width(s, from) == 0 {
        word_end(s, from + 1)
    } else {
        from
    }
}

/// The first line of a request: what stands before its first line feed.
pub open spec fn first_line(request: Seq<u8>) -> Seq<u8> {
    request.take(line_end(request, 0))
}

/// Where the second word of `line` begins: after the white space that
/// follows the first word.
pub open spec fn second_word_start(line: Seq<u8>) -> int {
    spaces_end(line, word_end(line, spaces_end(line, 0)))
}

/// The path that a request asks for: the second word of its first line,
/// and `/` where that line has fewer than two words.
pub open spec fn requested_path(request: Seq<u8>) -> Seq<u8> {
    let line = first_line(request);
    let start = second_word_start(line);
    if start < line.len() {
        line.subrange(start, word_end(line, start))
    } else {
        "/".spec_bytes()
    }
}

/// The three scans stay inside the sequence and never go backwards.
pub proof fn lemma_scan_bounds(s: Seq<u8>, from: int)
    requires
        0 <= from <= s.len(),
    ensures
        from <= line_end(s, from) <= s.len(),
        from <= spaces_end(s, from) <= s.len(),
        from <= word_end(s, from) <= s.len(),
        space_width(s, spaces_end(s, from)) == 0,
        word_end(s, from) < s.len() ==> space_width(s, word_end(s, from)) > 0,
        line_end(s, from) < s.len() ==> s[line_end(s, from)] == 0x0A,
        forall|i: int| from <= i < line_end(s, from) ==> s[i] != 0x0A,
        forall|i: int| from <= i < word_end(s, from) ==> space_width(s, i) == 0,
    decreases s.len() - from,
{
    if from < s.len() {
        if s[from] != 0x0A {
            lemma_scan_bounds(s, from + 1);
        }
        if space_width(s, from) > 0 {
            lemma_scan_bounds(s, from + space_width(s, from));
        } else {
            lemma_scan_bounds(s, from + 1);
        }
    }
}

/// A path that was read from a request line is a word: it is not empty and
/// no white space begins inside it. The path `/` that stands in for a
/// missing word is the only other result.
pub proof fn lemma_requested_path_is_a_word(request: Seq<u8>)
    ensures
        ({
            let line = first_line(request);
            let start = second_word_start(line);
            let path = requested_path(request);
            if start < line.len() {
                &&& path.len() >= 1
                &&& path == line.subrange(start, start + path.len())
                &&& forall|i: int| start <= i < start + path.len() ==> space_width(line, i) == 0
                &&& forall|i: int|
                    0 <= i < path.len() ==> #[trigger] path[i] != 0x20 && path[i] != 0x0A
            } else {
                path == "/".spec_bytes()
            }
        }),
{
    let line = first_line(request);
    lemma_scan_bounds(request, 0);
    lemma_scan_bounds(line, 0);
    lemma_scan_bounds(line, spaces_end(line, 0));
    lemma_scan_bounds(line, word_end(line, spaces_end(line, 0)));
    let start = second_word_start(line);
    lemma_scan_bounds(line, start);
    let path = requested_path(request);
    if start < line.len() {
        assert forall|i: int| 0 <= i < path.len() implies #[trigger] path[i] != 0x20 && path[i]
            != 0x0A by {
            assert(space_width(line, start + i) == 0);
        }
    }
}

/// The width of the white-space character that begins at byte `i`.
fn space_width_at(s: &[u8], i: usize) -> (w: usize)
    ensures
        w == space_width(s@, i as int),
        w > 0 ==> i + w <= s@.len() <= usize::MAX,
{
    let n = s.len();
    if i >= n {
        return 0;
    }
    let a = s[i];
    if a == 0x20 || (0x09 <= a && a <= 0x0D) {
        return 1;
    }
    if n - i >= 2 && a == 0xC2 && (s[i + 1] == 0x85 || s[i + 1] == 0xA0) {
        return 2;
    }
    if n - i >= 3 {
        let b = s[i + 1];
        let c = s[i + 2];
        if (a == 0xE1 && b == 0x9A && c == 0x80) || (a == 0xE2 && b == 0x80 && ((0x80 <= c && c
            <= 0x8A) || c == 0xA8 || c == 0xA9 || c == 0xAF)) || (a == 0xE2 && b == 0x81 && c
            == 0x9F) || (a == 0xE3 && b == 0x80 && c == 0x80) {
            return 3;
        }
    }
    0
}

/// Finds the end of the first line.
fn find_line_end(s: &[u8]) -> (end: usize)
    ensures
        end == line_end(s@, 0),
        end <= s@.len(),
{
    let mut i: usize = 0;
    while i < s.len() && s[i] != 0x0A
        invariant
            i <= s@.len(),
            line_end(s@, 0) == line_end(s@, i as int),
        decreases s@.len() - i,
    {
        i = i + 1;
    }
    i
}

/// Skips the white space that begins at `from`.
fn skip_spaces(s: &[u8], from: usize) -> (end: usize)
    requires
        from <= s@.len(),
    ensures
        end == spaces_end(s@, from as int),
        from <= end <= s@.len(),
{
    let mut i: usize = from;
    let mut w: usize = space_width_at(s, i);
    while w > 0
        invariant
            i <= s@.len(),
            w == space_width(s@, i as int),
            w > 0 ==> i + w <= s@.len() <= usize::MAX,
            from <= i,
            spaces_end(s@, from as int) == spaces_end(s@, i as int),
        decreases s@.len() - i,
    {
        i = i + w;
        w = space_width_at(s, i);
    }
    i
}

/// Skips the word that begins at `from`.
fn skip_word(s: &[u8], from: usize) -> (end: usize)
    requires
        from <= s@.len(),
    ensures
        end == word_end(s@, from as int),
        from <= end <= s@.len(),
{
    let mut i: usize = from;
    while i < s.len() && space_width_at(s, i) == 0
        invariant
            from <= i <= s@.len(),
            word_end(s@, from as int) == word_end(s@, i as int),
        decreases s@.len() - i,
    {
        i = i + 1;
    }
    i
}

/// Reads the path out of the bytes of a request. Nothing else of the
/// request is looked at: not the method, not the version, no header.
pub fn request_path(request: &[u8]) -> (path: Vec<u8>)
    ensures
        path@ == requested_path(request@),
{
    let end = find_line_end(request);
    let line = slice_subrange(request, 0, end);
    assert(line@ =~= first_line(request@));
    let first = skip_spaces(line, 0);
    let after_first = skip_word(line, first);
    let start = skip_spaces(line, after_first);
    let mut path: Vec<u8> = Vec::new();
    if start < line.len() {
        let stop = skip_word(line, start);
        append(&mut path, slice_subrange(line, start, stop));
    } else {
        append(&mut path, "/".as_bytes());
    }
    path
}

} // verus!
