//! Path text handling.
//!
//! Paths reach the library as plain strings. The catalog reads a display
//! name out of a path, and the rename planner reads an extension and
//! rebuilds a sibling path; all three go by the same rules, stated here
//! over character sequences: a path's tail is everything after its last
//! slash, and an extension is everything after the last dot of the tail,
//! where a dot that starts the tail does not count.

use vstd::prelude::*;

verus! {

/// The index of the last occurrence of `c` in `s`, or -1 when there is none.
pub open spec fn last_index_of(s: Seq<char>, c: char) -> int
    decreases s.len(),
{
    if s.len() == 0 {
        -1
    } else if s.last() == c {
        s.len() - 1
    } else {
        last_index_of(s.drop_last(), c)
    }
}

/// The tail of a path: everything after the last slash, the whole path
/// when it has no slash.
pub open spec fn path_tail(path: Seq<char>) -> Seq<char> {
    path.subrange(last_index_of(path, '/') + 1, path.len() as int)
}

/// The display name derived from a path: its tail, or the fixed fallback
/// name when the tail is empty.
pub open spec fn display_name(path: Seq<char>) -> Seq<char> {
    if path_tail(path).len() == 0 {
        "invalid_filename"@
    } else {
        path_tail(path)
    }
}

/// The extension of a path: everything after the last dot of its tail.
/// A tail with no dot, or whose only dot starts it, has no extension.
pub open spec fn extension_of(path: Seq<char>) -> Option<Seq<char>> {
    let tail = path_tail(path);
    let ld = last_index_of(tail, '.');
    if ld <= 0 {
        Option::None
    } else {
        Option::Some(tail.subrange(ld + 1, tail.len() as int))
    }
}

/// The path with its tail replaced by `name`: the rename destination stays
/// in the source's directory.
pub open spec fn with_tail(path: Seq<char>, name: Seq<char>) -> Seq<char> {
    path.subrange(0, last_index_of(path, '/') + 1) + name
}

/// Scans for the last occurrence of `c` in `s`.
pub fn find_last(s: &str, c: char) -> (r: Option<usize>)
    ensures
        match r {
            Option::Some(i) => last_index_of(s@, c) == i as int && i < s@.len(),
            Option::None => last_index_of(s@, c) == -1,
        },
{
    let n = s.unicode_len();
    let mut best: Option<usize> = None;
    let mut i: usize = 0;
    while i < n
        invariant
            i <= n,
            n == s@.len(),
            match best {
                Option::Some(b) => last_index_of(s@.take(i as int), c) == b as int && b < i,
                Option::None => last_index_of(s@.take(i as int), c) == -1,
            },
        decreases n - i,
    {
        if s.get_char(i) == c {
            best = Some(i);
        }
        proof {
            assert(s@.take(i + 1).last() == s@[i as int]);
            assert(s@.take(i + 1).drop_last() =~= s@.take(i as int));
        }
        i = i + 1;
    }
    proof {
        assert(s@.take(n as int) =~= s@);
    }
    best
}

/// Reads the display name out of a path.
pub fn display_name_of(path: &str) -> (name: String)
    ensures
        name@ == display_name(path@),
{
    let n = path.unicode_len();
    let start: usize = match find_last(path, '/') {
        Some(i) => i + 1,
        None => 0,
    };
    let tail = path.substring_char(start, n);
    if tail.unicode_len() == 0 {
        String::from_str("invalid_filename")
    } else {
        String::from_str(tail)
    }
}

/// Reads the extension out of a path.
pub fn path_extension(path: &str) -> (ext: Option<String>)
    ensures
        match ext {
            Option::Some(e) => extension_of(path@) == Option::Some(e@),
            Option::None => extension_of(path@) is None,
        },
{
    let n = path.unicode_len();
    let start: usize = match find_last(path, '/') {
        Some(i) => i + 1,
        None => 0,
    };
    let tail = path.substring_char(start, n);
    match find_last(tail, '.') {
        Some(ld) => {
            if ld == 0 {
                None
            } else {
                let e = tail.substring_char(ld + 1, tail.unicode_len());
                Some(String::from_str(e))
            }
        },
        None => None,
    }
}

/// Replaces the tail of a path, keeping the directory part.
pub fn with_file_name(path: &str, name: &str) -> (r: String)
    ensures
        r@ == with_tail(path@, name@),
{
    let n = path.unicode_len();
    let end: usize = match find_last(path, '/') {
        Some(i) => i + 1,
        None => 0,
    };
    proof {
        assert(end <= n);
    }
    let dir = path.substring_char(0, end);
    let mut r = String::from_str(dir);
    r.append(name);
    r
}

} // verus!
