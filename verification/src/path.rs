//! Header paths: from the path of a header below a frameworks directory to
//! the framework's name and the header's name.

use vstd::prelude::*;

verus! {

/// The suffix of a framework's directory name.
pub open spec fn framework_suffix() -> Seq<char> {
    seq!['.', 'f', 'r', 'a', 'm', 'e', 'w', 'o', 'r', 'k']
}

/// The end of the segment that starts at `from`: the index of the next
/// separator, or the length of the path.
pub open spec fn segment_end(path: Seq<char>, from: int) -> int
    decreases path.len() - from,
{
    if from < 0 || from >= path.len() || path[from] == '/' {
        from
    } else {
        segment_end(path, from + 1)
    }
}

/// The start of the segment that ends at `hi`, within `path[lo..hi]`: the
/// index behind the last separator, or `lo`.
pub open spec fn segment_start(path: Seq<char>, lo: int, hi: int) -> int
    decreases hi - lo,
{
    if hi <= lo || path[hi - 1] == '/' {
        hi
    } else {
        segment_start(path, lo, hi - 1)
    }
}

/// The bounds of the file name of `path[lo..hi]`: its last segment, where
/// trailing separators and trailing `.` segments do not count. There is none
/// where nothing is left or where `..` is.
pub open spec fn file_name(path: Seq<char>, lo: int, hi: int) -> Option<(int, int)>
    decreases hi - lo,
{
    if hi <= lo {
        None
    } else if path[hi - 1] == '/' {
        file_name(path, lo, hi - 1)
    } else {
        let start = segment_start(path, lo, hi);
        let name = path.subrange(start, hi);
        if name == seq!['.'] {
            file_name(path, lo, hi - 1)
        } else if name == seq!['.', '.'] {
            None
        } else {
            Some((start, hi))
        }
    }
}

/// The index of the last dot of `path[lo..hi]`, or `lo - 1` where it has none.
pub open spec fn last_dot(path: Seq<char>, lo: int, hi: int) -> int
    decreases hi - lo,
{
    if hi <= lo {
        lo - 1
    } else if path[hi - 1] == '.' {
        hi - 1
    } else {
        last_dot(path, lo, hi - 1)
    }
}

/// Where the stem of the file name `path[lo..hi]` ends: at its last dot,
/// unless it has none or only the one it begins with.
pub open spec fn stem_end(path: Seq<char>, lo: int, hi: int) -> int {
    let dot = last_dot(path, lo, hi);
    if dot <= lo {
        hi
    } else {
        dot
    }
}

/// `text` ends with `suffix`.
pub open spec fn has_suffix(text: Seq<char>, suffix: Seq<char>) -> bool {
    text.len() >= suffix.len() && text.subrange(text.len() - suffix.len(), text.len() as int)
        == suffix
}

/// The framework's name and the header's name for a path of the shape
/// `Name.framework/../Header.h`: the first segment without its suffix, and
/// the stem of the file name of what follows it. None where the first segment
/// is no framework directory or where no file name follows.
pub open spec fn split(path: Seq<char>) -> Option<(Seq<char>, Seq<char>)> {
    let end = segment_end(path, 0);
    if !has_suffix(path.subrange(0, end), framework_suffix()) {
        None
    } else {
        match file_name(path, end, path.len() as int) {
            None => None,
            Some((lo, hi)) => Some(
                (
                    path.subrange(0, end - framework_suffix().len()),
                    path.subrange(lo, stem_end(path, lo, hi)),
                ),
            ),
        }
    }
}

/// The index of the first separator at or behind `from`, or the length.
pub(crate) fn find_segment_end(path: &str, from: usize, len: usize) -> (end: usize)
    requires
        len == path@.len(),
        from <= len,
    ensures
        end == segment_end(path@, from as int),
        from <= end <= len,
        from < len && path@[from as int] != '/' ==> from < end,
{
    let mut end: usize = from;
    while end < len && path.get_char(end) != '/'
        invariant
            len == path@.len(),
            from <= end <= len,
            end == from || path@[from as int] != '/',
            segment_end(path@, end as int) == segment_end(path@, from as int),
        decreases len - end,
    {
        end += 1;
    }
    end
}

/// The index behind the last separator of `path[lo..hi]`, or `lo`.
fn find_segment_start(path: &str, lo: usize, hi: usize) -> (start: usize)
    requires
        lo <= hi <= path@.len(),
    ensures
        start == segment_start(path@, lo as int, hi as int),
        lo <= start <= hi,
        lo < hi && path@[hi - 1] != '/' ==> start < hi,
{
    let mut start: usize = hi;
    while start > lo && path.get_char(start - 1) != '/'
        invariant
            lo <= start <= hi <= path@.len(),
            start == hi || path@[hi - 1] != '/',
            segment_start(path@, lo as int, start as int) == segment_start(
                path@,
                lo as int,
                hi as int,
            ),
        decreases start,
    {
        start -= 1;
    }
    start
}

/// The bounds of the file name of `path[lo..hi]`.
fn find_file_name(path: &str, lo: usize, hi: usize) -> (bounds: Option<(usize, usize)>)
    requires
        lo <= hi <= path@.len(),
    ensures
        match bounds {
            Some((a, b)) => file_name(path@, lo as int, hi as int) == Some((a as int, b as int))
                && lo <= a < b <= hi,
            None => file_name(path@, lo as int, hi as int).is_none(),
        },
{
    let mut end: usize = hi;
    while end > lo
        invariant
            lo <= end <= hi <= path@.len(),
            file_name(path@, lo as int, end as int) == file_name(path@, lo as int, hi as int),
        decreases end,
    {
        if path.get_char(end - 1) != '/' {
            let start = find_segment_start(path, lo, end);
            let ghost name = path@.subrange(start as int, end as int);
            if end - start == 1 && path.get_char(start) == '.' {
                assert(name =~= seq!['.']);
            } else if end - start == 2 && path.get_char(start) == '.' && path.get_char(start + 1)
                == '.' {
                assert(name =~= seq!['.', '.']);
                return None;
            } else {
                assert(name != seq!['.']) by {
                    if name == seq!['.'] {
                        assert(name.len() == 1 && name[0] == '.');
                    }
                }
                assert(name != seq!['.', '.']) by {
                    if name == seq!['.', '.'] {
                        assert(name.len() == 2 && name[0] == '.' && name[1] == '.');
                    }
                }
                return Some((start, end));
            }
        }
        end -= 1;
    }
    None
}

/// Where the stem of the file name `path[lo..hi]` ends.
fn find_stem_end(path: &str, lo: usize, hi: usize) -> (end: usize)
    requires
        lo <= hi <= path@.len(),
    ensures
        end == stem_end(path@, lo as int, hi as int),
        lo <= end <= hi,
{
    let mut dot: usize = hi;
    while dot > lo && path.get_char(dot - 1) != '.'
        invariant
            lo <= dot <= hi <= path@.len(),
            last_dot(path@, lo as int, dot as int) == last_dot(path@, lo as int, hi as int),
        decreases dot,
    {
        dot -= 1;
    }
    if dot - lo <= 1 {
        hi
    } else {
        dot - 1
    }
}

/// Whether `path[0..end]` ends with the suffix of a framework directory.
fn is_framework(path: &str, end: usize) -> (b: bool)
    requires
        end <= path@.len(),
    ensures
        b == has_suffix(path@.subrange(0, end as int), framework_suffix()),
{
    let suffix = ".framework";
    proof {
        reveal_strlit(".framework");
        assert(suffix@ =~= framework_suffix());
    }
    if end < 10 {
        return false;
    }
    let ghost tail = path@.subrange(0, end as int).subrange(end - 10, end as int);
    let mut i: usize = 0;
    while i < 10
        invariant
            i <= 10 <= end <= path@.len(),
            suffix@ == framework_suffix(),
            tail == path@.subrange(0, end as int).subrange(end - 10, end as int),
            forall|j: int| 0 <= j < i ==> tail[j] == framework_suffix()[j],
        decreases 10 - i,
    {
        if path.get_char(end - 10 + i) != suffix.get_char(i) {
            assert(tail[i as int] != framework_suffix()[i as int]);
            return false;
        }
        i += 1;
    }
    assert(tail =~= framework_suffix());
    true
}

/// The framework's name and the header's name for `path`, where it has the
/// shape `Name.framework/../Header.h`; none else.
pub fn try_split_path(path: &str) -> (names: Option<(String, String)>)
    ensures
        match names {
            Some((library, file)) => split(path@) == Some((library@, file@)),
            None => split(path@).is_none(),
        },
{
    let len = path.unicode_len();
    let end = find_segment_end(path, 0, len);
    if !is_framework(path, end) {
        return None;
    }
    match find_file_name(path, end, len) {
        None => None,
        Some((lo, hi)) => {
            let stop = find_stem_end(path, lo, hi);
            let library = String::from_str(path.substring_char(0, end - 10));
            let file = String::from_str(path.substring_char(lo, stop));
            Some((library, file))
        },
    }
}

/// The framework's name and the header's name for a path of the shape
/// `Name.framework/../Header.h`, relative to the frameworks directory.
pub fn split_path(path: &str) -> (names: (String, String))
    requires
        split(path@).is_some(),
    ensures
        split(path@) == Some((names.0@, names.1@)),
{
    try_split_path(path).unwrap()
}

} // verus!
