//! Where a declaration comes from: the framework and the header that a file
//! below the SDK belongs to.

use crate::path::{find_segment_end, segment_end, split, split_path, try_split_path};
use vstd::prelude::*;

verus! {

/// `base` with the relative path `rest` below it: joined by one separator,
/// unless `base` is empty or ends with one.
pub open spec fn joined(base: Seq<char>, rest: Seq<char>) -> Seq<char> {
    if base.len() == 0 || base.last() == '/' {
        base + rest
    } else {
        base + seq!['/'] + rest
    }
}

/// `path` begins at the root.
pub open spec fn is_rooted(path: Seq<char>) -> bool {
    path.len() > 0 && path[0] == '/'
}

/// `path` begins with a `.` segment, which stands for the current directory.
pub open spec fn has_cur_dir(path: Seq<char>) -> bool {
    path.len() > 0 && path[0] == '.' && (path.len() == 1 || path[1] == '/')
}

/// `path` has no component at all.
pub open spec fn is_blank(path: Seq<char>) -> bool {
    !is_rooted(path) && !has_cur_dir(path) && component_start(path, 0) >= path.len()
}

/// Where the next component starts at or behind the segment boundary `from`:
/// behind separators and `.` segments, which are no components.
pub open spec fn component_start(path: Seq<char>, from: int) -> int
    decreases path.len() - from,
{
    if from < 0 || from >= path.len() {
        from
    } else if path[from] == '/' {
        component_start(path, from + 1)
    } else if path[from] == '.' && (from + 1 == path.len() || path[from + 1] == '/') {
        component_start(path, from + 1)
    } else {
        from
    }
}

/// Matches the components of `dir` from `j` on against those of `path` from
/// `i` on, one by one. Where `dir` runs out first or together with `path`,
/// the result is where the rest of `path` starts; none where a component
/// differs or `path` runs out first.
pub open spec fn matched(path: Seq<char>, i: int, dir: Seq<char>, j: int) -> Option<int>
    decreases dir.len() - j,
{
    let start = component_start(path, i);
    let dir_start = component_start(dir, j);
    if dir_start >= dir.len() {
        Some(start)
    } else if start >= path.len() {
        None
    } else {
        let end = segment_end(path, start);
        let dir_end = segment_end(dir, dir_start);
        if j < dir_end <= dir.len() && path.subrange(start, end) == dir.subrange(
            dir_start,
            dir_end,
        ) {
            matched(path, end, dir, dir_end)
        } else {
            None
        }
    }
}

/// Where the rest of `path` below `dir` starts, if `path` is `dir` or lies
/// below it, component by component: repeated separators, `.` segments
/// inside a path and trailing separators make no difference.
pub open spec fn below(path: Seq<char>, dir: Seq<char>) -> Option<int> {
    if is_blank(dir) {
        Some(0)
    } else if is_rooted(path) != is_rooted(dir) || has_cur_dir(path) != has_cur_dir(dir) {
        None
    } else if has_cur_dir(dir) {
        matched(path, 1, dir, 1)
    } else {
        matched(path, 0, dir, 0)
    }
}

/// `path` and `dir` have the same components: nothing of `path` is left
/// below `dir`.
pub open spec fn same_path(path: Seq<char>, dir: Seq<char>) -> bool {
    below(path, dir) matches Some(rest) && rest >= path.len()
}

/// What is left of `path` from `rest` on.
pub open spec fn tail(path: Seq<char>, rest: int) -> Seq<char> {
    if 0 <= rest <= path.len() {
        path.subrange(rest, path.len() as int)
    } else {
        Seq::empty()
    }
}

/// The text of a path, if there is one.
pub open spec fn text_of(file: Option<&str>) -> Option<Seq<char>> {
    match file {
        Some(path) => Some(path@),
        None => None,
    }
}

/// A pair of names as text, if there is one.
pub open spec fn names_view(names: Option<(String, String)>) -> Option<(Seq<char>, Seq<char>)> {
    match names {
        Some((library, name)) => Some((library@, name@)),
        None => None,
    }
}

/// The directories of an SDK that decide where a declaration belongs.
#[derive(Debug)]
pub struct Context {
    framework_dir: String,
    nsobject_dir: String,
}

impl Context {
    /// The directory that holds the frameworks.
    pub closed spec fn framework_dir(&self) -> Seq<char> {
        self.framework_dir@
    }

    /// The header of the root class, which lies outside the frameworks.
    pub closed spec fn nsobject_dir(&self) -> Seq<char> {
        self.nsobject_dir@
    }

    /// The framework and header names of the file at `file`: those of its
    /// path below the frameworks directory; `Foundation` and `NSObject` for
    /// the root class's header; none for any other file and for no file.
    pub open spec fn library_and_file_name(&self, file: Option<Seq<char>>) -> Option<
        (Seq<char>, Seq<char>),
    > {
        match file {
            None => None,
            Some(path) => if let Some(rest) = below(path, self.framework_dir()) {
                split(tail(path, rest))
            } else if same_path(path, self.nsobject_dir()) {
                Some(("Foundation"@, "NSObject"@))
            } else {
                None
            },
        }
    }

    /// A file below the frameworks directory lies in a framework's directory
    /// and has a file name.
    pub open spec fn can_resolve(&self, file: Option<Seq<char>>) -> bool {
        file matches Some(path) ==> (below(path, self.framework_dir()) matches Some(rest)
            ==> split(tail(path, rest)).is_some())
    }

    /// The context of the SDK at `sdk`.
    pub fn new(sdk: &str) -> (context: Context)
        ensures
            context.framework_dir() == joined(sdk@, "System/Library/Frameworks"@),
            context.nsobject_dir() == joined(sdk@, "usr/include/objc/NSObject.h"@),
    {
        Context {
            framework_dir: join(sdk, "System/Library/Frameworks"),
            nsobject_dir: join(sdk, "usr/include/objc/NSObject.h"),
        }
    }

    /// The framework and header names for a declaration in the file at
    /// `file`, if it has one. A file below the frameworks directory lies in a
    /// framework's directory.
    pub fn get_library_and_file_name(&self, file: Option<&str>) -> (names: Option<
        (String, String),
    >)
        requires
            self.can_resolve(text_of(file)),
        ensures
            names_view(names) == self.library_and_file_name(text_of(file)),
    {
        match file {
            None => None,
            Some(path) => {
                let len = path.unicode_len();
                match strip_prefix(path, self.framework_dir.as_str()) {
                    Some(from) => Some(split_path(path.substring_char(from, len))),
                    None => {
                        match strip_prefix(path, self.nsobject_dir.as_str()) {
                            Some(rest) => {
                                if rest >= len {
                                    Some(
                                        (
                                            String::from_str("Foundation"),
                                            String::from_str("NSObject"),
                                        ),
                                    )
                                } else {
                                    None
                                }
                            },
                            None => None,
                        }
                    },
                }
            },
        }
    }

    /// Whether `get_library_and_file_name` can answer for `file`: it is none,
    /// or it lies outside the frameworks directory, or in a framework's
    /// directory below it.
    pub fn resolves(&self, file: Option<&str>) -> (b: bool)
        ensures
            b == self.can_resolve(text_of(file)),
    {
        match file {
            None => true,
            Some(path) => {
                let len = path.unicode_len();
                match strip_prefix(path, self.framework_dir.as_str()) {
                    Some(from) => try_split_path(path.substring_char(from, len)).is_some(),
                    None => true,
                }
            },
        }
    }
}

/// Whether `path` begins at the root.
fn rooted(path: &str) -> (b: bool)
    ensures
        b == is_rooted(path@),
{
    path.unicode_len() > 0 && path.get_char(0) == '/'
}

/// Whether `path` begins with a `.` segment.
fn cur_dir(path: &str) -> (b: bool)
    ensures
        b == has_cur_dir(path@),
{
    let len = path.unicode_len();
    len > 0 && path.get_char(0) == '.' && (len == 1 || path.get_char(1) == '/')
}

/// Whether `path` has no component at all.
fn is_blank_path(path: &str) -> (b: bool)
    ensures
        b == is_blank(path@),
{
    !rooted(path) && !cur_dir(path) && find_component_start(path, 0) >= path.unicode_len()
}

/// Where the next component starts at or behind `from`.
fn find_component_start(path: &str, from: usize) -> (start: usize)
    requires
        from <= path@.len(),
    ensures
        start == component_start(path@, from as int),
        from <= start <= path@.len(),
        start < path@.len() ==> path@[start as int] != '/',
{
    let len = path.unicode_len();
    let mut start: usize = from;
    while start < len && (path.get_char(start) == '/' || (path.get_char(start) == '.' && (start
        + 1 == len || path.get_char(start + 1) == '/')))
        invariant
            len == path@.len(),
            from <= start <= len,
            component_start(path@, start as int) == component_start(path@, from as int),
        decreases len - start,
    {
        start += 1;
    }
    start
}

/// Whether `path[a..b]` and `dir[c..d]` are the same text.
fn same_text(path: &str, a: usize, b: usize, dir: &str, c: usize, d: usize) -> (same: bool)
    requires
        a <= b <= path@.len(),
        c <= d <= dir@.len(),
    ensures
        same == (path@.subrange(a as int, b as int) == dir@.subrange(c as int, d as int)),
{
    let ghost left = path@.subrange(a as int, b as int);
    let ghost right = dir@.subrange(c as int, d as int);
    if b - a != d - c {
        assert(left.len() != right.len());
        return false;
    }
    let mut i: usize = 0;
    while i < b - a
        invariant
            a <= b <= path@.len(),
            c <= d <= dir@.len(),
            b - a == d - c,
            i <= b - a,
            left == path@.subrange(a as int, b as int),
            right == dir@.subrange(c as int, d as int),
            forall|k: int| 0 <= k < i ==> left[k] == right[k],
        decreases b - a - i,
    {
        if path.get_char(a + i) != dir.get_char(c + i) {
            assert(left[i as int] != right[i as int]);
            return false;
        }
        i += 1;
    }
    assert(left =~= right);
    true
}

/// Where the rest of `path` below `dir` starts, if `path` is `dir` or lies
/// below it.
fn strip_prefix(path: &str, dir: &str) -> (start: Option<usize>)
    ensures
        match start {
            Some(rest) => below(path@, dir@) == Some(rest as int) && rest <= path@.len(),
            None => below(path@, dir@).is_none(),
        },
{
    if is_blank_path(dir) {
        return Some(0);
    }
    if rooted(path) != rooted(dir) || cur_dir(path) != cur_dir(dir) {
        return None;
    }
    let len = path.unicode_len();
    let dir_len = dir.unicode_len();
    let first: usize = if cur_dir(dir) {
        1
    } else {
        0
    };
    let mut i: usize = first;
    let mut j: usize = first;
    loop
        invariant
            len == path@.len(),
            dir_len == dir@.len(),
            i <= len,
            j <= dir_len,
            matched(path@, i as int, dir@, j as int) == matched(
                path@,
                first as int,
                dir@,
                first as int,
            ),
            below(path@, dir@) == matched(path@, first as int, dir@, first as int),
        decreases dir_len - j,
    {
        let start = find_component_start(path, i);
        let dir_start = find_component_start(dir, j);
        if dir_start >= dir_len {
            return Some(start);
        }
        if start >= len {
            return None;
        }
        let end = find_segment_end(path, start, len);
        let dir_end = find_segment_end(dir, dir_start, dir_len);
        if !same_text(path, start, end, dir, dir_start, dir_end) {
            return None;
        }
        i = end;
        j = dir_end;
    }
}

/// `base` with the relative path `rest` below it.
fn join(base: &str, rest: &str) -> (path: String)
    ensures
        path@ == joined(base@, rest@),
{
    let len = base.unicode_len();
    let mut path = String::from_str(base);
    if len > 0 && base.get_char(len - 1) != '/' {
        proof {
            reveal_strlit("/");
            assert("/"@ =~= seq!['/']);
        }
        path.append("/");
    }
    path.append(rest);
    path
}

} // verus!
