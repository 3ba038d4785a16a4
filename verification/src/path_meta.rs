//! What the indexer reads from a file's path: its name, its extension, and
//! where it lies below the directory that is indexed.
//!
//! A path is text whose parts are separated by `/`. An empty part (as in
//! `a//b` or behind a trailing `/`) and a part that is just `.` do not count.

use crate::text::{ascii_lowercase, chars_of, to_ascii_lowercase};
use vstd::prelude::*;
use vstd::string::*;

verus! {

/// What a path says of a file.
#[derive(Clone, Debug, PartialEq, Eq)]
pub struct PathMetdata {
    /// The last part of the path, unless that is `..`.
    pub name: Option<String>,
    /// What follows the last `.` of the name, in lower case.
    pub extension: Option<String>,
    /// The path as it was given.
    pub path: String,
    /// The path from the base directory on; empty where the file does not
    /// lie below it.
    pub rel_path: String,
}

/// What a `PathMetdata` stands for.
pub ghost struct PathFields {
    pub name: Option<Seq<char>>,
    pub extension: Option<Seq<char>>,
    pub path: Seq<char>,
    pub rel_path: Seq<char>,
}

impl View for PathMetdata {
    type V = PathFields;

    open spec fn view(&self) -> PathFields {
        PathFields {
            name: self.name.deep_view(),
            extension: self.extension.deep_view(),
            path: self.path@,
            rel_path: self.rel_path@,
        }
    }
}

/// Where the part that starts at `from` ends: at the next `/`, or at the end.
pub open spec fn part_end(s: Seq<char>, from: int) -> int
    decreases s.len() - from,
{
    if from < 0 || from >= s.len() {
        s.len() as int
    } else if s[from] == '/' {
        from
    } else {
        part_end(s, from + 1)
    }
}

/// Where the part that ends at `to` starts: behind the last `/` before it, or
/// at the start.
pub open spec fn part_start(s: Seq<char>, to: int) -> int
    decreases to,
{
    if to <= 0 || to > s.len() {
        0
    } else if s[to - 1] == '/' {
        to
    } else {
        part_start(s, to - 1)
    }
}

/// Where the first part that counts starts, at or behind `from`; the length of
/// `s` where none is left.
pub open spec fn next_part(s: Seq<char>, from: int) -> int
    decreases s.len() - from,
{
    if from < 0 || from >= s.len() {
        s.len() as int
    } else {
        let end = part_end(s, from);
        if end == from {
            next_part(s, from + 1)
        } else if end == from + 1 && s[from] == '.' {
            next_part(s, from + 1)
        } else {
            from
        }
    }
}

/// Where the last part that counts ends, at or before `to`; 0 where there is
/// none.
pub open spec fn last_part_end(s: Seq<char>, to: int) -> int
    decreases to,
{
    if to <= 0 || to > s.len() {
        0
    } else {
        let start = part_start(s, to);
        if start == to {
            last_part_end(s, to - 1)
        } else if start == to - 1 && s[start] == '.' {
            last_part_end(s, to - 1)
        } else {
            to
        }
    }
}

/// The name of the file: the last part that counts, unless it is `..`.
pub open spec fn file_name(s: Seq<char>) -> Option<Seq<char>> {
    let end = last_part_end(s, s.len() as int);
    let name = s.subrange(part_start(s, end), end);
    if end == 0 || name == seq!['.', '.'] {
        None
    } else {
        Some(name)
    }
}

/// Where the last `.` before `to` stands; -1 where there is none.
pub open spec fn last_dot(name: Seq<char>, to: int) -> int
    decreases to,
{
    if to <= 0 || to > name.len() {
        -1
    } else if name[to - 1] == '.' {
        to - 1
    } else {
        last_dot(name, to - 1)
    }
}

/// What follows the last `.` of a name, unless the name has none or has just
/// the one it starts with.
pub open spec fn extension_of(name: Seq<char>) -> Option<Seq<char>> {
    let dot = last_dot(name, name.len() as int);
    if dot <= 0 {
        None
    } else {
        Some(name.subrange(dot + 1, name.len() as int))
    }
}

/// The extension of the file that a path names, in lower case.
pub open spec fn file_extension(s: Seq<char>) -> Option<Seq<char>> {
    match file_name(s) {
        Some(name) => match extension_of(name) {
            Some(ext) => Some(ascii_lowercase(ext)),
            None => None,
        },
        None => None,
    }
}

/// The path starts at the root.
pub open spec fn has_root(s: Seq<char>) -> bool {
    s.len() > 0 && s[0] == '/'
}

/// The path starts with a part `.`, which stands for the current directory.
pub open spec fn starts_in_current_dir(s: Seq<char>) -> bool {
    s.len() > 0 && s[0] == '.' && (s.len() == 1 || s[1] == '/')
}

/// A part ends at or behind the place where it starts, at a `/` or at the end
/// of the text, and holds no `/`.
pub proof fn lemma_part_end(s: Seq<char>, from: int)
    requires
        0 <= from <= s.len(),
    ensures
        from <= part_end(s, from) <= s.len(),
        part_end(s, from) < s.len() ==> s[part_end(s, from)] == '/',
        forall|k: int| from <= k < part_end(s, from) ==> #[trigger] s[k] != '/',
    decreases s.len() - from,
{
    if from < s.len() && s[from] != '/' {
        lemma_part_end(s, from + 1);
    }
}

/// The next part that counts starts at or behind the place where the search
/// starts; it is not empty and not `.`.
pub proof fn lemma_next_part(s: Seq<char>, from: int)
    requires
        0 <= from,
    ensures
        from <= next_part(s, from) || next_part(s, from) == s.len(),
        next_part(s, from) <= s.len(),
        next_part(s, from) < s.len() ==> {
            let start = next_part(s, from);
            &&& s[start] != '/'
            &&& start < part_end(s, start)
            &&& !(part_end(s, start) == start + 1 && s[start] == '.')
        },
    decreases s.len() - from,
{
    if from < s.len() {
        lemma_part_end(s, from);
        lemma_next_part(s, from + 1);
    }
}

/// Walks the parts of `base` from `j` and those of `s` from `i` side by side.
/// Where every part of `base` is met by the same part of `s`, gives the place
/// in `s` where the first part behind them starts (the length of `s` where
/// none is left).
pub open spec fn parts_behind(s: Seq<char>, i: int, base: Seq<char>, j: int) -> Option<int>
    decreases base.len() - j,
{
    let bj = next_part(base, j);
    let si = next_part(s, i);
    if j < 0 || bj >= base.len() {
        Some(si)
    } else if si >= s.len() {
        None
    } else {
        let be = part_end(base, bj);
        let se = part_end(s, si);
        if s.subrange(si, se) == base.subrange(bj, be) {
            proof {
                lemma_next_part(base, j);
                lemma_part_end(base, bj);
            }
            parts_behind(s, se, base, be)
        } else {
            None
        }
    }
}

/// The path of a file from the directory `base` on: from the first part of
/// `s` behind those of `base` to the last that counts. `None` where `s` does
/// not lie below `base`: where one starts at the root, or in the current
/// directory, and the other does not, or where a part of `base` is not met.
pub open spec fn strip_base(s: Seq<char>, base: Seq<char>) -> Option<Seq<char>> {
    let end = last_part_end(s, s.len() as int);
    if base.len() == 0 {
        let floor: int = if has_root(s) || starts_in_current_dir(s) { 1 } else { 0 };
        Some(s.subrange(0, if end < floor { floor } else { end }))
    } else if has_root(base) != has_root(s) || starts_in_current_dir(base)
        != starts_in_current_dir(s) {
        None
    } else {
        match parts_behind(s, 0, base, 0) {
            Some(start) => if start < end {
                Some(s.subrange(start, end))
            } else {
                Some(Seq::empty())
            },
            None => None,
        }
    }
}

/// The path from `base` on, empty where the file does not lie below `base`.
pub open spec fn relative_path(s: Seq<char>, base: Seq<char>) -> Seq<char> {
    match strip_base(s, base) {
        Some(rel) => rel,
        None => Seq::empty(),
    }
}

/// What the path `s` says of a file, for the base directory `base`.
pub open spec fn classify(s: Seq<char>, base: Seq<char>) -> PathFields {
    PathFields {
        name: file_name(s),
        extension: file_extension(s),
        path: s,
        rel_path: relative_path(s, base),
    }
}

fn find_part_end(s: &Vec<char>, from: usize) -> (end: usize)
    requires
        from <= s.len(),
    ensures
        end == part_end(s@, from as int),
        from <= end <= s.len(),
{
    let mut i: usize = from;
    while i < s.len() && s[i] != '/'
        invariant
            from <= i <= s.len(),
            part_end(s@, from as int) == part_end(s@, i as int),
        decreases s.len() - i,
    {
        i += 1;
    }
    i
}

fn find_part_start(s: &Vec<char>, to: usize) -> (start: usize)
    requires
        to <= s.len(),
    ensures
        start == part_start(s@, to as int),
        start <= to,
{
    let mut i: usize = to;
    while i > 0 && s[i - 1] != '/'
        invariant
            i <= to <= s.len(),
            part_start(s@, to as int) == part_start(s@, i as int),
        decreases i,
    {
        i -= 1;
    }
    i
}

fn find_next_part(s: &Vec<char>, from: usize) -> (start: usize)
    requires
        from <= s.len(),
    ensures
        start == next_part(s@, from as int),
        from <= start <= s.len(),
{
    let mut i: usize = from;
    while i < s.len()
        invariant
            from <= i <= s.len(),
            next_part(s@, from as int) == next_part(s@, i as int),
        decreases s.len() - i,
    {
        let end: usize = find_part_end(s, i);
        if end == i || (end == i + 1 && s[i] == '.') {
            i += 1;
        } else {
            return i;
        }
    }
    i
}

fn find_last_part_end(s: &Vec<char>, to: usize) -> (end: usize)
    requires
        to <= s.len(),
    ensures
        end == last_part_end(s@, to as int),
        end <= to,
{
    let mut i: usize = to;
    while i > 0
        invariant
            i <= to <= s.len(),
            last_part_end(s@, to as int) == last_part_end(s@, i as int),
        decreases i,
    {
        let start: usize = find_part_start(s, i);
        if start == i || (start == i - 1 && s[start] == '.') {
            i -= 1;
        } else {
            return i;
        }
    }
    i
}

fn find_last_dot(s: &Vec<char>, start: usize, end: usize) -> (dot: Option<usize>)
    requires
        start <= end <= s.len(),
    ensures
        match dot {
            Some(k) => start <= k < end && last_dot(
                s@.subrange(start as int, end as int),
                end - start,
            ) == k - start,
            None => last_dot(s@.subrange(start as int, end as int), end - start) == -1,
        },
{
    let ghost name = s@.subrange(start as int, end as int);
    let mut i: usize = end;
    while i > start
        invariant
            start <= i <= end <= s.len(),
            name == s@.subrange(start as int, end as int),
            last_dot(name, end - start) == last_dot(name, i - start),
        decreases i,
    {
        assert(name[i - 1 - start] == s@[i - 1]);
        if s[i - 1] == '.' {
            return Some(i - 1);
        }
        i -= 1;
    }
    None
}

fn same_text(s: &Vec<char>, si: usize, se: usize, base: &Vec<char>, bj: usize, be: usize) -> (same:
    bool)
    requires
        si <= se <= s.len(),
        bj <= be <= base.len(),
    ensures
        same == (s@.subrange(si as int, se as int) == base@.subrange(bj as int, be as int)),
{
    let ghost a = s@.subrange(si as int, se as int);
    let ghost b = base@.subrange(bj as int, be as int);
    if se - si != be - bj {
        assert(a.len() != b.len());
        return false;
    }
    let mut k: usize = 0;
    while k < se - si
        invariant
            si <= se <= s.len(),
            bj <= be <= base.len(),
            se - si == be - bj,
            k <= se - si,
            a == s@.subrange(si as int, se as int),
            b == base@.subrange(bj as int, be as int),
            forall|x: int| 0 <= x < k ==> a[x] == b[x],
        decreases se - si - k,
    {
        if s[si + k] != base[bj + k] {
            assert(a[k as int] != b[k as int]);
            return false;
        }
        k += 1;
    }
    assert(a =~= b);
    true
}

fn find_parts_behind(s: &Vec<char>, base: &Vec<char>) -> (start: Option<usize>)
    ensures
        match start {
            Some(i) => parts_behind(s@, 0, base@, 0) == Some(i as int) && i <= s.len(),
            None => parts_behind(s@, 0, base@, 0) is None,
        },
{
    let mut i: usize = 0;
    let mut j: usize = 0;
    loop
        invariant
            i <= s.len(),
            j <= base.len(),
            parts_behind(s@, 0, base@, 0) == parts_behind(s@, i as int, base@, j as int),
        decreases base.len() - j,
    {
        let bj: usize = find_next_part(base, j);
        let si: usize = find_next_part(s, i);
        if bj >= base.len() {
            return Some(si);
        }
        if si >= s.len() {
            return None;
        }
        let be: usize = find_part_end(base, bj);
        let se: usize = find_part_end(s, si);
        if !same_text(s, si, se, base, bj, be) {
            return None;
        }
        proof {
            lemma_next_part(base@, j as int);
        }
        i = se;
        j = be;
    }
}

/// What is kept of a path that is no text as a whole: its name, its
/// extension in lower case and its relative path, as far as each of them is
/// text, and an empty path.
pub open spec fn classify_undecoded(
    name: Option<Seq<char>>,
    extension: Option<Seq<char>>,
    rel_path: Option<Seq<char>>,
) -> PathFields {
    PathFields {
        name,
        extension: match extension {
            Some(ext) => Some(ascii_lowercase(ext)),
            None => None,
        },
        path: Seq::empty(),
        rel_path: match rel_path {
            Some(rel) => rel,
            None => Seq::empty(),
        },
    }
}

/// What an optional text stands for.
pub open spec fn text_view(text: Option<&str>) -> Option<Seq<char>> {
    match text {
        Some(t) => Some(t@),
        None => None,
    }
}

/// Gives the metadata of a file whose path is no text as a whole, from those
/// of its name, its extension and its relative path that are text. The path
/// itself is left empty.
pub fn get_undecoded_path_metadata(
    name: Option<&str>,
    extension: Option<&str>,
    rel_path: Option<&str>,
) -> (meta: PathMetdata)
    ensures
        meta@ == classify_undecoded(text_view(name), text_view(extension), text_view(rel_path)),
{
    PathMetdata {
        name: match name {
            Some(n) => Some(String::from_str(n)),
            None => None,
        },
        extension: match extension {
            Some(ext) => Some(to_ascii_lowercase(ext)),
            None => None,
        },
        path: String::new(),
        rel_path: match rel_path {
            Some(rel) => String::from_str(rel),
            None => String::new(),
        },
    }
}

/// Reads the name, the extension and the relative path of a file from its
/// path and the path of the directory that is indexed.
pub fn get_path_metadata(path: &str, base_path: &str) -> (meta: PathMetdata)
    ensures
        meta@ == classify(path@, base_path@),
{
    let s: Vec<char> = chars_of(path);
    let base: Vec<char> = chars_of(base_path);
    let n: usize = s.len();
    let end: usize = find_last_part_end(&s, n);
    let start: usize = find_part_start(&s, end);
    let mut name: Option<String> = None;
    let mut extension: Option<String> = None;
    if end != 0 && !(end - start == 2 && s[start] == '.' && s[start + 1] == '.') {
        assert(s@.subrange(start as int, end as int) != seq!['.', '.']) by {
            let part = s@.subrange(start as int, end as int);
            let dots = seq!['.', '.'];
            assert(dots.len() == 2 && dots[0] == '.' && dots[1] == '.');
            if end - start == 2 {
                assert(part[0] == s@[start as int] && part[1] == s@[start + 1]);
            } else {
                assert(part.len() != dots.len());
            }
        }
        name = Some(String::from_str(path.substring_char(start, end)));
        match find_last_dot(&s, start, end) {
            Some(dot) => {
                if dot > start {
                    assert(s@.subrange(start as int, end as int).subrange(
                        dot - start + 1,
                        end - start,
                    ) == s@.subrange(dot + 1, end as int));
                    extension = Some(to_ascii_lowercase(path.substring_char(dot + 1, end)));
                }
            },
            None => {},
        }
    } else {
        assert(end != 0 ==> s@.subrange(start as int, end as int) =~= seq!['.', '.']);
    }
    let rel_path: String = if base.len() == 0 {
        let floor: usize = if n > 0 && (s[0] == '/' || (s[0] == '.' && (n == 1 || s[1] == '/'))) {
            1
        } else {
            0
        };
        String::from_str(path.substring_char(0, if end < floor { floor } else { end }))
    } else {
        let rooted: bool = n > 0 && s[0] == '/';
        let base_rooted: bool = base[0] == '/';
        let dotted: bool = n > 0 && s[0] == '.' && (n == 1 || s[1] == '/');
        let base_dotted: bool = base[0] == '.' && (base.len() == 1 || base[1] == '/');
        if rooted != base_rooted || dotted != base_dotted {
            String::new()
        } else {
            match find_parts_behind(&s, &base) {
                Some(first) => if first < end {
                    String::from_str(path.substring_char(first, end))
                } else {
                    String::new()
                },
                None => String::new(),
            }
        }
    };
    PathMetdata { name, extension, path: String::from_str(path), rel_path }
}

/// `prefix` stands at the start of `s`.
pub open spec fn starts_with(s: Seq<char>, prefix: Seq<char>) -> bool {
    prefix.len() <= s.len() && s.subrange(0, prefix.len() as int) == prefix
}

/// The path of what lies at `rel` below the directory `base`: the two, with a
/// `/` between them unless `base` is empty or ends with one.
pub open spec fn joined(base: Seq<char>, rel: Seq<char>) -> Seq<char> {
    if base.len() == 0 || base.last() == '/' {
        base + rel
    } else {
        base + seq!['/'] + rel
    }
}

/// A relative path as `relative_path` gives them: not empty, and both its
/// first and its last part count.
pub open spec fn is_plain_relative(rel: Seq<char>) -> bool {
    &&& rel.len() > 0
    &&& next_part(rel, 0) == 0
    &&& last_part_end(rel, rel.len() as int) == rel.len()
}

proof fn lemma_parts_behind_start(s: Seq<char>, i: int, base: Seq<char>, j: int)
    requires
        0 <= i,
        0 <= j,
    ensures
        parts_behind(s, i, base, j) matches Some(start) ==> 0 <= start <= s.len() && (start
            < s.len() ==> s[start] != '/'),
    decreases base.len() - j,
{
    let bj = next_part(base, j);
    let si = next_part(s, i);
    lemma_next_part(s, i);
    lemma_next_part(base, j);
    if bj < base.len() && si < s.len() {
        let be = part_end(base, bj);
        let se = part_end(s, si);
        lemma_part_end(base, bj);
        lemma_part_end(s, si);
        if s.subrange(si, se) == base.subrange(bj, be) {
            lemma_parts_behind_start(s, se, base, be);
        }
    }
}

/// The last part that counts ends within the text that was searched.
pub proof fn lemma_last_part_end(s: Seq<char>, to: int)
    ensures
        0 <= last_part_end(s, to),
        last_part_end(s, to) <= to || last_part_end(s, to) == 0,
    decreases to,
{
    if 0 < to <= s.len() {
        lemma_last_part_end(s, to - 1);
    }
}

/// Below a directory that is named, a relative path does not start with a
/// separator.
pub proof fn law_relative_path_starts_with_a_part(path: Seq<char>, base: Seq<char>)
    requires
        base.len() > 0,
    ensures
        relative_path(path, base).len() > 0 ==> relative_path(path, base)[0] != '/',
{
    lemma_parts_behind_start(path, 0, base, 0);
    let end = last_part_end(path, path.len() as int);
    lemma_last_part_end(path, path.len() as int);
    match parts_behind(path, 0, base, 0) {
        Some(start) => {
            if start < end {
                assert(path.subrange(start, end)[0] == path[start]);
            }
        },
        None => {},
    }
}

/// The relative path of a file never starts with the base directory, where
/// the base directory is given from the root.
pub proof fn law_relative_path_leaves_base(path: Seq<char>, base: Seq<char>)
    requires
        has_root(base),
    ensures
        !starts_with(relative_path(path, base), base),
{
    law_relative_path_starts_with_a_part(path, base);
    let rel = relative_path(path, base);
    if starts_with(rel, base) {
        assert(rel.subrange(0, base.len() as int)[0] == rel[0]);
    }
}

/// `s` is what `tail` is, moved `off` places to the right.
spec fn shifted(s: Seq<char>, off: int, tail: Seq<char>) -> bool {
    &&& 0 <= off
    &&& s.len() == off + tail.len()
    &&& forall|i: int| 0 <= i < tail.len() ==> #[trigger] s[off + i] == tail[i]
}

proof fn lemma_part_end_shifted(s: Seq<char>, off: int, tail: Seq<char>, k: int)
    requires
        shifted(s, off, tail),
        0 <= k <= tail.len(),
    ensures
        part_end(s, off + k) == off + part_end(tail, k),
    decreases tail.len() - k,
{
    if k < tail.len() {
        assert(s[off + k] == tail[k]);
        if tail[k] != '/' {
            lemma_part_end_shifted(s, off, tail, k + 1);
        }
    }
}

proof fn lemma_next_part_shifted(s: Seq<char>, off: int, tail: Seq<char>, k: int)
    requires
        shifted(s, off, tail),
        0 <= k <= tail.len(),
    ensures
        next_part(s, off + k) == off + next_part(tail, k),
    decreases tail.len() - k,
{
    if k < tail.len() {
        assert(s[off + k] == tail[k]);
        lemma_part_end_shifted(s, off, tail, k);
        lemma_next_part_shifted(s, off, tail, k + 1);
    }
}

proof fn lemma_part_start_shifted(s: Seq<char>, off: int, tail: Seq<char>, k: int)
    requires
        shifted(s, off, tail),
        0 <= k <= tail.len(),
        off == 0 || s[off - 1] == '/',
    ensures
        part_start(s, off + k) == off + part_start(tail, k),
    decreases k,
{
    if k > 0 {
        assert(s[off + (k - 1)] == tail[k - 1]);
        if tail[k - 1] != '/' {
            lemma_part_start_shifted(s, off, tail, k - 1);
        }
    }
}

/// `s` starts as the directory `base` is written, and goes on at `off`,
/// behind a `/`, with a part that counts.
spec fn goes_on_below(s: Seq<char>, base: Seq<char>, off: int) -> bool {
    &&& base.len() > 0
    &&& off == if base.last() == '/' { base.len() as int } else { base.len() as int + 1 }
    &&& off < s.len()
    &&& forall|i: int| 0 <= i < base.len() ==> #[trigger] s[i] == base[i]
    &&& s[off - 1] == '/'
    &&& next_part(s, off) == off
}

proof fn lemma_part_end_in_base(s: Seq<char>, base: Seq<char>, off: int, j: int)
    requires
        goes_on_below(s, base, off),
        0 <= j < base.len(),
    ensures
        part_end(s, j) == part_end(base, j),
        part_end(base, j) <= base.len(),
    decreases base.len() - j,
{
    assert(s[j] == base[j]);
    if base[j] != '/' {
        if j + 1 < base.len() {
            lemma_part_end_in_base(s, base, off, j + 1);
        } else {
            assert(base.last() == base[j]);
            assert(s[j + 1] == '/');
        }
    }
}

proof fn lemma_next_part_in_base(s: Seq<char>, base: Seq<char>, off: int, j: int)
    requires
        goes_on_below(s, base, off),
        0 <= j <= base.len(),
    ensures
        next_part(base, j) < base.len() ==> next_part(s, j) == next_part(base, j),
        next_part(base, j) >= base.len() ==> next_part(s, j) == off,
    decreases base.len() - j,
{
    if j < base.len() {
        assert(s[j] == base[j]);
        lemma_part_end_in_base(s, base, off, j);
        lemma_next_part_in_base(s, base, off, j + 1);
    } else if base.last() != '/' {
        assert(s[j] == '/');
        assert(part_end(s, j) == j);
    }
}

proof fn lemma_parts_behind_base(s: Seq<char>, base: Seq<char>, off: int, j: int)
    requires
        goes_on_below(s, base, off),
        0 <= j <= base.len(),
    ensures
        parts_behind(s, j, base, j) == Some(off),
    decreases base.len() - j,
{
    let bj = next_part(base, j);
    lemma_next_part(base, j);
    lemma_next_part_in_base(s, base, off, j);
    if bj < base.len() {
        let be = part_end(base, bj);
        lemma_part_end(base, bj);
        lemma_part_end_in_base(s, base, off, bj);
        assert(s.subrange(bj, be) =~= base.subrange(bj, be));
        lemma_parts_behind_base(s, base, off, be);
    }
}

/// For a file that lies at the plain relative path `rel` below `base`, the
/// relative path that is read from its path is `rel`: joined to `base` it
/// gives the path of the file again.
pub proof fn law_relative_path_round_trip(base: Seq<char>, rel: Seq<char>)
    requires
        is_plain_relative(rel),
    ensures
        relative_path(joined(base, rel), base) == rel,
        joined(base, relative_path(joined(base, rel), base)) == joined(base, rel),
{
    let s = joined(base, rel);
    let off = s.len() - rel.len();
    assert(shifted(s, off, rel));
    assert(s.subrange(off, s.len() as int) =~= rel);
    lemma_next_part(rel, 0);
    lemma_part_end(rel, 0);
    if base.len() == 0 {
        assert(s =~= rel);
        assert(s.subrange(0, s.len() as int) =~= s);
    } else {
        assert(s[off - 1] == '/');
        assert forall|i: int| 0 <= i < base.len() implies #[trigger] s[i] == base[i] by {}
        lemma_next_part_shifted(s, off, rel, 0);
        assert(goes_on_below(s, base, off));
        lemma_parts_behind_base(s, base, off, 0);
        lemma_part_start_shifted(s, off, rel, rel.len() as int);
        assert(s[0] == base[0]);
        if base.len() >= 2 {
            assert(s[1] == base[1]);
        }
        assert(has_root(base) == has_root(s));
        assert(starts_in_current_dir(base) == starts_in_current_dir(s));
        let start = part_start(s, s.len() as int);
        lemma_last_part_end(rel, rel.len() - 1);
        assert(start == off + part_start(rel, rel.len() as int));
        if start == s.len() - 1 {
            assert(s[off + (rel.len() - 1)] == rel[rel.len() - 1]);
        }
        assert(last_part_end(s, s.len() as int) == s.len());
    }
}

/// A part starts at or before the place where it ends, behind a `/` or at
/// the start of the text, and holds no `/`.
proof fn lemma_part_start(s: Seq<char>, to: int)
    requires
        0 <= to <= s.len(),
    ensures
        0 <= part_start(s, to) <= to,
        part_start(s, to) > 0 ==> s[part_start(s, to) - 1] == '/',
        forall|k: int| part_start(s, to) <= k < to ==> #[trigger] s[k] != '/',
    decreases to,
{
    if to > 0 && s[to - 1] != '/' {
        lemma_part_start(s, to - 1);
    }
}

/// The last part that counts is not empty and not `.`.
proof fn lemma_last_part_counts(s: Seq<char>, to: int)
    requires
        0 <= to <= s.len(),
    ensures
        last_part_end(s, to) > 0 ==> {
            let end = last_part_end(s, to);
            &&& end <= to
            &&& part_start(s, end) < end
            &&& !(part_start(s, end) == end - 1 && s[part_start(s, end)] == '.')
        },
    decreases to,
{
    if to > 0 {
        lemma_part_start(s, to);
        lemma_last_part_counts(s, to - 1);
    }
}

/// The last part that counts ends at a `/` or at the end of the text.
proof fn lemma_last_part_ends_a_part(s: Seq<char>, to: int)
    requires
        0 <= to <= s.len(),
        to == s.len() || s[to] == '/' || part_start(s, to) == to,
    ensures
        last_part_end(s, to) > 0 ==> last_part_end(s, to) == s.len() || s[last_part_end(s, to)]
            == '/',
    decreases to,
{
    if to > 0 {
        lemma_part_start(s, to);
        let start = part_start(s, to);
        if start == to {
            lemma_last_part_ends_a_part(s, to - 1);
        } else if start == to - 1 && s[start] == '.' {
            assert(part_start(s, start) == start);
            lemma_last_part_ends_a_part(s, to - 1);
        }
    }
}

/// `at` is the start of the text or stands behind a `/`.
spec fn at_part_start(s: Seq<char>, at: int) -> bool {
    at == 0 || (0 < at <= s.len() && s[at - 1] == '/')
}

proof fn lemma_next_part_starts_a_part(s: Seq<char>, from: int)
    requires
        0 <= from,
        at_part_start(s, from) || from >= s.len() || s[from] == '/',
    ensures
        next_part(s, from) < s.len() ==> at_part_start(s, next_part(s, from)),
    decreases s.len() - from,
{
    if from < s.len() {
        lemma_part_end(s, from);
        let end = part_end(s, from);
        if end == from || (end == from + 1 && s[from] == '.') {
            lemma_next_part_starts_a_part(s, from + 1);
        }
    }
}

proof fn lemma_parts_behind_starts_a_part(s: Seq<char>, i: int, base: Seq<char>, j: int)
    requires
        0 <= i,
        0 <= j,
        at_part_start(s, i) || i >= s.len() || s[i] == '/',
    ensures
        parts_behind(s, i, base, j) matches Some(start) ==> 0 <= start <= s.len() && (start
            < s.len() ==> at_part_start(s, start) && next_part(s, start) == start),
    decreases base.len() - j,
{
    let bj = next_part(base, j);
    let si = next_part(s, i);
    lemma_next_part(s, i);
    lemma_next_part(base, j);
    lemma_next_part_starts_a_part(s, i);
    if bj < base.len() && si < s.len() {
        let be = part_end(base, bj);
        let se = part_end(s, si);
        lemma_part_end(base, bj);
        lemma_part_end(s, si);
        if s.subrange(si, se) == base.subrange(bj, be) {
            lemma_parts_behind_starts_a_part(s, se, base, be);
        }
    }
}

proof fn lemma_part_end_in_slice(s: Seq<char>, a: int, b: int, k: int)
    requires
        0 <= a <= b <= s.len(),
        0 <= k <= b - a,
    ensures
        part_end(s.subrange(a, b), k) == if part_end(s, a + k) < b {
            part_end(s, a + k) - a
        } else {
            b - a
        },
    decreases b - a - k,
{
    let slice = s.subrange(a, b);
    if k < b - a {
        assert(slice[k] == s[a + k]);
        if s[a + k] != '/' {
            lemma_part_end_in_slice(s, a, b, k + 1);
        }
    } else {
        lemma_part_end(s, a + k);
    }
}

proof fn lemma_part_start_in_slice(s: Seq<char>, a: int, b: int, k: int)
    requires
        0 <= a <= b <= s.len(),
        at_part_start(s, a),
        0 <= k <= b - a,
    ensures
        part_start(s.subrange(a, b), k) == part_start(s, a + k) - a,
    decreases k,
{
    let slice = s.subrange(a, b);
    if k > 0 {
        assert(slice[k - 1] == s[a + k - 1]);
        if s[a + k - 1] != '/' {
            lemma_part_start_in_slice(s, a, b, k - 1);
        }
    }
}

/// A relative path that is not empty is plain: it starts and ends with a
/// part that counts. So it is a relative path that can be joined to the base
/// directory and read back.
pub proof fn law_relative_path_is_plain(path: Seq<char>, base: Seq<char>)
    requires
        base.len() > 0,
    ensures
        relative_path(path, base).len() > 0 ==> is_plain_relative(relative_path(path, base)),
        relative_path(path, base).len() > 0 ==> relative_path(
            joined(base, relative_path(path, base)),
            base,
        ) == relative_path(path, base),
{
    let rel = relative_path(path, base);
    if rel.len() > 0 {
        let end = last_part_end(path, path.len() as int);
        let start = parts_behind(path, 0, base, 0)->0;
        lemma_parts_behind_starts_a_part(path, 0, base, 0);
        lemma_last_part_end(path, path.len() as int);
        lemma_last_part_counts(path, path.len() as int);
        assert(rel == path.subrange(start, end));
        let last_start = part_start(path, end);
        lemma_part_start(path, end);
        assert(start <= last_start) by {
            if start > last_start {
                assert(path[start - 1] == '/');
            }
        }
        // The first part of the relative path is the part of the path at `start`.
        let first_end = part_end(path, start);
        lemma_part_end(path, start);
        lemma_next_part(path, start);
        lemma_last_part_ends_a_part(path, path.len() as int);
        assert(first_end <= end) by {
            if start < last_start {
                assert(path[last_start - 1] == '/');
            } else if first_end > end {
                assert(path[end] == '/');
            }
        }
        lemma_part_end_in_slice(path, start, end, 0);
        assert(rel[0] == path[start]);
        assert(next_part(rel, 0) == 0);
        // Its last part is the last part of the path that counts.
        lemma_part_start_in_slice(path, start, end, end - start);
        assert(rel[last_start - start] == path[last_start]);
        assert(last_part_end(rel, rel.len() as int) == rel.len());
        law_relative_path_round_trip(base, rel);
    }
}


/// The parts of `s` that count, from `from` on, in order.
pub open spec fn parts_from(s: Seq<char>, from: int) -> Seq<Seq<char>>
    decreases s.len() - from,
{
    let start = next_part(s, from);
    if from < 0 || start >= s.len() {
        Seq::empty()
    } else {
        proof {
            lemma_next_part(s, from);
            lemma_part_end(s, start);
        }
        seq![s.subrange(start, part_end(s, start))] + parts_from(s, part_end(s, start))
    }
}

/// Two texts name the same path: both start at the root or neither does,
/// both start in the current directory or neither does, and the parts that
/// count are the same, in order.
pub open spec fn same_path(a: Seq<char>, b: Seq<char>) -> bool {
    &&& has_root(a) == has_root(b)
    &&& starts_in_current_dir(a) == starts_in_current_dir(b)
    &&& parts_from(a, 0) == parts_from(b, 0)
}

proof fn lemma_parts_from_next(s: Seq<char>, from: int)
    requires
        0 <= from,
    ensures
        parts_from(s, from) == parts_from(s, next_part(s, from)),
{
    lemma_next_part(s, from);
    let start = next_part(s, from);
    if start < s.len() {
        assert(next_part(s, start) == start);
    }
}

/// Where the parts of `base` are met by the first parts of `s`, the parts of
/// `s` are those of `base` and then those behind them.
proof fn lemma_parts_split(s: Seq<char>, i: int, base: Seq<char>, j: int)
    requires
        0 <= i,
        0 <= j,
    ensures
        parts_behind(s, i, base, j) matches Some(start) ==> parts_from(s, i) == parts_from(
            base,
            j,
        ) + parts_from(s, start),
    decreases base.len() - j,
{
    let bj = next_part(base, j);
    let si = next_part(s, i);
    lemma_next_part(s, i);
    lemma_next_part(base, j);
    if bj >= base.len() {
        lemma_parts_from_next(s, i);
        assert(parts_from(s, i) =~= parts_from(base, j) + parts_from(s, si));
    } else if si < s.len() {
        let be = part_end(base, bj);
        let se = part_end(s, si);
        lemma_part_end(base, bj);
        lemma_part_end(s, si);
        if s.subrange(si, se) == base.subrange(bj, be) {
            lemma_parts_split(s, se, base, be);
            match parts_behind(s, se, base, be) {
                Some(start) => {
                    assert(parts_from(s, i) =~= parts_from(base, j) + parts_from(s, start));
                },
                None => {},
            }
        }
    }
}

/// No part that counts starts between the end of the last part that counts
/// and the place from which it was looked for.
proof fn lemma_nothing_counts_behind(s: Seq<char>, to: int)
    requires
        0 <= to <= s.len(),
        to == s.len() || s[to] == '/' || part_start(s, to) == to,
    ensures
        next_part(s, last_part_end(s, to)) >= to,
    decreases to,
{
    lemma_last_part_end(s, to);
    lemma_next_part(s, last_part_end(s, to));
    if to > 0 {
        lemma_part_start(s, to);
        let start = part_start(s, to);
        if start == to {
            lemma_nothing_counts_behind(s, to - 1);
        } else if start == to - 1 && s[start] == '.' {
            assert(part_start(s, start) == start);
            lemma_nothing_counts_behind(s, to - 1);
            lemma_part_end(s, to - 1);
            assert(part_end(s, to - 1) == to) by {
                lemma_part_end(s, to);
            }
        }
    }
}

/// A search for the next part that passes a place where a part ends goes on
/// from there.
proof fn lemma_next_part_through(s: Seq<char>, from: int, b: int)
    requires
        0 <= from <= b <= s.len(),
        b == s.len() || s[b] == '/',
        next_part(s, from) >= b,
    ensures
        next_part(s, from) == next_part(s, b),
    decreases b - from,
{
    if from < b {
        lemma_part_end(s, from);
        lemma_next_part_through(s, from + 1, b);
    }
}

proof fn lemma_next_part_in_slice(s: Seq<char>, a: int, b: int, k: int)
    requires
        0 <= a <= b <= s.len(),
        b == s.len() || s[b] == '/',
        0 <= k <= b - a,
    ensures
        next_part(s.subrange(a, b), k) == if next_part(s, a + k) < b {
            next_part(s, a + k) - a
        } else {
            b - a
        },
    decreases b - a - k,
{
    let slice = s.subrange(a, b);
    lemma_next_part(s, a + k);
    if k < b - a {
        assert(slice[k] == s[a + k]);
        lemma_part_end(s, a + k);
        lemma_part_end_in_slice(s, a, b, k);
        assert(part_end(s, a + k) <= b) by {
            if part_end(s, a + k) > b {
                assert(s[b] == '/');
            }
        }
        lemma_next_part_in_slice(s, a, b, k + 1);
    }
}

/// The parts of a slice that ends where a part ends, with nothing that
/// counts behind it, are the parts of the text from there on.
proof fn lemma_parts_in_slice(s: Seq<char>, a: int, b: int, k: int)
    requires
        0 <= a <= b <= s.len(),
        b == s.len() || s[b] == '/',
        next_part(s, b) == s.len(),
        0 <= k <= b - a,
    ensures
        parts_from(s.subrange(a, b), k) == parts_from(s, a + k),
    decreases b - a - k,
{
    let slice = s.subrange(a, b);
    let start = next_part(s, a + k);
    lemma_next_part(s, a + k);
    lemma_next_part_in_slice(s, a, b, k);
    if start < b {
        let end = part_end(s, start);
        lemma_part_end(s, start);
        assert(end <= b) by {
            if end > b {
                assert(s[b] == '/');
            }
        }
        lemma_part_end_in_slice(s, a, b, start - a);
        assert(slice.subrange(start - a, end - a) =~= s.subrange(start, end));
        lemma_parts_in_slice(s, a, b, end - a);
    } else {
        lemma_next_part_through(s, a + k, b);
    }
}

/// The path of what lies at a plain relative path below a directory that is
/// named goes on below that directory.
proof fn lemma_joined_goes_on_below(base: Seq<char>, rel: Seq<char>)
    requires
        base.len() > 0,
        is_plain_relative(rel),
    ensures
        ({
            let s = joined(base, rel);
            let off = s.len() - rel.len();
            &&& goes_on_below(s, base, off)
            &&& s.subrange(off, s.len() as int) == rel
            &&& has_root(base) == has_root(s)
            &&& starts_in_current_dir(base) == starts_in_current_dir(s)
        }),
{
    let s = joined(base, rel);
    let off = s.len() - rel.len();
    assert(shifted(s, off, rel));
    assert(s.subrange(off, s.len() as int) =~= rel);
    assert(s[off - 1] == '/');
    assert forall|i: int| 0 <= i < base.len() implies #[trigger] s[i] == base[i] by {}
    lemma_next_part_shifted(s, off, rel, 0);
    assert(s[0] == base[0]);
    if base.len() >= 2 {
        assert(s[1] == base[1]);
    }
}

/// Joined to the base directory, the relative path of a file names the path
/// of the file again: the two are the same path, part by part, however the
/// path of the file was written.
pub proof fn law_rejoined_path_is_the_path(path: Seq<char>, base: Seq<char>)
    requires
        base.len() > 0,
    ensures
        relative_path(path, base).len() > 0 ==> same_path(
            joined(base, relative_path(path, base)),
            path,
        ),
{
    let rel = relative_path(path, base);
    if rel.len() > 0 {
        let end = last_part_end(path, path.len() as int);
        let start = parts_behind(path, 0, base, 0)->0;
        law_relative_path_is_plain(path, base);
        lemma_parts_behind_starts_a_part(path, 0, base, 0);
        lemma_last_part_end(path, path.len() as int);
        lemma_last_part_ends_a_part(path, path.len() as int);
        lemma_nothing_counts_behind(path, path.len() as int);
        lemma_next_part(path, end);
        // The parts of the path are those of the base and those of the relative path.
        lemma_parts_split(path, 0, base, 0);
        lemma_parts_in_slice(path, start, end, 0);
        assert(rel == path.subrange(start, end));
        assert(parts_from(path, 0) == parts_from(base, 0) + parts_from(rel, 0));
        // So are the parts of the two joined.
        let both = joined(base, rel);
        let off = both.len() - rel.len();
        lemma_joined_goes_on_below(base, rel);
        lemma_parts_behind_base(both, base, off, 0);
        lemma_parts_split(both, 0, base, 0);
        lemma_next_part(both, both.len() as int);
        lemma_parts_in_slice(both, off, both.len() as int, 0);
        assert(parts_from(both, 0) == parts_from(base, 0) + parts_from(rel, 0));
    }
}

} // verus!
