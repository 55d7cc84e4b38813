//! A path is a `/`-separated string. Its file name is the last non-empty
//! segment; the stem and extension split that name at its last dot, where a
//! leading dot does not count (`.hidden` has no extension).
use vstd::prelude::*;
use crate::text::{chars_of, string_of};

verus! {

/// Index of the last occurrence of `c` in `s`, or -1.
pub open spec fn last_index_of(s: Seq<char>, c: char) -> int
    decreases s.len(),
{
    if s.len() == 0 {
        -1
    } else if s.last() == c {
        s.len() - 1
    } else {
        last_index_of(s.drop_last(), c)
    }
}

/// `s` without its trailing `/` characters.
pub open spec fn trim_end_slashes(s: Seq<char>) -> Seq<char>
    decreases s.len(),
{
    if s.len() > 0 && s.last() == '/' {
        trim_end_slashes(s.drop_last())
    } else {
        s
    }
}

/// The last segment of the path, which may be empty, `.` or `..`.
pub open spec fn last_segment(p: Seq<char>) -> Seq<char> {
    let t = trim_end_slashes(p);
    t.subrange(last_index_of(t, '/') + 1, t.len() as int)
}

/// The file name of a path; `None` for an empty name, `.` and `..`.
pub open spec fn file_name(p: Seq<char>) -> Option<Seq<char>> {
    let s = last_segment(p);
    if s.len() == 0 || s == seq!['.'] || s == seq!['.', '.'] {
        None
    } else {
        Some(s)
    }
}

/// The file name, or the empty sequence where there is none.
pub open spec fn file_name_or_empty(p: Seq<char>) -> Seq<char> {
    match file_name(p) {
        Some(n) => n,
        None => Seq::empty(),
    }
}

/// The part of a file name before its last dot (the whole name if there is
/// no dot past the first character).
pub open spec fn stem_of_name(n: Seq<char>) -> Seq<char> {
    let k = last_index_of(n, '.');
    if k <= 0 {
        n
    } else {
        n.subrange(0, k)
    }
}

/// The part of a file name after its last dot, if that dot is not the
/// first character.
pub open spec fn ext_of_name(n: Seq<char>) -> Option<Seq<char>> {
    let k = last_index_of(n, '.');
    if k <= 0 {
        None
    } else {
        Some(n.subrange(k + 1, n.len() as int))
    }
}

/// The stem of a path's file name, or the empty sequence.
pub open spec fn file_stem(p: Seq<char>) -> Seq<char> {
    match file_name(p) {
        Some(n) => stem_of_name(n),
        None => Seq::empty(),
    }
}

/// The extension of a path's file name, or the empty sequence.
pub open spec fn extension(p: Seq<char>) -> Seq<char> {
    match file_name(p) {
        Some(n) => match ext_of_name(n) {
            Some(e) => e,
            None => Seq::empty(),
        },
        None => Seq::empty(),
    }
}

pub fn last_index_of_exec(s: &Vec<char>, c: char) -> (r: Option<usize>)
    ensures
        match r {
            Some(k) => last_index_of(s@, c) == k as int,
            None => last_index_of(s@, c) == -1,
        },
{
    let mut i: usize = s.len();
    proof {
        assert(s@.subrange(0, i as int) == s@);
    }
    while i > 0
        invariant
            i <= s@.len(),
            last_index_of(s@, c) == last_index_of(s@.subrange(0, i as int), c),
        decreases i,
    {
        let ghost t = s@.subrange(0, i as int);
        if s[i - 1] == c {
            return Some(i - 1);
        }
        proof {
            assert(t.drop_last() == s@.subrange(0, i - 1));
        }
        i = i - 1;
    }
    proof {
        assert(s@.subrange(0, 0) == Seq::<char>::empty());
    }
    None
}

fn trim_end_slashes_exec(s: &Vec<char>) -> (r: usize)
    ensures
        r <= s@.len(),
        trim_end_slashes(s@) == s@.subrange(0, r as int),
{
    let mut i: usize = s.len();
    proof {
        assert(s@.subrange(0, i as int) == s@);
    }
    while i > 0 && s[i - 1] == '/'
        invariant
            i <= s@.len(),
            trim_end_slashes(s@) == trim_end_slashes(s@.subrange(0, i as int)),
        decreases i,
    {
        proof {
            assert(s@.subrange(0, i as int).drop_last() == s@.subrange(0, i - 1));
        }
        i = i - 1;
    }
    i
}

pub fn subvec(s: &Vec<char>, from: usize, to: usize) -> (r: Vec<char>)
    requires
        from <= to <= s@.len(),
    ensures
        r@ == s@.subrange(from as int, to as int),
{
    let mut r: Vec<char> = Vec::new();
    let mut i: usize = from;
    while i < to
        invariant
            from <= i <= to <= s@.len(),
            r@ == s@.subrange(from as int, i as int),
        decreases to - i,
    {
        r.push(s[i]);
        proof {
            assert(s@.subrange(from as int, i + 1) == s@.subrange(from as int, i as int).push(
                s@[i as int],
            ));
        }
        i = i + 1;
    }
    r
}

/// The characters of the last segment of `p`.
fn last_segment_chars(p: &Vec<char>) -> (r: Vec<char>)
    ensures
        r@ == last_segment(p@),
{
    let end = trim_end_slashes_exec(p);
    let t = subvec(p, 0, end);
    proof {
        lemma_last_index_bounds(t@, '/');
    }
    let start: usize = match last_index_of_exec(&t, '/') {
        Some(k) => {
            assert(k < t@.len());
            k + 1
        },
        None => 0,
    };
    subvec(&t, start, end)
}

pub proof fn lemma_last_index_bounds(s: Seq<char>, c: char)
    ensures
        -1 <= last_index_of(s, c) < s.len(),
        last_index_of(s, c) >= 0 ==> s[last_index_of(s, c)] == c,
    decreases s.len(),
{
    if s.len() > 0 && s.last() != c {
        lemma_last_index_bounds(s.drop_last(), c);
    }
}

fn is_dot_name(s: &Vec<char>) -> (r: bool)
    ensures
        r == (s@ == seq!['.'] || s@ == seq!['.', '.']),
{
    if s.len() == 1 {
        let r = s[0] == '.';
        proof {
            if !r {
                assert(s@[0] != seq!['.'][0]);
            } else {
                assert(s@ == seq!['.']);
            }
        }
        r
    } else if s.len() == 2 {
        let r = s[0] == '.' && s[1] == '.';
        proof {
            if r {
                assert(s@ == seq!['.', '.']);
            } else if s[0] != '.' {
                assert(s@[0] != seq!['.', '.'][0]);
            } else {
                assert(s@[1] != seq!['.', '.'][1]);
            }
        }
        r
    } else {
        false
    }
}

/// The characters of the file name of `p`, if it has one.
pub fn file_name_chars(p: &Vec<char>) -> (r: Option<Vec<char>>)
    ensures
        match r {
            Some(n) => file_name(p@) == Some(n@),
            None => file_name(p@) is None,
        },
{
    let s = last_segment_chars(p);
    if s.len() == 0 || is_dot_name(&s) {
        None
    } else {
        Some(s)
    }
}

/// Stem and extension of a file name, as character vectors.
pub fn split_name(n: &Vec<char>) -> (r: (Vec<char>, Option<Vec<char>>))
    ensures
        r.0@ == stem_of_name(n@),
        match r.1 {
            Some(e) => ext_of_name(n@) == Some(e@),
            None => ext_of_name(n@) is None,
        },
{
    proof {
        lemma_last_index_bounds(n@, '.');
    }
    match last_index_of_exec(n, '.') {
        Some(k) => {
            let len = n.len();
            assert(k < len);
            if k == 0 {
                (n.clone(), None)
            } else {
                (subvec(n, 0, k), Some(subvec(n, k + 1, len)))
            }
        },
        None => (n.clone(), None),
    }
}

/// The stem of the file name of `p` (empty where there is no file name).
pub fn file_stem_chars(p: &Vec<char>) -> (r: Vec<char>)
    ensures
        r@ == file_stem(p@),
{
    match file_name_chars(p) {
        Some(n) => split_name(&n).0,
        None => Vec::new(),
    }
}

/// The extension of the file name of `p` (empty where there is none).
pub fn extension_chars(p: &Vec<char>) -> (r: Vec<char>)
    ensures
        r@ == extension(p@),
{
    match file_name_chars(p) {
        Some(n) => match split_name(&n).1 {
            Some(e) => e,
            None => Vec::new(),
        },
        None => Vec::new(),
    }
}

/// The file name of `path`, or the empty string.
pub fn file_name_string(path: &str) -> (r: String)
    ensures
        r@ == file_name_or_empty(path@),
{
    let p = chars_of(path);
    match file_name_chars(&p) {
        Some(n) => string_of(n.as_slice()),
        None => String::new(),
    }
}

/// The parent of a path: `None` for an empty path or the root, the empty
/// path for a single relative name, otherwise everything before the last
/// name without its trailing separators (the root where nothing else is
/// left).
pub open spec fn parent(p: Seq<char>) -> Option<Seq<char>> {
    let t = trim_end_slashes(p);
    let k = last_index_of(t, '/');
    if t.len() == 0 {
        None
    } else if k < 0 {
        Some(Seq::empty())
    } else {
        let q = trim_end_slashes(t.subrange(0, k));
        if q.len() == 0 {
            Some(seq!['/'])
        } else {
            Some(q)
        }
    }
}

/// `base` with the relative name `name` appended.
pub open spec fn join(base: Seq<char>, name: Seq<char>) -> Seq<char> {
    if base.len() == 0 {
        name
    } else if base.last() == '/' {
        base + name
    } else {
        base + seq!['/'] + name
    }
}

/// The parent of `p`, as characters.
pub fn parent_chars(p: &Vec<char>) -> (r: Option<Vec<char>>)
    ensures
        match r {
            Some(q) => parent(p@) == Some(q@),
            None => parent(p@) is None,
        },
{
    let end = trim_end_slashes_exec(p);
    let t = subvec(p, 0, end);
    if end == 0 {
        return None;
    }
    proof {
        lemma_last_index_bounds(t@, '/');
    }
    match last_index_of_exec(&t, '/') {
        None => Some(Vec::new()),
        Some(k) => {
            let u = subvec(&t, 0, k);
            let qe = trim_end_slashes_exec(&u);
            if qe == 0 {
                Some(vec!['/'])
            } else {
                Some(subvec(&u, 0, qe))
            }
        },
    }
}

/// `base` joined with `name`, as characters.
pub fn join_chars(base: &Vec<char>, name: &Vec<char>) -> (r: Vec<char>)
    ensures
        r@ == join(base@, name@),
{
    let mut r = base.clone();
    if base.len() > 0 && base[base.len() - 1] != '/' {
        r.push('/');
    }
    let mut i: usize = 0;
    let ghost start = r@;
    while i < name.len()
        invariant
            i <= name@.len(),
            r@ == start + name@.subrange(0, i as int),
        decreases name@.len() - i,
    {
        r.push(name[i]);
        proof {
            assert(name@.subrange(0, i + 1) == name@.subrange(0, i as int).push(name@[i as int]));
        }
        i = i + 1;
    }
    proof {
        assert(name@.subrange(0, name@.len() as int) == name@);
        assert(base@.len() > 0 ==> base@.last() == base@[base@.len() - 1]);
    }
    r
}

} // verus!
