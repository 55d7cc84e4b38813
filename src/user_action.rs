//! User-defined commands run on an image: splitting a command line into
//! arguments and substituting the image's path into placeholders.
use vstd::prelude::*;
use crate::metadata::views;
use crate::paths::{parent, join, file_name, stem_of_name, parent_chars, join_chars, file_name_chars, split_name};
use crate::text::{chars_of, string_of, push_char, occurs_at, replace_all, str_contains, str_replace};

verus! {

/// The state after scanning `s`: the arguments so far, the argument being
/// built, and whether a quote is open.
pub open spec fn args_scan(s: Seq<char>) -> (Seq<Seq<char>>, Seq<char>, bool)
    decreases s.len(),
{
    if s.len() == 0 {
        (seq![], seq![], false)
    } else {
        let (args, cur, quoted) = args_scan(s.drop_last());
        let c = s.last();
        if c == ' ' && !quoted {
            (args.push(cur), seq![], false)
        } else if c == '\'' {
            (args, cur, !quoted)
        } else {
            (args, cur.push(c), quoted)
        }
    }
}

/// The arguments of a command line: split at spaces outside single quotes,
/// the quotes themselves dropped; a trailing empty argument is not kept.
pub open spec fn command_args(s: Seq<char>) -> Seq<Seq<char>> {
    let (args, cur, _) = args_scan(s);
    if cur.len() > 0 {
        args.push(cur)
    } else {
        args
    }
}

pub fn get_command_args(cmd: &str) -> (r: Vec<String>)
    ensures
        views(r@) == command_args(cmd@),
{
    let v = chars_of(cmd);
    let mut args: Vec<String> = Vec::new();
    let mut current = String::new();
    let mut in_string = false;
    let mut i: usize = 0;
    proof {
        assert(v@.subrange(0, 0) == Seq::<char>::empty());
    }
    while i < v.len()
        invariant
            i <= v@.len(),
            args_scan(v@.subrange(0, i as int)) == (views(args@), current@, in_string),
        decreases v@.len() - i,
    {
        let c = v[i];
        proof {
            assert(v@.subrange(0, i + 1).drop_last() == v@.subrange(0, i as int));
            assert(v@.subrange(0, i + 1).last() == c);
        }
        if c == ' ' && !in_string {
            let ghost before = args@;
            let done = current;
            args.push(done);
            current = String::new();
            in_string = false;
            proof {
                assert(args@.drop_last() == before);
                assert(views(args@) == views(before).push(done@));
            }
        } else if c == '\'' {
            in_string = !in_string;
        } else {
            push_char(&mut current, c);
        }
        i = i + 1;
    }
    proof {
        assert(v@.subrange(0, v@.len() as int) == v@);
    }
    if !current.as_str().is_empty() {
        let ghost before = args@;
        args.push(current);
        proof {
            assert(args@.drop_last() == before);
            assert(views(args@) == views(before).push(args@.last()@));
        }
    }
    args
}

/// One placeholder substitution: where `pat` occurs in `s`, every
/// occurrence becomes `value`, and a missing value fails the whole.
pub open spec fn substitute(s: Option<Seq<char>>, pat: Seq<char>, value: Option<Seq<char>>) -> Option<
    Seq<char>,
> {
    match s {
        None => None,
        Some(t) => if exists|i: int| occurs_at(t, pat, i) {
            match value {
                Some(v) => Some(replace_all(t, pat, v)),
                None => None,
            }
        } else {
            Some(t)
        },
    }
}

/// The path without its extension: its parent joined with its file stem.
pub open spec fn path_without_ext(p: Seq<char>) -> Option<Seq<char>> {
    match (parent(p), file_name(p)) {
        (Some(d), Some(n)) => Some(join(d, stem_of_name(n))),
        _ => None,
    }
}

pub open spec fn grandparent(p: Seq<char>) -> Option<Seq<char>> {
    match parent(p) {
        Some(d) => parent(d),
        None => None,
    }
}

/// A command template with its placeholders filled from `path`: `{}` the
/// path, `{.}` the path without extension, `{//}` the parent, `{/}` the
/// file name, `{/.}` the file stem, `{.//}` the grandparent; `None` where a
/// placeholder present has no value.
pub open spec fn exec_string(exec: Seq<char>, path: Seq<char>) -> Option<Seq<char>> {
    let s1 = substitute(Some(exec), "{}"@, Some(path));
    let s2 = substitute(s1, "{.}"@, path_without_ext(path));
    let s3 = substitute(s2, "{//}"@, parent(path));
    let s4 = substitute(s3, "{/}"@, file_name(path));
    let s5 = substitute(
        s4,
        "{/.}"@,
        match file_name(path) {
            Some(n) => Some(stem_of_name(n)),
            None => None,
        },
    );
    substitute(s5, "{.//}"@, grandparent(path))
}

fn substitute_exec(s: Option<String>, pat: &str, value: Option<Vec<char>>) -> (r: Option<String>)
    requires
        pat@.len() > 0,
    ensures
        match r {
            Some(x) => substitute(
                match s {
                    Some(t) => Some(t@),
                    None => None,
                },
                pat@,
                match value {
                    Some(v) => Some(v@),
                    None => None,
                },
            ) == Some(x@),
            None => substitute(
                match s {
                    Some(t) => Some(t@),
                    None => None,
                },
                pat@,
                match value {
                    Some(v) => Some(v@),
                    None => None,
                },
            ) is None,
        },
{
    match s {
        None => None,
        Some(t) => {
            if str_contains(t.as_str(), pat) {
                match value {
                    Some(v) => {
                        let vs = string_of(v.as_slice());
                        Some(str_replace(t.as_str(), pat, vs.as_str()))
                    },
                    None => None,
                }
            } else {
                Some(t)
            }
        },
    }
}

/// Fills the placeholders of `exec` from `path`.
pub fn format_exec_string(exec: &str, path: &str) -> (r: Option<String>)
    ensures
        match r {
            Some(x) => exec_string(exec@, path@) == Some(x@),
            None => exec_string(exec@, path@) is None,
        },
{
    let p = chars_of(path);
    let par = parent_chars(&p);
    let name = file_name_chars(&p);
    let no_ext: Option<Vec<char>> = match (&par, &name) {
        (Some(d), Some(n)) => Some(join_chars(d, &split_name(n).0)),
        _ => None,
    };
    let stem: Option<Vec<char>> = match &name {
        Some(n) => Some(split_name(n).0),
        None => None,
    };
    let grand: Option<Vec<char>> = match &par {
        Some(d) => parent_chars(d),
        None => None,
    };
    proof {
        reveal_strlit("{}");
        reveal_strlit("{.}");
        reveal_strlit("{//}");
        reveal_strlit("{/}");
        reveal_strlit("{/.}");
        reveal_strlit("{.//}");
    }
    let s1 = substitute_exec(Some(String::from_str(exec)), "{}", Some(p.clone()));
    let s2 = substitute_exec(s1, "{.}", no_ext);
    let s3 = substitute_exec(s2, "{//}", par);
    let s4 = substitute_exec(s3, "{/}", name);
    let s5 = substitute_exec(s4, "{/.}", stem);
    substitute_exec(s5, "{.//}", grand)
}

} // verus!
