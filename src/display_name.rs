//! Display names built from a template and an image's metadata fields.
//!
//! A template is literal text with tokens `$(P#T#S)`: `P` and `S` hold no
//! parenthesis, `T` holds no parenthesis or `#`, and `P` holds no `#`. A
//! token whose field `T` is set becomes `P`, the field's value, then `S`;
//! a token whose field is not set disappears, with its literal text.
use vstd::prelude::*;
use crate::fields::FieldMap;
use crate::metadata::Metadata;
use crate::paths::subvec;
use crate::text::{chars_of, string_of, push_range};

verus! {

/// Index of the first `(` or `)` in `t` at or after `k`, or `t.len()`.
pub open spec fn paren_from(t: Seq<char>, k: int) -> int
    decreases t.len() - k,
{
    if k >= t.len() {
        t.len() as int
    } else if t[k] == '(' || t[k] == ')' {
        k
    } else {
        paren_from(t, k + 1)
    }
}

/// Index of the first `#` in `t[k..e)`, or `e`.
pub open spec fn hash_from(t: Seq<char>, k: int, e: int) -> int
    decreases e - k,
{
    if k >= e {
        e
    } else if t[k] == '#' {
        k
    } else {
        hash_from(t, k + 1, e)
    }
}

/// Whether `t` starts with a token.
pub open spec fn starts_token(t: Seq<char>) -> bool {
    let e = paren_from(t, 2);
    let h1 = hash_from(t, 2, e);
    let h2 = hash_from(t, h1 + 1, e);
    &&& t.len() >= 2
    &&& t[0] == '$'
    &&& t[1] == '('
    &&& e < t.len()
    &&& t[e] == ')'
    &&& h1 < e
    &&& h2 < e
}

/// What the token at the start of `t` becomes.
pub open spec fn token_text(t: Seq<char>, m: Map<Seq<char>, Seq<char>>) -> Seq<char> {
    let e = paren_from(t, 2);
    let h1 = hash_from(t, 2, e);
    let h2 = hash_from(t, h1 + 1, e);
    let tag = t.subrange(h1 + 1, h2);
    if m.dom().contains(tag) {
        t.subrange(2, h1) + m[tag] + t.subrange(h2 + 1, e)
    } else {
        Seq::empty()
    }
}

/// A template with its tokens replaced from the fields `m`.
pub open spec fn format_with(t: Seq<char>, m: Map<Seq<char>, Seq<char>>) -> Seq<char>
    decreases t.len(),
{
    if t.len() == 0 {
        Seq::empty()
    } else if starts_token(t) {
        let e = paren_from(t, 2);
        if 0 <= e < t.len() {
            token_text(t, m) + format_with(t.subrange(e + 1, t.len() as int), m)
        } else {
            Seq::empty()
        }
    } else {
        seq![t[0]] + format_with(t.drop_first(), m)
    }
}

/// Positions `(h1, h2, e)` of the two `#` and the `)` of the token at
/// `v[i..]`, if one starts there.
fn token_at(v: &Vec<char>, i: usize) -> (r: Option<(usize, usize, usize)>)
    requires
        i < v@.len(),
    ensures
        ({
            let t = v@.subrange(i as int, v@.len() as int);
            match r {
                Some((h1, h2, e)) => starts_token(t) && e == i + paren_from(t, 2) && h1 == i
                    + hash_from(t, 2, paren_from(t, 2)) && h2 == i + hash_from(
                    t,
                    hash_from(t, 2, paren_from(t, 2)) + 1,
                    paren_from(t, 2),
                ) && i + 2 <= h1 < h2 < e < v@.len(),
                None => !starts_token(t),
            }
        }),
{
    let n = v.len();
    let ghost t = v@.subrange(i as int, n as int);
    if n - i < 2 || v[i] != '$' || v[i + 1] != '(' {
        return None;
    }
    proof {
        assert(t[0] == v@[i as int] && t[1] == v@[i + 1]);
    }
    let mut e: usize = i + 2;
    while e < n && v[e] != '(' && v[e] != ')'
        invariant
            i + 2 <= e <= n == v@.len(),
            t == v@.subrange(i as int, n as int),
            paren_from(t, 2) == paren_from(t, e - i),
        decreases n - e,
    {
        proof {
            assert(t[e - i] == v@[e as int]);
        }
        e = e + 1;
    }
    proof {
        if e < n {
            assert(t[e - i] == v@[e as int]);
        }
    }
    if e >= n || v[e] != ')' {
        return None;
    }
    let mut h1: usize = i + 2;
    while h1 < e && v[h1] != '#'
        invariant
            i + 2 <= h1 <= e < n == v@.len(),
            t == v@.subrange(i as int, n as int),
            paren_from(t, 2) == e - i,
            hash_from(t, 2, e - i) == hash_from(t, h1 - i, e - i),
        decreases e - h1,
    {
        proof {
            assert(t[h1 - i] == v@[h1 as int]);
        }
        h1 = h1 + 1;
    }
    proof {
        if h1 < e {
            assert(t[h1 - i] == v@[h1 as int]);
        }
    }
    if h1 >= e {
        return None;
    }
    let mut h2: usize = h1 + 1;
    while h2 < e && v[h2] != '#'
        invariant
            i + 2 <= h1 < h2 <= e < n == v@.len(),
            t == v@.subrange(i as int, n as int),
            paren_from(t, 2) == e - i,
            hash_from(t, 2, e - i) == h1 - i,
            hash_from(t, h1 - i + 1, e - i) == hash_from(t, h2 - i, e - i),
        decreases e - h2,
    {
        proof {
            assert(t[h2 - i] == v@[h2 as int]);
        }
        h2 = h2 + 1;
    }
    proof {
        if h2 < e {
            assert(t[h2 - i] == v@[h2 as int]);
        }
    }
    if h2 >= e {
        return None;
    }
    Some((h1, h2, e))
}

proof fn lemma_paren_from_at(t: Seq<char>, k: int, e: int)
    requires
        0 <= k <= e < t.len(),
        t[e] == ')',
        forall|j: int| k <= j < e ==> t[j] != '(' && t[j] != ')',
    ensures
        paren_from(t, k) == e,
    decreases e - k,
{
    if k < e {
        lemma_paren_from_at(t, k + 1, e);
    }
}

proof fn lemma_hash_from_at(t: Seq<char>, k: int, h: int, e: int)
    requires
        0 <= k <= h < e <= t.len(),
        t[h] == '#',
        forall|j: int| k <= j < h ==> t[j] != '#',
    ensures
        hash_from(t, k, e) == h,
    decreases h - k,
{
    if k < h {
        lemma_hash_from_at(t, k + 1, h, e);
    }
}

/// A token `$(P#T#S)` whose field `T` is set becomes `P`, the field's
/// value, then `S`; one whose field is not set is replaced by nothing, its
/// literal text `P` and `S` dropped with it. The rest of the template is
/// formatted on its own.
pub proof fn lemma_token_replacement(
    pre: Seq<char>,
    tag: Seq<char>,
    post: Seq<char>,
    rest: Seq<char>,
    m: Map<Seq<char>, Seq<char>>,
)
    requires
        forall|i: int| 0 <= i < pre.len() ==> pre[i] != '(' && pre[i] != ')' && pre[i] != '#',
        forall|i: int| 0 <= i < tag.len() ==> tag[i] != '(' && tag[i] != ')' && tag[i] != '#',
        forall|i: int| 0 <= i < post.len() ==> post[i] != '(' && post[i] != ')',
    ensures
        format_with(seq!['$', '('] + pre + seq!['#'] + tag + seq!['#'] + post + seq![')'] + rest, m)
            == (if m.dom().contains(tag) {
            pre + m[tag] + post
        } else {
            Seq::<char>::empty()
        }) + format_with(rest, m),
{
    let t = seq!['$', '('] + pre + seq!['#'] + tag + seq!['#'] + post + seq![')'] + rest;
    let h1: int = 2 + pre.len() as int;
    let h2: int = h1 + 1 + tag.len() as int;
    let e: int = h2 + 1 + post.len() as int;
    assert(t[0] == '$' && t[1] == '(');
    assert forall|j: int| 0 <= j < pre.len() implies t[2 + j] == pre[j] by {}
    assert forall|j: int| 0 <= j < tag.len() implies t[h1 + 1 + j] == tag[j] by {}
    assert forall|j: int| 0 <= j < post.len() implies t[h2 + 1 + j] == post[j] by {}
    assert(t[h1] == '#' && t[h2] == '#' && t[e] == ')');
    assert forall|j: int| 2 <= j < e implies t[j] != '(' && t[j] != ')' by {
        if j < h1 {
            assert(t[j] == pre[j - 2]);
        } else if h1 < j < h2 {
            assert(t[j] == tag[j - h1 - 1]);
        } else if h2 < j {
            assert(t[j] == post[j - h2 - 1]);
        }
    }
    lemma_paren_from_at(t, 2, e);
    assert forall|j: int| 2 <= j < h1 implies t[j] != '#' by {
        assert(t[j] == pre[j - 2]);
    }
    lemma_hash_from_at(t, 2, h1, e);
    assert forall|j: int| h1 + 1 <= j < h2 implies t[j] != '#' by {
        assert(t[j] == tag[j - h1 - 1]);
    }
    lemma_hash_from_at(t, h1 + 1, h2, e);
    assert(t.subrange(h1 + 1, h2) == tag);
    assert(t.subrange(2, h1) == pre);
    assert(t.subrange(h2 + 1, e) == post);
    assert(t.subrange(e + 1, t.len() as int) == rest);
}

impl Metadata {
    /// Replaces each token of `input` by its text for `metadata`.
    pub fn format_string_with_metadata(input: &str, metadata: &FieldMap) -> (r: String)
        ensures
            r@ == format_with(input@, metadata.view()),
    {
        let v = chars_of(input);
        let n = v.len();
        let ghost m = metadata.view();
        let mut out: Vec<char> = Vec::new();
        let mut i: usize = 0;
        proof {
            assert(v@.subrange(0, n as int) == v@);
        }
        while i < n
            invariant
                i <= n == v@.len(),
                m == metadata.view(),
                out@ + format_with(v@.subrange(i as int, n as int), m) == format_with(v@, m),
            decreases n - i,
        {
            let ghost t = v@.subrange(i as int, n as int);
            match token_at(&v, i) {
                Some((h1, h2, e)) => {
                    let key = subvec(&v, h1 + 1, h2);
                    proof {
                        assert(t.subrange(h1 - i + 1, h2 - i) == key@);
                        assert(t.subrange(e - i + 1, t.len() as int) == v@.subrange(e + 1, n as int));
                    }
                    match metadata.get_chars(key.as_slice()) {
                        Some(val) => {
                            let val_chars = chars_of(val.as_str());
                            push_range(&mut out, &v, i + 2, h1);
                            push_range(&mut out, &val_chars, 0, val_chars.len());
                            push_range(&mut out, &v, h2 + 1, e);
                            proof {
                                assert(val_chars@.subrange(0, val_chars@.len() as int) == val_chars@);
                                assert(t.subrange(2, h1 - i) == v@.subrange(i + 2, h1 as int));
                                assert(t.subrange(h2 - i + 1, e - i) == v@.subrange(h2 + 1, e as int));
                            }
                        },
                        None => {},
                    }
                    proof {
                        assert(out@ + format_with(v@.subrange(e + 1, n as int), m) == format_with(v@, m));
                    }
                    i = e + 1;
                },
                None => {
                    out.push(v[i]);
                    proof {
                        assert(t[0] == v@[i as int]);
                        assert(t.drop_first() == v@.subrange(i + 1, n as int));
                    }
                    i = i + 1;
                },
            }
        }
        proof {
            assert(v@.subrange(n as int, n as int) == Seq::<char>::empty());
            assert(out@ + Seq::<char>::empty() == out@);
        }
        string_of(out.as_slice())
    }
}

} // verus!
