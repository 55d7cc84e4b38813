//! The metadata extraction protocol: parsing the extraction tool's textual
//! records, interpreting fields, and formatting display names from them.
use vstd::prelude::*;
use crate::fields::{FieldMap, map_of};
use crate::formats::{is_raw_path, is_raw_file};
use crate::paths::{file_stem, file_stem_chars};
use itertools::Itertools;
use crate::text::{
    occurs_at,
    str_eq,
    chars_of,
    trim,
    split_on,
    trim_bounds,
    string_of_range,
};

verus! {

/// `k` is the position of the first `:` in `l`.
pub open spec fn colon_at(l: Seq<char>, k: int) -> bool {
    &&& 0 <= k < l.len()
    &&& l[k] == ':'
    &&& forall|j: int| 0 <= j < k ==> l[j] != ':'
}

/// The field a record line holds: the text before its first colon and the
/// text after it, both trimmed.
pub open spec fn line_field(l: Seq<char>) -> Option<(Seq<char>, Seq<char>)> {
    if exists|k: int| colon_at(l, k) {
        let k = choose|k: int| colon_at(l, k);
        Some((trim(l.subrange(0, k)), trim(l.subrange(k + 1, l.len() as int))))
    } else {
        None
    }
}

/// The fields of a sequence of record lines, a later line overriding an
/// earlier one for the same key.
pub open spec fn fields_of_lines(lines: Seq<Seq<char>>) -> Map<Seq<char>, Seq<char>>
    decreases lines.len(),
{
    if lines.len() == 0 {
        Map::empty()
    } else {
        let m = fields_of_lines(lines.drop_last());
        match line_field(lines.last()) {
            Some(f) => m.insert(f.0, f.1),
            None => m,
        }
    }
}

/// The fields of one record of the extraction tool's output.
pub open spec fn record_fields(output: Seq<char>) -> Map<Seq<char>, Seq<char>> {
    fields_of_lines(split_on(output, '\n'))
}

/// The path a record names on its first line, if that line is not empty.
pub open spec fn record_path(output: Seq<char>) -> Option<Seq<char>> {
    let first = split_on(output, '\n')[0];
    if first.len() == 0 {
        None
    } else {
        Some(trim(first))
    }
}

proof fn lemma_colon_unique(l: Seq<char>, k: int)
    requires
        colon_at(l, k),
    ensures
        (choose|x: int| colon_at(l, x)) == k,
{
    let x = choose|x: int| colon_at(l, x);
    if x < k {
        assert(l[x] != ':');
    } else if x > k {
        assert(l[k] != ':');
    }
}

/// Adds the field of line `v[from..to]`, whose first colon (if any) is at
/// `colon`, to `fields`.
fn add_line_field(v: &Vec<char>, from: usize, to: usize, colon: Option<usize>, fields: &mut FieldMap)
    requires
        from <= to <= v@.len(),
        match colon {
            Some(k) => from <= k && colon_at(v@.subrange(from as int, to as int), k - from),
            None => forall|j: int| from <= j < to ==> v@[j] != ':',
        },
    ensures
        final(fields).view() == match line_field(v@.subrange(from as int, to as int)) {
            Some(f) => old(fields).view().insert(f.0, f.1),
            None => old(fields).view(),
        },
{
    let ghost l = v@.subrange(from as int, to as int);
    match colon {
        Some(k) => {
            proof {
                lemma_colon_unique(l, k - from);
                assert(l.subrange(0, k - from) == v@.subrange(from as int, k as int));
                assert(l.subrange(k - from + 1, l.len() as int) == v@.subrange(k + 1, to as int));
            }
            let (a, b) = trim_bounds(v, from, k);
            let (c, d) = trim_bounds(v, k + 1, to);
            fields.insert(string_of_range(v, a, b), string_of_range(v, c, d));
        },
        None => {
            proof {
                assert forall|k: int| !colon_at(l, k) by {
                    if 0 <= k < l.len() {
                        assert(l[k] == v@[from + k]);
                    }
                }
            }
        },
    }
}

impl Metadata {
    /// Parses one record of the extraction tool's output: the first line
    /// names the file, and each line holding a colon is a field, key before
    /// the first colon and value after it, both trimmed. `None` where the
    /// first line is empty.
    pub fn parse_exiftool_output_str(output: &str) -> (r: Option<(String, FieldMap)>)
        ensures
            match r {
                Some((path, fields)) => record_path(output@) == Some(path@) && fields.view()
                    == record_fields(output@),
                None => record_path(output@) is None,
            },
    {
        let v = chars_of(output);
        let n = v.len();
        let mut fields = FieldMap::new();
        let mut line_start: usize = 0;
        let mut first_end: Option<usize> = None;
        let mut colon: Option<usize> = None;
        let mut i: usize = 0;
        proof {
            assert(v@.subrange(0, 0) == Seq::<char>::empty());
            assert(split_on(Seq::<char>::empty(), '\n') == seq![Seq::<char>::empty()]);
        }
        while i < n
            invariant
                n == v@.len(),
                line_start <= i <= n,
                ({
                    let pieces = split_on(v@.subrange(0, i as int), '\n');
                    &&& pieces.len() >= 1
                    &&& pieces.last() == v@.subrange(line_start as int, i as int)
                    &&& fields.view() == fields_of_lines(pieces.drop_last())
                    &&& match first_end {
                        Some(e) => e <= i && pieces.len() >= 2 && pieces[0] == v@.subrange(
                            0,
                            e as int,
                        ),
                        None => pieces.len() == 1 && line_start == 0,
                    }
                }),
                match colon {
                    Some(k) => line_start <= k < i && colon_at(
                        v@.subrange(line_start as int, i as int),
                        k - line_start,
                    ),
                    None => forall|j: int| line_start <= j < i ==> v@[j] != ':',
                },
            decreases n - i,
        {
            let ghost prefix = v@.subrange(0, i as int);
            let ghost pieces = split_on(prefix, '\n');
            proof {
                assert(v@.subrange(0, i + 1).drop_last() == prefix);
                assert(v@.subrange(0, i + 1).last() == v@[i as int]);
            }
            if v[i] == '\n' {
                add_line_field(&v, line_start, i, colon, &mut fields);
                proof {
                    let np = split_on(v@.subrange(0, i + 1), '\n');
                    assert(np == pieces.push(Seq::empty()));
                    assert(np.drop_last() == pieces);
                    assert(pieces.drop_last().push(pieces.last()) == pieces);
                    assert(pieces.drop_last() == pieces.drop_last());
                    assert(v@.subrange(i + 1, i + 1) == Seq::<char>::empty());
                }
                if first_end.is_none() {
                    first_end = Some(i);
                }
                line_start = i + 1;
                colon = None;
            } else {
                proof {
                    let np = split_on(v@.subrange(0, i + 1), '\n');
                    assert(np == pieces.update(pieces.len() - 1, pieces.last().push(v@[i as int])));
                    assert(np.drop_last() == pieces.drop_last());
                    assert(np.last() == v@.subrange(line_start as int, i + 1));
                    assert(v@.subrange(line_start as int, i + 1).subrange(0, i - line_start) == v@.subrange(line_start as int, i as int));
                }
                if v[i] == ':' && colon.is_none() {
                    colon = Some(i);
                }
                proof {
                    let l = v@.subrange(line_start as int, i + 1);
                    match colon {
                        Some(k) => {
                            assert(l[k - line_start] == v@[k as int]);
                            assert forall|j: int| 0 <= j < k - line_start implies l[j] != ':' by {
                                assert(l[j] == v@[line_start + j]);
                                if k < i {
                                    assert(v@.subrange(line_start as int, i as int)[j] == v@[line_start + j]);
                                }
                            }
                        },
                        None => {},
                    }
                }
            }
            i = i + 1;
        }
        proof {
            assert(v@.subrange(0, n as int) == v@);
        }
        let ghost pieces = split_on(v@, '\n');
        add_line_field(&v, line_start, n, colon, &mut fields);
        proof {
            assert(pieces.drop_last().push(pieces.last()) == pieces);
            assert(pieces == pieces.drop_last().push(pieces.last()));
            assert(fields_of_lines(pieces).dom() == fields.view().dom());
        }
        let e = match first_end {
            Some(e) => e,
            None => n,
        };
        if e == 0 {
            return None;
        }
        let (a, b) = trim_bounds(&v, 0, e);
        Some((string_of_range(&v, a, b), fields))
    }
}

/// The extraction protocol's entry point for parsing and interpreting
/// metadata.
pub struct Metadata {}

/// The eight orientations a photograph's metadata can declare.
#[derive(PartialEq, Eq, Structural, Clone, Copy, Debug)]
pub enum Orientation {
    Normal,
    MirrorHorizontal,
    Rotate180,
    MirrorVertical,
    MirrorHorizontalRotate270,
    Rotate90CW,
    MirrorHorizontalRotate90CW,
    Rotate270CW,
}

/// One pixel transform applied to bring an image upright.
#[derive(PartialEq, Eq, Structural, Clone, Copy, Debug)]
pub enum ImageOp {
    FlipHorizontal,
    FlipVertical,
    Rotate90,
    Rotate180,
    Rotate270,
}

/// The orientation an orientation field's value names; any other value
/// names the normal orientation.
pub open spec fn orientation_of(s: Seq<char>) -> Orientation {
    if s == "Horizontal (normal)"@ {
        Orientation::Normal
    } else if s == "Mirror horizontal"@ {
        Orientation::MirrorHorizontal
    } else if s == "Rotate 180"@ {
        Orientation::Rotate180
    } else if s == "Mirror vertical"@ {
        Orientation::MirrorVertical
    } else if s == "Mirror horizontal and rotate 270 CW"@ {
        Orientation::MirrorHorizontalRotate270
    } else if s == "Rotate 90 CW"@ {
        Orientation::Rotate90CW
    } else if s == "Mirror horizontal and rotate 90 CW"@ {
        Orientation::MirrorHorizontalRotate90CW
    } else if s == "Rotate 270 CW"@ {
        Orientation::Rotate270CW
    } else {
        Orientation::Normal
    }
}

/// The transforms, applied in order, that undo an orientation.
pub open spec fn ops_of(o: Orientation) -> Seq<ImageOp> {
    match o {
        Orientation::Normal => seq![],
        Orientation::MirrorHorizontal => seq![ImageOp::FlipHorizontal],
        Orientation::Rotate180 => seq![ImageOp::Rotate180],
        Orientation::MirrorVertical => seq![ImageOp::FlipVertical],
        Orientation::MirrorHorizontalRotate270 => seq![ImageOp::FlipHorizontal, ImageOp::Rotate270],
        Orientation::Rotate90CW => seq![ImageOp::Rotate90],
        Orientation::MirrorHorizontalRotate90CW => seq![ImageOp::FlipHorizontal, ImageOp::Rotate90],
        Orientation::Rotate270CW => seq![ImageOp::Rotate270],
    }
}

impl Orientation {
    pub fn from_orientation_metadata(orientation: &str) -> (r: Orientation)
        ensures
            r == orientation_of(orientation@),
    {
        if str_eq(orientation, "Horizontal (normal)") {
            Orientation::Normal
        } else if str_eq(orientation, "Mirror horizontal") {
            Orientation::MirrorHorizontal
        } else if str_eq(orientation, "Rotate 180") {
            Orientation::Rotate180
        } else if str_eq(orientation, "Mirror vertical") {
            Orientation::MirrorVertical
        } else if str_eq(orientation, "Mirror horizontal and rotate 270 CW") {
            Orientation::MirrorHorizontalRotate270
        } else if str_eq(orientation, "Rotate 90 CW") {
            Orientation::Rotate90CW
        } else if str_eq(orientation, "Mirror horizontal and rotate 90 CW") {
            Orientation::MirrorHorizontalRotate90CW
        } else if str_eq(orientation, "Rotate 270 CW") {
            Orientation::Rotate270CW
        } else {
            Orientation::Normal
        }
    }

    /// The transforms, applied in order, that bring an image upright.
    pub fn ops(&self) -> (r: Vec<ImageOp>)
        ensures
            r@ == ops_of(*self),
    {
        match self {
            Orientation::Normal => vec![],
            Orientation::MirrorHorizontal => vec![ImageOp::FlipHorizontal],
            Orientation::Rotate180 => vec![ImageOp::Rotate180],
            Orientation::MirrorVertical => vec![ImageOp::FlipVertical],
            Orientation::MirrorHorizontalRotate270 => vec![ImageOp::FlipHorizontal, ImageOp::Rotate270],
            Orientation::Rotate90CW => vec![ImageOp::Rotate90],
            Orientation::MirrorHorizontalRotate90CW => vec![ImageOp::FlipHorizontal, ImageOp::Rotate90],
            Orientation::Rotate270CW => vec![ImageOp::Rotate270],
        }
    }
}

/// A field value that names none of the eight orientations asks for no
/// transform, as does a missing field.
pub proof fn lemma_unrecognized_orientation_is_identity(s: Seq<char>, fields: Map<Seq<char>, Seq<char>>)
    requires
        s != "Horizontal (normal)"@,
        s != "Mirror horizontal"@,
        s != "Rotate 180"@,
        s != "Mirror vertical"@,
        s != "Mirror horizontal and rotate 270 CW"@,
        s != "Rotate 90 CW"@,
        s != "Mirror horizontal and rotate 90 CW"@,
        s != "Rotate 270 CW"@,
    ensures
        ops_of(orientation_of(s)) == Seq::<ImageOp>::empty(),
        !fields.dom().contains(ORIENTATION_FIELD@) ==> ops_of(declared_orientation(fields))
            == Seq::<ImageOp>::empty(),
{
}

/// The orientation an image's fields declare; normal where the field is
/// missing.
pub open spec fn declared_orientation(fields: Map<Seq<char>, Seq<char>>) -> Orientation {
    if fields.dom().contains(ORIENTATION_FIELD@) {
        orientation_of(fields[ORIENTATION_FIELD@])
    } else {
        Orientation::Normal
    }
}

pub const ORIENTATION_FIELD: &'static str = "Orientation";
pub const PROFILE_DESCRIPTION_FIELD: &'static str = "Profile Description";
pub const DIRECTORY_FIELD: &'static str = "Directory";
pub const DATE_FIELD: &'static str = "Date/Time Original";

impl Metadata {
    /// The orientation declared by an image's fields.
    pub fn orientation_for(fields: &FieldMap) -> (r: Orientation)
        ensures
            r == declared_orientation(fields.view()),
    {
        let key = String::from_str(ORIENTATION_FIELD);
        match fields.get(&key) {
            Some(v) => Orientation::from_orientation_metadata(v.as_str()),
            None => Orientation::Normal,
        }
    }
}

/// Code point order of character sequences, which is the byte order of
/// their UTF-8 encodings.
pub open spec fn lex_le(a: Seq<char>, b: Seq<char>) -> bool
    decreases a.len(),
{
    if a.len() == 0 {
        true
    } else if b.len() == 0 {
        false
    } else if a[0] != b[0] {
        (a[0] as u32) < (b[0] as u32)
    } else {
        lex_le(a.drop_first(), b.drop_first())
    }
}

pub open spec fn views(v: Seq<String>) -> Seq<Seq<char>> {
    v.map_values(|s: String| s@)
}

/// Relies on `Itertools::sorted`: the same strings in ascending order of
/// `Ord for String`, which compares their bytes lexicographically.
#[verifier::external_body]
fn sorted_strings(v: &Vec<String>) -> (r: Vec<String>)
    ensures
        views(r@).to_multiset() == views(v@).to_multiset(),
        forall|i: int, j: int| 0 <= i < j < r@.len() ==> lex_le(#[trigger] r@[i]@, #[trigger] r@[j]@),
{
    v.iter().cloned().sorted().collect()
}

/// The first index at or after `k` of a path in `s` whose file stem is
/// `st`, or `s.len()`.
pub open spec fn first_with_stem(s: Seq<Seq<char>>, st: Seq<char>, k: int) -> int
    decreases s.len() - k,
{
    if k < 0 || k >= s.len() {
        s.len() as int
    } else if file_stem(s[k]) == st {
        k
    } else {
        first_with_stem(s, st, k + 1)
    }
}

/// The first index at or after `k` of a path in `s` whose file stem is
/// `st` and that is not a camera raw file, or `s.len()`.
pub open spec fn first_non_raw_with_stem(s: Seq<Seq<char>>, st: Seq<char>, k: int) -> int
    decreases s.len() - k,
{
    if k < 0 || k >= s.len() {
        s.len() as int
    } else if file_stem(s[k]) == st && !is_raw_path(s[k]) {
        k
    } else {
        first_non_raw_with_stem(s, st, k + 1)
    }
}

/// The index of the path kept for the stem `st`: the first path with that
/// stem that is not a camera raw file, else the first path with that stem.
pub open spec fn kept_index(s: Seq<Seq<char>>, st: Seq<char>) -> int {
    let a = first_non_raw_with_stem(s, st, 0);
    if a < s.len() {
        a
    } else {
        first_with_stem(s, st, 0)
    }
}

/// The paths among the first `m` of `s` that are kept for their stem, in
/// order: one for each distinct stem.
pub open spec fn kept_paths(s: Seq<Seq<char>>, m: int) -> Seq<Seq<char>>
    decreases m,
{
    if m <= 0 || m > s.len() {
        seq![]
    } else {
        let r = kept_paths(s, m - 1);
        if kept_index(s, file_stem(s[m - 1])) == m - 1 {
            r.push(s[m - 1])
        } else {
            r
        }
    }
}

fn chars_eq(a: &Vec<char>, b: &Vec<char>) -> (r: bool)
    ensures
        r == (a@ == b@),
{
    if a.len() != b.len() {
        return false;
    }
    let mut i: usize = 0;
    while i < a.len()
        invariant
            a@.len() == b@.len(),
            i <= a@.len(),
            forall|j: int| 0 <= j < i ==> a@[j] == b@[j],
        decreases a@.len() - i,
    {
        if a[i] != b[i] {
            return false;
        }
        i = i + 1;
    }
    proof {
        assert(a@ =~= b@);
    }
    true
}

proof fn lemma_first_with_stem(s: Seq<Seq<char>>, st: Seq<char>, k: int)
    requires
        0 <= k <= s.len(),
    ensures
        k <= first_with_stem(s, st, k) <= s.len(),
        first_with_stem(s, st, k) < s.len() ==> file_stem(s[first_with_stem(s, st, k)]) == st,
        forall|j: int| k <= j < first_with_stem(s, st, k) ==> file_stem(#[trigger] s[j]) != st,
    decreases s.len() - k,
{
    if k < s.len() && file_stem(s[k]) != st {
        lemma_first_with_stem(s, st, k + 1);
    }
}

proof fn lemma_first_non_raw_with_stem(s: Seq<Seq<char>>, st: Seq<char>, k: int)
    requires
        0 <= k <= s.len(),
    ensures
        k <= first_non_raw_with_stem(s, st, k) <= s.len(),
        first_non_raw_with_stem(s, st, k) < s.len() ==> file_stem(
            s[first_non_raw_with_stem(s, st, k)],
        ) == st,
    decreases s.len() - k,
{
    if k < s.len() && !(file_stem(s[k]) == st && !is_raw_path(s[k])) {
        lemma_first_non_raw_with_stem(s, st, k + 1);
    }
}

/// The kept index of a stem that some path has is the index of a path with
/// that stem.
proof fn lemma_kept_index(s: Seq<Seq<char>>, i: int)
    requires
        0 <= i < s.len(),
    ensures
        0 <= kept_index(s, file_stem(s[i])) < s.len(),
        file_stem(s[kept_index(s, file_stem(s[i]))]) == file_stem(s[i]),
{
    let st = file_stem(s[i]);
    lemma_first_with_stem(s, st, 0);
    lemma_first_non_raw_with_stem(s, st, 0);
    if first_with_stem(s, st, 0) > i {
        assert(file_stem(s[i]) != st);
    }
}

proof fn lemma_kept_paths(s: Seq<Seq<char>>, m: int)
    requires
        0 <= m <= s.len(),
    ensures
        ({
            let kept = kept_paths(s, m);
            &&& forall|x: int|
                0 <= x < kept.len() ==> 0 <= #[trigger] kept_index(s, file_stem(kept[x])) < m
                    && s[kept_index(s, file_stem(kept[x]))] == kept[x]
            &&& forall|x: int, y: int|
                0 <= x < y < kept.len() ==> file_stem(#[trigger] kept[x]) != file_stem(
                    #[trigger] kept[y],
                )
            &&& forall|k: int|
                0 <= k < m && kept_index(s, file_stem(s[k])) == k ==> #[trigger] kept.contains(s[k])
        }),
    decreases m,
{
    if m > 0 {
        lemma_kept_paths(s, m - 1);
        let r = kept_paths(s, m - 1);
        let st = file_stem(s[m - 1]);
        if kept_index(s, st) == m - 1 {
            let kept = r.push(s[m - 1]);
            assert(kept_paths(s, m) == kept);
            assert forall|x: int| 0 <= x < kept.len() implies 0 <= #[trigger] kept_index(
                s,
                file_stem(kept[x]),
            ) < m && s[kept_index(s, file_stem(kept[x]))] == kept[x] by {
                if x < r.len() {
                    assert(kept[x] == r[x]);
                }
            }
            assert forall|x: int, y: int| 0 <= x < y < kept.len() implies file_stem(
                #[trigger] kept[x],
            ) != file_stem(#[trigger] kept[y]) by {
                assert(kept[x] == r[x]);
                if y < r.len() {
                    assert(kept[y] == r[y]);
                } else {
                    assert(kept_index(s, file_stem(r[x])) < m - 1);
                }
            }
            assert forall|k: int|
                0 <= k < m && kept_index(s, file_stem(s[k])) == k implies #[trigger] kept.contains(
                s[k],
            ) by {
                if k < m - 1 {
                    assert(r.contains(s[k]));
                    let x = choose|x: int| 0 <= x < r.len() && r[x] == s[k];
                    assert(kept[x] == s[k]);
                } else {
                    assert(kept[r.len() as int] == s[k]);
                }
            }
        } else {
            assert(kept_paths(s, m) == r);
        }
    }
}

/// Grouping by stem keeps one path per distinct stem: the kept paths have
/// pairwise different stems, and every stem among the paths is the stem of
/// a kept path (the first with that stem that is not a camera raw file,
/// else the first with that stem).
pub proof fn lemma_one_path_per_stem(s: Seq<Seq<char>>)
    ensures
        ({
            let kept = kept_paths(s, s.len() as int);
            &&& forall|x: int, y: int|
                0 <= x < y < kept.len() ==> file_stem(#[trigger] kept[x]) != file_stem(
                    #[trigger] kept[y],
                )
            &&& forall|i: int|
                0 <= i < s.len() ==> kept.contains(#[trigger] s[kept_index(s, file_stem(s[i]))])
                    && file_stem(s[kept_index(s, file_stem(s[i]))]) == file_stem(s[i])
        }),
{
    lemma_kept_paths(s, s.len() as int);
    assert forall|i: int| 0 <= i < s.len() implies kept_paths(s, s.len() as int).contains(
        #[trigger] s[kept_index(s, file_stem(s[i]))],
    ) && file_stem(s[kept_index(s, file_stem(s[i]))]) == file_stem(s[i]) by {
        lemma_kept_index(s, i);
        let k = kept_index(s, file_stem(s[i]));
        assert(kept_index(s, file_stem(s[k])) == k);
    }
}

impl Metadata {
    /// Sorts the paths and keeps, for each distinct file stem, one path: the
    /// first with that stem that is not a camera raw file, else the first
    /// with that stem; the kept paths come in sorted order.
    pub fn group_raw_jpg_paths(paths: &Vec<String>) -> (r: Vec<String>)
        ensures
            exists|sorted: Seq<String>|
                #![trigger views(sorted)]
                views(sorted).to_multiset() == views(paths@).to_multiset() && (forall|i: int, j: int|
                    0 <= i < j < sorted.len() ==> lex_le(#[trigger] sorted[i]@, #[trigger] sorted[j]@))
                    && views(r@) == kept_paths(views(sorted), sorted.len() as int),
    {
        let sorted = sorted_strings(paths);
        let n = sorted.len();
        let ghost sv = views(sorted@);
        let mut stems: Vec<Vec<char>> = Vec::new();
        let mut raws: Vec<bool> = Vec::new();
        let mut k: usize = 0;
        while k < n
            invariant
                n == sorted@.len(),
                sv == views(sorted@),
                k <= n,
                stems@.len() == k,
                raws@.len() == k,
                forall|j: int| 0 <= j < k ==> (#[trigger] stems@[j])@ == file_stem(sv[j]),
                forall|j: int| 0 <= j < k ==> #[trigger] raws@[j] == is_raw_path(sv[j]),
            decreases n - k,
        {
            proof {
                assert(sorted@[k as int]@ == sv[k as int]);
            }
            stems.push(file_stem_chars(&chars_of(sorted[k].as_str())));
            raws.push(is_raw_file(sorted[k].as_str()));
            k = k + 1;
        }
        let mut out: Vec<String> = Vec::new();
        let mut i: usize = 0;
        while i < n
            invariant
                n == sorted@.len(),
                sv == views(sorted@),
                stems@.len() == n,
                raws@.len() == n,
                forall|j: int| 0 <= j < n ==> (#[trigger] stems@[j])@ == file_stem(sv[j]),
                forall|j: int| 0 <= j < n ==> #[trigger] raws@[j] == is_raw_path(sv[j]),
                i <= n,
                views(out@) == kept_paths(sv, i as int),
            decreases n - i,
        {
            let ghost st = file_stem(sv[i as int]);
            let mut first_any: usize = n;
            let mut first_cooked: usize = n;
            let mut j: usize = n;
            while j > 0
                invariant
                    n == sv.len(),
                    stems@.len() == n,
                    raws@.len() == n,
                    forall|x: int| 0 <= x < n ==> (#[trigger] stems@[x])@ == file_stem(sv[x]),
                    forall|x: int| 0 <= x < n ==> #[trigger] raws@[x] == is_raw_path(sv[x]),
                    i < n,
                    st == file_stem(sv[i as int]),
                    stems@[i as int]@ == st,
                    j <= n,
                    first_any == first_with_stem(sv, st, j as int),
                    first_cooked == first_non_raw_with_stem(sv, st, j as int),
                decreases j,
            {
                let same = chars_eq(&stems[j - 1], &stems[i]);
                if same {
                    first_any = j - 1;
                    if !raws[j - 1] {
                        first_cooked = j - 1;
                    }
                }
                j = j - 1;
            }
            let kept = if first_cooked < n {
                first_cooked
            } else {
                first_any
            };
            proof {
                assert(sv.len() > 0);
            }
            if kept == i {
                let ghost before = out@;
                out.push(sorted[i].clone());
                proof {
                    assert(out@.drop_last() == before);
                    assert(views(out@) == views(before).push(sorted@[i as int]@));
                }
            }
            i = i + 1;
        }
        out
    }
}

/// The paths, in order, that are not among `cached`.
pub open spec fn uncached(paths: Seq<Seq<char>>, cached: Seq<Seq<char>>) -> Seq<Seq<char>>
    decreases paths.len(),
{
    if paths.len() == 0 {
        seq![]
    } else {
        let r = uncached(paths.drop_last(), cached);
        if cached.contains(paths.last()) {
            r
        } else {
            r.push(paths.last())
        }
    }
}

proof fn lemma_uncached_members(paths: Seq<Seq<char>>, cached: Seq<Seq<char>>)
    ensures
        forall|x: Seq<char>|
            #[trigger] uncached(paths, cached).contains(x) <==> (paths.contains(x) && !cached.contains(
                x,
            )),
    decreases paths.len(),
{
    if paths.len() > 0 {
        let init = paths.drop_last();
        lemma_uncached_members(init, cached);
        assert forall|x: Seq<char>| paths.contains(x) <==> (init.contains(x) || x == paths.last()) by {
            if paths.contains(x) {
                let i = choose|i: int| 0 <= i < paths.len() && paths[i] == x;
                if i < paths.len() - 1 {
                    assert(init[i] == x);
                }
            }
            if init.contains(x) {
                let i = choose|i: int| 0 <= i < init.len() && init[i] == x;
                assert(paths[i] == x);
            }
        }
        let r = uncached(init, cached);
        assert forall|x: Seq<char>| r.push(paths.last()).contains(x) <==> (r.contains(x) || x
            == paths.last()) by {
            if r.push(paths.last()).contains(x) {
                let i = choose|i: int| 0 <= i < r.len() + 1 && r.push(paths.last())[i] == x;
                if i < r.len() {
                    assert(r[i] == x);
                }
            }
            if r.contains(x) {
                let i = choose|i: int| 0 <= i < r.len() && r[i] == x;
                assert(r.push(paths.last())[i] == x);
            }
            assert(r.push(paths.last())[r.len() as int] == paths.last());
        }
        assert forall|x: Seq<char>|
            #[trigger] uncached(paths, cached).contains(x) <==> (paths.contains(x) && !cached.contains(x)) by {
            assert(r.contains(x) <==> (init.contains(x) && !cached.contains(x)));
            assert(paths.contains(x) <==> (init.contains(x) || x == paths.last()));
            assert(r.push(paths.last()).contains(x) <==> (r.contains(x) || x == paths.last()));
            if cached.contains(paths.last()) {
                assert(uncached(paths, cached) == r);
            } else {
                assert(uncached(paths, cached) == r.push(paths.last()));
            }
        }
    } else {
        assert forall|x: Seq<char>|
            #[trigger] uncached(paths, cached).contains(x) <==> (paths.contains(x) && !cached.contains(x)) by {
            assert(uncached(paths, cached) == Seq::<Seq<char>>::empty());
            if paths.contains(x) {
                let i = choose|i: int| 0 <= i < paths.len() && paths[i] == x;
            }
        }
    }
}

/// Caching twice in succession extracts nothing the second time: once
/// every path that the first pass found uncached has been stored (along
/// with everything stored before), no path is left to extract.
pub proof fn lemma_second_pass_extracts_nothing(
    paths: Seq<Seq<char>>,
    cached_before: Seq<Seq<char>>,
    cached_after: Seq<Seq<char>>,
)
    requires
        forall|x: Seq<char>| #[trigger] cached_before.contains(x) ==> cached_after.contains(x),
        forall|x: Seq<char>|
            #[trigger] uncached(paths, cached_before).contains(x) ==> cached_after.contains(x),
    ensures
        uncached(paths, cached_after).len() == 0,
{
    lemma_uncached_members(paths, cached_before);
    lemma_uncached_members(paths, cached_after);
    let r = uncached(paths, cached_after);
    if r.len() > 0 {
        let x = r[0];
        assert(r.contains(x));
        if cached_before.contains(x) {
        } else {
            assert(uncached(paths, cached_before).contains(x));
        }
    }
}

/// Whether `v` holds a string equal to `s`.
pub fn contains_string(v: &Vec<String>, s: &String) -> (r: bool)
    ensures
        r == views(v@).contains(s@),
{
    let mut i: usize = 0;
    while i < v.len()
        invariant
            i <= v@.len(),
            forall|j: int| 0 <= j < i ==> v@[j]@ != s@,
        decreases v@.len() - i,
    {
        if crate::text::string_eq(&v[i], s) {
            proof {
                assert(views(v@)[i as int] == s@);
            }
            return true;
        }
        i = i + 1;
    }
    proof {
        if views(v@).contains(s@) {
            let j = choose|j: int| 0 <= j < views(v@).len() && views(v@)[j] == s@;
            assert(v@[j]@ == s@);
        }
    }
    false
}

impl Metadata {
    /// The paths, in order, that the store does not hold yet: those that a
    /// caching pass extracts.
    pub fn paths_to_cache(image_paths: &Vec<String>, cached_paths: &Vec<String>) -> (r: Vec<String>)
        ensures
            views(r@) == uncached(views(image_paths@), views(cached_paths@)),
    {
        let ghost pv = views(image_paths@);
        let ghost cv = views(cached_paths@);
        let mut r: Vec<String> = Vec::new();
        let mut i: usize = 0;
        proof {
            assert(pv.subrange(0, 0) == Seq::<Seq<char>>::empty());
        }
        while i < image_paths.len()
            invariant
                i <= image_paths@.len(),
                pv == views(image_paths@),
                cv == views(cached_paths@),
                views(r@) == uncached(pv.subrange(0, i as int), cv),
            decreases image_paths@.len() - i,
        {
            proof {
                assert(pv.subrange(0, i + 1).drop_last() == pv.subrange(0, i as int));
                assert(pv.subrange(0, i + 1).last() == image_paths@[i as int]@);
            }
            if !contains_string(cached_paths, &image_paths[i]) {
                let ghost before = r@;
                r.push(image_paths[i].clone());
                proof {
                    assert(r@.drop_last() == before);
                    assert(views(r@) == views(before).push(image_paths@[i as int]@));
                }
            }
            i = i + 1;
        }
        proof {
            assert(pv.subrange(0, image_paths@.len() as int) == pv);
        }
        r
    }

    /// Splits `len` items into consecutive chunks of `size` (the last one
    /// possibly shorter), as `[start, end)` bounds.
    pub fn chunk_bounds(len: usize, size: usize) -> (r: Vec<(usize, usize)>)
        requires
            size > 0,
        ensures
            len == 0 ==> r@.len() == 0,
            len > 0 ==> r@.len() > 0 && r@[0].0 == 0 && r@.last().1 == len,
            forall|k: int|
                0 <= k < r@.len() ==> #[trigger] r@[k].0 < r@[k].1 && r@[k].1 - r@[k].0 <= size,
            forall|k: int| 0 <= k < r@.len() - 1 ==> #[trigger] r@[k].1 - r@[k].0 == size,
            forall|k: int| 0 <= k < r@.len() - 1 ==> #[trigger] r@[k].1 == r@[k + 1].0,
    {
        let mut r: Vec<(usize, usize)> = Vec::new();
        let mut start: usize = 0;
        while start < len
            invariant
                size > 0,
                start <= len,
                r@.len() == 0 <==> start == 0,
                r@.len() > 0 ==> r@.last().1 == start && r@[0].0 == 0,
                forall|k: int|
                    0 <= k < r@.len() ==> #[trigger] r@[k].0 < r@[k].1 && r@[k].1 - r@[k].0 <= size,
                forall|k: int| 0 <= k < r@.len() - 1 ==> #[trigger] r@[k].1 - r@[k].0 == size,
                forall|k: int| 0 <= k < r@.len() - 1 ==> #[trigger] r@[k].1 == r@[k + 1].0,
                r@.len() > 0 && start < len ==> r@.last().1 - r@.last().0 == size,
            decreases len - start,
        {
            let end = if len - start > size {
                start + size
            } else {
                len
            };
            r.push((start, end));
            start = end;
        }
        r
    }

    /// The estimated time left, in whole minutes and remaining seconds, after
    /// `processed` of `total` chunks took `elapsed_ms` in all: the average
    /// chunk time times the chunks left. `None` once no chunk is left or
    /// none has been processed.
    pub fn estimate_remaining(elapsed_ms: u64, processed: u64, total: u64) -> (r: Option<(u64, u64)>)
        ensures
            (processed == 0 || processed >= total) <==> r is None,
            match r {
                Some((m, sec)) => {
                    let est = (elapsed_ms / processed) * (total - processed);
                    est <= u64::MAX ==> m == est / 1000 / 60 && sec == (est / 1000) % 60
                },
                None => true,
            },
    {
        if processed == 0 || processed >= total {
            return None;
        }
        let avg = elapsed_ms / processed;
        let remaining = total - processed;
        let est = match avg.checked_mul(remaining) {
            Some(x) => x,
            None => u64::MAX,
        };
        let secs = est / 1000;
        Some((secs / 60, secs % 60))
    }
}

/// The line that separates the records of the extraction tool's output.
pub const RECORD_SEPARATOR: &'static str = "========";

/// The first position at or after `k` where `p` occurs in `s`, or -1.
pub open spec fn find_from(s: Seq<char>, p: Seq<char>, k: int) -> int
    decreases s.len() - k,
{
    if k < 0 || k + p.len() > s.len() || k >= s.len() {
        -1
    } else if occurs_at(s, p, k) {
        k
    } else {
        find_from(s, p, k + 1)
    }
}

/// The pieces of `s` from `a` on between occurrences of `p`.
pub open spec fn pieces_from(s: Seq<char>, p: Seq<char>, a: int) -> Seq<Seq<char>>
    decreases s.len() - a,
{
    let k = find_from(s, p, a);
    if p.len() == 0 || a < 0 || a > s.len() || k < a || k + p.len() > s.len() {
        seq![s.subrange(a, s.len() as int)]
    } else {
        seq![s.subrange(a, k)] + pieces_from(s, p, k + p.len())
    }
}

/// The records of the extraction tool's output: its pieces between
/// separator lines.
pub open spec fn tool_pieces(output: Seq<char>) -> Seq<Seq<char>> {
    pieces_from(output, RECORD_SEPARATOR@, 0)
}

/// The path and fields of each piece that names a path.
pub open spec fn parsed_records(pieces: Seq<Seq<char>>) -> Seq<(Seq<char>, Map<Seq<char>, Seq<char>>)>
    decreases pieces.len(),
{
    if pieces.len() == 0 {
        seq![]
    } else {
        let r = parsed_records(pieces.drop_last());
        match record_path(pieces.last()) {
            Some(path) => r.push((path, record_fields(pieces.last()))),
            None => r,
        }
    }
}

/// The records of an extraction run. Run on a single file the tool names
/// no file, so the first record takes the path the run was made for.
pub open spec fn tool_records(output: Seq<char>, single_path: Option<Seq<char>>) -> Seq<
    (Seq<char>, Map<Seq<char>, Seq<char>>),
> {
    let r = parsed_records(tool_pieces(output));
    match single_path {
        Some(p) => if r.len() > 0 {
            r.update(0, (p, r[0].1))
        } else {
            r
        },
        None => r,
    }
}

fn occurs_at_exec(v: &Vec<char>, p: &Vec<char>, k: usize) -> (r: bool)
    ensures
        r == occurs_at(v@, p@, k as int),
{
    if k > v.len() || p.len() > v.len() - k {
        return false;
    }
    let n = v.len();
    let mut j: usize = 0;
    while j < p.len()
        invariant
            n == v@.len(),
            k + p@.len() <= v@.len(),
            j <= p@.len(),
            forall|x: int| 0 <= x < j ==> v@[k + x] == p@[x],
        decreases p@.len() - j,
    {
        if v[k + j] != p[j] {
            proof {
                assert(v@.subrange(k as int, k + p@.len())[j as int] != p@[j as int]);
            }
            return false;
        }
        j = j + 1;
    }
    proof {
        assert(v@.subrange(k as int, k + p@.len()) =~= p@);
    }
    true
}

impl Metadata {
    /// The pieces of `output` between separator lines.
    pub fn split_records(output: &str) -> (r: Vec<String>)
        ensures
            views(r@) == tool_pieces(output@),
    {
        let v = chars_of(output);
        let p = chars_of(RECORD_SEPARATOR);
        proof {
            reveal_strlit("========");
        }
        let n = v.len();
        let m = p.len();
        let mut out: Vec<String> = Vec::new();
        let mut a: usize = 0;
        let mut k: usize = 0;
        while m <= n - k
            invariant
                n == v@.len(),
                m == p@.len() == 8,
                a <= k <= n,
                views(out@) + pieces_from(v@, p@, a as int) == pieces_from(v@, p@, 0),
                find_from(v@, p@, a as int) == find_from(v@, p@, k as int),
            decreases n - k,
        {
            if occurs_at_exec(&v, &p, k) {
                let piece = string_of_range(&v, a, k);
                let ghost before = out@;
                out.push(piece);
                proof {
                    assert(out@.drop_last() == before);
                    assert(views(out@) == views(before).push(piece@));
                    assert(pieces_from(v@, p@, a as int) == seq![v@.subrange(a as int, k as int)]
                        + pieces_from(v@, p@, k + m));
                    assert(views(before).push(piece@) + pieces_from(v@, p@, k + m) == views(before)
                        + (seq![piece@] + pieces_from(v@, p@, k + m)));
                }
                a = k + m;
                k = k + m;
            } else {
                k = k + 1;
            }
        }
        proof {
            assert(find_from(v@, p@, k as int) == -1);
            assert(pieces_from(v@, p@, a as int) == seq![v@.subrange(a as int, n as int)]);
        }
        let last = string_of_range(&v, a, n);
        let ghost before = out@;
        out.push(last);
        proof {
            assert(out@.drop_last() == before);
            assert(views(out@) == views(before).push(last@));
        }
        out
    }

    /// Parses a whole extraction run: each record that names a file gives
    /// its path and fields; run on a single file, the first record takes
    /// `single_path`.
    pub fn parse_exiftool_output(output: &str, single_path: Option<&String>) -> (r: Vec<(String, FieldMap)>)
        ensures
            ({
                let spec = tool_records(
                    output@,
                    match single_path {
                        Some(p) => Some(p@),
                        None => None,
                    },
                );
                &&& r@.len() == spec.len()
                &&& forall|i: int|
                    0 <= i < r@.len() ==> (#[trigger] r@[i]).0@ == spec[i].0 && r@[i].1.view()
                        == spec[i].1
            }),
    {
        let pieces = Self::split_records(output);
        let ghost pv = views(pieces@);
        let mut out: Vec<(String, FieldMap)> = Vec::new();
        let mut i: usize = 0;
        proof {
            assert(pv.subrange(0, 0) == Seq::<Seq<char>>::empty());
        }
        while i < pieces.len()
            invariant
                i <= pieces@.len(),
                pv == views(pieces@),
                out@.len() == parsed_records(pv.subrange(0, i as int)).len(),
                forall|j: int|
                    0 <= j < out@.len() ==> (#[trigger] out@[j]).0@ == parsed_records(
                        pv.subrange(0, i as int),
                    )[j].0 && out@[j].1.view() == parsed_records(pv.subrange(0, i as int))[j].1,
            decreases pieces@.len() - i,
        {
            proof {
                assert(pv.subrange(0, i + 1).drop_last() == pv.subrange(0, i as int));
                assert(pv.subrange(0, i + 1).last() == pieces@[i as int]@);
            }
            match Self::parse_exiftool_output_str(pieces[i].as_str()) {
                Some(rec) => {
                    out.push(rec);
                },
                None => {},
            }
            i = i + 1;
        }
        proof {
            assert(pv.subrange(0, pieces@.len() as int) == pv);
        }
        match single_path {
            Some(p) => {
                if out.len() > 0 {
                    let (_, fields) = out.remove(0);
                    out.insert(0, (p.clone(), fields));
                }
            },
            None => {},
        }
        out
    }
}

/// What `serde_json::to_string` writes for a JSON object holding the
/// pairs as string values, a later pair overriding an earlier one.
pub uninterp spec fn json_object_text(pairs: Seq<(Seq<char>, Seq<char>)>) -> Seq<char>;

/// The pairs, in key order, of the JSON object of string values that
/// `serde_json` reads from `text`; none where the text holds no such object.
pub uninterp spec fn json_string_pairs(text: Seq<char>) -> Seq<(Seq<char>, Seq<char>)>;

pub open spec fn pair_views(v: Seq<(String, String)>) -> Seq<(Seq<char>, Seq<char>)> {
    v.map_values(|p: (String, String)| (p.0@, p.1@))
}

/// Relies on `serde_json::to_string` of a `serde_json::Map` collected from
/// the pairs in order: the text depends on the pairs alone (empty where
/// writing fails).
#[verifier::external_body]
fn json_text(pairs: &Vec<(String, String)>) -> (r: String)
    ensures
        r@ == json_object_text(pair_views(pairs@)),
{
    let m: serde_json::Map<String, serde_json::Value> = pairs.iter().map(
        |(k, v)| (k.clone(), serde_json::Value::String(v.clone())),
    ).collect();
    serde_json::to_string(&m).unwrap_or_default()
}

/// Relies on `serde_json::from_str` into a `BTreeMap<String, String>`: the
/// pairs in key order depend on the text alone (none where it does not
/// read).
#[verifier::external_body]
fn json_pairs(text: &str) -> (r: Vec<(String, String)>)
    ensures
        pair_views(r@) == json_string_pairs(text@),
{
    serde_json::from_str::<std::collections::BTreeMap<String, String>>(text).map(
        |m| m.into_iter().collect(),
    ).unwrap_or_default()
}

impl Metadata {
    /// The JSON text the store keeps for a record's fields.
    pub fn fields_to_json(fields: &FieldMap) -> (r: String)
        ensures
            r@ == json_object_text(fields.pair_views()),
    {
        json_text(fields.pairs())
    }

    /// The fields of a stored JSON text; none where it does not read as an
    /// object of string values.
    pub fn fields_from_json(text: &str) -> (r: FieldMap)
        ensures
            r.view() == map_of(json_string_pairs(text@)),
    {
        let pairs = json_pairs(text);
        let mut f = FieldMap::new();
        let mut i: usize = 0;
        let ghost pv = pair_views(pairs@);
        proof {
            assert(pv.subrange(0, 0) == Seq::<(Seq<char>, Seq<char>)>::empty());
        }
        while i < pairs.len()
            invariant
                i <= pairs@.len(),
                pv == pair_views(pairs@),
                f.view() == map_of(pv.subrange(0, i as int)),
            decreases pairs@.len() - i,
        {
            proof {
                assert(pv.subrange(0, i + 1).drop_last() == pv.subrange(0, i as int));
                assert(pv.subrange(0, i + 1).last() == pv[i as int]);
            }
            f.insert(pairs[i].0.clone(), pairs[i].1.clone());
            i = i + 1;
        }
        proof {
            assert(pv.subrange(0, pairs@.len() as int) == pv);
        }
        f
    }

    /// The rows `(path, JSON text of the fields)` that store the records.
    pub fn metadata_rows(records: &Vec<(String, FieldMap)>) -> (r: Vec<(String, String)>)
        ensures
            r@.len() == records@.len(),
            forall|i: int|
                0 <= i < r@.len() ==> (#[trigger] r@[i]).0@ == records@[i].0@ && r@[i].1@
                    == json_object_text(records@[i].1.pair_views()),
    {
        let mut r: Vec<(String, String)> = Vec::new();
        let mut i: usize = 0;
        while i < records.len()
            invariant
                i <= records@.len(),
                r@.len() == i,
                forall|j: int|
                    0 <= j < i ==> (#[trigger] r@[j]).0@ == records@[j].0@ && r@[j].1@
                        == json_object_text(records@[j].1.pair_views()),
            decreases records@.len() - i,
        {
            let json = Self::fields_to_json(&records[i].1);
            r.push((records[i].0.clone(), json));
            i = i + 1;
        }
        r
    }

    /// The paths to drop from the store: those whose file no longer
    /// exists, `exists` telling which do.
    pub fn clear_moved_files(paths: &Vec<String>, exists: &Vec<bool>) -> (r: Vec<String>)
        requires
            exists@.len() == paths@.len(),
        ensures
            views(r@) == gone(views(paths@), exists@),
    {
        let ghost pv = views(paths@);
        let mut r: Vec<String> = Vec::new();
        let mut i: usize = 0;
        proof {
            assert(pv.subrange(0, 0) == Seq::<Seq<char>>::empty());
            assert(exists@.subrange(0, 0) == Seq::<bool>::empty());
        }
        while i < paths.len()
            invariant
                i <= paths@.len() == exists@.len(),
                pv == views(paths@),
                views(r@) == gone(pv.subrange(0, i as int), exists@.subrange(0, i as int)),
            decreases paths@.len() - i,
        {
            proof {
                assert(pv.subrange(0, i + 1).drop_last() == pv.subrange(0, i as int));
                assert(exists@.subrange(0, i + 1).drop_last() == exists@.subrange(0, i as int));
                assert(pv.subrange(0, i + 1).last() == paths@[i as int]@);
            }
            if !exists[i] {
                let ghost before = r@;
                r.push(paths[i].clone());
                proof {
                    assert(r@.drop_last() == before);
                    assert(views(r@) == views(before).push(paths@[i as int]@));
                }
            }
            i = i + 1;
        }
        proof {
            assert(pv.subrange(0, paths@.len() as int) == pv);
            assert(exists@.subrange(0, paths@.len() as int) == exists@);
        }
        r
    }

    /// The stored paths to drop after a scan of the whole store.
    pub fn clean_moved_files(stored_paths: &Vec<String>, exists: &Vec<bool>) -> (r: Vec<String>)
        requires
            exists@.len() == stored_paths@.len(),
        ensures
            views(r@) == gone(views(stored_paths@), exists@),
    {
        Self::clear_moved_files(stored_paths, exists)
    }
}

/// The paths, in order, whose flag in `exists` is false.
pub open spec fn gone(paths: Seq<Seq<char>>, exists: Seq<bool>) -> Seq<Seq<char>>
    decreases paths.len(),
{
    if paths.len() == 0 || exists.len() == 0 {
        seq![]
    } else {
        let r = gone(paths.drop_last(), exists.drop_last());
        if exists.last() {
            r
        } else {
            r.push(paths.last())
        }
    }
}

} // verus!
