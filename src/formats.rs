//! The file formats the browser knows: which extensions it opens, which
//! are camera raw formats, and how a path is classified by its extension.
use vstd::prelude::*;
use crate::paths::{extension, file_name_or_empty, extension_chars, file_name_chars};
use crate::text::{chars_of, string_of, str_eq};

verus! {

/// What `str::to_lowercase` makes of a string.
pub uninterp spec fn lower_of(s: Seq<char>) -> Seq<char>;

/// Relies on `str::to_lowercase`: the result depends on the characters
/// alone, and an empty string stays empty.
#[verifier::external_body]
pub(crate) fn lowercase(s: &str) -> (r: String)
    ensures
        r@ == lower_of(s@),
        s@.len() == 0 ==> r@.len() == 0,
{
    s.to_lowercase()
}

/// The extension of the modern transform-coded format.
pub const JXL_EXTENSION: &'static str = "jxl";

/// The camera raw extensions, in lower case.
pub open spec fn raw_extension_list() -> Seq<Seq<char>> {
    seq![
        "raf"@,
        "3fr"@,
        "ari"@,
        "arq"@,
        "arw"@,
        "cam"@,
        "cr2"@,
        "cr3"@,
        "crw"@,
        "dcr"@,
        "dng"@,
        "erf"@,
        "fff"@,
        "gpr"@,
        "iiq"@,
        "kdc"@,
        "lri"@,
        "mdc"@,
        "mef"@,
        "mos"@,
        "mrw"@,
        "nef"@,
        "nrw"@,
        "orf"@,
        "ori"@,
        "pef"@,
        "raw"@,
        "rw2"@,
        "rwl"@,
        "sr2"@,
        "srf"@,
        "srw"@,
        "sti"@,
        "tif"@,
        "x3f"@,
    ]
}

/// Every extension the browser opens, in lower case.
pub open spec fn valid_extension_list() -> Seq<Seq<char>> {
    seq![
        "jpg"@,
        "png"@,
        "jpeg"@,
        "webp"@,
        "gif"@,
        "bmp"@,
        "tiff"@,
        "jxl"@,
        "raf"@,
        "3fr"@,
        "ari"@,
        "arq"@,
        "arw"@,
        "cam"@,
        "cr2"@,
        "cr3"@,
        "crw"@,
        "dcr"@,
        "dng"@,
        "erf"@,
        "fff"@,
        "gpr"@,
        "iiq"@,
        "kdc"@,
        "lri"@,
        "mdc"@,
        "mef"@,
        "mos"@,
        "mrw"@,
        "nef"@,
        "nrw"@,
        "orf"@,
        "ori"@,
        "pef"@,
        "raw"@,
        "rw2"@,
        "rwl"@,
        "sr2"@,
        "srf"@,
        "srw"@,
        "sti"@,
        "tif"@,
        "x3f"@,
    ]
}

pub fn raw_extensions() -> (r: Vec<&'static str>)
    ensures
        r@.len() == raw_extension_list().len(),
        forall|i: int| 0 <= i < r@.len() ==> #[trigger] r@[i]@ == raw_extension_list()[i],
{
    let r = vec![
        "raf",
        "3fr",
        "ari",
        "arq",
        "arw",
        "cam",
        "cr2",
        "cr3",
        "crw",
        "dcr",
        "dng",
        "erf",
        "fff",
        "gpr",
        "iiq",
        "kdc",
        "lri",
        "mdc",
        "mef",
        "mos",
        "mrw",
        "nef",
        "nrw",
        "orf",
        "ori",
        "pef",
        "raw",
        "rw2",
        "rwl",
        "sr2",
        "srf",
        "srw",
        "sti",
        "tif",
        "x3f",
    ];
    r
}

pub fn valid_extensions() -> (r: Vec<&'static str>)
    ensures
        r@.len() == valid_extension_list().len(),
        forall|i: int| 0 <= i < r@.len() ==> #[trigger] r@[i]@ == valid_extension_list()[i],
{
    let r = vec![
        "jpg",
        "png",
        "jpeg",
        "webp",
        "gif",
        "bmp",
        "tiff",
        "jxl",
        "raf",
        "3fr",
        "ari",
        "arq",
        "arw",
        "cam",
        "cr2",
        "cr3",
        "crw",
        "dcr",
        "dng",
        "erf",
        "fff",
        "gpr",
        "iiq",
        "kdc",
        "lri",
        "mdc",
        "mef",
        "mos",
        "mrw",
        "nef",
        "nrw",
        "orf",
        "ori",
        "pef",
        "raw",
        "rw2",
        "rwl",
        "sr2",
        "srf",
        "srw",
        "sti",
        "tif",
        "x3f",
    ];
    r
}

/// Whether `e` is one of `list`.
fn is_listed(list: &Vec<&'static str>, e: &str) -> (r: bool)
    ensures
        r == exists|i: int| 0 <= i < list@.len() && list@[i]@ == e@,
{
    let mut i: usize = 0;
    while i < list.len()
        invariant
            i <= list@.len(),
            forall|j: int| 0 <= j < i ==> list@[j]@ != e@,
        decreases list@.len() - i,
    {
        if str_eq(list[i], e) {
            return true;
        }
        i = i + 1;
    }
    false
}

/// Whether a path names a camera raw file: its extension, lower-cased, is a
/// raw extension.
pub open spec fn is_raw_path(p: Seq<char>) -> bool {
    raw_extension_list().contains(lower_of(extension(p)))
}

/// Whether a path names a file the browser opens.
pub open spec fn is_valid_path_name(p: Seq<char>) -> bool {
    valid_extension_list().contains(lower_of(extension(p)))
}

/// The extension of `path` (empty where it has none).
pub fn extension_string(path: &str) -> (r: String)
    ensures
        r@ == extension(path@),
{
    let v = chars_of(path);
    let e = extension_chars(&v);
    string_of(e.as_slice())
}

/// Whether `path` names a camera raw file.
pub fn is_raw_file(path: &str) -> (r: bool)
    ensures
        r == is_raw_path(path@),
{
    let e = extension_string(path);
    let l = lowercase(e.as_str());
    let list = raw_extensions();
    let r = is_listed(&list, l.as_str());
    proof {
        if r {
            let i = choose|i: int| 0 <= i < list@.len() && list@[i]@ == l@;
            assert(raw_extension_list()[i] == lower_of(extension(path@)));
        } else {
            assert forall|i: int| 0 <= i < raw_extension_list().len() implies raw_extension_list()[i]
                != lower_of(extension(path@)) by {
                assert(list@[i]@ == raw_extension_list()[i]);
            }
        }
    }
    r
}

/// Whether `path` names a file the browser opens.
pub fn is_valid_file(path: &str) -> (r: bool)
    ensures
        r == is_valid_path_name(path@),
{
    let e = extension_string(path);
    let l = lowercase(e.as_str());
    let list = valid_extensions();
    let r = is_listed(&list, l.as_str());
    proof {
        if r {
            let i = choose|i: int| 0 <= i < list@.len() && list@[i]@ == l@;
            assert(valid_extension_list()[i] == lower_of(extension(path@)));
        } else {
            assert forall|i: int| 0 <= i < valid_extension_list().len() implies valid_extension_list()[i]
                != lower_of(extension(path@)) by {
                assert(list@[i]@ == valid_extension_list()[i]);
            }
        }
    }
    r
}

pub fn is_invalid_file(path: &str) -> (r: bool)
    ensures
        r == !is_valid_path_name(path@),
{
    !is_valid_file(path)
}

/// Whether the last name of `path` starts with a dot.
pub fn is_dir_hidden(path: &str) -> (r: bool)
    ensures
        r == (file_name_or_empty(path@).len() > 0 && file_name_or_empty(path@)[0] == '.'),
{
    let v = chars_of(path);
    match file_name_chars(&v) {
        Some(n) => n.len() > 0 && n[0] == '.',
        None => false,
    }
}

/// Whether pixels decoded from `path` are already upright: the transform
/// coded format stores them so.
pub fn skips_orientation(path: &str) -> (r: bool)
    ensures
        r == (extension(path@) == JXL_EXTENSION@),
{
    let e = extension_string(path);
    str_eq(e.as_str(), JXL_EXTENSION)
}

} // verus!
