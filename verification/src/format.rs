//! Image container formats, recognized by the file path's extension.

use vstd::prelude::*;
use crate::errors::CropError;

verus! {

/// The image container formats the engine accepts.
#[derive(Clone, Copy, Debug, PartialEq, Eq, Structural)]
pub enum ImageFormat {
    Jpeg,
    Png,
    Gif,
    WebP,
    Tiff,
    Tga,
    Bmp,
    Ico,
    Hdr,
    Pnm,
}

/// ASCII lowercasing of one byte.
pub open spec fn lower_byte(b: u8) -> u8 {
    if 65 <= b <= 90 {
        (b + 32) as u8
    } else {
        b
    }
}

/// ASCII lowercasing of a byte string.
pub open spec fn lower_bytes(s: Seq<u8>) -> Seq<u8> {
    s.map_values(|b: u8| lower_byte(b))
}

/// The suffix of `s` after the last occurrence of `b`, or `None` when
/// `b` does not occur in `s`.
pub open spec fn suffix_after_last(s: Seq<u8>, b: u8) -> Option<Seq<u8>>
    decreases s.len(),
{
    if s.len() == 0 {
        None
    } else if s.last() == b {
        Some(Seq::empty())
    } else {
        match suffix_after_last(s.drop_last(), b) {
            Some(t) => Some(t.push(s.last())),
            None => None,
        }
    }
}

/// The file-name part of a path: the suffix after the last `/`.
pub open spec fn spec_file_name(path: Seq<u8>) -> Seq<u8> {
    match suffix_after_last(path, 47) {
        Some(t) => t,
        None => path,
    }
}

/// The extension of a file name: what follows the last dot, provided
/// that dot is neither missing nor leading.
pub open spec fn spec_extension(name: Seq<u8>) -> Option<Seq<u8>> {
    match suffix_after_last(name, 46) {
        Some(ext) => if ext.len() + 1 < name.len() {
            Some(ext)
        } else {
            None
        },
        None => None,
    }
}

/// The format a lowercased extension names, if any.
pub open spec fn spec_format_of_ext(e: Seq<u8>) -> Option<ImageFormat> {
    if e == seq![106u8, 112, 103] || e == seq![106u8, 112, 101, 103] {
        Some(ImageFormat::Jpeg)
    } else if e == seq![112u8, 110, 103] {
        Some(ImageFormat::Png)
    } else if e == seq![103u8, 105, 102] {
        Some(ImageFormat::Gif)
    } else if e == seq![119u8, 101, 98, 112] {
        Some(ImageFormat::WebP)
    } else if e == seq![116u8, 105, 102] || e == seq![116u8, 105, 102, 102] {
        Some(ImageFormat::Tiff)
    } else if e == seq![116u8, 103, 97] {
        Some(ImageFormat::Tga)
    } else if e == seq![98u8, 109, 112] {
        Some(ImageFormat::Bmp)
    } else if e == seq![105u8, 99, 111] {
        Some(ImageFormat::Ico)
    } else if e == seq![104u8, 100, 114] {
        Some(ImageFormat::Hdr)
    } else if e == seq![112u8, 98, 109] || e == seq![112u8, 97, 109]
        || e == seq![112u8, 112, 109] || e == seq![112u8, 103, 109] {
        Some(ImageFormat::Pnm)
    } else {
        None
    }
}

/// The format a path names: the lowercased extension of its file name,
/// looked up in the accepted set. Paths without a usable extension or
/// with an unrecognized one are rejected.
pub open spec fn spec_get_image_format(path: Seq<u8>) -> Result<ImageFormat, CropError> {
    match spec_extension(spec_file_name(path)) {
        None => Err(CropError::DecodeFailure),
        Some(ext) => match spec_format_of_ext(lower_bytes(ext)) {
            Some(f) => Ok(f),
            None => Err(CropError::DecodeFailure),
        },
    }
}

/// When `b` occurs at `k` and nowhere later, the suffix after the last
/// occurrence is everything past `k`.
proof fn lemma_suffix_after_last_found(s: Seq<u8>, b: u8, k: int)
    requires
        0 <= k < s.len(),
        s[k] == b,
        forall|j: int| k < j < s.len() ==> s[j] != b,
    ensures
        suffix_after_last(s, b) == Some(s.subrange(k + 1, s.len() as int)),
    decreases s.len(),
{
    if k == s.len() - 1 {
        assert(s.last() == b);
        assert(s.subrange(k + 1, s.len() as int) =~= Seq::<u8>::empty());
    } else {
        assert(s.last() != b);
        lemma_suffix_after_last_found(s.drop_last(), b, k);
        assert(s.drop_last().subrange(k + 1, s.len() - 1).push(s.last()) =~= s.subrange(
            k + 1,
            s.len() as int,
        ));
    }
}

/// When `b` does not occur in `s`, there is no suffix after it.
proof fn lemma_suffix_after_last_none(s: Seq<u8>, b: u8)
    requires
        forall|j: int| 0 <= j < s.len() ==> s[j] != b,
    ensures
        suffix_after_last(s, b) is None,
    decreases s.len(),
{
    if s.len() > 0 {
        lemma_suffix_after_last_none(s.drop_last(), b);
    }
}

/// Recognize a path's image format from its extension, as
/// `spec_get_image_format` describes.
pub fn get_image_format(path: &[u8]) -> (r: Result<ImageFormat, CropError>)
    ensures
        r == spec_get_image_format(path@),
{
    let n = path.len();
    // Start of the file name: one past the last `/`, or 0 if none.
    let mut name_lo: usize = 0;
    let mut idx: usize = 0;
    while idx < n
        invariant
            n == path@.len(),
            name_lo <= idx <= n,
            name_lo >= 1 ==> path@[name_lo - 1] == 47,
            forall|m: int| name_lo <= m < idx ==> path@[m] != 47,
        decreases n - idx,
    {
        if path[idx] == 47 {
            name_lo = idx + 1;
        }
        idx += 1;
    }
    proof {
        if name_lo >= 1 {
            lemma_suffix_after_last_found(path@, 47, name_lo - 1);
            assert(spec_file_name(path@) == path@.subrange(name_lo as int, n as int));
        } else {
            lemma_suffix_after_last_none(path@, 47);
            assert(spec_file_name(path@) =~= path@.subrange(name_lo as int, n as int));
        }
    }
    let ghost name = path@.subrange(name_lo as int, n as int);
    // Last `.` in the file name, if any.
    let mut dot: usize = 0;
    let mut has_dot = false;
    let mut j: usize = name_lo;
    while j < n
        invariant
            n == path@.len(),
            name_lo <= j <= n,
            has_dot ==> name_lo <= dot < j && path@[dot as int] == 46,
            forall|m: int| (if has_dot { dot < m } else { name_lo <= m }) && m < j ==> path@[m]
                != 46,
        decreases n - j,
    {
        if path[j] == 46 {
            dot = j;
            has_dot = true;
        }
        j += 1;
    }
    proof {
        if has_dot {
            assert forall|m: int| (dot - name_lo) < m < name.len() implies name[m] != 46 by {
                assert(name[m] == path@[name_lo + m]);
            }
            lemma_suffix_after_last_found(name, 46, dot - name_lo as int);
            assert(name.subrange(dot - name_lo + 1, name.len() as int) =~= path@.subrange(
                dot + 1,
                n as int,
            ));
        } else {
            assert forall|m: int| 0 <= m < name.len() implies name[m] != 46 by {
                assert(name[m] == path@[name_lo + m]);
            }
            lemma_suffix_after_last_none(name, 46);
        }
    }
    if !has_dot || dot == name_lo {
        return Err(CropError::DecodeFailure);
    }
    // The extension, lowercased.
    let mut ext: Vec<u8> = Vec::new();
    let mut p: usize = dot + 1;
    while p < n
        invariant
            n == path@.len(),
            dot + 1 <= p <= n,
            ext@.len() == p - dot - 1,
            forall|m: int| 0 <= m < ext@.len() ==> ext@[m] == lower_byte(path@[dot + 1 + m]),
        decreases n - p,
    {
        let b = path[p];
        if b >= 65 && b <= 90 {
            ext.push(b + 32);
        } else {
            ext.push(b);
        }
        p += 1;
    }
    proof {
        assert(ext@ =~= lower_bytes(path@.subrange(dot + 1, n as int)));
    }
    match format_of_ext(&ext) {
        Some(f) => Ok(f),
        None => Err(CropError::DecodeFailure),
    }
}

/// Match a lowercased extension against the accepted set.
fn format_of_ext(e: &Vec<u8>) -> (r: Option<ImageFormat>)
    ensures
        r == spec_format_of_ext(e@),
{
    let r = if is3(e, 106, 112, 103) || is4(e, 106, 112, 101, 103) {
        Some(ImageFormat::Jpeg)
    } else if is3(e, 112, 110, 103) {
        Some(ImageFormat::Png)
    } else if is3(e, 103, 105, 102) {
        Some(ImageFormat::Gif)
    } else if is4(e, 119, 101, 98, 112) {
        Some(ImageFormat::WebP)
    } else if is3(e, 116, 105, 102) || is4(e, 116, 105, 102, 102) {
        Some(ImageFormat::Tiff)
    } else if is3(e, 116, 103, 97) {
        Some(ImageFormat::Tga)
    } else if is3(e, 98, 109, 112) {
        Some(ImageFormat::Bmp)
    } else if is3(e, 105, 99, 111) {
        Some(ImageFormat::Ico)
    } else if is3(e, 104, 100, 114) {
        Some(ImageFormat::Hdr)
    } else if is3(e, 112, 98, 109) || is3(e, 112, 97, 109) || is3(e, 112, 112, 109)
        || is3(e, 112, 103, 109) {
        Some(ImageFormat::Pnm)
    } else {
        None
    };
    r
}

/// Equality of a byte vector with a three-byte string.
fn is3(e: &Vec<u8>, a: u8, b: u8, c: u8) -> (r: bool)
    ensures
        r == (e@ == seq![a, b, c]),
{
    let r = e.len() == 3 && e[0] == a && e[1] == b && e[2] == c;
    proof {
        if r {
            assert(e@ =~= seq![a, b, c]);
        } else {
            assert(e@ != seq![a, b, c]);
        }
    }
    r
}

/// Equality of a byte vector with a four-byte string.
fn is4(e: &Vec<u8>, a: u8, b: u8, c: u8, d: u8) -> (r: bool)
    ensures
        r == (e@ == seq![a, b, c, d]),
{
    let r = e.len() == 4 && e[0] == a && e[1] == b && e[2] == c && e[3] == d;
    proof {
        if r {
            assert(e@ =~= seq![a, b, c, d]);
        } else {
            assert(e@ != seq![a, b, c, d]);
        }
    }
    r
}

} // verus!
