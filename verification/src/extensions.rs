//! File extensions that mark a path as an image, matched without regard to
//! ASCII case.
//!
//! The names matched here are lowercase ASCII and hold no `k`, so comparing
//! a lowercased extension with one of them, as `str::to_lowercase` would
//! have it, is the same as comparing without regard to ASCII case: no other
//! character lowercases to a single ASCII letter other than `k`.
use vstd::prelude::*;
use vstd::string::*;
use crate::path::{extension, path_extension};

verus! {

/// `c` is `lower`, or is the ASCII uppercase letter of the lowercase `lower`.
pub open spec fn char_matches_ignore_case(c: char, lower: char) -> bool {
    c == lower || ('A' <= c && c <= 'Z' && (c as u32) + 32 == (lower as u32))
}

/// `s` spells `lower` without regard to ASCII case.
pub open spec fn eq_ignore_case(s: Seq<char>, lower: Seq<char>) -> bool {
    &&& s.len() == lower.len()
    &&& forall|i: int| 0 <= i < s.len() ==> char_matches_ignore_case(#[trigger] s[i], lower[i])
}

/// `s` ends with `lower` without regard to ASCII case.
pub open spec fn ends_with_ignore_case(s: Seq<char>, lower: Seq<char>) -> bool {
    s.len() >= lower.len() && eq_ignore_case(s.subrange(s.len() - lower.len(), s.len() as int), lower)
}

/// The extensions of the image formats that the viewer browses.
pub open spec fn viewer_extensions() -> Seq<Seq<char>> {
    seq![
        seq!['j', 'p', 'g'],
        seq!['j', 'p', 'e', 'g'],
        seq!['p', 'n', 'g'],
        seq!['g', 'i', 'f'],
        seq!['b', 'm', 'p'],
        seq!['w', 'e', 'b', 'p'],
        seq!['t', 'i', 'f', 'f'],
        seq!['t', 'i', 'f'],
    ]
}

/// `ext` is one of `names`, without regard to ASCII case.
pub open spec fn is_one_of(ext: Seq<char>, names: Seq<Seq<char>>) -> bool {
    exists|i: int| 0 <= i < names.len() && eq_ignore_case(ext, #[trigger] names[i])
}

/// The path's extension is one of the viewer's image extensions.
pub open spec fn is_supported_path(p: Seq<char>) -> bool {
    match path_extension(p) {
        Some(ext) => is_one_of(ext, viewer_extensions()),
        None => false,
    }
}

/// The viewer browses a file exactly when its extension, in any ASCII case,
/// is `jpg`, `jpeg`, `png`, `gif`, `bmp`, `webp`, `tiff` or `tif`; a path
/// without an extension is never browsed.
pub proof fn law_supported_formats(p: Seq<char>)
    ensures
        is_supported_path(p) <==> (path_extension(p) matches Some(e) && (eq_ignore_case(
            e,
            "jpg"@,
        ) || eq_ignore_case(e, "jpeg"@) || eq_ignore_case(e, "png"@) || eq_ignore_case(e, "gif"@)
            || eq_ignore_case(e, "bmp"@) || eq_ignore_case(e, "webp"@) || eq_ignore_case(
            e,
            "tiff"@,
        ) || eq_ignore_case(e, "tif"@))),
{
    reveal_strlit("jpg");
    reveal_strlit("jpeg");
    reveal_strlit("png");
    reveal_strlit("gif");
    reveal_strlit("bmp");
    reveal_strlit("webp");
    reveal_strlit("tiff");
    reveal_strlit("tif");
    let t = viewer_extensions();
    assert(t.len() == 8);
    assert(t[0] =~= "jpg"@);
    assert(t[1] =~= "jpeg"@);
    assert(t[2] =~= "png"@);
    assert(t[3] =~= "gif"@);
    assert(t[4] =~= "bmp"@);
    assert(t[5] =~= "webp"@);
    assert(t[6] =~= "tiff"@);
    assert(t[7] =~= "tif"@);
    if let Some(e) = path_extension(p) {
        if is_one_of(e, t) {
            let i = choose|i: int| 0 <= i < t.len() && eq_ignore_case(e, #[trigger] t[i]);
            assert(0 <= i < 8);
        }
    }
}

/// Whether `s` spells `lower` without regard to ASCII case.
pub fn matches_ignore_case(s: &[char], lower: &[char]) -> (r: bool)
    ensures
        r == eq_ignore_case(s@, lower@),
{
    if s.len() != lower.len() {
        return false;
    }
    let mut i: usize = 0;
    while i < s.len()
        invariant
            i <= s.len(),
            s.len() == lower.len(),
            forall|j: int| 0 <= j < i ==> char_matches_ignore_case(#[trigger] s@[j], lower@[j]),
        decreases s.len() - i,
    {
        let c = s[i];
        let t = lower[i];
        if !(c == t || ('A' <= c && c <= 'Z' && (c as u32) + 32 == (t as u32))) {
            return false;
        }
        i = i + 1;
    }
    true
}

/// Whether `s` ends with `lower` without regard to ASCII case.
pub fn ends_with_ignoring_case(s: &[char], lower: &[char]) -> (r: bool)
    ensures
        r == ends_with_ignore_case(s@, lower@),
{
    if s.len() < lower.len() {
        return false;
    }
    let off = s.len() - lower.len();
    let ghost tail = s@.subrange(off as int, s@.len() as int);
    let mut j: usize = 0;
    while j < lower.len()
        invariant
            off + lower.len() == s.len(),
            tail == s@.subrange(off as int, s@.len() as int),
            j <= lower.len(),
            forall|k: int| 0 <= k < j ==> char_matches_ignore_case(#[trigger] tail[k], lower@[k]),
        decreases lower.len() - j,
    {
        let c = s[off + j];
        let t = lower[j];
        assert(tail[j as int] == c);
        if !(c == t || ('A' <= c && c <= 'Z' && (c as u32) + 32 == (t as u32))) {
            assert(!char_matches_ignore_case(tail[j as int], lower@[j as int]));
            return false;
        }
        j = j + 1;
    }
    true
}

/// Whether `ext` is one of `names`, without regard to ASCII case.
pub fn matches_one_of(ext: &[char], names: &[&[char]]) -> (r: bool)
    ensures
        r == is_one_of(ext@, names@.map_values(|n: &[char]| n@)),
{
    let ghost views = names@.map_values(|n: &[char]| n@);
    let mut i: usize = 0;
    while i < names.len()
        invariant
            i <= names.len(),
            views == names@.map_values(|n: &[char]| n@),
            forall|j: int| 0 <= j < i ==> !eq_ignore_case(ext@, #[trigger] views[j]),
        decreases names.len() - i,
    {
        if matches_ignore_case(ext, names[i]) {
            assert(eq_ignore_case(ext@, views[i as int]));
            return true;
        }
        i = i + 1;
    }
    false
}

/// Whether `ext` is the extension of an image format the viewer browses.
pub fn is_viewer_extension(ext: &[char]) -> (r: bool)
    ensures
        r == is_one_of(ext@, viewer_extensions()),
{
    let jpg = ['j', 'p', 'g'];
    let jpeg = ['j', 'p', 'e', 'g'];
    let png = ['p', 'n', 'g'];
    let gif = ['g', 'i', 'f'];
    let bmp = ['b', 'm', 'p'];
    let webp = ['w', 'e', 'b', 'p'];
    let tiff = ['t', 'i', 'f', 'f'];
    let tif = ['t', 'i', 'f'];
    let names: [&[char]; 8] = [&jpg, &jpeg, &png, &gif, &bmp, &webp, &tiff, &tif];
    assert(names@.map_values(|n: &[char]| n@) =~= viewer_extensions());
    matches_one_of(ext, &names)
}

/// Whether the path's extension marks a file the viewer browses.
pub fn is_supported_path_text(path: &str) -> (r: bool)
    ensures
        r == is_supported_path(path@),
{
    match extension(path) {
        Some(ext) => {
            let chars = crate::path::chars_of(ext.as_str());
            is_viewer_extension(chars.as_slice())
        },
        None => false,
    }
}

} // verus!
