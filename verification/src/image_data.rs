//! What the viewer knows of a loaded image: its path, its size in pixels
//! and in bytes, and how these are shown.
use vstd::prelude::*;
use vstd::string::*;
use vstd::arithmetic::div_mod::lemma_div_denominator;
use crate::path::extension;
use crate::path::path_extension;
use crate::thumbnails::{display_name, display_name_of};

verus! {

/// The character of the decimal digit `d`.
pub open spec fn digit_char(d: nat) -> char {
    (48 + d) as char
}

/// The decimal numeral of `n`, without leading zeros.
pub open spec fn decimal(n: nat) -> Seq<char>
    decreases n,
{
    if n < 10 {
        seq![digit_char(n)]
    } else {
        decimal(n / 10).push(digit_char(n % 10))
    }
}

/// The numeral of the decimal digit `d`.
fn digit_text(d: u64) -> (r: String)
    requires
        d < 10,
    ensures
        r@ == seq![digit_char(d as nat)],
{
    let t: &str = if d == 0 {
        "0"
    } else if d == 1 {
        "1"
    } else if d == 2 {
        "2"
    } else if d == 3 {
        "3"
    } else if d == 4 {
        "4"
    } else if d == 5 {
        "5"
    } else if d == 6 {
        "6"
    } else if d == 7 {
        "7"
    } else if d == 8 {
        "8"
    } else {
        "9"
    };
    proof {
        reveal_strlit("0");
        reveal_strlit("1");
        reveal_strlit("2");
        reveal_strlit("3");
        reveal_strlit("4");
        reveal_strlit("5");
        reveal_strlit("6");
        reveal_strlit("7");
        reveal_strlit("8");
        reveal_strlit("9");
    }
    let r = String::from_str(t);
    assert(r@ =~= seq![digit_char(d as nat)]);
    r
}

/// The decimal numeral of `n`, with no sign and no leading zeros.
fn decimal_text(n: u64) -> (r: String)
    ensures
        r@ == decimal(n as nat),
    decreases n,
{
    if n < 10 {
        digit_text(n)
    } else {
        let mut s = decimal_text(n / 10);
        let d = digit_text(n % 10);
        s.append(d.as_str());
        assert(s@ =~= decimal((n / 10) as nat).push(digit_char((n % 10) as nat)));
        s
    }
}

/// `n / d` rounded to the nearest whole number, halves to the even one.
pub open spec fn round_half_even(n: nat, d: nat) -> nat
    recommends
        d > 0,
{
    let q = n / d;
    let r = n % d;
    if 2 * r > d || (2 * r == d && q % 2 == 1) {
        q + 1
    } else {
        q
    }
}

/// The largest power of two below which every whole number is a double.
pub open spec fn exact_double_limit() -> nat {
    9007199254740992
}

/// The spacing of doubles around `b`: 1 below 2^53, doubling with each
/// further binary digit of `b`.
pub open spec fn ulp_of(b: nat) -> nat
    decreases b,
{
    if b < exact_double_limit() {
        1
    } else {
        2 * ulp_of(b / 2)
    }
}

/// The double nearest to `b` (ties to even), which is what `b as f64` gives
/// for a `u64`.
pub open spec fn as_double(b: nat) -> nat {
    round_half_even(b, ulp_of(b)) * ulp_of(b)
}

/// The text that shows a file size of `b` bytes: kibibytes with one decimal
/// while under 1024 of them, mebibytes with one decimal otherwise, the
/// decimal rounded half to even as `{:.1}` rounds the exact value of a double.
pub open spec fn size_text(b: nat) -> Seq<char> {
    let d = as_double(b);
    if d < 1048576 {
        let t = round_half_even(10 * d, 1024);
        decimal(t / 10) + "."@ + decimal(t % 10) + " KB"@
    } else {
        let t = round_half_even(10 * d, 1048576);
        decimal(t / 10) + "."@ + decimal(t % 10) + " MB"@
    }
}

fn round_half_even_div(n: u128, d: u128) -> (r: u128)
    requires
        d > 0,
        n < u128::MAX,
    ensures
        r == round_half_even(n as nat, d as nat),
{
    let q = n / d;
    let rem = n % d;
    if (rem > d - rem) || (rem == d - rem && q % 2 == 1) {
        q + 1
    } else {
        q
    }
}

/// `b` as the nearest double, exactly.
fn nearest_double(b: u64) -> (d: u128)
    ensures
        d == as_double(b as nat),
        d <= 36893488147419103232,
{
    let mut x: u64 = b;
    let mut u: u64 = 1;
    assert(b / 1 == b);
    while x >= 9007199254740992
        invariant
            u >= 1,
            u <= 4096,
            x == (b as int) / (u as int),
            ulp_of(b as nat) == u * ulp_of(x as nat),
        decreases x,
    {
        proof {
            lemma_div_denominator(b as int, u as int, 2);
            assert(ulp_of(x as nat) == 2 * ulp_of((x / 2) as nat));
            assert(u * (2 * ulp_of((x / 2) as nat)) == (u * 2) * ulp_of((x / 2) as nat))
                by (nonlinear_arith);
            assert(u * 2 <= 4096) by (nonlinear_arith)
                requires
                    (b as int) / (u as int) >= 9007199254740992,
                    b < 18446744073709551616,
                    u >= 1,
            {
                assert(b >= u * ((b as int) / (u as int))) by (nonlinear_arith)
                    requires u >= 1, b >= 0;
            }
        }
        x = x / 2;
        u = u * 2;
    }
    assert(ulp_of(x as nat) == 1);
    assert(u * ulp_of(x as nat) == u) by (nonlinear_arith)
        requires
            ulp_of(x as nat) == 1,
    ;
    assert(ulp_of(b as nat) == u);
    let q = b / u;
    let rem = b % u;
    assert(q < 9007199254740992);
    let rounded: u64 = if (rem > u - rem) || (rem == u - rem && q % 2 == 1) {
        q + 1
    } else {
        q
    };
    assert(rounded == round_half_even(b as nat, u as nat));
    assert(rounded as u128 * u as u128 <= 36893488147419103232) by (nonlinear_arith)
        requires
            rounded <= 9007199254740992,
            u <= 4096,
    ;
    (rounded as u128) * (u as u128)
}

/// Which decoder an image's bytes go to, as its file extension chooses.
#[derive(Debug, Clone, Copy, PartialEq, Eq, Structural)]
pub enum ImageKind {
    Png,
    Jpeg,
    Gif,
    WebP,
    Tiff,
    Bmp,
}

/// The decoder that `image::ImageFormat::from_extension` picks for an
/// extension, among the formats this build decodes; the match ignores
/// ASCII case.
pub open spec fn kind_for_extension(ext: Seq<char>) -> Option<ImageKind> {
    let e = ext.map_values(|c: char| if 'A' <= c && c <= 'Z' {
        ((c as u32) + 32) as char
    } else {
        c
    });
    if e == seq!['j', 'p', 'g'] || e == seq!['j', 'p', 'e', 'g'] || e == seq!['j', 'f', 'i', 'f'] {
        Some(ImageKind::Jpeg)
    } else if e == seq!['p', 'n', 'g'] || e == seq!['a', 'p', 'n', 'g'] {
        Some(ImageKind::Png)
    } else if e == seq!['g', 'i', 'f'] {
        Some(ImageKind::Gif)
    } else if e == seq!['w', 'e', 'b', 'p'] {
        Some(ImageKind::WebP)
    } else if e == seq!['t', 'i', 'f'] || e == seq!['t', 'i', 'f', 'f'] {
        Some(ImageKind::Tiff)
    } else if e == seq!['b', 'm', 'p'] {
        Some(ImageKind::Bmp)
    } else {
        None
    }
}

/// The width and height that the `image` crate decodes from `bytes` as an
/// image of kind `kind`, or `None` when it fails to.
pub uninterp spec fn decoded_size(kind: ImageKind, bytes: Seq<u8>) -> Option<(u32, u32)>;

/// The error of the `image` crate.
#[verifier::external_type_specification]
#[verifier::external_body]
pub struct ExImageError(image::ImageError);

/// `image::ImageFormat::from_extension`, narrowed to the formats this build
/// can decode. The contract claims the crate's extension table for them
/// (`jpg`, `jpeg`, `jfif`, `png`, `apng`, `gif`, `webp`, `tif`, `tiff`,
/// `bmp`, compared after ASCII lowercasing); every other extension,
/// including those of formats whose decoders are not built, gives `None`.
#[verifier::external_body]
fn image_kind_for(ext: &str) -> (r: Option<ImageKind>)
    ensures
        r == kind_for_extension(ext@),
{
    match image::ImageFormat::from_extension(ext) {
        Some(image::ImageFormat::Png) => Some(ImageKind::Png),
        Some(image::ImageFormat::Jpeg) => Some(ImageKind::Jpeg),
        Some(image::ImageFormat::Gif) => Some(ImageKind::Gif),
        Some(image::ImageFormat::WebP) => Some(ImageKind::WebP),
        Some(image::ImageFormat::Tiff) => Some(ImageKind::Tiff),
        Some(image::ImageFormat::Bmp) => Some(ImageKind::Bmp),
        _ => None,
    }
}

/// `image::load_from_memory_with_format`, keeping the decoded image's width
/// and height. The contract claims that the result is `decoded_size` of the
/// arguments: it depends on the bytes and the chosen decoder alone. The
/// error, when there is one, is the crate's and is not described.
#[verifier::external_body]
fn decode_dimensions(bytes: &[u8], kind: ImageKind) -> (r: Result<(u32, u32), image::ImageError>)
    ensures
        r is Ok <==> decoded_size(kind, bytes@) is Some,
        r matches Ok(d) ==> decoded_size(kind, bytes@) == Some(d),
{
    let format = match kind {
        ImageKind::Png => image::ImageFormat::Png,
        ImageKind::Jpeg => image::ImageFormat::Jpeg,
        ImageKind::Gif => image::ImageFormat::Gif,
        ImageKind::WebP => image::ImageFormat::WebP,
        ImageKind::Tiff => image::ImageFormat::Tiff,
        ImageKind::Bmp => image::ImageFormat::Bmp,
    };
    image::load_from_memory_with_format(bytes, format).map(|img| (img.width(), img.height()))
}

/// Why an image could not be loaded.
#[derive(Debug)]
pub enum LoadError {
    /// The path has no extension, or one that names no image format this
    /// build decodes; the extension is kept when there is one.
    UnsupportedFormat(Option<String>),
    /// The decoder rejected the bytes.
    Decode(image::ImageError),
}

/// A loaded image.
#[derive(Clone, Debug)]
pub struct ImageData {
    pub path: String,
    pub width: u32,
    pub height: u32,
    pub file_size: u64,
}

/// The decoder chosen for a path, by its extension.
pub open spec fn kind_for_path(p: Seq<char>) -> Option<ImageKind> {
    match path_extension(p) {
        Some(ext) => kind_for_extension(ext),
        None => None,
    }
}

impl ImageData {
    /// `ext` is the extension of the path `p`, or `None` when it has none.
    pub open spec fn names_extension(ext: Option<String>, p: Seq<char>) -> bool {
        match ext {
            Some(e) => path_extension(p) == Some(e@),
            None => path_extension(p) is None,
        }
    }

    /// Builds the data of the image at `path`, `file_size` bytes long, from
    /// what its decoder gave: `None` when no decoder was chosen for the path,
    /// else the decoder's result.
    pub fn from_decoded(
        path: &str,
        decoded: Option<Result<(u32, u32), image::ImageError>>,
        file_size: u64,
    ) -> (r: Result<ImageData, LoadError>)
        ensures
            decoded is None ==> (r matches Err(LoadError::UnsupportedFormat(ext))
                && Self::names_extension(ext, path@)),
            decoded matches Some(Err(e)) ==> r matches Err(LoadError::Decode(d)) && d == e,
            decoded matches Some(Ok(d)) ==> r matches Ok(img) && img.path@ == path@ && img.width
                == d.0 && img.height == d.1 && img.file_size == file_size,
    {
        match decoded {
            None => Err(LoadError::UnsupportedFormat(extension(path))),
            Some(Err(e)) => Err(LoadError::Decode(e)),
            Some(Ok((width, height))) => Ok(
                ImageData { path: String::from_str(path), width, height, file_size },
            ),
        }
    }

    /// Decodes the bytes of the image file at `path` with the decoder its
    /// extension chooses, as `image::open` does for a file.
    pub fn decode(path: &str, bytes: &[u8], file_size: u64) -> (r: Result<ImageData, LoadError>)
        ensures
            kind_for_path(path@) is None ==> (r matches Err(LoadError::UnsupportedFormat(ext))
                && Self::names_extension(ext, path@)),
            kind_for_path(path@) matches Some(k) ==> match decoded_size(k, bytes@) {
                Some(d) => r matches Ok(img) && img.path@ == path@ && img.width == d.0
                    && img.height == d.1 && img.file_size == file_size,
                None => r matches Err(LoadError::Decode(_)),
            },
    {
        let kind = match extension(path) {
            Some(ext) => image_kind_for(ext.as_str()),
            None => None,
        };
        let decoded = match kind {
            Some(k) => Some(decode_dimensions(bytes, k)),
            None => None,
        };
        ImageData::from_decoded(path, decoded, file_size)
    }

    /// The file name of the image, or `Unknown` when its path has none.
    pub fn file_name(&self) -> (r: String)
        ensures
            r@ == display_name(self.path@),
    {
        display_name_of(self.path.as_str())
    }

    /// The file size in kibibytes or mebibytes with one decimal, as in
    /// `1.5 KB` or `2.5 MB`.
    pub fn file_size_string(&self) -> (r: String)
        ensures
            r@ == size_text(self.file_size as nat),
    {
        let d = nearest_double(self.file_size);
        if d < 1048576 {
            let t = round_half_even_div(10 * d, 1024);
            assert(t <= 10240);
            let mut s = decimal_text((t / 10) as u64);
            s.append(".");
            let digit = decimal_text((t % 10) as u64);
            s.append(digit.as_str());
            s.append(" KB");
            s
        } else {
            let t = round_half_even_div(10 * d, 1048576);
            assert(t <= 351843720888321) by (nonlinear_arith)
                requires
                    t == round_half_even((10 * d) as nat, 1048576),
                    d <= 36893488147419103232,
            ;
            let mut s = decimal_text((t / 10) as u64);
            s.append(".");
            let digit = decimal_text((t % 10) as u64);
            s.append(digit.as_str());
            s.append(" MB");
            s
        }
    }
}

} // verus!
