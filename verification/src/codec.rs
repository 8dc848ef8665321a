//! Re-encoding of the image payloads found inside an EPUB.
//!
//! Everything here is fallible by design: any image that cannot be decoded,
//! quantized, or re-encoded is simply kept as-is by the caller. A broken
//! image must never abort the shrink of a whole book.

use std::io::Cursor;

use image::codecs::jpeg::JpegEncoder;
use image::imageops::FilterType;
use image::{DynamicImage, ImageFormat, ImageReader, Limits, RgbImage};
use vstd::prelude::*;
use vstd::string::StringSliceAdditionalSpecFns;

use crate::quality::Quality;
use crate::text::{
    ascii_lower, ascii_lower_seq, eq_ignore_ascii_case, find_last, last_index_of,
    lemma_last_index_of_absent, lemma_last_index_of_append, lemma_last_index_of_bounds,
};

verus! {

/// Image payloads the engine knows how to recompress, detected from the
/// entry name.
#[derive(Clone, Copy, Debug, PartialEq, Eq, Structural)]
pub enum ImageKind {
    Jpeg,
    Png,
}

/// What follows the last `.` of a name (the whole name when it has none).
pub open spec fn last_dot_segment(b: Seq<u8>) -> Seq<u8> {
    b.subrange(last_index_of(b, 46) + 1, b.len() as int)
}

pub open spec fn jpg_bytes() -> Seq<u8> {
    seq![106u8, 112u8, 103u8]
}

pub open spec fn jpeg_bytes() -> Seq<u8> {
    seq![106u8, 112u8, 101u8, 103u8]
}

pub open spec fn png_bytes() -> Seq<u8> {
    seq![112u8, 110u8, 103u8]
}

/// The kind of image an entry name announces: `jpg`/`jpeg` or `png` after
/// its last `.`, in any ASCII case.
pub open spec fn spec_image_kind(b: Seq<u8>) -> Option<ImageKind> {
    let ext = ascii_lower_seq(last_dot_segment(b));
    if ext == jpg_bytes() || ext == jpeg_bytes() {
        Some(ImageKind::Jpeg)
    } else if ext == png_bytes() {
        Some(ImageKind::Png)
    } else {
        None
    }
}

/// The kind of image an entry name announces, if any.
pub fn image_kind(entry_name: &str) -> (r: Option<ImageKind>)
    ensures
        r == spec_image_kind(entry_name.spec_bytes()),
{
    let b = entry_name.as_bytes();
    let d = find_last(b, b.len(), 46);
    assert(b@.subrange(0, b@.len() as int) =~= b@);
    proof {
        lemma_last_index_of_bounds(b@, 46);
    }
    let start: usize = match d {
        Some(i) => i + 1,
        None => 0,
    };
    let jpg: [u8; 3] = [106, 112, 103];
    let jpeg: [u8; 4] = [106, 112, 101, 103];
    let png: [u8; 3] = [112, 110, 103];
    assert(ascii_lower_seq(jpg@) =~= jpg_bytes());
    assert(ascii_lower_seq(jpeg@) =~= jpeg_bytes());
    assert(ascii_lower_seq(png@) =~= png_bytes());
    if eq_ignore_ascii_case(b, start, b.len(), &jpg) || eq_ignore_ascii_case(b, start, b.len(), &jpeg) {
        Some(ImageKind::Jpeg)
    } else if eq_ignore_ascii_case(b, start, b.len(), &png) {
        Some(ImageKind::Png)
    } else {
        None
    }
}

/// What follows the last `.` of `name.ext`, when `ext` holds no `.`, is
/// `ext`.
proof fn lemma_last_dot_segment_of(name: Seq<u8>, ext: Seq<u8>)
    requires
        forall|j: int| 0 <= j < ext.len() ==> ext[j] != 46,
    ensures
        last_dot_segment(name + seq![46u8] + ext) == ext,
{
    let head = name + seq![46u8];
    let b = head + ext;
    assert(name + seq![46u8] + ext =~= b);
    lemma_last_index_of_absent(ext, 46);
    lemma_last_index_of_append(head, ext, 46);
    assert(head.last() == 46);
    assert(last_index_of(head, 46) == name.len());
    assert(b.subrange(name.len() + 1 as int, b.len() as int) =~= ext);
}

/// The kind of an image is read from its extension without regard to ASCII
/// case: two extensions that differ only in case give the same kind; every
/// case variant of `jpg` and `jpeg` is a JPEG, of `png` a PNG, and any other
/// extension is no image.
pub proof fn lemma_image_kind_ignores_case(name: Seq<u8>, ext: Seq<u8>, other: Seq<u8>)
    requires
        forall|j: int| 0 <= j < ext.len() ==> ext[j] != 46,
        ascii_lower_seq(ext) == ascii_lower_seq(other),
    ensures
        spec_image_kind(name + seq![46u8] + ext) == spec_image_kind(name + seq![46u8] + other),
        ascii_lower_seq(ext) == jpg_bytes() || ascii_lower_seq(ext) == jpeg_bytes()
            ==> spec_image_kind(name + seq![46u8] + ext) == Some(ImageKind::Jpeg),
        ascii_lower_seq(ext) == png_bytes() ==> spec_image_kind(name + seq![46u8] + ext) == Some(
            ImageKind::Png,
        ),
        ascii_lower_seq(ext) != jpg_bytes() && ascii_lower_seq(ext) != jpeg_bytes()
            && ascii_lower_seq(ext) != png_bytes() ==> spec_image_kind(name + seq![46u8] + ext)
            is None,
{
    assert(ascii_lower_seq(ext).len() == ext.len());
    assert(ascii_lower_seq(other).len() == other.len());
    assert forall|j: int| 0 <= j < other.len() implies other[j] != 46 by {
        assert(ascii_lower_seq(ext)[j] == ascii_lower(ext[j]));
        assert(ascii_lower_seq(other)[j] == ascii_lower(other[j]));
        assert(ascii_lower(ext[j]) != 46);
    }
    lemma_last_dot_segment_of(name, ext);
    lemma_last_dot_segment_of(name, other);
}

} // verus!

verus! {

#[verifier::external_type_specification]
#[verifier::external_body]
pub struct ExDynamicImage(DynamicImage);

/// The resampling filter of a resize.
#[derive(Clone, Copy, Debug, PartialEq, Eq, Structural)]
pub enum ResizeFilter {
    Nearest,
    Triangle,
    CatmullRom,
    Gaussian,
    Lanczos3,
}

/// Where a decoded picture comes from: the encoded bytes it was decoded
/// from, the width and height limits of that decode, and, if it was then
/// resized (aspect ratio kept), the bounds it was resized to fit and the
/// filter used.
pub type PictureModel = (Seq<u8>, u32, u32, Option<(u32, u32, ResizeFilter)>);

/// A decoded image, together with where it comes from.
pub struct Picture {
    image: DynamicImage,
    origin: Ghost<PictureModel>,
}

impl View for Picture {
    type V = PictureModel;

    closed spec fn view(&self) -> PictureModel {
        self.origin@
    }
}

/// The format that `image` guesses from the leading bytes of `data`, when it
/// is one the engine recompresses.
pub uninterp spec fn sniffed_kind(data: Seq<u8>) -> Option<ImageKind>;

/// Whether `image` decodes `data` within the given dimension limits.
pub uninterp spec fn decodes(data: Seq<u8>, max_width: u32, max_height: u32) -> bool;

/// The width of a picture.
pub uninterp spec fn picture_width(p: PictureModel) -> u32;

/// A picture as 8-bit RGB: width, height and row-major samples.
pub uninterp spec fn picture_rgb8(p: PictureModel) -> (u32, u32, Seq<u8>);

/// A picture as 8-bit RGBA: width, height and row-major samples.
pub uninterp spec fn picture_rgba8(p: PictureModel) -> (u32, u32, Seq<u8>);

/// The JPEG encoding of an RGB raster at a quality, if it succeeds.
pub uninterp spec fn jpeg_encoding(width: u32, height: u32, rgb: Seq<u8>, quality: u8) -> Option<Seq<u8>>;

/// The PNG encoding of a palette image, if it succeeds.
pub uninterp spec fn indexed_png_encoding(
    palette: Seq<(u8, u8, u8, u8)>,
    indexed: Seq<u8>,
    width: usize,
    height: usize,
) -> Option<Seq<u8>>;

pub open spec fn opt_view(r: Option<Vec<u8>>) -> Option<Seq<u8>> {
    match r {
        Some(v) => Some(v@),
        None => None,
    }
}

/// `ImageReader::with_guessed_format` on `data`, then the guessed format,
/// told apart into the two kinds the engine handles (any other guess, or a
/// failed guess, gives `None`). The guess looks only at `data` (the crate's
/// table of format signatures is never extended by this program).
#[verifier::external_body]
fn sniff_kind(data: &[u8]) -> (r: Option<ImageKind>)
    ensures
        r == sniffed_kind(data@),
{
    let reader = ImageReader::new(Cursor::new(data)).with_guessed_format().ok()?;
    match reader.format() {
        Some(ImageFormat::Jpeg) => Some(ImageKind::Jpeg),
        Some(ImageFormat::Png) => Some(ImageKind::Png),
        _ => None,
    }
}

/// `ImageReader::decode` of `data`, its format guessed, under `Limits` with
/// the given maximum width and height.
#[verifier::external_body]
fn decode_limited(data: &[u8], max_width: u32, max_height: u32) -> (r: Option<Picture>)
    ensures
        r is Some == decodes(data@, max_width, max_height),
        r matches Some(p) ==> p@ == (data@, max_width, max_height, None::<(u32, u32, ResizeFilter)>),
{
    let mut reader = ImageReader::new(Cursor::new(data)).with_guessed_format().ok()?;
    let mut limits = Limits::default();
    limits.max_image_width = Some(max_width);
    limits.max_image_height = Some(max_height);
    reader.limits(limits);
    let image = reader.decode().ok()?;
    Some(Picture { image, origin: Ghost((data@, max_width, max_height, None)) })
}

/// `DynamicImage::width`.
#[verifier::external_body]
fn width_of(p: &Picture) -> (r: u32)
    ensures
        r == picture_width(p@),
{
    p.image.width()
}

/// `DynamicImage::resize` with the given filter: the largest image with the
/// same aspect ratio that fits `width` × `height`.
#[verifier::external_body]
fn resize_to_fit(p: Picture, width: u32, height: u32, filter: ResizeFilter) -> (r: Picture)
    requires
        p@.3 is None,
    ensures
        r@ == (p@.0, p@.1, p@.2, Some((width, height, filter))),
{
    let filter_type = match filter {
        ResizeFilter::Nearest => FilterType::Nearest,
        ResizeFilter::Triangle => FilterType::Triangle,
        ResizeFilter::CatmullRom => FilterType::CatmullRom,
        ResizeFilter::Gaussian => FilterType::Gaussian,
        ResizeFilter::Lanczos3 => FilterType::Lanczos3,
    };
    let origin = Ghost((p.origin@.0, p.origin@.1, p.origin@.2, Some((width, height, filter))));
    Picture { image: p.image.resize(width, height, filter_type), origin }
}

/// `DynamicImage::to_rgb8`, taken apart into width, height and samples.
#[verifier::external_body]
fn rgb8_of(p: &Picture) -> (r: (u32, u32, Vec<u8>))
    ensures
        (r.0, r.1, r.2@) == picture_rgb8(p@),
{
    let rgb = p.image.to_rgb8();
    (rgb.width(), rgb.height(), rgb.into_raw())
}

/// `DynamicImage::to_rgba8`, taken apart into width, height and samples.
#[verifier::external_body]
fn rgba8_of(p: &Picture) -> (r: (u32, u32, Vec<u8>))
    ensures
        (r.0, r.1, r.2@) == picture_rgba8(p@),
{
    let rgba = p.image.to_rgba8();
    (rgba.width(), rgba.height(), rgba.into_raw())
}

/// `JpegEncoder::new_with_quality(..).encode_image` of the RGB raster made
/// from the samples (`RgbImage::from_raw`).
#[verifier::external_body]
fn encode_jpeg_raster(width: u32, height: u32, rgb: Vec<u8>, quality: u8) -> (r: Option<Vec<u8>>)
    ensures
        opt_view(r) == jpeg_encoding(width, height, rgb@, quality),
{
    let raster = RgbImage::from_raw(width, height, rgb)?;
    let mut out = Vec::new();
    JpegEncoder::new_with_quality(&mut out, quality).encode_image(&raster).ok()?;
    Some(out)
}

/// What quantizing the `width` × `height` pixels with `imagequant` at
/// quality `q_min..q_max` can give, over all runs: a palette with its index
/// list, or nothing (the quality floor was missed, or the quantizer refused
/// its arguments). The quantizer merges per-thread floating-point partial
/// results in the order the threads finish, so one run gives one member of
/// this set, not a fixed value.
pub uninterp spec fn quantizations(
    pixels: Seq<(u8, u8, u8, u8)>,
    width: usize,
    height: usize,
    q_min: u8,
    q_max: u8,
) -> Set<Option<(Seq<(u8, u8, u8, u8)>, Seq<u8>)>>;

/// Palette quantization with `imagequant`: `set_quality(q_min, q_max)`, an
/// image of the pixels (default gamma, i.e. sRGB), `quantize`, `remapped`.
/// Which member of [`quantizations`] a run gives, nothing included, can
/// differ from run to run; what holds of every outcome is stated: it is one
/// of the possible outcomes for these pixels at this quality, and a palette
/// has at most 256 colours and one index per pixel, each index naming a
/// palette entry.
#[verifier::external_body]
fn quantize_pixels(
    pixels: &[(u8, u8, u8, u8)],
    width: usize,
    height: usize,
    q_min: u8,
    q_max: u8,
) -> (r: Option<(Vec<(u8, u8, u8, u8)>, Vec<u8>)>)
    ensures
        quantizations(pixels@, width, height, q_min, q_max).contains(quantization_view(r)),
        r matches Some((palette, indexed)) ==> {
            &&& palette@.len() <= 256
            &&& indexed@.len() == width * height
            &&& forall|k: int| 0 <= k < indexed@.len() ==> (#[trigger] indexed@[k]) < palette@.len()
        },
{
    let px: Vec<imagequant::RGBA> =
        pixels.iter().map(|&(r, g, b, a)| imagequant::RGBA::new(r, g, b, a)).collect();
    let mut attr = imagequant::new();
    attr.set_quality(q_min, q_max).ok()?;
    let mut img = attr.new_image(px, width, height, Default::default()).ok()?;
    let mut quantized = attr.quantize(&mut img).ok()?;
    let (palette, indexed) = quantized.remapped(&mut img).ok()?;
    Some((palette.iter().map(|c| (c.r, c.g, c.b, c.a)).collect(), indexed))
}

/// `lodepng::Encoder` with the palette set (`set_palette`), then `encode` of
/// the indexed pixels.
#[verifier::external_body]
fn encode_indexed_png(
    palette: &[(u8, u8, u8, u8)],
    indexed: &[u8],
    width: usize,
    height: usize,
) -> (r: Option<Vec<u8>>)
    requires
        indexed@.len() == width * height,
        palette@.len() <= 256,
    ensures
        opt_view(r) == indexed_png_encoding(palette@, indexed@, width, height),
{
    let colors: Vec<lodepng::RGBA> =
        palette.iter().map(|&(r, g, b, a)| lodepng::RGBA::new(r, g, b, a)).collect();
    let mut encoder = lodepng::Encoder::new();
    encoder.set_palette(&colors).ok()?;
    encoder.encode(indexed, width, height).ok()
}

} // verus!

verus! {

/// Decoding refuses images wider or taller than this, so that a malformed
/// dimension header cannot exhaust memory.
pub const DECODE_LIMIT: u32 = 30000;

/// The picture that gets re-encoded: `data` decoded, then downscaled with
/// the Lanczos3 filter to the tier's width cap when it is wider than the
/// cap.
pub open spec fn sized_picture(data: Seq<u8>, quality: Quality) -> PictureModel {
    let decoded: PictureModel = (data, DECODE_LIMIT, DECODE_LIMIT, None);
    match quality.spec_max_width() {
        Some(cap) => if picture_width(decoded) > cap {
            (data, DECODE_LIMIT, DECODE_LIMIT, Some((cap, u32::MAX, ResizeFilter::Lanczos3)))
        } else {
            decoded
        },
        None => decoded,
    }
}

/// A palette and one palette index per pixel, as a quantizer gives them.
pub type Quantization = (Seq<(u8, u8, u8, u8)>, Seq<u8>);

/// The plain values of a quantizer result.
pub open spec fn quantization_view(q: Option<(Vec<(u8, u8, u8, u8)>, Vec<u8>)>) -> Option<
    Quantization,
> {
    match q {
        Some((palette, indexed)) => Some((palette@, indexed@)),
        None => None,
    }
}

/// A quantization fits a `width` × `height` raster: at most 256 colours and
/// one index per pixel.
pub open spec fn fits_raster(q: Option<Quantization>, width: usize, height: usize) -> bool {
    q matches Some(x) ==> x.0.len() <= 256 && x.1.len() == width * height
}

/// The PNG that the chosen quantization encodes to: the first attempt's
/// when there is one, else the retry's, else nothing.
pub open spec fn chosen_png(
    first: Option<Quantization>,
    retry: Option<Quantization>,
    width: usize,
    height: usize,
) -> Option<Seq<u8>> {
    match first {
        Some(q) => indexed_png_encoding(q.0, q.1, width, height),
        None => match retry {
            Some(q) => indexed_png_encoding(q.0, q.1, width, height),
            None => None,
        },
    }
}

/// `q` is what one quantizer attempt on `pixels` at `q_min..q_max` may give:
/// one of its possible outcomes (nothing included), a palette fitting the
/// raster.
pub open spec fn attempt_outcome(
    q: Option<Quantization>,
    pixels: Seq<(u8, u8, u8, u8)>,
    width: usize,
    height: usize,
    q_min: u8,
    q_max: u8,
) -> bool {
    &&& quantizations(pixels, width, height, q_min, q_max).contains(q)
    &&& fits_raster(q, width, height)
}

/// The quantizer attempts made for a picture at quality `png_quality`: the
/// first at the tier's range, and the retry at `q_min..100` made exactly
/// when the first gave nothing.
pub open spec fn png_attempts(
    pic: PictureModel,
    png_quality: (u8, u8),
    first: Option<Quantization>,
    retry: Option<Quantization>,
) -> bool {
    let rgba = picture_rgba8(pic);
    let pixels = rgba_pixels_of(rgba.2);
    let w = rgba.0 as usize;
    let h = rgba.1 as usize;
    &&& attempt_outcome(first, pixels, w, h, png_quality.0, png_quality.1)
    &&& (first is Some ==> retry is None)
    &&& (first is None ==> attempt_outcome(retry, pixels, w, h, png_quality.0, 100))
}

/// What re-encoding a picture as a palette PNG at quality `png_quality` may
/// give: the PNG of the quantization chosen from some possible attempts
/// (nothing only when both attempts missed the floor or the encoder
/// refused).
pub open spec fn png_outcome(pic: PictureModel, png_quality: (u8, u8), r: Option<Seq<u8>>) -> bool {
    exists|first: Option<Quantization>, retry: Option<Quantization>|
        #![trigger png_attempts(pic, png_quality, first, retry)]
        png_attempts(pic, png_quality, first, retry) && r == chosen_png(
            first,
            retry,
            picture_rgba8(pic).0 as usize,
            picture_rgba8(pic).1 as usize,
        )
}

/// What recompressing `data`, announced as `kind`, at `quality` gives.
/// Nothing when the bytes are not of the announced format (a PNG in a file
/// called `.jpg` must not be transcoded, or the book's manifest would lie)
/// or do not decode; otherwise the re-encoding of [`sized_picture`]: a JPEG
/// at the tier's JPEG quality, or a quantized PNG.
pub open spec fn recompress_outcome(
    kind: ImageKind,
    data: Seq<u8>,
    quality: Quality,
    r: Option<Seq<u8>>,
) -> bool {
    if sniffed_kind(data) != Some(kind) || !decodes(data, DECODE_LIMIT, DECODE_LIMIT) {
        r is None
    } else {
        let pic = sized_picture(data, quality);
        match kind {
            ImageKind::Jpeg => {
                let rgb = picture_rgb8(pic);
                r == jpeg_encoding(rgb.0, rgb.1, rgb.2, quality.spec_jpeg_quality())
            },
            ImageKind::Png => {
                png_outcome(pic, quality.spec_png_quality(), r)
            },
        }
    }
}

/// Only the width is capped. When the decoded picture is wider than the
/// tier's cap, it is resized with Lanczos3 into a box exactly as wide as the
/// cap, and tall enough that, whatever the picture's height, the width is
/// the bound that applies: `DynamicImage::resize` scales by the smaller of
/// the ratios box-width/width and box-height/height, and here
/// `cap / width <= box-height / height`, so the width becomes the cap and
/// the height follows the aspect ratio. A picture no wider than the cap, and
/// any picture at a tier without a cap, is not resized.
pub proof fn lemma_only_width_is_capped(data: Seq<u8>, quality: Quality, height: u32)
    ensures
        ({
            let decoded: PictureModel = (data, DECODE_LIMIT, DECODE_LIMIT, None);
            match quality.spec_max_width() {
                Some(cap) => if picture_width(decoded) > cap {
                    sized_picture(data, quality).3 matches Some((box_w, box_h, filter)) && box_w
                        == cap && filter == ResizeFilter::Lanczos3 && (box_w as int) * (
                    height as int) <= (box_h as int) * (picture_width(decoded) as int)
                } else {
                    sized_picture(data, quality) == decoded
                },
                None => sized_picture(data, quality) == decoded,
            }
        }),
{
    let decoded: PictureModel = (data, DECODE_LIMIT, DECODE_LIMIT, None);
    match quality.spec_max_width() {
        Some(cap) => {
            let w = picture_width(decoded);
            if w > cap {
                let m = u32::MAX;
                assert((cap as int) * (height as int) <= (m as int) * (w as int)) by (nonlinear_arith)
                    requires
                        cap < w,
                        height <= m,
                ;
            }
        },
        None => {},
    }
}

/// The RGBA pixels of a row-major sample buffer, four samples each (a
/// trailing partial pixel is dropped).
pub open spec fn rgba_pixels_of(raw: Seq<u8>) -> Seq<(u8, u8, u8, u8)> {
    Seq::new(
        raw.len() / 4,
        |i: int| (raw[4 * i], raw[4 * i + 1], raw[4 * i + 2], raw[4 * i + 3]),
    )
}

/// Groups samples into RGBA pixels.
pub fn rgba_pixels(raw: &Vec<u8>) -> (r: Vec<(u8, u8, u8, u8)>)
    ensures
        r@ == rgba_pixels_of(raw@),
{
    let n = raw.len() / 4;
    assert(raw@.len() <= usize::MAX);
    let mut out: Vec<(u8, u8, u8, u8)> = Vec::with_capacity(n);
    let mut i: usize = 0;
    while i < n
        invariant
            n == raw@.len() / 4,
            raw@.len() <= usize::MAX,
            i <= n,
            out@.len() == i,
            forall|j: int| 0 <= j < i ==> out@[j] == rgba_pixels_of(raw@)[j],
        decreases n - i,
    {
        assert(4 * i + 3 < raw@.len()) by (nonlinear_arith)
            requires
                i < n,
                n == raw@.len() / 4,
        ;
        let k: usize = 4 * i;
        out.push((raw[k], raw[k + 1], raw[k + 2], raw[k + 3]));
        i = i + 1;
    }
    assert(out@ =~= rgba_pixels_of(raw@));
    out
}

/// Re-encodes a picture as a JPEG at `jpeg_quality`. JPEG has no alpha: the
/// picture is taken as RGB, which drops it (EPUB JPEGs never carry
/// meaningful alpha anyway); re-encoding also strips metadata.
fn encode_jpeg(pic: &Picture, jpeg_quality: u8) -> (r: Option<Vec<u8>>)
    ensures
        opt_view(r) == jpeg_encoding(
            picture_rgb8(pic@).0,
            picture_rgb8(pic@).1,
            picture_rgb8(pic@).2,
            jpeg_quality,
        ),
{
    let (width, height, rgb) = rgb8_of(pic);
    encode_jpeg_raster(width, height, rgb, jpeg_quality)
}

/// Encodes the chosen quantization as a palette PNG: the first attempt's
/// result when there is one, else the retry's; nothing when both attempts
/// gave nothing.
pub fn encode_chosen(
    first: Option<(Vec<(u8, u8, u8, u8)>, Vec<u8>)>,
    retry: Option<(Vec<(u8, u8, u8, u8)>, Vec<u8>)>,
    width: usize,
    height: usize,
) -> (r: Option<Vec<u8>>)
    requires
        fits_raster(quantization_view(first), width, height),
        fits_raster(quantization_view(retry), width, height),
    ensures
        opt_view(r) == chosen_png(
            quantization_view(first),
            quantization_view(retry),
            width,
            height,
        ),
{
    let chosen = match first {
        Some(found) => found,
        None => match retry {
            Some(found) => found,
            None => {
                return None;
            },
        },
    };
    let (palette, indexed) = chosen;
    encode_indexed_png(&palette, &indexed, width, height)
}

/// Re-encodes a picture as a palette PNG, and gives, as ghost values, the
/// quantizer attempts it made.
///
/// A quantization target below 100 makes the quantizer degrade toward the
/// target, and it tightens the floor for images that already fit a
/// 256-colour palette, so charts and line art (the common EPUB PNG) can fail
/// the floor even though they would convert to a palette losslessly.
/// Retrying at target 100 turns those into the optimal palette conversion,
/// while photos that truly cannot meet the floor fail both attempts and are
/// kept as-is by the caller.
fn encode_quantized_png(pic: &Picture, png_quality: (u8, u8)) -> (r: (
    Option<Vec<u8>>,
    Ghost<(Option<Quantization>, Option<Quantization>)>,
))
    ensures
        png_attempts(pic@, png_quality, r.1@.0, r.1@.1),
        opt_view(r.0) == chosen_png(
            r.1@.0,
            r.1@.1,
            picture_rgba8(pic@).0 as usize,
            picture_rgba8(pic@).1 as usize,
        ),
{
    let (q_min, q_max) = png_quality;
    let (width, height, rgba) = rgba8_of(pic);
    let pixels = rgba_pixels(&rgba);
    let w = width as usize;
    let h = height as usize;
    let first = quantize_pixels(&pixels, w, h, q_min, q_max);
    let retry = if first.is_none() {
        quantize_pixels(&pixels, w, h, q_min, 100)
    } else {
        None
    };
    let ghost tries = (quantization_view(first), quantization_view(retry));
    let r = encode_chosen(first, retry, w, h);
    (r, Ghost(tries))
}

/// Re-encodes `data` at the given tier. Returns `None` whenever the original
/// bytes should be kept instead: undecodable data, a format that does not
/// match the entry's extension, or any encode failure. The caller
/// additionally discards results that are not strictly smaller.
pub fn recompress(kind: ImageKind, data: &[u8], quality: Quality) -> (r: Option<Vec<u8>>)
    ensures
        recompress_outcome(kind, data@, quality, opt_view(r)),
{
    let guessed = sniff_kind(data);
    let format_matches = match (guessed, kind) {
        (Some(ImageKind::Jpeg), ImageKind::Jpeg) => true,
        (Some(ImageKind::Png), ImageKind::Png) => true,
        _ => false,
    };
    if !format_matches {
        return None;
    }
    let mut pic = match decode_limited(data, DECODE_LIMIT, DECODE_LIMIT) {
        Some(p) => p,
        None => {
            return None;
        },
    };
    match quality.max_width() {
        Some(cap) => {
            if width_of(&pic) > cap {
                pic = resize_to_fit(pic, cap, u32::MAX, ResizeFilter::Lanczos3);
            }
        },
        None => {},
    }
    assert(pic@ == sized_picture(data@, quality));
    match kind {
        ImageKind::Jpeg => encode_jpeg(&pic, quality.jpeg_quality()),
        ImageKind::Png => {
            let (r, tries) = encode_quantized_png(&pic, quality.png_quality());
            assert(png_attempts(pic@, quality.spec_png_quality(), tries@.0, tries@.1));
            r
        },
    }
}

} // verus!
