use std::io::Cursor;

use image::{DynamicImage, ImageFormat};
use shrinkpub_core::codec::{encode_chosen, image_kind, recompress, rgba_pixels, ImageKind};
use shrinkpub_core::Quality;

#[test]
fn kind_is_detected_from_extension_case_insensitively() {
    assert_eq!(image_kind("OEBPS/img/a.JPG"), Some(ImageKind::Jpeg));
    assert_eq!(image_kind("a.jpeg"), Some(ImageKind::Jpeg));
    assert_eq!(image_kind("cover.PNG"), Some(ImageKind::Png));
    assert_eq!(image_kind("chapter1.xhtml"), None);
    assert_eq!(image_kind("noextension"), None);
}

#[test]
fn a_bare_extension_name_counts_as_that_kind() {
    assert_eq!(image_kind("png"), Some(ImageKind::Png));
    assert_eq!(image_kind("dir.jpg/"), None);
    assert_eq!(image_kind(""), None);
}

#[test]
fn mismatched_extension_is_left_alone() {
    // PNG bytes in a file the manifest calls a JPEG: must not transcode.
    let png = {
        let img = DynamicImage::new_rgb8(8, 8);
        let mut out = Vec::new();
        img.write_to(&mut Cursor::new(&mut out), ImageFormat::Png)
            .unwrap();
        out
    };
    assert!(recompress(ImageKind::Jpeg, &png, Quality::Medium).is_none());
    assert!(recompress(ImageKind::Png, &png, Quality::Medium).is_some());
}

#[test]
fn garbage_is_left_alone() {
    assert!(recompress(ImageKind::Jpeg, b"not an image", Quality::Medium).is_none());
    assert!(recompress(ImageKind::Png, &[], Quality::Medium).is_none());
}

#[test]
fn jpegs_are_reencoded_as_jpegs() {
    let img = image::RgbImage::from_fn(64, 48, |x, y| image::Rgb([(x * 4) as u8, (y * 5) as u8, 90]));
    let mut jpeg = Vec::new();
    image::codecs::jpeg::JpegEncoder::new_with_quality(&mut jpeg, 100)
        .encode_image(&img)
        .unwrap();
    let out = recompress(ImageKind::Jpeg, &jpeg, Quality::Low).unwrap();
    let decoded = image::load_from_memory(&out).unwrap();
    assert_eq!((decoded.width(), decoded.height()), (64, 48));
    assert_eq!(image::guess_format(&out).unwrap(), ImageFormat::Jpeg);
}

#[test]
fn pixels_are_grouped_by_four() {
    assert_eq!(
        rgba_pixels(&vec![1, 2, 3, 4, 5, 6, 7, 8, 9]),
        vec![(1, 2, 3, 4), (5, 6, 7, 8)]
    );
    assert!(rgba_pixels(&vec![]).is_empty());
}

fn checkerboard() -> (Vec<(u8, u8, u8, u8)>, Vec<u8>) {
    (vec![(0, 0, 0, 255), (255, 255, 255, 255)], vec![0, 1, 1, 0])
}

fn decoded_rgba(png: &[u8]) -> Vec<u8> {
    image::load_from_memory_with_format(png, ImageFormat::Png)
        .unwrap()
        .to_rgba8()
        .into_raw()
}

#[test]
fn the_first_quantization_is_encoded_when_there_is_one() {
    let other = (vec![(10, 20, 30, 255)], vec![0, 0, 0, 0]);
    let png = encode_chosen(Some(checkerboard()), Some(other), 2, 2).unwrap();
    assert_eq!(&png[..8], b"\x89PNG\r\n\x1a\n");
    assert_eq!(
        decoded_rgba(&png),
        vec![0, 0, 0, 255, 255, 255, 255, 255, 255, 255, 255, 255, 0, 0, 0, 255]
    );
}

#[test]
fn the_retry_is_encoded_when_the_first_attempt_failed() {
    let png = encode_chosen(None, Some(checkerboard()), 2, 2).unwrap();
    assert_eq!(
        decoded_rgba(&png),
        vec![0, 0, 0, 255, 255, 255, 255, 255, 255, 255, 255, 255, 0, 0, 0, 255]
    );
}

#[test]
fn nothing_is_encoded_when_both_attempts_failed() {
    assert!(encode_chosen(None, None, 2, 2).is_none());
}
