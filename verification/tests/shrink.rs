//! End-to-end tests of the shrink engine, driven by fixture EPUBs that are
//! generated in-test and shrunk in memory.

use std::io::{Cursor, Read, Write};

use image::{DynamicImage, ImageFormat, RgbImage, RgbaImage};
use shrinkpub_core::epub::{EpubSource, OpenError, Progress, ShrinkFailure, Shrunk};
use shrinkpub_core::Quality;
use zip::write::SimpleFileOptions;
use zip::{CompressionMethod, ZipArchive, ZipWriter};

const CONTAINER_XML: &str = r#"<?xml version="1.0"?>
<container version="1.0" xmlns="urn:oasis:names:tc:opendocument:xmlns:container">
  <rootfiles><rootfile full-path="OEBPS/content.opf" media-type="application/oebps-package+xml"/></rootfiles>
</container>"#;

const CHAPTER_XHTML: &str = r#"<?xml version="1.0" encoding="utf-8"?>
<html xmlns="http://www.w3.org/1999/xhtml"><body><p>Bring out your EPUBs!</p></body></html>"#;

/// Deterministic photo-ish content: smooth gradients plus LCG noise, so JPEG
/// quality levels actually change the encoded size.
fn photo_like(width: u32, height: u32) -> RgbImage {
    let mut seed = 0x2545_f491u32;
    RgbImage::from_fn(width, height, |x, y| {
        seed = seed.wrapping_mul(1_664_525).wrapping_add(1_013_904_223);
        let noise = (seed >> 24) as u8;
        image::Rgb([
            ((x * 255) / width.max(1)) as u8,
            ((y * 255) / height.max(1)) as u8,
            noise,
        ])
    })
}

fn jpeg_bytes(img: &RgbImage, quality: u8) -> Vec<u8> {
    let mut out = Vec::new();
    image::codecs::jpeg::JpegEncoder::new_with_quality(&mut out, quality)
        .encode_image(img)
        .unwrap();
    out
}

/// Flat-color "chart" artwork — the typical PNG payload inside an EPUB, and
/// happily quantizable (~100 distinct colors).
fn chart_png_bytes(width: u32, height: u32) -> Vec<u8> {
    let img = RgbaImage::from_fn(width, height, |x, y| {
        if x % 80 < 2 || y % 80 < 2 {
            image::Rgba([0, 0, 0, 255])
        } else {
            let cell = (x / 80) + (y / 80) * 10;
            image::Rgba([
                ((cell * 37) % 200 + 30) as u8,
                ((cell * 73) % 200 + 30) as u8,
                ((cell * 151) % 200 + 30) as u8,
                255,
            ])
        }
    });
    let mut out = Vec::new();
    DynamicImage::ImageRgba8(img)
        .write_to(&mut Cursor::new(&mut out), ImageFormat::Png)
        .unwrap();
    out
}

/// Per-pixel RGB noise: impossible to palette-quantize at a high quality
/// floor, so high tiers must keep it as-is.
fn noise_png_bytes(width: u32, height: u32) -> Vec<u8> {
    let mut seed = 0x1234_5678u32;
    let img = RgbaImage::from_fn(width, height, |_, _| {
        seed = seed.wrapping_mul(1_664_525).wrapping_add(1_013_904_223);
        image::Rgba([
            (seed >> 8) as u8,
            (seed >> 16) as u8,
            (seed >> 24) as u8,
            255,
        ])
    });
    let mut out = Vec::new();
    DynamicImage::ImageRgba8(img)
        .write_to(&mut Cursor::new(&mut out), ImageFormat::Png)
        .unwrap();
    out
}

struct FixtureEntry {
    name: &'static str,
    data: Vec<u8>,
    method: CompressionMethod,
}

fn write_fixture(entries: &[FixtureEntry]) -> Vec<u8> {
    let mut zip = ZipWriter::new(Cursor::new(Vec::new()));
    for entry in entries {
        zip.start_file(
            entry.name,
            SimpleFileOptions::default().compression_method(entry.method),
        )
        .unwrap();
        zip.write_all(&entry.data).unwrap();
    }
    zip.finish().unwrap().into_inner()
}

/// A well-formed EPUB: proper mimetype first, a chapter, a large JPEG and PNG.
fn standard_fixture() -> Vec<u8> {
    write_fixture(&[
        FixtureEntry {
            name: "mimetype",
            data: b"application/epub+zip".to_vec(),
            method: CompressionMethod::Stored,
        },
        FixtureEntry {
            name: "META-INF/container.xml",
            data: CONTAINER_XML.as_bytes().to_vec(),
            method: CompressionMethod::Deflated,
        },
        FixtureEntry {
            name: "OEBPS/chapter1.xhtml",
            data: CHAPTER_XHTML.as_bytes().to_vec(),
            method: CompressionMethod::Deflated,
        },
        FixtureEntry {
            name: "OEBPS/images/photo.jpg",
            data: jpeg_bytes(&photo_like(1800, 1200), 95),
            method: CompressionMethod::Stored,
        },
        FixtureEntry {
            name: "OEBPS/images/chart.png",
            data: chart_png_bytes(800, 800),
            method: CompressionMethod::Stored,
        },
    ])
}

fn shrink(epub: Vec<u8>, quality: Quality) -> Shrunk {
    let mut source = EpubSource::open(epub).ok().expect("a valid EPUB");
    source.shrink(quality, &mut |_: Progress<'_>| {}).unwrap()
}

fn entry_bytes(epub: &[u8], entry_name: &str) -> Vec<u8> {
    let mut archive = ZipArchive::new(Cursor::new(epub)).unwrap();
    let mut entry = archive.by_name(entry_name).unwrap();
    let mut buf = Vec::new();
    entry.read_to_end(&mut buf).unwrap();
    buf
}

#[test]
fn shrinks_a_fixture_epub() {
    let input = standard_fixture();
    let input_before = input.clone();

    let report = shrink(input.clone(), Quality::Medium);

    // The source bytes are untouched.
    assert_eq!(input, input_before);

    // Both images got smaller; the whole book got smaller.
    assert_eq!(report.images_recompressed, 2);
    assert_eq!(report.images_kept, 0);
    assert_eq!(report.entries_total, 5);
    assert!(report.bytes.len() < input.len());
    assert!(
        entry_bytes(&report.bytes, "OEBPS/images/photo.jpg").len()
            < entry_bytes(&input, "OEBPS/images/photo.jpg").len()
    );
    assert!(
        entry_bytes(&report.bytes, "OEBPS/images/chart.png").len()
            < entry_bytes(&input, "OEBPS/images/chart.png").len()
    );

    // Non-image entries are copied bit-for-bit.
    assert_eq!(
        entry_bytes(&report.bytes, "OEBPS/chapter1.xhtml"),
        CHAPTER_XHTML.as_bytes()
    );
    assert_eq!(
        entry_bytes(&report.bytes, "META-INF/container.xml"),
        CONTAINER_XML.as_bytes()
    );
}

#[test]
fn output_is_ocf_compliant_even_when_the_source_is_not() {
    // Broken source: mimetype is deflated, padded, and not the first entry.
    let input = write_fixture(&[
        FixtureEntry {
            name: "OEBPS/chapter1.xhtml",
            data: CHAPTER_XHTML.as_bytes().to_vec(),
            method: CompressionMethod::Deflated,
        },
        FixtureEntry {
            name: "mimetype",
            data: b"\napplication/epub+zip  \n".to_vec(),
            method: CompressionMethod::Deflated,
        },
    ]);

    let report = shrink(input, Quality::Medium);

    let mut archive = ZipArchive::new(Cursor::new(&report.bytes)).unwrap();
    let first = archive.by_index(0).unwrap();
    assert_eq!(first.name(), "mimetype");
    assert_eq!(first.compression(), CompressionMethod::Stored);
    drop(first);
    assert_eq!(entry_bytes(&report.bytes, "mimetype"), b"application/epub+zip");
    // And only one mimetype entry exists.
    let names: Vec<String> = (0..archive.len())
        .map(|i| archive.by_index(i).unwrap().name().to_string())
        .collect();
    assert_eq!(names.iter().filter(|n| n.as_str() == "mimetype").count(), 1);
}

#[test]
fn images_that_would_grow_are_kept_byte_identical() {
    let tiny = jpeg_bytes(&photo_like(4, 4), 5);
    let input = write_fixture(&[
        FixtureEntry {
            name: "mimetype",
            data: b"application/epub+zip".to_vec(),
            method: CompressionMethod::Stored,
        },
        FixtureEntry {
            name: "OEBPS/tiny.jpg",
            data: tiny.clone(),
            method: CompressionMethod::Stored,
        },
    ]);

    let report = shrink(input, Quality::VeryHigh);

    assert_eq!(report.images_recompressed, 0);
    assert_eq!(report.images_kept, 1);
    assert_eq!(entry_bytes(&report.bytes, "OEBPS/tiny.jpg"), tiny);
}

#[test]
fn unquantizable_pngs_are_kept_at_high_tiers() {
    let noise = noise_png_bytes(300, 300);
    let input = write_fixture(&[
        FixtureEntry {
            name: "mimetype",
            data: b"application/epub+zip".to_vec(),
            method: CompressionMethod::Stored,
        },
        FixtureEntry {
            name: "OEBPS/photo.png",
            data: noise.clone(),
            method: CompressionMethod::Stored,
        },
    ]);

    let report = shrink(input, Quality::VeryHigh);

    // Quantizing noise can't reach Very High's quality floor, so the engine
    // must keep the original bytes rather than butcher the image.
    assert_eq!(report.images_recompressed, 0);
    assert_eq!(report.images_kept, 1);
    assert_eq!(entry_bytes(&report.bytes, "OEBPS/photo.png"), noise);
}

#[test]
fn lower_tiers_produce_smaller_files() {
    let mut sizes = Vec::new();
    for quality in [Quality::VeryHigh, Quality::Medium, Quality::Atrocious] {
        let report = shrink(standard_fixture(), quality);
        sizes.push(report.bytes.len());
    }
    assert!(
        sizes[0] > sizes[1],
        "Medium must beat Very High ({sizes:?})"
    );
    assert!(
        sizes[1] > sizes[2],
        "Atrocious must beat Medium ({sizes:?})"
    );
}

#[test]
fn low_tiers_downscale_oversized_images() {
    let input = write_fixture(&[
        FixtureEntry {
            name: "mimetype",
            data: b"application/epub+zip".to_vec(),
            method: CompressionMethod::Stored,
        },
        FixtureEntry {
            name: "OEBPS/wide.jpg",
            data: jpeg_bytes(&photo_like(2000, 500), 95),
            method: CompressionMethod::Stored,
        },
    ]);

    let report = shrink(input.clone(), Quality::Low);

    let out = image::load_from_memory(&entry_bytes(&report.bytes, "OEBPS/wide.jpg")).unwrap();
    assert_eq!(out.width(), 1600);
    assert_eq!(out.height(), 400, "aspect ratio must be preserved");

    // Medium and above never downscale.
    let untouched = shrink(input, Quality::Medium);
    let out = image::load_from_memory(&entry_bytes(&untouched.bytes, "OEBPS/wide.jpg")).unwrap();
    assert_eq!(out.width(), 2000);
}

#[test]
fn rejects_non_epubs() {
    let not_zip = b"certainly not a zip archive".to_vec();
    let plain_zip = write_fixture(&[FixtureEntry {
        name: "readme.txt",
        data: b"just a zip".to_vec(),
        method: CompressionMethod::Deflated,
    }]);

    for input in [not_zip, plain_zip] {
        match EpubSource::open(input) {
            Err(OpenError::NotAnEpub(_)) => {}
            Err(OpenError::Read(e)) => panic!("expected NotAnEpub, got a read error: {e}"),
            Ok(_) => panic!("expected NotAnEpub, got an EPUB"),
        }
    }
}

#[test]
fn rejection_reasons_are_given() {
    let plain_zip = write_fixture(&[FixtureEntry {
        name: "readme.txt",
        data: b"just a zip".to_vec(),
        method: CompressionMethod::Deflated,
    }]);
    match EpubSource::open(plain_zip) {
        Err(OpenError::NotAnEpub(reason)) => {
            assert_eq!(reason, "no EPUB mimetype or META-INF/container.xml entry")
        }
        _ => panic!("expected NotAnEpub"),
    }
    match EpubSource::open(b"certainly not a zip archive".to_vec()) {
        Err(OpenError::NotAnEpub(reason)) => assert!(reason.starts_with("not a zip container (")),
        _ => panic!("expected NotAnEpub"),
    }
}

#[test]
fn a_container_manifest_alone_makes_an_epub() {
    let input = write_fixture(&[FixtureEntry {
        name: "META-INF/container.xml",
        data: CONTAINER_XML.as_bytes().to_vec(),
        method: CompressionMethod::Deflated,
    }]);
    let report = shrink(input, Quality::High);
    assert_eq!(report.entries_total, 1);
    assert_eq!(entry_bytes(&report.bytes, "mimetype"), b"application/epub+zip");
    assert_eq!(
        entry_bytes(&report.bytes, "META-INF/container.xml"),
        CONTAINER_XML.as_bytes()
    );
}

#[test]
fn a_wrong_mimetype_alone_is_refused() {
    let input = write_fixture(&[FixtureEntry {
        name: "mimetype",
        data: b"application/zip".to_vec(),
        method: CompressionMethod::Stored,
    }]);
    assert!(matches!(EpubSource::open(input), Err(OpenError::NotAnEpub(_))));
}

#[test]
fn progress_covers_every_entry() {
    let mut seen: Vec<(usize, usize, String)> = Vec::new();
    let mut source = EpubSource::open(standard_fixture()).ok().unwrap();
    let report = source
        .shrink(Quality::Medium, &mut |p: Progress<'_>| {
            seen.push((p.index, p.total, p.entry_name.to_string()));
        })
        .unwrap();

    assert_eq!(seen.len(), report.entries_total);
    assert_eq!(seen.len(), 5);
    for (i, (index, total, _)) in seen.iter().enumerate() {
        assert_eq!(*index, i);
        assert_eq!(*total, 5);
    }
    assert!(seen
        .iter()
        .any(|(_, _, name)| name == "OEBPS/images/photo.jpg"));
}

/// A zip container written byte by byte: stored entries whose names are
/// given as raw header bytes, without the UTF-8 flag (so readers decode them
/// as CP437).
fn raw_zip(entries: &[(&[u8], &[u8])]) -> Vec<u8> {
    let mut out: Vec<u8> = Vec::new();
    let mut central: Vec<u8> = Vec::new();
    for (name, data) in entries {
        let offset = out.len() as u32;
        let crc = crc32(data);
        out.extend_from_slice(&0x0403_4b50u32.to_le_bytes());
        out.extend_from_slice(&20u16.to_le_bytes());
        out.extend_from_slice(&0u16.to_le_bytes());
        out.extend_from_slice(&0u16.to_le_bytes());
        out.extend_from_slice(&0u16.to_le_bytes());
        out.extend_from_slice(&0x21u16.to_le_bytes());
        out.extend_from_slice(&crc.to_le_bytes());
        out.extend_from_slice(&(data.len() as u32).to_le_bytes());
        out.extend_from_slice(&(data.len() as u32).to_le_bytes());
        out.extend_from_slice(&(name.len() as u16).to_le_bytes());
        out.extend_from_slice(&0u16.to_le_bytes());
        out.extend_from_slice(name);
        out.extend_from_slice(data);

        central.extend_from_slice(&0x0201_4b50u32.to_le_bytes());
        central.extend_from_slice(&20u16.to_le_bytes());
        central.extend_from_slice(&20u16.to_le_bytes());
        central.extend_from_slice(&0u16.to_le_bytes());
        central.extend_from_slice(&0u16.to_le_bytes());
        central.extend_from_slice(&0u16.to_le_bytes());
        central.extend_from_slice(&0x21u16.to_le_bytes());
        central.extend_from_slice(&crc.to_le_bytes());
        central.extend_from_slice(&(data.len() as u32).to_le_bytes());
        central.extend_from_slice(&(data.len() as u32).to_le_bytes());
        central.extend_from_slice(&(name.len() as u16).to_le_bytes());
        central.extend_from_slice(&0u16.to_le_bytes());
        central.extend_from_slice(&0u16.to_le_bytes());
        central.extend_from_slice(&0u16.to_le_bytes());
        central.extend_from_slice(&0u16.to_le_bytes());
        central.extend_from_slice(&0u32.to_le_bytes());
        central.extend_from_slice(&offset.to_le_bytes());
        central.extend_from_slice(name);
    }
    let central_offset = out.len() as u32;
    out.extend_from_slice(&central);
    out.extend_from_slice(&0x0605_4b50u32.to_le_bytes());
    out.extend_from_slice(&0u16.to_le_bytes());
    out.extend_from_slice(&0u16.to_le_bytes());
    out.extend_from_slice(&(entries.len() as u16).to_le_bytes());
    out.extend_from_slice(&(entries.len() as u16).to_le_bytes());
    out.extend_from_slice(&(central.len() as u32).to_le_bytes());
    out.extend_from_slice(&central_offset.to_le_bytes());
    out.extend_from_slice(&0u16.to_le_bytes());
    out
}

fn crc32(data: &[u8]) -> u32 {
    let mut crc = 0xFFFF_FFFFu32;
    for &byte in data {
        crc ^= byte as u32;
        for _ in 0..8 {
            crc = if crc & 1 == 1 { (crc >> 1) ^ 0xEDB8_8320 } else { crc >> 1 };
        }
    }
    !crc
}

#[test]
fn overlong_entry_names_are_refused() {
    // 30000 CP437 box-drawing bytes decode to 90000 bytes of UTF-8, more
    // than a zip header can record.
    let long_name = vec![0xB0u8; 30000];
    let input = raw_zip(&[
        (b"META-INF/container.xml", CONTAINER_XML.as_bytes()),
        (&long_name, b"x"),
    ]);
    let mut source = EpubSource::open(input).ok().unwrap();
    assert_eq!(source.len(), 2);
    match source.shrink(Quality::Medium, &mut |_: Progress<'_>| {}) {
        Err(ShrinkFailure::NameTooLong(name)) => {
            assert_eq!(name.len(), 90000);
            assert!(name.chars().all(|c| c == '\u{2591}'));
        }
        other => panic!("expected a refused name, got {:?}", other.map(|s| s.entries_total)),
    }
}

#[test]
fn a_hand_written_container_shrinks() {
    let input = raw_zip(&[
        (b"META-INF/container.xml", CONTAINER_XML.as_bytes()),
        (b"OEBPS/chapter1.xhtml", CHAPTER_XHTML.as_bytes()),
    ]);
    let mut source = EpubSource::open(input).ok().unwrap();
    let shrunk = source.shrink(Quality::Medium, &mut |_: Progress<'_>| {}).unwrap();
    assert_eq!(shrunk.entries_total, 2);
    let mut archive = ZipArchive::new(Cursor::new(shrunk.bytes)).unwrap();
    assert_eq!(archive.len(), 3);
    assert_eq!(archive.by_index(0).unwrap().name(), "mimetype");
    let mut chapter = String::new();
    archive.by_name("OEBPS/chapter1.xhtml").unwrap().read_to_string(&mut chapter).unwrap();
    assert_eq!(chapter, CHAPTER_XHTML);
}
