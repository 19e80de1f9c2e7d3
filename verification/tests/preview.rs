use griphook::jpeg::embedded_jpeg;
use griphook::preview::{
    decode_image, decode_raw_thumbnail, finish_preview, load, raw_preview, PreviewLoader, RawExtraction,
};
use griphook::thumbnail;
use griphook::raw::{RawThumbnail, ThumbKind};
use image::{DynamicImage, GenericImageView, ImageFormat, RgbaImage};
use std::io::Cursor;

fn png_of(width: u32, height: u32) -> Vec<u8> {
    let image = DynamicImage::ImageRgba8(RgbaImage::new(width, height));
    let mut out = Cursor::new(Vec::new());
    image.write_to(&mut out, ImageFormat::Png).unwrap();
    out.into_inner()
}

fn jpeg_of(width: u32, height: u32) -> Vec<u8> {
    let image = DynamicImage::ImageRgb8(image::RgbImage::new(width, height));
    let mut out = Cursor::new(Vec::new());
    image.write_to(&mut out, ImageFormat::Jpeg).unwrap();
    out.into_inner()
}

#[test]
fn preview_embedded_jpeg_prefers_the_largest_preview() {
    let raw = b"RAW\xff\xd8a\xff\xd9metadata\xff\xd8longer preview\xff\xd9";
    assert_eq!(
        embedded_jpeg(raw),
        Some(&b"\xff\xd8longer preview\xff\xd9"[..])
    );
}

#[test]
fn embedded_jpeg_none_without_markers() {
    assert_eq!(embedded_jpeg(b""), None);
    assert_eq!(embedded_jpeg(b"plain data"), None);
    assert_eq!(embedded_jpeg(b"\xff"), None);
}

#[test]
fn embedded_jpeg_unterminated_segment_gives_none() {
    let raw = b"\xff\xd8ok\xff\xd9 then \xff\xd8never ends";
    assert_eq!(embedded_jpeg(raw), None);
}

#[test]
fn embedded_jpeg_first_of_equal_lengths() {
    let raw = b"\xff\xd8AB\xff\xd9\xff\xd8CD\xff\xd9";
    assert_eq!(embedded_jpeg(raw), Some(&b"\xff\xd8AB\xff\xd9"[..]));
}

#[test]
fn embedded_jpeg_segment_needs_end_after_start_marker() {
    // The end marker search starts two bytes after the start marker.
    let raw = b"\xff\xd8\xff\xd9";
    assert_eq!(embedded_jpeg(raw), Some(&b"\xff\xd8\xff\xd9"[..]));
    let raw = b"\xff\xd8\xd9";
    assert_eq!(embedded_jpeg(raw), None);
}

#[test]
fn preview_of_png_is_png() {
    let png = png_of(10, 6);
    let out = load("a.png", &png).unwrap();
    assert_eq!(&out[..8], b"\x89PNG\r\n\x1a\n");
    let out = PreviewLoader::load("a.png", &png).unwrap();
    let decoded = image::load_from_memory(&out).unwrap();
    assert_eq!(decoded.dimensions(), (10, 6));
}

#[test]
fn preview_scales_large_images_to_fit() {
    let png = png_of(3840, 1080);
    let out = load("wide.png", &png).unwrap();
    let decoded = image::load_from_memory(&out).unwrap();
    assert_eq!(decoded.dimensions(), (1920, 540));
    let out = PreviewLoader::load("wide.png", &png).unwrap();
    let decoded = image::load_from_memory(&out).unwrap();
    assert_eq!(decoded.dimensions(), (3840, 1080));
}

#[test]
fn preview_uses_embedded_jpeg() {
    let jpeg = jpeg_of(8, 4);
    let mut raw = b"RAWHEADER".to_vec();
    raw.extend_from_slice(&jpeg);
    raw.extend_from_slice(b"trailer");
    let out = PreviewLoader::load("x.orf", &raw).unwrap();
    let decoded = image::load_from_memory(&out).unwrap();
    assert_eq!(decoded.dimensions(), (8, 4));
}

#[test]
fn preview_without_embedded_jpeg_reports_it() {
    let err = load("notes.orf", b"no image here").unwrap_err();
    assert_eq!(
        err,
        "Could not decode notes.orf: Format error decoding `Unknown`: No embedded JPEG preview"
    );
    let err = PreviewLoader::load("notes.orf", b"no image here").unwrap_err();
    assert_eq!(
        err,
        "Could not decode notes.orf: Format error decoding `Unknown`: No embedded JPEG preview"
    );
}

#[test]
fn preview_with_broken_embedded_jpeg_reports_decoder_error() {
    let raw = b"junk\xff\xd8not really jpeg\xff\xd9";
    let err = load("p.raw", raw).unwrap_err();
    assert!(err.starts_with("Could not decode p.raw: "));
    assert!(!err.contains("No embedded JPEG preview"));
}

#[test]
fn thumbnail_size_preserves_aspect_ratio() {
    let png = png_of(384, 192);
    let out = thumbnail::load("photo.png", &png).unwrap();
    let decoded = image::load_from_memory(&out).unwrap();
    assert_eq!(decoded.dimensions(), (96, 48));
}

#[test]
fn thumbnail_of_garbage_reports_path() {
    let err = thumbnail::load("bad.orf", b"garbage").unwrap_err();
    assert!(err.starts_with("Could not decode thumbnail for bad.orf: "));
}

#[test]
fn decode_image_tells_images_apart() {
    assert!(decode_image(&png_of(2, 2)).is_some());
    assert!(decode_image(b"not an image").is_none());
}

#[test]
fn raw_thumbnail_errors() {
    let err = decode_raw_thumbnail(&RawExtraction::OpenFailed("libraw error: x".to_string())).err().unwrap();
    assert_eq!(err, "Could not open RAW image: libraw error: x");
    let err = decode_raw_thumbnail(&RawExtraction::ExtractFailed("boom".to_string())).err().unwrap();
    assert_eq!(err, "Could not extract thumbnail: boom");
    let err = decode_raw_thumbnail(&RawExtraction::Thumbnails(Vec::new())).err().unwrap();
    assert_eq!(err, "No thumbnails in image");
    let bad = RawThumbnail { kind: ThumbKind::Jpeg, width: 1, height: 1, data: b"xx".to_vec() };
    let err = decode_raw_thumbnail(&RawExtraction::Thumbnails(vec![bad])).err().unwrap();
    assert!(err.starts_with("Thumbnail format not supported: "));
}

#[test]
fn raw_thumbnail_prefers_jpeg() {
    let bitmap = RawThumbnail { kind: ThumbKind::Bitmap, width: 100, height: 100, data: b"not decodable".to_vec() };
    let jpeg = RawThumbnail { kind: ThumbKind::Jpeg, width: 4, height: 2, data: jpeg_of(4, 2) };
    let image = decode_raw_thumbnail(&RawExtraction::Thumbnails(vec![bitmap, jpeg])).ok().unwrap();
    assert_eq!((image.width(), image.height()), (4, 2));
    let png = finish_preview(&image).unwrap();
    assert_eq!(image::load_from_memory(&png).unwrap().dimensions(), (1920, 960));
}

#[test]
fn finished_preview_starts_as_a_png_stream() {
    let image = decode_image(&jpeg_of(3, 5)).unwrap();
    let png = finish_preview(&image).unwrap();
    assert!(png.len() >= 33);
    assert_eq!(&png[..16], &[137, 80, 78, 71, 13, 10, 26, 10, 0, 0, 0, 13, 73, 72, 68, 82]);
}

fn ihdr_size(png: &[u8]) -> (u32, u32) {
    (
        u32::from_be_bytes([png[16], png[17], png[18], png[19]]),
        u32::from_be_bytes([png[20], png[21], png[22], png[23]]),
    )
}

#[test]
fn preview_png_declares_the_fitted_size() {
    let png = load("wide.png", &png_of(40, 10)).unwrap();
    assert_eq!(ihdr_size(&png), (1920, 480));
    let small = thumbnail::load("wide.png", &png).unwrap();
    assert_eq!(ihdr_size(&small), (96, 24));
    let full = PreviewLoader::load("wide.png", &png_of(40, 10)).unwrap();
    assert_eq!(ihdr_size(&full), (40, 10));
}

#[test]
fn raw_preview_uses_the_file_or_its_best_thumbnail() {
    let none = RawExtraction::OpenFailed("not raw".to_string());
    let png = raw_preview(&png_of(6, 3), &none).unwrap();
    assert_eq!(ihdr_size(&png), (1920, 960));
    let err = raw_preview(b"garbage", &none).unwrap_err();
    assert_eq!(err, "Could not open RAW image: not raw");
    let small = RawThumbnail { kind: ThumbKind::Jpeg, width: 2, height: 2, data: jpeg_of(2, 2) };
    let large = RawThumbnail { kind: ThumbKind::Jpeg, width: 4, height: 8, data: jpeg_of(4, 8) };
    let png = raw_preview(b"garbage", &RawExtraction::Thumbnails(vec![small, large])).unwrap();
    assert_eq!(ihdr_size(&png), (540, 1080));
}
