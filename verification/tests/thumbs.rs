use griphook::raw::{cmp_formats, RawThumbnail, ThumbKind};
use griphook::thumbs::best_thumbnail;
use std::cmp::Ordering;

fn thumb(kind: ThumbKind, width: u32, height: u32, tag: u8) -> RawThumbnail {
    RawThumbnail { kind, width, height, data: vec![tag] }
}

#[test]
fn cmp_formats_prefers_jpeg_then_bitmaps() {
    assert_eq!(cmp_formats(ThumbKind::Jpeg, ThumbKind::Jpeg), Ordering::Equal);
    assert_eq!(cmp_formats(ThumbKind::Bitmap, ThumbKind::Jpeg), Ordering::Less);
    assert_eq!(cmp_formats(ThumbKind::Jpeg, ThumbKind::Bitmap16), Ordering::Greater);
    assert_eq!(cmp_formats(ThumbKind::Bitmap16, ThumbKind::Bitmap), Ordering::Less);
    assert_eq!(cmp_formats(ThumbKind::Bitmap16, ThumbKind::Unknown), Ordering::Greater);
    assert_eq!(cmp_formats(ThumbKind::Layer, ThumbKind::H265), Ordering::Equal);
    assert_eq!(cmp_formats(ThumbKind::Rollei, ThumbKind::Bitmap), Ordering::Less);
}

#[test]
fn best_thumbnail_picks_format_then_size_then_last() {
    assert_eq!(best_thumbnail(&Vec::new()), None);
    let thumbs = vec![
        thumb(ThumbKind::Bitmap, 1000, 1000, 0),
        thumb(ThumbKind::Jpeg, 10, 10, 1),
        thumb(ThumbKind::Jpeg, 20, 10, 2),
        thumb(ThumbKind::Unknown, 5000, 5000, 3),
    ];
    assert_eq!(best_thumbnail(&thumbs), Some(2));
    let ties = vec![thumb(ThumbKind::Jpeg, 10, 10, 0), thumb(ThumbKind::Jpeg, 5, 20, 1)];
    assert_eq!(best_thumbnail(&ties), Some(1));
}
