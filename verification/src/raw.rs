//! Choosing which of the thumbnails stored in a RAW file to show.
use vstd::prelude::*;
use std::cmp::Ordering;

verus! {

/// The format of a thumbnail stored in a RAW file.
#[derive(Debug, Clone, Copy, PartialEq, Eq, Structural)]
pub enum ThumbKind {
    Unknown,
    Jpeg,
    Bitmap,
    Bitmap16,
    Layer,
    Rollei,
    H265,
}

/// How much a thumbnail format is preferred: JPEG over 8-bit bitmaps over
/// 16-bit bitmaps over everything else.
pub open spec fn preference(kind: ThumbKind) -> int {
    match kind {
        ThumbKind::Jpeg => 3,
        ThumbKind::Bitmap => 2,
        ThumbKind::Bitmap16 => 1,
        _ => 0,
    }
}

/// The comparison of two integers.
pub open spec fn compare_int(a: int, b: int) -> Ordering {
    if a < b {
        Ordering::Less
    } else if a == b {
        Ordering::Equal
    } else {
        Ordering::Greater
    }
}

/// Determines which thumbnail format to prioritize when loading a preview
/// from a RAW file: formats compare by their preference.
pub fn cmp_formats(format_a: ThumbKind, format_b: ThumbKind) -> (r: Ordering)
    ensures
        r == compare_int(preference(format_a), preference(format_b)),
{
    if format_a == format_b {
        Ordering::Equal
    } else {
        match (format_a, format_b) {
            (_, ThumbKind::Jpeg) => Ordering::Less,
            (ThumbKind::Jpeg, _) => Ordering::Greater,
            (_, ThumbKind::Bitmap) => Ordering::Less,
            (ThumbKind::Bitmap, _) => Ordering::Greater,
            (_, ThumbKind::Bitmap16) => Ordering::Less,
            (ThumbKind::Bitmap16, _) => Ordering::Greater,
            (_, _) => Ordering::Equal,
        }
    }
}

/// A thumbnail stored in a RAW file.
pub struct RawThumbnail {
    pub kind: ThumbKind,
    pub width: u32,
    pub height: u32,
    /// The encoded thumbnail.
    pub data: Vec<u8>,
}

/// The pixel count of a thumbnail.
pub open spec fn area(t: RawThumbnail) -> int {
    t.height * t.width
}

/// Thumbnail `a` ranks strictly above `b`: by format preference, then by
/// pixel count.
pub open spec fn ranks_above(a: RawThumbnail, b: RawThumbnail) -> bool {
    preference(a.kind) > preference(b.kind) || (preference(a.kind) == preference(b.kind)
        && area(a) > area(b))
}

/// Whether thumbnail `a` ranks strictly above `b`: by format preference,
/// then by pixel count.
pub fn thumbnail_ranks_above(a: &RawThumbnail, b: &RawThumbnail) -> (r: bool)
    requires
        area(*a) <= u32::MAX,
        area(*b) <= u32::MAX,
    ensures
        r == ranks_above(*a, *b),
{
    let order = compare_thumbnails(a, b);
    match order {
        Ordering::Greater => true,
        _ => false,
    }
}

/// Compares two thumbnails: by format preference, then by pixel count.
fn compare_thumbnails(a: &RawThumbnail, b: &RawThumbnail) -> (r: Ordering)
    requires
        area(*a) <= u32::MAX,
        area(*b) <= u32::MAX,
    ensures
        (r == Ordering::Greater) == ranks_above(*a, *b),
{
    match cmp_formats(a.kind, b.kind) {
        Ordering::Equal => {
            let area_a = a.height * a.width;
            let area_b = b.height * b.width;
            if area_a > area_b {
                Ordering::Greater
            } else if area_a == area_b {
                Ordering::Equal
            } else {
                Ordering::Less
            }
        },
        other => other,
    }
}


/// Comparing two formats one way round gives the opposite of comparing
/// them the other way round, and equal formats compare equal.
pub proof fn lemma_cmp_formats_antisymmetric(a: ThumbKind, b: ThumbKind)
    ensures
        compare_int(preference(a), preference(b)) == Ordering::Less <==> compare_int(
            preference(b),
            preference(a),
        ) == Ordering::Greater,
        compare_int(preference(a), preference(b)) == Ordering::Equal <==> compare_int(
            preference(b),
            preference(a),
        ) == Ordering::Equal,
        a == b ==> compare_int(preference(a), preference(b)) == Ordering::Equal,
{
}
} // verus!
