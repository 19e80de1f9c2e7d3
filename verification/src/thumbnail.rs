//! Thumbnails for the file list.
use vstd::prelude::*;
use crate::picture::{
    decoded_view, encode_png, fits_within, image_load_failure, is_png_stream, png_size,
    resized_view, Picture, PictureView, ScaleFilter,
};
use crate::preview::{outcome, prepared};
use crate::text::{concat2, concat3};

verus! {

/// The side of the square a thumbnail is scaled to fit into.
pub const THUMBNAIL_SIZE: u32 = 96;

/// The scaling of thumbnails: to fit 96 x 96.
pub open spec fn thumbnail_scaled(p: PictureView) -> PictureView {
    resized_view(p, THUMBNAIL_SIZE, THUMBNAIL_SIZE, ScaleFilter::CatmullRom)
}

/// A small PNG thumbnail of the file at `path`, made from its PNG
/// `preview`: scaled to fit 96 x 96.
pub fn load(path: &str, preview: &[u8]) -> (r: Result<Vec<u8>, String>)
    ensures
        match image_load_failure(preview@) {
            Some(m) => r matches Err(e) && e@ == "Could not decode thumbnail for "@ + path@ + ": "@
                + m,
            None => outcome(r) == prepared(
                thumbnail_scaled(decoded_view(preview@)),
                "Could not prepare thumbnail: "@,
            ),
        },
        r matches Ok(png) ==> {
            let small = thumbnail_scaled(decoded_view(preview@));
            &&& is_png_stream(png@)
            &&& png_size(png@) == (small.width as int, small.height as int)
            &&& decoded_view(preview@).width >= 1 && decoded_view(preview@).height >= 1
                ==> fits_within(
                decoded_view(preview@).width,
                decoded_view(preview@).height,
                THUMBNAIL_SIZE,
                THUMBNAIL_SIZE,
                small.width,
                small.height,
            )
        },
{
    let picture = match Picture::decode(preview) {
        Ok(picture) => picture,
        Err(error) => {
            let head = concat3("Could not decode thumbnail for ", path, ": ");
            return Err(concat2(head.as_str(), error.as_str()));
        },
    };
    let small = picture.resize(THUMBNAIL_SIZE, THUMBNAIL_SIZE, ScaleFilter::CatmullRom);
    match encode_png(&small) {
        Ok(png) => Ok(png),
        Err(error) => Err(concat2("Could not prepare thumbnail: ", error.as_str())),
    }
}

} // verus!
