//! Preview images: decoding a file's bytes (or a JPEG or thumbnail
//! embedded in a RAW file), scaling, and encoding the result as PNG.
use vstd::prelude::*;
use crate::jpeg::{embedded_jpeg, embedded_jpeg_range};
use crate::picture::{
    decoded_view, encode_png, fits_within, image_load_failure, is_png_stream, png_outcome,
    png_size, resized_view, Picture, PictureView, ScaleFilter,
};
use crate::raw::RawThumbnail;
use crate::text::{concat2, concat3};
use crate::thumbs::{areas_fit, best_among, best_thumbnail, lemma_best_among_bounds};

verus! {

/// The text of an `ImageError::Decoding` made by `DecodingError::new` with
/// an unknown format and the message `text`.
///
/// Trusted: the text is as the crate's `Display` implementations write it.
#[verifier::external_body]
fn decoding_error_text(text: &str) -> (r: String)
    ensures
        r@ == "Format error decoding `Unknown`: "@ + text@,
{
    image::ImageError::Decoding(
        image::error::DecodingError::new(image::error::ImageFormatHint::Unknown, text.to_string()),
    ).to_string()
}

/// The error text reported when a file has no embedded JPEG preview.
pub open spec fn no_preview_text() -> Seq<char> {
    "Format error decoding `Unknown`: "@ + "No embedded JPEG preview"@
}

/// Why neither the file nor its embedded JPEG preview decodes; `None` when
/// one of them does (the file itself is tried first).
pub open spec fn decode_failure(bytes: Seq<u8>) -> Option<Seq<char>> {
    match image_load_failure(bytes) {
        None => None,
        Some(_) => match embedded_jpeg_range(bytes) {
            None => Some(no_preview_text()),
            Some(r) => image_load_failure(bytes.subrange(r.0, r.1)),
        },
    }
}

/// The bytes a preview is decoded from: the file itself when it decodes,
/// else the JPEG preview embedded in it.
pub open spec fn preview_source(bytes: Seq<u8>) -> Seq<u8> {
    match image_load_failure(bytes) {
        None => bytes,
        Some(_) => match embedded_jpeg_range(bytes) {
            Some(r) => bytes.subrange(r.0, r.1),
            None => bytes,
        },
    }
}

/// The outcome of encoding the picture `p` as PNG: its PNG bytes, or the
/// encoder's error after `prefix`.
pub open spec fn prepared(p: PictureView, prefix: Seq<char>) -> Result<Seq<u8>, Seq<char>> {
    match png_outcome(p) {
        Ok(b) => Ok(b),
        Err(m) => Err(prefix + m),
    }
}

/// A result of bytes or error text, as plain values.
pub open spec fn outcome(r: Result<Vec<u8>, String>) -> Result<Seq<u8>, Seq<char>> {
    match r {
        Ok(v) => Ok(v@),
        Err(e) => Err(e@),
    }
}

/// A result of a picture or error text, as plain values.
pub open spec fn picture_outcome(r: Result<Picture, String>) -> Result<PictureView, Seq<char>> {
    match r {
        Ok(p) => Ok(p@),
        Err(e) => Err(e@),
    }
}

/// The scaling of previews: to fit 1920 x 1080.
pub open spec fn preview_scaled(p: PictureView) -> PictureView {
    resized_view(p, 1920, 1080, ScaleFilter::Lanczos3)
}

/// Decodes the file, or else the JPEG preview embedded in it.
fn decode_with_embedded_fallback(bytes: &[u8]) -> (r: Result<Picture, String>)
    ensures
        match decode_failure(bytes@) {
            None => r matches Ok(p) && p@ == decoded_view(preview_source(bytes@)),
            Some(m) => r matches Err(e) && e@ == m,
        },
{
    match Picture::decode(bytes) {
        Ok(picture) => Ok(picture),
        Err(_) => match embedded_jpeg(bytes) {
            None => {
                proof {
                    reveal_strlit("No embedded JPEG preview");
                }
                Err(decoding_error_text("No embedded JPEG preview"))
            },
            Some(jpeg) => Picture::decode(jpeg),
        },
    }
}

/// Encodes `picture` as PNG; a failure reads "Could not prepare preview: "
/// and the encoder's error.
fn prepare_preview(picture: &Picture) -> (r: Result<Vec<u8>, String>)
    ensures
        outcome(r) == prepared(picture@, "Could not prepare preview: "@),
        r matches Ok(png) ==> is_png_stream(png@) && png_size(png@) == (
            picture@.width as int,
            picture@.height as int,
        ),
{
    match encode_png(picture) {
        Ok(png) => Ok(png),
        Err(error) => Err(concat2("Could not prepare preview: ", error.as_str())),
    }
}

/// A PNG preview of the file at `path` whose content is `bytes`: the image
/// itself, or else the JPEG preview embedded in it, scaled to fit 1920 x
/// 1080.
pub fn load(path: &str, bytes: &[u8]) -> (r: Result<Vec<u8>, String>)
    ensures
        match decode_failure(bytes@) {
            Some(m) => r matches Err(e) && e@ == "Could not decode "@ + path@ + ": "@ + m,
            None => outcome(r) == prepared(
                preview_scaled(decoded_view(preview_source(bytes@))),
                "Could not prepare preview: "@,
            ),
        },
        r matches Ok(png) ==> {
            let shown = preview_scaled(decoded_view(preview_source(bytes@)));
            &&& is_png_stream(png@)
            &&& png_size(png@) == (shown.width as int, shown.height as int)
            &&& decoded_view(preview_source(bytes@)).width >= 1 && decoded_view(
                preview_source(bytes@),
            ).height >= 1 ==> fits_within(
                decoded_view(preview_source(bytes@)).width,
                decoded_view(preview_source(bytes@)).height,
                1920,
                1080,
                shown.width,
                shown.height,
            )
        },
{
    let picture = match decode_with_embedded_fallback(bytes) {
        Ok(picture) => picture,
        Err(error) => {
            let head = concat3("Could not decode ", path, ": ");
            return Err(concat2(head.as_str(), error.as_str()));
        },
    };
    let scaled = picture.resize(1920, 1080, ScaleFilter::Lanczos3);
    prepare_preview(&scaled)
}

/// Loads previews of image files.
pub struct PreviewLoader;

impl PreviewLoader {
    /// A PNG preview of the file at `path` whose content is `bytes`: the
    /// image itself, or else the JPEG preview embedded in it, at full size.
    pub fn load(path: &str, bytes: &[u8]) -> (r: Result<Vec<u8>, String>)
        ensures
            match decode_failure(bytes@) {
                Some(m) => r matches Err(e) && e@ == "Could not decode "@ + path@ + ": "@ + m,
                None => outcome(r) == prepared(
                    decoded_view(preview_source(bytes@)),
                    "Could not prepare preview: "@,
                ),
            },
            r matches Ok(png) ==> is_png_stream(png@) && png_size(png@) == (
                decoded_view(preview_source(bytes@)).width as int,
                decoded_view(preview_source(bytes@)).height as int,
            ),
    {
        let picture = match decode_with_embedded_fallback(bytes) {
            Ok(picture) => picture,
            Err(error) => {
                let head = concat3("Could not decode ", path, ": ");
                return Err(concat2(head.as_str(), error.as_str()));
            },
        };
        prepare_preview(&picture)
    }
}

/// What reading the thumbnails of a RAW file gave.
pub enum RawExtraction {
    /// The file could not be opened as a RAW image; the text of the error.
    OpenFailed(String),
    /// The thumbnails could not be extracted; the text of the error.
    ExtractFailed(String),
    /// The thumbnails stored in the file.
    Thumbnails(Vec<RawThumbnail>),
}

/// The picture of a RAW file's best thumbnail (see `best_thumbnail`), or
/// the error text, given what reading its thumbnails gave.
pub open spec fn raw_thumbnail_outcome(extraction: RawExtraction) -> Result<PictureView, Seq<char>> {
    match extraction {
        RawExtraction::OpenFailed(err) => Err("Could not open RAW image: "@ + err@),
        RawExtraction::ExtractFailed(err) => Err("Could not extract thumbnail: "@ + err@),
        RawExtraction::Thumbnails(thumbs) => if thumbs@.len() == 0 {
            Err("No thumbnails in image"@)
        } else {
            let best = thumbs@[best_among(thumbs@, thumbs@.len() as int)];
            match image_load_failure(best.data@) {
                None => Ok(decoded_view(best.data@)),
                Some(m) => Err("Thumbnail format not supported: "@ + m),
            }
        },
    }
}

/// Decodes the file directly; `None` when it is not an image the decoder
/// reads (a RAW file, say).
pub fn decode_image(bytes: &[u8]) -> (r: Option<Picture>)
    ensures
        match image_load_failure(bytes@) {
            None => r matches Some(p) && p@ == decoded_view(bytes@),
            Some(_) => r is None,
        },
{
    match Picture::decode(bytes) {
        Ok(picture) => Some(picture),
        Err(_) => None,
    }
}

/// The picture of the best thumbnail of a RAW file (see `best_thumbnail`),
/// given what reading its thumbnails gave.
pub fn decode_raw_thumbnail(extraction: &RawExtraction) -> (r: Result<Picture, String>)
    requires
        extraction matches RawExtraction::Thumbnails(t) ==> areas_fit(t@),
    ensures
        picture_outcome(r) == raw_thumbnail_outcome(*extraction),
{
    match extraction {
        RawExtraction::OpenFailed(err) => Err(concat2("Could not open RAW image: ", err.as_str())),
        RawExtraction::ExtractFailed(err) => Err(
            concat2("Could not extract thumbnail: ", err.as_str()),
        ),
        RawExtraction::Thumbnails(thumbs) => match best_thumbnail(thumbs) {
            None => Err(String::from_str("No thumbnails in image")),
            Some(i) => {
                proof {
                    lemma_best_among_bounds(thumbs@, thumbs@.len() as int);
                }
                let data = thumbs[i].data.as_slice();
                assert(data@ == thumbs@[best_among(thumbs@, thumbs@.len() as int)].data@);
                match Picture::decode(data) {
                    Ok(picture) => Ok(picture),
                    Err(error) => Err(concat2("Thumbnail format not supported: ", error.as_str())),
                }
            },
        },
    }
}

/// The PNG preview made of a decoded picture: scaled to fit 1920 x 1080.
pub fn finish_preview(picture: &Picture) -> (r: Result<Vec<u8>, String>)
    ensures
        outcome(r) == prepared(preview_scaled(picture@), "Could not prepare preview: "@),
        r matches Ok(png) ==> {
            &&& is_png_stream(png@)
            &&& png_size(png@) == (
                preview_scaled(picture@).width as int,
                preview_scaled(picture@).height as int,
            )
            &&& picture@.width >= 1 && picture@.height >= 1 ==> fits_within(
                picture@.width,
                picture@.height,
                1920,
                1080,
                preview_scaled(picture@).width,
                preview_scaled(picture@).height,
            )
        },
{
    let scaled = picture.resize(1920, 1080, ScaleFilter::Lanczos3);
    prepare_preview(&scaled)
}

/// The PNG preview of a file that may be a RAW file, whose content is
/// `bytes`: the image itself when it decodes, else the best thumbnail
/// stored in it (`extraction` is what reading its thumbnails gave), scaled
/// to fit 1920 x 1080.
pub fn raw_preview(bytes: &[u8], extraction: &RawExtraction) -> (r: Result<Vec<u8>, String>)
    requires
        extraction matches RawExtraction::Thumbnails(t) ==> areas_fit(t@),
    ensures
        ({
            let source = match image_load_failure(bytes@) {
                None => Ok(decoded_view(bytes@)),
                Some(_) => raw_thumbnail_outcome(*extraction),
            };
            match source {
                Ok(p) => outcome(r) == prepared(preview_scaled(p), "Could not prepare preview: "@)
                    && (r matches Ok(png) ==> is_png_stream(png@) && png_size(png@) == (
                    preview_scaled(p).width as int,
                    preview_scaled(p).height as int,
                )),
                Err(e) => r matches Err(m) && m@ == e,
            }
        }),
{
    let picture = match decode_image(bytes) {
        Some(picture) => picture,
        None => match decode_raw_thumbnail(extraction) {
            Ok(picture) => picture,
            Err(error) => {
                return Err(error);
            },
        },
    };
    finish_preview(&picture)
}

} // verus!
