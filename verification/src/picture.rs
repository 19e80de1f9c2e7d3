//! Decoded images. A `Picture` holds an image of the `image` crate together
//! with, as plain values, its size and how it was made: the encoded bytes it
//! was decoded from and the scalings applied since. Only this module makes
//! pictures, so that the recorded size and history are always those of the
//! image held.
use vstd::prelude::*;
use image::DynamicImage;

verus! {

#[verifier::external_type_specification]
#[verifier::external_body]
pub struct ExDynamicImage(image::DynamicImage);

/// The scaling filters used.
#[derive(Clone, Copy, PartialEq, Eq, Structural)]
pub enum ScaleFilter {
    Lanczos3,
    CatmullRom,
}

/// What a picture is: the bytes it was decoded from, the scalings
/// `(width, height, filter)` applied to it in order, and its size.
pub struct PictureView {
    pub source: Seq<u8>,
    pub steps: Seq<(u32, u32, ScaleFilter)>,
    pub width: u32,
    pub height: u32,
}

/// What `image::load_from_memory` reports for `bytes`: `None` when it
/// decodes them, otherwise the text of its error.
pub uninterp spec fn image_load_failure(bytes: Seq<u8>) -> Option<Seq<char>>;

/// The width and height of the image that `image::load_from_memory` decodes
/// from `bytes`.
pub uninterp spec fn decoded_size(bytes: Seq<u8>) -> (u32, u32);

/// The size `DynamicImage::resize` gives an image of `width` x `height`
/// scaled to fit into `nwidth` x `nheight`.
pub uninterp spec fn resized_size(width: u32, height: u32, nwidth: u32, nheight: u32) -> (u32, u32);

/// What `DynamicImage::write_to` with the PNG format gives for the picture
/// `p`: the PNG bytes, or the text of the error.
pub uninterp spec fn png_outcome(p: PictureView) -> Result<Seq<u8>, Seq<char>>;

/// The picture decoded from `bytes`.
pub open spec fn decoded_view(bytes: Seq<u8>) -> PictureView {
    PictureView {
        source: bytes,
        steps: Seq::empty(),
        width: decoded_size(bytes).0,
        height: decoded_size(bytes).1,
    }
}

/// The picture `p` scaled to fit into `nwidth` x `nheight` with `filter`.
pub open spec fn resized_view(p: PictureView, nwidth: u32, nheight: u32, filter: ScaleFilter) -> PictureView {
    PictureView {
        source: p.source,
        steps: p.steps.push((nwidth, nheight, filter)),
        width: resized_size(p.width, p.height, nwidth, nheight).0,
        height: resized_size(p.width, p.height, nwidth, nheight).1,
    }
}

/// The size of a `width` x `height` image scaled to fit `nwidth` x
/// `nheight` (`w`, `h`) keeps within the bounds, reaches one of them, and
/// keeps the aspect ratio up to the rounding of one side to whole pixels.
/// Where all four sizes are below 65536 the rounding is to the nearest
/// pixel: the rounded side is off by at most half a pixel, unless it was
/// raised to the least size of one pixel.
pub open spec fn fits_within(width: u32, height: u32, nwidth: u32, nheight: u32, w: u32, h: u32) -> bool {
    let larger = if width >= height {
        width as int
    } else {
        height as int
    };
    let skew = w * height - h * width;
    &&& 1 <= w <= nwidth
    &&& 1 <= h <= nheight
    &&& (w == nwidth || h == nheight)
    &&& -larger <= skew <= larger
    &&& width < 65536 && height < 65536 && nwidth < 65536 && nheight < 65536 ==> (w == 1 || h == 1
        || -larger <= 2 * skew <= larger)
}

/// The first bytes of every PNG stream: the PNG signature, then the length
/// (13) and type of the `IHDR` chunk that must come first.
pub open spec fn png_header() -> Seq<u8> {
    seq![137u8, 80u8, 78u8, 71u8, 13u8, 10u8, 26u8, 10u8, 0u8, 0u8, 0u8, 13u8, 73u8, 72u8, 68u8, 82u8]
}

/// A big-endian 32-bit number at position `i` of `b`.
pub open spec fn be32(b: Seq<u8>, i: int) -> int {
    b[i] * 16777216 + b[i + 1] * 65536 + b[i + 2] * 256 + b[i + 3]
}

/// `b` begins as a PNG stream does: signature and a complete `IHDR` chunk
/// (length, type, 13 bytes of data, checksum).
pub open spec fn is_png_stream(b: Seq<u8>) -> bool {
    b.len() >= 33 && b.subrange(0, 16) == png_header()
}

/// The width and height a PNG stream declares in its `IHDR` chunk.
pub open spec fn png_size(b: Seq<u8>) -> (int, int) {
    (be32(b, 16), be32(b, 20))
}

/// A decoded image: the image itself and, as plain values, what it is.
pub struct Picture {
    image: DynamicImage,
    width: u32,
    height: u32,
    source: Ghost<Seq<u8>>,
    steps: Ghost<Seq<(u32, u32, ScaleFilter)>>,
}

impl View for Picture {
    type V = PictureView;

    closed spec fn view(&self) -> PictureView {
        PictureView {
            source: self.source@,
            steps: self.steps@,
            width: self.width,
            height: self.height,
        }
    }
}

/// `image::load_from_memory`: decodes an image, guessing its format; the
/// image and its width and height.
///
/// Trusted: the outcome is the one named `image_load_failure`, and the size
/// of a decoded image is the one named `decoded_size`.
#[verifier::external_body]
fn load_from_memory(bytes: &[u8]) -> (r: Result<(DynamicImage, u32, u32), String>)
    ensures
        match image_load_failure(bytes@) {
            None => r matches Ok(t) && (t.1, t.2) == decoded_size(bytes@),
            Some(m) => r matches Err(e) && e@ == m,
        },
{
    match image::load_from_memory(bytes) {
        Ok(image) => {
            let (width, height) = (image.width(), image.height());
            Ok((image, width, height))
        },
        Err(error) => Err(error.to_string()),
    }
}

/// `DynamicImage::resize`: scales the picture's image to fit into `width` x
/// `height`, keeping its aspect ratio; the image and its width and height.
///
/// Trusted: the size is the one named `resized_size`. As the crate documents
/// (the image is scaled to the largest size that fits, aspect ratio kept,
/// each side rounded to whole pixels and at least one), for a picture and
/// bounds that are not empty it fits within the bounds, reaches one of them
/// and keeps the aspect ratio up to rounding (`resize_dimensions` rounds
/// the scaled side to the nearest pixel; below 65536 pixels a side, the
/// floating-point error of the ratio cannot move that rounding past half a
/// pixel); asked for its own size, the image is kept.
#[verifier::external_body]
fn resize_image(p: &Picture, width: u32, height: u32, filter: ScaleFilter) -> (r: (DynamicImage, u32, u32))
    ensures
        (r.1, r.2) == resized_size(p@.width, p@.height, width, height),
        p@.width >= 1 && p@.height >= 1 && width >= 1 && height >= 1 ==> fits_within(
            p@.width,
            p@.height,
            width,
            height,
            r.1,
            r.2,
        ),
        (width, height) == (p@.width, p@.height) ==> (r.1, r.2) == (width, height),
{
    let filter = match filter {
        ScaleFilter::Lanczos3 => image::imageops::FilterType::Lanczos3,
        ScaleFilter::CatmullRom => image::imageops::FilterType::CatmullRom,
    };
    let image = p.image.resize(width, height, filter);
    let (w, h) = (image.width(), image.height());
    (image, w, h)
}

/// `DynamicImage::write_to` with the PNG format, into a byte buffer.
///
/// Trusted: the outcome is the one named `png_outcome`. On success the bytes
/// begin with the PNG signature and the `IHDR` chunk, which the `png`
/// encoder writes first, declaring the image's width and height. When
/// encoding fails is not stated (for one, images of 32-bit float samples
/// are refused).
#[verifier::external_body]
pub(crate) fn encode_png(p: &Picture) -> (r: Result<Vec<u8>, String>)
    ensures
        match png_outcome(p@) {
            Ok(b) => r matches Ok(v) && v@ == b,
            Err(m) => r matches Err(e) && e@ == m,
        },
        r matches Ok(v) ==> is_png_stream(v@) && png_size(v@) == (p@.width as int, p@.height as int),
{
    let mut png = std::io::Cursor::new(Vec::new());
    p.image.write_to(&mut png, image::ImageFormat::Png).map_err(|error| error.to_string())?;
    Ok(png.into_inner())
}

impl Picture {
    /// Decodes `bytes`.
    pub fn decode(bytes: &[u8]) -> (r: Result<Picture, String>)
        ensures
            match image_load_failure(bytes@) {
                None => r matches Ok(p) && p@ == decoded_view(bytes@),
                Some(m) => r matches Err(e) && e@ == m,
            },
    {
        match load_from_memory(bytes) {
            Ok((image, width, height)) => Ok(
                Picture {
                    image,
                    width,
                    height,
                    source: Ghost(bytes@),
                    steps: Ghost(Seq::empty()),
                },
            ),
            Err(error) => Err(error),
        }
    }

    /// The picture scaled to fit into `width` x `height` with `filter`.
    pub fn resize(&self, width: u32, height: u32, filter: ScaleFilter) -> (r: Picture)
        ensures
            r@ == resized_view(self@, width, height, filter),
            self@.width >= 1 && self@.height >= 1 && width >= 1 && height >= 1 ==> fits_within(
                self@.width,
                self@.height,
                width,
                height,
                r@.width,
                r@.height,
            ),
    {
        let (image, w, h) = resize_image(self, width, height, filter);
        Picture {
            image,
            width: w,
            height: h,
            source: Ghost(self.source@),
            steps: Ghost(self.steps@.push((width, height, filter))),
        }
    }

    /// The picture's width.
    pub fn width(&self) -> (r: u32)
        ensures
            r == self@.width,
    {
        self.width
    }

    /// The picture's height.
    pub fn height(&self) -> (r: u32)
        ensures
            r == self@.height,
    {
        self.height
    }
}

} // verus!
