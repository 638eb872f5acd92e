//! The image containers `img-parts` rewrites (JPEG, PNG, WebP), seen
//! through the bytes they were read from.
//!
//! A parsed image is opaque here, so each one carries the bytes it was
//! parsed from, and what `img-parts` computes of it is named as a function
//! of those bytes. Only `parse_image` makes a `ParsedImage`, so those bytes
//! are always the ones the image came from.
use vstd::prelude::*;
use img_parts::{Bytes, DynImage, ImageEXIF};

verus! {

#[verifier::external_type_specification]
#[verifier::external_body]
pub struct ExDynImage(DynImage);

/// An image `img-parts` parsed, with the bytes it was parsed from.
pub struct ParsedImage {
    image: DynImage,
    source: Ghost<Seq<u8>>,
}

impl ParsedImage {
    /// The bytes this image was parsed from.
    pub closed spec fn bytes(self) -> Seq<u8> {
        self.source@
    }
}

/// The text of the error `img_parts::DynImage::from_bytes` gives for these
/// bytes (a corrupted or truncated file), `None` when it gives none.
pub uninterp spec fn image_parse_error(data: Seq<u8>) -> Option<Seq<char>>;

/// Whether `img_parts::DynImage::from_bytes` recognises the bytes as one of
/// its formats (JPEG, PNG, WebP).
pub uninterp spec fn image_format_handled(data: Seq<u8>) -> bool;

/// Whether the image `img-parts` parses from these bytes carries an EXIF
/// block (`ImageEXIF::exif` gives `Some`).
pub uninterp spec fn exif_present(data: Seq<u8>) -> bool;

/// The number of segments of the JPEG `img-parts` parses from these bytes
/// (`Jpeg::segments`), `None` when they hold a PNG or a WebP.
pub uninterp spec fn jpeg_segments(data: Seq<u8>) -> Option<usize>;

/// The bytes `img-parts` encodes for the image parsed from `data` once
/// `ImageEXIF::set_exif` gave it `blob` as its EXIF.
pub uninterp spec fn exif_spliced(data: Seq<u8>, blob: Seq<u8>) -> Seq<u8>;

/// Calls `img_parts::DynImage::from_bytes`: the error's text for a
/// corrupted or truncated file, `Ok(None)` for a format it does not handle,
/// and otherwise the image together with the bytes it was parsed from.
#[verifier::external_body]
pub fn parse_image(data: &[u8]) -> (r: Result<Option<ParsedImage>, String>)
    ensures
        match r {
            Err(e) => image_parse_error(data@) == Some(e@),
            Ok(None) => image_parse_error(data@) is None && !image_format_handled(data@),
            Ok(Some(p)) => image_parse_error(data@) is None && image_format_handled(data@)
                && p.bytes() == data@,
        },
{
    match DynImage::from_bytes(Bytes::copy_from_slice(data)) {
        Ok(Some(image)) => Ok(Some(ParsedImage { image, source: Ghost(data@) })),
        Ok(None) => Ok(None),
        Err(e) => Err(e.to_string()),
    }
}

/// Calls `ImageEXIF::exif` and tells whether the image carries a block.
#[verifier::external_body]
pub fn image_has_exif(image: &ParsedImage) -> (r: bool)
    ensures
        r == exif_present(image.bytes()),
{
    image.image.exif().is_some()
}

/// The number of segments of a JPEG (`Jpeg::segments`); `None` for PNG and
/// WebP.
#[verifier::external_body]
pub fn jpeg_segment_count(image: &ParsedImage) -> (r: Option<usize>)
    ensures
        r == jpeg_segments(image.bytes()),
{
    match &image.image {
        DynImage::Jpeg(jpeg) => Some(jpeg.segments().len()),
        DynImage::Png(_) => None,
        DynImage::WebP(_) => None,
    }
}

/// Calls `ImageEXIF::set_exif` with the block, then encodes the image into
/// one piece of memory with `ImageEncoder::bytes`, which has no error.
#[verifier::external_body]
pub fn encode_with_exif(image: ParsedImage, blob: &[u8]) -> (r: Vec<u8>)
    ensures
        r@ == exif_spliced(image.bytes(), blob@),
{
    let mut image = image.image;
    image.set_exif(Some(Bytes::copy_from_slice(blob)));
    image.encoder().bytes().to_vec()
}

} // verus!
