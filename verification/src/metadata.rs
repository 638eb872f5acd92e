//! Carries EXIF across an image conversion.
//!
//! ffmpeg does not write EXIF when it encodes a still, so the block is read
//! from the source (`kamadak-exif` reads HEIF/JPEG/PNG/WebP/TIFF containers)
//! and spliced into the converted file (`img-parts` rewrites JPEG/PNG/WebP
//! containers without touching the pixels).
//!
//! A photo without readable EXIF, or whose target container cannot hold it,
//! is still a valid conversion. Once an EXIF block has been found, however,
//! a rewrite failure is reported so keeping metadata never succeeds
//! deceptively.
use vstd::prelude::*;
use crate::text::{chars_of, push_str, string_of};
use crate::path_text::{lower_extension_of, lower_extension_chars, with_extension, with_extension_chars};
use crate::media::eq_lit;
use crate::image_container::{
    encode_with_exif, exif_present, exif_spliced, image_format_handled, image_has_exif,
    image_parse_error, jpeg_segment_count, jpeg_segments, parse_image,
};

verus! {

/// Output formats whose container has somewhere to put an EXIF block.
/// AVIF is absent: it is ISOBMFF, which `img-parts` does not rewrite.
pub open spec fn spec_can_carry_exif(extension: Seq<char>) -> bool {
    extension == "jpg"@ || extension == "jpeg"@ || extension == "png"@ || extension == "webp"@
}

pub fn can_carry_exif(extension: &str) -> (r: bool)
    ensures
        r == spec_can_carry_exif(extension@),
{
    let e = chars_of(extension);
    eq_lit(e.as_slice(), "jpg") || eq_lit(e.as_slice(), "jpeg") || eq_lit(e.as_slice(), "png")
        || eq_lit(e.as_slice(), "webp")
}

/// The TIFF block holding the EXIF of a file's bytes, as `kamadak-exif`
/// finds it in whatever container the bytes are; `None` when it reads none.
pub uninterp spec fn exif_tiff_block(data: Seq<u8>) -> Option<Seq<u8>>;

pub open spec fn opt_bytes(o: Option<Vec<u8>>) -> Option<Seq<u8>> {
    match o {
        Some(v) => Some(v@),
        None => None,
    }
}

/// Calls `exif::Reader::new().read_from_container` on the bytes and copies
/// `Exif::buf`; a read error gives `None`. The block is named, not
/// described: the container formats are `kamadak-exif`'s.
#[verifier::external_body]
fn exif_block(data: &[u8]) -> (r: Option<Vec<u8>>)
    ensures
        opt_bytes(r) == exif_tiff_block(data@),
{
    let mut cursor = std::io::Cursor::new(data);
    match exif::Reader::new().read_from_container(&mut cursor) {
        Ok(exif) => Some(exif.buf().to_vec()),
        Err(_) => None,
    }
}

/// The source's EXIF block, when it has a non-empty one.
pub fn read_exif_blob(source: &[u8]) -> (r: Option<Vec<u8>>)
    ensures
        opt_bytes(r) == match exif_tiff_block(source@) {
            Some(b) => if b.len() > 0 {
                Some(b)
            } else {
                None
            },
            None => None,
        },
{
    match exif_block(source) {
        Some(b) => if b.len() > 0 {
            Some(b)
        } else {
            None
        },
        None => None,
    }
}


/// Whether a container is given a spliced EXIF segment: a JPEG only when
/// it has at least three segments (a shorter one is left alone), any other
/// container always. `segments` is the JPEG's segment count, `None` for
/// other containers.
pub open spec fn holds_a_segment(segments: Option<usize>) -> bool {
    match segments {
        Some(n) => n >= 3,
        None => true,
    }
}

pub fn can_hold_a_segment(segments: Option<usize>) -> (r: bool)
    ensures
        r == holds_a_segment(segments),
{
    match segments {
        Some(n) => n >= 3,
        None => true,
    }
}

/// Whether the block goes in: never over what the encoder itself wrote,
/// and only where the container can take it.
pub open spec fn spec_should_splice(has_exif: bool, segments: Option<usize>) -> bool {
    !has_exif && holds_a_segment(segments)
}

pub fn should_splice(has_exif: bool, segments: Option<usize>) -> (r: bool)
    ensures
        r == spec_should_splice(has_exif, segments),
{
    !has_exif && can_hold_a_segment(segments)
}

/// The converted file with `blob` as its EXIF, when it should get it:
/// `Ok(None)` for a format `img-parts` does not handle, a file that already
/// has EXIF or a JPEG too short to splice into; an error only when the
/// file cannot be parsed.
pub fn splice_exif(target: &[u8], blob: &[u8]) -> (r: Result<Option<Vec<u8>>, String>)
    ensures
        image_parse_error(target@) is Some ==> (r matches Err(e) && e@ == "Cannot parse the converted file: "@
            + image_parse_error(target@).unwrap()),
        image_parse_error(target@) is None && !image_format_handled(target@) ==> r matches Ok(None),
        image_parse_error(target@) is None && image_format_handled(target@) ==> match r {
            Ok(None) => !spec_should_splice(exif_present(target@), jpeg_segments(target@)),
            Ok(Some(b)) => spec_should_splice(exif_present(target@), jpeg_segments(target@))
                && b@ == exif_spliced(target@, blob@),
            Err(_) => false,
        },
{
    let image = match parse_image(target) {
        Ok(Some(image)) => image,
        Ok(None) => {
            return Ok(None);
        },
        Err(e) => {
            let mut m = chars_of("Cannot parse the converted file: ");
            push_str(&mut m, e.as_str());
            return Err(string_of(m.as_slice()));
        },
    };
    if !should_splice(image_has_exif(&image), jpeg_segment_count(&image)) {
        return Ok(None);
    }
    Ok(Some(encode_with_exif(image, blob)))
}

/// The EXIF block to carry from a source of bytes `source` to the converted
/// file at `target_path`: none when the target's container cannot hold one
/// or the source has none.
pub fn exif_to_copy(target_path: &str, source: &[u8]) -> (r: Option<Vec<u8>>)
    ensures
        !spec_can_carry_exif(lower_extension_of(target_path@)) ==> r is None,
        spec_can_carry_exif(lower_extension_of(target_path@)) ==> opt_bytes(r) == match exif_tiff_block(source@) {
            Some(b) => if b.len() > 0 {
                Some(b)
            } else {
                None
            },
            None => None,
        },
{
    let t = chars_of(target_path);
    let e = lower_extension_chars(t.as_slice());
    if !can_carry_exif(string_of(e.as_slice()).as_str()) {
        return None;
    }
    read_exif_blob(source)
}

/// Where the rewritten file is staged before it is renamed over the
/// target: beside it, with `.qmo-exif` after its (lower-case) extension.
pub fn exif_staging_path(target: &str) -> (r: String)
    ensures
        r@ == with_extension(target@, lower_extension_of(target@) + ".qmo-exif"@),
{
    let t = chars_of(target);
    let mut e = lower_extension_chars(t.as_slice());
    push_str(&mut e, ".qmo-exif");
    let p = with_extension_chars(t.as_slice(), e.as_slice());
    string_of(p.as_slice())
}

/// The text `kamadak-exif` displays for the `DateTimeOriginal` field of the
/// primary image in a file's bytes; `None` when it reads no EXIF or the
/// field is absent.
pub uninterp spec fn exif_date_text(data: Seq<u8>) -> Option<Seq<char>>;

/// The `PixelXDimension` and `PixelYDimension` fields of the primary image
/// in a file's bytes, as `kamadak-exif` reads them as unsigned integers.
pub uninterp spec fn exif_pixel_dimensions(data: Seq<u8>) -> (Option<u32>, Option<u32>);

/// Reads the EXIF of the bytes with `exif::Reader::read_from_container` and
/// shows the primary `DateTimeOriginal` field with `Field::display_value`.
/// The text is named, not described: its format is `kamadak-exif`'s.
#[verifier::external_body]
fn exif_date_original(data: &[u8]) -> (r: Option<String>)
    ensures
        crate::media::opt_view(r) == exif_date_text(data@),
{
    let mut cursor = std::io::Cursor::new(data);
    let exif = match exif::Reader::new().read_from_container(&mut cursor) {
        Ok(e) => e,
        Err(_) => return None,
    };
    match exif.get_field(exif::Tag::DateTimeOriginal, exif::In::PRIMARY) {
        Some(field) => Some(field.display_value().to_string()),
        None => None,
    }
}

/// Reads the EXIF of the bytes with `exif::Reader::read_from_container` and
/// takes the first unsigned integer (`Value::get_uint(0)`) of the primary
/// `PixelXDimension` and `PixelYDimension` fields.
#[verifier::external_body]
fn exif_dimensions(data: &[u8]) -> (r: (Option<u32>, Option<u32>))
    ensures
        r == exif_pixel_dimensions(data@),
{
    let mut cursor = std::io::Cursor::new(data);
    let exif = match exif::Reader::new().read_from_container(&mut cursor) {
        Ok(e) => e,
        Err(_) => return (None, None),
    };
    let width = match exif.get_field(exif::Tag::PixelXDimension, exif::In::PRIMARY) {
        Some(field) => field.value.get_uint(0),
        None => None,
    };
    let height = match exif.get_field(exif::Tag::PixelYDimension, exif::In::PRIMARY) {
        Some(field) => field.value.get_uint(0),
        None => None,
    };
    (width, height)
}

/// What the EXIF of a photo tells about it.
#[derive(Debug, Clone)]
pub struct ExifFields {
    pub exif_date: Option<String>,
    pub width: Option<u32>,
    pub height: Option<u32>,
}

/// The capture date and pixel size recorded in a photo's bytes.
pub fn read_exif_fields(data: &[u8]) -> (r: ExifFields)
    ensures
        crate::media::opt_view(r.exif_date) == exif_date_text(data@),
        (r.width, r.height) == exif_pixel_dimensions(data@),
{
    let exif_date = exif_date_original(data);
    let (width, height) = exif_dimensions(data);
    ExifFields { exif_date, width, height }
}

/// The capture date recorded in a photo's bytes.
pub fn read_exif_date_only(data: &[u8]) -> (r: Option<String>)
    ensures
        crate::media::opt_view(r) == exif_date_text(data@),
{
    exif_date_original(data)
}

} // verus!
