//! Pure helpers that turn `BatchSettings` into ffmpeg arguments and output
//! paths.
use vstd::prelude::*;
use crate::text::{
    chars_of, decimal, decimal_string, push_all, push_lit, push_str, push_string, string_of,
    trim, trimmed, views,
};
use crate::path_text::{
    extension_chars, file_name, file_stem, file_stem_chars, file_name_chars, join, join_chars,
    lower_extension_chars, lower_extension_of, parent, parent_chars,
};
use crate::media::{eq_lit, image_ext, is_image_ext_chars, is_video_ext_chars, video_ext};
use crate::text::lower_text;
use super::{BatchMediaType, BatchSettings, ConflictPolicy, ImageFormat, ImageSettings, VideoCodec};

verus! {

/// Lower-cased extension of `path`, empty when it has none.
pub fn lower_extension(path: &str) -> (r: String)
    ensures
        r@ == lower_extension_of(path@),
{
    let p = chars_of(path);
    let e = lower_extension_chars(p.as_slice());
    string_of(e.as_slice())
}

/// Photo or video, by extension; `None` for anything else.
pub open spec fn spec_classify(p: Seq<char>) -> Option<BatchMediaType> {
    let e = lower_extension_of(p);
    if e.len() == 0 || !(image_ext(lower_text(e)) || video_ext(lower_text(e))) {
        None
    } else if video_ext(lower_text(e)) {
        Some(BatchMediaType::Video)
    } else {
        Some(BatchMediaType::Image)
    }
}

pub fn classify_path(path: &str) -> (r: Option<BatchMediaType>)
    ensures
        r == spec_classify(path@),
{
    let ext = lower_extension(path);
    let e = chars_of(ext.as_str());
    if e.len() == 0 || !crate::media::is_media_extension(ext.as_str()) {
        return None;
    }
    if crate::media::is_video_extension(ext.as_str()) {
        Some(BatchMediaType::Video)
    } else {
        Some(BatchMediaType::Image)
    }
}

pub open spec fn keep_format_error(src_ext: Seq<char>) -> Seq<char> {
    "Cannot write ."@ + src_ext + " back out \u{2014} pick a target format (JPEG/WebP/AVIF/PNG)."@
}

/// Extension of the converted file, without the dot.
pub open spec fn spec_output_extension(
    media: BatchMediaType,
    settings: BatchSettings,
    source: Seq<char>,
) -> Result<Seq<char>, Seq<char>> {
    let src_ext = lower_extension_of(source);
    match media {
        BatchMediaType::Video => if settings.video.codec == VideoCodec::Copy && (src_ext
            == "mkv"@ || src_ext == "avi"@) {
            Ok(src_ext)
        } else {
            Ok("mp4"@)
        },
        BatchMediaType::Image => match settings.image.format {
            ImageFormat::Jpeg => Ok("jpg"@),
            ImageFormat::Webp => Ok("webp"@),
            ImageFormat::Avif => Ok("avif"@),
            ImageFormat::Png => Ok("png"@),
            ImageFormat::Keep => if src_ext == "heic"@ || src_ext == "heif"@ {
                Err(keep_format_error(src_ext))
            } else if src_ext == "jpeg"@ {
                Ok("jpg"@)
            } else {
                Ok(src_ext)
            },
        },
    }
}

pub open spec fn result_view(r: Result<String, String>) -> Result<Seq<char>, Seq<char>> {
    match r {
        Ok(s) => Ok(s@),
        Err(e) => Err(e@),
    }
}

pub fn output_extension(media: BatchMediaType, settings: &BatchSettings, source: &str) -> (r: Result<
    String,
    String,
>)
    ensures
        result_view(r) == spec_output_extension(media, *settings, source@),
{
    let src_ext = lower_extension(source);
    let e = chars_of(src_ext.as_str());
    match media {
        BatchMediaType::Video => {
            if settings.video.codec == VideoCodec::Copy && (eq_lit(e.as_slice(), "mkv") || eq_lit(
                e.as_slice(),
                "avi",
            )) {
                Ok(src_ext)
            } else {
                Ok(String::from_str("mp4"))
            }
        },
        BatchMediaType::Image => match settings.image.format {
            ImageFormat::Jpeg => Ok(String::from_str("jpg")),
            ImageFormat::Webp => Ok(String::from_str("webp")),
            ImageFormat::Avif => Ok(String::from_str("avif")),
            ImageFormat::Png => Ok(String::from_str("png")),
            ImageFormat::Keep => {
                if eq_lit(e.as_slice(), "heic") || eq_lit(e.as_slice(), "heif") {
                    let mut m = chars_of("Cannot write .");
                    push_all(&mut m, e.as_slice());
                    push_str(&mut m, " back out \u{2014} pick a target format (JPEG/WebP/AVIF/PNG).");
                    Err(string_of(m.as_slice()))
                } else if eq_lit(e.as_slice(), "jpeg") {
                    Ok(String::from_str("jpg"))
                } else {
                    Ok(src_ext)
                }
            },
        },
    }
}

pub open spec fn clamp_quality(q: u8) -> int {
    if q < 1 {
        1
    } else if q > 100 {
        100
    } else {
        q as int
    }
}

/// The mjpeg qscale (2 best … 31 worst) for a UI quality, clamped to
/// 1..=100: the map 100→2, 50→10, 1→31, linear between those points and
/// rounded to the nearest step.
pub open spec fn spec_jpeg_qscale(quality: u8) -> int {
    let q = clamp_quality(quality);
    if q >= 50 {
        10 - ((q - 50) * 16 + 50) / 100
    } else {
        31 - ((q - 1) * 42 + 49) / 98
    }
}

/// UI quality (1 worst … 100 best) mapped to ffmpeg's mjpeg qscale.
pub fn jpeg_qscale(quality: u8) -> (r: u32)
    ensures
        r == spec_jpeg_qscale(quality),
        2 <= r <= 31,
{
    let q: u32 = if quality < 1 {
        1
    } else if quality > 100 {
        100
    } else {
        quality as u32
    };
    if q >= 50 {
        assert(((q - 50) * 16 + 50) / 100 <= 8) by (nonlinear_arith)
            requires
                50 <= q <= 100,
        ;
        10 - ((q - 50) * 16 + 50) / 100
    } else {
        assert(((q - 1) * 42 + 49) / 98 <= 21) by (nonlinear_arith)
            requires
                1 <= q < 50,
        ;
        31 - ((q - 1) * 42 + 49) / 98
    }
}

/// A higher quality never gives a coarser JPEG: the qscale does not grow
/// with the quality.
pub proof fn law_jpeg_qscale_never_coarser_for_higher_quality(a: u8, b: u8)
    requires
        a <= b,
    ensures
        spec_jpeg_qscale(b) <= spec_jpeg_qscale(a),
{
    let qa = clamp_quality(a);
    let qb = clamp_quality(b);
    assert(qa <= qb);
    if qa >= 50 {
        assert(((qa - 50) * 16 + 50) / 100 <= ((qb - 50) * 16 + 50) / 100) by (nonlinear_arith)
            requires
                50 <= qa <= qb,
        ;
    } else if qb < 50 {
        assert(((qa - 1) * 42 + 49) / 98 <= ((qb - 1) * 42 + 49) / 98) by (nonlinear_arith)
            requires
                1 <= qa <= qb,
        ;
    } else {
        assert(((qa - 1) * 42 + 49) / 98 <= 21) by (nonlinear_arith)
            requires
                1 <= qa < 50,
        ;
        assert(((qb - 50) * 16 + 50) / 100 >= 0) by (nonlinear_arith)
            requires
                50 <= qb,
        ;
    }
}

/// The libaom CRF (0 best … 63 worst) nearest to `63 - quality * 63 / 100`,
/// halves rounded up, quality clamped to 1..=100.
pub open spec fn spec_avif_crf(quality: u8) -> int {
    (6300 - 63 * clamp_quality(quality) + 50) / 100
}

/// UI quality mapped to libaom's CRF.
pub fn avif_crf(quality: u8) -> (r: u32)
    ensures
        r == spec_avif_crf(quality),
        0 <= r <= 62,
        -50 < 100 * (r as int) - (6300 - 63 * clamp_quality(quality)) <= 50,
{
    let q: u32 = if quality < 1 {
        1
    } else if quality > 100 {
        100
    } else {
        quality as u32
    };
    let r = (6300 - 63 * q + 50) / 100;
    assert(-50 < 100 * (r as int) - (6300 - 63 * q) <= 50) by (nonlinear_arith)
        requires
            1 <= q <= 100,
            r == (6300 - 63 * q + 50) / 100,
    ;
    r
}

/// Clamp the long edge, keep the aspect ratio, never upscale.
pub open spec fn spec_image_scale_filter(max_edge: u32) -> Seq<char> {
    "scale='if(gt(iw,ih),min("@ + decimal(max_edge as nat) + ",iw),-2)':'if(gt(iw,ih),-2,min("@
        + decimal(max_edge as nat) + ",ih))'"@
}

pub fn image_scale_filter(max_edge: u32) -> (r: String)
    ensures
        r@ == spec_image_scale_filter(max_edge),
{
    let d = crate::text::decimal_chars(max_edge as u64);
    let mut m = chars_of("scale='if(gt(iw,ih),min(");
    push_all(&mut m, d.as_slice());
    push_str(&mut m, ",iw),-2)':'if(gt(iw,ih),-2,min(");
    push_all(&mut m, d.as_slice());
    push_str(&mut m, ",ih))'");
    assert(m@ =~= spec_image_scale_filter(max_edge));
    string_of(m.as_slice())
}

/// Format-specific encoder flags of a still image.
pub open spec fn image_codec_flags(settings: ImageSettings, out_ext: Seq<char>) -> Option<
    Seq<Seq<char>>,
> {
    if out_ext == "jpg"@ || out_ext == "jpeg"@ {
        Some(
            seq![
                "-c:v"@,
                "mjpeg"@,
                "-q:v"@,
                decimal(spec_jpeg_qscale(settings.quality) as nat),
                "-pix_fmt"@,
                "yuvj420p"@,
            ],
        )
    } else if out_ext == "webp"@ {
        Some(
            seq![
                "-c:v"@,
                "libwebp"@,
                "-quality"@,
                decimal(settings.quality as nat),
                "-compression_level"@,
                "6"@,
            ],
        )
    } else if out_ext == "avif"@ {
        Some(
            seq![
                "-c:v"@,
                "libaom-av1"@,
                "-crf"@,
                decimal(spec_avif_crf(settings.quality) as nat),
                "-still-picture"@,
                "1"@,
                "-cpu-used"@,
                "6"@,
            ],
        )
    } else if out_ext == "png"@ {
        Some(seq!["-c:v"@, "png"@, "-compression_level"@, "9"@])
    } else if out_ext == "gif"@ || out_ext == "bmp"@ || out_ext == "tif"@ || out_ext == "tiff"@ {
        Some(Seq::empty())
    } else {
        None
    }
}

/// ffmpeg arguments between the input and the output of a still image.
pub open spec fn spec_image_flags(settings: ImageSettings, out_ext: Seq<char>) -> Result<
    Seq<Seq<char>>,
    Seq<char>,
> {
    match image_codec_flags(settings, out_ext) {
        None => Err("Unsupported image output format: ."@ + out_ext),
        Some(codec) => Ok(
            seq![
                "-frames:v"@,
                "1"@,
                "-map_metadata"@,
                if settings.keep_metadata {
                    "0"@
                } else {
                    "-1"@
                },
            ] + codec + match settings.max_edge {
                Some(m) => seq!["-vf"@, spec_image_scale_filter(m)],
                None => Seq::empty(),
            },
        ),
    }
}

/// The extensions a still image can be written with.
pub open spec fn is_image_output_ext(e: Seq<char>) -> bool {
    ||| e == "jpg"@
    ||| e == "jpeg"@
    ||| e == "webp"@
    ||| e == "avif"@
    ||| e == "png"@
    ||| e == "gif"@
    ||| e == "bmp"@
    ||| e == "tif"@
    ||| e == "tiff"@
}

/// Text that cannot be the flag `-vf`.
pub open spec fn not_vf(x: Seq<char>) -> bool {
    x.len() != 3 || x[0] != '-'
}

proof fn lemma_codec_flags_not_vf(settings: ImageSettings, out_ext: Seq<char>)
    ensures
        image_codec_flags(settings, out_ext) matches Some(c) ==> forall|k: int|
            0 <= k < c.len() ==> not_vf(#[trigger] c[k]),
{
    reveal_strlit("-c:v");
    reveal_strlit("mjpeg");
    reveal_strlit("-q:v");
    reveal_strlit("-pix_fmt");
    reveal_strlit("yuvj420p");
    reveal_strlit("libwebp");
    reveal_strlit("-quality");
    reveal_strlit("-compression_level");
    reveal_strlit("6");
    reveal_strlit("libaom-av1");
    reveal_strlit("-crf");
    reveal_strlit("-still-picture");
    reveal_strlit("1");
    reveal_strlit("-cpu-used");
    reveal_strlit("png");
    reveal_strlit("9");
    crate::text::lemma_decimal_first_digit(spec_jpeg_qscale(settings.quality) as nat);
    crate::text::lemma_decimal_first_digit(settings.quality as nat);
    crate::text::lemma_decimal_first_digit(spec_avif_crf(settings.quality) as nat);
}

/// The mjpeg qscale of a quality lies in 2..=31.
proof fn lemma_jpeg_qscale_range(quality: u8)
    ensures
        2 <= spec_jpeg_qscale(quality) <= 31,
{
    let q = clamp_quality(quality);
    if q >= 50 {
        assert(0 <= ((q - 50) * 16 + 50) / 100 <= 8) by (nonlinear_arith)
            requires
                50 <= q <= 100,
        ;
    } else {
        assert(0 <= ((q - 1) * 42 + 49) / 98 <= 21) by (nonlinear_arith)
            requires
                1 <= q < 50,
        ;
    }
}

/// A JPEG is written with the mjpeg quantiser its quality maps to: the flag
/// after `-q:v` is the decimal text of `jpeg_qscale(quality)`, a number in
/// 2..=31 (2 the best), and a higher quality never gives a larger one.
pub proof fn law_jpeg_flags_carry_the_qscale(a: ImageSettings, b: ImageSettings, out_ext: Seq<char>)
    requires
        out_ext == "jpg"@ || out_ext == "jpeg"@,
        a.quality <= b.quality,
    ensures
        spec_image_flags(a, out_ext) matches Ok(v) && v.len() >= 8 && v[6] == "-q:v"@ && v[7]
            == decimal(spec_jpeg_qscale(a.quality) as nat),
        2 <= spec_jpeg_qscale(a.quality) <= 31,
        spec_jpeg_qscale(b.quality) <= spec_jpeg_qscale(a.quality),
{
    lemma_jpeg_qscale_range(a.quality);
    law_jpeg_qscale_never_coarser_for_higher_quality(a.quality, b.quality);
    let v = spec_image_flags(a, out_ext)->Ok_0;
    assert(v[6] == "-q:v"@);
    assert(v[7] == decimal(spec_jpeg_qscale(a.quality) as nat));
}

/// The still-image flags fail exactly for an extension without an encoder,
/// with the documented text. Otherwise they start with one frame and the
/// metadata choice, and hold a scale filter exactly when a longest edge is
/// set, as their last two flags.
pub proof fn law_image_flags_shape(settings: ImageSettings, out_ext: Seq<char>)
    ensures
        spec_image_flags(settings, out_ext) is Err <==> !is_image_output_ext(out_ext),
        spec_image_flags(settings, out_ext) matches Err(e) ==> e == "Unsupported image output format: ."@
            + out_ext,
        spec_image_flags(settings, out_ext) matches Ok(v) ==> {
            &&& v.take(4) == seq![
                "-frames:v"@,
                "1"@,
                "-map_metadata"@,
                if settings.keep_metadata {
                    "0"@
                } else {
                    "-1"@
                },
            ]
            &&& (v.contains("-vf"@) <==> settings.max_edge is Some)
            &&& (settings.max_edge matches Some(m) ==> v.subrange(v.len() - 2, v.len() as int)
                == seq!["-vf"@, spec_image_scale_filter(m)])
        },
{
    reveal_strlit("-vf");
    reveal_strlit("-frames:v");
    reveal_strlit("1");
    reveal_strlit("-map_metadata");
    reveal_strlit("0");
    reveal_strlit("-1");
    lemma_codec_flags_not_vf(settings, out_ext);
    if let Ok(v) = spec_image_flags(settings, out_ext) {
        let c = image_codec_flags(settings, out_ext).unwrap();
        let head = seq![
            "-frames:v"@,
            "1"@,
            "-map_metadata"@,
            if settings.keep_metadata {
                "0"@
            } else {
                "-1"@
            },
        ];
        assert(v.take(4) =~= head);
        match settings.max_edge {
            Some(m) => {
                assert(v[v.len() - 2] == "-vf"@);
                assert(v.subrange(v.len() - 2, v.len() as int) =~= seq!["-vf"@, spec_image_scale_filter(m)]);
            },
            None => {
                assert(v =~= head + c);
                assert forall|k: int| 0 <= k < v.len() implies not_vf(#[trigger] v[k]) by {
                    if k >= 4 {
                        assert(v[k] == c[k - 4]);
                    }
                }
                assert(!v.contains("-vf"@)) by {
                    if v.contains("-vf"@) {
                        let k = choose|k: int| 0 <= k < v.len() && v[k] == "-vf"@;
                        assert(not_vf(v[k]));
                    }
                }
            },
        }
    }
}

pub open spec fn flags_view(r: Result<Vec<String>, String>) -> Result<Seq<Seq<char>>, Seq<char>> {
    match r {
        Ok(v) => Ok(views(v@)),
        Err(e) => Err(e@),
    }
}

pub fn image_flags(settings: &ImageSettings, out_ext: &str) -> (r: Result<Vec<String>, String>)
    ensures
        flags_view(r) == spec_image_flags(*settings, out_ext@),
{
    let e = chars_of(out_ext);
    let mut args: Vec<String> = Vec::new();
    push_lit(&mut args, "-frames:v");
    push_lit(&mut args, "1");
    push_lit(&mut args, "-map_metadata");
    if settings.keep_metadata {
        push_lit(&mut args, "0");
    } else {
        push_lit(&mut args, "-1");
    }
    let ghost head = views(args@);
    assert(head =~= seq![
        "-frames:v"@,
        "1"@,
        "-map_metadata"@,
        if settings.keep_metadata {
            "0"@
        } else {
            "-1"@
        },
    ]);
    if eq_lit(e.as_slice(), "jpg") || eq_lit(e.as_slice(), "jpeg") {
        push_lit(&mut args, "-c:v");
        push_lit(&mut args, "mjpeg");
        push_lit(&mut args, "-q:v");
        push_string(&mut args, decimal_string(jpeg_qscale(settings.quality) as u64));
        push_lit(&mut args, "-pix_fmt");
        push_lit(&mut args, "yuvj420p");
    } else if eq_lit(e.as_slice(), "webp") {
        push_lit(&mut args, "-c:v");
        push_lit(&mut args, "libwebp");
        push_lit(&mut args, "-quality");
        push_string(&mut args, decimal_string(settings.quality as u64));
        push_lit(&mut args, "-compression_level");
        push_lit(&mut args, "6");
    } else if eq_lit(e.as_slice(), "avif") {
        push_lit(&mut args, "-c:v");
        push_lit(&mut args, "libaom-av1");
        push_lit(&mut args, "-crf");
        push_string(&mut args, decimal_string(avif_crf(settings.quality) as u64));
        push_lit(&mut args, "-still-picture");
        push_lit(&mut args, "1");
        push_lit(&mut args, "-cpu-used");
        push_lit(&mut args, "6");
    } else if eq_lit(e.as_slice(), "png") {
        push_lit(&mut args, "-c:v");
        push_lit(&mut args, "png");
        push_lit(&mut args, "-compression_level");
        push_lit(&mut args, "9");
    } else if eq_lit(e.as_slice(), "gif") || eq_lit(e.as_slice(), "bmp") || eq_lit(
        e.as_slice(),
        "tif",
    ) || eq_lit(e.as_slice(), "tiff") {
    } else {
        let mut m = chars_of("Unsupported image output format: .");
        push_all(&mut m, e.as_slice());
        return Err(string_of(m.as_slice()));
    }
    let ghost mid = views(args@);
    assert(Some(mid.subrange(head.len() as int, mid.len() as int)) == image_codec_flags(*settings, out_ext@));
    assert(mid =~= head + mid.subrange(head.len() as int, mid.len() as int));
    if let Some(max_edge) = settings.max_edge {
        push_lit(&mut args, "-vf");
        push_string(&mut args, image_scale_filter(max_edge));
    }
    let ghost tail: Seq<Seq<char>> = match settings.max_edge {
        Some(m) => seq!["-vf"@, spec_image_scale_filter(m)],
        None => Seq::empty(),
    };
    assert(views(args@) =~= mid + tail);
    Ok(args)
}

/// Stem of the source, `media` when the path has no file name.
pub open spec fn stem_or_media(source: Seq<char>) -> Seq<char> {
    if file_name(source).len() == 0 {
        "media"@
    } else {
        file_stem(source)
    }
}

/// The suffix as written, without surrounding white space.
pub open spec fn clean_suffix(suffix: Option<Seq<char>>) -> Seq<char> {
    match suffix {
        Some(s) => trim(s),
        None => Seq::empty(),
    }
}

pub open spec fn spec_output_file_name(
    source: Seq<char>,
    ext: Seq<char>,
    suffix: Option<Seq<char>>,
) -> Seq<char> {
    stem_or_media(source) + clean_suffix(suffix) + seq!['.'] + ext
}

pub open spec fn opt_view(s: Option<&str>) -> Option<Seq<char>> {
    match s {
        Some(t) => Some(t@),
        None => None,
    }
}

pub fn stem_or_media_chars(source: &[char]) -> (r: Vec<char>)
    ensures
        r@ == stem_or_media(source@),
{
    let name = file_name_chars(source);
    if name.len() == 0 {
        chars_of("media")
    } else {
        file_stem_chars(source)
    }
}

pub fn clean_suffix_chars(suffix: Option<&str>) -> (r: Vec<char>)
    ensures
        r@ == clean_suffix(opt_view(suffix)),
{
    match suffix {
        Some(s) => {
            let c = chars_of(s);
            trimmed(c.as_slice())
        },
        None => {
            let v: Vec<char> = Vec::new();
            assert(v@ =~= Seq::<char>::empty());
            v
        },
    }
}

/// Final name for a converted file, before conflict resolution.
pub fn output_file_name(source: &str, ext: &str, suffix: Option<&str>) -> (r: String)
    ensures
        r@ == spec_output_file_name(source@, ext@, opt_view(suffix)),
{
    let src = chars_of(source);
    let mut out = stem_or_media_chars(src.as_slice());
    let sfx = clean_suffix_chars(suffix);
    push_all(&mut out, sfx.as_slice());
    out.push('.');
    push_str(&mut out, ext);
    assert(out@ =~= spec_output_file_name(source@, ext@, opt_view(suffix)));
    string_of(out.as_slice())
}

/// The `n`-th alternative name, `stem<suffix> (n).ext`, inside `dest_dir`.
pub open spec fn numbered_candidate(
    source: Seq<char>,
    dest_dir: Seq<char>,
    ext: Seq<char>,
    suffix: Option<Seq<char>>,
    n: int,
) -> Seq<char> {
    join(
        dest_dir,
        stem_or_media(source) + clean_suffix(suffix) + " ("@ + decimal(n as nat) + ")."@ + ext,
    )
}

/// `occupied` answered `b` for a path whose text is `p`.
pub open spec fn answered<F: Fn(&str) -> bool>(occupied: F, p: Seq<char>, b: bool) -> bool {
    exists|x: &str| #[trigger] call_ensures(occupied, (x,), b) && x@ == p
}

/// `numbered_candidate(.., m)` was unusable for every `2 <= m < n`: it is the
/// source itself or `occupied` reported it taken.
pub open spec fn numbered_taken_below<F: Fn(&str) -> bool>(
    occupied: F,
    source: Seq<char>,
    dest_dir: Seq<char>,
    ext: Seq<char>,
    suffix: Option<Seq<char>>,
    n: int,
) -> bool {
    forall|m: int|
        #![trigger numbered_candidate(source, dest_dir, ext, suffix, m)]
        2 <= m < n ==> {
            let c = numbered_candidate(source, dest_dir, ext, suffix, m);
            c == source || answered(occupied, c, true)
        }
}

/// `p` is the plain output name of `source` in `dir`, or one of its
/// numbered alternatives.
pub open spec fn output_named_like(
    p: Seq<char>,
    source: Seq<char>,
    dir: Seq<char>,
    ext: Seq<char>,
    suffix: Option<Seq<char>>,
) -> bool {
    ||| p == join(dir, spec_output_file_name(source, ext, suffix))
    ||| exists|n: int|
        2 <= n < 1000 && p == #[trigger] numbered_candidate(source, dir, ext, suffix, n)
}

proof fn lemma_stem_or_media(source: Seq<char>)
    ensures
        stem_or_media(source).len() > 0,
        crate::path_text::no_seps(stem_or_media(source)),
{
    reveal_strlit("media");
    crate::path_text::lemma_file_name_has_no_sep(source);
    let n = file_name(source);
    crate::path_text::lemma_last_index_bounds(n, '.');
    if n.len() > 0 {
        let st = file_stem(source);
        assert forall|k: int| 0 <= k < st.len() implies !crate::path_text::is_sep(#[trigger] st[k]) by {
            assert(st[k] == n[k]);
        }
    }
}

proof fn lemma_clean_suffix(suffix: Option<Seq<char>>)
    requires
        suffix matches Some(x) ==> crate::path_text::no_seps(x),
    ensures
        crate::path_text::no_seps(clean_suffix(suffix)),
{
    if let Some(x) = suffix {
        crate::text::lemma_trim_end_bounds(x);
        let a = x.subrange(0, crate::text::trim_end_index(x));
        crate::text::lemma_trim_start_bounds(a);
        let t = clean_suffix(suffix);
        assert forall|k: int| 0 <= k < t.len() implies !crate::path_text::is_sep(#[trigger] t[k]) by {
            assert(t[k] == a[crate::text::trim_start_index(a) + k]);
            assert(a[crate::text::trim_start_index(a) + k] == x[crate::text::trim_start_index(a) + k]);
        }
    }
}

/// Every output name of a source lies in the destination folder, when the
/// extension and the suffix hold no separator: its parent is that folder,
/// read without trailing separators.
pub proof fn law_output_names_stay_in_the_folder(
    p: Seq<char>,
    source: Seq<char>,
    dir: Seq<char>,
    ext: Seq<char>,
    suffix: Option<Seq<char>>,
)
    requires
        output_named_like(p, source, dir, ext, suffix),
        crate::path_text::no_seps(ext),
        suffix matches Some(x) ==> crate::path_text::no_seps(x),
    ensures
        parent(p) == Some(crate::path_text::trim_end(dir)),
{
    reveal_strlit(" (");
    reveal_strlit(").");
    lemma_stem_or_media(source);
    lemma_clean_suffix(suffix);
    let st = stem_or_media(source);
    let sf = clean_suffix(suffix);
    if p == join(dir, spec_output_file_name(source, ext, suffix)) {
        let name = spec_output_file_name(source, ext, suffix);
        assert forall|k: int| 0 <= k < name.len() implies !crate::path_text::is_sep(#[trigger] name[k]) by {
            if k < st.len() {
                assert(name[k] == st[k]);
            } else if k < st.len() + sf.len() {
                assert(name[k] == sf[k - st.len()]);
            } else if k == st.len() + sf.len() {
            } else {
                assert(name[k] == ext[k - st.len() - sf.len() - 1]);
            }
        }
        assert(name.len() >= 2);
        crate::path_text::lemma_parent_join(dir, name);
    } else {
        let n = choose|n: int|
            2 <= n < 1000 && p == #[trigger] numbered_candidate(source, dir, ext, suffix, n);
        let d = decimal(n as nat);
        crate::text::lemma_decimal_digits_not_sep(n as nat);
        let name = st + sf + " ("@ + d + ")."@ + ext;
        assert forall|k: int| 0 <= k < name.len() implies !crate::path_text::is_sep(#[trigger] name[k]) by {
            let a = st.len() as int;
            let b = a + sf.len();
            let c = b + 2;
            let e = c + d.len();
            if k < a {
                assert(name[k] == st[k]);
            } else if k < b {
                assert(name[k] == sf[k - a]);
            } else if k < c {
            } else if k < e {
                assert(name[k] == d[k - c]);
            } else if k < e + 2 {
            } else {
                assert(name[k] == ext[k - e - 2]);
            }
        }
        assert(name.len() >= 2);
        crate::path_text::lemma_parent_join(dir, name);
    }
}

/// Where the converted file must land. `occupied` is injected so this stays pure.
///
/// Returns `Ok(None)` when the policy says to skip an existing destination.
/// Overwriting the source file is never allowed here.
pub fn resolve_output_path<F: Fn(&str) -> bool>(
    source: &str,
    dest_dir: &str,
    ext: &str,
    suffix: Option<&str>,
    policy: ConflictPolicy,
    occupied: &F,
) -> (r: Result<Option<String>, String>)
    requires
        forall|x: &str| #[trigger] call_requires(*occupied, (x,)),
    ensures
        ({
            let first = join(dest_dir@, spec_output_file_name(source@, ext@, opt_view(suffix)));
            let clashes = first == source@;
            let sfx = opt_view(suffix);
            match r {
                Ok(Some(p)) => {
                    ||| (!clashes && p@ == first && (answered(*occupied, first, false) || (policy
                        == ConflictPolicy::Overwrite && answered(*occupied, first, true))))
                    ||| ((clashes || (policy == ConflictPolicy::Rename && answered(
                        *occupied,
                        first,
                        true,
                    ))) && exists|n: int|
                        #![trigger numbered_candidate(source@, dest_dir@, ext@, sfx, n)]
                        2 <= n < 1000 && p@ == numbered_candidate(
                            source@,
                            dest_dir@,
                            ext@,
                            sfx,
                            n,
                        ) && p@ != source@ && answered(*occupied, p@, false) && numbered_taken_below(
                            *occupied,
                            source@,
                            dest_dir@,
                            ext@,
                            sfx,
                            n,
                        ))
                },
                Ok(None) => !clashes && policy == ConflictPolicy::Skip && answered(
                    *occupied,
                    first,
                    true,
                ),
                Err(e) => (clashes || (policy == ConflictPolicy::Rename && answered(
                    *occupied,
                    first,
                    true,
                ))) && numbered_taken_below(*occupied, source@, dest_dir@, ext@, sfx, 1000) && e@
                    == "Could not find a free name for "@ + source@ + " in "@ + dest_dir@ + "."@,
            }
        }),
        r matches Ok(Some(p)) ==> p@ != source@,
        r matches Ok(Some(p)) ==> output_named_like(p@, source@, dest_dir@, ext@, opt_view(suffix)),
        policy != ConflictPolicy::Overwrite ==> (r matches Ok(Some(p)) ==> answered(*occupied, p@, false)),
{
    let src = chars_of(source);
    let dir = chars_of(dest_dir);
    let name = output_file_name(source, ext, suffix);
    let name_chars = chars_of(name.as_str());
    let candidate = join_chars(dir.as_slice(), name_chars.as_slice());
    let clashes = crate::text::chars_eq(candidate.as_slice(), src.as_slice());
    let ghost first = candidate@;
    let ghost sfx = opt_view(suffix);
    if !clashes {
        let cand = string_of(candidate.as_slice());
        let taken = occupied(cand.as_str());
        if !taken {
            return Ok(Some(cand));
        }
        if policy == ConflictPolicy::Overwrite {
            return Ok(Some(cand));
        }
        if policy == ConflictPolicy::Skip {
            return Ok(None);
        }
        assert(answered(*occupied, first, true));
    }
    assert(first == source@ || (policy == ConflictPolicy::Rename && answered(*occupied, first, true)));
    let stem = stem_or_media_chars(src.as_slice());
    let cleaned = clean_suffix_chars(suffix);
    let mut n: u64 = 2;
    while n < 1000
        invariant
            2 <= n <= 1000,
            numbered_taken_below(*occupied, source@, dest_dir@, ext@, sfx, n as int),
            forall|x: &str| #[trigger] call_requires(*occupied, (x,)),
            stem@ == stem_or_media(source@),
            cleaned@ == clean_suffix(sfx),
            dir@ == dest_dir@,
            src@ == source@,
            sfx == opt_view(suffix),
            first == join(dest_dir@, spec_output_file_name(source@, ext@, sfx)),
            first == source@ || (policy == ConflictPolicy::Rename && answered(*occupied, first, true)),
        decreases 1000 - n,
    {
        let mut base = slice_chars_all(stem.as_slice());
        push_all(&mut base, cleaned.as_slice());
        push_str(&mut base, " (");
        let d = crate::text::decimal_chars(n);
        push_all(&mut base, d.as_slice());
        push_str(&mut base, ").");
        push_str(&mut base, ext);
        let c = join_chars(dir.as_slice(), base.as_slice());
        assert(c@ =~= numbered_candidate(source@, dest_dir@, ext@, sfx, n as int));
        let same = crate::text::chars_eq(c.as_slice(), src.as_slice());
        if !same {
            let cand = string_of(c.as_slice());
            let taken = occupied(cand.as_str());
            if !taken {
                assert(answered(*occupied, cand@, false));
                assert(2 <= n < 1000 && cand@ == numbered_candidate(source@, dest_dir@, ext@, sfx, n as int));
                return Ok(Some(cand));
            }
            assert(answered(*occupied, c@, true));
        }
        assert forall|m: int|
            #![trigger numbered_candidate(source@, dest_dir@, ext@, sfx, m)]
            2 <= m < n + 1 implies {
            let c2 = numbered_candidate(source@, dest_dir@, ext@, sfx, m);
            c2 == source@ || answered(*occupied, c2, true)
        } by {
            if m == n as int {
            }
        }
        n = n + 1;
    }
    let mut m = chars_of("Could not find a free name for ");
    push_all(&mut m, src.as_slice());
    push_str(&mut m, " in ");
    push_all(&mut m, dir.as_slice());
    push_str(&mut m, ".");
    assert(m@ =~= "Could not find a free name for "@ + source@ + " in "@ + dest_dir@ + "."@);
    Err(string_of(m.as_slice()))
}

/// A copy of `s`.
pub fn slice_chars_all(s: &[char]) -> (r: Vec<char>)
    ensures
        r@ == s@,
{
    let r = crate::text::slice_chars(s, 0, s.len());
    assert(r@ =~= s@);
    r
}

/// Hidden temp file written by ffmpeg: `.qmo-tmp-<index>.<ext>` beside the
/// final file.
pub open spec fn spec_temp_output_path(final_path: Seq<char>, index: nat) -> Seq<char> {
    let ext = match crate::path_text::extension(final_path) {
        Some(e) => e,
        None => "tmp"@,
    };
    let dir = match parent(final_path) {
        Some(d) => d,
        None => "."@,
    };
    join(dir, ".qmo-tmp-"@ + decimal(index) + seq!['.'] + ext)
}

/// The file name of the temp output for the item at `index`.
pub open spec fn temp_name(final_path: Seq<char>, index: nat) -> Seq<char> {
    let ext = match crate::path_text::extension(final_path) {
        Some(e) => e,
        None => "tmp"@,
    };
    ".qmo-tmp-"@ + decimal(index) + seq!['.'] + ext
}

/// Two items never share a temp output: it is named after the item's index.
pub proof fn lemma_temp_outputs_differ(f1: Seq<char>, f2: Seq<char>, i: nat, j: nat)
    requires
        i != j,
    ensures
        spec_temp_output_path(f1, i) != spec_temp_output_path(f2, j),
{
    reveal_strlit(".qmo-tmp-");
    reveal_strlit("tmp");
    let n1 = temp_name(f1, i);
    let n2 = temp_name(f2, j);
    lemma_name_has_no_sep(f1, i);
    lemma_name_has_no_sep(f2, j);
    let d1 = decimal(i);
    let d2 = decimal(j);
    crate::text::lemma_decimal_has_no_dot(i);
    crate::text::lemma_decimal_has_no_dot(j);
    if spec_temp_output_path(f1, i) == spec_temp_output_path(f2, j) {
        let dir1 = match parent(f1) {
            Some(d) => d,
            None => "."@,
        };
        let dir2 = match parent(f2) {
            Some(d) => d,
            None => "."@,
        };
        assert(spec_temp_output_path(f1, i) == join(dir1, n1));
        assert(spec_temp_output_path(f2, j) == join(dir2, n2));
        crate::path_text::lemma_join_file_name(dir1, n1);
        crate::path_text::lemma_join_file_name(dir2, n2);
        assert(n1 == n2);
        assert(n1[9 + d1.len() as int] == '.');
        assert(n2[9 + d2.len() as int] == '.');
        if d1.len() < d2.len() {
            assert(n2[9 + d1.len() as int] == d2[d1.len() as int]);
        } else if d2.len() < d1.len() {
            assert(n1[9 + d2.len() as int] == d1[d2.len() as int]);
        } else {
            assert(d1 =~= n1.subrange(9, 9 + d1.len() as int));
            assert(d2 =~= n2.subrange(9, 9 + d2.len() as int));
            crate::text::lemma_decimal_injective(i, j);
        }
    }
}

/// A temp output's file name holds no separator.
proof fn lemma_name_has_no_sep(f: Seq<char>, i: nat)
    ensures
        temp_name(f, i).len() > 9 + decimal(i).len(),
        forall|k: int| 0 <= k < temp_name(f, i).len() ==> !crate::path_text::is_sep(#[trigger] temp_name(f, i)[k]),
{
    reveal_strlit(".qmo-tmp-");
    reveal_strlit("tmp");
    crate::path_text::lemma_extension_has_no_sep(f);
    crate::text::lemma_decimal_has_no_dot(i);
    crate::text::lemma_decimal_digits_not_sep(i);
    let n = temp_name(f, i);
    let d = decimal(i);
    let ext = match crate::path_text::extension(f) {
        Some(e) => e,
        None => "tmp"@,
    };
    assert forall|k: int| 0 <= k < n.len() implies !crate::path_text::is_sep(#[trigger] n[k]) by {
        if k < 9 {
        } else if k < 9 + d.len() {
            assert(n[k] == d[k - 9]);
        } else if k == 9 + d.len() {
        } else {
            assert(n[k] == ext[k - 10 - d.len()]);
        }
    }
}

pub fn temp_output_path(final_path: &str, index: usize) -> (r: String)
    ensures
        r@ == spec_temp_output_path(final_path@, index as nat),
{
    let p = chars_of(final_path);
    let ext = match extension_chars(p.as_slice()) {
        Some(e) => e,
        None => chars_of("tmp"),
    };
    let dir = match parent_chars(p.as_slice()) {
        Some(d) => d,
        None => chars_of("."),
    };
    let mut name = chars_of(".qmo-tmp-");
    let d = crate::text::decimal_chars(index as u64);
    push_all(&mut name, d.as_slice());
    name.push('.');
    push_all(&mut name, ext.as_slice());
    let out = join_chars(dir.as_slice(), name.as_slice());
    assert(out@ =~= spec_temp_output_path(final_path@, index as nat));
    string_of(out.as_slice())
}

/// Video flags of the software encoder with the settings' own audio mode.
pub fn video_flags(settings: &super::VideoSettings) -> (r: Vec<String>)
    ensures
        settings.codec == VideoCodec::Copy ==> views(r@) == super::video_backend::spec_copy_output_flags(
            *settings,
        ),
        settings.codec != VideoCodec::Copy ==> views(r@)
            == super::video_backend::spec_encode_output_flags(
            *settings,
            super::VideoBackend::Software,
            settings.audio,
            super::video_backend::spec_encoder_name(super::VideoBackend::Software, settings.codec).unwrap(),
        ),
{
    super::video_backend::software_video_flags(settings)
}

} // verus!
