//! Hardware encoder discovery and video encoding plans.
//!
//! Callers provide video intent and receive ordered FFmpeg attempts. Vendor
//! options, quality mappings, device probes and fallback rules stay here.
use vstd::prelude::*;
use std::collections::HashSet;
use crate::text::{
    contains_chars, contains_text, lower_chars, lower_text, spec_lines, lines_of, seqs, second_word,
    second_word_exec, chars_eq, trim, trim_start, trimmed, trim_start_exec, lemma_trim_start_bounds,
    first_index_of, lemma_first_index_bounds, lemma_first_index_unique, find_char, slice_chars,
    chars_of, decimal, decimal_chars, decimal_string, push_all, push_lit, push_str, push_string,
    string_of, views,
};
use crate::media::eq_lit;
use super::{
    AudioMode, HardwareAcceleration, VideoBackend, VideoBackendCapability, VideoCodec,
    VideoSettings, default_crf, default_speed_preset, default_audio_bitrate,
};

verus! {

#[derive(Debug, Clone)]
pub struct VideoEncodeAttempt {
    pub backend: VideoBackend,
    pub audio: AudioMode,
    pub input_flags: Vec<String>,
    pub output_flags: Vec<String>,
}

#[derive(Debug, Clone)]
pub struct VideoEncodingPlan {
    pub resolved_backend: VideoBackend,
    pub attempts: Vec<VideoEncodeAttempt>,
}

#[derive(Debug, Clone, Copy, PartialEq, Eq, Structural)]
pub enum EncodeFailureKind {
    Cancelled,
    BackendUnavailable,
    AudioIncompatible,
    InvalidMedia,
    Other,
}

pub open spec fn spec_encoder_name(backend: VideoBackend, codec: VideoCodec) -> Option<Seq<char>> {
    match (backend, codec) {
        (VideoBackend::Software, VideoCodec::H264) => Some("libx264"@),
        (VideoBackend::Software, VideoCodec::H265) => Some("libx265"@),
        (VideoBackend::Software, VideoCodec::Av1) => Some("libsvtav1"@),
        (VideoBackend::Nvidia, VideoCodec::H264) => Some("h264_nvenc"@),
        (VideoBackend::Nvidia, VideoCodec::H265) => Some("hevc_nvenc"@),
        (VideoBackend::Nvidia, VideoCodec::Av1) => Some("av1_nvenc"@),
        (VideoBackend::Intel, VideoCodec::H264) => Some("h264_qsv"@),
        (VideoBackend::Intel, VideoCodec::H265) => Some("hevc_qsv"@),
        (VideoBackend::Intel, VideoCodec::Av1) => Some("av1_qsv"@),
        (VideoBackend::Amd, VideoCodec::H264) => Some("h264_amf"@),
        (VideoBackend::Amd, VideoCodec::H265) => Some("hevc_amf"@),
        (VideoBackend::Amd, VideoCodec::Av1) => Some("av1_amf"@),
        (VideoBackend::VideoToolbox, VideoCodec::H264) => Some("h264_videotoolbox"@),
        (VideoBackend::VideoToolbox, VideoCodec::H265) => Some("hevc_videotoolbox"@),
        (VideoBackend::VideoToolbox, VideoCodec::Av1) => Some("av1_videotoolbox"@),
        (VideoBackend::Vaapi, VideoCodec::H264) => Some("h264_vaapi"@),
        (VideoBackend::Vaapi, VideoCodec::H265) => Some("hevc_vaapi"@),
        (VideoBackend::Vaapi, VideoCodec::Av1) => Some("av1_vaapi"@),
        (_, VideoCodec::Copy) => None,
    }
}

/// FFmpeg encoder that one family uses for one codec; none for stream copy.
pub fn encoder_name(backend: VideoBackend, codec: VideoCodec) -> (r: Option<&'static str>)
    ensures
        match r {
            Some(s) => spec_encoder_name(backend, codec) == Some(s@),
            None => spec_encoder_name(backend, codec) is None,
        },
{
    match (backend, codec) {
        (VideoBackend::Software, VideoCodec::H264) => Some("libx264"),
        (VideoBackend::Software, VideoCodec::H265) => Some("libx265"),
        (VideoBackend::Software, VideoCodec::Av1) => Some("libsvtav1"),
        (VideoBackend::Nvidia, VideoCodec::H264) => Some("h264_nvenc"),
        (VideoBackend::Nvidia, VideoCodec::H265) => Some("hevc_nvenc"),
        (VideoBackend::Nvidia, VideoCodec::Av1) => Some("av1_nvenc"),
        (VideoBackend::Intel, VideoCodec::H264) => Some("h264_qsv"),
        (VideoBackend::Intel, VideoCodec::H265) => Some("hevc_qsv"),
        (VideoBackend::Intel, VideoCodec::Av1) => Some("av1_qsv"),
        (VideoBackend::Amd, VideoCodec::H264) => Some("h264_amf"),
        (VideoBackend::Amd, VideoCodec::H265) => Some("hevc_amf"),
        (VideoBackend::Amd, VideoCodec::Av1) => Some("av1_amf"),
        (VideoBackend::VideoToolbox, VideoCodec::H264) => Some("h264_videotoolbox"),
        (VideoBackend::VideoToolbox, VideoCodec::H265) => Some("hevc_videotoolbox"),
        (VideoBackend::VideoToolbox, VideoCodec::Av1) => Some("av1_videotoolbox"),
        (VideoBackend::Vaapi, VideoCodec::H264) => Some("h264_vaapi"),
        (VideoBackend::Vaapi, VideoCodec::H265) => Some("hevc_vaapi"),
        (VideoBackend::Vaapi, VideoCodec::Av1) => Some("av1_vaapi"),
        (_, VideoCodec::Copy) => None,
    }
}

pub open spec fn spec_backend_label(backend: VideoBackend) -> Seq<char> {
    match backend {
        VideoBackend::Software => "CPU (software)"@,
        VideoBackend::Nvidia => "NVIDIA NVENC"@,
        VideoBackend::Intel => "Intel Quick Sync"@,
        VideoBackend::Amd => "AMD AMF"@,
        VideoBackend::VideoToolbox => "Apple VideoToolbox"@,
        VideoBackend::Vaapi => "Linux VAAPI"@,
    }
}

/// Name of an encoder family shown to the user.
pub fn backend_label(backend: VideoBackend) -> (r: &'static str)
    ensures
        r@ == spec_backend_label(backend),
{
    match backend {
        VideoBackend::Software => "CPU (software)",
        VideoBackend::Nvidia => "NVIDIA NVENC",
        VideoBackend::Intel => "Intel Quick Sync",
        VideoBackend::Amd => "AMD AMF",
        VideoBackend::VideoToolbox => "Apple VideoToolbox",
        VideoBackend::Vaapi => "Linux VAAPI",
    }
}

pub open spec fn spec_codec_label(codec: VideoCodec) -> Seq<char> {
    match codec {
        VideoCodec::H264 => "H.264"@,
        VideoCodec::H265 => "H.265"@,
        VideoCodec::Av1 => "AV1"@,
        VideoCodec::Copy => "stream copy"@,
    }
}

pub fn codec_label(codec: VideoCodec) -> (r: &'static str)
    ensures
        r@ == spec_codec_label(codec),
{
    match codec {
        VideoCodec::H264 => "H.264",
        VideoCodec::H265 => "H.265",
        VideoCodec::Av1 => "AV1",
        VideoCodec::Copy => "stream copy",
    }
}

pub open spec fn slow_speed(s: Seq<char>) -> bool {
    s == "slow"@ || s == "slower"@ || s == "veryslow"@
}

pub open spec fn fast_speed(s: Seq<char>) -> bool {
    s == "fast"@ || s == "faster"@ || s == "veryfast"@ || s == "ultrafast"@
}

pub open spec fn spec_nvenc_preset(speed: Seq<char>) -> Seq<char> {
    if slow_speed(speed) {
        "p7"@
    } else if fast_speed(speed) {
        "p1"@
    } else {
        "p4"@
    }
}

pub fn nvenc_preset(speed: &str) -> (r: &'static str)
    ensures
        r@ == spec_nvenc_preset(speed@),
{
    let s = chars_of(speed);
    if eq_lit(s.as_slice(), "slow") || eq_lit(s.as_slice(), "slower") || eq_lit(
        s.as_slice(),
        "veryslow",
    ) {
        "p7"
    } else if eq_lit(s.as_slice(), "fast") || eq_lit(s.as_slice(), "faster") || eq_lit(
        s.as_slice(),
        "veryfast",
    ) || eq_lit(s.as_slice(), "ultrafast") {
        "p1"
    } else {
        "p4"
    }
}

pub open spec fn spec_generic_hardware_preset(speed: Seq<char>) -> Seq<char> {
    if slow_speed(speed) {
        "quality"@
    } else if fast_speed(speed) {
        "speed"@
    } else {
        "balanced"@
    }
}

pub fn generic_hardware_preset(speed: &str) -> (r: &'static str)
    ensures
        r@ == spec_generic_hardware_preset(speed@),
{
    let s = chars_of(speed);
    if eq_lit(s.as_slice(), "slow") || eq_lit(s.as_slice(), "slower") || eq_lit(
        s.as_slice(),
        "veryslow",
    ) {
        "quality"
    } else if eq_lit(s.as_slice(), "fast") || eq_lit(s.as_slice(), "faster") || eq_lit(
        s.as_slice(),
        "veryfast",
    ) || eq_lit(s.as_slice(), "ultrafast") {
        "speed"
    } else {
        "balanced"
    }
}

pub open spec fn spec_svt_av1_preset(speed: Seq<char>) -> u8 {
    if speed == "veryslow"@ || speed == "slower"@ {
        3
    } else if speed == "slow"@ {
        4
    } else if speed == "medium"@ {
        6
    } else if speed == "fast"@ || speed == "faster"@ {
        8
    } else if speed == "veryfast"@ || speed == "ultrafast"@ {
        10
    } else {
        6
    }
}

/// SVT-AV1 preset number for an x264-style speed name.
pub fn svt_av1_preset(speed: &str) -> (r: u8)
    ensures
        r == spec_svt_av1_preset(speed@),
{
    let s = chars_of(speed);
    if eq_lit(s.as_slice(), "veryslow") || eq_lit(s.as_slice(), "slower") {
        3
    } else if eq_lit(s.as_slice(), "slow") {
        4
    } else if eq_lit(s.as_slice(), "medium") {
        6
    } else if eq_lit(s.as_slice(), "fast") || eq_lit(s.as_slice(), "faster") {
        8
    } else if eq_lit(s.as_slice(), "veryfast") || eq_lit(s.as_slice(), "ultrafast") {
        10
    } else {
        6
    }
}

pub open spec fn clamp_crf(crf: u8) -> int {
    if crf < 1 {
        1
    } else if crf > 51 {
        51
    } else {
        crf as int
    }
}

/// VideoToolbox quality (1..=100, higher is better) for a CRF value.
pub open spec fn spec_videotoolbox_quality(crf: u8) -> int {
    let v = ((51 - clamp_crf(crf)) * 100) / 50;
    if v < 1 {
        1
    } else if v > 100 {
        100
    } else {
        v
    }
}

pub fn videotoolbox_quality(crf: u8) -> (r: u8)
    ensures
        r == spec_videotoolbox_quality(crf),
{
    let c: u16 = if crf < 1 {
        1
    } else if crf > 51 {
        51
    } else {
        crf as u16
    };
    let v = ((51 - c) * 100) / 50;
    if v < 1 {
        1
    } else if v > 100 {
        100
    } else {
        v as u8
    }
}

/// The CRF as quality text, clamped to 1..=51.
pub open spec fn quality_text(settings: VideoSettings) -> Seq<char> {
    decimal(clamp_crf(settings.crf) as nat)
}

/// Rate control and speed flags of one encoder family.
pub open spec fn spec_quality_flags(backend: VideoBackend, settings: VideoSettings) -> Seq<
    Seq<char>,
> {
    let q = quality_text(settings);
    let speed = settings.speed_preset@;
    match backend {
        VideoBackend::Software => seq![
            "-crf"@,
            q,
            "-preset"@,
            if settings.codec == VideoCodec::Av1 {
                decimal(spec_svt_av1_preset(speed) as nat)
            } else {
                speed
            },
        ],
        VideoBackend::Nvidia => seq![
            "-rc"@,
            "vbr"@,
            "-cq"@,
            q,
            "-b:v"@,
            "0"@,
            "-preset"@,
            spec_nvenc_preset(speed),
            "-tune"@,
            "hq"@,
        ],
        VideoBackend::Intel => seq!["-global_quality"@, q, "-preset"@, speed],
        VideoBackend::Amd => seq![
            "-rc"@,
            "qvbr"@,
            "-qvbr_quality_level"@,
            q,
            "-quality"@,
            spec_generic_hardware_preset(speed),
        ],
        VideoBackend::VideoToolbox => seq![
            "-q:v"@,
            decimal(spec_videotoolbox_quality(settings.crf) as nat),
            "-realtime"@,
            if speed == "fast"@ {
                "1"@
            } else {
                "0"@
            },
        ],
        VideoBackend::Vaapi => seq!["-qp"@, q],
    }
}

pub fn add_backend_quality(flags: &mut Vec<String>, backend: VideoBackend, settings: &VideoSettings)
    ensures
        views(final(flags)@) == views(old(flags)@) + spec_quality_flags(backend, *settings),
{
    let ghost start = views(flags@);
    let c: u64 = if settings.crf < 1 {
        1
    } else if settings.crf > 51 {
        51
    } else {
        settings.crf as u64
    };
    let speed = settings.speed_preset.as_str();
    match backend {
        VideoBackend::Software => {
            push_lit(flags, "-crf");
            push_string(flags, decimal_string(c));
            push_lit(flags, "-preset");
            if settings.codec == VideoCodec::Av1 {
                push_string(flags, decimal_string(svt_av1_preset(speed) as u64));
            } else {
                push_string(flags, settings.speed_preset.clone());
            }
        },
        VideoBackend::Nvidia => {
            push_lit(flags, "-rc");
            push_lit(flags, "vbr");
            push_lit(flags, "-cq");
            push_string(flags, decimal_string(c));
            push_lit(flags, "-b:v");
            push_lit(flags, "0");
            push_lit(flags, "-preset");
            push_lit(flags, nvenc_preset(speed));
            push_lit(flags, "-tune");
            push_lit(flags, "hq");
        },
        VideoBackend::Intel => {
            push_lit(flags, "-global_quality");
            push_string(flags, decimal_string(c));
            push_lit(flags, "-preset");
            push_string(flags, settings.speed_preset.clone());
        },
        VideoBackend::Amd => {
            push_lit(flags, "-rc");
            push_lit(flags, "qvbr");
            push_lit(flags, "-qvbr_quality_level");
            push_string(flags, decimal_string(c));
            push_lit(flags, "-quality");
            push_lit(flags, generic_hardware_preset(speed));
        },
        VideoBackend::VideoToolbox => {
            push_lit(flags, "-q:v");
            push_string(flags, decimal_string(videotoolbox_quality(settings.crf) as u64));
            push_lit(flags, "-realtime");
            let s = chars_of(speed);
            if eq_lit(s.as_slice(), "fast") {
                push_lit(flags, "1");
            } else {
                push_lit(flags, "0");
            }
        },
        VideoBackend::Vaapi => {
            push_lit(flags, "-qp");
            push_string(flags, decimal_string(c));
        },
    }
    assert(views(flags@) =~= start + spec_quality_flags(backend, *settings));
}

/// Texts joined with `,` between them.
pub open spec fn join_comma(s: Seq<Seq<char>>) -> Seq<char>
    decreases s.len(),
{
    if s.len() == 0 {
        Seq::empty()
    } else if s.len() == 1 {
        s[0]
    } else {
        join_comma(s.drop_last()) + seq![','] + s.last()
    }
}

pub fn join_comma_exec(parts: &Vec<String>) -> (r: String)
    ensures
        r@ == join_comma(views(parts@)),
{
    let ghost v = views(parts@);
    let mut out: Vec<char> = Vec::new();
    let mut i: usize = 0;
    while i < parts.len()
        invariant
            i <= parts@.len(),
            v == views(parts@),
            out@ == join_comma(v.subrange(0, i as int)),
        decreases parts@.len() - i,
    {
        if i > 0 {
            out.push(',');
        }
        let p = chars_of(parts[i].as_str());
        push_all(&mut out, p.as_slice());
        i = i + 1;
        proof {
            let t = v.subrange(0, i as int);
            assert(t.drop_last() =~= v.subrange(0, i - 1));
            assert(t.last() == parts@[i - 1]@);
            if i == 1 {
                assert(v.subrange(0, 0) =~= Seq::<Seq<char>>::empty());
            }
        }
    }
    assert(v.subrange(0, parts@.len() as int) =~= v);
    string_of(out.as_slice())
}

pub open spec fn spec_scale_filter(max_height: u32) -> Seq<char> {
    "scale=-2:'min("@ + decimal(max_height as nat) + ",ih)'"@
}

/// Video filters of one attempt: the height limit, then what the family needs.
pub open spec fn spec_filters(backend: VideoBackend, settings: VideoSettings) -> Seq<Seq<char>> {
    (match settings.max_height {
        Some(h) => seq![spec_scale_filter(h)],
        None => Seq::empty(),
    }) + match backend {
        VideoBackend::Intel => seq!["format=nv12"@],
        VideoBackend::Vaapi => seq!["format=nv12"@, "hwupload"@],
        _ => Seq::empty(),
    }
}

pub open spec fn uses_pix_fmt(backend: VideoBackend) -> bool {
    match backend {
        VideoBackend::Intel | VideoBackend::Vaapi => false,
        _ => true,
    }
}

pub open spec fn spec_audio_flags(settings: VideoSettings, audio: AudioMode) -> Seq<Seq<char>> {
    match audio {
        AudioMode::Copy => seq!["-c:a"@, "copy"@],
        AudioMode::Aac => seq![
            "-c:a"@,
            "aac"@,
            "-b:a"@,
            decimal(settings.audio_bitrate_kbps as nat) + seq!['k'],
        ],
        AudioMode::Drop => seq!["-an"@],
    }
}

/// Output flags of a re-encoding attempt that uses `encoder`.
pub open spec fn spec_encode_output_flags(
    settings: VideoSettings,
    backend: VideoBackend,
    audio: AudioMode,
    encoder: Seq<char>,
) -> Seq<Seq<char>> {
    spec_head_flags(settings, audio, encoder) + spec_quality_flags(backend, settings)
        + spec_filter_part(backend, settings) + spec_tail_flags(settings, audio)
}

pub open spec fn spec_copy_output_flags(settings: VideoSettings) -> Seq<Seq<char>> {
    seq!["-map"@, "0"@, "-c"@, "copy"@] + (if settings.faststart {
        seq!["-movflags"@, "+faststart"@]
    } else {
        Seq::empty()
    })
}

pub open spec fn spec_input_flags(settings: VideoSettings, backend: VideoBackend) -> Seq<
    Seq<char>,
> {
    if settings.codec != VideoCodec::Copy && backend == VideoBackend::Vaapi {
        seq!["-vaapi_device"@, "/dev/dri/renderD128"@]
    } else {
        Seq::empty()
    }
}

/// `a` is the attempt that `build_attempt(settings, backend, audio)` makes.
pub open spec fn is_attempt(
    a: VideoEncodeAttempt,
    settings: VideoSettings,
    backend: VideoBackend,
    audio: AudioMode,
) -> bool {
    &&& a.audio == audio
    &&& views(a.input_flags@) == spec_input_flags(settings, backend)
    &&& if settings.codec == VideoCodec::Copy {
        &&& a.backend == VideoBackend::Software
        &&& views(a.output_flags@) == spec_copy_output_flags(settings)
    } else {
        &&& a.backend == backend
        &&& views(a.output_flags@) == spec_encode_output_flags(
            settings,
            backend,
            audio,
            spec_encoder_name(backend, settings.codec).unwrap(),
        )
    }
}

/// The ffmpeg flags of one attempt. Never fails: every family has an encoder
/// for every re-encoding codec, and stream copy needs none.
pub fn build_attempt(settings: &VideoSettings, backend: VideoBackend, audio: AudioMode) -> (r:
    Result<VideoEncodeAttempt, String>)
    ensures
        r matches Ok(a) && is_attempt(a, *settings, backend, audio),
{
    let mut input_flags: Vec<String> = Vec::new();
    let mut output_flags: Vec<String> = Vec::new();
    assert(views(input_flags@) =~= Seq::<Seq<char>>::empty());
    assert(views(output_flags@) =~= Seq::<Seq<char>>::empty());

    if settings.codec == VideoCodec::Copy {
        push_lit(&mut output_flags, "-map");
        push_lit(&mut output_flags, "0");
        push_lit(&mut output_flags, "-c");
        push_lit(&mut output_flags, "copy");
        if settings.faststart {
            push_lit(&mut output_flags, "-movflags");
            push_lit(&mut output_flags, "+faststart");
        }
        assert(views(output_flags@) =~= spec_copy_output_flags(*settings));
        return Ok(
            VideoEncodeAttempt { backend: VideoBackend::Software, audio, input_flags, output_flags },
        );
    }

    let encoder = match encoder_name(backend, settings.codec) {
        Some(e) => e,
        None => {
            let mut m = chars_of(backend_label(backend));
            push_str(&mut m, " cannot encode ");
            push_str(&mut m, codec_label(settings.codec));
            push_str(&mut m, ".");
            return Err(string_of(m.as_slice()));
        },
    };

    push_head_flags(&mut output_flags, settings, audio, encoder);
    let ghost part1 = views(output_flags@);
    add_backend_quality(&mut output_flags, backend, settings);
    let ghost part2 = views(output_flags@);
    push_filter_flags(&mut output_flags, &mut input_flags, backend, settings);
    let ghost part4 = views(output_flags@);
    push_tail_flags(&mut output_flags, settings, audio);
    proof {
        let s = *settings;
        let enc = spec_encoder_name(backend, s.codec).unwrap();
        assert(views(output_flags@) =~= spec_encode_output_flags(s, backend, audio, enc));
    }
    Ok(VideoEncodeAttempt { backend, audio, input_flags, output_flags })
}

pub open spec fn spec_head_flags(settings: VideoSettings, audio: AudioMode, encoder: Seq<char>) -> Seq<Seq<char>> {
    seq!["-map"@, "0:v:0"@] + (if audio != AudioMode::Drop {
        seq!["-map"@, "0:a?"@]
    } else {
        Seq::empty()
    }) + seq![
        "-map_metadata"@,
        if settings.keep_metadata {
            "0"@
        } else {
            "-1"@
        },
        "-c:v"@,
        encoder,
    ]
}

fn push_head_flags(out: &mut Vec<String>, settings: &VideoSettings, audio: AudioMode, encoder: &str)
    ensures
        views(final(out)@) == views(old(out)@) + spec_head_flags(*settings, audio, encoder@),
{
    let ghost start = views(out@);
    push_lit(out, "-map");
    push_lit(out, "0:v:0");
    if audio != AudioMode::Drop {
        push_lit(out, "-map");
        push_lit(out, "0:a?");
    }
    push_lit(out, "-map_metadata");
    if settings.keep_metadata {
        push_lit(out, "0");
    } else {
        push_lit(out, "-1");
    }
    push_lit(out, "-c:v");
    push_lit(out, encoder);
    assert(views(out@) =~= start + spec_head_flags(*settings, audio, encoder@));
}

pub open spec fn spec_filter_part(backend: VideoBackend, settings: VideoSettings) -> Seq<Seq<char>> {
    let filters = spec_filters(backend, settings);
    (if uses_pix_fmt(backend) {
        seq!["-pix_fmt"@, "yuv420p"@]
    } else {
        Seq::empty()
    }) + (if filters.len() > 0 {
        seq!["-vf"@, join_comma(filters)]
    } else {
        Seq::empty()
    })
}

fn push_filter_flags(
    out: &mut Vec<String>,
    input: &mut Vec<String>,
    backend: VideoBackend,
    settings: &VideoSettings,
)
    requires
        views(old(input)@) == Seq::<Seq<char>>::empty(),
        settings.codec != VideoCodec::Copy,
    ensures
        views(final(out)@) == views(old(out)@) + spec_filter_part(backend, *settings),
        views(final(input)@) == spec_input_flags(*settings, backend),
{
    let ghost start = views(out@);
    let mut filters: Vec<String> = Vec::new();
    assert(views(filters@) =~= Seq::<Seq<char>>::empty());
    if let Some(max_height) = settings.max_height {
        let mut f = chars_of("scale=-2:'min(");
        let d = decimal_chars(max_height as u64);
        push_all(&mut f, d.as_slice());
        push_str(&mut f, ",ih)'");
        assert(f@ =~= spec_scale_filter(max_height));
        push_string(&mut filters, string_of(f.as_slice()));
    }
    match backend {
        VideoBackend::Software | VideoBackend::Nvidia | VideoBackend::Amd
        | VideoBackend::VideoToolbox => {
            push_lit(out, "-pix_fmt");
            push_lit(out, "yuv420p");
        },
        VideoBackend::Intel => push_lit(&mut filters, "format=nv12"),
        VideoBackend::Vaapi => {
            push_lit(input, "-vaapi_device");
            push_lit(input, "/dev/dri/renderD128");
            push_lit(&mut filters, "format=nv12");
            push_lit(&mut filters, "hwupload");
        },
    }
    assert(views(filters@) =~= spec_filters(backend, *settings));
    assert(views(input@) =~= spec_input_flags(*settings, backend));
    let ghost mid = views(out@);
    if filters.len() > 0 {
        push_lit(out, "-vf");
        push_string(out, join_comma_exec(&filters));
    }
    assert(views(out@) =~= start + spec_filter_part(backend, *settings));
}

pub open spec fn spec_tail_flags(settings: VideoSettings, audio: AudioMode) -> Seq<Seq<char>> {
    (match settings.max_fps {
        Some(fps) => seq!["-r"@, decimal(fps as nat)],
        None => Seq::empty(),
    }) + spec_audio_flags(settings, audio) + (if settings.codec == VideoCodec::H265 {
        seq!["-tag:v"@, "hvc1"@]
    } else {
        Seq::empty()
    }) + (if settings.faststart {
        seq!["-movflags"@, "+faststart"@]
    } else {
        Seq::empty()
    })
}

fn push_tail_flags(out: &mut Vec<String>, settings: &VideoSettings, audio: AudioMode)
    ensures
        views(final(out)@) == views(old(out)@) + spec_tail_flags(*settings, audio),
{
    let ghost start = views(out@);
    if let Some(fps) = settings.max_fps {
        push_lit(out, "-r");
        push_string(out, decimal_string(fps as u64));
    }
    let ghost p1 = views(out@);
    match audio {
        AudioMode::Copy => {
            push_lit(out, "-c:a");
            push_lit(out, "copy");
        },
        AudioMode::Aac => {
            push_lit(out, "-c:a");
            push_lit(out, "aac");
            push_lit(out, "-b:a");
            let mut b = decimal_chars(settings.audio_bitrate_kbps as u64);
            b.push('k');
            assert(b@ =~= decimal(settings.audio_bitrate_kbps as nat) + seq!['k']);
            push_string(out, string_of(b.as_slice()));
        },
        AudioMode::Drop => push_lit(out, "-an"),
    }
    let ghost p2 = views(out@);
    assert(p2 =~= p1 + spec_audio_flags(*settings, audio));
    if settings.codec == VideoCodec::H265 {
        push_lit(out, "-tag:v");
        push_lit(out, "hvc1");
    }
    let ghost p3 = views(out@);
    if settings.faststart {
        push_lit(out, "-movflags");
        push_lit(out, "+faststart");
    }
    assert(views(out@) =~= start + spec_tail_flags(*settings, audio));
}

/// Output flags of a software attempt with the settings' own audio mode.
pub fn software_video_flags(settings: &VideoSettings) -> (r: Vec<String>)
    ensures
        settings.codec == VideoCodec::Copy ==> views(r@) == spec_copy_output_flags(*settings),
        settings.codec != VideoCodec::Copy ==> views(r@) == spec_encode_output_flags(
            *settings,
            VideoBackend::Software,
            settings.audio,
            spec_encoder_name(VideoBackend::Software, settings.codec).unwrap(),
        ),
{
    match build_attempt(settings, VideoBackend::Software, settings.audio) {
        Ok(a) => a.output_flags,
        Err(_) => Vec::new(),
    }
}

/// The software family with every re-encoding codec available.
pub fn software_capability() -> (r: VideoBackendCapability)
    ensures
        r.backend == VideoBackend::Software,
        r.codecs@ == seq![VideoCodec::H264, VideoCodec::H265, VideoCodec::Av1],
        r.available,
        r.reason is None,
{
    let mut codecs: Vec<VideoCodec> = Vec::new();
    codecs.push(VideoCodec::H264);
    codecs.push(VideoCodec::H265);
    codecs.push(VideoCodec::Av1);
    assert(codecs@ =~= seq![VideoCodec::H264, VideoCodec::H265, VideoCodec::Av1]);
    VideoBackendCapability { backend: VideoBackend::Software, codecs, available: true, reason: None }
}

} // verus!

verus! {

pub open spec fn spec_preference_backend(preference: HardwareAcceleration) -> Option<VideoBackend> {
    match preference {
        HardwareAcceleration::Nvidia => Some(VideoBackend::Nvidia),
        HardwareAcceleration::Intel => Some(VideoBackend::Intel),
        HardwareAcceleration::Amd => Some(VideoBackend::Amd),
        HardwareAcceleration::VideoToolbox => Some(VideoBackend::VideoToolbox),
        HardwareAcceleration::Vaapi => Some(VideoBackend::Vaapi),
        HardwareAcceleration::Auto | HardwareAcceleration::Software => None,
    }
}

/// The family an explicit preference names; none for `Auto` and `Software`.
pub fn preference_backend(preference: HardwareAcceleration) -> (r: Option<VideoBackend>)
    ensures
        r == spec_preference_backend(preference),
{
    match preference {
        HardwareAcceleration::Nvidia => Some(VideoBackend::Nvidia),
        HardwareAcceleration::Intel => Some(VideoBackend::Intel),
        HardwareAcceleration::Amd => Some(VideoBackend::Amd),
        HardwareAcceleration::VideoToolbox => Some(VideoBackend::VideoToolbox),
        HardwareAcceleration::Vaapi => Some(VideoBackend::Vaapi),
        HardwareAcceleration::Auto | HardwareAcceleration::Software => None,
    }
}

/// Capability `c` can encode `codec` with its family.
pub open spec fn can_encode(c: VideoBackendCapability, codec: VideoCodec) -> bool {
    c.available && c.codecs@.contains(codec)
}

/// Index of the first capability that can encode `codec`, or -1.
pub open spec fn first_capable(caps: Seq<VideoBackendCapability>, codec: VideoCodec) -> int
    decreases caps.len(),
{
    if caps.len() == 0 {
        -1
    } else if can_encode(caps[0], codec) {
        0
    } else {
        let rest = first_capable(caps.drop_first(), codec);
        if rest < 0 {
            -1
        } else {
            rest + 1
        }
    }
}

/// The family a plan starts with, or the error shown when an explicitly
/// requested family cannot encode the codec.
pub open spec fn spec_resolved_backend(
    settings: VideoSettings,
    caps: Seq<VideoBackendCapability>,
) -> Result<VideoBackend, Seq<char>> {
    match settings.hardware_acceleration {
        HardwareAcceleration::Software => Ok(VideoBackend::Software),
        HardwareAcceleration::Auto => {
            let i = first_capable(caps, settings.codec);
            if i < 0 {
                Ok(VideoBackend::Software)
            } else {
                Ok(caps[i].backend)
            }
        },
        preference => {
            let requested = spec_preference_backend(preference).unwrap();
            if exists|i: int|
                0 <= i < caps.len() && #[trigger] caps[i].backend == requested && can_encode(
                    caps[i],
                    settings.codec,
                ) {
                Ok(requested)
            } else {
                Err(
                    spec_backend_label(requested) + " is not available for "@ + spec_codec_label(
                        settings.codec,
                    ) + " on this computer."@,
                )
            }
        },
    }
}

/// The (family, audio) pairs a plan tries, in order.
pub open spec fn spec_attempt_order(resolved: VideoBackend, audio: AudioMode) -> Seq<
    (VideoBackend, AudioMode),
> {
    seq![(resolved, audio)] + (if audio == AudioMode::Copy {
        seq![(resolved, AudioMode::Aac)]
    } else {
        Seq::empty()
    }) + (if resolved.spec_is_hardware() {
        seq![(VideoBackend::Software, audio)] + (if audio == AudioMode::Copy {
            seq![(VideoBackend::Software, AudioMode::Aac)]
        } else {
            Seq::empty()
        })
    } else {
        Seq::empty()
    })
}

/// `attempts` are the attempts built for `order`, one each, in order.
pub open spec fn attempts_follow(
    attempts: Seq<VideoEncodeAttempt>,
    settings: VideoSettings,
    order: Seq<(VideoBackend, AudioMode)>,
) -> bool {
    &&& attempts.len() == order.len()
    &&& forall|i: int|
        0 <= i < attempts.len() ==> is_attempt(#[trigger] attempts[i], settings, order[i].0, order[i].1)
}

pub proof fn lemma_first_capable(caps: Seq<VideoBackendCapability>, codec: VideoCodec)
    ensures
        -1 <= first_capable(caps, codec) < caps.len(),
        first_capable(caps, codec) >= 0 ==> can_encode(caps[first_capable(caps, codec)], codec),
        forall|j: int|
            0 <= j < caps.len() && (first_capable(caps, codec) < 0 || j < first_capable(caps, codec))
                ==> !can_encode(#[trigger] caps[j], codec),
    decreases caps.len(),
{
    if caps.len() > 0 && !can_encode(caps[0], codec) {
        lemma_first_capable(caps.drop_first(), codec);
        assert forall|j: int|
            0 <= j < caps.len() && (first_capable(caps, codec) < 0 || j < first_capable(caps, codec))
                implies !can_encode(#[trigger] caps[j], codec) by {
            if j > 0 {
                assert(caps[j] == caps.drop_first()[j - 1]);
            }
        }
        if first_capable(caps, codec) >= 0 {
            assert(caps[first_capable(caps, codec)] == caps.drop_first()[first_capable(caps, codec) - 1]);
        }
    }
}

fn contains_codec(codecs: &Vec<VideoCodec>, codec: VideoCodec) -> (r: bool)
    ensures
        r == codecs@.contains(codec),
{
    let mut i: usize = 0;
    while i < codecs.len()
        invariant
            i <= codecs@.len(),
            forall|j: int| 0 <= j < i ==> codecs@[j] != codec,
        decreases codecs@.len() - i,
    {
        if codecs[i] == codec {
            assert(codecs@[i as int] == codec);
            return true;
        }
        i = i + 1;
    }
    false
}

/// The family the plan starts with.
pub fn resolve_backend(settings: &VideoSettings, capabilities: &Vec<VideoBackendCapability>) -> (r:
    Result<VideoBackend, String>)
    ensures
        match r {
            Ok(b) => spec_resolved_backend(*settings, capabilities@) == Ok::<VideoBackend, Seq<char>>(b),
            Err(e) => spec_resolved_backend(*settings, capabilities@) == Err::<VideoBackend, Seq<char>>(e@),
        },
{
    let codec = settings.codec;
    match settings.hardware_acceleration {
        HardwareAcceleration::Software => Ok(VideoBackend::Software),
        HardwareAcceleration::Auto => {
            proof {
                lemma_first_capable(capabilities@, codec);
            }
            let mut i: usize = 0;
            while i < capabilities.len()
                invariant
                    i <= capabilities@.len(),
                    codec == settings.codec,
                    settings.hardware_acceleration == HardwareAcceleration::Auto,
                    forall|j: int| 0 <= j < i ==> !can_encode(#[trigger] capabilities@[j], codec),
                    -1 <= first_capable(capabilities@, codec) < capabilities@.len(),
                    first_capable(capabilities@, codec) >= 0 ==> can_encode(
                        capabilities@[first_capable(capabilities@, codec)],
                        codec,
                    ),
                    forall|j: int|
                        0 <= j < capabilities@.len() && (first_capable(capabilities@, codec) < 0
                            || j < first_capable(capabilities@, codec)) ==> !can_encode(
                            #[trigger] capabilities@[j],
                            codec,
                        ),
                decreases capabilities@.len() - i,
            {
                let c = &capabilities[i];
                if c.available && contains_codec(&c.codecs, codec) {
                    assert(can_encode(capabilities@[i as int], codec));
                    assert(first_capable(capabilities@, codec) == i);
                    return Ok(c.backend);
                }
                i = i + 1;
            }
            Ok(VideoBackend::Software)
        },
        preference => {
            let requested = match preference_backend(preference) {
                Some(b) => b,
                None => VideoBackend::Software,
            };
            let mut i: usize = 0;
            while i < capabilities.len()
                invariant
                    i <= capabilities@.len(),
                    codec == settings.codec,
                    settings.hardware_acceleration == preference,
                    preference != HardwareAcceleration::Auto,
                    preference != HardwareAcceleration::Software,
                    spec_preference_backend(preference) == Some(requested),
                    forall|j: int|
                        0 <= j < i ==> !(#[trigger] capabilities@[j].backend == requested
                            && can_encode(capabilities@[j], codec)),
                decreases capabilities@.len() - i,
            {
                let c = &capabilities[i];
                if c.backend == requested && c.available && contains_codec(&c.codecs, codec) {
                    assert(capabilities@[i as int].backend == requested && can_encode(
                        capabilities@[i as int],
                        codec,
                    ));
                    return Ok(requested);
                }
                i = i + 1;
            }
            let mut m = chars_of(backend_label(requested));
            push_str(&mut m, " is not available for ");
            push_str(&mut m, codec_label(codec));
            push_str(&mut m, " on this computer.");
            Err(string_of(m.as_slice()))
        },
    }
}

/// Some attempt of `attempts` is for `backend` with `audio`.
pub open spec fn has_attempt_for(attempts: Seq<VideoEncodeAttempt>, backend: VideoBackend, audio: AudioMode) -> bool {
    exists|i: int| 0 <= i < attempts.len() && attempts[i].backend == backend && attempts[i].audio == audio
}

/// Adds the attempt for `backend` with `audio`, unless one for that pair is
/// there already.
pub fn push_attempt(
    attempts: &mut Vec<VideoEncodeAttempt>,
    settings: &VideoSettings,
    backend: VideoBackend,
    audio: AudioMode,
) -> (r: Result<(), String>)
    ensures
        r is Ok,
        has_attempt_for(old(attempts)@, backend, audio) ==> final(attempts)@ == old(attempts)@,
        !has_attempt_for(old(attempts)@, backend, audio) ==> final(attempts)@.len() == old(attempts)@.len() + 1
            && final(attempts)@.drop_last() == old(attempts)@ && is_attempt(
            final(attempts)@.last(),
            *settings,
            backend,
            audio,
        ),
{
    let mut i: usize = 0;
    while i < attempts.len()
        invariant
            i <= attempts@.len(),
            forall|k: int| 0 <= k < i ==> !(attempts@[k].backend == backend && attempts@[k].audio == audio),
        decreases attempts@.len() - i,
    {
        if attempts[i].backend == backend && attempts[i].audio == audio {
            return Ok(());
        }
        i = i + 1;
    }
    let a = build_attempt(settings, backend, audio)?;
    let ghost before = attempts@;
    attempts.push(a);
    assert(attempts@.drop_last() =~= before);
    Ok(())
}

/// Ordered encoding attempts: the resolved family with the requested audio,
/// then AAC when audio was copied, then the same on the CPU when the resolved
/// family is a hardware one. Stream copy is a single software attempt.
pub fn resolve_video_encoding(
    settings: &VideoSettings,
    capabilities: &Vec<VideoBackendCapability>,
) -> (r: Result<VideoEncodingPlan, String>)
    ensures
        settings.codec == VideoCodec::Copy ==> (r matches Ok(plan) && plan.resolved_backend
            == VideoBackend::Software && attempts_follow(
            plan.attempts@,
            *settings,
            seq![(VideoBackend::Software, settings.audio)],
        )),
        settings.codec != VideoCodec::Copy ==> match r {
            Ok(plan) => spec_resolved_backend(*settings, capabilities@) == Ok::<
                VideoBackend,
                Seq<char>,
            >(plan.resolved_backend) && attempts_follow(
                plan.attempts@,
                *settings,
                spec_attempt_order(plan.resolved_backend, settings.audio),
            ),
            Err(e) => spec_resolved_backend(*settings, capabilities@) == Err::<
                VideoBackend,
                Seq<char>,
            >(e@),
        },
        match r {
            Ok(plan) => plan.resolved_backend != VideoBackend::Software ==> exists|k: int|
                0 <= k < plan.attempts@.len() && (#[trigger] plan.attempts@[k]).backend
                    == VideoBackend::Software && plan.attempts@[k].audio == settings.audio
                    && forall|j: int|
                    0 <= j < plan.attempts@.len() && plan.attempts@[j].backend
                        != VideoBackend::Software ==> j < k,
            Err(_) => true,
        },
{
    if settings.codec == VideoCodec::Copy {
        let mut attempts: Vec<VideoEncodeAttempt> = Vec::new();
        match build_attempt(settings, VideoBackend::Software, settings.audio) {
            Ok(a) => attempts.push(a),
            Err(e) => return Err(e),
        }
        assert(attempts_follow(
            attempts@,
            *settings,
            seq![(VideoBackend::Software, settings.audio)],
        ));
        return Ok(VideoEncodingPlan { resolved_backend: VideoBackend::Software, attempts });
    }
    let resolved = resolve_backend(settings, capabilities)?;
    let ghost order = spec_attempt_order(resolved, settings.audio);
    let mut attempts: Vec<VideoEncodeAttempt> = Vec::new();
    let mut order_exec: Vec<(VideoBackend, AudioMode)> = Vec::new();
    order_exec.push((resolved, settings.audio));
    if settings.audio == AudioMode::Copy {
        order_exec.push((resolved, AudioMode::Aac));
    }
    if resolved.is_hardware() {
        order_exec.push((VideoBackend::Software, settings.audio));
        if settings.audio == AudioMode::Copy {
            order_exec.push((VideoBackend::Software, AudioMode::Aac));
        }
    }
    assert(order_exec@ =~= order);
    assert(forall|j: int, k: int| 0 <= j < k < order.len() ==> order[j] != order[k]);
    let mut i: usize = 0;
    while i < order_exec.len()
        invariant
            i <= order_exec@.len(),
            order_exec@ == order,
            settings.codec != VideoCodec::Copy,
            forall|j: int, k: int| 0 <= j < k < order.len() ==> order[j] != order[k],
            attempts_follow(attempts@, *settings, order.subrange(0, i as int)),
        decreases order_exec@.len() - i,
    {
        let (b, a) = order_exec[i];
        proof {
            assert forall|j: int| 0 <= j < attempts@.len() implies !(attempts@[j].backend == b
                && attempts@[j].audio == a) by {
                assert(is_attempt(attempts@[j], *settings, order[j].0, order[j].1));
                assert(order[j] != order[i as int]);
            }
        }
        let ghost before = attempts@;
        assert(!has_attempt_for(before, b, a));
        push_attempt(&mut attempts, settings, b, a)?;
        proof {
            assert forall|j: int| 0 <= j < attempts@.len() implies is_attempt(
                #[trigger] attempts@[j],
                *settings,
                order.subrange(0, i + 1)[j].0,
                order.subrange(0, i + 1)[j].1,
            ) by {
                if j < before.len() {
                    assert(attempts@[j] == attempts@.drop_last()[j]);
                }
            }
        }
        i = i + 1;
        assert(order.subrange(0, i as int).drop_last() =~= order.subrange(0, i - 1));
    }
    assert(order.subrange(0, order.len() as int) =~= order);
    proof {
        if resolved != VideoBackend::Software {
            lemma_plan_falls_back_to_the_cpu(attempts@, *settings, resolved);
        }
    }
    Ok(VideoEncodingPlan { resolved_backend: resolved, attempts })
}

} // verus!

verus! {

/// Error text a cancelled encode reports instead of a real failure.
pub const CANCELLED: &'static str = "__cancelled__";

pub open spec fn invalid_media_text(t: Seq<char>) -> bool {
    ||| contains_text(t, "invalid data found"@)
    ||| contains_text(t, "moov atom not found"@)
    ||| contains_text(t, "could not find codec parameters"@)
    ||| contains_text(t, "error while decoding"@)
    ||| contains_text(t, "invalid nal unit"@)
}

pub open spec fn backend_unavailable_text(t: Seq<char>) -> bool {
    ||| contains_text(t, "no capable devices found"@)
    ||| contains_text(t, "cannot load nvcuda"@)
    ||| contains_text(t, "driver does not support"@)
    ||| contains_text(t, "failed to initialise vaapi"@)
    ||| contains_text(t, "failed to initialize vaapi"@)
    ||| contains_text(t, "device setup failed"@)
    ||| contains_text(t, "no device available"@)
    ||| contains_text(t, "mfx session"@)
    ||| contains_text(t, "amf failed"@)
    ||| contains_text(t, "videotoolbox session"@)
    ||| contains_text(t, "hardware device"@)
    ||| contains_text(t, "unsupported device"@)
}

pub open spec fn audio_incompatible_text(t: Seq<char>) -> bool {
    ||| contains_text(t, "could not find tag for codec"@)
    ||| contains_text(t, "not currently supported in container"@)
    ||| contains_text(t, "audio codec"@)
    ||| contains_text(t, "could not write header"@)
}

/// What an FFmpeg failure message says went wrong, checked in this order on
/// the ASCII-lower-cased text: cancellation, broken input, missing device,
/// audio that the container cannot hold.
pub open spec fn spec_classify_failure(error: Seq<char>) -> EncodeFailureKind {
    let t = lower_text(error);
    if error == CANCELLED@ {
        EncodeFailureKind::Cancelled
    } else if invalid_media_text(t) {
        EncodeFailureKind::InvalidMedia
    } else if backend_unavailable_text(t) {
        EncodeFailureKind::BackendUnavailable
    } else if audio_incompatible_text(t) {
        EncodeFailureKind::AudioIncompatible
    } else {
        EncodeFailureKind::Other
    }
}

fn has(t: &[char], needle: &str) -> (r: bool)
    ensures
        r == contains_text(t@, needle@),
{
    let n = chars_of(needle);
    contains_chars(t, n.as_slice())
}

pub fn classify_encode_failure(error: &str) -> (r: EncodeFailureKind)
    ensures
        r == spec_classify_failure(error@),
{
    let e = chars_of(error);
    if eq_lit(e.as_slice(), CANCELLED) {
        return EncodeFailureKind::Cancelled;
    }
    let t = lower_chars(e.as_slice());
    let l = t.as_slice();
    if has(l, "invalid data found") || has(l, "moov atom not found") || has(
        l,
        "could not find codec parameters",
    ) || has(l, "error while decoding") || has(l, "invalid nal unit") {
        return EncodeFailureKind::InvalidMedia;
    }
    if has(l, "no capable devices found") || has(l, "cannot load nvcuda") || has(
        l,
        "driver does not support",
    ) || has(l, "failed to initialise vaapi") || has(l, "failed to initialize vaapi") || has(
        l,
        "device setup failed",
    ) || has(l, "no device available") || has(l, "mfx session") || has(l, "amf failed") || has(
        l,
        "videotoolbox session",
    ) || has(l, "hardware device") || has(l, "unsupported device") {
        return EncodeFailureKind::BackendUnavailable;
    }
    if has(l, "could not find tag for codec") || has(l, "not currently supported in container")
        || has(l, "audio codec") || has(l, "could not write header") {
        return EncodeFailureKind::AudioIncompatible;
    }
    EncodeFailureKind::Other
}

/// The (family, audio) pairs worth retrying after a failure of `current`.
pub open spec fn spec_wanted(kind: EncodeFailureKind, current: VideoEncodeAttempt) -> Seq<
    (VideoBackend, AudioMode),
> {
    let s = VideoBackend::Software;
    let copied = current.audio == AudioMode::Copy;
    match kind {
        EncodeFailureKind::BackendUnavailable => seq![(s, current.audio)] + (if copied {
            seq![(s, AudioMode::Aac)]
        } else {
            Seq::empty()
        }),
        EncodeFailureKind::AudioIncompatible => if copied {
            seq![(current.backend, AudioMode::Aac), (s, AudioMode::Aac)]
        } else {
            Seq::empty()
        },
        EncodeFailureKind::Other => if current.backend.spec_is_hardware() {
            seq![(s, current.audio)] + (if copied {
                seq![(s, AudioMode::Aac)]
            } else {
                Seq::empty()
            })
        } else if copied {
            seq![(s, AudioMode::Aac)]
        } else {
            Seq::empty()
        },
        _ => Seq::empty(),
    }
}

/// First attempt index, not yet tried, that uses `backend` with `audio`; -1
/// when there is none.
pub open spec fn find_untried(
    attempts: Seq<VideoEncodeAttempt>,
    attempted: Set<usize>,
    backend: VideoBackend,
    audio: AudioMode,
    from: int,
) -> int
    decreases attempts.len() - from,
{
    if from < 0 || from >= attempts.len() {
        -1
    } else if !attempted.contains(from as usize) && attempts[from].backend == backend
        && attempts[from].audio == audio {
        from
    } else {
        find_untried(attempts, attempted, backend, audio, from + 1)
    }
}

/// The untried attempt for the first wanted pair that has one.
pub open spec fn first_found(
    attempts: Seq<VideoEncodeAttempt>,
    attempted: Set<usize>,
    wanted: Seq<(VideoBackend, AudioMode)>,
) -> int
    decreases wanted.len(),
{
    if wanted.len() == 0 {
        -1
    } else {
        let i = find_untried(attempts, attempted, wanted[0].0, wanted[0].1, 0);
        if i >= 0 {
            i
        } else {
            first_found(attempts, attempted, wanted.drop_first())
        }
    }
}

/// The attempt to run after `attempts[current]` failed with `error`, among
/// those not yet tried; `None` when the failure is final.
pub open spec fn spec_next_attempt_in(
    attempts: Seq<VideoEncodeAttempt>,
    current: int,
    error: Seq<char>,
    attempted: Set<usize>,
) -> Option<int> {
    if current < 0 || current >= attempts.len() {
        None
    } else {
        let kind = spec_classify_failure(error);
        if kind == EncodeFailureKind::Cancelled || kind == EncodeFailureKind::InvalidMedia {
            None
        } else {
            let i = first_found(attempts, attempted, spec_wanted(kind, attempts[current]));
            if i >= 0 {
                Some(i)
            } else {
                None
            }
        }
    }
}

pub open spec fn spec_next_attempt(
    plan: VideoEncodingPlan,
    current: int,
    error: Seq<char>,
    attempted: Set<usize>,
) -> Option<int> {
    spec_next_attempt_in(plan.attempts@, current, error, attempted)
}

pub proof fn lemma_find_untried_fresh(
    attempts: Seq<VideoEncodeAttempt>,
    attempted: Set<usize>,
    backend: VideoBackend,
    audio: AudioMode,
    from: int,
)
    ensures
        ({
            let i = find_untried(attempts, attempted, backend, audio, from);
            i == -1 || (0 <= i < attempts.len() && !attempted.contains(i as usize))
        }),
    decreases attempts.len() - from,
{
    if from < 0 || from >= attempts.len() {
    } else if !attempted.contains(from as usize) && attempts[from].backend == backend
        && attempts[from].audio == audio {
    } else {
        lemma_find_untried_fresh(attempts, attempted, backend, audio, from + 1);
    }
}

pub proof fn lemma_first_found_fresh(
    attempts: Seq<VideoEncodeAttempt>,
    attempted: Set<usize>,
    wanted: Seq<(VideoBackend, AudioMode)>,
)
    ensures
        ({
            let i = first_found(attempts, attempted, wanted);
            i == -1 || (0 <= i < attempts.len() && !attempted.contains(i as usize))
        }),
    decreases wanted.len(),
{
    if wanted.len() > 0 {
        lemma_find_untried_fresh(attempts, attempted, wanted[0].0, wanted[0].1, 0);
        lemma_first_found_fresh(attempts, attempted, wanted.drop_first());
    }
}

/// A fallback never goes back to an attempt that already ran.
pub proof fn lemma_next_attempt_fresh(
    attempts: Seq<VideoEncodeAttempt>,
    current: int,
    error: Seq<char>,
    attempted: Set<usize>,
)
    ensures
        spec_next_attempt_in(attempts, current, error, attempted) matches Some(i) ==> 0 <= i
            < attempts.len() && !attempted.contains(i as usize),
{
    if 0 <= current < attempts.len() {
        let kind = spec_classify_failure(error);
        lemma_first_found_fresh(attempts, attempted, spec_wanted(kind, attempts[current]));
    }
}

fn find_untried_exec(
    attempts: &Vec<VideoEncodeAttempt>,
    attempted: &HashSet<usize>,
    backend: VideoBackend,
    audio: AudioMode,
) -> (r: Option<usize>)
    ensures
        match r {
            Some(i) => i as int == find_untried(attempts@, attempted@, backend, audio, 0),
            None => find_untried(attempts@, attempted@, backend, audio, 0) == -1,
        },
{
    broadcast use vstd::std_specs::hash::group_hash_axioms;

    let mut i: usize = 0;
    while i < attempts.len()
        invariant
            i <= attempts@.len(),
            find_untried(attempts@, attempted@, backend, audio, 0) == find_untried(
                attempts@,
                attempted@,
                backend,
                audio,
                i as int,
            ),
        decreases attempts@.len() - i,
    {
        let a = &attempts[i];
        if !attempted.contains(&i) && a.backend == backend && a.audio == audio {
            return Some(i);
        }
        i = i + 1;
    }
    None
}

/// Chooses a fallback without retrying corrupt media or cancelled jobs.
pub fn next_attempt_index(
    plan: &VideoEncodingPlan,
    current: usize,
    error: &str,
    attempted: &HashSet<usize>,
) -> (r: Option<usize>)
    ensures
        match r {
            Some(i) => spec_next_attempt(*plan, current as int, error@, attempted@) == Some(i as int),
            None => spec_next_attempt(*plan, current as int, error@, attempted@) is None,
        },
{
    next_attempt_in(&plan.attempts, current, error, attempted)
}

/// `next_attempt_index` over the attempts alone.
pub fn next_attempt_in(
    attempts: &Vec<VideoEncodeAttempt>,
    current: usize,
    error: &str,
    attempted: &HashSet<usize>,
) -> (r: Option<usize>)
    ensures
        match r {
            Some(i) => spec_next_attempt_in(attempts@, current as int, error@, attempted@) == Some(
                i as int,
            ),
            None => spec_next_attempt_in(attempts@, current as int, error@, attempted@) is None,
        },
{
    if current >= attempts.len() {
        return None;
    }
    let cur = &attempts[current];
    let kind = classify_encode_failure(error);
    if kind == EncodeFailureKind::Cancelled || kind == EncodeFailureKind::InvalidMedia {
        return None;
    }
    let s = VideoBackend::Software;
    let copied = cur.audio == AudioMode::Copy;
    let mut wanted: Vec<(VideoBackend, AudioMode)> = Vec::new();
    match kind {
        EncodeFailureKind::BackendUnavailable => {
            wanted.push((s, cur.audio));
            if copied {
                wanted.push((s, AudioMode::Aac));
            }
        },
        EncodeFailureKind::AudioIncompatible => {
            if copied {
                wanted.push((cur.backend, AudioMode::Aac));
                wanted.push((s, AudioMode::Aac));
            }
        },
        EncodeFailureKind::Other => {
            if cur.backend.is_hardware() {
                wanted.push((s, cur.audio));
                if copied {
                    wanted.push((s, AudioMode::Aac));
                }
            } else if copied {
                wanted.push((s, AudioMode::Aac));
            }
        },
        _ => {},
    }
    let ghost w = spec_wanted(kind, attempts@[current as int]);
    assert(wanted@ =~= w);
    assert(w.subrange(0, w.len() as int) =~= w);
    let mut k: usize = 0;
    while k < wanted.len()
        invariant
            k <= wanted@.len(),
            wanted@ == w,
            current < attempts@.len(),
            kind == spec_classify_failure(error@),
            kind != EncodeFailureKind::Cancelled && kind != EncodeFailureKind::InvalidMedia,
            w == spec_wanted(kind, attempts@[current as int]),
            first_found(attempts@, attempted@, w) == first_found(
                attempts@,
                attempted@,
                w.subrange(k as int, w.len() as int),
            ),
        decreases wanted@.len() - k,
    {
        let (b, a) = wanted[k];
        let found = find_untried_exec(attempts, attempted, b, a);
        proof {
            let rest = w.subrange(k as int, w.len() as int);
            assert(rest[0] == (b, a));
            assert(rest.drop_first() =~= w.subrange(k + 1, w.len() as int));
        }
        if let Some(i) = found {
            return Some(i);
        }
        k = k + 1;
    }
    proof {
        assert(w.subrange(w.len() as int, w.len() as int) =~= Seq::<(VideoBackend, AudioMode)>::empty());
    }
    None
}

} // verus!

verus! {

/// `encoders` (the output of `ffmpeg -encoders`) lists `encoder`: some line
/// has it as its second word.
pub open spec fn spec_has_encoder(encoders: Seq<char>, encoder: Seq<char>) -> bool {
    exists|i: int|
        0 <= i < spec_lines(encoders).len() && #[trigger] second_word(spec_lines(encoders)[i])
            == Some(encoder)
}

pub fn has_encoder(encoders: &str, encoder: &str) -> (r: bool)
    ensures
        r == spec_has_encoder(encoders@, encoder@),
{
    let text = chars_of(encoders);
    let want = chars_of(encoder);
    let lines = lines_of(text.as_slice());
    let ghost ls = spec_lines(encoders@);
    let mut i: usize = 0;
    while i < lines.len()
        invariant
            i <= lines@.len(),
            seqs(lines@) == ls,
            ls == spec_lines(encoders@),
            want@ == encoder@,
            forall|j: int| 0 <= j < i ==> #[trigger] second_word(ls[j]) != Some(want@),
        decreases lines@.len() - i,
    {
        assert(ls[i as int] == lines@[i as int]@);
        match second_word_exec(lines[i].as_slice()) {
            Some(w) => {
                if chars_eq(w.as_slice(), want.as_slice()) {
                    assert(second_word(ls[i as int]) == Some(encoder@));
                    return true;
                }
            },
            None => {},
        }
        i = i + 1;
    }
    assert forall|j: int| 0 <= j < ls.len() implies #[trigger] second_word(ls[j]) != Some(
        encoder@,
    ) by {}
    false
}

pub proof fn lemma_trim_start_shorter(s: Seq<char>)
    ensures
        trim_start(s).len() <= s.len(),
{
    lemma_trim_start_bounds(s);
}

/// `rest` without leading `[name @ address]` tags.
pub open spec fn strip_tags(rest: Seq<char>) -> Seq<char>
    decreases rest.len(),
{
    if rest.len() > 0 && rest[0] == '[' {
        let k = first_index_of(rest, ']');
        proof {
            lemma_first_index_bounds(rest, ']');
        }
        if k >= 1 && contains_text(rest.subrange(1, k), " @ "@) {
            proof {
                lemma_trim_start_shorter(rest.subrange(k + 1, rest.len() as int));
            }
            strip_tags(trim_start(rest.subrange(k + 1, rest.len() as int)))
        } else {
            rest
        }
    } else {
        rest
    }
}

/// A line of FFmpeg output without surrounding white space and without its
/// leading `[encoder @ 0x…]` tags; a bracketed word without an address is
/// message text and stays.
pub open spec fn spec_strip_ffmpeg_tag(line: Seq<char>) -> Seq<char> {
    strip_tags(trim(line))
}

pub fn strip_ffmpeg_tag(line: &str) -> (r: String)
    ensures
        r@ == spec_strip_ffmpeg_tag(line@),
{
    let l = chars_of(line);
    let mut rest = trimmed(l.as_slice());
    let sep = chars_of(" @ ");
    while rest.len() > 0 && rest[0] == '['
        invariant
            strip_tags(rest@) == spec_strip_ffmpeg_tag(line@),
            sep@ == " @ "@,
        ensures
            strip_tags(rest@) == spec_strip_ffmpeg_tag(line@),
            strip_tags(rest@) == rest@,
        decreases rest@.len(),
    {
        let end = match find_char(rest.as_slice(), ']') {
            Some(e) => e,
            None => {
                proof {
                    lemma_first_index_unique(rest@, ']', -1);
                }
                break;
            },
        };
        proof {
            lemma_first_index_unique(rest@, ']', end as int);
        }
        if end == 0 {
            break;
        }
        let tag = slice_chars(rest.as_slice(), 1, end);
        if !contains_chars(tag.as_slice(), sep.as_slice()) {
            break;
        }
        let after = slice_chars(rest.as_slice(), end + 1, rest.len());
        let t = trim_start_exec(after.as_slice());
        let next = slice_chars(after.as_slice(), t, after.len());
        proof {
            lemma_trim_start_bounds(after@);
        }
        rest = next;
    }
    string_of(rest.as_slice())
}

/// The first line that still holds text once tags are stripped.
pub open spec fn first_reason(lines: Seq<Seq<char>>) -> Option<Seq<char>>
    decreases lines.len(),
{
    if lines.len() == 0 {
        None
    } else {
        let t = spec_strip_ffmpeg_tag(lines[0]);
        if t.len() > 0 {
            Some(t)
        } else {
            first_reason(lines.drop_first())
        }
    }
}

/// The first meaningful line of an ffmpeg probe failure, without tags; the
/// whole text trimmed when no line has any.
pub open spec fn spec_probe_reason(text: Seq<char>) -> Seq<char> {
    match first_reason(spec_lines(text)) {
        Some(t) => t,
        None => trim(text),
    }
}

pub fn probe_reason(text: &str) -> (r: String)
    ensures
        r@ == spec_probe_reason(text@),
{
    let t = chars_of(text);
    let lines = lines_of(t.as_slice());
    let ghost ls = spec_lines(text@);
    let mut i: usize = 0;
    assert(ls.subrange(0, ls.len() as int) =~= ls);
    while i < lines.len()
        invariant
            i <= lines@.len(),
            seqs(lines@) == ls,
            ls == spec_lines(text@),
            first_reason(ls) == first_reason(ls.subrange(i as int, ls.len() as int)),
        decreases lines@.len() - i,
    {
        let line = string_of(lines[i].as_slice());
        let stripped = strip_ffmpeg_tag(line.as_str());
        proof {
            let rest = ls.subrange(i as int, ls.len() as int);
            assert(rest[0] == lines@[i as int]@);
            assert(rest.drop_first() =~= ls.subrange(i + 1, ls.len() as int));
        }
        let sc = chars_of(stripped.as_str());
        if sc.len() > 0 {
            return stripped;
        }
        i = i + 1;
    }
    assert(ls.subrange(ls.len() as int, ls.len() as int) =~= Seq::<Seq<char>>::empty());
    let tt = trimmed(t.as_slice());
    string_of(tt.as_slice())
}

pub open spec fn failure_views(f: Seq<(VideoCodec, String)>) -> Seq<(VideoCodec, Seq<char>)> {
    f.map_values(|p: (VideoCodec, String)| (p.0, p.1@))
}

/// Every reason equals the first one.
pub open spec fn all_same_reason(f: Seq<(VideoCodec, Seq<char>)>) -> bool {
    forall|i: int| 0 <= i < f.len() ==> #[trigger] f[i].1 == f[0].1
}

/// `codec: why` parts joined with `; `.
pub open spec fn join_failures(f: Seq<(VideoCodec, Seq<char>)>) -> Seq<char>
    decreases f.len(),
{
    if f.len() == 0 {
        Seq::empty()
    } else {
        let part = spec_codec_label(f.last().0) + ": "@ + f.last().1;
        if f.len() == 1 {
            part
        } else {
            join_failures(f.drop_last()) + "; "@ + part
        }
    }
}

/// One driver problem usually fails every codec with the same message, so
/// the codec prefix is only written when the failures differ.
pub open spec fn spec_describe_failures(f: Seq<(VideoCodec, Seq<char>)>) -> Seq<char> {
    if f.len() > 0 && all_same_reason(f) {
        f[0].1
    } else {
        join_failures(f)
    }
}

pub fn describe_failures(failures: &Vec<(VideoCodec, String)>) -> (r: String)
    ensures
        r@ == spec_describe_failures(failure_views(failures@)),
{
    let ghost f = failure_views(failures@);
    if failures.len() > 0 {
        let first = chars_of(failures[0].1.as_str());
        let mut same = true;
        let mut i: usize = 0;
        while i < failures.len()
            invariant
                i <= failures@.len(),
                failures@.len() > 0,
                f == failure_views(failures@),
                first@ == f[0].1,
                same == (forall|j: int| 0 <= j < i ==> #[trigger] f[j].1 == f[0].1),
            decreases failures@.len() - i,
        {
            let w = chars_of(failures[i].1.as_str());
            assert(f[i as int].1 == failures@[i as int].1@);
            if !chars_eq(w.as_slice(), first.as_slice()) {
                same = false;
            }
            i = i + 1;
        }
        if same {
            return failures[0].1.clone();
        }
    }
    let mut out: Vec<char> = Vec::new();
    let mut i: usize = 0;
    assert(f.subrange(0, 0) =~= Seq::<(VideoCodec, Seq<char>)>::empty());
    while i < failures.len()
        invariant
            i <= failures@.len(),
            f == failure_views(failures@),
            out@ == join_failures(f.subrange(0, i as int)),
        decreases failures@.len() - i,
    {
        if i > 0 {
            push_str(&mut out, "; ");
        }
        push_str(&mut out, codec_label(failures[i].0));
        push_str(&mut out, ": ");
        let w = chars_of(failures[i].1.as_str());
        push_all(&mut out, w.as_slice());
        i = i + 1;
        proof {
            let t = f.subrange(0, i as int);
            assert(t.drop_last() =~= f.subrange(0, i - 1));
            assert(t.last() == f[i - 1]);
        }
    }
    assert(f.subrange(0, f.len() as int) =~= f);
    string_of(out.as_slice())
}

} // verus!

verus! {

/// The acceleration preference that selects exactly `backend`.
pub open spec fn spec_acceleration_for(backend: VideoBackend) -> HardwareAcceleration {
    match backend {
        VideoBackend::Software => HardwareAcceleration::Software,
        VideoBackend::Nvidia => HardwareAcceleration::Nvidia,
        VideoBackend::Intel => HardwareAcceleration::Intel,
        VideoBackend::Amd => HardwareAcceleration::Amd,
        VideoBackend::VideoToolbox => HardwareAcceleration::VideoToolbox,
        VideoBackend::Vaapi => HardwareAcceleration::Vaapi,
    }
}

/// The settings of a device probe: default quality, no scaling, no audio,
/// no metadata and no faststart, pinned to one family.
pub open spec fn is_probe_settings(s: VideoSettings, backend: VideoBackend, codec: VideoCodec) -> bool {
    &&& s.codec == codec
    &&& s.crf == 28
    &&& s.speed_preset@ == "medium"@
    &&& s.max_height is None
    &&& s.max_fps is None
    &&& s.audio == AudioMode::Drop
    &&& s.audio_bitrate_kbps == 128
    &&& !s.faststart
    &&& !s.keep_metadata
    &&& s.hardware_acceleration == spec_acceleration_for(backend)
}

/// `a` is the one-frame encode that checks `backend` can really encode `codec`.
pub open spec fn is_probe_attempt(a: VideoEncodeAttempt, backend: VideoBackend, codec: VideoCodec) -> bool {
    exists|s: VideoSettings| #[trigger] is_probe_settings(s, backend, codec) && is_attempt(a, s, backend, AudioMode::Drop)
}

pub fn probe_attempt(backend: VideoBackend, codec: VideoCodec) -> (r: VideoEncodeAttempt)
    ensures
        is_probe_attempt(r, backend, codec),
{
    let hardware_acceleration = match backend {
        VideoBackend::Software => HardwareAcceleration::Software,
        VideoBackend::Nvidia => HardwareAcceleration::Nvidia,
        VideoBackend::Intel => HardwareAcceleration::Intel,
        VideoBackend::Amd => HardwareAcceleration::Amd,
        VideoBackend::VideoToolbox => HardwareAcceleration::VideoToolbox,
        VideoBackend::Vaapi => HardwareAcceleration::Vaapi,
    };
    let settings = VideoSettings {
        codec,
        crf: default_crf(),
        speed_preset: default_speed_preset(),
        max_height: None,
        max_fps: None,
        audio: AudioMode::Drop,
        audio_bitrate_kbps: default_audio_bitrate(),
        faststart: false,
        keep_metadata: false,
        hardware_acceleration,
    };
    let a = build_attempt(&settings, backend, AudioMode::Drop).unwrap();
    assert(is_probe_settings(settings, backend, codec));
    a
}

/// FFmpeg was built with the encoder that `backend` uses for `codec`.
pub open spec fn is_compiled(backend: VideoBackend, encoders: Seq<char>, codec: VideoCodec) -> bool {
    &&& spec_encoder_name(backend, codec) is Some
    &&& spec_has_encoder(encoders, spec_encoder_name(backend, codec).unwrap())
}

pub open spec fn keep_if(c: bool, codec: VideoCodec) -> Seq<VideoCodec> {
    if c {
        seq![codec]
    } else {
        Seq::empty()
    }
}

/// The re-encoding codecs, in order, whose encoder for `backend` the build has.
pub open spec fn compiled_codecs(backend: VideoBackend, encoders: Seq<char>) -> Seq<VideoCodec> {
    keep_if(is_compiled(backend, encoders, VideoCodec::H264), VideoCodec::H264)
        + keep_if(is_compiled(backend, encoders, VideoCodec::H265), VideoCodec::H265)
        + keep_if(is_compiled(backend, encoders, VideoCodec::Av1), VideoCodec::Av1)
}

/// The probed codecs whose probe succeeded, in probe order.
pub open spec fn ok_codecs(codecs: Seq<VideoCodec>, results: Seq<Result<(), String>>) -> Seq<VideoCodec>
    decreases codecs.len(),
{
    if codecs.len() == 0 {
        Seq::empty()
    } else {
        let rest = ok_codecs(codecs.drop_last(), results.take(codecs.len() - 1));
        if results[codecs.len() - 1] is Ok {
            rest.push(codecs.last())
        } else {
            rest
        }
    }
}

/// The failed probes with the reason each one gave, in probe order.
pub open spec fn probe_failures(codecs: Seq<VideoCodec>, results: Seq<Result<(), String>>) -> Seq<
    (VideoCodec, Seq<char>),
>
    decreases codecs.len(),
{
    if codecs.len() == 0 {
        Seq::empty()
    } else {
        let rest = probe_failures(codecs.drop_last(), results.take(codecs.len() - 1));
        match results[codecs.len() - 1] {
            Ok(_) => rest,
            Err(e) => rest.push((codecs.last(), spec_probe_reason(e@))),
        }
    }
}

/// `c` is what detection reports for `backend` when the build has the
/// encoders for `compiled` and their probes gave `results`.
pub open spec fn capability_matches(
    c: VideoBackendCapability,
    backend: VideoBackend,
    compiled: Seq<VideoCodec>,
    results: Seq<Result<(), String>>,
) -> bool {
    let ok = ok_codecs(compiled, results);
    &&& c.backend == backend
    &&& c.codecs@ == ok
    &&& c.available == (ok.len() > 0)
    &&& if ok.len() > 0 {
        c.reason is None
    } else if compiled.len() > 0 {
        c.reason matches Some(r) && r@ == spec_describe_failures(probe_failures(compiled, results))
    } else {
        c.reason matches Some(r) && r@ == "Encoder not included in this FFmpeg build."@
    }
}

/// What one family can do, from the codecs whose encoders the build has and
/// the outcome of each device probe (`results[k]` for `compiled[k]`).
pub fn summarize_backend(
    backend: VideoBackend,
    compiled: &Vec<VideoCodec>,
    results: &Vec<Result<(), String>>,
) -> (r: VideoBackendCapability)
    requires
        compiled@.len() == results@.len(),
    ensures
        capability_matches(r, backend, compiled@, results@),
{
    let mut codecs: Vec<VideoCodec> = Vec::new();
    let mut failures: Vec<(VideoCodec, String)> = Vec::new();
    let mut k: usize = 0;
    while k < compiled.len()
        invariant
            k <= compiled@.len(),
            compiled@.len() == results@.len(),
            codecs@ == ok_codecs(compiled@.take(k as int), results@.take(k as int)),
            failure_views(failures@) == probe_failures(
                compiled@.take(k as int),
                results@.take(k as int),
            ),
        decreases compiled@.len() - k,
    {
        proof {
            let c1 = compiled@.take(k + 1);
            let r1 = results@.take(k + 1);
            assert(c1.drop_last() =~= compiled@.take(k as int));
            assert(r1.take(k as int) =~= results@.take(k as int));
        }
        match &results[k] {
            Ok(()) => codecs.push(compiled[k]),
            Err(e) => {
                let why = probe_reason(e.as_str());
                failures.push((compiled[k], why));
                proof {
                    assert(failure_views(failures@) =~= probe_failures(
                        compiled@.take(k as int),
                        results@.take(k as int),
                    ).push((compiled@[k as int], spec_probe_reason(e@))));
                }
            },
        }
        k = k + 1;
    }
    assert(compiled@.take(k as int) =~= compiled@);
    assert(results@.take(k as int) =~= results@);
    let available = codecs.len() > 0;
    let reason = if available {
        None
    } else if compiled.len() > 0 {
        Some(describe_failures(&failures))
    } else {
        Some(String::from_str("Encoder not included in this FFmpeg build."))
    };
    VideoBackendCapability { backend, codecs, available, reason }
}

} // verus!

verus! {

/// `results` are outcomes of `probe` on the probe attempts of the codecs
/// that the build compiled for `backend`, and `c` is what they show.
pub open spec fn detected_from<F: Fn(&VideoEncodeAttempt) -> Result<(), String>>(
    c: VideoBackendCapability,
    backend: VideoBackend,
    encoders: Seq<char>,
    probe: F,
    results: Seq<Result<(), String>>,
) -> bool {
    let compiled = compiled_codecs(backend, encoders);
    &&& results.len() == compiled.len()
    &&& capability_matches(c, backend, compiled, results)
    &&& forall|k: int|
        0 <= k < compiled.len() ==> exists|a: VideoEncodeAttempt|
            is_probe_attempt(a, backend, compiled[k]) && call_ensures(
                probe,
                (&a,),
                #[trigger] results[k],
            )
}

/// Some outcomes of the device probes show `c` for `backend`.
pub open spec fn detected<F: Fn(&VideoEncodeAttempt) -> Result<(), String>>(
    c: VideoBackendCapability,
    backend: VideoBackend,
    encoders: Seq<char>,
    probe: F,
) -> bool {
    exists|results: Seq<Result<(), String>>| detected_from(c, backend, encoders, probe, results)
}

fn probe_codec<F: Fn(&VideoEncodeAttempt) -> Result<(), String>>(
    backend: VideoBackend,
    codec: VideoCodec,
    encoders: &str,
    probe: &F,
    compiled: &mut Vec<VideoCodec>,
    results: &mut Vec<Result<(), String>>,
)
    requires
        forall|a: VideoEncodeAttempt| call_requires(*probe, (&a,)),
        codec != VideoCodec::Copy,
    ensures
        is_compiled(backend, encoders@, codec) ==> {
            &&& final(compiled)@ == old(compiled)@.push(codec)
            &&& final(results)@.len() == old(results)@.len() + 1
            &&& final(results)@.take(old(results)@.len() as int) == old(results)@
            &&& exists|a: VideoEncodeAttempt|
                is_probe_attempt(a, backend, codec) && call_ensures(
                    *probe,
                    (&a,),
                    #[trigger] final(results)@[old(results)@.len() as int],
                )
        },
        !is_compiled(backend, encoders@, codec) ==> {
            &&& final(compiled)@ == old(compiled)@
            &&& final(results)@ == old(results)@
        },
{
    let encoder = match encoder_name(backend, codec) {
        Some(e) => e,
        None => {
            return;
        },
    };
    if !has_encoder(encoders, encoder) {
        return;
    }
    let attempt = probe_attempt(backend, codec);
    let outcome = probe(&attempt);
    compiled.push(codec);
    results.push(outcome);
    assert(results@.take(old(results)@.len() as int) =~= old(results)@);
}

/// The outcomes gathered by three `probe_codec` calls line up with the
/// compiled codecs.
proof fn lemma_probed_outcomes<F: Fn(&VideoEncodeAttempt) -> Result<(), String>>(
    probe: F,
    backend: VideoBackend,
    encoders: Seq<char>,
    r1: Seq<Result<(), String>>,
    r2: Seq<Result<(), String>>,
    rs: Seq<Result<(), String>>,
)
    requires
        is_compiled(backend, encoders, VideoCodec::H264) ==> {
            &&& r1.len() == 1
            &&& exists|a: VideoEncodeAttempt|
                is_probe_attempt(a, backend, VideoCodec::H264) && call_ensures(probe, (&a,), r1[0])
        },
        !is_compiled(backend, encoders, VideoCodec::H264) ==> r1.len() == 0,
        is_compiled(backend, encoders, VideoCodec::H265) ==> {
            &&& r2.len() == r1.len() + 1
            &&& r2.take(r1.len() as int) == r1
            &&& exists|a: VideoEncodeAttempt|
                is_probe_attempt(a, backend, VideoCodec::H265) && call_ensures(
                    probe,
                    (&a,),
                    r2[r1.len() as int],
                )
        },
        !is_compiled(backend, encoders, VideoCodec::H265) ==> r2 == r1,
        is_compiled(backend, encoders, VideoCodec::Av1) ==> {
            &&& rs.len() == r2.len() + 1
            &&& rs.take(r2.len() as int) == r2
            &&& exists|a: VideoEncodeAttempt|
                is_probe_attempt(a, backend, VideoCodec::Av1) && call_ensures(
                    probe,
                    (&a,),
                    rs[r2.len() as int],
                )
        },
        !is_compiled(backend, encoders, VideoCodec::Av1) ==> rs == r2,
    ensures
        rs.len() == compiled_codecs(backend, encoders).len(),
        forall|k: int|
            0 <= k < compiled_codecs(backend, encoders).len() ==> exists|a: VideoEncodeAttempt|
                is_probe_attempt(a, backend, compiled_codecs(backend, encoders)[k]) && call_ensures(
                    probe,
                    (&a,),
                    #[trigger] rs[k],
                ),
{
    let comp = compiled_codecs(backend, encoders);
    assert forall|k: int| 0 <= k < comp.len() implies exists|a: VideoEncodeAttempt|
        is_probe_attempt(a, backend, comp[k]) && call_ensures(probe, (&a,), #[trigger] rs[k]) by {
        if k < r1.len() {
            assert(rs[k] == r2[k]);
            assert(r2[k] == r1[k]);
            assert(comp[k] == VideoCodec::H264);
            let a = choose|a: VideoEncodeAttempt|
                is_probe_attempt(a, backend, VideoCodec::H264) && call_ensures(probe, (&a,), r1[0]);
            assert(is_probe_attempt(a, backend, comp[k]) && call_ensures(probe, (&a,), rs[k]));
        } else if k < r2.len() {
            assert(rs[k] == r2[k]);
            assert(comp[k] == VideoCodec::H265);
            let a = choose|a: VideoEncodeAttempt|
                is_probe_attempt(a, backend, VideoCodec::H265) && call_ensures(
                    probe,
                    (&a,),
                    r2[r1.len() as int],
                );
            assert(is_probe_attempt(a, backend, comp[k]) && call_ensures(probe, (&a,), rs[k]));
        } else {
            assert(comp[k] == VideoCodec::Av1);
            let a = choose|a: VideoEncodeAttempt|
                is_probe_attempt(a, backend, VideoCodec::Av1) && call_ensures(
                    probe,
                    (&a,),
                    rs[r2.len() as int],
                );
            assert(is_probe_attempt(a, backend, comp[k]) && call_ensures(probe, (&a,), rs[k]));
        }
    }
}

/// What each family in `backends` can really do on this machine.
///
/// A family is usable for a codec only when the build has its encoder and a
/// one-frame device probe (`probe`) succeeds; the reason of an unusable
/// family comes from its probe failures, or says that the build lacks it.
pub fn detect_video_backends_for<F: Fn(&VideoEncodeAttempt) -> Result<(), String>>(
    backends: &[VideoBackend],
    encoders: &str,
    probe: &F,
) -> (r: Vec<VideoBackendCapability>)
    requires
        forall|a: VideoEncodeAttempt| call_requires(*probe, (&a,)),
    ensures
        r@.len() == backends@.len(),
        forall|i: int|
            0 <= i < backends@.len() ==> #[trigger] detected(r@[i], backends@[i], encoders@, *probe),
{
    let mut out: Vec<VideoBackendCapability> = Vec::new();
    let mut i: usize = 0;
    while i < backends.len()
        invariant
            i <= backends@.len(),
            out@.len() == i,
            forall|a: VideoEncodeAttempt| call_requires(*probe, (&a,)),
            forall|j: int|
                0 <= j < i ==> #[trigger] detected(out@[j], backends@[j], encoders@, *probe),
        decreases backends@.len() - i,
    {
        let backend = backends[i];
        let mut compiled: Vec<VideoCodec> = Vec::new();
        let mut results: Vec<Result<(), String>> = Vec::new();
        probe_codec(backend, VideoCodec::H264, encoders, probe, &mut compiled, &mut results);
        let ghost r1 = results@;
        probe_codec(backend, VideoCodec::H265, encoders, probe, &mut compiled, &mut results);
        let ghost r2 = results@;
        probe_codec(backend, VideoCodec::Av1, encoders, probe, &mut compiled, &mut results);
        let cap = summarize_backend(backend, &compiled, &results);
        proof {
            let comp = compiled_codecs(backend, encoders@);
            assert(compiled@ =~= comp);
            lemma_probed_outcomes(*probe, backend, encoders@, r1, r2, results@);
            assert(detected_from(cap, backend, encoders@, *probe, results@));
        }
        let ghost prev = out@;
        out.push(cap);
        i = i + 1;
        proof {
            assert forall|j: int| 0 <= j < i implies #[trigger] detected(
                out@[j],
                backends@[j],
                encoders@,
                *probe,
            ) by {
                if j < i - 1 {
                    assert(out@[j] == prev[j]);
                } else {
                    assert(out@[j] == cap);
                }
            }
        }
    }
    out
}

/// The hardware families worth probing on an operating system, named as
/// Rust names target systems (`windows`, `macos`, `linux`, ...): the NVIDIA,
/// Intel and AMD SDKs on Windows, VideoToolbox on macOS, VAAPI on other Unix
/// systems.
pub open spec fn spec_platform_backends(os: Seq<char>) -> Seq<VideoBackend> {
    if os == "windows"@ {
        seq![VideoBackend::Nvidia, VideoBackend::Intel, VideoBackend::Amd]
    } else if os == "macos"@ {
        seq![VideoBackend::VideoToolbox]
    } else {
        seq![VideoBackend::Vaapi]
    }
}

pub fn platform_backends(os: &str) -> (r: Vec<VideoBackend>)
    ensures
        r@ == spec_platform_backends(os@),
{
    let name = chars_of(os);
    let mut out: Vec<VideoBackend> = Vec::new();
    if eq_lit(name.as_slice(), "windows") {
        out.push(VideoBackend::Nvidia);
        out.push(VideoBackend::Intel);
        out.push(VideoBackend::Amd);
    } else if eq_lit(name.as_slice(), "macos") {
        out.push(VideoBackend::VideoToolbox);
    } else {
        out.push(VideoBackend::Vaapi);
    }
    assert(out@ =~= spec_platform_backends(os@));
    out
}

/// A detected family is the one asked about, and it is available exactly
/// when some codec passed its probe, which is exactly when no reason is
/// given.
pub proof fn lemma_detected_shape<F: Fn(&VideoEncodeAttempt) -> Result<(), String>>(
    c: VideoBackendCapability,
    backend: VideoBackend,
    encoders: Seq<char>,
    probe: F,
)
    requires
        detected(c, backend, encoders, probe),
    ensures
        c.backend == backend,
        c.available <==> c.codecs@.len() > 0,
        c.available <==> c.reason is None,
{
    let results = choose|results: Seq<Result<(), String>>|
        detected_from(c, backend, encoders, probe, results);
    assert(detected_from(c, backend, encoders, probe, results));
}

/// Detects usable devices, not just encoders compiled into FFmpeg: every
/// family of the platform `os` gets one real frame encode per codec that
/// the build has.
pub fn detect_video_backends<F: Fn(&VideoEncodeAttempt) -> Result<(), String>>(
    os: &str,
    encoders: &str,
    probe: &F,
) -> (r: Vec<VideoBackendCapability>)
    requires
        forall|a: VideoEncodeAttempt| call_requires(*probe, (&a,)),
    ensures
        r@.len() == spec_platform_backends(os@).len(),
        forall|i: int|
            0 <= i < r@.len() ==> #[trigger] detected(
                r@[i],
                spec_platform_backends(os@)[i],
                encoders@,
                *probe,
            ),
        forall|i: int|
            0 <= i < r@.len() ==> {
                &&& (#[trigger] r@[i]).backend == spec_platform_backends(os@)[i]
                &&& (r@[i].available <==> r@[i].codecs@.len() > 0)
                &&& (r@[i].available <==> r@[i].reason is None)
            },
{
    let backends = platform_backends(os);
    let r = detect_video_backends_for(backends.as_slice(), encoders, probe);
    proof {
        assert forall|i: int| 0 <= i < r@.len() implies {
            &&& (#[trigger] r@[i]).backend == spec_platform_backends(os@)[i]
            &&& (r@[i].available <==> r@[i].codecs@.len() > 0)
            &&& (r@[i].available <==> r@[i].reason is None)
        } by {
            assert(detected(r@[i], spec_platform_backends(os@)[i], encoders@, *probe));
            lemma_detected_shape(r@[i], spec_platform_backends(os@)[i], encoders@, *probe);
        }
    }
    r
}

} // verus!

verus! {

/// A copy of `v` with the same strings.
pub fn duplicate_strings(v: &Vec<String>) -> (r: Vec<String>)
    ensures
        r@ == v@,
{
    let mut out: Vec<String> = Vec::new();
    let mut i: usize = 0;
    while i < v.len()
        invariant
            i <= v@.len(),
            out@ == v@.take(i as int),
        decreases v@.len() - i,
    {
        out.push(v[i].clone());
        i = i + 1;
        assert(out@ =~= v@.take(i as int));
    }
    assert(v@.take(i as int) =~= v@);
    out
}

/// `a` and `b` hold the same attempt.
pub open spec fn same_attempt(a: VideoEncodeAttempt, b: VideoEncodeAttempt) -> bool {
    &&& a.backend == b.backend
    &&& a.audio == b.audio
    &&& a.input_flags@ == b.input_flags@
    &&& a.output_flags@ == b.output_flags@
}

pub open spec fn same_attempts(a: Seq<VideoEncodeAttempt>, b: Seq<VideoEncodeAttempt>) -> bool {
    &&& a.len() == b.len()
    &&& forall|i: int| 0 <= i < a.len() ==> same_attempt(#[trigger] a[i], b[i])
}

impl VideoEncodeAttempt {
    /// A copy with the same fields.
    pub fn duplicate(&self) -> (r: VideoEncodeAttempt)
        ensures
            same_attempt(r, *self),
    {
        let input_flags = duplicate_strings(&self.input_flags);
        let output_flags = duplicate_strings(&self.output_flags);
        assert(input_flags@ == self.input_flags@);
        VideoEncodeAttempt { backend: self.backend, audio: self.audio, input_flags, output_flags }
    }
}

/// A copy of `v` with the same attempts.
pub fn duplicate_attempts(v: &Vec<VideoEncodeAttempt>) -> (r: Vec<VideoEncodeAttempt>)
    ensures
        same_attempts(r@, v@),
{
    let mut out: Vec<VideoEncodeAttempt> = Vec::new();
    let mut i: usize = 0;
    while i < v.len()
        invariant
            i <= v@.len(),
            out@.len() == i,
            forall|k: int| 0 <= k < i ==> same_attempt(#[trigger] out@[k], v@[k]),
        decreases v@.len() - i,
    {
        out.push(v[i].duplicate());
        i = i + 1;
    }
    out
}

} // verus!

verus! {

/// A hardware plan always ends on the CPU: whatever the audio mode, the
/// attempts hold one on the software encoder with the requested audio, and
/// it comes after every attempt on the hardware family.
pub proof fn law_hardware_plans_fall_back_to_the_cpu(resolved: VideoBackend, audio: AudioMode)
    requires
        resolved != VideoBackend::Software,
    ensures
        ({
            let o = spec_attempt_order(resolved, audio);
            exists|k: int|
                0 <= k < o.len() && #[trigger] o[k] == (VideoBackend::Software, audio) && forall|j: int|
                    0 <= j < o.len() && o[j].0 != VideoBackend::Software ==> j < k
        }),
{
    let o = spec_attempt_order(resolved, audio);
    let k: int = if audio == AudioMode::Copy { 2 } else { 1 };
    assert(o[k] == (VideoBackend::Software, audio));
}

/// Attempts built for a hardware order hold the CPU fallback with the
/// requested audio, after every hardware attempt.
pub proof fn lemma_plan_falls_back_to_the_cpu(
    attempts: Seq<VideoEncodeAttempt>,
    settings: VideoSettings,
    resolved: VideoBackend,
)
    requires
        settings.codec != VideoCodec::Copy,
        resolved != VideoBackend::Software,
        attempts_follow(attempts, settings, spec_attempt_order(resolved, settings.audio)),
    ensures
        exists|k: int|
            0 <= k < attempts.len() && (#[trigger] attempts[k]).backend == VideoBackend::Software
                && attempts[k].audio == settings.audio && forall|j: int|
                0 <= j < attempts.len() && attempts[j].backend != VideoBackend::Software ==> j < k,
{
    let order = spec_attempt_order(resolved, settings.audio);
    law_hardware_plans_fall_back_to_the_cpu(resolved, settings.audio);
    let k = choose|k: int|
        0 <= k < order.len() && #[trigger] order[k] == (VideoBackend::Software, settings.audio)
            && forall|j: int| 0 <= j < order.len() && order[j].0 != VideoBackend::Software ==> j < k;
    assert(is_attempt(attempts[k], settings, order[k].0, order[k].1));
    assert forall|j: int|
        0 <= j < attempts.len() && attempts[j].backend != VideoBackend::Software implies j < k by {
        assert(is_attempt(attempts[j], settings, order[j].0, order[j].1));
    }
}

/// The untried attempt for `backend` and `audio` is found when there is one
/// at or after `from`.
proof fn lemma_find_untried_finds(
    attempts: Seq<VideoEncodeAttempt>,
    attempted: Set<usize>,
    backend: VideoBackend,
    audio: AudioMode,
    from: int,
    k: int,
)
    requires
        0 <= from <= k < attempts.len(),
        !attempted.contains(k as usize),
        attempts[k].backend == backend,
        attempts[k].audio == audio,
    ensures
        ({
            let i = find_untried(attempts, attempted, backend, audio, from);
            &&& from <= i <= k
            &&& !attempted.contains(i as usize)
            &&& attempts[i].backend == backend
            &&& attempts[i].audio == audio
        }),
    decreases attempts.len() - from,
{
    if !(!attempted.contains(from as usize) && attempts[from].backend == backend
        && attempts[from].audio == audio) {
        lemma_find_untried_finds(attempts, attempted, backend, audio, from + 1, k);
    }
}

/// When the hardware device is unavailable, the item moves to the CPU: if
/// the plan still holds an untried software attempt with the failed
/// attempt's audio, the next attempt is such a one, whatever the audio mode.
pub proof fn law_unavailable_hardware_falls_back_to_the_cpu(
    attempts: Seq<VideoEncodeAttempt>,
    current: int,
    error: Seq<char>,
    attempted: Set<usize>,
    k: int,
)
    requires
        0 <= current < attempts.len(),
        spec_classify_failure(error) == EncodeFailureKind::BackendUnavailable,
        0 <= k < attempts.len(),
        !attempted.contains(k as usize),
        attempts[k].backend == VideoBackend::Software,
        attempts[k].audio == attempts[current].audio,
    ensures
        spec_next_attempt_in(attempts, current, error, attempted) matches Some(n) && 0 <= n
            < attempts.len() && !attempted.contains(n as usize) && attempts[n].backend
            == VideoBackend::Software && attempts[n].audio == attempts[current].audio,
{
    let wanted = spec_wanted(EncodeFailureKind::BackendUnavailable, attempts[current]);
    assert(wanted[0] == (VideoBackend::Software, attempts[current].audio));
    lemma_find_untried_finds(
        attempts,
        attempted,
        VideoBackend::Software,
        attempts[current].audio,
        0,
        k,
    );
}

} // verus!
