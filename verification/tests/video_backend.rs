use quick_media_organizer::batch::video_backend::{
    build_attempt, detect_video_backends_for, next_attempt_index, resolve_video_encoding,
    strip_ffmpeg_tag, VideoEncodeAttempt,
};
use quick_media_organizer::batch::{
    AudioMode, HardwareAcceleration, VideoBackend, VideoBackendCapability, VideoCodec,
    VideoSettings,
};
use std::collections::HashSet;

fn capability(backend: VideoBackend, codecs: Vec<VideoCodec>) -> VideoBackendCapability {
    VideoBackendCapability {
        backend,
        available: true,
        codecs,
        reason: None,
    }
}

#[test]
fn auto_uses_the_first_usable_backend_and_keeps_software_fallbacks() {
    let settings = VideoSettings {
        codec: VideoCodec::H265,
        audio: AudioMode::Copy,
        ..VideoSettings::default()
    };
    let caps = vec![
        capability(VideoBackend::Nvidia, vec![VideoCodec::H264]),
        capability(VideoBackend::Intel, vec![VideoCodec::H265]),
    ];

    let plan = resolve_video_encoding(&settings, &caps).unwrap();

    assert_eq!(plan.resolved_backend, VideoBackend::Intel);
    assert_eq!(plan.attempts.len(), 4);
    assert_eq!(plan.attempts[0].audio, AudioMode::Copy);
    assert_eq!(plan.attempts[1].audio, AudioMode::Aac);
    assert_eq!(plan.attempts[2].backend, VideoBackend::Software);
}

#[test]
fn explicit_unavailable_backend_is_an_error() {
    let settings = VideoSettings {
        codec: VideoCodec::H265,
        hardware_acceleration: HardwareAcceleration::Nvidia,
        ..VideoSettings::default()
    };
    let error = resolve_video_encoding(&settings, &vec![]).unwrap_err();
    assert!(error.contains("NVIDIA NVENC"));
}

#[test]
fn each_backend_gets_its_own_quality_and_filter_flags() {
    let settings = VideoSettings {
        codec: VideoCodec::H265,
        crf: 28,
        max_height: Some(1080),
        ..VideoSettings::default()
    };

    let nvenc = build_attempt(&settings, VideoBackend::Nvidia, AudioMode::Aac).unwrap();
    assert!(nvenc
        .output_flags
        .join(" ")
        .contains("hevc_nvenc -rc vbr -cq 28"));
    assert!(nvenc.output_flags.join(" ").contains("-preset p4"));

    let qsv = build_attempt(&settings, VideoBackend::Intel, AudioMode::Aac).unwrap();
    assert!(qsv.output_flags.join(" ").contains("-global_quality 28"));
    assert!(qsv.output_flags.join(" ").contains("format=nv12"));

    let amf = build_attempt(&settings, VideoBackend::Amd, AudioMode::Aac).unwrap();
    assert!(amf.output_flags.join(" ").contains("-rc qvbr"));

    let vaapi = build_attempt(&settings, VideoBackend::Vaapi, AudioMode::Aac).unwrap();
    assert!(vaapi.input_flags.join(" ").contains("-vaapi_device"));
    assert!(vaapi.output_flags.join(" ").contains("hwupload"));

    let videotoolbox = build_attempt(&settings, VideoBackend::VideoToolbox, AudioMode::Aac).unwrap();
    assert!(videotoolbox.output_flags.join(" ").contains("-q:v"));
}

#[test]
fn detection_requires_a_successful_device_probe() {
    let encoders = " V....D h264_nvenc NVIDIA\n V....D hevc_nvenc NVIDIA\n";
    let caps = detect_video_backends_for(
        &[VideoBackend::Nvidia],
        encoders,
        &|attempt: &VideoEncodeAttempt| {
            if attempt.output_flags.iter().any(|flag| flag == "h264_nvenc") {
                Ok(())
            } else {
                Err("No capable devices found".into())
            }
        },
    );
    let nvidia = caps
        .iter()
        .find(|capability| capability.backend == VideoBackend::Nvidia)
        .unwrap();
    assert_eq!(nvidia.codecs, vec![VideoCodec::H264]);
    assert!(nvidia.available);
}

#[test]
fn differing_codec_failures_keep_their_codec_prefix() {
    let encoders = " V....D h264_nvenc N\n V....D hevc_nvenc N\n";
    let caps = detect_video_backends_for(
        &[VideoBackend::Nvidia],
        encoders,
        &|attempt: &VideoEncodeAttempt| {
            if attempt.output_flags.iter().any(|flag| flag == "h264_nvenc") {
                Err("[h264_nvenc @ 0x1] No capable devices found".into())
            } else {
                Err("[hevc_nvenc @ 0x1] Codec not supported".into())
            }
        },
    );
    assert_eq!(
        caps[0].reason.as_deref(),
        Some("H.264: No capable devices found; H.265: Codec not supported")
    );
}

#[test]
fn an_unusable_backend_reports_why_without_ffmpeg_noise() {
    let encoders = " V....D h264_nvenc NVIDIA\n";
    let caps = detect_video_backends_for(
        &[VideoBackend::Nvidia],
        encoders,
        &|_: &VideoEncodeAttempt| {
            Err([
                "[h264_nvenc @ 000001f3c01124c0] Driver does not support the required ",
                "nvenc API version. Required: 13.1 Found: 12.2\n",
                "[h264_nvenc @ 000001f3c01124c0] The minimum required Nvidia driver is 610.00",
            ]
            .concat())
        },
    );
    let nvidia = &caps[0];
    assert!(!nvidia.available);
    assert_eq!(
        nvidia.reason.as_deref(),
        Some(
            [
                "Driver does not support the required nvenc API version. ",
                "Required: 13.1 Found: 12.2",
            ]
            .concat()
            .as_str()
        )
    );
}

#[test]
fn a_backend_missing_from_the_build_says_so() {
    let caps = detect_video_backends_for(&[VideoBackend::Nvidia], "", &|_: &VideoEncodeAttempt| Ok(()));
    assert!(!caps[0].available);
    assert_eq!(
        caps[0].reason.as_deref(),
        Some("Encoder not included in this FFmpeg build.")
    );
}

#[test]
fn nested_ffmpeg_tags_are_stripped() {
    assert_eq!(
        strip_ffmpeg_tag("[vost#0:0/h264_amf @ 0x1] [enc:h264_amf @ 0x2] Failed to create"),
        "Failed to create"
    );
    // A bracketed word without an address is real message text, not a tag.
    assert_eq!(strip_ffmpeg_tag("[warning] disk full"), "[warning] disk full");
}

#[test]
fn fallback_respects_the_failure_kind() {
    let settings = VideoSettings {
        codec: VideoCodec::H264,
        audio: AudioMode::Copy,
        ..VideoSettings::default()
    };
    let plan = resolve_video_encoding(
        &settings,
        &vec![capability(VideoBackend::Nvidia, vec![VideoCodec::H264])],
    )
    .unwrap();

    let mut attempted = HashSet::from([0]);
    assert_eq!(
        next_attempt_index(&plan, 0, "No capable devices found", &attempted),
        Some(2)
    );
    assert_eq!(
        next_attempt_index(&plan, 0, "Could not write header", &attempted),
        Some(1)
    );
    attempted.insert(2);
    assert_eq!(
        next_attempt_index(&plan, 2, "Invalid data found", &attempted),
        None
    );
}
