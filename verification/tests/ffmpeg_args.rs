use quick_media_organizer::batch::ffmpeg_args::{
    avif_crf, classify_path, image_flags, jpeg_qscale, lower_extension, output_extension,
    output_file_name, resolve_output_path, temp_output_path, video_flags,
};
use quick_media_organizer::path_text::{extension_chars, file_name_chars, parent_chars, with_extension_chars};
use quick_media_organizer::batch::{
    AudioMode, BatchMediaType, BatchSettings, ConflictPolicy, ImageFormat, ImageSettings,
    VideoCodec, VideoSettings,
};

fn no_files(_: &str) -> bool {
    false
}

#[test]
fn classifies_media_by_extension() {
    assert_eq!(classify_path("/a/IMG_1.MOV"), Some(BatchMediaType::Video));
    assert_eq!(classify_path("/a/IMG_1.HEIC"), Some(BatchMediaType::Image));
    assert_eq!(classify_path("/a/notes.txt"), None);
    assert_eq!(classify_path("/a/noext"), None);
}

#[test]
fn h265_flags_carry_crf_preset_and_apple_tag() {
    let settings = VideoSettings {
        codec: VideoCodec::H265,
        crf: 28,
        speed_preset: "medium".into(),
        max_height: Some(1080),
        ..VideoSettings::default()
    };
    let flags = video_flags(&settings).join(" ");
    assert!(flags.contains("-c:v libx265"));
    assert!(flags.contains("-crf 28"));
    assert!(flags.contains("-preset medium"));
    assert!(flags.contains("-tag:v hvc1"));
    assert!(flags.contains("scale=-2:'min(1080,ih)'"));
    assert!(flags.contains("-c:a aac -b:a 128k"));
    assert!(flags.contains("-movflags +faststart"));
}

#[test]
fn no_scale_filter_without_height_limit() {
    let settings = VideoSettings {
        max_height: None,
        ..VideoSettings::default()
    };
    let flags = video_flags(&settings).join(" ");
    assert!(!flags.contains("-vf"));
}

#[test]
fn copy_codec_only_remuxes() {
    let settings = VideoSettings {
        codec: VideoCodec::Copy,
        ..VideoSettings::default()
    };
    let flags = video_flags(&settings);
    assert_eq!(
        flags,
        vec!["-map", "0", "-c", "copy", "-movflags", "+faststart"]
    );
}

#[test]
fn dropping_audio_never_maps_an_audio_stream() {
    let settings = VideoSettings {
        audio: AudioMode::Drop,
        ..VideoSettings::default()
    };
    let flags = video_flags(&settings).join(" ");
    assert!(!flags.contains("0:a?"));
    assert!(flags.contains("-an"));
}

#[test]
fn av1_uses_numeric_preset() {
    let settings = VideoSettings {
        codec: VideoCodec::Av1,
        speed_preset: "slow".into(),
        ..VideoSettings::default()
    };
    let flags = video_flags(&settings).join(" ");
    assert!(flags.contains("-c:v libsvtav1"));
    assert!(flags.contains("-preset 4"));
}

#[test]
fn stripping_metadata_flips_map_metadata() {
    let settings = VideoSettings {
        keep_metadata: false,
        ..VideoSettings::default()
    };
    assert!(video_flags(&settings).join(" ").contains("-map_metadata -1"));
}

#[test]
fn quality_maps_per_format() {
    assert_eq!(jpeg_qscale(100), 2);
    assert_eq!(jpeg_qscale(1), 31);
    assert!(jpeg_qscale(85) < jpeg_qscale(50));
    assert_eq!(avif_crf(100), 0);
    assert!(avif_crf(80) < avif_crf(40));
}

#[test]
fn image_flags_match_target_format() {
    let settings = ImageSettings {
        quality: 80,
        max_edge: Some(2560),
        ..ImageSettings::default()
    };
    let webp = image_flags(&settings, "webp").unwrap().join(" ");
    assert!(webp.contains("-c:v libwebp"));
    assert!(webp.contains("-quality 80"));
    assert!(webp.contains("scale='if(gt(iw,ih),min(2560,iw),-2)'"));

    let jpeg = image_flags(&settings, "jpg").unwrap().join(" ");
    assert!(jpeg.contains("-c:v mjpeg"));
    assert!(jpeg.contains("-q:v"));

    assert!(image_flags(&settings, "heic").is_err());
}

#[test]
fn output_extension_follows_target_format() {
    let mut settings = BatchSettings::default();
    settings.image.format = ImageFormat::Webp;
    assert_eq!(
        output_extension(BatchMediaType::Image, &settings, "a/x.heic").unwrap(),
        "webp"
    );

    settings.image.format = ImageFormat::Keep;
    assert_eq!(
        output_extension(BatchMediaType::Image, &settings, "a/x.JPEG").unwrap(),
        "jpg"
    );
    assert!(output_extension(BatchMediaType::Image, &settings, "a/x.heic").is_err());

    assert_eq!(
        output_extension(BatchMediaType::Video, &settings, "a/x.avi").unwrap(),
        "mp4"
    );
    settings.video.codec = VideoCodec::Copy;
    assert_eq!(
        output_extension(BatchMediaType::Video, &settings, "a/x.mkv").unwrap(),
        "mkv"
    );
}

#[test]
fn output_name_applies_suffix() {
    assert_eq!(output_file_name("/a/IMG_1.MOV", "mp4", Some("-opt")), "IMG_1-opt.mp4");
    assert_eq!(output_file_name("/a/IMG_1.MOV", "mp4", Some("  ")), "IMG_1.mp4");
}

#[test]
fn conflicts_follow_the_policy() {
    let dir = "/out";
    let source = "/in/IMG_1.mov";
    let taken = |p: &str| p == "/out/IMG_1.mp4";

    assert_eq!(
        resolve_output_path(source, dir, "mp4", None, ConflictPolicy::Skip, &taken).unwrap(),
        None
    );
    assert_eq!(
        resolve_output_path(source, dir, "mp4", None, ConflictPolicy::Overwrite, &taken).unwrap(),
        Some("/out/IMG_1.mp4".to_string())
    );
    assert_eq!(
        resolve_output_path(source, dir, "mp4", None, ConflictPolicy::Rename, &taken).unwrap(),
        Some("/out/IMG_1 (2).mp4".to_string())
    );
    assert_eq!(
        resolve_output_path(source, dir, "mp4", None, ConflictPolicy::Rename, &no_files).unwrap(),
        Some("/out/IMG_1.mp4".to_string())
    );
}

#[test]
fn never_targets_the_source_file_even_when_overwriting() {
    let dir = "/in";
    let source = "/in/IMG_1.mp4";
    let resolved = resolve_output_path(source, dir, "mp4", None, ConflictPolicy::Overwrite, &no_files)
        .unwrap()
        .unwrap();
    assert_ne!(resolved, source);
    assert_eq!(resolved, "/in/IMG_1 (2).mp4");
}

#[test]
fn temp_files_are_hidden_and_keep_the_extension() {
    let temp = temp_output_path("/out/IMG_1.mp4", 7);
    assert_eq!(temp, "/out/.qmo-tmp-7.mp4");
}

#[test]
fn jpeg_quality_follows_the_documented_map() {
    assert_eq!(jpeg_qscale(50), 10);
    assert_eq!(jpeg_qscale(49), 10);
    assert_eq!(jpeg_qscale(75), 6);
    assert_eq!(jpeg_qscale(25), 21);
    assert_eq!(jpeg_qscale(0), 31);
    let mut last = jpeg_qscale(1);
    for q in 2..=100u8 {
        let now = jpeg_qscale(q);
        assert!(now <= last && (2..=31).contains(&now));
        last = now;
    }
}

fn text(v: Vec<char>) -> String {
    v.into_iter().collect()
}

#[test]
fn paths_are_read_like_std_paths() {
    assert_eq!(lower_extension("/a/b.MOV/"), "mov");
    assert_eq!(classify_path("/a/IMG_1.MOV/"), Some(BatchMediaType::Video));
    assert_eq!(temp_output_path("/out/a.mp4/", 7), "/out/.qmo-tmp-7.mp4");
    assert_eq!(output_file_name("/a/b.MOV/", "mp4", None), "b.mp4");
    let c = |s: &str| s.chars().collect::<Vec<char>>();
    assert_eq!(extension_chars(&c("..")), None);
    assert_eq!(text(file_name_chars(&c("/a/b/."))), "b");
    assert_eq!(text(file_name_chars(&c("/a/.."))), "");
    assert_eq!(parent_chars(&c("/a/b//")).map(text).as_deref(), Some("/a"));
    assert_eq!(parent_chars(&c("/a")).map(text).as_deref(), Some("/"));
    assert_eq!(parent_chars(&c("/")), None);
    assert_eq!(parent_chars(&c("x")).map(text).as_deref(), Some(""));
    assert_eq!(text(with_extension_chars(&c("/a/b.MOV/"), &c("jpg"))), "/a/b.jpg");
    assert_eq!(text(with_extension_chars(&c("/a/.."), &c("jpg"))), "/a/..");
}
