use quick_media_organizer::batch::video_backend::{
    detect_video_backends, platform_backends, probe_attempt, VideoEncodeAttempt,
};
use quick_media_organizer::batch::{VideoBackend, VideoCodec};
use quick_media_organizer::metadata::{can_hold_a_segment, exif_staging_path, read_exif_blob, should_splice, splice_exif};
use quick_media_organizer::session::{session_dir_for, temporary_path};
use quick_media_organizer::video::{
    binary_candidates, bundled_binary_name, capabilities_from_output, encode_args, encode_outcome,
    missing_ffmpeg_message, plays_natively, preview_paths, probe_outcome, trim_backup_path_at,
    ToolEnvironment,
};

#[test]
fn capabilities_are_read_from_the_tool_listings() {
    let caps = capabilities_from_output(
        " V..... libx264  H.264\n V..... libwebp\n",
        " V..... hevc\n",
        " D  mov,mp4,m4a,3gp\n",
        Some("ffmpeg version 7.1 Copyright\nbuilt with gcc\n"),
        vec![],
    );
    assert!(caps.available);
    assert!(caps.h264);
    assert!(!caps.h265);
    assert!(caps.webp);
    assert!(caps.heic_decode);
    assert_eq!(caps.version.as_deref(), Some("ffmpeg version 7.1 Copyright"));
    let none = capabilities_from_output("", "", "", None, vec![]);
    assert!(!none.heic_decode && none.version.is_none());
}

#[test]
fn a_bundled_copy_is_probed_first_then_path() {
    let env = ToolEnvironment {
        os: "linux".into(),
        exe_dir: Some("/opt/app".into()),
        local_app_data: None,
        winget_bin_dirs: vec![],
        program_data: None,
        user_profile: None,
    };
    let c = binary_candidates("ffmpeg", &env);
    assert_eq!(c[0], "/opt/app/ffmpeg");
    assert_eq!(c[1], "ffmpeg");
    assert_eq!(c[2..].to_vec(), vec!["/usr/bin/ffmpeg", "/usr/local/bin/ffmpeg", "/snap/bin/ffmpeg"]);

    let win = ToolEnvironment {
        os: "windows".into(),
        exe_dir: None,
        local_app_data: Some("C:/Users/me/AppData/Local".into()),
        winget_bin_dirs: vec!["C:/w".into()],
        program_data: None,
        user_profile: Some("C:/Users/me".into()),
    };
    let w = binary_candidates("ffmpeg", &win);
    assert_eq!(w[0], "ffmpeg");
    assert_eq!(w[1], "ffmpeg.exe");
    assert_eq!(w[2], "C:/Users/me/AppData/Local/Microsoft/WinGet/Links/ffmpeg.exe");
    assert_eq!(w[3], "C:/w/ffmpeg.exe");
    assert_eq!(w.last().unwrap(), "C:/Users/me/scoop/shims/ffmpeg.exe");
    assert_eq!(bundled_binary_name("ffprobe", "windows"), "ffprobe.exe");
    assert_eq!(bundled_binary_name("ffprobe", "macos"), "ffprobe");
}

#[test]
fn the_missing_tool_message_names_the_install_command() {
    assert_eq!(
        missing_ffmpeg_message("ffprobe", "macos"),
        "FFmpeg not found (ffprobe). To trim and convert videos, install it with `brew install ffmpeg`."
    );
    assert!(missing_ffmpeg_message("ffmpeg", "windows").contains("winget"));
}

#[test]
fn encode_runs_report_cancellation_success_and_stderr() {
    let args = encode_args("in.mov", "out.mp4", &vec!["-hwaccel".into()], &vec!["-c:v".into(), "libx264".into()]);
    assert_eq!(
        args,
        vec!["-hide_banner", "-nostdin", "-y", "-hwaccel", "-i", "in.mov", "-c:v", "libx264", "-progress", "pipe:1", "-nostats", "out.mp4"]
    );
    assert_eq!(encode_outcome(true, true, "x").unwrap_err(), "__cancelled__");
    assert!(encode_outcome(false, true, "x").is_ok());
    assert_eq!(encode_outcome(false, false, "  bad\n").unwrap_err(), "ffmpeg failed: bad");
    assert_eq!(probe_outcome(false, " no device \n").unwrap_err(), "no device");
}

#[test]
fn probes_encode_one_frame_with_the_family_encoder() {
    let attempt: VideoEncodeAttempt = probe_attempt(VideoBackend::Nvidia, VideoCodec::H265);
    let flags = attempt.output_flags.join(" ");
    assert!(flags.contains("-c:v hevc_nvenc"));
    assert!(flags.contains("-an"));
    assert!(!flags.contains("-vf"));
    assert_eq!(platform_backends("windows"), vec![VideoBackend::Nvidia, VideoBackend::Intel, VideoBackend::Amd]);
    assert_eq!(platform_backends("macos"), vec![VideoBackend::VideoToolbox]);
    assert_eq!(platform_backends("linux"), vec![VideoBackend::Vaapi]);
    let caps = detect_video_backends("linux", "", &|_: &VideoEncodeAttempt| Ok(()));
    assert_eq!(caps.len(), 1);
    assert_eq!(caps[0].backend, VideoBackend::Vaapi);
}

#[test]
fn previews_and_backups_have_fixed_places() {
    assert!(plays_natively("/a/x.MOV"));
    assert!(!plays_natively("/a/x.mkv"));
    let (proxy, poster) = preview_paths("/cache", "00ff");
    assert_eq!(proxy, "/cache/00ff.mp4");
    assert_eq!(poster, "/cache/00ff.jpg");
    assert_eq!(
        trim_backup_path_at("/album", "/album/clip.mov", "s"),
        "/album/.quick-media-organizer/trim-backups/clip_s.mov"
    );
    assert_eq!(session_dir_for("/album"), "/album/.quick-media-organizer");
    assert_eq!(temporary_path("/data/settings.json"), "/data/settings.tmp");
}

#[test]
fn exif_is_only_spliced_where_it_fits() {
    assert!(can_hold_a_segment(None));
    assert!(!can_hold_a_segment(Some(2)));
    assert!(should_splice(false, Some(3)));
    assert!(!should_splice(true, None));
    assert_eq!(exif_staging_path("/o/a.JPG"), "/o/a.jpg.qmo-exif");
    // Not an image format the splicer handles: left alone.
    assert_eq!(splice_exif(b"plain text", b"II*\0").unwrap(), None);
    assert_eq!(read_exif_blob(b"plain text"), None);
}
