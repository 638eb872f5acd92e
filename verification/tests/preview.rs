use std::cell::RefCell;

use quick_media_organizer::batch::runner::FfmpegEncoder;
use quick_media_organizer::models::VideoPreviewMode;
use quick_media_organizer::video::{
    find_binary, missing_ffmpeg_message, oldest_first, poster_args, preview_info, prune_preview_cache,
    remux_args, BinaryCache, CachedFile, FfmpegTools, PreviewStep, ToolEnvironment,
};

fn linux() -> ToolEnvironment {
    ToolEnvironment {
        os: "linux".into(),
        exe_dir: None,
        local_app_data: None,
        winget_bin_dirs: vec![],
        program_data: None,
        user_profile: None,
    }
}

#[test]
fn a_remembered_binary_is_given_back_and_replaced() {
    let mut cache = BinaryCache::new();
    assert_eq!(cache.cached_binary("ffmpeg"), None);
    cache.cache_binary("ffmpeg", "/usr/bin/ffmpeg");
    cache.cache_binary("ffprobe", "/usr/bin/ffprobe");
    assert_eq!(cache.cached_binary("ffmpeg").as_deref(), Some("/usr/bin/ffmpeg"));
    cache.cache_binary("ffmpeg", "/snap/bin/ffmpeg");
    assert_eq!(cache.cached_binary("ffmpeg").as_deref(), Some("/snap/bin/ffmpeg"));
    assert_eq!(cache.cached_binary("ffprobe").as_deref(), Some("/usr/bin/ffprobe"));
}

#[test]
fn the_first_candidate_that_runs_is_found_and_remembered() {
    let tried = RefCell::new(Vec::<String>::new());
    let runs = |p: &str| {
        tried.borrow_mut().push(p.to_string());
        p == "/usr/local/bin/ffmpeg"
    };
    let mut cache = BinaryCache::new();
    let found = find_binary(&mut cache, "ffmpeg", &linux(), &runs);
    assert_eq!(found.as_deref(), Ok("/usr/local/bin/ffmpeg"));
    assert_eq!(*tried.borrow(), vec!["ffmpeg", "/usr/bin/ffmpeg", "/usr/local/bin/ffmpeg"]);
    tried.borrow_mut().clear();
    let again = find_binary(&mut cache, "ffmpeg", &linux(), &runs);
    assert_eq!(again.as_deref(), Ok("/usr/local/bin/ffmpeg"));
    assert!(tried.borrow().is_empty());
}

#[test]
fn a_missing_tool_gives_the_install_hint() {
    let mut cache = BinaryCache::new();
    let none = |_: &str| false;
    let err = find_binary(&mut cache, "ffprobe", &linux(), &none).unwrap_err();
    assert_eq!(err, missing_ffmpeg_message("ffprobe", "linux"));
    assert_eq!(cache.cached_binary("ffprobe"), None);
    assert!(FfmpegTools::locate(&mut cache, &linux(), &none).is_err());
}

#[test]
fn both_programs_are_located() {
    let mut cache = BinaryCache::new();
    let on_path = |p: &str| p == "ffmpeg" || p == "ffprobe";
    let tools = FfmpegTools::locate(&mut cache, &linux(), &on_path).unwrap();
    assert_eq!(tools.ffmpeg, "ffmpeg");
    assert_eq!(tools.ffprobe, "ffprobe");
    let enc = FfmpegEncoder::locate(&mut cache, &linux(), &|_: &str| false).unwrap();
    assert_eq!(enc.tools.ffprobe, "ffprobe");
    let caps = enc.capabilities(" V..... libx265\n", "", "", None, vec![]);
    assert!(caps.h265 && !caps.h264 && caps.version.is_none());
}

#[test]
fn preview_commands_copy_streams_or_grab_a_frame() {
    assert_eq!(
        remux_args("/v/a.mkv", "/c/k.mp4"),
        vec!["-y", "-i", "/v/a.mkv", "-c", "copy", "-movflags", "+faststart", "/c/k.mp4"]
    );
    assert_eq!(
        poster_args("/v/a.mkv", "/c/k.jpg"),
        vec!["-y", "-ss", "0.5", "-i", "/v/a.mkv", "-frames:v", "1", "-q:v", "3", "/c/k.jpg"]
    );
}

#[test]
fn preview_info_follows_how_far_previewing_got() {
    let native = preview_info("/v/a.mp4", "/c/k.mp4", "/c/k.jpg", PreviewStep::Native);
    assert_eq!(native.playback_path, "/v/a.mp4");
    assert_eq!(native.preview_mode, VideoPreviewMode::Native);
    assert_eq!(native.poster_path, None);
    let proxy = preview_info("/v/a.mkv", "/c/k.mp4", "/c/k.jpg", PreviewStep::Proxy { poster_exists: true });
    assert_eq!(proxy.playback_path, "/c/k.mp4");
    assert_eq!(proxy.poster_path.as_deref(), Some("/c/k.jpg"));
    assert_eq!(proxy.preview_mode, VideoPreviewMode::Proxy);
    let failed = preview_info("/v/a.mkv", "/c/k.mp4", "/c/k.jpg", PreviewStep::RemuxFailed { poster_exists: false });
    assert_eq!(failed.playback_path, "/v/a.mkv");
    assert_eq!(failed.preview_mode, VideoPreviewMode::Unavailable);
    assert_eq!(failed.poster_path, None);
    let no_tool = preview_info("/v/a.mkv", "/c/k.mp4", "/c/k.jpg", PreviewStep::NoFfmpeg);
    assert_eq!(no_tool.preview_mode, VideoPreviewMode::Unavailable);
}

fn file(modified: u128, len: u64, path: &str) -> CachedFile {
    CachedFile { modified, len, path: path.into() }
}

#[test]
fn cache_files_are_ordered_oldest_first_keeping_ties_in_order() {
    let files = vec![file(30, 1, "c"), file(10, 1, "a"), file(30, 1, "d"), file(20, 1, "b")];
    assert_eq!(oldest_first(&files), vec![1, 3, 0, 2]);
}

#[test]
fn an_oversized_cache_drops_its_oldest_files_until_it_fits() {
    let files = vec![file(3, 400, "/c/new.mp4"), file(1, 500, "/c/old.mp4"), file(2, 300, "/c/mid.mp4")];
    let removed = RefCell::new(Vec::<String>::new());
    let remove = |p: &str| {
        removed.borrow_mut().push(p.to_string());
        true
    };
    let tried = prune_preview_cache(&files, 500, &remove);
    assert_eq!(tried, vec![(1, true), (2, true)]);
    assert_eq!(*removed.borrow(), vec!["/c/old.mp4", "/c/mid.mp4"]);

    let untouched = prune_preview_cache(&files, 1200, &|_: &str| -> bool { panic!("nothing to remove") });
    assert!(untouched.is_empty());

    // a file that cannot be removed frees nothing: the next one goes too
    let stubborn = |p: &str| p != "/c/old.mp4";
    let tried = prune_preview_cache(&files, 700, &stubborn);
    assert_eq!(tried, vec![(1, false), (2, true), (0, true)]);
}
