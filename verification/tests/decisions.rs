use quick_media_organizer::batch::runner::new_job_status;
use quick_media_organizer::batch::{
    BatchItemState, BatchItemStatus, BatchMediaType, BatchReplacement, BatchSettings,
    FfmpegCapabilities, HardwareAcceleration, ImageFormat, OutputMode, VideoBackendCapability, VideoBackend, VideoCodec,
};
use quick_media_organizer::commands::{
    check_no_active_job, excluded_dir_names, excluded_dirs, fail_unresumable, keeps_scanned_item,
    replacements_to_apply, resume_action, update_context, validate_batch_request,
    validate_capabilities, ResumeAction,
};

fn pending(id: &str) -> BatchItemStatus {
    BatchItemStatus {
        id: id.into(),
        source_path: id.into(),
        file_name: id.into(),
        media_type: BatchMediaType::Image,
        state: BatchItemState::Pending,
        progress_permille: 0,
        size_before: 1,
        size_after: None,
        output_path: None,
        error: None,
        encoder_backend: None,
        fallback_reason: None,
    }
}

#[test]
fn a_batch_needs_files_and_a_confirmed_replacement() {
    let settings = BatchSettings::default();
    assert_eq!(
        validate_batch_request(&vec![], &settings).unwrap_err(),
        "Select at least one photo or video."
    );
    let mut replace = BatchSettings::default();
    replace.output = OutputMode::ReplaceOriginal { backup: true, confirmed: false };
    assert!(validate_batch_request(&vec!["a.jpg".into()], &replace).unwrap_err().contains("confirmed"));
    assert!(validate_batch_request(&vec!["a.jpg".into()], &settings).is_ok());
}

#[test]
fn capabilities_gate_heic_avif_metadata_and_video() {
    let mut caps = FfmpegCapabilities::default();
    let settings = BatchSettings::default();
    assert!(validate_capabilities(&vec!["x.HEIC".into()], &settings, &caps)
        .unwrap_err()
        .contains("HEIC/HEIF"));
    caps.heic_decode = true;
    assert!(validate_capabilities(&vec!["x.HEIC".into()], &settings, &caps).is_ok());

    let mut avif = BatchSettings::default();
    avif.image.format = ImageFormat::Avif;
    assert!(validate_capabilities(&vec!["x.jpg".into()], &avif, &caps)
        .unwrap_err()
        .contains("AVIF"));

    // Automatic selection falls back to the CPU; an explicit family must exist.
    assert!(validate_capabilities(&vec!["clip.mov".into()], &settings, &caps).is_ok());
    let mut nvidia = BatchSettings::default();
    nvidia.video.hardware_acceleration = HardwareAcceleration::Nvidia;
    assert_eq!(
        validate_capabilities(&vec!["clip.mov".into()], &nvidia, &caps).unwrap_err(),
        "NVIDIA NVENC is not available for H.265 on this computer."
    );
    caps.video_backends = vec![VideoBackendCapability {
        backend: VideoBackend::Nvidia,
        codecs: vec![VideoCodec::H265],
        available: true,
        reason: None,
    }];
    assert!(validate_capabilities(&vec!["clip.mov".into()], &nvidia, &caps).is_ok());
    // Photos alone never need a video encoder.
    assert!(validate_capabilities(&vec!["a.jpg".into()], &nvidia, &FfmpegCapabilities::default()).is_ok());
}

#[test]
fn only_a_finalized_job_lets_the_next_one_start() {
    let mut job = new_job_status("j".into(), vec![], None, false);
    assert_eq!(check_no_active_job(Some(&job)).unwrap_err(), "A batch job is already running.");
    job.running = false;
    assert!(check_no_active_job(Some(&job)).unwrap_err().contains("Finish the previous"));
    job.finalized = true;
    assert!(check_no_active_job(Some(&job)).is_ok());
    assert!(check_no_active_job(None).is_ok());
}

#[test]
fn finalizing_applies_replacements_once() {
    let mut job = new_job_status("j".into(), vec![], None, true);
    job.replacements.push(BatchReplacement {
        backup_path: "b".into(),
        original_path: "o".into(),
        converted_path: "c".into(),
    });
    assert_eq!(replacements_to_apply(&job).unwrap_err(), "The batch job is still running.");
    job.running = false;
    assert_eq!(
        replacements_to_apply(&job).unwrap(),
        vec![("b".to_string(), "o".to_string(), "c".to_string())]
    );
    job.finalized = true;
    assert!(replacements_to_apply(&job).unwrap().is_empty());
}

#[test]
fn startup_picks_up_a_checkpoint_by_its_state() {
    let mut job = new_job_status("j".into(), vec![], None, false);
    assert_eq!(resume_action(&job), ResumeAction::Restart);
    job.running = false;
    assert_eq!(resume_action(&job), ResumeAction::Register);
    job.finalized = true;
    assert_eq!(resume_action(&job), ResumeAction::Clear);
}

#[test]
fn a_job_that_cannot_resume_fails_its_pending_files() {
    let mut job = new_job_status("j".into(), vec![pending("a"), pending("b")], None, false);
    job.items[1].state = BatchItemState::Done;
    fail_unresumable(&mut job, "FFmpeg not found");
    assert!(!job.running);
    assert_eq!(job.failed, 1);
    assert_eq!(job.items[0].state, BatchItemState::Failed);
    assert_eq!(
        job.items[0].error.as_deref(),
        Some("Could not resume after restart: FFmpeg not found")
    );
    assert_eq!(job.items[1].state, BatchItemState::Done);
}

#[test]
fn the_update_context_prefers_the_endpoint() {
    let ctx = update_context(
        "1.2.3".into(),
        Some("https://github.com/me/app/releases/latest/download/latest.json".into()),
        Some("https://example.com/other".into()),
    );
    assert!(ctx.updater_configured);
    assert_eq!(ctx.releases_url.as_deref(), Some("https://github.com/me/app/releases"));
    assert_eq!(ctx.repository_url.as_deref(), Some("https://github.com/me/app"));

    let unsigned = update_context("1.2.3".into(), None, Some("https://github.com/me/app".into()));
    assert!(!unsigned.updater_configured);
    assert_eq!(unsigned.releases_url, None);
    assert_eq!(unsigned.repository_url.as_deref(), Some("https://github.com/me/app"));
}

#[test]
fn scans_leave_out_excluded_folders() {
    let dirs = excluded_dirs(&vec!["  ".into(), "/album/out".into()]);
    assert_eq!(dirs, vec!["/album/out".to_string()]);
    let names = excluded_dir_names(&vec![" _Optimized ".into(), "   ".into()]);
    assert_eq!(names, vec!["_optimized".to_string()]);
    assert!(!keeps_scanned_item(&vec!["/album/out/a.jpg".into()], "/album", &dirs, &names));
    assert!(!keeps_scanned_item(&vec!["/album/x/_optimized/a.jpg".into()], "/album", &dirs, &names));
    assert!(keeps_scanned_item(&vec!["/album/x/a.jpg".into()], "/album", &dirs, &names));
}
