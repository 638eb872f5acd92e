use quick_media_organizer::batch::runner::{
    apply_terminal_state, backup_path_at, concise_error, displaced_path_at, fallback_reason,
    finish_job, job_id_text, mark_attempt, mark_finished, mark_running, new_job_status,
    recalculate_terminal_state, sanitize_folder_name, savings_rejection, AttemptRun, BatchRunner,
    EncodePlan, ItemOutcome, MAX_REMEMBERED_JOBS,
};
use quick_media_organizer::batch::video_backend::{resolve_video_encoding, CANCELLED};
use quick_media_organizer::batch::{
    AudioMode, BatchItemState, BatchItemStatus, BatchMediaType, BatchSettings, VideoBackend,
    VideoBackendCapability, VideoCodec, VideoSettings,
};

fn item(id: &str, state: BatchItemState, size_before: u64, size_after: Option<u64>) -> BatchItemStatus {
    BatchItemStatus {
        id: id.into(),
        source_path: id.into(),
        file_name: id.into(),
        media_type: BatchMediaType::Image,
        state,
        progress_permille: 0,
        size_before,
        size_after,
        output_path: None,
        error: None,
        encoder_backend: None,
        fallback_reason: None,
    }
}

fn settings_with(skip_if_larger: bool, min: Option<u8>) -> BatchSettings {
    BatchSettings {
        skip_if_larger,
        skip_if_savings_below_pct: min,
        ..BatchSettings::default()
    }
}

#[test]
fn a_result_that_is_not_smaller_is_refused() {
    let reason = savings_rejection(100, 500, &settings_with(true, None)).unwrap();
    assert_eq!(reason, "Converted file was not smaller — original kept.");
    assert_eq!(savings_rejection(100, 100, &settings_with(true, None)).is_some(), true);
    assert_eq!(savings_rejection(100, 99, &settings_with(true, None)), None);
}

#[test]
fn the_savings_threshold_reports_the_rounded_saving() {
    let reason = savings_rejection(1000, 900, &settings_with(true, Some(50))).unwrap();
    assert!(reason.contains("threshold"));
    assert_eq!(reason, "Only 10% smaller (below the 50% threshold) — original kept.");
    // 12.5% rounds to the even 12, as `{:.0}` prints it.
    assert_eq!(
        savings_rejection(1000, 875, &settings_with(true, Some(50))).unwrap(),
        "Only 12% smaller (below the 50% threshold) — original kept."
    );
    // Exactly at the threshold is enough.
    assert_eq!(savings_rejection(1000, 500, &settings_with(true, Some(50))), None);
    // A larger result, when allowed, is a negative saving.
    assert_eq!(
        savings_rejection(1000, 1250, &settings_with(false, Some(5))).unwrap(),
        "Only -25% smaller (below the 5% threshold) — original kept."
    );
    // An empty original is never judged.
    assert_eq!(savings_rejection(0, 10, &settings_with(true, Some(50))), None);
}

#[test]
fn concise_errors_keep_the_first_meaningful_line() {
    assert_eq!(concise_error("\n  \n  boom  \nmore"), "boom");
    assert_eq!(concise_error("   "), "");
    let long = "x".repeat(300);
    assert_eq!(concise_error(&long).chars().count(), 240);
}

#[test]
fn folder_names_lose_forbidden_characters() {
    assert_eq!(sanitize_folder_name("  out:put*  "), "output");
    assert_eq!(sanitize_folder_name(" /\\ "), "_optimized");
    assert_eq!(sanitize_folder_name("salida ágil"), "salida ágil");
}

#[test]
fn a_fallback_names_both_families_and_the_reason() {
    assert_eq!(
        fallback_reason(VideoBackend::Nvidia, VideoBackend::Software, "\nNo capable devices found\n"),
        "NVIDIA NVENC failed; retried with CPU (software): No capable devices found"
    );
}

#[test]
fn backups_and_displaced_originals_are_stamped_siblings() {
    assert_eq!(
        backup_path_at("/album/photo.heic", "20260101_120000_1"),
        "/album/.quick-media-organizer/batch-backups/photo_20260101_120000_1.heic"
    );
    assert_eq!(
        backup_path_at("/album/noext", "s"),
        "/album/.quick-media-organizer/batch-backups/noext_s.bin"
    );
    assert_eq!(
        displaced_path_at("/album/photo.heic", "s"),
        "/album/.qmo-replacing-s-photo.heic"
    );
}

#[test]
fn counters_are_rebuilt_from_the_items() {
    let mut job = new_job_status(
        "j".into(),
        vec![
            item("a", BatchItemState::Done, 1000, Some(100)),
            item("b", BatchItemState::Done, 500, None),
            item("c", BatchItemState::Failed, 10, None),
            item("d", BatchItemState::Skipped, 10, None),
            item("e", BatchItemState::Pending, 10, None),
        ],
        None,
        false,
    );
    job.done = 9;
    recalculate_terminal_state(&mut job);
    assert_eq!(job.done, 2);
    assert_eq!(job.failed, 1);
    assert_eq!(job.skipped, 1);
    assert_eq!(job.bytes_before, 1500);
    assert_eq!(job.bytes_after, 600);
}

#[test]
fn counting_a_finished_item_matches_recounting() {
    let mut job = new_job_status(
        "j".into(),
        vec![item("a", BatchItemState::Pending, 1000, None), item("b", BatchItemState::Done, 10, Some(5))],
        None,
        false,
    );
    recalculate_terminal_state(&mut job);
    let finished = item("a", BatchItemState::Done, 1000, Some(300));
    job.items[0] = finished.clone();
    apply_terminal_state(&mut job, &finished);
    let counted = (job.done, job.failed, job.skipped, job.bytes_before, job.bytes_after);
    recalculate_terminal_state(&mut job);
    assert_eq!(counted, (job.done, job.failed, job.skipped, job.bytes_before, job.bytes_after));
    assert_eq!(counted, (2, 0, 0, 1010, 305));
}

#[test]
fn finishing_a_cancelled_job_cancels_what_had_not_finished() {
    let mut job = new_job_status(
        "j".into(),
        vec![
            item("a", BatchItemState::Pending, 1, None),
            item("b", BatchItemState::Running, 1, None),
            item("c", BatchItemState::Done, 1, None),
        ],
        None,
        false,
    );
    finish_job(&mut job, true);
    assert!(!job.running);
    assert!(job.cancelled);
    assert!(job.finished_at.is_some());
    assert_eq!(job.items[0].state, BatchItemState::Cancelled);
    assert_eq!(job.items[1].state, BatchItemState::Cancelled);
    assert_eq!(job.items[2].state, BatchItemState::Done);

    let mut other = new_job_status("k".into(), vec![item("a", BatchItemState::Pending, 1, None)], None, false);
    finish_job(&mut other, false);
    assert_eq!(other.items[0].state, BatchItemState::Pending);
}

fn video_plan(audio: AudioMode, backend: VideoBackend) -> EncodePlan {
    let settings = VideoSettings {
        codec: VideoCodec::H264,
        audio,
        ..VideoSettings::default()
    };
    let caps = vec![VideoBackendCapability {
        backend,
        codecs: vec![VideoCodec::H264],
        available: true,
        reason: None,
    }];
    let video = resolve_video_encoding(&settings, &caps).unwrap();
    EncodePlan {
        input: "/in/clip.mov".into(),
        temp_output: "/out/.qmo-tmp-0.mp4".into(),
        final_output: "/out/clip.mp4".into(),
        attempts: video.attempts,
        resolved_backend: Some(video.resolved_backend),
        media_type: BatchMediaType::Video,
        replace_original: false,
        backup: false,
        overwritten_target: None,
    }
}

#[test]
fn an_unavailable_gpu_falls_back_to_the_cpu_and_says_so() {
    let plan = video_plan(AudioMode::Copy, VideoBackend::Nvidia);
    let mut run = AttemptRun::start(&plan).unwrap();
    assert_eq!(run.current, 0);
    let next = run.after_failure(&plan, "No capable devices found");
    assert_eq!(next, Some(2));
    assert_eq!(plan.attempts[2].backend, VideoBackend::Software);
    assert!(run.fallback_reason.as_deref().unwrap().contains("NVIDIA NVENC"));
}

#[test]
fn a_real_failure_is_retried_at_most_once_per_attempt() {
    let plan = video_plan(AudioMode::Copy, VideoBackend::Nvidia);
    let mut run = AttemptRun::start(&plan).unwrap();
    let mut encodes = 1;
    while let Some(_) = run.after_failure(&plan, "boom") {
        encodes += 1;
        assert!(encodes <= plan.attempts.len());
    }
    assert!(encodes <= plan.attempts.len());
    assert_eq!(run.attempted.len(), encodes);
}

#[test]
fn an_audio_copy_failure_moves_to_aac_on_the_same_family() {
    let plan = video_plan(AudioMode::Copy, VideoBackend::Software);
    assert_eq!(plan.attempts.len(), 2);
    let mut run = AttemptRun::start(&plan).unwrap();
    let next = run.after_failure(&plan, "Could not find tag for codec pcm_s16le in stream #1");
    assert_eq!(next, Some(1));
    assert_eq!(plan.attempts[1].audio, AudioMode::Aac);
    assert_eq!(plan.attempts[1].backend, VideoBackend::Software);
    assert_eq!(run.current, 1);
    // the AAC attempt failing for a reason of the file ends the loop
    assert_eq!(run.after_failure(&plan, "Invalid data found when processing input"), None);
    assert_eq!(run.attempted.len(), 2);
}

#[test]
fn a_plan_without_attempts_cannot_start() {
    let mut plan = video_plan(AudioMode::Aac, VideoBackend::Software);
    plan.attempts.clear();
    assert_eq!(
        AttemptRun::start(&plan).err().unwrap(),
        "No encoding attempt was configured."
    );
}

#[test]
fn item_outcomes_set_the_final_state() {
    let plan = video_plan(AudioMode::Aac, VideoBackend::Software);
    let mut it = item("clip.mov", BatchItemState::Pending, 1000, None);
    mark_running(&mut it, plan.resolved_backend);
    assert_eq!(it.state, BatchItemState::Running);
    mark_attempt(&mut it, BatchMediaType::Video, VideoBackend::Software, &Some("why".into()));
    assert_eq!(it.fallback_reason.as_deref(), Some("why"));

    let mut done = it.clone();
    let remove = mark_finished(
        &mut done,
        &Ok(ItemOutcome::Done { output_path: "/out/clip.mp4".into(), size_after: 10 }),
        &plan,
        0,
        &None,
    );
    assert!(!remove);
    assert_eq!(done.state, BatchItemState::Done);
    assert_eq!(done.progress_permille, 1000);
    assert_eq!(done.size_after, Some(10));
    assert_eq!(done.encoder_backend, Some(VideoBackend::Software));

    let mut cancelled = it.clone();
    assert!(mark_finished(&mut cancelled, &Err(CANCELLED.to_string()), &plan, 0, &None));
    assert_eq!(cancelled.state, BatchItemState::Cancelled);

    let mut failed = it.clone();
    assert!(mark_finished(&mut failed, &Err("boom".into()), &plan, 0, &None));
    assert_eq!(failed.state, BatchItemState::Failed);
    assert_eq!(failed.error.as_deref(), Some("boom"));

    let mut skipped = it.clone();
    assert!(!mark_finished(
        &mut skipped,
        &Ok(ItemOutcome::Skipped { reason: "kept".into() }),
        &plan,
        0,
        &None
    ));
    assert_eq!(skipped.state, BatchItemState::Skipped);
    assert_eq!(skipped.error.as_deref(), Some("kept"));
}

#[test]
fn the_registry_remembers_only_the_newest_jobs() {
    let mut runner: BatchRunner<u32> = BatchRunner::new();
    for n in 0..6u32 {
        runner.register(n, &format!("job-{n}"));
    }
    assert_eq!(runner.active_job_id().as_deref(), Some("job-5"));
    assert!(runner.job("job-0").is_none());
    assert!(runner.job("job-1").is_none());
    assert_eq!(runner.job("job-2"), Some(&2));
    assert_eq!(runner.job("job-5"), Some(&5));
    assert_eq!(MAX_REMEMBERED_JOBS, 4);

    // Registering a known id again replaces its entry and keeps it newest.
    runner.register(20, "job-2");
    assert_eq!(runner.job("job-2"), Some(&20));
    runner.register(6, "job-6");
    assert_eq!(runner.job("job-2"), Some(&20));
    assert!(runner.job("job-3").is_none());

    assert_eq!(runner.cancel("nope").err().unwrap(), "Unknown batch job: nope");
    assert_eq!(runner.cancel("job-6"), Ok(&6));

    runner.clear_active("job-2");
    assert_eq!(runner.active_job_id().as_deref(), Some("job-6"));
    runner.clear_active("job-6");
    assert_eq!(runner.active_job_id(), None);
}

#[test]
fn job_ids_carry_the_stamp_and_the_counter() {
    assert_eq!(job_id_text("20260101120000", 7), "job-20260101120000-7");
    let mut runner: BatchRunner<u32> = BatchRunner::new();
    let a = runner.next_job_id();
    let b = runner.next_job_id();
    assert!(a.starts_with("job-") && a.ends_with("-1"));
    assert!(b.ends_with("-2"));
}

#[test]
fn a_whole_job_ends_with_counters_that_match_its_items() {
    let mut job = new_job_status(
        "whole".into(),
        vec![
            item("a.jpg", BatchItemState::Pending, 1000, None),
            item("b.jpg", BatchItemState::Pending, 1000, None),
            item("c.jpg", BatchItemState::Failed, 10, None),
            item("d.jpg", BatchItemState::Pending, 500, None),
        ],
        None,
        false,
    );
    recalculate_terminal_state(&mut job);
    assert_eq!(job.failed, 1);
    for (i, after) in [(0usize, 100u64), (1, 100)] {
        let mut done = job.items[i].clone();
        done.state = BatchItemState::Done;
        done.size_after = Some(after);
        job.items[i] = done.clone();
        apply_terminal_state(&mut job, &done);
    }
    finish_job(&mut job, true);
    assert!(!job.running && job.finished_at.is_some());
    assert_eq!((job.done, job.failed, job.skipped), (2, 1, 0));
    assert_eq!((job.bytes_before, job.bytes_after), (2000, 200));
    // the item that never started ends cancelled and is counted nowhere
    assert_eq!(job.items[3].state, BatchItemState::Cancelled);
}
