use std::collections::HashMap;

use quick_media_organizer::batch::checkpoint::{BatchCheckpointStore, SaveStep};
use quick_media_organizer::batch::report::report_dirs;
use quick_media_organizer::batch::runner::{new_job_status, work_items, worker_count};
use quick_media_organizer::batch::planning::plan_items;
use quick_media_organizer::batch::video_backend::{push_attempt, software_capability};
use quick_media_organizer::batch::{
    AudioMode, BatchSettings, FfmpegCapabilities, OutputMode, VideoBackend, VideoSettings,
};
use quick_media_organizer::batch::estimate::{combine_estimate, sample_limit, SampleCounts};
use quick_media_organizer::batch::BatchMediaType;
use quick_media_organizer::commands::{prepare_batch_job, statuses_of};

fn ok_dir(_: &str) -> Result<(), String> {
    Ok(())
}

fn full_caps() -> FfmpegCapabilities {
    FfmpegCapabilities {
        available: true,
        h264: true,
        h265: true,
        av1: true,
        webp: true,
        avif: true,
        heic_decode: true,
        video_backends: vec![software_capability()],
        version: None,
    }
}

#[test]
fn workers_are_between_one_and_eight_and_no_more_than_the_work() {
    assert_eq!(worker_count(4, 10), 4);
    assert_eq!(worker_count(0, 10), 1);
    assert_eq!(worker_count(32, 100), 8);
    assert_eq!(worker_count(6, 2), 2);
    assert_eq!(worker_count(6, 0), 1);
}

#[test]
fn only_planned_items_are_worked_on() {
    let settings = BatchSettings::default();
    let paths = vec!["/a/x.jpg".to_string(), "/a/readme.txt".to_string(), "/a/y.png".to_string()];
    let plans = plan_items(&paths, &settings, &|_: &str| true, &|_: &str| 10u64, &|_: &str| false, &ok_dir);
    let work = work_items(&plans);
    let indices: Vec<usize> = work.iter().map(|(i, _)| *i).collect();
    assert_eq!(indices, vec![0, 2]);
    assert_eq!(work[1].1.input, "/a/y.png");
    assert_eq!(statuses_of(&plans).len(), 3);
}

#[test]
fn an_attempt_for_the_same_backend_and_audio_is_added_once() {
    let settings = VideoSettings::default();
    let mut attempts = vec![];
    push_attempt(&mut attempts, &settings, VideoBackend::Software, AudioMode::Copy).unwrap();
    push_attempt(&mut attempts, &settings, VideoBackend::Software, AudioMode::Copy).unwrap();
    push_attempt(&mut attempts, &settings, VideoBackend::Software, AudioMode::Aac).unwrap();
    assert_eq!(attempts.len(), 2);
    assert_eq!(attempts[1].audio, AudioMode::Aac);
}

#[test]
fn a_batch_starts_only_when_the_tool_and_the_runner_allow_it() {
    let settings = BatchSettings::default();
    let paths = vec!["/a/x.heic".to_string(), "/a/y.jpg".to_string()];
    let mut no_heic = full_caps();
    no_heic.heic_decode = false;
    let err = prepare_batch_job(
        &paths, &settings, &no_heic, None, "job-1".into(),
        &|_: &str| true, &|_: &str| 10u64, &|_: &str| false, &ok_dir,
    )
    .unwrap_err();
    assert!(err.starts_with("This FFmpeg build cannot read HEIC/HEIF."));

    let mut running = new_job_status("job-0".into(), vec![], None, false);
    running.running = true;
    let err = prepare_batch_job(
        &paths, &settings, &full_caps(), Some(&running), "job-1".into(),
        &|_: &str| true, &|_: &str| 10u64, &|_: &str| false, &ok_dir,
    )
    .unwrap_err();
    assert_eq!(err, "A batch job is already running.");

    running.running = false;
    let err = prepare_batch_job(
        &paths, &settings, &full_caps(), Some(&running), "job-1".into(),
        &|_: &str| true, &|_: &str| 10u64, &|_: &str| false, &ok_dir,
    )
    .unwrap_err();
    assert_eq!(err, "Finish the previous batch result before starting another job.");

    running.finalized = true;
    let (job, plans) = prepare_batch_job(
        &paths, &settings, &full_caps(), Some(&running), "job-1".into(),
        &|_: &str| true, &|_: &str| 10u64, &|_: &str| false, &ok_dir,
    )
    .unwrap();
    assert_eq!(job.job_id, "job-1");
    assert!(job.running && !job.finalized && !job.replaces_originals);
    assert_eq!(job.total, 2);
    assert_eq!(plans.len(), 2);
    assert_eq!(job.output_dir.as_deref(), Some("/a/_optimized"));
    assert_eq!(job.items[1].source_path, "/a/y.jpg");
}

#[test]
fn a_replacing_batch_is_marked_so() {
    let mut settings = BatchSettings::default();
    settings.output = OutputMode::ReplaceOriginal { backup: true, confirmed: true };
    let (job, _) = prepare_batch_job(
        &vec!["/a/y.png".to_string()], &settings, &full_caps(), None, "job-2".into(),
        &|_: &str| true, &|_: &str| 10u64, &|_: &str| false, &ok_dir,
    )
    .unwrap();
    assert!(job.replaces_originals);
}

/// Plays the save steps on an in-memory folder, stopping after `k` of them,
/// and loads as the app does: the active checkpoint, else the previous one.
fn save_and_load(store: &BatchCheckpointStore, start: &HashMap<String, u32>, new: u32, k: usize) -> Option<u32> {
    let mut files = start.clone();
    let active = store.active_path();
    let steps = store.save_steps(files.contains_key(&active));
    for step in steps.iter().take(k) {
        match step {
            SaveStep::MakeDir(_) => {}
            SaveStep::WriteNew(p) => {
                files.insert(p.clone(), new);
            }
            SaveStep::KeepPrevious { from, to } => {
                let v = files[from];
                files.insert(to.clone(), v);
            }
            SaveStep::RemoveActive(p) => {
                files.remove(p);
            }
            SaveStep::Activate { from, to } => {
                let v = files.remove(from).unwrap();
                files.insert(to.clone(), v);
            }
        }
    }
    store.load_candidates().iter().find_map(|p| files.get(p).copied())
}

#[test]
fn an_interrupted_checkpoint_save_loads_the_old_or_the_new_one() {
    let store = BatchCheckpointStore::new("/data");
    assert_eq!(store.load_candidates(), vec!["/data/batch-jobs/active.json", "/data/batch-jobs/active.previous.json"]);
    assert_eq!(store.clear_candidates().len(), 3);
    let mut start = HashMap::new();
    start.insert(store.active_path(), 1u32);
    let steps = store.save_steps(true).len();
    assert_eq!(steps, 5);
    for k in 0..steps {
        let got = save_and_load(&store, &start, 2, k);
        assert!(got == Some(1) || got == Some(2), "after {k} steps");
    }
    assert_eq!(save_and_load(&store, &start, 2, steps), Some(2));
    assert_eq!(save_and_load(&store, &HashMap::new(), 7, 3), Some(7));
}

#[test]
fn reports_go_to_the_logs_folders() {
    assert_eq!(report_dirs(Some("/data"), None), vec!["/data/logs"]);
    assert_eq!(report_dirs(Some("/data"), Some("/work")), vec!["/data/logs", "/work/logs"]);
    assert_eq!(report_dirs(Some("/data"), Some("/data")), vec!["/data/logs"]);
    assert_eq!(report_dirs(None, Some("/work")), vec!["/work/logs"]);
}

#[test]
fn the_estimate_samples_a_few_files_of_each_kind() {
    assert_eq!(sample_limit(BatchMediaType::Video), 3);
    assert_eq!(sample_limit(BatchMediaType::Image), 5);
    let mut videos = SampleCounts::new();
    for len in [100u64, 200, 300, 400] {
        videos.add_file(len);
        if videos.wants_sample(BatchMediaType::Video) {
            if len == 200 {
                videos.record_failure();
            } else {
                videos.record_sample(len);
            }
        }
    }
    assert_eq!(videos.total_bytes, 1000);
    assert_eq!(videos.sampled_files, 2);
    assert_eq!(videos.failed_samples, 1);
    assert_eq!(videos.sampled_source_bytes, 400);
    let mut images = SampleCounts::new();
    images.add_file(u64::MAX);
    images.add_file(5);
    assert_eq!(images.total_bytes, u64::MAX);
    let e = combine_estimate(&videos, &images, 77, 6);
    assert_eq!(e.bytes_before, u64::MAX);
    assert_eq!(e.estimated_bytes_after, 77);
    assert_eq!((e.sampled_files, e.failed_samples, e.total_files), (2, 1, 6));
}
