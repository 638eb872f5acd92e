use quick_media_organizer::batch::checkpoint::{resume_temp_outputs, terminal_items, BatchCheckpoint, BatchCheckpointStore};
use quick_media_organizer::batch::runner::{new_job_status, EncodePlan};
use quick_media_organizer::batch::video_backend::VideoEncodeAttempt;
use quick_media_organizer::batch::{
    AudioMode, BatchItemState, BatchItemStatus, BatchMediaType, BatchSettings, VideoBackend,
};

fn status(id: &str, state: BatchItemState) -> BatchItemStatus {
    BatchItemStatus {
        id: id.into(),
        source_path: id.into(),
        file_name: id.into(),
        media_type: BatchMediaType::Video,
        state,
        progress_permille: 500,
        size_before: 100,
        size_after: None,
        output_path: None,
        error: Some("old process ended".into()),
        encoder_backend: None,
        fallback_reason: None,
    }
}

fn plan(path: &str) -> EncodePlan {
    EncodePlan {
        input: path.to_string(),
        temp_output: format!("{path}.tmp.mp4"),
        final_output: format!("{path}.out.mp4"),
        attempts: vec![VideoEncodeAttempt {
            backend: VideoBackend::Software,
            audio: AudioMode::Aac,
            input_flags: vec![],
            output_flags: vec![],
        }],
        resolved_backend: Some(VideoBackend::Software),
        media_type: BatchMediaType::Video,
        replace_original: false,
        backup: false,
        overwritten_target: None,
    }
}

#[test]
fn resume_only_requeues_pending_and_running_items() {
    let mut job = new_job_status(
        "resume".into(),
        vec![
            status("done.mov", BatchItemState::Done),
            status("running.mov", BatchItemState::Running),
            status("pending.mov", BatchItemState::Pending),
        ],
        None,
        false,
    );
    job.done = 1;
    let mut checkpoint = BatchCheckpoint {
        job,
        settings: BatchSettings::default(),
        plans: vec![None, Some(plan("running.mov")), Some(plan("pending.mov"))],
    };

    let planned = checkpoint.prepare_resume();

    assert!(planned[0].plan.is_none());
    assert_eq!(planned[0].status.state, BatchItemState::Done);
    assert_eq!(planned[1].status.state, BatchItemState::Pending);
    assert_eq!(planned[2].status.state, BatchItemState::Pending);
    assert!(planned[1].status.error.is_none());
}

#[test]
fn a_truncated_checkpoint_fails_the_unplanned_item_instead_of_losing_it() {
    let job = new_job_status(
        "truncated".into(),
        vec![status("pending.mov", BatchItemState::Pending)],
        None,
        false,
    );
    let mut checkpoint = BatchCheckpoint {
        job,
        settings: BatchSettings::default(),
        plans: vec![],
    };

    let planned = checkpoint.prepare_resume();

    assert_eq!(planned.len(), 1);
    assert_eq!(planned[0].status.state, BatchItemState::Failed);
    assert!(planned[0].status.error.is_some());
}

#[test]
fn a_late_worker_snapshot_cannot_move_the_checkpoint_backwards() {
    let mut current = new_job_status(
        "ordered".into(),
        vec![
            status("one.mov", BatchItemState::Done),
            status("two.mov", BatchItemState::Done),
        ],
        None,
        false,
    );
    current.done = 2;
    let mut checkpoint = BatchCheckpoint {
        job: current,
        settings: BatchSettings::default(),
        plans: vec![],
    };
    let mut stale = checkpoint.job.clone();
    stale.items[1].state = BatchItemState::Pending;
    stale.done = 1;

    checkpoint.update_job(stale);

    assert_eq!(checkpoint.job.done, 2);
    assert_eq!(checkpoint.job.items[1].state, BatchItemState::Done);
}

#[test]
fn resuming_clears_the_stop_and_keeps_the_plans() {
    let mut job = new_job_status(
        "stopped".into(),
        vec![status("a.mov", BatchItemState::Running)],
        None,
        false,
    );
    job.running = false;
    job.cancelled = true;
    job.finished_at = Some("then".into());
    let mut checkpoint = BatchCheckpoint {
        job,
        settings: BatchSettings::default(),
        plans: vec![Some(plan("a.mov"))],
    };
    let planned = checkpoint.prepare_resume();
    assert!(checkpoint.job.running);
    assert!(!checkpoint.job.cancelled);
    assert!(checkpoint.job.finished_at.is_none());
    assert_eq!(planned[0].status.progress_permille, 0);
    assert_eq!(planned[0].plan.as_ref().unwrap().temp_output, "a.mov.tmp.mp4");
    assert!(checkpoint.plans[0].is_some());
    assert_eq!(
        checkpoint.job.items[0].state,
        BatchItemState::Pending,
        "the job itself records the requeued item"
    );
}

#[test]
fn a_newer_snapshot_replaces_the_checkpoint_and_finalization_sticks() {
    let current = new_job_status(
        "newer".into(),
        vec![status("one.mov", BatchItemState::Pending)],
        None,
        false,
    );
    let mut checkpoint = BatchCheckpoint {
        job: current,
        settings: BatchSettings::default(),
        plans: vec![],
    };
    let mut newer = checkpoint.job.clone();
    newer.items[0].state = BatchItemState::Done;
    newer.done = 1;
    checkpoint.update_job(newer);
    assert_eq!(checkpoint.job.done, 1);

    let mut finalized = checkpoint.job.clone();
    finalized.running = false;
    finalized.finalized = true;
    checkpoint.update_job(finalized);
    assert!(checkpoint.job.finalized);

    let mut reopened = checkpoint.job.clone();
    reopened.finalized = false;
    checkpoint.update_job(reopened);
    assert!(checkpoint.job.finalized, "a finalization is never undone");

    let mut restarted = checkpoint.job.clone();
    restarted.running = true;
    checkpoint.update_job(restarted);
    assert!(!checkpoint.job.running, "a stopped job is never restarted");
}

#[test]
fn terminal_items_counts_every_finished_state() {
    let job = new_job_status(
        "count".into(),
        vec![
            status("a", BatchItemState::Done),
            status("b", BatchItemState::Skipped),
            status("c", BatchItemState::Failed),
            status("d", BatchItemState::Cancelled),
            status("e", BatchItemState::Pending),
            status("f", BatchItemState::Running),
        ],
        None,
        false,
    );
    assert_eq!(terminal_items(&job), 4);
}

#[test]
fn the_store_keeps_three_generations_in_one_folder() {
    let store = BatchCheckpointStore::new("/data/app");
    assert_eq!(store.directory, "/data/app/batch-jobs");
    assert_eq!(store.active_path(), "/data/app/batch-jobs/active.json");
    assert_eq!(store.previous_path(), "/data/app/batch-jobs/active.previous.json");
    assert_eq!(store.next_path(), "/data/app/batch-jobs/active.next.json");
}

#[test]
fn a_resume_lists_the_half_written_files_of_the_requeued_items() {
    let mut job = new_job_status(
        "temps".into(),
        vec![
            status("done.mov", BatchItemState::Done),
            status("running.mov", BatchItemState::Running),
            status("pending.mov", BatchItemState::Pending),
        ],
        None,
        false,
    );
    job.done = 1;
    let mut checkpoint = BatchCheckpoint {
        job,
        settings: BatchSettings::default(),
        plans: vec![Some(plan("done.mov")), Some(plan("running.mov")), Some(plan("pending.mov"))],
    };
    let planned = checkpoint.prepare_resume();
    assert_eq!(
        resume_temp_outputs(&planned),
        vec!["running.mov.tmp.mp4".to_string(), "pending.mov.tmp.mp4".to_string()]
    );
}
