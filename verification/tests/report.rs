use quick_media_organizer::batch::report::{backend_name, csv, csv_field, escape_markdown, markdown, report_paths, state_name};
use quick_media_organizer::batch::{BatchItemState, BatchItemStatus, BatchJobStatus, BatchMediaType, VideoBackend};

fn failed_job() -> BatchJobStatus {
    BatchJobStatus {
        job_id: "job-test-1".into(),
        running: false,
        cancelled: false,
        total: 1,
        done: 0,
        failed: 1,
        skipped: 0,
        bytes_before: 42,
        bytes_after: 0,
        started_at: "2026-08-27T10:00:00Z".into(),
        finished_at: Some("2026-08-27T10:01:00Z".into()),
        output_dir: None,
        replaces_originals: false,
        items: vec![BatchItemStatus {
            id: "broken.mov".into(),
            source_path: "C:\\camera\\broken.mov".into(),
            file_name: "broken.mov".into(),
            media_type: BatchMediaType::Video,
            state: BatchItemState::Failed,
            progress_permille: 0,
            size_before: 42,
            size_after: None,
            output_path: None,
            error: Some("bad \"codec\"".into()),
            encoder_backend: Some(VideoBackend::Software),
            fallback_reason: Some("GPU unavailable".into()),
        }],
        replacements: vec![],
        finalized: false,
    }
}

#[test]
fn markdown_and_csv_carry_the_failure_details() {
    let job = failed_job();
    let markdown = markdown(&job);
    let csv = csv(&job);

    assert!(markdown.contains("bad \"codec\""));
    assert!(csv.contains("\"bad \"\"codec\"\"\""));
    assert!(csv.contains("\"C:\\camera\\broken.mov\""));
    assert!(markdown.contains("encoder: software"));
    assert!(csv.contains("\"GPU unavailable\""));
}

#[test]
fn the_markdown_report_lists_totals_then_files() {
    let job = failed_job();
    assert_eq!(
        markdown(&job),
        "# Batch report job-test-1\n\n- Started: 2026-08-27T10:00:00Z\n- Finished: 2026-08-27T10:01:00Z\n- Converted: 0\n- Skipped: 0\n- Failed: 1\n- Bytes before: 42\n- Bytes after: 0\n\n## Files\n\n- **broken.mov** — `failed` — C:\\\\camera\\\\broken.mov — bad \"codec\" — encoder: software — fallback: GPU unavailable\n"
    );
    let mut unfinished = job.clone();
    unfinished.finished_at = None;
    assert!(markdown(&unfinished).contains("- Finished: unknown\n"));
}

#[test]
fn the_csv_report_has_one_quoted_row_per_file() {
    let job = failed_job();
    assert_eq!(
        csv(&job),
        "file_name,source_path,state,size_before,size_after,output_path,encoder_backend,fallback_reason,error\n\"broken.mov\",\"C:\\camera\\broken.mov\",\"failed\",\"42\",\"\",\"\",\"software\",\"GPU unavailable\",\"bad \"\"codec\"\"\"\n"
    );
}

#[test]
fn fields_are_escaped_for_each_format() {
    assert_eq!(csv_field("a\"b"), "\"a\"\"b\"");
    assert_eq!(escape_markdown("a*b`c\\d"), "a\\*b\\`c\\\\d");
    assert_eq!(state_name(BatchItemState::Cancelled), "cancelled");
    assert_eq!(backend_name(VideoBackend::VideoToolbox), "apple_videotoolbox");
    let (md, cs) = report_paths("/logs", "job-1");
    assert_eq!(md, "/logs/batch-job-1.md");
    assert_eq!(cs, "/logs/batch-job-1.csv");
}
