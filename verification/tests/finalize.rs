use std::collections::HashMap;

use quick_media_organizer::batch::finalize::{
    carries_exif_over, converted_verdict, empty_output_error, replacement_script,
    replacement_script_for, ConvertedVerdict, FsOp, ReplacementScript,
};
use quick_media_organizer::batch::runner::EncodePlan;
use quick_media_organizer::batch::{BatchMediaType, BatchSettings};

fn plan(input: &str, final_output: &str, target: Option<&str>, backup: bool) -> EncodePlan {
    EncodePlan {
        input: input.into(),
        temp_output: "/m/.qmo-tmp-0.jpg".into(),
        final_output: final_output.into(),
        attempts: vec![],
        resolved_backend: None,
        media_type: BatchMediaType::Image,
        replace_original: true,
        backup,
        overwritten_target: target.map(|t| t.to_string()),
    }
}

type Files = HashMap<String, &'static str>;

/// Runs an operation on an in-memory folder tree; `Err` when its source is
/// missing or when `fail` asks for it.
fn run(files: &mut Files, op: &FsOp, fail: bool) -> Result<(), ()> {
    if fail {
        return Err(());
    }
    match op {
        FsOp::CreateDirAll(_) => Ok(()),
        FsOp::Copy { from, to } => {
            let v = *files.get(from).ok_or(())?;
            files.insert(to.clone(), v);
            Ok(())
        }
        FsOp::Rename { from, to } => {
            let v = files.remove(from).ok_or(())?;
            files.insert(to.clone(), v);
            Ok(())
        }
        FsOp::Remove(p) => {
            files.remove(p);
            Ok(())
        }
    }
}

/// Plays the script with step `failing` failing (none when out of range);
/// returns the files and the error text, if any.
fn play(script: &ReplacementScript, start: &Files, failing: usize) -> (Files, Option<String>) {
    let mut files = start.clone();
    for (i, step) in script.steps.iter().enumerate() {
        if run(&mut files, &step.op, i == failing).is_err() {
            for undo in &step.undo {
                let _ = run(&mut files, undo, false);
            }
            return (files, Some(step.error_prefix.clone()));
        }
    }
    for op in &script.cleanup {
        let _ = run(&mut files, op, false);
    }
    (files, None)
}

fn start_files() -> Files {
    let mut f = Files::new();
    f.insert("/m/a.png".into(), "original");
    f.insert("/m/.qmo-tmp-0.jpg".into(), "converted");
    f.insert("/m/a.jpg".into(), "existing");
    f
}

fn script_with_target() -> ReplacementScript {
    let p = plan("/m/a.png", "/m/a.jpg", Some("/m/a.jpg"), true);
    replacement_script(
        &p,
        &Some("/m/.quick-media-organizer/batch-backups/a_1.png".into()),
        &Some("/m/.quick-media-organizer/batch-backups/a_1.jpg".into()),
        &"/m/.qmo-replacing-1-a.png".into(),
        &Some("/m/.qmo-replacing-1-a.jpg".into()),
    )
}

#[test]
fn a_replacement_runs_backups_then_moves() {
    let script = script_with_target();
    let ops: Vec<FsOp> = script.steps.iter().map(|s| s.op.clone()).collect();
    assert_eq!(ops.len(), 7);
    assert!(matches!(&ops[0], FsOp::CreateDirAll(d) if d == "/m/.quick-media-organizer/batch-backups"));
    assert!(matches!(&ops[1], FsOp::Copy { from, to } if from == "/m/a.png" && to == "/m/.quick-media-organizer/batch-backups/a_1.png"));
    assert!(matches!(&ops[3], FsOp::Copy { from, to } if from == "/m/a.jpg" && to == "/m/.quick-media-organizer/batch-backups/a_1.jpg"));
    assert!(matches!(&ops[4], FsOp::Rename { from, to } if from == "/m/a.png" && to == "/m/.qmo-replacing-1-a.png"));
    assert!(matches!(&ops[5], FsOp::Rename { from, to } if from == "/m/a.jpg" && to == "/m/.qmo-replacing-1-a.jpg"));
    assert!(matches!(&ops[6], FsOp::Rename { from, to } if from == "/m/.qmo-tmp-0.jpg" && to == "/m/a.jpg"));
    assert_eq!(script.steps[6].error_prefix, "Could not replace the original: ");
    assert_eq!(script.cleanup.len(), 2);
    assert_eq!(script.replacements.len(), 2);
    assert_eq!(script.replacements[0].original_path, "/m/a.png");
    assert_eq!(script.replacements[0].converted_path, "/m/a.jpg");
    assert_eq!(script.replacements[1].original_path, "/m/a.jpg");
    assert_eq!(script.replacements[1].converted_path, "/m/a.jpg");
}

#[test]
fn a_failed_step_puts_the_originals_back() {
    let script = script_with_target();
    let start = start_files();
    for failing in 0..script.steps.len() {
        let (files, error) = play(&script, &start, failing);
        assert!(error.is_some());
        assert_eq!(files.get("/m/a.png"), Some(&"original"), "step {failing}");
        assert_eq!(files.get("/m/a.jpg"), Some(&"existing"), "step {failing}");
        assert!(!files.contains_key("/m/.qmo-replacing-1-a.png"));
    }
}

#[test]
fn a_completed_replacement_leaves_output_and_backups() {
    let script = script_with_target();
    let (files, error) = play(&script, &start_files(), usize::MAX);
    assert_eq!(error, None);
    assert_eq!(files.get("/m/a.jpg"), Some(&"converted"));
    assert_eq!(files.get("/m/a.png"), None);
    assert_eq!(files.get("/m/.quick-media-organizer/batch-backups/a_1.png"), Some(&"original"));
    assert_eq!(files.get("/m/.quick-media-organizer/batch-backups/a_1.jpg"), Some(&"existing"));
    assert_eq!(files.len(), 3);
}

#[test]
fn a_same_name_replacement_without_backup() {
    let p = plan("/m/a.jpg", "/m/a.jpg", None, false);
    let script = replacement_script(&p, &None, &None, &"/m/.qmo-replacing-2-a.jpg".into(), &None);
    assert_eq!(script.steps.len(), 2);
    assert!(script.replacements.is_empty());
    let mut start = Files::new();
    start.insert("/m/a.jpg".into(), "original");
    start.insert("/m/.qmo-tmp-0.jpg".into(), "converted");
    let (files, error) = play(&script, &start, 1);
    assert_eq!(error.as_deref(), Some("Could not replace the original: "));
    assert_eq!(files.get("/m/a.jpg"), Some(&"original"));
    let (files, error) = play(&script, &start, usize::MAX);
    assert_eq!(error, None);
    assert_eq!(files.get("/m/a.jpg"), Some(&"converted"));
    assert_eq!(files.len(), 1);
}

#[test]
fn a_script_for_a_plan_names_its_own_places() {
    let p = plan("/m/a.png", "/m/a.jpg", None, true);
    let script = replacement_script_for(&p);
    assert_eq!(script.replacements.len(), 1);
    assert!(script.replacements[0].backup_path.starts_with("/m/.quick-media-organizer/batch-backups/a_"));
    assert!(script.replacements[0].backup_path.ends_with(".png"));
    match &script.steps[2].op {
        FsOp::Rename { from, to } => {
            assert_eq!(from, "/m/a.png");
            assert!(to.starts_with("/m/.qmo-replacing-"));
            assert!(to.ends_with("-a.png"));
        }
        other => panic!("unexpected {other:?}"),
    }
}

#[test]
fn converted_files_are_checked_before_they_go_in_place() {
    let settings = BatchSettings::default();
    assert_eq!(empty_output_error(0).as_deref(), Some("Converted file is empty."));
    assert_eq!(empty_output_error(1), None);
    assert!(matches!(
        converted_verdict(BatchMediaType::Video, false, 100, 10, &settings),
        ConvertedVerdict::Reject(m) if m == "Converted video could not be read back."
    ));
    assert!(matches!(converted_verdict(BatchMediaType::Video, true, 100, 10, &settings), ConvertedVerdict::Keep));
    assert!(matches!(converted_verdict(BatchMediaType::Image, false, 100, 10, &settings), ConvertedVerdict::Keep));
    assert!(matches!(
        converted_verdict(BatchMediaType::Image, true, 100, 100, &settings),
        ConvertedVerdict::Skip(m) if m == "Converted file was not smaller — original kept."
    ));
    assert!(matches!(
        converted_verdict(BatchMediaType::Image, true, 100, 97, &settings),
        ConvertedVerdict::Skip(m) if m == "Only 3% smaller (below the 5% threshold) — original kept."
    ));
    assert!(matches!(converted_verdict(BatchMediaType::Image, true, 0, 97, &settings), ConvertedVerdict::Keep));
    let p = plan("/m/a.png", "/m/a.jpg", None, true);
    assert!(carries_exif_over(&p, &settings));
    let mut no_meta = BatchSettings::default();
    no_meta.image.keep_metadata = false;
    assert!(!carries_exif_over(&p, &no_meta));
}
