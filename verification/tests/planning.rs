use quick_media_organizer::batch::planning::{plan_items, plan_items_with_capabilities};
use quick_media_organizer::batch::video_backend::software_capability;
use quick_media_organizer::batch::{
    BatchItemState, BatchMediaType, BatchSettings, ConflictPolicy, ImageFormat, OutputMode,
    VideoCodec,
};
use std::path::Path;

fn image_settings(output: OutputMode) -> BatchSettings {
    BatchSettings {
        output,
        concurrency: 2,
        skip_if_savings_below_pct: None,
        ..BatchSettings::default()
    }
}

fn ok_dir(_: &str) -> Result<(), String> {
    Ok(())
}

#[test]
fn video_plans_use_the_video_flags() {
    let clip = "/tmp/album/clip.mov".to_string();
    let mut settings = image_settings(OutputMode::Subfolder {
        name: "_optimized".into(),
    });
    settings.video.codec = VideoCodec::H265;

    let plans = plan_items(&vec![clip], &settings, &|_: &str| true, &|_: &str| 1000u64, &|_: &str| false, &ok_dir);
    let plan = plans[0].plan.as_ref().unwrap();
    assert_eq!(plan.media_type, BatchMediaType::Video);
    assert!(plan.attempts[0].output_flags.join(" ").contains("libx265"));
    assert_eq!(Path::new(&plan.final_output).extension().unwrap(), "mp4");
}

#[test]
fn conflicting_outputs_get_unique_names() {
    let a = "/d/a/IMG_1.jpg".to_string();
    let b = "/d/b/IMG_1.jpg".to_string();
    let mut settings = image_settings(OutputMode::CustomFolder { path: "/d/out".into() });
    settings.on_conflict = ConflictPolicy::Rename;
    let plans = plan_items(&vec![a, b], &settings, &|_: &str| true, &|_: &str| 1000u64, &|_: &str| false, &ok_dir);
    assert_eq!(plans[0].plan.as_ref().unwrap().final_output, "/d/out/IMG_1.jpg");
    assert_eq!(plans[1].plan.as_ref().unwrap().final_output, "/d/out/IMG_1 (2).jpg");
    assert_eq!(plans[1].plan.as_ref().unwrap().temp_output, "/d/out/.qmo-tmp-1.jpg");
    assert_eq!(plans[1].status.output_path.as_deref(), Some("/d/out/IMG_1 (2).jpg"));
}

#[test]
fn duplicate_overwrite_outputs_fail_instead_of_racing() {
    let a = "/d/a/IMG_1.jpg".to_string();
    let b = "/d/b/IMG_1.jpg".to_string();
    let mut settings = image_settings(OutputMode::CustomFolder { path: "/d/out".into() });
    settings.on_conflict = ConflictPolicy::Overwrite;
    let plans = plan_items(&vec![a, b], &settings, &|_: &str| true, &|_: &str| 1000u64, &|_: &str| false, &ok_dir);
    assert!(plans[0].plan.is_some());
    assert!(plans[1].plan.is_none());
    assert_eq!(plans[1].status.state, BatchItemState::Failed);
    assert!(plans[1].status.error.as_deref().is_some_and(|error| error.contains("same output")));
}

#[test]
fn files_already_in_the_output_folder_are_skipped() {
    let source = "/d/a.jpg".to_string();
    let previous = "/d/out/b.jpg".to_string();
    let settings = image_settings(OutputMode::CustomFolder { path: "/d/out".into() });
    let plans = plan_items(&vec![source, previous], &settings, &|_: &str| true, &|_: &str| 1000u64, &|_: &str| false, &ok_dir);
    assert!(plans[0].plan.is_some());
    assert_eq!(plans[1].status.state, BatchItemState::Skipped);
    assert!(plans[1].status.error.as_deref().unwrap().contains("output folder"));
}

#[test]
fn unsupported_and_missing_files_fail() {
    let settings = image_settings(OutputMode::Subfolder { name: "_optimized".into() });
    let plans = plan_items(
        &vec!["/d/notes.txt".to_string(), "/d/gone.jpg".to_string()],
        &settings,
        &|p: &str| p != "/d/gone.jpg",
        &|_: &str| 10u64,
        &|_: &str| false,
        &ok_dir,
    );
    assert_eq!(plans[0].status.state, BatchItemState::Failed);
    assert_eq!(plans[0].status.error.as_deref(), Some("Unsupported file type."));
    assert_eq!(plans[1].status.state, BatchItemState::Failed);
    assert_eq!(plans[1].status.error.as_deref(), Some("File not found."));
    assert_eq!(plans[1].status.size_before, 10);
    assert_eq!(plans[1].status.file_name, "gone.jpg");
}

#[test]
fn replacing_requires_confirmation() {
    let settings = image_settings(OutputMode::ReplaceOriginal { backup: true, confirmed: false });
    let plans = plan_items(&vec!["/d/a.jpg".to_string()], &settings, &|_: &str| true, &|_: &str| 1000u64, &|_: &str| false, &ok_dir);
    assert_eq!(plans[0].status.state, BatchItemState::Failed);
    assert!(plans[0].status.error.as_deref().unwrap().contains("confirmed"));
}

#[test]
fn replacing_in_place_follows_the_conflict_policy() {
    let mut settings = image_settings(OutputMode::ReplaceOriginal { backup: true, confirmed: true });
    settings.image.format = ImageFormat::Jpeg;
    let taken = |p: &str| p == "/d/photo.jpg";
    let source = vec!["/d/photo.heic".to_string()];

    settings.on_conflict = ConflictPolicy::Rename;
    let plans = plan_items(&source, &settings, &|_: &str| true, &|_: &str| 1000u64, &taken, &ok_dir);
    let plan = plans[0].plan.as_ref().unwrap();
    assert_eq!(plan.final_output, "/d/photo (2).jpg");
    assert!(plan.replace_original && plan.backup);

    settings.on_conflict = ConflictPolicy::Skip;
    let plans = plan_items(&source, &settings, &|_: &str| true, &|_: &str| 1000u64, &taken, &ok_dir);
    assert_eq!(plans[0].status.state, BatchItemState::Skipped);

    settings.on_conflict = ConflictPolicy::Overwrite;
    let plans = plan_items(&source, &settings, &|_: &str| true, &|_: &str| 1000u64, &taken, &ok_dir);
    let plan = plans[0].plan.as_ref().unwrap();
    assert_eq!(plan.final_output, "/d/photo.jpg");
    assert_eq!(plan.overwritten_target.as_deref(), Some("/d/photo.jpg"));

    // A JPEG replaced by a JPEG is written over itself.
    let plans = plan_items(&vec!["/d/photo.jpg".to_string()], &settings, &|_: &str| true, &|_: &str| 1000u64, &taken, &ok_dir);
    let plan = plans[0].plan.as_ref().unwrap();
    assert_eq!(plan.final_output, "/d/photo.jpg");
    assert!(plan.overwritten_target.is_none());
}

#[test]
fn a_folder_that_cannot_be_created_fails_the_file() {
    let settings = image_settings(OutputMode::Subfolder { name: " out: ".into() });
    let plans = plan_items(
        &vec!["/d/a.jpg".to_string()],
        &settings,
        &|_: &str| true,
        &|_: &str| 1u64,
        &|_: &str| false,
        &|dir: &str| Err(format!("denied {dir}")),
    );
    assert_eq!(
        plans[0].status.error.as_deref(),
        Some("Cannot create /d/out: denied /d/out")
    );
}

#[test]
fn no_two_plans_share_an_output() {
    let paths: Vec<String> = (0..5).map(|n| format!("/d/s{n}/IMG.jpg")).collect();
    let mut settings = image_settings(OutputMode::CustomFolder { path: "/o".into() });
    settings.on_conflict = ConflictPolicy::Rename;
    let caps = vec![software_capability()];
    let plans = plan_items_with_capabilities(&paths, &settings, &caps, &|_: &str| true, &|_: &str| 5u64, &|p: &str| p == "/o/IMG.jpg", &ok_dir);
    let outs: Vec<&String> = plans.iter().map(|p| &p.plan.as_ref().unwrap().final_output).collect();
    for i in 0..outs.len() {
        for j in 0..i {
            assert_ne!(outs[i], outs[j]);
        }
    }
    assert_eq!(outs[0], "/o/IMG (2).jpg");
}

#[test]
fn an_in_place_output_already_planned_for_another_file_is_not_shared() {
    let mut settings = image_settings(OutputMode::ReplaceOriginal { backup: true, confirmed: true });
    settings.image.format = ImageFormat::Jpeg;
    let taken = |p: &str| p == "/d/x.jpg";
    let sources = vec!["/d/x.heic".to_string(), "/d/x.jpg".to_string()];

    settings.on_conflict = ConflictPolicy::Overwrite;
    let plans = plan_items(&sources, &settings, &|_: &str| true, &|_: &str| 1000u64, &taken, &ok_dir);
    assert_eq!(plans[0].plan.as_ref().unwrap().final_output, "/d/x.jpg");
    assert!(plans[1].plan.is_none());
    assert_eq!(plans[1].status.state, BatchItemState::Failed);
    assert!(plans[1].status.error.as_deref().is_some_and(|error| error.contains("same output")));

    settings.on_conflict = ConflictPolicy::Rename;
    let plans = plan_items(&sources, &settings, &|_: &str| true, &|_: &str| 1000u64, &taken, &ok_dir);
    assert_eq!(plans[0].plan.as_ref().unwrap().final_output, "/d/x (2).jpg");
    assert_eq!(plans[1].plan.as_ref().unwrap().final_output, "/d/x.jpg");

    settings.on_conflict = ConflictPolicy::Skip;
    let plans = plan_items(&sources, &settings, &|_: &str| true, &|_: &str| 1000u64, &taken, &ok_dir);
    assert_eq!(plans[0].status.state, BatchItemState::Skipped);
    assert_eq!(plans[1].plan.as_ref().unwrap().final_output, "/d/x.jpg");
}

#[test]
fn windows_paths_are_split_at_backslashes() {
    let mut settings = image_settings(OutputMode::ReplaceOriginal { backup: true, confirmed: true });
    settings.image.format = ImageFormat::Jpeg;
    let plans = plan_items(&vec!["C:\\d\\x.heic".to_string()], &settings, &|_: &str| true, &|_: &str| 1000u64, &|_: &str| false, &ok_dir);
    let plan = plans[0].plan.as_ref().unwrap();
    assert_eq!(plan.final_output, "C:\\d\\x.jpg");
    assert_eq!(plan.temp_output, "C:\\d/.qmo-tmp-0.jpg");
    assert_eq!(plans[0].status.file_name, "x.heic");

    let settings = image_settings(OutputMode::Subfolder { name: "_optimized".into() });
    let plans = plan_items(&vec!["C:\\d\\IMG_1.jpg".to_string()], &settings, &|_: &str| true, &|_: &str| 1000u64, &|_: &str| false, &ok_dir);
    assert_eq!(plans[0].plan.as_ref().unwrap().final_output, "C:\\d/_optimized/IMG_1.jpg");
}
