use quick_media_organizer::media::{detect_live_photo_pair, group_live_photos, is_media_extension, is_video_extension, same_group};
use quick_media_organizer::models::MediaKind;

#[test]
fn groups_live_photos_within_same_folder_only() {
    let files = vec![
        "/album/a/photo.jpg".to_string(),
        "/album/b/photo.jpg".to_string(),
        "/album/a/photo.mp4".to_string(),
    ];

    let items = group_live_photos(&files);

    assert_eq!(items.len(), 2);
    assert!(items.iter().any(|item| item.kind == MediaKind::LivePhoto));
    assert!(items
        .iter()
        .any(|item| item.kind == MediaKind::Single && item.paths[0].ends_with("/album/b/photo.jpg")));
}

#[test]
fn emits_all_files_when_group_has_extra_stem_siblings() {
    let files = vec![
        "/album/photo.jpg".to_string(),
        "/album/photo.mp4".to_string(),
        "/album/photo (1).jpg".to_string(),
    ];

    let items = group_live_photos(&files);

    assert_eq!(items.len(), 2);
    let primaries: Vec<_> = items.iter().map(|item| item.paths[0].clone()).collect();
    assert!(primaries.iter().any(|path| path.ends_with("photo.jpg")));
    assert!(primaries.iter().any(|path| path.ends_with("photo (1).jpg")));
}

#[test]
fn every_file_lands_in_exactly_one_item() {
    let files = vec![
        "/a/x.jpg".to_string(),
        "/a/y.mov".to_string(),
        "/a/x.mov".to_string(),
        "/a/x.png".to_string(),
        "/b/x.jpg".to_string(),
    ];
    let items = group_live_photos(&files);
    let mut seen: Vec<String> = items.iter().flat_map(|i| i.paths.clone()).collect();
    seen.sort();
    let mut expected = files.clone();
    expected.sort();
    assert_eq!(seen, expected);
    // The pair is the last image and the last video of the group.
    let pair = items.iter().find(|i| i.kind == MediaKind::LivePhoto).unwrap();
    assert_eq!(pair.paths, vec!["/a/x.png".to_string(), "/a/x.mov".to_string()]);
    // Items come in the order of each group's first file.
    assert_eq!(items[0].paths[0], "/a/x.png");
    assert_eq!(items[1].paths, vec!["/a/x.jpg".to_string()]);
    assert_eq!(items[2].paths, vec!["/a/y.mov".to_string()]);
    assert_eq!(items[3].paths, vec!["/b/x.jpg".to_string()]);
}

#[test]
fn a_pair_needs_an_image_and_a_video() {
    assert_eq!(detect_live_photo_pair(&vec!["/a/x.jpg".into()]), None);
    assert_eq!(detect_live_photo_pair(&vec!["/a/x.jpg".into(), "/a/x.png".into()]), None);
    assert_eq!(
        detect_live_photo_pair(&vec!["/a/x.MOV".into(), "/a/x.HEIC".into()]),
        Some((1, 0))
    );
    assert!(same_group("/a/x.jpg", "/a/x.mov"));
    assert!(!same_group("/a/x.jpg", "/b/x.mov"));
}

#[test]
fn media_extensions_ignore_case() {
    assert!(is_media_extension("JPG"));
    assert!(is_media_extension("mkv"));
    assert!(!is_media_extension("txt"));
    assert!(is_video_extension("MoV"));
    assert!(!is_video_extension("heic"));
}
