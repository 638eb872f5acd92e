use quick_media_organizer::batch::{BatchSettings, ImageFormat};
use quick_media_organizer::commands::{
    contains_heic, is_under_named_dir, releases_url_from_endpoint,
    requests_unavailable_avif_metadata,
};
use quick_media_organizer::metadata::can_carry_exif;

#[test]
fn detects_heic_inputs_case_insensitively() {
    assert!(contains_heic(&vec!["C:\\Photos\\IMG_1.HEIC".into()]));
    assert!(contains_heic(&vec!["photo.heif".into()]));
    assert!(!contains_heic(&vec!["photo.jpg".into(), "clip.mov".into()]));
}

#[test]
fn rejects_avif_metadata_only_when_images_are_selected() {
    let mut settings = BatchSettings::default();
    settings.image.format = ImageFormat::Avif;
    settings.image.keep_metadata = true;

    assert!(requests_unavailable_avif_metadata(&vec!["photo.jpg".into()], &settings));
    assert!(!requests_unavailable_avif_metadata(&vec!["clip.mov".into()], &settings));
    settings.image.keep_metadata = false;
    assert!(!requests_unavailable_avif_metadata(&vec!["photo.jpg".into()], &settings));
}

#[test]
fn derives_the_releases_page_from_the_update_endpoint() {
    assert_eq!(
        releases_url_from_endpoint(
            "https://github.com/someone/quick-media-organizer/releases/latest/download/latest.json"
        )
        .as_deref(),
        Some("https://github.com/someone/quick-media-organizer/releases")
    );
    assert_eq!(releases_url_from_endpoint("https://example.com/feed.json"), None);
}

#[test]
fn an_output_subfolder_is_excluded_at_any_depth() {
    let root = "D:/camera";
    let names = vec!["_optimized".to_string()];

    assert!(is_under_named_dir(root, "D:/camera/_optimized/a.jpg", &names));
    // Case does not match on Windows, and depth must not matter.
    assert!(is_under_named_dir(root, "D:/camera/trip/_Optimized/a.jpg", &names));
    assert!(!is_under_named_dir(root, "D:/camera/trip/a.jpg", &names));
    // A file *named* like the folder is still a file to convert.
    assert!(!is_under_named_dir(root, "D:/camera/_optimized.jpg", &names));
    // The root itself is never inspected: an album can live anywhere.
    assert!(!is_under_named_dir("D:/_optimized", "D:/_optimized/a.jpg", &names));
    assert!(!is_under_named_dir(root, "D:/camera/a.jpg", &vec![]));
}

#[test]
fn only_containers_that_can_hold_exif_are_offered() {
    assert!(can_carry_exif("jpg"));
    assert!(can_carry_exif("webp"));
    assert!(can_carry_exif("png"));
    // ISOBMFF: img-parts cannot rewrite these, so the UI must not claim it.
    assert!(!can_carry_exif("avif"));
    assert!(!can_carry_exif("gif"));
}
