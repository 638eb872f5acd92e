use quick_media_organizer::media::{
    build_media_item, diagnose_header, fill_missing_metadata, item_kind, keeps_walking,
    relative_folder, sort_items, sorted_unique, subfolder_list, supported_files, total_size,
    wants_exif_fields,
};
use quick_media_organizer::metadata::{exif_to_copy, read_exif_date_only, read_exif_fields, splice_exif};
use quick_media_organizer::models::{MediaItem, MediaKind, SortMode};

fn item(name: &str, exif: Option<&str>, modified: Option<&str>) -> MediaItem {
    build_media_item(
        vec![format!("/album/{name}")],
        MediaKind::Single,
        1,
        modified.map(|m| m.to_string()),
    )
    .with_exif(exif)
}

trait WithExif {
    fn with_exif(self, exif: Option<&str>) -> Self;
}

impl WithExif for MediaItem {
    fn with_exif(mut self, exif: Option<&str>) -> Self {
        self.exif_date = exif.map(|e| e.to_string());
        self
    }
}

#[test]
fn an_item_is_named_and_typed_after_its_first_path() {
    let it = build_media_item(
        vec!["/album/IMG_1.HEIC".into(), "/album/IMG_1.MOV".into()],
        MediaKind::LivePhoto,
        300,
        Some("2024-01-02 03:04:05".into()),
    );
    assert_eq!(it.id, "/album/IMG_1.HEIC");
    assert_eq!(it.file_name, "IMG_1.HEIC");
    assert_eq!(it.extension, "heic");
    assert!(!it.is_video);
    assert_eq!(it.size_bytes, 300);
    assert_eq!(it.kind, MediaKind::LivePhoto);
    assert!(it.width.is_none() && it.exif_date.is_none());
    let clip = build_media_item(vec!["/album/clip.Mp4".into()], MediaKind::Single, 1, None);
    assert!(clip.is_video);
    assert_eq!(clip.extension, "mp4");
}

#[test]
fn picked_paths_form_a_live_photo_only_with_both_kinds() {
    assert_eq!(item_kind(&vec!["/a/x.jpg".into(), "/a/x.mov".into()]), MediaKind::LivePhoto);
    assert_eq!(item_kind(&vec!["/a/x.jpg".into(), "/a/y.jpg".into()]), MediaKind::Single);
    assert_eq!(item_kind(&vec!["/a/x.jpg".into()]), MediaKind::Single);
}

#[test]
fn sizes_that_could_not_be_read_count_nothing() {
    assert_eq!(total_size(&vec![Some(10), None, Some(5)]), 15);
    assert_eq!(total_size(&vec![]), 0);
}

#[test]
fn only_missing_fields_are_filled_and_videos_are_not_read() {
    let mut it = item("a.jpg", Some("2020-01-01 00:00:00"), None);
    assert!(wants_exif_fields(&it));
    fill_missing_metadata(&mut it, Some("1999-09-09 09:09:09".into()), Some(4000), None);
    assert_eq!(it.exif_date.as_deref(), Some("2020-01-01 00:00:00"));
    assert_eq!(it.width, Some(4000));
    assert_eq!(it.height, None);
    fill_missing_metadata(&mut it, None, Some(1), Some(3000));
    assert_eq!(it.width, Some(4000));
    assert_eq!(it.height, Some(3000));
    assert!(!wants_exif_fields(&it));
    let clip = item("c.mov", None, None);
    assert!(!wants_exif_fields(&clip));
}

#[test]
fn a_file_is_diagnosed_by_size_header_and_extension() {
    let mut header = [0u8; 16];
    assert_eq!(diagnose_header(0, &header, 0, "/a/x.jpg").issue, "empty");
    assert_eq!(diagnose_header(3, &header, 3, "/a/x.jpg").issue, "too_small");
    assert_eq!(diagnose_header(100, &header, 16, "/a/x.JPG").issue, "content_mismatch");
    header[0] = 0xFF;
    header[1] = 0xD8;
    header[2] = 0xFF;
    assert_eq!(diagnose_header(100, &header, 16, "/a/x.jpeg").issue, "unknown");
    assert_eq!(diagnose_header(100, &header, 16, "/a/x.png").issue, "content_mismatch");
    let png = [0x89, 0x50, 0x4E, 0x47, 0, 0, 0, 0, 0, 0, 0, 0, 0, 0, 0, 0];
    assert_eq!(diagnose_header(100, &png, 16, "/a/x.png").issue, "unknown");
    let mut heif = [0u8; 16];
    heif[4..8].copy_from_slice(b"ftyp");
    assert_eq!(diagnose_header(100, &heif, 16, "/a/x.heic").issue, "unknown");
    assert_eq!(diagnose_header(100, &png, 16, "/a/x.heif").issue, "content_mismatch");
    let d = diagnose_header(100, &png, 16, "/a/x.gif");
    assert_eq!(d.issue, "unknown");
    assert_eq!(d.size_bytes, 100);
}

fn names(items: &[MediaItem]) -> Vec<&str> {
    items.iter().map(|i| i.file_name.as_str()).collect()
}

#[test]
fn items_sort_by_name_without_case() {
    let mut v = vec![item("b.jpg", None, None), item("A.jpg", None, None), item("a.JPG", None, None)];
    sort_items(&mut v, SortMode::FileName);
    // "A.jpg" and "a.JPG" lower-case alike, so they keep their order
    assert_eq!(names(&v), vec!["A.jpg", "a.JPG", "b.jpg"]);
}

#[test]
fn items_sort_by_date_then_name_and_undated_come_first() {
    let mut v = vec![
        item("c.jpg", Some("2024-01-02 00:00:00"), None),
        item("z.jpg", None, Some("2023-05-05 00:00:00")),
        item("b.jpg", Some("2024-01-02 00:00:00"), None),
        item("none.jpg", None, None),
    ];
    sort_items(&mut v, SortMode::ExifDate);
    assert_eq!(names(&v), vec!["none.jpg", "z.jpg", "b.jpg", "c.jpg"]);
    let mut m = vec![
        item("b.jpg", None, Some("2020")),
        item("a.jpg", None, Some("2020")),
        item("c.jpg", Some("1990"), None),
    ];
    sort_items(&mut m, SortMode::ModifiedDate);
    assert_eq!(names(&m), vec!["c.jpg", "a.jpg", "b.jpg"]);
}

/// A JPEG holding only an EXIF block: DateTimeOriginal 2024:05:06 07:08:09,
/// PixelXDimension 4000 (LONG), PixelYDimension 3000 (SHORT).
fn jpeg_with_exif() -> Vec<u8> {
    let mut tiff = vec![0x4D, 0x4D, 0x00, 0x2A, 0, 0, 0, 8];
    tiff.extend([0, 1, 0x87, 0x69, 0, 4, 0, 0, 0, 1, 0, 0, 0, 26, 0, 0, 0, 0]);
    tiff.extend([0, 3]);
    tiff.extend([0x90, 0x03, 0, 2, 0, 0, 0, 20, 0, 0, 0, 68]);
    tiff.extend([0xA0, 0x02, 0, 4, 0, 0, 0, 1, 0, 0, 0x0F, 0xA0]);
    tiff.extend([0xA0, 0x03, 0, 3, 0, 0, 0, 1, 0x0B, 0xB8, 0, 0]);
    tiff.extend([0, 0, 0, 0]);
    tiff.extend(b"2024:05:06 07:08:09\0");
    assert_eq!(tiff.len(), 88);
    let mut jpeg = vec![0xFF, 0xD8, 0xFF, 0xE1];
    let len = (2 + 6 + tiff.len()) as u16;
    jpeg.extend(len.to_be_bytes());
    jpeg.extend(b"Exif\0\0");
    jpeg.extend(tiff);
    jpeg.extend([0xFF, 0xD9]);
    jpeg
}

#[test]
fn exif_fields_are_read_from_a_photo() {
    let data = jpeg_with_exif();
    let f = read_exif_fields(&data);
    assert_eq!(f.exif_date.as_deref(), Some("2024-05-06 07:08:09"));
    assert_eq!(f.width, Some(4000));
    assert_eq!(f.height, Some(3000));
    assert_eq!(read_exif_date_only(&data).as_deref(), Some("2024-05-06 07:08:09"));
    let plain = read_exif_fields(b"not an image");
    assert!(plain.exif_date.is_none() && plain.width.is_none() && plain.height.is_none());
}

#[test]
fn subfolders_are_listed_relative_sorted_and_once() {
    assert_eq!(relative_folder("/album", "/album/2024/trip").as_deref(), Some("2024/trip"));
    assert_eq!(relative_folder("/album/", "/album/x").as_deref(), Some("x"));
    assert_eq!(relative_folder("/album", "/albums/x"), None);
    assert_eq!(relative_folder("C:/album", "C:/album/a\\b").as_deref(), Some("a/b"));
    let dirs = vec!["/album/b".to_string(), "/album/a".to_string(), "/album/b".to_string(), "/other".to_string()];
    assert_eq!(subfolder_list("/album", &dirs), vec!["a", "b"]);
    assert_eq!(sorted_unique(vec!["b".into(), "B".into(), "b".into(), "a".into()]), vec!["B", "a", "b"]);
}

#[test]
fn a_walk_skips_ignored_folders_below_the_root() {
    let ignored = vec![".quick-media-organizer".to_string(), "node_modules".to_string()];
    assert!(keeps_walking(0, ".quick-media-organizer", &ignored));
    assert!(!keeps_walking(1, ".quick-media-organizer", &ignored));
    assert!(keeps_walking(2, "photos", &ignored));
}

#[test]
fn only_photo_and_video_files_are_scanned() {
    let paths = vec!["/a/x.JPG".to_string(), "/a/notes.txt".to_string(), "/a/clip.mov".to_string(), "/a/noext".to_string()];
    assert_eq!(supported_files(&paths), vec!["/a/x.JPG", "/a/clip.mov"]);
}

#[test]
fn the_exif_block_is_carried_only_where_it_fits() {
    let data = jpeg_with_exif();
    let blob = exif_to_copy("/out/x.JPG", &data).unwrap();
    assert_eq!(blob.len(), 88);
    assert_eq!(&blob[0..4], &[0x4D, 0x4D, 0x00, 0x2A]);
    assert_eq!(exif_to_copy("/out/x.avif", &data), None);
    assert_eq!(exif_to_copy("/out/x.png", b"no exif here"), None);
    // bytes that are no image format img-parts handles are left alone
    assert_eq!(splice_exif(b"plain text", &blob), Ok(None));
}

/// A JPEG without EXIF: a JFIF segment and two comments.
fn jpeg_without_exif() -> Vec<u8> {
    let mut jpeg = vec![0xFF, 0xD8];
    jpeg.extend([0xFF, 0xE0, 0x00, 0x10]);
    jpeg.extend(b"JFIF\0");
    jpeg.extend([1, 1, 0, 0, 1, 0, 1, 0, 0]);
    jpeg.extend([0xFF, 0xFE, 0x00, 0x04]);
    jpeg.extend(b"hi");
    jpeg.extend([0xFF, 0xFE, 0x00, 0x04]);
    jpeg.extend(b"yo");
    jpeg.extend([0xFF, 0xD9]);
    jpeg
}

#[test]
fn exif_is_spliced_into_a_jpeg_that_had_none() {
    let blob = exif_to_copy("/out/x.jpg", &jpeg_with_exif()).unwrap();
    let target = jpeg_without_exif();
    assert_eq!(exif_to_copy("/out/x.jpg", &target), None);
    let spliced = splice_exif(&target, &blob).unwrap().expect("the block goes in");
    assert_eq!(exif_to_copy("/out/x.jpg", &spliced), Some(blob.clone()));
    // a file that already carries EXIF is never overwritten
    assert_eq!(splice_exif(&jpeg_with_exif(), &blob), Ok(None));
    // a truncated JPEG is reported
    let err = splice_exif(&[0xFF, 0xD8, 0xFF, 0xE0, 0x00], &blob).unwrap_err();
    assert!(err.starts_with("Cannot parse the converted file: "));
}

#[test]
fn windows_subfolders_are_found_below_a_backslash_root() {
    assert_eq!(relative_folder("C:\\album", "C:\\album\\2024\\trip").as_deref(), Some("2024/trip"));
    assert_eq!(relative_folder("C:\\album\\", "C:\\album\\x").as_deref(), Some("x"));
    assert_eq!(relative_folder("C:\\album", "C:\\albums\\x"), None);
}
