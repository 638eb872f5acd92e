//! The data the app shows and keeps: queue items, settings, the session of
//! a folder and the undo history.
use vstd::prelude::*;
use std::collections::HashMap;
use crate::batch::{BatchPreset, BatchSettings};

verus! {

#[derive(Debug, Clone, Copy, PartialEq, Eq, Structural)]
pub enum SortMode {
    ExifDate,
    FileName,
    ModifiedDate,
}

impl Default for SortMode {
    fn default() -> (r: Self)
        ensures
            r == SortMode::ExifDate,
    {
        SortMode::ExifDate
    }
}

#[derive(Debug, Clone, Copy, PartialEq, Eq, Structural)]
pub enum RenameMode {
    Free,
    PrefixCounter,
}

impl Default for RenameMode {
    fn default() -> (r: Self)
        ensures
            r == RenameMode::Free,
    {
        RenameMode::Free
    }
}

#[derive(Debug, Clone, Copy, PartialEq, Eq, Structural)]
pub enum LayoutMode {
    Sidebar,
    Bottom,
}

impl Default for LayoutMode {
    fn default() -> (r: Self)
        ensures
            r == LayoutMode::Sidebar,
    {
        LayoutMode::Sidebar
    }
}

/// One file, or a Live Photo's image and video shown as one item.
#[derive(Debug, Clone, Copy, PartialEq, Eq, Structural)]
pub enum MediaKind {
    Single,
    LivePhoto,
}

#[derive(Debug, Clone)]
pub struct MediaItem {
    pub id: String,
    pub paths: Vec<String>,
    pub file_name: String,
    pub extension: String,
    pub exif_date: Option<String>,
    pub modified_at: Option<String>,
    pub size_bytes: u64,
    pub is_video: bool,
    pub kind: MediaKind,
    pub width: Option<u32>,
    pub height: Option<u32>,
}

#[derive(Debug, Clone)]
pub struct VideoPreviewInfo {
    pub playback_path: String,
    pub poster_path: Option<String>,
    pub preview_mode: VideoPreviewMode,
    pub hint: Option<String>,
}

#[derive(Debug, Clone, Copy, PartialEq, Eq, Structural)]
pub enum VideoPreviewMode {
    Native,
    Proxy,
    Unavailable,
}

#[derive(Debug, Clone)]
pub struct MediaFileDiagnosis {
    pub issue: String,
    pub size_bytes: u64,
}

#[derive(Debug, Clone)]
pub struct FrontendState {
    pub folder_path: Option<String>,
    pub current_index: usize,
    pub total: usize,
    pub item: Option<MediaItem>,
    pub sort_mode: SortMode,
    pub scan_recursive: bool,
    pub rename_mode: RenameMode,
    pub armed_folder: Option<String>,
    pub recent_folders: Vec<String>,
    pub favorite_folders: Vec<String>,
    pub existing_subfolders: Vec<String>,
    pub stats: SessionStats,
    pub session_complete: bool,
    /// True when a saved session position could not be restored.
    pub session_reset: bool,
    /// 1-based queue position when reopening a folder mid-session.
    pub resume_from: Option<usize>,
    /// Media files found in subfolders while `scan_recursive` is off.
    pub subfolder_media_count: Option<usize>,
}

#[derive(Debug, Clone)]
pub struct SessionStats {
    pub renamed: u32,
    pub trashed: u32,
    pub moved: u32,
    pub skipped: u32,
}

impl Default for SessionStats {
    fn default() -> (r: Self)
        ensures
            r.renamed == 0 && r.trashed == 0 && r.moved == 0 && r.skipped == 0,
    {
        SessionStats { renamed: 0, trashed: 0, moved: 0, skipped: 0 }
    }
}

/// Outcome of a user action. The backend never builds a user-facing
/// sentence: it names a message and its placeholders, and the UI renders
/// that in the user's language.
#[derive(Debug, Clone)]
pub struct ActionResult {
    pub success: bool,
    pub message_key: String,
    pub message_args: HashMap<String, String>,
    /// The oldest undo entries were dropped to stay under the cap.
    pub undo_history_trimmed: bool,
    pub state: FrontendState,
}

/// Every field defaults on its own, so a single value a build cannot
/// understand never costs the user the whole settings file.
#[derive(Debug, Clone)]
pub struct AppSettings {
    pub locale: String,
    pub first_run_completed: bool,
    pub favorite_folders: Vec<String>,
    pub layout_mode: LayoutMode,
    pub show_metadata: bool,
    pub video_with_sound: bool,
    pub last_folder_path: Option<String>,
    pub batch_presets: Vec<BatchPreset>,
    pub last_batch_settings: Option<BatchSettings>,
}

pub fn default_show_metadata() -> (r: bool)
    ensures
        r,
{
    true
}

pub fn default_locale() -> (r: String)
    ensures
        r@ == "en"@,
{
    String::from_str("en")
}

impl Default for AppSettings {
    fn default() -> (r: Self)
        ensures
            r.locale@ == "en"@,
            !r.first_run_completed,
            r.favorite_folders@.len() == 0,
            r.layout_mode == LayoutMode::Sidebar,
            r.show_metadata,
            !r.video_with_sound,
            r.last_folder_path is None,
            r.batch_presets@.len() == 0,
            r.last_batch_settings is None,
    {
        AppSettings {
            locale: default_locale(),
            first_run_completed: false,
            favorite_folders: Vec::new(),
            layout_mode: LayoutMode::Sidebar,
            show_metadata: default_show_metadata(),
            video_with_sound: false,
            last_folder_path: None,
            batch_presets: Vec::new(),
            last_batch_settings: None,
        }
    }
}

#[derive(Debug, Clone)]
pub enum UndoAction {
    Rename { moves: Vec<PathPair>, focus_paths: Vec<String>, stat_kind: UndoStatKind },
    Trash { moves: Vec<PathPair>, focus_paths: Vec<String>, stat_kind: UndoStatKind },
    MoveToFolder { moves: Vec<PathPair>, focus_paths: Vec<String>, stat_kind: UndoStatKind },
    /// Written by a "gather to root" feature that no longer exists; sessions
    /// saved by an older build still carry these.
    LegacyFlattenToRoot { moves: Vec<PathPair>, focus_paths: Vec<String>, stat_kind: UndoStatKind },
    TrimVideo { moves: Vec<PathPair>, focus_paths: Vec<String>, stat_kind: UndoStatKind },
    /// Batch conversion that replaced originals in place. `moves` restores
    /// each backup over its original path; `remove_paths` holds every
    /// converted file that must be moved aside before the backups can be
    /// restored.
    ConvertMedia {
        moves: Vec<PathPair>,
        focus_paths: Vec<String>,
        stat_kind: UndoStatKind,
        remove_paths: Vec<String>,
    },
}

#[derive(Debug, Clone, Copy, PartialEq, Eq, Structural)]
pub enum UndoStatKind {
    Unset,
    Renamed,
    Trashed,
    Moved,
}

impl Default for UndoStatKind {
    fn default() -> (r: Self)
        ensures
            r == UndoStatKind::Unset,
    {
        UndoStatKind::Unset
    }
}

#[derive(Debug, Clone)]
pub struct PathPair {
    pub from: String,
    pub to: String,
}

#[derive(Debug, Clone)]
pub struct SessionData {
    pub folder_path: String,
    pub current_index: usize,
    pub current_item_paths: Vec<String>,
    pub sort_mode: SortMode,
    pub scan_recursive: bool,
    pub rename_mode: RenameMode,
    pub counter_map: HashMap<String, u32>,
    pub recent_folders: Vec<String>,
    pub armed_folder: Option<String>,
    pub undo_stack: Vec<UndoAction>,
    pub stats: SessionStats,
    pub processed_paths: Vec<String>,
}

} // verus!
