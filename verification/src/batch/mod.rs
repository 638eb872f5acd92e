//! Batch optimization: settings, job status and the planning logic that turns
//! a selection of files into encoder attempts and output paths.
use vstd::prelude::*;

pub mod ffmpeg_args;
pub mod video_backend;
pub mod runner;
pub mod planning;
pub mod checkpoint;
pub mod report;
pub mod finalize;
pub mod estimate;

verus! {

#[derive(Debug, Clone, Copy, PartialEq, Eq, Structural)]
pub enum BatchMediaType {
    Video,
    Image,
}

#[derive(Debug, Clone, Copy, PartialEq, Eq, Structural)]
pub enum VideoCodec {
    H264,
    H265,
    Av1,
    /// Stream copy: only remux (fast, lossless, small savings).
    Copy,
}

impl Default for VideoCodec {
    fn default() -> (r: Self)
        ensures
            r == VideoCodec::H265,
    {
        VideoCodec::H265
    }
}

#[derive(Debug, Clone, Copy, PartialEq, Eq, Structural)]
pub enum ImageFormat {
    Jpeg,
    Webp,
    Avif,
    Png,
    /// Keep the source format, only re-encode/resize.
    Keep,
}

impl Default for ImageFormat {
    fn default() -> (r: Self)
        ensures
            r == ImageFormat::Jpeg,
    {
        ImageFormat::Jpeg
    }
}

#[derive(Debug, Clone, Copy, PartialEq, Eq, Structural)]
pub enum AudioMode {
    Copy,
    Aac,
    Drop,
}

impl Default for AudioMode {
    fn default() -> (r: Self)
        ensures
            r == AudioMode::Aac,
    {
        AudioMode::Aac
    }
}

#[derive(Debug, Clone, Copy, PartialEq, Eq, Structural)]
pub enum ConflictPolicy {
    Skip,
    Rename,
    Overwrite,
}

impl Default for ConflictPolicy {
    fn default() -> (r: Self)
        ensures
            r == ConflictPolicy::Rename,
    {
        ConflictPolicy::Rename
    }
}

/// Which video encoder family the user asked for.
#[derive(Debug, Clone, Copy, PartialEq, Eq, Structural)]
pub enum HardwareAcceleration {
    Auto,
    Software,
    Nvidia,
    Intel,
    Amd,
    VideoToolbox,
    Vaapi,
}

impl Default for HardwareAcceleration {
    fn default() -> (r: Self)
        ensures
            r == HardwareAcceleration::Auto,
    {
        HardwareAcceleration::Auto
    }
}

/// The encoder family an attempt actually uses.
#[derive(Debug, Clone, Copy, PartialEq, Eq, Structural)]
pub enum VideoBackend {
    Software,
    Nvidia,
    Intel,
    Amd,
    VideoToolbox,
    Vaapi,
}

impl VideoBackend {
    pub open spec fn spec_is_hardware(self) -> bool {
        self != VideoBackend::Software
    }

    #[verifier::when_used_as_spec(spec_is_hardware)]
    pub fn is_hardware(self) -> (r: bool)
        ensures
            r == self.spec_is_hardware(),
    {
        !matches!(self, VideoBackend::Software)
    }
}

/// What one encoder family can do on this computer.
#[derive(Debug, Clone)]
pub struct VideoBackendCapability {
    pub backend: VideoBackend,
    pub codecs: Vec<VideoCodec>,
    pub available: bool,
    pub reason: Option<String>,
}

#[derive(Debug, Clone, PartialEq, Eq)]
pub enum OutputMode {
    /// Write next to the source, inside `<source dir>/<name>`.
    Subfolder { name: String },
    /// Write every result into one folder chosen by the user.
    CustomFolder { path: String },
    /// Destructive: replace the source file. Requires an explicit confirmation
    /// from the UI dialog; planning refuses `confirmed: false`.
    ReplaceOriginal { backup: bool, confirmed: bool },
}

pub fn default_subfolder() -> (r: String)
    ensures
        r@ == "_optimized"@,
{
    String::from_str("_optimized")
}

pub fn default_true() -> (r: bool)
    ensures
        r,
{
    true
}

impl Default for OutputMode {
    fn default() -> (r: Self)
        ensures
            r matches OutputMode::Subfolder { name } && name@ == "_optimized"@,
    {
        OutputMode::Subfolder { name: default_subfolder() }
    }
}

#[derive(Debug, Clone, PartialEq)]
pub struct VideoSettings {
    pub codec: VideoCodec,
    pub crf: u8,
    pub speed_preset: String,
    pub max_height: Option<u32>,
    pub max_fps: Option<u32>,
    pub audio: AudioMode,
    pub audio_bitrate_kbps: u32,
    pub faststart: bool,
    pub keep_metadata: bool,
    pub hardware_acceleration: HardwareAcceleration,
}

pub fn default_crf() -> (r: u8)
    ensures
        r == 28,
{
    28
}

pub fn default_speed_preset() -> (r: String)
    ensures
        r@ == "medium"@,
{
    String::from_str("medium")
}

pub fn default_audio_bitrate() -> (r: u32)
    ensures
        r == 128,
{
    128
}

impl Default for VideoSettings {
    fn default() -> (r: Self)
        ensures
            r.codec == VideoCodec::H265,
            r.crf == 28,
            r.speed_preset@ == "medium"@,
            r.max_height == Some(1080u32),
            r.max_fps is None,
            r.audio == AudioMode::Aac,
            r.audio_bitrate_kbps == 128,
            r.faststart,
            r.keep_metadata,
            r.hardware_acceleration == HardwareAcceleration::Auto,
    {
        VideoSettings {
            codec: VideoCodec::H265,
            crf: default_crf(),
            speed_preset: default_speed_preset(),
            max_height: Some(1080),
            max_fps: None,
            audio: AudioMode::Aac,
            audio_bitrate_kbps: default_audio_bitrate(),
            faststart: true,
            keep_metadata: true,
            hardware_acceleration: HardwareAcceleration::Auto,
        }
    }
}

#[derive(Debug, Clone, PartialEq)]
pub struct ImageSettings {
    pub format: ImageFormat,
    pub quality: u8,
    pub max_edge: Option<u32>,
    pub keep_metadata: bool,
}

pub fn default_image_quality() -> (r: u8)
    ensures
        r == 85,
{
    85
}

impl Default for ImageSettings {
    fn default() -> (r: Self)
        ensures
            r.format == ImageFormat::Jpeg,
            r.quality == 85,
            r.max_edge is None,
            r.keep_metadata,
    {
        ImageSettings {
            format: ImageFormat::Jpeg,
            quality: default_image_quality(),
            max_edge: None,
            keep_metadata: true,
        }
    }
}

#[derive(Debug, Clone, PartialEq)]
pub struct BatchSettings {
    pub video: VideoSettings,
    pub image: ImageSettings,
    pub output: OutputMode,
    pub name_suffix: Option<String>,
    pub on_conflict: ConflictPolicy,
    pub skip_if_larger: bool,
    pub skip_if_savings_below_pct: Option<u8>,
    pub concurrency: usize,
    pub preserve_timestamps: bool,
}

pub fn default_min_savings() -> (r: Option<u8>)
    ensures
        r == Some(5u8),
{
    Some(5)
}

/// Half the machine's parallelism, at least one and at most eight workers.
/// `parallelism` is what the platform reports, `None` when it cannot tell.
pub fn default_concurrency_for(parallelism: Option<usize>) -> (r: usize)
    ensures
        r == match parallelism {
            Some(n) => if n / 2 < 1 {
                1
            } else if n / 2 > 8 {
                8
            } else {
                n / 2
            },
            None => 1,
        },
        1 <= r <= 8,
{
    let half = match parallelism {
        Some(n) => if n / 2 < 1 {
            1
        } else {
            n / 2
        },
        None => 1,
    };
    if half > 8 {
        8
    } else {
        half
    }
}

impl Default for BatchSettings {
    /// The platform's parallelism is not visible here, so the default runs one
    /// worker; `default_concurrency_for` gives the machine-dependent value.
    fn default() -> (r: Self)
        ensures
            r.video.codec == VideoCodec::H265,
            r.video.crf == 28,
            r.video.speed_preset@ == "medium"@,
            r.video.max_height == Some(1080u32),
            r.video.max_fps is None,
            r.video.audio == AudioMode::Aac,
            r.video.audio_bitrate_kbps == 128,
            r.video.faststart,
            r.video.keep_metadata,
            r.video.hardware_acceleration == HardwareAcceleration::Auto,
            r.image.format == ImageFormat::Jpeg,
            r.image.quality == 85,
            r.image.max_edge is None,
            r.image.keep_metadata,
            r.output matches OutputMode::Subfolder { name } && name@ == "_optimized"@,
            r.name_suffix is None,
            r.on_conflict == ConflictPolicy::Rename,
            r.skip_if_larger,
            r.skip_if_savings_below_pct == Some(5u8),
            r.concurrency == 1,
            r.preserve_timestamps,
    {
        BatchSettings {
            video: VideoSettings::default(),
            image: ImageSettings::default(),
            output: OutputMode::default(),
            name_suffix: None,
            on_conflict: ConflictPolicy::Rename,
            skip_if_larger: true,
            skip_if_savings_below_pct: default_min_savings(),
            concurrency: default_concurrency_for(None),
            preserve_timestamps: true,
        }
    }
}

#[derive(Debug, Clone, Copy, PartialEq, Eq, Structural)]
pub enum BatchItemState {
    Pending,
    Running,
    Done,
    Skipped,
    Failed,
    Cancelled,
}

impl BatchItemState {
    /// Done, skipped, failed and cancelled items never run again.
    pub open spec fn spec_is_terminal(self) -> bool {
        match self {
            BatchItemState::Done | BatchItemState::Skipped | BatchItemState::Failed
            | BatchItemState::Cancelled => true,
            _ => false,
        }
    }

    #[verifier::when_used_as_spec(spec_is_terminal)]
    pub fn is_terminal(self) -> (r: bool)
        ensures
            r == self.spec_is_terminal(),
    {
        match self {
            BatchItemState::Done | BatchItemState::Skipped | BatchItemState::Failed
            | BatchItemState::Cancelled => true,
            _ => false,
        }
    }
}

/// One file of a job. `progress_permille` is the encode progress in
/// thousandths (0 = not started, 1000 = finished).
#[derive(Debug, Clone)]
pub struct BatchItemStatus {
    pub id: String,
    pub source_path: String,
    pub file_name: String,
    pub media_type: BatchMediaType,
    pub state: BatchItemState,
    pub progress_permille: u16,
    pub size_before: u64,
    pub size_after: Option<u64>,
    pub output_path: Option<String>,
    pub error: Option<String>,
    pub encoder_backend: Option<VideoBackend>,
    pub fallback_reason: Option<String>,
}

/// One in-place replacement, kept so the session can register it for undo.
#[derive(Debug, Clone)]
pub struct BatchReplacement {
    /// Backup copy of the original file.
    pub backup_path: String,
    /// Where the original lived (undo restores the backup here).
    pub original_path: String,
    /// File written by the conversion; undo removes it when it differs from
    /// `original_path` (format changed, e.g. .heic -> .jpg).
    pub converted_path: String,
}

#[derive(Debug, Clone)]
pub struct BatchJobStatus {
    pub job_id: String,
    pub running: bool,
    pub cancelled: bool,
    pub total: usize,
    pub done: usize,
    pub failed: usize,
    pub skipped: usize,
    pub bytes_before: u64,
    pub bytes_after: u64,
    pub started_at: String,
    pub finished_at: Option<String>,
    pub output_dir: Option<String>,
    pub replaces_originals: bool,
    pub items: Vec<BatchItemStatus>,
    pub replacements: Vec<BatchReplacement>,
    pub finalized: bool,
}

#[derive(Debug, Clone)]
pub struct BatchProgressSummary {
    pub job_id: String,
    pub running: bool,
    pub cancelled: bool,
    pub total: usize,
    pub done: usize,
    pub failed: usize,
    pub skipped: usize,
    pub bytes_before: u64,
    pub bytes_after: u64,
}

impl BatchJobStatus {
    /// Lightweight snapshot for the frequent progress event.
    pub fn summary(&self) -> (r: BatchProgressSummary)
        ensures
            r.job_id@ == self.job_id@,
            r.running == self.running,
            r.cancelled == self.cancelled,
            r.total == self.total,
            r.done == self.done,
            r.failed == self.failed,
            r.skipped == self.skipped,
            r.bytes_before == self.bytes_before,
            r.bytes_after == self.bytes_after,
    {
        BatchProgressSummary {
            job_id: self.job_id.clone(),
            running: self.running,
            cancelled: self.cancelled,
            total: self.total,
            done: self.done,
            failed: self.failed,
            skipped: self.skipped,
            bytes_before: self.bytes_before,
            bytes_after: self.bytes_after,
        }
    }
}

#[derive(Debug, Clone)]
pub struct BatchPreset {
    pub id: String,
    pub name: String,
    pub settings: BatchSettings,
}

#[derive(Debug, Clone)]
pub struct FfmpegCapabilities {
    pub available: bool,
    pub h264: bool,
    pub h265: bool,
    pub av1: bool,
    pub webp: bool,
    pub avif: bool,
    pub heic_decode: bool,
    pub video_backends: Vec<VideoBackendCapability>,
    pub version: Option<String>,
}

impl Default for FfmpegCapabilities {
    /// What is reported when no FFmpeg could be found.
    fn default() -> (r: Self)
        ensures
            !r.available && !r.h264 && !r.h265 && !r.av1 && !r.webp && !r.avif && !r.heic_decode,
            r.video_backends@.len() == 0,
            r.version is None,
    {
        FfmpegCapabilities {
            available: false,
            h264: false,
            h265: false,
            av1: false,
            webp: false,
            avif: false,
            heic_decode: false,
            video_backends: Vec::new(),
            version: None,
        }
    }
}

/// Preflight size estimate for a selection.
#[derive(Debug, Clone)]
pub struct BatchEstimate {
    pub bytes_before: u64,
    pub estimated_bytes_after: u64,
    pub sampled_files: usize,
    pub total_files: usize,
    pub failed_samples: usize,
}

} // verus!
