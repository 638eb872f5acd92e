//! The counting side of the preflight size estimate: how many files of each
//! kind were seen and sampled, and when to stop sampling. The sampled
//! output sizes are measured in seconds of video and scaled, which is done
//! in floating point outside.
use vstd::prelude::*;
use super::{BatchEstimate, BatchMediaType};

verus! {

/// Videos sampled at most.
pub const MAX_VIDEO_SAMPLES: usize = 3;

/// Photos sampled at most.
pub const MAX_IMAGE_SAMPLES: usize = 5;

pub open spec fn spec_sample_limit(media: BatchMediaType) -> usize {
    match media {
        BatchMediaType::Video => MAX_VIDEO_SAMPLES,
        BatchMediaType::Image => MAX_IMAGE_SAMPLES,
    }
}

pub fn sample_limit(media: BatchMediaType) -> (r: usize)
    ensures
        r == spec_sample_limit(media),
{
    match media {
        BatchMediaType::Video => MAX_VIDEO_SAMPLES,
        BatchMediaType::Image => MAX_IMAGE_SAMPLES,
    }
}

/// `a + b`, or the largest `u64` when that does not fit.
pub open spec fn saturating(a: u64, b: u64) -> u64 {
    if a + b > u64::MAX {
        u64::MAX
    } else {
        (a + b) as u64
    }
}

/// What was seen of one kind of media: its bytes, the bytes of the files
/// sampled, and how many samples succeeded and failed.
#[derive(Debug, Clone, Copy)]
pub struct SampleCounts {
    pub total_bytes: u64,
    pub sampled_source_bytes: u64,
    pub sampled_files: usize,
    pub failed_samples: usize,
}

impl SampleCounts {
    pub fn new() -> (r: Self)
        ensures
            r.total_bytes == 0 && r.sampled_source_bytes == 0 && r.sampled_files == 0 && r.failed_samples == 0,
    {
        SampleCounts { total_bytes: 0, sampled_source_bytes: 0, sampled_files: 0, failed_samples: 0 }
    }

    /// A file of `len` bytes was selected.
    pub fn add_file(&mut self, len: u64)
        ensures
            final(self).total_bytes == saturating(old(self).total_bytes, len),
            final(self).sampled_source_bytes == old(self).sampled_source_bytes,
            final(self).sampled_files == old(self).sampled_files,
            final(self).failed_samples == old(self).failed_samples,
    {
        self.total_bytes = self.total_bytes.saturating_add(len);
    }

    /// Whether one more file of this kind is sampled: fewer samples than
    /// the limit were tried.
    pub fn wants_sample(&self, media: BatchMediaType) -> (r: bool)
        ensures
            r == (self.sampled_files + self.failed_samples < spec_sample_limit(media)),
    {
        let limit = sample_limit(media);
        self.sampled_files < limit && self.failed_samples < limit - self.sampled_files
    }

    /// A sample of a file of `len` bytes succeeded.
    pub fn record_sample(&mut self, len: u64)
        requires
            old(self).sampled_files < usize::MAX,
        ensures
            final(self).sampled_source_bytes == saturating(old(self).sampled_source_bytes, len),
            final(self).sampled_files == old(self).sampled_files + 1,
            final(self).total_bytes == old(self).total_bytes,
            final(self).failed_samples == old(self).failed_samples,
    {
        self.sampled_source_bytes = self.sampled_source_bytes.saturating_add(len);
        self.sampled_files = self.sampled_files + 1;
    }

    /// A sample failed.
    pub fn record_failure(&mut self)
        requires
            old(self).failed_samples < usize::MAX,
        ensures
            final(self).failed_samples == old(self).failed_samples + 1,
            final(self).total_bytes == old(self).total_bytes,
            final(self).sampled_source_bytes == old(self).sampled_source_bytes,
            final(self).sampled_files == old(self).sampled_files,
    {
        self.failed_samples = self.failed_samples + 1;
    }
}

/// The estimate of a selection from what was seen of its videos and its
/// photos, with `estimated_after` the scaled size of their outputs.
pub fn combine_estimate(
    videos: &SampleCounts,
    images: &SampleCounts,
    estimated_after: u64,
    total_files: usize,
) -> (r: BatchEstimate)
    requires
        videos.sampled_files + images.sampled_files <= usize::MAX,
        videos.failed_samples + images.failed_samples <= usize::MAX,
    ensures
        r.bytes_before == saturating(videos.total_bytes, images.total_bytes),
        r.estimated_bytes_after == estimated_after,
        r.sampled_files == videos.sampled_files + images.sampled_files,
        r.total_files == total_files,
        r.failed_samples == videos.failed_samples + images.failed_samples,
{
    BatchEstimate {
        bytes_before: videos.total_bytes.saturating_add(images.total_bytes),
        estimated_bytes_after: estimated_after,
        sampled_files: videos.sampled_files + images.sampled_files,
        total_files,
        failed_samples: videos.failed_samples + images.failed_samples,
    }
}

} // verus!
