//! The decisions behind the app's commands: which requests to refuse before
//! a batch starts, which folders a scan leaves out, how a finished or an
//! interrupted job is picked up again, and where updates come from.
use vstd::prelude::*;
use crate::text::{
    chars_of, chars_eq, lower_chars, lower_text, push_str, slice_chars,
    string_of, to_lowercase, trim, trimmed, unicode_lower, contains_text, occurs_at,
};
use crate::path_text::{extension, extension_chars, parent, parent_chars};
use crate::batch::{
    BatchItemState, BatchItemStatus, BatchJobStatus, BatchMediaType, BatchSettings,
    FfmpegCapabilities, ImageFormat, OutputMode, VideoCodec,
};
use crate::batch::ffmpeg_args::{classify_path, spec_classify};
use crate::batch::runner::{PlannedItem, count_state, new_job_status, opt_string_view};
use crate::batch::planning::{plan_items_with_capabilities, planned_item_ok, reserved_of};
use crate::clock::now_rfc3339;
use crate::path_text::{inside_root, inside_root_chars};
use crate::batch::video_backend::{resolve_video_encoding, spec_resolved_backend};

verus! {

pub open spec fn heic_path(p: Seq<char>) -> bool {
    match extension(p) {
        Some(e) => lower_text(e) == "heic"@ || lower_text(e) == "heif"@,
        None => false,
    }
}

/// Some selected file is HEIC/HEIF, whatever the case of its extension.
pub fn contains_heic(paths: &Vec<String>) -> (r: bool)
    ensures
        r == exists|i: int| 0 <= i < paths@.len() && #[trigger] heic_path(paths@[i]@),
{
    let mut i: usize = 0;
    while i < paths.len()
        invariant
            i <= paths@.len(),
            forall|k: int| 0 <= k < i ==> !#[trigger] heic_path(paths@[k]@),
        decreases paths@.len() - i,
    {
        let p = chars_of(paths[i].as_str());
        if let Some(e) = extension_chars(p.as_slice()) {
            let l = lower_chars(e.as_slice());
            if crate::media::eq_lit(l.as_slice(), "heic") || crate::media::eq_lit(l.as_slice(), "heif") {
                assert(heic_path(paths@[i as int]@));
                return true;
            }
        }
        i = i + 1;
    }
    false
}

/// Metadata is to be kept on AVIF output and some selected file is a photo:
/// this build cannot write EXIF into AVIF.
pub open spec fn spec_requests_unavailable_avif_metadata(
    paths: Seq<String>,
    settings: BatchSettings,
) -> bool {
    &&& settings.image.keep_metadata
    &&& settings.image.format == ImageFormat::Avif
    &&& exists|i: int|
        0 <= i < paths.len() && #[trigger] spec_classify(paths[i]@) == Some(BatchMediaType::Image)
}

pub fn requests_unavailable_avif_metadata(paths: &Vec<String>, settings: &BatchSettings) -> (r: bool)
    ensures
        r == spec_requests_unavailable_avif_metadata(paths@, *settings),
{
    if !settings.image.keep_metadata || settings.image.format != ImageFormat::Avif {
        return false;
    }
    let mut i: usize = 0;
    while i < paths.len()
        invariant
            i <= paths@.len(),
            settings.image.keep_metadata,
            settings.image.format == ImageFormat::Avif,
            forall|k: int|
                0 <= k < i ==> #[trigger] spec_classify(paths@[k]@) != Some(BatchMediaType::Image),
        decreases paths@.len() - i,
    {
        match classify_path(paths[i].as_str()) {
            Some(BatchMediaType::Image) => {
                assert(spec_classify(paths@[i as int]@) == Some(BatchMediaType::Image));
                return true;
            },
            _ => {},
        }
        i = i + 1;
    }
    false
}

/// Derives the repository's releases page from the updater endpoint baked
/// into the build: the text before the first `/releases/`, then
/// `/releases`; `None` when the endpoint has no `/releases/`.
pub fn releases_url_from_endpoint(endpoint: &str) -> (r: Option<String>)
    ensures
        match r {
            Some(u) => exists|i: int|
                occurs_at(endpoint@, "/releases/"@, i) && (forall|j: int|
                    0 <= j < i ==> !occurs_at(endpoint@, "/releases/"@, j)) && u@ == endpoint@.take(
                    i,
                ) + "/releases"@,
            None => !contains_text(endpoint@, "/releases/"@),
        },
{
    let e = chars_of(endpoint);
    let marker = chars_of("/releases/");
    proof {
        reveal_strlit("/releases/");
    }
    assert(marker@.len() == 10);
    if e.len() < marker.len() {
        assert forall|k: int| !occurs_at(endpoint@, "/releases/"@, k) by {}
        return None;
    }
    let last = e.len() - marker.len();
    let mut i: usize = 0;
    while i <= last
        invariant
            e@ == endpoint@,
            marker@ == "/releases/"@,
            marker@.len() <= e@.len(),
            last == e@.len() - marker@.len(),
            marker@.len() == 10,
            e@.len() == e.len(),
            i <= last + 1,
            forall|j: int| 0 <= j < i ==> !occurs_at(endpoint@, "/releases/"@, j),
        decreases e@.len() - i,
    {
        if crate::text::occurs_at_exec(e.as_slice(), marker.as_slice(), i) {
            let mut u = slice_chars(e.as_slice(), 0, i);
            push_str(&mut u, "/releases");
            assert(u@ == endpoint@.take(i as int) + "/releases"@);
            return Some(string_of(u.as_slice()));
        }
        i = i + 1;
    }
    assert forall|k: int| !occurs_at(endpoint@, "/releases/"@, k) by {
        if 0 <= k && k + marker@.len() <= endpoint@.len() {
            assert(k < i);
        }
    }
    None
}

/// The non-empty parts of `s` between separators.
pub open spec fn path_parts(s: Seq<char>) -> Seq<Seq<char>>
    decreases s.len(),
{
    let k = crate::path_text::first_sep_of(s);
    if k < 0 || k >= s.len() {
        if s.len() == 0 {
            Seq::empty()
        } else {
            seq![s]
        }
    } else {
        let head = s.take(k);
        let rest = path_parts(s.skip(k + 1));
        if head.len() == 0 {
            rest
        } else {
            seq![head] + rest
        }
    }
}

/// The components of a path: the root `/` when it is absolute (it starts
/// with a separator), then its non-empty parts.
pub open spec fn components(p: Seq<char>) -> Seq<Seq<char>> {
    (if p.len() > 0 && crate::path_text::is_sep(p[0]) {
        seq![seq!['/']]
    } else {
        Seq::empty()
    }) + path_parts(p)
}

pub fn path_parts_exec(s: &[char]) -> (r: Vec<Vec<char>>)
    ensures
        crate::text::seqs(r@) == path_parts(s@),
{
    let mut out: Vec<Vec<char>> = Vec::new();
    let mut rest = slice_chars(s, 0, s.len());
    assert(rest@ =~= s@);
    assert(crate::text::seqs(out@) =~= Seq::<Seq<char>>::empty());
    loop
        invariant
            crate::text::seqs(out@) + path_parts(rest@) == path_parts(s@),
        decreases rest@.len(),
    {
        proof {
            crate::path_text::lemma_first_sep_bounds(rest@);
        }
        match crate::path_text::first_sep(rest.as_slice()) {
            None => {
                let ghost before = crate::text::seqs(out@);
                if rest.len() > 0 {
                    out.push(rest);
                    assert(crate::text::seqs(out@) =~= before + path_parts(rest@));
                } else {
                    assert(crate::text::seqs(out@) =~= before + path_parts(rest@));
                }
                return out;
            },
            Some(k) => {
                assert(k < rest.len());
                let head = slice_chars(rest.as_slice(), 0, k);
                let tail = slice_chars(rest.as_slice(), k + 1, rest.len());
                assert(head@ =~= rest@.take(k as int));
                assert(tail@ =~= rest@.skip(k + 1));
                let ghost before = crate::text::seqs(out@);
                if head.len() > 0 {
                    out.push(head);
                    assert(crate::text::seqs(out@) =~= before.push(rest@.take(k as int)));
                    assert(crate::text::seqs(out@) + path_parts(tail@) =~= before + path_parts(rest@));
                }
                rest = tail;
            },
        }
    }
}

pub fn components_exec(p: &[char]) -> (r: Vec<Vec<char>>)
    ensures
        crate::text::seqs(r@) == components(p@),
{
    let parts = path_parts_exec(p);
    let mut out: Vec<Vec<char>> = Vec::new();
    if p.len() > 0 && (p[0] == '/' || p[0] == '\\') {
        let mut root: Vec<char> = Vec::new();
        root.push('/');
        out.push(root);
    }
    let ghost start = crate::text::seqs(out@);
    let mut i: usize = 0;
    while i < parts.len()
        invariant
            i <= parts@.len(),
            crate::text::seqs(out@) == start + crate::text::seqs(parts@).take(i as int),
        decreases parts@.len() - i,
    {
        let ghost b = crate::text::seqs(out@);
        out.push(slice_chars(parts[i].as_slice(), 0, parts[i].len()));
        proof {
            assert(parts@[i as int]@.subrange(0, parts@[i as int]@.len() as int) =~= parts@[i as int]@);
            assert(crate::text::seqs(out@) =~= b.push(parts@[i as int]@));
            assert(crate::text::seqs(parts@).take(i + 1) =~= crate::text::seqs(parts@).take(i as int).push(parts@[i as int]@));
        }
        i = i + 1;
    }
    assert(crate::text::seqs(parts@).take(i as int) =~= crate::text::seqs(parts@));
    assert(crate::text::seqs(out@) =~= components(p@));
    out
}

/// Some folder between `root` and `file` carries one of `names` (compared
/// in lower case). Only the part below the root is inspected: an album that
/// happens to sit in a folder of that name still gets its files.
pub open spec fn spec_under_named_dir(root: Seq<char>, file: Seq<char>, names: Seq<String>) -> bool {
    let rc = components(root);
    let fc = components(file);
    &&& names.len() > 0
    &&& rc.len() <= fc.len()
    &&& fc.take(rc.len() as int) == rc
    &&& exists|j: int, k: int|
        rc.len() <= j < fc.len() - 1 && 0 <= k < names.len() && #[trigger] names[k]@
            == #[trigger] unicode_lower(fc[j])
}

pub fn is_under_named_dir(root: &str, file: &str, names: &Vec<String>) -> (r: bool)
    ensures
        r == spec_under_named_dir(root@, file@, names@),
{
    if names.len() == 0 {
        return false;
    }
    let rchars = chars_of(root);
    let fchars = chars_of(file);
    let rc = components_exec(rchars.as_slice());
    let fc = components_exec(fchars.as_slice());
    let ghost rcs = crate::text::seqs(rc@);
    let ghost fcs = crate::text::seqs(fc@);
    if rc.len() > fc.len() {
        return false;
    }
    let mut i: usize = 0;
    while i < rc.len()
        invariant
            i <= rc@.len(),
            rc@.len() <= fc@.len(),
            rcs == crate::text::seqs(rc@),
            fcs == crate::text::seqs(fc@),
            rcs == components(root@),
            fcs == components(file@),
            names@.len() > 0,
            forall|k: int| 0 <= k < i ==> #[trigger] rcs[k] == fcs[k],
        decreases rc@.len() - i,
    {
        if !chars_eq(rc[i].as_slice(), fc[i].as_slice()) {
            assert(rcs[i as int] == rc@[i as int]@);
            assert(fcs[i as int] == fc@[i as int]@);
            assert(fcs.take(rcs.len() as int)[i as int] != rcs[i as int]);
            return false;
        }
        i = i + 1;
    }
    assert(fcs.take(rcs.len() as int) =~= rcs);
    let mut j: usize = rc.len();
    while j < fc.len() && fc.len() - j > 1
        invariant
            rc@.len() <= j <= fc@.len(),
            rcs == crate::text::seqs(rc@),
            fcs == crate::text::seqs(fc@),
            rcs.len() <= fcs.len(),
            fcs.take(rcs.len() as int) == rcs,
            rcs == components(root@),
            fcs == components(file@),
            names@.len() > 0,
            forall|a: int, k: int|
                rcs.len() <= a < j && a < fcs.len() - 1 && 0 <= k < names@.len() ==> #[trigger] names@[k]@
                    != #[trigger] unicode_lower(fcs[a]),
        decreases fc@.len() - j,
    {
        let part = string_of(fc[j].as_slice());
        let lowered = to_lowercase(part.as_str());
        let mut k: usize = 0;
        while k < names.len()
            invariant
                k <= names@.len(),
                rcs.len() <= j < fcs.len() - 1,
                rcs.len() <= fcs.len(),
                fcs.take(rcs.len() as int) == rcs,
                rcs == components(root@),
                fcs == components(file@),
                names@.len() > 0,
                fcs == crate::text::seqs(fc@),
                lowered@ == unicode_lower(fcs[j as int]),
                forall|m: int| 0 <= m < k ==> #[trigger] names@[m]@ != lowered@,
            decreases names@.len() - k,
        {
            let a = chars_of(names[k].as_str());
            let b = chars_of(lowered.as_str());
            if chars_eq(a.as_slice(), b.as_slice()) {
                assert(names@[k as int]@ == unicode_lower(fcs[j as int]));
                return true;
            }
            k = k + 1;
        }
        j = j + 1;
    }
    false
}

pub open spec fn replace_confirmed(settings: BatchSettings) -> bool {
    match settings.output {
        OutputMode::ReplaceOriginal { confirmed, .. } => confirmed,
        _ => true,
    }
}

/// The checks made before anything else: something is selected, and a
/// destructive run carries the confirmation the dialog sets.
pub fn validate_batch_request(paths: &Vec<String>, settings: &BatchSettings) -> (r: Result<(), String>)
    ensures
        match r {
            Ok(()) => paths@.len() > 0 && replace_confirmed(*settings),
            Err(e) => if paths@.len() == 0 {
                e@ == "Select at least one photo or video."@
            } else {
                !replace_confirmed(*settings)
                    && e@ == "Replacing originals was not confirmed — open the confirmation dialog first."@
            },
        },
{
    if paths.len() == 0 {
        return Err(String::from_str("Select at least one photo or video."));
    }
    if let OutputMode::ReplaceOriginal { confirmed, .. } = &settings.output {
        if !*confirmed {
            return Err(
                String::from_str(
                    "Replacing originals was not confirmed — open the confirmation dialog first.",
                ),
            );
        }
    }
    Ok(())
}

pub open spec fn has_video(paths: Seq<String>) -> bool {
    exists|i: int| 0 <= i < paths.len() && #[trigger] spec_classify(paths[i]@) == Some(BatchMediaType::Video)
}

pub fn contains_video(paths: &Vec<String>) -> (r: bool)
    ensures
        r == has_video(paths@),
{
    let mut i: usize = 0;
    while i < paths.len()
        invariant
            i <= paths@.len(),
            forall|k: int| 0 <= k < i ==> #[trigger] spec_classify(paths@[k]@) != Some(BatchMediaType::Video),
        decreases paths@.len() - i,
    {
        match classify_path(paths[i].as_str()) {
            Some(BatchMediaType::Video) => {
                assert(spec_classify(paths@[i as int]@) == Some(BatchMediaType::Video));
                return true;
            },
            _ => {},
        }
        i = i + 1;
    }
    false
}

/// The checks that need the capabilities of the FFmpeg found: it can read
/// the HEIC files selected, AVIF metadata is not asked of it, and the video
/// settings have an encoder. The first that fails gives the error.
pub open spec fn spec_capability_error(
    paths: Seq<String>,
    settings: BatchSettings,
    capabilities: FfmpegCapabilities,
) -> Option<Seq<char>> {
    let heic = exists|i: int| 0 <= i < paths.len() && #[trigger] heic_path(paths[i]@);
    if heic && !capabilities.heic_decode {
        Some(
            "This FFmpeg build cannot read HEIC/HEIF. Install a full FFmpeg build before converting those files."@,
        )
    } else if spec_requests_unavailable_avif_metadata(paths, settings) {
        Some(
            "AVIF metadata preservation is unavailable. Disable metadata preservation or choose another image format."@,
        )
    } else if has_video(paths) && settings.video.codec != VideoCodec::Copy {
        match spec_resolved_backend(settings.video, capabilities.video_backends@) {
            Ok(_) => None,
            Err(e) => Some(e),
        }
    } else {
        None
    }
}

pub fn validate_capabilities(
    paths: &Vec<String>,
    settings: &BatchSettings,
    capabilities: &FfmpegCapabilities,
) -> (r: Result<(), String>)
    ensures
        match r {
            Ok(()) => spec_capability_error(paths@, *settings, *capabilities) is None,
            Err(e) => spec_capability_error(paths@, *settings, *capabilities) == Some(e@),
        },
{
    if contains_heic(paths) && !capabilities.heic_decode {
        return Err(
            String::from_str(
                "This FFmpeg build cannot read HEIC/HEIF. Install a full FFmpeg build before converting those files.",
            ),
        );
    }
    if requests_unavailable_avif_metadata(paths, settings) {
        return Err(
            String::from_str(
                "AVIF metadata preservation is unavailable. Disable metadata preservation or choose another image format.",
            ),
        );
    }
    if contains_video(paths) {
        match resolve_video_encoding(&settings.video, &capabilities.video_backends) {
            Ok(_) => {},
            Err(e) => {
                return Err(e);
            },
        }
    }
    Ok(())
}

/// A new job may start only when no job runs and the previous result has
/// been finalized.
pub open spec fn spec_active_job_error(active: Option<BatchJobStatus>) -> Option<Seq<char>> {
    match active {
        None => None,
        Some(job) => if job.running {
            Some("A batch job is already running."@)
        } else if !job.finalized {
            Some("Finish the previous batch result before starting another job."@)
        } else {
            None
        },
    }
}

pub open spec fn deref_job(active: Option<&BatchJobStatus>) -> Option<BatchJobStatus> {
    match active {
        Some(j) => Some(*j),
        None => None,
    }
}

pub fn check_no_active_job(active: Option<&BatchJobStatus>) -> (r: Result<(), String>)
    ensures
        match r {
            Ok(()) => spec_active_job_error(deref_job(active)) is None,
            Err(e) => spec_active_job_error(deref_job(active)) == Some(e@),
        },
{
    if let Some(job) = active {
        if job.running {
            return Err(String::from_str("A batch job is already running."));
        }
        if !job.finalized {
            return Err(String::from_str("Finish the previous batch result before starting another job."));
        }
    }
    Ok(())
}

/// The first planned item with work.
pub open spec fn first_work(plans: Seq<PlannedItem>) -> Option<int>
    decreases plans.len(),
{
    if plans.len() == 0 {
        None
    } else if plans[0].plan is Some {
        Some(0)
    } else {
        match first_work(plans.drop_first()) {
            Some(i) => Some(i + 1),
            None => None,
        }
    }
}

/// The folder the job writes into: the parent of the first planned output.
pub open spec fn spec_job_output_dir(plans: Seq<PlannedItem>) -> Option<Seq<char>> {
    match first_work(plans) {
        Some(i) => parent(plans[i].plan.unwrap().final_output@),
        None => None,
    }
}

pub fn job_output_dir(plans: &Vec<PlannedItem>) -> (r: Option<String>)
    ensures
        opt_string_view(r) == spec_job_output_dir(plans@),
{
    let mut i: usize = 0;
    assert(plans@.skip(0) =~= plans@);
    while i < plans.len()
        invariant
            i <= plans@.len(),
            first_work(plans@) == match first_work(plans@.skip(i as int)) {
                Some(k) => Some(k + i),
                None => None,
            },
        decreases plans@.len() - i,
    {
        proof {
            assert(plans@.skip(i as int).drop_first() =~= plans@.skip(i + 1));
            assert(plans@.skip(i as int)[0] == plans@[i as int]);
        }
        if let Some(plan) = &plans[i].plan {
            let f = chars_of(plan.final_output.as_str());
            return match parent_chars(f.as_slice()) {
                Some(d) => Some(string_of(d.as_slice())),
                None => None,
            };
        }
        i = i + 1;
    }
    assert(plans@.skip(i as int) =~= Seq::<PlannedItem>::empty());
    None
}

/// The in-place replacements to register for undo when a finished job is
/// applied: none once it was applied before; an error while it still runs.
pub fn replacements_to_apply(job: &BatchJobStatus) -> (r: Result<Vec<(String, String, String)>, String>)
    ensures
        match r {
            Ok(v) => !job.running && (if job.finalized {
                v@.len() == 0
            } else {
                v@.len() == job.replacements@.len() && forall|i: int|
                    0 <= i < v@.len() ==> (#[trigger] v@[i]).0 == job.replacements@[i].backup_path
                        && v@[i].1 == job.replacements@[i].original_path && v@[i].2
                        == job.replacements@[i].converted_path
            }),
            Err(e) => job.running && e@ == "The batch job is still running."@,
        },
{
    if job.running {
        return Err(String::from_str("The batch job is still running."));
    }
    let mut out: Vec<(String, String, String)> = Vec::new();
    if job.finalized {
        return Ok(out);
    }
    let mut i: usize = 0;
    while i < job.replacements.len()
        invariant
            i <= job.replacements@.len(),
            out@.len() == i,
            forall|k: int|
                0 <= k < i ==> (#[trigger] out@[k]).0 == job.replacements@[k].backup_path
                    && out@[k].1 == job.replacements@[k].original_path && out@[k].2
                    == job.replacements@[k].converted_path,
        decreases job.replacements@.len() - i,
    {
        let r = &job.replacements[i];
        out.push((r.backup_path.clone(), r.original_path.clone(), r.converted_path.clone()));
        i = i + 1;
    }
    Ok(out)
}

/// What startup does with a saved checkpoint.
#[derive(Debug, Clone, Copy, PartialEq, Eq, Structural)]
pub enum ResumeAction {
    /// The job was applied already: the checkpoint is removed.
    Clear,
    /// The job had finished: it is registered so the UI can finalize it.
    Register,
    /// The process ended mid-job: its pending files run again.
    Restart,
}

pub fn resume_action(job: &BatchJobStatus) -> (r: ResumeAction)
    ensures
        r == if job.finalized {
            ResumeAction::Clear
        } else if !job.running {
            ResumeAction::Register
        } else {
            ResumeAction::Restart
        },
{
    if job.finalized {
        ResumeAction::Clear
    } else if !job.running {
        ResumeAction::Register
    } else {
        ResumeAction::Restart
    }
}

/// An interrupted job that cannot run again (no FFmpeg): its pending files
/// fail with the reason, and the job ends.
pub fn fail_unresumable(job: &mut BatchJobStatus, error: &str)
    ensures
        !final(job).running,
        final(job).finished_at is Some,
        final(job).items@.len() == old(job).items@.len(),
        forall|i: int|
            0 <= i < old(job).items@.len() ==> {
                let before = old(job).items@[i];
                let after = #[trigger] final(job).items@[i];
                if before.state == BatchItemState::Pending {
                    after.error matches Some(e) && e@ == "Could not resume after restart: "@ + error@
                        && after == BatchItemStatus {
                        state: BatchItemState::Failed,
                        error: after.error,
                        ..before
                    }
                } else {
                    after == before
                }
            },
        final(job).failed == count_state(final(job).items@, BatchItemState::Failed),
        final(job).job_id == old(job).job_id,
        final(job).cancelled == old(job).cancelled,
        final(job).total == old(job).total,
        final(job).done == old(job).done,
        final(job).skipped == old(job).skipped,
        final(job).bytes_before == old(job).bytes_before,
        final(job).bytes_after == old(job).bytes_after,
        final(job).started_at == old(job).started_at,
        final(job).output_dir == old(job).output_dir,
        final(job).replaces_originals == old(job).replaces_originals,
        final(job).replacements == old(job).replacements,
        final(job).finalized == old(job).finalized,
{
    let mut msg = chars_of("Could not resume after restart: ");
    push_str(&mut msg, error);
    let message = string_of(msg.as_slice());
    let ghost items0 = job.items@;
    let mut failed: usize = 0;
    let mut i: usize = 0;
    while i < job.items.len()
        invariant
            i <= job.items@.len(),
            job.items@.len() == items0.len(),
            items0 == old(job).items@,
            message@ == "Could not resume after restart: "@ + error@,
            failed == count_state(job.items@.take(i as int), BatchItemState::Failed),
            forall|k: int|
                0 <= k < i ==> {
                    let before = items0[k];
                    let after = #[trigger] job.items@[k];
                    if before.state == BatchItemState::Pending {
                        after.error matches Some(e) && e@ == "Could not resume after restart: "@
                            + error@ && after == BatchItemStatus {
                            state: BatchItemState::Failed,
                            error: after.error,
                            ..before
                        }
                    } else {
                        after == before
                    }
                },
            forall|k: int| i <= k < items0.len() ==> #[trigger] job.items@[k] == items0[k],
            job.job_id == old(job).job_id,
            job.running == old(job).running,
            job.cancelled == old(job).cancelled,
            job.total == old(job).total,
            job.done == old(job).done,
            job.skipped == old(job).skipped,
            job.bytes_before == old(job).bytes_before,
            job.bytes_after == old(job).bytes_after,
            job.started_at == old(job).started_at,
            job.finished_at == old(job).finished_at,
            job.output_dir == old(job).output_dir,
            job.replaces_originals == old(job).replaces_originals,
            job.replacements == old(job).replacements,
            job.finalized == old(job).finalized,
        decreases items0.len() - i,
    {
        let ghost prev = job.items@;
        if job.items[i].state == BatchItemState::Pending {
            let mut item = job.items[i].duplicate();
            item.state = BatchItemState::Failed;
            item.error = Some(message.clone());
            job.items.set(i, item);
        }
        proof {
            assert(job.items@.take(i + 1).drop_last() =~= job.items@.take(i as int));
            assert(job.items@.take(i as int) =~= prev.take(i as int));
            crate::batch::runner::lemma_count_bound(job.items@.take(i as int), BatchItemState::Failed);
        }
        if job.items[i].state == BatchItemState::Failed {
            failed = failed + 1;
        }
        i = i + 1;
    }
    assert(job.items@.take(i as int) =~= job.items@);
    job.running = false;
    job.failed = failed;
    job.finished_at = Some(now_rfc3339());
}

/// What the UI needs to talk about updates without hardcoding a repository.
#[derive(Debug, Clone)]
pub struct UpdateContext {
    pub current_version: String,
    /// True when this build was signed and given an update endpoint.
    pub updater_configured: bool,
    /// Releases page of whichever repository published this build.
    pub releases_url: Option<String>,
    /// Repository this build came from, for the "view on GitHub" link.
    pub repository_url: Option<String>,
}

/// `url` without a trailing `/releases`, if it has one.
pub open spec fn strip_releases(url: Seq<char>) -> Option<Seq<char>> {
    if crate::text::ends_with(url, "/releases"@) {
        Some(url.take(url.len() - 9))
    } else {
        None
    }
}

/// The update context of a build: its version, the updater endpoint it was
/// given (if any), and the repository recorded when it was built.
pub fn update_context(
    current_version: String,
    endpoint: Option<String>,
    built_repository: Option<String>,
) -> (r: UpdateContext)
    ensures
        r.current_version == current_version,
        r.updater_configured == endpoint is Some,
        match endpoint {
            Some(e) => match r.releases_url {
                Some(u) => exists|i: int|
                    occurs_at(e@, "/releases/"@, i) && (forall|j: int|
                        0 <= j < i ==> !occurs_at(e@, "/releases/"@, j)) && u@ == e@.take(i)
                        + "/releases"@,
                None => !contains_text(e@, "/releases/"@),
            },
            None => r.releases_url is None,
        },
        opt_string_view(r.repository_url) == match r.releases_url {
            Some(u) => match strip_releases(u@) {
                Some(repo) => Some(repo),
                None => opt_string_view(built_repository),
            },
            None => opt_string_view(built_repository),
        },
{
    let updater_configured = endpoint.is_some();
    let releases_url = match &endpoint {
        Some(e) => releases_url_from_endpoint(e.as_str()),
        None => None,
    };
    let stripped = match &releases_url {
        Some(u) => {
            let c = chars_of(u.as_str());
            let suffix = chars_of("/releases");
            proof {
                reveal_strlit("/releases");
            }
            if crate::text::ends_with_chars(c.as_slice(), suffix.as_slice()) {
                let t = slice_chars(c.as_slice(), 0, c.len() - 9);
                Some(string_of(t.as_slice()))
            } else {
                None
            }
        },
        None => None,
    };
    let repository_url = match stripped {
        Some(s) => Some(s),
        None => built_repository,
    };
    UpdateContext { current_version, updater_configured, releases_url, repository_url }
}

/// The entries of `dirs` that hold more than white space, in order.
pub open spec fn nonblank(dirs: Seq<String>) -> Seq<String>
    decreases dirs.len(),
{
    if dirs.len() == 0 {
        Seq::empty()
    } else if trim(dirs.last()@).len() > 0 {
        nonblank(dirs.drop_last()).push(dirs.last())
    } else {
        nonblank(dirs.drop_last())
    }
}

/// The folders excluded by path: those given, without blank entries.
pub fn excluded_dirs(dirs: &Vec<String>) -> (r: Vec<String>)
    ensures
        r@ == nonblank(dirs@),
{
    let mut out: Vec<String> = Vec::new();
    let mut i: usize = 0;
    while i < dirs.len()
        invariant
            i <= dirs@.len(),
            out@ == nonblank(dirs@.take(i as int)),
        decreases dirs@.len() - i,
    {
        proof {
            assert(dirs@.take(i + 1).drop_last() =~= dirs@.take(i as int));
        }
        let c = chars_of(dirs[i].as_str());
        let t = trimmed(c.as_slice());
        if t.len() > 0 {
            out.push(dirs[i].clone());
        }
        i = i + 1;
    }
    assert(dirs@.take(i as int) =~= dirs@);
    out
}

/// Each name trimmed and in lower case, empty ones left out, in order.
pub open spec fn lowered_names(names: Seq<Seq<char>>) -> Seq<Seq<char>>
    decreases names.len(),
{
    if names.len() == 0 {
        Seq::empty()
    } else {
        let l = unicode_lower(trim(names.last()));
        if l.len() > 0 {
            lowered_names(names.drop_last()).push(l)
        } else {
            lowered_names(names.drop_last())
        }
    }
}

/// The folder names excluded at any depth: trimmed, in lower case,
/// without empty ones.
pub fn excluded_dir_names(names: &Vec<String>) -> (r: Vec<String>)
    ensures
        crate::text::views(r@) == lowered_names(crate::text::views(names@)),
{
    let mut out: Vec<String> = Vec::new();
    let mut i: usize = 0;
    let ghost nv = crate::text::views(names@);
    assert(crate::text::views(out@) =~= Seq::<Seq<char>>::empty());
    while i < names.len()
        invariant
            i <= names@.len(),
            nv == crate::text::views(names@),
            crate::text::views(out@) == lowered_names(nv.take(i as int)),
        decreases names@.len() - i,
    {
        proof {
            assert(nv.take(i + 1).drop_last() =~= nv.take(i as int));
        }
        let c = chars_of(names[i].as_str());
        let t = trimmed(c.as_slice());
        let ts = string_of(t.as_slice());
        let lowered = to_lowercase(ts.as_str());
        let lc = chars_of(lowered.as_str());
        if lc.len() > 0 {
            let ghost before = out@;
            out.push(lowered);
            assert(crate::text::views(out@) =~= crate::text::views(before).push(lowered@));
        }
        i = i + 1;
    }
    assert(nv.take(i as int) =~= nv);
    out
}

/// A scanned item stays unless one of its files lies in an excluded folder
/// or below a folder with an excluded name.
pub open spec fn spec_keeps_item(
    files: Seq<String>,
    root: Seq<char>,
    excluded: Seq<String>,
    names: Seq<String>,
) -> bool {
    forall|i: int|
        0 <= i < files.len() ==> !(exists|d: int|
            0 <= d < excluded.len() && inside_root(excluded[d]@, #[trigger] files[i]@))
            && !spec_under_named_dir(root, files[i]@, names)
}

pub fn keeps_scanned_item(
    files: &Vec<String>,
    root: &str,
    excluded: &Vec<String>,
    names: &Vec<String>,
) -> (r: bool)
    ensures
        r == spec_keeps_item(files@, root@, excluded@, names@),
{
    let mut i: usize = 0;
    while i < files.len()
        invariant
            i <= files@.len(),
            forall|k: int|
                0 <= k < i ==> !(exists|d: int|
                    0 <= d < excluded@.len() && inside_root(excluded@[d]@, #[trigger] files@[k]@))
                    && !spec_under_named_dir(root@, files@[k]@, names@),
        decreases files@.len() - i,
    {
        let f = chars_of(files[i].as_str());
        let mut d: usize = 0;
        while d < excluded.len()
            invariant
                d <= excluded@.len(),
                f@ == files@[i as int]@,
                i < files@.len(),
                forall|m: int| 0 <= m < d ==> !inside_root(excluded@[m]@, f@),
            decreases excluded@.len() - d,
        {
            let dc = chars_of(excluded[d].as_str());
            if inside_root_chars(dc.as_slice(), f.as_slice()) {
                assert(inside_root(excluded@[d as int]@, files@[i as int]@));
                return false;
            }
            d = d + 1;
        }
        if is_under_named_dir(root, files[i].as_str(), names) {
            return false;
        }
        i = i + 1;
    }
    true
}

} // verus!

verus! {

/// The statuses of the planned items, in order.
pub fn statuses_of(plans: &Vec<PlannedItem>) -> (r: Vec<BatchItemStatus>)
    ensures
        r@.len() == plans@.len(),
        forall|i: int| 0 <= i < plans@.len() ==> #[trigger] r@[i] == plans@[i].status,
{
    let mut out: Vec<BatchItemStatus> = Vec::new();
    let mut i: usize = 0;
    while i < plans.len()
        invariant
            i <= plans@.len(),
            out@.len() == i,
            forall|k: int| 0 <= k < i ==> #[trigger] out@[k] == plans@[k].status,
        decreases plans@.len() - i,
    {
        out.push(plans[i].status.duplicate());
        i = i + 1;
    }
    out
}

/// Starting a batch once FFmpeg has been found: the checks that need its
/// capabilities and the runner's active job (`active`), then the plans of
/// every path and the new job `job_id` over their statuses. The request
/// itself was checked before FFmpeg was looked for.
pub fn prepare_batch_job<
    FI: Fn(&str) -> bool,
    FS: Fn(&str) -> u64,
    FE: Fn(&str) -> bool,
    FC: Fn(&str) -> Result<(), String>,
>(
    paths: &Vec<String>,
    settings: &BatchSettings,
    capabilities: &FfmpegCapabilities,
    active: Option<&BatchJobStatus>,
    job_id: String,
    is_file: &FI,
    file_size: &FS,
    present: &FE,
    create_dir: &FC,
) -> (r: Result<(BatchJobStatus, Vec<PlannedItem>), String>)
    requires
        forall|x: &str| #[trigger] call_requires(*is_file, (x,)),
        forall|x: &str| #[trigger] call_requires(*file_size, (x,)),
        forall|x: &str| #[trigger] call_requires(*present, (x,)),
        forall|x: &str| #[trigger] call_requires(*create_dir, (x,)),
    ensures
        ({
            let refused = match spec_capability_error(paths@, *settings, *capabilities) {
                Some(e) => Some(e),
                None => spec_active_job_error(deref_job(active)),
            };
            match r {
                Err(e) => refused == Some(e@),
                Ok((job, plans)) => {
                    &&& refused is None
                    &&& plans@.len() == paths@.len()
                    &&& forall|i: int|
                        0 <= i < paths@.len() ==> planned_item_ok(
                            #[trigger] plans@[i],
                            paths@[i]@,
                            i as nat,
                            *settings,
                            capabilities.video_backends@,
                            reserved_of(plans@.take(i)),
                            *is_file,
                            *file_size,
                            *present,
                            *create_dir,
                        )
                    &&& job.job_id == job_id
                    &&& job.running && !job.cancelled && !job.finalized
                    &&& job.total == paths@.len()
                    &&& job.done == 0 && job.failed == 0 && job.skipped == 0
                    &&& job.items@.len() == plans@.len()
                    &&& forall|i: int| 0 <= i < plans@.len() ==> #[trigger] job.items@[i] == plans@[i].status
                    &&& opt_string_view(job.output_dir) == spec_job_output_dir(plans@)
                    &&& job.replaces_originals == (settings.output is ReplaceOriginal)
                    &&& job.replacements@.len() == 0
                },
            }
        }),
{
    validate_capabilities(paths, settings, capabilities)?;
    check_no_active_job(active)?;
    let plans = plan_items_with_capabilities(
        paths,
        settings,
        &capabilities.video_backends,
        is_file,
        file_size,
        present,
        create_dir,
    );
    let statuses = statuses_of(&plans);
    let output_dir = job_output_dir(&plans);
    let replaces = match &settings.output {
        OutputMode::ReplaceOriginal { .. } => true,
        _ => false,
    };
    let job = new_job_status(job_id, statuses, output_dir, replaces);
    Ok((job, plans))
}

} // verus!
