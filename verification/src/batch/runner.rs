//! Batch job runner: the plan of every file, the decisions taken while a job
//! runs, and the registry of jobs.
//!
//! Encoding a folder takes minutes. The work itself (ffmpeg, the file system,
//! threads) happens outside; this module decides what to do with each file
//! and keeps the job's counters consistent with its items.
use vstd::prelude::*;
use crate::text::{
    chars_of, decimal, decimal_chars, decimal_chars_wide, lines_of, push_all, push_str, seqs, slice_chars, spec_lines,
    string_of, trim, trimmed,
};
use crate::path_text::{
    extension, extension_chars, file_name, file_name_chars, file_stem, file_stem_chars, join,
    join_chars, parent, parent_chars,
};
use crate::clock::{local_stamp, now_rfc3339};
use super::video_backend::{
    VideoEncodeAttempt, backend_label, spec_backend_label, next_attempt_in, duplicate_attempts,
    same_attempts,
    spec_next_attempt_in, lemma_next_attempt_fresh, CANCELLED,
};
use std::collections::HashSet;
use crate::video::{BinaryCache, FfmpegTools, ToolEnvironment, capabilities_match, first_that_runs, spec_binary_candidates};
use super::{
    BatchItemState, BatchItemStatus, BatchJobStatus, BatchMediaType, BatchReplacement,
    BatchSettings, VideoBackend,
};

verus! {

/// Name of the hidden folder the app keeps beside the user's media.
pub const APP_FOLDER_NAME: &'static str = ".quick-media-organizer";

/// One unit of work, fully resolved before any worker starts, so two workers
/// can never race for the same output name.
#[derive(Debug, Clone)]
pub struct EncodePlan {
    pub input: String,
    pub temp_output: String,
    pub final_output: String,
    /// Ordered attempts. Video plans may move from hardware to software and
    /// from copied audio to AAC according to the classified FFmpeg error.
    pub attempts: Vec<VideoEncodeAttempt>,
    pub resolved_backend: Option<VideoBackend>,
    pub media_type: BatchMediaType,
    pub replace_original: bool,
    pub backup: bool,
    /// A different file already occupying `final_output`. Overwrite is allowed
    /// only after this file has its own backup and rollback path.
    pub overwritten_target: Option<String>,
}

#[derive(Debug, Clone)]
pub struct PlannedItem {
    pub status: BatchItemStatus,
    pub plan: Option<EncodePlan>,
}

/// Outcome of planning one file: real work, or a reason to leave it alone.
#[derive(Debug, Clone)]
pub enum PlanOutcome {
    Work(EncodePlan),
    Skip(String),
}

pub open spec fn forbidden_folder_char(c: char) -> bool {
    c == '/' || c == '\\' || c == ':' || c == '*' || c == '?' || c == '"' || c == '<' || c == '>'
        || c == '|'
}

/// `s` without the characters a folder name cannot hold.
pub open spec fn without_forbidden(s: Seq<char>) -> Seq<char>
    decreases s.len(),
{
    if s.len() == 0 {
        s
    } else if forbidden_folder_char(s.last()) {
        without_forbidden(s.drop_last())
    } else {
        without_forbidden(s.drop_last()).push(s.last())
    }
}

pub open spec fn spec_sanitize_folder_name(name: Seq<char>) -> Seq<char> {
    let cleaned = without_forbidden(trim(name));
    if cleaned.len() == 0 {
        "_optimized"@
    } else {
        cleaned
    }
}

/// The subfolder name as typed, trimmed and without characters that are
/// not allowed in folder names; `_optimized` when nothing is left.
pub fn sanitize_folder_name(name: &str) -> (r: String)
    ensures
        r@ == spec_sanitize_folder_name(name@),
{
    let n = chars_of(name);
    let t = trimmed(n.as_slice());
    let mut out: Vec<char> = Vec::new();
    let mut i: usize = 0;
    while i < t.len()
        invariant
            i <= t@.len(),
            out@ == without_forbidden(t@.take(i as int)),
        decreases t@.len() - i,
    {
        let c = t[i];
        proof {
            assert(t@.take(i + 1).drop_last() =~= t@.take(i as int));
        }
        if !(c == '/' || c == '\\' || c == ':' || c == '*' || c == '?' || c == '"' || c == '<'
            || c == '>' || c == '|') {
            out.push(c);
        }
        i = i + 1;
    }
    assert(t@.take(i as int) =~= t@);
    if out.len() == 0 {
        String::from_str("_optimized")
    } else {
        string_of(out.as_slice())
    }
}

/// The first line that holds more than white space.
pub open spec fn first_nonblank(lines: Seq<Seq<char>>) -> Option<Seq<char>>
    decreases lines.len(),
{
    if lines.len() == 0 {
        None
    } else if trim(lines[0]).len() > 0 {
        Some(lines[0])
    } else {
        first_nonblank(lines.drop_first())
    }
}

/// The first meaningful line of an error, trimmed and cut to 240 characters.
pub open spec fn spec_concise_error(error: Seq<char>) -> Seq<char> {
    let line = match first_nonblank(spec_lines(error)) {
        Some(l) => l,
        None => error,
    };
    let t = trim(line);
    if t.len() > 240 {
        t.take(240)
    } else {
        t
    }
}

pub fn concise_error(error: &str) -> (r: String)
    ensures
        r@ == spec_concise_error(error@),
{
    let e = chars_of(error);
    let lines = lines_of(e.as_slice());
    let ghost ls = spec_lines(error@);
    let mut i: usize = 0;
    let mut line = e.clone();
    assert(ls.subrange(0, ls.len() as int) =~= ls);
    let mut found = false;
    while i < lines.len() && !found
        invariant
            i <= lines@.len(),
            seqs(lines@) == ls,
            ls == spec_lines(error@),
            e@ == error@,
            !found ==> first_nonblank(ls) == first_nonblank(ls.subrange(i as int, ls.len() as int)),
            !found ==> line@ == error@,
            found ==> first_nonblank(ls) == Some(line@),
        decreases lines@.len() - i,
    {
        proof {
            let rest = ls.subrange(i as int, ls.len() as int);
            assert(rest[0] == lines@[i as int]@);
            assert(rest.drop_first() =~= ls.subrange(i + 1, ls.len() as int));
        }
        let t = trimmed(lines[i].as_slice());
        if t.len() > 0 {
            line = lines[i].clone();
            assert(line@ == lines@[i as int]@);
            found = true;
        }
        i = i + 1;
    }
    if !found {
        assert(ls.subrange(i as int, ls.len() as int) =~= Seq::<Seq<char>>::empty());
    }
    let t = trimmed(line.as_slice());
    if t.len() > 240 {
        let cut = slice_chars(t.as_slice(), 0, 240);
        assert(cut@ =~= t@.take(240));
        string_of(cut.as_slice())
    } else {
        string_of(t.as_slice())
    }
}

} // verus!

verus! {

/// `m / d` rounded to the nearest whole number, ties to the even one (the
/// way `{:.0}` prints a number).
pub open spec fn round_half_even(m: nat, d: nat) -> nat
    recommends
        d > 0,
{
    let q = m / d;
    let r = m % d;
    if 2 * r > d || (2 * r == d && q % 2 == 1) {
        q + 1
    } else {
        q
    }
}

/// The saving `100 - after * 100 / before`, as whole percent with its sign.
pub open spec fn saved_pct_text(before: nat, after: nat) -> Seq<char> {
    let n = 100 * (before - after);
    if n < 0 {
        seq!['-'] + decimal(round_half_even((-n) as nat, before))
    } else {
        decimal(round_half_even(n as nat, before))
    }
}

/// Why a converted file is not worth keeping, or `None` when it is. An
/// empty original is never judged; a result that is not smaller is refused
/// when `skip_larger`; one that saves less than `min_pct` percent is refused.
pub open spec fn spec_savings_rejection(
    before: u64,
    after: u64,
    skip_larger: bool,
    min_pct: Option<u8>,
) -> Option<Seq<char>> {
    if before == 0 {
        None
    } else if skip_larger && after >= before {
        Some("Converted file was not smaller — original kept."@)
    } else {
        match min_pct {
            Some(p) => if 100 * (before - after) < p * before {
                Some(
                    "Only "@ + saved_pct_text(before as nat, after as nat) + "% smaller (below the "@
                        + decimal(p as nat) + "% threshold) — original kept."@,
                )
            } else {
                None
            },
            None => None,
        }
    }
}

pub open spec fn opt_string_view(o: Option<String>) -> Option<Seq<char>> {
    match o {
        Some(s) => Some(s@),
        None => None,
    }
}

fn rounded_quotient(m: u128, d: u128) -> (r: u128)
    requires
        d > 0,
        m <= 100 * 0xffff_ffff_ffff_ffff,
    ensures
        r == round_half_even(m as nat, d as nat),
{
    let q = m / d;
    let rem = m % d;
    if rem > d - rem || (rem == d - rem && q % 2 == 1) {
        q + 1
    } else {
        q
    }
}

pub fn savings_rejection(size_before: u64, size_after: u64, settings: &BatchSettings) -> (r: Option<
    String,
>)
    ensures
        opt_string_view(r) == spec_savings_rejection(
            size_before,
            size_after,
            settings.skip_if_larger,
            settings.skip_if_savings_below_pct,
        ),
{
    if size_before == 0 {
        return None;
    }
    if settings.skip_if_larger && size_after >= size_before {
        return Some(String::from_str("Converted file was not smaller — original kept."));
    }
    if let Some(min_pct) = settings.skip_if_savings_below_pct {
        let before = size_before as u128;
        let after = size_after as u128;
        assert((min_pct as u128) * before <= 255 * 0xffff_ffff_ffff_ffffu128) by (nonlinear_arith)
            requires
                min_pct <= 255,
                before <= 0xffff_ffff_ffff_ffffu128,
        ;
        let threshold = (min_pct as u128) * before;
        let below = if after <= before {
            100 * (before - after) < threshold
        } else {
            true
        };
        if below {
            let mut text = chars_of("Only ");
            if after > before {
                text.push('-');
                let k = rounded_quotient(100 * (after - before), before);
                let d = decimal_chars_wide(k);
                push_all(&mut text, d.as_slice());
            } else {
                let k = rounded_quotient(100 * (before - after), before);
                let d = decimal_chars_wide(k);
                push_all(&mut text, d.as_slice());
            }
            push_str(&mut text, "% smaller (below the ");
            let p = decimal_chars(min_pct as u64);
            push_all(&mut text, p.as_slice());
            push_str(&mut text, "% threshold) — original kept.");
            assert(text@ =~= "Only "@ + saved_pct_text(size_before as nat, size_after as nat)
                + "% smaller (below the "@ + decimal(min_pct as nat)
                + "% threshold) — original kept."@);
            return Some(string_of(text.as_slice()));
        }
    }
    None
}

/// What the item reports when an attempt failed and another one runs.
pub open spec fn spec_fallback_reason(
    from: VideoBackend,
    to: VideoBackend,
    error: Seq<char>,
) -> Seq<char> {
    spec_backend_label(from) + " failed; retried with "@ + spec_backend_label(to) + ": "@
        + spec_concise_error(error)
}

pub fn fallback_reason(from: VideoBackend, to: VideoBackend, error: &str) -> (r: String)
    ensures
        r@ == spec_fallback_reason(from, to, error@),
{
    let mut text = chars_of(backend_label(from));
    push_str(&mut text, " failed; retried with ");
    push_str(&mut text, backend_label(to));
    push_str(&mut text, ": ");
    let c = concise_error(error);
    push_str(&mut text, c.as_str());
    assert(text@ =~= spec_fallback_reason(from, to, error@));
    string_of(text.as_slice())
}

pub open spec fn dir_or_dot(p: Seq<char>) -> Seq<char> {
    match parent(p) {
        Some(d) => d,
        None => "."@,
    }
}

/// Where the original of `source` is copied before it is replaced:
/// `<folder>/.quick-media-organizer/batch-backups/<stem>_<stamp>.<ext>`.
pub open spec fn spec_backup_path(source: Seq<char>, stamp: Seq<char>) -> Seq<char> {
    let dir = join(join(dir_or_dot(source), APP_FOLDER_NAME@), "batch-backups"@);
    let stem = if file_name(source).len() == 0 {
        "media"@
    } else {
        file_stem(source)
    };
    let ext = match extension(source) {
        Some(e) => e,
        None => "bin"@,
    };
    join(dir, stem + seq!['_'] + stamp + seq!['.'] + ext)
}

/// Hidden sibling that holds the original while its replacement is put in
/// place: `<folder>/.qmo-replacing-<stamp>-<name>`. Same folder, so the move
/// is a rename and cannot half-succeed.
pub open spec fn spec_displaced_path(source: Seq<char>, stamp: Seq<char>) -> Seq<char> {
    let name = if file_name(source).len() == 0 {
        "media"@
    } else {
        file_name(source)
    };
    join(dir_or_dot(source), ".qmo-replacing-"@ + stamp + seq!['-'] + name)
}

fn dir_or_dot_chars(p: &[char]) -> (r: Vec<char>)
    ensures
        r@ == dir_or_dot(p@),
{
    match parent_chars(p) {
        Some(d) => d,
        None => chars_of("."),
    }
}

/// The backup name of `source` for the time `stamp`.
pub fn backup_path_at(source: &str, stamp: &str) -> (r: String)
    ensures
        r@ == spec_backup_path(source@, stamp@),
{
    let src = chars_of(source);
    let base = dir_or_dot_chars(src.as_slice());
    let app = chars_of(APP_FOLDER_NAME);
    let d1 = join_chars(base.as_slice(), app.as_slice());
    let bb = chars_of("batch-backups");
    let dir = join_chars(d1.as_slice(), bb.as_slice());
    let name = file_name_chars(src.as_slice());
    let mut leaf = if name.len() == 0 {
        chars_of("media")
    } else {
        file_stem_chars(src.as_slice())
    };
    leaf.push('_');
    push_str(&mut leaf, stamp);
    leaf.push('.');
    match extension_chars(src.as_slice()) {
        Some(e) => push_all(&mut leaf, e.as_slice()),
        None => push_str(&mut leaf, "bin"),
    }
    let out = join_chars(dir.as_slice(), leaf.as_slice());
    proof {
        let stem = if file_name(source@).len() == 0 {
            "media"@
        } else {
            file_stem(source@)
        };
        let ext = match extension(source@) {
            Some(e) => e,
            None => "bin"@,
        };
        assert(leaf@ =~= stem + seq!['_'] + stamp@ + seq!['.'] + ext);
    }
    string_of(out.as_slice())
}

/// The backup name of `source`, stamped with the local time.
pub fn backup_path_for(source: &str) -> (r: String)
    ensures
        exists|stamp: Seq<char>| r@ == spec_backup_path(source@, stamp),
{
    let stamp = local_stamp("%Y%m%d_%H%M%S_%f");
    backup_path_at(source, stamp.as_str())
}

/// The displaced name of `source` for the time `stamp`.
pub fn displaced_path_at(source: &str, stamp: &str) -> (r: String)
    ensures
        r@ == spec_displaced_path(source@, stamp@),
{
    let src = chars_of(source);
    let dir = dir_or_dot_chars(src.as_slice());
    let name = file_name_chars(src.as_slice());
    let mut leaf = chars_of(".qmo-replacing-");
    push_str(&mut leaf, stamp);
    leaf.push('-');
    if name.len() == 0 {
        push_str(&mut leaf, "media");
    } else {
        push_all(&mut leaf, name.as_slice());
    }
    let out = join_chars(dir.as_slice(), leaf.as_slice());
    proof {
        let nm = if file_name(source@).len() == 0 {
            "media"@
        } else {
            file_name(source@)
        };
        assert(leaf@ =~= ".qmo-replacing-"@ + stamp@ + seq!['-'] + nm);
    }
    string_of(out.as_slice())
}

/// The displaced name of `source`, stamped with the local time.
pub fn displaced_path_for(source: &str) -> (r: String)
    ensures
        exists|stamp: Seq<char>| r@ == spec_displaced_path(source@, stamp),
{
    let stamp = local_stamp("%Y%m%d_%H%M%S_%f");
    displaced_path_at(source, stamp.as_str())
}

} // verus!

verus! {

/// Number of items in state `st`.
pub open spec fn count_state(items: Seq<BatchItemStatus>, st: BatchItemState) -> nat
    decreases items.len(),
{
    if items.len() == 0 {
        0
    } else {
        count_state(items.drop_last(), st) + if items.last().state == st {
            1nat
        } else {
            0nat
        }
    }
}

/// Bytes of the originals of the converted items.
pub open spec fn done_bytes_before(items: Seq<BatchItemStatus>) -> nat
    decreases items.len(),
{
    if items.len() == 0 {
        0
    } else {
        done_bytes_before(items.drop_last()) + if items.last().state == BatchItemState::Done {
            items.last().size_before as nat
        } else {
            0nat
        }
    }
}

/// What a converted item weighs now: its result, or its original when the
/// size of the result is unknown.
pub open spec fn weight_after(item: BatchItemStatus) -> nat {
    match item.size_after {
        Some(a) => a as nat,
        None => item.size_before as nat,
    }
}

/// Bytes of the results of the converted items.
pub open spec fn done_bytes_after(items: Seq<BatchItemStatus>) -> nat
    decreases items.len(),
{
    if items.len() == 0 {
        0
    } else {
        done_bytes_after(items.drop_last()) + if items.last().state == BatchItemState::Done {
            weight_after(items.last())
        } else {
            0nat
        }
    }
}

/// The job's counters say what its items say.
pub open spec fn counters_match(job: BatchJobStatus) -> bool {
    &&& job.done == count_state(job.items@, BatchItemState::Done)
    &&& job.failed == count_state(job.items@, BatchItemState::Failed)
    &&& job.skipped == count_state(job.items@, BatchItemState::Skipped)
    &&& job.bytes_before == done_bytes_before(job.items@)
    &&& job.bytes_after == done_bytes_after(job.items@)
}

/// `a` and `b` differ at most in their counters.
pub open spec fn same_but_counters(a: BatchJobStatus, b: BatchJobStatus) -> bool {
    &&& a.job_id == b.job_id
    &&& a.running == b.running
    &&& a.cancelled == b.cancelled
    &&& a.total == b.total
    &&& a.started_at == b.started_at
    &&& a.finished_at == b.finished_at
    &&& a.output_dir == b.output_dir
    &&& a.replaces_originals == b.replaces_originals
    &&& a.items == b.items
    &&& a.replacements == b.replacements
    &&& a.finalized == b.finalized
}

pub proof fn lemma_count_bound(items: Seq<BatchItemStatus>, st: BatchItemState)
    ensures
        count_state(items, st) <= items.len(),
    decreases items.len(),
{
    if items.len() > 0 {
        lemma_count_bound(items.drop_last(), st);
    }
}

/// Counters are rebuilt from the items, so a resumed job keeps its completed
/// work while a fresh job counts planning failures exactly once.
pub fn recalculate_terminal_state(job: &mut BatchJobStatus)
    requires
        done_bytes_before(old(job).items@) <= u64::MAX,
        done_bytes_after(old(job).items@) <= u64::MAX,
    ensures
        counters_match(*final(job)),
        same_but_counters(*old(job), *final(job)),
{
    let mut done: usize = 0;
    let mut failed: usize = 0;
    let mut skipped: usize = 0;
    let mut bytes_before: u64 = 0;
    let mut bytes_after: u64 = 0;
    let mut i: usize = 0;
    let ghost items = job.items@;
    proof {
        lemma_prefix_sums_bounded(items);
    }
    while i < job.items.len()
        invariant
            items == job.items@,
            i <= items.len(),
            done == count_state(items.take(i as int), BatchItemState::Done),
            failed == count_state(items.take(i as int), BatchItemState::Failed),
            skipped == count_state(items.take(i as int), BatchItemState::Skipped),
            bytes_before == done_bytes_before(items.take(i as int)),
            bytes_after == done_bytes_after(items.take(i as int)),
            forall|k: int|
                0 <= k <= items.len() ==> done_bytes_before(#[trigger] items.take(k))
                    <= done_bytes_before(items) && done_bytes_after(items.take(k))
                    <= done_bytes_after(items),
            done_bytes_before(items) <= u64::MAX,
            done_bytes_after(items) <= u64::MAX,
        decreases items.len() - i,
    {
        let item = &job.items[i];
        proof {
            assert(items.take(i + 1).drop_last() =~= items.take(i as int));
            lemma_count_bound(items.take(i as int), BatchItemState::Done);
            lemma_count_bound(items.take(i as int), BatchItemState::Failed);
            lemma_count_bound(items.take(i as int), BatchItemState::Skipped);
            assert(done_bytes_before(items.take(i + 1)) <= done_bytes_before(items));
        }
        match item.state {
            BatchItemState::Done => {
                done = done + 1;
                bytes_before = bytes_before + item.size_before;
                let after = match item.size_after {
                    Some(a) => a,
                    None => item.size_before,
                };
                bytes_after = bytes_after + after;
            },
            BatchItemState::Failed => failed = failed + 1,
            BatchItemState::Skipped => skipped = skipped + 1,
            _ => {},
        }
        i = i + 1;
    }
    assert(items.take(i as int) =~= items);
    job.done = done;
    job.failed = failed;
    job.skipped = skipped;
    job.bytes_before = bytes_before;
    job.bytes_after = bytes_after;
}

/// Sums over a prefix never exceed the sums over the whole list.
pub proof fn lemma_prefix_sums_bounded(items: Seq<BatchItemStatus>)
    ensures
        forall|k: int|
            0 <= k <= items.len() ==> done_bytes_before(#[trigger] items.take(k)) <= done_bytes_before(
                items,
            ) && done_bytes_after(items.take(k)) <= done_bytes_after(items),
    decreases items.len(),
{
    if items.len() > 0 {
        let init = items.drop_last();
        lemma_prefix_sums_bounded(init);
        assert forall|k: int| 0 <= k <= items.len() implies done_bytes_before(
            #[trigger] items.take(k),
        ) <= done_bytes_before(items) && done_bytes_after(items.take(k)) <= done_bytes_after(
            items,
        ) by {
            if k < items.len() {
                assert(items.take(k) =~= init.take(k));
            } else {
                assert(items.take(k) =~= items);
            }
        }
    }
}

/// The counters after `status` reached its terminal state.
pub open spec fn counted(job: BatchJobStatus, status: BatchItemStatus) -> (
    usize,
    usize,
    usize,
    int,
    int,
) {
    match status.state {
        BatchItemState::Done => (
            (job.done + 1) as usize,
            job.failed,
            job.skipped,
            job.bytes_before + status.size_before,
            job.bytes_after + weight_after(status),
        ),
        BatchItemState::Skipped => (
            job.done,
            job.failed,
            (job.skipped + 1) as usize,
            job.bytes_before as int,
            job.bytes_after as int,
        ),
        BatchItemState::Failed => (
            job.done,
            (job.failed + 1) as usize,
            job.skipped,
            job.bytes_before as int,
            job.bytes_after as int,
        ),
        _ => (job.done, job.failed, job.skipped, job.bytes_before as int, job.bytes_after as int),
    }
}

/// Counters follow the item that just reached a terminal state.
pub fn apply_terminal_state(job: &mut BatchJobStatus, status: &BatchItemStatus)
    requires
        status.state == BatchItemState::Done ==> old(job).done < usize::MAX && old(job).bytes_before
            + status.size_before <= u64::MAX && old(job).bytes_after + weight_after(*status)
            <= u64::MAX,
        status.state == BatchItemState::Skipped ==> old(job).skipped < usize::MAX,
        status.state == BatchItemState::Failed ==> old(job).failed < usize::MAX,
    ensures
        same_but_counters(*old(job), *final(job)),
        ({
            let c = counted(*old(job), *status);
            &&& final(job).done == c.0
            &&& final(job).failed == c.1
            &&& final(job).skipped == c.2
            &&& final(job).bytes_before == c.3
            &&& final(job).bytes_after == c.4
        }),
{
    match status.state {
        BatchItemState::Done => {
            job.done = job.done + 1;
            job.bytes_before = job.bytes_before + status.size_before;
            let after = match status.size_after {
                Some(a) => a,
                None => status.size_before,
            };
            job.bytes_after = job.bytes_after + after;
        },
        BatchItemState::Skipped => job.skipped = job.skipped + 1,
        BatchItemState::Failed => job.failed = job.failed + 1,
        _ => {},
    }
}

pub open spec fn ind(b: bool) -> int {
    if b {
        1
    } else {
        0
    }
}

pub proof fn lemma_count_update(items: Seq<BatchItemStatus>, i: int, s: BatchItemStatus, st: BatchItemState)
    requires
        0 <= i < items.len(),
    ensures
        count_state(items.update(i, s), st) == count_state(items, st) - ind(items[i].state == st)
            + ind(s.state == st),
    decreases items.len(),
{
    let u = items.update(i, s);
    if i == items.len() - 1 {
        assert(u.drop_last() =~= items.drop_last());
    } else {
        lemma_count_update(items.drop_last(), i, s, st);
        assert(u.drop_last() =~= items.drop_last().update(i, s));
    }
}

pub proof fn lemma_bytes_update(items: Seq<BatchItemStatus>, i: int, s: BatchItemStatus)
    requires
        0 <= i < items.len(),
    ensures
        done_bytes_before(items.update(i, s)) == done_bytes_before(items) - (if items[i].state
            == BatchItemState::Done {
            items[i].size_before as int
        } else {
            0
        }) + (if s.state == BatchItemState::Done {
            s.size_before as int
        } else {
            0
        }),
        done_bytes_after(items.update(i, s)) == done_bytes_after(items) - (if items[i].state
            == BatchItemState::Done {
            weight_after(items[i]) as int
        } else {
            0
        }) + (if s.state == BatchItemState::Done {
            weight_after(s) as int
        } else {
            0
        }),
    decreases items.len(),
{
    let u = items.update(i, s);
    if i == items.len() - 1 {
        assert(u.drop_last() =~= items.drop_last());
    } else {
        lemma_bytes_update(items.drop_last(), i, s);
        assert(u.drop_last() =~= items.drop_last().update(i, s));
    }
}

/// Done, failed and skipped items are the ones the counters count.
pub open spec fn is_counted(st: BatchItemState) -> bool {
    st == BatchItemState::Done || st == BatchItemState::Failed || st == BatchItemState::Skipped
}

/// A job whose counters agree with its items still agrees after one item
/// that was not counted yet reaches its final state and is counted by
/// `apply_terminal_state`: the counters never drift from the items.
pub proof fn law_counting_a_finished_item_keeps_counters(
    job: BatchJobStatus,
    i: int,
    status: BatchItemStatus,
)
    requires
        counters_match(job),
        0 <= i < job.items@.len(),
        !is_counted(job.items@[i].state),
    ensures
        ({
            let c = counted(job, status);
            let items = job.items@.update(i, status);
            &&& c.0 == count_state(items, BatchItemState::Done)
            &&& c.1 == count_state(items, BatchItemState::Failed)
            &&& c.2 == count_state(items, BatchItemState::Skipped)
            &&& c.3 == done_bytes_before(items)
            &&& c.4 == done_bytes_after(items)
        }),
{
    let items = job.items@;
    lemma_count_update(items, i, status, BatchItemState::Done);
    lemma_count_update(items, i, status, BatchItemState::Failed);
    lemma_count_update(items, i, status, BatchItemState::Skipped);
    lemma_bytes_update(items, i, status);
    lemma_count_bound(items.update(i, status), BatchItemState::Done);
    lemma_count_bound(items.update(i, status), BatchItemState::Failed);
    lemma_count_bound(items.update(i, status), BatchItemState::Skipped);
    assert(job.items@.len() == job.items.len());
}

} // verus!

verus! {

impl BatchItemStatus {
    /// A copy with the same fields.
    pub fn duplicate(&self) -> (r: BatchItemStatus)
        ensures
            r == *self,
    {
        BatchItemStatus {
            id: self.id.clone(),
            source_path: self.source_path.clone(),
            file_name: self.file_name.clone(),
            media_type: self.media_type,
            state: self.state,
            progress_permille: self.progress_permille,
            size_before: self.size_before,
            size_after: self.size_after,
            output_path: self.output_path.clone(),
            error: self.error.clone(),
            encoder_backend: self.encoder_backend,
            fallback_reason: self.fallback_reason.clone(),
        }
    }
}

/// The item starts running on the plan's resolved family.
pub fn mark_running(item: &mut BatchItemStatus, resolved_backend: Option<VideoBackend>)
    ensures
        *final(item) == (BatchItemStatus {
            state: BatchItemState::Running,
            progress_permille: 0,
            encoder_backend: resolved_backend,
            ..*old(item)
        }),
{
    item.state = BatchItemState::Running;
    item.progress_permille = 0;
    item.encoder_backend = resolved_backend;
}

/// An attempt starts: a video reports the family it now uses, and every
/// item reports why it fell back, if it did.
pub fn mark_attempt(
    item: &mut BatchItemStatus,
    media_type: BatchMediaType,
    backend: VideoBackend,
    fallback_reason: &Option<String>,
)
    ensures
        *final(item) == (BatchItemStatus {
            encoder_backend: if media_type == BatchMediaType::Video {
                Some(backend)
            } else {
                old(item).encoder_backend
            },
            fallback_reason: *fallback_reason,
            ..*old(item)
        }),
{
    if media_type == BatchMediaType::Video {
        item.encoder_backend = Some(backend);
    }
    item.fallback_reason = fallback_reason.clone();
}

/// Encode progress, in thousandths.
pub fn mark_progress(item: &mut BatchItemStatus, permille: u16)
    ensures
        *final(item) == (BatchItemStatus { progress_permille: permille, ..*old(item) }),
{
    item.progress_permille = permille;
}

/// What became of a file whose encode finished.
#[derive(Debug, Clone)]
pub enum ItemOutcome {
    Done { output_path: String, size_after: u64 },
    Skipped { reason: String },
}

/// The final status of an item from the outcome of its encode and
/// finalization: done with its output, skipped with the reason, cancelled,
/// or failed with the error. A done video reports the family of the attempt
/// that succeeded (`attempts[current]`).
pub open spec fn spec_finished_item(
    item: BatchItemStatus,
    outcome: Result<ItemOutcome, String>,
    plan: EncodePlan,
    current: int,
    fallback_reason: Option<String>,
) -> BatchItemStatus {
    match outcome {
        Ok(ItemOutcome::Done { output_path, size_after }) => BatchItemStatus {
            state: BatchItemState::Done,
            progress_permille: 1000,
            size_after: Some(size_after),
            output_path: Some(output_path),
            error: None,
            encoder_backend: if plan.media_type == BatchMediaType::Video && 0 <= current
                < plan.attempts@.len() {
                Some(plan.attempts@[current].backend)
            } else {
                None
            },
            fallback_reason,
            ..item
        },
        Ok(ItemOutcome::Skipped { reason }) => BatchItemStatus {
            state: BatchItemState::Skipped,
            progress_permille: 1000,
            error: Some(reason),
            ..item
        },
        Err(e) => if e@ == CANCELLED@ {
            BatchItemStatus { state: BatchItemState::Cancelled, ..item }
        } else {
            BatchItemStatus {
                state: BatchItemState::Failed,
                error: Some(e),
                fallback_reason,
                ..item
            }
        },
    }
}

/// Applies the outcome of an item; returns whether its temp file must go
/// (on every error, cancellation included).
pub fn mark_finished(
    item: &mut BatchItemStatus,
    outcome: &Result<ItemOutcome, String>,
    plan: &EncodePlan,
    current: usize,
    fallback_reason: &Option<String>,
) -> (remove_temp: bool)
    ensures
        *final(item) == spec_finished_item(
            *old(item),
            *outcome,
            *plan,
            current as int,
            *fallback_reason,
        ),
        remove_temp == (outcome is Err),
{
    match outcome {
        Ok(ItemOutcome::Done { output_path, size_after }) => {
            item.state = BatchItemState::Done;
            item.progress_permille = 1000;
            item.size_after = Some(*size_after);
            item.output_path = Some(output_path.clone());
            item.error = None;
            item.encoder_backend = if plan.media_type == BatchMediaType::Video && current
                < plan.attempts.len() {
                Some(plan.attempts[current].backend)
            } else {
                None
            };
            item.fallback_reason = fallback_reason.clone();
            false
        },
        Ok(ItemOutcome::Skipped { reason }) => {
            item.state = BatchItemState::Skipped;
            item.progress_permille = 1000;
            item.error = Some(reason.clone());
            false
        },
        Err(e) => {
            let ec = chars_of(e.as_str());
            if crate::media::eq_lit(ec.as_slice(), CANCELLED) {
                item.state = BatchItemState::Cancelled;
            } else {
                item.state = BatchItemState::Failed;
                item.error = Some(e.clone());
                item.fallback_reason = fallback_reason.clone();
            }
            true
        },
    }
}

/// Where an item's encode loop stands: the attempt that runs, those that
/// already failed, and the reason of the last fallback.
pub struct AttemptRun {
    pub current: usize,
    pub attempted: HashSet<usize>,
    pub fallback_reason: Option<String>,
}

impl AttemptRun {
    /// `current` is a valid attempt that has not failed yet, and every
    /// failed one is a valid attempt.
    pub open spec fn consistent(&self, attempts: nat) -> bool {
        &&& self.current < attempts
        &&& !self.attempted@.contains(self.current)
        &&& self.attempted@.finite()
        &&& forall|k: usize| #[trigger] self.attempted@.contains(k) ==> k < attempts
    }

    /// The first attempt of a plan; an error when the plan has none.
    pub fn start(plan: &EncodePlan) -> (r: Result<AttemptRun, String>)
        ensures
            match r {
                Ok(run) => plan.attempts@.len() > 0 && run.current == 0 && run.attempted@.len()
                    == 0 && run.fallback_reason is None && run.consistent(plan.attempts@.len()),
                Err(e) => plan.attempts@.len() == 0 && e@ == "No encoding attempt was configured."@,
            },
    {
        broadcast use vstd::std_specs::hash::group_hash_axioms;

        if plan.attempts.len() == 0 {
            return Err(String::from_str("No encoding attempt was configured."));
        }
        let attempted: HashSet<usize> = HashSet::new();
        let run = AttemptRun { current: 0, attempted, fallback_reason: None };
        assert(run.attempted@ =~= Set::<usize>::empty());
        Ok(run)
    }

    /// The current attempt failed with `error`. Returns the attempt to run
    /// next, if any, and records the fallback. Only video plans fall back.
    /// A fallback never returns to an attempt that already failed, so an
    /// item is encoded at most once per attempt of its plan.
    pub fn after_failure(&mut self, plan: &EncodePlan, error: &str) -> (r: Option<usize>)
        requires
            old(self).consistent(plan.attempts@.len()),
        ensures
            final(self).attempted@ == old(self).attempted@.insert(old(self).current),
            final(self).attempted@.len() == old(self).attempted@.len() + 1,
            r == (if plan.resolved_backend is Some {
                match spec_next_attempt_in(
                    plan.attempts@,
                    old(self).current as int,
                    error@,
                    final(self).attempted@,
                ) {
                    Some(n) => Some(n as usize),
                    None => None,
                }
            } else {
                None
            }),
            match r {
                Some(n) => {
                    &&& final(self).current == n
                    &&& final(self).consistent(plan.attempts@.len())
                    &&& final(self).fallback_reason matches Some(why) && why@ == spec_fallback_reason(
                        plan.attempts@[old(self).current as int].backend,
                        plan.attempts@[n as int].backend,
                        error@,
                    )
                },
                None => {
                    &&& final(self).current == old(self).current
                    &&& final(self).fallback_reason == old(self).fallback_reason
                },
            },
    {
        broadcast use vstd::std_specs::hash::group_hash_axioms;

        let current = self.current;
        self.attempted.insert(current);
        assert(self.attempted@.len() == old(self).attempted@.len() + 1);
        if plan.resolved_backend.is_none() {
            return None;
        }
        let next = next_attempt_in(&plan.attempts, current, error, &self.attempted);
        proof {
            lemma_next_attempt_fresh(plan.attempts@, current as int, error@, self.attempted@);
        }
        match next {
            Some(n) => {
                let why = fallback_reason(plan.attempts[current].backend, plan.attempts[n].backend, error);
                self.fallback_reason = Some(why);
                self.current = n;
                Some(n)
            },
            None => None,
        }
    }
}

} // verus!

verus! {

/// A fresh job over `items`: running, nothing counted yet, started now.
pub fn new_job_status(
    job_id: String,
    items: Vec<BatchItemStatus>,
    output_dir: Option<String>,
    replaces_originals: bool,
) -> (r: BatchJobStatus)
    ensures
        r.job_id == job_id,
        r.running,
        !r.cancelled,
        r.total == items@.len(),
        r.done == 0 && r.failed == 0 && r.skipped == 0,
        r.bytes_before == 0 && r.bytes_after == 0,
        r.finished_at is None,
        r.output_dir == output_dir,
        r.replaces_originals == replaces_originals,
        r.items == items,
        r.replacements@.len() == 0,
        !r.finalized,
{
    let total = items.len();
    BatchJobStatus {
        job_id,
        running: true,
        cancelled: false,
        total,
        done: 0,
        failed: 0,
        skipped: 0,
        bytes_before: 0,
        bytes_after: 0,
        started_at: now_rfc3339(),
        finished_at: None,
        output_dir,
        replaces_originals,
        items,
        replacements: Vec::new(),
        finalized: false,
    }
}

/// The item at the end of a job: a cancelled job leaves what had not
/// finished cancelled.
pub open spec fn closed_item(item: BatchItemStatus, cancelled: bool) -> BatchItemStatus {
    if cancelled && (item.state == BatchItemState::Pending || item.state == BatchItemState::Running) {
        BatchItemStatus { state: BatchItemState::Cancelled, ..item }
    } else {
        item
    }
}

/// Closing a job moves no item into or out of a counted state and changes
/// no counted item, so its counts and byte sums stay.
pub proof fn lemma_closing_keeps_counts(
    a: Seq<BatchItemStatus>,
    b: Seq<BatchItemStatus>,
    cancelled: bool,
)
    requires
        a.len() == b.len(),
        forall|i: int| 0 <= i < a.len() ==> #[trigger] b[i] == closed_item(a[i], cancelled),
    ensures
        count_state(b, BatchItemState::Done) == count_state(a, BatchItemState::Done),
        count_state(b, BatchItemState::Failed) == count_state(a, BatchItemState::Failed),
        count_state(b, BatchItemState::Skipped) == count_state(a, BatchItemState::Skipped),
        done_bytes_before(b) == done_bytes_before(a),
        done_bytes_after(b) == done_bytes_after(a),
    decreases a.len(),
{
    if a.len() > 0 {
        let (a2, b2) = (a.drop_last(), b.drop_last());
        assert forall|i: int| 0 <= i < a2.len() implies #[trigger] b2[i] == closed_item(a2[i], cancelled) by {
            assert(b2[i] == b[i] && a2[i] == a[i]);
        }
        lemma_closing_keeps_counts(a2, b2, cancelled);
        assert(b.last() == closed_item(a.last(), cancelled));
    }
}

/// An item that never started (still pending) when a cancelled job ends is
/// cancelled, unchanged otherwise, and counted nowhere.
pub proof fn law_an_item_not_started_ends_cancelled(item: BatchItemStatus)
    requires
        item.state == BatchItemState::Pending,
    ensures
        closed_item(item, true) == (BatchItemStatus { state: BatchItemState::Cancelled, ..item }),
        !is_counted(closed_item(item, true).state),
{
}

/// Every run of an item ends in exactly one final state (done, skipped,
/// failed or cancelled), and counting it grows only the counter of that
/// state, by one: a done item also adds its bytes, a cancelled one
/// changes nothing.
pub proof fn law_a_run_ends_in_one_final_state(
    job: BatchJobStatus,
    item: BatchItemStatus,
    outcome: Result<ItemOutcome, String>,
    plan: EncodePlan,
    current: int,
    fallback_reason: Option<String>,
)
    ensures
        ({
            let s = spec_finished_item(item, outcome, plan, current, fallback_reason);
            let c = counted(job, s);
            &&& (s.state == BatchItemState::Done || s.state == BatchItemState::Skipped || s.state
                == BatchItemState::Failed || s.state == BatchItemState::Cancelled)
            &&& s.state == BatchItemState::Done ==> c == (
                (job.done + 1) as usize,
                job.failed,
                job.skipped,
                job.bytes_before + s.size_before,
                job.bytes_after + weight_after(s),
            )
            &&& s.state == BatchItemState::Skipped ==> c == (
                job.done,
                job.failed,
                (job.skipped + 1) as usize,
                job.bytes_before as int,
                job.bytes_after as int,
            )
            &&& s.state == BatchItemState::Failed ==> c == (
                job.done,
                (job.failed + 1) as usize,
                job.skipped,
                job.bytes_before as int,
                job.bytes_after as int,
            )
            &&& s.state == BatchItemState::Cancelled ==> c == (
                job.done,
                job.failed,
                job.skipped,
                job.bytes_before as int,
                job.bytes_after as int,
            )
        }),
{
}

/// Ends a job: no longer running, cancelled or not, finished now. Counters
/// that agreed with the items still agree with them.
pub fn finish_job(job: &mut BatchJobStatus, cancelled: bool)
    ensures
        !final(job).running,
        counters_match(*old(job)) ==> counters_match(*final(job)),
        final(job).cancelled == cancelled,
        final(job).finished_at is Some,
        final(job).items@.len() == old(job).items@.len(),
        forall|i: int|
            0 <= i < old(job).items@.len() ==> #[trigger] final(job).items@[i] == closed_item(
                old(job).items@[i],
                cancelled,
            ),
        final(job).job_id == old(job).job_id,
        final(job).total == old(job).total,
        final(job).done == old(job).done,
        final(job).failed == old(job).failed,
        final(job).skipped == old(job).skipped,
        final(job).bytes_before == old(job).bytes_before,
        final(job).bytes_after == old(job).bytes_after,
        final(job).started_at == old(job).started_at,
        final(job).output_dir == old(job).output_dir,
        final(job).replaces_originals == old(job).replaces_originals,
        final(job).replacements == old(job).replacements,
        final(job).finalized == old(job).finalized,
{
    job.running = false;
    job.cancelled = cancelled;
    job.finished_at = Some(now_rfc3339());
    if cancelled {
        let mut i: usize = 0;
        while i < job.items.len()
            invariant
                i <= job.items@.len(),
                job.items@.len() == old(job).items@.len(),
                cancelled,
                forall|k: int| 0 <= k < i ==> #[trigger] job.items@[k] == closed_item(old(job).items@[k], cancelled),
                forall|k: int| i <= k < job.items@.len() ==> #[trigger] job.items@[k] == old(job).items@[k],
                job.job_id == old(job).job_id,
                job.total == old(job).total,
                job.done == old(job).done,
                job.failed == old(job).failed,
                job.skipped == old(job).skipped,
                job.bytes_before == old(job).bytes_before,
                job.bytes_after == old(job).bytes_after,
                job.started_at == old(job).started_at,
                job.output_dir == old(job).output_dir,
                job.replaces_originals == old(job).replaces_originals,
                job.replacements == old(job).replacements,
                job.finalized == old(job).finalized,
                !job.running,
                job.cancelled == cancelled,
                job.finished_at is Some,
            decreases job.items@.len() - i,
        {
            let st = job.items[i].state;
            if st == BatchItemState::Pending || st == BatchItemState::Running {
                let mut item = job.items[i].duplicate();
                item.state = BatchItemState::Cancelled;
                job.items.set(i, item);
            }
            i = i + 1;
        }
    }
    proof {
        assert forall|k: int| 0 <= k < old(job).items@.len() implies #[trigger] job.items@[k] == closed_item(
            old(job).items@[k],
            cancelled,
        ) by {}
        lemma_closing_keeps_counts(old(job).items@, job.items@, cancelled);
    }
}

} // verus!

verus! {

/// Finished jobs are kept so the panel can re-attach after a window reload,
/// but each one holds a status entry per file: only the most recent few stay.
pub const MAX_REMEMBERED_JOBS: usize = 4;

/// Registry of jobs, in registration order. One job runs at a time;
/// finished jobs stay around so the UI can re-attach after a window reload.
/// `H` is what the caller keeps per job (its status and its cancel flag).
pub struct BatchRunner<H> {
    entries: Vec<(String, H)>,
    active: Option<String>,
    counter: u64,
}

/// `entries` without the one registered under `id`.
pub open spec fn without_id<H>(entries: Seq<(String, H)>, id: Seq<char>) -> Seq<(String, H)>
    decreases entries.len(),
{
    if entries.len() == 0 {
        entries
    } else if entries.last().0@ == id {
        without_id(entries.drop_last(), id)
    } else {
        without_id(entries.drop_last(), id).push(entries.last())
    }
}

/// The last `n` entries.
pub open spec fn keep_last<H>(entries: Seq<(String, H)>, n: nat) -> Seq<(String, H)> {
    if entries.len() > n {
        entries.subrange(entries.len() - n, entries.len() as int)
    } else {
        entries
    }
}

pub open spec fn distinct_ids<H>(entries: Seq<(String, H)>) -> bool {
    forall|i: int, j: int|
        0 <= i < entries.len() && 0 <= j < entries.len() && i != j ==> #[trigger] entries[i].0@
            != #[trigger] entries[j].0@
}

pub proof fn lemma_without_id<H>(entries: Seq<(String, H)>, id: Seq<char>)
    requires
        distinct_ids(entries),
    ensures
        distinct_ids(without_id(entries, id)),
        without_id(entries, id).len() <= entries.len(),
        forall|k: int|
            0 <= k < without_id(entries, id).len() ==> #[trigger] without_id(entries, id)[k].0@ != id,
        forall|k: int|
            0 <= k < without_id(entries, id).len() ==> entries.contains(
                #[trigger] without_id(entries, id)[k],
            ),
        forall|k: int|
            0 <= k < entries.len() && entries[k].0@ != id ==> without_id(entries, id).contains(
                #[trigger] entries[k],
            ),
    decreases entries.len(),
{
    if entries.len() > 0 {
        let init = entries.drop_last();
        assert(distinct_ids(init));
        lemma_without_id(init, id);
        let w = without_id(init, id);
        if entries.last().0@ != id {
            let w2 = w.push(entries.last());
            assert forall|i: int, j: int|
                0 <= i < w2.len() && 0 <= j < w2.len() && i != j implies #[trigger] w2[i].0@
                != #[trigger] w2[j].0@ by {
                if i == w.len() as int {
                    assert(init.contains(w2[j]));
                    let m = choose|m: int| 0 <= m < init.len() && init[m] == w2[j];
                    assert(entries[m] == init[m]);
                    assert(entries[entries.len() - 1] == entries.last());
                } else if j == w.len() as int {
                    assert(init.contains(w2[i]));
                    let m = choose|m: int| 0 <= m < init.len() && init[m] == w2[i];
                    assert(entries[m] == init[m]);
                    assert(entries[entries.len() - 1] == entries.last());
                }
            }
            assert forall|k: int| 0 <= k < w2.len() implies entries.contains(#[trigger] w2[k]) by {
                if k < w.len() {
                    assert(init.contains(w2[k]));
                    let m = choose|m: int| 0 <= m < init.len() && init[m] == w2[k];
                    assert(entries[m] == init[m]);
                } else {
                    assert(entries[entries.len() - 1] == w2[k]);
                }
            }
            assert forall|k: int| 0 <= k < entries.len() && entries[k].0@ != id implies w2.contains(
                #[trigger] entries[k],
            ) by {
                if k < init.len() {
                    assert(init[k] == entries[k]);
                    assert(w.contains(entries[k]));
                    let m = choose|m: int| 0 <= m < w.len() && w[m] == entries[k];
                    assert(w2[m] == entries[k]);
                } else {
                    assert(w2[w.len() as int] == entries[k]);
                }
            }
        } else {
            assert forall|k: int| 0 <= k < w.len() implies entries.contains(#[trigger] w[k]) by {
                assert(init.contains(w[k]));
                let m = choose|m: int| 0 <= m < init.len() && init[m] == w[k];
                assert(entries[m] == init[m]);
            }
            assert forall|k: int| 0 <= k < entries.len() && entries[k].0@ != id implies w.contains(
                #[trigger] entries[k],
            ) by {
                assert(init[k] == entries[k]);
            }
        }
    }
}

impl<H> BatchRunner<H> {
    #[verifier::type_invariant]
    spec fn registry_ok(self) -> bool {
        &&& distinct_ids(self.entries@)
        &&& self.entries@.len() <= MAX_REMEMBERED_JOBS
    }

    /// The remembered jobs, oldest first, each with what the caller keeps.
    pub closed spec fn jobs(self) -> Seq<(String, H)> {
        self.entries@
    }

    pub closed spec fn active(self) -> Option<Seq<char>> {
        match self.active {
            Some(a) => Some(a@),
            None => None,
        }
    }

    /// How many ids `next_job_id` handed out.
    pub closed spec fn issued(self) -> u64 {
        self.counter
    }

    pub fn new() -> (r: Self)
        ensures
            r.jobs().len() == 0,
            r.active() is None,
            r.issued() == 0,
    {
        BatchRunner { entries: Vec::new(), active: None, counter: 0 }
    }

    /// A fresh job id, `job-<local time>-<n>` with the n-th id handed out.
    pub fn next_job_id(&mut self) -> (r: String)
        requires
            old(self).issued() < u64::MAX,
        ensures
            final(self).issued() == old(self).issued() + 1,
            final(self).jobs() == old(self).jobs(),
            final(self).active() == old(self).active(),
            exists|stamp: Seq<char>| r@ == spec_job_id(stamp, final(self).issued()),
    {
        proof {
            use_type_invariant(&*self);
        }
        self.counter = self.counter + 1;
        let stamp = local_stamp("%Y%m%d%H%M%S");
        job_id_text(stamp.as_str(), self.counter)
    }

    pub fn active_job_id(&self) -> (r: Option<String>)
        ensures
            opt_string_view(r) == self.active(),
    {
        match &self.active {
            Some(a) => Some(a.clone()),
            None => None,
        }
    }

    /// Registers a job and makes it the active one. The job just registered
    /// is the newest, so it is never the one forgotten; an id registered
    /// again replaces its old entry; only the newest
    /// `MAX_REMEMBERED_JOBS` stay.
    pub fn register(&mut self, handle: H, job_id: &str)
        ensures
            final(self).jobs().len() > 0,
            final(self).jobs().drop_last() == keep_last(
                without_id(old(self).jobs(), job_id@),
                (MAX_REMEMBERED_JOBS - 1) as nat,
            ),
            final(self).jobs().last().0@ == job_id@,
            final(self).jobs().last().1 == handle,
            final(self).jobs().len() <= MAX_REMEMBERED_JOBS,
            forall|k: int|
                0 <= k < final(self).jobs().len() - 1 ==> old(self).jobs().contains(
                    #[trigger] final(self).jobs()[k],
                ) && final(self).jobs()[k].0@ != job_id@,
            final(self).active() == Some(job_id@),
            final(self).issued() == old(self).issued(),
    {
        proof {
            use_type_invariant(&*self);
        }
        let ghost old_entries = self.entries@;
        let mut kept: Vec<(String, H)> = Vec::new();
        let mut old_entries_vec = Vec::new();
        std::mem::swap(&mut old_entries_vec, &mut self.entries);
        // walk the old entries from the back, then restore the order
        let mut rev: Vec<(String, H)> = Vec::new();
        while old_entries_vec.len() > 0
            invariant
                rev@.len() + old_entries_vec@.len() == old_entries.len(),
                old_entries_vec@ == old_entries.take(old_entries_vec@.len() as int),
                forall|k: int| 0 <= k < rev@.len() ==> #[trigger] rev@[k] == old_entries[old_entries.len() - 1 - k],
            decreases old_entries_vec@.len(),
        {
            let e = old_entries_vec.pop().unwrap();
            rev.push(e);
        }
        assert(kept@ == without_id(old_entries.take(0), job_id@)) by {
            assert(old_entries.take(0) =~= Seq::<(String, H)>::empty());
        }
        while rev.len() > 0
            invariant
                rev@.len() <= old_entries.len(),
                forall|k: int| 0 <= k < rev@.len() ==> #[trigger] rev@[k] == old_entries[old_entries.len() - 1 - k],
                kept@ == without_id(old_entries.take(old_entries.len() - rev@.len()), job_id@),
            decreases rev@.len(),
        {
            let ghost n = old_entries.len() - rev@.len();
            let e = rev.pop().unwrap();
            assert(e == old_entries[n]);
            assert(old_entries.take(n + 1).drop_last() =~= old_entries.take(n));
            let id = chars_of(e.0.as_str());
            let want = chars_of(job_id);
            if !crate::text::chars_eq(id.as_slice(), want.as_slice()) {
                kept.push(e);
            }
        }
        assert(old_entries.take(old_entries.len() as int) =~= old_entries);
        proof {
            lemma_without_id(old_entries, job_id@);
        }
        let ghost base = kept@;
        kept.push((String::from_str(job_id), handle));
        let ghost pushed = kept@;
        if kept.len() > MAX_REMEMBERED_JOBS {
            let _oldest = kept.remove(0);
            assert(kept@ =~= pushed.subrange(1, pushed.len() as int));
        }
        proof {
            let f = kept@;
            assert forall|i: int, j: int|
                0 <= i < f.len() && 0 <= j < f.len() && i != j implies #[trigger] f[i].0@
                != #[trigger] f[j].0@ by {
                let off = pushed.len() - f.len();
                assert(f[i] == pushed[i + off]);
                assert(f[j] == pushed[j + off]);
            }
            assert(f.drop_last() =~= keep_last(base, (MAX_REMEMBERED_JOBS - 1) as nat));
            assert forall|k: int| 0 <= k < f.len() - 1 implies old_entries.contains(
                #[trigger] f[k],
            ) && f[k].0@ != job_id@ by {
                let off = pushed.len() - f.len();
                assert(f[k] == pushed[k + off]);
                assert(pushed[k + off] == base[k + off]);
            }
        }
        self.entries = kept;
        self.active = Some(String::from_str(job_id));
    }

    /// What the caller keeps for `job_id`, if the job is remembered.
    pub fn job(&self, job_id: &str) -> (r: Option<&H>)
        ensures
            match r {
                Some(h) => exists|k: int|
                    0 <= k < self.jobs().len() && self.jobs()[k].0@ == job_id@ && self.jobs()[k].1
                        == *h,
                None => forall|k: int|
                    0 <= k < self.jobs().len() ==> #[trigger] self.jobs()[k].0@ != job_id@,
            },
    {
        let want = chars_of(job_id);
        let mut i: usize = 0;
        while i < self.entries.len()
            invariant
                i <= self.entries@.len(),
                want@ == job_id@,
                forall|k: int| 0 <= k < i ==> #[trigger] self.entries@[k].0@ != job_id@,
            decreases self.entries@.len() - i,
        {
            let id = chars_of(self.entries[i].0.as_str());
            if crate::text::chars_eq(id.as_slice(), want.as_slice()) {
                assert(self.jobs()[i as int].0@ == job_id@);
                return Some(&self.entries[i].1);
            }
            i = i + 1;
        }
        None
    }

    /// The cancel handle of a remembered job; an error for an unknown id.
    pub fn cancel(&self, job_id: &str) -> (r: Result<&H, String>)
        ensures
            match r {
                Ok(h) => exists|k: int|
                    0 <= k < self.jobs().len() && self.jobs()[k].0@ == job_id@ && self.jobs()[k].1
                        == *h,
                Err(e) => e@ == "Unknown batch job: "@ + job_id@ && forall|k: int|
                    0 <= k < self.jobs().len() ==> #[trigger] self.jobs()[k].0@ != job_id@,
            },
    {
        match self.job(job_id) {
            Some(h) => Ok(h),
            None => {
                let mut m = chars_of("Unknown batch job: ");
                push_str(&mut m, job_id);
                Err(string_of(m.as_slice()))
            },
        }
    }

    /// Forgets which job is active when it is `job_id`.
    pub fn clear_active(&mut self, job_id: &str)
        ensures
            final(self).active() == (if old(self).active() == Some(job_id@) {
                None
            } else {
                old(self).active()
            }),
            final(self).jobs() == old(self).jobs(),
            final(self).issued() == old(self).issued(),
    {
        proof {
            use_type_invariant(&*self);
        }
        let is_active = match &self.active {
            Some(a) => {
                let x = chars_of(a.as_str());
                crate::media::eq_lit(x.as_slice(), job_id)
            },
            None => false,
        };
        if is_active {
            self.active = None;
        }
    }
}

pub open spec fn spec_job_id(stamp: Seq<char>, n: u64) -> Seq<char> {
    "job-"@ + stamp + seq!['-'] + decimal(n as nat)
}

/// `job-<stamp>-<n>`.
pub fn job_id_text(stamp: &str, n: u64) -> (r: String)
    ensures
        r@ == spec_job_id(stamp@, n),
{
    let mut t = chars_of("job-");
    push_str(&mut t, stamp);
    t.push('-');
    let d = decimal_chars(n);
    push_all(&mut t, d.as_slice());
    assert(t@ =~= spec_job_id(stamp@, n));
    string_of(t.as_slice())
}

} // verus!

verus! {

/// `a` and `b` hold the same plan.
pub open spec fn same_plan(a: EncodePlan, b: EncodePlan) -> bool {
    &&& a.input == b.input
    &&& a.temp_output == b.temp_output
    &&& a.final_output == b.final_output
    &&& same_attempts(a.attempts@, b.attempts@)
    &&& a.resolved_backend == b.resolved_backend
    &&& a.media_type == b.media_type
    &&& a.replace_original == b.replace_original
    &&& a.backup == b.backup
    &&& a.overwritten_target == b.overwritten_target
}

pub open spec fn same_opt_plan(a: Option<EncodePlan>, b: Option<EncodePlan>) -> bool {
    match (a, b) {
        (Some(x), Some(y)) => same_plan(x, y),
        (None, None) => true,
        _ => false,
    }
}

impl EncodePlan {
    /// A copy with the same fields.
    pub fn duplicate(&self) -> (r: EncodePlan)
        ensures
            same_plan(r, *self),
    {
        EncodePlan {
            input: self.input.clone(),
            temp_output: self.temp_output.clone(),
            final_output: self.final_output.clone(),
            attempts: duplicate_attempts(&self.attempts),
            resolved_backend: self.resolved_backend,
            media_type: self.media_type,
            replace_original: self.replace_original,
            backup: self.backup,
            overwritten_target: match &self.overwritten_target {
                Some(t) => Some(t.clone()),
                None => None,
            },
        }
    }
}

} // verus!

verus! {

/// The encoder the runner uses: FFmpeg's two programs.
#[derive(Debug, Clone)]
pub struct FfmpegEncoder {
    pub tools: FfmpegTools,
}

impl FfmpegEncoder {
    /// Finds the programs as `FfmpegTools::locate` does.
    pub fn locate<F: Fn(&str) -> bool>(cache: &mut BinaryCache, env: &ToolEnvironment, runs: &F) -> (r: Result<
        Self,
        String,
    >)
        requires
            forall|x: &str| #[trigger] call_requires(*runs, (x,)),
        ensures
            match r {
                Ok(e) => final(cache)@.dom().contains("ffmpeg"@) && final(cache)@["ffmpeg"@] == e.tools.ffmpeg@
                    && final(cache)@.dom().contains("ffprobe"@) && final(cache)@["ffprobe"@] == e.tools.ffprobe@
                    && (!old(cache)@.dom().contains("ffmpeg"@) ==> first_that_runs(
                    *runs,
                    spec_binary_candidates("ffmpeg"@, *env),
                    e.tools.ffmpeg@,
                )) && (old(cache)@.dom().contains("ffmpeg"@) ==> e.tools.ffmpeg@ == old(cache)@["ffmpeg"@]),
                Err(m) => m@ == crate::video::spec_missing_ffmpeg_message("ffmpeg"@, env.os@) || m@
                    == crate::video::spec_missing_ffmpeg_message("ffprobe"@, env.os@),
            },
    {
        let tools = FfmpegTools::locate(cache, env, runs)?;
        Ok(FfmpegEncoder { tools })
    }

    /// What the build can do, as `FfmpegTools::capabilities` reads it.
    pub fn capabilities(
        &self,
        encoders: &str,
        decoders: &str,
        demuxers: &str,
        version: Option<&str>,
        video_backends: Vec<super::VideoBackendCapability>,
    ) -> (r: super::FfmpegCapabilities)
        ensures
            capabilities_match(
                r,
                encoders@,
                decoders@,
                demuxers@,
                match version {
                    Some(v) => Some(v@),
                    None => None,
                },
                video_backends@,
            ),
    {
        self.tools.capabilities(encoders, decoders, demuxers, version, video_backends)
    }
}

} // verus!

verus! {

/// How many workers run a job: the configured concurrency, kept between one
/// and eight, and never more than there are items to work on (at least one).
pub fn worker_count(concurrency: usize, work_len: usize) -> (r: usize)
    ensures
        r == ({
            let c = if concurrency < 1 { 1 } else if concurrency > 8 { 8 } else { concurrency as int };
            let w = if work_len < 1 { 1 } else { work_len as int };
            if c < w { c } else { w }
        }),
        1 <= r <= 8,
{
    let c = if concurrency < 1 {
        1
    } else if concurrency > 8 {
        8
    } else {
        concurrency
    };
    let w = if work_len < 1 {
        1
    } else {
        work_len
    };
    if c < w {
        c
    } else {
        w
    }
}

/// The items with work, each with its index among all items, in order.
pub fn work_items(plans: &Vec<PlannedItem>) -> (r: Vec<(usize, EncodePlan)>)
    ensures
        r@.len() == plans@.len() - count_unplanned(plans@),
        forall|k: int| 0 <= k < r@.len() ==> {
            let (i, p) = #[trigger] r@[k];
            &&& i < plans@.len()
            &&& plans@[i as int].plan matches Some(q) && same_plan(p, q)
        },
        forall|k: int, l: int| 0 <= k < l < r@.len() ==> (#[trigger] r@[k]).0 < (#[trigger] r@[l]).0,
        forall|i: int| 0 <= i < plans@.len() && plans@[i].plan is Some ==> exists|k: int| 0 <= k < r@.len() && (#[trigger] r@[k]).0 == i,
{
    let mut out: Vec<(usize, EncodePlan)> = Vec::new();
    let mut i: usize = 0;
    while i < plans.len()
        invariant
            i <= plans@.len(),
            out@.len() == i - count_unplanned(plans@.take(i as int)),
            forall|k: int| 0 <= k < out@.len() ==> {
                let (j, p) = #[trigger] out@[k];
                &&& j < i
                &&& plans@[j as int].plan matches Some(q) && same_plan(p, q)
            },
            forall|k: int, l: int| 0 <= k < l < out@.len() ==> (#[trigger] out@[k]).0 < (#[trigger] out@[l]).0,
            forall|j: int| 0 <= j < i && plans@[j].plan is Some ==> exists|k: int| 0 <= k < out@.len() && (#[trigger] out@[k]).0 == j,
        decreases plans@.len() - i,
    {
        assert(plans@.take(i + 1).drop_last() =~= plans@.take(i as int));
        if let Some(p) = &plans[i] .plan {
            let ghost before = out@;
            out.push((i, p.duplicate()));
            assert forall|j: int| 0 <= j < i + 1 && plans@[j].plan is Some implies exists|k: int| 0 <= k < out@.len() && (#[trigger] out@[k]).0 == j by {
                if j < i {
                    let k = choose|k: int| 0 <= k < before.len() && (#[trigger] before[k]).0 == j;
                    assert(out@[k] == before[k]);
                } else {
                    assert(out@[out@.len() - 1].0 == j);
                }
            }
        }
        i = i + 1;
    }
    assert(plans@.take(plans@.len() as int) =~= plans@);
    out
}

/// The items without a plan.
pub open spec fn count_unplanned(plans: Seq<PlannedItem>) -> int
    decreases plans.len(),
{
    if plans.len() == 0 {
        0
    } else {
        count_unplanned(plans.drop_last()) + if plans.last().plan is None { 1int } else { 0 }
    }
}

} // verus!

verus! {

/// An item's encode loop ends: the failed attempts are valid attempts other
/// than the current one, so fewer than the plan has; every failure adds
/// one, so there are at most as many failures as attempts.
pub proof fn law_failed_attempts_stay_below_the_plan(run: AttemptRun, attempts: nat)
    requires
        run.consistent(attempts),
    ensures
        run.attempted@.len() < attempts,
{
    let f = |k: usize| k as int;
    let y = run.attempted@.map(f);
    assert(vstd::relations::injective_on(f, run.attempted@));
    vstd::set_lib::lemma_map_size(run.attempted@, y, f);
    let range = vstd::set_lib::set_int_range(0, attempts as int).remove(run.current as int);
    vstd::set_lib::lemma_int_range(0, attempts as int);
    assert(y.subset_of(range)) by {
        assert forall|v: int| #[trigger] y.contains(v) implies range.contains(v) by {
            let k = choose|k: usize| run.attempted@.contains(k) && f(k) == v;
        }
    }
    vstd::set_lib::lemma_len_subset(y, range);
}

} // verus!
