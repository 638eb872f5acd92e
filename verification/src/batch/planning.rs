//! Planning: one encode plan per selected file, resolved before any worker
//! starts, so two workers can never race for the same output name.
use vstd::prelude::*;
use crate::text::{chars_of, chars_eq, push_all, push_str, string_of};
use crate::path_text::{
    file_name, file_name_chars, inside_root, inside_root_chars, join, join_chars, parent,
    parent_chars, with_extension, with_extension_chars,
};
use super::ffmpeg_args::{
    answered, classify_path, flags_view, image_flags, numbered_candidate, opt_view,
    output_extension, output_file_name, resolve_output_path, result_view, spec_classify,
    spec_image_flags, spec_output_extension, spec_output_file_name, spec_temp_output_path, lemma_temp_outputs_differ, output_named_like,
    temp_output_path,
};
use super::video_backend::{
    VideoEncodeAttempt, attempts_follow, resolve_video_encoding, spec_attempt_order,
    spec_resolved_backend,
};
use super::runner::{
    EncodePlan, PlanOutcome, PlannedItem, opt_string_view, sanitize_folder_name,
    spec_sanitize_folder_name,
};
use super::{
    AudioMode, BatchItemState, BatchItemStatus, BatchMediaType, BatchSettings, ConflictPolicy,
    OutputMode, VideoBackend, VideoBackendCapability, VideoCodec,
};

verus! {

/// The attempts of a plan: the video encoding plan of the settings, or the
/// single still-image encode.
pub open spec fn attempts_for(
    media: BatchMediaType,
    settings: BatchSettings,
    ext: Seq<char>,
    caps: Seq<VideoBackendCapability>,
    attempts: Seq<VideoEncodeAttempt>,
    resolved: Option<VideoBackend>,
) -> bool {
    match media {
        BatchMediaType::Video => resolved matches Some(b) && if settings.video.codec
            == VideoCodec::Copy {
            b == VideoBackend::Software && attempts_follow(
                attempts,
                settings.video,
                seq![(VideoBackend::Software, settings.video.audio)],
            )
        } else {
            spec_resolved_backend(settings.video, caps) == Ok::<VideoBackend, Seq<char>>(b)
                && attempts_follow(attempts, settings.video, spec_attempt_order(b, settings.video.audio))
        },
        BatchMediaType::Image => {
            &&& resolved is None
            &&& attempts.len() == 1
            &&& attempts[0].backend == VideoBackend::Software
            &&& attempts[0].audio == AudioMode::Drop
            &&& attempts[0].input_flags@.len() == 0
            &&& spec_image_flags(settings.image, ext) == Ok::<Seq<Seq<char>>, Seq<char>>(
                crate::text::views(attempts[0].output_flags@),
            )
        },
    }
}

/// Why no attempts can be made, if that is so.
pub open spec fn attempts_error(
    media: BatchMediaType,
    settings: BatchSettings,
    ext: Seq<char>,
    caps: Seq<VideoBackendCapability>,
) -> Option<Seq<char>> {
    match media {
        BatchMediaType::Video => if settings.video.codec == VideoCodec::Copy {
            None
        } else {
            match spec_resolved_backend(settings.video, caps) {
                Ok(_) => None,
                Err(e) => Some(e),
            }
        },
        BatchMediaType::Image => match spec_image_flags(settings.image, ext) {
            Ok(_) => None,
            Err(e) => Some(e),
        },
    }
}

pub fn plan_attempts(
    media: BatchMediaType,
    settings: &BatchSettings,
    ext: &str,
    caps: &Vec<VideoBackendCapability>,
) -> (r: Result<(Vec<VideoEncodeAttempt>, Option<VideoBackend>), String>)
    ensures
        match r {
            Ok((a, b)) => attempts_error(media, *settings, ext@, caps@) is None && attempts_for(
                media,
                *settings,
                ext@,
                caps@,
                a@,
                b,
            ),
            Err(e) => attempts_error(media, *settings, ext@, caps@) == Some(e@),
        },
{
    match media {
        BatchMediaType::Video => {
            let video = resolve_video_encoding(&settings.video, caps)?;
            Ok((video.attempts, Some(video.resolved_backend)))
        },
        BatchMediaType::Image => {
            let flags = image_flags(&settings.image, ext)?;
            let mut attempts: Vec<VideoEncodeAttempt> = Vec::new();
            attempts.push(
                VideoEncodeAttempt {
                    backend: VideoBackend::Software,
                    audio: AudioMode::Drop,
                    input_flags: Vec::new(),
                    output_flags: flags,
                },
            );
            Ok((attempts, None))
        },
    }
}

/// Some earlier plan already writes `p`.
pub open spec fn reserved_has(reserved: Seq<String>, p: Seq<char>) -> bool {
    exists|k: int| 0 <= k < reserved.len() && #[trigger] reserved[k]@ == p
}

pub fn contains_path(reserved: &Vec<String>, p: &str) -> (r: bool)
    ensures
        r == reserved_has(reserved@, p@),
{
    let want = chars_of(p);
    let mut i: usize = 0;
    while i < reserved.len()
        invariant
            i <= reserved@.len(),
            want@ == p@,
            forall|k: int| 0 <= k < i ==> #[trigger] reserved@[k]@ != p@,
        decreases reserved@.len() - i,
    {
        let c = chars_of(reserved[i].as_str());
        if chars_eq(c.as_slice(), want.as_slice()) {
            return true;
        }
        i = i + 1;
    }
    false
}

} // verus!

verus! {

/// Where a planned file goes: a path to write (with the other file it
/// overwrites, if any), or a reason to leave the file alone.
#[derive(Debug, Clone)]
pub enum Destination {
    Write { final_output: String, overwritten: Option<String> },
    Skip(String),
}

/// A file is there (`present` said so) or an earlier plan writes it.
pub open spec fn taken<FE: Fn(&str) -> bool>(present: FE, reserved: Seq<String>, p: Seq<char>) -> bool {
    reserved_has(reserved, p) || answered(present, p, true)
}

/// Neither a file (`present` said so) nor an earlier plan holds `p`.
pub open spec fn free<FE: Fn(&str) -> bool>(present: FE, reserved: Seq<String>, p: Seq<char>) -> bool {
    !reserved_has(reserved, p) && answered(present, p, false)
}

pub open spec fn same_output_error(p: Seq<char>) -> Seq<char> {
    "Two selected files resolve to the same output: "@ + p + "."@
}

pub open spec fn free_name_error(source: Seq<char>, dir: Seq<char>) -> Seq<char> {
    "Could not find a free name for "@ + source + " in "@ + dir + "."@
}

pub open spec fn already_converted() -> Seq<char> {
    "A converted file already exists."@
}

fn already_converted_text() -> (r: String)
    ensures
        r@ == already_converted(),
{
    String::from_str("A converted file already exists.")
}

fn same_output_message(p: &str) -> (r: String)
    ensures
        r@ == same_output_error(p@),
{
    let mut m = chars_of("Two selected files resolve to the same output: ");
    push_str(&mut m, p);
    push_str(&mut m, ".");
    string_of(m.as_slice())
}

/// The destination of an in-place replacement (`source` becomes
/// `source` with extension `ext`), for every answer `present` may give.
pub open spec fn replace_destination_ok<FE: Fn(&str) -> bool>(
    r: Result<Destination, String>,
    source: Seq<char>,
    source_dir: Seq<char>,
    ext: Seq<char>,
    policy: ConflictPolicy,
    reserved: Seq<String>,
    present: FE,
) -> bool {
    let requested = with_extension(source, ext);
    if reserved_has(reserved, requested) && policy == ConflictPolicy::Overwrite {
        r matches Err(e) && e@ == same_output_error(requested)
    } else if requested == source && !reserved_has(reserved, requested) {
        r matches Ok(Destination::Write { final_output, overwritten }) && final_output@ == requested
            && overwritten is None
    } else {
        match r {
            Ok(Destination::Write { final_output, overwritten }) => match overwritten {
                None => {
                    ||| (final_output@ == requested && free(present, reserved, requested))
                    ||| {
                        &&& policy == ConflictPolicy::Rename
                        &&& taken(present, reserved, requested)
                        &&& !reserved_has(reserved, final_output@)
                        &&& final_output@ != source
                        &&& output_named_like(final_output@, source, source_dir, ext, None)
                    }
                },
                Some(t) => {
                    &&& policy == ConflictPolicy::Overwrite
                    &&& final_output@ == requested
                    &&& t@ == requested
                    &&& answered(present, requested, true)
                },
            },
            Ok(Destination::Skip(m)) => policy == ConflictPolicy::Skip && taken(
                present,
                reserved,
                requested,
            ) && m@ == already_converted(),
            Err(e) => policy == ConflictPolicy::Rename && taken(present, reserved, requested) && (e@
                == "Could not resolve a replacement name."@ || e@ == free_name_error(
                source,
                source_dir,
            )),
        }
    }
}

pub fn replace_destination<FE: Fn(&str) -> bool>(
    source: &str,
    source_dir: &str,
    ext: &str,
    policy: ConflictPolicy,
    reserved: &Vec<String>,
    present: &FE,
) -> (r: Result<Destination, String>)
    requires
        forall|x: &str| #[trigger] call_requires(*present, (x,)),
    ensures
        replace_destination_ok(r, source@, source_dir@, ext@, policy, reserved@, *present),
{
    let src = chars_of(source);
    let e = chars_of(ext);
    let req = with_extension_chars(src.as_slice(), e.as_slice());
    let requested = string_of(req.as_slice());
    let reserved_collision = contains_path(reserved, requested.as_str());
    if reserved_collision && policy == ConflictPolicy::Overwrite {
        return Err(same_output_message(requested.as_str()));
    }
    if !reserved_collision && chars_eq(req.as_slice(), src.as_slice()) {
        return Ok(Destination::Write { final_output: requested, overwritten: None });
    }
    let occupied = if reserved_collision {
        true
    } else {
        let there = present(requested.as_str());
        assert(answered(*present, requested@, there));
        there
    };
    if !occupied {
        return Ok(Destination::Write { final_output: requested, overwritten: None });
    }
    match policy {
        ConflictPolicy::Skip => Ok(Destination::Skip(String::from_str("A converted file already exists."))),
        ConflictPolicy::Overwrite => {
            let t = requested.clone();
            Ok(Destination::Write { final_output: requested, overwritten: Some(t) })
        },
        ConflictPolicy::Rename => {
            let occ = |c: &str| -> (b: bool)
                requires
                    forall|x: &str| #[trigger] call_requires(*present, (x,)),
                ensures
                    b ==> taken(*present, reserved@, c@),
                    !b ==> free(*present, reserved@, c@),
                {
                    let there = present(c);
                    there || contains_path(reserved, c)
                };
            let resolved = resolve_output_path(source, source_dir, ext, None, ConflictPolicy::Rename, &occ)?;
            match resolved {
                Some(p) => {
                    Ok(Destination::Write { final_output: p, overwritten: None })
                },
                None => Err(String::from_str("Could not resolve a replacement name.")),
            }
        },
    }
}

} // verus!

verus! {

/// `create_dir` answered `res` when asked to create `dir`.
pub open spec fn dir_answer<FC: Fn(&str) -> Result<(), String>>(
    create_dir: FC,
    dir: Seq<char>,
    res: Result<(), String>,
) -> bool {
    exists|x: &str| #[trigger] call_ensures(create_dir, (x,), res) && x@ == dir
}

pub open spec fn already_in_output() -> Seq<char> {
    "Already in the output folder — skipped so it is not re-compressed."@
}

/// The destination of a conversion into the folder `dest`, for every
/// answer `present` and `create_dir` may give.
pub open spec fn folder_destination_ok<FE: Fn(&str) -> bool, FC: Fn(&str) -> Result<(), String>>(
    r: Result<Destination, String>,
    source: Seq<char>,
    dest: Seq<char>,
    ext: Seq<char>,
    suffix: Option<Seq<char>>,
    policy: ConflictPolicy,
    reserved: Seq<String>,
    present: FE,
    create_dir: FC,
) -> bool {
    let first = join(dest, spec_output_file_name(source, ext, suffix));
    if inside_root(dest, source) {
        r matches Ok(Destination::Skip(m)) && m@ == already_in_output()
    } else {
        match r {
            Err(e) => {
                ||| exists|ce: String|
                    dir_answer(create_dir, dest, Err(ce)) && e@ == "Cannot create "@ + dest + ": "@
                        + #[trigger] ce@
                ||| {
                    &&& dir_answer(create_dir, dest, Ok(()))
                    &&& policy == ConflictPolicy::Overwrite
                    &&& reserved_has(reserved, first)
                    &&& e@ == same_output_error(first)
                }
                ||| {
                    &&& dir_answer(create_dir, dest, Ok(()))
                    &&& !(policy == ConflictPolicy::Overwrite && reserved_has(reserved, first))
                    &&& e@ == free_name_error(source, dest)
                }
            },
            Ok(Destination::Write { final_output, overwritten }) => {
                &&& dir_answer(create_dir, dest, Ok(()))
                &&& !(policy == ConflictPolicy::Overwrite && reserved_has(reserved, first))
                &&& overwritten is None
                &&& final_output@ != source
                &&& !reserved_has(reserved, final_output@)
                &&& output_named_like(final_output@, source, dest, ext, suffix)
            },
            Ok(Destination::Skip(m)) => {
                &&& dir_answer(create_dir, dest, Ok(()))
                &&& policy == ConflictPolicy::Skip
                &&& taken(present, reserved, first)
                &&& m@ == already_converted()
            },
        }
    }
}

pub fn folder_destination<FE: Fn(&str) -> bool, FC: Fn(&str) -> Result<(), String>>(
    source: &str,
    dest: &str,
    ext: &str,
    suffix: Option<&str>,
    policy: ConflictPolicy,
    reserved: &Vec<String>,
    present: &FE,
    create_dir: &FC,
) -> (r: Result<Destination, String>)
    requires
        forall|x: &str| #[trigger] call_requires(*present, (x,)),
        forall|x: &str| #[trigger] call_requires(*create_dir, (x,)),
    ensures
        folder_destination_ok(
            r,
            source@,
            dest@,
            ext@,
            opt_view(suffix),
            policy,
            reserved@,
            *present,
            *create_dir,
        ),
{
    let src = chars_of(source);
    let d = chars_of(dest);
    if inside_root_chars(d.as_slice(), src.as_slice()) {
        return Ok(
            Destination::Skip(
                String::from_str("Already in the output folder — skipped so it is not re-compressed."),
            ),
        );
    }
    let made = create_dir(dest);
    assert(call_ensures(*create_dir, (dest,), made));
    match &made {
        Ok(u) => {
            assert(made == Ok::<(), String>(*u));
            assert(dir_answer(*create_dir, dest@, Ok(())));
        },
        Err(ce) => {
            let mut m = chars_of("Cannot create ");
            push_str(&mut m, dest);
            push_str(&mut m, ": ");
            push_str(&mut m, ce.as_str());
            let msg = string_of(m.as_slice());
            assert(dir_answer(*create_dir, dest@, Err(*ce)));
            return Err(msg);
        },
    }
    let name = output_file_name(source, ext, suffix);
    let n = chars_of(name.as_str());
    let f = join_chars(d.as_slice(), n.as_slice());
    let first = string_of(f.as_slice());
    let collides = contains_path(reserved, first.as_str());
    if policy == ConflictPolicy::Overwrite && collides {
        return Err(same_output_message(first.as_str()));
    }
    let occ = |c: &str| -> (b: bool)
        requires
            forall|x: &str| #[trigger] call_requires(*present, (x,)),
        ensures
            b ==> taken(*present, reserved@, c@),
            !b ==> free(*present, reserved@, c@),
        {
            let there = present(c);
            there || contains_path(reserved, c)
        };
    let resolved = resolve_output_path(source, dest, ext, suffix, policy, &occ);
    proof {
        assert forall|q: Seq<char>| answered(occ, q, false) implies free(*present, reserved@, q) by {
            let x = choose|x: &str| #[trigger] call_ensures(occ, (x,), false) && x@ == q;
        }
        assert forall|q: Seq<char>| answered(occ, q, true) implies taken(*present, reserved@, q) by {
            let x = choose|x: &str| #[trigger] call_ensures(occ, (x,), true) && x@ == q;
        }
    }
    match resolved {
        Ok(Some(p)) => {
            Ok(Destination::Write { final_output: p, overwritten: None })
        },
        Ok(None) => {
            Ok(Destination::Skip(already_converted_text()))
        },
        Err(e) => {
            Err(e)
        },
    }
}

} // verus!

verus! {

/// The folder a non-destructive run writes into.
pub open spec fn destination_dir(settings: BatchSettings, source_dir: Seq<char>) -> Seq<char> {
    match settings.output {
        OutputMode::Subfolder { name } => join(source_dir, spec_sanitize_folder_name(name@)),
        OutputMode::CustomFolder { path } => path@,
        OutputMode::ReplaceOriginal { .. } => source_dir,
    }
}

pub open spec fn not_confirmed_error() -> Seq<char> {
    "Replacing originals was not confirmed. Re-open the confirmation dialog."@
}

/// The destination a plan outcome stands for.
pub open spec fn destination_of(r: Result<PlanOutcome, String>) -> Result<Destination, String> {
    match r {
        Ok(PlanOutcome::Work(plan)) => Ok(
            Destination::Write {
                final_output: plan.final_output,
                overwritten: plan.overwritten_target,
            },
        ),
        Ok(PlanOutcome::Skip(m)) => Ok(Destination::Skip(m)),
        Err(e) => Err(e),
    }
}

/// A work plan for `source`: its attempts, its temp file beside the final
/// output, and whether it replaces the original.
pub open spec fn plan_fields_ok(
    plan: EncodePlan,
    source: Seq<char>,
    media: BatchMediaType,
    settings: BatchSettings,
    ext: Seq<char>,
    index: nat,
    caps: Seq<VideoBackendCapability>,
) -> bool {
    &&& plan.input@ == source
    &&& plan.temp_output@ == spec_temp_output_path(plan.final_output@, index)
    &&& attempts_for(media, settings, ext, caps, plan.attempts@, plan.resolved_backend)
    &&& plan.media_type == media
    &&& match settings.output {
        OutputMode::ReplaceOriginal { backup, .. } => plan.replace_original && plan.backup == backup,
        _ => !plan.replace_original && !plan.backup,
    }
}

/// What planning one file gives, for every answer of the file system.
pub open spec fn build_plan_ok<FE: Fn(&str) -> bool, FC: Fn(&str) -> Result<(), String>>(
    r: Result<PlanOutcome, String>,
    source: Seq<char>,
    media: BatchMediaType,
    settings: BatchSettings,
    index: nat,
    reserved: Seq<String>,
    caps: Seq<VideoBackendCapability>,
    present: FE,
    create_dir: FC,
) -> bool {
    match spec_output_extension(media, settings, source) {
        Err(e) => r matches Err(m) && m@ == e,
        Ok(ext) => match attempts_error(media, settings, ext, caps) {
            Some(e) => r matches Err(m) && m@ == e,
            None => match parent(source) {
                None => r matches Err(m) && m@ == "File has no parent folder."@,
                Some(source_dir) => {
                    &&& (r matches Ok(PlanOutcome::Work(plan)) ==> plan_fields_ok(
                        plan,
                        source,
                        media,
                        settings,
                        ext,
                        index,
                        caps,
                    ))
                    &&& match settings.output {
                        OutputMode::ReplaceOriginal { confirmed, .. } => if !confirmed {
                            r matches Err(m) && m@ == not_confirmed_error()
                        } else {
                            replace_destination_ok(
                                destination_of(r),
                                source,
                                source_dir,
                                ext,
                                settings.on_conflict,
                                reserved,
                                present,
                            )
                        },
                        _ => folder_destination_ok(
                            destination_of(r),
                            source,
                            destination_dir(settings, source_dir),
                            ext,
                            opt_string_view(settings.name_suffix),
                            settings.on_conflict,
                            reserved,
                            present,
                            create_dir,
                        ),
                    }
                },
            },
        },
    }
}

pub fn build_plan<FE: Fn(&str) -> bool, FC: Fn(&str) -> Result<(), String>>(
    source: &str,
    media_type: BatchMediaType,
    settings: &BatchSettings,
    index: usize,
    reserved: &Vec<String>,
    video_backends: &Vec<VideoBackendCapability>,
    present: &FE,
    create_dir: &FC,
) -> (r: Result<PlanOutcome, String>)
    requires
        forall|x: &str| #[trigger] call_requires(*present, (x,)),
        forall|x: &str| #[trigger] call_requires(*create_dir, (x,)),
    ensures
        build_plan_ok(
            r,
            source@,
            media_type,
            *settings,
            index as nat,
            reserved@,
            video_backends@,
            *present,
            *create_dir,
        ),
{
    let ext = output_extension(media_type, settings, source)?;
    let (attempts, resolved_backend) = plan_attempts(media_type, settings, ext.as_str(), video_backends)?;
    let src = chars_of(source);
    let source_dir = match parent_chars(src.as_slice()) {
        Some(d) => string_of(d.as_slice()),
        None => {
            return Err(String::from_str("File has no parent folder."));
        },
    };
    let (dest, replace_original, backup) = match &settings.output {
        OutputMode::ReplaceOriginal { backup, confirmed } => {
            if !*confirmed {
                return Err(
                    String::from_str(
                        "Replacing originals was not confirmed. Re-open the confirmation dialog.",
                    ),
                );
            }
            (
                replace_destination(
                    source,
                    source_dir.as_str(),
                    ext.as_str(),
                    settings.on_conflict,
                    reserved,
                    present,
                ),
                true,
                *backup,
            )
        },
        OutputMode::Subfolder { name } => {
            let sub = sanitize_folder_name(name.as_str());
            let sd = chars_of(source_dir.as_str());
            let sb = chars_of(sub.as_str());
            let dir = join_chars(sd.as_slice(), sb.as_slice());
            let dest_dir = string_of(dir.as_slice());
            let suffix = match &settings.name_suffix {
                Some(x) => Some(x.as_str()),
                None => None,
            };
            (
                folder_destination(
                    source,
                    dest_dir.as_str(),
                    ext.as_str(),
                    suffix,
                    settings.on_conflict,
                    reserved,
                    present,
                    create_dir,
                ),
                false,
                false,
            )
        },
        OutputMode::CustomFolder { path } => {
            let suffix = match &settings.name_suffix {
                Some(x) => Some(x.as_str()),
                None => None,
            };
            (
                folder_destination(
                    source,
                    path.as_str(),
                    ext.as_str(),
                    suffix,
                    settings.on_conflict,
                    reserved,
                    present,
                    create_dir,
                ),
                false,
                false,
            )
        },
    };
    match dest {
        Err(e) => Err(e),
        Ok(Destination::Skip(m)) => Ok(PlanOutcome::Skip(m)),
        Ok(Destination::Write { final_output, overwritten }) => {
            let temp_output = temp_output_path(final_output.as_str(), index);
            Ok(
                PlanOutcome::Work(
                    EncodePlan {
                        input: String::from_str(source),
                        temp_output,
                        final_output,
                        attempts,
                        resolved_backend,
                        media_type,
                        replace_original,
                        backup,
                        overwritten_target: overwritten,
                    },
                ),
            )
        },
    }
}

} // verus!

verus! {

/// The name shown for a file: its file name, or the whole path when it has
/// none.
pub open spec fn display_name(p: Seq<char>) -> Seq<char> {
    if file_name(p).len() == 0 {
        p
    } else {
        file_name(p)
    }
}

/// The outputs of the work plans among `planned`, in order.
pub open spec fn reserved_of(planned: Seq<PlannedItem>) -> Seq<String>
    decreases planned.len(),
{
    if planned.len() == 0 {
        Seq::empty()
    } else {
        let rest = reserved_of(planned.drop_last());
        match planned.last().plan {
            Some(p) => rest.push(p.final_output),
            None => rest,
        }
    }
}

/// The planning outcome an item stands for.
pub open spec fn item_outcome(item: PlannedItem) -> Result<PlanOutcome, String> {
    match item.plan {
        Some(p) => Ok(PlanOutcome::Work(p)),
        None => if item.status.state == BatchItemState::Skipped {
            Ok(PlanOutcome::Skip(item.status.error.unwrap()))
        } else {
            Err(item.status.error.unwrap())
        },
    }
}

/// The item's status shows its outcome: pending with its output when there
/// is work, skipped or failed with the reason otherwise.
pub open spec fn item_shows_outcome(item: PlannedItem) -> bool {
    match item.plan {
        Some(p) => {
            &&& item.status.state == BatchItemState::Pending
            &&& item.status.error is None
            &&& item.status.output_path == Some(p.final_output)
        },
        None => {
            &&& item.status.output_path is None
            &&& item.status.error is Some
            &&& (item.status.state == BatchItemState::Skipped || item.status.state
                == BatchItemState::Failed)
        },
    }
}

/// `f` answered `v` for the path `p`.
pub open spec fn answered_value<V, F: Fn(&str) -> V>(f: F, p: Seq<char>, v: V) -> bool {
    exists|x: &str| #[trigger] call_ensures(f, (x,), v) && x@ == p
}

/// What planning gives for the file `path` at `index`, after the items
/// planned before it reserved the outputs `reserved`.
pub open spec fn planned_item_ok<
    FI: Fn(&str) -> bool,
    FS: Fn(&str) -> u64,
    FE: Fn(&str) -> bool,
    FC: Fn(&str) -> Result<(), String>,
>(
    item: PlannedItem,
    path: Seq<char>,
    index: nat,
    settings: BatchSettings,
    caps: Seq<VideoBackendCapability>,
    reserved: Seq<String>,
    is_file: FI,
    file_size: FS,
    present: FE,
    create_dir: FC,
) -> bool {
    let media = spec_classify(path);
    &&& item.status.id@ == path
    &&& item.status.source_path@ == path
    &&& item.status.file_name@ == display_name(path)
    &&& item.status.media_type == match media {
        Some(m) => m,
        None => BatchMediaType::Image,
    }
    &&& item.status.progress_permille == 0
    &&& item.status.size_after is None
    &&& item.status.encoder_backend is None
    &&& item.status.fallback_reason is None
    &&& answered_value(file_size, path, item.status.size_before)
    &&& item_shows_outcome(item)
    &&& match media {
        None => item.plan is None && item.status.state == BatchItemState::Failed
            && item.status.error.unwrap()@ == "Unsupported file type."@,
        Some(m) => {
            ||| {
                &&& answered_value(is_file, path, false)
                &&& item.plan is None
                &&& item.status.state == BatchItemState::Failed
                &&& item.status.error.unwrap()@ == "File not found."@
            }
            ||| {
                &&& answered_value(is_file, path, true)
                &&& build_plan_ok(
                    item_outcome(item),
                    path,
                    m,
                    settings,
                    index,
                    reserved,
                    caps,
                    present,
                    create_dir,
                )
            }
        },
    }
}

/// A work plan never writes where an earlier plan writes, and its temp
/// output is named after its index.
pub proof fn lemma_work_output_is_fresh<FE: Fn(&str) -> bool, FC: Fn(&str) -> Result<(), String>>(
    plan: EncodePlan,
    source: Seq<char>,
    media: BatchMediaType,
    settings: BatchSettings,
    index: nat,
    reserved: Seq<String>,
    caps: Seq<VideoBackendCapability>,
    present: FE,
    create_dir: FC,
)
    requires
        build_plan_ok(
            Ok(PlanOutcome::Work(plan)),
            source,
            media,
            settings,
            index,
            reserved,
            caps,
            present,
            create_dir,
        ),
    ensures
        !reserved_has(reserved, plan.final_output@),
        plan.temp_output@ == spec_temp_output_path(plan.final_output@, index),
{
}

fn display_name_of(path: &str) -> (r: String)
    ensures
        r@ == display_name(path@),
{
    let p = chars_of(path);
    let n = file_name_chars(p.as_slice());
    if n.len() == 0 {
        String::from_str(path)
    } else {
        string_of(n.as_slice())
    }
}

/// Builds the work list: one item per path, in order. Unsupported or
/// missing files come back already failed, and a file that is not worth
/// converting comes back skipped, instead of stopping the whole job.
///
/// `is_file`, `file_size`, `present` and `create_dir` are the file system:
/// whether a path is a file, its size (0 when unknown), whether a path is
/// taken, and creating a folder with its parents.
pub fn plan_items_with_capabilities<
    FI: Fn(&str) -> bool,
    FS: Fn(&str) -> u64,
    FE: Fn(&str) -> bool,
    FC: Fn(&str) -> Result<(), String>,
>(
    paths: &Vec<String>,
    settings: &BatchSettings,
    video_backends: &Vec<VideoBackendCapability>,
    is_file: &FI,
    file_size: &FS,
    present: &FE,
    create_dir: &FC,
) -> (r: Vec<PlannedItem>)
    requires
        forall|x: &str| #[trigger] call_requires(*is_file, (x,)),
        forall|x: &str| #[trigger] call_requires(*file_size, (x,)),
        forall|x: &str| #[trigger] call_requires(*present, (x,)),
        forall|x: &str| #[trigger] call_requires(*create_dir, (x,)),
    ensures
        r@.len() == paths@.len(),
        forall|i: int|
            0 <= i < paths@.len() ==> planned_item_ok(
                #[trigger] r@[i],
                paths@[i]@,
                i as nat,
                *settings,
                video_backends@,
                reserved_of(r@.take(i)),
                *is_file,
                *file_size,
                *present,
                *create_dir,
            ),
        forall|i: int, j: int|
            0 <= i < j < paths@.len() && r@[i].plan is Some && r@[j].plan is Some ==> (
            #[trigger] r@[i].plan.unwrap().final_output@ != #[trigger] r@[j].plan.unwrap().final_output@),
        forall|i: int, j: int|
            0 <= i < j < paths@.len() && r@[i].plan is Some && r@[j].plan is Some ==> (
            #[trigger] r@[i].plan.unwrap().temp_output@ != #[trigger] r@[j].plan.unwrap().temp_output@),
{
    let mut reserved: Vec<String> = Vec::new();
    let mut planned: Vec<PlannedItem> = Vec::new();
    let mut index: usize = 0;
    while index < paths.len()
        invariant
            index <= paths@.len(),
            planned@.len() == index,
            reserved@ == reserved_of(planned@),
            forall|x: &str| #[trigger] call_requires(*is_file, (x,)),
            forall|x: &str| #[trigger] call_requires(*file_size, (x,)),
            forall|x: &str| #[trigger] call_requires(*present, (x,)),
            forall|x: &str| #[trigger] call_requires(*create_dir, (x,)),
            forall|i: int|
                0 <= i < index ==> planned_item_ok(
                    #[trigger] planned@[i],
                    paths@[i]@,
                    i as nat,
                    *settings,
                    video_backends@,
                    reserved_of(planned@.take(i)),
                    *is_file,
                    *file_size,
                    *present,
                    *create_dir,
                ),
        decreases paths@.len() - index,
    {
        let raw = paths[index].as_str();
        let file_name = display_name_of(raw);
        let media_type = classify_path(raw);
        let size_before = file_size(raw);
        assert(answered_value(*file_size, raw@, size_before));
        let mut status = BatchItemStatus {
            id: String::from_str(raw),
            source_path: String::from_str(raw),
            file_name,
            media_type: match media_type {
                Some(m) => m,
                None => BatchMediaType::Image,
            },
            state: BatchItemState::Pending,
            progress_permille: 0,
            size_before,
            size_after: None,
            output_path: None,
            error: None,
            encoder_backend: None,
            fallback_reason: None,
        };
        let ghost before = planned@;
        let item = match media_type {
            None => {
                status.state = BatchItemState::Failed;
                status.error = Some(String::from_str("Unsupported file type."));
                PlannedItem { status, plan: None }
            },
            Some(media) => {
                let file_there = is_file(raw);
                assert(answered_value(*is_file, raw@, file_there));
                if !file_there {
                    status.state = BatchItemState::Failed;
                    status.error = Some(String::from_str("File not found."));
                    PlannedItem { status, plan: None }
                } else {
                    let outcome = build_plan(
                        raw,
                        media,
                        settings,
                        index,
                        &reserved,
                        video_backends,
                        present,
                        create_dir,
                    );
                    match outcome {
                        Ok(PlanOutcome::Work(plan)) => {
                            let out = plan.final_output.clone();
                            status.output_path = Some(plan.final_output.clone());
                            reserved.push(out);
                            PlannedItem { status, plan: Some(plan) }
                        },
                        Ok(PlanOutcome::Skip(reason)) => {
                            status.state = BatchItemState::Skipped;
                            status.error = Some(reason);
                            PlannedItem { status, plan: None }
                        },
                        Err(error) => {
                            status.state = BatchItemState::Failed;
                            status.error = Some(error);
                            PlannedItem { status, plan: None }
                        },
                    }
                }
            },
        };
        planned.push(item);
        proof {
            assert(planned@.drop_last() =~= before);
            assert(planned@.take(index as int) =~= before);
            assert forall|i: int| 0 <= i < index + 1 implies planned_item_ok(
                #[trigger] planned@[i],
                paths@[i]@,
                i as nat,
                *settings,
                video_backends@,
                reserved_of(planned@.take(i)),
                *is_file,
                *file_size,
                *present,
                *create_dir,
            ) by {
                if i < index {
                    assert(planned@[i] == before[i]);
                    assert(planned@.take(i) =~= before.take(i));
                }
            }
        }
        index = index + 1;
    }
    proof {
        lemma_outputs_distinct(planned@, paths@, *settings, video_backends@, *is_file, *file_size, *present, *create_dir);
    }
    planned
}

/// Reserved outputs are exactly the outputs of earlier work plans.
pub proof fn lemma_reserved_of(planned: Seq<PlannedItem>, i: int, j: int)
    requires
        0 <= i < j <= planned.len(),
        planned[i].plan is Some,
    ensures
        reserved_has(reserved_of(planned.take(j)), planned[i].plan.unwrap().final_output@),
    decreases j,
{
    let t = planned.take(j);
    assert(t.drop_last() =~= planned.take(j - 1));
    if i == j - 1 {
        let r = reserved_of(t);
        assert(r.last() == planned[i].plan.unwrap().final_output);
        assert(r[r.len() - 1]@ == planned[i].plan.unwrap().final_output@);
    } else {
        lemma_reserved_of(planned, i, j - 1);
        let r0 = reserved_of(planned.take(j - 1));
        let k = choose|k: int| 0 <= k < r0.len() && #[trigger] r0[k]@ == planned[i].plan.unwrap().final_output@;
        let r = reserved_of(t);
        assert(r[k] == r0[k]);
    }
}

/// Two work plans never share an output, nor a temp output.
pub proof fn lemma_outputs_distinct<
    FI: Fn(&str) -> bool,
    FS: Fn(&str) -> u64,
    FE: Fn(&str) -> bool,
    FC: Fn(&str) -> Result<(), String>,
>(
    planned: Seq<PlannedItem>,
    paths: Seq<String>,
    settings: BatchSettings,
    caps: Seq<VideoBackendCapability>,
    is_file: FI,
    file_size: FS,
    present: FE,
    create_dir: FC,
)
    requires
        planned.len() == paths.len(),
        forall|i: int|
            0 <= i < paths.len() ==> planned_item_ok(
                #[trigger] planned[i],
                paths[i]@,
                i as nat,
                settings,
                caps,
                reserved_of(planned.take(i)),
                is_file,
                file_size,
                present,
                create_dir,
            ),
    ensures
        forall|i: int, j: int|
            0 <= i < j < paths.len() && planned[i].plan is Some && planned[j].plan is Some ==> (
            #[trigger] planned[i].plan.unwrap().final_output@
                != #[trigger] planned[j].plan.unwrap().final_output@),
        forall|i: int, j: int|
            0 <= i < j < paths.len() && planned[i].plan is Some && planned[j].plan is Some ==> (
            #[trigger] planned[i].plan.unwrap().temp_output@
                != #[trigger] planned[j].plan.unwrap().temp_output@),
{
    assert forall|i: int, j: int|
        0 <= i < j < paths.len() && planned[i].plan is Some && planned[j].plan is Some implies (
        #[trigger] planned[i].plan.unwrap().final_output@
            != #[trigger] planned[j].plan.unwrap().final_output@) by {
        assert(planned_item_ok(
            planned[j],
            paths[j]@,
            j as nat,
            settings,
            caps,
            reserved_of(planned.take(j)),
            is_file,
            file_size,
            present,
            create_dir,
        ));
        let m = spec_classify(paths[j]@).unwrap();
        lemma_work_output_is_fresh(
            planned[j].plan.unwrap(),
            paths[j]@,
            m,
            settings,
            j as nat,
            reserved_of(planned.take(j)),
            caps,
            present,
            create_dir,
        );
        lemma_reserved_of(planned, i, j);
    }
    assert forall|i: int, j: int|
        0 <= i < j < paths.len() && planned[i].plan is Some && planned[j].plan is Some implies (
        #[trigger] planned[i].plan.unwrap().temp_output@
            != #[trigger] planned[j].plan.unwrap().temp_output@) by {
        assert(planned_item_ok(
            planned[i],
            paths[i]@,
            i as nat,
            settings,
            caps,
            reserved_of(planned.take(i)),
            is_file,
            file_size,
            present,
            create_dir,
        ));
        assert(planned_item_ok(
            planned[j],
            paths[j]@,
            j as nat,
            settings,
            caps,
            reserved_of(planned.take(j)),
            is_file,
            file_size,
            present,
            create_dir,
        ));
        lemma_work_output_is_fresh(
            planned[i].plan.unwrap(),
            paths[i]@,
            spec_classify(paths[i]@).unwrap(),
            settings,
            i as nat,
            reserved_of(planned.take(i)),
            caps,
            present,
            create_dir,
        );
        lemma_work_output_is_fresh(
            planned[j].plan.unwrap(),
            paths[j]@,
            spec_classify(paths[j]@).unwrap(),
            settings,
            j as nat,
            reserved_of(planned.take(j)),
            caps,
            present,
            create_dir,
        );
        lemma_temp_outputs_differ(
            planned[i].plan.unwrap().final_output@,
            planned[j].plan.unwrap().final_output@,
            i as nat,
            j as nat,
        );
    }
}

/// `plan_items_with_capabilities` with only the software encoder.
pub fn plan_items<
    FI: Fn(&str) -> bool,
    FS: Fn(&str) -> u64,
    FE: Fn(&str) -> bool,
    FC: Fn(&str) -> Result<(), String>,
>(
    paths: &Vec<String>,
    settings: &BatchSettings,
    is_file: &FI,
    file_size: &FS,
    present: &FE,
    create_dir: &FC,
) -> (r: Vec<PlannedItem>)
    requires
        forall|x: &str| #[trigger] call_requires(*is_file, (x,)),
        forall|x: &str| #[trigger] call_requires(*file_size, (x,)),
        forall|x: &str| #[trigger] call_requires(*present, (x,)),
        forall|x: &str| #[trigger] call_requires(*create_dir, (x,)),
    ensures
        r@.len() == paths@.len(),
        exists|caps: Seq<VideoBackendCapability>|
            {
                &&& caps.len() == 1
                &&& caps[0].backend == VideoBackend::Software
                &&& caps[0].codecs@ == seq![VideoCodec::H264, VideoCodec::H265, VideoCodec::Av1]
                &&& caps[0].available
                &&& caps[0].reason is None
                &&& forall|i: int|
                    0 <= i < paths@.len() ==> planned_item_ok(
                        #[trigger] r@[i],
                        paths@[i]@,
                        i as nat,
                        *settings,
                        caps,
                        reserved_of(r@.take(i)),
                        *is_file,
                        *file_size,
                        *present,
                        *create_dir,
                    )
            },
{
    let mut caps: Vec<VideoBackendCapability> = Vec::new();
    caps.push(super::video_backend::software_capability());
    let r = plan_items_with_capabilities(paths, settings, &caps, is_file, file_size, present, create_dir);
    assert(caps@[0].codecs@ == seq![VideoCodec::H264, VideoCodec::H265, VideoCodec::Av1]);
    r
}

} // verus!
