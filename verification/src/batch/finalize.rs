//! Putting a converted file in place of its original.
//!
//! The original is moved aside, never deleted outright: until the converted
//! file is in place there has to be a copy on disk to put back. The work is
//! a script of file operations, each with what to undo when it fails; the
//! file system itself is outside.
use vstd::prelude::*;
use crate::text::{chars_of, push_str, string_of};
use crate::path_text::{parent, parent_chars};
use super::runner::{
    EncodePlan, backup_path_for, displaced_path_for, spec_backup_path, spec_displaced_path,
};
use super::runner::{opt_string_view, savings_rejection, spec_savings_rejection};
use super::{BatchMediaType, BatchReplacement, BatchSettings};

verus! {

/// One file operation.
#[derive(Debug, Clone)]
pub enum FsOp {
    /// Create a folder and its parents.
    CreateDirAll(String),
    /// Copy a file, keeping its timestamps.
    Copy { from: String, to: String },
    /// Rename (move) a file.
    Rename { from: String, to: String },
    /// Remove a file.
    Remove(String),
}

/// A file operation in terms of paths.
pub enum FsAct {
    Mkdir(Seq<char>),
    Copy(Seq<char>, Seq<char>),
    Move(Seq<char>, Seq<char>),
    Delete(Seq<char>),
}

pub open spec fn act(op: FsOp) -> FsAct {
    match op {
        FsOp::CreateDirAll(d) => FsAct::Mkdir(d@),
        FsOp::Copy { from, to } => FsAct::Copy(from@, to@),
        FsOp::Rename { from, to } => FsAct::Move(from@, to@),
        FsOp::Remove(p) => FsAct::Delete(p@),
    }
}

pub open spec fn acts(ops: Seq<FsOp>) -> Seq<FsAct> {
    ops.map_values(|o: FsOp| act(o))
}

/// One step of a replacement: the operation, the text its error is
/// prefixed with, and what to undo when it fails.
#[derive(Debug, Clone)]
pub struct ReplaceStep {
    pub op: FsOp,
    pub error_prefix: String,
    pub undo: Vec<FsOp>,
}

/// The steps of a replacement, what to clean up once they all succeeded,
/// and the undo records to keep.
#[derive(Debug, Clone)]
pub struct ReplacementScript {
    pub steps: Vec<ReplaceStep>,
    pub cleanup: Vec<FsOp>,
    pub replacements: Vec<BatchReplacement>,
}

pub open spec fn step_view(s: ReplaceStep) -> (FsAct, Seq<char>, Seq<FsAct>) {
    (act(s.op), s.error_prefix@, acts(s.undo@))
}

pub open spec fn steps_view(s: Seq<ReplaceStep>) -> Seq<(FsAct, Seq<char>, Seq<FsAct>)> {
    s.map_values(|x: ReplaceStep| step_view(x))
}

pub open spec fn opt_seq(o: Option<String>) -> Option<Seq<char>> {
    match o {
        Some(s) => Some(s@),
        None => None,
    }
}

pub open spec fn delete_if(p: Option<Seq<char>>) -> Seq<FsAct> {
    match p {
        Some(x) => seq![FsAct::Delete(x)],
        None => Seq::empty(),
    }
}

/// Creating the parent folder of `p`, when it has one.
pub open spec fn mkdir_step(p: Seq<char>, prefix: Seq<char>, undo: Seq<FsAct>) -> Seq<(FsAct, Seq<char>, Seq<FsAct>)> {
    match parent(p) {
        Some(d) => seq![(FsAct::Mkdir(d), prefix, undo)],
        None => Seq::empty(),
    }
}

/// The replacement of `input` by `temp` written as `final_path`, with a
/// backup of the original at `backup` (when asked), a backup of the file
/// being overwritten at `target_backup` (when there is one), and the
/// original and the target moved aside to `displaced` and
/// `displaced_target` until the converted file is in place.
/// Backing up the original, when asked.
pub open spec fn backup_steps(input: Seq<char>, backup: Option<Seq<char>>) -> Seq<(FsAct, Seq<char>, Seq<FsAct>)> {
    match backup {
        Some(b) => mkdir_step(b, "Cannot create backup folder: "@, Seq::empty()) + seq![
            (FsAct::Copy(input, b), "Could not back up the original: "@, Seq::empty()),
        ],
        None => Seq::empty(),
    }
}

/// Backing up the file that the converted one overwrites, when there is one.
pub open spec fn target_backup_steps(
    target: Option<Seq<char>>,
    target_backup: Option<Seq<char>>,
    rm_b: Seq<FsAct>,
) -> Seq<(FsAct, Seq<char>, Seq<FsAct>)> {
    match (target, target_backup) {
        (Some(t), Some(x)) => mkdir_step(x, "Cannot create target backup folder: "@, rm_b) + seq![
            (FsAct::Copy(t, x), "Could not back up the existing output: "@, rm_b),
        ],
        _ => Seq::empty(),
    }
}

/// Moving the overwritten file aside, when there is one.
pub open spec fn move_target_steps(
    input: Seq<char>,
    temp: Seq<char>,
    target: Option<Seq<char>>,
    displaced: Seq<char>,
    displaced_target: Option<Seq<char>>,
    rm: Seq<FsAct>,
) -> Seq<(FsAct, Seq<char>, Seq<FsAct>)> {
    match (target, displaced_target) {
        (Some(t), Some(d)) => seq![
            (
                FsAct::Move(t, d),
                "Could not move the existing output aside: "@,
                seq![FsAct::Move(displaced, input), FsAct::Delete(temp)] + rm,
            ),
        ],
        _ => Seq::empty(),
    }
}

pub open spec fn restore_target(target: Option<Seq<char>>, displaced_target: Option<Seq<char>>) -> Seq<FsAct> {
    match (target, displaced_target) {
        (Some(t), Some(d)) => seq![FsAct::Move(d, t)],
        _ => Seq::empty(),
    }
}

/// The replacement of `input` by `temp` written as `final_path`, with a
/// backup of the original at `backup` (when asked), a backup of the file
/// being overwritten at `target_backup` (when there is one), and the
/// original and the target moved aside to `displaced` and
/// `displaced_target` until the converted file is in place.
pub open spec fn spec_steps(
    input: Seq<char>,
    temp: Seq<char>,
    final_path: Seq<char>,
    target: Option<Seq<char>>,
    backup: Option<Seq<char>>,
    target_backup: Option<Seq<char>>,
    displaced: Seq<char>,
    displaced_target: Option<Seq<char>>,
) -> Seq<(FsAct, Seq<char>, Seq<FsAct>)> {
    let rm = delete_if(backup) + delete_if(target_backup);
    backup_steps(input, backup) + target_backup_steps(target, target_backup, delete_if(backup)) + seq![
        (
            FsAct::Move(input, displaced),
            "Could not move the original aside: "@,
            seq![FsAct::Delete(temp)] + rm,
        ),
    ] + move_target_steps(input, temp, target, displaced, displaced_target, rm) + seq![
        (
            FsAct::Move(temp, final_path),
            "Could not replace the original: "@,
            restore_target(target, displaced_target) + seq![FsAct::Move(displaced, input)] + rm
                + seq![FsAct::Delete(temp)],
        ),
    ]
}

pub open spec fn spec_cleanup(displaced: Seq<char>, displaced_target: Option<Seq<char>>) -> Seq<FsAct> {
    seq![FsAct::Delete(displaced)] + delete_if(displaced_target)
}

fn op_rename(from: &String, to: &String) -> (r: FsOp)
    ensures
        act(r) == FsAct::Move(from@, to@),
{
    FsOp::Rename { from: from.clone(), to: to.clone() }
}

fn op_remove(p: &String) -> (r: FsOp)
    ensures
        act(r) == FsAct::Delete(p@),
{
    FsOp::Remove(p.clone())
}

fn push_op(v: &mut Vec<FsOp>, op: FsOp)
    ensures
        acts(final(v)@) == acts(old(v)@).push(act(op)),
{
    let ghost before = v@;
    v.push(op);
    assert(acts(v@) =~= acts(before).push(act(op)));
}

fn push_remove_if(v: &mut Vec<FsOp>, p: &Option<String>)
    ensures
        acts(final(v)@) == acts(old(v)@) + delete_if(opt_seq(*p)),
{
    let ghost before = acts(v@);
    if let Some(x) = p {
        push_op(v, op_remove(x));
    }
    assert(acts(v@) =~= before + delete_if(opt_seq(*p)));
}

fn push_step(v: &mut Vec<ReplaceStep>, op: FsOp, prefix: &str, undo: Vec<FsOp>)
    ensures
        steps_view(final(v)@) == steps_view(old(v)@).push((act(op), prefix@, acts(undo@))),
{
    let ghost before = v@;
    v.push(ReplaceStep { op, error_prefix: String::from_str(prefix), undo });
    assert(steps_view(v@) =~= steps_view(before).push((act(op), prefix@, acts(undo@))));
}

fn push_mkdir_step(v: &mut Vec<ReplaceStep>, p: &String, prefix: &str, undo: Vec<FsOp>)
    ensures
        steps_view(final(v)@) == steps_view(old(v)@) + mkdir_step(p@, prefix@, acts(undo@)),
{
    let ghost before = steps_view(v@);
    let c = chars_of(p.as_str());
    match parent_chars(c.as_slice()) {
        Some(d) => {
            push_step(v, FsOp::CreateDirAll(string_of(d.as_slice())), prefix, undo);
        },
        None => {},
    }
    assert(steps_view(v@) =~= before + mkdir_step(p@, prefix@, acts(undo@)));
}

fn empty_ops() -> (r: Vec<FsOp>)
    ensures
        acts(r@) == Seq::<FsAct>::empty(),
{
    let v: Vec<FsOp> = Vec::new();
    assert(acts(v@) =~= Seq::<FsAct>::empty());
    v
}

/// The script that replaces `plan.input` by its converted file.
#[verifier::rlimit(40)]
pub fn replacement_script(
    plan: &EncodePlan,
    backup: &Option<String>,
    target_backup: &Option<String>,
    displaced: &String,
    displaced_target: &Option<String>,
) -> (r: ReplacementScript)
    ensures
        steps_view(r.steps@) == spec_steps(
            plan.input@,
            plan.temp_output@,
            plan.final_output@,
            opt_seq(plan.overwritten_target),
            opt_seq(*backup),
            opt_seq(*target_backup),
            displaced@,
            opt_seq(*displaced_target),
        ),
        acts(r.cleanup@) == spec_cleanup(displaced@, opt_seq(*displaced_target)),
        r.replacements@.len() == (if backup.is_some() { 1int } else { 0 }) + (if plan.overwritten_target.is_some() && target_backup.is_some() { 1int } else { 0 }),
        backup is Some ==> r.replacements@[0].backup_path@ == backup.unwrap()@
            && r.replacements@[0].original_path@ == plan.input@
            && r.replacements@[0].converted_path@ == plan.final_output@,
        plan.overwritten_target is Some && target_backup is Some ==> ({
            let last = r.replacements@.last();
            &&& last.backup_path@ == target_backup.unwrap()@
            &&& last.original_path@ == plan.overwritten_target.unwrap()@
            &&& last.converted_path@ == plan.overwritten_target.unwrap()@
        }),
{
    let input = &plan.input;
    let temp = &plan.temp_output;
    let mut steps: Vec<ReplaceStep> = Vec::new();
    // undo lists shared by several steps
    let mut rm_b = empty_ops();
    push_remove_if(&mut rm_b, backup);
    let mut rm_tb = empty_ops();
    push_remove_if(&mut rm_tb, target_backup);
    let ghost rb = acts(rm_b@);
    let ghost rtb = acts(rm_tb@);
    if let Some(b) = backup {
        push_mkdir_step(&mut steps, b, "Cannot create backup folder: ", empty_ops());
        push_step(
            &mut steps,
            FsOp::Copy { from: input.clone(), to: b.clone() },
            "Could not back up the original: ",
            empty_ops(),
        );
    }
    match (&plan.overwritten_target, target_backup) {
        (Some(t), Some(x)) => {
            push_mkdir_step(&mut steps, x, "Cannot create target backup folder: ", duplicate_ops(&rm_b));
            push_step(
                &mut steps,
                FsOp::Copy { from: t.clone(), to: x.clone() },
                "Could not back up the existing output: ",
                duplicate_ops(&rm_b),
            );
        },
        _ => {},
    }
    let mut undo_in = empty_ops();
    push_op(&mut undo_in, op_remove(temp));
    append_ops(&mut undo_in, &rm_b);
    append_ops(&mut undo_in, &rm_tb);
    push_step(&mut steps, op_rename(input, displaced), "Could not move the original aside: ", undo_in);
    match (&plan.overwritten_target, displaced_target) {
        (Some(t), Some(d)) => {
            let mut undo_t = empty_ops();
            push_op(&mut undo_t, op_rename(displaced, input));
            push_op(&mut undo_t, op_remove(temp));
            append_ops(&mut undo_t, &rm_b);
            append_ops(&mut undo_t, &rm_tb);
            assert(acts(undo_t@) =~= seq![FsAct::Move(displaced@, input@), FsAct::Delete(temp@)] + rb + rtb);
            push_step(&mut steps, op_rename(t, d), "Could not move the existing output aside: ", undo_t);
        },
        _ => {},
    }
    let ghost s4 = steps_view(steps@);
    let mut undo_put = empty_ops();
    match (&plan.overwritten_target, displaced_target) {
        (Some(t), Some(d)) => push_op(&mut undo_put, op_rename(d, t)),
        _ => {},
    }
    push_op(&mut undo_put, op_rename(displaced, input));
    append_ops(&mut undo_put, &rm_b);
    append_ops(&mut undo_put, &rm_tb);
    push_op(&mut undo_put, op_remove(temp));
    assert(acts(undo_put@) =~= restore_target(opt_seq(plan.overwritten_target), opt_seq(*displaced_target))
        + seq![FsAct::Move(displaced@, input@)] + rb + rtb + seq![FsAct::Delete(temp@)]);
    push_step(&mut steps, op_rename(temp, &plan.final_output), "Could not replace the original: ", undo_put);
    proof {
        assert(steps_view(steps@) =~= s4.push((
            FsAct::Move(temp@, plan.final_output@),
            "Could not replace the original: "@,
            restore_target(opt_seq(plan.overwritten_target), opt_seq(*displaced_target))
                + seq![FsAct::Move(displaced@, input@)] + rb + rtb + seq![FsAct::Delete(temp@)],
        )));
        let rm = delete_if(opt_seq(*backup)) + delete_if(opt_seq(*target_backup));
        let x5 = (
            FsAct::Move(temp@, plan.final_output@),
            "Could not replace the original: "@,
            restore_target(opt_seq(plan.overwritten_target), opt_seq(*displaced_target))
                + seq![FsAct::Move(displaced@, input@)] + rm + seq![FsAct::Delete(temp@)],
        );
        assert(seq![FsAct::Delete(temp@)] + rb + rtb =~= seq![FsAct::Delete(temp@)] + rm);
        assert(seq![FsAct::Move(displaced@, input@), FsAct::Delete(temp@)] + rb + rtb
            =~= seq![FsAct::Move(displaced@, input@), FsAct::Delete(temp@)] + rm);
        assert(restore_target(opt_seq(plan.overwritten_target), opt_seq(*displaced_target))
            + seq![FsAct::Move(displaced@, input@)] + rb + rtb + seq![FsAct::Delete(temp@)] =~= x5.2);
    }
    let mut cleanup = empty_ops();
    push_op(&mut cleanup, op_remove(displaced));
    push_remove_if(&mut cleanup, displaced_target);
    let mut replacements: Vec<BatchReplacement> = Vec::new();
    if let Some(b) = backup {
        replacements.push(
            BatchReplacement {
                backup_path: b.clone(),
                original_path: input.clone(),
                converted_path: plan.final_output.clone(),
            },
        );
    }
    match (&plan.overwritten_target, target_backup) {
        (Some(t), Some(x)) => {
            replacements.push(
                BatchReplacement { backup_path: x.clone(), original_path: t.clone(), converted_path: t.clone() },
            );
        },
        _ => {},
    }
    ReplacementScript { steps, cleanup, replacements }
}

/// The script for `plan`, with backups (when the plan keeps them) and
/// places aside named after the present time.
pub fn replacement_script_for(plan: &EncodePlan) -> (r: ReplacementScript)
    ensures
        exists|b: Option<Seq<char>>, x: Option<Seq<char>>, d: Seq<char>, dt: Option<Seq<char>>| {
            &&& (b is Some <==> plan.backup) && (b is Some ==> exists|stamp: Seq<char>| b.unwrap() == spec_backup_path(plan.input@, stamp))
            &&& (x is Some <==> plan.overwritten_target is Some) && (dt is Some <==> plan.overwritten_target is Some)
            &&& x is Some ==> exists|stamp: Seq<char>| x.unwrap() == spec_backup_path(plan.overwritten_target.unwrap()@, stamp)
            &&& exists|stamp: Seq<char>| d == spec_displaced_path(plan.input@, stamp)
            &&& dt is Some ==> exists|stamp: Seq<char>| dt.unwrap() == spec_displaced_path(plan.overwritten_target.unwrap()@, stamp)
            &&& steps_view(r.steps@) == spec_steps(
                plan.input@,
                plan.temp_output@,
                plan.final_output@,
                opt_seq(plan.overwritten_target),
                b,
                x,
                d,
                dt,
            )
            &&& acts(r.cleanup@) == spec_cleanup(d, dt)
        },
{
    let backup = if plan.backup {
        Some(backup_path_for(plan.input.as_str()))
    } else {
        None
    };
    let target_backup = match &plan.overwritten_target {
        Some(t) => Some(backup_path_for(t.as_str())),
        None => None,
    };
    let displaced = displaced_path_for(plan.input.as_str());
    let displaced_target = match &plan.overwritten_target {
        Some(t) => Some(displaced_path_for(t.as_str())),
        None => None,
    };
    let r = replacement_script(plan, &backup, &target_backup, &displaced, &displaced_target);
    proof {
        let b = opt_seq(backup);
        let x = opt_seq(target_backup);
        let dt = opt_seq(displaced_target);
        assert(b is Some ==> exists|stamp: Seq<char>| b.unwrap() == spec_backup_path(plan.input@, stamp));
        assert(x is Some ==> exists|stamp: Seq<char>| x.unwrap() == spec_backup_path(plan.overwritten_target.unwrap()@, stamp));
        assert(dt is Some ==> exists|stamp: Seq<char>| dt.unwrap() == spec_displaced_path(plan.overwritten_target.unwrap()@, stamp));
    }
    r
}

/// What becomes of a converted file once it has been checked.
#[derive(Debug, Clone)]
pub enum ConvertedVerdict {
    /// The item fails with this message; the converted file is removed.
    Reject(String),
    /// The item is skipped for this reason; the original is kept.
    Skip(String),
    /// The converted file goes in place.
    Keep,
}

pub enum SpecVerdict {
    Reject(Seq<char>),
    Skip(Seq<char>),
    Keep,
}

pub open spec fn verdict_view(v: ConvertedVerdict) -> SpecVerdict {
    match v {
        ConvertedVerdict::Reject(m) => SpecVerdict::Reject(m@),
        ConvertedVerdict::Skip(m) => SpecVerdict::Skip(m@),
        ConvertedVerdict::Keep => SpecVerdict::Keep,
    }
}

/// A converted video that cannot be read back is refused; otherwise the
/// size rules decide (an original of unknown size counts as empty).
pub open spec fn spec_converted_verdict(
    media: BatchMediaType,
    readable_back: bool,
    size_before: u64,
    size_after: u64,
    settings: BatchSettings,
) -> SpecVerdict {
    if media == BatchMediaType::Video && !readable_back {
        SpecVerdict::Reject("Converted video could not be read back."@)
    } else {
        match spec_savings_rejection(size_before, size_after, settings.skip_if_larger, settings.skip_if_savings_below_pct) {
            Some(reason) => SpecVerdict::Skip(reason),
            None => SpecVerdict::Keep,
        }
    }
}

/// The error for a converted file of `size` bytes, if it has none.
pub fn empty_output_error(size: u64) -> (r: Option<String>)
    ensures
        opt_string_view(r) == (if size == 0 { Some("Converted file is empty."@) } else { None::<Seq<char>> }),
{
    if size == 0 {
        Some(String::from_str("Converted file is empty."))
    } else {
        None
    }
}

/// Whether the EXIF block of the original is carried over by hand: stills
/// get none from the encoder, and it is copied when the settings keep
/// metadata.
pub fn carries_exif_over(plan: &EncodePlan, settings: &BatchSettings) -> (r: bool)
    ensures
        r == (plan.media_type == BatchMediaType::Image && settings.image.keep_metadata),
{
    plan.media_type == BatchMediaType::Image && settings.image.keep_metadata
}

/// What becomes of a converted file of `size_after` bytes whose original has
/// `size_before` bytes; `readable_back` tells whether a converted video
/// could be probed.
pub fn converted_verdict(
    media: BatchMediaType,
    readable_back: bool,
    size_before: u64,
    size_after: u64,
    settings: &BatchSettings,
) -> (r: ConvertedVerdict)
    ensures
        verdict_view(r) == spec_converted_verdict(media, readable_back, size_before, size_after, *settings),
{
    if media == BatchMediaType::Video && !readable_back {
        return ConvertedVerdict::Reject(String::from_str("Converted video could not be read back."));
    }
    match savings_rejection(size_before, size_after, settings) {
        Some(reason) => ConvertedVerdict::Skip(reason),
        None => ConvertedVerdict::Keep,
    }
}

fn duplicate_ops(v: &Vec<FsOp>) -> (r: Vec<FsOp>)
    ensures
        acts(r@) == acts(v@),
{
    let mut out = empty_ops();
    append_ops(&mut out, v);
    assert(acts(out@) =~= acts(v@));
    out
}

fn append_ops(v: &mut Vec<FsOp>, extra: &Vec<FsOp>)
    ensures
        acts(final(v)@) == acts(old(v)@) + acts(extra@),
{
    let ghost start = acts(v@);
    let mut i: usize = 0;
    while i < extra.len()
        invariant
            i <= extra@.len(),
            acts(v@) == start + acts(extra@).take(i as int),
        decreases extra@.len() - i,
    {
        let op = match &extra[i] {
            FsOp::CreateDirAll(d) => FsOp::CreateDirAll(d.clone()),
            FsOp::Copy { from, to } => FsOp::Copy { from: from.clone(), to: to.clone() },
            FsOp::Rename { from, to } => FsOp::Rename { from: from.clone(), to: to.clone() },
            FsOp::Remove(p) => FsOp::Remove(p.clone()),
        };
        assert(act(op) == act(extra@[i as int]));
        push_op(v, op);
        assert(acts(extra@).take(i + 1) =~= acts(extra@).take(i as int).push(act(extra@[i as int])));
        i = i + 1;
    }
    assert(acts(extra@).take(i as int) =~= acts(extra@));
}


/// Files by path, each with a number standing for its content.
pub type Files = Map<Seq<char>, int>;

/// What an operation does when it succeeds.
pub open spec fn apply(fs: Files, a: FsAct) -> Files {
    match a {
        FsAct::Mkdir(_) => fs,
        FsAct::Copy(x, y) => fs.insert(y, fs[x]),
        FsAct::Move(x, y) => fs.remove(x).insert(y, fs[x]),
        FsAct::Delete(x) => fs.remove(x),
    }
}

/// What an operation does when it fails: nothing, but a copy may leave
/// anything at its destination.
pub open spec fn failed(fs: Files, a: FsAct, junk: int) -> Files {
    match a {
        FsAct::Copy(_, y) => fs.insert(y, junk),
        _ => fs,
    }
}

/// A best-effort operation: it succeeds when its source is there, and
/// changes nothing when it is not.
pub open spec fn attempt(fs: Files, a: FsAct) -> Files {
    match a {
        FsAct::Copy(x, _) => if fs.dom().contains(x) { apply(fs, a) } else { fs },
        FsAct::Move(x, _) => if fs.dom().contains(x) { apply(fs, a) } else { fs },
        _ => apply(fs, a),
    }
}

/// Best-effort operations one after the other, failures ignored.
pub open spec fn attempt_all(fs: Files, acts: Seq<FsAct>) -> Files
    decreases acts.len(),
{
    if acts.len() == 0 {
        fs
    } else {
        attempt_all(attempt(fs, acts[0]), acts.drop_first())
    }
}

/// The first `k` steps, all of them succeeding.
pub open spec fn run_steps(fs: Files, steps: Seq<(FsAct, Seq<char>, Seq<FsAct>)>, k: nat) -> Files
    decreases k,
{
    if k == 0 {
        fs
    } else {
        apply(run_steps(fs, steps, (k - 1) as nat), steps[k - 1].0)
    }
}

pub open spec fn differs(o: Option<Seq<char>>, p: Seq<char>) -> bool {
    o is Some ==> o.unwrap() != p
}

pub open spec fn differ(o: Option<Seq<char>>, q: Option<Seq<char>>) -> bool {
    o is Some && q is Some ==> o.unwrap() != q.unwrap()
}

/// The paths of a replacement as the runner picks them: the temp file, the
/// place the original is moved aside to, and each backup are paths of
/// their own; the overwritten file, if any, is the final output, and it has
/// a backup and a place aside.
pub open spec fn replacement_paths_ok(
    input: Seq<char>,
    temp: Seq<char>,
    final_path: Seq<char>,
    target: Option<Seq<char>>,
    backup: Option<Seq<char>>,
    target_backup: Option<Seq<char>>,
    displaced: Seq<char>,
    displaced_target: Option<Seq<char>>,
) -> bool {
    &&& temp != input && displaced != input && displaced != temp
    &&& final_path != temp && final_path != displaced
    &&& (target is Some <==> target_backup is Some) && (target is Some <==> displaced_target is Some)
    &&& target is Some ==> target.unwrap() == final_path && final_path != input
    &&& differs(backup, input) && differs(backup, temp) && differs(backup, displaced) && differs(backup, final_path)
    &&& differ(backup, target_backup) && differ(backup, displaced_target)
    &&& differs(target_backup, input) && differs(target_backup, temp) && differs(target_backup, displaced)
    &&& differs(target_backup, final_path) && differ(target_backup, displaced_target)
    &&& differs(displaced_target, input) && differs(displaced_target, temp)
    &&& differs(displaced_target, displaced) && differs(displaced_target, final_path)
}

/// The files a replacement starts from: the original and the converted
/// temp file are there, and so is the file to overwrite, if any; the
/// places things are moved aside to are free.
pub open spec fn replacement_start_ok(
    fs: Files,
    input: Seq<char>,
    temp: Seq<char>,
    target: Option<Seq<char>>,
    displaced: Seq<char>,
    displaced_target: Option<Seq<char>>,
) -> bool {
    &&& fs.dom().contains(input)
    &&& fs.dom().contains(temp)
    &&& target is Some ==> fs.dom().contains(target.unwrap())
    &&& !fs.dom().contains(displaced)
    &&& displaced_target is Some ==> !fs.dom().contains(displaced_target.unwrap())
}

proof fn lemma_run_prefix(fs: Files, a: Seq<(FsAct, Seq<char>, Seq<FsAct>)>, b: Seq<(FsAct, Seq<char>, Seq<FsAct>)>, k: nat)
    requires
        k <= a.len(),
    ensures
        run_steps(fs, a + b, k) == run_steps(fs, a, k),
    decreases k,
{
    if k > 0 {
        lemma_run_prefix(fs, a, b, (k - 1) as nat);
        assert((a + b)[k - 1] == a[k - 1]);
    }
}

proof fn lemma_run_suffix(fs: Files, a: Seq<(FsAct, Seq<char>, Seq<FsAct>)>, b: Seq<(FsAct, Seq<char>, Seq<FsAct>)>, j: nat)
    requires
        j <= b.len(),
    ensures
        run_steps(fs, a + b, a.len() + j) == run_steps(run_steps(fs, a, a.len()), b, j),
    decreases j,
{
    if j == 0 {
        lemma_run_prefix(fs, a, b, a.len());
    } else {
        lemma_run_suffix(fs, a, b, (j - 1) as nat);
        assert((a + b)[a.len() + j - 1] == b[j - 1]);
    }
}

proof fn lemma_attempt_concat(fs: Files, a: Seq<FsAct>, b: Seq<FsAct>)
    ensures
        attempt_all(fs, a + b) == attempt_all(attempt_all(fs, a), b),
    decreases a.len(),
{
    if a.len() > 0 {
        assert((a + b).drop_first() =~= a.drop_first() + b);
        lemma_attempt_concat(attempt(fs, a[0]), a.drop_first(), b);
    } else {
        assert(a + b =~= b);
    }
}

pub open spec fn without(fs: Files, o: Option<Seq<char>>) -> Files {
    match o {
        Some(x) => fs.remove(x),
        None => fs,
    }
}

proof fn lemma_attempt_delete_if(fs: Files, o: Option<Seq<char>>)
    ensures
        attempt_all(fs, delete_if(o)) == without(fs, o),
{
    reveal_with_fuel(attempt_all, 2);
}

/// A folder step, when there is one, followed by `x`: the folder changes no
/// file, so the files are those before until `x` has run.
proof fn lemma_run_mkdir_then(
    fs: Files,
    p: Seq<char>,
    prefix: Seq<char>,
    undo: Seq<FsAct>,
    x: (FsAct, Seq<char>, Seq<FsAct>),
    k: nat,
)
    requires
        k <= (mkdir_step(p, prefix, undo) + seq![x]).len(),
    ensures
        ({
            let s = mkdir_step(p, prefix, undo) + seq![x];
            &&& run_steps(fs, s, k) == if k == s.len() { apply(fs, x.0) } else { fs }
            &&& k < s.len() ==> (s[k as int] == x || s[k as int].0 is Mkdir && s[k as int].2 == undo)
        }),
{
    reveal_with_fuel(run_steps, 3);
}

proof fn lemma_attempt_then_deletes(fs: Files, p: Seq<FsAct>, o1: Option<Seq<char>>, o2: Option<Seq<char>>)
    ensures
        attempt_all(fs, p + delete_if(o1) + delete_if(o2)) == without(without(attempt_all(fs, p), o1), o2),
{
    lemma_attempt_concat(fs, p + delete_if(o1), delete_if(o2));
    lemma_attempt_concat(fs, p, delete_if(o1));
    lemma_attempt_delete_if(attempt_all(fs, p), o1);
    lemma_attempt_delete_if(attempt_all(fs, p + delete_if(o1)), o2);
}

pub open spec fn moved(fs: Files, from: Seq<char>, to: Seq<char>) -> Files {
    fs.remove(from).insert(to, fs[from])
}

pub open spec fn after_backup(fs: Files, input: Seq<char>, backup: Option<Seq<char>>) -> Files {
    match backup {
        Some(b) => fs.insert(b, fs[input]),
        None => fs,
    }
}

pub open spec fn after_target_backup(fs: Files, target: Option<Seq<char>>, target_backup: Option<Seq<char>>) -> Files {
    match (target, target_backup) {
        (Some(t), Some(x)) => fs.insert(x, fs[t]),
        _ => fs,
    }
}

pub open spec fn after_move_target(fs: Files, target: Option<Seq<char>>, displaced_target: Option<Seq<char>>) -> Files {
    match (target, displaced_target) {
        (Some(t), Some(d)) => moved(fs, t, d),
        _ => fs,
    }
}

proof fn lemma_run_backup_steps(fs: Files, input: Seq<char>, backup: Option<Seq<char>>, k: nat)
    requires
        k <= backup_steps(input, backup).len(),
    ensures
        ({
            let s = backup_steps(input, backup);
            &&& run_steps(fs, s, k) == if k == s.len() { after_backup(fs, input, backup) } else { fs }
            &&& k < s.len() ==> s[k as int].2 == Seq::<FsAct>::empty()
            &&& k < s.len() ==> (s[k as int].0 is Mkdir || s[k as int].0 == FsAct::Copy(input, backup.unwrap()))
        }),
{
    match backup {
        Some(b) => {
            let x = (FsAct::Copy(input, b), "Could not back up the original: "@, Seq::<FsAct>::empty());
            lemma_run_mkdir_then(fs, b, "Cannot create backup folder: "@, Seq::empty(), x, k);
        },
        None => {},
    }
}

proof fn lemma_run_target_backup_steps(fs: Files, target: Option<Seq<char>>, target_backup: Option<Seq<char>>, rm_b: Seq<FsAct>, k: nat)
    requires
        k <= target_backup_steps(target, target_backup, rm_b).len(),
    ensures
        ({
            let s = target_backup_steps(target, target_backup, rm_b);
            &&& run_steps(fs, s, k) == if k == s.len() { after_target_backup(fs, target, target_backup) } else { fs }
            &&& k < s.len() ==> s[k as int].2 == rm_b
            &&& k < s.len() ==> (s[k as int].0 is Mkdir || s[k as int].0 == FsAct::Copy(target.unwrap(), target_backup.unwrap()))
        }),
{
    match (target, target_backup) {
        (Some(t), Some(x)) => {
            let c = (FsAct::Copy(t, x), "Could not back up the existing output: "@, rm_b);
            lemma_run_mkdir_then(fs, x, "Cannot create target backup folder: "@, rm_b, c, k);
        },
        _ => {},
    }
}

proof fn lemma_run_move_target_steps(
    fs: Files,
    input: Seq<char>,
    temp: Seq<char>,
    target: Option<Seq<char>>,
    displaced: Seq<char>,
    displaced_target: Option<Seq<char>>,
    rm: Seq<FsAct>,
    k: nat,
)
    requires
        k <= move_target_steps(input, temp, target, displaced, displaced_target, rm).len(),
    ensures
        run_steps(fs, move_target_steps(input, temp, target, displaced, displaced_target, rm), k)
            == if k == move_target_steps(input, temp, target, displaced, displaced_target, rm).len() {
            after_move_target(fs, target, displaced_target)
        } else {
            fs
        },
{
    reveal_with_fuel(run_steps, 2);
}

/// The files once every step up to the move of the converted file has run.
proof fn lemma_run_parts(
    fs: Files,
    input: Seq<char>,
    temp: Seq<char>,
    final_path: Seq<char>,
    target: Option<Seq<char>>,
    backup: Option<Seq<char>>,
    target_backup: Option<Seq<char>>,
    displaced: Seq<char>,
    displaced_target: Option<Seq<char>>,
)
    ensures
        ({
            let rm = delete_if(backup) + delete_if(target_backup);
            let bs = backup_steps(input, backup);
            let ts = target_backup_steps(target, target_backup, delete_if(backup));
            let x3 = (FsAct::Move(input, displaced), "Could not move the original aside: "@, seq![FsAct::Delete(temp)] + rm);
            let ms = move_target_steps(input, temp, target, displaced, displaced_target, rm);
            let x5 = (
                FsAct::Move(temp, final_path),
                "Could not replace the original: "@,
                restore_target(target, displaced_target) + seq![FsAct::Move(displaced, input)] + rm + seq![FsAct::Delete(temp)],
            );
            let a2 = bs + ts;
            let a3 = a2 + seq![x3];
            let a4 = a3 + ms;
            let s1 = after_backup(fs, input, backup);
            let s2 = after_target_backup(s1, target, target_backup);
            let s3 = moved(s2, input, displaced);
            let s4 = after_move_target(s3, target, displaced_target);
            &&& spec_steps(input, temp, final_path, target, backup, target_backup, displaced, displaced_target) == a4 + seq![x5]
            &&& run_steps(fs, bs, bs.len()) == s1
            &&& run_steps(fs, a2, a2.len()) == s2
            &&& run_steps(fs, a3, a3.len()) == s3
            &&& run_steps(fs, a4, a4.len()) == s4
        }),
{
    let rm = delete_if(backup) + delete_if(target_backup);
    let bs = backup_steps(input, backup);
    let ts = target_backup_steps(target, target_backup, delete_if(backup));
    let x3 = (FsAct::Move(input, displaced), "Could not move the original aside: "@, seq![FsAct::Delete(temp)] + rm);
    let ms = move_target_steps(input, temp, target, displaced, displaced_target, rm);
    let a2 = bs + ts;
    let a3 = a2 + seq![x3];
    let a4 = a3 + ms;
    let s1 = after_backup(fs, input, backup);
    let s2 = after_target_backup(s1, target, target_backup);
    let s3 = moved(s2, input, displaced);
    lemma_run_backup_steps(fs, input, backup, bs.len());
    lemma_run_suffix(fs, bs, ts, ts.len());
    lemma_run_target_backup_steps(s1, target, target_backup, delete_if(backup), ts.len());
    lemma_run_suffix(fs, a2, seq![x3], 1);
    reveal_with_fuel(run_steps, 2);
    assert(run_steps(s2, seq![x3], 1) == s3);
    lemma_run_suffix(fs, a3, ms, ms.len());
    lemma_run_move_target_steps(s3, input, temp, target, displaced, displaced_target, rm, ms.len());
}

/// When a step of a replacement fails and what it lists to undo is then
/// tried, the original is back at its path with its content, so is the file
/// that was to be overwritten, and nothing is left where the original was
/// moved aside.
pub proof fn law_failed_replacement_restores_originals(
    fs: Files,
    input: Seq<char>,
    temp: Seq<char>,
    final_path: Seq<char>,
    target: Option<Seq<char>>,
    backup: Option<Seq<char>>,
    target_backup: Option<Seq<char>>,
    displaced: Seq<char>,
    displaced_target: Option<Seq<char>>,
    k: nat,
    junk: int,
)
    requires
        replacement_paths_ok(input, temp, final_path, target, backup, target_backup, displaced, displaced_target),
        replacement_start_ok(fs, input, temp, target, displaced, displaced_target),
        k < spec_steps(input, temp, final_path, target, backup, target_backup, displaced, displaced_target).len(),
    ensures
        ({
            let steps = spec_steps(input, temp, final_path, target, backup, target_backup, displaced, displaced_target);
            let after = attempt_all(failed(run_steps(fs, steps, k), steps[k as int].0, junk), steps[k as int].2);
            &&& after.dom().contains(input) && after[input] == fs[input]
            &&& target is Some ==> after.dom().contains(target.unwrap()) && after[target.unwrap()] == fs[target.unwrap()]
            &&& !after.dom().contains(displaced)
        }),
{
    let steps = spec_steps(input, temp, final_path, target, backup, target_backup, displaced, displaced_target);
    let rm = delete_if(backup) + delete_if(target_backup);
    let bs = backup_steps(input, backup);
    let ts = target_backup_steps(target, target_backup, delete_if(backup));
    let x3 = (FsAct::Move(input, displaced), "Could not move the original aside: "@, seq![FsAct::Delete(temp)] + rm);
    let ms = move_target_steps(input, temp, target, displaced, displaced_target, rm);
    let x5 = (
        FsAct::Move(temp, final_path),
        "Could not replace the original: "@,
        restore_target(target, displaced_target) + seq![FsAct::Move(displaced, input)] + rm + seq![FsAct::Delete(temp)],
    );
    let a2 = bs + ts;
    let a3 = a2 + seq![x3];
    let a4 = a3 + ms;
    let s1 = after_backup(fs, input, backup);
    let s2 = after_target_backup(s1, target, target_backup);
    let s3 = moved(s2, input, displaced);
    let s4 = after_move_target(s3, target, displaced_target);
    lemma_run_parts(fs, input, temp, final_path, target, backup, target_backup, displaced, displaced_target);
    let state = run_steps(fs, steps, k);
    let st = steps[k as int];
    let after = attempt_all(failed(state, st.0, junk), st.2);
    if k < a4.len() {
        lemma_run_prefix(fs, a4, seq![x5], k);
        assert(steps[k as int] == a4[k as int]);
        if k < a3.len() {
            lemma_run_prefix(fs, a3, ms, k);
            assert(a4[k as int] == a3[k as int]);
            if k < a2.len() {
                lemma_run_prefix(fs, a2, seq![x3], k);
                assert(a3[k as int] == a2[k as int]);
                if k < bs.len() {
                    lemma_run_prefix(fs, bs, ts, k);
                    assert(a2[k as int] == bs[k as int]);
                    lemma_run_backup_steps(fs, input, backup, k);
                    reveal_with_fuel(attempt_all, 1);
                } else {
                    let j = (k - bs.len()) as nat;
                    lemma_run_suffix(fs, bs, ts, j);
                    assert(a2[k as int] == ts[j as int]);
                    lemma_run_target_backup_steps(s1, target, target_backup, delete_if(backup), j);
                    lemma_attempt_delete_if(failed(state, st.0, junk), backup);
                }
            } else {
                assert(k == a2.len());
                lemma_run_prefix(fs, a2, seq![x3], k);
                assert(a3[k as int] == x3);
                assert(state == s2);
                assert(st.2 =~= seq![FsAct::Delete(temp)] + delete_if(backup) + delete_if(target_backup));
                lemma_attempt_then_deletes(failed(state, st.0, junk), seq![FsAct::Delete(temp)], backup, target_backup);
                reveal_with_fuel(attempt_all, 2);
                assert(attempt_all(state, seq![FsAct::Delete(temp)]) == state.remove(temp));
            }
        } else {
            let j = (k - a3.len()) as nat;
            lemma_run_suffix(fs, a3, ms, j);
            assert(a4[k as int] == ms[j as int]);
            lemma_run_move_target_steps(s3, input, temp, target, displaced, displaced_target, rm, j);
            assert(state == s3);
            let p = seq![FsAct::Move(displaced, input), FsAct::Delete(temp)];
            assert(st.2 == p + delete_if(backup) + delete_if(target_backup));
            lemma_attempt_then_deletes(state, p, backup, target_backup);
            reveal_with_fuel(attempt_all, 3);
        }
    } else {
        assert(k == a4.len());
        lemma_run_prefix(fs, a4, seq![x5], k);
        assert(st == x5);
        assert(state == s4);
        let p = restore_target(target, displaced_target) + seq![FsAct::Move(displaced, input)];
        assert(st.2 == p + delete_if(backup) + delete_if(target_backup) + seq![FsAct::Delete(temp)]);
        lemma_attempt_concat(state, p + delete_if(backup) + delete_if(target_backup), seq![FsAct::Delete(temp)]);
        lemma_attempt_then_deletes(state, p, backup, target_backup);
        reveal_with_fuel(attempt_all, 3);
    }
}

/// When every step of a replacement succeeds and the clean-up is tried, the
/// converted file is at the final path, each backup holds what it backs up,
/// and neither the temp file nor anything moved aside is left; an original
/// with another name than the output is gone.
pub proof fn law_completed_replacement(
    fs: Files,
    input: Seq<char>,
    temp: Seq<char>,
    final_path: Seq<char>,
    target: Option<Seq<char>>,
    backup: Option<Seq<char>>,
    target_backup: Option<Seq<char>>,
    displaced: Seq<char>,
    displaced_target: Option<Seq<char>>,
)
    requires
        replacement_paths_ok(input, temp, final_path, target, backup, target_backup, displaced, displaced_target),
        replacement_start_ok(fs, input, temp, target, displaced, displaced_target),
    ensures
        ({
            let steps = spec_steps(input, temp, final_path, target, backup, target_backup, displaced, displaced_target);
            let after = attempt_all(run_steps(fs, steps, steps.len()), spec_cleanup(displaced, displaced_target));
            &&& after.dom().contains(final_path) && after[final_path] == fs[temp]
            &&& backup is Some ==> after.dom().contains(backup.unwrap()) && after[backup.unwrap()] == fs[input]
            &&& target is Some ==> after.dom().contains(target_backup.unwrap())
                && after[target_backup.unwrap()] == fs[target.unwrap()]
            &&& !after.dom().contains(temp) && !after.dom().contains(displaced)
            &&& displaced_target is Some ==> !after.dom().contains(displaced_target.unwrap())
            &&& final_path != input ==> !after.dom().contains(input)
        }),
{
    let steps = spec_steps(input, temp, final_path, target, backup, target_backup, displaced, displaced_target);
    let rm = delete_if(backup) + delete_if(target_backup);
    let bs = backup_steps(input, backup);
    let ts = target_backup_steps(target, target_backup, delete_if(backup));
    let x3 = (FsAct::Move(input, displaced), "Could not move the original aside: "@, seq![FsAct::Delete(temp)] + rm);
    let ms = move_target_steps(input, temp, target, displaced, displaced_target, rm);
    let x5 = (
        FsAct::Move(temp, final_path),
        "Could not replace the original: "@,
        restore_target(target, displaced_target) + seq![FsAct::Move(displaced, input)] + rm + seq![FsAct::Delete(temp)],
    );
    let a4 = bs + ts + seq![x3] + ms;
    lemma_run_parts(fs, input, temp, final_path, target, backup, target_backup, displaced, displaced_target);
    lemma_run_suffix(fs, a4, seq![x5], 1);
    reveal_with_fuel(run_steps, 2);
    let done = run_steps(fs, steps, steps.len());
    assert(done == apply(run_steps(fs, a4, a4.len()), x5.0));
    lemma_attempt_concat(done, seq![FsAct::Delete(displaced)], delete_if(displaced_target));
    lemma_attempt_delete_if(attempt_all(done, seq![FsAct::Delete(displaced)]), displaced_target);
    reveal_with_fuel(attempt_all, 2);
}

} // verus!
