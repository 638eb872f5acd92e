//! Persistent checkpoint for the one active batch job.
//!
//! The runner owns execution. A checkpoint records enough state to resume
//! pending files after the desktop process exits, without replanning output
//! names or losing replacement backups needed by undo.
use vstd::prelude::*;
use crate::text::chars_of;
use crate::path_text::{join, join_chars};
use super::runner::{EncodePlan, PlannedItem, count_state, same_opt_plan};
use super::{BatchItemState, BatchItemStatus, BatchJobStatus, BatchSettings};

verus! {

pub const CHECKPOINT_DIR: &'static str = "batch-jobs";
pub const ACTIVE_FILE: &'static str = "active.json";
pub const PREVIOUS_FILE: &'static str = "active.previous.json";
pub const NEXT_FILE: &'static str = "active.next.json";

#[derive(Debug, Clone)]
pub struct BatchCheckpoint {
    pub job: BatchJobStatus,
    pub settings: BatchSettings,
    /// Kept index-aligned with `job.items`. Terminal items retain their plan
    /// so the checkpoint remains a complete audit record.
    pub plans: Vec<Option<EncodePlan>>,
}

/// Number of items that will not run again.
pub open spec fn terminal_count(items: Seq<BatchItemStatus>) -> nat
    decreases items.len(),
{
    if items.len() == 0 {
        0
    } else {
        terminal_count(items.drop_last()) + if items.last().state.spec_is_terminal() {
            1nat
        } else {
            0nat
        }
    }
}

pub proof fn lemma_terminal_count_bound(items: Seq<BatchItemStatus>)
    ensures
        terminal_count(items) <= items.len(),
    decreases items.len(),
{
    if items.len() > 0 {
        lemma_terminal_count_bound(items.drop_last());
    }
}

pub fn terminal_items(job: &BatchJobStatus) -> (r: usize)
    ensures
        r == terminal_count(job.items@),
{
    let mut n: usize = 0;
    let mut i: usize = 0;
    while i < job.items.len()
        invariant
            i <= job.items@.len(),
            n == terminal_count(job.items@.take(i as int)),
        decreases job.items@.len() - i,
    {
        proof {
            assert(job.items@.take(i + 1).drop_last() =~= job.items@.take(i as int));
            lemma_terminal_count_bound(job.items@.take(i as int));
        }
        if job.items[i].state.is_terminal() {
            n = n + 1;
        }
        i = i + 1;
    }
    assert(job.items@.take(i as int) =~= job.items@);
    n
}

/// `incoming` may replace `current` in the checkpoint: it has at least as
/// many finished items, does not restart a stopped job and does not undo a
/// finalization.
pub open spec fn accepts_update(current: BatchJobStatus, incoming: BatchJobStatus) -> bool {
    &&& terminal_count(incoming.items@) >= terminal_count(current.items@)
    &&& !(!current.running && incoming.running)
    &&& !(current.finalized && !incoming.finalized)
}

/// `new` is `status` after a restart: an unfinished item with a saved plan
/// waits again from the start, one without a plan fails, and a finished one
/// stays as it was.
pub open spec fn resumed_ok(new: BatchItemStatus, status: BatchItemStatus, plan: Option<EncodePlan>) -> bool {
    if status.state == BatchItemState::Pending || status.state == BatchItemState::Running {
        match plan {
            Some(_) => new == BatchItemStatus {
                state: BatchItemState::Pending,
                progress_permille: 0,
                error: None,
                ..status
            },
            None => {
                &&& new.error matches Some(e) && e@ == "The saved resume plan is missing."@
                &&& new == BatchItemStatus {
                    state: BatchItemState::Failed,
                    progress_permille: 0,
                    error: new.error,
                    ..status
                }
            },
        }
    } else {
        new == status
    }
}

pub open spec fn plan_at(plans: Seq<Option<EncodePlan>>, i: int) -> Option<EncodePlan> {
    if 0 <= i < plans.len() {
        plans[i]
    } else {
        None
    }
}

/// Unfinished items are pending or were running when the process ended.
pub open spec fn resumable(st: BatchItemState) -> bool {
    st == BatchItemState::Pending || st == BatchItemState::Running
}

impl BatchCheckpoint {
    pub fn new(job: BatchJobStatus, settings: BatchSettings, planned: &Vec<PlannedItem>) -> (r: Self)
        ensures
            r.job == job,
            r.settings == settings,
            r.plans@.len() == planned@.len(),
            forall|i: int| 0 <= i < planned@.len() ==> same_opt_plan(#[trigger] r.plans@[i], planned@[i].plan),
    {
        let mut plans: Vec<Option<EncodePlan>> = Vec::new();
        let mut i: usize = 0;
        while i < planned.len()
            invariant
                i <= planned@.len(),
                plans@.len() == i,
                forall|k: int| 0 <= k < i ==> same_opt_plan(#[trigger] plans@[k], planned@[k].plan),
            decreases planned@.len() - i,
        {
            let p = match &planned[i].plan {
                Some(p) => Some(p.duplicate()),
                None => None,
            };
            plans.push(p);
            i = i + 1;
        }
        BatchCheckpoint { job, settings, plans }
    }

    /// Converts a process-interrupted checkpoint back into runner input.
    /// Completed, skipped and failed files stay terminal. Only pending or
    /// formerly-running files receive a plan; their half-written temp files
    /// (`resume_temp_outputs` of the result) are deleted by the caller
    /// before the job runs again.
    pub fn prepare_resume(&mut self) -> (r: Vec<PlannedItem>)
        ensures
            final(self).job.running,
            !final(self).job.cancelled,
            final(self).job.finished_at is None,
            final(self).plans == old(self).plans,
            final(self).settings == old(self).settings,
            final(self).job.items@.len() == old(self).job.items@.len(),
            r@.len() == old(self).job.items@.len(),
            forall|i: int|
                0 <= i < r@.len() ==> {
                    &&& resumed_ok(
                        #[trigger] final(self).job.items@[i],
                        old(self).job.items@[i],
                        plan_at(old(self).plans@, i),
                    )
                    &&& r@[i].status == final(self).job.items@[i]
                    &&& same_opt_plan(r@[i].plan, if resumable(old(self).job.items@[i].state) {
                        plan_at(old(self).plans@, i)
                    } else {
                        None
                    })
                },
            final(self).job.job_id == old(self).job.job_id,
            final(self).job.total == old(self).job.total,
            final(self).job.done == old(self).job.done,
            final(self).job.failed == old(self).job.failed,
            final(self).job.skipped == old(self).job.skipped,
            final(self).job.bytes_before == old(self).job.bytes_before,
            final(self).job.bytes_after == old(self).job.bytes_after,
            final(self).job.started_at == old(self).job.started_at,
            final(self).job.output_dir == old(self).job.output_dir,
            final(self).job.replaces_originals == old(self).job.replaces_originals,
            final(self).job.replacements == old(self).job.replacements,
            final(self).job.finalized == old(self).job.finalized,
    {
        self.job.running = true;
        self.job.cancelled = false;
        self.job.finished_at = None;
        let ghost items0 = self.job.items@;
        let mut out: Vec<PlannedItem> = Vec::new();
        let mut i: usize = 0;
        while i < self.job.items.len()
            invariant
                i <= self.job.items@.len(),
                self.job.items@.len() == items0.len(),
                out@.len() == i,
                self.plans == old(self).plans,
                self.settings == old(self).settings,
                items0 == old(self).job.items@,
                forall|k: int|
                    0 <= k < i ==> {
                        &&& resumed_ok(#[trigger] self.job.items@[k], items0[k], plan_at(self.plans@, k))
                        &&& out@[k].status == self.job.items@[k]
                        &&& same_opt_plan(out@[k].plan, if resumable(items0[k].state) {
                            plan_at(self.plans@, k)
                        } else {
                            None
                        })
                    },
                forall|k: int| i <= k < items0.len() ==> #[trigger] self.job.items@[k] == items0[k],
                self.job.running,
                !self.job.cancelled,
                self.job.finished_at is None,
                self.job.job_id == old(self).job.job_id,
                self.job.total == old(self).job.total,
                self.job.done == old(self).job.done,
                self.job.failed == old(self).job.failed,
                self.job.skipped == old(self).job.skipped,
                self.job.bytes_before == old(self).job.bytes_before,
                self.job.bytes_after == old(self).job.bytes_after,
                self.job.started_at == old(self).job.started_at,
                self.job.output_dir == old(self).job.output_dir,
                self.job.replaces_originals == old(self).job.replaces_originals,
                self.job.replacements == old(self).job.replacements,
                self.job.finalized == old(self).job.finalized,
            decreases items0.len() - i,
        {
            let st = self.job.items[i].state;
            let is_resumable = st == BatchItemState::Pending || st == BatchItemState::Running;
            let plan: Option<EncodePlan> = if i < self.plans.len() {
                match &self.plans[i] {
                    Some(p) => Some(p.duplicate()),
                    None => None,
                }
            } else {
                None
            };
            if is_resumable {
                let mut status = self.job.items[i].duplicate();
                match plan {
                    Some(p) => {
                        status.state = BatchItemState::Pending;
                        status.progress_permille = 0;
                        status.error = None;
                        self.job.items.set(i, status.duplicate());
                        out.push(PlannedItem { status, plan: Some(p) });
                    },
                    None => {
                        status.state = BatchItemState::Failed;
                        status.progress_permille = 0;
                        status.error = Some(String::from_str("The saved resume plan is missing."));
                        self.job.items.set(i, status.duplicate());
                        out.push(PlannedItem { status, plan: None });
                    },
                }
            } else {
                let status = self.job.items[i].duplicate();
                out.push(PlannedItem { status, plan: None });
            }
            i = i + 1;
        }
        out
    }

    /// Takes a newer snapshot of the job. A late worker snapshot cannot move
    /// the checkpoint backwards: one with fewer finished items, one that
    /// restarts a stopped job or one that undoes a finalization is ignored.
    pub fn update_job(&mut self, job: BatchJobStatus)
        ensures
            final(self).job == if accepts_update(old(self).job, job) {
                job
            } else {
                old(self).job
            },
            final(self).settings == old(self).settings,
            final(self).plans == old(self).plans,
    {
        let current_terminal = terminal_items(&self.job);
        let incoming_terminal = terminal_items(&job);
        if incoming_terminal < current_terminal || (!self.job.running && job.running) || (
        self.job.finalized && !job.finalized) {
            return;
        }
        self.job = job;
    }
}

/// However many snapshots arrive and in whatever order, the checkpoint
/// never loses a finished item, never restarts a stopped job and never
/// undoes a finalization.
pub proof fn law_checkpoint_never_moves_backwards(
    before: BatchJobStatus,
    incoming: BatchJobStatus,
    after: BatchJobStatus,
)
    requires
        after == if accepts_update(before, incoming) {
            incoming
        } else {
            before
        },
    ensures
        terminal_count(after.items@) >= terminal_count(before.items@),
        !before.running ==> !after.running,
        before.finalized ==> after.finalized,
{
}

/// Where the checkpoint files of an app live.
#[derive(Debug, Clone)]
pub struct BatchCheckpointStore {
    pub directory: String,
}

impl BatchCheckpointStore {
    pub fn new(app_data_dir: &str) -> (r: Self)
        ensures
            r.directory@ == join(app_data_dir@, CHECKPOINT_DIR@),
    {
        let d = chars_of(app_data_dir);
        let c = chars_of(CHECKPOINT_DIR);
        let j = join_chars(d.as_slice(), c.as_slice());
        BatchCheckpointStore { directory: crate::text::string_of(j.as_slice()) }
    }

    /// The checkpoint being used.
    pub fn active_path(&self) -> (r: String)
        ensures
            r@ == join(self.directory@, ACTIVE_FILE@),
    {
        self.file(ACTIVE_FILE)
    }

    /// The generation kept from before the last save.
    pub fn previous_path(&self) -> (r: String)
        ensures
            r@ == join(self.directory@, PREVIOUS_FILE@),
    {
        self.file(PREVIOUS_FILE)
    }

    /// Where a save is written before it becomes the active one.
    pub fn next_path(&self) -> (r: String)
        ensures
            r@ == join(self.directory@, NEXT_FILE@),
    {
        self.file(NEXT_FILE)
    }

    fn file(&self, name: &str) -> (r: String)
        ensures
            r@ == join(self.directory@, name@),
    {
        let d = chars_of(self.directory.as_str());
        let n = chars_of(name);
        let j = join_chars(d.as_slice(), n.as_slice());
        crate::text::string_of(j.as_slice())
    }
}

/// One step of saving a checkpoint.
#[derive(Debug, Clone)]
pub enum SaveStep {
    /// Create the checkpoint folder.
    MakeDir(String),
    /// Write the new checkpoint to this path.
    WriteNew(String),
    /// Copy the active checkpoint to the previous one; a failure is ignored.
    KeepPrevious { from: String, to: String },
    /// Remove the active checkpoint.
    RemoveActive(String),
    /// Rename the written checkpoint to the active one.
    Activate { from: String, to: String },
}

/// A save step in terms of paths.
pub enum SaveAct {
    MakeDir,
    Write(Seq<char>),
    Copy(Seq<char>, Seq<char>),
    Remove(Seq<char>),
    Rename(Seq<char>, Seq<char>),
}

pub open spec fn save_act(s: SaveStep) -> SaveAct {
    match s {
        SaveStep::MakeDir(_) => SaveAct::MakeDir,
        SaveStep::WriteNew(p) => SaveAct::Write(p@),
        SaveStep::KeepPrevious { from, to } => SaveAct::Copy(from@, to@),
        SaveStep::RemoveActive(p) => SaveAct::Remove(p@),
        SaveStep::Activate { from, to } => SaveAct::Rename(from@, to@),
    }
}

pub open spec fn save_acts(s: Seq<SaveStep>) -> Seq<SaveAct> {
    s.map_values(|x: SaveStep| save_act(x))
}

/// Saving into `dir`: the new checkpoint is written beside the active one;
/// the active one, if there is one, is kept as the previous generation and
/// removed; then the new one is renamed into place.
pub open spec fn spec_save_acts(dir: Seq<char>, active_exists: bool) -> Seq<SaveAct> {
    let active = join(dir, ACTIVE_FILE@);
    let previous = join(dir, PREVIOUS_FILE@);
    let next = join(dir, NEXT_FILE@);
    seq![SaveAct::MakeDir, SaveAct::Write(next)] + (if active_exists {
        seq![SaveAct::Copy(active, previous), SaveAct::Remove(active)]
    } else {
        Seq::empty()
    }) + seq![SaveAct::Rename(next, active)]
}

/// Checkpoint files by path, each with a number standing for its content.
pub type Stored = Map<Seq<char>, int>;

/// What a save step does when it succeeds; `new` is the checkpoint written.
pub open spec fn save_apply(fs: Stored, a: SaveAct, new: int) -> Stored {
    match a {
        SaveAct::MakeDir => fs,
        SaveAct::Write(p) => fs.insert(p, new),
        SaveAct::Copy(x, y) => fs.insert(y, fs[x]),
        SaveAct::Remove(x) => fs.remove(x),
        SaveAct::Rename(x, y) => fs.remove(x).insert(y, fs[x]),
    }
}

/// The files once the first `k` steps have run.
pub open spec fn run_save(fs: Stored, acts: Seq<SaveAct>, k: nat, new: int) -> Stored
    decreases k,
{
    if k == 0 || k > acts.len() {
        fs
    } else {
        save_apply(run_save(fs, acts, (k - 1) as nat, new), acts[k - 1], new)
    }
}

/// What loading finds: the active checkpoint, else the previous one.
pub open spec fn loaded(fs: Stored, dir: Seq<char>) -> Option<int> {
    let active = join(dir, ACTIVE_FILE@);
    let previous = join(dir, PREVIOUS_FILE@);
    if fs.dom().contains(active) {
        Some(fs[active])
    } else if fs.dom().contains(previous) {
        Some(fs[previous])
    } else {
        None
    }
}

proof fn lemma_store_paths_differ(dir: Seq<char>)
    ensures
        join(dir, ACTIVE_FILE@) != join(dir, PREVIOUS_FILE@),
        join(dir, ACTIVE_FILE@) != join(dir, NEXT_FILE@),
        join(dir, PREVIOUS_FILE@) != join(dir, NEXT_FILE@),
{
    reveal_strlit("active.json");
    reveal_strlit("active.previous.json");
    reveal_strlit("active.next.json");
    assert(ACTIVE_FILE@.len() == 11);
    assert(PREVIOUS_FILE@.len() == 20);
    assert(NEXT_FILE@.len() == 16);
    assert(ACTIVE_FILE@[0] == 'a' && PREVIOUS_FILE@[0] == 'a' && NEXT_FILE@[0] == 'a');
    let extra: int = if dir.len() == 0 { 0 } else if crate::path_text::is_sep(dir.last()) { dir.len() as int } else { dir.len() as int + 1 };
    assert(join(dir, ACTIVE_FILE@).len() == extra + 11);
    assert(join(dir, PREVIOUS_FILE@).len() == extra + 20);
    assert(join(dir, NEXT_FILE@).len() == extra + 16);
}

/// A save cut short after any of its steps leaves a checkpoint to load:
/// the one loaded before, or the new one; once every step has run, the new
/// one. (Whether the active file exists is checked just before saving.)
pub proof fn law_interrupted_save_loads_old_or_new(fs: Stored, dir: Seq<char>, new: int, k: nat)
    requires
        k <= spec_save_acts(dir, fs.dom().contains(join(dir, ACTIVE_FILE@))).len(),
    ensures
        ({
            let acts = spec_save_acts(dir, fs.dom().contains(join(dir, ACTIVE_FILE@)));
            let now = loaded(run_save(fs, acts, k, new), dir);
            &&& now == loaded(fs, dir) || now == Some(new)
            &&& k == acts.len() ==> now == Some(new)
            &&& loaded(fs, dir) is Some ==> now is Some
        }),
{
    lemma_store_paths_differ(dir);
    reveal_with_fuel(run_save, 6);
}

impl BatchCheckpointStore {
    /// The steps of saving a checkpoint; `active_exists` tells whether the
    /// active checkpoint is there.
    pub fn save_steps(&self, active_exists: bool) -> (r: Vec<SaveStep>)
        ensures
            save_acts(r@) == spec_save_acts(self.directory@, active_exists),
    {
        let mut out: Vec<SaveStep> = Vec::new();
        out.push(SaveStep::MakeDir(self.directory.clone()));
        out.push(SaveStep::WriteNew(self.next_path()));
        if active_exists {
            out.push(SaveStep::KeepPrevious { from: self.active_path(), to: self.previous_path() });
            out.push(SaveStep::RemoveActive(self.active_path()));
        }
        out.push(SaveStep::Activate { from: self.next_path(), to: self.active_path() });
        assert(save_acts(out@) =~= spec_save_acts(self.directory@, active_exists));
        out
    }

    /// The files loading tries, in order: the active checkpoint, then the
    /// previous one.
    pub fn load_candidates(&self) -> (r: Vec<String>)
        ensures
            r@.len() == 2,
            r@[0]@ == join(self.directory@, ACTIVE_FILE@),
            r@[1]@ == join(self.directory@, PREVIOUS_FILE@),
    {
        let mut out: Vec<String> = Vec::new();
        out.push(self.active_path());
        out.push(self.previous_path());
        out
    }

    /// The files clearing removes, when they are there.
    pub fn clear_candidates(&self) -> (r: Vec<String>)
        ensures
            r@.len() == 3,
            r@[0]@ == join(self.directory@, ACTIVE_FILE@),
            r@[1]@ == join(self.directory@, PREVIOUS_FILE@),
            r@[2]@ == join(self.directory@, NEXT_FILE@),
    {
        let mut out: Vec<String> = Vec::new();
        out.push(self.active_path());
        out.push(self.previous_path());
        out.push(self.next_path());
        out
    }
}

/// The temp outputs of the work plans among `planned`, in order.
pub open spec fn temp_outputs_of(planned: Seq<PlannedItem>) -> Seq<Seq<char>>
    decreases planned.len(),
{
    if planned.len() == 0 {
        Seq::empty()
    } else {
        let rest = temp_outputs_of(planned.drop_last());
        match planned.last().plan {
            Some(p) => rest.push(p.temp_output@),
            None => rest,
        }
    }
}

/// The half-written files a resumed job leaves behind: the `temp_output` of
/// each plan `prepare_resume` handed back, in order. They are deleted
/// before the job runs again.
pub fn resume_temp_outputs(planned: &Vec<PlannedItem>) -> (r: Vec<String>)
    ensures
        crate::text::views(r@) == temp_outputs_of(planned@),
{
    let mut out: Vec<String> = Vec::new();
    let mut i: usize = 0;
    while i < planned.len()
        invariant
            i <= planned@.len(),
            crate::text::views(out@) == temp_outputs_of(planned@.take(i as int)),
        decreases planned@.len() - i,
    {
        let ghost before = out@;
        assert(planned@.take(i as int + 1).drop_last() =~= planned@.take(i as int));
        match &planned[i].plan {
            Some(p) => {
                out.push(p.temp_output.clone());
                assert(crate::text::views(out@) =~= crate::text::views(before).push(p.temp_output@));
            },
            None => {},
        }
        i = i + 1;
    }
    assert(planned@.take(planned@.len() as int) =~= planned@);
    out
}

} // verus!

