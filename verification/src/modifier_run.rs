//! Applying a modifier change to a world: the decisions of the run, as a
//! state machine. The caller takes the operation snapshot, builds the new
//! files, writes them, checks them and records the outcome; after each of
//! these it reports how it went, and this module says what comes next and
//! which progress phase to show. A failed write or a failed check restores
//! the world from the snapshot.

use vstd::prelude::*;
use crate::modifier::ModifierProgressPhase;
use crate::text::push_str;

verus! {

/// Where a run stands.
#[derive(Clone, Copy, PartialEq, Eq, Debug, Structural)]
pub enum RunStage {
    Snapshotting,
    Building,
    Writing,
    Verifying,
    /// Restoring the snapshot after a failed write.
    RestoringAfterWrite,
    /// Restoring the snapshot after a failed check.
    RestoringAfterCheck,
    /// Marking the snapshot as committed.
    Committing,
    Done,
}

/// The state of a run: its stage, and the error of a failed write while
/// the snapshot is restored.
pub struct RunState {
    pub stage: RunStage,
    pub error: Option<String>,
}

/// What the caller does next.
pub enum RunStep {
    /// Take the operation snapshot of the affected files.
    Snapshot,
    /// Build the new files.
    Build,
    /// Write them to the world.
    Write,
    /// Check what was written.
    Check,
    /// Restore the world from the snapshot and mark it as needing recovery.
    Restore,
    /// Mark the snapshot as committed.
    MarkCommitted,
    /// Stop with this result.
    Finish(Result<(), String>),
}

/// How the last step went.
pub enum RunEvent {
    Succeeded,
    Failed(String),
}

/// The progress phase shown when the caller starts `step`.
pub open spec fn phase_of(step: RunStep) -> Option<ModifierProgressPhase> {
    match step {
        RunStep::Snapshot => Some(ModifierProgressPhase::CreatingSnapshot),
        RunStep::Build => Some(ModifierProgressPhase::BuildingChanges),
        RunStep::Write => Some(ModifierProgressPhase::WritingSave),
        RunStep::Check => Some(ModifierProgressPhase::VerifyingSave),
        RunStep::Finish(Ok(())) => Some(ModifierProgressPhase::RefreshingData),
        _ => None,
    }
}

/// The progress phase to show when starting `step` (see `phase_of`).
pub fn step_phase(step: &RunStep) -> (r: Option<ModifierProgressPhase>)
    ensures
        r == phase_of(*step),
{
    match step {
        RunStep::Snapshot => Some(ModifierProgressPhase::CreatingSnapshot),
        RunStep::Build => Some(ModifierProgressPhase::BuildingChanges),
        RunStep::Write => Some(ModifierProgressPhase::WritingSave),
        RunStep::Check => Some(ModifierProgressPhase::VerifyingSave),
        RunStep::Finish(Ok(())) => Some(ModifierProgressPhase::RefreshingData),
        _ => None,
    }
}

/// A state a run can be in: the error of a failed write is kept while the
/// snapshot is restored after it.
pub open spec fn run_valid(s: RunState) -> bool {
    s.stage == RunStage::RestoringAfterWrite ==> s.error is Some
}

/// Starts a run: the snapshot comes first.
pub fn run_start() -> (r: (RunState, RunStep))
    ensures
        run_valid(r.0),
        r.0.stage == RunStage::Snapshotting,
        r.1 is Snapshot,
{
    (RunState { stage: RunStage::Snapshotting, error: None }, RunStep::Snapshot)
}

/// The step a run takes from `s` when the last step went as `ev`, ending
/// in `r`:
/// - snapshot, build, write, check and commit follow each other when each
///   succeeds, and the run then ends with `Ok`;
/// - a failed snapshot, build or commit ends the run with its error, the
///   world being untouched by then (or already checked);
/// - a failed write restores the snapshot, and ends with
///   `修改失败，已从操作回滚点恢复: ` and the error, or, when the restore fails
///   too, `修改失败且自动恢复失败: `, the error, `；恢复错误: ` and the
///   restore's error;
/// - a failed check restores the snapshot and ends with
///   `写入后校验失败，已从操作回滚点恢复`, or with the restore's error.
pub open spec fn run_step(s: RunState, ev: RunEvent, r: (RunState, RunStep)) -> bool {
    match s.stage {
        RunStage::Snapshotting => match ev {
            RunEvent::Succeeded => r.0.stage == RunStage::Building && r.1 is Build,
            RunEvent::Failed(e) => r.0.stage == RunStage::Done && (r.1 matches RunStep::Finish(Err(m)) && m@ == e@),
        },
        RunStage::Building => match ev {
            RunEvent::Succeeded => r.0.stage == RunStage::Writing && r.1 is Write,
            RunEvent::Failed(e) => r.0.stage == RunStage::Done && (r.1 matches RunStep::Finish(Err(m)) && m@ == e@),
        },
        RunStage::Writing => match ev {
            RunEvent::Succeeded => r.0.stage == RunStage::Verifying && r.1 is Check,
            RunEvent::Failed(e) => {
                &&& r.0.stage == RunStage::RestoringAfterWrite
                &&& (r.0.error matches Some(x) && x@ == e@)
                &&& r.1 is Restore
            },
        },
        RunStage::Verifying => match ev {
            RunEvent::Succeeded => r.0.stage == RunStage::Committing && r.1 is MarkCommitted,
            RunEvent::Failed(_) => r.0.stage == RunStage::RestoringAfterCheck && r.1 is Restore,
        },
        RunStage::RestoringAfterWrite => match ev {
            RunEvent::Succeeded => r.0.stage == RunStage::Done && (r.1 matches RunStep::Finish(Err(m))
                && m@ == "修改失败，已从操作回滚点恢复: "@ + s.error->0@),
            RunEvent::Failed(e) => r.0.stage == RunStage::Done && (r.1 matches RunStep::Finish(Err(m))
                && m@ == "修改失败且自动恢复失败: "@ + s.error->0@ + "；恢复错误: "@ + e@),
        },
        RunStage::RestoringAfterCheck => match ev {
            RunEvent::Succeeded => r.0.stage == RunStage::Done && (r.1 matches RunStep::Finish(Err(m))
                && m@ == "写入后校验失败，已从操作回滚点恢复"@),
            RunEvent::Failed(e) => r.0.stage == RunStage::Done && (r.1 matches RunStep::Finish(Err(m)) && m@ == e@),
        },
        RunStage::Committing => match ev {
            RunEvent::Succeeded => r.0.stage == RunStage::Done && r.1 matches RunStep::Finish(Ok(())),
            RunEvent::Failed(e) => r.0.stage == RunStage::Done && (r.1 matches RunStep::Finish(Err(m)) && m@ == e@),
        },
        RunStage::Done => false,
    }
}

/// The next step of a run after the last step went as `ev`, as `run_step`
/// says.
pub fn run_next(s: RunState, ev: RunEvent) -> (r: (RunState, RunStep))
    requires
        run_valid(s),
        s.stage != RunStage::Done,
    ensures
        run_valid(r.0),
        run_step(s, ev, r),
{
    let done = RunState { stage: RunStage::Done, error: None };
    match s.stage {
        RunStage::Snapshotting => match ev {
            RunEvent::Succeeded => (RunState { stage: RunStage::Building, error: None }, RunStep::Build),
            RunEvent::Failed(e) => (done, RunStep::Finish(Err(e))),
        },
        RunStage::Building => match ev {
            RunEvent::Succeeded => (RunState { stage: RunStage::Writing, error: None }, RunStep::Write),
            RunEvent::Failed(e) => (done, RunStep::Finish(Err(e))),
        },
        RunStage::Writing => match ev {
            RunEvent::Succeeded => (RunState { stage: RunStage::Verifying, error: None }, RunStep::Check),
            RunEvent::Failed(e) => (RunState { stage: RunStage::RestoringAfterWrite, error: Some(e) }, RunStep::Restore),
        },
        RunStage::Verifying => match ev {
            RunEvent::Succeeded => (RunState { stage: RunStage::Committing, error: None }, RunStep::MarkCommitted),
            RunEvent::Failed(_) => (RunState { stage: RunStage::RestoringAfterCheck, error: None }, RunStep::Restore),
        },
        RunStage::RestoringAfterWrite => {
            let first = match s.error {
                Some(e) => e,
                None => String::new(),
            };
            match ev {
                RunEvent::Succeeded => {
                    let mut m = String::new();
                    push_str(&mut m, "修改失败，已从操作回滚点恢复: ");
                    push_str(&mut m, first.as_str());
                    (done, RunStep::Finish(Err(m)))
                },
                RunEvent::Failed(e) => {
                    let mut m = String::new();
                    push_str(&mut m, "修改失败且自动恢复失败: ");
                    push_str(&mut m, first.as_str());
                    push_str(&mut m, "；恢复错误: ");
                    push_str(&mut m, e.as_str());
                    (done, RunStep::Finish(Err(m)))
                },
            }
        },
        RunStage::RestoringAfterCheck => match ev {
            RunEvent::Succeeded => (done, RunStep::Finish(Err(String::from_str("写入后校验失败，已从操作回滚点恢复")))),
            RunEvent::Failed(e) => (done, RunStep::Finish(Err(e))),
        },
        RunStage::Committing => match ev {
            RunEvent::Succeeded => (done, RunStep::Finish(Ok(()))),
            RunEvent::Failed(e) => (done, RunStep::Finish(Err(e))),
        },
        RunStage::Done => (s, RunStep::Finish(Ok(()))),
    }
}

/// A run ends with `Ok` only from a committed snapshot after a passed
/// check, and a failed write or check is always followed by a restore.
pub proof fn lemma_restore_after_failure(s: RunState, ev: RunEvent, r: (RunState, RunStep))
    requires
        run_valid(s),
        s.stage != RunStage::Done,
        run_step(s, ev, r),
    ensures
        r.1 matches RunStep::Finish(Ok(())) ==> s.stage == RunStage::Committing && ev is Succeeded,
        (s.stage == RunStage::Writing || s.stage == RunStage::Verifying) && ev is Failed ==> r.1 is Restore,
        r.1 is Write ==> s.stage == RunStage::Building && ev is Succeeded,
{
}


/// The kind of a step, without the message of a finish.
#[derive(Clone, Copy, PartialEq, Eq, Debug, Structural)]
pub enum StepKind {
    Snapshot,
    Build,
    Write,
    Check,
    Restore,
    MarkCommitted,
    FinishOk,
    FinishErr,
}

pub open spec fn kind_of(step: RunStep) -> StepKind {
    match step {
        RunStep::Snapshot => StepKind::Snapshot,
        RunStep::Build => StepKind::Build,
        RunStep::Write => StepKind::Write,
        RunStep::Check => StepKind::Check,
        RunStep::Restore => StepKind::Restore,
        RunStep::MarkCommitted => StepKind::MarkCommitted,
        RunStep::Finish(Ok(())) => StepKind::FinishOk,
        RunStep::Finish(Err(_)) => StepKind::FinishErr,
    }
}

/// The stage and kind of step that follow `stage` when the last step
/// succeeded (`ok`) or failed (see `run_step`).
pub open spec fn stage_next(stage: RunStage, ok: bool) -> (RunStage, StepKind) {
    match stage {
        RunStage::Snapshotting => if ok { (RunStage::Building, StepKind::Build) } else { (RunStage::Done, StepKind::FinishErr) },
        RunStage::Building => if ok { (RunStage::Writing, StepKind::Write) } else { (RunStage::Done, StepKind::FinishErr) },
        RunStage::Writing => if ok { (RunStage::Verifying, StepKind::Check) } else { (RunStage::RestoringAfterWrite, StepKind::Restore) },
        RunStage::Verifying => if ok {
            (RunStage::Committing, StepKind::MarkCommitted)
        } else {
            (RunStage::RestoringAfterCheck, StepKind::Restore)
        },
        RunStage::RestoringAfterWrite => (RunStage::Done, StepKind::FinishErr),
        RunStage::RestoringAfterCheck => (RunStage::Done, StepKind::FinishErr),
        RunStage::Committing => if ok { (RunStage::Done, StepKind::FinishOk) } else { (RunStage::Done, StepKind::FinishErr) },
        RunStage::Done => (RunStage::Done, StepKind::FinishErr),
    }
}

/// The progress phase shown for a kind of step (see `phase_of`).
pub open spec fn kind_phase(k: StepKind) -> Seq<ModifierProgressPhase> {
    match k {
        StepKind::Snapshot => seq![ModifierProgressPhase::CreatingSnapshot],
        StepKind::Build => seq![ModifierProgressPhase::BuildingChanges],
        StepKind::Write => seq![ModifierProgressPhase::WritingSave],
        StepKind::Check => seq![ModifierProgressPhase::VerifyingSave],
        StepKind::FinishOk => seq![ModifierProgressPhase::RefreshingData],
        _ => Seq::empty(),
    }
}

/// Each step of a run is the one `stage_next` gives, and shows the phase
/// `kind_phase` gives.
pub proof fn lemma_step_kinds(s: RunState, ev: RunEvent, r: (RunState, RunStep))
    requires
        s.stage != RunStage::Done,
        run_step(s, ev, r),
    ensures
        (r.0.stage, kind_of(r.1)) == stage_next(s.stage, ev is Succeeded),
        kind_phase(kind_of(r.1)) == match phase_of(r.1) {
            Some(p) => seq![p],
            None => Seq::<ModifierProgressPhase>::empty(),
        },
{
}

/// The phases a run shows from `stage` and a step of kind `k` on, when its
/// steps go as `oks` says, and how it ends: `Some(true)` with `Ok`,
/// `Some(false)` with an error, `None` when `oks` runs out first.
pub open spec fn run_from(stage: RunStage, k: StepKind, oks: Seq<bool>) -> (Seq<ModifierProgressPhase>, Option<bool>)
    decreases oks.len(),
{
    if k == StepKind::FinishOk {
        (kind_phase(k), Some(true))
    } else if k == StepKind::FinishErr {
        (kind_phase(k), Some(false))
    } else if oks.len() == 0 {
        (kind_phase(k), None)
    } else {
        let (st2, k2) = stage_next(stage, oks[0]);
        let (rest, end) = run_from(st2, k2, oks.drop_first());
        (kind_phase(k) + rest, end)
    }
}

/// The phases of a whole run.
pub open spec fn full_phases() -> Seq<ModifierProgressPhase> {
    seq![
        ModifierProgressPhase::CreatingSnapshot,
        ModifierProgressPhase::BuildingChanges,
        ModifierProgressPhase::WritingSave,
        ModifierProgressPhase::VerifyingSave,
        ModifierProgressPhase::RefreshingData
    ]
}

/// A run that ends with `Ok` shows exactly the phases snapshot, building,
/// writing, checking and refreshing, in that order; one that ends with an
/// error shows a part of them from the start, without refreshing. No run
/// shows the process check.
pub proof fn lemma_whole_run(oks: Seq<bool>)
    ensures
        ({
            let (ph, end) = run_from(RunStage::Snapshotting, StepKind::Snapshot, oks);
            &&& end == Some(true) ==> ph == full_phases()
            &&& end == Some(false) ==> 1 <= ph.len() < 5 && ph == full_phases().take(ph.len() as int)
        }),
{
    reveal_with_fuel(run_from, 8);
    if oks.len() >= 1 {
        let o1 = oks.drop_first();
        if o1.len() >= 1 {
            let o2 = o1.drop_first();
            if o2.len() >= 1 {
                let o3 = o2.drop_first();
                if o3.len() >= 1 {
                    let o4 = o3.drop_first();
                    if o4.len() >= 1 {
                        let o5 = o4.drop_first();
                    }
                }
            }
        }
    }
    let (ph, end) = run_from(RunStage::Snapshotting, StepKind::Snapshot, oks);
    if end == Some(true) {
        assert(ph =~= full_phases());
    }
    if end == Some(false) {
        assert(ph =~= full_phases().take(ph.len() as int));
    }
}
} // verus!
