//! Committing a set of file changes to a world all at once: the decisions of
//! the commit, as a state machine. The caller prepares each new file beside
//! its destination, performs each action on disk and reports how it went;
//! this module decides what comes next. A set is either applied whole or,
//! when a step fails, rolled back whole.

use vstd::prelude::*;
use crate::text::push_str;

verus! {

/// Where a commit stands.
#[derive(Clone, Copy, PartialEq, Eq, Debug, Structural)]
pub enum CommitPhase {
    /// Applying the changes in order.
    Applying,
    /// Restoring every original file after a failed step.
    RollingBack,
    /// Removing the set-aside originals after every change was applied.
    CleaningUp,
    /// Finished.
    Done,
}

/// The state of a commit of `count` changes, of which the first `applied`
/// are in place.
pub struct CommitState {
    pub count: usize,
    pub applied: usize,
    pub phase: CommitPhase,
    /// The error that started a roll-back.
    pub error: Option<String>,
}

/// What the caller does next.
pub enum CommitAction {
    /// Set the destination of change `i` aside and put the new file there.
    Apply(usize),
    /// Put every set-aside original back and remove the files that were new.
    RollBack,
    /// Remove the set-aside originals and the leftover temporary files.
    CleanUp,
    /// Stop with this result.
    Finish(Result<(), String>),
}

/// How the last action went.
pub enum FsOutcome {
    Done,
    Failed(String),
}

/// A state the commit can be in: no more applied changes than there are, a
/// change left to apply while applying, all of them applied while cleaning
/// up, and an error recorded while rolling back.
pub open spec fn commit_valid(s: CommitState) -> bool {
    &&& s.applied <= s.count
    &&& s.phase == CommitPhase::Applying ==> s.applied < s.count
    &&& s.phase == CommitPhase::CleaningUp ==> s.applied == s.count
    &&& s.phase == CommitPhase::RollingBack ==> s.error is Some
}

/// Starts a commit of `count` changes: refused when there are none,
/// otherwise the first change is applied.
pub fn commit_start(count: usize) -> (r: (CommitState, CommitAction))
    ensures
        commit_valid(r.0),
        count == 0 ==> r.0.phase == CommitPhase::Done && (r.1 matches CommitAction::Finish(Err(e))
            && e@ == "写入文件集合不能为空"@),
        count > 0 ==> r.0.phase == CommitPhase::Applying && r.0.applied == 0 && r.0.count == count && (r.1
            matches CommitAction::Apply(i) && i == 0),
{
    if count == 0 {
        let s = CommitState { count, applied: 0, phase: CommitPhase::Done, error: None };
        return (s, CommitAction::Finish(Err(String::from_str("写入文件集合不能为空"))));
    }
    (CommitState { count, applied: 0, phase: CommitPhase::Applying, error: None }, CommitAction::Apply(0))
}

fn joined(a: &String, b: &str) -> (r: String)
    ensures
        r@ == a@ + b@,
{
    let mut s = String::new();
    push_str(&mut s, a.as_str());
    push_str(&mut s, b);
    s
}

/// The step a commit takes from `s` when the last action went as `outcome`,
/// ending in `r`:
/// - applying: a change in place moves on to the next change, or to the
///   clean-up after the last; a failed change starts the roll-back;
/// - rolling back: a complete roll-back ends with the failed step's error
///   and `；已恢复全部原文件`, with nothing applied; a failed one ends with
///   both errors;
/// - cleaning up: ends with `Ok`, or with the clean-up's error.
pub open spec fn commit_step(s: CommitState, outcome: FsOutcome, r: (CommitState, CommitAction)) -> bool {
    &&& r.0.count == s.count
    &&& match s.phase {
        CommitPhase::Applying => match outcome {
            FsOutcome::Done => if s.applied + 1 == s.count {
                &&& r.0.phase == CommitPhase::CleaningUp
                &&& r.0.applied == s.count
                &&& r.1 is CleanUp
            } else {
                &&& r.0.phase == CommitPhase::Applying
                &&& r.0.applied == s.applied + 1
                &&& (r.1 matches CommitAction::Apply(i) && i == s.applied + 1)
            },
            FsOutcome::Failed(e) => {
                &&& r.0.phase == CommitPhase::RollingBack
                &&& r.0.applied == s.applied
                &&& (r.0.error matches Some(x) && x@ == e@)
                &&& r.1 is RollBack
            },
        },
        CommitPhase::RollingBack => match outcome {
            FsOutcome::Done => {
                &&& r.0.phase == CommitPhase::Done
                &&& r.0.applied == 0
                &&& (r.1 matches CommitAction::Finish(Err(m)) && m@ == s.error->0@ + "；已恢复全部原文件"@)
            },
            FsOutcome::Failed(e) => {
                &&& r.0.phase == CommitPhase::Done
                &&& r.0.applied == s.applied
                &&& (r.1 matches CommitAction::Finish(Err(m)) && m@ == s.error->0@ + "；恢复失败: "@ + e@)
            },
        },
        CommitPhase::CleaningUp => match outcome {
            FsOutcome::Done => {
                &&& r.0.phase == CommitPhase::Done
                &&& r.0.applied == s.count
                &&& r.1 matches CommitAction::Finish(Ok(()))
            },
            FsOutcome::Failed(e) => {
                &&& r.0.phase == CommitPhase::Done
                &&& r.0.applied == s.count
                &&& (r.1 matches CommitAction::Finish(Err(m)) && m@ == e@)
            },
        },
        CommitPhase::Done => false,
    }
}

/// The next step of a commit after an action went as `outcome`, as
/// `commit_step` says.
pub fn commit_next(s: CommitState, outcome: FsOutcome) -> (r: (CommitState, CommitAction))
    requires
        commit_valid(s),
        s.phase != CommitPhase::Done,
    ensures
        commit_valid(r.0),
        commit_step(s, outcome, r),
{
    let count = s.count;
    match s.phase {
        CommitPhase::Applying => match outcome {
            FsOutcome::Done => {
                let a = s.applied + 1;
                if a == count {
                    (CommitState { count, applied: a, phase: CommitPhase::CleaningUp, error: None }, CommitAction::CleanUp)
                } else {
                    (CommitState { count, applied: a, phase: CommitPhase::Applying, error: None }, CommitAction::Apply(a))
                }
            },
            FsOutcome::Failed(e) => (
                CommitState { count, applied: s.applied, phase: CommitPhase::RollingBack, error: Some(e) },
                CommitAction::RollBack,
            ),
        },
        CommitPhase::RollingBack => {
            let first = match s.error {
                Some(e) => e,
                None => String::new(),
            };
            match outcome {
                FsOutcome::Done => {
                    let m = joined(&first, "；已恢复全部原文件");
                    (CommitState { count, applied: 0, phase: CommitPhase::Done, error: None }, CommitAction::Finish(Err(m)))
                },
                FsOutcome::Failed(e) => {
                    let mut m = joined(&first, "；恢复失败: ");
                    push_str(&mut m, e.as_str());
                    (
                        CommitState { count, applied: s.applied, phase: CommitPhase::Done, error: None },
                        CommitAction::Finish(Err(m)),
                    )
                },
            }
        },
        CommitPhase::CleaningUp => match outcome {
            FsOutcome::Done => (
                CommitState { count, applied: count, phase: CommitPhase::Done, error: None },
                CommitAction::Finish(Ok(())),
            ),
            FsOutcome::Failed(e) => (
                CommitState { count, applied: count, phase: CommitPhase::Done, error: None },
                CommitAction::Finish(Err(e)),
            ),
        },
        CommitPhase::Done => (s, CommitAction::Finish(Ok(()))),
    }
}

/// Every step keeps the commit in a valid state; a commit that ends with
/// `Ok` has every change in place, and one that ends after a complete
/// roll-back has none.
pub proof fn lemma_all_or_nothing(s: CommitState, outcome: FsOutcome, r: (CommitState, CommitAction))
    requires
        commit_valid(s),
        s.phase != CommitPhase::Done,
        commit_step(s, outcome, r),
    ensures
        r.1 matches CommitAction::Finish(Ok(())) ==> r.0.applied == r.0.count && s.phase == CommitPhase::CleaningUp,
        s.phase == CommitPhase::RollingBack && outcome is Done ==> r.0.applied == 0,
        r.1 is Apply ==> s.phase == CommitPhase::Applying && outcome is Done,
{
}

} // verus!
