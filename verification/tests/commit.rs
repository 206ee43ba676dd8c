use palsave::commit::{commit_next, commit_start, CommitAction, CommitPhase, FsOutcome};

#[test]
fn empty_change_set_is_refused() {
    let (s, a) = commit_start(0);
    assert_eq!(s.phase, CommitPhase::Done);
    match a {
        CommitAction::Finish(Err(e)) => assert_eq!(e, "写入文件集合不能为空"),
        _ => panic!("expected a refusal"),
    }
}

#[test]
fn every_change_applied_then_cleaned_up() {
    let (mut s, mut a) = commit_start(3);
    let mut applied = Vec::new();
    loop {
        match a {
            CommitAction::Apply(i) => applied.push(i),
            CommitAction::CleanUp => {}
            CommitAction::RollBack => panic!("no roll-back expected"),
            CommitAction::Finish(r) => {
                assert_eq!(r, Ok(()));
                break;
            }
        }
        let (n, na) = commit_next(s, FsOutcome::Done);
        s = n;
        a = na;
    }
    assert_eq!(applied, vec![0, 1, 2]);
    assert_eq!(s.applied, 3);
    assert_eq!(s.phase, CommitPhase::Done);
}

#[test]
fn failed_change_rolls_back_everything() {
    let (s, _) = commit_start(3);
    let (s, a) = commit_next(s, FsOutcome::Done);
    assert!(matches!(a, CommitAction::Apply(1)));
    let (s, a) = commit_next(s, FsOutcome::Failed("提交新文件失败: busy".to_string()));
    assert!(matches!(a, CommitAction::RollBack));
    assert_eq!(s.phase, CommitPhase::RollingBack);
    let (s, a) = commit_next(s, FsOutcome::Done);
    assert_eq!(s.applied, 0);
    match a {
        CommitAction::Finish(Err(e)) => assert_eq!(e, "提交新文件失败: busy；已恢复全部原文件"),
        _ => panic!("expected the failure"),
    }
}

#[test]
fn failed_roll_back_reports_both_errors() {
    let (s, _) = commit_start(1);
    let (s, _) = commit_next(s, FsOutcome::Failed("暂存原文件失败: x".to_string()));
    let (_, a) = commit_next(s, FsOutcome::Failed("恢复原文件失败: y".to_string()));
    match a {
        CommitAction::Finish(Err(e)) => assert_eq!(e, "暂存原文件失败: x；恢复失败: 恢复原文件失败: y"),
        _ => panic!("expected the failure"),
    }
}

#[test]
fn failed_clean_up_is_reported() {
    let (s, _) = commit_start(1);
    let (s, a) = commit_next(s, FsOutcome::Done);
    assert!(matches!(a, CommitAction::CleanUp));
    let (_, a) = commit_next(s, FsOutcome::Failed("清理事务旧文件失败: z".to_string()));
    match a {
        CommitAction::Finish(Err(e)) => assert_eq!(e, "清理事务旧文件失败: z"),
        _ => panic!("expected the failure"),
    }
}
