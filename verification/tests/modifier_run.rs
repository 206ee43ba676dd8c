use palsave::modifier::ModifierProgressPhase;
use palsave::modifier_run::{run_next, run_start, step_phase, RunEvent, RunStage, RunStep};

fn phases_of_a_clean_run() -> (Vec<Option<ModifierProgressPhase>>, Result<(), String>) {
    let (mut s, mut step) = run_start();
    let mut phases = Vec::new();
    loop {
        phases.push(step_phase(&step));
        if let RunStep::Finish(r) = step {
            return (phases, r);
        }
        let (n, ns) = run_next(s, RunEvent::Succeeded);
        s = n;
        step = ns;
    }
}

#[test]
fn a_clean_run_shows_the_phases_in_order() {
    let (phases, result) = phases_of_a_clean_run();
    assert_eq!(result, Ok(()));
    assert_eq!(
        phases,
        vec![
            Some(ModifierProgressPhase::CreatingSnapshot),
            Some(ModifierProgressPhase::BuildingChanges),
            Some(ModifierProgressPhase::WritingSave),
            Some(ModifierProgressPhase::VerifyingSave),
            None,
            Some(ModifierProgressPhase::RefreshingData),
        ]
    );
}

fn run_to_write() -> palsave::modifier_run::RunState {
    let (s, _) = run_start();
    let (s, _) = run_next(s, RunEvent::Succeeded);
    let (s, step) = run_next(s, RunEvent::Succeeded);
    assert!(matches!(step, RunStep::Write));
    s
}

#[test]
fn a_failed_write_is_restored() {
    let s = run_to_write();
    let (s, step) = run_next(s, RunEvent::Failed("提交新文件失败: x".to_string()));
    assert!(matches!(step, RunStep::Restore));
    assert_eq!(s.stage, RunStage::RestoringAfterWrite);
    let (_, step) = run_next(s, RunEvent::Succeeded);
    match step {
        RunStep::Finish(Err(e)) => assert_eq!(e, "修改失败，已从操作回滚点恢复: 提交新文件失败: x"),
        _ => panic!("expected the failure"),
    }
}

#[test]
fn a_failed_restore_reports_both_errors() {
    let s = run_to_write();
    let (s, _) = run_next(s, RunEvent::Failed("a".to_string()));
    let (_, step) = run_next(s, RunEvent::Failed("b".to_string()));
    match step {
        RunStep::Finish(Err(e)) => assert_eq!(e, "修改失败且自动恢复失败: a；恢复错误: b"),
        _ => panic!("expected the failure"),
    }
}

#[test]
fn a_failed_check_is_restored() {
    let s = run_to_write();
    let (s, _) = run_next(s, RunEvent::Succeeded);
    let (s, step) = run_next(s, RunEvent::Failed(String::new()));
    assert!(matches!(step, RunStep::Restore));
    let (_, step) = run_next(s, RunEvent::Succeeded);
    match step {
        RunStep::Finish(Err(e)) => assert_eq!(e, "写入后校验失败，已从操作回滚点恢复"),
        _ => panic!("expected the failure"),
    }
}

#[test]
fn a_failed_build_ends_the_run() {
    let (s, _) = run_start();
    let (s, _) = run_next(s, RunEvent::Succeeded);
    let (s, step) = run_next(s, RunEvent::Failed("所选公会不存在".to_string()));
    assert_eq!(s.stage, RunStage::Done);
    match step {
        RunStep::Finish(Err(e)) => assert_eq!(e, "所选公会不存在"),
        _ => panic!("expected the failure"),
    }
}
