use nioh3_save_manager::workflow::{
    append_errors, check_probe, Requirement,
    Action, PlanFailure, PlanPath, Probe, Problem, Round, RunError, SaveKind, SavePlan, Slot,
    Survey,
};

fn good_survey() -> Survey {
    let dir = Probe::Directory;
    let file = Probe::File { len: 10 };
    Survey {
        asset_root: dir,
        account_dir: dir,
        source_dir: dir,
        tool_dir: dir,
        tool_exe: file,
        source_system_dir: dir,
        source_system_save: file,
        source_character_dir: dir,
        source_character_save: file,
        account_system_dir: dir,
        account_system_save: file,
        account_character_dir: Probe::NotFound,
        account_character_save: Probe::NotFound,
        mine_dir: Probe::NotFound,
        mine_save: Probe::NotFound,
        other_dir: dir,
        other_save: file,
    }
}

#[test]
fn labels_and_directories_of_save_kinds() {
    assert_eq!(SaveKind::Hand.label(), "手搓存档");
    assert_eq!(SaveKind::Magic.label(), "魔改存档");
    assert_eq!(SaveKind::Custom.label(), "自定义存档");
    assert_eq!(SaveKind::Hand.directory(), Some("HandMakeSave"));
    assert_eq!(SaveKind::Magic.directory(), Some("MagicMakeSave"));
    assert_eq!(SaveKind::Custom.directory(), None);
}

#[test]
fn a_plan_is_made_when_every_check_passes() {
    let plan = SavePlan::new(SaveKind::Magic, &good_survey()).unwrap();
    assert_eq!(plan.kind(), SaveKind::Magic);
}

#[test]
fn preflight_reports_the_first_failing_path() {
    let mut survey = good_survey();
    survey.tool_exe = Probe::File { len: 0 };
    survey.mine_dir = Probe::File { len: 3 };
    assert_eq!(
        SavePlan::new(SaveKind::Hand, &survey).unwrap_err(),
        PlanFailure { path: PlanPath::ToolExe, problem: Problem::NotANonemptyFile }
    );
    survey.asset_root = Probe::Failed;
    assert_eq!(
        SavePlan::new(SaveKind::Hand, &survey).unwrap_err(),
        PlanFailure { path: PlanPath::AssetRoot, problem: Problem::CannotAccessDirectory }
    );
}

#[test]
fn preflight_rejects_a_file_in_place_of_a_staging_directory() {
    let mut survey = good_survey();
    survey.other_dir = Probe::File { len: 1 };
    assert_eq!(
        SavePlan::new(SaveKind::Hand, &survey).unwrap_err(),
        PlanFailure { path: PlanPath::OtherDir, problem: Problem::NotADirectory }
    );
}

#[test]
fn each_requirement_reports_its_problem() {
    let mut survey = good_survey();
    survey.account_system_save = Probe::NotFound;
    assert_eq!(
        SavePlan::new(SaveKind::Hand, &survey).unwrap_err().problem,
        Problem::CannotAccessFile
    );
    let mut survey = good_survey();
    survey.source_character_save = Probe::Directory;
    assert_eq!(
        SavePlan::new(SaveKind::Hand, &survey).unwrap_err(),
        PlanFailure { path: PlanPath::SourceCharacterSave, problem: Problem::NotANonemptyFile }
    );
    let mut survey = good_survey();
    survey.account_character_save = Probe::Other;
    assert_eq!(
        SavePlan::new(SaveKind::Hand, &survey).unwrap_err(),
        PlanFailure { path: PlanPath::AccountCharacterSave, problem: Problem::NotAFile }
    );
    let mut survey = good_survey();
    survey.mine_save = Probe::Failed;
    assert_eq!(
        SavePlan::new(SaveKind::Hand, &survey).unwrap_err(),
        PlanFailure { path: PlanPath::MineSave, problem: Problem::CannotAccessFile }
    );
}

/// Runs a plan, answering each action with `answer`; returns the actions
/// asked for and the run's result.
fn run(mut answer: impl FnMut(Action) -> Result<bool, String>) -> (Vec<Action>, Result<(), RunError>) {
    let plan = SavePlan::new(SaveKind::Hand, &good_survey()).unwrap();
    let mut execution = plan.execute();
    let mut actions = Vec::new();
    loop {
        let action = execution.action();
        actions.push(action);
        if action == Action::Finish {
            return (actions, execution.into_result());
        }
        assert!(actions.len() < 100, "the run does not end");
        execution.advance(answer(action));
    }
}

/// The file system of a normal run: both local saves exist, the staging
/// files do not, the staging directories and the character directory do.
fn normal(action: Action) -> Result<bool, String> {
    match action {
        Action::ProbeOriginal(Slot::StagingMine) | Action::ProbeOriginal(Slot::StagingOther) => {
            Ok(false)
        }
        _ => Ok(true),
    }
}

#[test]
fn both_save_choices_use_selected_account_and_restore_staging() {
    let (actions, result) = run(normal);
    assert!(result.is_ok());
    assert_eq!(
        actions,
        [
            Action::AcquireLock,
            Action::ProbeOriginal(Slot::LocalSystem),
            Action::BackupOriginal(Slot::LocalSystem),
            Action::ProbeOriginal(Slot::LocalCharacter),
            Action::BackupOriginal(Slot::LocalCharacter),
            Action::ProbeOriginal(Slot::StagingMine),
            Action::ProbeOriginal(Slot::StagingOther),
            Action::ProbeStagingDir(Slot::StagingMine),
            Action::ProbeStagingDir(Slot::StagingOther),
            Action::StageIdentity(Round::System),
            Action::StageSource(Round::System),
            Action::Sign(Round::System),
            Action::CheckSigned(Round::System),
            Action::CollectSigned(Round::System),
            Action::StageIdentity(Round::Character),
            Action::StageSource(Round::Character),
            Action::Sign(Round::Character),
            Action::CheckSigned(Round::Character),
            Action::CollectSigned(Round::Character),
            Action::RemoveCreated(Slot::StagingMine),
            Action::RemoveCreated(Slot::StagingOther),
            Action::ProbeCurrent(Slot::LocalSystem),
            Action::CompareWithBackup(Slot::LocalSystem),
            Action::ProbeCurrent(Slot::LocalCharacter),
            Action::CompareWithBackup(Slot::LocalCharacter),
            Action::ProbeCharacterDir,
            Action::WriteSigned(Round::System),
            Action::WriteSigned(Round::Character),
            Action::Finish,
        ]
    );
}

#[test]
fn existing_staging_files_are_backed_up_and_put_back() {
    let (actions, result) = run(|action| match action {
        Action::ProbeStagingDir(_) => Ok(false),
        _ => Ok(true),
    });
    assert!(result.is_ok());
    assert!(actions.contains(&Action::BackupOriginal(Slot::StagingMine)));
    assert!(actions.contains(&Action::RestoreFromBackup(Slot::StagingMine)));
    assert!(actions.contains(&Action::RestoreFromBackup(Slot::StagingOther)));
    assert!(actions.contains(&Action::RemoveStagingDir(Slot::StagingMine)));
    assert!(actions.contains(&Action::RemoveStagingDir(Slot::StagingOther)));
}

#[test]
fn either_signing_failure_keeps_local_saves_and_restores_staging() {
    for round in [Round::System, Round::Character] {
        let (actions, result) = run(|action| {
            if action == Action::Sign(round) {
                Err("模拟用户取消".to_string())
            } else {
                normal(action)
            }
        });
        match result {
            Err(RunError::SigningStopped { error, restore_errors }) => {
                assert_eq!(error, "模拟用户取消");
                assert!(restore_errors.is_empty());
            }
            other => panic!("unexpected result {other:?}"),
        }
        assert!(!actions.iter().any(|a| matches!(a, Action::WriteSigned(_))));
        assert!(actions.contains(&Action::RemoveCreated(Slot::StagingMine)));
        assert!(actions.contains(&Action::RemoveCreated(Slot::StagingOther)));
    }
}

#[test]
fn empty_or_missing_signed_output_never_replaces_local_saves() {
    let (actions, result) = run(|action| {
        if action == Action::CheckSigned(Round::Character) {
            Err("改签结果为空".to_string())
        } else {
            normal(action)
        }
    });
    assert!(matches!(result, Err(RunError::SigningStopped { .. })));
    assert!(!actions.iter().any(|a| matches!(a, Action::WriteSigned(_))));
}

#[test]
fn failed_restores_are_all_reported() {
    let (_, result) = run(|action| match action {
        Action::Sign(Round::System) => Err("签名失败".to_string()),
        Action::RemoveCreated(Slot::StagingMine) => Err("无法删除".to_string()),
        Action::RemoveCreated(Slot::StagingOther) => Err("仍无法删除".to_string()),
        _ => normal(action),
    });
    match result {
        Err(RunError::SigningStopped { error, restore_errors }) => {
            assert_eq!(error, "签名失败");
            assert_eq!(restore_errors, ["无法删除", "仍无法删除"]);
        }
        other => panic!("unexpected result {other:?}"),
    }
    let (actions, result) = run(|action| match action {
        Action::RemoveCreated(Slot::StagingOther) => Err("无法删除".to_string()),
        _ => normal(action),
    });
    assert!(matches!(result, Err(RunError::StagingNotRestored { .. })));
    assert!(!actions.iter().any(|a| matches!(a, Action::WriteSigned(_))));
}

#[test]
fn overlapping_runs_cannot_share_the_tool() {
    let (actions, result) = run(|action| {
        if action == Action::AcquireLock {
            Err("已有另一个操作正在运行".to_string())
        } else {
            normal(action)
        }
    });
    assert_eq!(actions, [Action::AcquireLock, Action::Finish]);
    match result {
        Err(RunError::Lock(message)) => assert_eq!(message, "已有另一个操作正在运行"),
        other => panic!("unexpected result {other:?}"),
    }
}

#[test]
fn a_missing_system_save_stops_before_anything_is_written() {
    let (actions, result) = run(|action| {
        if action == Action::ProbeOriginal(Slot::LocalSystem) {
            Ok(false)
        } else {
            normal(action)
        }
    });
    assert!(matches!(result, Err(RunError::MissingRequired)));
    assert_eq!(actions.len(), 3);
}

#[test]
fn a_failed_backup_stops_the_run() {
    let (actions, result) = run(|action| {
        if action == Action::BackupOriginal(Slot::LocalCharacter) {
            Err("备份失败".to_string())
        } else {
            normal(action)
        }
    });
    assert!(matches!(result, Err(RunError::Io(m)) if m == "备份失败"));
    assert!(!actions.iter().any(|a| matches!(a, Action::StageIdentity(_))));
}

#[test]
fn local_changes_during_signing_are_preserved_and_stop_all_writeback() {
    let (actions, result) = run(|action| {
        if action == Action::CompareWithBackup(Slot::LocalCharacter) {
            Ok(false)
        } else {
            normal(action)
        }
    });
    assert!(matches!(result, Err(RunError::Changed(Slot::LocalCharacter))));
    assert!(!actions.iter().any(|a| matches!(a, Action::WriteSigned(_))));
    assert!(!actions.iter().any(|a| matches!(a, Action::RestoreFromBackup(Slot::LocalCharacter))));
}

#[test]
fn a_new_character_save_created_during_signing_is_preserved() {
    let (actions, result) = run(|action| match action {
        Action::ProbeOriginal(Slot::LocalCharacter) => Ok(false),
        Action::ProbeCurrent(Slot::LocalCharacter) => Ok(true),
        _ => normal(action),
    });
    assert!(matches!(result, Err(RunError::Changed(Slot::LocalCharacter))));
    assert!(!actions.iter().any(|a| matches!(a, Action::WriteSigned(_))));
}

#[test]
fn a_save_that_cannot_be_compared_stops_writeback() {
    let (actions, result) = run(|action| {
        if action == Action::CompareWithBackup(Slot::LocalSystem) {
            Err("读取失败".to_string())
        } else {
            normal(action)
        }
    });
    match result {
        Err(RunError::CannotVerify { slot, comparing, error }) => {
            assert_eq!(slot, Slot::LocalSystem);
            assert!(comparing);
            assert_eq!(error, "读取失败");
        }
        other => panic!("unexpected result {other:?}"),
    }
    assert!(!actions.iter().any(|a| matches!(a, Action::WriteSigned(_))));
}

#[test]
fn failure_writing_second_save_restores_the_first_save() {
    let (actions, result) = run(|action| {
        if action == Action::WriteSigned(Round::Character) {
            Err("写回存档失败".to_string())
        } else {
            normal(action)
        }
    });
    match result {
        Err(RunError::CommitFailed { error, rollback_errors }) => {
            assert_eq!(error, "写回存档失败");
            assert!(rollback_errors.is_empty());
        }
        other => panic!("unexpected result {other:?}"),
    }
    let tail = &actions[actions.len() - 4..];
    assert_eq!(
        tail,
        [
            Action::WriteSigned(Round::Character),
            Action::RestoreFromBackup(Slot::LocalSystem),
            Action::RestoreFromBackup(Slot::LocalCharacter),
            Action::Finish,
        ]
    );
}

#[test]
fn rollback_removes_a_file_that_did_not_exist_before_the_run() {
    let (actions, result) = run(|action| match action {
        Action::ProbeOriginal(Slot::LocalCharacter) => Ok(false),
        Action::ProbeCurrent(Slot::LocalCharacter) => Ok(false),
        Action::ProbeCharacterDir => Ok(false),
        Action::WriteSigned(Round::Character) => Err("写回存档失败".to_string()),
        _ => normal(action),
    });
    assert!(matches!(result, Err(RunError::CommitFailed { .. })));
    let tail = &actions[actions.len() - 5..];
    assert_eq!(
        tail,
        [
            Action::WriteSigned(Round::Character),
            Action::RestoreFromBackup(Slot::LocalSystem),
            Action::RemoveCreated(Slot::LocalCharacter),
            Action::RemoveCharacterDir,
            Action::Finish,
        ]
    );
}

#[test]
fn restore_errors_are_listed_one_per_line() {
    assert_eq!(append_errors("停止".to_string(), &Vec::new()), "停止");
    assert_eq!(
        append_errors("停止".to_string(), &vec!["甲".to_string(), "乙".to_string()]),
        "停止\n恢复错误：甲\n恢复错误：乙"
    );
}

#[test]
fn failed_runs_are_explained_with_the_backup_directory() {
    let system = "D:\\acc\\SYSTEMSAVEDATA00\\SAVEDATA.BIN";
    let character = "D:\\acc\\SAVEDATA00\\SAVEDATA.BIN";
    let backup = "E:\\backups\\1";
    assert_eq!(
        RunError::Lock("已有另一个操作正在运行".to_string()).message(system, character, backup),
        "已有另一个操作正在运行"
    );
    assert_eq!(
        RunError::MissingRequired.message(system, character, backup),
        format!("备份前发现文件已不存在：{system}\n本次备份目录：{backup}")
    );
    assert_eq!(
        RunError::SigningStopped {
            error: "模拟用户取消".to_string(),
            restore_errors: vec!["无法删除".to_string()],
        }
        .message(system, character, backup),
        format!("改签已停止，本地存档尚未写入：模拟用户取消\n恢复错误：无法删除\n本次备份目录：{backup}")
    );
    assert_eq!(
        RunError::Changed(Slot::LocalCharacter).message(system, character, backup),
        format!("改签期间本地存档已被其他程序更改，已停止写回并保留其最新内容：{character}\n本次备份目录：{backup}")
    );
    assert_eq!(
        RunError::CannotVerify { slot: Slot::LocalSystem, comparing: true, error: "读取失败".to_string() }
            .message(system, character, backup),
        format!("无法核对本地存档，已停止写回：{system}：读取失败\n本次备份目录：{backup}")
    );
    assert_eq!(
        RunError::CommitFailed { error: "写回存档失败".to_string(), rollback_errors: Vec::new() }
            .message(system, character, backup),
        format!("写回存档失败：写回存档失败\n原始本地存档已恢复。\n本次备份目录：{backup}")
    );
    assert_eq!(
        RunError::CommitFailed {
            error: "x".to_string(),
            rollback_errors: vec!["y".to_string()],
        }
        .message(system, character, backup),
        format!("写回存档失败：x\n部分原始本地存档未能恢复，请从备份目录恢复。\n恢复错误：y\n本次备份目录：{backup}")
    );
}

#[test]
fn probes_are_checked_against_requirements() {
    assert_eq!(check_probe(Requirement::Directory, Probe::Directory), None);
    assert_eq!(
        check_probe(Requirement::Directory, Probe::NotFound),
        Some(Problem::CannotAccessDirectory)
    );
    assert_eq!(
        check_probe(Requirement::NonemptyFile, Probe::File { len: 0 }),
        Some(Problem::NotANonemptyFile)
    );
    assert_eq!(check_probe(Requirement::OptionalDirectory, Probe::NotFound), None);
    assert_eq!(
        check_probe(Requirement::OptionalDirectory, Probe::Other),
        Some(Problem::NotADirectory)
    );
    assert_eq!(check_probe(Requirement::OptionalFile, Probe::File { len: 0 }), None);
    assert_eq!(
        check_probe(Requirement::OptionalFile, Probe::Directory),
        Some(Problem::NotAFile)
    );
}

#[test]
fn only_staging_directories_that_were_absent_are_removed() {
    for (mine, other) in [(true, true), (true, false), (false, true), (false, false)] {
        let (actions, result) = run(|action| match action {
            Action::ProbeStagingDir(Slot::StagingMine) => Ok(mine),
            Action::ProbeStagingDir(Slot::StagingOther) => Ok(other),
            _ => normal(action),
        });
        assert!(result.is_ok());
        assert_eq!(
            actions.contains(&Action::RemoveStagingDir(Slot::StagingMine)),
            !mine
        );
        assert_eq!(
            actions.contains(&Action::RemoveStagingDir(Slot::StagingOther)),
            !other
        );
        assert!(!actions.contains(&Action::RemoveCharacterDir));
    }
}

#[test]
fn problems_name_the_path_and_the_reason() {
    let path = "D:\\存档\\SAVEDATA00";
    assert_eq!(
        Problem::CannotAccessDirectory.message(path, "拒绝访问。"),
        "无法访问目录 D:\\存档\\SAVEDATA00：拒绝访问。"
    );
    assert_eq!(
        Problem::NotADirectory.message(path, "x"),
        "此路径不是目录：D:\\存档\\SAVEDATA00"
    );
    assert_eq!(
        Problem::CannotAccessFile.message(path, "拒绝访问。"),
        "无法访问文件 D:\\存档\\SAVEDATA00：拒绝访问。"
    );
    assert_eq!(
        Problem::NotANonemptyFile.message(path, ""),
        "文件不是有效的非空文件：D:\\存档\\SAVEDATA00"
    );
    assert_eq!(Problem::NotAFile.message(path, ""), "此路径不是文件：D:\\存档\\SAVEDATA00");
}

#[test]
fn absent_staging_and_character_directories_are_created_when_needed() {
    // No character save and no character directory in the account; neither
    // staging directory exists before the run.
    let (actions, result) = run(|action| match action {
        Action::ProbeOriginal(Slot::LocalCharacter)
        | Action::ProbeOriginal(Slot::StagingMine)
        | Action::ProbeOriginal(Slot::StagingOther)
        | Action::ProbeStagingDir(_)
        | Action::ProbeCurrent(Slot::LocalCharacter)
        | Action::ProbeCharacterDir => Ok(false),
        _ => Ok(true),
    });
    assert!(result.is_ok());
    assert!(!actions.contains(&Action::BackupOriginal(Slot::LocalCharacter)));
    assert!(actions.contains(&Action::WriteSigned(Round::Character)));
    assert!(actions.contains(&Action::RemoveStagingDir(Slot::StagingMine)));
    assert!(actions.contains(&Action::RemoveStagingDir(Slot::StagingOther)));
    assert!(!actions.contains(&Action::RemoveCharacterDir));
}

#[test]
fn preflight_reports_missing_files_and_does_not_create_staging() {
    let mut survey = good_survey();
    survey.account_system_save = Probe::NotFound;
    let failure = SavePlan::new(SaveKind::Hand, &survey).unwrap_err();
    assert_eq!(failure.path, PlanPath::AccountSystemSave);
}

#[test]
fn existing_backup_is_never_overwritten() {
    let (actions, result) = run(|action| match action {
        Action::BackupOriginal(Slot::LocalSystem) => {
            Err("无法创建文件（不会覆盖旧备份）".to_string())
        }
        _ => normal(action),
    });
    assert!(matches!(result, Err(RunError::Io(_))));
    assert!(!actions.iter().any(|a| matches!(a, Action::Sign(_))));
    assert!(!actions.iter().any(|a| matches!(a, Action::WriteSigned(_))));
}

#[test]
fn overlapping_runs_cannot_share_the_tool_and_failure_releases_the_lock() {
    let (actions, result) = run(|action| match action {
        Action::AcquireLock => Err("无法独占锁定改签工具，可能已有另一个操作正在运行。".to_string()),
        _ => normal(action),
    });
    assert_eq!(actions, [Action::AcquireLock, Action::Finish]);
    match result {
        Err(RunError::Lock(message)) => assert!(message.contains("已有另一个操作正在运行")),
        other => panic!("unexpected result {other:?}"),
    }
}
