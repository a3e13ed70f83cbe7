use nioh3_save_manager::cli::{pauses_at_exit, Options};
use nioh3_save_manager::session::{backup_dir_name, Action, End, Report, Session};
use nioh3_save_manager::shutdown::{Closer, Shutdown, POLLS};

fn session(args: &[&str], windows: bool) -> Session {
    let options = Options::parse(args.iter().map(|a| a.to_string()).collect()).unwrap();
    Session::new(&options, windows)
}

/// Answers each requested action from `script` in turn and returns the
/// actions asked for.
fn drive(session: &mut Session, script: Vec<(Action, Report)>) -> Vec<Action> {
    let mut asked = Vec::new();
    for (expected, report) in script {
        let action = session.action();
        asked.push(action);
        assert_eq!(action, expected);
        session.advance(report);
    }
    assert_eq!(session.action(), Action::Finish);
    asked
}

fn changes(action: Action) -> bool {
    matches!(
        action,
        Action::CreateBackup | Action::CloseSteam | Action::DisableCloud | Action::ExecutePlan
    )
}

#[test]
fn help_only_prints_the_usage() {
    let mut s = session(&["--check", "--help"], true);
    drive(&mut s, vec![(Action::ShowHelp, Report::Yes)]);
    assert_eq!(s.finish("").unwrap(), End::HelpShown);
}

#[test]
fn preview_only_shows_the_dialog() {
    let mut s = session(&["--preview-confirmation", "--check"], true);
    drive(
        &mut s,
        vec![(Action::LocateAssets, Report::Yes), (Action::PreviewDialog, Report::No)],
    );
    assert_eq!(s.finish("").unwrap(), End::Previewed(false));
    let mut s = session(&["--preview-confirmation"], false);
    drive(
        &mut s,
        vec![(Action::LocateAssets, Report::Yes), (Action::PreviewDialog, Report::Yes)],
    );
    assert_eq!(s.finish("").unwrap(), End::Previewed(true));
}

#[test]
fn checking_skips_the_dialog_and_changes_nothing() {
    let mut s = session(&["--check"], false);
    let asked = drive(
        &mut s,
        vec![
            (Action::LocateAssets, Report::Yes),
            (Action::LocateSaves, Report::Yes),
            (Action::DiscoverAccounts, Report::Found(2)),
            (Action::CheckPaths, Report::Yes),
        ],
    );
    assert!(!asked.iter().any(|a| changes(*a)));
    assert_eq!(s.finish("D:\\Savedata").unwrap(), End::Checked);
}

#[test]
fn a_failed_check_is_an_error() {
    let mut s = session(&["--check", "--account", "1"], true);
    drive(
        &mut s,
        vec![
            (Action::LocateAssets, Report::Yes),
            (Action::LocateSaves, Report::Yes),
            (Action::DiscoverAccounts, Report::Found(1)),
            (Action::CheckPaths, Report::No),
        ],
    );
    assert_eq!(
        s.finish("").unwrap_err(),
        "部分路径检查未通过，请按上方具体路径处理。"
    );
}

#[test]
fn no_account_directory_names_the_save_root() {
    let mut s = session(&[], true);
    drive(
        &mut s,
        vec![
            (Action::LocateAssets, Report::Yes),
            (Action::LocateSaves, Report::Yes),
            (Action::AskReady, Report::Yes),
            (Action::DiscoverAccounts, Report::Found(0)),
        ],
    );
    assert_eq!(
        s.finish("D:\\Savedata").unwrap_err(),
        "在 D:\\Savedata 中没有发现数字账号目录。请先用目标账号启动游戏并创建存档，或使用 --savedata-root 指定实际位置。"
    );
}

#[test]
fn declining_the_dialog_cancels_before_anything_else() {
    let mut s = session(&[], true);
    drive(
        &mut s,
        vec![
            (Action::LocateAssets, Report::Yes),
            (Action::LocateSaves, Report::Yes),
            (Action::AskReady, Report::No),
        ],
    );
    assert_eq!(s.finish("").unwrap(), End::Cancelled);
}

#[test]
fn replacing_needs_windows() {
    let mut s = session(&[], false);
    drive(
        &mut s,
        vec![
            (Action::LocateAssets, Report::Yes),
            (Action::LocateSaves, Report::Yes),
            (Action::AskReady, Report::Yes),
            (Action::DiscoverAccounts, Report::Found(3)),
        ],
    );
    assert_eq!(s.finish("").unwrap_err(), "交互改签流程仅支持 Windows。");
}

#[test]
fn a_full_run_with_one_account_and_cloud_switched_off() {
    let mut s = session(&[], true);
    let asked = drive(
        &mut s,
        vec![
            (Action::LocateAssets, Report::Yes),
            (Action::LocateSaves, Report::Yes),
            (Action::AskReady, Report::Yes),
            (Action::DiscoverAccounts, Report::Found(1)),
            (Action::TakeOnlyAccount, Report::Yes),
            (Action::AskKind, Report::Yes),
            (Action::PreparePlan, Report::Yes),
            (Action::ConfirmRun, Report::Yes),
            (Action::CreateBackup, Report::Yes),
            (Action::CloseSteam, Report::Yes),
            (Action::DisableCloud, Report::Yes),
            (Action::ExecutePlan, Report::Yes),
        ],
    );
    let consent = asked.iter().position(|a| *a == Action::ConfirmRun).unwrap();
    assert!(asked.iter().take(consent).all(|a| !changes(*a)));
    assert_eq!(s.finish("").unwrap(), End::Replaced);
}

#[test]
fn named_account_and_source_and_cloud_switched_off_by_hand() {
    let mut s = session(&["--account", "7656", "--source-dir", "D:\\存档"], true);
    drive(
        &mut s,
        vec![
            (Action::LocateAssets, Report::Yes),
            (Action::LocateSaves, Report::Yes),
            (Action::AskReady, Report::Yes),
            (Action::DiscoverAccounts, Report::Found(4)),
            (Action::FindRequestedAccount, Report::Yes),
            (Action::UseSourceDir, Report::Yes),
            (Action::PreparePlan, Report::Yes),
            (Action::ConfirmRun, Report::Yes),
            (Action::CreateBackup, Report::Yes),
            (Action::CloseSteam, Report::Yes),
            (Action::DisableCloud, Report::Failed("未找到 Steam 安装目录。".into())),
            (Action::ConfirmManualCloud, Report::Yes),
            (Action::CloseSteam, Report::Yes),
            (Action::ExecutePlan, Report::Yes),
        ],
    );
    assert_eq!(s.finish("").unwrap(), End::Replaced);
}

#[test]
fn several_accounts_are_asked_for() {
    let mut s = session(&[], true);
    drive(
        &mut s,
        vec![
            (Action::LocateAssets, Report::Yes),
            (Action::LocateSaves, Report::Yes),
            (Action::AskReady, Report::Yes),
            (Action::DiscoverAccounts, Report::Found(2)),
            (Action::AskAccount, Report::No),
        ],
    );
    assert_eq!(s.finish("").unwrap(), End::Cancelled);
}

#[test]
fn cancelling_after_the_backup_leaves_the_game_saves_untouched() {
    let mut s = session(&[], true);
    drive(
        &mut s,
        vec![
            (Action::LocateAssets, Report::Yes),
            (Action::LocateSaves, Report::Yes),
            (Action::AskReady, Report::Yes),
            (Action::DiscoverAccounts, Report::Found(1)),
            (Action::TakeOnlyAccount, Report::Yes),
            (Action::AskKind, Report::Yes),
            (Action::PreparePlan, Report::Yes),
            (Action::ConfirmRun, Report::Yes),
            (Action::CreateBackup, Report::Yes),
            (Action::CloseSteam, Report::Yes),
            (Action::DisableCloud, Report::Failed("x".into())),
            (Action::ConfirmManualCloud, Report::No),
        ],
    );
    assert_eq!(s.finish("").unwrap(), End::CancelledSavesUntouched);
}

#[test]
fn declining_the_run_or_keeping_steam_cancels() {
    let mut s = session(&[], true);
    drive(
        &mut s,
        vec![
            (Action::LocateAssets, Report::Yes),
            (Action::LocateSaves, Report::Yes),
            (Action::AskReady, Report::Yes),
            (Action::DiscoverAccounts, Report::Found(1)),
            (Action::TakeOnlyAccount, Report::Yes),
            (Action::AskKind, Report::Yes),
            (Action::PreparePlan, Report::Yes),
            (Action::ConfirmRun, Report::No),
        ],
    );
    assert_eq!(s.finish("").unwrap(), End::Cancelled);
}

#[test]
fn a_failed_step_keeps_its_message() {
    let mut s = session(&[], true);
    drive(
        &mut s,
        vec![(Action::LocateAssets, Report::Failed("未找到资源目录".into()))],
    );
    assert_eq!(s.finish("").unwrap_err(), "未找到资源目录");
    let mut s = session(&[], true);
    drive(
        &mut s,
        vec![
            (Action::LocateAssets, Report::Yes),
            (Action::LocateSaves, Report::Yes),
            (Action::AskReady, Report::Yes),
            (Action::DiscoverAccounts, Report::Found(1)),
            (Action::TakeOnlyAccount, Report::Yes),
            (Action::AskKind, Report::Yes),
            (Action::PreparePlan, Report::Yes),
            (Action::ConfirmRun, Report::Yes),
            (Action::CreateBackup, Report::Yes),
            (Action::CloseSteam, Report::Yes),
            (Action::DisableCloud, Report::Failed("cloud".into())),
            (Action::ConfirmManualCloud, Report::Yes),
            (Action::CloseSteam, Report::Yes),
            (Action::ExecutePlan, Report::Failed("改签失败".into())),
        ],
    );
    assert_eq!(s.finish("").unwrap_err(), "改签失败");
}

#[test]
fn one_shot_options_do_not_wait_for_enter() {
    let args = |a: &[&str]| a.iter().map(|s| s.to_string()).collect::<Vec<_>>();
    assert!(pauses_at_exit(&args(&[])));
    assert!(pauses_at_exit(&args(&["--account", "1"])));
    assert!(!pauses_at_exit(&args(&["--check"])));
    assert!(!pauses_at_exit(&args(&["--account", "-h"])));
    assert!(!pauses_at_exit(&args(&["--preview-confirmation"])));
    assert!(!pauses_at_exit(&args(&["--help"])));
    assert!(pauses_at_exit(&args(&["--CHECK"])));
}

fn close(answers: &[Result<bool, String>]) -> (Vec<Shutdown>, Result<bool, String>) {
    let mut closer = Closer::new();
    let mut asked = Vec::new();
    let mut answers = answers.iter();
    loop {
        let action = closer.action();
        asked.push(action);
        if action == Shutdown::Finish {
            return (asked, closer.finish());
        }
        let report = match action {
            Shutdown::RequestExit | Shutdown::Pause => Ok(true),
            _ => answers.next().expect("an answer").clone(),
        };
        closer.advance(report);
    }
}

#[test]
fn steam_that_is_not_running_counts_as_closed() {
    let (asked, result) = close(&[Ok(false)]);
    assert_eq!(asked, vec![Shutdown::CheckRunning, Shutdown::Finish]);
    assert_eq!(result, Ok(true));
}

#[test]
fn steam_is_asked_once_and_watched_until_it_exits() {
    let (asked, result) = close(&[Ok(true), Ok(true), Ok(true), Ok(false)]);
    assert_eq!(
        asked,
        vec![
            Shutdown::CheckRunning,
            Shutdown::RequestExit,
            Shutdown::CheckRunning,
            Shutdown::Pause,
            Shutdown::CheckRunning,
            Shutdown::Pause,
            Shutdown::CheckRunning,
            Shutdown::Finish,
        ]
    );
    assert_eq!(result, Ok(true));
}

#[test]
fn a_stubborn_steam_is_left_to_the_user() {
    let mut answers = vec![Ok(true); 1 + POLLS as usize + 1];
    answers.push(Ok(true));
    answers.push(Ok(true));
    answers.push(Ok(false));
    let (asked, result) = close(&answers);
    assert_eq!(asked.iter().filter(|a| **a == Shutdown::RequestExit).count(), 1);
    assert_eq!(asked.iter().filter(|a| **a == Shutdown::Pause).count(), POLLS as usize);
    assert_eq!(asked.iter().filter(|a| **a == Shutdown::AskRetry).count(), 2);
    assert_eq!(result, Ok(false));
}

#[test]
fn a_stubborn_steam_that_the_user_quits_counts_as_closed() {
    let mut answers = vec![Ok(true); 1 + POLLS as usize + 1];
    answers.push(Ok(true));
    answers.push(Ok(false));
    let (_, result) = close(&answers);
    assert_eq!(result, Ok(true));
}

#[test]
fn an_unreadable_process_list_is_an_error() {
    let (_, result) = close(&[Ok(true), Err("无法检查 Steam 进程".into())]);
    assert_eq!(result, Err("无法检查 Steam 进程".to_string()));
}

#[test]
fn backup_directories_are_named_by_time_process_and_attempt() {
    assert_eq!(backup_dir_name(1_700_000_000, 4242, 0), "1700000000-4242-0");
    assert_eq!(backup_dir_name(0, 0, 999), "0-0-999");
    assert_eq!(
        backup_dir_name(u64::MAX, u32::MAX, 10),
        format!("{}-{}-10", u64::MAX, u32::MAX)
    );
}
