use nioh3_save_manager::round::{Check, SigningRound};

/// Answers each check from `answers` in turn; returns the checks asked for
/// and the round's result.
fn run(answers: &[Result<bool, String>], status: &str) -> (Vec<Check>, Result<(), String>) {
    let mut round = SigningRound::new();
    let mut asked = Vec::new();
    let mut answers = answers.iter();
    loop {
        let check = round.check();
        asked.push(check);
        if check == Check::Finish {
            return (asked, round.finish(status));
        }
        round.advance(answers.next().expect("an answer").clone());
    }
}

#[test]
fn a_round_passes_every_check_in_order() {
    let (asked, result) = run(&[Ok(false), Ok(true), Ok(true), Ok(false)], "exit code: 0");
    assert_eq!(
        asked,
        vec![
            Check::SteamRunning,
            Check::RunSigner,
            Check::AskSigned,
            Check::SteamRunning,
            Check::Finish
        ]
    );
    assert_eq!(result, Ok(()));
}

#[test]
fn steam_running_before_stops_the_round_before_the_signer() {
    let (asked, result) = run(&[Ok(true)], "");
    assert_eq!(asked, vec![Check::SteamRunning, Check::Finish]);
    assert_eq!(
        result.unwrap_err(),
        "检测到 Steam 又已启动，请退出后重新操作。"
    );
}

#[test]
fn a_failed_signer_exit_names_its_status() {
    let (_, result) = run(&[Ok(false), Ok(false)], "exit code: 1");
    assert_eq!(
        result.unwrap_err(),
        "改签工具异常退出（exit code: 1），未写回本地存档。"
    );
}

#[test]
fn an_unconfirmed_round_is_not_signed() {
    let (asked, result) = run(&[Ok(false), Ok(true), Ok(false)], "exit code: 0");
    assert_eq!(asked.last(), Some(&Check::Finish));
    assert_eq!(
        result.unwrap_err(),
        "本轮改签未确认成功，已取消写回本地存档。"
    );
}

#[test]
fn steam_started_during_the_round_stops_it() {
    let (_, result) = run(&[Ok(false), Ok(true), Ok(true), Ok(true)], "exit code: 0");
    assert_eq!(
        result.unwrap_err(),
        "检测到 Steam 已启动，已取消写回本地存档。"
    );
}

#[test]
fn a_check_that_cannot_be_made_keeps_its_message() {
    let (_, result) = run(&[Ok(false), Err("无法启动改签工具".into())], "");
    assert_eq!(result.unwrap_err(), "无法启动改签工具");
}
