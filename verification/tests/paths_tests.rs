use nioh3_save_manager::paths::{
    asset_root_choice, find_account, is_account_name, savedata_root, sort_accounts, Account,
};
use std::path::PathBuf;

fn account(id: &str, path: &str) -> Account {
    Account {
        id: id.into(),
        path: path.into(),
    }
}

#[test]
fn account_selection_requires_an_existing_exact_match() {
    let accounts = vec![account("123", "a"), account("456", "b")];
    assert_eq!(
        find_account(&accounts, "456").unwrap().path,
        PathBuf::from("b")
    );
    assert!(find_account(&accounts, "789").is_err());
}

#[test]
fn unknown_account_message_names_the_account() {
    let accounts = vec![account("123", "a")];
    assert_eq!(
        find_account(&accounts, "12").unwrap_err(),
        "未发现账号目录 12。请从实际列出的数字目录中选择。"
    );
    assert!(find_account(&[], "123").is_err());
}

#[test]
fn account_names_are_ascii_digits_only() {
    assert!(is_account_name("76561199999999999"));
    assert!(is_account_name("0"));
    for name in ["", "backup", "123abc", "１２３", "-123", "12 3"] {
        assert!(!is_account_name(name), "{name}");
    }
}

#[test]
fn accounts_are_listed_in_name_order() {
    let sorted = sort_accounts(vec![
        account("76561199999999999", "z"),
        account("76561190000000000", "y"),
        account("9", "x"),
        account("10", "w"),
    ]);
    let ids: Vec<&str> = sorted.iter().map(|a| a.id.as_str()).collect();
    // Text order, as `String` compares: "10" before "765..." before "9".
    assert_eq!(ids, ["10", "76561190000000000", "76561199999999999", "9"]);
    assert_eq!(sorted[0].path, PathBuf::from("w"));
    assert!(sort_accounts(Vec::new()).is_empty());
}

#[test]
fn accounts_with_the_same_name_keep_their_order() {
    let sorted = sort_accounts(vec![account("2", "first"), account("1", "x"), account("2", "second")]);
    let paths: Vec<PathBuf> = sorted.iter().map(|a| a.path.clone()).collect();
    assert_eq!(paths, [PathBuf::from("x"), PathBuf::from("first"), PathBuf::from("second")]);
}

#[test]
fn prefers_localappdata_and_falls_back_to_userprofile() {
    assert_eq!(
        savedata_root(Some("local".into()), Some("profile".into())).unwrap(),
        ["local", "KoeiTecmo", "NIOH3", "Savedata"]
    );
    assert_eq!(
        savedata_root(Some(String::new()), Some("profile".into())).unwrap(),
        ["profile", "AppData", "Local", "KoeiTecmo", "NIOH3", "Savedata"]
    );
    assert_eq!(
        savedata_root(None, Some("profile".into())).unwrap(),
        ["profile", "AppData", "Local", "KoeiTecmo", "NIOH3", "Savedata"]
    );
    assert_eq!(
        savedata_root(None, Some(String::new())).unwrap_err(),
        "无法确定游戏存档目录：LOCALAPPDATA 和 USERPROFILE 均未设置，请指定存档目录。"
    );
    assert!(savedata_root(None, None).is_err());
    assert!(savedata_root(Some(String::new()), Some(String::new())).is_err());
}

#[test]
fn the_first_complete_asset_copy_is_taken() {
    let shown = vec!["D:\\a".to_string(), "D:\\b".to_string(), "D:\\c".to_string()];
    assert_eq!(asset_root_choice(&shown, &vec![false, true, true]), Ok(1));
    assert_eq!(asset_root_choice(&shown, &vec![true, false, true]), Ok(0));
}

#[test]
fn missing_assets_list_every_candidate() {
    let shown = vec!["D:\\a".to_string(), "E:\\游戏".to_string()];
    let error = asset_root_choice(&shown, &vec![false, false]).unwrap_err();
    assert_eq!(
        error,
        "未找到资源目录：需要 HandMakeSave、MagicMakeSave、Nioh3SaveCertificateTool 三个目录及其中的 双击我改签v0.5.exe。已检查：D:\\a；E:\\游戏。请使用 --assets <资源目录> 指定。"
    );
    assert!(error.contains("--assets"));
}

#[test]
fn no_candidate_at_all_says_so() {
    let error = asset_root_choice(&vec![], &vec![]).unwrap_err();
    assert!(error.contains("已检查：无法取得程序目录及当前目录。"));
}

#[test]
fn listed_names_keep_only_digit_accounts_in_name_order() {
    let listed = ["76561199999999999", "backup", "123abc", "１２３", "-123", "12 3", "76561190000000000"];
    let kept: Vec<Account> = listed
        .iter()
        .filter(|name| is_account_name(name))
        .map(|name| account(name, &format!("root/{name}")))
        .collect();
    let sorted = sort_accounts(kept);
    let ids: Vec<&str> = sorted.iter().map(|a| a.id.as_str()).collect();
    assert_eq!(ids, ["76561190000000000", "76561199999999999"]);
    assert_eq!(sorted[0].path, PathBuf::from("root/76561190000000000"));
}

#[test]
fn only_non_numeric_names_give_no_accounts() {
    let listed = ["backup", "123abc", "１２３", "-123", "12 3"];
    let kept: Vec<Account> = listed
        .iter()
        .filter(|name| is_account_name(name))
        .map(|name| account(name, name))
        .collect();
    assert!(sort_accounts(kept).is_empty());
}

#[test]
fn an_incomplete_copy_before_a_complete_one_is_skipped() {
    let shown = vec!["T:\\incomplete".to_string(), "T:\\complete".to_string()];
    assert_eq!(asset_root_choice(&shown, &vec![false, true]), Ok(1));
}

#[test]
fn a_lone_incomplete_copy_gives_an_actionable_error() {
    let shown = vec!["T:\\assets".to_string()];
    let error = asset_root_choice(&shown, &vec![false]).unwrap_err();
    assert!(error.contains("T:\\assets"));
    assert!(error.contains("--assets"));
}
