use nioh3_save_manager::cli::{
    agreed, cancelled, kind_choice, selection_index, source_answer, strip_quotes, ArgError,
    KindChoice, Options, SourceAnswer,
};

fn parse(args: &[&str]) -> Result<Options, ArgError> {
    Options::parse(args.iter().map(|a| a.to_string()).collect())
}

#[test]
fn strips_quotes_from_dragged_or_pasted_paths() {
    assert_eq!(strip_quotes("\"D:\\我的 存档\""), "D:\\我的 存档");
    assert_eq!(strip_quotes("'D:\\我的 存档'"), "D:\\我的 存档");
    assert_eq!(strip_quotes("D:\\我的 存档"), "D:\\我的 存档");
    assert_eq!(strip_quotes(""), "");
    assert_eq!(strip_quotes("\""), "\"");
}

#[test]
fn strips_white_space_including_ideographic_space() {
    assert_eq!(strip_quotes("  \"D:\\存档\"\r\n"), "D:\\存档");
    assert_eq!(strip_quotes("\u{3000}D:\\存档\u{3000}"), "D:\\存档");
    assert_eq!(strip_quotes("\"D:\\存档'"), "\"D:\\存档'");
    assert_eq!(strip_quotes("''"), "");
    assert_eq!(strip_quotes(" \t "), "");
}

#[test]
fn invalid_or_cancelled_selection_never_defaults_to_an_account() {
    assert_eq!(selection_index("2", 2), Some(1));
    for value in ["", "0", "3", "q", "-1"] {
        assert_eq!(selection_index(value, 2), None);
    }
    assert!(cancelled(""));
    assert!(cancelled("Q"));
    assert!(cancelled("n"));
    assert!(!cancelled("1"));
}

#[test]
fn selection_accepts_what_number_parsing_accepts() {
    assert_eq!(selection_index("1", 3), Some(0));
    assert_eq!(selection_index("+3", 3), Some(2));
    assert_eq!(selection_index("03", 3), Some(2));
    assert_eq!(selection_index(" 1", 3), None);
    assert_eq!(selection_index("99999999999999999999999", 3), None);
    assert_eq!(selection_index("1", 0), None);
}

#[test]
fn cancel_answers_are_single_letters_or_nothing() {
    assert!(cancelled("q"));
    assert!(cancelled("N"));
    assert!(!cancelled("qq"));
    assert!(!cancelled("no"));
    assert!(!cancelled(" "));
}

#[test]
fn save_kind_menu_answers() {
    assert_eq!(kind_choice("1"), KindChoice::Hand);
    assert_eq!(kind_choice("2"), KindChoice::Magic);
    assert_eq!(kind_choice("3"), KindChoice::Custom);
    assert_eq!(kind_choice(""), KindChoice::Cancel);
    assert_eq!(kind_choice("Q"), KindChoice::Cancel);
    assert_eq!(kind_choice("4"), KindChoice::Again);
    assert_eq!(kind_choice("12"), KindChoice::Again);
}

#[test]
fn parses_read_only_check_with_custom_paths_and_account() {
    let options = parse(&[
        "--check",
        "--assets",
        "E:\\中文 资源",
        "--savedata-root",
        "D:\\Savedata",
        "--account",
        "76561199999999999",
    ])
    .unwrap();
    assert!(options.check);
    assert_eq!(options.assets.unwrap(), "E:\\中文 资源");
    assert_eq!(options.savedata_root.unwrap(), "D:\\Savedata");
    assert_eq!(options.account.as_deref(), Some("76561199999999999"));
    assert!(!options.help);
    assert!(!options.preview_confirmation);
}

#[test]
fn parses_custom_source_directory() {
    let options = parse(&["--source-dir", "D:\\我的 存档"]).unwrap();
    assert_eq!(options.source_dir.unwrap(), "D:\\我的 存档");
    assert!(parse(&["--source-dir"]).is_err());
    assert!(parse(&["--source-dir", ""]).is_err());
}

#[test]
fn rejects_unknown_missing_or_unsafe_account_arguments() {
    assert!(parse(&["--unknown"]).is_err());
    assert!(parse(&["--assets"]).is_err());
    assert!(parse(&["--account", ".."]).is_err());
    assert!(parse(&["--account", ""]).is_err());
}

#[test]
fn argument_errors_name_the_argument() {
    assert_eq!(
        parse(&["--unknown"]).unwrap_err().message(),
        "未知参数：--unknown。使用 --help 查看说明。"
    );
    assert_eq!(
        parse(&["--assets"]).unwrap_err().message(),
        "参数 --assets 缺少值。"
    );
    assert_eq!(
        parse(&["--steam-dir", ""]).unwrap_err().message(),
        "参数 --steam-dir 不能为空。"
    );
    assert_eq!(
        parse(&["--account", "12a"]).unwrap_err().message(),
        "账号必须是存档目录的纯数字名称。"
    );
}

#[test]
fn flags_repeat_and_later_values_win() {
    let options = parse(&["-h", "--help", "--steam-dir", "A", "--steam-dir", "B"]).unwrap();
    assert!(options.help);
    assert_eq!(options.steam_dir.as_deref(), Some("B"));
    let options = parse(&["--preview-confirmation"]).unwrap();
    assert!(options.preview_confirmation);
    let options = parse(&[]).unwrap();
    assert!(!options.check && options.assets.is_none() && options.account.is_none());
    // A value is taken as it is, even when it looks like an option.
    let options = parse(&["--assets", "--check"]).unwrap();
    assert!(!options.check);
    assert_eq!(options.assets.as_deref(), Some("--check"));
}

#[test]
fn only_y_agrees() {
    assert!(agreed("y"));
    assert!(agreed("Y"));
    for value in ["", "n", "yes", "q", " y"] {
        assert!(!agreed(value));
    }
}

#[test]
fn custom_save_answers() {
    assert_eq!(source_answer("q"), SourceAnswer::Cancel);
    assert_eq!(source_answer("Q"), SourceAnswer::Cancel);
    assert_eq!(source_answer(""), SourceAnswer::Default);
    assert_eq!(source_answer("\"\""), SourceAnswer::Default);
    assert_eq!(
        source_answer("\"D:\\我的 存档\""),
        SourceAnswer::Directory("D:\\我的 存档")
    );
    assert_eq!(source_answer("qq"), SourceAnswer::Directory("qq"));
}
