use nioh3_save_manager::registry::{steam_listed, steam_path_candidates, usual_steam_dir_parts};

#[test]
fn reads_steam_path_from_reg_query_output() {
    let output = "\r\nHKEY_CURRENT_USER\\Software\\Valve\\Steam\r\n    SteamPath    REG_SZ    c:/program files (x86)/steam\r\n\r\n";
    assert_eq!(
        steam_path_candidates(output),
        ["c:/program files (x86)/steam"]
    );
}

#[test]
fn matches_the_name_in_any_case_and_keeps_every_candidate_in_order() {
    let output = "steampath REG_SZ D:\\Steam\nSTEAMPATH\tREG_SZ\tE:\\游戏\\Steam \nSteamExe REG_SZ c:/steam/steam.exe\n";
    assert_eq!(
        steam_path_candidates(output),
        ["D:\\Steam", "E:\\游戏\\Steam"]
    );
}

#[test]
fn ignores_lines_without_the_value_type_or_with_another_name() {
    assert!(steam_path_candidates("").is_empty());
    assert!(steam_path_candidates("SteamPath    REG_EXPAND_SZ    C:\\Steam").is_empty());
    assert!(steam_path_candidates("SteamPaths    REG_SZ    C:\\Steam").is_empty());
    assert!(steam_path_candidates("ERROR: The system was unable to find the specified registry key or value.").is_empty());
}

#[test]
fn splits_at_the_first_value_type_only() {
    assert_eq!(
        steam_path_candidates("SteamPath REG_SZ C:\\REG_SZ\\Steam"),
        ["C:\\REG_SZ\\Steam"]
    );
    // A value with no data gives an empty candidate, as the line holds it.
    assert_eq!(steam_path_candidates("SteamPath REG_SZ"), [""]);
}

#[test]
fn finds_steam_in_tasklist_output() {
    let listed = steam_listed;
    assert!(listed("\"steam.exe\",\"1234\",\"Console\",\"1\",\"45,000 K\"\r\n"));
    assert!(listed("INFO: something\r\n\"Steam.EXE\",\"1\",\"Console\",\"1\",\"1 K\"\r\n"));
    assert!(!listed("INFO: No tasks are running which match the specified criteria.\r\n"));
    assert!(!listed("\"steamwebhelper.exe\",\"1\",\"Console\",\"1\",\"1 K\"\r\n"));
    assert!(!listed(" \"steam.exe\",\"1\""));
    assert!(!listed(""));
}

#[test]
fn usual_steam_directories_in_order() {
    assert_eq!(
        usual_steam_dir_parts(None),
        vec![
            vec!["C:\\Program Files (x86)".to_string(), "Steam".to_string()],
            vec!["D:\\Steam".to_string()],
            vec!["E:\\Steam".to_string()],
        ]
    );
    assert_eq!(
        usual_steam_dir_parts(Some("F:\\Programs".to_string()))[0],
        vec!["F:\\Programs".to_string(), "Steam".to_string()]
    );
}
