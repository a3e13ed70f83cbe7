use nioh3_save_manager::steam::{
    config_path, missing_config, update_cloud, SteamIdError, STEAM_ID_BASE,
};

fn wrap(body: &str) -> String {
    format!("\"UserLocalConfigStore\" {{ \"Software\" {{ \"Valve\" {{ \"Steam\" {{ \"apps\" {{ {body} }} }} }} }} }}")
}

#[test]
fn changes_only_direct_target_amid_nested_objects_and_comments() {
    let source = wrap(
        r#"
            // "4198760" { "CloudEnabled" "1" }
            "4198760" {
                "nested" { "CloudEnabled" "1" }
                /* braces } { and "quotes" are not syntax */
                "cloudenabled"   "1" // keep this comment
                "description" "quote: \" }"
            }
            "123" { "CloudEnabled" "1" }
        "#,
    );
    assert_eq!(
        update_cloud(&source, "4198760").unwrap(),
        source.replace("\"cloudenabled\"   \"1\"", "\"cloudenabled\"   \"0\"")
    );
}

#[test]
fn inserts_direct_cloud_key_preserving_crlf_bom_and_nested_values() {
    let source = format!(
        "\u{feff}{}",
        wrap("\"4198760\" {\r\n\t\"nested\" { \"CloudEnabled\" \"1\" }\r\n}")
    );
    let updated = update_cloud(&source, "4198760").unwrap();
    assert!(updated.starts_with('\u{feff}'));
    assert!(updated.contains("\t\"CloudEnabled\"\t\t\"0\"\r\n}"));
    assert!(updated.contains("\"nested\" { \"CloudEnabled\" \"1\" }"));
    assert_eq!(update_cloud(&updated, "4198760").unwrap(), updated);
}

#[test]
fn supports_roaming_root_case_insensitive_and_unquoted_values() {
    let source = "userroamingconfigstore { software { VALVE { Steam { APPS { 4198760 { CloudEnabled 1 } } } } } }";
    assert_eq!(
        update_cloud(source, "4198760").unwrap(),
        source.replace("CloudEnabled 1", "CloudEnabled 0")
    );
}

#[test]
fn rejects_missing_wrong_duplicate_and_malformed_targets() {
    for source in [
        wrap("\"123\" { \"CloudEnabled\" \"1\" }"),
        "\"4198760\" { \"CloudEnabled\" \"1\" }".to_string(),
        wrap("\"4198760\" { CloudEnabled 1 cloudenabled 0 }"),
        wrap("\"4198760\" {} \"4198760\" {}"),
        wrap("\"4198760\" \"1\""),
        "\"UserLocalConfigStore\" {".to_string(),
        "\"UserLocalConfigStore\" { /* unfinished".to_string(),
    ] {
        assert!(update_cloud(&source, "4198760").is_err(), "{source}");
    }
}

#[test]
fn maps_a_steam_id_to_exactly_its_account_configuration() {
    for account in [123_u64, 456, 1, u32::MAX as u64] {
        assert_eq!(
            config_path(&(STEAM_ID_BASE + account).to_string()).unwrap(),
            ["userdata", account.to_string().as_str(), "7", "remote", "sharedconfig.vdf"]
        );
    }
}

#[test]
fn refuses_names_that_are_not_individual_steam_ids() {
    assert_eq!(config_path("../123"), Err(SteamIdError::NotDigits));
    assert_eq!(config_path(""), Err(SteamIdError::NotDigits));
    assert_eq!(config_path("+76561197960265851"), Err(SteamIdError::NotDigits));
    for id in ["123", "76561197960265728", "99999999999999999999", "76561202255233024"] {
        assert_eq!(config_path(id), Err(SteamIdError::NotPersonal), "{id}");
    }
}

#[test]
fn switching_off_twice_changes_nothing_more() {
    let sources = [
        wrap("\"4198760\" { \"CloudEnabled\" \"1\" }"),
        wrap("\"4198760\" { CloudEnabled 1 }"),
        wrap("\"4198760\" {\n\t\t\"other\" \"x\"\n\t}\n"),
        wrap("\"4198760\" {}"),
        format!(
            "\u{feff}{}",
            wrap("\"4198760\" {\r\n\t\"nested\" { \"CloudEnabled\" \"1\" }\r\n}")
        ),
    ];
    for source in sources {
        let once = update_cloud(&source, "4198760").unwrap();
        assert_ne!(once, source);
        assert_eq!(update_cloud(&once, "4198760").unwrap(), once, "{source}");
    }
}

#[test]
fn selects_exact_account_and_never_another_available_account() {
    let mut paths = Vec::new();
    for account in [123_u64, 456] {
        let parts = config_path(&(STEAM_ID_BASE + account).to_string()).unwrap();
        assert_eq!(
            parts,
            ["userdata", account.to_string().as_str(), "7", "remote", "sharedconfig.vdf"]
        );
        paths.push(parts);
    }
    assert_ne!(paths[0], paths[1]);
    assert_ne!(
        config_path(&(STEAM_ID_BASE + 789).to_string()).unwrap(),
        paths[0]
    );
    for id in ["../123", "123", "76561197960265728", "99999999999999999999"] {
        assert!(config_path(id).is_err());
    }
}

#[test]
fn refused_steam_ids_and_missing_configurations_are_explained() {
    assert_eq!(
        SteamIdError::NotDigits.message("../123"),
        "无效的 Steam 账号目录名：../123"
    );
    assert_eq!(
        SteamIdError::NotPersonal.message("123"),
        "存档目录名不是有效的个人 SteamID64：123"
    );
    assert_eq!(
        missing_config("76561198000000123", "C:\\Steam\\userdata\\39734395\\7\\remote\\sharedconfig.vdf"),
        "找不到所选账号 76561198000000123 的 Steam 配置：C:\\Steam\\userdata\\39734395\\7\\remote\\sharedconfig.vdf。请登录该账号后手动关闭仁王 3 的 Steam 云存档。"
    );
}
