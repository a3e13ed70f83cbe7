use nioh3_save_manager::steam::update_cloud;
use nioh3_save_manager::vdf::{parse_entries, tokenize, TokenKind, VdfError};

#[test]
fn refusals_are_explained() {
    assert_eq!(VdfError::TooDeep.message("4198760"), "VDF 嵌套层数过多");
    assert_eq!(
        VdfError::MissingKey { at: 42 }.message("4198760"),
        "VDF 在字节 42 处缺少键名"
    );
    assert_eq!(
        VdfError::DuplicateKey { key: "云存档".as_bytes().to_vec() }.message("4198760"),
        "VDF 含有重复的 云存档 项，无法确定应修改哪一项"
    );
    assert_eq!(
        VdfError::KeyWithoutValue { key: b"apps".to_vec() }.message("4198760"),
        "VDF 键 apps 缺少值"
    );
    assert_eq!(
        VdfError::NotAnObject { key: b"Steam".to_vec() }.message("4198760"),
        "VDF 中的 Steam 应为对象"
    );
    assert_eq!(
        VdfError::AppNotFound.message("4198760"),
        "未找到所选账号的游戏 4198760 配置对象"
    );
    assert_eq!(
        VdfError::CloudNotText.message("4198760"),
        "CloudEnabled 的值不是字符串"
    );
}

#[test]
fn the_message_of_a_refused_edit_names_the_key() {
    let source = "\"UserLocalConfigStore\" { \"Software\" { \"Valve\" { \"Steam\" { \"apps\" { \"4198760\" {} \"4198760\" {} } } } } }";
    let error = update_cloud(source, "4198760").unwrap_err();
    assert_eq!(
        error.message("4198760"),
        "VDF 含有重复的 4198760 项，无法确定应修改哪一项"
    );
}

#[test]
fn parsing_accepts_any_depth_and_cursor() {
    let tokens = tokenize(b"\"a\" { \"b\" \"1\" }").unwrap();
    let mut cursor = 0;
    assert!(matches!(parse_entries(&tokens, &mut cursor, 500), Err(VdfError::TooDeep)));
    let mut cursor = tokens.len() + 7;
    assert!(parse_entries(&tokens, &mut cursor, 0).unwrap().is_empty());
    assert_eq!(cursor, tokens.len() + 7);
    let mut cursor = tokens.len() + 7;
    assert!(matches!(
        parse_entries(&tokens, &mut cursor, 3),
        Err(VdfError::UnclosedObject)
    ));
}

#[test]
fn nesting_deeper_than_one_hundred_twenty_eight_is_refused() {
    for (n, ok) in [(128usize, true), (129, false)] {
        let text = "k { ".repeat(n) + &"} ".repeat(n);
        let tokens = tokenize(text.as_bytes()).unwrap();
        let mut cursor = 0;
        let result = parse_entries(&tokens, &mut cursor, 0);
        assert_eq!(result.is_ok(), ok, "{n}");
        if ok {
            assert_eq!(cursor, tokens.len());
        }
    }
}

#[test]
fn unfinished_comments_and_strings_are_refused() {
    assert!(matches!(
        tokenize(b"\"UserLocalConfigStore\" { /* unfinished"),
        Err(VdfError::UnterminatedComment)
    ));
    assert!(matches!(tokenize(b"\"abc"), Err(VdfError::UnterminatedString)));
    assert!(matches!(tokenize(b"k \"a\\\""), Err(VdfError::UnterminatedString)));
    // Inside a string or after `//`, an opening `/*` is plain text.
    assert!(tokenize(b"\"/*\" // /* \n x").is_ok());
    assert!(tokenize(b"/* a */ \"b\"").is_ok());
}

#[test]
fn tokens_hold_their_own_bytes_in_order() {
    let source = b"\xEF\xBB\xBF\"k\\\"q\" {v}";
    let tokens = tokenize(source).unwrap();
    let spans: Vec<(usize, usize)> = tokens.iter().map(|t| (t.start, t.end)).collect();
    assert_eq!(spans, [(3, 9), (10, 11), (11, 12), (12, 13)]);
    assert!(matches!(&tokens[0].kind, TokenKind::Word { text, quoted: true } if text == b"k\"q"));
    assert_eq!(source[tokens[0].start], b'"');
    assert_eq!(source[tokens[0].end - 1], b'"');
    assert!(matches!(tokens[1].kind, TokenKind::Open));
    assert!(matches!(&tokens[2].kind, TokenKind::Word { text, quoted: false } if text == b"v"));
    assert!(matches!(tokens[3].kind, TokenKind::Close));
}
