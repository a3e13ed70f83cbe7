use nioh3_save_manager::dialog::{dialog_reply, dialog_template, wide, DialogReply, WINDOW_STYLE};

#[test]
fn wide_ends_with_a_zero_unit() {
    assert_eq!(wide("a"), vec![97u16, 0]);
    assert_eq!(wide(""), vec![0u16]);
}

#[test]
fn wide_matches_std_utf16() {
    let text = "开始前确认 😀 gdiplus.dll";
    let expected: Vec<u16> = text.encode_utf16().chain(Some(0)).collect();
    assert_eq!(wide(text), expected);
}

#[test]
fn wide_writes_a_surrogate_pair_above_the_basic_plane() {
    assert_eq!(wide("😀"), vec![0xD83Du16, 0xDE00, 0]);
}

#[test]
fn dialog_template_packs_header_and_title() {
    let words = dialog_template("开始前确认");
    // 22 bytes of header, 12 bytes of title with its terminator, 2 bytes of padding.
    assert_eq!(words.len(), 9);
    assert_eq!(words[0], WINDOW_STYLE);
    assert_eq!(words[0], 0x82C8_0080);
    assert_eq!(words[1], 0);
    assert_eq!(words[2], 0);
    assert_eq!(words[3], 400 << 16);
    assert_eq!(words[4], 300);
    let units: Vec<u16> = "开始前确认".encode_utf16().collect();
    assert_eq!(words[5], (units[0] as u32) << 16);
    assert_eq!(words[6], units[1] as u32 | (units[2] as u32) << 16);
    assert_eq!(words[7], units[3] as u32 | (units[4] as u32) << 16);
    assert_eq!(words[8], 0);
}

#[test]
fn dialog_template_with_an_empty_title_is_padded_to_a_word() {
    let words = dialog_template("");
    assert_eq!(words.len(), 6);
    assert_eq!(words[5], 0);
}

#[test]
fn ok_ends_the_dialog_only_once_it_is_ready() {
    assert_eq!(
        dialog_reply(0x0111, 1, false),
        Some(DialogReply { handled: 1, end_with: None })
    );
    assert_eq!(
        dialog_reply(0x0111, 1, true),
        Some(DialogReply { handled: 1, end_with: Some(1) })
    );
    // The high word of the command's parameter carries the notification code.
    assert_eq!(
        dialog_reply(0x0111, 0x0001_0001, true),
        Some(DialogReply { handled: 1, end_with: Some(1) })
    );
}

#[test]
fn cancel_escape_and_closing_end_the_dialog_as_cancel() {
    let cancel = Some(DialogReply { handled: 1, end_with: Some(2) });
    assert_eq!(dialog_reply(0x0111, 2, false), cancel);
    assert_eq!(dialog_reply(0x0111, 2, true), cancel);
    assert_eq!(dialog_reply(0x0010, 0, false), cancel);
    assert_eq!(
        dialog_reply(0x0111, 7, true),
        Some(DialogReply { handled: 0, end_with: None })
    );
    assert_eq!(dialog_reply(0x000f, 0, true), None);
}
