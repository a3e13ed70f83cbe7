use nioh3_save_manager::signer::{decode_gbk, DecodeError, Forwarder, GbkDecoder, RelayStep};

// The signer's success message in code page 936.
const SUCCESS: &[u8] = b"\xd2\xd1\xce\xaa\xc4\xe3\xb8\xc4\xd0\xb4\xc7\xa9\xc3\xfb";

/// Forwards the chunks one after the other, as pipe reads would deliver
/// them (a read gives at least one byte until the end), and returns the text
/// shown, or the first error.
fn feed(chunks: &[&[u8]]) -> Result<String, DecodeError> {
    let mut relay = Forwarder::new();
    let mut chunks = chunks.iter().filter(|chunk| !chunk.is_empty());
    let mut shown = String::new();
    loop {
        match relay.step() {
            RelayStep::ReadMore => relay.read(chunks.next().copied().unwrap_or(b"")),
            RelayStep::WriteText => {
                shown.push_str(relay.text());
                relay.written();
            }
            RelayStep::Flush => relay.flushed(),
            RelayStep::Finish => return relay.finish().map(|()| shown),
        }
    }
}

#[test]
fn decodes_success_message_across_every_pipe_boundary() {
    for split in 0..=SUCCESS.len() {
        let mut decoder = GbkDecoder::new();
        let mut text = decoder.push(&SUCCESS[..split]).unwrap();
        text.push_str(&decoder.push(&SUCCESS[split..]).unwrap());
        decoder.finish().unwrap();
        assert_eq!(text, "已为你改写签名");
    }
    let mut decoder = GbkDecoder::new();
    let mut text = String::new();
    for byte in SUCCESS {
        text.push_str(&decoder.push(&[*byte]).unwrap());
    }
    decoder.finish().unwrap();
    assert_eq!(text, "已为你改写签名");
}

#[test]
fn preserves_ascii_line_endings_and_gbk_ascii_range_trail_bytes() {
    let bytes = [b"SAVEDATA.BIN\r\n".as_slice(), b"\x81\x40", SUCCESS, b"!"].concat();
    assert_eq!(
        feed(&[bytes.as_slice()]).unwrap(),
        "SAVEDATA.BIN\r\n丂已为你改写签名!"
    );
}

#[test]
fn reports_invalid_or_truncated_gbk_instead_of_garbled_success() {
    assert!(decode_gbk(b"\x81\x30").is_err());
    assert!(feed(&[b"\xd2".as_slice()]).is_err());
}

#[test]
fn flushes_a_prompt_before_reading_more_output() {
    // The prompt has no line end: it is written and flushed as soon as it
    // is read, before more output is read.
    let prompt = b"Press any key to continue . . .";
    let mut relay = Forwarder::new();
    let mut flushed = false;
    let mut sent = false;
    loop {
        match relay.step() {
            RelayStep::ReadMore => {
                if sent {
                    assert!(flushed, "prompt must be visible before waiting");
                    relay.read(b"");
                } else {
                    sent = true;
                    relay.read(prompt);
                }
            }
            RelayStep::WriteText => {
                assert_eq!(relay.text(), "Press any key to continue . . .");
                relay.written();
            }
            RelayStep::Flush => {
                flushed = true;
                relay.flushed();
            }
            RelayStep::Finish => break,
        }
    }
    relay.finish().unwrap();
}

#[test]
fn holds_back_only_a_trailing_lead_byte() {
    let mut decoder = GbkDecoder::new();
    assert_eq!(decoder.push(b"ok\xd2").unwrap(), "ok");
    assert_eq!(decoder.finish(), Err(DecodeError::Truncated));
    assert_eq!(decoder.push(b"\xd1").unwrap(), "已");
    assert_eq!(decoder.finish(), Ok(()));
}

#[test]
fn empty_reads_give_empty_text() {
    assert_eq!(decode_gbk(b"").unwrap(), "");
    let mut decoder = GbkDecoder::new();
    assert_eq!(decoder.push(b"").unwrap(), "");
    assert_eq!(decoder.finish(), Ok(()));
}

#[test]
fn four_byte_sequences_are_not_code_page_936() {
    // A valid GB 18030 four-byte sequence (U+0080), which code page 936 lacks.
    assert_eq!(decode_gbk(b"\x81\x30\x81\x30"), Err(DecodeError::Invalid));
    assert_eq!(decode_gbk(b"a\x81\x30\x81\x30"), Err(DecodeError::Invalid));
}

#[test]
fn invalid_bytes_are_kept_and_reported() {
    let mut decoder = GbkDecoder::new();
    // 0xff is not a GBK byte.
    assert_eq!(decoder.push(b"\xff"), Err(DecodeError::Invalid));
    // The refused byte is still held: the output cannot end cleanly.
    assert_eq!(decoder.finish(), Err(DecodeError::Truncated));
}

#[test]
fn decodes_through_the_gbk_table() {
    // Would fail if the decoder handed its bytes back unchanged.
    assert_eq!(decode_gbk(b"\xc4\xe3").unwrap(), "你");
    assert_eq!(decode_gbk(b"abc").unwrap(), "abc");
}

#[test]
fn splitting_feeds_hands_over_the_same_text() {
    let text = [b"SAVEDATA.BIN\r\n".as_slice(), SUCCESS].concat();
    let whole = feed(&[text.as_slice()]).unwrap();
    for split in 0..=text.len() {
        assert_eq!(feed(&[&text[..split], &text[split..]]).unwrap(), whole);
    }
}

#[test]
fn decode_errors_have_their_messages() {
    assert_eq!(DecodeError::Invalid.message(), "无法按 GBK 解码改签工具输出");
    assert_eq!(DecodeError::TooLong.message(), "改签工具输出过长");
    assert_eq!(
        DecodeError::Truncated.message(),
        "改签工具输出以不完整的 GBK 字符结束，无法确认完整结果"
    );
}

#[test]
fn codes_kept_in_the_private_use_area_by_code_page_936() {
    assert_eq!(decode_gbk(b"\xa6\xd9").unwrap(), "\u{E78D}");
    assert_eq!(decode_gbk(b"\xa6\xdd").unwrap(), "\u{E791}");
    assert_eq!(decode_gbk(b"\xa6\xf3").unwrap(), "\u{E796}");
    assert_eq!(decode_gbk(b"\xfe\x59").unwrap(), "\u{E81E}");
    assert_eq!(decode_gbk(b"\xfe\x7e").unwrap(), "\u{E843}");
    assert_eq!(decode_gbk(b"\xfe\xa0").unwrap(), "\u{E864}");
    assert_eq!(decode_gbk(b"a\xa6\xd9\xc4\xe3").unwrap(), "a\u{E78D}你");
    // Neighbouring codes are decoded as GBK.
    assert_eq!(decode_gbk(b"\xfe\x40").unwrap(), "\u{FA0C}");
    assert_eq!(decode_gbk(b"\xfe\xfe").unwrap(), "\u{E4C5}");
}

#[test]
fn split_feeding_gives_the_text_of_the_whole() {
    let bytes = b"ok \xa6\xd9\xd2\xd1\xce\xaa\r\n";
    let whole = decode_gbk(bytes).unwrap();
    for split in 0..=bytes.len() {
        let mut decoder = GbkDecoder::new();
        let mut text = decoder.push(&bytes[..split]).unwrap();
        text.push_str(&decoder.push(&bytes[split..]).unwrap());
        decoder.finish().unwrap();
        assert_eq!(text, whole);
    }
}
