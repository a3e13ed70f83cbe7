//! The data that the preparation dialog hands to Win32: UTF-16 strings and
//! the in-memory dialog template.

use vstd::prelude::*;
use vstd::string::StrSliceExecFns;

verus! {

// ---------------------------------------------------------------------------
// UTF-16
// ---------------------------------------------------------------------------

/// The UTF-16 code units of one character (`char::encode_utf16`).
pub open spec fn utf16_of(c: char) -> Seq<u16> {
    let v = c as u32;
    if v < 0x10000 {
        seq![v as u16]
    } else {
        seq![(0xD800 + (v - 0x10000) / 0x400) as u16, (0xDC00 + (v - 0x10000) % 0x400) as u16]
    }
}

/// The UTF-16 code units of a text (`str::encode_utf16`).
pub open spec fn utf16(s: Seq<char>) -> Seq<u16>
    decreases s.len(),
{
    if s.len() == 0 {
        seq![]
    } else {
        utf16(s.drop_last()) + utf16_of(s.last())
    }
}

/// A text as Win32 takes it: UTF-16, ended by a zero unit.
pub fn wide(value: &str) -> (r: Vec<u16>)
    ensures
        r@ == utf16(value@).push(0u16),
{
    let n = value.unicode_len();
    let mut out: Vec<u16> = Vec::new();
    let mut k: usize = 0;
    while k < n
        invariant
            n == value@.len(),
            k <= n,
            out@ == utf16(value@.subrange(0, k as int)),
        decreases n - k,
    {
        let c = value.get_char(k);
        let v = c as u32;
        let ghost before = out@;
        if v < 0x10000 {
            out.push(v as u16);
        } else {
            out.push((0xD800 + (v - 0x10000) / 0x400) as u16);
            out.push((0xDC00 + (v - 0x10000) % 0x400) as u16);
        }
        assert(out@ =~= before + utf16_of(c));
        assert(value@.subrange(0, k + 1).drop_last() =~= value@.subrange(0, k as int));
        k = k + 1;
    }
    assert(value@.subrange(0, n as int) =~= value@);
    out.push(0);
    out
}

// ---------------------------------------------------------------------------
// The dialog template
// ---------------------------------------------------------------------------

/// `WS_POPUP | WS_CAPTION | WS_SYSMENU | WS_CLIPCHILDREN | DS_MODALFRAME`.
pub const WINDOW_STYLE: u32 = 0x80000000 | 0x00c00000 | 0x00080000 | 0x02000000 | 0x00000080;

pub open spec fn le16(v: u16) -> Seq<u8> {
    seq![(v % 256) as u8, (v / 256) as u8]
}

pub open spec fn le32(v: u32) -> Seq<u8> {
    seq![(v % 256) as u8, (v / 256 % 256) as u8, (v / 65536 % 256) as u8, (v / 16777216) as u8]
}

/// The little-endian bytes of a run of 16-bit units.
pub open spec fn le16s(units: Seq<u16>) -> Seq<u8>
    decreases units.len(),
{
    if units.len() == 0 {
        seq![]
    } else {
        le16s(units.drop_last()) + le16(units.last())
    }
}

/// Zero bytes up to the next multiple of four.
pub open spec fn padded(bytes: Seq<u8>) -> Seq<u8> {
    bytes + Seq::new(((4 - bytes.len() % 4) % 4) as nat, |i: int| 0u8)
}

/// Four little-endian bytes at a time, as 32-bit words.
pub open spec fn words(bytes: Seq<u8>) -> Seq<u32> {
    Seq::new(
        bytes.len() / 4,
        |i: int|
            (bytes[4 * i] + bytes[4 * i + 1] * 256 + bytes[4 * i + 2] * 65536 + bytes[4 * i + 3]
                * 16777216) as u32,
    )
}

/// A `DLGTEMPLATE` with no controls, 400 by 300 dialog units, no menu, the
/// default class and the given title, packed in two-byte fields and stored
/// in 32-bit words so that it starts on a four-byte boundary.
pub open spec fn template_of(title: Seq<char>) -> Seq<u32> {
    let fields = le32(WINDOW_STYLE) + le32(0) + le16(0) + le16(0) + le16(0) + le16(400) + le16(300)
        + le16(0) + le16(0);
    words(padded(fields + le16s(utf16(title).push(0u16))))
}

fn push_le16(bytes: &mut Vec<u8>, v: u16)
    ensures
        final(bytes)@ == old(bytes)@ + le16(v),
{
    bytes.push((v % 256) as u8);
    bytes.push((v / 256) as u8);
}

fn push_le32(bytes: &mut Vec<u8>, v: u32)
    ensures
        final(bytes)@ == old(bytes)@ + le32(v),
{
    bytes.push((v % 256) as u8);
    bytes.push((v / 256 % 256) as u8);
    bytes.push((v / 65536 % 256) as u8);
    bytes.push((v / 16777216) as u8);
}

/// The in-memory template of the preparation dialog, titled `title`.
pub fn dialog_template(title: &str) -> (r: Vec<u32>)
    ensures
        r@ == template_of(title@),
{
    let mut bytes: Vec<u8> = Vec::new();
    push_le32(&mut bytes, WINDOW_STYLE);
    push_le32(&mut bytes, 0);
    push_le16(&mut bytes, 0);
    push_le16(&mut bytes, 0);
    push_le16(&mut bytes, 0);
    push_le16(&mut bytes, 400);
    push_le16(&mut bytes, 300);
    push_le16(&mut bytes, 0);
    push_le16(&mut bytes, 0);
    let ghost fields = bytes@;
    let units = wide(title);
    let mut k: usize = 0;
    while k < units.len()
        invariant
            k <= units.len(),
            bytes@ == fields + le16s(units@.subrange(0, k as int)),
        decreases units.len() - k,
    {
        let ghost before = bytes@;
        push_le16(&mut bytes, units[k]);
        assert(units@.subrange(0, k + 1).drop_last() =~= units@.subrange(0, k as int));
        assert(bytes@ =~= fields + le16s(units@.subrange(0, k + 1)));
        k = k + 1;
    }
    assert(units@.subrange(0, units.len() as int) =~= units@);
    let ghost unpadded = bytes@;
    while bytes.len() % 4 != 0
        invariant
            unpadded.len() <= bytes.len() <= unpadded.len() + 3,
            bytes@ == unpadded + Seq::new((bytes.len() - unpadded.len()) as nat, |i: int| 0u8),
            bytes.len() % 4 != 0 ==> (bytes.len() - unpadded.len()) < (4 - unpadded.len() % 4) % 4,
            bytes.len() % 4 == 0 ==> (bytes.len() - unpadded.len()) == (4 - unpadded.len() % 4)
                % 4,
        decreases unpadded.len() + 3 - bytes.len(),
    {
        bytes.push(0);
        assert(bytes@ =~= unpadded + Seq::new((bytes.len() - unpadded.len()) as nat, |i: int| 0u8));
    }
    assert(bytes@ == padded(unpadded));
    let mut out: Vec<u32> = Vec::new();
    let mut j: usize = 0;
    while j < bytes.len() / 4
        invariant
            bytes@ == padded(unpadded),
            j <= bytes.len() / 4,
            out@ == words(bytes@).subrange(0, j as int),
        decreases bytes.len() / 4 - j,
    {
        let w = bytes[4 * j] as u32 + bytes[4 * j + 1] as u32 * 256 + bytes[4 * j + 2] as u32
            * 65536 + bytes[4 * j + 3] as u32 * 16777216;
        out.push(w);
        assert(out@ =~= words(bytes@).subrange(0, j + 1));
        j = j + 1;
    }
    assert(words(bytes@).subrange(0, (bytes.len() / 4) as int) =~= words(bytes@));
    out
}

// ---------------------------------------------------------------------------
// The buttons
// ---------------------------------------------------------------------------

/// The id of the OK button, which the dialog ends with when the user goes on.
pub const DIALOG_OK: usize = 1;

/// The id of the Cancel button; Escape reaches the dialog as this command too.
pub const DIALOG_CANCEL: usize = 2;

/// `WM_COMMAND`: a button was pressed.
pub const COMMAND_MESSAGE: u32 = 0x0111;

/// `WM_CLOSE`: the window is being closed.
pub const CLOSE_MESSAGE: u32 = 0x0010;

/// How the dialog answers a message: what its window procedure returns (1
/// where it handled the message), and the id it ends with, if it ends.
#[derive(Debug, Clone, Copy, PartialEq, Eq)]
pub struct DialogReply {
    pub handled: isize,
    pub end_with: Option<usize>,
}

/// How the dialog answers a button command or a request to close, and `None`
/// for any other message. The command is the low word of `wparam`. Cancel ends
/// the dialog at once, and so does closing the window, as Cancel; OK ends it
/// only once the dialog is ready, and is handled either way; other commands
/// are left to the system.
pub fn dialog_reply(message: u32, wparam: usize, ready: bool) -> (r: Option<DialogReply>)
    ensures
        r == (if message == COMMAND_MESSAGE {
            let command = wparam & 0xffff;
            if command == DIALOG_CANCEL {
                Some(DialogReply { handled: 1, end_with: Some(DIALOG_CANCEL) })
            } else if command == DIALOG_OK {
                Some(DialogReply { handled: 1, end_with: if ready { Some(DIALOG_OK) } else { None } })
            } else {
                Some(DialogReply { handled: 0, end_with: None })
            }
        } else if message == CLOSE_MESSAGE {
            Some(DialogReply { handled: 1, end_with: Some(DIALOG_CANCEL) })
        } else {
            None
        }),
{
    if message == COMMAND_MESSAGE {
        let command = wparam & 0xffff;
        if command == DIALOG_CANCEL {
            Some(DialogReply { handled: 1, end_with: Some(DIALOG_CANCEL) })
        } else if command == DIALOG_OK {
            Some(DialogReply { handled: 1, end_with: if ready { Some(DIALOG_OK) } else { None } })
        } else {
            Some(DialogReply { handled: 0, end_with: None })
        }
    } else if message == CLOSE_MESSAGE {
        Some(DialogReply { handled: 1, end_with: Some(DIALOG_CANCEL) })
    } else {
        None
    }
}

} // verus!
