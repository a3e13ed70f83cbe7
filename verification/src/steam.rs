//! Steam's per-account configuration: locating it and switching off the cloud
//! synchronisation of one game without disturbing anything else in the file.

use vstd::prelude::*;
use vstd::utf8::*;
use vstd::string::StringSliceAdditionalSpecFns;
use crate::text::{
    all_digits, all_digits_exec, append_ascii, ascii, decimal_digits, decimal_string,
    lemma_encode_utf8_concat, parse_u64, parse_unsigned,
};
use crate::vdf::{
    ascii_key, cloud_key, copy_bytes, find_app, find_unique, parse_entries, parse_root,
    tokenize, tokens_of, Entry, SpecVdfError, Value, VdfError, CR, LF, TAB, SPACE, app_path, comment_end, entries_view, entry_view, find_app_spec, first_match, has_bom, is_space,
    key_eq, lemma_comment_end_bounds, lemma_line_end_bounds, lemma_quote_end_bounds,
    lemma_word_end_bounds, lex, line_end, local_root_key, pair_at, parse_items, parse_list,
    quote_end, roaming_root_key, unique_match, walk, word_end, SpecEntry, SpecToken,
    SpecTokenKind, SpecValue, CLOSE_BRACE, OPEN_BRACE, QUOTE, SLASH, STAR,
};

verus! {

// ---------------------------------------------------------------------------
// The configuration of one account
// ---------------------------------------------------------------------------

/// The SteamID64 of the first individual account; SteamID64 = base + account number.
pub const STEAM_ID_BASE: u64 = 76_561_197_960_265_728;

/// Why a save directory name does not name a Steam account.
#[derive(Debug, Clone, Copy, PartialEq, Eq, Structural)]
pub enum SteamIdError {
    /// The name is empty or holds something other than ASCII digits.
    NotDigits,
    /// The digits do not spell the SteamID64 of an individual account.
    NotPersonal,
}

pub open spec fn steam_id_message(e: SteamIdError, steam_id: Seq<char>) -> Seq<char> {
    match e {
        SteamIdError::NotDigits => "无效的 Steam 账号目录名："@ + steam_id,
        SteamIdError::NotPersonal => "存档目录名不是有效的个人 SteamID64："@ + steam_id,
    }
}

pub open spec fn missing_config_message(steam_id: Seq<char>, path: Seq<char>) -> Seq<char> {
    "找不到所选账号 "@ + steam_id + " 的 Steam 配置："@ + path
        + "。请登录该账号后手动关闭仁王 3 的 Steam 云存档。"@
}

impl SteamIdError {
    /// The message shown when the save directory `steam_id` is refused.
    pub fn message(&self, steam_id: &str) -> (m: String)
        ensures
            m@ == steam_id_message(*self, steam_id@),
    {
        match self {
            SteamIdError::NotDigits => String::from_str("无效的 Steam 账号目录名：").concat(steam_id),
            SteamIdError::NotPersonal => String::from_str(
                "存档目录名不是有效的个人 SteamID64：",
            ).concat(steam_id),
        }
    }
}

/// The message shown when the account's configuration file is not there
/// (`path` as shown to the user).
pub fn missing_config(steam_id: &str, path: &str) -> (m: String)
    ensures
        m@ == missing_config_message(steam_id@, path@),
{
    String::from_str("找不到所选账号 ").concat(steam_id).concat(" 的 Steam 配置：").concat(
        path,
    ).concat("。请登录该账号后手动关闭仁王 3 的 Steam 云存档。")
}

/// The account number (the low 32 bits, never 0) of an individual SteamID64
/// spelled in decimal.
pub open spec fn account_number(id: Seq<u8>) -> Result<int, SteamIdError> {
    if !all_digits(id) {
        Err(SteamIdError::NotDigits)
    } else {
        match parse_unsigned(id, u64::MAX as int) {
            None => Err(SteamIdError::NotPersonal),
            Some(v) => if 0 < v - STEAM_ID_BASE <= u32::MAX {
                Ok(v - STEAM_ID_BASE)
            } else {
                Err(SteamIdError::NotPersonal)
            },
        }
    }
}

/// Maps a SteamID64 (a save directory name) to exactly that user's shared
/// configuration: the path components below the Steam directory,
/// `userdata/<account number>/7/remote/sharedconfig.vdf`.
pub fn config_path(steam_id: &str) -> (r: Result<Vec<String>, SteamIdError>)
    ensures
        match account_number(steam_id.spec_bytes()) {
            Ok(n) => r matches Ok(parts) && parts.len() == 5 && parts[0]@ == "userdata"@
                && encode_utf8(parts[1]@) == decimal_digits(n as nat) && parts[2]@ == "7"@
                && parts[3]@ == "remote"@ && parts[4]@ == "sharedconfig.vdf"@,
            Err(e) => r == Err::<Vec<String>, SteamIdError>(e),
        },
{
    let id = steam_id.as_bytes();
    if !all_digits_exec(id) {
        return Err(SteamIdError::NotDigits);
    }
    let value = match parse_u64(id) {
        None => {
            return Err(SteamIdError::NotPersonal);
        },
        Some(v) => v,
    };
    if value <= STEAM_ID_BASE || value - STEAM_ID_BASE > 0xffff_ffff {
        return Err(SteamIdError::NotPersonal);
    }
    let account = value - STEAM_ID_BASE;
    let mut parts: Vec<String> = Vec::new();
    parts.push(String::from_str("userdata"));
    parts.push(decimal_string(account));
    parts.push(String::from_str("7"));
    parts.push(String::from_str("remote"));
    parts.push(String::from_str("sharedconfig.vdf"));
    Ok(parts)
}

/// Two save directory names lead to the same configuration only when they
/// name the same account: the directory `userdata/<n>` spells the account
/// number in decimal, and different numbers are spelled differently.
pub proof fn law_config_path_names_one_account(a: Seq<u8>, b: Seq<u8>)
    requires
        account_number(a) is Ok,
        account_number(b) is Ok,
        decimal_digits(account_number(a)->Ok_0 as nat) == decimal_digits(
            account_number(b)->Ok_0 as nat,
        ),
    ensures
        account_number(a) == account_number(b),
{
    let n = account_number(a)->Ok_0;
    let m = account_number(b)->Ok_0;
    crate::text::lemma_decimal_round_trip(n as nat);
    crate::text::lemma_decimal_round_trip(m as nat);
}

// ---------------------------------------------------------------------------
// Where an edit may cut the text
// ---------------------------------------------------------------------------

/// A position that a token or an object boundary can occupy: next to an ASCII
/// byte, at either end, or right after the byte order mark.
pub open spec fn safe_at(b: Seq<u8>, p: int) -> bool {
    &&& 0 <= p <= b.len()
    &&& (p == 0 || p == b.len() || b[p] < 128 || b[p - 1] < 128 || (p == 3 && has_bom(b)))
}

pub open spec fn tokens_safe(b: Seq<u8>, t: Seq<SpecToken>) -> bool {
    forall|k: int| 0 <= k < t.len() ==> safe_at(b, #[trigger] t[k].start) && safe_at(b, t[k].end)
}

pub open spec fn entries_safe(b: Seq<u8>, es: Seq<SpecEntry>) -> bool
    decreases es,
{
    if es.len() == 0 {
        true
    } else {
        entry_safe(b, es[0]) && entries_safe(b, es.subrange(1, es.len() as int))
    }
}

/// The key, every value span and every closing brace in the entry lie at safe positions.
pub open spec fn entry_safe(b: Seq<u8>, e: SpecEntry) -> bool
    decreases e,
{
    safe_at(b, e.key_start) && match e.value {
        SpecValue::Text { start, end, .. } => safe_at(b, start) && safe_at(b, end),
        SpecValue::Object { entries, close } => safe_at(b, close) && entries_safe(b, entries),
    }
}

proof fn lemma_boundary_after_ascii(b: Seq<u8>, p: int)
    requires
        valid_utf8(b),
        0 < p <= b.len(),
        b[p - 1] < 128,
    ensures
        is_char_boundary(b, p),
    decreases b.len(),
{
    reveal_with_fuel(is_char_boundary, 2);
    let l = length_of_first_scalar(b);
    let rest = pop_first_scalar(b);
    assert(valid_first_scalar(b));
    assert(valid_utf8(rest));
    assert(1 <= l <= 4 && l <= b.len());
    assert(rest.len() == b.len() - l);
    if p - l > 0 {
        assert(rest[p - l - 1] == b[p - 1]);
        lemma_boundary_after_ascii(rest, p - l);
    } else if p - l < 0 {
        if p - 1 == 0 {
            assert(is_leading_byte_width_1(b[0]));
        } else {
            assert(is_continuation_byte(b[p - 1]));
        }
    }
}

proof fn lemma_safe_boundary(b: Seq<u8>, p: int)
    requires
        valid_utf8(b),
        safe_at(b, p),
    ensures
        is_char_boundary(b, p),
{
    broadcast use is_char_boundary_start_end_of_seq;

    if p == 0 || p == b.len() {
    } else if b[p] < 128 {
        is_char_boundary_iff_not_is_continuation_byte(b, p);
    } else if b[p - 1] < 128 {
        lemma_boundary_after_ascii(b, p);
    } else {
        assert(valid_first_scalar(b));
        assert(length_of_first_scalar(b) == 3);
        assert(is_char_boundary(pop_first_scalar(b), 0));
    }
}

proof fn lemma_prepend_safe(
    b: Seq<u8>,
    tok: SpecToken,
    r: Result<Seq<SpecToken>, crate::vdf::SpecVdfError>,
)
    requires
        safe_at(b, tok.start),
        safe_at(b, tok.end),
        r matches Ok(ts) ==> tokens_safe(b, ts),
    ensures
        crate::vdf::prepend_token(tok, r) matches Ok(ts) ==> tokens_safe(b, ts),
{
    if let Ok(ts) = r {
        let all = seq![tok] + ts;
        assert forall|k: int| 0 <= k < all.len() implies safe_at(b, #[trigger] all[k].start)
            && safe_at(b, all[k].end) by {
            if k > 0 {
                assert(all[k] == ts[k - 1]);
            }
        }
    }
}

pub proof fn lemma_lex_safe(b: Seq<u8>, i: int)
    requires
        safe_at(b, i),
    ensures
        lex(b, i) matches Ok(ts) ==> tokens_safe(b, ts),
    decreases b.len() - i,
{
    if i >= b.len() {
    } else if is_space(b[i]) {
        lemma_lex_safe(b, i + 1);
    } else if pair_at(b, i, SLASH, SLASH) {
        lemma_line_end_bounds(b, i + 2);
        lemma_lex_safe(b, line_end(b, i + 2));
    } else if pair_at(b, i, SLASH, STAR) {
        lemma_comment_end_bounds(b, i + 2);
        if let Some(k) = comment_end(b, i + 2) {
            lemma_lex_safe(b, k + 2);
        }
    } else if b[i] == OPEN_BRACE {
        lemma_lex_safe(b, i + 1);
        lemma_prepend_safe(
            b,
            SpecToken { kind: SpecTokenKind::Open, start: i, end: i + 1 },
            lex(b, i + 1),
        );
    } else if b[i] == CLOSE_BRACE {
        lemma_lex_safe(b, i + 1);
        lemma_prepend_safe(
            b,
            SpecToken { kind: SpecTokenKind::Close, start: i, end: i + 1 },
            lex(b, i + 1),
        );
    } else if b[i] == QUOTE {
        lemma_quote_end_bounds(b, i + 1);
        if let Some(k) = quote_end(b, i + 1) {
            lemma_lex_safe(b, k + 1);
            if let Some(text) = crate::vdf::unescape(b.subrange(i + 1, k)) {
                lemma_prepend_safe(
                    b,
                    SpecToken {
                        kind: SpecTokenKind::Word { text, quoted: true },
                        start: i,
                        end: k + 1,
                    },
                    lex(b, k + 1),
                );
            }
        }
    } else {
        lemma_word_end_bounds(b, i);
        let k = word_end(b, i);
        lemma_lex_safe(b, k);
        lemma_prepend_safe(
            b,
            SpecToken {
                kind: SpecTokenKind::Word { text: b.subrange(i, k), quoted: false },
                start: i,
                end: k,
            },
            lex(b, k),
        );
    }
}

pub proof fn lemma_entries_safe_index(b: Seq<u8>, es: Seq<SpecEntry>)
    requires
        entries_safe(b, es),
    ensures
        forall|i: int| 0 <= i < es.len() ==> entry_safe(b, #[trigger] es[i]),
    decreases es.len(),
{
    if es.len() > 0 {
        let rest = es.subrange(1, es.len() as int);
        lemma_entries_safe_index(b, rest);
        assert forall|i: int| 0 <= i < es.len() implies entry_safe(b, #[trigger] es[i]) by {
            if i > 0 {
                assert(es[i] == rest[i - 1]);
            }
        }
    }
}

proof fn lemma_entries_safe_prepend(b: Seq<u8>, e: SpecEntry, es: Seq<SpecEntry>)
    requires
        entry_safe(b, e),
        entries_safe(b, es),
    ensures
        entries_safe(b, seq![e] + es),
{
    let all = seq![e] + es;
    assert(all[0] == e);
    assert(all.subrange(1, all.len() as int) =~= es);
}

pub proof fn lemma_parse_list_safe(b: Seq<u8>, t: Seq<SpecToken>, c: int, depth: int)
    requires
        tokens_safe(b, t),
    ensures
        parse_list(t, c, depth) matches Ok((es, _)) ==> entries_safe(b, es),
    decreases t.len() - c, 1int,
{
    if depth <= 128 {
        lemma_parse_items_safe(b, t, c, depth);
    }
}

pub proof fn lemma_parse_items_safe(b: Seq<u8>, t: Seq<SpecToken>, c: int, depth: int)
    requires
        tokens_safe(b, t),
    ensures
        parse_items(t, c, depth) matches Ok((es, _)) ==> entries_safe(b, es),
    decreases t.len() - c, 0int,
{
    if c < 0 || c >= t.len() {
    } else {
        match t[c].kind {
            SpecTokenKind::Word { text: key, .. } => {
                if c + 1 < t.len() {
                    match t[c + 1].kind {
                        SpecTokenKind::Word { quoted, .. } => {
                            lemma_parse_items_safe(b, t, c + 2, depth);
                            let e = SpecEntry {
                                key,
                                key_start: t[c].start,
                                value: SpecValue::Text {
                                    start: t[c + 1].start,
                                    end: t[c + 1].end,
                                    quoted,
                                },
                            };
                            assert(safe_at(b, t[c + 1].start));
                            assert(safe_at(b, t[c].start));
                            if let Ok((rest, _)) = parse_items(t, c + 2, depth) {
                                lemma_entries_safe_prepend(b, e, rest);
                            }
                        },
                        SpecTokenKind::Open => {
                            lemma_parse_list_safe(b, t, c + 2, depth + 1);
                            if let Ok((children, cc)) = parse_list(t, c + 2, depth + 1) {
                                if 0 <= cc < t.len() && t[cc].kind is Close && cc + 1 > c {
                                    lemma_parse_items_safe(b, t, cc + 1, depth);
                                    let e = SpecEntry {
                                        key,
                                        key_start: t[c].start,
                                        value: SpecValue::Object {
                                            entries: children,
                                            close: t[cc].start,
                                        },
                                    };
                                    assert(safe_at(b, t[cc].start));
                                    assert(safe_at(b, t[c].start));
                                    if let Ok((rest, _)) = parse_items(t, cc + 1, depth) {
                                        lemma_entries_safe_prepend(b, e, rest);
                                    }
                                }
                            }
                        },
                        _ => {},
                    }
                }
            },
            _ => {},
        }
    }
}

pub proof fn lemma_walk_safe(b: Seq<u8>, e: SpecEntry, path: Seq<Seq<u8>>)
    requires
        entry_safe(b, e),
    ensures
        walk(e, path) matches Ok(Some(x)) ==> entry_safe(b, x),
    decreases path.len(),
{
    if path.len() > 0 {
        if let SpecValue::Object { entries, .. } = e.value {
            if let Ok(Some(i)) = unique_match(entries, path[0]) {
                lemma_entries_safe_index(b, entries);
                lemma_first_match_range(entries, path[0], 0);
                lemma_walk_safe(b, entries[i], path.subrange(1, path.len() as int));
            }
        }
    }
}

pub proof fn lemma_first_match_range(es: Seq<SpecEntry>, key: Seq<u8>, from: int)
    ensures
        first_match(es, key, from) matches Some(i) ==> from <= i < es.len() && 0 <= i,
    decreases es.len() - from,
{
    if !(from < 0 || from >= es.len()) && !key_eq(es[from].key, key) {
        lemma_first_match_range(es, key, from + 1);
    }
}

pub proof fn lemma_find_app_safe(b: Seq<u8>, root: Seq<SpecEntry>, app: Seq<u8>)
    requires
        entries_safe(b, root),
    ensures
        find_app_spec(root, app) matches Ok(x) ==> entry_safe(b, x),
{
    lemma_entries_safe_index(b, root);
    lemma_first_match_range(root, local_root_key(), 0);
    lemma_first_match_range(root, roaming_root_key(), 0);
    if let Ok(Some(i)) = unique_match(root, local_root_key()) {
        lemma_walk_safe(b, root[i], app_path(app));
    }
    if let Ok(Some(i)) = unique_match(root, roaming_root_key()) {
        lemma_walk_safe(b, root[i], app_path(app));
    }
}

// ---------------------------------------------------------------------------
// The edit
// ---------------------------------------------------------------------------

/// Replace the bytes `[start, end)` by `text`.
pub struct SpecEdit {
    pub start: int,
    pub end: int,
    pub text: Seq<u8>,
}

pub open spec fn apply_edit(b: Seq<u8>, e: SpecEdit) -> Seq<u8> {
    b.subrange(0, e.start) + e.text + b.subrange(e.end, b.len() as int)
}

/// Where the line holding position `p` starts: after the last line feed before `p`.
pub open spec fn line_start(b: Seq<u8>, p: int) -> int
    decreases p,
{
    if p <= 0 {
        0
    } else if b[p - 1] == LF {
        p
    } else {
        line_start(b, p - 1)
    }
}

pub open spec fn is_blank(c: u8) -> bool {
    c == SPACE || c == TAB
}

/// The start of the indentation before `p`, when only spaces and tabs stand
/// between the start of the line and `p`.
pub open spec fn indent_start(b: Seq<u8>, p: int) -> Option<int> {
    let s = line_start(b, p);
    if forall|k: int| s <= k < p ==> is_blank(#[trigger] b[k]) {
        Some(s)
    } else {
        None
    }
}

pub open spec fn has_crlf(b: Seq<u8>) -> bool {
    exists|i: int| pair_at(b, i, CR, LF)
}

/// The text's own line ending: CR LF when it holds one anywhere, else LF.
pub open spec fn newline(b: Seq<u8>) -> Seq<u8> {
    if has_crlf(b) {
        seq![CR, LF]
    } else {
        seq![LF]
    }
}

/// The first entry from `from` on whose key starts its line after indentation only.
pub open spec fn first_indented(b: Seq<u8>, es: Seq<SpecEntry>, from: int) -> Option<int>
    decreases es.len() - from,
{
    if from < 0 || from >= es.len() {
        None
    } else if indent_start(b, es[from].key_start) is Some {
        Some(from)
    } else {
        first_indented(b, es, from + 1)
    }
}

/// `"CloudEnabled"<TAB><TAB>"0"`
pub open spec fn cloud_line() -> Seq<u8> {
    seq![QUOTE] + cloud_key() + seq![QUOTE, TAB, TAB, QUOTE, 48u8, QUOTE]
}

/// The indentation of the game's object: that of its closing brace, else that
/// of its key, else none.
pub open spec fn parent_indent(b: Seq<u8>, key_start: int, close: int) -> Seq<u8> {
    match indent_start(b, close) {
        Some(s) => b.subrange(s, close),
        None => match indent_start(b, key_start) {
            Some(s) => b.subrange(s, key_start),
            None => seq![],
        },
    }
}

/// The indentation of the new entry: that of the first indented sibling, else
/// the parent's and one tab.
pub open spec fn child_indent(b: Seq<u8>, es: Seq<SpecEntry>, key_start: int, close: int) -> Seq<u8> {
    match first_indented(b, es, 0) {
        Some(i) => b.subrange(indent_start(b, es[i].key_start)->0, es[i].key_start),
        None => parent_indent(b, key_start, close) + seq![TAB],
    }
}

/// A new `CloudEnabled` line inserted into the game's object: on a line of its
/// own before the closing brace's line when that brace stands after indentation
/// only, otherwise just before the brace.
pub open spec fn insertion(b: Seq<u8>, key_start: int, es: Seq<SpecEntry>, close: int) -> SpecEdit {
    let text = child_indent(b, es, key_start, close) + cloud_line() + newline(b);
    match indent_start(b, close) {
        Some(s) => SpecEdit { start: s, end: s, text },
        None => SpecEdit {
            start: close,
            end: close,
            text: newline(b) + text + parent_indent(b, key_start, close),
        },
    }
}

/// The one change that switches off cloud synchronisation of game `app` in the
/// configuration `b`, or why the text is not edited.
pub open spec fn cloud_edit(b: Seq<u8>, app: Seq<u8>) -> Result<SpecEdit, SpecVdfError> {
    if !all_digits(app) {
        Err(SpecVdfError::InvalidAppId)
    } else {
        match tokens_of(b) {
            Err(x) => Err(x),
            Ok(ts) => match parse_root(ts) {
                Err(x) => Err(x),
                Ok(root) => match find_app_spec(root, app) {
                    Err(x) => Err(x),
                    Ok(a) => match a.value {
                        SpecValue::Text { .. } => Err(SpecVdfError::NotAnObject { key: a.key }),
                        SpecValue::Object { entries, close } => match unique_match(
                            entries,
                            cloud_key(),
                        ) {
                            Err(x) => Err(x),
                            Ok(Some(i)) => match entries[i].value {
                                SpecValue::Text { start, end, quoted } => Ok(
                                    SpecEdit {
                                        start,
                                        end,
                                        text: if quoted {
                                            seq![QUOTE, 48u8, QUOTE]
                                        } else {
                                            seq![48u8]
                                        },
                                    },
                                ),
                                SpecValue::Object { .. } => Err(SpecVdfError::CloudNotText),
                            },
                            Ok(None) => Ok(insertion(b, a.key_start, entries, close)),
                        },
                    },
                },
            },
        }
    }
}

// ---------------------------------------------------------------------------
// Building the edited text
// ---------------------------------------------------------------------------

proof fn lemma_first_indented(b: Seq<u8>, es: Seq<SpecEntry>, from: int)
    ensures
        first_indented(b, es, from) matches Some(i) ==> from <= i < es.len() && 0 <= i && indent_start(
            b,
            es[i].key_start,
        ) is Some,
    decreases es.len() - from,
{
    if !(from < 0 || from >= es.len()) && !(indent_start(b, es[from].key_start) is Some) {
        lemma_first_indented(b, es, from + 1);
    }
}

proof fn lemma_line_start(b: Seq<u8>, p: int)
    requires
        0 <= p <= b.len(),
    ensures
        0 <= line_start(b, p) <= p,
        line_start(b, p) == 0 || b[line_start(b, p) - 1] == LF,
    decreases p,
{
    if p > 0 && b[p - 1] != LF {
        lemma_line_start(b, p - 1);
    }
}

fn line_start_exec(b: &[u8], p: usize) -> (r: usize)
    requires
        p <= b.len(),
    ensures
        r == line_start(b@, p as int),
{
    let mut k = p;
    while k > 0 && b[k - 1] != LF
        invariant
            k <= p <= b.len(),
            line_start(b@, p as int) == line_start(b@, k as int),
        decreases k,
    {
        k = k - 1;
    }
    k
}

fn indent_start_exec(b: &[u8], p: usize) -> (r: Option<usize>)
    requires
        p <= b.len(),
    ensures
        r matches Some(s) ==> indent_start(b@, p as int) == Some(s as int),
        r is None ==> indent_start(b@, p as int) is None,
{
    let s = line_start_exec(b, p);
    proof {
        lemma_line_start(b@, p as int);
    }
    let mut k = s;
    while k < p
        invariant
            s <= k <= p <= b.len(),
            s == line_start(b@, p as int),
            forall|j: int| s <= j < k ==> is_blank(#[trigger] b@[j]),
        decreases p - k,
    {
        if b[k] != SPACE && b[k] != TAB {
            return None;
        }
        k = k + 1;
    }
    Some(s)
}

fn has_crlf_exec(b: &[u8]) -> (r: bool)
    ensures
        r == has_crlf(b@),
{
    let mut i: usize = 0;
    while b.len() > 0 && i < b.len() - 1
        invariant
            forall|j: int| 0 <= j < i ==> !pair_at(b@, j, CR, LF),
        decreases b.len() - i,
    {
        if b[i] == CR && b[i + 1] == LF {
            assert(pair_at(b@, i as int, CR, LF));
            return true;
        }
        i = i + 1;
    }
    false
}

fn first_indented_exec(b: &[u8], entries: &Vec<Entry>) -> (r: Option<usize>)
    requires
        forall|i: int| 0 <= i < entries.len() ==> #[trigger] entries@[i].key_start <= b.len(),
    ensures
        r matches Some(i) ==> first_indented(b@, entries_view(entries@), 0) == Some(i as int)
            && i < entries.len(),
        r is None ==> first_indented(b@, entries_view(entries@), 0) is None,
{
    let ghost ev = entries_view(entries@);
    proof {
        crate::vdf::lemma_entries_view_index(entries@);
    }
    let mut i: usize = 0;
    while i < entries.len()
        invariant
            i <= entries.len(),
            ev == entries_view(entries@),
            ev.len() == entries.len(),
            forall|k: int| 0 <= k < entries.len() ==> #[trigger] ev[k] == entry_view(entries@[k]),
            forall|k: int| 0 <= k < entries.len() ==> #[trigger] entries@[k].key_start <= b.len(),
            first_indented(b@, ev, 0) == first_indented(b@, ev, i as int),
        decreases entries.len() - i,
    {
        assert(ev[i as int].key_start == entries@[i as int].key_start);
        if indent_start_exec(b, entries[i].key_start).is_some() {
            return Some(i);
        }
        i = i + 1;
    }
    None
}

/// Appends the spaces and tabs `b[from..to]`.
fn append_blanks(out: &mut String, b: &[u8], from: usize, to: usize)
    requires
        from <= to <= b.len(),
        forall|k: int| from <= k < to ==> is_blank(#[trigger] b@[k]),
    ensures
        encode_utf8(final(out)@) == encode_utf8(old(out)@) + b@.subrange(from as int, to as int),
{
    let ghost start = encode_utf8(out@);
    let mut k = from;
    while k < to
        invariant
            from <= k <= to <= b.len(),
            forall|j: int| from <= j < to ==> is_blank(#[trigger] b@[j]),
            encode_utf8(out@) == start + b@.subrange(from as int, k as int),
        decreases to - k,
    {
        let ghost before = encode_utf8(out@);
        if b[k] == SPACE {
            proof {
                reveal_strlit(" ");
            }
            append_ascii(out, " ");
            assert(ascii(" "@) =~= seq![SPACE]);
        } else {
            proof {
                reveal_strlit("\t");
            }
            append_ascii(out, "\t");
            assert(ascii("\t"@) =~= seq![TAB]);
        }
        assert(b@.subrange(from as int, k + 1) =~= b@.subrange(from as int, k as int) + seq![
            b@[k as int],
        ]);
        k = k + 1;
    }
}

/// `source` with the bytes `[start, end)` replaced by `middle`.
fn splice(source: &str, start: usize, end: usize, middle: &str) -> (r: String)
    requires
        is_char_boundary(source.spec_bytes(), start as int),
        is_char_boundary(source.spec_bytes(), end as int),
    ensures
        encode_utf8(r@) == source.spec_bytes().subrange(0, start as int) + middle.spec_bytes()
            + source.spec_bytes().subrange(end as int, source.spec_bytes().len() as int),
{
    let (head, _) = source.split_at(start);
    let (_, tail) = source.split_at(end);
    let joined = String::from_str(head);
    let joined = joined.concat(middle);
    let joined = joined.concat(tail);
    proof {
        lemma_encode_utf8_concat(head@, middle@);
        lemma_encode_utf8_concat(head@ + middle@, tail@);
    }
    joined
}

/// The new `CloudEnabled` line together with the line break and indentation
/// that the insertion needs.
fn insertion_text(b: &[u8], key_start: usize, entries: &Vec<Entry>, close: usize) -> (r: String)
    requires
        key_start <= b.len(),
        close <= b.len(),
        forall|i: int| 0 <= i < entries.len() ==> #[trigger] entries@[i].key_start <= b.len(),
    ensures
        encode_utf8(r@) == insertion(b@, key_start as int, entries_view(entries@), close as int).text,
{
    let ghost es = entries_view(entries@);
    proof {
        crate::vdf::lemma_entries_view_index(entries@);
        reveal_strlit("\r\n");
        reveal_strlit("\n");
        reveal_strlit("\"CloudEnabled\"\t\t\"0\"");
        reveal_strlit("CloudEnabled");
        lemma_line_start(b@, close as int);
        lemma_line_start(b@, key_start as int);
    }
    let crlf = has_crlf_exec(b);
    let close_indent = indent_start_exec(b, close);
    let key_indent = indent_start_exec(b, key_start);
    let first = first_indented_exec(b, entries);
    let ghost parent = parent_indent(b@, key_start as int, close as int);
    let ghost child = child_indent(b@, es, key_start as int, close as int);
    let ghost nl = newline(b@);
    let mut out = String::new();
    assert(encode_utf8(out@) =~= Seq::<u8>::empty());
    if close_indent.is_none() {
        if crlf {
            append_ascii(&mut out, "\r\n");
        } else {
            append_ascii(&mut out, "\n");
        }
        assert(ascii("\r\n"@) =~= seq![CR, LF]);
        assert(ascii("\n"@) =~= seq![LF]);
        assert(encode_utf8(out@) == nl);
    }
    let ghost prefix = encode_utf8(out@);
    match first {
        Some(i) => {
            let ks = entries[i].key_start;
            assert(es[i as int].key_start == ks);
            proof {
                lemma_first_indented(b@, es, 0);
                lemma_line_start(b@, ks as int);
            }
            let s = indent_start_exec(b, ks).unwrap();
            append_blanks(&mut out, b, s, ks);
        },
        None => {
            match close_indent {
                Some(s) => append_blanks(&mut out, b, s, close),
                None => match key_indent {
                    Some(s) => append_blanks(&mut out, b, s, key_start),
                    None => {},
                },
            }
            proof {
                reveal_strlit("\t");
            }
            append_ascii(&mut out, "\t");
            assert(ascii("\t"@) =~= seq![TAB]);
        },
    }
    assert(encode_utf8(out@) == prefix + child);
    append_ascii(&mut out, "\"CloudEnabled\"\t\t\"0\"");
    assert(ascii("\"CloudEnabled\"\t\t\"0\""@) =~= cloud_line());
    if crlf {
        append_ascii(&mut out, "\r\n");
    } else {
        append_ascii(&mut out, "\n");
    }
    assert(ascii("\r\n"@) =~= seq![CR, LF]);
    assert(ascii("\n"@) =~= seq![LF]);
    if close_indent.is_none() {
        let ghost before = encode_utf8(out@);
        match key_indent {
            Some(s) => append_blanks(&mut out, b, s, key_start),
            None => {},
        }
        assert(encode_utf8(out@) =~= nl + (child + cloud_line() + nl) + parent);
    } else {
        assert(encode_utf8(out@) =~= child + cloud_line() + nl);
    }
    out
}

/// Sets the game's `CloudEnabled` value to `0` in a Steam configuration text,
/// or adds that entry to the game's object; every other byte of the text stays
/// as it was. The game's object has to be found through exactly one of the
/// local and roaming roots, with unique keys on the way.
pub fn update_cloud(source: &str, app_id: &str) -> (r: Result<String, VdfError>)
    ensures
        match cloud_edit(source.spec_bytes(), app_id.spec_bytes()) {
            Ok(e) => r matches Ok(s) && encode_utf8(s@) == apply_edit(source.spec_bytes(), e),
            Err(x) => r matches Err(err) && err@ == x,
        },
{
    let b = source.as_bytes();
    let app = app_id.as_bytes();
    let ghost bs = b@;
    proof {
        encode_utf8_valid_utf8(source@);
    }
    if !all_digits_exec(app) {
        return Err(VdfError::InvalidAppId);
    }
    let tokens = tokenize(b)?;
    let mut cursor: usize = 0;
    let root = parse_entries(&tokens, &mut cursor, 0)?;
    let app_entry = find_app(&root, app)?;
    proof {
        lemma_lex_safe(bs, if has_bom(bs) { 3 } else { 0 });
        lemma_parse_list_safe(bs, crate::vdf::tokens_view(tokens@), 0, 0);
        lemma_find_app_safe(bs, entries_view(root@), app@);
    }
    match &app_entry.value {
        Value::Text { .. } => Err(VdfError::NotAnObject { key: copy_bytes(&app_entry.key) }),
        Value::Object { entries, close } => {
            proof {
                reveal_strlit("CloudEnabled");
            }
            let key = ascii_key("CloudEnabled");
            let ghost es = entries_view(entries@);
            proof {
                crate::vdf::lemma_entries_view_index(entries@);
                lemma_entries_safe_index(bs, es);
            }
            match find_unique(entries, key.as_slice())? {
                Some(i) => {
                    assert(es[i as int] == entry_view(entries@[i as int]));
                    match &entries[i].value {
                        Value::Text { start, end, quoted } => {
                            proof {
                                lemma_safe_boundary(bs, *start as int);
                                lemma_safe_boundary(bs, *end as int);
                                reveal_strlit("\"0\"");
                                reveal_strlit("0");
                                vstd::string::is_ascii_spec_bytes("\"0\"");
                                vstd::string::is_ascii_spec_bytes("0");
                            }
                            let middle = if *quoted {
                                "\"0\""
                            } else {
                                "0"
                            };
                            assert("\"0\"".spec_bytes() =~= seq![QUOTE, 48u8, QUOTE]);
                            assert("0".spec_bytes() =~= seq![48u8]);
                            Ok(splice(source, *start, *end, middle))
                        },
                        Value::Object { .. } => Err(VdfError::CloudNotText),
                    }
                },
                None => {
                    assert forall|k: int| 0 <= k < entries.len() implies #[trigger] entries@[k].key_start
                        <= b.len() by {
                        assert(es[k] == entry_view(entries@[k]));
                        assert(entry_safe(bs, es[k]));
                    }
                    let text = insertion_text(b, app_entry.key_start, entries, *close);
                    let position = match indent_start_exec(b, *close) {
                        Some(s) => {
                            proof {
                                lemma_line_start(bs, *close as int);
                            }
                            s
                        },
                        None => *close,
                    };
                    proof {
                        lemma_safe_boundary(bs, position as int);
                    }
                    Ok(splice(source, position, position, text.as_str()))
                },
            }
        },
    }
}

} // verus!
