//! A conservative reader for Valve's text key/value format, kept at the byte level so
//! that every token remembers exactly where it stands in the source.

use vstd::prelude::*;
use crate::text::{append_str, ascii, decimal_digits, decimal_string, utf8_text};
use vstd::string::StringSliceAdditionalSpecFns;
use vstd::utf8::{encode_utf8, valid_utf8};

verus! {

pub const TAB: u8 = 9;
pub const LF: u8 = 10;
pub const FF: u8 = 12;
pub const CR: u8 = 13;
pub const SPACE: u8 = 32;
pub const QUOTE: u8 = 34;
pub const STAR: u8 = 42;
pub const SLASH: u8 = 47;
pub const BACKSLASH: u8 = 92;
pub const OPEN_BRACE: u8 = 123;
pub const CLOSE_BRACE: u8 = 125;

// ---------------------------------------------------------------------------
// Errors
// ---------------------------------------------------------------------------

/// Why a configuration text was not accepted (the model of [`VdfError`]).
pub enum SpecVdfError {
    UnterminatedComment,
    UnterminatedString,
    IncompleteEscape,
    TooDeep,
    StrayClose,
    MissingKey { at: int },
    MissingValue,
    KeyWithoutValue { key: Seq<u8> },
    UnclosedObject,
    MissingCloseBrace,
    DuplicateKey { key: Seq<u8> },
    NotAnObject { key: Seq<u8> },
    InvalidAppId,
    AppNotFound,
    AmbiguousApp,
    CloudNotText,
}

/// Why a configuration text was not accepted or could not be edited safely.
#[derive(Debug, Clone)]
pub enum VdfError {
    /// A `/*` comment has no closing `*/`.
    UnterminatedComment,
    /// A quoted string has no closing quote.
    UnterminatedString,
    /// A quoted string ends inside an escape sequence.
    IncompleteEscape,
    /// Objects are nested more than 128 levels deep.
    TooDeep,
    /// A closing brace stands at the top level.
    StrayClose,
    /// An opening brace stands where a key was expected (byte offset of the brace).
    MissingKey { at: usize },
    /// The text ends right after a key.
    MissingValue,
    /// A key is directly followed by a closing brace.
    KeyWithoutValue { key: Vec<u8> },
    /// An object is not closed before the text ends.
    UnclosedObject,
    /// An object is not followed by its closing brace.
    MissingCloseBrace,
    /// A key that has to be looked up occurs twice among its siblings.
    DuplicateKey { key: Vec<u8> },
    /// A key that has to be descended into holds a string, not an object.
    NotAnObject { key: Vec<u8> },
    /// The game's application id is empty or not made of ASCII digits.
    InvalidAppId,
    /// No root holds the game's object.
    AppNotFound,
    /// Both roots hold the game's object.
    AmbiguousApp,
    /// The game's `CloudEnabled` entry holds an object, not a string.
    CloudNotText,
}

impl View for VdfError {
    type V = SpecVdfError;

    open spec fn view(&self) -> SpecVdfError {
        match self {
            VdfError::UnterminatedComment => SpecVdfError::UnterminatedComment,
            VdfError::UnterminatedString => SpecVdfError::UnterminatedString,
            VdfError::IncompleteEscape => SpecVdfError::IncompleteEscape,
            VdfError::TooDeep => SpecVdfError::TooDeep,
            VdfError::StrayClose => SpecVdfError::StrayClose,
            VdfError::MissingKey { at } => SpecVdfError::MissingKey { at: *at as int },
            VdfError::MissingValue => SpecVdfError::MissingValue,
            VdfError::KeyWithoutValue { key } => SpecVdfError::KeyWithoutValue { key: key@ },
            VdfError::UnclosedObject => SpecVdfError::UnclosedObject,
            VdfError::MissingCloseBrace => SpecVdfError::MissingCloseBrace,
            VdfError::DuplicateKey { key } => SpecVdfError::DuplicateKey { key: key@ },
            VdfError::NotAnObject { key } => SpecVdfError::NotAnObject { key: key@ },
            VdfError::InvalidAppId => SpecVdfError::InvalidAppId,
            VdfError::AppNotFound => SpecVdfError::AppNotFound,
            VdfError::AmbiguousApp => SpecVdfError::AmbiguousApp,
            VdfError::CloudNotText => SpecVdfError::CloudNotText,
        }
    }
}

/// A key as it is shown: its bytes when they are valid UTF-8 (the keys read
/// from a text always are), else nothing.
pub open spec fn shown_key(key: Seq<u8>) -> Seq<u8> {
    if valid_utf8(key) {
        key
    } else {
        Seq::empty()
    }
}

/// The message for a refused configuration, as UTF-8 bytes; `app` is the
/// game's application id.
pub open spec fn vdf_message_bytes(e: SpecVdfError, app: Seq<u8>) -> Seq<u8> {
    match e {
        SpecVdfError::UnterminatedComment => encode_utf8("VDF 注释没有结束"@),
        SpecVdfError::UnterminatedString => encode_utf8("VDF 字符串没有结束"@),
        SpecVdfError::IncompleteEscape => encode_utf8("VDF 转义不完整"@),
        SpecVdfError::TooDeep => encode_utf8("VDF 嵌套层数过多"@),
        SpecVdfError::StrayClose => encode_utf8("VDF 存在多余的右花括号"@),
        SpecVdfError::MissingKey { at } => encode_utf8("VDF 在字节 "@) + decimal_digits(at as nat)
            + encode_utf8(" 处缺少键名"@),
        SpecVdfError::MissingValue => encode_utf8("VDF 键缺少值"@),
        SpecVdfError::KeyWithoutValue { key } => encode_utf8("VDF 键 "@) + shown_key(key)
            + encode_utf8(" 缺少值"@),
        SpecVdfError::UnclosedObject => encode_utf8("VDF 对象没有结束"@),
        SpecVdfError::MissingCloseBrace => encode_utf8("VDF 对象没有右花括号"@),
        SpecVdfError::DuplicateKey { key } => encode_utf8("VDF 含有重复的 "@) + shown_key(key)
            + encode_utf8(" 项，无法确定应修改哪一项"@),
        SpecVdfError::NotAnObject { key } => encode_utf8("VDF 中的 "@) + shown_key(key)
            + encode_utf8(" 应为对象"@),
        SpecVdfError::InvalidAppId => encode_utf8("游戏 AppID 必须全部为数字"@),
        SpecVdfError::AppNotFound => encode_utf8("未找到所选账号的游戏 "@) + app + encode_utf8(
            " 配置对象"@,
        ),
        SpecVdfError::AmbiguousApp => encode_utf8("多个配置根对象含有同一游戏，无法确定目标"@),
        SpecVdfError::CloudNotText => encode_utf8("CloudEnabled 的值不是字符串"@),
    }
}

/// Appends a key as it is shown.
fn append_key(out: &mut String, key: &Vec<u8>)
    ensures
        encode_utf8(final(out)@) == encode_utf8(old(out)@) + shown_key(key@),
{
    match utf8_text(key.as_slice()) {
        Some(t) => {
            proof {
                vstd::utf8::encode_utf8_valid_utf8(t@);
            }
            append_str(out, t);
        },
        None => {
            assert(encode_utf8(out@) + Seq::<u8>::empty() =~= encode_utf8(out@));
        },
    }
}

fn text_of(parts: &str) -> (m: String)
    ensures
        encode_utf8(m@) == parts.spec_bytes(),
{
    let mut m = String::new();
    assert(encode_utf8(m@) =~= Seq::<u8>::empty());
    append_str(&mut m, parts);
    assert(Seq::<u8>::empty() + parts.spec_bytes() =~= parts.spec_bytes());
    m
}

impl VdfError {
    /// The message shown for the refusal; `app_id` is the game's id.
    pub fn message(&self, app_id: &str) -> (m: String)
        ensures
            encode_utf8(m@) == vdf_message_bytes(self@, app_id.spec_bytes()),
    {
        match self {
            VdfError::UnterminatedComment => text_of("VDF 注释没有结束"),
            VdfError::UnterminatedString => text_of("VDF 字符串没有结束"),
            VdfError::IncompleteEscape => text_of("VDF 转义不完整"),
            VdfError::TooDeep => text_of("VDF 嵌套层数过多"),
            VdfError::StrayClose => text_of("VDF 存在多余的右花括号"),
            VdfError::MissingKey { at } => {
                let mut m = text_of("VDF 在字节 ");
                append_str(&mut m, decimal_string(*at as u64).as_str());
                append_str(&mut m, " 处缺少键名");
                m
            },
            VdfError::MissingValue => text_of("VDF 键缺少值"),
            VdfError::KeyWithoutValue { key } => {
                let mut m = text_of("VDF 键 ");
                append_key(&mut m, key);
                append_str(&mut m, " 缺少值");
                m
            },
            VdfError::UnclosedObject => text_of("VDF 对象没有结束"),
            VdfError::MissingCloseBrace => text_of("VDF 对象没有右花括号"),
            VdfError::DuplicateKey { key } => {
                let mut m = text_of("VDF 含有重复的 ");
                append_key(&mut m, key);
                append_str(&mut m, " 项，无法确定应修改哪一项");
                m
            },
            VdfError::NotAnObject { key } => {
                let mut m = text_of("VDF 中的 ");
                append_key(&mut m, key);
                append_str(&mut m, " 应为对象");
                m
            },
            VdfError::InvalidAppId => text_of("游戏 AppID 必须全部为数字"),
            VdfError::AppNotFound => {
                let mut m = text_of("未找到所选账号的游戏 ");
                append_str(&mut m, app_id);
                append_str(&mut m, " 配置对象");
                m
            },
            VdfError::AmbiguousApp => text_of("多个配置根对象含有同一游戏，无法确定目标"),
            VdfError::CloudNotText => text_of("CloudEnabled 的值不是字符串"),
        }
    }
}

// ---------------------------------------------------------------------------
// Tokens
// ---------------------------------------------------------------------------

pub enum SpecTokenKind {
    Word { text: Seq<u8>, quoted: bool },
    Open,
    Close,
}

/// A token and the byte range `[start, end)` that it occupies in the source.
pub struct SpecToken {
    pub kind: SpecTokenKind,
    pub start: int,
    pub end: int,
}

#[derive(Debug, Clone)]
pub enum TokenKind {
    /// A quoted or bare word; `text` holds its bytes with escapes resolved.
    Word { text: Vec<u8>, quoted: bool },
    Open,
    Close,
}

#[derive(Debug, Clone)]
pub struct Token {
    pub kind: TokenKind,
    pub start: usize,
    pub end: usize,
}

impl View for Token {
    type V = SpecToken;

    open spec fn view(&self) -> SpecToken {
        SpecToken {
            kind: match self.kind {
                TokenKind::Word { text, quoted } => SpecTokenKind::Word { text: text@, quoted },
                TokenKind::Open => SpecTokenKind::Open,
                TokenKind::Close => SpecTokenKind::Close,
            },
            start: self.start as int,
            end: self.end as int,
        }
    }
}

pub open spec fn tokens_view(tokens: Seq<Token>) -> Seq<SpecToken> {
    tokens.map_values(|t: Token| t@)
}

// ---------------------------------------------------------------------------
// Lexical model
// ---------------------------------------------------------------------------

/// `u8::is_ascii_whitespace`: space, tab, line feed, form feed, carriage return.
pub open spec fn is_space(c: u8) -> bool {
    c == SPACE || c == TAB || c == LF || c == FF || c == CR
}

/// The two bytes `x`, `y` stand at `i` and `i + 1`.
pub open spec fn pair_at(b: Seq<u8>, i: int, x: u8, y: u8) -> bool {
    0 <= i && i + 1 < b.len() && b[i] == x && b[i + 1] == y
}

/// The text starts with the UTF-8 byte order mark.
pub open spec fn has_bom(b: Seq<u8>) -> bool {
    b.len() >= 3 && b[0] == 0xEF && b[1] == 0xBB && b[2] == 0xBF
}

/// Where a `//` comment that runs through `i` ends: the next line feed, or the end.
pub open spec fn line_end(b: Seq<u8>, i: int) -> int
    decreases b.len() - i,
{
    if i >= b.len() || b[i] == LF {
        i
    } else {
        line_end(b, i + 1)
    }
}

/// The first `*/` at or after `j`, if there is one.
pub open spec fn comment_end(b: Seq<u8>, j: int) -> Option<int>
    decreases b.len() - j,
{
    if j + 1 >= b.len() {
        None
    } else if pair_at(b, j, STAR, SLASH) {
        Some(j)
    } else {
        comment_end(b, j + 1)
    }
}

/// The closing quote of a string whose content starts at `j`; a backslash
/// always takes the next byte with it.
pub open spec fn quote_end(b: Seq<u8>, j: int) -> Option<int>
    decreases b.len() + 1 - j,
{
    if j >= b.len() || j < 0 {
        None
    } else if b[j] == QUOTE {
        Some(j)
    } else if b[j] == BACKSLASH {
        quote_end(b, j + 2)
    } else {
        quote_end(b, j + 1)
    }
}

/// A bare word goes on through `j`.
pub open spec fn word_continues(b: Seq<u8>, j: int) -> bool {
    &&& 0 <= j < b.len()
    &&& !is_space(b[j])
    &&& b[j] != OPEN_BRACE
    &&& b[j] != CLOSE_BRACE
    &&& b[j] != QUOTE
    &&& !pair_at(b, j, SLASH, SLASH)
    &&& !pair_at(b, j, SLASH, STAR)
}

/// Where a bare word that runs through `j` ends.
pub open spec fn word_end(b: Seq<u8>, j: int) -> int
    decreases b.len() - j,
{
    if word_continues(b, j) {
        word_end(b, j + 1)
    } else {
        j
    }
}

/// What an escaped byte stands for.
pub open spec fn escaped(c: u8) -> Seq<u8> {
    if c == 110 {
        seq![LF]
    } else if c == 114 {
        seq![CR]
    } else if c == 116 {
        seq![TAB]
    } else if c == QUOTE || c == BACKSLASH {
        seq![c]
    } else {
        seq![BACKSLASH, c]
    }
}

/// The content of a quoted string with its escapes resolved.
pub open spec fn unescape(s: Seq<u8>) -> Option<Seq<u8>>
    decreases s.len(),
{
    if s.len() == 0 {
        Some(seq![])
    } else if s[0] == BACKSLASH {
        if s.len() < 2 {
            None
        } else {
            match unescape(s.subrange(2, s.len() as int)) {
                Some(rest) => Some(escaped(s[1]) + rest),
                None => None,
            }
        }
    } else {
        match unescape(s.subrange(1, s.len() as int)) {
            Some(rest) => Some(seq![s[0]] + rest),
            None => None,
        }
    }
}

pub open spec fn prepend_token(
    t: SpecToken,
    r: Result<Seq<SpecToken>, SpecVdfError>,
) -> Result<Seq<SpecToken>, SpecVdfError> {
    match r {
        Ok(ts) => Ok(seq![t] + ts),
        Err(e) => Err(e),
    }
}

pub open spec fn prepend_tokens(
    acc: Seq<SpecToken>,
    r: Result<Seq<SpecToken>, SpecVdfError>,
) -> Result<Seq<SpecToken>, SpecVdfError> {
    match r {
        Ok(ts) => Ok(acc + ts),
        Err(e) => Err(e),
    }
}

pub proof fn lemma_line_end_bounds(b: Seq<u8>, i: int)
    requires
        i <= b.len(),
    ensures
        i <= line_end(b, i) <= b.len(),
        line_end(b, i) == b.len() || b[line_end(b, i)] == LF,
    decreases b.len() - i,
{
    if !(i >= b.len() || b[i] == LF) {
        lemma_line_end_bounds(b, i + 1);
    }
}

pub proof fn lemma_comment_end_bounds(b: Seq<u8>, j: int)
    ensures
        comment_end(b, j) matches Some(k) ==> j <= k && k + 1 < b.len() && pair_at(b, k, STAR, SLASH),
    decreases b.len() - j,
{
    if !(j + 1 >= b.len()) && !pair_at(b, j, STAR, SLASH) {
        lemma_comment_end_bounds(b, j + 1);
    }
}

pub proof fn lemma_quote_end_bounds(b: Seq<u8>, j: int)
    ensures
        quote_end(b, j) matches Some(k) ==> j <= k < b.len() && b[k] == QUOTE,
    decreases b.len() + 1 - j,
{
    if !(j >= b.len() || j < 0) && b[j] != QUOTE {
        if b[j] == BACKSLASH {
            lemma_quote_end_bounds(b, j + 2);
        } else {
            lemma_quote_end_bounds(b, j + 1);
        }
    }
}

pub proof fn lemma_word_end_bounds(b: Seq<u8>, j: int)
    requires
        0 <= j <= b.len(),
    ensures
        j <= word_end(b, j) <= b.len(),
        word_continues(b, j) ==> j < word_end(b, j),
        !word_continues(b, word_end(b, j)),
    decreases b.len() - j,
{
    if word_continues(b, j) {
        lemma_word_end_bounds(b, j + 1);
    }
}

/// The tokens of `b` from position `i` on, or the first lexical error there.
pub open spec fn lex(b: Seq<u8>, i: int) -> Result<Seq<SpecToken>, SpecVdfError>
    decreases b.len() - i,
{
    if i < 0 || i >= b.len() {
        Ok(seq![])
    } else if is_space(b[i]) {
        lex(b, i + 1)
    } else if pair_at(b, i, SLASH, SLASH) {
        proof {
            lemma_line_end_bounds(b, i + 2);
        }
        lex(b, line_end(b, i + 2))
    } else if pair_at(b, i, SLASH, STAR) {
        proof {
            lemma_comment_end_bounds(b, i + 2);
        }
        match comment_end(b, i + 2) {
            None => Err(SpecVdfError::UnterminatedComment),
            Some(k) => lex(b, k + 2),
        }
    } else if b[i] == OPEN_BRACE {
        prepend_token(SpecToken { kind: SpecTokenKind::Open, start: i, end: i + 1 }, lex(b, i + 1))
    } else if b[i] == CLOSE_BRACE {
        prepend_token(SpecToken { kind: SpecTokenKind::Close, start: i, end: i + 1 }, lex(b, i + 1))
    } else if b[i] == QUOTE {
        proof {
            lemma_quote_end_bounds(b, i + 1);
        }
        match quote_end(b, i + 1) {
            None => Err(SpecVdfError::UnterminatedString),
            Some(k) => match unescape(b.subrange(i + 1, k)) {
                None => Err(SpecVdfError::IncompleteEscape),
                Some(text) => prepend_token(
                    SpecToken {
                        kind: SpecTokenKind::Word { text, quoted: true },
                        start: i,
                        end: k + 1,
                    },
                    lex(b, k + 1),
                ),
            },
        }
    } else {
        proof {
            lemma_word_end_bounds(b, i);
        }
        let k = word_end(b, i);
        prepend_token(
            SpecToken {
                kind: SpecTokenKind::Word { text: b.subrange(i, k), quoted: false },
                start: i,
                end: k,
            },
            lex(b, k),
        )
    }
}

/// The tokens of a whole text: a leading byte order mark is not part of any token.
pub open spec fn tokens_of(b: Seq<u8>) -> Result<Seq<SpecToken>, SpecVdfError> {
    lex(b, if has_bom(b) { 3 } else { 0 })
}

// ---------------------------------------------------------------------------
// Lexer
// ---------------------------------------------------------------------------

fn scan_line_end(b: &[u8], i: usize) -> (k: usize)
    requires
        i <= b.len(),
    ensures
        k == line_end(b@, i as int),
{
    let mut k = i;
    while k < b.len() && b[k] != LF
        invariant
            i <= k <= b.len(),
            line_end(b@, i as int) == line_end(b@, k as int),
        decreases b.len() - k,
    {
        k = k + 1;
    }
    k
}

fn scan_comment_end(b: &[u8], j: usize) -> (r: Option<usize>)
    requires
        j <= b.len(),
    ensures
        r matches Some(k) ==> comment_end(b@, j as int) == Some(k as int),
        r is None ==> comment_end(b@, j as int) is None,
{
    let mut k = j;
    while b.len() > 0 && k < b.len() - 1
        invariant
            j <= k <= b.len(),
            comment_end(b@, j as int) == comment_end(b@, k as int),
        decreases b.len() - k,
    {
        if b[k] == STAR && b[k + 1] == SLASH {
            return Some(k);
        }
        k = k + 1;
    }
    None
}

fn scan_quote_end(b: &[u8], j: usize) -> (r: Option<usize>)
    requires
        j <= b.len(),
    ensures
        r matches Some(k) ==> quote_end(b@, j as int) == Some(k as int),
        r is None ==> quote_end(b@, j as int) is None,
{
    let mut k = j;
    while k < b.len()
        invariant
            j <= k <= b.len(),
            quote_end(b@, j as int) == quote_end(b@, k as int),
        decreases b.len() - k,
    {
        if b[k] == QUOTE {
            return Some(k);
        }
        if b[k] == BACKSLASH {
            if k == b.len() - 1 {
                assert(quote_end(b@, k + 2) is None);
                return None;
            }
            k = k + 2;
        } else {
            k = k + 1;
        }
    }
    None
}

fn is_space_byte(c: u8) -> (r: bool)
    ensures
        r == is_space(c),
{
    c == SPACE || c == TAB || c == LF || c == FF || c == CR
}

fn is_pair_at(b: &[u8], i: usize, x: u8, y: u8) -> (r: bool)
    ensures
        r == pair_at(b@, i as int, x, y),
{
    i < b.len() && b.len() - i >= 2 && b[i] == x && b[i + 1] == y
}

fn scan_word_end(b: &[u8], j: usize) -> (k: usize)
    requires
        j <= b.len(),
    ensures
        k == word_end(b@, j as int),
{
    let mut k = j;
    while k < b.len() && !is_space_byte(b[k]) && b[k] != OPEN_BRACE && b[k] != CLOSE_BRACE
        && b[k] != QUOTE && !is_pair_at(b, k, SLASH, SLASH) && !is_pair_at(b, k, SLASH, STAR)
        invariant
            j <= k <= b.len(),
            word_end(b@, j as int) == word_end(b@, k as int),
        decreases b.len() - k,
    {
        k = k + 1;
    }
    k
}

/// Resolves the escapes of the string content `b[from..to]`.
fn unescape_range(b: &[u8], from: usize, to: usize) -> (r: Option<Vec<u8>>)
    requires
        from <= to <= b.len(),
    ensures
        r matches Some(t) ==> unescape(b@.subrange(from as int, to as int)) == Some(t@),
        r is None ==> unescape(b@.subrange(from as int, to as int)) is None,
{
    let mut out: Vec<u8> = Vec::new();
    let mut k = from;
    while k < to
        invariant
            from <= k <= to <= b.len(),
            unescape(b@.subrange(from as int, to as int)) == match unescape(
                b@.subrange(k as int, to as int),
            ) {
                Some(rest) => Some(out@ + rest),
                None => None::<Seq<u8>>,
            },
        decreases to - k,
    {
        let ghost s = b@.subrange(k as int, to as int);
        if b[k] == BACKSLASH {
            if to - k < 2 {
                return None;
            }
            let c = b[k + 1];
            assert(s.subrange(2, s.len() as int) =~= b@.subrange(k + 2, to as int));
            let ghost old_out = out@;
            if c == 110 {
                out.push(LF);
            } else if c == 114 {
                out.push(CR);
            } else if c == 116 {
                out.push(TAB);
            } else if c == QUOTE || c == BACKSLASH {
                out.push(c);
            } else {
                out.push(BACKSLASH);
                out.push(c);
            }
            assert(out@ =~= old_out + escaped(c));
            assert forall|rest: Seq<u8>| #[trigger] (old_out + (escaped(c) + rest)) == out@ + rest by {
                assert(old_out + (escaped(c) + rest) =~= out@ + rest);
            }
            k = k + 2;
        } else {
            assert(s.subrange(1, s.len() as int) =~= b@.subrange(k + 1, to as int));
            let ghost old_out = out@;
            out.push(b[k]);
            assert forall|rest: Seq<u8>| #[trigger] (old_out + (seq![b@[k as int]] + rest)) == out@ + rest by {
                assert(old_out + (seq![b@[k as int]] + rest) =~= out@ + rest);
            }
            k = k + 1;
        }
    }
    assert(b@.subrange(to as int, to as int) =~= Seq::<u8>::empty());
    assert(out@ + Seq::<u8>::empty() =~= out@);
    Some(out)
}

/// Splits a text into tokens, skipping whitespace, `//` and `/* */` comments
/// and a leading byte order mark.
pub fn tokenize(b: &[u8]) -> (r: Result<Vec<Token>, VdfError>)
    ensures
        match tokens_of(b@) {
            Ok(ts) => r matches Ok(tokens) && tokens_view(tokens@) == ts,
            Err(e) => r matches Err(err) && err@ == e,
        },
{
    let mut i: usize = if b.len() >= 3 && b[0] == 0xEF && b[1] == 0xBB && b[2] == 0xBF {
        3
    } else {
        0
    };
    let mut tokens: Vec<Token> = Vec::new();
    while i < b.len()
        invariant
            i <= b.len(),
            tokens_of(b@) == prepend_tokens(tokens_view(tokens@), lex(b@, i as int)),
        decreases b.len() - i,
    {
        let ghost old_tokens = tokens_view(tokens@);
        if is_space_byte(b[i]) {
            i = i + 1;
            continue;
        }
        if is_pair_at(b, i, SLASH, SLASH) {
            proof {
                lemma_line_end_bounds(b@, i + 2);
            }
            i = scan_line_end(b, i + 2);
            continue;
        }
        if is_pair_at(b, i, SLASH, STAR) {
            match scan_comment_end(b, i + 2) {
                None => {
                    return Err(VdfError::UnterminatedComment);
                },
                Some(k) => {
                    proof {
                        lemma_comment_end_bounds(b@, i + 2);
                    }
                    i = k + 2;
                    continue;
                },
            }
        }
        let start = i;
        let kind;
        if b[i] == OPEN_BRACE {
            i = i + 1;
            kind = TokenKind::Open;
        } else if b[i] == CLOSE_BRACE {
            i = i + 1;
            kind = TokenKind::Close;
        } else if b[i] == QUOTE {
            proof {
                lemma_quote_end_bounds(b@, i + 1);
            }
            match scan_quote_end(b, i + 1) {
                None => {
                    return Err(VdfError::UnterminatedString);
                },
                Some(k) => {
                    match unescape_range(b, i + 1, k) {
                        None => {
                            return Err(VdfError::IncompleteEscape);
                        },
                        Some(text) => {
                            i = k + 1;
                            kind = TokenKind::Word { text, quoted: true };
                        },
                    }
                },
            }
        } else {
            proof {
                lemma_word_end_bounds(b@, i as int);
            }
            let k = scan_word_end(b, i);
            let text = copy_range(b, i, k);
            i = k;
            kind = TokenKind::Word { text, quoted: false };
        }
        let token = Token { kind, start, end: i };
        tokens.push(token);
        proof {
            assert(tokens_view(tokens@) =~= old_tokens + seq![token@]);
            assert(forall|ts: Seq<SpecToken>|
                #![trigger old_tokens + (seq![token@] + ts)]
                old_tokens + (seq![token@] + ts) =~= tokens_view(tokens@) + ts);
        }
    }
    assert(tokens_view(tokens@) + Seq::<SpecToken>::empty() =~= tokens_view(tokens@));
    Ok(tokens)
}

/// A copy of `b[from..to]`.
pub(crate) fn copy_range(b: &[u8], from: usize, to: usize) -> (r: Vec<u8>)
    requires
        from <= to <= b.len(),
    ensures
        r@ == b@.subrange(from as int, to as int),
{
    let mut out: Vec<u8> = Vec::new();
    let mut k = from;
    while k < to
        invariant
            from <= k <= to <= b.len(),
            out@ == b@.subrange(from as int, k as int),
        decreases to - k,
    {
        out.push(b[k]);
        k = k + 1;
        assert(out@ =~= b@.subrange(from as int, k as int));
    }
    out
}

// ---------------------------------------------------------------------------
// Entries
// ---------------------------------------------------------------------------

pub enum SpecValue {
    Text { start: int, end: int, quoted: bool },
    Object { entries: Seq<SpecEntry>, close: int },
}

/// A key, where its token starts, and its value.
pub struct SpecEntry {
    pub key: Seq<u8>,
    pub key_start: int,
    pub value: SpecValue,
}

#[derive(Debug)]
pub enum Value {
    /// A string value and the byte range of its token (quotes included).
    Text { start: usize, end: usize, quoted: bool },
    /// An object value and the byte offset of its closing brace.
    Object { entries: Vec<Entry>, close: usize },
}

#[derive(Debug)]
pub struct Entry {
    pub key: Vec<u8>,
    pub key_start: usize,
    pub value: Value,
}

pub open spec fn entries_view(s: Seq<Entry>) -> Seq<SpecEntry>
    decreases s,
{
    if s.len() == 0 {
        seq![]
    } else {
        entries_view(s.subrange(0, s.len() - 1)) + seq![entry_view(s[s.len() - 1])]
    }
}

pub open spec fn entry_view(e: Entry) -> SpecEntry
    decreases e,
{
    SpecEntry { key: e.key@, key_start: e.key_start as int, value: value_view(e.value) }
}

pub open spec fn value_view(v: Value) -> SpecValue
    decreases v,
{
    match v {
        Value::Text { start, end, quoted } => SpecValue::Text {
            start: start as int,
            end: end as int,
            quoted,
        },
        Value::Object { entries, close } => SpecValue::Object {
            entries: entries_view(entries@),
            close: close as int,
        },
    }
}

pub proof fn lemma_entries_view_push(s: Seq<Entry>, e: Entry)
    ensures
        entries_view(s.push(e)) == entries_view(s) + seq![entry_view(e)],
{
    assert(s.push(e).subrange(0, s.len() as int) =~= s);
}

pub proof fn lemma_entries_view_index(s: Seq<Entry>)
    ensures
        entries_view(s).len() == s.len(),
        forall|i: int| 0 <= i < s.len() ==> #[trigger] entries_view(s)[i] == entry_view(s[i]),
    decreases s.len(),
{
    if s.len() > 0 {
        let front = s.subrange(0, s.len() - 1);
        lemma_entries_view_index(front);
        assert forall|i: int| 0 <= i < s.len() implies #[trigger] entries_view(s)[i] == entry_view(
            s[i],
        ) by {
            if i < s.len() - 1 {
                assert(entries_view(front)[i] == entry_view(front[i]));
            }
        }
    }
}

pub open spec fn prepend_entry(
    e: SpecEntry,
    r: Result<(Seq<SpecEntry>, int), SpecVdfError>,
) -> Result<(Seq<SpecEntry>, int), SpecVdfError> {
    match r {
        Ok((es, c)) => Ok((seq![e] + es, c)),
        Err(x) => Err(x),
    }
}

pub open spec fn prepend_entries(
    acc: Seq<SpecEntry>,
    r: Result<(Seq<SpecEntry>, int), SpecVdfError>,
) -> Result<(Seq<SpecEntry>, int), SpecVdfError> {
    match r {
        Ok((es, c)) => Ok((acc + es, c)),
        Err(x) => Err(x),
    }
}

/// The entries of one object level, starting at token `c` and nested `depth`
/// levels deep, with the index of the token that ends the level.
pub open spec fn parse_list(t: Seq<SpecToken>, c: int, depth: int) -> Result<
    (Seq<SpecEntry>, int),
    SpecVdfError,
>
    decreases t.len() - c, 1int,
{
    if depth > 128 {
        Err(SpecVdfError::TooDeep)
    } else {
        parse_items(t, c, depth)
    }
}

/// The remaining entries of a level from token `c` on.
pub open spec fn parse_items(t: Seq<SpecToken>, c: int, depth: int) -> Result<
    (Seq<SpecEntry>, int),
    SpecVdfError,
>
    decreases t.len() - c, 0int,
{
    if c < 0 || c >= t.len() {
        if depth > 0 {
            Err(SpecVdfError::UnclosedObject)
        } else {
            Ok((seq![], c))
        }
    } else {
        match t[c].kind {
            SpecTokenKind::Close => if depth == 0 {
                Err(SpecVdfError::StrayClose)
            } else {
                Ok((seq![], c))
            },
            SpecTokenKind::Open => Err(SpecVdfError::MissingKey { at: t[c].start }),
            SpecTokenKind::Word { text: key, .. } => {
                if c + 1 >= t.len() {
                    Err(SpecVdfError::MissingValue)
                } else {
                    match t[c + 1].kind {
                        SpecTokenKind::Word { quoted, .. } => prepend_entry(
                            SpecEntry {
                                key,
                                key_start: t[c].start,
                                value: SpecValue::Text {
                                    start: t[c + 1].start,
                                    end: t[c + 1].end,
                                    quoted,
                                },
                            },
                            parse_items(t, c + 2, depth),
                        ),
                        SpecTokenKind::Close => Err(SpecVdfError::KeyWithoutValue { key }),
                        SpecTokenKind::Open => match parse_list(t, c + 2, depth + 1) {
                            Err(x) => Err(x),
                            Ok((children, cc)) => if cc < 0 || cc >= t.len() {
                                Err(SpecVdfError::UnclosedObject)
                            } else if !(t[cc].kind is Close) {
                                Err(SpecVdfError::MissingCloseBrace)
                            } else if cc + 1 <= c {
                                Err(SpecVdfError::MissingCloseBrace)
                            } else {
                                prepend_entry(
                                    SpecEntry {
                                        key,
                                        key_start: t[c].start,
                                        value: SpecValue::Object {
                                            entries: children,
                                            close: t[cc].start,
                                        },
                                    },
                                    parse_items(t, cc + 1, depth),
                                )
                            },
                        },
                    }
                }
            },
        }
    }
}

/// The entries at the top level of a token sequence.
pub open spec fn parse_root(t: Seq<SpecToken>) -> Result<Seq<SpecEntry>, SpecVdfError> {
    match parse_list(t, 0, 0) {
        Ok((es, _)) => Ok(es),
        Err(x) => Err(x),
    }
}

/// A top-level list that parses reads up to the end of the tokens.
proof fn lemma_top_level_reads_to_end(t: Seq<SpecToken>, c: int)
    requires
        0 <= c <= t.len(),
    ensures
        parse_items(t, c, 0) matches Ok((_, d)) ==> d == t.len(),
    decreases t.len() - c,
{
    if c < t.len() {
        match t[c].kind {
            SpecTokenKind::Word { .. } => {
                if c + 1 < t.len() {
                    match t[c + 1].kind {
                        SpecTokenKind::Word { .. } => {
                            lemma_top_level_reads_to_end(t, c + 2);
                        },
                        SpecTokenKind::Open => {
                            match parse_list(t, c + 2, 1) {
                                Ok((_, cc)) => {
                                    if 0 <= cc < t.len() && cc + 1 > c {
                                        lemma_top_level_reads_to_end(t, cc + 1);
                                    }
                                },
                                Err(_) => {},
                            }
                        },
                        _ => {},
                    }
                }
            },
            _ => {},
        }
    }
}

/// A successful parse of the top level consumes every token.
pub proof fn law_top_level_reads_every_token(t: Seq<SpecToken>, c: int)
    requires
        0 <= c <= t.len(),
    ensures
        parse_list(t, c, 0) matches Ok((_, d)) ==> d == t.len(),
{
    lemma_top_level_reads_to_end(t, c);
}

/// `n` keys, each opening an object inside the one before, then the `n`
/// closing braces: the tokens of `k { k { ... } }`.
pub open spec fn nested(t: Seq<SpecToken>, n: int) -> bool {
    &&& n >= 0
    &&& t.len() == 3 * n
    &&& forall|i: int| 0 <= i < n ==> (#[trigger] t[2 * i]).kind is Word
    &&& forall|i: int| 0 <= i < n ==> (#[trigger] t[2 * i + 1]).kind is Open
    &&& forall|i: int| 2 * n <= i < 3 * n ==> (#[trigger] t[i]).kind is Close
}

proof fn lemma_nested_level(t: Seq<SpecToken>, n: int, j: int)
    requires
        nested(t, n),
        0 <= j <= n,
    ensures
        parse_list(t, 2 * j, j) is Ok <==> n <= 128,
        parse_list(t, 2 * j, j) matches Ok((_, cc)) ==> cc == 3 * n - j,
    decreases n - j,
{
    if j > 128 {
        assert(parse_list(t, 2 * j, j) is Err);
    } else if j == n {
        if n > 0 {
            assert(t[2 * n].kind is Close);
        }
        assert(parse_items(t, 2 * j, j) == Ok::<(Seq<SpecEntry>, int), SpecVdfError>(
            (seq![], 2 * n),
        ));
    } else {
        assert(t[2 * j].kind is Word);
        assert(t[2 * j + 1].kind is Open);
        lemma_nested_level(t, n, j + 1);
        assert(2 * j + 2 == 2 * (j + 1));
        if n <= 128 {
            let cc = 3 * n - (j + 1);
            assert(t[cc].kind is Close);
            if j >= 1 {
                assert(t[cc + 1].kind is Close);
            }
            assert(parse_items(t, cc + 1, j) == Ok::<(Seq<SpecEntry>, int), SpecVdfError>(
                (seq![], cc + 1),
            ));
            assert(parse_items(t, 2 * j, j) is Ok);
        } else {
            assert(parse_items(t, 2 * j, j) is Err);
        }
    }
}

/// Objects nested inside each other parse exactly when there are at most
/// 128 of them; deeper nesting is refused.
pub proof fn law_nesting_limit(t: Seq<SpecToken>, n: int)
    requires
        nested(t, n),
    ensures
        parse_root(t) is Ok <==> n <= 128,
{
    lemma_nested_level(t, n, 0);
}

// ---------------------------------------------------------------------------
// Parser
// ---------------------------------------------------------------------------

/// Parses one object level starting at `*cursor`; on success the cursor stands
/// on the closing brace of the level (or at the end for the top level).
pub fn parse_entries(tokens: &Vec<Token>, cursor: &mut usize, depth: usize) -> (r: Result<
    Vec<Entry>,
    VdfError,
>)
    ensures
        match parse_list(tokens_view(tokens@), *old(cursor) as int, depth as int) {
            Ok((es, c)) => r matches Ok(entries) && entries_view(entries@) == es && *final(cursor)
                == c && *old(cursor) <= *final(cursor) && (*old(cursor) <= tokens.len()
                ==> *final(cursor) <= tokens.len()),
            Err(e) => r matches Err(err) && err@ == e,
        },
    decreases tokens.len() - *old(cursor), 1int,
{
    let ghost tv = tokens_view(tokens@);
    let ghost c0 = *cursor as int;
    if depth > 128 {
        return Err(VdfError::TooDeep);
    }
    let mut entries: Vec<Entry> = Vec::new();
    assert(entries_view(entries@) =~= Seq::<SpecEntry>::empty());
    if *cursor > tokens.len() {
        // Past the end there is nothing more to read.
        if depth > 0 {
            return Err(VdfError::UnclosedObject);
        }
        return Ok(entries);
    }
    while *cursor < tokens.len()
        invariant
            tv == tokens_view(tokens@),
            c0 <= *cursor <= tokens.len(),
            c0 == *old(cursor),
            depth <= 128,
            parse_list(tv, c0, depth as int) == parse_items(tv, c0, depth as int),
            parse_items(tv, c0, depth as int) == prepend_entries(
                entries_view(entries@),
                parse_items(tv, *cursor as int, depth as int),
            ),
        decreases tokens.len() - *cursor,
    {
        let c = *cursor;
        let ghost old_acc = entries_view(entries@);
        let token = &tokens[c];
        assert(tv[c as int] == token@);
        assert(parse_items(tv, c as int, depth as int) == match tv[c as int].kind {
            SpecTokenKind::Close => if depth == 0 {
                Err(SpecVdfError::StrayClose)
            } else {
                Ok((Seq::<SpecEntry>::empty(), c as int))
            },
            SpecTokenKind::Open => Err(SpecVdfError::MissingKey { at: tv[c as int].start }),
            _ => parse_items(tv, c as int, depth as int),
        });
        match &token.kind {
            TokenKind::Close => {
                if depth == 0 {
                    return Err(VdfError::StrayClose);
                }
                assert(old_acc + Seq::<SpecEntry>::empty() =~= old_acc);
                return Ok(entries);
            },
            TokenKind::Open => {
                return Err(VdfError::MissingKey { at: token.start });
            },
            TokenKind::Word { text, .. } => {
                let key = copy_bytes(text);
                let key_start = token.start;
                if c + 1 >= tokens.len() {
                    return Err(VdfError::MissingValue);
                }
                let value_token = &tokens[c + 1];
                assert(tv[c + 1] == value_token@);
                let value;
                match &value_token.kind {
                    TokenKind::Word { quoted, .. } => {
                        value = Value::Text {
                            start: value_token.start,
                            end: value_token.end,
                            quoted: *quoted,
                        };
                        *cursor = c + 2;
                    },
                    TokenKind::Close => {
                        return Err(VdfError::KeyWithoutValue { key });
                    },
                    TokenKind::Open => {
                        *cursor = c + 2;
                        let children = parse_entries(tokens, cursor, depth + 1)?;
                        let cc = *cursor;
                        if cc >= tokens.len() {
                            return Err(VdfError::UnclosedObject);
                        }
                        let close = &tokens[cc];
                        assert(tv[cc as int] == close@);
                        match close.kind {
                            TokenKind::Close => {},
                            _ => {
                                return Err(VdfError::MissingCloseBrace);
                            },
                        }
                        value = Value::Object { entries: children, close: close.start };
                        *cursor = cc + 1;
                    },
                }
                let entry = Entry { key, key_start, value };
                let ghost e = entry_view(entry);
                let ghost before = entries@;
                proof {
                    lemma_entries_view_push(before, entry);
                }
                entries.push(entry);
                proof {
                    assert(entries_view(entries@) == old_acc + seq![e]);
                    assert forall|es: Seq<SpecEntry>|
                        #[trigger] (old_acc + (seq![e] + es)) == entries_view(entries@) + es by {
                        assert(old_acc + (seq![e] + es) =~= entries_view(entries@) + es);
                    }
                }
            },
        }
    }
    if depth > 0 {
        return Err(VdfError::UnclosedObject);
    }
    assert(entries_view(entries@) + Seq::<SpecEntry>::empty() =~= entries_view(entries@));
    Ok(entries)
}

/// A copy of a byte vector.
pub(crate) fn copy_bytes(v: &Vec<u8>) -> (r: Vec<u8>)
    ensures
        r@ == v@,
{
    let mut out: Vec<u8> = Vec::new();
    let mut k: usize = 0;
    while k < v.len()
        invariant
            k <= v.len(),
            out@ == v@.subrange(0, k as int),
        decreases v.len() - k,
    {
        out.push(v[k]);
        k = k + 1;
        assert(out@ =~= v@.subrange(0, k as int));
    }
    assert(v@.subrange(0, v.len() as int) =~= v@);
    out
}

// ---------------------------------------------------------------------------
// Lookup
// ---------------------------------------------------------------------------

/// `u8::to_ascii_lowercase`.
pub open spec fn lower(c: u8) -> u8 {
    if 65 <= c <= 90 {
        (c + 32) as u8
    } else {
        c
    }
}

/// `str::eq_ignore_ascii_case` on the bytes of two keys.
pub open spec fn key_eq(a: Seq<u8>, b: Seq<u8>) -> bool {
    a.len() == b.len() && forall|i: int| 0 <= i < a.len() ==> lower(#[trigger] a[i]) == lower(b[i])
}

/// The first entry from `from` on whose key matches `key`.
pub open spec fn first_match(es: Seq<SpecEntry>, key: Seq<u8>, from: int) -> Option<int>
    decreases es.len() - from,
{
    if from < 0 || from >= es.len() {
        None
    } else if key_eq(es[from].key, key) {
        Some(from)
    } else {
        first_match(es, key, from + 1)
    }
}

/// The only entry whose key matches `key`; two matches are an error.
pub open spec fn unique_match(es: Seq<SpecEntry>, key: Seq<u8>) -> Result<Option<int>, SpecVdfError> {
    match first_match(es, key, 0) {
        None => Ok(None),
        Some(i) => if first_match(es, key, i + 1) is Some {
            Err(SpecVdfError::DuplicateKey { key })
        } else {
            Ok(Some(i))
        },
    }
}

/// How many entries from `from` on have a key that matches `key`.
pub open spec fn match_count(es: Seq<SpecEntry>, key: Seq<u8>, from: int) -> nat
    decreases es.len() - from,
{
    if from < 0 || from >= es.len() {
        0
    } else {
        (if key_eq(es[from].key, key) {
            1nat
        } else {
            0nat
        }) + match_count(es, key, from + 1)
    }
}

proof fn lemma_first_match_count(es: Seq<SpecEntry>, key: Seq<u8>, from: int)
    requires
        0 <= from,
    ensures
        first_match(es, key, from) is None <==> match_count(es, key, from) == 0,
        first_match(es, key, from) matches Some(i) ==> from <= i < es.len() && key_eq(
            es[i].key,
            key,
        ) && match_count(es, key, from) == 1 + match_count(es, key, i + 1),
    decreases es.len() - from,
{
    if from < es.len() {
        lemma_first_match_count(es, key, from + 1);
    }
}

/// Looking up a key among siblings: an error exactly when two or more keys
/// match it (ignoring ASCII case), nothing exactly when none does, and
/// otherwise the one entry that matches.
pub proof fn law_unique_match_counts(es: Seq<SpecEntry>, key: Seq<u8>)
    ensures
        unique_match(es, key) is Err <==> match_count(es, key, 0) >= 2,
        unique_match(es, key) == Ok::<Option<int>, SpecVdfError>(None) <==> match_count(es, key, 0)
            == 0,
        unique_match(es, key) matches Ok(Some(i)) ==> 0 <= i < es.len() && key_eq(es[i].key, key)
            && match_count(es, key, 0) == 1 && forall|j: int|
            0 <= j < es.len() && j != i ==> !key_eq(#[trigger] es[j].key, key),
{
    lemma_first_match_count(es, key, 0);
    match first_match(es, key, 0) {
        None => {},
        Some(i) => {
            lemma_first_match_count(es, key, i + 1);
            if first_match(es, key, i + 1) is None {
                assert forall|j: int| 0 <= j < es.len() && j != i implies !key_eq(
                    #[trigger] es[j].key,
                    key,
                ) by {
                    if j < i {
                        lemma_no_match_before(es, key, 0, i, j);
                    } else {
                        lemma_no_match_after(es, key, i + 1, j);
                    }
                }
            }
        },
    }
}

proof fn lemma_no_match_before(es: Seq<SpecEntry>, key: Seq<u8>, from: int, i: int, j: int)
    requires
        0 <= from <= j < i,
        first_match(es, key, from) == Some(i),
    ensures
        !key_eq(es[j].key, key),
    decreases j - from,
{
    if from < j {
        lemma_no_match_before(es, key, from + 1, i, j);
    }
}

proof fn lemma_no_match_after(es: Seq<SpecEntry>, key: Seq<u8>, from: int, j: int)
    requires
        0 <= from <= j < es.len(),
        first_match(es, key, from) is None,
    ensures
        !key_eq(es[j].key, key),
    decreases j - from,
{
    if from < j {
        lemma_no_match_after(es, key, from + 1, j);
    }
}

/// Follows `path` down from entry `e`: each step needs an object and a unique
/// child of that name; a missing child ends the walk without a result.
pub open spec fn walk(e: SpecEntry, path: Seq<Seq<u8>>) -> Result<Option<SpecEntry>, SpecVdfError>
    decreases path.len(),
{
    if path.len() == 0 {
        Ok(Some(e))
    } else {
        match e.value {
            SpecValue::Text { .. } => Err(SpecVdfError::NotAnObject { key: e.key }),
            SpecValue::Object { entries, .. } => match unique_match(entries, path[0]) {
                Err(x) => Err(x),
                Ok(None) => Ok(None),
                Ok(Some(i)) => walk(entries[i], path.subrange(1, path.len() as int)),
            },
        }
    }
}

/// Follows `path` from the top-level entry named `root_key`.
pub open spec fn lookup_root(root: Seq<SpecEntry>, root_key: Seq<u8>, path: Seq<Seq<u8>>) -> Result<
    Option<SpecEntry>,
    SpecVdfError,
> {
    match unique_match(root, root_key) {
        Err(x) => Err(x),
        Ok(None) => Ok(None),
        Ok(Some(i)) => walk(root[i], path),
    }
}

pub open spec fn local_root_key() -> Seq<u8> {
    ascii("UserLocalConfigStore"@)
}

pub open spec fn roaming_root_key() -> Seq<u8> {
    ascii("UserRoamingConfigStore"@)
}

pub open spec fn cloud_key() -> Seq<u8> {
    ascii("CloudEnabled"@)
}

/// The keys from a configuration root down to the object of game `app`.
pub open spec fn app_path(app: Seq<u8>) -> Seq<Seq<u8>> {
    seq![ascii("Software"@), ascii("Valve"@), ascii("Steam"@), ascii("apps"@), app]
}

/// The object of game `app`: it has to be reachable from exactly one of the
/// local and the roaming root (the local root is searched first).
pub open spec fn find_app_spec(root: Seq<SpecEntry>, app: Seq<u8>) -> Result<SpecEntry, SpecVdfError> {
    match lookup_root(root, local_root_key(), app_path(app)) {
        Err(x) => Err(x),
        Ok(local) => match lookup_root(root, roaming_root_key(), app_path(app)) {
            Err(x) => Err(x),
            Ok(roaming) => match (local, roaming) {
                (None, None) => Err(SpecVdfError::AppNotFound),
                (Some(a), None) => Ok(a),
                (None, Some(a)) => Ok(a),
                (Some(_), Some(_)) => Err(SpecVdfError::AmbiguousApp),
            },
        },
    }
}

fn lower_byte(c: u8) -> (r: u8)
    ensures
        r == lower(c),
{
    if 65 <= c && c <= 90 {
        c + 32
    } else {
        c
    }
}

fn keys_equal(a: &[u8], b: &[u8]) -> (r: bool)
    ensures
        r == key_eq(a@, b@),
{
    if a.len() != b.len() {
        return false;
    }
    let mut i: usize = 0;
    while i < a.len()
        invariant
            a.len() == b.len(),
            i <= a.len(),
            forall|k: int| 0 <= k < i ==> lower(#[trigger] a@[k]) == lower(b@[k]),
        decreases a.len() - i,
    {
        if lower_byte(a[i]) != lower_byte(b[i]) {
            return false;
        }
        i = i + 1;
    }
    true
}

pub(crate) fn slice_to_bytes(s: &[u8]) -> (r: Vec<u8>)
    ensures
        r@ == s@,
{
    let mut out: Vec<u8> = Vec::new();
    let mut k: usize = 0;
    while k < s.len()
        invariant
            k <= s.len(),
            out@ == s@.subrange(0, k as int),
        decreases s.len() - k,
    {
        out.push(s[k]);
        k = k + 1;
        assert(out@ =~= s@.subrange(0, k as int));
    }
    assert(s@.subrange(0, s.len() as int) =~= s@);
    out
}

/// The index of the only entry whose key equals `key` ignoring ASCII case.
pub(crate) fn find_unique(entries: &Vec<Entry>, key: &[u8]) -> (r: Result<Option<usize>, VdfError>)
    ensures
        match unique_match(entries_view(entries@), key@) {
            Ok(Some(i)) => r matches Ok(Some(j)) && j == i && j < entries.len(),
            Ok(None) => r matches Ok(None),
            Err(x) => r matches Err(err) && err@ == x,
        },
{
    let ghost ev = entries_view(entries@);
    proof {
        lemma_entries_view_index(entries@);
    }
    let mut found: Option<usize> = None;
    let mut i: usize = 0;
    while i < entries.len()
        invariant
            i <= entries.len(),
            ev == entries_view(entries@),
            ev.len() == entries.len(),
            forall|k: int| 0 <= k < entries.len() ==> #[trigger] ev[k] == entry_view(entries@[k]),
            match found {
                None => first_match(ev, key@, 0) == first_match(ev, key@, i as int),
                Some(f) => f < i && first_match(ev, key@, 0) == Some(f as int) && first_match(
                    ev,
                    key@,
                    f + 1,
                ) == first_match(ev, key@, i as int),
            },
        decreases entries.len() - i,
    {
        if keys_equal(&entries[i].key, key) {
            assert(ev[i as int].key == entries@[i as int].key@);
            match found {
                None => {
                    found = Some(i);
                },
                Some(_) => {
                    return Err(VdfError::DuplicateKey { key: slice_to_bytes(key) });
                },
            }
        } else {
            assert(ev[i as int].key == entries@[i as int].key@);
        }
        i = i + 1;
    }
    Ok(found)
}

/// Follows `path` down from `entry`.
fn walk_path<'a>(entry: &'a Entry, path: &Vec<Vec<u8>>) -> (r: Result<Option<&'a Entry>, VdfError>)
    ensures
        match walk(entry_view(*entry), path@.map_values(|k: Vec<u8>| k@)) {
            Ok(Some(e)) => r matches Ok(Some(x)) && entry_view(*x) == e,
            Ok(None) => r matches Ok(None),
            Err(x) => r matches Err(err) && err@ == x,
        },
{
    let ghost pv = path@.map_values(|k: Vec<u8>| k@);
    let mut cur: &Entry = entry;
    let mut i: usize = 0;
    assert(pv.subrange(0, pv.len() as int) =~= pv);
    while i < path.len()
        invariant
            i <= path.len(),
            pv == path@.map_values(|k: Vec<u8>| k@),
            walk(entry_view(*entry), pv) == walk(
                entry_view(*cur),
                pv.subrange(i as int, pv.len() as int),
            ),
        decreases path.len() - i,
    {
        let ghost rest = pv.subrange(i as int, pv.len() as int);
        assert(rest.subrange(1, rest.len() as int) =~= pv.subrange(i + 1, pv.len() as int));
        assert(rest[0] == path@[i as int]@);
        match &cur.value {
            Value::Text { .. } => {
                return Err(VdfError::NotAnObject { key: copy_bytes(&cur.key) });
            },
            Value::Object { entries, .. } => {
                match find_unique(entries, path[i].as_slice()) {
                    Err(x) => {
                        return Err(x);
                    },
                    Ok(None) => {
                        return Ok(None);
                    },
                    Ok(Some(j)) => {
                        proof {
                            lemma_entries_view_index(entries@);
                        }
                        cur = &entries[j];
                    },
                }
            },
        }
        i = i + 1;
    }
    assert(pv.subrange(i as int, pv.len() as int) =~= Seq::<Seq<u8>>::empty());
    Ok(Some(cur))
}

/// Follows `path` from the top-level entry named `root_key`.
fn lookup_root_exec<'a>(root: &'a Vec<Entry>, root_key: &[u8], path: &Vec<Vec<u8>>) -> (r: Result<
    Option<&'a Entry>,
    VdfError,
>)
    ensures
        match lookup_root(entries_view(root@), root_key@, path@.map_values(|k: Vec<u8>| k@)) {
            Ok(Some(e)) => r matches Ok(Some(x)) && entry_view(*x) == e,
            Ok(None) => r matches Ok(None),
            Err(x) => r matches Err(err) && err@ == x,
        },
{
    match find_unique(root, root_key)? {
        None => Ok(None),
        Some(i) => {
            proof {
                lemma_entries_view_index(root@);
            }
            walk_path(&root[i], path)
        },
    }
}

pub(crate) fn ascii_key(s: &str) -> (r: Vec<u8>)
    requires
        vstd::string::is_ascii(s),
    ensures
        r@ == ascii(s@),
{
    let r = slice_to_bytes(s.as_bytes());
    assert(r@ =~= ascii(s@));
    r
}

/// The keys from a root down to the object of game `app`.
fn app_path_exec(app: &[u8]) -> (r: Vec<Vec<u8>>)
    ensures
        r@.map_values(|k: Vec<u8>| k@) == app_path(app@),
{
    proof {
        reveal_strlit("Software");
        reveal_strlit("Valve");
        reveal_strlit("Steam");
        reveal_strlit("apps");
    }
    let mut path: Vec<Vec<u8>> = Vec::new();
    path.push(ascii_key("Software"));
    path.push(ascii_key("Valve"));
    path.push(ascii_key("Steam"));
    path.push(ascii_key("apps"));
    path.push(slice_to_bytes(app));
    assert(path@.map_values(|k: Vec<u8>| k@) =~= app_path(app@));
    path
}

/// The object of game `app` in a parsed configuration.
pub(crate) fn find_app<'a>(root: &'a Vec<Entry>, app: &[u8]) -> (r: Result<&'a Entry, VdfError>)
    ensures
        match find_app_spec(entries_view(root@), app@) {
            Ok(e) => r matches Ok(x) && entry_view(*x) == e,
            Err(x) => r matches Err(err) && err@ == x,
        },
{
    let path = app_path_exec(app);
    proof {
        reveal_strlit("UserLocalConfigStore");
        reveal_strlit("UserRoamingConfigStore");
    }
    let local_key = ascii_key("UserLocalConfigStore");
    let roaming_key = ascii_key("UserRoamingConfigStore");
    let local = lookup_root_exec(root, local_key.as_slice(), &path)?;
    let roaming = lookup_root_exec(root, roaming_key.as_slice(), &path)?;
    match (local, roaming) {
        (None, None) => Err(VdfError::AppNotFound),
        (Some(a), None) => Ok(a),
        (None, Some(a)) => Ok(a),
        (Some(_), Some(_)) => Err(VdfError::AmbiguousApp),
    }
}

} // verus!
