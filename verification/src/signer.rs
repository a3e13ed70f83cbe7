//! Reading the signer's console output: it is GBK (code page 936) and arrives
//! in pipe-sized pieces that may split a two-byte character.

use vstd::prelude::*;
use crate::vdf::copy_range;

verus! {

/// What the GBK decoder of `encoding_rs` gives for a byte sequence (`None`
/// when the sequence is malformed); it is asked for one character at a time.
pub uninterp spec fn gbk_decoded(bytes: Seq<u8>) -> Option<Seq<char>>;

/// `encoding_rs::GBK.decode_without_bom_handling_and_without_replacement`:
/// decodes a whole byte sequence, or reports that it is malformed. The result
/// is named (`gbk_decoded`), not described: the claim is only that it depends
/// on the bytes alone. The length bound keeps the decoder's reservation of
/// about three output bytes per input byte from overflowing, where the crate
/// would panic.
#[verifier::external_body]
fn gbk_decode_call(bytes: &[u8]) -> (r: Option<String>)
    requires
        bytes.len() <= usize::MAX / 8,
    ensures
        match r {
            Some(text) => gbk_decoded(bytes@) == Some(text@),
            None => gbk_decoded(bytes@) is None,
        },
{
    match encoding_rs::GBK.decode_without_bom_handling_and_without_replacement(bytes) {
        Some(text) => Some(text.into_owned()),
        None => None,
    }
}

/// Why the signer's output could not be shown faithfully.
#[derive(Debug, Clone, Copy, PartialEq, Eq, Structural)]
pub enum DecodeError {
    /// The bytes are not valid GBK.
    Invalid,
    /// Too much output at once.
    TooLong,
    /// The output ended in the middle of a two-byte character.
    Truncated,
}

pub open spec fn decode_error_text(e: DecodeError) -> Seq<char> {
    match e {
        DecodeError::Invalid => "无法按 GBK 解码改签工具输出"@,
        DecodeError::TooLong => "改签工具输出过长"@,
        DecodeError::Truncated => "改签工具输出以不完整的 GBK 字符结束，无法确认完整结果"@,
    }
}

impl DecodeError {
    /// The message shown for the error.
    pub fn message(&self) -> (m: &'static str)
        ensures
            m@ == decode_error_text(*self),
    {
        match self {
            DecodeError::Invalid => "无法按 GBK 解码改签工具输出",
            DecodeError::TooLong => "改签工具输出过长",
            DecodeError::Truncated => "改签工具输出以不完整的 GBK 字符结束，无法确认完整结果",
        }
    }
}

/// A byte that starts a two-byte GBK character.
pub open spec fn is_lead(c: u8) -> bool {
    0x81 <= c <= 0xfe
}

/// How many bytes from `i` on form complete characters: a lead byte takes
/// the next byte with it, any other byte stands alone, and a lead byte at the
/// very end waits for its partner.
pub open spec fn complete_len(s: Seq<u8>, i: int) -> int
    decreases s.len() - i,
{
    if i < 0 || i >= s.len() {
        i
    } else if is_lead(s[i]) {
        if i + 1 == s.len() {
            i
        } else {
            complete_len(s, i + 2)
        }
    } else {
        complete_len(s, i + 1)
    }
}

/// The largest prefix of `s` made of complete characters.
pub open spec fn complete_prefix(s: Seq<u8>) -> int {
    complete_len(s, 0)
}

/// Whether, reading `s` from `i` character by character, a lead byte is
/// followed by an ASCII digit: the start of a GB 18030 four-byte sequence,
/// which code page 936 does not have.
pub open spec fn has_four_byte_start(s: Seq<u8>, i: int) -> bool
    decreases s.len() - i,
{
    if i < 0 || i >= s.len() {
        false
    } else if is_lead(s[i]) {
        if i + 1 == s.len() {
            false
        } else if 0x30 <= s[i + 1] <= 0x39 {
            true
        } else {
            has_four_byte_start(s, i + 2)
        }
    } else {
        has_four_byte_start(s, i + 1)
    }
}

/// The two-byte codes that code page 936 keeps in the private use area,
/// where the GBK decoder of `encoding_rs` (following GB 18030-2022) gives
/// other code points: A6D9..A6DF, A6EC, A6ED, A6F3 and eight codes of row FE.
pub open spec fn private_use(a: u8, b: u8) -> Option<char> {
    if a == 0xA6 && b == 0xD9 {
        Some('\u{E78D}')
    } else if a == 0xA6 && b == 0xDA {
        Some('\u{E78E}')
    } else if a == 0xA6 && b == 0xDB {
        Some('\u{E78F}')
    } else if a == 0xA6 && b == 0xDC {
        Some('\u{E790}')
    } else if a == 0xA6 && b == 0xDD {
        Some('\u{E791}')
    } else if a == 0xA6 && b == 0xDE {
        Some('\u{E792}')
    } else if a == 0xA6 && b == 0xDF {
        Some('\u{E793}')
    } else if a == 0xA6 && b == 0xEC {
        Some('\u{E794}')
    } else if a == 0xA6 && b == 0xED {
        Some('\u{E795}')
    } else if a == 0xA6 && b == 0xF3 {
        Some('\u{E796}')
    } else if a == 0xFE && b == 0x59 {
        Some('\u{E81E}')
    } else if a == 0xFE && b == 0x61 {
        Some('\u{E826}')
    } else if a == 0xFE && b == 0x66 {
        Some('\u{E82B}')
    } else if a == 0xFE && b == 0x67 {
        Some('\u{E82C}')
    } else if a == 0xFE && b == 0x6D {
        Some('\u{E832}')
    } else if a == 0xFE && b == 0x7E {
        Some('\u{E843}')
    } else if a == 0xFE && b == 0x90 {
        Some('\u{E854}')
    } else if a == 0xFE && b == 0xA0 {
        Some('\u{E864}')
    } else {
        None
    }
}

/// How many bytes the character at `i` takes: two for a lead byte that has
/// a partner, else one.
pub open spec fn unit_len(s: Seq<u8>, i: int) -> int {
    if is_lead(s[i]) && i + 1 < s.len() {
        2
    } else {
        1
    }
}

/// The text of the character at `i` in code page 936: the private use
/// character for the codes that code page 936 keeps there, else what the
/// GBK decoder gives for the character's bytes.
pub open spec fn unit_text(s: Seq<u8>, i: int) -> Option<Seq<char>> {
    let n = unit_len(s, i);
    if n == 2 && private_use(s[i], s[i + 1]) is Some {
        Some(seq![private_use(s[i], s[i + 1])->0])
    } else {
        gbk_decoded(s.subrange(i, i + n))
    }
}

/// Both texts, one after the other, when both are there.
pub open spec fn both(a: Option<Seq<char>>, b: Option<Seq<char>>) -> Option<Seq<char>> {
    match (a, b) {
        (Some(x), Some(y)) => Some(x + y),
        _ => None,
    }
}

/// The text of `s` from `i` on, character by character; nothing when a
/// character is malformed.
pub open spec fn chars_from(s: Seq<u8>, i: int) -> Option<Seq<char>>
    decreases s.len() - i,
{
    if i < 0 || i >= s.len() {
        Some(Seq::empty())
    } else {
        both(unit_text(s, i), chars_from(s, i + unit_len(s, i)))
    }
}

/// Decoding of a whole chunk as code page 936: empty text for no bytes, an
/// error for a chunk too long for the 32-bit length that code page
/// conversion takes, an error for a GB 18030 four-byte sequence, else the
/// text of its characters.
pub open spec fn decoded(bytes: Seq<u8>) -> Result<Seq<char>, DecodeError> {
    if bytes.len() == 0 {
        Ok(Seq::empty())
    } else if bytes.len() > i32::MAX {
        Err(DecodeError::TooLong)
    } else if has_four_byte_start(bytes, 0) {
        Err(DecodeError::Invalid)
    } else {
        match chars_from(bytes, 0) {
            Some(text) => Ok(text),
            None => Err(DecodeError::Invalid),
        }
    }
}

/// The text of a code that code page 936 keeps in the private use area.
fn private_use_text(a: u8, b: u8) -> (r: Option<&'static str>)
    ensures
        match private_use(a, b) {
            Some(c) => r matches Some(t) && t@ == seq![c],
            None => r is None,
        },
{
    proof {
        reveal_strlit("\u{E78D}");
        reveal_strlit("\u{E78E}");
        reveal_strlit("\u{E78F}");
        reveal_strlit("\u{E790}");
        reveal_strlit("\u{E791}");
        reveal_strlit("\u{E792}");
        reveal_strlit("\u{E793}");
        reveal_strlit("\u{E794}");
        reveal_strlit("\u{E795}");
        reveal_strlit("\u{E796}");
        reveal_strlit("\u{E81E}");
        reveal_strlit("\u{E826}");
        reveal_strlit("\u{E82B}");
        reveal_strlit("\u{E82C}");
        reveal_strlit("\u{E832}");
        reveal_strlit("\u{E843}");
        reveal_strlit("\u{E854}");
        reveal_strlit("\u{E864}");
    }
    if a == 0xA6 {
        if b == 0xD9 {
            Some("\u{E78D}")
        } else if b == 0xDA {
            Some("\u{E78E}")
        } else if b == 0xDB {
            Some("\u{E78F}")
        } else if b == 0xDC {
            Some("\u{E790}")
        } else if b == 0xDD {
            Some("\u{E791}")
        } else if b == 0xDE {
            Some("\u{E792}")
        } else if b == 0xDF {
            Some("\u{E793}")
        } else if b == 0xEC {
            Some("\u{E794}")
        } else if b == 0xED {
            Some("\u{E795}")
        } else if b == 0xF3 {
            Some("\u{E796}")
        } else {
            None
        }
    } else if a == 0xFE {
        if b == 0x59 {
            Some("\u{E81E}")
        } else if b == 0x61 {
            Some("\u{E826}")
        } else if b == 0x66 {
            Some("\u{E82B}")
        } else if b == 0x67 {
            Some("\u{E82C}")
        } else if b == 0x6D {
            Some("\u{E832}")
        } else if b == 0x7E {
            Some("\u{E843}")
        } else if b == 0x90 {
            Some("\u{E854}")
        } else if b == 0xA0 {
            Some("\u{E864}")
        } else {
            None
        }
    } else {
        None
    }
}

fn four_byte_start(s: &[u8]) -> (r: bool)
    ensures
        r == has_four_byte_start(s@, 0),
{
    let mut i: usize = 0;
    while i < s.len()
        invariant
            i <= s.len(),
            has_four_byte_start(s@, 0) == has_four_byte_start(s@, i as int),
        decreases s.len() - i,
    {
        if 0x81 <= s[i] && s[i] <= 0xfe {
            if i + 1 == s.len() {
                return false;
            }
            if 0x30 <= s[i + 1] && s[i + 1] <= 0x39 {
                return true;
            }
            i = i + 2;
        } else {
            i = i + 1;
        }
    }
    false
}

/// Decodes one chunk as code page 936, character by character.
pub fn decode_gbk(bytes: &[u8]) -> (r: Result<String, DecodeError>)
    ensures
        match decoded(bytes@) {
            Ok(text) => r matches Ok(s) && s@ == text,
            Err(e) => r == Err::<String, DecodeError>(e),
        },
{
    if bytes.len() == 0 {
        return Ok(String::new());
    }
    if bytes.len() > 0x7fff_ffff {
        return Err(DecodeError::TooLong);
    }
    if four_byte_start(bytes) {
        return Err(DecodeError::Invalid);
    }
    let ghost s = bytes@;
    let mut out = String::new();
    let mut i: usize = 0;
    while i < bytes.len()
        invariant
            s == bytes@,
            0 < bytes.len() <= 0x7fff_ffff,
            !has_four_byte_start(s, 0),
            i <= bytes.len(),
            chars_from(s, 0) == both(Some(out@), chars_from(s, i as int)),
        decreases bytes.len() - i,
    {
        let n: usize = if 0x81 <= bytes[i] && bytes[i] <= 0xfe && i + 1 < bytes.len() {
            2
        } else {
            1
        };
        assert(n == unit_len(s, i as int));
        let ghost rest = chars_from(s, i + n);
        let ghost before = out@;
        let special = if n == 2 {
            private_use_text(bytes[i], bytes[i + 1])
        } else {
            None
        };
        match special {
            Some(t) => {
                out.append(t);
            },
            None => {
                let unit = copy_range(bytes, i, i + n);
                match gbk_decode_call(unit.as_slice()) {
                    None => {
                        assert(unit_text(s, i as int) is None);
                        assert(chars_from(s, i as int) is None);
                        return Err(DecodeError::Invalid);
                    },
                    Some(t) => {
                        out.append(t.as_str());
                    },
                }
            },
        }
        proof {
            let x = out@.subrange(before.len() as int, out@.len() as int);
            assert(out@ =~= before + x);
            assert(unit_text(s, i as int) == Some(x));
            match rest {
                Some(y) => {
                    assert(before + (x + y) =~= (before + x) + y);
                },
                None => {},
            }
        }
        i = i + n;
    }
    assert(out@ + Seq::<char>::empty() =~= out@);
    Ok(out)
}

pub proof fn lemma_complete_len_bounds(s: Seq<u8>, i: int)
    requires
        0 <= i <= s.len(),
    ensures
        i <= complete_len(s, i) <= s.len(),
        complete_len(s, i) == s.len() || (complete_len(s, i) == s.len() - 1 && is_lead(
            s[s.len() - 1],
        )),
    decreases s.len() - i,
{
    if i < s.len() {
        if is_lead(s[i]) {
            if i + 1 != s.len() {
                lemma_complete_len_bounds(s, i + 2);
            }
        } else {
            lemma_complete_len_bounds(s, i + 1);
        }
    }
}

/// Reading from `i + k` in `s` is reading from `k` in what follows `i`.
proof fn lemma_complete_len_shift(s: Seq<u8>, i: int, k: int)
    requires
        0 <= i <= s.len(),
        0 <= k <= s.len() - i,
    ensures
        complete_len(s, i + k) == i + complete_len(s.subrange(i, s.len() as int), k),
    decreases s.len() - i - k,
{
    let t = s.subrange(i, s.len() as int);
    if i + k < s.len() {
        assert(t[k] == s[i + k]);
        if is_lead(s[i + k]) {
            if i + k + 1 != s.len() {
                lemma_complete_len_shift(s, i, k + 2);
            }
        } else {
            lemma_complete_len_shift(s, i, k + 1);
        }
    }
}

/// More bytes after a prefix only continue the reading where the prefix
/// stopped it.
proof fn lemma_complete_len_extend(s: Seq<u8>, m: int, j: int)
    requires
        0 <= j <= m <= s.len(),
    ensures
        complete_len(s, j) == complete_len(s, complete_len(s.subrange(0, m), j)),
    decreases m - j,
{
    let t = s.subrange(0, m);
    if j < m {
        assert(t[j] == s[j]);
        if is_lead(s[j]) {
            if j + 1 != m {
                lemma_complete_len_extend(s, m, j + 2);
            }
        } else {
            lemma_complete_len_extend(s, m, j + 1);
        }
    }
}

/// Where the reading from `j` stops, the bytes before it read the same way
/// to their end.
proof fn lemma_complete_len_prefix(s: Seq<u8>, j: int)
    requires
        0 <= j <= s.len(),
    ensures
        complete_len(s.subrange(0, complete_len(s, j)), j) == complete_len(s, j),
    decreases s.len() - j,
{
    lemma_complete_len_bounds(s, j);
    let e = complete_len(s, j);
    let t = s.subrange(0, e);
    if j < s.len() {
        if is_lead(s[j]) {
            if j + 1 != s.len() {
                lemma_complete_len_prefix(s, j + 2);
                lemma_complete_len_bounds(s, j + 2);
                assert(t[j] == s[j]);
            }
        } else {
            lemma_complete_len_prefix(s, j + 1);
            lemma_complete_len_bounds(s, j + 1);
            assert(t[j] == s[j]);
        }
    }
}

/// Reading `s` from `k + m` is reading what follows `k` from `m`.
proof fn lemma_chars_shift(s: Seq<u8>, k: int, m: int)
    requires
        0 <= k <= s.len(),
        0 <= m <= s.len() - k,
    ensures
        chars_from(s, k + m) == chars_from(s.subrange(k, s.len() as int), m),
        has_four_byte_start(s, k + m) == has_four_byte_start(s.subrange(k, s.len() as int), m),
    decreases s.len() - k - m,
{
    let u = s.subrange(k, s.len() as int);
    if k + m < s.len() {
        assert(u[m] == s[k + m]);
        if k + m + 1 < s.len() {
            assert(u[m + 1] == s[k + m + 1]);
        }
        assert(unit_len(u, m) == unit_len(s, k + m));
        let n = unit_len(s, k + m);
        assert(u.subrange(m, m + n) =~= s.subrange(k + m, k + m + n));
        assert(unit_text(u, m) == unit_text(s, k + m));
        lemma_chars_shift(s, k, m + n);
    }
}

/// Up to a point `k` that the reading from `j` reaches exactly, the text of
/// `s` is the text of the bytes before `k` followed by the text from `k`.
proof fn lemma_chars_split(s: Seq<u8>, k: int, j: int)
    requires
        0 <= j <= k <= s.len(),
        complete_len(s.subrange(0, k), j) == k,
    ensures
        chars_from(s, j) == both(chars_from(s.subrange(0, k), j), chars_from(s, k)),
        has_four_byte_start(s, j) == (has_four_byte_start(s.subrange(0, k), j)
            || has_four_byte_start(s, k)),
    decreases k - j,
{
    let t = s.subrange(0, k);
    if j == k {
        match chars_from(s, k) {
            Some(y) => {
                assert(Seq::<char>::empty() + y =~= y);
            },
            None => {},
        }
    } else {
        assert(t[j] == s[j]);
        if is_lead(s[j]) {
            assert(j + 1 < k);
            assert(t[j + 1] == s[j + 1]);
        }
        assert(unit_len(t, j) == unit_len(s, j));
        let n = unit_len(s, j);
        assert(t.subrange(j, j + n) =~= s.subrange(j, j + n));
        assert(unit_text(t, j) == unit_text(s, j));
        lemma_chars_split(s, k, j + n);
        match (unit_text(s, j), chars_from(t, j + n), chars_from(s, k)) {
            (Some(x), Some(y), Some(z)) => {
                assert(x + (y + z) =~= (x + y) + z);
            },
            _ => {},
        }
    }
}

/// What is held back after feeding `b` to a decoder that holds back the
/// incomplete end of `first` is the incomplete end of `first + b`.
proof fn lemma_feeding_keeps_the_tail(first: Seq<u8>, b: Seq<u8>)
    ensures
        ({
            let e1 = complete_prefix(first);
            let second = first.subrange(e1, first.len() as int) + b;
            let e2 = complete_prefix(second);
            let whole = first + b;
            second.subrange(e2, second.len() as int) == whole.subrange(
                complete_prefix(whole),
                whole.len() as int,
            )
        }),
{
    let e1 = complete_prefix(first);
    let second = first.subrange(e1, first.len() as int) + b;
    let e2 = complete_prefix(second);
    let whole = first + b;
    let e = complete_prefix(whole);
    lemma_complete_len_bounds(first, 0);
    lemma_complete_len_bounds(second, 0);
    assert(whole.subrange(0, first.len() as int) =~= first);
    lemma_complete_len_extend(whole, first.len() as int, 0);
    lemma_complete_len_shift(whole, e1, 0);
    assert(whole.subrange(e1, whole.len() as int) =~= second);
    assert(second.subrange(e2, second.len() as int) =~= whole.subrange(e, whole.len() as int));
}

/// Feeding `a` and then `b` to a decoder holding `held` gives, chunk after
/// chunk, the text that feeding `a + b` at once gives, and leaves the same
/// bytes held back: where a pipe read splits the output does not change
/// what is shown. (Past the 32-bit length that one conversion takes, the
/// whole could be refused where its pieces are not.)
pub proof fn law_split_feeding_decodes_same_text(held: Seq<u8>, a: Seq<u8>, b: Seq<u8>)
    requires
        held.len() + a.len() + b.len() <= i32::MAX,
    ensures
        ({
            let first = held + a;
            let e1 = complete_prefix(first);
            let second = first.subrange(e1, first.len() as int) + b;
            let e2 = complete_prefix(second);
            let whole = held + a + b;
            let e = complete_prefix(whole);
            &&& first.subrange(0, e1) + second.subrange(0, e2) == whole.subrange(0, e)
            &&& second.subrange(e2, second.len() as int) == whole.subrange(e, whole.len() as int)
            &&& match (decoded(first.subrange(0, e1)), decoded(second.subrange(0, e2))) {
                (Ok(x), Ok(y)) => decoded(whole.subrange(0, e)) == Ok::<Seq<char>, DecodeError>(
                    x + y,
                ),
                _ => decoded(whole.subrange(0, e)) is Err,
            }
        }),
{
    let first = held + a;
    let e1 = complete_prefix(first);
    let second = first.subrange(e1, first.len() as int) + b;
    let e2 = complete_prefix(second);
    let whole = held + a + b;
    let e = complete_prefix(whole);
    lemma_complete_len_bounds(first, 0);
    lemma_complete_len_bounds(second, 0);
    lemma_complete_len_bounds(whole, 0);
    assert(whole.subrange(0, first.len() as int) =~= first);
    lemma_complete_len_extend(whole, first.len() as int, 0);
    lemma_complete_len_shift(whole, e1, 0);
    assert(whole.subrange(e1, whole.len() as int) =~= second);
    assert(e == e1 + e2);
    let c1 = first.subrange(0, e1);
    let c2 = second.subrange(0, e2);
    let w = whole.subrange(0, e);
    assert(c1 + c2 =~= w);
    assert(second.subrange(e2, second.len() as int) =~= whole.subrange(e, whole.len() as int));
    lemma_complete_len_prefix(first, 0);
    assert(w.subrange(0, e1) =~= c1);
    lemma_chars_split(w, e1, 0);
    lemma_chars_shift(w, e1, 0);
    assert(w.subrange(e1, w.len() as int) =~= c2);
    if c1.len() == 0 {
        assert(w =~= c2);
        match decoded(c2) {
            Ok(y) => {
                assert(Seq::<char>::empty() + y =~= y);
            },
            _ => {},
        }
    } else if c2.len() == 0 {
        assert(w =~= c1);
        match decoded(c1) {
            Ok(x) => {
                assert(x + Seq::<char>::empty() =~= x);
            },
            _ => {},
        }
    }
}

/// Where the complete characters of `s` end.
fn complete_end(s: &[u8]) -> (end: usize)
    ensures
        end == complete_prefix(s@),
{
    let mut end: usize = 0;
    let mut done = false;
    while !done && end < s.len()
        invariant
            end <= s.len(),
            complete_len(s@, 0) == complete_len(s@, end as int),
            done ==> complete_len(s@, end as int) == end,
        decreases s.len() - end + (if done { 0int } else { 1int }),
    {
        if 0x81 <= s[end] && s[end] <= 0xfe {
            if end + 1 == s.len() {
                done = true;
            } else {
                end = end + 2;
            }
        } else {
            end = end + 1;
        }
    }
    end
}

/// Holds back a lead byte that a pipe read separated from its partner.
pub struct GbkDecoder {
    pending: Vec<u8>,
    fed: Ghost<Seq<u8>>,
    clean: Ghost<bool>,
}

/// After the decoder was fed `fed` and every push succeeded, what it holds
/// back is exactly the incomplete end of `fed`, read in GBK units.
pub proof fn law_held_back_is_the_incomplete_end(d: GbkDecoder)
    requires
        d.wf(),
        d.clean(),
    ensures
        d.pending() == d.fed().subrange(complete_prefix(d.fed()), d.fed().len() as int),
        d.pending().len() == 0 <==> complete_prefix(d.fed()) == d.fed().len(),
        d.pending().len() <= 1,
{
    lemma_complete_len_bounds(d.fed(), 0);
}

impl GbkDecoder {
    /// The bytes waiting for the rest of their character.
    pub closed spec fn pending(&self) -> Seq<u8> {
        self.pending@
    }

    /// Every byte pushed so far.
    pub closed spec fn fed(&self) -> Seq<u8> {
        self.fed@
    }

    /// Every push so far succeeded.
    pub closed spec fn clean(&self) -> bool {
        self.clean@
    }

    /// After pushes that all succeeded, the bytes held back are the
    /// incomplete end of everything pushed.
    pub closed spec fn wf(&self) -> bool {
        self.clean@ ==> self.pending@ == self.fed@.subrange(
            complete_prefix(self.fed@),
            self.fed@.len() as int,
        )
    }

    pub fn new() -> (d: GbkDecoder)
        ensures
            d.wf(),
            d.clean(),
            d.pending() == Seq::<u8>::empty(),
            d.fed() == Seq::<u8>::empty(),
    {
        let d = GbkDecoder { pending: Vec::new(), fed: Ghost(Seq::empty()), clean: Ghost(true) };
        assert(d.fed@.subrange(0, 0) =~= Seq::<u8>::empty());
        d
    }

    /// Decodes the complete characters of the held-back bytes followed by
    /// `bytes`; a trailing lead byte is held back. When decoding fails,
    /// every byte is held.
    pub fn push(&mut self, bytes: &[u8]) -> (r: Result<String, DecodeError>)
        ensures
            ({
                let all = old(self).pending() + bytes@;
                let end = complete_prefix(all);
                match decoded(all.subrange(0, end)) {
                    Ok(text) => r matches Ok(s) && s@ == text && final(self).pending() == all.subrange(
                        end,
                        all.len() as int,
                    ),
                    Err(e) => r == Err::<String, DecodeError>(e) && final(self).pending() == all,
                }
            }),
            final(self).fed() == old(self).fed() + bytes@,
            final(self).clean() == (old(self).clean() && r is Ok),
            old(self).wf() ==> final(self).wf(),
    {
        let ghost old_pending = self.pending@;
        let ghost old_fed = self.fed@;
        let ghost old_clean = self.clean@;
        let mut k: usize = 0;
        while k < bytes.len()
            invariant
                k <= bytes.len(),
                self.pending@ == old(self).pending@ + bytes@.subrange(0, k as int),
                self.fed@ == old(self).fed@,
                self.clean@ == old(self).clean@,
            decreases bytes.len() - k,
        {
            self.pending.push(bytes[k]);
            k = k + 1;
            assert(self.pending@ =~= old(self).pending@ + bytes@.subrange(0, k as int));
        }
        assert(bytes@.subrange(0, bytes.len() as int) =~= bytes@);
        let end = complete_end(self.pending.as_slice());
        proof {
            lemma_complete_len_bounds(self.pending@, 0);
        }
        let chunk = copy_range(self.pending.as_slice(), 0, end);
        self.fed = Ghost(old_fed + bytes@);
        match decode_gbk(chunk.as_slice()) {
            Err(e) => {
                self.clean = Ghost(false);
                Err(e)
            },
            Ok(text) => {
                let rest = copy_range(self.pending.as_slice(), end, self.pending.len());
                self.pending = rest;
                proof {
                    if old_clean && old_pending == old_fed.subrange(
                        complete_prefix(old_fed),
                        old_fed.len() as int,
                    ) {
                        lemma_feeding_keeps_the_tail(old_fed, bytes@);
                        let e1 = complete_prefix(old_fed);
                        assert(old_fed.subrange(e1, old_fed.len() as int) + bytes@ == old_pending
                            + bytes@);
                    }
                }
                Ok(text)
            },
        }
    }

    /// The output is complete only when no byte is held back.
    pub fn finish(&self) -> (r: Result<(), DecodeError>)
        ensures
            r is Ok <==> self.pending().len() == 0,
            r is Err ==> r == Err::<(), DecodeError>(DecodeError::Truncated),
            self.wf() && self.clean() ==> (r is Ok <==> complete_prefix(self.fed())
                == self.fed().len()),
    {
        proof {
            lemma_complete_len_bounds(self.fed@, 0);
        }
        if self.pending.len() == 0 {
            Ok(())
        } else {
            Err(DecodeError::Truncated)
        }
    }
}

// ---------------------------------------------------------------------------
// Forwarding the output
// ---------------------------------------------------------------------------

/// Where forwarding the signer's output stands.
#[derive(Debug, Clone, Copy, PartialEq, Eq, Structural)]
pub enum Relay {
    Read,
    Write,
    Flush,
    Done,
    Failed(DecodeError),
}

/// What the program has to do next.
#[derive(Debug, Clone, Copy, PartialEq, Eq, Structural)]
pub enum RelayStep {
    /// Read more output (report it with [`Forwarder::read`]; nothing read
    /// means the output has ended).
    ReadMore,
    /// Write [`Forwarder::text`] to the console.
    WriteText,
    /// Flush the console, so that a prompt shows before the next read waits.
    Flush,
    /// Done.
    Finish,
}

/// Forwards the signer's output to the console as it arrives: every read is
/// decoded, written and flushed before the next read.
pub struct Forwarder {
    decoder: GbkDecoder,
    stage: Relay,
    text: String,
    history: Ghost<Seq<RelayStep>>,
}

pub open spec fn relay_step(r: Relay) -> RelayStep {
    match r {
        Relay::Read => RelayStep::ReadMore,
        Relay::Write => RelayStep::WriteText,
        Relay::Flush => RelayStep::Flush,
        _ => RelayStep::Finish,
    }
}

/// Every step so far came in the order read, write, flush.
pub open spec fn relay_inv(r: Relay, h: Seq<RelayStep>) -> bool {
    &&& r == Relay::Read ==> h.len() == 0 || h.last() == RelayStep::Flush
    &&& r == Relay::Write ==> h.len() > 0 && h.last() == RelayStep::ReadMore
    &&& r == Relay::Flush ==> h.len() > 0 && h.last() == RelayStep::WriteText
}

/// More output is read only after everything read before was written and
/// flushed to the console: a prompt without a line end shows before the
/// signer waits for the user.
pub proof fn law_flushed_before_next_read(f: Forwarder)
    requires
        f.wf(),
    ensures
        relay_step(f.stage()) == RelayStep::ReadMore ==> f.history().len() == 0
            || f.history().last() == RelayStep::Flush,
        relay_step(f.stage()) == RelayStep::Flush ==> f.history().last() == RelayStep::WriteText,
        relay_step(f.stage()) == RelayStep::WriteText ==> f.history().last()
            == RelayStep::ReadMore,
{
}

impl Forwarder {
    pub closed spec fn stage(&self) -> Relay {
        self.stage
    }

    /// The steps performed so far.
    pub closed spec fn history(&self) -> Seq<RelayStep> {
        self.history@
    }

    /// The bytes waiting for the rest of their character.
    pub closed spec fn pending(&self) -> Seq<u8> {
        self.decoder.pending()
    }

    /// The text of the last read.
    pub closed spec fn text_view(&self) -> Seq<char> {
        self.text@
    }

    /// Every byte read so far.
    pub closed spec fn fed(&self) -> Seq<u8> {
        self.decoder.fed()
    }

    /// No read so far failed to decode.
    pub closed spec fn clean(&self) -> bool {
        self.decoder.clean()
    }

    pub closed spec fn wf(&self) -> bool {
        &&& relay_inv(self.stage, self.history@)
        &&& self.decoder.wf()
    }

    /// Nothing read yet.
    pub fn new() -> (f: Forwarder)
        ensures
            f.wf(),
            f.stage() == Relay::Read,
            f.pending() == Seq::<u8>::empty(),
            f.fed() == Seq::<u8>::empty(),
            f.clean(),
            f.history() == Seq::<RelayStep>::empty(),
    {
        Forwarder {
            decoder: GbkDecoder::new(),
            stage: Relay::Read,
            text: String::new(),
            history: Ghost(Seq::empty()),
        }
    }

    /// The step asked for now.
    pub fn step(&self) -> (s: RelayStep)
        requires
            self.wf(),
        ensures
            s == relay_step(self.stage()),
            s == RelayStep::ReadMore ==> self.history().len() == 0 || self.history().last()
                == RelayStep::Flush,
    {
        match self.stage {
            Relay::Read => RelayStep::ReadMore,
            Relay::Write => RelayStep::WriteText,
            Relay::Flush => RelayStep::Flush,
            _ => RelayStep::Finish,
        }
    }

    /// Reports what a read gave: some bytes, or nothing at the end.
    pub fn read(&mut self, bytes: &[u8])
        requires
            old(self).wf(),
            old(self).stage() == Relay::Read,
        ensures
            final(self).wf(),
            final(self).history() == old(self).history().push(RelayStep::ReadMore),
            bytes@.len() == 0 ==> final(self).stage() == (if old(self).pending().len() == 0 {
                Relay::Done
            } else {
                Relay::Failed(DecodeError::Truncated)
            }),
            bytes@.len() == 0 && old(self).clean() ==> (final(self).stage() == Relay::Done
                <==> complete_prefix(old(self).fed()) == old(self).fed().len()),
            bytes@.len() > 0 ==> final(self).fed() == old(self).fed() + bytes@,
            bytes@.len() == 0 ==> final(self).fed() == old(self).fed() && final(self).clean()
                == old(self).clean(),
            bytes@.len() > 0 ==> ({
                let all = old(self).pending() + bytes@;
                let end = complete_prefix(all);
                match decoded(all.subrange(0, end)) {
                    Ok(text) => final(self).stage() == Relay::Write && final(self).text_view()
                        == text && final(self).pending() == all.subrange(end, all.len() as int),
                    Err(e) => final(self).stage() == Relay::Failed(e),
                }
            }),
    {
        if bytes.len() == 0 {
            proof {
                lemma_complete_len_bounds(self.decoder.fed(), 0);
            }
            self.stage = match self.decoder.finish() {
                Ok(()) => Relay::Done,
                Err(e) => Relay::Failed(e),
            };
        } else {
            match self.decoder.push(bytes) {
                Ok(t) => {
                    self.text = t;
                    self.stage = Relay::Write;
                },
                Err(e) => {
                    self.stage = Relay::Failed(e);
                },
            }
        }
        self.history = Ghost(self.history@.push(RelayStep::ReadMore));
    }

    /// The text to write now.
    pub fn text(&self) -> (t: &str)
        ensures
            t@ == self.text_view(),
    {
        self.text.as_str()
    }

    /// The text was written.
    pub fn written(&mut self)
        requires
            old(self).wf(),
            old(self).stage() == Relay::Write,
        ensures
            final(self).wf(),
            final(self).stage() == Relay::Flush,
            final(self).pending() == old(self).pending(),
            final(self).fed() == old(self).fed(),
            final(self).clean() == old(self).clean(),
            final(self).history() == old(self).history().push(RelayStep::WriteText),
    {
        self.stage = Relay::Flush;
        self.history = Ghost(self.history@.push(RelayStep::WriteText));
    }

    /// The console was flushed.
    pub fn flushed(&mut self)
        requires
            old(self).wf(),
            old(self).stage() == Relay::Flush,
        ensures
            final(self).wf(),
            final(self).stage() == Relay::Read,
            final(self).pending() == old(self).pending(),
            final(self).fed() == old(self).fed(),
            final(self).clean() == old(self).clean(),
            final(self).history() == old(self).history().push(RelayStep::Flush),
    {
        self.stage = Relay::Read;
        self.history = Ghost(self.history@.push(RelayStep::Flush));
    }

    /// How forwarding ended.
    pub fn finish(self) -> (r: Result<(), DecodeError>)
        requires
            self.stage() == Relay::Done || self.stage() is Failed,
        ensures
            match self.stage() {
                Relay::Failed(e) => r == Err::<(), DecodeError>(e),
                _ => r is Ok,
            },
    {
        match self.stage {
            Relay::Failed(e) => Err(e),
            _ => Ok(()),
        }
    }
}

} // verus!
