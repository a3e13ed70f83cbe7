//! Bytes, text and decimal numbers: the small pieces of `str` and number
//! handling that the rest of the library states its contracts with.

use vstd::prelude::*;
use vstd::utf8::*;
use vstd::string::{StrSliceExecFns, StringSliceAdditionalSpecFns};

verus! {

/// The bytes of a text made of ASCII characters.
pub open spec fn ascii(s: Seq<char>) -> Seq<u8> {
    s.map_values(|c: char| c as u8)
}

pub open spec fn is_digit(c: u8) -> bool {
    48 <= c <= 57
}

/// A non-empty run of ASCII digits.
pub open spec fn all_digits(s: Seq<u8>) -> bool {
    s.len() > 0 && forall|i: int| 0 <= i < s.len() ==> is_digit(#[trigger] s[i])
}

/// The number that a run of decimal digits spells.
pub open spec fn decimal_value(s: Seq<u8>) -> int
    decreases s.len(),
{
    if s.len() == 0 {
        0
    } else {
        decimal_value(s.drop_last()) * 10 + (s.last() - 48)
    }
}

/// The shortest decimal spelling of `n`.
pub open spec fn decimal_digits(n: nat) -> Seq<u8>
    decreases n,
{
    if n < 10 {
        seq![(48 + n) as u8]
    } else {
        decimal_digits(n / 10) + seq![(48 + n % 10) as u8]
    }
}

/// What `str::parse` gives for an unsigned type whose largest value is `max`:
/// an optional `+`, then at least one digit, and the value must fit.
pub open spec fn parse_unsigned(s: Seq<u8>, max: int) -> Option<int> {
    let digits = if s.len() > 0 && s[0] == 43 {
        s.subrange(1, s.len() as int)
    } else {
        s
    };
    if all_digits(digits) && decimal_value(digits) <= max {
        Some(decimal_value(digits))
    } else {
        None
    }
}

pub proof fn lemma_encode_utf8_concat(a: Seq<char>, c: Seq<char>)
    ensures
        encode_utf8(a + c) == encode_utf8(a) + encode_utf8(c),
    decreases a.len(),
{
    if a.len() == 0 {
        assert(a + c =~= c);
        assert(encode_utf8(a) =~= Seq::<u8>::empty());
        assert(encode_utf8(a) + encode_utf8(c) =~= encode_utf8(c));
    } else {
        assert((a + c)[0] == a[0]);
        assert((a + c).drop_first() =~= a.drop_first() + c);
        lemma_encode_utf8_concat(a.drop_first(), c);
        assert(encode_utf8(a + c) =~= encode_utf8(a) + encode_utf8(c));
    }
}

/// Spelling a number in decimal and reading it back gives the number again.
pub proof fn lemma_decimal_round_trip(n: nat)
    ensures
        all_digits(decimal_digits(n)),
        decimal_value(decimal_digits(n)) == n,
    decreases n,
{
    if n < 10 {
        let d = decimal_digits(n);
        assert(d.drop_last() =~= Seq::<u8>::empty());
        assert(d.last() == (48 + n) as u8);
        assert(decimal_value(d) == decimal_value(d.drop_last()) * 10 + (d.last() - 48));
        assert(decimal_value(d.drop_last()) == 0);
        assert(decimal_value(d) == n);
    } else {
        lemma_decimal_round_trip(n / 10);
        let d = decimal_digits(n);
        assert(d.drop_last() =~= decimal_digits(n / 10));
        assert(d.last() == (48 + n % 10) as u8);
        assert(d.last() - 48 == n % 10);
        assert(n == (n / 10) * 10 + n % 10);
        assert(decimal_value(d) == decimal_value(d.drop_last()) * 10 + (d.last() - 48));
        assert(decimal_value(d.drop_last()) == n / 10);
        assert(decimal_value(d) == n);
        assert forall|i: int| 0 <= i < d.len() implies is_digit(#[trigger] d[i]) by {
            if i < d.len() - 1 {
                assert(d[i] == decimal_digits(n / 10)[i]);
            }
        }
    }
}

/// Reading more digits never gives a smaller number.
pub proof fn lemma_decimal_value_grows(s: Seq<u8>, i: int, j: int)
    requires
        0 <= i <= j <= s.len(),
        forall|k: int| 0 <= k < s.len() ==> is_digit(#[trigger] s[k]),
    ensures
        decimal_value(s.subrange(0, i)) <= decimal_value(s.subrange(0, j)),
    decreases j - i,
{
    if i < j {
        lemma_decimal_value_grows(s, i, j - 1);
        assert(s.subrange(0, j).drop_last() =~= s.subrange(0, j - 1));
        assert(decimal_value(s.subrange(0, j - 1)) >= 0) by {
            lemma_decimal_value_nonneg(s.subrange(0, j - 1));
        }
    }
}

pub proof fn lemma_decimal_value_nonneg(s: Seq<u8>)
    requires
        forall|k: int| 0 <= k < s.len() ==> is_digit(#[trigger] s[k]),
    ensures
        decimal_value(s) >= 0,
    decreases s.len(),
{
    if s.len() > 0 {
        lemma_decimal_value_nonneg(s.drop_last());
    }
}

/// Appends an ASCII text; the bytes of the whole grow by its bytes.
pub fn append_ascii(out: &mut String, text: &str)
    requires
        vstd::string::is_ascii(text),
    ensures
        encode_utf8(final(out)@) == encode_utf8(old(out)@) + ascii(text@),
{
    proof {
        vstd::string::is_ascii_spec_bytes(text);
        lemma_encode_utf8_concat(out@, text@);
        assert(text.spec_bytes() =~= ascii(text@));
    }
    out.append(text);
}

/// Appends a text; the bytes of the whole grow by its bytes.
pub fn append_str(out: &mut String, text: &str)
    ensures
        encode_utf8(final(out)@) == encode_utf8(old(out)@) + text.spec_bytes(),
{
    proof {
        lemma_encode_utf8_concat(out@, text@);
    }
    out.append(text);
}

/// `std::str::from_utf8`: the text of the bytes when they are valid UTF-8.
/// Its documentation says that it fails exactly when they are not.
#[verifier::external_body]
pub(crate) fn utf8_text(bytes: &[u8]) -> (r: Option<&str>)
    ensures
        match r {
            Some(s) => s.spec_bytes() == bytes@,
            None => !valid_utf8(bytes@),
        },
{
    std::str::from_utf8(bytes).ok()
}

/// The one-character text of a decimal digit.
fn digit_text(d: u64) -> (r: &'static str)
    requires
        d < 10,
    ensures
        vstd::string::is_ascii(r),
        ascii(r@) == seq![(48 + d) as u8],
{
    proof {
        reveal_strlit("0");
        reveal_strlit("1");
        reveal_strlit("2");
        reveal_strlit("3");
        reveal_strlit("4");
        reveal_strlit("5");
        reveal_strlit("6");
        reveal_strlit("7");
        reveal_strlit("8");
        reveal_strlit("9");
    }
    let r = if d == 0 {
        "0"
    } else if d == 1 {
        "1"
    } else if d == 2 {
        "2"
    } else if d == 3 {
        "3"
    } else if d == 4 {
        "4"
    } else if d == 5 {
        "5"
    } else if d == 6 {
        "6"
    } else if d == 7 {
        "7"
    } else if d == 8 {
        "8"
    } else {
        "9"
    };
    assert(ascii(r@) =~= seq![(48 + d) as u8]);
    r
}

/// `u64::to_string`: the decimal spelling of `n`.
pub fn decimal_string(n: u64) -> (r: String)
    ensures
        encode_utf8(r@) == decimal_digits(n as nat),
    decreases n,
{
    if n < 10 {
        let mut s = String::new();
        assert(encode_utf8(s@) =~= Seq::<u8>::empty());
        append_ascii(&mut s, digit_text(n));
        assert(encode_utf8(s@) =~= decimal_digits(n as nat));
        s
    } else {
        let mut s = decimal_string(n / 10);
        append_ascii(&mut s, digit_text(n % 10));
        s
    }
}

/// Whether two texts are the same, compared byte by byte.
pub fn text_eq(a: &str, b: &str) -> (r: bool)
    ensures
        r == (a@ == b@),
{
    let x = a.as_bytes();
    let y = b.as_bytes();
    proof {
        encode_utf8_decode_utf8(a@);
        encode_utf8_decode_utf8(b@);
    }
    if x.len() != y.len() {
        return false;
    }
    let mut i: usize = 0;
    while i < x.len()
        invariant
            x.len() == y.len(),
            x@ == a.spec_bytes(),
            y@ == b.spec_bytes(),
            i <= x.len(),
            forall|k: int| 0 <= k < i ==> x@[k] == y@[k],
        decreases x.len() - i,
    {
        if x[i] != y[i] {
            assert(x@[i as int] != y@[i as int]);
            assert(x@ != y@);
            assert(x@ == encode_utf8(a@));
            assert(y@ == encode_utf8(b@));
            return false;
        }
        i = i + 1;
    }
    assert(x@ =~= y@);
    true
}

pub fn all_digits_exec(s: &[u8]) -> (r: bool)
    ensures
        r == all_digits(s@),
{
    if s.len() == 0 {
        return false;
    }
    let mut i: usize = 0;
    while i < s.len()
        invariant
            i <= s.len(),
            forall|k: int| 0 <= k < i ==> is_digit(#[trigger] s@[k]),
        decreases s.len() - i,
    {
        if s[i] < 48 || s[i] > 57 {
            return false;
        }
        i = i + 1;
    }
    true
}

/// `str::parse::<u64>` on the bytes of a text.
pub fn parse_u64(s: &[u8]) -> (r: Option<u64>)
    ensures
        r matches Some(v) ==> parse_unsigned(s@, u64::MAX as int) == Some(v as int),
        r is None ==> parse_unsigned(s@, u64::MAX as int) is None,
{
    let start: usize = if s.len() > 0 && s[0] == 43 {
        1
    } else {
        0
    };
    let ghost digits = s@.subrange(start as int, s.len() as int);
    assert(start == 0 ==> digits =~= s@);
    if start == s.len() {
        return None;
    }
    let mut value: u64 = 0;
    let mut i = start;
    while i < s.len()
        invariant
            start <= i <= s.len(),
            start < s.len(),
            start == (if s.len() > 0 && s@[0] == 43 { 1int } else { 0int }),
            digits == s@.subrange(start as int, s.len() as int),
            start == 0 ==> digits == s@,
            forall|k: int| start <= k < i ==> is_digit(#[trigger] s@[k]),
            value == decimal_value(digits.subrange(0, i - start)),
        decreases s.len() - i,
    {
        let c = s[i];
        if c < 48 || c > 57 {
            assert(!is_digit(digits[i - start]));
            return None;
        }
        assert(digits.subrange(0, i + 1 - start).drop_last() =~= digits.subrange(0, i - start));
        assert(decimal_value(digits.subrange(0, i + 1 - start)) == value * 10 + (c - 48));
        match value.checked_mul(10) {
            None => {
                proof {
                    lemma_value_overflow(s@, start as int, i as int);
                }
                return None;
            },
            Some(times_ten) => match times_ten.checked_add((c - 48) as u64) {
                None => {
                    proof {
                        lemma_value_overflow(s@, start as int, i as int);
                    }
                    return None;
                },
                Some(next) => {
                    value = next;
                },
            },
        }
        i = i + 1;
    }
    assert(digits.subrange(0, s.len() - start) =~= digits);
    Some(value)
}

/// Once a prefix of the digits spells a number above `u64::MAX`, reading on
/// cannot bring it back: the whole text does not parse.
proof fn lemma_value_overflow(s: Seq<u8>, start: int, i: int)
    requires
        start == (if s.len() > 0 && s[0] == 43 { 1int } else { 0int }),
        0 <= start <= i < s.len(),
        decimal_value(s.subrange(start, s.len() as int).subrange(0, i + 1 - start)) > u64::MAX,
    ensures
        parse_unsigned(s, u64::MAX as int) is None,
{
    let digits = s.subrange(start, s.len() as int);
    assert(start == 0 ==> digits =~= s);
    if all_digits(digits) {
        lemma_decimal_value_grows(digits, i + 1 - start, digits.len() as int);
        assert(digits.subrange(0, digits.len() as int) =~= digits);
    }
}

/// `char::is_whitespace`: the characters with the Unicode property White_Space.
pub open spec fn is_white_space(c: char) -> bool {
    let v = c as u32;
    ||| 0x9 <= v <= 0xd
    ||| v == 0x20
    ||| v == 0x85
    ||| v == 0xa0
    ||| v == 0x1680
    ||| 0x2000 <= v <= 0x200a
    ||| v == 0x2028
    ||| v == 0x2029
    ||| v == 0x202f
    ||| v == 0x205f
    ||| v == 0x3000
}

/// Where the text starts once the white space before it is skipped.
pub open spec fn skip_space(s: Seq<char>, i: int) -> int
    decreases s.len() - i,
{
    if 0 <= i < s.len() && is_white_space(s[i]) {
        skip_space(s, i + 1)
    } else {
        i
    }
}

/// Where the text ends once the white space after it (down to `lo`) is dropped.
pub open spec fn back_space(s: Seq<char>, lo: int, j: int) -> int
    decreases j - lo,
{
    if lo < j && j <= s.len() && is_white_space(s[j - 1]) {
        back_space(s, lo, j - 1)
    } else {
        j
    }
}

/// `str::trim`: the text without white space at either end.
pub open spec fn trimmed(s: Seq<char>) -> Seq<char> {
    let a = skip_space(s, 0);
    s.subrange(a, back_space(s, a, s.len() as int))
}

fn is_space_char(c: char) -> (r: bool)
    ensures
        r == is_white_space(c),
{
    let v = c as u32;
    (0x9 <= v && v <= 0xd) || v == 0x20 || v == 0x85 || v == 0xa0 || v == 0x1680 || (0x2000 <= v
        && v <= 0x200a) || v == 0x2028 || v == 0x2029 || v == 0x202f || v == 0x205f || v == 0x3000
}

/// Where `str::trim` cuts the text: the first and the last character kept.
pub fn trim_range(value: &str) -> (r: (usize, usize))
    ensures
        r.0 == skip_space(value@, 0),
        r.1 == back_space(value@, r.0 as int, value@.len() as int),
        r.0 <= r.1 <= value@.len(),
        trimmed(value@) == value@.subrange(r.0 as int, r.1 as int),
{
    let n = value.unicode_len();
    let mut a: usize = 0;
    while a < n && is_space_char(value.get_char(a))
        invariant
            n == value@.len(),
            a <= n,
            skip_space(value@, 0) == skip_space(value@, a as int),
        decreases n - a,
    {
        a = a + 1;
    }
    let mut b: usize = n;
    while a < b && is_space_char(value.get_char(b - 1))
        invariant
            n == value@.len(),
            a <= b <= n,
            a == skip_space(value@, 0),
            back_space(value@, a as int, n as int) == back_space(value@, a as int, b as int),
        decreases b,
    {
        b = b - 1;
    }
    (a, b)
}

} // verus!
