//! Reading an edited configuration again: replacing the game's
//! `CloudEnabled` value changes that one token and moves the ones after it,
//! and nothing else in how the text splits into tokens.

use vstd::prelude::*;
use crate::vdf::{
    comment_end, has_bom, is_space, lemma_comment_end_bounds, lemma_line_end_bounds,
    lemma_quote_end_bounds, lemma_word_end_bounds, lex, line_end, pair_at, prepend_token,
    prepend_tokens, quote_end, unescape, word_continues, word_end, SpecToken, SpecTokenKind,
    SpecVdfError, BACKSLASH, CLOSE_BRACE, LF, OPEN_BRACE, QUOTE, SLASH, STAR,
};

verus! {

// ---------------------------------------------------------------------------
// One step of the lexer
// ---------------------------------------------------------------------------

/// Where the lexer goes on after its step at `i`; nothing when the step fails.
pub open spec fn step_next(b: Seq<u8>, i: int) -> Option<int> {
    if i < 0 || i >= b.len() {
        None
    } else if is_space(b[i]) {
        Some(i + 1)
    } else if pair_at(b, i, SLASH, SLASH) {
        Some(line_end(b, i + 2))
    } else if pair_at(b, i, SLASH, STAR) {
        match comment_end(b, i + 2) {
            Some(k) => Some(k + 2),
            None => None,
        }
    } else if b[i] == OPEN_BRACE || b[i] == CLOSE_BRACE {
        Some(i + 1)
    } else if b[i] == QUOTE {
        match quote_end(b, i + 1) {
            Some(k) => if unescape(b.subrange(i + 1, k)) is Some {
                Some(k + 1)
            } else {
                None
            },
            None => None,
        }
    } else {
        Some(word_end(b, i))
    }
}

/// The tokens that the lexer's step at `i` gives: none for white space and
/// comments, one otherwise.
pub open spec fn step_tokens(b: Seq<u8>, i: int) -> Seq<SpecToken> {
    if i < 0 || i >= b.len() || is_space(b[i]) || pair_at(b, i, SLASH, SLASH) || pair_at(
        b,
        i,
        SLASH,
        STAR,
    ) {
        seq![]
    } else if b[i] == OPEN_BRACE {
        seq![SpecToken { kind: SpecTokenKind::Open, start: i, end: i + 1 }]
    } else if b[i] == CLOSE_BRACE {
        seq![SpecToken { kind: SpecTokenKind::Close, start: i, end: i + 1 }]
    } else if b[i] == QUOTE {
        match quote_end(b, i + 1) {
            Some(k) => match unescape(b.subrange(i + 1, k)) {
                Some(text) => seq![
                    SpecToken { kind: SpecTokenKind::Word { text, quoted: true }, start: i, end: k + 1 },
                ],
                None => seq![],
            },
            None => seq![],
        }
    } else {
        seq![
            SpecToken {
                kind: SpecTokenKind::Word { text: b.subrange(i, word_end(b, i)), quoted: false },
                start: i,
                end: word_end(b, i),
            },
        ]
    }
}

pub proof fn lemma_step_forward(b: Seq<u8>, i: int)
    requires
        0 <= i < b.len(),
    ensures
        step_next(b, i) matches Some(n) ==> i < n <= b.len(),
        step_next(b, i) is None ==> lex(b, i) is Err,
        step_next(b, i) matches Some(n) ==> lex(b, i) == prepend_tokens(step_tokens(b, i), lex(b, n)),
{
    if is_space(b[i]) {
        assert(prepend_tokens(seq![], lex(b, i + 1)) == lex(b, i + 1)) by {
            if let Ok(ts) = lex(b, i + 1) {
                assert(Seq::<SpecToken>::empty() + ts =~= ts);
            }
        }
    } else if pair_at(b, i, SLASH, SLASH) {
        lemma_line_end_bounds(b, i + 2);
        let n = line_end(b, i + 2);
        assert(prepend_tokens(seq![], lex(b, n)) == lex(b, n)) by {
            if let Ok(ts) = lex(b, n) {
                assert(Seq::<SpecToken>::empty() + ts =~= ts);
            }
        }
    } else if pair_at(b, i, SLASH, STAR) {
        lemma_comment_end_bounds(b, i + 2);
        if let Some(k) = comment_end(b, i + 2) {
            assert(prepend_tokens(seq![], lex(b, k + 2)) == lex(b, k + 2)) by {
                if let Ok(ts) = lex(b, k + 2) {
                    assert(Seq::<SpecToken>::empty() + ts =~= ts);
                }
            }
        }
    } else if b[i] == OPEN_BRACE || b[i] == CLOSE_BRACE {
    } else if b[i] == QUOTE {
        lemma_quote_end_bounds(b, i + 1);
    } else {
        lemma_word_end_bounds(b, i);
    }
}

// ---------------------------------------------------------------------------
// Following the lexer from one position to another
// ---------------------------------------------------------------------------

/// The lexer, started at `i`, comes to position `p` at the start of a step.
pub open spec fn reaches(b: Seq<u8>, i: int, p: int) -> bool
    decreases p - i,
{
    if i == p {
        true
    } else if i > p {
        false
    } else {
        match step_next(b, i) {
            Some(n) => i < n <= p && reaches(b, n, p),
            None => false,
        }
    }
}

/// The tokens that the lexer gives on its way from `i` to `p`.
pub open spec fn passed(b: Seq<u8>, i: int, p: int) -> Seq<SpecToken>
    decreases p - i,
{
    if i >= p {
        seq![]
    } else {
        match step_next(b, i) {
            Some(n) => if i < n <= p {
                step_tokens(b, i) + passed(b, n, p)
            } else {
                seq![]
            },
            None => seq![],
        }
    }
}

/// On its way to `p`, the lexer gives the tokens passed, then those from `p` on.
pub proof fn lemma_reaches_splits(b: Seq<u8>, i: int, p: int)
    requires
        0 <= i,
        reaches(b, i, p),
        p <= b.len(),
    ensures
        lex(b, i) == prepend_tokens(passed(b, i, p), lex(b, p)),
    decreases p - i,
{
    if i == p {
        assert(prepend_tokens(seq![], lex(b, p)) == lex(b, p)) by {
            if let Ok(ts) = lex(b, p) {
                assert(Seq::<SpecToken>::empty() + ts =~= ts);
            }
        }
    } else {
        let n = step_next(b, i)->Some_0;
        lemma_step_forward(b, i);
        lemma_reaches_splits(b, n, p);
        assert(prepend_tokens(step_tokens(b, i), prepend_tokens(passed(b, n, p), lex(b, p)))
            == prepend_tokens(step_tokens(b, i) + passed(b, n, p), lex(b, p))) by {
            if let Ok(ts) = lex(b, p) {
                assert(step_tokens(b, i) + (passed(b, n, p) + ts) =~= (step_tokens(b, i) + passed(
                    b,
                    n,
                    p,
                )) + ts);
            }
        }
    }
}

/// The tokens from `i` on lie after `i`, in order, each non-empty.
pub proof fn lemma_lex_ordered(b: Seq<u8>, i: int)
    requires
        0 <= i,
    ensures
        lex(b, i) matches Ok(ts) ==> (forall|j: int|
            0 <= j < ts.len() ==> i <= #[trigger] ts[j].start < ts[j].end <= b.len()) && (forall|
            j: int,
            l: int,
        | 0 <= j < l < ts.len() ==> #[trigger] ts[j].end <= #[trigger] ts[l].start),
    decreases b.len() - i,
{
    if i < b.len() {
        lemma_step_forward(b, i);
        if let Some(n) = step_next(b, i) {
            lemma_lex_ordered(b, n);
            if let Ok(rest) = lex(b, n) {
                let st = step_tokens(b, i);
                let ts = st + rest;
                if st.len() == 1 {
                    if b[i] == QUOTE {
                        lemma_quote_end_bounds(b, i + 1);
                    } else if b[i] != OPEN_BRACE && b[i] != CLOSE_BRACE {
                        lemma_word_end_bounds(b, i);
                    }
                    assert(st[0].start == i && st[0].end == n);
                }
                assert forall|j: int| 0 <= j < ts.len() implies i <= #[trigger] ts[j].start
                    < ts[j].end <= b.len() by {
                    if j >= st.len() {
                        assert(ts[j] == rest[j - st.len()]);
                    }
                }
                assert forall|j: int, l: int| 0 <= j < l < ts.len() implies #[trigger] ts[j].end
                    <= #[trigger] ts[l].start by {
                    assert(ts[l] == rest[l - st.len()]);
                    if j >= st.len() {
                        assert(ts[j] == rest[j - st.len()]);
                    }
                }
            }
        }
    }
}

/// Every token of the lexer's output is a place that the lexer comes to, and
/// the tokens before it are exactly those passed on the way.
pub proof fn lemma_token_reached(b: Seq<u8>, i: int, k: int)
    requires
        0 <= i,
        lex(b, i) is Ok,
        0 <= k < lex(b, i)->Ok_0.len(),
    ensures
        reaches(b, i, lex(b, i)->Ok_0[k].start),
        passed(b, i, lex(b, i)->Ok_0[k].start) == lex(b, i)->Ok_0.subrange(0, k),
    decreases b.len() - i,
{
    let ts = lex(b, i)->Ok_0;
    let p = ts[k].start;
    lemma_lex_ordered(b, i);
    lemma_step_forward(b, i);
    let n = step_next(b, i)->Some_0;
    let st = step_tokens(b, i);
    let rest = lex(b, n)->Ok_0;
    assert(ts == st + rest);
    lemma_lex_ordered(b, n);
    if st.len() == 0 {
        assert(ts =~= rest);
        lemma_token_reached(b, n, k);
        assert(st + passed(b, n, p) =~= passed(b, n, p));
    } else {
        if b[i] == QUOTE {
            lemma_quote_end_bounds(b, i + 1);
        } else if b[i] != OPEN_BRACE && b[i] != CLOSE_BRACE {
            lemma_word_end_bounds(b, i);
        }
        assert(st.len() == 1 && st[0].start == i);
        if k == 0 {
            assert(ts.subrange(0, 0) =~= Seq::<SpecToken>::empty());
        } else {
            assert(ts[k] == rest[k - 1]);
            lemma_token_reached(b, n, k - 1);
            assert(st + rest.subrange(0, k - 1) =~= ts.subrange(0, k));
        }
    }
}

// ---------------------------------------------------------------------------
// What the lexer refuses, and what its tokens are
// ---------------------------------------------------------------------------

/// At `p` starts a comment or a string that the lexer cannot finish: a `/*`
/// with no `*/` after it, a quote with no closing quote, or a quoted string
/// that ends inside an escape; `e` is the error for it.
pub open spec fn unclosed_at(b: Seq<u8>, p: int, e: SpecVdfError) -> bool {
    ||| e == SpecVdfError::UnterminatedComment && pair_at(b, p, SLASH, STAR) && comment_end(
        b,
        p + 2,
    ) is None
    ||| e == SpecVdfError::UnterminatedString && b[p] == QUOTE && quote_end(b, p + 1) is None
    ||| e == SpecVdfError::IncompleteEscape && b[p] == QUOTE && quote_end(b, p + 1) is Some
        && unescape(b.subrange(p + 1, quote_end(b, p + 1)->0)) is None
}

proof fn lemma_step_fails(b: Seq<u8>, p: int)
    requires
        0 <= p < b.len(),
    ensures
        step_next(b, p) is None ==> (lex(b, p) matches Err(e) && unclosed_at(b, p, e)),
        forall|e: SpecVdfError| #[trigger] unclosed_at(b, p, e) ==> lex(b, p) == Err::<
            Seq<SpecToken>,
            SpecVdfError,
        >(e),
{
    lemma_comment_end_bounds(b, p + 2);
    lemma_quote_end_bounds(b, p + 1);
}

/// The lexer, started at `i`, refuses the text exactly when, at a place it
/// comes to (outside every string and comment), a comment or a string
/// starts that cannot be finished; the error says which.
pub proof fn law_lex_errors(b: Seq<u8>, i: int)
    requires
        0 <= i <= b.len(),
    ensures
        lex(b, i) matches Err(e) ==> exists|p: int|
            0 <= p < b.len() && #[trigger] reaches(b, i, p) && unclosed_at(b, p, e),
        forall|p: int, e: SpecVdfError|
            0 <= p < b.len() && #[trigger] reaches(b, i, p) && #[trigger] unclosed_at(b, p, e)
                ==> lex(b, i) == Err::<Seq<SpecToken>, SpecVdfError>(e),
    decreases b.len() - i,
{
    if i < b.len() {
        lemma_step_forward(b, i);
        lemma_step_fails(b, i);
        match step_next(b, i) {
            None => {
                assert(reaches(b, i, i));
            },
            Some(n) => {
                law_lex_errors(b, n);
                if let Err(e) = lex(b, i) {
                    let p = choose|p: int|
                        0 <= p < b.len() && #[trigger] reaches(b, n, p) && unclosed_at(b, p, e);
                    assert(reaches(b, i, p));
                }
            },
        }
    }
    assert forall|p: int, e: SpecVdfError|
        0 <= p < b.len() && #[trigger] reaches(b, i, p) && #[trigger] unclosed_at(b, p, e)
            implies lex(b, i) == Err::<Seq<SpecToken>, SpecVdfError>(e) by {
        lemma_reaches_splits(b, i, p);
        lemma_step_fails(b, p);
    }
}

/// A token holds what it says it holds: a brace is that one byte, an
/// unquoted word is its bytes, and a quoted word spans its two quotes with
/// the unescaped bytes between them.
pub open spec fn token_fits(b: Seq<u8>, t: SpecToken) -> bool {
    &&& 0 <= t.start < t.end <= b.len()
    &&& match t.kind {
        SpecTokenKind::Open => t.end == t.start + 1 && b[t.start] == OPEN_BRACE,
        SpecTokenKind::Close => t.end == t.start + 1 && b[t.start] == CLOSE_BRACE,
        SpecTokenKind::Word { text, quoted } => if quoted {
            &&& t.end - t.start >= 2
            &&& b[t.start] == QUOTE
            &&& b[t.end - 1] == QUOTE
            &&& unescape(b.subrange(t.start + 1, t.end - 1)) == Some(text)
        } else {
            &&& b[t.start] != QUOTE
            &&& text == b.subrange(t.start, t.end)
        },
    }
}

proof fn lemma_lex_tokens_fit(b: Seq<u8>, i: int)
    requires
        0 <= i,
    ensures
        lex(b, i) matches Ok(ts) ==> forall|j: int| 0 <= j < ts.len() ==> token_fits(b, #[trigger] ts[j]),
    decreases b.len() - i,
{
    if i < b.len() {
        lemma_step_forward(b, i);
        if let Some(n) = step_next(b, i) {
            lemma_lex_tokens_fit(b, n);
            if let Ok(rest) = lex(b, n) {
                let st = step_tokens(b, i);
                let ts = st + rest;
                if st.len() == 1 {
                    if b[i] == QUOTE {
                        lemma_quote_end_bounds(b, i + 1);
                    } else if b[i] != OPEN_BRACE && b[i] != CLOSE_BRACE {
                        lemma_word_end_bounds(b, i);
                    }
                    assert(token_fits(b, st[0]));
                }
                assert forall|j: int| 0 <= j < ts.len() implies token_fits(b, #[trigger] ts[j]) by {
                    if j >= st.len() {
                        assert(ts[j] == rest[j - st.len()]);
                    }
                }
            }
        }
    }
}

/// The tokens of a text lie after its byte order mark, in order, without
/// overlapping, and each holds what it says it holds (see `token_fits`).
pub proof fn law_token_structure(b: Seq<u8>)
    ensures
        crate::vdf::tokens_of(b) matches Ok(ts) ==> {
            &&& forall|j: int|
                0 <= j < ts.len() ==> lex_start(b) <= #[trigger] ts[j].start && token_fits(b, ts[j])
            &&& forall|j: int, l: int|
                0 <= j < l < ts.len() ==> #[trigger] ts[j].end <= #[trigger] ts[l].start
        },
{
    lemma_lex_ordered(b, lex_start(b));
    lemma_lex_tokens_fit(b, lex_start(b));
}

// ---------------------------------------------------------------------------
// The same prefix is read the same way
// ---------------------------------------------------------------------------

/// `c` holds the bytes of `b` before `p`; at `p`, `b` does not end a line
/// comment, and `c` holds a byte that neither ends a word of `b` differently
/// nor continues a slash into a comment.
pub open spec fn same_before(b: Seq<u8>, c: Seq<u8>, p: int) -> bool {
    &&& 0 <= p < b.len()
    &&& p < c.len()
    &&& forall|x: int| 0 <= x < p ==> b[x] == c[x]
    &&& b[p] != LF
    &&& c[p] != SLASH
    &&& c[p] != STAR
    &&& word_continues(b, p) == word_continues(c, p)
}

proof fn lemma_line_end_agree(b: Seq<u8>, c: Seq<u8>, j: int, p: int)
    requires
        0 <= j,
        line_end(b, j) < p,
        p <= b.len(),
        p <= c.len(),
        forall|x: int| 0 <= x < p ==> b[x] == c[x],
    ensures
        line_end(c, j) == line_end(b, j),
    decreases b.len() - j,
{
    if j < b.len() {
        lemma_line_end_bounds(b, j);
        assert(c[j] == b[j]);
        if b[j] != LF {
            lemma_line_end_agree(b, c, j + 1, p);
        }
    }
}

proof fn lemma_comment_end_agree(b: Seq<u8>, c: Seq<u8>, j: int, p: int)
    requires
        0 <= j,
        comment_end(b, j) matches Some(k) && k + 1 < p,
        p <= b.len(),
        p <= c.len(),
        forall|x: int| 0 <= x < p ==> b[x] == c[x],
    ensures
        comment_end(c, j) == comment_end(b, j),
    decreases b.len() - j,
{
    lemma_comment_end_bounds(b, j);
    if !pair_at(b, j, STAR, SLASH) {
        lemma_comment_end_agree(b, c, j + 1, p);
    }
}

proof fn lemma_quote_end_agree(b: Seq<u8>, c: Seq<u8>, j: int, p: int)
    requires
        0 <= j,
        quote_end(b, j) matches Some(k) && k < p,
        p <= b.len(),
        p <= c.len(),
        forall|x: int| 0 <= x < p ==> b[x] == c[x],
    ensures
        quote_end(c, j) == quote_end(b, j),
    decreases b.len() + 1 - j,
{
    lemma_quote_end_bounds(b, j);
    if b[j] != QUOTE {
        if b[j] == BACKSLASH {
            lemma_quote_end_agree(b, c, j + 2, p);
        } else {
            lemma_quote_end_agree(b, c, j + 1, p);
        }
    }
}

proof fn lemma_word_end_agree(b: Seq<u8>, c: Seq<u8>, j: int)
    requires
        0 <= j <= b.len(),
        forall|x: int| j <= x <= word_end(b, j) ==> word_continues(b, x) == word_continues(c, x),
    ensures
        word_end(c, j) == word_end(b, j),
    decreases b.len() - j,
{
    lemma_word_end_bounds(b, j);
    if word_continues(b, j) {
        lemma_word_end_bounds(b, j + 1);
        lemma_word_end_agree(b, c, j + 1);
    }
}

/// A bare word goes on through every position before its end.
pub proof fn lemma_word_end_inside(b: Seq<u8>, j: int, x: int)
    requires
        0 <= j <= x < word_end(b, j),
    ensures
        word_continues(b, x),
    decreases x - j,
{
    if j < x {
        lemma_word_end_inside(b, j + 1, x);
    }
}

/// Where `b` and `c` agree around `x`, a bare word goes on through `x` in
/// both or in neither.
proof fn lemma_word_continues_agree(b: Seq<u8>, c: Seq<u8>, x: int, p: int)
    requires
        0 <= x,
        x + 1 < p,
        p <= b.len(),
        p <= c.len(),
        forall|y: int| 0 <= y < p ==> b[y] == c[y],
    ensures
        word_continues(b, x) == word_continues(c, x),
{
}

/// A step of the lexer that ends at or before `p` reads only bytes before
/// `p`, and the byte at `p` as far as `same_before` fixes it.
proof fn lemma_step_agree(b: Seq<u8>, c: Seq<u8>, i: int, p: int)
    requires
        0 <= i < p,
        same_before(b, c, p),
        step_next(b, i) matches Some(n) && i < n <= p && reaches(b, n, p),
    ensures
        step_next(c, i) == step_next(b, i),
        step_tokens(c, i) == step_tokens(b, i),
{
    let n = step_next(b, i)->Some_0;
    // At `p - 1`, neither comment opener can stand in `b`: it would carry the
    // lexer past `p`.
    if i == p - 1 {
        if pair_at(b, i, SLASH, SLASH) {
            lemma_line_end_bounds(b, i + 2);
            assert(false);
        }
        if pair_at(b, i, SLASH, STAR) {
            lemma_comment_end_bounds(b, i + 2);
            assert(false);
        }
    }
    assert(is_space(c[i]) == is_space(b[i]));
    assert(pair_at(c, i, SLASH, SLASH) == pair_at(b, i, SLASH, SLASH));
    assert(pair_at(c, i, SLASH, STAR) == pair_at(b, i, SLASH, STAR));
    if is_space(b[i]) {
    } else if pair_at(b, i, SLASH, SLASH) {
        lemma_line_end_bounds(b, i + 2);
        lemma_line_end_agree(b, c, i + 2, p);
    } else if pair_at(b, i, SLASH, STAR) {
        lemma_comment_end_bounds(b, i + 2);
        lemma_comment_end_agree(b, c, i + 2, p);
    } else if b[i] == OPEN_BRACE || b[i] == CLOSE_BRACE {
    } else if b[i] == QUOTE {
        lemma_quote_end_bounds(b, i + 1);
        lemma_quote_end_agree(b, c, i + 1, p);
        let k = quote_end(b, i + 1)->Some_0;
        assert(b.subrange(i + 1, k) =~= c.subrange(i + 1, k));
    } else {
        lemma_word_end_bounds(b, i);
        let r = word_end(b, i);
        assert forall|x: int| i <= x <= r implies word_continues(b, x) == word_continues(c, x) by {
            if x + 1 < p {
                lemma_word_continues_agree(b, c, x, p);
            } else if x == p {
                // Given by `same_before`.
            } else {
                // x == p - 1: the byte at `p` matters only after a slash.
                assert(x == p - 1);
                if b[x] == SLASH && (b[p] == SLASH || b[p] == STAR) {
                    // `b` would read a comment opener at `p - 1`.
                    assert(!word_continues(b, x));
                    if x < r {
                        lemma_word_end_inside(b, i, x);
                        assert(false);
                    } else {
                        // The word ends at `p - 1` and the lexer's next step
                        // there opens a comment, which overruns `p`.
                        assert(n == p - 1);
                        assert(reaches(b, p - 1, p));
                        let n2 = step_next(b, p - 1)->Some_0;
                        assert(p - 1 < n2 <= p);
                        assert(!is_space(b[p - 1]));
                        if b[p] == SLASH {
                            assert(pair_at(b, p - 1, SLASH, SLASH));
                            lemma_line_end_bounds(b, p + 1);
                            assert(n2 == line_end(b, p + 1));
                        } else {
                            assert(pair_at(b, p - 1, SLASH, STAR));
                            lemma_comment_end_bounds(b, p + 1);
                        }
                        assert(false);
                    }
                }
            }
        }
        lemma_word_end_agree(b, c, i);
        assert(b.subrange(i, r) =~= c.subrange(i, r));
    }
}

/// A lexer that comes from `i` to `p` in `b` does the same in `c`.
pub proof fn lemma_reaches_agree(b: Seq<u8>, c: Seq<u8>, i: int, p: int)
    requires
        0 <= i,
        reaches(b, i, p),
        same_before(b, c, p),
    ensures
        reaches(c, i, p),
        passed(c, i, p) == passed(b, i, p),
    decreases p - i,
{
    if i < p {
        let n = step_next(b, i)->Some_0;
        lemma_step_agree(b, c, i, p);
        lemma_reaches_agree(b, c, n, p);
    }
}

// ---------------------------------------------------------------------------
// The same suffix is read the same way, wherever it stands
// ---------------------------------------------------------------------------

pub open spec fn shift_token(t: SpecToken, d: int) -> SpecToken {
    SpecToken { kind: t.kind, start: t.start + d, end: t.end + d }
}

pub open spec fn shift_tokens(ts: Seq<SpecToken>, d: int) -> Seq<SpecToken> {
    ts.map_values(|t: SpecToken| shift_token(t, d))
}

pub open spec fn shift_lexed(r: Result<Seq<SpecToken>, SpecVdfError>, d: int) -> Result<
    Seq<SpecToken>,
    SpecVdfError,
> {
    match r {
        Ok(ts) => Ok(shift_tokens(ts, d)),
        Err(e) => Err(e),
    }
}

/// From `i` in `b` and from `j` in `c` on, the two texts hold the same bytes.
pub open spec fn same_after(b: Seq<u8>, i: int, c: Seq<u8>, j: int) -> bool {
    &&& 0 <= i <= b.len()
    &&& 0 <= j <= c.len()
    &&& b.len() - i == c.len() - j
    &&& forall|x: int| 0 <= x < b.len() - i ==> #[trigger] b[i + x] == c[j + x]
}

proof fn lemma_same_after_at(b: Seq<u8>, i: int, c: Seq<u8>, j: int, y: int)
    requires
        same_after(b, i, c, j),
        i <= y < b.len(),
    ensures
        b[y] == c[y + (j - i)],
{
    assert(b[i + (y - i)] == c[j + (y - i)]);
}

proof fn lemma_line_end_shift(b: Seq<u8>, i: int, c: Seq<u8>, j: int, y: int)
    requires
        same_after(b, i, c, j),
        i <= y,
    ensures
        line_end(c, y + (j - i)) == line_end(b, y) + (j - i),
    decreases b.len() - y,
{
    if y < b.len() {
        lemma_same_after_at(b, i, c, j, y);
        if b[y] != LF {
            lemma_line_end_shift(b, i, c, j, y + 1);
        }
    }
}

proof fn lemma_comment_end_shift(b: Seq<u8>, i: int, c: Seq<u8>, j: int, y: int)
    requires
        same_after(b, i, c, j),
        i <= y,
    ensures
        comment_end(c, y + (j - i)) == match comment_end(b, y) {
            Some(k) => Some(k + (j - i)),
            None => None,
        },
    decreases b.len() - y,
{
    if y + 1 < b.len() {
        lemma_same_after_at(b, i, c, j, y);
        lemma_same_after_at(b, i, c, j, y + 1);
        if !pair_at(b, y, STAR, SLASH) {
            lemma_comment_end_shift(b, i, c, j, y + 1);
        }
    }
}

proof fn lemma_quote_end_shift(b: Seq<u8>, i: int, c: Seq<u8>, j: int, y: int)
    requires
        same_after(b, i, c, j),
        i <= y,
    ensures
        quote_end(c, y + (j - i)) == match quote_end(b, y) {
            Some(k) => Some(k + (j - i)),
            None => None,
        },
    decreases b.len() + 1 - y,
{
    if y < b.len() {
        lemma_same_after_at(b, i, c, j, y);
        if b[y] != QUOTE {
            if b[y] == BACKSLASH {
                lemma_quote_end_shift(b, i, c, j, y + 2);
            } else {
                lemma_quote_end_shift(b, i, c, j, y + 1);
            }
        }
    }
}

proof fn lemma_word_continues_shift(b: Seq<u8>, i: int, c: Seq<u8>, j: int, y: int)
    requires
        same_after(b, i, c, j),
        i <= y,
    ensures
        word_continues(c, y + (j - i)) == word_continues(b, y),
{
    if y < b.len() {
        lemma_same_after_at(b, i, c, j, y);
        if y + 1 < b.len() {
            lemma_same_after_at(b, i, c, j, y + 1);
        }
    }
}

proof fn lemma_word_end_shift(b: Seq<u8>, i: int, c: Seq<u8>, j: int, y: int)
    requires
        same_after(b, i, c, j),
        i <= y <= b.len(),
    ensures
        word_end(c, y + (j - i)) == word_end(b, y) + (j - i),
    decreases b.len() - y,
{
    lemma_word_continues_shift(b, i, c, j, y);
    if word_continues(b, y) {
        lemma_word_end_shift(b, i, c, j, y + 1);
    }
}

proof fn lemma_step_shift(b: Seq<u8>, i: int, c: Seq<u8>, j: int, y: int)
    requires
        same_after(b, i, c, j),
        i <= y < b.len(),
    ensures
        step_next(c, y + (j - i)) == match step_next(b, y) {
            Some(n) => Some(n + (j - i)),
            None => None,
        },
        step_tokens(c, y + (j - i)) == shift_tokens(step_tokens(b, y), j - i),
{
    let d = j - i;
    let z = y + d;
    lemma_same_after_at(b, i, c, j, y);
    if y + 1 < b.len() {
        lemma_same_after_at(b, i, c, j, y + 1);
    }
    assert(pair_at(c, z, SLASH, SLASH) == pair_at(b, y, SLASH, SLASH));
    assert(pair_at(c, z, SLASH, STAR) == pair_at(b, y, SLASH, STAR));
    if is_space(b[y]) {
        assert(shift_tokens(seq![], d) =~= Seq::<SpecToken>::empty());
    } else if pair_at(b, y, SLASH, SLASH) {
        lemma_line_end_shift(b, i, c, j, y + 2);
        assert(shift_tokens(seq![], d) =~= Seq::<SpecToken>::empty());
    } else if pair_at(b, y, SLASH, STAR) {
        lemma_comment_end_shift(b, i, c, j, y + 2);
        assert(shift_tokens(seq![], d) =~= Seq::<SpecToken>::empty());
    } else if b[y] == OPEN_BRACE || b[y] == CLOSE_BRACE {
        assert(shift_tokens(step_tokens(b, y), d) =~= step_tokens(c, z));
    } else if b[y] == QUOTE {
        lemma_quote_end_shift(b, i, c, j, y + 1);
        lemma_quote_end_bounds(b, y + 1);
        match quote_end(b, y + 1) {
            Some(k) => {
                assert forall|x: int| 0 <= x < k - (y + 1) implies #[trigger] b.subrange(y + 1, k)[x]
                    == c.subrange(z + 1, k + d)[x] by {
                    lemma_same_after_at(b, i, c, j, y + 1 + x);
                }
                assert(b.subrange(y + 1, k) =~= c.subrange(z + 1, k + d));
                assert(shift_tokens(step_tokens(b, y), d) =~= step_tokens(c, z));
            },
            None => {
                assert(shift_tokens(seq![], d) =~= Seq::<SpecToken>::empty());
            },
        }
    } else {
        lemma_word_end_shift(b, i, c, j, y);
        lemma_word_end_bounds(b, y);
        let k = word_end(b, y);
        assert forall|x: int| 0 <= x < k - y implies #[trigger] b.subrange(y, k)[x] == c.subrange(z, k + d)[x] by {
            lemma_same_after_at(b, i, c, j, y + x);
        }
        assert(b.subrange(y, k) =~= c.subrange(z, k + d));
        assert(shift_tokens(step_tokens(b, y), d) =~= step_tokens(c, z));
    }
}

/// The tokens of a text from a position on depend on the bytes from there
/// on only, and move with them.
pub proof fn lemma_lex_shift(b: Seq<u8>, i: int, c: Seq<u8>, j: int, y: int)
    requires
        same_after(b, i, c, j),
        i <= y <= b.len(),
    ensures
        lex(b, y) is Ok ==> lex(c, y + (j - i)) == shift_lexed(lex(b, y), j - i),
    decreases b.len() - y,
{
    let d = j - i;
    if y == b.len() {
        assert(shift_tokens(seq![], d) =~= Seq::<SpecToken>::empty());
    } else {
        lemma_step_shift(b, i, c, j, y);
        lemma_step_forward(b, y);
        lemma_step_forward(c, y + d);
        match step_next(b, y) {
            Some(n) => {
                lemma_lex_shift(b, i, c, j, n);
                if let Ok(ts) = lex(b, n) {
                    assert(shift_tokens(step_tokens(b, y) + ts, d) =~= shift_tokens(
                        step_tokens(b, y),
                        d,
                    ) + shift_tokens(ts, d));
                }
            },
            None => {},
        }
    }
}

// ---------------------------------------------------------------------------
// Replacing one value by `0`
// ---------------------------------------------------------------------------

/// The text that a value is replaced by: `"0"` when it was quoted, else `0`.
pub open spec fn zero_text(quoted: bool) -> Seq<u8> {
    if quoted {
        seq![QUOTE, 48u8, QUOTE]
    } else {
        seq![48u8]
    }
}

/// The tokens of `b` with token `k` replaced by the word `0` of the same
/// kind, spelled `text`, and the tokens after it moved by the change in length.
pub open spec fn replaced_tokens(ts: Seq<SpecToken>, k: int, quoted: bool) -> Seq<SpecToken> {
    let t = ts[k];
    let new_end = t.start + zero_text(quoted).len();
    ts.subrange(0, k) + seq![
        SpecToken { kind: SpecTokenKind::Word { text: seq![48u8], quoted }, start: t.start, end: new_end },
    ] + shift_tokens(ts.subrange(k + 1, ts.len() as int), new_end - t.end)
}

pub open spec fn lex_start(b: Seq<u8>) -> int {
    if has_bom(b) {
        3
    } else {
        0
    }
}

/// A token that the lexer gives at `p` is the first of the step there.
pub proof fn lemma_token_step(b: Seq<u8>, p: int)
    requires
        0 <= p,
        lex(b, p) matches Ok(ts) && ts.len() > 0 && ts[0].start == p,
    ensures
        p < b.len(),
        step_next(b, p) is Some,
        step_tokens(b, p).len() == 1,
        step_tokens(b, p)[0] == lex(b, p)->Ok_0[0],
        lex(b, step_next(b, p)->Some_0) == Ok::<Seq<SpecToken>, SpecVdfError>(
            lex(b, p)->Ok_0.subrange(1, lex(b, p)->Ok_0.len() as int),
        ),
        step_next(b, p)->Some_0 == lex(b, p)->Ok_0[0].end,
{
    let ts = lex(b, p)->Ok_0;
    lemma_step_forward(b, p);
    let n = step_next(b, p)->Some_0;
    lemma_lex_ordered(b, n);
    let rest = lex(b, n)->Ok_0;
    if step_tokens(b, p).len() == 0 {
        assert(ts =~= rest);
        assert(false);
    }
    if b[p] == QUOTE {
        lemma_quote_end_bounds(b, p + 1);
    } else if b[p] != OPEN_BRACE && b[p] != CLOSE_BRACE {
        lemma_word_end_bounds(b, p);
    }
    assert(ts.subrange(1, ts.len() as int) =~= rest);
}

/// Replacing the bytes of a value token by `0` (quoted as it was) changes
/// that token and moves the tokens after it; the text splits into tokens
/// exactly as before everywhere else.
pub proof fn lemma_replace_value(b: Seq<u8>, k: int)
    requires
        lex(b, lex_start(b)) is Ok,
        0 <= k < lex(b, lex_start(b))->Ok_0.len(),
        lex(b, lex_start(b))->Ok_0[k].kind is Word,
    ensures
        ({
            let ts = lex(b, lex_start(b))->Ok_0;
            let t = ts[k];
            let quoted = t.kind->Word_quoted;
            let c = b.subrange(0, t.start) + zero_text(quoted) + b.subrange(t.end, b.len() as int);
            &&& lex_start(c) == lex_start(b)
            &&& lex(c, lex_start(c)) == Ok::<Seq<SpecToken>, SpecVdfError>(
                replaced_tokens(ts, k, quoted),
            )
        }),
{
    let o = lex_start(b);
    let ts = lex(b, o)->Ok_0;
    let t = ts[k];
    let s = t.start;
    let e = t.end;
    let quoted = t.kind->Word_quoted;
    let z = zero_text(quoted);
    let c = b.subrange(0, s) + z + b.subrange(e, b.len() as int);
    let l = z.len() as int;
    lemma_lex_ordered(b, o);
    assert(o <= s < e <= b.len());
    // The lexer comes to `s` and gives the tokens before `k` on the way.
    lemma_token_reached(b, o, k);
    lemma_reaches_splits(b, o, s);
    let tail = ts.subrange(k, ts.len() as int);
    assert(ts.subrange(0, k) + tail =~= ts);
    assert(lex(b, s) == Ok::<Seq<SpecToken>, SpecVdfError>(tail)) by {
        if let Ok(r) = lex(b, s) {
            assert(ts.subrange(0, k) + r == ts);
            assert(r =~= tail);
        }
    }
    lemma_token_step(b, s);
    assert(tail.subrange(1, tail.len() as int) =~= ts.subrange(k + 1, ts.len() as int));
    // The edited text reads the same up to `s`.
    assert(c.len() == b.len() - (e - s) + l);
    assert forall|x: int| 0 <= x < s implies b[x] == c[x] by {}
    assert(c[s] == if quoted { QUOTE } else { 48u8 });
    if quoted {
        assert(b[s] == QUOTE);
    } else {
        assert(word_continues(b, s));
        assert(word_continues(c, s));
    }
    assert(same_before(b, c, s));
    lemma_reaches_agree(b, c, o, s);
    lemma_reaches_splits(c, o, s);
    // The byte order mark is kept as it was.
    if s < 3 {
        assert(o == 0);
        assert(!has_bom(c));
    } else {
        assert(c[0] == b[0] && c[1] == b[1] && c[2] == b[2]);
    }
    assert(lex_start(c) == o);
    // After the new token, `c` holds what `b` holds after the old one.
    assert(same_after(b, e, c, s + l)) by {
        assert forall|x: int| 0 <= x < b.len() - e implies #[trigger] b[e + x] == c[s + l + x] by {}
    }
    lemma_lex_shift(b, e, c, s + l, e);
    let rest = ts.subrange(k + 1, ts.len() as int);
    assert(lex(c, s + l) == Ok::<Seq<SpecToken>, SpecVdfError>(shift_tokens(rest, s + l - e)));
    // The new token itself.
    let nt = SpecToken { kind: SpecTokenKind::Word { text: seq![48u8], quoted }, start: s, end: s + l };
    if quoted {
        assert(c[s + 1] == 48u8 && c[s + 2] == QUOTE);
        assert(quote_end(c, s + 2) == Some(s + 2));
        assert(quote_end(c, s + 1) == Some(s + 2));
        assert(c.subrange(s + 1, s + 2) =~= seq![48u8]);
        assert(unescape(seq![48u8].subrange(1, 1)) == Some(Seq::<u8>::empty()));
        assert(seq![48u8].subrange(1, 1) =~= Seq::<u8>::empty());
        assert(seq![seq![48u8][0]] + Seq::<u8>::empty() =~= seq![48u8]);
        assert(unescape(seq![48u8]) == Some(seq![48u8]));
        assert(step_next(c, s) == Some(s + 3));
        assert(step_tokens(c, s) =~= seq![nt]);
    } else {
        lemma_word_continues_shift(b, e, c, s + 1, e);
        lemma_word_end_bounds(b, s);
        assert(!word_continues(c, s + 1));
        assert(word_end(c, s) == s + 1);
        assert(c.subrange(s, s + 1) =~= seq![48u8]);
        assert(step_next(c, s) == Some(s + 1));
        assert(step_tokens(c, s) =~= seq![nt]);
    }
    lemma_step_forward(c, s);
    assert(ts.subrange(0, k) + (seq![nt] + shift_tokens(rest, s + l - e)) =~= replaced_tokens(
        ts,
        k,
        quoted,
    ));
}

} // verus!
