//! Reading a configuration again after a `CloudEnabled` entry was inserted
//! into the game's object: the entries come out as before with their
//! positions moved, and the game's object ends with the new entry.

use vstd::prelude::*;
use crate::relex::{
    lemma_lex_ordered, lemma_lex_shift, lemma_reaches_agree, lemma_reaches_splits,
    lemma_step_forward, lemma_token_reached, lemma_token_step, lemma_word_end_inside, lex_start,
    passed, reaches, zero_text,
    same_after, same_before, shift_lexed, shift_tokens, step_next, step_tokens,
};
use crate::reparse::{
    closes_are_tokens, entry_closes_are_tokens, entry_vals_are_tokens, has_key_at,
    lemma_at_index, lemma_find_app_within, lemma_first_match_in, lemma_parse_list_facts,
    level_facts, ordered, vals_are_tokens, word_kind,
};
use crate::steam::{
    apply_edit, child_indent, cloud_edit, entries_safe, entry_safe, first_indented, indent_start,
    insertion, is_blank, lemma_entries_safe_index, lemma_find_app_safe, lemma_lex_safe,
    lemma_parse_list_safe, newline, parent_indent, safe_at, tokens_safe, cloud_line, line_start,
};
use crate::vdf::{
    app_path, find_app_spec, first_match, key_eq, lookup_root, lower, parse_root, tokens_of,
    unique_match, walk,
    cloud_key, comment_end, is_space, lemma_comment_end_bounds, lemma_line_end_bounds,
    lemma_quote_end_bounds, lemma_word_end_bounds, lex, line_end, pair_at, parse_items,
    parse_list, prepend_tokens, quote_end, unescape, word_continues, word_end, SpecEntry,
    SpecToken, SpecTokenKind, SpecValue, SpecVdfError, BACKSLASH, CLOSE_BRACE, LF, OPEN_BRACE,
    QUOTE, SLASH, STAR, TAB,
};

verus! {

/// A start position after `d` bytes were inserted at `s`.
pub open spec fn start_moved(x: int, s: int, d: int) -> int {
    if x < s {
        x
    } else {
        x + d
    }
}

/// An end position after `d` bytes were inserted at `s`: a token that ends
/// at `s` stays where it was.
pub open spec fn end_moved(x: int, s: int, d: int) -> int {
    if x <= s {
        x
    } else {
        x + d
    }
}

/// The entries after the insertion: positions moved, and the object whose
/// closing brace stands at `pc` ending with the new entry `ne`.
pub open spec fn ins_entries(es: Seq<SpecEntry>, s: int, d: int, pc: int, ne: SpecEntry) -> Seq<
    SpecEntry,
>
    decreases es,
{
    if es.len() == 0 {
        seq![]
    } else {
        seq![ins_entry(es[0], s, d, pc, ne)] + ins_entries(
            es.subrange(1, es.len() as int),
            s,
            d,
            pc,
            ne,
        )
    }
}

pub open spec fn ins_entry(e: SpecEntry, s: int, d: int, pc: int, ne: SpecEntry) -> SpecEntry
    decreases e,
{
    SpecEntry {
        key: e.key,
        key_start: start_moved(e.key_start, s, d),
        value: match e.value {
            SpecValue::Text { start, end, quoted } => SpecValue::Text {
                start: start_moved(start, s, d),
                end: end_moved(end, s, d),
                quoted,
            },
            SpecValue::Object { entries, close } => SpecValue::Object {
                entries: if close == pc {
                    ins_entries(entries, s, d, pc, ne) + seq![ne]
                } else {
                    ins_entries(entries, s, d, pc, ne)
                },
                close: start_moved(close, s, d),
            },
        },
    }
}

/// `u` is `t` with the tokens `kt` and `vt` inserted before token `kc`, a
/// closing brace, and the tokens from there on moved by `d`; the tokens
/// before end by `s` and those from `kc` on start from `s` on.
pub open spec fn inserted_tokens(
    t: Seq<SpecToken>,
    u: Seq<SpecToken>,
    kc: int,
    s: int,
    d: int,
    kt: SpecToken,
    vt: SpecToken,
) -> bool {
    &&& ordered(t)
    &&& 0 <= kc < t.len()
    &&& t[kc].kind is Close
    &&& u.len() == t.len() + 2
    &&& forall|j: int| 0 <= j < kc ==> #[trigger] u[j] == t[j] && t[j].end <= s
    &&& u[kc] == kt
    &&& u[kc + 1] == vt
    &&& kt.kind is Word
    &&& vt.kind is Word
    &&& forall|j: int|
        kc <= j < t.len() ==> #[trigger] u[j + 2] == SpecToken {
            kind: t[j].kind,
            start: t[j].start + d,
            end: t[j].end + d,
        } && t[j].start >= s
}

/// The entry that the inserted tokens make.
pub open spec fn new_entry(kt: SpecToken, vt: SpecToken) -> SpecEntry {
    SpecEntry {
        key: kt.kind->Word_text,
        key_start: kt.start,
        value: SpecValue::Text { start: vt.start, end: vt.end, quoted: vt.kind->Word_quoted },
    }
}

pub open spec fn start_index(c: int, kc: int) -> int {
    if c <= kc {
        c
    } else {
        c + 2
    }
}

pub open spec fn end_index(c: int, kc: int) -> int {
    if c < kc {
        c
    } else {
        c + 2
    }
}

pub open spec fn level_after(
    es: Seq<SpecEntry>,
    ce: int,
    s: int,
    d: int,
    kc: int,
    pc: int,
    ne: SpecEntry,
) -> Seq<SpecEntry> {
    if ce == kc {
        ins_entries(es, s, d, pc, ne) + seq![ne]
    } else {
        ins_entries(es, s, d, pc, ne)
    }
}

proof fn lemma_ins_prepend(e: SpecEntry, rest: Seq<SpecEntry>, s: int, d: int, pc: int, ne: SpecEntry)
    ensures
        ins_entries(seq![e] + rest, s, d, pc, ne) == seq![ins_entry(e, s, d, pc, ne)] + ins_entries(
            rest,
            s,
            d,
            pc,
            ne,
        ),
{
    let all = seq![e] + rest;
    assert(all[0] == e);
    assert(all.subrange(1, all.len() as int) =~= rest);
}

proof fn lemma_ins_parse_list(
    t: Seq<SpecToken>,
    u: Seq<SpecToken>,
    kc: int,
    s: int,
    d: int,
    kt: SpecToken,
    vt: SpecToken,
    c: int,
    depth: int,
)
    requires
        inserted_tokens(t, u, kc, s, d, kt, vt),
        0 <= c <= t.len(),
        parse_list(t, c, depth) is Ok,
    ensures
        ({
            let (es, ce) = parse_list(t, c, depth)->Ok_0;
            parse_list(u, start_index(c, kc), depth) == Ok::<(Seq<SpecEntry>, int), SpecVdfError>(
                (
                    level_after(es, ce, s, d, kc, t[kc].start, new_entry(kt, vt)),
                    end_index(ce, kc),
                ),
            )
        }),
    decreases t.len() - c, 1int,
{
    lemma_ins_parse_items(t, u, kc, s, d, kt, vt, c, depth);
}

proof fn lemma_ins_parse_items(
    t: Seq<SpecToken>,
    u: Seq<SpecToken>,
    kc: int,
    s: int,
    d: int,
    kt: SpecToken,
    vt: SpecToken,
    c: int,
    depth: int,
)
    requires
        inserted_tokens(t, u, kc, s, d, kt, vt),
        0 <= c <= t.len(),
        parse_items(t, c, depth) is Ok,
    ensures
        ({
            let (es, ce) = parse_items(t, c, depth)->Ok_0;
            parse_items(u, start_index(c, kc), depth) == Ok::<(Seq<SpecEntry>, int), SpecVdfError>(
                (
                    level_after(es, ce, s, d, kc, t[kc].start, new_entry(kt, vt)),
                    end_index(ce, kc),
                ),
            )
        }),
    decreases t.len() - c, 0int,
{
    let pc = t[kc].start;
    let ne = new_entry(kt, vt);
    let c2 = start_index(c, kc);
    if c >= t.len() {
        assert(ins_entries(seq![], s, d, pc, ne) =~= Seq::<SpecEntry>::empty());
    } else if c == kc {
        // An empty level that the closing brace `kc` ends: it now holds the new entry.
        assert(u[kc + 2].kind is Close);
        assert(ins_entries(seq![], s, d, pc, ne) =~= Seq::<SpecEntry>::empty());
        assert(parse_items(u, kc + 2, depth) == Ok::<(Seq<SpecEntry>, int), SpecVdfError>(
            (seq![], kc + 2),
        ));
        assert(seq![ne] + Seq::<SpecEntry>::empty() =~= Seq::<SpecEntry>::empty() + seq![ne]);
    } else {
        if c < kc {
            assert(u[c] == t[c]);
        } else {
            assert(u[c + 2].kind == t[c].kind);
        }
        assert(u[c2].kind == t[c].kind);
        match t[c].kind {
            SpecTokenKind::Close => {
                assert(ins_entries(seq![], s, d, pc, ne) =~= Seq::<SpecEntry>::empty());
            },
            SpecTokenKind::Open => {},
            SpecTokenKind::Word { text: key, .. } => {
                assert(c + 1 < t.len());
                assert(c + 1 != kc);
                if c < kc {
                    assert(c2 == c);
                    assert(u[c + 1] == t[c + 1]);
                } else {
                    assert(c2 == c + 2);
                    assert(u[(c + 1) + 2].kind == t[c + 1].kind);
                }
                assert(u[c2 + 1].kind == t[c + 1].kind);
                match t[c + 1].kind {
                    SpecTokenKind::Word { quoted, .. } => {
                        let (rest, ce) = parse_items(t, c + 2, depth)->Ok_0;
                        lemma_ins_parse_items(t, u, kc, s, d, kt, vt, c + 2, depth);
                        assert(start_index(c + 2, kc) == c2 + 2);
                        let e = SpecEntry {
                            key,
                            key_start: t[c].start,
                            value: SpecValue::Text {
                                start: t[c + 1].start,
                                end: t[c + 1].end,
                                quoted,
                            },
                        };
                        if c < kc {
                            assert(t[c].start < t[c].end <= s);
                            assert(t[c + 1].start < t[c + 1].end <= s);
                        } else {
                            assert(t[c + 1].start >= s);
                            assert(t[c + 1].start < t[c + 1].end);
                        }
                        assert(u[c2].start == start_moved(t[c].start, s, d));
                        assert(u[c2 + 1].start == start_moved(t[c + 1].start, s, d));
                        assert(u[c2 + 1].end == end_moved(t[c + 1].end, s, d));
                        lemma_ins_prepend(e, rest, s, d, pc, ne);
                        assert(level_after(seq![e] + rest, ce, s, d, kc, pc, ne) =~= seq![
                            ins_entry(e, s, d, pc, ne),
                        ] + level_after(rest, ce, s, d, kc, pc, ne));
                    },
                    SpecTokenKind::Open => {
                        let (children, cc) = parse_list(t, c + 2, depth + 1)->Ok_0;
                        let (rest, ce) = parse_items(t, cc + 1, depth)->Ok_0;
                        lemma_ins_parse_list(t, u, kc, s, d, kt, vt, c + 2, depth + 1);
                        assert(start_index(c + 2, kc) == c2 + 2);
                        let cc2 = end_index(cc, kc);
                        assert(u[cc2].kind is Close);
                        assert(u[cc2].start == start_moved(t[cc].start, s, d)) by {
                            if cc < kc {
                                assert(t[cc].start < t[cc].end <= s);
                            }
                        }
                        assert((t[cc].start == pc) == (cc == kc)) by {
                            if cc < kc {
                                assert(t[cc].end <= t[kc].start);
                                assert(t[cc].start < t[cc].end);
                            } else if cc > kc {
                                assert(t[kc].end <= t[cc].start);
                                assert(t[kc].start < t[kc].end);
                            }
                        }
                        lemma_ins_parse_items(t, u, kc, s, d, kt, vt, cc + 1, depth);
                        assert(start_index(cc + 1, kc) == cc2 + 1);
                        let e = SpecEntry {
                            key,
                            key_start: t[c].start,
                            value: SpecValue::Object { entries: children, close: t[cc].start },
                        };
                        if c < kc {
                            assert(t[c].start < t[c].end <= s);
                        }
                        assert(u[c2].start == start_moved(t[c].start, s, d));
                        lemma_ins_prepend(e, rest, s, d, pc, ne);
                        assert(level_after(seq![e] + rest, ce, s, d, kc, pc, ne) =~= seq![
                            ins_entry(e, s, d, pc, ne),
                        ] + level_after(rest, ce, s, d, kc, pc, ne));
                    },
                    SpecTokenKind::Close => {},
                }
            },
        }
    }
}

// ---------------------------------------------------------------------------
// Reading the inserted line
// ---------------------------------------------------------------------------

/// A run of white space is skipped without a token.
pub proof fn lemma_space_run(c: Seq<u8>, i: int, j: int)
    requires
        0 <= i <= j <= c.len(),
        forall|x: int| i <= x < j ==> is_space(#[trigger] c[x]),
    ensures
        reaches(c, i, j),
        passed(c, i, j) == Seq::<SpecToken>::empty(),
        lex(c, i) == lex(c, j),
    decreases j - i,
{
    if i < j {
        assert(is_space(c[i]));
        lemma_space_run(c, i + 1, j);
        assert(step_tokens(c, i) =~= Seq::<SpecToken>::empty());
        assert(step_tokens(c, i) + passed(c, i + 1, j) =~= Seq::<SpecToken>::empty());
    }
}

/// The tokens passed on the way to `p` lie before `p`.
pub proof fn lemma_passed_before(b: Seq<u8>, q: int, p: int)
    requires
        0 <= q,
        reaches(b, q, p),
        p <= b.len(),
    ensures
        forall|x: int|
            0 <= x < passed(b, q, p).len() ==> q <= #[trigger] passed(b, q, p)[x].start
                && passed(b, q, p)[x].end <= p,
    decreases p - q,
{
    if q < p {
        let n = step_next(b, q)->Some_0;
        lemma_step_forward(b, q);
        lemma_passed_before(b, n, p);
        let st = step_tokens(b, q);
        if st.len() > 0 {
            if b[q] == QUOTE {
                lemma_quote_end_bounds(b, q + 1);
            } else if b[q] != OPEN_BRACE && b[q] != CLOSE_BRACE {
                lemma_word_end_bounds(b, q);
            }
            assert(st.len() == 1 && st[0].start == q && st[0].end == n);
        }
        let all = st + passed(b, n, p);
        assert forall|x: int| 0 <= x < all.len() implies q <= #[trigger] all[x].start && all[x].end
            <= p by {
            if x >= st.len() {
                assert(all[x] == passed(b, n, p)[x - st.len()]);
            }
        }
    }
}

proof fn lemma_line_end_stops(b: Seq<u8>, j: int, p: int)
    requires
        0 <= j <= p < b.len(),
        b[p] == LF,
    ensures
        line_end(b, j) <= p,
    decreases p - j,
{
    if j < p && b[j] != LF {
        lemma_line_end_stops(b, j + 1, p);
    }
}

pub proof fn lemma_line_start_facts(b: Seq<u8>, p: int)
    requires
        0 <= p <= b.len(),
    ensures
        0 <= line_start(b, p) <= p,
        line_start(b, p) == 0 || b[line_start(b, p) - 1] == LF,
    decreases p,
{
    if p > 0 && b[p - 1] != LF {
        lemma_line_start_facts(b, p - 1);
    }
}

/// A lexer on its way to `close`, with only spaces and tabs between the
/// start `s` of its line and `close`, comes to `s`: nothing that it skips or
/// reads can run from the line before over the line feed into the indentation.
pub proof fn lemma_reaches_line_start(b: Seq<u8>, q: int, s: int, close: int)
    requires
        0 <= q <= s <= close < b.len(),
        reaches(b, q, close),
        s == 0 || b[s - 1] == LF,
        forall|x: int| s <= x < close ==> (#[trigger] b[x] == 32u8 || b[x] == TAB),
        b[close] == CLOSE_BRACE,
    ensures
        reaches(b, q, s),
        passed(b, q, close) == passed(b, q, s),
    decreases s - q,
{
    assert forall|x: int| s <= x < close implies is_space(#[trigger] b[x]) by {}
    lemma_space_run(b, s, close);
    if q == s {
        lemma_reaches_splits(b, s, close);
        assert(passed(b, s, close) == Seq::<SpecToken>::empty()) by {
            lemma_space_run(b, s, close);
        }
    } else {
        let n = step_next(b, q)->Some_0;
        lemma_step_forward(b, q);
        assert(q < n <= close && reaches(b, n, close));
        // The step from `q` cannot carry the lexer past `s`.
        if n > s {
            assert(b[s - 1] == LF);
            if is_space(b[q]) {
            } else if pair_at(b, q, SLASH, SLASH) {
                assert(q + 2 <= s - 1);
                lemma_line_end_stops(b, q + 2, s - 1);
            } else if pair_at(b, q, SLASH, STAR) {
                lemma_comment_end_bounds(b, q + 2);
                let k = comment_end(b, q + 2)->Some_0;
                assert(b[k] == STAR);
                if k >= s {
                    assert(k + 2 <= close);
                }
            } else if b[q] == OPEN_BRACE || b[q] == CLOSE_BRACE {
            } else if b[q] == QUOTE {
                lemma_quote_end_bounds(b, q + 1);
                let k = quote_end(b, q + 1)->Some_0;
                assert(b[k] == QUOTE);
                assert(k + 1 <= close);
            } else {
                lemma_word_end_inside(b, q, s - 1);
            }
            assert(false);
        }
        lemma_reaches_line_start(b, n, s, close);
        assert(passed(b, q, close) == step_tokens(b, q) + passed(b, n, close));
        assert(passed(b, q, s) == step_tokens(b, q) + passed(b, n, s));
    }
}

/// `unescape` leaves a text without backslashes as it is.
pub proof fn lemma_unescape_plain(x: Seq<u8>)
    requires
        forall|i: int| 0 <= i < x.len() ==> #[trigger] x[i] != BACKSLASH,
    ensures
        unescape(x) == Some(x),
    decreases x.len(),
{
    if x.len() > 0 {
        let rest = x.subrange(1, x.len() as int);
        lemma_unescape_plain(rest);
        assert(seq![x[0]] + rest =~= x);
    }
}

/// A quoted string without quotes or backslashes inside ends at its quote.
pub proof fn lemma_quote_end_plain(c: Seq<u8>, j: int, k: int)
    requires
        0 <= j <= k < c.len(),
        c[k] == QUOTE,
        forall|x: int| j <= x < k ==> #[trigger] c[x] != QUOTE && c[x] != BACKSLASH,
    ensures
        quote_end(c, j) == Some(k),
    decreases k - j,
{
    if j < k {
        lemma_quote_end_plain(c, j + 1, k);
    }
}

/// The key `CloudEnabled`: twelve ASCII letters.
pub proof fn lemma_cloud_key_bytes()
    ensures
        cloud_key().len() == 12,
        cloud_key()[0] == 67u8,
        forall|x: int| 0 <= x < 12 ==> 65 <= #[trigger] cloud_key()[x] <= 122 && cloud_key()[x]
            != 92,
{
    reveal_strlit("CloudEnabled");
    let ck = cloud_key();
    assert(ck.len() == 12);
    assert(ck[0] == 67u8);
    assert(ck[1] == 108u8);
    assert(ck[2] == 111u8);
    assert(ck[3] == 117u8);
    assert(ck[4] == 100u8);
    assert(ck[5] == 69u8);
    assert(ck[6] == 110u8);
    assert(ck[7] == 97u8);
    assert(ck[8] == 98u8);
    assert(ck[9] == 108u8);
    assert(ck[10] == 101u8);
    assert(ck[11] == 100u8);
}

pub open spec fn all_space(x: Seq<u8>) -> bool {
    forall|i: int| 0 <= i < x.len() ==> is_space(#[trigger] x[i])
}

/// The token of the inserted key and of its value `"0"`, for a line whose
/// leading white space `f1` starts at `s`.
pub open spec fn key_token(s: int, f1: Seq<u8>) -> SpecToken {
    SpecToken {
        kind: SpecTokenKind::Word { text: cloud_key(), quoted: true },
        start: s + f1.len(),
        end: s + f1.len() + 14,
    }
}

pub open spec fn value_token(s: int, f1: Seq<u8>) -> SpecToken {
    SpecToken {
        kind: SpecTokenKind::Word { text: seq![48u8], quoted: true },
        start: s + f1.len() + 16,
        end: s + f1.len() + 19,
    }
}

/// Inserting white space, the `CloudEnabled` line and white space at `s`,
/// where the lexer comes with the tokens before `kc` behind it and the tokens
/// from `kc` on ahead, gives those tokens with the key and its value between
/// them, the later ones moved.
#[verifier::rlimit(60)]
pub proof fn lemma_insert_lex(b: Seq<u8>, kc: int, s: int, f1: Seq<u8>, f2: Seq<u8>)
    requires
        lex(b, lex_start(b)) is Ok,
        0 <= kc < lex(b, lex_start(b))->Ok_0.len(),
        lex_start(b) <= s <= lex(b, lex_start(b))->Ok_0[kc].start,
        reaches(b, lex_start(b), s),
        passed(b, lex_start(b), s) == lex(b, lex_start(b))->Ok_0.subrange(0, kc),
        lex(b, s) == Ok::<Seq<SpecToken>, SpecVdfError>(
            lex(b, lex_start(b))->Ok_0.subrange(kc, lex(b, lex_start(b))->Ok_0.len() as int),
        ),
        b[s] != LF,
        !word_continues(b, s),
        all_space(f1),
        all_space(f2),
    ensures
        ({
            let ts = lex(b, lex_start(b))->Ok_0;
            let text = f1 + cloud_line() + f2;
            let once = b.subrange(0, s) + text + b.subrange(s, b.len() as int);
            &&& lex_start(once) == lex_start(b)
            &&& lex(once, lex_start(once)) == Ok::<Seq<SpecToken>, SpecVdfError>(
                ts.subrange(0, kc) + seq![key_token(s, f1), value_token(s, f1)] + shift_tokens(
                    ts.subrange(kc, ts.len() as int),
                    text.len() as int,
                ),
            )
        }),
{
    let o = lex_start(b);
    let ts = lex(b, o)->Ok_0;
    let cl = cloud_line();
    let ck = cloud_key();
    lemma_cloud_key_bytes();
    let text = f1 + cl + f2;
    let l = text.len() as int;
    let once = b.subrange(0, s) + text + b.subrange(s, b.len() as int);
    let q0 = s + f1.len();
    lemma_lex_ordered(b, o);
    assert(s < b.len());
    assert(cl.len() == 19);
    assert(once.len() == b.len() + l);
    assert forall|x: int| 0 <= x < l implies #[trigger] once[s + x] == text[x] by {}
    assert forall|x: int| 0 <= x < 19 implies #[trigger] once[q0 + x] == cl[x] by {
        assert(once[s + (f1.len() + x)] == text[f1.len() + x]);
    }
    assert(cl[0] == QUOTE);
    assert forall|x: int| 0 <= x < 12 implies #[trigger] cl[1 + x] == ck[x] by {}
    assert(cl[13] == QUOTE && cl[14] == TAB && cl[15] == TAB && cl[16] == QUOTE && cl[17] == 48u8
        && cl[18] == QUOTE);
    // Up to `s`, the edited text reads as before.
    let first = once[s];
    assert(first == QUOTE || is_space(first)) by {
        if f1.len() > 0 {
            assert(once[s + 0] == text[0]);
            assert(text[0] == f1[0]);
        } else {
            assert(once[q0 + 0] == cl[0]);
        }
    }
    assert(!word_continues(once, s));
    assert(same_before(b, once, s));
    lemma_reaches_agree(b, once, o, s);
    lemma_reaches_splits(once, o, s);
    // The leading white space.
    assert forall|x: int| s <= x < q0 implies is_space(#[trigger] once[x]) by {
        assert(once[s + (x - s)] == text[x - s]);
        assert(text[x - s] == f1[x - s]);
    }
    lemma_space_run(once, s, q0);
    // The key.
    assert forall|x: int| q0 + 1 <= x < q0 + 13 implies #[trigger] once[x] != QUOTE && once[x]
        != BACKSLASH by {
        assert(once[q0 + (x - q0)] == cl[x - q0]);
        assert(cl[1 + (x - q0 - 1)] == ck[x - q0 - 1]);
    }
    assert(once[q0 + 13] == QUOTE);
    lemma_quote_end_plain(once, q0 + 1, q0 + 13);
    assert(once.subrange(q0 + 1, q0 + 13) =~= ck) by {
        assert forall|x: int| 0 <= x < 12 implies #[trigger] once.subrange(q0 + 1, q0 + 13)[x]
            == ck[x] by {
            assert(once[q0 + (1 + x)] == cl[1 + x]);
        }
    }
    lemma_unescape_plain(ck);
    assert(once[q0] == QUOTE);
    assert(!pair_at(once, q0, SLASH, SLASH) && !pair_at(once, q0, SLASH, STAR));
    assert(step_next(once, q0) == Some(q0 + 14));
    assert(step_tokens(once, q0) =~= seq![key_token(s, f1)]);
    lemma_step_forward(once, q0);
    // Two tabs.
    assert(once[q0 + 14] == TAB && once[q0 + 15] == TAB);
    lemma_space_run(once, q0 + 14, q0 + 16);
    // The value `"0"`.
    assert(once[q0 + 16] == QUOTE && once[q0 + 17] == 48u8 && once[q0 + 18] == QUOTE);
    lemma_quote_end_plain(once, q0 + 17, q0 + 18);
    assert(once.subrange(q0 + 17, q0 + 18) =~= seq![48u8]);
    lemma_unescape_plain(seq![48u8]);
    assert(!pair_at(once, q0 + 16, SLASH, SLASH) && !pair_at(once, q0 + 16, SLASH, STAR));
    assert(step_next(once, q0 + 16) == Some(q0 + 19));
    assert(step_tokens(once, q0 + 16) =~= seq![value_token(s, f1)]);
    lemma_step_forward(once, q0 + 16);
    // The trailing white space.
    assert forall|x: int| q0 + 19 <= x < s + l implies is_space(#[trigger] once[x]) by {
        assert(once[s + (x - s)] == text[x - s]);
        assert(text[x - s] == f2[x - s - f1.len() - 19]);
    }
    lemma_space_run(once, q0 + 19, s + l);
    // After the insertion, the text reads as before, moved.
    assert(same_after(b, s, once, s + l)) by {
        assert forall|x: int| 0 <= x < b.len() - s implies #[trigger] b[s + x] == once[s + l + x] by {}
    }
    lemma_lex_shift(b, s, once, s + l, s);
    let before = ts.subrange(0, kc);
    let after = shift_tokens(ts.subrange(kc, ts.len() as int), l);
    assert(lex(once, s + l) == Ok::<Seq<SpecToken>, SpecVdfError>(after));
    assert(lex(once, q0 + 16) == Ok::<Seq<SpecToken>, SpecVdfError>(seq![value_token(s, f1)] + after));
    assert(lex(once, q0) == Ok::<Seq<SpecToken>, SpecVdfError>(
        seq![key_token(s, f1)] + (seq![value_token(s, f1)] + after),
    ));
    assert(before + (seq![key_token(s, f1)] + (seq![value_token(s, f1)] + after)) =~= before
        + seq![key_token(s, f1), value_token(s, f1)] + after);
    // The byte order mark is kept.
    if s < 3 {
        assert(o == 0);
        assert(!crate::vdf::has_bom(once));
    } else {
        assert(once[0] == b[0] && once[1] == b[1] && once[2] == b[2]);
    }
}

// ---------------------------------------------------------------------------
// Looking up keys after the insertion
// ---------------------------------------------------------------------------

/// The top level of a parse ends with the tokens.
pub proof fn lemma_top_level_end(t: Seq<SpecToken>, c: int)
    requires
        0 <= c,
        parse_items(t, c, 0) is Ok,
    ensures
        parse_items(t, c, 0)->Ok_0.1 >= t.len(),
    decreases t.len() - c,
{
    if c < t.len() {
        match t[c].kind {
            SpecTokenKind::Word { .. } => {
                match t[c + 1].kind {
                    SpecTokenKind::Word { .. } => {
                        lemma_top_level_end(t, c + 2);
                    },
                    SpecTokenKind::Open => {
                        let cc = parse_list(t, c + 2, 1)->Ok_0.1;
                        lemma_top_level_end(t, cc + 1);
                    },
                    _ => {},
                }
            },
            _ => {},
        }
    }
}

proof fn lemma_ins_index(es: Seq<SpecEntry>, s: int, d: int, pc: int, ne: SpecEntry)
    ensures
        ins_entries(es, s, d, pc, ne).len() == es.len(),
        forall|i: int|
            0 <= i < es.len() ==> #[trigger] ins_entries(es, s, d, pc, ne)[i] == ins_entry(
                es[i],
                s,
                d,
                pc,
                ne,
            ),
    decreases es.len(),
{
    if es.len() > 0 {
        let rest = es.subrange(1, es.len() as int);
        lemma_ins_index(rest, s, d, pc, ne);
        assert forall|i: int| 0 <= i < es.len() implies #[trigger] ins_entries(es, s, d, pc, ne)[i]
            == ins_entry(es[i], s, d, pc, ne) by {
            if i > 0 {
                assert(rest[i - 1] == es[i]);
            }
        }
    }
}

/// The entries after the insertion at one level, with the new entry at the
/// end when `add` holds.
pub open spec fn ins_level(es: Seq<SpecEntry>, s: int, d: int, pc: int, ne: SpecEntry, add: bool) -> Seq<
    SpecEntry,
> {
    if add {
        ins_entries(es, s, d, pc, ne) + seq![ne]
    } else {
        ins_entries(es, s, d, pc, ne)
    }
}

proof fn lemma_ins_first_match(
    es: Seq<SpecEntry>,
    key: Seq<u8>,
    k: int,
    s: int,
    d: int,
    pc: int,
    ne: SpecEntry,
    add: bool,
)
    requires
        0 <= k,
    ensures
        first_match(ins_level(es, s, d, pc, ne, add), key, k) == if first_match(es, key, k) is Some
            || !add || k > es.len() || !key_eq(ne.key, key) {
            first_match(es, key, k)
        } else {
            Some(es.len() as int)
        },
    decreases es.len() + 1 - k,
{
    lemma_ins_index(es, s, d, pc, ne);
    let l = ins_level(es, s, d, pc, ne, add);
    if k < es.len() {
        assert(l[k] == ins_entry(es[k], s, d, pc, ne));
        lemma_ins_first_match(es, key, k + 1, s, d, pc, ne, add);
    } else if k == es.len() && add {
        assert(l[k] == ne);
        lemma_ins_first_match(es, key, k + 1, s, d, pc, ne, add);
    }
}

proof fn lemma_ins_unique_match(
    es: Seq<SpecEntry>,
    key: Seq<u8>,
    s: int,
    d: int,
    pc: int,
    ne: SpecEntry,
    add: bool,
)
    requires
        !add || !key_eq(ne.key, key),
    ensures
        unique_match(ins_level(es, s, d, pc, ne, add), key) == unique_match(es, key),
{
    lemma_ins_first_match(es, key, 0, s, d, pc, ne, add);
    if let Some(i) = first_match(es, key, 0) {
        crate::reparse::lemma_first_match_in(es, key, 0);
        lemma_ins_first_match(es, key, i + 1, s, d, pc, ne, add);
    }
}

pub open spec fn ins_found(r: Result<Option<SpecEntry>, SpecVdfError>, s: int, d: int, pc: int, ne: SpecEntry) -> Result<
    Option<SpecEntry>,
    SpecVdfError,
> {
    match r {
        Ok(Some(e)) => Ok(Some(ins_entry(e, s, d, pc, ne))),
        Ok(None) => Ok(None),
        Err(x) => Err(x),
    }
}

proof fn lemma_ins_walk(e: SpecEntry, path: Seq<Seq<u8>>, s: int, d: int, pc: int, ne: SpecEntry)
    requires
        forall|i: int| 0 <= i < path.len() ==> !key_eq(ne.key, #[trigger] path[i]),
    ensures
        walk(ins_entry(e, s, d, pc, ne), path) == ins_found(walk(e, path), s, d, pc, ne),
    decreases path.len(),
{
    if path.len() > 0 {
        if let SpecValue::Object { entries, close } = e.value {
            let add = close == pc;
            assert(ins_entry(e, s, d, pc, ne).value->Object_entries == ins_level(
                entries,
                s,
                d,
                pc,
                ne,
                add,
            ));
            assert(!key_eq(ne.key, path[0]));
            lemma_ins_unique_match(entries, path[0], s, d, pc, ne, add);
            lemma_ins_index(entries, s, d, pc, ne);
            if let Ok(Some(i)) = unique_match(entries, path[0]) {
                crate::reparse::lemma_first_match_in(entries, path[0], 0);
                let rest = path.subrange(1, path.len() as int);
                assert forall|j: int| 0 <= j < rest.len() implies !key_eq(ne.key, #[trigger] rest[j]) by {
                    assert(rest[j] == path[j + 1]);
                }
                assert(ins_level(entries, s, d, pc, ne, add)[i] == ins_entry(entries[i], s, d, pc, ne));
                lemma_ins_walk(entries[i], rest, s, d, pc, ne);
            }
        }
    }
}

proof fn lemma_ins_lookup_root(
    root: Seq<SpecEntry>,
    key: Seq<u8>,
    path: Seq<Seq<u8>>,
    s: int,
    d: int,
    pc: int,
    ne: SpecEntry,
)
    requires
        forall|i: int| 0 <= i < path.len() ==> !key_eq(ne.key, #[trigger] path[i]),
    ensures
        lookup_root(ins_entries(root, s, d, pc, ne), key, path) == ins_found(
            lookup_root(root, key, path),
            s,
            d,
            pc,
            ne,
        ),
{
    lemma_ins_unique_match(root, key, s, d, pc, ne, false);
    lemma_ins_index(root, s, d, pc, ne);
    if let Ok(Some(i)) = unique_match(root, key) {
        crate::reparse::lemma_first_match_in(root, key, 0);
        lemma_ins_walk(root[i], path, s, d, pc, ne);
    }
}

/// No key on the way to a game's object reads `CloudEnabled`.
pub proof fn lemma_path_not_cloud(app: Seq<u8>)
    requires
        crate::text::all_digits(app),
    ensures
        forall|i: int| 0 <= i < app_path(app).len() ==> !key_eq(cloud_key(), #[trigger] app_path(app)[i]),
{
    lemma_cloud_key_bytes();
    reveal_strlit("Software");
    reveal_strlit("Valve");
    reveal_strlit("Steam");
    reveal_strlit("apps");
    let p = app_path(app);
    assert forall|i: int| 0 <= i < p.len() implies !key_eq(cloud_key(), #[trigger] p[i]) by {
        if i == 4 && cloud_key().len() == app.len() {
            assert(crate::text::is_digit(app[0]));
            assert(lower(cloud_key()[0]) != lower(app[0]));
        }
    }
}

pub proof fn lemma_ins_find_app(root: Seq<SpecEntry>, app: Seq<u8>, s: int, d: int, pc: int, ne: SpecEntry)
    requires
        crate::text::all_digits(app),
        ne.key == cloud_key(),
    ensures
        find_app_spec(ins_entries(root, s, d, pc, ne), app) == match find_app_spec(root, app) {
            Ok(a) => Ok(ins_entry(a, s, d, pc, ne)),
            Err(x) => Err(x),
        },
{
    lemma_path_not_cloud(app);
    lemma_ins_lookup_root(root, crate::vdf::local_root_key(), app_path(app), s, d, pc, ne);
    lemma_ins_lookup_root(root, crate::vdf::roaming_root_key(), app_path(app), s, d, pc, ne);
}

// ---------------------------------------------------------------------------
// Indentation is white space
// ---------------------------------------------------------------------------

proof fn lemma_indent_space(b: Seq<u8>, p: int)
    requires
        0 <= p <= b.len(),
        indent_start(b, p) is Some,
    ensures
        0 <= indent_start(b, p)->Some_0 <= p,
        all_space(b.subrange(indent_start(b, p)->Some_0, p)),
{
    lemma_line_start_facts(b, p);
    let s = indent_start(b, p)->Some_0;
    assert forall|i: int| 0 <= i < p - s implies is_space(#[trigger] b.subrange(s, p)[i]) by {
        assert(is_blank(b[s + i]));
    }
}

proof fn lemma_parent_indent_space(b: Seq<u8>, key_start: int, close: int)
    requires
        0 <= key_start <= b.len(),
        0 <= close <= b.len(),
    ensures
        all_space(parent_indent(b, key_start, close)),
{
    if indent_start(b, close) is Some {
        lemma_indent_space(b, close);
    } else if indent_start(b, key_start) is Some {
        lemma_indent_space(b, key_start);
    }
}

proof fn lemma_first_indented_found(b: Seq<u8>, es: Seq<SpecEntry>, from: int)
    ensures
        first_indented(b, es, from) matches Some(i) ==> 0 <= from <= i < es.len() && indent_start(
            b,
            es[i].key_start,
        ) is Some,
    decreases es.len() - from,
{
    if 0 <= from < es.len() && indent_start(b, es[from].key_start) is None {
        lemma_first_indented_found(b, es, from + 1);
    }
}

proof fn lemma_child_indent_space(b: Seq<u8>, es: Seq<SpecEntry>, key_start: int, close: int)
    requires
        0 <= key_start <= b.len(),
        0 <= close <= b.len(),
        forall|i: int| 0 <= i < es.len() ==> 0 <= #[trigger] es[i].key_start <= b.len(),
    ensures
        all_space(child_indent(b, es, key_start, close)),
{
    lemma_first_indented_found(b, es, 0);
    match first_indented(b, es, 0) {
        Some(i) => {
            lemma_indent_space(b, es[i].key_start);
        },
        None => {
            lemma_parent_indent_space(b, key_start, close);
            let pi = parent_indent(b, key_start, close);
            assert forall|x: int| 0 <= x < pi.len() + 1 implies is_space(#[trigger] (pi
                + seq![TAB])[x]) by {
                if x < pi.len() {
                    assert((pi + seq![TAB])[x] == pi[x]);
                }
            }
        },
    }
}

proof fn lemma_newline_space(b: Seq<u8>)
    ensures
        all_space(newline(b)),
        newline(b).len() > 0,
{
}

// ---------------------------------------------------------------------------
// Switching off twice
// ---------------------------------------------------------------------------

proof fn lemma_cloud_line_bytes()
    ensures
        cloud_line().len() == 19,
        cloud_line()[0] == QUOTE,
        forall|x: int| 0 <= x < 12 ==> #[trigger] cloud_line()[1 + x] == cloud_key()[x],
        cloud_line()[13] == QUOTE,
        cloud_line()[14] == TAB,
        cloud_line()[15] == TAB,
        cloud_line()[16] == QUOTE,
        cloud_line()[17] == 48u8,
        cloud_line()[18] == QUOTE,
{
    lemma_cloud_key_bytes();
}

/// The parts of an inserting edit.
pub struct Inserting {
    pub ts: Seq<SpecToken>,
    pub root: Seq<SpecEntry>,
    pub ce: int,
    pub app_entry: SpecEntry,
    pub kc: int,
    pub s: int,
    pub f1: Seq<u8>,
    pub f2: Seq<u8>,
}

pub open spec fn inserting_facts(b: Seq<u8>, app: Seq<u8>, r: Inserting) -> bool {
    let o = lex_start(b);
    let entries = r.app_entry.value->Object_entries;
    let close = r.app_entry.value->Object_close;
    &&& cloud_edit(b, app) == Ok::<crate::steam::SpecEdit, SpecVdfError>(
        crate::steam::SpecEdit { start: r.s, end: r.s, text: r.f1 + cloud_line() + r.f2 },
    )
    &&& crate::text::all_digits(app)
    &&& lex(b, o) == Ok::<Seq<SpecToken>, SpecVdfError>(r.ts)
    &&& ordered(r.ts)
    &&& parse_list(r.ts, 0, 0) == Ok::<(Seq<SpecEntry>, int), SpecVdfError>((r.root, r.ce))
    &&& find_app_spec(r.root, app) == Ok::<SpecEntry, SpecVdfError>(r.app_entry)
    &&& r.app_entry.value is Object
    &&& unique_match(entries, cloud_key()) == Ok::<Option<int>, SpecVdfError>(None)
    &&& 0 <= r.kc < r.ts.len()
    &&& r.ts[r.kc].start == close
    &&& r.ts[r.kc].kind is Close
    &&& o <= r.s <= close
    &&& reaches(b, o, r.s)
    &&& passed(b, o, r.s) == r.ts.subrange(0, r.kc)
    &&& lex(b, r.s) == Ok::<Seq<SpecToken>, SpecVdfError>(r.ts.subrange(r.kc, r.ts.len() as int))
    &&& b[r.s] != LF
    &&& !word_continues(b, r.s)
    &&& all_space(r.f1)
    &&& all_space(r.f2)
}

#[verifier::rlimit(80)]
#[verifier::spinoff_prover]
proof fn lemma_inserting_setup(b: Seq<u8>, app: Seq<u8>) -> (r: Inserting)
    requires
        cloud_edit(b, app) matches Ok(e) && e.start >= e.end,
    ensures
        inserting_facts(b, app, r),
{
    let e = cloud_edit(b, app)->Ok_0;
    let o = lex_start(b);
    assert(tokens_of(b) == lex(b, o));
    let ts = lex(b, o)->Ok_0;
    let (root, ce) = parse_list(ts, 0, 0)->Ok_0;
    assert(parse_root(ts) == Ok::<Seq<SpecEntry>, SpecVdfError>(root));
    let a = find_app_spec(root, app)->Ok_0;
    let entries = a.value->Object_entries;
    let close = a.value->Object_close;
    let ck = cloud_key();
    // The parse's facts: values and closing braces are tokens.
    lemma_lex_ordered(b, o);
    assert(ordered(ts));
    lemma_parse_list_facts(ts, 0, 0);
    lemma_find_app_within(root, app, 0, ts);
    assert(entry_closes_are_tokens(a, ts));
    // The game's object has no `CloudEnabled` entry: a replaced value would
    // cover some bytes.
    if let Ok(Some(i)) = unique_match(entries, ck) {
        lemma_first_match_in(entries, ck, 0);
        assert(vals_are_tokens(entries, ts));
        lemma_at_index(entries, i, 0, ts);
        assert(entry_vals_are_tokens(entries[i], ts));
        assert(false);
    }
    assert(e == insertion(b, a.key_start, entries, close));
    // The closing brace of the game's object is token `kc`.
    let kc = choose|j: int| 0 <= j < ts.len() && #[trigger] ts[j].start == close && ts[j].kind is Close;
    lemma_token_reached(b, o, kc);
    lemma_reaches_splits(b, o, close);
    let tail = ts.subrange(kc, ts.len() as int);
    assert(ts.subrange(0, kc) + tail =~= ts);
    assert(lex(b, close) == Ok::<Seq<SpecToken>, SpecVdfError>(tail)) by {
        if let Ok(r) = lex(b, close) {
            assert(ts.subrange(0, kc) + r == ts);
            assert(r =~= tail);
        }
    }
    lemma_token_step(b, close);
    assert(b[close] == CLOSE_BRACE);
    // Positions lie within the text.
    assert(safe_at(b, o));
    lemma_lex_safe(b, o);
    lemma_parse_list_safe(b, ts, 0, 0);
    lemma_find_app_safe(b, root, app);
    assert(entry_safe(b, a));
    assert(entries_safe(b, entries));
    lemma_entries_safe_index(b, entries);
    assert forall|i: int| 0 <= i < entries.len() implies 0 <= #[trigger] entries[i].key_start
        <= b.len() by {
        assert(entry_safe(b, entries[i]));
    }
    lemma_child_indent_space(b, entries, a.key_start, close);
    lemma_parent_indent_space(b, a.key_start, close);
    lemma_newline_space(b);
    let ci = child_indent(b, entries, a.key_start, close);
    let nl = newline(b);
    let pi = parent_indent(b, a.key_start, close);
    // Where the new line goes, and what surrounds the `CloudEnabled` line.
    let (s, f1, f2) = match indent_start(b, close) {
        Some(s) => (s, ci, nl),
        None => (close, nl + ci, nl + pi),
    };
    assert(all_space(f1)) by {
        if indent_start(b, close) is None {
            assert forall|x: int| 0 <= x < f1.len() implies is_space(#[trigger] f1[x]) by {
                if x < nl.len() {
                    assert(f1[x] == nl[x]);
                } else {
                    assert(f1[x] == ci[x - nl.len()]);
                }
            }
        }
    }
    assert(all_space(f2)) by {
        if indent_start(b, close) is None {
            assert forall|x: int| 0 <= x < f2.len() implies is_space(#[trigger] f2[x]) by {
                if x < nl.len() {
                    assert(f2[x] == nl[x]);
                } else {
                    assert(f2[x] == pi[x - nl.len()]);
                }
            }
        }
    }
    assert(e.text =~= f1 + cloud_line() + f2);
    if indent_start(b, close) is Some {
        lemma_line_start_facts(b, close);
        assert forall|x: int| s <= x < close implies (#[trigger] b[x] == 32u8 || b[x] == TAB) by {
            assert(is_blank(b[x]));
        }
        if s < o {
            assert(b[2] == 0xBFu8);
            assert(false);
        }
        lemma_reaches_line_start(b, o, s, close);
        assert forall|x: int| s <= x < close implies is_space(#[trigger] b[x]) by {}
        lemma_space_run(b, s, close);
        if s < close {
            assert(b[s] == 32u8 || b[s] == TAB);
        }
    }
    Inserting { ts, root, ce, app_entry: a, kc, s, f1, f2 }
}

/// The tokens and the entries of the text after an inserting edit.
#[verifier::rlimit(60)]
#[verifier::spinoff_prover]
proof fn lemma_inserting_reads(b: Seq<u8>, app: Seq<u8>, r: Inserting)
    requires
        inserting_facts(b, app, r),
    ensures
        ({
            let text = r.f1 + cloud_line() + r.f2;
            let l = text.len() as int;
            let once = b.subrange(0, r.s) + text + b.subrange(r.s, b.len() as int);
            let kt = key_token(r.s, r.f1);
            let vt = value_token(r.s, r.f1);
            let u = r.ts.subrange(0, r.kc) + seq![kt, vt] + shift_tokens(
                r.ts.subrange(r.kc, r.ts.len() as int),
                l,
            );
            &&& tokens_of(once) == Ok::<Seq<SpecToken>, SpecVdfError>(u)
            &&& inserted_tokens(r.ts, u, r.kc, r.s, l, kt, vt)
        }),
{
    let ts = r.ts;
    let kc = r.kc;
    let s = r.s;
    let o = lex_start(b);
    let tail = ts.subrange(kc, ts.len() as int);
    lemma_insert_lex(b, kc, s, r.f1, r.f2);
    let text = r.f1 + cloud_line() + r.f2;
    let l = text.len() as int;
    let kt = key_token(s, r.f1);
    let vt = value_token(s, r.f1);
    let u = ts.subrange(0, kc) + seq![kt, vt] + shift_tokens(tail, l);
    lemma_passed_before(b, o, s);
    assert forall|j: int| 0 <= j < kc implies #[trigger] u[j] == ts[j] && ts[j].end <= s by {
        assert(ts.subrange(0, kc)[j] == ts[j]);
        assert(passed(b, o, s)[j] == ts[j]);
        assert(o <= passed(b, o, s)[j].start);
    }
    assert forall|j: int| kc <= j < ts.len() implies #[trigger] u[j + 2] == SpecToken {
        kind: ts[j].kind,
        start: ts[j].start + l,
        end: ts[j].end + l,
    } && ts[j].start >= s by {
        assert(tail[j - kc] == ts[j]);
        if j > kc {
            assert(ts[kc].end <= ts[j].start);
            assert(ts[kc].start < ts[kc].end);
        }
    }
}

/// Where the game's object has no `CloudEnabled` entry, the first switch-off
/// inserts one, and a second finds it and writes `"0"` over its `"0"`.
#[verifier::rlimit(60)]
#[verifier::spinoff_prover]
proof fn lemma_inserting_twice(b: Seq<u8>, app: Seq<u8>)
    requires
        cloud_edit(b, app) matches Ok(e) && e.start >= e.end,
    ensures
        ({
            let once = apply_edit(b, cloud_edit(b, app)->Ok_0);
            cloud_edit(once, app) matches Ok(e2) && apply_edit(once, e2) == once
        }),
{
    let r = lemma_inserting_setup(b, app);
    lemma_inserting_reads(b, app, r);
    let ts = r.ts;
    let kc = r.kc;
    let s = r.s;
    let f1 = r.f1;
    let a = r.app_entry;
    let entries = a.value->Object_entries;
    let close = a.value->Object_close;
    let ck = cloud_key();
    let text = f1 + cloud_line() + r.f2;
    let l = text.len() as int;
    let kt = key_token(s, f1);
    let vt = value_token(s, f1);
    let u = ts.subrange(0, kc) + seq![kt, vt] + shift_tokens(ts.subrange(kc, ts.len() as int), l);
    let e = cloud_edit(b, app)->Ok_0;
    let once = apply_edit(b, e);
    assert(once == b.subrange(0, s) + text + b.subrange(s, b.len() as int));
    // The entries are those of `b`, moved, the game's object ending with the new entry.
    let ne = new_entry(kt, vt);
    lemma_ins_parse_list(ts, u, kc, s, l, kt, vt, 0, 0);
    lemma_top_level_end(ts, 0);
    assert(parse_root(u) == Ok::<Seq<SpecEntry>, SpecVdfError>(ins_entries(r.root, s, l, close, ne)));
    lemma_ins_find_app(r.root, app, s, l, close, ne);
    let list = ins_level(entries, s, l, close, ne, true);
    // The new entry is the only `CloudEnabled` entry.
    assert(key_eq(ck, ck));
    lemma_ins_first_match(entries, ck, 0, s, l, close, ne, true);
    lemma_ins_first_match(entries, ck, entries.len() as int + 1, s, l, close, ne, true);
    lemma_ins_index(entries, s, l, close, ne);
    assert(unique_match(list, ck) == Ok::<Option<int>, SpecVdfError>(Some(entries.len() as int)));
    assert(list[entries.len() as int] == ne);
    let e2 = cloud_edit(once, app)->Ok_0;
    assert(e2.start == vt.start && e2.end == vt.end && e2.text == zero_text(true));
    // Its value already reads `"0"`.
    lemma_cloud_line_bytes();
    lemma_lex_ordered(b, lex_start(b));
    assert(s < b.len());
    let q0 = s + f1.len();
    assert forall|x: int| 0 <= x < 3 implies #[trigger] once.subrange(q0 + 16, q0 + 19)[x]
        == zero_text(true)[x] by {
        assert(once[s + (f1.len() + 16 + x)] == text[f1.len() + 16 + x]);
        assert(text[f1.len() + 16 + x] == cloud_line()[16 + x]);
    }
    assert(once.subrange(q0 + 16, q0 + 19) =~= zero_text(true));
    assert(apply_edit(once, e2) =~= once);
}

/// Switching off a game's cloud synchronisation a second time changes
/// nothing: the first edit either wrote `0` over the game's `CloudEnabled`
/// value or inserted a `CloudEnabled` entry with the value `"0"`, and in
/// both cases the edited text reads back into the same entries, so that the
/// second edit finds that entry and writes the `0` it already holds.
pub proof fn law_switching_off_twice_changes_nothing(b: Seq<u8>, app: Seq<u8>)
    requires
        cloud_edit(b, app) is Ok,
    ensures
        ({
            let once = apply_edit(b, cloud_edit(b, app)->Ok_0);
            cloud_edit(once, app) matches Ok(e2) && apply_edit(once, e2) == once
        }),
{
    let e = cloud_edit(b, app)->Ok_0;
    if e.start < e.end {
        crate::reparse::lemma_replacing_twice(b, app);
    } else {
        lemma_inserting_twice(b, app);
    }
}

/// The game's entry that a switch-off edits: the one found under the local or
/// the roaming root of the text's entries.
pub open spec fn edited_app(b: Seq<u8>, app: Seq<u8>) -> SpecEntry {
    find_app_spec(parse_root(tokens_of(b)->Ok_0)->Ok_0, app)->Ok_0
}

/// What a switch-off changes. Where the game's object has exactly one direct
/// `CloudEnabled` entry (keys compared ignoring ASCII case), its value, a word
/// of the text, is replaced by `"0"` when it stood in quotes and by `0`
/// otherwise. Where it has none, nothing is removed: a
/// `"CloudEnabled"<TAB><TAB>"0"` line, with spaces, tabs and line breaks
/// around it, is inserted after the byte order mark and at or before the
/// closing brace of the game's object.
pub proof fn law_cloud_edit_shape(b: Seq<u8>, app: Seq<u8>)
    requires
        cloud_edit(b, app) is Ok,
    ensures
        ({
            let e = cloud_edit(b, app)->Ok_0;
            let a = edited_app(b, app);
            let entries = a.value->Object_entries;
            let close = a.value->Object_close;
            &&& a.value is Object
            &&& 0 <= e.start <= e.end <= b.len()
            &&& match unique_match(entries, cloud_key()) {
                Ok(Some(i)) => {
                    &&& 0 <= i < entries.len()
                    &&& entries[i].value matches SpecValue::Text { start, end, quoted }
                        && e.start == start && e.end == end && start < end
                        && (quoted <==> b[start] == QUOTE) && e.text == zero_text(quoted)
                },
                Ok(None) => {
                    &&& e.start == e.end
                    &&& lex_start(b) <= e.start <= close < b.len()
                    &&& b[close] == CLOSE_BRACE
                    &&& exists|f1: Seq<u8>, f2: Seq<u8>|
                        all_space(f1) && all_space(f2) && e.text == #[trigger] (f1 + cloud_line()
                            + f2)
                },
                Err(_) => false,
            }
        }),
{
    let e = cloud_edit(b, app)->Ok_0;
    crate::relex::law_token_structure(b);
    assert(tokens_of(b) == lex(b, lex_start(b)));
    if e.start < e.end {
        let r = crate::reparse::lemma_replacing(b, app);
        assert(parse_root(r.ts) == Ok::<Seq<SpecEntry>, SpecVdfError>(r.root));
        assert(edited_app(b, app) == r.app_entry);
        assert(crate::relex::token_fits(b, r.ts[r.j]));
    } else {
        let r = lemma_inserting_setup(b, app);
        assert(parse_root(r.ts) == Ok::<Seq<SpecEntry>, SpecVdfError>(r.root));
        assert(edited_app(b, app) == r.app_entry);
        assert(crate::relex::token_fits(b, r.ts[r.kc]));
        assert(e.text == r.f1 + cloud_line() + r.f2);
    }
}

} // verus!
