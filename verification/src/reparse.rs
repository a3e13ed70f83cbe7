//! Reading an edited configuration again, one level up from `relex`: the
//! entries come out as before with their positions moved, so switching off a
//! game's cloud synchronisation a second time changes nothing more.

use vstd::prelude::*;
use crate::relex::{lemma_lex_ordered, lemma_replace_value, lex_start, replaced_tokens, zero_text};
use crate::steam::{apply_edit, cloud_edit};
use crate::vdf::{
    cloud_key, find_app_spec, first_match, key_eq, lex, lookup_root, parse_items, parse_list,
    parse_root, tokens_of, unique_match, walk,
    SpecEntry, SpecToken, SpecTokenKind, SpecValue, SpecVdfError,
};

verus! {

// ---------------------------------------------------------------------------
// Where keys and values stand in a tree of entries
// ---------------------------------------------------------------------------

/// Some entry of `es`, at any depth, has its key at `x`.
pub open spec fn has_key_at(es: Seq<SpecEntry>, x: int) -> bool
    decreases es,
{
    if es.len() == 0 {
        false
    } else {
        entry_has_key_at(es[0], x) || has_key_at(es.subrange(1, es.len() as int), x)
    }
}

pub open spec fn entry_has_key_at(e: SpecEntry, x: int) -> bool
    decreases e,
{
    e.key_start == x || match e.value {
        SpecValue::Object { entries, .. } => has_key_at(entries, x),
        SpecValue::Text { .. } => false,
    }
}

/// Some string value in `es`, at any depth, starts at `x`.
pub open spec fn has_val_at(es: Seq<SpecEntry>, x: int) -> bool
    decreases es,
{
    if es.len() == 0 {
        false
    } else {
        entry_has_val_at(es[0], x) || has_val_at(es.subrange(1, es.len() as int), x)
    }
}

pub open spec fn entry_has_val_at(e: SpecEntry, x: int) -> bool
    decreases e,
{
    match e.value {
        SpecValue::Object { entries, .. } => has_val_at(entries, x),
        SpecValue::Text { start, .. } => start == x,
    }
}

/// Every string value in `es`, at any depth, is one of the tokens `t`.
pub open spec fn vals_are_tokens(es: Seq<SpecEntry>, t: Seq<SpecToken>) -> bool
    decreases es,
{
    if es.len() == 0 {
        true
    } else {
        entry_vals_are_tokens(es[0], t) && vals_are_tokens(es.subrange(1, es.len() as int), t)
    }
}

pub open spec fn entry_vals_are_tokens(e: SpecEntry, t: Seq<SpecToken>) -> bool
    decreases e,
{
    match e.value {
        SpecValue::Object { entries, .. } => vals_are_tokens(entries, t),
        SpecValue::Text { start, end, quoted } => exists|j: int|
            0 <= j < t.len() && #[trigger] t[j].start == start && t[j].end == end
                && t[j].kind == word_kind(t[j].kind, quoted),
    }
}

/// Every object in `es`, at any depth, is closed by one of the tokens `t`.
pub open spec fn closes_are_tokens(es: Seq<SpecEntry>, t: Seq<SpecToken>) -> bool
    decreases es,
{
    if es.len() == 0 {
        true
    } else {
        entry_closes_are_tokens(es[0], t) && closes_are_tokens(es.subrange(1, es.len() as int), t)
    }
}

pub open spec fn entry_closes_are_tokens(e: SpecEntry, t: Seq<SpecToken>) -> bool
    decreases e,
{
    match e.value {
        SpecValue::Object { entries, close } => closes_are_tokens(entries, t) && exists|j: int|
            0 <= j < t.len() && #[trigger] t[j].start == close && t[j].kind is Close,
        SpecValue::Text { .. } => true,
    }
}

/// The kind of a word token with the given quoting, when `k` is a word.
pub open spec fn word_kind(k: SpecTokenKind, quoted: bool) -> SpecTokenKind {
    match k {
        SpecTokenKind::Word { text, .. } => SpecTokenKind::Word { text, quoted },
        _ => SpecTokenKind::Word { text: seq![], quoted: !quoted },
    }
}

/// The tokens lie in order, each non-empty.
pub open spec fn ordered(t: Seq<SpecToken>) -> bool {
    &&& forall|j: int| 0 <= j < t.len() ==> #[trigger] t[j].start < t[j].end
    &&& forall|j: int, l: int| 0 <= j < l < t.len() ==> #[trigger] t[j].end <= #[trigger] t[l].start
}

proof fn lemma_prepend_entry(e: SpecEntry, rest: Seq<SpecEntry>, t: Seq<SpecToken>)
    ensures
        forall|x: int|
            #[trigger] has_key_at(seq![e] + rest, x) == (entry_has_key_at(e, x) || has_key_at(
                rest,
                x,
            )),
        forall|x: int|
            #[trigger] has_val_at(seq![e] + rest, x) == (entry_has_val_at(e, x) || has_val_at(
                rest,
                x,
            )),
        vals_are_tokens(seq![e] + rest, t) == (entry_vals_are_tokens(e, t) && vals_are_tokens(
            rest,
            t,
        )),
        closes_are_tokens(seq![e] + rest, t) == (entry_closes_are_tokens(e, t)
            && closes_are_tokens(rest, t)),
{
    let all = seq![e] + rest;
    assert(all[0] == e);
    assert(all.subrange(1, all.len() as int) =~= rest);
}

/// What the parse of one level from token `c` to token `ce` gives: entries
/// whose keys and string values stand within those tokens, no position
/// holding both a key and a value, and string values that are tokens.
pub open spec fn level_facts(t: Seq<SpecToken>, es: Seq<SpecEntry>, c: int, ce: int) -> bool {
    &&& c <= ce <= t.len()
    &&& forall|x: int|
        #[trigger] has_key_at(es, x) ==> c < t.len() && t[c].start <= x && (ce < t.len() ==> x
            < t[ce].start)
    &&& forall|x: int|
        #[trigger] has_val_at(es, x) ==> c < t.len() && t[c].start <= x && (ce < t.len() ==> x
            < t[ce].start)
    &&& forall|x: int| !(#[trigger] has_key_at(es, x) && has_val_at(es, x))
    &&& vals_are_tokens(es, t)
    &&& closes_are_tokens(es, t)
}

pub proof fn lemma_parse_list_facts(t: Seq<SpecToken>, c: int, depth: int)
    requires
        ordered(t),
        0 <= c <= t.len(),
    ensures
        parse_list(t, c, depth) matches Ok((es, ce)) ==> level_facts(t, es, c, ce),
    decreases t.len() - c, 1int,
{
    if depth <= 128 {
        lemma_parse_items_facts(t, c, depth);
    }
}

pub proof fn lemma_parse_items_facts(t: Seq<SpecToken>, c: int, depth: int)
    requires
        ordered(t),
        0 <= c <= t.len(),
    ensures
        parse_items(t, c, depth) matches Ok((es, ce)) ==> level_facts(t, es, c, ce),
    decreases t.len() - c, 0int,
{
    if c >= t.len() {
        assert(forall|x: int| !has_key_at(Seq::<SpecEntry>::empty(), x));
        assert(forall|x: int| !has_val_at(Seq::<SpecEntry>::empty(), x));
    } else {
        match t[c].kind {
            SpecTokenKind::Close => {
                assert(forall|x: int| !has_key_at(Seq::<SpecEntry>::empty(), x));
                assert(forall|x: int| !has_val_at(Seq::<SpecEntry>::empty(), x));
            },
            SpecTokenKind::Open => {},
            SpecTokenKind::Word { text: key, .. } => {
                if c + 1 < t.len() {
                    match t[c + 1].kind {
                        SpecTokenKind::Word { quoted, .. } => {
                            lemma_parse_items_facts(t, c + 2, depth);
                            if let Ok((rest, ce)) = parse_items(t, c + 2, depth) {
                                let e = SpecEntry {
                                    key,
                                    key_start: t[c].start,
                                    value: SpecValue::Text {
                                        start: t[c + 1].start,
                                        end: t[c + 1].end,
                                        quoted,
                                    },
                                };
                                lemma_prepend_entry(e, rest, t);
                                let es = seq![e] + rest;
                                assert(entry_vals_are_tokens(e, t)) by {
                                    assert(t[c + 1].start == t[c + 1].start);
                                }
                                assert(t[c].end <= t[c + 1].start);
                                assert forall|x: int| #[trigger]
                                    has_key_at(es, x) implies t[c].start <= x && (ce < t.len() ==> x
                                    < t[ce].start) by {
                                    if ce < t.len() && ce > c + 1 {
                                        assert(t[c + 1].end <= t[ce].start);
                                    }
                                }
                                assert forall|x: int| #[trigger]
                                    has_val_at(es, x) implies t[c].start <= x && (ce < t.len() ==> x
                                    < t[ce].start) by {
                                    if ce < t.len() && ce > c + 1 {
                                        assert(t[c + 1].end <= t[ce].start);
                                    }
                                }
                                assert forall|x: int| !(#[trigger] has_key_at(es, x) && has_val_at(
                                    es,
                                    x,
                                )) by {
                                    if c + 2 < t.len() {
                                        assert(t[c + 1].end <= t[c + 2].start);
                                    }
                                }
                            }
                        },
                        SpecTokenKind::Open => {
                            lemma_parse_list_facts(t, c + 2, depth + 1);
                            if let Ok((children, cc)) = parse_list(t, c + 2, depth + 1) {
                                if 0 <= cc < t.len() && t[cc].kind is Close && cc + 1 > c {
                                    lemma_parse_items_facts(t, cc + 1, depth);
                                    if let Ok((rest, ce)) = parse_items(t, cc + 1, depth) {
                                        let e = SpecEntry {
                                            key,
                                            key_start: t[c].start,
                                            value: SpecValue::Object {
                                                entries: children,
                                                close: t[cc].start,
                                            },
                                        };
                                        lemma_prepend_entry(e, rest, t);
                                        let es = seq![e] + rest;
                                        assert(entry_closes_are_tokens(e, t)) by {
                                            assert(t[cc].start == t[cc].start);
                                        }
                                        assert(t[c].end <= t[c + 1].start);
                                        assert(c + 2 <= cc);
                                        if c + 2 < t.len() {
                                            assert(t[c + 1].end <= t[c + 2].start);
                                        }
                                        if cc + 1 < t.len() {
                                            assert(t[cc].end <= t[cc + 1].start);
                                        }
                                        assert forall|x: int| #[trigger]
                                            has_key_at(es, x) implies t[c].start <= x && (ce
                                            < t.len() ==> x < t[ce].start) by {
                                            if ce < t.len() && ce > cc {
                                                assert(t[cc].end <= t[ce].start);
                                            }
                                            if x != t[c].start && entry_has_key_at(e, x) {
                                                assert(has_key_at(children, x));
                                                assert(t[c + 2].start <= x);
                                                assert(x < t[cc].start);
                                            }
                                        }
                                        assert forall|x: int| #[trigger]
                                            has_val_at(es, x) implies t[c].start <= x && (ce
                                            < t.len() ==> x < t[ce].start) by {
                                            if ce < t.len() && ce > cc {
                                                assert(t[cc].end <= t[ce].start);
                                            }
                                            if entry_has_val_at(e, x) {
                                                assert(has_val_at(children, x));
                                                assert(t[c + 2].start <= x);
                                                assert(x < t[cc].start);
                                            }
                                        }
                                        assert forall|x: int| !(#[trigger] has_key_at(es, x)
                                            && has_val_at(es, x)) by {
                                            if has_key_at(es, x) && has_val_at(es, x) {
                                                let in_children = has_val_at(children, x);
                                                if in_children {
                                                    assert(t[c + 2].start <= x < t[cc].start);
                                                    if has_key_at(rest, x) {
                                                        assert(t[cc + 1].start <= x);
                                                    }
                                                    assert(!(has_key_at(children, x) && has_val_at(
                                                        children,
                                                        x,
                                                    )));
                                                } else {
                                                    assert(has_val_at(rest, x));
                                                    assert(t[cc + 1].start <= x);
                                                    if has_key_at(children, x) {
                                                        assert(x < t[cc].start);
                                                    }
                                                    assert(!(has_key_at(rest, x) && has_val_at(
                                                        rest,
                                                        x,
                                                    )));
                                                }
                                            }
                                        }
                                    }
                                }
                            }
                        },
                        _ => {},
                    }
                }
            },
        }
    }
}

// ---------------------------------------------------------------------------
// Moving positions
// ---------------------------------------------------------------------------

/// A position after an edit that ends at `from` and changes the length by `d`.
pub open spec fn moved(x: int, from: int, d: int) -> int {
    if x < from {
        x
    } else {
        x + d
    }
}

pub open spec fn move_entries(es: Seq<SpecEntry>, from: int, d: int) -> Seq<SpecEntry>
    decreases es,
{
    if es.len() == 0 {
        seq![]
    } else {
        seq![move_entry(es[0], from, d)] + move_entries(es.subrange(1, es.len() as int), from, d)
    }
}

pub open spec fn move_entry(e: SpecEntry, from: int, d: int) -> SpecEntry
    decreases e,
{
    SpecEntry {
        key: e.key,
        key_start: moved(e.key_start, from, d),
        value: match e.value {
            SpecValue::Text { start, end, quoted } => SpecValue::Text {
                start: moved(start, from, d),
                end: moved(end, from, d),
                quoted,
            },
            SpecValue::Object { entries, close } => SpecValue::Object {
                entries: move_entries(entries, from, d),
                close: moved(close, from, d),
            },
        },
    }
}

/// Two token kinds of the same sort; words also alike in quoting.
pub open spec fn same_sort(a: SpecTokenKind, b: SpecTokenKind) -> bool {
    match (a, b) {
        (SpecTokenKind::Open, SpecTokenKind::Open) => true,
        (SpecTokenKind::Close, SpecTokenKind::Close) => true,
        (SpecTokenKind::Word { quoted: p, .. }, SpecTokenKind::Word { quoted: q, .. }) => p == q,
        _ => false,
    }
}

/// `u` is `t` with positions moved, and with the same tokens but for the
/// text of a word that starts at `s`.
pub open spec fn moved_tokens(t: Seq<SpecToken>, u: Seq<SpecToken>, from: int, d: int, s: int) -> bool {
    &&& u.len() == t.len()
    &&& forall|j: int|
        0 <= j < t.len() ==> {
            &&& #[trigger] u[j].start == moved(t[j].start, from, d)
            &&& u[j].end == moved(t[j].end, from, d)
            &&& same_sort(t[j].kind, u[j].kind)
            &&& t[j].start != s ==> u[j].kind == t[j].kind
        }
}

proof fn lemma_move_prepend(e: SpecEntry, rest: Seq<SpecEntry>, from: int, d: int)
    ensures
        move_entries(seq![e] + rest, from, d) == seq![move_entry(e, from, d)] + move_entries(
            rest,
            from,
            d,
        ),
{
    let all = seq![e] + rest;
    assert(all[0] == e);
    assert(all.subrange(1, all.len() as int) =~= rest);
}

proof fn lemma_move_parse_list(
    t: Seq<SpecToken>,
    u: Seq<SpecToken>,
    from: int,
    d: int,
    s: int,
    c: int,
    depth: int,
)
    requires
        moved_tokens(t, u, from, d, s),
        0 <= c,
        parse_list(t, c, depth) matches Ok((es, _)) && !has_key_at(es, s),
    ensures
        parse_list(u, c, depth) == match parse_list(t, c, depth) {
            Ok((es, ce)) => Ok((move_entries(es, from, d), ce)),
            Err(x) => Err(x),
        },
    decreases t.len() - c, 1int,
{
    if depth <= 128 {
        lemma_move_parse_items(t, u, from, d, s, c, depth);
    }
}

proof fn lemma_move_parse_items(
    t: Seq<SpecToken>,
    u: Seq<SpecToken>,
    from: int,
    d: int,
    s: int,
    c: int,
    depth: int,
)
    requires
        moved_tokens(t, u, from, d, s),
        0 <= c,
        parse_items(t, c, depth) matches Ok((es, _)) && !has_key_at(es, s),
    ensures
        parse_items(u, c, depth) == match parse_items(t, c, depth) {
            Ok((es, ce)) => Ok((move_entries(es, from, d), ce)),
            Err(x) => Err(x),
        },
    decreases t.len() - c, 0int,
{
    if c >= t.len() {
        assert(move_entries(seq![], from, d) =~= Seq::<SpecEntry>::empty());
    } else {
        assert(same_sort(t[c].kind, u[c].kind));
        match t[c].kind {
            SpecTokenKind::Close => {
                assert(move_entries(seq![], from, d) =~= Seq::<SpecEntry>::empty());
            },
            SpecTokenKind::Open => {},
            SpecTokenKind::Word { text: key, .. } => {
                assert(c + 1 < t.len());
                assert(same_sort(t[c + 1].kind, u[c + 1].kind));
                match t[c + 1].kind {
                    SpecTokenKind::Word { quoted, .. } => {
                        let (rest, ce) = parse_items(t, c + 2, depth)->Ok_0;
                        let e = SpecEntry {
                            key,
                            key_start: t[c].start,
                            value: SpecValue::Text {
                                start: t[c + 1].start,
                                end: t[c + 1].end,
                                quoted,
                            },
                        };
                        lemma_prepend_entry(e, rest, t);
                        assert(entry_has_key_at(e, t[c].start));
                        assert(t[c].start != s);
                        assert(u[c].kind == t[c].kind);
                        lemma_move_parse_items(t, u, from, d, s, c + 2, depth);
                        lemma_move_prepend(e, rest, from, d);
                    },
                    SpecTokenKind::Open => {
                        let (children, cc) = parse_list(t, c + 2, depth + 1)->Ok_0;
                        let (rest, ce) = parse_items(t, cc + 1, depth)->Ok_0;
                        let e = SpecEntry {
                            key,
                            key_start: t[c].start,
                            value: SpecValue::Object { entries: children, close: t[cc].start },
                        };
                        lemma_prepend_entry(e, rest, t);
                        assert(entry_has_key_at(e, t[c].start));
                        assert(t[c].start != s);
                        assert(u[c].kind == t[c].kind);
                        assert(!has_key_at(children, s));
                        lemma_move_parse_list(t, u, from, d, s, c + 2, depth + 1);
                        assert(same_sort(t[cc].kind, u[cc].kind));
                        lemma_move_parse_items(t, u, from, d, s, cc + 1, depth);
                        lemma_move_prepend(e, rest, from, d);
                    },
                    SpecTokenKind::Close => {},
                }
            },
        }
    }
}

// ---------------------------------------------------------------------------
// Looking up keys in a moved tree
// ---------------------------------------------------------------------------

proof fn lemma_move_index(es: Seq<SpecEntry>, from: int, d: int)
    ensures
        move_entries(es, from, d).len() == es.len(),
        forall|i: int|
            0 <= i < es.len() ==> #[trigger] move_entries(es, from, d)[i] == move_entry(
                es[i],
                from,
                d,
            ),
    decreases es.len(),
{
    if es.len() > 0 {
        let rest = es.subrange(1, es.len() as int);
        lemma_move_index(rest, from, d);
        assert forall|i: int| 0 <= i < es.len() implies #[trigger] move_entries(es, from, d)[i]
            == move_entry(es[i], from, d) by {
            if i > 0 {
                assert(rest[i - 1] == es[i]);
            }
        }
    }
}

proof fn lemma_move_first_match(es: Seq<SpecEntry>, key: Seq<u8>, k: int, from: int, d: int)
    ensures
        first_match(move_entries(es, from, d), key, k) == first_match(es, key, k),
    decreases es.len() - k,
{
    lemma_move_index(es, from, d);
    if 0 <= k < es.len() {
        assert(move_entries(es, from, d)[k].key == es[k].key);
        lemma_move_first_match(es, key, k + 1, from, d);
    }
}

proof fn lemma_move_unique_match(es: Seq<SpecEntry>, key: Seq<u8>, from: int, d: int)
    ensures
        unique_match(move_entries(es, from, d), key) == unique_match(es, key),
{
    lemma_move_first_match(es, key, 0, from, d);
    if let Some(i) = first_match(es, key, 0) {
        lemma_move_first_match(es, key, i + 1, from, d);
    }
}

pub open spec fn moved_found(r: Result<Option<SpecEntry>, SpecVdfError>, from: int, d: int) -> Result<
    Option<SpecEntry>,
    SpecVdfError,
> {
    match r {
        Ok(Some(e)) => Ok(Some(move_entry(e, from, d))),
        Ok(None) => Ok(None),
        Err(x) => Err(x),
    }
}

pub proof fn lemma_first_match_in(es: Seq<SpecEntry>, key: Seq<u8>, k: int)
    ensures
        first_match(es, key, k) matches Some(i) ==> 0 <= i < es.len() && k <= i,
    decreases es.len() - k,
{
    if 0 <= k < es.len() && !key_eq(es[k].key, key) {
        lemma_first_match_in(es, key, k + 1);
    }
}

proof fn lemma_move_walk(e: SpecEntry, path: Seq<Seq<u8>>, from: int, d: int)
    ensures
        walk(move_entry(e, from, d), path) == moved_found(walk(e, path), from, d),
    decreases path.len(),
{
    if path.len() > 0 {
        if let SpecValue::Object { entries, .. } = e.value {
            lemma_move_unique_match(entries, path[0], from, d);
            lemma_move_index(entries, from, d);
            if let Ok(Some(i)) = unique_match(entries, path[0]) {
                lemma_first_match_in(entries, path[0], 0);
                lemma_move_walk(entries[i], path.subrange(1, path.len() as int), from, d);
            }
        }
    }
}

proof fn lemma_move_lookup_root(
    root: Seq<SpecEntry>,
    key: Seq<u8>,
    path: Seq<Seq<u8>>,
    from: int,
    d: int,
)
    ensures
        lookup_root(move_entries(root, from, d), key, path) == moved_found(
            lookup_root(root, key, path),
            from,
            d,
        ),
{
    lemma_move_unique_match(root, key, from, d);
    lemma_move_index(root, from, d);
    if let Ok(Some(i)) = unique_match(root, key) {
        lemma_first_match_in(root, key, 0);
        lemma_move_walk(root[i], path, from, d);
    }
}

/// Finding a game in a tree whose positions moved finds the same entry, moved.
pub proof fn lemma_move_find_app(root: Seq<SpecEntry>, app: Seq<u8>, from: int, d: int)
    ensures
        find_app_spec(move_entries(root, from, d), app) == match find_app_spec(root, app) {
            Ok(a) => Ok(move_entry(a, from, d)),
            Err(x) => Err(x),
        },
{
    lemma_move_lookup_root(root, crate::vdf::local_root_key(), crate::vdf::app_path(app), from, d);
    lemma_move_lookup_root(
        root,
        crate::vdf::roaming_root_key(),
        crate::vdf::app_path(app),
        from,
        d,
    );
}

// ---------------------------------------------------------------------------
// What a lookup finds lies in the tree
// ---------------------------------------------------------------------------

pub proof fn lemma_at_index(es: Seq<SpecEntry>, i: int, x: int, t: Seq<SpecToken>)
    requires
        0 <= i < es.len(),
    ensures
        entry_has_key_at(es[i], x) ==> has_key_at(es, x),
        entry_has_val_at(es[i], x) ==> has_val_at(es, x),
        vals_are_tokens(es, t) ==> entry_vals_are_tokens(es[i], t),
        closes_are_tokens(es, t) ==> entry_closes_are_tokens(es[i], t),
    decreases i,
{
    if i > 0 {
        let rest = es.subrange(1, es.len() as int);
        assert(rest[i - 1] == es[i]);
        lemma_at_index(rest, i - 1, x, t);
    }
}

proof fn lemma_walk_within(e: SpecEntry, path: Seq<Seq<u8>>, x: int, t: Seq<SpecToken>)
    requires
        walk(e, path) matches Ok(Some(_)),
    ensures
        entry_has_val_at(walk(e, path)->Ok_0->Some_0, x) ==> entry_has_val_at(e, x),
        entry_vals_are_tokens(e, t) ==> entry_vals_are_tokens(walk(e, path)->Ok_0->Some_0, t),
        entry_closes_are_tokens(e, t) ==> entry_closes_are_tokens(walk(e, path)->Ok_0->Some_0, t),
    decreases path.len(),
{
    if path.len() > 0 {
        if let SpecValue::Object { entries, .. } = e.value {
            if let Ok(Some(i)) = unique_match(entries, path[0]) {
                lemma_first_match_in(entries, path[0], 0);
                lemma_walk_within(entries[i], path.subrange(1, path.len() as int), x, t);
                lemma_at_index(entries, i, x, t);
            }
        }
    }
}

proof fn lemma_lookup_within(
    root: Seq<SpecEntry>,
    key: Seq<u8>,
    path: Seq<Seq<u8>>,
    x: int,
    t: Seq<SpecToken>,
)
    requires
        lookup_root(root, key, path) matches Ok(Some(_)),
    ensures
        entry_has_val_at(lookup_root(root, key, path)->Ok_0->Some_0, x) ==> has_val_at(root, x),
        vals_are_tokens(root, t) ==> entry_vals_are_tokens(
            lookup_root(root, key, path)->Ok_0->Some_0,
            t,
        ),
        closes_are_tokens(root, t) ==> entry_closes_are_tokens(
            lookup_root(root, key, path)->Ok_0->Some_0,
            t,
        ),
{
    let i = unique_match(root, key)->Ok_0->Some_0;
    lemma_first_match_in(root, key, 0);
    lemma_walk_within(root[i], path, x, t);
    lemma_at_index(root, i, x, t);
}

/// The game's object lies in the tree: its string values are values of the
/// tree, and tokens when those of the tree are.
pub proof fn lemma_find_app_within(root: Seq<SpecEntry>, app: Seq<u8>, x: int, t: Seq<SpecToken>)
    requires
        find_app_spec(root, app) is Ok,
    ensures
        entry_has_val_at(find_app_spec(root, app)->Ok_0, x) ==> has_val_at(root, x),
        vals_are_tokens(root, t) ==> entry_vals_are_tokens(find_app_spec(root, app)->Ok_0, t),
        closes_are_tokens(root, t) ==> entry_closes_are_tokens(find_app_spec(root, app)->Ok_0, t),
{
    let lk = crate::vdf::local_root_key();
    let rk = crate::vdf::roaming_root_key();
    let p = crate::vdf::app_path(app);
    if let Ok(Some(_)) = lookup_root(root, lk, p) {
        lemma_lookup_within(root, lk, p, x, t);
    }
    if let Ok(Some(_)) = lookup_root(root, rk, p) {
        lemma_lookup_within(root, rk, p, x, t);
    }
}

// ---------------------------------------------------------------------------
// Switching off twice
// ---------------------------------------------------------------------------

/// The parts of a replacing edit: the tokens, the tree of entries, the game's
/// object, its `CloudEnabled` entry, and the token that holds its value.
pub struct Replacing {
    pub ts: Seq<SpecToken>,
    pub root: Seq<SpecEntry>,
    pub ce: int,
    pub app_entry: SpecEntry,
    pub i: int,
    pub j: int,
    pub quoted: bool,
}

pub open spec fn replacing_facts(b: Seq<u8>, app: Seq<u8>, r: Replacing) -> bool {
    let e = cloud_edit(b, app)->Ok_0;
    let entries = r.app_entry.value->Object_entries;
    &&& crate::text::all_digits(app)
    &&& lex(b, lex_start(b)) == Ok::<Seq<SpecToken>, SpecVdfError>(r.ts)
    &&& parse_list(r.ts, 0, 0) == Ok::<(Seq<SpecEntry>, int), SpecVdfError>((r.root, r.ce))
    &&& find_app_spec(r.root, app) == Ok::<SpecEntry, SpecVdfError>(r.app_entry)
    &&& r.app_entry.value is Object
    &&& unique_match(entries, cloud_key()) == Ok::<Option<int>, SpecVdfError>(Some(r.i))
    &&& 0 <= r.i < entries.len()
    &&& entries[r.i].value == SpecValue::Text { start: e.start, end: e.end, quoted: r.quoted }
    &&& e.text == zero_text(r.quoted)
    &&& ordered(r.ts)
    &&& 0 <= r.j < r.ts.len()
    &&& r.ts[r.j].start == e.start
    &&& r.ts[r.j].end == e.end
    &&& r.ts[r.j].kind is Word
    &&& r.ts[r.j].kind->Word_quoted == r.quoted
    &&& !has_key_at(r.root, e.start)
}

#[verifier::rlimit(40)]
pub(crate) proof fn lemma_replacing(b: Seq<u8>, app: Seq<u8>) -> (r: Replacing)
    requires
        cloud_edit(b, app) matches Ok(e) && e.start < e.end,
    ensures
        replacing_facts(b, app, r),
{
    let o = lex_start(b);
    assert(tokens_of(b) == lex(b, o));
    let ts = lex(b, o)->Ok_0;
    let (root, ce) = parse_list(ts, 0, 0)->Ok_0;
    assert(parse_root(ts) == Ok::<Seq<SpecEntry>, SpecVdfError>(root));
    let a = find_app_spec(root, app)->Ok_0;
    let entries = a.value->Object_entries;
    let i = unique_match(entries, cloud_key())->Ok_0->Some_0;
    lemma_first_match_in(entries, cloud_key(), 0);
    let start = entries[i].value->Text_start;
    let quoted = entries[i].value->Text_quoted;
    lemma_lex_ordered(b, o);
    assert(ordered(ts));
    lemma_parse_list_facts(ts, 0, 0);
    lemma_at_index(entries, i, start, ts);
    lemma_find_app_within(root, app, start, ts);
    assert(has_val_at(root, start));
    assert(vals_are_tokens(entries, ts));
    assert(entry_vals_are_tokens(entries[i], ts));
    let j = choose|j: int|
        0 <= j < ts.len() && #[trigger] ts[j].start == start && ts[j].end == entries[i].value->Text_end
            && ts[j].kind == word_kind(ts[j].kind, quoted);
    Replacing { ts, root, ce, app_entry: a, i, j, quoted }
}

proof fn lemma_replaced_moved(ts: Seq<SpecToken>, j: int, quoted: bool)
    requires
        ordered(ts),
        0 <= j < ts.len(),
        ts[j].kind is Word,
        ts[j].kind->Word_quoted == quoted,
    ensures
        moved_tokens(
            ts,
            replaced_tokens(ts, j, quoted),
            ts[j].end,
            ts[j].start + zero_text(quoted).len() - ts[j].end,
            ts[j].start,
        ),
{
    let u = replaced_tokens(ts, j, quoted);
    let start = ts[j].start;
    let end = ts[j].end;
    let d = start + zero_text(quoted).len() - end;
    assert forall|x: int| 0 <= x < ts.len() implies {
        &&& #[trigger] u[x].start == moved(ts[x].start, end, d)
        &&& u[x].end == moved(ts[x].end, end, d)
        &&& same_sort(ts[x].kind, u[x].kind)
        &&& ts[x].start != start ==> u[x].kind == ts[x].kind
    } by {
        if x < j {
            assert(ts[x].end <= ts[j].start);
            assert(ts[x].start < ts[x].end);
        } else if x > j {
            assert(ts[j].end <= ts[x].start);
            assert(ts[x].start < ts[x].end);
            assert(u[x] == crate::relex::shift_token(ts[x], d));
        }
    }
}

/// Where the game already has a `CloudEnabled` entry (the edit covers some
/// bytes), switching off its cloud synchronisation a second time changes
/// nothing: the edited text reads into the same entries with the value now
/// `0`, and the second edit writes `0` over that `0`.
#[verifier::rlimit(40)]
pub proof fn lemma_replacing_twice(b: Seq<u8>, app: Seq<u8>)
    requires
        cloud_edit(b, app) matches Ok(e) && e.start < e.end,
    ensures
        ({
            let once = apply_edit(b, cloud_edit(b, app)->Ok_0);
            cloud_edit(once, app) matches Ok(e2) && apply_edit(once, e2) == once
        }),
{
    let e = cloud_edit(b, app)->Ok_0;
    let r = lemma_replacing(b, app);
    let ts = r.ts;
    let j = r.j;
    let quoted = r.quoted;
    let start = e.start;
    let end = e.end;
    let entries = r.app_entry.value->Object_entries;
    lemma_lex_ordered(b, lex_start(b));
    assert(0 <= start < end <= b.len());
    // The edited text splits into the same tokens, the value now `0`.
    lemma_replace_value(b, j);
    let once = apply_edit(b, e);
    assert(once == b.subrange(0, start) + zero_text(quoted) + b.subrange(end, b.len() as int));
    let u = replaced_tokens(ts, j, quoted);
    assert(tokens_of(once) == Ok::<Seq<SpecToken>, SpecVdfError>(u));
    let l = zero_text(quoted).len() as int;
    let d = start + l - end;
    lemma_replaced_moved(ts, j, quoted);
    // The entries are the same, moved; the game and its entry are found again.
    lemma_move_parse_list(ts, u, end, d, start, 0, 0);
    assert(parse_root(u) == Ok::<Seq<SpecEntry>, SpecVdfError>(move_entries(r.root, end, d)));
    lemma_move_find_app(r.root, app, end, d);
    lemma_move_unique_match(entries, cloud_key(), end, d);
    lemma_move_index(entries, end, d);
    assert(move_entries(entries, end, d)[r.i].value == SpecValue::Text {
        start,
        end: start + l,
        quoted,
    });
    let e2 = cloud_edit(once, app)->Ok_0;
    assert(e2.start == start && e2.end == start + l && e2.text == zero_text(quoted));
    let z = zero_text(quoted);
    assert(once.len() == b.len() - (end - start) + l);
    assert forall|x: int| 0 <= x < l implies #[trigger] once.subrange(start, start + l)[x] == z[x] by {
        assert(once[start + x] == z[x]);
    }
    assert(once.subrange(start, start + l) =~= z);
    assert(apply_edit(once, e2) =~= once);
}

} // verus!
