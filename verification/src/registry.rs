//! Reading what Windows tools print about Steam: its install directory from
//! `reg query HKCU\Software\Valve\Steam /v SteamPath`, and whether it runs
//! from `tasklist /FI "IMAGENAME eq steam.exe" /FO CSV /NH`.

use vstd::prelude::*;
use vstd::string::StrSliceExecFns;
use crate::text::{trim_range, trimmed};

verus! {

// ---------------------------------------------------------------------------
// Lines
// ---------------------------------------------------------------------------

/// The first line feed at or after `i`, or the end of the text.
pub open spec fn next_newline(s: Seq<char>, i: int) -> int
    decreases s.len() - i,
{
    if i < 0 || i >= s.len() {
        s.len() as int
    } else if s[i] == '\n' {
        i
    } else {
        next_newline(s, i + 1)
    }
}

pub proof fn lemma_next_newline_bounds(s: Seq<char>, i: int)
    requires
        0 <= i <= s.len(),
    ensures
        i <= next_newline(s, i) <= s.len(),
        next_newline(s, i) < s.len() ==> s[next_newline(s, i)] == '\n',
    decreases s.len() - i,
{
    if i < s.len() && s[i] != '\n' {
        lemma_next_newline_bounds(s, i + 1);
    }
}

/// The line that starts at `i`, without its line feed and without a carriage
/// return right before that line feed.
pub open spec fn line_at(s: Seq<char>, i: int) -> Seq<char> {
    let e = next_newline(s, i);
    if e < s.len() && i < e && s[e - 1] == '\r' {
        s.subrange(i, e - 1)
    } else {
        s.subrange(i, e)
    }
}

/// `str::lines` from position `i` on: the final line feed is optional, and a
/// text that ends with one has no empty last line.
pub open spec fn lines_from(s: Seq<char>, i: int) -> Seq<Seq<char>>
    decreases s.len() + 1 - i,
{
    if i < 0 || i >= s.len() {
        Seq::empty()
    } else {
        proof {
            lemma_next_newline_bounds(s, i);
        }
        seq![line_at(s, i)] + lines_from(s, next_newline(s, i) + 1)
    }
}

// ---------------------------------------------------------------------------
// The SteamPath value
// ---------------------------------------------------------------------------

/// The type name that separates a value's name from its data.
pub open spec fn reg_sz() -> Seq<char> {
    seq!['R', 'E', 'G', '_', 'S', 'Z']
}

/// The name looked for, in lower case.
pub open spec fn steam_path_name() -> Seq<char> {
    seq!['s', 't', 'e', 'a', 'm', 'p', 'a', 't', 'h']
}

/// The code of a character with ASCII capitals made small.
pub open spec fn lower_code(c: char) -> u32 {
    let v = c as u32;
    if 65 <= v <= 90 {
        (v + 32) as u32
    } else {
        v
    }
}

/// `str::eq_ignore_ascii_case` against a lower-case ASCII word.
pub open spec fn same_ignoring_case(a: Seq<char>, word: Seq<char>) -> bool {
    &&& a.len() == word.len()
    &&& forall|k: int| 0 <= k < a.len() ==> lower_code(#[trigger] a[k]) == word[k] as u32
}

/// Where `pattern` first occurs in `line` at or after `k` (`str::split_once`).
pub open spec fn find_from(line: Seq<char>, pattern: Seq<char>, k: int) -> Option<int>
    decreases line.len() + 1 - k,
{
    if k < 0 || k + pattern.len() > line.len() {
        None
    } else if line.subrange(k, k + pattern.len()) == pattern {
        Some(k)
    } else {
        find_from(line, pattern, k + 1)
    }
}

/// The data of a line `SteamPath    REG_SZ    <data>`, trimmed; the name is
/// what stands before the first `REG_SZ`, trimmed, in any case.
pub open spec fn steam_path_in(line: Seq<char>) -> Option<Seq<char>> {
    match find_from(line, reg_sz(), 0) {
        Some(p) => if same_ignoring_case(trimmed(line.subrange(0, p)), steam_path_name()) {
            Some(trimmed(line.subrange(p + 6, line.len() as int)))
        } else {
            None
        },
        None => None,
    }
}

/// The SteamPath data of every line, in order.
pub open spec fn steam_paths(lines: Seq<Seq<char>>) -> Seq<Seq<char>>
    decreases lines.len(),
{
    if lines.len() == 0 {
        Seq::empty()
    } else {
        let before = steam_paths(lines.drop_last());
        match steam_path_in(lines.last()) {
            Some(v) => before.push(v),
            None => before,
        }
    }
}

pub open spec fn views(v: Seq<String>) -> Seq<Seq<char>> {
    v.map_values(|s: String| s@)
}

fn next_newline_exec(s: &str, n: usize, i: usize) -> (e: usize)
    requires
        n == s@.len(),
        i <= n,
    ensures
        e == next_newline(s@, i as int),
{
    let mut e = i;
    while e < n && s.get_char(e) != '\n'
        invariant
            n == s@.len(),
            i <= e <= n,
            next_newline(s@, i as int) == next_newline(s@, e as int),
        decreases n - e,
    {
        e = e + 1;
    }
    e
}

fn split_lines(s: &str) -> (r: Vec<&str>)
    ensures
        r@.map_values(|l: &str| l@) == lines_from(s@, 0),
{
    let n = s.unicode_len();
    let mut out: Vec<&str> = Vec::new();
    let mut i: usize = 0;
    while i < n
        invariant
            n == s@.len(),
            i <= n,
            lines_from(s@, 0) == out@.map_values(|l: &str| l@) + lines_from(s@, i as int),
        decreases n - i,
    {
        let e = next_newline_exec(s, n, i);
        proof {
            lemma_next_newline_bounds(s@, i as int);
        }
        let line = if e < n && i < e && s.get_char(e - 1) == '\r' {
            s.substring_char(i, e - 1)
        } else {
            s.substring_char(i, e)
        };
        assert(line@ == line_at(s@, i as int));
        let ghost before = out@;
        out.push(line);
        assert(out@.map_values(|l: &str| l@) =~= before.map_values(|l: &str| l@).push(line@));
        assert(lines_from(s@, i as int) == seq![line_at(s@, i as int)] + lines_from(
            s@,
            e + 1,
        ));
        assert(before.map_values(|l: &str| l@) + lines_from(s@, i as int) =~= out@.map_values(
            |l: &str| l@,
        ) + lines_from(s@, e + 1));
        i = if e < n {
            e + 1
        } else {
            n
        };
    }
    assert(lines_from(s@, i as int) =~= Seq::<Seq<char>>::empty());
    assert(out@.map_values(|l: &str| l@) + Seq::<Seq<char>>::empty() =~= out@.map_values(
        |l: &str| l@,
    ));
    out
}

proof fn lemma_find_from_bounds(line: Seq<char>, pattern: Seq<char>, k: int)
    ensures
        find_from(line, pattern, k) matches Some(p) ==> k <= p && p + pattern.len() <= line.len(),
    decreases line.len() + 1 - k,
{
    if !(k < 0 || k + pattern.len() > line.len()) && line.subrange(k, k + pattern.len())
        != pattern {
        lemma_find_from_bounds(line, pattern, k + 1);
    }
}

fn reg_sz_at(line: &str, n: usize, k: usize) -> (r: bool)
    requires
        n == line@.len(),
        k + 6 <= n,
    ensures
        r == (line@.subrange(k as int, k + 6) == reg_sz()),
{
    let r = line.get_char(k) == 'R' && line.get_char(k + 1) == 'E' && line.get_char(k + 2) == 'G'
        && line.get_char(k + 3) == '_' && line.get_char(k + 4) == 'S' && line.get_char(k + 5)
        == 'Z';
    assert(r ==> line@.subrange(k as int, k + 6) =~= reg_sz());
    assert(line@.subrange(k as int, k + 6) == reg_sz() ==> line@.subrange(k as int, k + 6)[0]
        == 'R' && line@.subrange(k as int, k + 6)[1] == 'E' && line@.subrange(k as int, k + 6)[2]
        == 'G' && line@.subrange(k as int, k + 6)[3] == '_' && line@.subrange(k as int, k + 6)[4]
        == 'S' && line@.subrange(k as int, k + 6)[5] == 'Z');
    r
}

fn find_reg_sz(line: &str) -> (r: Option<usize>)
    ensures
        match find_from(line@, reg_sz(), 0) {
            Some(p) => r matches Some(q) && q == p,
            None => r is None,
        },
{
    let n = line.unicode_len();
    let mut k: usize = 0;
    while n >= 6 && k <= n - 6
        invariant
            n == line@.len(),
            k <= n,
            find_from(line@, reg_sz(), 0) == find_from(line@, reg_sz(), k as int),
        decreases n - k,
    {
        if reg_sz_at(line, n, k) {
            return Some(k);
        }
        k = k + 1;
    }
    None
}

fn lower_code_exec(c: char) -> (r: u32)
    ensures
        r == lower_code(c),
{
    let v = c as u32;
    if 65 <= v && v <= 90 {
        v + 32
    } else {
        v
    }
}

/// Whether the characters `from..to` of `s` spell `SteamPath` in any case.
fn names_steam_path(s: &str, from: usize, to: usize) -> (r: bool)
    requires
        from <= to <= s@.len(),
    ensures
        r == same_ignoring_case(s@.subrange(from as int, to as int), steam_path_name()),
{
    let ghost name = s@.subrange(from as int, to as int);
    if to - from != 9 {
        return false;
    }
    let word: [u32; 9] = [115, 116, 101, 97, 109, 112, 97, 116, 104];
    assert(forall|k: int| 0 <= k < 9 ==> word@[k] == steam_path_name()[k] as u32);
    let mut k: usize = 0;
    while k < 9
        invariant
            from <= to <= s@.len(),
            to - from == 9,
            name == s@.subrange(from as int, to as int),
            forall|j: int| 0 <= j < 9 ==> word@[j] == steam_path_name()[j] as u32,
            k <= 9,
            forall|j: int| 0 <= j < k ==> lower_code(#[trigger] name[j]) == steam_path_name()[j] as u32,
        decreases 9 - k,
    {
        let c = s.get_char(from + k);
        assert(c == name[k as int]);
        if lower_code_exec(c) != word[k] {
            return false;
        }
        k = k + 1;
    }
    true
}

/// The directories that `reg query ... /v SteamPath` names, in the order of
/// its lines; the caller takes the first that exists.
pub fn steam_path_candidates(reg_output: &str) -> (r: Vec<String>)
    ensures
        views(r@) == steam_paths(lines_from(reg_output@, 0)),
{
    let lines = split_lines(reg_output);
    let ghost all = lines@.map_values(|l: &str| l@);
    let mut out: Vec<String> = Vec::new();
    let mut k: usize = 0;
    while k < lines.len()
        invariant
            all == lines@.map_values(|l: &str| l@),
            all == lines_from(reg_output@, 0),
            k <= lines.len(),
            views(out@) == steam_paths(all.subrange(0, k as int)),
        decreases lines.len() - k,
    {
        let line = lines[k];
        assert(all.subrange(0, k + 1).drop_last() =~= all.subrange(0, k as int));
        assert(all.subrange(0, k + 1).last() == line@);
        let ghost before = out@;
        match find_reg_sz(line) {
            Some(p) => {
                proof {
                    lemma_find_from_bounds(line@, reg_sz(), 0);
                }
                let name = line.substring_char(0, p);
                let (a, b) = trim_range(name);
                assert(trimmed(line@.subrange(0, p as int)) == name@.subrange(a as int, b as int));
                assert(find_from(line@, reg_sz(), 0) == Some(p as int));
                if names_steam_path(name, a, b) {
                    let n = line.unicode_len();
                    let data = line.substring_char(p + 6, n);
                    let (c, d) = trim_range(data);
                    let value = data.substring_char(c, d);
                    assert(steam_path_in(line@) == Some(value@));
                    out.push(String::from_str(value));
                    assert(views(out@) =~= views(before).push(value@));
                } else {
                    assert(steam_path_in(line@) is None);
                }
            },
            None => {
                assert(steam_path_in(line@) is None);
            },
        }
        k = k + 1;
    }
    assert(all.subrange(0, lines.len() as int) =~= all);
    out
}

/// Where Steam usually is when the registry does not say, as path parts,
/// in the order they are tried: `Steam` under the 32-bit program files
/// directory (`C:\Program Files (x86)` when the environment does not name
/// it), then `D:\Steam` and `E:\Steam`.
pub open spec fn usual_steam_dirs(program_files_x86: Option<Seq<char>>) -> Seq<Seq<Seq<char>>> {
    let base = match program_files_x86 {
        Some(p) => p,
        None => "C:\\Program Files (x86)"@,
    };
    seq![seq![base, "Steam"@], seq!["D:\\Steam"@], seq!["E:\\Steam"@]]
}

/// The usual Steam directories, as path parts (see [`usual_steam_dirs`]);
/// the caller takes the first that exists.
pub fn usual_steam_dir_parts(program_files_x86: Option<String>) -> (r: Vec<Vec<String>>)
    ensures
        r@.map_values(|parts: Vec<String>| views(parts@)) == usual_steam_dirs(
            match program_files_x86 {
                Some(p) => Some(p@),
                None => None,
            },
        ),
{
    let base = match program_files_x86 {
        Some(p) => p,
        None => String::from_str("C:\\Program Files (x86)"),
    };
    let first = vec![base, String::from_str("Steam")];
    let second = vec![String::from_str("D:\\Steam")];
    let third = vec![String::from_str("E:\\Steam")];
    let r = vec![first, second, third];
    assert(views(r@[0]@) =~= seq![r@[0]@[0]@, "Steam"@]);
    assert(views(r@[1]@) =~= seq!["D:\\Steam"@]);
    assert(views(r@[2]@) =~= seq!["E:\\Steam"@]);
    assert(r@.map_values(|parts: Vec<String>| views(parts@)) =~= seq![
        views(r@[0]@),
        views(r@[1]@),
        views(r@[2]@),
    ]);
    r
}

// ---------------------------------------------------------------------------
// The Steam process
// ---------------------------------------------------------------------------

/// The start of a CSV line of `tasklist` for Steam's process, in lower case.
pub open spec fn steam_row_start() -> Seq<char> {
    seq!['"', 's', 't', 'e', 'a', 'm', '.', 'e', 'x', 'e', '"', ',']
}

/// A line that, in ASCII lower case, starts with `"steam.exe",`.
pub open spec fn is_steam_row(line: Seq<char>) -> bool {
    &&& line.len() >= 12
    &&& forall|k: int| 0 <= k < 12 ==> lower_code(#[trigger] line[k]) == steam_row_start()[k] as u32
}

/// Some line of `tasklist` output is Steam's process.
pub open spec fn lists_steam(lines: Seq<Seq<char>>) -> bool {
    exists|i: int| 0 <= i < lines.len() && is_steam_row(#[trigger] lines[i])
}

fn steam_row(line: &str) -> (r: bool)
    ensures
        r == is_steam_row(line@),
{
    let n = line.unicode_len();
    if n < 12 {
        return false;
    }
    let row: [u32; 12] = [34, 115, 116, 101, 97, 109, 46, 101, 120, 101, 34, 44];
    assert(forall|k: int| 0 <= k < 12 ==> row@[k] == steam_row_start()[k] as u32);
    let mut k: usize = 0;
    while k < 12
        invariant
            n == line@.len(),
            n >= 12,
            k <= 12,
            forall|j: int| 0 <= j < 12 ==> row@[j] == steam_row_start()[j] as u32,
            forall|j: int| 0 <= j < k ==> lower_code(#[trigger] line@[j]) == steam_row_start()[j] as u32,
        decreases 12 - k,
    {
        if lower_code_exec(line.get_char(k)) != row[k] {
            return false;
        }
        k = k + 1;
    }
    true
}

/// Whether the output of `tasklist` lists Steam's process.
pub fn steam_listed(tasklist_output: &str) -> (r: bool)
    ensures
        r == lists_steam(lines_from(tasklist_output@, 0)),
{
    let lines = split_lines(tasklist_output);
    let ghost all = lines@.map_values(|l: &str| l@);
    let mut k: usize = 0;
    while k < lines.len()
        invariant
            all == lines@.map_values(|l: &str| l@),
            all == lines_from(tasklist_output@, 0),
            k <= lines.len(),
            forall|j: int| 0 <= j < k ==> !is_steam_row(#[trigger] all[j]),
        decreases lines.len() - k,
    {
        if steam_row(lines[k]) {
            assert(is_steam_row(all[k as int]));
            assert(0 <= k < all.len());
            return true;
        }
        k = k + 1;
    }
    false
}

} // verus!
