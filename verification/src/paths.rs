//! The accounts found under the game's save root.

use vstd::prelude::*;
use vstd::string::{StrSliceExecFns, StringSliceAdditionalSpecFns};
use std::path::PathBuf;
use crate::text::{all_digits, all_digits_exec, text_eq};

verus! {

#[verifier::external_type_specification]
#[verifier::external_body]
pub struct ExPathBuf(PathBuf);

/// `PathBuf::clone`: nothing is claimed of the copy (no view of paths is kept here).
pub assume_specification[ <PathBuf as Clone>::clone ](path: &PathBuf) -> PathBuf;

/// One account's save directory: its name (the SteamID64) and where it is.
#[derive(Debug, Clone, PartialEq, Eq)]
pub struct Account {
    pub id: String,
    pub path: PathBuf,
}

/// A directory name that names an account: a non-empty run of ASCII digits.
pub fn is_account_name(name: &str) -> (r: bool)
    ensures
        r == all_digits(name.spec_bytes()),
{
    all_digits_exec(name.as_bytes())
}

/// The message given when no account has the requested name.
pub open spec fn unknown_account_message(id: Seq<char>) -> Seq<char> {
    "未发现账号目录 "@ + id + "。请从实际列出的数字目录中选择。"@
}

/// The first account whose name is exactly `id`.
pub fn find_account<'a>(accounts: &'a [Account], id: &str) -> (r: Result<&'a Account, String>)
    ensures
        match r {
            Ok(a) => exists|i: int|
                0 <= i < accounts@.len() && *a == accounts@[i] && accounts@[i].id@ == id@ && forall|
                    j: int,
                | 0 <= j < i ==> accounts@[j].id@ != id@,
            Err(message) => message@ == unknown_account_message(id@) && forall|i: int|
                0 <= i < accounts@.len() ==> accounts@[i].id@ != id@,
        },
{
    let mut i: usize = 0;
    while i < accounts.len()
        invariant
            i <= accounts@.len(),
            forall|j: int| 0 <= j < i ==> accounts@[j].id@ != id@,
        decreases accounts.len() - i,
    {
        if text_eq(accounts[i].id.as_str(), id) {
            return Ok(&accounts[i]);
        }
        i = i + 1;
    }
    let message = String::from_str("未发现账号目录 ");
    let message = message.concat(id);
    let message = message.concat("。请从实际列出的数字目录中选择。");
    Err(message)
}

/// The order of `String`'s `Ord` on two texts: character by character, a
/// text before every longer text that begins with it. (For UTF-8 text,
/// comparing characters by code point and comparing bytes agree.)
pub open spec fn text_le_from(a: Seq<char>, b: Seq<char>, k: int) -> bool
    decreases a.len() - k,
{
    if k < 0 || k >= a.len() {
        true
    } else if k >= b.len() {
        false
    } else if a[k] != b[k] {
        a[k] < b[k]
    } else {
        text_le_from(a, b, k + 1)
    }
}

pub open spec fn text_le(a: Seq<char>, b: Seq<char>) -> bool {
    text_le_from(a, b, 0)
}

/// Accounts in the order of their names.
pub open spec fn sorted_by_id(s: Seq<Account>) -> bool {
    forall|i: int, j: int| 0 <= i < j < s.len() ==> text_le(#[trigger] s[i].id@, #[trigger] s[j].id@)
}

proof fn lemma_text_le_total(a: Seq<char>, b: Seq<char>, k: int)
    requires
        0 <= k,
    ensures
        text_le_from(a, b, k) || text_le_from(b, a, k),
    decreases a.len() - k,
{
    if k < a.len() && k < b.len() && a[k] == b[k] {
        lemma_text_le_total(a, b, k + 1);
    }
}

proof fn lemma_text_le_transitive(a: Seq<char>, b: Seq<char>, c: Seq<char>, k: int)
    requires
        0 <= k,
        text_le_from(a, b, k),
        text_le_from(b, c, k),
    ensures
        text_le_from(a, c, k),
    decreases a.len() - k,
{
    if k < a.len() && k < b.len() && k < c.len() && a[k] == b[k] && b[k] == c[k] {
        lemma_text_le_transitive(a, b, c, k + 1);
    }
}

fn id_le(a: &str, b: &str) -> (r: bool)
    ensures
        r == text_le(a@, b@),
{
    let n = a.unicode_len();
    let m = b.unicode_len();
    let mut k: usize = 0;
    while k < n
        invariant
            n == a@.len(),
            m == b@.len(),
            k <= n,
            text_le(a@, b@) == text_le_from(a@, b@, k as int),
        decreases n - k,
    {
        if k >= m {
            return false;
        }
        let x = a.get_char(k);
        let y = b.get_char(k);
        if x != y {
            return x < y;
        }
        k = k + 1;
    }
    true
}

/// Puts accounts in the order of their names, as the list of accounts is
/// shown; accounts with the same name keep their order.
pub fn sort_accounts(accounts: Vec<Account>) -> (r: Vec<Account>)
    ensures
        sorted_by_id(r@),
        r@.to_multiset() == accounts@.to_multiset(),
{
    broadcast use vstd::seq_lib::to_multiset_insert, vstd::seq_lib::to_multiset_build;

    let ghost all = accounts@;
    let mut rest = accounts;
    let mut out: Vec<Account> = Vec::new();
    let ghost mut k: int = 0;
    assert(out@ =~= all.subrange(0, 0));
    assert(rest@ =~= all.subrange(0, all.len() as int));
    while rest.len() > 0
        invariant
            0 <= k <= all.len(),
            rest@ == all.subrange(k, all.len() as int),
            out@.to_multiset() == all.subrange(0, k).to_multiset(),
            sorted_by_id(out@),
        decreases rest.len(),
    {
        let a = rest.remove(0);
        assert(a == all[k]);
        let mut j: usize = out.len();
        while j > 0 && !id_le(out[j - 1].id.as_str(), a.id.as_str())
            invariant
                j <= out.len(),
                forall|i: int| j <= i < out.len() ==> !text_le(#[trigger] out@[i].id@, a.id@),
            decreases j,
        {
            j = j - 1;
        }
        proof {
            assert forall|i: int| 0 <= i < j implies text_le(#[trigger] out@[i].id@, a.id@) by {
                if i < j - 1 {
                    lemma_text_le_transitive(out@[i].id@, out@[j - 1].id@, a.id@, 0);
                }
            }
            assert forall|i: int| j <= i < out.len() implies text_le(a.id@, #[trigger] out@[i].id@) by {
                lemma_text_le_total(out@[i].id@, a.id@, 0);
            }
            assert(all.subrange(0, k + 1) =~= all.subrange(0, k).push(a));
        }
        let ghost before = out@;
        out.insert(j, a);
        proof {
            before.insert_ensures(j as int, a);
            assert forall|x: int, y: int| 0 <= x < y < out@.len() implies text_le(
                #[trigger] out@[x].id@,
                #[trigger] out@[y].id@,
            ) by {
                if y < j {
                } else if y == j {
                } else if x < j {
                    assert(out@[y] == before[y - 1]);
                } else if x == j {
                    assert(out@[y] == before[y - 1]);
                } else {
                    assert(out@[x] == before[x - 1]);
                    assert(out@[y] == before[y - 1]);
                }
            }
            vstd::seq_lib::to_multiset_insert(before, j as int, a);
            vstd::seq_lib::to_multiset_build(all.subrange(0, k), a);
            assert(out@.to_multiset() == all.subrange(0, k + 1).to_multiset());
            k = k + 1;
            assert(rest@ =~= all.subrange(k, all.len() as int));
        }
    }
    assert(all.subrange(0, k) =~= all);
    out
}

/// Whether an environment value is present and not empty.
pub open spec fn given(v: Option<Seq<char>>) -> bool {
    v matches Some(t) && t.len() > 0
}

/// The components of the game's save root: below `LOCALAPPDATA` when it is
/// set and not empty, else below `USERPROFILE\AppData\Local`; nothing when
/// neither is usable.
pub open spec fn savedata_parts(local: Option<Seq<char>>, profile: Option<Seq<char>>) -> Option<
    Seq<Seq<char>>,
> {
    let tail = seq!["KoeiTecmo"@, "NIOH3"@, "Savedata"@];
    if given(local) {
        Some(seq![local->0] + tail)
    } else if given(profile) {
        Some(seq![profile->0, "AppData"@, "Local"@] + tail)
    } else {
        None
    }
}

pub open spec fn text_opt(v: Option<String>) -> Option<Seq<char>> {
    match v {
        Some(t) => Some(t@),
        None => None,
    }
}

pub open spec fn no_root_message() -> Seq<char> {
    "无法确定游戏存档目录：LOCALAPPDATA 和 USERPROFILE 均未设置，请指定存档目录。"@
}

/// The game's save root from the values of `LOCALAPPDATA` and `USERPROFILE`.
pub fn savedata_root(local_appdata: Option<String>, user_profile: Option<String>) -> (r: Result<
    Vec<String>,
    String,
>)
    ensures
        match savedata_parts(text_opt(local_appdata), text_opt(user_profile)) {
            Some(parts) => r matches Ok(v) && v@.map_values(|t: String| t@) == parts,
            None => r matches Err(m) && m@ == no_root_message(),
        },
{
    let mut parts: Vec<String> = Vec::new();
    let use_local = match &local_appdata {
        Some(l) => !l.as_str().is_empty(),
        None => false,
    };
    let use_profile = match &user_profile {
        Some(p) => !p.as_str().is_empty(),
        None => false,
    };
    if use_local {
        match local_appdata {
            Some(l) => parts.push(l),
            None => {},
        }
    } else if use_profile {
        match user_profile {
            Some(p) => parts.push(p),
            None => {},
        }
        parts.push(String::from_str("AppData"));
        parts.push(String::from_str("Local"));
    } else {
        return Err(String::from_str(
            "无法确定游戏存档目录：LOCALAPPDATA 和 USERPROFILE 均未设置，请指定存档目录。",
        ));
    }
    parts.push(String::from_str("KoeiTecmo"));
    parts.push(String::from_str("NIOH3"));
    parts.push(String::from_str("Savedata"));
    proof {
        let parts_spec = savedata_parts(text_opt(local_appdata), text_opt(user_profile));
        assert(parts@.map_values(|t: String| t@) =~= parts_spec->0);
    }
    Ok(parts)
}

// ---------------------------------------------------------------------------
// The asset directory
// ---------------------------------------------------------------------------

/// The parts, with the separator between each two.
pub open spec fn joined(parts: Seq<Seq<char>>, sep: Seq<char>) -> Seq<char>
    decreases parts.len(),
{
    if parts.len() == 0 {
        Seq::empty()
    } else if parts.len() == 1 {
        parts[0]
    } else {
        joined(parts.drop_last(), sep) + sep + parts.last()
    }
}

/// The message when no candidate holds the assets; `checked` lists the
/// candidates that were looked at.
pub open spec fn missing_assets_message(checked: Seq<char>) -> Seq<char> {
    "未找到资源目录：需要 HandMakeSave、MagicMakeSave、Nioh3SaveCertificateTool 三个目录及其中的 双击我改签v0.5.exe。已检查："@
        + (if checked.len() == 0 {
        "无法取得程序目录及当前目录"@
    } else {
        checked
    }) + "。请使用 --assets <资源目录> 指定。"@
}

/// Picks the asset directory among the candidates, in their order:
/// `complete[i]` tells whether the i-th candidate (shown as
/// `candidates[i]`) holds the three save directories and the signer. The
/// first complete one is taken; with none, the message lists every
/// candidate, separated by `；`.
pub fn asset_root_choice(candidates: &Vec<String>, complete: &Vec<bool>) -> (r: Result<
    usize,
    String,
>)
    requires
        candidates.len() == complete.len(),
    ensures
        match r {
            Ok(i) => i < complete.len() && complete@[i as int] && forall|j: int|
                0 <= j < i ==> !complete@[j],
            Err(m) => (forall|j: int| 0 <= j < complete.len() ==> !complete@[j]) && m@
                == missing_assets_message(joined(crate::cli::texts(candidates@), "；"@)),
        },
{
    let mut i: usize = 0;
    while i < complete.len()
        invariant
            i <= complete.len(),
            forall|j: int| 0 <= j < i ==> !complete@[j],
        decreases complete.len() - i,
    {
        if complete[i] {
            return Ok(i);
        }
        i = i + 1;
    }
    let ghost shown = crate::cli::texts(candidates@);
    let mut checked = String::new();
    let mut k: usize = 0;
    while k < candidates.len()
        invariant
            k <= candidates.len(),
            shown == crate::cli::texts(candidates@),
            checked@ == joined(shown.subrange(0, k as int), "；"@),
        decreases candidates.len() - k,
    {
        let ghost before = checked@;
        if k > 0 {
            checked.append("；");
        }
        checked.append(candidates[k].as_str());
        proof {
            let part = shown.subrange(0, k + 1);
            assert(part.drop_last() =~= shown.subrange(0, k as int));
            assert(part.last() == candidates@[k as int]@);
            if k == 0 {
                assert(checked@ =~= part[0]);
            }
        }
        k = k + 1;
    }
    assert(shown.subrange(0, candidates.len() as int) =~= shown);
    let mut m = String::from_str(
        "未找到资源目录：需要 HandMakeSave、MagicMakeSave、Nioh3SaveCertificateTool 三个目录及其中的 双击我改签v0.5.exe。已检查：",
    );
    if checked.as_str().unicode_len() == 0 {
        m.append("无法取得程序目录及当前目录");
    } else {
        m.append(checked.as_str());
    }
    m.append("。请使用 --assets <资源目录> 指定。");
    Err(m)
}

} // verus!
