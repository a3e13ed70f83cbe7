//! The command line and the answers typed at the console's prompts.

use vstd::prelude::*;
use vstd::string::{StrSliceExecFns, StringSliceAdditionalSpecFns};
use crate::text::{parse_u64, parse_unsigned, text_eq, trim_range, trimmed};

verus! {

// ---------------------------------------------------------------------------
// Answers at the prompts
// ---------------------------------------------------------------------------

/// A path as typed or dropped into the console: trimmed, and without one
/// pair of matching double or single quotes around it.
pub open spec fn unquoted(s: Seq<char>) -> Seq<char> {
    let t = trimmed(s);
    if t.len() >= 2 && ((t[0] == '"' && t[t.len() - 1] == '"') || (t[0] == '\'' && t[t.len()
        - 1] == '\'')) {
        t.subrange(1, t.len() - 1)
    } else {
        t
    }
}

/// Removes the quotes that Explorer adds to a dragged path, and the white
/// space around it.
pub fn strip_quotes(value: &str) -> (r: &str)
    ensures
        r@ == unquoted(value@),
{
    let (a, b) = trim_range(value);
    let ghost t = trimmed(value@);
    assert(t =~= value@.subrange(a as int, b as int));
    if b - a >= 2 {
        let first = value.get_char(a);
        let last = value.get_char(b - 1);
        if (first == '"' && last == '"') || (first == '\'' && last == '\'') {
            let inner = value.substring_char(a + 1, b - 1);
            assert(inner@ =~= t.subrange(1, t.len() - 1));
            return inner;
        }
    }
    value.substring_char(a, b)
}

/// An answer that cancels a choice: nothing, `q` or `n`, in either case.
pub open spec fn is_cancel(s: Seq<char>) -> bool {
    ||| s.len() == 0
    ||| s == seq!['q']
    ||| s == seq!['Q']
    ||| s == seq!['n']
    ||| s == seq!['N']
}

/// Whether an answer cancels the choice.
pub fn cancelled(value: &str) -> (r: bool)
    ensures
        r == is_cancel(value@),
{
    let n = value.unicode_len();
    if n == 0 {
        return true;
    }
    if n != 1 {
        return false;
    }
    let c = value.get_char(0);
    let r = c == 'q' || c == 'Q' || c == 'n' || c == 'N';
    assert(r ==> value@ =~= seq![c]);
    assert(value@ == seq!['q'] ==> c == 'q');
    assert(value@ == seq!['Q'] ==> c == 'Q');
    assert(value@ == seq!['n'] ==> c == 'n');
    assert(value@ == seq!['N'] ==> c == 'N');
    r
}

/// An answer that agrees: `y` in either case.
pub open spec fn is_yes(s: Seq<char>) -> bool {
    s == seq!['y'] || s == seq!['Y']
}

/// Whether an answer to a yes/no question agrees; anything else declines.
pub fn agreed(value: &str) -> (r: bool)
    ensures
        r == is_yes(value@),
{
    if value.unicode_len() != 1 {
        return false;
    }
    let c = value.get_char(0);
    assert(value@ =~= seq![c]);
    c == 'y' || c == 'Y'
}

/// An answer at the prompt for a custom save directory.
#[derive(Debug, Clone, Copy, PartialEq, Eq)]
pub enum SourceAnswer<'a> {
    /// `q` in either case: no custom save.
    Cancel,
    /// Nothing (once quotes and white space are gone): the default directory.
    Default,
    /// The directory typed or dropped.
    Directory(&'a str),
}

/// Reads the answer at the prompt for a custom save directory.
pub fn source_answer(value: &str) -> (r: SourceAnswer)
    ensures
        (value@ == seq!['q'] || value@ == seq!['Q']) ==> r == SourceAnswer::Cancel,
        !(value@ == seq!['q'] || value@ == seq!['Q']) ==> match r {
            SourceAnswer::Cancel => false,
            SourceAnswer::Default => unquoted(value@).len() == 0,
            SourceAnswer::Directory(d) => d@ == unquoted(value@) && d@.len() > 0,
        },
{
    if value.unicode_len() == 1 {
        let c = value.get_char(0);
        assert(value@ =~= seq![c]);
        if c == 'q' || c == 'Q' {
            return SourceAnswer::Cancel;
        }
    }
    let entered = strip_quotes(value);
    if entered.unicode_len() == 0 {
        SourceAnswer::Default
    } else {
        SourceAnswer::Directory(entered)
    }
}

/// The list position that a typed number selects among `count` entries
/// numbered from 1: nothing for text that is not a number, for 0, or for a
/// number past the end.
pub open spec fn selected(bytes: Seq<u8>, count: int) -> Option<int> {
    match parse_unsigned(bytes, usize::MAX as int) {
        Some(n) => if 1 <= n <= count {
            Some(n - 1)
        } else {
            None
        },
        None => None,
    }
}

/// Reads an account number typed at the prompt.
pub fn selection_index(value: &str, count: usize) -> (r: Option<usize>)
    ensures
        match selected(value.spec_bytes(), count as int) {
            Some(i) => r == Some(i as usize),
            None => r is None,
        },
{
    let parsed = parse_u64(value.as_bytes());
    match parsed {
        None => None,
        Some(n) => {
            if n > usize::MAX as u64 {
                return None;
            }
            let n = n as usize;
            if n >= 1 && n <= count {
                Some(n - 1)
            } else {
                None
            }
        },
    }
}

/// A choice at the menu of save kinds.
#[derive(Debug, Clone, Copy, PartialEq, Eq, Structural)]
pub enum KindChoice {
    Hand,
    Magic,
    Custom,
    Cancel,
    /// Anything else: the menu is shown again.
    Again,
}

pub open spec fn kind_choice_of(s: Seq<char>) -> KindChoice {
    if s == seq!['1'] {
        KindChoice::Hand
    } else if s == seq!['2'] {
        KindChoice::Magic
    } else if s == seq!['3'] {
        KindChoice::Custom
    } else if is_cancel(s) {
        KindChoice::Cancel
    } else {
        KindChoice::Again
    }
}

/// Reads the answer at the menu of save kinds.
pub fn kind_choice(value: &str) -> (r: KindChoice)
    ensures
        r == kind_choice_of(value@),
{
    if value.unicode_len() == 1 {
        let c = value.get_char(0);
        assert(value@ =~= seq![c]);
        if c == '1' {
            return KindChoice::Hand;
        } else if c == '2' {
            return KindChoice::Magic;
        } else if c == '3' {
            return KindChoice::Custom;
        }
    }
    if cancelled(value) {
        KindChoice::Cancel
    } else {
        KindChoice::Again
    }
}

// ---------------------------------------------------------------------------
// The command line
// ---------------------------------------------------------------------------

/// What the command line asks for. Paths are kept as they were typed.
#[derive(Debug, Clone)]
pub struct Options {
    pub assets: Option<String>,
    pub savedata_root: Option<String>,
    pub steam_dir: Option<String>,
    pub source_dir: Option<String>,
    pub account: Option<String>,
    pub check: bool,
    pub preview_confirmation: bool,
    pub help: bool,
}

pub struct OptionsView {
    pub assets: Option<Seq<char>>,
    pub savedata_root: Option<Seq<char>>,
    pub steam_dir: Option<Seq<char>>,
    pub source_dir: Option<Seq<char>>,
    pub account: Option<Seq<char>>,
    pub check: bool,
    pub preview_confirmation: bool,
    pub help: bool,
}

pub open spec fn text_of(s: Option<String>) -> Option<Seq<char>> {
    match s {
        Some(t) => Some(t@),
        None => None,
    }
}

impl View for Options {
    type V = OptionsView;

    open spec fn view(&self) -> OptionsView {
        OptionsView {
            assets: text_of(self.assets),
            savedata_root: text_of(self.savedata_root),
            steam_dir: text_of(self.steam_dir),
            source_dir: text_of(self.source_dir),
            account: text_of(self.account),
            check: self.check,
            preview_confirmation: self.preview_confirmation,
            help: self.help,
        }
    }
}

/// Why the command line was refused.
#[derive(Debug, Clone)]
pub enum ArgError {
    /// An option that takes a value came last.
    MissingValue(String),
    /// An option was given an empty value.
    EmptyValue(String),
    /// The account is not a directory name made of digits.
    AccountNotDigits,
    /// Not an option of this program.
    Unknown(String),
}

pub enum SpecArgError {
    MissingValue(Seq<char>),
    EmptyValue(Seq<char>),
    AccountNotDigits,
    Unknown(Seq<char>),
}

impl View for ArgError {
    type V = SpecArgError;

    open spec fn view(&self) -> SpecArgError {
        match self {
            ArgError::MissingValue(a) => SpecArgError::MissingValue(a@),
            ArgError::EmptyValue(a) => SpecArgError::EmptyValue(a@),
            ArgError::AccountNotDigits => SpecArgError::AccountNotDigits,
            ArgError::Unknown(a) => SpecArgError::Unknown(a@),
        }
    }
}

/// The options that take a value.
pub open spec fn takes_value(a: Seq<char>) -> bool {
    ||| a == "--assets"@
    ||| a == "--savedata-root"@
    ||| a == "--steam-dir"@
    ||| a == "--source-dir"@
    ||| a == "--account"@
}

pub open spec fn all_decimal(v: Seq<char>) -> bool {
    forall|k: int| 0 <= k < v.len() ==> 48 <= (#[trigger] v[k] as u32) <= 57
}

/// The options that the value `v` of option `a` gives, on top of `o`.
pub open spec fn with_value(o: OptionsView, a: Seq<char>, v: Seq<char>) -> OptionsView {
    if a == "--assets"@ {
        OptionsView { assets: Some(v), ..o }
    } else if a == "--savedata-root"@ {
        OptionsView { savedata_root: Some(v), ..o }
    } else if a == "--steam-dir"@ {
        OptionsView { steam_dir: Some(v), ..o }
    } else if a == "--source-dir"@ {
        OptionsView { source_dir: Some(v), ..o }
    } else {
        OptionsView { account: Some(v), ..o }
    }
}

/// Reads the arguments from position `i` on into `o`. Flags may repeat; a
/// later value replaces an earlier one.
pub open spec fn parse_from(args: Seq<Seq<char>>, i: int, o: OptionsView) -> Result<
    OptionsView,
    SpecArgError,
>
    decreases args.len() - i,
{
    if i < 0 || i >= args.len() {
        Ok(o)
    } else {
        let a = args[i];
        if a == "--check"@ {
            parse_from(args, i + 1, OptionsView { check: true, ..o })
        } else if a == "--preview-confirmation"@ {
            parse_from(args, i + 1, OptionsView { preview_confirmation: true, ..o })
        } else if a == "--help"@ || a == "-h"@ {
            parse_from(args, i + 1, OptionsView { help: true, ..o })
        } else if takes_value(a) {
            if i + 1 >= args.len() {
                Err(SpecArgError::MissingValue(a))
            } else {
                let v = args[i + 1];
                if v.len() == 0 {
                    Err(SpecArgError::EmptyValue(a))
                } else if a == "--assets"@ || a == "--savedata-root"@ || a == "--steam-dir"@
                    || a == "--source-dir"@ || all_decimal(v) {
                    parse_from(args, i + 2, with_value(o, a, v))
                } else {
                    Err(SpecArgError::AccountNotDigits)
                }
            }
        } else {
            Err(SpecArgError::Unknown(a))
        }
    }
}

pub open spec fn no_options() -> OptionsView {
    OptionsView {
        assets: None,
        savedata_root: None,
        steam_dir: None,
        source_dir: None,
        account: None,
        check: false,
        preview_confirmation: false,
        help: false,
    }
}

/// The options that take no value: `--check`, `--preview-confirmation`, and
/// `--help` with its short spelling `-h`.
pub open spec fn is_flag(a: Seq<char>) -> bool {
    a == "--check"@ || a == "--preview-confirmation"@ || a == "--help"@ || a == "-h"@
}

/// Whether the options have the flag `f` set.
pub open spec fn flag_set(o: OptionsView, f: Seq<char>) -> bool {
    if f == "--check"@ {
        o.check
    } else if f == "--preview-confirmation"@ {
        o.preview_confirmation
    } else {
        o.help
    }
}

/// Argument `a` sets the flag `f`: it is `f`, or both are spellings of help.
pub open spec fn sets_flag(a: Seq<char>, f: Seq<char>) -> bool {
    a == f || ((a == "--help"@ || a == "-h"@) && (f == "--help"@ || f == "-h"@))
}

/// Arguments that read without error up to their end are read the same way
/// at the front of a longer command line.
proof fn lemma_parse_prefix(pre: Seq<Seq<char>>, post: Seq<Seq<char>>, i: int, o: OptionsView)
    requires
        0 <= i <= pre.len(),
        parse_from(pre, i, o) is Ok,
    ensures
        parse_from(pre + post, i, o) == parse_from(
            pre + post,
            pre.len() as int,
            parse_from(pre, i, o)->Ok_0,
        ),
    decreases pre.len() - i,
{
    if i < pre.len() {
        let x = pre + post;
        let a = pre[i];
        assert(x[i] == a);
        if a == "--check"@ {
            lemma_parse_prefix(pre, post, i + 1, OptionsView { check: true, ..o });
        } else if a == "--preview-confirmation"@ {
            lemma_parse_prefix(pre, post, i + 1, OptionsView { preview_confirmation: true, ..o });
        } else if a == "--help"@ || a == "-h"@ {
            lemma_parse_prefix(pre, post, i + 1, OptionsView { help: true, ..o });
        } else if takes_value(a) {
            assert(x[i + 1] == pre[i + 1]);
            lemma_parse_prefix(pre, post, i + 2, with_value(o, a, pre[i + 1]));
        }
    }
}

proof fn lemma_flag_stays(args: Seq<Seq<char>>, i: int, o: OptionsView, f: Seq<char>)
    requires
        flag_set(o, f),
    ensures
        parse_from(args, i, o) matches Ok(q) ==> flag_set(q, f),
    decreases args.len() - i,
{
    if 0 <= i < args.len() {
        let a = args[i];
        if a == "--check"@ {
            lemma_flag_stays(args, i + 1, OptionsView { check: true, ..o }, f);
        } else if a == "--preview-confirmation"@ {
            lemma_flag_stays(args, i + 1, OptionsView { preview_confirmation: true, ..o }, f);
        } else if a == "--help"@ || a == "-h"@ {
            lemma_flag_stays(args, i + 1, OptionsView { help: true, ..o }, f);
        } else if takes_value(a) && i + 1 < args.len() {
            lemma_flag_stays(args, i + 2, with_value(o, a, args[i + 1]), f);
        }
    }
}

proof fn lemma_flag_given(args: Seq<Seq<char>>, i: int, o: OptionsView, f: Seq<char>)
    requires
        0 <= i,
        is_flag(f),
    ensures
        parse_from(args, i, o) matches Ok(q) && flag_set(q, f) ==> flag_set(o, f) || exists|k: int|
            i <= k < args.len() && sets_flag(#[trigger] args[k], f),
    decreases args.len() - i,
{
    if i < args.len() {
        let a = args[i];
        if a == "--check"@ {
            let o2 = OptionsView { check: true, ..o };
            lemma_flag_given(args, i + 1, o2, f);
            assert(flag_set(o2, f) ==> flag_set(o, f) || sets_flag(args[i], f));
        } else if a == "--preview-confirmation"@ {
            let o2 = OptionsView { preview_confirmation: true, ..o };
            lemma_flag_given(args, i + 1, o2, f);
            assert(flag_set(o2, f) ==> flag_set(o, f) || sets_flag(args[i], f));
        } else if a == "--help"@ || a == "-h"@ {
            let o2 = OptionsView { help: true, ..o };
            lemma_flag_given(args, i + 1, o2, f);
            assert(flag_set(o2, f) ==> flag_set(o, f) || sets_flag(args[i], f));
        } else if takes_value(a) && i + 1 < args.len() {
            lemma_flag_given(args, i + 2, with_value(o, a, args[i + 1]), f);
        }
    }
}

/// Each flag takes effect wherever it stands as an option, and `-h` asks for
/// help as `--help` does: put after arguments that read without error, a
/// flag gives a command line that reads without error with that flag set,
/// and whatever follows, the flag stays set. Nothing else sets a flag: a
/// command line read with a flag set holds that flag (for help, either
/// spelling).
pub proof fn law_flags_take_effect_wherever_they_stand(
    pre: Seq<Seq<char>>,
    flag: Seq<char>,
    post: Seq<Seq<char>>,
    args: Seq<Seq<char>>,
)
    ensures
        parse_from(pre, 0, no_options()) is Ok && is_flag(flag) ==> {
            &&& parse_from(pre + seq![flag], 0, no_options()) matches Ok(q) && flag_set(q, flag)
            &&& parse_from(pre + seq![flag] + post, 0, no_options()) matches Ok(q) ==> flag_set(
                q,
                flag,
            )
        },
        is_flag(flag) ==> (parse_from(args, 0, no_options()) matches Ok(q) && flag_set(q, flag)
            ==> exists|k: int| 0 <= k < args.len() && sets_flag(#[trigger] args[k], flag)),
{
    reveal_strlit("--check");
    reveal_strlit("--preview-confirmation");
    reveal_strlit("--help");
    reveal_strlit("-h");
    if is_flag(flag) {
        lemma_flag_given(args, 0, no_options(), flag);
    }
    if parse_from(pre, 0, no_options()) is Ok && is_flag(flag) {
        let p = parse_from(pre, 0, no_options())->Ok_0;
        let rest = seq![flag] + post;
        let n = pre.len() as int;
        let set = if flag == "--check"@ {
            OptionsView { check: true, ..p }
        } else if flag == "--preview-confirmation"@ {
            assert(flag.len() == 22);
            OptionsView { preview_confirmation: true, ..p }
        } else {
            assert(flag.len() == 6 || flag.len() == 2);
            OptionsView { help: true, ..p }
        };
        assert(flag_set(set, flag));
        lemma_parse_prefix(pre, rest, 0, no_options());
        assert(pre + seq![flag] + post =~= pre + rest);
        assert((pre + rest)[n] == flag);
        assert(parse_from(pre + rest, n, p) == parse_from(pre + rest, n + 1, set));
        lemma_flag_stays(pre + rest, n + 1, set, flag);
        lemma_parse_prefix(pre, seq![flag], 0, no_options());
        assert((pre + seq![flag])[n] == flag);
        assert(parse_from(pre + seq![flag], n, p) == parse_from(pre + seq![flag], n + 1, set));
    }
}

/// The value that the options hold for the value-taking option `a`.
pub open spec fn value_of(o: OptionsView, a: Seq<char>) -> Option<Seq<char>> {
    if a == "--assets"@ {
        o.assets
    } else if a == "--savedata-root"@ {
        o.savedata_root
    } else if a == "--steam-dir"@ {
        o.steam_dir
    } else if a == "--source-dir"@ {
        o.source_dir
    } else {
        o.account
    }
}

/// A value-taking option takes the argument after it: put after arguments
/// that read without error, it gives that value (the account only when it is
/// all decimal digits); without a following argument the value is missing,
/// an empty one is refused, and an account that is not all digits too.
pub proof fn law_a_value_option_takes_the_next_argument(
    pre: Seq<Seq<char>>,
    a: Seq<char>,
    v: Seq<char>,
)
    ensures
        parse_from(pre, 0, no_options()) is Ok && takes_value(a) ==> {
            &&& v.len() > 0 && (a != "--account"@ || all_decimal(v)) ==> (parse_from(
                pre + seq![a, v],
                0,
                no_options(),
            ) matches Ok(q) && value_of(q, a) == Some(v))
            &&& v.len() == 0 ==> parse_from(pre + seq![a, v], 0, no_options()) == Err::<
                OptionsView,
                SpecArgError,
            >(SpecArgError::EmptyValue(a))
            &&& v.len() > 0 && a == "--account"@ && !all_decimal(v) ==> parse_from(
                pre + seq![a, v],
                0,
                no_options(),
            ) == Err::<OptionsView, SpecArgError>(SpecArgError::AccountNotDigits)
            &&& parse_from(pre + seq![a], 0, no_options()) == Err::<OptionsView, SpecArgError>(
                SpecArgError::MissingValue(a),
            )
        },
{
    reveal_strlit("--check");
    reveal_strlit("--preview-confirmation");
    reveal_strlit("--help");
    reveal_strlit("-h");
    reveal_strlit("--assets");
    reveal_strlit("--savedata-root");
    reveal_strlit("--steam-dir");
    reveal_strlit("--source-dir");
    reveal_strlit("--account");
    if parse_from(pre, 0, no_options()) is Ok && takes_value(a) {
        let p = parse_from(pre, 0, no_options())->Ok_0;
        let n = pre.len() as int;
        assert(a.len() == 8 || a.len() == 15 || a.len() == 11 || a.len() == 12 || a.len() == 9);
        assert(!is_flag(a));
        lemma_parse_prefix(pre, seq![a, v], 0, no_options());
        let x = pre + seq![a, v];
        assert(x[n] == a && x[n + 1] == v && x.len() == n + 2);
        assert(value_of(with_value(p, a, v), a) == Some(v));
        assert(parse_from(x, n + 2, with_value(p, a, v)) == Ok::<OptionsView, SpecArgError>(
            with_value(p, a, v),
        ));
        if v.len() > 0 && (a != "--account"@ || all_decimal(v)) {
            assert(a == "--assets"@ || a == "--savedata-root"@ || a == "--steam-dir"@ || a
                == "--source-dir"@ || all_decimal(v));
            assert(parse_from(x, n, p) == parse_from(x, n + 2, with_value(p, a, v)));
        }
        lemma_parse_prefix(pre, seq![a], 0, no_options());
        let y = pre + seq![a];
        assert(y[n] == a && y.len() == n + 1);
        assert(parse_from(y, n, p) == Err::<OptionsView, SpecArgError>(
            SpecArgError::MissingValue(a),
        ));
    }
}

pub open spec fn texts(args: Seq<String>) -> Seq<Seq<char>> {
    args.map_values(|a: String| a@)
}

pub open spec fn arg_message(e: SpecArgError) -> Seq<char> {
    match e {
        SpecArgError::MissingValue(a) => "参数 "@ + a + " 缺少值。"@,
        SpecArgError::EmptyValue(a) => "参数 "@ + a + " 不能为空。"@,
        SpecArgError::AccountNotDigits => "账号必须是存档目录的纯数字名称。"@,
        SpecArgError::Unknown(a) => "未知参数："@ + a + "。使用 --help 查看说明。"@,
    }
}

fn is_decimal(v: &str) -> (r: bool)
    ensures
        r == all_decimal(v@),
{
    let n = v.unicode_len();
    let mut k: usize = 0;
    while k < n
        invariant
            n == v@.len(),
            k <= n,
            forall|j: int| 0 <= j < k ==> 48 <= (#[trigger] v@[j] as u32) <= 57,
        decreases n - k,
    {
        let d = v.get_char(k) as u32;
        if d < 48 || d > 57 {
            return false;
        }
        k = k + 1;
    }
    true
}

impl ArgError {
    /// The message shown for the refusal.
    pub fn message(&self) -> (m: String)
        ensures
            m@ == arg_message(self@),
    {
        match self {
            ArgError::MissingValue(a) => String::from_str("参数 ").concat(a.as_str()).concat(
                " 缺少值。",
            ),
            ArgError::EmptyValue(a) => String::from_str("参数 ").concat(a.as_str()).concat(
                " 不能为空。",
            ),
            ArgError::AccountNotDigits => String::from_str("账号必须是存档目录的纯数字名称。"),
            ArgError::Unknown(a) => String::from_str("未知参数：").concat(a.as_str()).concat(
                "。使用 --help 查看说明。",
            ),
        }
    }
}

impl Options {
    /// Reads the command line (without the program's own name).
    pub fn parse(args: Vec<String>) -> (r: Result<Options, ArgError>)
        ensures
            match parse_from(texts(args@), 0, no_options()) {
                Ok(o) => r matches Ok(p) && p@ == o,
                Err(e) => r matches Err(f) && f@ == e,
            },
    {
        let ghost t = texts(args@);
        let mut o = Options {
            assets: None,
            savedata_root: None,
            steam_dir: None,
            source_dir: None,
            account: None,
            check: false,
            preview_confirmation: false,
            help: false,
        };
        let mut i: usize = 0;
        while i < args.len()
            invariant
                t == texts(args@),
                i <= args.len(),
                parse_from(t, 0, no_options()) == parse_from(t, i as int, o@),
            decreases args.len() - i,
        {
            let a = args[i].as_str();
            let ghost before = o@;
            assert(t[i as int] == a@);
            if text_eq(a, "--check") {
                o.check = true;
                i = i + 1;
            } else if text_eq(a, "--preview-confirmation") {
                o.preview_confirmation = true;
                i = i + 1;
            } else if text_eq(a, "--help") || text_eq(a, "-h") {
                o.help = true;
                i = i + 1;
            } else if text_eq(a, "--assets") || text_eq(a, "--savedata-root") || text_eq(
                a,
                "--steam-dir",
            ) || text_eq(a, "--source-dir") || text_eq(a, "--account") {
                if i + 1 >= args.len() {
                    return Err(ArgError::MissingValue(String::from_str(a)));
                }
                let v = args[i + 1].as_str();
                assert(t[i + 1] == v@);
                if v.unicode_len() == 0 {
                    return Err(ArgError::EmptyValue(String::from_str(a)));
                }
                let value = String::from_str(v);
                if text_eq(a, "--assets") {
                    o.assets = Some(value);
                } else if text_eq(a, "--savedata-root") {
                    o.savedata_root = Some(value);
                } else if text_eq(a, "--steam-dir") {
                    o.steam_dir = Some(value);
                } else if text_eq(a, "--source-dir") {
                    o.source_dir = Some(value);
                } else {
                    if !is_decimal(v) {
                        return Err(ArgError::AccountNotDigits);
                    }
                    o.account = Some(value);
                }
                assert(o@ == with_value(before, a@, v@));
                i = i + 2;
            } else {
                return Err(ArgError::Unknown(String::from_str(a)));
            }
        }
        Ok(o)
    }
}

/// The options that run once and end: asking for help, previewing the
/// dialog, or only checking.
pub open spec fn one_shot(a: Seq<char>) -> bool {
    a == "--check"@ || a == "--preview-confirmation"@ || a == "--help"@ || a == "-h"@
}

/// Whether the program waits for Enter before it exits, so that the
/// console window of an interactive run stays open: not when any argument
/// (looked at one by one, before the command line is read) is one of the
/// one-shot options.
pub fn pauses_at_exit(args: &Vec<String>) -> (r: bool)
    ensures
        r == !(exists|i: int| 0 <= i < args.len() && #[trigger] one_shot(args@[i]@)),
{
    let mut i: usize = 0;
    while i < args.len()
        invariant
            i <= args.len(),
            forall|j: int| 0 <= j < i ==> !#[trigger] one_shot(args@[j]@),
        decreases args.len() - i,
    {
        let a = args[i].as_str();
        if text_eq(a, "--check") || text_eq(a, "--preview-confirmation") || text_eq(a, "--help")
            || text_eq(a, "-h") {
            assert(one_shot(args@[i as int]@));
            return false;
        }
        i = i + 1;
    }
    true
}

} // verus!
