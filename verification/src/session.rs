//! The course of one run of the program, from the command line to the
//! replaced saves. The program asks which step comes next, performs it and
//! reports how it went; the steps themselves (dialogs, prompts, the file
//! system, Steam) are the program's, the order and every decision between
//! them are made here.

use vstd::prelude::*;
use crate::cli::Options;
use crate::text::{append_ascii, append_str, decimal_digits, decimal_string};
use vstd::utf8::encode_utf8;

verus! {

/// What the command line asks of a run, and whether the interactive
/// replacement can run on this system.
#[derive(Debug, Clone, Copy, PartialEq, Eq, Structural)]
pub struct Mode {
    pub help: bool,
    pub preview: bool,
    pub check: bool,
    pub account_given: bool,
    pub source_given: bool,
    pub windows: bool,
}

/// How a run ended.
#[derive(Debug, Clone, Copy, PartialEq, Eq, Structural)]
pub enum End {
    /// The usage text was shown.
    HelpShown,
    /// The confirmation dialog was shown on its own; it was accepted or not.
    Previewed(bool),
    /// Every path check passed.
    Checked,
    /// The user cancelled; no save was changed.
    Cancelled,
    /// The user cancelled after the backup directory was made and Steam was
    /// closed, before any game save was touched.
    CancelledSavesUntouched,
    /// Both signing rounds ran and the saves were replaced.
    Replaced,
    /// The save root holds no account directory.
    NoAccounts,
    /// Some path check failed.
    ChecksFailed,
    /// The replacement runs on Windows only.
    Unsupported,
    /// A step failed; its message is kept.
    Failed,
}

/// Where a run stands; each stage asks for one action.
#[derive(Debug, Clone, Copy, PartialEq, Eq, Structural)]
pub enum Stage {
    Help,
    Assets,
    Preview,
    Saves,
    Ready,
    Discover,
    Check,
    FindAccount,
    OnlyAccount,
    AskAccount,
    SourceDir,
    AskKind,
    Prepare,
    Confirm,
    Backup,
    CloseSteam,
    Cloud,
    ManualCloud,
    CloseSteamAgain,
    Execute,
    Ended(End),
}

/// What the program has to do next. Each action is reported back (see
/// [`Report`]); a question is answered `Yes` or `No`.
#[derive(Debug, Clone, Copy, PartialEq, Eq, Structural)]
pub enum Action {
    /// Print the usage text.
    ShowHelp,
    /// Find the asset directory (or take the given one) and resolve it.
    LocateAssets,
    /// Show the confirmation dialog on its own: was it accepted?
    PreviewDialog,
    /// Find the save root (or take the given one), resolve it and show both.
    LocateSaves,
    /// Show the confirmation dialog: is the user ready?
    AskReady,
    /// List the account directories: report `Found` with their number.
    DiscoverAccounts,
    /// Check the paths of every account and save set: did all pass?
    CheckPaths,
    /// Take the account that the command line names.
    FindRequestedAccount,
    /// Take the one account there is.
    TakeOnlyAccount,
    /// Let the user pick an account (or cancel).
    AskAccount,
    /// Take the custom save directory that the command line names.
    UseSourceDir,
    /// Let the user pick a save set (or cancel).
    AskKind,
    /// Survey the paths of the chosen save set and plan the replacement.
    PreparePlan,
    /// Ask whether to close Steam, back up and sign.
    ConfirmRun,
    /// Make this run's own backup directory.
    CreateBackup,
    /// Close Steam: did it exit (or was it not running)?
    CloseSteam,
    /// Switch the game's cloud saves off in Steam's configuration.
    DisableCloud,
    /// Ask the user to switch cloud saves off and quit Steam by hand: done?
    ConfirmManualCloud,
    /// Run the plan: both signing rounds and the replacement.
    ExecutePlan,
    /// The run is over.
    Finish,
}

/// How an action went, as the program reports it.
pub enum Report {
    /// Done, or answered yes.
    Yes,
    /// Answered no, or declined.
    No,
    /// The number of accounts found.
    Found(usize),
    /// It failed with this message.
    Failed(String),
}

/// A report without its message.
#[derive(Debug, Clone, Copy, PartialEq, Eq, Structural)]
pub enum Event {
    Yes,
    No,
    Found(usize),
    Failed,
}

pub open spec fn event_of(r: Report) -> Event {
    match r {
        Report::Yes => Event::Yes,
        Report::No => Event::No,
        Report::Found(n) => Event::Found(n),
        Report::Failed(_) => Event::Failed,
    }
}

/// The event goes ahead: done, answered yes, or something was found.
pub open spec fn goes_ahead(e: Event) -> bool {
    match e {
        Event::Yes => true,
        Event::Found(n) => n > 0,
        _ => false,
    }
}

pub open spec fn mode_of(o: crate::cli::OptionsView, windows: bool) -> Mode {
    Mode {
        help: o.help,
        preview: o.preview_confirmation,
        check: o.check,
        account_given: o.account is Some,
        source_given: o.source_dir is Some,
        windows,
    }
}

pub open spec fn first_stage(m: Mode) -> Stage {
    if m.help {
        Stage::Help
    } else {
        Stage::Assets
    }
}

/// Where a run goes once the accounts were counted.
pub open spec fn after_discovery(m: Mode, e: Event) -> Stage {
    match e {
        Event::Failed => Stage::Ended(End::Failed),
        Event::Found(n) => if n == 0 {
            Stage::Ended(End::NoAccounts)
        } else if m.check {
            Stage::Check
        } else if !m.windows {
            Stage::Ended(End::Unsupported)
        } else if m.account_given {
            Stage::FindAccount
        } else if n == 1 {
            Stage::OnlyAccount
        } else {
            Stage::AskAccount
        },
        _ => Stage::Ended(End::NoAccounts),
    }
}

/// The stage that follows `s` when its action went as `e`.
pub open spec fn next(m: Mode, s: Stage, e: Event) -> Stage {
    let go = goes_ahead(e);
    let failed = e == Event::Failed;
    match s {
        Stage::Help => Stage::Ended(End::HelpShown),
        Stage::Assets => if failed {
            Stage::Ended(End::Failed)
        } else if !go {
            Stage::Ended(End::Cancelled)
        } else if m.preview {
            Stage::Preview
        } else {
            Stage::Saves
        },
        Stage::Preview => if failed {
            Stage::Ended(End::Failed)
        } else {
            Stage::Ended(End::Previewed(go))
        },
        Stage::Saves => if failed {
            Stage::Ended(End::Failed)
        } else if !go {
            Stage::Ended(End::Cancelled)
        } else if m.check {
            Stage::Discover
        } else {
            Stage::Ready
        },
        Stage::Ready => if failed {
            Stage::Ended(End::Failed)
        } else if !go {
            Stage::Ended(End::Cancelled)
        } else {
            Stage::Discover
        },
        Stage::Discover => after_discovery(m, e),
        Stage::Check => if failed {
            Stage::Ended(End::Failed)
        } else if !go {
            Stage::Ended(End::ChecksFailed)
        } else {
            Stage::Ended(End::Checked)
        },
        Stage::FindAccount | Stage::OnlyAccount | Stage::AskAccount => if failed {
            Stage::Ended(End::Failed)
        } else if !go {
            Stage::Ended(End::Cancelled)
        } else if m.source_given {
            Stage::SourceDir
        } else {
            Stage::AskKind
        },
        Stage::SourceDir | Stage::AskKind => if failed {
            Stage::Ended(End::Failed)
        } else if !go {
            Stage::Ended(End::Cancelled)
        } else {
            Stage::Prepare
        },
        Stage::Prepare => if failed {
            Stage::Ended(End::Failed)
        } else if !go {
            Stage::Ended(End::Cancelled)
        } else {
            Stage::Confirm
        },
        Stage::Confirm => if failed {
            Stage::Ended(End::Failed)
        } else if !go {
            Stage::Ended(End::Cancelled)
        } else {
            Stage::Backup
        },
        Stage::Backup => if failed {
            Stage::Ended(End::Failed)
        } else if !go {
            Stage::Ended(End::Cancelled)
        } else {
            Stage::CloseSteam
        },
        Stage::CloseSteam => if failed {
            Stage::Ended(End::Failed)
        } else if !go {
            Stage::Ended(End::Cancelled)
        } else {
            Stage::Cloud
        },
        Stage::Cloud => if go {
            Stage::Execute
        } else {
            Stage::ManualCloud
        },
        Stage::ManualCloud => if failed {
            Stage::Ended(End::Failed)
        } else if !go {
            Stage::Ended(End::CancelledSavesUntouched)
        } else {
            Stage::CloseSteamAgain
        },
        Stage::CloseSteamAgain => if failed {
            Stage::Ended(End::Failed)
        } else if !go {
            Stage::Ended(End::CancelledSavesUntouched)
        } else {
            Stage::Execute
        },
        Stage::Execute => if failed {
            Stage::Ended(End::Failed)
        } else if !go {
            Stage::Ended(End::Cancelled)
        } else {
            Stage::Ended(End::Replaced)
        },
        Stage::Ended(end) => Stage::Ended(end),
    }
}

pub open spec fn action_of(s: Stage) -> Action {
    match s {
        Stage::Help => Action::ShowHelp,
        Stage::Assets => Action::LocateAssets,
        Stage::Preview => Action::PreviewDialog,
        Stage::Saves => Action::LocateSaves,
        Stage::Ready => Action::AskReady,
        Stage::Discover => Action::DiscoverAccounts,
        Stage::Check => Action::CheckPaths,
        Stage::FindAccount => Action::FindRequestedAccount,
        Stage::OnlyAccount => Action::TakeOnlyAccount,
        Stage::AskAccount => Action::AskAccount,
        Stage::SourceDir => Action::UseSourceDir,
        Stage::AskKind => Action::AskKind,
        Stage::Prepare => Action::PreparePlan,
        Stage::Confirm => Action::ConfirmRun,
        Stage::Backup => Action::CreateBackup,
        Stage::CloseSteam | Stage::CloseSteamAgain => Action::CloseSteam,
        Stage::Cloud => Action::DisableCloud,
        Stage::ManualCloud => Action::ConfirmManualCloud,
        Stage::Execute => Action::ExecutePlan,
        Stage::Ended(_) => Action::Finish,
    }
}

/// The actions that change something outside the program: the backup
/// directory, Steam's process, Steam's configuration, the saves.
pub open spec fn changes(a: Action) -> bool {
    match a {
        Action::CreateBackup | Action::CloseSteam | Action::DisableCloud | Action::ExecutePlan => true,
        _ => false,
    }
}

/// One performed action: the stage that asked for it and how it went.
#[derive(Debug, Clone, Copy, PartialEq, Eq, Structural)]
pub struct Step {
    pub stage: Stage,
    pub event: Event,
}

/// The action of `s` was performed and went ahead.
pub open spec fn agreed(h: Seq<Step>, s: Stage) -> bool {
    exists|k: int| 0 <= k < h.len() && #[trigger] h[k].stage == s && goes_ahead(h[k].event)
}

/// The stages that belong to the interactive replacement.
pub open spec fn replacing(s: Stage) -> bool {
    match s {
        Stage::Ready | Stage::FindAccount | Stage::OnlyAccount | Stage::AskAccount => true,
        Stage::SourceDir | Stage::AskKind | Stage::Prepare | Stage::Confirm => true,
        Stage::Backup | Stage::CloseSteam | Stage::Cloud | Stage::ManualCloud => true,
        Stage::CloseSteamAgain | Stage::Execute => true,
        _ => false,
    }
}

/// The stages after the user has agreed to the replacement.
pub open spec fn consented(s: Stage) -> bool {
    match s {
        Stage::Backup | Stage::CloseSteam | Stage::Cloud | Stage::ManualCloud => true,
        Stage::CloseSteamAgain | Stage::Execute | Stage::Ended(End::Replaced) => true,
        _ => false,
    }
}

/// The stages after Steam was closed.
pub open spec fn steam_closed(s: Stage) -> bool {
    match s {
        Stage::Cloud | Stage::ManualCloud | Stage::CloseSteamAgain | Stage::Execute => true,
        Stage::Ended(End::Replaced) => true,
        _ => false,
    }
}

/// The stages that a mode can reach.
pub open spec fn reachable(m: Mode, s: Stage) -> bool {
    match s {
        Stage::Help => m.help,
        Stage::Assets => !m.help,
        Stage::Preview => !m.help && m.preview,
        Stage::Saves | Stage::Discover => !m.help && !m.preview,
        Stage::Check => !m.help && !m.preview && m.check,
        Stage::Ready => !m.help && !m.preview && !m.check,
        Stage::Ended(_) => true,
        _ => !m.help && !m.preview && !m.check && m.windows,
    }
}

/// What a run has done by the time it reaches stage `s`.
pub open spec fn inv(m: Mode, s: Stage, h: Seq<Step>) -> bool {
    &&& reachable(m, s)
    &&& replacing(s) && s != Stage::Ready ==> agreed(h, Stage::Ready)
    &&& s == Stage::Discover && !m.check ==> agreed(h, Stage::Ready)
    &&& consented(s) ==> agreed(h, Stage::Ready) && agreed(h, Stage::Confirm)
    &&& consented(s) || s == Stage::Confirm ==> agreed(h, Stage::Prepare)
    &&& steam_closed(s) ==> agreed(h, Stage::CloseSteam)
    &&& (s == Stage::Execute || s == Stage::Ended(End::Replaced)) ==> agreed(h, Stage::Cloud) || (
    agreed(h, Stage::ManualCloud) && agreed(h, Stage::CloseSteamAgain))
    &&& s == Stage::CloseSteamAgain ==> agreed(h, Stage::ManualCloud)
    &&& s == Stage::Ended(End::Replaced) ==> agreed(h, Stage::Execute)
    &&& s == Stage::Ended(End::Checked) ==> agreed(h, Stage::Check)
    &&& s == Stage::FindAccount ==> m.account_given
    &&& (s == Stage::OnlyAccount || s == Stage::AskAccount) ==> !m.account_given
    &&& s == Stage::SourceDir ==> m.source_given
    &&& s == Stage::AskKind ==> !m.source_given
}

/// Each report lowers the rank; only an ended run has rank zero.
pub open spec fn rank(s: Stage) -> int {
    match s {
        Stage::Assets => 18,
        Stage::Saves => 17,
        Stage::Ready => 16,
        Stage::Discover => 15,
        Stage::FindAccount | Stage::OnlyAccount | Stage::AskAccount => 14,
        Stage::SourceDir | Stage::AskKind => 13,
        Stage::Prepare => 12,
        Stage::Confirm => 11,
        Stage::Backup => 10,
        Stage::CloseSteam => 9,
        Stage::Cloud => 8,
        Stage::ManualCloud => 7,
        Stage::CloseSteamAgain => 6,
        Stage::Execute => 5,
        Stage::Help | Stage::Preview | Stage::Check => 1,
        Stage::Ended(_) => 0,
    }
}

proof fn lemma_agreed_push(h: Seq<Step>, x: Step)
    ensures
        forall|s: Stage| agreed(h, s) ==> #[trigger] agreed(h.push(x), s),
        goes_ahead(x.event) ==> agreed(h.push(x), x.stage),
{
    assert forall|s: Stage| agreed(h, s) implies #[trigger] agreed(h.push(x), s) by {
        let k = choose|k: int| 0 <= k < h.len() && #[trigger] h[k].stage == s && goes_ahead(h[k].event);
        assert(h.push(x)[k] == h[k]);
    }
    if goes_ahead(x.event) {
        assert(h.push(x)[h.len() as int] == x);
    }
}

proof fn lemma_step(m: Mode, s: Stage, h: Seq<Step>, e: Event)
    requires
        inv(m, s, h),
        !(s is Ended),
    ensures
        inv(m, next(m, s, e), h.push(Step { stage: s, event: e })),
        rank(next(m, s, e)) < rank(s),
{
    lemma_agreed_push(h, Step { stage: s, event: e });
}

/// Every run ends: each report lowers the rank of the stage, which starts
/// at its highest and is never negative; only an ended run has rank zero.
pub proof fn law_every_session_ends(m: Mode, s: Stage, e: Event)
    ensures
        0 <= rank(s) <= rank(Stage::Assets),
        rank(s) == 0 <==> s is Ended,
        !(s is Ended) ==> rank(next(m, s, e)) < rank(s),
{
}

/// A check (`--check`) changes nothing: it never backs up, closes or looks
/// for Steam, touches Steam's configuration or replaces a save, and never
/// asks for the user's consent. Unless a preview is asked for as well, it
/// does not show the dialog either: it only finds the assets and the save
/// root, lists the accounts and checks their paths.
pub proof fn law_checking_changes_nothing(session: Session)
    requires
        session.wf(),
        session.mode().check,
    ensures
        !changes(action_of(session.stage())),
        action_of(session.stage()) != Action::AskReady,
        action_of(session.stage()) != Action::ConfirmRun,
        !session.mode().preview && !session.mode().help ==> {
            let a = action_of(session.stage());
            a == Action::LocateAssets || a == Action::LocateSaves || a == Action::DiscoverAccounts
                || a == Action::CheckPaths || a == Action::Finish
        },
{
}

/// A preview (`--preview-confirmation`) only finds the assets and shows the
/// dialog.
pub proof fn law_previewing_only_shows_the_dialog(session: Session)
    requires
        session.wf(),
        session.mode().preview,
        !session.mode().help,
    ensures
        action_of(session.stage()) == Action::LocateAssets || action_of(session.stage())
            == Action::PreviewDialog || action_of(session.stage()) == Action::Finish,
{
}

/// Nothing is changed before the user accepted the dialog, every path of the
/// plan was checked and the user confirmed the run; the plan runs only once Steam was closed and cloud saves were
/// switched off (or the user switched them off and Steam was closed again);
/// a run ends replaced only when the plan ran to its end.
pub proof fn law_nothing_changes_without_consent(session: Session)
    requires
        session.wf(),
    ensures
        changes(action_of(session.stage())) ==> agreed(session.history(), Stage::Ready) && agreed(
            session.history(),
            Stage::Prepare,
        ) && agreed(session.history(), Stage::Confirm),
        action_of(session.stage()) == Action::ExecutePlan ==> agreed(
            session.history(),
            Stage::CloseSteam,
        ) && (agreed(session.history(), Stage::Cloud) || (agreed(
            session.history(),
            Stage::ManualCloud,
        ) && agreed(session.history(), Stage::CloseSteamAgain))),
        session.stage() == Stage::Ended(End::Replaced) ==> agreed(
            session.history(),
            Stage::Execute,
        ) && agreed(session.history(), Stage::Confirm),
{
}

/// An account named on the command line is the one a run takes: once the
/// accounts were listed and some were found, a replacing run looks the named
/// account up, however many accounts there are. The only account there is,
/// or the user's pick, is taken only when no account was named.
pub proof fn law_a_named_account_is_the_one_taken(session: Session, m: Mode, n: usize)
    requires
        session.wf(),
    ensures
        n > 0 && m.windows && !m.check && m.account_given ==> next(
            m,
            Stage::Discover,
            Event::Found(n),
        ) == Stage::FindAccount,
        n == 1 && m.windows && !m.check && !m.account_given ==> next(
            m,
            Stage::Discover,
            Event::Found(n),
        ) == Stage::OnlyAccount,
        n > 1 && m.windows && !m.check && !m.account_given ==> next(
            m,
            Stage::Discover,
            Event::Found(n),
        ) == Stage::AskAccount,
        action_of(session.stage()) == Action::FindRequestedAccount ==> session.mode().account_given,
        action_of(session.stage()) == Action::TakeOnlyAccount ==> !session.mode().account_given,
        action_of(session.stage()) == Action::AskAccount ==> !session.mode().account_given,
{
}

/// A save directory given on the command line is the one a run writes: after
/// an account was taken in any of the three ways, a run with a given directory
/// goes on to use it, and one without asks for the save set. The save-set
/// menu is never shown when a directory was given.
pub proof fn law_a_given_save_directory_is_used(session: Session, m: Mode, s: Stage, e: Event)
    requires
        session.wf(),
    ensures
        (s == Stage::FindAccount || s == Stage::OnlyAccount || s == Stage::AskAccount) && goes_ahead(
            e,
        ) ==> next(m, s, e) == if m.source_given {
            Stage::SourceDir
        } else {
            Stage::AskKind
        },
        action_of(session.stage()) == Action::AskKind ==> !session.mode().source_given,
        action_of(session.stage()) == Action::UseSourceDir ==> session.mode().source_given,
{
}

/// One run of the program.
pub struct Session {
    mode: Mode,
    stage: Stage,
    message: Option<String>,
    history: Ghost<Seq<Step>>,
}

fn goes_ahead_exec(e: Event) -> (r: bool)
    ensures
        r == goes_ahead(e),
{
    match e {
        Event::Yes => true,
        Event::Found(n) => n > 0,
        _ => false,
    }
}

fn after_discovery_exec(m: Mode, e: Event) -> (r: Stage)
    ensures
        r == after_discovery(m, e),
{
    match e {
        Event::Failed => Stage::Ended(End::Failed),
        Event::Found(n) => if n == 0 {
            Stage::Ended(End::NoAccounts)
        } else if m.check {
            Stage::Check
        } else if !m.windows {
            Stage::Ended(End::Unsupported)
        } else if m.account_given {
            Stage::FindAccount
        } else if n == 1 {
            Stage::OnlyAccount
        } else {
            Stage::AskAccount
        },
        _ => Stage::Ended(End::NoAccounts),
    }
}

/// The stage after a step that can fail, be declined or go on to `then`.
fn gate(failed: bool, go: bool, declined: End, then: Stage) -> (r: Stage)
    ensures
        r == (if failed {
            Stage::Ended(End::Failed)
        } else if !go {
            Stage::Ended(declined)
        } else {
            then
        }),
{
    if failed {
        Stage::Ended(End::Failed)
    } else if !go {
        Stage::Ended(declined)
    } else {
        then
    }
}

fn next_exec(m: Mode, s: Stage, e: Event) -> (r: Stage)
    ensures
        r == next(m, s, e),
{
    let go = goes_ahead_exec(e);
    let failed = e == Event::Failed;
    match s {
        Stage::Help => Stage::Ended(End::HelpShown),
        Stage::Assets => gate(
            failed,
            go,
            End::Cancelled,
            if m.preview {
                Stage::Preview
            } else {
                Stage::Saves
            },
        ),
        Stage::Preview => if failed {
            Stage::Ended(End::Failed)
        } else {
            Stage::Ended(End::Previewed(go))
        },
        Stage::Saves => gate(
            failed,
            go,
            End::Cancelled,
            if m.check {
                Stage::Discover
            } else {
                Stage::Ready
            },
        ),
        Stage::Ready => gate(failed, go, End::Cancelled, Stage::Discover),
        Stage::Discover => after_discovery_exec(m, e),
        Stage::Check => gate(failed, go, End::ChecksFailed, Stage::Ended(End::Checked)),
        Stage::FindAccount | Stage::OnlyAccount | Stage::AskAccount => gate(
            failed,
            go,
            End::Cancelled,
            if m.source_given {
                Stage::SourceDir
            } else {
                Stage::AskKind
            },
        ),
        Stage::SourceDir | Stage::AskKind => gate(failed, go, End::Cancelled, Stage::Prepare),
        Stage::Prepare => gate(failed, go, End::Cancelled, Stage::Confirm),
        Stage::Confirm => gate(failed, go, End::Cancelled, Stage::Backup),
        Stage::Backup => gate(failed, go, End::Cancelled, Stage::CloseSteam),
        Stage::CloseSteam => gate(failed, go, End::Cancelled, Stage::Cloud),
        Stage::Cloud => if go {
            Stage::Execute
        } else {
            Stage::ManualCloud
        },
        Stage::ManualCloud => gate(
            failed,
            go,
            End::CancelledSavesUntouched,
            Stage::CloseSteamAgain,
        ),
        Stage::CloseSteamAgain => gate(failed, go, End::CancelledSavesUntouched, Stage::Execute),
        Stage::Execute => gate(failed, go, End::Cancelled, Stage::Ended(End::Replaced)),
        Stage::Ended(end) => Stage::Ended(end),
    }
}

pub open spec fn no_accounts_message(root: Seq<char>) -> Seq<char> {
    "在 "@ + root + " 中没有发现数字账号目录。请先用目标账号启动游戏并创建存档，或使用 --savedata-root 指定实际位置。"@
}

pub open spec fn checks_failed_message() -> Seq<char> {
    "部分路径检查未通过，请按上方具体路径处理。"@
}

pub open spec fn unsupported_message() -> Seq<char> {
    "交互改签流程仅支持 Windows。"@
}

impl Mode {
    /// What the options ask for; `windows` tells whether the program runs on
    /// Windows.
    pub fn of(options: &Options, windows: bool) -> (m: Mode)
        ensures
            m == mode_of(options@, windows),
    {
        Mode {
            help: options.help,
            preview: options.preview_confirmation,
            check: options.check,
            account_given: options.account.is_some(),
            source_given: options.source_dir.is_some(),
            windows,
        }
    }
}

impl Session {
    pub closed spec fn mode(&self) -> Mode {
        self.mode
    }

    pub closed spec fn stage(&self) -> Stage {
        self.stage
    }

    /// Every action performed so far, with how it went.
    pub closed spec fn history(&self) -> Seq<Step> {
        self.history@
    }

    /// The message of the step that failed.
    pub closed spec fn message(&self) -> Option<Seq<char>> {
        match self.message {
            Some(m) => Some(m@),
            None => None,
        }
    }

    /// The run's record of what it has done agrees with where it stands.
    pub closed spec fn wf(&self) -> bool {
        &&& inv(self.mode, self.stage, self.history@)
        &&& self.stage == Stage::Ended(End::Failed) ==> self.message is Some
    }

    /// A run of what `options` ask for.
    pub fn new(options: &Options, windows: bool) -> (s: Session)
        ensures
            s.wf(),
            s.mode() == mode_of(options@, windows),
            s.stage() == first_stage(s.mode()),
            s.history() == Seq::<Step>::empty(),
            s.message() is None,
    {
        let mode = Mode::of(options, windows);
        let stage = if mode.help {
            Stage::Help
        } else {
            Stage::Assets
        };
        Session { mode, stage, message: None, history: Ghost(Seq::empty()) }
    }

    /// The action that the run asks for now. A check never asks for a
    /// change; no change is asked for before the user accepted the dialog,
    /// the plan's paths were checked and the user confirmed the run; the plan only runs once Steam was closed and
    /// cloud saves were switched off.
    pub fn action(&self) -> (a: Action)
        requires
            self.wf(),
        ensures
            a == action_of(self.stage()),
            self.mode().check ==> !changes(a),
            changes(a) ==> agreed(self.history(), Stage::Ready) && agreed(
                self.history(),
                Stage::Prepare,
            ) && agreed(self.history(), Stage::Confirm),
            a is Finish <==> self.stage() is Ended,
    {
        match self.stage {
            Stage::Help => Action::ShowHelp,
            Stage::Assets => Action::LocateAssets,
            Stage::Preview => Action::PreviewDialog,
            Stage::Saves => Action::LocateSaves,
            Stage::Ready => Action::AskReady,
            Stage::Discover => Action::DiscoverAccounts,
            Stage::Check => Action::CheckPaths,
            Stage::FindAccount => Action::FindRequestedAccount,
            Stage::OnlyAccount => Action::TakeOnlyAccount,
            Stage::AskAccount => Action::AskAccount,
            Stage::SourceDir => Action::UseSourceDir,
            Stage::AskKind => Action::AskKind,
            Stage::Prepare => Action::PreparePlan,
            Stage::Confirm => Action::ConfirmRun,
            Stage::Backup => Action::CreateBackup,
            Stage::CloseSteam | Stage::CloseSteamAgain => Action::CloseSteam,
            Stage::Cloud => Action::DisableCloud,
            Stage::ManualCloud => Action::ConfirmManualCloud,
            Stage::Execute => Action::ExecutePlan,
            Stage::Ended(_) => Action::Finish,
        }
    }

    /// Reports how the requested action went. A failure's message is kept,
    /// but for switching cloud saves off, whose failure the user is asked to
    /// make up for by hand.
    pub fn advance(&mut self, report: Report)
        requires
            old(self).wf(),
            !(old(self).stage() is Ended),
        ensures
            final(self).wf(),
            final(self).mode() == old(self).mode(),
            final(self).stage() == next(old(self).mode(), old(self).stage(), event_of(report)),
            final(self).history() == old(self).history().push(
                Step { stage: old(self).stage(), event: event_of(report) },
            ),
            rank(final(self).stage()) < rank(old(self).stage()),
            match report {
                Report::Failed(m) => old(self).stage() != Stage::Cloud ==> final(self).message()
                    == Some(m@),
                _ => final(self).message() == old(self).message(),
            },
            old(self).stage() == Stage::Cloud ==> final(self).message() == old(self).message(),
    {
        let e = match &report {
            Report::Yes => Event::Yes,
            Report::No => Event::No,
            Report::Found(n) => Event::Found(*n),
            Report::Failed(_) => Event::Failed,
        };
        let s = self.stage;
        proof {
            lemma_step(self.mode, s, self.history@, e);
        }
        if s != Stage::Cloud {
            match report {
                Report::Failed(m) => {
                    self.message = Some(m);
                },
                _ => {},
            }
        }
        self.stage = next_exec(self.mode, s, e);
        self.history = Ghost(self.history@.push(Step { stage: s, event: e }));
    }

    /// How the run ended: `Ok` with the ending, or the message of the
    /// failure (`savedata_root` is the save root that was searched).
    pub fn finish(self, savedata_root: &str) -> (r: Result<End, String>)
        requires
            self.wf(),
            self.stage() is Ended,
        ensures
            match self.stage() {
                Stage::Ended(End::Failed) => r matches Err(m) && self.message() == Some(m@),
                Stage::Ended(End::NoAccounts) => r matches Err(m) && m@ == no_accounts_message(
                    savedata_root@,
                ),
                Stage::Ended(End::ChecksFailed) => r matches Err(m) && m@
                    == checks_failed_message(),
                Stage::Ended(End::Unsupported) => r matches Err(m) && m@
                    == unsupported_message(),
                Stage::Ended(end) => r == Ok::<End, String>(end),
                _ => false,
            },
    {
        match self.stage {
            Stage::Ended(End::Failed) => match self.message {
                Some(m) => Err(m),
                None => Err(String::new()),
            },
            Stage::Ended(End::NoAccounts) => Err(
                String::from_str("在 ").concat(savedata_root).concat(
                    " 中没有发现数字账号目录。请先用目标账号启动游戏并创建存档，或使用 --savedata-root 指定实际位置。",
                ),
            ),
            Stage::Ended(End::ChecksFailed) => Err(
                String::from_str("部分路径检查未通过，请按上方具体路径处理。"),
            ),
            Stage::Ended(End::Unsupported) => Err(String::from_str("交互改签流程仅支持 Windows。")),
            Stage::Ended(end) => Ok(end),
            _ => Err(String::new()),
        }
    }
}

/// How many names a run tries for its own backup directory.
pub const BACKUP_ATTEMPTS: u32 = 1000;

/// The name of a run's backup directory: the time in seconds, the process
/// and the attempt, in decimal, joined by `-`.
pub open spec fn backup_name(timestamp: u64, process: u32, attempt: u32) -> Seq<u8> {
    decimal_digits(timestamp as nat) + seq![45u8] + decimal_digits(process as nat) + seq![45u8]
        + decimal_digits(attempt as nat)
}

/// The name of the backup directory of the `attempt`-th try.
pub fn backup_dir_name(timestamp: u64, process: u32, attempt: u32) -> (r: String)
    ensures
        encode_utf8(r@) == backup_name(timestamp, process, attempt),
{
    proof {
        reveal_strlit("-");
    }
    let mut name = decimal_string(timestamp);
    append_ascii(&mut name, "-");
    append_str(&mut name, decimal_string(process as u64).as_str());
    append_ascii(&mut name, "-");
    append_str(&mut name, decimal_string(attempt as u64).as_str());
    assert(crate::text::ascii("-"@) =~= seq![45u8]);
    name
}

} // verus!
