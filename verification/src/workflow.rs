//! Preparing and running the two signing rounds: what has to be in place
//! before anything is touched, and in which order files may be written.

use vstd::prelude::*;

verus! {

// ---------------------------------------------------------------------------
// Save kinds
// ---------------------------------------------------------------------------

/// Which save set is written into the selected account: one of the two
/// bundled sets, or a set that the user prepared in a directory of their own.
#[derive(Debug, Clone, Copy, PartialEq, Eq, Structural)]
pub enum SaveKind {
    Hand,
    Magic,
    Custom,
}

impl SaveKind {
    /// The label shown to the user for this kind of save.
    pub fn label(self) -> (label: &'static str)
        ensures
            label@ == match self {
                SaveKind::Hand => "手搓存档"@,
                SaveKind::Magic => "魔改存档"@,
                SaveKind::Custom => "自定义存档"@,
            },
    {
        match self {
            SaveKind::Hand => "手搓存档",
            SaveKind::Magic => "魔改存档",
            SaveKind::Custom => "自定义存档",
        }
    }

    /// The directory of the asset root that holds a bundled kind of save.
    pub fn directory(self) -> (directory: Option<&'static str>)
        ensures
            match self {
                SaveKind::Hand => directory matches Some(d) && d@ == "HandMakeSave"@,
                SaveKind::Magic => directory matches Some(d) && d@ == "MagicMakeSave"@,
                SaveKind::Custom => directory is None,
            },
    {
        match self {
            SaveKind::Hand => Some("HandMakeSave"),
            SaveKind::Magic => Some("MagicMakeSave"),
            SaveKind::Custom => None,
        }
    }
}

// ---------------------------------------------------------------------------
// The plan and its preconditions
// ---------------------------------------------------------------------------

/// What the file system reports for one path (`fs::metadata`).
#[derive(Debug, Clone, Copy, PartialEq, Eq, Structural)]
pub enum Probe {
    Directory,
    File { len: u64 },
    /// Something that is neither a file nor a directory.
    Other,
    /// The path does not exist.
    NotFound,
    /// The path could not be examined for another reason.
    Failed,
}

/// The paths that a plan depends on, in the order in which they are checked.
#[derive(Debug, Clone, Copy, PartialEq, Eq, Structural)]
pub enum PlanPath {
    AssetRoot,
    AccountDir,
    SourceDir,
    ToolDir,
    ToolExe,
    SourceSystemDir,
    SourceSystemSave,
    SourceCharacterDir,
    SourceCharacterSave,
    AccountSystemDir,
    AccountSystemSave,
    AccountCharacterDir,
    AccountCharacterSave,
    MineDir,
    MineSave,
    OtherDir,
    OtherSave,
}

/// What a path has to be.
#[derive(Debug, Clone, Copy, PartialEq, Eq, Structural)]
pub enum Requirement {
    Directory,
    NonemptyFile,
    /// A directory, or nothing.
    OptionalDirectory,
    /// A file, or nothing.
    OptionalFile,
}

/// Why a path does not meet its requirement.
#[derive(Debug, Clone, Copy, PartialEq, Eq, Structural)]
pub enum Problem {
    CannotAccessDirectory,
    NotADirectory,
    CannotAccessFile,
    NotANonemptyFile,
    NotAFile,
}

/// The message for a path with a problem; `reason` is the system's account
/// of why the path could not be looked at.
pub open spec fn problem_text(problem: Problem, path: Seq<char>, reason: Seq<char>) -> Seq<char> {
    match problem {
        Problem::CannotAccessDirectory => "无法访问目录 "@ + path + "："@ + reason,
        Problem::NotADirectory => "此路径不是目录："@ + path,
        Problem::CannotAccessFile => "无法访问文件 "@ + path + "："@ + reason,
        Problem::NotANonemptyFile => "文件不是有效的非空文件："@ + path,
        Problem::NotAFile => "此路径不是文件："@ + path,
    }
}

impl Problem {
    /// The message shown for this problem at `path`.
    pub fn message(&self, path: &str, reason: &str) -> (m: String)
        ensures
            m@ == problem_text(*self, path@, reason@),
    {
        match self {
            Problem::CannotAccessDirectory => String::from_str("无法访问目录 ").concat(path).concat(
                "：",
            ).concat(reason),
            Problem::NotADirectory => String::from_str("此路径不是目录：").concat(path),
            Problem::CannotAccessFile => String::from_str("无法访问文件 ").concat(path).concat(
                "：",
            ).concat(reason),
            Problem::NotANonemptyFile => String::from_str("文件不是有效的非空文件：").concat(path),
            Problem::NotAFile => String::from_str("此路径不是文件：").concat(path),
        }
    }
}

/// The first path of a plan that does not meet its requirement.
#[derive(Debug, Clone, Copy, PartialEq, Eq, Structural)]
pub struct PlanFailure {
    pub path: PlanPath,
    pub problem: Problem,
}

/// The metadata of every path that a plan depends on.
#[derive(Debug, Clone, Copy)]
pub struct Survey {
    pub asset_root: Probe,
    pub account_dir: Probe,
    pub source_dir: Probe,
    pub tool_dir: Probe,
    pub tool_exe: Probe,
    pub source_system_dir: Probe,
    pub source_system_save: Probe,
    pub source_character_dir: Probe,
    pub source_character_save: Probe,
    pub account_system_dir: Probe,
    pub account_system_save: Probe,
    pub account_character_dir: Probe,
    pub account_character_save: Probe,
    pub mine_dir: Probe,
    pub mine_save: Probe,
    pub other_dir: Probe,
    pub other_save: Probe,
}

/// The checks of a plan, in order: the asset root and the account directory,
/// the chosen save's directory, the signer and its executable, both bundled
/// saves, the account's system save, then the optional character save and
/// staging locations.
pub open spec fn plan_checks() -> Seq<(PlanPath, Requirement)> {
    seq![
        (PlanPath::AssetRoot, Requirement::Directory),
        (PlanPath::AccountDir, Requirement::Directory),
        (PlanPath::SourceDir, Requirement::Directory),
        (PlanPath::ToolDir, Requirement::Directory),
        (PlanPath::ToolExe, Requirement::NonemptyFile),
        (PlanPath::SourceSystemDir, Requirement::Directory),
        (PlanPath::SourceSystemSave, Requirement::NonemptyFile),
        (PlanPath::SourceCharacterDir, Requirement::Directory),
        (PlanPath::SourceCharacterSave, Requirement::NonemptyFile),
        (PlanPath::AccountSystemDir, Requirement::Directory),
        (PlanPath::AccountSystemSave, Requirement::NonemptyFile),
        (PlanPath::AccountCharacterDir, Requirement::OptionalDirectory),
        (PlanPath::AccountCharacterSave, Requirement::OptionalFile),
        (PlanPath::MineDir, Requirement::OptionalDirectory),
        (PlanPath::MineSave, Requirement::OptionalFile),
        (PlanPath::OtherDir, Requirement::OptionalDirectory),
        (PlanPath::OtherSave, Requirement::OptionalFile),
    ]
}

pub open spec fn probe_of(survey: Survey, path: PlanPath) -> Probe {
    match path {
        PlanPath::AssetRoot => survey.asset_root,
        PlanPath::AccountDir => survey.account_dir,
        PlanPath::SourceDir => survey.source_dir,
        PlanPath::ToolDir => survey.tool_dir,
        PlanPath::ToolExe => survey.tool_exe,
        PlanPath::SourceSystemDir => survey.source_system_dir,
        PlanPath::SourceSystemSave => survey.source_system_save,
        PlanPath::SourceCharacterDir => survey.source_character_dir,
        PlanPath::SourceCharacterSave => survey.source_character_save,
        PlanPath::AccountSystemDir => survey.account_system_dir,
        PlanPath::AccountSystemSave => survey.account_system_save,
        PlanPath::AccountCharacterDir => survey.account_character_dir,
        PlanPath::AccountCharacterSave => survey.account_character_save,
        PlanPath::MineDir => survey.mine_dir,
        PlanPath::MineSave => survey.mine_save,
        PlanPath::OtherDir => survey.other_dir,
        PlanPath::OtherSave => survey.other_save,
    }
}

/// Whether a probe meets a requirement, and if not, why.
pub open spec fn problem_of(requirement: Requirement, probe: Probe) -> Option<Problem> {
    match requirement {
        Requirement::Directory => match probe {
            Probe::Directory => None,
            Probe::NotFound | Probe::Failed => Some(Problem::CannotAccessDirectory),
            _ => Some(Problem::NotADirectory),
        },
        Requirement::NonemptyFile => match probe {
            Probe::File { len } => if len == 0 {
                Some(Problem::NotANonemptyFile)
            } else {
                None
            },
            Probe::NotFound | Probe::Failed => Some(Problem::CannotAccessFile),
            _ => Some(Problem::NotANonemptyFile),
        },
        Requirement::OptionalDirectory => match probe {
            Probe::Directory | Probe::NotFound => None,
            Probe::Failed => Some(Problem::CannotAccessDirectory),
            _ => Some(Problem::NotADirectory),
        },
        Requirement::OptionalFile => match probe {
            Probe::File { .. } | Probe::NotFound => None,
            Probe::Failed => Some(Problem::CannotAccessFile),
            _ => Some(Problem::NotAFile),
        },
    }
}

/// The first check from position `from` on that the survey fails.
pub open spec fn first_failure(survey: Survey, from: int) -> Option<PlanFailure>
    decreases plan_checks().len() - from,
{
    if from < 0 || from >= plan_checks().len() {
        None
    } else {
        let (path, requirement) = plan_checks()[from];
        match problem_of(requirement, probe_of(survey, path)) {
            Some(problem) => Some(PlanFailure { path, problem }),
            None => first_failure(survey, from + 1),
        }
    }
}

/// A plan that has passed all checks, before Steam is stopped or any file changes.
#[derive(Debug)]
pub struct SavePlan {
    kind: SaveKind,
}

/// Whether what the file system reports for a path meets a requirement, and
/// if not, why.
pub fn check_probe(requirement: Requirement, probe: Probe) -> (r: Option<Problem>)
    ensures
        r == problem_of(requirement, probe),
{
    match requirement {
        Requirement::Directory => match probe {
            Probe::Directory => None,
            Probe::NotFound | Probe::Failed => Some(Problem::CannotAccessDirectory),
            _ => Some(Problem::NotADirectory),
        },
        Requirement::NonemptyFile => match probe {
            Probe::File { len } => if len == 0 {
                Some(Problem::NotANonemptyFile)
            } else {
                None
            },
            Probe::NotFound | Probe::Failed => Some(Problem::CannotAccessFile),
            _ => Some(Problem::NotANonemptyFile),
        },
        Requirement::OptionalDirectory => match probe {
            Probe::Directory | Probe::NotFound => None,
            Probe::Failed => Some(Problem::CannotAccessDirectory),
            _ => Some(Problem::NotADirectory),
        },
        Requirement::OptionalFile => match probe {
            Probe::File { .. } | Probe::NotFound => None,
            Probe::Failed => Some(Problem::CannotAccessFile),
            _ => Some(Problem::NotAFile),
        },
    }
}

fn checks_in_order() -> (r: Vec<(PlanPath, Requirement)>)
    ensures
        r@ == plan_checks(),
{
    let r = vec![
        (PlanPath::AssetRoot, Requirement::Directory),
        (PlanPath::AccountDir, Requirement::Directory),
        (PlanPath::SourceDir, Requirement::Directory),
        (PlanPath::ToolDir, Requirement::Directory),
        (PlanPath::ToolExe, Requirement::NonemptyFile),
        (PlanPath::SourceSystemDir, Requirement::Directory),
        (PlanPath::SourceSystemSave, Requirement::NonemptyFile),
        (PlanPath::SourceCharacterDir, Requirement::Directory),
        (PlanPath::SourceCharacterSave, Requirement::NonemptyFile),
        (PlanPath::AccountSystemDir, Requirement::Directory),
        (PlanPath::AccountSystemSave, Requirement::NonemptyFile),
        (PlanPath::AccountCharacterDir, Requirement::OptionalDirectory),
        (PlanPath::AccountCharacterSave, Requirement::OptionalFile),
        (PlanPath::MineDir, Requirement::OptionalDirectory),
        (PlanPath::MineSave, Requirement::OptionalFile),
        (PlanPath::OtherDir, Requirement::OptionalDirectory),
        (PlanPath::OtherSave, Requirement::OptionalFile),
    ];
    assert(r@ =~= plan_checks());
    r
}

fn survey_probe(survey: &Survey, path: PlanPath) -> (r: Probe)
    ensures
        r == probe_of(*survey, path),
{
    match path {
        PlanPath::AssetRoot => survey.asset_root,
        PlanPath::AccountDir => survey.account_dir,
        PlanPath::SourceDir => survey.source_dir,
        PlanPath::ToolDir => survey.tool_dir,
        PlanPath::ToolExe => survey.tool_exe,
        PlanPath::SourceSystemDir => survey.source_system_dir,
        PlanPath::SourceSystemSave => survey.source_system_save,
        PlanPath::SourceCharacterDir => survey.source_character_dir,
        PlanPath::SourceCharacterSave => survey.source_character_save,
        PlanPath::AccountSystemDir => survey.account_system_dir,
        PlanPath::AccountSystemSave => survey.account_system_save,
        PlanPath::AccountCharacterDir => survey.account_character_dir,
        PlanPath::AccountCharacterSave => survey.account_character_save,
        PlanPath::MineDir => survey.mine_dir,
        PlanPath::MineSave => survey.mine_save,
        PlanPath::OtherDir => survey.other_dir,
        PlanPath::OtherSave => survey.other_save,
    }
}

impl SavePlan {
    /// Validates everything before Steam is stopped or any file is changed:
    /// the plan is made when every check passes, otherwise the first failing
    /// check is reported.
    pub fn new(kind: SaveKind, survey: &Survey) -> (r: Result<SavePlan, PlanFailure>)
        ensures
            match first_failure(*survey, 0) {
                Some(failure) => r == Err::<SavePlan, PlanFailure>(failure),
                None => r matches Ok(plan) && plan.planned_kind() == kind,
            },
            r is Ok ==> nonempty_file(survey.tool_exe) && nonempty_file(survey.source_system_save)
                && nonempty_file(survey.source_character_save) && nonempty_file(
                survey.account_system_save,
            ),
    {
        let checks = checks_in_order();
        let mut i: usize = 0;
        while i < checks.len()
            invariant
                checks@ == plan_checks(),
                i <= checks.len(),
                first_failure(*survey, 0) == first_failure(*survey, i as int),
            decreases checks.len() - i,
        {
            let (path, requirement) = checks[i];
            if let Some(problem) = check_probe(requirement, survey_probe(survey, path)) {
                return Err(PlanFailure { path, problem });
            }
            i = i + 1;
        }
        proof {
            law_a_plan_needs_everything_it_reads(*survey);
        }
        Ok(SavePlan { kind })
    }

    /// The kind of save that the plan writes.
    pub closed spec fn planned_kind(&self) -> SaveKind {
        self.kind
    }

    pub fn kind(&self) -> (kind: SaveKind)
        ensures
            kind == self.planned_kind(),
    {
        self.kind
    }

    /// Starts running the plan: the run asks for one action at a time (see
    /// `Execution`), the first being to lock the signer's directory.
    pub fn execute(&self) -> (e: Execution)
        ensures
            e.wf(),
            e.progress() == initial_progress(),
            e.history() == Seq::<Record>::empty(),
            e.message() is None,
            e.errors() == Seq::<Seq<char>>::empty(),
    {
        Execution::new()
    }
}

/// A nonempty file, as the file system reports it.
pub open spec fn nonempty_file(p: Probe) -> bool {
    p matches Probe::File { len } && len > 0
}

/// A directory, or nothing there yet.
pub open spec fn directory_or_absent(p: Probe) -> bool {
    p is Directory || p is NotFound
}

/// A file (of any length), or nothing there yet.
pub open spec fn file_or_absent(p: Probe) -> bool {
    p is File || p is NotFound
}

/// A plan is made exactly when everything it reads is in place: the asset
/// root, the account directory, the chosen save set's directory, the signer's
/// directory and the system and character directories of the chosen save
/// set, and the account's system directory are directories; the signer, the
/// chosen set's system save and character save, and the account's system
/// save are nonempty files; and the account's character directory and save
/// and the signer's two staging directories and files are either absent or a
/// directory and a file.
pub proof fn law_a_plan_needs_everything_it_reads(survey: Survey)
    ensures
        first_failure(survey, 0) is None <==> {
            &&& survey.asset_root is Directory
            &&& survey.account_dir is Directory
            &&& survey.source_dir is Directory
            &&& survey.tool_dir is Directory
            &&& nonempty_file(survey.tool_exe)
            &&& survey.source_system_dir is Directory
            &&& nonempty_file(survey.source_system_save)
            &&& survey.source_character_dir is Directory
            &&& nonempty_file(survey.source_character_save)
            &&& survey.account_system_dir is Directory
            &&& nonempty_file(survey.account_system_save)
            &&& directory_or_absent(survey.account_character_dir)
            &&& file_or_absent(survey.account_character_save)
            &&& directory_or_absent(survey.mine_dir)
            &&& file_or_absent(survey.mine_save)
            &&& directory_or_absent(survey.other_dir)
            &&& file_or_absent(survey.other_save)
        },
{
    reveal_with_fuel(first_failure, 18);
    assert(plan_checks().len() == 17);
}

/// What each path of a plan has to be for the plan to be made (the same
/// conditions as in `law_a_plan_needs_everything_it_reads`, path by path).
pub open spec fn in_place(path: PlanPath, probe: Probe) -> bool {
    match path {
        PlanPath::ToolExe | PlanPath::SourceSystemSave | PlanPath::SourceCharacterSave
        | PlanPath::AccountSystemSave => nonempty_file(probe),
        PlanPath::AccountCharacterDir | PlanPath::MineDir | PlanPath::OtherDir => directory_or_absent(
            probe,
        ),
        PlanPath::AccountCharacterSave | PlanPath::MineSave | PlanPath::OtherSave => file_or_absent(
            probe,
        ),
        _ => probe is Directory,
    }
}

/// The place of a path in the order of `PlanPath`, which is the order of the checks.
pub open spec fn path_rank(path: PlanPath) -> int {
    match path {
        PlanPath::AssetRoot => 0,
        PlanPath::AccountDir => 1,
        PlanPath::SourceDir => 2,
        PlanPath::ToolDir => 3,
        PlanPath::ToolExe => 4,
        PlanPath::SourceSystemDir => 5,
        PlanPath::SourceSystemSave => 6,
        PlanPath::SourceCharacterDir => 7,
        PlanPath::SourceCharacterSave => 8,
        PlanPath::AccountSystemDir => 9,
        PlanPath::AccountSystemSave => 10,
        PlanPath::AccountCharacterDir => 11,
        PlanPath::AccountCharacterSave => 12,
        PlanPath::MineDir => 13,
        PlanPath::MineSave => 14,
        PlanPath::OtherDir => 15,
        PlanPath::OtherSave => 16,
    }
}

/// A refused plan names the first path, in the order of `PlanPath`, that is
/// not in place: every path before it is in place, and it is not.
pub proof fn law_the_first_missing_path_is_reported(survey: Survey)
    ensures
        first_failure(survey, 0) matches Some(f) ==> {
            &&& !in_place(f.path, probe_of(survey, f.path))
            &&& forall|q: PlanPath|
                path_rank(q) < path_rank(f.path) ==> in_place(q, #[trigger] probe_of(survey, q))
        },
{
    reveal_with_fuel(first_failure, 18);
    assert(plan_checks().len() == 17);
}

// ---------------------------------------------------------------------------
// Running a plan
// ---------------------------------------------------------------------------

/// The two signing rounds: the system save first, then the character save.
#[derive(Debug, Clone, Copy, PartialEq, Eq, Structural)]
pub enum Round {
    System,
    Character,
}

/// The four files that are backed up before anything is written: the
/// account's two saves and the signer's two staging files.
#[derive(Debug, Clone, Copy, PartialEq, Eq, Structural)]
pub enum Slot {
    LocalSystem,
    LocalCharacter,
    StagingMine,
    StagingOther,
}

/// Where a run stands; each phase asks the runner for one action.
#[derive(Debug, Clone, Copy, PartialEq, Eq, Structural)]
pub enum Phase {
    Lock,
    Probe(Slot),
    Backup(Slot),
    StagingDir(Slot),
    StageIdentity(Round),
    StageSource(Round),
    Sign(Round),
    CheckSigned(Round),
    Collect(Round),
    Restore(Slot),
    RemoveDir(Slot),
    Current(Slot),
    Compare(Slot),
    CharacterDir,
    Write(Round),
    Rollback(Slot),
    RemoveCharacterDir,
    Finished,
}

/// What the runner has to do next, and what it reports back (`Ok(flag)` or
/// `Err(message)`; the flag answers the questions, it is ignored otherwise).
#[derive(Debug, Clone, Copy, PartialEq, Eq, Structural)]
pub enum Action {
    /// Lock the signer's directory against overlapping runs.
    AcquireLock,
    /// Does the slot's file exist (a file, or nothing; anything else fails)?
    ProbeOriginal(Slot),
    /// Copy the slot's file to its backup; an existing backup is never overwritten.
    BackupOriginal(Slot),
    /// Is the staging directory of the slot present?
    ProbeStagingDir(Slot),
    /// Put the backup of the account's system save into the "mine" staging file:
    /// it is the signing identity in both rounds.
    StageIdentity(Round),
    /// Put the chosen save's file of this round into the "other" staging file.
    StageSource(Round),
    /// Run the signer for this round.
    Sign(Round),
    /// The "other" staging file has to be a non-empty file.
    CheckSigned(Round),
    /// Copy the signed "other" staging file to this round's signed backup.
    CollectSigned(Round),
    /// Copy the slot's backup back over its file.
    RestoreFromBackup(Slot),
    /// The slot had no file: remove the one that may have appeared.
    RemoveCreated(Slot),
    /// Remove the staging directory of the slot if it is empty (result ignored).
    RemoveStagingDir(Slot),
    /// Does the slot's file exist now?
    ProbeCurrent(Slot),
    /// Is the slot's file still equal to its backup?
    CompareWithBackup(Slot),
    /// Is the directory of the character save present?
    ProbeCharacterDir,
    /// Replace the account's save of this round by its signed copy.
    WriteSigned(Round),
    /// Remove the character save directory if it is empty (result ignored).
    RemoveCharacterDir,
    /// The run is over; its result is ready.
    Finish,
}

/// How a run ended.
#[derive(Debug, Clone, Copy, PartialEq, Eq, Structural)]
pub enum Stop {
    Success,
    /// The signer's directory is locked by another run.
    Lock,
    /// A backup could not be taken.
    Io,
    /// The account's system save disappeared before it was backed up.
    MissingRequired,
    /// A signing round failed; nothing local was written.
    SigningStopped,
    /// The staging files could not all be restored; nothing local was written.
    StagingNotRestored,
    /// A local save changed while the signer ran; nothing local was written.
    Changed(Slot),
    /// A local save could not be compared with its backup; nothing was written.
    CannotVerify { slot: Slot, comparing: bool },
    /// Writing the signed saves failed; the originals were put back.
    CommitFailed,
}

/// Everything about a run but its messages.
#[derive(Debug, Clone, Copy, PartialEq, Eq, Structural)]
pub struct Progress {
    pub phase: Phase,
    pub system_backed: bool,
    pub character_backed: bool,
    pub mine_backed: bool,
    pub other_backed: bool,
    pub mine_dir_existed: bool,
    pub other_dir_existed: bool,
    pub sign_failed: bool,
    pub restore_failed: bool,
    pub character_dir_existed: bool,
    pub stop: Stop,
}

pub open spec fn backed(p: Progress, s: Slot) -> bool {
    match s {
        Slot::LocalSystem => p.system_backed,
        Slot::LocalCharacter => p.character_backed,
        Slot::StagingMine => p.mine_backed,
        Slot::StagingOther => p.other_backed,
    }
}

pub open spec fn with_backed(p: Progress, s: Slot, b: bool) -> Progress {
    match s {
        Slot::LocalSystem => Progress { system_backed: b, ..p },
        Slot::LocalCharacter => Progress { character_backed: b, ..p },
        Slot::StagingMine => Progress { mine_backed: b, ..p },
        Slot::StagingOther => Progress { other_backed: b, ..p },
    }
}

pub open spec fn at(p: Progress, phase: Phase) -> Progress {
    Progress { phase, ..p }
}

pub open spec fn stop_with(p: Progress, stop: Stop) -> Progress {
    Progress { phase: Phase::Finished, stop, ..p }
}

/// The slot that is probed after `s`.
pub open spec fn next_slot(s: Slot) -> Option<Slot> {
    match s {
        Slot::LocalSystem => Some(Slot::LocalCharacter),
        Slot::LocalCharacter => Some(Slot::StagingMine),
        Slot::StagingMine => Some(Slot::StagingOther),
        Slot::StagingOther => None,
    }
}

/// After the backups: probe the next slot, or the staging directories.
pub open spec fn after_capture(p: Progress, s: Slot) -> Progress {
    match next_slot(s) {
        Some(n) => at(p, Phase::Probe(n)),
        None => at(p, Phase::StagingDir(Slot::StagingMine)),
    }
}

pub open spec fn decide_after_restore(p: Progress) -> Progress {
    if p.sign_failed {
        stop_with(p, Stop::SigningStopped)
    } else if p.restore_failed {
        stop_with(p, Stop::StagingNotRestored)
    } else {
        at(p, Phase::Current(Slot::LocalSystem))
    }
}

/// After a local save was found unchanged.
pub open spec fn after_unchanged(p: Progress, s: Slot) -> Progress {
    if s == Slot::LocalSystem {
        at(p, Phase::Current(Slot::LocalCharacter))
    } else {
        at(p, Phase::CharacterDir)
    }
}

/// After a signing step failed: restore the staging files.
pub open spec fn sign_failure(p: Progress) -> Progress {
    Progress { phase: Phase::Restore(Slot::StagingMine), sign_failed: true, ..p }
}

/// One step of a run: the phase's action was performed, and `answer` is its
/// report (`None` when it failed).
pub open spec fn next(p: Progress, answer: Option<bool>) -> Progress {
    let ok = answer is Some;
    let flag = answer == Some(true);
    match p.phase {
        Phase::Lock => if ok {
            at(p, Phase::Probe(Slot::LocalSystem))
        } else {
            stop_with(p, Stop::Lock)
        },
        Phase::Probe(s) => if !ok {
            stop_with(p, Stop::Io)
        } else if s == Slot::LocalSystem && !flag {
            stop_with(with_backed(p, s, false), Stop::MissingRequired)
        } else if flag {
            at(with_backed(p, s, true), Phase::Backup(s))
        } else {
            after_capture(with_backed(p, s, false), s)
        },
        Phase::Backup(s) => if ok {
            after_capture(p, s)
        } else {
            stop_with(p, Stop::Io)
        },
        Phase::StagingDir(s) => if s == Slot::StagingMine {
            Progress { phase: Phase::StagingDir(Slot::StagingOther), mine_dir_existed: flag, ..p }
        } else {
            Progress {
                phase: Phase::StageIdentity(Round::System),
                other_dir_existed: flag,
                ..p
            }
        },
        Phase::StageIdentity(r) => if ok {
            at(p, Phase::StageSource(r))
        } else {
            sign_failure(p)
        },
        Phase::StageSource(r) => if ok {
            at(p, Phase::Sign(r))
        } else {
            sign_failure(p)
        },
        Phase::Sign(r) => if ok {
            at(p, Phase::CheckSigned(r))
        } else {
            sign_failure(p)
        },
        Phase::CheckSigned(r) => if ok {
            at(p, Phase::Collect(r))
        } else {
            sign_failure(p)
        },
        Phase::Collect(r) => if !ok {
            sign_failure(p)
        } else if r == Round::System {
            at(p, Phase::StageIdentity(Round::Character))
        } else {
            at(p, Phase::Restore(Slot::StagingMine))
        },
        Phase::Restore(s) => {
            let q = if ok {
                p
            } else {
                Progress { restore_failed: true, ..p }
            };
            if s == Slot::StagingMine {
                at(q, Phase::Restore(Slot::StagingOther))
            } else if !q.mine_dir_existed {
                at(q, Phase::RemoveDir(Slot::StagingMine))
            } else if !q.other_dir_existed {
                at(q, Phase::RemoveDir(Slot::StagingOther))
            } else {
                decide_after_restore(q)
            }
        },
        Phase::RemoveDir(s) => if s == Slot::StagingMine && !p.other_dir_existed {
            at(p, Phase::RemoveDir(Slot::StagingOther))
        } else {
            decide_after_restore(p)
        },
        Phase::Current(s) => if !ok {
            stop_with(p, Stop::CannotVerify { slot: s, comparing: false })
        } else if backed(p, s) && flag {
            at(p, Phase::Compare(s))
        } else if !backed(p, s) && !flag {
            after_unchanged(p, s)
        } else {
            stop_with(p, Stop::Changed(s))
        },
        Phase::Compare(s) => if !ok {
            stop_with(p, Stop::CannotVerify { slot: s, comparing: true })
        } else if flag {
            after_unchanged(p, s)
        } else {
            stop_with(p, Stop::Changed(s))
        },
        Phase::CharacterDir => Progress {
            phase: Phase::Write(Round::System),
            character_dir_existed: flag,
            ..p
        },
        Phase::Write(r) => if !ok {
            at(p, Phase::Rollback(Slot::LocalSystem))
        } else if r == Round::System {
            at(p, Phase::Write(Round::Character))
        } else {
            stop_with(p, Stop::Success)
        },
        Phase::Rollback(s) => {
            let q = if ok {
                p
            } else {
                Progress { restore_failed: true, ..p }
            };
            if s == Slot::LocalSystem {
                at(q, Phase::Rollback(Slot::LocalCharacter))
            } else if !q.character_dir_existed {
                at(q, Phase::RemoveCharacterDir)
            } else {
                stop_with(q, Stop::CommitFailed)
            }
        },
        Phase::RemoveCharacterDir => stop_with(p, Stop::CommitFailed),
        Phase::Finished => p,
    }
}

/// The action that a phase asks for.
pub open spec fn action_of(p: Progress) -> Action {
    match p.phase {
        Phase::Lock => Action::AcquireLock,
        Phase::Probe(s) => Action::ProbeOriginal(s),
        Phase::Backup(s) => Action::BackupOriginal(s),
        Phase::StagingDir(s) => Action::ProbeStagingDir(s),
        Phase::StageIdentity(r) => Action::StageIdentity(r),
        Phase::StageSource(r) => Action::StageSource(r),
        Phase::Sign(r) => Action::Sign(r),
        Phase::CheckSigned(r) => Action::CheckSigned(r),
        Phase::Collect(r) => Action::CollectSigned(r),
        Phase::Restore(s) | Phase::Rollback(s) => if backed(p, s) {
            Action::RestoreFromBackup(s)
        } else {
            Action::RemoveCreated(s)
        },
        Phase::RemoveDir(s) => Action::RemoveStagingDir(s),
        Phase::Current(s) => Action::ProbeCurrent(s),
        Phase::Compare(s) => Action::CompareWithBackup(s),
        Phase::CharacterDir => Action::ProbeCharacterDir,
        Phase::Write(r) => Action::WriteSigned(r),
        Phase::RemoveCharacterDir => Action::RemoveCharacterDir,
        Phase::Finished => Action::Finish,
    }
}

// ---------------------------------------------------------------------------
// What a run has done so far
// ---------------------------------------------------------------------------

/// One performed action: the phase that asked for it and its report.
pub struct Record {
    pub phase: Phase,
    pub answer: Option<bool>,
}

pub open spec fn answer_of(report: Result<bool, String>) -> Option<bool> {
    match report {
        Ok(flag) => Some(flag),
        Err(_) => None,
    }
}

/// The action of `phase` was performed with the report `answer`.
pub open spec fn happened(h: Seq<Record>, phase: Phase, answer: Option<bool>) -> bool {
    exists|k: int| 0 <= k < h.len() && h[k] == Record { phase, answer }
}

/// The action of `phase` was performed, whatever came of it.
pub open spec fn tried(h: Seq<Record>, phase: Phase) -> bool {
    exists|k: int| 0 <= k < h.len() && h[k].phase == phase
}

/// No signed save has been written into the account yet.
pub open spec fn nothing_written(h: Seq<Record>) -> bool {
    forall|k: int| 0 <= k < h.len() ==> !(#[trigger] h[k].phase is Write)
}

/// Both local saves were put back from their backups (or removed, where
/// there was none).
pub open spec fn rolled_back(h: Seq<Record>) -> bool {
    tried(h, Phase::Rollback(Slot::LocalSystem)) && tried(h, Phase::Rollback(Slot::LocalCharacter))
}

/// The phases before any signed save is written into the account.
pub open spec fn before_writing(phase: Phase) -> bool {
    match phase {
        Phase::Write(r) => r == Round::System,
        Phase::Rollback(_) | Phase::RemoveCharacterDir | Phase::Finished => false,
        _ => true,
    }
}

/// The probe of `phase` found its directory present (`existed`), or did
/// not find it (it reported absence or failed).
pub open spec fn found_dir(h: Seq<Record>, phase: Phase, existed: bool) -> bool {
    if existed {
        happened(h, phase, Some(true))
    } else {
        happened(h, phase, Some(false)) || happened(h, phase, None)
    }
}

pub open spec fn dir_existed(p: Progress, s: Slot) -> bool {
    if s == Slot::StagingMine {
        p.mine_dir_existed
    } else {
        p.other_dir_existed
    }
}

/// The phases after the staging directory of slot `s` was probed.
pub open spec fn staging_probed(phase: Phase, s: Slot) -> bool {
    match phase {
        Phase::Lock | Phase::Probe(_) | Phase::Backup(_) | Phase::Finished => false,
        Phase::StagingDir(t) => s == Slot::StagingMine && t == Slot::StagingOther,
        _ => true,
    }
}

/// The action of `phase` was performed and did not fail.
pub open spec fn succeeded(h: Seq<Record>, phase: Phase) -> bool {
    exists|k: int| 0 <= k < h.len() && h[k].phase == phase && h[k].answer is Some
}

pub open spec fn slot_index(s: Slot) -> int {
    match s {
        Slot::LocalSystem => 0,
        Slot::LocalCharacter => 1,
        Slot::StagingMine => 2,
        Slot::StagingOther => 3,
    }
}

/// The slot was probed, and backed up when its file existed.
pub open spec fn captured_slot(h: Seq<Record>, p: Progress, s: Slot) -> bool {
    &&& happened(h, Phase::Probe(s), Some(backed(p, s)))
    &&& backed(p, s) ==> succeeded(h, Phase::Backup(s))
}

pub open spec fn captured_before(h: Seq<Record>, p: Progress, n: int) -> bool {
    &&& n > 0 ==> captured_slot(h, p, Slot::LocalSystem) && p.system_backed
    &&& n > 1 ==> captured_slot(h, p, Slot::LocalCharacter)
    &&& n > 2 ==> captured_slot(h, p, Slot::StagingMine)
    &&& n > 3 ==> captured_slot(h, p, Slot::StagingOther)
}

/// All four files were backed up (the account's system save exists).
pub open spec fn captured_all(h: Seq<Record>, p: Progress) -> bool {
    captured_before(h, p, 4)
}

/// Every step of a signing round succeeded.
pub open spec fn round_done(h: Seq<Record>, r: Round) -> bool {
    &&& succeeded(h, Phase::StageIdentity(r))
    &&& succeeded(h, Phase::StageSource(r))
    &&& succeeded(h, Phase::Sign(r))
    &&& succeeded(h, Phase::CheckSigned(r))
    &&& succeeded(h, Phase::Collect(r))
}

pub open spec fn staging_restored(h: Seq<Record>) -> bool {
    succeeded(h, Phase::Restore(Slot::StagingMine)) && succeeded(
        h,
        Phase::Restore(Slot::StagingOther),
    )
}

/// Both local saves are as they were when they were backed up: the system
/// save equals its backup, and the character save equals its backup or is
/// still absent.
pub open spec fn unchanged(h: Seq<Record>, p: Progress) -> bool {
    &&& happened(h, Phase::Compare(Slot::LocalSystem), Some(true))
    &&& if p.character_backed {
        happened(h, Phase::Compare(Slot::LocalCharacter), Some(true))
    } else {
        happened(h, Phase::Current(Slot::LocalCharacter), Some(false))
    }
}

/// Everything that has to precede writing a signed save into the account.
pub open spec fn ready_to_write(h: Seq<Record>, p: Progress) -> bool {
    &&& captured_all(h, p)
    &&& round_done(h, Round::System)
    &&& round_done(h, Round::Character)
    &&& staging_restored(h)
    &&& unchanged(h, p)
    &&& !p.sign_failed
    &&& !p.restore_failed
}

pub open spec fn signing_facts(h: Seq<Record>, p: Progress) -> bool {
    &&& captured_all(h, p)
    &&& !p.sign_failed ==> round_done(h, Round::System) && round_done(h, Round::Character)
}

pub open spec fn checked_facts(h: Seq<Record>, p: Progress) -> bool {
    &&& captured_all(h, p)
    &&& round_done(h, Round::System)
    &&& round_done(h, Round::Character)
    &&& staging_restored(h)
    &&& !p.sign_failed
    &&& !p.restore_failed
}

/// What a run has done by the time it reaches its current phase.
pub open spec fn inv(p: Progress, h: Seq<Record>) -> bool {
    &&& phase_before_restore(p.phase) ==> !p.sign_failed && !p.restore_failed
    &&& before_writing(p.phase) ==> nothing_written(h)
    &&& p.phase == Phase::Rollback(Slot::LocalCharacter) ==> tried(
        h,
        Phase::Rollback(Slot::LocalSystem),
    )
    &&& p.phase is RemoveCharacterDir ==> rolled_back(h)
    &&& p.phase is Finished ==> match p.stop {
        Stop::Success => true,
        Stop::CommitFailed => rolled_back(h),
        _ => nothing_written(h),
    }
    &&& slots_fit(p.phase)
    &&& staging_probed(p.phase, Slot::StagingMine) ==> found_dir(
        h,
        Phase::StagingDir(Slot::StagingMine),
        p.mine_dir_existed,
    )
    &&& staging_probed(p.phase, Slot::StagingOther) ==> found_dir(
        h,
        Phase::StagingDir(Slot::StagingOther),
        p.other_dir_existed,
    )
    &&& p.phase matches Phase::RemoveDir(s) ==> !dir_existed(p, s)
    &&& (p.phase is Write || p.phase is Rollback || p.phase is RemoveCharacterDir) ==> found_dir(
        h,
        Phase::CharacterDir,
        p.character_dir_existed,
    )
    &&& p.phase is RemoveCharacterDir ==> !p.character_dir_existed
    &&& match p.phase {
        Phase::Lock => true,
        Phase::Probe(s) => captured_before(h, p, slot_index(s)),
        Phase::Backup(s) => {
            &&& captured_before(h, p, slot_index(s))
            &&& happened(h, Phase::Probe(s), Some(true))
            &&& backed(p, s)
        },
        Phase::StagingDir(_) => captured_all(h, p),
        Phase::StageIdentity(r) => {
            &&& captured_all(h, p)
            &&& !p.sign_failed
            &&& r == Round::Character ==> round_done(h, Round::System)
        },
        Phase::StageSource(r) => {
            &&& captured_all(h, p)
            &&& !p.sign_failed
            &&& r == Round::Character ==> round_done(h, Round::System)
            &&& succeeded(h, Phase::StageIdentity(r))
        },
        Phase::Sign(r) => {
            &&& captured_all(h, p)
            &&& !p.sign_failed
            &&& r == Round::Character ==> round_done(h, Round::System)
            &&& succeeded(h, Phase::StageIdentity(r))
            &&& succeeded(h, Phase::StageSource(r))
        },
        Phase::CheckSigned(r) => {
            &&& captured_all(h, p)
            &&& !p.sign_failed
            &&& r == Round::Character ==> round_done(h, Round::System)
            &&& succeeded(h, Phase::StageIdentity(r))
            &&& succeeded(h, Phase::StageSource(r))
            &&& succeeded(h, Phase::Sign(r))
        },
        Phase::Collect(r) => {
            &&& captured_all(h, p)
            &&& !p.sign_failed
            &&& r == Round::Character ==> round_done(h, Round::System)
            &&& succeeded(h, Phase::StageIdentity(r))
            &&& succeeded(h, Phase::StageSource(r))
            &&& succeeded(h, Phase::Sign(r))
            &&& succeeded(h, Phase::CheckSigned(r))
        },
        Phase::Restore(s) => {
            &&& signing_facts(h, p)
            &&& s == Slot::StagingOther && !p.restore_failed ==> succeeded(
                h,
                Phase::Restore(Slot::StagingMine),
            )
            &&& s == Slot::StagingMine ==> !p.restore_failed
        },
        Phase::RemoveDir(_) => {
            &&& signing_facts(h, p)
            &&& !p.restore_failed ==> staging_restored(h)
        },
        Phase::Current(s) => {
            &&& checked_facts(h, p)
            &&& s == Slot::LocalCharacter ==> happened(
                h,
                Phase::Compare(Slot::LocalSystem),
                Some(true),
            )
        },
        Phase::Compare(s) => {
            &&& checked_facts(h, p)
            &&& happened(h, Phase::Current(s), Some(true))
            &&& backed(p, s)
            &&& s == Slot::LocalCharacter ==> happened(
                h,
                Phase::Compare(Slot::LocalSystem),
                Some(true),
            )
        },
        Phase::CharacterDir => ready_to_write(h, p),
        Phase::Write(r) => {
            &&& ready_to_write(h, p)
            &&& r == Round::Character ==> succeeded(h, Phase::Write(Round::System))
        },
        Phase::Rollback(_) => true,
        Phase::RemoveCharacterDir => true,
        Phase::Finished => p.stop == Stop::Success ==> {
            &&& ready_to_write(h, p)
            &&& succeeded(h, Phase::Write(Round::System))
            &&& succeeded(h, Phase::Write(Round::Character))
        },
    }
}

/// Staging slots are restored and their directories removed; local slots are
/// checked and rolled back.
pub open spec fn slots_fit(phase: Phase) -> bool {
    match phase {
        Phase::Restore(s) | Phase::RemoveDir(s) | Phase::StagingDir(s) => s == Slot::StagingMine || s
            == Slot::StagingOther,
        Phase::Current(s) | Phase::Compare(s) | Phase::Rollback(s) => s == Slot::LocalSystem || s
            == Slot::LocalCharacter,
        _ => true,
    }
}

pub open spec fn phase_before_restore(phase: Phase) -> bool {
    match phase {
        Phase::Lock | Phase::Probe(_) | Phase::Backup(_) | Phase::StagingDir(_) => true,
        Phase::StageIdentity(_) | Phase::StageSource(_) | Phase::Sign(_) => true,
        Phase::CheckSigned(_) | Phase::Collect(_) => true,
        _ => false,
    }
}

/// How far a run is from its end; every step brings it closer.
pub open spec fn rank(phase: Phase) -> int {
    match phase {
        Phase::Lock => 60,
        Phase::Probe(s) => 59 - 2 * slot_index(s),
        Phase::Backup(s) => 58 - 2 * slot_index(s),
        Phase::StagingDir(s) => if s == Slot::StagingMine {
            51
        } else {
            50
        },
        Phase::StageIdentity(r) => if r == Round::System {
            49
        } else {
            44
        },
        Phase::StageSource(r) => if r == Round::System {
            48
        } else {
            43
        },
        Phase::Sign(r) => if r == Round::System {
            47
        } else {
            42
        },
        Phase::CheckSigned(r) => if r == Round::System {
            46
        } else {
            41
        },
        Phase::Collect(r) => if r == Round::System {
            45
        } else {
            40
        },
        Phase::Restore(s) => if s == Slot::StagingMine {
            39
        } else {
            38
        },
        Phase::RemoveDir(s) => if s == Slot::StagingMine {
            37
        } else {
            36
        },
        Phase::Current(s) => if s == Slot::LocalSystem {
            35
        } else {
            33
        },
        Phase::Compare(s) => if s == Slot::LocalSystem {
            34
        } else {
            32
        },
        Phase::CharacterDir => 31,
        Phase::Write(r) => if r == Round::System {
            30
        } else {
            29
        },
        Phase::Rollback(s) => if s == Slot::LocalSystem {
            28
        } else {
            27
        },
        Phase::RemoveCharacterDir => 26,
        Phase::Finished => 0,
    }
}

proof fn lemma_push_keeps(h: Seq<Record>, x: Record)
    ensures
        forall|phase: Phase, answer: Option<bool>|
            happened(h, phase, answer) ==> #[trigger] happened(h.push(x), phase, answer),
        forall|phase: Phase| succeeded(h, phase) ==> #[trigger] succeeded(h.push(x), phase),
        happened(h.push(x), x.phase, x.answer),
        x.answer is Some ==> succeeded(h.push(x), x.phase),
        nothing_written(h) && !(x.phase is Write) ==> nothing_written(h.push(x)),
        forall|phase: Phase| tried(h, phase) ==> #[trigger] tried(h.push(x), phase),
        tried(h.push(x), x.phase),
{
    assert forall|phase: Phase| tried(h, phase) implies #[trigger] tried(h.push(x), phase) by {
        let k = choose|k: int| 0 <= k < h.len() && h[k].phase == phase;
        assert(h.push(x)[k] == h[k]);
    }
    if nothing_written(h) && !(x.phase is Write) {
        assert forall|k: int| 0 <= k < h.push(x).len() implies !(#[trigger] h.push(x)[k].phase is Write) by {
            if k < h.len() {
                assert(h.push(x)[k] == h[k]);
            }
        }
    }
    assert forall|phase: Phase| succeeded(h, phase) implies #[trigger] succeeded(h.push(x), phase) by {
        let k = choose|k: int| 0 <= k < h.len() && h[k].phase == phase && h[k].answer is Some;
        assert(h.push(x)[k] == h[k]);
    }
    assert forall|phase: Phase, answer: Option<bool>|
        happened(h, phase, answer) implies #[trigger] happened(h.push(x), phase, answer) by {
        let k = choose|k: int| 0 <= k < h.len() && h[k] == Record { phase, answer };
        assert(h.push(x)[k] == h[k]);
    }
    assert(h.push(x)[h.len() as int] == x);
}

/// Each step keeps the account of what the run has done, and brings the run
/// closer to its end.
proof fn lemma_next(p: Progress, h: Seq<Record>, answer: Option<bool>)
    requires
        inv(p, h),
        p.phase != Phase::Finished,
    ensures
        inv(next(p, answer), h.push(Record { phase: p.phase, answer })),
        rank(next(p, answer).phase) < rank(p.phase),
{
    lemma_push_keeps(h, Record { phase: p.phase, answer });
    match p.phase {
        Phase::Lock => lemma_next_lock(p, h, answer),
        Phase::Probe(_) => lemma_next_probe(p, h, answer),
        Phase::Backup(_) => lemma_next_backup(p, h, answer),
        Phase::StagingDir(_) => lemma_next_staging_dir(p, h, answer),
        Phase::StageIdentity(_) => lemma_next_stage_identity(p, h, answer),
        Phase::StageSource(_) => lemma_next_stage_source(p, h, answer),
        Phase::Sign(_) => lemma_next_sign(p, h, answer),
        Phase::CheckSigned(_) => lemma_next_check_signed(p, h, answer),
        Phase::Collect(_) => lemma_next_collect(p, h, answer),
        Phase::Restore(_) => lemma_next_restore(p, h, answer),
        Phase::RemoveDir(_) => lemma_next_remove_dir(p, h, answer),
        Phase::Current(_) => lemma_next_current(p, h, answer),
        Phase::Compare(_) => lemma_next_compare(p, h, answer),
        Phase::CharacterDir => lemma_next_character_dir(p, h, answer),
        Phase::Write(_) => lemma_next_write(p, h, answer),
        Phase::Rollback(_) => lemma_next_rollback(p, h, answer),
        Phase::RemoveCharacterDir => lemma_next_remove_character_dir(p, h, answer),
        Phase::Finished => {},
    }
}

#[verifier::spinoff_prover]
proof fn lemma_next_lock(p: Progress, h: Seq<Record>, answer: Option<bool>)
    requires
        inv(p, h),
        p.phase matches Phase::Lock,
        forall|phase: Phase, a: Option<bool>|
            happened(h, phase, a) ==> #[trigger] happened(h.push(Record { phase: p.phase, answer }), phase, a),
        happened(h.push(Record { phase: p.phase, answer }), p.phase, answer),
        forall|phase: Phase| succeeded(h, phase) ==> #[trigger] succeeded(h.push(Record { phase: p.phase, answer }), phase),
        answer is Some ==> succeeded(h.push(Record { phase: p.phase, answer }), p.phase),
        nothing_written(h) && !(p.phase is Write) ==> nothing_written(h.push(Record { phase: p.phase, answer })),
        forall|phase: Phase| tried(h, phase) ==> #[trigger] tried(h.push(Record { phase: p.phase, answer }), phase),
        tried(h.push(Record { phase: p.phase, answer }), p.phase),
    ensures
        inv(next(p, answer), h.push(Record { phase: p.phase, answer })),
        rank(next(p, answer).phase) < rank(p.phase),
{
}

#[verifier::spinoff_prover]
proof fn lemma_next_probe(p: Progress, h: Seq<Record>, answer: Option<bool>)
    requires
        inv(p, h),
        p.phase matches Phase::Probe(_),
        forall|phase: Phase, a: Option<bool>|
            happened(h, phase, a) ==> #[trigger] happened(h.push(Record { phase: p.phase, answer }), phase, a),
        happened(h.push(Record { phase: p.phase, answer }), p.phase, answer),
        forall|phase: Phase| succeeded(h, phase) ==> #[trigger] succeeded(h.push(Record { phase: p.phase, answer }), phase),
        answer is Some ==> succeeded(h.push(Record { phase: p.phase, answer }), p.phase),
        nothing_written(h) && !(p.phase is Write) ==> nothing_written(h.push(Record { phase: p.phase, answer })),
        forall|phase: Phase| tried(h, phase) ==> #[trigger] tried(h.push(Record { phase: p.phase, answer }), phase),
        tried(h.push(Record { phase: p.phase, answer }), p.phase),
    ensures
        inv(next(p, answer), h.push(Record { phase: p.phase, answer })),
        rank(next(p, answer).phase) < rank(p.phase),
{
    let h2 = h.push(Record { phase: p.phase, answer });
    if answer is Some && answer != Some(true) {
        assert(answer == Some(false));
    }
    if let Phase::Probe(s) = p.phase {
        assert(happened(h2, Phase::Probe(s), answer));
        if answer == Some(false) && s == Slot::StagingOther {
            let q = with_backed(p, s, false);
            assert(captured_slot(h2, q, Slot::LocalSystem));
            assert(captured_slot(h2, q, Slot::LocalCharacter));
            assert(captured_slot(h2, q, Slot::StagingMine));
        }
        if answer == Some(false) && s != Slot::LocalSystem {
            let q = with_backed(p, s, false);
            assert(backed(q, s) == false);
            assert(happened(h2, Phase::Probe(s), Some(backed(q, s))));
            assert(captured_slot(h2, q, s));
        }
    }
}

#[verifier::spinoff_prover]
proof fn lemma_next_backup(p: Progress, h: Seq<Record>, answer: Option<bool>)
    requires
        inv(p, h),
        p.phase matches Phase::Backup(_),
        forall|phase: Phase, a: Option<bool>|
            happened(h, phase, a) ==> #[trigger] happened(h.push(Record { phase: p.phase, answer }), phase, a),
        happened(h.push(Record { phase: p.phase, answer }), p.phase, answer),
        forall|phase: Phase| succeeded(h, phase) ==> #[trigger] succeeded(h.push(Record { phase: p.phase, answer }), phase),
        answer is Some ==> succeeded(h.push(Record { phase: p.phase, answer }), p.phase),
        nothing_written(h) && !(p.phase is Write) ==> nothing_written(h.push(Record { phase: p.phase, answer })),
        forall|phase: Phase| tried(h, phase) ==> #[trigger] tried(h.push(Record { phase: p.phase, answer }), phase),
        tried(h.push(Record { phase: p.phase, answer }), p.phase),
    ensures
        inv(next(p, answer), h.push(Record { phase: p.phase, answer })),
        rank(next(p, answer).phase) < rank(p.phase),
{
}

#[verifier::spinoff_prover]
proof fn lemma_next_staging_dir(p: Progress, h: Seq<Record>, answer: Option<bool>)
    requires
        inv(p, h),
        p.phase matches Phase::StagingDir(_),
        forall|phase: Phase, a: Option<bool>|
            happened(h, phase, a) ==> #[trigger] happened(h.push(Record { phase: p.phase, answer }), phase, a),
        happened(h.push(Record { phase: p.phase, answer }), p.phase, answer),
        forall|phase: Phase| succeeded(h, phase) ==> #[trigger] succeeded(h.push(Record { phase: p.phase, answer }), phase),
        answer is Some ==> succeeded(h.push(Record { phase: p.phase, answer }), p.phase),
        nothing_written(h) && !(p.phase is Write) ==> nothing_written(h.push(Record { phase: p.phase, answer })),
        forall|phase: Phase| tried(h, phase) ==> #[trigger] tried(h.push(Record { phase: p.phase, answer }), phase),
        tried(h.push(Record { phase: p.phase, answer }), p.phase),
    ensures
        inv(next(p, answer), h.push(Record { phase: p.phase, answer })),
        rank(next(p, answer).phase) < rank(p.phase),
{
    let h2 = h.push(Record { phase: p.phase, answer });
    let existed = answer == Some(true);
    assert(found_dir(h2, p.phase, existed)) by {
        match answer {
            Some(b) => {},
            None => {},
        }
    }
    assert(forall|q: Phase, e: bool| #[trigger] found_dir(h, q, e) ==> found_dir(h2, q, e));
}

#[verifier::spinoff_prover]
proof fn lemma_next_stage_identity(p: Progress, h: Seq<Record>, answer: Option<bool>)
    requires
        inv(p, h),
        p.phase matches Phase::StageIdentity(_),
        forall|phase: Phase, a: Option<bool>|
            happened(h, phase, a) ==> #[trigger] happened(h.push(Record { phase: p.phase, answer }), phase, a),
        happened(h.push(Record { phase: p.phase, answer }), p.phase, answer),
        forall|phase: Phase| succeeded(h, phase) ==> #[trigger] succeeded(h.push(Record { phase: p.phase, answer }), phase),
        answer is Some ==> succeeded(h.push(Record { phase: p.phase, answer }), p.phase),
        nothing_written(h) && !(p.phase is Write) ==> nothing_written(h.push(Record { phase: p.phase, answer })),
        forall|phase: Phase| tried(h, phase) ==> #[trigger] tried(h.push(Record { phase: p.phase, answer }), phase),
        tried(h.push(Record { phase: p.phase, answer }), p.phase),
    ensures
        inv(next(p, answer), h.push(Record { phase: p.phase, answer })),
        rank(next(p, answer).phase) < rank(p.phase),
{
}

#[verifier::spinoff_prover]
proof fn lemma_next_stage_source(p: Progress, h: Seq<Record>, answer: Option<bool>)
    requires
        inv(p, h),
        p.phase matches Phase::StageSource(_),
        forall|phase: Phase, a: Option<bool>|
            happened(h, phase, a) ==> #[trigger] happened(h.push(Record { phase: p.phase, answer }), phase, a),
        happened(h.push(Record { phase: p.phase, answer }), p.phase, answer),
        forall|phase: Phase| succeeded(h, phase) ==> #[trigger] succeeded(h.push(Record { phase: p.phase, answer }), phase),
        answer is Some ==> succeeded(h.push(Record { phase: p.phase, answer }), p.phase),
        nothing_written(h) && !(p.phase is Write) ==> nothing_written(h.push(Record { phase: p.phase, answer })),
        forall|phase: Phase| tried(h, phase) ==> #[trigger] tried(h.push(Record { phase: p.phase, answer }), phase),
        tried(h.push(Record { phase: p.phase, answer }), p.phase),
    ensures
        inv(next(p, answer), h.push(Record { phase: p.phase, answer })),
        rank(next(p, answer).phase) < rank(p.phase),
{
}

#[verifier::spinoff_prover]
proof fn lemma_next_sign(p: Progress, h: Seq<Record>, answer: Option<bool>)
    requires
        inv(p, h),
        p.phase matches Phase::Sign(_),
        forall|phase: Phase, a: Option<bool>|
            happened(h, phase, a) ==> #[trigger] happened(h.push(Record { phase: p.phase, answer }), phase, a),
        happened(h.push(Record { phase: p.phase, answer }), p.phase, answer),
        forall|phase: Phase| succeeded(h, phase) ==> #[trigger] succeeded(h.push(Record { phase: p.phase, answer }), phase),
        answer is Some ==> succeeded(h.push(Record { phase: p.phase, answer }), p.phase),
        nothing_written(h) && !(p.phase is Write) ==> nothing_written(h.push(Record { phase: p.phase, answer })),
        forall|phase: Phase| tried(h, phase) ==> #[trigger] tried(h.push(Record { phase: p.phase, answer }), phase),
        tried(h.push(Record { phase: p.phase, answer }), p.phase),
    ensures
        inv(next(p, answer), h.push(Record { phase: p.phase, answer })),
        rank(next(p, answer).phase) < rank(p.phase),
{
}

#[verifier::spinoff_prover]
proof fn lemma_next_check_signed(p: Progress, h: Seq<Record>, answer: Option<bool>)
    requires
        inv(p, h),
        p.phase matches Phase::CheckSigned(_),
        forall|phase: Phase, a: Option<bool>|
            happened(h, phase, a) ==> #[trigger] happened(h.push(Record { phase: p.phase, answer }), phase, a),
        happened(h.push(Record { phase: p.phase, answer }), p.phase, answer),
        forall|phase: Phase| succeeded(h, phase) ==> #[trigger] succeeded(h.push(Record { phase: p.phase, answer }), phase),
        answer is Some ==> succeeded(h.push(Record { phase: p.phase, answer }), p.phase),
        nothing_written(h) && !(p.phase is Write) ==> nothing_written(h.push(Record { phase: p.phase, answer })),
        forall|phase: Phase| tried(h, phase) ==> #[trigger] tried(h.push(Record { phase: p.phase, answer }), phase),
        tried(h.push(Record { phase: p.phase, answer }), p.phase),
    ensures
        inv(next(p, answer), h.push(Record { phase: p.phase, answer })),
        rank(next(p, answer).phase) < rank(p.phase),
{
}

#[verifier::spinoff_prover]
proof fn lemma_next_collect(p: Progress, h: Seq<Record>, answer: Option<bool>)
    requires
        inv(p, h),
        p.phase matches Phase::Collect(_),
        forall|phase: Phase, a: Option<bool>|
            happened(h, phase, a) ==> #[trigger] happened(h.push(Record { phase: p.phase, answer }), phase, a),
        happened(h.push(Record { phase: p.phase, answer }), p.phase, answer),
        forall|phase: Phase| succeeded(h, phase) ==> #[trigger] succeeded(h.push(Record { phase: p.phase, answer }), phase),
        answer is Some ==> succeeded(h.push(Record { phase: p.phase, answer }), p.phase),
        nothing_written(h) && !(p.phase is Write) ==> nothing_written(h.push(Record { phase: p.phase, answer })),
        forall|phase: Phase| tried(h, phase) ==> #[trigger] tried(h.push(Record { phase: p.phase, answer }), phase),
        tried(h.push(Record { phase: p.phase, answer }), p.phase),
    ensures
        inv(next(p, answer), h.push(Record { phase: p.phase, answer })),
        rank(next(p, answer).phase) < rank(p.phase),
{
}

#[verifier::spinoff_prover]
proof fn lemma_next_restore(p: Progress, h: Seq<Record>, answer: Option<bool>)
    requires
        inv(p, h),
        p.phase matches Phase::Restore(_),
        forall|phase: Phase, a: Option<bool>|
            happened(h, phase, a) ==> #[trigger] happened(h.push(Record { phase: p.phase, answer }), phase, a),
        happened(h.push(Record { phase: p.phase, answer }), p.phase, answer),
        forall|phase: Phase| succeeded(h, phase) ==> #[trigger] succeeded(h.push(Record { phase: p.phase, answer }), phase),
        answer is Some ==> succeeded(h.push(Record { phase: p.phase, answer }), p.phase),
        nothing_written(h) && !(p.phase is Write) ==> nothing_written(h.push(Record { phase: p.phase, answer })),
        forall|phase: Phase| tried(h, phase) ==> #[trigger] tried(h.push(Record { phase: p.phase, answer }), phase),
        tried(h.push(Record { phase: p.phase, answer }), p.phase),
    ensures
        inv(next(p, answer), h.push(Record { phase: p.phase, answer })),
        rank(next(p, answer).phase) < rank(p.phase),
{
    let h2 = h.push(Record { phase: p.phase, answer });
    if let Phase::Restore(s) = p.phase {
        if answer is Some {
            assert(succeeded(h2, Phase::Restore(s)));
        }
        if s == Slot::StagingOther && answer is Some && !p.restore_failed {
            assert(succeeded(h2, Phase::Restore(Slot::StagingMine)));
            assert(staging_restored(h2));
        }
    }
}

#[verifier::spinoff_prover]
proof fn lemma_next_remove_dir(p: Progress, h: Seq<Record>, answer: Option<bool>)
    requires
        inv(p, h),
        p.phase matches Phase::RemoveDir(_),
        forall|phase: Phase, a: Option<bool>|
            happened(h, phase, a) ==> #[trigger] happened(h.push(Record { phase: p.phase, answer }), phase, a),
        happened(h.push(Record { phase: p.phase, answer }), p.phase, answer),
        forall|phase: Phase| succeeded(h, phase) ==> #[trigger] succeeded(h.push(Record { phase: p.phase, answer }), phase),
        answer is Some ==> succeeded(h.push(Record { phase: p.phase, answer }), p.phase),
        nothing_written(h) && !(p.phase is Write) ==> nothing_written(h.push(Record { phase: p.phase, answer })),
        forall|phase: Phase| tried(h, phase) ==> #[trigger] tried(h.push(Record { phase: p.phase, answer }), phase),
        tried(h.push(Record { phase: p.phase, answer }), p.phase),
    ensures
        inv(next(p, answer), h.push(Record { phase: p.phase, answer })),
        rank(next(p, answer).phase) < rank(p.phase),
{
}

#[verifier::spinoff_prover]
proof fn lemma_next_current(p: Progress, h: Seq<Record>, answer: Option<bool>)
    requires
        inv(p, h),
        p.phase matches Phase::Current(_),
        forall|phase: Phase, a: Option<bool>|
            happened(h, phase, a) ==> #[trigger] happened(h.push(Record { phase: p.phase, answer }), phase, a),
        happened(h.push(Record { phase: p.phase, answer }), p.phase, answer),
        forall|phase: Phase| succeeded(h, phase) ==> #[trigger] succeeded(h.push(Record { phase: p.phase, answer }), phase),
        answer is Some ==> succeeded(h.push(Record { phase: p.phase, answer }), p.phase),
        nothing_written(h) && !(p.phase is Write) ==> nothing_written(h.push(Record { phase: p.phase, answer })),
        forall|phase: Phase| tried(h, phase) ==> #[trigger] tried(h.push(Record { phase: p.phase, answer }), phase),
        tried(h.push(Record { phase: p.phase, answer }), p.phase),
    ensures
        inv(next(p, answer), h.push(Record { phase: p.phase, answer })),
        rank(next(p, answer).phase) < rank(p.phase),
{
    let h2 = h.push(Record { phase: p.phase, answer });
    if answer is Some && answer != Some(true) {
        assert(answer == Some(false));
    }
    if let Phase::Current(s) = p.phase {
        if answer is Some {
            assert(happened(h2, Phase::Current(s), answer));
            if s == Slot::LocalCharacter {
                assert(happened(h2, Phase::Compare(Slot::LocalSystem), Some(true)));
                if !p.character_backed && answer == Some(false) {
                    let n = next(p, answer);
                    assert(n == at(p, Phase::CharacterDir));
                    assert(!n.character_backed);
                    assert(happened(h2, Phase::Current(Slot::LocalCharacter), Some(false)));
                    assert(unchanged(h2, n));
                    assert(captured_all(h2, n));
                    assert(round_done(h2, Round::System));
                    assert(round_done(h2, Round::Character));
                    assert(staging_restored(h2));
                    assert(ready_to_write(h2, n));
                }
            }
        }
    }
}

#[verifier::spinoff_prover]
proof fn lemma_next_compare(p: Progress, h: Seq<Record>, answer: Option<bool>)
    requires
        inv(p, h),
        p.phase matches Phase::Compare(_),
        forall|phase: Phase, a: Option<bool>|
            happened(h, phase, a) ==> #[trigger] happened(h.push(Record { phase: p.phase, answer }), phase, a),
        happened(h.push(Record { phase: p.phase, answer }), p.phase, answer),
        forall|phase: Phase| succeeded(h, phase) ==> #[trigger] succeeded(h.push(Record { phase: p.phase, answer }), phase),
        answer is Some ==> succeeded(h.push(Record { phase: p.phase, answer }), p.phase),
        nothing_written(h) && !(p.phase is Write) ==> nothing_written(h.push(Record { phase: p.phase, answer })),
        forall|phase: Phase| tried(h, phase) ==> #[trigger] tried(h.push(Record { phase: p.phase, answer }), phase),
        tried(h.push(Record { phase: p.phase, answer }), p.phase),
    ensures
        inv(next(p, answer), h.push(Record { phase: p.phase, answer })),
        rank(next(p, answer).phase) < rank(p.phase),
{
    let h2 = h.push(Record { phase: p.phase, answer });
    if let Phase::Compare(s) = p.phase {
        if answer == Some(true) {
            assert(happened(h2, Phase::Compare(s), Some(true)));
            if s == Slot::LocalSystem {
                assert(happened(h2, Phase::Compare(Slot::LocalSystem), Some(true)));
            } else if s == Slot::LocalCharacter {
                assert(happened(h, Phase::Compare(Slot::LocalSystem), Some(true)));
                assert(happened(h2, Phase::Compare(Slot::LocalSystem), Some(true)));
            }
            if s == Slot::LocalCharacter {
                assert(p.character_backed);
                assert(happened(h2, Phase::Compare(Slot::LocalCharacter), Some(true)));
                assert(unchanged(h2, next(p, answer)));
            }
        }
    }
}

#[verifier::spinoff_prover]
proof fn lemma_next_character_dir(p: Progress, h: Seq<Record>, answer: Option<bool>)
    requires
        inv(p, h),
        p.phase matches Phase::CharacterDir,
        forall|phase: Phase, a: Option<bool>|
            happened(h, phase, a) ==> #[trigger] happened(h.push(Record { phase: p.phase, answer }), phase, a),
        happened(h.push(Record { phase: p.phase, answer }), p.phase, answer),
        forall|phase: Phase| succeeded(h, phase) ==> #[trigger] succeeded(h.push(Record { phase: p.phase, answer }), phase),
        answer is Some ==> succeeded(h.push(Record { phase: p.phase, answer }), p.phase),
        nothing_written(h) && !(p.phase is Write) ==> nothing_written(h.push(Record { phase: p.phase, answer })),
        forall|phase: Phase| tried(h, phase) ==> #[trigger] tried(h.push(Record { phase: p.phase, answer }), phase),
        tried(h.push(Record { phase: p.phase, answer }), p.phase),
    ensures
        inv(next(p, answer), h.push(Record { phase: p.phase, answer })),
        rank(next(p, answer).phase) < rank(p.phase),
{
    let h2 = h.push(Record { phase: p.phase, answer });
    let existed = answer == Some(true);
    assert(found_dir(h2, p.phase, existed)) by {
        match answer {
            Some(b) => {},
            None => {},
        }
    }
    assert(forall|q: Phase, e: bool| #[trigger] found_dir(h, q, e) ==> found_dir(h2, q, e));
}

#[verifier::spinoff_prover]
proof fn lemma_next_write(p: Progress, h: Seq<Record>, answer: Option<bool>)
    requires
        inv(p, h),
        p.phase matches Phase::Write(_),
        forall|phase: Phase, a: Option<bool>|
            happened(h, phase, a) ==> #[trigger] happened(h.push(Record { phase: p.phase, answer }), phase, a),
        happened(h.push(Record { phase: p.phase, answer }), p.phase, answer),
        forall|phase: Phase| succeeded(h, phase) ==> #[trigger] succeeded(h.push(Record { phase: p.phase, answer }), phase),
        answer is Some ==> succeeded(h.push(Record { phase: p.phase, answer }), p.phase),
        nothing_written(h) && !(p.phase is Write) ==> nothing_written(h.push(Record { phase: p.phase, answer })),
        forall|phase: Phase| tried(h, phase) ==> #[trigger] tried(h.push(Record { phase: p.phase, answer }), phase),
        tried(h.push(Record { phase: p.phase, answer }), p.phase),
    ensures
        inv(next(p, answer), h.push(Record { phase: p.phase, answer })),
        rank(next(p, answer).phase) < rank(p.phase),
{
}

#[verifier::spinoff_prover]
proof fn lemma_next_rollback(p: Progress, h: Seq<Record>, answer: Option<bool>)
    requires
        inv(p, h),
        p.phase matches Phase::Rollback(_),
        forall|phase: Phase, a: Option<bool>|
            happened(h, phase, a) ==> #[trigger] happened(h.push(Record { phase: p.phase, answer }), phase, a),
        happened(h.push(Record { phase: p.phase, answer }), p.phase, answer),
        forall|phase: Phase| succeeded(h, phase) ==> #[trigger] succeeded(h.push(Record { phase: p.phase, answer }), phase),
        answer is Some ==> succeeded(h.push(Record { phase: p.phase, answer }), p.phase),
        nothing_written(h) && !(p.phase is Write) ==> nothing_written(h.push(Record { phase: p.phase, answer })),
        forall|phase: Phase| tried(h, phase) ==> #[trigger] tried(h.push(Record { phase: p.phase, answer }), phase),
        tried(h.push(Record { phase: p.phase, answer }), p.phase),
    ensures
        inv(next(p, answer), h.push(Record { phase: p.phase, answer })),
        rank(next(p, answer).phase) < rank(p.phase),
{
}

#[verifier::spinoff_prover]
proof fn lemma_next_remove_character_dir(p: Progress, h: Seq<Record>, answer: Option<bool>)
    requires
        inv(p, h),
        p.phase matches Phase::RemoveCharacterDir,
        forall|phase: Phase, a: Option<bool>|
            happened(h, phase, a) ==> #[trigger] happened(h.push(Record { phase: p.phase, answer }), phase, a),
        happened(h.push(Record { phase: p.phase, answer }), p.phase, answer),
        forall|phase: Phase| succeeded(h, phase) ==> #[trigger] succeeded(h.push(Record { phase: p.phase, answer }), phase),
        answer is Some ==> succeeded(h.push(Record { phase: p.phase, answer }), p.phase),
        nothing_written(h) && !(p.phase is Write) ==> nothing_written(h.push(Record { phase: p.phase, answer })),
        forall|phase: Phase| tried(h, phase) ==> #[trigger] tried(h.push(Record { phase: p.phase, answer }), phase),
        tried(h.push(Record { phase: p.phase, answer }), p.phase),
    ensures
        inv(next(p, answer), h.push(Record { phase: p.phase, answer })),
        rank(next(p, answer).phase) < rank(p.phase),
{
}

// ---------------------------------------------------------------------------
// The run
// ---------------------------------------------------------------------------

/// Why a run ended without success.
#[derive(Debug)]
pub enum RunError {
    /// Another run holds the signer's directory (the lock's message).
    Lock(String),
    /// A backup could not be taken (the failing step's message).
    Io(String),
    /// The account's system save disappeared before it was backed up.
    MissingRequired,
    /// A signing round failed; the staging files were restored as far as possible.
    SigningStopped { error: String, restore_errors: Vec<String> },
    /// The staging files could not all be restored.
    StagingNotRestored { restore_errors: Vec<String> },
    /// A local save changed while the signer ran; it was left as it is.
    Changed(Slot),
    /// A local save could not be checked against its backup.
    CannotVerify { slot: Slot, comparing: bool, error: String },
    /// Writing a signed save failed; the originals were put back as far as possible.
    CommitFailed { error: String, rollback_errors: Vec<String> },
}

pub open spec fn initial_progress() -> Progress {
    Progress {
        phase: Phase::Lock,
        system_backed: false,
        character_backed: false,
        mine_backed: false,
        other_backed: false,
        mine_dir_existed: false,
        other_dir_existed: false,
        sign_failed: false,
        restore_failed: false,
        character_dir_existed: false,
        stop: Stop::Success,
    }
}

/// The phases whose failure message is kept (it becomes the run's error).
pub open spec fn keeps_message(phase: Phase) -> bool {
    match phase {
        Phase::Lock | Phase::Probe(_) | Phase::Backup(_) => true,
        Phase::StageIdentity(_) | Phase::StageSource(_) | Phase::Sign(_) => true,
        Phase::CheckSigned(_) | Phase::Collect(_) => true,
        Phase::Current(_) | Phase::Compare(_) | Phase::Write(_) => true,
        _ => false,
    }
}

/// The phases whose failure messages are collected (restoring files).
pub open spec fn collects_error(phase: Phase) -> bool {
    match phase {
        Phase::Restore(_) | Phase::Rollback(_) => true,
        _ => false,
    }
}

pub open spec fn needs_message(p: Progress) -> bool {
    ||| p.sign_failed
    ||| p.phase is Rollback
    ||| p.phase is RemoveCharacterDir
    ||| p.phase is Finished && match p.stop {
        Stop::Lock | Stop::Io | Stop::SigningStopped | Stop::CommitFailed => true,
        Stop::CannotVerify { .. } => true,
        _ => false,
    }
}

/// A run of a plan: it asks for one action at a time and is told how it went.
/// It never asks to write into the account before all four files were backed
/// up, both signing rounds succeeded, the staging files were restored and
/// both local saves were found unchanged.
pub struct Execution {
    progress: Progress,
    message: Option<String>,
    errors: Vec<String>,
    history: Ghost<Seq<Record>>,
}

fn keeps_message_exec(phase: Phase) -> (r: bool)
    ensures
        r == keeps_message(phase),
{
    match phase {
        Phase::Lock | Phase::Probe(_) | Phase::Backup(_) => true,
        Phase::StageIdentity(_) | Phase::StageSource(_) | Phase::Sign(_) => true,
        Phase::CheckSigned(_) | Phase::Collect(_) => true,
        Phase::Current(_) | Phase::Compare(_) | Phase::Write(_) => true,
        _ => false,
    }
}

fn collects_error_exec(phase: Phase) -> (r: bool)
    ensures
        r == collects_error(phase),
{
    match phase {
        Phase::Restore(_) | Phase::Rollback(_) => true,
        _ => false,
    }
}

fn backed_exec(p: Progress, s: Slot) -> (r: bool)
    ensures
        r == backed(p, s),
{
    match s {
        Slot::LocalSystem => p.system_backed,
        Slot::LocalCharacter => p.character_backed,
        Slot::StagingMine => p.mine_backed,
        Slot::StagingOther => p.other_backed,
    }
}

fn with_backed_exec(p: Progress, s: Slot, b: bool) -> (r: Progress)
    ensures
        r == with_backed(p, s, b),
{
    match s {
        Slot::LocalSystem => Progress { system_backed: b, ..p },
        Slot::LocalCharacter => Progress { character_backed: b, ..p },
        Slot::StagingMine => Progress { mine_backed: b, ..p },
        Slot::StagingOther => Progress { other_backed: b, ..p },
    }
}

fn after_capture_exec(p: Progress, s: Slot) -> (r: Progress)
    ensures
        r == after_capture(p, s),
{
    match s {
        Slot::LocalSystem => Progress { phase: Phase::Probe(Slot::LocalCharacter), ..p },
        Slot::LocalCharacter => Progress { phase: Phase::Probe(Slot::StagingMine), ..p },
        Slot::StagingMine => Progress { phase: Phase::Probe(Slot::StagingOther), ..p },
        Slot::StagingOther => Progress { phase: Phase::StagingDir(Slot::StagingMine), ..p },
    }
}

fn decide_after_restore_exec(p: Progress) -> (r: Progress)
    ensures
        r == decide_after_restore(p),
{
    if p.sign_failed {
        Progress { phase: Phase::Finished, stop: Stop::SigningStopped, ..p }
    } else if p.restore_failed {
        Progress { phase: Phase::Finished, stop: Stop::StagingNotRestored, ..p }
    } else {
        Progress { phase: Phase::Current(Slot::LocalSystem), ..p }
    }
}

fn after_unchanged_exec(p: Progress, s: Slot) -> (r: Progress)
    ensures
        r == after_unchanged(p, s),
{
    if s == Slot::LocalSystem {
        Progress { phase: Phase::Current(Slot::LocalCharacter), ..p }
    } else {
        Progress { phase: Phase::CharacterDir, ..p }
    }
}

/// One step of a run (see [`next`]).
fn next_exec(p: Progress, answer: Option<bool>) -> (r: Progress)
    ensures
        r == next(p, answer),
{
    let ok = answer.is_some();
    let flag = match answer {
        Some(b) => b,
        None => false,
    };
    let sign_failure = Progress { phase: Phase::Restore(Slot::StagingMine), sign_failed: true, ..p };
    match p.phase {
        Phase::Lock => if ok {
            Progress { phase: Phase::Probe(Slot::LocalSystem), ..p }
        } else {
            Progress { phase: Phase::Finished, stop: Stop::Lock, ..p }
        },
        Phase::Probe(s) => if !ok {
            Progress { phase: Phase::Finished, stop: Stop::Io, ..p }
        } else if s == Slot::LocalSystem && !flag {
            Progress {
                phase: Phase::Finished,
                stop: Stop::MissingRequired,
                ..with_backed_exec(p, s, false)
            }
        } else if flag {
            Progress { phase: Phase::Backup(s), ..with_backed_exec(p, s, true) }
        } else {
            after_capture_exec(with_backed_exec(p, s, false), s)
        },
        Phase::Backup(s) => if ok {
            after_capture_exec(p, s)
        } else {
            Progress { phase: Phase::Finished, stop: Stop::Io, ..p }
        },
        Phase::StagingDir(s) => if s == Slot::StagingMine {
            Progress { phase: Phase::StagingDir(Slot::StagingOther), mine_dir_existed: flag, ..p }
        } else {
            Progress {
                phase: Phase::StageIdentity(Round::System),
                other_dir_existed: flag,
                ..p
            }
        },
        Phase::StageIdentity(r) => if ok {
            Progress { phase: Phase::StageSource(r), ..p }
        } else {
            sign_failure
        },
        Phase::StageSource(r) => if ok {
            Progress { phase: Phase::Sign(r), ..p }
        } else {
            sign_failure
        },
        Phase::Sign(r) => if ok {
            Progress { phase: Phase::CheckSigned(r), ..p }
        } else {
            sign_failure
        },
        Phase::CheckSigned(r) => if ok {
            Progress { phase: Phase::Collect(r), ..p }
        } else {
            sign_failure
        },
        Phase::Collect(r) => if !ok {
            sign_failure
        } else if r == Round::System {
            Progress { phase: Phase::StageIdentity(Round::Character), ..p }
        } else {
            Progress { phase: Phase::Restore(Slot::StagingMine), ..p }
        },
        Phase::Restore(s) => {
            let q = if ok {
                p
            } else {
                Progress { restore_failed: true, ..p }
            };
            if s == Slot::StagingMine {
                Progress { phase: Phase::Restore(Slot::StagingOther), ..q }
            } else if !q.mine_dir_existed {
                Progress { phase: Phase::RemoveDir(Slot::StagingMine), ..q }
            } else if !q.other_dir_existed {
                Progress { phase: Phase::RemoveDir(Slot::StagingOther), ..q }
            } else {
                decide_after_restore_exec(q)
            }
        },
        Phase::RemoveDir(s) => if s == Slot::StagingMine && !p.other_dir_existed {
            Progress { phase: Phase::RemoveDir(Slot::StagingOther), ..p }
        } else {
            decide_after_restore_exec(p)
        },
        Phase::Current(s) => if !ok {
            Progress {
                phase: Phase::Finished,
                stop: Stop::CannotVerify { slot: s, comparing: false },
                ..p
            }
        } else if backed_exec(p, s) && flag {
            Progress { phase: Phase::Compare(s), ..p }
        } else if !backed_exec(p, s) && !flag {
            after_unchanged_exec(p, s)
        } else {
            Progress { phase: Phase::Finished, stop: Stop::Changed(s), ..p }
        },
        Phase::Compare(s) => if !ok {
            Progress {
                phase: Phase::Finished,
                stop: Stop::CannotVerify { slot: s, comparing: true },
                ..p
            }
        } else if flag {
            after_unchanged_exec(p, s)
        } else {
            Progress { phase: Phase::Finished, stop: Stop::Changed(s), ..p }
        },
        Phase::CharacterDir => Progress {
            phase: Phase::Write(Round::System),
            character_dir_existed: flag,
            ..p
        },
        Phase::Write(r) => if !ok {
            Progress { phase: Phase::Rollback(Slot::LocalSystem), ..p }
        } else if r == Round::System {
            Progress { phase: Phase::Write(Round::Character), ..p }
        } else {
            Progress { phase: Phase::Finished, stop: Stop::Success, ..p }
        },
        Phase::Rollback(s) => {
            let q = if ok {
                p
            } else {
                Progress { restore_failed: true, ..p }
            };
            if s == Slot::LocalSystem {
                Progress { phase: Phase::Rollback(Slot::LocalCharacter), ..q }
            } else if !q.character_dir_existed {
                Progress { phase: Phase::RemoveCharacterDir, ..q }
            } else {
                Progress { phase: Phase::Finished, stop: Stop::CommitFailed, ..q }
            }
        },
        Phase::RemoveCharacterDir => Progress { phase: Phase::Finished, stop: Stop::CommitFailed, ..p },
        Phase::Finished => p,
    }
}

/// Every run ends: each report lowers the phase's rank (see
/// `Execution::advance`), which starts at its highest and is never negative;
/// only the finished phase has rank zero.
pub proof fn law_every_run_ends(phase: Phase)
    ensures
        0 <= rank(phase) <= rank(Phase::Lock),
        rank(phase) == 0 <==> phase == Phase::Finished,
{
}

/// A run that ends without success has written no signed save into the
/// account, or, where writing one failed, has put both local saves back
/// from their backups; a run that succeeds wrote both signed saves, and only
/// after everything that has to precede writing.
pub proof fn law_a_run_writes_all_or_nothing(e: Execution)
    requires
        e.wf(),
        e.progress().phase == Phase::Finished,
    ensures
        e.progress().stop == Stop::Success ==> {
            &&& ready_to_write(e.history(), e.progress())
            &&& succeeded(e.history(), Phase::Write(Round::System))
            &&& succeeded(e.history(), Phase::Write(Round::Character))
        },
        e.progress().stop == Stop::CommitFailed ==> rolled_back(e.history()),
        e.progress().stop != Stop::Success && e.progress().stop != Stop::CommitFailed
            ==> nothing_written(e.history()),
{
}

impl Execution {
    pub closed spec fn progress(&self) -> Progress {
        self.progress
    }

    /// Every action performed so far, with its report.
    pub closed spec fn history(&self) -> Seq<Record> {
        self.history@
    }

    /// The kept failure message.
    pub closed spec fn message(&self) -> Option<Seq<char>> {
        match self.message {
            Some(m) => Some(m@),
            None => None,
        }
    }

    /// The failure messages collected while restoring files.
    pub closed spec fn errors(&self) -> Seq<Seq<char>> {
        self.errors@.map_values(|e: String| e@)
    }

    /// The run's record of what it has done is consistent with where it stands.
    pub closed spec fn wf(&self) -> bool {
        &&& inv(self.progress, self.history@)
        &&& needs_message(self.progress) ==> self.message is Some
    }

    /// A run that has done nothing yet; its first action locks the signer.
    pub fn new() -> (e: Execution)
        ensures
            e.wf(),
            e.progress() == initial_progress(),
            e.history() == Seq::<Record>::empty(),
            e.message() is None,
            e.errors() == Seq::<Seq<char>>::empty(),
    {
        let e = Execution {
            progress: Progress {
                phase: Phase::Lock,
                system_backed: false,
                character_backed: false,
                mine_backed: false,
                other_backed: false,
                mine_dir_existed: false,
                other_dir_existed: false,
                sign_failed: false,
                restore_failed: false,
                character_dir_existed: false,
                stop: Stop::Success,
            },
            message: None,
            errors: Vec::new(),
            history: Ghost(Seq::empty()),
        };
        assert(e.errors() =~= Seq::<Seq<char>>::empty());
        e
    }

    /// The action that the run asks for now. A signed save is only ever
    /// written into the account once all four files were backed up, both
    /// rounds were signed and collected, both staging files were restored and
    /// both local saves were found unchanged; the staging files are only
    /// touched once all four backups exist; a directory is only removed
    /// when this run found it absent before, so that it is the run's own.
    pub fn action(&self) -> (a: Action)
        requires
            self.wf(),
        ensures
            a == action_of(self.progress()),
            a is WriteSigned ==> ready_to_write(self.history(), self.progress()),
            a is StageIdentity ==> captured_all(self.history(), self.progress()),
            a matches Action::RemoveStagingDir(s) ==> found_dir(
                self.history(),
                Phase::StagingDir(s),
                false,
            ),
            a is RemoveCharacterDir ==> found_dir(self.history(), Phase::CharacterDir, false),
            a is Finish <==> self.progress().phase == Phase::Finished,
    {
        let p = self.progress;
        match p.phase {
            Phase::Lock => Action::AcquireLock,
            Phase::Probe(s) => Action::ProbeOriginal(s),
            Phase::Backup(s) => Action::BackupOriginal(s),
            Phase::StagingDir(s) => Action::ProbeStagingDir(s),
            Phase::StageIdentity(r) => Action::StageIdentity(r),
            Phase::StageSource(r) => Action::StageSource(r),
            Phase::Sign(r) => Action::Sign(r),
            Phase::CheckSigned(r) => Action::CheckSigned(r),
            Phase::Collect(r) => Action::CollectSigned(r),
            Phase::Restore(s) | Phase::Rollback(s) => if backed_exec(p, s) {
                Action::RestoreFromBackup(s)
            } else {
                Action::RemoveCreated(s)
            },
            Phase::RemoveDir(s) => Action::RemoveStagingDir(s),
            Phase::Current(s) => Action::ProbeCurrent(s),
            Phase::Compare(s) => Action::CompareWithBackup(s),
            Phase::CharacterDir => Action::ProbeCharacterDir,
            Phase::Write(r) => Action::WriteSigned(r),
            Phase::RemoveCharacterDir => Action::RemoveCharacterDir,
            Phase::Finished => Action::Finish,
        }
    }

    /// Reports how the requested action went: `Ok(flag)` (the flag answers
    /// the action's question) or `Err(message)`. Every report brings the run
    /// closer to its end.
    pub fn advance(&mut self, report: Result<bool, String>)
        requires
            old(self).wf(),
            old(self).progress().phase != Phase::Finished,
        ensures
            final(self).wf(),
            final(self).progress() == next(old(self).progress(), answer_of(report)),
            final(self).history() == old(self).history().push(
                Record { phase: old(self).progress().phase, answer: answer_of(report) },
            ),
            rank(final(self).progress().phase) < rank(old(self).progress().phase),
            match report {
                Err(m) => {
                    &&& keeps_message(old(self).progress().phase) ==> final(self).message() == Some(
                        m@,
                    )
                    &&& !keeps_message(old(self).progress().phase) ==> final(self).message()
                        == old(self).message()
                    &&& collects_error(old(self).progress().phase) ==> final(self).errors()
                        == old(self).errors().push(m@)
                    &&& !collects_error(old(self).progress().phase) ==> final(self).errors()
                        == old(self).errors()
                },
                Ok(_) => final(self).message() == old(self).message() && final(self).errors()
                    == old(self).errors(),
            },
    {
        let old_progress = self.progress;
        let ghost old_history = self.history@;
        let answer = match &report {
            Ok(flag) => Some(*flag),
            Err(_) => None,
        };
        proof {
            lemma_next(old_progress, old_history, answer);
        }
        match report {
            Err(m) => {
                if keeps_message_exec(old_progress.phase) {
                    self.message = Some(m);
                } else if collects_error_exec(old_progress.phase) {
                    let ghost before = self.errors@;
                    self.errors.push(m);
                    assert(self.errors@.map_values(|e: String| e@) =~= before.map_values(
                        |e: String| e@,
                    ).push(self.errors@[self.errors@.len() - 1]@));
                }
            },
            Ok(_) => {},
        }
        self.progress = next_exec(old_progress, answer);
        self.history = Ghost(old_history.push(Record { phase: old_progress.phase, answer }));
    }

    /// The result of a finished run.
    pub fn into_result(self) -> (r: Result<(), RunError>)
        requires
            self.wf(),
            self.progress().phase == Phase::Finished,
        ensures
            match self.progress().stop {
                Stop::Success => r is Ok,
                Stop::Lock => r matches Err(RunError::Lock(m)) && self.message() == Some(m@),
                Stop::Io => r matches Err(RunError::Io(m)) && self.message() == Some(m@),
                Stop::MissingRequired => r matches Err(RunError::MissingRequired),
                Stop::SigningStopped => r matches Err(
                    RunError::SigningStopped { error, restore_errors },
                ) && self.message() == Some(error@) && restore_errors@.map_values(
                    |e: String| e@,
                ) == self.errors(),
                Stop::StagingNotRestored => r matches Err(
                    RunError::StagingNotRestored { restore_errors },
                ) && restore_errors@.map_values(|e: String| e@) == self.errors(),
                Stop::Changed(s) => r matches Err(RunError::Changed(t)) && t == s,
                Stop::CannotVerify { slot, comparing } => r matches Err(
                    RunError::CannotVerify { slot: t, comparing: c, error },
                ) && t == slot && c == comparing && self.message() == Some(error@),
                Stop::CommitFailed => r matches Err(
                    RunError::CommitFailed { error, rollback_errors },
                ) && self.message() == Some(error@) && rollback_errors@.map_values(
                    |e: String| e@,
                ) == self.errors(),
            },
    {
        let Execution { progress, message, errors, history: _ } = self;
        let text = match message {
            Some(m) => m,
            None => String::new(),
        };
        match progress.stop {
            Stop::Success => Ok(()),
            Stop::Lock => Err(RunError::Lock(text)),
            Stop::Io => Err(RunError::Io(text)),
            Stop::MissingRequired => Err(RunError::MissingRequired),
            Stop::SigningStopped => Err(RunError::SigningStopped { error: text, restore_errors: errors }),
            Stop::StagingNotRestored => Err(RunError::StagingNotRestored { restore_errors: errors }),
            Stop::Changed(s) => Err(RunError::Changed(s)),
            Stop::CannotVerify { slot, comparing } => Err(
                RunError::CannotVerify { slot, comparing, error: text },
            ),
            Stop::CommitFailed => Err(RunError::CommitFailed { error: text, rollback_errors: errors }),
        }
    }
}

// ---------------------------------------------------------------------------
// What the user is told
// ---------------------------------------------------------------------------

/// A message followed by one line for each error met while restoring files.
pub open spec fn with_errors(message: Seq<char>, errors: Seq<Seq<char>>) -> Seq<char>
    decreases errors.len(),
{
    if errors.len() == 0 {
        message
    } else {
        with_errors(message, errors.drop_last()) + "\n恢复错误："@ + errors.last()
    }
}

pub open spec fn texts_of(v: Seq<String>) -> Seq<Seq<char>> {
    v.map_values(|e: String| e@)
}

/// Adds the errors met while restoring files to a message, one per line.
pub fn append_errors(message: String, errors: &Vec<String>) -> (r: String)
    ensures
        r@ == with_errors(message@, texts_of(errors@)),
{
    let mut r = message;
    let mut k: usize = 0;
    while k < errors.len()
        invariant
            k <= errors.len(),
            r@ == with_errors(message@, texts_of(errors@.subrange(0, k as int))),
        decreases errors.len() - k,
    {
        assert(texts_of(errors@.subrange(0, k + 1)).drop_last() =~= texts_of(
            errors@.subrange(0, k as int),
        ));
        r.append("\n恢复错误：");
        r.append(errors[k].as_str());
        k = k + 1;
    }
    assert(errors@.subrange(0, errors.len() as int) =~= errors@);
    r
}

/// The local save that a slot names: `system` or `character` (the paths as
/// shown to the user).
pub open spec fn slot_text(s: Slot, system: Seq<char>, character: Seq<char>) -> Seq<char> {
    if s == Slot::LocalCharacter {
        character
    } else {
        system
    }
}

pub open spec fn changed_text(path: Seq<char>) -> Seq<char> {
    "改签期间本地存档已被其他程序更改，已停止写回并保留其最新内容："@ + path
}

/// What the user is told when a run ends without success; every message but
/// the lock's ends with the backup directory.
pub open spec fn run_error_text(
    e: RunError,
    system: Seq<char>,
    character: Seq<char>,
    backup_dir: Seq<char>,
) -> Seq<char> {
    let tail = "\n本次备份目录："@ + backup_dir;
    match e {
        RunError::Lock(m) => m@,
        RunError::Io(m) => m@ + tail,
        RunError::MissingRequired => "备份前发现文件已不存在："@ + system + tail,
        RunError::SigningStopped { error, restore_errors } => with_errors(
            "改签已停止，本地存档尚未写入："@ + error@,
            texts_of(restore_errors@),
        ) + tail,
        RunError::StagingNotRestored { restore_errors } => with_errors(
            "工具暂存文件恢复失败，本地存档尚未写入。"@,
            texts_of(restore_errors@),
        ) + tail,
        RunError::Changed(s) => changed_text(slot_text(s, system, character)) + tail,
        RunError::CannotVerify { slot, comparing, error } => if comparing {
            "无法核对本地存档，已停止写回："@ + slot_text(slot, system, character) + "："@ + error@
                + tail
        } else {
            "无法核对本地存档，已停止写回："@ + error@ + tail
        },
        RunError::CommitFailed { error, rollback_errors } => with_errors(
            "写回存档失败："@ + error@ + "\n"@ + if rollback_errors@.len() == 0 {
                "原始本地存档已恢复。"@
            } else {
                "部分原始本地存档未能恢复，请从备份目录恢复。"@
            },
            texts_of(rollback_errors@),
        ) + tail,
    }
}

impl RunError {
    /// The message shown for a failed run, given the paths of the account's
    /// system and character saves and of the backup directory.
    pub fn message(&self, system: &str, character: &str, backup_dir: &str) -> (m: String)
        ensures
            m@ == run_error_text(*self, system@, character@, backup_dir@),
    {
        let slot_path = |s: Slot| -> (r: &str)
            ensures
                r@ == slot_text(s, system@, character@),
            {
                if s == Slot::LocalCharacter {
                    character
                } else {
                    system
                }
            };
        let body = match self {
            RunError::Lock(m) => {
                return m.clone();
            },
            RunError::Io(m) => m.clone(),
            RunError::MissingRequired => String::from_str("备份前发现文件已不存在：").concat(
                system,
            ),
            RunError::SigningStopped { error, restore_errors } => append_errors(
                String::from_str("改签已停止，本地存档尚未写入：").concat(error.as_str()),
                restore_errors,
            ),
            RunError::StagingNotRestored { restore_errors } => append_errors(
                String::from_str("工具暂存文件恢复失败，本地存档尚未写入。"),
                restore_errors,
            ),
            RunError::Changed(s) => String::from_str(
                "改签期间本地存档已被其他程序更改，已停止写回并保留其最新内容：",
            ).concat(slot_path(*s)),
            RunError::CannotVerify { slot, comparing, error } => if *comparing {
                String::from_str("无法核对本地存档，已停止写回：").concat(slot_path(*slot)).concat(
                    "：",
                ).concat(error.as_str())
            } else {
                String::from_str("无法核对本地存档，已停止写回：").concat(error.as_str())
            },
            RunError::CommitFailed { error, rollback_errors } => {
                let status = if rollback_errors.len() == 0 {
                    "原始本地存档已恢复。"
                } else {
                    "部分原始本地存档未能恢复，请从备份目录恢复。"
                };
                append_errors(
                    String::from_str("写回存档失败：").concat(error.as_str()).concat("\n").concat(
                        status,
                    ),
                    rollback_errors,
                )
            },
        };
        body.concat("\n本次备份目录：").concat(backup_dir)
    }
}

} // verus!
