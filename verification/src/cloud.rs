//! Switching the game's cloud saves off in the chosen account's Steam
//! configuration without risking the file: read it, edit it in memory (see
//! [`crate::steam::update_cloud`]), keep the original in the backup
//! directory, write the edit beside the file, and replace the file only if
//! nothing changed it in the meantime. The program does the file work; the
//! order and every decision are made here.

use vstd::prelude::*;
use vstd::string::{StrSliceExecFns, StringSliceAdditionalSpecFns};
use vstd::utf8::{encode_utf8, valid_utf8};
use crate::steam::{apply_edit, cloud_edit, update_cloud};
use crate::text::utf8_text;
use crate::vdf::VdfError;

verus! {

/// Where switching cloud saves off stands.
#[derive(Debug, Clone, Copy, PartialEq, Eq, Structural)]
pub enum Stage {
    Read,
    Backup,
    Create,
    Fill,
    Reread,
    Replace,
    Cleanup,
    Ended(Outcome),
}

/// How it ended.
#[derive(Debug, Clone, Copy, PartialEq, Eq, Structural)]
pub enum Outcome {
    /// The configuration was replaced by its edit.
    Replaced,
    /// Cloud saves were already off; the file was backed up and left as it is.
    AlreadyOff,
    /// The text cannot be edited safely; nothing was written.
    Refused,
    /// A step failed; its message is kept.
    Failed,
}

/// What the program has to do next.
#[derive(Debug, Clone, Copy, PartialEq, Eq, Structural)]
pub enum Task {
    /// Read the configuration file (report with [`CloudFix::read`]).
    ReadConfig,
    /// Save [`CloudFix::original`] as the backup; never overwrite one.
    SaveBackup,
    /// Create a new temporary file beside the configuration.
    CreateTemporary,
    /// Write [`CloudFix::updated`] into the temporary file and flush it.
    FillTemporary,
    /// Read the configuration again (report with [`CloudFix::reread`]).
    RereadConfig,
    /// Rename the temporary file over the configuration.
    ReplaceConfig,
    /// Remove the temporary file; how this goes is not looked at.
    RemoveTemporary,
    /// Done.
    Finish,
}

/// One performed task: its stage, whether it succeeded and, for a read,
/// the bytes read.
pub struct Seen {
    pub stage: Stage,
    pub ok: bool,
    pub bytes: Seq<u8>,
}

/// Why cloud saves could not be switched off.
#[derive(Debug)]
pub enum CloudError {
    /// The configuration cannot be edited safely.
    Refused(VdfError),
    /// A step failed, with its message.
    Failed(String),
}

/// The configuration with cloud saves switched off, when its text can be
/// edited safely.
pub open spec fn edited(original: Seq<u8>, app: Seq<u8>) -> Option<Seq<u8>> {
    if !valid_utf8(original) {
        None
    } else {
        match cloud_edit(original, app) {
            Ok(e) => Some(apply_edit(original, e)),
            Err(_) => None,
        }
    }
}

pub open spec fn seen(stage: Stage) -> Seen {
    Seen { stage, ok: true, bytes: Seq::empty() }
}

/// The tasks of a replacement that went well, up to the rename: the file
/// read, backed up, the temporary file created and filled, and the file
/// read again, unchanged.
pub open spec fn course(original: Seq<u8>) -> Seq<Seen> {
    seq![
        Seen { stage: Stage::Read, ok: true, bytes: original },
        seen(Stage::Backup),
        seen(Stage::Create),
        seen(Stage::Fill),
        Seen { stage: Stage::Reread, ok: true, bytes: original },
    ]
}

pub open spec fn course_len(s: Stage) -> int {
    match s {
        Stage::Read => 0,
        Stage::Backup => 1,
        Stage::Create => 2,
        Stage::Fill => 3,
        Stage::Reread => 4,
        Stage::Replace => 5,
        _ => 0,
    }
}

/// What the run has done by the time it reaches `s`.
pub open spec fn inv(
    s: Stage,
    h: Seq<Seen>,
    original: Seq<u8>,
    updated: Seq<u8>,
    app: Seq<u8>,
) -> bool {
    &&& s != Stage::Read && s != Stage::Ended(Outcome::Failed) && s != Stage::Ended(
        Outcome::Refused,
    ) ==> edited(original, app) == Some(updated)
    &&& match s {
        Stage::Read => h.len() == 0,
        Stage::Backup | Stage::Create | Stage::Fill | Stage::Reread | Stage::Replace => {
            &&& h == course(original).subrange(0, course_len(s))
            &&& s != Stage::Backup ==> updated != original
        },
        Stage::Cleanup => h.len() >= 4 && h.subrange(0, 3) == course(original).subrange(0, 3),
        Stage::Ended(Outcome::Replaced) => h == course(original).push(seen(Stage::Replace)),
        Stage::Ended(Outcome::AlreadyOff) => h == course(original).subrange(0, 2) && updated
            == original,
        Stage::Ended(Outcome::Refused) => h == seq![
            Seen { stage: Stage::Read, ok: true, bytes: original },
        ] && edited(original, app) is None,
        Stage::Ended(Outcome::Failed) => h.len() > 0,
    }
}

/// The configuration is replaced only as the last of these steps, in this
/// order: it was read, the very bytes read were saved as the backup, the
/// edit was written to a new temporary file, and the file read again was
/// still the same bytes; what replaces it is the edit of what was read. A
/// text that cannot be edited safely leads to no write at all.
pub proof fn law_replaced_only_after_backup_and_unchanged(c: CloudFix)
    requires
        c.wf(),
    ensures
        c.stage() == Stage::Replace ==> c.history() == course(c.original_bytes())
            && edited(c.original_bytes(), c.app()) == Some(c.updated_bytes()),
        c.stage() == Stage::Ended(Outcome::Replaced) ==> c.history() == course(
            c.original_bytes(),
        ).push(seen(Stage::Replace)),
        c.stage() == Stage::Ended(Outcome::Refused) ==> c.history().len() == 1,
{
}

/// Switching cloud saves off in one configuration file.
pub struct CloudFix {
    app_id: String,
    backup_shown: String,
    stage: Stage,
    original: Vec<u8>,
    updated: String,
    pending: Option<String>,
    message: Option<String>,
    refusal: Option<VdfError>,
    history: Ghost<Seq<Seen>>,
}

fn same_bytes(a: &[u8], b: &[u8]) -> (r: bool)
    ensures
        r == (a@ == b@),
{
    if a.len() != b.len() {
        return false;
    }
    let mut i: usize = 0;
    while i < a.len()
        invariant
            a.len() == b.len(),
            i <= a.len(),
            forall|j: int| 0 <= j < i ==> a@[j] == b@[j],
        decreases a.len() - i,
    {
        if a[i] != b[i] {
            return false;
        }
        i = i + 1;
    }
    assert(a@ =~= b@);
    true
}

pub open spec fn not_utf8_message() -> Seq<char> {
    "Steam 配置不是有效的 UTF-8，未修改；请手动关闭云存档。"@
}

pub open spec fn changed_message() -> Seq<char> {
    "Steam 配置在操作期间被其他程序修改，已停止替换"@
}

pub open spec fn kept_message(error: Seq<char>, backup: Seq<char>) -> Seq<char> {
    error + "；原配置未被本程序替换，备份位于 "@ + backup
}

impl CloudFix {
    pub closed spec fn stage(&self) -> Stage {
        self.stage
    }

    pub closed spec fn history(&self) -> Seq<Seen> {
        self.history@
    }

    /// The game's application id, as bytes.
    pub closed spec fn app(&self) -> Seq<u8> {
        encode_utf8(self.app_id@)
    }

    /// The bytes read from the configuration.
    pub closed spec fn original_bytes(&self) -> Seq<u8> {
        self.original@
    }

    /// The bytes of the edited configuration.
    pub closed spec fn updated_bytes(&self) -> Seq<u8> {
        encode_utf8(self.updated@)
    }

    /// Where the backup of the configuration goes, as shown to the user.
    pub closed spec fn backup(&self) -> Seq<char> {
        self.backup_shown@
    }

    pub closed spec fn message(&self) -> Option<Seq<char>> {
        match self.message {
            Some(m) => Some(m@),
            None => None,
        }
    }

    /// The message of a failure after the temporary file was created,
    /// before the file is removed.
    pub closed spec fn pending(&self) -> Option<Seq<char>> {
        match self.pending {
            Some(m) => Some(m@),
            None => None,
        }
    }

    /// Why the text cannot be edited safely.
    pub closed spec fn refusal(&self) -> Option<crate::vdf::SpecVdfError> {
        match self.refusal {
            Some(e) => Some(e@),
            None => None,
        }
    }

    pub closed spec fn wf(&self) -> bool {
        &&& inv(
            self.stage,
            self.history@,
            self.original@,
            encode_utf8(self.updated@),
            encode_utf8(self.app_id@),
        )
        &&& self.stage == Stage::Cleanup ==> self.pending is Some
        &&& self.stage == Stage::Ended(Outcome::Failed) ==> self.message is Some
        &&& self.stage == Stage::Ended(Outcome::Refused) ==> self.refusal is Some
    }

    /// Switching off cloud saves of the game `app_id`; the backup of the
    /// configuration goes to `backup` (as shown to the user).
    pub fn new(app_id: &str, backup: &str) -> (c: CloudFix)
        ensures
            c.wf(),
            c.stage() == Stage::Read,
            c.app() == app_id.spec_bytes(),
            c.backup() == backup@,
    {
        CloudFix {
            app_id: String::from_str(app_id),
            backup_shown: String::from_str(backup),
            stage: Stage::Read,
            original: Vec::new(),
            updated: String::new(),
            pending: None,
            message: None,
            refusal: None,
            history: Ghost(Seq::empty()),
        }
    }

    /// The task asked for now.
    pub fn task(&self) -> (t: Task)
        requires
            self.wf(),
        ensures
            t == match self.stage() {
                Stage::Read => Task::ReadConfig,
                Stage::Backup => Task::SaveBackup,
                Stage::Create => Task::CreateTemporary,
                Stage::Fill => Task::FillTemporary,
                Stage::Reread => Task::RereadConfig,
                Stage::Replace => Task::ReplaceConfig,
                Stage::Cleanup => Task::RemoveTemporary,
                Stage::Ended(_) => Task::Finish,
            },
            t == Task::SaveBackup ==> self.history() == seq![
                Seen { stage: Stage::Read, ok: true, bytes: self.original_bytes() },
            ],
            t == Task::ReplaceConfig ==> self.history() == course(self.original_bytes()),
    {
        match self.stage {
            Stage::Read => Task::ReadConfig,
            Stage::Backup => Task::SaveBackup,
            Stage::Create => Task::CreateTemporary,
            Stage::Fill => Task::FillTemporary,
            Stage::Reread => Task::RereadConfig,
            Stage::Replace => Task::ReplaceConfig,
            Stage::Cleanup => Task::RemoveTemporary,
            Stage::Ended(_) => Task::Finish,
        }
    }

    /// The bytes that were read: what the backup has to hold.
    pub fn original(&self) -> (r: &[u8])
        ensures
            r@ == self.original_bytes(),
    {
        self.original.as_slice()
    }

    /// The edited configuration: what the temporary file has to hold.
    pub fn updated(&self) -> (r: &str)
        requires
            self.wf(),
        ensures
            r.spec_bytes() == self.updated_bytes(),
            !(self.stage() matches Stage::Ended(_)) && self.stage() != Stage::Read
                ==> edited(self.original_bytes(), self.app()) == Some(r.spec_bytes()),
    {
        self.updated.as_str()
    }

    /// Reports the configuration's bytes, or why they could not be read.
    pub fn read(&mut self, result: Result<Vec<u8>, String>)
        requires
            old(self).wf(),
            old(self).stage() == Stage::Read,
        ensures
            final(self).wf(),
            final(self).app() == old(self).app(),
            final(self).backup() == old(self).backup(),
            match result {
                Err(m) => final(self).stage() == Stage::Ended(Outcome::Failed) && final(self).message() == Some(m@),
                Ok(bytes) => {
                    &&& final(self).original_bytes() == bytes@
                    &&& !valid_utf8(bytes@) ==> final(self).stage() == Stage::Ended(
                        Outcome::Failed,
                    ) && final(self).message() == Some(not_utf8_message())
                    &&& valid_utf8(bytes@) && edited(bytes@, old(self).app()) is None
                        ==> final(self).stage() == Stage::Ended(Outcome::Refused) && cloud_edit(
                        bytes@,
                        old(self).app(),
                    ) == Err::<crate::steam::SpecEdit, crate::vdf::SpecVdfError>(
                        final(self).refusal()->0,
                    )
                    &&& edited(bytes@, old(self).app()) is Some ==> final(self).stage()
                        == Stage::Backup && final(self).updated_bytes() == edited(
                        bytes@,
                        old(self).app(),
                    )->0
                },
            },
    {
        match result {
            Err(m) => {
                self.message = Some(m);
                self.stage = Stage::Ended(Outcome::Failed);
                self.history = Ghost(self.history@.push(seen(Stage::Read)));
                assert(self.history@.len() > 0);
            },
            Ok(bytes) => {
                let ghost b = bytes@;
                let outcome = match utf8_text(bytes.as_slice()) {
                    None => None,
                    Some(source) => {
                        proof {
                            vstd::utf8::encode_utf8_valid_utf8(source@);
                        }
                        Some(update_cloud(source, self.app_id.as_str()))
                    },
                };
                self.original = bytes;
                self.history = Ghost(
                    self.history@.push(Seen { stage: Stage::Read, ok: true, bytes: b }),
                );
                match outcome {
                    None => {
                        self.message = Some(
                            String::from_str(
                                "Steam 配置不是有效的 UTF-8，未修改；请手动关闭云存档。",
                            ),
                        );
                        self.stage = Stage::Ended(Outcome::Failed);
                    },
                    Some(Err(e)) => {
                        self.refusal = Some(e);
                        self.stage = Stage::Ended(Outcome::Refused);
                        assert(self.history@ =~= seq![
                            Seen { stage: Stage::Read, ok: true, bytes: b },
                        ]);
                    },
                    Some(Ok(u)) => {
                        self.updated = u;
                        self.stage = Stage::Backup;
                        assert(self.history@ =~= course(b).subrange(0, 1));
                    },
                }
            },
        }
    }

    /// Reports how the task of the current stage went (saving the backup,
    /// creating or filling the temporary file, renaming it, or removing it).
    pub fn done(&mut self, result: Result<(), String>)
        requires
            old(self).wf(),
            old(self).stage() == Stage::Backup || old(self).stage() == Stage::Create || old(self).stage() == Stage::Fill || old(self).stage() == Stage::Replace || old(self).stage()
                == Stage::Cleanup,
        ensures
            final(self).wf(),
            final(self).app() == old(self).app(),
            final(self).backup() == old(self).backup(),
            final(self).original_bytes() == old(self).original_bytes(),
            final(self).updated_bytes() == old(self).updated_bytes(),
            match old(self).stage() {
                Stage::Backup => match result {
                    Ok(_) => if old(self).updated_bytes() == old(self).original_bytes() {
                        final(self).stage() == Stage::Ended(Outcome::AlreadyOff)
                    } else {
                        final(self).stage() == Stage::Create
                    },
                    Err(m) => final(self).stage() == Stage::Ended(Outcome::Failed) && final(self).message() == Some(m@),
                },
                Stage::Create => match result {
                    Ok(_) => final(self).stage() == Stage::Fill,
                    Err(m) => final(self).stage() == Stage::Ended(Outcome::Failed) && final(self).message() == Some(m@),
                },
                Stage::Fill => match result {
                    Ok(_) => final(self).stage() == Stage::Reread,
                    Err(m) => final(self).stage() == Stage::Cleanup && final(self).pending() == Some(
                        m@,
                    ),
                },
                Stage::Replace => match result {
                    Ok(_) => final(self).stage() == Stage::Ended(Outcome::Replaced),
                    Err(m) => final(self).stage() == Stage::Cleanup && final(self).pending() == Some(
                        m@,
                    ),
                },
                _ => final(self).stage() == Stage::Ended(Outcome::Failed) && final(self).message()
                    == Some(kept_message(old(self).pending()->0, old(self).backup())),
            },
    {
        let s = self.stage;
        let ghost h = self.history@;
        let ok = result.is_ok();
        let ghost x = Seen { stage: s, ok, bytes: Seq::empty() };
        match s {
            Stage::Backup => {
                match result {
                    Ok(_) => {
                        let same = same_bytes(self.updated.as_str().as_bytes_vec().as_slice(), self.original.as_slice());
                        self.stage = if same {
                            Stage::Ended(Outcome::AlreadyOff)
                        } else {
                            Stage::Create
                        };
                    },
                    Err(m) => {
                        self.message = Some(m);
                        self.stage = Stage::Ended(Outcome::Failed);
                    },
                }
            },
            Stage::Create => {
                match result {
                    Ok(_) => {
                        self.stage = Stage::Fill;
                    },
                    Err(m) => {
                        self.message = Some(m);
                        self.stage = Stage::Ended(Outcome::Failed);
                    },
                }
            },
            Stage::Fill | Stage::Replace => {
                match result {
                    Ok(_) => {
                        self.stage = if s == Stage::Fill {
                            Stage::Reread
                        } else {
                            Stage::Ended(Outcome::Replaced)
                        };
                    },
                    Err(m) => {
                        self.pending = Some(m);
                        self.stage = Stage::Cleanup;
                    },
                }
            },
            _ => {
                let error = match &self.pending {
                    Some(p) => p.clone(),
                    None => String::new(),
                };
                self.message = Some(
                    error.concat("；原配置未被本程序替换，备份位于 ").concat(
                        self.backup_shown.as_str(),
                    ),
                );
                self.stage = Stage::Ended(Outcome::Failed);
            },
        }
        self.history = Ghost(h.push(x));
        proof {
            let o = self.original@;
            if s == Stage::Backup && ok {
                assert(self.history@ =~= course(o).subrange(0, 2));
            }
            if s == Stage::Create && ok {
                assert(self.history@ =~= course(o).subrange(0, 3));
            }
            if s == Stage::Fill {
                assert(self.history@.subrange(0, 3) =~= course(o).subrange(0, 3));
                if ok {
                    assert(self.history@ =~= course(o).subrange(0, 4));
                }
            }
            if s == Stage::Replace {
                assert(self.history@.subrange(0, 3) =~= course(o).subrange(0, 3));
                if ok {
                    assert(h =~= course(o));
                    assert(self.history@ =~= course(o).push(seen(Stage::Replace)));
                }
            }
            if s == Stage::Cleanup {
                assert(self.history@.len() > 0);
            }
        }
    }

    /// Reports the configuration's bytes as read again, or why they could
    /// not be read.
    pub fn reread(&mut self, result: Result<Vec<u8>, String>)
        requires
            old(self).wf(),
            old(self).stage() == Stage::Reread,
        ensures
            final(self).wf(),
            final(self).app() == old(self).app(),
            final(self).backup() == old(self).backup(),
            final(self).original_bytes() == old(self).original_bytes(),
            final(self).updated_bytes() == old(self).updated_bytes(),
            match result {
                Ok(bytes) => if bytes@ == old(self).original_bytes() {
                    final(self).stage() == Stage::Replace
                } else {
                    final(self).stage() == Stage::Cleanup && final(self).pending() == Some(
                        changed_message(),
                    )
                },
                Err(m) => final(self).stage() == Stage::Cleanup && final(self).pending() == Some(m@),
            },
    {
        let ghost h = self.history@;
        match result {
            Ok(bytes) => {
                let ghost b = bytes@;
                if same_bytes(bytes.as_slice(), self.original.as_slice()) {
                    self.stage = Stage::Replace;
                    self.history = Ghost(h.push(Seen { stage: Stage::Reread, ok: true, bytes: b }));
                    assert(self.history@ =~= course(self.original@).subrange(0, 5));
                } else {
                    self.pending = Some(
                        String::from_str("Steam 配置在操作期间被其他程序修改，已停止替换"),
                    );
                    self.stage = Stage::Cleanup;
                    self.history = Ghost(h.push(Seen { stage: Stage::Reread, ok: true, bytes: b }));
                    assert(self.history@.subrange(0, 3) =~= course(self.original@).subrange(0, 3));
                }
            },
            Err(m) => {
                self.pending = Some(m);
                self.stage = Stage::Cleanup;
                self.history = Ghost(h.push(seen(Stage::Reread)));
                assert(self.history@.subrange(0, 3) =~= course(self.original@).subrange(0, 3));
            },
        }
    }

    /// `Ok(true)`: the configuration was replaced; `Ok(false)`: cloud saves
    /// were already off; otherwise why they could not be switched off.
    pub fn finish(self) -> (r: Result<bool, CloudError>)
        requires
            self.wf(),
            self.stage() is Ended,
        ensures
            match self.stage() {
                Stage::Ended(Outcome::Replaced) => r == Ok::<bool, CloudError>(true),
                Stage::Ended(Outcome::AlreadyOff) => r == Ok::<bool, CloudError>(false),
                Stage::Ended(Outcome::Refused) => r matches Err(CloudError::Refused(e)) && self.refusal()
                    == Some(e@),
                Stage::Ended(Outcome::Failed) => r matches Err(CloudError::Failed(m)) && self.message()
                    == Some(m@),
                _ => false,
            },
    {
        match self.stage {
            Stage::Ended(Outcome::Replaced) => Ok(true),
            Stage::Ended(Outcome::AlreadyOff) => Ok(false),
            Stage::Ended(Outcome::Refused) => match self.refusal {
                Some(e) => Err(CloudError::Refused(e)),
                None => Err(CloudError::Failed(String::new())),
            },
            _ => match self.message {
                Some(m) => Err(CloudError::Failed(m)),
                None => Err(CloudError::Failed(String::new())),
            },
        }
    }
}

} // verus!
