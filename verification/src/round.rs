//! One signing round as the user sees it: Steam must stay closed, the signer
//! must exit cleanly and the user must confirm that it reported success. The
//! program runs the signer and asks; the decisions are made here.

use vstd::prelude::*;

verus! {

/// Where a round stands.
#[derive(Debug, Clone, Copy, PartialEq, Eq, Structural)]
pub enum Turn {
    SteamBefore,
    Signer,
    Confirm,
    SteamAfter,
    Ended(Verdict),
}

/// How a round ended.
#[derive(Debug, Clone, Copy, PartialEq, Eq, Structural)]
pub enum Verdict {
    /// Every check passed: the round is signed.
    Signed,
    /// Steam was running before the signer started.
    SteamBefore,
    /// The signer exited with a failure status.
    SignerFailed,
    /// The user did not confirm that the signer reported success.
    NotConfirmed,
    /// Steam was running after the signer.
    SteamAfter,
    /// An action failed; its message is kept.
    Failed,
}

/// What the program has to do next.
#[derive(Debug, Clone, Copy, PartialEq, Eq, Structural)]
pub enum Check {
    /// Is Steam running? (`Ok(running)`)
    SteamRunning,
    /// Run the signer with its output shown: did it exit successfully?
    RunSigner,
    /// Did the signer say that the signature was rewritten? (`Ok(yes)`)
    AskSigned,
    /// The round is over.
    Finish,
}

pub open spec fn next(t: Turn, r: Option<bool>) -> Turn {
    match r {
        None => match t {
            Turn::Ended(v) => Turn::Ended(v),
            _ => Turn::Ended(Verdict::Failed),
        },
        Some(b) => match t {
            Turn::SteamBefore => if b {
                Turn::Ended(Verdict::SteamBefore)
            } else {
                Turn::Signer
            },
            Turn::Signer => if b {
                Turn::Confirm
            } else {
                Turn::Ended(Verdict::SignerFailed)
            },
            Turn::Confirm => if b {
                Turn::SteamAfter
            } else {
                Turn::Ended(Verdict::NotConfirmed)
            },
            Turn::SteamAfter => if b {
                Turn::Ended(Verdict::SteamAfter)
            } else {
                Turn::Ended(Verdict::Signed)
            },
            Turn::Ended(v) => Turn::Ended(v),
        },
    }
}

pub open spec fn check_of(t: Turn) -> Check {
    match t {
        Turn::SteamBefore | Turn::SteamAfter => Check::SteamRunning,
        Turn::Signer => Check::RunSigner,
        Turn::Confirm => Check::AskSigned,
        Turn::Ended(_) => Check::Finish,
    }
}

/// The reports of a round that is accepted, in order: Steam not running,
/// the signer exited successfully, the user confirmed, Steam not running.
pub open spec fn accepted() -> Seq<Option<bool>> {
    seq![Some(false), Some(true), Some(true), Some(false)]
}

pub open spec fn turn_index(t: Turn) -> int {
    match t {
        Turn::SteamBefore => 0,
        Turn::Signer => 1,
        Turn::Confirm => 2,
        Turn::SteamAfter => 3,
        Turn::Ended(_) => 4,
    }
}

/// What a round has seen by the time it reaches `t`: the reports so far
/// are those of an accepted round, up to the last one.
pub open spec fn inv(t: Turn, h: Seq<Option<bool>>) -> bool {
    &&& !(t is Ended) ==> h == accepted().subrange(0, turn_index(t))
    &&& t == Turn::Ended(Verdict::Signed) ==> h == accepted()
    &&& t == Turn::Ended(Verdict::Failed) ==> h.len() > 0 && h.last() is None
}

/// A round counts as signed only when Steam was found closed before the
/// signer ran, the signer exited successfully, the user confirmed that it
/// reported success, and Steam was found closed afterwards, in this order.
pub proof fn law_signed_only_when_every_check_passed(r: SigningRound)
    requires
        r.wf(),
        r.turn() == Turn::Ended(Verdict::Signed),
    ensures
        r.reports() == accepted(),
{
}

/// One signing round.
pub struct SigningRound {
    turn: Turn,
    message: Option<String>,
    reports: Ghost<Seq<Option<bool>>>,
}

pub open spec fn steam_before_message() -> Seq<char> {
    "检测到 Steam 又已启动，请退出后重新操作。"@
}

pub open spec fn signer_failed_message(status: Seq<char>) -> Seq<char> {
    "改签工具异常退出（"@ + status + "），未写回本地存档。"@
}

pub open spec fn not_confirmed_message() -> Seq<char> {
    "本轮改签未确认成功，已取消写回本地存档。"@
}

pub open spec fn steam_after_message() -> Seq<char> {
    "检测到 Steam 已启动，已取消写回本地存档。"@
}

fn next_exec(t: Turn, r: Option<bool>) -> (n: Turn)
    ensures
        n == next(t, r),
{
    match r {
        None => match t {
            Turn::Ended(v) => Turn::Ended(v),
            _ => Turn::Ended(Verdict::Failed),
        },
        Some(b) => match t {
            Turn::SteamBefore => if b {
                Turn::Ended(Verdict::SteamBefore)
            } else {
                Turn::Signer
            },
            Turn::Signer => if b {
                Turn::Confirm
            } else {
                Turn::Ended(Verdict::SignerFailed)
            },
            Turn::Confirm => if b {
                Turn::SteamAfter
            } else {
                Turn::Ended(Verdict::NotConfirmed)
            },
            Turn::SteamAfter => if b {
                Turn::Ended(Verdict::SteamAfter)
            } else {
                Turn::Ended(Verdict::Signed)
            },
            Turn::Ended(v) => Turn::Ended(v),
        },
    }
}

impl SigningRound {
    pub closed spec fn turn(&self) -> Turn {
        self.turn
    }

    /// The reports so far, in order (`None` for a failed action).
    pub closed spec fn reports(&self) -> Seq<Option<bool>> {
        self.reports@
    }

    pub closed spec fn message(&self) -> Option<Seq<char>> {
        match self.message {
            Some(m) => Some(m@),
            None => None,
        }
    }

    pub closed spec fn wf(&self) -> bool {
        &&& inv(self.turn, self.reports@)
        &&& self.turn == Turn::Ended(Verdict::Failed) ==> self.message is Some
    }

    /// A round that has checked nothing yet: first, Steam must be closed.
    pub fn new() -> (r: SigningRound)
        ensures
            r.wf(),
            r.turn() == Turn::SteamBefore,
            r.reports() == Seq::<Option<bool>>::empty(),
    {
        let r = SigningRound {
            turn: Turn::SteamBefore,
            message: None,
            reports: Ghost(Seq::empty()),
        };
        assert(accepted().subrange(0, 0) =~= Seq::<Option<bool>>::empty());
        r
    }

    /// The check asked for now.
    pub fn check(&self) -> (c: Check)
        requires
            self.wf(),
        ensures
            c == check_of(self.turn()),
    {
        match self.turn {
            Turn::SteamBefore | Turn::SteamAfter => Check::SteamRunning,
            Turn::Signer => Check::RunSigner,
            Turn::Confirm => Check::AskSigned,
            Turn::Ended(_) => Check::Finish,
        }
    }

    /// Reports how the check went: `Ok(flag)` answers it, `Err(message)`
    /// means it could not be made.
    pub fn advance(&mut self, report: Result<bool, String>)
        requires
            old(self).wf(),
            !(old(self).turn() is Ended),
        ensures
            final(self).wf(),
            final(self).turn() == next(
                old(self).turn(),
                match report {
                    Ok(b) => Some(b),
                    Err(_) => None,
                },
            ),
            final(self).reports() == old(self).reports().push(
                match report {
                    Ok(b) => Some(b),
                    Err(_) => None,
                },
            ),
            match report {
                Err(m) => final(self).message() == Some(m@),
                Ok(_) => final(self).message() == old(self).message(),
            },
    {
        let r = match &report {
            Ok(b) => Some(*b),
            Err(_) => None,
        };
        let t = self.turn;
        let ghost h = self.reports@;
        proof {
            let h2 = h.push(r);
            let n = next(t, r);
            if !(n is Ended) || n == Turn::Ended(Verdict::Signed) {
                assert(h2 =~= accepted().subrange(0, turn_index(t) + 1));
            }
            if n == Turn::Ended(Verdict::Signed) {
                assert(accepted().subrange(0, 4) =~= accepted());
            }
        }
        match report {
            Err(m) => {
                self.message = Some(m);
            },
            Ok(_) => {},
        }
        self.turn = next_exec(t, r);
        self.reports = Ghost(h.push(r));
    }

    /// `Ok(())` for a signed round, else the message of why it was not
    /// (`status` describes how the signer exited).
    pub fn finish(self, status: &str) -> (r: Result<(), String>)
        requires
            self.wf(),
            self.turn() is Ended,
        ensures
            match self.turn() {
                Turn::Ended(Verdict::Signed) => r is Ok,
                Turn::Ended(Verdict::SteamBefore) => r matches Err(m) && m@
                    == steam_before_message(),
                Turn::Ended(Verdict::SignerFailed) => r matches Err(m) && m@
                    == signer_failed_message(status@),
                Turn::Ended(Verdict::NotConfirmed) => r matches Err(m) && m@
                    == not_confirmed_message(),
                Turn::Ended(Verdict::SteamAfter) => r matches Err(m) && m@
                    == steam_after_message(),
                Turn::Ended(Verdict::Failed) => r matches Err(m) && self.message() == Some(m@),
                _ => false,
            },
    {
        match self.turn {
            Turn::Ended(Verdict::Signed) => Ok(()),
            Turn::Ended(Verdict::SteamBefore) => Err(
                String::from_str("检测到 Steam 又已启动，请退出后重新操作。"),
            ),
            Turn::Ended(Verdict::SignerFailed) => Err(
                String::from_str("改签工具异常退出（").concat(status).concat("），未写回本地存档。"),
            ),
            Turn::Ended(Verdict::NotConfirmed) => Err(
                String::from_str("本轮改签未确认成功，已取消写回本地存档。"),
            ),
            Turn::Ended(Verdict::SteamAfter) => Err(
                String::from_str("检测到 Steam 已启动，已取消写回本地存档。"),
            ),
            _ => match self.message {
                Some(m) => Err(m),
                None => Err(String::new()),
            },
        }
    }
}

} // verus!
