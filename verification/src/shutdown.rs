//! Closing Steam before the saves are touched: ask it to exit once, watch
//! it for a while, then leave it to the user. The program looks at the
//! process list, sends the request and waits; the decisions are made here.

use vstd::prelude::*;

verus! {

/// How many times Steam is looked for, with a pause after each, once it was
/// asked to exit.
pub const POLLS: u8 = 10;

/// Where closing Steam stands.
#[derive(Debug, Clone, Copy, PartialEq, Eq, Structural)]
pub enum Wait {
    /// Is Steam running at all?
    First,
    /// Steam runs: ask it to exit.
    Request,
    /// The n-th look after the request.
    Poll(u8),
    /// The pause after the n-th look.
    Pause(u8),
    /// Steam outlived the pauses: look again.
    Holdout,
    /// Steam still runs: ask the user to quit it.
    Ask,
    /// Steam is gone (`true`), or the user gave up (`false`).
    Done(bool),
    /// Looking at the process list failed; the message is kept.
    Failed,
}

/// What the program has to do next.
#[derive(Debug, Clone, Copy, PartialEq, Eq, Structural)]
pub enum Shutdown {
    /// Is Steam running? (`Ok(running)`)
    CheckRunning,
    /// Ask Steam to exit; how this went is not looked at.
    RequestExit,
    /// Wait a moment.
    Pause,
    /// Tell the user that Steam still runs: retry once it was quit?
    AskRetry,
    /// Done.
    Finish,
}

pub open spec fn next(w: Wait, r: Option<bool>) -> Wait {
    match w {
        Wait::First => match r {
            None => Wait::Failed,
            Some(true) => Wait::Request,
            Some(false) => Wait::Done(true),
        },
        Wait::Request => Wait::Poll(0),
        Wait::Poll(k) => match r {
            None => Wait::Failed,
            Some(true) => Wait::Pause(k),
            Some(false) => Wait::Done(true),
        },
        Wait::Pause(k) => if k + 1 < POLLS {
            Wait::Poll((k + 1) as u8)
        } else {
            Wait::Holdout
        },
        Wait::Holdout => match r {
            None => Wait::Failed,
            Some(true) => Wait::Ask,
            Some(false) => Wait::Done(true),
        },
        Wait::Ask => match r {
            None => Wait::Failed,
            Some(true) => Wait::Holdout,
            Some(false) => Wait::Done(false),
        },
        Wait::Done(b) => Wait::Done(b),
        Wait::Failed => Wait::Failed,
    }
}

pub open spec fn action_of(w: Wait) -> Shutdown {
    match w {
        Wait::First | Wait::Poll(_) | Wait::Holdout => Shutdown::CheckRunning,
        Wait::Request => Shutdown::RequestExit,
        Wait::Pause(_) => Shutdown::Pause,
        Wait::Ask => Shutdown::AskRetry,
        Wait::Done(_) | Wait::Failed => Shutdown::Finish,
    }
}

/// One performed action: the state that asked for it and its report.
#[derive(Debug, Clone, Copy, PartialEq, Eq, Structural)]
pub struct Look {
    pub wait: Wait,
    pub answer: Option<bool>,
}

pub open spec fn looks_for_steam(w: Wait) -> bool {
    action_of(w) == Shutdown::CheckRunning
}

/// What closing Steam has done by the time it reaches `w`.
pub open spec fn inv(w: Wait, h: Seq<Look>) -> bool {
    &&& w matches Wait::Poll(k) ==> k < POLLS
    &&& w matches Wait::Pause(k) ==> k < POLLS
    &&& w == Wait::First <==> h.len() == 0
    &&& w == Wait::Request ==> h == seq![Look { wait: Wait::First, answer: Some(true) }]
    &&& w != Wait::First && w != Wait::Request && h.len() > 0 && h[0] == Look {
        wait: Wait::First,
        answer: Some(true),
    } ==> h.len() >= 2 && h[1].wait == Wait::Request
    &&& forall|i: int|
        0 <= i < h.len() && #[trigger] h[i].wait == Wait::Request ==> i == 1 && h[0] == Look {
            wait: Wait::First,
            answer: Some(true),
        }
    &&& w == Wait::Done(true) ==> looks_for_steam(h.last().wait) && h.last().answer == Some(false)
    &&& w == Wait::Done(false) ==> h.last() == Look { wait: Wait::Ask, answer: Some(false) }
    &&& w == Wait::Failed ==> h.last().answer is None
}

proof fn lemma_step(w: Wait, h: Seq<Look>, r: Option<bool>)
    requires
        inv(w, h),
        !(w is Done) && w != Wait::Failed,
    ensures
        inv(next(w, r), h.push(Look { wait: w, answer: r })),
{
    let x = Look { wait: w, answer: r };
    let h2 = h.push(x);
    assert(h2.last() == x);
    if h.len() > 0 {
        assert(h2[0] == h[0]);
    }
    assert forall|i: int| 0 <= i < h2.len() && #[trigger] h2[i].wait == Wait::Request implies i == 1
        && h2[0] == (Look { wait: Wait::First, answer: Some(true) }) by {
        if i < h.len() {
            assert(h2[i] == h[i]);
        } else if w == Wait::Request {
            assert(h.len() == 1);
        }
    }
    if h.len() > 1 {
        assert(h2[1] == h[1]);
    }
    if w == Wait::First {
        assert(h2 =~= seq![x]);
    }
}

/// Steam counts as closed only when the last look found it gone; closing
/// gives up only when the user declined to quit it; Steam is asked to exit
/// at most once, right after the first look found it running; it is looked
/// for at most `POLLS` times between the request and the first question.
pub proof fn law_closed_only_when_gone(c: Closer)
    requires
        c.wf(),
    ensures
        c.wait() == Wait::Done(true) ==> looks_for_steam(c.history().last().wait)
            && c.history().last().answer == Some(false),
        c.wait() == Wait::Done(false) ==> c.history().last() == (Look {
            wait: Wait::Ask,
            answer: Some(false),
        }),
        forall|i: int|
            0 <= i < c.history().len() && #[trigger] c.history()[i].wait == Wait::Request ==> i
                == 1 && c.history()[0] == (Look { wait: Wait::First, answer: Some(true) }),
        c.wait() matches Wait::Poll(k) ==> k < POLLS,
{
}

/// Closing Steam.
pub struct Closer {
    wait: Wait,
    message: Option<String>,
    history: Ghost<Seq<Look>>,
}

fn next_exec(w: Wait, r: Option<bool>) -> (n: Wait)
    ensures
        n == next(w, r),
{
    match w {
        Wait::First => match r {
            None => Wait::Failed,
            Some(true) => Wait::Request,
            Some(false) => Wait::Done(true),
        },
        Wait::Request => Wait::Poll(0),
        Wait::Poll(k) => match r {
            None => Wait::Failed,
            Some(true) => Wait::Pause(k),
            Some(false) => Wait::Done(true),
        },
        Wait::Pause(k) => if k < POLLS - 1 {
            Wait::Poll(k + 1)
        } else {
            Wait::Holdout
        },
        Wait::Holdout => match r {
            None => Wait::Failed,
            Some(true) => Wait::Ask,
            Some(false) => Wait::Done(true),
        },
        Wait::Ask => match r {
            None => Wait::Failed,
            Some(true) => Wait::Holdout,
            Some(false) => Wait::Done(false),
        },
        Wait::Done(b) => Wait::Done(b),
        Wait::Failed => Wait::Failed,
    }
}

impl Closer {
    pub closed spec fn wait(&self) -> Wait {
        self.wait
    }

    /// Every action performed so far, with its report.
    pub closed spec fn history(&self) -> Seq<Look> {
        self.history@
    }

    /// The message of the failed look.
    pub closed spec fn message(&self) -> Option<Seq<char>> {
        match self.message {
            Some(m) => Some(m@),
            None => None,
        }
    }

    pub closed spec fn wf(&self) -> bool {
        &&& inv(self.wait, self.history@)
        &&& self.wait == Wait::Failed ==> self.message is Some
    }

    /// Nothing done yet: the first action looks for Steam.
    pub fn new() -> (c: Closer)
        ensures
            c.wf(),
            c.wait() == Wait::First,
            c.history() == Seq::<Look>::empty(),
    {
        Closer { wait: Wait::First, message: None, history: Ghost(Seq::empty()) }
    }

    /// The action asked for now.
    pub fn action(&self) -> (a: Shutdown)
        requires
            self.wf(),
        ensures
            a == action_of(self.wait()),
            a == Shutdown::RequestExit ==> self.history() == seq![
                Look { wait: Wait::First, answer: Some(true) },
            ],
    {
        match self.wait {
            Wait::First | Wait::Poll(_) | Wait::Holdout => Shutdown::CheckRunning,
            Wait::Request => Shutdown::RequestExit,
            Wait::Pause(_) => Shutdown::Pause,
            Wait::Ask => Shutdown::AskRetry,
            Wait::Done(_) | Wait::Failed => Shutdown::Finish,
        }
    }

    /// Reports how the action went: `Ok(flag)` (Steam runs; the user will
    /// retry) or `Err(message)`.
    pub fn advance(&mut self, report: Result<bool, String>)
        requires
            old(self).wf(),
            !(old(self).wait() is Done),
            old(self).wait() != Wait::Failed,
        ensures
            final(self).wf(),
            final(self).wait() == next(
                old(self).wait(),
                match report {
                    Ok(b) => Some(b),
                    Err(_) => None,
                },
            ),
            final(self).history() == old(self).history().push(
                Look {
                    wait: old(self).wait(),
                    answer: match report {
                        Ok(b) => Some(b),
                        Err(_) => None,
                    },
                },
            ),
            match report {
                Err(m) => final(self).message() == Some(m@),
                Ok(_) => final(self).message() == old(self).message(),
            },
    {
        let r = match &report {
            Ok(b) => Some(*b),
            Err(_) => None,
        };
        let w = self.wait;
        proof {
            lemma_step(w, self.history@, r);
        }
        match report {
            Err(m) => {
                self.message = Some(m);
            },
            Ok(_) => {},
        }
        self.wait = next_exec(w, r);
        self.history = Ghost(self.history@.push(Look { wait: w, answer: r }));
    }

    /// `Ok(true)`: Steam is closed; `Ok(false)`: the user gave up; `Err`:
    /// the process list could not be read.
    pub fn finish(self) -> (r: Result<bool, String>)
        requires
            self.wf(),
            self.wait() is Done || self.wait() == Wait::Failed,
        ensures
            match self.wait() {
                Wait::Done(b) => r == Ok::<bool, String>(b),
                _ => r matches Err(m) && self.message() == Some(m@),
            },
    {
        match self.wait {
            Wait::Done(b) => Ok(b),
            _ => match self.message {
                Some(m) => Err(m),
                None => Err(String::new()),
            },
        }
    }
}

} // verus!
