//! The interactive session: its modes, its append-only history, and
//! the step function that classifies each submitted line and decides
//! the effect the surrounding loop must carry out.

use vstd::prelude::*;

use crate::catalog::{names_of, names_view};
use crate::command::{
    classify, dispatch_arg, dispatch_zero, needs_argument, spec_classify, spec_invocation0,
    spec_invocation1, Command, Invocation, SpecInvocation, Token,
};
use crate::text::{trim, trim_spec};

verus! {

/// Where the session stands: waiting for a command line, waiting for
/// the argument a command asked for, or done.
#[derive(Clone, Copy, PartialEq, Eq, Structural, Debug)]
pub enum Mode {
    Reading,
    AwaitingArg(Command),
    Terminated,
}

/// What the surrounding loop must do after one submitted line.
#[derive(PartialEq, Eq, Debug)]
pub enum Effect {
    /// Nothing: an empty line, or an aborted secondary prompt.
    Silent,
    /// Run this external invocation, then keep reading.
    Invoke(Invocation),
    /// Show the command summary.
    ShowHelp,
    /// Tell the user the input was not a command.
    NoticeUnknown,
    /// Ask for the argument of this command, with completion.
    PromptArg(Command),
    /// Stop the session.
    Quit,
}

/// The mathematical shape of an [`Effect`].
pub enum SpecEffect {
    Silent,
    Invoke(SpecInvocation),
    ShowHelp,
    NoticeUnknown,
    PromptArg(Command),
    Quit,
}

impl View for Effect {
    type V = SpecEffect;

    open spec fn view(&self) -> SpecEffect {
        match self {
            Effect::Silent => SpecEffect::Silent,
            Effect::Invoke(inv) => SpecEffect::Invoke(inv@),
            Effect::ShowHelp => SpecEffect::ShowHelp,
            Effect::NoticeUnknown => SpecEffect::NoticeUnknown,
            Effect::PromptArg(cmd) => SpecEffect::PromptArg(*cmd),
            Effect::Quit => SpecEffect::Quit,
        }
    }
}

/// The mode a submitted line moves the session to.
pub open spec fn spec_next_mode(m: Mode, line: Seq<u8>) -> Mode {
    match m {
        Mode::Reading => match spec_classify(trim_spec(line)) {
            Token::Empty => Mode::Reading,
            Token::Unknown => Mode::Reading,
            Token::Cmd(c) => {
                if c is Quit {
                    Mode::Terminated
                } else if needs_argument(c) {
                    Mode::AwaitingArg(c)
                } else {
                    Mode::Reading
                }
            },
        },
        Mode::AwaitingArg(_) => Mode::Reading,
        Mode::Terminated => Mode::Terminated,
    }
}

/// The effect a submitted line produces.
pub open spec fn spec_effect(m: Mode, line: Seq<u8>) -> SpecEffect {
    match m {
        Mode::Reading => match spec_classify(trim_spec(line)) {
            Token::Empty => SpecEffect::Silent,
            Token::Unknown => SpecEffect::NoticeUnknown,
            Token::Cmd(c) => {
                if c is Quit {
                    SpecEffect::Quit
                } else if c is Help {
                    SpecEffect::ShowHelp
                } else if needs_argument(c) {
                    SpecEffect::PromptArg(c)
                } else {
                    SpecEffect::Invoke(spec_invocation0(c))
                }
            },
        },
        Mode::AwaitingArg(c) => {
            if trim_spec(line).len() == 0 {
                SpecEffect::Silent
            } else {
                SpecEffect::Invoke(spec_invocation1(c, trim_spec(line)))
            }
        },
        Mode::Terminated => SpecEffect::Silent,
    }
}

/// The interactive session: the command history, append-only, and the
/// current mode. The catalog is held beside it, read-only.
pub struct Session {
    pub history: Vec<Vec<u8>>,
    pub mode: Mode,
}

impl Session {
    /// A session only ever awaits the argument of a command that takes
    /// one.
    pub open spec fn wf(self) -> bool {
        self.mode matches Mode::AwaitingArg(c) ==> needs_argument(c)
    }

    /// A fresh session: no history, reading commands.
    pub fn new() -> (s: Session)
        ensures
            s.wf(),
            s.mode is Reading,
            names_view(s.history) == Seq::<Seq<u8>>::empty(),
    {
        let s = Session { history: Vec::new(), mode: Mode::Reading };
        proof {
            assert(names_view(s.history) =~= Seq::<Seq<u8>>::empty());
        }
        s
    }

    /// Submit one line: it is appended to the history exactly once,
    /// before classification, and the session answers with the effect
    /// the loop must carry out.
    pub fn submit_line(&mut self, line: Vec<u8>) -> (eff: Effect)
        requires
            old(self).wf(),
            !(old(self).mode is Terminated),
        ensures
            final(self).wf(),
            names_view(final(self).history) == names_view(old(self).history).push(line@),
            final(self).mode == spec_next_mode(old(self).mode, line@),
            eff@ == spec_effect(old(self).mode, line@),
    {
        let t = trim(&line);
        let ghost h0 = self.history@;
        let ghost lv = line@;
        self.history.push(line);
        proof {
            assert forall|k: int| 0 <= k < names_view(self.history).len() implies names_view(
                self.history,
            )[k] == names_of(h0).push(lv)[k] by {
                if k < h0.len() {
                    assert(self.history@[k] == h0[k]);
                } else {
                    assert(self.history@[k]@ == lv);
                }
            }
            assert(names_view(self.history) =~= names_of(h0).push(lv));
        }
        let m = self.mode;
        match m {
            Mode::Reading => {
                let tok = classify(&t);
                match tok {
                    Token::Empty => Effect::Silent,
                    Token::Unknown => Effect::NoticeUnknown,
                    Token::Cmd(c) => match c {
                        Command::Quit => {
                            self.mode = Mode::Terminated;
                            Effect::Quit
                        },
                        Command::Help => Effect::ShowHelp,
                        Command::Update | Command::Clean | Command::Orphans => Effect::Invoke(
                            dispatch_zero(c),
                        ),
                        _ => {
                            self.mode = Mode::AwaitingArg(c);
                            Effect::PromptArg(c)
                        },
                    },
                }
            },
            Mode::AwaitingArg(c) => {
                self.mode = Mode::Reading;
                if t.len() == 0 {
                    Effect::Silent
                } else {
                    Effect::Invoke(dispatch_arg(c, t))
                }
            },
            // A terminated session takes no further lines; the
            // precondition rules this out.
            Mode::Terminated => {
                proof {
                    assert(false);
                }
                Effect::Silent
            },
        }
    }

    /// End of input or an interrupt: the session is over; the history
    /// keeps what was submitted.
    pub fn end_input(&mut self)
        requires
            old(self).wf(),
        ensures
            final(self).wf(),
            final(self).mode is Terminated,
            final(self).history == old(self).history,
    {
        self.mode = Mode::Terminated;
    }
}

} // verus!
