//! The fixed command vocabulary, classification of submitted lines,
//! and the dispatcher templates that turn a resolved command and its
//! argument into a concrete external invocation.

use vstd::prelude::*;

use crate::catalog::names_view;
use crate::text::{trim, trim_spec};

verus! {

/// Byte values of the vocabulary letters and flag characters.
pub const CH_U: u8 = 117;

pub const CH_I: u8 = 105;

pub const CH_R: u8 = 114;

pub const CH_P: u8 = 112;

pub const CH_S: u8 = 115;

pub const CH_C: u8 = 99;

pub const CH_O: u8 = 111;

pub const CH_H: u8 = 104;

pub const CH_Q: u8 = 113;

pub const CH_HYPHEN: u8 = 45;

pub const CH_UPPER_S: u8 = 83;

pub const CH_UPPER_R: u8 = 82;

pub const CH_Y: u8 = 121;

pub const CH_N: u8 = 110;

/// The closed vocabulary of single-letter commands.
#[derive(Clone, Copy, PartialEq, Eq, Structural, Debug)]
pub enum Command {
    Update,
    Install,
    Remove,
    Purge,
    Search,
    Clean,
    Orphans,
    Help,
    Quit,
}

/// What a submitted line classifies to: a known command, nothing at
/// all, or unrecognized input.
#[derive(Clone, Copy, PartialEq, Eq, Structural, Debug)]
pub enum Token {
    Empty,
    Cmd(Command),
    Unknown,
}

/// Classification of an already-trimmed line against the vocabulary.
pub open spec fn spec_classify(t: Seq<u8>) -> Token {
    if t.len() == 0 {
        Token::Empty
    } else if t.len() != 1 {
        Token::Unknown
    } else if t[0] == CH_U {
        Token::Cmd(Command::Update)
    } else if t[0] == CH_I {
        Token::Cmd(Command::Install)
    } else if t[0] == CH_R {
        Token::Cmd(Command::Remove)
    } else if t[0] == CH_P {
        Token::Cmd(Command::Purge)
    } else if t[0] == CH_S {
        Token::Cmd(Command::Search)
    } else if t[0] == CH_C {
        Token::Cmd(Command::Clean)
    } else if t[0] == CH_O {
        Token::Cmd(Command::Orphans)
    } else if t[0] == CH_H {
        Token::Cmd(Command::Help)
    } else if t[0] == CH_Q {
        Token::Cmd(Command::Quit)
    } else {
        Token::Unknown
    }
}

/// Classify an already-trimmed line.
pub fn classify(t: &Vec<u8>) -> (r: Token)
    ensures
        r == spec_classify(t@),
{
    if t.len() == 0 {
        Token::Empty
    } else if t.len() != 1 {
        Token::Unknown
    } else {
        let c = t[0];
        if c == CH_U {
            Token::Cmd(Command::Update)
        } else if c == CH_I {
            Token::Cmd(Command::Install)
        } else if c == CH_R {
            Token::Cmd(Command::Remove)
        } else if c == CH_P {
            Token::Cmd(Command::Purge)
        } else if c == CH_S {
            Token::Cmd(Command::Search)
        } else if c == CH_C {
            Token::Cmd(Command::Clean)
        } else if c == CH_O {
            Token::Cmd(Command::Orphans)
        } else if c == CH_H {
            Token::Cmd(Command::Help)
        } else if c == CH_Q {
            Token::Cmd(Command::Quit)
        } else {
            Token::Unknown
        }
    }
}

/// Commands dispatched at once, with no argument.
pub open spec fn immediate(cmd: Command) -> bool {
    cmd is Update || cmd is Clean || cmd is Orphans
}

/// Commands that first ask for a package name or search term.
pub open spec fn needs_argument(cmd: Command) -> bool {
    cmd is Install || cmd is Remove || cmd is Purge || cmd is Search
}

/// The flag the manager is invoked with for each dispatching command.
pub open spec fn manager_flag(cmd: Command) -> Seq<u8> {
    match cmd {
        Command::Update => seq![CH_HYPHEN, CH_UPPER_S, CH_Y, CH_U],
        Command::Install => seq![CH_HYPHEN, CH_UPPER_S],
        Command::Remove => seq![CH_HYPHEN, CH_UPPER_R],
        Command::Purge => seq![CH_HYPHEN, CH_UPPER_R, CH_N, CH_S],
        Command::Search => seq![CH_HYPHEN, CH_UPPER_S, CH_S],
        Command::Clean => seq![CH_HYPHEN, CH_UPPER_S, CH_C],
        Command::Orphans => Seq::empty(),
        Command::Help => Seq::empty(),
        Command::Quit => Seq::empty(),
    }
}

/// The argument list for the manager's flag, as bytes.
fn flag_bytes(cmd: Command) -> (r: Vec<u8>)
    requires
        cmd is Update || cmd is Clean || needs_argument(cmd),
    ensures
        r@ == manager_flag(cmd),
{
    let mut r: Vec<u8> = Vec::new();
    r.push(CH_HYPHEN);
    match cmd {
        Command::Update => {
            r.push(CH_UPPER_S);
            r.push(CH_Y);
            r.push(CH_U);
            proof {
                assert(r@ =~= manager_flag(cmd));
            }
        },
        Command::Install => {
            r.push(CH_UPPER_S);
            proof {
                assert(r@ =~= manager_flag(cmd));
            }
        },
        Command::Remove => {
            r.push(CH_UPPER_R);
            proof {
                assert(r@ =~= manager_flag(cmd));
            }
        },
        Command::Purge => {
            r.push(CH_UPPER_R);
            r.push(CH_N);
            r.push(CH_S);
            proof {
                assert(r@ =~= manager_flag(cmd));
            }
        },
        Command::Search => {
            r.push(CH_UPPER_S);
            r.push(CH_S);
            proof {
                assert(r@ =~= manager_flag(cmd));
            }
        },
        Command::Clean => {
            r.push(CH_UPPER_S);
            r.push(CH_C);
            proof {
                assert(r@ =~= manager_flag(cmd));
            }
        },
        // The remaining commands never reach the manager with a flag;
        // the precondition rules them out.
        Command::Orphans => {
            proof {
                assert(false);
            }
        },
        Command::Help => {
            proof {
                assert(false);
            }
        },
        Command::Quit => {
            proof {
                assert(false);
            }
        },
    }
    r
}

/// One concrete external invocation: either the manager run with an
/// argument list, or the composed removal of orphaned packages.
#[derive(PartialEq, Eq, Debug)]
pub enum Invocation {
    Manager(Vec<Vec<u8>>),
    RemoveOrphans,
}

/// The mathematical shape of an [`Invocation`].
pub enum SpecInvocation {
    Manager(Seq<Seq<u8>>),
    RemoveOrphans,
}

impl View for Invocation {
    type V = SpecInvocation;

    open spec fn view(&self) -> SpecInvocation {
        match self {
            Invocation::Manager(args) => SpecInvocation::Manager(names_view(*args)),
            Invocation::RemoveOrphans => SpecInvocation::RemoveOrphans,
        }
    }
}

/// The invocation an immediate command maps to.
pub open spec fn spec_invocation0(cmd: Command) -> SpecInvocation {
    if cmd is Orphans {
        SpecInvocation::RemoveOrphans
    } else {
        SpecInvocation::Manager(seq![manager_flag(cmd)])
    }
}

/// The invocation an argument-taking command maps to, given its
/// argument.
pub open spec fn spec_invocation1(cmd: Command, arg: Seq<u8>) -> SpecInvocation {
    SpecInvocation::Manager(seq![manager_flag(cmd), arg])
}

/// Build the invocation for an immediate command.
pub fn dispatch_zero(cmd: Command) -> (r: Invocation)
    requires
        immediate(cmd),
    ensures
        r@ == spec_invocation0(cmd),
{
    match cmd {
        Command::Orphans => Invocation::RemoveOrphans,
        _ => {
            let mut args: Vec<Vec<u8>> = Vec::new();
            args.push(flag_bytes(cmd));
            proof {
                assert(names_view(args) =~= seq![manager_flag(cmd)]);
            }
            Invocation::Manager(args)
        },
    }
}

/// Build the invocation for an argument-taking command.
pub fn dispatch_arg(cmd: Command, arg: Vec<u8>) -> (r: Invocation)
    requires
        needs_argument(cmd),
    ensures
        r@ == spec_invocation1(cmd, arg@),
{
    let ghost av = arg@;
    let mut args: Vec<Vec<u8>> = Vec::new();
    args.push(flag_bytes(cmd));
    args.push(arg);
    proof {
        assert(names_view(args) =~= seq![manager_flag(cmd), av]);
    }
    Invocation::Manager(args)
}

/// What one non-interactive run decides to do, before any prompting.
#[derive(PartialEq, Eq, Debug)]
pub enum ExecOutcome {
    Invoke(Invocation),
    NeedArg(Command),
    Help,
    Invalid,
}

/// The mathematical shape of an [`ExecOutcome`].
pub enum SpecExecOutcome {
    Invoke(SpecInvocation),
    NeedArg(Command),
    Help,
    Invalid,
}

impl View for ExecOutcome {
    type V = SpecExecOutcome;

    open spec fn view(&self) -> SpecExecOutcome {
        match self {
            ExecOutcome::Invoke(inv) => SpecExecOutcome::Invoke(inv@),
            ExecOutcome::NeedArg(cmd) => SpecExecOutcome::NeedArg(*cmd),
            ExecOutcome::Help => SpecExecOutcome::Help,
            ExecOutcome::Invalid => SpecExecOutcome::Invalid,
        }
    }
}

/// The single-shot plan for the argument tail of a non-interactive
/// run: the command letter, then an optional inline argument. A
/// missing or unrecognized command letter, and the quit letter, are
/// invalid here; argument-taking commands without an inline argument
/// fall back to one prompt.
pub open spec fn spec_plan_exec(args: Seq<Seq<u8>>) -> SpecExecOutcome {
    if args.len() == 0 {
        SpecExecOutcome::Invalid
    } else {
        match spec_classify(args[0]) {
            Token::Cmd(c) => {
                if c is Help {
                    SpecExecOutcome::Help
                } else if c is Quit {
                    SpecExecOutcome::Invalid
                } else if immediate(c) {
                    SpecExecOutcome::Invoke(spec_invocation0(c))
                } else if args.len() >= 2 {
                    SpecExecOutcome::Invoke(spec_invocation1(c, args[1]))
                } else {
                    SpecExecOutcome::NeedArg(c)
                }
            },
            Token::Empty => SpecExecOutcome::Invalid,
            Token::Unknown => SpecExecOutcome::Invalid,
        }
    }
}

/// Plan one non-interactive dispatch from the run's argument tail.
pub fn plan_exec(args: &Vec<Vec<u8>>) -> (r: ExecOutcome)
    ensures
        r@ == spec_plan_exec(names_view(*args)),
{
    if args.len() == 0 {
        return ExecOutcome::Invalid;
    }
    proof {
        assert(names_view(*args)[0] == args@[0]@);
    }
    let tok = classify(&args[0]);
    match tok {
        Token::Cmd(c) => match c {
            Command::Help => ExecOutcome::Help,
            Command::Quit => ExecOutcome::Invalid,
            Command::Update | Command::Clean | Command::Orphans => ExecOutcome::Invoke(
                dispatch_zero(c),
            ),
            _ => {
                if args.len() >= 2 {
                    proof {
                        assert(names_view(*args)[1] == args@[1]@);
                    }
                    let arg = crate::catalog::clone_bytes(&args[1]);
                    ExecOutcome::Invoke(dispatch_arg(c, arg))
                } else {
                    ExecOutcome::NeedArg(c)
                }
            },
        },
        Token::Empty => ExecOutcome::Invalid,
        Token::Unknown => ExecOutcome::Invalid,
    }
}

/// What a secondary prompt's submitted line resolves to: nothing when
/// it trims to empty, otherwise the invocation on the trimmed value.
pub open spec fn spec_resolve_prompt(cmd: Command, line: Seq<u8>) -> Option<SpecInvocation> {
    if trim_spec(line).len() == 0 {
        Option::None
    } else {
        Option::Some(spec_invocation1(cmd, trim_spec(line)))
    }
}

/// Resolve the line submitted to a secondary prompt: trim it, abort
/// silently on empty, otherwise dispatch on the trimmed value.
pub fn resolve_prompt(cmd: Command, line: &Vec<u8>) -> (r: Option<Invocation>)
    requires
        needs_argument(cmd),
    ensures
        (r is Some) <==> (spec_resolve_prompt(cmd, line@) is Some),
        r matches Some(inv) ==> spec_resolve_prompt(cmd, line@) == Option::Some(inv@),
{
    let t = trim(line);
    if t.len() == 0 {
        Option::None
    } else {
        Option::Some(dispatch_arg(cmd, t))
    }
}

} // verus!
