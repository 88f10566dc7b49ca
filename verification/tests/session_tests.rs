use archie::command::{plan_exec, resolve_prompt, Command, ExecOutcome, Invocation};
use archie::session::{Effect, Mode, Session};
use archie::text::{manager_version_token, trim};

fn bv(s: &str) -> Vec<u8> {
    s.as_bytes().to_vec()
}

fn lines(xs: &[&str]) -> Vec<Vec<u8>> {
    xs.iter().map(|s| bv(s)).collect()
}

#[test]
fn interactive_install_dispatches() {
    let mut s = Session::new();
    let eff = s.submit_line(bv("i"));
    assert_eq!(eff, Effect::PromptArg(Command::Install));
    assert_eq!(s.mode, Mode::AwaitingArg(Command::Install));
    let eff2 = s.submit_line(bv("glibc"));
    assert_eq!(eff2, Effect::Invoke(Invocation::Manager(lines(&["-S", "glibc"]))));
    assert_eq!(s.mode, Mode::Reading);
    assert_eq!(s.history, lines(&["i", "glibc"]));
}

#[test]
fn interactive_install_empty_argument_dispatches_nothing() {
    let mut s = Session::new();
    let eff = s.submit_line(bv("i"));
    assert_eq!(eff, Effect::PromptArg(Command::Install));
    let eff2 = s.submit_line(bv(""));
    assert_eq!(eff2, Effect::Silent);
    assert_eq!(s.mode, Mode::Reading);
}

#[test]
fn unknown_input_keeps_reading_with_notice() {
    let mut s = Session::new();
    let eff = s.submit_line(bv("xyz"));
    assert_eq!(eff, Effect::NoticeUnknown);
    assert_eq!(s.mode, Mode::Reading);
    assert_eq!(s.history, lines(&["xyz"]));
}

#[test]
fn empty_line_is_silently_ignored() {
    let mut s = Session::new();
    let eff = s.submit_line(bv("   "));
    assert_eq!(eff, Effect::Silent);
    assert_eq!(s.mode, Mode::Reading);
    assert_eq!(s.history, lines(&["   "]));
}

#[test]
fn update_dispatches_at_once() {
    let mut s = Session::new();
    let eff = s.submit_line(bv(" u "));
    assert_eq!(eff, Effect::Invoke(Invocation::Manager(lines(&["-Syu"]))));
    assert_eq!(s.mode, Mode::Reading);
}

#[test]
fn clean_and_orphans_and_help() {
    let mut s = Session::new();
    assert_eq!(
        s.submit_line(bv("c")),
        Effect::Invoke(Invocation::Manager(lines(&["-Sc"])))
    );
    assert_eq!(s.submit_line(bv("o")), Effect::Invoke(Invocation::RemoveOrphans));
    assert_eq!(s.submit_line(bv("h")), Effect::ShowHelp);
    assert_eq!(s.mode, Mode::Reading);
}

#[test]
fn remove_and_purge_and_search_prompt() {
    let mut s = Session::new();
    assert_eq!(s.submit_line(bv("r")), Effect::PromptArg(Command::Remove));
    assert_eq!(
        s.submit_line(bv("firefox")),
        Effect::Invoke(Invocation::Manager(lines(&["-R", "firefox"])))
    );
    assert_eq!(s.submit_line(bv("p")), Effect::PromptArg(Command::Purge));
    assert_eq!(
        s.submit_line(bv("vim")),
        Effect::Invoke(Invocation::Manager(lines(&["-Rns", "vim"])))
    );
    assert_eq!(s.submit_line(bv("s")), Effect::PromptArg(Command::Search));
    assert_eq!(
        s.submit_line(bv("editor")),
        Effect::Invoke(Invocation::Manager(lines(&["-Ss", "editor"])))
    );
}

#[test]
fn quit_terminates_session() {
    let mut s = Session::new();
    let eff = s.submit_line(bv("q"));
    assert_eq!(eff, Effect::Quit);
    assert_eq!(s.mode, Mode::Terminated);
}

#[test]
fn end_of_input_terminates_and_keeps_history() {
    let mut s = Session::new();
    s.submit_line(bv("xyz"));
    s.end_input();
    assert_eq!(s.mode, Mode::Terminated);
    assert_eq!(s.history, lines(&["xyz"]));
}

#[test]
fn prompt_argument_is_trimmed() {
    let mut s = Session::new();
    s.submit_line(bv("i"));
    let eff = s.submit_line(bv("  glibc  "));
    assert_eq!(eff, Effect::Invoke(Invocation::Manager(lines(&["-S", "glibc"]))));
}

#[test]
fn exec_remove_without_argument_needs_prompt() {
    let args = lines(&["r"]);
    assert_eq!(plan_exec(&args), ExecOutcome::NeedArg(Command::Remove));
}

#[test]
fn exec_remove_with_argument_dispatches_directly() {
    let args = lines(&["r", "firefox"]);
    assert_eq!(
        plan_exec(&args),
        ExecOutcome::Invoke(Invocation::Manager(lines(&["-R", "firefox"])))
    );
}

#[test]
fn exec_unrecognized_command_is_invalid() {
    assert_eq!(plan_exec(&lines(&["zzz"])), ExecOutcome::Invalid);
    assert_eq!(plan_exec(&Vec::new()), ExecOutcome::Invalid);
    assert_eq!(plan_exec(&lines(&["q"])), ExecOutcome::Invalid);
    assert_eq!(plan_exec(&lines(&[""])), ExecOutcome::Invalid);
}

#[test]
fn exec_immediate_and_help() {
    assert_eq!(
        plan_exec(&lines(&["u"])),
        ExecOutcome::Invoke(Invocation::Manager(lines(&["-Syu"])))
    );
    assert_eq!(plan_exec(&lines(&["o"])), ExecOutcome::Invoke(Invocation::RemoveOrphans));
    assert_eq!(plan_exec(&lines(&["h"])), ExecOutcome::Help);
}

#[test]
fn resolve_prompt_trims_and_aborts_on_empty() {
    assert_eq!(
        resolve_prompt(Command::Remove, &bv(" firefox ")),
        Some(Invocation::Manager(lines(&["-R", "firefox"])))
    );
    assert_eq!(resolve_prompt(Command::Install, &bv("   ")), None);
}

#[test]
fn version_token_from_manager_output() {
    let out = bv("paru v2.0.4 - libalpm v13.0.2\nother noise\n");
    assert_eq!(manager_version_token(&out), Some(bv("v2.0.4")));
}

#[test]
fn version_token_missing() {
    assert_eq!(manager_version_token(&bv("")), None);
    assert_eq!(manager_version_token(&bv("paru\nv9 v9\n")), None);
    assert_eq!(manager_version_token(&bv("   \n")), None);
}

#[test]
fn version_token_tolerates_extra_whitespace() {
    assert_eq!(manager_version_token(&bv("  paru   v1.2  \n")), Some(bv("v1.2")));
}

#[test]
fn trim_removes_surrounding_whitespace() {
    assert_eq!(trim(&bv("  abc\t\n")), bv("abc"));
    assert_eq!(trim(&bv("\r\n \t")), bv(""));
    assert_eq!(trim(&bv("a b")), bv("a b"));
}

#[test]
fn manager_binary_name() {
    assert_eq!(archie::paru_path(), "paru");
}
