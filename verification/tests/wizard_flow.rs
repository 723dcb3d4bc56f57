use frd::runner::{
    binstall_job, fail_tail_start, plain_line, shown, tail_width, window_line, InstallStep, Runner, TailLines,
    FAIL_TAIL, TAIL_LINES, TailDraw, TailWindow,
};
use frd::suggestion::{InstallSpec, RunSpec, Suggestion, SweepSpec, Tag, Action};
use frd::wizard::{
    card_title, diff_changes, freed_bytes, record, run, start, sweep_hint, sweep_is_recursive,
    sweep_needs_no_pick, sweep_runspec, sweep_scope, Event, Summary, next_action, event_of,
    Decision, WizardAction,
};
use frd::toml_ops::unified;

fn sweep(c: &[&str]) -> SweepSpec {
    SweepSpec { candidates: c.iter().map(|s| s.to_string()).collect(), time_days: 7 }
}

#[test]
fn tally_counts_each_outcome() {
    let evs = vec![
        Event::Accepted { ok: true },
        Event::Skipped,
        Event::Accepted { ok: false },
        Event::Accepted { ok: true },
    ];
    assert_eq!(run(&evs), Summary { applied: 2, skipped: 1, failed: 1, quit: false });
    assert_eq!(run(&vec![]), Summary { applied: 0, skipped: 0, failed: 0, quit: false });
}

#[test]
fn quit_stops_the_count() {
    let evs = vec![Event::Skipped, Event::Quit, Event::Accepted { ok: true }, Event::Skipped];
    assert_eq!(run(&evs), Summary { applied: 0, skipped: 1, failed: 0, quit: true });
    let s = record(start(), Event::Quit);
    assert_eq!(record(s, Event::Accepted { ok: true }), s);
}

#[test]
fn card_title_names_tag_and_position() {
    let sug = Suggestion {
        title: "Sweep stale build artifacts".into(),
        tag: Tag::Disk,
        why: String::new(),
        action: Action::Sweep(sweep(&["/p"])),
    };
    assert_eq!(card_title(&sug, 3, 12), "Sweep stale build artifacts   [DISK] 3/12");
}

#[test]
fn sweep_scope_and_pick() {
    let home = Some("/Users/x".to_string());
    let one = sweep(&["/Users/x/p"]);
    let many = sweep(&["/Users/x/dev/p", "/Users/x/dev", "/Users/x"]);
    assert_eq!(sweep_scope(&one, &home), "~/p");
    assert_eq!(sweep_scope(&many, &home), "a dir you pick · 3 options up to ~");
    assert!(sweep_needs_no_pick(&one, false));
    assert!(sweep_needs_no_pick(&many, true));
    assert!(!sweep_needs_no_pick(&many, false));
    assert_eq!(sweep_hint(0), "this project");
    assert_eq!(sweep_hint(2), "recursive");
    assert!(!sweep_is_recursive("/Users/x/dev/p", &many));
    assert!(sweep_is_recursive("/Users/x", &many));
}

#[test]
fn sweep_command_line() {
    let r = sweep_runspec("/w", 7, false);
    assert_eq!(r.program, "cargo");
    assert_eq!(r.args, vec!["sweep".to_string(), "--time".into(), "7".into()]);
    assert_eq!(r.cwd, Some("/w".to_string()));
    let r = sweep_runspec("/w", 30, true);
    assert_eq!(r.display(), "cargo sweep --time 30 --recursive");
    assert_eq!(freed_bytes(100, 40), 60);
    assert_eq!(freed_bytes(40, 100), 0);
}

#[test]
fn diff_keeps_only_real_changes() {
    let d = unified("[a]\nx = 1\n", "[a]\nx = 1\n\n[b]\ny = 2\n", "Cargo.toml");
    let lines = diff_changes(&d);
    let shown: Vec<(bool, String)> = lines.iter().map(|l| (l.added, l.text.clone())).collect();
    assert_eq!(shown, vec![(true, "[b]".to_string()), (true, "y = 2".to_string())]);
    let lines = diff_changes("--- a\n+++ b\n@@ -1 +1 @@\n-old\r\n+new\n ctx\n+   \n");
    let shown: Vec<(bool, String)> = lines.iter().map(|l| (l.added, l.text.clone())).collect();
    assert_eq!(shown, vec![(false, "old".to_string()), (true, "new".to_string())]);
}

#[test]
fn binstall_present_is_used() {
    let r = Runner::new(true);
    assert_eq!(r.install_method_label(), "cargo-binstall");
    let spec = InstallSpec { crate_name: "sccache".into(), bin_name: "sccache".into() };
    match r.install(&spec, Tag::Both, false, false, false) {
        InstallStep::Run(j) => {
            assert_eq!(shown(&j), "cargo binstall -y sccache");
            assert_eq!(j.running, "Installing sccache");
            assert_eq!(j.done, "Installed sccache");
        }
        other => panic!("unexpected {:?}", other),
    }
    assert!(matches!(r.install(&spec, Tag::Both, false, false, true), InstallStep::AlreadyInstalled));
}

#[test]
fn binstall_missing_is_asked_once() {
    let spec = InstallSpec { crate_name: "cargo-sweep".into(), bin_name: "cargo-sweep".into() };
    let mut r = Runner::new(false);
    assert_eq!(r.install_method_label(), "cargo-binstall if present, else cargo install");
    assert!(matches!(r.install(&spec, Tag::Disk, false, false, false), InstallStep::AskBinstall));
    match r.install(&spec, Tag::Disk, true, false, false) {
        InstallStep::Run(j) => assert_eq!(shown(&j), "cargo install cargo-sweep"),
        other => panic!("unexpected {:?}", other),
    }
    r.answer_binstall(false, false);
    assert_eq!(r.install_method_label(), "cargo install");
    r.answer_binstall(true, true);
    assert_eq!(r.install_method_label(), "cargo install");
    match r.install(&spec, Tag::Disk, false, false, false) {
        InstallStep::Run(j) => assert_eq!(shown(&j), "cargo install cargo-sweep"),
        other => panic!("unexpected {:?}", other),
    }
}

#[test]
fn accepting_binstall_installs_it_first() {
    let spec = InstallSpec { crate_name: "cargo-machete".into(), bin_name: "cargo-machete".into() };
    let mut r = Runner::new(false);
    let j = binstall_job();
    assert_eq!(shown(&j), "cargo install cargo-binstall");
    assert_eq!(j.running, "Installing cargo-binstall");
    r.answer_binstall(true, true);
    match r.install(&spec, Tag::Both, false, false, false) {
        InstallStep::Run(j) => assert_eq!(shown(&j), "cargo binstall -y cargo-machete"),
        other => panic!("unexpected {:?}", other),
    }
}

#[test]
fn a_failed_binstall_install_is_not_asked_again() {
    let spec = InstallSpec { crate_name: "cargo-machete".into(), bin_name: "cargo-machete".into() };
    let mut r = Runner::new(false);
    r.answer_binstall(true, false);
    assert_eq!(r.install_method_label(), "cargo install");
    match r.install(&spec, Tag::Both, false, false, false) {
        InstallStep::Run(j) => assert_eq!(shown(&j), "cargo install cargo-machete"),
        other => panic!("unexpected {:?}", other),
    }
}

#[test]
fn run_job_is_labelled_with_its_command() {
    let r = Runner::new(true);
    let spec = RunSpec { program: "cargo".into(), args: vec!["sweep".into(), "--time".into(), "7".into()], cwd: Some("/w".into()) };
    let j = r.run(&spec, Tag::Disk);
    assert_eq!(j.running, "Running cargo sweep --time 7");
    assert_eq!(j.done, "Ran cargo sweep --time 7");
    assert_eq!(j.cwd, Some("/w".to_string()));
    assert_eq!(j.tag, Tag::Disk);
}

#[test]
fn tail_keeps_the_last_lines() {
    let mut t = TailLines::new();
    for i in 0..10 {
        t.push(format!("line {i}"));
    }
    assert_eq!(t.lines().len(), TAIL_LINES);
    assert_eq!(t.lines()[0], "line 4");
    assert_eq!(t.lines()[TAIL_LINES - 1], "line 9");
    t.clear();
    assert!(t.lines().is_empty());
    assert_eq!(fail_tail_start(10), 0);
    assert_eq!(fail_tail_start(FAIL_TAIL), 0);
    assert_eq!(fail_tail_start(100), 100 - FAIL_TAIL);
    assert_eq!(tail_width(80), 77);
    assert_eq!(tail_width(5), 8);
}

#[test]
fn window_lines_are_cleaned_and_cut() {
    assert_eq!(window_line("\u{1b}[32mCompiling foo\u{1b}[0m   ", 80), "Compiling foo");
    assert_eq!(window_line("abcdefghij", 5), "abcd…");
    assert_eq!(plain_line("\u{1b}[1mbold\u{1b}[0m"), "bold");
}

#[test]
fn next_action_follows_flags_and_answers() {
    use_next_action();
}

fn use_next_action() {
    assert_eq!(next_action(3, 3, false, false, None), WizardAction::Done);
    assert_eq!(next_action(0, 3, true, false, None), WizardAction::Execute { write: true });
    assert_eq!(next_action(0, 3, true, true, None), WizardAction::Execute { write: false });
    assert_eq!(next_action(1, 3, false, false, None), WizardAction::Ask);
    assert_eq!(next_action(1, 3, false, true, Some(Decision::Accept)), WizardAction::Execute { write: false });
    assert_eq!(next_action(1, 3, false, false, Some(Decision::Skip)), WizardAction::Skip);
    assert_eq!(next_action(1, 3, false, false, Some(Decision::Quit)), WizardAction::Stop);
    assert_eq!(event_of(WizardAction::Execute { write: true }, false), Some(Event::Accepted { ok: false }));
    assert_eq!(event_of(WizardAction::Stop, true), Some(Event::Quit));
    assert_eq!(event_of(WizardAction::Ask, true), None);
}

#[test]
fn live_window_redraws_on_a_terminal_and_passes_through_otherwise() {
    let mut w = TailWindow::new(true);
    assert_eq!(w.open(), TailDraw::Redraw { clear: 0 });
    assert_eq!(w.push("a".into()), TailDraw::Redraw { clear: 1 });
    assert_eq!(w.push("b".into()), TailDraw::Redraw { clear: 2 });
    for i in 0..10 {
        w.push(format!("l{i}"));
    }
    assert_eq!(w.lines().len(), TAIL_LINES);
    assert_eq!(w.lines()[0], "l4");
    assert_eq!(w.close(), TailDraw::Fold { clear: 1 + TAIL_LINES });
    assert!(w.lines().is_empty());

    let mut p = TailWindow::new(false);
    assert_eq!(p.open(), TailDraw::PassThrough);
    assert_eq!(p.push("x".into()), TailDraw::PassThrough);
    assert!(p.lines().is_empty());
    assert_eq!(p.close(), TailDraw::Fold { clear: 0 });
}

#[test]
fn yes_installs_binstall_without_asking() {
    let spec = InstallSpec { crate_name: "cargo-sweep".into(), bin_name: "cargo-sweep".into() };
    let mut r = Runner::new(false);
    match r.install(&spec, Tag::Disk, false, true, false) {
        InstallStep::InstallBinstall(j) => assert_eq!(shown(&j), "cargo install cargo-binstall"),
        other => panic!("unexpected {:?}", other),
    }
    r.answer_binstall(true, true);
    match r.install(&spec, Tag::Disk, false, true, false) {
        InstallStep::Run(j) => assert_eq!(shown(&j), "cargo binstall -y cargo-sweep"),
        other => panic!("unexpected {:?}", other),
    }
    let mut f = Runner::new(false);
    f.answer_binstall(true, false);
    match f.install(&spec, Tag::Disk, false, true, false) {
        InstallStep::Run(j) => assert_eq!(shown(&j), "cargo install cargo-sweep"),
        other => panic!("unexpected {:?}", other),
    }
}
