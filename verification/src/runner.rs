//! The decisions behind installs and command runs. The program spawns the processes,
//! asks the questions and draws the live output; here is what it runs, in which order,
//! and how the output window keeps its last lines. Installs use cargo-binstall when it
//! is present; when it is not, the user is asked once whether to install it, and
//! otherwise `cargo install` is used.
use vstd::prelude::*;
use crate::suggestion::{run_display, InstallSpec, RunSpec, Tag};
use crate::text::{trim_end, trim_end_str, views};

verus! {

/// How many recent output lines the live tail window keeps on screen.
pub const TAIL_LINES: usize = 6;

/// How many captured lines to replay when a job fails, so the error is visible.
pub const FAIL_TAIL: usize = 40;

/// What is known about cargo-binstall.
#[derive(Clone, Copy, PartialEq, Eq, Debug, Structural)]
pub enum Binstall {
    /// It is on PATH (or was just installed).
    Available,
    /// The user declined to install it: use `cargo install`.
    Fallback,
    /// Not found, and the user has not been asked yet.
    Unknown,
}

/// Runs installs and commands.
#[derive(Debug)]
pub struct Runner {
    binstall: Binstall,
}

/// One command to run, with the labels shown while it runs and once it is done.
#[derive(Clone, Debug)]
pub struct Job {
    pub program: String,
    pub args: Vec<String>,
    pub cwd: Option<String>,
    pub running: String,
    pub done: String,
    pub tag: Tag,
}

/// What installing a tool takes next.
#[derive(Clone, Debug)]
pub enum InstallStep {
    /// The tool is on PATH already: report it and do nothing.
    AlreadyInstalled,
    /// Ask whether to install cargo-binstall first, then call `answer_binstall`.
    AskBinstall,
    /// Without asking (`--yes` takes the question's default, yes): run this job, which
    /// installs cargo-binstall, report whether it succeeded through `answer_binstall`,
    /// then take the next step.
    InstallBinstall(Job),
    /// Run this job.
    Run(Job),
}

/// The arguments of `cargo` for installing `crate_name`.
pub open spec fn install_args(crate_name: Seq<char>, binstall: bool) -> Seq<Seq<char>> {
    if binstall {
        seq!["binstall"@, "-y"@, crate_name]
    } else {
        seq!["install"@, crate_name]
    }
}

/// The job that installs `crate_name` with cargo.
pub open spec fn install_job_ok(j: Job, crate_name: Seq<char>, binstall: bool, tag: Tag) -> bool {
    &&& j.program@ == "cargo"@
    &&& views(j.args@) == install_args(crate_name, binstall)
    &&& j.cwd is None
    &&& j.running@ == "Installing "@ + crate_name
    &&& j.done@ == "Installed "@ + crate_name
    &&& j.tag == tag
}

fn install_job(crate_name: &str, binstall: bool, tag: Tag) -> (j: Job)
    ensures
        install_job_ok(j, crate_name@, binstall, tag),
{
    let mut args: Vec<String> = Vec::new();
    if binstall {
        args.push(String::from_str("binstall"));
        args.push(String::from_str("-y"));
        args.push(String::from_str(crate_name));
    } else {
        args.push(String::from_str("install"));
        args.push(String::from_str(crate_name));
    }
    proof {
        assert(views(args@) =~= install_args(crate_name@, binstall));
    }
    Job {
        program: String::from_str("cargo"),
        args,
        cwd: None,
        running: String::from_str("Installing ").concat(crate_name),
        done: String::from_str("Installed ").concat(crate_name),
        tag,
    }
}

/// An install runs `cargo binstall -y <crate>` when cargo-binstall is to be used and
/// `cargo install <crate>` otherwise: the crate's name is the last argument either way.
pub proof fn lemma_install_command(j: Job, crate_name: Seq<char>, binstall: bool, tag: Tag)
    requires
        install_job_ok(j, crate_name, binstall, tag),
    ensures
        j.program@ == "cargo"@,
        j.args@.len() >= 2,
        j.args@[0]@ == if binstall {
            "binstall"@
        } else {
            "install"@
        },
        j.args@.last()@ == crate_name,
        binstall ==> j.args@[1]@ == "-y"@,
{
    assert(views(j.args@).len() == j.args@.len());
    assert(install_args(crate_name, binstall).len() >= 2);
    assert(views(j.args@)[0] == j.args@[0]@);
    assert(views(j.args@)[views(j.args@).len() - 1] == j.args@.last()@);
    assert(views(j.args@)[1] == j.args@[1]@);
}

/// The label of the install method for a binstall state.
pub open spec fn method_label(b: Binstall) -> Seq<char> {
    match b {
        Binstall::Available => "cargo-binstall"@,
        Binstall::Fallback => "cargo install"@,
        Binstall::Unknown => "cargo-binstall if present, else cargo install"@,
    }
}

/// The job that installs cargo-binstall itself (with `cargo install`), run when the user
/// accepts it.
pub fn binstall_job() -> (j: Job)
    ensures
        install_job_ok(j, "cargo-binstall"@, false, Tag::Both),
{
    install_job("cargo-binstall", false, Tag::Both)
}

impl Runner {
    /// What the runner knows about cargo-binstall.
    pub closed spec fn binstall_state(self) -> Binstall {
        self.binstall
    }

    /// A runner; `binstall_found` says whether cargo-binstall is on PATH.
    pub fn new(binstall_found: bool) -> (r: Runner)
        ensures
            r.binstall_state() == if binstall_found {
                Binstall::Available
            } else {
                Binstall::Unknown
            },
    {
        let binstall = if binstall_found {
            Binstall::Available
        } else {
            Binstall::Unknown
        };
        Runner { binstall }
    }

    /// The install method shown on install cards.
    pub fn install_method_label(&self) -> (r: &'static str)
        ensures
            r@ == method_label(self.binstall_state()),
    {
        match self.binstall {
            Binstall::Available => "cargo-binstall",
            Binstall::Fallback => "cargo install",
            Binstall::Unknown => "cargo-binstall if present, else cargo install",
        }
    }

    /// The next step of installing `spec`, given whether its binary is on PATH already.
    /// A dry run never asks: with cargo-binstall unknown it plans `cargo install`. A
    /// `--yes` run never asks either: with cargo-binstall unknown it installs it first,
    /// which is what accepting the question's default does.
    pub fn install(&self, spec: &InstallSpec, tag: Tag, dry_run: bool, yes: bool, bin_found: bool) -> (r: InstallStep)
        ensures
            bin_found ==> r is AlreadyInstalled,
            yes ==> !(r is AskBinstall),
            !bin_found && self.binstall_state() == Binstall::Unknown && !dry_run && !yes ==> r is AskBinstall,
            !bin_found && self.binstall_state() == Binstall::Unknown && !dry_run && yes ==> (r matches InstallStep::InstallBinstall(j)
                && install_job_ok(j, "cargo-binstall"@, false, Tag::Both)),
            !bin_found && (self.binstall_state() != Binstall::Unknown || dry_run) ==> (r matches InstallStep::Run(j)
                && install_job_ok(j, spec.crate_name@, self.binstall_state() == Binstall::Available, tag)),
    {
        if bin_found {
            return InstallStep::AlreadyInstalled;
        }
        match self.binstall {
            Binstall::Available => InstallStep::Run(install_job(spec.crate_name.as_str(), true, tag)),
            Binstall::Fallback => InstallStep::Run(install_job(spec.crate_name.as_str(), false, tag)),
            Binstall::Unknown => {
                if dry_run {
                    InstallStep::Run(install_job(spec.crate_name.as_str(), false, tag))
                } else if yes {
                    InstallStep::InstallBinstall(binstall_job())
                } else {
                    InstallStep::AskBinstall
                }
            },
        }
    }

    /// The answer to the one question about cargo-binstall: whether the user wanted it
    /// installed (`install_it`) and whether the job of [`binstall_job`] then installed it
    /// (`installed`). Only an accepted and successful install makes cargo-binstall
    /// available; a refusal, or an install that failed or was not run, falls back to
    /// `cargo install` for good. Once cargo-binstall is known, nothing changes, so the
    /// question is asked at most once for a runner.
    pub fn answer_binstall(&mut self, install_it: bool, installed: bool)
        ensures
            old(self).binstall_state() != Binstall::Unknown ==> final(self).binstall_state()
                == old(self).binstall_state(),
            old(self).binstall_state() == Binstall::Unknown ==> final(self).binstall_state() == (
            if install_it && installed {
                Binstall::Available
            } else {
                Binstall::Fallback
            }),
    {
        if self.binstall == Binstall::Unknown {
            self.binstall = if install_it && installed {
                Binstall::Available
            } else {
                Binstall::Fallback
            };
        }
    }

    /// The job that runs `spec`, labelled with its command line.
    pub fn run(&self, spec: &RunSpec, tag: Tag) -> (j: Job)
        ensures
            j.program@ == spec.program@,
            views(j.args@) == views(spec.args@),
            j.cwd == spec.cwd,
            j.running@ == "Running "@ + run_display(spec.program@, views(spec.args@)),
            j.done@ == "Ran "@ + run_display(spec.program@, views(spec.args@)),
            j.tag == tag,
    {
        let shown = spec.display();
        let mut args: Vec<String> = Vec::new();
        let n = spec.args.len();
        let mut i: usize = 0;
        while i < n
            invariant
                n == spec.args@.len(),
                i <= n,
                views(args@) == views(spec.args@).subrange(0, i as int),
            decreases n - i,
        {
            let a = spec.args[i].clone();
            let ghost before = args@;
            args.push(a);
            proof {
                assert(views(args@) =~= views(before).push(spec.args@[i as int]@));
                assert(views(spec.args@).subrange(0, i + 1) =~= views(spec.args@).subrange(0, i as int).push(spec.args@[i as int]@));
            }
            i = i + 1;
        }
        proof {
            assert(views(spec.args@).subrange(0, n as int) =~= views(spec.args@));
        }
        let cwd = match &spec.cwd {
            Some(c) => Some(c.clone()),
            None => None,
        };
        Job {
            program: spec.program.clone(),
            args,
            cwd,
            running: String::from_str("Running ").concat(shown.as_str()),
            done: String::from_str("Ran ").concat(shown.as_str()),
            tag,
        }
    }
}

/// The command line echoed for a job: the program, a space, and the arguments joined by
/// spaces (`format!("{prog} {}", args.join(" "))`).
pub open spec fn shown_text(program: Seq<char>, args: Seq<Seq<char>>) -> Seq<char> {
    program + " "@ + crate::text::joined(args, " "@)
}

/// The command line echoed for `job`.
pub fn shown(job: &Job) -> (r: String)
    ensures
        r@ == shown_text(job.program@, views(job.args@)),
{
    let s = job.program.clone().concat(" ");
    s.concat(crate::text::join_strings(&job.args, " ").as_str())
}

/// The last lines of a job's output, at most [`TAIL_LINES`] of them.
#[derive(Clone, Debug)]
pub struct TailLines {
    lines: Vec<String>,
}

/// The last `k` entries of `s` (all of them when there are fewer).
pub open spec fn last_n(s: Seq<Seq<char>>, k: nat) -> Seq<Seq<char>> {
    if s.len() <= k {
        s
    } else {
        s.subrange(s.len() - k, s.len() as int)
    }
}

/// Keeping only the last `k` lines loses nothing that matters: trimming before a push
/// and trimming after it leave the same lines, so a window fed line by line always shows
/// the last `k` lines of everything it was fed.
pub proof fn lemma_tail_keeps_latest(s: Seq<Seq<char>>, x: Seq<char>, k: nat)
    ensures
        last_n(last_n(s, k).push(x), k) == last_n(s.push(x), k),
        last_n(s.push(x), k).len() <= k,
        k > 0 ==> last_n(s.push(x), k).last() == x,
{
    if s.len() > k {
        assert(last_n(s, k).push(x).subrange(1, (k + 1) as int) =~= s.push(x).subrange(s.len() + 1 - k, (s.len() + 1) as int));
    }
    if k > 0 && s.len() + 1 > k {
        assert(last_n(s.push(x), k).last() == s.push(x)[s.len() as int]);
    }
}

impl TailLines {
    /// The lines kept, oldest first.
    pub closed spec fn kept(self) -> Seq<Seq<char>> {
        views(self.lines@)
    }

    /// An empty window.
    pub fn new() -> (r: TailLines)
        ensures
            r.kept() == Seq::<Seq<char>>::empty(),
    {
        let r = TailLines { lines: Vec::new() };
        proof {
            assert(r.kept() =~= Seq::<Seq<char>>::empty());
        }
        r
    }

    /// Adds a line, dropping the oldest when the window is full.
    pub fn push(&mut self, line: String)
        requires
            old(self).kept().len() <= TAIL_LINES,
        ensures
            final(self).kept() == last_n(old(self).kept().push(line@), TAIL_LINES as nat),
            final(self).kept().len() <= TAIL_LINES,
    {
        let ghost before = self.kept();
        if self.lines.len() == TAIL_LINES {
            let _ = self.lines.remove(0);
        }
        let ghost mid = self.lines@;
        self.lines.push(line);
        proof {
            assert(views(self.lines@) =~= views(mid).push(line@));
            if before.len() == TAIL_LINES {
                assert(views(mid) =~= before.subrange(1, before.len() as int));
                assert(last_n(before.push(line@), TAIL_LINES as nat) =~= before.subrange(1, before.len() as int).push(line@));
            } else {
                assert(views(mid) =~= before);
            }
        }
    }

    /// The lines kept, oldest first.
    pub fn lines(&self) -> (r: &Vec<String>)
        ensures
            views(r@) == self.kept(),
    {
        &self.lines
    }

    /// Empties the window.
    pub fn clear(&mut self)
        ensures
            final(self).kept() == Seq::<Seq<char>>::empty(),
    {
        self.lines.clear();
        proof {
            assert(views(self.lines@) =~= Seq::<Seq<char>>::empty());
        }
    }
}

/// What the live window asks of the terminal after a step.
#[derive(Clone, Copy, Debug, PartialEq, Eq, Structural)]
pub enum TailDraw {
    /// Off a terminal: print the line as it is (escape codes removed).
    PassThrough,
    /// Clear the `clear` lines drawn last, then draw the header and the kept lines.
    Redraw { clear: usize },
    /// Clear the `clear` lines drawn last and draw nothing.
    Fold { clear: usize },
}

/// The live output window of a running job: on a terminal it redraws a header and the
/// last [`TAIL_LINES`] lines in place and folds away when the job is done; off a
/// terminal it only passes lines through.
#[derive(Debug)]
pub struct TailWindow {
    interactive: bool,
    tail: TailLines,
    drawn: usize,
}

impl TailWindow {
    /// Whether the window draws in place.
    pub closed spec fn is_interactive(self) -> bool {
        self.interactive
    }

    /// The lines kept on screen, oldest first.
    pub closed spec fn shown_lines(self) -> Seq<Seq<char>> {
        self.tail.kept()
    }

    /// How many terminal lines the window occupies now.
    pub closed spec fn drawn_lines(self) -> nat {
        self.drawn as nat
    }

    /// The window's own invariant: it keeps at most [`TAIL_LINES`] lines, when it has
    /// drawn anything it has drawn the header and each kept line, and off a terminal it
    /// keeps and draws nothing.
    #[verifier::type_invariant]
    closed spec fn wf(self) -> bool {
        &&& self.tail.kept().len() <= TAIL_LINES
        &&& (self.drawn == 0 || self.drawn == 1 + self.tail.kept().len())
        &&& (!self.interactive ==> self.drawn == 0 && self.tail.kept().len() == 0)
    }

    /// An empty window; `interactive` says whether the output is a terminal.
    pub fn new(interactive: bool) -> (w: TailWindow)
        ensures
            w.is_interactive() == interactive,
            w.shown_lines() == Seq::<Seq<char>>::empty(),
            w.drawn_lines() == 0,
    {
        TailWindow { interactive, tail: TailLines::new(), drawn: 0 }
    }

    /// The lines kept on screen.
    pub fn lines(&self) -> (r: &Vec<String>)
        ensures
            views(r@) == self.shown_lines(),
    {
        self.tail.lines()
    }

    /// Opens the window under its header: on a terminal it is drawn at once; off a
    /// terminal the caller prints the header once.
    pub fn open(&mut self) -> (d: TailDraw)
        ensures
            final(self).is_interactive() == old(self).is_interactive(),
            final(self).shown_lines() == old(self).shown_lines(),
            old(self).is_interactive() ==> d == (TailDraw::Redraw {
                clear: old(self).drawn_lines() as usize,
            }) && final(self).drawn_lines() == 1 + final(self).shown_lines().len(),
            !old(self).is_interactive() ==> d == TailDraw::PassThrough && final(self).drawn_lines()
                == 0,
    {
        proof {
            use_type_invariant(&*self);
        }
        if self.interactive {
            let clear = self.drawn;
            self.drawn = 1 + self.tail.lines().len();
            TailDraw::Redraw { clear }
        } else {
            TailDraw::PassThrough
        }
    }

    /// A new line of output. On a terminal the window keeps the last [`TAIL_LINES`]
    /// lines and is redrawn; off a terminal the line is only passed through and nothing
    /// is kept.
    pub fn push(&mut self, line: String) -> (d: TailDraw)
        ensures
            final(self).is_interactive() == old(self).is_interactive(),
            old(self).is_interactive() ==> {
                &&& final(self).shown_lines() == last_n(
                    old(self).shown_lines().push(line@),
                    TAIL_LINES as nat,
                )
                &&& final(self).drawn_lines() == 1 + final(self).shown_lines().len()
                &&& d == TailDraw::Redraw { clear: old(self).drawn_lines() as usize }
            },
            !old(self).is_interactive() ==> final(self).shown_lines() == old(self).shown_lines()
                && final(self).drawn_lines() == old(self).drawn_lines() && d == TailDraw::PassThrough,
            final(self).shown_lines().len() <= TAIL_LINES,
    {
        proof {
            use_type_invariant(&*self);
        }
        if !self.interactive {
            return TailDraw::PassThrough;
        }
        let clear = self.drawn;
        let interactive = self.interactive;
        self.drawn = 0;
        let mut tail = TailLines::new();
        std::mem::swap(&mut tail, &mut self.tail);
        tail.push(line);
        let drawn = 1 + tail.lines().len();
        *self = TailWindow { interactive, tail, drawn };
        TailDraw::Redraw { clear }
    }

    /// Folds the window away once the job is done, leaving the caller to print the
    /// summary line.
    pub fn close(&mut self) -> (d: TailDraw)
        ensures
            final(self).is_interactive() == old(self).is_interactive(),
            final(self).shown_lines() == Seq::<Seq<char>>::empty(),
            final(self).drawn_lines() == 0,
            d == (TailDraw::Fold {
                clear: if old(self).is_interactive() {
                    old(self).drawn_lines() as usize
                } else {
                    0
                },
            }),
    {
        proof {
            use_type_invariant(&*self);
        }
        let clear = if self.interactive {
            self.drawn
        } else {
            0
        };
        let interactive = self.interactive;
        *self = TailWindow { interactive, tail: TailLines::new(), drawn: 0 };
        TailDraw::Fold { clear }
    }
}

/// Where the replayed tail of a failed job's output starts: the last [`FAIL_TAIL`]
/// lines, or all of them when there are fewer.
pub fn fail_tail_start(total: usize) -> (r: usize)
    ensures
        r == if total <= FAIL_TAIL {
            0
        } else {
            total - FAIL_TAIL
        },
{
    if total <= FAIL_TAIL {
        0
    } else {
        total - FAIL_TAIL
    }
}

/// The width left for an output line in a terminal `cols` columns wide: three columns
/// go to the gutter, and at least eight are kept.
pub fn tail_width(cols: u16) -> (r: usize)
    ensures
        r == if cols >= 11 {
            cols - 3
        } else {
            8
        },
{
    let inner: usize = if cols >= 3 {
        (cols - 3) as usize
    } else {
        0
    };
    if inner > 8 {
        inner
    } else {
        8
    }
}

/// `console::strip_ansi_codes`: `s` without ANSI escape sequences.
pub uninterp spec fn ansi_stripped(s: Seq<char>) -> Seq<char>;

/// `console::truncate_str`: `s` cut to `width` display columns, ending in `tail` when cut.
pub uninterp spec fn truncated(s: Seq<char>, width: nat, tail: Seq<char>) -> Seq<char>;

/// `console::strip_ansi_codes`. A function of the text alone.
#[verifier::external_body]
fn strip_ansi(s: &str) -> (r: String)
    ensures
        r@ == ansi_stripped(s@),
{
    console::strip_ansi_codes(s).into_owned()
}

/// `console::truncate_str`. A function of its arguments alone.
#[verifier::external_body]
fn truncate(s: &str, width: usize, tail: &str) -> (r: String)
    ensures
        r@ == truncated(s@, width as nat, tail@),
{
    console::truncate_str(s, width, tail).into_owned()
}

/// An output line as the live window shows it: escape codes removed, trailing
/// whitespace trimmed, cut to `width` columns with an ellipsis.
pub fn window_line(line: &str, width: usize) -> (r: String)
    ensures
        r@ == truncated(trim_end(ansi_stripped(line@)), width as nat, "…"@),
{
    let clean = strip_ansi(line);
    let trimmed = trim_end_str(clean.as_str());
    truncate(trimmed.as_str(), width, "…")
}

/// An output line as the plain (non-terminal) output and the failure replay show it:
/// escape codes removed.
pub fn plain_line(line: &str) -> (r: String)
    ensures
        r@ == ansi_stripped(line@),
{
    strip_ansi(line)
}

} // verus!
