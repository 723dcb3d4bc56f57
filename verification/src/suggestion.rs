//! Declarative description of every optimization the wizard can offer. The catalog
//! builds these; the TOML editor and the runner interpret the `Action`.
use vstd::prelude::*;
use crate::text::{decimal, decimal_string, views};

verus! {

/// What an optimization improves.
#[derive(Clone, Copy, PartialEq, Eq, Debug, Structural)]
pub enum Tag {
    Disk,
    Speed,
    Both,
}

/// Label text of a tag.
pub open spec fn tag_label(t: Tag) -> Seq<char> {
    match t {
        Tag::Disk => "DISK"@,
        Tag::Speed => "SPEED"@,
        Tag::Both => "BOTH"@,
    }
}

impl Tag {
    /// The upper-case label shown on a card.
    pub fn label(self) -> (r: &'static str)
        ensures
            r@ == tag_label(self),
    {
        match self {
            Tag::Disk => "DISK",
            Tag::Speed => "SPEED",
            Tag::Both => "BOTH",
        }
    }
}

/// Which config file a TOML change edits.
#[derive(Clone, Copy, PartialEq, Eq, Debug, Structural)]
pub enum Scope {
    Global,
    ProjectCargo,
    ProjectConfig,
}

/// Label text of a scope.
pub open spec fn scope_label(s: Scope) -> Seq<char> {
    match s {
        Scope::Global => "~/.cargo/config.toml"@,
        Scope::ProjectCargo => "./Cargo.toml"@,
        Scope::ProjectConfig => "./.cargo/config.toml"@,
    }
}

impl Scope {
    /// The file the scope stands for, as shown to the user.
    pub fn label(self) -> (r: &'static str)
        ensures
            r@ == scope_label(self),
    {
        match self {
            Scope::Global => "~/.cargo/config.toml",
            Scope::ProjectCargo => "./Cargo.toml",
            Scope::ProjectConfig => "./.cargo/config.toml",
        }
    }
}

/// The value a TOML operation writes.
#[derive(Clone, Debug)]
pub enum TomlValue {
    Str(String),
    Int(i64),
    Bool(bool),
    /// Append flags to a string array (e.g. build.rustflags), skipping duplicates.
    AppendFlags(Vec<String>),
}

/// Mathematical form of a [`TomlValue`].
pub enum TomlValueView {
    Str(Seq<char>),
    Int(i64),
    Bool(bool),
    AppendFlags(Seq<Seq<char>>),
}

impl View for TomlValue {
    type V = TomlValueView;

    open spec fn view(&self) -> TomlValueView {
        match self {
            TomlValue::Str(s) => TomlValueView::Str(s@),
            TomlValue::Int(n) => TomlValueView::Int(*n),
            TomlValue::Bool(b) => TomlValueView::Bool(*b),
            TomlValue::AppendFlags(f) => TomlValueView::AppendFlags(views(f@)),
        }
    }
}

/// One key path of a config file and the value to put there.
#[derive(Clone, Debug)]
pub struct TomlOp {
    pub path: Vec<String>,
    pub value: TomlValue,
}

/// Mathematical form of a [`TomlOp`].
pub struct TomlOpView {
    pub path: Seq<Seq<char>>,
    pub value: TomlValueView,
}

impl View for TomlOp {
    type V = TomlOpView;

    open spec fn view(&self) -> TomlOpView {
        TomlOpView { path: views(self.path@), value: self.value@ }
    }
}

/// Views of `&str` slices.
pub open spec fn str_views(v: Seq<&str>) -> Seq<Seq<char>> {
    v.map_values(|s: &str| s@)
}

impl TomlOp {
    /// An operation on the key path `path` (outermost table first).
    pub fn new(path: &[&str], value: TomlValue) -> (r: TomlOp)
        ensures
            r@.path == str_views(path@),
            r.value == value,
    {
        let mut out: Vec<String> = Vec::new();
        let n = path.len();
        let mut i: usize = 0;
        while i < n
            invariant
                n == path@.len(),
                i <= n,
                views(out@) == str_views(path@).subrange(0, i as int),
            decreases n - i,
        {
            let item = String::from_str(path[i]);
            let ghost before = out@;
            out.push(item);
            proof {
                assert(out@ == before.push(item));
                assert(views(out@).drop_last() =~= views(before));
                assert(views(out@) =~= str_views(path@).subrange(0, i + 1));
            }
            i = i + 1;
        }
        proof {
            assert(str_views(path@).subrange(0, n as int) =~= str_views(path@));
        }
        TomlOp { path: out, value }
    }
}

/// A set of operations on one config file.
#[derive(Clone, Debug)]
pub struct TomlChange {
    pub scope: Scope,
    pub ops: Vec<TomlOp>,
}

/// A tool to install with cargo.
#[derive(Clone, Debug)]
pub struct InstallSpec {
    pub crate_name: String,
    pub bin_name: String,
}

/// A program to run, with its arguments and working directory.
#[derive(Clone, Debug)]
pub struct RunSpec {
    pub program: String,
    pub args: Vec<String>,
    pub cwd: Option<String>,
}

/// Each part preceded by `sep`, all concatenated.
pub open spec fn prefixed(parts: Seq<Seq<char>>, sep: Seq<char>) -> Seq<char>
    decreases parts.len(),
{
    if parts.len() == 0 {
        seq![]
    } else {
        prefixed(parts.drop_last(), sep) + sep + parts.last()
    }
}

/// The command line of a run: program and arguments separated by single spaces.
pub open spec fn run_display(program: Seq<char>, args: Seq<Seq<char>>) -> Seq<char> {
    program + prefixed(args, " "@)
}

impl RunSpec {
    /// The command line as one string.
    pub fn display(&self) -> (r: String)
        ensures
            r@ == run_display(self.program@, views(self.args@)),
    {
        let mut out = self.program.clone();
        let n = self.args.len();
        let mut i: usize = 0;
        while i < n
            invariant
                n == self.args@.len(),
                i <= n,
                out@ == self.program@ + prefixed(views(self.args@).subrange(0, i as int), " "@),
            decreases n - i,
        {
            proof {
                assert(views(self.args@).subrange(0, i + 1).drop_last() =~= views(
                    self.args@,
                ).subrange(0, i as int));
            }
            out.append(" ");
            out.append(self.args[i].as_str());
            proof {
                assert(out@ =~= self.program@ + prefixed(
                    views(self.args@).subrange(0, i + 1),
                    " "@,
                ));
            }
            i = i + 1;
        }
        proof {
            assert(views(self.args@).subrange(0, n as int) =~= views(self.args@));
        }
        out
    }
}

/// A cargo-sweep run whose target directory the wizard resolves interactively: the
/// user picks one of `candidates` (the project dir up to the home dir) at accept
/// time, so one suggestion can sweep a single repo or a whole tree.
#[derive(Clone, Debug)]
pub struct SweepSpec {
    pub candidates: Vec<String>,
    pub time_days: u32,
}

impl SweepSpec {
    /// The base command, without the directory (resolved interactively at accept time).
    pub fn display(&self) -> (r: String)
        ensures
            r@ == "cargo sweep --time "@ + decimal(self.time_days as nat),
    {
        let s = String::from_str("cargo sweep --time ");
        s.concat(decimal_string(self.time_days as u64).as_str())
    }
}

/// A delete-the-leftover-targets run, offered only once `build.target-dir` is set so
/// the scattered per-project `target/` dirs are redundant. The user picks a directory
/// from `candidates` at accept time; `protected` is the configured central target
/// dir, never deleted even if it falls inside the chosen scope.
#[derive(Clone, Debug)]
pub struct PurgeSpec {
    pub candidates: Vec<String>,
    pub protected: Option<String>,
}

impl PurgeSpec {
    /// One-line label for the doctor's read-only maintenance listing.
    pub fn display(&self) -> (r: String)
        ensures
            r@ == "delete leftover per-project target/ dirs"@,
    {
        String::from_str("delete leftover per-project target/ dirs")
    }
}

/// What accepting a suggestion does.
#[derive(Clone, Debug)]
pub enum Action {
    Toml(TomlChange),
    Install(InstallSpec),
    Sweep(SweepSpec),
    Purge(PurgeSpec),
}

/// Mathematical form of a [`TomlChange`].
pub struct TomlChangeView {
    pub scope: Scope,
    pub ops: Seq<TomlOpView>,
}

impl View for TomlChange {
    type V = TomlChangeView;

    open spec fn view(&self) -> TomlChangeView {
        TomlChangeView { scope: self.scope, ops: self.ops@.map_values(|o: TomlOp| o@) }
    }
}

/// Mathematical form of an [`InstallSpec`].
pub struct InstallSpecView {
    pub crate_name: Seq<char>,
    pub bin_name: Seq<char>,
}

impl View for InstallSpec {
    type V = InstallSpecView;

    open spec fn view(&self) -> InstallSpecView {
        InstallSpecView { crate_name: self.crate_name@, bin_name: self.bin_name@ }
    }
}

/// The view of an optional string.
pub open spec fn opt_view(o: Option<String>) -> Option<Seq<char>> {
    match o {
        Some(s) => Some(s@),
        None => None,
    }
}

/// Mathematical form of a [`SweepSpec`].
pub struct SweepSpecView {
    pub candidates: Seq<Seq<char>>,
    pub time_days: u32,
}

impl View for SweepSpec {
    type V = SweepSpecView;

    open spec fn view(&self) -> SweepSpecView {
        SweepSpecView { candidates: views(self.candidates@), time_days: self.time_days }
    }
}

/// Mathematical form of a [`PurgeSpec`].
pub struct PurgeSpecView {
    pub candidates: Seq<Seq<char>>,
    pub protected: Option<Seq<char>>,
}

impl View for PurgeSpec {
    type V = PurgeSpecView;

    open spec fn view(&self) -> PurgeSpecView {
        PurgeSpecView { candidates: views(self.candidates@), protected: opt_view(self.protected) }
    }
}

/// Mathematical form of an [`Action`].
pub enum ActionView {
    Toml(TomlChangeView),
    Install(InstallSpecView),
    Sweep(SweepSpecView),
    Purge(PurgeSpecView),
}

impl View for Action {
    type V = ActionView;

    open spec fn view(&self) -> ActionView {
        match self {
            Action::Toml(c) => ActionView::Toml(c@),
            Action::Install(i) => ActionView::Install(i@),
            Action::Sweep(s) => ActionView::Sweep(s@),
            Action::Purge(p) => ActionView::Purge(p@),
        }
    }
}

/// Mathematical form of a [`Suggestion`].
pub struct SuggestionView {
    pub title: Seq<char>,
    pub tag: Tag,
    pub why: Seq<char>,
    pub action: ActionView,
}

impl View for Suggestion {
    type V = SuggestionView;

    open spec fn view(&self) -> SuggestionView {
        SuggestionView { title: self.title@, tag: self.tag, why: self.why@, action: self.action@ }
    }
}

/// The views of a list of suggestions.
pub open spec fn sug_views(s: Seq<Suggestion>) -> Seq<SuggestionView> {
    s.map_values(|x: Suggestion| x@)
}

/// Whether a suggestion still has something to do.
#[derive(Clone, Copy, PartialEq, Eq, Debug, Structural)]
pub enum Status {
    Pending,
    AlreadyApplied,
}

/// One card of the wizard.
#[derive(Clone, Debug)]
pub struct Suggestion {
    pub title: String,
    pub tag: Tag,
    pub why: String,
    pub action: Action,
}

} // verus!
