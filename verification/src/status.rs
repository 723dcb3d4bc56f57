//! Whether a suggestion still has work to do, from the config texts and the tools that
//! were found.
use vstd::prelude::*;
use crate::suggestion::{sug_views, Action, ActionView, Scope, Status, Suggestion, SuggestionView};
use crate::system::{has_tool, ToolSet};
use crate::toml_ops::{applied, is_applied, ops_have_paths, target_path_of};
use crate::system::SystemReport;

verus! {

/// The texts of the three config files as read from disk (`None` when unreadable).
#[derive(Clone, Debug)]
pub struct ConfigTexts {
    /// `~/.cargo/config.toml` (or `$CARGO_HOME/config.toml`).
    pub global: Option<String>,
    /// `./Cargo.toml`.
    pub cargo_toml: Option<String>,
    /// `./.cargo/config.toml`.
    pub cargo_config: Option<String>,
}

/// The text of the file a scope edits.
pub open spec fn text_of(c: ConfigTexts, scope: Scope) -> Option<String> {
    match scope {
        Scope::Global => c.global,
        Scope::ProjectCargo => c.cargo_toml,
        Scope::ProjectConfig => c.cargo_config,
    }
}

impl ConfigTexts {
    /// The text of the file that `scope` edits.
    pub fn text_for(&self, scope: Scope) -> (r: &Option<String>)
        ensures
            *r == text_of(*self, scope),
    {
        match scope {
            Scope::Global => &self.global,
            Scope::ProjectCargo => &self.cargo_toml,
            Scope::ProjectConfig => &self.cargo_config,
        }
    }
}

/// Every operation of a TOML suggestion names at least one key.
pub open spec fn sug_well_formed(s: Suggestion) -> bool {
    match s.action {
        Action::Toml(c) => ops_have_paths(c.ops@),
        _ => true,
    }
}

/// Every operation of a TOML suggestion view names at least one key.
pub open spec fn view_well_formed(s: SuggestionView) -> bool {
    match s.action {
        ActionView::Toml(c) => forall|i: int| 0 <= i < c.ops.len() ==> (#[trigger] c.ops[i]).path.len() > 0,
        _ => true,
    }
}

/// The status of a suggestion: a TOML change is done when the file already holds it, an
/// install when the tool was found; sweeps and purges are recurring and always pending.
pub open spec fn status_spec(s: Suggestion, c: ConfigTexts, tools: ToolSet) -> Status {
    match s.action {
        Action::Toml(ch) => if applied(text_of(c, ch.scope), ch.ops@) {
            Status::AlreadyApplied
        } else {
            Status::Pending
        },
        Action::Install(spec) => if has_tool(tools, spec.bin_name@) {
            Status::AlreadyApplied
        } else {
            Status::Pending
        },
        Action::Sweep(_) => Status::Pending,
        Action::Purge(_) => Status::Pending,
    }
}

/// Whether `s` is already applied or still pending.
pub fn status_of(s: &Suggestion, configs: &ConfigTexts, tools: &ToolSet) -> (r: Status)
    requires
        sug_well_formed(*s),
    ensures
        r == status_spec(*s, *configs, *tools),
{
    match &s.action {
        Action::Toml(c) => {
            if is_applied(configs.text_for(c.scope), c) {
                Status::AlreadyApplied
            } else {
                Status::Pending
            }
        },
        Action::Install(spec) => {
            if tools.has(spec.bin_name.as_str()) {
                Status::AlreadyApplied
            } else {
                Status::Pending
            }
        },
        Action::Sweep(_) => Status::Pending,
        Action::Purge(_) => Status::Pending,
    }
}

/// A TOML suggestion counts as already applied exactly when the text of the file its
/// scope edits (the file `plan` writes, `target_path_of`) holds every operation:
/// `ConfigTexts::global` for the global config, `cargo_toml` for `./Cargo.toml`, and
/// `cargo_config` for `./.cargo/config.toml`. An install is applied exactly when its tool
/// was found; a sweep or purge is never applied.
pub proof fn lemma_status_reads_edited_file(s: Suggestion, c: ConfigTexts, tools: ToolSet, r: SystemReport)
    ensures
        s.action matches Action::Toml(ch) ==> {
            &&& ch.scope == Scope::Global ==> target_path_of(r, ch.scope) == r.project.global_cargo_config@
                && (status_spec(s, c, tools) == Status::AlreadyApplied <==> applied(c.global, ch.ops@))
            &&& ch.scope == Scope::ProjectCargo ==> target_path_of(r, ch.scope) == r.project.cargo_toml@
                && (status_spec(s, c, tools) == Status::AlreadyApplied <==> applied(c.cargo_toml, ch.ops@))
            &&& ch.scope == Scope::ProjectConfig ==> target_path_of(r, ch.scope) == r.project.cargo_config@
                && (status_spec(s, c, tools) == Status::AlreadyApplied <==> applied(
                c.cargo_config,
                ch.ops@,
            ))
        },
        s.action matches Action::Install(spec) ==> (status_spec(s, c, tools) == Status::AlreadyApplied
            <==> has_tool(tools, spec.bin_name@)),
        (s.action is Sweep || s.action is Purge) ==> status_spec(s, c, tools) == Status::Pending,
{
}

/// The suggestions of `all` whose status is `want`, in order.
pub open spec fn with_status(all: Seq<Suggestion>, c: ConfigTexts, tools: ToolSet, want: Status) -> Seq<Suggestion>
    decreases all.len(),
{
    if all.len() == 0 {
        seq![]
    } else {
        let init = with_status(all.drop_last(), c, tools, want);
        if status_spec(all.last(), c, tools) == want {
            init.push(all.last())
        } else {
            init
        }
    }
}

/// Every suggestion is either pending or already applied, never both: the two parts of
/// a split together hold as many suggestions as the whole.
pub proof fn lemma_split_partitions(all: Seq<Suggestion>, c: ConfigTexts, tools: ToolSet)
    ensures
        with_status(all, c, tools, Status::Pending).len() + with_status(all, c, tools, Status::AlreadyApplied).len()
            == all.len(),
    decreases all.len(),
{
    if all.len() > 0 {
        lemma_split_partitions(all.drop_last(), c, tools);
    }
}

proof fn lemma_with_status_len(all: Seq<Suggestion>, c: ConfigTexts, tools: ToolSet, want: Status)
    ensures
        with_status(all, c, tools, want).len() <= all.len(),
    decreases all.len(),
{
    if all.len() > 0 {
        lemma_with_status_len(all.drop_last(), c, tools, want);
    }
}

/// Each part of a split holds exactly the suggestions of that status: every item of the
/// part is an item of `all` with that status, and every item of `all` with that status is
/// in the part.
pub proof fn lemma_split_members(all: Seq<Suggestion>, c: ConfigTexts, tools: ToolSet, want: Status)
    ensures
        forall|j: int|
            0 <= j < with_status(all, c, tools, want).len() ==> status_spec(
                #[trigger] with_status(all, c, tools, want)[j],
                c,
                tools,
            ) == want && all.contains(with_status(all, c, tools, want)[j]),
        forall|i: int|
            0 <= i < all.len() && status_spec(#[trigger] all[i], c, tools) == want ==> with_status(
                all,
                c,
                tools,
                want,
            ).contains(all[i]),
    decreases all.len(),
{
    if all.len() > 0 {
        let init_all = all.drop_last();
        let init = with_status(init_all, c, tools, want);
        let w = with_status(all, c, tools, want);
        lemma_split_members(init_all, c, tools, want);
        lemma_with_status_len(init_all, c, tools, want);
        if status_spec(all.last(), c, tools) == want {
            assert(w == init.push(all.last()));
        } else {
            assert(w == init);
        }
        assert forall|j: int| 0 <= j < w.len() implies status_spec(#[trigger] w[j], c, tools) == want && all.contains(
            w[j],
        ) by {
            if j < init.len() {
                assert(w[j] == init[j]);
                let k = choose|k: int| 0 <= k < init_all.len() && init_all[k] == init[j];
                assert(all[k] == init_all[k]);
            } else {
                assert(w[j] == all.last());
                assert(all[all.len() - 1] == all.last());
            }
        }
        assert forall|i: int| 0 <= i < all.len() && status_spec(#[trigger] all[i], c, tools) == want implies w.contains(
            all[i],
        ) by {
            if i < all.len() - 1 {
                assert(init_all[i] == all[i]);
                let k = choose|k: int| 0 <= k < init.len() && init[k] == init_all[i];
                assert(w[k] == init[k]);
            } else {
                assert(all[i] == all.last());
                assert(w[init.len() as int] == all.last());
            }
        }
    }
}

/// Splits `all` into the pending suggestions and those already applied, each in order.
pub fn split_by_status(all: Vec<Suggestion>, configs: &ConfigTexts, tools: &ToolSet) -> (r: (
    Vec<Suggestion>,
    Vec<Suggestion>,
))
    requires
        forall|i: int| 0 <= i < all@.len() ==> sug_well_formed(#[trigger] all@[i]),
    ensures
        r.0@ == with_status(all@, *configs, *tools, Status::Pending),
        r.1@ == with_status(all@, *configs, *tools, Status::AlreadyApplied),
{
    let mut pending: Vec<Suggestion> = Vec::new();
    let mut done: Vec<Suggestion> = Vec::new();
    let ghost whole = all@;
    let mut rest = all;
    let n = rest.len();
    let mut i: usize = 0;
    proof {
        assert(rest@ =~= whole.subrange(0, n as int));
    }
    while i < n
        invariant
            n == whole.len(),
            i <= n,
            rest@ == whole.subrange(i as int, n as int),
            forall|k: int| 0 <= k < whole.len() ==> sug_well_formed(#[trigger] whole[k]),
            pending@ == with_status(whole.subrange(0, i as int), *configs, *tools, Status::Pending),
            done@ == with_status(whole.subrange(0, i as int), *configs, *tools, Status::AlreadyApplied),
        decreases n - i,
    {
        let s = rest.remove(0);
        proof {
            assert(s == whole[i as int]);
            assert(rest@ =~= whole.subrange(i + 1, n as int));
            assert(whole.subrange(0, i + 1).drop_last() =~= whole.subrange(0, i as int));
            assert(whole.subrange(0, i + 1).last() == whole[i as int]);
        }
        if status_of(&s, configs, tools) == Status::Pending {
            pending.push(s);
        } else {
            done.push(s);
        }
        i = i + 1;
    }
    proof {
        assert(whole.subrange(0, n as int) =~= whole);
    }
    (pending, done)
}

} // verus!
