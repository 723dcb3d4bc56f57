//! The `doctor` audit: which catalog optimizations are already applied. Sweeps and
//! purges are recurring maintenance, not a state that can be detected as done, so they
//! never count toward the verdict; the verdict passes when every other item is applied.
use vstd::prelude::*;
use crate::status::{status_of, status_spec, sug_well_formed, ConfigTexts};
use crate::suggestion::{Action, Status, Suggestion};
use crate::system::{has_tool, ToolSet};
use crate::text::{decimal, decimal_string};

verus! {

/// The result of the audit.
#[derive(Clone, Debug)]
pub struct Checkup {
    /// The items whose state can be checked, in catalog order.
    pub checkable: Vec<Suggestion>,
    /// For each checkable item, whether it is already applied.
    pub applied: Vec<bool>,
    /// The recurring maintenance items, in catalog order.
    pub maintenance: Vec<Suggestion>,
    /// How many checkable items are still pending.
    pub pending: usize,
}

/// A recurring maintenance item (a sweep or a purge).
pub open spec fn is_maintenance(s: Suggestion) -> bool {
    match s.action {
        Action::Sweep(_) => true,
        Action::Purge(_) => true,
        _ => false,
    }
}

/// The items of `all` that are maintenance (`m`) or checkable (`!m`), in order.
pub open spec fn of_kind(all: Seq<Suggestion>, m: bool) -> Seq<Suggestion>
    decreases all.len(),
{
    if all.len() == 0 {
        seq![]
    } else {
        let init = of_kind(all.drop_last(), m);
        if is_maintenance(all.last()) == m {
            init.push(all.last())
        } else {
            init
        }
    }
}

/// The number of `false` entries.
pub open spec fn count_false(v: Seq<bool>) -> nat
    decreases v.len(),
{
    if v.len() == 0 {
        0
    } else {
        count_false(v.drop_last()) + if v.last() {
            0nat
        } else {
            1nat
        }
    }
}

proof fn lemma_of_kind_len(all: Seq<Suggestion>, m: bool)
    ensures
        of_kind(all, m).len() <= all.len(),
    decreases all.len(),
{
    if all.len() > 0 {
        lemma_of_kind_len(all.drop_last(), m);
    }
}

proof fn lemma_count_false_len(v: Seq<bool>)
    ensures
        count_false(v) <= v.len(),
    decreases v.len(),
{
    if v.len() > 0 {
        lemma_count_false_len(v.drop_last());
    }
}

/// Only sweeps and purges are maintenance: a TOML change or an install is always checked.
pub proof fn lemma_maintenance_kinds(s: Suggestion)
    ensures
        is_maintenance(s) <==> (s.action is Sweep || s.action is Purge),
        s.action is Toml ==> !is_maintenance(s),
        s.action is Install ==> !is_maintenance(s),
{
}

/// Every item that is not a sweep or a purge is among the checkable items, in the
/// catalog's order.
pub proof fn lemma_checked_items(all: Seq<Suggestion>, i: int)
    requires
        0 <= i < all.len(),
        !(all[i].action is Sweep || all[i].action is Purge),
    ensures
        of_kind(all, false).contains(all[i]),
    decreases all.len(),
{
    if i == all.len() - 1 {
        let init = of_kind(all.drop_last(), false);
        assert(of_kind(all, false) == init.push(all.last()));
        assert(of_kind(all, false)[init.len() as int] == all[i]);
    } else {
        assert(all.drop_last()[i] == all[i]);
        lemma_checked_items(all.drop_last(), i);
        let init = of_kind(all.drop_last(), false);
        let j = choose|j: int| 0 <= j < init.len() && init[j] == all[i];
        if !is_maintenance(all.last()) {
            assert(of_kind(all, false) == init.push(all.last()));
            assert(of_kind(all, false)[j] == all[i]);
        }
    }
}

/// Each item of `of_kind(all, m)` is an item of `all` of that kind.
proof fn lemma_of_kind_member(all: Seq<Suggestion>, m: bool, j: int)
    requires
        0 <= j < of_kind(all, m).len(),
    ensures
        exists|i: int| 0 <= i < all.len() && #[trigger] all[i] == of_kind(all, m)[j] && is_maintenance(all[i]) == m,
    decreases all.len(),
{
    let init = of_kind(all.drop_last(), m);
    lemma_of_kind_len(all.drop_last(), m);
    if j < init.len() {
        lemma_of_kind_member(all.drop_last(), m, j);
        let i = choose|i: int| 0 <= i < all.drop_last().len() && #[trigger] all.drop_last()[i] == init[j] && is_maintenance(all.drop_last()[i]) == m;
        assert(all[i] == all.drop_last()[i]);
        if is_maintenance(all.last()) == m {
            assert(of_kind(all, m) == init.push(all.last()));
        }
    } else {
        assert(of_kind(all, m) == init.push(all.last()));
        assert(all[all.len() - 1] == all.last());
    }
}

/// A count of `false` entries is positive when one entry is `false`.
proof fn lemma_count_false_pos(v: Seq<bool>, j: int)
    requires
        0 <= j < v.len(),
        !v[j],
    ensures
        count_false(v) > 0,
    decreases v.len(),
{
    if j < v.len() - 1 {
        assert(v.drop_last()[j] == v[j]);
        lemma_count_false_pos(v.drop_last(), j);
    }
}

/// Every catalog item is either maintenance or checkable.
pub proof fn lemma_kinds_partition(all: Seq<Suggestion>)
    ensures
        of_kind(all, true).len() + of_kind(all, false).len() == all.len(),
    decreases all.len(),
{
    if all.len() > 0 {
        lemma_kinds_partition(all.drop_last());
    }
}

/// Nothing is pending exactly when every checkable item is applied.
pub proof fn lemma_none_pending(applied: Seq<bool>)
    ensures
        count_false(applied) == 0 <==> forall|i: int| 0 <= i < applied.len() ==> #[trigger] applied[i],
    decreases applied.len(),
{
    if applied.len() > 0 {
        let init = applied.drop_last();
        lemma_none_pending(init);
        lemma_count_false_len(init);
        if count_false(applied) == 0 {
            assert forall|i: int| 0 <= i < applied.len() implies #[trigger] applied[i] by {
                if i < applied.len() - 1 {
                    assert(init[i] == applied[i]);
                }
            }
        }
        if forall|i: int| 0 <= i < applied.len() ==> #[trigger] applied[i] {
            assert(applied[applied.len() - 1]);
            assert forall|i: int| 0 <= i < init.len() implies #[trigger] init[i] by {
                assert(init[i] == applied[i]);
            }
        }
    }
}

/// Audits the catalog `all` against the config texts and the tools found. Nothing is
/// pending exactly when every item that is not a sweep or a purge is already applied.
pub fn checkup(all: Vec<Suggestion>, configs: &ConfigTexts, tools: &ToolSet) -> (c: Checkup)
    requires
        forall|i: int| 0 <= i < all@.len() ==> sug_well_formed(#[trigger] all@[i]),
    ensures
        c.checkable@ == of_kind(all@, false),
        c.maintenance@ == of_kind(all@, true),
        c.applied@.len() == c.checkable@.len(),
        forall|i: int|
            0 <= i < c.applied@.len() ==> #[trigger] c.applied@[i] == (status_spec(
                c.checkable@[i],
                *configs,
                *tools,
            ) == Status::AlreadyApplied),
        c.pending == count_false(c.applied@),
        c.pending <= c.checkable@.len(),
        forall|i: int|
            0 <= i < all@.len() && (#[trigger] all@[i]).action is Install && !has_tool(
                *tools,
                all@[i].action->Install_0.bin_name@,
            ) ==> c.pending > 0,
        c.pending == 0 <==> forall|i: int|
            0 <= i < all@.len() && !((#[trigger] all@[i]).action is Sweep || all@[i].action is Purge)
                ==> status_spec(all@[i], *configs, *tools) == Status::AlreadyApplied,
{
    let ghost whole = all@;
    let n = all.len();
    let mut rest = all;
    let mut checkable: Vec<Suggestion> = Vec::new();
    let mut maintenance: Vec<Suggestion> = Vec::new();
    let mut applied: Vec<bool> = Vec::new();
    let mut pending: usize = 0;
    let mut i: usize = 0;
    proof {
        assert(rest@ =~= whole.subrange(0, n as int));
    }
    while i < n
        invariant
            n == whole.len(),
            i <= n,
            rest@ == whole.subrange(i as int, n as int),
            forall|k: int| 0 <= k < whole.len() ==> sug_well_formed(#[trigger] whole[k]),
            checkable@ == of_kind(whole.subrange(0, i as int), false),
            maintenance@ == of_kind(whole.subrange(0, i as int), true),
            applied@.len() == checkable@.len(),
            forall|k: int|
                0 <= k < applied@.len() ==> #[trigger] applied@[k] == (status_spec(
                    checkable@[k],
                    *configs,
                    *tools,
                ) == Status::AlreadyApplied),
            pending == count_false(applied@),
            checkable@.len() <= i,
        decreases n - i,
    {
        let s = rest.remove(0);
        proof {
            assert(s == whole[i as int]);
            assert(rest@ =~= whole.subrange(i + 1, n as int));
            assert(whole.subrange(0, i + 1).drop_last() =~= whole.subrange(0, i as int));
            assert(whole.subrange(0, i + 1).last() == whole[i as int]);
            lemma_count_false_len(applied@);
        }
        let maint = match &s.action {
            Action::Sweep(_) => true,
            Action::Purge(_) => true,
            _ => false,
        };
        if maint {
            maintenance.push(s);
        } else {
            let done = status_of(&s, configs, tools) == Status::AlreadyApplied;
            let ghost before = applied@;
            checkable.push(s);
            applied.push(done);
            proof {
                assert(applied@.drop_last() =~= before);
            }
            if !done {
                pending = pending + 1;
            }
        }
        i = i + 1;
    }
    proof {
        assert(whole.subrange(0, n as int) =~= whole);
        lemma_count_false_len(applied@);
        assert forall|i: int|
            0 <= i < all@.len() && (#[trigger] all@[i]).action is Install && !has_tool(
                *tools,
                all@[i].action->Install_0.bin_name@,
            ) implies pending > 0 by {
            lemma_checked_items(whole, i);
            let j = choose|j: int| 0 <= j < checkable@.len() && checkable@[j] == whole[i];
            assert(status_spec(checkable@[j], *configs, *tools) == Status::Pending);
            assert(!applied@[j]);
            lemma_count_false_pos(applied@, j);
        }
        lemma_none_pending(applied@);
        if pending == 0 {
            assert forall|i: int|
                0 <= i < all@.len() && !((#[trigger] all@[i]).action is Sweep || all@[i].action is Purge)
                    implies status_spec(all@[i], *configs, *tools) == Status::AlreadyApplied by {
                lemma_checked_items(whole, i);
                let j = choose|j: int| 0 <= j < checkable@.len() && checkable@[j] == whole[i];
                assert(applied@[j]);
            }
        }
        if forall|i: int|
            0 <= i < all@.len() && !((#[trigger] all@[i]).action is Sweep || all@[i].action is Purge)
                ==> status_spec(all@[i], *configs, *tools) == Status::AlreadyApplied {
            assert forall|j: int| 0 <= j < applied@.len() implies #[trigger] applied@[j] by {
                lemma_of_kind_member(whole, false, j);
            }
        }
    }
    Checkup { checkable, applied, maintenance, pending }
}

/// The audit passes when nothing checkable is pending.
pub fn passed(c: &Checkup) -> (r: bool)
    ensures
        r == (c.pending == 0),
{
    c.pending == 0
}

/// The closing line of the audit.
pub open spec fn verdict_text(total: nat, pending: nat) -> Seq<char> {
    if pending == 0 {
        "All "@ + decimal(total) + " optimizations applied; nothing to do."@
    } else {
        decimal((total - pending) as nat) + "/"@ + decimal(total) + " applied, "@ + decimal(pending)
            + " pending. Run `frd` to apply them."@
    }
}

/// The closing line for `pending` pending items out of `total`.
pub fn verdict_line(total: usize, pending: usize) -> (r: String)
    requires
        pending <= total,
    ensures
        r@ == verdict_text(total as nat, pending as nat),
{
    if pending == 0 {
        let s = String::from_str("All ").concat(decimal_string(total as u64).as_str());
        s.concat(" optimizations applied; nothing to do.")
    } else {
        let s = decimal_string((total - pending) as u64);
        let s = s.concat("/");
        let s = s.concat(decimal_string(total as u64).as_str());
        let s = s.concat(" applied, ");
        let s = s.concat(decimal_string(pending as u64).as_str());
        s.concat(" pending. Run `frd` to apply them.")
    }
}

} // verus!
