//! Mathematical model of a TOML document as the editor reads and writes it, and the
//! laws that the editor's operations obey.
//!
//! A table is modelled by its entries: a map from every key path below it (relative,
//! at least one key long) to what sits there. Only header tables (`[a.b]`) are walked
//! into; inline tables, arrays of tables, floats and dates are `Other`. An item (what
//! a table holds under one key) is modelled the same way, with the empty path naming
//! the item itself.
use vstd::prelude::*;
use crate::suggestion::{TomlOpView, TomlValueView};

verus! {

/// One element of an array, as far as the editor reads it.
pub enum ArrayElem {
    /// A string value.
    Str(Seq<char>),
    /// A value of another kind.
    NonStr,
    /// A slot that holds no value.
    Hole,
}

/// What sits at one key path.
pub enum TomlNode {
    /// A header table; `implicit` tables print no header of their own when they hold no
    /// values (`[a]` above `[a.b]`).
    Table { implicit: bool },
    Str(Seq<char>),
    Int(i64),
    Bool(bool),
    Array(Seq<ArrayElem>),
    Other,
}

/// Entries of a table or an item: key path to node.
pub type Entries = Map<Seq<Seq<char>>, TomlNode>;

/// The one-key path `[k]`.
pub open spec fn key1(k: Seq<char>) -> Seq<Seq<char>> {
    seq![k]
}

/// The item stored under key `k` of a table with entries `m`.
pub open spec fn under(m: Entries, k: Seq<char>) -> Entries {
    Map::new(
        |q: Seq<Seq<char>>| m.dom().contains(seq![k] + q),
        |q: Seq<Seq<char>>| m[seq![k] + q],
    )
}

/// `m` with whatever stood under key `k` replaced by the item `x`.
pub open spec fn graft(m: Entries, k: Seq<char>, x: Entries) -> Entries {
    Map::new(
        |p: Seq<Seq<char>>|
            if p.len() > 0 && p[0] == k {
                x.dom().contains(p.drop_first())
            } else {
                m.dom().contains(p)
            },
        |p: Seq<Seq<char>>|
            if p.len() > 0 && p[0] == k {
                x[p.drop_first()]
            } else {
                m[p]
            },
    )
}

/// An item that is a single node.
pub open spec fn leaf(n: TomlNode) -> Entries {
    Map::<Seq<Seq<char>>, TomlNode>::empty().insert(seq![], n)
}

/// The item holding a table with entries `t`, implicit or not.
pub open spec fn as_item(t: Entries, implicit: bool) -> Entries {
    t.insert(seq![], TomlNode::Table { implicit })
}

/// Whether the node is an implicit table.
pub open spec fn is_implicit(n: TomlNode) -> bool {
    n matches TomlNode::Table { implicit } && implicit
}

/// How the table under the first key of `tables` is marked after an operation through
/// it: the table that holds the operation's key is explicit (its header is printed); a
/// table above it keeps its mark if it existed and is created implicit otherwise (no
/// empty header such as `[profile]` is printed).
pub open spec fn table_flag(m: Entries, tables: Seq<Seq<char>>) -> bool
    recommends
        tables.len() > 0,
{
    if tables.len() == 1 {
        false
    } else if m.dom().contains(key1(tables[0])) {
        is_implicit(m[key1(tables[0])])
    } else {
        true
    }
}

/// The entries of the table that the item `x` holds.
pub open spec fn as_table(x: Entries) -> Entries {
    x.remove(seq![])
}

/// Whether the item `x` is a table.
pub open spec fn is_table_item(x: Entries) -> bool {
    x.dom().contains(seq![]) && x[seq![]] is Table
}

/// The node found by walking `rest` down from the item `x`, through tables only.
pub open spec fn lookup_item(x: Entries, rest: Seq<Seq<char>>) -> Option<TomlNode>
    decreases rest.len(),
{
    if rest.len() == 0 {
        if x.dom().contains(seq![]) {
            Some(x[seq![]])
        } else {
            None
        }
    } else if is_table_item(x) {
        lookup_item(under(x, rest[0]), rest.drop_first())
    } else {
        None
    }
}

/// The node at the non-empty `path` of a table with entries `m`.
pub open spec fn lookup(m: Entries, path: Seq<Seq<char>>) -> Option<TomlNode>
    recommends
        path.len() > 0,
{
    lookup_item(under(m, path[0]), path.drop_first())
}

/// The strings of an array, in order.
pub open spec fn strs(es: Seq<ArrayElem>) -> Seq<Seq<char>>
    decreases es.len(),
{
    if es.len() == 0 {
        seq![]
    } else {
        let init = strs(es.drop_last());
        match es.last() {
            ArrayElem::Str(s) => init.push(s),
            _ => init,
        }
    }
}

/// An array holding exactly the strings `ss`.
pub open spec fn str_elems(ss: Seq<Seq<char>>) -> Seq<ArrayElem> {
    ss.map_values(|s: Seq<char>| ArrayElem::Str(s))
}

/// The strings of the array under `key` of `m`, or none when `key` holds no array.
pub open spec fn existing_flags(m: Entries, key: Seq<char>) -> Seq<Seq<char>> {
    if m.dom().contains(key1(key)) {
        match m[key1(key)] {
            TomlNode::Array(es) => strs(es),
            _ => seq![],
        }
    } else {
        seq![]
    }
}

/// The flags of `flags` to append after `existing`, in order: each flag that is neither
/// in `existing` nor taken earlier from `flags`, so no flag lands twice.
pub open spec fn fresh_flags(existing: Seq<Seq<char>>, flags: Seq<Seq<char>>) -> Seq<Seq<char>>
    decreases flags.len(),
{
    if flags.len() == 0 {
        seq![]
    } else {
        let init = fresh_flags(existing, flags.drop_last());
        if (existing + init).contains(flags.last()) {
            init
        } else {
            init.push(flags.last())
        }
    }
}

/// The flag list after appending `flags` to `existing`.
pub open spec fn appended(existing: Seq<Seq<char>>, flags: Seq<Seq<char>>) -> Seq<Seq<char>> {
    existing + fresh_flags(existing, flags)
}

/// The node written under `key` of a table with entries `m` for the value `v`.
pub open spec fn leaf_node(m: Entries, key: Seq<char>, v: TomlValueView) -> TomlNode {
    match v {
        TomlValueView::Str(s) => TomlNode::Str(s),
        TomlValueView::Int(n) => TomlNode::Int(n),
        TomlValueView::Bool(b) => TomlNode::Bool(b),
        TomlValueView::AppendFlags(f) => TomlNode::Array(
            str_elems(appended(existing_flags(m, key), f)),
        ),
    }
}

/// The table `m` after making sure key `t` holds a table.
pub open spec fn ensure_table(m: Entries, t: Seq<char>) -> Entries {
    if m.dom().contains(key1(t)) {
        m
    } else {
        graft(m, t, leaf(TomlNode::Table { implicit: false }))
    }
}

/// The entries of the table under key `t` once it is ensured.
pub open spec fn inner(m: Entries, t: Seq<char>) -> Entries {
    as_table(under(ensure_table(m, t), t))
}

/// No key on the table path `tables` holds something other than a table.
pub open spec fn no_block(m: Entries, tables: Seq<Seq<char>>) -> bool
    decreases tables.len(),
{
    if tables.len() == 0 {
        true
    } else {
        (m.dom().contains(key1(tables[0])) ==> m[key1(tables[0])] is Table)
            && no_block(inner(m, tables[0]), tables.drop_first())
    }
}

/// The table at the end of the table path `tables`, creating what is missing.
pub open spec fn table_at(m: Entries, tables: Seq<Seq<char>>) -> Entries
    decreases tables.len(),
{
    if tables.len() == 0 {
        m
    } else {
        table_at(inner(m, tables[0]), tables.drop_first())
    }
}

/// The table `m` after writing `v` under `key` of the table at `tables`, creating
/// the tables on the way.
pub open spec fn set_in(m: Entries, tables: Seq<Seq<char>>, key: Seq<char>, v: TomlValueView) -> Entries
    decreases tables.len(),
{
    if tables.len() == 0 {
        graft(m, key, leaf(leaf_node(m, key, v)))
    } else {
        let t = tables[0];
        graft(
            ensure_table(m, t),
            t,
            as_item(set_in(inner(m, t), tables.drop_first(), key, v), table_flag(m, tables)),
        )
    }
}

/// The table `m` after one operation; an empty path changes nothing.
pub open spec fn set_path(m: Entries, path: Seq<Seq<char>>, v: TomlValueView) -> Entries {
    if path.len() == 0 {
        m
    } else {
        set_in(m, path.drop_last(), path.last(), v)
    }
}

/// The operation on `path` can run on `m` without meeting a non-table on its way.
pub open spec fn path_ok(m: Entries, path: Seq<Seq<char>>) -> bool {
    path.len() == 0 || no_block(m, path.drop_last())
}

/// The table `m` after the operations `ops` in order, or `None` when one meets a
/// non-table on its way.
pub open spec fn apply_ops(m: Entries, ops: Seq<TomlOpView>) -> Option<Entries>
    decreases ops.len(),
{
    if ops.len() == 0 {
        Some(m)
    } else {
        match apply_ops(m, ops.drop_last()) {
            None => None,
            Some(m1) => if path_ok(m1, ops.last().path) {
                Some(set_path(m1, ops.last().path, ops.last().value))
            } else {
                None
            },
        }
    }
}

/// The node `n` already holds what `v` asks for.
pub open spec fn node_satisfies(n: TomlNode, v: TomlValueView) -> bool {
    match v {
        TomlValueView::Str(s) => n == TomlNode::Str(s),
        TomlValueView::Int(i) => n == TomlNode::Int(i),
        TomlValueView::Bool(b) => n == TomlNode::Bool(b),
        TomlValueView::AppendFlags(f) => match n {
            TomlNode::Array(es) => forall|i: int| 0 <= i < f.len() ==> strs(es).contains(#[trigger] f[i]),
            _ => false,
        },
    }
}

/// An array satisfies a flag list when it holds each flag as a string.
pub(crate) proof fn lemma_flags_satisfied(es: Seq<ArrayElem>, f: Seq<Seq<char>>)
    ensures
        node_satisfies(TomlNode::Array(es), TomlValueView::AppendFlags(f)) == (forall|i: int|
            0 <= i < f.len() ==> strs(es).contains(#[trigger] f[i])),
{
    let v = TomlValueView::AppendFlags(f);
    let n = TomlNode::Array(es);
    if node_satisfies(n, v) {
        assert forall|i: int| 0 <= i < f.len() implies strs(es).contains(#[trigger] f[i]) by {
            assert(v->AppendFlags_0[i] == f[i]);
        }
    }
    if forall|i: int| 0 <= i < f.len() ==> strs(es).contains(#[trigger] f[i]) {
        assert(node_satisfies(n, v));
    }
}

/// The operation `op` is already in effect in the table `m`.
pub open spec fn satisfied(m: Entries, op: TomlOpView) -> bool {
    match lookup(m, op.path) {
        Some(n) => node_satisfies(n, op.value),
        None => false,
    }
}

/// The paths `p` and `q` differ at some position both have.
pub open spec fn diverge(p: Seq<Seq<char>>, q: Seq<Seq<char>>) -> bool {
    exists|j: int| 0 <= j < p.len() && j < q.len() && p[j] != q[j]
}

// ---------------------------------------------------------------------------
// Lemmas on paths and entries
// ---------------------------------------------------------------------------
proof fn lemma_cons(k: Seq<char>, q: Seq<Seq<char>>)
    ensures
        (seq![k] + q).len() == q.len() + 1,
        (seq![k] + q)[0] == k,
        (seq![k] + q).drop_first() == q,
{
    assert((seq![k] + q).drop_first() =~= q);
}

proof fn lemma_under_graft_same(m: Entries, k: Seq<char>, x: Entries)
    ensures
        under(graft(m, k, x), k) == x,
{
    assert forall|q: Seq<Seq<char>>| #[trigger] x.dom().contains(q) == graft(m, k, x).dom().contains(seq![k] + q) by {
        lemma_cons(k, q);
    }
    assert forall|q: Seq<Seq<char>>| x.dom().contains(q) implies #[trigger] x[q] == graft(m, k, x)[seq![k] + q] by {
        lemma_cons(k, q);
    }
    assert(under(graft(m, k, x), k) =~= x);
}

proof fn lemma_under_graft_other(m: Entries, k: Seq<char>, x: Entries, k2: Seq<char>)
    requires
        k2 != k,
    ensures
        under(graft(m, k, x), k2) == under(m, k2),
{
    assert forall|q: Seq<Seq<char>>| #[trigger] under(m, k2).dom().contains(q) == under(graft(m, k, x), k2).dom().contains(q) by {
        lemma_cons(k2, q);
    }
    assert forall|q: Seq<Seq<char>>| under(m, k2).dom().contains(q) implies #[trigger] under(m, k2)[q] == under(graft(m, k, x), k2)[q] by {
        lemma_cons(k2, q);
    }
    assert(under(graft(m, k, x), k2) =~= under(m, k2));
}

pub(crate) proof fn lemma_under_root_free(x: Entries, n: TomlNode, k: Seq<char>)
    ensures
        under(x.remove(seq![]), k) == under(x, k),
        under(x.insert(seq![], n), k) == under(x, k),
{
    assert forall|q: Seq<Seq<char>>| #[trigger] (seq![k] + q) != Seq::<Seq<char>>::empty() by {
        lemma_cons(k, q);
    }
    assert(under(x.remove(seq![]), k) =~= under(x, k));
    assert(under(x.insert(seq![], n), k) =~= under(x, k));
}

proof fn lemma_graft_graft(m: Entries, k: Seq<char>, x: Entries, y: Entries)
    ensures
        graft(graft(m, k, x), k, y) == graft(m, k, y),
{
    assert(graft(graft(m, k, x), k, y) =~= graft(m, k, y));
}

proof fn lemma_graft_key(m: Entries, k: Seq<char>, x: Entries)
    ensures
        graft(m, k, x).dom().contains(key1(k)) == x.dom().contains(seq![]),
        x.dom().contains(seq![]) ==> graft(m, k, x)[key1(k)] == x[seq![]],
        graft(m, k, x).dom().contains(seq![]) == m.dom().contains(seq![]),
{
    lemma_cons(k, seq![]);
    assert(seq![k] + Seq::<Seq<char>>::empty() =~= key1(k));
}

pub(crate) proof fn lemma_under_key(m: Entries, k: Seq<char>)
    ensures
        under(m, k).dom().contains(seq![]) == m.dom().contains(key1(k)),
        m.dom().contains(key1(k)) ==> under(m, k)[seq![]] == m[key1(k)],
{
    assert(seq![k] + Seq::<Seq<char>>::empty() =~= key1(k));
}

/// Walking from a table item one key down is walking from its table.
proof fn lemma_lookup_table_item(t: Entries, f: bool, p: Seq<Seq<char>>)
    requires
        p.len() > 0,
    ensures
        lookup_item(as_item(t, f), p) == lookup(t, p),
{
    lemma_under_root_free(t, TomlNode::Table { implicit: f }, p[0]);
}

/// An entries map with nothing in it resolves no path.
proof fn lemma_lookup_empty(r: Seq<Seq<char>>)
    ensures
        lookup_item(Map::<Seq<Seq<char>>, TomlNode>::empty(), r) is None,
{
}

pub(crate) proof fn lemma_ensure_table(m: Entries, t: Seq<char>)
    requires
        m.dom().contains(key1(t)) ==> m[key1(t)] is Table,
    ensures
        ensure_table(m, t).dom().contains(key1(t)),
        ensure_table(m, t)[key1(t)] is Table,
        is_table_item(under(ensure_table(m, t), t)),
        !m.dom().contains(key1(t)) ==> inner(m, t) == Map::<Seq<Seq<char>>, TomlNode>::empty(),
        m.dom().contains(key1(t)) ==> inner(m, t) == as_table(under(m, t)),
{
    if !m.dom().contains(key1(t)) {
        lemma_graft_key(m, t, leaf(TomlNode::Table { implicit: false }));
        lemma_under_graft_same(m, t, leaf(TomlNode::Table { implicit: false }));
        assert(as_table(leaf(TomlNode::Table { implicit: false })) =~= Map::<Seq<Seq<char>>, TomlNode>::empty());
    }
    lemma_under_key(ensure_table(m, t), t);
}

/// No table path is blocked in an empty table.
pub(crate) proof fn lemma_no_block_empty(tables: Seq<Seq<char>>)
    ensures
        no_block(Map::<Seq<Seq<char>>, TomlNode>::empty(), tables),
    decreases tables.len(),
{
    if tables.len() > 0 {
        let e = Map::<Seq<Seq<char>>, TomlNode>::empty();
        lemma_ensure_table(e, tables[0]);
        lemma_no_block_empty(tables.drop_first());
    }
}

// ---------------------------------------------------------------------------
// Lemmas on flag lists
// ---------------------------------------------------------------------------
proof fn lemma_strs_str_elems(ss: Seq<Seq<char>>)
    ensures
        strs(str_elems(ss)) == ss,
    decreases ss.len(),
{
    if ss.len() > 0 {
        assert(str_elems(ss).drop_last() =~= str_elems(ss.drop_last()));
        lemma_strs_str_elems(ss.drop_last());
        assert(ss.drop_last().push(ss.last()) =~= ss);
    }
}

proof fn lemma_fresh_empty(existing: Seq<Seq<char>>, flags: Seq<Seq<char>>)
    requires
        forall|i: int| 0 <= i < flags.len() ==> existing.contains(#[trigger] flags[i]),
    ensures
        fresh_flags(existing, flags) == Seq::<Seq<char>>::empty(),
    decreases flags.len(),
{
    if flags.len() > 0 {
        assert forall|i: int| 0 <= i < flags.drop_last().len() implies existing.contains(#[trigger] flags.drop_last()[i]) by {
            assert(flags.drop_last()[i] == flags[i]);
        }
        lemma_fresh_empty(existing, flags.drop_last());
        assert(existing.contains(flags[flags.len() - 1]));
        assert(existing + Seq::<Seq<char>>::empty() =~= existing);
    }
}

proof fn lemma_appended_contains(existing: Seq<Seq<char>>, flags: Seq<Seq<char>>, i: int)
    requires
        0 <= i < flags.len(),
    ensures
        appended(existing, flags).contains(flags[i]),
    decreases flags.len(),
{
    let init = fresh_flags(existing, flags.drop_last());
    let before = existing + init;
    let a = appended(existing, flags);
    if i == flags.len() - 1 {
        if before.contains(flags.last()) {
            assert(a == before);
        } else {
            assert(a =~= before.push(flags.last()));
            assert(a[a.len() - 1] == flags[i]);
        }
    } else {
        assert(flags.drop_last()[i] == flags[i]);
        lemma_appended_contains(existing, flags.drop_last(), i);
        let j = choose|j: int| 0 <= j < before.len() && before[j] == flags[i];
        if !before.contains(flags.last()) {
            assert(a =~= before.push(flags.last()));
        }
        assert(a[j] == flags[i]);
    }
}

/// No flag of `appended(existing, flags)` past `existing` repeats one before it.
pub proof fn lemma_fresh_no_repeats(existing: Seq<Seq<char>>, flags: Seq<Seq<char>>)
    ensures
        forall|i: int, k: int|
            0 <= i < k < appended(existing, flags).len() && k >= existing.len() ==> appended(
                existing,
                flags,
            )[i] != appended(existing, flags)[k],
    decreases flags.len(),
{
    if flags.len() > 0 {
        lemma_fresh_no_repeats(existing, flags.drop_last());
        let init = fresh_flags(existing, flags.drop_last());
        let before = existing + init;
        let a = appended(existing, flags);
        assert(before == appended(existing, flags.drop_last()));
        if !before.contains(flags.last()) {
            assert(a =~= before.push(flags.last()));
            assert forall|i: int, k: int| 0 <= i < k < a.len() && k >= existing.len() implies a[i] != a[k] by {
                if k == a.len() - 1 {
                    assert(a[i] == before[i]);
                    if a[i] == a[k] {
                        assert(before[i] == flags.last());
                        assert(before.contains(flags.last()));
                    }
                } else {
                    assert(a[i] == before[i] && a[k] == before[k]);
                    assert(before[i] != before[k]);
                }
            }
        } else {
            assert(a == before);
        }
    }
}

/// The node written for `v` holds what `v` asks for.
proof fn lemma_leaf_satisfies(m: Entries, key: Seq<char>, v: TomlValueView)
    ensures
        node_satisfies(leaf_node(m, key, v), v),
{
    match v {
        TomlValueView::AppendFlags(f) => {
            let a = appended(existing_flags(m, key), f);
            lemma_strs_str_elems(a);
            assert forall|i: int| 0 <= i < f.len() implies a.contains(#[trigger] f[i]) by {
                lemma_appended_contains(existing_flags(m, key), f, i);
            }
        },
        _ => {},
    }
}

// ---------------------------------------------------------------------------
// Laws of one operation
// ---------------------------------------------------------------------------
proof fn lemma_set_in_lookup(m: Entries, tables: Seq<Seq<char>>, key: Seq<char>, v: TomlValueView)
    requires
        no_block(m, tables),
    ensures
        lookup(set_in(m, tables, key, v), tables.push(key)) == Some(
            leaf_node(table_at(m, tables), key, v),
        ),
    decreases tables.len(),
{
    let p = tables.push(key);
    if tables.len() == 0 {
        let n = leaf_node(m, key, v);
        lemma_under_graft_same(m, key, leaf(n));
        assert(p.drop_first() =~= Seq::<Seq<char>>::empty());
    } else {
        let t = tables[0];
        let rest = tables.drop_first();
        lemma_ensure_table(m, t);
        let r = set_in(inner(m, t), rest, key, v);
        lemma_set_in_lookup(inner(m, t), rest, key, v);
        lemma_under_graft_same(ensure_table(m, t), t, as_item(r, table_flag(m, tables)));
        assert(p.drop_first() =~= rest.push(key));
        lemma_lookup_table_item(r, table_flag(m, tables), rest.push(key));
    }
}

/// After the operation on `path` the table holds what it asks for.
pub proof fn lemma_set_path_satisfies(m: Entries, op: TomlOpView)
    requires
        op.path.len() > 0,
        path_ok(m, op.path),
    ensures
        satisfied(set_path(m, op.path, op.value), op),
{
    let p = op.path;
    lemma_set_in_lookup(m, p.drop_last(), p.last(), op.value);
    assert(p.drop_last().push(p.last()) =~= p);
    lemma_leaf_satisfies(table_at(m, p.drop_last()), p.last(), op.value);
}

proof fn lemma_set_in_frame(
    m: Entries,
    tables: Seq<Seq<char>>,
    key: Seq<char>,
    v: TomlValueView,
    q: Seq<Seq<char>>,
    j: int,
)
    requires
        no_block(m, tables),
        0 <= j < tables.len() + 1,
        j < q.len(),
        tables.push(key)[j] != q[j],
    ensures
        lookup(set_in(m, tables, key, v), q) == lookup(m, q),
    decreases tables.len(),
{
    let s = set_in(m, tables, key, v);
    if tables.len() == 0 {
        lemma_under_graft_other(m, key, leaf(leaf_node(m, key, v)), q[0]);
    } else {
        let t = tables[0];
        let rest = tables.drop_first();
        let r = set_in(inner(m, t), rest, key, v);
        lemma_ensure_table(m, t);
        if q[0] != t {
            lemma_under_graft_other(ensure_table(m, t), t, as_item(r, table_flag(m, tables)), q[0]);
            if !m.dom().contains(key1(t)) {
                lemma_under_graft_other(m, t, leaf(TomlNode::Table { implicit: false }), q[0]);
            }
        } else {
            let q2 = q.drop_first();
            assert(j >= 1);
            assert(rest.push(key)[j - 1] == tables.push(key)[j]);
            assert(q2[j - 1] == q[j]);
            lemma_set_in_frame(inner(m, t), rest, key, v, q2, j - 1);
            lemma_under_graft_same(ensure_table(m, t), t, as_item(r, table_flag(m, tables)));
            lemma_lookup_table_item(r, table_flag(m, tables), q2);
            lemma_under_key(m, t);
            if m.dom().contains(key1(t)) {
                let f0 = is_implicit(m[key1(t)]);
                lemma_lookup_table_item(as_table(under(m, t)), f0, q2);
                assert(under(m, t)[seq![]] == m[key1(t)]);
                assert(as_item(as_table(under(m, t)), f0) =~= under(m, t));
            } else {
                lemma_lookup_empty(q2.drop_first());
            }
        }
    }
}

/// An operation leaves every path that parts from its own path as it was.
pub proof fn lemma_set_path_frame(m: Entries, p: Seq<Seq<char>>, v: TomlValueView, q: Seq<Seq<char>>)
    requires
        path_ok(m, p),
        q.len() > 0,
        diverge(p, q),
    ensures
        lookup(set_path(m, p, v), q) == lookup(m, q),
{
    let j = choose|j: int| 0 <= j < p.len() && j < q.len() && p[j] != q[j];
    assert(p.drop_last().push(p.last()) =~= p);
    lemma_set_in_frame(m, p.drop_last(), p.last(), v, q, j);
}

proof fn lemma_set_in_no_block(m: Entries, tables: Seq<Seq<char>>, key: Seq<char>, v: TomlValueView)
    requires
        no_block(m, tables),
    ensures
        no_block(set_in(m, tables, key, v), tables),
        table_at(set_in(m, tables, key, v), tables) == set_in(table_at(m, tables), seq![], key, v),
    decreases tables.len(),
{
    if tables.len() > 0 {
        let t = tables[0];
        let rest = tables.drop_first();
        let r = set_in(inner(m, t), rest, key, v);
        let s = set_in(m, tables, key, v);
        lemma_ensure_table(m, t);
        lemma_set_in_no_block(inner(m, t), rest, key, v);
        lemma_under_graft_same(ensure_table(m, t), t, as_item(r, table_flag(m, tables)));
        lemma_graft_key(ensure_table(m, t), t, as_item(r, table_flag(m, tables)));
        lemma_under_key(s, t);
        assert(r.dom().contains(seq![]) == inner(m, t).dom().contains(seq![])) by {
            lemma_set_in_root(inner(m, t), rest, key, v);
        }
        assert(as_table(as_item(r, table_flag(m, tables))) =~= r);
        assert(inner(s, t) == r);
    }
}

pub(crate) proof fn lemma_set_in_root(m: Entries, tables: Seq<Seq<char>>, key: Seq<char>, v: TomlValueView)
    ensures
        set_in(m, tables, key, v).dom().contains(seq![]) == m.dom().contains(seq![]),
    decreases tables.len(),
{
    if tables.len() == 0 {
        lemma_graft_key(m, key, leaf(leaf_node(m, key, v)));
    } else {
        let t = tables[0];
        let r = set_in(inner(m, t), tables.drop_first(), key, v);
        lemma_graft_key(ensure_table(m, t), t, as_item(r, table_flag(m, tables)));
        if !m.dom().contains(key1(t)) {
            lemma_graft_key(m, t, leaf(TomlNode::Table { implicit: false }));
        }
    }
}

proof fn lemma_leaf_idempotent(m: Entries, key: Seq<char>, v: TomlValueView)
    ensures
        graft(graft(m, key, leaf(leaf_node(m, key, v))), key, leaf(
            leaf_node(graft(m, key, leaf(leaf_node(m, key, v))), key, v),
        )) == graft(m, key, leaf(leaf_node(m, key, v))),
{
    let n = leaf_node(m, key, v);
    let g = graft(m, key, leaf(n));
    lemma_graft_key(m, key, leaf(n));
    lemma_graft_graft(m, key, leaf(n), leaf(leaf_node(g, key, v)));
    match v {
        TomlValueView::AppendFlags(f) => {
            let a = appended(existing_flags(m, key), f);
            lemma_strs_str_elems(a);
            assert(existing_flags(g, key) == a);
            assert forall|i: int| 0 <= i < f.len() implies a.contains(#[trigger] f[i]) by {
                lemma_appended_contains(existing_flags(m, key), f, i);
            }
            lemma_fresh_empty(a, f);
            assert(appended(a, f) =~= a);
        },
        _ => {},
    }
}

proof fn lemma_set_in_idempotent(m: Entries, tables: Seq<Seq<char>>, key: Seq<char>, v: TomlValueView)
    requires
        no_block(m, tables),
    ensures
        set_in(set_in(m, tables, key, v), tables, key, v) == set_in(m, tables, key, v),
    decreases tables.len(),
{
    if tables.len() == 0 {
        lemma_leaf_idempotent(m, key, v);
    } else {
        let t = tables[0];
        let rest = tables.drop_first();
        let r = set_in(inner(m, t), rest, key, v);
        let s = set_in(m, tables, key, v);
        lemma_ensure_table(m, t);
        lemma_set_in_no_block(m, tables, key, v);
        lemma_set_in_idempotent(inner(m, t), rest, key, v);
        lemma_under_graft_same(ensure_table(m, t), t, as_item(r, table_flag(m, tables)));
        lemma_graft_key(ensure_table(m, t), t, as_item(r, table_flag(m, tables)));
        lemma_set_in_root(inner(m, t), rest, key, v);
        assert(as_table(as_item(r, table_flag(m, tables))) =~= r);
        assert(ensure_table(s, t) == s);
        assert(inner(s, t) == r);
        lemma_graft_graft(ensure_table(m, t), t, as_item(r, table_flag(m, tables)), as_item(r, table_flag(m, tables)));
    }
}

/// Applying the same operation twice gives what applying it once gave.
pub proof fn lemma_set_path_idempotent(m: Entries, p: Seq<Seq<char>>, v: TomlValueView)
    requires
        path_ok(m, p),
    ensures
        path_ok(set_path(m, p, v), p),
        set_path(set_path(m, p, v), p, v) == set_path(m, p, v),
{
    if p.len() > 0 {
        lemma_set_in_no_block(m, p.drop_last(), p.last(), v);
        lemma_set_in_idempotent(m, p.drop_last(), p.last(), v);
    }
}

// ---------------------------------------------------------------------------
// Implicit tables and their marks
// ---------------------------------------------------------------------------
/// Every implicit table below the root has something beneath it that is not an implicit
/// table (a value, or an explicit table), so printing the table shows where it stands
/// even though it prints no header of its own.
pub open spec fn shows_all(e: Entries) -> bool {
    forall|p: Seq<Seq<char>>|
        #![trigger e.dom().contains(p)]
        e.dom().contains(p) && p.len() > 0 && is_implicit(e[p]) ==> exists|q: Seq<Seq<char>>|
            q.len() > 0 && e.dom().contains(#[trigger] (p + q)) && !is_implicit(e[p + q])
}

/// A node with the mark of a table dropped.
pub open spec fn plain(n: TomlNode) -> TomlNode {
    if n is Table {
        TomlNode::Table { implicit: false }
    } else {
        n
    }
}

/// The entries with the marks of their tables dropped: what a table holds, whatever
/// headers it prints.
pub open spec fn unmarked(e: Entries) -> Entries {
    Map::new(|p: Seq<Seq<char>>| e.dom().contains(p), |p: Seq<Seq<char>>| plain(e[p]))
}

proof fn lemma_cat_assoc(t: Seq<char>, p: Seq<Seq<char>>, q: Seq<Seq<char>>)
    ensures
        (seq![t] + p) + q == seq![t] + (p + q),
        (seq![t] + p).drop_first() == p,
        (seq![t] + p)[0] == t,
{
    assert((seq![t] + p) + q =~= seq![t] + (p + q));
    assert((seq![t] + p).drop_first() =~= p);
}

/// The operation's own key holds its value afterwards, not an implicit table.
proof fn lemma_set_in_leaf_shown(m: Entries, tables: Seq<Seq<char>>, key: Seq<char>, v: TomlValueView)
    ensures
        set_in(m, tables, key, v).dom().contains(tables.push(key)),
        !is_implicit(set_in(m, tables, key, v)[tables.push(key)]),
    decreases tables.len(),
{
    let p = tables.push(key);
    if tables.len() == 0 {
        assert(p.drop_first() =~= Seq::<Seq<char>>::empty());
    } else {
        let rest = tables.drop_first();
        lemma_set_in_leaf_shown(inner(m, tables[0]), rest, key, v);
        assert(p.drop_first() =~= rest.push(key));
        assert(rest.push(key).len() > 0);
    }
}

/// The table under key `t` of `m`, once ensured, shows all its implicit tables if `m` does.
proof fn lemma_inner_shows(m: Entries, t: Seq<char>)
    requires
        shows_all(m),
    ensures
        shows_all(inner(m, t)),
{
    let i = inner(m, t);
    if m.dom().contains(key1(t)) {
        assert forall|p: Seq<Seq<char>>|
            #![trigger i.dom().contains(p)]
            i.dom().contains(p) && p.len() > 0 && is_implicit(i[p]) implies exists|q: Seq<Seq<char>>|
            q.len() > 0 && i.dom().contains(#[trigger] (p + q)) && !is_implicit(i[p + q]) by {
            assert(ensure_table(m, t) == m);
            assert(m.dom().contains(seq![t] + p));
            let q = choose|q: Seq<Seq<char>>|
                q.len() > 0 && m.dom().contains(#[trigger] ((seq![t] + p) + q)) && !is_implicit(
                    m[(seq![t] + p) + q],
                );
            lemma_cat_assoc(t, p, q);
            assert((p + q).len() > 0);
            assert(i.dom().contains(p + q));
        }
    } else {
        lemma_graft_key(m, t, leaf(TomlNode::Table { implicit: false }));
        lemma_under_graft_same(m, t, leaf(TomlNode::Table { implicit: false }));
        assert(i =~= Map::<Seq<Seq<char>>, TomlNode>::empty());
    }
}

/// An operation keeps every implicit table shown: the tables it walks through have its
/// value beneath them, and everything else stays as it was.
pub proof fn lemma_set_in_shows(m: Entries, tables: Seq<Seq<char>>, key: Seq<char>, v: TomlValueView)
    requires
        shows_all(m),
    ensures
        shows_all(set_in(m, tables, key, v)),
    decreases tables.len(),
{
    let s = set_in(m, tables, key, v);
    let a = first_key(tables, key);
    assert forall|p: Seq<Seq<char>>|
        #![trigger s.dom().contains(p)]
        s.dom().contains(p) && p.len() > 0 && is_implicit(s[p]) implies exists|q: Seq<Seq<char>>|
        q.len() > 0 && s.dom().contains(#[trigger] (p + q)) && !is_implicit(s[p + q]) by {
        if p[0] != a {
            if tables.len() > 0 && !m.dom().contains(key1(tables[0])) {
                assert(ensure_table(m, tables[0]).dom().contains(p) == m.dom().contains(p));
            }
            assert(m.dom().contains(p) && m[p] == s[p]);
            let q = choose|q: Seq<Seq<char>>|
                q.len() > 0 && m.dom().contains(#[trigger] (p + q)) && !is_implicit(m[p + q]);
            assert((p + q)[0] == p[0]);
            assert(s.dom().contains(p + q) && s[p + q] == m[p + q]);
        } else if tables.len() == 0 {
            assert(p.drop_first() =~= Seq::<Seq<char>>::empty());
            assert(p =~= seq![key]);
        } else {
            let t = tables[0];
            let rest = tables.drop_first();
            let r = set_in(inner(m, t), rest, key, v);
            let f = table_flag(m, tables);
            let x = as_item(r, f);
            let p2 = p.drop_first();
            assert(p =~= seq![t] + p2);
            if p2.len() == 0 {
                lemma_set_in_leaf_shown(inner(m, t), rest, key, v);
                let q = rest.push(key);
                lemma_cat_assoc(t, p2, q);
                assert(p + q =~= seq![t] + q);
                assert(s == graft(ensure_table(m, t), t, x));
                assert((p + q).drop_first() =~= q);
                assert((p + q)[0] == t);
                assert(x.dom().contains(q) && x[q] == r[q]);
                assert(s.dom().contains(p + q));
                assert(s[p + q] == x[q]);
            } else {
                lemma_inner_shows(m, t);
                lemma_set_in_shows(inner(m, t), rest, key, v);
                assert(r.dom().contains(p2) && r[p2] == s[p]);
                let q = choose|q: Seq<Seq<char>>|
                    q.len() > 0 && r.dom().contains(#[trigger] (p2 + q)) && !is_implicit(r[p2 + q]);
                lemma_cat_assoc(t, p2, q);
                assert((p2 + q).len() > 0);
                assert(s == graft(ensure_table(m, t), t, x));
                assert((p + q).drop_first() =~= p2 + q);
                assert((p + q)[0] == t);
                assert(x.dom().contains(p2 + q) && x[p2 + q] == r[p2 + q]);
                assert(s.dom().contains(p + q));
                assert(s[p + q] == r[p2 + q]);
            }
        }
    }
}

/// A change keeps every implicit table shown.
pub proof fn lemma_apply_ops_shows(m: Entries, ops: Seq<TomlOpView>)
    requires
        shows_all(m),
        apply_ops(m, ops) is Some,
    ensures
        shows_all(apply_ops(m, ops)->0),
    decreases ops.len(),
{
    if ops.len() > 0 {
        lemma_apply_ops_shows(m, ops.drop_last());
        let m1 = apply_ops(m, ops.drop_last())->0;
        let p = ops.last().path;
        if p.len() > 0 {
            lemma_set_in_shows(m1, p.drop_last(), p.last(), ops.last().value);
        }
    }
}

/// The tables that hold things compare equal on what they hold when their marks are
/// dropped: walking down a path meets the same nodes but for the marks.
proof fn lemma_lookup_unmarked(x: Entries, rest: Seq<Seq<char>>)
    ensures
        lookup_item(unmarked(x), rest) == (match lookup_item(x, rest) {
            Some(n) => Some(plain(n)),
            None => None,
        }),
    decreases rest.len(),
{
    if rest.len() > 0 {
        let k = rest[0];
        assert(under(unmarked(x), k) =~= unmarked(under(x, k)));
        lemma_lookup_unmarked(under(x, k), rest.drop_first());
    }
}

/// Whether an operation holds does not depend on how tables are marked.
pub proof fn lemma_satisfied_unmarked(x: Entries, y: Entries, op: TomlOpView)
    requires
        unmarked(x) == unmarked(y),
        op.path.len() > 0,
    ensures
        satisfied(x, op) == satisfied(y, op),
{
    let k = op.path[0];
    let r = op.path.drop_first();
    assert(under(unmarked(x), k) =~= unmarked(under(x, k)));
    assert(under(unmarked(y), k) =~= unmarked(under(y, k)));
    lemma_lookup_unmarked(under(x, k), r);
    lemma_lookup_unmarked(under(y, k), r);
    match lookup(x, op.path) {
        Some(n) => {
            assert(lookup(y, op.path) is Some);
            assert(plain(lookup(y, op.path)->0) == plain(n));
        },
        None => {},
    }
}

/// Every leading part of the path `q` (one key, two keys, up to all of `q`) is in `m`.
pub open spec fn chain_present(m: Entries, q: Seq<Seq<char>>) -> bool {
    forall|j: int| 1 <= j <= q.len() ==> m.dom().contains(#[trigger] q.subrange(0, j))
}

/// The mark of the table at `p[..k]` after an operation on the path `p`: the table that
/// holds the key (`k == p.len() - 1`) is explicit; a table above it keeps its mark when
/// it was there already, and is implicit when the operation created it.
pub open spec fn header_mark(m: Entries, p: Seq<Seq<char>>, k: int) -> bool {
    if k == p.len() - 1 {
        false
    } else if chain_present(m, p.subrange(0, k)) {
        is_implicit(m[p.subrange(0, k)])
    } else {
        true
    }
}

proof fn lemma_set_in_headers(m: Entries, tables: Seq<Seq<char>>, key: Seq<char>, v: TomlValueView, k: int)
    requires
        1 <= k <= tables.len(),
    ensures
        set_in(m, tables, key, v).dom().contains(tables.push(key).subrange(0, k)),
        set_in(m, tables, key, v)[tables.push(key).subrange(0, k)] == (TomlNode::Table {
            implicit: header_mark(m, tables.push(key), k),
        }),
    decreases tables.len(),
{
    let p = tables.push(key);
    let t = tables[0];
    let rest = tables.drop_first();
    let r = set_in(inner(m, t), rest, key, v);
    let f = table_flag(m, tables);
    let x = as_item(r, f);
    let s = set_in(m, tables, key, v);
    let q = p.subrange(0, k);
    assert(s == graft(ensure_table(m, t), t, x));
    assert(q[0] == t);
    let q2 = q.drop_first();
    let p2 = rest.push(key);
    assert(p2 =~= p.drop_first());
    assert(q2 =~= p2.subrange(0, k - 1));
    if k == 1 {
        assert(q2 =~= Seq::<Seq<char>>::empty());
        assert(q =~= key1(t));
        assert(s[q] == x[seq![]]);
        if tables.len() > 1 {
            assert(chain_present(m, q) == m.dom().contains(key1(t))) by {
                if m.dom().contains(key1(t)) {
                    assert forall|j: int| 1 <= j <= q.len() implies m.dom().contains(#[trigger] q.subrange(0, j)) by {
                        assert(q.subrange(0, j) =~= key1(t));
                    }
                } else {
                    assert(q.subrange(0, 1) =~= key1(t));
                }
            }
        }
    } else {
        lemma_set_in_headers(inner(m, t), rest, key, v, k - 1);
        assert(q2.len() > 0);
        assert(x.dom().contains(q2) && x[q2] == r[q2]);
        assert(s.dom().contains(q));
        assert(s[q] == r[q2]);
        if k < p.len() - 1 {
            let i = inner(m, t);
            assert(p2.subrange(0, k - 1) == q2);
            if m.dom().contains(key1(t)) {
                assert(ensure_table(m, t) == m);
                assert(forall|w: Seq<Seq<char>>| w.len() > 0 ==> (#[trigger] i.dom().contains(w) == m.dom().contains(
                    seq![t] + w,
                ))) by {
                    assert forall|w: Seq<Seq<char>>| w.len() > 0 implies (#[trigger] i.dom().contains(w)
                        == m.dom().contains(seq![t] + w)) by {
                        assert(seq![t] + w != Seq::<Seq<char>>::empty());
                    }
                }
                assert(chain_present(i, q2) == chain_present(m, q)) by {
                    if chain_present(i, q2) {
                        assert forall|j: int| 1 <= j <= q.len() implies m.dom().contains(#[trigger] q.subrange(0, j)) by {
                            if j == 1 {
                                assert(q.subrange(0, 1) =~= key1(t));
                            } else {
                                assert(q.subrange(0, j) =~= seq![t] + q2.subrange(0, j - 1));
                                assert(i.dom().contains(q2.subrange(0, j - 1)));
                            }
                        }
                    }
                    if chain_present(m, q) {
                        assert forall|j: int| 1 <= j <= q2.len() implies i.dom().contains(#[trigger] q2.subrange(0, j)) by {
                            assert(q.subrange(0, j + 1) =~= seq![t] + q2.subrange(0, j));
                            assert(m.dom().contains(q.subrange(0, j + 1)));
                        }
                    }
                }
                assert(q =~= seq![t] + q2);
                if chain_present(m, q) {
                    assert(q.subrange(0, q.len() as int) =~= q);
                    assert(m.dom().contains(q));
                    assert(i.dom().contains(q2));
                    assert(i[q2] == under(m, t)[q2]);
                    assert(under(m, t)[q2] == m[seq![t] + q2]);
                }
            } else {
                lemma_graft_key(m, t, leaf(TomlNode::Table { implicit: false }));
                lemma_under_graft_same(m, t, leaf(TomlNode::Table { implicit: false }));
                assert(i =~= Map::<Seq<Seq<char>>, TomlNode>::empty());
                assert(!chain_present(i, q2)) by {
                    assert(!i.dom().contains(q2.subrange(0, 1)));
                }
                assert(!chain_present(m, q)) by {
                    assert(q.subrange(0, 1) =~= key1(t));
                }
            }
        }
    }
}

/// After an operation on the path `p`, each table on the way to its key is a header
/// table, marked as `header_mark` says: the table that holds the key is explicit (its
/// header is printed), and a table the operation created above it is implicit (no empty
/// header such as `[profile]` is printed).
pub proof fn lemma_set_path_headers(m: Entries, p: Seq<Seq<char>>, v: TomlValueView, k: int)
    requires
        1 <= k < p.len(),
    ensures
        set_path(m, p, v).dom().contains(p.subrange(0, k)),
        set_path(m, p, v)[p.subrange(0, k)] == (TomlNode::Table { implicit: header_mark(m, p, k) }),
{
    assert(p.drop_last().push(p.last()) =~= p);
    lemma_set_in_headers(m, p.drop_last(), p.last(), v, k);
}

proof fn lemma_unmarked_same(m1: Entries, m2: Entries)
    requires
        unmarked(m1) == unmarked(m2),
    ensures
        m1.dom() == m2.dom(),
        forall|p: Seq<Seq<char>>| m1.dom().contains(p) ==> #[trigger] plain(m1[p]) == plain(m2[p]),
{
    assert forall|p: Seq<Seq<char>>| #[trigger] m1.dom().contains(p) == m2.dom().contains(p) by {
        assert(unmarked(m1).dom().contains(p) == m1.dom().contains(p));
        assert(unmarked(m2).dom().contains(p) == m2.dom().contains(p));
    }
    assert(m1.dom() =~= m2.dom());
    assert forall|p: Seq<Seq<char>>| m1.dom().contains(p) implies #[trigger] plain(m1[p]) == plain(m2[p]) by {
        assert(unmarked(m1)[p] == plain(m1[p]));
        assert(unmarked(m2)[p] == plain(m2[p]));
    }
}

/// What an operation makes of a table does not depend on how its tables are marked.
pub proof fn lemma_set_in_unmarked(
    m1: Entries,
    m2: Entries,
    tables: Seq<Seq<char>>,
    key: Seq<char>,
    v: TomlValueView,
)
    requires
        unmarked(m1) == unmarked(m2),
    ensures
        no_block(m1, tables) == no_block(m2, tables),
        unmarked(set_in(m1, tables, key, v)) == unmarked(set_in(m2, tables, key, v)),
    decreases tables.len(),
{
    lemma_unmarked_same(m1, m2);
    if tables.len() == 0 {
        assert(existing_flags(m1, key) == existing_flags(m2, key)) by {
            if m1.dom().contains(key1(key)) {
                assert(plain(m1[key1(key)]) == plain(m2[key1(key)]));
            }
        }
        let n = leaf_node(m1, key, v);
        assert(leaf_node(m2, key, v) == n);
        assert(unmarked(graft(m1, key, leaf(n))) =~= unmarked(graft(m2, key, leaf(n))));
    } else {
        let t = tables[0];
        let e1 = ensure_table(m1, t);
        let e2 = ensure_table(m2, t);
        assert(unmarked(e1) =~= unmarked(e2));
        let i1 = inner(m1, t);
        let i2 = inner(m2, t);
        assert(unmarked(i1) =~= unmarked(i2)) by {
            assert(unmarked(under(e1, t)) =~= unmarked(under(e2, t)));
        }
        lemma_set_in_unmarked(i1, i2, tables.drop_first(), key, v);
        let r1 = set_in(i1, tables.drop_first(), key, v);
        let r2 = set_in(i2, tables.drop_first(), key, v);
        let x1 = as_item(r1, table_flag(m1, tables));
        let x2 = as_item(r2, table_flag(m2, tables));
        assert(unmarked(x1) =~= unmarked(x2)) by {
            lemma_unmarked_same(r1, r2);
        }
        assert(unmarked(graft(e1, t, x1)) =~= unmarked(graft(e2, t, x2))) by {
            lemma_unmarked_same(e1, e2);
            lemma_unmarked_same(x1, x2);
        }
        if m1.dom().contains(key1(t)) {
            assert(plain(m1[key1(t)]) == plain(m2[key1(t)]));
        }
    }
}

/// What a change makes of a table, and whether it runs through, does not depend on how
/// its tables are marked.
pub proof fn lemma_apply_ops_unmarked(m1: Entries, m2: Entries, ops: Seq<TomlOpView>)
    requires
        unmarked(m1) == unmarked(m2),
    ensures
        (apply_ops(m1, ops) is Some) == (apply_ops(m2, ops) is Some),
        apply_ops(m1, ops) is Some ==> unmarked(apply_ops(m1, ops)->0) == unmarked(
            apply_ops(m2, ops)->0,
        ),
    decreases ops.len(),
{
    if ops.len() > 0 {
        lemma_apply_ops_unmarked(m1, m2, ops.drop_last());
        if apply_ops(m1, ops.drop_last()) is Some {
            let a1 = apply_ops(m1, ops.drop_last())->0;
            let a2 = apply_ops(m2, ops.drop_last())->0;
            let p = ops.last().path;
            if p.len() > 0 {
                lemma_set_in_unmarked(a1, a2, p.drop_last(), p.last(), ops.last().value);
            }
        }
    }
}

// ---------------------------------------------------------------------------
// Operations on parting paths commute
// ---------------------------------------------------------------------------
/// The first key of the path `tables` then `key`.
pub open spec fn first_key(tables: Seq<Seq<char>>, key: Seq<char>) -> Seq<char> {
    if tables.len() > 0 {
        tables[0]
    } else {
        key
    }
}

proof fn lemma_graft_commute(m: Entries, a1: Seq<char>, x: Entries, a2: Seq<char>, y: Entries)
    requires
        a1 != a2,
    ensures
        graft(graft(m, a1, x), a2, y) == graft(graft(m, a2, y), a1, x),
{
    assert(graft(graft(m, a1, x), a2, y) =~= graft(graft(m, a2, y), a1, x));
}

/// The table under `t` once ensured depends only on what stood under `t`.
proof fn lemma_inner_congruent(m1: Entries, m2: Entries, t: Seq<char>)
    requires
        under(m1, t) == under(m2, t),
    ensures
        inner(m1, t) == inner(m2, t),
        m1.dom().contains(key1(t)) == m2.dom().contains(key1(t)),
        m1.dom().contains(key1(t)) ==> m1[key1(t)] == m2[key1(t)],
{
    lemma_under_key(m1, t);
    lemma_under_key(m2, t);
    if !m1.dom().contains(key1(t)) {
        lemma_under_graft_same(m1, t, leaf(TomlNode::Table { implicit: false }));
        lemma_under_graft_same(m2, t, leaf(TomlNode::Table { implicit: false }));
    }
}

/// An operation changes only what stands under its first key.
proof fn lemma_set_in_local(m: Entries, tables: Seq<Seq<char>>, key: Seq<char>, v: TomlValueView)
    ensures
        set_in(m, tables, key, v) == graft(
            m,
            first_key(tables, key),
            under(set_in(m, tables, key, v), first_key(tables, key)),
        ),
{
    if tables.len() == 0 {
        lemma_under_graft_same(m, key, leaf(leaf_node(m, key, v)));
    } else {
        let a = tables[0];
        let y = as_item(set_in(inner(m, a), tables.drop_first(), key, v), table_flag(m, tables));
        lemma_under_graft_same(ensure_table(m, a), a, y);
        if !m.dom().contains(key1(a)) {
            lemma_graft_graft(m, a, leaf(TomlNode::Table { implicit: false }), y);
        }
    }
}

/// What an operation leaves under its first key depends only on what stood there.
proof fn lemma_set_in_congruent(
    m1: Entries,
    m2: Entries,
    tables: Seq<Seq<char>>,
    key: Seq<char>,
    v: TomlValueView,
)
    requires
        under(m1, first_key(tables, key)) == under(m2, first_key(tables, key)),
    ensures
        under(set_in(m1, tables, key, v), first_key(tables, key)) == under(
            set_in(m2, tables, key, v),
            first_key(tables, key),
        ),
{
    if tables.len() == 0 {
        lemma_inner_congruent(m1, m2, key);
        assert(existing_flags(m1, key) == existing_flags(m2, key));
        assert(leaf_node(m1, key, v) == leaf_node(m2, key, v));
        lemma_under_graft_same(m1, key, leaf(leaf_node(m1, key, v)));
        lemma_under_graft_same(m2, key, leaf(leaf_node(m2, key, v)));
    } else {
        let a = tables[0];
        lemma_inner_congruent(m1, m2, a);
        assert(table_flag(m1, tables) == table_flag(m2, tables));
        let y = as_item(set_in(inner(m1, a), tables.drop_first(), key, v), table_flag(m1, tables));
        lemma_under_graft_same(ensure_table(m1, a), a, y);
        lemma_under_graft_same(ensure_table(m2, a), a, y);
    }
}

/// After an operation through the table `a`, the table under `a` is what the operation
/// made of it.
proof fn lemma_set_in_inner(m: Entries, tables: Seq<Seq<char>>, key: Seq<char>, v: TomlValueView)
    requires
        tables.len() > 0,
    ensures
        set_in(m, tables, key, v).dom().contains(key1(tables[0])),
        set_in(m, tables, key, v)[key1(tables[0])] == (TomlNode::Table {
            implicit: table_flag(m, tables),
        }),
        ensure_table(set_in(m, tables, key, v), tables[0]) == set_in(m, tables, key, v),
        inner(set_in(m, tables, key, v), tables[0]) == set_in(
            inner(m, tables[0]),
            tables.drop_first(),
            key,
            v,
        ),
{
    let a = tables[0];
    let r = set_in(inner(m, a), tables.drop_first(), key, v);
    let s = set_in(m, tables, key, v);
    lemma_graft_key(ensure_table(m, a), a, as_item(r, table_flag(m, tables)));
    lemma_under_graft_same(ensure_table(m, a), a, as_item(r, table_flag(m, tables)));
    lemma_set_in_root(inner(m, a), tables.drop_first(), key, v);
    assert(!inner(m, a).dom().contains(seq![]));
    assert(as_table(as_item(r, table_flag(m, tables))) =~= r);
}

/// Two operations on paths that part at position `j` give the same table in either
/// order.
proof fn lemma_set_in_commute(
    m: Entries,
    t1: Seq<Seq<char>>,
    k1: Seq<char>,
    v1: TomlValueView,
    t2: Seq<Seq<char>>,
    k2: Seq<char>,
    v2: TomlValueView,
    j: int,
)
    requires
        0 <= j < t1.len() + 1,
        j < t2.len() + 1,
        t1.push(k1)[j] != t2.push(k2)[j],
    ensures
        set_in(set_in(m, t1, k1, v1), t2, k2, v2) == set_in(set_in(m, t2, k2, v2), t1, k1, v1),
    decreases t1.len(),
{
    let a1 = first_key(t1, k1);
    let a2 = first_key(t2, k2);
    assert(t1.push(k1)[0] == a1);
    assert(t2.push(k2)[0] == a2);
    let s1 = set_in(m, t1, k1, v1);
    let s2 = set_in(m, t2, k2, v2);
    if a1 != a2 {
        lemma_set_in_local(m, t1, k1, v1);
        lemma_set_in_local(m, t2, k2, v2);
        lemma_set_in_local(s1, t2, k2, v2);
        lemma_set_in_local(s2, t1, k1, v1);
        lemma_under_graft_other(m, a1, under(s1, a1), a2);
        lemma_under_graft_other(m, a2, under(s2, a2), a1);
        lemma_set_in_congruent(s1, m, t2, k2, v2);
        lemma_set_in_congruent(s2, m, t1, k1, v1);
        lemma_graft_commute(m, a1, under(s1, a1), a2, under(s2, a2));
    } else {
        assert(j > 0);
        assert(t1.len() > 0) by {
            if t1.len() == 0 {
                assert(j < 1);
            }
        }
        assert(t2.len() > 0) by {
            if t2.len() == 0 {
                assert(j < 1);
            }
        }
        let a = a1;
        let i0 = inner(m, a);
        let rest1 = t1.drop_first();
        let rest2 = t2.drop_first();
        assert(rest1.push(k1)[j - 1] == t1.push(k1)[j]);
        assert(rest2.push(k2)[j - 1] == t2.push(k2)[j]);
        lemma_set_in_commute(i0, rest1, k1, v1, rest2, k2, v2, j - 1);
        lemma_set_in_inner(m, t1, k1, v1);
        lemma_set_in_inner(m, t2, k2, v2);
        let r12 = set_in(set_in(i0, rest1, k1, v1), rest2, k2, v2);
        let f1 = table_flag(m, t1);
        let f2 = table_flag(m, t2);
        assert(t1.len() > 1 && t2.len() > 1 ==> f1 == f2);
        assert(table_flag(s1, t2) == (if t2.len() == 1 {
            false
        } else {
            f1
        }));
        assert(table_flag(s2, t1) == (if t1.len() == 1 {
            false
        } else {
            f2
        }));
        assert(table_flag(s1, t2) == table_flag(s2, t1));
        lemma_graft_graft(
            ensure_table(m, a),
            a,
            as_item(set_in(i0, rest1, k1, v1), f1),
            as_item(r12, table_flag(s1, t2)),
        );
        lemma_graft_graft(
            ensure_table(m, a),
            a,
            as_item(set_in(i0, rest2, k2, v2), f2),
            as_item(r12, table_flag(s2, t1)),
        );
    }
}

/// No table path is blocked by an operation on a path that parts from it.
proof fn lemma_no_block_congruent(m1: Entries, m2: Entries, tables: Seq<Seq<char>>)
    requires
        tables.len() > 0,
        under(m1, tables[0]) == under(m2, tables[0]),
    ensures
        no_block(m1, tables) == no_block(m2, tables),
{
    lemma_inner_congruent(m1, m2, tables[0]);
}

proof fn lemma_set_in_keeps_open(
    m: Entries,
    t1: Seq<Seq<char>>,
    k1: Seq<char>,
    v1: TomlValueView,
    t2: Seq<Seq<char>>,
    k2: Seq<char>,
    j: int,
)
    requires
        0 <= j < t1.len() + 1,
        j < t2.len() + 1,
        t1.push(k1)[j] != t2.push(k2)[j],
        no_block(m, t2),
    ensures
        no_block(set_in(m, t1, k1, v1), t2),
    decreases t1.len(),
{
    if t2.len() > 0 {
        let a1 = first_key(t1, k1);
        let a2 = t2[0];
        assert(t1.push(k1)[0] == a1);
        assert(t2.push(k2)[0] == a2);
        let s1 = set_in(m, t1, k1, v1);
        if a1 != a2 {
            lemma_set_in_local(m, t1, k1, v1);
            lemma_under_graft_other(m, a1, under(s1, a1), a2);
            lemma_no_block_congruent(s1, m, t2);
        } else {
            assert(j > 0);
            assert(t1.len() > 0) by {
                if t1.len() == 0 {
                    assert(j < 1);
                }
            }
            let rest1 = t1.drop_first();
            let rest2 = t2.drop_first();
            assert(rest1.push(k1)[j - 1] == t1.push(k1)[j]);
            assert(rest2.push(k2)[j - 1] == t2.push(k2)[j]);
            lemma_set_in_keeps_open(inner(m, a2), rest1, k1, v1, rest2, k2, j - 1);
            lemma_set_in_inner(m, t1, k1, v1);
        }
    }
}

/// Two operations whose paths part give the same table in either order.
pub proof fn lemma_set_path_commute(m: Entries, p: Seq<Seq<char>>, v: TomlValueView, q: Seq<Seq<char>>, w: TomlValueView)
    requires
        diverge(p, q),
    ensures
        set_path(set_path(m, p, v), q, w) == set_path(set_path(m, q, w), p, v),
{
    let j = choose|j: int| 0 <= j < p.len() && j < q.len() && p[j] != q[j];
    assert(p.drop_last().push(p.last()) =~= p);
    assert(q.drop_last().push(q.last()) =~= q);
    lemma_set_in_commute(m, p.drop_last(), p.last(), v, q.drop_last(), q.last(), w, j);
}

/// An operation leaves every path that parts from its own as open as it was.
pub proof fn lemma_set_path_keeps_open(m: Entries, p: Seq<Seq<char>>, v: TomlValueView, q: Seq<Seq<char>>)
    requires
        diverge(p, q),
        path_ok(m, q),
    ensures
        path_ok(set_path(m, p, v), q),
{
    let j = choose|j: int| 0 <= j < p.len() && j < q.len() && p[j] != q[j];
    assert(p.drop_last().push(p.last()) =~= p);
    assert(q.drop_last().push(q.last()) =~= q);
    lemma_set_in_keeps_open(m, p.drop_last(), p.last(), v, q.drop_last(), q.last(), j);
}

/// The operations of a change whose paths pairwise part all pairwise differ in the change.
pub open spec fn paths_part(ops: Seq<TomlOpView>) -> bool {
    forall|i: int, k: int|
        0 <= i < ops.len() && 0 <= k < ops.len() && i != k ==> diverge(
            #[trigger] ops[i].path,
            #[trigger] ops[k].path,
        )
}

/// After a change ran through, each of its operations finds its path open and changes
/// nothing more.
proof fn lemma_apply_ops_settled(m: Entries, ops: Seq<TomlOpView>, m2: Entries, i: int)
    requires
        apply_ops(m, ops) == Some(m2),
        paths_part(ops),
        0 <= i < ops.len(),
    ensures
        path_ok(m2, ops[i].path),
        set_path(m2, ops[i].path, ops[i].value) == m2,
    decreases ops.len(),
{
    let init = ops.drop_last();
    let last = ops.last();
    let m1 = apply_ops(m, init)->0;
    assert(m2 == set_path(m1, last.path, last.value));
    if i == ops.len() - 1 {
        lemma_set_path_idempotent(m1, last.path, last.value);
    } else {
        assert(paths_part(init)) by {
            assert forall|a: int, b: int|
                0 <= a < init.len() && 0 <= b < init.len() && a != b implies diverge(
                #[trigger] init[a].path,
                #[trigger] init[b].path,
            ) by {
                assert(init[a] == ops[a] && init[b] == ops[b]);
            }
        }
        assert(init[i] == ops[i]);
        lemma_apply_ops_settled(m, init, m1, i);
        let op = ops[i];
        assert(diverge(last.path, op.path));
        assert(diverge(op.path, last.path));
        lemma_set_path_commute(m1, op.path, op.value, last.path, last.value);
        lemma_set_path_keeps_open(m1, last.path, last.value, op.path);
    }
}

/// A table that every operation of `ops` leaves as it is comes through all of them.
proof fn lemma_apply_ops_fixed(m: Entries, ops: Seq<TomlOpView>)
    requires
        forall|i: int|
            0 <= i < ops.len() ==> path_ok(m, (#[trigger] ops[i]).path) && set_path(
                m,
                ops[i].path,
                ops[i].value,
            ) == m,
    ensures
        apply_ops(m, ops) == Some(m),
    decreases ops.len(),
{
    if ops.len() > 0 {
        let init = ops.drop_last();
        assert forall|i: int| 0 <= i < init.len() implies path_ok(m, (#[trigger] init[i]).path)
            && set_path(m, init[i].path, init[i].value) == m by {
            assert(init[i] == ops[i]);
        }
        lemma_apply_ops_fixed(m, init);
        assert(ops[ops.len() - 1] == ops.last());
    }
}

/// Running a change again on its own result changes nothing, when the paths of its
/// operations pairwise part.
pub proof fn lemma_apply_ops_idempotent(m: Entries, ops: Seq<TomlOpView>, m2: Entries)
    requires
        apply_ops(m, ops) == Some(m2),
        paths_part(ops),
    ensures
        apply_ops(m2, ops) == Some(m2),
{
    assert forall|i: int| 0 <= i < ops.len() implies path_ok(m2, (#[trigger] ops[i]).path) && set_path(
        m2,
        ops[i].path,
        ops[i].value,
    ) == m2 by {
        lemma_apply_ops_settled(m, ops, m2, i);
    }
    lemma_apply_ops_fixed(m2, ops);
}

/// The operations of a change that ran through, with paths that pairwise part, all
/// hold in the result.
pub proof fn lemma_apply_ops_satisfies(m: Entries, ops: Seq<TomlOpView>, m2: Entries)
    requires
        apply_ops(m, ops) == Some(m2),
        forall|i: int| 0 <= i < ops.len() ==> (#[trigger] ops[i]).path.len() > 0,
        forall|i: int, k: int| 0 <= i < ops.len() && 0 <= k < ops.len() && i != k ==> diverge(
            #[trigger] ops[i].path,
            #[trigger] ops[k].path,
        ),
    ensures
        forall|i: int| 0 <= i < ops.len() ==> satisfied(m2, #[trigger] ops[i]),
    decreases ops.len(),
{
    if ops.len() > 0 {
        let init = ops.drop_last();
        let m1 = apply_ops(m, init)->0;
        assert forall|i: int| 0 <= i < init.len() implies (#[trigger] init[i]).path.len() > 0 by {
            assert(init[i] == ops[i]);
        }
        assert forall|i: int, k: int| 0 <= i < init.len() && 0 <= k < init.len() && i != k implies diverge(
            #[trigger] init[i].path,
            #[trigger] init[k].path,
        ) by {
            assert(init[i] == ops[i] && init[k] == ops[k]);
        }
        lemma_apply_ops_satisfies(m, init, m1);
        let last = ops.last();
        assert(m2 == set_path(m1, last.path, last.value));
        assert forall|i: int| 0 <= i < ops.len() implies satisfied(m2, #[trigger] ops[i]) by {
            if i == ops.len() - 1 {
                lemma_set_path_satisfies(m1, last);
            } else {
                assert(init[i] == ops[i]);
                assert(satisfied(m1, init[i]));
                assert(diverge(ops[ops.len() - 1].path, ops[i].path));
                lemma_set_path_frame(m1, last.path, last.value, ops[i].path);
            }
        }
    }
}

} // verus!
