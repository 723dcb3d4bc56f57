//! Edits to the three config files through `toml_edit`, so comments, ordering and
//! whitespace survive; detection of edits that are already in place; backup names; and
//! unified diffs. Reading and writing the files is the caller's part: here the text
//! comes in and goes out as strings.
use vstd::prelude::*;
use crate::suggestion::{Scope, TomlChange, TomlOp, TomlOpView, TomlValue};
use crate::system::SystemReport;
use crate::text::{decimal, decimal_string, views};
use crate::toml_edit_specs::{
    array_elems, array_get, array_item, array_len, array_new, array_push_str, bool_item,
    doc_entries, doc_item, doc_item_mut, int_item, item_as_array, item_as_bool, item_as_integer,
    item_as_str, item_as_table, item_as_table_mut, item_entries, new_table_item, parse_document,
    parsed_toml, render_document, str_item, table_entries, table_get, table_get_mut,
    table_implicit, table_insert, table_set, table_set_implicit, value_as_str,
};
use crate::toml_model::{
    apply_ops, as_item, as_table, ensure_table, lemma_apply_ops_satisfies, existing_flags, fresh_flags, graft, is_table_item,
    leaf, leaf_node, lemma_ensure_table, lemma_no_block_empty, lemma_under_key,
    lemma_apply_ops_idempotent, lemma_set_in_root, lemma_under_root_free, lookup, paths_part, lookup_item, no_block, node_satisfies, satisfied, set_in, str_elems, strs,
    under, ArrayElem, Entries, TomlNode, is_implicit, table_flag, shows_all, unmarked,
    lemma_apply_ops_shows, lemma_satisfied_unmarked, lemma_apply_ops_unmarked, plain,
};
use toml_edit::{Array, DocumentMut, Item, Table};

verus! {

/// A planned edit of one file: where, and its text before and after.
#[derive(Clone, Debug)]
pub struct TomlPlan {
    pub path: String,
    pub before: String,
    pub after: String,
}

/// Why a plan could not be made.
#[derive(Clone, Debug)]
pub enum PlanError {
    /// The file is not valid TOML.
    Parse { path: String },
    /// A key on an operation's table path holds something other than a table.
    NotATable { path: String },
}

/// The views of the operations of a change.
pub open spec fn ops_view(ops: Seq<TomlOp>) -> Seq<TomlOpView> {
    ops.map_values(|o: TomlOp| o@)
}

/// Every operation names at least one key.
pub open spec fn ops_have_paths(ops: Seq<TomlOp>) -> bool {
    forall|i: int| 0 <= i < ops.len() ==> (#[trigger] ops[i]).path@.len() > 0
}

/// The file a scope edits.
pub open spec fn target_path_of(r: SystemReport, scope: Scope) -> Seq<char> {
    match scope {
        Scope::Global => r.project.global_cargo_config@,
        Scope::ProjectCargo => r.project.cargo_toml@,
        Scope::ProjectConfig => r.project.cargo_config@,
    }
}

/// The file that a change of `scope` edits.
pub fn target_path(report: &SystemReport, scope: Scope) -> (r: String)
    ensures
        r@ == target_path_of(*report, scope),
{
    match scope {
        Scope::Global => report.project.global_cargo_config.clone(),
        Scope::ProjectCargo => report.project.cargo_toml.clone(),
        Scope::ProjectConfig => report.project.cargo_config.clone(),
    }
}

/// The backup name for `path` at the Unix time `secs`: `<path>.frd-bak-<secs>`.
pub fn backup_path(path: &str, secs: u64) -> (r: String)
    ensures
        r@ == path@ + ".frd-bak-"@ + decimal(secs as nat),
{
    let s = String::from_str(path);
    let s = s.concat(".frd-bak-");
    s.concat(decimal_string(secs).as_str())
}

// ---------------------------------------------------------------------------
// Reading
// ---------------------------------------------------------------------------
proof fn lemma_tail(p: Seq<Seq<char>>, i: int)
    requires
        0 <= i < p.len(),
    ensures
        p.subrange(i, p.len() as int)[0] == p[i],
        p.subrange(i, p.len() as int).drop_first() == p.subrange(i + 1, p.len() as int),
        p.subrange(i, p.len() as int).len() > 0,
{
    assert(p.subrange(i, p.len() as int).drop_first() =~= p.subrange(i + 1, p.len() as int));
}

/// The item at `path` below the table `root`, walking through tables only.
fn get_path<'a>(root: &'a Table, path: &Vec<String>) -> (r: Option<&'a Item>)
    requires
        path@.len() > 0,
    ensures
        r is Some <==> lookup(table_entries(*root), views(path@)) is Some,
        r matches Some(i) ==> item_entries(*i).dom().contains(seq![]) && lookup(
            table_entries(*root),
            views(path@),
        ) == Some(item_entries(*i)[seq![]]),
{
    let ghost p = views(path@);
    let first = table_get(root, path[0].as_str());
    let mut item = match first {
        Some(i) => i,
        None => {
            proof {
                lemma_none_at_root(under(table_entries(*root), p[0]), p.drop_first());
            }
            return None;
        },
    };
    let n = path.len();
    let mut k: usize = 1;
    proof {
        assert(p.drop_first() =~= p.subrange(1, p.len() as int));
    }
    while k < n
        invariant
            n == path@.len(),
            p == views(path@),
            1 <= k <= n,
            item_entries(*item).dom().contains(seq![]),
            lookup(table_entries(*root), p) == lookup_item(
                item_entries(*item),
                p.subrange(k as int, n as int),
            ),
        decreases n - k,
    {
        proof {
            lemma_tail(p, k as int);
        }
        let t = match item_as_table(item) {
            Some(t) => t,
            None => return None,
        };
        proof {
            lemma_under_root_free(item_entries(*item), item_entries(*item)[seq![]], p[k as int]);
        }
        item = match table_get(t, path[k].as_str()) {
            Some(i) => i,
            None => {
                proof {
                    lemma_none_at_root(
                        under(item_entries(*item), p[k as int]),
                        p.subrange(k + 1, n as int),
                    );
                }
                return None;
            },
        };
        k = k + 1;
    }
    proof {
        assert(p.subrange(n as int, n as int) =~= Seq::<Seq<char>>::empty());
    }
    Some(item)
}

proof fn lemma_none_at_root(x: Entries, rest: Seq<Seq<char>>)
    requires
        !x.dom().contains(seq![]),
    ensures
        lookup_item(x, rest) is None,
{
}

/// The strings of an array, in order.
fn array_strings(a: &Array) -> (r: Vec<String>)
    ensures
        views(r@) == strs(array_elems(*a)),
{
    let n = array_len(a);
    let ghost es = array_elems(*a);
    let mut out: Vec<String> = Vec::new();
    let mut i: usize = 0;
    while i < n
        invariant
            n == es.len(),
            es == array_elems(*a),
            i <= n,
            views(out@) == strs(es.subrange(0, i as int)),
        decreases n - i,
    {
        proof {
            assert(es.subrange(0, i + 1).drop_last() =~= es.subrange(0, i as int));
            assert(es.subrange(0, i + 1).last() == es[i as int]);
        }
        match array_get(a, i) {
            Some(v) => match value_as_str(v) {
                Some(s) => {
                    let ghost before = out@;
                    out.push(String::from_str(s));
                    proof {
                        assert(views(out@) =~= views(before).push(s@));
                    }
                },
                None => {},
            },
            None => {},
        }
        i = i + 1;
    }
    proof {
        assert(es.subrange(0, n as int) =~= es);
    }
    out
}

/// Whether `s` is one of `v`.
fn contains_string(v: &Vec<String>, s: &String) -> (r: bool)
    ensures
        r == views(v@).contains(s@),
{
    let n = v.len();
    let mut i: usize = 0;
    while i < n
        invariant
            n == v@.len(),
            i <= n,
            forall|j: int| 0 <= j < i ==> views(v@)[j] != s@,
        decreases n - i,
    {
        if crate::text::str_eq(v[i].as_str(), s.as_str()) {
            proof {
                assert(views(v@)[i as int] == s@);
            }
            return true;
        }
        i = i + 1;
    }
    false
}

/// Whether every flag of `flags` is one of `have`.
fn all_contained(have: &Vec<String>, flags: &Vec<String>) -> (r: bool)
    ensures
        r == (forall|i: int| 0 <= i < flags@.len() ==> views(have@).contains(#[trigger] views(flags@)[i])),
{
    let n = flags.len();
    let mut i: usize = 0;
    while i < n
        invariant
            n == flags@.len(),
            i <= n,
            forall|j: int| 0 <= j < i ==> views(have@).contains(#[trigger] views(flags@)[j]),
        decreases n - i,
    {
        if !contains_string(have, &flags[i]) {
            proof {
                assert(views(flags@)[i as int] == flags@[i as int]@);
            }
            return false;
        }
        i = i + 1;
    }
    true
}

/// Whether the operation `op` is already in effect below the table `root`.
pub fn is_satisfied(root: &Table, op: &TomlOp) -> (r: bool)
    requires
        op.path@.len() > 0,
    ensures
        r == satisfied(table_entries(*root), op@),
{
    let item = match get_path(root, &op.path) {
        Some(i) => i,
        None => return false,
    };
    let ghost node = item_entries(*item)[seq![]];
    assert(lookup(table_entries(*root), op@.path) == Some(node));
    match &op.value {
        TomlValue::Str(s) => match item_as_str(item) {
            Some(v) => {
                let r = crate::text::str_eq(v, s.as_str());
                proof {
                    assert(op@.value == crate::suggestion::TomlValueView::Str(s@));
                    assert(r == node_satisfies(node, op@.value));
                }
                r
            },
            None => false,
        },
        TomlValue::Int(n) => match item_as_integer(item) {
            Some(v) => v == *n,
            None => false,
        },
        TomlValue::Bool(b) => match item_as_bool(item) {
            Some(v) => v == *b,
            None => false,
        },
        TomlValue::AppendFlags(flags) => match item_as_array(item) {
            Some(a) => {
                let have = array_strings(a);
                let r = all_contained(&have, flags);
                proof {
                    assert(op@.value == crate::suggestion::TomlValueView::AppendFlags(views(flags@)));
                    assert(views(flags@).len() == flags@.len());
                    assert(node == TomlNode::Array(array_elems(*a)));
                    let f = views(flags@);
                    let st = strs(array_elems(*a));
                    crate::toml_model::lemma_flags_satisfied(array_elems(*a), f);
                    assert(views(have@) == st);
                    assert(f.len() == flags@.len());
                    if r {
                        assert forall|i: int| 0 <= i < f.len() implies st.contains(#[trigger] f[i]) by {
                            assert(views(have@).contains(views(flags@)[i]));
                        }
                    } else {
                        if forall|i: int| 0 <= i < f.len() ==> st.contains(#[trigger] f[i]) {
                            assert forall|i: int| 0 <= i < flags@.len() implies views(have@).contains(#[trigger] views(flags@)[i]) by {
                                assert(st.contains(f[i]));
                            }
                        }
                    }
                    assert(r == node_satisfies(node, op@.value));
                }
                r
            },
            None => false,
        },
    }
}

/// The change is in effect in the file text `text`: the text was read (`Some`), parses,
/// and every operation already holds. An unreadable or unparsable file counts as not
/// applied.
pub open spec fn applied(text: Option<String>, ops: Seq<TomlOp>) -> bool {
    match text {
        None => false,
        Some(t) => match parsed_toml(t@) {
            None => false,
            Some(x) => forall|i: int| 0 <= i < ops.len() ==> satisfied(as_table(x), #[trigger] ops_view(ops)[i]),
        },
    }
}

/// Whether `change` is already in effect in the file whose text is `text`.
pub fn is_applied(text: &Option<String>, change: &TomlChange) -> (r: bool)
    requires
        ops_have_paths(change.ops@),
    ensures
        r == applied(*text, change.ops@),
{
    let t = match text {
        Some(t) => t,
        None => return false,
    };
    let doc = match parse_document(t.as_str()) {
        Ok(d) => d,
        Err(_) => return false,
    };
    let root = match item_as_table(doc_item(&doc)) {
        Some(r) => r,
        None => return false,
    };
    let ghost ops = ops_view(change.ops@);
    let n = change.ops.len();
    let mut i: usize = 0;
    while i < n
        invariant
            n == change.ops@.len(),
            ops == ops_view(change.ops@),
            *text == Some(*t),
            ops_have_paths(change.ops@),
            table_entries(*root) == as_table(parsed_toml(t@)->0),
            i <= n,
            forall|j: int| 0 <= j < i ==> satisfied(as_table(parsed_toml(t@)->0), #[trigger] ops[j]),
        decreases n - i,
    {
        assert(change.ops@[i as int].path@.len() > 0);
        assert(ops[i as int] == change.ops@[i as int]@);
        if !is_satisfied(root, &change.ops[i]) {
            proof {
                assert(!satisfied(as_table(parsed_toml(t@)->0), ops[i as int]));
            }
            return false;
        }
        i = i + 1;
    }
    true
}

// ---------------------------------------------------------------------------
// Writing
// ---------------------------------------------------------------------------
/// The table path of an operation from position `i` on (all keys but the last).
pub open spec fn tables_from(p: Seq<Seq<char>>, i: int) -> Seq<Seq<char>> {
    p.subrange(i, p.len() - 1)
}

proof fn lemma_tables_step(p: Seq<Seq<char>>, i: int)
    requires
        0 <= i < p.len() - 1,
    ensures
        tables_from(p, i).len() > 0,
        tables_from(p, i)[0] == p[i],
        tables_from(p, i).drop_first() == tables_from(p, i + 1),
{
    assert(tables_from(p, i).drop_first() =~= tables_from(p, i + 1));
}

/// Whether the table path of `path` from position `i` on meets no non-table below `t`.
fn path_clear(t: &Table, path: &Vec<String>, i: usize) -> (r: bool)
    requires
        path@.len() > 0,
        i <= path@.len() - 1,
    ensures
        r == no_block(table_entries(*t), tables_from(views(path@), i as int)),
    decreases path@.len() - i,
{
    let ghost p = views(path@);
    let ghost m = table_entries(*t);
    if i == path.len() - 1 {
        return true;
    }
    proof {
        lemma_tables_step(p, i as int);
        lemma_under_key(m, p[i as int]);
    }
    match table_get(t, path[i].as_str()) {
        None => {
            proof {
                lemma_ensure_table(m, p[i as int]);
                lemma_no_block_empty(tables_from(p, i + 1));
            }
            true
        },
        Some(item) => {
            match item_as_table(item) {
                None => false,
                Some(sub) => {
                    proof {
                        lemma_ensure_table(m, p[i as int]);
                    }
                    path_clear(sub, path, i + 1)
                },
            }
        },
    }
}

/// Writes the leaf of an operation: the value of `v` under `key` of the table `t`.
fn set_leaf(t: &mut Table, key: &str, v: &TomlValue)
    ensures
        table_entries(*final(t)) == graft(
            table_entries(*old(t)),
            key@,
            leaf(leaf_node(table_entries(*old(t)), key@, v@)),
        ),
        table_implicit(*final(t)) == table_implicit(*old(t)),
{
    let ghost m = table_entries(*old(t));
    let item = match v {
        TomlValue::Str(s) => str_item(s.clone()),
        TomlValue::Int(n) => int_item(*n),
        TomlValue::Bool(b) => bool_item(*b),
        TomlValue::AppendFlags(flags) => {
            proof {
                lemma_under_key(m, key@);
            }
            let existing: Vec<String> = match table_get(t, key) {
                Some(i) => match item_as_array(i) {
                    Some(a) => array_strings(a),
                    None => Vec::new(),
                },
                None => Vec::new(),
            };
            proof {
                assert(views(existing@) == existing_flags(m, key@));
            }
            let mut arr = array_new();
            let ne = existing.len();
            let mut i: usize = 0;
            while i < ne
                invariant
                    ne == existing@.len(),
                    i <= ne,
                    array_elems(arr) == str_elems(views(existing@).subrange(0, i as int)),
                decreases ne - i,
            {
                array_push_str(&mut arr, existing[i].as_str());
                proof {
                    assert(str_elems(views(existing@).subrange(0, i + 1)) =~= str_elems(
                        views(existing@).subrange(0, i as int),
                    ).push(ArrayElem::Str(existing@[i as int]@)));
                }
                i = i + 1;
            }
            let ghost ex = views(existing@);
            let ghost fl = views(flags@);
            proof {
                assert(ex.subrange(0, ne as int) =~= ex);
                assert(fl.subrange(0, 0) =~= Seq::<Seq<char>>::empty());
                assert(ex + fresh_flags(ex, fl.subrange(0, 0)) =~= ex);
            }
            let mut taken = existing.clone();
            proof {
                assert(views(taken@) == ex) by {
                    assert(taken@ == existing@);
                }
            }
            let nf = flags.len();
            let mut j: usize = 0;
            while j < nf
                invariant
                    nf == flags@.len(),
                    fl == views(flags@),
                    ex == views(existing@),
                    j <= nf,
                    views(taken@) == ex + fresh_flags(ex, fl.subrange(0, j as int)),
                    array_elems(arr) == str_elems(ex + fresh_flags(ex, fl.subrange(0, j as int))),
                decreases nf - j,
            {
                proof {
                    assert(fl.subrange(0, j + 1).drop_last() =~= fl.subrange(0, j as int));
                    assert(fl.subrange(0, j + 1).last() == flags@[j as int]@);
                }
                if !contains_string(&taken, &flags[j]) {
                    array_push_str(&mut arr, flags[j].as_str());
                    let ghost t0 = taken@;
                    taken.push(flags[j].clone());
                    proof {
                        assert(ex + fresh_flags(ex, fl.subrange(0, j + 1)) =~= (ex + fresh_flags(
                            ex,
                            fl.subrange(0, j as int),
                        )).push(flags@[j as int]@));
                        assert(views(taken@) =~= views(t0).push(flags@[j as int]@));
                        assert(str_elems(ex + fresh_flags(ex, fl.subrange(0, j + 1))) =~= str_elems(
                            ex + fresh_flags(ex, fl.subrange(0, j as int)),
                        ).push(ArrayElem::Str(flags@[j as int]@)));
                    }
                } else {
                    proof {
                        assert(fresh_flags(ex, fl.subrange(0, j + 1)) == fresh_flags(
                            ex,
                            fl.subrange(0, j as int),
                        ));
                    }
                }
                j = j + 1;
            }
            proof {
                assert(fl.subrange(0, nf as int) =~= fl);
            }
            array_item(arr)
        },
    };
    table_set(t, key, item);
}

/// Writes the operation on `path` below the table `t`, from table position `i` on,
/// creating the tables on the way as header tables.
fn set_from(t: &mut Table, path: &Vec<String>, i: usize, v: &TomlValue)
    requires
        path@.len() > 0,
        i <= path@.len() - 1,
        no_block(table_entries(*old(t)), tables_from(views(path@), i as int)),
    ensures
        table_entries(*final(t)) == set_in(
            table_entries(*old(t)),
            tables_from(views(path@), i as int),
            views(path@).last(),
            v@,
        ),
        table_implicit(*final(t)) == table_implicit(*old(t)),
    decreases path@.len() - i,
{
    let ghost p = views(path@);
    let ghost m = table_entries(*old(t));
    let n = path.len();
    if i == n - 1 {
        proof {
            assert(tables_from(p, i as int) =~= Seq::<Seq<char>>::empty());
            assert(path@[n - 1]@ == p.last());
        }
        set_leaf(t, path[n - 1].as_str(), v);
        return;
    }
    proof {
        lemma_tables_step(p, i as int);
        lemma_ensure_table(m, p[i as int]);
        lemma_under_key(m, p[i as int]);
    }
    let name = path[i].as_str();
    let existed = table_get(t, name).is_some();
    if !existed {
        table_insert(t, name, new_table_item());
    }
    let ghost m1 = table_entries(*t);
    proof {
        assert(m1 == ensure_table(m, p[i as int]));
        lemma_under_key(m1, p[i as int]);
    }
    match table_get_mut(t, name) {
        Some(item) => {
            match item_as_table_mut(item) {
                Some(seg) => {
                    if i + 1 == n - 1 {
                        table_set_implicit(seg, false);
                    } else if !existed {
                        table_set_implicit(seg, true);
                    }
                    set_from(seg, path, i + 1, v);
                },
                None => {
                    proof {
                        assert(false);
                    }
                },
            }
        },
        None => {
            proof {
                assert(false);
            }
        },
    }
}

/// Applies the operations of `ops` in order to the table `t`; `false` as soon as one
/// meets a non-table on its table path (the table is then partly edited).
fn apply_to_table(t: &mut Table, ops: &Vec<TomlOp>) -> (ok: bool)
    ensures
        ok == apply_ops(table_entries(*old(t)), ops_view(ops@)) is Some,
        ok ==> table_entries(*final(t)) == apply_ops(table_entries(*old(t)), ops_view(ops@))->0,
        table_implicit(*final(t)) == table_implicit(*old(t)),
{
    let ghost m0 = table_entries(*t);
    let ghost all = ops_view(ops@);
    let n = ops.len();
    let mut i: usize = 0;
    while i < n
        invariant
            n == ops@.len(),
            all == ops_view(ops@),
            m0 == table_entries(*old(t)),
            i <= n,
            apply_ops(m0, all.subrange(0, i as int)) == Some(table_entries(*t)),
            table_implicit(*t) == table_implicit(*old(t)),
        decreases n - i,
    {
        let op = &ops[i];
        proof {
            assert(all.subrange(0, i + 1).drop_last() =~= all.subrange(0, i as int));
            assert(all.subrange(0, i + 1).last() == op@);
        }
        if op.path.len() > 0 {
            if !path_clear(t, &op.path, 0) {
                proof {
                    assert(tables_from(op@.path, 0) =~= op@.path.drop_last());
                    assert(apply_ops(m0, all.subrange(0, i + 1)) is None);
                    lemma_apply_ops_none_extends(m0, all, i as int + 1);
                }
                return false;
            }
            proof {
                assert(tables_from(op@.path, 0) =~= op@.path.drop_last());
            }
            set_from(t, &op.path, 0, &op.value);
        }
        i = i + 1;
    }
    proof {
        assert(all.subrange(0, n as int) =~= all);
    }
    true
}

proof fn lemma_apply_ops_none_extends(m: Entries, ops: Seq<TomlOpView>, k: int)
    requires
        0 <= k <= ops.len(),
        apply_ops(m, ops.subrange(0, k)) is None,
    ensures
        apply_ops(m, ops) is None,
    decreases ops.len() - k,
{
    if k < ops.len() {
        assert(ops.subrange(0, k + 1).drop_last() =~= ops.subrange(0, k));
        lemma_apply_ops_none_extends(m, ops, k + 1);
    } else {
        assert(ops.subrange(0, k) =~= ops);
    }
}

/// The document's root entries after applying `ops`, or `None` when the root is not a
/// table or an operation meets a non-table on its table path.
pub open spec fn edited(root: Entries, ops: Seq<TomlOpView>) -> Option<Entries> {
    if is_table_item(root) {
        match apply_ops(as_table(root), ops) {
            Some(t) => Some(as_item(t, is_implicit(root[seq![]]))),
            None => None,
        }
    } else {
        None
    }
}

/// Applies the operations of `ops` to `doc` in order. Each writes its value under the
/// last key of its path, creating the header tables on the way; intermediate tables
/// created here are implicit (no empty header is printed) and the table that holds the
/// key is explicit. Returns `false`, leaving `doc` partly edited, when the root is not
/// a table or a key on an operation's table path holds something other than a table.
pub fn edit_document(doc: &mut DocumentMut, ops: &Vec<TomlOp>) -> (ok: bool)
    ensures
        ok == edited(doc_entries(*old(doc)), ops_view(ops@)) is Some,
        ok ==> doc_entries(*final(doc)) == edited(doc_entries(*old(doc)), ops_view(ops@))->0,
{
    let root = doc_item_mut(doc);
    match item_as_table_mut(root) {
        Some(t) => apply_to_table(t, ops),
        None => false,
    }
}

/// Plans `change` on the file text `before` of its scope: parses it, applies every
/// operation and renders the result. Fails when the text is not TOML, or when a key on
/// an operation's table path holds something other than a header table (a value, an
/// inline table or an array of tables). That second failure is a deliberate choice: the
/// editor reports it as `NotATable` where a panic would abort the whole run.
pub fn plan(report: &SystemReport, change: &TomlChange, before: String) -> (r: Result<TomlPlan, PlanError>)
    ensures
        r is Ok <==> (parsed_toml(before@) is Some && edited(
            parsed_toml(before@)->0,
            ops_view(change.ops@),
        ) is Some),
        r matches Ok(p) ==> p.path@ == target_path_of(*report, change.scope) && p.before@
            == before@,
        r matches Err(PlanError::Parse { path }) ==> parsed_toml(before@) is None && path@
            == target_path_of(*report, change.scope),
        r matches Err(PlanError::NotATable { path }) ==> parsed_toml(before@) is Some && path@
            == target_path_of(*report, change.scope),
        r matches Ok(p) ==> parsed_toml(p.after@) is Some && unmarked(parsed_toml(p.after@)->0)
            == unmarked(edited(parsed_toml(before@)->0, ops_view(change.ops@))->0),
        ops_have_paths(change.ops@) && paths_part(ops_view(change.ops@)) ==> (r matches Ok(p)
            ==> applied(Some(p.after), change.ops@)),
        paths_part(ops_view(change.ops@)) ==> (r matches Ok(p) ==> edited(
            parsed_toml(p.after@)->0,
            ops_view(change.ops@),
        ) is Some && unmarked(edited(parsed_toml(p.after@)->0, ops_view(change.ops@))->0) == unmarked(
            parsed_toml(p.after@)->0,
        )),
{
    let path = target_path(report, change.scope);
    let mut doc = match parse_document(before.as_str()) {
        Ok(d) => d,
        Err(_) => return Err(PlanError::Parse { path }),
    };
    if !edit_document(&mut doc, &change.ops) {
        return Err(PlanError::NotATable { path });
    }
    proof {
        lemma_edited_shows(parsed_toml(before@)->0, ops_view(change.ops@));
    }
    let after = render_document(&doc);
    proof {
        if ops_have_paths(change.ops@) && paths_part(ops_view(change.ops@)) {
            lemma_planned_text_applied(before@, change.ops@, after);
        }
        if paths_part(ops_view(change.ops@)) {
            lemma_replan_text_unchanged(before@, ops_view(change.ops@), after@);
        }
    }
    Ok(TomlPlan { path, before, after })
}

/// A planned change is in effect in any file text that reads back as the planned
/// document: when the change's operations name pairwise parting paths, every one of
/// them holds there.
pub proof fn lemma_planned_text_applied(before: Seq<char>, ops: Seq<TomlOp>, after: String)
    requires
        ops_have_paths(ops),
        paths_part(ops_view(ops)),
        parsed_toml(before) is Some,
        edited(parsed_toml(before)->0, ops_view(ops)) is Some,
        parsed_toml(after@) is Some,
        unmarked(parsed_toml(after@)->0) == unmarked(edited(parsed_toml(before)->0, ops_view(ops))->0),
    ensures
        applied(Some(after), ops),
{
    let x = parsed_toml(before)->0;
    let opsv = ops_view(ops);
    let t = apply_ops(as_table(x), opsv)->0;
    assert forall|i: int| 0 <= i < opsv.len() implies (#[trigger] opsv[i]).path.len() > 0 by {
        assert(opsv[i] == ops[i]@);
    }
    lemma_apply_ops_satisfies(as_table(x), opsv, t);
    let f = is_implicit(x[seq![]]);
    let y = as_item(t, f);
    assert forall|i: int| 0 <= i < ops.len() implies satisfied(as_table(y), #[trigger] opsv[i]) by {
        let k = opsv[i].path[0];
        lemma_under_root_free(t, TomlNode::Table { implicit: f }, k);
        lemma_under_root_free(y, TomlNode::Table { implicit: f }, k);
        assert(under(as_table(y), k) == under(t, k));
        assert(satisfied(t, opsv[i]));
    }
    let a = parsed_toml(after@)->0;
    assert(unmarked(as_table(a)) =~= as_table(unmarked(a)));
    assert(unmarked(as_table(y)) =~= as_table(unmarked(y)));
    assert forall|i: int| 0 <= i < ops.len() implies satisfied(as_table(a), #[trigger] ops_view(ops)[i]) by {
        assert(opsv[i].path.len() > 0) by {
            assert(opsv[i] == ops[i]@);
        }
        lemma_satisfied_unmarked(as_table(a), as_table(y), opsv[i]);
    }
}

/// Planning a change again on the text that a plan of it wrote finds nothing left to
/// do: the change runs through and the document holds what it held, when the paths of
/// the change's operations pairwise part (as `plan` states of the text it writes).
pub proof fn lemma_replan_text_unchanged(before: Seq<char>, ops: Seq<TomlOpView>, after: Seq<char>)
    requires
        parsed_toml(before) is Some,
        edited(parsed_toml(before)->0, ops) is Some,
        paths_part(ops),
        parsed_toml(after) is Some,
        unmarked(parsed_toml(after)->0) == unmarked(edited(parsed_toml(before)->0, ops)->0),
    ensures
        edited(parsed_toml(after)->0, ops) is Some,
        unmarked(edited(parsed_toml(after)->0, ops)->0) == unmarked(parsed_toml(after)->0),
{
    let x = parsed_toml(before)->0;
    let e1 = edited(x, ops)->0;
    let y = parsed_toml(after)->0;
    lemma_replan_unchanged(x, ops);
    assert(unmarked(y)[seq![]] == unmarked(e1)[seq![]]);
    assert(y.dom().contains(seq![]) == e1.dom().contains(seq![])) by {
        assert(unmarked(y).dom().contains(seq![]) == unmarked(e1).dom().contains(seq![]));
    }
    assert(is_table_item(e1));
    assert(is_table_item(y)) by {
        assert(plain(y[seq![]]) == plain(e1[seq![]]));
    }
    assert(unmarked(as_table(y)) =~= as_table(unmarked(y)));
    assert(unmarked(as_table(e1)) =~= as_table(unmarked(e1)));
    lemma_apply_ops_unmarked(as_table(y), as_table(e1), ops);
    let ty = apply_ops(as_table(y), ops)->0;
    let te = apply_ops(as_table(e1), ops)->0;
    assert(edited(e1, ops) == Some(e1));
    assert(unmarked(as_item(ty, is_implicit(y[seq![]]))) =~= unmarked(as_item(te, is_implicit(e1[seq![]])))) by {
        assert(unmarked(ty) == unmarked(te));
        assert forall|p: Seq<Seq<char>>| ty.dom().contains(p) == te.dom().contains(p) by {
            assert(unmarked(ty).dom().contains(p) == unmarked(te).dom().contains(p));
        }
        assert forall|p: Seq<Seq<char>>| ty.dom().contains(p) implies plain(ty[p]) == plain(te[p]) by {
            assert(unmarked(ty)[p] == unmarked(te)[p]);
        }
    }
}

/// An edit keeps every implicit table of the document shown.
proof fn lemma_edited_shows(x: Entries, ops: Seq<TomlOpView>)
    requires
        shows_all(x),
        edited(x, ops) is Some,
    ensures
        shows_all(edited(x, ops)->0),
{
    let m = as_table(x);
    assert(shows_all(m)) by {
        assert forall|p: Seq<Seq<char>>|
            #![trigger m.dom().contains(p)]
            m.dom().contains(p) && p.len() > 0 && is_implicit(m[p]) implies exists|q: Seq<Seq<char>>|
            q.len() > 0 && m.dom().contains(#[trigger] (p + q)) && !is_implicit(m[p + q]) by {
            assert(x.dom().contains(p));
            let q = choose|q: Seq<Seq<char>>|
                q.len() > 0 && x.dom().contains(#[trigger] (p + q)) && !is_implicit(x[p + q]);
            assert((p + q).len() > 0);
            assert(p + q != Seq::<Seq<char>>::empty());
        }
    }
    lemma_apply_ops_shows(m, ops);
    let t = apply_ops(m, ops)->0;
    let y = as_item(t, is_implicit(x[seq![]]));
    assert forall|p: Seq<Seq<char>>|
        #![trigger y.dom().contains(p)]
        y.dom().contains(p) && p.len() > 0 && is_implicit(y[p]) implies exists|q: Seq<Seq<char>>|
        q.len() > 0 && y.dom().contains(#[trigger] (p + q)) && !is_implicit(y[p + q]) by {
        assert(p != Seq::<Seq<char>>::empty());
        assert(t.dom().contains(p));
        let q = choose|q: Seq<Seq<char>>|
            q.len() > 0 && t.dom().contains(#[trigger] (p + q)) && !is_implicit(t[p + q]);
        assert((p + q).len() > 0);
        assert(p + q != Seq::<Seq<char>>::empty());
    }
}

/// A change never puts anything at the empty path of the table it runs on.
proof fn lemma_apply_ops_root_free(m: Entries, ops: Seq<TomlOpView>)
    requires
        !m.dom().contains(seq![]),
        apply_ops(m, ops) is Some,
    ensures
        !apply_ops(m, ops)->0.dom().contains(seq![]),
    decreases ops.len(),
{
    if ops.len() > 0 {
        lemma_apply_ops_root_free(m, ops.drop_last());
        let m1 = apply_ops(m, ops.drop_last())->0;
        let p = ops.last().path;
        if p.len() > 0 {
            lemma_set_in_root(m1, p.drop_last(), p.last(), ops.last().value);
        }
    }
}

/// Planning a change again on the document it produced changes nothing, when the paths
/// of its operations pairwise part: re-applying never duplicates a flag or rewrites a
/// value.
pub proof fn lemma_replan_unchanged(x: Entries, ops: Seq<TomlOpView>)
    requires
        edited(x, ops) is Some,
        paths_part(ops),
    ensures
        edited(edited(x, ops)->0, ops) == edited(x, ops),
{
    let m = as_table(x);
    let t = apply_ops(m, ops)->0;
    assert(!m.dom().contains(seq![]));
    lemma_apply_ops_root_free(m, ops);
    assert(as_table(as_item(t, is_implicit(x[seq![]]))) =~= t);
    lemma_apply_ops_idempotent(m, ops, t);
}

// ---------------------------------------------------------------------------
// Diffs
// ---------------------------------------------------------------------------
/// The unified diff text that `similar` writes for the lines of `old` and `new`, with
/// `radius` lines of context and the file names `old_name` and `new_name`.
pub uninterp spec fn unified_diff_text(
    old: Seq<char>,
    new: Seq<char>,
    radius: nat,
    old_name: Seq<char>,
    new_name: Seq<char>,
) -> Seq<char>;

/// `similar::udiff::unified_diff` with the Myers algorithm (what `TextDiff::from_lines`
/// uses). The text is a function of the arguments alone; with no changes there is no
/// hunk, and with no hunk nothing is written, not even the header.
#[verifier::external_body]
fn similar_unified_diff(old: &str, new: &str, radius: usize, old_name: &str, new_name: &str) -> (r: String)
    ensures
        r@ == unified_diff_text(old@, new@, radius as nat, old_name@, new_name@),
        old@ == new@ ==> r@ == Seq::<char>::empty(),
{
    similar::udiff::unified_diff(similar::Algorithm::Myers, old, new, radius, Some((old_name, new_name)))
}

/// A unified diff of `before` and `after` with three lines of context, headed
/// `a/<label>` and `b/<label>`.
pub fn unified(before: &str, after: &str, label: &str) -> (r: String)
    ensures
        r@ == unified_diff_text(before@, after@, 3, "a/"@ + label@, "b/"@ + label@),
        before@ == after@ ==> r@ == Seq::<char>::empty(),
{
    let a = String::from_str("a/").concat(label);
    let b = String::from_str("b/").concat(label);
    similar_unified_diff(before, after, 3, a.as_str(), b.as_str())
}

} // verus!
