//! Paths, held as strings. Path semantics (what a parent is, how joining works, when
//! two paths are equal) come from `std::path`, through the trusted items below; the
//! home directory comes from `dirs`.
use vstd::prelude::*;
use std::path::Path;

verus! {

/// The parent of the path `p` as `Path::parent` gives it (`None` for a root or an
/// empty path).
pub uninterp spec fn path_parent_of(p: Seq<char>) -> Option<Seq<char>>;

/// `a` joined with `b` as `Path::join` gives it.
pub uninterp spec fn path_join_of(a: Seq<char>, b: Seq<char>) -> Seq<char>;

/// The last component of `p` as `Path::file_name` gives it.
pub uninterp spec fn path_file_name_of(p: Seq<char>) -> Option<Seq<char>>;

/// `Path::new(a) == Path::new(b)`: the two paths have the same components.
pub uninterp spec fn same_path(a: Seq<char>, b: Seq<char>) -> bool;

/// `Path::new(p).starts_with(base)`: the components of `base` begin those of `p`.
pub uninterp spec fn path_starts_with_of(p: Seq<char>, base: Seq<char>) -> bool;

/// `Path::parent`, shown as a string. A parent of a UTF-8 path is a prefix of it, so
/// the conversion loses nothing.
#[verifier::external_body]
fn path_parent(p: &str) -> (r: Option<String>)
    ensures
        r is Some <==> path_parent_of(p@) is Some,
        r matches Some(q) ==> q@ == path_parent_of(p@)->0,
{
    match Path::new(p).parent() {
        Some(q) => Some(q.to_string_lossy().into_owned()),
        None => None,
    }
}

/// `Path::join`, shown as a string.
#[verifier::external_body]
pub(crate) fn path_join(a: &str, b: &str) -> (r: String)
    ensures
        r@ == path_join_of(a@, b@),
{
    Path::new(a).join(b).to_string_lossy().into_owned()
}

/// `Path::file_name`, shown as a string.
#[verifier::external_body]
fn path_file_name(p: &str) -> (r: Option<String>)
    ensures
        r is Some <==> path_file_name_of(p@) is Some,
        r matches Some(q) ==> q@ == path_file_name_of(p@)->0,
{
    match Path::new(p).file_name() {
        Some(q) => Some(q.to_string_lossy().into_owned()),
        None => None,
    }
}

/// `Path == Path`.
#[verifier::external_body]
pub(crate) fn paths_equal(a: &str, b: &str) -> (r: bool)
    ensures
        r == same_path(a@, b@),
{
    Path::new(a) == Path::new(b)
}

/// `Path::starts_with`.
#[verifier::external_body]
pub(crate) fn path_starts_with(p: &str, base: &str) -> (r: bool)
    ensures
        r == path_starts_with_of(p@, base@),
{
    Path::new(p).starts_with(base)
}

/// `dirs::home_dir`, shown as a string. It reads the environment (and on some systems
/// the user database), so nothing is stated of the result.
#[verifier::external_body]
pub(crate) fn home_dir() -> Option<String> {
    match dirs::home_dir() {
        Some(h) => Some(h.to_string_lossy().into_owned()),
        None => None,
    }
}

/// The path `p`, then its parents, up to the first one that is the same path as
/// `home`; `None` when no ancestor is.
pub open spec fn climb(p: Seq<char>, home: Seq<char>) -> Option<Seq<Seq<char>>>
    decreases p.len(),
{
    if same_path(p, home) {
        Some(seq![p])
    } else {
        match path_parent_of(p) {
            None => None,
            Some(q) => if q.len() < p.len() {
                match climb(q, home) {
                    Some(s) => Some(seq![p] + s),
                    None => None,
                }
            } else {
                None
            },
        }
    }
}

/// The sweep candidates: the project dir then each parent up to and including `home`,
/// narrow to wide. When the project is not under `home` (or there is no home), only
/// the project dir.
pub open spec fn candidates_spec(root: Seq<char>, home: Option<String>) -> Seq<Seq<char>> {
    match home {
        Some(h) => match climb(root, h@) {
            Some(s) => s,
            None => seq![root],
        },
        None => seq![root],
    }
}

/// A successful climb starts at `p`, steps from each path to its parent, and ends at a
/// path that is the same as `home`.
pub proof fn lemma_climb_shape(p: Seq<char>, home: Seq<char>)
    ensures
        climb(p, home) matches Some(s) ==> {
            &&& s.len() >= 1
            &&& s[0] == p
            &&& same_path(s.last(), home)
            &&& forall|k: int|
                0 <= k < s.len() - 1 ==> path_parent_of(#[trigger] s[k]) == Some(s[k + 1])
        },
    decreases p.len(),
{
    if !same_path(p, home) {
        if let Some(q) = path_parent_of(p) {
            if q.len() < p.len() {
                lemma_climb_shape(q, home);
                if let Some(rest) = climb(q, home) {
                    let s = seq![p] + rest;
                    assert forall|k: int| 0 <= k < s.len() - 1 implies path_parent_of(
                        #[trigger] s[k],
                    ) == Some(s[k + 1]) by {
                        if k > 0 {
                            assert(s[k] == rest[k - 1]);
                            assert(s[k + 1] == rest[k]);
                        }
                    }
                    assert(s.last() == rest.last());
                }
            }
        }
    }
}

/// The path `k` parents above `p`, each step to a strictly shorter path; `None` when
/// the chain ends (a root) before that.
pub open spec fn ancestor(p: Seq<char>, k: nat) -> Option<Seq<char>>
    decreases k,
{
    if k == 0 {
        Some(p)
    } else {
        match path_parent_of(p) {
            Some(q) => if q.len() < p.len() {
                ancestor(q, (k - 1) as nat)
            } else {
                None
            },
            None => None,
        }
    }
}

/// When `home` is reached by going up from `p` (its `k`-th ancestor is the same path as
/// `home`), the climb succeeds: it lists `p` and its ancestors in order, one per step up,
/// and stops at the first that is `home`, so at most `k + 1` paths.
pub proof fn lemma_climb_reaches_home(p: Seq<char>, home: Seq<char>, k: nat)
    requires
        ancestor(p, k) is Some,
        same_path(ancestor(p, k)->0, home),
    ensures
        climb(p, home) is Some,
        climb(p, home)->0.len() <= k + 1,
        forall|j: int|
            0 <= j < climb(p, home)->0.len() ==> ancestor(p, j as nat) == Some(
                #[trigger] climb(p, home)->0[j],
            ),
        same_path(climb(p, home)->0.last(), home),
    decreases k,
{
    lemma_climb_shape(p, home);
    if !same_path(p, home) {
        assert(k > 0);
        let q = path_parent_of(p)->0;
        assert(ancestor(q, (k - 1) as nat) == ancestor(p, k));
        lemma_climb_reaches_home(q, home, (k - 1) as nat);
        let s2 = climb(q, home)->0;
        let s = climb(p, home)->0;
        assert(s == seq![p] + s2);
        assert forall|j: int| 0 <= j < s.len() implies ancestor(p, j as nat) == Some(#[trigger] s[j]) by {
            if j > 0 {
                assert(s[j] == s2[j - 1]);
                assert(ancestor(p, j as nat) == ancestor(q, (j - 1) as nat));
            }
        }
    }
}

/// The sweep candidates when home lies up the parent chain of the project: every path
/// from the project up to home, in order, ending at home.
pub proof fn lemma_candidates_up_to_home(root: Seq<char>, home: String, k: nat)
    requires
        ancestor(root, k) is Some,
        same_path(ancestor(root, k)->0, home@),
    ensures
        candidates_spec(root, Some(home)).len() <= k + 1,
        forall|j: int|
            0 <= j < candidates_spec(root, Some(home)).len() ==> ancestor(root, j as nat) == Some(
                #[trigger] candidates_spec(root, Some(home))[j],
            ),
        same_path(candidates_spec(root, Some(home)).last(), home@),
{
    lemma_climb_reaches_home(root, home@, k);
}

/// The sweep candidates run from the project dir through each parent in turn; when the
/// project lies under `home`, they end at `home`, else the project dir is the only one.
pub proof fn lemma_candidates_shape(root: Seq<char>, home: Option<String>)
    ensures
        candidates_spec(root, home).len() >= 1,
        candidates_spec(root, home)[0] == root,
        forall|k: int|
            0 <= k < candidates_spec(root, home).len() - 1 ==> path_parent_of(
                #[trigger] candidates_spec(root, home)[k],
            ) == Some(candidates_spec(root, home)[k + 1]),
        home matches Some(h) ==> (climb(root, h@) is Some ==> same_path(
            candidates_spec(root, home).last(),
            h@,
        )) && (climb(root, h@) is None ==> candidates_spec(root, home) == seq![root]),
{
    if let Some(h) = home {
        lemma_climb_shape(root, h@);
    }
}

fn climb_exec(p: &String, home: &str) -> (r: Option<Vec<String>>)
    ensures
        match r {
            Some(v) => climb(p@, home@) == Some(crate::text::views(v@)),
            None => climb(p@, home@) is None,
        },
    decreases p@.len(),
{
    if paths_equal(p.as_str(), home) {
        let mut v: Vec<String> = Vec::new();
        v.push(p.clone());
        proof {
            assert(crate::text::views(v@) =~= seq![p@]);
        }
        return Some(v);
    }
    match path_parent(p.as_str()) {
        None => None,
        Some(q) => {
            if q.as_str().unicode_len() < p.as_str().unicode_len() {
                match climb_exec(&q, home) {
                    Some(rest) => {
                        let mut v: Vec<String> = Vec::new();
                        v.push(p.clone());
                        let n = rest.len();
                        let mut i: usize = 0;
                        while i < n
                            invariant
                                n == rest@.len(),
                                i <= n,
                                crate::text::views(v@) == seq![p@] + crate::text::views(
                                    rest@,
                                ).subrange(0, i as int),
                            decreases n - i,
                        {
                            let ghost before = v@;
                            let item = rest[i].clone();
                            v.push(item);
                            proof {
                                assert(v@ == before.push(item));
                                assert(crate::text::views(v@) =~= crate::text::views(before).push(rest@[i as int]@));
                                assert(crate::text::views(rest@).subrange(0, i + 1) =~= crate::text::views(
                                    rest@,
                                ).subrange(0, i as int).push(rest@[i as int]@));
                                assert(crate::text::views(v@) =~= seq![p@] + crate::text::views(
                                    rest@,
                                ).subrange(0, i + 1));
                            }
                            i = i + 1;
                        }
                        proof {
                            assert(crate::text::views(rest@).subrange(0, n as int) =~= crate::text::views(rest@));
                        }
                        Some(v)
                    },
                    None => None,
                }
            } else {
                None
            }
        },
    }
}

fn only(root: &String) -> (v: Vec<String>)
    ensures
        crate::text::views(v@) == seq![root@],
{
    let mut v: Vec<String> = Vec::new();
    v.push(root.clone());
    proof {
        assert(crate::text::views(v@) =~= seq![root@]);
    }
    v
}

/// The project dir then each parent up to and including `home`, narrow to wide. If the
/// project is not under `home` the chain would climb to the filesystem root, so in that
/// case only the project dir is offered and nothing is swept toward `/`.
pub fn candidates_up_to(root: &String, home: &Option<String>) -> (r: Vec<String>)
    ensures
        crate::text::views(r@) == candidates_spec(root@, *home),
{
    match home {
        Some(h) => match climb_exec(root, h.as_str()) {
            Some(v) => v,
            None => only(root),
        },
        None => only(root),
    }
}

/// The sweep candidates for the project at `root`, up to the user's home directory.
pub fn sweep_candidates(root: &String) -> (r: Vec<String>)
    ensures
        exists|home: Option<String>| crate::text::views(r@) == candidates_spec(root@, home),
{
    let home = home_dir();
    candidates_up_to(root, &home)
}

/// The last component of `path`, or the whole path when it has none.
pub open spec fn filename_of(path: Seq<char>) -> Seq<char> {
    match path_file_name_of(path) {
        Some(f) => f,
        None => path,
    }
}

/// The file name shown on a diff header.
pub fn filename(path: &str) -> (r: String)
    ensures
        r@ == filename_of(path@),
{
    match path_file_name(path) {
        Some(f) => f,
        None => String::from_str(path),
    }
}

/// `home` joined with `.cache/cargo-target`; an unknown home counts as the empty path.
pub open spec fn shared_target_dir_of(home: Option<String>) -> Seq<char> {
    let h = match home {
        Some(s) => s@,
        None => seq![],
    };
    path_join_of(path_join_of(h, ".cache"@), "cargo-target"@)
}

/// The shared target dir under the home directory `home`.
pub fn shared_target_dir_with(home: &Option<String>) -> (r: String)
    ensures
        r@ == shared_target_dir_of(*home),
{
    let h = match home {
        Some(s) => s.clone(),
        None => String::new(),
    };
    let c = path_join(h.as_str(), ".cache");
    path_join(c.as_str(), "cargo-target")
}

/// The global cargo config: `$CARGO_HOME/config.toml` when `CARGO_HOME` is set, else
/// `<home>/.cargo/config.toml` (an unknown home counts as the empty path).
pub open spec fn global_cargo_config_of(cargo_home: Option<String>, home: Option<String>) -> Seq<char> {
    match cargo_home {
        Some(c) => path_join_of(c@, "config.toml"@),
        None => {
            let h = match home {
                Some(s) => s@,
                None => seq![],
            };
            path_join_of(path_join_of(h, ".cargo"@), "config.toml"@)
        },
    }
}

/// The path of the global cargo config, from the value of `CARGO_HOME` and the home dir.
pub fn global_cargo_config(cargo_home: &Option<String>, home: &Option<String>) -> (r: String)
    ensures
        r@ == global_cargo_config_of(*cargo_home, *home),
{
    match cargo_home {
        Some(c) => path_join(c.as_str(), "config.toml"),
        None => {
            let h = match home {
                Some(s) => s.clone(),
                None => String::new(),
            };
            let d = path_join(h.as_str(), ".cargo");
            path_join(d.as_str(), "config.toml")
        },
    }
}

} // verus!
