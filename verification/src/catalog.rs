//! The catalog of optimizations, gated to what applies to the live system. Each entry
//! is declarative; the TOML editor and the runner carry it out. Numbers in the
//! rationale come from the live report so the user sees why an item matters on their
//! machine.
use vstd::prelude::*;
use crate::paths::{candidates_spec, candidates_up_to, home_dir, shared_target_dir_of, shared_target_dir_with};
use crate::suggestion::{
    sug_views, Action, ActionView, InstallSpec, InstallSpecView, Scope, Suggestion,
    SuggestionView, SweepSpec, SweepSpecView, Tag, TomlChange, TomlChangeView, TomlOp,
    TomlOpView, TomlValue, TomlValueView,
};
use crate::system::{disk_facts_ok, has_tool, human_bytes, human_bytes_text, used_pct, SystemReport, ToolSet};
use crate::text::{decimal, decimal_string, views};
use crate::status::{sug_well_formed, view_well_formed};
use crate::toml_model::{diverge, paths_part};

verus! {

pub const T_SHARED: &'static str = "Shared target dir for every project and worktree";
pub const W_SHARED: &'static str = " Point all builds at one dir so repos and git worktrees stop duplicating target/. The single biggest lever on disk sprawl.";
pub const T_METADATA: &'static str = "Stop duplicating crate metadata into rlibs";
pub const W_METADATA: &'static str = "Nightly Cargo flag: roughly 5-35% smaller target/ by not embedding metadata in every .rlib.";
pub const T_WRAPPER: &'static str = "Route rustc through sccache";
pub const W_WRAPPER: &'static str = "Caveat: this disables incremental compilation, so it helps cold and cross-project builds more than tight single-crate edit loops.";
pub const T_INSTALL_SCCACHE: &'static str = "Install sccache (cross-project compile cache)";
pub const W_INSTALL_SCCACHE: &'static str = "Caches compiled crates across every project and survives cargo clean. Best for cold and cross-project builds. Re-run frd afterward to route rustc through it.";
pub const T_DEBUG: &'static str = "dev profile: debug = line-tables-only";
pub const W_DEBUG: &'static str = "Debug info is the biggest single contributor to target/ size. line-tables-only keeps readable backtraces while dropping most of the bytes. Oxide ships this.";
pub const T_SPLIT: &'static str = "dev profile: split-debuginfo = unpacked (macOS)";
pub const W_SPLIT: &'static str = "On macOS this speeds relinking in the edit loop by keeping debug info out of the main object file.";
pub const T_OPT: &'static str = "dev profile: opt-level = 2 for dependencies";
pub const W_OPT: &'static str = "Compile dependencies optimized while your own crate stays at 0: snappier dev binaries without slowing your edit-compile loop.";
pub const T_FAST: &'static str = "Add a disk-light fast-build profile";
pub const W_FAST: &'static str = "A profile with no debug info for when you do not need a debugger: smallest output and fastest link. Build with: cargo build --profile fast-build.";
pub const T_STRIP: &'static str = "release profile: strip = true";
pub const W_STRIP: &'static str = "Strip symbols and debug info from shipped binaries, shrinking target/release.";
pub const T_FLAGS: &'static str = "Nightly: parallel frontend + share-generics";
pub const W_FLAGS: &'static str = "-Zthreads=0 parallelizes the compiler frontend; -Zshare-generics=y cuts duplicate monomorphization across crates.";
pub const T_SWEEP: &'static str = "Sweep stale build artifacts";
pub const W_SWEEP: &'static str = "Removes artifacts untouched for more than 7 days while keeping warm ones. Choose how wide to sweep: just this project, or any parent up to your home dir.";
pub const T_INSTALL_SWEEP: &'static str = "Install cargo-sweep (disk reclaim)";
pub const W_INSTALL_SWEEP: &'static str = "Garbage-collects stale build artifacts that Cargo never removes, by age, instead of the all-or-nothing cargo clean. Re-run frd afterward to sweep.";
pub const T_INSTALL_MACHETE: &'static str = "Install cargo-machete (find unused deps)";
pub const W_INSTALL_MACHETE: &'static str = "Finds dependencies you no longer use. Fewer deps means less to compile and store.";

/// The disk sentence that opens the shared-target rationale, empty when the disk is unknown.
pub open spec fn disk_context(r: SystemReport) -> Seq<char> {
    match (r.disk_free_bytes, used_pct(r.disk_total_bytes, r.disk_free_bytes)) {
        (Some(free), Some(pct)) => "Disk is "@ + decimal(pct as nat) + "% full, "@ + human_bytes_text(
            free as nat,
        ) + " free."@,
        _ => seq![],
    }
}

/// One operation as a view.
pub open spec fn op_view(path: Seq<Seq<char>>, v: TomlValueView) -> TomlOpView {
    TomlOpView { path, value: v }
}

/// A TOML suggestion as a view.
pub open spec fn toml_view(title: Seq<char>, tag: Tag, why: Seq<char>, scope: Scope, ops: Seq<TomlOpView>) -> SuggestionView {
    SuggestionView { title, tag, why, action: ActionView::Toml(TomlChangeView { scope, ops }) }
}

/// An install suggestion as a view.
pub open spec fn install_view(title: Seq<char>, tag: Tag, why: Seq<char>, name: Seq<char>) -> SuggestionView {
    SuggestionView {
        title,
        tag,
        why,
        action: ActionView::Install(InstallSpecView { crate_name: name, bin_name: name }),
    }
}

/// The suggestions of the catalog for the report `r`, the tools found `tools` and the
/// home directory `home`, in the order the wizard shows them.
pub open spec fn catalog(r: SystemReport, tools: ToolSet, home: Option<String>) -> Seq<SuggestionView> {
    let p = r.project;
    let s0 = seq![
        toml_view(
            T_SHARED@,
            Tag::Disk,
            disk_context(r) + W_SHARED@,
            Scope::Global,
            seq![op_view(seq!["build"@, "target-dir"@], TomlValueView::Str(shared_target_dir_of(home)))],
        ),
    ];
    let s1 = if r.nightly {
        s0.push(
            toml_view(
                T_METADATA@,
                Tag::Disk,
                W_METADATA@,
                Scope::Global,
                seq![op_view(seq!["unstable"@, "no-embed-metadata"@], TomlValueView::Bool(true))],
            ),
        )
    } else {
        s0
    };
    let s2 = if has_tool(tools, "sccache"@) {
        s1.push(
            toml_view(
                T_WRAPPER@,
                Tag::Both,
                W_WRAPPER@,
                Scope::Global,
                seq![op_view(seq!["build"@, "rustc-wrapper"@], TomlValueView::Str("sccache"@))],
            ),
        )
    } else {
        s1.push(install_view(T_INSTALL_SCCACHE@, Tag::Both, W_INSTALL_SCCACHE@, "sccache"@))
    };
    let s3 = if p.has_cargo_toml {
        let a = s2.push(
            toml_view(
                T_DEBUG@,
                Tag::Disk,
                W_DEBUG@,
                Scope::ProjectCargo,
                seq![op_view(seq!["profile"@, "dev"@, "debug"@], TomlValueView::Str("line-tables-only"@))],
            ),
        );
        let b = if r.os@ == "macos"@ {
            a.push(
                toml_view(
                    T_SPLIT@,
                    Tag::Speed,
                    W_SPLIT@,
                    Scope::ProjectCargo,
                    seq![op_view(seq!["profile"@, "dev"@, "split-debuginfo"@], TomlValueView::Str("unpacked"@))],
                ),
            )
        } else {
            a
        };
        b.push(
            toml_view(
                T_OPT@,
                Tag::Speed,
                W_OPT@,
                Scope::ProjectCargo,
                seq![op_view(seq!["profile"@, "dev"@, "package"@, "*"@, "opt-level"@], TomlValueView::Int(2))],
            ),
        ).push(
            toml_view(
                T_FAST@,
                Tag::Both,
                W_FAST@,
                Scope::ProjectCargo,
                seq![
                    op_view(seq!["profile"@, "fast-build"@, "inherits"@], TomlValueView::Str("dev"@)),
                    op_view(seq!["profile"@, "fast-build"@, "debug"@], TomlValueView::Int(0)),
                    op_view(seq!["profile"@, "fast-build"@, "strip"@], TomlValueView::Str("debuginfo"@)),
                ],
            ),
        ).push(
            toml_view(
                T_STRIP@,
                Tag::Disk,
                W_STRIP@,
                Scope::ProjectCargo,
                seq![op_view(seq!["profile"@, "release"@, "strip"@], TomlValueView::Bool(true))],
            ),
        )
    } else {
        s2
    };
    let s4 = if r.nightly && p.has_cargo_toml {
        s3.push(
            toml_view(
                T_FLAGS@,
                Tag::Speed,
                W_FLAGS@,
                Scope::ProjectConfig,
                seq![
                    op_view(
                        seq!["build"@, "rustflags"@],
                        TomlValueView::AppendFlags(seq!["-Zthreads=0"@, "-Zshare-generics=y"@]),
                    ),
                ],
            ),
        )
    } else {
        s3
    };
    let s5 = if has_tool(tools, "cargo-sweep"@) {
        s4.push(
            SuggestionView {
                title: T_SWEEP@,
                tag: Tag::Disk,
                why: W_SWEEP@,
                action: ActionView::Sweep(
                    SweepSpecView { candidates: candidates_spec(p.root@, home), time_days: 7 },
                ),
            },
        )
    } else {
        s4.push(install_view(T_INSTALL_SWEEP@, Tag::Disk, W_INSTALL_SWEEP@, "cargo-sweep"@))
    };
    if !has_tool(tools, "cargo-machete"@) {
        s5.push(install_view(T_INSTALL_MACHETE@, Tag::Both, W_INSTALL_MACHETE@, "cargo-machete"@))
    } else {
        s5
    }
}

/// Every TOML operation of the catalog names at least one key.
pub proof fn lemma_catalog_well_formed(r: SystemReport, tools: ToolSet, home: Option<String>)
    ensures
        forall|i: int|
            0 <= i < catalog(r, tools, home).len() ==> view_well_formed(
                #[trigger] catalog(r, tools, home)[i],
            ),
{
}

/// What the catalog may offer on this machine: an install only for a tool that was not
/// found; the sweep only when cargo-sweep was found; the sccache wrapper only when sccache
/// was found (a wrapper without the binary breaks every build); and the nightly
/// `rustflags` only on a nightly toolchain and only in the project's own config (a global
/// `rustflags` overrides a repository's own flags instead of merging with them).
pub open spec fn fits_machine(r: SystemReport, tools: ToolSet, s: SuggestionView) -> bool {
    match s.action {
        ActionView::Install(spec) => !has_tool(tools, spec.bin_name),
        ActionView::Sweep(_) => has_tool(tools, "cargo-sweep"@),
        ActionView::Toml(ch) => forall|k: int|
            0 <= k < ch.ops.len() ==> {
                &&& (#[trigger] ch.ops[k]).path == seq!["build"@, "rustc-wrapper"@] ==> has_tool(
                    tools,
                    "sccache"@,
                )
                &&& ch.ops[k].path == seq!["build"@, "rustflags"@] ==> ch.scope == Scope::ProjectConfig
                    && r.nightly
            },
        ActionView::Purge(_) => true,
    }
}

/// Two key paths of two keys each differ when their second keys do.
proof fn lemma_second_key_differs(a: Seq<char>, b: Seq<char>, c: Seq<char>)
    requires
        b != c,
    ensures
        seq![a, b] != seq![a, c],
{
    assert(seq![a, b][1] == b);
    assert(seq![a, c][1] == c);
}

/// Every suggestion of the catalog fits the machine it was built for.
pub proof fn lemma_catalog_fits_machine(r: SystemReport, tools: ToolSet, home: Option<String>)
    ensures
        forall|i: int|
            0 <= i < catalog(r, tools, home).len() ==> fits_machine(
                r,
                tools,
                #[trigger] catalog(r, tools, home)[i],
            ),
{
    reveal_strlit("build");
    reveal_strlit("rustc-wrapper");
    reveal_strlit("rustflags");
    reveal_strlit("target-dir");
    reveal_strlit("unstable");
    reveal_strlit("profile");
    let wrapper = seq!["build"@, "rustc-wrapper"@];
    let flags = seq!["build"@, "rustflags"@];
    assert("target-dir"@ != "rustc-wrapper"@ && "target-dir"@ != "rustflags"@) by {
        assert("target-dir"@.len() != "rustc-wrapper"@.len());
        assert("target-dir"@.len() != "rustflags"@.len());
    }
    assert("rustc-wrapper"@ != "rustflags"@) by {
        assert("rustc-wrapper"@.len() != "rustflags"@.len());
    assert("rustc-wrapper"@.len() != "target-dir"@.len());
    }
    assert("unstable"@ != "build"@ && "profile"@ != "build"@) by {
        assert("unstable"@.len() != "build"@.len());
        assert("profile"@.len() != "build"@.len());
    }
    lemma_second_key_differs("build"@, "target-dir"@, "rustc-wrapper"@);
    lemma_second_key_differs("build"@, "target-dir"@, "rustflags"@);
    lemma_second_key_differs("build"@, "rustc-wrapper"@, "rustflags"@);
    assert(seq!["unstable"@, "no-embed-metadata"@] != wrapper && seq!["unstable"@, "no-embed-metadata"@]
        != flags) by {
        assert(seq!["unstable"@, "no-embed-metadata"@][0] != wrapper[0]);
    }
    let c = catalog(r, tools, home);
    assert forall|i: int| 0 <= i < c.len() implies fits_machine(r, tools, #[trigger] c[i]) by {
    }
}

/// The operations of every catalog change name pairwise parting paths, so planning a
/// catalog change again on its own result changes nothing (`lemma_replan_unchanged`).
pub proof fn lemma_catalog_paths_part(r: SystemReport, tools: ToolSet, home: Option<String>)
    ensures
        forall|i: int|
            0 <= i < catalog(r, tools, home).len() ==> ((#[trigger] catalog(r, tools, home)[i]).action matches ActionView::Toml(
                ch,
            ) ==> paths_part(ch.ops)),
{
    reveal_strlit("inherits");
    reveal_strlit("debug");
    reveal_strlit("strip");
    let base = seq!["profile"@, "fast-build"@];
    let pa = base.push("inherits"@);
    let pb = base.push("debug"@);
    let pc = base.push("strip"@);
    assert("inherits"@ != "debug"@ && "inherits"@ != "strip"@) by {
        assert("inherits"@.len() != "debug"@.len());
        assert("inherits"@.len() != "strip"@.len());
    }
    assert("debug"@ != "strip"@) by {
        assert("debug"@[0] != "strip"@[0]);
    }
    assert(diverge(pa, pb) && diverge(pb, pa)) by {
        assert(pa[2] != pb[2]);
    }
    assert(diverge(pa, pc) && diverge(pc, pa)) by {
        assert(pa[2] != pc[2]);
    }
    assert(diverge(pb, pc) && diverge(pc, pb)) by {
        assert(pb[2] != pc[2]);
    }
    assert(seq!["profile"@, "fast-build"@, "inherits"@] == pa);
    assert(seq!["profile"@, "fast-build"@, "debug"@] == pb);
    assert(seq!["profile"@, "fast-build"@, "strip"@] == pc);
    let c = catalog(r, tools, home);
    assert forall|i: int| 0 <= i < c.len() implies ((#[trigger] c[i]).action matches ActionView::Toml(ch)
        ==> paths_part(ch.ops)) by {
    }
}

/// The suggestion writes the key path `p`.
pub open spec fn writes_path(s: SuggestionView, p: Seq<Seq<char>>) -> bool {
    s.action matches ActionView::Toml(ch) && exists|k: int| 0 <= k < ch.ops.len() && #[trigger] ch.ops[k].path == p
}

/// `profile.dev.split-debuginfo`.
pub open spec fn split_debuginfo_path() -> Seq<Seq<char>> {
    seq!["profile"@, "dev"@, "split-debuginfo"@]
}

/// `unstable.no-embed-metadata`.
pub open spec fn no_embed_path() -> Seq<Seq<char>> {
    seq!["unstable"@, "no-embed-metadata"@]
}

proof fn lemma_catalog_key_facts()
    ensures
        "debug"@ != "split-debuginfo"@,
        "fast-build"@ != "dev"@,
        "release"@ != "dev"@,
        "build"@ != "unstable"@,
        "build"@ != "profile"@,
        "unstable"@ != "profile"@,
        "target-dir"@ != "rustflags"@,
        "rustc-wrapper"@ != "rustflags"@,
        "rustc-wrapper"@ != "target-dir"@,
{
    reveal_strlit("debug");
    reveal_strlit("split-debuginfo");
    reveal_strlit("fast-build");
    reveal_strlit("dev");
    reveal_strlit("release");
    reveal_strlit("build");
    reveal_strlit("unstable");
    reveal_strlit("profile");
    reveal_strlit("target-dir");
    reveal_strlit("rustflags");
    reveal_strlit("rustc-wrapper");
    assert("debug"@.len() != "split-debuginfo"@.len());
    assert("fast-build"@.len() != "dev"@.len());
    assert("release"@.len() != "dev"@.len());
    assert("build"@.len() != "unstable"@.len());
    assert("build"@.len() != "profile"@.len());
    assert("unstable"@.len() != "profile"@.len());
    assert("target-dir"@.len() != "rustflags"@.len());
    assert("rustc-wrapper"@.len() != "rustflags"@.len());
    assert("rustc-wrapper"@.len() != "target-dir"@.len());
}

/// `build.rustc-wrapper`.
pub open spec fn wrapper_path() -> Seq<Seq<char>> {
    seq!["build"@, "rustc-wrapper"@]
}

/// The gates one suggestion obeys (see `lemma_catalog_gates`).
pub open spec fn gated(r: SystemReport, tools: ToolSet, s: SuggestionView) -> bool {
    &&& s.action is Install ==> !has_tool(tools, s.action->Install_0.bin_name)
    &&& s.action is Sweep ==> has_tool(tools, "cargo-sweep"@)
    &&& writes_path(s, wrapper_path()) ==> has_tool(tools, "sccache"@)
    &&& writes_path(s, split_debuginfo_path()) ==> r.os@ == "macos"@ && r.project.has_cargo_toml
    &&& writes_path(s, no_embed_path()) ==> r.nightly
    &&& writes_path(s, seq!["build"@, "rustflags"@]) ==> r.nightly && r.project.has_cargo_toml
    &&& (s.action is Toml && s.action->Toml_0.scope == Scope::ProjectCargo) ==> r.project.has_cargo_toml
}

/// Every suggestion of `s` obeys the gates.
pub open spec fn all_gated(r: SystemReport, tools: ToolSet, s: Seq<SuggestionView>) -> bool {
    forall|i: int| 0 <= i < s.len() ==> gated(r, tools, #[trigger] s[i])
}

proof fn lemma_gated_push(r: SystemReport, tools: ToolSet, s: Seq<SuggestionView>, x: SuggestionView)
    requires
        all_gated(r, tools, s),
        gated(r, tools, x),
    ensures
        all_gated(r, tools, s.push(x)),
{
    assert forall|i: int| 0 <= i < s.push(x).len() implies gated(r, tools, #[trigger] s.push(x)[i]) by {
        if i < s.len() {
            assert(s.push(x)[i] == s[i]);
        }
    }
}

/// A TOML suggestion of one operation on `path` obeys the gates when the path is none of
/// the gated ones and the scope is not `./Cargo.toml`, or when its conditions hold.
proof fn lemma_one_op_gated(r: SystemReport, tools: ToolSet, x: SuggestionView, path: Seq<Seq<char>>, v: TomlValueView)
    requires
        x.action is Toml,
        x.action->Toml_0.ops == seq![op_view(path, v)],
        path == split_debuginfo_path() ==> r.os@ == "macos"@ && r.project.has_cargo_toml,
        path == no_embed_path() ==> r.nightly,
        path == seq!["build"@, "rustflags"@] ==> r.nightly && r.project.has_cargo_toml,
        path == wrapper_path() ==> has_tool(tools, "sccache"@),
        x.action->Toml_0.scope == Scope::ProjectCargo ==> r.project.has_cargo_toml,
    ensures
        gated(r, tools, x),
{
    let ops = x.action->Toml_0.ops;
    assert forall|k: int| 0 <= k < ops.len() implies ops[k].path == path by {
        assert(k == 0);
    }
}

/// The catalog's platform and toolchain gates: the macOS-only `split-debuginfo` tweak is
/// offered only for a macOS project with a `Cargo.toml`, and always then; the nightly
/// `no-embed-metadata` flag only on a nightly toolchain, and always then; the nightly
/// `rustflags` only on a nightly toolchain for a project with a `Cargo.toml`; and every
/// change to `./Cargo.toml` only when the project has one. Tools: no tool that was found is
/// offered for install, and each of `sccache`, `cargo-sweep` and `cargo-machete` that is
/// missing is; `build.rustc-wrapper` and the sweep run are offered exactly when `sccache`
/// and `cargo-sweep` are there.
pub proof fn lemma_catalog_gates(r: SystemReport, tools: ToolSet, home: Option<String>)
    ensures
        forall|i: int|
            0 <= i < catalog(r, tools, home).len() && writes_path(
                #[trigger] catalog(r, tools, home)[i],
                split_debuginfo_path(),
            ) ==> r.os@ == "macos"@ && r.project.has_cargo_toml,
        r.os@ == "macos"@ && r.project.has_cargo_toml ==> exists|i: int|
            0 <= i < catalog(r, tools, home).len() && writes_path(
                #[trigger] catalog(r, tools, home)[i],
                split_debuginfo_path(),
            ),
        forall|i: int|
            0 <= i < catalog(r, tools, home).len() && writes_path(
                #[trigger] catalog(r, tools, home)[i],
                no_embed_path(),
            ) ==> r.nightly,
        r.nightly ==> exists|i: int|
            0 <= i < catalog(r, tools, home).len() && writes_path(
                #[trigger] catalog(r, tools, home)[i],
                no_embed_path(),
            ),
        forall|i: int|
            0 <= i < catalog(r, tools, home).len() && writes_path(
                #[trigger] catalog(r, tools, home)[i],
                seq!["build"@, "rustflags"@],
            ) ==> r.nightly && r.project.has_cargo_toml,
        forall|i: int|
            0 <= i < catalog(r, tools, home).len() && (#[trigger] catalog(r, tools, home)[i]).action is Toml
                && catalog(r, tools, home)[i].action->Toml_0.scope == Scope::ProjectCargo
                ==> r.project.has_cargo_toml,
        forall|i: int|
            0 <= i < catalog(r, tools, home).len() && (#[trigger] catalog(r, tools, home)[i]).action is Install
                ==> !has_tool(tools, catalog(r, tools, home)[i].action->Install_0.bin_name),
        forall|i: int|
            0 <= i < catalog(r, tools, home).len() && (#[trigger] catalog(r, tools, home)[i]).action is Sweep
                ==> has_tool(tools, "cargo-sweep"@),
        forall|i: int|
            0 <= i < catalog(r, tools, home).len() && writes_path(
                #[trigger] catalog(r, tools, home)[i],
                wrapper_path(),
            ) ==> has_tool(tools, "sccache"@),
        has_tool(tools, "sccache"@) ==> exists|i: int|
            0 <= i < catalog(r, tools, home).len() && writes_path(
                #[trigger] catalog(r, tools, home)[i],
                wrapper_path(),
            ),
        !has_tool(tools, "sccache"@) ==> exists|i: int|
            0 <= i < catalog(r, tools, home).len() && (#[trigger] catalog(r, tools, home)[i]).action
                == ActionView::Install(InstallSpecView { crate_name: "sccache"@, bin_name: "sccache"@ }),
        has_tool(tools, "cargo-sweep"@) ==> exists|i: int|
            0 <= i < catalog(r, tools, home).len() && (#[trigger] catalog(r, tools, home)[i]).action is Sweep,
        !has_tool(tools, "cargo-sweep"@) ==> exists|i: int|
            0 <= i < catalog(r, tools, home).len() && (#[trigger] catalog(r, tools, home)[i]).action
                == ActionView::Install(InstallSpecView { crate_name: "cargo-sweep"@, bin_name: "cargo-sweep"@ }),
        !has_tool(tools, "cargo-machete"@) ==> exists|i: int|
            0 <= i < catalog(r, tools, home).len() && (#[trigger] catalog(r, tools, home)[i]).action
                == ActionView::Install(InstallSpecView { crate_name: "cargo-machete"@, bin_name: "cargo-machete"@ }),
{
    lemma_catalog_key_facts();
    let p = r.project;
    let sp = split_debuginfo_path();
    let ne = no_embed_path();
    let fl = seq!["build"@, "rustflags"@];
    let v_shared = toml_view(
        T_SHARED@,
        Tag::Disk,
        disk_context(r) + W_SHARED@,
        Scope::Global,
        seq![op_view(seq!["build"@, "target-dir"@], TomlValueView::Str(shared_target_dir_of(home)))],
    );
    let v_meta = toml_view(
        T_METADATA@,
        Tag::Disk,
        W_METADATA@,
        Scope::Global,
        seq![op_view(seq!["unstable"@, "no-embed-metadata"@], TomlValueView::Bool(true))],
    );
    let v_wrapper = toml_view(
        T_WRAPPER@,
        Tag::Both,
        W_WRAPPER@,
        Scope::Global,
        seq![op_view(seq!["build"@, "rustc-wrapper"@], TomlValueView::Str("sccache"@))],
    );
    let v_sccache = install_view(T_INSTALL_SCCACHE@, Tag::Both, W_INSTALL_SCCACHE@, "sccache"@);
    let v_debug = toml_view(
        T_DEBUG@,
        Tag::Disk,
        W_DEBUG@,
        Scope::ProjectCargo,
        seq![op_view(seq!["profile"@, "dev"@, "debug"@], TomlValueView::Str("line-tables-only"@))],
    );
    let v_split = toml_view(
        T_SPLIT@,
        Tag::Speed,
        W_SPLIT@,
        Scope::ProjectCargo,
        seq![op_view(seq!["profile"@, "dev"@, "split-debuginfo"@], TomlValueView::Str("unpacked"@))],
    );
    let v_opt = toml_view(
        T_OPT@,
        Tag::Speed,
        W_OPT@,
        Scope::ProjectCargo,
        seq![op_view(seq!["profile"@, "dev"@, "package"@, "*"@, "opt-level"@], TomlValueView::Int(2))],
    );
    let v_fast = toml_view(
        T_FAST@,
        Tag::Both,
        W_FAST@,
        Scope::ProjectCargo,
        seq![
            op_view(seq!["profile"@, "fast-build"@, "inherits"@], TomlValueView::Str("dev"@)),
            op_view(seq!["profile"@, "fast-build"@, "debug"@], TomlValueView::Int(0)),
            op_view(seq!["profile"@, "fast-build"@, "strip"@], TomlValueView::Str("debuginfo"@)),
        ],
    );
    let v_strip = toml_view(
        T_STRIP@,
        Tag::Disk,
        W_STRIP@,
        Scope::ProjectCargo,
        seq![op_view(seq!["profile"@, "release"@, "strip"@], TomlValueView::Bool(true))],
    );
    let v_flags = toml_view(
        T_FLAGS@,
        Tag::Speed,
        W_FLAGS@,
        Scope::ProjectConfig,
        seq![
            op_view(
                seq!["build"@, "rustflags"@],
                TomlValueView::AppendFlags(seq!["-Zthreads=0"@, "-Zshare-generics=y"@]),
            ),
        ],
    );
    let v_sweep = SuggestionView {
        title: T_SWEEP@,
        tag: Tag::Disk,
        why: W_SWEEP@,
        action: ActionView::Sweep(SweepSpecView { candidates: candidates_spec(p.root@, home), time_days: 7 }),
    };
    let v_install_sweep = install_view(T_INSTALL_SWEEP@, Tag::Disk, W_INSTALL_SWEEP@, "cargo-sweep"@);
    let v_machete = install_view(T_INSTALL_MACHETE@, Tag::Both, W_INSTALL_MACHETE@, "cargo-machete"@);
    let s0 = seq![v_shared];
    let s1 = if r.nightly {
        s0.push(v_meta)
    } else {
        s0
    };
    let s2 = if has_tool(tools, "sccache"@) {
        s1.push(v_wrapper)
    } else {
        s1.push(v_sccache)
    };
    let a = s2.push(v_debug);
    let b = if r.os@ == "macos"@ {
        a.push(v_split)
    } else {
        a
    };
    let s3 = if p.has_cargo_toml {
        b.push(v_opt).push(v_fast).push(v_strip)
    } else {
        s2
    };
    let s4 = if r.nightly && p.has_cargo_toml {
        s3.push(v_flags)
    } else {
        s3
    };
    let s5 = if has_tool(tools, "cargo-sweep"@) {
        s4.push(v_sweep)
    } else {
        s4.push(v_install_sweep)
    };
    let s6 = if !has_tool(tools, "cargo-machete"@) {
        s5.push(v_machete)
    } else {
        s5
    };
    assert(catalog(r, tools, home) == s6);
    // Each suggestion obeys the gates.
    assert(sp != seq!["build"@, "target-dir"@] && ne != seq!["build"@, "target-dir"@] && fl != seq!["build"@, "target-dir"@]) by {
        assert(seq!["build"@, "target-dir"@][1] == "target-dir"@);
        assert(fl[1] == "rustflags"@);
        assert(sp.len() == 3);
        assert(ne[0] == "unstable"@);
    }
    lemma_one_op_gated(r, tools, v_shared, seq!["build"@, "target-dir"@], TomlValueView::Str(shared_target_dir_of(home)));
    assert(all_gated(r, tools, s0));
    if r.nightly {
        assert(sp != ne && fl != ne) by {
            assert(sp.len() == 3);
            assert(fl[0] == "build"@ && ne[0] == "unstable"@);
        }
        lemma_one_op_gated(r, tools, v_meta, ne, TomlValueView::Bool(true));
        lemma_gated_push(r, tools, s0, v_meta);
    }
    assert(all_gated(r, tools, s1));
    assert(sp != seq!["build"@, "rustc-wrapper"@] && ne != seq!["build"@, "rustc-wrapper"@] && fl != seq!["build"@, "rustc-wrapper"@]) by {
        assert(seq!["build"@, "rustc-wrapper"@][1] == "rustc-wrapper"@);
        assert(fl[1] == "rustflags"@);
        assert(sp.len() == 3);
        assert(ne[0] == "unstable"@);
    }
    if has_tool(tools, "sccache"@) {
        lemma_one_op_gated(r, tools, v_wrapper, seq!["build"@, "rustc-wrapper"@], TomlValueView::Str("sccache"@));
        lemma_gated_push(r, tools, s1, v_wrapper);
    } else {
        assert(gated(r, tools, v_sccache));
        lemma_gated_push(r, tools, s1, v_sccache);
    }
    assert(all_gated(r, tools, s2));
    if p.has_cargo_toml {
        assert(sp != seq!["profile"@, "dev"@, "debug"@]) by {
            assert(sp[2] == "split-debuginfo"@);
        }
        assert(ne.len() == 2 && fl.len() == 2);
        lemma_one_op_gated(r, tools, v_debug, seq!["profile"@, "dev"@, "debug"@], TomlValueView::Str("line-tables-only"@));
        lemma_gated_push(r, tools, s2, v_debug);
        if r.os@ == "macos"@ {
            lemma_one_op_gated(r, tools, v_split, sp, TomlValueView::Str("unpacked"@));
            lemma_gated_push(r, tools, a, v_split);
        }
        assert(all_gated(r, tools, b));
        assert(sp != seq!["profile"@, "dev"@, "package"@, "*"@, "opt-level"@]) by {
            assert(seq!["profile"@, "dev"@, "package"@, "*"@, "opt-level"@].len() == 5);
        }
        lemma_one_op_gated(r, tools, v_opt, seq!["profile"@, "dev"@, "package"@, "*"@, "opt-level"@], TomlValueView::Int(2));
        lemma_gated_push(r, tools, b, v_opt);
        assert(gated(r, tools, v_fast)) by {
            let ops = v_fast.action->Toml_0.ops;
            assert forall|k: int| 0 <= k < ops.len() implies ops[k].path[1] == "fast-build"@ && ops[k].path.len() == 3 by {
            }
            assert(sp[1] == "dev"@);
        }
        lemma_gated_push(r, tools, b.push(v_opt), v_fast);
        assert(sp != seq!["profile"@, "release"@, "strip"@]) by {
            assert(sp[1] == "dev"@);
        }
        lemma_one_op_gated(r, tools, v_strip, seq!["profile"@, "release"@, "strip"@], TomlValueView::Bool(true));
        lemma_gated_push(r, tools, b.push(v_opt).push(v_fast), v_strip);
    }
    assert(all_gated(r, tools, s3));
    if r.nightly && p.has_cargo_toml {
        assert(sp != fl && ne != fl) by {
            assert(sp.len() == 3);
            assert(fl[0] == "build"@ && ne[0] == "unstable"@);
        }
        lemma_one_op_gated(r, tools, v_flags, fl, TomlValueView::AppendFlags(seq!["-Zthreads=0"@, "-Zshare-generics=y"@]));
        lemma_gated_push(r, tools, s3, v_flags);
    }
    assert(all_gated(r, tools, s4));
    if has_tool(tools, "cargo-sweep"@) {
        assert(gated(r, tools, v_sweep));
        lemma_gated_push(r, tools, s4, v_sweep);
    } else {
        assert(gated(r, tools, v_install_sweep));
        lemma_gated_push(r, tools, s4, v_install_sweep);
    }
    assert(all_gated(r, tools, s5));
    if !has_tool(tools, "cargo-machete"@) {
        assert(gated(r, tools, v_machete));
        lemma_gated_push(r, tools, s5, v_machete);
    }
    assert(all_gated(r, tools, s6));
    // The offers that must be there.
    if r.nightly {
        assert(s1[1] == v_meta);
        assert(s6[1] == v_meta);
        assert(v_meta.action->Toml_0.ops[0].path == ne);
        assert(writes_path(s6[1], ne));
    }
    if r.os@ == "macos"@ && p.has_cargo_toml {
        let idx: int = (s2.len() + 1) as int;
        assert(s6[idx] == v_split);
        assert(v_split.action->Toml_0.ops[0].path == sp);
        assert(writes_path(s6[idx], sp));
    }
    let w = s1.len() as int;
    assert(s2[w] == s6[w]);
    if has_tool(tools, "sccache"@) {
        assert(v_wrapper.action->Toml_0.ops[0].path == wrapper_path());
        assert(writes_path(s6[w], wrapper_path()));
    } else {
        assert(s6[w].action == v_sccache.action);
    }
    let z = s4.len() as int;
    assert(s5[z] == s6[z]);
    if !has_tool(tools, "cargo-machete"@) {
        assert(s6[s5.len() as int] == v_machete);
    }
}

proof fn lemma_well_formed_view(s: Suggestion)
    ensures
        sug_well_formed(s) == view_well_formed(s@),
{
    match s.action {
        Action::Toml(c) => {
            assert forall|i: int| 0 <= i < c.ops@.len() implies (#[trigger] c.ops@[i]).path@.len() == c@.ops[i].path.len() by {}
        },
        _ => {},
    }
}

/// The disk sentence of the report: `"Disk is <pct>% full, <free> free."`, or empty.
fn disk_ctx(r: &SystemReport) -> (s: String)
    requires
        disk_facts_ok(r.disk_total_bytes, r.disk_free_bytes),
    ensures
        s@ == disk_context(*r),
{
    match (r.disk_free_bytes, r.disk_used_pct()) {
        (Some(free), Some(pct)) => {
            let s = String::from_str("Disk is ").concat(decimal_string(pct).as_str());
            let s = s.concat("% full, ");
            let s = s.concat(human_bytes(free).as_str());
            s.concat(" free.")
        },
        _ => String::new(),
    }
}

/// A suggestion that applies a TOML change.
pub fn toml_sug(title: &str, tag: Tag, why: String, scope: Scope, ops: Vec<TomlOp>) -> (r: Suggestion)
    ensures
        r@ == (SuggestionView {
            title: title@,
            tag,
            why: why@,
            action: ActionView::Toml(TomlChangeView { scope, ops: ops@.map_values(|o: TomlOp| o@) }),
        }),
{
    Suggestion {
        title: String::from_str(title),
        tag,
        why,
        action: Action::Toml(TomlChange { scope, ops }),
    }
}

/// A suggestion that installs a tool.
pub fn install_sug(title: &str, tag: Tag, why: String, crate_name: &str, bin: &str) -> (r: Suggestion)
    ensures
        r@ == (SuggestionView {
            title: title@,
            tag,
            why: why@,
            action: ActionView::Install(InstallSpecView { crate_name: crate_name@, bin_name: bin@ }),
        }),
{
    Suggestion {
        title: String::from_str(title),
        tag,
        why,
        action: Action::Install(
            InstallSpec { crate_name: String::from_str(crate_name), bin_name: String::from_str(bin) },
        ),
    }
}

/// A suggestion that runs cargo-sweep.
pub fn sweep_sug(title: &str, tag: Tag, why: String, spec: SweepSpec) -> (r: Suggestion)
    ensures
        r@ == (SuggestionView { title: title@, tag, why: why@, action: ActionView::Sweep(spec@) }),
{
    Suggestion { title: String::from_str(title), tag, why, action: Action::Sweep(spec) }
}

fn push_sug(out: &mut Vec<Suggestion>, s: Suggestion)
    ensures
        sug_views(final(out)@) == sug_views(old(out)@).push(s@),
{
    out.push(s);
    proof {
        assert(sug_views(out@) =~= sug_views(old(out)@).push(s@));
    }
}

fn one_op(path: &[&str], v: TomlValue) -> (r: Vec<TomlOp>)
    ensures
        r@.map_values(|o: TomlOp| o@) == seq![
            op_view(path@.map_values(|s: &str| s@), v@),
        ],
{
    let op = TomlOp::new(path, v);
    let r = vec![op];
    proof {
        assert(r@.map_values(|o: TomlOp| o@) =~= seq![op@]);
    }
    r
}

/// The catalog for the report `r`, the tools `tools` found on PATH and the home
/// directory `home`.
pub fn build_with(r: &SystemReport, tools: &ToolSet, home: &Option<String>) -> (out: Vec<Suggestion>)
    requires
        disk_facts_ok(r.disk_total_bytes, r.disk_free_bytes),
    ensures
        sug_views(out@) == catalog(*r, *tools, *home),
        forall|i: int| 0 <= i < out@.len() ==> sug_well_formed(#[trigger] out@[i]),
{
    let mut out: Vec<Suggestion> = Vec::new();
    let p = &r.project;

    // --- global: ~/.cargo/config.toml ---
    let why = disk_ctx(r).concat(W_SHARED);
    let path: &[&str] = &["build", "target-dir"];
    proof {
        assert(path@.map_values(|s: &str| s@) =~= seq!["build"@, "target-dir"@]);
    }
    let ops = one_op(path, TomlValue::Str(shared_target_dir_with(home)));
    push_sug(&mut out, toml_sug(T_SHARED, Tag::Disk, why, Scope::Global, ops));
    let ghost s0 = seq![
        toml_view(
            T_SHARED@,
            Tag::Disk,
            disk_context(*r) + W_SHARED@,
            Scope::Global,
            seq![op_view(seq!["build"@, "target-dir"@], TomlValueView::Str(shared_target_dir_of(*home)))],
        ),
    ];
    proof {
        assert(sug_views(out@) =~= s0);
    }

    if r.nightly {
        let path: &[&str] = &["unstable", "no-embed-metadata"];
        proof {
            assert(path@.map_values(|s: &str| s@) =~= seq!["unstable"@, "no-embed-metadata"@]);
        }
        let ops = one_op(path, TomlValue::Bool(true));
        push_sug(&mut out, toml_sug(T_METADATA, Tag::Disk, String::from_str(W_METADATA), Scope::Global, ops));
    }

    // Offer the wrapper only once sccache exists: setting rustc-wrapper without the binary
    // breaks every cargo build globally. On a fresh machine you install sccache first, then
    // re-run frd and the wrapper appears.
    if tools.has("sccache") {
        let path: &[&str] = &["build", "rustc-wrapper"];
        proof {
            assert(path@.map_values(|s: &str| s@) =~= seq!["build"@, "rustc-wrapper"@]);
        }
        let ops = one_op(path, TomlValue::Str(String::from_str("sccache")));
        push_sug(&mut out, toml_sug(T_WRAPPER, Tag::Both, String::from_str(W_WRAPPER), Scope::Global, ops));
    } else {
        push_sug(
            &mut out,
            install_sug(T_INSTALL_SCCACHE, Tag::Both, String::from_str(W_INSTALL_SCCACHE), "sccache", "sccache"),
        );
    }

    // --- project: ./Cargo.toml profiles ---
    if p.has_cargo_toml {
        let path: &[&str] = &["profile", "dev", "debug"];
        proof {
            assert(path@.map_values(|s: &str| s@) =~= seq!["profile"@, "dev"@, "debug"@]);
        }
        let ops = one_op(path, TomlValue::Str(String::from_str("line-tables-only")));
        push_sug(&mut out, toml_sug(T_DEBUG, Tag::Disk, String::from_str(W_DEBUG), Scope::ProjectCargo, ops));

        if r.is_macos() {
            let path: &[&str] = &["profile", "dev", "split-debuginfo"];
            proof {
                assert(path@.map_values(|s: &str| s@) =~= seq!["profile"@, "dev"@, "split-debuginfo"@]);
            }
            let ops = one_op(path, TomlValue::Str(String::from_str("unpacked")));
            push_sug(&mut out, toml_sug(T_SPLIT, Tag::Speed, String::from_str(W_SPLIT), Scope::ProjectCargo, ops));
        }

        let path: &[&str] = &["profile", "dev", "package", "*", "opt-level"];
        proof {
            assert(path@.map_values(|s: &str| s@) =~= seq!["profile"@, "dev"@, "package"@, "*"@, "opt-level"@]);
        }
        let ops = one_op(path, TomlValue::Int(2));
        push_sug(&mut out, toml_sug(T_OPT, Tag::Speed, String::from_str(W_OPT), Scope::ProjectCargo, ops));

        let p1: &[&str] = &["profile", "fast-build", "inherits"];
        let p2: &[&str] = &["profile", "fast-build", "debug"];
        let p3: &[&str] = &["profile", "fast-build", "strip"];
        proof {
            assert(p1@.map_values(|s: &str| s@) =~= seq!["profile"@, "fast-build"@, "inherits"@]);
            assert(p2@.map_values(|s: &str| s@) =~= seq!["profile"@, "fast-build"@, "debug"@]);
            assert(p3@.map_values(|s: &str| s@) =~= seq!["profile"@, "fast-build"@, "strip"@]);
        }
        let o1 = TomlOp::new(p1, TomlValue::Str(String::from_str("dev")));
        let o2 = TomlOp::new(p2, TomlValue::Int(0));
        let o3 = TomlOp::new(p3, TomlValue::Str(String::from_str("debuginfo")));
        let ops = vec![o1, o2, o3];
        proof {
            assert(ops@.map_values(|o: TomlOp| o@) =~= seq![o1@, o2@, o3@]);
        }
        push_sug(&mut out, toml_sug(T_FAST, Tag::Both, String::from_str(W_FAST), Scope::ProjectCargo, ops));

        let path: &[&str] = &["profile", "release", "strip"];
        proof {
            assert(path@.map_values(|s: &str| s@) =~= seq!["profile"@, "release"@, "strip"@]);
        }
        let ops = one_op(path, TomlValue::Bool(true));
        push_sug(&mut out, toml_sug(T_STRIP, Tag::Disk, String::from_str(W_STRIP), Scope::ProjectCargo, ops));
    }

    // --- project: ./.cargo/config.toml nightly rustflags ---
    // Kept project-local on purpose: a global rustflags entry overrides (not merges with)
    // a repo's own flags.
    if r.nightly && p.has_cargo_toml {
        let path: &[&str] = &["build", "rustflags"];
        proof {
            assert(path@.map_values(|s: &str| s@) =~= seq!["build"@, "rustflags"@]);
        }
        let flags = vec![String::from_str("-Zthreads=0"), String::from_str("-Zshare-generics=y")];
        proof {
            assert(views(flags@) =~= seq!["-Zthreads=0"@, "-Zshare-generics=y"@]);
        }
        let ops = one_op(path, TomlValue::AppendFlags(flags));
        push_sug(&mut out, toml_sug(T_FLAGS, Tag::Speed, String::from_str(W_FLAGS), Scope::ProjectConfig, ops));
    }

    // --- tools ---
    // Gate the sweep on cargo-sweep being on PATH: offering to run a binary that is not
    // installed only produces a confusing failed step. When it is missing the install is
    // offered instead, and a re-run then surfaces the sweep.
    if tools.has("cargo-sweep") {
        let spec = SweepSpec { candidates: candidates_up_to(&p.root, home), time_days: 7 };
        push_sug(&mut out, sweep_sug(T_SWEEP, Tag::Disk, String::from_str(W_SWEEP), spec));
    } else {
        push_sug(
            &mut out,
            install_sug(T_INSTALL_SWEEP, Tag::Disk, String::from_str(W_INSTALL_SWEEP), "cargo-sweep", "cargo-sweep"),
        );
    }

    if !tools.has("cargo-machete") {
        push_sug(
            &mut out,
            install_sug(
                T_INSTALL_MACHETE,
                Tag::Both,
                String::from_str(W_INSTALL_MACHETE),
                "cargo-machete",
                "cargo-machete",
            ),
        );
    }
    proof {
        assert(sug_views(out@) =~= catalog(*r, *tools, *home));
        lemma_catalog_well_formed(*r, *tools, *home);
        assert forall|i: int| 0 <= i < out@.len() implies sug_well_formed(#[trigger] out@[i]) by {
            lemma_well_formed_view(out@[i]);
            assert(sug_views(out@)[i] == out@[i]@);
        }
    }
    out
}

/// The catalog for the report `r` and the tools `tools` found on PATH, with the sweep
/// candidates and the shared target dir taken from the user's home directory.
pub fn build(r: &SystemReport, tools: &ToolSet) -> (out: Vec<Suggestion>)
    requires
        disk_facts_ok(r.disk_total_bytes, r.disk_free_bytes),
    ensures
        exists|home: Option<String>| sug_views(out@) == catalog(*r, *tools, home),
        forall|i: int| 0 <= i < out@.len() ==> sug_well_formed(#[trigger] out@[i]),
{
    let home = home_dir();
    build_with(r, tools, &home)
}

} // verus!
