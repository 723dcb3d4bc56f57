use frd::catalog::{build_with, sweep_sug, T_DEBUG, T_FLAGS, T_INSTALL_MACHETE, T_INSTALL_SCCACHE, T_INSTALL_SWEEP, T_METADATA, T_SHARED, T_SPLIT, T_SWEEP, T_WRAPPER};
use frd::doctor::{checkup, passed, verdict_line};
use frd::status::{split_by_status, status_of, ConfigTexts};
use frd::suggestion::{Action, Scope, Status, SweepSpec, Tag, TomlValue};
use frd::system::{Project, SystemReport, ToolSet};

fn report(os: &str, nightly: bool, has_cargo_toml: bool) -> SystemReport {
    let project = Project::new("/Users/x/dev/proj", has_cargo_toml, None, "/Users/x/.cargo/config.toml".into());
    let version = if nightly { "rustc 1.91.0-nightly (x 2025-01-01)" } else { "rustc 1.90.0 (x 2025-01-01)" };
    SystemReport::new(
        os.to_string(),
        "aarch64".to_string(),
        10,
        None,
        (Some(1000 * 1024 * 1024), Some(100 * 1024 * 1024)),
        Some(version.to_string()),
        project,
    )
}

fn tools(names: &[&str]) -> ToolSet {
    ToolSet { found: names.iter().map(|s| s.to_string()).collect() }
}

fn titles(v: &[frd::suggestion::Suggestion]) -> Vec<String> {
    v.iter().map(|s| s.title.clone()).collect()
}

fn no_configs() -> ConfigTexts {
    ConfigTexts { global: None, cargo_toml: None, cargo_config: None }
}

#[test]
fn full_catalog_on_a_nightly_mac_without_tools() {
    let home = Some("/Users/x".to_string());
    let all = build_with(&report("macos", true, true), &tools(&[]), &home);
    assert_eq!(
        titles(&all),
        vec![
            T_SHARED, T_METADATA, T_INSTALL_SCCACHE, T_DEBUG, T_SPLIT,
            "dev profile: opt-level = 2 for dependencies", "Add a disk-light fast-build profile",
            "release profile: strip = true", T_FLAGS, T_INSTALL_SWEEP, T_INSTALL_MACHETE,
        ]
        .iter()
        .map(|s| s.to_string())
        .collect::<Vec<_>>()
    );
    assert_eq!(
        all[0].why,
        "Disk is 90% full, 100.0 MB free. Point all builds at one dir so repos and git worktrees stop duplicating target/. The single biggest lever on disk sprawl."
    );
    match &all[0].action {
        Action::Toml(c) => {
            assert_eq!(c.scope, Scope::Global);
            assert_eq!(c.ops[0].path, vec!["build".to_string(), "target-dir".into()]);
            match &c.ops[0].value {
                TomlValue::Str(s) => assert_eq!(s, "/Users/x/.cache/cargo-target"),
                _ => panic!("expected a string"),
            }
        }
        _ => panic!("expected a toml change"),
    }
}

#[test]
fn stable_linux_without_manifest_gets_global_items_only() {
    let home = Some("/Users/x".to_string());
    let all = build_with(&report("linux", false, false), &tools(&["sccache", "cargo-sweep", "cargo-machete"]), &home);
    assert_eq!(titles(&all), vec![T_SHARED.to_string(), T_WRAPPER.to_string(), T_SWEEP.to_string()]);
    match &all[2].action {
        Action::Sweep(s) => {
            assert_eq!(s.time_days, 7);
            assert_eq!(s.candidates, vec!["/Users/x/dev/proj".to_string(), "/Users/x/dev".into(), "/Users/x".into()]);
        }
        _ => panic!("expected a sweep"),
    }
}

#[test]
fn status_follows_files_and_tools() {
    let home = Some("/Users/x".to_string());
    let all = build_with(&report("linux", false, true), &tools(&["cargo-machete"]), &home);
    let configs = ConfigTexts {
        global: Some("[build]\ntarget-dir = \"/Users/x/.cache/cargo-target\"\n".into()),
        cargo_toml: Some("[profile.release]\nstrip = true\n".into()),
        cargo_config: None,
    };
    let t = tools(&["cargo-machete"]);
    let shared = status_of(&all[0], &configs, &t);
    assert_eq!(shared, Status::AlreadyApplied);
    let (pending, done) = split_by_status(all.clone(), &configs, &t);
    assert_eq!(pending.len() + done.len(), all.len());
    assert_eq!(titles(&done), vec![T_SHARED.to_string(), "release profile: strip = true".to_string()]);
    assert!(titles(&pending).contains(&T_INSTALL_SWEEP.to_string()));
}

#[test]
fn sweeps_are_always_pending() {
    let s = sweep_sug("Sweep", Tag::Disk, String::new(), SweepSpec { candidates: vec!["/p".into()], time_days: 7 });
    assert_eq!(status_of(&s, &no_configs(), &tools(&["cargo-sweep"])), Status::Pending);
}

#[test]
fn doctor_counts_only_checkable_items() {
    let home = Some("/Users/x".to_string());
    let t = tools(&["sccache", "cargo-sweep", "cargo-machete"]);
    let all = build_with(&report("linux", false, false), &t, &home);
    let c = checkup(all.clone(), &no_configs(), &t);
    assert_eq!(c.maintenance.len(), 1);
    assert_eq!(c.checkable.len(), 2);
    assert_eq!(c.pending, 2);
    assert!(!passed(&c));
    assert_eq!(verdict_line(c.checkable.len(), c.pending), "0/2 applied, 2 pending. Run `frd` to apply them.");

    let configs = ConfigTexts {
        global: Some("[build]\ntarget-dir = \"/Users/x/.cache/cargo-target\"\nrustc-wrapper = \"sccache\"\n".into()),
        cargo_toml: None,
        cargo_config: None,
    };
    let c = checkup(all, &configs, &t);
    assert_eq!(c.applied, vec![true, true]);
    assert_eq!(c.pending, 0);
    assert!(passed(&c));
    assert_eq!(verdict_line(2, 0), "All 2 optimizations applied; nothing to do.");
}
