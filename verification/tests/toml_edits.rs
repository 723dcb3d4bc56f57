use frd::suggestion::{Scope, TomlChange, TomlOp, TomlValue};
use frd::system::{Project, SystemReport};
use frd::toml_ops::{backup_path, is_applied, plan, target_path, unified, PlanError};

fn report_for(dir: &str) -> SystemReport {
    let project = Project::new(dir, true, None, format!("{dir}/global-config.toml"));
    SystemReport::new(
        "macos".to_string(),
        "aarch64".to_string(),
        8,
        None,
        (None, None),
        None,
        project,
    )
}

fn flags_change() -> TomlChange {
    TomlChange {
        scope: Scope::ProjectConfig,
        ops: vec![TomlOp::new(
            &["build", "rustflags"],
            TomlValue::AppendFlags(vec!["-Zthreads=0".into(), "-Zshare-generics=y".into()]),
        )],
    }
}

#[test]
fn nested_tables_and_quoted_star_render() {
    let r = report_for("/tmp/frd-dev");
    let change = TomlChange {
        scope: Scope::ProjectCargo,
        ops: vec![
            TomlOp::new(&["profile", "dev", "debug"], TomlValue::Str("line-tables-only".into())),
            TomlOp::new(&["profile", "dev", "package", "*", "opt-level"], TomlValue::Int(2)),
        ],
    };
    let p = plan(&r, &change, String::new()).unwrap();
    assert!(p.after.contains("[profile.dev]"), "got:\n{}", p.after);
    assert!(
        p.after.contains("[profile.dev.package.\"*\"]"),
        "expected header table for quoted star key:\n{}",
        p.after
    );
    assert!(p.after.contains("debug = \"line-tables-only\""), "got:\n{}", p.after);
    assert!(p.after.contains("opt-level = 2"), "got:\n{}", p.after);
    assert!(!p.after.contains("= {"), "must not be inline:\n{}", p.after);
}

#[test]
fn rustflags_append_is_idempotent_and_detected() {
    let r = report_for("/tmp/frd-flags");
    let change = flags_change();
    let p = plan(&r, &change, String::new()).unwrap();
    assert!(p.after.contains("[build]"), "got:\n{}", p.after);
    assert!(p.after.contains("-Zthreads=0"), "got:\n{}", p.after);
    assert!(p.after.contains("-Zshare-generics=y"), "got:\n{}", p.after);

    // What is written to the file is what the next read sees.
    let written = Some(p.after.clone());
    assert!(is_applied(&written, &change), "is_applied should be true after write");

    let p2 = plan(&r, &change, p.after.clone()).unwrap();
    assert_eq!(p.after, p2.after, "re-applying must not duplicate flags");
}

#[test]
fn preserves_existing_content_and_comments() {
    let r = report_for("/tmp/frd-preserve");
    let change = TomlChange {
        scope: Scope::ProjectCargo,
        ops: vec![TomlOp::new(&["profile", "release", "strip"], TomlValue::Bool(true))],
    };
    let p = plan(&r, &change, "# keep me\n[package]\nname = \"x\"\n".to_string()).unwrap();
    assert!(p.after.contains("# keep me"), "comment dropped:\n{}", p.after);
    assert!(p.after.contains("name = \"x\""), "package lost:\n{}", p.after);
    assert!(p.after.contains("[profile.release]"), "got:\n{}", p.after);
    assert!(p.after.contains("strip = true"), "got:\n{}", p.after);
}

#[test]
fn plan_targets_the_file_of_its_scope() {
    let r = report_for("/tmp/frd-scope");
    assert_eq!(target_path(&r, Scope::ProjectCargo), "/tmp/frd-scope/Cargo.toml");
    assert_eq!(target_path(&r, Scope::ProjectConfig), "/tmp/frd-scope/.cargo/config.toml");
    assert_eq!(target_path(&r, Scope::Global), "/tmp/frd-scope/global-config.toml");
    let p = plan(&r, &flags_change(), String::new()).unwrap();
    assert_eq!(p.path, "/tmp/frd-scope/.cargo/config.toml");
    assert_eq!(p.before, "");
}

#[test]
fn existing_flags_are_kept_first_and_not_repeated() {
    let r = report_for("/tmp/frd-keep");
    let before = "[build]\nrustflags = [\"-Zshare-generics=y\", \"-Cfoo\"]\n".to_string();
    let p = plan(&r, &flags_change(), before).unwrap();
    let a = p.after.find("-Zshare-generics=y").unwrap();
    let b = p.after.find("-Cfoo").unwrap();
    let c = p.after.find("-Zthreads=0").unwrap();
    assert!(a < b && b < c, "got:\n{}", p.after);
    assert_eq!(p.after.matches("-Zshare-generics=y").count(), 1, "got:\n{}", p.after);
}

#[test]
fn invalid_toml_is_a_parse_error() {
    let r = report_for("/tmp/frd-bad");
    match plan(&r, &flags_change(), "[build\n".to_string()) {
        Err(PlanError::Parse { path }) => assert_eq!(path, "/tmp/frd-bad/.cargo/config.toml"),
        other => panic!("expected a parse error, got {:?}", other),
    }
}

#[test]
fn a_scalar_on_the_table_path_is_refused() {
    let r = report_for("/tmp/frd-scalar");
    match plan(&r, &flags_change(), "build = 3\n".to_string()) {
        Err(PlanError::NotATable { path }) => {
            assert_eq!(path, "/tmp/frd-scalar/.cargo/config.toml")
        }
        other => panic!("expected a not-a-table error, got {:?}", other),
    }
}

#[test]
fn applied_needs_every_operation() {
    let change = TomlChange {
        scope: Scope::ProjectCargo,
        ops: vec![
            TomlOp::new(&["profile", "fast-build", "inherits"], TomlValue::Str("dev".into())),
            TomlOp::new(&["profile", "fast-build", "debug"], TomlValue::Int(0)),
        ],
    };
    let both = Some("[profile.fast-build]\ninherits = \"dev\"\ndebug = 0\n".to_string());
    let one = Some("[profile.fast-build]\ninherits = \"dev\"\n".to_string());
    let wrong_type = Some("[profile.fast-build]\ninherits = \"dev\"\ndebug = \"0\"\n".to_string());
    assert!(is_applied(&both, &change));
    assert!(!is_applied(&one, &change));
    assert!(!is_applied(&wrong_type, &change));
    assert!(!is_applied(&None, &change));
    assert!(!is_applied(&Some("not = [toml".to_string()), &change));
}

#[test]
fn flags_are_applied_when_all_are_present_in_any_order() {
    let change = flags_change();
    let t = Some("[build]\nrustflags = [\"-Zshare-generics=y\", \"-Zthreads=0\"]\n".to_string());
    let partial = Some("[build]\nrustflags = [\"-Zthreads=0\"]\n".to_string());
    assert!(is_applied(&t, &change));
    assert!(!is_applied(&partial, &change));
}

#[test]
fn backup_name_carries_the_timestamp() {
    assert_eq!(backup_path("/a/Cargo.toml", 1700000000), "/a/Cargo.toml.frd-bak-1700000000");
    assert_eq!(backup_path("x", 0), "x.frd-bak-0");
}

#[test]
fn unified_diff_names_both_sides() {
    let d = unified("a = 1\n", "a = 1\nb = 2\n", "Cargo.toml");
    assert!(d.contains("--- a/Cargo.toml"), "got:\n{d}");
    assert!(d.contains("+++ b/Cargo.toml"), "got:\n{d}");
    assert!(d.contains("+b = 2"), "got:\n{d}");
    assert_eq!(unified("same\n", "same\n", "x"), "");
}

fn fast_build_change() -> TomlChange {
    TomlChange {
        scope: Scope::ProjectCargo,
        ops: vec![
            TomlOp::new(&["profile", "fast-build", "inherits"], TomlValue::Str("dev".into())),
            TomlOp::new(&["profile", "fast-build", "debug"], TomlValue::Int(0)),
            TomlOp::new(&["profile", "fast-build", "strip"], TomlValue::Str("debuginfo".into())),
        ],
    }
}

#[test]
fn a_change_of_several_operations_replans_to_the_same_text() {
    let r = report_for("/tmp/frd-fast");
    let change = fast_build_change();
    let before = "[package]\nname = \"x\"\n\n[profile.fast-build]\ndebug = 2\n".to_string();
    let p = plan(&r, &change, before).unwrap();
    assert!(is_applied(&Some(p.after.clone()), &change), "got:\n{}", p.after);
    let p2 = plan(&r, &change, p.after.clone()).unwrap();
    assert_eq!(p.after, p2.after);
}

#[test]
fn operations_on_parting_paths_commute() {
    let r = report_for("/tmp/frd-commute");
    let mut reversed = fast_build_change();
    reversed.ops.reverse();
    let a = plan(&r, &fast_build_change(), String::new()).unwrap();
    let b = plan(&r, &reversed, String::new()).unwrap();
    assert!(is_applied(&Some(a.after.clone()), &reversed));
    assert!(is_applied(&Some(b.after.clone()), &fast_build_change()));
}

#[test]
fn a_flag_listed_twice_lands_once() {
    let r = report_for("/tmp/frd-twice");
    let change = TomlChange {
        scope: Scope::ProjectConfig,
        ops: vec![TomlOp::new(&["build", "rustflags"], TomlValue::AppendFlags(vec!["-a".into(), "-a".into()]))],
    };
    let p = plan(&r, &change, String::new()).unwrap();
    assert_eq!(p.after.matches("\"-a\"").count(), 1, "got:\n{}", p.after);
}

#[test]
fn an_unchanged_text_shows_an_empty_diff() {
    assert_eq!(unified("[a]\nx = 1\n", "[a]\nx = 1\n", "Cargo.toml"), "");
    assert_eq!(unified("", "", "x"), "");
}

#[test]
fn a_written_key_is_satisfied_in_the_document() {
    let op = TomlOp::new(&["profile", "release", "strip"], TomlValue::Bool(true));
    let doc: toml_edit::DocumentMut = "[profile.release]\nstrip = true\n".parse().unwrap();
    assert!(frd::toml_ops::is_satisfied(doc.as_table(), &op));
    let doc: toml_edit::DocumentMut = "[profile.release]\nstrip = false\n".parse().unwrap();
    assert!(!frd::toml_ops::is_satisfied(doc.as_table(), &op));
}
