use frd::paths::{candidates_up_to, filename, global_cargo_config, shared_target_dir_with};
use frd::ui::tildify_with;

fn s(x: &str) -> String {
    x.to_string()
}

#[test]
fn candidates_run_from_project_up_to_home() {
    let got = candidates_up_to(&s("/Users/x/dev/proj"), &Some(s("/Users/x")));
    let want: Vec<String> = ["/Users/x/dev/proj", "/Users/x/dev", "/Users/x"]
        .iter()
        .map(|p| p.to_string())
        .collect();
    assert_eq!(got, want);
}

#[test]
fn project_outside_home_offers_only_itself() {
    let got = candidates_up_to(&s("/tmp/proj"), &Some(s("/Users/x")));
    assert_eq!(got, vec![s("/tmp/proj")]);
}

#[test]
fn no_home_offers_only_the_project() {
    let got = candidates_up_to(&s("/Users/x/dev/proj"), &None);
    assert_eq!(got, vec![s("/Users/x/dev/proj")]);
}

#[test]
fn project_at_home_is_the_only_candidate() {
    let got = candidates_up_to(&s("/Users/x"), &Some(s("/Users/x")));
    assert_eq!(got, vec![s("/Users/x")]);
}

#[test]
fn trailing_slash_on_home_still_matches_by_components() {
    let got = candidates_up_to(&s("/Users/x/proj"), &Some(s("/Users/x/")));
    assert_eq!(got, vec![s("/Users/x/proj"), s("/Users/x")]);
}

#[test]
fn tildify_replaces_the_home_prefix() {
    let home = Some(s("/Users/x"));
    assert_eq!(tildify_with("/Users/x/dev/proj", &home), "~/dev/proj");
    assert_eq!(tildify_with("/Users/x", &home), "~");
    assert_eq!(tildify_with("/tmp/proj", &home), "/tmp/proj");
    assert_eq!(tildify_with("/tmp/proj", &None), "/tmp/proj");
    assert_eq!(tildify_with("/tmp/proj", &Some(String::new())), "/tmp/proj");
    assert_eq!(tildify_with("/Users/xavier/p", &home), "/Users/xavier/p");
}

#[test]
fn filename_is_the_last_component() {
    assert_eq!(filename("/a/b/Cargo.toml"), "Cargo.toml");
    assert_eq!(filename("/"), "/");
    assert_eq!(filename("config.toml"), "config.toml");
}

#[test]
fn global_config_prefers_cargo_home() {
    assert_eq!(
        global_cargo_config(&Some(s("/opt/cargo")), &Some(s("/Users/x"))),
        "/opt/cargo/config.toml"
    );
    assert_eq!(
        global_cargo_config(&None, &Some(s("/Users/x"))),
        "/Users/x/.cargo/config.toml"
    );
    assert_eq!(global_cargo_config(&None, &None), ".cargo/config.toml");
}

#[test]
fn shared_target_dir_is_under_the_cache() {
    assert_eq!(shared_target_dir_with(&Some(s("/Users/x"))), "/Users/x/.cache/cargo-target");
    assert_eq!(shared_target_dir_with(&None), ".cache/cargo-target");
}
