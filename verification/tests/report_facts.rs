use frd::report::{pad_right, rust_label, split_tools, system_line, target_size, titles, tools_line};
use frd::system::{
    size_step, EntryKind,
    best_disk, disk_total_free, human_bytes, is_nightly, target_dir, DiskFacts, Project,
    SystemReport, ToolSet,
};
use frd::ui::{accent, disk_style, Accent, DiskLevel};
use frd::suggestion::Tag;
use frd::catalog::install_sug;

fn report(os: &str, total: Option<u64>, free: Option<u64>, ram: Option<u64>) -> SystemReport {
    let project = Project::new("/w/proj", true, Some(2048), "/home/u/.cargo/config.toml".into());
    SystemReport::new(
        os.to_string(),
        "x86_64".to_string(),
        8,
        ram,
        (total, free),
        Some("rustc 1.90.0-nightly (abc 2025-01-01)".to_string()),
        project,
    )
}

/// The formatting the program has always used, in floating point.
fn float_human_bytes(n: u64) -> String {
    const UNITS: [&str; 5] = ["B", "KB", "MB", "GB", "TB"];
    let mut v = n as f64;
    let mut i = 0;
    while v >= 1024.0 && i < UNITS.len() - 1 {
        v /= 1024.0;
        i += 1;
    }
    if i == 0 {
        format!("{n} B")
    } else {
        format!("{v:.1} {}", UNITS[i])
    }
}

#[test]
fn human_bytes_exact_values() {
    assert_eq!(human_bytes(0), "0 B");
    assert_eq!(human_bytes(1023), "1023 B");
    assert_eq!(human_bytes(1024), "1.0 KB");
    assert_eq!(human_bytes(1536), "1.5 KB");
    assert_eq!(human_bytes(1024 * 1024), "1.0 MB");
    assert_eq!(human_bytes(5 * 1024 * 1024 * 1024), "5.0 GB");
    assert_eq!(human_bytes(1024u64.pow(4)), "1.0 TB");
    assert_eq!(human_bytes(1024u64.pow(5)), "1024.0 TB");
    assert_eq!(human_bytes(u64::MAX), "16777216.0 TB");
}

#[test]
fn human_bytes_matches_float_formatting() {
    let mut edge: Vec<u64> = vec![
        1024 * 1024 - 1,
        1024 * 1024 - 51,
        1024 * 1024 - 52,
        (1u64 << 53) - 1,
        1u64 << 53,
        (1u64 << 53) + 1,
        (1u64 << 60) + 12345,
        u64::MAX - 1,
    ];
    for k in 1..=4u32 {
        let unit = 1024u64.pow(k);
        for t in 0..200u64 {
            edge.push(unit * t / 10 + unit / 20);
            edge.push((unit * t / 10 + unit / 20).saturating_sub(1));
            edge.push(unit * t / 10 + unit / 20 + 1);
        }
    }
    let mut x: u64 = 0x2545F4914F6CDD1D;
    for _ in 0..20000 {
        x ^= x << 13;
        x ^= x >> 7;
        x ^= x << 17;
        edge.push(x >> (x % 60));
    }
    for n in edge {
        assert_eq!(human_bytes(n), float_human_bytes(n), "n = {n}");
    }
}

#[test]
fn disk_percentage_rounds_down() {
    let r = report("linux", Some(1000), Some(1), None);
    assert_eq!(r.disk_used_pct(), Some(99));
    assert_eq!(report("linux", Some(0), Some(0), None).disk_used_pct(), None);
    assert_eq!(report("linux", None, Some(1), None).disk_used_pct(), None);
    assert_eq!(report("linux", Some(10), None, None).disk_used_pct(), None);
    assert_eq!(report("linux", Some(4), Some(1), None).disk_used_pct(), Some(75));
}

#[test]
fn macos_and_nightly_are_read_off_the_facts() {
    assert!(report("macos", None, None, None).is_macos());
    assert!(!report("linux", None, None, None).is_macos());
    assert!(report("linux", None, None, None).nightly);
    assert!(is_nightly(&Some("rustc 1.91.0-nightly".into())));
    assert!(!is_nightly(&Some("rustc 1.90.0 (stable)".into())));
    assert!(!is_nightly(&None));
}

#[test]
fn project_paths_sit_under_the_root() {
    let p = Project::new("/w/proj", false, None, "/g/config.toml".into());
    assert_eq!(p.root, "/w/proj");
    assert_eq!(p.cargo_toml, "/w/proj/Cargo.toml");
    assert_eq!(p.cargo_config, "/w/proj/.cargo/config.toml");
    assert_eq!(p.global_cargo_config, "/g/config.toml");
    assert!(!p.has_cargo_toml);
    assert_eq!(target_dir("/w/proj"), "/w/proj/target");
}

fn disk(m: &str, total: u64, available: u64) -> DiskFacts {
    DiskFacts { mount_point: m.to_string(), total, available }
}

#[test]
fn the_longest_mount_point_holds_the_path() {
    let disks = vec![disk("/", 100, 10), disk("/home", 200, 20), disk("/ho", 300, 30)];
    assert_eq!(best_disk("/home/u/proj", &disks), Some(1));
    assert_eq!(disk_total_free("/home/u/proj", &disks), (Some(200), Some(20)));
    assert_eq!(disk_total_free("/var/tmp", &disks), (Some(100), Some(10)));
    assert_eq!(disk_total_free("relative/path", &disks), (None, None));
    assert_eq!(disk_total_free("/x", &vec![]), (None, None));
}

#[test]
fn of_equally_long_mount_points_the_last_wins() {
    let disks = vec![disk("/data", 1, 1), disk("/", 5, 5), disk("/data", 2, 2)];
    assert_eq!(best_disk("/data/x", &disks), Some(2));
}

#[test]
fn disk_levels_and_accents() {
    assert_eq!(disk_style(95), DiskLevel::Alarm);
    assert_eq!(disk_style(90), DiskLevel::Alarm);
    assert_eq!(disk_style(89), DiskLevel::Warn);
    assert_eq!(disk_style(75), DiskLevel::Warn);
    assert_eq!(disk_style(74), DiskLevel::Calm);
    assert_eq!(disk_style(0), DiskLevel::Calm);
    assert_eq!(accent(Tag::Disk), Accent::Yellow);
    assert_eq!(accent(Tag::Speed), Accent::Cyan);
    assert_eq!(accent(Tag::Both), Accent::Green);
}

#[test]
fn report_lines() {
    assert_eq!(rust_label("rustc 1.90.0 (x)"), "1.90.0 (x)");
    assert_eq!(rust_label("1.90.0"), "1.90.0");
    assert_eq!(pad_right("Disk", 8), "Disk    ");
    assert_eq!(pad_right("Project", 8), "Project ");
    assert_eq!(pad_right("TooLongLabel", 8), "TooLongLabel");
    assert_eq!(pad_right("DISK", 5), "DISK ");
    let r = report("macos", None, None, Some(16 * 1024 * 1024 * 1024));
    assert_eq!(system_line(&r), "macos x86_64 · 8 cores · 16.0 GB RAM");
    let r = report("linux", None, None, None);
    assert_eq!(system_line(&r), "linux x86_64 · 8 cores · ? RAM");
    assert_eq!(target_size(&r), "2.0 KB");
}

#[test]
fn tools_split_and_line() {
    let tools = ToolSet { found: vec!["cargo-sweep".into(), "sccache".into(), "other".into()] };
    let (have, miss) = split_tools(&tools);
    assert_eq!(have, vec!["sccache".to_string(), "cargo-sweep".to_string()]);
    assert_eq!(
        miss,
        vec!["cargo-machete".to_string(), "cargo-nextest".to_string(), "cargo-binstall".to_string()]
    );
    assert_eq!(tools_line(&have, &miss, "·"), "sccache  cargo-sweep   ·   cargo-machete  cargo-nextest  cargo-binstall");
    assert_eq!(tools_line(&vec![], &miss, "·"), "cargo-machete  cargo-nextest  cargo-binstall");
    assert_eq!(tools_line(&have, &vec![], "·"), "sccache  cargo-sweep");
    assert!(tools.has("other"));
    assert!(!tools.has("cargo"));
}

#[test]
fn titles_are_joined_with_commas() {
    let a = install_sug("A", Tag::Disk, String::new(), "a", "a");
    let b = install_sug("B", Tag::Both, String::new(), "b", "b");
    assert_eq!(titles(&vec![a, b]), "A, B");
    assert_eq!(titles(&vec![]), "");
}

#[test]
fn sizing_steps() {
    use_size_step();
}

fn use_size_step() {
    assert_eq!(size_step(EntryKind::Dir, 5), (5, true));
    assert_eq!(size_step(EntryKind::Symlink, 5), (5, false));
    assert_eq!(size_step(EntryKind::File { len: 7 }, 5), (12, false));
    assert_eq!(size_step(EntryKind::Unreadable, 5), (5, false));
}
