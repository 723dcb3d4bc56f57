//! Presentation decisions shared by the report and the wizard: the accent of each
//! category, how alarming a disk figure is, and paths shortened for display. The
//! program turns these into terminal colors.
use vstd::prelude::*;
use crate::paths::{home_dir, path_starts_with, path_starts_with_of};
use crate::suggestion::Tag;
use crate::text::str_starts_with;

verus! {

/// The accent color of a category, used for a card's gutter, its glyphs and the live
/// tail of a job, so that a card reads as one unit.
#[derive(Clone, Copy, Debug, PartialEq, Eq, Structural)]
pub enum Accent {
    Yellow,
    Cyan,
    Green,
}

/// Disk is the scarce-resource warning hue, speed the cool "fast" hue, both the green
/// win-win.
pub open spec fn accent_of(tag: Tag) -> Accent {
    match tag {
        Tag::Disk => Accent::Yellow,
        Tag::Speed => Accent::Cyan,
        Tag::Both => Accent::Green,
    }
}

/// The accent color of the category `tag`.
pub fn accent(tag: Tag) -> (r: Accent)
    ensures
        r == accent_of(tag),
{
    match tag {
        Tag::Disk => Accent::Yellow,
        Tag::Speed => Accent::Cyan,
        Tag::Both => Accent::Green,
    }
}

/// How alarming a disk-usage percentage is: shown red and bold, yellow, or dimmed.
#[derive(Clone, Copy, Debug, PartialEq, Eq, Structural)]
pub enum DiskLevel {
    Alarm,
    Warn,
    Calm,
}

/// Ninety percent and more is alarming, seventy-five to eighty-nine a warning.
pub open spec fn disk_level(used_pct: u64) -> DiskLevel {
    if used_pct >= 90 {
        DiskLevel::Alarm
    } else if used_pct >= 75 {
        DiskLevel::Warn
    } else {
        DiskLevel::Calm
    }
}

/// The level at which a disk-usage percentage is shown.
pub fn disk_style(used_pct: u64) -> (r: DiskLevel)
    ensures
        r == disk_level(used_pct),
{
    if used_pct >= 90 {
        DiskLevel::Alarm
    } else if used_pct >= 75 {
        DiskLevel::Warn
    } else {
        DiskLevel::Calm
    }
}

/// `path` with a leading `home` replaced by `~`, for display only. Only a path that lies
/// under `home` (by path components, so `/Users/xavier` is not under `/Users/x`) and
/// spells it out at its start is shortened.
pub open spec fn tildified(path: Seq<char>, home: Option<String>) -> Seq<char> {
    match home {
        Some(h) => if h@.len() > 0 && h@.len() <= path.len() && path.subrange(0, h@.len() as int)
            == h@ && path_starts_with_of(path, h@) {
            "~"@ + path.subrange(h@.len() as int, path.len() as int)
        } else {
            path
        },
        None => path,
    }
}

/// `path` with the home prefix `home` shown as `~`.
pub fn tildify_with(path: &str, home: &Option<String>) -> (r: String)
    ensures
        r@ == tildified(path@, *home),
{
    match home {
        Some(h) => {
            if h.as_str().unicode_len() > 0 && str_starts_with(path, h.as_str()) && path_starts_with(
                path,
                h.as_str(),
            ) {
                let n = path.unicode_len();
                let k = h.as_str().unicode_len();
                let rest = path.substring_char(k, n);
                String::from_str("~").concat(rest)
            } else {
                String::from_str(path)
            }
        },
        None => String::from_str(path),
    }
}

/// Replace the home prefix with `~` for display only, so long paths stay short.
pub fn tildify(path: &str) -> (r: String)
    ensures
        exists|home: Option<String>| r@ == tildified(path@, home),
{
    let home = home_dir();
    tildify_with(path, &home)
}

} // verus!
