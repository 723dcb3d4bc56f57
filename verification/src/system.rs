//! System and project facts, and the arithmetic and text shown about them. The probes
//! that read the machine live with the program; the facts arrive here as plain values.
use vstd::prelude::*;
use crate::paths::{path_join, path_join_of, path_starts_with, path_starts_with_of};
use vstd::utf8::encode_utf8;
use crate::text::{contains_text, decimal, decimal_string, digit_char, str_contains, str_eq, views};

verus! {

/// The machine and the project as the report describes them.
#[derive(Clone, Debug)]
pub struct SystemReport {
    pub os: String,
    pub arch: String,
    pub cores: usize,
    pub ram_bytes: Option<u64>,
    pub disk_total_bytes: Option<u64>,
    pub disk_free_bytes: Option<u64>,
    pub rustc_version: Option<String>,
    pub nightly: bool,
    pub project: Project,
}

/// The project directory and the config files that belong to it.
#[derive(Clone, Debug)]
pub struct Project {
    pub root: String,
    pub cargo_toml: String,
    pub has_cargo_toml: bool,
    pub cargo_config: String,
    pub target_bytes: Option<u64>,
    pub global_cargo_config: String,
}

/// The used share of the disk in percent, rounded down, when both sizes are known and
/// the disk is not empty.
pub open spec fn used_pct(total: Option<u64>, free: Option<u64>) -> Option<int> {
    match (total, free) {
        (Some(t), Some(f)) => if t == 0 {
            None
        } else {
            Some(((t - f) * 100) / (t as int))
        },
        _ => None,
    }
}

/// The disk sizes can be turned into a percentage without overflow: the free space
/// does not exceed the total and the used bytes times one hundred fit in 64 bits.
pub open spec fn disk_facts_ok(total: Option<u64>, free: Option<u64>) -> bool {
    match (total, free) {
        (Some(t), Some(f)) => t != 0 ==> (f <= t && (t - f) * 100 <= u64::MAX),
        _ => true,
    }
}

impl SystemReport {
    /// The host is macOS.
    pub fn is_macos(&self) -> (r: bool)
        ensures
            r == (self.os@ == "macos"@),
    {
        str_eq(self.os.as_str(), "macos")
    }

    /// Percentage of the disk in use, when both sizes are known and the disk is not empty.
    pub fn disk_used_pct(&self) -> (r: Option<u64>)
        requires
            disk_facts_ok(self.disk_total_bytes, self.disk_free_bytes),
        ensures
            r matches Some(p) ==> used_pct(self.disk_total_bytes, self.disk_free_bytes) == Some(
                p as int,
            ),
            r is None <==> used_pct(self.disk_total_bytes, self.disk_free_bytes) is None,
    {
        let total = match self.disk_total_bytes {
            Some(t) => t,
            None => return None,
        };
        let free = match self.disk_free_bytes {
            Some(f) => f,
            None => return None,
        };
        if total == 0 {
            return None;
        }
        Some(((total - free) * 100) / total)
    }
}

/// The rustc version string names a nightly toolchain.
pub open spec fn nightly_version(v: Option<String>) -> bool {
    match v {
        Some(s) => contains_text(s@, "nightly"@),
        None => false,
    }
}

/// Whether a `rustc --version` line names a nightly toolchain.
pub fn is_nightly(version: &Option<String>) -> (r: bool)
    ensures
        r == nightly_version(*version),
{
    match version {
        Some(s) => str_contains(s.as_str(), "nightly"),
        None => false,
    }
}

/// The tools found on `PATH` when the program looked.
#[derive(Clone, Debug)]
pub struct ToolSet {
    pub found: Vec<String>,
}

/// The tool `name` was found.
pub open spec fn has_tool(t: ToolSet, name: Seq<char>) -> bool {
    views(t.found@).contains(name)
}

impl ToolSet {
    /// Whether the tool `name` was found.
    pub fn has(&self, name: &str) -> (r: bool)
        ensures
            r == has_tool(*self, name@),
    {
        let n = self.found.len();
        let mut i: usize = 0;
        while i < n
            invariant
                n == self.found@.len(),
                i <= n,
                forall|j: int| 0 <= j < i ==> views(self.found@)[j] != name@,
            decreases n - i,
        {
            if str_eq(self.found[i].as_str(), name) {
                proof {
                    assert(views(self.found@)[i as int] == name@);
                }
                return true;
            }
            i = i + 1;
        }
        false
    }
}

/// The tools the report lists, in order.
pub open spec fn report_tool_names() -> Seq<Seq<char>> {
    seq!["sccache"@, "cargo-sweep"@, "cargo-machete"@, "cargo-nextest"@, "cargo-binstall"@]
}

/// The tools the report shows as present or missing.
pub fn report_tools() -> (r: Vec<&'static str>)
    ensures
        r@.map_values(|s: &str| s@) == report_tool_names(),
{
    let v = vec!["sccache", "cargo-sweep", "cargo-machete", "cargo-nextest", "cargo-binstall"];
    proof {
        assert(v@.map_values(|s: &str| s@) =~= report_tool_names());
    }
    v
}

// ---------------------------------------------------------------------------
// human_bytes
// ---------------------------------------------------------------------------
/// 2^53, the first integer above which `u64 as f64` can lose bits.
pub open spec fn exact_f64_limit() -> nat {
    0x20_0000_0000_0000
}

/// The power of two by which `n` must be divided to fit the 53-bit significand of an f64.
pub open spec fn f64_scale(n: nat) -> nat
    decreases n,
{
    if n < exact_f64_limit() {
        1
    } else {
        2 * f64_scale(n / 2)
    }
}

/// `q` rounded at the remainder `r` of the divisor `d`: half-way goes to the even quotient.
pub open spec fn round_half_even(q: nat, r: nat, d: nat) -> nat {
    if 2 * r > d || (2 * r == d && q % 2 == 1) {
        q + 1
    } else {
        q
    }
}

/// The value of `n as f64` (round to nearest, ties to even), as an integer.
pub open spec fn as_f64(n: nat) -> nat {
    let p = f64_scale(n);
    round_half_even(n / p, n % p, p) * p
}

/// 1024 to the power `i`.
pub open spec fn pow1024(i: nat) -> nat
    decreases i,
{
    if i == 0 {
        1
    } else {
        1024 * pow1024((i - 1) as nat)
    }
}

/// How many times `human_bytes` divides by 1024: up to four (TB).
pub open spec fn unit_index(n: nat) -> nat {
    if n >= pow1024(4) {
        4
    } else if n >= pow1024(3) {
        3
    } else if n >= pow1024(2) {
        2
    } else if n >= pow1024(1) {
        1
    } else {
        0
    }
}

/// The unit name for a unit index.
pub open spec fn unit_name(i: nat) -> Seq<char> {
    if i == 0 {
        "B"@
    } else if i == 1 {
        "KB"@
    } else if i == 2 {
        "MB"@
    } else if i == 3 {
        "GB"@
    } else {
        "TB"@
    }
}

/// Tenths of `n as f64 / 1024^i`, rounded as `{:.1}` rounds the exact binary value.
pub open spec fn tenths(n: nat, i: nat) -> nat {
    let x = as_f64(n) * 10;
    let d = pow1024(i);
    round_half_even(x / d, x % d, d)
}

/// `human_bytes(n)`: bytes under 1 KB as `"<n> B"`, larger sizes with one decimal and
/// the largest unit up to TB that does not exceed them.
pub open spec fn human_bytes_text(n: nat) -> Seq<char> {
    let i = unit_index(n);
    if i == 0 {
        decimal(n) + " B"@
    } else {
        let t = tenths(n, i);
        decimal(t / 10) + "."@ + seq![digit_char(t % 10)] + " "@ + unit_name(i)
    }
}

proof fn lemma_pow1024_values()
    ensures
        pow1024(0) == 1,
        pow1024(1) == 1024,
        pow1024(2) == 1048576,
        pow1024(3) == 1073741824,
        pow1024(4) == 1099511627776,
{
    reveal_with_fuel(pow1024, 5);
}

fn unit_name_str(i: u64) -> (r: &'static str)
    requires
        i <= 4,
    ensures
        r@ == unit_name(i as nat),
{
    if i == 0 {
        "B"
    } else if i == 1 {
        "KB"
    } else if i == 2 {
        "MB"
    } else if i == 3 {
        "GB"
    } else {
        "TB"
    }
}

/// The scale `f64_scale(n)` and `n / f64_scale(n)`, found by halving.
fn f64_scale_exec(n: u64) -> (r: (u64, u64))
    ensures
        r.0 == f64_scale(n as nat),
        r.1 == n as nat / f64_scale(n as nat),
        1 <= r.0 <= 4096,
        r.1 < exact_f64_limit(),
{
    let mut m: u64 = n;
    let mut p: u64 = 1;
    while m >= 0x20_0000_0000_0000
        invariant
            1 <= p <= 4096,
            m == n as nat / p as nat,
            f64_scale(n as nat) == p * f64_scale(m as nat),
        decreases m,
    {
        proof {
            vstd::arithmetic::div_mod::lemma_div_denominator(n as int, p as int, 2);
            vstd::arithmetic::div_mod::lemma_fundamental_div_mod(n as int, p as int);
            let fm = f64_scale((m / 2) as nat);
            assert(f64_scale(m as nat) == 2 * fm);
            assert(p * (2 * fm) == (2 * p) * fm) by (nonlinear_arith);
            assert(p * m <= n) by (nonlinear_arith)
                requires
                    m == n as nat / p as nat,
                    p >= 1,
                    n == p * (n as nat / p as nat) + (n as nat % p as nat),
                    (n as nat % p as nat) >= 0,
            ;
            assert(p <= 2047) by (nonlinear_arith)
                requires
                    p * m <= n,
                    m >= 0x20_0000_0000_0000,
                    n <= 0xFFFF_FFFF_FFFF_FFFF,
                    p >= 1,
            ;
        }
        m = m / 2;
        p = p * 2;
    }
    proof {
        assert(f64_scale(m as nat) == 1);
        assert(f64_scale(n as nat) == p * f64_scale(m as nat));
        assert(p * f64_scale(m as nat) == p) by (nonlinear_arith)
            requires
                f64_scale(m as nat) == 1,
        ;
    }
    (p, m)
}

/// `u64 as f64` as an exact integer (at most 2^64, so it needs 128 bits).
fn as_f64_exec(n: u64) -> (r: u128)
    ensures
        r == as_f64(n as nat),
        r <= 0x1_0000_0000_0000_1000,
{
    let (p, q) = f64_scale_exec(n);
    let rem = n % p;
    let rq: u64 = if 2 * (rem as u128) > p as u128 || (2 * (rem as u128) == p as u128 && q % 2
        == 1) {
        q + 1
    } else {
        q
    };
    proof {
        vstd::arithmetic::div_mod::lemma_fundamental_div_mod(n as int, p as int);
        assert(rq * p <= n + p) by (nonlinear_arith)
            requires
                rq <= q + 1,
                n == p * q + (n as nat % p as nat),
                (n as nat % p as nat) >= 0,
                p >= 1,
        ;
    }
    (rq as u128) * (p as u128)
}

/// Bytes as a short human size: `"512 B"`, `"1.5 KB"`, up to TB, one decimal place
/// rounded as Rust's `{:.1}` rounds the `f64` value `n / 1024^i`.
pub fn human_bytes(n: u64) -> (r: String)
    ensures
        r@ == human_bytes_text(n as nat),
{
    proof {
        lemma_pow1024_values();
    }
    let i: u64 = if n >= 1099511627776 {
        4
    } else if n >= 1073741824 {
        3
    } else if n >= 1048576 {
        2
    } else if n >= 1024 {
        1
    } else {
        0
    };
    if i == 0 {
        let s = decimal_string(n);
        return s.concat(" B");
    }
    let d: u128 = if i == 1 {
        1024
    } else if i == 2 {
        1048576
    } else if i == 3 {
        1073741824
    } else {
        1099511627776
    };
    let x = as_f64_exec(n) * 10;
    let q = x / d;
    let rem = x % d;
    let t: u128 = if 2 * rem > d || (2 * rem == d && q % 2 == 1) {
        q + 1
    } else {
        q
    };
    proof {
        assert(q <= x);
        assert(t <= 0xFFFF_FFFF_FFFF_FFFF) by (nonlinear_arith)
            requires
                q == x / d,
                d >= 1024,
                x <= 0xA_0000_0000_0000_A000,
                t <= q + 1,
        ;
    }
    let whole = decimal_string((t / 10) as u64);
    let frac = crate::text::decimal_string((t % 10) as u64);
    proof {
        assert(decimal((t % 10) as nat) == seq![digit_char((t % 10) as nat)]);
    }
    let s = whole.concat(".");
    let s = s.concat(frac.as_str());
    let s = s.concat(" ");
    s.concat(unit_name_str(i))
}


// ---------------------------------------------------------------------------
// Assembling the report from what the probes found
// ---------------------------------------------------------------------------
/// A mounted disk as the probe saw it.
#[derive(Clone, Debug)]
pub struct DiskFacts {
    pub mount_point: String,
    pub total: u64,
    pub available: u64,
}

/// The disk is mounted at a prefix of the path `abs` (by path components).
pub open spec fn holds_path(abs: Seq<char>, d: DiskFacts) -> bool {
    path_starts_with_of(abs, d.mount_point@)
}

/// The length in bytes of the disk's mount point.
pub open spec fn mount_len(d: DiskFacts) -> nat {
    encode_utf8(d.mount_point@).len()
}

/// The `i`-th disk is the one that holds `abs`: its mount point is a prefix of `abs`,
/// no other such mount point is longer, and none after it is as long (of equally long
/// ones, the last is taken).
pub open spec fn is_best_disk(abs: Seq<char>, disks: Seq<DiskFacts>, i: int) -> bool {
    &&& 0 <= i < disks.len()
    &&& holds_path(abs, disks[i])
    &&& forall|j: int|
        0 <= j < disks.len() && holds_path(abs, #[trigger] disks[j]) ==> mount_len(disks[j])
            <= mount_len(disks[i])
    &&& forall|j: int|
        i < j < disks.len() && holds_path(abs, #[trigger] disks[j]) ==> mount_len(disks[j])
            < mount_len(disks[i])
}

/// The index of the disk that holds the absolute path `abs`, the one `df <path>` would
/// report; `None` when no mount point is a prefix of it.
pub fn best_disk(abs: &str, disks: &Vec<DiskFacts>) -> (r: Option<usize>)
    ensures
        match r {
            Some(i) => is_best_disk(abs@, disks@, i as int),
            None => forall|j: int| 0 <= j < disks@.len() ==> !holds_path(abs@, #[trigger] disks@[j]),
        },
{
    let n = disks.len();
    let mut best: Option<usize> = None;
    let mut best_len: usize = 0;
    let mut i: usize = 0;
    while i < n
        invariant
            n == disks@.len(),
            i <= n,
            match best {
                Some(b) => {
                    &&& b < i
                    &&& holds_path(abs@, disks@[b as int])
                    &&& best_len == mount_len(disks@[b as int])
                    &&& forall|j: int|
                        0 <= j < i && holds_path(abs@, #[trigger] disks@[j]) ==> mount_len(disks@[j])
                            <= best_len
                    &&& forall|j: int|
                        b < j < i && holds_path(abs@, #[trigger] disks@[j]) ==> mount_len(disks@[j])
                            < best_len
                },
                None => forall|j: int| 0 <= j < i ==> !holds_path(abs@, #[trigger] disks@[j]),
            },
        decreases n - i,
    {
        let d = &disks[i];
        if path_starts_with(abs, d.mount_point.as_str()) {
            let m = d.mount_point.as_str();
            let len = m.as_bytes().len();
            proof {
                assert(m@ == disks@[i as int].mount_point@);
                assert(len == mount_len(disks@[i as int]));
            }
            let take = match best {
                Some(_) => len >= best_len,
                None => true,
            };
            if take {
                best = Some(i);
                best_len = len;
            }
        }
        i = i + 1;
    }
    best
}

/// Total and free bytes of the filesystem that holds the absolute path `abs`, or
/// nothing when no mounted disk holds it.
pub fn disk_total_free(abs: &str, disks: &Vec<DiskFacts>) -> (r: (Option<u64>, Option<u64>))
    ensures
        (exists|i: int| is_best_disk(abs@, disks@, i) && r == (Some(disks@[i].total), Some(disks@[i].available)))
            || (r == (None::<u64>, None::<u64>) && forall|j: int|
            0 <= j < disks@.len() ==> !holds_path(abs@, #[trigger] disks@[j])),
{
    match best_disk(abs, disks) {
        Some(i) => (Some(disks[i].total), Some(disks[i].available)),
        None => (None, None),
    }
}

impl Project {
    /// The project at `root`, with its manifest and local cargo config beside it.
    pub fn new(root: &str, has_cargo_toml: bool, target_bytes: Option<u64>, global_cargo_config: String) -> (p: Project)
        ensures
            p.root@ == root@,
            p.cargo_toml@ == path_join_of(root@, "Cargo.toml"@),
            p.has_cargo_toml == has_cargo_toml,
            p.cargo_config@ == path_join_of(path_join_of(root@, ".cargo"@), "config.toml"@),
            p.target_bytes == target_bytes,
            p.global_cargo_config@ == global_cargo_config@,
    {
        let cargo_dir = path_join(root, ".cargo");
        Project {
            root: String::from_str(root),
            cargo_toml: path_join(root, "Cargo.toml"),
            has_cargo_toml,
            cargo_config: path_join(cargo_dir.as_str(), "config.toml"),
            target_bytes,
            global_cargo_config,
        }
    }
}

/// The build directory of the project at `root`.
pub fn target_dir(root: &str) -> (r: String)
    ensures
        r@ == path_join_of(root@, "target"@),
{
    path_join(root, "target")
}

impl SystemReport {
    /// The report on what the probes found; nightly is read off the rustc version.
    pub fn new(
        os: String,
        arch: String,
        cores: usize,
        ram_bytes: Option<u64>,
        disk: (Option<u64>, Option<u64>),
        rustc_version: Option<String>,
        project: Project,
    ) -> (r: SystemReport)
        ensures
            r.os@ == os@,
            r.arch@ == arch@,
            r.cores == cores,
            r.ram_bytes == ram_bytes,
            r.disk_total_bytes == disk.0,
            r.disk_free_bytes == disk.1,
            r.rustc_version == rustc_version,
            r.nightly == nightly_version(rustc_version),
            r.project == project,
    {
        let nightly = is_nightly(&rustc_version);
        SystemReport {
            os,
            arch,
            cores,
            ram_bytes,
            disk_total_bytes: disk.0,
            disk_free_bytes: disk.1,
            rustc_version,
            nightly,
            project,
        }
    }
}

// ---------------------------------------------------------------------------
// Sizing a directory tree
// ---------------------------------------------------------------------------
/// One entry met while walking a directory tree, as the walk could read it.
#[derive(Clone, Copy, Debug, PartialEq, Eq, Structural)]
pub enum EntryKind {
    /// A symbolic link: skipped, so nothing is counted twice and no cycle is followed.
    Symlink,
    /// A directory: walked into.
    Dir,
    /// Any other entry whose size could be read: its length counts.
    File { len: u64 },
    /// An entry whose type or size could not be read: counted as nothing.
    Unreadable,
}

/// The walk's total after an entry, and whether to walk into it.
pub open spec fn size_step_spec(kind: EntryKind, acc: u64) -> (int, bool) {
    match kind {
        EntryKind::Dir => (acc as int, true),
        EntryKind::File { len } => (acc + len, false),
        _ => (acc as int, false),
    }
}

/// One step of sizing a directory tree: the total after the entry `kind`, and whether
/// the walk goes into it.
pub fn size_step(kind: EntryKind, acc: u64) -> (r: (u64, bool))
    requires
        kind matches EntryKind::File { len } ==> acc + len <= u64::MAX,
    ensures
        r.0 as int == size_step_spec(kind, acc).0,
        r.1 == size_step_spec(kind, acc).1,
{
    match kind {
        EntryKind::Dir => (acc, true),
        EntryKind::File { len } => (acc + len, false),
        _ => (acc, false),
    }
}

} // verus!
