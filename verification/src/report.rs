//! The facts of the opening report as text: which tools are there and which are
//! missing, and the lines the program prints, colors aside.
use vstd::prelude::*;
use crate::suggestion::Suggestion;
use crate::system::{has_tool, human_bytes, human_bytes_text, report_tool_names, report_tools, SystemReport, ToolSet};
use crate::text::{decimal, decimal_string, join_strings, joined, str_starts_with, views};

verus! {

/// A `rustc --version` line without rustc's own `rustc ` prefix: the report's label
/// already says what it is.
pub open spec fn rust_label_text(v: Seq<char>) -> Seq<char> {
    if v.len() >= 6 && v.subrange(0, 6) == "rustc "@ {
        v.subrange(6, v.len() as int)
    } else {
        v
    }
}

/// The Rust version as the report shows it.
pub fn rust_label(v: &str) -> (r: String)
    ensures
        r@ == rust_label_text(v@),
{
    proof {
        reveal_strlit("rustc ");
    }
    if str_starts_with(v, "rustc ") {
        let n = v.unicode_len();
        String::from_str(v.substring_char(6, n))
    } else {
        String::from_str(v)
    }
}

/// `label` padded with spaces on the right to `width` characters.
pub open spec fn padded(label: Seq<char>, width: nat) -> Seq<char> {
    if label.len() >= width {
        label
    } else {
        label + Seq::new((width - label.len()) as nat, |i: int| ' ')
    }
}

/// `label` padded to `width` characters, as `{:<width$}` formats it: report labels are
/// padded to eight so the values line up, category labels to five.
pub fn pad_right(label: &str, width: usize) -> (r: String)
    ensures
        r@ == padded(label@, width as nat),
{
    let mut out = String::from_str(label);
    let mut n = label.unicode_len();
    proof {
        reveal_strlit(" ");
    }
    while n < width
        invariant
            label@.len() <= n <= width || (n == label@.len() && n >= width),
            out@ == label@ + Seq::new((n - label@.len()) as nat, |i: int| ' '),
        decreases width - n,
    {
        let ghost prev = out@;
        out.append(" ");
        proof {
            reveal_strlit(" ");
            assert(" "@ =~= seq![' ']);
            assert(out@ == prev + seq![' ']);
            assert(out@ =~= label@ + Seq::new((n + 1 - label@.len()) as nat, |i: int| ' '));
        }
        n = n + 1;
    }
    proof {
        if label@.len() >= width {
            assert(out@ =~= label@);
        } else {
            assert(n == width);
        }
    }
    out
}

/// The test for a tool that was found.
pub open spec fn found_in(tools: ToolSet) -> spec_fn(Seq<char>) -> bool {
    |t: Seq<char>| has_tool(tools, t)
}

/// The test for a tool that was not found.
pub open spec fn missing_from(tools: ToolSet) -> spec_fn(Seq<char>) -> bool {
    |t: Seq<char>| !has_tool(tools, t)
}

/// The report's tools that were found, in the report's order.
pub open spec fn tools_found(tools: ToolSet) -> Seq<Seq<char>> {
    report_tool_names().filter(found_in(tools))
}

/// The report's tools that were not found, in the report's order.
pub open spec fn tools_missing(tools: ToolSet) -> Seq<Seq<char>> {
    report_tool_names().filter(missing_from(tools))
}

/// The report's tools split into those found and those missing, each in order.
pub fn split_tools(tools: &ToolSet) -> (r: (Vec<String>, Vec<String>))
    ensures
        views(r.0@) == tools_found(*tools),
        views(r.1@) == tools_missing(*tools),
{
    let names = report_tools();
    let ghost all = report_tool_names();
    let mut have: Vec<String> = Vec::new();
    let mut miss: Vec<String> = Vec::new();
    let n = names.len();
    let mut i: usize = 0;
    while i < n
        invariant
            n == all.len(),
            names@.map_values(|s: &str| s@) == all,
            all == report_tool_names(),
            i <= n,
            views(have@) == all.subrange(0, i as int).filter(found_in(*tools)),
            views(miss@) == all.subrange(0, i as int).filter(missing_from(*tools)),
        decreases n - i,
    {
        let t = names[i];
        proof {
            assert(all[i as int] == t@);
            assert(all.subrange(0, i + 1).drop_last() =~= all.subrange(0, i as int));
            assert(all.subrange(0, i + 1).last() == t@);
            assert(found_in(*tools)(t@) == has_tool(*tools, t@));
            assert(missing_from(*tools)(t@) == !has_tool(*tools, t@));
            assert(all.subrange(0, i + 1) =~= all.subrange(0, i as int).push(t@));
            all.subrange(0, i as int).lemma_filter_push(t@, found_in(*tools));
            all.subrange(0, i as int).lemma_filter_push(t@, missing_from(*tools));
        }
        let ghost h0 = have@;
        let ghost m0 = miss@;
        if tools.has(t) {
            have.push(String::from_str(t));
            proof {
                assert(views(have@) =~= views(h0).push(t@));
            }
        } else {
            miss.push(String::from_str(t));
            proof {
                assert(views(miss@) =~= views(m0).push(t@));
            }
        }
        i = i + 1;
    }
    proof {
        assert(all.subrange(0, n as int) =~= all);
    }
    (have, miss)
}

/// The tools line: what is there, then `sep`, then what is missing; a side that is empty
/// is left out with its separator.
pub open spec fn tools_line_text(have: Seq<Seq<char>>, miss: Seq<Seq<char>>, sep: Seq<char>) -> Seq<char> {
    if have.len() == 0 {
        joined(miss, "  "@)
    } else if miss.len() == 0 {
        joined(have, "  "@)
    } else {
        joined(have, "  "@) + "   "@ + sep + "   "@ + joined(miss, "  "@)
    }
}

/// The tools line of the report, from the entries already marked as found or missing.
pub fn tools_line(have: &Vec<String>, miss: &Vec<String>, sep: &str) -> (r: String)
    ensures
        r@ == tools_line_text(views(have@), views(miss@), sep@),
{
    if have.len() == 0 {
        join_strings(miss, "  ")
    } else if miss.len() == 0 {
        join_strings(have, "  ")
    } else {
        let s = join_strings(have, "  ").concat("   ");
        let s = s.concat(sep).concat("   ");
        s.concat(join_strings(miss, "  ").as_str())
    }
}

/// A size as the report shows it, with `absent` in its place when it is unknown.
pub open spec fn size_or(n: Option<u64>, absent: Seq<char>) -> Seq<char> {
    match n {
        Some(b) => human_bytes_text(b as nat),
        None => absent,
    }
}

/// The system line: `<os> <arch> · <cores> cores · <ram> RAM`, with `?` for unknown RAM.
pub open spec fn system_line_text(r: SystemReport) -> Seq<char> {
    r.os@ + " "@ + r.arch@ + " · "@ + decimal(r.cores as nat) + " cores · "@ + size_or(r.ram_bytes, "?"@)
        + " RAM"@
}

/// The system line of the report.
pub fn system_line(r: &SystemReport) -> (s: String)
    ensures
        s@ == system_line_text(*r),
{
    let ram = match r.ram_bytes {
        Some(b) => human_bytes(b),
        None => String::from_str("?"),
    };
    let s = r.os.clone().concat(" ").concat(r.arch.as_str()).concat(" · ");
    let s = s.concat(decimal_string(r.cores as u64).as_str()).concat(" cores · ");
    s.concat(ram.as_str()).concat(" RAM")
}

/// The size of the project's build directory, or `none`.
pub fn target_size(r: &SystemReport) -> (s: String)
    ensures
        s@ == size_or(r.project.target_bytes, "none"@),
{
    match r.project.target_bytes {
        Some(b) => human_bytes(b),
        None => String::from_str("none"),
    }
}

/// The titles of the suggestions, joined with `, `.
pub fn titles(sugs: &Vec<Suggestion>) -> (r: String)
    ensures
        r@ == joined(sugs@.map_values(|s: Suggestion| s.title@), ", "@),
{
    let mut v: Vec<String> = Vec::new();
    let n = sugs.len();
    let mut i: usize = 0;
    while i < n
        invariant
            n == sugs@.len(),
            i <= n,
            views(v@) == sugs@.subrange(0, i as int).map_values(|s: Suggestion| s.title@),
        decreases n - i,
    {
        let ghost prev = v@;
        let t = sugs[i].title.clone();
        v.push(t);
        proof {
            assert(t@ == sugs@[i as int].title@);
            assert(views(v@) =~= views(prev).push(t@));
            assert(sugs@.subrange(0, i + 1).map_values(|s: Suggestion| s.title@) =~= sugs@.subrange(0, i as int).map_values(|s: Suggestion| s.title@).push(t@));
        }
        i = i + 1;
    }
    proof {
        assert(sugs@.subrange(0, n as int) =~= sugs@);
    }
    join_strings(&v, ", ")
}

} // verus!
