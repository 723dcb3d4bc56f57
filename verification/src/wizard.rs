//! The accept/skip wizard's decisions: the tally of a run, the text of a card, the
//! lines of a diff worth showing, and the sweep the user picks. The program shows the
//! cards, asks, and carries out what is accepted.
use vstd::prelude::*;
use crate::paths::same_path;
use crate::ui::{tildified, tildify_with};
use crate::suggestion::{tag_label, RunSpec, Suggestion, SweepSpec};
use crate::text::{all_ws, decimal, decimal_string, is_blank, views};

verus! {

/// The counts of a wizard run.
#[derive(Clone, Copy, Debug, PartialEq, Eq, Structural)]
pub struct Summary {
    pub applied: usize,
    pub skipped: usize,
    pub failed: usize,
    pub quit: bool,
}

/// What happened to one suggestion.
#[derive(Clone, Copy, Debug, PartialEq, Eq, Structural)]
pub enum Event {
    /// Accepted; `ok` says whether carrying it out succeeded.
    Accepted { ok: bool },
    /// Skipped.
    Skipped,
    /// The user stopped the wizard.
    Quit,
}

/// The user's answer on a card.
#[derive(Clone, Copy, Debug, PartialEq, Eq, Structural)]
pub enum Decision {
    Accept,
    Skip,
    Quit,
}

/// What the wizard does next.
#[derive(Clone, Copy, Debug, PartialEq, Eq, Structural)]
pub enum WizardAction {
    /// Ask the user about the current card.
    Ask,
    /// Carry out the current suggestion; `write` is false on a dry run, which writes and
    /// runs nothing and only says what it would do.
    Execute { write: bool },
    /// Leave the current suggestion as it is.
    Skip,
    /// Stop the run here.
    Stop,
    /// Every card has been handled.
    Done,
}

/// The wizard's next step at card `i` of `total`: past the last card it is done; with
/// `--yes` every card is accepted without a prompt; otherwise the user is asked, and the
/// answer (`answer`) is carried out. An accepted card is executed for real unless this is
/// a dry run.
pub open spec fn next_action_spec(i: nat, total: nat, yes: bool, dry_run: bool, answer: Option<Decision>) -> WizardAction {
    if i >= total {
        WizardAction::Done
    } else if yes {
        WizardAction::Execute { write: !dry_run }
    } else {
        match answer {
            None => WizardAction::Ask,
            Some(Decision::Accept) => WizardAction::Execute { write: !dry_run },
            Some(Decision::Skip) => WizardAction::Skip,
            Some(Decision::Quit) => WizardAction::Stop,
        }
    }
}

/// The wizard's next step at card `i` of `total`, given the flags and the user's answer
/// so far (`None` before asking).
pub fn next_action(i: usize, total: usize, yes: bool, dry_run: bool, answer: Option<Decision>) -> (a: WizardAction)
    ensures
        a == next_action_spec(i as nat, total as nat, yes, dry_run, answer),
{
    if i >= total {
        WizardAction::Done
    } else if yes {
        WizardAction::Execute { write: !dry_run }
    } else {
        match answer {
            None => WizardAction::Ask,
            Some(Decision::Accept) => WizardAction::Execute { write: !dry_run },
            Some(Decision::Skip) => WizardAction::Skip,
            Some(Decision::Quit) => WizardAction::Stop,
        }
    }
}

/// The event an action leaves in the tally; `ok` says whether executing succeeded.
/// Asking and being done leave none.
pub open spec fn event_of_spec(a: WizardAction, ok: bool) -> Option<Event> {
    match a {
        WizardAction::Execute { .. } => Some(Event::Accepted { ok }),
        WizardAction::Skip => Some(Event::Skipped),
        WizardAction::Stop => Some(Event::Quit),
        _ => None,
    }
}

/// The event that the action `a` leaves in the tally.
pub fn event_of(a: WizardAction, ok: bool) -> (e: Option<Event>)
    ensures
        e == event_of_spec(a, ok),
{
    match a {
        WizardAction::Execute { .. } => Some(Event::Accepted { ok }),
        WizardAction::Skip => Some(Event::Skipped),
        WizardAction::Stop => Some(Event::Quit),
        _ => None,
    }
}

/// What the wizard does at a card that is not past the end: under `--yes`, or once the
/// user accepts, the card is executed, for real exactly when this is not a dry run; a
/// skip skips it and a quit stops the run; without `--yes` and before an answer it asks.
/// Past the last card it is done, whatever else holds.
pub proof fn lemma_next_action_law(i: nat, total: nat, yes: bool, dry_run: bool, answer: Option<Decision>)
    ensures
        i >= total ==> next_action_spec(i, total, yes, dry_run, answer) == WizardAction::Done,
        i < total && (yes || answer == Some(Decision::Accept)) ==> next_action_spec(
            i,
            total,
            yes,
            dry_run,
            answer,
        ) == (WizardAction::Execute { write: !dry_run }),
        i < total && !yes && answer == Some(Decision::Skip) ==> next_action_spec(i, total, yes, dry_run, answer)
            == WizardAction::Skip,
        i < total && !yes && answer == Some(Decision::Quit) ==> next_action_spec(i, total, yes, dry_run, answer)
            == WizardAction::Stop,
        i < total && !yes && answer is None ==> next_action_spec(i, total, yes, dry_run, answer)
            == WizardAction::Ask,
        next_action_spec(i, total, yes, dry_run, answer) == WizardAction::Ask ==> !yes && answer is None,
{
}

/// With `--yes` no card is ever asked about, and a dry run never executes anything for
/// real.
pub proof fn lemma_yes_and_dry_run(i: nat, total: nat, yes: bool, dry_run: bool, answer: Option<Decision>)
    ensures
        yes ==> next_action_spec(i, total, yes, dry_run, answer) != WizardAction::Ask,
        dry_run ==> next_action_spec(i, total, yes, dry_run, answer) != (WizardAction::Execute {
            write: true,
        }),
{
}

/// The tally after one more event: an accepted item counts as applied or failed, a
/// skipped one as skipped, a quit ends the run; once the run has quit nothing changes.
pub open spec fn step(s: Summary, ev: Event) -> Summary {
    if s.quit {
        s
    } else {
        match ev {
            Event::Accepted { ok } => if ok {
                Summary { applied: (s.applied + 1) as usize, ..s }
            } else {
                Summary { failed: (s.failed + 1) as usize, ..s }
            },
            Event::Skipped => Summary { skipped: (s.skipped + 1) as usize, ..s },
            Event::Quit => Summary { quit: true, ..s },
        }
    }
}

/// The tally after the events `evs`, from nothing counted.
pub open spec fn tally(evs: Seq<Event>) -> Summary
    decreases evs.len(),
{
    if evs.len() == 0 {
        Summary { applied: 0, skipped: 0, failed: 0, quit: false }
    } else {
        step(tally(evs.drop_last()), evs.last())
    }
}

/// Nothing counted yet.
pub fn start() -> (s: Summary)
    ensures
        s == tally(Seq::<Event>::empty()),
{
    Summary { applied: 0, skipped: 0, failed: 0, quit: false }
}

/// The tally after one more event.
pub fn record(s: Summary, ev: Event) -> (r: Summary)
    requires
        s.applied + s.skipped + s.failed < usize::MAX,
    ensures
        r == step(s, ev),
{
    if s.quit {
        return s;
    }
    match ev {
        Event::Accepted { ok } => if ok {
            Summary { applied: s.applied + 1, ..s }
        } else {
            Summary { failed: s.failed + 1, ..s }
        },
        Event::Skipped => Summary { skipped: s.skipped + 1, ..s },
        Event::Quit => Summary { quit: true, ..s },
    }
}

/// The summary of a run whose suggestions met `events`, one each and in order; what
/// follows a quit is not counted.
pub fn run(events: &Vec<Event>) -> (s: Summary)
    requires
        events@.len() < usize::MAX,
    ensures
        s == tally(events@),
{
    let n = events.len();
    let mut s = start();
    let mut i: usize = 0;
    proof {
        assert(events@.subrange(0, 0) =~= Seq::<Event>::empty());
    }
    while i < n
        invariant
            n == events@.len(),
            n < usize::MAX,
            i <= n,
            s == tally(events@.subrange(0, i as int)),
        decreases n - i,
    {
        proof {
            lemma_tally_counts(events@.subrange(0, i as int));
            assert(events@.subrange(0, i + 1).drop_last() =~= events@.subrange(0, i as int));
        }
        s = record(s, events[i]);
        i = i + 1;
    }
    proof {
        assert(events@.subrange(0, n as int) =~= events@);
    }
    s
}

/// The number of events of `evs` before the first quit.
pub open spec fn handled(evs: Seq<Event>) -> nat
    decreases evs.len(),
{
    if evs.len() == 0 {
        0
    } else if tally(evs.drop_last()).quit {
        handled(evs.drop_last())
    } else {
        match evs.last() {
            Event::Quit => handled(evs.drop_last()),
            _ => handled(evs.drop_last()) + 1,
        }
    }
}

/// Every suggestion handled before a quit is counted exactly once: applied, skipped
/// or failed.
pub proof fn lemma_tally_counts(evs: Seq<Event>)
    requires
        evs.len() < usize::MAX,
    ensures
        tally(evs).applied + tally(evs).skipped + tally(evs).failed == handled(evs),
        handled(evs) <= evs.len(),
    decreases evs.len(),
{
    if evs.len() > 0 {
        lemma_tally_counts(evs.drop_last());
    }
}

/// A `--yes` run, where every card is accepted, never quits or skips: each card is
/// counted as applied or failed.
pub proof fn lemma_all_accepted(evs: Seq<Event>)
    requires
        evs.len() < usize::MAX,
        forall|i: int| 0 <= i < evs.len() ==> (#[trigger] evs[i]) is Accepted,
    ensures
        !tally(evs).quit,
        tally(evs).skipped == 0,
        tally(evs).applied + tally(evs).failed == evs.len(),
    decreases evs.len(),
{
    if evs.len() > 0 {
        assert forall|i: int| 0 <= i < evs.drop_last().len() implies (#[trigger] evs.drop_last()[i]) is Accepted by {
            assert(evs.drop_last()[i] == evs[i]);
        }
        lemma_all_accepted(evs.drop_last());
        assert(evs.last() is Accepted);
    }
}

/// How many times `e` occurs in `evs`.
pub open spec fn count_of(evs: Seq<Event>, e: Event) -> nat
    decreases evs.len(),
{
    if evs.len() == 0 {
        0
    } else {
        count_of(evs.drop_last(), e) + if evs.last() == e {
            1nat
        } else {
            0nat
        }
    }
}

proof fn lemma_count_of_len(evs: Seq<Event>, e: Event)
    ensures
        count_of(evs, e) <= evs.len(),
    decreases evs.len(),
{
    if evs.len() > 0 {
        lemma_count_of_len(evs.drop_last(), e);
    }
}

/// Before any quit, the tally counts each event by its kind: the successful accepts as
/// applied, the failed ones as failed, the skips as skipped, and the run has not quit.
pub proof fn lemma_tally_by_kind(evs: Seq<Event>)
    requires
        evs.len() < usize::MAX,
        !evs.contains(Event::Quit),
    ensures
        !tally(evs).quit,
        tally(evs).applied == count_of(evs, Event::Accepted { ok: true }),
        tally(evs).failed == count_of(evs, Event::Accepted { ok: false }),
        tally(evs).skipped == count_of(evs, Event::Skipped),
    decreases evs.len(),
{
    if evs.len() > 0 {
        let init = evs.drop_last();
        if init.contains(Event::Quit) {
            let k = choose|k: int| 0 <= k < init.len() && init[k] == Event::Quit;
            assert(evs[k] == Event::Quit);
        }
        lemma_tally_by_kind(init);
        lemma_count_of_len(init, Event::Accepted { ok: true });
        lemma_count_of_len(init, Event::Accepted { ok: false });
        lemma_count_of_len(init, Event::Skipped);
        assert(evs[evs.len() - 1] == evs.last());
        assert(evs.last() != Event::Quit);
    }
}

/// The first quit stops the run: what came before it stays counted as it was, the run is
/// marked as quit, and nothing after it is counted.
pub proof fn lemma_first_quit(evs: Seq<Event>, more: Seq<Event>)
    requires
        evs.len() < usize::MAX,
        !evs.contains(Event::Quit),
    ensures
        tally(evs.push(Event::Quit) + more) == (Summary { quit: true, ..tally(evs) }),
{
    lemma_tally_by_kind(evs);
    assert(evs.push(Event::Quit).drop_last() =~= evs);
    lemma_quit_final(evs.push(Event::Quit), more);
}

/// A quit ends the run: later events change nothing.
pub proof fn lemma_quit_final(evs: Seq<Event>, more: Seq<Event>)
    requires
        tally(evs).quit,
    ensures
        tally(evs + more) == tally(evs),
    decreases more.len(),
{
    if more.len() > 0 {
        lemma_quit_final(evs, more.drop_last());
        assert((evs + more).drop_last() =~= evs + more.drop_last());
    } else {
        assert(evs + more =~= evs);
    }
}

/// The title line of a card: `"<title>   [<TAG>] <n>/<total>"`.
pub open spec fn card_title_text(title: Seq<char>, tag: crate::suggestion::Tag, n: nat, total: nat) -> Seq<char> {
    title + "   ["@ + tag_label(tag) + "] "@ + decimal(n) + "/"@ + decimal(total)
}

/// The title of the card for `sug`, the `n`-th of `total`.
pub fn card_title(sug: &Suggestion, n: usize, total: usize) -> (r: String)
    ensures
        r@ == card_title_text(sug.title@, sug.tag, n as nat, total as nat),
{
    let s = sug.title.clone().concat("   [");
    let s = s.concat(sug.tag.label());
    let s = s.concat("] ");
    let s = s.concat(decimal_string(n as u64).as_str());
    let s = s.concat("/");
    s.concat(decimal_string(total as u64).as_str())
}

/// Where a sweep card says it will sweep: the one candidate (home shown as `~`), or how
/// many candidates the user will pick from.
pub open spec fn sweep_scope_text(candidates: Seq<Seq<char>>, home: Option<String>) -> Seq<char> {
    if candidates.len() == 1 {
        tildified(candidates[0], home)
    } else {
        "a dir you pick · "@ + decimal(candidates.len()) + " options up to ~"@
    }
}

/// The scope line of a sweep card, with the home directory `home`.
pub fn sweep_scope(spec: &SweepSpec, home: &Option<String>) -> (r: String)
    ensures
        r@ == sweep_scope_text(views(spec.candidates@), *home),
{
    if spec.candidates.len() == 1 {
        tildify_with(spec.candidates[0].as_str(), home)
    } else {
        let s = String::from_str("a dir you pick · ").concat(
            decimal_string(spec.candidates.len() as u64).as_str(),
        );
        s.concat(" options up to ~")
    }
}

/// One changed line of a diff.
#[derive(Clone, Debug)]
pub struct DiffLine {
    /// `true` for an added line, `false` for a removed one.
    pub added: bool,
    /// The line without its `+` or `-` marker.
    pub text: String,
}

/// The lines of `s` as `str::lines` splits them: at `\n`, with a `\r` right before it
/// dropped, and no empty last line after a final newline.
pub open spec fn lines_of(s: Seq<char>) -> Seq<Seq<char>>
    decreases s.len(),
{
    if s.len() == 0 {
        seq![]
    } else {
        let i = first_newline(s, 0);
        let raw = s.subrange(0, i);
        let line = if i < s.len() && raw.len() > 0 && raw.last() == '\r' {
            raw.drop_last()
        } else {
            raw
        };
        if i < s.len() {
            proof {
                lemma_first_newline(s, 0);
            }
            seq![line] + lines_of(s.subrange(i + 1, s.len() as int))
        } else {
            seq![line]
        }
    }
}

/// The position of the first `\n` of `s` at or after `from`, or its length.
pub open spec fn first_newline(s: Seq<char>, from: int) -> int
    decreases s.len() - from,
{
    if from >= s.len() {
        s.len() as int
    } else if s[from] == '\n' {
        from
    } else {
        first_newline(s, from + 1)
    }
}

/// What a diff line shows: `Some((true, rest))` for an added line `+rest`,
/// `Some((false, rest))` for a removed line `-rest`, and nothing for the `---`, `+++`
/// and `@@` headers, for context lines and for changed lines that are blank.
pub open spec fn diff_entry(line: Seq<char>) -> Option<(bool, Seq<char>)> {
    let header = line.len() >= 3 && (line.subrange(0, 3) == "---"@ || line.subrange(0, 3)
        == "+++"@);
    let hunk = line.len() >= 2 && line.subrange(0, 2) == "@@"@;
    if header || hunk || line.len() == 0 {
        None
    } else if line[0] == '+' || line[0] == '-' {
        let rest = line.drop_first();
        if all_ws(rest) {
            None
        } else {
            Some((line[0] == '+', rest))
        }
    } else {
        None
    }
}

/// The shown entries of a list of diff lines, in order.
pub open spec fn diff_entries(lines: Seq<Seq<char>>) -> Seq<(bool, Seq<char>)>
    decreases lines.len(),
{
    if lines.len() == 0 {
        seq![]
    } else {
        let init = diff_entries(lines.drop_last());
        match diff_entry(lines.last()) {
            Some(e) => init.push(e),
            None => init,
        }
    }
}

/// The view of diff lines.
pub open spec fn diff_views(v: Seq<DiffLine>) -> Seq<(bool, Seq<char>)> {
    v.map_values(|d: DiffLine| (d.added, d.text@))
}

pub proof fn lemma_first_newline(s: Seq<char>, from: int)
    requires
        0 <= from <= s.len(),
    ensures
        from <= first_newline(s, from) <= s.len(),
        first_newline(s, from) < s.len() ==> s[first_newline(s, from)] == '\n',
        forall|k: int| from <= k < first_newline(s, from) ==> s[k] != '\n',
    decreases s.len() - from,
{
    if from < s.len() && s[from] != '\n' {
        lemma_first_newline(s, from + 1);
    }
}

/// The lines of `s`, split as `str::lines` splits them.
fn split_lines(s: &str) -> (r: Vec<String>)
    ensures
        views(r@) == lines_of(s@),
{
    let n = s.unicode_len();
    let mut out: Vec<String> = Vec::new();
    let mut start: usize = 0;
    proof {
        assert(s@.subrange(0, n as int) =~= s@);
    }
    while start < n
        invariant
            n == s@.len(),
            start <= n,
            lines_of(s@) == views(out@) + lines_of(s@.subrange(start as int, n as int)),
        decreases n - start,
    {
        let ghost rest = s@.subrange(start as int, n as int);
        let mut j: usize = start;
        while j < n && s.get_char(j) != '\n'
            invariant
                n == s@.len(),
                start <= j <= n,
                forall|k: int| start <= k < j ==> s@[k] != '\n',
            decreases n - j,
        {
            j = j + 1;
        }
        proof {
            lemma_first_newline(rest, 0);
            assert forall|k: int| 0 <= k < j - start implies rest[k] != '\n' by {
                assert(rest[k] == s@[start + k]);
            }
            if j < n {
                assert(rest[j - start] == '\n');
            }
            lemma_first_newline_at(rest, (j - start) as int);
        }
        let mut e = j;
        if e > start && s.get_char(e - 1) == '\r' && j < n {
            e = e - 1;
        }
        let line = String::from_str(s.substring_char(start, e));
        let ghost before = out@;
        out.push(line);
        proof {
            assert(views(out@) =~= views(before).push(line@));
            let raw = rest.subrange(0, (j - start) as int);
            if j < n {
                assert(rest.subrange((j - start) + 1, rest.len() as int) =~= s@.subrange(j + 1, n as int));
                if e < j {
                    assert(raw.drop_last() =~= s@.subrange(start as int, e as int));
                } else {
                    assert(raw =~= s@.subrange(start as int, e as int));
                }
            } else {
                assert(raw =~= s@.subrange(start as int, e as int));
            }
            assert(seq![line@] + lines_of(rest.subrange((j - start) + 1, rest.len() as int)) == lines_of(rest)
                || j == n);
        }
        if j < n {
            start = j + 1;
            proof {
                assert(views(out@) + lines_of(s@.subrange(start as int, n as int)) =~= views(before) + (
                seq![line@] + lines_of(s@.subrange(start as int, n as int))));
            }
        } else {
            start = n;
            proof {
                assert(lines_of(rest) == seq![line@]);
                assert(lines_of(s@.subrange(n as int, n as int)) =~= Seq::<Seq<char>>::empty());
                assert(views(out@) + lines_of(s@.subrange(start as int, n as int)) =~= views(before) + seq![
                    line@,
                ]);
            }
        }
    }
    proof {
        assert(lines_of(s@.subrange(n as int, n as int)) =~= Seq::<Seq<char>>::empty());
        assert(views(out@) + Seq::<Seq<char>>::empty() =~= views(out@));
    }
    out
}

proof fn lemma_first_newline_at(s: Seq<char>, j: int)
    requires
        0 <= j <= s.len(),
        forall|k: int| 0 <= k < j ==> s[k] != '\n',
        j < s.len() ==> s[j] == '\n',
    ensures
        first_newline(s, 0) == j,
{
    lemma_first_newline_from(s, 0, j);
}

proof fn lemma_first_newline_from(s: Seq<char>, from: int, j: int)
    requires
        0 <= from <= j <= s.len(),
        forall|k: int| from <= k < j ==> s[k] != '\n',
        j < s.len() ==> s[j] == '\n',
    ensures
        first_newline(s, from) == j,
    decreases j - from,
{
    if from < j {
        lemma_first_newline_from(s, from + 1, j);
    }
}

/// The changed lines of a unified diff worth showing on a card: added and removed lines
/// without their marker, in order. Headers (`---`, `+++`, `@@`), unchanged context and
/// blank changes are dropped: the file is named on the card and the TOML keys are fully
/// qualified, so context only adds noise.
pub fn diff_changes(diff: &str) -> (r: Vec<DiffLine>)
    ensures
        diff_views(r@) == diff_entries(lines_of(diff@)),
{
    let lines = split_lines(diff);
    let ghost ls = views(lines@);
    let mut out: Vec<DiffLine> = Vec::new();
    let n = lines.len();
    let mut i: usize = 0;
    while i < n
        invariant
            n == lines@.len(),
            ls == views(lines@),
            i <= n,
            diff_views(out@) == diff_entries(ls.subrange(0, i as int)),
        decreases n - i,
    {
        let line = lines[i].as_str();
        proof {
            assert(ls.subrange(0, i + 1).drop_last() =~= ls.subrange(0, i as int));
            assert(ls.subrange(0, i + 1).last() == line@);
        }
        let header = crate::text::str_starts_with(line, "---") || crate::text::str_starts_with(
            line,
            "+++",
        ) || crate::text::str_starts_with(line, "@@");
        let len = line.unicode_len();
        proof {
            reveal_strlit("---");
            reveal_strlit("+++");
            reveal_strlit("@@");
        }
        if !header && len > 0 {
            let c = line.get_char(0);
            if c == '+' || c == '-' {
                let rest = line.substring_char(1, len);
                proof {
                    assert(rest@ =~= line@.drop_first());
                }
                if !is_blank(rest) {
                    let ghost before = out@;
                    let d = DiffLine { added: c == '+', text: String::from_str(rest) };
                    out.push(d);
                    proof {
                        assert(diff_views(out@) =~= diff_views(before).push((c == '+', rest@)));
                    }
                }
            }
        }
        i = i + 1;
    }
    proof {
        assert(ls.subrange(0, n as int) =~= ls);
    }
    out
}

/// Whether the wizard takes the narrowest sweep scope without asking: on `--yes`, or
/// when there is only one candidate.
pub fn sweep_needs_no_pick(spec: &SweepSpec, yes: bool) -> (r: bool)
    ensures
        r == (yes || spec.candidates@.len() == 1),
{
    yes || spec.candidates.len() == 1
}

/// The hint shown next to the `i`-th sweep candidate.
pub fn sweep_hint(i: usize) -> (r: &'static str)
    ensures
        r@ == if i == 0 {
            "this project"@
        } else {
            "recursive"@
        },
{
    if i == 0 {
        "this project"
    } else {
        "recursive"
    }
}

/// A sweep over a directory other than the project itself is recursive.
pub fn sweep_is_recursive(dir: &str, spec: &SweepSpec) -> (r: bool)
    requires
        spec.candidates@.len() > 0,
    ensures
        r == !same_path(dir@, spec.candidates@[0]@),
{
    !crate::paths::paths_equal(dir, spec.candidates[0].as_str())
}

/// The arguments of a sweep run.
pub open spec fn sweep_args(time_days: u32, recursive: bool) -> Seq<Seq<char>> {
    let base = seq!["sweep"@, "--time"@, decimal(time_days as nat)];
    if recursive {
        base.push("--recursive"@)
    } else {
        base
    }
}

/// `cargo sweep --time <days> [--recursive]` run in `dir`.
pub fn sweep_runspec(dir: &str, time_days: u32, recursive: bool) -> (r: RunSpec)
    ensures
        r.program@ == "cargo"@,
        views(r.args@) == sweep_args(time_days, recursive),
        r.cwd matches Some(c) && c@ == dir@,
{
    let mut args: Vec<String> = Vec::new();
    args.push(String::from_str("sweep"));
    args.push(String::from_str("--time"));
    args.push(decimal_string(time_days as u64));
    if recursive {
        args.push(String::from_str("--recursive"));
    }
    proof {
        assert(views(args@) =~= sweep_args(time_days, recursive));
    }
    RunSpec { program: String::from_str("cargo"), args, cwd: Some(String::from_str(dir)) }
}

/// The bytes a sweep freed: the size before less the size after, never below zero.
pub fn freed_bytes(before: u64, after: u64) -> (r: u64)
    ensures
        r == if before >= after {
            before - after
        } else {
            0
        },
{
    before.saturating_sub(after)
}

} // verus!
