//! What each cat is doing right now, as the operator sees it: one row in the
//! composer, redrawn in place, and a full snapshot printed on demand.

use crate::activity;
use crate::activity::{Activity, Finished, Flight, Seen, TaskLine};
use crate::common;
use crate::common::Roster;
use crate::figures;
use crate::keys;
use crate::text;
use crate::turns;
use crate::ui;
use crate::ui::{Rgb, Skin};
use vstd::prelude::*;
use vstd::string::*;

verus! {

/// A record not refreshed for this long is shown as unknown, not current: that
/// cat's node has gone quiet, and "thinking" may no longer be true.
pub const ACTIVITY_STALE_MS: u64 = 15000;

/// A failure older than this is no longer pointed out in the row.
pub const FRESH_FAILURE_MS: u64 = 60000;

pub open spec fn known_as(s: Seen, roster: Seq<(Seq<char>, Seq<u8>)>) -> Seq<char> {
    match keys::account_in(s.account@) {
        Some(a) => common::name_for(roster, a),
        None => s.activity.name@,
    }
}

/// Whose record it is: by the account that signed it, where that is one.
pub fn seen_name(s: &Seen, roster: &Roster) -> (r: String)
    ensures
        r@ == known_as(*s, roster@),
{
    match keys::from_hex(s.account.as_str()) {
        Some(a) => roster.name_of(&a),
        None => s.activity.name.clone(),
    }
}

/// Whole seconds from `since` to now, on the clock of a record made at `at`
/// that is `age` old.
pub open spec fn seconds(at: u64, since: u64, age: u64) -> nat {
    ((activity::less(at as int, since as int) + age) / 1000) as nat
}

fn seconds_of(at: u64, since: u64, age: u64) -> (r: u64)
    ensures
        r == seconds(at, since, age),
{
    ((at.saturating_sub(since) as u128 + age as u128) / 1000) as u64
}

/// The call that has run the longest, the first of them where some are even.
pub open spec fn oldest(v: Seq<Flight>) -> int
    recommends
        v.len() > 0,
    decreases v.len(),
{
    if v.len() <= 1 {
        0
    } else {
        let o = oldest(v.drop_last());
        if v.last().since < v[o].since {
            v.len() - 1
        } else {
            o
        }
    }
}

fn oldest_of(v: &Vec<Flight>) -> (r: usize)
    requires
        v@.len() > 0,
    ensures
        r == oldest(v@),
        r < v@.len(),
{
    let mut o: usize = 0;
    let mut i: usize = 1;
    assert(v@.take(1).len() == 1);
    while i < v.len()
        invariant
            1 <= i <= v.len(),
            o < i,
            o == oldest(v@.take(i as int)),
        decreases v.len() - i,
    {
        assert(v@.take(i + 1).drop_last() =~= v@.take(i as int));
        if v[i].since < v[o].since {
            o = i;
        }
        i = i + 1;
    }
    assert(v@.take(i as int) =~= v@);
    o
}

/// What a cat is at, in a few words.
pub open spec fn doing(k: Skin, a: Activity, age: u64) -> Seq<char> {
    let secs = figures::human_text(seconds(a.at, a.since, age));
    if a.phase@ == "thinking"@ {
        ui::painted(k, k.theme.warm, "◌ "@ + secs)
    } else if a.phase@ == "compacting"@ {
        ui::painted(k, k.theme.warm, "◌ compacting "@ + secs)
    } else if a.running@.len() > 0 {
        let f = a.running@[oldest(a.running@)];
        ui::painted(
            k,
            k.theme.accent,
            "⚙"@ + text::dec(a.running@.len()) + " "@ + f.tool@ + " "@ + figures::human_text(
                seconds(a.at, f.since, age),
            ),
        )
    } else {
        ui::dimmed(k, "·"@)
    }
}

/// The newest finished call, if it failed and that is recent.
pub open spec fn fresh_failure(k: Skin, a: Activity, age: u64) -> Seq<char> {
    if a.recent@.len() > 0 && !a.recent@.last().ok && activity::less(
        a.at as int,
        a.recent@.last().at as int,
    ) + age < FRESH_FAILURE_MS {
        " "@ + ui::painted(k, k.theme.alarm, "✗"@ + a.recent@.last().tool@)
    } else {
        ""@
    }
}

/// One cat in the row.
pub open spec fn row_part(k: Skin, s: Seen, roster: Seq<(Seq<char>, Seq<u8>)>) -> Seq<char> {
    let a = s.activity;
    let name = ui::whom(k, known_as(s, roster));
    if s.age_ms > ACTIVITY_STALE_MS {
        name + " "@ + ui::fainted(
            k,
            "? "@ + figures::human_text((s.age_ms / 1000) as nat) + " ago"@,
        )
    } else {
        let progress = if a.tasks_total > 0 {
            " "@ + ui::dimmed(
                k,
                text::dec(a.tasks_finished as nat) + "/"@ + text::dec(a.tasks_total as nat),
            )
        } else {
            ""@
        };
        name + " "@ + doing(k, a, s.age_ms) + progress + fresh_failure(k, a, s.age_ms)
    }
}

/// A stale record is not shown as current: of two records of one cat that are
/// equally old and too old, the row says the same, whatever phase, calls or
/// tasks they hold.
pub proof fn stale_records_look_alike(
    k: Skin,
    a: Seen,
    b: Seen,
    roster: Seq<(Seq<char>, Seq<u8>)>,
)
    requires
        known_as(a, roster) == known_as(b, roster),
        a.age_ms == b.age_ms,
        a.age_ms > ACTIVITY_STALE_MS,
    ensures
        row_part(k, a, roster) == row_part(k, b, roster),
{
}

pub open spec fn row_parts(
    k: Skin,
    seen: Seq<Seen>,
    roster: Seq<(Seq<char>, Seq<u8>)>,
) -> Seq<Seq<char>> {
    Seq::new(seen.len(), |i: int| row_part(k, seen[i], roster))
}

fn doing_text(k: &Skin, a: &Activity, age: u64) -> (r: String)
    ensures
        r@ == doing(*k, *a, age),
{
    let secs = figures::human(seconds_of(a.at, a.since, age));
    if text::same(a.phase.as_str(), "thinking") {
        let s = String::from_str("◌ ").concat(secs.as_str());
        ui::paint(k, k.theme.warm, s.as_str())
    } else if text::same(a.phase.as_str(), "compacting") {
        let s = String::from_str("◌ compacting ").concat(secs.as_str());
        ui::paint(k, k.theme.warm, s.as_str())
    } else if a.running.len() > 0 {
        let f = &a.running[oldest_of(&a.running)];
        let s = String::from_str("⚙").concat(
            text::number(a.running.len() as u64).as_str(),
        ).concat(" ").concat(f.tool.as_str()).concat(" ").concat(
            figures::human(seconds_of(a.at, f.since, age)).as_str(),
        );
        ui::paint(k, k.theme.accent, s.as_str())
    } else {
        ui::dim(k, "·")
    }
}

fn failure_text(k: &Skin, a: &Activity, age: u64) -> (r: String)
    ensures
        r@ == fresh_failure(*k, *a, age),
{
    let n: usize = a.recent.len();
    if n > 0 {
        let f = &a.recent[n - 1];
        let since: u128 = a.at.saturating_sub(f.at) as u128 + age as u128;
        if !f.ok && since < FRESH_FAILURE_MS as u128 {
            let s = String::from_str("✗").concat(f.tool.as_str());
            return String::from_str(" ").concat(ui::paint(k, k.theme.alarm, s.as_str()).as_str());
        }
    }
    "".to_owned()
}

fn part_text(k: &Skin, s: &Seen, roster: &Roster) -> (r: String)
    ensures
        r@ == row_part(*k, *s, roster@),
{
    let a = &s.activity;
    let name = ui::who(k, seen_name(s, roster).as_str());
    if s.age_ms > ACTIVITY_STALE_MS {
        let words = String::from_str("? ").concat(
            figures::human(s.age_ms / 1000).as_str(),
        ).concat(" ago");
        return name.concat(" ").concat(ui::faint(k, words.as_str()).as_str());
    }
    let progress = if a.tasks_total > 0 {
        let words = text::number(a.tasks_finished as u64).concat("/").concat(
            text::number(a.tasks_total as u64).as_str(),
        );
        String::from_str(" ").concat(ui::dim(k, words.as_str()).as_str())
    } else {
        "".to_owned()
    };
    name.concat(" ").concat(doing_text(k, a, s.age_ms).as_str()).concat(
        progress.as_str(),
    ).concat(failure_text(k, a, s.age_ms).as_str())
}

pub open spec fn row_text(
    k: Skin,
    seen: Seq<Seen>,
    roster: Seq<(Seq<char>, Seq<u8>)>,
) -> Seq<char> {
    if seen.len() == 0 {
        "  "@ + ui::fainted(k, "活"@) + " "@ + ui::fainted(
            k,
            "no cat is reporting activity to this node"@,
        )
    } else {
        clipped_ansi(
            k,
            "  "@ + ui::fainted(k, "活"@) + " "@ + text::joined(
                row_parts(k, seen, roster),
                ui::dimmed(k, " · "@),
            ),
            ui::room(k.width as nat, 1),
        )
    }
}

/// The composer's activity row: one short phrase per cat, clipped to the
/// terminal.
pub fn activity_row(k: &Skin, seen: &Vec<Seen>, roster: &Roster) -> (r: String)
    ensures
        r@ == row_text(*k, seen@, roster@),
{
    let lead = String::from_str("  ").concat(ui::faint(k, "活").as_str()).concat(" ");
    if seen.len() == 0 {
        return lead.concat(ui::faint(k, "no cat is reporting activity to this node").as_str());
    }
    let ghost want = row_parts(*k, seen@, roster@);
    let mut parts = text::none();
    let mut i: usize = 0;
    assert(want.take(0) =~= Seq::<Seq<char>>::empty());
    while i < seen.len()
        invariant
            i <= seen.len(),
            want == row_parts(*k, seen@, roster@),
            text::texts(parts@) == want.take(i as int),
        decreases seen.len() - i,
    {
        let one = part_text(k, &seen[i], roster);
        assert(want.take(i + 1) =~= want.take(i as int).push(one@));
        text::put(&mut parts, one.as_str());
        i = i + 1;
    }
    assert(want.take(i as int) =~= want);
    let row = lead.concat(text::join(&parts, ui::dim(k, " · ").as_str()).as_str());
    clip_ansi(k, row.as_str(), ui::left(k.width, 1))
}

// ---------------------------------------------------------------------
// Cutting coloured text
// ---------------------------------------------------------------------

pub open spec fn is_letter(c: char) -> bool {
    ('a' <= c && c <= 'z') || ('A' <= c && c <= 'Z')
}

/// How long an escape sequence is whose escape stands before `s`: to its first
/// letter, or all there is.
pub open spec fn escape_len(s: Seq<char>) -> nat
    decreases s.len(),
{
    if s.len() == 0 {
        0
    } else if is_letter(s[0]) {
        1
    } else {
        1 + escape_len(s.skip(1))
    }
}

pub proof fn lemma_escape_len(s: Seq<char>)
    ensures
        escape_len(s) <= s.len(),
    decreases s.len(),
{
    if s.len() > 0 {
        lemma_escape_len(s.skip(1));
    }
}

/// The longest start of `s` that leaves room for one cell more in `n`, `w`
/// cells being taken already; its escape sequences take none.
pub open spec fn fitting_ansi(s: Seq<char>, w: nat, n: nat) -> Seq<char>
    decreases s.len(),
{
    if s.len() == 0 {
        seq![]
    } else if s[0] == '\x1b' {
        let e = 1 + escape_len(s.skip(1));
        proof {
            lemma_escape_len(s.skip(1));
        }
        s.take(e as int) + fitting_ansi(s.skip(e as int), w, n)
    } else if w + ui::char_cells(s[0]) + 1 > n {
        seq![]
    } else {
        seq![s[0]] + fitting_ansi(s.skip(1), w + ui::char_cells(s[0]), n)
    }
}

pub open spec fn clipped_ansi(k: Skin, s: Seq<char>, n: nat) -> Seq<char> {
    if ui::shown_cells(s) <= n {
        s
    } else if k.colour {
        fitting_ansi(s, 0, n) + "…"@ + ui::OFF@
    } else {
        fitting_ansi(s, 0, n) + "…"@
    }
}

fn escape_end(v: &Vec<char>, from: usize) -> (e: usize)
    requires
        from <= v@.len(),
    ensures
        e == from + escape_len(v@.skip(from as int)),
        from <= e <= v@.len(),
{
    let mut i: usize = from;
    while i < v.len()
        invariant
            from <= i <= v@.len(),
            from + escape_len(v@.skip(from as int)) == i + escape_len(v@.skip(i as int)),
        decreases v.len() - i,
    {
        let ghost rest = v@.skip(i as int);
        assert(rest[0] == v@[i as int]);
        assert(rest.skip(1) =~= v@.skip(i + 1));
        let c = v[i];
        if ('a' <= c && c <= 'z') || ('A' <= c && c <= 'Z') {
            return i + 1;
        }
        i = i + 1;
    }
    i
}

/// Cut a text that already carries colour: only visible cells count, every
/// escape is kept, and colour is reset at the cut.
pub fn clip_ansi(k: &Skin, s: &str, n: usize) -> (r: String)
    ensures
        r@ == clipped_ansi(*k, s@, n as nat),
{
    if ui::shown(s) <= n as u128 {
        return s.to_owned();
    }
    let v = text::chars_of(s);
    let mut out = String::new();
    let mut w: u128 = 0;
    let mut i: usize = 0;
    assert(v@.skip(0) =~= v@);
    assert(out@ + fitting_ansi(v@, 0, n as nat) =~= fitting_ansi(v@, 0, n as nat));
    while i < v.len()
        invariant_except_break
            i <= v.len(),
            w <= n,
            fitting_ansi(v@, 0, n as nat) == out@ + fitting_ansi(
                v@.skip(i as int),
                w as nat,
                n as nat,
            ),
        ensures
            out@ == fitting_ansi(v@, 0, n as nat),
        decreases v.len() - i,
    {
        let ghost rest = v@.skip(i as int);
        let ghost was = out@;
        assert(rest[0] == v@[i as int]);
        assert(rest.skip(1) =~= v@.skip(i + 1));
        if v[i] == '\x1b' {
            let e: usize = escape_end(&v, i + 1);
            let seq_text = text::slice_text(&v, i, e);
            out.append(seq_text.as_str());
            proof {
                let n1 = 1 + escape_len(rest.skip(1));
                assert(e - i == n1);
                assert(rest.take(n1 as int) =~= seq_text@);
                assert(rest.skip(n1 as int) =~= v@.skip(e as int));
                assert(was + (rest.take(n1 as int) + fitting_ansi(
                    v@.skip(e as int),
                    w as nat,
                    n as nat,
                )) =~= out@ + fitting_ansi(v@.skip(e as int), w as nat, n as nat));
            }
            i = e;
        } else {
            let cw: u128 = ui::cells_of(v[i]);
            if w + cw + 1 > n as u128 {
                assert(out@ + Seq::<char>::empty() =~= out@);
                break;
            }
            out.push(v[i]);
            w = w + cw;
            assert(was + (seq![rest[0]] + fitting_ansi(rest.skip(1), w as nat, n as nat))
                =~= out@ + fitting_ansi(rest.skip(1), w as nat, n as nat));
            i = i + 1;
        }
        proof {
            if i == v@.len() {
                assert(out@ + Seq::<char>::empty() =~= out@);
            }
        }
    }
    if k.colour {
        out.concat("…").concat(ui::OFF)
    } else {
        out.concat("…")
    }
}

// ---------------------------------------------------------------------
// A cat's own tasks
// ---------------------------------------------------------------------

pub open spec fn task_mark(k: Skin, status: Seq<char>) -> Seq<char> {
    if status == "doing"@ {
        ui::painted(k, k.theme.warm, "◐"@)
    } else if status == "done"@ {
        ui::painted(k, k.theme.progress, "✓"@)
    } else if status == "failed"@ {
        ui::painted(k, k.theme.alarm, "✗"@)
    } else if status == "dropped"@ {
        ui::painted(k, k.theme.ink, "–"@)
    } else {
        ui::painted(k, k.theme.ink, "○"@)
    }
}

pub open spec fn task_row(k: Skin, t: TaskLine, width: nat) -> Seq<char> {
    let shown = turns::clip_view(t.text@, ui::room(width, 8));
    let body = if t.status@ == "doing"@ {
        ui::bolded(k, k.theme.paper, shown)
    } else if t.status@ == "todo"@ {
        ui::plained(k, shown)
    } else {
        ui::dimmed(k, shown)
    };
    let row = task_mark(k, t.status@) + " "@ + ui::dimmed(k, t.id@) + " "@ + body;
    if t.note@.len() == 0 {
        row
    } else {
        row + "\n  "@ + ui::spaces(9) + "     "@ + ui::fainted(
            k,
            "↳ "@ + turns::clip_view(t.note@, ui::room(width, 12)),
        )
    }
}

/// One local task: a glyph for where it is at, its id, its text, and what came
/// of it if it is finished.
pub fn task_line(k: &Skin, t: &TaskLine, width: usize) -> (r: String)
    ensures
        r@ == task_row(*k, *t, width as nat),
{
    let th = &k.theme;
    let status = t.status.as_str();
    let mark = if text::same(status, "doing") {
        ui::paint(k, th.warm, "◐")
    } else if text::same(status, "done") {
        ui::paint(k, th.progress, "✓")
    } else if text::same(status, "failed") {
        ui::paint(k, th.alarm, "✗")
    } else if text::same(status, "dropped") {
        ui::paint(k, th.ink, "–")
    } else {
        ui::paint(k, th.ink, "○")
    };
    let shown = turns::clip(t.text.as_str(), ui::left(width, 8));
    let body = if text::same(status, "doing") {
        ui::bold(k, th.paper, shown.as_str())
    } else if text::same(status, "todo") {
        ui::plain(k, shown.as_str())
    } else {
        ui::dim(k, shown.as_str())
    };
    let row = mark.concat(" ").concat(ui::dim(k, t.id.as_str()).as_str()).concat(" ").concat(
        body.as_str(),
    );
    if t.note.as_str().is_empty() {
        return row;
    }
    let note = String::from_str("↳ ").concat(
        turns::clip(t.note.as_str(), ui::left(width, 12)).as_str(),
    );
    row.concat("\n  ").concat(ui::space(9).as_str()).concat("     ").concat(
        ui::faint(k, note.as_str()).as_str(),
    )
}

/// How fresh a record is.
pub open spec fn heard(k: Skin, age: u64) -> Seq<char> {
    if age > ACTIVITY_STALE_MS {
        ui::painted(
            k,
            k.theme.warm,
            "last heard "@ + figures::human_text((age / 1000) as nat)
                + " ago — may be out of date"@,
        )
    } else {
        ui::dimmed(k, "heard "@ + figures::milli_text(age as nat) + " ago"@)
    }
}

fn heard_text(k: &Skin, age: u64) -> (r: String)
    ensures
        r@ == heard(*k, age),
{
    if age > ACTIVITY_STALE_MS {
        let words = String::from_str("last heard ").concat(
            figures::human(age / 1000).as_str(),
        ).concat(" ago — may be out of date");
        ui::warn(k, words.as_str())
    } else {
        let words = String::from_str("heard ").concat(figures::millis(age).as_str()).concat(
            " ago",
        );
        ui::dim(k, words.as_str())
    }
}

/// The first record of the cat called `name`.
pub open spec fn record_of(
    seen: Seq<Seen>,
    roster: Seq<(Seq<char>, Seq<u8>)>,
    name: Seq<char>,
) -> Option<Seen>
    decreases seen.len(),
{
    if seen.len() == 0 {
        None
    } else if known_as(seen[0], roster) == name {
        Some(seen[0])
    } else {
        record_of(seen.skip(1), roster, name)
    }
}

/// The first task that is being done.
pub open spec fn underway(tasks: Seq<TaskLine>) -> Option<TaskLine>
    decreases tasks.len(),
{
    if tasks.len() == 0 {
        None
    } else if tasks[0].status@ == "doing"@ {
        Some(tasks[0])
    } else {
        underway(tasks.skip(1))
    }
}

fn underway_mark(k: &Skin, tasks: &Vec<TaskLine>) -> (r: String)
    ensures
        r@ == underway_text(*k, tasks@),
{
    let mut i: usize = 0;
    assert(tasks@.skip(0) =~= tasks@);
    while i < tasks.len()
        invariant
            i <= tasks.len(),
            underway(tasks@) == underway(tasks@.skip(i as int)),
        decreases tasks.len() - i,
    {
        assert(tasks@.skip(i as int)[0] == tasks@[i as int]);
        assert(tasks@.skip(i as int).skip(1) =~= tasks@.skip(i + 1));
        if text::same(tasks[i].status.as_str(), "doing") {
            let words = String::from_str("◐ ").concat(tasks[i].id.as_str());
            return String::from_str(" · ").concat(
                ui::paint(k, k.theme.warm, words.as_str()).as_str(),
            );
        }
        i = i + 1;
    }
    "".to_owned()
}

pub open spec fn underway_text(k: Skin, tasks: Seq<TaskLine>) -> Seq<char> {
    match underway(tasks) {
        Some(d) => " · "@ + ui::painted(k, k.theme.warm, "◐ "@ + d.id@),
        None => ""@,
    }
}

pub open spec fn task_rows(k: Skin, tasks: Seq<TaskLine>, lead: Seq<char>, width: nat) -> Seq<
    Seq<char>,
> {
    Seq::new(tasks.len(), |i: int| lead + task_row(k, tasks[i], width))
}

pub open spec fn list_rows(k: Skin, s: Seen, name: Seq<char>) -> Seq<Seq<char>> {
    let a = s.activity;
    let shown = a.tasks@.len() % 0x1_0000_0000;
    let width = ui::room_for(k.width as nat, 10, 20);
    if a.tasks_total == 0 {
        seq![
            ""@,
            "  "@ + ui::sealed_name(k, name) + "  "@ + ui::dimmed(
                k,
                "local tasks · none — it hasn't written any down this session"@,
            ) + "  "@ + heard(k, s.age_ms),
        ]
    } else {
        let top = seq![
            ""@,
            "  "@ + ui::sealed_name(k, name) + "  "@ + ui::dimmed(
                k,
                "local tasks · "@ + text::dec(a.tasks_finished as nat) + "/"@ + text::dec(
                    a.tasks_total as nat,
                ) + " finished"@,
            ) + underway_text(k, a.tasks@) + "  "@ + heard(k, s.age_ms),
        ];
        let gap = if shown < a.tasks_total {
            seq![
                "      "@ + ui::fainted(
                    k,
                    "… "@ + text::dec((a.tasks_total - shown) as nat)
                        + " older finished ones not carried"@,
                ),
            ]
        } else {
            seq![]
        };
        top + gap + task_rows(k, a.tasks@, "      "@, width)
    }
}

pub open spec fn tasks_view(
    k: Skin,
    seen: Seq<Seen>,
    roster: Seq<(Seq<char>, Seq<u8>)>,
    asked: Seq<char>,
) -> Seq<char> {
    let name = text::without_leading(asked, '@');
    match record_of(seen, roster, name) {
        None => "  "@ + ui::dimmed(
            k,
            "no activity from "@ + name
                + " — not running an agent loop on a build that reports it, or out of this node's earshot"@,
        ),
        Some(s) => text::joined(list_rows(k, s, name), "\n"@),
    }
}

fn add_tasks(k: &Skin, tasks: &Vec<TaskLine>, lead: &str, width: usize, out: &mut Vec<String>)
    ensures
        text::texts(final(out)@) == text::texts(old(out)@) + task_rows(
            *k,
            tasks@,
            lead@,
            width as nat,
        ),
{
    let ghost start = text::texts(out@);
    let ghost want = task_rows(*k, tasks@, lead@, width as nat);
    let mut i: usize = 0;
    assert(start + want.take(0) =~= start);
    while i < tasks.len()
        invariant
            i <= tasks.len(),
            want == task_rows(*k, tasks@, lead@, width as nat),
            text::texts(out@) == start + want.take(i as int),
        decreases tasks.len() - i,
    {
        let one = lead.to_owned().concat(task_line(k, &tasks[i], width).as_str());
        assert(want.take(i + 1) =~= want.take(i as int).push(one@));
        text::put(out, one.as_str());
        i = i + 1;
    }
    assert(want.take(i as int) =~= want);
}

fn list_of(k: &Skin, s: &Seen, name: &str) -> (out: Vec<String>)
    ensures
        text::texts(out@) == list_rows(*k, *s, name@),
{
    let a = &s.activity;
    let fresh = heard_text(k, s.age_ms);
    let lead = String::from_str("  ").concat(ui::sealed(k, name).as_str()).concat("  ");
    let mut out = text::none();
    text::put(&mut out, "");
    if a.tasks_total == 0 {
        let words = ui::dim(k, "local tasks · none — it hasn't written any down this session");
        let row = lead.concat(words.as_str()).concat("  ").concat(fresh.as_str());
        text::put(&mut out, row.as_str());
        assert(text::texts(out@) =~= list_rows(*k, *s, name@));
        return out;
    }
    let words = String::from_str("local tasks · ").concat(
        text::number(a.tasks_finished as u64).as_str(),
    ).concat("/").concat(text::number(a.tasks_total as u64).as_str()).concat(" finished");
    let row = lead.concat(ui::dim(k, words.as_str()).as_str()).concat(
        underway_mark(k, &a.tasks).as_str(),
    ).concat("  ").concat(fresh.as_str());
    text::put(&mut out, row.as_str());
    let ghost top = text::texts(out@);
    let width: usize = ui::left_or(k.width, 10, 20);
    let shown: u64 = a.tasks.len() as u64 % 0x1_0000_0000;
    if shown < a.tasks_total as u64 {
        let count = String::from_str("… ").concat(
            text::number(a.tasks_total as u64 - shown).as_str(),
        ).concat(" older finished ones not carried");
        let gap = String::from_str("      ").concat(ui::faint(k, count.as_str()).as_str());
        text::put(&mut out, gap.as_str());
    }
    add_tasks(k, &a.tasks, "      ", width, &mut out);
    assert(text::texts(out@) =~= list_rows(*k, *s, name@));
    out
}

/// One cat's local task list.
pub fn local_tasks_text(k: &Skin, seen: &Vec<Seen>, roster: &Roster, name: &str) -> (r: String)
    ensures
        r@ == tasks_view(*k, seen@, roster@, name@),
{
    let bare = text::trim_leading(name, '@');
    let mut i: usize = 0;
    assert(seen@.skip(0) =~= seen@);
    while i < seen.len()
        invariant
            i <= seen.len(),
            bare@ == text::without_leading(name@, '@'),
            record_of(seen@, roster@, bare@) == record_of(seen@.skip(i as int), roster@, bare@),
        decreases seen.len() - i,
    {
        assert(seen@.skip(i as int)[0] == seen@[i as int]);
        assert(seen@.skip(i as int).skip(1) =~= seen@.skip(i + 1));
        if text::same(seen_name(&seen[i], roster).as_str(), bare.as_str()) {
            return text::join(&list_of(k, &seen[i], bare.as_str()), "\n");
        }
        i = i + 1;
    }
    let words = String::from_str("no activity from ").concat(bare.as_str()).concat(
        " — not running an agent loop on a build that reports it, or out of this node's earshot",
    );
    String::from_str("  ").concat(ui::dim(k, words.as_str()).as_str())
}

// ---------------------------------------------------------------------
// The snapshot
// ---------------------------------------------------------------------

/// A row's label, in its column.
pub open spec fn label(k: Skin, l: Seq<char>) -> Seq<char> {
    ui::dimmed(k, ui::spaces(ui::room(9, l.len())) + l)
}

fn label_text(k: &Skin, l: &str) -> (r: String)
    ensures
        r@ == label(*k, l@),
{
    let n: usize = l.unicode_len();
    ui::dim(k, ui::space(ui::left(9, n as u128) as u128).concat(l).as_str())
}

pub open spec fn phase_text(k: Skin, a: Activity, age: u64) -> Seq<char> {
    let secs = figures::human_text(seconds(a.at, a.since, age));
    if a.phase@ == "thinking"@ || a.phase@ == "compacting"@ {
        ui::painted(k, k.theme.warm, "◌ "@ + a.phase@ + " "@ + secs)
    } else if a.phase@ == "waiting"@ {
        ui::painted(k, k.theme.accent, "⚙ waiting on tools "@ + secs)
    } else {
        ui::dimmed(k, "· idle "@ + secs)
    }
}

fn phase_of(k: &Skin, a: &Activity, age: u64) -> (r: String)
    ensures
        r@ == phase_text(*k, *a, age),
{
    let secs = figures::human(seconds_of(a.at, a.since, age));
    let phase = a.phase.as_str();
    if text::same(phase, "thinking") || text::same(phase, "compacting") {
        let s = String::from_str("◌ ").concat(phase).concat(" ").concat(secs.as_str());
        ui::paint(k, k.theme.warm, s.as_str())
    } else if text::same(phase, "waiting") {
        let s = String::from_str("⚙ waiting on tools ").concat(secs.as_str());
        ui::paint(k, k.theme.accent, s.as_str())
    } else {
        let s = String::from_str("· idle ").concat(secs.as_str());
        ui::dim(k, s.as_str())
    }
}

/// One call in flight.
pub open spec fn flight_row(k: Skin, a: Activity, age: u64, i: int, inner: nat) -> Seq<char> {
    let f = a.running@[i];
    let head = if i == 0 {
        label(k, "running "@ + text::dec(a.running@.len()))
    } else {
        ui::spaces(9)
    };
    "  "@ + head + " "@ + ui::painted(k, k.theme.warm, "◌"@) + " "@ + ui::bolded(
        k,
        k.theme.paper,
        f.tool@,
    ) + "  "@ + ui::dimmed(k, turns::clip_view(f.arg@, ui::room(inner, 20))) + "  "@
        + ui::dimmed(k, figures::human_text(seconds(a.at, f.since, age)))
}

pub open spec fn flight_rows(k: Skin, a: Activity, age: u64, inner: nat) -> Seq<Seq<char>> {
    if a.running@.len() == 0 {
        seq!["  "@ + label(k, "running"@) + " "@ + ui::dimmed(k, "nothing"@)]
    } else {
        Seq::new(a.running@.len(), |i: int| flight_row(k, a, age, i, inner))
    }
}

fn add_flights(k: &Skin, a: &Activity, age: u64, inner: usize, out: &mut Vec<String>)
    ensures
        text::texts(final(out)@) == text::texts(old(out)@) + flight_rows(
            *k,
            *a,
            age,
            inner as nat,
        ),
{
    let ghost start = text::texts(out@);
    let ghost want = flight_rows(*k, *a, age, inner as nat);
    if a.running.len() == 0 {
        let row = String::from_str("  ").concat(label_text(k, "running").as_str()).concat(
            " ",
        ).concat(ui::dim(k, "nothing").as_str());
        text::put(out, row.as_str());
        assert(text::texts(out@) =~= start + want);
        return;
    }
    let mut i: usize = 0;
    assert(start + want.take(0) =~= start);
    while i < a.running.len()
        invariant
            i <= a.running.len(),
            a.running.len() > 0,
            want == flight_rows(*k, *a, age, inner as nat),
            text::texts(out@) == start + want.take(i as int),
        decreases a.running.len() - i,
    {
        let f = &a.running[i];
        let head = if i == 0 {
            let words = String::from_str("running ").concat(
                text::number(a.running.len() as u64).as_str(),
            );
            label_text(k, words.as_str())
        } else {
            ui::space(9)
        };
        let arg = turns::clip(f.arg.as_str(), ui::left(inner, 20));
        let secs = figures::human(seconds_of(a.at, f.since, age));
        let one = String::from_str("  ").concat(head.as_str()).concat(" ").concat(
            ui::paint(k, k.theme.warm, "◌").as_str(),
        ).concat(" ").concat(ui::bold(k, k.theme.paper, f.tool.as_str()).as_str()).concat(
            "  ",
        ).concat(ui::dim(k, arg.as_str()).as_str()).concat("  ").concat(
            ui::dim(k, secs.as_str()).as_str(),
        );
        assert(want.take(i + 1) =~= want.take(i as int).push(one@));
        text::put(out, one.as_str());
        i = i + 1;
    }
    assert(want.take(i as int) =~= want);
}

/// How the finished calls went.
pub open spec fn done_text(k: Skin, a: Activity) -> Seq<char> {
    let counts = ui::painted(k, k.theme.progress, "✓ "@ + text::dec(a.ok as nat)) + " "@
        + ui::painted(
        k,
        if a.failed > 0 {
            k.theme.alarm
        } else {
            k.theme.ink
        },
        "✗ "@ + text::dec(a.failed as nat),
    );
    let held = if a.held > 0 {
        "  "@ + ui::painted(
            k,
            k.theme.warm,
            text::dec(a.held as nat) + " result(s) held until someone writes"@,
        )
    } else {
        ""@
    };
    let chain = if a.followups > 0 {
        "  "@ + ui::dimmed(k, text::dec(a.followups as nat) + " follow-up turn(s) in a row"@)
    } else {
        ""@
    };
    "  "@ + label(k, "done"@) + " "@ + (counts + held + chain)
}

fn done_of(k: &Skin, a: &Activity) -> (r: String)
    ensures
        r@ == done_text(*k, *a),
{
    let c = if a.failed > 0 {
        k.theme.alarm
    } else {
        k.theme.ink
    };
    let good = String::from_str("✓ ").concat(text::number(a.ok as u64).as_str());
    let bad = String::from_str("✗ ").concat(text::number(a.failed as u64).as_str());
    let counts = ui::paint(k, k.theme.progress, good.as_str()).concat(" ").concat(
        ui::paint(k, c, bad.as_str()).as_str(),
    );
    let held = if a.held > 0 {
        let words = text::number(a.held as u64).concat(" result(s) held until someone writes");
        String::from_str("  ").concat(ui::warn(k, words.as_str()).as_str())
    } else {
        "".to_owned()
    };
    let chain = if a.followups > 0 {
        let words = text::number(a.followups as u64).concat(" follow-up turn(s) in a row");
        String::from_str("  ").concat(ui::dim(k, words.as_str()).as_str())
    } else {
        "".to_owned()
    };
    let all = counts.concat(held.as_str()).concat(chain.as_str());
    String::from_str("  ").concat(label_text(k, "done").as_str()).concat(" ").concat(all.as_str())
}

/// One finished call.
pub open spec fn finished_row(k: Skin, f: Finished, inner: nat) -> Seq<char> {
    let mark = if f.ok {
        ui::painted(k, k.theme.progress, "✓"@)
    } else {
        ui::painted(k, k.theme.alarm, "✗"@)
    };
    let meta = if f.meta@.len() == 0 {
        ""@
    } else {
        "  "@ + ui::dimmed(k, f.meta@)
    };
    "  "@ + ui::spaces(9) + " "@ + mark + " "@ + ui::plained(k, f.tool@) + "  "@ + ui::dimmed(
        k,
        turns::clip_view(f.arg@, ui::room(inner, 30)),
    ) + meta
}

/// The finished calls, newest first.
pub open spec fn finished_rows(k: Skin, v: Seq<Finished>, inner: nat) -> Seq<Seq<char>> {
    Seq::new(v.len(), |i: int| finished_row(k, v[v.len() - 1 - i], inner))
}

fn add_finished(k: &Skin, v: &Vec<Finished>, inner: usize, out: &mut Vec<String>)
    ensures
        text::texts(final(out)@) == text::texts(old(out)@) + finished_rows(*k, v@, inner as nat),
{
    let ghost start = text::texts(out@);
    let ghost want = finished_rows(*k, v@, inner as nat);
    let mut i: usize = 0;
    assert(start + want.take(0) =~= start);
    while i < v.len()
        invariant
            i <= v.len(),
            want == finished_rows(*k, v@, inner as nat),
            text::texts(out@) == start + want.take(i as int),
        decreases v.len() - i,
    {
        let f = &v[v.len() - 1 - i];
        let mark = if f.ok {
            ui::paint(k, k.theme.progress, "✓")
        } else {
            ui::paint(k, k.theme.alarm, "✗")
        };
        let meta = if f.meta.as_str().is_empty() {
            "".to_owned()
        } else {
            String::from_str("  ").concat(ui::dim(k, f.meta.as_str()).as_str())
        };
        let arg = turns::clip(f.arg.as_str(), ui::left(inner, 30));
        let one = String::from_str("  ").concat(ui::space(9).as_str()).concat(" ").concat(
            mark.as_str(),
        ).concat(" ").concat(ui::plain(k, f.tool.as_str()).as_str()).concat("  ").concat(
            ui::dim(k, arg.as_str()).as_str(),
        ).concat(meta.as_str());
        assert(want.take(i + 1) =~= want.take(i as int).push(one@));
        text::put(out, one.as_str());
        i = i + 1;
    }
    assert(want.take(i as int) =~= want);
}

/// The tasks still to do.
pub open spec fn open_rows(k: Skin, v: Seq<TaskLine>, inner: nat) -> Seq<Seq<char>>
    decreases v.len(),
{
    if v.len() == 0 {
        seq![]
    } else {
        let before = open_rows(k, v.drop_last(), inner);
        let t = v.last();
        if t.status@ == "todo"@ || t.status@ == "doing"@ {
            before.push("  "@ + ui::spaces(9) + " "@ + task_row(k, t, inner))
        } else {
            before
        }
    }
}

pub open spec fn own_task_rows(
    k: Skin,
    a: Activity,
    name: Seq<char>,
    inner: nat,
) -> Seq<Seq<char>> {
    if a.tasks_total > 0 {
        seq![
            "  "@ + label(k, "tasks"@) + " "@ + ui::dimmed(
                k,
                text::dec(a.tasks_finished as nat) + "/"@ + text::dec(a.tasks_total as nat)
                    + " finished — /tasks "@ + name + " for the list"@,
            ),
        ] + open_rows(k, a.tasks@, inner)
    } else {
        seq![]
    }
}

fn add_own_tasks(k: &Skin, a: &Activity, name: &str, inner: usize, out: &mut Vec<String>)
    ensures
        text::texts(final(out)@) == text::texts(old(out)@) + own_task_rows(
            *k,
            *a,
            name@,
            inner as nat,
        ),
{
    let ghost start = text::texts(out@);
    if a.tasks_total == 0 {
        assert(start + Seq::<Seq<char>>::empty() =~= start);
        return;
    }
    let words = text::number(a.tasks_finished as u64).concat("/").concat(
        text::number(a.tasks_total as u64).as_str(),
    ).concat(" finished — /tasks ").concat(name).concat(" for the list");
    let row = String::from_str("  ").concat(label_text(k, "tasks").as_str()).concat(" ").concat(
        ui::dim(k, words.as_str()).as_str(),
    );
    text::put(out, row.as_str());
    let ghost top = start.push(row@);
    let mut i: usize = 0;
    assert(a.tasks@.take(0) =~= Seq::<TaskLine>::empty());
    assert(top + open_rows(*k, a.tasks@.take(0), inner as nat) =~= top);
    while i < a.tasks.len()
        invariant
            i <= a.tasks.len(),
            text::texts(out@) == top + open_rows(*k, a.tasks@.take(i as int), inner as nat),
        decreases a.tasks.len() - i,
    {
        let t = &a.tasks[i];
        let ghost before = open_rows(*k, a.tasks@.take(i as int), inner as nat);
        assert(a.tasks@.take(i + 1).drop_last() =~= a.tasks@.take(i as int));
        if text::same(t.status.as_str(), "todo") || text::same(t.status.as_str(), "doing") {
            let one = String::from_str("  ").concat(ui::space(9).as_str()).concat(" ").concat(
                task_line(k, t, inner).as_str(),
            );
            assert((top + before).push(one@) =~= top + before.push(one@));
            text::put(out, one.as_str());
        }
        i = i + 1;
    }
    assert(a.tasks@.take(i as int) =~= a.tasks@);
    assert(top + open_rows(*k, a.tasks@, inner as nat) =~= start + own_task_rows(
        *k,
        *a,
        name@,
        inner as nat,
    ));
}

/// The tail of the last reasoning, four lines at most.
pub open spec fn thought_rows(k: Skin, thought: Seq<char>, inner: nat) -> Seq<Seq<char>> {
    let all = ui::wrapped_lines(
        thought,
        if inner > 20 {
            inner
        } else {
            20
        },
    );
    let lines = if all.len() > 4 {
        all.take(4)
    } else {
        all
    };
    if thought.len() == 0 {
        seq![]
    } else {
        Seq::new(
            lines.len(),
            |i: int|
                "  "@ + (if i == 0 {
                    label(k, "thought"@)
                } else {
                    ui::spaces(9)
                }) + " "@ + ui::dimmed(k, lines[i]),
        )
    }
}

fn add_thought(k: &Skin, thought: &str, inner: usize, out: &mut Vec<String>)
    ensures
        text::texts(final(out)@) == text::texts(old(out)@) + thought_rows(
            *k,
            thought@,
            inner as nat,
        ),
{
    let ghost start = text::texts(out@);
    let ghost want = thought_rows(*k, thought@, inner as nat);
    if thought.is_empty() {
        assert(start + want =~= start);
        return;
    }
    let width: usize = if inner > 20 {
        inner
    } else {
        20
    };
    let lines = ui::wrap(thought, width);
    assert(lines@.len() == text::texts(lines@).len());
    let n: usize = if lines.len() > 4 {
        4
    } else {
        lines.len()
    };
    assert(want.len() == n);
    let mut i: usize = 0;
    assert(start + want.take(0) =~= start);
    while i < n
        invariant
            i <= n <= lines.len(),
            want.len() == n,
            thought@.len() > 0,
            width == (if inner > 20 {
                inner
            } else {
                20
            }),
            text::texts(lines@) == ui::wrapped_lines(thought@, width as nat),
            want == thought_rows(*k, thought@, inner as nat),
            text::texts(out@) == start + want.take(i as int),
        decreases n - i,
    {
        let head = if i == 0 {
            label_text(k, "thought")
        } else {
            ui::space(9)
        };
        let one = String::from_str("  ").concat(head.as_str()).concat(" ").concat(
            ui::dim(k, lines[i].as_str()).as_str(),
        );
        assert(text::texts(lines@)[i as int] == lines@[i as int]@);
        assert(want[i as int] == one@);
        assert(want.take(i + 1) =~= want.take(i as int).push(one@));
        text::put(out, one.as_str());
        i = i + 1;
    }
    assert(want.take(i as int) =~= want);
}

/// How much of the window the last turn took.
pub open spec fn context_rows(k: Skin, a: Activity) -> Seq<Seq<char>> {
    let used = figures::grouped(text::dec(a.tokens as nat));
    let ctx = match a.window {
        Some(w) => if w > 0 {
            used + " of "@ + figures::kilo_text(w as nat) + " tok"@
        } else {
            used + " tok"@
        },
        None => used + " tok"@,
    };
    if a.tokens > 0 {
        seq!["  "@ + label(k, "context"@) + " "@ + ui::dimmed(k, ctx)]
    } else {
        seq![]
    }
}

fn add_context(k: &Skin, a: &Activity, out: &mut Vec<String>)
    ensures
        text::texts(final(out)@) == text::texts(old(out)@) + context_rows(*k, *a),
{
    let ghost start = text::texts(out@);
    if a.tokens > 0 {
        let used = figures::thousands(a.tokens as u64);
        let ctx = match a.window {
            Some(w) => if w > 0 {
                used.concat(" of ").concat(figures::kilo(w).as_str()).concat(" tok")
            } else {
                used.concat(" tok")
            },
            None => used.concat(" tok"),
        };
        let row = String::from_str("  ").concat(label_text(k, "context").as_str()).concat(
            " ",
        ).concat(ui::dim(k, ctx.as_str()).as_str());
        text::put(out, row.as_str());
        assert(start.push(row@) =~= start + context_rows(*k, *a));
    } else {
        assert(start + context_rows(*k, *a) =~= start);
    }
}

/// What a cat's turn is about.
pub open spec fn why_rows(k: Skin, why: Seq<char>, inner: nat) -> Seq<Seq<char>> {
    if why.len() == 0 {
        seq![]
    } else {
        seq!["  "@ + label(k, "on"@) + " "@ + ui::plained(k, turns::clip_view(why, inner))]
    }
}

/// Everything about one cat.
pub open spec fn cat_rows(
    k: Skin,
    s: Seen,
    roster: Seq<(Seq<char>, Seq<u8>)>,
) -> Seq<Seq<char>> {
    let a = s.activity;
    let name = known_as(s, roster);
    let inner = ui::room_for(k.width as nat, 12, 20);
    seq![
        ""@,
        "  "@ + ui::sealed_name(k, name) + "  "@ + phase_text(k, a, s.age_ms) + "  "@
            + ui::dimmed(k, "turn "@ + text::dec(a.turns as nat) + " · "@ + a.model@) + "  "@
            + heard(k, s.age_ms),
    ] + why_rows(k, a.why@, inner) + flight_rows(k, a, s.age_ms, inner) + seq![done_text(k, a)]
        + finished_rows(k, a.recent@, inner) + own_task_rows(k, a, name, inner) + thought_rows(
        k,
        a.thought@,
        inner,
    ) + context_rows(k, a)
}

fn cat_block(k: &Skin, s: &Seen, roster: &Roster) -> (out: Vec<String>)
    ensures
        text::texts(out@) == cat_rows(*k, *s, roster@),
{
    let a = &s.activity;
    let name = seen_name(s, roster);
    let inner: usize = ui::left_or(k.width, 12, 20);
    let mut out = text::none();
    text::put(&mut out, "");
    let turn = String::from_str("turn ").concat(text::number(a.turns as u64).as_str()).concat(
        " · ",
    ).concat(a.model.as_str());
    let head = String::from_str("  ").concat(ui::sealed(k, name.as_str()).as_str()).concat(
        "  ",
    ).concat(phase_of(k, a, s.age_ms).as_str()).concat("  ").concat(
        ui::dim(k, turn.as_str()).as_str(),
    ).concat("  ").concat(heard_text(k, s.age_ms).as_str());
    text::put(&mut out, head.as_str());
    let ghost s1 = seq![""@, head@];
    assert(text::texts(out@) =~= s1);
    if !a.why.as_str().is_empty() {
        let why = turns::clip(a.why.as_str(), inner);
        let row = String::from_str("  ").concat(label_text(k, "on").as_str()).concat(" ").concat(
            ui::plain(k, why.as_str()).as_str(),
        );
        text::put(&mut out, row.as_str());
        assert(s1.push(row@) =~= s1 + why_rows(*k, a.why@, inner as nat));
    } else {
        assert(s1 =~= s1 + why_rows(*k, a.why@, inner as nat));
    }
    add_flights(k, a, s.age_ms, inner, &mut out);
    let ghost s2 = text::texts(out@);
    let done = done_of(k, a);
    text::put(&mut out, done.as_str());
    assert(s2.push(done@) =~= s2 + seq![done@]);
    add_finished(k, &a.recent, inner, &mut out);
    add_own_tasks(k, a, name.as_str(), inner, &mut out);
    add_thought(k, a.thought.as_str(), inner, &mut out);
    add_context(k, a, &mut out);
    out
}

/// The records that were asked for: all, or those of one cat.
pub open spec fn picked(
    seen: Seq<Seen>,
    roster: Seq<(Seq<char>, Seq<u8>)>,
    only: Option<Seq<char>>,
) -> Seq<Seen>
    decreases seen.len(),
{
    if seen.len() == 0 {
        seq![]
    } else {
        let before = picked(seen.drop_last(), roster, only);
        let wanted = match only {
            None => true,
            Some(n) => known_as(seen.last(), roster) == text::without_leading(n, '@'),
        };
        if wanted {
            before.push(seen.last())
        } else {
            before
        }
    }
}

pub open spec fn all_rows(
    k: Skin,
    v: Seq<Seen>,
    roster: Seq<(Seq<char>, Seq<u8>)>,
) -> Seq<Seq<char>>
    decreases v.len(),
{
    if v.len() == 0 {
        seq![]
    } else {
        all_rows(k, v.drop_last(), roster) + cat_rows(k, v.last(), roster)
    }
}

pub open spec fn snapshot(
    k: Skin,
    seen: Seq<Seen>,
    roster: Seq<(Seq<char>, Seq<u8>)>,
    only: Option<Seq<char>>,
) -> Seq<char> {
    let pick = picked(seen, roster, only);
    if pick.len() == 0 {
        "  "@ + ui::dimmed(
            k,
            match only {
                Some(n) => "no activity from "@ + n
                    + " — not running an agent loop, or out of this node's earshot"@,
                None =>
                    "no cat is reporting activity to this node (an older build, or no agent loops running)"@,
            },
        )
    } else {
        text::joined(all_rows(k, pick, roster), "\n"@)
    }
}

pub open spec fn only_view(o: Option<&str>) -> Option<Seq<char>> {
    match o {
        Some(s) => Some(s@),
        None => None,
    }
}

/// The full snapshot, one block per cat: where it is in the loop and for how
/// long, what woke it, every call in flight, how the finished ones went, its
/// open local tasks, the tail of its last reasoning.
pub fn activity_text(k: &Skin, seen: &Vec<Seen>, roster: &Roster, only: Option<&str>) -> (r: String)
    ensures
        r@ == snapshot(*k, seen@, roster@, only_view(only)),
{
    let ghost wanted = only_view(only);
    let mut out = text::none();
    let mut any = false;
    let mut i: usize = 0;
    assert(seen@.take(0) =~= Seq::<Seen>::empty());
    assert(text::texts(out@) =~= Seq::<Seq<char>>::empty());
    while i < seen.len()
        invariant
            i <= seen.len(),
            wanted == only_view(only),
            any == (picked(seen@.take(i as int), roster@, wanted).len() > 0),
            text::texts(out@) == all_rows(
                *k,
                picked(seen@.take(i as int), roster@, wanted),
                roster@,
            ),
        decreases seen.len() - i,
    {
        let ghost before = picked(seen@.take(i as int), roster@, wanted);
        assert(seen@.take(i + 1).drop_last() =~= seen@.take(i as int));
        let take = match only {
            None => true,
            Some(n) => text::same(
                seen_name(&seen[i], roster).as_str(),
                text::trim_leading(n, '@').as_str(),
            ),
        };
        if take {
            let ghost was = text::texts(out@);
            let mut block = cat_block(k, &seen[i], roster);
            let ghost more = text::texts(block@);
            out.append(&mut block);
            assert(text::texts(out@) =~= was + more);
            any = true;
            assert(before.push(seen@[i as int]).drop_last() =~= before);
        }
        i = i + 1;
    }
    assert(seen@.take(i as int) =~= seen@);
    if !any {
        let words = match only {
            Some(n) => String::from_str("no activity from ").concat(n).concat(
                " — not running an agent loop, or out of this node's earshot",
            ),
            None => "no cat is reporting activity to this node (an older build, or no agent loops running)".to_owned(),
        };
        return String::from_str("  ").concat(ui::dim(k, words.as_str()).as_str());
    }
    text::join(&out, "\n")
}

// ---------------------------------------------------------------------
// What the board shows
// ---------------------------------------------------------------------

/// A cat is known by the name of the account that signed its record, and by what
/// it calls itself where that is no account.
pub proof fn a_cat_is_known_by_its_signer(s: Seen, roster: Seq<(Seq<char>, Seq<u8>)>, a: Seq<u8>)
    ensures
        a.len() == 32 && s.account@ == keys::hexed(a) ==> known_as(s, roster) == common::name_for(
            roster,
            a,
        ),
        keys::account_in(s.account@) is None ==> known_as(s, roster) == s.activity.name@,
{
    keys::hex_reads_back(a);
}

/// A time is shown as it is by now: what it was when it was told, and the age of
/// that.
pub proof fn a_time_grows_with_its_age(at: u64, since: u64, age: u64)
    ensures
        at >= since ==> 1000 * seconds(at, since, age) <= at - since + age < 1000 * seconds(
            at,
            since,
            age,
        ) + 1000,
        at < since ==> 1000 * seconds(at, since, age) <= age < 1000 * seconds(at, since, age) + 1000,
{
}

/// Of the calls that are out the one that began first is shown.
pub proof fn the_oldest_call_is_shown(v: Seq<Flight>)
    requires
        v.len() > 0,
    ensures
        0 <= oldest(v) < v.len(),
        forall|i: int| 0 <= i < v.len() ==> v[oldest(v)].since <= (#[trigger] v[i]).since,
        forall|i: int| 0 <= i < oldest(v) ==> v[oldest(v)].since < (#[trigger] v[i]).since,
    decreases v.len(),
{
    if v.len() > 1 {
        let front = v.drop_last();
        the_oldest_call_is_shown(front);
        let o = oldest(front);
        assert(front[o] == v[o]);
        assert forall|i: int| 0 <= i < v.len() implies v[oldest(v)].since <= (#[trigger] v[i]).since by {
            if i < front.len() {
                assert(front[i] == v[i]);
            }
        }
        assert forall|i: int| 0 <= i < oldest(v) implies v[oldest(v)].since < (#[trigger] v[i]).since by {
            assert(front[i] == v[i]);
        }
    }
}

/// The record of a cat is found by the name it is known by: the first.
pub proof fn a_record_is_found_by_name(
    seen: Seq<Seen>,
    roster: Seq<(Seq<char>, Seq<u8>)>,
    name: Seq<char>,
)
    ensures
        match record_of(seen, roster, name) {
            Some(s) => exists|i: int|
                0 <= i < seen.len() && #[trigger] seen[i] == s && known_as(s, roster) == name
                    && forall|k: int| 0 <= k < i ==> known_as(#[trigger] seen[k], roster) != name,
            None => forall|k: int|
                0 <= k < seen.len() ==> known_as(#[trigger] seen[k], roster) != name,
        },
    decreases seen.len(),
{
    if seen.len() > 0 {
        let rest = seen.skip(1);
        a_record_is_found_by_name(rest, roster, name);
        if known_as(seen[0], roster) == name {
            assert(seen[0] == seen[0]);
        } else {
            match record_of(rest, roster, name) {
                Some(s) => {
                    let i = choose|i: int|
                        0 <= i < rest.len() && #[trigger] rest[i] == s && known_as(s, roster)
                            == name && forall|k: int|
                            0 <= k < i ==> known_as(#[trigger] rest[k], roster) != name;
                    assert(seen[i + 1] == s);
                    assert forall|k: int| 0 <= k < i + 1 implies known_as(
                        #[trigger] seen[k],
                        roster,
                    ) != name by {
                        if k > 0 {
                            assert(rest[k - 1] == seen[k]);
                        }
                    }
                },
                None => {
                    assert forall|k: int| 0 <= k < seen.len() implies known_as(
                        #[trigger] seen[k],
                        roster,
                    ) != name by {
                        if k > 0 {
                            assert(rest[k - 1] == seen[k]);
                        }
                    }
                },
            }
        }
    }
}

/// The task under way is the first that is being done, and there is none where
/// none is.
pub proof fn the_task_under_way_is_shown(tasks: Seq<TaskLine>)
    ensures
        match underway(tasks) {
            Some(t) => tasks.contains(t) && t.status@ == "doing"@,
            None => forall|i: int| 0 <= i < tasks.len() ==> (#[trigger] tasks[i]).status@ != "doing"@,
        },
    decreases tasks.len(),
{
    if tasks.len() > 0 {
        let rest = tasks.skip(1);
        the_task_under_way_is_shown(rest);
        if tasks[0].status@ == "doing"@ {
            assert(tasks.contains(tasks[0]));
        } else {
            match underway(rest) {
                Some(t) => {
                    let i = choose|i: int| 0 <= i < rest.len() && rest[i] == t;
                    assert(tasks[i + 1] == t);
                },
                None => {
                    assert forall|i: int| 0 <= i < tasks.len() implies (#[trigger] tasks[i]).status@
                        != "doing"@ by {
                        if i > 0 {
                            assert(rest[i - 1] == tasks[i]);
                        }
                    }
                },
            }
        }
    }
}

/// A task is marked by its status.
pub proof fn a_task_is_marked_by_its_status(k: Skin)
    ensures
        text::has(task_mark(k, "todo"@), "○"@),
        text::has(task_mark(k, "doing"@), "◐"@),
        text::has(task_mark(k, "done"@), "✓"@),
        text::has(task_mark(k, "failed"@), "✗"@),
        text::has(task_mark(k, "dropped"@), "–"@),
{
    reveal_strlit("todo");
    reveal_strlit("doing");
    reveal_strlit("done");
    reveal_strlit("failed");
    reveal_strlit("dropped");
    assert("todo"@.len() == 4);
    assert("doing"@.len() == 5);
    assert("done"@.len() == 4);
    assert("failed"@.len() == 6);
    assert("dropped"@.len() == 7);
    assert("done"@[0] == 'd');
    assert("todo"@[0] == 't');
    ui::what_is_painted_is_shown(k, k.theme.ink, "○"@);
    ui::what_is_painted_is_shown(k, k.theme.warm, "◐"@);
    ui::what_is_painted_is_shown(k, k.theme.progress, "✓"@);
    ui::what_is_painted_is_shown(k, k.theme.alarm, "✗"@);
    ui::what_is_painted_is_shown(k, k.theme.ink, "–"@);
}

/// A cat that is thinking is shown so with how long it has been; one that waits
/// for its calls with how many are out and the oldest of them.
pub proof fn what_a_cat_does_is_shown(k: Skin, a: Activity, age: u64)
    ensures
        a.phase@ == "thinking"@ || a.phase@ == "compacting"@ ==> text::has(
            doing(k, a, age),
            figures::human_text(seconds(a.at, a.since, age)),
        ),
        a.phase@ != "thinking"@ && a.phase@ != "compacting"@ && a.running@.len() > 0 ==> text::has(
            doing(k, a, age),
            a.running@[oldest(a.running@)].tool@,
        ) && text::has(doing(k, a, age), text::dec(a.running@.len())) && text::has(
            doing(k, a, age),
            figures::human_text(seconds(a.at, a.running@[oldest(a.running@)].since, age)),
        ),
        a.phase@ != "thinking"@ && a.phase@ != "compacting"@ && a.running@.len() == 0 ==> doing(
            k,
            a,
            age,
        ) == ui::dimmed(k, "·"@),
{
    reveal_strlit("thinking");
    reveal_strlit("compacting");
    assert("thinking"@.len() == 8 && "compacting"@.len() == 10);
    let secs = figures::human_text(seconds(a.at, a.since, age));
    text::lemma_has_self(secs);
    text::lemma_has_right("◌ "@, secs, secs);
    text::lemma_has_right("◌ compacting "@, secs, secs);
    ui::what_is_painted_is_shown(k, k.theme.warm, "◌ "@ + secs);
    ui::what_is_painted_is_shown(k, k.theme.warm, "◌ compacting "@ + secs);
    if a.phase@ == "thinking"@ {
        text::lemma_has_through(doing(k, a, age), "◌ "@ + secs, secs);
    } else if a.phase@ == "compacting"@ {
        text::lemma_has_through(doing(k, a, age), "◌ compacting "@ + secs, secs);
    } else if a.running@.len() > 0 {
        let f = a.running@[oldest(a.running@)];
        let p = "⚙"@;
        let q = text::dec(a.running@.len());
        let r = " "@;
        let s = f.tool@;
        let t = " "@;
        let u = figures::human_text(seconds(a.at, f.since, age));
        let w = p + q + r + s + t + u;
        ui::what_is_painted_is_shown(k, k.theme.accent, w);
        text::lemma_has_self(q);
        text::lemma_has_right(p, q, q);
        text::lemma_has_left(p + q, r, q);
        text::lemma_has_left(p + q + r, s, q);
        text::lemma_has_left(p + q + r + s, t, q);
        text::lemma_has_left(p + q + r + s + t, u, q);
        text::lemma_has_self(s);
        text::lemma_has_right(p + q + r, s, s);
        text::lemma_has_left(p + q + r + s, t, s);
        text::lemma_has_left(p + q + r + s + t, u, s);
        text::lemma_has_self(u);
        text::lemma_has_right(p + q + r + s + t, u, u);
        text::lemma_has_through(doing(k, a, age), w, q);
        text::lemma_has_through(doing(k, a, age), w, s);
        text::lemma_has_through(doing(k, a, age), w, u);
    }
}

/// A record that is a quarter of a minute old or more is shown to be old, and how
/// old it is.
pub proof fn an_old_record_is_shown_to_be_old(k: Skin, age: u64)
    ensures
        age > 15000 ==> text::has(heard(k, age), "may be out of date"@) && text::has(
            heard(k, age),
            figures::human_text((age / 1000) as nat),
        ),
        age <= 15000 ==> text::has(heard(k, age), figures::milli_text(age as nat)),
{
    let a = "last heard "@;
    let b = figures::human_text((age / 1000) as nat);
    let c = " ago — may be out of date"@;
    let d = "may be out of date"@;
    reveal_strlit(" ago — may be out of date");
    reveal_strlit("may be out of date");
    assert(c.subrange(7, 25) =~= d);
    assert(text::occurs_at(c, d, 7));
    text::lemma_has_self(b);
    text::lemma_has_right(a, b, b);
    text::lemma_has_left(a + b, c, b);
    text::lemma_has_right(a + b, c, d);
    ui::what_is_painted_is_shown(k, k.theme.warm, a + b + c);
    let m = figures::milli_text(age as nat);
    text::lemma_has_self(m);
    text::lemma_has_right("heard "@, m, m);
    text::lemma_has_left("heard "@ + m, " ago"@, m);
    ui::what_is_painted_is_shown(k, k.theme.smoke, "heard "@ + m + " ago"@);
    if age > 15000 {
        text::lemma_has_through(heard(k, age), a + b + c, b);
        text::lemma_has_through(heard(k, age), a + b + c, d);
    } else {
        text::lemma_has_through(heard(k, age), "heard "@ + m + " ago"@, m);
    }
}

/// Every call that is out has its row, and so has every one that finished, the
/// newest first.
pub proof fn every_call_has_its_row(
    k: Skin,
    a: Activity,
    age: u64,
    v: Seq<Finished>,
    inner: nat,
    i: int,
)
    ensures
        a.running@.len() > 0 ==> flight_rows(k, a, age, inner).len() == a.running@.len(),
        0 <= i < a.running@.len() ==> flight_rows(k, a, age, inner)[i] == flight_row(
            k,
            a,
            age,
            i,
            inner,
        ),
        a.running@.len() == 0 ==> flight_rows(k, a, age, inner).len() == 1,
        finished_rows(k, v, inner).len() == v.len(),
        0 <= i < v.len() ==> finished_rows(k, v, inner)[v.len() - 1 - i] == finished_row(
            k,
            v[i],
            inner,
        ),
{
}

/// A finished call is shown with its tool and what it was given, as far as
/// it fits.
pub proof fn a_finished_call_is_shown(
    k: Skin,
    f: Finished,
    inner: nat,
)
    ensures
        text::has(finished_row(k, f, inner), (if f.ok {
        ui::painted(k, k.theme.progress, "✓"@)
    } else {
        ui::painted(k, k.theme.alarm, "✗"@)
    })),
        text::has(finished_row(k, f, inner), f.tool@),
        text::has(finished_row(k, f, inner), turns::clip_view(f.arg@, ui::room(inner, 30))),
        text::has(finished_row(k, f, inner), (if f.meta@.len() == 0 {
        ""@
    } else {
        "  "@ + ui::dimmed(k, f.meta@)
    })),
{
    let a = "  "@;
    let b = ui::spaces(9);
    let c = " "@;
    let d = (if f.ok {
        ui::painted(k, k.theme.progress, "✓"@)
    } else {
        ui::painted(k, k.theme.alarm, "✗"@)
    });
    let e = " "@;
    let g = ui::plained(k, f.tool@);
    let h = "  "@;
    let i = ui::dimmed(k, turns::clip_view(f.arg@, ui::room(inner, 30)));
    let j = (if f.meta@.len() == 0 {
        ""@
    } else {
        "  "@ + ui::dimmed(k, f.meta@)
    });
    let whole = a + b + c + d + e + g + h + i + j;
    assert(finished_row(k, f, inner) == whole);
    assert(text::has(whole, d)) by {
        text::lemma_has_self(d);
        text::lemma_has_right(a + b + c, d, d);
        text::lemma_has_left(a + b + c + d, e, d);
        text::lemma_has_left(a + b + c + d + e, g, d);
        text::lemma_has_left(a + b + c + d + e + g, h, d);
        text::lemma_has_left(a + b + c + d + e + g + h, i, d);
        text::lemma_has_left(a + b + c + d + e + g + h + i, j, d);
    }
    assert(text::has(whole, f.tool@)) by {
        text::lemma_has_self(g);
        text::lemma_has_right(a + b + c + d + e, g, g);
        text::lemma_has_left(a + b + c + d + e + g, h, g);
        text::lemma_has_left(a + b + c + d + e + g + h, i, g);
        text::lemma_has_left(a + b + c + d + e + g + h + i, j, g);
        ui::what_is_painted_is_shown(k, k.theme.ink, f.tool@);
        text::lemma_has_through(whole, g, f.tool@);
    }
    assert(text::has(whole, turns::clip_view(f.arg@, ui::room(inner, 30)))) by {
        text::lemma_has_self(i);
        text::lemma_has_right(a + b + c + d + e + g + h, i, i);
        text::lemma_has_left(a + b + c + d + e + g + h + i, j, i);
        ui::what_is_painted_is_shown(
            k,
            k.theme.ink,
            turns::clip_view(f.arg@, ui::room(inner, 30)),
        );
        text::lemma_has_through(whole, i, turns::clip_view(f.arg@, ui::room(inner, 30)));
    }
    assert(text::has(whole, j)) by {
        text::lemma_has_self(j);
        text::lemma_has_right(a + b + c + d + e + g + h + i, j, j);
    }
}

/// A call that is out is shown with its tool, what it was given and how
/// long it has run.
pub proof fn a_running_call_is_shown(
    k: Skin,
    a: Activity,
    age: u64,
    i: int,
    inner: nat,
)
    ensures
        text::has(flight_row(k, a, age, i, inner), a.running@[i].tool@),
        text::has(flight_row(k, a, age, i, inner), turns::clip_view(a.running@[i].arg@, ui::room(inner, 20))),
        text::has(flight_row(k, a, age, i, inner), figures::human_text(seconds(a.at, a.running@[i].since, age))),
{
    let p = "  "@;
    let q = (if i == 0 {
        label(k, "running "@ + text::dec(a.running@.len()))
    } else {
        ui::spaces(9)
    });
    let r = " "@;
    let s = ui::painted(k, k.theme.warm, "◌"@);
    let t = " "@;
    let u = ui::bolded(k, k.theme.paper, a.running@[i].tool@);
    let v = "  "@;
    let w = ui::dimmed(k, turns::clip_view(a.running@[i].arg@, ui::room(inner, 20)));
    let x = "  "@;
    let y = ui::dimmed(k, figures::human_text(seconds(a.at, a.running@[i].since, age)));
    let whole = p + q + r + s + t + u + v + w + x + y;
    assert(flight_row(k, a, age, i, inner) == whole);
    assert(text::has(whole, a.running@[i].tool@)) by {
        text::lemma_has_self(u);
        text::lemma_has_right(p + q + r + s + t, u, u);
        text::lemma_has_left(p + q + r + s + t + u, v, u);
        text::lemma_has_left(p + q + r + s + t + u + v, w, u);
        text::lemma_has_left(p + q + r + s + t + u + v + w, x, u);
        text::lemma_has_left(p + q + r + s + t + u + v + w + x, y, u);
        ui::what_is_painted_is_shown(k, k.theme.paper, a.running@[i].tool@);
        text::lemma_has_through(whole, u, a.running@[i].tool@);
    }
    assert(text::has(whole, turns::clip_view(a.running@[i].arg@, ui::room(inner, 20)))) by {
        text::lemma_has_self(w);
        text::lemma_has_right(p + q + r + s + t + u + v, w, w);
        text::lemma_has_left(p + q + r + s + t + u + v + w, x, w);
        text::lemma_has_left(p + q + r + s + t + u + v + w + x, y, w);
        ui::what_is_painted_is_shown(
            k,
            k.theme.ink,
            turns::clip_view(a.running@[i].arg@, ui::room(inner, 20)),
        );
        text::lemma_has_through(whole, w, turns::clip_view(a.running@[i].arg@, ui::room(inner, 20)));
    }
    assert(text::has(whole, figures::human_text(seconds(a.at, a.running@[i].since, age)))) by {
        text::lemma_has_self(y);
        text::lemma_has_right(p + q + r + s + t + u + v + w + x, y, y);
        ui::what_is_painted_is_shown(
            k,
            k.theme.ink,
            figures::human_text(seconds(a.at, a.running@[i].since, age)),
        );
        text::lemma_has_through(whole, y, figures::human_text(seconds(a.at, a.running@[i].since, age)));
    }
}

/// The tasks that are to be done or being done have their rows, in order, and no
/// others.
pub proof fn open_tasks_have_their_rows(k: Skin, v: Seq<TaskLine>, t: TaskLine, inner: nat)
    ensures
        open_rows(k, Seq::empty(), inner).len() == 0,
        t.status@ == "todo"@ || t.status@ == "doing"@ ==> open_rows(k, v.push(t), inner)
            == open_rows(k, v, inner).push("  "@ + ui::spaces(9) + " "@ + task_row(k, t, inner)),
        t.status@ != "todo"@ && t.status@ != "doing"@ ==> open_rows(k, v.push(t), inner)
            == open_rows(k, v, inner),
{
    assert(v.push(t).drop_last() =~= v);
}

/// Everyone is shown where nobody is asked for, and only whoever is asked for
/// otherwise, in order.
pub proof fn whoever_is_asked_for_is_shown(
    k: Skin,
    seen: Seq<Seen>,
    s: Seen,
    roster: Seq<(Seq<char>, Seq<u8>)>,
    only: Option<Seq<char>>,
)
    ensures
        picked(Seq::empty(), roster, only).len() == 0,
        only is None ==> picked(seen.push(s), roster, only) == picked(seen, roster, only).push(s),
        only matches Some(n) ==> (if known_as(s, roster) == text::without_leading(n, '@') {
            picked(seen.push(s), roster, only) == picked(seen, roster, only).push(s)
        } else {
            picked(seen.push(s), roster, only) == picked(seen, roster, only)
        }),
        all_rows(k, seen.push(s), roster) == all_rows(k, seen, roster) + cat_rows(k, s, roster),
        all_rows(k, Seq::empty(), roster).len() == 0,
        row_parts(k, seen, roster).len() == seen.len(),
{
    assert(seen.push(s).drop_last() =~= seen);
}

} // verus!
