//! A model's turns as the operator reads them: its tool calls as they leave and
//! land, what it thought, what it said and what it cost.

use crate::figures;
use crate::scroll;
use crate::text;
use crate::tool_out::{Outcome, ToolOut};
use crate::ui;
use crate::ui::{Rgb, Skin};
use vstd::prelude::*;
use vstd::string::*;

verus! {

/// Most lines of a tool's output shown inline; the rest is counted, not dropped
/// silently.
pub const TOOL_BODY_LINES: usize = 12;

/// Lines shown from the start of a long reasoning block: what it set out to do.
pub const MUSING_HEAD: usize = 4;

/// Most lines of a reasoning block shown; those after the head come from its
/// end.
pub const MUSING_LINES: usize = 16;

/// The longest start of `s` that leaves room for one cell more in `n`, `w`
/// cells being taken already.
pub open spec fn fitting(s: Seq<char>, w: nat, n: nat) -> Seq<char>
    decreases s.len(),
{
    if s.len() == 0 || w + ui::char_cells(s[0]) + 1 > n {
        seq![]
    } else {
        seq![s[0]] + fitting(s.skip(1), w + ui::char_cells(s[0]), n)
    }
}

pub open spec fn clip_view(s: Seq<char>, n: nat) -> Seq<char> {
    if ui::cell_count(s) <= n {
        s
    } else {
        fitting(s, 0, n) + "…"@
    }
}

/// Cut `s` to `n` display cells with a trailing `…` if it did not fit.
pub fn clip(s: &str, n: usize) -> (r: String)
    ensures
        r@ == clip_view(s@, n as nat),
{
    if ui::measure(s) <= n as u128 {
        return s.to_owned();
    }
    let v = text::chars_of(s);
    let mut out = String::new();
    let mut w: u128 = 0;
    let mut i: usize = 0;
    assert(v@.skip(0) =~= v@);
    assert(out@ + fitting(v@, 0, n as nat) =~= fitting(v@, 0, n as nat));
    while i < v.len()
        invariant_except_break
            i <= v.len(),
            w <= n,
            fitting(v@, 0, n as nat) == out@ + fitting(v@.skip(i as int), w as nat, n as nat),
        ensures
            out@ == fitting(v@, 0, n as nat),
        decreases v.len() - i,
    {
        let cw: u128 = ui::cells_of(v[i]);
        let ghost rest = v@.skip(i as int);
        assert(rest[0] == v@[i as int]);
        if w + cw + 1 > n as u128 {
            assert(out@ + Seq::<char>::empty() =~= out@);
            break;
        }
        assert(rest.skip(1) =~= v@.skip(i + 1));
        let ghost before = out@;
        out.push(v[i]);
        w = w + cw;
        assert(before + (seq![rest[0]] + fitting(rest.skip(1), w as nat, n as nat)) =~= out@
            + fitting(rest.skip(1), w as nat, n as nat));
        i = i + 1;
        proof {
            if i == v@.len() {
                assert(out@ + Seq::<char>::empty() =~= out@);
            }
        }
    }
    out.concat("…")
}

/// A clipped text takes no more than its cells, as long as there is room for
/// the mark.
pub proof fn clipped_texts_fit(s: Seq<char>, n: nat)
    requires
        n >= 1,
    ensures
        ui::cell_count(clip_view(s, n)) <= n,
{
    if ui::cell_count(s) > n {
        lemma_fitting(s, 0, n);
        reveal_strlit("…");
        lemma_cells_join(fitting(s, 0, n), "…"@);
        assert("…"@ =~= seq!['…']);
        reveal_with_fuel(ui::cell_count, 2);
        assert("…"@.drop_last() =~= Seq::<char>::empty());
    }
}

proof fn lemma_cells_join(a: Seq<char>, b: Seq<char>)
    ensures
        ui::cell_count(a + b) == ui::cell_count(a) + ui::cell_count(b),
    decreases b.len(),
{
    if b.len() == 0 {
        assert(a + b =~= a);
    } else {
        lemma_cells_join(a, b.drop_last());
        assert((a + b).drop_last() =~= a + b.drop_last());
    }
}

proof fn lemma_fitting(s: Seq<char>, w: nat, n: nat)
    requires
        w < n,
    ensures
        w + ui::cell_count(fitting(s, w, n)) < n,
    decreases s.len(),
{
    if s.len() == 0 || w + ui::char_cells(s[0]) + 1 > n {
    } else {
        let one = seq![s[0]];
        lemma_fitting(s.skip(1), w + ui::char_cells(s[0]), n);
        lemma_cells_join(one, fitting(s.skip(1), w + ui::char_cells(s[0]), n));
        reveal_with_fuel(ui::cell_count, 2);
        assert(one.drop_last() =~= Seq::<char>::empty());
    }
}

/// A line hung off a gutter, its tabs spread out, cut to `inner` cells.
pub open spec fn gutter_row(k: Skin, gutter: Seq<char>, l: Seq<char>, inner: nat) -> Seq<char> {
    "    "@ + gutter + " "@ + ui::dimmed(
        k,
        clip_view(text::replaced(l, "\t"@, "    "@, 0), inner),
    )
}

pub open spec fn gutter_rows(
    k: Skin,
    gutter: Seq<char>,
    lines: Seq<Seq<char>>,
    inner: nat,
) -> Seq<Seq<char>> {
    Seq::new(lines.len(), |i: int| gutter_row(k, gutter, lines[i], inner))
}

fn add_rows(
    k: &Skin,
    gutter: &str,
    lines: &Vec<String>,
    from: usize,
    to: usize,
    inner: usize,
    rows: &mut Vec<String>,
)
    requires
        from <= to <= lines.len(),
    ensures
        text::texts(final(rows)@) == text::texts(old(rows)@) + gutter_rows(
            *k,
            gutter@,
            text::texts(lines@).subrange(from as int, to as int),
            inner as nat,
        ),
{
    let ghost start = text::texts(rows@);
    let ghost all = text::texts(lines@).subrange(from as int, to as int);
    let ghost want = gutter_rows(*k, gutter@, all, inner as nat);
    let mut i: usize = from;
    assert(start + want.take(0) =~= start);
    while i < to
        invariant
            from <= i <= to <= lines.len(),
            all == text::texts(lines@).subrange(from as int, to as int),
            want == gutter_rows(*k, gutter@, all, inner as nat),
            text::texts(rows@) == start + want.take(i - from),
        decreases to - i,
    {
        proof {
            reveal_strlit("\t");
        }
        let flat = text::replace(lines[i].as_str(), "\t", "    ");
        let cut = ui::dim(k, clip(flat.as_str(), inner).as_str());
        let row = String::from_str("    ").concat(gutter).concat(" ").concat(cut.as_str());
        assert(all[i - from] == lines@[i as int]@);
        assert(want.take(i + 1 - from) =~= want.take(i - from).push(row@));
        text::put(rows, row.as_str());
        i = i + 1;
    }
    assert(want.take(to - from) =~= want);
}

/// The mark that goes before a call's facts.
pub open spec fn call_facts(k: Skin, out: Outcome) -> Seq<char> {
    let mark = if out.ok {
        ui::painted(k, k.theme.progress, "✓"@)
    } else {
        ui::painted(k, k.theme.alarm, "✗"@)
    };
    if out.meta.len() == 0 {
        mark
    } else {
        mark + " "@ + ui::dimmed(k, text::joined(out.meta, " · "@))
    }
}

pub open spec fn first_line(s: Seq<char>) -> Seq<char> {
    if text::lines(s).len() > 0 {
        text::lines(s)[0]
    } else {
        ""@
    }
}

pub fn first_line_of(s: &str) -> (r: String)
    ensures
        r@ == first_line(s@),
{
    let lines = text::lines_of(s);
    assert(lines@.len() == text::texts(lines@).len());
    if lines.len() > 0 {
        lines[0].clone()
    } else {
        "".to_owned()
    }
}

/// The header row of a tool call that came back.
pub open spec fn call_head(k: Skin, caller: Seq<char>, name: Seq<char>, out: Outcome) -> Seq<char> {
    let meta = call_facts(k, out);
    let lead = "  "@ + ui::painted(k, k.theme.accent, "⚙"@) + " "@ + ui::sealed_name(k, caller)
        + " "@ + ui::dimmed(k, k.theme.prompt@) + " "@ + ui::bolded(k, k.theme.paper, name);
    let room = ui::room_for(
        k.width as nat,
        ui::shown_cells(lead) + 2 + ui::shown_cells(meta) + 2,
        8,
    );
    let line = first_line(out.arg);
    let arg = if line.len() == 0 {
        ""@
    } else {
        "  "@ + ui::plained(k, clip_view(line, room))
    };
    let gap = ui::room_for(
        k.width as nat,
        ui::shown_cells(lead) + ui::shown_cells(arg) + ui::shown_cells(meta) + 1,
        2,
    );
    lead + arg + ui::spaces(gap) + meta
}

/// The output of a tool call: its first lines, then how many more there are.
pub open spec fn call_body(k: Skin, out: Outcome) -> Seq<Seq<char>> {
    let body = text::without_trailing(out.body, '\n');
    let gutter = ui::painted(
        k,
        if out.ok {
            k.theme.ink
        } else {
            k.theme.alarm
        },
        "│"@,
    );
    let lines = text::lines(body);
    let inner = ui::room_for(k.width as nat, 6, 20);
    if body.len() == 0 {
        seq![]
    } else if lines.len() <= TOOL_BODY_LINES {
        gutter_rows(k, gutter, lines, inner)
    } else {
        gutter_rows(k, gutter, lines.take(TOOL_BODY_LINES as int), inner).push(
            "    "@ + gutter + " "@ + ui::fainted(
                k,
                "… "@ + text::dec((lines.len() - TOOL_BODY_LINES) as nat) + " more lines"@,
            ),
        )
    }
}

/// A tool call: a header row naming who called what with which argument, facts
/// right-aligned, then the output hung off a gutter and capped at
/// [`TOOL_BODY_LINES`].
pub fn tool(k: &Skin, caller: &str, name: &str, out: &ToolOut) -> (r: String)
    ensures
        r@ == text::joined(
            seq![call_head(*k, caller@, name@, out@)] + call_body(*k, out@),
            "\n"@,
        ),
{
    let t = &k.theme;
    let mark = if out.ok {
        ui::paint(k, t.progress, "✓")
    } else {
        ui::paint(k, t.alarm, "✗")
    };
    assert(out@.meta.len() == out.meta@.len());
    let meta = if out.meta.len() == 0 {
        mark
    } else {
        let facts = text::join(&out.meta, " · ");
        mark.concat(" ").concat(ui::dim(k, facts.as_str()).as_str())
    };
    let lead = String::from_str("  ").concat(ui::paint(k, t.accent, "⚙").as_str()).concat(
        " ",
    ).concat(ui::sealed(k, caller).as_str()).concat(" ").concat(
        ui::dim(k, t.prompt).as_str(),
    ).concat(" ").concat(ui::bold(k, t.paper, name).as_str());
    let lw: u128 = ui::shown(lead.as_str());
    let mw: u128 = ui::shown(meta.as_str());
    let room: usize = ui::left_or(k.width, lw + 2 + mw + 2, 8);
    let line = first_line_of(out.arg.as_str());
    proof {
        reveal_strlit("");
    }
    let arg = if line.as_str().is_empty() {
        "".to_owned()
    } else {
        String::from_str("  ").concat(
            ui::plain(k, clip(line.as_str(), room).as_str()).as_str(),
        )
    };
    let aw: u128 = ui::shown(arg.as_str());
    let gap: usize = ui::left_or(k.width, lw + aw + mw + 1, 2);
    let head = lead.concat(arg.as_str()).concat(ui::space(gap as u128).as_str()).concat(
        meta.as_str(),
    );
    let mut rows = text::none();
    text::put(&mut rows, head.as_str());
    assert(text::texts(rows@) =~= seq![call_head(*k, caller@, name@, out@)]);
    let body = text::trim_trailing(out.body.as_str(), '\n');
    if !body.as_str().is_empty() {
        let colour = if out.ok {
            t.ink
        } else {
            t.alarm
        };
        let gutter = ui::paint(k, colour, "│");
        let lines = text::lines_of(body.as_str());
        assert(lines@.len() == text::texts(lines@).len());
        let inner: usize = ui::left_or(k.width, 6, 20);
        let ghost all = text::texts(lines@);
        if lines.len() > TOOL_BODY_LINES {
            assert(all.subrange(0, TOOL_BODY_LINES as int) =~= all.take(TOOL_BODY_LINES as int));
            add_rows(k, gutter.as_str(), &lines, 0, TOOL_BODY_LINES, inner, &mut rows);
            let count = String::from_str("… ").concat(
                text::number((lines.len() - TOOL_BODY_LINES) as u64).as_str(),
            ).concat(" more lines");
            let last = String::from_str("    ").concat(gutter.as_str()).concat(" ").concat(
                ui::faint(k, count.as_str()).as_str(),
            );
            text::put(&mut rows, last.as_str());
        } else {
            assert(all.subrange(0, all.len() as int) =~= all);
            add_rows(k, gutter.as_str(), &lines, 0, lines.len(), inner, &mut rows);
        }
    }
    assert(text::texts(rows@) =~= seq![call_head(*k, caller@, name@, out@)] + call_body(*k, out@));
    text::join(&rows, "\n")
}

/// A model starting a turn.
pub fn thinking(k: &Skin, caller: &str, what: &str) -> (r: String)
    ensures
        r@ == "\n  "@ + ui::painted(*k, k.theme.warm, "◌"@) + " "@ + ui::sealed_name(*k, caller@)
            + " "@ + ui::dimmed(*k, "thinking ·"@) + " "@ + ui::dimmed(*k, what@),
{
    String::from_str("\n  ").concat(ui::paint(k, k.theme.warm, "◌").as_str()).concat(" ").concat(
        ui::sealed(k, caller).as_str(),
    ).concat(" ").concat(ui::dim(k, "thinking ·").as_str()).concat(" ").concat(
        ui::dim(k, what).as_str(),
    )
}

/// The lines that are not blank.
pub open spec fn filled(lines: Seq<Seq<char>>) -> Seq<Seq<char>>
    decreases lines.len(),
{
    if lines.len() == 0 {
        seq![]
    } else if text::trimmed(lines.last()).len() == 0 {
        filled(lines.drop_last())
    } else {
        filled(lines.drop_last()).push(lines.last())
    }
}

fn filled_lines(s: &str) -> (out: Vec<String>)
    ensures
        text::texts(out@) == filled(text::lines(s@)),
{
    let lines = text::lines_of(s);
    let ghost all = text::texts(lines@);
    let mut out = text::none();
    let mut i: usize = 0;
    assert(all.take(0) =~= Seq::<Seq<char>>::empty());
    assert(text::texts(out@) =~= Seq::<Seq<char>>::empty());
    while i < lines.len()
        invariant
            i <= lines.len(),
            all == text::texts(lines@),
            text::texts(out@) == filled(all.take(i as int)),
        decreases lines.len() - i,
    {
        assert(all.take(i + 1).drop_last() =~= all.take(i as int));
        assert(all.take(i + 1).last() == lines@[i as int]@);
        if !text::trim(lines[i].as_str()).as_str().is_empty() {
            text::put(&mut out, lines[i].as_str());
        }
        i = i + 1;
    }
    assert(all.take(i as int) =~= all);
    out
}

/// The rows of a reasoning block: all of it, or its head and its end with the
/// count of what lies between.
pub open spec fn musing_rows(k: Skin, lines: Seq<Seq<char>>) -> Seq<Seq<char>> {
    let gutter = ui::fainted(k, "┆"@);
    let inner = ui::room_for(k.width as nat, 6, 20);
    if lines.len() <= MUSING_LINES {
        gutter_rows(k, gutter, lines, inner)
    } else {
        gutter_rows(k, gutter, lines.take(MUSING_HEAD as int), inner).push(
            "    "@ + gutter + " "@ + ui::fainted(
                k,
                "… "@ + text::dec((lines.len() - MUSING_LINES) as nat) + " lines …"@,
            ),
        ) + gutter_rows(
            k,
            gutter,
            lines.skip(lines.len() - (MUSING_LINES - MUSING_HEAD)),
            inner,
        )
    }
}

/// What a model thought, or wrote beside its tool calls: hung off a gutter like
/// a tool's output, head and tail if long.
pub fn musing(k: &Skin, caller: &str, label: &str, text: &str) -> (r: String)
    ensures
        r@ == text::joined(
            seq![
                "  "@ + ui::painted(*k, k.theme.warm, "✎"@) + " "@ + ui::sealed_name(*k, caller@)
                    + " "@ + ui::dimmed(*k, label@),
            ] + musing_rows(*k, filled(text::lines(text::trimmed(text@)))),
            "\n"@,
        ),
{
    let head = String::from_str("  ").concat(ui::paint(k, k.theme.warm, "✎").as_str()).concat(
        " ",
    ).concat(ui::sealed(k, caller).as_str()).concat(" ").concat(ui::dim(k, label).as_str());
    let mut rows = text::none();
    text::put(&mut rows, head.as_str());
    assert(text::texts(rows@) =~= seq![head@]);
    let gutter = ui::faint(k, "┆");
    let inner: usize = ui::left_or(k.width, 6, 20);
    let lines = filled_lines(text::trim(text).as_str());
    let ghost all = text::texts(lines@);
    assert(all.len() == lines@.len());
    if lines.len() <= MUSING_LINES {
        assert(all.subrange(0, all.len() as int) =~= all);
        add_rows(k, gutter.as_str(), &lines, 0, lines.len(), inner, &mut rows);
    } else {
        assert(all.subrange(0, MUSING_HEAD as int) =~= all.take(MUSING_HEAD as int));
        add_rows(k, gutter.as_str(), &lines, 0, MUSING_HEAD, inner, &mut rows);
        let count = String::from_str("… ").concat(
            text::number((lines.len() - MUSING_LINES) as u64).as_str(),
        ).concat(" lines …");
        let mid = String::from_str("    ").concat(gutter.as_str()).concat(" ").concat(
            ui::faint(k, count.as_str()).as_str(),
        );
        text::put(&mut rows, mid.as_str());
        let from: usize = lines.len() - (MUSING_LINES - MUSING_HEAD);
        assert(all.subrange(from as int, all.len() as int) =~= all.skip(from as int));
        add_rows(k, gutter.as_str(), &lines, from, lines.len(), inner, &mut rows);
    }
    assert(text::texts(rows@) =~= seq![head@] + musing_rows(*k, all));
    text::join(&rows, "\n")
}

pub open spec fn leaving(
    k: Skin,
    caller: Seq<char>,
    name: Seq<char>,
    arg: Seq<char>,
    in_flight: nat,
) -> Seq<char> {
    let lead = "  "@ + ui::painted(k, k.theme.warm, "◌"@) + " "@ + ui::sealed_name(k, caller)
        + " "@ + ui::dimmed(k, k.theme.prompt@) + " "@ + ui::plained(k, name);
    let tag = ui::dimmed(
        k,
        if in_flight > 1 {
            "started · "@ + text::dec(in_flight) + " in flight"@
        } else {
            "started"@
        },
    );
    let room = ui::room_for(k.width as nat, ui::shown_cells(lead) + ui::shown_cells(tag) + 6, 8);
    let shown = if arg.len() == 0 {
        ""@
    } else {
        "  "@ + ui::dimmed(k, clip_view(arg, room))
    };
    lead + shown + "  "@ + tag
}

/// A tool call leaving; its result row comes later, when it lands.
pub fn started(k: &Skin, caller: &str, name: &str, arg: &str, in_flight: usize) -> (r: String)
    ensures
        r@ == leaving(*k, caller@, name@, arg@, in_flight as nat),
{
    let t = &k.theme;
    let lead = String::from_str("  ").concat(ui::paint(k, t.warm, "◌").as_str()).concat(
        " ",
    ).concat(ui::sealed(k, caller).as_str()).concat(" ").concat(
        ui::dim(k, t.prompt).as_str(),
    ).concat(" ").concat(ui::plain(k, name).as_str());
    let word = if in_flight > 1 {
        String::from_str("started · ").concat(text::number(in_flight as u64).as_str()).concat(
            " in flight",
        )
    } else {
        "started".to_owned()
    };
    let tag = ui::dim(k, word.as_str());
    let used: u128 = ui::shown(lead.as_str()) + ui::shown(tag.as_str()) + 6;
    let room: usize = ui::left_or(k.width, used, 8);
    let shown = if arg.is_empty() {
        "".to_owned()
    } else {
        String::from_str("  ").concat(ui::dim(k, clip(arg, room).as_str()).as_str())
    };
    lead.concat(shown.as_str()).concat("  ").concat(tag.as_str())
}

// ---------------------------------------------------------------------
// What a turn cost
// ---------------------------------------------------------------------

/// A cell filled to `e` eighths, `e` from one to seven.
pub open spec fn eighth(e: nat) -> Seq<char> {
    if e == 1 {
        "▏"@
    } else if e == 2 {
        "▎"@
    } else if e == 3 {
        "▍"@
    } else if e == 4 {
        "▌"@
    } else if e == 5 {
        "▋"@
    } else if e == 6 {
        "▊"@
    } else {
        "▉"@
    }
}

fn eighth_text(e: usize) -> (r: &'static str)
    ensures
        r@ == eighth(e as nat),
{
    if e == 1 {
        "▏"
    } else if e == 2 {
        "▎"
    } else if e == 3 {
        "▍"
    } else if e == 4 {
        "▌"
    } else if e == 5 {
        "▋"
    } else if e == 6 {
        "▊"
    } else {
        "▉"
    }
}

/// The filled part of a bar of `n` cells that is `pct` per cent full.
pub open spec fn bar_text(pct: nat, n: nat) -> Seq<char> {
    let eighths = (if pct < 100 {
        pct
    } else {
        100
    }) * n * 8 / 100;
    let full = ui::times("█"@, eighths / 8);
    if eighths % 8 > 0 && eighths / 8 < n {
        full + eighth(eighths % 8)
    } else {
        full
    }
}

pub open spec fn meter_colour(k: Skin, pct: nat) -> Rgb {
    if pct >= 80 {
        k.theme.alarm
    } else if pct >= 50 {
        k.theme.warm
    } else {
        k.theme.progress
    }
}

pub open spec fn meter_text(k: Skin, pct: nat, n: nat) -> Seq<char> {
    let bar = bar_text(pct, n);
    ui::fainted(k, "▕"@) + ui::painted(k, meter_colour(k, pct), bar) + ui::fainted(
        k,
        ui::times("░"@, ui::room(n, ui::cell_count(bar))),
    ) + ui::fainted(k, "▏"@)
}

/// A bar for the context window, coloured by how full it is.
pub fn meter(k: &Skin, pct: u32, n: usize) -> (r: String)
    requires
        n * 800 <= usize::MAX,
    ensures
        r@ == meter_text(*k, pct as nat, n as nat),
{
    let c = if pct >= 80 {
        k.theme.alarm
    } else if pct >= 50 {
        k.theme.warm
    } else {
        k.theme.progress
    };
    let p: usize = if pct < 100 {
        pct as usize
    } else {
        100
    };
    assert(p * n <= 100 * n) by (nonlinear_arith)
        requires
            p <= 100,
    ;
    let eighths: usize = p * n * 8 / 100;
    let mut bar = ui::repeat("█", eighths / 8);
    if eighths % 8 > 0 && eighths / 8 < n {
        bar.append(eighth_text(eighths % 8));
    }
    let rest: usize = ui::left(n, ui::measure(bar.as_str()));
    ui::faint(k, "▕").concat(ui::paint(k, c, bar.as_str()).as_str()).concat(
        ui::faint(k, ui::repeat("░", rest).as_str()).as_str(),
    ).concat(ui::faint(k, "▏").as_str())
}

/// What one model turn cost, after its tools have run. `window` is `None` when
/// the provider cannot say: no meter then, rather than one that is made up.
#[derive(Clone, Debug, Default)]
pub struct TurnCost {
    pub prompt: u32,
    pub out: u32,
    pub total: u32,
    /// Of `prompt`, what the provider served from its prompt cache; 0 when it
    /// does not say.
    pub cached: u32,
    pub window: Option<u32>,
    pub ms: u64,
    /// Tool calls this turn, `SendMessage` not included.
    pub tools: usize,
    /// `SendMessage` calls this turn: talking, counted apart from tools.
    pub messages: usize,
}

/// How much of a window of `w` tokens `total` takes, in per cent.
pub open spec fn window_pct(total: u32, w: u32) -> nat {
    ((total * 100) / w as int % 0x1_0000_0000) as nat
}

pub open spec fn window_part(k: Skin, c: TurnCost) -> Seq<char> {
    match c.window {
        Some(w) => if w > 0 {
            let pct = window_pct(c.total, w);
            "  "@ + meter_text(k, pct, 10) + " "@ + ui::dimmed(
                k,
                text::dec(pct) + "% of "@ + figures::kilo_text(w as nat),
            )
        } else {
            ""@
        },
        None => ""@,
    }
}

pub open spec fn count_text(n: nat, zero: Seq<char>, one: Seq<char>, many: Seq<char>) -> Seq<char> {
    if n == 0 {
        zero
    } else if n == 1 {
        one
    } else {
        text::dec(n) + many
    }
}

pub open spec fn cost_text(k: Skin, caller: Seq<char>, c: TurnCost) -> Seq<char> {
    let sep = ui::dimmed(k, " · "@);
    let cached = if c.cached > 0 {
        ui::dimmed(k, " ("@ + figures::grouped(text::dec(c.cached as nat)) + " cached)"@)
    } else {
        ""@
    };
    let said = if c.messages > 0 {
        sep + ui::dimmed(
            k,
            count_text(c.messages as nat, ""@, "1 message"@, " messages"@),
        )
    } else {
        ""@
    };
    "  "@ + ui::painted(k, k.theme.done, "◆"@) + " "@ + ui::sealed_name(k, caller) + "  "@
        + ui::dimmed(k, "in"@) + " "@ + ui::plained(
        k,
        figures::grouped(text::dec(c.prompt as nat)),
    ) + cached + sep + ui::dimmed(k, "out"@) + " "@ + ui::plained(
        k,
        figures::grouped(text::dec(c.out as nat)),
    ) + sep + ui::bolded(k, k.theme.paper, figures::grouped(text::dec(c.total as nat))) + " "@
        + ui::dimmed(k, "tok"@) + window_part(k, c) + sep + ui::dimmed(
        k,
        figures::milli_text(c.ms as nat),
    ) + sep + ui::dimmed(
        k,
        count_text(c.tools as nat, "no tools"@, "1 tool"@, " tools"@),
    ) + said
}

fn counted(n: usize, zero: &str, one: &str, many: &str) -> (r: String)
    ensures
        r@ == count_text(n as nat, zero@, one@, many@),
{
    if n == 0 {
        zero.to_owned()
    } else if n == 1 {
        one.to_owned()
    } else {
        text::number(n as u64).concat(many)
    }
}

fn window_text(k: &Skin, c: &TurnCost) -> (r: String)
    ensures
        r@ == window_part(*k, *c),
{
    match c.window {
        Some(w) => if w > 0 {
            let part: u64 = (c.total as u64 * 100) / w as u64;
            let pct: u32 = (part % 0x1_0000_0000) as u32;
            let words = text::number(pct as u64).concat("% of ").concat(
                figures::kilo(w).as_str(),
            );
            String::from_str("  ").concat(meter(k, pct, 10).as_str()).concat(" ").concat(
                ui::dim(k, words.as_str()).as_str(),
            )
        } else {
            "".to_owned()
        },
        None => "".to_owned(),
    }
}

/// What one model turn cost, as a row.
pub fn turn(k: &Skin, caller: &str, c: &TurnCost) -> (r: String)
    ensures
        r@ == cost_text(*k, caller@, *c),
{
    let t = &k.theme;
    let sep = ui::dim(k, " · ");
    let cached = if c.cached > 0 {
        let words = String::from_str(" (").concat(
            figures::thousands(c.cached as u64).as_str(),
        ).concat(" cached)");
        ui::dim(k, words.as_str())
    } else {
        "".to_owned()
    };
    let said = if c.messages > 0 {
        let words = counted(c.messages, "", "1 message", " messages");
        sep.clone().concat(ui::dim(k, words.as_str()).as_str())
    } else {
        "".to_owned()
    };
    let words = counted(c.tools, "no tools", "1 tool", " tools");
    String::from_str("  ").concat(ui::paint(k, t.done, "◆").as_str()).concat(" ").concat(
        ui::sealed(k, caller).as_str(),
    ).concat("  ").concat(ui::dim(k, "in").as_str()).concat(" ").concat(
        ui::plain(k, figures::thousands(c.prompt as u64).as_str()).as_str(),
    ).concat(cached.as_str()).concat(sep.as_str()).concat(ui::dim(k, "out").as_str()).concat(
        " ",
    ).concat(ui::plain(k, figures::thousands(c.out as u64).as_str()).as_str()).concat(
        sep.as_str(),
    ).concat(ui::bold(k, t.paper, figures::thousands(c.total as u64).as_str()).as_str()).concat(
        " ",
    ).concat(ui::dim(k, "tok").as_str()).concat(window_text(k, c).as_str()).concat(
        sep.as_str(),
    ).concat(ui::dim(k, figures::millis(c.ms).as_str()).as_str()).concat(sep.as_str()).concat(
        ui::dim(k, words.as_str()).as_str(),
    ).concat(said.as_str())
}

// ---------------------------------------------------------------------
// What a model said
// ---------------------------------------------------------------------

/// The wrapped lines of every paragraph, each at full brightness.
pub open spec fn spoken_lines(k: Skin, paras: Seq<Seq<char>>, width: nat) -> Seq<Seq<char>>
    decreases paras.len(),
{
    if paras.len() == 0 {
        seq![]
    } else {
        spoken_lines(k, paras.drop_last(), width) + plain_lines(
            k,
            ui::wrapped_lines(paras.last(), width),
        )
    }
}

pub open spec fn plain_lines(k: Skin, lines: Seq<Seq<char>>) -> Seq<Seq<char>> {
    Seq::new(lines.len(), |i: int| ui::plained(k, lines[i]))
}

pub open spec fn replied(k: Skin, caller: Seq<char>, body: Seq<char>) -> Seq<char> {
    let lead = "  "@ + ui::sealed_name(k, caller) + " "@;
    let indent = ui::shown_cells(lead);
    "\n"@ + text::joined(
        scroll::hung(
            spoken_lines(k, text::split(body, '\n'), ui::room_for(k.width as nat, indent, 20)),
            lead,
            indent,
        ),
        "\n"@,
    )
}

/// What a model said, outside the chain: its chop and name, then the words at
/// full brightness under a hanging indent.
pub fn reply(k: &Skin, caller: &str, body: &str) -> (r: String)
    ensures
        r@ == replied(*k, caller@, body@),
{
    let lead = String::from_str("  ").concat(ui::sealed(k, caller).as_str()).concat(" ");
    let indent: u128 = ui::shown(lead.as_str());
    let width: usize = ui::left_or(k.width, indent, 20);
    let paras = text::split_on(body, '\n');
    let ghost all = text::texts(paras@);
    let mut rows = text::none();
    let mut p: usize = 0;
    assert(all.take(0) =~= Seq::<Seq<char>>::empty());
    assert(text::texts(rows@) =~= Seq::<Seq<char>>::empty());
    while p < paras.len()
        invariant
            p <= paras.len(),
            all == text::texts(paras@),
            text::texts(rows@) == spoken_lines(*k, all.take(p as int), width as nat),
        decreases paras.len() - p,
    {
        assert(all.take(p + 1).drop_last() =~= all.take(p as int));
        assert(all.take(p + 1).last() == paras@[p as int]@);
        let lines = ui::wrap(paras[p].as_str(), width);
        add_plain(k, &lines, &mut rows);
        p = p + 1;
    }
    assert(all.take(p as int) =~= all);
    String::from_str("\n").concat(scroll::hang_lines(&rows, lead.as_str(), indent).as_str())
}

fn add_plain(k: &Skin, lines: &Vec<String>, rows: &mut Vec<String>)
    ensures
        text::texts(final(rows)@) == text::texts(old(rows)@) + plain_lines(
            *k,
            text::texts(lines@),
        ),
{
    let ghost start = text::texts(rows@);
    let ghost want = plain_lines(*k, text::texts(lines@));
    let mut i: usize = 0;
    assert(start + want.take(0) =~= start);
    while i < lines.len()
        invariant
            i <= lines.len(),
            want == plain_lines(*k, text::texts(lines@)),
            text::texts(rows@) == start + want.take(i as int),
        decreases lines.len() - i,
    {
        let one = ui::plain(k, lines[i].as_str());
        assert(want.take(i + 1) =~= want.take(i as int).push(one@));
        text::put(rows, one.as_str());
        i = i + 1;
    }
    assert(want.take(i as int) =~= want);
}

/// A side note from the loop itself: quieter than a tool, louder than nothing.
pub fn note(k: &Skin, s: &str) -> (r: String)
    ensures
        r@ == "  "@ + ui::painted(*k, k.theme.warm, "↯"@) + " "@ + ui::dimmed(*k, s@),
{
    String::from_str("  ").concat(ui::paint(k, k.theme.warm, "↯").as_str()).concat(" ").concat(
        ui::dim(k, s).as_str(),
    )
}

// ---------------------------------------------------------------------
// What a turn shows
// ---------------------------------------------------------------------

/// A text that is cut to a width keeps its front.
pub proof fn a_cut_line_keeps_its_front(s: Seq<char>, w: nat, n: nat)
    ensures
        fitting(s, w, n).len() <= s.len(),
        fitting(s, w, n) == s.take(fitting(s, w, n).len() as int),
        fitting(s, w, n).len() < s.len() ==> w + ui::cell_count(fitting(s, w, n)) + ui::char_cells(
            s[fitting(s, w, n).len() as int],
        ) + 1 > n,
        ui::cell_count(s) <= n ==> clip_view(s, n) == s,
        ui::cell_count(s) > n ==> clip_view(s, n) == fitting(s, 0, n) + "…"@,
    decreases s.len(),
{
    let f = fitting(s, w, n);
    if s.len() == 0 || w + ui::char_cells(s[0]) + 1 > n {
        assert(f =~= s.take(0));
        assert(ui::cell_count(f) == 0);
    } else {
        let rest = s.skip(1);
        let g = fitting(rest, w + ui::char_cells(s[0]), n);
        a_cut_line_keeps_its_front(rest, w + ui::char_cells(s[0]), n);
        assert(f =~= s.take(f.len() as int));
        ui::widths_add_up(seq![s[0]], g, s[0]);
        if f.len() < s.len() {
            assert(s[f.len() as int] == rest[g.len() as int]);
        }
    }
}

/// A call's output is shown line by line, twelve lines of it at most, with how
/// many more there are.
pub proof fn output_is_shown_or_counted(k: Skin, out: Outcome)
    ensures
        ({
            let lines = text::lines(text::without_trailing(out.body, '\n'));
            let r = call_body(k, out);
            &&& text::without_trailing(out.body, '\n').len() == 0 ==> r.len() == 0
            &&& text::without_trailing(out.body, '\n').len() > 0 && lines.len() <= 12 ==> r.len()
                == lines.len()
            &&& text::without_trailing(out.body, '\n').len() > 0 && lines.len() > 12 ==> r.len()
                == 13 && text::has(r[12], text::dec((lines.len() - 12) as nat))
        }),
{
    let lines = text::lines(text::without_trailing(out.body, '\n'));
    if text::without_trailing(out.body, '\n').len() > 0 && lines.len() > 12 {
        let gutter = ui::painted(
            k,
            if out.ok {
                k.theme.ink
            } else {
                k.theme.alarm
            },
            "│"@,
        );
        let d = text::dec((lines.len() - 12) as nat);
        let m = "… "@ + d + " more lines"@;
        text::lemma_has_self(d);
        text::lemma_has_right("… "@, d, d);
        text::lemma_has_left("… "@ + d, " more lines"@, d);
        ui::what_is_painted_is_shown(k, k.theme.ink, m);
        text::lemma_has_through(ui::fainted(k, m), m, d);
        text::lemma_has_right("    "@ + gutter + " "@, ui::fainted(k, m), d);
        assert(call_body(k, out)[12] == "    "@ + gutter + " "@ + ui::fainted(k, m));
    }
}

/// A row of output shows its line, as far as it fits.
pub proof fn a_row_shows_its_line(k: Skin, gutter: Seq<char>, l: Seq<char>, inner: nat)
    ensures
        text::has(
            gutter_row(k, gutter, l, inner),
            clip_view(text::replaced(l, "\t"@, "    "@, 0), inner),
        ),
{
    let c = clip_view(text::replaced(l, "\t"@, "    "@, 0), inner);
    ui::what_is_painted_is_shown(k, k.theme.smoke, c);
    text::lemma_has_right("    "@ + gutter + " "@, ui::dimmed(k, c), c);
}

/// A call that went well is marked so, one that did not as failed, and every fact
/// beside it is shown.
pub proof fn a_call_is_marked_as_it_went(k: Skin, out: Outcome, i: int)
    ensures
        out.ok ==> text::has(call_facts(k, out), "✓"@),
        !out.ok ==> text::has(call_facts(k, out), "✗"@),
        0 <= i < out.meta.len() ==> text::has(call_facts(k, out), out.meta[i]),
{
    let s = if out.ok {
        "✓"@
    } else {
        "✗"@
    };
    let c = if out.ok {
        k.theme.progress
    } else {
        k.theme.alarm
    };
    let mark = ui::painted(k, c, s);
    ui::what_is_painted_is_shown(k, c, s);
    let m = text::joined(out.meta, " · "@);
    text::lemma_has_left(mark, " "@, s);
    text::lemma_has_left(mark + " "@, ui::dimmed(k, m), s);
    if 0 <= i < out.meta.len() {
        text::lemma_has_part(out.meta, " · "@, i);
        ui::what_is_painted_is_shown(k, k.theme.smoke, m);
        text::lemma_has_through(ui::dimmed(k, m), m, out.meta[i]);
        text::lemma_has_right(mark + " "@, ui::dimmed(k, m), out.meta[i]);
    }
}

/// A window is the fuller the more of it is used: a hundred where all is, and its
/// colour warns from a half and alarms from four fifths.
pub proof fn a_full_window_is_a_hundred(k: Skin, total: u32, w: u32, pct: nat)
    requires
        w > 0,
        total <= w,
    ensures
        window_pct(total, w) <= 100,
        total == w ==> window_pct(total, w) == 100,
        total == 0 ==> window_pct(total, w) == 0,
        pct >= 80 ==> meter_colour(k, pct) == k.theme.alarm,
        50 <= pct < 80 ==> meter_colour(k, pct) == k.theme.warm,
        pct < 50 ==> meter_colour(k, pct) == k.theme.progress,
{
    let q = (total * 100) / w as int;
    assert(0 <= q <= 100) by (nonlinear_arith)
        requires
            0 <= total <= w,
            w > 0,
            q == (total * 100) / w as int,
    ;
    if total == w {
        assert(q == 100) by (nonlinear_arith)
            requires
                total == w,
                w > 0,
                q == (total * 100) / w as int,
        ;
    }
    if total == 0 {
        assert(q == 0) by (nonlinear_arith)
            requires
                total == 0,
                w > 0,
                q == (total * 100) / w as int,
        ;
    }
}

/// A count is told in words where it is none or one, and in digits otherwise.
pub proof fn a_count_is_told(n: nat, zero: Seq<char>, one: Seq<char>, many: Seq<char>)
    ensures
        count_text(0, zero, one, many) == zero,
        count_text(1, zero, one, many) == one,
        n > 1 ==> count_text(n, zero, one, many) == text::dec(n) + many,
{
}

/// The first line of a text is its first, and a text of none has none.
pub proof fn the_first_line_is_first(s: Seq<char>)
    ensures
        text::lines(s).len() > 0 ==> first_line(s) == text::lines(s)[0],
        text::lines(s).len() == 0 ==> first_line(s) == ""@,
{
}

/// A train of thought is shown whole up to sixteen lines; of a longer one the
/// first four and the last twelve are, with how many are left out between.
pub proof fn a_long_thought_keeps_both_ends(k: Skin, lines: Seq<Seq<char>>, i: int)
    ensures
        ({
            let gutter = ui::fainted(k, "┆"@);
            let inner = ui::room_for(k.width as nat, 6, 20);
            let r = musing_rows(k, lines);
            &&& lines.len() <= 16 ==> r.len() == lines.len() && (0 <= i < lines.len() ==> r[i]
                == gutter_row(k, gutter, lines[i], inner))
            &&& lines.len() > 16 ==> r.len() == 17 && (0 <= i < 4 ==> r[i] == gutter_row(
                k,
                gutter,
                lines[i],
                inner,
            )) && (0 <= i < 12 ==> r[5 + i] == gutter_row(
                k,
                gutter,
                lines[lines.len() - 12 + i],
                inner,
            )) && text::has(r[4], text::dec((lines.len() - 16) as nat))
        }),
{
    if lines.len() > 16 {
        let gutter = ui::fainted(k, "┆"@);
        let d = text::dec((lines.len() - 16) as nat);
        let m = "… "@ + d + " lines …"@;
        text::lemma_has_self(d);
        text::lemma_has_right("… "@, d, d);
        text::lemma_has_left("… "@ + d, " lines …"@, d);
        ui::what_is_painted_is_shown(k, k.theme.ink, m);
        text::lemma_has_through(ui::fainted(k, m), m, d);
        text::lemma_has_right("    "@ + gutter + " "@, ui::fainted(k, m), d);
        assert(musing_rows(k, lines)[4] == "    "@ + gutter + " "@ + ui::fainted(k, m));
    }
}

/// Every paragraph of a reply is spoken, in order, on as many lines as it takes.
pub proof fn every_paragraph_is_spoken(
    k: Skin,
    paras: Seq<Seq<char>>,
    p: Seq<char>,
    width: nat,
)
    ensures
        spoken_lines(k, paras.push(p), width) == spoken_lines(k, paras, width) + plain_lines(
            k,
            ui::wrapped_lines(p, width),
        ),
        spoken_lines(k, Seq::empty(), width).len() == 0,
        plain_lines(k, paras).len() == paras.len(),
        forall|i: int|
            0 <= i < paras.len() ==> text::has(#[trigger] plain_lines(k, paras)[i], paras[i]),
{
    assert(paras.push(p).drop_last() =~= paras);
    assert forall|i: int| 0 <= i < paras.len() implies text::has(
        #[trigger] plain_lines(k, paras)[i],
        paras[i],
    ) by {
        ui::what_is_painted_is_shown(k, k.theme.paper, paras[i]);
    }
}

/// A meter is as full as the part it shows.
pub proof fn a_meter_is_as_full_as_its_part(n: nat)
    ensures
        bar_text(0, n).len() == 0,
        bar_text(100, n).len() == n,
{
    reveal_strlit("█");
    let e: nat = 100 * n * 8 / 100;
    assert(e == 8 * n) by (nonlinear_arith)
        requires
            e == 100 * n * 8 / 100,
    ;
    ui::repeats_are_counted("█"@, n);
    assert(n * 1 == n);
    let z: nat = 0 * n * 8 / 100;
    assert(z == 0) by (nonlinear_arith)
        requires
            z == 0 * n * 8 / 100,
    ;
    ui::repeats_are_counted("█"@, 0);
}

/// Of a text every line is kept, in order, but the blank ones.
pub proof fn only_blank_lines_are_left_out(
    a: Seq<Seq<char>>,
    b: Seq<Seq<char>>,
    x: Seq<char>,
)
    ensures
        filled(a + b) == filled(a) + filled(b),
        filled(seq![x]) == (if text::trimmed(x).len() > 0 {
            seq![x]
        } else {
            Seq::<Seq<char>>::empty()
        }),
        filled(Seq::<Seq<char>>::empty()).len() == 0,
    decreases b.len(),
{
    reveal_with_fuel(filled, 2);
    assert(seq![x].drop_last() =~= Seq::<Seq<char>>::empty());
    assert(filled(Seq::<Seq<char>>::empty()).len() == 0);
    if b.len() == 0 {
        assert(a + b =~= a);
        assert(filled(a + b) =~= filled(a) + filled(b));
    } else {
        let all = a + b;
        assert(all.drop_last() =~= a + b.drop_last());
        assert(all.last() == b.last());
        only_blank_lines_are_left_out(a, b.drop_last(), x);
        assert(filled(all) =~= filled(a) + filled(b));
    }
}

/// What a turn cost is told: who took it, what went in and came out, all of
/// it, how long it took and what it called.
#[verifier::rlimit(40)]
pub proof fn a_turns_cost_is_told(
    k: Skin,
    caller: Seq<char>,
    c: TurnCost,
)
    ensures
        text::has(cost_text(k, caller, c), caller),
        text::has(cost_text(k, caller, c), figures::grouped(text::dec(c.prompt as nat))),
        text::has(cost_text(k, caller, c), figures::grouped(text::dec(c.out as nat))),
        text::has(cost_text(k, caller, c), figures::grouped(text::dec(c.total as nat))),
        text::has(cost_text(k, caller, c), window_part(k, c)),
        text::has(cost_text(k, caller, c), figures::milli_text(c.ms as nat)),
        text::has(cost_text(k, caller, c), count_text(c.tools as nat, "no tools"@, "1 tool"@, " tools"@)),
{
    let p0 = "  "@;
    let p1 = ui::painted(k, k.theme.done, "◆"@);
    let p2 = " "@;
    let p3 = ui::sealed_name(k, caller);
    let p4 = "  "@;
    let p5 = ui::dimmed(k, "in"@);
    let p6 = " "@;
    let p7 = ui::plained(k, figures::grouped(text::dec(c.prompt as nat)));
    let p8 = (if c.cached > 0 {
        ui::dimmed(k, " ("@ + figures::grouped(text::dec(c.cached as nat)) + " cached)"@)
    } else {
        ""@
    });
    let p9 = ui::dimmed(k, " · "@);
    let q0 = ui::dimmed(k, "out"@);
    let q1 = " "@;
    let q2 = ui::plained(k, figures::grouped(text::dec(c.out as nat)));
    let q3 = ui::dimmed(k, " · "@);
    let q4 = ui::bolded(k, k.theme.paper, figures::grouped(text::dec(c.total as nat)));
    let q5 = " "@;
    let q6 = ui::dimmed(k, "tok"@);
    let q7 = window_part(k, c);
    let q8 = ui::dimmed(k, " · "@);
    let q9 = ui::dimmed(k, figures::milli_text(c.ms as nat));
    let r0 = ui::dimmed(k, " · "@);
    let r1 = ui::dimmed(k, count_text(c.tools as nat, "no tools"@, "1 tool"@, " tools"@));
    let r2 = (if c.messages > 0 {
        ui::dimmed(k, " · "@) + ui::dimmed(
            k,
            count_text(c.messages as nat, ""@, "1 message"@, " messages"@),
        )
    } else {
        ""@
    });
    let whole = p0 + p1 + p2 + p3 + p4 + p5 + p6 + p7 + p8 + p9 + q0 + q1 + q2 + q3 + q4 + q5 + q6 + q7 + q8 + q9 + r0 + r1 + r2;
    assert(cost_text(k, caller, c) == whole);
    assert(text::has(whole, caller)) by {
        text::lemma_has_self(p3);
        text::lemma_has_right(p0 + p1 + p2, p3, p3);
        text::lemma_has_left(p0 + p1 + p2 + p3, p4, p3);
        text::lemma_has_left(p0 + p1 + p2 + p3 + p4, p5, p3);
        text::lemma_has_left(p0 + p1 + p2 + p3 + p4 + p5, p6, p3);
        text::lemma_has_left(p0 + p1 + p2 + p3 + p4 + p5 + p6, p7, p3);
        text::lemma_has_left(p0 + p1 + p2 + p3 + p4 + p5 + p6 + p7, p8, p3);
        text::lemma_has_left(p0 + p1 + p2 + p3 + p4 + p5 + p6 + p7 + p8, p9, p3);
        text::lemma_has_left(p0 + p1 + p2 + p3 + p4 + p5 + p6 + p7 + p8 + p9, q0, p3);
        text::lemma_has_left(p0 + p1 + p2 + p3 + p4 + p5 + p6 + p7 + p8 + p9 + q0, q1, p3);
        text::lemma_has_left(p0 + p1 + p2 + p3 + p4 + p5 + p6 + p7 + p8 + p9 + q0 + q1, q2, p3);
        text::lemma_has_left(p0 + p1 + p2 + p3 + p4 + p5 + p6 + p7 + p8 + p9 + q0 + q1 + q2, q3, p3);
        text::lemma_has_left(p0 + p1 + p2 + p3 + p4 + p5 + p6 + p7 + p8 + p9 + q0 + q1 + q2 + q3, q4, p3);
        text::lemma_has_left(p0 + p1 + p2 + p3 + p4 + p5 + p6 + p7 + p8 + p9 + q0 + q1 + q2 + q3 + q4, q5, p3);
        text::lemma_has_left(p0 + p1 + p2 + p3 + p4 + p5 + p6 + p7 + p8 + p9 + q0 + q1 + q2 + q3 + q4 + q5, q6, p3);
        text::lemma_has_left(p0 + p1 + p2 + p3 + p4 + p5 + p6 + p7 + p8 + p9 + q0 + q1 + q2 + q3 + q4 + q5 + q6, q7, p3);
        text::lemma_has_left(p0 + p1 + p2 + p3 + p4 + p5 + p6 + p7 + p8 + p9 + q0 + q1 + q2 + q3 + q4 + q5 + q6 + q7, q8, p3);
        text::lemma_has_left(p0 + p1 + p2 + p3 + p4 + p5 + p6 + p7 + p8 + p9 + q0 + q1 + q2 + q3 + q4 + q5 + q6 + q7 + q8, q9, p3);
        text::lemma_has_left(p0 + p1 + p2 + p3 + p4 + p5 + p6 + p7 + p8 + p9 + q0 + q1 + q2 + q3 + q4 + q5 + q6 + q7 + q8 + q9, r0, p3);
        text::lemma_has_left(p0 + p1 + p2 + p3 + p4 + p5 + p6 + p7 + p8 + p9 + q0 + q1 + q2 + q3 + q4 + q5 + q6 + q7 + q8 + q9 + r0, r1, p3);
        text::lemma_has_left(p0 + p1 + p2 + p3 + p4 + p5 + p6 + p7 + p8 + p9 + q0 + q1 + q2 + q3 + q4 + q5 + q6 + q7 + q8 + q9 + r0 + r1, r2, p3);
        ui::a_cat_is_shown_by_name(k, caller);
        text::lemma_has_through(whole, p3, caller);
    }
    assert(text::has(whole, figures::grouped(text::dec(c.prompt as nat)))) by {
        text::lemma_has_self(p7);
        text::lemma_has_right(p0 + p1 + p2 + p3 + p4 + p5 + p6, p7, p7);
        text::lemma_has_left(p0 + p1 + p2 + p3 + p4 + p5 + p6 + p7, p8, p7);
        text::lemma_has_left(p0 + p1 + p2 + p3 + p4 + p5 + p6 + p7 + p8, p9, p7);
        text::lemma_has_left(p0 + p1 + p2 + p3 + p4 + p5 + p6 + p7 + p8 + p9, q0, p7);
        text::lemma_has_left(p0 + p1 + p2 + p3 + p4 + p5 + p6 + p7 + p8 + p9 + q0, q1, p7);
        text::lemma_has_left(p0 + p1 + p2 + p3 + p4 + p5 + p6 + p7 + p8 + p9 + q0 + q1, q2, p7);
        text::lemma_has_left(p0 + p1 + p2 + p3 + p4 + p5 + p6 + p7 + p8 + p9 + q0 + q1 + q2, q3, p7);
        text::lemma_has_left(p0 + p1 + p2 + p3 + p4 + p5 + p6 + p7 + p8 + p9 + q0 + q1 + q2 + q3, q4, p7);
        text::lemma_has_left(p0 + p1 + p2 + p3 + p4 + p5 + p6 + p7 + p8 + p9 + q0 + q1 + q2 + q3 + q4, q5, p7);
        text::lemma_has_left(p0 + p1 + p2 + p3 + p4 + p5 + p6 + p7 + p8 + p9 + q0 + q1 + q2 + q3 + q4 + q5, q6, p7);
        text::lemma_has_left(p0 + p1 + p2 + p3 + p4 + p5 + p6 + p7 + p8 + p9 + q0 + q1 + q2 + q3 + q4 + q5 + q6, q7, p7);
        text::lemma_has_left(p0 + p1 + p2 + p3 + p4 + p5 + p6 + p7 + p8 + p9 + q0 + q1 + q2 + q3 + q4 + q5 + q6 + q7, q8, p7);
        text::lemma_has_left(p0 + p1 + p2 + p3 + p4 + p5 + p6 + p7 + p8 + p9 + q0 + q1 + q2 + q3 + q4 + q5 + q6 + q7 + q8, q9, p7);
        text::lemma_has_left(p0 + p1 + p2 + p3 + p4 + p5 + p6 + p7 + p8 + p9 + q0 + q1 + q2 + q3 + q4 + q5 + q6 + q7 + q8 + q9, r0, p7);
        text::lemma_has_left(p0 + p1 + p2 + p3 + p4 + p5 + p6 + p7 + p8 + p9 + q0 + q1 + q2 + q3 + q4 + q5 + q6 + q7 + q8 + q9 + r0, r1, p7);
        text::lemma_has_left(p0 + p1 + p2 + p3 + p4 + p5 + p6 + p7 + p8 + p9 + q0 + q1 + q2 + q3 + q4 + q5 + q6 + q7 + q8 + q9 + r0 + r1, r2, p7);
        ui::what_is_painted_is_shown(k, k.theme.ink, figures::grouped(text::dec(c.prompt as nat)));
        text::lemma_has_through(whole, p7, figures::grouped(text::dec(c.prompt as nat)));
    }
    assert(text::has(whole, figures::grouped(text::dec(c.out as nat)))) by {
        text::lemma_has_self(q2);
        text::lemma_has_right(p0 + p1 + p2 + p3 + p4 + p5 + p6 + p7 + p8 + p9 + q0 + q1, q2, q2);
        text::lemma_has_left(p0 + p1 + p2 + p3 + p4 + p5 + p6 + p7 + p8 + p9 + q0 + q1 + q2, q3, q2);
        text::lemma_has_left(p0 + p1 + p2 + p3 + p4 + p5 + p6 + p7 + p8 + p9 + q0 + q1 + q2 + q3, q4, q2);
        text::lemma_has_left(p0 + p1 + p2 + p3 + p4 + p5 + p6 + p7 + p8 + p9 + q0 + q1 + q2 + q3 + q4, q5, q2);
        text::lemma_has_left(p0 + p1 + p2 + p3 + p4 + p5 + p6 + p7 + p8 + p9 + q0 + q1 + q2 + q3 + q4 + q5, q6, q2);
        text::lemma_has_left(p0 + p1 + p2 + p3 + p4 + p5 + p6 + p7 + p8 + p9 + q0 + q1 + q2 + q3 + q4 + q5 + q6, q7, q2);
        text::lemma_has_left(p0 + p1 + p2 + p3 + p4 + p5 + p6 + p7 + p8 + p9 + q0 + q1 + q2 + q3 + q4 + q5 + q6 + q7, q8, q2);
        text::lemma_has_left(p0 + p1 + p2 + p3 + p4 + p5 + p6 + p7 + p8 + p9 + q0 + q1 + q2 + q3 + q4 + q5 + q6 + q7 + q8, q9, q2);
        text::lemma_has_left(p0 + p1 + p2 + p3 + p4 + p5 + p6 + p7 + p8 + p9 + q0 + q1 + q2 + q3 + q4 + q5 + q6 + q7 + q8 + q9, r0, q2);
        text::lemma_has_left(p0 + p1 + p2 + p3 + p4 + p5 + p6 + p7 + p8 + p9 + q0 + q1 + q2 + q3 + q4 + q5 + q6 + q7 + q8 + q9 + r0, r1, q2);
        text::lemma_has_left(p0 + p1 + p2 + p3 + p4 + p5 + p6 + p7 + p8 + p9 + q0 + q1 + q2 + q3 + q4 + q5 + q6 + q7 + q8 + q9 + r0 + r1, r2, q2);
        ui::what_is_painted_is_shown(k, k.theme.ink, figures::grouped(text::dec(c.out as nat)));
        text::lemma_has_through(whole, q2, figures::grouped(text::dec(c.out as nat)));
    }
    assert(text::has(whole, figures::grouped(text::dec(c.total as nat)))) by {
        text::lemma_has_self(q4);
        text::lemma_has_right(p0 + p1 + p2 + p3 + p4 + p5 + p6 + p7 + p8 + p9 + q0 + q1 + q2 + q3, q4, q4);
        text::lemma_has_left(p0 + p1 + p2 + p3 + p4 + p5 + p6 + p7 + p8 + p9 + q0 + q1 + q2 + q3 + q4, q5, q4);
        text::lemma_has_left(p0 + p1 + p2 + p3 + p4 + p5 + p6 + p7 + p8 + p9 + q0 + q1 + q2 + q3 + q4 + q5, q6, q4);
        text::lemma_has_left(p0 + p1 + p2 + p3 + p4 + p5 + p6 + p7 + p8 + p9 + q0 + q1 + q2 + q3 + q4 + q5 + q6, q7, q4);
        text::lemma_has_left(p0 + p1 + p2 + p3 + p4 + p5 + p6 + p7 + p8 + p9 + q0 + q1 + q2 + q3 + q4 + q5 + q6 + q7, q8, q4);
        text::lemma_has_left(p0 + p1 + p2 + p3 + p4 + p5 + p6 + p7 + p8 + p9 + q0 + q1 + q2 + q3 + q4 + q5 + q6 + q7 + q8, q9, q4);
        text::lemma_has_left(p0 + p1 + p2 + p3 + p4 + p5 + p6 + p7 + p8 + p9 + q0 + q1 + q2 + q3 + q4 + q5 + q6 + q7 + q8 + q9, r0, q4);
        text::lemma_has_left(p0 + p1 + p2 + p3 + p4 + p5 + p6 + p7 + p8 + p9 + q0 + q1 + q2 + q3 + q4 + q5 + q6 + q7 + q8 + q9 + r0, r1, q4);
        text::lemma_has_left(p0 + p1 + p2 + p3 + p4 + p5 + p6 + p7 + p8 + p9 + q0 + q1 + q2 + q3 + q4 + q5 + q6 + q7 + q8 + q9 + r0 + r1, r2, q4);
        ui::what_is_painted_is_shown(k, k.theme.paper, figures::grouped(text::dec(c.total as nat)));
        text::lemma_has_through(whole, q4, figures::grouped(text::dec(c.total as nat)));
    }
    assert(text::has(whole, q7)) by {
        text::lemma_has_self(q7);
        text::lemma_has_right(p0 + p1 + p2 + p3 + p4 + p5 + p6 + p7 + p8 + p9 + q0 + q1 + q2 + q3 + q4 + q5 + q6, q7, q7);
        text::lemma_has_left(p0 + p1 + p2 + p3 + p4 + p5 + p6 + p7 + p8 + p9 + q0 + q1 + q2 + q3 + q4 + q5 + q6 + q7, q8, q7);
        text::lemma_has_left(p0 + p1 + p2 + p3 + p4 + p5 + p6 + p7 + p8 + p9 + q0 + q1 + q2 + q3 + q4 + q5 + q6 + q7 + q8, q9, q7);
        text::lemma_has_left(p0 + p1 + p2 + p3 + p4 + p5 + p6 + p7 + p8 + p9 + q0 + q1 + q2 + q3 + q4 + q5 + q6 + q7 + q8 + q9, r0, q7);
        text::lemma_has_left(p0 + p1 + p2 + p3 + p4 + p5 + p6 + p7 + p8 + p9 + q0 + q1 + q2 + q3 + q4 + q5 + q6 + q7 + q8 + q9 + r0, r1, q7);
        text::lemma_has_left(p0 + p1 + p2 + p3 + p4 + p5 + p6 + p7 + p8 + p9 + q0 + q1 + q2 + q3 + q4 + q5 + q6 + q7 + q8 + q9 + r0 + r1, r2, q7);
    }
    assert(text::has(whole, figures::milli_text(c.ms as nat))) by {
        text::lemma_has_self(q9);
        text::lemma_has_right(p0 + p1 + p2 + p3 + p4 + p5 + p6 + p7 + p8 + p9 + q0 + q1 + q2 + q3 + q4 + q5 + q6 + q7 + q8, q9, q9);
        text::lemma_has_left(p0 + p1 + p2 + p3 + p4 + p5 + p6 + p7 + p8 + p9 + q0 + q1 + q2 + q3 + q4 + q5 + q6 + q7 + q8 + q9, r0, q9);
        text::lemma_has_left(p0 + p1 + p2 + p3 + p4 + p5 + p6 + p7 + p8 + p9 + q0 + q1 + q2 + q3 + q4 + q5 + q6 + q7 + q8 + q9 + r0, r1, q9);
        text::lemma_has_left(p0 + p1 + p2 + p3 + p4 + p5 + p6 + p7 + p8 + p9 + q0 + q1 + q2 + q3 + q4 + q5 + q6 + q7 + q8 + q9 + r0 + r1, r2, q9);
        ui::what_is_painted_is_shown(k, k.theme.ink, figures::milli_text(c.ms as nat));
        text::lemma_has_through(whole, q9, figures::milli_text(c.ms as nat));
    }
    assert(text::has(whole, count_text(c.tools as nat, "no tools"@, "1 tool"@, " tools"@))) by {
        text::lemma_has_self(r1);
        text::lemma_has_right(p0 + p1 + p2 + p3 + p4 + p5 + p6 + p7 + p8 + p9 + q0 + q1 + q2 + q3 + q4 + q5 + q6 + q7 + q8 + q9 + r0, r1, r1);
        text::lemma_has_left(p0 + p1 + p2 + p3 + p4 + p5 + p6 + p7 + p8 + p9 + q0 + q1 + q2 + q3 + q4 + q5 + q6 + q7 + q8 + q9 + r0 + r1, r2, r1);
        ui::what_is_painted_is_shown(
            k,
            k.theme.ink,
            count_text(c.tools as nat, "no tools"@, "1 tool"@, " tools"@),
        );
        text::lemma_has_through(whole, r1, count_text(c.tools as nat, "no tools"@, "1 tool"@, " tools"@));
    }
}

} // verus!
