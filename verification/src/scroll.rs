//! The log as it scrolls by: each effect in the protocol's own words and the
//! skin's colours.

use crate::common;
use crate::common::Roster;
use crate::figures;
use crate::json;
use crate::json::Json;
use crate::keys;
use crate::outside;
use crate::text;
use crate::ui;
use crate::ui::{Rgb, Skin};
use vstd::prelude::*;
use vstd::string::*;

verus! {

/// The time column: `09-23 22:35:10Z +11m30s` at its widest.
pub const TIME_W: usize = 23;

/// Cells the stamp occupies: two of margin, the time column, block column and
/// their gaps. Continuation lines hang under the text, not column 0.
pub const STAMP_W: usize = 35;

/// The avatar's column beside what a cat says.
pub const AVATAR_W: usize = 20;

/// `n` in hexadecimal.
pub open spec fn hex_number(n: nat) -> Seq<char>
    decreases n,
{
    if n < 16 {
        seq![keys::hex_char(n as u8)]
    } else {
        hex_number(n / 16).push(keys::hex_char((n % 16) as u8))
    }
}

fn hex_text(n: u64) -> (s: String)
    ensures
        s@ == hex_number(n as nat),
    decreases n,
{
    let d: u8 = (n % 16) as u8;
    let c = if d < 10 {
        (48 + d) as char
    } else {
        (87 + d) as char
    };
    let mut s = if n < 16 {
        String::new()
    } else {
        hex_text(n / 16)
    };
    s.push(c);
    assert(n < 16 ==> s@ =~= seq![keys::hex_char(n as u8)]);
    s
}

/// A block's number as the skin shows it: `#1176`, or `0x0498` with at least
/// four digits.
pub open spec fn block_name(k: Skin, block: u64) -> Seq<char> {
    if k.theme.hex_blocks {
        let h = hex_number(block as nat);
        "0x"@ + ui::times("0"@, ui::room(4, h.len())) + h
    } else {
        "#"@ + text::dec(block as nat)
    }
}

pub fn block_id(k: &Skin, block: u64) -> (r: String)
    ensures
        r@ == block_name(*k, block),
{
    if k.theme.hex_blocks {
        let h = hex_text(block);
        let n: usize = h.as_str().unicode_len();
        String::from_str("0x").concat(
            ui::repeat("0", ui::left(4, n as u128)).as_str(),
        ).concat(h.as_str())
    } else {
        String::from_str("#").concat(text::number(block).as_str())
    }
}

/// The time and the gap since the previous event.
pub open spec fn time_parts(time: Seq<char>) -> (Seq<char>, Seq<char>) {
    match text::cut(time, ' ') {
        Some(p) => p,
        None => (time, ""@),
    }
}

pub open spec fn stamp_text(k: Skin, time: Seq<char>, block: u64) -> Seq<char> {
    let (hm, gap) = time_parts(time);
    let t = if gap.len() > 0 {
        ui::dimmed(k, hm) + " "@ + ui::dimmed(k, gap)
    } else {
        ui::dimmed(k, hm)
    };
    "  "@ + t + ui::spaces(ui::room(TIME_W as nat, ui::cell_count(time))) + "  "@ + ui::dimmed(
        k,
        ui::filled_to(block_name(k, block), 6),
    ) + "  "@
}

/// Wall-clock time, plus the gap since the previous event, and the block.
pub fn stamp(k: &Skin, time: &str, block: u64) -> (r: String)
    ensures
        r@ == stamp_text(*k, time@, block),
{
    let (hm, gap): (String, String) = match text::split_once(time, ' ') {
        Some((a, b)) => (a, b),
        None => (time.to_owned(), "".to_owned()),
    };
    let mut t = ui::dim(k, hm.as_str());
    if !gap.as_str().is_empty() {
        t.append(" ");
        t.append(ui::dim(k, gap.as_str()).as_str());
    }
    let pad = ui::space(ui::left(TIME_W, ui::measure(time)) as u128);
    String::from_str("  ").concat(t.as_str()).concat(pad.as_str()).concat("  ").concat(
        ui::dim(k, ui::fill_to(block_id(k, block).as_str(), 6).as_str()).as_str(),
    ).concat("  ")
}

/// Lines under one another: the first behind `lead`, the others indented.
pub open spec fn hung(lines: Seq<Seq<char>>, lead: Seq<char>, indent: nat) -> Seq<Seq<char>> {
    Seq::new(
        lines.len(),
        |i: int|
            if i == 0 {
                lead + lines[i]
            } else {
                ui::spaces(indent) + lines[i]
            },
    )
}

pub(crate) fn hang_lines(lines: &Vec<String>, lead: &str, indent: u128) -> (r: String)
    ensures
        r@ == text::joined(hung(text::texts(lines@), lead@, indent as nat), "\n"@),
{
    let ghost want = hung(text::texts(lines@), lead@, indent as nat);
    let mut out = text::none();
    let mut i: usize = 0;
    assert(want.take(0) =~= Seq::<Seq<char>>::empty());
    while i < lines.len()
        invariant
            i <= lines.len(),
            want == hung(text::texts(lines@), lead@, indent as nat),
            text::texts(out@) == want.take(i as int),
        decreases lines.len() - i,
    {
        let one = if i == 0 {
            lead.to_owned().concat(lines[i].as_str())
        } else {
            ui::space(indent).concat(lines[i].as_str())
        };
        text::put(&mut out, one.as_str());
        assert(want.take(i + 1) =~= want.take(i as int).push(one@));
        i = i + 1;
    }
    assert(want.take(i as int) =~= want);
    text::join(&out, "\n")
}

pub open spec fn hanging(k: Skin, indent: nat, s: Seq<char>) -> Seq<char> {
    text::joined(
        hung(ui::wrapped_lines(s, ui::room_for(k.width as nat, indent, 20)), ""@, indent),
        "\n"@,
    )
}

/// Free text under a hanging left `indent`, wrapped to the terminal.
pub fn hang(k: &Skin, indent: u128, text: &str) -> (r: String)
    ensures
        r@ == hanging(*k, indent as nat, text@),
{
    let lines = ui::wrap(text, ui::left_or(k.width, indent, 20));
    hang_lines(&lines, "", indent)
}

/// A protocol observation: the effect in prose, wrapped to the terminal under
/// its own column.
pub open spec fn observed(k: Skin, time: Seq<char>, block: u64, said: Seq<char>) -> Seq<char> {
    text::joined(
        hung(
            ui::wrapped_lines(said, ui::room_for(k.width as nat, STAMP_W as nat, 20)),
            stamp_text(k, time, block),
            STAMP_W as nat,
        ),
        "\n"@,
    )
}

pub fn obs(k: &Skin, time: &str, block: u64, text: &str) -> (r: String)
    ensures
        r@ == observed(*k, time@, block, text@),
{
    let lines = ui::wrap(text, ui::left_or(k.width, STAMP_W as u128, 20));
    hang_lines(&lines, stamp(k, time, block).as_str(), STAMP_W as u128)
}

/// A verb with its glyph and its colour, so a scroll can be scanned by shape
/// alone.
pub open spec fn verb_text(k: Skin, glyph: Seq<char>, word: Seq<char>, c: Rgb) -> Seq<char> {
    ui::painted(k, c, glyph + " "@ + ui::shouted(k, word))
}

fn verb(k: &Skin, glyph: &str, word: &str, c: Rgb) -> (r: String)
    ensures
        r@ == verb_text(*k, glyph@, word@, c),
{
    ui::paint(
        k,
        c,
        glyph.to_owned().concat(" ").concat(ui::shout(k, word).as_str()).as_str(),
    )
}

pub fn claimed(k: &Skin) -> (r: String)
    ensures
        r@ == verb_text(*k, "◇"@, "claimed"@, k.theme.progress),
{
    verb(k, "◇", "claimed", k.theme.progress)
}

pub fn submitted(k: &Skin) -> (r: String)
    ensures
        r@ == verb_text(*k, "◆"@, "submitted"@, k.theme.progress),
{
    verb(k, "◆", "submitted", k.theme.progress)
}

pub fn closed(k: &Skin) -> (r: String)
    ensures
        r@ == verb_text(*k, "✓"@, "closed"@, k.theme.done),
{
    verb(k, "✓", "closed", k.theme.done)
}

pub fn nudged(k: &Skin) -> (r: String)
    ensures
        r@ == verb_text(*k, "↻"@, "nudged"@, k.theme.warm),
{
    verb(k, "↻", "nudged", k.theme.warm)
}

/// A capital letter.
pub open spec fn capital(c: char) -> bool {
    if (c as u32) < 128 {
        'A' <= c && c <= 'Z'
    } else {
        outside::is_capital(c)
    }
}

/// `s` with a space before every capital but the first character.
pub open spec fn spaced(s: Seq<char>) -> Seq<char>
    decreases s.len(),
{
    if s.len() == 0 {
        seq![]
    } else {
        let before = spaced(s.drop_last());
        if s.len() > 1 && capital(s.last()) {
            before + " "@ + seq![s.last()]
        } else {
            before + seq![s.last()]
        }
    }
}

/// Insert a space at each PascalCase word boundary: shouted as it is, a
/// directive's name would lose the case that marked the boundary.
pub fn split_words(s: &str) -> (out: String)
    ensures
        out@ == spaced(s@),
{
    let v = text::chars_of(s);
    let mut out = String::new();
    let mut i: usize = 0;
    assert(v@.take(0) =~= Seq::<char>::empty());
    while i < v.len()
        invariant
            i <= v.len(),
            out@ == spaced(v@.take(i as int)),
        decreases v.len() - i,
    {
        assert(v@.take(i + 1).drop_last() =~= v@.take(i as int));
        let ghost was = out@;
        if i > 0 && outside::is_upper(v[i]) {
            out.append(" ");
        }
        let ghost mid = out@;
        out.push(v[i]);
        assert(out@ =~= mid + seq![v@[i as int]]);
        i = i + 1;
    }
    assert(v@.take(i as int) =~= v@);
    out
}

pub open spec fn directive_text(k: Skin, what: Seq<char>) -> Seq<char> {
    ui::bolded(k, k.theme.alarm, "⚑ "@ + ui::shouted(k, spaced(what)))
}

pub fn directed(k: &Skin, what: &str) -> (r: String)
    ensures
        r@ == directive_text(*k, what@),
{
    let words = ui::shout(k, split_words(what).as_str());
    ui::bold(k, k.theme.alarm, String::from_str("⚑ ").concat(words.as_str()).as_str())
}

pub open spec fn mesh_text(k: Skin, text: Seq<char>) -> Seq<char> {
    "  "@ + ui::spaces(TIME_W as nat) + " "@ + ui::painted(
        k,
        k.theme.kuro,
        if k.theme.bracket_labels {
            "[网] MESH"@
        } else {
            "网 mesh"@
        },
    ) + "  "@ + text
}

/// A line about the mesh.
pub fn mesh(k: &Skin, text: &str) -> (r: String)
    ensures
        r@ == mesh_text(*k, text@),
{
    let tag = if k.theme.bracket_labels {
        "[网] MESH"
    } else {
        "网 mesh"
    };
    String::from_str("  ").concat(ui::space(TIME_W as u128).as_str()).concat(" ").concat(
        ui::paint(k, k.theme.kuro, tag).as_str(),
    ).concat("  ").concat(text)
}

// ---------------------------------------------------------------------
// Speech
// ---------------------------------------------------------------------

/// The header of what a cat said.
pub open spec fn speech_head(
    k: Skin,
    time: Seq<char>,
    block: u64,
    from: Seq<char>,
    to: Seq<char>,
    off_record: bool,
    note: Seq<char>,
) -> Seq<char> {
    let arrow = if to == "litter"@ {
        ui::dimmed(k, "→"@) + " "@ + ui::dimmed(k, "litter"@)
    } else {
        ui::dimmed(k, "→"@) + " "@ + ui::whom(k, to)
    };
    let otr = if off_record {
        "  "@ + ui::dimmed(k, "· off the record"@)
    } else {
        ""@
    };
    let extra = if note.len() == 0 {
        ""@
    } else {
        "  "@ + ui::dimmed(k, note)
    };
    ui::sealed_name(k, from) + " "@ + arrow + otr + extra + "   "@ + text::trimmed_start(
        stamp_text(k, time, block),
    )
}

pub open spec fn lit_lines(k: Skin, lines: Seq<Seq<char>>, roster: Seq<(Seq<char>, Seq<u8>)>) -> Seq<
    Seq<char>,
> {
    Seq::new(lines.len(), |i: int| ui::lit(k, lines[i], roster))
}

/// What stands at `i`, or nothing past the end.
pub open spec fn nth(v: Seq<Seq<char>>, i: int) -> Seq<char> {
    if i < v.len() {
        v[i]
    } else {
        ""@
    }
}

/// The avatar's rows and the message's, side by side.
pub open spec fn beside(art: Seq<Seq<char>>, rows: Seq<Seq<char>>) -> Seq<(Seq<char>, Seq<char>)> {
    let n = if rows.len() > art.len() {
        rows.len()
    } else {
        art.len()
    };
    Seq::new(n, |i: int| (ui::filled_to(nth(art, i), AVATAR_W as nat), nth(rows, i)))
}

/// What a cat said: each row of its avatar with the row of the message that
/// goes beside it.
pub open spec fn speech_rows(
    k: Skin,
    time: Seq<char>,
    block: u64,
    from: Seq<char>,
    to: Seq<char>,
    body: Seq<char>,
    roster: Seq<(Seq<char>, Seq<u8>)>,
    off_record: bool,
    note: Seq<char>,
    art: Seq<Seq<char>>,
) -> Seq<(Seq<char>, Seq<char>)> {
    let head = speech_head(k, time, block, from, to, off_record, note);
    let lines = ui::wrapped_lines(body, ui::room_for(k.width as nat, 25, 20));
    beside(art, seq![head] + lit_lines(k, lines, roster))
}

pub open spec fn pair_rows(v: Seq<(String, String)>) -> Seq<(Seq<char>, Seq<char>)> {
    Seq::new(v.len(), |i: int| (v[i].0@, v[i].1@))
}

fn text_at(v: &Vec<String>, i: usize) -> (r: String)
    ensures
        r@ == nth(text::texts(v@), i as int),
{
    if i < v.len() {
        v[i].clone()
    } else {
        "".to_owned()
    }
}

/// What a cat said, with a thread or tag note on the header row: each row of
/// its avatar with the row of the message that goes beside it. `art` is the
/// avatar.
pub fn said_ex(
    k: &Skin,
    time: &str,
    block: u64,
    from: &str,
    to: &str,
    body: &str,
    roster: &Roster,
    off_record: bool,
    note: &str,
    art: &Vec<String>,
) -> (r: Vec<(String, String)>)
    ensures
        pair_rows(r@) == speech_rows(
            *k,
            time@,
            block,
            from@,
            to@,
            body@,
            roster@,
            off_record,
            note@,
            text::texts(art@),
        ),
{
    let arrow = if text::same(to, "litter") {
        ui::dim(k, "→").concat(" ").concat(ui::dim(k, "litter").as_str())
    } else {
        ui::dim(k, "→").concat(" ").concat(ui::who(k, to).as_str())
    };
    let otr = if off_record {
        String::from_str("  ").concat(ui::dim(k, "· off the record").as_str())
    } else {
        "".to_owned()
    };
    let extra = if note.is_empty() {
        "".to_owned()
    } else {
        String::from_str("  ").concat(ui::dim(k, note).as_str())
    };
    let head = ui::sealed(k, from).concat(" ").concat(arrow.as_str()).concat(otr.as_str()).concat(
        extra.as_str(),
    ).concat("   ").concat(text::trim_start(stamp(k, time, block).as_str()).as_str());
    let lines = ui::wrap(body, ui::left_or(k.width, 25, 20));
    let ghost all = text::texts(lines@);
    let ghost want = seq![head@] + lit_lines(*k, all, roster@);
    let mut rows = text::none();
    text::put(&mut rows, head.as_str());
    assert(text::texts(rows@) =~= want.take(1));
    let mut i: usize = 0;
    while i < lines.len()
        invariant
            i <= lines.len(),
            all == text::texts(lines@),
            want == seq![head@] + lit_lines(*k, all, roster@),
            text::texts(rows@) == want.take(i + 1),
        decreases lines.len() - i,
    {
        let one = ui::tags(k, lines[i].as_str(), roster);
        text::put(&mut rows, one.as_str());
        assert(want[i + 1] == one@);
        assert(want.take(i + 2) =~= want.take(i + 1).push(one@));
        i = i + 1;
    }
    assert(want.take(i + 1) =~= want);
    let ghost shape = beside(text::texts(art@), want);
    let n: usize = if rows.len() > art.len() {
        rows.len()
    } else {
        art.len()
    };
    assert(rows@.len() == text::texts(rows@).len());
    let mut out: Vec<(String, String)> = Vec::new();
    let mut j: usize = 0;
    while j < n
        invariant
            j <= n,
            n == shape.len(),
            out.len() == j,
            text::texts(rows@) == want,
            shape == beside(text::texts(art@), want),
            forall|m: int| 0 <= m < j ==> ((#[trigger] out@[m]).0@, out@[m].1@) == shape[m],
        decreases n - j,
    {
        let a = ui::fill_to(text_at(art, j).as_str(), AVATAR_W);
        let b = text_at(&rows, j);
        out.push((a, b));
        j = j + 1;
    }
    assert(pair_rows(out@) =~= shape);
    out
}

/// A cat speaking. `off_record`: this one was never written to the block log.
pub fn said(
    k: &Skin,
    time: &str,
    block: u64,
    from: &str,
    to: &str,
    body: &str,
    roster: &Roster,
    off_record: bool,
    art: &Vec<String>,
) -> (r: Vec<(String, String)>)
    ensures
        pair_rows(r@) == speech_rows(
            *k,
            time@,
            block,
            from@,
            to@,
            body@,
            roster@,
            off_record,
            ""@,
            text::texts(art@),
        ),
{
    said_ex(k, time, block, from, to, body, roster, off_record, "", art)
}

pub open spec fn prompt_text(k: Skin, me: Seq<char>, target: Option<Seq<char>>) -> Seq<char> {
    let to = match target {
        Some(n) => if n == "litter"@ {
            ui::dimmed(k, "→"@) + " "@ + ui::painted(k, k.theme.paper, "猫群 litter"@) + " "@
        } else {
            ui::dimmed(k, "→"@) + " "@ + ui::sealed_name(k, n) + " "@
        },
        None => ""@,
    };
    ui::sealed_name(k, me) + " "@ + to + ui::painted(k, k.theme.accent, k.theme.prompt@) + " "@
}

pub open spec fn str_view(o: Option<&str>) -> Option<Seq<char>> {
    match o {
        Some(s) => Some(s@),
        None => None,
    }
}

/// The prompt as it stands for `target`: `根 root → 玉 tama ▸ `. Slash commands
/// have no target, so just `根 root ▸ `.
pub fn prompt(k: &Skin, me: &str, target: Option<&str>) -> (r: String)
    ensures
        r@ == prompt_text(*k, me@, str_view(target)),
{
    let to = match target {
        Some(n) => if text::same(n, "litter") {
            ui::dim(k, "→").concat(" ").concat(
                ui::paint(k, k.theme.paper, "猫群 litter").as_str(),
            ).concat(" ")
        } else {
            ui::dim(k, "→").concat(" ").concat(ui::sealed(k, n).as_str()).concat(" ")
        },
        None => "".to_owned(),
    };
    ui::sealed(k, me).concat(" ").concat(to.as_str()).concat(
        ui::paint(k, k.theme.accent, k.theme.prompt).as_str(),
    ).concat(" ")
}

pub open spec fn typed_text(
    k: Skin,
    me: Seq<char>,
    target: Option<Seq<char>>,
    line: Seq<char>,
    roster: Seq<(Seq<char>, Seq<u8>)>,
) -> Seq<char> {
    let p = prompt_text(k, me, target);
    let indent = 2 + ui::shown_cells(p);
    text::joined(
        hung(
            ui::wrapped_lines(
                ui::lit(k, line, roster),
                ui::room_for(k.width as nat, indent, 20),
            ),
            "  "@ + p,
            indent,
        ),
        "\n"@,
    )
}

/// What you typed, left in scrollback exactly where the composer stood, behind
/// its prompt.
pub fn typed(k: &Skin, me: &str, target: Option<&str>, line: &str, roster: &Roster) -> (r: String)
    ensures
        r@ == typed_text(*k, me@, str_view(target), line@, roster@),
{
    let p = prompt(k, me, target);
    let indent: u128 = 2 + ui::shown(p.as_str());
    let lines = ui::wrap(ui::tags(k, line, roster).as_str(), ui::left_or(k.width, indent, 20));
    hang_lines(&lines, String::from_str("  ").concat(p.as_str()).as_str(), indent)
}

pub open spec fn sealed_note(k: Skin, time: Seq<char>, block: u64, off_record: bool) -> Seq<char> {
    observed(
        k,
        time,
        block,
        ui::painted(
            k,
            k.theme.progress,
            if off_record {
                "↝ off the record — not sealed"@
            } else {
                "✓ sealed"@
            },
        ),
    )
}

/// The chain's word on a line already echoed: `✓ sealed` in its block, or that
/// an off-the-record one deliberately was not.
pub fn sealed_line(k: &Skin, time: &str, block: u64, off_record: bool) -> (r: String)
    ensures
        r@ == sealed_note(*k, time@, block, off_record),
{
    let note = if off_record {
        "↝ off the record — not sealed"
    } else {
        "✓ sealed"
    };
    obs(k, time, block, ui::paint(k, k.theme.progress, note).as_str())
}

pub open spec fn own_line(
    k: Skin,
    time: Seq<char>,
    block: u64,
    me: Seq<char>,
    to: Seq<char>,
    body: Seq<char>,
    roster: Seq<(Seq<char>, Seq<u8>)>,
    off_record: bool,
) -> Seq<char> {
    typed_text(k, me, Some(to), body, roster) + "\n"@ + sealed_note(k, time, block, off_record)
}

/// Your own line: the echo, then the chain's word on it.
pub fn me(
    k: &Skin,
    time: &str,
    block: u64,
    name: &str,
    to: &str,
    body: &str,
    roster: &Roster,
    off_record: bool,
) -> (r: String)
    ensures
        r@ == own_line(*k, time@, block, name@, to@, body@, roster@, off_record),
{
    typed(k, name, Some(to), body, roster).concat("\n").concat(
        sealed_line(k, time, block, off_record).as_str(),
    )
}

// ---------------------------------------------------------------------
// Effects
// ---------------------------------------------------------------------

/// `1 turn`, `2 turns`.
pub open spec fn plural(n: u64, one: Seq<char>, many: Seq<char>) -> Seq<char> {
    text::dec(n as nat) + " "@ + if n == 1 {
        one
    } else {
        many
    }
}

pub(crate) fn count_of(n: u64, one: &str, many: &str) -> (r: String)
    ensures
        r@ == plural(n, one@, many@),
{
    let word = if n == 1 {
        one
    } else {
        many
    };
    text::number(n).concat(" ").concat(word)
}

pub open spec fn num_or_0(v: Json, key: Seq<char>) -> u64 {
    match json::num_at(v, key) {
        Some(n) => n,
        None => 0,
    }
}

pub open spec fn stats_parts(v: Json) -> Seq<Seq<char>> {
    let s0 = seq![
        plural(num_or_0(v, "turns"@), "turn"@, "turns"@),
        plural(num_or_0(v, "tool_calls"@), "tool call"@, "tool calls"@),
    ];
    let s1 = match json::num_at(v, "messages"@) {
        Some(m) => s0.push(plural(m, "message"@, "messages"@)),
        None => s0,
    };
    s1.push(figures::grouped(text::dec(num_or_0(v, "tokens"@) as nat)) + " tok"@).push(
        figures::human_text((num_or_0(v, "ms"@) / 1000) as nat) + " thinking"@,
    )
}

pub(crate) fn number_or_0(v: &Json, key: &str) -> (r: u64)
    ensures
        r == num_or_0(*v, key@),
{
    match v.num(key) {
        Some(n) => n,
        None => 0,
    }
}

/// One cat's cumulative stats as a phrase. `messages` is left out where the
/// reporter did not count them apart, rather than shown as a misleading zero.
pub fn stats_phrase(v: &Json) -> (r: String)
    ensures
        r@ == text::joined(stats_parts(*v), " · "@),
{
    let mut parts = text::none();
    text::put(&mut parts, count_of(number_or_0(v, "turns"), "turn", "turns").as_str());
    text::put(
        &mut parts,
        count_of(number_or_0(v, "tool_calls"), "tool call", "tool calls").as_str(),
    );
    assert(text::texts(parts@) =~= seq![
        plural(num_or_0(*v, "turns"@), "turn"@, "turns"@),
        plural(num_or_0(*v, "tool_calls"@), "tool call"@, "tool calls"@),
    ]);
    match v.num("messages") {
        Some(m) => text::put(&mut parts, count_of(m, "message", "messages").as_str()),
        None => {},
    }
    text::put(
        &mut parts,
        figures::thousands(number_or_0(v, "tokens")).concat(" tok").as_str(),
    );
    text::put(
        &mut parts,
        figures::human(number_or_0(v, "ms") / 1000).concat(" thinking").as_str(),
    );
    text::join(&parts, " · ")
}

/// An account's name in a roster, or the text as it is where it is not an
/// account.
pub open spec fn named_hex(s: Seq<char>, roster: Seq<(Seq<char>, Seq<u8>)>) -> Seq<char> {
    match keys::account_in(s) {
        Some(a) => common::name_for(roster, a),
        None => s,
    }
}

pub open spec fn name_in(eff: Json, field: Seq<char>, roster: Seq<(Seq<char>, Seq<u8>)>) -> Seq<
    char,
> {
    match json::text_at(eff, field) {
        Some(s) => named_hex(s, roster),
        None => "?"@,
    }
}

/// An account field, resolved through the roster; `?` when there is none.
pub fn name_of(eff: &Json, field: &str, roster: &Roster) -> (r: String)
    ensures
        r@ == name_in(*eff, field@, roster@),
{
    match eff.text(field) {
        Some(s) => match keys::from_hex(s.as_str()) {
            Some(a) => roster.name_of(&a),
            None => s,
        },
        None => "?".to_owned(),
    }
}

/// The text under `key`, or `other`.
pub open spec fn text_or(eff: Json, key: Seq<char>, other: Seq<char>) -> Seq<char> {
    match json::text_at(eff, key) {
        Some(s) => s,
        None => other,
    }
}

pub(crate) fn word_or(eff: &Json, key: &str, other: &str) -> (r: String)
    ensures
        r@ == text_or(*eff, key@, other@),
{
    match eff.text(key) {
        Some(s) => s,
        None => other.to_owned(),
    }
}

/// The value under `key` as JSON.
pub open spec fn raw_at(eff: Json, key: Seq<char>) -> Seq<char> {
    match json::at(eff, key) {
        Some(v) => json::printed(v),
        None => "null"@,
    }
}

pub(crate) fn raw_of(eff: &Json, key: &str) -> (r: String)
    ensures
        r@ == raw_at(*eff, key@),
{
    match eff.get(key) {
        Some(v) => v.print(),
        None => "null".to_owned(),
    }
}

/// The tags that are texts, each after a `#`, behind `note`.
pub open spec fn with_tags(note: Seq<char>, tags: Seq<Json>) -> Seq<char>
    decreases tags.len(),
{
    if tags.len() == 0 {
        note
    } else {
        let before = with_tags(note, tags.drop_last());
        match json::as_text(tags.last()) {
            Some(t) => (if before.len() > 0 {
                before + " · "@
            } else {
                before
            }) + "#"@ + t,
            None => before,
        }
    }
}

/// A message's thread and topic tags.
pub open spec fn thread_note(eff: Json) -> Seq<char> {
    let start = match json::text_at(eff, "parent"@) {
        Some(p) => "↩ #"@ + p,
        None => match json::text_at(eff, "id"@) {
            Some(id) => "#"@ + id,
            None => ""@,
        },
    };
    with_tags(start, json::items_at(eff, "tags"@))
}

fn note_of(eff: &Json) -> (r: String)
    ensures
        r@ == thread_note(*eff),
{
    let mut note = match eff.text("parent") {
        Some(p) => String::from_str("↩ #").concat(p.as_str()),
        None => match eff.text("id") {
            Some(id) => String::from_str("#").concat(id.as_str()),
            None => "".to_owned(),
        },
    };
    let ghost start = note@;
    match eff.items("tags") {
        Some(v) => {
            let mut i: usize = 0;
            assert(v@.take(0) =~= Seq::<Json>::empty());
            while i < v.len()
                invariant
                    i <= v.len(),
                    note@ == with_tags(start, v@.take(i as int)),
                decreases v.len() - i,
            {
                assert(v@.take(i + 1).drop_last() =~= v@.take(i as int));
                match v[i].as_str() {
                    Some(t) => {
                        if !note.as_str().is_empty() {
                            note.append(" · ");
                        }
                        note.append("#");
                        note.append(t);
                    },
                    None => {},
                }
                i = i + 1;
            }
            assert(v@.take(i as int) =~= v@);
        },
        None => {},
    }
    note
}

/// How an effect is shown.
#[derive(Debug)]
pub enum Shown {
    /// As it stands.
    Text(String),
    /// As speech: the speaker, and the avatar's rows with the message's.
    Speech { from: String, rows: Vec<(String, String)> },
}

pub enum ShownView {
    Text(Seq<char>),
    Speech { from: Seq<char>, rows: Seq<(Seq<char>, Seq<char>)> },
}

impl View for Shown {
    type V = ShownView;

    open spec fn view(&self) -> ShownView {
        match *self {
            Shown::Text(s) => ShownView::Text(s@),
            Shown::Speech { from, rows } => ShownView::Speech {
                from: from@,
                rows: pair_rows(rows@),
            },
        }
    }
}

/// Whom an effect was said to.
pub open spec fn addressee(eff: Json, roster: Seq<(Seq<char>, Seq<u8>)>) -> Seq<char> {
    if json::set_at(eff, "to"@) {
        name_in(eff, "to"@, roster)
    } else {
        "litter"@
    }
}

/// The prose of an effect that is not speech.
pub open spec fn prose(k: Skin, eff: Json, roster: Seq<(Seq<char>, Seq<u8>)>) -> Seq<char> {
    let kind = json::words_at(eff, "t"@);
    let id = ui::painted(k, k.theme.done, text_or(eff, "task"@, "?"@));
    if kind == "opened"@ {
        ui::whom(k, name_in(eff, "who"@, roster)) + " opened "@ + id + ": "@ + ui::plained(
            k,
            json::words_at(eff, "text"@),
        )
    } else if kind == "planned"@ {
        ui::whom(k, name_in(eff, "who"@, roster)) + " planned "@ + id + " into "@ + ui::plained(
            k,
            raw_at(eff, "count"@),
        ) + " subtasks"@
    } else if kind == "assigned"@ {
        id + " assigned to "@ + ui::whom(k, name_in(eff, "to"@, roster)) + ": "@ + ui::dimmed(
            k,
            json::words_at(eff, "what"@),
        )
    } else if kind == "directed"@ {
        ui::whom(k, name_in(eff, "to"@, roster)) + " directed on "@ + id + ": "@ + directive_text(
            k,
            text_or(eff, "directive"@, "?"@),
        )
    } else if kind == "nudge"@ {
        ui::whom(k, name_in(eff, "to"@, roster)) + " "@ + verb_text(
            k,
            "↻"@,
            "nudged"@,
            k.theme.warm,
        ) + " "@ + id + " "@ + ui::dimmed(
            k,
            "("@ + raw_at(eff, "remaining"@) + " left"@ + (if json::flag_at(eff, "last"@) {
                ", last"@
            } else {
                ""@
            }) + ")"@,
        )
    } else if kind == "record"@ {
        let act = text_or(eff, "act"@, "?"@);
        let v = if act == "claimed"@ {
            verb_text(k, "◇"@, "claimed"@, k.theme.progress)
        } else if act == "submitted"@ {
            verb_text(k, "◆"@, "submitted"@, k.theme.progress)
        } else {
            verb_text(k, "·"@, act, k.theme.progress)
        };
        let t = json::words_at(eff, "text"@);
        ui::whom(k, name_in(eff, "who"@, roster)) + " "@ + v + " "@ + id + (if t.len() == 0 {
            ""@
        } else {
            ": "@ + ui::dimmed(k, t)
        })
    } else if kind == "requeued"@ {
        id + " requeued from "@ + ui::whom(k, name_in(eff, "from"@, roster)) + ": "@ + ui::dimmed(
            k,
            text_or(eff, "why"@, "?"@),
        )
    } else if kind == "budget_spent"@ {
        ui::whom(k, name_in(eff, "holder"@, roster)) + " spent its nudge budget on "@ + id
    } else if kind == "closed"@ {
        id + " "@ + verb_text(k, "✓"@, "closed"@, k.theme.done) + " by "@ + ui::whom(
            k,
            name_in(eff, "author"@, roster),
        ) + ": "@ + ui::plained(k, json::words_at(eff, "title"@))
    } else if kind == "failed"@ {
        id + " "@ + ui::bolded(k, k.theme.alarm, "✗ failed"@)
    } else if kind == "rehomed"@ {
        id + " rehomed from "@ + ui::whom(k, name_in(eff, "from"@, roster)) + " to "@ + ui::whom(
            k,
            name_in(eff, "to"@, roster),
        )
    } else if kind == "standalone_artifact"@ {
        ui::whom(k, name_in(eff, "author"@, roster)) + " published "@ + ui::painted(
            k,
            k.theme.done,
            "▤ artifact"@,
        ) + " "@ + ui::painted(
            k,
            k.theme.done,
            match json::text_at(eff, "id"@) {
                Some(s) => s,
                None => raw_at(eff, "id"@),
            },
        ) + ": "@ + ui::plained(k, json::words_at(eff, "title"@))
    } else if kind == "stats_reported"@ {
        ui::whom(k, name_in(eff, "who"@, roster)) + " "@ + ui::dimmed(k, "∑"@) + " "@ + ui::dimmed(
            k,
            text::joined(stats_parts(eff), " · "@),
        )
    } else if kind == "reacted"@ {
        ui::whom(k, name_in(eff, "who"@, roster)) + " reacted "@ + ui::plained(
            k,
            text_or(eff, "emoji"@, "·"@),
        ) + " on #"@ + text_or(eff, "target"@, "?"@)
    } else if kind == "voted"@ {
        ui::whom(k, name_in(eff, "who"@, roster)) + " voted "@ + (if json::flag_at(eff, "up"@) {
            ui::painted(k, k.theme.done, "▲"@)
        } else {
            ui::painted(k, k.theme.alarm, "▼"@)
        }) + " §"@ + text_or(eff, "artifact"@, "?"@)
    } else {
        ui::dimmed(k, kind) + " "@ + ui::fainted(k, json::printed(eff))
    }
}

/// An effect as it is shown.
pub open spec fn rendered(
    k: Skin,
    time: Seq<char>,
    block: u64,
    eff: Json,
    roster: Seq<(Seq<char>, Seq<u8>)>,
    me_name: Seq<char>,
    art: Seq<Seq<char>>,
) -> ShownView {
    let kind = json::words_at(eff, "t"@);
    if kind == "said"@ || kind == "message"@ {
        let from = name_in(eff, "from"@, roster);
        let to = addressee(eff, roster);
        let off = json::flag_at(eff, "off_record"@);
        let body = json::words_at(eff, "body"@);
        let note = if kind == "said"@ {
            ""@
        } else {
            thread_note(eff)
        };
        if from == me_name {
            let base = own_line(k, time, block, me_name, to, body, roster, off);
            ShownView::Text(
                if note.len() == 0 {
                    base
                } else {
                    base + " "@ + ui::dimmed(k, "("@ + note + ")"@)
                },
            )
        } else {
            ShownView::Speech {
                from,
                rows: speech_rows(k, time, block, from, to, body, roster, off, note, art),
            }
        }
    } else {
        ShownView::Text(observed(k, time, block, prose(k, eff, roster)))
    }
}

fn who_in(k: &Skin, eff: &Json, field: &str, roster: &Roster) -> (r: String)
    ensures
        r@ == ui::whom(*k, name_in(*eff, field@, roster@)),
{
    ui::who(k, name_of(eff, field, roster).as_str())
}

#[verifier::rlimit(40)]
fn prose_of(k: &Skin, eff: &Json, roster: &Roster) -> (r: String)
    ensures
        r@ == prose(*k, *eff, roster@),
{
    let kind_text = eff.words("t");
    let kind = kind_text.as_str();
    let id = ui::task(k, word_or(eff, "task", "?").as_str());
    if text::same(kind, "opened") {
        return who_in(k, eff, "who", roster).concat(" opened ").concat(id.as_str()).concat(
            ": ",
        ).concat(ui::plain(k, eff.words("text").as_str()).as_str());
    }
    if text::same(kind, "planned") {
        return who_in(k, eff, "who", roster).concat(" planned ").concat(id.as_str()).concat(
            " into ",
        ).concat(ui::plain(k, raw_of(eff, "count").as_str()).as_str()).concat(" subtasks");
    }
    if text::same(kind, "assigned") {
        return id.concat(" assigned to ").concat(who_in(k, eff, "to", roster).as_str()).concat(
            ": ",
        ).concat(ui::dim(k, eff.words("what").as_str()).as_str());
    }
    if text::same(kind, "directed") {
        return who_in(k, eff, "to", roster).concat(" directed on ").concat(id.as_str()).concat(
            ": ",
        ).concat(directed(k, word_or(eff, "directive", "?").as_str()).as_str());
    }
    if text::same(kind, "nudge") {
        let last = if eff.flag("last") {
            ", last"
        } else {
            ""
        };
        let count = String::from_str("(").concat(raw_of(eff, "remaining").as_str()).concat(
            " left",
        ).concat(last).concat(")");
        return who_in(k, eff, "to", roster).concat(" ").concat(nudged(k).as_str()).concat(
            " ",
        ).concat(id.as_str()).concat(" ").concat(ui::dim(k, count.as_str()).as_str());
    }
    if text::same(kind, "record") {
        let act = word_or(eff, "act", "?");
        let v = if text::same(act.as_str(), "claimed") {
            claimed(k)
        } else if text::same(act.as_str(), "submitted") {
            submitted(k)
        } else {
            verb(k, "·", act.as_str(), k.theme.progress)
        };
        let t = eff.words("text");
        let suffix = if t.as_str().is_empty() {
            "".to_owned()
        } else {
            String::from_str(": ").concat(ui::dim(k, t.as_str()).as_str())
        };
        return who_in(k, eff, "who", roster).concat(" ").concat(v.as_str()).concat(" ").concat(
            id.as_str(),
        ).concat(suffix.as_str());
    }
    if text::same(kind, "requeued") {
        return id.concat(" requeued from ").concat(who_in(k, eff, "from", roster).as_str()).concat(
            ": ",
        ).concat(ui::dim(k, word_or(eff, "why", "?").as_str()).as_str());
    }
    if text::same(kind, "budget_spent") {
        return who_in(k, eff, "holder", roster).concat(" spent its nudge budget on ").concat(
            id.as_str(),
        );
    }
    if text::same(kind, "closed") {
        return id.concat(" ").concat(closed(k).as_str()).concat(" by ").concat(
            who_in(k, eff, "author", roster).as_str(),
        ).concat(": ").concat(ui::plain(k, eff.words("title").as_str()).as_str());
    }
    if text::same(kind, "failed") {
        return id.concat(" ").concat(ui::bold(k, k.theme.alarm, "✗ failed").as_str());
    }
    if text::same(kind, "rehomed") {
        return id.concat(" rehomed from ").concat(who_in(k, eff, "from", roster).as_str()).concat(
            " to ",
        ).concat(who_in(k, eff, "to", roster).as_str());
    }
    if text::same(kind, "standalone_artifact") {
        let name = match eff.text("id") {
            Some(s) => s,
            None => raw_of(eff, "id"),
        };
        return who_in(k, eff, "author", roster).concat(" published ").concat(
            ui::paint(k, k.theme.done, "▤ artifact").as_str(),
        ).concat(" ").concat(ui::task(k, name.as_str()).as_str()).concat(": ").concat(
            ui::plain(k, eff.words("title").as_str()).as_str(),
        );
    }
    if text::same(kind, "stats_reported") {
        return who_in(k, eff, "who", roster).concat(" ").concat(ui::dim(k, "∑").as_str()).concat(
            " ",
        ).concat(ui::dim(k, stats_phrase(eff).as_str()).as_str());
    }
    if text::same(kind, "reacted") {
        return who_in(k, eff, "who", roster).concat(" reacted ").concat(
            ui::plain(k, word_or(eff, "emoji", "·").as_str()).as_str(),
        ).concat(" on #").concat(word_or(eff, "target", "?").as_str());
    }
    if text::same(kind, "voted") {
        let mark = if eff.flag("up") {
            ui::paint(k, k.theme.done, "▲")
        } else {
            ui::paint(k, k.theme.alarm, "▼")
        };
        return who_in(k, eff, "who", roster).concat(" voted ").concat(mark.as_str()).concat(
            " §",
        ).concat(word_or(eff, "artifact", "?").as_str());
    }
    ui::dim(k, kind).concat(" ").concat(ui::faint(k, eff.print().as_str()).as_str())
}

/// One effect, in the protocol's own words and the skin's colours. `me_name` is
/// whoever we are signed in as, so our own lines are shown as ours. `art` is
/// the avatar beside what others say.
pub fn render(
    k: &Skin,
    time: &str,
    block: u64,
    eff: &Json,
    roster: &Roster,
    me_name: &str,
    art: &Vec<String>,
) -> (r: Shown)
    ensures
        r@ == rendered(*k, time@, block, *eff, roster@, me_name@, text::texts(art@)),
{
    let kind = eff.words("t");
    let plain_said = text::same(kind.as_str(), "said");
    if plain_said || text::same(kind.as_str(), "message") {
        let from = name_of(eff, "from", roster);
        let to = if eff.is_set("to") {
            name_of(eff, "to", roster)
        } else {
            "litter".to_owned()
        };
        let off = eff.flag("off_record");
        let body = eff.words("body");
        let note = if plain_said {
            "".to_owned()
        } else {
            note_of(eff)
        };
        if text::same(from.as_str(), me_name) {
            let base = me(
                k,
                time,
                block,
                me_name,
                to.as_str(),
                body.as_str(),
                roster,
                off,
            );
            if note.as_str().is_empty() {
                return Shown::Text(base);
            }
            let tail = String::from_str("(").concat(note.as_str()).concat(")");
            return Shown::Text(base.concat(" ").concat(ui::dim(k, tail.as_str()).as_str()));
        }
        let rows = said_ex(
            k,
            time,
            block,
            from.as_str(),
            to.as_str(),
            body.as_str(),
            roster,
            off,
            note.as_str(),
            art,
        );
        return Shown::Speech { from, rows };
    }
    Shown::Text(obs(k, time, block, prose_of(k, eff, roster).as_str()))
}

// ---------------------------------------------------------------------
// What a line of the scroll shows
// ---------------------------------------------------------------------

/// A task that was opened is shown with who opened it, its name and its
/// text.
pub proof fn an_opening_is_shown(
    k: Skin,
    eff: Json,
    roster: Seq<(Seq<char>, Seq<u8>)>,
)
    requires
        json::words_at(eff, "t"@) == "opened"@,
    ensures
        text::has(prose(k, eff, roster), name_in(eff, "who"@, roster)),
        text::has(prose(k, eff, roster), text_or(eff, "task"@, "?"@)),
        text::has(prose(k, eff, roster), json::words_at(eff, "text"@)),
{
    reveal_strlit("opened");
    assert("opened"@.len() == 6);
    let a = ui::whom(k, name_in(eff, "who"@, roster));
    let b = " opened "@;
    let c = ui::painted(k, k.theme.done, text_or(eff, "task"@, "?"@));
    let d = ": "@;
    let e = ui::plained(k, json::words_at(eff, "text"@));
    let whole = a + b + c + d + e;
    assert(prose(k, eff, roster) == whole);
    assert(text::has(whole, name_in(eff, "who"@, roster))) by {
        text::lemma_has_self(a);
        text::lemma_has_left(a, b, a);
        text::lemma_has_left(a + b, c, a);
        text::lemma_has_left(a + b + c, d, a);
        text::lemma_has_left(a + b + c + d, e, a);
        ui::a_cat_is_shown_by_name(k, name_in(eff, "who"@, roster));
        text::lemma_has_through(whole, a, name_in(eff, "who"@, roster));
    }
    assert(text::has(whole, text_or(eff, "task"@, "?"@))) by {
        text::lemma_has_self(c);
        text::lemma_has_right(a + b, c, c);
        text::lemma_has_left(a + b + c, d, c);
        text::lemma_has_left(a + b + c + d, e, c);
        ui::what_is_painted_is_shown(k, k.theme.done, text_or(eff, "task"@, "?"@));
        text::lemma_has_through(whole, c, text_or(eff, "task"@, "?"@));
    }
    assert(text::has(whole, json::words_at(eff, "text"@))) by {
        text::lemma_has_self(e);
        text::lemma_has_right(a + b + c + d, e, e);
        ui::what_is_painted_is_shown(k, k.theme.done, json::words_at(eff, "text"@));
        text::lemma_has_through(whole, e, json::words_at(eff, "text"@));
    }
}

/// A plan is shown with whose it is, its task and how many parts it has.
pub proof fn a_plan_is_shown(
    k: Skin,
    eff: Json,
    roster: Seq<(Seq<char>, Seq<u8>)>,
)
    requires
        json::words_at(eff, "t"@) == "planned"@,
    ensures
        text::has(prose(k, eff, roster), name_in(eff, "who"@, roster)),
        text::has(prose(k, eff, roster), text_or(eff, "task"@, "?"@)),
        text::has(prose(k, eff, roster), raw_at(eff, "count"@)),
{
    reveal_strlit("opened");
    reveal_strlit("planned");
    assert("opened"@.len() == 6);
    assert("planned"@.len() == 7);
    let a = ui::whom(k, name_in(eff, "who"@, roster));
    let b = " planned "@;
    let c = ui::painted(k, k.theme.done, text_or(eff, "task"@, "?"@));
    let d = " into "@;
    let e = ui::plained(k, raw_at(eff, "count"@));
    let f = " subtasks"@;
    let whole = a + b + c + d + e + f;
    assert(prose(k, eff, roster) == whole);
    assert(text::has(whole, name_in(eff, "who"@, roster))) by {
        text::lemma_has_self(a);
        text::lemma_has_left(a, b, a);
        text::lemma_has_left(a + b, c, a);
        text::lemma_has_left(a + b + c, d, a);
        text::lemma_has_left(a + b + c + d, e, a);
        text::lemma_has_left(a + b + c + d + e, f, a);
        ui::a_cat_is_shown_by_name(k, name_in(eff, "who"@, roster));
        text::lemma_has_through(whole, a, name_in(eff, "who"@, roster));
    }
    assert(text::has(whole, text_or(eff, "task"@, "?"@))) by {
        text::lemma_has_self(c);
        text::lemma_has_right(a + b, c, c);
        text::lemma_has_left(a + b + c, d, c);
        text::lemma_has_left(a + b + c + d, e, c);
        text::lemma_has_left(a + b + c + d + e, f, c);
        ui::what_is_painted_is_shown(k, k.theme.done, text_or(eff, "task"@, "?"@));
        text::lemma_has_through(whole, c, text_or(eff, "task"@, "?"@));
    }
    assert(text::has(whole, raw_at(eff, "count"@))) by {
        text::lemma_has_self(e);
        text::lemma_has_right(a + b + c + d, e, e);
        text::lemma_has_left(a + b + c + d + e, f, e);
        ui::what_is_painted_is_shown(k, k.theme.done, raw_at(eff, "count"@));
        text::lemma_has_through(whole, e, raw_at(eff, "count"@));
    }
}

/// An assignment is shown with its task, whom it goes to and what is asked.
pub proof fn an_assignment_is_shown(
    k: Skin,
    eff: Json,
    roster: Seq<(Seq<char>, Seq<u8>)>,
)
    requires
        json::words_at(eff, "t"@) == "assigned"@,
    ensures
        text::has(prose(k, eff, roster), text_or(eff, "task"@, "?"@)),
        text::has(prose(k, eff, roster), name_in(eff, "to"@, roster)),
        text::has(prose(k, eff, roster), json::words_at(eff, "what"@)),
{
    reveal_strlit("opened");
    reveal_strlit("planned");
    reveal_strlit("assigned");
    assert("opened"@.len() == 6);
    assert("planned"@.len() == 7);
    assert("assigned"@.len() == 8);
    let a = ui::painted(k, k.theme.done, text_or(eff, "task"@, "?"@));
    let b = " assigned to "@;
    let c = ui::whom(k, name_in(eff, "to"@, roster));
    let d = ": "@;
    let e = ui::dimmed(k, json::words_at(eff, "what"@));
    let whole = a + b + c + d + e;
    assert(prose(k, eff, roster) == whole);
    assert(text::has(whole, text_or(eff, "task"@, "?"@))) by {
        text::lemma_has_self(a);
        text::lemma_has_left(a, b, a);
        text::lemma_has_left(a + b, c, a);
        text::lemma_has_left(a + b + c, d, a);
        text::lemma_has_left(a + b + c + d, e, a);
        ui::what_is_painted_is_shown(k, k.theme.done, text_or(eff, "task"@, "?"@));
        text::lemma_has_through(whole, a, text_or(eff, "task"@, "?"@));
    }
    assert(text::has(whole, name_in(eff, "to"@, roster))) by {
        text::lemma_has_self(c);
        text::lemma_has_right(a + b, c, c);
        text::lemma_has_left(a + b + c, d, c);
        text::lemma_has_left(a + b + c + d, e, c);
        ui::a_cat_is_shown_by_name(k, name_in(eff, "to"@, roster));
        text::lemma_has_through(whole, c, name_in(eff, "to"@, roster));
    }
    assert(text::has(whole, json::words_at(eff, "what"@))) by {
        text::lemma_has_self(e);
        text::lemma_has_right(a + b + c + d, e, e);
        ui::what_is_painted_is_shown(k, k.theme.done, json::words_at(eff, "what"@));
        text::lemma_has_through(whole, e, json::words_at(eff, "what"@));
    }
}

/// A task that was put back is shown with whom it was taken from and why.
pub proof fn a_requeued_task_is_shown(
    k: Skin,
    eff: Json,
    roster: Seq<(Seq<char>, Seq<u8>)>,
)
    requires
        json::words_at(eff, "t"@) == "requeued"@,
    ensures
        text::has(prose(k, eff, roster), text_or(eff, "task"@, "?"@)),
        text::has(prose(k, eff, roster), name_in(eff, "from"@, roster)),
        text::has(prose(k, eff, roster), text_or(eff, "why"@, "?"@)),
{
    reveal_strlit("opened");
    reveal_strlit("planned");
    reveal_strlit("assigned");
    reveal_strlit("directed");
    reveal_strlit("nudge");
    reveal_strlit("record");
    reveal_strlit("requeued");
    assert("opened"@.len() == 6);
    assert("planned"@.len() == 7);
    assert("assigned"@.len() == 8);
    assert("directed"@.len() == 8);
    assert("nudge"@.len() == 5);
    assert("record"@.len() == 6);
    assert("requeued"@.len() == 8);
    assert("assigned"@[0] == 'a');
    assert("directed"@[0] == 'd');
    assert("opened"@[0] == 'o');
    assert("record"@[0] == 'r');
    assert("requeued"@[0] == 'r');
    let a = ui::painted(k, k.theme.done, text_or(eff, "task"@, "?"@));
    let b = " requeued from "@;
    let c = ui::whom(k, name_in(eff, "from"@, roster));
    let d = ": "@;
    let e = ui::dimmed(k, text_or(eff, "why"@, "?"@));
    let whole = a + b + c + d + e;
    assert(prose(k, eff, roster) == whole);
    assert(text::has(whole, text_or(eff, "task"@, "?"@))) by {
        text::lemma_has_self(a);
        text::lemma_has_left(a, b, a);
        text::lemma_has_left(a + b, c, a);
        text::lemma_has_left(a + b + c, d, a);
        text::lemma_has_left(a + b + c + d, e, a);
        ui::what_is_painted_is_shown(k, k.theme.done, text_or(eff, "task"@, "?"@));
        text::lemma_has_through(whole, a, text_or(eff, "task"@, "?"@));
    }
    assert(text::has(whole, name_in(eff, "from"@, roster))) by {
        text::lemma_has_self(c);
        text::lemma_has_right(a + b, c, c);
        text::lemma_has_left(a + b + c, d, c);
        text::lemma_has_left(a + b + c + d, e, c);
        ui::a_cat_is_shown_by_name(k, name_in(eff, "from"@, roster));
        text::lemma_has_through(whole, c, name_in(eff, "from"@, roster));
    }
    assert(text::has(whole, text_or(eff, "why"@, "?"@))) by {
        text::lemma_has_self(e);
        text::lemma_has_right(a + b + c + d, e, e);
        ui::what_is_painted_is_shown(k, k.theme.done, text_or(eff, "why"@, "?"@));
        text::lemma_has_through(whole, e, text_or(eff, "why"@, "?"@));
    }
}

/// A spent budget is shown with whose it was, and of which task.
pub proof fn a_spent_budget_is_shown(
    k: Skin,
    eff: Json,
    roster: Seq<(Seq<char>, Seq<u8>)>,
)
    requires
        json::words_at(eff, "t"@) == "budget_spent"@,
    ensures
        text::has(prose(k, eff, roster), name_in(eff, "holder"@, roster)),
        text::has(prose(k, eff, roster), text_or(eff, "task"@, "?"@)),
{
    reveal_strlit("opened");
    reveal_strlit("planned");
    reveal_strlit("assigned");
    reveal_strlit("directed");
    reveal_strlit("nudge");
    reveal_strlit("record");
    reveal_strlit("requeued");
    reveal_strlit("budget_spent");
    assert("opened"@.len() == 6);
    assert("planned"@.len() == 7);
    assert("assigned"@.len() == 8);
    assert("directed"@.len() == 8);
    assert("nudge"@.len() == 5);
    assert("record"@.len() == 6);
    assert("requeued"@.len() == 8);
    assert("budget_spent"@.len() == 12);
    assert("assigned"@[0] == 'a');
    assert("directed"@[0] == 'd');
    assert("opened"@[0] == 'o');
    assert("record"@[0] == 'r');
    assert("requeued"@[0] == 'r');
    let a = ui::whom(k, name_in(eff, "holder"@, roster));
    let b = " spent its nudge budget on "@;
    let c = ui::painted(k, k.theme.done, text_or(eff, "task"@, "?"@));
    let whole = a + b + c;
    assert(prose(k, eff, roster) == whole);
    assert(text::has(whole, name_in(eff, "holder"@, roster))) by {
        text::lemma_has_self(a);
        text::lemma_has_left(a, b, a);
        text::lemma_has_left(a + b, c, a);
        ui::a_cat_is_shown_by_name(k, name_in(eff, "holder"@, roster));
        text::lemma_has_through(whole, a, name_in(eff, "holder"@, roster));
    }
    assert(text::has(whole, text_or(eff, "task"@, "?"@))) by {
        text::lemma_has_self(c);
        text::lemma_has_right(a + b, c, c);
        ui::what_is_painted_is_shown(k, k.theme.done, text_or(eff, "task"@, "?"@));
        text::lemma_has_through(whole, c, text_or(eff, "task"@, "?"@));
    }
}

/// A task that was closed is shown with who wrote it up, and its title.
pub proof fn a_closed_task_is_shown(
    k: Skin,
    eff: Json,
    roster: Seq<(Seq<char>, Seq<u8>)>,
)
    requires
        json::words_at(eff, "t"@) == "closed"@,
    ensures
        text::has(prose(k, eff, roster), text_or(eff, "task"@, "?"@)),
        text::has(prose(k, eff, roster), name_in(eff, "author"@, roster)),
        text::has(prose(k, eff, roster), json::words_at(eff, "title"@)),
{
    reveal_strlit("opened");
    reveal_strlit("planned");
    reveal_strlit("assigned");
    reveal_strlit("directed");
    reveal_strlit("nudge");
    reveal_strlit("record");
    reveal_strlit("requeued");
    reveal_strlit("budget_spent");
    reveal_strlit("closed");
    assert("opened"@.len() == 6);
    assert("planned"@.len() == 7);
    assert("assigned"@.len() == 8);
    assert("directed"@.len() == 8);
    assert("nudge"@.len() == 5);
    assert("record"@.len() == 6);
    assert("requeued"@.len() == 8);
    assert("budget_spent"@.len() == 12);
    assert("closed"@.len() == 6);
    assert("assigned"@[0] == 'a');
    assert("closed"@[0] == 'c');
    assert("directed"@[0] == 'd');
    assert("opened"@[0] == 'o');
    assert("record"@[0] == 'r');
    assert("requeued"@[0] == 'r');
    let a = ui::painted(k, k.theme.done, text_or(eff, "task"@, "?"@));
    let b = " "@;
    let c = verb_text(k, "✓"@, "closed"@, k.theme.done);
    let d = " by "@;
    let e = ui::whom(k, name_in(eff, "author"@, roster));
    let f = ": "@;
    let g = ui::plained(k, json::words_at(eff, "title"@));
    let whole = a + b + c + d + e + f + g;
    assert(prose(k, eff, roster) == whole);
    assert(text::has(whole, text_or(eff, "task"@, "?"@))) by {
        text::lemma_has_self(a);
        text::lemma_has_left(a, b, a);
        text::lemma_has_left(a + b, c, a);
        text::lemma_has_left(a + b + c, d, a);
        text::lemma_has_left(a + b + c + d, e, a);
        text::lemma_has_left(a + b + c + d + e, f, a);
        text::lemma_has_left(a + b + c + d + e + f, g, a);
        ui::what_is_painted_is_shown(k, k.theme.done, text_or(eff, "task"@, "?"@));
        text::lemma_has_through(whole, a, text_or(eff, "task"@, "?"@));
    }
    assert(text::has(whole, name_in(eff, "author"@, roster))) by {
        text::lemma_has_self(e);
        text::lemma_has_right(a + b + c + d, e, e);
        text::lemma_has_left(a + b + c + d + e, f, e);
        text::lemma_has_left(a + b + c + d + e + f, g, e);
        ui::a_cat_is_shown_by_name(k, name_in(eff, "author"@, roster));
        text::lemma_has_through(whole, e, name_in(eff, "author"@, roster));
    }
    assert(text::has(whole, json::words_at(eff, "title"@))) by {
        text::lemma_has_self(g);
        text::lemma_has_right(a + b + c + d + e + f, g, g);
        ui::what_is_painted_is_shown(k, k.theme.done, json::words_at(eff, "title"@));
        text::lemma_has_through(whole, g, json::words_at(eff, "title"@));
    }
}

/// A task that failed is shown to have failed.
pub proof fn a_failed_task_is_shown(
    k: Skin,
    eff: Json,
    roster: Seq<(Seq<char>, Seq<u8>)>,
)
    requires
        json::words_at(eff, "t"@) == "failed"@,
    ensures
        text::has(prose(k, eff, roster), text_or(eff, "task"@, "?"@)),
        text::has(prose(k, eff, roster), "✗ failed"@),
{
    reveal_strlit("opened");
    reveal_strlit("planned");
    reveal_strlit("assigned");
    reveal_strlit("directed");
    reveal_strlit("nudge");
    reveal_strlit("record");
    reveal_strlit("requeued");
    reveal_strlit("budget_spent");
    reveal_strlit("closed");
    reveal_strlit("failed");
    assert("opened"@.len() == 6);
    assert("planned"@.len() == 7);
    assert("assigned"@.len() == 8);
    assert("directed"@.len() == 8);
    assert("nudge"@.len() == 5);
    assert("record"@.len() == 6);
    assert("requeued"@.len() == 8);
    assert("budget_spent"@.len() == 12);
    assert("closed"@.len() == 6);
    assert("failed"@.len() == 6);
    assert("assigned"@[0] == 'a');
    assert("closed"@[0] == 'c');
    assert("directed"@[0] == 'd');
    assert("failed"@[0] == 'f');
    assert("opened"@[0] == 'o');
    assert("record"@[0] == 'r');
    assert("requeued"@[0] == 'r');
    let a = ui::painted(k, k.theme.done, text_or(eff, "task"@, "?"@));
    let b = " "@;
    let c = ui::bolded(k, k.theme.alarm, "✗ failed"@);
    let whole = a + b + c;
    assert(prose(k, eff, roster) == whole);
    assert(text::has(whole, text_or(eff, "task"@, "?"@))) by {
        text::lemma_has_self(a);
        text::lemma_has_left(a, b, a);
        text::lemma_has_left(a + b, c, a);
        ui::what_is_painted_is_shown(k, k.theme.done, text_or(eff, "task"@, "?"@));
        text::lemma_has_through(whole, a, text_or(eff, "task"@, "?"@));
    }
    assert(text::has(whole, "✗ failed"@)) by {
        text::lemma_has_self(c);
        text::lemma_has_right(a + b, c, c);
        ui::what_is_painted_is_shown(k, k.theme.alarm, "✗ failed"@);
        text::lemma_has_through(whole, c, "✗ failed"@);
    }
}

/// A task that moved is shown with whom it moved from and whom to.
pub proof fn a_rehomed_task_is_shown(
    k: Skin,
    eff: Json,
    roster: Seq<(Seq<char>, Seq<u8>)>,
)
    requires
        json::words_at(eff, "t"@) == "rehomed"@,
    ensures
        text::has(prose(k, eff, roster), text_or(eff, "task"@, "?"@)),
        text::has(prose(k, eff, roster), name_in(eff, "from"@, roster)),
        text::has(prose(k, eff, roster), name_in(eff, "to"@, roster)),
{
    reveal_strlit("opened");
    reveal_strlit("planned");
    reveal_strlit("assigned");
    reveal_strlit("directed");
    reveal_strlit("nudge");
    reveal_strlit("record");
    reveal_strlit("requeued");
    reveal_strlit("budget_spent");
    reveal_strlit("closed");
    reveal_strlit("failed");
    reveal_strlit("rehomed");
    assert("opened"@.len() == 6);
    assert("planned"@.len() == 7);
    assert("assigned"@.len() == 8);
    assert("directed"@.len() == 8);
    assert("nudge"@.len() == 5);
    assert("record"@.len() == 6);
    assert("requeued"@.len() == 8);
    assert("budget_spent"@.len() == 12);
    assert("closed"@.len() == 6);
    assert("failed"@.len() == 6);
    assert("rehomed"@.len() == 7);
    assert("assigned"@[0] == 'a');
    assert("closed"@[0] == 'c');
    assert("directed"@[0] == 'd');
    assert("failed"@[0] == 'f');
    assert("opened"@[0] == 'o');
    assert("planned"@[0] == 'p');
    assert("record"@[0] == 'r');
    assert("rehomed"@[0] == 'r');
    assert("requeued"@[0] == 'r');
    let a = ui::painted(k, k.theme.done, text_or(eff, "task"@, "?"@));
    let b = " rehomed from "@;
    let c = ui::whom(k, name_in(eff, "from"@, roster));
    let d = " to "@;
    let e = ui::whom(k, name_in(eff, "to"@, roster));
    let whole = a + b + c + d + e;
    assert(prose(k, eff, roster) == whole);
    assert(text::has(whole, text_or(eff, "task"@, "?"@))) by {
        text::lemma_has_self(a);
        text::lemma_has_left(a, b, a);
        text::lemma_has_left(a + b, c, a);
        text::lemma_has_left(a + b + c, d, a);
        text::lemma_has_left(a + b + c + d, e, a);
        ui::what_is_painted_is_shown(k, k.theme.done, text_or(eff, "task"@, "?"@));
        text::lemma_has_through(whole, a, text_or(eff, "task"@, "?"@));
    }
    assert(text::has(whole, name_in(eff, "from"@, roster))) by {
        text::lemma_has_self(c);
        text::lemma_has_right(a + b, c, c);
        text::lemma_has_left(a + b + c, d, c);
        text::lemma_has_left(a + b + c + d, e, c);
        ui::a_cat_is_shown_by_name(k, name_in(eff, "from"@, roster));
        text::lemma_has_through(whole, c, name_in(eff, "from"@, roster));
    }
    assert(text::has(whole, name_in(eff, "to"@, roster))) by {
        text::lemma_has_self(e);
        text::lemma_has_right(a + b + c + d, e, e);
        ui::a_cat_is_shown_by_name(k, name_in(eff, "to"@, roster));
        text::lemma_has_through(whole, e, name_in(eff, "to"@, roster));
    }
}

/// A report of stats is shown with whose it is and its figures.
pub proof fn stats_are_shown(
    k: Skin,
    eff: Json,
    roster: Seq<(Seq<char>, Seq<u8>)>,
)
    requires
        json::words_at(eff, "t"@) == "stats_reported"@,
    ensures
        text::has(prose(k, eff, roster), name_in(eff, "who"@, roster)),
        text::has(prose(k, eff, roster), text::joined(stats_parts(eff), " · "@)),
{
    reveal_strlit("opened");
    reveal_strlit("planned");
    reveal_strlit("assigned");
    reveal_strlit("directed");
    reveal_strlit("nudge");
    reveal_strlit("record");
    reveal_strlit("requeued");
    reveal_strlit("budget_spent");
    reveal_strlit("closed");
    reveal_strlit("failed");
    reveal_strlit("rehomed");
    reveal_strlit("standalone_artifact");
    reveal_strlit("stats_reported");
    assert("opened"@.len() == 6);
    assert("planned"@.len() == 7);
    assert("assigned"@.len() == 8);
    assert("directed"@.len() == 8);
    assert("nudge"@.len() == 5);
    assert("record"@.len() == 6);
    assert("requeued"@.len() == 8);
    assert("budget_spent"@.len() == 12);
    assert("closed"@.len() == 6);
    assert("failed"@.len() == 6);
    assert("rehomed"@.len() == 7);
    assert("standalone_artifact"@.len() == 19);
    assert("stats_reported"@.len() == 14);
    assert("assigned"@[0] == 'a');
    assert("closed"@[0] == 'c');
    assert("directed"@[0] == 'd');
    assert("failed"@[0] == 'f');
    assert("opened"@[0] == 'o');
    assert("planned"@[0] == 'p');
    assert("record"@[0] == 'r');
    assert("rehomed"@[0] == 'r');
    assert("requeued"@[0] == 'r');
    let a = ui::whom(k, name_in(eff, "who"@, roster));
    let b = " "@;
    let c = ui::dimmed(k, "∑"@);
    let d = " "@;
    let e = ui::dimmed(k, text::joined(stats_parts(eff), " · "@));
    let whole = a + b + c + d + e;
    assert(prose(k, eff, roster) == whole);
    assert(text::has(whole, name_in(eff, "who"@, roster))) by {
        text::lemma_has_self(a);
        text::lemma_has_left(a, b, a);
        text::lemma_has_left(a + b, c, a);
        text::lemma_has_left(a + b + c, d, a);
        text::lemma_has_left(a + b + c + d, e, a);
        ui::a_cat_is_shown_by_name(k, name_in(eff, "who"@, roster));
        text::lemma_has_through(whole, a, name_in(eff, "who"@, roster));
    }
    assert(text::has(whole, text::joined(stats_parts(eff), " · "@))) by {
        text::lemma_has_self(e);
        text::lemma_has_right(a + b + c + d, e, e);
        ui::what_is_painted_is_shown(k, k.theme.done, text::joined(stats_parts(eff), " · "@));
        text::lemma_has_through(whole, e, text::joined(stats_parts(eff), " · "@));
    }
}

/// A reaction is shown with who reacted, how, and to what.
pub proof fn a_reaction_is_shown(
    k: Skin,
    eff: Json,
    roster: Seq<(Seq<char>, Seq<u8>)>,
)
    requires
        json::words_at(eff, "t"@) == "reacted"@,
    ensures
        text::has(prose(k, eff, roster), name_in(eff, "who"@, roster)),
        text::has(prose(k, eff, roster), text_or(eff, "emoji"@, "·"@)),
        text::has(prose(k, eff, roster), text_or(eff, "target"@, "?"@)),
{
    reveal_strlit("opened");
    reveal_strlit("planned");
    reveal_strlit("assigned");
    reveal_strlit("directed");
    reveal_strlit("nudge");
    reveal_strlit("record");
    reveal_strlit("requeued");
    reveal_strlit("budget_spent");
    reveal_strlit("closed");
    reveal_strlit("failed");
    reveal_strlit("rehomed");
    reveal_strlit("standalone_artifact");
    reveal_strlit("stats_reported");
    reveal_strlit("reacted");
    assert("opened"@.len() == 6);
    assert("planned"@.len() == 7);
    assert("assigned"@.len() == 8);
    assert("directed"@.len() == 8);
    assert("nudge"@.len() == 5);
    assert("record"@.len() == 6);
    assert("requeued"@.len() == 8);
    assert("budget_spent"@.len() == 12);
    assert("closed"@.len() == 6);
    assert("failed"@.len() == 6);
    assert("rehomed"@.len() == 7);
    assert("standalone_artifact"@.len() == 19);
    assert("stats_reported"@.len() == 14);
    assert("reacted"@.len() == 7);
    assert("assigned"@[0] == 'a');
    assert("closed"@[0] == 'c');
    assert("directed"@[0] == 'd');
    assert("failed"@[0] == 'f');
    assert("opened"@[0] == 'o');
    assert("planned"@[0] == 'p');
    assert("reacted"@[0] == 'r');
    assert("reacted"@[2] == 'a');
    assert("record"@[0] == 'r');
    assert("rehomed"@[0] == 'r');
    assert("rehomed"@[2] == 'h');
    assert("requeued"@[0] == 'r');
    let a = ui::whom(k, name_in(eff, "who"@, roster));
    let b = " reacted "@;
    let c = ui::plained(k, text_or(eff, "emoji"@, "·"@));
    let d = " on #"@;
    let e = text_or(eff, "target"@, "?"@);
    let whole = a + b + c + d + e;
    assert(prose(k, eff, roster) == whole);
    assert(text::has(whole, name_in(eff, "who"@, roster))) by {
        text::lemma_has_self(a);
        text::lemma_has_left(a, b, a);
        text::lemma_has_left(a + b, c, a);
        text::lemma_has_left(a + b + c, d, a);
        text::lemma_has_left(a + b + c + d, e, a);
        ui::a_cat_is_shown_by_name(k, name_in(eff, "who"@, roster));
        text::lemma_has_through(whole, a, name_in(eff, "who"@, roster));
    }
    assert(text::has(whole, text_or(eff, "emoji"@, "·"@))) by {
        text::lemma_has_self(c);
        text::lemma_has_right(a + b, c, c);
        text::lemma_has_left(a + b + c, d, c);
        text::lemma_has_left(a + b + c + d, e, c);
        ui::what_is_painted_is_shown(k, k.theme.done, text_or(eff, "emoji"@, "·"@));
        text::lemma_has_through(whole, c, text_or(eff, "emoji"@, "·"@));
    }
    assert(text::has(whole, e)) by {
        text::lemma_has_self(e);
        text::lemma_has_right(a + b + c + d, e, e);
    }
}

/// Lines that hang are all there, the first behind its lead and the others
/// indented.
pub proof fn hung_lines_are_all_there(lines: Seq<Seq<char>>, lead: Seq<char>, indent: nat, i: int)
    requires
        0 <= i < lines.len(),
    ensures
        hung(lines, lead, indent).len() == lines.len(),
        text::ends(hung(lines, lead, indent)[i], lines[i]),
        text::starts(hung(lines, lead, indent)[0], lead),
        i > 0 ==> hung(lines, lead, indent)[i].len() == indent + lines[i].len(),
{
    let h = hung(lines, lead, indent)[i];
    let l = lines[i];
    assert(h.subrange(h.len() - l.len(), h.len() as int) =~= l);
    let f = hung(lines, lead, indent)[0];
    assert(f.subrange(0, lead.len() as int) =~= lead);
}

/// A count is told with its number, in the singular where it is one.
pub proof fn a_count_is_told_in_its_number(n: u64, one: Seq<char>, many: Seq<char>)
    ensures
        n == 1 ==> plural(n, one, many) == text::dec(1) + " "@ + one,
        n != 1 ==> plural(n, one, many) == text::dec(n as nat) + " "@ + many,
{
}

/// Every figure of a report is told, the messages where they were counted.
pub proof fn every_figure_is_told(v: Json)
    ensures
        ({
            let p = stats_parts(v);
            &&& p.len() == (if json::num_at(v, "messages"@) is Some {
                5int
            } else {
                4
            })
            &&& p[0] == plural(num_or_0(v, "turns"@), "turn"@, "turns"@)
            &&& p[1] == plural(num_or_0(v, "tool_calls"@), "tool call"@, "tool calls"@)
            &&& json::num_at(v, "messages"@) matches Some(m) ==> p[2] == plural(
                m,
                "message"@,
                "messages"@,
            )
            &&& p[p.len() - 2] == figures::grouped(text::dec(num_or_0(v, "tokens"@) as nat))
                + " tok"@
            &&& p[p.len() - 1] == figures::human_text((num_or_0(v, "ms"@) / 1000) as nat)
                + " thinking"@
        }),
{
}

/// A name in an effect is that of the account it spells, itself where it spells
/// none, and a mark where it is missing.
pub proof fn an_account_is_shown_by_name(
    eff: Json,
    field: Seq<char>,
    roster: Seq<(Seq<char>, Seq<u8>)>,
    a: Seq<u8>,
)
    ensures
        a.len() == 32 && json::text_at(eff, field) == Some(keys::hexed(a)) ==> name_in(
            eff,
            field,
            roster,
        ) == common::name_for(roster, a),
        json::text_at(eff, field) is None ==> name_in(eff, field, roster) == "?"@,
        json::text_at(eff, field) matches Some(s) ==> (keys::account_in(s) is None ==> name_in(
            eff,
            field,
            roster,
        ) == s),
        !json::set_at(eff, "to"@) ==> addressee(eff, roster) == "litter"@,
        json::set_at(eff, "to"@) ==> addressee(eff, roster) == name_in(eff, "to"@, roster),
{
    keys::hex_reads_back(a);
}

/// Words and messages are shown as speech of whoever said them, whole, to whom
/// they went; one's own as a line that was typed; and everything else as prose.
pub proof fn speech_is_shown_as_such(
    k: Skin,
    time: Seq<char>,
    block: u64,
    eff: Json,
    roster: Seq<(Seq<char>, Seq<u8>)>,
    me: Seq<char>,
    art: Seq<Seq<char>>,
)
    ensures
        ({
            let kind = json::words_at(eff, "t"@);
            let from = name_in(eff, "from"@, roster);
            let r = rendered(k, time, block, eff, roster, me, art);
            &&& (kind == "said"@ || kind == "message"@) && from != me ==> (r matches
                ShownView::Speech { from: f, rows } && f == from && rows == speech_rows(
                k,
                time,
                block,
                from,
                addressee(eff, roster),
                json::words_at(eff, "body"@),
                roster,
                json::flag_at(eff, "off_record"@),
                if kind == "said"@ {
                    ""@
                } else {
                    thread_note(eff)
                },
                art,
            ))
            &&& (kind == "said"@ || kind == "message"@) && from == me ==> r is Text
            &&& kind == "said"@ && from == me ==> r == ShownView::Text(
                own_line(
                    k,
                    time,
                    block,
                    me,
                    addressee(eff, roster),
                    json::words_at(eff, "body"@),
                    roster,
                    json::flag_at(eff, "off_record"@),
                ),
            )
            &&& kind != "said"@ && kind != "message"@ ==> r == ShownView::Text(
                observed(k, time, block, prose(k, eff, roster)),
            )
        }),
{
    reveal_strlit("");
    reveal_strlit("said");
    reveal_strlit("message");
    assert("said"@.len() == 4 && "message"@.len() == 7);
}

/// The rows of a speech and of the face beside it are all there.
pub proof fn both_sides_are_shown(art: Seq<Seq<char>>, rows: Seq<Seq<char>>, i: int)
    ensures
        beside(art, rows).len() >= art.len() && beside(art, rows).len() >= rows.len(),
        beside(art, rows).len() == art.len() || beside(art, rows).len() == rows.len(),
        0 <= i < rows.len() ==> beside(art, rows)[i].1 == rows[i],
        0 <= i < art.len() ==> text::starts(beside(art, rows)[i].0, art[i]),
{
    if 0 <= i < art.len() {
        ui::a_text_is_filled_with_spaces(art[i], 20);
    }
}

/// A message is noted with what it answers, or with its own id, and with every
/// tag.
pub proof fn a_thread_is_noted(eff: Json, note: Seq<char>, tags: Seq<Json>, tag: Json)
    ensures
        json::text_at(eff, "parent"@) matches Some(p) ==> thread_note(eff) == with_tags(
            "↩ #"@ + p,
            json::items_at(eff, "tags"@),
        ),
        json::text_at(eff, "parent"@) is None ==> (json::text_at(eff, "id"@) matches Some(id)
            ==> thread_note(eff) == with_tags("#"@ + id, json::items_at(eff, "tags"@))),
        with_tags(note, Seq::empty()) == note,
        json::as_text(tag) matches Some(t) ==> text::ends(
            with_tags(note, tags.push(tag)),
            "#"@ + t,
        ) && text::starts(with_tags(note, tags.push(tag)), with_tags(note, tags)),
        json::as_text(tag) is None ==> with_tags(note, tags.push(tag)) == with_tags(note, tags),
{
    assert(tags.push(tag).drop_last() =~= tags);
    if json::as_text(tag) is Some {
        let t = "#"@ + (json::as_text(tag)->0);
        let r = with_tags(note, tags.push(tag));
        let b = with_tags(note, tags);
        assert(r.subrange(r.len() - t.len(), r.len() as int) =~= t);
        assert(r.subrange(0, b.len() as int) =~= b);
    }
}

/// A block goes by its number, in the style of the theme.
pub proof fn a_block_goes_by_its_number(k: Skin, block: u64, q: nat, r: nat)
    ensures
        !k.theme.hex_blocks ==> block_name(k, block) == "#"@ + text::dec(block as nat),
        k.theme.hex_blocks ==> text::starts(block_name(k, block), "0x"@) && text::ends(
            block_name(k, block),
            hex_number(block as nat),
        ),
        q > 0 && r < 16 ==> hex_number(16 * q + r) == hex_number(q).push(keys::hex_char(r as u8)),
        r < 16 ==> hex_number(r) == seq![keys::hex_char(r as u8)],
{
    if k.theme.hex_blocks {
        let n = block_name(k, block);
        let h = hex_number(block as nat);
        assert(n.subrange(0, "0x"@.len() as int) =~= "0x"@);
        assert(n.subrange(n.len() - h.len(), n.len() as int) =~= h);
    }
}

/// A name in capitals is split into its words.
pub proof fn a_name_is_split_at_its_capitals(s: Seq<char>, c: char)
    ensures
        s.len() > 0 && capital(c) ==> spaced(s.push(c)) == spaced(s) + " "@ + seq![c],
        s.len() == 0 || !capital(c) ==> spaced(s.push(c)) == spaced(s) + seq![c],
{
    assert(s.push(c).drop_last() =~= s);
}

proof fn lemma_directive(k: Skin, what: Seq<char>)
    ensures
        text::has(directive_text(k, what), ui::shouted(k, spaced(what))),
{
    let s = ui::shouted(k, spaced(what));
    text::lemma_has_self(s);
    text::lemma_has_right("⚑ "@, s, s);
    ui::what_is_painted_is_shown(k, k.theme.alarm, "⚑ "@ + s);
    text::lemma_has_through(directive_text(k, what), "⚑ "@ + s, s);
}

proof fn lemma_left(k: Skin, eff: Json)
    ensures
        text::has(
            ui::dimmed(
                k,
                "("@ + raw_at(eff, "remaining"@) + " left"@ + (if json::flag_at(eff, "last"@) {
                    ", last"@
                } else {
                    ""@
                }) + ")"@,
            ),
            raw_at(eff, "remaining"@),
        ),
{
    let a = "("@;
    let b = raw_at(eff, "remaining"@);
    let c = " left"@;
    let d = if json::flag_at(eff, "last"@) {
        ", last"@
    } else {
        ""@
    };
    let e = ")"@;
    text::lemma_has_self(b);
    text::lemma_has_right(a, b, b);
    text::lemma_has_left(a + b, c, b);
    text::lemma_has_left(a + b + c, d, b);
    text::lemma_has_left(a + b + c + d, e, b);
    let w = a + b + c + d + e;
    ui::what_is_painted_is_shown(k, k.theme.smoke, w);
    text::lemma_has_through(ui::dimmed(k, w), w, b);
}

/// A directive is shown with whom it goes to, its task and what it says.
pub proof fn a_directive_is_shown(
    k: Skin,
    eff: Json,
    roster: Seq<(Seq<char>, Seq<u8>)>,
)
    requires
        json::words_at(eff, "t"@) == "directed"@,
    ensures
        text::has(prose(k, eff, roster), name_in(eff, "to"@, roster)),
        text::has(prose(k, eff, roster), text_or(eff, "task"@, "?"@)),
        text::has(prose(k, eff, roster), ui::shouted(k, spaced(text_or(eff, "directive"@, "?"@)))),
{
    reveal_strlit("opened");
    reveal_strlit("planned");
    reveal_strlit("assigned");
    reveal_strlit("directed");
    assert("opened"@.len() == 6);
    assert("planned"@.len() == 7);
    assert("assigned"@.len() == 8);
    assert("directed"@.len() == 8);
    assert("assigned"@[0] == 'a');
    assert("directed"@[0] == 'd');
    let a = ui::whom(k, name_in(eff, "to"@, roster));
    let b = " directed on "@;
    let c = ui::painted(k, k.theme.done, text_or(eff, "task"@, "?"@));
    let d = ": "@;
    let e = directive_text(k, text_or(eff, "directive"@, "?"@));
    let whole = a + b + c + d + e;
    assert(prose(k, eff, roster) == whole);
    assert(text::has(whole, name_in(eff, "to"@, roster))) by {
        text::lemma_has_self(a);
        text::lemma_has_left(a, b, a);
        text::lemma_has_left(a + b, c, a);
        text::lemma_has_left(a + b + c, d, a);
        text::lemma_has_left(a + b + c + d, e, a);
        ui::a_cat_is_shown_by_name(k, name_in(eff, "to"@, roster));
        text::lemma_has_through(whole, a, name_in(eff, "to"@, roster));
    }
    assert(text::has(whole, text_or(eff, "task"@, "?"@))) by {
        text::lemma_has_self(c);
        text::lemma_has_right(a + b, c, c);
        text::lemma_has_left(a + b + c, d, c);
        text::lemma_has_left(a + b + c + d, e, c);
        ui::what_is_painted_is_shown(k, k.theme.done, text_or(eff, "task"@, "?"@));
        text::lemma_has_through(whole, c, text_or(eff, "task"@, "?"@));
    }
    assert(text::has(whole, ui::shouted(k, spaced(text_or(eff, "directive"@, "?"@))))) by {
        text::lemma_has_self(e);
        text::lemma_has_right(a + b + c + d, e, e);
        lemma_directive(k, text_or(eff, "directive"@, "?"@));
        text::lemma_has_through(whole, e, ui::shouted(k, spaced(text_or(eff, "directive"@, "?"@))));
    }
}

/// A nudge is shown with whom it goes to, its task and how many are left.
pub proof fn a_nudge_is_shown(
    k: Skin,
    eff: Json,
    roster: Seq<(Seq<char>, Seq<u8>)>,
)
    requires
        json::words_at(eff, "t"@) == "nudge"@,
    ensures
        text::has(prose(k, eff, roster), name_in(eff, "to"@, roster)),
        text::has(prose(k, eff, roster), text_or(eff, "task"@, "?"@)),
        text::has(prose(k, eff, roster), raw_at(eff, "remaining"@)),
{
    reveal_strlit("opened");
    reveal_strlit("planned");
    reveal_strlit("assigned");
    reveal_strlit("directed");
    reveal_strlit("nudge");
    assert("opened"@.len() == 6);
    assert("planned"@.len() == 7);
    assert("assigned"@.len() == 8);
    assert("directed"@.len() == 8);
    assert("nudge"@.len() == 5);
    assert("assigned"@[0] == 'a');
    assert("directed"@[0] == 'd');
    let a = ui::whom(k, name_in(eff, "to"@, roster));
    let b = " "@;
    let c = verb_text(k, "↻"@, "nudged"@, k.theme.warm);
    let d = " "@;
    let e = ui::painted(k, k.theme.done, text_or(eff, "task"@, "?"@));
    let f = " "@;
    let g = ui::dimmed(
        k,
        "("@ + raw_at(eff, "remaining"@) + " left"@ + (if json::flag_at(eff, "last"@) {
        ", last"@
    } else {
        ""@
    }) + ")"@,
    );
    let whole = a + b + c + d + e + f + g;
    assert(prose(k, eff, roster) == whole);
    assert(text::has(whole, name_in(eff, "to"@, roster))) by {
        text::lemma_has_self(a);
        text::lemma_has_left(a, b, a);
        text::lemma_has_left(a + b, c, a);
        text::lemma_has_left(a + b + c, d, a);
        text::lemma_has_left(a + b + c + d, e, a);
        text::lemma_has_left(a + b + c + d + e, f, a);
        text::lemma_has_left(a + b + c + d + e + f, g, a);
        ui::a_cat_is_shown_by_name(k, name_in(eff, "to"@, roster));
        text::lemma_has_through(whole, a, name_in(eff, "to"@, roster));
    }
    assert(text::has(whole, text_or(eff, "task"@, "?"@))) by {
        text::lemma_has_self(e);
        text::lemma_has_right(a + b + c + d, e, e);
        text::lemma_has_left(a + b + c + d + e, f, e);
        text::lemma_has_left(a + b + c + d + e + f, g, e);
        ui::what_is_painted_is_shown(k, k.theme.done, text_or(eff, "task"@, "?"@));
        text::lemma_has_through(whole, e, text_or(eff, "task"@, "?"@));
    }
    assert(text::has(whole, raw_at(eff, "remaining"@))) by {
        text::lemma_has_self(g);
        text::lemma_has_right(a + b + c + d + e + f, g, g);
        lemma_left(k, eff);
        text::lemma_has_through(whole, g, raw_at(eff, "remaining"@));
    }
}

/// What was put on the record is shown with who put it there and of which
/// task.
pub proof fn a_record_is_shown(
    k: Skin,
    eff: Json,
    roster: Seq<(Seq<char>, Seq<u8>)>,
)
    requires
        json::words_at(eff, "t"@) == "record"@,
    ensures
        text::has(prose(k, eff, roster), name_in(eff, "who"@, roster)),
        text::has(prose(k, eff, roster), text_or(eff, "task"@, "?"@)),
{
    reveal_strlit("opened");
    reveal_strlit("planned");
    reveal_strlit("assigned");
    reveal_strlit("directed");
    reveal_strlit("nudge");
    reveal_strlit("record");
    assert("opened"@.len() == 6);
    assert("planned"@.len() == 7);
    assert("assigned"@.len() == 8);
    assert("directed"@.len() == 8);
    assert("nudge"@.len() == 5);
    assert("record"@.len() == 6);
    assert("assigned"@[0] == 'a');
    assert("directed"@[0] == 'd');
    assert("opened"@[0] == 'o');
    assert("record"@[0] == 'r');
    let a = ui::whom(k, name_in(eff, "who"@, roster));
    let b = " "@;
    let c = (if text_or(eff, "act"@, "?"@) == "claimed"@ {
        verb_text(k, "◇"@, "claimed"@, k.theme.progress)
    } else if text_or(eff, "act"@, "?"@) == "submitted"@ {
        verb_text(k, "◆"@, "submitted"@, k.theme.progress)
    } else {
        verb_text(k, "·"@, text_or(eff, "act"@, "?"@), k.theme.progress)
    });
    let d = " "@;
    let e = ui::painted(k, k.theme.done, text_or(eff, "task"@, "?"@));
    let f = (if json::words_at(eff, "text"@).len() == 0 {
        ""@
    } else {
        ": "@ + ui::dimmed(k, json::words_at(eff, "text"@))
    });
    let whole = a + b + c + d + e + f;
    assert(prose(k, eff, roster) == whole);
    assert(text::has(whole, name_in(eff, "who"@, roster))) by {
        text::lemma_has_self(a);
        text::lemma_has_left(a, b, a);
        text::lemma_has_left(a + b, c, a);
        text::lemma_has_left(a + b + c, d, a);
        text::lemma_has_left(a + b + c + d, e, a);
        text::lemma_has_left(a + b + c + d + e, f, a);
        ui::a_cat_is_shown_by_name(k, name_in(eff, "who"@, roster));
        text::lemma_has_through(whole, a, name_in(eff, "who"@, roster));
    }
    assert(text::has(whole, text_or(eff, "task"@, "?"@))) by {
        text::lemma_has_self(e);
        text::lemma_has_right(a + b + c + d, e, e);
        text::lemma_has_left(a + b + c + d + e, f, e);
        ui::what_is_painted_is_shown(k, k.theme.done, text_or(eff, "task"@, "?"@));
        text::lemma_has_through(whole, e, text_or(eff, "task"@, "?"@));
    }
}

/// An artifact is shown with its author and its title.
pub proof fn a_published_artifact_is_shown(
    k: Skin,
    eff: Json,
    roster: Seq<(Seq<char>, Seq<u8>)>,
)
    requires
        json::words_at(eff, "t"@) == "standalone_artifact"@,
    ensures
        text::has(prose(k, eff, roster), name_in(eff, "author"@, roster)),
        text::has(prose(k, eff, roster), json::words_at(eff, "title"@)),
{
    reveal_strlit("opened");
    reveal_strlit("planned");
    reveal_strlit("assigned");
    reveal_strlit("directed");
    reveal_strlit("nudge");
    reveal_strlit("record");
    reveal_strlit("requeued");
    reveal_strlit("budget_spent");
    reveal_strlit("closed");
    reveal_strlit("failed");
    reveal_strlit("rehomed");
    reveal_strlit("standalone_artifact");
    assert("opened"@.len() == 6);
    assert("planned"@.len() == 7);
    assert("assigned"@.len() == 8);
    assert("directed"@.len() == 8);
    assert("nudge"@.len() == 5);
    assert("record"@.len() == 6);
    assert("requeued"@.len() == 8);
    assert("budget_spent"@.len() == 12);
    assert("closed"@.len() == 6);
    assert("failed"@.len() == 6);
    assert("rehomed"@.len() == 7);
    assert("standalone_artifact"@.len() == 19);
    assert("assigned"@[0] == 'a');
    assert("closed"@[0] == 'c');
    assert("directed"@[0] == 'd');
    assert("failed"@[0] == 'f');
    assert("opened"@[0] == 'o');
    assert("planned"@[0] == 'p');
    assert("record"@[0] == 'r');
    assert("rehomed"@[0] == 'r');
    assert("requeued"@[0] == 'r');
    let a = ui::whom(k, name_in(eff, "author"@, roster));
    let b = " published "@;
    let c = ui::painted(k, k.theme.done, "▤ artifact"@);
    let d = " "@;
    let e = ui::painted(
        k,
        k.theme.done,
        match json::text_at(eff, "id"@) {
            Some(s) => s,
            None => raw_at(eff, "id"@),
        },
    );
    let f = ": "@;
    let g = ui::plained(k, json::words_at(eff, "title"@));
    let whole = a + b + c + d + e + f + g;
    assert(prose(k, eff, roster) == whole);
    assert(text::has(whole, name_in(eff, "author"@, roster))) by {
        text::lemma_has_self(a);
        text::lemma_has_left(a, b, a);
        text::lemma_has_left(a + b, c, a);
        text::lemma_has_left(a + b + c, d, a);
        text::lemma_has_left(a + b + c + d, e, a);
        text::lemma_has_left(a + b + c + d + e, f, a);
        text::lemma_has_left(a + b + c + d + e + f, g, a);
        ui::a_cat_is_shown_by_name(k, name_in(eff, "author"@, roster));
        text::lemma_has_through(whole, a, name_in(eff, "author"@, roster));
    }
    assert(text::has(whole, json::words_at(eff, "title"@))) by {
        text::lemma_has_self(g);
        text::lemma_has_right(a + b + c + d + e + f, g, g);
        ui::what_is_painted_is_shown(k, k.theme.done, json::words_at(eff, "title"@));
        text::lemma_has_through(whole, g, json::words_at(eff, "title"@));
    }
}

/// A vote is shown with who cast it, and on what.
pub proof fn a_vote_is_shown(
    k: Skin,
    eff: Json,
    roster: Seq<(Seq<char>, Seq<u8>)>,
)
    requires
        json::words_at(eff, "t"@) == "voted"@,
    ensures
        text::has(prose(k, eff, roster), name_in(eff, "who"@, roster)),
        text::has(prose(k, eff, roster), text_or(eff, "artifact"@, "?"@)),
{
    reveal_strlit("opened");
    reveal_strlit("planned");
    reveal_strlit("assigned");
    reveal_strlit("directed");
    reveal_strlit("nudge");
    reveal_strlit("record");
    reveal_strlit("requeued");
    reveal_strlit("budget_spent");
    reveal_strlit("closed");
    reveal_strlit("failed");
    reveal_strlit("rehomed");
    reveal_strlit("standalone_artifact");
    reveal_strlit("stats_reported");
    reveal_strlit("reacted");
    reveal_strlit("voted");
    assert("opened"@.len() == 6);
    assert("planned"@.len() == 7);
    assert("assigned"@.len() == 8);
    assert("directed"@.len() == 8);
    assert("nudge"@.len() == 5);
    assert("record"@.len() == 6);
    assert("requeued"@.len() == 8);
    assert("budget_spent"@.len() == 12);
    assert("closed"@.len() == 6);
    assert("failed"@.len() == 6);
    assert("rehomed"@.len() == 7);
    assert("standalone_artifact"@.len() == 19);
    assert("stats_reported"@.len() == 14);
    assert("reacted"@.len() == 7);
    assert("voted"@.len() == 5);
    assert("assigned"@[0] == 'a');
    assert("closed"@[0] == 'c');
    assert("directed"@[0] == 'd');
    assert("failed"@[0] == 'f');
    assert("nudge"@[0] == 'n');
    assert("opened"@[0] == 'o');
    assert("planned"@[0] == 'p');
    assert("reacted"@[0] == 'r');
    assert("reacted"@[2] == 'a');
    assert("record"@[0] == 'r');
    assert("rehomed"@[0] == 'r');
    assert("rehomed"@[2] == 'h');
    assert("requeued"@[0] == 'r');
    assert("voted"@[0] == 'v');
    let a = ui::whom(k, name_in(eff, "who"@, roster));
    let b = " voted "@;
    let c = (if json::flag_at(eff, "up"@) {
        ui::painted(k, k.theme.done, "▲"@)
    } else {
        ui::painted(k, k.theme.alarm, "▼"@)
    });
    let d = " §"@;
    let e = text_or(eff, "artifact"@, "?"@);
    let whole = a + b + c + d + e;
    assert(prose(k, eff, roster) == whole);
    assert(text::has(whole, name_in(eff, "who"@, roster))) by {
        text::lemma_has_self(a);
        text::lemma_has_left(a, b, a);
        text::lemma_has_left(a + b, c, a);
        text::lemma_has_left(a + b + c, d, a);
        text::lemma_has_left(a + b + c + d, e, a);
        ui::a_cat_is_shown_by_name(k, name_in(eff, "who"@, roster));
        text::lemma_has_through(whole, a, name_in(eff, "who"@, roster));
    }
    assert(text::has(whole, e)) by {
        text::lemma_has_self(e);
        text::lemma_has_right(a + b + c + d, e, e);
    }
}

/// What was put on the record is shown with its words, where it has any, and a
/// vote with which way it went.
pub proof fn a_line_shows_the_rest(k: Skin, eff: Json, roster: Seq<(Seq<char>, Seq<u8>)>)
    ensures
        json::words_at(eff, "t"@) == "record"@ && json::words_at(eff, "text"@).len() > 0
            ==> text::ends(
            prose(k, eff, roster),
            ": "@ + ui::dimmed(k, json::words_at(eff, "text"@)),
        ),
        json::words_at(eff, "t"@) == "voted"@ && json::flag_at(eff, "up"@) ==> text::has(
            prose(k, eff, roster),
            "▲"@,
        ),
        json::words_at(eff, "t"@) == "voted"@ && !json::flag_at(eff, "up"@) ==> text::has(
            prose(k, eff, roster),
            "▼"@,
        ),
{
    reveal_strlit("opened");
    reveal_strlit("planned");
    reveal_strlit("assigned");
    reveal_strlit("directed");
    reveal_strlit("nudge");
    reveal_strlit("record");
    reveal_strlit("requeued");
    reveal_strlit("budget_spent");
    reveal_strlit("closed");
    reveal_strlit("failed");
    reveal_strlit("rehomed");
    reveal_strlit("standalone_artifact");
    reveal_strlit("stats_reported");
    reveal_strlit("reacted");
    reveal_strlit("voted");
    assert("opened"@.len() == 6);
    assert("planned"@.len() == 7);
    assert("assigned"@.len() == 8);
    assert("directed"@.len() == 8);
    assert("nudge"@.len() == 5);
    assert("record"@.len() == 6);
    assert("requeued"@.len() == 8);
    assert("budget_spent"@.len() == 12);
    assert("closed"@.len() == 6);
    assert("failed"@.len() == 6);
    assert("rehomed"@.len() == 7);
    assert("standalone_artifact"@.len() == 19);
    assert("stats_reported"@.len() == 14);
    assert("reacted"@.len() == 7);
    assert("voted"@.len() == 5);
    assert("assigned"@[0] == 'a');
    assert("closed"@[0] == 'c');
    assert("directed"@[0] == 'd');
    assert("failed"@[0] == 'f');
    assert("nudge"@[0] == 'n');
    assert("opened"@[0] == 'o');
    assert("planned"@[0] == 'p');
    assert("reacted"@[0] == 'r');
    assert("reacted"@[2] == 'a');
    assert("record"@[0] == 'r');
    assert("rehomed"@[0] == 'r');
    assert("rehomed"@[2] == 'h');
    assert("requeued"@[0] == 'r');
    assert("voted"@[0] == 'v');
    let p = prose(k, eff, roster);
    let kind = json::words_at(eff, "t"@);
    if kind == "record"@ && json::words_at(eff, "text"@).len() > 0 {
        let t = ": "@ + ui::dimmed(k, json::words_at(eff, "text"@));
        assert(p.subrange(p.len() - t.len(), p.len() as int) =~= t);
    }
    if kind == "voted"@ {
        let up = json::flag_at(eff, "up"@);
        let m = if up {
            "▲"@
        } else {
            "▼"@
        };
        let c = if up {
            k.theme.done
        } else {
            k.theme.alarm
        };
        let a = ui::whom(k, name_in(eff, "who"@, roster)) + " voted "@;
        let b = ui::painted(k, c, m);
        let d = " §"@;
        let e = text_or(eff, "artifact"@, "?"@);
        ui::what_is_painted_is_shown(k, c, m);
        text::lemma_has_right(a, b, m);
        text::lemma_has_left(a + b, d, m);
        text::lemma_has_left(a + b + d, e, m);
        assert(p == a + b + d + e);
    }
}

/// A speech is headed by who spoke and whom to.
pub proof fn a_speech_names_both_sides(
    k: Skin,
    time: Seq<char>,
    block: u64,
    from: Seq<char>,
    to: Seq<char>,
    off_record: bool,
    note: Seq<char>,
)
    ensures
        text::has(speech_head(k, time, block, from, to, off_record, note), from),
        text::has(speech_head(k, time, block, from, to, off_record, note), to),
        text::has(speech_head(k, time, block, from, to, off_record, note), (if off_record {
        "  "@ + ui::dimmed(k, "· off the record"@)
    } else {
        ""@
    })),
        text::has(speech_head(k, time, block, from, to, off_record, note), (if note.len() == 0 {
        ""@
    } else {
        "  "@ + ui::dimmed(k, note)
    })),
        text::has(speech_head(k, time, block, from, to, off_record, note), text::trimmed_start(stamp_text(k, time, block))),
{
    let a = ui::sealed_name(k, from);
    let b = " "@;
    let c = (if to == "litter"@ {
        ui::dimmed(k, "→"@) + " "@ + ui::dimmed(k, "litter"@)
    } else {
        ui::dimmed(k, "→"@) + " "@ + ui::whom(k, to)
    });
    let d = (if off_record {
        "  "@ + ui::dimmed(k, "· off the record"@)
    } else {
        ""@
    });
    let e = (if note.len() == 0 {
        ""@
    } else {
        "  "@ + ui::dimmed(k, note)
    });
    let f = "   "@;
    let g = text::trimmed_start(stamp_text(k, time, block));
    let whole = a + b + c + d + e + f + g;
    assert(speech_head(k, time, block, from, to, off_record, note) == whole);
    assert(text::has(whole, from)) by {
        text::lemma_has_self(a);
        text::lemma_has_left(a, b, a);
        text::lemma_has_left(a + b, c, a);
        text::lemma_has_left(a + b + c, d, a);
        text::lemma_has_left(a + b + c + d, e, a);
        text::lemma_has_left(a + b + c + d + e, f, a);
        text::lemma_has_left(a + b + c + d + e + f, g, a);
        ui::a_cat_is_shown_by_name(k, from);
        text::lemma_has_through(whole, a, from);
    }
    assert(text::has(whole, to)) by {
        text::lemma_has_self(c);
        text::lemma_has_right(a + b, c, c);
        text::lemma_has_left(a + b + c, d, c);
        text::lemma_has_left(a + b + c + d, e, c);
        text::lemma_has_left(a + b + c + d + e, f, c);
        text::lemma_has_left(a + b + c + d + e + f, g, c);
        lemma_arrow(k, to);
        text::lemma_has_through(whole, c, to);
    }
    assert(text::has(whole, d)) by {
        text::lemma_has_self(d);
        text::lemma_has_right(a + b + c, d, d);
        text::lemma_has_left(a + b + c + d, e, d);
        text::lemma_has_left(a + b + c + d + e, f, d);
        text::lemma_has_left(a + b + c + d + e + f, g, d);
    }
    assert(text::has(whole, e)) by {
        text::lemma_has_self(e);
        text::lemma_has_right(a + b + c + d, e, e);
        text::lemma_has_left(a + b + c + d + e, f, e);
        text::lemma_has_left(a + b + c + d + e + f, g, e);
    }
    assert(text::has(whole, g)) by {
        text::lemma_has_self(g);
        text::lemma_has_right(a + b + c + d + e + f, g, g);
    }
}

proof fn lemma_arrow(k: Skin, to: Seq<char>)
    ensures
        text::has(
            (if to == "litter"@ {
                ui::dimmed(k, "→"@) + " "@ + ui::dimmed(k, "litter"@)
            } else {
                ui::dimmed(k, "→"@) + " "@ + ui::whom(k, to)
            }),
            to,
        ),
{
    let a = ui::dimmed(k, "→"@) + " "@;
    ui::what_is_painted_is_shown(k, k.theme.smoke, to);
    ui::a_cat_is_shown_by_name(k, to);
    text::lemma_has_right(a, ui::dimmed(k, to), to);
    text::lemma_has_right(a, ui::whom(k, to), to);
}

/// A stamp tells the time and the block.
pub proof fn a_stamp_names_its_block(k: Skin, time: Seq<char>, block: u64)
    ensures
        text::has(stamp_text(k, time, block), ui::filled_to(block_name(k, block), 6)),
        text::has(stamp_text(k, time, block), time_parts(time).0),
        text::has(stamp_text(k, time, block), time_parts(time).1),
{
    let (hm, gap) = time_parts(time);
    let t = if gap.len() > 0 {
        ui::dimmed(k, hm) + " "@ + ui::dimmed(k, gap)
    } else {
        ui::dimmed(k, hm)
    };
    ui::what_is_painted_is_shown(k, k.theme.smoke, hm);
    ui::what_is_painted_is_shown(k, k.theme.smoke, gap);
    text::lemma_has_left(ui::dimmed(k, hm), " "@, hm);
    text::lemma_has_left(ui::dimmed(k, hm) + " "@, ui::dimmed(k, gap), hm);
    text::lemma_has_right(ui::dimmed(k, hm) + " "@, ui::dimmed(k, gap), gap);
    if gap.len() == 0 {
        assert(ui::dimmed(k, hm).subrange(0, 0) =~= gap);
        assert(text::occurs_at(ui::dimmed(k, hm), gap, 0));
    }
    assert(text::has(t, hm) && text::has(t, gap));
    let b = ui::filled_to(block_name(k, block), 6);
    let s0 = "  "@;
    let s1 = ui::spaces(ui::room(TIME_W as nat, ui::cell_count(time)));
    let s2 = "  "@;
    let s3 = ui::dimmed(k, b);
    let s4 = "  "@;
    ui::what_is_painted_is_shown(k, k.theme.smoke, b);
    text::lemma_has_right(s0, t, hm);
    text::lemma_has_left(s0 + t, s1, hm);
    text::lemma_has_left(s0 + t + s1, s2, hm);
    text::lemma_has_left(s0 + t + s1 + s2, s3, hm);
    text::lemma_has_left(s0 + t + s1 + s2 + s3, s4, hm);
    text::lemma_has_right(s0, t, gap);
    text::lemma_has_left(s0 + t, s1, gap);
    text::lemma_has_left(s0 + t + s1, s2, gap);
    text::lemma_has_left(s0 + t + s1 + s2, s3, gap);
    text::lemma_has_left(s0 + t + s1 + s2 + s3, s4, gap);
    text::lemma_has_right(s0 + t + s1 + s2, s3, b);
    text::lemma_has_left(s0 + t + s1 + s2 + s3, s4, b);
}

} // verus!
