//! The composer and the chrome around the log: the banner, section rules, the
//! status hairline, the prompt row and the key legend.

use crate::common::Roster;
use crate::scroll;
use crate::text;
use crate::ui;
use crate::ui::{Rgb, Skin, Vista};
use vstd::prelude::*;
use vstd::string::*;

verus! {

// ---------------------------------------------------------------------
// Chrome
// ---------------------------------------------------------------------

/// The glyphs of `r`, each in its colour; spaces stay bare.
pub open spec fn glowing(k: Skin, r: Seq<char>, colours: Seq<Rgb>) -> Seq<char>
    decreases r.len(),
{
    if r.len() == 0 {
        seq![]
    } else {
        let before = glowing(k, r.drop_last(), colours);
        if r.last() == ' ' {
            before + seq![' ']
        } else {
            before + ui::painted(k, colours[r.len() - 1], seq![r.last()])
        }
    }
}

fn glow_row(k: &Skin, r: &str, colours: &Vec<Rgb>) -> (out: String)
    requires
        colours@.len() >= r@.len(),
    ensures
        out@ == glowing(*k, r@, colours@),
{
    let v = text::chars_of(r);
    let mut out = String::new();
    let mut i: usize = 0;
    assert(v@.take(0) =~= Seq::<char>::empty());
    while i < v.len()
        invariant
            i <= v.len(),
            colours@.len() >= v@.len(),
            out@ == glowing(*k, v@.take(i as int), colours@),
        decreases v.len() - i,
    {
        let ghost part = v@.take(i + 1);
        let ghost was = out@;
        assert(part.drop_last() =~= v@.take(i as int));
        let one = text::slice_text(&v, i, i + 1);
        assert(one@ =~= seq![part.last()]);
        if v[i] == ' ' {
            out.append(one.as_str());
        } else {
            out.append(ui::paint(k, colours[i], one.as_str()).as_str());
        }
        i = i + 1;
    }
    assert(v@.take(i as int) =~= v@);
    out
}

/// Each glyph of `r` shaded by its column along the gradient.
pub open spec fn shaded(k: Skin, r: Seq<char>) -> Seq<char> {
    glowing(k, r, ui::gradient(k, r.len()))
}

/// Shade each glyph of `r` by its column along the gradient; spaces stay bare.
pub fn shade_row(k: &Skin, r: &str) -> (out: String)
    requires
        ui::ramp_fits(*k),
        r@.len() < k.ramp@.len(),
    ensures
        out@ == shaded(*k, r@),
{
    let n: usize = r.unicode_len();
    glow_row(k, r, &k.ramp[n])
}

/// What sits under the title, right of the cat: four rows.
pub open spec fn vista_rows(k: Skin) -> Seq<Seq<char>> {
    match k.theme.vista {
        Vista::Skyline => seq![
            shaded(k, "            ◉         ▲"@),
            shaded(k, "   ▂▃▅ ▇█▇ ▐▌ ▃▆█▆ ▐█▌ ▂▅▇▅"@),
            shaded(k, "▁▂▃▅██▇▅███▇▅██▇█████▅▃▇███▅▃▂▁"@),
            ui::fainted(k, "≈≈≈≈≈≈≈≈≈≈≈≈≈≈≈≈≈≈≈≈≈≈≈≈≈≈≈≈≈≈≈≈"@) + ui::dimmed(k, "  黄浦江"@),
        ],
        Vista::Glitch => seq![
            shaded(k, "▚▞▚▚▞▚▞▞▚▞▚▚▞▚▞▚▞▞▚▞▚▚▞▚▞▚▞▞▚▞▚▚"@),
            shaded(k, "▓▒░ SYNC ░▒▓"@) + "  "@ + ui::dimmed(k, "live · synced"@),
            shaded(k, "▁▂▃▄▅▆▇█▇▆▅▄▃▂▁▁▂▃▄▅▆▇█▇▆▅▄▃▂▁▁▂"@),
            ui::fainted(k, "╌╌╌╌╌╌╌╌╌╌╌╌╌╌╌╌╌╌╌╌╌╌╌╌╌╌╌╌╌╌╌╌"@) + ui::dimmed(k, "  雨夜"@),
        ],
        Vista::Proverb => seq![
            ""@,
            ui::plained(k, "海纳百川"@) + "  "@ + ui::dimmed(k, "the sea takes in every river"@),
            ""@,
            ui::fainted(k, "〜〜〜〜〜〜〜〜〜〜〜〜〜〜〜〜"@) + ui::dimmed(k, "  黄浦江"@),
        ],
    }
}

/// What sits under the title, right of the cat: four rows.
pub fn vista(k: &Skin) -> (r: Vec<String>)
    requires
        ui::ramp_fits(*k),
    ensures
        text::texts(r@) == vista_rows(*k),
{
    let mut r = text::none();
    match k.theme.vista {
        // Lujiazui from the Bund side; the `◉` is the Pearl.
        Vista::Skyline => {
            proof {
                reveal_strlit("            ◉         ▲");
                reveal_strlit("   ▂▃▅ ▇█▇ ▐▌ ▃▆█▆ ▐█▌ ▂▅▇▅");
                reveal_strlit("▁▂▃▅██▇▅███▇▅██▇█████▅▃▇███▅▃▂▁");
            }
            text::put(&mut r, shade_row(k, "            ◉         ▲").as_str());
            text::put(&mut r, shade_row(k, "   ▂▃▅ ▇█▇ ▐▌ ▃▆█▆ ▐█▌ ▂▅▇▅").as_str());
            text::put(&mut r, shade_row(k, "▁▂▃▅██▇▅███▇▅██▇█████▅▃▇███▅▃▂▁").as_str());
            let river = ui::faint(k, "≈≈≈≈≈≈≈≈≈≈≈≈≈≈≈≈≈≈≈≈≈≈≈≈≈≈≈≈≈≈≈≈");
            text::put(&mut r, river.concat(ui::dim(k, "  黄浦江").as_str()).as_str());
        },
        // Signal bars and a scanline; the rain on the glass.
        Vista::Glitch => {
            proof {
                reveal_strlit("▚▞▚▚▞▚▞▞▚▞▚▚▞▚▞▚▞▞▚▞▚▚▞▚▞▚▞▞▚▞▚▚");
                reveal_strlit("▓▒░ SYNC ░▒▓");
                reveal_strlit("▁▂▃▄▅▆▇█▇▆▅▄▃▂▁▁▂▃▄▅▆▇█▇▆▅▄▃▂▁▁▂");
            }
            text::put(&mut r, shade_row(k, "▚▞▚▚▞▚▞▞▚▞▚▚▞▚▞▚▞▞▚▞▚▚▞▚▞▚▞▞▚▞▚▚").as_str());
            let live = ui::dim(k, "live · synced");
            let sync = shade_row(k, "▓▒░ SYNC ░▒▓");
            text::put(&mut r, sync.concat("  ").concat(live.as_str()).as_str());
            text::put(&mut r, shade_row(k, "▁▂▃▄▅▆▇█▇▆▅▄▃▂▁▁▂▃▄▅▆▇█▇▆▅▄▃▂▁▁▂").as_str());
            let rain = ui::faint(k, "╌╌╌╌╌╌╌╌╌╌╌╌╌╌╌╌╌╌╌╌╌╌╌╌╌╌╌╌╌╌╌╌");
            text::put(&mut r, rain.concat(ui::dim(k, "  雨夜").as_str()).as_str());
        },
        // Shanghai's own motto, and nothing else.
        Vista::Proverb => {
            text::put(&mut r, "");
            let motto = ui::plain(k, "海纳百川");
            let sense = ui::dim(k, "the sea takes in every river");
            text::put(&mut r, motto.concat("  ").concat(sense.as_str()).as_str());
            text::put(&mut r, "");
            let river = ui::faint(k, "〜〜〜〜〜〜〜〜〜〜〜〜〜〜〜〜");
            text::put(&mut r, river.concat(ui::dim(k, "  黄浦江").as_str()).as_str());
        },
    }
    assert(text::texts(r@) =~= vista_rows(*k));
    r
}

/// What stands right of the cat.
pub open spec fn beside_rows(k: Skin, version: Seq<char>) -> Seq<Seq<char>> {
    seq![
        ui::bolded(k, k.theme.accent, k.theme.title@) + "  "@ + ui::dimmed(k, k.theme.subtitle@),
        ui::dimmed(k, ui::shouted(k, k.theme.tagline@)),
        ""@,
        ui::dimmed(k, "kot"@) + " "@ + ui::dimmed(k, version),
    ] + vista_rows(k)
}

/// The cat's row `i`, padded, and what stands right of it.
pub open spec fn banner_row(
    k: Skin,
    art: Seq<Seq<char>>,
    glow: Seq<Seq<Rgb>>,
    version: Seq<char>,
    i: int,
) -> Seq<char> {
    let side = beside_rows(k, version);
    let right = if 5 <= i < 5 + side.len() {
        side[i - 5]
    } else {
        ""@
    };
    glowing(k, art[i], glow[i]) + ui::spaces(ui::room(42, art[i].len())) + "  "@ + right
}

pub open spec fn banner_rows(
    k: Skin,
    art: Seq<Seq<char>>,
    glow: Seq<Seq<Rgb>>,
    version: Seq<char>,
) -> Seq<Seq<char>> {
    Seq::new(art.len(), |i: int| banner_row(k, art, glow, version, i)).push(""@)
}

pub open spec fn colour_rows(v: Seq<Vec<Rgb>>) -> Seq<Seq<Rgb>> {
    Seq::new(v.len(), |i: int| v[i]@)
}

/// The banner: every glyph of `art` lit by its own colour in `glow`, so the cat
/// reads as one neon sign rather than stripes. Title and vista to its right.
pub fn banner(k: &Skin, art: &Vec<String>, glow: &Vec<Vec<Rgb>>, version: &str) -> (r: String)
    requires
        ui::ramp_fits(*k),
        glow@.len() == art@.len(),
        forall|i: int| 0 <= i < art@.len() ==> (#[trigger] glow@[i])@.len() >= art@[i]@.len(),
    ensures
        r@ == text::joined(
            banner_rows(*k, text::texts(art@), colour_rows(glow@), version@),
            "\n"@,
        ),
{
    let t = &k.theme;
    let mut side = text::none();
    let title = ui::bold(k, t.accent, t.title).concat("  ").concat(
        ui::dim(k, t.subtitle).as_str(),
    );
    text::put(&mut side, title.as_str());
    text::put(&mut side, ui::dim(k, ui::shout(k, t.tagline).as_str()).as_str());
    text::put(&mut side, "");
    let build = ui::dim(k, "kot").concat(" ").concat(ui::dim(k, version).as_str());
    text::put(&mut side, build.as_str());
    let mut v = vista(k);
    let ghost four = text::texts(side@);
    let ghost rest = text::texts(v@);
    side.append(&mut v);
    assert(text::texts(side@) =~= four + rest);
    assert(text::texts(side@) =~= beside_rows(*k, version@));
    assert(side@.len() == 8);
    let ghost want = banner_rows(*k, text::texts(art@), colour_rows(glow@), version@);
    let mut out = text::none();
    let mut i: usize = 0;
    assert(want.take(0) =~= Seq::<Seq<char>>::empty());
    while i < art.len()
        invariant
            i <= art.len(),
            side@.len() == 8,
            text::texts(side@) == beside_rows(*k, version@),
            glow@.len() == art@.len(),
            forall|i: int| 0 <= i < art@.len() ==> (#[trigger] glow@[i])@.len() >= art@[i]@.len(),
            want == banner_rows(*k, text::texts(art@), colour_rows(glow@), version@),
            text::texts(out@) == want.take(i as int),
        decreases art.len() - i,
    {
        assert(glow@[i as int]@.len() >= art@[i as int]@.len());
        let row = glow_row(k, art[i].as_str(), &glow[i]);
        let len: usize = art[i].as_str().unicode_len();
        let pad = ui::space(ui::left(42, len as u128) as u128);
        let right = if 5 <= i && i - 5 < side.len() {
            side[i - 5].clone()
        } else {
            "".to_owned()
        };
        let one = row.concat(pad.as_str()).concat("  ").concat(right.as_str());
        assert(want.take(i + 1) =~= want.take(i as int).push(one@));
        text::put(&mut out, one.as_str());
        i = i + 1;
    }
    text::put(&mut out, "");
    assert(text::texts(out@) =~= want);
    text::join(&out, "\n")
}

pub open spec fn labelled(k: Skin, zh: Seq<char>, en: Seq<char>, val: Seq<char>) -> Seq<char> {
    let label = if k.theme.bracket_labels {
        "["@ + zh + "]"@
    } else {
        zh
    };
    "  "@ + ui::painted(k, k.theme.accent, label) + " "@ + ui::dimmed(
        k,
        ui::filled_to(ui::shouted(k, en), 7),
    ) + " "@ + val
}

/// A value behind its two-language label.
pub fn kv(k: &Skin, zh: &str, en: &str, val: &str) -> (r: String)
    ensures
        r@ == labelled(*k, zh@, en@, val@),
{
    let label = if k.theme.bracket_labels {
        String::from_str("[").concat(zh).concat("]")
    } else {
        zh.to_owned()
    };
    String::from_str("  ").concat(ui::paint(k, k.theme.accent, label.as_str()).as_str()).concat(
        " ",
    ).concat(ui::dim(k, ui::fill_to(ui::shout(k, en).as_str(), 7).as_str()).as_str()).concat(
        " ",
    ).concat(val)
}

pub open spec fn section_text(k: Skin, zh: Seq<char>, en: Seq<char>) -> Seq<char> {
    let loud = ui::shouted(k, en);
    let lead = if k.theme.bracket_labels {
        ui::fainted(k, "//"@) + " "@
    } else {
        ui::ruled(k, 3) + " "@
    };
    let label_w = ui::cell_count(zh) + 1 + ui::cell_count(loud);
    let rest = ui::room_for(k.width as nat, 2 + ui::shown_cells(lead) + label_w + 1, 3);
    "\n  "@ + lead + ui::bolded(k, k.theme.paper, zh) + " "@ + ui::dimmed(k, loud) + " "@
        + ui::ruled(k, rest)
}

/// A section's heading, ruled off to the terminal's edge.
pub fn section(k: &Skin, zh: &str, en: &str) -> (r: String)
    requires
        ui::ramp_fits(*k),
    ensures
        r@ == section_text(*k, zh@, en@),
{
    let loud = ui::shout(k, en);
    let lead = if k.theme.bracket_labels {
        ui::faint(k, "//").concat(" ")
    } else {
        ui::rule(k, 3).concat(" ")
    };
    let label_w: u128 = ui::measure(zh) + 1 + ui::measure(loud.as_str());
    let used: u128 = 2 + ui::shown(lead.as_str()) + label_w + 1;
    let rest: usize = ui::left_or(k.width, used, 3);
    String::from_str("\n  ").concat(lead.as_str()).concat(
        ui::bold(k, k.theme.paper, zh).as_str(),
    ).concat(" ").concat(ui::dim(k, loud.as_str()).as_str()).concat(" ").concat(
        ui::rule(k, rest).as_str(),
    )
}

// ---------------------------------------------------------------------
// Keys
// ---------------------------------------------------------------------

pub open spec fn key_text(k: Skin, name: Seq<char>, what: Seq<char>) -> Seq<char> {
    ui::plained(k, name) + " "@ + ui::dimmed(k, what)
}

/// A key and what it does: the key legible, the label quiet.
pub fn key(k: &Skin, name: &str, what: &str) -> (r: String)
    ensures
        r@ == key_text(*k, name@, what@),
{
    ui::plain(k, name).concat(" ").concat(ui::dim(k, what).as_str())
}

/// Two keys side by side.
pub open spec fn key_row(
    k: Skin,
    a: Seq<char>,
    does_a: Seq<char>,
    b: Seq<char>,
    does_b: Seq<char>,
) -> Seq<char> {
    let left = key_text(k, a, does_a);
    "      "@ + left + ui::spaces(ui::room(34, ui::shown_cells(left))) + key_text(k, b, does_b)
}

fn key_row_text(k: &Skin, a: &str, does_a: &str, b: &str, does_b: &str) -> (r: String)
    ensures
        r@ == key_row(*k, a@, does_a@, b@, does_b@),
{
    let left = key(k, a, does_a);
    let gap = ui::space(ui::left(34, ui::shown(left.as_str())) as u128);
    String::from_str("      ").concat(left.as_str()).concat(gap.as_str()).concat(
        key(k, b, does_b).as_str(),
    )
}

/// The whole control scheme.
pub open spec fn key_rows(k: Skin) -> Seq<Seq<char>> {
    seq![
        ""@,
        key_row(k, "⌃a  ⌃e"@, "start · end of line"@, "⌃k"@, "kill to end"@),
        key_row(k, "⌃b  ⌃f  ← →"@, "char back · forward"@, "⌃w"@, "kill word back"@),
        key_row(k, "⌃p  ⌃n  ↑ ↓"@, "history back · forward"@, "⌃y"@, "yank"@),
        key_row(k, "⌃u"@, "undo"@, "⌃r"@, "search history"@),
        key_row(k, "⇥  ⇧⇥"@, "complete @name / cmd, cycle"@, "⌃c"@, "clear the draft"@),
        key_row(k, "⌃d"@, "delete forward, or quit if empty"@, "⏎"@, "send"@),
        ""@,
        "      "@ + ui::dimmed(
            k,
            "say something → the litter, or @name a cat. /keys shows this again."@,
        ),
        ""@,
    ]
}

/// The whole control scheme, printed into the log like any other output.
pub fn keys(k: &Skin) -> (r: String)
    ensures
        r@ == text::joined(key_rows(*k), "\n"@),
{
    let mut out = text::none();
    text::put(&mut out, "");
    text::put(
        &mut out,
        key_row_text(k, "⌃a  ⌃e", "start · end of line", "⌃k", "kill to end").as_str(),
    );
    text::put(
        &mut out,
        key_row_text(k, "⌃b  ⌃f  ← →", "char back · forward", "⌃w", "kill word back").as_str(),
    );
    text::put(
        &mut out,
        key_row_text(k, "⌃p  ⌃n  ↑ ↓", "history back · forward", "⌃y", "yank").as_str(),
    );
    text::put(&mut out, key_row_text(k, "⌃u", "undo", "⌃r", "search history").as_str());
    text::put(
        &mut out,
        key_row_text(k, "⇥  ⇧⇥", "complete @name / cmd, cycle", "⌃c", "clear the draft").as_str(),
    );
    text::put(
        &mut out,
        key_row_text(k, "⌃d", "delete forward, or quit if empty", "⏎", "send").as_str(),
    );
    text::put(&mut out, "");
    let hint = ui::dim(k, "say something → the litter, or @name a cat. /keys shows this again.");
    text::put(&mut out, String::from_str("      ").concat(hint.as_str()).as_str());
    text::put(&mut out, "");
    assert(text::texts(out@) =~= key_rows(*k));
    text::join(&out, "\n")
}

/// The hint row.
pub open spec fn hint_keys(k: Skin) -> Seq<Seq<char>> {
    seq![
        key_text(k, "⇥"@, "complete"@),
        key_text(k, "⌃r"@, "search"@),
        key_text(k, "↑↓"@, "history"@),
        key_text(k, "⌃d"@, "quit"@),
        key_text(k, "/keys"@, "all bindings"@),
    ]
}

/// The hint row: the keys worth knowing.
pub fn hint(k: &Skin) -> (r: String)
    ensures
        r@ == text::joined(hint_keys(*k), "   "@),
{
    let mut v = text::none();
    text::put(&mut v, key(k, "⇥", "complete").as_str());
    text::put(&mut v, key(k, "⌃r", "search").as_str());
    text::put(&mut v, key(k, "↑↓", "history").as_str());
    text::put(&mut v, key(k, "⌃d", "quit").as_str());
    text::put(&mut v, key(k, "/keys", "all bindings").as_str());
    assert(text::texts(v@) =~= hint_keys(*k));
    text::join(&v, "   ")
}

// ---------------------------------------------------------------------
// The composer
// ---------------------------------------------------------------------

/// How many lines wait for their seal.
pub open spec fn pending_text(k: Skin, sealing: nat) -> Seq<char> {
    if sealing == 0 {
        ""@
    } else if sealing == 1 {
        ui::painted(k, k.theme.warm, "◌ sealing…"@) + "  "@
    } else {
        ui::painted(k, k.theme.warm, "◌ sealing "@ + text::dec(sealing) + "…"@) + "  "@
    }
}

pub open spec fn status_text(
    k: Skin,
    node: Seq<char>,
    primary: Seq<char>,
    head: u64,
    sealing: nat,
) -> Seq<char> {
    let status = pending_text(k, sealing) + ui::painted(k, k.theme.progress, "●"@) + " "@
        + ui::dimmed(k, node) + " "@ + ui::dimmed(k, "→"@) + " "@ + ui::whom(k, primary) + " "@
        + ui::dimmed(k, "·"@) + " "@ + ui::dimmed(k, "head "@ + scroll::block_name(k, head));
    "  "@ + ui::ruled(k, ui::room_for(k.width as nat, 4 + ui::shown_cells(status), 3)) + "  "@
        + status
}

/// The hairline: connection status, right-aligned. The node this client talks
/// to, the primary that will actually seal the block, the head it has seen.
pub fn composer_status(k: &Skin, node: &str, primary: &str, head: u64, sealing: usize) -> (r:
    String)
    requires
        ui::ramp_fits(*k),
    ensures
        r@ == status_text(*k, node@, primary@, head, sealing as nat),
{
    let t = &k.theme;
    let pending = if sealing == 0 {
        "".to_owned()
    } else if sealing == 1 {
        ui::paint(k, t.warm, "◌ sealing…").concat("  ")
    } else {
        let words = String::from_str("◌ sealing ").concat(
            text::number(sealing as u64).as_str(),
        ).concat("…");
        ui::paint(k, t.warm, words.as_str()).concat("  ")
    };
    let at = String::from_str("head ").concat(scroll::block_id(k, head).as_str());
    let status = pending.concat(ui::paint(k, t.progress, "●").as_str()).concat(" ").concat(
        ui::dim(k, node).as_str(),
    ).concat(" ").concat(ui::dim(k, "→").as_str()).concat(" ").concat(
        ui::who(k, primary).as_str(),
    ).concat(" ").concat(ui::dim(k, "·").as_str()).concat(" ").concat(
        ui::dim(k, at.as_str()).as_str(),
    );
    let rest: usize = ui::left_or(k.width, 4 + ui::shown(status.as_str()), 3);
    String::from_str("  ").concat(ui::rule(k, rest).as_str()).concat("  ").concat(status.as_str())
}

/// The draft before the cursor and from it on.
pub open spec fn draft_parts(draft: Seq<char>, cursor: nat) -> (Seq<char>, Seq<char>) {
    if cursor <= draft.len() {
        (draft.take(cursor as int), draft.skip(cursor as int))
    } else {
        (draft, ""@)
    }
}

pub open spec fn composer_view(
    k: Skin,
    node: Seq<char>,
    primary: Seq<char>,
    head: u64,
    me: Seq<char>,
    target: Seq<char>,
    draft: Seq<char>,
    cursor: nat,
    roster: Seq<(Seq<char>, Seq<u8>)>,
    hint: Seq<char>,
) -> Seq<Seq<char>> {
    let prompt = scroll::prompt_text(k, me, Some(target));
    let (before, after) = draft_parts(draft, cursor);
    let rows = seq![
        ""@,
        status_text(k, node, primary, head, 0),
        "  "@ + prompt + ui::lit(k, before, roster) + ui::painted(
            k,
            k.theme.accent,
            k.theme.cursor@,
        ) + ui::lit(k, after, roster),
    ];
    if hint.len() == 0 {
        rows
    } else {
        rows.push("  "@ + ui::spaces(ui::shown_cells(prompt)) + hint)
    }
}

/// The composer: the hairline, the prompt with its target, the draft with its
/// `@name`s lit around the cursor, and a hint row.
pub fn composer_lines(
    k: &Skin,
    node: &str,
    primary: &str,
    head: u64,
    me: &str,
    target: &str,
    draft: &str,
    cursor: usize,
    roster: &Roster,
    hint: &str,
) -> (r: Vec<String>)
    requires
        ui::ramp_fits(*k),
    ensures
        text::texts(r@) == composer_view(
            *k,
            node@,
            primary@,
            head,
            me@,
            target@,
            draft@,
            cursor as nat,
            roster@,
            hint@,
        ),
{
    let mut out = text::none();
    text::put(&mut out, "");
    text::put(&mut out, composer_status(k, node, primary, head, 0).as_str());
    let prompt = scroll::prompt(k, me, Some(target));
    let v = text::chars_of(draft);
    let at: usize = if cursor < v.len() {
        cursor
    } else {
        v.len()
    };
    let before = text::slice_text(&v, 0, at);
    let after = text::slice_text(&v, at, v.len());
    proof {
        reveal_strlit("");
        assert(before@ =~= draft_parts(draft@, cursor as nat).0);
        assert(after@ =~= draft_parts(draft@, cursor as nat).1);
    }
    let row = String::from_str("  ").concat(prompt.as_str()).concat(
        ui::tags(k, before.as_str(), roster).as_str(),
    ).concat(ui::paint(k, k.theme.accent, k.theme.cursor).as_str()).concat(
        ui::tags(k, after.as_str(), roster).as_str(),
    );
    text::put(&mut out, row.as_str());
    if !hint.is_empty() {
        let gap = ui::space(ui::shown(prompt.as_str()));
        let last = String::from_str("  ").concat(gap.as_str()).concat(hint);
        text::put(&mut out, last.as_str());
    }
    assert(text::texts(out@) =~= composer_view(
        *k,
        node@,
        primary@,
        head,
        me@,
        target@,
        draft@,
        cursor as nat,
        roster@,
        hint@,
    ));
    out
}

} // verus!
