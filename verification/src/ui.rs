//! The look: skins, colour, and how much room a text takes on a terminal.
//!
//! Everything here is drawn for a [`Skin`]: whether colour is on, how wide the
//! terminal is, and which theme was picked. Asking the terminal and the
//! environment for these is the caller's.

use crate::activity;
use crate::common;
use crate::common::Roster;
use crate::outside;
use crate::text;
use vstd::prelude::*;
use vstd::string::*;

verus! {

#[derive(Clone, Copy, Debug, PartialEq, Eq, Structural)]
pub struct Rgb(pub u8, pub u8, pub u8);

pub const OFF: &'static str = "\x1b[0m";

pub const BOLD: &'static str = "\x1b[1m";

/// What sits under the banner's title, right of the cat.
#[derive(Clone, Copy, Debug, PartialEq, Eq, Structural)]
pub enum Vista {
    Skyline,
    Glitch,
    Proverb,
}

/// A skin's colours, words and glyphs.
#[derive(Clone, Copy, Debug)]
pub struct Theme {
    pub name: &'static str,
    /// Labels, the prompt glyph, the operator's chop.
    pub accent: Rgb,
    /// Closed.
    pub done: Rgb,
    /// Claimed and submitted.
    pub progress: Rgb,
    /// Directed.
    pub alarm: Rgb,
    /// Nudged, stale.
    pub warm: Rgb,
    pub paper: Rgb,
    pub smoke: Rgb,
    pub ink: Rgb,
    /// One colour per cat.
    pub root: Rgb,
    pub meow: Rgb,
    pub tama: Rgb,
    pub kuro: Rgb,
    pub sora: Rgb,
    pub mimi: Rgb,
    pub title: &'static str,
    pub subtitle: &'static str,
    pub tagline: &'static str,
    pub vista: Vista,
    pub rule: &'static str,
    pub prompt: &'static str,
    pub cursor: &'static str,
    /// Block numbers: `#1176` or `0x0498`.
    pub hex_blocks: bool,
    /// Section labels and verbs shouted.
    pub upper: bool,
    pub bracket_labels: bool,
}

/// 外滩, the Bund after dark. Pearl Tower pink through violet into Lujiazui cyan,
/// gold for the operator.
pub open spec fn bund() -> Theme {
    Theme {
        name: "bund",
        accent: Rgb(255, 45, 149),
        done: Rgb(255, 194, 51),
        progress: Rgb(46, 230, 166),
        alarm: Rgb(255, 75, 62),
        warm: Rgb(255, 138, 61),
        paper: Rgb(232, 232, 236),
        smoke: Rgb(140, 146, 160),
        ink: Rgb(78, 82, 96),
        root: Rgb(255, 194, 51),
        meow: Rgb(255, 45, 149),
        tama: Rgb(0, 229, 255),
        kuro: Rgb(177, 124, 255),
        sora: Rgb(46, 230, 166),
        mimi: Rgb(255, 138, 61),
        title: "恶魔猫窝",
        subtitle: "· akuma tea house",
        tagline: "distributed cat system",
        vista: Vista::Skyline,
        rule: "─",
        prompt: "▸",
        cursor: "▍",
        hex_blocks: false,
        upper: false,
        bracket_labels: false,
    }
}

/// 霓虹, Lujiazui in the rain. Acid magenta, electric blue, toxic green; hex block
/// ids, shouted verbs.
pub open spec fn neon() -> Theme {
    Theme {
        name: "neon",
        accent: Rgb(255, 0, 200),
        done: Rgb(57, 255, 20),
        progress: Rgb(0, 240, 255),
        alarm: Rgb(255, 60, 90),
        warm: Rgb(255, 210, 0),
        paper: Rgb(220, 240, 255),
        smoke: Rgb(132, 148, 184),
        ink: Rgb(70, 80, 110),
        root: Rgb(255, 210, 0),
        meow: Rgb(255, 0, 200),
        tama: Rgb(0, 240, 255),
        kuro: Rgb(150, 90, 255),
        sora: Rgb(57, 255, 20),
        mimi: Rgb(255, 120, 40),
        title: "恶魔猫窝",
        subtitle: "// A K U M A · T E A  H O U S E",
        tagline: "[ distributed cat system ]",
        vista: Vista::Glitch,
        rule: "═",
        prompt: "❯",
        cursor: "█",
        hex_blocks: true,
        upper: true,
        bracket_labels: true,
    }
}

/// 水墨, ink wash. Greys, muted earth tones for the cats, one vermilion seal for
/// the operator and the prompt.
pub open spec fn ink() -> Theme {
    Theme {
        name: "ink",
        accent: Rgb(204, 60, 48),
        done: Rgb(204, 60, 48),
        progress: Rgb(120, 160, 110),
        alarm: Rgb(204, 60, 48),
        warm: Rgb(196, 160, 90),
        paper: Rgb(226, 224, 218),
        smoke: Rgb(150, 150, 146),
        ink: Rgb(96, 96, 98),
        root: Rgb(204, 60, 48),
        meow: Rgb(160, 110, 150),
        tama: Rgb(92, 107, 192),
        kuro: Rgb(130, 150, 170),
        sora: Rgb(120, 160, 110),
        mimi: Rgb(196, 160, 90),
        title: "恶魔猫窝",
        subtitle: "  akuma tea house",
        tagline: "distributed cat system",
        vista: Vista::Proverb,
        rule: "╌",
        prompt: "›",
        cursor: "▏",
        hex_blocks: false,
        upper: false,
        bracket_labels: false,
    }
}

/// The skin of this name; the Bund where there is none.
pub open spec fn theme_named(name: Seq<char>) -> Theme {
    if name == "neon"@ {
        neon()
    } else if name == "ink"@ {
        ink()
    } else {
        bund()
    }
}

/// Picks a skin by name: `bund`, `neon` or `ink`; the first where the name is
/// none of them.
pub fn theme(name: &str) -> (r: Theme)
    ensures
        r == theme_named(name@),
{
    if text::same(name, "neon") {
        Theme {
            name: "neon",
            accent: Rgb(255, 0, 200),
            done: Rgb(57, 255, 20),
            progress: Rgb(0, 240, 255),
            alarm: Rgb(255, 60, 90),
            warm: Rgb(255, 210, 0),
            paper: Rgb(220, 240, 255),
            smoke: Rgb(132, 148, 184),
            ink: Rgb(70, 80, 110),
            root: Rgb(255, 210, 0),
            meow: Rgb(255, 0, 200),
            tama: Rgb(0, 240, 255),
            kuro: Rgb(150, 90, 255),
            sora: Rgb(57, 255, 20),
            mimi: Rgb(255, 120, 40),
            title: "恶魔猫窝",
            subtitle: "// A K U M A · T E A  H O U S E",
            tagline: "[ distributed cat system ]",
            vista: Vista::Glitch,
            rule: "═",
            prompt: "❯",
            cursor: "█",
            hex_blocks: true,
            upper: true,
            bracket_labels: true,
        }
    } else if text::same(name, "ink") {
        Theme {
            name: "ink",
            accent: Rgb(204, 60, 48),
            done: Rgb(204, 60, 48),
            progress: Rgb(120, 160, 110),
            alarm: Rgb(204, 60, 48),
            warm: Rgb(196, 160, 90),
            paper: Rgb(226, 224, 218),
            smoke: Rgb(150, 150, 146),
            ink: Rgb(96, 96, 98),
            root: Rgb(204, 60, 48),
            meow: Rgb(160, 110, 150),
            tama: Rgb(92, 107, 192),
            kuro: Rgb(130, 150, 170),
            sora: Rgb(120, 160, 110),
            mimi: Rgb(196, 160, 90),
            title: "恶魔猫窝",
            subtitle: "  akuma tea house",
            tagline: "distributed cat system",
            vista: Vista::Proverb,
            rule: "╌",
            prompt: "›",
            cursor: "▏",
            hex_blocks: false,
            upper: false,
            bracket_labels: false,
        }
    } else {
        Theme {
            name: "bund",
            accent: Rgb(255, 45, 149),
            done: Rgb(255, 194, 51),
            progress: Rgb(46, 230, 166),
            alarm: Rgb(255, 75, 62),
            warm: Rgb(255, 138, 61),
            paper: Rgb(232, 232, 236),
            smoke: Rgb(140, 146, 160),
            ink: Rgb(78, 82, 96),
            root: Rgb(255, 194, 51),
            meow: Rgb(255, 45, 149),
            tama: Rgb(0, 229, 255),
            kuro: Rgb(177, 124, 255),
            sora: Rgb(46, 230, 166),
            mimi: Rgb(255, 138, 61),
            title: "恶魔猫窝",
            subtitle: "· akuma tea house",
            tagline: "distributed cat system",
            vista: Vista::Skyline,
            rule: "─",
            prompt: "▸",
            cursor: "▍",
            hex_blocks: false,
            upper: false,
            bracket_labels: false,
        }
    }
}

/// What everything is drawn for.
#[derive(Clone, Debug)]
pub struct Skin {
    /// Off under `NO_COLOR`, and where the output is not a terminal.
    pub colour: bool,
    /// Columns of the terminal.
    pub width: usize,
    pub theme: Theme,
    /// The theme's gradient over `n` cells, for every `n` below the length: one
    /// colour per cell.
    pub ramp: Vec<Vec<Rgb>>,
}

// ---------------------------------------------------------------------
// Paint
// ---------------------------------------------------------------------

/// The escape that turns this colour on.
pub open spec fn escape(k: Skin, c: Rgb) -> Seq<char> {
    if k.colour {
        "\x1b[38;2;"@ + text::dec(c.0 as nat) + ";"@ + text::dec(c.1 as nat) + ";"@ + text::dec(
            c.2 as nat,
        ) + "m"@
    } else {
        ""@
    }
}

pub open spec fn painted(k: Skin, c: Rgb, s: Seq<char>) -> Seq<char> {
    if k.colour {
        escape(k, c) + s + OFF@
    } else {
        s
    }
}

pub open spec fn bolded(k: Skin, c: Rgb, s: Seq<char>) -> Seq<char> {
    if k.colour {
        BOLD@ + escape(k, c) + s + OFF@
    } else {
        s
    }
}

pub open spec fn dimmed(k: Skin, s: Seq<char>) -> Seq<char> {
    painted(k, k.theme.smoke, s)
}

pub open spec fn fainted(k: Skin, s: Seq<char>) -> Seq<char> {
    painted(k, k.theme.ink, s)
}

pub open spec fn plained(k: Skin, s: Seq<char>) -> Seq<char> {
    painted(k, k.theme.paper, s)
}

/// A text with every letter made a capital.
pub open spec fn capitals(s: Seq<char>) -> Seq<char> {
    if text::is_plain(s) {
        text::raised(s)
    } else {
        outside::uppercased(s)
    }
}

pub open spec fn shouted(k: Skin, s: Seq<char>) -> Seq<char> {
    if k.theme.upper {
        capitals(s)
    } else {
        s
    }
}

impl Rgb {
    /// The escape that turns this colour on.
    pub fn fg(self, k: &Skin) -> (r: String)
        ensures
            r@ == escape(*k, self),
    {
        if k.colour {
            String::from_str("\x1b[38;2;").concat(text::number(self.0 as u64).as_str()).concat(
                ";",
            ).concat(text::number(self.1 as u64).as_str()).concat(";").concat(
                text::number(self.2 as u64).as_str(),
            ).concat("m")
        } else {
            "".to_owned()
        }
    }
}

pub fn paint(k: &Skin, c: Rgb, s: &str) -> (r: String)
    ensures
        r@ == painted(*k, c, s@),
{
    if !k.colour {
        return s.to_owned();
    }
    c.fg(k).concat(s).concat(OFF)
}

pub fn bold(k: &Skin, c: Rgb, s: &str) -> (r: String)
    ensures
        r@ == bolded(*k, c, s@),
{
    if !k.colour {
        return s.to_owned();
    }
    BOLD.to_owned().concat(c.fg(k).as_str()).concat(s).concat(OFF)
}

pub fn dim(k: &Skin, s: &str) -> (r: String)
    ensures
        r@ == dimmed(*k, s@),
{
    paint(k, k.theme.smoke, s)
}

pub fn faint(k: &Skin, s: &str) -> (r: String)
    ensures
        r@ == fainted(*k, s@),
{
    paint(k, k.theme.ink, s)
}

pub fn plain(k: &Skin, s: &str) -> (r: String)
    ensures
        r@ == plained(*k, s@),
{
    paint(k, k.theme.paper, s)
}

/// A peer gone stale, a retry, anything that wants attention without being an
/// alarm.
pub fn warn(k: &Skin, s: &str) -> (r: String)
    ensures
        r@ == painted(*k, k.theme.warm, s@),
{
    paint(k, k.theme.warm, s)
}

/// A hard failure: no quorum, a peer that never answered.
pub fn alert(k: &Skin, s: &str) -> (r: String)
    ensures
        r@ == painted(*k, k.theme.alarm, s@),
{
    paint(k, k.theme.alarm, s)
}

/// A confirmation: submitted, cleared, quorum restored.
pub fn ok(k: &Skin, s: &str) -> (r: String)
    ensures
        r@ == painted(*k, k.theme.progress, s@),
{
    paint(k, k.theme.progress, s)
}

pub fn shout(k: &Skin, s: &str) -> (r: String)
    ensures
        r@ == shouted(*k, s@),
{
    if k.theme.upper {
        outside::to_upper(s)
    } else {
        s.to_owned()
    }
}

// ---------------------------------------------------------------------
// Room
// ---------------------------------------------------------------------

/// A character that takes two cells.
pub open spec fn is_wide(c: char) -> bool {
    let u = c as u32;
    ||| 0x1100 <= u <= 0x115F
    ||| 0x2E80 <= u <= 0xA4CF
    ||| 0xAC00 <= u <= 0xD7A3
    ||| 0xF900 <= u <= 0xFAFF
    ||| 0xFE30 <= u <= 0xFE4F
    ||| 0xFF00 <= u <= 0xFF60
    ||| 0xFFE0 <= u <= 0xFFE6
}

pub open spec fn char_cells(c: char) -> nat {
    if is_wide(c) {
        2
    } else {
        1
    }
}

/// Cells an uncoloured text takes.
pub open spec fn cell_count(s: Seq<char>) -> nat
    decreases s.len(),
{
    if s.len() == 0 {
        0
    } else {
        cell_count(s.drop_last()) + char_cells(s.last())
    }
}

pub proof fn lemma_cell_count(s: Seq<char>)
    ensures
        s.len() <= cell_count(s) <= 2 * s.len(),
    decreases s.len(),
{
    if s.len() > 0 {
        lemma_cell_count(s.drop_last());
    }
}

pub fn cells_of(c: char) -> (r: u128)
    ensures
        r == char_cells(c),
{
    let u: u32 = c as u32;
    if (0x1100 <= u && u <= 0x115F) || (0x2E80 <= u && u <= 0xA4CF) || (0xAC00 <= u && u <= 0xD7A3)
        || (0xF900 <= u && u <= 0xFAFF) || (0xFE30 <= u && u <= 0xFE4F) || (0xFF00 <= u && u
        <= 0xFF60) || (0xFFE0 <= u && u <= 0xFFE6) {
        2
    } else {
        1
    }
}

/// Cells an uncoloured text takes, however long it is.
pub fn measure(s: &str) -> (n: u128)
    ensures
        n == cell_count(s@),
        n <= 2 * usize::MAX,
{
    let v = text::chars_of(s);
    let mut n: u128 = 0;
    let mut i: usize = 0;
    assert(v@.take(0) =~= Seq::<char>::empty());
    while i < v.len()
        invariant
            i <= v.len(),
            n == cell_count(v@.take(i as int)),
            n <= 2 * i,
        decreases v.len() - i,
    {
        assert(v@.take(i + 1).drop_last() =~= v@.take(i as int));
        n = n + cells_of(v[i]);
        i = i + 1;
    }
    assert(v@.take(i as int) =~= v@);
    n
}

/// Cells a plain (uncoloured) string occupies: CJK is two wide.
pub fn cells(s: &str) -> (n: usize)
    requires
        cell_count(s@) <= usize::MAX,
    ensures
        n == cell_count(s@),
{
    measure(s) as usize
}

/// `s` without its escape sequences, each of which runs from an escape to the
/// next `m`: what the terminal will actually place in cells.
pub open spec fn stripped(s: Seq<char>) -> Seq<char>
    decreases s.len(),
{
    if s.len() == 0 {
        seq![]
    } else if s[0] == '\x1b' {
        let rest = s.skip(1);
        let n = text::first(rest, 'm');
        if n >= rest.len() {
            seq![]
        } else {
            stripped(rest.skip(n as int + 1))
        }
    } else {
        seq![s[0]] + stripped(s.skip(1))
    }
}

/// `s` with its `\x1b[...m` sequences removed.
pub fn strip_ansi(s: &str) -> (out: String)
    ensures
        out@ == stripped(s@),
{
    let v = text::chars_of(s);
    let mut out = String::new();
    let mut i: usize = 0;
    assert(v@.skip(0) =~= v@);
    assert(out@ + stripped(v@) =~= stripped(v@));
    while i < v.len()
        invariant
            i <= v.len(),
            v@ == s@,
            out@ + stripped(v@.skip(i as int)) == stripped(v@),
        decreases v.len() - i,
    {
        let ghost here = v@.skip(i as int);
        assert(here[0] == v@[i as int]);
        assert(here.skip(1) =~= v@.skip(i + 1));
        if v[i] == '\x1b' {
            let n: usize = text::find_char(&v, i + 1, 'm');
            if i + 1 + n == v.len() {
                assert(stripped(here) =~= Seq::<char>::empty());
                assert(out@ + stripped(here) =~= out@);
                return out;
            }
            assert(here.skip(1).skip(n + 1) =~= v@.skip(i + n + 2));
            i = i + n + 2;
        } else {
            let ghost was = out@;
            out.push(v[i]);
            assert(was + (seq![v@[i as int]] + stripped(v@.skip(i + 1))) =~= out@ + stripped(
                v@.skip(i + 1),
            ));
            i = i + 1;
        }
    }
    assert(v@.skip(i as int) =~= Seq::<char>::empty());
    assert(out@ + stripped(v@.skip(i as int)) =~= out@);
    out
}

/// Cells a text takes whose escape sequences count for nothing.
pub open spec fn shown_cells(s: Seq<char>) -> nat {
    cell_count(stripped(s))
}

/// Cells a coloured text takes, however long it is.
pub fn shown(s: &str) -> (n: u128)
    ensures
        n == shown_cells(s@),
        n <= 2 * usize::MAX,
{
    measure(strip_ansi(s).as_str())
}

pub fn vcells(s: &str) -> (n: usize)
    requires
        shown_cells(s@) <= usize::MAX,
    ensures
        n == shown_cells(s@),
{
    shown(s) as usize
}

pub open spec fn spaces(n: nat) -> Seq<char> {
    Seq::new(n, |i: int| ' ')
}

/// The text `n` times over.
pub open spec fn times(s: Seq<char>, n: nat) -> Seq<char>
    decreases n,
{
    if n == 0 {
        seq![]
    } else {
        times(s, (n - 1) as nat) + s
    }
}

pub fn repeat(s: &str, n: usize) -> (r: String)
    ensures
        r@ == times(s@, n as nat),
{
    let mut r = String::new();
    let mut i: usize = 0;
    while i < n
        invariant
            i <= n,
            r@ == times(s@, i as nat),
        decreases n - i,
    {
        r.append(s);
        i = i + 1;
    }
    r
}

pub fn space(n: u128) -> (r: String)
    ensures
        r@ == spaces(n as nat),
{
    let mut r = String::new();
    let mut i: u128 = 0;
    while i < n
        invariant
            i <= n,
            r@ == spaces(i as nat),
        decreases n - i,
    {
        r.push(' ');
        assert(spaces((i + 1) as nat) =~= spaces(i as nat).push(' '));
        i = i + 1;
    }
    r
}

/// What is left of `width` cells after `used`.
pub open spec fn room(width: nat, used: nat) -> nat {
    activity::less(width as int, used as int) as nat
}

/// What is left of `width` cells after `used`, and `least` where that is more.
pub open spec fn room_for(width: nat, used: nat, least: nat) -> nat {
    if room(width, used) > least {
        room(width, used)
    } else {
        least
    }
}

pub fn left(width: usize, used: u128) -> (r: usize)
    ensures
        r == room(width as nat, used as nat),
{
    if width as u128 > used {
        (width as u128 - used) as usize
    } else {
        0
    }
}

pub fn left_or(width: usize, used: u128, least: usize) -> (r: usize)
    ensures
        r == room_for(width as nat, used as nat, least as nat),
{
    let n: usize = left(width, used);
    if n > least {
        n
    } else {
        least
    }
}

pub open spec fn padded(s: Seq<char>, width: nat) -> Seq<char> {
    if shown_cells(s) >= width {
        s
    } else {
        s + spaces((width - shown_cells(s)) as nat)
    }
}

/// Right-pad an already coloured text to `width` display cells.
pub fn pad(s: &str, width: usize) -> (r: String)
    ensures
        r@ == padded(s@, width as nat),
{
    let w: u128 = shown(s);
    if w >= width as u128 {
        s.to_owned()
    } else {
        s.to_owned().concat(space(width as u128 - w).as_str())
    }
}

/// `s` padded with spaces to `n` characters.
pub open spec fn filled_to(s: Seq<char>, n: nat) -> Seq<char> {
    s + spaces(room(n, s.len()))
}

pub fn fill_to(s: &str, n: usize) -> (r: String)
    ensures
        r@ == filled_to(s@, n as nat),
{
    let len: usize = s.unicode_len();
    s.to_owned().concat(space(n.saturating_sub(len) as u128).as_str())
}

// ---------------------------------------------------------------------
// Wrapping
// ---------------------------------------------------------------------

/// The lines that the words make, and how many cells the last one takes: a word
/// goes on the last line if it fits there or the line is empty.
pub open spec fn wrapped(ws: Seq<Seq<char>>, width: nat) -> (Seq<Seq<char>>, nat)
    decreases ws.len(),
{
    if ws.len() == 0 {
        (seq![""@], 0)
    } else {
        let (ls, w) = wrapped(ws.drop_last(), width);
        let word = ws.last();
        let wc = shown_cells(word);
        let cur = ls.last();
        if cur.len() > 0 && w + 1 + wc > width {
            (ls.push(word), wc)
        } else if cur.len() > 0 {
            (ls.drop_last().push(cur + " "@ + word), w + 1 + wc)
        } else {
            (ls.drop_last().push(cur + word), w + wc)
        }
    }
}

/// `s` word-wrapped to `width` cells.
pub open spec fn wrapped_lines(s: Seq<char>, width: nat) -> Seq<Seq<char>> {
    wrapped(text::words(s), width).0
}

/// Word-wrap by display cells, colour codes counting for nothing. A colour that
/// spans a break simply stays on into the next line.
pub fn wrap(s: &str, width: usize) -> (out: Vec<String>)
    ensures
        text::texts(out@) == wrapped_lines(s@, width as nat),
        out.len() >= 1,
{
    let ws = text::words_of(s);
    let ghost all = text::words(s@);
    let mut out = text::none();
    let mut cur = "".to_owned();
    let mut w: u128 = 0;
    let mut i: usize = 0;
    assert(all.take(0) =~= Seq::<Seq<char>>::empty());
    assert(text::texts(out@).push(cur@) =~= seq![""@]);
    while i < ws.len()
        invariant
            i <= ws.len(),
            all == text::texts(ws@),
            wrapped(all.take(i as int), width as nat) == (
                text::texts(out@).push(cur@),
                w as nat,
            ),
            w <= 2 * usize::MAX,
            cur@.len() == 0 ==> w == 0,
        decreases ws.len() - i,
    {
        let ghost part = all.take(i + 1);
        assert(part.drop_last() =~= all.take(i as int));
        assert(part.last() == ws@[i as int]@);
        let word = ws[i].as_str();
        let wc: u128 = shown(word);
        assert(text::texts(out@).push(cur@).last() == cur@);
        assert(text::texts(out@).push(cur@).drop_last() =~= text::texts(out@));
        assert(word@.len() == 0 ==> stripped(word@) =~= Seq::<char>::empty());
        if !cur.as_str().is_empty() && w + 1 + wc > width as u128 {
            text::put(&mut out, cur.as_str());
            cur = word.to_owned();
            w = wc;
        } else if !cur.as_str().is_empty() {
            cur = cur.concat(" ").concat(word);
            w = w + 1 + wc;
        } else {
            cur = cur.concat(word);
            w = w + wc;
        }
        i = i + 1;
    }
    assert(all.take(i as int) =~= all);
    text::put(&mut out, cur.as_str());
    assert(text::texts(out@).len() >= 1);
    out
}

proof fn lemma_words_hold_something(s: Seq<char>)
    ensures
        forall|i: int| 0 <= i < text::words(s).len() ==> (#[trigger] text::words(s)[i]).len() > 0,
    decreases s.len(),
{
    if s.len() > 0 {
        if text::white(s[0]) {
            lemma_words_hold_something(s.skip(1));
            assert(text::words(s) == text::words(s.skip(1)));
        } else {
            let n = 1 + text::word_len(s.skip(1));
            text::lemma_word_len(s.skip(1));
            lemma_words_hold_something(s.skip(n as int));
            let rest = text::words(s.skip(n as int));
            assert forall|i: int| 0 <= i < text::words(s).len() implies (#[trigger] text::words(
                s,
            )[i]).len() > 0 by {
                if i > 0 {
                    assert(text::words(s)[i] == rest[i - 1]);
                }
            }
        }
    }
}

proof fn lemma_joined_push(a: Seq<Seq<char>>, x: Seq<char>, sep: Seq<char>)
    ensures
        text::joined(a.push(x), sep) == if a.len() == 0 {
            x
        } else {
            text::joined(a, sep) + sep + x
        },
{
    assert(a.push(x).drop_last() =~= a);
}

proof fn lemma_wrapped(ws: Seq<Seq<char>>, width: nat)
    requires
        forall|i: int| 0 <= i < ws.len() ==> (#[trigger] ws[i]).len() > 0,
    ensures
        wrapped(ws, width).0.len() >= 1,
        ws.len() > 0 ==> wrapped(ws, width).0.last().len() > 0,
        ws.len() == 0 ==> wrapped(ws, width).0 == seq![""@],
        ws.len() > 0 ==> text::joined(wrapped(ws, width).0, " "@) == text::joined(ws, " "@),
    decreases ws.len(),
{
    reveal_strlit("");
    reveal_strlit(" ");
    if ws.len() > 0 {
        let front = ws.drop_last();
        lemma_wrapped(front, width);
        let (ls, w) = wrapped(front, width);
        let word = ws.last();
        let cur = ls.last();
        let head = ls.drop_last();
        assert(ls =~= head.push(cur));
        assert(ws =~= front.push(word));
        lemma_joined_push(front, word, " "@);
        lemma_joined_push(head, cur, " "@);
        lemma_joined_push(ls, word, " "@);
        lemma_joined_push(head, cur + " "@ + word, " "@);
        lemma_joined_push(head, cur + word, " "@);
        if front.len() == 0 {
            assert(head.len() == 0);
            assert(cur + word =~= word);
        } else if head.len() > 0 {
            assert(text::joined(head, " "@) + " "@ + (cur + " "@ + word) =~= text::joined(
                head,
                " "@,
            ) + " "@ + cur + " "@ + word);
        }
    }
}

/// Wrapping loses nothing: the lines put back together with spaces are the text
/// with its white space folded.
pub proof fn wrapping_loses_nothing(s: Seq<char>, width: nat)
    ensures
        text::joined(wrapped_lines(s, width), " "@) == activity::folded(s),
{
    lemma_words_hold_something(s);
    lemma_wrapped(text::words(s), width);
    if text::words(s).len() == 0 {
        reveal_strlit("");
        assert(text::joined(seq![""@], " "@) =~= ""@);
        assert(""@ =~= Seq::<char>::empty());
    }
}

proof fn lemma_cells_join(a: Seq<char>, b: Seq<char>)
    ensures
        cell_count(a + b) == cell_count(a) + cell_count(b),
    decreases b.len(),
{
    if b.len() == 0 {
        assert(a + b =~= a);
    } else {
        lemma_cells_join(a, b.drop_last());
        assert((a + b).drop_last() =~= a + b.drop_last());
    }
}

/// What an open escape swallows of a text only makes it shorter.
proof fn lemma_swallowed(b: Seq<char>)
    requires
        text::first(b, 'm') < b.len(),
    ensures
        shown_cells(b.skip(text::first(b, 'm') as int + 1)) <= shown_cells(b),
    decreases b.len(),
{
    let k = text::first(b, 'm') as int;
    let rest = b.skip(1);
    if b[0] == 'm' {
        lemma_cells_join(seq![b[0]], stripped(rest));
    } else {
        assert(text::first(rest, 'm') == k - 1);
        assert(rest.skip(k) =~= b.skip(k + 1));
        if b[0] != '\x1b' {
            lemma_swallowed(rest);
            lemma_cells_join(seq![b[0]], stripped(rest));
        }
    }
}

/// Two texts side by side take no more cells than each of them: an escape that
/// the first leaves open may swallow some of the second.
proof fn lemma_shown_join(a: Seq<char>, b: Seq<char>)
    ensures
        shown_cells(a + b) <= shown_cells(a) + shown_cells(b),
    decreases a.len(),
{
    if a.len() == 0 {
        assert(a + b =~= b);
    } else {
        let rest = a.skip(1);
        assert((a + b).skip(1) =~= rest + b);
        if a[0] == '\x1b' {
            let n = text::first(rest, 'm');
            lemma_first_join(rest, b, 'm');
            if n < rest.len() {
                assert((rest + b).skip(n as int + 1) =~= rest.skip(n as int + 1) + b);
                lemma_shown_join(rest.skip(n as int + 1), b);
            } else {
                let k = text::first(b, 'm');
                if k < b.len() {
                    assert((rest + b).skip((n + k) as int + 1) =~= b.skip(k as int + 1));
                    lemma_swallowed(b);
                }
            }
        } else {
            lemma_shown_join(rest, b);
            lemma_cells_join(seq![a[0]], stripped(rest));
            lemma_cells_join(seq![a[0]], stripped(rest + b));
        }
    }
}

proof fn lemma_first_join(a: Seq<char>, b: Seq<char>, c: char)
    ensures
        text::first(a, c) <= a.len(),
        text::first(a, c) < a.len() ==> text::first(a + b, c) == text::first(a, c),
        text::first(a, c) == a.len() ==> text::first(a + b, c) == a.len() + text::first(b, c),
    decreases a.len(),
{
    if a.len() == 0 {
        assert(a + b =~= b);
    } else {
        assert((a + b).skip(1) =~= a.skip(1) + b);
        lemma_first_join(a.skip(1), b, c);
    }
}

proof fn lemma_lines_fit(ws: Seq<Seq<char>>, width: nat)
    ensures
        wrapped(ws, width).0.len() >= 1,
        shown_cells(wrapped(ws, width).0.last()) <= wrapped(ws, width).1,
        forall|i: int|
            0 <= i < wrapped(ws, width).0.len() ==> shown_cells(#[trigger] wrapped(ws, width).0[i])
                <= width || ws.contains(wrapped(ws, width).0[i]),
    decreases ws.len(),
{
    reveal_strlit("");
    reveal_strlit(" ");
    if ws.len() == 0 {
        assert(stripped(""@) =~= Seq::<char>::empty());
    } else {
        let front = ws.drop_last();
        lemma_lines_fit(front, width);
        let (ls, w) = wrapped(front, width);
        let (next, now) = wrapped(ws, width);
        let word = ws.last();
        let cur = ls.last();
        assert(ws[ws.len() - 1] == word);
        lemma_shown_join(cur, " "@ + word);
        lemma_shown_join(" "@, word);
        assert(cur + (" "@ + word) =~= cur + " "@ + word);
        assert(" "@.skip(1) =~= Seq::<char>::empty());
        assert(stripped(" "@.skip(1)) =~= Seq::<char>::empty());
        assert(stripped(" "@) =~= " "@);
        assert(" "@.drop_last() =~= Seq::<char>::empty());
        assert(cell_count(" "@.drop_last()) == 0);
        if cur.len() == 0 {
            assert(cur + word =~= word);
        }
        assert forall|i: int| 0 <= i < next.len() implies shown_cells(#[trigger] next[i]) <= width
            || ws.contains(next[i]) by {
            if i < ls.len() - 1 || (i < ls.len() && next.len() > ls.len()) {
                assert(next[i] == ls[i]);
                if front.contains(ls[i]) {
                    let j = choose|j: int| 0 <= j < front.len() && front[j] == ls[i];
                    assert(ws[j] == ls[i]);
                }
            }
        }
    }
}

/// No wrapped line is wider than asked for, unless it is a single word that is.
pub proof fn wrapped_lines_fit(s: Seq<char>, width: nat)
    ensures
        forall|i: int|
            0 <= i < wrapped_lines(s, width).len() ==> shown_cells(
                #[trigger] wrapped_lines(s, width)[i],
            ) <= width || text::words(s).contains(wrapped_lines(s, width)[i]),
{
    lemma_lines_fit(text::words(s), width);
}

// ---------------------------------------------------------------------
// The litter
// ---------------------------------------------------------------------

/// A name's number: every byte folded in.
pub open spec fn name_hash(b: Seq<u8>) -> usize
    decreases b.len(),
{
    if b.len() == 0 {
        7
    } else {
        name_hash(b.drop_last()).wrapping_mul(31).wrapping_add(b.last() as usize)
    }
}

/// The colour of a sender: a cat's own, or one of the five by its name.
pub open spec fn sender_colour(t: Theme, name: Seq<char>) -> Rgb {
    if name == "root"@ {
        t.root
    } else if name == "meow"@ {
        t.meow
    } else if name == "tama"@ {
        t.tama
    } else if name == "kuro"@ {
        t.kuro
    } else if name == "sora"@ {
        t.sora
    } else if name == "mimi"@ {
        t.mimi
    } else {
        let n = name_hash(vstd::utf8::encode_utf8(name)) % 5;
        if n == 0 {
            t.meow
        } else if n == 1 {
            t.tama
        } else if n == 2 {
            t.kuro
        } else if n == 3 {
            t.sora
        } else {
            t.mimi
        }
    }
}

/// One colour per sender, forever: that is what makes the scroll readable.
pub fn cat(k: &Skin, name: &str) -> (r: Rgb)
    ensures
        r == sender_colour(k.theme, name@),
{
    let t = &k.theme;
    if text::same(name, "root") {
        return t.root;
    }
    if text::same(name, "meow") {
        return t.meow;
    }
    if text::same(name, "tama") {
        return t.tama;
    }
    if text::same(name, "kuro") {
        return t.kuro;
    }
    if text::same(name, "sora") {
        return t.sora;
    }
    if text::same(name, "mimi") {
        return t.mimi;
    }
    let b = name.as_bytes();
    let mut h: usize = 7;
    let mut i: usize = 0;
    assert(b@.take(0) =~= Seq::<u8>::empty());
    while i < b.len()
        invariant
            i <= b.len(),
            h == name_hash(b@.take(i as int)),
        decreases b.len() - i,
    {
        assert(b@.take(i + 1).drop_last() =~= b@.take(i as int));
        h = h.wrapping_mul(31).wrapping_add(b[i] as usize);
        i = i + 1;
    }
    assert(b@.take(i as int) =~= b@);
    let n: usize = h % 5;
    if n == 0 {
        t.meow
    } else if n == 1 {
        t.tama
    } else if n == 2 {
        t.kuro
    } else if n == 3 {
        t.sora
    } else {
        t.mimi
    }
}

/// Each cat's chop: one hanzi, stamped beside the name where there is room.
pub open spec fn chop_of(name: Seq<char>) -> Seq<char> {
    if name == "root"@ {
        "根"@
    } else if name == "meow"@ {
        "喵"@
    } else if name == "tama"@ {
        "玉"@
    } else if name == "kuro"@ {
        "黑"@
    } else if name == "sora"@ {
        "空"@
    } else if name == "mimi"@ {
        "咪"@
    } else {
        "猫"@
    }
}

fn chop(name: &str) -> (r: &'static str)
    ensures
        r@ == chop_of(name@),
{
    if text::same(name, "root") {
        "根"
    } else if text::same(name, "meow") {
        "喵"
    } else if text::same(name, "tama") {
        "玉"
    } else if text::same(name, "kuro") {
        "黑"
    } else if text::same(name, "sora") {
        "空"
    } else if text::same(name, "mimi") {
        "咪"
    } else {
        "猫"
    }
}

pub open spec fn whom(k: Skin, name: Seq<char>) -> Seq<char> {
    bolded(k, sender_colour(k.theme, name), name)
}

pub fn who(k: &Skin, name: &str) -> (r: String)
    ensures
        r@ == whom(*k, name@),
{
    bold(k, cat(k, name), name)
}

pub open spec fn sealed_name(k: Skin, name: Seq<char>) -> Seq<char> {
    painted(k, sender_colour(k.theme, name), chop_of(name)) + " "@ + whom(k, name)
}

/// Name with its chop: `玉 tama`.
pub fn sealed(k: &Skin, name: &str) -> (r: String)
    ensures
        r@ == sealed_name(*k, name@),
{
    paint(k, cat(k, name), chop(name)).concat(" ").concat(who(k, name).as_str())
}

pub fn task(k: &Skin, id: &str) -> (r: String)
    ensures
        r@ == painted(*k, k.theme.done, id@),
{
    paint(k, k.theme.done, id)
}

/// A letter or a number.
pub open spec fn in_word(c: char) -> bool {
    if (c as u32) < 128 {
        ('0' <= c && c <= '9') || ('A' <= c && c <= 'Z') || ('a' <= c && c <= 'z')
    } else {
        outside::is_alphanumeric(c)
    }
}

/// `s` without what it ends with that is neither letter nor number.
pub open spec fn word_part(s: Seq<char>) -> Seq<char>
    decreases s.len(),
{
    if s.len() > 0 && !in_word(s.last()) {
        word_part(s.drop_last())
    } else {
        s
    }
}

/// One word of a message: a tag lit in its cat's colour, anything else plain.
pub open spec fn tagged(k: Skin, w: Seq<char>, names: Seq<Seq<char>>) -> Seq<char> {
    match text::after_prefix(w, "@"@) {
        None => plained(k, w),
        Some(t) => {
            let name = word_part(t);
            if names.contains(name) {
                bolded(k, sender_colour(k.theme, name), "@"@ + name) + plained(
                    k,
                    t.skip(name.len() as int),
                )
            } else if name == "all"@ || name == "litter"@ || name == "cats"@ {
                bolded(k, k.theme.paper, "@"@ + name) + plained(k, t.skip(name.len() as int))
            } else {
                plained(k, w)
            }
        },
    }
}

pub open spec fn tagged_words(k: Skin, ws: Seq<Seq<char>>, names: Seq<Seq<char>>) -> Seq<
    Seq<char>,
> {
    Seq::new(ws.len(), |i: int| tagged(k, ws[i], names))
}

/// A message's text with every tag lit.
pub open spec fn lit(k: Skin, body: Seq<char>, roster: Seq<(Seq<char>, Seq<u8>)>) -> Seq<char> {
    text::joined(
        tagged_words(k, text::split(body, ' '), common::names_in(roster)),
        " "@,
    )
}

fn word_end(v: &Vec<char>, from: usize) -> (j: usize)
    requires
        from <= v.len(),
    ensures
        from <= j <= v.len(),
        v@.subrange(from as int, j as int) == word_part(v@.skip(from as int)),
{
    let mut j: usize = v.len();
    assert(v@.subrange(from as int, j as int) =~= v@.skip(from as int));
    while j > from && !outside::is_word(v[j - 1])
        invariant
            from <= j <= v.len(),
            word_part(v@.subrange(from as int, j as int)) == word_part(v@.skip(from as int)),
        decreases j,
    {
        assert(v@.subrange(from as int, j as int).drop_last() =~= v@.subrange(
            from as int,
            j - 1,
        ));
        assert(v@.subrange(from as int, j as int).last() == v@[j - 1]);
        j = j - 1;
    }
    if j > from {
        assert(v@.subrange(from as int, j as int).last() == v@[j - 1]);
    }
    j
}

/// `s` without what it ends with that is neither letter nor number.
pub fn word_of(s: &str) -> (r: String)
    ensures
        r@ == word_part(s@),
{
    let v = text::chars_of(s);
    let j: usize = word_end(&v, 0);
    assert(v@.skip(0) =~= v@);
    text::slice_text(&v, 0, j)
}

fn tag_word(k: &Skin, w: &str, names: &Vec<String>) -> (r: String)
    ensures
        r@ == tagged(*k, w@, text::texts(names@)),
{
    proof {
        reveal_strlit("@");
    }
    if !text::starts_with(w, "@") {
        return plain(k, w);
    }
    let v = text::chars_of(w);
    let ghost t = w@.skip(1);
    let j: usize = word_end(&v, 1);
    let name = text::slice_text(&v, 1, j);
    let rest = text::slice_text(&v, j, v.len());
    assert(name@ == word_part(t));
    assert(rest@ =~= t.skip(name@.len() as int));
    let shown = String::from_str("@").concat(name.as_str());
    if text::one_of(name.as_str(), names) {
        bold(k, cat(k, name.as_str()), shown.as_str()).concat(plain(k, rest.as_str()).as_str())
    } else if text::same(name.as_str(), "all") || text::same(name.as_str(), "litter")
        || text::same(name.as_str(), "cats") {
        bold(k, k.theme.paper, shown.as_str()).concat(plain(k, rest.as_str()).as_str())
    } else {
        plain(k, w)
    }
}

/// Message text with every `@name` lit in that cat's colour.
pub fn tags(k: &Skin, body: &str, roster: &Roster) -> (r: String)
    ensures
        r@ == lit(*k, body@, roster@),
{
    let names = roster.names();
    let ws = text::split_on(body, ' ');
    let ghost all = text::split(body@, ' ');
    let ghost want = tagged_words(*k, all, common::names_in(roster@));
    let mut out = text::none();
    let mut i: usize = 0;
    assert(want.take(0) =~= Seq::<Seq<char>>::empty());
    while i < ws.len()
        invariant
            i <= ws.len(),
            all == text::texts(ws@),
            text::texts(names@) == common::names_in(roster@),
            want == tagged_words(*k, all, common::names_in(roster@)),
            text::texts(out@) == want.take(i as int),
        decreases ws.len() - i,
    {
        let one = tag_word(k, ws[i].as_str(), &names);
        assert(want[i as int] == one@) by {
            assert(all[i as int] == ws@[i as int]@);
        }
        text::put(&mut out, one.as_str());
        assert(want.take(i + 1) =~= want.take(i as int).push(one@));
        i = i + 1;
    }
    assert(want.take(i as int) =~= want);
    text::join(&out, " ")
}

// ---------------------------------------------------------------------
// Hairlines
// ---------------------------------------------------------------------

/// The gradient over `n` cells.
pub open spec fn gradient(k: Skin, n: nat) -> Seq<Rgb> {
    k.ramp@[n as int]@
}

/// A skin has a gradient for every length a terminal this wide calls for.
pub open spec fn ramp_fits(k: Skin) -> bool {
    &&& k.ramp@.len() > k.width
    &&& k.ramp@.len() > 60
    &&& forall|n: int| 0 <= n < k.ramp@.len() ==> (#[trigger] k.ramp@[n])@.len() == n
}

/// The first `n` cells of a hairline of one glyph per colour.
pub open spec fn hairline(k: Skin, colours: Seq<Rgb>, n: nat) -> Seq<char>
    decreases n,
{
    if n == 0 {
        seq![]
    } else {
        hairline(k, colours, (n - 1) as nat) + painted(k, colours[n - 1], k.theme.rule@)
    }
}

pub open spec fn ruled(k: Skin, n: nat) -> Seq<char> {
    hairline(k, gradient(k, n), n)
}

/// A hairline that rides the gradient over `n` cells. The only rule drawn.
pub fn rule(k: &Skin, n: usize) -> (r: String)
    requires
        ramp_fits(*k),
        n < k.ramp@.len(),
    ensures
        r@ == ruled(*k, n as nat),
{
    let colours = &k.ramp[n];
    let mut r = String::new();
    let mut i: usize = 0;
    while i < n
        invariant
            i <= n,
            colours@.len() == n,
            r@ == hairline(*k, colours@, i as nat),
        decreases n - i,
    {
        r.append(paint(k, colours[i], k.theme.rule).as_str());
        i = i + 1;
    }
    r
}

/// A bar of one of eight heights; anything higher is the highest.
pub open spec fn bar(level: usize) -> Seq<char> {
    if level == 0 {
        "▁"@
    } else if level == 1 {
        "▂"@
    } else if level == 2 {
        "▃"@
    } else if level == 3 {
        "▄"@
    } else if level == 4 {
        "▅"@
    } else if level == 5 {
        "▆"@
    } else if level == 6 {
        "▇"@
    } else {
        "█"@
    }
}

pub open spec fn bars(k: Skin, colours: Seq<Rgb>, levels: Seq<usize>) -> Seq<char>
    decreases levels.len(),
{
    if levels.len() == 0 {
        seq![]
    } else {
        bars(k, colours, levels.drop_last()) + painted(
            k,
            colours[levels.len() - 1],
            bar(levels.last()),
        )
    }
}

fn bar_of(level: usize) -> (r: &'static str)
    ensures
        r@ == bar(level),
{
    if level == 0 {
        "▁"
    } else if level == 1 {
        "▂"
    } else if level == 2 {
        "▃"
    } else if level == 3 {
        "▄"
    } else if level == 4 {
        "▅"
    } else if level == 5 {
        "▆"
    } else if level == 6 {
        "▇"
    } else {
        "█"
    }
}

/// Recent gaps between blocks as bars: the chain's pulse at a glance. Each level
/// is a gap against the longest, in sevenths, rounded.
pub fn sparkline(k: &Skin, levels: &Vec<usize>) -> (r: String)
    requires
        ramp_fits(*k),
        levels@.len() < k.ramp@.len(),
    ensures
        r@ == bars(*k, gradient(*k, levels@.len()), levels@),
{
    let n: usize = levels.len();
    let colours = &k.ramp[n];
    let mut r = String::new();
    let mut i: usize = 0;
    assert(levels@.take(0) =~= Seq::<usize>::empty());
    while i < n
        invariant
            i <= n,
            n == levels@.len(),
            colours@.len() == n,
            r@ == bars(*k, colours@, levels@.take(i as int)),
        decreases n - i,
    {
        r.append(paint(k, colours[i], bar_of(levels[i])).as_str());
        assert(levels@.take(i + 1).drop_last() =~= levels@.take(i as int));
        assert(levels@.take(i + 1).last() == levels@[i as int]);
        i = i + 1;
    }
    assert(levels@.take(i as int) =~= levels@);
    r
}

/// How wide the terminal is: what `COLUMNS` says, where it is a number; else
/// what the terminal says, where it is one and wide enough to believe; else a
/// hundred. `cols` is what the terminal says.
pub fn term_width(columns: &Option<String>, cols: Option<u16>) -> (r: usize)
    ensures
        r == (match text::text_view(*columns) {
            Some(s) => match text::parsed(s, usize::MAX as nat) {
                Some(n) => n as usize,
                None => believed(cols),
            },
            None => believed(cols),
        }),
{
    match columns {
        Some(s) => match text::parse_number(s.as_str(), usize::MAX as u64) {
            Some(n) => {
                return n as usize;
            },
            None => {},
        },
        None => {},
    }
    match cols {
        Some(c) => if c > 20 {
            c as usize
        } else {
            100
        },
        None => 100,
    }
}

/// The terminal's own word for its width, where it can be believed.
pub open spec fn believed(cols: Option<u16>) -> usize {
    match cols {
        Some(c) => if c > 20 {
            c as usize
        } else {
            100
        },
        None => 100,
    }
}

// ---------------------------------------------------------------------
// What painting keeps
// ---------------------------------------------------------------------

/// Whatever is painted is shown: colour adds to a text and takes nothing from
/// it, and without colour the text is as it was.
pub proof fn what_is_painted_is_shown(k: Skin, c: Rgb, s: Seq<char>)
    ensures
        text::has(painted(k, c, s), s),
        text::has(bolded(k, c, s), s),
        text::has(dimmed(k, s), s),
        text::has(fainted(k, s), s),
        text::has(plained(k, s), s),
        !k.colour ==> painted(k, c, s) == s && bolded(k, c, s) == s && dimmed(k, s) == s && fainted(
            k,
            s,
        ) == s && plained(k, s) == s,
        k.colour ==> text::ends(painted(k, c, s), OFF@) && text::ends(bolded(k, c, s), OFF@),
{
    lemma_painted(k, c, s);
    lemma_painted(k, k.theme.smoke, s);
    lemma_painted(k, k.theme.ink, s);
    lemma_painted(k, k.theme.paper, s);
    text::lemma_has_self(s);
    let a = BOLD@;
    let b = escape(k, c);
    text::lemma_has_right(a + b, s, s);
    text::lemma_has_left(a + b + s, OFF@, s);
    if k.colour {
        let p = bolded(k, c, s);
        assert(p.subrange(p.len() - OFF@.len(), p.len() as int) =~= OFF@);
    }
}

proof fn lemma_painted(k: Skin, c: Rgb, s: Seq<char>)
    ensures
        text::has(painted(k, c, s), s),
        k.colour ==> text::ends(painted(k, c, s), OFF@),
{
    text::lemma_has_self(s);
    text::lemma_has_right(escape(k, c), s, s);
    text::lemma_has_left(escape(k, c) + s, OFF@, s);
    if k.colour {
        let p = painted(k, c, s);
        assert(p.subrange(p.len() - OFF@.len(), p.len() as int) =~= OFF@);
    }
}

/// A cat is shown by its name, under its seal too.
pub proof fn a_cat_is_shown_by_name(k: Skin, name: Seq<char>)
    ensures
        text::has(whom(k, name), name),
        text::has(sealed_name(k, name), name),
        text::has(sealed_name(k, name), chop_of(name)),
{
    let c = sender_colour(k.theme, name);
    what_is_painted_is_shown(k, c, name);
    what_is_painted_is_shown(k, c, chop_of(name));
    let a = painted(k, c, chop_of(name));
    let b = " "@;
    let d = whom(k, name);
    text::lemma_has_left(a, b, chop_of(name));
    text::lemma_has_left(a + b, d, chop_of(name));
    text::lemma_has_right(a + b, d, name);
}

/// Every cat of the house has its own colour and its own seal.
pub proof fn every_cat_has_its_seal(t: Theme)
    ensures
        sender_colour(t, "root"@) == t.root && chop_of("root"@) == "根"@,
        sender_colour(t, "meow"@) == t.meow && chop_of("meow"@) == "喵"@,
        sender_colour(t, "tama"@) == t.tama && chop_of("tama"@) == "玉"@,
        sender_colour(t, "kuro"@) == t.kuro && chop_of("kuro"@) == "黑"@,
        sender_colour(t, "sora"@) == t.sora && chop_of("sora"@) == "空"@,
        sender_colour(t, "mimi"@) == t.mimi && chop_of("mimi"@) == "咪"@,
{
    reveal_strlit("root");
    reveal_strlit("meow");
    reveal_strlit("tama");
    reveal_strlit("kuro");
    reveal_strlit("sora");
    reveal_strlit("mimi");
    assert("root"@.len() == 4);
    assert("meow"@.len() == 4);
    assert("tama"@.len() == 4);
    assert("kuro"@.len() == 4);
    assert("sora"@.len() == 4);
    assert("mimi"@.len() == 4);
    assert("kuro"@[0] == 'k');
    assert("meow"@[0] == 'm');
    assert("meow"@[1] == 'e');
    assert("mimi"@[0] == 'm');
    assert("mimi"@[1] == 'i');
    assert("root"@[0] == 'r');
    assert("sora"@[0] == 's');
    assert("tama"@[0] == 't');
}

/// A text without colours is not changed by taking them off, and none are left
/// in any.
pub proof fn stripping_takes_only_colours(s: Seq<char>)
    ensures
        (forall|i: int| 0 <= i < s.len() ==> #[trigger] s[i] != '\x1b') ==> stripped(s) == s,
        forall|i: int| 0 <= i < stripped(s).len() ==> #[trigger] stripped(s)[i] != '\x1b',
        stripped(s).len() <= s.len(),
    decreases s.len(),
{
    if s.len() > 0 {
        let rest = s.skip(1);
        if s[0] == '\x1b' {
            let n = text::first(rest, 'm');
            if n < rest.len() {
                stripping_takes_only_colours(rest.skip(n as int + 1));
            }
        } else {
            stripping_takes_only_colours(rest);
            assert(stripped(s) == seq![s[0]] + stripped(rest));
            assert forall|i: int| 0 <= i < stripped(s).len() implies #[trigger] stripped(s)[i]
                != '\x1b' by {
                if i > 0 {
                    assert(stripped(s)[i] == stripped(rest)[i - 1]);
                }
            }
            if forall|i: int| 0 <= i < s.len() ==> #[trigger] s[i] != '\x1b' {
                assert forall|i: int| 0 <= i < rest.len() implies #[trigger] rest[i] != '\x1b' by {
                    assert(rest[i] == s[i + 1]);
                }
                assert(stripped(s) =~= s);
            }
        }
    }
}

/// The width of two texts is the sum of theirs, and a character is one cell wide
/// or, where it is a wide one, two.
pub proof fn widths_add_up(a: Seq<char>, b: Seq<char>, c: char)
    ensures
        cell_count(a + b) == cell_count(a) + cell_count(b),
        cell_count(seq![c]) == char_cells(c),
        char_cells(c) == 1 || char_cells(c) == 2,
        (c as u32) < 0x1100 ==> char_cells(c) == 1,
        0x4E00 <= (c as u32) <= 0x9FFF ==> char_cells(c) == 2,
    decreases b.len(),
{
    reveal_with_fuel(cell_count, 2);
    assert(seq![c].drop_last() =~= Seq::<char>::empty());
    assert(cell_count(Seq::<char>::empty()) == 0);
    if b.len() == 0 {
        assert(a + b =~= a);
    } else {
        let all = a + b;
        assert(all.drop_last() =~= a + b.drop_last());
        assert(all.last() == b.last());
        widths_add_up(a, b.drop_last(), c);
    }
}

/// A text repeated has all its copies.
pub proof fn repeats_are_counted(s: Seq<char>, n: nat)
    ensures
        times(s, n).len() == n * s.len(),
        times(s, n + 1) == times(s, n) + s,
        times(s, 0).len() == 0,
    decreases n,
{
    if n > 0 {
        repeats_are_counted(s, (n - 1) as nat);
        assert(n * s.len() == (n - 1) * s.len() + s.len()) by (nonlinear_arith)
            requires
                n > 0,
        ;
    } else {
        assert(0 * s.len() == 0) by (nonlinear_arith);
    }
}

/// A text is filled up to a length with spaces behind it, and left as it is where
/// it is as long already.
pub proof fn a_text_is_filled_with_spaces(s: Seq<char>, n: nat)
    ensures
        text::starts(filled_to(s, n), s),
        filled_to(s, n).len() == (if s.len() < n {
            n
        } else {
            s.len()
        }),
        forall|i: int| s.len() <= i < filled_to(s, n).len() ==> #[trigger] filled_to(s, n)[i] == ' ',
        text::starts(padded(s, n), s),
        shown_cells(s) >= n ==> padded(s, n) == s,
        shown_cells(s) < n ==> padded(s, n).len() == s.len() + (n - shown_cells(s)),
{
    assert(filled_to(s, n).subrange(0, s.len() as int) =~= s);
    assert(padded(s, n).subrange(0, s.len() as int) =~= s);
}

/// The word in a text is what is left of it without what is no letter or digit at
/// its end.
pub proof fn a_word_ends_in_a_letter(s: Seq<char>)
    ensures
        word_part(s).len() <= s.len(),
        word_part(s) == s.take(word_part(s).len() as int),
        word_part(s).len() > 0 ==> in_word(word_part(s).last()),
        forall|i: int| word_part(s).len() <= i < s.len() ==> !in_word(#[trigger] s[i]),
    decreases s.len(),
{
    if s.len() > 0 && !in_word(s.last()) {
        let front = s.drop_last();
        a_word_ends_in_a_letter(front);
        assert(s.take(word_part(s).len() as int) =~= front.take(word_part(s).len() as int));
        assert forall|i: int| word_part(s).len() <= i < s.len() implies !in_word(
            #[trigger] s[i],
        ) by {
            if i < front.len() {
                assert(front[i] == s[i]);
            }
        }
    } else {
        assert(s.take(s.len() as int) =~= s);
    }
}

/// Every word of a line is shown, tags in the colour of whom they name.
pub proof fn a_lit_word_is_shown(k: Skin, w: Seq<char>, names: Seq<Seq<char>>)
    ensures
        !text::starts(w, "@"@) ==> tagged(k, w, names) == plained(k, w),
        !k.colour ==> tagged(k, w, names) == w,
        text::starts(w, "@"@) && names.contains(word_part(w.skip("@"@.len() as int))) ==> text::has(
            tagged(k, w, names),
            word_part(w.skip("@"@.len() as int)),
        ),
{
    reveal_strlit("@");
    let at = "@"@;
    let t = w.skip(1);
    let name = word_part(t);
    a_word_ends_in_a_letter(t);
    if text::starts(w, at) {
        assert(w.subrange(0, 1) == at);
        assert(w =~= at + t);
        assert(t =~= name + t.skip(name.len() as int));
        assert(w =~= at + name + t.skip(name.len() as int));
        if names.contains(name) {
            let c = sender_colour(k.theme, name);
            what_is_painted_is_shown(k, c, at + name);
            text::lemma_has_self(name);
            text::lemma_has_right(at, name, name);
            text::lemma_has_through(bolded(k, c, at + name), at + name, name);
            text::lemma_has_left(
                bolded(k, c, at + name),
                plained(k, t.skip(name.len() as int)),
                name,
            );
        }
    }
}

/// A terminal is believed where it says it is wider than a sliver, and taken to
/// be of the usual width otherwise.
pub proof fn a_terminal_is_believed(c: u16)
    ensures
        believed(None) == 100,
        c > 20 ==> believed(Some(c)) == c,
        c <= 20 ==> believed(Some(c)) == 100,
{
}

/// What room is left is the width without what is used, and never less than the
/// least that is asked for.
pub proof fn room_is_what_is_left(width: nat, used: nat, least: nat)
    ensures
        used <= width ==> room(width, used) + used == width,
        used > width ==> room(width, used) == 0,
        room_for(width, used, least) >= least && room_for(width, used, least) >= room(width, used),
        room_for(width, used, least) == least || room_for(width, used, least) == room(width, used),
{
}

/// The themes go by their names, and any other name is the first of them.
pub proof fn themes_go_by_their_names(name: Seq<char>)
    ensures
        theme_named("neon"@).name@ == "neon"@,
        theme_named("ink"@).name@ == "ink"@,
        theme_named("bund"@).name@ == "bund"@,
        name != "neon"@ && name != "ink"@ ==> theme_named(name).name@ == "bund"@,
{
    reveal_strlit("neon");
    reveal_strlit("ink");
    reveal_strlit("bund");
    assert("neon"@.len() == 4 && "ink"@.len() == 3 && "bund"@.len() == 4);
    assert("neon"@[0] == 'n' && "bund"@[0] == 'b');
}

/// A bar is the higher the higher its level is.
pub proof fn bars_rise_with_their_levels(level: usize)
    ensures
        bar(0) == "▁"@ && bar(1) == "▂"@ && bar(2) == "▃"@ && bar(3) == "▄"@ && bar(4) == "▅"@ && bar(5)
            == "▆"@ && bar(6) == "▇"@,
        level >= 7 ==> bar(level) == "█"@,
{
}

/// Every level is drawn, one bar each.
pub proof fn every_level_is_drawn(k: Skin, colours: Seq<Rgb>, levels: Seq<usize>, level: usize)
    ensures
        bars(k, colours, levels.push(level)) == bars(k, colours, levels) + painted(
            k,
            colours[levels.len() as int],
            bar(level),
        ),
        bars(k, colours, Seq::empty()).len() == 0,
{
    assert(levels.push(level).drop_last() =~= levels);
}

} // verus!
