//! One conversation with a model: what it is fed, what is kept of every
//! result, how old results shrink to a line, and what is written down across a
//! restart.

use crate::activity;
use crate::text;
use vstd::prelude::*;
use vstd::string::*;

verus! {

/// A single result fed back is cut to this: [`FEED_HEAD`] from the start, the
/// rest from the end. The full text stays in the tool log for `Inspect`.
pub const FEED_CHARS: usize = 3000;

pub const FEED_HEAD: usize = 1000;

/// One `Inspect` page: under [`FEED_CHARS`] with its header, so the page itself
/// is never cut again.
pub const INSPECT_CHARS: usize = 2700;

/// Turns a fed result stays in the conversation in full before its row is
/// replaced by a stub.
pub const RESULT_TURNS: u64 = 6;

/// A fed row this short is left alone: its stub would save next to nothing.
pub const AGE_MIN_CHARS: usize = 400;

/// How much of a result's first line (its call and outcome) a stub keeps.
pub const STUB_HEAD: usize = 160;

/// The most of one result kept at all: head quarter, tail rest.
pub const STORE_CHARS: usize = 262144;

/// How much of a wake's first line the `thinking` row shows.
pub const SUMMARY_CHARS: usize = 70;

pub const RESULTS_HEADER: &'static str = "Results of tools you called:\n";

/// The note a restored conversation gets when its host has nothing better to
/// say.
pub const RESTARTED: &'static str = "(You were restarted. The conversation above is from before it. Anything you started then that was still running is gone, and anything that needed a restart — a reboot, a reinstall — has happened. Check before redoing it.)";

// ---------------------------------------------------------------------
// What the model is fed
// ---------------------------------------------------------------------

/// What the model is fed of result `id`.
pub open spec fn fed(id: nat, s: Seq<char>) -> Seq<char> {
    if s.len() <= FEED_CHARS {
        s
    } else {
        s.take(FEED_HEAD as int) + "\n… ["@ + text::dec((s.len() - FEED_CHARS) as nat)
            + " chars cut here — Inspect {\"id\": "@ + text::dec(id) + ", \"offset\": "@
            + text::dec(FEED_HEAD as nat) + "} reads on from this point] …\n"@ + s.skip(
            s.len() - (FEED_CHARS - FEED_HEAD),
        )
    }
}

/// What the model is fed of result `id`: all of it if short, else its head and
/// its tail with a pointer to the middle.
pub fn feed(id: usize, s: &str) -> (r: String)
    ensures
        r@ == fed(id as nat, s@),
{
    let v = text::chars_of(s);
    let n: usize = v.len();
    if n <= FEED_CHARS {
        return s.to_owned();
    }
    let head = text::slice_text(&v, 0, FEED_HEAD);
    let end = text::slice_text(&v, n - (FEED_CHARS - FEED_HEAD), n);
    assert(head@ =~= s@.take(FEED_HEAD as int));
    assert(end@ =~= s@.skip(s@.len() - (FEED_CHARS - FEED_HEAD)));
    head.concat("\n… [").concat(text::number((n - FEED_CHARS) as u64).as_str()).concat(
        " chars cut here — Inspect {\"id\": ",
    ).concat(text::number(id as u64).as_str()).concat(", \"offset\": ").concat(
        text::number(FEED_HEAD as u64).as_str(),
    ).concat("} reads on from this point] …\n").concat(end.as_str())
}

/// What the tool log keeps of one result.
pub open spec fn stored(s: Seq<char>) -> Seq<char> {
    if s.len() <= STORE_CHARS {
        s
    } else {
        let head = STORE_CHARS / 4;
        s.take(head as int) + "\n… ["@ + text::dec((s.len() - STORE_CHARS) as nat)
            + " chars not kept] …\n"@ + s.skip(s.len() - (STORE_CHARS - head))
    }
}

/// What the tool log keeps of one result: at most [`STORE_CHARS`] of it, a
/// quarter from the start and the rest from the end.
pub fn keep(s: &str) -> (r: String)
    ensures
        r@ == stored(s@),
{
    let v = text::chars_of(s);
    let n: usize = v.len();
    if n <= STORE_CHARS {
        return s.to_owned();
    }
    let head_n: usize = STORE_CHARS / 4;
    let head = text::slice_text(&v, 0, head_n);
    let end = text::slice_text(&v, n - (STORE_CHARS - head_n), n);
    assert(head@ =~= s@.take(head_n as int));
    assert(end@ =~= s@.skip(s@.len() - (STORE_CHARS - head_n)));
    head.concat("\n… [").concat(text::number((n - STORE_CHARS) as u64).as_str()).concat(
        " chars not kept] …\n",
    ).concat(end.as_str())
}

/// A result short enough is fed and kept whole; a long one is fed as its first
/// [`FEED_HEAD`] characters and its last ones, [`FEED_CHARS`] in all besides
/// the note between them, and one too long to keep is kept as a quarter from its
/// start and the rest from its end, [`STORE_CHARS`] in all besides the note.
pub proof fn a_long_result_keeps_both_its_ends(id: nat, s: Seq<char>)
    ensures
        s.len() <= FEED_CHARS ==> fed(id, s) == s,
        s.len() <= STORE_CHARS ==> stored(s) == s,
        s.len() > FEED_CHARS ==> fed(id, s).take(FEED_HEAD as int) == s.take(FEED_HEAD as int),
        s.len() > FEED_CHARS ==> fed(id, s).skip(
            fed(id, s).len() - (FEED_CHARS - FEED_HEAD),
        ) == s.skip(s.len() - (FEED_CHARS - FEED_HEAD)),
        s.len() > STORE_CHARS ==> stored(s).take(STORE_CHARS as int / 4) == s.take(
            STORE_CHARS as int / 4,
        ),
        s.len() > STORE_CHARS ==> stored(s).skip(
            stored(s).len() - (STORE_CHARS - STORE_CHARS as int / 4),
        ) == s.skip(s.len() - (STORE_CHARS - STORE_CHARS as int / 4)),
{
    if s.len() > STORE_CHARS {
        let k = stored(s);
        let tail = STORE_CHARS - STORE_CHARS as int / 4;
        assert(k.take(STORE_CHARS as int / 4) =~= s.take(STORE_CHARS as int / 4));
        assert(k.skip(k.len() - tail) =~= s.skip(s.len() - tail));
    }
    if s.len() > FEED_CHARS {
        let f = fed(id, s);
        let tail = FEED_CHARS - FEED_HEAD;
        assert(f.take(FEED_HEAD as int) =~= s.take(FEED_HEAD as int));
        assert(f.skip(f.len() - tail) =~= s.skip(s.len() - tail));
    }
}

/// The part of `s` that one `Inspect` from `from` shows.
pub open spec fn page(s: Seq<char>, from: nat) -> Seq<char> {
    let b = if from > s.len() {
        s.len()
    } else {
        from
    };
    let e = if b + INSPECT_CHARS > s.len() {
        s.len()
    } else {
        b + INSPECT_CHARS as nat
    };
    s.subrange(b as int, e as int)
}

/// Page after page, each from where the one before ended.
pub open spec fn pages(s: Seq<char>, from: nat) -> Seq<char>
    decreases s.len() + INSPECT_CHARS - from,
{
    if from >= s.len() {
        seq![]
    } else {
        page(s, from) + pages(s, from + INSPECT_CHARS as nat)
    }
}

/// Reading page after page from any offset gives back everything after it.
pub proof fn pages_read_everything(s: Seq<char>, from: nat)
    requires
        from <= s.len(),
    ensures
        pages(s, from) == s.skip(from as int),
    decreases s.len() - from,
{
    if from < s.len() {
        if from + INSPECT_CHARS <= s.len() {
            pages_read_everything(s, from + INSPECT_CHARS as nat);
        } else {
            assert(pages(s, from + INSPECT_CHARS as nat) =~= Seq::<char>::empty());
        }
        assert(pages(s, from) =~= s.skip(from as int));
    } else {
        assert(pages(s, from) =~= s.skip(from as int));
    }
}

/// The first line of a wake that holds anything, cut short.
pub open spec fn summarized(s: Seq<char>) -> Seq<char> {
    let line = activity::first_filled(text::lines(s));
    if line.len() > SUMMARY_CHARS {
        line.take(SUMMARY_CHARS as int) + "…"@
    } else {
        line
    }
}

/// The first line of a wake, for the `thinking` row.
pub fn summary(s: &str) -> (r: String)
    ensures
        r@ == summarized(s@),
{
    let line = first_filled_line(s);
    let v = text::chars_of(line.as_str());
    if v.len() > SUMMARY_CHARS {
        let cut = text::slice_text(&v, 0, SUMMARY_CHARS);
        assert(cut@ =~= line@.take(SUMMARY_CHARS as int));
        cut.concat("…")
    } else {
        line
    }
}

fn first_filled_line(s: &str) -> (r: String)
    ensures
        r@ == activity::first_filled(text::lines(s@)),
{
    let v = text::lines_of(s);
    let ghost all = text::lines(s@);
    let mut i: usize = 0;
    assert(all.skip(0) =~= all);
    while i < v.len()
        invariant
            i <= v.len(),
            text::texts(v@) == all,
            activity::first_filled(all) == activity::first_filled(all.skip(i as int)),
            all == text::lines(s@),
        decreases v.len() - i,
    {
        assert(all.skip(i as int)[0] == v@[i as int]@);
        if !text::trim(v[i].as_str()).as_str().is_empty() {
            return v[i].clone();
        }
        assert(all.skip(i as int).skip(1) =~= all.skip(i + 1));
        i = i + 1;
    }
    assert(activity::first_filled(all.skip(i as int)) =~= Seq::<char>::empty());
    String::new()
}

/// How full the context window is in percent; `None` means that nobody can
/// tell, not that it is empty.
pub open spec fn percent(total: u32, window: Option<u32>) -> Option<u32> {
    match window {
        Some(w) => if w > 0 {
            Some(((total * 100) / (w as int)) as u32)
        } else {
            None
        },
        None => None,
    }
}

/// `total_tokens` against `window`, if known.
pub fn pct_used(total_tokens: u32, window: Option<u32>) -> (r: Option<u32>)
    ensures
        r == percent(total_tokens, window),
{
    match window {
        Some(w) => {
            if w > 0 {
                Some(((total_tokens as u64 * 100) / (w as u64)) as u32)
            } else {
                None
            }
        },
        None => None,
    }
}

// ---------------------------------------------------------------------
// The conversation, and the rows in it that age
// ---------------------------------------------------------------------

/// Whose line it is.
#[derive(Clone, Copy, Debug, PartialEq, Eq, Structural)]
pub enum Speaker {
    User,
    Assistant,
}

/// The lines of a conversation.
pub open spec fn spoken(h: Seq<(Speaker, String)>) -> Seq<(Speaker, Seq<char>)> {
    Seq::new(h.len(), |i: int| (h[i].0, h[i].1@))
}

/// A row still in the conversation in full, and what its stub needs.
#[derive(Debug)]
pub struct Fresh {
    pub id: usize,
    pub name: String,
    /// The result's first line: its call and how it went.
    pub head: String,
    /// The full result's length, as kept in the tool log.
    pub chars: usize,
    /// The turn it was fed in.
    pub turn: u64,
    /// The row exactly as it went into the message, to find and replace.
    pub full: String,
}

pub struct FreshView {
    pub id: nat,
    pub name: Seq<char>,
    pub head: Seq<char>,
    pub chars: nat,
    pub turn: nat,
    pub full: Seq<char>,
}

impl View for Fresh {
    type V = FreshView;

    open spec fn view(&self) -> FreshView {
        FreshView {
            id: self.id as nat,
            name: self.name@,
            head: self.head@,
            chars: self.chars as nat,
            turn: self.turn as nat,
            full: self.full@,
        }
    }
}

pub open spec fn fresh_rows(v: Seq<Fresh>) -> Seq<FreshView> {
    Seq::new(v.len(), |i: int| v[i]@)
}

/// It was fed [`RESULT_TURNS`] or more turns ago.
pub open spec fn is_old(f: FreshView, now: nat) -> bool {
    activity::less(now as int, f.turn as int) >= RESULT_TURNS
}

/// The one line that stands for a result that has left the conversation.
pub open spec fn stub(f: FreshView, base: nat) -> Seq<char> {
    let start = "[#"@ + text::dec(f.id) + " "@ + f.name + "] "@ + f.head + " — "@ + text::dec(
        f.chars,
    );
    if f.id >= base {
        start + " chars, out of the conversation now; Inspect {\"id\": "@ + text::dec(f.id)
            + "} reads it again."@
    } else {
        start + " chars, from before a restart and no longer kept; run it again if you need it."@
    }
}

/// The newest message to the model that holds `full`.
pub open spec fn newest_with(h: Seq<(Speaker, Seq<char>)>, full: Seq<char>) -> Option<nat>
    decreases h.len(),
{
    if h.len() == 0 {
        None
    } else if h.last().0 == Speaker::User && text::has(h.last().1, full) {
        Some((h.len() - 1) as nat)
    } else {
        newest_with(h.drop_last(), full)
    }
}

/// The conversation with one row replaced by its stub, where it still stands.
pub open spec fn stubbed(h: Seq<(Speaker, Seq<char>)>, f: FreshView, base: nat) -> Seq<
    (Speaker, Seq<char>),
> {
    match newest_with(h, f.full) {
        None => h,
        Some(i) => h.update(
            i as int,
            (h[i as int].0, text::replaced_once(h[i as int].1, f.full, stub(f, base))),
        ),
    }
}

/// The conversation with every row that is old replaced by its stub.
pub open spec fn aged(
    h: Seq<(Speaker, Seq<char>)>,
    fs: Seq<FreshView>,
    base: nat,
    now: nat,
) -> Seq<(Speaker, Seq<char>)>
    decreases fs.len(),
{
    if fs.len() == 0 {
        h
    } else {
        let before = aged(h, fs.drop_last(), base, now);
        if is_old(fs.last(), now) {
            stubbed(before, fs.last(), base)
        } else {
            before
        }
    }
}

/// The rows that are not old yet.
pub open spec fn not_old(fs: Seq<FreshView>, now: nat) -> Seq<FreshView>
    decreases fs.len(),
{
    if fs.len() == 0 {
        seq![]
    } else if is_old(fs.last(), now) {
        not_old(fs.drop_last(), now)
    } else {
        not_old(fs.drop_last(), now).push(fs.last())
    }
}

impl Fresh {
    fn stub(&self, base: usize) -> (r: String)
        ensures
            r@ == stub(self@, base as nat),
    {
        let start = String::from_str("[#").concat(text::number(self.id as u64).as_str()).concat(
            " ",
        ).concat(self.name.as_str()).concat("] ").concat(self.head.as_str()).concat(" — ").concat(
            text::number(self.chars as u64).as_str(),
        );
        if self.id >= base {
            start.concat(" chars, out of the conversation now; Inspect {\"id\": ").concat(
                text::number(self.id as u64).as_str(),
            ).concat("} reads it again.")
        } else {
            start.concat(
                " chars, from before a restart and no longer kept; run it again if you need it.",
            )
        }
    }

    pub fn copy(&self) -> (r: Fresh)
        ensures
            r@ == self@,
    {
        Fresh {
            id: self.id,
            name: self.name.clone(),
            head: self.head.clone(),
            chars: self.chars,
            turn: self.turn,
            full: self.full.clone(),
        }
    }
}

fn is_user(s: Speaker) -> (r: bool)
    ensures
        r == (s == Speaker::User),
{
    match s {
        Speaker::User => true,
        Speaker::Assistant => false,
    }
}

/// Replace one row by its stub in the newest message that holds it.
fn stub_in(history: &mut Vec<(Speaker, String)>, f: &Fresh, base: usize)
    ensures
        spoken(final(history)@) == stubbed(spoken(old(history)@), f@, base as nat),
{
    let ghost h = spoken(history@);
    let mut i: usize = history.len();
    assert(h.take(h.len() as int) =~= h);
    while i > 0
        invariant
            i <= history.len(),
            history@ == old(history)@,
            h == spoken(history@),
            newest_with(h, f@.full) == newest_with(h.take(i as int), f@.full),
        decreases i,
    {
        i = i - 1;
        let ghost part = h.take(i + 1);
        assert(part.drop_last() =~= h.take(i as int));
        assert(part.last() == h[i as int]);
        assert(h[i as int] == (history@[i as int].0, history@[i as int].1@));
        if is_user(history[i].0) && text::contains(history[i].1.as_str(), f.full.as_str()) {
            let said = text::replace_once(
                history[i].1.as_str(),
                f.full.as_str(),
                f.stub(base).as_str(),
            );
            let who = history[i].0;
            let ghost made = (who, said@);
            history.set(i, (who, said));
            assert(spoken(history@) =~= h.update(i as int, made));
            return;
        }
    }
}

/// Replace every row fed [`RESULT_TURNS`] or more turns ago with its stub, in
/// the message it went out in, and return the rows that are not old yet. A row
/// whose message is gone is just forgotten.
pub fn age(history: &mut Vec<(Speaker, String)>, fresh: &Vec<Fresh>, base: usize, now: u64) -> (r:
    Vec<Fresh>)
    ensures
        spoken(final(history)@) == aged(
            spoken(old(history)@),
            fresh_rows(fresh@),
            base as nat,
            now as nat,
        ),
        fresh_rows(r@) == not_old(fresh_rows(fresh@), now as nat),
{
    let ghost h = spoken(history@);
    let ghost fs = fresh_rows(fresh@);
    let mut left: Vec<Fresh> = Vec::new();
    let mut i: usize = 0;
    assert(fs.take(0) =~= Seq::<FreshView>::empty());
    assert(fresh_rows(left@) =~= Seq::<FreshView>::empty());
    while i < fresh.len()
        invariant
            i <= fresh.len(),
            fs == fresh_rows(fresh@),
            spoken(history@) == aged(h, fs.take(i as int), base as nat, now as nat),
            fresh_rows(left@) == not_old(fs.take(i as int), now as nat),
        decreases fresh.len() - i,
    {
        let f = &fresh[i];
        assert(fs.take(i + 1).drop_last() =~= fs.take(i as int));
        assert(fs.take(i + 1).last() == f@);
        if now.saturating_sub(f.turn) >= RESULT_TURNS {
            stub_in(history, f, base);
        } else {
            let c = f.copy();
            assert(fresh_rows(left@.push(c)) =~= fresh_rows(left@).push(c@));
            left.push(c);
        }
        i = i + 1;
    }
    assert(fs.take(i as int) =~= fs);
    left
}

/// Aging replaces text in messages to the model and nothing else: every line
/// keeps its place and its speaker, and what the model said itself is not
/// touched.
pub proof fn aging_touches_only_what_was_fed(
    h: Seq<(Speaker, Seq<char>)>,
    fs: Seq<FreshView>,
    base: nat,
    now: nat,
)
    ensures
        aged(h, fs, base, now).len() == h.len(),
        forall|i: int|
            0 <= i < h.len() ==> (#[trigger] aged(h, fs, base, now)[i]).0 == h[i].0,
        forall|i: int|
            0 <= i < h.len() && h[i].0 == Speaker::Assistant ==> #[trigger] aged(
                h,
                fs,
                base,
                now,
            )[i] == h[i],
    decreases fs.len(),
{
    if fs.len() > 0 {
        aging_touches_only_what_was_fed(h, fs.drop_last(), base, now);
        let before = aged(h, fs.drop_last(), base, now);
        lemma_newest_with(before, fs.last().full);
    }
}

proof fn lemma_newest_with(h: Seq<(Speaker, Seq<char>)>, full: Seq<char>)
    ensures
        match newest_with(h, full) {
            Some(i) => i < h.len() && h[i as int].0 == Speaker::User && text::has(
                h[i as int].1,
                full,
            ) && forall|k: int|
                i < k < h.len() ==> !((#[trigger] h[k]).0 == Speaker::User && text::has(
                    h[k].1,
                    full,
                )),
            None => forall|k: int|
                0 <= k < h.len() ==> !((#[trigger] h[k]).0 == Speaker::User && text::has(
                    h[k].1,
                    full,
                )),
        },
    decreases h.len(),
{
    if h.len() > 0 {
        lemma_newest_with(h.drop_last(), full);
        assert forall|k: int| 0 <= k < h.len() - 1 implies h.drop_last()[k] == #[trigger] h[k] by {}
    }
}

// ---------------------------------------------------------------------
// Across a restart
// ---------------------------------------------------------------------

/// The id in a row's first line, `[#3 Bash] …`.
pub open spec fn row_number(line: Seq<char>) -> Option<nat> {
    match text::after_prefix(line, "[#"@) {
        None => None,
        Some(rest) => match text::cut(rest, ' ') {
            None => None,
            Some((n, after)) => if text::has(after, "] "@) {
                text::parsed(n, usize::MAX as nat)
            } else {
                None
            },
        },
    }
}

/// The id in a row's first line, `[#3 Bash] …`.
pub fn row_id(line: &str) -> (r: Option<usize>)
    ensures
        match r {
            Some(n) => row_number(line@) == Some(n as nat),
            None => row_number(line@) is None,
        },
{
    match text::strip_prefix(line, "[#") {
        None => None,
        Some(rest) => match text::split_once(rest.as_str(), ' ') {
            None => None,
            Some((n, after)) => {
                if text::contains(after.as_str(), "] ") {
                    match text::parse_number(n.as_str(), usize::MAX as u64) {
                        Some(x) => Some(x as usize),
                        None => None,
                    }
                } else {
                    None
                }
            },
        },
    }
}

/// `s` cut to [`STUB_HEAD`] characters.
pub open spec fn headed(s: Seq<char>) -> Seq<char> {
    if s.len() > STUB_HEAD {
        s.take(STUB_HEAD as int)
    } else {
        s
    }
}

pub(crate) fn head_of(s: &str) -> (r: String)
    ensures
        r@ == headed(s@),
{
    let v = text::chars_of(s);
    if v.len() > STUB_HEAD {
        let r = text::slice_text(&v, 0, STUB_HEAD);
        assert(r@ =~= s@.take(STUB_HEAD as int));
        r
    } else {
        s.to_owned()
    }
}

/// The first lines of the rows among `lines`, cut short.
pub open spec fn row_heads(lines: Seq<Seq<char>>) -> Seq<Seq<char>>
    decreases lines.len(),
{
    if lines.len() == 0 {
        seq![]
    } else if row_number(lines.last()) is Some {
        row_heads(lines.drop_last()).push(headed(lines.last()))
    } else {
        row_heads(lines.drop_last())
    }
}

/// The greater of two ids that may be missing.
pub open spec fn greater(a: Option<nat>, b: Option<nat>) -> Option<nat> {
    match (a, b) {
        (None, _) => b,
        (Some(_), None) => a,
        (Some(x), Some(y)) => if y > x {
            b
        } else {
            a
        },
    }
}

/// The highest id among `lines`, and `start`.
pub open spec fn top_id(lines: Seq<Seq<char>>, start: Option<nat>) -> Option<nat>
    decreases lines.len(),
{
    if lines.len() == 0 {
        start
    } else {
        greater(top_id(lines.drop_last(), start), row_number(lines.last()))
    }
}

/// A message that carries results with only each result's first line left.
pub open spec fn cut_block(said: Seq<char>, at: nat) -> Seq<char> {
    said.take(at as int) + RESULTS_HEADER@ + text::joined(
        row_heads(text::lines(said.skip(at as int))),
        "\n"@,
    ) + "\n(Only each result's first line is kept: they're from before a restart and can't be read again.)"@
}

/// One message of an old conversation, cut down where that makes it shorter.
pub open spec fn cut_message(m: (Speaker, Seq<char>)) -> (Speaker, Seq<char>) {
    match text::find_from(m.1, RESULTS_HEADER@, 0) {
        Some(at) => {
            let short = cut_block(m.1, at);
            if m.0 == Speaker::User && text::size(short) < text::size(m.1) {
                (m.0, short)
            } else {
                m
            }
        },
        None => m,
    }
}

pub open spec fn is_cut(m: (Speaker, Seq<char>)) -> bool {
    match text::find_from(m.1, RESULTS_HEADER@, 0) {
        Some(at) => m.0 == Speaker::User && text::size(cut_block(m.1, at)) < text::size(m.1),
        None => false,
    }
}

pub open spec fn cut_messages(h: Seq<(Speaker, Seq<char>)>) -> Seq<(Speaker, Seq<char>)> {
    Seq::new(h.len(), |i: int| cut_message(h[i]))
}

/// How many messages are cut down.
pub open spec fn cuts(h: Seq<(Speaker, Seq<char>)>) -> nat
    decreases h.len(),
{
    if h.len() == 0 {
        0
    } else {
        cuts(h.drop_last()) + if is_cut(h.last()) {
            1nat
        } else {
            0
        }
    }
}

/// The highest id in the results that a conversation carries.
pub open spec fn top_of(h: Seq<(Speaker, Seq<char>)>) -> Option<nat>
    decreases h.len(),
{
    if h.len() == 0 {
        None
    } else {
        let before = top_of(h.drop_last());
        match text::find_from(h.last().1, RESULTS_HEADER@, 0) {
            Some(at) => if h.last().0 == Speaker::User {
                top_id(text::lines(h.last().1.skip(at as int)), before)
            } else {
                before
            },
            None => before,
        }
    }
}

pub open spec fn id_view(o: Option<usize>) -> Option<nat> {
    match o {
        Some(n) => Some(n as nat),
        None => None,
    }
}

/// Cut each results block of a conversation in the old format to one line per
/// row, dropping whatever followed it in that message. Returns how many
/// messages changed and the highest result id seen, so new ids start above it.
pub fn trim_legacy(history: &mut Vec<(Speaker, String)>) -> (r: (usize, Option<usize>))
    ensures
        spoken(final(history)@) == cut_messages(spoken(old(history)@)),
        r.0 == cuts(spoken(old(history)@)),
        id_view(r.1) == top_of(spoken(old(history)@)),
{
    let ghost h = spoken(history@);
    let mut trimmed: usize = 0;
    let mut top: Option<usize> = None;
    let mut i: usize = 0;
    assert(h.take(0) =~= Seq::<(Speaker, Seq<char>)>::empty());
    while i < history.len()
        invariant
            i <= history.len(),
            history.len() == h.len(),
            trimmed <= i,
            trimmed == cuts(h.take(i as int)),
            id_view(top) == top_of(h.take(i as int)),
            forall|k: int|
                0 <= k < i ==> (history@[k].0, history@[k].1@) == cut_message(#[trigger] h[k]),
            forall|k: int|
                i <= k < h.len() ==> (history@[k].0, history@[k].1@) == #[trigger] h[k],
        decreases history.len() - i,
    {
        let ghost m = h[i as int];
        assert(h.take(i + 1).drop_last() =~= h.take(i as int));
        assert(h.take(i + 1).last() == m);
        let who = history[i].0;
        if is_user(who) {
            let v = text::chars_of(history[i].1.as_str());
            let header = text::chars_of(RESULTS_HEADER);
            match text::find_at(&v, &header, 0) {
                Some(at) => {
                    let lead = text::slice_text(&v, 0, at);
                    let rest = text::slice_text(&v, at, v.len());
                    assert(lead@ =~= m.1.take(at as int));
                    assert(rest@ =~= m.1.skip(at as int));
                    let (heads, seen) = heads_of(rest.as_str(), top);
                    top = seen;
                    let short = lead.concat(RESULTS_HEADER).concat(
                        text::join(&heads, "\n").as_str(),
                    ).concat(
                        "\n(Only each result's first line is kept: they're from before a restart and can't be read again.)",
                    );
                    if short.as_str().len() < history[i].1.as_str().len() {
                        history.set(i, (who, short));
                        trimmed = trimmed + 1;
                    }
                },
                None => {},
            }
        }
        i = i + 1;
    }
    assert(h.take(i as int) =~= h);
    assert(spoken(history@) =~= cut_messages(h));
    (trimmed, top)
}

fn heads_of(rest: &str, start: Option<usize>) -> (r: (Vec<String>, Option<usize>))
    ensures
        text::texts(r.0@) == row_heads(text::lines(rest@)),
        id_view(r.1) == top_id(text::lines(rest@), id_view(start)),
{
    let lines = text::lines_of(rest);
    let ghost all = text::lines(rest@);
    let mut heads = text::none();
    let mut top = start;
    let mut i: usize = 0;
    assert(all.take(0) =~= Seq::<Seq<char>>::empty());
    while i < lines.len()
        invariant
            i <= lines.len(),
            all == text::texts(lines@),
            text::texts(heads@) == row_heads(all.take(i as int)),
            id_view(top) == top_id(all.take(i as int), id_view(start)),
        decreases lines.len() - i,
    {
        assert(all.take(i + 1).drop_last() =~= all.take(i as int));
        assert(all.take(i + 1).last() == lines@[i as int]@);
        match row_id(lines[i].as_str()) {
            Some(n) => {
                let head = head_of(lines[i].as_str());
                text::put(&mut heads, head.as_str());
                top = match top {
                    None => Some(n),
                    Some(x) => if n > x {
                        Some(n)
                    } else {
                        Some(x)
                    },
                };
            },
            None => {},
        }
        i = i + 1;
    }
    assert(all.take(i as int) =~= all);
    (heads, top)
}

/// The word a line's speaker is written down as.
pub open spec fn speaker_word(s: Speaker) -> Seq<char> {
    match s {
        Speaker::User => "user"@,
        Speaker::Assistant => "assistant"@,
    }
}

/// The lines among written-down rows that name a speaker.
pub open spec fn lines_in(rows: Seq<(Seq<char>, Seq<char>)>) -> Seq<(Speaker, Seq<char>)>
    decreases rows.len(),
{
    if rows.len() == 0 {
        seq![]
    } else {
        let before = lines_in(rows.drop_last());
        if rows.last().0 == "user"@ {
            before.push((Speaker::User, rows.last().1))
        } else if rows.last().0 == "assistant"@ {
            before.push((Speaker::Assistant, rows.last().1))
        } else {
            before
        }
    }
}

pub open spec fn row_pairs(v: Seq<(String, String)>) -> Seq<(Seq<char>, Seq<char>)> {
    Seq::new(v.len(), |i: int| (v[i].0@, v[i].1@))
}

/// A conversation as it is written down.
pub open spec fn rows_for(h: Seq<(Speaker, Seq<char>)>) -> Seq<(Seq<char>, Seq<char>)> {
    Seq::new(h.len(), |i: int| (speaker_word(h[i].0), h[i].1))
}

fn history_from(rows: &Vec<(String, String)>) -> (out: Vec<(Speaker, String)>)
    ensures
        spoken(out@) == lines_in(row_pairs(rows@)),
{
    let ghost all = row_pairs(rows@);
    let mut out: Vec<(Speaker, String)> = Vec::new();
    let mut i: usize = 0;
    assert(all.take(0) =~= Seq::<(Seq<char>, Seq<char>)>::empty());
    assert(spoken(out@) =~= Seq::<(Speaker, Seq<char>)>::empty());
    while i < rows.len()
        invariant
            i <= rows.len(),
            all == row_pairs(rows@),
            spoken(out@) == lines_in(all.take(i as int)),
        decreases rows.len() - i,
    {
        assert(all.take(i + 1).drop_last() =~= all.take(i as int));
        assert(all.take(i + 1).last() == (rows@[i as int].0@, rows@[i as int].1@));
        let ghost before = spoken(out@);
        let said = rows[i].1.clone();
        let ghost s = said@;
        if text::same(rows[i].0.as_str(), "user") {
            out.push((Speaker::User, said));
            assert(spoken(out@) =~= before.push((Speaker::User, s)));
        } else if text::same(rows[i].0.as_str(), "assistant") {
            out.push((Speaker::Assistant, said));
            assert(spoken(out@) =~= before.push((Speaker::Assistant, s)));
        }
        i = i + 1;
    }
    assert(all.take(i as int) =~= all);
    out
}

/// What a conversation's file was found to hold.
#[derive(Debug)]
pub enum Stored {
    /// Nothing that can be read.
    Nothing,
    /// The conversation, the rows in it not yet aged, and the two counters that
    /// carry on across a restart.
    Current { history: Vec<(String, String)>, fresh: Vec<Fresh>, turns: u64, next_id: usize },
    /// The bare list of lines that was written before rows aged.
    Legacy { history: Vec<(String, String)> },
}

/// What a cat takes up after a restart.
#[derive(Debug)]
pub struct Saved {
    pub history: Vec<(Speaker, String)>,
    pub fresh: Vec<Fresh>,
    pub turns: u64,
    /// The id the next result gets.
    pub next_id: usize,
    /// Old-format messages whose results were cut down on load.
    pub trimmed: usize,
}

/// The next result can be numbered above those that a file holds.
pub open spec fn numbers_left(stored: Stored) -> bool {
    stored matches Stored::Legacy { history } ==> (match top_of(lines_in(row_pairs(history@))) {
        Some(m) => m < usize::MAX,
        None => true,
    })
}

/// Whether the next result can be numbered above those that a file holds.
pub fn leaves_numbers(stored: &Stored) -> (r: bool)
    ensures
        r == numbers_left(*stored),
{
    match stored {
        Stored::Legacy { history } => {
            let mut h = history_from(history);
            match trim_legacy(&mut h).1 {
                Some(m) => m < usize::MAX,
                None => true,
            }
        },
        _ => true,
    }
}

/// Take up what a conversation's file holds. Where it cannot be read the
/// conversation starts empty, which is always safe.
pub fn load_history(stored: Stored) -> (r: Saved)
    requires
        numbers_left(stored),
    ensures
        match stored {
            Stored::Nothing => spoken(r.history@) == Seq::<(Speaker, Seq<char>)>::empty()
                && fresh_rows(r.fresh@) == Seq::<FreshView>::empty() && r.turns == 0 && r.next_id
                == 0 && r.trimmed == 0,
            Stored::Current { history, fresh, turns, next_id } => spoken(r.history@) == lines_in(
                row_pairs(history@),
            ) && fresh_rows(r.fresh@) == fresh_rows(fresh@) && r.turns == turns && r.next_id
                == next_id && r.trimmed == 0,
            Stored::Legacy { history } => {
                let h = lines_in(row_pairs(history@));
                spoken(r.history@) == cut_messages(h) && fresh_rows(r.fresh@) == Seq::<
                    FreshView,
                >::empty() && r.turns == 0 && r.trimmed == cuts(h) && r.next_id == (match top_of(
                    h,
                ) {
                    Some(m) => (m + 1) as int,
                    None => 0,
                })
            },
        },
{
    match stored {
        Stored::Nothing => {
            let r = Saved {
                history: Vec::new(),
                fresh: Vec::new(),
                turns: 0,
                next_id: 0,
                trimmed: 0,
            };
            assert(spoken(r.history@) =~= Seq::<(Speaker, Seq<char>)>::empty());
            assert(fresh_rows(r.fresh@) =~= Seq::<FreshView>::empty());
            r
        },
        Stored::Current { history, fresh, turns, next_id } => Saved {
            history: history_from(&history),
            fresh,
            turns,
            next_id,
            trimmed: 0,
        },
        Stored::Legacy { history } => {
            let mut h = history_from(&history);
            let (trimmed, top) = trim_legacy(&mut h);
            let next_id: usize = match top {
                Some(m) => m + 1,
                None => 0,
            };
            let fresh: Vec<Fresh> = Vec::new();
            assert(fresh_rows(fresh@) =~= Seq::<FreshView>::empty());
            Saved { history: h, fresh, turns: 0, next_id, trimmed }
        },
    }
}

/// A conversation as it is written down: each line's speaker in a word.
pub fn save_history(history: &Vec<(Speaker, String)>) -> (out: Vec<(String, String)>)
    ensures
        row_pairs(out@) == rows_for(spoken(history@)),
{
    let mut out: Vec<(String, String)> = Vec::new();
    let mut i: usize = 0;
    while i < history.len()
        invariant
            i <= history.len(),
            out.len() == i,
            forall|k: int|
                0 <= k < i ==> ((#[trigger] out@[k]).0@, out@[k].1@) == (
                    speaker_word(history@[k].0),
                    history@[k].1@,
                ),
        decreases history.len() - i,
    {
        let who = if is_user(history[i].0) {
            "user".to_owned()
        } else {
            "assistant".to_owned()
        };
        out.push((who, history[i].1.clone()));
        i = i + 1;
    }
    assert(row_pairs(out@) =~= rows_for(spoken(history@)));
    out
}

/// A conversation that was written down is read back as it was.
pub proof fn a_saved_conversation_loads_as_it_was(h: Seq<(Speaker, Seq<char>)>)
    ensures
        lines_in(rows_for(h)) == h,
    decreases h.len(),
{
    reveal_strlit("user");
    reveal_strlit("assistant");
    if h.len() > 0 {
        a_saved_conversation_loads_as_it_was(h.drop_last());
        assert(rows_for(h).drop_last() =~= rows_for(h.drop_last()));
        assert("user"@.len() != "assistant"@.len());
        assert(lines_in(rows_for(h)) =~= h);
    } else {
        assert(lines_in(rows_for(h)) =~= h);
    }
}

// ---------------------------------------------------------------------
// What stays of a result
// ---------------------------------------------------------------------

/// A result that was cut says how much is missing, and how to read on: by its
/// own id and from where the cut is.
pub proof fn a_cut_result_says_how_to_read_on(id: nat, s: Seq<char>)
    requires
        s.len() > 3000,
    ensures
        text::has(
            fed(id, s),
            " chars cut here — Inspect {\"id\": "@ + text::dec(id) + ", \"offset\": "@ + text::dec(
                1000,
            ),
        ),
        text::has(fed(id, s), text::dec((s.len() - 3000) as nat)),
        fed(id, s).take(1000) == s.take(1000),
        fed(id, s).skip(fed(id, s).len() - 2000) == s.skip(s.len() - 2000),
{
    let a = s.take(1000);
    let b = "\n… ["@;
    let c = text::dec((s.len() - 3000) as nat);
    let d = " chars cut here — Inspect {\"id\": "@;
    let e = text::dec(id);
    let f = ", \"offset\": "@;
    let g = text::dec(1000);
    let h = "} reads on from this point] …\n"@;
    let t = s.skip(s.len() - 2000);
    let whole = a + b + c + d + e + f + g + h + t;
    assert(fed(id, s) == whole);
    text::lemma_has_self(c);
    text::lemma_has_right(a + b, c, c);
    text::lemma_has_left(a + b + c, d, c);
    text::lemma_has_left(a + b + c + d, e, c);
    text::lemma_has_left(a + b + c + d + e, f, c);
    text::lemma_has_left(a + b + c + d + e + f, g, c);
    text::lemma_has_left(a + b + c + d + e + f + g, h, c);
    text::lemma_has_left(a + b + c + d + e + f + g + h, t, c);
    let mid = d + e + f + g;
    assert(whole =~= a + b + c + mid + h + t);
    text::lemma_has_self(mid);
    text::lemma_has_right(a + b + c, mid, mid);
    text::lemma_has_left(a + b + c + mid, h, mid);
    text::lemma_has_left(a + b + c + mid + h, t, mid);
    a_long_result_keeps_both_its_ends(id, s);
}

/// A page is what stands from its offset on, as much as fits.
pub proof fn a_page_is_what_stands_there(s: Seq<char>, from: nat)
    ensures
        from >= s.len() ==> page(s, from).len() == 0,
        from < s.len() ==> text::occurs_at(s, page(s, from), from as int),
        from + 2700 <= s.len() ==> page(s, from).len() == 2700,
        from <= s.len() < from + 2700 ==> page(s, from) == s.skip(from as int),
{
    if from <= s.len() && s.len() < from + 2700 {
        assert(page(s, from) =~= s.skip(from as int));
    }
}

/// The line that stands for a result that left the conversation names it: its
/// id, its tool, how it went and how long it is, and how it is read again while
/// it is kept.
pub proof fn a_stub_names_its_result(f: FreshView, base: nat)
    ensures
        text::starts(stub(f, base), "[#"@ + text::dec(f.id) + " "@ + f.name + "] "@ + f.head),
        text::has(stub(f, base), text::dec(f.chars)),
        f.id >= base ==> text::has(
            stub(f, base),
            "Inspect {\"id\": "@ + text::dec(f.id) + "}"@,
        ),
        f.id < base ==> text::has(stub(f, base), "no longer kept"@),
{
    let head = "[#"@ + text::dec(f.id) + " "@ + f.name + "] "@ + f.head;
    let n = text::dec(f.chars);
    let start = head + " — "@ + n;
    assert(stub(f, base).subrange(0, head.len() as int) =~= head);
    text::lemma_has_self(n);
    text::lemma_has_right(head + " — "@, n, n);
    if f.id >= base {
        let a = " chars, out of the conversation now; Inspect {\"id\": "@;
        let b = text::dec(f.id);
        let c = "} reads it again."@;
        text::lemma_has_left(start, a, n);
        text::lemma_has_left(start + a, b, n);
        text::lemma_has_left(start + a + b, c, n);
        let want = "Inspect {\"id\": "@ + b + "}"@;
        reveal_strlit(" chars, out of the conversation now; Inspect {\"id\": ");
        reveal_strlit("Inspect {\"id\": ");
        reveal_strlit("} reads it again.");
        reveal_strlit("}");
        let k = start.len() + a.len() - "Inspect {\"id\": "@.len();
        let whole = start + a + b + c;
        assert(whole.subrange(k, k + want.len()) =~= want) by {
            assert(a.subrange(a.len() - "Inspect {\"id\": "@.len(), a.len() as int)
                =~= "Inspect {\"id\": "@);
            assert forall|i: int| 0 <= i < want.len() implies whole.subrange(
                k,
                k + want.len(),
            )[i] == #[trigger] want[i] by {
                let m = "Inspect {\"id\": "@.len();
                if i < m {
                    assert(a.subrange(a.len() - m, a.len() as int)[i] == a[a.len() - m + i]);
                }
            }
        }
        assert(text::occurs_at(whole, want, k));
    } else {
        let a = " chars, from before a restart and no longer kept; run it again if you need it."@;
        text::lemma_has_left(start, a, n);
        reveal_strlit(
            " chars, from before a restart and no longer kept; run it again if you need it.",
        );
        reveal_strlit("no longer kept");
        assert(a.subrange(34, 48) =~= "no longer kept"@);
        assert(text::occurs_at(a, "no longer kept"@, 34));
        text::lemma_has_right(start, a, "no longer kept"@);
    }
}

/// A row is left in full for six turns and no longer: those that are not old are
/// kept in their order, and the old ones are all gone.
pub proof fn rows_stay_for_six_turns(fs: Seq<FreshView>, now: nat, f: FreshView)
    ensures
        is_old(f, now) <==> now >= f.turn + 6,
        not_old(fs, now).contains(f) <==> fs.contains(f) && now < f.turn + 6,
        (forall|i: int| 0 <= i < fs.len() ==> now < (#[trigger] fs[i]).turn + 6) ==> not_old(
            fs,
            now,
        ) == fs,
    decreases fs.len(),
{
    if fs.len() > 0 {
        let front = fs.drop_last();
        rows_stay_for_six_turns(front, now, f);
        assert(fs[fs.len() - 1] == fs.last());
        if fs.contains(f) {
            let i = choose|i: int| 0 <= i < fs.len() && fs[i] == f;
            if i < front.len() {
                assert(front[i] == f);
            }
        }
        if front.contains(f) {
            let i = choose|i: int| 0 <= i < front.len() && front[i] == f;
            assert(fs[i] == f);
        }
        let k = not_old(front, now);
        let all = not_old(fs, now);
        if !is_old(fs.last(), now) {
            assert(all[k.len() as int] == fs.last());
            if k.contains(f) {
                let i = choose|i: int| 0 <= i < k.len() && k[i] == f;
                assert(all[i] == f);
            }
            if all.contains(f) {
                let i = choose|i: int| 0 <= i < all.len() && all[i] == f;
                if i < k.len() {
                    assert(k[i] == f);
                }
            }
        }
        if forall|i: int| 0 <= i < fs.len() ==> now < (#[trigger] fs[i]).turn + 6 {
            assert forall|i: int| 0 <= i < front.len() implies now < (#[trigger] front[i]).turn
                + 6 by {
                assert(front[i] == fs[i]);
            }
            assert(front.push(fs.last()) =~= fs);
        }
    } else {
        assert(not_old(fs, now) =~= fs);
    }
}

/// While no row is old the conversation is left as it is; an old row leaves the
/// newest message to the model that holds it, for the line that stands for it,
/// and no other message changes.
pub proof fn only_old_rows_leave(
    h: Seq<(Speaker, Seq<char>)>,
    fs: Seq<FreshView>,
    base: nat,
    now: nat,
)
    ensures
        (forall|i: int| 0 <= i < fs.len() ==> now < (#[trigger] fs[i]).turn + 6) ==> aged(
            h,
            fs,
            base,
            now,
        ) == h,
        fs.len() == 1 && now >= fs[0].turn + 6 ==> match newest_with(h, fs[0].full) {
            None => aged(h, fs, base, now) == h,
            Some(i) => {
                let after = aged(h, fs, base, now);
                &&& text::has(h[i as int].1, fs[0].full) && h[i as int].0 == Speaker::User
                &&& forall|k: int| 0 <= k < h.len() && k != i ==> #[trigger] after[k] == h[k]
                &&& exists|p: int|
                    #![trigger text::occurs_at(h[i as int].1, fs[0].full, p)]
                    text::occurs_at(h[i as int].1, fs[0].full, p) && after[i as int].1
                        == h[i as int].1.take(p) + stub(fs[0], base) + h[i as int].1.skip(
                        p + fs[0].full.len(),
                    )
            },
        },
    decreases fs.len(),
{
    if fs.len() > 0 {
        let front = fs.drop_last();
        only_old_rows_leave(h, front, base, now);
        assert(fs[fs.len() - 1] == fs.last());
        if forall|i: int| 0 <= i < fs.len() ==> now < (#[trigger] fs[i]).turn + 6 {
            assert forall|i: int| 0 <= i < front.len() implies now < (#[trigger] front[i]).turn
                + 6 by {
                assert(front[i] == fs[i]);
            }
        }
        if fs.len() == 1 && now >= fs[0].turn + 6 {
            assert(front =~= Seq::<FreshView>::empty());
            assert(aged(h, front, base, now) == h);
            lemma_newest_with(h, fs[0].full);
            if newest_with(h, fs[0].full) is Some {
                let i = newest_with(h, fs[0].full)->0 as int;
                text::lemma_find_from(h[i].1, fs[0].full, 0);
                let q = choose|q: int| text::occurs_at(h[i].1, fs[0].full, q);
                assert(text::find_from(h[i].1, fs[0].full, 0) is Some);
                let p = text::find_from(h[i].1, fs[0].full, 0)->0 as int;
                assert(text::occurs_at(h[i].1, fs[0].full, p));
            }
        }
    }
}

/// How full the window is, in whole percents, rounded down; unknown where the
/// window is.
pub proof fn a_percentage_is_of_the_window(total: u32, window: Option<u32>)
    ensures
        window is None ==> percent(total, window) is None,
        window == Some(0u32) ==> percent(total, window) is None,
        window matches Some(w) ==> (w > 0 && total <= w ==> (percent(total, window) matches Some(p)
            && p <= 100 && p * w <= total * 100 && total * 100 < (p + 1) * w)),
{
    if window is Some && window->0 > 0 && total <= window->0 {
        let w = window->0 as int;
        let t = total * 100;
        let p = t / w;
        assert(p * w <= t && t < (p + 1) * w && 0 <= p <= 100) by (nonlinear_arith)
            requires
                w > 0,
                0 <= t <= 100 * w,
                p == t / w,
        ;
    }
}

/// What a turn is about in a line: the first line that holds anything, cut where
/// it is long.
pub proof fn a_summary_is_a_line_of_it(s: Seq<char>)
    ensures
        ({
            let line = activity::first_filled(text::lines(s));
            &&& line.len() <= 70 ==> summarized(s) == line
            &&& line.len() > 70 ==> summarized(s).len() == 71 && summarized(s).take(70)
                == line.take(70)
        }),
{
    reveal_strlit("…");
    let line = activity::first_filled(text::lines(s));
    if line.len() > 70 {
        assert(summarized(s).take(70) =~= line.take(70));
    }
}

/// What a file holds of a conversation is taken up line by line: the lines of
/// the two speakers, in their order, and nothing else.
pub proof fn lines_are_taken_up_in_order(rows: Seq<(Seq<char>, Seq<char>)>)
    ensures
        (forall|i: int|
            0 <= i < rows.len() ==> (#[trigger] rows[i]).0 == "user"@ || rows[i].0 == "assistant"@)
            ==> lines_in(rows).len() == rows.len() && forall|i: int|
            0 <= i < rows.len() ==> (#[trigger] lines_in(rows)[i]).1 == rows[i].1 && (lines_in(
                rows,
            )[i].0 == Speaker::User <==> rows[i].0 == "user"@),
        lines_in(rows).len() <= rows.len(),
    decreases rows.len(),
{
    reveal_strlit("user");
    reveal_strlit("assistant");
    assert("user"@.len() == 4 && "assistant"@.len() == 9);
    if rows.len() > 0 {
        let front = rows.drop_last();
        lines_are_taken_up_in_order(front);
        if forall|i: int|
            0 <= i < rows.len() ==> (#[trigger] rows[i]).0 == "user"@ || rows[i].0
                == "assistant"@ {
            assert forall|i: int| 0 <= i < front.len() implies (#[trigger] front[i]).0 == "user"@
                || front[i].0 == "assistant"@ by {
                assert(front[i] == rows[i]);
            }
            assert(rows[rows.len() - 1] == rows.last());
            assert forall|i: int| 0 <= i < rows.len() implies (#[trigger] lines_in(rows)[i]).1
                == rows[i].1 && (lines_in(rows)[i].0 == Speaker::User <==> rows[i].0
                == "user"@) by {
                if i < front.len() {
                    assert(lines_in(rows)[i] == lines_in(front)[i]);
                    assert(front[i] == rows[i]);
                }
            }
        }
    }
}

proof fn lemma_top_id(lines: Seq<Seq<char>>, start: Option<nat>)
    ensures
        forall|i: int|
            0 <= i < lines.len() ==> (row_number(#[trigger] lines[i]) matches Some(n) ==> top_id(
                lines,
                start,
            ) matches Some(t) && n <= t),
        start matches Some(n) ==> top_id(lines, start) matches Some(t) && n <= t,
        top_id(lines, start) matches Some(t) ==> start == Some(t) || exists|i: int|
            0 <= i < lines.len() && row_number(#[trigger] lines[i]) == Some(t),
    decreases lines.len(),
{
    if lines.len() > 0 {
        let front = lines.drop_last();
        lemma_top_id(front, start);
        assert(lines[lines.len() - 1] == lines.last());
        assert forall|i: int| 0 <= i < lines.len() implies (row_number(
            #[trigger] lines[i],
        ) matches Some(n) ==> top_id(lines, start) matches Some(t) && n <= t) by {
            if i < front.len() {
                assert(front[i] == lines[i]);
            }
        }
        if top_id(lines, start) is Some {
            let t = top_id(lines, start)->0;
            if top_id(front, start) == Some(t) && start != Some(t) {
                let i = choose|i: int|
                    0 <= i < front.len() && row_number(#[trigger] front[i]) == Some(t);
                assert(lines[i] == front[i]);
            }
        }
    }
}

/// New results are numbered above every result that an old conversation carries:
/// none of its ids is given out again.
pub proof fn old_ids_are_not_given_out_again(h: Seq<(Speaker, Seq<char>)>, i: int, k: int)
    requires
        0 <= i < h.len(),
        h[i].0 == Speaker::User,
        text::find_from(h[i].1, "Results of tools you called:\n"@, 0) matches Some(at) && 0 <= k
            < text::lines(h[i].1.skip(at as int)).len() && row_number(
            text::lines(h[i].1.skip(at as int))[k],
        ) is Some,
    ensures
        top_of(h) matches Some(t) && row_number(
            text::lines(
                h[i].1.skip(
                    text::find_from(h[i].1, "Results of tools you called:\n"@, 0)->0 as int,
                ),
            )[k],
        )->0 <= t,
    decreases h.len(),
{
    assert(RESULTS_HEADER@ == "Results of tools you called:\n"@);
    let front = h.drop_last();
    let last = h.last();
    if i < front.len() {
        assert(front[i] == h[i]);
        old_ids_are_not_given_out_again(front, i, k);
        if text::find_from(last.1, RESULTS_HEADER@, 0) is Some {
            lemma_top_id(
                text::lines(
                    last.1.skip(text::find_from(last.1, RESULTS_HEADER@, 0)->0 as int),
                ),
                top_of(front),
            );
        }
    } else {
        let at = text::find_from(h[i].1, RESULTS_HEADER@, 0)->0 as int;
        let lines = text::lines(h[i].1.skip(at));
        lemma_top_id(lines, top_of(front));
        assert(row_number(lines[k]) is Some);
    }
}

/// An old conversation loses nothing but the bodies of its results: no line goes,
/// the model's own are as they were, a message is only ever made shorter, and
/// what stood before its results stays.
pub proof fn an_old_conversation_keeps_its_lines(h: Seq<(Speaker, Seq<char>)>, i: int)
    requires
        0 <= i < h.len(),
    ensures
        cut_messages(h).len() == h.len(),
        cut_messages(h)[i].0 == h[i].0,
        h[i].0 == Speaker::Assistant ==> cut_messages(h)[i] == h[i],
        text::has(h[i].1, "Results of tools you called:\n"@) == false ==> cut_messages(h)[i]
            == h[i],
        cut_messages(h)[i] != h[i] ==> text::size(cut_messages(h)[i].1) < text::size(h[i].1) && (
        text::find_from(h[i].1, "Results of tools you called:\n"@, 0) matches Some(at)
            && text::starts(
            cut_messages(h)[i].1,
            h[i].1.take(at as int) + "Results of tools you called:\n"@,
        )),
{
    assert(RESULTS_HEADER@ == "Results of tools you called:\n"@);
    text::lemma_find_from(h[i].1, RESULTS_HEADER@, 0);
    if cut_messages(h)[i] != h[i] {
        let at = text::find_from(h[i].1, RESULTS_HEADER@, 0)->0;
        let short = cut_block(h[i].1, at);
        let head = h[i].1.take(at as int) + RESULTS_HEADER@;
        assert(short.subrange(0, head.len() as int) =~= head);
    }
    if text::find_from(h[i].1, RESULTS_HEADER@, 0) is Some {
        let at = text::find_from(h[i].1, RESULTS_HEADER@, 0)->0;
        assert(text::occurs_at(h[i].1, RESULTS_HEADER@, at as int));
    }
}

/// A row that grew old is replaced by its stub where it stands, in the newest
/// line that has it, and no other line changes.
pub proof fn only_the_row_itself_is_shortened(
    h: Seq<(Speaker, Seq<char>)>,
    f: FreshView,
    base: nat,
)
    ensures
        stubbed(h, f, base).len() == h.len(),
        match newest_with(h, f.full) {
            None => stubbed(h, f, base) == h,
            Some(i) => i < h.len() && stubbed(h, f, base)[i as int] == (
                h[i as int].0,
                text::replaced_once(h[i as int].1, f.full, stub(f, base)),
            ) && forall|k: int|
                0 <= k < h.len() && k != i ==> #[trigger] stubbed(h, f, base)[k] == h[k],
        },
{
    the_newest_line_with_it_is_found(h, f.full);
}

/// The newest line of the operator's side that has a row is found, and none only
/// where none has it.
pub proof fn the_newest_line_with_it_is_found(h: Seq<(Speaker, Seq<char>)>, full: Seq<char>)
    ensures
        match newest_with(h, full) {
            Some(i) => i < h.len() && h[i as int].0 == Speaker::User && text::has(
                h[i as int].1,
                full,
            ) && forall|k: int|
                i < k < h.len() ==> !((#[trigger] h[k]).0 == Speaker::User && text::has(
                    h[k].1,
                    full,
                )),
            None => forall|k: int|
                0 <= k < h.len() ==> !((#[trigger] h[k]).0 == Speaker::User && text::has(
                    h[k].1,
                    full,
                )),
        },
    decreases h.len(),
{
    if h.len() > 0 {
        let front = h.drop_last();
        the_newest_line_with_it_is_found(front, full);
        assert(h.last() == h[h.len() - 1]);
        if !(h.last().0 == Speaker::User && text::has(h.last().1, full)) {
            match newest_with(front, full) {
                Some(i) => {
                    assert(front[i as int] == h[i as int]);
                    assert forall|k: int| i < k < h.len() implies !((#[trigger] h[k]).0
                        == Speaker::User && text::has(h[k].1, full)) by {
                        if k < front.len() {
                            assert(front[k] == h[k]);
                        }
                    }
                },
                None => {
                    assert forall|k: int| 0 <= k < h.len() implies !((#[trigger] h[k]).0
                        == Speaker::User && text::has(h[k].1, full)) by {
                        if k < front.len() {
                            assert(front[k] == h[k]);
                        }
                    }
                },
            }
        }
    }
}

/// A message of old results keeps what was said before them; only the operator's
/// side is cut, and only where that makes it shorter.
pub proof fn a_cut_message_keeps_its_words(m: (Speaker, Seq<char>))
    ensures
        cut_message(m).0 == m.0,
        m.0 == Speaker::Assistant ==> cut_message(m) == m,
        text::has(m.1, "Results of tools you called:\n"@) == false ==> cut_message(m) == m,
        is_cut(m) <==> cut_message(m) != m && text::size(cut_message(m).1) < text::size(m.1),
        text::find_from(m.1, "Results of tools you called:\n"@, 0) matches Some(at)
            ==> text::starts(cut_message(m).1, m.1.take(at as int)),
{
    text::lemma_find_from(m.1, RESULTS_HEADER@, 0);
    match text::find_from(m.1, RESULTS_HEADER@, 0) {
        Some(at) => {
            assert(text::occurs_at(m.1, RESULTS_HEADER@, at as int));
            let f = m.1.take(at as int);
            let c = cut_message(m).1;
            assert(c.subrange(0, f.len() as int) =~= f);
        },
        None => {},
    }
}

/// The messages that were cut are counted, each once.
pub proof fn cut_messages_are_counted(
    h: Seq<(Speaker, Seq<char>)>,
    m: (Speaker, Seq<char>),
)
    ensures
        cuts(Seq::empty()) == 0,
        is_cut(m) ==> cuts(h.push(m)) == cuts(h) + 1,
        !is_cut(m) ==> cuts(h.push(m)) == cuts(h),
{
    assert(h.push(m).drop_last() =~= h);
}

/// The highest number is that of no row less than any.
pub proof fn the_highest_number_is_found(lines: Seq<Seq<char>>, start: Option<nat>, i: int)
    ensures
        0 <= i < lines.len() && row_number(lines[i]) is Some ==> (top_id(lines, start) matches Some(t)
            && t >= row_number(lines[i])->0),
        start matches Some(s) ==> (top_id(lines, start) matches Some(t) && t >= s),
        top_id(lines, start) matches Some(t) ==> start == Some(t) || exists|k: int|
            0 <= k < lines.len() && row_number(#[trigger] lines[k]) == Some(t),
    decreases lines.len(),
{
    if lines.len() > 0 {
        let front = lines.drop_last();
        the_highest_number_is_found(front, start, i);
        assert(lines.last() == lines[lines.len() - 1]);
        if 0 <= i < front.len() {
            assert(front[i] == lines[i]);
        }
        match top_id(front, start) {
            Some(t) => {
                if start != Some(t) {
                    let k = choose|k: int|
                        0 <= k < front.len() && row_number(#[trigger] front[k]) == Some(t);
                    assert(lines[k] == front[k]);
                }
            },
            None => {},
        }
    }
}

/// Of rows that are cut each keeps its first line, as far as there is room;
/// other lines go.
pub proof fn each_row_keeps_its_head(
    a: Seq<Seq<char>>,
    b: Seq<Seq<char>>,
    x: Seq<char>,
)
    ensures
        row_heads(a + b) == row_heads(a) + row_heads(b),
        row_heads(seq![x]) == (if row_number(x) is Some {
            seq![(if x.len() > 160 {
                x.take(160)
            } else {
                x
            })]
        } else {
            Seq::<Seq<char>>::empty()
        }),
        row_heads(Seq::<Seq<char>>::empty()).len() == 0,
    decreases b.len(),
{
    reveal_with_fuel(row_heads, 2);
    assert(seq![x].drop_last() =~= Seq::<Seq<char>>::empty());
    assert(row_heads(Seq::<Seq<char>>::empty()).len() == 0);
    if b.len() == 0 {
        assert(a + b =~= a);
        assert(row_heads(a + b) =~= row_heads(a) + row_heads(b));
    } else {
        let all = a + b;
        assert(all.drop_last() =~= a + b.drop_last());
        assert(all.last() == b.last());
        each_row_keeps_its_head(a, b.drop_last(), x);
        assert(row_heads(all) =~= row_heads(a) + row_heads(b));
    }
}

} // verus!
