//! Tool calls in flight: what each has printed so far, which have gone quiet,
//! how the finished ones went, and the live record of it all.

use crate::activity;
use crate::activity::{Activity, Finished, Flight};
use crate::figures;
use crate::machine;
use crate::outside;
use crate::text;
use crate::tool_out;
use crate::tool_out::{Call, Outcome, ToolOut};
use vstd::prelude::*;
use vstd::string::*;

verus! {

/// A running call's buffer, before it is cut to its head and tail.
pub const LIVE_BYTES: usize = 524288;

pub const LIVE_HEAD: usize = 65536;

/// A running call quiet this long gets the model a notice, in ms.
pub const STALL_AFTER: u64 = 120000;

/// How often the loop looks at what is running, in milliseconds: within a
/// quarter of whichever patience is shorter, and at least every five seconds.
pub open spec fn watch_span(stall: u64, nag: u64) -> u64 {
    let quarter = (if stall < nag {
        stall
    } else {
        nag
    }) / 4;
    if quarter < 50 {
        50
    } else if quarter > 5000 {
        5000
    } else {
        quarter
    }
}

/// How often the loop looks at what is running, in milliseconds.
pub fn watch_every(stall: u64, nag: u64) -> (r: u64)
    ensures
        r == watch_span(stall, nag),
{
    let quarter: u64 = (if stall < nag {
        stall
    } else {
        nag
    }) / 4;
    if quarter < 50 {
        50
    } else if quarter > 5000 {
        5000
    } else {
        quarter
    }
}

/// How much of a running call's output `Running <id>` shows: its tail.
pub const RUNNING_TAIL: usize = 2400;

/// A call in flight as `Running` and `Cancel` see it: what it has printed so
/// far, and when. Times are milliseconds of one clock.
#[derive(Debug)]
pub struct Live {
    pub out: Vec<u8>,
    /// How many bytes it has printed in all.
    pub bytes: u64,
    /// When it actually began: for a queued call, when its turn came.
    pub started: u64,
    /// Still waiting for the calls before it.
    pub queued: bool,
    pub last_output: Option<u64>,
    /// A stall notice went out for the current silence; new output re-arms.
    pub stall_noted: bool,
}

/// The note between the head and the tail of a buffer that was cut.
pub open spec fn gap_note(n: nat) -> Seq<char> {
    "\n… ["@ + text::dec(n) + " bytes not kept] …\n"@
}

/// A buffer after `chunk` came in: where it has grown too long, the head (what
/// it set out to do) and the newest tail.
pub open spec fn grown(out: Seq<u8>, chunk: Seq<u8>) -> Seq<u8> {
    let all = out + chunk;
    if all.len() > LIVE_BYTES {
        let tail_from = all.len() - LIVE_BYTES / 2;
        all.take(LIVE_HEAD as int) + vstd::utf8::encode_utf8(
            gap_note((tail_from - LIVE_HEAD) as nat),
        ) + all.skip(tail_from)
    } else {
        all
    }
}

fn append_bytes(v: &mut Vec<u8>, s: &[u8], from: usize, to: usize)
    requires
        from <= to <= s.len(),
    ensures
        final(v)@ == old(v)@ + s@.subrange(from as int, to as int),
{
    let mut i: usize = from;
    let ghost was = v@;
    while i < to
        invariant
            from <= i <= to <= s.len(),
            v@ == was + s@.subrange(from as int, i as int),
        decreases to - i,
    {
        v.push(s[i]);
        assert(was + s@.subrange(from as int, i + 1) =~= (was + s@.subrange(
            from as int,
            i as int,
        )).push(s@[i as int]));
        i = i + 1;
    }
}

/// The last `n` characters of `s`, `…` in front if something was cut.
pub open spec fn last_chars(s: Seq<char>, n: nat) -> Seq<char> {
    if s.len() <= n {
        s
    } else {
        "…"@ + s.skip(s.len() - n)
    }
}

impl Live {
    /// A call that starts now, or waits for its turn.
    pub fn new(now: u64, queued: bool) -> (r: Live)
        ensures
            r.out@ == Seq::<u8>::empty(),
            r.bytes == 0,
            r.started == now,
            r.queued == queued,
            r.last_output is None,
            !r.stall_noted,
    {
        Live {
            out: Vec::new(),
            bytes: 0,
            started: now,
            queued,
            last_output: None,
            stall_noted: false,
        }
    }

    /// The call printed `chunk`.
    pub fn push(&mut self, chunk: &[u8], now: u64)
        requires
            old(self).bytes + chunk@.len() <= u64::MAX,
        ensures
            final(self).out@ == grown(old(self).out@, chunk@),
            final(self).bytes == old(self).bytes + chunk@.len(),
            final(self).last_output == Some(now),
            !final(self).stall_noted,
            final(self).started == old(self).started,
            final(self).queued == old(self).queued,
    {
        let ghost was = self.out@;
        let n: usize = chunk.len();
        let mut all: Vec<u8> = Vec::new();
        append_bytes(&mut all, self.out.as_slice(), 0, self.out.len());
        append_bytes(&mut all, chunk, 0, n);
        assert(all@ =~= was + chunk@);
        if all.len() > LIVE_BYTES {
            let tail_from: usize = all.len() - LIVE_BYTES / 2;
            let note = String::from_str("\n… [").concat(
                text::number((tail_from - LIVE_HEAD) as u64).as_str(),
            ).concat(" bytes not kept] …\n");
            let mut kept: Vec<u8> = Vec::new();
            append_bytes(&mut kept, all.as_slice(), 0, LIVE_HEAD);
            let note_bytes = note.as_str().as_bytes();
            append_bytes(&mut kept, note_bytes, 0, note_bytes.len());
            append_bytes(&mut kept, all.as_slice(), tail_from, all.len());
            assert(note_bytes@.subrange(0, note_bytes@.len() as int) =~= note_bytes@);
            assert(all@.subrange(0, LIVE_HEAD as int) =~= all@.take(LIVE_HEAD as int));
            assert(all@.subrange(tail_from as int, all@.len() as int) =~= all@.skip(
                tail_from as int,
            ));
            assert(kept@ =~= grown(was, chunk@));
            self.out = kept;
        } else {
            self.out = all;
        }
        self.bytes = self.bytes + n as u64;
        self.last_output = Some(now);
        self.stall_noted = false;
    }

    /// Everything kept so far.
    pub fn text(&self) -> (r: String)
        ensures
            r@ == outside::lossy(self.out@),
    {
        outside::from_lossy(self.out.as_slice())
    }

    /// The last `n` characters of it.
    pub fn tail(&self, n: usize) -> (r: String)
        ensures
            r@ == last_chars(outside::lossy(self.out@), n as nat),
    {
        let t = self.text();
        let v = text::chars_of(t.as_str());
        if v.len() <= n {
            t
        } else {
            let end = text::slice_text(&v, v.len() - n, v.len());
            assert(end@ =~= t@.skip(t@.len() - n));
            String::from_str("…").concat(end.as_str())
        }
    }

    /// Its turn came: the clock starts now.
    pub fn begin(&mut self, now: u64)
        ensures
            *final(self) == (Live { started: now, queued: false, ..*old(self) }),
    {
        self.started = now;
        self.queued = false;
    }

    /// How long it has been running.
    pub fn ran(&self, now: u64) -> (r: u64)
        ensures
            r == activity::less(now as int, self.started as int),
    {
        now.saturating_sub(self.started)
    }

    /// How long since it last printed, or since it started if it never has.
    /// Never quiet while queued: waiting its turn is not a stall.
    pub fn quiet(&self, now: u64) -> (r: u64)
        ensures
            r == silence(*self, now),
    {
        if self.queued {
            return 0;
        }
        match self.last_output {
            Some(t) => now.saturating_sub(t),
            None => now.saturating_sub(self.started),
        }
    }
}

pub open spec fn silence(l: Live, now: u64) -> int {
    if l.queued {
        0
    } else {
        match l.last_output {
            Some(t) => activity::less(now as int, t as int),
            None => activity::less(now as int, l.started as int),
        }
    }
}

proof fn lemma_encoded_len(s: Seq<char>)
    ensures
        vstd::utf8::encode_utf8(s).len() <= 4 * s.len(),
    decreases s.len(),
{
    if s.len() > 0 {
        lemma_encoded_len(s.drop_first());
    }
}

/// However much a call prints, its buffer stays within [`LIVE_BYTES`]; it always
/// keeps the first bytes it was given, and the newest.
pub proof fn a_buffer_keeps_both_its_ends(out: Seq<u8>, chunk: Seq<u8>)
    requires
        out.len() + chunk.len() <= u64::MAX,
    ensures
        grown(out, chunk).len() <= LIVE_BYTES,
        out.len() >= LIVE_HEAD ==> grown(out, chunk).take(LIVE_HEAD as int) == out.take(
            LIVE_HEAD as int,
        ),
        chunk.len() <= LIVE_BYTES / 2 ==> grown(out, chunk).skip(
            grown(out, chunk).len() - chunk.len(),
        ) == chunk,
{
    let all = out + chunk;
    let g = grown(out, chunk);
    if all.len() > LIVE_BYTES {
        let n = (all.len() - LIVE_BYTES / 2 - LIVE_HEAD) as nat;
        text::lemma_digits(n);
        reveal_strlit("\n… [");
        reveal_strlit(" bytes not kept] …\n");
        lemma_encoded_len(gap_note(n));
    }
    if out.len() >= LIVE_HEAD {
        assert(g.take(LIVE_HEAD as int) =~= out.take(LIVE_HEAD as int));
    }
    if chunk.len() <= LIVE_BYTES / 2 {
        assert(g.skip(g.len() - chunk.len()) =~= chunk);
    }
}

// ---------------------------------------------------------------------
// The list of what is running
// ---------------------------------------------------------------------

/// The buffer of the call with this id.
pub open spec fn live_at(live: Seq<(u64, Live)>, id: u64) -> Option<Live>
    decreases live.len(),
{
    if live.len() == 0 {
        None
    } else if live[0].0 == id {
        Some(live[0].1)
    } else {
        live_at(live.skip(1), id)
    }
}

/// The queries still out, each with its buffer; a record has none.
pub open spec fn queries(running: Seq<Flight>, live: Seq<(u64, Live)>) -> Seq<(Flight, Live)>
    decreases running.len(),
{
    if running.len() == 0 {
        seq![]
    } else {
        let before = queries(running.drop_last(), live);
        match live_at(live, running.last().id) {
            Some(l) => before.push((running.last(), l)),
            None => before,
        }
    }
}

/// `r3 Bash $ make`.
pub open spec fn call_text(f: Flight) -> Seq<char> {
    "r"@ + text::dec(f.id as nat) + " "@ + f.tool@ + " "@ + f.arg@
}

/// One running call and how it is getting on.
pub open spec fn running_row(f: Flight, l: Live, now: u64) -> Seq<char> {
    if l.queued {
        call_text(f) + " — queued behind the calls before it"@
    } else {
        call_text(f) + " — "@ + figures::human_text(
            (activity::less(now as int, l.started as int) / 1000) as nat,
        ) + ", "@ + (if l.bytes == 0 {
            "no output yet"@
        } else {
            figures::byte_text(l.bytes as nat) + " of output, last "@ + figures::human_text(
                (silence(l, now) / 1000) as nat,
            ) + " ago"@
        })
    }
}

pub open spec fn running_rows(v: Seq<(Flight, Live)>, now: u64) -> Seq<Seq<char>> {
    Seq::new(v.len(), |i: int| running_row(v[i].0, v[i].1, now))
}

/// What is still out, for the top of a turn.
pub open spec fn still_out(v: Seq<(Flight, Live)>, now: u64) -> Option<Seq<char>> {
    if v.len() == 0 {
        None
    } else {
        Some(
            "Still running (Running <id> for output so far, Cancel <id> to stop one):\n"@
                + text::joined(running_rows(v, now), "\n"@),
        )
    }
}

fn find_live(live: &Vec<(u64, Live)>, id: u64) -> (r: Option<usize>)
    ensures
        match r {
            Some(i) => i < live.len() && live_at(live@, id) == Some(live@[i as int].1)
                && live@[i as int].0 == id && forall|k: int|
                0 <= k < i ==> (#[trigger] live@[k]).0 != id,
            None => live_at(live@, id) is None && forall|k: int|
                0 <= k < live.len() ==> (#[trigger] live@[k]).0 != id,
        },
{
    let mut i: usize = 0;
    assert(live@.skip(0) =~= live@);
    while i < live.len()
        invariant
            i <= live.len(),
            live_at(live@, id) == live_at(live@.skip(i as int), id),
            forall|k: int| 0 <= k < i ==> (#[trigger] live@[k]).0 != id,
        decreases live.len() - i,
    {
        assert(live@.skip(i as int)[0] == live@[i as int]);
        if live[i].0 == id {
            return Some(i);
        }
        assert(live@.skip(i as int).skip(1) =~= live@.skip(i + 1));
        i = i + 1;
    }
    None
}

fn call_words(f: &Flight) -> (r: String)
    ensures
        r@ == call_text(*f),
{
    String::from_str("r").concat(text::number(f.id).as_str()).concat(" ").concat(
        f.tool.as_str(),
    ).concat(" ").concat(f.arg.as_str())
}

fn row_words(f: &Flight, l: &Live, now: u64) -> (r: String)
    ensures
        r@ == running_row(*f, *l, now),
{
    if l.queued {
        return call_words(f).concat(" — queued behind the calls before it");
    }
    let out = if l.bytes == 0 {
        "no output yet".to_owned()
    } else {
        figures::bytes(l.bytes).concat(" of output, last ").concat(
            figures::human(l.quiet(now) / 1000).as_str(),
        ).concat(" ago")
    };
    call_words(f).concat(" — ").concat(figures::human(l.ran(now) / 1000).as_str()).concat(
        ", ",
    ).concat(out.as_str())
}

/// What is still out, for the top of a turn: so the model sees a slow call's
/// progress whenever it is woken, without asking.
pub fn still_running(running: &Vec<Flight>, live: &Vec<(u64, Live)>, now: u64) -> (r: Option<
    String,
>)
    ensures
        text::text_view(r) == still_out(queries(running@, live@), now),
{
    let mut rows = text::none();
    let mut i: usize = 0;
    assert(running@.take(0) =~= Seq::<Flight>::empty());
    assert(running_rows(queries(running@.take(0), live@), now) =~= Seq::<Seq<char>>::empty());
    while i < running.len()
        invariant
            i <= running.len(),
                text::texts(rows@) == running_rows(queries(running@.take(i as int), live@), now),
        decreases running.len() - i,
    {
        let ghost before = queries(running@.take(i as int), live@);
        assert(running@.take(i + 1).drop_last() =~= running@.take(i as int));
        assert(running@.take(i + 1).last() == running@[i as int]);
        match find_live(live, running[i].id) {
            Some(k) => {
                let row = row_words(&running[i], &live[k].1, now);
                text::put(&mut rows, row.as_str());
                assert(running_rows(before.push((running@[i as int], live@[k as int].1)), now)
                    =~= running_rows(before, now).push(row@));
            },
            None => {},
        }
        i = i + 1;
    }
    assert(running@.take(i as int) =~= running@);
    if rows.len() == 0 {
        assert(text::texts(rows@).len() == 0);
        return None;
    }
    assert(text::texts(rows@).len() > 0);
    Some(
        String::from_str(
            "Still running (Running <id> for output so far, Cancel <id> to stop one):\n",
        ).concat(text::join(&rows, "\n").as_str()),
    )
}

// ---------------------------------------------------------------------
// Going quiet
// ---------------------------------------------------------------------

/// The buffers with the one of this call marked as noted.
pub open spec fn marked(live: Seq<(u64, Live)>, id: u64) -> Seq<(u64, Live)>
    decreases live.len(),
{
    if live.len() == 0 {
        seq![]
    } else if live[0].0 == id {
        seq![(live[0].0, Live { stall_noted: true, ..live[0].1 })] + live.skip(1)
    } else {
        seq![live[0]] + marked(live.skip(1), id)
    }
}

/// It has been quiet for `stall` or longer and nobody has said so yet.
pub open spec fn stalled(l: Live, now: u64, stall: u64) -> bool {
    silence(l, now) >= stall && !l.stall_noted
}

/// What the model is told of a call that has gone quiet.
pub open spec fn stall_notice(f: Flight, l: Live, now: u64) -> Seq<char> {
    let ran = figures::human_text((activity::less(now as int, l.started as int) / 1000) as nat);
    let id = text::dec(f.id as nat);
    "[r"@ + id + " "@ + f.tool@ + " still running] "@ + f.arg@ + " — "@ + ran + " so far, "@ + (
    if l.bytes == 0 {
        "no output at all in "@ + ran
    } else {
        "no new output for "@ + figures::human_text((silence(l, now) / 1000) as nat)
    }) + ". It may be stalled: Running r"@ + id + " shows its output so far, Cancel r"@ + id
        + " stops it. Or leave it — its result comes back when it finishes."@
}

/// What the operator is told of it.
pub open spec fn stall_shown(f: Flight, l: Live, now: u64) -> Seq<char> {
    "r"@ + text::dec(f.id as nat) + " "@ + f.tool@ + " quiet for "@ + figures::human_text(
        (silence(l, now) / 1000) as nat,
    ) + " — telling the model"@
}

/// A running call with its output figures brought up to date.
pub open spec fn refreshed(f: Flight, live: Seq<(u64, Live)>) -> Flight {
    match live_at(live, f.id) {
        None => f,
        Some(l) => Flight {
            output: l.bytes,
            last_output: match l.last_output {
                Some(t) => t,
                None => 0,
            },
            ..f
        },
    }
}

/// The buffers, the notices and what is shown of them once the first `n` running
/// calls were looked at.
pub open spec fn watched(
    running: Seq<Flight>,
    live: Seq<(u64, Live)>,
    now: u64,
    stall: u64,
    n: nat,
) -> (Seq<(u64, Live)>, Seq<Seq<char>>, Seq<Seq<char>>)
    decreases n,
{
    if n == 0 {
        (live, seq![], seq![])
    } else {
        let (lv, told, shown) = watched(running, live, now, stall, (n - 1) as nat);
        let f = running[n - 1];
        match live_at(lv, f.id) {
            Some(l) => if stalled(l, now, stall) {
                (
                    marked(lv, f.id),
                    told.push(stall_notice(f, l, now)),
                    shown.push(stall_shown(f, l, now)),
                )
            } else {
                (lv, told, shown)
            },
            None => (lv, told, shown),
        }
    }
}

proof fn lemma_marked(live: Seq<(u64, Live)>, id: u64, i: int)
    requires
        0 <= i < live.len(),
        live[i].0 == id,
        forall|k: int| 0 <= k < i ==> (#[trigger] live[k]).0 != id,
    ensures
        marked(live, id) == live.update(i, (id, Live { stall_noted: true, ..live[i].1 })),
    decreases i,
{
    if i == 0 {
        assert(marked(live, id) =~= live.update(
            i,
            (id, Live { stall_noted: true, ..live[i].1 }),
        ));
    } else {
        lemma_marked(live.skip(1), id, i - 1);
        assert(marked(live, id) =~= live.update(
            i,
            (id, Live { stall_noted: true, ..live[i].1 }),
        ));
    }
}

proof fn lemma_live_after_mark(live: Seq<(u64, Live)>, id: u64, other: u64)
    ensures
        match live_at(marked(live, id), other) {
            None => live_at(live, other) is None,
            Some(l) => live_at(live, other) matches Some(m) && l.bytes == m.bytes && l.last_output
                == m.last_output,
        },
    decreases live.len(),
{
    if live.len() > 0 {
        let m = marked(live, id);
        if live[0].0 == id {
            assert(m.skip(1) =~= live.skip(1));
        } else {
            lemma_live_after_mark(live.skip(1), id, other);
            assert(m.skip(1) =~= marked(live.skip(1), id));
        }
    }
}

proof fn lemma_refreshed_after_watch(
    running: Seq<Flight>,
    live: Seq<(u64, Live)>,
    now: u64,
    stall: u64,
    n: nat,
    f: Flight,
)
    ensures
        refreshed(f, watched(running, live, now, stall, n).0) == refreshed(f, live),
    decreases n,
{
    if n > 0 {
        let before = watched(running, live, now, stall, (n - 1) as nat).0;
        lemma_refreshed_after_watch(running, live, now, stall, (n - 1) as nat, f);
        lemma_live_after_mark(before, running[n - 1].id, f.id);
    }
}

fn notice_words(f: &Flight, l: &Live, now: u64) -> (r: String)
    ensures
        r@ == stall_notice(*f, *l, now),
{
    let ran = figures::human(l.ran(now) / 1000);
    let id = text::number(f.id);
    let heard = if l.bytes == 0 {
        String::from_str("no output at all in ").concat(ran.as_str())
    } else {
        String::from_str("no new output for ").concat(
            figures::human(l.quiet(now) / 1000).as_str(),
        )
    };
    String::from_str("[r").concat(id.as_str()).concat(" ").concat(f.tool.as_str()).concat(
        " still running] ",
    ).concat(f.arg.as_str()).concat(" — ").concat(ran.as_str()).concat(" so far, ").concat(
        heard.as_str(),
    ).concat(". It may be stalled: Running r").concat(id.as_str()).concat(
        " shows its output so far, Cancel r",
    ).concat(id.as_str()).concat(
        " stops it. Or leave it — its result comes back when it finishes.",
    )
}

fn shown_words(f: &Flight, l: &Live, now: u64) -> (r: String)
    ensures
        r@ == stall_shown(*f, *l, now),
{
    String::from_str("r").concat(text::number(f.id).as_str()).concat(" ").concat(
        f.tool.as_str(),
    ).concat(" quiet for ").concat(figures::human(l.quiet(now) / 1000).as_str()).concat(
        " — telling the model",
    )
}

/// Refresh each running call's output figures, and tell of any that has gone
/// quiet for `stall`, once per silence: the model, and in short the operator.
pub fn watch(
    running: &mut Vec<Flight>,
    live: &mut Vec<(u64, Live)>,
    now: u64,
    stall: u64,
) -> (r: (Vec<String>, Vec<String>))
    ensures
        ({
            let after = watched(old(running)@, old(live)@, now, stall, old(running)@.len());
            &&& final(live)@ == after.0
            &&& text::texts(r.0@) == after.1
            &&& text::texts(r.1@) == after.2
        }),
        final(running)@ == Seq::new(
            old(running)@.len(),
            |i: int| refreshed(old(running)@[i], old(live)@),
        ),
{
    let ghost was = running@;
    let ghost lv0 = live@;
    let mut notices = text::none();
    let mut shown = text::none();
    let mut i: usize = 0;
    while i < running.len()
        invariant
            i <= running.len(),
            running.len() == was.len(),
            live@ == watched(was, lv0, now, stall, i as nat).0,
            text::texts(notices@) == watched(was, lv0, now, stall, i as nat).1,
            text::texts(shown@) == watched(was, lv0, now, stall, i as nat).2,
            forall|k: int| 0 <= k < i ==> running@[k] == refreshed(#[trigger] was[k], lv0),
            forall|k: int| i <= k < was.len() ==> running@[k] == #[trigger] was[k],
        decreases running.len() - i,
    {
        let ghost f = was[i as int];
        proof {
            lemma_refreshed_after_watch(was, lv0, now, stall, i as nat, f);
        }
        match find_live(live, running[i].id) {
            Some(k) => {
                let ghost l = live@[k as int].1;
                let quiet: u64 = live[k].1.quiet(now);
                if quiet >= stall && !live[k].1.stall_noted {
                    let told = notice_words(&running[i], &live[k].1, now);
                    text::put(&mut notices, told.as_str());
                    let line = shown_words(&running[i], &live[k].1, now);
                    text::put(&mut shown, line.as_str());
                    proof {
                        lemma_marked(live@, f.id, k as int);
                    }
                    live[k].1.stall_noted = true;
                }
                let last: u64 = match live[k].1.last_output {
                    Some(t) => t,
                    None => 0,
                };
                running[i].output = live[k].1.bytes;
                running[i].last_output = last;
            },
            None => {},
        }
        i = i + 1;
    }
    assert(running@ =~= Seq::new(was.len(), |i: int| refreshed(was[i], lv0)));
    (notices, shown)
}

// ---------------------------------------------------------------------
// Looking at one, and stopping it
// ---------------------------------------------------------------------

/// `s` without the `r`, `R` and `#` it begins with.
pub open spec fn bare_id(s: Seq<char>) -> Seq<char>
    decreases s.len(),
{
    if s.len() > 0 && (s[0] == 'r' || s[0] == 'R' || s[0] == '#') {
        bare_id(s.skip(1))
    } else {
        s
    }
}

/// The id that a call was asked for by.
pub open spec fn asked_id(s: Seq<char>) -> Seq<char> {
    bare_id(text::trimmed(s))
}

fn id_asked(s: &str) -> (r: String)
    ensures
        r@ == asked_id(s@),
{
    let t = text::trim(s);
    let v = text::chars_of(t.as_str());
    let mut i: usize = 0;
    assert(v@.skip(0) =~= v@);
    while i < v.len() && (v[i] == 'r' || v[i] == 'R' || v[i] == '#')
        invariant
            i <= v.len(),
            bare_id(v@.skip(i as int)) == bare_id(v@),
        decreases v.len() - i,
    {
        assert(v@.skip(i as int).skip(1) =~= v@.skip(i + 1));
        i = i + 1;
    }
    let r = text::slice_text(&v, i, v.len());
    assert(r@ =~= v@.skip(i as int));
    r
}

/// The first running query whose id reads `w`.
pub open spec fn query_named(v: Seq<(Flight, Live)>, w: Seq<char>) -> Option<(Flight, Live)>
    decreases v.len(),
{
    if v.len() == 0 {
        None
    } else if text::dec(v[0].0.id as nat) == w {
        Some(v[0])
    } else {
        query_named(v.skip(1), w)
    }
}

pub open spec fn or_empty(o: Option<Seq<char>>) -> Seq<char> {
    match o {
        Some(s) => s,
        None => ""@,
    }
}

/// The newest output of each running call that has printed anything.
pub open spec fn latest(v: Seq<(Flight, Live)>) -> Seq<Seq<char>>
    decreases v.len(),
{
    if v.len() == 0 {
        seq![]
    } else {
        let before = latest(v.drop_last());
        let (f, l) = v.last();
        if l.bytes > 0 {
            before.push(
                "--- r"@ + text::dec(f.id as nat) + " latest output:\n"@ + last_chars(
                    outside::lossy(l.out@),
                    400,
                ),
            )
        } else {
            before
        }
    }
}

/// What `Running` answers.
pub open spec fn running_answer(v: Seq<(Flight, Live)>, asked: Seq<char>, now: u64) -> Outcome {
    let w = asked_id(asked);
    if v.len() == 0 {
        tool_out::with_body(tool_out::bare(""@, true), "Nothing is running."@)
    } else if w.len() == 0 {
        tool_out::with_body(
            tool_out::with_meta(tool_out::bare(""@, true), text::dec(v.len()) + " running"@),
            text::joined(seq![or_empty(still_out(v, now))] + latest(v), "\n"@),
        )
    } else {
        match query_named(v, w) {
            None => tool_out::with_body(
                tool_out::with_meta(tool_out::bare("r"@ + w, false), "not running"@),
                or_empty(still_out(v, now)),
            ),
            Some((f, l)) => tool_out::with_body(
                tool_out::bare("r"@ + w, true),
                if l.queued {
                    call_text(f) + " — queued: it runs when the calls before it finish."@
                } else {
                    call_text(f) + " — running "@ + figures::human_text(
                        (activity::less(now as int, l.started as int) / 1000) as nat,
                    ) + ", "@ + figures::byte_text(l.bytes as nat) + " of output, last "@
                        + figures::human_text((silence(l, now) / 1000) as nat) + " ago\n"@ + (
                    if l.bytes == 0 {
                        "(no output yet)"@
                    } else {
                        last_chars(outside::lossy(l.out@), RUNNING_TAIL as nat)
                    })
                },
            ),
        }
    }
}

/// Which running flights have a buffer, and where.
fn query_places(running: &Vec<Flight>, live: &Vec<(u64, Live)>) -> (out: Vec<(usize, usize)>)
    ensures
        out@.len() == queries(running@, live@).len(),
        forall|k: int|
            0 <= k < out@.len() ==> (#[trigger] out@[k]).0 < running.len() && out@[k].1
                < live.len() && queries(running@, live@)[k] == (
                running@[out@[k].0 as int],
                live@[out@[k].1 as int].1,
            ),
{
    let mut out: Vec<(usize, usize)> = Vec::new();
    let mut i: usize = 0;
    assert(running@.take(0) =~= Seq::<Flight>::empty());
    while i < running.len()
        invariant
            i <= running.len(),
            out@.len() == queries(running@.take(i as int), live@).len(),
            forall|k: int|
                0 <= k < out@.len() ==> (#[trigger] out@[k]).0 < running.len() && out@[k].1
                    < live.len() && queries(running@.take(i as int), live@)[k] == (
                    running@[out@[k].0 as int],
                    live@[out@[k].1 as int].1,
                ),
        decreases running.len() - i,
    {
        assert(running@.take(i + 1).drop_last() =~= running@.take(i as int));
        assert(running@.take(i + 1).last() == running@[i as int]);
        match find_live(live, running[i].id) {
            Some(k) => out.push((i, k)),
            None => {},
        }
        i = i + 1;
    }
    assert(running@.take(i as int) =~= running@);
    out
}

/// The place of the query whose id reads `w`.
fn find_query(
    running: &Vec<Flight>,
    live: &Vec<(u64, Live)>,
    places: &Vec<(usize, usize)>,
    w: &str,
) -> (r: Option<usize>)
    requires
        places@.len() == queries(running@, live@).len(),
        forall|k: int|
            0 <= k < places@.len() ==> (#[trigger] places@[k]).0 < running.len() && places@[k].1
                < live.len() && queries(running@, live@)[k] == (
                running@[places@[k].0 as int],
                live@[places@[k].1 as int].1,
            ),
    ensures
        match r {
            Some(k) => k < places.len() && query_named(queries(running@, live@), w@) == Some(
                queries(running@, live@)[k as int],
            ),
            None => query_named(queries(running@, live@), w@) is None,
        },
{
    let ghost v = queries(running@, live@);
    let mut k: usize = 0;
    assert(v.skip(0) =~= v);
    while k < places.len()
        invariant
            k <= places.len(),
            v == queries(running@, live@),
            places@.len() == v.len(),
            forall|m: int|
                0 <= m < places@.len() ==> (#[trigger] places@[m]).0 < running.len()
                    && places@[m].1 < live.len() && v[m] == (
                    running@[places@[m].0 as int],
                    live@[places@[m].1 as int].1,
                ),
            query_named(v, w@) == query_named(v.skip(k as int), w@),
        decreases places.len() - k,
    {
        assert(v.skip(k as int)[0] == v[k as int]);
        let f = places[k].0;
        if text::same(text::number(running[f].id).as_str(), w) {
            return Some(k);
        }
        assert(v.skip(k as int).skip(1) =~= v.skip(k + 1));
        k = k + 1;
    }
    None
}

fn text_or_empty(o: Option<String>) -> (r: String)
    ensures
        r@ == or_empty(text::text_view(o)),
{
    match o {
        Some(s) => s,
        None => "".to_owned(),
    }
}

/// `Running`: the calls still in flight, or one of them, with what it has
/// printed so far.
pub fn running_tool(running: &Vec<Flight>, live: &Vec<(u64, Live)>, asked: &str, now: u64) -> (r:
    ToolOut)
    ensures
        r@ == running_answer(queries(running@, live@), asked@, now),
{
    let ghost v = queries(running@, live@);
    let places = query_places(running, live);
    if places.len() == 0 {
        return ToolOut::new("", true).body("Nothing is running.");
    }
    let w = id_asked(asked);
    let all = text_or_empty(still_running(running, live, now));
    if w.as_str().is_empty() {
        let mut out = text::none();
        text::put(&mut out, all.as_str());
        let ghost first = seq![all@];
        assert(text::texts(out@) =~= first + latest(v.take(0))) by {
            assert(v.take(0) =~= Seq::<(Flight, Live)>::empty());
        }
        let mut k: usize = 0;
        while k < places.len()
            invariant
                k <= places.len(),
                v == queries(running@, live@),
                places@.len() == v.len(),
                forall|m: int|
                    0 <= m < places@.len() ==> (#[trigger] places@[m]).0 < running.len()
                        && places@[m].1 < live.len() && v[m] == (
                        running@[places@[m].0 as int],
                        live@[places@[m].1 as int].1,
                    ),
                text::texts(out@) == first + latest(v.take(k as int)),
            decreases places.len() - k,
        {
            assert(v.take(k + 1).drop_last() =~= v.take(k as int));
            assert(v.take(k + 1).last() == v[k as int]);
            let (a, b) = places[k];
            if live[b].1.bytes > 0 {
                let row = String::from_str("--- r").concat(
                    text::number(running[a].id).as_str(),
                ).concat(" latest output:\n").concat(live[b].1.tail(400).as_str());
                text::put(&mut out, row.as_str());
                assert(text::texts(out@) =~= first + latest(v.take(k as int)).push(row@));
            }
            k = k + 1;
        }
        assert(v.take(k as int) =~= v);
        return ToolOut::new("", true).meta(
            text::number(places.len() as u64).concat(" running").as_str(),
        ).body(text::join(&out, "\n").as_str());
    }
    let name = String::from_str("r").concat(w.as_str());
    match find_query(running, live, &places, w.as_str()) {
        None => ToolOut::new(name.as_str(), false).meta("not running").body(all.as_str()),
        Some(k) => {
            let (a, b) = places[k];
            let f = &running[a];
            let l = &live[b].1;
            if l.queued {
                return ToolOut::new(name.as_str(), true).body(
                    call_words(f).concat(
                        " — queued: it runs when the calls before it finish.",
                    ).as_str(),
                );
            }
            let body = if l.bytes == 0 {
                "(no output yet)".to_owned()
            } else {
                l.tail(RUNNING_TAIL)
            };
            let head = call_words(f).concat(" — running ").concat(
                figures::human(l.ran(now) / 1000).as_str(),
            ).concat(", ").concat(figures::bytes(l.bytes).as_str()).concat(
                " of output, last ",
            ).concat(figures::human(l.quiet(now) / 1000).as_str()).concat(" ago\n").concat(
                body.as_str(),
            );
            ToolOut::new(name.as_str(), true).body(head.as_str())
        },
    }
}

/// What `Cancel` answers, and which flight it stops.
pub open spec fn cancel_answer(v: Seq<(Flight, Live)>, asked: Seq<char>, now: u64) -> (
    Outcome,
    Option<u64>,
) {
    let w = asked_id(asked);
    match query_named(v, w) {
        None => (
            tool_out::with_body(
                tool_out::with_meta(tool_out::bare("r"@ + w, false), "not running"@),
                match still_out(v, now) {
                    Some(s) => s,
                    None => "Nothing is running."@,
                },
            ),
            None,
        ),
        Some((f, _)) => (
            tool_out::with_body(
                tool_out::bare("r"@ + w, true),
                "Cancelling r"@ + text::dec(f.id as nat) + " ("@ + f.tool@ + " "@ + f.arg@
                    + "). Its result comes back marked cancelled."@,
            ),
            Some(f.id),
        ),
    }
}

/// `Cancel`: the answer, and the flight to stop.
pub fn cancel_tool(running: &Vec<Flight>, live: &Vec<(u64, Live)>, asked: &str, now: u64) -> (r: (
    ToolOut,
    Option<u64>,
))
    ensures
        (r.0@, r.1) == cancel_answer(queries(running@, live@), asked@, now),
{
    let places = query_places(running, live);
    let w = id_asked(asked);
    let name = String::from_str("r").concat(w.as_str());
    match find_query(running, live, &places, w.as_str()) {
        None => {
            let body = match still_running(running, live, now) {
                Some(s) => s,
                None => "Nothing is running.".to_owned(),
            };
            (ToolOut::new(name.as_str(), false).meta("not running").body(body.as_str()), None)
        },
        Some(k) => {
            let (a, b) = places[k];
            let f = &running[a];
            let said = String::from_str("Cancelling r").concat(
                text::number(f.id).as_str(),
            ).concat(" (").concat(f.tool.as_str()).concat(" ").concat(f.arg.as_str()).concat(
                "). Its result comes back marked cancelled.",
            );
            (ToolOut::new(name.as_str(), true).body(said.as_str()), Some(f.id))
        },
    }
}

// ---------------------------------------------------------------------
// The live record
// ---------------------------------------------------------------------

/// Everything in the record but the phase and its clock, what is running, and
/// how the finished calls went.
pub open spec fn rest_kept(a: Activity, b: Activity) -> bool {
    &&& a.name == b.name
    &&& a.model == b.model
    &&& a.why == b.why
    &&& a.turns == b.turns
    &&& a.followups == b.followups
    &&& a.held == b.held
    &&& a.thought == b.thought
    &&& a.tasks == b.tasks
    &&& a.tasks_finished == b.tasks_finished
    &&& a.tasks_total == b.tasks_total
    &&& a.tokens == b.tokens
    &&& a.window == b.window
    &&& a.at == b.at
}

/// What is running and how the finished calls went.
pub open spec fn calls_kept(a: Activity, b: Activity) -> bool {
    a.running == b.running && a.ok == b.ok && a.failed == b.failed && a.recent == b.recent
}

/// The record in `phase` as of `now`: its clock restarts only if the phase is
/// actually new.
pub open spec fn in_phase(a: Activity, b: Activity, phase: Seq<char>, now: u64) -> bool {
    &&& b.phase@ == phase
    &&& b.since == if a.phase@ == phase {
        a.since
    } else {
        now
    }
}

/// Enter `phase`.
pub fn enter_phase(act: &mut Activity, phase: &str, now: u64)
    ensures
        in_phase(*old(act), *final(act), phase@, now),
        rest_kept(*old(act), *final(act)),
        calls_kept(*old(act), *final(act)),
{
    if !text::same(act.phase.as_str(), phase) {
        act.phase = phase.to_owned();
        act.since = now;
    }
}

/// Where the model is after acting: tools still out, or nothing.
pub fn settle(act: &mut Activity, now: u64)
    ensures
        in_phase(
            *old(act),
            *final(act),
            if old(act).running@.len() == 0 {
                "idle"@
            } else {
                "waiting"@
            },
            now,
        ),
        rest_kept(*old(act), *final(act)),
        calls_kept(*old(act), *final(act)),
{
    if act.running.len() == 0 {
        enter_phase(act, "idle", now);
    } else {
        enter_phase(act, "waiting", now);
    }
}

/// A turn begins: one more of them, about `why`, and the model is thinking from
/// now on.
pub fn begin_turn(act: &mut Activity, why: &str, now: u64)
    requires
        old(act).turns < u32::MAX,
    ensures
        final(act).turns == old(act).turns + 1,
        final(act).why@ == why@,
        final(act).phase@ == "thinking"@,
        final(act).since == now,
        calls_kept(*old(act), *final(act)),
        rest_kept(
            Activity { turns: final(act).turns, why: final(act).why, ..*old(act) },
            *final(act),
        ),
{
    act.turns = act.turns + 1;
    act.why = why.to_owned();
    act.phase = "thinking".to_owned();
    act.since = now;
}

/// The model answered: what it cost, and the tail of its reasoning where it sent
/// any.
pub fn end_turn(act: &mut Activity, reasoning: &Option<String>, tokens: u32)
    ensures
        final(act).tokens == tokens,
        match reasoning {
            Some(s) => final(act).thought@ == activity::tail_view(
                s@,
                activity::THOUGHT_CHARS as nat,
            ),
            None => final(act).thought == old(act).thought,
        },
        final(act).phase == old(act).phase,
        final(act).since == old(act).since,
        calls_kept(*old(act), *final(act)),
        rest_kept(
            Activity { thought: final(act).thought, tokens, ..*old(act) },
            *final(act),
        ),
{
    match reasoning {
        Some(s) => {
            act.thought = activity::tail(s.as_str(), activity::THOUGHT_CHARS);
        },
        None => {},
    }
    act.tokens = tokens;
}

/// The record as it goes out: stamped, with how many follow-up turns there were
/// in a row and how many results are held back.
pub fn publish(act: &mut Activity, followups: u32, held: usize, now: u64)
    ensures
        final(act).followups == followups,
        final(act).held == held as u32,
        final(act).at == now,
        final(act).phase == old(act).phase,
        final(act).since == old(act).since,
        calls_kept(*old(act), *final(act)),
        rest_kept(
            Activity { followups, held: held as u32, at: now, ..*old(act) },
            *final(act),
        ),
{
    act.followups = followups;
    act.held = held as u32;
    act.at = now;
}

/// The place of the running call with this id.
pub open spec fn flight_at(running: Seq<Flight>, id: u64) -> Option<nat>
    decreases running.len(),
{
    if running.len() == 0 {
        None
    } else if running[0].id == id {
        Some(0)
    } else {
        match flight_at(running.skip(1), id) {
            None => None,
            Some(i) => Some(i + 1),
        }
    }
}

fn find_flight(running: &Vec<Flight>, id: u64) -> (r: Option<usize>)
    ensures
        match r {
            Some(i) => i < running.len() && flight_at(running@, id) == Some(i as nat),
            None => flight_at(running@, id) is None,
        },
{
    let mut i: usize = 0;
    assert(running@.skip(0) =~= running@);
    while i < running.len()
        invariant
            i <= running.len(),
            flight_at(running@, id) == (match flight_at(running@.skip(i as int), id) {
                None => None::<nat>,
                Some(k) => Some((i + k) as nat),
            }),
        decreases running.len() - i,
    {
        assert(running@.skip(i as int)[0] == running@[i as int]);
        if running[i].id == id {
            return Some(i);
        }
        assert(running@.skip(i as int).skip(1) =~= running@.skip(i + 1));
        i = i + 1;
    }
    None
}

/// The buffers without the one of this call.
pub open spec fn without(live: Seq<(u64, Live)>, id: u64) -> Seq<(u64, Live)>
    decreases live.len(),
{
    if live.len() == 0 {
        seq![]
    } else if live[0].0 == id {
        live.skip(1)
    } else {
        seq![live[0]] + without(live.skip(1), id)
    }
}

proof fn lemma_without(live: Seq<(u64, Live)>, id: u64, i: int)
    requires
        0 <= i <= live.len(),
        forall|k: int| 0 <= k < i ==> (#[trigger] live[k]).0 != id,
        i < live.len() ==> live[i].0 == id,
    ensures
        without(live, id) == if i < live.len() {
            live.remove(i)
        } else {
            live
        },
    decreases i,
{
    if i == 0 {
        if live.len() > 0 {
            assert(without(live, id) =~= live.remove(0));
        } else {
            assert(without(live, id) =~= live);
        }
    } else {
        lemma_without(live.skip(1), id, i - 1);
        if i < live.len() {
            assert(without(live, id) =~= live.remove(i));
        } else {
            assert(without(live, id) =~= live);
        }
    }
}

/// The flight that a call which came back was, if it was ever in the air.
pub open spec fn landed(running: Seq<Flight>, flight: Option<u64>) -> Option<nat> {
    match flight {
        Some(id) => flight_at(running, id),
        None => None,
    }
}

/// The last [`activity::RECENT`] of the finished calls.
pub open spec fn recent_after(v: Seq<Finished>) -> Seq<Finished> {
    if v.len() > activity::RECENT {
        v.skip(1)
    } else {
        v
    }
}

/// A call came back: off the running list (if it was ever on it), into the
/// tally and the recent list. The waiting phase ends with the last one. Returns
/// the call's tool, argument and how long it ran.
pub fn land(
    act: &mut Activity,
    live: &mut Vec<(u64, Live)>,
    flight: Option<u64>,
    tool: &str,
    arg: &str,
    ok: bool,
    meta: &str,
    now: u64,
) -> (r: (String, String, u64))
    requires
        old(act).ok < u32::MAX,
        old(act).failed < u32::MAX,
    ensures
        final(live)@ == (match flight {
            Some(id) => without(old(live)@, id),
            None => old(live)@,
        }),
        match landed(old(act).running@, flight) {
            Some(i) => {
                let f = old(act).running@[i as int];
                &&& final(act).running@ == old(act).running@.remove(i as int)
                &&& r.0@ == f.tool@
                &&& r.1@ == f.arg@
                &&& r.2 == activity::less(now as int, f.since as int)
            },
            None => {
                &&& final(act).running@ == old(act).running@
                &&& r.0@ == tool@
                &&& r.1@ == activity::clipped(
                    activity::headline(arg@),
                    activity::ARG_CHARS as nat,
                )
                &&& r.2 == 0
            },
        },
        final(act).ok == old(act).ok + if ok {
            1int
        } else {
            0
        },
        final(act).failed == old(act).failed + if ok {
            0int
        } else {
            1
        },
        exists|x: Finished|
            final(act).recent@ == recent_after(#[trigger] old(act).recent@.push(x)) && x.tool@
                == r.0@ && x.arg@ == r.1@ && x.ok == ok && x.ms == r.2 && x.meta@ == meta@ && x.at
                == now,
        in_phase(
            *old(act),
            *final(act),
            if old(act).phase@ == "waiting"@ && final(act).running@.len() == 0 {
                "idle"@
            } else {
                old(act).phase@
            },
            now,
        ),
        rest_kept(*old(act), *final(act)),
{
    match flight {
        Some(id) => {
            match find_live(live, id) {
                Some(i) => {
                    proof {
                        lemma_without(live@, id, i as int);
                    }
                    live.remove(i);
                },
                None => {
                    proof {
                        lemma_without(live@, id, live@.len() as int);
                    }
                },
            }
        },
        None => {},
    }
    let place: Option<usize> = match flight {
        Some(id) => find_flight(&act.running, id),
        None => None,
    };
    let (name, given, ms): (String, String, u64) = match place {
        Some(i) => {
            let f = act.running.remove(i);
            (f.tool, f.arg, now.saturating_sub(f.since))
        },
        None => (tool.to_owned(), activity::short(arg, activity::ARG_CHARS), 0),
    };
    if ok {
        act.ok = act.ok + 1;
    } else {
        act.failed = act.failed + 1;
    }
    let x = Finished {
        tool: name.clone(),
        arg: given.clone(),
        ok,
        ms,
        meta: meta.to_owned(),
        at: now,
    };
    let ghost gx = x;
    act.recent.push(x);
    assert(act.recent@ == old(act).recent@.push(gx));
    if act.recent.len() > activity::RECENT {
        act.recent.remove(0);
        assert(act.recent@ =~= old(act).recent@.push(gx).skip(1));
    }
    if text::same(act.phase.as_str(), "waiting") && act.running.len() == 0 {
        enter_phase(act, "idle", now);
    }
    (name, given, ms)
}

/// The record never lists more than [`activity::RECENT`] finished calls, and
/// always the newest.
pub proof fn recent_calls_stay_bounded(v: Seq<Finished>, x: Finished)
    requires
        v.len() <= activity::RECENT,
    ensures
        recent_after(v.push(x)).len() <= activity::RECENT,
        recent_after(v.push(x)).last() == x,
{
}

/// A call leaves: on the running list with the next flight id, and its gist cut
/// short.
pub fn launch(act: &mut Activity, flights: &mut u64, c: &Call, now: u64) -> (id: u64)
    requires
        *old(flights) < u64::MAX,
    ensures
        id == *old(flights),
        *final(flights) == *old(flights) + 1,
        final(act).running@.len() == old(act).running@.len() + 1,
        final(act).running@.drop_last() == old(act).running@,
        ({
            let f = final(act).running@.last();
            &&& f.id == id
            &&& f.tool@ == c.name@
            &&& f.arg@ == activity::clipped(
                activity::headline(machine::gist_of(c.name@, c.args)),
                activity::ARG_CHARS as nat,
            )
            &&& f.since == now
            &&& f.output == 0
            &&& f.last_output == 0
        }),
        final(act).phase == old(act).phase,
        final(act).since == old(act).since,
        final(act).ok == old(act).ok,
        final(act).failed == old(act).failed,
        final(act).recent == old(act).recent,
        rest_kept(*old(act), *final(act)),
{
    let id: u64 = *flights;
    *flights = *flights + 1;
    act.running.push(
        Flight {
            id,
            tool: c.name.clone(),
            arg: activity::short(machine::gist(c).as_str(), activity::ARG_CHARS),
            since: now,
            output: 0,
            last_output: 0,
        },
    );
    assert(act.running@.drop_last() =~= old(act).running@);
    id
}

// ---------------------------------------------------------------------
// What the model is told of its calls
// ---------------------------------------------------------------------

/// The calls are looked at four times in the shorter of the two spans, and
/// neither more often than every twentieth of a second nor more rarely than
/// every five seconds.
pub proof fn calls_are_looked_at_in_time(stall: u64, nag: u64)
    ensures
        50 <= watch_span(stall, nag) <= 5000,
        200 <= stall <= 20000 && stall <= nag ==> watch_span(stall, nag) * 4 <= stall < (watch_span(
            stall,
            nag,
        ) + 1) * 4,
        200 <= nag <= 20000 && nag <= stall ==> watch_span(stall, nag) * 4 <= nag < (watch_span(
            stall,
            nag,
        ) + 1) * 4,
{
}

/// What a call printed is kept whole up to half a megabyte. What is longer keeps
/// its front and its end, with a note between them of how much is gone.
pub proof fn output_is_kept_or_its_loss_is_told(out: Seq<u8>, chunk: Seq<u8>)
    ensures
        out.len() + chunk.len() <= 524288 ==> grown(out, chunk) == out + chunk,
        out.len() + chunk.len() > 524288 ==> {
            let r = grown(out, chunk);
            let gone = (out.len() + chunk.len() - 65536 - 262144) as nat;
            let note = vstd::utf8::encode_utf8("\n… ["@ + text::dec(gone) + " bytes not kept] …\n"@);
            &&& r.len() == 65536 + note.len() + 262144
            &&& r.take(65536) == (out + chunk).take(65536)
            &&& r.subrange(65536, 65536 + note.len() as int) == note
            &&& r.skip(r.len() - 262144) == (out + chunk).skip(out.len() + chunk.len() - 262144)
        },
{
    if out.len() + chunk.len() > 524288 {
        let r = grown(out, chunk);
        let gone = (out.len() + chunk.len() - 65536 - 262144) as nat;
        let note = vstd::utf8::encode_utf8("\n… ["@ + text::dec(gone) + " bytes not kept] …\n"@);
        let all = out + chunk;
        assert(r == all.take(65536) + note + all.skip(all.len() - 262144));
        assert(r.take(65536) =~= all.take(65536));
        assert(r.subrange(65536, 65536 + note.len() as int) =~= note);
        assert(r.skip(r.len() - 262144) =~= all.skip(all.len() - 262144));
    }
}

/// The end of a text is its last characters, all of it where it is short; what
/// is cut off in front is marked.
pub proof fn an_end_is_the_end(s: Seq<char>, n: nat)
    ensures
        s.len() <= n ==> last_chars(s, n) == s,
        s.len() > n ==> last_chars(s, n).len() == n + 1 && last_chars(s, n)[0] == '…' && last_chars(
            s,
            n,
        ).skip(1) == s.skip(s.len() - n),
{
    reveal_strlit("…");
    if s.len() > n {
        assert(last_chars(s, n).skip(1) =~= s.skip(s.len() - n));
    }
}

/// What is kept of a call is found under its id: the first under it.
pub proof fn a_call_is_found_by_its_id(live: Seq<(u64, Live)>, id: u64)
    ensures
        match live_at(live, id) {
            Some(l) => exists|i: int|
                0 <= i < live.len() && #[trigger] live[i] == (id, l) && forall|k: int|
                    0 <= k < i ==> (#[trigger] live[k]).0 != id,
            None => forall|k: int| 0 <= k < live.len() ==> (#[trigger] live[k]).0 != id,
        },
    decreases live.len(),
{
    if live.len() > 0 {
        if live[0].0 == id {
            assert(live[0] == (id, live[0].1));
        } else {
            let rest = live.skip(1);
            a_call_is_found_by_its_id(rest, id);
            match live_at(rest, id) {
                Some(l) => {
                    let i = choose|i: int|
                        0 <= i < rest.len() && #[trigger] rest[i] == (id, l) && forall|k: int|
                            0 <= k < i ==> (#[trigger] rest[k]).0 != id;
                    assert(live[i + 1] == (id, l));
                    assert forall|k: int| 0 <= k < i + 1 implies (#[trigger] live[k]).0 != id by {
                        if k > 0 {
                            assert(rest[k - 1] == live[k]);
                        }
                    }
                },
                None => {
                    assert forall|k: int| 0 <= k < live.len() implies (#[trigger] live[k]).0
                        != id by {
                        if k > 0 {
                            assert(rest[k - 1] == live[k]);
                        }
                    }
                },
            }
        }
    }
}

/// Every call that is out and has something kept of it is among those the model
/// may ask for, with what is kept of it, and no other is.
pub proof fn every_call_that_is_out_may_be_asked_for(
    running: Seq<Flight>,
    live: Seq<(u64, Live)>,
    f: Flight,
    l: Live,
)
    ensures
        queries(running, live).contains((f, l)) <==> running.contains(f) && live_at(live, f.id)
            == Some(l),
        queries(running, live).len() <= running.len(),
        (forall|i: int| 0 <= i < running.len() ==> live_at(live, (#[trigger] running[i]).id) is Some)
            ==> queries(running, live).len() == running.len(),
    decreases running.len(),
{
    if running.len() > 0 {
        let front = running.drop_last();
        let before = queries(front, live);
        let all = queries(running, live);
        every_call_that_is_out_may_be_asked_for(front, live, f, l);
        assert(running[running.len() - 1] == running.last());
        if running.contains(f) {
            let i = choose|i: int| 0 <= i < running.len() && running[i] == f;
            if i < front.len() {
                assert(front[i] == f);
            }
        }
        if front.contains(f) {
            let i = choose|i: int| 0 <= i < front.len() && front[i] == f;
            assert(running[i] == f);
        }
        if forall|i: int|
            0 <= i < running.len() ==> live_at(live, (#[trigger] running[i]).id) is Some {
            assert forall|i: int| 0 <= i < front.len() implies live_at(
                live,
                (#[trigger] front[i]).id,
            ) is Some by {
                assert(front[i] == running[i]);
            }
        }
        match live_at(live, running.last().id) {
            Some(x) => {
                assert(all[before.len() as int] == (running.last(), x));
                if before.contains((f, l)) {
                    let i = choose|i: int| 0 <= i < before.len() && before[i] == (f, l);
                    assert(all[i] == (f, l));
                }
                if all.contains((f, l)) {
                    let i = choose|i: int| 0 <= i < all.len() && all[i] == (f, l);
                    if i < before.len() {
                        assert(before[i] == (f, l));
                    }
                }
            },
            None => {},
        }
    }
}

proof fn lemma_call_text(f: Flight)
    ensures
        text::has(call_text(f), text::dec(f.id as nat)),
        text::has(call_text(f), f.tool@),
        text::has(call_text(f), f.arg@),
{
    let a = "r"@;
    let b = text::dec(f.id as nat);
    let c = " "@;
    let d = f.tool@;
    let e = " "@;
    let g = f.arg@;
    text::lemma_has_self(b);
    text::lemma_has_right(a, b, b);
    text::lemma_has_left(a + b, c, b);
    text::lemma_has_left(a + b + c, d, b);
    text::lemma_has_left(a + b + c + d, e, b);
    text::lemma_has_left(a + b + c + d + e, g, b);
    text::lemma_has_self(d);
    text::lemma_has_right(a + b + c, d, d);
    text::lemma_has_left(a + b + c + d, e, d);
    text::lemma_has_left(a + b + c + d + e, g, d);
    text::lemma_has_self(g);
    text::lemma_has_right(a + b + c + d + e, g, g);
}

proof fn lemma_running_row(f: Flight, l: Live, now: u64)
    ensures
        text::has(running_row(f, l, now), call_text(f)),
        l.queued ==> text::has(running_row(f, l, now), "queued behind the calls before it"@),
        !l.queued ==> text::has(
            running_row(f, l, now),
            figures::human_text((activity::less(now as int, l.started as int) / 1000) as nat),
        ),
        !l.queued && l.bytes == 0 ==> text::has(running_row(f, l, now), "no output yet"@),
        !l.queued && l.bytes > 0 ==> text::has(
            running_row(f, l, now),
            figures::byte_text(l.bytes as nat),
        ) && text::has(
            running_row(f, l, now),
            figures::human_text((silence(l, now) / 1000) as nat),
        ),
{
    let a = call_text(f);
    text::lemma_has_self(a);
    if l.queued {
        let b = " — queued behind the calls before it"@;
        let q = "queued behind the calls before it"@;
        reveal_strlit(" — queued behind the calls before it");
        reveal_strlit("queued behind the calls before it");
        assert(b.subrange(3, 3 + q.len() as int) =~= q);
        assert(text::occurs_at(b, q, 3));
        text::lemma_has_left(a, b, a);
        text::lemma_has_right(a, b, q);
    } else {
        let b = " — "@;
        let c = figures::human_text(
            (activity::less(now as int, l.started as int) / 1000) as nat,
        );
        let d = ", "@;
        text::lemma_has_left(a, b, a);
        text::lemma_has_left(a + b, c, a);
        text::lemma_has_left(a + b + c, d, a);
        text::lemma_has_self(c);
        text::lemma_has_right(a + b, c, c);
        text::lemma_has_left(a + b + c, d, c);
        if l.bytes == 0 {
            let e = "no output yet"@;
            text::lemma_has_left(a + b + c + d, e, a);
            text::lemma_has_left(a + b + c + d, e, c);
            text::lemma_has_self(e);
            text::lemma_has_right(a + b + c + d, e, e);
        } else {
            let x = figures::byte_text(l.bytes as nat);
            let y = " of output, last "@;
            let z = figures::human_text((silence(l, now) / 1000) as nat);
            let w = " ago"@;
            let e = x + y + z + w;
            text::lemma_has_left(a + b + c + d, e, a);
            text::lemma_has_left(a + b + c + d, e, c);
            text::lemma_has_self(x);
            text::lemma_has_left(x, y, x);
            text::lemma_has_left(x + y, z, x);
            text::lemma_has_left(x + y + z, w, x);
            text::lemma_has_self(z);
            text::lemma_has_right(x + y, z, z);
            text::lemma_has_left(x + y + z, w, z);
            text::lemma_has_right(a + b + c + d, e, x);
            text::lemma_has_right(a + b + c + d, e, z);
        }
    }
}

/// The model is told of every call that is out: which it is, what it was given,
/// how long it has run, how much it printed and when it last did; of one that
/// has not begun, that it waits.
pub proof fn every_call_that_is_out_is_told(v: Seq<(Flight, Live)>, now: u64, i: int)
    requires
        0 <= i < v.len(),
    ensures
        still_out(v, now) matches Some(told) && {
            let (f, l) = v[i];
            &&& text::has(told, text::dec(f.id as nat))
            &&& text::has(told, f.tool@)
            &&& text::has(told, f.arg@)
            &&& l.queued ==> text::has(told, "queued behind the calls before it"@)
            &&& !l.queued ==> text::has(
                told,
                figures::human_text((activity::less(now as int, l.started as int) / 1000) as nat),
            )
            &&& !l.queued && l.bytes == 0 ==> text::has(told, "no output yet"@)
            &&& !l.queued && l.bytes > 0 ==> text::has(told, figures::byte_text(l.bytes as nat))
                && text::has(told, figures::human_text((silence(l, now) / 1000) as nat))
        },
{
    let (f, l) = v[i];
    let rows = running_rows(v, now);
    let row = running_row(f, l, now);
    let body = text::joined(rows, "\n"@);
    let head = "Still running (Running <id> for output so far, Cancel <id> to stop one):\n"@;
    let told = head + body;
    text::lemma_has_part(rows, "\n"@, i);
    assert(rows[i] == row);
    text::lemma_has_right(head, body, row);
    lemma_running_row(f, l, now);
    lemma_call_text(f);
    text::lemma_has_through(told, row, call_text(f));
    text::lemma_has_through(told, call_text(f), text::dec(f.id as nat));
    text::lemma_has_through(told, call_text(f), f.tool@);
    text::lemma_has_through(told, call_text(f), f.arg@);
    if l.queued {
        text::lemma_has_through(told, row, "queued behind the calls before it"@);
    } else {
        text::lemma_has_through(
            told,
            row,
            figures::human_text((activity::less(now as int, l.started as int) / 1000) as nat),
        );
        if l.bytes == 0 {
            text::lemma_has_through(told, row, "no output yet"@);
        } else {
            text::lemma_has_through(told, row, figures::byte_text(l.bytes as nat));
            text::lemma_has_through(
                told,
                row,
                figures::human_text((silence(l, now) / 1000) as nat),
            );
        }
    }
}

/// Nothing is told where nothing is out.
pub proof fn nothing_out_is_nothing_told(v: Seq<(Flight, Live)>, now: u64)
    ensures
        still_out(v, now) is None <==> v.len() == 0,
{
}

/// A call is quiet for as long as it has printed nothing: since its last output,
/// or since it began; one that waits for its turn is not quiet.
pub proof fn a_call_is_quiet_since_it_last_printed(l: Live, now: u64)
    ensures
        l.queued ==> silence(l, now) == 0,
        !l.queued && (l.last_output matches Some(t) && t <= now) ==> silence(l, now) + (
        l.last_output->0) == now,
        !l.queued && l.last_output is None && l.started <= now ==> silence(l, now) + l.started
            == now,
        silence(l, now) >= 0,
{
}

/// A mark that the model was told of a call's silence is on that call alone.
pub proof fn only_that_call_is_marked(live: Seq<(u64, Live)>, id: u64, other: u64)
    ensures
        other != id ==> live_at(marked(live, id), other) == live_at(live, other),
        match live_at(live, id) {
            Some(l) => live_at(marked(live, id), id) == Some(Live { stall_noted: true, ..l }),
            None => marked(live, id) == live,
        },
        marked(live, id).len() == live.len(),
    decreases live.len(),
{
    if live.len() > 0 {
        let rest = live.skip(1);
        only_that_call_is_marked(rest, id, other);
        if live[0].0 == id {
            let m = marked(live, id);
            assert(m.skip(1) =~= rest);
        } else {
            let m = marked(live, id);
            assert(m.skip(1) =~= marked(rest, id));
            if live_at(live, id) is None {
                assert(m =~= live);
            }
        }
    } else {
        assert(marked(live, id) =~= live);
    }
}

/// The model is told of every call that has been quiet too long and of which it
/// was not told yet, and of no other; it is told of each once, and what is shown
/// goes with what is told.
pub proof fn every_quiet_call_is_told_of_once(
    running: Seq<Flight>,
    live: Seq<(u64, Live)>,
    now: u64,
    stall: u64,
    n: nat,
    i: int,
)
    requires
        n <= running.len(),
        0 <= i < n,
        forall|a: int, b: int|
            0 <= a < b < running.len() ==> (#[trigger] running[a]).id != (#[trigger] running[b]).id,
    ensures
        ({
            let (after, told, shown) = watched(running, live, now, stall, n);
            &&& told.len() == shown.len()
            &&& match live_at(live, running[i].id) {
                Some(l) => if silence(l, now) >= stall && !l.stall_noted {
                    &&& told.contains(stall_notice(running[i], l, now))
                    &&& shown.contains(stall_shown(running[i], l, now))
                    &&& live_at(after, running[i].id) == Some(Live { stall_noted: true, ..l })
                } else {
                    live_at(after, running[i].id) == Some(l)
                },
                None => live_at(after, running[i].id) is None,
            }
        }),
    decreases n,
{
    let m = (n - 1) as nat;
    let (lv, told, shown) = watched(running, live, now, stall, m);
    let (after, told2, shown2) = watched(running, live, now, stall, n);
    let f = running[n - 1];
    lemma_untouched(running, live, now, stall, m, f.id);
    only_that_call_is_marked(lv, f.id, running[i].id);
    if i < m {
        every_quiet_call_is_told_of_once(running, live, now, stall, m, i);
        assert(running[i].id != f.id);
        match live_at(live, running[i].id) {
            Some(l) => {
                if stalled(l, now, stall) {
                    let a = choose|a: int|
                        0 <= a < told.len() && told[a] == stall_notice(running[i], l, now);
                    assert(told2[a] == told[a]);
                    let b = choose|b: int|
                        0 <= b < shown.len() && shown[b] == stall_shown(running[i], l, now);
                    assert(shown2[b] == shown[b]);
                }
            },
            None => {},
        }
    } else {
        if m > 0 {
            every_quiet_call_is_told_of_once(running, live, now, stall, m, 0);
        }
        match live_at(live, f.id) {
            Some(l) => {
                if stalled(l, now, stall) {
                    assert(told2.last() == stall_notice(f, l, now));
                    assert(shown2.last() == stall_shown(f, l, now));
                    assert(told2[told2.len() - 1] == told2.last());
                    assert(shown2[shown2.len() - 1] == shown2.last());
                }
            },
            None => {},
        }
    }
}

proof fn lemma_untouched(
    running: Seq<Flight>,
    live: Seq<(u64, Live)>,
    now: u64,
    stall: u64,
    n: nat,
    id: u64,
)
    requires
        n <= running.len(),
        forall|a: int| 0 <= a < n ==> (#[trigger] running[a]).id != id,
    ensures
        live_at(watched(running, live, now, stall, n).0, id) == live_at(live, id),
    decreases n,
{
    if n > 0 {
        let m = (n - 1) as nat;
        lemma_untouched(running, live, now, stall, m, id);
        assert(running[n - 1].id != id);
        only_that_call_is_marked(
            watched(running, live, now, stall, m).0,
            running[n - 1].id,
            id,
        );
    }
}

/// Whatever the model is told of is a call that is out and has been quiet too
/// long.
pub proof fn only_quiet_calls_are_told_of(
    running: Seq<Flight>,
    live: Seq<(u64, Live)>,
    now: u64,
    stall: u64,
    n: nat,
    k: int,
)
    requires
        n <= running.len(),
        0 <= k < watched(running, live, now, stall, n).1.len(),
    ensures
        watched(running, live, now, stall, n).1.len() <= n,
        exists|i: int, l: Live|
            0 <= i < n && silence(l, now) >= stall && !l.stall_noted && watched(
                running,
                live,
                now,
                stall,
                n,
            ).1[k] == #[trigger] stall_notice(running[i], l, now),
    decreases n,
{
    let m = (n - 1) as nat;
    let (lv, told, shown) = watched(running, live, now, stall, m);
    let f = running[n - 1];
    if told.len() > 0 {
        only_quiet_calls_are_told_of(
            running,
            live,
            now,
            stall,
            m,
            if k < told.len() {
                k
            } else {
                0
            },
        );
    }
    if k >= told.len() {
        let l = live_at(lv, f.id)->0;
        assert(watched(running, live, now, stall, n).1[k] == stall_notice(running[n - 1], l, now));
    } else {
        let (i, l) = choose|i: int, l: Live|
            0 <= i < m && silence(l, now) >= stall && !l.stall_noted && told[k]
                == #[trigger] stall_notice(running[i], l, now);
        assert(watched(running, live, now, stall, n).1[k] == stall_notice(running[i], l, now));
    }
}

/// What is known of a call while it runs is what it has printed by now: how much
/// and when, with nothing else of it changed.
pub proof fn a_running_call_shows_its_output(f: Flight, live: Seq<(u64, Live)>)
    ensures
        ({
            let r = refreshed(f, live);
            &&& r.id == f.id && r.tool == f.tool && r.arg == f.arg && r.since == f.since
            &&& match live_at(live, f.id) {
                None => r == f,
                Some(l) => r.output == l.bytes && (l.last_output matches Some(t) ==> r.last_output
                    == t) && (l.last_output is None ==> r.last_output == 0),
            }
        }),
{
}

/// An id is read without the marks in front of it: what is taken off is only
/// such marks, and none is left.
pub proof fn an_id_is_read_without_its_marks(s: Seq<char>)
    ensures
        bare_id(s).len() <= s.len(),
        bare_id(s) == s.skip(s.len() - bare_id(s).len()),
        forall|i: int|
            0 <= i < s.len() - bare_id(s).len() ==> (#[trigger] s[i] == 'r' || s[i] == 'R' || s[i]
                == '#'),
        bare_id(s).len() > 0 ==> bare_id(s)[0] != 'r' && bare_id(s)[0] != 'R' && bare_id(s)[0]
            != '#',
    decreases s.len(),
{
    if s.len() > 0 && (s[0] == 'r' || s[0] == 'R' || s[0] == '#') {
        let rest = s.skip(1);
        an_id_is_read_without_its_marks(rest);
        assert(s.skip(s.len() - bare_id(s).len()) =~= rest.skip(rest.len() - bare_id(rest).len()));
        assert forall|i: int| 0 <= i < s.len() - bare_id(s).len() implies (#[trigger] s[i] == 'r'
            || s[i] == 'R' || s[i] == '#') by {
            if i > 0 {
                assert(rest[i - 1] == s[i]);
            }
        }
    } else {
        assert(s.skip(0) =~= s);
    }
}

/// A call is found by the number the model gave: the first that has it, and none
/// where none has it.
pub proof fn the_call_asked_for_is_found(v: Seq<(Flight, Live)>, w: Seq<char>)
    ensures
        match query_named(v, w) {
            Some(q) => v.contains(q) && text::dec(q.0.id as nat) == w,
            None => forall|i: int|
                0 <= i < v.len() ==> text::dec((#[trigger] v[i]).0.id as nat) != w,
        },
    decreases v.len(),
{
    if v.len() > 0 {
        let rest = v.skip(1);
        the_call_asked_for_is_found(rest, w);
        if text::dec(v[0].0.id as nat) == w {
            assert(v.contains(v[0]));
        } else {
            match query_named(rest, w) {
                Some(q) => {
                    let i = choose|i: int| 0 <= i < rest.len() && rest[i] == q;
                    assert(v[i + 1] == q);
                },
                None => {
                    assert forall|i: int| 0 <= i < v.len() implies text::dec(
                        (#[trigger] v[i]).0.id as nat,
                    ) != w by {
                        if i > 0 {
                            assert(rest[i - 1] == v[i]);
                        }
                    }
                },
            }
        }
    }
}

/// The call that is cancelled is one that is out and has the number asked for;
/// where none has it nothing is cancelled, and the answer says so.
pub proof fn the_call_asked_for_is_cancelled(v: Seq<(Flight, Live)>, asked: Seq<char>, now: u64)
    ensures
        match cancel_answer(v, asked, now).1 {
            Some(id) => cancel_answer(v, asked, now).0.ok && text::dec(id as nat) == asked_id(asked)
                && exists|i: int| 0 <= i < v.len() && (#[trigger] v[i]).0.id == id,
            None => !cancel_answer(v, asked, now).0.ok && forall|i: int|
                0 <= i < v.len() ==> text::dec((#[trigger] v[i]).0.id as nat) != asked_id(asked),
        },
{
    let w = asked_id(asked);
    the_call_asked_for_is_found(v, w);
    match query_named(v, w) {
        Some(q) => {
            let i = choose|i: int| 0 <= i < v.len() && v[i] == q;
            assert(v[i].0.id == q.0.id);
        },
        None => {},
    }
}

/// A call that lands is taken from those that are out, and only it: the first
/// with its id.
pub proof fn the_call_that_lands_is_taken_out(running: Seq<Flight>, id: u64)
    ensures
        match flight_at(running, id) {
            Some(i) => i < running.len() && running[i as int].id == id && forall|k: int|
                0 <= k < i ==> (#[trigger] running[k]).id != id,
            None => forall|k: int| 0 <= k < running.len() ==> (#[trigger] running[k]).id != id,
        },
    decreases running.len(),
{
    if running.len() > 0 && running[0].id != id {
        let rest = running.skip(1);
        the_call_that_lands_is_taken_out(rest, id);
        match flight_at(rest, id) {
            Some(i) => {
                assert(rest[i as int] == running[i as int + 1]);
                assert forall|k: int| 0 <= k < i + 1 implies (#[trigger] running[k]).id != id by {
                    if k > 0 {
                        assert(rest[k - 1] == running[k]);
                    }
                }
            },
            None => {
                assert forall|k: int| 0 <= k < running.len() implies (#[trigger] running[k]).id
                    != id by {
                    if k > 0 {
                        assert(rest[k - 1] == running[k]);
                    }
                }
            },
        }
    }
}

/// What is kept of a call goes when it lands; what is kept of any other stays.
pub proof fn what_is_kept_of_other_calls_stays(live: Seq<(u64, Live)>, id: u64, other: u64)
    requires
        other != id,
    ensures
        live_at(without(live, id), other) == live_at(live, other),
        live_at(live, id) is Some ==> without(live, id).len() == live.len() - 1,
        live_at(live, id) is None ==> without(live, id) == live,
    decreases live.len(),
{
    if live.len() > 0 {
        let rest = live.skip(1);
        what_is_kept_of_other_calls_stays(rest, id, other);
        if live[0].0 != id {
            let m = without(live, id);
            assert(m.skip(1) =~= without(rest, id));
            if live_at(live, id) is None {
                assert(m =~= live);
            }
        }
    } else {
        assert(without(live, id) =~= live);
    }
}

/// The last six finished calls are shown, the newest last; while there are fewer
/// all are.
pub proof fn the_last_six_calls_are_shown(v: Seq<Finished>, x: Finished)
    ensures
        v.len() < 6 ==> recent_after(v.push(x)) == v.push(x),
        v.len() == 6 ==> recent_after(v.push(x)) == v.skip(1).push(x),
{
    if v.len() == 6 {
        assert(v.push(x).skip(1) =~= v.skip(1).push(x));
    }
}

/// The time in a phase is counted from when it was entered, and goes on where
/// the phase stays the same.
pub proof fn a_phase_is_timed_from_its_start(a: Activity, b: Activity, phase: Seq<char>, now: u64)
    requires
        in_phase(a, b, phase, now),
    ensures
        b.phase@ == phase,
        a.phase@ == phase ==> b.since == a.since,
        a.phase@ != phase ==> b.since == now,
{
}

} // verus!
