//! The one agent loop's decisions: what a turn is made of, when results are fed
//! and when they are held back, when the model is asked once more before it
//! goes idle, and what a reset ends.
//!
//! Everything that happens comes in as plain values and every decision goes out
//! as one; the waiting, the model call and the tools are the caller's.

use crate::activity;
use crate::conversation;
use crate::conversation::{Fresh, FreshView, Speaker};
use crate::figures;
use crate::json;
use crate::json::{Json, Tree};
use crate::text;
use crate::tool_out;
use crate::tool_out::{Call, Outcome, ToolOut};
use vstd::prelude::*;
use vstd::string::*;

verus! {

/// How long results with no wake wait for the rest of their batch, in ms.
pub const RESULTS_DEADLINE: u64 = 10000;

/// Result-driven turns in a row, with no new wake, before results are held back
/// until something actually wakes us. A check-in turn counts as one.
pub const MAX_FOLLOWUPS: u32 = 8;

/// Idle this long with open local tasks gets the model a nudge, in ms.
pub const LOCAL_TASK_NAG_AFTER: u64 = 150000;

/// Consecutive unanswered local-task nudges before we stop.
pub const MAX_LOCAL_TASK_NUDGES: u32 = 3;

/// Fed to the model, alone, when it is about to go idle mid-work.
pub const CHECK_IN: &'static str = "(Check-in: none of your tools are running and nothing else is coming back to you. If you said you'd do something next, call its tool now — a message saying you will doesn't do it. If you're finished, or waiting on someone, call nothing and write nothing.)";

/// What comes in from outside the loop.
#[derive(Debug)]
pub enum Inbound {
    /// Worth a turn. `kind` picks the tool set for it.
    Wake { text: String, kind: String },
    /// Start over: the conversation may name things that are no longer
    /// remembered.
    Reset(String),
}

/// A wake gathered for the next turn.
#[derive(Debug)]
pub struct Wake {
    pub text: String,
    pub kind: String,
}

/// A wake as its texts.
pub struct WakeView {
    pub text: Seq<char>,
    pub kind: Seq<char>,
}

impl View for Wake {
    type V = WakeView;

    open spec fn view(&self) -> WakeView {
        WakeView { text: self.text@, kind: self.kind@ }
    }
}

pub open spec fn wake_views(v: Seq<Wake>) -> Seq<WakeView> {
    Seq::new(v.len(), |i: int| v[i]@)
}

/// Results by their ids.
pub open spec fn result_views(v: Seq<(usize, String)>) -> Seq<(nat, Seq<char>)> {
    Seq::new(v.len(), |i: int| (v[i].0 as nat, v[i].1@))
}

pub open spec fn log_view(v: Seq<(String, String)>) -> Seq<(Seq<char>, Seq<char>)> {
    Seq::new(v.len(), |i: int| (v[i].0@, v[i].1@))
}

/// What the loop remembers.
#[derive(Debug)]
pub struct Mind {
    /// The persona and the rules.
    pub system: String,
    pub window: Option<u32>,
    pub history: Vec<(Speaker, String)>,
    /// Every query result, full text: survives compaction. Result `id` is at
    /// `id - tool_base`.
    pub tool_log: Vec<(String, String)>,
    /// The id of the first result in the log; one below it is from before a
    /// restart and no longer kept.
    pub tool_base: usize,
    /// Rows still in the conversation in full, oldest first.
    pub fresh: Vec<Fresh>,
    /// Turns taken, over this conversation's whole life.
    pub turns_fed: u64,
    pub warned_tier: u32,
    pub pending_warning: Option<String>,
    pub kinds: Vec<String>,
    pub queries: usize,
    pub records: usize,
    pub followups: u32,
    /// Results that arrived past [`MAX_FOLLOWUPS`], oldest first: fed with the
    /// next wake.
    pub held: Vec<(usize, String)>,
    /// The last turn worked on results and started nothing: ask once more
    /// before going idle.
    pub check_armed: bool,
    /// Bumped by every reset. Anything started in an older session is dropped.
    pub session: u64,
    /// Stall notices waiting for a turn.
    pub notices: Vec<String>,
    /// Said once, in the next turn.
    pub restart_note: Option<String>,
    /// Local-task nudges sent with no query started in between.
    pub local_nudges: u32,
    /// Since when nothing has been in flight.
    pub idle_since: Option<u64>,
}

/// What the loop remembers, as values.
pub struct MindView {
    pub system: Seq<char>,
    pub window: Option<u32>,
    pub history: Seq<(Speaker, Seq<char>)>,
    pub log: Seq<(Seq<char>, Seq<char>)>,
    pub base: nat,
    pub fresh: Seq<FreshView>,
    pub turns: nat,
    pub tier: u32,
    pub warning: Option<Seq<char>>,
    pub kinds: Seq<Seq<char>>,
    pub queries: nat,
    pub records: nat,
    pub followups: nat,
    pub held: Seq<(nat, Seq<char>)>,
    pub armed: bool,
    pub session: nat,
    pub notices: Seq<Seq<char>>,
    pub restart: Option<Seq<char>>,
    pub nudges: nat,
    pub idle_since: Option<u64>,
}

impl View for Mind {
    type V = MindView;

    open spec fn view(&self) -> MindView {
        MindView {
            system: self.system@,
            window: self.window,
            history: conversation::spoken(self.history@),
            log: log_view(self.tool_log@),
            base: self.tool_base as nat,
            fresh: conversation::fresh_rows(self.fresh@),
            turns: self.turns_fed as nat,
            tier: self.warned_tier,
            warning: text::text_view(self.pending_warning),
            kinds: text::texts(self.kinds@),
            queries: self.queries as nat,
            records: self.records as nat,
            followups: self.followups as nat,
            held: result_views(self.held@),
            armed: self.check_armed,
            session: self.session as nat,
            notices: text::texts(self.notices@),
            restart: text::text_view(self.restart_note),
            nudges: self.local_nudges as nat,
            idle_since: self.idle_since,
        }
    }
}

/// A mind that has just begun.
pub open spec fn newborn(system: Seq<char>, window: Option<u32>) -> MindView {
    MindView {
        system,
        window,
        history: seq![],
        log: seq![],
        base: 0,
        fresh: seq![],
        turns: 0,
        tier: 0,
        warning: None,
        kinds: seq![],
        queries: 0,
        records: 0,
        followups: 0,
        held: seq![],
        armed: false,
        session: 0,
        notices: seq![],
        restart: None,
        nudges: 0,
        idle_since: None,
    }
}

/// What a reset leaves: the next session, with nothing of the one before but
/// the results that `Inspect` can still read and what is still in flight.
pub open spec fn reset(m: MindView) -> MindView {
    MindView {
        session: m.session + 1,
        history: seq![],
        fresh: seq![],
        restart: None,
        tier: 0,
        warning: None,
        followups: 0,
        held: seq![],
        notices: seq![],
        armed: false,
        nudges: 0,
        idle_since: None,
        ..m
    }
}

/// The id the next result gets.
pub open spec fn next_of(m: MindView) -> nat {
    m.base + m.log.len()
}

/// Result `id`, if it is still kept.
pub open spec fn logged_at(m: MindView, id: nat) -> Option<(Seq<char>, Seq<char>)> {
    if m.base <= id < m.base + m.log.len() {
        Some(m.log[id - m.base])
    } else {
        None
    }
}

/// What a query's result leaves: kept in the log, and fed, if it was asked in
/// this session.
pub open spec fn heard(m: MindView, name: Seq<char>, out: Outcome, session: u64) -> (
    MindView,
    Option<(nat, Seq<char>)>,
) {
    let fewer = MindView { queries: activity::less(m.queries as int, 1) as nat, ..m };
    if session != m.session {
        (fewer, None)
    } else {
        let kept = conversation::stored(tool_out::told(out));
        (
            MindView { log: m.log.push((name, kept)), ..fewer },
            Some((next_of(m), conversation::fed(next_of(m), kept))),
        )
    }
}

/// What is done with what has been gathered.
#[derive(Debug, PartialEq, Eq, Structural, Clone, Copy)]
pub enum Next {
    /// Nothing to do yet.
    Wait,
    /// The results are held back until somebody speaks.
    Hold,
    /// A turn, with these wakes and results.
    Turn,
}

/// The decision on a batch: the state after it, what to do, and the results
/// that the turn is given.
pub open spec fn decided(m: MindView, woken: bool, results: Seq<(nat, Seq<char>)>) -> (
    MindView,
    Next,
    Seq<(nat, Seq<char>)>,
) {
    if !woken && results.len() == 0 && m.notices.len() == 0 {
        (m, Next::Wait, results)
    } else if !woken {
        if m.followups >= MAX_FOLLOWUPS {
            let quiet = MindView { notices: seq![], ..m };
            if results.len() == 0 {
                (quiet, Next::Wait, results)
            } else {
                (MindView { held: m.held + results, ..quiet }, Next::Hold, seq![])
            }
        } else {
            (MindView { followups: m.followups + 1, idle_since: None, ..m }, Next::Turn, results)
        }
    } else {
        (
            MindView { followups: 0, held: seq![], idle_since: None, ..m },
            Next::Turn,
            m.held + results,
        )
    }
}

/// The state after the question whether to ask once more, and the answer.
pub open spec fn checked(m: MindView, waiting: bool) -> (MindView, bool) {
    if m.armed && m.queries == 0 {
        if !waiting && m.followups < MAX_FOLLOWUPS {
            (
                MindView { armed: false, followups: m.followups + 1, idle_since: None, ..m },
                true,
            )
        } else {
            (MindView { armed: false, ..m }, false)
        }
    } else {
        (m, false)
    }
}

// ---------------------------------------------------------------------
// A turn
// ---------------------------------------------------------------------

/// `v` without what repeats its neighbour before it.
pub open spec fn deduped(v: Seq<Seq<char>>) -> Seq<Seq<char>>
    decreases v.len(),
{
    if v.len() == 0 {
        seq![]
    } else if v.len() == 1 {
        v
    } else if v.last() == v[v.len() - 2] {
        deduped(v.drop_last())
    } else {
        deduped(v.drop_last()).push(v.last())
    }
}

pub open spec fn wake_kinds(v: Seq<WakeView>) -> Seq<Seq<char>> {
    Seq::new(v.len(), |i: int| v[i].kind)
}

pub open spec fn wake_texts(v: Seq<WakeView>) -> Seq<Seq<char>> {
    Seq::new(v.len(), |i: int| v[i].text)
}

/// The tool and the full text of a result; nothing where it is not kept.
pub open spec fn named(m: MindView, id: nat) -> (Seq<char>, Seq<char>) {
    match logged_at(m, id) {
        Some(r) => r,
        None => (""@, ""@),
    }
}

/// A result's row in the message.
pub open spec fn result_row(m: MindView, r: (nat, Seq<char>)) -> Seq<char> {
    "[#"@ + text::dec(r.0) + " "@ + named(m, r.0).0 + "] "@ + r.1
}

pub open spec fn result_rows(m: MindView, rs: Seq<(nat, Seq<char>)>) -> Seq<Seq<char>> {
    Seq::new(rs.len(), |i: int| result_row(m, rs[i]))
}

/// The first of `v`, or nothing.
pub open spec fn first_or_empty(v: Seq<Seq<char>>) -> Seq<char> {
    if v.len() == 0 {
        ""@
    } else {
        v[0]
    }
}

/// The rows with those of `rs` that are long enough to age.
pub open spec fn with_fresh(m: MindView, rs: Seq<(nat, Seq<char>)>, turn: nat) -> Seq<FreshView>
    decreases rs.len(),
{
    if rs.len() == 0 {
        m.fresh
    } else {
        let before = with_fresh(m, rs.drop_last(), turn);
        let (name, full) = named(m, rs.last().0);
        let row = result_row(m, rs.last());
        if row.len() > conversation::AGE_MIN_CHARS {
            before.push(
                FreshView {
                    id: rs.last().0,
                    name,
                    head: conversation::headed(first_or_empty(text::lines(full))),
                    chars: full.len(),
                    turn,
                    full: row,
                },
            )
        } else {
            before
        }
    }
}

pub open spec fn maybe(o: Option<Seq<char>>) -> Seq<Seq<char>> {
    match o {
        Some(s) => seq![s],
        None => seq![],
    }
}

/// Told in the last turn before results are held back.
pub open spec fn last_turn_note() -> Seq<char> {
    "(This is your last turn without someone writing to you: "@ + text::dec(MAX_FOLLOWUPS as nat)
        + " in a row. After it, tool results are held until a message arrives, then fed with it. If you're in the middle of something, SendMessage whoever asked now: what you've done, what's still running, what's next.)"@
}

/// The parts of a turn's message.
pub open spec fn message(
    m: MindView,
    wakes: Seq<WakeView>,
    rs: Seq<(nat, Seq<char>)>,
    check: bool,
    running: Option<Seq<char>>,
    reminder: Option<Seq<char>>,
) -> Seq<Seq<char>> {
    let s0 = wake_texts(wakes);
    let s1 = if rs.len() > 0 {
        s0.push(conversation::RESULTS_HEADER@ + text::joined(result_rows(m, rs), "\n\n"@))
    } else {
        s0
    };
    let s2 = if m.notices.len() > 0 {
        s1.push(text::joined(m.notices, "\n"@))
    } else {
        s1
    };
    let s3 = s2 + maybe(m.restart) + maybe(running);
    let s4 = if check {
        s3.push(CHECK_IN@)
    } else {
        s3
    };
    let s5 = if wakes.len() > 0 {
        s4 + maybe(reminder)
    } else {
        s4
    };
    if wakes.len() == 0 && m.followups >= MAX_FOLLOWUPS {
        s5.push(last_turn_note())
    } else {
        s5
    }
}

/// What a turn is about, in a line.
pub open spec fn reason(wakes: Seq<WakeView>, results: nat, check: bool) -> Seq<char> {
    if check {
        "check-in — nothing running"@
    } else if wakes.len() == 0 && results == 0 {
        "a call went quiet"@
    } else if wakes.len() == 0 {
        text::dec(results) + " result(s) back"@
    } else {
        conversation::summarized(wakes.last().text)
    }
}

/// The state once a turn's message is in the conversation.
pub open spec fn opened(
    m: MindView,
    wakes: Seq<WakeView>,
    rs: Seq<(nat, Seq<char>)>,
    check: bool,
    running: Option<Seq<char>>,
    reminder: Option<Seq<char>>,
) -> MindView {
    let turns = m.turns + 1;
    let fresh = with_fresh(m, rs, turns);
    let prompt = text::joined(message(m, wakes, rs, check, running, reminder), "\n\n"@);
    MindView {
        kinds: if wakes.len() > 0 {
            deduped(wake_kinds(wakes))
        } else {
            m.kinds
        },
        turns,
        fresh: conversation::not_old(fresh, turns),
        history: conversation::aged(m.history, fresh, m.base, turns).push((Speaker::User, prompt)),
        notices: seq![],
        restart: None,
        warning: None,
        ..m
    }
}

/// The rules for this turn: with the budget warning, if one is due.
pub open spec fn system_now(m: MindView) -> Seq<char> {
    match m.warning {
        Some(w) => m.system + "\n\n"@ + w,
        None => m.system,
    }
}

/// A turn's message, what it is about, and the rules it goes out with.
#[derive(Debug)]
pub struct Opening {
    pub prompt: String,
    pub why: String,
    pub system: String,
}

fn dedup(v: &Vec<Wake>) -> (out: Vec<String>)
    ensures
        text::texts(out@) == deduped(wake_kinds(wake_views(v@))),
{
    let ghost all = wake_kinds(wake_views(v@));
    let mut out = text::none();
    let mut i: usize = 0;
    assert(all.take(0) =~= Seq::<Seq<char>>::empty());
    while i < v.len()
        invariant
            i <= v.len(),
            all == wake_kinds(wake_views(v@)),
            text::texts(out@) == deduped(all.take(i as int)),
        decreases v.len() - i,
    {
        let ghost part = all.take(i + 1);
        assert(part.drop_last() =~= all.take(i as int));
        assert(part.last() == v@[i as int].kind@);
        if i == 0 || !text::same(v[i].kind.as_str(), v[i - 1].kind.as_str()) {
            text::put(&mut out, v[i].kind.as_str());
            if i == 0 {
                assert(text::texts(out@) =~= part);
            } else {
                assert(part[part.len() - 2] == v@[i - 1].kind@);
            }
        } else {
            assert(part[part.len() - 2] == v@[i - 1].kind@);
        }
        i = i + 1;
    }
    assert(all.take(i as int) =~= all);
    out
}

/// Put what an option holds on the end of `v`.
fn put_maybe(v: &mut Vec<String>, o: &Option<String>)
    ensures
        text::texts(final(v)@) == text::texts(old(v)@) + maybe(text::text_view(*o)),
{
    let ghost was = text::texts(v@);
    match o {
        Some(s) => {
            text::put(v, s.as_str());
            assert(text::texts(v@) =~= was + seq![s@]);
        },
        None => {
            assert(text::texts(v@) =~= was + Seq::<Seq<char>>::empty());
        },
    }
}

impl Mind {
    /// A mind that has just begun.
    pub fn new(system: String, window: Option<u32>) -> (r: Mind)
        ensures
            r@ == newborn(system@, window),
    {
        let r = Mind {
            system,
            window,
            history: Vec::new(),
            tool_log: Vec::new(),
            tool_base: 0,
            fresh: Vec::new(),
            turns_fed: 0,
            warned_tier: 0,
            pending_warning: None,
            kinds: Vec::new(),
            queries: 0,
            records: 0,
            followups: 0,
            held: Vec::new(),
            check_armed: false,
            session: 0,
            notices: Vec::new(),
            restart_note: None,
            local_nudges: 0,
            idle_since: None,
        };
        assert(r@.history =~= newborn(system@, window).history);
        assert(r@.log =~= newborn(system@, window).log);
        assert(r@.fresh =~= newborn(system@, window).fresh);
        assert(r@.kinds =~= newborn(system@, window).kinds);
        assert(r@.held =~= newborn(system@, window).held);
        assert(r@.notices =~= newborn(system@, window).notices);
        r
    }

    /// One inbound item into the batch being assembled. A reset empties the
    /// batch too: wakes and results gathered ahead of it belong to the session
    /// it just ended.
    pub fn take(
        &mut self,
        i: Inbound,
        wakes: &mut Vec<Wake>,
        results: &mut Vec<(usize, String)>,
    )
        requires
            old(self).session < u64::MAX,
        ensures
            match i {
                Inbound::Wake { text, kind } => {
                    &&& final(self)@ == old(self)@
                    &&& wake_views(final(wakes)@) == wake_views(old(wakes)@).push(
                        WakeView { text: text@, kind: kind@ },
                    )
                    &&& result_views(final(results)@) == result_views(old(results)@)
                },
                Inbound::Reset(_) => {
                    &&& final(self)@ == reset(old(self)@)
                    &&& final(wakes)@.len() == 0
                    &&& final(results)@.len() == 0
                },
            },
    {
        match i {
            Inbound::Wake { text, kind } => {
                let w = Wake { text, kind };
                assert(wake_views(wakes@.push(w)) =~= wake_views(wakes@).push(w@));
                wakes.push(w);
            },
            Inbound::Reset(_) => {
                let ghost want = reset(self@);
                self.session = self.session + 1;
                self.history = Vec::new();
                self.fresh = Vec::new();
                self.restart_note = None;
                self.warned_tier = 0;
                self.pending_warning = None;
                self.followups = 0;
                self.held = Vec::new();
                self.notices = Vec::new();
                self.check_armed = false;
                self.local_nudges = 0;
                self.idle_since = None;
                wakes.clear();
                results.clear();
                assert(self@.history =~= want.history);
                assert(self@.fresh =~= want.fresh);
                assert(self@.held =~= want.held);
                assert(self@.notices =~= want.notices);
            },
        }
    }

    /// A record finished.
    pub fn record_back(&mut self)
        ensures
            final(self)@ == (MindView {
                records: activity::less(old(self)@.records as int, 1) as nat,
                ..old(self)@
            }),
    {
        self.records = self.records.saturating_sub(1);
    }

    /// A query's result: kept, and queued for the next turn by id, unless it
    /// was asked in a session that is over. `true` if it was queued.
    pub fn back(
        &mut self,
        name: &str,
        out: &ToolOut,
        session: u64,
        results: &mut Vec<(usize, String)>,
    ) -> (queued: bool)
        requires
            old(self).tool_base + old(self).tool_log.len() <= usize::MAX,
        ensures
            ({
                let (after, fed) = heard(old(self)@, name@, out@, session);
                &&& final(self)@ == after
                &&& queued == (fed is Some)
                &&& result_views(final(results)@) == (match fed {
                    Some(r) => result_views(old(results)@).push(r),
                    None => result_views(old(results)@),
                })
            }),
    {
        self.queries = self.queries.saturating_sub(1);
        if session != self.session {
            return false;
        }
        let ghost log = self@.log;
        let id: usize = self.tool_base + self.tool_log.len();
        let kept = conversation::keep(out.text().as_str());
        let fed = conversation::feed(id, kept.as_str());
        let one = (name.to_owned(), kept);
        let ghost pair = (one.0@, one.1@);
        self.tool_log.push(one);
        assert(log_view(self.tool_log@) =~= log.push(pair));
        let r = (id, fed);
        assert(result_views(results@.push(r)) =~= result_views(results@).push(
            (id as nat, fed@),
        ));
        results.push(r);
        true
    }

    /// The id the next result gets.
    pub fn next_id(&self) -> (r: usize)
        requires
            self.tool_base + self.tool_log.len() <= usize::MAX,
        ensures
            r == next_of(self@),
    {
        self.tool_base + self.tool_log.len()
    }

    /// Where result `id` is in the log, if it is still kept.
    fn logged(&self, id: usize) -> (r: Option<usize>)
        ensures
            match r {
                Some(i) => i < self.tool_log.len() && id == self.tool_base + i && logged_at(
                    self@,
                    id as nat,
                ) == Some((self.tool_log@[i as int].0@, self.tool_log@[i as int].1@)),
                None => logged_at(self@, id as nat) is None,
            },
    {
        if id < self.tool_base {
            return None;
        }
        let i: usize = id - self.tool_base;
        if i < self.tool_log.len() {
            assert(log_view(self.tool_log@)[i as int] == (
                self.tool_log@[i as int].0@,
                self.tool_log@[i as int].1@,
            ));
            Some(i)
        } else {
            None
        }
    }

    /// About to idle mid-work: whether to ask once more first. `waiting` is
    /// whether something has come in already, which then gets the turn instead.
    pub fn check_in(&mut self, waiting: bool) -> (r: bool)
        ensures
            (final(self)@, r) == checked(old(self)@, waiting),
    {
        if self.check_armed && self.queries == 0 {
            self.check_armed = false;
            if !waiting && self.followups < MAX_FOLLOWUPS {
                self.followups = self.followups + 1;
                self.idle_since = None;
                return true;
            }
        }
        false
    }

    /// Whether results that came without a wake wait for the rest of their
    /// batch.
    pub fn waits_for_more(&self, wakes: usize, results: usize) -> (r: bool)
        ensures
            r == (wakes == 0 && results > 0 && self@.queries > 0),
    {
        wakes == 0 && results > 0 && self.queries > 0
    }

    /// What is done with what has been gathered.
    pub fn decide(&mut self, woken: bool, results: &mut Vec<(usize, String)>) -> (r: Next)
        ensures
            (final(self)@, r, result_views(final(results)@)) == decided(
                old(self)@,
                woken,
                result_views(old(results)@),
            ),
    {
        let ghost m = self@;
        let ghost rs = result_views(results@);
        if !woken && results.len() == 0 && self.notices.len() == 0 {
            return Next::Wait;
        }
        if !woken {
            if self.followups >= MAX_FOLLOWUPS {
                self.notices = Vec::new();
                assert(self@.notices =~= Seq::<Seq<char>>::empty());
                if results.len() == 0 {
                    return Next::Wait;
                }
                self.held.append(results);
                assert(result_views(self.held@) =~= m.held + rs);
                assert(result_views(results@) =~= Seq::<(nat, Seq<char>)>::empty());
                return Next::Hold;
            }
            self.followups = self.followups + 1;
            self.idle_since = None;
            return Next::Turn;
        }
        self.followups = 0;
        self.idle_since = None;
        self.held.append(results);
        assert(result_views(self.held@) =~= m.held + rs);
        std::mem::swap(&mut self.held, results);
        assert(result_views(self.held@) =~= Seq::<(nat, Seq<char>)>::empty());
        Next::Turn
    }

    /// Nothing is in flight and nothing is queued.
    pub fn went_idle(&mut self, now: u64)
        ensures
            final(self)@ == (MindView { idle_since: Some(now), ..old(self)@ }),
    {
        self.idle_since = Some(now);
    }

    /// The rows of a turn's results, and those that will age.
    fn feed_rows(&mut self, results: &Vec<(usize, String)>) -> (rows: Vec<String>)
        ensures
            text::texts(rows@) == result_rows(old(self)@, result_views(results@)),
            final(self)@ == (MindView {
                fresh: with_fresh(old(self)@, result_views(results@), old(self)@.turns),
                ..old(self)@
            }),
            final(self).turns_fed == old(self).turns_fed,
    {
        let ghost m = self@;
        let ghost rs = result_views(results@);
        let mut rows = text::none();
        let mut i: usize = 0;
        assert(rs.take(0) =~= Seq::<(nat, Seq<char>)>::empty());
        assert(result_rows(m, rs.take(0)) =~= Seq::<Seq<char>>::empty());
        while i < results.len()
            invariant
                i <= results.len(),
                rs == result_views(results@),
                text::texts(rows@) == result_rows(m, rs.take(i as int)),
                self@ == (MindView { fresh: with_fresh(m, rs.take(i as int), m.turns), ..m }),
                self.turns_fed == old(self).turns_fed,
                m == old(self)@,
            decreases results.len() - i,
        {
            let ghost r = rs[i as int];
            assert(rs.take(i + 1).drop_last() =~= rs.take(i as int));
            assert(rs.take(i + 1).last() == r);
            let id: usize = results[i].0;
            let (name, full): (String, String) = match self.logged(id) {
                Some(k) => (self.tool_log[k].0.clone(), self.tool_log[k].1.clone()),
                None => ("".to_owned(), "".to_owned()),
            };
            assert((name@, full@) == named(m, r.0));
            let row = String::from_str("[#").concat(text::number(id as u64).as_str()).concat(
                " ",
            ).concat(name.as_str()).concat("] ").concat(results[i].1.as_str());
            assert(row@ == result_row(m, r));
            if row.as_str().unicode_len() > conversation::AGE_MIN_CHARS {
                let lines = text::lines_of(full.as_str());
                let first = if lines.len() == 0 {
                    "".to_owned()
                } else {
                    lines[0].clone()
                };
                assert(first@ == first_or_empty(text::lines(full@)));
                let f = Fresh {
                    id,
                    name,
                    head: conversation::head_of(first.as_str()),
                    chars: full.as_str().unicode_len(),
                    turn: self.turns_fed,
                    full: row.clone(),
                };
                let ghost was = self@.fresh;
                let ghost fv = f@;
                self.fresh.push(f);
                assert(conversation::fresh_rows(self.fresh@) =~= was.push(fv));
            }
            text::put(&mut rows, row.as_str());
            assert(result_rows(m, rs.take(i + 1)) =~= result_rows(m, rs.take(i as int)).push(
                row@,
            ));
            i = i + 1;
        }
        assert(rs.take(i as int) =~= rs);
        rows
    }

    /// Put together one turn's message and write it into the conversation.
    /// `running` is what is still out, `reminder` the open local tasks.
    pub fn open_turn(
        &mut self,
        wakes: &Vec<Wake>,
        results: &Vec<(usize, String)>,
        check: bool,
        running: Option<String>,
        reminder: Option<String>,
    ) -> (o: Opening)
        requires
            old(self).turns_fed < u64::MAX,
        ensures
            ({
                let w = wake_views(wakes@);
                let rs = result_views(results@);
                let run = text::text_view(running);
                let rem = text::text_view(reminder);
                &&& final(self)@ == opened(old(self)@, w, rs, check, run, rem)
                &&& o.prompt@ == text::joined(
                    message(old(self)@, w, rs, check, run, rem),
                    "\n\n"@,
                )
                &&& o.why@ == reason(w, rs.len(), check)
                &&& o.system@ == system_now(old(self)@)
            }),
    {
        let ghost m = self@;
        let ghost w = wake_views(wakes@);
        let ghost rs = result_views(results@);
        if wakes.len() > 0 {
            self.kinds = dedup(wakes);
        }
        self.turns_fed = self.turns_fed + 1;
        let ghost m1 = self@;
        let mut msg = text::none();
        let mut i: usize = 0;
        while i < wakes.len()
            invariant
                i <= wakes.len(),
                w == wake_views(wakes@),
                text::texts(msg@) == wake_texts(w).take(i as int),
            decreases wakes.len() - i,
        {
            text::put(&mut msg, wakes[i].text.as_str());
            assert(wake_texts(w).take(i + 1) =~= wake_texts(w).take(i as int).push(
                wakes@[i as int].text@,
            ));
            i = i + 1;
        }
        assert(wake_texts(w).take(i as int) =~= wake_texts(w));
        let rows = self.feed_rows(results);
        proof {
            assert forall|r: (nat, Seq<char>)| result_row(m1, r) == result_row(m, r) by {}
            assert(result_rows(m1, rs) =~= result_rows(m, rs));
            lemma_with_fresh_same(m, m1, rs, m1.turns);
        }
        if results.len() > 0 {
            let block = conversation::RESULTS_HEADER.to_owned().concat(
                text::join(&rows, "\n\n").as_str(),
            );
            text::put(&mut msg, block.as_str());
        }
        if self.notices.len() > 0 {
            let told = text::join(&self.notices, "\n");
            text::put(&mut msg, told.as_str());
        }
        self.notices = Vec::new();
        assert(self@.notices =~= Seq::<Seq<char>>::empty());
        put_maybe(&mut msg, &self.restart_note);
        self.restart_note = None;
        put_maybe(&mut msg, &running);
        if check {
            text::put(&mut msg, CHECK_IN);
        }
        if wakes.len() > 0 {
            put_maybe(&mut msg, &reminder);
        }
        if wakes.len() == 0 && self.followups >= MAX_FOLLOWUPS {
            let note = String::from_str(
                "(This is your last turn without someone writing to you: ",
            ).concat(text::number(MAX_FOLLOWUPS as u64).as_str()).concat(
                " in a row. After it, tool results are held until a message arrives, then fed with it. If you're in the middle of something, SendMessage whoever asked now: what you've done, what's still running, what's next.)",
            );
            text::put(&mut msg, note.as_str());
        }
        let why = if check {
            "check-in — nothing running".to_owned()
        } else if wakes.len() == 0 && results.len() == 0 {
            "a call went quiet".to_owned()
        } else if wakes.len() == 0 {
            text::number(results.len() as u64).concat(" result(s) back")
        } else {
            conversation::summary(wakes[wakes.len() - 1].text.as_str())
        };
        let prompt = text::join(&msg, "\n\n");
        let left = conversation::age(
            &mut self.history,
            &self.fresh,
            self.tool_base,
            self.turns_fed,
        );
        self.fresh = left;
        let ghost before = self@.history;
        let line = (Speaker::User, prompt.clone());
        self.history.push(line);
        assert(conversation::spoken(self.history@) =~= before.push((Speaker::User, prompt@)));
        let system = match &self.pending_warning {
            Some(x) => self.system.clone().concat("\n\n").concat(x.as_str()),
            None => self.system.clone(),
        };
        self.pending_warning = None;
        Opening { prompt, why, system }
    }

    /// The last message comes out of the conversation again: a failed turn, or a
    /// check-in answered with nothing, never happened as far as history goes.
    pub fn take_back(&mut self)
        ensures
            final(self)@ == (MindView {
                history: if old(self)@.history.len() > 0 {
                    old(self)@.history.drop_last()
                } else {
                    old(self)@.history
                },
                ..old(self)@
            }),
    {
        let ghost was = self@.history;
        let _ = self.history.pop();
        assert(self@.history =~= if was.len() > 0 {
            was.drop_last()
        } else {
            was
        });
    }

    /// What the model said itself goes into the conversation, if it said
    /// anything.
    pub fn said(&mut self, text: &str)
        ensures
            final(self)@ == (MindView {
                history: if text::trimmed(text@).len() == 0 {
                    old(self)@.history
                } else {
                    old(self)@.history.push((Speaker::Assistant, text::trimmed(text@)))
                },
                ..old(self)@
            }),
    {
        let own = text::trim(text);
        if !own.as_str().is_empty() {
            let ghost was = self@.history;
            let ghost s = own@;
            self.history.push((Speaker::Assistant, own));
            assert(self@.history =~= was.push((Speaker::Assistant, s)));
        }
    }

    /// The conversation is replaced by a summary; the tool log stays.
    pub fn compact(&mut self, summary: String)
        ensures
            final(self)@ == (MindView {
                history: seq![(Speaker::Assistant, summary@)],
                fresh: seq![],
                tier: 0,
                ..old(self)@
            }),
    {
        let ghost s = summary@;
        self.history = Vec::new();
        self.history.push((Speaker::Assistant, summary));
        self.fresh = Vec::new();
        self.warned_tier = 0;
        assert(self@.history =~= seq![(Speaker::Assistant, s)]);
        assert(self@.fresh =~= Seq::<FreshView>::empty());
    }

    /// A query was started.
    pub fn query_started(&mut self)
        requires
            old(self).queries < usize::MAX,
        ensures
            final(self)@ == (MindView { queries: old(self)@.queries + 1, ..old(self)@ }),
    {
        self.queries = self.queries + 1;
    }

    /// A record was started.
    pub fn record_started(&mut self)
        requires
            old(self).records < usize::MAX,
        ensures
            final(self)@ == (MindView { records: old(self)@.records + 1, ..old(self)@ }),
    {
        self.records = self.records + 1;
    }

    /// A turn's calls are all out. It worked on results, then only wrote things:
    /// the shape of "I'll do X next" with no X started, so the model is asked
    /// once more before it goes idle. A check-in never arms another.
    pub fn close_turn(
        &mut self,
        check: bool,
        had_results: bool,
        called: bool,
        queries_before: usize,
        unattended: bool,
    )
        ensures
            final(self)@ == closed(
                old(self)@,
                check,
                had_results,
                called,
                queries_before as nat,
                unattended,
            ),
    {
        let started_nothing = self.queries == queries_before;
        if !started_nothing {
            self.local_nudges = 0;
        }
        self.check_armed = !check && had_results && called && started_nothing && unattended;
    }

    /// The next budget tier was reached: warned of in the next turn.
    pub fn warn(&mut self, tier: u32, pct: u32, force_at: u32)
        ensures
            final(self)@ == (MindView {
                tier,
                warning: Some(budget_warning(pct, force_at)),
                ..old(self)@
            }),
    {
        self.warned_tier = tier;
        self.pending_warning = Some(
            String::from_str("⚠ context budget: ").concat(text::number(pct as u64).as_str()).concat(
                "% of your window used. Consider calling Compact soon (past tool results survive it) — this session force-compacts at ",
            ).concat(text::number(force_at as u64).as_str()).concat("%."),
        );
    }

    /// Idle with open local tasks for longer than `after`: a wake reminding the
    /// model to get on with it, at most [`MAX_LOCAL_TASK_NUDGES`] times without
    /// a query started in between.
    pub fn maybe_nag(
        &mut self,
        now: u64,
        after: u64,
        unattended: bool,
        reminder: Option<String>,
    ) -> (r: Option<Wake>)
        ensures
            ({
                let due = nag_due(old(self)@, now, after, unattended, reminder is Some);
                &&& r is Some == due
                &&& !due ==> final(self)@ == old(self)@
                &&& due ==> final(self)@ == (MindView {
                    nudges: old(self)@.nudges + 1,
                    idle_since: Some(now),
                    ..old(self)@
                })
                &&& due ==> r->0@ == (WakeView {
                    text: nag_text(
                        activity::less(now as int, old(self)@.idle_since->0 as int) as nat,
                        reminder->0@,
                        old(self)@.nudges + 1 >= MAX_LOCAL_TASK_NUDGES,
                    ),
                    kind: if old(self)@.kinds.len() > 0 {
                        old(self)@.kinds.last()
                    } else {
                        "said"@
                    },
                })
            }),
    {
        if self.queries != 0 || self.records != 0 || !unattended {
            return None;
        }
        if self.local_nudges >= MAX_LOCAL_TASK_NUDGES {
            return None;
        }
        let since: u64 = match self.idle_since {
            Some(t) => t,
            None => {
                return None;
            },
        };
        let idle: u64 = now.saturating_sub(since);
        if idle < after {
            return None;
        }
        let open = match reminder {
            Some(s) => s,
            None => {
                return None;
            },
        };
        self.local_nudges = self.local_nudges + 1;
        let tail = if self.local_nudges >= MAX_LOCAL_TASK_NUDGES {
            " This is the last reminder on these — if you're stuck or waiting on someone, say so; nothing more will nudge you about them."
        } else {
            ""
        };
        let text = String::from_str("(Idle ").concat(figures::human(idle / 1000).as_str()).concat(
            " with open local tasks.",
        ).concat(tail).concat("\n").concat(open.as_str()).concat(
            "\nDo the next step now, or call LocalTask to update the list.)",
        );
        let kind = if self.kinds.len() > 0 {
            let k = self.kinds[self.kinds.len() - 1].clone();
            assert(k@ == text::texts(self.kinds@).last());
            k
        } else {
            "said".to_owned()
        };
        self.idle_since = Some(now);
        Some(Wake { text, kind })
    }
}

/// The state once a turn's calls are all out.
pub open spec fn closed(
    m: MindView,
    check: bool,
    had_results: bool,
    called: bool,
    queries_before: nat,
    unattended: bool,
) -> MindView {
    let started_nothing = m.queries == queries_before;
    MindView {
        nudges: if started_nothing {
            m.nudges
        } else {
            0
        },
        armed: !check && had_results && called && started_nothing && unattended,
        ..m
    }
}

pub open spec fn budget_warning(pct: u32, force_at: u32) -> Seq<char> {
    "⚠ context budget: "@ + text::dec(pct as nat)
        + "% of your window used. Consider calling Compact soon (past tool results survive it) — this session force-compacts at "@
        + text::dec(force_at as nat) + "%."@
}

/// A nudge on the open local tasks is due.
pub open spec fn nag_due(
    m: MindView,
    now: u64,
    after: u64,
    unattended: bool,
    open: bool,
) -> bool {
    &&& m.queries == 0
    &&& m.records == 0
    &&& unattended
    &&& m.nudges < MAX_LOCAL_TASK_NUDGES
    &&& m.idle_since is Some
    &&& activity::less(now as int, m.idle_since->0 as int) >= after
    &&& open
}

pub open spec fn nag_text(idle_ms: nat, reminder: Seq<char>, last: bool) -> Seq<char> {
    "(Idle "@ + figures::human_text(idle_ms / 1000) + " with open local tasks."@ + (if last {
        " This is the last reminder on these — if you're stuck or waiting on someone, say so; nothing more will nudge you about them."@
    } else {
        ""@
    }) + "\n"@ + reminder + "\nDo the next step now, or call LocalTask to update the list.)"@
}

proof fn lemma_with_fresh_same(a: MindView, b: MindView, rs: Seq<(nat, Seq<char>)>, turn: nat)
    requires
        a.fresh == b.fresh,
        a.log == b.log,
        a.base == b.base,
    ensures
        with_fresh(a, rs, turn) == with_fresh(b, rs, turn),
    decreases rs.len(),
{
    if rs.len() > 0 {
        lemma_with_fresh_same(a, b, rs.drop_last(), turn);
    }
}

// ---------------------------------------------------------------------
// The tools the loop answers itself
// ---------------------------------------------------------------------

/// What `TokenBudget` answers.
pub open spec fn budget_answer(m: MindView, total: u32) -> Outcome {
    let usage = match (conversation::percent(total, m.window), m.window) {
        (Some(p), Some(w)) => text::dec(total as nat) + "/"@ + text::dec(w as nat) + " tokens ("@
            + text::dec(p as nat) + "%) used last turn"@,
        _ => text::dec(total as nat)
            + " tokens used last turn (context window unknown for this model)"@,
    };
    tool_out::with_body(
        tool_out::bare(""@, true),
        usage + ". "@ + text::dec(m.log.len())
            + " tool result(s) stored — BrowseTools to list them."@,
    )
}

/// How much of a result's first line a listing shows.
pub const BROWSE_CHARS: usize = 60;

pub open spec fn cut_to(s: Seq<char>, n: nat) -> Seq<char> {
    if s.len() > n {
        s.take(n as int)
    } else {
        s
    }
}

pub open spec fn browse_row(m: MindView, i: int) -> Seq<char> {
    text::dec((m.base + i) as nat) + ": "@ + m.log[i].0 + " — "@ + cut_to(
        first_or_empty(text::lines(m.log[i].1)),
        BROWSE_CHARS as nat,
    )
}

pub open spec fn browse_rows(m: MindView) -> Seq<Seq<char>> {
    Seq::new(m.log.len(), |i: int| browse_row(m, i))
}

/// What `BrowseTools` answers.
pub open spec fn browse_answer(m: MindView) -> Outcome {
    if m.log.len() == 0 {
        tool_out::with_body(tool_out::bare(""@, true), "No tool results stored yet."@)
    } else {
        tool_out::with_body(
            tool_out::with_meta(tool_out::bare(""@, true), text::dec(m.log.len()) + " stored"@),
            text::joined(browse_rows(m), "\n"@),
        )
    }
}

/// What `Inspect` answers.
/// A page of result `i`, which `name` gave.
pub open spec fn page_answer(i: nat, name: Seq<char>, facts: Seq<char>, page: Seq<char>) -> Outcome {
    tool_out::with_body(
        tool_out::with_meta(tool_out::bare("#"@ + text::dec(i) + " "@ + name, true), facts),
        page,
    )
}

/// As much of a tool's name as there is room for above a page that is to be fed
/// uncut.
pub open spec fn name_shown(i: nat, name: Seq<char>, facts: Seq<char>, page: Seq<char>) -> Seq<char> {
    let taken = tool_out::told(page_answer(i, ""@, facts, page)).len();
    activity::clipped(
        name,
        activity::less(conversation::FEED_CHARS as int, taken as int) as nat,
    )
}

pub open spec fn inspect_answer(m: MindView, id: Option<u64>, offset: Option<u64>) -> Outcome {
    let at = match offset {
        Some(o) => o as usize as nat,
        None => 0,
    };
    match id {
        None => tool_out::with_meta(
            tool_out::bare("None"@, false),
            "no such id (#"@ + text::dec(m.base) + "–#"@ + text::dec(
                activity::less(next_of(m) as int, 1) as nat,
            ) + " stored)"@,
        ),
        Some(wide) => {
            let i = wide as usize as nat;
            if i < m.base {
                tool_out::with_meta(
                    tool_out::bare("#"@ + text::dec(i), false),
                    "from before a restart — not kept; run it again if you need it"@,
                )
            } else {
                match logged_at(m, i) {
                    Some((name, out)) => {
                        let total = out.len();
                        let from = if at > total {
                            total
                        } else {
                            at
                        };
                        let to = from + conversation::page(out, at).len();
                        let page = if to < total {
                            conversation::page(out, at) + "\n… [Inspect {\"id\": "@ + text::dec(i)
                                + ", \"offset\": "@ + text::dec(to) + "} for the next part]"@
                        } else {
                            conversation::page(out, at)
                        };
                        let facts = "chars "@ + text::dec(from) + "–"@ + text::dec(to) + " of "@
                            + text::dec(total);
                        page_answer(i, name_shown(i, name, facts, page), facts, page)
                    },
                    None => tool_out::with_meta(
                        tool_out::bare("Some("@ + text::dec(i) + ")"@, false),
                        "no such id (#"@ + text::dec(m.base) + "–#"@ + text::dec(
                            activity::less(next_of(m) as int, 1) as nat,
                        ) + " stored)"@,
                    ),
                }
            }
        },
    }
}

impl Mind {
    /// `TokenBudget`: how much of the context the last turn used.
    pub fn token_budget(&self, total_tokens: u32) -> (r: ToolOut)
        ensures
            r@ == budget_answer(self@, total_tokens),
    {
        let total = text::number(total_tokens as u64);
        let usage = match (conversation::pct_used(total_tokens, self.window), self.window) {
            (Some(p), Some(w)) => total.concat("/").concat(
                text::number(w as u64).as_str(),
            ).concat(" tokens (").concat(text::number(p as u64).as_str()).concat(
                "%) used last turn",
            ),
            _ => total.concat(" tokens used last turn (context window unknown for this model)"),
        };
        ToolOut::new("", true).body(
            usage.concat(". ").concat(text::number(self.tool_log.len() as u64).as_str()).concat(
                " tool result(s) stored — BrowseTools to list them.",
            ).as_str(),
        )
    }

    /// `BrowseTools`: the past results, by id.
    pub fn browse_tools(&self) -> (r: ToolOut)
        requires
            self.tool_base + self.tool_log.len() <= usize::MAX,
        ensures
            r@ == browse_answer(self@),
    {
        if self.tool_log.len() == 0 {
            return ToolOut::new("", true).body("No tool results stored yet.");
        }
        let ghost m = self@;
        let mut rows = text::none();
        let mut i: usize = 0;
        assert(browse_rows(m).take(0) =~= Seq::<Seq<char>>::empty());
        while i < self.tool_log.len()
            invariant
                i <= self.tool_log.len(),
                self.tool_base + self.tool_log.len() <= usize::MAX,
                m == self@,
                text::texts(rows@) == browse_rows(m).take(i as int),
            decreases self.tool_log.len() - i,
        {
            assert(m.log[i as int] == (
                self.tool_log@[i as int].0@,
                self.tool_log@[i as int].1@,
            ));
            let lines = text::lines_of(self.tool_log[i].1.as_str());
            let first = if lines.len() == 0 {
                "".to_owned()
            } else {
                lines[0].clone()
            };
            assert(first@ == first_or_empty(text::lines(m.log[i as int].1)));
            let v = text::chars_of(first.as_str());
            let cut = if v.len() > BROWSE_CHARS {
                let c = text::slice_text(&v, 0, BROWSE_CHARS);
                assert(c@ =~= first@.take(BROWSE_CHARS as int));
                c
            } else {
                first
            };
            let row = text::number((self.tool_base + i) as u64).concat(": ").concat(
                self.tool_log[i].0.as_str(),
            ).concat(" — ").concat(cut.as_str());
            text::put(&mut rows, row.as_str());
            assert(browse_rows(m).take(i + 1) =~= browse_rows(m).take(i as int).push(row@));
            i = i + 1;
        }
        assert(browse_rows(m).take(i as int) =~= browse_rows(m));
        ToolOut::new("", true).meta(
            text::number(self.tool_log.len() as u64).concat(" stored").as_str(),
        ).body(text::join(&rows, "\n").as_str())
    }

    fn stored_range(&self) -> (r: String)
        requires
            self.tool_base + self.tool_log.len() <= usize::MAX,
        ensures
            r@ == "no such id (#"@ + text::dec(self@.base) + "–#"@ + text::dec(
                activity::less(next_of(self@) as int, 1) as nat,
            ) + " stored)"@,
    {
        let last: usize = self.next_id().saturating_sub(1);
        String::from_str("no such id (#").concat(
            text::number(self.tool_base as u64).as_str(),
        ).concat("–#").concat(text::number(last as u64).as_str()).concat(" stored)")
    }

    /// `Inspect`: a past result by id, a page of it from `offset`.
    pub fn inspect(&self, id: Option<u64>, offset: Option<u64>) -> (r: ToolOut)
        requires
            self.tool_base + self.tool_log.len() <= usize::MAX,
        ensures
            r@ == inspect_answer(self@, id, offset),
    {
        let at: usize = match offset {
            Some(o) => o as usize,
            None => 0,
        };
        let wide: u64 = match id {
            None => {
                return ToolOut::new("None", false).meta(self.stored_range().as_str());
            },
            Some(w) => w,
        };
        let i: usize = wide as usize;
        let name = text::number(i as u64);
        if i < self.tool_base {
            return ToolOut::new(String::from_str("#").concat(name.as_str()).as_str(), false).meta(
                "from before a restart — not kept; run it again if you need it",
            );
        }
        match self.logged(i) {
            None => {
                let shown = String::from_str("Some(").concat(name.as_str()).concat(")");
                ToolOut::new(shown.as_str(), false).meta(self.stored_range().as_str())
            },
            Some(k) => {
                let out = text::chars_of(self.tool_log[k].1.as_str());
                let total: usize = out.len();
                let from: usize = if at > total {
                    total
                } else {
                    at
                };
                let to: usize = if total - from < conversation::INSPECT_CHARS {
                    total
                } else {
                    from + conversation::INSPECT_CHARS
                };
                let mut page = text::slice_text(&out, from, to);
                assert(page@ =~= conversation::page(out@, at as nat));
                if to < total {
                    page.append("\n… [Inspect {\"id\": ");
                    page.append(name.as_str());
                    page.append(", \"offset\": ");
                    page.append(text::number(to as u64).as_str());
                    page.append("} for the next part]");
                }
                let meta = String::from_str("chars ").concat(
                    text::number(from as u64).as_str(),
                ).concat("–").concat(text::number(to as u64).as_str()).concat(" of ").concat(
                    text::number(total as u64).as_str(),
                );
                let head = String::from_str("#").concat(name.as_str()).concat(" ");
                let frame = ToolOut::new(head.as_str(), true).meta(meta.as_str()).body(
                    page.as_str(),
                );
                assert(head@ + ""@ =~= head@) by {
                    reveal_strlit("");
                }
                let room: usize = conversation::FEED_CHARS.saturating_sub(
                    frame.text().as_str().unicode_len(),
                );
                let shown = head.concat(
                    activity::clip_to(self.tool_log[k].0.as_str(), room).as_str(),
                );
                ToolOut::new(shown.as_str(), true).meta(meta.as_str()).body(page.as_str())
            },
        }
    }
}

/// What `AboutMe` answers.
pub open spec fn about_answer(
    name: Seq<char>,
    extra: Seq<char>,
    model: Seq<char>,
    os: Seq<char>,
    arch: Seq<char>,
    version: Seq<char>,
    persona: Seq<char>,
) -> Outcome {
    tool_out::with_body(
        tool_out::bare(""@, true),
        "Name: "@ + name + "\n"@ + (if extra.len() == 0 {
            ""@
        } else {
            extra + "\n"@
        }) + "Model: "@ + model + "\nPlatform: "@ + os + " "@ + arch + "\nBuild: kot "@ + version
            + "\nPersona:\n"@ + persona,
    )
}

/// `AboutMe`: who the model is and what it runs on.
pub fn about_me(
    name: &str,
    extra: &str,
    model: &str,
    os: &str,
    arch: &str,
    version: &str,
    persona: &str,
) -> (r: ToolOut)
    ensures
        r@ == about_answer(name@, extra@, model@, os@, arch@, version@, persona@),
{
    let more = if extra.is_empty() {
        "".to_owned()
    } else {
        extra.to_owned().concat("\n")
    };
    ToolOut::new("", true).body(
        String::from_str("Name: ").concat(name).concat("\n").concat(more.as_str()).concat(
            "Model: ",
        ).concat(model).concat("\nPlatform: ").concat(os).concat(" ").concat(arch).concat(
            "\nBuild: kot ",
        ).concat(version).concat("\nPersona:\n").concat(persona).as_str(),
    )
}

/// The texts that hold anything.
pub open spec fn filled(v: Seq<Seq<char>>) -> Seq<Seq<char>>
    decreases v.len(),
{
    if v.len() == 0 {
        seq![]
    } else if v.last().len() > 0 {
        filled(v.drop_last()).push(v.last())
    } else {
        filled(v.drop_last())
    }
}

/// A call's gist: the command, the path, the recipient and message; whatever
/// says what it is doing.
pub open spec fn gist_of(name: Seq<char>, a: Json) -> Seq<char> {
    if name == "Bash"@ {
        "$ "@ + json::words_at(a, "command"@)
    } else if name == "ReadFile"@ || name == "WriteFile"@ || name == "LS"@ {
        json::words_at(a, "path"@)
    } else if name == "Edit"@ || name == "MultiEdit"@ {
        json::words_at(a, "file_path"@)
    } else if name == "Grep"@ || name == "Glob"@ {
        json::words_at(a, "pattern"@) + " in "@ + (if json::words_at(a, "path"@).len() == 0 {
            "."@
        } else {
            json::words_at(a, "path"@)
        })
    } else if name == "SendMessage"@ {
        "→ "@ + (if json::words_at(a, "to"@).len() == 0 {
            "litter"@
        } else {
            text::without_leading(json::words_at(a, "to"@), '@')
        }) + "  "@ + json::words_at(a, "body"@)
    } else if name == "TaskUpdate"@ {
        json::words_at(a, "task"@) + " "@ + json::words_at(a, "status"@) + "  "@ + json::words_at(
            a,
            "text"@,
        )
    } else if name == "TaskPlan"@ || name == "TaskReassign"@ {
        json::words_at(a, "task"@) + " "@ + json::words_at(a, "to"@)
    } else if name == "ArtifactRead"@ || name == "Inspect"@ || name == "Running"@ || name
        == "Cancel"@ {
        json::words_at(a, "id"@)
    } else if name == "LocalTask"@ {
        text::joined(
            filled(
                seq![
                    json::words_at(a, "action"@),
                    json::words_at(a, "id"@),
                    json::words_at(a, "text"@),
                ],
            ),
            " "@,
        )
    } else if name == "Artifact"@ {
        json::words_at(a, "text"@)
    } else {
        match a {
            Json::Null => ""@,
            Json::Object(m) => if m@.len() == 0 {
                ""@
            } else {
                json::printed(a)
            },
            _ => json::printed(a),
        }
    }
}

fn any_of(name: &str, a: &str, b: &str) -> (r: bool)
    ensures
        r == (name@ == a@ || name@ == b@),
{
    text::same(name, a) || text::same(name, b)
}

/// A call's gist, one line, for the running list and the log.
pub fn gist(c: &Call) -> (r: String)
    ensures
        r@ == gist_of(c.name@, c.args),
{
    let name = c.name.as_str();
    if text::same(name, "Bash") {
        return String::from_str("$ ").concat(c.str("command").as_str());
    }
    if any_of(name, "ReadFile", "WriteFile") || text::same(name, "LS") {
        return c.str("path");
    }
    if any_of(name, "Edit", "MultiEdit") {
        return c.str("file_path");
    }
    if any_of(name, "Grep", "Glob") {
        let path = c.str("path");
        let shown = if path.as_str().is_empty() {
            ".".to_owned()
        } else {
            path
        };
        return c.str("pattern").concat(" in ").concat(shown.as_str());
    }
    if text::same(name, "SendMessage") {
        let to = c.str("to");
        let shown = if to.as_str().is_empty() {
            "litter".to_owned()
        } else {
            text::trim_leading(to.as_str(), '@')
        };
        return String::from_str("→ ").concat(shown.as_str()).concat("  ").concat(
            c.str("body").as_str(),
        );
    }
    if text::same(name, "TaskUpdate") {
        return c.str("task").concat(" ").concat(c.str("status").as_str()).concat("  ").concat(
            c.str("text").as_str(),
        );
    }
    if any_of(name, "TaskPlan", "TaskReassign") {
        return c.str("task").concat(" ").concat(c.str("to").as_str());
    }
    if any_of(name, "ArtifactRead", "Inspect") || any_of(name, "Running", "Cancel") {
        return c.str("id");
    }
    if text::same(name, "LocalTask") {
        let a = c.str("action");
        let b = c.str("id");
        let d = c.str("text");
        let mut v = text::none();
        if !a.as_str().is_empty() {
            text::put(&mut v, a.as_str());
        }
        if !b.as_str().is_empty() {
            text::put(&mut v, b.as_str());
        }
        if !d.as_str().is_empty() {
            text::put(&mut v, d.as_str());
        }
        proof {
            lemma_filled_three(a@, b@, d@);
        }
        return text::join(&v, " ");
    }
    if text::same(name, "Artifact") {
        return c.str("text");
    }
    match &c.args {
        Json::Null => "".to_owned(),
        Json::Object(m) => if m.len() == 0 {
            "".to_owned()
        } else {
            c.args.print()
        },
        _ => c.args.print(),
    }
}

proof fn lemma_filled_three(a: Seq<char>, b: Seq<char>, c: Seq<char>)
    ensures
        filled(seq![a, b, c]) == ({
            let v0 = Seq::<Seq<char>>::empty();
            let v1 = if a.len() > 0 {
                v0.push(a)
            } else {
                v0
            };
            let v2 = if b.len() > 0 {
                v1.push(b)
            } else {
                v1
            };
            if c.len() > 0 {
                v2.push(c)
            } else {
                v2
            }
        }),
{
    reveal_with_fuel(filled, 4);
    assert(seq![a, b, c].drop_last() =~= seq![a, b]);
    assert(seq![a, b].drop_last() =~= seq![a]);
    assert(seq![a].drop_last() =~= Seq::<Seq<char>>::empty());
}

// ---------------------------------------------------------------------
// What holds of the loop
// ---------------------------------------------------------------------

/// A reset ends the session: nothing of the conversation, nothing held back,
/// no warning, notice or nudge is carried into the next one, and a result asked
/// for before it is never fed.
pub proof fn a_reset_ends_the_session(m: MindView, name: Seq<char>, out: Outcome, session: u64)
    requires
        session == m.session,
    ensures
        reset(m).history.len() == 0,
        reset(m).fresh.len() == 0,
        reset(m).held.len() == 0,
        reset(m).notices.len() == 0,
        reset(m).warning is None,
        reset(m).restart is None,
        !reset(m).armed,
        reset(m).followups == 0,
        heard(reset(m), name, out, session).1 is None,
        heard(reset(m), name, out, session).0.log == m.log,
{
}

/// No result is lost and none is fed twice: what a batch's turn is given and
/// what is still held back are together what was held and what came in, in that
/// order.
pub proof fn no_result_is_lost(m: MindView, woken: bool, results: Seq<(nat, Seq<char>)>)
    ensures
        decided(m, woken, results).0.held + decided(m, woken, results).2 == m.held + results,
{
    let (after, next, given) = decided(m, woken, results);
    assert(after.held + given =~= m.held + results);
}

/// However often results come back with nobody speaking, there are never more
/// than [`MAX_FOLLOWUPS`] turns in a row for them, and a wake always gets its
/// turn.
pub proof fn followups_are_bounded(
    m: MindView,
    woken: bool,
    results: Seq<(nat, Seq<char>)>,
    waiting: bool,
)
    requires
        m.followups <= MAX_FOLLOWUPS,
    ensures
        decided(m, woken, results).0.followups <= MAX_FOLLOWUPS,
        checked(m, waiting).0.followups <= MAX_FOLLOWUPS,
        woken ==> decided(m, woken, results).1 == Next::Turn,
        !woken && m.followups == MAX_FOLLOWUPS ==> decided(m, woken, results).1 != Next::Turn,
{
}

/// A check-in never leads to another one.
pub proof fn a_check_in_never_arms_another(
    m: MindView,
    had_results: bool,
    called: bool,
    before: nat,
    unattended: bool,
)
    ensures
        !closed(m, true, had_results, called, before, unattended).armed,
        checked(m, false).1 ==> !checked(m, false).0.armed,
{
}

/// A result that was fed can be read back by the id it was fed under, as it is
/// kept, and the ids of earlier results still name what they did.
pub proof fn fed_results_can_be_inspected(
    m: MindView,
    name: Seq<char>,
    out: Outcome,
    session: u64,
    older: nat,
)
    requires
        session == m.session,
    ensures
        heard(m, name, out, session).1 matches Some(fed) && fed.0 == next_of(m),
        logged_at(heard(m, name, out, session).0, next_of(m)) == Some(
            (name, conversation::stored(tool_out::told(out))),
        ),
        logged_at(m, older) is Some ==> logged_at(heard(m, name, out, session).0, older)
            == logged_at(m, older),
{
}

/// A tool's name is shown whole above a page, unless the page would then not be
/// fed uncut.
pub proof fn a_name_is_cut_only_where_it_must_be(
    i: nat,
    name: Seq<char>,
    facts: Seq<char>,
    page: Seq<char>,
)
    ensures
        tool_out::told(page_answer(i, name, facts, page)).len() <= conversation::FEED_CHARS
            ==> name_shown(i, name, facts, page) == name,
{
    reveal_strlit("");
}

/// A page that `Inspect` shows comes back whole: with its header and its pointer
/// to the next part it is short enough to be fed uncut.
pub proof fn an_inspected_page_is_fed_whole(
    m: MindView,
    wide: u64,
    offset: Option<u64>,
    id: nat,
)
    requires
        logged_at(m, wide as usize as nat) matches Some((name, out)) && out.len() <= u64::MAX,
    ensures
        tool_out::told(inspect_answer(m, Some(wide), offset)).len() <= conversation::FEED_CHARS,
        conversation::fed(id, tool_out::told(inspect_answer(m, Some(wide), offset)))
            == tool_out::told(inspect_answer(m, Some(wide), offset)),
{
    let i = wide as usize as nat;
    let at = match offset {
        Some(o) => o as usize as nat,
        None => 0,
    };
    let (name, out) = logged_at(m, i)->0;
    let total = out.len();
    let from = if at > total {
        total
    } else {
        at
    };
    let page = conversation::page(out, at);
    let to = from + page.len();
    text::lemma_digits(i);
    text::lemma_digits(from);
    text::lemma_digits(to);
    text::lemma_digits(total);
    reveal_strlit("");
    reveal_strlit("…");
    reveal_strlit("#");
    reveal_strlit(" ");
    reveal_strlit("chars ");
    reveal_strlit("–");
    reveal_strlit(" of ");
    reveal_strlit("  (");
    reveal_strlit(")");
    reveal_strlit("\n");
    reveal_strlit(", ");
    reveal_strlit("\n… [Inspect {\"id\": ");
    reveal_strlit(", \"offset\": ");
    reveal_strlit("} for the next part]");
    let facts = "chars "@ + text::dec(from) + "–"@ + text::dec(to) + " of "@ + text::dec(total);
    assert(inspect_answer(m, Some(wide), offset).meta =~= seq![facts]);
    reveal_with_fuel(text::joined, 2);
    assert(text::joined(seq![facts], ", "@) =~= facts);
}

/// Nudges on local tasks stop after [`MAX_LOCAL_TASK_NUDGES`].
pub proof fn nudges_are_bounded(
    m: MindView,
    now: u64,
    after: u64,
    unattended: bool,
    open: bool,
)
    requires
        nag_due(m, now, after, unattended, open),
    ensures
        m.nudges + 1 <= MAX_LOCAL_TASK_NUDGES,
{
}

// ---------------------------------------------------------------------
// Tools and rules
// ---------------------------------------------------------------------

/// Put behind every persona: how results come back.
pub const RULES: &'static str = "\n\nHow tools work here:\n- Tools like Bash, ReadFile, Peers, ArtifactRead, AboutMe run in the background. You don't get their output in the same response — it comes back to you in a later message, each one labelled [#id ToolName]. So call what you need, then act on the results when they arrive; you don't have to reply in the same response you call a tool.\n- Writes (SendMessage, TaskUpdate, Artifact, ...) are final: they just happen, and nothing comes back from them.\n- Your work stops when you stop calling tools. If you say you'll do something next, call its tool in that same response — a message alone doesn't start anything.\n- Bash, ReadFile, WriteFile, Edit, MultiEdit, LS, Glob and Grep run one at a time, in the order you call them — across responses too: one waits for the one before it to finish, so a later edit never races an earlier script. Running shows a waiting one as queued. Put a long build last, or it holds up everything after it.\n- Edit changes one exact stretch of text in a file — old_string must match the file exactly once (whitespace and all) unless you pass replace_all. It fails, saying why, rather than guess: ReadFile first to get the text exact, or use WriteFile for a full rewrite. MultiEdit is the same rule, several edits at once, all-or-nothing.\n- Grep and Glob search rather than guessing a path: Grep for content (output_mode picks content/files_with_matches/count), Glob for a filename pattern. LS lists one directory, not recursively.\n- Bash waits 30 seconds unless you pass timeout (seconds, up to 3600). Give anything slow, like a build, a big enough timeout, and tell whoever asked that it's running; its output comes back when it finishes, however long that takes.\n- A long result comes back as its start and its end. Inspect with its id and an offset reads the part in between.\n- A result stays in the conversation for a few turns, then shrinks to a one-line stub. If you need it again, Inspect it by id rather than rerunning it.\n- After many tool turns in a row with nobody writing to you, you'll be told it's your last one; report your progress then. Results that arrive after that aren't lost — they come back with the next message you get.\n- AboutMe tells you who you are: your persona, model, and what you're running on.\n- Running shows your tool calls still in flight (ids like r3) and what they've printed so far; Cancel stops one. You'll be told when one has gone quiet for a while — check it, cancel it, or leave it.\n- TokenBudget tells you how much context you have left. BrowseTools lists past tool results (id, name, preview); Inspect pulls one back by id. Compact replaces the conversation so far with a summary you write, to free room — past tool results survive it.";

/// What a model is asked for where a conversation is summed up for it.
pub const SUMMARIZE: &'static str = "Summarize this conversation so far for your own future reference — what was asked, what you found or did, what's still open. Plain text, no tools, as concise as it can be while staying useful.";

/// A tool as it is described to a model.
#[derive(Debug)]
pub struct Tool {
    pub name: String,
    pub description: String,
    /// The shape of its arguments.
    pub schema: Json,
}

/// What the reboot is described as.
pub const REBOOT: &'static str = "Compact your conversation to a summary you write, then reboot this host (busybox reboot -f, or a plain reboot -f). Only offered when explicitly enabled for this cat. Write down what you were doing and what's next before you call this — that summary, and your LocalTask list, are all that survive; the reboot itself does not wait for anything.";

/// The arguments of the reboot: a summary, which is required.
pub open spec fn reboot_schema() -> Tree {
    Tree::Object(
        seq![
            ("type"@, Tree::Str("object"@)),
            (
                "properties"@,
                Tree::Object(
                    seq![
                        (
                            "summary"@,
                            Tree::Object(
                                seq![
                                    ("type"@, Tree::Str("string"@)),
                                    (
                                        "description"@,
                                        Tree::Str(
                                            "everything about the conversation so far worth remembering"@,
                                        ),
                                    ),
                                ],
                            ),
                        ),
                    ],
                ),
            ),
            ("required"@, Tree::List(seq![Tree::Str("summary"@)])),
        ],
    )
}

/// The reboot, for the one cat that has it: not among the tools that everyone
/// gets.
pub fn reboot_tool() -> (r: Tool)
    ensures
        r.name@ == "Reboot"@,
        r.description@ == REBOOT@,
        json::tree(r.schema) == reboot_schema(),
{
    let mut summary = json::members();
    json::member(&mut summary, "type", json::string("string"));
    json::member(
        &mut summary,
        "description",
        json::string("everything about the conversation so far worth remembering"),
    );
    let ghost inner = seq![
        ("type"@, Tree::Str("string"@)),
        (
            "description"@,
            Tree::Str("everything about the conversation so far worth remembering"@),
        ),
    ];
    assert(json::tree_members(summary@) =~= inner);
    let mut properties = json::members();
    json::member(&mut properties, "summary", Json::Object(summary));
    assert(json::tree_members(properties@) =~= seq![("summary"@, Tree::Object(inner))]);
    let mut required: Vec<Json> = Vec::new();
    json::item(&mut required, json::string("summary"));
    assert(json::tree_items(required@) =~= seq![Tree::Str("summary"@)]);
    let mut m = json::members();
    json::member(&mut m, "type", json::string("object"));
    json::member(&mut m, "properties", Json::Object(properties));
    json::member(&mut m, "required", Json::List(required));
    assert(json::tree_members(m@) =~= seq![
        ("type"@, Tree::Str("object"@)),
        ("properties"@, Tree::Object(seq![("summary"@, Tree::Object(inner))])),
        ("required"@, Tree::List(seq![Tree::Str("summary"@)])),
    ]);
    Tool { name: "Reboot".to_owned(), description: REBOOT.to_owned(), schema: Json::Object(m) }
}

/// The tools of one turn, by name: those everyone has, then each kind's that
/// is not there yet, and the reboot where this cat has it.
pub open spec fn offered_tools(
    shared: Seq<Seq<char>>,
    own: Seq<Seq<char>>,
    reboot: bool,
) -> Seq<Seq<char>> {
    let t = joined_tools(shared, own);
    if reboot {
        t.push("Reboot"@)
    } else {
        t
    }
}

pub open spec fn joined_tools(shared: Seq<Seq<char>>, own: Seq<Seq<char>>) -> Seq<Seq<char>>
    decreases own.len(),
{
    if own.len() == 0 {
        shared
    } else {
        let t = joined_tools(shared, own.drop_last());
        if t.contains(own.last()) {
            t
        } else {
            t.push(own.last())
        }
    }
}

/// The tools of one turn. `own` is what each kind of wake offers, in turn.
pub fn tools(shared: &Vec<String>, own: &Vec<String>, reboot: bool) -> (out: Vec<String>)
    ensures
        text::texts(out@) == offered_tools(text::texts(shared@), text::texts(own@), reboot),
{
    let mut out = text::none();
    let ghost first = text::texts(shared@);
    let ghost more = text::texts(own@);
    let mut i: usize = 0;
    while i < shared.len()
        invariant
            i <= shared.len(),
            first == text::texts(shared@),
            text::texts(out@) == first.take(i as int),
        decreases shared.len() - i,
    {
        text::put(&mut out, shared[i].as_str());
        assert(first.take(i + 1) =~= first.take(i as int).push(shared@[i as int]@));
        i = i + 1;
    }
    assert(first.take(i as int) =~= first);
    let mut j: usize = 0;
    assert(more.take(0) =~= Seq::<Seq<char>>::empty());
    while j < own.len()
        invariant
            j <= own.len(),
            more == text::texts(own@),
            text::texts(out@) == joined_tools(first, more.take(j as int)),
        decreases own.len() - j,
    {
        assert(more.take(j + 1).drop_last() =~= more.take(j as int));
        assert(more.take(j + 1).last() == own@[j as int]@);
        if !text::one_of(own[j].as_str(), &out) {
            text::put(&mut out, own[j].as_str());
        }
        j = j + 1;
    }
    assert(more.take(j as int) =~= more);
    if reboot {
        text::put(&mut out, "Reboot");
    }
    out
}

/// What stands for a conversation that was summed up: the model's words, or
/// that there are none. It is cleared either way.
pub fn summary_of(words: &Option<String>) -> (r: String)
    ensures
        r@ == (match text::text_view(*words) {
            Some(s) => if text::trimmed(s).len() > 0 {
                text::trimmed(s)
            } else {
                "(compaction summary unavailable — history cleared anyway)"@
            },
            None => "(compaction summary unavailable — history cleared anyway)"@,
        }),
{
    match words {
        Some(s) => {
            let t = text::trim(s.as_str());
            if text::chars_of(t.as_str()).len() > 0 {
                return t;
            }
        },
        None => {},
    }
    "(compaction summary unavailable — history cleared anyway)".to_owned()
}

proof fn lemma_kept_apart(shared: Seq<Seq<char>>, own: Seq<Seq<char>>)
    requires
        shared.no_duplicates(),
    ensures
        joined_tools(shared, own).no_duplicates(),
    decreases own.len(),
{
    if own.len() > 0 {
        lemma_kept_apart(shared, own.drop_last());
    }
}

/// No tool is offered twice, whatever kinds a turn is woken by.
pub proof fn no_tool_is_offered_twice(shared: Seq<Seq<char>>, own: Seq<Seq<char>>)
    requires
        shared.no_duplicates(),
    ensures
        offered_tools(shared, own, false).no_duplicates(),
{
    lemma_kept_apart(shared, own);
}

// ---------------------------------------------------------------------
// What a turn is given
// ---------------------------------------------------------------------

/// What a turn's message is, as the model reads it.
pub open spec fn prompt_of(
    m: MindView,
    wakes: Seq<WakeView>,
    rs: Seq<(nat, Seq<char>)>,
    check: bool,
    running: Option<Seq<char>>,
    reminder: Option<Seq<char>>,
) -> Seq<char> {
    text::joined(message(m, wakes, rs, check, running, reminder), "\n\n"@)
}

/// No wake is lost: the turn's message begins with the wakes, each whole and in
/// the order they came, one behind the other; and that message is what goes into
/// the conversation.
pub proof fn no_wake_is_lost(
    m: MindView,
    wakes: Seq<WakeView>,
    rs: Seq<(nat, Seq<char>)>,
    check: bool,
    running: Option<Seq<char>>,
    reminder: Option<Seq<char>>,
    i: nat,
)
    requires
        i < wakes.len(),
    ensures
        message(m, wakes, rs, check, running, reminder).len() >= wakes.len(),
        message(m, wakes, rs, check, running, reminder)[i as int] == wakes[i as int].text,
        ({
            let prompt = prompt_of(m, wakes, rs, check, running, reminder);
            let texts = Seq::new(wakes.len(), |k: int| wakes[k].text);
            &&& text::occurs_at(prompt, wakes[i as int].text, text::place(texts, 2, i) as int)
            &&& opened(m, wakes, rs, check, running, reminder).history.last() == (
                Speaker::User,
                prompt,
            )
        }),
{
    reveal_strlit("\n\n");
    let parts = message(m, wakes, rs, check, running, reminder);
    let texts = Seq::new(wakes.len(), |k: int| wakes[k].text);
    assert forall|k: int| 0 <= k < wakes.len() implies parts[k] == #[trigger] texts[k] by {}
    text::joined_parts_stand_in_order(parts, "\n\n"@, i);
    lemma_places_agree(parts, texts, 2, i);
}

proof fn lemma_places_agree(a: Seq<Seq<char>>, b: Seq<Seq<char>>, gap: nat, i: nat)
    requires
        i <= a.len(),
        i <= b.len(),
        forall|k: int| 0 <= k < i ==> a[k] == #[trigger] b[k],
    ensures
        text::place(a, gap, i) == text::place(b, gap, i),
    decreases i,
{
    if i > 0 {
        assert(a[i - 1] == b[i - 1]);
        lemma_places_agree(a, b, gap, (i - 1) as nat);
    }
}

/// Where in a turn's message its parts stand, behind the wakes.
pub open spec fn told_at(
    m: MindView,
    wakes: Seq<WakeView>,
    rs: Seq<(nat, Seq<char>)>,
    running: Option<Seq<char>>,
    part: int,
) -> int {
    let a = wakes.len() as int;
    let b = a + (if rs.len() > 0 {
        1int
    } else {
        0
    });
    let c = b + (if m.notices.len() > 0 {
        1int
    } else {
        0
    });
    let d = c + (if m.restart is Some {
        1int
    } else {
        0
    });
    let e = d + (if running is Some {
        1int
    } else {
        0
    });
    if part == 0 {
        a
    } else if part == 1 {
        b
    } else if part == 2 {
        c
    } else if part == 3 {
        d
    } else {
        e
    }
}

/// A turn's message holds, behind the wakes and in this order, the results, the
/// notices, what is said once after a restart, what still runs, the check-in if
/// it is one, the reminder if somebody spoke, and that it is the last turn if it
/// is. Each is there exactly where there is something to tell.
pub proof fn a_turn_is_told_everything(
    m: MindView,
    wakes: Seq<WakeView>,
    rs: Seq<(nat, Seq<char>)>,
    check: bool,
    running: Option<Seq<char>>,
    reminder: Option<Seq<char>>,
)
    ensures
        ({
            let parts = message(m, wakes, rs, check, running, reminder);
            let end = told_at(m, wakes, rs, running, 4);
            let asks = check;
            let minds = wakes.len() > 0 && reminder is Some;
            let last = wakes.len() == 0 && m.followups >= 8;
            &&& rs.len() > 0 ==> text::starts(
                parts[told_at(m, wakes, rs, running, 0)],
                "Results of tools you called:\n"@,
            )
            &&& m.notices.len() > 0 ==> parts[told_at(m, wakes, rs, running, 1)] == text::joined(
                m.notices,
                "\n"@,
            )
            &&& m.restart matches Some(note) ==> parts[told_at(m, wakes, rs, running, 2)] == note
            &&& running matches Some(out) ==> parts[told_at(m, wakes, rs, running, 3)] == out
            &&& asks ==> parts[end] == CHECK_IN@
            &&& minds ==> parts[end + (if asks {
                1int
            } else {
                0
            })] == reminder->0
            &&& last ==> text::starts(
                parts.last(),
                "(This is your last turn without someone writing to you: "@,
            )
            &&& parts.len() == end + (if asks {
                1int
            } else {
                0
            }) + (if minds {
                1int
            } else {
                0
            }) + (if last {
                1int
            } else {
                0
            })
        }),
{
    let s0 = wake_texts(wakes);
    let head = conversation::RESULTS_HEADER@;
    let block = head + text::joined(result_rows(m, rs), "\n\n"@);
    let s1 = if rs.len() > 0 {
        s0.push(block)
    } else {
        s0
    };
    let s2 = if m.notices.len() > 0 {
        s1.push(text::joined(m.notices, "\n"@))
    } else {
        s1
    };
    let s3 = s2 + maybe(m.restart) + maybe(running);
    let s4 = if check {
        s3.push(CHECK_IN@)
    } else {
        s3
    };
    let s5 = if wakes.len() > 0 {
        s4 + maybe(reminder)
    } else {
        s4
    };
    let parts = message(m, wakes, rs, check, running, reminder);
    assert(parts == if wakes.len() == 0 && m.followups >= MAX_FOLLOWUPS {
        s5.push(last_turn_note())
    } else {
        s5
    });
    assert(s1.len() == told_at(m, wakes, rs, running, 1));
    assert(s2.len() == told_at(m, wakes, rs, running, 2));
    assert(s3.len() == told_at(m, wakes, rs, running, 4));
    assert(text::starts(block, head)) by {
        assert(block.subrange(0, head.len() as int) =~= head);
    }
    assert(head == "Results of tools you called:\n"@);
    let first = "(This is your last turn without someone writing to you: "@;
    assert(text::starts(last_turn_note(), first)) by {
        assert(last_turn_note().subrange(0, first.len() as int) =~= first);
    }
}

/// Every result that a turn is given is in its message: whole as it is fed, under
/// its own id, and by the name of the tool that gave it.
pub proof fn every_result_is_in_the_prompt(
    m: MindView,
    wakes: Seq<WakeView>,
    rs: Seq<(nat, Seq<char>)>,
    check: bool,
    running: Option<Seq<char>>,
    reminder: Option<Seq<char>>,
    i: int,
)
    requires
        0 <= i < rs.len(),
    ensures
        text::has(prompt_of(m, wakes, rs, check, running, reminder), rs[i].1),
        text::has(
            prompt_of(m, wakes, rs, check, running, reminder),
            "[#"@ + text::dec(rs[i].0) + " "@,
        ),
        logged_at(m, rs[i].0) matches Some((name, full)) ==> text::has(
            prompt_of(m, wakes, rs, check, running, reminder),
            "[#"@ + text::dec(rs[i].0) + " "@ + name + "] "@ + rs[i].1,
        ),
        ({
            let rows = result_rows(m, rs);
            let block = "Results of tools you called:\n"@ + text::joined(rows, "\n\n"@);
            &&& message(m, wakes, rs, check, running, reminder)[wakes.len() as int] == block
            &&& rows.len() == rs.len()
            &&& text::ends(rows[i], rs[i].1)
        }),
{
    let parts = message(m, wakes, rs, check, running, reminder);
    let prompt = prompt_of(m, wakes, rs, check, running, reminder);
    let rows = result_rows(m, rs);
    let head = conversation::RESULTS_HEADER@;
    assert(head == "Results of tools you called:\n"@);
    let body = text::joined(rows, "\n\n"@);
    let block = head + body;
    let row = rows[i];
    assert(parts[wakes.len() as int] == block);
    text::lemma_has_part(parts, "\n\n"@, wakes.len() as int);
    text::lemma_has_part(rows, "\n\n"@, i);
    text::lemma_has_right(head, body, row);
    text::lemma_has_through(prompt, block, row);
    let name = named(m, rs[i].0).0;
    let start = "[#"@ + text::dec(rs[i].0) + " "@;
    text::lemma_has_self(start);
    text::lemma_has_left(start, name, start);
    text::lemma_has_left(start + name, "] "@, start);
    text::lemma_has_left(start + name + "] "@, rs[i].1, start);
    text::lemma_has_self(rs[i].1);
    text::lemma_has_right(start + name + "] "@, rs[i].1, rs[i].1);
    text::lemma_has_through(prompt, row, start);
    text::lemma_has_through(prompt, row, rs[i].1);
    assert(row.subrange(row.len() - rs[i].1.len(), row.len() as int) =~= rs[i].1);
}

/// Every notice is in the message, in the order it was given; and what a turn was
/// told is not told again in the next.
pub proof fn what_was_told_is_not_told_again(
    m: MindView,
    wakes: Seq<WakeView>,
    rs: Seq<(nat, Seq<char>)>,
    check: bool,
    running: Option<Seq<char>>,
    reminder: Option<Seq<char>>,
)
    ensures
        forall|i: int|
            0 <= i < m.notices.len() ==> text::has(
                prompt_of(m, wakes, rs, check, running, reminder),
                #[trigger] m.notices[i],
            ),
        ({
            let after = opened(m, wakes, rs, check, running, reminder);
            &&& after.notices.len() == 0
            &&& after.restart is None
            &&& after.warning is None
            &&& after.turns == m.turns + 1
            &&& after.held == m.held
            &&& after.log == m.log
            &&& after.base == m.base
            &&& after.session == m.session
            &&& after.followups == m.followups
            &&& after.queries == m.queries
            &&& after.records == m.records
            &&& after.armed == m.armed
            &&& after.nudges == m.nudges
            &&& after.tier == m.tier
            &&& after.idle_since == m.idle_since
            &&& after.system == m.system
            &&& after.window == m.window
            &&& wakes.len() == 0 ==> after.kinds == m.kinds
            &&& after.history.len() == m.history.len() + 1
            &&& forall|i: int|
                0 <= i < m.history.len() ==> (#[trigger] after.history[i]).0 == m.history[i].0 && (
                m.history[i].0 == Speaker::Assistant ==> after.history[i] == m.history[i])
        }),
{
    let parts = message(m, wakes, rs, check, running, reminder);
    let k = told_at(m, wakes, rs, running, 1);
    conversation::aging_touches_only_what_was_fed(
        m.history,
        with_fresh(m, rs, m.turns + 1),
        m.base,
        m.turns + 1,
    );
    if m.notices.len() > 0 {
        assert(parts[k] == text::joined(m.notices, "\n"@));
        text::lemma_has_part(parts, "\n\n"@, k);
        assert forall|i: int| 0 <= i < m.notices.len() implies text::has(
            prompt_of(m, wakes, rs, check, running, reminder),
            #[trigger] m.notices[i],
        ) by {
            text::lemma_has_part(m.notices, "\n"@, i);
            text::lemma_has_through(
                prompt_of(m, wakes, rs, check, running, reminder),
                parts[k],
                m.notices[i],
            );
        }
    }
}

/// The rules go out with every turn, and with them the budget warning if one is
/// due.
pub proof fn a_warning_goes_out_with_the_rules(m: MindView)
    ensures
        text::starts(system_now(m), m.system),
        m.warning is None ==> system_now(m) == m.system,
        m.warning matches Some(w) ==> text::ends(system_now(m), w),
{
    assert(system_now(m).subrange(0, m.system.len() as int) =~= m.system);
    if m.warning is Some {
        let w = m.warning->0;
        let s = system_now(m);
        assert(s.subrange(s.len() - w.len(), s.len() as int) =~= w);
    }
}

proof fn lemma_deduped(v: Seq<Seq<char>>)
    ensures
        v.len() > 0 ==> deduped(v).len() > 0 && deduped(v).last() == v.last(),
        forall|i: int| 0 <= i < v.len() ==> deduped(v).contains(#[trigger] v[i]),
        forall|i: int| 0 <= i < deduped(v).len() ==> v.contains(#[trigger] deduped(v)[i]),
        forall|i: int|
            #![trigger deduped(v)[i]]
            0 < i < deduped(v).len() ==> deduped(v)[i] != deduped(v)[i - 1],
    decreases v.len(),
{
    if v.len() == 1 {
        assert(deduped(v)[0] == v[0]);
    } else if v.len() > 1 {
        let front = v.drop_last();
        lemma_deduped(front);
        let d = deduped(front);
        let all = deduped(v);
        assert(front.last() == v[v.len() - 2]);
        assert forall|i: int| 0 <= i < v.len() implies all.contains(#[trigger] v[i]) by {
            if i < front.len() {
                assert(front[i] == v[i]);
                let k = choose|k: int| 0 <= k < d.len() && d[k] == v[i];
                assert(all[k] == v[i]);
            } else if v.last() == v[v.len() - 2] {
                assert(all[d.len() - 1] == v[i]);
            } else {
                assert(all[d.len() as int] == v[i]);
            }
        }
        assert forall|i: int| 0 <= i < all.len() implies v.contains(#[trigger] all[i]) by {
            if i < d.len() {
                assert(all[i] == d[i]);
                assert(front.contains(d[i]));
                let k = choose|k: int| 0 <= k < front.len() && front[k] == d[i];
                assert(v[k] == all[i]);
            } else {
                assert(v[v.len() - 1] == all[i]);
            }
        }
        assert forall|i: int| 0 < i < all.len() implies #[trigger] all[i] != all[i - 1] by {
            if i < d.len() {
                assert(all[i] == d[i] && all[i - 1] == d[i - 1]);
            } else {
                assert(all[i - 1] == d.last());
            }
        }
    }
}

/// A turn that somebody woke offers the tools of every kind of its wakes, and of
/// no other; each kind is named once where it comes several times in a row.
pub proof fn every_kind_of_wake_counts(
    m: MindView,
    wakes: Seq<WakeView>,
    rs: Seq<(nat, Seq<char>)>,
    check: bool,
    running: Option<Seq<char>>,
    reminder: Option<Seq<char>>,
)
    requires
        wakes.len() > 0,
    ensures
        ({
            let kinds = opened(m, wakes, rs, check, running, reminder).kinds;
            &&& forall|i: int|
                0 <= i < wakes.len() ==> kinds.contains((#[trigger] wakes[i]).kind)
            &&& forall|k: int|
                0 <= k < kinds.len() ==> exists|i: int|
                    0 <= i < wakes.len() && (#[trigger] wakes[i]).kind == #[trigger] kinds[k]
            &&& kinds.last() == wakes.last().kind
        }),
{
    let v = wake_kinds(wakes);
    lemma_deduped(v);
    let kinds = deduped(v);
    assert forall|i: int| 0 <= i < wakes.len() implies kinds.contains(
        (#[trigger] wakes[i]).kind,
    ) by {
        assert(v[i] == wakes[i].kind);
    }
    assert forall|k: int| 0 <= k < kinds.len() implies exists|i: int|
        0 <= i < wakes.len() && (#[trigger] wakes[i]).kind == #[trigger] kinds[k] by {
        assert(v.contains(kinds[k]));
        let i = choose|i: int| 0 <= i < v.len() && v[i] == kinds[k];
        assert(wakes[i].kind == kinds[k]);
    }
}

/// What a turn is about: a check-in, the last of those who spoke, how many
/// results came back, or that a call went quiet.
pub proof fn a_turn_says_what_it_is_about(wakes: Seq<WakeView>, results: nat, check: bool)
    ensures
        check ==> reason(wakes, results, check) == "check-in — nothing running"@,
        !check && wakes.len() > 0 ==> reason(wakes, results, check) == conversation::summarized(
            wakes[wakes.len() - 1].text,
        ),
        !check && wakes.len() == 0 && results > 0 ==> text::starts(
            reason(wakes, results, check),
            text::dec(results),
        ),
        !check && wakes.len() == 0 && results == 0 ==> reason(wakes, results, check)
            == "a call went quiet"@,
{
    if !check && wakes.len() == 0 && results > 0 {
        let s = reason(wakes, results, check);
        assert(s.subrange(0, text::dec(results).len() as int) =~= text::dec(results));
    }
}

/// When a batch is given a turn: whenever somebody spoke, and otherwise while
/// results or notices are there and there were fewer than eight turns in a row
/// for them. Past that the results wait, and the notices are dropped.
pub proof fn a_batch_gets_its_turn(m: MindView, woken: bool, results: Seq<(nat, Seq<char>)>)
    ensures
        ({
            let (after, next, given) = decided(m, woken, results);
            let any = results.len() > 0 || m.notices.len() > 0;
            &&& next == Next::Turn <==> woken || (any && m.followups < 8)
            &&& next == Next::Hold <==> !woken && results.len() > 0 && m.followups >= 8
            &&& woken ==> after.followups == 0 && after.held.len() == 0 && given == m.held
                + results
            &&& !woken && next == Next::Turn ==> after.followups == m.followups + 1 && given
                == results && after.held == m.held
            &&& next == Next::Hold ==> given.len() == 0 && after.held == m.held + results
                && after.notices.len() == 0 && after.followups == m.followups
            &&& next == Next::Wait ==> after.held == m.held && after.followups == m.followups
                && given == results
            &&& next == Next::Turn ==> after.notices == m.notices && after.idle_since is None
            &&& next != Next::Turn ==> after.idle_since == m.idle_since
            &&& after.history == m.history && after.log == m.log && after.session == m.session
                && after.queries == m.queries && after.records == m.records && after.armed
                == m.armed
        }),
{
}

/// The model is asked once more exactly where it was about to go idle mid-work:
/// its last turn worked on results and started nothing, nothing is out, nothing
/// else waits, and it was not asked too often. It is asked once.
pub proof fn the_model_is_asked_once_more(m: MindView, waiting: bool)
    ensures
        checked(m, waiting).1 <==> m.armed && m.queries == 0 && !waiting && m.followups < 8,
        checked(m, waiting).1 ==> checked(m, waiting).0.followups == m.followups + 1,
        !checked(m, waiting).1 ==> checked(m, waiting).0.followups == m.followups
            && checked(m, waiting).0.idle_since == m.idle_since,
        m.queries == 0 ==> !checked(m, waiting).0.armed,
        m.queries > 0 ==> checked(m, waiting).0 == m,
        checked(m, waiting).0.history == m.history,
        checked(m, waiting).0.held == m.held,
{
}

/// A turn arms a check-in exactly where it worked on results, called something,
/// started no query and nobody attends; a query that was started lets the nudges
/// begin anew.
pub proof fn what_arms_a_check_in(
    m: MindView,
    check: bool,
    had_results: bool,
    called: bool,
    before: nat,
    unattended: bool,
)
    ensures
        closed(m, check, had_results, called, before, unattended).armed <==> !check && had_results
            && called && m.queries == before && unattended,
        m.queries != before ==> closed(
            m,
            check,
            had_results,
            called,
            before,
            unattended,
        ).nudges == 0,
        m.queries == before ==> closed(
            m,
            check,
            had_results,
            called,
            before,
            unattended,
        ).nudges == m.nudges,
        closed(m, check, had_results, called, before, unattended).history == m.history,
        closed(m, check, had_results, called, before, unattended).queries == m.queries,
{
}

/// A query that comes back is one less that is out, whatever session it was
/// asked in; its result is kept and fed in the session that asked, and only
/// there.
pub proof fn a_result_is_fed_where_it_was_asked(
    m: MindView,
    name: Seq<char>,
    out: Outcome,
    session: u64,
)
    ensures
        ({
            let (after, fed) = heard(m, name, out, session);
            &&& m.queries > 0 ==> after.queries == m.queries - 1
            &&& m.queries == 0 ==> after.queries == 0
            &&& fed is Some <==> session == m.session
            &&& session != m.session ==> after.log == m.log
            &&& session == m.session ==> after.log.len() == m.log.len() + 1 && after.log.last().0
                == name && (fed->0).0 == m.base + m.log.len()
            &&& session == m.session && tool_out::told(out).len() <= 3000 ==> after.log.last().1
                == tool_out::told(out) && (fed->0).1 == tool_out::told(out)
            &&& after.history == m.history && after.held == m.held && after.session == m.session
                && after.followups == m.followups && after.records == m.records
        }),
{
}

/// An idle model with open tasks is nudged when it has been idle long enough,
/// with nothing out and nobody there, and not more than three times in a row.
pub proof fn when_a_nudge_is_due(
    m: MindView,
    now: u64,
    after: u64,
    unattended: bool,
    open: bool,
)
    ensures
        nag_due(m, now, after, unattended, open) <==> open && unattended && m.queries == 0
            && m.records == 0 && m.nudges < 3 && (m.idle_since matches Some(since) && (if now
            > since {
            now - since
        } else {
            0
        }) >= after),
{
}

/// A nudge holds the open tasks, and says when it is the last.
pub proof fn a_nudge_names_the_open_tasks(idle_ms: nat, reminder: Seq<char>, last: bool)
    ensures
        text::has(nag_text(idle_ms, reminder, last), reminder),
        last ==> text::has(
            nag_text(idle_ms, reminder, last),
            " This is the last reminder on these — if you're stuck or waiting on someone, say so; nothing more will nudge you about them."@,
        ),
{
    let a = "(Idle "@;
    let b = figures::human_text(idle_ms / 1000);
    let c = " with open local tasks."@;
    let d = if last {
        " This is the last reminder on these — if you're stuck or waiting on someone, say so; nothing more will nudge you about them."@
    } else {
        ""@
    };
    let e = "\n"@;
    let f = "\nDo the next step now, or call LocalTask to update the list.)"@;
    text::lemma_has_self(reminder);
    text::lemma_has_right(a + b + c + d + e, reminder, reminder);
    text::lemma_has_left(a + b + c + d + e + reminder, f, reminder);
    text::lemma_has_self(d);
    text::lemma_has_right(a + b + c, d, d);
    text::lemma_has_left(a + b + c + d, e, d);
    text::lemma_has_left(a + b + c + d + e, reminder, d);
    text::lemma_has_left(a + b + c + d + e + reminder, f, d);
}

/// Every tool that everyone has is offered, and every one that a kind of wake
/// brings, and no other but the reboot where this cat has it.
pub proof fn every_tool_is_offered(
    shared: Seq<Seq<char>>,
    own: Seq<Seq<char>>,
    reboot: bool,
    name: Seq<char>,
)
    ensures
        offered_tools(shared, own, reboot).contains(name) <==> shared.contains(name)
            || own.contains(name) || (reboot && name == "Reboot"@),
        offered_tools(shared, own, reboot).take(shared.len() as int) == shared,
{
    lemma_joined_tools(shared, own, name);
    let t = joined_tools(shared, own);
    if reboot {
        let all = t.push("Reboot"@);
        assert(all[t.len() as int] == "Reboot"@);
        if t.contains(name) {
            let i = choose|i: int| 0 <= i < t.len() && t[i] == name;
            assert(all[i] == name);
        }
        if all.contains(name) {
            let i = choose|i: int| 0 <= i < all.len() && all[i] == name;
            if i < t.len() {
                assert(t[i] == name);
            }
        }
        assert(all.take(shared.len() as int) =~= t.take(shared.len() as int));
    }
}

proof fn lemma_joined_tools(shared: Seq<Seq<char>>, own: Seq<Seq<char>>, name: Seq<char>)
    ensures
        joined_tools(shared, own).contains(name) <==> shared.contains(name) || own.contains(name),
        joined_tools(shared, own).len() >= shared.len(),
        joined_tools(shared, own).take(shared.len() as int) == shared,
    decreases own.len(),
{
    if own.len() == 0 {
        assert(shared.take(shared.len() as int) =~= shared);
    } else {
        let front = own.drop_last();
        let t = joined_tools(shared, front);
        let all = joined_tools(shared, own);
        lemma_joined_tools(shared, front, name);
        lemma_joined_tools(shared, front, own.last());
        assert(own[own.len() - 1] == own.last());
        if own.contains(name) {
            let i = choose|i: int| 0 <= i < own.len() && own[i] == name;
            if i < front.len() {
                assert(front[i] == name);
            }
        }
        if front.contains(name) {
            let i = choose|i: int| 0 <= i < front.len() && front[i] == name;
            assert(own[i] == name);
        }
        if !t.contains(own.last()) {
            assert(all[t.len() as int] == own.last());
            if t.contains(name) {
                let i = choose|i: int| 0 <= i < t.len() && t[i] == name;
                assert(all[i] == name);
            }
            if all.contains(name) {
                let i = choose|i: int| 0 <= i < all.len() && all[i] == name;
                if i < t.len() {
                    assert(t[i] == name);
                }
            }
        }
        assert(all.take(shared.len() as int) =~= t.take(shared.len() as int));
    }
}

// ---------------------------------------------------------------------
// What the model may ask of itself
// ---------------------------------------------------------------------

/// Every result that is kept is listed, with its number, its tool and the start
/// of what it said.
pub proof fn every_kept_result_is_listed(m: MindView, i: int)
    requires
        0 <= i < m.log.len(),
    ensures
        browse_answer(m).ok,
        text::has(browse_answer(m).body, text::dec((m.base + i) as nat)),
        text::has(browse_answer(m).body, m.log[i].0),
        text::has(
            browse_answer(m).body,
            cut_to(first_or_empty(text::lines(m.log[i].1)), 60),
        ),
        browse_answer(m).meta == seq![text::dec(m.log.len()) + " stored"@],
{
    let rows = browse_rows(m);
    let body = text::joined(rows, "\n"@);
    text::lemma_has_part(rows, "\n"@, i);
    let a = text::dec((m.base + i) as nat);
    let b = ": "@;
    let c = m.log[i].0;
    let d = " — "@;
    let e = cut_to(first_or_empty(text::lines(m.log[i].1)), 60);
    let row = a + b + c + d + e;
    assert(rows[i] == row);
    text::lemma_has_self(a);
    text::lemma_has_left(a, b, a);
    text::lemma_has_left(a + b, c, a);
    text::lemma_has_left(a + b + c, d, a);
    text::lemma_has_left(a + b + c + d, e, a);
    text::lemma_has_self(c);
    text::lemma_has_right(a + b, c, c);
    text::lemma_has_left(a + b + c, d, c);
    text::lemma_has_left(a + b + c + d, e, c);
    text::lemma_has_self(e);
    text::lemma_has_right(a + b + c + d, e, e);
    text::lemma_has_through(body, row, a);
    text::lemma_has_through(body, row, c);
    text::lemma_has_through(body, row, e);
    assert(browse_answer(m).meta =~= seq![text::dec(m.log.len()) + " stored"@]);
}

/// A text that is cut keeps its front.
pub proof fn a_cut_keeps_the_front(s: Seq<char>, n: nat)
    ensures
        s.len() <= n ==> cut_to(s, n) == s,
        s.len() > n ==> cut_to(s, n) == s.take(n as int),
{
}

/// A result that is kept is read from where it was asked, and one that is not is
/// refused: that it is from before, or that there is none.
pub proof fn a_kept_result_can_be_read(m: MindView, id: u64, offset: Option<u64>)
    requires
        id <= usize::MAX,
        m.base + m.log.len() <= usize::MAX,
        offset matches Some(o) ==> o <= usize::MAX,
    ensures
        m.base <= id < m.base + m.log.len() ==> inspect_answer(m, Some(id), offset).ok
            && text::starts(
            inspect_answer(m, Some(id), offset).body,
            conversation::page(
                m.log[id - m.base].1,
                match offset {
                    Some(o) => o as nat,
                    None => 0,
                },
            ),
        ),
        id < m.base || id >= m.base + m.log.len() ==> !inspect_answer(m, Some(id), offset).ok,
        !inspect_answer(m, None, offset).ok,
        id < m.base ==> inspect_answer(m, Some(id), offset).meta
            == seq!["from before a restart — not kept; run it again if you need it"@],
{
    let i = id as usize as nat;
    assert(i == id);
    if m.base <= id < m.base + m.log.len() {
        let at = match offset {
            Some(o) => o as nat,
            None => 0nat,
        };
        let p = conversation::page(m.log[id - m.base].1, at);
        let body = inspect_answer(m, Some(id), offset).body;
        assert(body.subrange(0, p.len() as int) =~= p);
    }
    if id < m.base {
        assert(inspect_answer(m, Some(id), offset).meta =~= seq![
            "from before a restart — not kept; run it again if you need it"@,
        ]);
    }
}

/// What is used of the window is told in tokens, of all where that is known.
pub proof fn the_budget_is_told(m: MindView, total: u32)
    ensures
        budget_answer(m, total).ok,
        text::starts(budget_answer(m, total).body, text::dec(total as nat)),
        text::has(budget_answer(m, total).body, text::dec(m.log.len())),
        conversation::percent(total, m.window) matches Some(p) ==> (m.window matches Some(w)
            ==> text::has(
            budget_answer(m, total).body,
            "/"@ + text::dec(w as nat) + " tokens ("@ + text::dec(p as nat) + "%)"@,
        )),
{
    let t = text::dec(total as nat);
    let b = budget_answer(m, total).body;
    assert(b.subrange(0, t.len() as int) =~= t);
    let usage = match (conversation::percent(total, m.window), m.window) {
        (Some(p), Some(w)) => t + "/"@ + text::dec(w as nat) + " tokens ("@ + text::dec(p as nat)
            + "%) used last turn"@,
        _ => t + " tokens used last turn (context window unknown for this model)"@,
    };
    let d = text::dec(m.log.len());
    let tail = " tool result(s) stored — BrowseTools to list them."@;
    assert(b == usage + ". "@ + d + tail);
    text::lemma_has_self(d);
    text::lemma_has_right(usage + ". "@, d, d);
    text::lemma_has_left(usage + ". "@ + d, tail, d);
    match (conversation::percent(total, m.window), m.window) {
        (Some(p), Some(w)) => {
            reveal_strlit("%)");
            reveal_strlit("%) used last turn");
            let want = "/"@ + text::dec(w as nat) + " tokens ("@ + text::dec(p as nat) + "%)"@;
            assert(b.subrange(t.len() as int, t.len() + want.len() as int) =~= want);
            assert(text::occurs_at(b, want, t.len() as int));
        },
        _ => {},
    }
}

/// What a call is about is what it was given: the command, the path, the
/// pattern, the words or the id.
pub proof fn the_gist_of_a_call_is_what_it_was_given(a: Json)
    ensures
        gist_of("Bash"@, a) == "$ "@ + json::words_at(a, "command"@),
        gist_of("ReadFile"@, a) == json::words_at(a, "path"@),
        gist_of("WriteFile"@, a) == json::words_at(a, "path"@),
        gist_of("LS"@, a) == json::words_at(a, "path"@),
        gist_of("Edit"@, a) == json::words_at(a, "file_path"@),
        gist_of("MultiEdit"@, a) == json::words_at(a, "file_path"@),
        text::starts(gist_of("Grep"@, a), json::words_at(a, "pattern"@)),
        text::starts(gist_of("Glob"@, a), json::words_at(a, "pattern"@)),
        text::ends(gist_of("SendMessage"@, a), json::words_at(a, "body"@)),
        text::starts(gist_of("TaskUpdate"@, a), json::words_at(a, "task"@)),
        text::ends(gist_of("TaskUpdate"@, a), json::words_at(a, "text"@)),
        text::starts(gist_of("TaskPlan"@, a), json::words_at(a, "task"@)),
        text::ends(gist_of("TaskReassign"@, a), json::words_at(a, "to"@)),
        gist_of("ArtifactRead"@, a) == json::words_at(a, "id"@),
        gist_of("Inspect"@, a) == json::words_at(a, "id"@),
        gist_of("Running"@, a) == json::words_at(a, "id"@),
        gist_of("Cancel"@, a) == json::words_at(a, "id"@),
        gist_of("Artifact"@, a) == json::words_at(a, "text"@),
{
    reveal_strlit("Bash");
    reveal_strlit("ReadFile");
    reveal_strlit("WriteFile");
    reveal_strlit("LS");
    reveal_strlit("Edit");
    reveal_strlit("MultiEdit");
    reveal_strlit("Grep");
    reveal_strlit("Glob");
    reveal_strlit("SendMessage");
    reveal_strlit("TaskUpdate");
    reveal_strlit("TaskPlan");
    reveal_strlit("TaskReassign");
    reveal_strlit("ArtifactRead");
    reveal_strlit("Inspect");
    reveal_strlit("Running");
    reveal_strlit("Cancel");
    reveal_strlit("LocalTask");
    reveal_strlit("Artifact");
    assert("Bash"@.len() == 4);
    assert("ReadFile"@.len() == 8);
    assert("WriteFile"@.len() == 9);
    assert("LS"@.len() == 2);
    assert("Edit"@.len() == 4);
    assert("MultiEdit"@.len() == 9);
    assert("Grep"@.len() == 4);
    assert("Glob"@.len() == 4);
    assert("SendMessage"@.len() == 11);
    assert("TaskUpdate"@.len() == 10);
    assert("TaskPlan"@.len() == 8);
    assert("TaskReassign"@.len() == 12);
    assert("ArtifactRead"@.len() == 12);
    assert("Inspect"@.len() == 7);
    assert("Running"@.len() == 7);
    assert("Cancel"@.len() == 6);
    assert("LocalTask"@.len() == 9);
    assert("Artifact"@.len() == 8);
    assert("Artifact"@[0] == 'A');
    assert("ArtifactRead"@[0] == 'A');
    assert("Bash"@[0] == 'B');
    assert("Edit"@[0] == 'E');
    assert("Glob"@[0] == 'G');
    assert("Glob"@[1] == 'l');
    assert("Grep"@[0] == 'G');
    assert("Grep"@[1] == 'r');
    assert("Inspect"@[0] == 'I');
    assert("LocalTask"@[0] == 'L');
    assert("MultiEdit"@[0] == 'M');
    assert("ReadFile"@[0] == 'R');
    assert("Running"@[0] == 'R');
    assert("TaskPlan"@[0] == 'T');
    assert("TaskReassign"@[0] == 'T');
    assert("WriteFile"@[0] == 'W');
    let g1 = gist_of("Grep"@, a);
    let g2 = gist_of("Glob"@, a);
    let p = json::words_at(a, "pattern"@);
    assert(g1.subrange(0, p.len() as int) =~= p);
    assert(g2.subrange(0, p.len() as int) =~= p);
    let s = gist_of("SendMessage"@, a);
    let b = json::words_at(a, "body"@);
    assert(s.subrange(s.len() - b.len(), s.len() as int) =~= b);
    let u = gist_of("TaskUpdate"@, a);
    let t = json::words_at(a, "task"@);
    let x = json::words_at(a, "text"@);
    assert(u.subrange(0, t.len() as int) =~= t);
    assert(u.subrange(u.len() - x.len(), u.len() as int) =~= x);
    let q = gist_of("TaskPlan"@, a);
    assert(q.subrange(0, t.len() as int) =~= t);
    let r = gist_of("TaskReassign"@, a);
    let to = json::words_at(a, "to"@);
    assert(r.subrange(r.len() - to.len(), r.len() as int) =~= to);
}

/// Who one is is told whole: the name, the model, the platform, the build and
/// the persona.
pub proof fn who_one_is_is_told(
    name: Seq<char>,
    extra: Seq<char>,
    model: Seq<char>,
    os: Seq<char>,
    arch: Seq<char>,
    version: Seq<char>,
    persona: Seq<char>,
)
    ensures
        ({
            let o = about_answer(name, extra, model, os, arch, version, persona);
            &&& o.ok
            &&& text::starts(o.body, "Name: "@ + name)
            &&& text::ends(o.body, persona)
            &&& text::has(o.body, "Model: "@ + model + "\nPlatform: "@ + os + " "@ + arch
                + "\nBuild: kot "@ + version)
            &&& text::has(o.body, extra)
        }),
{
    let b = about_answer(name, extra, model, os, arch, version, persona).body;
    let n = "Name: "@ + name;
    assert(b.subrange(0, n.len() as int) =~= n);
    assert(b.subrange(b.len() - persona.len(), b.len() as int) =~= persona);
    let mid = if extra.len() == 0 {
        ""@
    } else {
        extra + "\n"@
    };
    let w = "Model: "@ + model + "\nPlatform: "@ + os + " "@ + arch + "\nBuild: kot "@ + version;
    let front = n + "\n"@ + mid;
    assert(b.subrange(front.len() as int, front.len() + w.len() as int) =~= w);
    assert(text::occurs_at(b, w, front.len() as int));
    let start = (n + "\n"@).len() as int;
    assert(b.subrange(start, start + extra.len()) =~= extra);
    assert(text::occurs_at(b, extra, start));
}

/// A long result is kept to be shortened later, with its number, its tool, its
/// length and when it came; a short one is not.
pub proof fn long_results_are_kept_to_be_shortened(
    m: MindView,
    rs: Seq<(nat, Seq<char>)>,
    r: (nat, Seq<char>),
    turn: nat,
)
    ensures
        with_fresh(m, Seq::empty(), turn) == m.fresh,
        ({
            let row = "[#"@ + text::dec(r.0) + " "@ + named(m, r.0).0 + "] "@ + r.1;
            let before = with_fresh(m, rs, turn);
            let after = with_fresh(m, rs.push(r), turn);
            &&& row.len() <= 400 ==> after == before
            &&& row.len() > 400 ==> after.len() == before.len() + 1 && after.drop_last() == before
                && after.last().id == r.0 && after.last().name == named(m, r.0).0
                && after.last().full == row && after.last().turn == turn && after.last().chars
                == named(m, r.0).1.len()
        }),
{
    assert(rs.push(r).drop_last() =~= rs);
    let before = with_fresh(m, rs, turn);
    let after = with_fresh(m, rs.push(r), turn);
    if after.len() > before.len() {
        assert(after.drop_last() =~= before);
    }
}

/// The warnings say what they warn of: how full the window is and when it is cut,
/// and that this turn is the last of eight.
pub proof fn warnings_say_what_they_warn_of(pct: u32, force_at: u32)
    ensures
        text::has(budget_warning(pct, force_at), text::dec(pct as nat)),
        text::has(budget_warning(pct, force_at), text::dec(force_at as nat)),
        text::has(last_turn_note(), text::dec(8)),
{
    let a = "⚠ context budget: "@;
    let b = text::dec(pct as nat);
    let c = "% of your window used. Consider calling Compact soon (past tool results survive it) — this session force-compacts at "@;
    let d = text::dec(force_at as nat);
    let e = "%."@;
    text::lemma_has_self(b);
    text::lemma_has_right(a, b, b);
    text::lemma_has_left(a + b, c, b);
    text::lemma_has_left(a + b + c, d, b);
    text::lemma_has_left(a + b + c + d, e, b);
    text::lemma_has_self(d);
    text::lemma_has_right(a + b + c, d, d);
    text::lemma_has_left(a + b + c + d, e, d);
    let x = "(This is your last turn without someone writing to you: "@;
    let y = text::dec(8);
    let z = " in a row. After it, tool results are held until a message arrives, then fed with it. If you're in the middle of something, SendMessage whoever asked now: what you've done, what's still running, what's next.)"@;
    text::lemma_has_self(y);
    text::lemma_has_right(x, y, y);
    text::lemma_has_left(x + y, z, y);
}

} // verus!
