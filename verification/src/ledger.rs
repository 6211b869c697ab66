//! A node's log of what happened: a bounded ring of numbered entries for
//! readers, and the effects of the open block, which become its body.

use crate::effects;
use crate::effects::Effect;
use crate::json;
use crate::json::{Json, Tree};
use crate::keys::Account;
use crate::outside;
use crate::text;
use vstd::prelude::*;
use vstd::string::*;

verus! {

/// How long a block takes, in milliseconds.
pub const BLOCK_MS: u64 = 6000;

/// How many entries the log keeps.
pub const LOG_CAP: usize = 4096;

// ---------------------------------------------------------------------
// Block bodies
// ---------------------------------------------------------------------

/// A block body: its effects, encoded, and behind them the time it was sealed.
pub open spec fn sealed(effects: Seq<u8>, at: u64) -> Seq<u8> {
    effects + vstd::bytes::spec_u64_to_le_bytes(at)
}

/// A block's body: its encoded effects, then the seal time in unix
/// milliseconds. The time is put behind the effects, so a reader that knows
/// nothing of it still reads the effects.
pub fn seal_body(effects: &Vec<u8>, at: u64) -> (body: Vec<u8>)
    ensures
        body@ == sealed(effects@, at),
{
    let mut body: Vec<u8> = Vec::new();
    body.extend_from_slice(effects.as_slice());
    let mut time = outside::scale_encode_u64(at);
    body.append(&mut time);
    assert(body@ =~= sealed(effects@, at));
    body
}

/// What a body holds, where its first `used` bytes are the effects: those
/// bytes, and the time, where exactly eight more follow.
pub open spec fn opened(body: Seq<u8>, used: int) -> (Seq<u8>, Option<u64>) {
    let rest = body.skip(used);
    (
        body.take(used),
        if rest.len() == 8 {
            Some(vstd::bytes::spec_u64_from_le_bytes(rest))
        } else {
            None
        },
    )
}

/// A body's effects, still encoded, and when it was sealed. `used` is how many
/// bytes the effects take; a body from before seal times has nothing behind
/// them.
pub fn open_body(body: &Vec<u8>, used: usize) -> (r: (Vec<u8>, Option<u64>))
    requires
        used <= body.len(),
    ensures
        (r.0@, r.1) == opened(body@, used as int),
{
    let whole = body.as_slice();
    let head = vstd::slice::slice_subrange(whole, 0, used);
    let rest = vstd::slice::slice_subrange(whole, used, body.len());
    let mut effects: Vec<u8> = Vec::new();
    effects.extend_from_slice(head);
    assert(effects@ =~= body@.take(used as int));
    assert(rest@ =~= body@.skip(used as int));
    let at = if rest.len() == 8 {
        assert(rest@.take(8) =~= rest@);
        outside::scale_decode_u64(rest)
    } else {
        None
    };
    (effects, at)
}

/// A sealed body opens to its effects and its time; a reader that stops behind
/// the effects reads the same effects.
pub proof fn sealed_bodies_open(effects: Seq<u8>, at: u64)
    ensures
        opened(sealed(effects, at), effects.len() as int) == (effects, Some(at)),
        sealed(effects, at).take(effects.len() as int) == effects,
{
    vstd::bytes::lemma_auto_spec_u64_to_from_le_bytes();
    let time = vstd::bytes::spec_u64_to_le_bytes(at);
    assert(sealed(effects, at).take(effects.len() as int) =~= effects);
    assert(sealed(effects, at).skip(effects.len() as int) =~= time);
}

/// A body from before seal times opens to its effects, and to no time.
pub proof fn older_bodies_have_no_time(effects: Seq<u8>)
    ensures
        opened(effects, effects.len() as int) == (effects, None::<u64>),
{
    assert(effects.take(effects.len() as int) =~= effects);
}

// ---------------------------------------------------------------------
// The log
// ---------------------------------------------------------------------

/// An effect and the place it has in the log.
pub struct LogEntry {
    pub seq: u64,
    pub block: u64,
    /// As readers are told it.
    pub effect: Json,
    /// Who must take a turn because of it.
    pub wakes: Option<String>,
    /// When its block was sealed, in unix milliseconds, where that is known.
    pub at: Option<u64>,
}

#[verifier::ext_equal]
pub struct EntryView {
    pub seq: u64,
    pub block: u64,
    pub effect: Tree,
    pub wakes: Option<Seq<char>>,
    pub at: Option<u64>,
}

pub open spec fn entry_view(e: LogEntry) -> EntryView {
    EntryView {
        seq: e.seq,
        block: e.block,
        effect: json::tree(e.effect),
        wakes: text::text_view(e.wakes),
        at: e.at,
    }
}

pub open spec fn entry_views(v: Seq<LogEntry>) -> Seq<EntryView> {
    v.map_values(|e: LogEntry| entry_view(e))
}

/// What the chain emitted: an effect, and whether and whom it wakes.
pub struct Happened {
    pub effect: Effect,
    pub wakes: bool,
    pub to: Option<Account>,
}

pub struct Log {
    pub entries: Vec<LogEntry>,
    /// The newest entry's number.
    pub seq: u64,
    /// The open block.
    pub block: u64,
    /// The open block's effects: its body when it closes.
    pub pending: Vec<Effect>,
}

#[verifier::ext_equal]
pub struct LogView {
    pub entries: Seq<EntryView>,
    pub seq: u64,
    pub block: u64,
    pub pending: Seq<Effect>,
}

impl View for Log {
    type V = LogView;

    open spec fn view(&self) -> LogView {
        LogView {
            entries: entry_views(self.entries@),
            seq: self.seq,
            block: self.block,
            pending: self.pending@,
        }
    }
}

pub open spec fn empty_log() -> LogView {
    LogView { entries: seq![], seq: 0, block: 1, pending: seq![] }
}

/// The entry an effect gets.
pub open spec fn entry_for(l: LogView, h: Happened) -> EntryView {
    EntryView {
        seq: (l.seq + 1) as u64,
        block: l.block,
        effect: effects::effect_tree(h.effect),
        wakes: effects::woken(h.effect, h.wakes, h.to),
        at: None,
    }
}

/// The log with one more effect: numbered, at the end, the oldest gone where
/// the log is full; and in the open block, unless it is off the record.
pub open spec fn absorbed_one(l: LogView, h: Happened) -> LogView {
    LogView {
        entries: (if l.entries.len() >= LOG_CAP {
            l.entries.skip(1)
        } else {
            l.entries
        }).push(entry_for(l, h)),
        seq: (l.seq + 1) as u64,
        block: l.block,
        pending: if effects::unrecorded(h.effect) {
            l.pending
        } else {
            l.pending.push(h.effect)
        },
    }
}

pub open spec fn absorbed(l: LogView, hs: Seq<Happened>) -> LogView
    decreases hs.len(),
{
    if hs.len() == 0 {
        l
    } else {
        absorbed(absorbed_one(l, hs[0]), hs.skip(1))
    }
}

/// From the end, an entry of block `height` gets the time; an entry of an
/// older block ends the search.
pub open spec fn stamped(v: Seq<EntryView>, height: u64, at: Option<u64>) -> Seq<EntryView>
    decreases v.len(),
{
    if v.len() == 0 || v.last().block < height {
        v
    } else {
        stamped(v.drop_last(), height, at).push(
            if v.last().block == height {
                (EntryView { at: at, ..v.last() })
            } else {
                v.last()
            },
        )
    }
}

/// The entries behind a reader's place.
pub open spec fn after(v: Seq<EntryView>, since: u64) -> Seq<EntryView>
    decreases v.len(),
{
    if v.len() == 0 {
        seq![]
    } else if v.last().seq > since {
        after(v.drop_last(), since).push(v.last())
    } else {
        after(v.drop_last(), since)
    }
}

pub open spec fn borrowed(v: Seq<&LogEntry>) -> Seq<EntryView> {
    v.map_values(|e: &LogEntry| entry_view(*e))
}

impl Log {
    /// A log at genesis, with the first block open.
    pub fn new() -> (r: Log)
        ensures
            r@ == empty_log(),
    {
        let r = Log { entries: Vec::new(), seq: 0, block: 1, pending: Vec::new() };
        assert(r@.entries =~= seq![]);
        r
    }

    fn absorb_one(&mut self, h: Happened)
        requires
            old(self).seq < u64::MAX,
        ensures
            final(self)@ == absorbed_one(old(self)@, h),
            final(self).seq == old(self).seq + 1,
    {
        let ghost l = self@;
        self.seq = self.seq + 1;
        let wakes = effects::wake_target(&h.effect, h.wakes, &h.to);
        let entry = LogEntry {
            seq: self.seq,
            block: self.block,
            effect: effects::render(&h.effect),
            wakes,
            at: None,
        };
        let ghost one = entry_view(entry);
        if self.entries.len() >= LOG_CAP {
            self.entries.remove(0);
            assert(entry_views(self.entries@) =~= l.entries.skip(1));
        }
        let ghost kept = self.entries@;
        self.entries.push(entry);
        assert(entry_views(self.entries@) =~= entry_views(kept).push(one));
        if !effects::is_unrecorded(&h.effect) {
            self.pending.push(h.effect);
        }
    }

    /// Takes what the chain emitted into the log and the open block, in order.
    pub fn absorb(&mut self, happened: Vec<Happened>)
        requires
            old(self).seq + happened.len() <= u64::MAX,
        ensures
            final(self)@ == absorbed(old(self)@, happened@),
    {
        let mut rest = happened;
        let ghost was = self@;
        let ghost all = happened@;
        while rest.len() > 0
            invariant
                self.seq + rest.len() <= u64::MAX,
                absorbed(self@, rest@) == absorbed(was, all),
            decreases rest.len(),
        {
            let ghost before = rest@;
            let h = rest.remove(0);
            assert(rest@ =~= before.skip(1));
            self.absorb_one(h);
        }
    }

    /// Gives every entry of block `height` its seal time.
    pub fn stamp_block(&mut self, height: u64, at: Option<u64>)
        ensures
            final(self)@ == (LogView {
                entries: stamped(old(self)@.entries, height, at),
                ..old(self)@
            }),
    {
        let ghost was = self@;
        let mut n: usize = self.entries.len();
        assert(was.entries.take(n as int) =~= was.entries);
        assert(self@.entries =~= was.entries);
        // Entries from `n` on are as they end up; those before are untouched.
        while n > 0 && self.entries[n - 1].block >= height
            invariant
                n <= self.entries.len(),
                self.entries.len() == was.entries.len(),
                self@.seq == was.seq,
                self@.block == was.block,
                self@.pending == was.pending,
                self@.entries.take(n as int) == was.entries.take(n as int),
                stamped(was.entries, height, at) == stamped(was.entries.take(n as int), height, at)
                    + self@.entries.skip(n as int),
            decreases n,
        {
            let ghost before = self@.entries;
            let ghost front = was.entries.take(n as int);
            assert(before.take(n as int)[n - 1] == front[n - 1]);
            assert(front.last() == entry_view(self.entries@[n - 1]));
            assert(front.drop_last() =~= was.entries.take(n - 1));
            if self.entries[n - 1].block == height {
                let mut e = self.entries.remove(n - 1);
                e.at = at;
                self.entries.insert(n - 1, e);
            }
            assert(self@.entries =~= before.update(
                n - 1,
                if before[n - 1].block == height {
                    EntryView { at: at, ..before[n - 1] }
                } else {
                    before[n - 1]
                },
            ));
            assert(self@.entries.take(n - 1) =~= was.entries.take(n - 1)) by {
                assert forall|k: int| 0 <= k < n - 1 implies self@.entries[k] == was.entries[k] by {
                    assert(before.take(n as int)[k] == was.entries.take(n as int)[k]);
                }
            }
            assert(stamped(front, height, at) + before.skip(n as int) =~= stamped(
                was.entries.take(n - 1),
                height,
                at,
            ) + self@.entries.skip(n - 1));
            n = n - 1;
        }
        proof {
            let front = was.entries.take(n as int);
            if n > 0 {
                assert(self@.entries.take(n as int)[n - 1] == front[n - 1]);
            }
            assert(stamped(front, height, at) =~= front);
            assert(self@.entries =~= self@.entries.take(n as int) + self@.entries.skip(n as int));
        }
    }

    /// The entries a reader at `since` has not had.
    pub fn events(&self, since: u64) -> (out: Vec<&LogEntry>)
        ensures
            borrowed(out@) == after(self@.entries, since),
    {
        let mut out: Vec<&LogEntry> = Vec::new();
        let mut i: usize = 0;
        assert(self@.entries.take(0) =~= Seq::<EntryView>::empty());
        while i < self.entries.len()
            invariant
                i <= self.entries.len(),
                borrowed(out@) == after(self@.entries.take(i as int), since),
            decreases self.entries.len() - i,
        {
            let ghost kept = out@;
            assert(self@.entries.take(i + 1).drop_last() =~= self@.entries.take(i as int));
            assert(self@.entries.take(i + 1).last() == entry_view(self.entries@[i as int]));
            if self.entries[i].seq > since {
                out.push(&self.entries[i]);
                assert(borrowed(out@) =~= borrowed(kept).push(
                    entry_view(self.entries@[i as int]),
                ));
            }
            i = i + 1;
        }
        assert(self@.entries.take(i as int) =~= self@.entries);
        out
    }

    /// Throws the log away, to be rebuilt with `block` open.
    pub fn restart(&mut self, block: u64)
        ensures
            final(self)@ == (LogView { block: block, ..empty_log() }),
    {
        self.entries = Vec::new();
        self.seq = 0;
        self.pending = Vec::new();
        self.block = block;
        assert(self@.entries =~= seq![]);
    }

    /// Closes block `height` with what was decided of it, and opens the next:
    /// its effects are told to readers with its time, and none of them is left
    /// for another body.
    pub fn fold(&mut self, height: u64, happened: Vec<Happened>, at: Option<u64>)
        requires
            old(self).seq + happened.len() <= u64::MAX,
            height < u64::MAX,
        ensures
            final(self)@ == folded(old(self)@, height, happened@, at),
    {
        self.absorb(happened);
        self.stamp_block(height, at);
        self.pending = Vec::new();
        self.block = height + 1;
        assert(self@.pending =~= seq![]);
    }
}

pub open spec fn folded(
    l: LogView,
    height: u64,
    happened: Seq<Happened>,
    at: Option<u64>,
) -> LogView {
    let a = absorbed(l, happened);
    LogView {
        entries: stamped(a.entries, height, at),
        seq: a.seq,
        block: (height + 1) as u64,
        pending: seq![],
    }
}

/// An entry as it goes to a reader; a time that is not known is left out.
pub open spec fn entry_members(e: EntryView) -> Seq<(Seq<char>, Tree)> {
    let m = seq![
        ("seq"@, Tree::Num(e.seq)),
        ("block"@, Tree::Num(e.block)),
        ("effect"@, e.effect),
        ("wakes"@, json::text_or_null(e.wakes)),
    ];
    match e.at {
        Some(t) => m.push(("at"@, Tree::Num(t))),
        None => m,
    }
}

/// An entry as it goes to a reader.
pub fn entry_json(e: LogEntry) -> (r: Json)
    ensures
        json::tree(r) == Tree::Object(entry_members(entry_view(e))),
{
    let mut m = json::members();
    let ghost v = entry_view(e);
    json::member(&mut m, "seq", Json::Num(e.seq));
    json::member(&mut m, "block", Json::Num(e.block));
    json::member(&mut m, "effect", e.effect);
    json::member(&mut m, "wakes", json::string_or_null(&e.wakes));
    match e.at {
        Some(t) => {
            json::member(&mut m, "at", Json::Num(t));
        },
        None => {},
    }
    assert(json::tree_members(m@) =~= entry_members(v));
    Json::Object(m)
}

// ---------------------------------------------------------------------
// Laws
// ---------------------------------------------------------------------

/// A log as a node keeps it: no longer than it may be, numbered without a gap
/// up to the newest, and no block before an older one.
pub open spec fn in_order(l: LogView) -> bool {
    &&& l.entries.len() <= LOG_CAP
    &&& l.entries.len() <= l.seq
    &&& forall|i: int|
        0 <= i < l.entries.len() ==> (#[trigger] l.entries[i]).seq == l.seq - (l.entries.len() - 1
            - i)
    &&& forall|i: int, j: int|
        0 <= i <= j < l.entries.len() ==> (#[trigger] l.entries[i]).block <= (
        #[trigger] l.entries[j]).block
    &&& forall|i: int| 0 <= i < l.entries.len() ==> (#[trigger] l.entries[i]).block <= l.block
}

/// Whatever the chain emits, the log stays bounded, numbered without a gap and
/// in the order of its blocks; and each effect moves the newest number by one.
pub proof fn the_log_stays_in_order(l: LogView, hs: Seq<Happened>)
    requires
        in_order(l),
        l.seq + hs.len() <= u64::MAX,
    ensures
        in_order(absorbed(l, hs)),
        absorbed(l, hs).seq == l.seq + hs.len(),
        absorbed(l, hs).block == l.block,
    decreases hs.len(),
{
    if hs.len() > 0 {
        let one = absorbed_one(l, hs[0]);
        assert(in_order(one)) by {
            let kept = if l.entries.len() >= LOG_CAP {
                l.entries.skip(1)
            } else {
                l.entries
            };
            assert(one.entries =~= kept.push(entry_for(l, hs[0])));
            assert forall|i: int| 0 <= i < kept.len() implies (#[trigger] kept[i]).seq == l.seq - (
            kept.len() - 1 - i) && kept[i].block <= l.block by {
                if l.entries.len() >= LOG_CAP {
                    assert(kept[i] == l.entries[i + 1]);
                }
            }
            assert forall|i: int, j: int| 0 <= i <= j < one.entries.len() implies (
            #[trigger] one.entries[i]).block <= (#[trigger] one.entries[j]).block by {
                if j < kept.len() {
                    if l.entries.len() >= LOG_CAP {
                        assert(kept[i] == l.entries[i + 1] && kept[j] == l.entries[j + 1]);
                    }
                } else if i < kept.len() {
                    assert(kept[i].block <= l.block);
                }
            }
        }
        the_log_stays_in_order(one, hs.skip(1));
    }
}

pub open spec fn recorded(hs: Seq<Happened>) -> Seq<Effect>
    decreases hs.len(),
{
    if hs.len() == 0 {
        seq![]
    } else if effects::unrecorded(hs[0].effect) {
        recorded(hs.skip(1))
    } else {
        seq![hs[0].effect] + recorded(hs.skip(1))
    }
}

/// The open block holds what was emitted, in order, but nothing that was said
/// off the record.
pub proof fn nothing_off_the_record_is_sealed(l: LogView, hs: Seq<Happened>)
    ensures
        absorbed(l, hs).pending == l.pending + recorded(hs),
        forall|i: int|
            0 <= i < recorded(hs).len() ==> !effects::unrecorded(#[trigger] recorded(hs)[i]),
    decreases hs.len(),
{
    if hs.len() == 0 {
        assert(l.pending + recorded(hs) =~= l.pending);
    } else {
        let one = absorbed_one(l, hs[0]);
        nothing_off_the_record_is_sealed(one, hs.skip(1));
        let rest = recorded(hs.skip(1));
        if effects::unrecorded(hs[0].effect) {
            assert(recorded(hs) == rest);
        } else {
            assert(l.pending.push(hs[0].effect) + rest =~= l.pending + (seq![hs[0].effect] + rest));
            assert forall|i: int| 0 <= i < recorded(hs).len() implies !effects::unrecorded(
                #[trigger] recorded(hs)[i],
            ) by {
                if i > 0 {
                    assert(recorded(hs)[i] == rest[i - 1]);
                }
            }
        }
    }
}

/// What is said off the record is still told to whoever reads along: every
/// effect is the newest entry the moment it is taken in.
pub proof fn everything_is_told(l: LogView, h: Happened)
    ensures
        absorbed_one(l, h).entries.last() == entry_for(l, h),
{
}

/// Sealing a block gives its time to every entry of it and to no other.
pub proof fn a_seal_reaches_its_whole_block(v: Seq<EntryView>, height: u64, at: Option<u64>)
    requires
        forall|i: int, j: int|
            0 <= i <= j < v.len() ==> (#[trigger] v[i]).block <= (#[trigger] v[j]).block,
    ensures
        stamped(v, height, at).len() == v.len(),
        forall|i: int|
            0 <= i < v.len() ==> (#[trigger] stamped(v, height, at)[i]) == (if v[i].block
                == height {
                (EntryView { at: at, ..v[i] })
            } else {
                v[i]
            }),
    decreases v.len(),
{
    if v.len() == 0 || v.last().block < height {
        assert forall|i: int| 0 <= i < v.len() implies (#[trigger] v[i]).block != height by {
            assert(v[i].block <= v[v.len() - 1].block);
        }
    } else {
        let front = v.drop_last();
        assert forall|i: int, j: int| 0 <= i <= j < front.len() implies (#[trigger] front[i]).block
            <= (#[trigger] front[j]).block by {
            assert(front[i] == v[i] && front[j] == v[j]);
        }
        a_seal_reaches_its_whole_block(front, height, at);
        assert forall|i: int| 0 <= i < v.len() implies (#[trigger] stamped(v, height, at)[i]) == (
        if v[i].block == height {
            (EntryView { at: at, ..v[i] })
        } else {
            v[i]
        }) by {
            if i < front.len() {
                assert(stamped(front, height, at)[i] == (if front[i].block == height {
                    (EntryView { at: at, ..front[i] })
                } else {
                    front[i]
                }));
            }
        }
    }
}

/// A reader that has had everything up to `since` is given the rest, in order
/// and without a gap, as far back as the log goes.
pub proof fn readers_miss_nothing(l: LogView, since: u64)
    requires
        in_order(l),
        since <= l.seq,
    ensures
        ({
            let n = if l.seq - since < l.entries.len() {
                l.seq - since
            } else {
                l.entries.len() as int
            };
            after(l.entries, since) == l.entries.skip(l.entries.len() - n)
        }),
{
    let n = if l.seq - since < l.entries.len() {
        l.seq - since
    } else {
        l.entries.len() as int
    };
    lemma_after(l.entries, since, l.entries.len() - n);
}

proof fn lemma_after(v: Seq<EntryView>, since: u64, cut: int)
    requires
        0 <= cut <= v.len(),
        forall|i: int| 0 <= i < v.len() ==> ((#[trigger] v[i]).seq > since <==> i >= cut),
    ensures
        after(v, since) == v.skip(cut),
    decreases v.len(),
{
    if v.len() > 0 {
        let front = v.drop_last();
        assert(v.last() == v[v.len() - 1]);
        if cut == v.len() {
            assert forall|i: int| 0 <= i < front.len() implies ((#[trigger] front[i]).seq > since
                <==> i >= cut - 1) by {
                assert(front[i] == v[i]);
            }
            lemma_after(front, since, cut - 1);
            assert(front.skip(cut - 1) =~= v.skip(cut));
        } else {
            assert forall|i: int| 0 <= i < front.len() implies ((#[trigger] front[i]).seq > since
                <==> i >= cut) by {
                assert(front[i] == v[i]);
            }
            lemma_after(front, since, cut);
            assert(front.skip(cut).push(v.last()) =~= v.skip(cut));
        }
    } else {
        assert(v.skip(cut) =~= seq![]);
    }
}

/// An entry tells what happened: the effect itself, numbered behind the newest,
/// in the block that is open, not yet sealed, and waking whom the chain says. It
/// is the last of the log, and those before it stay as they were but for the
/// oldest of a full log. It is in the open block unless it was said off the
/// record.
pub proof fn an_entry_tells_what_happened(l: LogView, h: Happened)
    requires
        l.seq < u64::MAX,
        l.entries.len() <= 4096,
    ensures
        ({
            let after = absorbed_one(l, h);
            let e = after.entries.last();
            &&& e.seq == l.seq + 1
            &&& e.block == l.block
            &&& e.effect == effects::effect_tree(h.effect)
            &&& e.at is None
            &&& e.wakes == effects::woken(h.effect, h.wakes, h.to)
            &&& after.seq == l.seq + 1
            &&& after.block == l.block
            &&& l.entries.len() < 4096 ==> after.entries.drop_last() == l.entries
            &&& l.entries.len() == 4096 ==> after.entries.drop_last() == l.entries.skip(1)
            &&& (h.effect matches Effect::Said { off_record, .. } && off_record) ==> after.pending
                == l.pending
            &&& !(h.effect matches Effect::Said { off_record, .. } && off_record) ==> after.pending
                == l.pending.push(h.effect)
        }),
{
    let after = absorbed_one(l, h);
    if l.entries.len() < 4096 {
        assert(after.entries.drop_last() =~= l.entries);
    } else {
        assert(after.entries.drop_last() =~= l.entries.skip(1));
    }
}

/// What the chain emits is taken in one after the other, in its order.
pub proof fn effects_are_taken_in_order(l: LogView, a: Seq<Happened>, b: Seq<Happened>)
    ensures
        absorbed(l, a + b) == absorbed(absorbed(l, a), b),
        a.len() == 1 ==> absorbed(l, a) == absorbed_one(l, a[0]),
        a.len() == 0 ==> absorbed(l, a) == l,
    decreases a.len(),
{
    if a.len() == 0 {
        assert(a + b =~= b);
    } else {
        assert((a + b).skip(1) =~= a.skip(1) + b);
        effects_are_taken_in_order(absorbed_one(l, a[0]), a.skip(1), b);
    }
}

/// A block that is closed leaves nothing for another body: the next one is open,
/// and the entries are those of before and what was decided, the closed block's
/// with its time.
pub proof fn a_closed_block_is_done_with(
    l: LogView,
    height: u64,
    hs: Seq<Happened>,
    at: Option<u64>,
)
    requires
        height < u64::MAX,
    ensures
        folded(l, height, hs, at).pending.len() == 0,
        folded(l, height, hs, at).block == height + 1,
        folded(l, height, hs, at).seq == absorbed(l, hs).seq,
        folded(l, height, hs, at).entries == stamped(absorbed(l, hs).entries, height, at),
{
}

/// A reader is given exactly the entries behind its place, each once and in the
/// log's order, whatever the log holds.
pub proof fn readers_are_given_what_is_behind_them(v: Seq<EntryView>, since: u64)
    ensures
        forall|e: EntryView|
            #[trigger] after(v, since).contains(e) <==> v.contains(e) && e.seq > since,
        forall|e: EntryView| #[trigger]
            after(v, since).to_multiset().count(e) == (if e.seq > since {
                v.to_multiset().count(e)
            } else {
                0
            }),
    decreases v.len(),
{
    broadcast use vstd::seq_lib::group_to_multiset_ensures;

    if v.len() > 0 {
        let front = v.drop_last();
        readers_are_given_what_is_behind_them(front, since);
        assert(v =~= front.push(v.last()));
        let kept = after(front, since);
        assert forall|e: EntryView| #[trigger] after(v, since).to_multiset().count(e) == (if e.seq
            > since {
            v.to_multiset().count(e)
        } else {
            0
        }) by {
            assert(kept.to_multiset().count(e) == (if e.seq > since {
                front.to_multiset().count(e)
            } else {
                0
            }));
        }
        assert forall|e: EntryView|
            #[trigger] after(v, since).contains(e) <==> v.contains(e) && e.seq > since by {
            assert(after(v, since).to_multiset().count(e) == (if e.seq > since {
                v.to_multiset().count(e)
            } else {
                0
            }));
        }
    } else {
        assert forall|e: EntryView| #[trigger] after(v, since).to_multiset().count(e) == (if e.seq
            > since {
            v.to_multiset().count(e)
        } else {
            0
        }) by {}
    }
}

/// An entry reads back as it is in the log: its number, its block, the effect,
/// whom it wakes, and when it was sealed if it was.
pub proof fn entries_read_back(e: EntryView, j: Json)
    requires
        json::tree(j) == Tree::Object(entry_members(e)),
    ensures
        json::num_at(j, "seq"@) == Some(e.seq),
        json::num_at(j, "block"@) == Some(e.block),
        json::under(json::tree(j), "effect"@) == Some(e.effect),
        json::text_at(j, "wakes"@) == e.wakes,
        json::num_at(j, "at"@) == e.at,
{
    reveal_strlit("seq");
    reveal_strlit("block");
    reveal_strlit("effect");
    reveal_strlit("wakes");
    reveal_strlit("at");
    assert("seq"@.len() == 3);
    assert("block"@.len() == 5);
    assert("effect"@.len() == 6);
    assert("wakes"@.len() == 5);
    assert("at"@.len() == 2);
    assert("block"@[0] == 'b');
    assert("wakes"@[0] == 'w');
    reveal_with_fuel(json::first_under, 7);
    json::values_read_as_built(j, "seq"@);
    json::values_read_as_built(j, "block"@);
    json::values_read_as_built(j, "effect"@);
    json::values_read_as_built(j, "wakes"@);
    json::values_read_as_built(j, "at"@);
}

} // verus!
