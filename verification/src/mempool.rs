//! Extrinsics on their way: those a node could not hand to the primary, those
//! it carries for a peer, and what it can answer about one by its hash.

use crate::json;
use crate::json::{Json, Tree};
use crate::keys;
use crate::outside;
use crate::text;
use vstd::prelude::*;
use vstd::string::*;

verus! {

/// An extrinsic's name.
pub type TxHash = [u8; 32];

/// How many extrinsics a node queues.
pub const MEMPOOL_CAP: usize = 512;

/// How many hashes a node can answer about.
pub const TX_STATUS_CAP: usize = 1024;

/// How many queued extrinsics one status answer offers.
pub const CARRY_PER_POLL: usize = 16;

/// How many carried hashes a node keeps announcing.
pub const CARRIED_KEEP: usize = 64;

/// How long an extrinsic stays queued, in milliseconds.
pub const MEMPOOL_TTL_MS: u64 = 900_000;

// ---------------------------------------------------------------------
// What became of an extrinsic
// ---------------------------------------------------------------------

#[derive(Clone, Copy, Debug, PartialEq, Eq, Structural)]
pub enum TxState {
    Pending,
    Applied { height: u64 },
    Sealed { height: u64 },
}

pub open spec fn state_members(s: TxState) -> Seq<(Seq<char>, Tree)> {
    match s {
        TxState::Pending => seq![("status"@, Tree::Str("pending"@))],
        TxState::Applied { height } => seq![
            ("status"@, Tree::Str("applied"@)),
            ("height"@, Tree::Num(height)),
        ],
        TxState::Sealed { height } => seq![
            ("status"@, Tree::Str("sealed"@)),
            ("height"@, Tree::Num(height)),
        ],
    }
}

impl TxState {
    fn members(self) -> (m: Vec<(String, Json)>)
        ensures
            json::tree_members(m@) == state_members(self),
    {
        let mut m = json::members();
        match self {
            TxState::Pending => {
                json::member(&mut m, "status", json::string("pending"));
            },
            TxState::Applied { height } => {
                json::member(&mut m, "status", json::string("applied"));
                json::member(&mut m, "height", Json::Num(height));
            },
            TxState::Sealed { height } => {
                json::member(&mut m, "status", json::string("sealed"));
                json::member(&mut m, "height", Json::Num(height));
            },
        }
        m
    }

    /// The state as it is told.
    pub fn json(self) -> (r: Json)
        ensures
            json::tree(r) == Tree::Object(state_members(self)),
    {
        Json::Object(self.members())
    }
}

/// The states known, oldest hash first.
pub open spec fn known(v: Seq<(Seq<u8>, TxState)>, h: Seq<u8>) -> Option<TxState>
    decreases v.len(),
{
    if v.len() == 0 {
        None
    } else if v[0].0 == h {
        Some(v[0].1)
    } else {
        known(v.skip(1), h)
    }
}

pub open spec fn renoted(
    v: Seq<(Seq<u8>, TxState)>,
    h: Seq<u8>,
    st: TxState,
) -> Seq<(Seq<u8>, TxState)> {
    Seq::new(
        v.len(),
        |i: int|
            if v[i].0 == h {
                (h, st)
            } else {
                v[i]
            },
    )
}

/// The states with that of one hash set: in its place where it is known, else
/// at the end, and then the oldest goes where there are too many.
pub open spec fn noted(
    v: Seq<(Seq<u8>, TxState)>,
    h: Seq<u8>,
    st: TxState,
) -> Seq<(Seq<u8>, TxState)> {
    if known(v, h) is Some {
        renoted(v, h, st)
    } else if v.len() >= TX_STATUS_CAP {
        v.skip(1).push((h, st))
    } else {
        v.push((h, st))
    }
}

/// What was applied in the block that closed is sealed.
pub open spec fn sealed_in(st: TxState, closing: u64) -> TxState {
    match st {
        TxState::Applied { height } => if height == closing {
            TxState::Sealed { height }
        } else {
            st
        },
        _ => st,
    }
}

/// The states once block `closing` was sealed.
pub open spec fn sealed_all(v: Seq<(Seq<u8>, TxState)>, closing: u64) -> Seq<(Seq<u8>, TxState)> {
    Seq::new(v.len(), |i: int| (v[i].0, sealed_in(v[i].1, closing)))
}

// ---------------------------------------------------------------------
// The queue
// ---------------------------------------------------------------------

/// A queued extrinsic.
pub struct Held {
    pub hash: TxHash,
    pub bytes: Vec<u8>,
    pub at: u64,
    /// A peer that polls this node took it on.
    pub carried: bool,
}

#[verifier::ext_equal]
pub struct HeldView {
    pub hash: Seq<u8>,
    pub bytes: Seq<u8>,
    pub at: u64,
    pub carried: bool,
}

pub open spec fn held_view(e: Held) -> HeldView {
    HeldView { hash: e.hash@, bytes: e.bytes@, at: e.at, carried: e.carried }
}

pub open spec fn held_views(v: Seq<Held>) -> Seq<HeldView> {
    v.map_values(|e: Held| held_view(e))
}

/// The entry of a hash.
pub open spec fn entry_of(v: Seq<HeldView>, h: Seq<u8>) -> Option<HeldView>
    decreases v.len(),
{
    if v.len() == 0 {
        None
    } else if v[0].hash == h {
        Some(v[0])
    } else {
        entry_of(v.skip(1), h)
    }
}

/// The entries but those of a hash.
pub open spec fn without(v: Seq<HeldView>, h: Seq<u8>) -> Seq<HeldView>
    decreases v.len(),
{
    if v.len() == 0 {
        seq![]
    } else if v.last().hash == h {
        without(v.drop_last(), h)
    } else {
        without(v.drop_last(), h).push(v.last())
    }
}

/// Whether an entry is still worth trying.
pub open spec fn fresh(e: HeldView, now: u64) -> bool {
    now - e.at < MEMPOOL_TTL_MS
}

pub open spec fn unexpired(v: Seq<HeldView>, now: u64) -> Seq<HeldView>
    decreases v.len(),
{
    if v.len() == 0 {
        seq![]
    } else if fresh(v.last(), now) {
        unexpired(v.drop_last(), now).push(v.last())
    } else {
        unexpired(v.drop_last(), now)
    }
}

/// Entries of this hash marked as carried.
pub open spec fn marked(v: Seq<HeldView>, h: Seq<u8>) -> Seq<HeldView> {
    Seq::new(
        v.len(),
        |i: int|
            if v[i].hash == h {
                (HeldView { carried: true, ..v[i] })
            } else {
                v[i]
            },
    )
}

/// Entries of the hashes these texts spell marked as carried; a text that
/// spells none is passed over.
pub open spec fn marked_all(v: Seq<HeldView>, names: Seq<Seq<char>>) -> Seq<HeldView>
    decreases names.len(),
{
    if names.len() == 0 {
        v
    } else {
        let m = marked_all(v, names.drop_last());
        match keys::account_in(names.last()) {
            Some(h) => marked(m, h),
            None => m,
        }
    }
}

pub open spec fn uncarried(v: Seq<HeldView>) -> nat
    decreases v.len(),
{
    if v.len() == 0 {
        0
    } else {
        uncarried(v.drop_last()) + if v.last().carried {
            0nat
        } else {
            1nat
        }
    }
}

/// What a status offers: the first few queued extrinsics, in order, that
/// nobody carries.
pub open spec fn offered(held: Seq<HeldView>, room: nat) -> Seq<Seq<char>>
    decreases held.len(),
{
    if held.len() == 0 || room == 0 {
        seq![]
    } else if held[0].carried {
        offered(held.skip(1), room)
    } else {
        seq![keys::hexed(held[0].bytes)] + offered(held.skip(1), (room - 1) as nat)
    }
}

pub struct Queue {
    /// What is queued, oldest first.
    pub held: Vec<Held>,
    pub tx_hashes: Vec<TxHash>,
    pub tx_states: Vec<TxState>,
    /// What this node took from a peer and handed on, newest last.
    pub carried: Vec<TxHash>,
}

#[verifier::ext_equal]
pub struct QueueView {
    pub held: Seq<HeldView>,
    pub txs: Seq<(Seq<u8>, TxState)>,
    pub carried: Seq<Seq<u8>>,
}

pub open spec fn hashes(v: Seq<TxHash>) -> Seq<Seq<u8>> {
    v.map_values(|h: TxHash| h@)
}

pub open spec fn tx_views(h: Seq<TxHash>, s: Seq<TxState>) -> Seq<(Seq<u8>, TxState)> {
    Seq::new(h.len(), |i: int| (h[i]@, s[i]))
}

impl View for Queue {
    type V = QueueView;

    open spec fn view(&self) -> QueueView {
        QueueView {
            held: held_views(self.held@),
            txs: tx_views(self.tx_hashes@, self.tx_states@),
            carried: hashes(self.carried@),
        }
    }
}

pub open spec fn empty_queue() -> QueueView {
    QueueView { held: seq![], txs: seq![], carried: seq![] }
}

/// The queue with one more extrinsic, where it is not queued yet: the oldest
/// one goes where there are too many, and the new one is pending.
pub open spec fn queued(q: QueueView, h: Seq<u8>, bytes: Seq<u8>, now: u64) -> QueueView {
    if entry_of(q.held, h) is Some {
        q
    } else {
        QueueView {
            held: (if q.held.len() >= MEMPOOL_CAP {
                q.held.skip(1)
            } else {
                q.held
            }).push(HeldView { hash: h, bytes, at: now, carried: false }),
            txs: noted(q.txs, h, TxState::Pending),
            carried: q.carried,
        }
    }
}

/// The queue with a hash taken on for a peer; the oldest such is forgotten
/// where there are too many.
pub open spec fn taken_on(q: QueueView, h: Seq<u8>) -> QueueView {
    QueueView {
        carried: (if q.carried.len() >= CARRIED_KEEP {
            q.carried.skip(1)
        } else {
            q.carried
        }).push(h),
        ..q
    }
}

fn place(v: &Vec<TxHash>, h: &TxHash) -> (r: Option<usize>)
    ensures
        match r {
            Some(i) => i < v.len() && v@[i as int]@ == h@ && forall|k: int|
                0 <= k < i ==> (#[trigger] v@[k])@ != h@,
            None => forall|k: int| 0 <= k < v.len() ==> (#[trigger] v@[k])@ != h@,
        },
{
    let mut i: usize = 0;
    while i < v.len()
        invariant
            i <= v.len(),
            forall|k: int| 0 <= k < i ==> (#[trigger] v@[k])@ != h@,
        decreases v.len() - i,
    {
        if keys::same_account(&v[i], h) {
            return Some(i);
        }
        i = i + 1;
    }
    None
}

proof fn lemma_known(v: Seq<(Seq<u8>, TxState)>, h: Seq<u8>, n: int)
    requires
        0 <= n <= v.len(),
        forall|k: int| 0 <= k < n ==> (#[trigger] v[k]).0 != h,
        n < v.len() ==> v[n].0 == h,
    ensures
        n < v.len() ==> known(v, h) == Some(v[n].1),
        n == v.len() ==> known(v, h) is None,
    decreases v.len(),
{
    if v.len() > 0 && v[0].0 != h {
        let rest = v.skip(1);
        assert forall|k: int| 0 <= k < n - 1 implies (#[trigger] rest[k]).0 != h by {
            assert(rest[k] == v[k + 1]);
        }
        if n < v.len() {
            assert(rest[n - 1] == v[n]);
        }
        lemma_known(rest, h, n - 1);
    }
}

proof fn lemma_entry(v: Seq<HeldView>, h: Seq<u8>, n: int)
    requires
        0 <= n <= v.len(),
        forall|k: int| 0 <= k < n ==> (#[trigger] v[k]).hash != h,
        n < v.len() ==> v[n].hash == h,
    ensures
        n < v.len() ==> entry_of(v, h) == Some(v[n]),
        n == v.len() ==> entry_of(v, h) is None,
    decreases v.len(),
{
    if v.len() > 0 && v[0].hash != h {
        let rest = v.skip(1);
        assert forall|k: int| 0 <= k < n - 1 implies (#[trigger] rest[k]).hash != h by {
            assert(rest[k] == v[k + 1]);
        }
        if n < v.len() {
            assert(rest[n - 1] == v[n]);
        }
        lemma_entry(rest, h, n - 1);
    }
}

impl Queue {
    pub open spec fn wf(self) -> bool {
        self.tx_hashes.len() == self.tx_states.len()
    }

    pub fn new() -> (r: Queue)
        ensures
            r.wf(),
            r@ == empty_queue(),
    {
        let r = Queue {
            held: Vec::new(),
            tx_hashes: Vec::new(),
            tx_states: Vec::new(),
            carried: Vec::new(),
        };
        assert(r@ =~= empty_queue());
        r
    }

    /// What is known of a hash here.
    pub fn tx_status(&self, h: &TxHash) -> (r: Option<TxState>)
        requires
            self.wf(),
        ensures
            r == known(self@.txs, h@),
    {
        match place(&self.tx_hashes, h) {
            Some(i) => {
                proof {
                    lemma_known(self@.txs, h@, i as int);
                }
                Some(self.tx_states[i])
            },
            None => {
                proof {
                    lemma_known(self@.txs, h@, self.tx_hashes@.len() as int);
                }
                None
            },
        }
    }

    /// Notes a hash's state, forgetting the oldest where there are too many.
    pub fn set_tx_status(&mut self, h: &TxHash, st: TxState)
        requires
            old(self).wf(),
        ensures
            final(self).wf(),
            final(self)@ == (QueueView { txs: noted(old(self)@.txs, h@, st), ..old(self)@ }),
    {
        let ghost was = self@;
        match place(&self.tx_hashes, h) {
            Some(_) => {
                proof {
                    let n = choose|n: int|
                        0 <= n < self.tx_hashes@.len() && self.tx_hashes@[n]@ == h@ && forall|k: int|
                            0 <= k < n ==> (#[trigger] self.tx_hashes@[k])@ != h@;
                    lemma_known(was.txs, h@, n);
                }
                let ghost names = self.tx_hashes@;
                let mut i: usize = 0;
                while i < self.tx_hashes.len()
                    invariant
                        i <= self.tx_hashes.len(),
                        self.wf(),
                        self.tx_hashes@ == names,
                        self@.held == was.held,
                        self@.carried == was.carried,
                        was.txs.len() == names.len(),
                        known(was.txs, h@) is Some,
                        forall|k: int| 0 <= k < names.len() ==> (#[trigger] was.txs[k]).0 == names[k]@,
                        forall|k: int|
                            0 <= k < i ==> #[trigger] self.tx_states@[k] == noted(was.txs, h@, st)[k].1,
                        forall|k: int|
                            i <= k < names.len() ==> #[trigger] self.tx_states@[k] == was.txs[k].1,
                    decreases self.tx_hashes.len() - i,
                {
                    if keys::same_account(&self.tx_hashes[i], h) {
                        self.tx_states.set(i, st);
                    }
                    i = i + 1;
                }
                assert(self@.txs =~= noted(was.txs, h@, st));
            },
            None => {
                proof {
                    lemma_known(was.txs, h@, self.tx_hashes@.len() as int);
                }
                if self.tx_hashes.len() >= TX_STATUS_CAP {
                    self.tx_hashes.remove(0);
                    self.tx_states.remove(0);
                    assert(tx_views(self.tx_hashes@, self.tx_states@) =~= was.txs.skip(1));
                }
                let ghost kept = tx_views(self.tx_hashes@, self.tx_states@);
                self.tx_hashes.push(*h);
                self.tx_states.push(st);
                assert(self@.txs =~= kept.push((h@, st)));
            },
        }
    }

    /// Block `closing` was sealed: so is what was applied in it.
    pub fn seal(&mut self, closing: u64)
        requires
            old(self).wf(),
        ensures
            final(self).wf(),
            final(self)@ == (QueueView {
                txs: sealed_all(old(self)@.txs, closing),
                ..old(self)@
            }),
    {
        let ghost was = *self;
        let mut i: usize = 0;
        while i < self.tx_states.len()
            invariant
                i <= self.tx_states.len(),
                self.wf(),
                self.tx_hashes == was.tx_hashes,
                self.held == was.held,
                self.carried == was.carried,
                self.tx_states.len() == was.tx_states.len(),
                forall|k: int|
                    0 <= k < i ==> #[trigger] self.tx_states@[k] == sealed_in(
                        was.tx_states@[k],
                        closing,
                    ),
                forall|k: int|
                    i <= k < self.tx_states.len() ==> #[trigger] self.tx_states@[k]
                        == was.tx_states@[k],
            decreases self.tx_states.len() - i,
        {
            if let TxState::Applied { height } = self.tx_states[i] {
                if height == closing {
                    self.tx_states.set(i, TxState::Sealed { height });
                }
            }
            i = i + 1;
        }
        assert(self@.txs =~= sealed_all(was@.txs, closing));
    }

    fn find(&self, h: &TxHash) -> (r: Option<usize>)
        ensures
            match r {
                Some(i) => i < self.held.len() && entry_of(self@.held, h@) == Some(
                    held_view(self.held@[i as int]),
                ),
                None => entry_of(self@.held, h@) is None,
            },
    {
        let mut i: usize = 0;
        while i < self.held.len()
            invariant
                i <= self.held.len(),
                forall|k: int| 0 <= k < i ==> (#[trigger] self@.held[k]).hash != h@,
            decreases self.held.len() - i,
        {
            assert(self@.held[i as int] == held_view(self.held@[i as int]));
            if keys::same_account(&self.held[i].hash, h) {
                proof {
                    lemma_entry(self@.held, h@, i as int);
                }
                return Some(i);
            }
            i = i + 1;
        }
        proof {
            lemma_entry(self@.held, h@, i as int);
        }
        None
    }

    /// Whether an extrinsic is queued here.
    pub fn is_queued(&self, h: &TxHash) -> (r: bool)
        ensures
            r == (entry_of(self@.held, h@) is Some),
    {
        self.find(h).is_some()
    }

    /// Takes an extrinsic out of the queue.
    pub fn remove(&mut self, h: &TxHash)
        ensures
            final(self).wf() == old(self).wf(),
            final(self)@ == (QueueView { held: without(old(self)@.held, h@), ..old(self)@ }),
    {
        let ghost was = *self;
        let mut kept: Vec<Held> = Vec::new();
        let mut rest: Vec<Held> = Vec::new();
        rest.append(&mut self.held);
        assert(rest@ =~= was.held@);
        let ghost all = was@.held;
        let ghost mut done: int = 0;
        assert(all.take(0) =~= Seq::<HeldView>::empty());
        while rest.len() > 0
            invariant
                0 <= done <= all.len(),
                rest.len() == all.len() - done,
                held_views(rest@) == all.skip(done),
                held_views(kept@) == without(all.take(done), h@),
            decreases rest.len(),
        {
            let ghost before = rest@;
            let ghost had = kept@;
            let e = rest.remove(0);
            let ghost one = held_view(e);
            assert(one == all.skip(done)[0]) by {
                assert(held_views(before)[0] == held_view(before[0]));
            }
            assert(held_views(rest@) =~= held_views(before).skip(1));
            assert(all.skip(done).skip(1) =~= all.skip(done + 1));
            assert(all.take(done + 1).drop_last() =~= all.take(done));
            assert(all.take(done + 1).last() == one);
            if !keys::same_account(&e.hash, h) {
                kept.push(e);
                assert(held_views(kept@) =~= held_views(had).push(one));
            }
            proof {
                done = done + 1;
            }
        }
        assert(all.take(done) =~= all);
        self.held = kept;
    }

    /// Drops what has been queued for too long.
    pub fn expire(&mut self, now: u64)
        ensures
            final(self).wf() == old(self).wf(),
            final(self)@ == (QueueView { held: unexpired(old(self)@.held, now), ..old(self)@ }),
    {
        let ghost was = *self;
        let mut kept: Vec<Held> = Vec::new();
        let mut rest: Vec<Held> = Vec::new();
        rest.append(&mut self.held);
        assert(rest@ =~= was.held@);
        let ghost all = was@.held;
        let ghost mut done: int = 0;
        assert(all.take(0) =~= Seq::<HeldView>::empty());
        while rest.len() > 0
            invariant
                0 <= done <= all.len(),
                rest.len() == all.len() - done,
                held_views(rest@) == all.skip(done),
                held_views(kept@) == unexpired(all.take(done), now),
            decreases rest.len(),
        {
            let ghost before = rest@;
            let ghost had = kept@;
            let e = rest.remove(0);
            let ghost one = held_view(e);
            assert(one == all.skip(done)[0]) by {
                assert(held_views(before)[0] == held_view(before[0]));
            }
            assert(held_views(rest@) =~= held_views(before).skip(1));
            assert(all.skip(done).skip(1) =~= all.skip(done + 1));
            assert(all.take(done + 1).drop_last() =~= all.take(done));
            assert(all.take(done + 1).last() == one);
            if e.at >= now || now - e.at < MEMPOOL_TTL_MS {
                kept.push(e);
                assert(held_views(kept@) =~= held_views(had).push(one));
            }
            proof {
                done = done + 1;
            }
        }
        assert(all.take(done) =~= all);
        self.held = kept;
    }

    /// Queues an extrinsic this node could not hand to the primary. One that is
    /// queued already stays as it is: it can be heard of from several peers.
    pub fn mempool_insert(&mut self, h: &TxHash, bytes: Vec<u8>, now: u64)
        requires
            old(self).wf(),
        ensures
            final(self).wf(),
            final(self)@ == queued(old(self)@, h@, bytes@, now),
    {
        let ghost was = self@;
        if self.is_queued(h) {
            return;
        }
        if self.held.len() >= MEMPOOL_CAP {
            self.held.remove(0);
            assert(held_views(self.held@) =~= was.held.skip(1));
        }
        let ghost held = held_views(self.held@);
        let e = Held { hash: *h, bytes, at: now, carried: false };
        let ghost one = held_view(e);
        self.held.push(e);
        assert(held_views(self.held@) =~= held.push(one));
        self.set_tx_status(h, TxState::Pending);
    }

    fn mark_one(&mut self, h: &TxHash)
        ensures
            final(self).wf() == old(self).wf(),
            final(self)@ == (QueueView { held: marked(old(self)@.held, h@), ..old(self)@ }),
    {
        let ghost was = *self;
        let mut i: usize = 0;
        while i < self.held.len()
            invariant
                i <= self.held.len(),
                self.held.len() == was.held.len(),
                self.tx_hashes == was.tx_hashes,
                self.tx_states == was.tx_states,
                self.carried == was.carried,
                forall|k: int|
                    0 <= k < i ==> held_view(#[trigger] self.held@[k]) == marked(was@.held, h@)[k],
                forall|k: int| i <= k < self.held.len() ==> #[trigger] self.held@[k] == was.held@[k],
            decreases self.held.len() - i,
        {
            assert(was@.held[i as int] == held_view(was.held@[i as int]));
            if keys::same_account(&self.held[i].hash, h) {
                let mut e = self.held.remove(i);
                e.carried = true;
                self.held.insert(i, e);
            }
            i = i + 1;
        }
        assert(self@.held =~= marked(was@.held, h@));
    }

    /// A peer that polls this node took these on: they are its to deliver, and
    /// no longer offered.
    pub fn mark_carried(&mut self, names: &Vec<String>)
        ensures
            final(self).wf() == old(self).wf(),
            final(self)@ == (QueueView {
                held: marked_all(old(self)@.held, text::texts(names@)),
                ..old(self)@
            }),
    {
        let ghost was = *self;
        let ghost all = text::texts(names@);
        let mut i: usize = 0;
        assert(all.take(0) =~= Seq::<Seq<char>>::empty());
        while i < names.len()
            invariant
                i <= names.len(),
                all == text::texts(names@),
                self.wf() == was.wf(),
                self@ == (QueueView {
                    held: marked_all(was@.held, all.take(i as int)),
                    ..was@
                }),
            decreases names.len() - i,
        {
            assert(all.take(i + 1).drop_last() =~= all.take(i as int));
            assert(all.take(i + 1).last() == names@[i as int]@);
            match keys::from_hex(names[i].as_str()) {
                Some(h) => {
                    self.mark_one(&h);
                },
                None => {},
            }
            i = i + 1;
        }
        assert(all.take(i as int) =~= all);
    }

    /// Whether an extrinsic offered by a peer is known here: carried already,
    /// or queued.
    pub fn is_known(&self, h: &TxHash) -> (r: bool)
        ensures
            r == (self@.carried.contains(h@) || entry_of(self@.held, h@) is Some),
    {
        match place(&self.carried, h) {
            Some(i) => {
                assert(self@.carried[i as int] == h@);
                true
            },
            None => {
                assert forall|k: int| 0 <= k < self@.carried.len() implies self@.carried[k]
                    != h@ by {
                    assert(self@.carried[k] == self.carried@[k]@);
                }
                self.is_queued(h)
            },
        }
    }

    /// Notes what became of an extrinsic taken from a peer. With a final
    /// answer, be it a refusal, the peer may stop offering it.
    pub fn carry(&mut self, h: &TxHash, status: u16)
        ensures
            final(self).wf() == old(self).wf(),
            final(self)@ == (if is_final(status) {
                taken_on(old(self)@, h@)
            } else {
                old(self)@
            }),
    {
        let ghost was = self@;
        if (200 <= status && status < 300) || status == 422 || status == 400 {
            if self.carried.len() >= CARRIED_KEEP {
                self.carried.remove(0);
                assert(hashes(self.carried@) =~= was.carried.skip(1));
            }
            let ghost kept = hashes(self.carried@);
            self.carried.push(*h);
            assert(hashes(self.carried@) =~= kept.push(h@));
        }
    }

    /// What a status offers: queued extrinsics in hexadecimal, oldest first.
    pub fn pending(&self) -> (out: Vec<String>)
        ensures
            text::texts(out@) == offered(self@.held, CARRY_PER_POLL as nat),
    {
        let mut out: Vec<String> = text::none();
        let mut i: usize = 0;
        let ghost held = self@.held;
        assert(held.skip(0) =~= held);
        assert(text::texts(out@) + offered(held, CARRY_PER_POLL as nat) =~= offered(
            held,
            CARRY_PER_POLL as nat,
        ));
        while i < self.held.len() && out.len() < CARRY_PER_POLL
            invariant
                i <= self.held.len(),
                out.len() <= CARRY_PER_POLL,
                held == self@.held,
                offered(held, CARRY_PER_POLL as nat) == text::texts(out@) + offered(
                    held.skip(i as int),
                    (CARRY_PER_POLL - out.len()) as nat,
                ),
            decreases self.held.len() - i,
        {
            let ghost had = text::texts(out@);
            let ghost room = (CARRY_PER_POLL - out.len()) as nat;
            assert(held.skip(i as int)[0] == held_view(self.held@[i as int]));
            assert(held.skip(i as int).skip(1) =~= held.skip(i + 1));
            if !self.held[i].carried {
                let s = outside::hex_encode(self.held[i].bytes.as_slice());
                text::put(&mut out, s.as_str());
                assert(had + (seq![s@] + offered(held.skip(i + 1), (room - 1) as nat)) =~= had.push(
                    s@,
                ) + offered(held.skip(i + 1), (room - 1) as nat));
            }
            i = i + 1;
        }
        assert(offered(held.skip(i as int), (CARRY_PER_POLL - out.len()) as nat) =~= Seq::<
            Seq<char>,
        >::empty());
        assert(text::texts(out@) + Seq::<Seq<char>>::empty() =~= text::texts(out@));
        out
    }

    /// What a status announces as carried: hashes in hexadecimal, newest last.
    pub fn carried_names(&self) -> (out: Vec<String>)
        ensures
            text::texts(out@) == self@.carried.map_values(|h: Seq<u8>| keys::hexed(h)),
    {
        let ghost want = self@.carried.map_values(|h: Seq<u8>| keys::hexed(h));
        let mut out: Vec<String> = text::none();
        let mut i: usize = 0;
        while i < self.carried.len()
            invariant
                i <= self.carried.len(),
                want == self@.carried.map_values(|h: Seq<u8>| keys::hexed(h)),
                text::texts(out@) == want.take(i as int),
            decreases self.carried.len() - i,
        {
            let s = keys::to_hex(&self.carried[i]);
            text::put(&mut out, s.as_str());
            assert(want.take(i + 1) =~= want.take(i as int).push(s@));
            i = i + 1;
        }
        assert(want.take(i as int) =~= want);
        out
    }

    /// How many queued extrinsics nobody carries.
    pub fn mempool_offered(&self) -> (n: usize)
        ensures
            n == uncarried(self@.held),
    {
        let mut n: usize = 0;
        let mut i: usize = 0;
        assert(self@.held.take(0) =~= Seq::<HeldView>::empty());
        while i < self.held.len()
            invariant
                n <= i <= self.held.len(),
                n == uncarried(self@.held.take(i as int)),
            decreases self.held.len() - i,
        {
            assert(self@.held.take(i + 1).drop_last() =~= self@.held.take(i as int));
            assert(self@.held.take(i + 1).last() == held_view(self.held@[i as int]));
            if !self.held[i].carried {
                n = n + 1;
            }
            i = i + 1;
        }
        assert(self@.held.take(i as int) =~= self@.held);
        n
    }
}

/// An HTTP status after which asking again is no use.
pub open spec fn is_final(status: u16) -> bool {
    200 <= status < 300 || status == 422 || status == 400
}

// ---------------------------------------------------------------------
// Laws
// ---------------------------------------------------------------------

/// A queue as a node keeps it: no list is longer than it may be, and nothing is
/// queued twice.
pub open spec fn bounded(q: QueueView) -> bool {
    &&& q.held.len() <= MEMPOOL_CAP
    &&& q.txs.len() <= TX_STATUS_CAP
    &&& q.carried.len() <= CARRIED_KEEP
    &&& forall|i: int, j: int|
        0 <= i < j < q.held.len() ==> (#[trigger] q.held[i]).hash != (#[trigger] q.held[j]).hash
}

proof fn lemma_without(v: Seq<HeldView>, h: Seq<u8>)
    ensures
        without(v, h).len() <= v.len(),
        forall|i: int|
            0 <= i < without(v, h).len() ==> (#[trigger] without(v, h)[i]).hash != h && v.contains(
                without(v, h)[i],
            ),
        (forall|i: int, j: int|
            0 <= i < j < v.len() ==> (#[trigger] v[i]).hash != (#[trigger] v[j]).hash) ==> (forall|
            i: int,
            j: int,
        |
            0 <= i < j < without(v, h).len() ==> (#[trigger] without(v, h)[i]).hash != (
            #[trigger] without(v, h)[j]).hash),
    decreases v.len(),
{
    if v.len() > 0 {
        let front = v.drop_last();
        lemma_without(front, h);
        let w = without(front, h);
        assert forall|i: int| 0 <= i < without(v, h).len() implies (#[trigger] without(
            v,
            h,
        )[i]).hash != h && v.contains(without(v, h)[i]) by {
            if i < w.len() {
                assert(front.contains(w[i]));
                let k = choose|k: int| 0 <= k < front.len() && front[k] == w[i];
                assert(v[k] == w[i]);
            } else {
                assert(v[v.len() - 1] == v.last());
            }
        }
        if forall|i: int, j: int|
            0 <= i < j < v.len() ==> (#[trigger] v[i]).hash != (#[trigger] v[j]).hash {
            assert forall|i: int, j: int| 0 <= i < j < front.len() implies (
            #[trigger] front[i]).hash != (#[trigger] front[j]).hash by {
                assert(front[i] == v[i] && front[j] == v[j]);
            }
            assert forall|i: int, j: int| 0 <= i < j < without(v, h).len() implies (
            #[trigger] without(v, h)[i]).hash != (#[trigger] without(v, h)[j]).hash by {
                if j >= w.len() {
                    assert(front.contains(w[i]));
                    let k = choose|k: int| 0 <= k < front.len() && front[k] == w[i];
                    assert(v[k] == w[i]);
                    assert(v[k].hash != v[v.len() - 1].hash);
                }
            }
        }
    }
}

proof fn lemma_entry_none(v: Seq<HeldView>, h: Seq<u8>)
    requires
        entry_of(v, h) is None,
    ensures
        forall|i: int| 0 <= i < v.len() ==> (#[trigger] v[i]).hash != h,
    decreases v.len(),
{
    if v.len() > 0 {
        let rest = v.skip(1);
        lemma_entry_none(rest, h);
        assert forall|i: int| 0 <= i < v.len() implies (#[trigger] v[i]).hash != h by {
            if i > 0 {
                assert(rest[i - 1] == v[i]);
            }
        }
    }
}

proof fn lemma_unexpired(v: Seq<HeldView>, now: u64)
    ensures
        unexpired(v, now).len() <= v.len(),
        forall|i: int|
            0 <= i < unexpired(v, now).len() ==> v.contains(#[trigger] unexpired(v, now)[i]),
        (forall|i: int, j: int|
            0 <= i < j < v.len() ==> (#[trigger] v[i]).hash != (#[trigger] v[j]).hash) ==> (forall|
            i: int,
            j: int,
        |
            0 <= i < j < unexpired(v, now).len() ==> (#[trigger] unexpired(v, now)[i]).hash != (
            #[trigger] unexpired(v, now)[j]).hash),
    decreases v.len(),
{
    if v.len() > 0 {
        let front = v.drop_last();
        lemma_unexpired(front, now);
        let w = unexpired(front, now);
        assert forall|i: int| 0 <= i < unexpired(v, now).len() implies v.contains(
            #[trigger] unexpired(v, now)[i],
        ) by {
            if i < w.len() {
                assert(front.contains(w[i]));
                let k = choose|k: int| 0 <= k < front.len() && front[k] == w[i];
                assert(v[k] == w[i]);
            } else {
                assert(v[v.len() - 1] == v.last());
            }
        }
        if forall|i: int, j: int|
            0 <= i < j < v.len() ==> (#[trigger] v[i]).hash != (#[trigger] v[j]).hash {
            assert forall|i: int, j: int| 0 <= i < j < front.len() implies (
            #[trigger] front[i]).hash != (#[trigger] front[j]).hash by {
                assert(front[i] == v[i] && front[j] == v[j]);
            }
            assert forall|i: int, j: int| 0 <= i < j < unexpired(v, now).len() implies (
            #[trigger] unexpired(v, now)[i]).hash != (#[trigger] unexpired(v, now)[j]).hash by {
                if j >= w.len() {
                    assert(front.contains(w[i]));
                    let k = choose|k: int| 0 <= k < front.len() && front[k] == w[i];
                    assert(v[k] == w[i]);
                    assert(v[k].hash != v[v.len() - 1].hash);
                }
            }
        }
    }
}

proof fn lemma_marked_all(v: Seq<HeldView>, names: Seq<Seq<char>>)
    ensures
        marked_all(v, names).len() == v.len(),
        forall|i: int| 0 <= i < v.len() ==> (#[trigger] marked_all(v, names)[i]).hash == v[i].hash,
    decreases names.len(),
{
    if names.len() > 0 {
        lemma_marked_all(v, names.drop_last());
    }
}

/// Upkeep keeps the queue within its bounds too: what was queued for too long
/// is dropped, a block is sealed, and what a peer took on is marked.
pub proof fn upkeep_keeps_the_bounds(
    q: QueueView,
    now: u64,
    closing: u64,
    names: Seq<Seq<char>>,
)
    requires
        bounded(q),
    ensures
        bounded(QueueView { held: unexpired(q.held, now), ..q }),
        bounded(QueueView { txs: sealed_all(q.txs, closing), ..q }),
        bounded(QueueView { held: marked_all(q.held, names), ..q }),
{
    lemma_unexpired(q.held, now);
    lemma_marked_all(q.held, names);
    let w = marked_all(q.held, names);
    assert forall|i: int, j: int| 0 <= i < j < w.len() implies (#[trigger] w[i]).hash != (
    #[trigger] w[j]).hash by {
        assert(q.held[i].hash != q.held[j].hash);
    }
}

/// However much is queued, applied or carried, the queue keeps within its
/// bounds: at most so many extrinsics, each once, at most so many answers, at
/// most so many announcements.
pub proof fn the_queue_stays_bounded(q: QueueView, h: Seq<u8>, bytes: Seq<u8>, now: u64, st: TxState)
    requires
        bounded(q),
    ensures
        bounded(queued(q, h, bytes, now)),
        bounded(QueueView { txs: noted(q.txs, h, st), ..q }),
        bounded(QueueView { held: without(q.held, h), ..q }),
        bounded(taken_on(q, h)),
{
    lemma_without(q.held, h);
    if entry_of(q.held, h) is None {
        let r = queued(q, h, bytes, now);
        let gone: int = if q.held.len() >= MEMPOOL_CAP {
            1
        } else {
            0
        };
        lemma_entry_none(q.held, h);
        assert forall|i: int, j: int| 0 <= i < j < r.held.len() implies (#[trigger] r.held[i]).hash
            != (#[trigger] r.held[j]).hash by {
            assert(r.held[i] == q.held[i + gone]);
            if j < r.held.len() - 1 {
                assert(r.held[j] == q.held[j + gone]);
            }
        }
    }
}

/// Where there is no room the oldest one goes, and only that: everything younger
/// stays, in order, in front of the new one.
pub proof fn the_oldest_goes_first(q: QueueView, h: Seq<u8>, bytes: Seq<u8>, now: u64)
    requires
        bounded(q),
        entry_of(q.held, h) is None,
    ensures
        ({
            let r = queued(q, h, bytes, now).held;
            &&& r.last() == (HeldView { hash: h, bytes, at: now, carried: false })
            &&& q.held.len() < MEMPOOL_CAP ==> r.drop_last() == q.held
            &&& q.held.len() == MEMPOOL_CAP ==> r.drop_last() == q.held.skip(1)
        }),
{
    let r = queued(q, h, bytes, now).held;
    if q.held.len() < MEMPOOL_CAP {
        assert(r.drop_last() =~= q.held);
    } else {
        assert(r.drop_last() =~= q.held.skip(1));
    }
}

/// A second hearing of a queued extrinsic changes nothing.
pub proof fn queueing_twice_is_queueing_once(
    q: QueueView,
    h: Seq<u8>,
    bytes: Seq<u8>,
    now: u64,
    more: Seq<u8>,
    later: u64,
)
    ensures
        queued(queued(q, h, bytes, now), h, more, later) == queued(q, h, bytes, now),
{
    let r = queued(q, h, bytes, now);
    if entry_of(q.held, h) is None {
        let n = r.held.len() - 1;
        assert(r.held[n].hash == h);
        lemma_entry_there(r.held, h, n);
    }
}

proof fn lemma_entry_there(v: Seq<HeldView>, h: Seq<u8>, n: int)
    requires
        0 <= n < v.len(),
        v[n].hash == h,
    ensures
        entry_of(v, h) is Some,
    decreases v.len(),
{
    if v[0].hash != h {
        assert(v.skip(1)[n - 1] == v[n]);
        lemma_entry_there(v.skip(1), h, n - 1);
    }
}

/// What was noted of a hash is what is answered of it.
pub proof fn answers_are_what_was_noted(v: Seq<(Seq<u8>, TxState)>, h: Seq<u8>, st: TxState)
    ensures
        known(noted(v, h, st), h) == Some(st),
{
    if known(v, h) is Some {
        lemma_noted_there(v, h, st);
    } else {
        let w = if v.len() >= TX_STATUS_CAP {
            v.skip(1)
        } else {
            v
        };
        lemma_known_none(v, h);
        assert forall|k: int| 0 <= k < w.len() implies (#[trigger] w[k]).0 != h by {
            if v.len() >= TX_STATUS_CAP {
                assert(w[k] == v[k + 1]);
            }
        }
        let r = w.push((h, st));
        assert forall|k: int| 0 <= k < w.len() implies (#[trigger] r[k]).0 != h by {
            assert(r[k] == w[k]);
        }
        lemma_known(r, h, w.len() as int);
    }
}

proof fn lemma_known_none(v: Seq<(Seq<u8>, TxState)>, h: Seq<u8>)
    requires
        known(v, h) is None,
    ensures
        forall|i: int| 0 <= i < v.len() ==> (#[trigger] v[i]).0 != h,
    decreases v.len(),
{
    if v.len() > 0 {
        let rest = v.skip(1);
        lemma_known_none(rest, h);
        assert forall|i: int| 0 <= i < v.len() implies (#[trigger] v[i]).0 != h by {
            if i > 0 {
                assert(rest[i - 1] == v[i]);
            }
        }
    }
}

proof fn lemma_noted_there(v: Seq<(Seq<u8>, TxState)>, h: Seq<u8>, st: TxState)
    requires
        known(v, h) is Some,
    ensures
        known(renoted(v, h, st), h) == Some(st),
    decreases v.len(),
{
    if v[0].0 != h {
        let rest = v.skip(1);
        lemma_noted_there(rest, h, st);
        assert(renoted(v, h, st).skip(1) =~= renoted(rest, h, st));
    }
}

/// Whether one of these texts spells a hash.
pub open spec fn spelt(names: Seq<Seq<char>>, h: Seq<u8>) -> bool {
    exists|i: int| 0 <= i < names.len() && keys::account_in(#[trigger] names[i]) == Some(h)
}

proof fn lemma_marked_entry(v: Seq<HeldView>, names: Seq<Seq<char>>, i: int)
    requires
        0 <= i < v.len(),
    ensures
        marked_all(v, names).len() == v.len(),
        marked_all(v, names)[i] == (if spelt(names, v[i].hash) {
            (HeldView { carried: true, ..v[i] })
        } else {
            v[i]
        }),
    decreases names.len(),
{
    if names.len() > 0 {
        let front = names.drop_last();
        lemma_marked_entry(v, front, i);
        if spelt(front, v[i].hash) {
            let k = choose|k: int|
                0 <= k < front.len() && keys::account_in(#[trigger] front[k]) == Some(v[i].hash);
            assert(names[k] == front[k]);
        }
        if spelt(names, v[i].hash) && !spelt(front, v[i].hash) {
            let k = choose|k: int|
                0 <= k < names.len() && keys::account_in(#[trigger] names[k]) == Some(v[i].hash);
            if k < front.len() {
                assert(front[k] == names[k]);
            }
        }
        assert(names[names.len() - 1] == names.last());
    }
}

/// The extrinsics that a peer's status offers: what of it can be read.
pub open spec fn readable(v: Seq<Seq<char>>) -> Seq<Seq<u8>>
    decreases v.len(),
{
    if v.len() == 0 {
        seq![]
    } else {
        match keys::unhexed(v.last()) {
            Some(b) => readable(v.drop_last()).push(b),
            None => readable(v.drop_last()),
        }
    }
}

pub open spec fn byte_strings(v: Seq<Vec<u8>>) -> Seq<Seq<u8>> {
    Seq::new(v.len(), |i: int| v[i]@)
}

/// The extrinsics that a peer's status offers: what of it can be read.
pub fn offers(pending: &Vec<String>) -> (out: Vec<Vec<u8>>)
    ensures
        byte_strings(out@) == readable(text::texts(pending@)),
{
    let ghost all = text::texts(pending@);
    let mut out: Vec<Vec<u8>> = Vec::new();
    let mut i: usize = 0;
    assert(all.take(0) =~= Seq::<Seq<char>>::empty());
    assert(byte_strings(out@) =~= Seq::<Seq<u8>>::empty());
    while i < pending.len()
        invariant
            i <= pending.len(),
            all == text::texts(pending@),
            byte_strings(out@) == readable(all.take(i as int)),
        decreases pending.len() - i,
    {
        assert(all.take(i + 1).drop_last() =~= all.take(i as int));
        assert(all.take(i + 1).last() == pending@[i as int]@);
        match outside::hex_decode(pending[i].as_str()) {
            Some(b) => {
                assert(byte_strings(out@.push(b)) =~= byte_strings(out@).push(b@));
                out.push(b);
            },
            None => {},
        }
        i = i + 1;
    }
    assert(all.take(i as int) =~= all);
    out
}

/// The places of what is offered, in order.
pub open spec fn offered_at(held: Seq<HeldView>, room: nat) -> Seq<int>
    decreases held.len(),
{
    if held.len() == 0 || room == 0 {
        seq![]
    } else {
        let left = if held[0].carried {
            room
        } else {
            (room - 1) as nat
        };
        let rest = offered_at(held.skip(1), left);
        let later = Seq::new(rest.len(), |k: int| rest[k] + 1);
        if held[0].carried {
            later
        } else {
            seq![0int] + later
        }
    }
}

/// What is offered stands in the queue, each extrinsic once, oldest first, and
/// none of it is carried by another.
pub proof fn nothing_is_offered_twice(held: Seq<HeldView>, room: nat)
    ensures
        offered(held, room).len() == offered_at(held, room).len() <= room,
        forall|k: int|
            0 <= k < offered_at(held, room).len() ==> 0 <= #[trigger] offered_at(held, room)[k]
                < held.len() && !held[offered_at(held, room)[k]].carried && offered(held, room)[k]
                == keys::hexed(held[offered_at(held, room)[k]].bytes),
        forall|i: int, j: int|
            0 <= i < j < offered_at(held, room).len() ==> (#[trigger] offered_at(held, room)[i]) < (
            #[trigger] offered_at(held, room)[j]),
    decreases held.len(),
{
    if held.len() > 0 && room > 0 {
        let first: int = if held[0].carried {
            0
        } else {
            1
        };
        let left = (room - first) as nat;
        let tail = held.skip(1);
        nothing_is_offered_twice(tail, left);
        let at = offered_at(held, room);
        let rest = offered_at(tail, left);
        let more = offered(tail, left);
        assert forall|k: int| 0 <= k < at.len() implies 0 <= #[trigger] at[k] < held.len()
            && !held[at[k]].carried && offered(held, room)[k] == keys::hexed(held[at[k]].bytes) by {
            if k >= first {
                assert(at[k] == rest[k - first] + 1);
                assert(tail[rest[k - first]] == held[at[k]]);
                assert(offered(held, room)[k] == more[k - first]);
            }
        }
        assert forall|i: int, j: int| 0 <= i < j < at.len() implies (#[trigger] at[i]) < (
        #[trigger] at[j]) by {
            assert(at[j] == rest[j - first] + 1);
            if i >= first {
                assert(at[i] == rest[i - first] + 1);
            }
        }
    }
}

proof fn lemma_readable(v: Seq<Seq<char>>)
    requires
        forall|k: int|
            0 <= k < v.len() ==> keys::unhexed(#[trigger] v[k]) is Some && keys::hexed(
                keys::unhexed(v[k])->0,
            ) == v[k],
    ensures
        readable(v).len() == v.len(),
        forall|k: int| 0 <= k < v.len() ==> keys::hexed(#[trigger] readable(v)[k]) == v[k],
    decreases v.len(),
{
    if v.len() > 0 {
        let front = v.drop_last();
        assert forall|k: int| 0 <= k < front.len() implies keys::unhexed(#[trigger] front[k]) is Some
            && keys::hexed(keys::unhexed(front[k])->0) == front[k] by {
            assert(front[k] == v[k]);
        }
        lemma_readable(front);
        assert(keys::unhexed(v[v.len() - 1]) is Some);
        assert forall|k: int| 0 <= k < v.len() implies keys::hexed(#[trigger] readable(v)[k])
            == v[k] by {
            if k < front.len() {
                assert(keys::hexed(readable(front)[k]) == front[k]);
            }
        }
    }
}

/// What a status offers reaches a peer whole: it reads every extrinsic, in
/// order, as it was queued.
pub proof fn what_is_offered_reads_back(held: Seq<HeldView>, room: nat)
    ensures
        ({
            let sent = offered(held, room);
            &&& readable(sent).len() == sent.len()
            &&& forall|k: int|
                0 <= k < sent.len() ==> keys::hexed(#[trigger] readable(sent)[k]) == sent[k]
        }),
{
    let sent = offered(held, room);
    nothing_is_offered_twice(held, room);
    assert forall|k: int| 0 <= k < sent.len() implies keys::unhexed(#[trigger] sent[k]) is Some
        && keys::hexed(keys::unhexed(sent[k])->0) == sent[k] by {
        keys::hex_reads_back(held[offered_at(held, room)[k]].bytes);
    }
    lemma_readable(sent);
}

/// What is offered is a queued extrinsic that nobody carries.
pub open spec fn is_offer(held: Seq<HeldView>, names: Seq<Seq<char>>, s: Seq<char>) -> bool {
    exists|i: int|
        0 <= i < held.len() && !(#[trigger] held[i]).carried && !spelt(names, held[i].hash) && s
            == keys::hexed(held[i].bytes)
}

/// Once a peer announced what it took on, none of it is offered again: what is
/// offered is queued here and nobody's to deliver, and never more than there is
/// room for.
pub proof fn what_a_peer_took_on_is_not_offered(
    held: Seq<HeldView>,
    names: Seq<Seq<char>>,
    room: nat,
)
    ensures
        offered(marked_all(held, names), room).len() <= room,
        forall|k: int|
            0 <= k < offered(marked_all(held, names), room).len() ==> is_offer(
                held,
                names,
                #[trigger] offered(marked_all(held, names), room)[k],
            ),
{
    let after = marked_all(held, names);
    nothing_is_offered_twice(after, room);
    lemma_marked_all(held, names);
    assert forall|k: int| 0 <= k < offered(after, room).len() implies is_offer(
        held,
        names,
        #[trigger] offered(after, room)[k],
    ) by {
        let i = offered_at(after, room)[k];
        lemma_marked_entry(held, names, i);
        assert(!held[i].carried);
    }
}

// ---------------------------------------------------------------------
// What is known of a write
// ---------------------------------------------------------------------

proof fn lemma_known_first(v: Seq<(Seq<u8>, TxState)>, h: Seq<u8>)
    ensures
        match known(v, h) {
            Some(st) => exists|i: int|
                0 <= i < v.len() && #[trigger] v[i] == (h, st) && forall|k: int|
                    0 <= k < i ==> (#[trigger] v[k]).0 != h,
            None => forall|k: int| 0 <= k < v.len() ==> (#[trigger] v[k]).0 != h,
        },
    decreases v.len(),
{
    if v.len() > 0 {
        if v[0].0 == h {
            assert(v[0] == (h, v[0].1));
        } else {
            let rest = v.skip(1);
            lemma_known_first(rest, h);
            match known(rest, h) {
                Some(st) => {
                    let i = choose|i: int|
                        0 <= i < rest.len() && #[trigger] rest[i] == (h, st) && forall|k: int|
                            0 <= k < i ==> (#[trigger] rest[k]).0 != h;
                    assert(v[i + 1] == (h, st));
                    assert forall|k: int| 0 <= k < i + 1 implies (#[trigger] v[k]).0 != h by {
                        if k > 0 {
                            assert(rest[k - 1] == v[k]);
                        }
                    }
                },
                None => {
                    assert forall|k: int| 0 <= k < v.len() implies (#[trigger] v[k]).0 != h by {
                        if k > 0 {
                            assert(rest[k - 1] == v[k]);
                        }
                    }
                },
            }
        }
    }
}

proof fn lemma_known_at(v: Seq<(Seq<u8>, TxState)>, h: Seq<u8>, i: int)
    requires
        0 <= i < v.len(),
        v[i].0 == h,
        forall|k: int| 0 <= k < i ==> (#[trigger] v[k]).0 != h,
    ensures
        known(v, h) == Some(v[i].1),
    decreases v.len(),
{
    if i > 0 {
        assert(v[0].0 != h);
        let rest = v.skip(1);
        assert forall|k: int| 0 <= k < i - 1 implies (#[trigger] rest[k]).0 != h by {
            assert(rest[k] == v[k + 1]);
        }
        lemma_known_at(rest, h, i - 1);
    }
}

proof fn lemma_unknown(v: Seq<(Seq<u8>, TxState)>, h: Seq<u8>)
    requires
        forall|k: int| 0 <= k < v.len() ==> (#[trigger] v[k]).0 != h,
    ensures
        known(v, h) is None,
{
    lemma_known_first(v, h);
}

/// What is noted of one write changes nothing that is known of another, while
/// there is room for both.
pub proof fn a_note_is_of_one_write(
    v: Seq<(Seq<u8>, TxState)>,
    h: Seq<u8>,
    st: TxState,
    other: Seq<u8>,
)
    requires
        other != h,
        v.len() < 1024 || known(v, h) is Some,
    ensures
        known(noted(v, h, st), other) == known(v, other),
        known(noted(v, h, st), h) == Some(st),
{
    answers_are_what_was_noted(v, h, st);
    lemma_known_first(v, other);
    let n = noted(v, h, st);
    match known(v, other) {
        Some(was) => {
            let i = choose|i: int|
                0 <= i < v.len() && #[trigger] v[i] == (other, was) && forall|k: int|
                    0 <= k < i ==> (#[trigger] v[k]).0 != other;
            assert(n[i] == v[i]);
            assert forall|k: int| 0 <= k < i implies (#[trigger] n[k]).0 != other by {
                assert(v[k].0 != other);
            }
            lemma_known_at(n, other, i);
        },
        None => {
            assert forall|k: int| 0 <= k < n.len() implies (#[trigger] n[k]).0 != other by {
                if k < v.len() {
                    assert(v[k].0 != other);
                }
            }
            lemma_unknown(n, other);
        },
    }
}

/// A block that closes seals the writes that went into it: those are sealed at
/// its height, and what is known of every other write is as it was.
pub proof fn a_closed_block_seals_its_writes(
    v: Seq<(Seq<u8>, TxState)>,
    closing: u64,
    h: Seq<u8>,
)
    ensures
        known(v, h) is None <==> known(sealed_all(v, closing), h) is None,
        known(v, h) == Some(TxState::Applied { height: closing }) ==> known(
            sealed_all(v, closing),
            h,
        ) == Some(TxState::Sealed { height: closing }),
        known(v, h) != Some(TxState::Applied { height: closing }) ==> known(
            sealed_all(v, closing),
            h,
        ) == known(v, h),
{
    let n = sealed_all(v, closing);
    lemma_known_first(v, h);
    match known(v, h) {
        Some(was) => {
            let i = choose|i: int|
                0 <= i < v.len() && #[trigger] v[i] == (h, was) && forall|k: int|
                    0 <= k < i ==> (#[trigger] v[k]).0 != h;
            assert forall|k: int| 0 <= k < i implies (#[trigger] n[k]).0 != h by {
                assert(v[k].0 != h);
            }
            lemma_known_at(n, h, i);
        },
        None => {
            assert forall|k: int| 0 <= k < n.len() implies (#[trigger] n[k]).0 != h by {
                assert(v[k].0 != h);
            }
            lemma_unknown(n, h);
        },
    }
}

/// What a sender is told of its write: its state, and the block where it is in
/// one.
pub proof fn a_state_reads_back(s: TxState, j: Json)
    requires
        json::tree(j) == Tree::Object(state_members(s)),
    ensures
        match s {
            TxState::Pending => json::text_at(j, "status"@) == Some("pending"@) && json::num_at(
                j,
                "height"@,
            ) is None,
            TxState::Applied { height } => json::text_at(j, "status"@) == Some("applied"@)
                && json::num_at(j, "height"@) == Some(height),
            TxState::Sealed { height } => json::text_at(j, "status"@) == Some("sealed"@)
                && json::num_at(j, "height"@) == Some(height),
        },
{
    reveal_strlit("status");
    reveal_strlit("height");
    assert("status"@.len() == 6);
    assert("height"@.len() == 6);
    assert("height"@[0] == 'h');
    assert("status"@[0] == 's');
    reveal_with_fuel(json::first_under, 4);
    json::values_read_as_built(j, "status"@);
    json::values_read_as_built(j, "height"@);
}

/// A write that is taken out is gone, and no other; the rest stays in order.
pub proof fn only_that_write_is_taken_out(v: Seq<HeldView>, h: Seq<u8>, e: HeldView)
    ensures
        without(v, h).contains(e) <==> v.contains(e) && e.hash != h,
        (forall|i: int| 0 <= i < v.len() ==> (#[trigger] v[i]).hash != h) ==> without(v, h) == v,
        without(v, h).len() <= v.len(),
    decreases v.len(),
{
    if v.len() > 0 {
        let front = v.drop_last();
        let w = without(front, h);
        let all = without(v, h);
        only_that_write_is_taken_out(front, h, e);
        assert(v[v.len() - 1] == v.last());
        if v.contains(e) {
            let i = choose|i: int| 0 <= i < v.len() && v[i] == e;
            if i < front.len() {
                assert(front[i] == e);
            }
        }
        if front.contains(e) {
            let i = choose|i: int| 0 <= i < front.len() && front[i] == e;
            assert(v[i] == e);
        }
        if v.last().hash != h {
            assert(all[w.len() as int] == v.last());
            if w.contains(e) {
                let i = choose|i: int| 0 <= i < w.len() && w[i] == e;
                assert(all[i] == e);
            }
            if all.contains(e) {
                let i = choose|i: int| 0 <= i < all.len() && all[i] == e;
                if i < w.len() {
                    assert(w[i] == e);
                }
            }
        }
        if forall|i: int| 0 <= i < v.len() ==> (#[trigger] v[i]).hash != h {
            assert forall|i: int| 0 <= i < front.len() implies (#[trigger] front[i]).hash != h by {
                assert(front[i] == v[i]);
            }
            assert(front.push(v.last()) =~= v);
        }
    } else {
        assert(without(v, h) =~= v);
    }
}

/// A write waits for a quarter of an hour and no longer; while none is that old
/// all stay as they are.
pub proof fn only_old_writes_expire(v: Seq<HeldView>, now: u64, e: HeldView)
    ensures
        unexpired(v, now).contains(e) <==> v.contains(e) && now - e.at < 900_000,
        (forall|i: int| 0 <= i < v.len() ==> now - (#[trigger] v[i]).at < 900_000) ==> unexpired(
            v,
            now,
        ) == v,
    decreases v.len(),
{
    if v.len() > 0 {
        let front = v.drop_last();
        let w = unexpired(front, now);
        let all = unexpired(v, now);
        only_old_writes_expire(front, now, e);
        assert(v[v.len() - 1] == v.last());
        if v.contains(e) {
            let i = choose|i: int| 0 <= i < v.len() && v[i] == e;
            if i < front.len() {
                assert(front[i] == e);
            }
        }
        if front.contains(e) {
            let i = choose|i: int| 0 <= i < front.len() && front[i] == e;
            assert(v[i] == e);
        }
        if fresh(v.last(), now) {
            assert(all[w.len() as int] == v.last());
            if w.contains(e) {
                let i = choose|i: int| 0 <= i < w.len() && w[i] == e;
                assert(all[i] == e);
            }
            if all.contains(e) {
                let i = choose|i: int| 0 <= i < all.len() && all[i] == e;
                if i < w.len() {
                    assert(w[i] == e);
                }
            }
        }
        if forall|i: int| 0 <= i < v.len() ==> now - (#[trigger] v[i]).at < 900_000 {
            assert forall|i: int| 0 <= i < front.len() implies now - (#[trigger] front[i]).at
                < 900_000 by {
                assert(front[i] == v[i]);
            }
            assert(front.push(v.last()) =~= v);
        }
    } else {
        assert(unexpired(v, now) =~= v);
    }
}

/// A write that is queued is held with its own bytes, since now, not yet carried
/// by anyone, and pending to whoever asks; a write that is held already stays as
/// it is.
pub proof fn a_queued_write_is_pending(q: QueueView, h: Seq<u8>, bytes: Seq<u8>, now: u64)
    ensures
        entry_of(q.held, h) is Some ==> queued(q, h, bytes, now) == q,
        entry_of(q.held, h) is None ==> {
            let r = queued(q, h, bytes, now);
            &&& r.held.last() == (HeldView { hash: h, bytes, at: now, carried: false })
            &&& known(r.txs, h) == Some(TxState::Pending)
            &&& r.carried == q.carried
            &&& q.held.len() < 512 ==> r.held.drop_last() == q.held
        },
{
    answers_are_what_was_noted(q.txs, h, TxState::Pending);
    let r = queued(q, h, bytes, now);
    if entry_of(q.held, h) is None && q.held.len() < 512 {
        assert(r.held.drop_last() =~= q.held);
    }
}

/// As many writes are offered as nobody carries, up to the room there is.
pub proof fn every_write_nobody_carries_is_offered(held: Seq<HeldView>, room: nat)
    ensures
        offered(held, room).len() == (if uncarried(held) < room {
            uncarried(held)
        } else {
            room
        }),
        uncarried(held) <= held.len(),
        (forall|i: int| 0 <= i < held.len() ==> !(#[trigger] held[i]).carried) ==> uncarried(held)
            == held.len(),
    decreases held.len(),
{
    if held.len() > 0 {
        let rest = held.skip(1);
        lemma_uncarried_front(held);
        every_write_nobody_carries_is_offered(rest, room);
        if room > 0 {
            every_write_nobody_carries_is_offered(rest, (room - 1) as nat);
        }
        if forall|i: int| 0 <= i < held.len() ==> !(#[trigger] held[i]).carried {
            assert forall|i: int| 0 <= i < rest.len() implies !(#[trigger] rest[i]).carried by {
                assert(rest[i] == held[i + 1]);
            }
            assert(!held[0].carried);
        }
    }
}

proof fn lemma_uncarried_front(held: Seq<HeldView>)
    requires
        held.len() > 0,
    ensures
        uncarried(held) == uncarried(held.skip(1)) + (if held[0].carried {
            0nat
        } else {
            1nat
        }),
    decreases held.len(),
{
    if held.len() == 1 {
        assert(held.drop_last() =~= Seq::<HeldView>::empty());
        assert(held.skip(1) =~= Seq::<HeldView>::empty());
        assert(uncarried(held.drop_last()) == 0);
    } else {
        let front = held.drop_last();
        lemma_uncarried_front(front);
        assert(front.skip(1) =~= held.skip(1).drop_last());
        assert(held.skip(1).last() == held.last());
    }
}

/// A mark that a peer carries a write is on that write alone, and changes
/// nothing else of it.
pub proof fn only_what_a_peer_names_is_marked(
    held: Seq<HeldView>,
    names: Seq<Seq<char>>,
    i: int,
)
    requires
        0 <= i < held.len(),
    ensures
        marked_all(held, names).len() == held.len(),
        marked_all(held, names)[i].hash == held[i].hash,
        marked_all(held, names)[i].bytes == held[i].bytes,
        marked_all(held, names)[i].at == held[i].at,
        marked_all(held, names)[i].carried <==> held[i].carried || spelt(names, held[i].hash),
    decreases names.len(),
{
    if names.len() > 0 {
        let front = names.drop_last();
        only_what_a_peer_names_is_marked(held, front, i);
        assert(names[names.len() - 1] == names.last());
        if spelt(names, held[i].hash) {
            let k = choose|k: int|
                0 <= k < names.len() && keys::account_in(#[trigger] names[k]) == Some(held[i].hash);
            if k < front.len() {
                assert(front[k] == names[k]);
            }
        }
        if spelt(front, held[i].hash) {
            let k = choose|k: int|
                0 <= k < front.len() && keys::account_in(#[trigger] front[k]) == Some(held[i].hash);
            assert(names[k] == front[k]);
        }
    }
}

/// A write that a peer will deliver is remembered as handed on: the newest, with
/// those before it as far as they are kept. It is handed on where the answer is
/// final: it was taken, or refused for good.
pub proof fn what_was_handed_on_is_remembered(q: QueueView, h: Seq<u8>, status: u16)
    ensures
        taken_on(q, h).carried.last() == h,
        q.carried.len() < 64 ==> taken_on(q, h).carried.drop_last() == q.carried,
        taken_on(q, h).held == q.held,
        taken_on(q, h).txs == q.txs,
        is_final(status) <==> (200 <= status <= 299) || status == 422 || status == 400,
{
    if q.carried.len() < 64 {
        assert(taken_on(q, h).carried.drop_last() =~= q.carried);
    }
}

/// The last of the held is found where no other has its name.
pub proof fn lemma_entry_at_end(held: Seq<HeldView>, h: Seq<u8>)
    requires
        held.len() > 0,
        held.last().hash == h,
    ensures
        entry_of(held, h) is Some,
    decreases held.len(),
{
    if held[0].hash != h {
        assert(held.skip(1).last() == held.last());
        lemma_entry_at_end(held.skip(1), h);
    }
}

} // verus!
