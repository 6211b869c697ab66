//! Where a write goes from the node that took it in, and what its sender is
//! told.

use crate::auth;
use crate::json;
use crate::json::{Json, Tree};
use crate::keys;
use crate::keys::Account;
use crate::mempool;
use crate::mempool::{TxHash, Queue, QueueView, TxState};
use crate::outside;
use crate::text;
use vstd::prelude::*;
use vstd::string::*;

verus! {

// ---------------------------------------------------------------------
// Answers
// ---------------------------------------------------------------------

/// An answer: an HTTP status and a body.
pub struct Reply {
    pub status: u16,
    pub body: Json,
}

#[verifier::ext_equal]
pub struct ReplyView {
    pub status: u16,
    pub body: Seq<(Seq<char>, Tree)>,
}

/// An answer says this.
pub open spec fn says(r: Reply, v: ReplyView) -> bool {
    r.status == v.status && json::tree(r.body) == Tree::Object(v.body)
}

pub open spec fn failure(status: u16, error: Seq<char>) -> ReplyView {
    ReplyView {
        status,
        body: seq![("ok"@, Tree::Bool(false)), ("error"@, Tree::Str(error))],
    }
}

fn fail(status: u16, error: &str) -> (r: Reply)
    ensures
        says(r, failure(status, error@)),
{
    let mut m = json::members();
    json::member(&mut m, "ok", Json::Bool(false));
    json::member(&mut m, "error", json::string(error));
    assert(json::tree_members(m@) =~= failure(status, error@).body);
    Reply { status, body: Json::Object(m) }
}

/// An answer with nothing but a reason.
pub open spec fn complaint(status: u16, error: Seq<char>) -> ReplyView {
    ReplyView { status, body: seq![("error"@, Tree::Str(error))] }
}

fn complain(status: u16, error: &str) -> (r: Reply)
    ensures
        says(r, complaint(status, error@)),
{
    let mut m = json::members();
    json::member(&mut m, "error", json::string(error));
    assert(json::tree_members(m@) =~= complaint(status, error@).body);
    Reply { status, body: Json::Object(m) }
}

/// The answer where a forwarded request did not get through.
pub fn unreachable_primary(e: &str) -> (r: Reply)
    ensures
        says(r, failure(502, "primary unreachable: "@ + e@)),
{
    fail(502, "primary unreachable: ".to_owned().concat(e).as_str())
}

// ---------------------------------------------------------------------
// Routes
// ---------------------------------------------------------------------

/// Where a node sends what only the primary can answer.
pub enum Route {
    /// This node is the primary.
    Here,
    /// The primary's address.
    Primary(String),
    /// There is no primary to send to. A name where there is one, but this
    /// node follows it by push and has no route to it.
    Nobody(Option<String>),
}

pub enum RouteView {
    Here,
    Primary(Seq<char>),
    Nobody(Option<Seq<char>>),
}

impl View for Route {
    type V = RouteView;

    open spec fn view(&self) -> RouteView {
        match self {
            Route::Here => RouteView::Here,
            Route::Primary(p) => RouteView::Primary(p@),
            Route::Nobody(l) => RouteView::Nobody(text::text_view(*l)),
        }
    }
}

/// Where to send it: nowhere else while this node produces, else to the peer
/// it follows.
pub fn route(producing: bool, peer: &Option<String>, leader: &Option<String>) -> (r: Route)
    ensures
        r@ == (if producing {
            RouteView::Here
        } else {
            match text::text_view(*peer) {
                Some(p) => RouteView::Primary(p),
                None => RouteView::Nobody(text::text_view(*leader)),
            }
        }),
{
    if producing {
        Route::Here
    } else {
        match peer {
            Some(p) => Route::Primary(p.clone()),
            None => match leader {
                Some(l) => Route::Nobody(Some(l.clone())),
                None => Route::Nobody(None),
            },
        }
    }
}

pub open spec fn no_primary_text(leader: Option<Seq<char>>) -> Seq<char> {
    match leader {
        Some(l) => "the primary is "@ + l
            + ", but this node has no route to it (it follows by push); submit to another node"@,
        None => "no primary right now (election in progress); retry shortly"@,
    }
}

/// The answer while there is no primary to hand a write to.
pub fn no_primary(leader: &Option<String>) -> (r: Reply)
    ensures
        says(r, failure(503, no_primary_text(text::text_view(*leader)))),
{
    match leader {
        Some(l) => fail(
            503,
            "the primary is ".to_owned().concat(l.as_str()).concat(
                ", but this node has no route to it (it follows by push); submit to another node",
            ).as_str(),
        ),
        None => fail(503, "no primary right now (election in progress); retry shortly"),
    }
}

// ---------------------------------------------------------------------
// Taking a write in
// ---------------------------------------------------------------------

pub open spec fn queue_note(leader: Option<Seq<char>>) -> Seq<char> {
    match leader {
        Some(l) => "no route to the primary ("@ + l
            + ") yet; queued locally and relaying to peers"@,
        None => "no primary right now (election in progress); queued locally"@,
    }
}

pub open spec fn pending_reply(hash: Seq<u8>, leader: Option<Seq<char>>) -> ReplyView {
    ReplyView {
        status: 200,
        body: seq![
            ("ok"@, Tree::Bool(true)),
            ("status"@, Tree::Str("pending"@)),
            ("tx_hash"@, Tree::Str(keys::hexed(hash))),
            ("note"@, Tree::Str(queue_note(leader))),
        ],
    }
}

fn pending_answer(hash: &TxHash, leader: &Option<String>) -> (r: Reply)
    ensures
        says(r, pending_reply(hash@, text::text_view(*leader))),
{
    let note = match leader {
        Some(l) => "no route to the primary (".to_owned().concat(l.as_str()).concat(
            ") yet; queued locally and relaying to peers",
        ),
        None => "no primary right now (election in progress); queued locally".to_owned(),
    };
    let mut m = json::members();
    json::member(&mut m, "ok", Json::Bool(true));
    json::member(&mut m, "status", json::string("pending"));
    json::member(&mut m, "tx_hash", Json::Str(keys::to_hex(hash)));
    json::member(&mut m, "note", json::string(note.as_str()));
    assert(json::tree_members(m@) =~= pending_reply(hash@, text::text_view(*leader)).body);
    Reply { status: 200, body: Json::Object(m) }
}

/// What happens to a write that came in.
pub enum Taken {
    /// It is answered.
    Answer(Reply),
    /// It goes on, unchanged, to this address, and that answer goes back.
    Forward(String),
    /// It is applied to the open block; see [`settle`].
    Apply,
}

/// The refusal for an account that no genesis gave standing.
pub open spec fn no_standing() -> ReplyView {
    failure(422, "rejected: Invalid(Payment)"@)
}

/// What a write is met with. Only a genesis account's can ever land, so
/// another's is refused here, with the chain's own answer. `signer` is the
/// account that signed it, where it could be read.
pub open spec fn met(
    q: QueueView,
    body: Seq<u8>,
    refused: bool,
    route: RouteView,
    now: u64,
    after: QueueView,
    r: Taken,
) -> bool {
    if refused {
        after == q && (r matches Taken::Answer(a) && says(a, no_standing()))
    } else {
        match route {
            RouteView::Here => after == q && r is Apply,
            RouteView::Primary(p) => after == q && (r matches Taken::Forward(u) && u@ == p
                + "/submit"@),
            RouteView::Nobody(leader) => {
                &&& after == mempool::queued(q, outside::blake2_256(body), body, now)
                &&& r matches Taken::Answer(a) && says(
                    a,
                    pending_reply(outside::blake2_256(body), leader),
                )
            },
        }
    }
}

/// Takes a signed extrinsic in, whichever door it came through. With no route
/// to the primary it is queued instead of refused.
pub fn accept_extrinsic(
    q: &mut Queue,
    body: &Vec<u8>,
    signer: &Option<Account>,
    members: &Vec<Account>,
    root: &Account,
    leader: &Account,
    route: &Route,
    now: u64,
) -> (r: Taken)
    requires
        old(q).wf(),
    ensures
        final(q).wf(),
        met(
            old(q)@,
            body@,
            signer matches Some(a) && !(auth::accounts(members@).contains(a@) || a@ == root@ || a@
                == leader@),
            route@,
            now,
            final(q)@,
            r,
        ),
{
    match signer {
        Some(a) => {
            if !auth::is_trusted_signer(members, root, leader, a) {
                return Taken::Answer(fail(422, "rejected: Invalid(Payment)"));
            }
        },
        None => {},
    }
    match route {
        Route::Here => Taken::Apply,
        Route::Primary(p) => Taken::Forward(p.clone().concat("/submit")),
        Route::Nobody(l) => {
            let hash = auth::tx_hash(body.as_slice());
            let mut copy: Vec<u8> = Vec::new();
            copy.extend_from_slice(body.as_slice());
            assert(copy@ =~= body@);
            q.mempool_insert(&hash, copy, now);
            Taken::Answer(pending_answer(&hash, l))
        },
    }
}

/// What came of applying a write.
pub enum Outcome {
    /// It is no extrinsic, for this reason.
    Unreadable(String),
    /// This node stopped producing in the meantime.
    Demoted,
    /// It went into block `height`.
    Applied { height: u64 },
    /// The chain refused it.
    Refused(String),
}

pub open spec fn applied_reply(hash: Seq<u8>, height: u64) -> ReplyView {
    ReplyView {
        status: 200,
        body: seq![
            ("ok"@, Tree::Bool(true)),
            ("status"@, Tree::Str("applied"@)),
            ("tx_hash"@, Tree::Str(keys::hexed(hash))),
            ("height"@, Tree::Num(height)),
        ],
    }
}

/// The queue once a write went into the open block.
pub open spec fn landed(q: QueueView, hash: Seq<u8>, height: u64) -> QueueView {
    QueueView {
        held: mempool::without(q.held, hash),
        txs: mempool::noted(q.txs, hash, TxState::Applied { height }),
        ..q
    }
}

/// Answers a write that was to be applied here. A refusal is the chain's
/// answer, not an error.
pub fn settle(q: &mut Queue, body: &Vec<u8>, outcome: &Outcome) -> (r: Reply)
    requires
        old(q).wf(),
    ensures
        final(q).wf(),
        final(q)@ == (match *outcome {
            Outcome::Applied { height } => landed(old(q)@, outside::blake2_256(body@), height),
            _ => old(q)@,
        }),
        says(
            r,
            match *outcome {
                Outcome::Unreadable(e) => failure(400, "bad extrinsic: "@ + e@),
                Outcome::Demoted => failure(503, no_primary_text(None)),
                Outcome::Applied { height } => applied_reply(outside::blake2_256(body@), height),
                Outcome::Refused(e) => failure(422, e@),
            },
        ),
{
    match outcome {
        Outcome::Unreadable(e) => fail(400, "bad extrinsic: ".to_owned().concat(e.as_str()).as_str()),
        Outcome::Demoted => no_primary(&None),
        Outcome::Applied { height } => {
            let hash = auth::tx_hash(body.as_slice());
            q.remove(&hash);
            q.set_tx_status(&hash, TxState::Applied { height: *height });
            let mut m = json::members();
            json::member(&mut m, "ok", Json::Bool(true));
            json::member(&mut m, "status", json::string("applied"));
            json::member(&mut m, "tx_hash", Json::Str(keys::to_hex(&hash)));
            json::member(&mut m, "height", Json::Num(*height));
            assert(json::tree_members(m@) =~= applied_reply(hash@, *height).body);
            Reply { status: 200, body: Json::Object(m) }
        },
        Outcome::Refused(e) => fail(422, e.as_str()),
    }
}

/// What was applied can be asked about at once, and is no longer offered.
pub proof fn what_landed_is_answered(q: QueueView, hash: Seq<u8>, height: u64)
    ensures
        mempool::known(landed(q, hash, height).txs, hash) == Some(TxState::Applied { height }),
        mempool::entry_of(landed(q, hash, height).held, hash) is None,
{
    mempool::answers_are_what_was_noted(q.txs, hash, TxState::Applied { height });
    lemma_gone(q.held, hash);
}

proof fn lemma_gone(v: Seq<mempool::HeldView>, h: Seq<u8>)
    ensures
        mempool::entry_of(mempool::without(v, h), h) is None,
    decreases v.len(),
{
    if v.len() > 0 {
        let front = v.drop_last();
        lemma_gone(front, h);
        if v.last().hash != h {
            lemma_other(mempool::without(front, h), v.last(), h);
        }
    }
}

proof fn lemma_other(w: Seq<mempool::HeldView>, e: mempool::HeldView, h: Seq<u8>)
    requires
        mempool::entry_of(w, h) is None,
        e.hash != h,
    ensures
        mempool::entry_of(w.push(e), h) is None,
    decreases w.len(),
{
    if w.len() > 0 {
        lemma_other(w.skip(1), e, h);
        assert(w.push(e).skip(1) =~= w.skip(1).push(e));
    } else {
        assert(w.push(e).skip(1) =~= w);
    }
}

// ---------------------------------------------------------------------
// Questions
// ---------------------------------------------------------------------

/// How a question is dealt with.
pub enum Asked {
    Answer(Reply),
    /// It is put to this address, signed as this node.
    Forward(String),
    /// It is answered from this node's own chain state.
    Here,
}

/// Deals with a question about a hash: from this node's own view where it has
/// one, else from the primary's. An answer that is not known stands both for
/// what was never seen and for what has been forgotten.
pub fn tx_question(q: &Queue, name: &str, route: &Route) -> (r: Asked)
    requires
        q.wf(),
    ensures
        match keys::unhexed(name@) {
            None => r matches Asked::Answer(a) && says(a, complaint(400, "bad hash hex"@)),
            Some(b) => if b.len() != 32 {
                r matches Asked::Answer(a) && says(a, complaint(400, "hash must be 32 bytes"@))
            } else {
                match mempool::known(q@.txs, b) {
                    Some(st) => r matches Asked::Answer(a) && a.status == 200 && json::tree(a.body)
                        == Tree::Object(mempool::state_members(st)),
                    None => match route@ {
                        RouteView::Primary(p) => r matches Asked::Forward(u) && u@ == p + "/tx/"@
                            + name@,
                        _ => r matches Asked::Answer(a) && says(
                            a,
                            ReplyView {
                                status: 200,
                                body: seq![("status"@, Tree::Str("unknown"@))],
                            },
                        ),
                    },
                }
            },
        },
{
    let bytes = match outside::hex_decode(name) {
        None => {
            return Asked::Answer(complain(400, "bad hash hex"));
        },
        Some(b) => b,
    };
    if bytes.len() != 32 {
        return Asked::Answer(complain(400, "hash must be 32 bytes"));
    }
    let hash = keys::account_from(&bytes);
    match q.tx_status(&hash) {
        Some(st) => {
            return Asked::Answer(Reply { status: 200, body: st.json() });
        },
        None => {},
    }
    match route {
        Route::Primary(p) => Asked::Forward(p.clone().concat("/tx/").concat(name)),
        _ => {
            let mut m = json::members();
            json::member(&mut m, "status", json::string("unknown"));
            assert(json::tree_members(m@) =~= seq![("status"@, Tree::Str("unknown"@))]);
            Asked::Answer(Reply { status: 200, body: Json::Object(m) })
        },
    }
}

/// Deals with a question about an account's nonce, which comes from wherever
/// the next extrinsic will land.
pub fn account_question(id: &str, authorized: bool, route: &Route) -> (r: Asked)
    ensures
        if keys::account_in(id@) is None {
            r matches Asked::Answer(a) && says(a, complaint(400, "bad account hex"@))
        } else if !authorized {
            r matches Asked::Answer(a) && says(a, complaint(401, "unauthorized"@))
        } else {
            match route@ {
                RouteView::Primary(p) => r matches Asked::Forward(u) && u@ == p + "/account/"@ + id@,
                _ => r is Here,
            }
        },
{
    if keys::from_hex(id).is_none() {
        return Asked::Answer(complain(400, "bad account hex"));
    }
    if !authorized {
        return Asked::Answer(complain(401, "unauthorized"));
    }
    match route {
        Route::Primary(p) => Asked::Forward(p.clone().concat("/account/").concat(id)),
        _ => Asked::Here,
    }
}

// ---------------------------------------------------------------------
// Upkeep
// ---------------------------------------------------------------------

/// What is done with a queued extrinsic on one round.
pub enum Turn {
    /// Another is delivering it and this node has a route of its own: nothing
    /// is left to do.
    Drop,
    /// It is applied here; see [`Queue`]'s `tried`.
    Apply,
    /// It is sent to this address.
    Send(String),
    /// Reachable peers are asked at this path whether it sealed.
    Ask(String),
}

/// The next thing to do with a queued extrinsic.
pub fn turn_for(hash: &TxHash, carried: bool, route: &Route) -> (r: Turn)
    ensures
        match route@ {
            RouteView::Nobody(_) => r matches Turn::Ask(u) && u@ == "/tx/"@ + keys::hexed(hash@),
            RouteView::Here => if carried {
                r is Drop
            } else {
                r is Apply
            },
            RouteView::Primary(p) => if carried {
                r is Drop
            } else {
                r matches Turn::Send(u) && u@ == p + "/submit"@
            },
        },
{
    match route {
        Route::Nobody(_) => Turn::Ask("/tx/".to_owned().concat(keys::to_hex(hash).as_str())),
        Route::Here => if carried {
            Turn::Drop
        } else {
            Turn::Apply
        },
        Route::Primary(p) => if carried {
            Turn::Drop
        } else {
            Turn::Send(p.clone().concat("/submit"))
        },
    }
}

impl Queue {
    /// A queued extrinsic was tried here: it is gone from the queue whatever
    /// came of it, and known as applied where it was.
    pub fn tried(&mut self, h: &TxHash, applied: Option<u64>)
        requires
            old(self).wf(),
        ensures
            final(self).wf(),
            final(self)@ == (match applied {
                Some(height) => landed(old(self)@, h@, height),
                None => (QueueView {
                    held: mempool::without(old(self)@.held, h@),
                    ..old(self)@
                }),
            }),
    {
        match applied {
            Some(height) => {
                self.set_tx_status(h, TxState::Applied { height });
            },
            None => {},
        }
        self.remove(h);
    }

    /// A queued extrinsic was sent on: it is gone from the queue where it was
    /// taken.
    pub fn sent(&mut self, h: &TxHash, success: bool)
        ensures
            final(self).wf() == old(self).wf(),
            final(self)@ == (if success {
                (QueueView { held: mempool::without(old(self)@.held, h@), ..old(self)@ })
            } else {
                old(self)@
            }),
    {
        if success {
            self.remove(h);
        }
    }

    /// A peer's answer about a queued extrinsic. Sealed, it is gone from the
    /// queue and no other peer need be asked.
    pub fn heard(&mut self, h: &TxHash, answer: &Json) -> (done: bool)
        requires
            old(self).wf(),
        ensures
            final(self).wf(),
            ({
                let status = json::text_at(*answer, "status"@);
                let height = match json::num_at(*answer, "height"@) {
                    Some(n) => n,
                    None => 0,
                };
                &&& done == (status == Some("sealed"@))
                &&& final(self)@ == (if status == Some("sealed"@) {
                    (QueueView {
                        held: mempool::without(old(self)@.held, h@),
                        txs: mempool::noted(old(self)@.txs, h@, TxState::Sealed { height }),
                        ..old(self)@
                    })
                } else if status == Some("applied"@) {
                    (QueueView {
                        txs: mempool::noted(old(self)@.txs, h@, TxState::Applied { height }),
                        ..old(self)@
                    })
                } else {
                    old(self)@
                })
            }),
    {
        let height: u64 = match answer.num("height") {
            Some(n) => n,
            None => 0,
        };
        match answer.text("status") {
            Some(s) => {
                if text::same(s.as_str(), "sealed") {
                    self.set_tx_status(h, TxState::Sealed { height });
                    self.remove(h);
                    return true;
                }
                if text::same(s.as_str(), "applied") {
                    proof {
                        reveal_strlit("sealed");
                        reveal_strlit("applied");
                        assert("sealed"@.len() != "applied"@.len());
                    }
                    self.set_tx_status(h, TxState::Applied { height });
                }
                false
            },
            None => false,
        }
    }

    /// Whether an extrinsic that did not seal is sent to peers again: not where
    /// it is known to be applied, nor where a peer delivers it.
    pub fn relays(&self, h: &TxHash, carried: bool) -> (r: bool)
        requires
            self.wf(),
        ensures
            r == (!carried && !(mempool::known(self@.txs, h@) matches Some(TxState::Applied { .. }))),
    {
        let applied = match self.tx_status(h) {
            Some(TxState::Applied { .. }) => true,
            _ => false,
        };
        !applied && !carried
    }
}

// ---------------------------------------------------------------------
// What an answer says
// ---------------------------------------------------------------------

/// A refusal says that it is one, and why; a complaint says what is wrong.
pub proof fn a_refusal_says_why(status: u16, error: Seq<char>, r: Reply)
    ensures
        says(r, failure(status, error)) ==> r.status == status && json::text_at(r.body, "error"@)
            == Some(error) && !json::flag_at(r.body, "ok"@) && json::set_at(r.body, "ok"@),
        says(r, complaint(status, error)) ==> r.status == status && json::text_at(
            r.body,
            "error"@,
        ) == Some(error),
{
    reveal_strlit("ok");
    reveal_strlit("error");
    assert("ok"@.len() == 2);
    assert("error"@.len() == 5);
    reveal_with_fuel(json::first_under, 4);
    json::values_read_as_built(r.body, "ok"@);
    json::values_read_as_built(r.body, "error"@);
}

/// A write that went into a block, and one that waits, is answered with its own
/// name: where it is, or that it is pending and why.
pub proof fn a_taken_write_is_answered(
    hash: Seq<u8>,
    height: u64,
    leader: Option<Seq<char>>,
    r: Reply,
)
    ensures
        says(r, applied_reply(hash, height)) ==> r.status == 200 && json::flag_at(r.body, "ok"@)
            && json::text_at(r.body, "status"@) == Some("applied"@) && json::text_at(
            r.body,
            "tx_hash"@,
        ) == Some(keys::hexed(hash)) && json::num_at(r.body, "height"@) == Some(height),
        says(r, pending_reply(hash, leader)) ==> r.status == 200 && json::flag_at(r.body, "ok"@)
            && json::text_at(r.body, "status"@) == Some("pending"@) && json::text_at(
            r.body,
            "tx_hash"@,
        ) == Some(keys::hexed(hash)) && (leader matches Some(l) ==> (json::text_at(
            r.body,
            "note"@,
        ) matches Some(note) && text::has(note, l))),
{
    reveal_strlit("ok");
    reveal_strlit("status");
    reveal_strlit("tx_hash");
    reveal_strlit("height");
    reveal_strlit("note");
    assert("ok"@.len() == 2);
    assert("status"@.len() == 6);
    assert("tx_hash"@.len() == 7);
    assert("height"@.len() == 6);
    assert("note"@.len() == 4);
    assert("height"@[0] == 'h');
    assert("status"@[0] == 's');
    reveal_with_fuel(json::first_under, 6);
    json::values_read_as_built(r.body, "ok"@);
    json::values_read_as_built(r.body, "status"@);
    json::values_read_as_built(r.body, "tx_hash"@);
    json::values_read_as_built(r.body, "height"@);
    json::values_read_as_built(r.body, "note"@);
    if leader is Some {
        let l = leader->0;
        text::lemma_has_self(l);
        text::lemma_has_right("no route to the primary ("@, l, l);
        text::lemma_has_left(
            "no route to the primary ("@ + l,
            ") yet; queued locally and relaying to peers"@,
            l,
        );
    }
}

/// What becomes of a write: a stranger's is refused, and changes nothing; the
/// primary applies it; a node that knows the primary sends it on there; and one
/// that does not queues it, whole, and says that it is pending.
pub proof fn a_write_is_met_by_what_the_node_is(
    q: QueueView,
    body: Seq<u8>,
    refused: bool,
    route: RouteView,
    now: u64,
    after: QueueView,
    r: Taken,
)
    requires
        met(q, body, refused, route, now, after, r),
    ensures
        refused ==> after == q && (r matches Taken::Answer(a) && a.status == 422),
        !refused && route is Here ==> r is Apply && after == q,
        !refused && route is Primary ==> after == q && (r matches Taken::Forward(to) && to@
            == route->Primary_0 + "/submit"@),
        !refused && route is Nobody ==> (r matches Taken::Answer(a) && a.status == 200)
            && mempool::entry_of(after.held, outside::blake2_256(body)) is Some && (
        mempool::entry_of(q.held, outside::blake2_256(body)) is None ==> after.held.last().bytes
            == body && mempool::known(after.txs, outside::blake2_256(body)) == Some(
            TxState::Pending,
        )),
{
    if !refused && route is Nobody {
        let h = outside::blake2_256(body);
        mempool::a_queued_write_is_pending(q, h, body, now);
        if mempool::entry_of(q.held, h) is None {
            mempool::lemma_entry_at_end(after.held, h);
        }
    }
}

/// A write that landed is queued no more, is known to be in its block, and
/// changes nothing of any other.
pub proof fn a_landed_write_is_done_with(
    q: QueueView,
    hash: Seq<u8>,
    height: u64,
    e: mempool::HeldView,
)
    ensures
        landed(q, hash, height).held.contains(e) <==> q.held.contains(e) && e.hash != hash,
        mempool::known(landed(q, hash, height).txs, hash) == Some(TxState::Applied { height }),
        landed(q, hash, height).carried == q.carried,
{
    mempool::only_that_write_is_taken_out(q.held, hash, e);
    mempool::answers_are_what_was_noted(q.txs, hash, TxState::Applied { height });
}

/// Where there is no primary to send to, it is said which of the two it is: that
/// it has a name but no way to it from here, or that there is none.
pub proof fn a_missing_primary_is_explained(leader: Option<Seq<char>>)
    ensures
        leader matches Some(l) ==> text::has(no_primary_text(leader), l) && text::has(
            queue_note(leader),
            l,
        ),
        leader is None ==> no_primary_text(leader)
            == "no primary right now (election in progress); retry shortly"@ && queue_note(leader)
            == "no primary right now (election in progress); queued locally"@,
{
    if leader is Some {
        let l = leader->0;
        text::lemma_has_self(l);
        text::lemma_has_right("the primary is "@, l, l);
        text::lemma_has_left(
            "the primary is "@ + l,
            ", but this node has no route to it (it follows by push); submit to another node"@,
            l,
        );
        text::lemma_has_right("no route to the primary ("@, l, l);
        text::lemma_has_left(
            "no route to the primary ("@ + l,
            ") yet; queued locally and relaying to peers"@,
            l,
        );
    }
}

} // verus!
