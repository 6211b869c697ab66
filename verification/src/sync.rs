//! Following the mesh: which role a node has, whose log it follows, and how
//! two logs are brought together by pull and by push.

use crate::keys;
use crate::keys::Account;
use crate::outside;
use crate::text;
use vstd::prelude::*;
use vstd::string::*;

verus! {

/// How many blocks one page holds.
pub const SYNC_PAGE: u64 = 256;

/// How long a failed push waits for the next to the same peer, in milliseconds.
pub const PUSH_BACKOFF_MS: u64 = 10_000;

/// How many operations one push session makes at most.
pub const PUSH_ROUNDS: usize = 1_000;

// ---------------------------------------------------------------------
// Roles
// ---------------------------------------------------------------------

/// What the mesh last decided, as seen from a node.
pub struct MeshSays {
    pub name: String,
    pub term: u64,
    /// The node's own head.
    pub head: u64,
    pub is_leader: bool,
    /// A node that only reads: it pulls from any member it can reach.
    pub is_learner: bool,
    pub leader: Option<String>,
    pub leader_route: Option<String>,
    /// The addresses a node may pull from, best first.
    pub sources: Vec<String>,
}

/// A node's role, as last applied.
pub struct Follow {
    pub producing: bool,
    /// The address followed; none on the primary and during an election.
    pub peer: Option<String>,
    /// A new primary was adopted: logs are compared before they are tailed.
    pub needs_reconcile: bool,
    /// The leader followed, by name, as last announced.
    pub followed: Option<String>,
}

#[verifier::ext_equal]
pub struct FollowView {
    pub producing: bool,
    pub peer: Option<Seq<char>>,
    pub needs_reconcile: bool,
    pub followed: Option<Seq<char>>,
}

impl View for Follow {
    type V = FollowView;

    open spec fn view(&self) -> FollowView {
        FollowView {
            producing: self.producing,
            peer: text::text_view(self.peer),
            needs_reconcile: self.needs_reconcile,
            followed: text::text_view(self.followed),
        }
    }
}

/// What a change of role asks for.
pub struct News {
    /// The node just became the primary: its clock runs from now on.
    pub promoted: bool,
    /// The node just stopped being the primary: what it holds is rebuilt from
    /// its store.
    pub demoted: bool,
    /// What is announced.
    pub lines: Vec<String>,
}

pub open spec fn term_end(m: MeshSays) -> Seq<char> {
    " (term "@ + text::dec(m.term as nat) + ")"@
}

pub open spec fn role_line(was: bool, m: MeshSays) -> Seq<Seq<char>> {
    if m.is_leader && !was {
        seq![
            "[mesh] "@ + m.name@ + " elected primary (term "@ + text::dec(m.term as nat) + ", head "@
                + text::dec(m.head as nat) + ")"@,
        ]
    } else if !m.is_leader && was {
        seq![
            "[mesh] "@ + m.name@ + " no longer primary (term "@ + text::dec(m.term as nat)
                + "); rebuilding from the store"@,
        ]
    } else {
        seq![]
    }
}

/// The address to follow: a learner keeps the one it has while that is still a
/// source; else the best source.
pub open spec fn chosen(f: FollowView, m: MeshSays) -> Option<Seq<char>> {
    let sources = text::texts(m.sources@);
    match f.peer {
        Some(p) => if m.is_learner && sources.contains(p) {
            Some(p)
        } else if sources.len() > 0 {
            Some(sources[0])
        } else {
            None
        },
        None => if sources.len() > 0 {
            Some(sources[0])
        } else {
            None
        },
    }
}

/// Whether the log is to be compared again: with another address, or for a
/// learner with another leader behind the same one.
pub open spec fn moved(f: FollowView, m: MeshSays) -> bool {
    let route = chosen(f, m);
    route != f.peer || (m.is_learner && route is Some && m.leader is Some && text::text_view(m.leader)
        != f.followed)
}

pub open spec fn leader_name(m: MeshSays) -> Seq<char> {
    match m.leader {
        Some(l) => l@,
        None => "?"@,
    }
}

pub open spec fn route_line(f: FollowView, m: MeshSays) -> Seq<Seq<char>> {
    match chosen(f, m) {
        Some(r) => if moved(f, m) {
            seq![
                "[mesh] following "@ + leader_name(m) + " "@ + (if text::text_view(m.leader_route)
                    == Some(r) {
                    "at"@
                } else {
                    "via a replica at"@
                }) + " "@ + r + term_end(m),
            ]
        } else {
            seq![]
        },
        None => seq![],
    }
}

/// The leader a node follows: none where it leads itself.
pub open spec fn now_followed(m: MeshSays) -> Option<Seq<char>> {
    if m.is_leader {
        None
    } else {
        text::text_view(m.leader)
    }
}

pub open spec fn push_line(f: FollowView, m: MeshSays) -> Seq<Seq<char>> {
    match now_followed(m) {
        Some(l) => if Some(l) != f.followed && chosen(f, m) is None {
            seq!["[mesh] following "@ + l + " by push: no route to it from here"@ + term_end(m)]
        } else {
            seq![]
        },
        None => seq![],
    }
}

/// A node's role once it did what the mesh decided.
pub open spec fn following(f: FollowView, m: MeshSays) -> FollowView {
    FollowView {
        producing: m.is_leader,
        peer: chosen(f, m),
        needs_reconcile: f.needs_reconcile || (moved(f, m) && chosen(f, m) is Some),
        followed: now_followed(m),
    }
}

fn optional_same(a: &Option<String>, b: &Option<String>) -> (r: bool)
    ensures
        r == (text::text_view(*a) == text::text_view(*b)),
{
    match (a, b) {
        (Some(x), Some(y)) => text::same(x.as_str(), y.as_str()),
        (None, None) => true,
        _ => false,
    }
}

fn copied(a: &Option<String>) -> (r: Option<String>)
    ensures
        text::text_view(r) == text::text_view(*a),
{
    match a {
        Some(x) => Some(x.clone()),
        None => None,
    }
}

fn choose_route(peer: &Option<String>, m: &MeshSays) -> (r: Option<String>)
    ensures
        forall|f: FollowView|
            f.peer == text::text_view(*peer) ==> text::text_view(r) == #[trigger] chosen(f, *m),
{
    match peer {
        Some(p) => {
            if m.is_learner && text::one_of(p.as_str(), &m.sources) {
                return Some(p.clone());
            }
        },
        None => {},
    }
    if m.sources.len() > 0 {
        Some(m.sources[0].clone())
    } else {
        None
    }
}

fn term_text(m: &MeshSays) -> (r: String)
    ensures
        r@ == term_end(*m),
{
    " (term ".to_owned().concat(text::number(m.term).as_str()).concat(")")
}

fn announce_role(was: bool, m: &MeshSays) -> (r: Vec<String>)
    ensures
        text::texts(r@) == role_line(was, *m),
{
    let mut out = text::none();
    if m.is_leader && !was {
        let s = "[mesh] ".to_owned().concat(m.name.as_str()).concat(" elected primary (term ").concat(
            text::number(m.term).as_str(),
        ).concat(", head ").concat(text::number(m.head).as_str()).concat(")");
        text::put(&mut out, s.as_str());
    } else if !m.is_leader && was {
        let s = "[mesh] ".to_owned().concat(m.name.as_str()).concat(
            " no longer primary (term ",
        ).concat(text::number(m.term).as_str()).concat("); rebuilding from the store");
        text::put(&mut out, s.as_str());
    }
    out
}

fn announce_route(r: &str, m: &MeshSays) -> (s: String)
    ensures
        s@ == "[mesh] following "@ + leader_name(*m) + " "@ + (if text::text_view(m.leader_route)
            == Some(r@) {
            "at"@
        } else {
            "via a replica at"@
        }) + " "@ + r@ + term_end(*m),
{
    let direct = match &m.leader_route {
        Some(l) => text::same(l.as_str(), r),
        None => false,
    };
    let via = if direct {
        "at"
    } else {
        "via a replica at"
    };
    let name = match &m.leader {
        Some(l) => l.clone(),
        None => "?".to_owned(),
    };
    "[mesh] following ".to_owned().concat(name.as_str()).concat(" ").concat(via).concat(" ").concat(
        r,
    ).concat(term_text(m).as_str())
}

impl Follow {
    /// A node that follows nobody yet.
    pub fn new() -> (r: Follow)
        ensures
            r@ == (FollowView {
                producing: false,
                peer: None,
                needs_reconcile: false,
                followed: None,
            }),
    {
        Follow { producing: false, peer: None, needs_reconcile: false, followed: None }
    }

    /// Applies what the mesh last decided.
    pub fn follow_mesh(&mut self, m: &MeshSays) -> (n: News)
        ensures
            final(self)@ == following(old(self)@, *m),
            n.promoted == (m.is_leader && !old(self).producing),
            n.demoted == (!m.is_leader && old(self).producing),
            text::texts(n.lines@) == role_line(old(self).producing, *m) + route_line(
                old(self)@,
                *m,
            ) + push_line(old(self)@, *m),
    {
        let ghost f = self@;
        let was = self.producing;
        let mut lines = announce_role(was, m);
        self.producing = m.is_leader;
        let route = choose_route(&self.peer, m);
        assert(text::text_view(route) == chosen(f, *m));
        let new_leader = m.is_learner && route.is_some() && m.leader.is_some() && !optional_same(
            &m.leader,
            &self.followed,
        );
        let ghost first = text::texts(lines@);
        if !optional_same(&route, &self.peer) || new_leader {
            match &route {
                Some(r) => {
                    let line = announce_route(r.as_str(), m);
                    text::put(&mut lines, line.as_str());
                    self.needs_reconcile = true;
                },
                None => {},
            }
            self.peer = route;
        }
        assert(text::texts(lines@) =~= first + route_line(f, *m));
        assert(text::text_view(self.peer) == chosen(f, *m));
        let ghost second = text::texts(lines@);
        let leader = if m.is_leader {
            None
        } else {
            copied(&m.leader)
        };
        if !optional_same(&leader, &self.followed) {
            match (&leader, &self.peer) {
                (Some(l), None) => {
                    let line = "[mesh] following ".to_owned().concat(l.as_str()).concat(
                        " by push: no route to it from here",
                    ).concat(term_text(m).as_str());
                    text::put(&mut lines, line.as_str());
                },
                _ => {},
            }
            self.followed = leader;
        }
        assert(text::texts(lines@) =~= second + push_line(f, *m));
        News { promoted: m.is_leader && !was, demoted: !m.is_leader && was, lines }
    }

    /// Whether what came from this address may still land here: the primary may
    /// have changed while it was fetched.
    pub fn still_follows(&self, peer: &str) -> (r: bool)
        ensures
            r == (!self@.producing && self@.peer == Some(peer@)),
    {
        if self.producing {
            return false;
        }
        match &self.peer {
            Some(p) => text::same(p.as_str(), peer),
            None => false,
        }
    }

    /// What a replica does on one tick.
    pub fn replica_step(&self) -> (r: ReplicaStep)
        ensures
            if self@.producing {
                r is Nothing
            } else {
                match self@.peer {
                    None => r is Nothing,
                    Some(p) => if self@.needs_reconcile {
                        r matches ReplicaStep::Reconcile(x) && x@ == p
                    } else {
                        r matches ReplicaStep::Tail(x) && x@ == p
                    },
                }
            },
    {
        if self.producing {
            return ReplicaStep::Nothing;
        }
        match &self.peer {
            None => ReplicaStep::Nothing,
            Some(p) => if self.needs_reconcile {
                ReplicaStep::Reconcile(p.clone())
            } else {
                ReplicaStep::Tail(p.clone())
            },
        }
    }

    /// Logs were compared with this address. What could not be asked is tried
    /// again; returns whether to go on and tail it.
    pub fn reconciled(&mut self, peer: &str, asked: bool) -> (tail: bool)
        ensures
            tail == asked,
            final(self)@ == (if asked && old(self)@.peer == Some(peer@) {
                (FollowView { needs_reconcile: false, ..old(self)@ })
            } else {
                old(self)@
            }),
    {
        if !asked {
            return false;
        }
        let same = match &self.peer {
            Some(p) => text::same(p.as_str(), peer),
            None => false,
        };
        if same {
            self.needs_reconcile = false;
        }
        true
    }
}

/// What a replica does on one tick.
pub enum ReplicaStep {
    /// It produces, or has nobody to follow yet.
    Nothing,
    Reconcile(String),
    Tail(String),
}

/// A node never both produces and has a leader it follows; and whoever it
/// newly follows is compared with before it is tailed.
pub proof fn a_new_source_is_compared_first(f: FollowView, m: MeshSays)
    ensures
        following(f, m).producing ==> following(f, m).followed is None,
        following(f, m).peer is Some && following(f, m).peer != f.peer ==> following(
            f,
            m,
        ).needs_reconcile,
        m.is_learner && m.leader is Some && text::text_view(m.leader) != f.followed && following(
            f,
            m,
        ).peer is Some ==> following(f, m).needs_reconcile,
{
}

/// A second look at the same decision changes nothing and announces nothing.
pub proof fn the_same_decision_is_quiet(f: FollowView, m: MeshSays)
    requires
        m.is_learner ==> !m.is_leader,
    ensures
        following(following(f, m), m) == following(f, m),
        role_line(following(f, m).producing, m) == Seq::<Seq<char>>::empty(),
        route_line(following(f, m), m) == Seq::<Seq<char>>::empty(),
        push_line(following(f, m), m) == Seq::<Seq<char>>::empty(),
{
    let g = following(f, m);
    let sources = text::texts(m.sources@);
    if sources.len() > 0 {
        assert(sources.contains(sources[0]));
    }
    assert(chosen(g, m) == g.peer);
}

// ---------------------------------------------------------------------
// Rows of blocks
// ---------------------------------------------------------------------

/// A block on its way: its height, and its body in hexadecimal.
pub struct BlockRow {
    pub height: u64,
    pub body_hex: String,
}

pub open spec fn row_view(r: BlockRow) -> (u64, Seq<char>) {
    (r.height, r.body_hex@)
}

pub open spec fn row_views(v: Seq<BlockRow>) -> Seq<(u64, Seq<char>)> {
    v.map_values(|r: BlockRow| row_view(r))
}

/// The rows of a page: the blocks there are from `from` on, at most `limit`.
pub open spec fn page(
    blocks: Seq<Option<Seq<u8>>>,
    from: int,
    limit: nat,
) -> Seq<(u64, Seq<char>)>
    decreases blocks.len(),
{
    if blocks.len() == 0 || limit == 0 {
        seq![]
    } else {
        match blocks[0] {
            Some(b) => seq![(from as u64, keys::hexed(b))] + page(
                blocks.skip(1),
                from + 1,
                (limit - 1) as nat,
            ),
            None => page(blocks.skip(1), from + 1, limit),
        }
    }
}

pub open spec fn body_view(o: Option<Vec<u8>>) -> Option<Seq<u8>> {
    match o {
        Some(b) => Some(b@),
        None => None,
    }
}

pub open spec fn body_views(v: Seq<Option<Vec<u8>>>) -> Seq<Option<Seq<u8>>> {
    v.map_values(|o: Option<Vec<u8>>| body_view(o))
}

/// A page of blocks. `blocks` is what the store holds from height `from` up to
/// its head.
pub fn page_rows(blocks: &Vec<Option<Vec<u8>>>, from: u64, limit: u64) -> (out: Vec<BlockRow>)
    requires
        from + blocks.len() <= u64::MAX,
    ensures
        row_views(out@) == page(body_views(blocks@), from as int, limit as nat),
{
    let mut out: Vec<BlockRow> = Vec::new();
    let ghost all = body_views(blocks@);
    let mut i: usize = 0;
    assert(all.skip(0) =~= all);
    assert(row_views(out@) + page(all, from as int, limit as nat) =~= page(
        all,
        from as int,
        limit as nat,
    ));
    while i < blocks.len() && (out.len() as u64) < limit
        invariant
            i <= blocks.len(),
            out.len() <= i,
            out.len() <= limit,
            from + blocks.len() <= u64::MAX,
            all == body_views(blocks@),
            page(all, from as int, limit as nat) == row_views(out@) + page(
                all.skip(i as int),
                from + i,
                (limit - out.len()) as nat,
            ),
        decreases blocks.len() - i,
    {
        let ghost had = row_views(out@);
        let ghost had_rows = out@;
        let ghost room = (limit - out.len()) as nat;
        assert(all.skip(i as int)[0] == body_view(blocks@[i as int]));
        assert(all.skip(i as int).skip(1) =~= all.skip(i + 1));
        match &blocks[i] {
            Some(b) => {
                let row = BlockRow {
                    height: from + i as u64,
                    body_hex: outside::hex_encode(b.as_slice()),
                };
                let ghost one = row_view(row);
                out.push(row);
                assert(row_views(out@) =~= had.push(one));
                assert(had + (seq![one] + page(all.skip(i + 1), from + i + 1, (room - 1) as nat))
                    =~= had.push(one) + page(all.skip(i + 1), from + i + 1, (room - 1) as nat));
            },
            None => {},
        }
        i = i + 1;
    }
    assert(page(all.skip(i as int), from + i, (limit - out.len()) as nat) =~= Seq::<
        (u64, Seq<char>),
    >::empty());
    assert(row_views(out@) + Seq::<(u64, Seq<char>)>::empty() =~= row_views(out@));
    out
}

/// How many blocks a request gets: what it asks for, at most a page.
pub fn page_limit(asked: Option<u64>) -> (r: u64)
    ensures
        r == (match asked {
            Some(n) => if n < SYNC_PAGE {
                n
            } else {
                SYNC_PAGE
            },
            None => SYNC_PAGE,
        }),
{
    match asked {
        Some(n) => if n < SYNC_PAGE {
            n
        } else {
            SYNC_PAGE
        },
        None => SYNC_PAGE,
    }
}

/// The bodies of some rows, up to the first that is no hexadecimal.
pub open spec fn bodies(rows: Seq<(u64, Seq<char>)>) -> Seq<Seq<u8>>
    decreases rows.len(),
{
    if rows.len() == 0 {
        seq![]
    } else {
        match keys::unhexed(rows[0].1) {
            Some(b) => seq![b] + bodies(rows.skip(1)),
            None => seq![],
        }
    }
}

pub open spec fn byte_views(v: Seq<Vec<u8>>) -> Seq<Seq<u8>> {
    v.map_values(|b: Vec<u8>| b@)
}

/// The bodies of some rows, up to the first that is no hexadecimal.
pub fn row_bodies(rows: &Vec<BlockRow>) -> (out: Vec<Vec<u8>>)
    ensures
        byte_views(out@) == bodies(row_views(rows@)),
{
    let mut out: Vec<Vec<u8>> = Vec::new();
    let ghost all = row_views(rows@);
    let mut i: usize = 0;
    assert(all.skip(0) =~= all);
    assert(byte_views(out@) + bodies(all) =~= bodies(all));
    while i < rows.len()
        invariant
            i <= rows.len(),
            all == row_views(rows@),
            bodies(all) == byte_views(out@) + bodies(all.skip(i as int)),
        decreases rows.len() - i,
    {
        let ghost had = byte_views(out@);
        assert(all.skip(i as int)[0] == row_view(rows@[i as int]));
        assert(all.skip(i as int).skip(1) =~= all.skip(i + 1));
        match outside::hex_decode(rows[i].body_hex.as_str()) {
            Some(b) => {
                let ghost one = b@;
                out.push(b);
                assert(byte_views(out@) =~= had.push(one));
                assert(had + (seq![one] + bodies(all.skip(i + 1))) =~= had.push(one) + bodies(
                    all.skip(i + 1),
                ));
            },
            None => {
                assert(had + bodies(all.skip(i as int)) =~= had);
                return out;
            },
        }
        i = i + 1;
    }
    assert(byte_views(out@) + bodies(all.skip(i as int)) =~= byte_views(out@));
    out
}

/// A page that was served reads back as the blocks that were there.
pub proof fn pages_read_back(blocks: Seq<Option<Seq<u8>>>, from: int, limit: nat)
    ensures
        bodies(page(blocks, from, limit)) == present(blocks, limit),
    decreases blocks.len(),
{
    if blocks.len() > 0 && limit > 0 {
        match blocks[0] {
            Some(b) => {
                pages_read_back(blocks.skip(1), from + 1, (limit - 1) as nat);
                keys::hex_reads_back(b);
                let rest = page(blocks.skip(1), from + 1, (limit - 1) as nat);
                assert((seq![(from as u64, keys::hexed(b))] + rest).skip(1) =~= rest);
            },
            None => {
                pages_read_back(blocks.skip(1), from + 1, limit);
            },
        }
    }
}

/// The first blocks there are.
pub open spec fn present(blocks: Seq<Option<Seq<u8>>>, limit: nat) -> Seq<Seq<u8>>
    decreases blocks.len(),
{
    if blocks.len() == 0 || limit == 0 {
        seq![]
    } else {
        match blocks[0] {
            Some(b) => seq![b] + present(blocks.skip(1), (limit - 1) as nat),
            None => present(blocks.skip(1), limit),
        }
    }
}

// ---------------------------------------------------------------------
// Comparing logs
// ---------------------------------------------------------------------

/// How a replica settles its log against a new primary's.
pub enum Settle {
    /// It compacted where the primary never did: everything is rebuilt from
    /// what the primary has.
    Rewind { fork: u64, line: String },
    /// The primary compacted past it: its checkpoint is taken.
    Adopt,
    /// It has nothing of its own to compare.
    Settled,
    /// Blocks from here on are compared.
    Compare { from: u64 },
}

/// The first thing to do about a new primary's log.
pub fn reconcile_plan(peer_cp: u64, my_cp: u64, my_head: u64) -> (r: Settle)
    requires
        my_cp <= my_head,
    ensures
        if peer_cp < my_cp {
            r matches Settle::Rewind { fork, line } && fork == my_cp - 1 && line@
                == "[node] sync: our checkpoint "@ + text::dec(my_cp as nat)
                + " is ahead of the primary's "@ + text::dec(peer_cp as nat)
                + "; rewinding to genesis"@
        } else if peer_cp > my_cp {
            r is Adopt
        } else if my_head == my_cp {
            r is Settled
        } else {
            r matches Settle::Compare { from } && from == my_cp + 1
        },
{
    if peer_cp < my_cp {
        let line = "[node] sync: our checkpoint ".to_owned().concat(
            text::number(my_cp).as_str(),
        ).concat(" is ahead of the primary's ").concat(text::number(peer_cp).as_str()).concat(
            "; rewinding to genesis",
        );
        Settle::Rewind { fork: my_cp - 1, line }
    } else if checkpoint_ahead(peer_cp, my_cp) {
        Settle::Adopt
    } else {
        after_no_checkpoint(my_cp, my_head)
    }
}

/// What follows where no checkpoint was taken over.
pub fn after_no_checkpoint(my_cp: u64, my_head: u64) -> (r: Settle)
    requires
        my_cp <= my_head,
    ensures
        if my_head == my_cp {
            r is Settled
        } else {
            r matches Settle::Compare { from } && from == my_cp + 1
        },
{
    if my_head == my_cp {
        Settle::Settled
    } else {
        Settle::Compare { from: my_cp + 1 }
    }
}

/// Whether a log goes back: where it agrees only up to below its head.
pub fn diverged(fork: u64, my_head: u64) -> (r: bool)
    ensures
        r == (fork < my_head),
{
    fork < my_head
}

/// What is announced of a rewind.
pub fn rewound_line(fork: u64, height: u64, dropped: u64) -> (r: String)
    ensures
        r@ == "[node] sync: diverged from primary above block "@ + text::dec(fork as nat)
            + ", rewound to "@ + text::dec(height as nat) + " (dropped "@ + text::dec(
            dropped as nat,
        ) + " block(s))"@,
{
    "[node] sync: diverged from primary above block ".to_owned().concat(
        text::number(fork).as_str(),
    ).concat(", rewound to ").concat(text::number(height).as_str()).concat(" (dropped ").concat(
        text::number(dropped).as_str(),
    ).concat(" block(s))")
}

/// Whether a peer's checkpoint is taken over: where it is past ours.
pub fn checkpoint_ahead(peer_cp: u64, my_cp: u64) -> (r: bool)
    ensures
        r == (peer_cp > my_cp),
{
    peer_cp > my_cp
}

/// Where the page behind block `last` begins, while `head` is not reached.
pub fn page_after(last: u64, head: u64) -> (r: Option<u64>)
    ensures
        r == (if last < head {
            Some((last + 1) as u64)
        } else {
            None
        }),
{
    if last < head {
        Some(last + 1)
    } else {
        None
    }
}

/// Where comparing goes on after one page, or that it ends: where the page does
/// not agree to its end, or was not all readable.
pub fn next_page(from: u64, agreed: u64, bodies: usize, rows: usize) -> (r: Option<u64>)
    requires
        from + bodies <= u64::MAX,
        bodies <= rows,
        rows > 0,
    ensures
        r == (if agreed < from + bodies - 1 || bodies < rows {
            None
        } else {
            Some((from + bodies) as u64)
        }),
{
    if bodies < rows {
        return None;
    }
    if agreed < from + (bodies as u64 - 1) {
        return None;
    }
    Some(from + bodies as u64)
}

// ---------------------------------------------------------------------
// Pulling
// ---------------------------------------------------------------------

/// What to do with a row that came by pull.
pub enum Pulled {
    /// A push got there first.
    Skip,
    /// It is no hexadecimal; the rest is left.
    Bad(String),
    /// It is appended.
    Take(Vec<u8>),
}

pub fn pulled_row(head: u64, row: &BlockRow) -> (r: Pulled)
    ensures
        if row.height <= head {
            r is Skip
        } else {
            match keys::unhexed(row.body_hex@) {
                None => r matches Pulled::Bad(line) && line@
                    == "[node] sync: peer sent bad hex for block "@ + text::dec(row.height as nat),
                Some(b) => r matches Pulled::Take(v) && v@ == b,
            }
        },
{
    if row.height <= head {
        return Pulled::Skip;
    }
    match outside::hex_decode(row.body_hex.as_str()) {
        None => Pulled::Bad(
            "[node] sync: peer sent bad hex for block ".to_owned().concat(
                text::number(row.height).as_str(),
            ),
        ),
        Some(b) => Pulled::Take(b),
    }
}

// ---------------------------------------------------------------------
// Pushing
// ---------------------------------------------------------------------

pub open spec fn keyed<V>(v: Seq<(String, V)>) -> Map<Seq<char>, V>
    decreases v.len(),
{
    if v.len() == 0 {
        Map::empty()
    } else {
        keyed(v.drop_last()).insert(v.last().0@, v.last().1)
    }
}

/// A primary's pushes: when each address may next be pushed to, the last error
/// announced of each, and which addresses were compared with in which term.
pub struct Pushes {
    pub busy_until: Vec<(String, u64)>,
    pub last_error: Vec<(String, String)>,
    pub compared: Vec<(String, u64)>,
}

#[verifier::ext_equal]
pub struct PushesView {
    pub busy_until: Map<Seq<char>, u64>,
    pub last_error: Map<Seq<char>, Seq<char>>,
    pub compared: Set<(Seq<char>, u64)>,
}

pub open spec fn errors(v: Seq<(String, String)>) -> Map<Seq<char>, Seq<char>>
    decreases v.len(),
{
    if v.len() == 0 {
        Map::empty()
    } else {
        errors(v.drop_last()).insert(v.last().0@, v.last().1@)
    }
}

pub open spec fn pairs(v: Seq<(String, u64)>) -> Set<(Seq<char>, u64)> {
    Set::new(|p: (Seq<char>, u64)| exists|i: int| 0 <= i < v.len() && (#[trigger] v[i]).0@ == p.0 && v[i].1 == p.1)
}

impl View for Pushes {
    type V = PushesView;

    open spec fn view(&self) -> PushesView {
        PushesView {
            busy_until: keyed(self.busy_until@),
            last_error: errors(self.last_error@),
            compared: pairs(self.compared@),
        }
    }
}

/// Whether an address may be pushed to now.
pub open spec fn free(busy: Map<Seq<char>, u64>, route: Seq<char>, now: u64) -> bool {
    !busy.dom().contains(route) || now >= busy[route]
}

pub open spec fn free_ones(
    busy: Map<Seq<char>, u64>,
    targets: Seq<Seq<char>>,
    now: u64,
) -> Seq<Seq<char>>
    decreases targets.len(),
{
    if targets.len() == 0 {
        seq![]
    } else if free(busy, targets.last(), now) {
        free_ones(busy, targets.drop_last(), now).push(targets.last())
    } else {
        free_ones(busy, targets.drop_last(), now)
    }
}

pub open spec fn all_busy(busy: Map<Seq<char>, u64>, routes: Seq<Seq<char>>) -> Map<Seq<char>, u64>
    decreases routes.len(),
{
    if routes.len() == 0 {
        busy
    } else {
        all_busy(busy, routes.drop_last()).insert(routes.last(), u64::MAX)
    }
}

proof fn lemma_keyed_push<V>(v: Seq<(String, V)>, e: (String, V))
    ensures
        keyed(v.push(e)) == keyed(v).insert(e.0@, e.1),
{
    assert(v.push(e).drop_last() =~= v);
}

proof fn lemma_keyed_at<V>(v: Seq<(String, V)>, k: Seq<char>, n: int)
    requires
        0 <= n <= v.len(),
        n < v.len() ==> v[n].0@ == k,
        forall|i: int| n < i < v.len() ==> (#[trigger] v[i]).0@ != k,
        n == v.len() ==> forall|i: int| 0 <= i < v.len() ==> (#[trigger] v[i]).0@ != k,
    ensures
        n < v.len() ==> keyed(v).dom().contains(k) && keyed(v)[k] == v[n].1,
        n == v.len() ==> !keyed(v).dom().contains(k),
    decreases v.len(),
{
    if v.len() > 0 {
        let front = v.drop_last();
        assert(v.last() == v[v.len() - 1]);
        assert forall|i: int| 0 <= i < front.len() implies front[i] == v[i] by {}
        if n == v.len() {
            lemma_keyed_at(front, k, n - 1);
        } else if n < v.len() - 1 {
            lemma_keyed_at(front, k, n);
        }
    }
}

fn when_free(v: &Vec<(String, u64)>, route: &str) -> (r: Option<u64>)
    ensures
        match r {
            Some(t) => keyed(v@).dom().contains(route@) && keyed(v@)[route@] == t,
            None => !keyed(v@).dom().contains(route@),
        },
{
    let mut i: usize = v.len();
    while i > 0
        invariant
            i <= v.len(),
            forall|k: int| i <= k < v.len() ==> (#[trigger] v@[k]).0@ != route@,
        decreases i,
    {
        if text::same(v[i - 1].0.as_str(), route) {
            proof {
                lemma_keyed_at(v@, route@, i - 1);
            }
            return Some(v[i - 1].1);
        }
        i = i - 1;
    }
    proof {
        lemma_keyed_at(v@, route@, v@.len() as int);
    }
    None
}

/// The entries but those of one address.
spec fn others<V>(v: Seq<(String, V)>, k: Seq<char>) -> Seq<(String, V)>
    decreases v.len(),
{
    if v.len() == 0 {
        seq![]
    } else if v.last().0@ == k {
        others(v.drop_last(), k)
    } else {
        others(v.drop_last(), k).push(v.last())
    }
}

proof fn lemma_others<V>(v: Seq<(String, V)>, k: Seq<char>)
    ensures
        keyed(others(v, k)) == keyed(v).remove(k),
    decreases v.len(),
{
    if v.len() == 0 {
        assert(keyed(others(v, k)) =~= keyed(v).remove(k));
    } else {
        lemma_others(v.drop_last(), k);
        if v.last().0@ != k {
            lemma_keyed_push(others(v.drop_last(), k), v.last());
        }
        assert(keyed(others(v, k)) =~= keyed(v).remove(k));
    }
}

fn set_busy(v: &mut Vec<(String, u64)>, route: &str, until: u64)
    ensures
        keyed(final(v)@) == keyed(old(v)@).insert(route@, until),
{
    let ghost was = v@;
    let mut kept: Vec<(String, u64)> = Vec::new();
    let mut i: usize = 0;
    assert(was.take(0) =~= Seq::<(String, u64)>::empty());
    while i < v.len()
        invariant
            i <= v.len(),
            v@ == was,
            keyed(kept@) == keyed(others(was.take(i as int), route@)),
        decreases v.len() - i,
    {
        assert(was.take(i + 1).drop_last() =~= was.take(i as int));
        assert(was.take(i + 1).last() == was[i as int]);
        if !text::same(v[i].0.as_str(), route) {
            let ghost had = kept@;
            let e = (v[i].0.clone(), v[i].1);
            kept.push(e);
            proof {
                lemma_keyed_push(had, e);
                lemma_keyed_push(others(was.take(i as int), route@), was[i as int]);
            }
        }
        i = i + 1;
    }
    assert(was.take(i as int) =~= was);
    let e = (route.to_owned(), until);
    proof {
        lemma_others(was, route@);
        lemma_keyed_push(kept@, e);
        assert(keyed(was).remove(route@).insert(route@, until) =~= keyed(was).insert(
            route@,
            until,
        ));
    }
    kept.push(e);
    *v = kept;
}

proof fn lemma_errors_push(v: Seq<(String, String)>, e: (String, String))
    ensures
        errors(v.push(e)) == errors(v).insert(e.0@, e.1@),
{
    assert(v.push(e).drop_last() =~= v);
}

proof fn lemma_errors_at(v: Seq<(String, String)>, k: Seq<char>, n: int)
    requires
        0 <= n <= v.len(),
        n < v.len() ==> v[n].0@ == k,
        forall|i: int| n < i < v.len() ==> (#[trigger] v[i]).0@ != k,
        n == v.len() ==> forall|i: int| 0 <= i < v.len() ==> (#[trigger] v[i]).0@ != k,
    ensures
        n < v.len() ==> errors(v).dom().contains(k) && errors(v)[k] == v[n].1@,
        n == v.len() ==> !errors(v).dom().contains(k),
    decreases v.len(),
{
    if v.len() > 0 {
        let front = v.drop_last();
        assert(v.last() == v[v.len() - 1]);
        assert forall|i: int| 0 <= i < front.len() implies front[i] == v[i] by {}
        if n == v.len() {
            lemma_errors_at(front, k, n - 1);
        } else if n < v.len() - 1 {
            lemma_errors_at(front, k, n);
        }
    }
}

fn last_error_is(v: &Vec<(String, String)>, route: &str, why: &str) -> (r: bool)
    ensures
        r == (errors(v@).dom().contains(route@) && errors(v@)[route@] == why@),
{
    let mut i: usize = v.len();
    while i > 0
        invariant
            i <= v.len(),
            forall|k: int| i <= k < v.len() ==> (#[trigger] v@[k]).0@ != route@,
        decreases i,
    {
        if text::same(v[i - 1].0.as_str(), route) {
            proof {
                lemma_errors_at(v@, route@, i - 1);
            }
            return text::same(v[i - 1].1.as_str(), why);
        }
        i = i - 1;
    }
    proof {
        lemma_errors_at(v@, route@, v@.len() as int);
    }
    false
}

proof fn lemma_errors_others(v: Seq<(String, String)>, k: Seq<char>)
    ensures
        errors(others(v, k)) == errors(v).remove(k),
    decreases v.len(),
{
    if v.len() == 0 {
        assert(errors(others(v, k)) =~= errors(v).remove(k));
    } else {
        lemma_errors_others(v.drop_last(), k);
        if v.last().0@ != k {
            lemma_errors_push(others(v.drop_last(), k), v.last());
        }
        assert(errors(others(v, k)) =~= errors(v).remove(k));
    }
}

fn forget_error(v: &mut Vec<(String, String)>, route: &str)
    ensures
        errors(final(v)@) == errors(old(v)@).remove(route@),
{
    let ghost was = v@;
    let mut kept: Vec<(String, String)> = Vec::new();
    let mut i: usize = 0;
    assert(was.take(0) =~= Seq::<(String, String)>::empty());
    while i < v.len()
        invariant
            i <= v.len(),
            v@ == was,
            errors(kept@) == errors(others(was.take(i as int), route@)),
        decreases v.len() - i,
    {
        assert(was.take(i + 1).drop_last() =~= was.take(i as int));
        assert(was.take(i + 1).last() == was[i as int]);
        if !text::same(v[i].0.as_str(), route) {
            let ghost had = kept@;
            let e = (v[i].0.clone(), v[i].1.clone());
            kept.push(e);
            proof {
                lemma_errors_push(had, e);
                lemma_errors_push(others(was.take(i as int), route@), was[i as int]);
            }
        }
        i = i + 1;
    }
    assert(was.take(i as int) =~= was);
    proof {
        lemma_errors_others(was, route@);
    }
    *v = kept;
}

impl Pushes {
    pub fn new() -> (r: Pushes)
        ensures
            r@ == (PushesView {
                busy_until: Map::empty(),
                last_error: Map::empty(),
                compared: Set::empty(),
            }),
    {
        let r = Pushes { busy_until: Vec::new(), last_error: Vec::new(), compared: Vec::new() };
        assert(r@.compared =~= Set::empty());
        r
    }

    /// Which push sessions to start now: every target without one running or
    /// backing off. They are busy until they end. A node that does not produce
    /// pushes nothing and forgets whom it compared with.
    pub fn start_pushes(&mut self, producing: bool, targets: &Vec<String>, now: u64) -> (starts: Vec<
        String,
    >)
        ensures
            text::texts(starts@) == (if producing {
                free_ones(old(self)@.busy_until, text::texts(targets@), now)
            } else {
                seq![]
            }),
            final(self)@ == (if producing {
                (PushesView {
                    busy_until: all_busy(
                        old(self)@.busy_until,
                        free_ones(old(self)@.busy_until, text::texts(targets@), now),
                    ),
                    ..old(self)@
                })
            } else {
                (PushesView {
                    busy_until: Map::empty(),
                    compared: Set::empty(),
                    ..old(self)@
                })
            }),
    {
        let ghost was = self@;
        let mut starts = text::none();
        if !producing {
            self.busy_until = Vec::new();
            self.compared = Vec::new();
            assert(self@.compared =~= Set::empty());
            return starts;
        }
        let ghost all = text::texts(targets@);
        let mut i: usize = 0;
        assert(all.take(0) =~= Seq::<Seq<char>>::empty());
        while i < targets.len()
            invariant
                i <= targets.len(),
                all == text::texts(targets@),
                self@ == was,
                text::texts(starts@) == free_ones(was.busy_until, all.take(i as int), now),
            decreases targets.len() - i,
        {
            assert(all.take(i + 1).drop_last() =~= all.take(i as int));
            assert(all.take(i + 1).last() == targets@[i as int]@);
            let go = match when_free(&self.busy_until, targets[i].as_str()) {
                Some(until) => now >= until,
                None => true,
            };
            if go {
                text::put(&mut starts, targets[i].as_str());
            }
            i = i + 1;
        }
        assert(all.take(i as int) =~= all);
        let ghost begun = text::texts(starts@);
        let mut j: usize = 0;
        assert(begun.take(0) =~= Seq::<Seq<char>>::empty());
        while j < starts.len()
            invariant
                j <= starts.len(),
                begun == text::texts(starts@),
                self@ == (PushesView {
                    busy_until: all_busy(was.busy_until, begun.take(j as int)),
                    ..was
                }),
            decreases starts.len() - j,
        {
            assert(begun.take(j + 1).drop_last() =~= begun.take(j as int));
            assert(begun.take(j + 1).last() == starts@[j as int]@);
            set_busy(&mut self.busy_until, starts[j].as_str(), u64::MAX);
            j = j + 1;
        }
        assert(begun.take(j as int) =~= begun);
        starts
    }

    /// A push session ended. After a failure the address rests; each distinct
    /// error is announced once.
    pub fn ended(&mut self, route: &str, result: &Result<(), String>, now: u64) -> (line: Option<
        String,
    >)
        requires
            now + PUSH_BACKOFF_MS <= u64::MAX,
        ensures
            match *result {
                Ok(_) => line is None && final(self)@ == (PushesView {
                    busy_until: old(self)@.busy_until.insert(route@, now),
                    last_error: old(self)@.last_error.remove(route@),
                    ..old(self)@
                }),
                Err(why) => {
                    let again = old(self)@.last_error.dom().contains(route@)
                        && old(self)@.last_error[route@] == why@;
                    &&& text::text_view(line) == (if again {
                        None
                    } else {
                        Some("[mesh] push to "@ + route@ + ": "@ + why@)
                    })
                    &&& final(self)@ == (PushesView {
                        busy_until: old(self)@.busy_until.insert(
                            route@,
                            (now + PUSH_BACKOFF_MS) as u64,
                        ),
                        last_error: if again {
                            old(self)@.last_error
                        } else {
                            old(self)@.last_error.insert(route@, why@)
                        },
                        ..old(self)@
                    })
                },
            },
    {
        let ghost was = self@;
        match result {
            Ok(_) => {
                set_busy(&mut self.busy_until, route, now);
                forget_error(&mut self.last_error, route);
                None
            },
            Err(why) => {
                set_busy(&mut self.busy_until, route, now + PUSH_BACKOFF_MS);
                if last_error_is(&self.last_error, route, why.as_str()) {
                    return None;
                }
                let line = "[mesh] push to ".to_owned().concat(route).concat(": ").concat(
                    why.as_str(),
                );
                forget_error(&mut self.last_error, route);
                let e = (route.to_owned(), why.clone());
                proof {
                    lemma_errors_push(self.last_error@, e);
                    assert(was.last_error.remove(route@).insert(route@, why@)
                        =~= was.last_error.insert(route@, why@));
                }
                self.last_error.push(e);
                Some(line)
            },
        }
    }

    /// Whether an address was compared with in a term.
    pub fn was_compared(&self, route: &str, term: u64) -> (r: bool)
        ensures
            r == self@.compared.contains((route@, term)),
    {
        let mut i: usize = 0;
        while i < self.compared.len()
            invariant
                i <= self.compared.len(),
                forall|k: int|
                    0 <= k < i ==> !((#[trigger] self.compared@[k]).0@ == route@
                        && self.compared@[k].1 == term),
            decreases self.compared.len() - i,
        {
            if self.compared[i].1 == term && text::same(self.compared[i].0.as_str(), route) {
                return true;
            }
            i = i + 1;
        }
        false
    }

    /// Notes that an address was compared with in a term.
    pub fn note_compared(&mut self, route: &str, term: u64)
        ensures
            final(self)@ == (PushesView {
                compared: old(self)@.compared.insert((route@, term)),
                ..old(self)@
            }),
    {
        if self.was_compared(route, term) {
            assert(self@.compared =~= old(self)@.compared.insert((route@, term)));
            return;
        }
        let ghost was = self.compared@;
        let e = (route.to_owned(), term);
        self.compared.push(e);
        assert(self@.compared =~= pairs(was).insert((route@, term))) by {
            assert(self.compared@[was.len() as int] == e);
            assert forall|p: (Seq<char>, u64)| pairs(was).contains(p) implies #[trigger] pairs(
                self.compared@,
            ).contains(p) by {
                let i = choose|i: int|
                    0 <= i < was.len() && (#[trigger] was[i]).0@ == p.0 && was[i].1 == p.1;
                assert(self.compared@[i] == was[i]);
            }
            assert forall|p: (Seq<char>, u64)| #[trigger] pairs(self.compared@).contains(p) implies
                pairs(was).insert((route@, term)).contains(p) by {
                let i = choose|i: int|
                    0 <= i < self.compared@.len() && (#[trigger] self.compared@[i]).0@ == p.0
                        && self.compared@[i].1 == p.1;
                if i < was.len() {
                    assert(was[i] == self.compared@[i]);
                }
            }
        }
    }
}

/// The next operation of a push session.
pub enum PushNext {
    /// This node no longer leads: nothing of its own to push.
    Stop,
    /// The peer drops its log above `fork`: it compacted where this node never
    /// did.
    Rewind { fork: u64 },
    /// The peer takes this node's checkpoint.
    Checkpoint,
    /// The logs are compared first.
    Compare,
    /// The peer gets a page of blocks from here on.
    Blocks { from: u64 },
    /// The peer is where this node is.
    Done(Option<String>),
}

pub open spec fn apart(a: u64, b: u64) -> int {
    if a < b {
        b - a
    } else {
        a - b
    }
}

/// What brings a peer's log on. A session that only kept up says nothing; the
/// first of a term and a real catch-up do.
pub fn push_next(
    route: &str,
    producing: bool,
    my_cp: u64,
    my_head: u64,
    their_cp: u64,
    their_head: u64,
    compared: bool,
    started: u64,
    compared_now: bool,
) -> (r: PushNext)
    ensures
        if !producing {
            r is Stop
        } else if their_cp > my_cp {
            r matches PushNext::Rewind { fork } && fork == their_cp - 1
        } else if their_cp < my_cp {
            r is Checkpoint
        } else if !compared {
            r is Compare
        } else if their_head < my_head {
            r matches PushNext::Blocks { from } && from == their_head + 1
        } else {
            r matches PushNext::Done(say) && text::text_view(say) == (if their_head != started && (
            compared_now || apart(their_head, started) > 10) {
                Some(
                    "[mesh] pushed "@ + route@ + " to block "@ + text::dec(their_head as nat)
                        + " (was "@ + text::dec(started as nat) + ")"@,
                )
            } else {
                None
            })
        },
{
    if !producing {
        return PushNext::Stop;
    }
    if their_cp > my_cp {
        return PushNext::Rewind { fork: their_cp - 1 };
    }
    if their_cp < my_cp {
        return PushNext::Checkpoint;
    }
    if !compared {
        return PushNext::Compare;
    }
    if their_head < my_head {
        return PushNext::Blocks { from: their_head + 1 };
    }
    let gap: u64 = if their_head < started {
        started - their_head
    } else {
        their_head - started
    };
    if their_head != started && (compared_now || gap > 10) {
        PushNext::Done(
            Some(
                "[mesh] pushed ".to_owned().concat(route).concat(" to block ").concat(
                    text::number(their_head).as_str(),
                ).concat(" (was ").concat(text::number(started).as_str()).concat(")"),
            ),
        )
    } else {
        PushNext::Done(None)
    }
}

/// What a comparison leads to: nothing where the peer's log is a prefix of this
/// node's, else a rewind to the fork, announced.
pub fn compared_with(route: &str, fork: u64, their_head: u64) -> (r: Option<String>)
    ensures
        text::text_view(r) == (if fork >= their_head {
            None
        } else {
            Some(
                "[mesh] "@ + route@ + " diverged from us above block "@ + text::dec(fork as nat)
                    + "; telling it to rewind"@,
            )
        }),
{
    if fork >= their_head {
        None
    } else {
        Some(
            "[mesh] ".to_owned().concat(route).concat(" diverged from us above block ").concat(
                text::number(fork).as_str(),
            ).concat("; telling it to rewind"),
        )
    }
}

/// Why a push failed, going by the peer's HTTP status: one from before pushes
/// knows nothing of them.
pub fn push_status(status: u16) -> (r: Option<&'static str>)
    ensures
        match r {
            Some(s) => (status == 404 || status == 405) && s@
                == "peer has no /chain/push (an older build)"@,
            None => status != 404 && status != 405,
        },
{
    if status == 404 || status == 405 {
        Some("peer has no /chain/push (an older build)")
    } else {
        None
    }
}

/// The error of a push that was not accepted.
pub fn push_refused(why: &Option<String>) -> (r: String)
    ensures
        r@ == "refused: "@ + (match text::text_view(*why) {
            Some(w) => w,
            None => seq![],
        }),
{
    match why {
        Some(w) => "refused: ".to_owned().concat(w.as_str()),
        None => {
            let r = "refused: ".to_owned();
            assert(r@ + Seq::<char>::empty() =~= r@);
            r
        },
    }
}

// ---------------------------------------------------------------------
// Being pushed to
// ---------------------------------------------------------------------

/// Who is let push.
pub enum Pusher {
    /// The push names another leader than its signer.
    Forbidden,
    /// This node does not follow it; said back.
    Refused(String),
    Accepted,
}

/// Whether a push is taken. `accepts` is whether the mesh follows this leader in
/// this term.
pub fn check_push(
    signer: &Account,
    leader_account: &str,
    leader: &str,
    term: u64,
    producing: bool,
    accepts: bool,
) -> (r: Pusher)
    ensures
        if leader_account@ != keys::hexed(signer@) {
            r is Forbidden
        } else if producing || !accepts {
            r matches Pusher::Refused(why) && why@ == "not following "@ + leader@ + " in term "@
                + text::dec(term as nat)
        } else {
            r is Accepted
        },
{
    if !text::same(leader_account, keys::to_hex(signer).as_str()) {
        return Pusher::Forbidden;
    }
    if producing || !accepts {
        return Pusher::Refused(
            "not following ".to_owned().concat(leader).concat(" in term ").concat(
                text::number(term).as_str(),
            ),
        );
    }
    Pusher::Accepted
}

/// The answer to a push whose signer is not the leader it names.
pub const NOT_THE_LEADER: &'static str = "a push must be signed by the leader it names";

/// What to do with a pushed checkpoint.
pub enum Checkpoint {
    /// This node is as far.
    Skip,
    Bad,
    Take(Vec<u8>),
}

pub fn pushed_checkpoint(height: u64, my_cp: u64, state_hex: &str) -> (r: Checkpoint)
    ensures
        if height <= my_cp {
            r is Skip
        } else {
            match keys::unhexed(state_hex@) {
                None => r is Bad,
                Some(b) => r matches Checkpoint::Take(v) && v@ == b,
            }
        },
{
    if height <= my_cp {
        return Checkpoint::Skip;
    }
    match outside::hex_decode(state_hex) {
        None => Checkpoint::Bad,
        Some(b) => Checkpoint::Take(b),
    }
}

/// A checkpoint's state as it is served and pushed.
pub fn state_text(state: &Vec<u8>) -> (r: String)
    ensures
        r@ == keys::hexed(state@),
{
    outside::hex_encode(state.as_slice())
}

/// The state of a checkpoint that was served, where it can be read.
pub fn served_state(state_hex: &str) -> (r: Option<Vec<u8>>)
    ensures
        match r {
            Some(v) => keys::unhexed(state_hex@) == Some(v@),
            None => keys::unhexed(state_hex@) is None,
        },
{
    outside::hex_decode(state_hex)
}

/// The answer to a checkpoint that is no hexadecimal.
pub const BAD_CHECKPOINT: &'static str = "bad checkpoint hex";

/// What to do with a row that came by push.
pub enum Pushed {
    /// A pull got there first.
    Skip,
    /// It does not follow on this log; the rest is left.
    Gap,
    Bad(String),
    Take(Vec<u8>),
}

pub open spec fn bad_hex(height: u64) -> Seq<char> {
    "bad hex for block "@ + text::dec(height as nat)
}

pub fn pushed_row(head: u64, row: &BlockRow) -> (r: Pushed)
    ensures
        if row.height <= head {
            r is Skip
        } else if row.height != head + 1 {
            r is Gap
        } else {
            match keys::unhexed(row.body_hex@) {
                None => r matches Pushed::Bad(why) && why@ == bad_hex(row.height),
                Some(b) => r matches Pushed::Take(v) && v@ == b,
            }
        },
{
    if row.height <= head {
        return Pushed::Skip;
    }
    if row.height - head != 1 {
        return Pushed::Gap;
    }
    match outside::hex_decode(row.body_hex.as_str()) {
        None => Pushed::Bad(
            "bad hex for block ".to_owned().concat(text::number(row.height).as_str()),
        ),
        Some(b) => Pushed::Take(b),
    }
}

/// The answer to a body that cannot be read.
pub fn corrupt_body(height: u64) -> (r: String)
    ensures
        r@ == "corrupt body for block "@ + text::dec(height as nat),
{
    "corrupt body for block ".to_owned().concat(text::number(height).as_str())
}

/// The bodies that land of some pushed rows, and where the log then ends.
pub open spec fn landed(head: int, rows: Seq<(u64, Seq<char>)>) -> (int, Seq<Seq<u8>>)
    decreases rows.len(),
{
    if rows.len() == 0 {
        (head, seq![])
    } else if rows[0].0 <= head {
        landed(head, rows.skip(1))
    } else if rows[0].0 != head + 1 {
        (head, seq![])
    } else {
        match keys::unhexed(rows[0].1) {
            None => (head, seq![]),
            Some(b) => {
                let rest = landed(head + 1, rows.skip(1));
                (rest.0, seq![b] + rest.1)
            },
        }
    }
}

/// Whatever rows are pushed, what lands follows on the log without a gap.
pub proof fn blocks_land_without_a_gap(head: int, rows: Seq<(u64, Seq<char>)>)
    ensures
        landed(head, rows).0 == head + landed(head, rows).1.len(),
    decreases rows.len(),
{
    if rows.len() > 0 {
        if rows[0].0 <= head {
            blocks_land_without_a_gap(head, rows.skip(1));
        } else if rows[0].0 == head + 1 && keys::unhexed(rows[0].1) is Some {
            blocks_land_without_a_gap(head + 1, rows.skip(1));
        }
    }
}

/// A page of consecutive blocks pushed to a log that ends anywhere before its
/// last lands as far as it is new.
pub proof fn a_pushed_page_lands(blocks: Seq<Seq<u8>>, from: int, head: int)
    requires
        0 < from,
        from + blocks.len() <= u64::MAX,
        from - 1 <= head <= from + blocks.len() - 1,
    ensures
        landed(head, rows_of(blocks, from)) == (
            from + blocks.len() - 1,
            blocks.skip(head - (from - 1)),
        ),
    decreases blocks.len(),
{
    let rows = rows_of(blocks, from);
    if blocks.len() == 0 {
        assert(blocks.skip(head - (from - 1)) =~= seq![]);
    } else {
        assert(rows.skip(1) =~= rows_of(blocks.skip(1), from + 1));
        if head >= from {
            a_pushed_page_lands(blocks.skip(1), from + 1, head);
            assert(blocks.skip(1).skip(head - from) =~= blocks.skip(head - (from - 1)));
        } else {
            keys::hex_reads_back(blocks[0]);
            a_pushed_page_lands(blocks.skip(1), from + 1, head + 1);
            assert(blocks.skip(1).skip(0) =~= blocks.skip(1));
            assert(seq![blocks[0]] + blocks.skip(1) =~= blocks.skip(0));
        }
    }
}

/// Consecutive blocks as rows.
pub open spec fn rows_of(blocks: Seq<Seq<u8>>, from: int) -> Seq<(u64, Seq<char>)> {
    Seq::new(blocks.len(), |i: int| ((from + i) as u64, keys::hexed(blocks[i])))
}

// ---------------------------------------------------------------------
// What following keeps
// ---------------------------------------------------------------------

/// A node follows the best source there is; one that only reads stays with the
/// source it has while that is still one. It follows nothing where there is no
/// source, and it produces exactly where the mesh says that it leads.
pub proof fn the_best_source_is_followed(f: FollowView, m: MeshSays)
    ensures
        following(f, m).producing == m.is_leader,
        m.sources@.len() == 0 ==> following(f, m).peer is None,
        m.sources@.len() > 0 && !m.is_learner ==> following(f, m).peer == Some(m.sources@[0]@),
        m.sources@.len() > 0 && m.is_learner && (f.peer matches Some(p) && text::texts(
            m.sources@,
        ).contains(p)) ==> following(f, m).peer == f.peer,
        m.sources@.len() > 0 && m.is_learner && !(f.peer matches Some(p) && text::texts(
            m.sources@,
        ).contains(p)) ==> following(f, m).peer == Some(m.sources@[0]@),
        m.is_leader ==> following(f, m).followed is None,
        !m.is_leader ==> following(f, m).followed == text::text_view(m.leader),
        f.needs_reconcile ==> following(f, m).needs_reconcile,
        !f.needs_reconcile && !m.is_learner && following(f, m).peer == f.peer ==> !following(
            f,
            m,
        ).needs_reconcile,
{
    let s = text::texts(m.sources@);
    if m.sources@.len() > 0 {
        assert(s[0] == m.sources@[0]@);
        if text::text_view(None::<String>) is None && f.peer is Some && s.contains(f.peer->0) {
            assert(s.len() > 0);
        }
    } else {
        assert(s.len() == 0);
        if f.peer is Some && s.contains(f.peer->0) {
            let i = choose|i: int| 0 <= i < s.len() && s[i] == f.peer->0;
        }
    }
}

/// A change of role is announced when it happens, and only then.
pub proof fn a_change_of_role_is_announced(was: bool, m: MeshSays)
    ensures
        role_line(was, m).len() == (if m.is_leader != was {
            1int
        } else {
            0
        }),
        m.is_leader != was ==> text::has(role_line(was, m)[0], m.name@) && text::has(
            role_line(was, m)[0],
            if m.is_leader {
                " elected primary (term "@
            } else {
                " no longer primary (term "@
            },
        ),
{
    if m.is_leader && !was {
        let a = "[mesh] "@;
        let b = m.name@;
        let c = " elected primary (term "@;
        let d = text::dec(m.term as nat);
        let e = ", head "@;
        let g = text::dec(m.head as nat);
        let h = ")"@;
        text::lemma_has_self(b);
        text::lemma_has_right(a, b, b);
        text::lemma_has_left(a + b, c, b);
        text::lemma_has_left(a + b + c, d, b);
        text::lemma_has_left(a + b + c + d, e, b);
        text::lemma_has_left(a + b + c + d + e, g, b);
        text::lemma_has_left(a + b + c + d + e + g, h, b);
        text::lemma_has_self(c);
        text::lemma_has_right(a + b, c, c);
        text::lemma_has_left(a + b + c, d, c);
        text::lemma_has_left(a + b + c + d, e, c);
        text::lemma_has_left(a + b + c + d + e, g, c);
        text::lemma_has_left(a + b + c + d + e + g, h, c);
    }
    if !m.is_leader && was {
        let a = "[mesh] "@;
        let b = m.name@;
        let c = " no longer primary (term "@;
        let d = text::dec(m.term as nat);
        let e = "); rebuilding from the store"@;
        text::lemma_has_self(b);
        text::lemma_has_right(a, b, b);
        text::lemma_has_left(a + b, c, b);
        text::lemma_has_left(a + b + c, d, b);
        text::lemma_has_left(a + b + c + d, e, b);
        text::lemma_has_self(c);
        text::lemma_has_right(a + b, c, c);
        text::lemma_has_left(a + b + c, d, c);
        text::lemma_has_left(a + b + c + d, e, c);
    }
}

proof fn lemma_page(blocks: Seq<Option<Seq<u8>>>, from: int, limit: nat) -> (at: spec_fn(
    int,
) -> int)
    requires
        0 <= from,
        from + blocks.len() <= u64::MAX,
    ensures
        page(blocks, from, limit).len() <= limit,
        forall|k: int|
            0 <= k < page(blocks, from, limit).len() ==> 0 <= #[trigger] at(k) < blocks.len()
                && blocks[at(k)] is Some && page(blocks, from, limit)[k] == (
                (from + at(k)) as u64,
                keys::hexed(blocks[at(k)]->0),
            ),
        forall|k: int, m: int|
            0 <= k < m < page(blocks, from, limit).len() ==> #[trigger] at(k) < #[trigger] at(m),
        page(blocks, from, limit).len() < limit ==> forall|i: int|
            0 <= i < blocks.len() && blocks[i] is Some ==> exists|k: int|
                0 <= k < page(blocks, from, limit).len() && #[trigger] at(k) == i,
    decreases blocks.len(),
{
    if blocks.len() == 0 || limit == 0 {
        |k: int| k
    } else {
        let rest = blocks.skip(1);
        let whole = page(blocks, from, limit);
        match blocks[0] {
            Some(b) => {
                let more = page(rest, from + 1, (limit - 1) as nat);
                let inner = lemma_page(rest, from + 1, (limit - 1) as nat);
                let at = |k: int|
                    if k == 0 {
                        0
                    } else {
                        inner(k - 1) + 1
                    };
                assert forall|k: int| 0 <= k < whole.len() implies 0 <= #[trigger] at(k)
                    < blocks.len() && blocks[at(k)] is Some && whole[k] == (
                    (from + at(k)) as u64,
                    keys::hexed(blocks[at(k)]->0),
                ) by {
                    if k > 0 {
                        assert(0 <= inner(k - 1) < rest.len());
                        assert(whole[k] == more[k - 1]);
                        assert(rest[inner(k - 1)] == blocks[inner(k - 1) + 1]);
                    }
                }
                assert forall|k: int, m: int| 0 <= k < m < whole.len() implies #[trigger] at(k)
                    < #[trigger] at(m) by {
                    assert(0 <= inner(m - 1) < rest.len());
                    if k > 0 {
                        assert(inner(k - 1) < inner(m - 1));
                    }
                }
                if whole.len() < limit {
                    assert forall|i: int| 0 <= i < blocks.len() && blocks[i] is Some implies exists|
                        k: int,
                    | 0 <= k < whole.len() && #[trigger] at(k) == i by {
                        if i == 0 {
                            assert(at(0) == 0);
                        } else {
                            assert(rest[i - 1] == blocks[i]);
                            let k = choose|k: int|
                                0 <= k < more.len() && #[trigger] inner(k) == i - 1;
                            assert(at(k + 1) == i);
                        }
                    }
                }
                at
            },
            None => {
                let more = page(rest, from + 1, limit);
                let inner = lemma_page(rest, from + 1, limit);
                let at = |k: int| inner(k) + 1;
                assert forall|k: int| 0 <= k < whole.len() implies 0 <= #[trigger] at(k)
                    < blocks.len() && blocks[at(k)] is Some && whole[k] == (
                    (from + at(k)) as u64,
                    keys::hexed(blocks[at(k)]->0),
                ) by {
                    assert(0 <= inner(k) < rest.len());
                    assert(rest[inner(k)] == blocks[inner(k) + 1]);
                }
                assert forall|k: int, m: int| 0 <= k < m < whole.len() implies #[trigger] at(k)
                    < #[trigger] at(m) by {
                    assert(inner(k) < inner(m));
                }
                if whole.len() < limit {
                    assert forall|i: int| 0 <= i < blocks.len() && blocks[i] is Some implies exists|
                        k: int,
                    | 0 <= k < whole.len() && #[trigger] at(k) == i by {
                        assert(rest[i - 1] == blocks[i]);
                        let k = choose|k: int| 0 <= k < more.len() && #[trigger] inner(k) == i - 1;
                        assert(at(k) == i);
                    }
                }
                at
            },
        }
    }
}

/// A page serves blocks under their own heights, in order, each whole; and while
/// it is not full it serves every one there is.
pub proof fn a_page_serves_blocks_at_their_heights(
    blocks: Seq<Option<Seq<u8>>>,
    from: int,
    limit: nat,
    k: int,
)
    requires
        0 <= from,
        from + blocks.len() <= u64::MAX,
        0 <= k < page(blocks, from, limit).len(),
    ensures
        page(blocks, from, limit).len() <= limit,
        ({
            let (height, hex) = page(blocks, from, limit)[k];
            &&& from <= height < from + blocks.len()
            &&& blocks[height - from] matches Some(b) && keys::unhexed(hex) == Some(b)
        }),
        forall|a: int, b: int|
            0 <= a < b < page(blocks, from, limit).len() ==> (#[trigger] page(
                blocks,
                from,
                limit,
            )[a]).0 < (#[trigger] page(blocks, from, limit)[b]).0,
        page(blocks, from, limit).len() < limit ==> forall|i: int|
            0 <= i < blocks.len() && blocks[i] is Some ==> exists|m: int|
                0 <= m < page(blocks, from, limit).len() && (#[trigger] page(
                    blocks,
                    from,
                    limit,
                )[m]).0 == from + i,
{
    let at = lemma_page(blocks, from, limit);
    let whole = page(blocks, from, limit);
    assert(0 <= at(k) < blocks.len());
    keys::hex_reads_back(blocks[at(k)]->0);
    assert forall|a: int, b: int| 0 <= a < b < whole.len() implies (#[trigger] whole[a]).0 < (
    #[trigger] whole[b]).0 by {
        assert(at(a) < at(b));
        assert(0 <= at(a) < blocks.len() && 0 <= at(b) < blocks.len());
    }
    if whole.len() < limit {
        assert forall|i: int| 0 <= i < blocks.len() && blocks[i] is Some implies exists|m: int|
            0 <= m < whole.len() && (#[trigger] whole[m]).0 == from + i by {
            let m = choose|m: int| 0 <= m < whole.len() && #[trigger] at(m) == i;
            assert(whole[m].0 == from + i);
        }
    }
}

/// Of a page the bodies are read in order up to the first that is none.
pub proof fn bodies_are_read_in_order(rows: Seq<(u64, Seq<char>)>)
    ensures
        bodies(rows).len() <= rows.len(),
        forall|i: int|
            0 <= i < bodies(rows).len() ==> keys::unhexed(rows[i].1) == Some(
                #[trigger] bodies(rows)[i],
            ),
        bodies(rows).len() < rows.len() ==> keys::unhexed(rows[bodies(rows).len() as int].1) is None,
    decreases rows.len(),
{
    if rows.len() > 0 && keys::unhexed(rows[0].1) is Some {
        let rest = rows.skip(1);
        bodies_are_read_in_order(rest);
        assert forall|i: int| 0 <= i < bodies(rows).len() implies keys::unhexed(rows[i].1) == Some(
            #[trigger] bodies(rows)[i],
        ) by {
            if i > 0 {
                assert(bodies(rows)[i] == bodies(rest)[i - 1]);
                assert(rest[i - 1] == rows[i]);
            }
        }
        if bodies(rows).len() < rows.len() {
            assert(rest[bodies(rest).len() as int] == rows[bodies(rows).len() as int]);
        }
    }
}

/// What lands of pushed rows are their own bodies, at the heights that follow on
/// the log, one after the other.
pub proof fn what_lands_is_what_was_pushed(head: int, rows: Seq<(u64, Seq<char>)>, k: int)
    requires
        0 <= k < landed(head, rows).1.len(),
    ensures
        exists|i: int|
            0 <= i < rows.len() && (#[trigger] rows[i]).0 == head + 1 + k && keys::unhexed(
                rows[i].1,
            ) == Some(landed(head, rows).1[k]),
    decreases rows.len(),
{
    let rest = rows.skip(1);
    if rows[0].0 <= head {
        what_lands_is_what_was_pushed(head, rest, k);
        let i = choose|i: int|
            0 <= i < rest.len() && (#[trigger] rest[i]).0 == head + 1 + k && keys::unhexed(
                rest[i].1,
            ) == Some(landed(head, rest).1[k]);
        assert(rows[i + 1] == rest[i]);
    } else if k == 0 {
        assert(rows[0].0 == head + 1);
    } else {
        what_lands_is_what_was_pushed(head + 1, rest, k - 1);
        let more = landed(head + 1, rest).1;
        let i = choose|i: int|
            0 <= i < rest.len() && (#[trigger] rest[i]).0 == head + 1 + 1 + (k - 1)
                && keys::unhexed(rest[i].1) == Some(more[k - 1]);
        assert(rows[i + 1] == rest[i]);
        assert(landed(head, rows).1[k] == more[k - 1]);
    }
}

/// A push is begun to every target that is free and to no other: one with no
/// push under way, or whose wait is over.
pub proof fn every_free_target_is_pushed_to(
    busy: Map<Seq<char>, u64>,
    targets: Seq<Seq<char>>,
    now: u64,
    route: Seq<char>,
)
    ensures
        free_ones(busy, targets, now).contains(route) <==> targets.contains(route) && (
        !busy.dom().contains(route) || busy[route] <= now),
    decreases targets.len(),
{
    if targets.len() > 0 {
        let front = targets.drop_last();
        let f = free_ones(busy, front, now);
        let all = free_ones(busy, targets, now);
        every_free_target_is_pushed_to(busy, front, now, route);
        assert(targets[targets.len() - 1] == targets.last());
        if targets.contains(route) {
            let i = choose|i: int| 0 <= i < targets.len() && targets[i] == route;
            if i < front.len() {
                assert(front[i] == route);
            }
        }
        if front.contains(route) {
            let i = choose|i: int| 0 <= i < front.len() && front[i] == route;
            assert(targets[i] == route);
        }
        if free(busy, targets.last(), now) {
            assert(all[f.len() as int] == targets.last());
            if f.contains(route) {
                let i = choose|i: int| 0 <= i < f.len() && f[i] == route;
                assert(all[i] == route);
            }
            if all.contains(route) {
                let i = choose|i: int| 0 <= i < all.len() && all[i] == route;
                if i < f.len() {
                    assert(f[i] == route);
                }
            }
        }
    }
}

/// A target that a push was begun to is busy until that push ends, and no other
/// becomes so.
pub proof fn a_push_under_way_is_not_begun_again(
    busy: Map<Seq<char>, u64>,
    routes: Seq<Seq<char>>,
    route: Seq<char>,
    now: u64,
)
    requires
        now < u64::MAX,
    ensures
        routes.contains(route) ==> !free(all_busy(busy, routes), route, now),
        !routes.contains(route) ==> (all_busy(busy, routes).dom().contains(route)
            <==> busy.dom().contains(route)) && (busy.dom().contains(route) ==> all_busy(
            busy,
            routes,
        )[route] == busy[route]),
    decreases routes.len(),
{
    if routes.len() > 0 {
        let front = routes.drop_last();
        a_push_under_way_is_not_begun_again(busy, front, route, now);
        assert(routes[routes.len() - 1] == routes.last());
        if routes.contains(route) {
            let i = choose|i: int| 0 <= i < routes.len() && routes[i] == route;
            if i < front.len() {
                assert(front[i] == route);
            }
        }
        if front.contains(route) {
            let i = choose|i: int| 0 <= i < front.len() && front[i] == route;
            assert(routes[i] == route);
        }
    }
}

/// A node moves to another source when the one it should follow is another, or,
/// where it only reads, when who leads has changed; only then does it check what
/// it has against it.
pub proof fn a_node_that_moves_checks_what_it_has(f: FollowView, m: MeshSays)
    ensures
        chosen(f, m) != f.peer ==> moved(f, m),
        !m.is_learner && chosen(f, m) == f.peer ==> !moved(f, m),
        m.is_learner && chosen(f, m) == f.peer && f.peer is Some && (m.leader matches Some(l)
            && f.followed != Some(l@)) ==> moved(f, m),
        m.is_learner && chosen(f, m) == f.peer && (m.leader matches Some(l) && f.followed == Some(
            l@,
        )) ==> !moved(f, m),
{
}

/// The last word on each of the failures is kept, and nothing of another.
pub proof fn the_last_failure_of_each_is_kept(
    v: Seq<(String, String)>,
    e: (String, String),
    other: Seq<char>,
)
    ensures
        errors(v.push(e)).dom().contains(e.0@) && errors(v.push(e))[e.0@] == e.1@,
        other != e.0@ ==> (errors(v.push(e)).dom().contains(other) <==> errors(v).dom().contains(
            other,
        )) && (errors(v).dom().contains(other) ==> errors(v.push(e))[other] == errors(v)[other]),
{
    assert(v.push(e).drop_last() =~= v);
}

/// How far two heights are apart is the same both ways, and nothing for one.
pub proof fn heights_are_as_far_apart_both_ways(a: u64, b: u64)
    ensures
        apart(a, b) == apart(b, a),
        a <= b ==> a + apart(a, b) == b,
        apart(a, a) == 0,
{
}

} // verus!
