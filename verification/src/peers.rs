//! The litter and the mesh as the operator sees them: the full table on
//! demand, and a line whenever something changes.

use crate::agent;
use crate::client;
use crate::common::Roster;
use crate::figures;
use crate::json;
use crate::json::Json;
use crate::keys;
use crate::scroll;
use crate::text;
use crate::ui;
use crate::ui::Skin;
use vstd::prelude::*;
use vstd::string::*;

verus! {

// ---------------------------------------------------------------------
// The table
// ---------------------------------------------------------------------

/// Whom a label names, of the labels and addresses among the first `n` peers.
pub open spec fn address_among(
    m: Json,
    peers: Seq<Json>,
    roster: Seq<(Seq<char>, Seq<u8>)>,
    cat: Seq<char>,
) -> Option<Seq<char>>
    decreases peers.len(),
{
    if peers.len() == 0 {
        None
    } else {
        let p = peers.last();
        match json::text_at(agent::value_at(p, "status"@), "name"@) {
            Some(n) => if client::cat_named(m, n, roster) == cat {
                Some(client::host_of(scroll::text_or(p, "route"@, "?"@)))
            } else {
                address_among(m, peers.drop_last(), roster, cat)
            },
            None => address_among(m, peers.drop_last(), roster, cat),
        }
    }
}

/// Where a cat is reached: at the address the connected node calls it, or,
/// where it is that node itself, where this client dialed it.
pub open spec fn address_of(
    m: Json,
    roster: Seq<(Seq<char>, Seq<u8>)>,
    node: Seq<char>,
    cat: Seq<char>,
) -> Option<Seq<char>> {
    match address_among(m, json::items_at(m, "peers"@), roster, cat) {
        Some(a) => Some(a),
        None => match json::text_at(agent::value_at(m, "me"@), "name"@) {
            Some(n) => if client::cat_named(m, n, roster) == cat {
                Some(client::host_of(node))
            } else {
                None
            },
            None => None,
        },
    }
}

/// One cat of the litter.
pub open spec fn cat_row(
    k: Skin,
    name: Seq<char>,
    account: Seq<u8>,
    addr: Option<Seq<char>>,
    leader: Option<Seq<char>>,
) -> Seq<char> {
    let tag = if leader == Some(keys::hexed(account)) {
        "  "@ + ui::painted(k, k.theme.progress, "leader"@)
    } else {
        ""@
    };
    let place = match addr {
        Some(s) => ui::plained(k, s),
        None => ui::dimmed(k, "—"@),
    };
    "    "@ + ui::padded(ui::whom(k, name), 14) + "  "@ + ui::dimmed(k, keys::shortened(account))
        + "  "@ + ui::padded(place, 24) + tag
}

pub open spec fn mesh_address(
    mesh: Option<Json>,
    roster: Seq<(Seq<char>, Seq<u8>)>,
    node: Seq<char>,
    cat: Seq<char>,
) -> Option<Seq<char>> {
    match mesh {
        Some(m) => address_of(m, roster, node, cat),
        None => None,
    }
}

pub open spec fn litter_rows(
    k: Skin,
    mesh: Option<Json>,
    roster: Seq<(Seq<char>, Seq<u8>)>,
    node: Seq<char>,
    leader: Option<Seq<char>>,
) -> Seq<Seq<char>> {
    Seq::new(
        roster.len(),
        |i: int|
            cat_row(
                k,
                roster[i].0,
                roster[i].1,
                mesh_address(mesh, roster, node, roster[i].0),
                leader,
            ),
    )
}

/// One node of the mesh.
pub open spec fn node_row(
    k: Skin,
    m: Json,
    roster: Seq<(Seq<char>, Seq<u8>)>,
    addr: Seq<char>,
    st: Json,
    seen: Seq<char>,
) -> Seq<char> {
    let name = client::cat_named(m, scroll::text_or(st, "name"@, "?"@), roster);
    let role = scroll::text_or(st, "role"@, "?"@);
    let role_c = if role == "leader"@ {
        ui::painted(k, k.theme.progress, ui::filled_to(role, 13))
    } else {
        ui::dimmed(k, ui::filled_to(role, 13))
    };
    let leader = match json::text_at(st, "leader"@) {
        Some(n) => ui::whom(k, client::cat_named(m, n, roster)),
        None => ui::dimmed(k, "-"@),
    };
    "    "@ + ui::padded(ui::whom(k, name), 14) + "  "@ + ui::padded(ui::plained(k, addr), 24)
        + "  "@ + role_c + " term "@ + scroll::raw_at(st, "term"@) + " head "@ + scroll::raw_at(
        st,
        "head"@,
    ) + " leader "@ + ui::padded(leader, 14) + "  "@ + seen
}

/// A peer the node calls.
pub open spec fn called_row(
    k: Skin,
    m: Json,
    roster: Seq<(Seq<char>, Seq<u8>)>,
    p: Json,
) -> Seq<char> {
    let route = client::host_of(scroll::text_or(p, "route"@, "?"@));
    let st = agent::value_at(p, "status"@);
    let ago = scroll::num_or_0(p, "seen_ms_ago"@);
    let when = ui::dimmed(k, "seen "@ + figures::seconds_text(ago as nat) + " ago"@);
    if client::is_object(st) {
        let seen = if ago > client::STALE_MS {
            when + "  "@ + ui::painted(k, k.theme.warm, "STALE"@)
        } else {
            when
        };
        node_row(k, m, roster, route, st, seen)
    } else {
        "    "@ + ui::padded(ui::dimmed(k, "?"@), 14) + "  "@ + ui::padded(
            ui::plained(k, route),
            24,
        ) + "  "@ + ui::painted(k, k.theme.warm, "never answered"@)
    }
}

/// A peer that calls the node.
pub open spec fn calling_row(
    k: Skin,
    m: Json,
    roster: Seq<(Seq<char>, Seq<u8>)>,
    p: Json,
) -> Seq<char> {
    let ago = scroll::num_or_0(p, "seen_ms_ago"@);
    node_row(
        k,
        m,
        roster,
        "(inbound only)"@,
        agent::value_at(p, "status"@),
        ui::dimmed(
            k,
            "heard "@ + figures::seconds_text(ago as nat)
                + " ago, calls us (no route from here)"@,
        ),
    )
}

pub open spec fn mesh_rows(
    k: Skin,
    m: Json,
    roster: Seq<(Seq<char>, Seq<u8>)>,
    node: Seq<char>,
) -> Seq<Seq<char>> {
    let me = agent::value_at(m, "me"@);
    let called = json::items_at(m, "peers"@);
    let calling = json::items_at(m, "inbound"@);
    seq![
        "  "@ + ui::dimmed(k, "网"@) + " "@ + ui::dimmed(k, "mesh,"@) + " mesh, from "@
            + ui::whom(k, client::cat_named(m, scroll::text_or(me, "name"@, "?"@), roster))
            + " ("@ + ui::dimmed(k, node) + ")  quorum "@ + ui::plained(
            k,
            scroll::raw_at(m, "quorum"@),
        ) + "  last checkpoint #"@ + scroll::raw_at(m, "last_checkpoint"@),
        node_row(k, m, roster, client::host_of(node), me, ui::dimmed(k, "(this node)"@)),
    ] + Seq::new(called.len(), |i: int| called_row(k, m, roster, called[i])) + Seq::new(
        calling.len(),
        |i: int| calling_row(k, m, roster, calling[i]),
    )
}

pub open spec fn table(
    k: Skin,
    mesh: Result<Json, Seq<char>>,
    roster: Seq<(Seq<char>, Seq<u8>)>,
    node: Seq<char>,
    leader: Option<Seq<char>>,
) -> Seq<Seq<char>> {
    let top = seq!["  "@ + ui::dimmed(k, "litter"@)];
    match mesh {
        Ok(m) => top + litter_rows(k, Some(m), roster, node, leader) + mesh_rows(
            k,
            m,
            roster,
            node,
        ),
        Err(e) => (top + litter_rows(k, None, roster, node, leader)).push(
            "  mesh: "@ + ui::painted(k, k.theme.alarm, e),
        ),
    }
}

pub open spec fn mesh_view(mesh: Result<Json, String>) -> Result<Json, Seq<char>> {
    match mesh {
        Ok(m) => Ok(m),
        Err(e) => Err(e@),
    }
}

fn address_in(m: &Json, roster: &Roster, node: &str, cat: &str) -> (r: Option<String>)
    ensures
        text::text_view(r) == address_of(*m, roster@, node@, cat@),
{
    if let Some(v) = m.items("peers") {
        let mut i: usize = v.len();
        assert(v@.take(i as int) =~= v@);
        while i > 0
            invariant
                i <= v.len(),
                v@ == json::items_at(*m, "peers"@),
                address_among(*m, v@, roster@, cat@) == address_among(
                    *m,
                    v@.take(i as int),
                    roster@,
                    cat@,
                ),
            decreases i,
        {
            assert(v@.take(i as int).last() == v@[i - 1]);
            assert(v@.take(i as int).drop_last() =~= v@.take(i - 1));
            let p = &v[i - 1];
            if let Some(st) = p.get("status") {
                if let Some(n) = st.text("name") {
                    if text::same(client::cat_of(m, n.as_str(), roster).as_str(), cat) {
                        let route = scroll::word_or(p, "route", "?");
                        return Some(client::host_port(route.as_str()));
                    }
                }
            }
            i = i - 1;
        }
    }
    if let Some(me) = m.get("me") {
        if let Some(n) = me.text("name") {
            if text::same(client::cat_of(m, n.as_str(), roster).as_str(), cat) {
                return Some(client::host_port(node));
            }
        }
    }
    None
}

fn litter_row(
    k: &Skin,
    mesh: &Option<&Json>,
    roster: &Roster,
    node: &str,
    leader: &Option<String>,
    i: usize,
) -> (r: String)
    requires
        i < roster.0.len(),
    ensures
        r@ == cat_row(
            *k,
            roster@[i as int].0,
            roster@[i as int].1,
            mesh_address(
                match *mesh {
                    Some(m) => Some(*m),
                    None => None,
                },
                roster@,
                node@,
                roster@[i as int].0,
            ),
            text::text_view(*leader),
        ),
{
    let name = roster.0[i].0.as_str();
    let account = &roster.0[i].1;
    let hex = keys::to_hex(account);
    let tag = match leader {
        Some(l) => if text::same(l.as_str(), hex.as_str()) {
            String::from_str("  ").concat(ui::ok(k, "leader").as_str())
        } else {
            "".to_owned()
        },
        None => "".to_owned(),
    };
    let addr = match mesh {
        Some(m) => address_in(m, roster, node, name),
        None => None,
    };
    let place = match addr {
        Some(s) => ui::plain(k, s.as_str()),
        None => ui::dim(k, "—"),
    };
    String::from_str("    ").concat(ui::pad(ui::who(k, name).as_str(), 14).as_str()).concat(
        "  ",
    ).concat(ui::dim(k, keys::short(account).as_str()).as_str()).concat("  ").concat(
        ui::pad(place.as_str(), 24).as_str(),
    ).concat(tag.as_str())
}

fn add_litter(
    k: &Skin,
    mesh: &Option<&Json>,
    roster: &Roster,
    node: &str,
    leader: &Option<String>,
    out: &mut Vec<String>,
)
    ensures
        text::texts(final(out)@) == text::texts(old(out)@) + litter_rows(
            *k,
            match *mesh {
                Some(m) => Some(*m),
                None => None,
            },
            roster@,
            node@,
            text::text_view(*leader),
        ),
{
    let ghost m = match *mesh {
        Some(m) => Some(*m),
        None => None,
    };
    let ghost start = text::texts(out@);
    let ghost want = litter_rows(*k, m, roster@, node@, text::text_view(*leader));
    let mut i: usize = 0;
    assert(start + want.take(0) =~= start);
    while i < roster.0.len()
        invariant
            i <= roster.0.len(),
            m == (match *mesh {
                Some(m) => Some(*m),
                None => None,
            }),
            want == litter_rows(*k, m, roster@, node@, text::text_view(*leader)),
            text::texts(out@) == start + want.take(i as int),
        decreases roster.0.len() - i,
    {
        let one = litter_row(k, mesh, roster, node, leader, i);
        assert(want.take(i + 1) =~= want.take(i as int).push(one@));
        text::put(out, one.as_str());
        i = i + 1;
    }
    assert(want.take(i as int) =~= want);
}

fn node_text(k: &Skin, m: &Json, roster: &Roster, addr: &str, st: &Json, seen: &str) -> (r: String)
    ensures
        r@ == node_row(*k, *m, roster@, addr@, *st, seen@),
{
    let name = client::cat_of(m, scroll::word_or(st, "name", "?").as_str(), roster);
    let role = scroll::word_or(st, "role", "?");
    let wide = ui::fill_to(role.as_str(), 13);
    let role_c = if text::same(role.as_str(), "leader") {
        ui::ok(k, wide.as_str())
    } else {
        ui::dim(k, wide.as_str())
    };
    let leader = match st.text("leader") {
        Some(n) => ui::who(k, client::cat_of(m, n.as_str(), roster).as_str()),
        None => ui::dim(k, "-"),
    };
    String::from_str("    ").concat(
        ui::pad(ui::who(k, name.as_str()).as_str(), 14).as_str(),
    ).concat("  ").concat(ui::pad(ui::plain(k, addr).as_str(), 24).as_str()).concat("  ").concat(
        role_c.as_str(),
    ).concat(" term ").concat(scroll::raw_of(st, "term").as_str()).concat(" head ").concat(
        scroll::raw_of(st, "head").as_str(),
    ).concat(" leader ").concat(ui::pad(leader.as_str(), 14).as_str()).concat("  ").concat(seen)
}

fn called_text(k: &Skin, m: &Json, roster: &Roster, p: &Json) -> (r: String)
    ensures
        r@ == called_row(*k, *m, roster@, *p),
{
    let route = client::host_port(scroll::word_or(p, "route", "?").as_str());
    let ago: u64 = scroll::number_or_0(p, "seen_ms_ago");
    if let Some(st) = p.get("status") {
        if let Json::Object(_) = st {
            let words = String::from_str("seen ").concat(figures::seconds(ago).as_str()).concat(
                " ago",
            );
            let when = ui::dim(k, words.as_str());
            let seen = if ago > client::STALE_MS {
                when.concat("  ").concat(ui::warn(k, "STALE").as_str())
            } else {
                when
            };
            return node_text(k, m, roster, route.as_str(), st, seen.as_str());
        }
    }
    String::from_str("    ").concat(ui::pad(ui::dim(k, "?").as_str(), 14).as_str()).concat(
        "  ",
    ).concat(ui::pad(ui::plain(k, route.as_str()).as_str(), 24).as_str()).concat("  ").concat(
        ui::warn(k, "never answered").as_str(),
    )
}

fn calling_text(k: &Skin, m: &Json, roster: &Roster, p: &Json) -> (r: String)
    ensures
        r@ == calling_row(*k, *m, roster@, *p),
{
    let ago: u64 = scroll::number_or_0(p, "seen_ms_ago");
    let words = String::from_str("heard ").concat(figures::seconds(ago).as_str()).concat(
        " ago, calls us (no route from here)",
    );
    let seen = ui::dim(k, words.as_str());
    match p.get("status") {
        Some(st) => node_text(k, m, roster, "(inbound only)", st, seen.as_str()),
        None => node_text(k, m, roster, "(inbound only)", &Json::Null, seen.as_str()),
    }
}

fn add_called(k: &Skin, m: &Json, roster: &Roster, v: &Vec<Json>, out: &mut Vec<String>)
    ensures
        text::texts(final(out)@) == text::texts(old(out)@) + Seq::new(
            v@.len(),
            |i: int| called_row(*k, *m, roster@, v@[i]),
        ),
{
    let ghost start = text::texts(out@);
    let ghost want = Seq::new(v@.len(), |i: int| called_row(*k, *m, roster@, v@[i]));
    let mut i: usize = 0;
    assert(start + want.take(0) =~= start);
    while i < v.len()
        invariant
            i <= v.len(),
            want == Seq::new(v@.len(), |i: int| called_row(*k, *m, roster@, v@[i])),
            text::texts(out@) == start + want.take(i as int),
        decreases v.len() - i,
    {
        let one = called_text(k, m, roster, &v[i]);
        assert(want.take(i + 1) =~= want.take(i as int).push(one@));
        text::put(out, one.as_str());
        i = i + 1;
    }
    assert(want.take(i as int) =~= want);
}

fn add_calling(k: &Skin, m: &Json, roster: &Roster, v: &Vec<Json>, out: &mut Vec<String>)
    ensures
        text::texts(final(out)@) == text::texts(old(out)@) + Seq::new(
            v@.len(),
            |i: int| calling_row(*k, *m, roster@, v@[i]),
        ),
{
    let ghost start = text::texts(out@);
    let ghost want = Seq::new(v@.len(), |i: int| calling_row(*k, *m, roster@, v@[i]));
    let mut i: usize = 0;
    assert(start + want.take(0) =~= start);
    while i < v.len()
        invariant
            i <= v.len(),
            want == Seq::new(v@.len(), |i: int| calling_row(*k, *m, roster@, v@[i])),
            text::texts(out@) == start + want.take(i as int),
        decreases v.len() - i,
    {
        let one = calling_text(k, m, roster, &v[i]);
        assert(want.take(i + 1) =~= want.take(i as int).push(one@));
        text::put(out, one.as_str());
        i = i + 1;
    }
    assert(want.take(i as int) =~= want);
}

fn mesh_block(k: &Skin, m: &Json, roster: &Roster, node: &str) -> (out: Vec<String>)
    ensures
        text::texts(out@) == mesh_rows(*k, *m, roster@, node@),
{
    let none = Json::Null;
    let me = match m.get("me") {
        Some(x) => x,
        None => &none,
    };
    let from = client::cat_of(m, scroll::word_or(me, "name", "?").as_str(), roster);
    let head = String::from_str("  ").concat(ui::dim(k, "网").as_str()).concat(" ").concat(
        ui::dim(k, "mesh,").as_str(),
    ).concat(" mesh, from ").concat(ui::who(k, from.as_str()).as_str()).concat(" (").concat(
        ui::dim(k, node).as_str(),
    ).concat(")  quorum ").concat(
        ui::plain(k, scroll::raw_of(m, "quorum").as_str()).as_str(),
    ).concat("  last checkpoint #").concat(scroll::raw_of(m, "last_checkpoint").as_str());
    let mut out = text::none();
    text::put(&mut out, head.as_str());
    let here = client::host_port(node);
    let this = node_text(k, m, roster, here.as_str(), me, ui::dim(k, "(this node)").as_str());
    text::put(&mut out, this.as_str());
    let ghost s1 = seq![head@, this@];
    assert(text::texts(out@) =~= s1);
    let ghost called = json::items_at(*m, "peers"@);
    let ghost calling = json::items_at(*m, "inbound"@);
    match m.items("peers") {
        Some(v) => add_called(k, m, roster, v, &mut out),
        None => {},
    }
    let ghost s2 = s1 + Seq::new(called.len(), |i: int| called_row(*k, *m, roster@, called[i]));
    assert(text::texts(out@) =~= s2);
    match m.items("inbound") {
        Some(v) => add_calling(k, m, roster, v, &mut out),
        None => {},
    }
    assert(text::texts(out@) =~= s2 + Seq::new(
        calling.len(),
        |i: int| calling_row(*k, *m, roster@, calling[i]),
    ));
    out
}

/// The litter roster, then the mesh as seen from the connected node: who is
/// primary, each peer's term, head and how recently it answered. `leader` is
/// the account that the node's head names, `mesh` what it said of its peers.
pub fn peers_text(
    k: &Skin,
    mesh: &Result<Json, String>,
    roster: &Roster,
    node: &str,
    leader: &Option<String>,
) -> (r: String)
    ensures
        r@ == text::joined(
            table(*k, mesh_view(*mesh), roster@, node@, text::text_view(*leader)),
            "\n"@,
        ),
{
    let mut out = text::none();
    let top = String::from_str("  ").concat(ui::dim(k, "litter").as_str());
    text::put(&mut out, top.as_str());
    assert(text::texts(out@) =~= seq![top@]);
    match mesh {
        Ok(m) => {
            add_litter(k, &Some(m), roster, node, leader, &mut out);
            let ghost s1 = text::texts(out@);
            let mut more = mesh_block(k, m, roster, node);
            let ghost s2 = text::texts(more@);
            out.append(&mut more);
            assert(text::texts(out@) =~= s1 + s2);
        },
        Err(e) => {
            add_litter(k, &None, roster, node, leader, &mut out);
            let line = String::from_str("  mesh: ").concat(ui::alert(k, e.as_str()).as_str());
            text::put(&mut out, line.as_str());
        },
    }
    text::join(&out, "\n")
}

// ---------------------------------------------------------------------
// Changes
// ---------------------------------------------------------------------

/// What was last said of the mesh.
#[derive(Debug)]
pub struct MeshWatch {
    pub leader: Option<String>,
    pub quorum: Option<bool>,
    /// The peers heard of, and whether each was stale.
    pub stale: Vec<(String, bool)>,
}

pub struct WatchView {
    pub leader: Option<Seq<char>>,
    pub quorum: Option<bool>,
    pub stale: Map<Seq<char>, bool>,
}

/// The last entry under each name.
pub open spec fn stale_map(v: Seq<(String, bool)>) -> Map<Seq<char>, bool>
    decreases v.len(),
{
    if v.len() == 0 {
        Map::empty()
    } else {
        stale_map(v.drop_last()).insert(v.last().0@, v.last().1)
    }
}

impl View for MeshWatch {
    type V = WatchView;

    open spec fn view(&self) -> WatchView {
        WatchView {
            leader: text::text_view(self.leader),
            quorum: self.quorum,
            stale: stale_map(self.stale@),
        }
    }
}

/// The routing label of the first among `v` that is the leader.
pub open spec fn leading(v: Seq<Json>) -> Option<Json>
    decreases v.len(),
{
    if v.len() == 0 {
        None
    } else {
        match leading(v.drop_last()) {
            Some(st) => Some(st),
            None => {
                let st = agent::value_at(v.last(), "status"@);
                if json::text_at(st, "role"@) == Some("leader"@) {
                    Some(st)
                } else {
                    None
                }
            },
        }
    }
}

/// The status of the primary, where one is heard of: the node's own first, then
/// those it calls, then those that call it.
pub open spec fn primary_status(m: Json) -> Option<Json> {
    let me = agent::value_at(m, "me"@);
    if json::text_at(me, "role"@) == Some("leader"@) {
        Some(me)
    } else {
        match leading(json::items_at(m, "peers"@)) {
            Some(st) => Some(st),
            None => leading(json::items_at(m, "inbound"@)),
        }
    }
}

/// The cat that is primary.
pub open spec fn primary_of(m: Json, roster: Seq<(Seq<char>, Seq<u8>)>) -> Option<Seq<char>> {
    match primary_status(m) {
        Some(st) => match json::text_at(st, "name"@) {
            Some(n) => Some(client::cat_named(m, n, roster)),
            None => None,
        },
        None => None,
    }
}

/// The cat that the node takes for the leader.
pub open spec fn leader_of(m: Json, roster: Seq<(Seq<char>, Seq<u8>)>) -> Option<Seq<char>> {
    match json::text_at(agent::value_at(m, "me"@), "leader"@) {
        Some(n) => Some(client::cat_named(m, n, roster)),
        None => None,
    }
}

/// A peer that was not heard from lately, or never.
pub open spec fn is_stale(p: Json) -> bool {
    match json::num_at(p, "seen_ms_ago"@) {
        Some(ms) => ms > client::STALE_MS,
        None => true,
    }
}

/// How many peers have answered lately.
pub open spec fn lively(peers: Seq<Json>) -> nat
    decreases peers.len(),
{
    if peers.len() == 0 {
        0
    } else {
        lively(peers.drop_last()) + if client::is_object(agent::value_at(peers.last(), "status"@))
            && !is_stale(peers.last()) {
            1nat
        } else {
            0nat
        }
    }
}

pub open spec fn mesh_line(k: Skin, s: Seq<char>) -> Seq<char> {
    "  "@ + ui::spaces(scroll::TIME_W as nat) + " "@ + ui::painted(
        k,
        k.theme.kuro,
        if k.theme.bracket_labels {
            "[网] MESH"@
        } else {
            "网 mesh"@
        },
    ) + "  "@ + s
}

/// The peers one by one: a line for each that went stale or came back.
pub open spec fn stale_steps(
    k: Skin,
    m: Json,
    roster: Seq<(Seq<char>, Seq<u8>)>,
    known: Map<Seq<char>, bool>,
    peers: Seq<Json>,
) -> (Map<Seq<char>, bool>, Seq<Seq<char>>)
    decreases peers.len(),
{
    if peers.len() == 0 {
        (known, seq![])
    } else {
        let (map, lines) = stale_steps(k, m, roster, known, peers.drop_last());
        let p = peers.last();
        let st = agent::value_at(p, "status"@);
        if client::is_object(st) {
            let name = client::cat_named(m, scroll::text_or(st, "name"@, "?"@), roster);
            let now = is_stale(p);
            let line = mesh_line(
                k,
                ui::whom(k, name) + " "@ + if now {
                    ui::painted(k, k.theme.warm, "went stale"@)
                } else {
                    ui::painted(k, k.theme.progress, "back"@)
                },
            );
            (
                map.insert(name, now),
                if map.dom().contains(name) && map[name] != now {
                    lines.push(line)
                } else {
                    lines
                },
            )
        } else {
            (map, lines)
        }
    }
}

pub open spec fn has_quorum(m: Json) -> bool {
    1 + lively(json::items_at(m, "peers"@)) >= scroll::num_or_0(m, "quorum"@)
}

pub open spec fn quorum_line(k: Skin, m: Json) -> Seq<char> {
    let peers = json::items_at(m, "peers"@);
    let tag = text::dec(1 + lively(peers)) + "/"@ + text::dec(1 + peers.len()) + " alive"@;
    mesh_line(
        k,
        if has_quorum(m) {
            ui::painted(k, k.theme.progress, "quorum ok, "@ + tag)
        } else {
            ui::painted(k, k.theme.alarm, "NO QUORUM, "@ + tag)
        },
    )
}

pub open spec fn leader_line(k: Skin, leader: Option<Seq<char>>) -> Seq<char> {
    mesh_line(
        k,
        "leader: "@ + match leader {
            Some(n) => ui::whom(k, n),
            None => ui::dimmed(k, "nobody (election)"@),
        },
    )
}

/// One look at the mesh: what is known of it after that, and a line for each
/// change.
pub open spec fn watched(
    k: Skin,
    w: WatchView,
    m: Json,
    roster: Seq<(Seq<char>, Seq<u8>)>,
) -> (WatchView, Seq<Seq<char>>) {
    let leader = leader_of(m, roster);
    let l1 = if leader != w.leader {
        seq![leader_line(k, leader)]
    } else {
        seq![]
    };
    let l2 = if w.quorum != Some(has_quorum(m)) {
        seq![quorum_line(k, m)]
    } else {
        seq![]
    };
    let (stale, l3) = stale_steps(k, m, roster, w.stale, json::items_at(m, "peers"@));
    (WatchView { leader, quorum: Some(has_quorum(m)), stale }, l1 + l2 + l3)
}

fn leading_in<'a>(v: &'a Vec<Json>) -> (r: Option<&'a Json>)
    ensures
        match r {
            Some(st) => leading(v@) == Some(*st),
            None => leading(v@) is None,
        },
{
    let mut i: usize = 0;
    assert(v@.take(0) =~= Seq::<Json>::empty());
    while i < v.len()
        invariant
            i <= v.len(),
            leading(v@.take(i as int)) is None,
        decreases v.len() - i,
    {
        assert(v@.take(i + 1).drop_last() =~= v@.take(i as int));
        if let Some(st) = v[i].get("status") {
            if let Some(role) = st.text("role") {
                if text::same(role.as_str(), "leader") {
                    proof {
                        lemma_leading(v@, (i + 1) as nat);
                    }
                    return Some(st);
                }
            }
        }
        i = i + 1;
    }
    assert(v@.take(i as int) =~= v@);
    None
}

proof fn lemma_leading(v: Seq<Json>, n: nat)
    requires
        n <= v.len(),
        leading(v.take(n as int)) is Some,
    ensures
        leading(v) == leading(v.take(n as int)),
    decreases v.len() - n,
{
    if n < v.len() {
        assert(v.take(n as int + 1).drop_last() =~= v.take(n as int));
        lemma_leading(v, n + 1);
    } else {
        assert(v.take(n as int) =~= v);
    }
}

fn named(m: &Json, st: &Json, roster: &Roster) -> (r: Option<String>)
    ensures
        text::text_view(r) == (match json::text_at(*st, "name"@) {
            Some(n) => Some(client::cat_named(*m, n, roster@)),
            None => None,
        }),
{
    match st.text("name") {
        Some(n) => Some(client::cat_of(m, n.as_str(), roster)),
        None => None,
    }
}

/// The cat that is primary, where one is heard of.
pub fn primary(m: &Json, roster: &Roster) -> (r: Option<String>)
    ensures
        text::text_view(r) == primary_of(*m, roster@),
{
    if let Some(me) = m.get("me") {
        if let Some(role) = me.text("role") {
            if text::same(role.as_str(), "leader") {
                return named(m, me, roster);
            }
        }
    }
    if let Some(v) = m.items("peers") {
        if let Some(st) = leading_in(v) {
            return named(m, st, roster);
        }
    }
    if let Some(v) = m.items("inbound") {
        if let Some(st) = leading_in(v) {
            return named(m, st, roster);
        }
    }
    None
}

fn stale_now(p: &Json) -> (r: bool)
    ensures
        r == is_stale(*p),
{
    match p.num("seen_ms_ago") {
        Some(ms) => ms > client::STALE_MS,
        None => true,
    }
}

fn has_status(p: &Json) -> (r: bool)
    ensures
        r == client::is_object(agent::value_at(*p, "status"@)),
{
    match p.get("status") {
        Some(st) => match st {
            Json::Object(_) => true,
            _ => false,
        },
        None => false,
    }
}

fn lively_in(v: &Vec<Json>) -> (n: usize)
    ensures
        n == lively(v@),
        n <= v@.len(),
{
    let mut n: usize = 0;
    let mut i: usize = 0;
    assert(v@.take(0) =~= Seq::<Json>::empty());
    while i < v.len()
        invariant
            n <= i <= v.len(),
            n == lively(v@.take(i as int)),
        decreases v.len() - i,
    {
        assert(v@.take(i + 1).drop_last() =~= v@.take(i as int));
        if has_status(&v[i]) && !stale_now(&v[i]) {
            n = n + 1;
        }
        i = i + 1;
    }
    assert(v@.take(i as int) =~= v@);
    n
}

fn was_stale(v: &Vec<(String, bool)>, name: &str) -> (r: Option<bool>)
    ensures
        r == (if stale_map(v@).dom().contains(name@) {
            Some(stale_map(v@)[name@])
        } else {
            None
        }),
{
    let mut i: usize = v.len();
    assert(v@.take(i as int) =~= v@);
    while i > 0
        invariant
            i <= v.len(),
            stale_map(v@).dom().contains(name@) == stale_map(v@.take(i as int)).dom().contains(
                name@,
            ),
            stale_map(v@).dom().contains(name@) ==> stale_map(v@)[name@] == stale_map(
                v@.take(i as int),
            )[name@],
        decreases i,
    {
        assert(v@.take(i as int).last() == v@[i - 1]);
        assert(v@.take(i as int).drop_last() =~= v@.take(i - 1));
        if text::same(v[i - 1].0.as_str(), name) {
            return Some(v[i - 1].1);
        }
        i = i - 1;
    }
    None
}

impl MeshWatch {
    /// Nothing said yet.
    pub fn new() -> (r: MeshWatch)
        ensures
            r@ == (WatchView { leader: None, quorum: None, stale: Map::empty() }),
    {
        MeshWatch { leader: None, quorum: None, stale: Vec::new() }
    }

    fn note(&mut self, name: &str, now: bool)
        ensures
            final(self)@ == (WatchView {
                stale: old(self)@.stale.insert(name@, now),
                ..old(self)@
            }),
    {
        let ghost was = self.stale@;
        self.stale.push((name.to_owned(), now));
        assert(self.stale@.drop_last() =~= was);
    }

    fn look_at_peers(&mut self, k: &Skin, m: &Json, roster: &Roster, v: &Vec<Json>) -> (out: Vec<
        String,
    >)
        ensures
            ({
                let (stale, lines) = stale_steps(*k, *m, roster@, old(self)@.stale, v@);
                &&& final(self)@ == (WatchView { stale, ..old(self)@ })
                &&& text::texts(out@) == lines
            }),
    {
        let ghost start = self@;
        let mut out = text::none();
        let mut i: usize = 0;
        assert(v@.take(0) =~= Seq::<Json>::empty());
        assert(text::texts(out@) =~= Seq::<Seq<char>>::empty());
        while i < v.len()
            invariant
                i <= v.len(),
                self@ == (WatchView { stale: self@.stale, ..start }),
                (self@.stale, text::texts(out@)) == stale_steps(
                    *k,
                    *m,
                    roster@,
                    start.stale,
                    v@.take(i as int),
                ),
            decreases v.len() - i,
        {
            assert(v@.take(i + 1).drop_last() =~= v@.take(i as int));
            let p = &v[i];
            if let Some(st) = p.get("status") {
                if let Json::Object(_) = st {
                    let name = client::cat_of(
                        m,
                        scroll::word_or(st, "name", "?").as_str(),
                        roster,
                    );
                    let now = stale_now(p);
                    let was = was_stale(&self.stale, name.as_str());
                    if was.is_some() && was != Some(now) {
                        let news = if now {
                            ui::warn(k, "went stale")
                        } else {
                            ui::ok(k, "back")
                        };
                        let words = ui::who(k, name.as_str()).concat(" ").concat(news.as_str());
                        text::put(&mut out, scroll::mesh(k, words.as_str()).as_str());
                    }
                    self.note(name.as_str(), now);
                }
            }
            i = i + 1;
        }
        assert(v@.take(i as int) =~= v@);
        out
    }

    /// One look at the mesh: a line only for what changed, the leader, the
    /// quorum, or a peer going stale or coming back; never a full table.
    pub fn look(&mut self, k: &Skin, m: &Json, roster: &Roster) -> (out: Vec<String>)
        ensures
            (final(self)@, text::texts(out@)) == watched(*k, old(self)@, *m, roster@),
    {
        let ghost start = self@;
        let mut out = text::none();
        assert(text::texts(out@) =~= Seq::<Seq<char>>::empty());
        let leader = match m.get("me") {
            Some(me) => match me.text("leader") {
                Some(n) => Some(client::cat_of(m, n.as_str(), roster)),
                None => None,
            },
            None => None,
        };
        let same = match (&leader, &self.leader) {
            (Some(a), Some(b)) => text::same(a.as_str(), b.as_str()),
            (None, None) => true,
            _ => false,
        };
        if !same {
            let who = match &leader {
                Some(n) => ui::who(k, n.as_str()),
                None => ui::dim(k, "nobody (election)"),
            };
            let words = String::from_str("leader: ").concat(who.as_str());
            text::put(&mut out, scroll::mesh(k, words.as_str()).as_str());
        }
        let ghost l1 = text::texts(out@);
        self.leader = leader;
        let ghost peers = json::items_at(*m, "peers"@);
        let (alive, total): (u64, u64) = match m.items("peers") {
            Some(v) => {
                let n: usize = lively_in(v);
                assert(n <= v.len() && v.len() <= usize::MAX);
                (n as u64, v.len() as u64)
            },
            None => (0, 0),
        };
        let quorum: u64 = scroll::number_or_0(m, "quorum");
        let good = alive as u128 + 1 >= quorum as u128;
        let changed = match self.quorum {
            Some(q) => q != good,
            None => true,
        };
        if changed {
            let tag = count_up(alive).concat("/").concat(count_up(total).as_str()).concat(
                " alive",
            );
            let styled = if good {
                ui::ok(k, String::from_str("quorum ok, ").concat(tag.as_str()).as_str())
            } else {
                ui::alert(k, String::from_str("NO QUORUM, ").concat(tag.as_str()).as_str())
            };
            text::put(&mut out, scroll::mesh(k, styled.as_str()).as_str());
        }
        self.quorum = Some(good);
        let ghost l2 = text::texts(out@);
        assert(l1 =~= (if leader_of(*m, roster@) != start.leader {
            seq![leader_line(*k, leader_of(*m, roster@))]
        } else {
            seq![]
        }));
        assert(l2 =~= l1 + (if start.quorum != Some(has_quorum(*m)) {
            seq![quorum_line(*k, *m)]
        } else {
            seq![]
        }));
        let ghost mid = self@;
        match m.items("peers") {
            Some(v) => {
                let mut lines = self.look_at_peers(k, m, roster, v);
                let ghost l3 = text::texts(lines@);
                out.append(&mut lines);
                assert(text::texts(out@) =~= l2 + l3);
            },
            None => {
                assert(l2 + Seq::<Seq<char>>::empty() =~= l2);
            },
        }
        out
    }
}

fn count_up(n: u64) -> (r: String)
    ensures
        r@ == text::dec((n + 1) as nat),
{
    text::wide_number(n as u128 + 1)
}

// ---------------------------------------------------------------------
// Nothing is said twice
// ---------------------------------------------------------------------

/// What a peer is called.
pub open spec fn peer_name(m: Json, roster: Seq<(Seq<char>, Seq<u8>)>, p: Json) -> Seq<char> {
    client::cat_named(
        m,
        scroll::text_or(agent::value_at(p, "status"@), "name"@, "?"@),
        roster,
    )
}

pub open spec fn answers(p: Json) -> bool {
    client::is_object(agent::value_at(p, "status"@))
}

/// No two peers that answer are called the same.
pub open spec fn names_differ(
    m: Json,
    roster: Seq<(Seq<char>, Seq<u8>)>,
    peers: Seq<Json>,
) -> bool {
    forall|i: int, j: int|
        0 <= i < j < peers.len() && answers(#[trigger] peers[i]) && answers(#[trigger] peers[j])
            ==> peer_name(m, roster, peers[i]) != peer_name(m, roster, peers[j])
}

/// It is known of each peer that answers whether it is stale.
pub open spec fn all_known(
    m: Json,
    roster: Seq<(Seq<char>, Seq<u8>)>,
    map: Map<Seq<char>, bool>,
    peers: Seq<Json>,
) -> bool {
    forall|i: int|
        0 <= i < peers.len() && answers(#[trigger] peers[i]) ==> map.dom().contains(
            peer_name(m, roster, peers[i]),
        ) && map[peer_name(m, roster, peers[i])] == is_stale(peers[i])
}

proof fn lemma_learned(
    k: Skin,
    m: Json,
    roster: Seq<(Seq<char>, Seq<u8>)>,
    known: Map<Seq<char>, bool>,
    peers: Seq<Json>,
)
    requires
        names_differ(m, roster, peers),
    ensures
        all_known(m, roster, stale_steps(k, m, roster, known, peers).0, peers),
    decreases peers.len(),
{
    if peers.len() > 0 {
        let front = peers.drop_last();
        let map = stale_steps(k, m, roster, known, front).0;
        let next = stale_steps(k, m, roster, known, peers).0;
        assert(names_differ(m, roster, front)) by {
            assert forall|i: int, j: int|
                0 <= i < j < front.len() && answers(#[trigger] front[i]) && answers(
                    #[trigger] front[j],
                ) implies peer_name(m, roster, front[i]) != peer_name(m, roster, front[j]) by {
                assert(front[i] == peers[i] && front[j] == peers[j]);
            }
        }
        lemma_learned(k, m, roster, known, front);
        assert forall|i: int| 0 <= i < peers.len() && answers(#[trigger] peers[i]) implies next.dom().contains(
            peer_name(m, roster, peers[i]),
        ) && next[peer_name(m, roster, peers[i])] == is_stale(peers[i]) by {
            if i < front.len() {
                assert(front[i] == peers[i]);
                assert(peers[peers.len() - 1] == peers.last());
            }
        }
    }
}

proof fn lemma_quiet(
    k: Skin,
    m: Json,
    roster: Seq<(Seq<char>, Seq<u8>)>,
    known: Map<Seq<char>, bool>,
    peers: Seq<Json>,
)
    requires
        all_known(m, roster, known, peers),
    ensures
        stale_steps(k, m, roster, known, peers).0 =~= known,
        stale_steps(k, m, roster, known, peers).1.len() == 0,
    decreases peers.len(),
{
    if peers.len() > 0 {
        let front = peers.drop_last();
        assert(all_known(m, roster, known, front)) by {
            assert forall|i: int| 0 <= i < front.len() && answers(#[trigger] front[i]) implies known.dom().contains(
                peer_name(m, roster, front[i]),
            ) && known[peer_name(m, roster, front[i])] == is_stale(front[i]) by {
                assert(front[i] == peers[i]);
            }
        }
        lemma_quiet(k, m, roster, known, front);
        assert(peers[peers.len() - 1] == peers.last());
        assert(answers(peers.last()) ==> known.dom().contains(
            peer_name(m, roster, peers.last()),
        ));
    }
}

/// Only changes are told: a mesh that looks as it did before says nothing,
/// where no two peers are called the same.
pub proof fn an_unchanged_mesh_says_nothing(
    k: Skin,
    w: WatchView,
    m: Json,
    roster: Seq<(Seq<char>, Seq<u8>)>,
)
    requires
        names_differ(m, roster, json::items_at(m, "peers"@)),
    ensures
        watched(k, watched(k, w, m, roster).0, m, roster).1.len() == 0,
{
    let peers = json::items_at(m, "peers"@);
    let first = watched(k, w, m, roster).0;
    lemma_learned(k, m, roster, w.stale, peers);
    lemma_quiet(k, m, roster, first.stale, peers);
}

// ---------------------------------------------------------------------
// What is seen of the mesh
// ---------------------------------------------------------------------

/// A peer is stale when it has not been heard for five seconds, or never was.
pub proof fn a_peer_is_stale_after_five_seconds(p: Json)
    ensures
        json::num_at(p, "seen_ms_ago"@) is None ==> is_stale(p),
        json::num_at(p, "seen_ms_ago"@) matches Some(ms) ==> (is_stale(p) <==> ms > 5000),
{
}

/// The peers that answer and are not stale are counted, each once.
pub proof fn the_lively_are_counted(peers: Seq<Json>, p: Json)
    ensures
        lively(Seq::empty()) == 0,
        answers(p) && !is_stale(p) ==> lively(peers.push(p)) == lively(peers) + 1,
        !answers(p) || is_stale(p) ==> lively(peers.push(p)) == lively(peers),
        lively(peers) <= peers.len(),
    decreases peers.len(),
{
    assert(peers.push(p).drop_last() =~= peers);
    if peers.len() > 0 {
        the_lively_are_counted(peers.drop_last(), p);
    }
}

/// There is a quorum where the node and its lively peers are as many as it takes.
pub proof fn a_quorum_counts_the_node_itself(m: Json)
    ensures
        has_quorum(m) <==> 1 + lively(json::items_at(m, "peers"@)) >= scroll::num_or_0(
            m,
            "quorum"@,
        ),
{
}

/// The primary is the node itself where it leads, else the first that is called
/// and leads, else the first that calls in and does.
pub proof fn the_primary_is_whoever_leads(v: Seq<Json>)
    ensures
        match leading(v) {
            Some(st) => exists|i: int|
                0 <= i < v.len() && agent::value_at(#[trigger] v[i], "status"@) == st
                    && json::text_at(st, "role"@) == Some("leader"@) && forall|k: int|
                    0 <= k < i ==> json::text_at(
                        agent::value_at(#[trigger] v[k], "status"@),
                        "role"@,
                    ) != Some("leader"@),
            None => forall|k: int|
                0 <= k < v.len() ==> json::text_at(
                    agent::value_at(#[trigger] v[k], "status"@),
                    "role"@,
                ) != Some("leader"@),
        },
    decreases v.len(),
{
    if v.len() > 0 {
        let front = v.drop_last();
        the_primary_is_whoever_leads(front);
        match leading(front) {
            Some(st) => {
                let i = choose|i: int|
                    0 <= i < front.len() && agent::value_at(#[trigger] front[i], "status"@) == st
                        && json::text_at(st, "role"@) == Some("leader"@) && forall|k: int|
                        0 <= k < i ==> json::text_at(
                            agent::value_at(#[trigger] front[k], "status"@),
                            "role"@,
                        ) != Some("leader"@);
                assert(v[i] == front[i]);
                assert forall|k: int| 0 <= k < i implies json::text_at(
                    agent::value_at(#[trigger] v[k], "status"@),
                    "role"@,
                ) != Some("leader"@) by {
                    assert(front[k] == v[k]);
                }
            },
            None => {
                assert forall|k: int| 0 <= k < v.len() - 1 implies json::text_at(
                    agent::value_at(#[trigger] v[k], "status"@),
                    "role"@,
                ) != Some("leader"@) by {
                    assert(front[k] == v[k]);
                }
                assert(v[v.len() - 1] == v.last());
            },
        }
    }
}

/// The node itself is the primary where it leads.
pub proof fn a_leader_is_its_own_primary(m: Json)
    ensures
        json::text_at(agent::value_at(m, "me"@), "role"@) == Some("leader"@) ==> primary_status(m)
            == Some(agent::value_at(m, "me"@)),
        json::text_at(agent::value_at(m, "me"@), "role"@) != Some("leader"@) ==> primary_status(m)
            == (match leading(json::items_at(m, "peers"@)) {
            Some(st) => Some(st),
            None => leading(json::items_at(m, "inbound"@)),
        }),
{
}

/// A change of leader and of quorum is told when it happens, and only then.
pub proof fn a_change_of_the_mesh_is_told(
    k: Skin,
    w: WatchView,
    m: Json,
    roster: Seq<(Seq<char>, Seq<u8>)>,
)
    ensures
        ({
            let (after, lines) = watched(k, w, m, roster);
            let changed = leader_of(m, roster) != w.leader;
            let shifted = w.quorum != Some(has_quorum(m));
            &&& after.leader == leader_of(m, roster)
            &&& after.quorum == Some(has_quorum(m))
            &&& changed ==> lines.len() > 0 && lines[0] == leader_line(k, leader_of(m, roster))
            &&& shifted ==> lines.contains(quorum_line(k, m))
            &&& lines.len() == (if changed {
                1int
            } else {
                0
            }) + (if shifted {
                1int
            } else {
                0
            }) + stale_steps(k, m, roster, w.stale, json::items_at(m, "peers"@)).1.len()
        }),
{
    let (after, lines) = watched(k, w, m, roster);
    let changed = leader_of(m, roster) != w.leader;
    if w.quorum != Some(has_quorum(m)) {
        assert(lines[if changed {
            1int
        } else {
            0
        }] == quorum_line(k, m));
    }
}

/// A new leader is told by name, and that there is none where there is none; a
/// quorum is told with how many are alive.
pub proof fn a_change_is_told_by_name(k: Skin, n: Seq<char>, m: Json)
    ensures
        text::has(leader_line(k, Some(n)), n),
        text::has(leader_line(k, None), "nobody (election)"@),
        text::has(quorum_line(k, m), text::dec(1 + lively(json::items_at(m, "peers"@)))),
        has_quorum(m) ==> text::has(quorum_line(k, m), "quorum ok, "@),
        !has_quorum(m) ==> text::has(quorum_line(k, m), "NO QUORUM, "@),
{
    ui::a_cat_is_shown_by_name(k, n);
    lemma_mesh_line(k, "leader: "@ + ui::whom(k, n));
    text::lemma_has_right("leader: "@, ui::whom(k, n), n);
    text::lemma_has_through(leader_line(k, Some(n)), "leader: "@ + ui::whom(k, n), n);
    let nobody = "nobody (election)"@;
    ui::what_is_painted_is_shown(k, k.theme.smoke, nobody);
    lemma_mesh_line(k, "leader: "@ + ui::dimmed(k, nobody));
    text::lemma_has_right("leader: "@, ui::dimmed(k, nobody), nobody);
    text::lemma_has_through(leader_line(k, None), "leader: "@ + ui::dimmed(k, nobody), nobody);
    let peers = json::items_at(m, "peers"@);
    let d = text::dec(1 + lively(peers));
    let e = "/"@;
    let f = text::dec(1 + peers.len());
    let g = " alive"@;
    let tag = d + e + f + g;
    text::lemma_has_self(d);
    text::lemma_has_left(d, e, d);
    text::lemma_has_left(d + e, f, d);
    text::lemma_has_left(d + e + f, g, d);
    let lead = if has_quorum(m) {
        "quorum ok, "@
    } else {
        "NO QUORUM, "@
    };
    let c = if has_quorum(m) {
        k.theme.progress
    } else {
        k.theme.alarm
    };
    text::lemma_has_self(lead);
    text::lemma_has_left(lead, tag, lead);
    text::lemma_has_right(lead, tag, d);
    ui::what_is_painted_is_shown(k, c, lead + tag);
    lemma_mesh_line(k, ui::painted(k, c, lead + tag));
    text::lemma_has_through(quorum_line(k, m), ui::painted(k, c, lead + tag), lead + tag);
    text::lemma_has_through(quorum_line(k, m), lead + tag, lead);
    text::lemma_has_through(quorum_line(k, m), lead + tag, d);
}

proof fn lemma_mesh_line(k: Skin, s: Seq<char>)
    ensures
        text::has(mesh_line(k, s), s),
{
    text::lemma_has_self(s);
    let a = "  "@ + ui::spaces(scroll::TIME_W as nat) + " "@ + ui::painted(
        k,
        k.theme.kuro,
        if k.theme.bracket_labels {
            "[网] MESH"@
        } else {
            "网 mesh"@
        },
    ) + "  "@;
    text::lemma_has_right(a, s, s);
}

/// A peer that goes stale, or comes back, is told of once; one that is new is
/// not, and what is known of it is what was seen last.
pub proof fn a_peer_that_changes_is_told_of(
    k: Skin,
    m: Json,
    roster: Seq<(Seq<char>, Seq<u8>)>,
    known: Map<Seq<char>, bool>,
    peers: Seq<Json>,
    p: Json,
)
    ensures
        stale_steps(k, m, roster, known, Seq::empty()) == (known, Seq::<Seq<char>>::empty()),
        ({
            let (map, lines) = stale_steps(k, m, roster, known, peers);
            let (map2, lines2) = stale_steps(k, m, roster, known, peers.push(p));
            let name = peer_name(m, roster, p);
            &&& !answers(p) ==> map2 == map && lines2 == lines
            &&& answers(p) ==> map2 == map.insert(name, is_stale(p))
            &&& answers(p) && map.dom().contains(name) && map[name] != is_stale(p) ==> lines2.len()
                == lines.len() + 1 && text::has(lines2.last(), name) && (is_stale(p) ==> text::has(
                lines2.last(),
                "went stale"@,
            )) && (!is_stale(p) ==> text::has(lines2.last(), "back"@))
            &&& answers(p) && !(map.dom().contains(name) && map[name] != is_stale(p)) ==> lines2
                == lines
        }),
{
    assert(peers.push(p).drop_last() =~= peers);
    let name = peer_name(m, roster, p);
    let word = if is_stale(p) {
        "went stale"@
    } else {
        "back"@
    };
    let c = if is_stale(p) {
        k.theme.warm
    } else {
        k.theme.progress
    };
    let a = ui::whom(k, name);
    let b = ui::painted(k, c, word);
    ui::a_cat_is_shown_by_name(k, name);
    ui::what_is_painted_is_shown(k, c, word);
    text::lemma_has_left(a, " "@, name);
    text::lemma_has_left(a + " "@, b, name);
    text::lemma_has_right(a + " "@, b, word);
    let s = a + " "@ + b;
    lemma_mesh_line(k, s);
    text::lemma_has_through(mesh_line(k, s), s, name);
    text::lemma_has_through(mesh_line(k, s), s, word);
}

/// Everyone on the roster has a row, in order, and so has every peer that is
/// called and every one that calls.
pub proof fn everyone_has_a_row(
    k: Skin,
    m: Json,
    roster: Seq<(Seq<char>, Seq<u8>)>,
    node: Seq<char>,
    leader: Option<Seq<char>>,
    i: int,
)
    ensures
        table(k, Ok(m), roster, node, leader).len() == 1 + roster.len() + 2 + json::items_at(
            m,
            "peers"@,
        ).len() + json::items_at(m, "inbound"@).len(),
        0 <= i < roster.len() ==> table(k, Ok(m), roster, node, leader)[1 + i] == cat_row(
            k,
            roster[i].0,
            roster[i].1,
            mesh_address(Some(m), roster, node, roster[i].0),
            leader,
        ),
        0 <= i < json::items_at(m, "peers"@).len() ==> mesh_rows(k, m, roster, node)[2 + i]
            == called_row(k, m, roster, json::items_at(m, "peers"@)[i]),
        0 <= i < json::items_at(m, "inbound"@).len() ==> mesh_rows(k, m, roster, node)[2
            + json::items_at(m, "peers"@).len() + i] == calling_row(
            k,
            m,
            roster,
            json::items_at(m, "inbound"@)[i],
        ),
{
}

/// A cat has its row with its name and its account, and the leader is
/// marked.
pub proof fn a_cat_has_its_account(
    k: Skin,
    name: Seq<char>,
    account: Seq<u8>,
    addr: Option<Seq<char>>,
    leader: Option<Seq<char>>,
)
    ensures
        text::has(cat_row(k, name, account, addr, leader), name),
        text::has(cat_row(k, name, account, addr, leader), keys::shortened(account)),
        text::has(cat_row(k, name, account, addr, leader), (if leader == Some(keys::hexed(account)) {
        "  "@ + ui::painted(k, k.theme.progress, "leader"@)
    } else {
        ""@
    })),
{
    let a = "    "@;
    let b = ui::padded(ui::whom(k, name), 14);
    let c = "  "@;
    let d = ui::dimmed(k, keys::shortened(account));
    let e = "  "@;
    let f = ui::padded(
        match addr {
            Some(s) => ui::plained(k, s),
            None => ui::dimmed(k, "—"@),
        },
        24,
    );
    let g = (if leader == Some(keys::hexed(account)) {
        "  "@ + ui::painted(k, k.theme.progress, "leader"@)
    } else {
        ""@
    });
    let whole = a + b + c + d + e + f + g;
    assert(cat_row(k, name, account, addr, leader) == whole);
    assert(text::has(whole, name)) by {
        text::lemma_has_self(b);
        text::lemma_has_right(a, b, b);
        text::lemma_has_left(a + b, c, b);
        text::lemma_has_left(a + b + c, d, b);
        text::lemma_has_left(a + b + c + d, e, b);
        text::lemma_has_left(a + b + c + d + e, f, b);
        text::lemma_has_left(a + b + c + d + e + f, g, b);
        lemma_padded_name(k, name);
        text::lemma_has_through(whole, b, name);
    }
    assert(text::has(whole, keys::shortened(account))) by {
        text::lemma_has_self(d);
        text::lemma_has_right(a + b + c, d, d);
        text::lemma_has_left(a + b + c + d, e, d);
        text::lemma_has_left(a + b + c + d + e, f, d);
        text::lemma_has_left(a + b + c + d + e + f, g, d);
        ui::what_is_painted_is_shown(k, k.theme.ink, keys::shortened(account));
        text::lemma_has_through(whole, d, keys::shortened(account));
    }
    assert(text::has(whole, g)) by {
        text::lemma_has_self(g);
        text::lemma_has_right(a + b + c + d + e + f, g, g);
    }
}

proof fn lemma_padded_name(k: Skin, name: Seq<char>)
    ensures
        text::has(ui::padded(ui::whom(k, name), 14), name),
{
    let w = ui::whom(k, name);
    ui::a_cat_is_shown_by_name(k, name);
    ui::a_text_is_filled_with_spaces(w, 14);
    assert(text::occurs_at(ui::padded(w, 14), w, 0));
    text::lemma_has_through(ui::padded(w, 14), w, name);
}

} // verus!
