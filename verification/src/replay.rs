//! What a session shows of what happened before it: the log replayed, and the
//! chain and the mesh as they stand.

use crate::agent;
use crate::common;
use crate::common::Roster;
use crate::composer;
use crate::figures;
use crate::json;
use crate::json::Json;
use crate::keys;
use crate::ledger::BLOCK_MS;
use crate::scroll;
use crate::scroll::{Shown, ShownView};
use crate::text;
use crate::ui;
use crate::ui::Skin;
use vstd::prelude::*;
use vstd::string::*;

verus! {

// ---------------------------------------------------------------------
// A session's replay
// ---------------------------------------------------------------------

/// The newest seal time among the first `n` entries that have one.
pub open spec fn last_time(v: Seq<Json>, n: nat) -> Option<u64>
    decreases n,
{
    if n == 0 {
        None
    } else {
        match json::num_at(v[n - 1], "at"@) {
            Some(t) => Some(t),
            None => last_time(v, (n - 1) as nat),
        }
    }
}

/// An entry as it is replayed: its own time, and the gap since the last entry
/// that had one.
pub open spec fn replayed_entry(
    k: Skin,
    v: Seq<Json>,
    i: int,
    roster: Seq<(Seq<char>, Seq<u8>)>,
    me: Seq<char>,
    art: Seq<Seq<char>>,
) -> ShownView {
    scroll::rendered(
        k,
        figures::stamped(json::num_at(v[i], "at"@), last_time(v, i as nat)),
        scroll::num_or_0(v[i], "block"@),
        agent::value_at(v[i], "effect"@),
        roster,
        me,
        art,
    )
}

/// The whole session a node holds, replayed, so that scrollback is where one
/// reads what happened while one was away.
pub fn replay(k: &Skin, events: &Vec<Json>, roster: &Roster, me: &str, art: &Vec<String>) -> (out: Vec<
    Shown,
>)
    ensures
        out@.len() == events@.len(),
        forall|i: int|
            0 <= i < events@.len() ==> (#[trigger] out@[i])@ == replayed_entry(
                *k,
                events@,
                i,
                roster@,
                me@,
                text::texts(art@),
            ),
{
    let nothing = Json::Null;
    let mut out: Vec<Shown> = Vec::new();
    let mut prev: Option<u64> = None;
    let mut i: usize = 0;
    while i < events.len()
        invariant
            i <= events.len(),
            nothing == Json::Null,
            out@.len() == i,
            prev == last_time(events@, i as nat),
            forall|j: int|
                0 <= j < i ==> (#[trigger] out@[j])@ == replayed_entry(
                    *k,
                    events@,
                    j,
                    roster@,
                    me@,
                    text::texts(art@),
                ),
        decreases events.len() - i,
    {
        let e = &events[i];
        let at = e.num("at");
        let block = scroll::number_or_0(e, "block");
        let time = figures::stamp_at(at, prev);
        let eff = match e.get("effect") {
            Some(x) => x,
            None => &nothing,
        };
        out.push(scroll::render(k, time.as_str(), block, eff, roster, me, art));
        match at {
            Some(t) => {
                prev = Some(t);
            },
            None => {},
        }
        i = i + 1;
    }
    out
}

/// The heading over a replay.
pub fn replay_title(k: &Skin, events: usize) -> (r: String)
    requires
        ui::ramp_fits(*k),
    ensures
        r@ == composer::section_text(
            *k,
            "回放"@,
            "replay · this session, "@ + text::dec(events as nat) + " events"@,
        ),
{
    let s = "replay · this session, ".to_owned().concat(
        text::number(events as u64).as_str(),
    ).concat(" events");
    composer::section(k, "回放", s.as_str())
}

// ---------------------------------------------------------------------
// A preview, with estimated times
// ---------------------------------------------------------------------

/// Where the last `last` of `total` entries begin.
pub open spec fn first_shown(total: nat, last: nat) -> nat {
    if total > last {
        (total - last) as nat
    } else {
        0
    }
}

/// The block of the entry before.
pub open spec fn block_before(v: Seq<Json>, i: int) -> Option<u64> {
    if i > 0 {
        json::num_at(v[i - 1], "block"@)
    } else {
        None
    }
}

/// The block an entry's gap is counted from: for the first one shown that of the
/// entry before it, and after it 0 where an entry names none.
pub open spec fn gap_from(v: Seq<Json>, start: int, i: int) -> Option<u64> {
    if i == start {
        block_before(v, i)
    } else {
        Some(scroll::num_or_0(v[i - 1], "block"@))
    }
}

pub open spec fn estimates_fit(v: Seq<Json>, start: int, head: u64, now: i64) -> bool {
    forall|i: int|
        start <= i < v.len() ==> #[trigger] figures::when_fits(
            scroll::num_or_0(v[i], "block"@),
            gap_from(v, start, i),
            head,
            now,
            BLOCK_MS,
        )
}

pub open spec fn estimated_entry(
    k: Skin,
    v: Seq<Json>,
    start: int,
    i: int,
    head: u64,
    now: i64,
    roster: Seq<(Seq<char>, Seq<u8>)>,
    me: Seq<char>,
    art: Seq<Seq<char>>,
) -> ShownView {
    scroll::rendered(
        k,
        figures::when_text(
            scroll::num_or_0(v[i], "block"@),
            gap_from(v, start, i),
            head,
            now,
            BLOCK_MS,
        ),
        scroll::num_or_0(v[i], "block"@),
        agent::value_at(v[i], "effect"@),
        roster,
        me,
        art,
    )
}

/// The last entries a node holds, with times estimated from the head: the head
/// is now, and every block one block time earlier.
pub fn preview(
    k: &Skin,
    events: &Vec<Json>,
    last: usize,
    head: u64,
    now: i64,
    roster: &Roster,
    me: &str,
    art: &Vec<String>,
) -> (out: Vec<Shown>)
    requires
        estimates_fit(
            events@,
            first_shown(events@.len(), last as nat) as int,
            head,
            now,
        ),
    ensures
        ({
            let start = first_shown(events@.len(), last as nat) as int;
            &&& out@.len() == events@.len() - start
            &&& forall|i: int|
                0 <= i < out@.len() ==> (#[trigger] out@[i])@ == estimated_entry(
                    *k,
                    events@,
                    start,
                    start + i,
                    head,
                    now,
                    roster@,
                    me@,
                    text::texts(art@),
                )
        }),
{
    let nothing = Json::Null;
    let start: usize = if events.len() > last {
        events.len() - last
    } else {
        0
    };
    let mut prev: Option<u64> = if start > 0 {
        events[start - 1].num("block")
    } else {
        None
    };
    let mut out: Vec<Shown> = Vec::new();
    let mut i: usize = start;
    while i < events.len()
        invariant
            start <= i <= events.len(),
            start == first_shown(events@.len(), last as nat),
            nothing == Json::Null,
            estimates_fit(events@, start as int, head, now),
            out@.len() == i - start,
            prev == gap_from(events@, start as int, i as int),
            forall|j: int|
                0 <= j < out@.len() ==> (#[trigger] out@[j])@ == estimated_entry(
                    *k,
                    events@,
                    start as int,
                    start + j,
                    head,
                    now,
                    roster@,
                    me@,
                    text::texts(art@),
                ),
        decreases events.len() - i,
    {
        let e = &events[i];
        let block = scroll::number_or_0(e, "block");
        assert(figures::when_fits(
            scroll::num_or_0(events@[i as int], "block"@),
            gap_from(events@, start as int, i as int),
            head,
            now,
            BLOCK_MS,
        ));
        let time = figures::when(block, prev, head, now, BLOCK_MS);
        let eff = match e.get("effect") {
            Some(x) => x,
            None => &nothing,
        };
        out.push(scroll::render(k, time.as_str(), block, eff, roster, me, art));
        prev = Some(block);
        i = i + 1;
    }
    out
}

/// The blocks that entries name, in order.
pub open spec fn blocks_of(v: Seq<Json>) -> Seq<u64>
    decreases v.len(),
{
    if v.len() == 0 {
        seq![]
    } else {
        match json::num_at(v.last(), "block"@) {
            Some(b) => blocks_of(v.drop_last()).push(b),
            None => blocks_of(v.drop_last()),
        }
    }
}

/// How many of the gaps between blocks are drawn.
pub const GAPS: usize = 16;

/// The gaps between blocks: the last few.
pub open spec fn last_gaps(blocks: Seq<u64>) -> Seq<u64> {
    let n = if blocks.len() == 0 {
        0
    } else {
        (blocks.len() - 1) as nat
    };
    let from = first_shown(n, GAPS as nat);
    Seq::new(
        (n - from) as nat,
        |i: int|
            if blocks[from + i + 1] > blocks[from + i] {
                (blocks[from + i + 1] - blocks[from + i]) as u64
            } else {
                0
            },
    )
}

/// The gaps between the blocks of some entries: the last few.
pub fn gaps(events: &Vec<Json>) -> (out: Vec<u64>)
    ensures
        out@ == last_gaps(blocks_of(events@)),
{
    let mut blocks: Vec<u64> = Vec::new();
    let mut i: usize = 0;
    assert(events@.take(0) =~= Seq::<Json>::empty());
    while i < events.len()
        invariant
            i <= events.len(),
            blocks@ == blocks_of(events@.take(i as int)),
        decreases events.len() - i,
    {
        assert(events@.take(i + 1).drop_last() =~= events@.take(i as int));
        assert(events@.take(i + 1).last() == events@[i as int]);
        match events[i].num("block") {
            Some(b) => {
                blocks.push(b);
            },
            None => {},
        }
        i = i + 1;
    }
    assert(events@.take(i as int) =~= events@);
    let n: usize = if blocks.len() == 0 {
        0
    } else {
        blocks.len() - 1
    };
    let from: usize = if n > GAPS {
        n - GAPS
    } else {
        0
    };
    let mut out: Vec<u64> = Vec::new();
    let mut j: usize = from;
    while j < n
        invariant
            from <= j <= n,
            n == if blocks@.len() == 0 {
                0
            } else {
                blocks@.len() - 1
            },
            from == first_shown(n as nat, GAPS as nat),
            out@ == last_gaps(blocks@).take(j - from),
        decreases n - j,
    {
        let gap: u64 = if blocks[j + 1] > blocks[j] {
            blocks[j + 1] - blocks[j]
        } else {
            0
        };
        out.push(gap);
        assert(last_gaps(blocks@).take(j - from + 1) =~= last_gaps(blocks@).take(j - from).push(
            gap,
        ));
        j = j + 1;
    }
    assert(last_gaps(blocks@).take(n - from) =~= last_gaps(blocks@));
    out
}

/// The row on the chain: its head, its pulse, and who seals and who plans.
pub fn chain_row(
    k: &Skin,
    head: u64,
    levels: &Vec<usize>,
    primary: &Option<String>,
    term: u64,
    leader: &Option<String>,
) -> (r: String)
    requires
        ui::ramp_fits(*k),
        levels@.len() < k.ramp@.len(),
    ensures
        r@ == composer::labelled(
            *k,
            "链"@,
            "chain"@,
            ui::dimmed(*k, "head #"@ + text::dec(head as nat)) + "  "@ + (if levels@.len() == 0 {
                ui::dimmed(*k, "no events yet"@)
            } else {
                ui::bars(*k, ui::gradient(*k, levels@.len()), levels@)
            }) + "  "@ + ui::dimmed(
                *k,
                "6s blocks · primary "@ + (match text::text_view(*primary) {
                    Some(p) => p,
                    None => "nobody"@,
                }) + " · term "@ + text::dec(term as nat) + " · leader cat "@ + (
                match text::text_view(*leader) {
                    Some(l) => l,
                    None => "unset"@,
                }),
            ),
        ),
{
    let top = "head #".to_owned().concat(text::number(head).as_str());
    let pulse = if levels.len() == 0 {
        ui::dim(k, "no events yet")
    } else {
        ui::sparkline(k, levels)
    };
    let who = match primary {
        Some(p) => p.clone(),
        None => "nobody".to_owned(),
    };
    let plans = match leader {
        Some(l) => l.clone(),
        None => "unset".to_owned(),
    };
    let how = "6s blocks · primary ".to_owned().concat(who.as_str()).concat(" · term ").concat(
        text::number(term).as_str(),
    ).concat(" · leader cat ").concat(plans.as_str());
    let val = ui::dim(k, top.as_str()).concat("  ").concat(pulse.as_str()).concat("  ").concat(
        ui::dim(k, how.as_str()).as_str(),
    );
    composer::kv(k, "链", "chain", val.as_str())
}

// ---------------------------------------------------------------------
// The mesh as it stands
// ---------------------------------------------------------------------

/// The cat an account in a status is, where it names one.
pub open spec fn account_name(st: Json, roster: Seq<(Seq<char>, Seq<u8>)>) -> Option<Seq<char>> {
    match json::text_at(st, "account"@) {
        Some(s) => match keys::account_in(s) {
            Some(a) => Some(common::name_for(roster, a)),
            None => None,
        },
        None => None,
    }
}

fn name_in_status(st: &Json, roster: &Roster) -> (r: Option<String>)
    ensures
        text::text_view(r) == account_name(*st, roster@),
{
    match st.text("account") {
        Some(s) => match keys::from_hex(s.as_str()) {
            Some(a) => Some(roster.name_of(&a)),
            None => None,
        },
        None => None,
    }
}

pub open spec fn leads(st: Json) -> bool {
    json::text_at(st, "role"@) == Some("leader"@)
}

/// The first status of some peers that leads.
pub open spec fn first_leading(peers: Seq<Json>) -> Option<Json>
    decreases peers.len(),
{
    if peers.len() == 0 {
        None
    } else if leads(agent::value_at(peers[0], "status"@)) {
        Some(agent::value_at(peers[0], "status"@))
    } else {
        first_leading(peers.skip(1))
    }
}

/// The cat whose node seals blocks: this node's own first, then the peers'.
pub open spec fn sealing_cat(m: Json, roster: Seq<(Seq<char>, Seq<u8>)>) -> Option<Seq<char>> {
    if leads(agent::value_at(m, "me"@)) {
        account_name(agent::value_at(m, "me"@), roster)
    } else {
        match first_leading(json::items_at(m, "peers"@)) {
            Some(st) => account_name(st, roster),
            None => None,
        }
    }
}

fn is_leading(st: &Json) -> (r: bool)
    ensures
        r == leads(*st),
{
    match st.text("role") {
        Some(s) => text::same(s.as_str(), "leader"),
        None => false,
    }
}

fn first_leading_cat(peers: &Vec<Json>, roster: &Roster) -> (r: Option<String>)
    ensures
        text::text_view(r) == (match first_leading(peers@) {
            Some(st) => account_name(st, roster@),
            None => None,
        }),
{
    let mut i: usize = 0;
    assert(peers@.skip(0) =~= peers@);
    while i < peers.len()
        invariant
            i <= peers.len(),
            first_leading(peers@) == first_leading(peers@.skip(i as int)),
        decreases peers.len() - i,
    {
        assert(peers@.skip(i as int)[0] == peers@[i as int]);
        assert(peers@.skip(i as int).skip(1) =~= peers@.skip(i + 1));
        match peers[i].get("status") {
            Some(st) => {
                if is_leading(st) {
                    return name_in_status(st, roster);
                }
            },
            None => {},
        }
        i = i + 1;
    }
    None
}

/// The cat whose node seals blocks, where one is heard of.
pub fn sealer(m: &Json, roster: &Roster) -> (r: Option<String>)
    ensures
        text::text_view(r) == sealing_cat(*m, roster@),
{
    match m.get("me") {
        Some(me) => {
            if is_leading(me) {
                return name_in_status(me, roster);
            }
        },
        None => {},
    }
    match m.items("peers") {
        Some(v) => first_leading_cat(v, roster),
        None => None,
    }
}

/// A peer that answered lately, as a cat.
pub open spec fn is_alive(p: Json, roster: Seq<(Seq<char>, Seq<u8>)>) -> bool {
    account_name(agent::value_at(p, "status"@), roster) is Some && (json::num_at(
        p,
        "seen_ms_ago"@,
    ) matches Some(ms) && ms <= 5000)
}

pub open spec fn alive_peers(v: Seq<Json>, roster: Seq<(Seq<char>, Seq<u8>)>) -> nat
    decreases v.len(),
{
    if v.len() == 0 {
        0
    } else {
        alive_peers(v.drop_last(), roster) + if is_alive(v.last(), roster) {
            1nat
        } else {
            0nat
        }
    }
}

/// What is said of a peer that is not alive.
pub open spec fn absent_text(k: Skin, p: Json, roster: Seq<(Seq<char>, Seq<u8>)>) -> Seq<char> {
    match (json::num_at(p, "seen_ms_ago"@), account_name(agent::value_at(p, "status"@), roster)) {
        (Some(_), Some(n)) => ui::whom(k, n) + " "@ + ui::painted(k, k.theme.warm, "stale"@),
        _ => ui::dimmed(
            k,
            match json::text_at(p, "route"@) {
                Some(r) => r,
                None => "?"@,
            },
        ) + " "@ + ui::painted(k, k.theme.warm, "never answered"@),
    }
}

pub open spec fn absent_lines(k: Skin, v: Seq<Json>, roster: Seq<(Seq<char>, Seq<u8>)>) -> Seq<
    Seq<char>,
>
    decreases v.len(),
{
    if v.len() == 0 {
        seq![]
    } else if is_alive(v.last(), roster) {
        absent_lines(k, v.drop_last(), roster)
    } else {
        absent_lines(k, v.drop_last(), roster).push(
            scroll::mesh_text(k, absent_text(k, v.last(), roster)),
        )
    }
}

pub open spec fn standing(k: Skin, m: Json, roster: Seq<(Seq<char>, Seq<u8>)>) -> Seq<char> {
    let peers = json::items_at(m, "peers"@);
    "primary "@ + (match sealing_cat(m, roster) {
        Some(p) => ui::whom(k, p),
        None => ui::dimmed(k, "nobody (election)"@),
    }) + " · term "@ + ui::plained(
        k,
        text::dec(scroll::num_or_0(agent::value_at(m, "me"@), "term"@) as nat),
    ) + " · "@ + ui::plained(
        k,
        text::dec(1 + alive_peers(peers, roster)) + "/"@ + text::dec(1 + peers.len()),
    ) + " alive · quorum "@ + ui::plained(k, scroll::raw_at(m, "quorum"@)) + " · checkpoint #"@
        + text::dec(scroll::num_or_0(m, "last_checkpoint"@) as nat)
}

/// What is said of the mesh: its state in a line, and a line for each peer that
/// is not there.
pub open spec fn standing_lines(k: Skin, m: Json, roster: Seq<(Seq<char>, Seq<u8>)>) -> Seq<
    Seq<char>,
> {
    seq![scroll::mesh_text(k, standing(k, m, roster))] + absent_lines(
        k,
        json::items_at(m, "peers"@),
        roster,
    )
}

fn peer_name(p: &Json, roster: &Roster) -> (r: Option<String>)
    ensures
        text::text_view(r) == account_name(agent::value_at(*p, "status"@), roster@),
{
    match p.get("status") {
        Some(st) => name_in_status(st, roster),
        None => None,
    }
}

fn alive_one(p: &Json, roster: &Roster) -> (r: bool)
    ensures
        r == is_alive(*p, roster@),
{
    match (p.num("seen_ms_ago"), peer_name(p, roster)) {
        (Some(ms), Some(_)) => ms <= 5000,
        _ => false,
    }
}

fn absent_one(k: &Skin, p: &Json, roster: &Roster) -> (r: String)
    ensures
        r@ == absent_text(*k, *p, roster@),
{
    match (p.num("seen_ms_ago"), peer_name(p, roster)) {
        (Some(_), Some(n)) => ui::who(k, n.as_str()).concat(" ").concat(
            ui::warn(k, "stale").as_str(),
        ),
        _ => {
            let route = match p.text("route") {
                Some(r) => r,
                None => "?".to_owned(),
            };
            ui::dim(k, route.as_str()).concat(" ").concat(ui::warn(k, "never answered").as_str())
        },
    }
}

fn alive_count(v: &Vec<Json>, roster: &Roster) -> (n: usize)
    ensures
        n == alive_peers(v@, roster@),
        n <= v@.len(),
{
    let mut n: usize = 0;
    let mut i: usize = 0;
    assert(v@.take(0) =~= Seq::<Json>::empty());
    while i < v.len()
        invariant
            n <= i <= v.len(),
            n == alive_peers(v@.take(i as int), roster@),
        decreases v.len() - i,
    {
        assert(v@.take(i + 1).drop_last() =~= v@.take(i as int));
        assert(v@.take(i + 1).last() == v@[i as int]);
        if alive_one(&v[i], roster) {
            n = n + 1;
        }
        i = i + 1;
    }
    assert(v@.take(i as int) =~= v@);
    n
}

fn put_absent(k: &Skin, v: &Vec<Json>, roster: &Roster, out: &mut Vec<String>)
    ensures
        text::texts(final(out)@) == text::texts(old(out)@) + absent_lines(*k, v@, roster@),
{
    let ghost first = text::texts(out@);
    let mut i: usize = 0;
    assert(v@.take(0) =~= Seq::<Json>::empty());
    assert(first + absent_lines(*k, v@.take(0), roster@) =~= first);
    while i < v.len()
        invariant
            i <= v.len(),
            text::texts(out@) == first + absent_lines(*k, v@.take(i as int), roster@),
        decreases v.len() - i,
    {
        assert(v@.take(i + 1).drop_last() =~= v@.take(i as int));
        assert(v@.take(i + 1).last() == v@[i as int]);
        if !alive_one(&v[i], roster) {
            let line = scroll::mesh(k, absent_one(k, &v[i], roster).as_str());
            text::put(out, line.as_str());
            assert(first + absent_lines(*k, v@.take(i as int), roster@).push(line@) =~= (first
                + absent_lines(*k, v@.take(i as int), roster@)).push(line@));
        }
        i = i + 1;
    }
    assert(v@.take(i as int) =~= v@);
}

/// What is said of the mesh as it stands.
pub fn mesh_standing(k: &Skin, m: &Json, roster: &Roster) -> (out: Vec<String>)
    ensures
        text::texts(out@) == standing_lines(*k, *m, roster@),
{
    let none: Vec<Json> = Vec::new();
    let peers = match m.items("peers") {
        Some(v) => v,
        None => &none,
    };
    assert(peers@ =~= json::items_at(*m, "peers"@));
    let who = match sealer(m, roster) {
        Some(p) => ui::who(k, p.as_str()),
        None => ui::dim(k, "nobody (election)"),
    };
    let term: u64 = match m.get("me") {
        Some(me) => scroll::number_or_0(me, "term"),
        None => 0,
    };
    let alive: u128 = 1 + alive_count(peers, roster) as u128;
    let all: u128 = 1 + peers.len() as u128;
    let share = text::wide_number(alive).concat("/").concat(text::wide_number(all).as_str());
    let line = "primary ".to_owned().concat(who.as_str()).concat(" · term ").concat(
        ui::plain(k, text::number(term).as_str()).as_str(),
    ).concat(" · ").concat(ui::plain(k, share.as_str()).as_str()).concat(" alive · quorum ").concat(
        ui::plain(k, scroll::raw_of(m, "quorum").as_str()).as_str(),
    ).concat(" · checkpoint #").concat(
        text::number(scroll::number_or_0(m, "last_checkpoint")).as_str(),
    );
    let mut out = text::none();
    text::put(&mut out, scroll::mesh(k, line.as_str()).as_str());
    assert(text::texts(out@) =~= seq![scroll::mesh_text(*k, standing(*k, *m, roster@))]);
    put_absent(k, peers, roster, &mut out);
    out
}

// ---------------------------------------------------------------------
// What a replay shows
// ---------------------------------------------------------------------

/// The time before an event is that of the last one before it that has a time.
pub proof fn the_time_before_is_the_last_known(v: Seq<Json>, n: nat)
    requires
        n <= v.len(),
    ensures
        match last_time(v, n) {
            Some(t) => exists|i: int|
                0 <= i < n && json::num_at(#[trigger] v[i], "at"@) == Some(t) && forall|k: int|
                    i < k < n ==> json::num_at(#[trigger] v[k], "at"@) is None,
            None => forall|k: int| 0 <= k < n ==> json::num_at(#[trigger] v[k], "at"@) is None,
        },
    decreases n,
{
    if n > 0 {
        if json::num_at(v[n - 1], "at"@) is None {
            the_time_before_is_the_last_known(v, (n - 1) as nat);
        }
    }
}

/// The last events are shown, as many as are asked for, and all where there are
/// no more.
pub proof fn the_last_events_are_shown(total: nat, last: nat)
    ensures
        total <= last ==> first_shown(total, last) == 0,
        total > last ==> total - first_shown(total, last) == last,
{
}

/// The gaps shown are those between the last blocks that have events, sixteen of
/// them at most.
pub proof fn the_last_gaps_are_shown(blocks: Seq<u64>, i: int)
    ensures
        last_gaps(blocks).len() <= 16,
        blocks.len() <= 17 && blocks.len() > 0 ==> last_gaps(blocks).len() == blocks.len() - 1,
        blocks.len() == 0 ==> last_gaps(blocks).len() == 0,
        blocks.len() > 17 ==> last_gaps(blocks).len() == 16,
        0 <= i < last_gaps(blocks).len() ==> ({
            let b = blocks[blocks.len() - last_gaps(blocks).len() + i];
            let a = blocks[blocks.len() - last_gaps(blocks).len() + i - 1];
            &&& b >= a ==> last_gaps(blocks)[i] == b - a
            &&& b < a ==> last_gaps(blocks)[i] == 0
        }),
{
}

/// A peer is alive where it is a known account that was heard in the last five
/// seconds; each that is not is told of.
pub proof fn the_living_are_counted_and_the_absent_told(
    k: Skin,
    v: Seq<Json>,
    p: Json,
    roster: Seq<(Seq<char>, Seq<u8>)>,
)
    ensures
        alive_peers(Seq::empty(), roster) == 0,
        absent_lines(k, Seq::empty(), roster).len() == 0,
        is_alive(p, roster) ==> alive_peers(v.push(p), roster) == alive_peers(v, roster) + 1
            && absent_lines(k, v.push(p), roster) == absent_lines(k, v, roster),
        !is_alive(p, roster) ==> alive_peers(v.push(p), roster) == alive_peers(v, roster)
            && absent_lines(k, v.push(p), roster) == absent_lines(k, v, roster).push(
            scroll::mesh_text(k, absent_text(k, p, roster)),
        ),
        is_alive(p, roster) ==> (json::num_at(p, "seen_ms_ago"@) matches Some(ms) && ms <= 5000),
        json::num_at(p, "seen_ms_ago"@) is None ==> !is_alive(p, roster),
{
    assert(v.push(p).drop_last() =~= v);
}

/// Whoever seals is the node itself where it leads, else the first peer that
/// does.
pub proof fn whoever_leads_seals(m: Json, roster: Seq<(Seq<char>, Seq<u8>)>)
    ensures
        json::text_at(agent::value_at(m, "me"@), "role"@) == Some("leader"@) ==> sealing_cat(
            m,
            roster,
        ) == account_name(agent::value_at(m, "me"@), roster),
        json::text_at(agent::value_at(m, "me"@), "role"@) != Some("leader"@) ==> sealing_cat(
            m,
            roster,
        ) == (match first_leading(json::items_at(m, "peers"@)) {
            Some(st) => account_name(st, roster),
            None => None,
        }),
{
}

/// The first that leads is found, and none only where none does.
pub proof fn the_first_that_leads_is_found(peers: Seq<Json>)
    ensures
        match first_leading(peers) {
            Some(st) => json::text_at(st, "role"@) == Some("leader"@) && exists|i: int|
                0 <= i < peers.len() && agent::value_at(#[trigger] peers[i], "status"@) == st,
            None => forall|i: int|
                0 <= i < peers.len() ==> json::text_at(
                    agent::value_at(#[trigger] peers[i], "status"@),
                    "role"@,
                ) != Some("leader"@),
        },
    decreases peers.len(),
{
    if peers.len() > 0 {
        let rest = peers.skip(1);
        the_first_that_leads_is_found(rest);
        if leads(agent::value_at(peers[0], "status"@)) {
            assert(agent::value_at(peers[0], "status"@) == first_leading(peers)->0);
        } else {
            match first_leading(rest) {
                Some(st) => {
                    let i = choose|i: int|
                        0 <= i < rest.len() && agent::value_at(#[trigger] rest[i], "status"@) == st;
                    assert(peers[i + 1] == rest[i]);
                },
                None => {
                    assert forall|i: int| 0 <= i < peers.len() implies json::text_at(
                        agent::value_at(#[trigger] peers[i], "status"@),
                        "role"@,
                    ) != Some("leader"@) by {
                        if i > 0 {
                            assert(rest[i - 1] == peers[i]);
                        }
                    }
                },
            }
        }
    }
}

/// An event is shown with its own time, block and effect.
pub proof fn an_event_is_replayed_as_it_was(
    k: Skin,
    v: Seq<Json>,
    i: int,
    roster: Seq<(Seq<char>, Seq<u8>)>,
    me: Seq<char>,
    art: Seq<Seq<char>>,
)
    ensures
        replayed_entry(k, v, i, roster, me, art) == scroll::rendered(
            k,
            figures::stamped(json::num_at(v[i], "at"@), last_time(v, i as nat)),
            scroll::num_or_0(v[i], "block"@),
            agent::value_at(v[i], "effect"@),
            roster,
            me,
            art,
        ),
{
}

/// The blocks of the events are taken in order, where they have one.
pub proof fn every_block_is_taken(
    a: Seq<Json>,
    b: Seq<Json>,
    x: Json,
)
    ensures
        blocks_of(a + b) == blocks_of(a) + blocks_of(b),
        blocks_of(seq![x]) == (if json::num_at(x, "block"@) is Some {
            seq![json::num_at(x, "block"@)->0]
        } else {
            Seq::<u64>::empty()
        }),
        blocks_of(Seq::<Json>::empty()).len() == 0,
    decreases b.len(),
{
    reveal_with_fuel(blocks_of, 2);
    assert(seq![x].drop_last() =~= Seq::<Json>::empty());
    assert(blocks_of(Seq::<Json>::empty()).len() == 0);
    if b.len() == 0 {
        assert(a + b =~= a);
        assert(blocks_of(a + b) =~= blocks_of(a) + blocks_of(b));
    } else {
        let all = a + b;
        assert(all.drop_last() =~= a + b.drop_last());
        assert(all.last() == b.last());
        every_block_is_taken(a, b.drop_last(), x);
        assert(blocks_of(all) =~= blocks_of(a) + blocks_of(b));
    }
}

} // verus!
