//! The operator's side: what a node's answers look like to a person, and what
//! is done about a write that did not go through.

use crate::agent;
use crate::answers;
use crate::common;
use crate::common::Roster;
use crate::composer;
use crate::figures;
use crate::json;
use crate::json::{Json, Tree};
use crate::keys;
use crate::keys::Account;
use crate::outside;
use crate::scroll;
use crate::scroll::Shown;
use crate::text;
use crate::ui;
use crate::ui::Skin;
use vstd::prelude::*;
use vstd::string::*;

verus! {

/// A peer not heard from for this long is stale.
pub const STALE_MS: u64 = 5000;

// ---------------------------------------------------------------------
// Addresses and names
// ---------------------------------------------------------------------

/// An address without its scheme and without slashes at its end.
pub open spec fn host_of(route: Seq<char>) -> Seq<char> {
    text::without_trailing(agent::bare_address(route), '/')
}

/// `https://192.168.1.126:9944` to `192.168.1.126:9944`: the scheme is always
/// the same on this mesh, so it is just width.
pub fn host_port(route: &str) -> (r: String)
    ensures
        r@ == host_of(route@),
{
    text::trim_trailing(agent::address_of(route).as_str(), '/')
}

/// One entry of the chain's own roster.
pub open spec fn roster_row(r: Json) -> Option<(Seq<char>, Seq<u8>)> {
    match (json::text_at(r, "name"@), json::text_at(r, "account"@)) {
        (Some(n), Some(h)) => match keys::account_in(h) {
            Some(a) => Some((n, a)),
            None => None,
        },
        _ => None,
    }
}

pub open spec fn roster_rows(v: Seq<Json>) -> Seq<(Seq<char>, Seq<u8>)>
    decreases v.len(),
{
    if v.len() == 0 {
        seq![]
    } else {
        let before = roster_rows(v.drop_last());
        match roster_row(v.last()) {
            Some(e) => before.push(e),
            None => before,
        }
    }
}

/// Name accounts by the chain's own roster, as a node serves it, where it
/// serves one.
pub fn adopt_chain_roster(v: &Json) -> (r: Option<Roster>)
    ensures
        match r {
            Some(x) => *v matches Json::List(rows) && x@ == roster_rows(rows@) && x@.len() > 0,
            None => *v matches Json::List(rows) ==> roster_rows(rows@).len() == 0,
        },
{
    match v {
        Json::List(rows) => {
            let mut out: Vec<(String, Account)> = Vec::new();
            let mut i: usize = 0;
            assert(rows@.take(0) =~= Seq::<Json>::empty());
            assert(common::entries(out@) =~= Seq::<(Seq<char>, Seq<u8>)>::empty());
            while i < rows.len()
                invariant
                    i <= rows.len(),
                    common::entries(out@) == roster_rows(rows@.take(i as int)),
                decreases rows.len() - i,
            {
                assert(rows@.take(i + 1).drop_last() =~= rows@.take(i as int));
                let ghost was = common::entries(out@);
                match (rows[i].text("name"), rows[i].text("account")) {
                    (Some(n), Some(h)) => match keys::from_hex(h.as_str()) {
                        Some(a) => {
                            let ghost e = (n@, a@);
                            out.push((n, a));
                            assert(common::entries(out@) =~= was.push(e));
                        },
                        None => {},
                    },
                    _ => {},
                }
                i = i + 1;
            }
            assert(rows@.take(i as int) =~= rows@);
            assert(common::entries(out@).len() == out@.len());
            if out.len() == 0 {
                None
            } else {
                Some(Roster(out))
            }
        },
        _ => None,
    }
}

proof fn lemma_roster_rows(rows: Seq<Json>, served: Seq<(String, Account)>)
    requires
        json::tree_items(rows) == answers::name_memberss(served),
        rows.len() == served.len(),
    ensures
        roster_rows(rows) == common::entries(served),
    decreases rows.len(),
{
    if rows.len() > 0 {
        let front = rows.drop_last();
        let less = served.drop_last();
        let (row, e) = (rows.last(), served.last());
        assert(rows.subrange(0, rows.len() - 1) =~= front);
        assert(json::tree_items(rows).drop_last() =~= json::tree_items(front));
        assert(answers::name_memberss(served).drop_last() =~= answers::name_memberss(less));
        lemma_roster_rows(front, less);
        assert(json::tree(row) == json::tree_items(rows).last());
        assert(json::tree(row) == Tree::Object(answers::name_members(e)));
        reveal_strlit("name");
        reveal_strlit("account");
        reveal_with_fuel(json::first_under, 3);
        json::values_read_as_built(row, "name"@);
        json::values_read_as_built(row, "account"@);
        assert("name"@.len() != "account"@.len());
        keys::hex_reads_back(e.1@);
        assert(common::entries(served) =~= common::entries(less).push((e.0@, e.1@)));
    } else {
        assert(common::entries(served) =~= Seq::<(Seq<char>, Seq<u8>)>::empty());
    }
}

/// The roster that a node serves is the one that a client names accounts by.
pub proof fn a_served_roster_is_adopted(rows: Vec<Json>, served: Seq<(String, Account)>)
    requires
        json::tree(Json::List(rows)) == Tree::List(answers::name_memberss(served)),
    ensures
        roster_rows(rows@) == common::entries(served),
{
    json::lemma_tree_items(rows@);
    assert(answers::name_memberss(served).len() == served.len());
    lemma_roster_rows(rows@, served);
}

/// A status that is one.
pub open spec fn is_object(v: Json) -> bool {
    v is Object
}

/// What a node calls itself is a routing label; the cat behind it is known by
/// its account. The last of `v` that carries the label decides.
pub open spec fn cat_among(v: Seq<Json>, key: Option<Seq<char>>, label: Seq<char>, roster: Seq<
    (Seq<char>, Seq<u8>),
>) -> Option<Seq<char>>
    decreases v.len(),
{
    if v.len() == 0 {
        None
    } else {
        let st = match key {
            Some(f) => agent::value_at(v.last(), f),
            None => v.last(),
        };
        if (key is None || is_object(st)) && json::text_at(st, "name"@) == Some(label) {
            Some(agent::named_or(json::text_at(st, "account"@), roster, label))
        } else {
            cat_among(v.drop_last(), key, label, roster)
        }
    }
}

/// The cat behind a routing label: as the callers, the called peers and the
/// node itself tell, or the label.
pub open spec fn cat_named(m: Json, label: Seq<char>, roster: Seq<(Seq<char>, Seq<u8>)>) -> Seq<
    char,
> {
    match cat_among(json::items_at(m, "inbound"@), Some("status"@), label, roster) {
        Some(c) => c,
        None => match cat_among(json::items_at(m, "peers"@), Some("status"@), label, roster) {
            Some(c) => c,
            None => match cat_among(
                seq![agent::value_at(m, "me"@)],
                None,
                label,
                roster,
            ) {
                Some(c) => c,
                None => label,
            },
        },
    }
}

fn cat_in_status(st: &Json, label: &str, roster: &Roster) -> (r: Option<String>)
    ensures
        text::text_view(r) == (if json::text_at(*st, "name"@) == Some(label@) {
            Some(agent::named_or(json::text_at(*st, "account"@), roster@, label@))
        } else {
            None
        }),
{
    match st.text("name") {
        Some(n) => if text::same(n.as_str(), label) {
            Some(agent::name_at(st, "account", roster, label))
        } else {
            None
        },
        None => None,
    }
}

fn cat_in(v: &Vec<Json>, label: &str, roster: &Roster) -> (r: Option<String>)
    ensures
        text::text_view(r) == cat_among(v@, Some("status"@), label@, roster@),
{
    let mut i: usize = v.len();
    assert(v@.take(i as int) =~= v@);
    while i > 0
        invariant
            i <= v.len(),
            cat_among(v@, Some("status"@), label@, roster@) == cat_among(
                v@.take(i as int),
                Some("status"@),
                label@,
                roster@,
            ),
        decreases i,
    {
        assert(v@.take(i as int).last() == v@[i - 1]);
        assert(v@.take(i as int).drop_last() =~= v@.take(i - 1));
        match v[i - 1].get("status") {
            Some(st) => match st {
                Json::Object(_) => match cat_in_status(st, label, roster) {
                    Some(c) => {
                        return Some(c);
                    },
                    None => {},
                },
                _ => {},
            },
            None => {},
        }
        i = i - 1;
    }
    None
}

/// The cat behind a routing label.
pub fn cat_of(m: &Json, label: &str, roster: &Roster) -> (r: String)
    ensures
        r@ == cat_named(*m, label@, roster@),
{
    if let Some(v) = m.items("inbound") {
        if let Some(c) = cat_in(v, label, roster) {
            return c;
        }
    }
    if let Some(v) = m.items("peers") {
        if let Some(c) = cat_in(v, label, roster) {
            return c;
        }
    }
    let ghost me = seq![agent::value_at(*m, "me"@)];
    assert(me.drop_last() =~= Seq::<Json>::empty());
    assert(cat_among(me.drop_last(), None, label@, roster@) is None);
    if let Some(st) = m.get("me") {
        if let Some(c) = cat_in_status(st, label, roster) {
            return c;
        }
    }
    label.to_owned()
}

// ---------------------------------------------------------------------
// Tasks
// ---------------------------------------------------------------------

/// Who has a task: its holder, or else the cat it was offered to.
pub open spec fn task_holder(t: Json, roster: Seq<(Seq<char>, Seq<u8>)>) -> Option<Seq<char>> {
    let h = match json::text_at(t, "holder"@) {
        Some(s) => Some(s),
        None => json::text_at(t, "assignee"@),
    };
    match h {
        Some(s) => match keys::account_in(s) {
            Some(a) => Some(common::name_for(roster, a)),
            None => None,
        },
        None => None,
    }
}

pub open spec fn lease_text(t: Json) -> Seq<char> {
    match json::num_at(t, "lease_until"@) {
        Some(b) => " lease→"@ + text::dec(b as nat),
        None => ""@,
    }
}

pub open spec fn status_text(k: Skin, status: Seq<char>) -> Seq<char> {
    let plain = ui::filled_to(status, 18);
    if status == "Open"@ || status == "Planned"@ {
        ui::painted(k, k.theme.progress, plain)
    } else if status == "Failed"@ {
        ui::painted(k, k.theme.alarm, plain)
    } else if status == "Closed"@ || status == "Cleared"@ {
        ui::dimmed(k, plain)
    } else {
        ui::painted(k, k.theme.warm, plain)
    }
}

/// One of the litter's tasks.
pub open spec fn task_text(k: Skin, t: Json, roster: Seq<(Seq<char>, Seq<u8>)>) -> Seq<char> {
    let id = ui::filled_to(scroll::text_or(t, "id"@, "?"@), 6);
    let status = scroll::text_or(t, "status"@, "?"@);
    let who = task_holder(t, roster);
    let who_plain = ui::filled_to(
        match who {
            Some(n) => n,
            None => "-"@,
        },
        10,
    );
    let lease = lease_text(t);
    let indent = 2 + ui::shown_cells(id) + 1 + ui::shown_cells(ui::filled_to(status, 18)) + 1
        + ui::shown_cells(who_plain) + ui::shown_cells(lease) + 2;
    let who_c = match who {
        Some(n) => ui::padded(ui::whom(k, n), 10),
        None => ui::dimmed(k, who_plain),
    };
    "  "@ + ui::painted(k, k.theme.done, id) + "  "@ + status_text(k, status) + " "@ + who_c
        + ui::dimmed(k, lease) + "  "@ + scroll::hanging(k, indent, json::words_at(t, "text"@))
}

pub open spec fn task_texts(
    k: Skin,
    rows: Seq<Json>,
    roster: Seq<(Seq<char>, Seq<u8>)>,
) -> Seq<Seq<char>> {
    Seq::new(rows.len(), |i: int| task_text(k, rows[i], roster))
}

fn holder_of(t: &Json, roster: &Roster) -> (r: Option<String>)
    ensures
        text::text_view(r) == task_holder(*t, roster@),
{
    let h = match t.text("holder") {
        Some(s) => Some(s),
        None => t.text("assignee"),
    };
    match h {
        Some(s) => match keys::from_hex(s.as_str()) {
            Some(a) => Some(roster.name_of(&a)),
            None => None,
        },
        None => None,
    }
}

fn task_row(k: &Skin, t: &Json, roster: &Roster) -> (r: String)
    ensures
        r@ == task_text(*k, *t, roster@),
{
    let id = ui::fill_to(scroll::word_or(t, "id", "?").as_str(), 6);
    let status = scroll::word_or(t, "status", "?");
    let plain = ui::fill_to(status.as_str(), 18);
    let who = holder_of(t, roster);
    let who_plain = match &who {
        Some(n) => ui::fill_to(n.as_str(), 10),
        None => ui::fill_to("-", 10),
    };
    let lease = match t.num("lease_until") {
        Some(b) => String::from_str(" lease→").concat(text::number(b).as_str()),
        None => "".to_owned(),
    };
    let indent: u128 = 2 + ui::shown(id.as_str()) + 1 + ui::shown(plain.as_str()) + 1 + ui::shown(
        who_plain.as_str(),
    ) + ui::shown(lease.as_str()) + 2;
    let s = status.as_str();
    let status_c = if text::same(s, "Open") || text::same(s, "Planned") {
        ui::ok(k, plain.as_str())
    } else if text::same(s, "Failed") {
        ui::alert(k, plain.as_str())
    } else if text::same(s, "Closed") || text::same(s, "Cleared") {
        ui::dim(k, plain.as_str())
    } else {
        ui::warn(k, plain.as_str())
    };
    let who_c = match &who {
        Some(n) => ui::pad(ui::who(k, n.as_str()).as_str(), 10),
        None => ui::dim(k, who_plain.as_str()),
    };
    String::from_str("  ").concat(ui::task(k, id.as_str()).as_str()).concat("  ").concat(
        status_c.as_str(),
    ).concat(" ").concat(who_c.as_str()).concat(ui::dim(k, lease.as_str()).as_str()).concat(
        "  ",
    ).concat(scroll::hang(k, indent, t.words("text").as_str()).as_str())
}

/// The litter's tasks, one to a row.
pub fn tasks_text(k: &Skin, rows: &Vec<Json>, roster: &Roster) -> (r: String)
    ensures
        r@ == (if rows@.len() == 0 {
            "  "@ + ui::dimmed(*k, "no tasks"@)
        } else {
            text::joined(task_texts(*k, rows@, roster@), "\n"@)
        }),
{
    if rows.len() == 0 {
        return String::from_str("  ").concat(ui::dim(k, "no tasks").as_str());
    }
    let ghost want = task_texts(*k, rows@, roster@);
    let mut out = text::none();
    let mut i: usize = 0;
    assert(want.take(0) =~= Seq::<Seq<char>>::empty());
    while i < rows.len()
        invariant
            i <= rows.len(),
            want == task_texts(*k, rows@, roster@),
            text::texts(out@) == want.take(i as int),
        decreases rows.len() - i,
    {
        let one = task_row(k, &rows[i], roster);
        assert(want.take(i + 1) =~= want.take(i as int).push(one@));
        text::put(&mut out, one.as_str());
        i = i + 1;
    }
    assert(want.take(i as int) =~= want);
    text::join(&out, "\n")
}

// ---------------------------------------------------------------------
// Artifacts
// ---------------------------------------------------------------------

/// One artifact or note of a list.
pub open spec fn listed(r: Json, notes: bool, roster: Seq<(Seq<char>, Seq<u8>)>) -> Seq<char> {
    "  "@ + (if notes {
        text::dec(scroll::num_or_0(r, "id"@) as nat)
    } else {
        scroll::text_or(r, "id"@, "?"@)
    }) + "  "@ + json::words_at(r, "title"@) + "  ("@ + agent::named_or(
        json::text_at(r, "author"@),
        roster,
        "someone"@,
    ) + ")"@
}

pub open spec fn listed_rows(
    rows: Seq<Json>,
    notes: bool,
    roster: Seq<(Seq<char>, Seq<u8>)>,
) -> Seq<Seq<char>> {
    Seq::new(rows.len(), |i: int| listed(rows[i], notes, roster))
}

/// Every artifact, or every note: id, title, author.
pub fn listing(rows: &Vec<Json>, notes: bool, roster: &Roster) -> (out: Vec<String>)
    ensures
        text::texts(out@) == listed_rows(rows@, notes, roster@),
{
    let ghost want = listed_rows(rows@, notes, roster@);
    let mut out = text::none();
    let mut i: usize = 0;
    assert(want.take(0) =~= Seq::<Seq<char>>::empty());
    while i < rows.len()
        invariant
            i <= rows.len(),
            want == listed_rows(rows@, notes, roster@),
            text::texts(out@) == want.take(i as int),
        decreases rows.len() - i,
    {
        let r = &rows[i];
        let id = if notes {
            text::number(scroll::number_or_0(r, "id"))
        } else {
            scroll::word_or(r, "id", "?")
        };
        let one = String::from_str("  ").concat(id.as_str()).concat("  ").concat(
            r.words("title").as_str(),
        ).concat("  (").concat(agent::name_at(r, "author", roster, "someone").as_str()).concat(
            ")",
        );
        assert(want.take(i + 1) =~= want.take(i as int).push(one@));
        text::put(&mut out, one.as_str());
        i = i + 1;
    }
    assert(want.take(i as int) =~= want);
    out
}

/// The lists as the session shows them.
pub fn listing_text(k: &Skin, rows: &Vec<Json>, notes: bool, roster: &Roster) -> (r: String)
    ensures
        r@ == (if rows@.len() > 0 {
            text::joined(listed_rows(rows@, notes, roster@), "\n"@)
        } else if notes {
            "  "@ + ui::dimmed(*k, "no notes yet"@)
        } else {
            "  "@ + ui::dimmed(*k, "no artifacts yet"@)
        }),
{
    if rows.len() == 0 {
        let words = if notes {
            "no notes yet"
        } else {
            "no artifacts yet"
        };
        return String::from_str("  ").concat(ui::dim(k, words).as_str());
    }
    text::join(&listing(rows, notes, roster), "\n")
}

pub open spec fn comment_line(c: Json, roster: Seq<(Seq<char>, Seq<u8>)>) -> Seq<char> {
    "  "@ + agent::named_or(json::text_at(c, "who"@), roster, "?"@) + ": "@ + json::words_at(
        c,
        "body"@,
    )
}

/// An artifact's votes and this epoch's comments, where it has any.
pub open spec fn feedback_lines(a: Json, roster: Seq<(Seq<char>, Seq<u8>)>) -> Seq<Seq<char>> {
    let votes = agent::value_at(a, "votes"@);
    let ups = json::items_at(votes, "up"@).len();
    let downs = json::items_at(votes, "down"@).len();
    let comments = json::items_at(a, "comments"@);
    let tally = if ups + downs > 0 {
        seq!["\n▲ "@ + text::dec(ups) + "  ▼ "@ + text::dec(downs)]
    } else {
        seq![]
    };
    let talk = if comments.len() > 0 {
        seq!["\n--- comments (this epoch) ---"@] + Seq::new(
            comments.len(),
            |i: int| comment_line(comments[i], roster),
        )
    } else {
        seq![]
    };
    tally + talk
}

fn count_at(v: &Json, key: &str) -> (n: usize)
    ensures
        n == json::items_at(*v, key@).len(),
{
    match v.items(key) {
        Some(x) => x.len(),
        None => 0,
    }
}

/// An artifact's votes and the current epoch's comments, under its body.
pub fn feedback(a: &Json, roster: &Roster) -> (out: Vec<String>)
    ensures
        text::texts(out@) == feedback_lines(*a, roster@),
{
    let (ups, downs): (usize, usize) = match a.get("votes") {
        Some(v) => (count_at(v, "up"), count_at(v, "down")),
        None => (0, 0),
    };
    let mut out = text::none();
    if ups > 0 || downs > 0 {
        let line = String::from_str("\n▲ ").concat(text::number(ups as u64).as_str()).concat(
            "  ▼ ",
        ).concat(text::number(downs as u64).as_str());
        text::put(&mut out, line.as_str());
    }
    let ghost tally = text::texts(out@);
    if let Some(c) = a.items("comments") {
        if c.len() > 0 {
            text::put(&mut out, "\n--- comments (this epoch) ---");
            let ghost top = text::texts(out@);
            let ghost want = Seq::new(c@.len(), |i: int| comment_line(c@[i], roster@));
            let mut i: usize = 0;
            assert(top + want.take(0) =~= top);
            while i < c.len()
                invariant
                    i <= c.len(),
                    want == Seq::new(c@.len(), |i: int| comment_line(c@[i], roster@)),
                    text::texts(out@) == top + want.take(i as int),
                decreases c.len() - i,
            {
                let one = String::from_str("  ").concat(
                    agent::name_at(&c[i], "who", roster, "?").as_str(),
                ).concat(": ").concat(c[i].words("body").as_str());
                assert(want.take(i + 1) =~= want.take(i as int).push(one@));
                text::put(&mut out, one.as_str());
                i = i + 1;
            }
            assert(want.take(i as int) =~= want);
        }
    }
    assert(text::texts(out@) =~= feedback_lines(*a, roster@));
    out
}

// ---------------------------------------------------------------------
// Effects in plain words
// ---------------------------------------------------------------------

/// The items of a list with every account named, commas between.
pub open spec fn resolved_items(v: Seq<Json>, roster: Seq<(Seq<char>, Seq<u8>)>) -> Seq<char>
    decreases v,
{
    if v.len() == 0 {
        ""@
    } else if v.len() == 1 {
        resolved(v[0], roster)
    } else {
        resolved_items(v.subrange(0, v.len() - 1), roster) + ","@ + resolved(
            v[v.len() - 1],
            roster,
        )
    }
}

/// The members of an object with every account named, commas between.
pub open spec fn resolved_members(
    m: Seq<(String, Json)>,
    roster: Seq<(Seq<char>, Seq<u8>)>,
) -> Seq<char>
    decreases m,
{
    if m.len() == 0 {
        ""@
    } else if m.len() == 1 {
        outside::json_quoted(m[0].0@) + ":"@ + resolved(m[0].1, roster)
    } else {
        resolved_members(m.subrange(0, m.len() - 1), roster) + ","@ + (outside::json_quoted(
            m[m.len() - 1].0@,
        ) + ":"@ + resolved(m[m.len() - 1].1, roster))
    }
}

/// A value as JSON, every text in it that spells an account replaced by the
/// account's name, whatever field it stands in.
pub open spec fn resolved(j: Json, roster: Seq<(Seq<char>, Seq<u8>)>) -> Seq<char>
    decreases j,
{
    match j {
        Json::Str(s) => outside::json_quoted(scroll::named_hex(s@, roster)),
        Json::List(v) => "["@ + resolved_items(v@, roster) + "]"@,
        Json::Object(m) => "{"@ + resolved_members(m@, roster) + "}"@,
        _ => json::printed(j),
    }
}

/// A value as JSON, every account in it named.
pub fn resolve_accounts(v: &Json, roster: &Roster) -> (r: String)
    ensures
        r@ == resolved(*v, roster@),
    decreases v,
{
    match v {
        Json::Str(s) => match keys::from_hex(s.as_str()) {
            Some(a) => outside::json_quote(roster.name_of(&a).as_str()),
            None => outside::json_quote(s.as_str()),
        },
        Json::List(items) => String::from_str("[").concat(
            resolve_items(items, roster).as_str(),
        ).concat("]"),
        Json::Object(m) => String::from_str("{").concat(
            resolve_members(m, roster).as_str(),
        ).concat("}"),
        _ => v.print(),
    }
}

fn resolve_items(v: &Vec<Json>, roster: &Roster) -> (out: String)
    ensures
        out@ == resolved_items(v@, roster@),
    decreases v@,
{
    let mut out = "".to_owned();
    let mut i: usize = 0;
    assert(v@.subrange(0, 0) =~= Seq::<Json>::empty());
    while i < v.len()
        invariant
            i <= v.len(),
            out@ == resolved_items(v@.subrange(0, i as int), roster@),
        decreases v.len() - i,
    {
        let ghost part = v@.subrange(0, i + 1);
        assert(part.subrange(0, part.len() - 1) =~= v@.subrange(0, i as int));
        assert(part[part.len() - 1] == v@[i as int]);
        let one = resolve_accounts(&v[i], roster);
        if i == 0 {
            out = one;
        } else {
            out.append(",");
            out.append(one.as_str());
        }
        i = i + 1;
    }
    assert(v@.subrange(0, i as int) =~= v@);
    out
}

fn resolve_members(m: &Vec<(String, Json)>, roster: &Roster) -> (out: String)
    ensures
        out@ == resolved_members(m@, roster@),
    decreases m@,
{
    let mut out = "".to_owned();
    let mut i: usize = 0;
    assert(m@.subrange(0, 0) =~= Seq::<(String, Json)>::empty());
    while i < m.len()
        invariant
            i <= m.len(),
            out@ == resolved_members(m@.subrange(0, i as int), roster@),
        decreases m.len() - i,
    {
        let ghost part = m@.subrange(0, i + 1);
        assert(part.subrange(0, part.len() - 1) =~= m@.subrange(0, i as int));
        assert(part[part.len() - 1] == m@[i as int]);
        assert(decreases_to!(m@ => m@[i as int]));
        let one = outside::json_quote(m[i].0.as_str()).concat(":").concat(
            resolve_accounts(&m[i].1, roster).as_str(),
        );
        if i == 0 {
            out = one;
        } else {
            out.append(",");
            out.append(one.as_str());
        }
        i = i + 1;
    }
    assert(m@.subrange(0, i as int) =~= m@);
    out
}

pub open spec fn off_record_mark(eff: Json) -> Seq<char> {
    if json::flag_at(eff, "off_record"@) {
        " (off the record)"@
    } else {
        ""@
    }
}

/// The tags that are texts, each after a ` #`.
pub open spec fn tag_marks(tags: Seq<Json>) -> Seq<char>
    decreases tags.len(),
{
    if tags.len() == 0 {
        ""@
    } else {
        match json::as_text(tags.last()) {
            Some(t) => tag_marks(tags.drop_last()) + " #"@ + t,
            None => tag_marks(tags.drop_last()),
        }
    }
}

pub open spec fn parent_mark(eff: Json) -> Seq<char> {
    match json::num_at(eff, "parent"@) {
        Some(p) => " ↩#"@ + text::dec(p as nat),
        None => ""@,
    }
}

/// One effect as a sentence, without colour.
pub open spec fn sentence(eff: Json, roster: Seq<(Seq<char>, Seq<u8>)>) -> Seq<char> {
    let kind = json::words_at(eff, "t"@);
    let task = scroll::text_or(eff, "task"@, "?"@);
    let who = scroll::name_in(eff, "who"@, roster);
    let to = scroll::name_in(eff, "to"@, roster);
    let from = scroll::name_in(eff, "from"@, roster);
    if kind == "said"@ {
        from + ": "@ + json::words_at(eff, "body"@) + off_record_mark(eff)
    } else if kind == "message"@ {
        from + ": "@ + json::words_at(eff, "body"@) + off_record_mark(eff) + parent_mark(eff)
            + tag_marks(json::items_at(eff, "tags"@))
    } else if kind == "reacted"@ {
        who + " reacted "@ + json::words_at(eff, "emoji"@) + " on #"@ + scroll::raw_at(
            eff,
            "target"@,
        )
    } else if kind == "voted"@ {
        who + " voted "@ + (if json::flag_at(eff, "up"@) {
            "up"@
        } else {
            "down"@
        }) + " on §"@ + scroll::text_or(eff, "artifact"@, "?"@)
    } else if kind == "opened"@ {
        who + " opened "@ + task + ": "@ + json::words_at(eff, "text"@)
    } else if kind == "planned"@ {
        who + " planned "@ + task + " into "@ + scroll::raw_at(eff, "count"@) + " subtask(s)"@
    } else if kind == "assigned"@ {
        task + " assigned to "@ + to + ": "@ + json::words_at(eff, "what"@)
    } else if kind == "directed"@ {
        to + " directed on "@ + task + ": "@ + scroll::text_or(eff, "directive"@, "?"@)
    } else if kind == "nudge"@ {
        to + " nudged on "@ + task + " ("@ + scroll::raw_at(eff, "remaining"@) + " left"@
            + (if json::flag_at(eff, "last"@) {
            ", last"@
        } else {
            ""@
        }) + ")"@
    } else if kind == "record"@ {
        let t = json::words_at(eff, "text"@);
        who + " "@ + scroll::text_or(eff, "act"@, "?"@) + " on "@ + task + (if t.len() == 0 {
            ""@
        } else {
            ": "@ + t
        })
    } else if kind == "requeued"@ {
        task + " requeued from "@ + from + ": "@ + scroll::text_or(eff, "why"@, "?"@)
    } else if kind == "budget_spent"@ {
        scroll::name_in(eff, "holder"@, roster) + " spent its nudge budget on "@ + task
    } else if kind == "closed"@ {
        task + " closed by "@ + scroll::name_in(eff, "author"@, roster) + ": "@ + json::words_at(
            eff,
            "title"@,
        )
    } else if kind == "failed"@ {
        task + " failed"@
    } else if kind == "rehomed"@ {
        task + " rehomed from "@ + from + " to "@ + to
    } else if kind == "standalone_artifact"@ {
        scroll::name_in(eff, "author"@, roster) + " published artifact "@ + scroll::raw_at(
            eff,
            "id"@,
        ) + ": "@ + json::words_at(eff, "title"@)
    } else if kind == "stats_reported"@ {
        who + " ∑ "@ + text::joined(scroll::stats_parts(eff), " · "@)
    } else {
        resolved(eff, roster)
    }
}

fn tags_of(eff: &Json) -> (r: String)
    ensures
        r@ == tag_marks(json::items_at(*eff, "tags"@)),
{
    let mut r = "".to_owned();
    if let Some(v) = eff.items("tags") {
        let mut i: usize = 0;
        assert(v@.take(0) =~= Seq::<Json>::empty());
        while i < v.len()
            invariant
                i <= v.len(),
                r@ == tag_marks(v@.take(i as int)),
            decreases v.len() - i,
        {
            assert(v@.take(i + 1).drop_last() =~= v@.take(i as int));
            if let Some(t) = v[i].as_str() {
                r.append(" #");
                r.append(t);
            }
            i = i + 1;
        }
        assert(v@.take(i as int) =~= v@);
    }
    r
}

/// One effect as a sentence, without colour: what a log prints where its
/// reader is not a terminal.
#[verifier::rlimit(40)]
pub fn render_effect(eff: &Json, roster: &Roster) -> (r: String)
    ensures
        r@ == sentence(*eff, roster@),
{
    let kind_text = eff.words("t");
    let kind = kind_text.as_str();
    let task = scroll::word_or(eff, "task", "?");
    let who = scroll::name_of(eff, "who", roster);
    let to = scroll::name_of(eff, "to", roster);
    let from = scroll::name_of(eff, "from", roster);
    let otr = if eff.flag("off_record") {
        " (off the record)"
    } else {
        ""
    };
    if text::same(kind, "said") {
        return from.concat(": ").concat(eff.words("body").as_str()).concat(otr);
    }
    if text::same(kind, "message") {
        let parent = match eff.num("parent") {
            Some(p) => String::from_str(" ↩#").concat(text::number(p).as_str()),
            None => "".to_owned(),
        };
        return from.concat(": ").concat(eff.words("body").as_str()).concat(otr).concat(
            parent.as_str(),
        ).concat(tags_of(eff).as_str());
    }
    if text::same(kind, "reacted") {
        return who.concat(" reacted ").concat(eff.words("emoji").as_str()).concat(
            " on #",
        ).concat(scroll::raw_of(eff, "target").as_str());
    }
    if text::same(kind, "voted") {
        let way = if eff.flag("up") {
            "up"
        } else {
            "down"
        };
        return who.concat(" voted ").concat(way).concat(" on §").concat(
            scroll::word_or(eff, "artifact", "?").as_str(),
        );
    }
    if text::same(kind, "opened") {
        return who.concat(" opened ").concat(task.as_str()).concat(": ").concat(
            eff.words("text").as_str(),
        );
    }
    if text::same(kind, "planned") {
        return who.concat(" planned ").concat(task.as_str()).concat(" into ").concat(
            scroll::raw_of(eff, "count").as_str(),
        ).concat(" subtask(s)");
    }
    if text::same(kind, "assigned") {
        return task.concat(" assigned to ").concat(to.as_str()).concat(": ").concat(
            eff.words("what").as_str(),
        );
    }
    if text::same(kind, "directed") {
        return to.concat(" directed on ").concat(task.as_str()).concat(": ").concat(
            scroll::word_or(eff, "directive", "?").as_str(),
        );
    }
    if text::same(kind, "nudge") {
        let last = if eff.flag("last") {
            ", last"
        } else {
            ""
        };
        return to.concat(" nudged on ").concat(task.as_str()).concat(" (").concat(
            scroll::raw_of(eff, "remaining").as_str(),
        ).concat(" left").concat(last).concat(")");
    }
    if text::same(kind, "record") {
        let t = eff.words("text");
        let suffix = if t.as_str().is_empty() {
            "".to_owned()
        } else {
            String::from_str(": ").concat(t.as_str())
        };
        return who.concat(" ").concat(scroll::word_or(eff, "act", "?").as_str()).concat(
            " on ",
        ).concat(task.as_str()).concat(suffix.as_str());
    }
    if text::same(kind, "requeued") {
        return task.concat(" requeued from ").concat(from.as_str()).concat(": ").concat(
            scroll::word_or(eff, "why", "?").as_str(),
        );
    }
    if text::same(kind, "budget_spent") {
        return scroll::name_of(eff, "holder", roster).concat(" spent its nudge budget on ").concat(
            task.as_str(),
        );
    }
    if text::same(kind, "closed") {
        return task.concat(" closed by ").concat(
            scroll::name_of(eff, "author", roster).as_str(),
        ).concat(": ").concat(eff.words("title").as_str());
    }
    if text::same(kind, "failed") {
        return task.concat(" failed");
    }
    if text::same(kind, "rehomed") {
        return task.concat(" rehomed from ").concat(from.as_str()).concat(" to ").concat(
            to.as_str(),
        );
    }
    if text::same(kind, "standalone_artifact") {
        return scroll::name_of(eff, "author", roster).concat(" published artifact ").concat(
            scroll::raw_of(eff, "id").as_str(),
        ).concat(": ").concat(eff.words("title").as_str());
    }
    if text::same(kind, "stats_reported") {
        return who.concat(" ∑ ").concat(scroll::stats_phrase(eff).as_str());
    }
    resolve_accounts(eff, roster)
}

// ---------------------------------------------------------------------
// The log
// ---------------------------------------------------------------------

pub open spec fn event_text(e: Json, roster: Seq<(Seq<char>, Seq<u8>)>) -> Seq<char> {
    let at = match json::num_at(e, "at"@) {
        Some(t) => figures::clock_text(t) + "  "@,
        None => ""@,
    };
    "  "@ + at + "block "@ + scroll::raw_at(e, "block"@) + "  "@ + sentence(
        agent::value_at(e, "effect"@),
        roster,
    )
}

/// One line per event, easy to search.
pub fn event_line(e: &Json, roster: &Roster) -> (r: String)
    ensures
        r@ == event_text(*e, roster@),
{
    let at = match e.num("at") {
        Some(t) => figures::clock(t).concat("  "),
        None => "".to_owned(),
    };
    let body = match e.get("effect") {
        Some(eff) => render_effect(eff, roster),
        None => render_effect(&Json::Null, roster),
    };
    String::from_str("  ").concat(at.as_str()).concat("block ").concat(
        scroll::raw_of(e, "block").as_str(),
    ).concat("  ").concat(body.as_str())
}

/// An event about a task or one of its parts.
pub open spec fn concerns(e: Json, task: Seq<char>) -> bool {
    let t = text::without_leading(task, 't');
    let et = text::without_leading(
        json::words_at(agent::value_at(e, "effect"@), "task"@),
        't',
    );
    et == t || text::starts(et, t + "."@)
}

/// Whether an event is about a task or one of its parts.
pub fn about_task(e: &Json, task: &str) -> (r: bool)
    ensures
        r == concerns(*e, task@),
{
    let t = text::trim_leading(task, 't');
    let named = match e.get("effect") {
        Some(eff) => eff.words("task"),
        None => {
            proof {
                reveal_strlit("");
            }
            "".to_owned()
        },
    };
    let et = text::trim_leading(named.as_str(), 't');
    text::same(et.as_str(), t.as_str()) || text::starts_with(
        et.as_str(),
        t.concat(".").as_str(),
    )
}

/// When an event happened: when its block was sealed, or now where it is live
/// and its block is still open.
pub fn event_time(e: &Json, replaying: bool, now: u64) -> (r: Option<u64>)
    ensures
        r == (match json::num_at(*e, "at"@) {
            Some(t) => Some(t),
            None => if replaying {
                None
            } else {
                Some(now)
            },
        }),
{
    match e.num("at") {
        Some(t) => Some(t),
        None => if replaying {
            None
        } else {
            Some(now)
        },
    }
}

/// A line of our own that was echoed when it was sent.
pub open spec fn is_own(eff: Json, roster: Seq<(Seq<char>, Seq<u8>)>, me: Seq<char>) -> bool {
    json::text_at(eff, "t"@) == Some("said"@) && scroll::name_in(eff, "from"@, roster) == me
}

/// One live event: of a line of our own that was echoed already only its seal
/// is news, anything else is shown whole. `sealing` counts the lines that wait
/// for their seal.
pub fn tail_event(
    k: &Skin,
    time: &str,
    block: u64,
    eff: &Json,
    roster: &Roster,
    me: &str,
    art: &Vec<String>,
    sealing: &mut usize,
) -> (r: Shown)
    ensures
        r@ == (if is_own(*eff, roster@, me@) && *old(sealing) > 0 {
            scroll::ShownView::Text(
                scroll::sealed_note(*k, time@, block, json::flag_at(*eff, "off_record"@)),
            )
        } else {
            scroll::rendered(*k, time@, block, *eff, roster@, me@, text::texts(art@))
        }),
        *final(sealing) == (if is_own(*eff, roster@, me@) && *old(sealing) > 0 {
            (*old(sealing) - 1) as usize
        } else {
            *old(sealing)
        }),
{
    let said = match eff.text("t") {
        Some(t) => text::same(t.as_str(), "said"),
        None => false,
    };
    let own = said && text::same(scroll::name_of(eff, "from", roster).as_str(), me);
    if own && *sealing > 0 {
        *sealing = *sealing - 1;
        return Shown::Text(scroll::sealed_line(k, time, block, eff.flag("off_record")));
    }
    scroll::render(k, time, block, eff, roster, me, art)
}

// ---------------------------------------------------------------------
// Submitting
// ---------------------------------------------------------------------

/// What came of posting a write.
#[derive(Debug)]
pub enum Posted {
    Unreachable(String),
    /// The node's answer, and whether it took the write.
    Answer { ok: bool, body: Json },
}

/// What follows a post.
#[derive(Debug)]
pub enum Next {
    /// It was taken, for now: what the node says of it, and the name under
    /// which its seal can be watched.
    Sent { note: Option<String>, hash: Option<String> },
    Failed(String),
    Again { wait_ms: u64, note: String },
}

pub enum NextView {
    Sent { note: Option<Seq<char>>, hash: Option<Seq<char>> },
    Failed(Seq<char>),
    Again { wait_ms: u64, note: Seq<char> },
}

impl View for Next {
    type V = NextView;

    open spec fn view(&self) -> NextView {
        match *self {
            Next::Sent { note, hash } => NextView::Sent {
                note: text::text_view(note),
                hash: text::text_view(hash),
            },
            Next::Failed(s) => NextView::Failed(s@),
            Next::Again { wait_ms, note } => NextView::Again { wait_ms, note: note@ },
        }
    }
}

/// A housekeeping line.
pub open spec fn quiet(s: Seq<char>) -> Seq<char> {
    "  "@ + common::DIM@ + s + common::OFF@
}

pub fn quiet_line(s: &str) -> (r: String)
    ensures
        r@ == quiet(s@),
{
    String::from_str("  ").concat(common::DIM).concat(s).concat(common::OFF)
}

/// A failure that may pass.
pub open spec fn retried(attempt: u32, last: Seq<char>) -> NextView {
    if attempt + 1 < agent::ATTEMPTS {
        NextView::Again {
            wait_ms: agent::backoff(attempt),
            note: quiet(
                "retrying submit (attempt "@ + text::dec((attempt + 2) as nat) + "/4) — "@ + last,
            ),
        }
    } else {
        NextView::Failed("gave up after 4 attempts — "@ + last)
    }
}

/// A refusal that may not be repeated: the number was out of step, or there was
/// no route to the primary.
pub open spec fn may_pass(msg: Seq<char>) -> bool {
    text::has(msg, "Stale"@) || text::has(msg, "Future"@) || text::has(msg, "no route to it"@)
}

pub open spec fn after_post(attempt: u32, posted: Posted, me: Seq<u8>) -> NextView {
    match posted {
        Posted::Unreachable(e) => retried(attempt, "node unreachable: "@ + e@),
        Posted::Answer { ok, body } => if ok {
            NextView::Sent {
                note: match json::text_at(body, "note"@) {
                    Some(n) => Some(quiet(n)),
                    None => None,
                },
                hash: json::text_at(body, "tx_hash"@),
            }
        } else {
            let msg = agent::refusal_text(body);
            if text::has(msg, "Payment"@) {
                NextView::Failed(
                    msg + " — "@ + keys::shortened(me)
                        + " isn't a member of this chain (no `providers`; see HANDOFF.md's \"catnip\"). Add it to MIOT_ROSTER on every node (a new genesis), or sign --as a member."@,
                )
            } else if may_pass(msg) {
                retried(attempt, "refused: "@ + msg)
            } else {
                NextView::Failed(msg)
            }
        },
    }
}

fn retry(attempt: u32, last: &str) -> (r: Next)
    requires
        attempt < agent::ATTEMPTS,
    ensures
        r@ == retried(attempt, last@),
{
    if attempt + 1 < agent::ATTEMPTS {
        let wait_ms: u64 = if attempt == 0 {
            1000
        } else if attempt == 1 {
            2000
        } else {
            4000
        };
        let words = String::from_str("retrying submit (attempt ").concat(
            text::number((attempt + 2) as u64).as_str(),
        ).concat("/4) — ").concat(last);
        Next::Again { wait_ms, note: quiet_line(words.as_str()) }
    } else {
        Next::Failed(String::from_str("gave up after 4 attempts — ").concat(last))
    }
}

/// What follows the `attempt`th post of a write, counted from 0. A refusal that
/// may pass is tried again, any other is final.
pub fn submit_step(attempt: u32, posted: &Posted, me: &Account) -> (r: Next)
    requires
        attempt < agent::ATTEMPTS,
    ensures
        r@ == after_post(attempt, *posted, me@),
{
    match posted {
        Posted::Unreachable(e) => {
            let last = String::from_str("node unreachable: ").concat(e.as_str());
            retry(attempt, last.as_str())
        },
        Posted::Answer { ok, body } => {
            if *ok {
                let note = match body.text("note") {
                    Some(n) => Some(quiet_line(n.as_str())),
                    None => None,
                };
                return Next::Sent { note, hash: body.text("tx_hash") };
            }
            let msg = match body.get("error") {
                Some(v) => v.print(),
                None => body.print(),
            };
            if text::contains(msg.as_str(), "Payment") {
                return Next::Failed(
                    msg.concat(" — ").concat(keys::short(me).as_str()).concat(
                        " isn't a member of this chain (no `providers`; see HANDOFF.md's \"catnip\"). Add it to MIOT_ROSTER on every node (a new genesis), or sign --as a member.",
                    ),
                );
            }
            if text::contains(msg.as_str(), "Stale") || text::contains(msg.as_str(), "Future")
                || text::contains(msg.as_str(), "no route to it") {
                let last = String::from_str("refused: ").concat(msg.as_str());
                return retry(attempt, last.as_str());
            }
            Next::Failed(msg)
        },
    }
}

/// What a look at a write's fate tells, once there is something to tell.
pub open spec fn fate(hash: Seq<char>, v: Json) -> Option<Seq<char>> {
    if json::text_at(v, "status"@) == Some("sealed"@) {
        Some(
            quiet(
                hash + " sealed at block "@ + text::dec(scroll::num_or_0(v, "height"@) as nat),
            ),
        )
    } else if json::text_at(v, "status"@) == Some("unknown"@) {
        Some(
            quiet(
                hash + ": lost track of it (leadership likely moved before it sealed)"@,
            ),
        )
    } else {
        None
    }
}

/// What a look at a write's fate tells; `None` while it is still pending or not
/// sealed yet.
pub fn seal_news(hash: &str, v: &Json) -> (r: Option<String>)
    ensures
        text::text_view(r) == fate(hash@, *v),
{
    match v.text("status") {
        Some(s) => {
            if text::same(s.as_str(), "sealed") {
                let words = hash.to_owned().concat(" sealed at block ").concat(
                    text::number(scroll::number_or_0(v, "height")).as_str(),
                );
                return Some(quiet_line(words.as_str()));
            }
            if text::same(s.as_str(), "unknown") {
                let words = hash.to_owned().concat(
                    ": lost track of it (leadership likely moved before it sealed)",
                );
                return Some(quiet_line(words.as_str()));
            }
            None
        },
        None => None,
    }
}

/// A write whose seal was waited for long enough.
pub fn seal_overdue(hash: &str) -> (r: String)
    ensures
        r@ == quiet(hash@ + ": still not sealed after 30s — it may land later"@),
{
    let words = hash.to_owned().concat(": still not sealed after 30s — it may land later");
    quiet_line(words.as_str())
}

// ---------------------------------------------------------------------
// A session's first rows
// ---------------------------------------------------------------------

pub open spec fn sealed_names(k: Skin, names: Seq<Seq<char>>, me: Seq<char>) -> Seq<Seq<char>> {
    let rest = agent::others(names, me);
    Seq::new(rest.len(), |i: int| ui::sealed_name(k, rest[i]))
}

/// Where a session is connected, who it speaks as, and who else there is.
pub open spec fn session_rows(
    k: Skin,
    node: Seq<char>,
    role: Seq<char>,
    latency: u64,
    me: Seq<u8>,
    roster: Seq<(Seq<char>, Seq<u8>)>,
) -> Seq<Seq<char>> {
    let name = common::name_for(roster, me);
    let does = if role == "leader"@ {
        "primary, seals blocks itself"@
    } else {
        "forwards writes to the primary"@
    };
    seq![
        composer::labelled(
            k,
            "节点"@,
            "node"@,
            ui::plained(k, node) + "  "@ + ui::dimmed(
                k,
                role + " · "@ + text::dec(latency as nat) + "ms · "@ + does,
            ),
        ),
        composer::labelled(
            k,
            "身份"@,
            "you"@,
            ui::sealed_name(k, name) + "  "@ + ui::dimmed(k, keys::shortened(me)),
        ),
        composer::labelled(
            k,
            "猫群"@,
            "litter"@,
            text::joined(sealed_names(k, common::names_in(roster), name), "   "@),
        ),
    ]
}

/// Where a session is connected, who it speaks as, and who else there is.
pub fn session_header(
    k: &Skin,
    node: &str,
    role: &str,
    latency: u64,
    me: &Account,
    roster: &Roster,
) -> (out: Vec<String>)
    ensures
        text::texts(out@) == session_rows(*k, node@, role@, latency, me@, roster@),
{
    let name = roster.name_of(me);
    let does = if text::same(role, "leader") {
        "primary, seals blocks itself"
    } else {
        "forwards writes to the primary"
    };
    let how = role.to_owned().concat(" · ").concat(text::number(latency).as_str()).concat(
        "ms · ",
    ).concat(does);
    let place = ui::plain(k, node).concat("  ").concat(ui::dim(k, how.as_str()).as_str());
    let who = ui::sealed(k, name.as_str()).concat("  ").concat(
        ui::dim(k, keys::short(me).as_str()).as_str(),
    );
    let names = agent::others_of(roster, name.as_str());
    let ghost want = sealed_names(*k, common::names_in(roster@), name@);
    let mut rest = text::none();
    let mut i: usize = 0;
    assert(names@.len() == text::texts(names@).len());
    assert(want.take(0) =~= Seq::<Seq<char>>::empty());
    while i < names.len()
        invariant
            i <= names.len(),
            want.len() == names@.len(),
            text::texts(names@) == agent::others(common::names_in(roster@), name@),
            want == sealed_names(*k, common::names_in(roster@), name@),
            text::texts(rest@) == want.take(i as int),
        decreases names.len() - i,
    {
        let one = ui::sealed(k, names[i].as_str());
        assert(text::texts(names@)[i as int] == names@[i as int]@);
        assert(want.take(i + 1) =~= want.take(i as int).push(one@));
        text::put(&mut rest, one.as_str());
        i = i + 1;
    }
    assert(want.take(i as int) =~= want);
    let mut out = text::none();
    text::put(&mut out, composer::kv(k, "节点", "node", place.as_str()).as_str());
    text::put(&mut out, composer::kv(k, "身份", "you", who.as_str()).as_str());
    text::put(
        &mut out,
        composer::kv(k, "猫群", "litter", text::join(&rest, "   ").as_str()).as_str(),
    );
    assert(text::texts(out@) =~= session_rows(*k, node@, role@, latency, me@, roster@));
    out
}

/// What a signed write rests on.
#[derive(Clone, Copy, Debug)]
pub struct Meta {
    pub genesis_hash: [u8; 32],
    pub spec_version: u32,
    pub tx_version: u32,
}

/// What is wrong with a node's account of itself.
#[derive(Debug)]
pub enum MetaFault {
    /// A member is missing.
    Missing(&'static str),
    /// The genesis hash is no hexadecimal.
    NotHex(String),
    /// The genesis hash is not 32 bytes.
    WrongSize(usize),
}

pub enum FaultView {
    Missing(Seq<char>),
    NotHex(Seq<char>),
    WrongSize(nat),
}

/// What a node's account of itself gives to sign against, or the first thing
/// that is wrong with it; a version is cut to 32 bits.
pub open spec fn meta_in(v: Json) -> Result<(Seq<u8>, u32, u32), FaultView> {
    match json::text_at(v, "genesis_hash"@) {
        None => Err(FaultView::Missing("no genesis_hash"@)),
        Some(g) => match keys::unhexed(g) {
            None => Err(FaultView::NotHex(g)),
            Some(b) => if b.len() != 32 {
                Err(FaultView::WrongSize(b.len()))
            } else {
                match json::num_at(v, "spec_version"@) {
                    None => Err(FaultView::Missing("no spec_version"@)),
                    Some(spec_version) => match json::num_at(v, "tx_version"@) {
                        None => Err(FaultView::Missing("no tx_version"@)),
                        Some(tx) => Ok(
                            (
                                b,
                                (spec_version % 0x1_0000_0000) as u32,
                                (tx % 0x1_0000_0000) as u32,
                            ),
                        ),
                    },
                }
            },
        },
    }
}

pub open spec fn meta_view(r: Result<Meta, MetaFault>) -> Result<(Seq<u8>, u32, u32), FaultView> {
    match r {
        Ok(m) => Ok((m.genesis_hash@, m.spec_version, m.tx_version)),
        Err(MetaFault::Missing(s)) => Err(FaultView::Missing(s@)),
        Err(MetaFault::NotHex(s)) => Err(FaultView::NotHex(s@)),
        Err(MetaFault::WrongSize(n)) => Err(FaultView::WrongSize(n as nat)),
    }
}

/// What a node's account of itself gives to sign against.
pub fn read_meta(v: &Json) -> (r: Result<Meta, MetaFault>)
    ensures
        meta_view(r) == meta_in(*v),
{
    let genesis = match v.text("genesis_hash") {
        None => {
            return Err(MetaFault::Missing("no genesis_hash"));
        },
        Some(g) => g,
    };
    let bytes = match outside::hex_decode(genesis.as_str()) {
        None => {
            return Err(MetaFault::NotHex(genesis));
        },
        Some(b) => b,
    };
    if bytes.len() != 32 {
        return Err(MetaFault::WrongSize(bytes.len()));
    }
    let spec_version: u64 = match v.num("spec_version") {
        None => {
            return Err(MetaFault::Missing("no spec_version"));
        },
        Some(n) => n,
    };
    match v.num("tx_version") {
        None => Err(MetaFault::Missing("no tx_version")),
        Some(n) => Ok(
            Meta {
                genesis_hash: keys::account_from(&bytes),
                spec_version: (spec_version % 0x1_0000_0000) as u32,
                tx_version: (n % 0x1_0000_0000) as u32,
            },
        ),
    }
}

/// What a node serves to sign against is what a client signs against.
pub proof fn a_served_meta_reads_back(
    v: Json,
    genesis: Seq<u8>,
    spec_version: u32,
    tx_version: u32,
    version: Seq<char>,
)
    requires
        genesis.len() == 32,
        json::tree(v) == Tree::Object(
            answers::meta_members(genesis, spec_version as u64, tx_version as u64, version),
        ),
    ensures
        meta_in(v) == Ok::<(Seq<u8>, u32, u32), FaultView>((genesis, spec_version, tx_version)),
{
    reveal_strlit("genesis_hash");
    reveal_strlit("spec_version");
    reveal_strlit("tx_version");
    reveal_with_fuel(json::first_under, 5);
    json::values_read_as_built(v, "genesis_hash"@);
    json::values_read_as_built(v, "spec_version"@);
    json::values_read_as_built(v, "tx_version"@);
    assert("genesis_hash"@[0] == 'g' && "spec_version"@[0] == 's' && "tx_version"@[0] == 't');
    keys::hex_reads_back(genesis);
}

/// No node of those that were tried answered.
pub fn no_node(candidates: &Vec<String>) -> (r: String)
    ensures
        r@ == "no node answered (tried "@ + text::joined(text::texts(candidates@), ", "@) + ")"@,
{
    String::from_str("no node answered (tried ").concat(
        text::join(candidates, ", ").as_str(),
    ).concat(")")
}

// ---------------------------------------------------------------------
// What a line of the log tells
// ---------------------------------------------------------------------

/// What was said is told with who said it, and whole.
pub proof fn words_are_told(
    eff: Json,
    roster: Seq<(Seq<char>, Seq<u8>)>,
)
    requires
        json::words_at(eff, "t"@) == "said"@,
    ensures
        text::has(sentence(eff, roster), scroll::name_in(eff, "from"@, roster)),
        text::has(sentence(eff, roster), json::words_at(eff, "body"@)),
{
    reveal_strlit("said");
    assert("said"@.len() == 4);
    let a = scroll::name_in(eff, "from"@, roster);
    let b = ": "@;
    let c = json::words_at(eff, "body"@);
    let d = off_record_mark(eff);
    let whole = a + b + c + d;
    assert(sentence(eff, roster) == whole);
    assert(text::has(whole, a)) by {
        text::lemma_has_self(a);
        text::lemma_has_left(a, b, a);
        text::lemma_has_left(a + b, c, a);
        text::lemma_has_left(a + b + c, d, a);
    }
    assert(text::has(whole, c)) by {
        text::lemma_has_self(c);
        text::lemma_has_right(a + b, c, c);
        text::lemma_has_left(a + b + c, d, c);
    }
}

/// A message is told with who wrote it, whole, with what it answers and its
/// tags.
pub proof fn a_message_is_told(
    eff: Json,
    roster: Seq<(Seq<char>, Seq<u8>)>,
)
    requires
        json::words_at(eff, "t"@) == "message"@,
    ensures
        text::has(sentence(eff, roster), scroll::name_in(eff, "from"@, roster)),
        text::has(sentence(eff, roster), json::words_at(eff, "body"@)),
        text::has(sentence(eff, roster), parent_mark(eff)),
        text::has(sentence(eff, roster), tag_marks(json::items_at(eff, "tags"@))),
{
    reveal_strlit("said");
    reveal_strlit("message");
    assert("said"@.len() == 4);
    assert("message"@.len() == 7);
    let a = scroll::name_in(eff, "from"@, roster);
    let b = ": "@;
    let c = json::words_at(eff, "body"@);
    let d = off_record_mark(eff);
    let e = parent_mark(eff);
    let f = tag_marks(json::items_at(eff, "tags"@));
    let whole = a + b + c + d + e + f;
    assert(sentence(eff, roster) == whole);
    assert(text::has(whole, a)) by {
        text::lemma_has_self(a);
        text::lemma_has_left(a, b, a);
        text::lemma_has_left(a + b, c, a);
        text::lemma_has_left(a + b + c, d, a);
        text::lemma_has_left(a + b + c + d, e, a);
        text::lemma_has_left(a + b + c + d + e, f, a);
    }
    assert(text::has(whole, c)) by {
        text::lemma_has_self(c);
        text::lemma_has_right(a + b, c, c);
        text::lemma_has_left(a + b + c, d, c);
        text::lemma_has_left(a + b + c + d, e, c);
        text::lemma_has_left(a + b + c + d + e, f, c);
    }
    assert(text::has(whole, e)) by {
        text::lemma_has_self(e);
        text::lemma_has_right(a + b + c + d, e, e);
        text::lemma_has_left(a + b + c + d + e, f, e);
    }
    assert(text::has(whole, f)) by {
        text::lemma_has_self(f);
        text::lemma_has_right(a + b + c + d + e, f, f);
    }
}

/// A reaction is told with who reacted, how, and to what.
pub proof fn a_reaction_is_told(
    eff: Json,
    roster: Seq<(Seq<char>, Seq<u8>)>,
)
    requires
        json::words_at(eff, "t"@) == "reacted"@,
    ensures
        text::has(sentence(eff, roster), scroll::name_in(eff, "who"@, roster)),
        text::has(sentence(eff, roster), json::words_at(eff, "emoji"@)),
        text::has(sentence(eff, roster), scroll::raw_at(eff, "target"@)),
{
    reveal_strlit("said");
    reveal_strlit("message");
    reveal_strlit("reacted");
    assert("said"@.len() == 4);
    assert("message"@.len() == 7);
    assert("reacted"@.len() == 7);
    assert("message"@[0] == 'm');
    assert("reacted"@[0] == 'r');
    let a = scroll::name_in(eff, "who"@, roster);
    let b = " reacted "@;
    let c = json::words_at(eff, "emoji"@);
    let d = " on #"@;
    let e = scroll::raw_at(eff, "target"@);
    let whole = a + b + c + d + e;
    assert(sentence(eff, roster) == whole);
    assert(text::has(whole, a)) by {
        text::lemma_has_self(a);
        text::lemma_has_left(a, b, a);
        text::lemma_has_left(a + b, c, a);
        text::lemma_has_left(a + b + c, d, a);
        text::lemma_has_left(a + b + c + d, e, a);
    }
    assert(text::has(whole, c)) by {
        text::lemma_has_self(c);
        text::lemma_has_right(a + b, c, c);
        text::lemma_has_left(a + b + c, d, c);
        text::lemma_has_left(a + b + c + d, e, c);
    }
    assert(text::has(whole, e)) by {
        text::lemma_has_self(e);
        text::lemma_has_right(a + b + c + d, e, e);
    }
}

/// A vote is told with who cast it, and on what.
pub proof fn a_vote_is_told(
    eff: Json,
    roster: Seq<(Seq<char>, Seq<u8>)>,
)
    requires
        json::words_at(eff, "t"@) == "voted"@,
    ensures
        text::has(sentence(eff, roster), scroll::name_in(eff, "who"@, roster)),
        text::has(sentence(eff, roster), scroll::text_or(eff, "artifact"@, "?"@)),
{
    reveal_strlit("said");
    reveal_strlit("message");
    reveal_strlit("reacted");
    reveal_strlit("voted");
    assert("said"@.len() == 4);
    assert("message"@.len() == 7);
    assert("reacted"@.len() == 7);
    assert("voted"@.len() == 5);
    assert("message"@[0] == 'm');
    assert("reacted"@[0] == 'r');
    let a = scroll::name_in(eff, "who"@, roster);
    let b = " voted "@;
    let c = (if json::flag_at(eff, "up"@) {
        "up"@
    } else {
        "down"@
    });
    let d = " on §"@;
    let e = scroll::text_or(eff, "artifact"@, "?"@);
    let whole = a + b + c + d + e;
    assert(sentence(eff, roster) == whole);
    assert(text::has(whole, a)) by {
        text::lemma_has_self(a);
        text::lemma_has_left(a, b, a);
        text::lemma_has_left(a + b, c, a);
        text::lemma_has_left(a + b + c, d, a);
        text::lemma_has_left(a + b + c + d, e, a);
    }
    assert(text::has(whole, e)) by {
        text::lemma_has_self(e);
        text::lemma_has_right(a + b + c + d, e, e);
    }
}

/// A task that was opened is told with who opened it, its name and its
/// text.
pub proof fn an_opening_is_told(
    eff: Json,
    roster: Seq<(Seq<char>, Seq<u8>)>,
)
    requires
        json::words_at(eff, "t"@) == "opened"@,
    ensures
        text::has(sentence(eff, roster), scroll::name_in(eff, "who"@, roster)),
        text::has(sentence(eff, roster), scroll::text_or(eff, "task"@, "?"@)),
        text::has(sentence(eff, roster), json::words_at(eff, "text"@)),
{
    reveal_strlit("said");
    reveal_strlit("message");
    reveal_strlit("reacted");
    reveal_strlit("voted");
    reveal_strlit("opened");
    assert("said"@.len() == 4);
    assert("message"@.len() == 7);
    assert("reacted"@.len() == 7);
    assert("voted"@.len() == 5);
    assert("opened"@.len() == 6);
    assert("message"@[0] == 'm');
    assert("reacted"@[0] == 'r');
    let a = scroll::name_in(eff, "who"@, roster);
    let b = " opened "@;
    let c = scroll::text_or(eff, "task"@, "?"@);
    let d = ": "@;
    let e = json::words_at(eff, "text"@);
    let whole = a + b + c + d + e;
    assert(sentence(eff, roster) == whole);
    assert(text::has(whole, a)) by {
        text::lemma_has_self(a);
        text::lemma_has_left(a, b, a);
        text::lemma_has_left(a + b, c, a);
        text::lemma_has_left(a + b + c, d, a);
        text::lemma_has_left(a + b + c + d, e, a);
    }
    assert(text::has(whole, c)) by {
        text::lemma_has_self(c);
        text::lemma_has_right(a + b, c, c);
        text::lemma_has_left(a + b + c, d, c);
        text::lemma_has_left(a + b + c + d, e, c);
    }
    assert(text::has(whole, e)) by {
        text::lemma_has_self(e);
        text::lemma_has_right(a + b + c + d, e, e);
    }
}

/// A plan is told with whose it is, its task and how many parts it has.
pub proof fn a_plan_is_told(
    eff: Json,
    roster: Seq<(Seq<char>, Seq<u8>)>,
)
    requires
        json::words_at(eff, "t"@) == "planned"@,
    ensures
        text::has(sentence(eff, roster), scroll::name_in(eff, "who"@, roster)),
        text::has(sentence(eff, roster), scroll::text_or(eff, "task"@, "?"@)),
        text::has(sentence(eff, roster), scroll::raw_at(eff, "count"@)),
{
    reveal_strlit("said");
    reveal_strlit("message");
    reveal_strlit("reacted");
    reveal_strlit("voted");
    reveal_strlit("opened");
    reveal_strlit("planned");
    assert("said"@.len() == 4);
    assert("message"@.len() == 7);
    assert("reacted"@.len() == 7);
    assert("voted"@.len() == 5);
    assert("opened"@.len() == 6);
    assert("planned"@.len() == 7);
    assert("message"@[0] == 'm');
    assert("planned"@[0] == 'p');
    assert("reacted"@[0] == 'r');
    let a = scroll::name_in(eff, "who"@, roster);
    let b = " planned "@;
    let c = scroll::text_or(eff, "task"@, "?"@);
    let d = " into "@;
    let e = scroll::raw_at(eff, "count"@);
    let f = " subtask(s)"@;
    let whole = a + b + c + d + e + f;
    assert(sentence(eff, roster) == whole);
    assert(text::has(whole, a)) by {
        text::lemma_has_self(a);
        text::lemma_has_left(a, b, a);
        text::lemma_has_left(a + b, c, a);
        text::lemma_has_left(a + b + c, d, a);
        text::lemma_has_left(a + b + c + d, e, a);
        text::lemma_has_left(a + b + c + d + e, f, a);
    }
    assert(text::has(whole, c)) by {
        text::lemma_has_self(c);
        text::lemma_has_right(a + b, c, c);
        text::lemma_has_left(a + b + c, d, c);
        text::lemma_has_left(a + b + c + d, e, c);
        text::lemma_has_left(a + b + c + d + e, f, c);
    }
    assert(text::has(whole, e)) by {
        text::lemma_has_self(e);
        text::lemma_has_right(a + b + c + d, e, e);
        text::lemma_has_left(a + b + c + d + e, f, e);
    }
}

/// An assignment is told with its task, whom it goes to and what is asked.
pub proof fn an_assigned_task_is_told(
    eff: Json,
    roster: Seq<(Seq<char>, Seq<u8>)>,
)
    requires
        json::words_at(eff, "t"@) == "assigned"@,
    ensures
        text::has(sentence(eff, roster), scroll::text_or(eff, "task"@, "?"@)),
        text::has(sentence(eff, roster), scroll::name_in(eff, "to"@, roster)),
        text::has(sentence(eff, roster), json::words_at(eff, "what"@)),
{
    reveal_strlit("said");
    reveal_strlit("message");
    reveal_strlit("reacted");
    reveal_strlit("voted");
    reveal_strlit("opened");
    reveal_strlit("planned");
    reveal_strlit("assigned");
    assert("said"@.len() == 4);
    assert("message"@.len() == 7);
    assert("reacted"@.len() == 7);
    assert("voted"@.len() == 5);
    assert("opened"@.len() == 6);
    assert("planned"@.len() == 7);
    assert("assigned"@.len() == 8);
    assert("message"@[0] == 'm');
    assert("planned"@[0] == 'p');
    assert("reacted"@[0] == 'r');
    let a = scroll::text_or(eff, "task"@, "?"@);
    let b = " assigned to "@;
    let c = scroll::name_in(eff, "to"@, roster);
    let d = ": "@;
    let e = json::words_at(eff, "what"@);
    let whole = a + b + c + d + e;
    assert(sentence(eff, roster) == whole);
    assert(text::has(whole, a)) by {
        text::lemma_has_self(a);
        text::lemma_has_left(a, b, a);
        text::lemma_has_left(a + b, c, a);
        text::lemma_has_left(a + b + c, d, a);
        text::lemma_has_left(a + b + c + d, e, a);
    }
    assert(text::has(whole, c)) by {
        text::lemma_has_self(c);
        text::lemma_has_right(a + b, c, c);
        text::lemma_has_left(a + b + c, d, c);
        text::lemma_has_left(a + b + c + d, e, c);
    }
    assert(text::has(whole, e)) by {
        text::lemma_has_self(e);
        text::lemma_has_right(a + b + c + d, e, e);
    }
}

/// A directive is told with whom it goes to, its task and what it says.
pub proof fn a_directive_is_told(
    eff: Json,
    roster: Seq<(Seq<char>, Seq<u8>)>,
)
    requires
        json::words_at(eff, "t"@) == "directed"@,
    ensures
        text::has(sentence(eff, roster), scroll::name_in(eff, "to"@, roster)),
        text::has(sentence(eff, roster), scroll::text_or(eff, "task"@, "?"@)),
        text::has(sentence(eff, roster), scroll::text_or(eff, "directive"@, "?"@)),
{
    reveal_strlit("said");
    reveal_strlit("message");
    reveal_strlit("reacted");
    reveal_strlit("voted");
    reveal_strlit("opened");
    reveal_strlit("planned");
    reveal_strlit("assigned");
    reveal_strlit("directed");
    assert("said"@.len() == 4);
    assert("message"@.len() == 7);
    assert("reacted"@.len() == 7);
    assert("voted"@.len() == 5);
    assert("opened"@.len() == 6);
    assert("planned"@.len() == 7);
    assert("assigned"@.len() == 8);
    assert("directed"@.len() == 8);
    assert("assigned"@[0] == 'a');
    assert("directed"@[0] == 'd');
    assert("message"@[0] == 'm');
    assert("planned"@[0] == 'p');
    assert("reacted"@[0] == 'r');
    let a = scroll::name_in(eff, "to"@, roster);
    let b = " directed on "@;
    let c = scroll::text_or(eff, "task"@, "?"@);
    let d = ": "@;
    let e = scroll::text_or(eff, "directive"@, "?"@);
    let whole = a + b + c + d + e;
    assert(sentence(eff, roster) == whole);
    assert(text::has(whole, a)) by {
        text::lemma_has_self(a);
        text::lemma_has_left(a, b, a);
        text::lemma_has_left(a + b, c, a);
        text::lemma_has_left(a + b + c, d, a);
        text::lemma_has_left(a + b + c + d, e, a);
    }
    assert(text::has(whole, c)) by {
        text::lemma_has_self(c);
        text::lemma_has_right(a + b, c, c);
        text::lemma_has_left(a + b + c, d, c);
        text::lemma_has_left(a + b + c + d, e, c);
    }
    assert(text::has(whole, e)) by {
        text::lemma_has_self(e);
        text::lemma_has_right(a + b + c + d, e, e);
    }
}

/// A nudge is told with whom it goes to, its task and how many are left.
pub proof fn a_nudge_is_told(
    eff: Json,
    roster: Seq<(Seq<char>, Seq<u8>)>,
)
    requires
        json::words_at(eff, "t"@) == "nudge"@,
    ensures
        text::has(sentence(eff, roster), scroll::name_in(eff, "to"@, roster)),
        text::has(sentence(eff, roster), scroll::text_or(eff, "task"@, "?"@)),
        text::has(sentence(eff, roster), scroll::raw_at(eff, "remaining"@)),
{
    reveal_strlit("said");
    reveal_strlit("message");
    reveal_strlit("reacted");
    reveal_strlit("voted");
    reveal_strlit("opened");
    reveal_strlit("planned");
    reveal_strlit("assigned");
    reveal_strlit("directed");
    reveal_strlit("nudge");
    assert("said"@.len() == 4);
    assert("message"@.len() == 7);
    assert("reacted"@.len() == 7);
    assert("voted"@.len() == 5);
    assert("opened"@.len() == 6);
    assert("planned"@.len() == 7);
    assert("assigned"@.len() == 8);
    assert("directed"@.len() == 8);
    assert("nudge"@.len() == 5);
    assert("assigned"@[0] == 'a');
    assert("directed"@[0] == 'd');
    assert("message"@[0] == 'm');
    assert("nudge"@[0] == 'n');
    assert("planned"@[0] == 'p');
    assert("reacted"@[0] == 'r');
    assert("voted"@[0] == 'v');
    let a = scroll::name_in(eff, "to"@, roster);
    let b = " nudged on "@;
    let c = scroll::text_or(eff, "task"@, "?"@);
    let d = " ("@;
    let e = scroll::raw_at(eff, "remaining"@);
    let f = " left"@;
    let g = (if json::flag_at(eff, "last"@) {
        ", last"@
    } else {
        ""@
    });
    let h = ")"@;
    let whole = a + b + c + d + e + f + g + h;
    assert(sentence(eff, roster) == whole);
    assert(text::has(whole, a)) by {
        text::lemma_has_self(a);
        text::lemma_has_left(a, b, a);
        text::lemma_has_left(a + b, c, a);
        text::lemma_has_left(a + b + c, d, a);
        text::lemma_has_left(a + b + c + d, e, a);
        text::lemma_has_left(a + b + c + d + e, f, a);
        text::lemma_has_left(a + b + c + d + e + f, g, a);
        text::lemma_has_left(a + b + c + d + e + f + g, h, a);
    }
    assert(text::has(whole, c)) by {
        text::lemma_has_self(c);
        text::lemma_has_right(a + b, c, c);
        text::lemma_has_left(a + b + c, d, c);
        text::lemma_has_left(a + b + c + d, e, c);
        text::lemma_has_left(a + b + c + d + e, f, c);
        text::lemma_has_left(a + b + c + d + e + f, g, c);
        text::lemma_has_left(a + b + c + d + e + f + g, h, c);
    }
    assert(text::has(whole, e)) by {
        text::lemma_has_self(e);
        text::lemma_has_right(a + b + c + d, e, e);
        text::lemma_has_left(a + b + c + d + e, f, e);
        text::lemma_has_left(a + b + c + d + e + f, g, e);
        text::lemma_has_left(a + b + c + d + e + f + g, h, e);
    }
}

/// What was put on the record is told with who put it there, what was done
/// and of which task.
pub proof fn a_record_is_told(
    eff: Json,
    roster: Seq<(Seq<char>, Seq<u8>)>,
)
    requires
        json::words_at(eff, "t"@) == "record"@,
    ensures
        text::has(sentence(eff, roster), scroll::name_in(eff, "who"@, roster)),
        text::has(sentence(eff, roster), scroll::text_or(eff, "act"@, "?"@)),
        text::has(sentence(eff, roster), scroll::text_or(eff, "task"@, "?"@)),
{
    reveal_strlit("said");
    reveal_strlit("message");
    reveal_strlit("reacted");
    reveal_strlit("voted");
    reveal_strlit("opened");
    reveal_strlit("planned");
    reveal_strlit("assigned");
    reveal_strlit("directed");
    reveal_strlit("nudge");
    reveal_strlit("record");
    assert("said"@.len() == 4);
    assert("message"@.len() == 7);
    assert("reacted"@.len() == 7);
    assert("voted"@.len() == 5);
    assert("opened"@.len() == 6);
    assert("planned"@.len() == 7);
    assert("assigned"@.len() == 8);
    assert("directed"@.len() == 8);
    assert("nudge"@.len() == 5);
    assert("record"@.len() == 6);
    assert("assigned"@[0] == 'a');
    assert("directed"@[0] == 'd');
    assert("message"@[0] == 'm');
    assert("nudge"@[0] == 'n');
    assert("opened"@[0] == 'o');
    assert("planned"@[0] == 'p');
    assert("reacted"@[0] == 'r');
    assert("record"@[0] == 'r');
    assert("voted"@[0] == 'v');
    let a = scroll::name_in(eff, "who"@, roster);
    let b = " "@;
    let c = scroll::text_or(eff, "act"@, "?"@);
    let d = " on "@;
    let e = scroll::text_or(eff, "task"@, "?"@);
    let f = (if json::words_at(eff, "text"@).len() == 0 {
        ""@
    } else {
        ": "@ + json::words_at(eff, "text"@)
    });
    let whole = a + b + c + d + e + f;
    assert(sentence(eff, roster) == whole);
    assert(text::has(whole, a)) by {
        text::lemma_has_self(a);
        text::lemma_has_left(a, b, a);
        text::lemma_has_left(a + b, c, a);
        text::lemma_has_left(a + b + c, d, a);
        text::lemma_has_left(a + b + c + d, e, a);
        text::lemma_has_left(a + b + c + d + e, f, a);
    }
    assert(text::has(whole, c)) by {
        text::lemma_has_self(c);
        text::lemma_has_right(a + b, c, c);
        text::lemma_has_left(a + b + c, d, c);
        text::lemma_has_left(a + b + c + d, e, c);
        text::lemma_has_left(a + b + c + d + e, f, c);
    }
    assert(text::has(whole, e)) by {
        text::lemma_has_self(e);
        text::lemma_has_right(a + b + c + d, e, e);
        text::lemma_has_left(a + b + c + d + e, f, e);
    }
}

/// A task that was put back is told with whom it was taken from and why.
pub proof fn a_requeued_task_is_told(
    eff: Json,
    roster: Seq<(Seq<char>, Seq<u8>)>,
)
    requires
        json::words_at(eff, "t"@) == "requeued"@,
    ensures
        text::has(sentence(eff, roster), scroll::text_or(eff, "task"@, "?"@)),
        text::has(sentence(eff, roster), scroll::name_in(eff, "from"@, roster)),
        text::has(sentence(eff, roster), scroll::text_or(eff, "why"@, "?"@)),
{
    reveal_strlit("said");
    reveal_strlit("message");
    reveal_strlit("reacted");
    reveal_strlit("voted");
    reveal_strlit("opened");
    reveal_strlit("planned");
    reveal_strlit("assigned");
    reveal_strlit("directed");
    reveal_strlit("nudge");
    reveal_strlit("record");
    reveal_strlit("requeued");
    assert("said"@.len() == 4);
    assert("message"@.len() == 7);
    assert("reacted"@.len() == 7);
    assert("voted"@.len() == 5);
    assert("opened"@.len() == 6);
    assert("planned"@.len() == 7);
    assert("assigned"@.len() == 8);
    assert("directed"@.len() == 8);
    assert("nudge"@.len() == 5);
    assert("record"@.len() == 6);
    assert("requeued"@.len() == 8);
    assert("assigned"@[0] == 'a');
    assert("directed"@[0] == 'd');
    assert("message"@[0] == 'm');
    assert("nudge"@[0] == 'n');
    assert("opened"@[0] == 'o');
    assert("planned"@[0] == 'p');
    assert("reacted"@[0] == 'r');
    assert("record"@[0] == 'r');
    assert("requeued"@[0] == 'r');
    assert("voted"@[0] == 'v');
    let a = scroll::text_or(eff, "task"@, "?"@);
    let b = " requeued from "@;
    let c = scroll::name_in(eff, "from"@, roster);
    let d = ": "@;
    let e = scroll::text_or(eff, "why"@, "?"@);
    let whole = a + b + c + d + e;
    assert(sentence(eff, roster) == whole);
    assert(text::has(whole, a)) by {
        text::lemma_has_self(a);
        text::lemma_has_left(a, b, a);
        text::lemma_has_left(a + b, c, a);
        text::lemma_has_left(a + b + c, d, a);
        text::lemma_has_left(a + b + c + d, e, a);
    }
    assert(text::has(whole, c)) by {
        text::lemma_has_self(c);
        text::lemma_has_right(a + b, c, c);
        text::lemma_has_left(a + b + c, d, c);
        text::lemma_has_left(a + b + c + d, e, c);
    }
    assert(text::has(whole, e)) by {
        text::lemma_has_self(e);
        text::lemma_has_right(a + b + c + d, e, e);
    }
}

/// A spent budget is told with whose it was, and of which task.
pub proof fn a_spent_budget_is_told(
    eff: Json,
    roster: Seq<(Seq<char>, Seq<u8>)>,
)
    requires
        json::words_at(eff, "t"@) == "budget_spent"@,
    ensures
        text::has(sentence(eff, roster), scroll::name_in(eff, "holder"@, roster)),
        text::has(sentence(eff, roster), scroll::text_or(eff, "task"@, "?"@)),
{
    reveal_strlit("said");
    reveal_strlit("message");
    reveal_strlit("reacted");
    reveal_strlit("voted");
    reveal_strlit("opened");
    reveal_strlit("planned");
    reveal_strlit("assigned");
    reveal_strlit("directed");
    reveal_strlit("nudge");
    reveal_strlit("record");
    reveal_strlit("requeued");
    reveal_strlit("budget_spent");
    assert("said"@.len() == 4);
    assert("message"@.len() == 7);
    assert("reacted"@.len() == 7);
    assert("voted"@.len() == 5);
    assert("opened"@.len() == 6);
    assert("planned"@.len() == 7);
    assert("assigned"@.len() == 8);
    assert("directed"@.len() == 8);
    assert("nudge"@.len() == 5);
    assert("record"@.len() == 6);
    assert("requeued"@.len() == 8);
    assert("budget_spent"@.len() == 12);
    assert("assigned"@[0] == 'a');
    assert("directed"@[0] == 'd');
    assert("message"@[0] == 'm');
    assert("nudge"@[0] == 'n');
    assert("opened"@[0] == 'o');
    assert("planned"@[0] == 'p');
    assert("reacted"@[0] == 'r');
    assert("record"@[0] == 'r');
    assert("requeued"@[0] == 'r');
    assert("voted"@[0] == 'v');
    let a = scroll::name_in(eff, "holder"@, roster);
    let b = " spent its nudge budget on "@;
    let c = scroll::text_or(eff, "task"@, "?"@);
    let whole = a + b + c;
    assert(sentence(eff, roster) == whole);
    assert(text::has(whole, a)) by {
        text::lemma_has_self(a);
        text::lemma_has_left(a, b, a);
        text::lemma_has_left(a + b, c, a);
    }
    assert(text::has(whole, c)) by {
        text::lemma_has_self(c);
        text::lemma_has_right(a + b, c, c);
    }
}

/// A task that was closed is told with who wrote it up, and its title.
pub proof fn a_closed_task_is_told(
    eff: Json,
    roster: Seq<(Seq<char>, Seq<u8>)>,
)
    requires
        json::words_at(eff, "t"@) == "closed"@,
    ensures
        text::has(sentence(eff, roster), scroll::text_or(eff, "task"@, "?"@)),
        text::has(sentence(eff, roster), scroll::name_in(eff, "author"@, roster)),
        text::has(sentence(eff, roster), json::words_at(eff, "title"@)),
{
    reveal_strlit("said");
    reveal_strlit("message");
    reveal_strlit("reacted");
    reveal_strlit("voted");
    reveal_strlit("opened");
    reveal_strlit("planned");
    reveal_strlit("assigned");
    reveal_strlit("directed");
    reveal_strlit("nudge");
    reveal_strlit("record");
    reveal_strlit("requeued");
    reveal_strlit("budget_spent");
    reveal_strlit("closed");
    assert("said"@.len() == 4);
    assert("message"@.len() == 7);
    assert("reacted"@.len() == 7);
    assert("voted"@.len() == 5);
    assert("opened"@.len() == 6);
    assert("planned"@.len() == 7);
    assert("assigned"@.len() == 8);
    assert("directed"@.len() == 8);
    assert("nudge"@.len() == 5);
    assert("record"@.len() == 6);
    assert("requeued"@.len() == 8);
    assert("budget_spent"@.len() == 12);
    assert("closed"@.len() == 6);
    assert("assigned"@[0] == 'a');
    assert("closed"@[0] == 'c');
    assert("directed"@[0] == 'd');
    assert("message"@[0] == 'm');
    assert("nudge"@[0] == 'n');
    assert("opened"@[0] == 'o');
    assert("planned"@[0] == 'p');
    assert("reacted"@[0] == 'r');
    assert("record"@[0] == 'r');
    assert("requeued"@[0] == 'r');
    assert("voted"@[0] == 'v');
    let a = scroll::text_or(eff, "task"@, "?"@);
    let b = " closed by "@;
    let c = scroll::name_in(eff, "author"@, roster);
    let d = ": "@;
    let e = json::words_at(eff, "title"@);
    let whole = a + b + c + d + e;
    assert(sentence(eff, roster) == whole);
    assert(text::has(whole, a)) by {
        text::lemma_has_self(a);
        text::lemma_has_left(a, b, a);
        text::lemma_has_left(a + b, c, a);
        text::lemma_has_left(a + b + c, d, a);
        text::lemma_has_left(a + b + c + d, e, a);
    }
    assert(text::has(whole, c)) by {
        text::lemma_has_self(c);
        text::lemma_has_right(a + b, c, c);
        text::lemma_has_left(a + b + c, d, c);
        text::lemma_has_left(a + b + c + d, e, c);
    }
    assert(text::has(whole, e)) by {
        text::lemma_has_self(e);
        text::lemma_has_right(a + b + c + d, e, e);
    }
}

/// A task that failed is told to have failed.
pub proof fn a_failed_task_is_told(
    eff: Json,
    roster: Seq<(Seq<char>, Seq<u8>)>,
)
    requires
        json::words_at(eff, "t"@) == "failed"@,
    ensures
        text::has(sentence(eff, roster), scroll::text_or(eff, "task"@, "?"@)),
        text::has(sentence(eff, roster), " failed"@),
{
    reveal_strlit("said");
    reveal_strlit("message");
    reveal_strlit("reacted");
    reveal_strlit("voted");
    reveal_strlit("opened");
    reveal_strlit("planned");
    reveal_strlit("assigned");
    reveal_strlit("directed");
    reveal_strlit("nudge");
    reveal_strlit("record");
    reveal_strlit("requeued");
    reveal_strlit("budget_spent");
    reveal_strlit("closed");
    reveal_strlit("failed");
    assert("said"@.len() == 4);
    assert("message"@.len() == 7);
    assert("reacted"@.len() == 7);
    assert("voted"@.len() == 5);
    assert("opened"@.len() == 6);
    assert("planned"@.len() == 7);
    assert("assigned"@.len() == 8);
    assert("directed"@.len() == 8);
    assert("nudge"@.len() == 5);
    assert("record"@.len() == 6);
    assert("requeued"@.len() == 8);
    assert("budget_spent"@.len() == 12);
    assert("closed"@.len() == 6);
    assert("failed"@.len() == 6);
    assert("assigned"@[0] == 'a');
    assert("closed"@[0] == 'c');
    assert("directed"@[0] == 'd');
    assert("failed"@[0] == 'f');
    assert("message"@[0] == 'm');
    assert("nudge"@[0] == 'n');
    assert("opened"@[0] == 'o');
    assert("planned"@[0] == 'p');
    assert("reacted"@[0] == 'r');
    assert("record"@[0] == 'r');
    assert("requeued"@[0] == 'r');
    assert("voted"@[0] == 'v');
    let a = scroll::text_or(eff, "task"@, "?"@);
    let b = " failed"@;
    let whole = a + b;
    assert(sentence(eff, roster) == whole);
    assert(text::has(whole, a)) by {
        text::lemma_has_self(a);
        text::lemma_has_left(a, b, a);
    }
    assert(text::has(whole, b)) by {
        text::lemma_has_self(b);
        text::lemma_has_right(a, b, b);
    }
}

/// A task that moved is told with whom it moved from and whom to.
pub proof fn a_rehomed_task_is_told(
    eff: Json,
    roster: Seq<(Seq<char>, Seq<u8>)>,
)
    requires
        json::words_at(eff, "t"@) == "rehomed"@,
    ensures
        text::has(sentence(eff, roster), scroll::text_or(eff, "task"@, "?"@)),
        text::has(sentence(eff, roster), scroll::name_in(eff, "from"@, roster)),
        text::has(sentence(eff, roster), scroll::name_in(eff, "to"@, roster)),
{
    reveal_strlit("said");
    reveal_strlit("message");
    reveal_strlit("reacted");
    reveal_strlit("voted");
    reveal_strlit("opened");
    reveal_strlit("planned");
    reveal_strlit("assigned");
    reveal_strlit("directed");
    reveal_strlit("nudge");
    reveal_strlit("record");
    reveal_strlit("requeued");
    reveal_strlit("budget_spent");
    reveal_strlit("closed");
    reveal_strlit("failed");
    reveal_strlit("rehomed");
    assert("said"@.len() == 4);
    assert("message"@.len() == 7);
    assert("reacted"@.len() == 7);
    assert("voted"@.len() == 5);
    assert("opened"@.len() == 6);
    assert("planned"@.len() == 7);
    assert("assigned"@.len() == 8);
    assert("directed"@.len() == 8);
    assert("nudge"@.len() == 5);
    assert("record"@.len() == 6);
    assert("requeued"@.len() == 8);
    assert("budget_spent"@.len() == 12);
    assert("closed"@.len() == 6);
    assert("failed"@.len() == 6);
    assert("rehomed"@.len() == 7);
    assert("assigned"@[0] == 'a');
    assert("closed"@[0] == 'c');
    assert("directed"@[0] == 'd');
    assert("failed"@[0] == 'f');
    assert("message"@[0] == 'm');
    assert("nudge"@[0] == 'n');
    assert("opened"@[0] == 'o');
    assert("planned"@[0] == 'p');
    assert("reacted"@[0] == 'r');
    assert("reacted"@[2] == 'a');
    assert("record"@[0] == 'r');
    assert("rehomed"@[0] == 'r');
    assert("rehomed"@[2] == 'h');
    assert("requeued"@[0] == 'r');
    assert("voted"@[0] == 'v');
    let a = scroll::text_or(eff, "task"@, "?"@);
    let b = " rehomed from "@;
    let c = scroll::name_in(eff, "from"@, roster);
    let d = " to "@;
    let e = scroll::name_in(eff, "to"@, roster);
    let whole = a + b + c + d + e;
    assert(sentence(eff, roster) == whole);
    assert(text::has(whole, a)) by {
        text::lemma_has_self(a);
        text::lemma_has_left(a, b, a);
        text::lemma_has_left(a + b, c, a);
        text::lemma_has_left(a + b + c, d, a);
        text::lemma_has_left(a + b + c + d, e, a);
    }
    assert(text::has(whole, c)) by {
        text::lemma_has_self(c);
        text::lemma_has_right(a + b, c, c);
        text::lemma_has_left(a + b + c, d, c);
        text::lemma_has_left(a + b + c + d, e, c);
    }
    assert(text::has(whole, e)) by {
        text::lemma_has_self(e);
        text::lemma_has_right(a + b + c + d, e, e);
    }
}

/// An artifact is told with its author, its number and its title.
pub proof fn an_artifact_is_told(
    eff: Json,
    roster: Seq<(Seq<char>, Seq<u8>)>,
)
    requires
        json::words_at(eff, "t"@) == "standalone_artifact"@,
    ensures
        text::has(sentence(eff, roster), scroll::name_in(eff, "author"@, roster)),
        text::has(sentence(eff, roster), scroll::raw_at(eff, "id"@)),
        text::has(sentence(eff, roster), json::words_at(eff, "title"@)),
{
    reveal_strlit("said");
    reveal_strlit("message");
    reveal_strlit("reacted");
    reveal_strlit("voted");
    reveal_strlit("opened");
    reveal_strlit("planned");
    reveal_strlit("assigned");
    reveal_strlit("directed");
    reveal_strlit("nudge");
    reveal_strlit("record");
    reveal_strlit("requeued");
    reveal_strlit("budget_spent");
    reveal_strlit("closed");
    reveal_strlit("failed");
    reveal_strlit("rehomed");
    reveal_strlit("standalone_artifact");
    assert("said"@.len() == 4);
    assert("message"@.len() == 7);
    assert("reacted"@.len() == 7);
    assert("voted"@.len() == 5);
    assert("opened"@.len() == 6);
    assert("planned"@.len() == 7);
    assert("assigned"@.len() == 8);
    assert("directed"@.len() == 8);
    assert("nudge"@.len() == 5);
    assert("record"@.len() == 6);
    assert("requeued"@.len() == 8);
    assert("budget_spent"@.len() == 12);
    assert("closed"@.len() == 6);
    assert("failed"@.len() == 6);
    assert("rehomed"@.len() == 7);
    assert("standalone_artifact"@.len() == 19);
    assert("assigned"@[0] == 'a');
    assert("closed"@[0] == 'c');
    assert("directed"@[0] == 'd');
    assert("failed"@[0] == 'f');
    assert("message"@[0] == 'm');
    assert("nudge"@[0] == 'n');
    assert("opened"@[0] == 'o');
    assert("planned"@[0] == 'p');
    assert("reacted"@[0] == 'r');
    assert("reacted"@[2] == 'a');
    assert("record"@[0] == 'r');
    assert("rehomed"@[0] == 'r');
    assert("rehomed"@[2] == 'h');
    assert("requeued"@[0] == 'r');
    assert("voted"@[0] == 'v');
    let a = scroll::name_in(eff, "author"@, roster);
    let b = " published artifact "@;
    let c = scroll::raw_at(eff, "id"@);
    let d = ": "@;
    let e = json::words_at(eff, "title"@);
    let whole = a + b + c + d + e;
    assert(sentence(eff, roster) == whole);
    assert(text::has(whole, a)) by {
        text::lemma_has_self(a);
        text::lemma_has_left(a, b, a);
        text::lemma_has_left(a + b, c, a);
        text::lemma_has_left(a + b + c, d, a);
        text::lemma_has_left(a + b + c + d, e, a);
    }
    assert(text::has(whole, c)) by {
        text::lemma_has_self(c);
        text::lemma_has_right(a + b, c, c);
        text::lemma_has_left(a + b + c, d, c);
        text::lemma_has_left(a + b + c + d, e, c);
    }
    assert(text::has(whole, e)) by {
        text::lemma_has_self(e);
        text::lemma_has_right(a + b + c + d, e, e);
    }
}

/// A report of stats is told with whose it is and its figures.
pub proof fn stats_are_told(
    eff: Json,
    roster: Seq<(Seq<char>, Seq<u8>)>,
)
    requires
        json::words_at(eff, "t"@) == "stats_reported"@,
    ensures
        text::has(sentence(eff, roster), scroll::name_in(eff, "who"@, roster)),
        text::has(sentence(eff, roster), text::joined(scroll::stats_parts(eff), " · "@)),
{
    reveal_strlit("said");
    reveal_strlit("message");
    reveal_strlit("reacted");
    reveal_strlit("voted");
    reveal_strlit("opened");
    reveal_strlit("planned");
    reveal_strlit("assigned");
    reveal_strlit("directed");
    reveal_strlit("nudge");
    reveal_strlit("record");
    reveal_strlit("requeued");
    reveal_strlit("budget_spent");
    reveal_strlit("closed");
    reveal_strlit("failed");
    reveal_strlit("rehomed");
    reveal_strlit("standalone_artifact");
    reveal_strlit("stats_reported");
    assert("said"@.len() == 4);
    assert("message"@.len() == 7);
    assert("reacted"@.len() == 7);
    assert("voted"@.len() == 5);
    assert("opened"@.len() == 6);
    assert("planned"@.len() == 7);
    assert("assigned"@.len() == 8);
    assert("directed"@.len() == 8);
    assert("nudge"@.len() == 5);
    assert("record"@.len() == 6);
    assert("requeued"@.len() == 8);
    assert("budget_spent"@.len() == 12);
    assert("closed"@.len() == 6);
    assert("failed"@.len() == 6);
    assert("rehomed"@.len() == 7);
    assert("standalone_artifact"@.len() == 19);
    assert("stats_reported"@.len() == 14);
    assert("assigned"@[0] == 'a');
    assert("closed"@[0] == 'c');
    assert("directed"@[0] == 'd');
    assert("failed"@[0] == 'f');
    assert("message"@[0] == 'm');
    assert("nudge"@[0] == 'n');
    assert("opened"@[0] == 'o');
    assert("planned"@[0] == 'p');
    assert("reacted"@[0] == 'r');
    assert("reacted"@[2] == 'a');
    assert("record"@[0] == 'r');
    assert("rehomed"@[0] == 'r');
    assert("rehomed"@[2] == 'h');
    assert("requeued"@[0] == 'r');
    assert("voted"@[0] == 'v');
    let a = scroll::name_in(eff, "who"@, roster);
    let b = " ∑ "@;
    let c = text::joined(scroll::stats_parts(eff), " · "@);
    let whole = a + b + c;
    assert(sentence(eff, roster) == whole);
    assert(text::has(whole, a)) by {
        text::lemma_has_self(a);
        text::lemma_has_left(a, b, a);
        text::lemma_has_left(a + b, c, a);
    }
    assert(text::has(whole, c)) by {
        text::lemma_has_self(c);
        text::lemma_has_right(a + b, c, c);
    }
}

/// What was put on the record is told with its words, where it has any; a vote
/// says which way it went; and a nudge whether it is the last.
pub proof fn a_line_tells_the_rest(eff: Json, roster: Seq<(Seq<char>, Seq<u8>)>)
    ensures
        json::words_at(eff, "t"@) == "record"@ ==> text::ends(
            sentence(eff, roster),
            json::words_at(eff, "text"@),
        ),
        json::words_at(eff, "t"@) == "voted"@ && json::flag_at(eff, "up"@) ==> text::starts(
            sentence(eff, roster),
            scroll::name_in(eff, "who"@, roster) + " voted up"@,
        ),
        json::words_at(eff, "t"@) == "voted"@ && !json::flag_at(eff, "up"@) ==> text::starts(
            sentence(eff, roster),
            scroll::name_in(eff, "who"@, roster) + " voted down"@,
        ),
        json::words_at(eff, "t"@) == "nudge"@ ==> (text::ends(sentence(eff, roster), " left, last)"@)
            <==> json::flag_at(eff, "last"@)),
        json::flag_at(eff, "off_record"@) ==> off_record_mark(eff) == " (off the record)"@,
        !json::flag_at(eff, "off_record"@) ==> off_record_mark(eff) == ""@,
        json::num_at(eff, "parent"@) matches Some(p) ==> text::ends(
            parent_mark(eff),
            text::dec(p as nat),
        ),
{
    reveal_strlit("said");
    reveal_strlit("message");
    reveal_strlit("reacted");
    reveal_strlit("voted");
    reveal_strlit("opened");
    reveal_strlit("planned");
    reveal_strlit("assigned");
    reveal_strlit("directed");
    reveal_strlit("nudge");
    reveal_strlit("record");
    reveal_strlit("requeued");
    reveal_strlit("budget_spent");
    reveal_strlit("closed");
    reveal_strlit("failed");
    reveal_strlit("rehomed");
    reveal_strlit("standalone_artifact");
    reveal_strlit("stats_reported");
    assert("said"@.len() == 4);
    assert("message"@.len() == 7);
    assert("reacted"@.len() == 7);
    assert("voted"@.len() == 5);
    assert("opened"@.len() == 6);
    assert("planned"@.len() == 7);
    assert("assigned"@.len() == 8);
    assert("directed"@.len() == 8);
    assert("nudge"@.len() == 5);
    assert("record"@.len() == 6);
    assert("requeued"@.len() == 8);
    assert("budget_spent"@.len() == 12);
    assert("closed"@.len() == 6);
    assert("failed"@.len() == 6);
    assert("rehomed"@.len() == 7);
    assert("standalone_artifact"@.len() == 19);
    assert("stats_reported"@.len() == 14);
    assert("assigned"@[0] == 'a');
    assert("closed"@[0] == 'c');
    assert("directed"@[0] == 'd');
    assert("failed"@[0] == 'f');
    assert("message"@[0] == 'm');
    assert("nudge"@[0] == 'n');
    assert("opened"@[0] == 'o');
    assert("planned"@[0] == 'p');
    assert("reacted"@[0] == 'r');
    assert("reacted"@[2] == 'a');
    assert("record"@[0] == 'r');
    assert("rehomed"@[0] == 'r');
    assert("rehomed"@[2] == 'h');
    assert("requeued"@[0] == 'r');
    assert("voted"@[0] == 'v');
    reveal_strlit("");
    reveal_strlit(" left, last)");
    reveal_strlit(" left");
    reveal_strlit(", last");
    reveal_strlit(")");
    reveal_strlit(" voted ");
    reveal_strlit("up");
    reveal_strlit("down");
    reveal_strlit(" voted up");
    reveal_strlit(" voted down");
    let s = sentence(eff, roster);
    let kind = json::words_at(eff, "t"@);
    let who = scroll::name_in(eff, "who"@, roster);
    if kind == "record"@ {
        let t = json::words_at(eff, "text"@);
        assert(s.subrange(s.len() - t.len(), s.len() as int) =~= t);
    }
    if kind == "voted"@ {
        let up = who + " voted up"@;
        let down = who + " voted down"@;
        if json::flag_at(eff, "up"@) {
            assert(s.subrange(0, up.len() as int) =~= up);
        } else {
            assert(s.subrange(0, down.len() as int) =~= down);
        }
    }
    if kind == "nudge"@ {
        let e = " left, last)"@;
        if json::flag_at(eff, "last"@) {
            assert(s.subrange(s.len() - e.len(), s.len() as int) =~= e);
        } else {
            assert(s[s.len() - 2] == 't');
            assert(s[s.len() - 3] == 'f');
            if text::ends(s, e) {
                assert(s.subrange(s.len() - e.len(), s.len() as int)[e.len() - 3] == 's');
            }
        }
    }
    if json::num_at(eff, "parent"@) is Some {
        let d = text::dec((json::num_at(eff, "parent"@)->0) as nat);
        let m = parent_mark(eff);
        assert(m.subrange(m.len() - d.len(), m.len() as int) =~= d);
    }
}

/// Every tag of a message is told, in order.
pub proof fn every_tag_is_told(tags: Seq<Json>, tag: Json)
    ensures
        json::as_text(tag) matches Some(t) ==> tag_marks(tags.push(tag)) == tag_marks(tags) + " #"@
            + t,
        json::as_text(tag) is None ==> tag_marks(tags.push(tag)) == tag_marks(tags),
        tag_marks(Seq::empty()) == ""@,
{
    assert(tags.push(tag).drop_last() =~= tags);
}

/// An event is about a task where it names the task itself or a part of it.
pub proof fn an_event_is_about_its_task(e: Json, parent: nat, part: nat)
    ensures
        json::words_at(agent::value_at(e, "effect"@), "task"@) == "t"@ + text::dec(parent)
            ==> concerns(e, "t"@ + text::dec(parent)),
        json::words_at(agent::value_at(e, "effect"@), "task"@) == "t"@ + text::dec(parent) + "."@
            + text::dec(part) ==> concerns(e, "t"@ + text::dec(parent)),
{
    reveal_strlit("t");
    reveal_strlit(".");
    let d = text::dec(parent);
    lemma_dec_front(parent);
    let whole = "t"@ + d;
    let sub = "t"@ + d + "."@ + text::dec(part);
    let inner = d + "."@ + text::dec(part);
    assert(whole.skip(1) =~= d);
    assert(sub.skip(1) =~= inner);
    assert(whole[0] == 't' && sub[0] == 't');
    assert(d.len() > 0 && d[0] != 't');
    assert(inner[0] == d[0]);
    reveal_with_fuel(text::without_leading, 2);
    assert(text::without_leading(whole, 't') == d);
    assert(text::without_leading(sub, 't') == inner);
    assert(inner.subrange(0, (d + "."@).len() as int) =~= d + "."@);
}

proof fn lemma_dec_front(n: nat)
    ensures
        text::dec(n).len() > 0,
        text::dec(n)[0] != 't',
    decreases n,
{
    if n >= 10 {
        lemma_dec_front(n / 10);
        assert(text::dec(n)[0] == text::dec(n / 10)[0]);
    } else {
        assert(text::digit(n) as u32 == 48 + n);
    }
}

/// A write is tried four times: what may pass is tried again, with what was wrong
/// told each time, and given up after that; what will not pass is told at once.
pub proof fn a_write_is_tried_four_times(attempt: u32, last: Seq<char>)
    ensures
        attempt < 3 ==> retried(attempt, last) is Again,
        attempt >= 3 ==> retried(attempt, last) is Failed,
        retried(attempt, last) matches NextView::Again { wait_ms, note } ==> text::has(note, last),
        retried(attempt, last) matches NextView::Failed(why) ==> text::has(why, last),
{
    text::lemma_has_self(last);
    let a = "retrying submit (attempt "@ + text::dec((attempt + 2) as nat) + "/4) — "@;
    text::lemma_has_right(a, last, last);
    text::lemma_has_right("  "@ + common::DIM@, a + last, last);
    text::lemma_has_left("  "@ + common::DIM@ + (a + last), common::OFF@, last);
    text::lemma_has_right("gave up after 4 attempts — "@, last, last);
}

/// What the node makes of a write decides: it is sent where it was taken, tried
/// again where the node was not reached or may think better of it, and refused
/// otherwise, with the node's own words.
pub proof fn a_posted_write_goes_by_its_answer(attempt: u32, posted: Posted, me: Seq<u8>)
    ensures
        match posted {
            Posted::Unreachable(e) => after_post(attempt, posted, me) == retried(
                attempt,
                "node unreachable: "@ + e@,
            ),
            Posted::Answer { ok, body } => {
                let msg = agent::refusal_text(body);
                let r = after_post(attempt, posted, me);
                let passing = text::has(msg, "Stale"@) || text::has(msg, "Future"@) || text::has(
                    msg,
                    "no route to it"@,
                );
                &&& ok ==> (r matches NextView::Sent { note, hash } && hash == json::text_at(
                    body,
                    "tx_hash"@,
                ) && (note is Some <==> json::text_at(body, "note"@) is Some))
                &&& !ok ==> !(r is Sent)
                &&& !ok && text::has(msg, "Payment"@) ==> (r matches NextView::Failed(why)
                    && text::starts(why, msg))
                &&& !ok && text::has(msg, "Payment"@) == false && passing ==> r == retried(
                    attempt,
                    "refused: "@ + msg,
                )
                &&& !ok && text::has(msg, "Payment"@) == false && !passing ==> r
                    == NextView::Failed(msg)
            },
        },
{
    match posted {
        Posted::Answer { ok, body } => {
            let msg = agent::refusal_text(body);
            if !ok && text::has(msg, "Payment"@) {
                let why = after_post(attempt, posted, me)->Failed_0;
                assert(why.subrange(0, msg.len() as int) =~= msg);
            }
        },
        _ => {},
    }
}

/// What became of a write is told once it is known: that it is sealed and in
/// which block, or that it was lost track of; and nothing before that.
pub proof fn the_fate_of_a_write_is_told(hash: Seq<char>, v: Json)
    ensures
        json::text_at(v, "status"@) == Some("sealed"@) ==> (fate(hash, v) matches Some(s)
            && text::has(s, hash) && text::has(s, text::dec(scroll::num_or_0(v, "height"@) as nat))),
        json::text_at(v, "status"@) == Some("unknown"@) ==> (fate(hash, v) matches Some(s)
            && text::has(s, hash)),
        json::text_at(v, "status"@) != Some("sealed"@) && json::text_at(v, "status"@) != Some(
            "unknown"@,
        ) ==> fate(hash, v) is None,
{
    reveal_strlit("sealed");
    reveal_strlit("unknown");
    assert("sealed"@.len() == 6 && "unknown"@.len() == 7);
    let d = text::dec(scroll::num_or_0(v, "height"@) as nat);
    let b = " sealed at block "@;
    let lost = ": lost track of it (leadership likely moved before it sealed)"@;
    let lead = "  "@ + common::DIM@;
    text::lemma_has_self(hash);
    text::lemma_has_self(d);
    text::lemma_has_left(hash, b, hash);
    text::lemma_has_left(hash + b, d, hash);
    text::lemma_has_right(hash + b, d, d);
    text::lemma_has_right(lead, hash + b + d, hash);
    text::lemma_has_right(lead, hash + b + d, d);
    text::lemma_has_left(lead + (hash + b + d), common::OFF@, hash);
    text::lemma_has_left(lead + (hash + b + d), common::OFF@, d);
    text::lemma_has_left(hash, lost, hash);
    text::lemma_has_right(lead, hash + lost, hash);
    text::lemma_has_left(lead + (hash + lost), common::OFF@, hash);
}

/// Every vote is counted on its side, and every comment is shown with whose it
/// is.
pub proof fn every_vote_and_comment_is_shown(
    a: Json,
    roster: Seq<(Seq<char>, Seq<u8>)>,
    i: int,
)
    ensures
        ({
            let votes = agent::value_at(a, "votes"@);
            let ups = json::items_at(votes, "up"@).len();
            let downs = json::items_at(votes, "down"@).len();
            let comments = json::items_at(a, "comments"@);
            let r = feedback_lines(a, roster);
            &&& ups + downs > 0 ==> r.len() > 0 && text::has(r[0], text::dec(ups)) && text::has(
                r[0],
                text::dec(downs),
            )
            &&& r.len() == (if ups + downs > 0 {
                1int
            } else {
                0
            }) + (if comments.len() > 0 {
                1 + comments.len() as int
            } else {
                0
            })
            &&& 0 <= i < comments.len() ==> r[r.len() - comments.len() + i] == comment_line(
                comments[i],
                roster,
            )
        }),
{
    let votes = agent::value_at(a, "votes"@);
    let x = text::dec(json::items_at(votes, "up"@).len());
    let y = text::dec(json::items_at(votes, "down"@).len());
    let p = "\n▲ "@;
    let q = "  ▼ "@;
    text::lemma_has_self(x);
    text::lemma_has_self(y);
    text::lemma_has_right(p, x, x);
    text::lemma_has_left(p + x, q, x);
    text::lemma_has_left(p + x + q, y, x);
    text::lemma_has_right(p + x + q, y, y);
}

/// A task is held by whom it says, or is for whom it is assigned to.
pub proof fn a_task_is_shown_with_its_holder(t: Json, roster: Seq<(Seq<char>, Seq<u8>)>, a: Seq<u8>)
    requires
        a.len() == 32,
    ensures
        json::text_at(t, "holder"@) == Some(keys::hexed(a)) ==> task_holder(t, roster) == Some(
            common::name_for(roster, a),
        ),
        json::text_at(t, "holder"@) is None && json::text_at(t, "assignee"@) == Some(keys::hexed(a))
            ==> task_holder(t, roster) == Some(common::name_for(roster, a)),
        json::text_at(t, "holder"@) is None && json::text_at(t, "assignee"@) is None ==> task_holder(
            t,
            roster,
        ) is None,
        json::num_at(t, "lease_until"@) matches Some(b) ==> text::ends(
            lease_text(t),
            text::dec(b as nat),
        ),
{
    keys::hex_reads_back(a);
    if json::num_at(t, "lease_until"@) is Some {
        let d = text::dec((json::num_at(t, "lease_until"@)->0) as nat);
        let l = lease_text(t);
        assert(l.subrange(l.len() - d.len(), l.len() as int) =~= d);
    }
}

/// A note is listed with its number, its title and its author.
pub proof fn a_note_is_listed(
    r: Json,
    roster: Seq<(Seq<char>, Seq<u8>)>,
)
    ensures
        text::has(listed(r, true, roster), text::dec(scroll::num_or_0(r, "id"@) as nat)),
        text::has(listed(r, true, roster), json::words_at(r, "title"@)),
        text::has(listed(r, true, roster), agent::named_or(json::text_at(r, "author"@), roster, "someone"@)),
{
    let a = "  "@;
    let b = text::dec(scroll::num_or_0(r, "id"@) as nat);
    let c = "  "@;
    let d = json::words_at(r, "title"@);
    let e = "  ("@;
    let f = agent::named_or(json::text_at(r, "author"@), roster, "someone"@);
    let g = ")"@;
    let whole = a + b + c + d + e + f + g;
    assert(listed(r, true, roster) == whole);
    assert(text::has(whole, b)) by {
        text::lemma_has_self(b);
        text::lemma_has_right(a, b, b);
        text::lemma_has_left(a + b, c, b);
        text::lemma_has_left(a + b + c, d, b);
        text::lemma_has_left(a + b + c + d, e, b);
        text::lemma_has_left(a + b + c + d + e, f, b);
        text::lemma_has_left(a + b + c + d + e + f, g, b);
    }
    assert(text::has(whole, d)) by {
        text::lemma_has_self(d);
        text::lemma_has_right(a + b + c, d, d);
        text::lemma_has_left(a + b + c + d, e, d);
        text::lemma_has_left(a + b + c + d + e, f, d);
        text::lemma_has_left(a + b + c + d + e + f, g, d);
    }
    assert(text::has(whole, f)) by {
        text::lemma_has_self(f);
        text::lemma_has_right(a + b + c + d + e, f, f);
        text::lemma_has_left(a + b + c + d + e + f, g, f);
    }
}

/// An artifact is listed with its id, its title and its author.
pub proof fn a_paper_is_listed(
    r: Json,
    roster: Seq<(Seq<char>, Seq<u8>)>,
)
    ensures
        text::has(listed(r, false, roster), scroll::text_or(r, "id"@, "?"@)),
        text::has(listed(r, false, roster), json::words_at(r, "title"@)),
        text::has(listed(r, false, roster), agent::named_or(json::text_at(r, "author"@), roster, "someone"@)),
{
    let a = "  "@;
    let b = scroll::text_or(r, "id"@, "?"@);
    let c = "  "@;
    let d = json::words_at(r, "title"@);
    let e = "  ("@;
    let f = agent::named_or(json::text_at(r, "author"@), roster, "someone"@);
    let g = ")"@;
    let whole = a + b + c + d + e + f + g;
    assert(listed(r, false, roster) == whole);
    assert(text::has(whole, b)) by {
        text::lemma_has_self(b);
        text::lemma_has_right(a, b, b);
        text::lemma_has_left(a + b, c, b);
        text::lemma_has_left(a + b + c, d, b);
        text::lemma_has_left(a + b + c + d, e, b);
        text::lemma_has_left(a + b + c + d + e, f, b);
        text::lemma_has_left(a + b + c + d + e + f, g, b);
    }
    assert(text::has(whole, d)) by {
        text::lemma_has_self(d);
        text::lemma_has_right(a + b + c, d, d);
        text::lemma_has_left(a + b + c + d, e, d);
        text::lemma_has_left(a + b + c + d + e, f, d);
        text::lemma_has_left(a + b + c + d + e + f, g, d);
    }
    assert(text::has(whole, f)) by {
        text::lemma_has_self(f);
        text::lemma_has_right(a + b + c + d + e, f, f);
        text::lemma_has_left(a + b + c + d + e + f, g, f);
    }
}

/// A comment is shown with whose it is, and whole.
pub proof fn a_comment_is_shown(
    c: Json,
    roster: Seq<(Seq<char>, Seq<u8>)>,
)
    ensures
        text::has(comment_line(c, roster), agent::named_or(json::text_at(c, "who"@), roster, "?"@)),
        text::has(comment_line(c, roster), json::words_at(c, "body"@)),
{
    let x = "  "@;
    let y = agent::named_or(json::text_at(c, "who"@), roster, "?"@);
    let z = ": "@;
    let w = json::words_at(c, "body"@);
    let whole = x + y + z + w;
    assert(comment_line(c, roster) == whole);
    assert(text::has(whole, y)) by {
        text::lemma_has_self(y);
        text::lemma_has_right(x, y, y);
        text::lemma_has_left(x + y, z, y);
        text::lemma_has_left(x + y + z, w, y);
    }
    assert(text::has(whole, w)) by {
        text::lemma_has_self(w);
        text::lemma_has_right(x + y + z, w, w);
    }
}

/// An event is shown with its block and what it says.
pub proof fn an_event_is_shown_with_its_block(
    e: Json,
    roster: Seq<(Seq<char>, Seq<u8>)>,
)
    ensures
        text::has(event_text(e, roster), (match json::num_at(e, "at"@) {
        Some(t) => figures::clock_text(t) + "  "@,
        None => ""@,
    })),
        text::has(event_text(e, roster), scroll::raw_at(e, "block"@)),
        text::has(event_text(e, roster), sentence(agent::value_at(e, "effect"@), roster)),
{
    let x = "  "@;
    let y = (match json::num_at(e, "at"@) {
        Some(t) => figures::clock_text(t) + "  "@,
        None => ""@,
    });
    let z = "block "@;
    let w = scroll::raw_at(e, "block"@);
    let v = "  "@;
    let u = sentence(agent::value_at(e, "effect"@), roster);
    let whole = x + y + z + w + v + u;
    assert(event_text(e, roster) == whole);
    assert(text::has(whole, y)) by {
        text::lemma_has_self(y);
        text::lemma_has_right(x, y, y);
        text::lemma_has_left(x + y, z, y);
        text::lemma_has_left(x + y + z, w, y);
        text::lemma_has_left(x + y + z + w, v, y);
        text::lemma_has_left(x + y + z + w + v, u, y);
    }
    assert(text::has(whole, w)) by {
        text::lemma_has_self(w);
        text::lemma_has_right(x + y + z, w, w);
        text::lemma_has_left(x + y + z + w, v, w);
        text::lemma_has_left(x + y + z + w + v, u, w);
    }
    assert(text::has(whole, u)) by {
        text::lemma_has_self(u);
        text::lemma_has_right(x + y + z + w + v, u, u);
    }
}

/// Every row of a roster that has a name and an account is adopted, in
/// order.
pub proof fn every_member_is_adopted(
    a: Seq<Json>,
    b: Seq<Json>,
    x: Json,
)
    ensures
        roster_rows(a + b) == roster_rows(a) + roster_rows(b),
        roster_rows(seq![x]) == (if roster_row(x) is Some {
            seq![roster_row(x)->0]
        } else {
            Seq::<(Seq<char>, Seq<u8>)>::empty()
        }),
        roster_rows(Seq::<Json>::empty()).len() == 0,
    decreases b.len(),
{
    reveal_with_fuel(roster_rows, 2);
    assert(seq![x].drop_last() =~= Seq::<Json>::empty());
    assert(roster_rows(Seq::<Json>::empty()).len() == 0);
    if b.len() == 0 {
        assert(a + b =~= a);
        assert(roster_rows(a + b) =~= roster_rows(a) + roster_rows(b));
    } else {
        let all = a + b;
        assert(all.drop_last() =~= a + b.drop_last());
        assert(all.last() == b.last());
        every_member_is_adopted(a, b.drop_last(), x);
        assert(roster_rows(all) =~= roster_rows(a) + roster_rows(b));
    }
}

/// A row of a roster is a name and the account it spells.
pub proof fn a_row_is_a_name_and_its_account(r: Json, n: Seq<char>, a: Seq<u8>)
    requires
        a.len() == 32,
        json::text_at(r, "name"@) == Some(n),
        json::text_at(r, "account"@) == Some(keys::hexed(a)),
    ensures
        roster_row(r) == Some((n, a)),
{
    keys::hex_reads_back(a);
}

/// What a node says of its chain is read whole, or refused for what is missing.
pub proof fn a_chain_is_known_or_refused(v: Json)
    ensures
        json::text_at(v, "genesis_hash"@) is None ==> meta_in(v) is Err,
        json::num_at(v, "spec_version"@) is None ==> meta_in(v) is Err,
        json::num_at(v, "tx_version"@) is None ==> meta_in(v) is Err,
        meta_in(v) matches Ok(m) ==> m.0.len() == 32 && (json::text_at(v, "genesis_hash"@) matches
            Some(g) && keys::unhexed(g) == Some(m.0)) && (json::num_at(v, "spec_version"@) matches
            Some(s) && (s <= u32::MAX ==> m.1 == s)) && (json::num_at(v, "tx_version"@) matches Some(
            t,
        ) && (t <= u32::MAX ==> m.2 == t)),
{
}

} // verus!
