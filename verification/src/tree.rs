//! The conversation log as the tree it is: only speech, each reply under what
//! it answers, reactions on the line they answered.

use crate::agent;
use crate::common::Roster;
use crate::figures;
use crate::json;
use crate::json::Json;
use crate::scroll;
use crate::text;
use crate::turns;
use crate::ui;
use crate::ui::Skin;
use vstd::prelude::*;
use vstd::string::*;

verus! {

/// One message.
#[derive(Debug)]
pub struct Msg {
    pub id: String,
    pub from: String,
    pub to: String,
    pub body: String,
    /// The message it answers.
    pub parent: Option<String>,
    pub tags: Vec<String>,
    pub at: Option<u64>,
    pub reactions: Vec<String>,
}

pub struct MsgView {
    pub id: Seq<char>,
    pub from: Seq<char>,
    pub to: Seq<char>,
    pub body: Seq<char>,
    pub parent: Option<Seq<char>>,
    pub tags: Seq<Seq<char>>,
    pub at: Option<u64>,
    pub reactions: Seq<Seq<char>>,
}

impl View for Msg {
    type V = MsgView;

    open spec fn view(&self) -> MsgView {
        MsgView {
            id: self.id@,
            from: self.from@,
            to: self.to@,
            body: self.body@,
            parent: text::text_view(self.parent),
            tags: text::texts(self.tags@),
            at: self.at,
            reactions: text::texts(self.reactions@),
        }
    }
}

pub open spec fn msgs(v: Seq<Msg>) -> Seq<MsgView> {
    Seq::new(v.len(), |i: int| v[i]@)
}

/// Where the message `id` stands.
pub open spec fn find(v: Seq<MsgView>, id: Seq<char>) -> Option<nat>
    decreases v.len(),
{
    if v.len() == 0 {
        None
    } else {
        match find(v.drop_last(), id) {
            Some(i) => Some(i),
            None => if v.last().id == id {
                Some((v.len() - 1) as nat)
            } else {
                None
            },
        }
    }
}

/// The items that are texts.
pub open spec fn texts_in(v: Seq<Json>) -> Seq<Seq<char>>
    decreases v.len(),
{
    if v.len() == 0 {
        seq![]
    } else {
        match json::as_text(v.last()) {
            Some(t) => texts_in(v.drop_last()).push(t),
            None => texts_in(v.drop_last()),
        }
    }
}

/// A message of the log. One without an id goes by its block, with nothing
/// hanging off it.
pub open spec fn message_in(e: Json, roster: Seq<(Seq<char>, Seq<u8>)>) -> MsgView {
    let eff = agent::value_at(e, "effect"@);
    MsgView {
        id: match json::text_at(eff, "id"@) {
            Some(i) => i,
            None => "b"@ + text::dec(scroll::num_or_0(e, "block"@) as nat),
        },
        from: scroll::name_in(eff, "from"@, roster),
        to: scroll::addressee(eff, roster),
        body: json::words_at(eff, "body"@),
        parent: json::text_at(eff, "parent"@),
        tags: texts_in(json::items_at(eff, "tags"@)),
        at: json::num_at(e, "at"@),
        reactions: seq![],
    }
}

/// A reaction as it is shown: a single glyph with who it was.
pub open spec fn reaction_in(eff: Json, roster: Seq<(Seq<char>, Seq<u8>)>) -> Seq<char> {
    let emoji = scroll::text_or(eff, "emoji"@, "·"@);
    if emoji.len() == 1 {
        emoji + " "@ + scroll::name_in(eff, "who"@, roster)
    } else {
        emoji
    }
}

/// One more event of the log: a message is added, or takes the place of the one
/// with its id; a reaction goes to the message it answers.
pub open spec fn gathered(
    v: Seq<MsgView>,
    e: Json,
    roster: Seq<(Seq<char>, Seq<u8>)>,
) -> Seq<MsgView> {
    let eff = agent::value_at(e, "effect"@);
    let kind = json::words_at(eff, "t"@);
    if kind == "said"@ || kind == "message"@ {
        let m = message_in(e, roster);
        match find(v, m.id) {
            Some(i) => v.update(i as int, m),
            None => v.push(m),
        }
    } else if kind == "reacted"@ {
        match find(v, json::words_at(eff, "target"@)) {
            Some(i) => v.update(
                i as int,
                MsgView {
                    reactions: v[i as int].reactions.push(reaction_in(eff, roster)),
                    ..v[i as int]
                },
            ),
            None => v,
        }
    } else {
        v
    }
}

/// The messages of a log, in the order in which their ids came up.
pub open spec fn gathered_all(
    batch: Seq<Json>,
    roster: Seq<(Seq<char>, Seq<u8>)>,
) -> Seq<MsgView>
    decreases batch.len(),
{
    if batch.len() == 0 {
        seq![]
    } else {
        gathered(gathered_all(batch.drop_last(), roster), batch.last(), roster)
    }
}

/// `v` without what repeats its neighbour.
pub open spec fn deduped(v: Seq<Seq<char>>) -> Seq<Seq<char>>
    decreases v.len(),
{
    if v.len() == 0 {
        seq![]
    } else {
        let before = deduped(v.drop_last());
        if before.len() > 0 && before.last() == v.last() {
            before
        } else {
            before.push(v.last())
        }
    }
}

/// A message that answers none of the others.
pub open spec fn is_root(v: Seq<MsgView>, i: int) -> bool {
    match v[i].parent {
        Some(p) => find(v, p) is None,
        None => true,
    }
}

/// The messages among the first `n` that answer `id`.
pub open spec fn kids(v: Seq<MsgView>, id: Seq<char>, n: nat) -> Seq<int>
    decreases n,
{
    if n == 0 {
        seq![]
    } else if v[n - 1].parent == Some(id) {
        kids(v, id, (n - 1) as nat).push(n - 1)
    } else {
        kids(v, id, (n - 1) as nat)
    }
}

/// The roots among the first `n` messages.
pub open spec fn roots(v: Seq<MsgView>, n: nat) -> Seq<int>
    decreases n,
{
    if n == 0 {
        seq![]
    } else if is_root(v, n - 1) {
        roots(v, (n - 1) as nat).push(n - 1)
    } else {
        roots(v, (n - 1) as nat)
    }
}

/// A line for each of the first `n` messages that answers one this window does
/// not hold.
pub open spec fn orphan_lines(k: Skin, v: Seq<MsgView>, n: nat) -> Seq<Seq<char>>
    decreases n,
{
    if n == 0 {
        seq![]
    } else {
        let before = orphan_lines(k, v, (n - 1) as nat);
        match v[n - 1].parent {
            Some(p) => if find(v, p) is None {
                before.push(
                    "  "@ + ui::dimmed(k, "… #"@ + p + " (not in this node's window)"@),
                )
            } else {
                before
            },
            None => before,
        }
    }
}

pub open spec fn tag_text(k: Skin, tags: Seq<Seq<char>>) -> Seq<char>
    decreases tags.len(),
{
    if tags.len() == 0 {
        ""@
    } else {
        tag_text(k, tags.drop_last()) + ui::dimmed(k, " #"@ + tags.last())
    }
}

/// One message's line.
pub open spec fn message_line(
    k: Skin,
    m: MsgView,
    prefix: Seq<char>,
    last: bool,
    first: bool,
) -> Seq<char> {
    let branch = if first {
        ""@
    } else if last {
        "└─"@
    } else {
        "├─"@
    };
    let time = match m.at {
        Some(t) => ui::dimmed(k, " "@ + figures::clock_text(t)),
        None => ""@,
    };
    let lines = text::lines(m.body);
    let more = if lines.len() > 1 {
        ui::dimmed(k, " (+"@ + text::dec((lines.len() - 1) as nat) + " more lines)"@)
    } else {
        ""@
    };
    let reactions = deduped(m.reactions);
    let glyphs = if reactions.len() > 0 {
        "  "@ + ui::dimmed(k, text::joined(reactions, " "@))
    } else {
        ""@
    };
    prefix + branch + " "@ + ui::whom(k, "#"@ + m.id) + " "@ + ui::whom(k, m.from) + ui::dimmed(
        k,
        " → "@ + m.to,
    ) + time + " "@ + ui::plained(k, turns::first_line(m.body)) + more + tag_text(k, m.tags)
        + glyphs
}

/// A message and all that hangs off it, to a depth of `depth`.
pub open spec fn branch_lines(
    k: Skin,
    v: Seq<MsgView>,
    i: int,
    prefix: Seq<char>,
    last: bool,
    first: bool,
    depth: nat,
) -> Seq<Seq<char>>
    decreases depth, 0nat,
{
    if depth == 0 {
        seq![]
    } else {
        let ks = kids(v, v[i].id, v.len());
        let next = if last {
            prefix + "   "@
        } else {
            prefix + "│  "@
        };
        seq![message_line(k, v[i], prefix, last, first)] + twigs(
            k,
            v,
            ks,
            ks.len(),
            next,
            (depth - 1) as nat,
        )
    }
}

/// The first `n` of the answers in `ks`, each with what hangs off it.
pub open spec fn twigs(
    k: Skin,
    v: Seq<MsgView>,
    ks: Seq<int>,
    n: nat,
    prefix: Seq<char>,
    depth: nat,
) -> Seq<Seq<char>>
    decreases depth, n + 1,
{
    if n == 0 {
        seq![]
    } else {
        twigs(k, v, ks, (n - 1) as nat, prefix, depth) + branch_lines(
            k,
            v,
            ks[n - 1],
            prefix,
            n == ks.len(),
            false,
            depth,
        )
    }
}

/// The trees of the first `n` roots.
pub open spec fn trees(k: Skin, v: Seq<MsgView>, rs: Seq<int>, n: nat) -> Seq<Seq<char>>
    decreases n,
{
    if n == 0 {
        seq![]
    } else {
        trees(k, v, rs, (n - 1) as nat) + branch_lines(
            k,
            v,
            rs[n - 1],
            ""@,
            true,
            n == 1,
            v.len(),
        )
    }
}

/// The log as a tree: first a line for each answer to something unseen, then
/// every root with what hangs off it.
pub open spec fn tree_lines(
    k: Skin,
    batch: Seq<Json>,
    roster: Seq<(Seq<char>, Seq<u8>)>,
) -> Seq<Seq<char>> {
    let v = gathered_all(batch, roster);
    let rs = roots(v, v.len());
    orphan_lines(k, v, v.len()) + trees(k, v, rs, rs.len())
}

fn find_in(v: &Vec<Msg>, id: &str) -> (r: Option<usize>)
    ensures
        match r {
            Some(i) => find(msgs(v@), id@) == Some(i as nat) && i < v@.len(),
            None => find(msgs(v@), id@) is None,
        },
{
    let ghost all = msgs(v@);
    let mut i: usize = 0;
    assert(all.take(0) =~= Seq::<MsgView>::empty());
    while i < v.len()
        invariant
            i <= v.len(),
            all == msgs(v@),
            find(all.take(i as int), id@) is None,
        decreases v.len() - i,
    {
        assert(all.take(i + 1).drop_last() =~= all.take(i as int));
        assert(all.take(i + 1).last() == v@[i as int]@);
        if text::same(v[i].id.as_str(), id) {
            proof {
                lemma_find_stays(all, id@, (i + 1) as nat);
            }
            return Some(i);
        }
        i = i + 1;
    }
    assert(all.take(i as int) =~= all);
    None
}

proof fn lemma_find_stays(v: Seq<MsgView>, id: Seq<char>, n: nat)
    requires
        n <= v.len(),
        find(v.take(n as int), id) is Some,
    ensures
        find(v, id) == find(v.take(n as int), id),
    decreases v.len() - n,
{
    if n < v.len() {
        assert(v.take(n as int + 1).drop_last() =~= v.take(n as int));
        lemma_find_stays(v, id, n + 1);
    } else {
        assert(v.take(n as int) =~= v);
    }
}

fn texts_of(v: &Vec<Json>) -> (out: Vec<String>)
    ensures
        text::texts(out@) == texts_in(v@),
{
    let mut out = text::none();
    let mut i: usize = 0;
    assert(v@.take(0) =~= Seq::<Json>::empty());
    assert(text::texts(out@) =~= Seq::<Seq<char>>::empty());
    while i < v.len()
        invariant
            i <= v.len(),
            text::texts(out@) == texts_in(v@.take(i as int)),
        decreases v.len() - i,
    {
        assert(v@.take(i + 1).drop_last() =~= v@.take(i as int));
        if let Some(t) = v[i].as_str() {
            text::put(&mut out, t);
        }
        i = i + 1;
    }
    assert(v@.take(i as int) =~= v@);
    out
}

fn message_from(e: &Json, eff: &Json, roster: &Roster) -> (r: Msg)
    requires
        *eff == agent::value_at(*e, "effect"@),
    ensures
        r@ == message_in(*e, roster@),
{
    let id = match eff.text("id") {
        Some(i) => i,
        None => String::from_str("b").concat(
            text::number(scroll::number_or_0(e, "block")).as_str(),
        ),
    };
    let to = if eff.is_set("to") {
        scroll::name_of(eff, "to", roster)
    } else {
        "litter".to_owned()
    };
    let tags = match eff.items("tags") {
        Some(v) => texts_of(v),
        None => text::none(),
    };
    let r = Msg {
        id,
        from: scroll::name_of(eff, "from", roster),
        to,
        body: eff.words("body"),
        parent: eff.text("parent"),
        tags,
        at: e.num("at"),
        reactions: text::none(),
    };
    assert(r@.reactions =~= Seq::<Seq<char>>::empty());
    r
}

fn reaction_of(eff: &Json, roster: &Roster) -> (r: String)
    ensures
        r@ == reaction_in(*eff, roster@),
{
    let emoji = scroll::word_or(eff, "emoji", "·");
    if emoji.as_str().unicode_len() == 1 {
        emoji.concat(" ").concat(scroll::name_of(eff, "who", roster).as_str())
    } else {
        emoji
    }
}

fn react(v: &mut Vec<Msg>, i: usize, what: &str)
    requires
        i < old(v).len(),
    ensures
        msgs(final(v)@) == msgs(old(v)@).update(
            i as int,
            MsgView {
                reactions: msgs(old(v)@)[i as int].reactions.push(what@),
                ..msgs(old(v)@)[i as int]
            },
        ),
{
    let ghost was = v@;
    let mut m = v.remove(i);
    text::put(&mut m.reactions, what);
    v.insert(i, m);
    assert(msgs(v@) =~= msgs(was).update(
        i as int,
        MsgView {
            reactions: msgs(was)[i as int].reactions.push(what@),
            ..msgs(was)[i as int]
        },
    ));
}

fn gather(v: &mut Vec<Msg>, e: &Json, roster: &Roster)
    ensures
        msgs(final(v)@) == gathered(msgs(old(v)@), *e, roster@),
{
    let none = Json::Null;
    let eff = match e.get("effect") {
        Some(x) => x,
        None => &none,
    };
    let kind = eff.words("t");
    let ghost was = msgs(v@);
    if text::same(kind.as_str(), "said") || text::same(kind.as_str(), "message") {
        let m = message_from(e, eff, roster);
        let ghost mv = m@;
        match find_in(v, m.id.as_str()) {
            Some(i) => {
                v.set(i, m);
                assert(msgs(v@) =~= was.update(i as int, mv));
            },
            None => {
                v.push(m);
                assert(msgs(v@) =~= was.push(mv));
            },
        }
        return;
    }
    if text::same(kind.as_str(), "reacted") {
        let target = eff.words("target");
        if let Some(i) = find_in(v, target.as_str()) {
            let what = reaction_of(eff, roster);
            react(v, i, what.as_str());
        }
    }
}

fn dedupe(v: &Vec<String>) -> (out: Vec<String>)
    ensures
        text::texts(out@) == deduped(text::texts(v@)),
{
    let ghost all = text::texts(v@);
    let mut out = text::none();
    let mut i: usize = 0;
    assert(all.take(0) =~= Seq::<Seq<char>>::empty());
    assert(text::texts(out@) =~= Seq::<Seq<char>>::empty());
    while i < v.len()
        invariant
            i <= v.len(),
            all == text::texts(v@),
            text::texts(out@) == deduped(all.take(i as int)),
        decreases v.len() - i,
    {
        assert(all.take(i + 1).drop_last() =~= all.take(i as int));
        assert(all.take(i + 1).last() == v@[i as int]@);
        let n: usize = out.len();
        assert(text::texts(out@).len() == n);
        let repeats = if n > 0 {
            assert(text::texts(out@).last() == out@[n - 1]@);
            text::same(out[n - 1].as_str(), v[i].as_str())
        } else {
            false
        };
        if !repeats {
            text::put(&mut out, v[i].as_str());
        }
        i = i + 1;
    }
    assert(all.take(i as int) =~= all);
    out
}

fn tags_of(k: &Skin, tags: &Vec<String>) -> (r: String)
    ensures
        r@ == tag_text(*k, text::texts(tags@)),
{
    let ghost all = text::texts(tags@);
    let mut r = "".to_owned();
    let mut i: usize = 0;
    assert(all.take(0) =~= Seq::<Seq<char>>::empty());
    while i < tags.len()
        invariant
            i <= tags.len(),
            all == text::texts(tags@),
            r@ == tag_text(*k, all.take(i as int)),
        decreases tags.len() - i,
    {
        assert(all.take(i + 1).drop_last() =~= all.take(i as int));
        assert(all.take(i + 1).last() == tags@[i as int]@);
        let words = String::from_str(" #").concat(tags[i].as_str());
        r.append(ui::dim(k, words.as_str()).as_str());
        i = i + 1;
    }
    assert(all.take(i as int) =~= all);
    r
}

fn line_of(k: &Skin, m: &Msg, prefix: &str, last: bool, first: bool) -> (r: String)
    ensures
        r@ == message_line(*k, m@, prefix@, last, first),
{
    let branch = if first {
        ""
    } else if last {
        "└─"
    } else {
        "├─"
    };
    let time = match m.at {
        Some(t) => {
            let words = String::from_str(" ").concat(figures::clock(t).as_str());
            ui::dim(k, words.as_str())
        },
        None => "".to_owned(),
    };
    let lines = text::lines_of(m.body.as_str());
    assert(lines@.len() == text::texts(lines@).len());
    let more = if lines.len() > 1 {
        let words = String::from_str(" (+").concat(
            text::number((lines.len() - 1) as u64).as_str(),
        ).concat(" more lines)");
        ui::dim(k, words.as_str())
    } else {
        "".to_owned()
    };
    let reactions = dedupe(&m.reactions);
    assert(reactions@.len() == text::texts(reactions@).len());
    let glyphs = if reactions.len() > 0 {
        let words = text::join(&reactions, " ");
        String::from_str("  ").concat(ui::dim(k, words.as_str()).as_str())
    } else {
        "".to_owned()
    };
    let name = String::from_str("#").concat(m.id.as_str());
    let to = String::from_str(" → ").concat(m.to.as_str());
    prefix.to_owned().concat(branch).concat(" ").concat(
        ui::who(k, name.as_str()).as_str(),
    ).concat(" ").concat(ui::who(k, m.from.as_str()).as_str()).concat(
        ui::dim(k, to.as_str()).as_str(),
    ).concat(time.as_str()).concat(" ").concat(
        ui::plain(k, turns::first_line_of(m.body.as_str()).as_str()).as_str(),
    ).concat(more.as_str()).concat(tags_of(k, &m.tags).as_str()).concat(glyphs.as_str())
}

fn kids_of(v: &Vec<Msg>, id: &str) -> (out: Vec<usize>)
    ensures
        agent::index_view(out@) == kids(msgs(v@), id@, v@.len()),
        agent::within(out@, v@.len()),
{
    let ghost all = msgs(v@);
    let mut out: Vec<usize> = Vec::new();
    let mut i: usize = 0;
    assert(agent::index_view(out@) =~= Seq::<int>::empty());
    while i < v.len()
        invariant
            i <= v.len(),
            all == msgs(v@),
            agent::index_view(out@) == kids(all, id@, i as nat),
            agent::within(out@, v@.len()),
        decreases v.len() - i,
    {
        let ghost was = agent::index_view(out@);
        assert(all[i as int] == v@[i as int]@);
        let answers = match &v[i].parent {
            Some(p) => text::same(p.as_str(), id),
            None => false,
        };
        if answers {
            out.push(i);
            assert(agent::index_view(out@) =~= was.push(i as int));
        }
        i = i + 1;
    }
    out
}

fn walk(
    k: &Skin,
    v: &Vec<Msg>,
    i: usize,
    prefix: &str,
    last: bool,
    first: bool,
    depth: usize,
) -> (out: Vec<String>)
    requires
        i < v.len(),
    ensures
        text::texts(out@) == branch_lines(
            *k,
            msgs(v@),
            i as int,
            prefix@,
            last,
            first,
            depth as nat,
        ),
    decreases depth,
{
    let mut out = text::none();
    assert(text::texts(out@) =~= Seq::<Seq<char>>::empty());
    if depth == 0 {
        return out;
    }
    let ghost all = msgs(v@);
    let line = line_of(k, &v[i], prefix, last, first);
    text::put(&mut out, line.as_str());
    assert(text::texts(out@) =~= seq![line@]);
    let ks = kids_of(v, v[i].id.as_str());
    let ghost idx = agent::index_view(ks@);
    let next = if last {
        prefix.to_owned().concat("   ")
    } else {
        prefix.to_owned().concat("│  ")
    };
    let mut j: usize = 0;
    assert(seq![line@] + twigs(*k, all, idx, 0, next@, (depth - 1) as nat) =~= seq![line@]);
    while j < ks.len()
        invariant
            j <= ks.len(),
            depth > 0,
            all == msgs(v@),
            idx == agent::index_view(ks@),
            agent::within(ks@, v@.len()),
            text::texts(out@) == seq![line@] + twigs(
                *k,
                all,
                idx,
                j as nat,
                next@,
                (depth - 1) as nat,
            ),
        decreases ks.len() - j,
    {
        assert(ks@[j as int] < v@.len());
        assert(idx[j as int] == ks@[j as int]);
        let ghost was = text::texts(out@);
        let ghost before = twigs(*k, all, idx, j as nat, next@, (depth - 1) as nat);
        let mut more = walk(
            k,
            v,
            ks[j],
            next.as_str(),
            j + 1 == ks.len(),
            false,
            depth - 1,
        );
        let ghost these = text::texts(more@);
        out.append(&mut more);
        assert(text::texts(out@) =~= was + these);
        assert(seq![line@] + before + these =~= seq![line@] + (before + these));
        j = j + 1;
    }
    out
}

fn orphans(k: &Skin, v: &Vec<Msg>) -> (out: Vec<String>)
    ensures
        text::texts(out@) == orphan_lines(*k, msgs(v@), v@.len()),
{
    let ghost all = msgs(v@);
    let mut out = text::none();
    let mut i: usize = 0;
    assert(text::texts(out@) =~= Seq::<Seq<char>>::empty());
    while i < v.len()
        invariant
            i <= v.len(),
            all == msgs(v@),
            text::texts(out@) == orphan_lines(*k, all, i as nat),
        decreases v.len() - i,
    {
        assert(all[i as int] == v@[i as int]@);
        if let Some(p) = &v[i].parent {
            if find_in(v, p.as_str()).is_none() {
                let words = String::from_str("… #").concat(p.as_str()).concat(
                    " (not in this node's window)",
                );
                let line = String::from_str("  ").concat(ui::dim(k, words.as_str()).as_str());
                text::put(&mut out, line.as_str());
            }
        }
        i = i + 1;
    }
    out
}

fn roots_of(v: &Vec<Msg>) -> (out: Vec<usize>)
    ensures
        agent::index_view(out@) == roots(msgs(v@), v@.len()),
        agent::within(out@, v@.len()),
{
    let ghost all = msgs(v@);
    let mut out: Vec<usize> = Vec::new();
    let mut i: usize = 0;
    assert(agent::index_view(out@) =~= Seq::<int>::empty());
    while i < v.len()
        invariant
            i <= v.len(),
            all == msgs(v@),
            agent::index_view(out@) == roots(all, i as nat),
            agent::within(out@, v@.len()),
        decreases v.len() - i,
    {
        let ghost was = agent::index_view(out@);
        assert(all[i as int] == v@[i as int]@);
        let root = match &v[i].parent {
            Some(p) => find_in(v, p.as_str()).is_none(),
            None => true,
        };
        if root {
            out.push(i);
            assert(agent::index_view(out@) =~= was.push(i as int));
        }
        i = i + 1;
    }
    out
}

/// The conversation log as a tree. Only speech is threaded; task transitions,
/// stats and everything else are skipped. An answer to something this window
/// does not hold is a root: better a rooted orphan than a silently dropped
/// branch.
pub fn log_tree(k: &Skin, batch: &Vec<Json>, roster: &Roster) -> (out: Vec<String>)
    ensures
        text::texts(out@) == tree_lines(*k, batch@, roster@),
{
    let mut v: Vec<Msg> = Vec::new();
    let mut i: usize = 0;
    assert(batch@.take(0) =~= Seq::<Json>::empty());
    assert(msgs(v@) =~= Seq::<MsgView>::empty());
    while i < batch.len()
        invariant
            i <= batch.len(),
            msgs(v@) == gathered_all(batch@.take(i as int), roster@),
        decreases batch.len() - i,
    {
        assert(batch@.take(i + 1).drop_last() =~= batch@.take(i as int));
        gather(&mut v, &batch[i], roster);
        i = i + 1;
    }
    assert(batch@.take(i as int) =~= batch@);
    let ghost all = msgs(v@);
    assert(all.len() == v@.len());
    let mut out = orphans(k, &v);
    let ghost top = text::texts(out@);
    let rs = roots_of(&v);
    let ghost idx = agent::index_view(rs@);
    let mut j: usize = 0;
    assert(top + trees(*k, all, idx, 0) =~= top);
    while j < rs.len()
        invariant
            j <= rs.len(),
            all == msgs(v@),
            idx == agent::index_view(rs@),
            agent::within(rs@, v@.len()),
            text::texts(out@) == top + trees(*k, all, idx, j as nat),
        decreases rs.len() - j,
    {
        assert(rs@[j as int] < v@.len());
        assert(idx[j as int] == rs@[j as int]);
        let ghost was = text::texts(out@);
        let ghost before = trees(*k, all, idx, j as nat);
        let mut more = walk(k, &v, rs[j], "", true, j == 0, v.len());
        let ghost these = text::texts(more@);
        out.append(&mut more);
        assert(text::texts(out@) =~= was + these);
        assert(top + before + these =~= top + (before + these));
        j = j + 1;
    }
    out
}

// ---------------------------------------------------------------------
// Nothing is dropped
// ---------------------------------------------------------------------

proof fn lemma_find(v: Seq<MsgView>, id: Seq<char>)
    ensures
        find(v, id) matches Some(i) ==> i < v.len() && v[i as int].id == id,
    decreases v.len(),
{
    if v.len() > 0 {
        lemma_find(v.drop_last(), id);
    }
}

proof fn lemma_roots(v: Seq<MsgView>, n: nat, i: int)
    requires
        0 <= i < n <= v.len(),
        is_root(v, i),
    ensures
        roots(v, n).contains(i),
    decreases n,
{
    if i == n - 1 {
        let r = roots(v, n);
        assert(r[r.len() - 1] == i);
    } else {
        lemma_roots(v, (n - 1) as nat, i);
        let before = roots(v, (n - 1) as nat);
        let j = choose|j: int| 0 <= j < before.len() && before[j] == i;
        assert(roots(v, n)[j] == i);
    }
}

proof fn lemma_kids(v: Seq<MsgView>, id: Seq<char>, n: nat, i: int)
    requires
        0 <= i < n <= v.len(),
        v[i].parent == Some(id),
    ensures
        kids(v, id, n).contains(i),
    decreases n,
{
    if i == n - 1 {
        let r = kids(v, id, n);
        assert(r[r.len() - 1] == i);
    } else {
        lemma_kids(v, id, (n - 1) as nat, i);
        let before = kids(v, id, (n - 1) as nat);
        let j = choose|j: int| 0 <= j < before.len() && before[j] == i;
        assert(kids(v, id, n)[j] == i);
    }
}

/// Better a rooted orphan than a dropped branch: every message is a root, or
/// hangs off another message of the window.
pub proof fn every_message_hangs_somewhere(v: Seq<MsgView>, i: int)
    requires
        0 <= i < v.len(),
    ensures
        roots(v, v.len()).contains(i) || exists|p: int|
            0 <= p < v.len() && kids(v, (#[trigger] v[p]).id, v.len()).contains(i),
{
    if is_root(v, i) {
        lemma_roots(v, v.len(), i);
    } else {
        let id = v[i].parent->0;
        lemma_find(v, id);
        let p = find(v, id)->0 as int;
        assert(v[p].id == id);
        lemma_kids(v, id, v.len(), i);
    }
}

// ---------------------------------------------------------------------
// No branch is cut
// ---------------------------------------------------------------------

/// No two messages have one id.
pub open spec fn ids_differ(v: Seq<MsgView>) -> bool {
    forall|a: int, b: int|
        0 <= a < v.len() && 0 <= b < v.len() && (#[trigger] v[a]).id == (#[trigger] v[b]).id ==> a
            == b
}

proof fn lemma_found(v: Seq<MsgView>, i: int)
    requires
        0 <= i < v.len(),
    ensures
        find(v, v[i].id) is Some,
    decreases v.len(),
{
    if v.last().id != v[i].id {
        assert(v.drop_last()[i] == v[i]);
        lemma_found(v.drop_last(), i);
    }
}

proof fn lemma_one_gathered(v: Seq<MsgView>, e: Json, roster: Seq<(Seq<char>, Seq<u8>)>)
    requires
        ids_differ(v),
    ensures
        ids_differ(gathered(v, e, roster)),
{
    let m = message_in(e, roster);
    let w = gathered(v, e, roster);
    lemma_find(v, m.id);
    lemma_find(v, json::words_at(agent::value_at(e, "effect"@), "target"@));
    assert forall|a: int, b: int|
        0 <= a < w.len() && 0 <= b < w.len() && (#[trigger] w[a]).id == (#[trigger] w[b]).id implies a
        == b by {
        if w.len() > v.len() && a < v.len() {
            lemma_found(v, a);
        }
        if w.len() > v.len() && b < v.len() {
            lemma_found(v, b);
        }
    }
}

proof fn lemma_gathered(batch: Seq<Json>, roster: Seq<(Seq<char>, Seq<u8>)>)
    ensures
        ids_differ(gathered_all(batch, roster)),
    decreases batch.len(),
{
    if batch.len() > 0 {
        lemma_gathered(batch.drop_last(), roster);
        lemma_one_gathered(
            gathered_all(batch.drop_last(), roster),
            batch.last(),
            roster,
        );
    }
}

/// A way down from a root: each message on it answers the one before.
pub open spec fn is_way(v: Seq<MsgView>, way: Seq<int>) -> bool {
    &&& way.len() > 0
    &&& forall|j: int| 0 <= j < way.len() ==> 0 <= #[trigger] way[j] < v.len()
    &&& is_root(v, way[0])
    &&& forall|j: int|
        0 < j < way.len() ==> v[#[trigger] way[j]].parent == Some(v[way[j - 1]].id)
    &&& way.no_duplicates()
}

proof fn lemma_way_fits(v: Seq<MsgView>, way: Seq<int>)
    requires
        is_way(v, way),
    ensures
        way.len() <= v.len(),
{
    let all = vstd::set_lib::set_int_range(0, v.len() as int);
    vstd::set_lib::lemma_int_range(0, v.len() as int);
    way.unique_seq_to_set();
    assert(way.to_set().subset_of(all));
    vstd::set_lib::lemma_len_subset(way.to_set(), all);
}

proof fn lemma_way_on(v: Seq<MsgView>, way: Seq<int>, i: int)
    requires
        ids_differ(v),
        is_way(v, way),
        0 <= i < v.len(),
        v[i].parent == Some(v[way.last()].id),
    ensures
        is_way(v, way.push(i)),
{
    let more = way.push(i);
    lemma_found(v, way.last());
    assert forall|a: int, b: int| 0 <= a < more.len() && 0 <= b < more.len() && a != b implies more[a]
        != more[b] by {
        let (lo, hi) = if a < b {
            (a, b)
        } else {
            (b, a)
        };
        if hi == way.len() && more[lo] == i {
            assert(lo > 0);
            assert(way[lo - 1] == way.last());
        }
    }
    assert forall|j: int| 0 < j < more.len() implies v[#[trigger] more[j]].parent == Some(
        v[more[j - 1]].id,
    ) by {
        if j < way.len() {
            assert(more[j] == way[j]);
            assert(more[j - 1] == way[j - 1]);
        }
    }
    assert(more[0] == way[0]);
}

proof fn lemma_kids_answer(v: Seq<MsgView>, id: Seq<char>, n: nat)
    requires
        n <= v.len(),
    ensures
        forall|j: int|
            0 <= j < kids(v, id, n).len() ==> 0 <= #[trigger] kids(v, id, n)[j] < n && v[kids(
                v,
                id,
                n,
            )[j]].parent == Some(id),
    decreases n,
{
    if n > 0 {
        lemma_kids_answer(v, id, (n - 1) as nat);
    }
}

proof fn lemma_roots_are(v: Seq<MsgView>, n: nat)
    requires
        n <= v.len(),
    ensures
        forall|j: int|
            0 <= j < roots(v, n).len() ==> 0 <= #[trigger] roots(v, n)[j] < n && is_root(
                v,
                roots(v, n)[j],
            ),
    decreases n,
{
    if n > 0 {
        lemma_roots_are(v, (n - 1) as nat);
        let before = roots(v, (n - 1) as nat);
        assert forall|j: int| 0 <= j < roots(v, n).len() implies 0 <= #[trigger] roots(v, n)[j] < n
            && is_root(v, roots(v, n)[j]) by {
            if j < before.len() {
                assert(roots(v, n)[j] == before[j]);
            }
        }
    }
}

proof fn lemma_deep_branch(
    k: Skin,
    v: Seq<MsgView>,
    way: Seq<int>,
    prefix: Seq<char>,
    last: bool,
    first: bool,
    a: nat,
    b: nat,
)
    requires
        ids_differ(v),
        is_way(v, way),
        a + way.len() > v.len(),
        b + way.len() > v.len(),
    ensures
        branch_lines(k, v, way.last(), prefix, last, first, a) == branch_lines(
            k,
            v,
            way.last(),
            prefix,
            last,
            first,
            b,
        ),
    decreases a, 0nat,
{
    lemma_way_fits(v, way);
    let ks = kids(v, v[way.last()].id, v.len());
    let next = if last {
        prefix + "   "@
    } else {
        prefix + "│  "@
    };
    lemma_deep_twigs(k, v, way, ks.len(), next, (a - 1) as nat, (b - 1) as nat);
}

proof fn lemma_deep_twigs(
    k: Skin,
    v: Seq<MsgView>,
    way: Seq<int>,
    n: nat,
    prefix: Seq<char>,
    a: nat,
    b: nat,
)
    requires
        ids_differ(v),
        is_way(v, way),
        n <= kids(v, v[way.last()].id, v.len()).len(),
        a + way.len() >= v.len(),
        b + way.len() >= v.len(),
    ensures
        twigs(k, v, kids(v, v[way.last()].id, v.len()), n, prefix, a) == twigs(
            k,
            v,
            kids(v, v[way.last()].id, v.len()),
            n,
            prefix,
            b,
        ),
    decreases a, n + 1,
{
    let id = v[way.last()].id;
    let ks = kids(v, id, v.len());
    if n > 0 {
        lemma_deep_twigs(k, v, way, (n - 1) as nat, prefix, a, b);
        lemma_kids_answer(v, id, v.len());
        let i = ks[n - 1];
        lemma_way_on(v, way, i);
        assert(way.push(i).last() == i);
        lemma_deep_branch(k, v, way.push(i), prefix, n == ks.len(), false, a, b);
    }
}

/// However deep a conversation goes, all of it is drawn: a root's tree, drawn as
/// deep as there are messages, is the same drawn deeper still.
pub proof fn no_branch_is_cut(
    k: Skin,
    batch: Seq<Json>,
    roster: Seq<(Seq<char>, Seq<u8>)>,
    j: int,
    first: bool,
    deeper: nat,
)
    requires
        0 <= j < roots(
            gathered_all(batch, roster),
            gathered_all(batch, roster).len(),
        ).len(),
        deeper >= gathered_all(batch, roster).len(),
    ensures
        ({
            let v = gathered_all(batch, roster);
            let r = roots(v, v.len())[j];
            branch_lines(k, v, r, ""@, true, first, v.len()) == branch_lines(
                k,
                v,
                r,
                ""@,
                true,
                first,
                deeper,
            )
        }),
{
    let v = gathered_all(batch, roster);
    lemma_gathered(batch, roster);
    lemma_roots_are(v, v.len());
    let way = seq![roots(v, v.len())[j]];
    assert(way.last() == roots(v, v.len())[j]);
    lemma_deep_branch(k, v, way, ""@, true, first, v.len(), deeper);
}

// ---------------------------------------------------------------------
// What the tree holds
// ---------------------------------------------------------------------

/// A message is found by its id: the first that has it.
pub proof fn a_message_is_found_by_its_id(v: Seq<MsgView>, id: Seq<char>)
    ensures
        match find(v, id) {
            Some(i) => i < v.len() && v[i as int].id == id && forall|k: int|
                0 <= k < i ==> (#[trigger] v[k]).id != id,
            None => forall|k: int| 0 <= k < v.len() ==> (#[trigger] v[k]).id != id,
        },
    decreases v.len(),
{
    if v.len() > 0 {
        let front = v.drop_last();
        a_message_is_found_by_its_id(front, id);
        match find(front, id) {
            Some(i) => {
                assert(front[i as int] == v[i as int]);
                assert forall|k: int| 0 <= k < i implies (#[trigger] v[k]).id != id by {
                    assert(front[k] == v[k]);
                }
            },
            None => {
                assert forall|k: int| 0 <= k < v.len() - 1 implies (#[trigger] v[k]).id != id by {
                    assert(front[k] == v[k]);
                }
            },
        }
    }
}

/// A message is taken as it was written: who wrote it, to whom, its words, what
/// it answers, its tags and when.
pub proof fn a_message_is_taken_as_written(e: Json, roster: Seq<(Seq<char>, Seq<u8>)>)
    ensures
        ({
            let eff = agent::value_at(e, "effect"@);
            let m = message_in(e, roster);
            &&& m.from == scroll::name_in(eff, "from"@, roster)
            &&& m.to == scroll::addressee(eff, roster)
            &&& m.body == json::words_at(eff, "body"@)
            &&& m.parent == json::text_at(eff, "parent"@)
            &&& m.at == json::num_at(e, "at"@)
            &&& m.tags == texts_in(json::items_at(eff, "tags"@))
            &&& json::text_at(eff, "id"@) matches Some(i) ==> m.id == i
            &&& m.reactions.len() == 0
        }),
{
}

/// What is heard adds one message, or changes the one it is about, and leaves
/// every other as it was.
pub proof fn what_is_heard_changes_one_message(
    v: Seq<MsgView>,
    e: Json,
    roster: Seq<(Seq<char>, Seq<u8>)>,
)
    ensures
        ({
            let eff = agent::value_at(e, "effect"@);
            let kind = json::words_at(eff, "t"@);
            let m = message_in(e, roster);
            let r = gathered(v, e, roster);
            &&& kind == "said"@ || kind == "message"@ ==> match find(v, m.id) {
                Some(i) => r.len() == v.len() && r[i as int] == m && forall|k: int|
                    0 <= k < v.len() && k != i ==> #[trigger] r[k] == v[k],
                None => r == v.push(m),
            }
            &&& kind != "said"@ && kind != "message"@ && kind != "reacted"@ ==> r == v
            &&& kind == "reacted"@ ==> r.len() == v.len() && forall|k: int|
                0 <= k < v.len() ==> (#[trigger] r[k]).id == v[k].id && r[k].body == v[k].body
                    && r[k].from == v[k].from && r[k].parent == v[k].parent && r[k].to == v[k].to
                    && r[k].tags == v[k].tags && r[k].at == v[k].at
        }),
{
    reveal_strlit("said");
    reveal_strlit("message");
    reveal_strlit("reacted");
    assert("said"@.len() == 4 && "message"@.len() == 7 && "reacted"@.len() == 7);
    assert("message"@[0] == 'm' && "reacted"@[0] == 'r');
    a_message_is_found_by_its_id(v, message_in(e, roster).id);
    let eff = agent::value_at(e, "effect"@);
    a_message_is_found_by_its_id(v, scroll::text_or(eff, "target"@, ""@));
}

/// The answers to a message are exactly those that name it, in order.
pub proof fn the_answers_to_a_message_hang_from_it(v: Seq<MsgView>, id: Seq<char>, n: nat, i: int)
    requires
        n <= v.len(),
    ensures
        kids(v, id, n).contains(i) <==> 0 <= i < n && v[i].parent == Some(id),
        forall|a: int, b: int|
            0 <= a < b < kids(v, id, n).len() ==> #[trigger] kids(v, id, n)[a] < #[trigger] kids(
                v,
                id,
                n,
            )[b],
        forall|a: int| 0 <= a < kids(v, id, n).len() ==> #[trigger] kids(v, id, n)[a] < n,
    decreases n,
{
    if n > 0 {
        let m = (n - 1) as nat;
        the_answers_to_a_message_hang_from_it(v, id, m, i);
        let before = kids(v, id, m);
        let all = kids(v, id, n);
        if v[n - 1].parent == Some(id) {
            assert(all[before.len() as int] == n - 1);
            if before.contains(i) {
                let k = choose|k: int| 0 <= k < before.len() && before[k] == i;
                assert(all[k] == i);
            }
            if all.contains(i) {
                let k = choose|k: int| 0 <= k < all.len() && all[k] == i;
                if k < before.len() {
                    assert(before[k] == i);
                }
            }
        }
    }
}

/// The trees begin with exactly the messages that answer none that is known.
pub proof fn a_tree_begins_with_what_answers_nothing(v: Seq<MsgView>, n: nat, i: int)
    requires
        n <= v.len(),
    ensures
        roots(v, n).contains(i) <==> 0 <= i < n && (v[i].parent is None || find(v, v[i].parent->0)
            is None),
        forall|a: int, b: int|
            0 <= a < b < roots(v, n).len() ==> #[trigger] roots(v, n)[a] < #[trigger] roots(
                v,
                n,
            )[b],
        forall|a: int| 0 <= a < roots(v, n).len() ==> #[trigger] roots(v, n)[a] < n,
    decreases n,
{
    if n > 0 {
        let m = (n - 1) as nat;
        a_tree_begins_with_what_answers_nothing(v, m, i);
        let before = roots(v, m);
        let all = roots(v, n);
        if is_root(v, n - 1) {
            assert(all[before.len() as int] == n - 1);
            if before.contains(i) {
                let k = choose|k: int| 0 <= k < before.len() && before[k] == i;
                assert(all[k] == i);
            }
            if all.contains(i) {
                let k = choose|k: int| 0 <= k < all.len() && all[k] == i;
                if k < before.len() {
                    assert(before[k] == i);
                }
            }
        }
    }
}

/// A run of the same reaction is shown once.
pub proof fn a_run_of_reactions_is_shown_once(v: Seq<Seq<char>>, r: Seq<char>)
    ensures
        deduped(v).len() <= v.len(),
        v.len() > 0 ==> deduped(v).len() > 0 && deduped(v).last() == v.last(),
        v.len() > 0 && v.last() == r ==> deduped(v.push(r)) == deduped(v),
        v.len() == 0 || v.last() != r ==> deduped(v.push(r)) == deduped(v).push(r),
    decreases v.len(),
{
    assert(v.push(r).drop_last() =~= v);
    if v.len() > 0 {
        a_run_of_reactions_is_shown_once(v.drop_last(), r);
    }
}

/// A message is shown with all its branch: itself first, then each answer with
/// its own.
pub proof fn a_branch_shows_its_message_first(
    k: Skin,
    v: Seq<MsgView>,
    i: int,
    prefix: Seq<char>,
    last: bool,
    first: bool,
    depth: nat,
)
    requires
        depth > 0,
    ensures
        branch_lines(k, v, i, prefix, last, first, depth)[0] == message_line(
            k,
            v[i],
            prefix,
            last,
            first,
        ),
        ({
            let ks = kids(v, v[i].id, v.len());
            branch_lines(k, v, i, prefix, last, first, depth).skip(1) == twigs(
                k,
                v,
                ks,
                ks.len(),
                if last {
                    prefix + "   "@
                } else {
                    prefix + "│  "@
                },
                (depth - 1) as nat,
            )
        }),
{
    let ks = kids(v, v[i].id, v.len());
    let next = if last {
        prefix + "   "@
    } else {
        prefix + "│  "@
    };
    let t = twigs(k, v, ks, ks.len(), next, (depth - 1) as nat);
    let b = branch_lines(k, v, i, prefix, last, first, depth);
    assert(b == seq![message_line(k, v[i], prefix, last, first)] + t);
    assert(b.skip(1) =~= t);
}

/// Every branch is shown, in order.
pub proof fn every_branch_is_shown(
    k: Skin,
    v: Seq<MsgView>,
    ks: Seq<int>,
    n: nat,
    prefix: Seq<char>,
    depth: nat,
)
    ensures
        twigs(k, v, ks, 0, prefix, depth).len() == 0,
        twigs(k, v, ks, n + 1, prefix, depth) == twigs(k, v, ks, n, prefix, depth) + branch_lines(
            k,
            v,
            ks[n as int],
            prefix,
            n + 1 == ks.len(),
            false,
            depth,
        ),
        trees(k, v, ks, 0).len() == 0,
        trees(k, v, ks, n + 1) == trees(k, v, ks, n) + branch_lines(
            k,
            v,
            ks[n as int],
            ""@,
            true,
            n == 0,
            v.len(),
        ),
{
}

/// A message is shown with its id, who wrote it, to whom, and its first
/// line.
pub proof fn a_message_is_shown_whole(
    k: Skin,
    m: MsgView,
    prefix: Seq<char>,
    last: bool,
    first: bool,
)
    ensures
        text::has(message_line(k, m, prefix, last, first), "#"@ + m.id),
        text::has(message_line(k, m, prefix, last, first), m.from),
        text::has(message_line(k, m, prefix, last, first), " → "@ + m.to),
        text::has(message_line(k, m, prefix, last, first), turns::first_line(m.body)),
        text::has(message_line(k, m, prefix, last, first), tag_text(k, m.tags)),
{
    let a = prefix;
    let b = (if first {
        ""@
    } else if last {
        "└─"@
    } else {
        "├─"@
    });
    let c = " "@;
    let d = ui::whom(k, "#"@ + m.id);
    let e = " "@;
    let f = ui::whom(k, m.from);
    let g = ui::dimmed(k, " → "@ + m.to);
    let h = (match m.at {
        Some(t) => ui::dimmed(k, " "@ + figures::clock_text(t)),
        None => ""@,
    });
    let i = " "@;
    let j = ui::plained(k, turns::first_line(m.body));
    let l = (if text::lines(m.body).len() > 1 {
        ui::dimmed(
            k,
            " (+"@ + text::dec((text::lines(m.body).len() - 1) as nat) + " more lines)"@,
        )
    } else {
        ""@
    });
    let n = tag_text(k, m.tags);
    let o = (if deduped(m.reactions).len() > 0 {
        "  "@ + ui::dimmed(k, text::joined(deduped(m.reactions), " "@))
    } else {
        ""@
    });
    let whole = a + b + c + d + e + f + g + h + i + j + l + n + o;
    assert(message_line(k, m, prefix, last, first) == whole);
    assert(text::has(whole, "#"@ + m.id)) by {
        text::lemma_has_self(d);
        text::lemma_has_right(a + b + c, d, d);
        text::lemma_has_left(a + b + c + d, e, d);
        text::lemma_has_left(a + b + c + d + e, f, d);
        text::lemma_has_left(a + b + c + d + e + f, g, d);
        text::lemma_has_left(a + b + c + d + e + f + g, h, d);
        text::lemma_has_left(a + b + c + d + e + f + g + h, i, d);
        text::lemma_has_left(a + b + c + d + e + f + g + h + i, j, d);
        text::lemma_has_left(a + b + c + d + e + f + g + h + i + j, l, d);
        text::lemma_has_left(a + b + c + d + e + f + g + h + i + j + l, n, d);
        text::lemma_has_left(a + b + c + d + e + f + g + h + i + j + l + n, o, d);
        ui::a_cat_is_shown_by_name(k, "#"@ + m.id);
        text::lemma_has_through(whole, d, "#"@ + m.id);
    }
    assert(text::has(whole, m.from)) by {
        text::lemma_has_self(f);
        text::lemma_has_right(a + b + c + d + e, f, f);
        text::lemma_has_left(a + b + c + d + e + f, g, f);
        text::lemma_has_left(a + b + c + d + e + f + g, h, f);
        text::lemma_has_left(a + b + c + d + e + f + g + h, i, f);
        text::lemma_has_left(a + b + c + d + e + f + g + h + i, j, f);
        text::lemma_has_left(a + b + c + d + e + f + g + h + i + j, l, f);
        text::lemma_has_left(a + b + c + d + e + f + g + h + i + j + l, n, f);
        text::lemma_has_left(a + b + c + d + e + f + g + h + i + j + l + n, o, f);
        ui::a_cat_is_shown_by_name(k, m.from);
        text::lemma_has_through(whole, f, m.from);
    }
    assert(text::has(whole, " → "@ + m.to)) by {
        text::lemma_has_self(g);
        text::lemma_has_right(a + b + c + d + e + f, g, g);
        text::lemma_has_left(a + b + c + d + e + f + g, h, g);
        text::lemma_has_left(a + b + c + d + e + f + g + h, i, g);
        text::lemma_has_left(a + b + c + d + e + f + g + h + i, j, g);
        text::lemma_has_left(a + b + c + d + e + f + g + h + i + j, l, g);
        text::lemma_has_left(a + b + c + d + e + f + g + h + i + j + l, n, g);
        text::lemma_has_left(a + b + c + d + e + f + g + h + i + j + l + n, o, g);
        ui::what_is_painted_is_shown(k, k.theme.smoke, " → "@ + m.to);
        text::lemma_has_through(whole, g, " → "@ + m.to);
    }
    assert(text::has(whole, turns::first_line(m.body))) by {
        text::lemma_has_self(j);
        text::lemma_has_right(a + b + c + d + e + f + g + h + i, j, j);
        text::lemma_has_left(a + b + c + d + e + f + g + h + i + j, l, j);
        text::lemma_has_left(a + b + c + d + e + f + g + h + i + j + l, n, j);
        text::lemma_has_left(a + b + c + d + e + f + g + h + i + j + l + n, o, j);
        ui::what_is_painted_is_shown(k, k.theme.paper, turns::first_line(m.body));
        text::lemma_has_through(whole, j, turns::first_line(m.body));
    }
    assert(text::has(whole, n)) by {
        text::lemma_has_self(n);
        text::lemma_has_right(a + b + c + d + e + f + g + h + i + j + l, n, n);
        text::lemma_has_left(a + b + c + d + e + f + g + h + i + j + l + n, o, n);
    }
}

/// Every tag of a message is shown, in order.
pub proof fn every_tag_is_shown(k: Skin, tags: Seq<Seq<char>>, t: Seq<char>)
    ensures
        tag_text(k, Seq::empty()) == ""@,
        tag_text(k, tags.push(t)) == tag_text(k, tags) + ui::dimmed(k, " #"@ + t),
{
    assert(tags.push(t).drop_last() =~= tags);
}

/// The texts of a list are taken in its order, and nothing else of it.
pub proof fn only_texts_are_tags(
    a: Seq<Json>,
    b: Seq<Json>,
    x: Json,
)
    ensures
        texts_in(a + b) == texts_in(a) + texts_in(b),
        texts_in(seq![x]) == (if json::as_text(x) is Some {
            seq![json::as_text(x)->0]
        } else {
            Seq::<Seq<char>>::empty()
        }),
        texts_in(Seq::<Json>::empty()).len() == 0,
    decreases b.len(),
{
    reveal_with_fuel(texts_in, 2);
    assert(seq![x].drop_last() =~= Seq::<Json>::empty());
    assert(texts_in(Seq::<Json>::empty()).len() == 0);
    if b.len() == 0 {
        assert(a + b =~= a);
        assert(texts_in(a + b) =~= texts_in(a) + texts_in(b));
    } else {
        let all = a + b;
        assert(all.drop_last() =~= a + b.drop_last());
        assert(all.last() == b.last());
        only_texts_are_tags(a, b.drop_last(), x);
        assert(texts_in(all) =~= texts_in(a) + texts_in(b));
    }
}

/// A reaction is kept with the message it is to, and changes no other; one to a
/// message that is not known changes nothing.
pub proof fn a_reaction_is_kept_with_its_message(
    v: Seq<MsgView>,
    e: Json,
    roster: Seq<(Seq<char>, Seq<u8>)>,
)
    requires
        json::words_at(agent::value_at(e, "effect"@), "t"@) == "reacted"@,
    ensures
        ({
            let eff = agent::value_at(e, "effect"@);
            let r = gathered(v, e, roster);
            match find(v, json::words_at(eff, "target"@)) {
                Some(i) => r[i as int].reactions == v[i as int].reactions.push(
                    reaction_in(eff, roster),
                ) && forall|k: int| 0 <= k < v.len() && k != i ==> #[trigger] r[k] == v[k],
                None => r == v,
            }
        }),
{
    reveal_strlit("said");
    reveal_strlit("message");
    reveal_strlit("reacted");
    assert("said"@.len() == 4 && "message"@.len() == 7 && "reacted"@.len() == 7);
    assert("message"@[0] == 'm' && "reacted"@[0] == 'r');
    a_message_is_found_by_its_id(v, json::words_at(agent::value_at(e, "effect"@), "target"@));
}

/// A reaction is shown as it was made, with whose it is where it is one glyph.
pub proof fn a_reaction_is_shown_as_made(eff: Json, roster: Seq<(Seq<char>, Seq<u8>)>)
    ensures
        text::starts(reaction_in(eff, roster), scroll::text_or(eff, "emoji"@, "·"@)),
        scroll::text_or(eff, "emoji"@, "·"@).len() == 1 ==> text::ends(
            reaction_in(eff, roster),
            scroll::name_in(eff, "who"@, roster),
        ),
        scroll::text_or(eff, "emoji"@, "·"@).len() != 1 ==> reaction_in(eff, roster)
            == scroll::text_or(eff, "emoji"@, "·"@),
{
    let m = scroll::text_or(eff, "emoji"@, "·"@);
    let w = scroll::name_in(eff, "who"@, roster);
    let r = reaction_in(eff, roster);
    assert(r.subrange(0, m.len() as int) =~= m);
    if m.len() == 1 {
        assert(r.subrange(r.len() - w.len(), r.len() as int) =~= w);
    }
}

} // verus!
