//! A cat that sleeps: its node runs, but no model is called, and whoever sends
//! it a direct message or tags its name is told so.

use crate::agent;
use crate::agent::{ChainCall, ChainView, Entry};
use crate::command;
use crate::common;
use crate::common::Roster;
use crate::json;
use crate::keys;
use crate::keys::Account;
use crate::text;
use vstd::prelude::*;
use vstd::string::*;

verus! {

/// What a sleeping cat answers.
pub open spec fn sleeping(name: Seq<char>) -> Seq<char> {
    "*"@ + name + " is currently asleep*"@
}

/// Whether one of the words is an `@name` tag for this account.
pub open spec fn tags(
    ws: Seq<Seq<char>>,
    me: Seq<u8>,
    roster: Seq<(Seq<char>, Seq<u8>)>,
) -> bool {
    exists|i: int| 0 <= i < ws.len() && is_tag_for(#[trigger] ws[i], me, roster)
}

pub open spec fn is_tag_for(
    word: Seq<char>,
    me: Seq<u8>,
    roster: Seq<(Seq<char>, Seq<u8>)>,
) -> bool {
    command::tag_of(word) matches Some(n) && common::account_named(roster, common::tag_name(n))
        == Some(me)
}

/// Whether an event is speech to this account: a direct message, or one that
/// tags it. A closing remark is not, and neither are its own words to all.
pub open spec fn calls_on(e: Entry, me: Seq<u8>, roster: Seq<(Seq<char>, Seq<u8>)>) -> bool {
    let t = json::text_at(e.effect, "t"@);
    &&& t == Some("said"@) || t == Some("message"@)
    &&& agent::wakes_me(e, keys::hexed(me))
    &&& (e.wakes matches Some(w) && w@ == keys::hexed(me)) || tags(
        text::words(json::words_at(e.effect, "body"@)),
        me,
        roster,
    )
}

/// A sleeping cat's answer to an event: to whoever spoke, wanting no answer,
/// and off the record where what it answers was.
pub open spec fn sleepy(
    e: Entry,
    name: Seq<char>,
    me: Seq<u8>,
    roster: Seq<(Seq<char>, Seq<u8>)>,
) -> Option<ChainView> {
    if calls_on(e, me, roster) {
        Some(
            ChainView::Say {
                to: match json::text_at(e.effect, "from"@) {
                    Some(h) => keys::account_in(h),
                    None => None,
                },
                body: sleeping(name),
                no_ack: true,
                off_record: json::flag_at(e.effect, "off_record"@),
            },
        )
    } else {
        None
    }
}

pub open spec fn call_view(o: Option<ChainCall>) -> Option<ChainView> {
    match o {
        Some(c) => Some(c@),
        None => None,
    }
}

fn is_tagged(body: &str, me: &Account, roster: &Roster) -> (r: bool)
    ensures
        r == tags(text::words(body@), me@, roster@),
{
    let ws = text::words_of(body);
    let ghost all = text::words(body@);
    let mut i: usize = 0;
    while i < ws.len()
        invariant
            i <= ws.len(),
            all == text::texts(ws@),
            all == text::words(body@),
            forall|j: int| 0 <= j < i ==> !is_tag_for(#[trigger] all[j], me@, roster@),
        decreases ws.len() - i,
    {
        assert(all[i as int] == ws@[i as int]@);
        if let Some(n) = command::tag_in(ws[i].as_str()) {
            if let Some(a) = roster.account(n.as_str()) {
                if keys::same_account(&a, me) {
                    assert(is_tag_for(all[i as int], me@, roster@));
                    return true;
                }
            }
        }
        i = i + 1;
    }
    false
}

/// What a sleeping cat answers to an event, where it is spoken to.
pub fn answer(e: &Entry, name: &str, me: &Account, roster: &Roster) -> (r: Option<ChainCall>)
    ensures
        call_view(r) == sleepy(*e, name@, me@, roster@),
{
    let speech = match e.effect.text("t") {
        Some(t) => text::same(t.as_str(), "said") || text::same(t.as_str(), "message"),
        None => false,
    };
    let hex = keys::to_hex(me);
    if !speech || !agent::wakes(e, hex.as_str()) {
        return None;
    }
    let direct = match &e.wakes {
        Some(w) => text::same(w.as_str(), hex.as_str()),
        None => false,
    };
    if !direct && !is_tagged(e.effect.words("body").as_str(), me, roster) {
        return None;
    }
    let to = match e.effect.text("from") {
        Some(h) => keys::from_hex(h.as_str()),
        None => None,
    };
    let body = "*".to_owned().concat(name).concat(" is currently asleep*");
    Some(ChainCall::Say { to, body, no_ack: true, off_record: e.effect.flag("off_record") })
}

/// Every direct message and every tag of its name that wakes a sleeping cat is
/// answered, with the same words each time; and no answer of a sleeping cat
/// wakes another, so two of them never answer each other.
pub proof fn a_sleeper_answers_once(
    e: Entry,
    name: Seq<char>,
    me: Seq<u8>,
    roster: Seq<(Seq<char>, Seq<u8>)>,
)
    ensures
        calls_on(e, me, roster) ==> (sleepy(e, name, me, roster) matches Some(
            ChainView::Say { to, body, no_ack, off_record },
        ) && body == sleeping(name) && no_ack),
        json::text_at(e.effect, "t"@) == Some("said"@) && json::flag_at(e.effect, "no_ack"@)
            ==> sleepy(e, name, me, roster) is None,
{
}

/// A cat that sleeps answers whoever calls on it, and only them: it tells that it
/// sleeps, by name, to the one who spoke, off the record where they were, and
/// asks for no answer.
pub proof fn whoever_calls_on_a_sleeper_is_answered(
    e: Entry,
    name: Seq<char>,
    me: Seq<u8>,
    roster: Seq<(Seq<char>, Seq<u8>)>,
    from: Seq<u8>,
)
    requires
        json::text_at(e.effect, "from"@) == Some(keys::hexed(from)),
        from.len() == 32,
    ensures
        calls_on(e, me, roster) ==> (sleepy(e, name, me, roster) matches Some(
            ChainView::Say { to, body, no_ack, off_record },
        ) && to == Some(from) && text::has(body, name) && text::has(body, " is currently asleep"@)
            && no_ack && off_record == json::flag_at(e.effect, "off_record"@)),
        !calls_on(e, me, roster) ==> sleepy(e, name, me, roster) is None,
{
    keys::hex_reads_back(from);
    let a = "*"@;
    let c = " is currently asleep*"@;
    let d = " is currently asleep"@;
    reveal_strlit(" is currently asleep*");
    reveal_strlit(" is currently asleep");
    assert(c.subrange(0, d.len() as int) =~= d);
    assert(text::occurs_at(c, d, 0));
    text::lemma_has_self(name);
    text::lemma_has_right(a, name, name);
    text::lemma_has_left(a + name, c, name);
    text::lemma_has_right(a + name, c, d);
}

/// A sleeper is called on by words and messages alone, where they wake it, and
/// either wake it by its own account or tag it by a name it goes by.
pub proof fn a_sleeper_is_called_on_by_name(
    e: Entry,
    me: Seq<u8>,
    roster: Seq<(Seq<char>, Seq<u8>)>,
)
    ensures
        calls_on(e, me, roster) ==> json::text_at(e.effect, "t"@) == Some("said"@) || json::text_at(
            e.effect,
            "t"@,
        ) == Some("message"@),
        (json::text_at(e.effect, "t"@) == Some("said"@) || json::text_at(e.effect, "t"@) == Some(
            "message"@,
        )) && agent::wakes_me(e, keys::hexed(me)) && (e.wakes matches Some(w) && w@ == keys::hexed(
            me,
        )) ==> calls_on(e, me, roster),
        (json::text_at(e.effect, "t"@) == Some("said"@) || json::text_at(e.effect, "t"@) == Some(
            "message"@,
        )) && agent::wakes_me(e, keys::hexed(me)) && (exists|i: int|
            0 <= i < text::words(json::words_at(e.effect, "body"@)).len() && is_tag_for(
                #[trigger] text::words(json::words_at(e.effect, "body"@))[i],
                me,
                roster,
            )) ==> calls_on(e, me, roster),
        calls_on(e, me, roster) ==> agent::wakes_me(e, keys::hexed(me)),
{
}

} // verus!
