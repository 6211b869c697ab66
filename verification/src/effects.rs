//! What the chain says happened, as readers of the log are told it.

use crate::common;
use crate::common::TaskId;
use crate::json;
use crate::json::{Json, Tree};
use crate::keys;
use crate::keys::Account;
use crate::text;
use vstd::prelude::*;
use vstd::string::*;

verus! {

/// One thing that happened on the chain.
pub enum Effect {
    Said {
        from: Account,
        to: Option<Account>,
        body: String,
        from_root: bool,
        no_ack: bool,
        off_record: bool,
    },
    Opened { who: Account, task: TaskId, text: String },
    Planned { who: Account, task: TaskId, count: u64 },
    Assigned { holder: Account, task: TaskId, what: String, expect: String },
    /// `directive` is the directive's name.
    Directed { holder: Account, task: TaskId, directive: String },
    Nudge { holder: Account, task: TaskId, remaining: u64, last: bool },
    /// `act` is the act's name.
    Record { who: Account, task: TaskId, act: String, text: String },
    /// `why` is the reason's name.
    Requeued { task: TaskId, was: Option<Account>, why: String },
    NudgeBudgetSpent { holder: Account, task: TaskId },
    Closed { task: TaskId, title: String, text: String, author: Account },
    Failed { task: TaskId },
    Rehomed { task: TaskId, was: Option<Account>, holder: Account },
    StandaloneArtifact { author: Account, id: u64, title: String, text: String },
    StatsReported { who: Account, turns: u64, tool_calls: u64, tokens: u64, ms: u64 },
    /// The newer report, which counts messages apart.
    StatsReported2 {
        who: Account,
        turns: u64,
        tool_calls: u64,
        messages: u64,
        tokens: u64,
        ms: u64,
    },
    /// `name`, `parent` and `artifact` are ids as they print.
    Message {
        name: String,
        from: Account,
        to: Option<Account>,
        body: String,
        parent: Option<String>,
        artifact: Option<String>,
        tags: Vec<String>,
        from_root: bool,
        no_ack: bool,
        off_record: bool,
    },
    Reacted { who: Account, target: String, emoji: String },
    Voted { who: Account, target: String, up: bool },
}

/// An account in hexadecimal, or `null`.
pub open spec fn account_or_null(o: Option<Account>) -> Tree {
    match o {
        Some(a) => Tree::Str(keys::hexed(a@)),
        None => Tree::Null,
    }
}

pub open spec fn hex_tree(a: Account) -> Tree {
    Tree::Str(keys::hexed(a@))
}

pub open spec fn task_tree(t: TaskId) -> Tree {
    Tree::Str(common::task_name(t))
}

/// What a reader of the log is told of an effect.
pub open spec fn effect_members(e: Effect) -> Seq<(Seq<char>, Tree)> {
    match e {
        Effect::Said { from, to, body, from_root, no_ack, off_record } => seq![
            ("t"@, Tree::Str("said"@)),
            ("from"@, hex_tree(from)),
            ("to"@, account_or_null(to)),
            ("body"@, Tree::Str(body@)),
            ("root"@, Tree::Bool(from_root)),
            ("no_ack"@, Tree::Bool(no_ack)),
            ("off_record"@, Tree::Bool(off_record)),
        ],
        Effect::Opened { who, task, text } => seq![
            ("t"@, Tree::Str("opened"@)),
            ("who"@, hex_tree(who)),
            ("task"@, task_tree(task)),
            ("text"@, Tree::Str(text@)),
        ],
        Effect::Planned { who, task, count } => seq![
            ("t"@, Tree::Str("planned"@)),
            ("who"@, hex_tree(who)),
            ("task"@, task_tree(task)),
            ("count"@, Tree::Num(count)),
        ],
        Effect::Assigned { holder, task, what, expect } => seq![
            ("t"@, Tree::Str("assigned"@)),
            ("to"@, hex_tree(holder)),
            ("task"@, task_tree(task)),
            ("what"@, Tree::Str(what@)),
            ("expect"@, Tree::Str(expect@)),
        ],
        Effect::Directed { holder, task, directive } => seq![
            ("t"@, Tree::Str("directed"@)),
            ("to"@, hex_tree(holder)),
            ("task"@, task_tree(task)),
            ("directive"@, Tree::Str(directive@)),
        ],
        Effect::Nudge { holder, task, remaining, last } => seq![
            ("t"@, Tree::Str("nudge"@)),
            ("to"@, hex_tree(holder)),
            ("task"@, task_tree(task)),
            ("remaining"@, Tree::Num(remaining)),
            ("last"@, Tree::Bool(last)),
        ],
        Effect::Record { who, task, act, text } => seq![
            ("t"@, Tree::Str("record"@)),
            ("who"@, hex_tree(who)),
            ("task"@, task_tree(task)),
            ("act"@, Tree::Str(act@)),
            ("text"@, Tree::Str(text@)),
        ],
        Effect::Requeued { task, was, why } => seq![
            ("t"@, Tree::Str("requeued"@)),
            ("task"@, task_tree(task)),
            ("from"@, account_or_null(was)),
            ("why"@, Tree::Str(why@)),
        ],
        Effect::NudgeBudgetSpent { holder, task } => seq![
            ("t"@, Tree::Str("budget_spent"@)),
            ("holder"@, hex_tree(holder)),
            ("task"@, task_tree(task)),
        ],
        Effect::Closed { task, title, text, author } => seq![
            ("t"@, Tree::Str("closed"@)),
            ("task"@, task_tree(task)),
            ("title"@, Tree::Str(title@)),
            ("body"@, Tree::Str(text@)),
            ("author"@, hex_tree(author)),
        ],
        Effect::Failed { task } => seq![
            ("t"@, Tree::Str("failed"@)),
            ("task"@, task_tree(task)),
        ],
        Effect::Rehomed { task, was, holder } => seq![
            ("t"@, Tree::Str("rehomed"@)),
            ("task"@, task_tree(task)),
            ("from"@, account_or_null(was)),
            ("to"@, hex_tree(holder)),
        ],
        Effect::StandaloneArtifact { author, id, title, text } => seq![
            ("t"@, Tree::Str("standalone_artifact"@)),
            ("author"@, hex_tree(author)),
            ("id"@, Tree::Num(id)),
            ("title"@, Tree::Str(title@)),
            ("body"@, Tree::Str(text@)),
        ],
        Effect::StatsReported { who, turns, tool_calls, tokens, ms } => seq![
            ("t"@, Tree::Str("stats_reported"@)),
            ("who"@, hex_tree(who)),
            ("turns"@, Tree::Num(turns)),
            ("tool_calls"@, Tree::Num(tool_calls)),
            ("tokens"@, Tree::Num(tokens)),
            ("ms"@, Tree::Num(ms)),
        ],
        Effect::StatsReported2 { who, turns, tool_calls, messages, tokens, ms } => seq![
            ("t"@, Tree::Str("stats_reported"@)),
            ("who"@, hex_tree(who)),
            ("turns"@, Tree::Num(turns)),
            ("tool_calls"@, Tree::Num(tool_calls)),
            ("messages"@, Tree::Num(messages)),
            ("tokens"@, Tree::Num(tokens)),
            ("ms"@, Tree::Num(ms)),
        ],
        Effect::Message {
            name,
            from,
            to,
            body,
            parent,
            artifact,
            tags,
            from_root,
            no_ack,
            off_record,
        } => seq![
            ("t"@, Tree::Str("message"@)),
            ("id"@, Tree::Str(name@)),
            ("from"@, hex_tree(from)),
            ("to"@, account_or_null(to)),
            ("body"@, Tree::Str(body@)),
            ("parent"@, json::text_or_null(text::text_view(parent))),
            ("artifact_id"@, json::text_or_null(text::text_view(artifact))),
            ("tags"@, Tree::List(json::str_trees(text::texts(tags@)))),
            ("root"@, Tree::Bool(from_root)),
            ("no_ack"@, Tree::Bool(no_ack)),
            ("off_record"@, Tree::Bool(off_record)),
        ],
        Effect::Reacted { who, target, emoji } => seq![
            ("t"@, Tree::Str("reacted"@)),
            ("who"@, hex_tree(who)),
            ("target"@, Tree::Str(target@)),
            ("emoji"@, Tree::Str(emoji@)),
        ],
        Effect::Voted { who, target, up } => seq![
            ("t"@, Tree::Str("voted"@)),
            ("who"@, hex_tree(who)),
            ("artifact"@, Tree::Str(target@)),
            ("up"@, Tree::Bool(up)),
        ],
    }
}

pub open spec fn effect_tree(e: Effect) -> Tree {
    Tree::Object(effect_members(e))
}

fn hex(a: &Account) -> (r: Json)
    ensures
        json::tree(r) == hex_tree(*a),
{
    Json::Str(keys::to_hex(a))
}

pub fn hex_or_null(o: &Option<Account>) -> (r: Json)
    ensures
        json::tree(r) == account_or_null(*o),
{
    match o {
        Some(a) => Json::Str(keys::to_hex(a)),
        None => Json::Null,
    }
}

/// A task's name: `t1`, or `t1.2` for a part of it.
pub fn task_text(t: TaskId) -> (r: String)
    ensures
        r@ == common::task_name(t),
{
    let head = "t".to_owned().concat(text::number(t.parent as u64).as_str());
    match t.part {
        None => head,
        Some(q) => head.concat(".").concat(text::number(q as u64).as_str()),
    }
}

fn task_json(t: TaskId) -> (r: Json)
    ensures
        json::tree(r) == task_tree(t),
{
    Json::Str(task_text(t))
}

fn start(kind: &str) -> (m: Vec<(String, Json)>)
    ensures
        json::tree_members(m@) == seq![("t"@, Tree::Str(kind@))],
{
    let mut m = json::members();
    json::member(&mut m, "t", json::string(kind));
    m
}

fn task_event(kind: &str, who_key: &str, who: &Account, task: TaskId) -> (m: Vec<(String, Json)>)
    ensures
        json::tree_members(m@) == seq![
            ("t"@, Tree::Str(kind@)),
            (who_key@, hex_tree(*who)),
            ("task"@, task_tree(task)),
        ],
{
    let mut m = start(kind);
    json::member(&mut m, who_key, hex(who));
    json::member(&mut m, "task", task_json(task));
    m
}

fn said_members(
    from: &Account,
    to: &Option<Account>,
    body: &String,
    from_root: bool,
    no_ack: bool,
    off_record: bool,
) -> (m: Vec<(String, Json)>)
    ensures
        json::tree_members(m@) == seq![
            ("t"@, Tree::Str("said"@)),
            ("from"@, hex_tree(*from)),
            ("to"@, account_or_null(*to)),
            ("body"@, Tree::Str(body@)),
            ("root"@, Tree::Bool(from_root)),
            ("no_ack"@, Tree::Bool(no_ack)),
            ("off_record"@, Tree::Bool(off_record)),
        ],
{
    let mut m = start("said");
    json::member(&mut m, "from", hex(from));
    json::member(&mut m, "to", hex_or_null(to));
    json::member(&mut m, "body", json::string(body.as_str()));
    json::member(&mut m, "root", Json::Bool(from_root));
    json::member(&mut m, "no_ack", Json::Bool(no_ack));
    json::member(&mut m, "off_record", Json::Bool(off_record));
    m
}

/// The first half of a message.
fn message_start(
    name: &String,
    from: &Account,
    to: &Option<Account>,
    body: &String,
    parent: &Option<String>,
) -> (m: Vec<(String, Json)>)
    ensures
        json::tree_members(m@) == seq![
            ("t"@, Tree::Str("message"@)),
            ("id"@, Tree::Str(name@)),
            ("from"@, hex_tree(*from)),
            ("to"@, account_or_null(*to)),
            ("body"@, Tree::Str(body@)),
            ("parent"@, json::text_or_null(text::text_view(*parent))),
        ],
{
    let mut m = start("message");
    json::member(&mut m, "id", json::string(name.as_str()));
    json::member(&mut m, "from", hex(from));
    json::member(&mut m, "to", hex_or_null(to));
    json::member(&mut m, "body", json::string(body.as_str()));
    json::member(&mut m, "parent", json::string_or_null(parent));
    m
}

/// The first half of a report.
fn stats_start(who: &Account, turns: u64, tool_calls: u64) -> (m: Vec<(String, Json)>)
    ensures
        json::tree_members(m@) == seq![
            ("t"@, Tree::Str("stats_reported"@)),
            ("who"@, hex_tree(*who)),
            ("turns"@, Tree::Num(turns)),
            ("tool_calls"@, Tree::Num(tool_calls)),
        ],
{
    let mut m = start("stats_reported");
    json::member(&mut m, "who", hex(who));
    json::member(&mut m, "turns", Json::Num(turns));
    json::member(&mut m, "tool_calls", Json::Num(tool_calls));
    m
}

#[verifier::rlimit(60)]
fn members_of(e: &Effect) -> (r: Vec<(String, Json)>)
    ensures
        json::tree_members(r@) == effect_members(*e),
{
    match e {
        Effect::Said { from, to, body, from_root, no_ack, off_record } => {
            said_members(from, to, body, *from_root, *no_ack, *off_record)
        },
        Effect::Opened { who, task, text } => {
            let mut m = task_event("opened", "who", who, *task);
            json::member(&mut m, "text", json::string(text.as_str()));
            m
        },
        Effect::Planned { who, task, count } => {
            let mut m = task_event("planned", "who", who, *task);
            json::member(&mut m, "count", Json::Num(*count));
            m
        },
        Effect::Assigned { holder, task, what, expect } => {
            let mut m = task_event("assigned", "to", holder, *task);
            json::member(&mut m, "what", json::string(what.as_str()));
            json::member(&mut m, "expect", json::string(expect.as_str()));
            m
        },
        Effect::Directed { holder, task, directive } => {
            let mut m = task_event("directed", "to", holder, *task);
            json::member(&mut m, "directive", json::string(directive.as_str()));
            m
        },
        Effect::Nudge { holder, task, remaining, last } => {
            let mut m = task_event("nudge", "to", holder, *task);
            json::member(&mut m, "remaining", Json::Num(*remaining));
            json::member(&mut m, "last", Json::Bool(*last));
            m
        },
        Effect::Record { who, task, act, text } => {
            let mut m = task_event("record", "who", who, *task);
            json::member(&mut m, "act", json::string(act.as_str()));
            json::member(&mut m, "text", json::string(text.as_str()));
            m
        },
        Effect::Requeued { task, was, why } => {
            let mut m = start("requeued");
            json::member(&mut m, "task", task_json(*task));
            json::member(&mut m, "from", hex_or_null(was));
            json::member(&mut m, "why", json::string(why.as_str()));
            m
        },
        Effect::NudgeBudgetSpent { holder, task } => task_event(
            "budget_spent",
            "holder",
            holder,
            *task,
        ),
        Effect::Closed { task, title, text, author } => {
            let mut m = start("closed");
            json::member(&mut m, "task", task_json(*task));
            json::member(&mut m, "title", json::string(title.as_str()));
            json::member(&mut m, "body", json::string(text.as_str()));
            json::member(&mut m, "author", hex(author));
            m
        },
        Effect::Failed { task } => {
            let mut m = start("failed");
            json::member(&mut m, "task", task_json(*task));
            m
        },
        Effect::Rehomed { task, was, holder } => {
            let mut m = start("rehomed");
            json::member(&mut m, "task", task_json(*task));
            json::member(&mut m, "from", hex_or_null(was));
            json::member(&mut m, "to", hex(holder));
            m
        },
        Effect::StandaloneArtifact { author, id, title, text } => {
            let mut m = start("standalone_artifact");
            json::member(&mut m, "author", hex(author));
            json::member(&mut m, "id", Json::Num(*id));
            json::member(&mut m, "title", json::string(title.as_str()));
            json::member(&mut m, "body", json::string(text.as_str()));
            m
        },
        Effect::StatsReported { who, turns, tool_calls, tokens, ms } => {
            let mut m = stats_start(who, *turns, *tool_calls);
            json::member(&mut m, "tokens", Json::Num(*tokens));
            json::member(&mut m, "ms", Json::Num(*ms));
            m
        },
        // The same `t`: one kind of event to readers, with `messages` there
        // when the reporter counted them.
        Effect::StatsReported2 { who, turns, tool_calls, messages, tokens, ms } => {
            let mut m = stats_start(who, *turns, *tool_calls);
            json::member(&mut m, "messages", Json::Num(*messages));
            json::member(&mut m, "tokens", Json::Num(*tokens));
            json::member(&mut m, "ms", Json::Num(*ms));
            m
        },
        Effect::Message {
            name,
            from,
            to,
            body,
            parent,
            artifact,
            tags,
            from_root,
            no_ack,
            off_record,
        } => {
            let mut m = message_start(name, from, to, body, parent);
            json::member(&mut m, "artifact_id", json::string_or_null(artifact));
            json::member(&mut m, "tags", json::strings(tags));
            json::member(&mut m, "root", Json::Bool(*from_root));
            json::member(&mut m, "no_ack", Json::Bool(*no_ack));
            json::member(&mut m, "off_record", Json::Bool(*off_record));
            m
        },
        Effect::Reacted { who, target, emoji } => {
            let mut m = start("reacted");
            json::member(&mut m, "who", hex(who));
            json::member(&mut m, "target", json::string(target.as_str()));
            json::member(&mut m, "emoji", json::string(emoji.as_str()));
            m
        },
        Effect::Voted { who, target, up } => {
            let mut m = start("voted");
            json::member(&mut m, "who", hex(who));
            json::member(&mut m, "artifact", json::string(target.as_str()));
            json::member(&mut m, "up", Json::Bool(*up));
            m
        },
    }
}

/// An effect as readers of the log are told it.
pub fn render(e: &Effect) -> (r: Json)
    ensures
        json::tree(r) == effect_tree(*e),
{
    Json::Object(members_of(e))
}

// ---------------------------------------------------------------------
// Waking
// ---------------------------------------------------------------------

/// Flagged as wanting no answer.
pub open spec fn unanswered(e: Effect) -> bool {
    match e {
        Effect::Said { no_ack, .. } => no_ack,
        Effect::Message { no_ack, .. } => no_ack,
        _ => false,
    }
}

/// Kept out of the blocks.
pub open spec fn unrecorded(e: Effect) -> bool {
    match e {
        Effect::Said { off_record, .. } => off_record,
        _ => false,
    }
}

/// Who an effect wakes: nobody, one account, or with `*` everyone. `wakes` and
/// `to` are what the chain says of it.
pub open spec fn woken(e: Effect, wakes: bool, to: Option<Account>) -> Option<Seq<char>> {
    if unanswered(e) || !wakes {
        None
    } else {
        match to {
            Some(a) => Some(keys::hexed(a@)),
            None => Some("*"@),
        }
    }
}

/// Who an effect wakes, as it goes into the log: `None` for what nobody's loop
/// should take a turn for, `"*"` for a broadcast.
///
/// What is said with `no_ack` is delivered, for it is in the log, but wakes no
/// one.
pub fn wake_target(e: &Effect, wakes: bool, to: &Option<Account>) -> (r: Option<String>)
    ensures
        text::text_view(r) == woken(*e, wakes, *to),
{
    let no_ack = match e {
        Effect::Said { no_ack, .. } => *no_ack,
        Effect::Message { no_ack, .. } => *no_ack,
        _ => false,
    };
    if no_ack || !wakes {
        return None;
    }
    match to {
        Some(a) => Some(keys::to_hex(a)),
        None => Some("*".to_owned()),
    }
}

/// Whether an effect stays out of the blocks.
pub fn is_unrecorded(e: &Effect) -> (r: bool)
    ensures
        r == unrecorded(*e),
{
    match e {
        Effect::Said { off_record, .. } => *off_record,
        _ => false,
    }
}

/// What is said with `no_ack` wakes no one, whoever it is for.
pub proof fn no_ack_wakes_no_one(e: Effect, wakes: bool, to: Option<Account>)
    requires
        unanswered(e),
    ensures
        woken(e, wakes, to) is None,
{
}

/// What was said is read from the log as it was said: by whom, to whom, and in
/// which words.
pub proof fn what_was_said_reads_back(e: Effect, j: Json)
    requires
        e is Said,
        json::tree(j) == effect_tree(e),
    ensures
        json::text_at(j, "t"@) == Some("said"@),
        e matches Effect::Said { from, to, body, from_root, no_ack, off_record } && {
            &&& json::text_at(j, "from"@) == Some(keys::hexed(from@))
            &&& json::text_at(j, "to"@) == (match to {
                Some(a) => Some(keys::hexed(a@)),
                None => None,
            })
            &&& json::text_at(j, "body"@) == Some(body@)
            &&& json::flag_at(j, "root"@) == from_root
            &&& json::flag_at(j, "no_ack"@) == no_ack
            &&& json::flag_at(j, "off_record"@) == off_record
        },
{
    reveal_strlit("t");
    reveal_strlit("from");
    reveal_strlit("to");
    reveal_strlit("body");
    reveal_strlit("root");
    reveal_strlit("no_ack");
    reveal_strlit("off_record");
    reveal_with_fuel(json::first_under, 9);
    json::values_read_as_built(j, "t"@);
    json::values_read_as_built(j, "from"@);
    json::values_read_as_built(j, "to"@);
    json::values_read_as_built(j, "body"@);
    json::values_read_as_built(j, "root"@);
    json::values_read_as_built(j, "no_ack"@);
    json::values_read_as_built(j, "off_record"@);
    assert("from"@[0] == 'f' && "body"@[0] == 'b' && "root"@[0] == 'r' && "no_ack"@[0] == 'n'
        && "off_record"@[0] == 'o');
    assert("t"@.len() == 1 && "to"@.len() == 2);
}

/// Whatever the chain says wakes someone wakes exactly whom the chain names, or
/// everyone where it names nobody; only what is said with `no_ack` is left out,
/// and what the chain wakes no one for.
pub proof fn whom_the_chain_names_is_woken(e: Effect, wakes: bool, to: Option<Account>)
    ensures
        !wakes ==> woken(e, wakes, to) is None,
        e matches Effect::Said { no_ack, .. } && no_ack ==> woken(e, wakes, to) is None,
        e matches Effect::Message { no_ack, .. } && no_ack ==> woken(e, wakes, to) is None,
        wakes && !(e matches Effect::Said { no_ack, .. } && no_ack) && !(e matches Effect::Message {
            no_ack,
            ..
        } && no_ack) ==> match to {
            Some(a) => woken(e, wakes, to) matches Some(name) && keys::unhexed(name) == Some(a@),
            None => woken(e, wakes, to) == Some("*"@),
        },
{
    match to {
        Some(a) => {
            keys::hex_reads_back(a@);
        },
        None => {},
    }
}

/// Only words said off the record stay out of the blocks.
pub proof fn only_words_off_the_record_are_left_out(e: Effect)
    ensures
        unrecorded(e) <==> (e matches Effect::Said { off_record, .. } && off_record),
{
}

// ---------------------------------------------------------------------
// What each effect is written as
// ---------------------------------------------------------------------

/// A task that was opened is written with who opened it, its name and its
/// text.
pub proof fn an_opened_task_reads_back(e: Effect, j: Json)
    requires
        e is Opened,
        json::tree(j) == effect_tree(e),
    ensures
        e matches Effect::Opened { who, task, text } && {
            &&& json::text_at(j, "t"@) == Some("opened"@)
            &&& json::text_at(j, "who"@) == Some(keys::hexed(who@))
            &&& json::text_at(j, "task"@) == Some(common::task_name(task))
            &&& json::text_at(j, "text"@) == Some(text@)
        },
{
    reveal_strlit("t");
    reveal_strlit("who");
    reveal_strlit("task");
    reveal_strlit("text");
    assert("t"@.len() == 1);
    assert("who"@.len() == 3);
    assert("task"@.len() == 4);
    assert("text"@.len() == 4);
    assert("task"@[1] == 'a');
    assert("text"@[1] == 'e');
    reveal_with_fuel(json::first_under, 6);
    json::values_read_as_built(j, "t"@);
    json::values_read_as_built(j, "who"@);
    json::values_read_as_built(j, "task"@);
    json::values_read_as_built(j, "text"@);
}

/// A plan is written with whose it is, its task and how many parts it has.
pub proof fn a_plan_reads_back(e: Effect, j: Json)
    requires
        e is Planned,
        json::tree(j) == effect_tree(e),
    ensures
        e matches Effect::Planned { who, task, count } && {
            &&& json::text_at(j, "t"@) == Some("planned"@)
            &&& json::text_at(j, "who"@) == Some(keys::hexed(who@))
            &&& json::text_at(j, "task"@) == Some(common::task_name(task))
            &&& json::num_at(j, "count"@) == Some(count)
        },
{
    reveal_strlit("t");
    reveal_strlit("who");
    reveal_strlit("task");
    reveal_strlit("count");
    assert("t"@.len() == 1);
    assert("who"@.len() == 3);
    assert("task"@.len() == 4);
    assert("count"@.len() == 5);
    reveal_with_fuel(json::first_under, 6);
    json::values_read_as_built(j, "t"@);
    json::values_read_as_built(j, "who"@);
    json::values_read_as_built(j, "task"@);
    json::values_read_as_built(j, "count"@);
}

/// An assignment is written with whom it goes to, its task, what is asked
/// and what is expected.
pub proof fn an_assignment_reads_back(e: Effect, j: Json)
    requires
        e is Assigned,
        json::tree(j) == effect_tree(e),
    ensures
        e matches Effect::Assigned { holder, task, what, expect } && {
            &&& json::text_at(j, "t"@) == Some("assigned"@)
            &&& json::text_at(j, "to"@) == Some(keys::hexed(holder@))
            &&& json::text_at(j, "task"@) == Some(common::task_name(task))
            &&& json::text_at(j, "what"@) == Some(what@)
            &&& json::text_at(j, "expect"@) == Some(expect@)
        },
{
    reveal_strlit("t");
    reveal_strlit("to");
    reveal_strlit("task");
    reveal_strlit("what");
    reveal_strlit("expect");
    assert("t"@.len() == 1);
    assert("to"@.len() == 2);
    assert("task"@.len() == 4);
    assert("what"@.len() == 4);
    assert("expect"@.len() == 6);
    assert("task"@[0] == 't');
    assert("what"@[0] == 'w');
    reveal_with_fuel(json::first_under, 7);
    json::values_read_as_built(j, "t"@);
    json::values_read_as_built(j, "to"@);
    json::values_read_as_built(j, "task"@);
    json::values_read_as_built(j, "what"@);
    json::values_read_as_built(j, "expect"@);
}

/// A directive is written with whom it goes to, its task and what it says.
pub proof fn a_directive_reads_back(e: Effect, j: Json)
    requires
        e is Directed,
        json::tree(j) == effect_tree(e),
    ensures
        e matches Effect::Directed { holder, task, directive } && {
            &&& json::text_at(j, "t"@) == Some("directed"@)
            &&& json::text_at(j, "to"@) == Some(keys::hexed(holder@))
            &&& json::text_at(j, "task"@) == Some(common::task_name(task))
            &&& json::text_at(j, "directive"@) == Some(directive@)
        },
{
    reveal_strlit("t");
    reveal_strlit("to");
    reveal_strlit("task");
    reveal_strlit("directive");
    assert("t"@.len() == 1);
    assert("to"@.len() == 2);
    assert("task"@.len() == 4);
    assert("directive"@.len() == 9);
    reveal_with_fuel(json::first_under, 6);
    json::values_read_as_built(j, "t"@);
    json::values_read_as_built(j, "to"@);
    json::values_read_as_built(j, "task"@);
    json::values_read_as_built(j, "directive"@);
}

/// A nudge is written with whom it goes to, its task, how many are left and
/// whether it is the last.
pub proof fn a_nudge_reads_back(e: Effect, j: Json)
    requires
        e is Nudge,
        json::tree(j) == effect_tree(e),
    ensures
        e matches Effect::Nudge { holder, task, remaining, last } && {
            &&& json::text_at(j, "t"@) == Some("nudge"@)
            &&& json::text_at(j, "to"@) == Some(keys::hexed(holder@))
            &&& json::text_at(j, "task"@) == Some(common::task_name(task))
            &&& json::num_at(j, "remaining"@) == Some(remaining)
            &&& json::flag_at(j, "last"@) == last
        },
{
    reveal_strlit("t");
    reveal_strlit("to");
    reveal_strlit("task");
    reveal_strlit("remaining");
    reveal_strlit("last");
    assert("t"@.len() == 1);
    assert("to"@.len() == 2);
    assert("task"@.len() == 4);
    assert("remaining"@.len() == 9);
    assert("last"@.len() == 4);
    assert("last"@[0] == 'l');
    assert("task"@[0] == 't');
    reveal_with_fuel(json::first_under, 7);
    json::values_read_as_built(j, "t"@);
    json::values_read_as_built(j, "to"@);
    json::values_read_as_built(j, "task"@);
    json::values_read_as_built(j, "remaining"@);
    json::values_read_as_built(j, "last"@);
}

/// What was put on the record is written with who put it there, its task,
/// what was done and the words.
pub proof fn a_record_reads_back(e: Effect, j: Json)
    requires
        e is Record,
        json::tree(j) == effect_tree(e),
    ensures
        e matches Effect::Record { who, task, act, text } && {
            &&& json::text_at(j, "t"@) == Some("record"@)
            &&& json::text_at(j, "who"@) == Some(keys::hexed(who@))
            &&& json::text_at(j, "task"@) == Some(common::task_name(task))
            &&& json::text_at(j, "act"@) == Some(act@)
            &&& json::text_at(j, "text"@) == Some(text@)
        },
{
    reveal_strlit("t");
    reveal_strlit("who");
    reveal_strlit("task");
    reveal_strlit("act");
    reveal_strlit("text");
    assert("t"@.len() == 1);
    assert("who"@.len() == 3);
    assert("task"@.len() == 4);
    assert("act"@.len() == 3);
    assert("text"@.len() == 4);
    assert("act"@[0] == 'a');
    assert("task"@[1] == 'a');
    assert("text"@[1] == 'e');
    assert("who"@[0] == 'w');
    reveal_with_fuel(json::first_under, 7);
    json::values_read_as_built(j, "t"@);
    json::values_read_as_built(j, "who"@);
    json::values_read_as_built(j, "task"@);
    json::values_read_as_built(j, "act"@);
    json::values_read_as_built(j, "text"@);
}

/// A task that was put back is written with whom it was taken from and why.
pub proof fn a_requeued_task_reads_back(e: Effect, j: Json)
    requires
        e is Requeued,
        json::tree(j) == effect_tree(e),
    ensures
        e matches Effect::Requeued { task, was, why } && {
            &&& json::text_at(j, "t"@) == Some("requeued"@)
            &&& json::text_at(j, "task"@) == Some(common::task_name(task))
            &&& json::text_at(j, "from"@) == (match was {
                Some(a) => Some(keys::hexed(a@)),
                None => None,
            })
            &&& json::text_at(j, "why"@) == Some(why@)
        },
{
    reveal_strlit("t");
    reveal_strlit("task");
    reveal_strlit("from");
    reveal_strlit("why");
    assert("t"@.len() == 1);
    assert("task"@.len() == 4);
    assert("from"@.len() == 4);
    assert("why"@.len() == 3);
    assert("from"@[0] == 'f');
    assert("task"@[0] == 't');
    reveal_with_fuel(json::first_under, 6);
    json::values_read_as_built(j, "t"@);
    json::values_read_as_built(j, "task"@);
    json::values_read_as_built(j, "from"@);
    json::values_read_as_built(j, "why"@);
}

/// A spent budget of nudges is written with whose it was, and of which
/// task.
pub proof fn a_spent_budget_reads_back(e: Effect, j: Json)
    requires
        e is NudgeBudgetSpent,
        json::tree(j) == effect_tree(e),
    ensures
        e matches Effect::NudgeBudgetSpent { holder, task } && {
            &&& json::text_at(j, "t"@) == Some("budget_spent"@)
            &&& json::text_at(j, "holder"@) == Some(keys::hexed(holder@))
            &&& json::text_at(j, "task"@) == Some(common::task_name(task))
        },
{
    reveal_strlit("t");
    reveal_strlit("holder");
    reveal_strlit("task");
    assert("t"@.len() == 1);
    assert("holder"@.len() == 6);
    assert("task"@.len() == 4);
    reveal_with_fuel(json::first_under, 5);
    json::values_read_as_built(j, "t"@);
    json::values_read_as_built(j, "holder"@);
    json::values_read_as_built(j, "task"@);
}

/// A task that was closed is written with its title, its text and its
/// author.
pub proof fn a_closed_task_reads_back(e: Effect, j: Json)
    requires
        e is Closed,
        json::tree(j) == effect_tree(e),
    ensures
        e matches Effect::Closed { task, title, text, author } && {
            &&& json::text_at(j, "t"@) == Some("closed"@)
            &&& json::text_at(j, "task"@) == Some(common::task_name(task))
            &&& json::text_at(j, "title"@) == Some(title@)
            &&& json::text_at(j, "body"@) == Some(text@)
            &&& json::text_at(j, "author"@) == Some(keys::hexed(author@))
        },
{
    reveal_strlit("t");
    reveal_strlit("task");
    reveal_strlit("title");
    reveal_strlit("body");
    reveal_strlit("author");
    assert("t"@.len() == 1);
    assert("task"@.len() == 4);
    assert("title"@.len() == 5);
    assert("body"@.len() == 4);
    assert("author"@.len() == 6);
    assert("body"@[0] == 'b');
    assert("task"@[0] == 't');
    reveal_with_fuel(json::first_under, 7);
    json::values_read_as_built(j, "t"@);
    json::values_read_as_built(j, "task"@);
    json::values_read_as_built(j, "title"@);
    json::values_read_as_built(j, "body"@);
    json::values_read_as_built(j, "author"@);
}

/// A task that failed is written with its name.
pub proof fn a_failed_task_reads_back(e: Effect, j: Json)
    requires
        e is Failed,
        json::tree(j) == effect_tree(e),
    ensures
        e matches Effect::Failed { task } && {
            &&& json::text_at(j, "t"@) == Some("failed"@)
            &&& json::text_at(j, "task"@) == Some(common::task_name(task))
        },
{
    reveal_strlit("t");
    reveal_strlit("task");
    assert("t"@.len() == 1);
    assert("task"@.len() == 4);
    reveal_with_fuel(json::first_under, 4);
    json::values_read_as_built(j, "t"@);
    json::values_read_as_built(j, "task"@);
}

/// A task that moved is written with whom it moved from and whom to.
pub proof fn a_rehomed_task_reads_back(e: Effect, j: Json)
    requires
        e is Rehomed,
        json::tree(j) == effect_tree(e),
    ensures
        e matches Effect::Rehomed { task, was, holder } && {
            &&& json::text_at(j, "t"@) == Some("rehomed"@)
            &&& json::text_at(j, "task"@) == Some(common::task_name(task))
            &&& json::text_at(j, "from"@) == (match was {
                Some(a) => Some(keys::hexed(a@)),
                None => None,
            })
            &&& json::text_at(j, "to"@) == Some(keys::hexed(holder@))
        },
{
    reveal_strlit("t");
    reveal_strlit("task");
    reveal_strlit("from");
    reveal_strlit("to");
    assert("t"@.len() == 1);
    assert("task"@.len() == 4);
    assert("from"@.len() == 4);
    assert("to"@.len() == 2);
    assert("from"@[0] == 'f');
    assert("task"@[0] == 't');
    reveal_with_fuel(json::first_under, 6);
    json::values_read_as_built(j, "t"@);
    json::values_read_as_built(j, "task"@);
    json::values_read_as_built(j, "from"@);
    json::values_read_as_built(j, "to"@);
}

/// An artifact of its own is written with its author, its number, its title
/// and its text.
pub proof fn an_artifact_reads_back(e: Effect, j: Json)
    requires
        e is StandaloneArtifact,
        json::tree(j) == effect_tree(e),
    ensures
        e matches Effect::StandaloneArtifact { author, id, title, text } && {
            &&& json::text_at(j, "t"@) == Some("standalone_artifact"@)
            &&& json::text_at(j, "author"@) == Some(keys::hexed(author@))
            &&& json::num_at(j, "id"@) == Some(id)
            &&& json::text_at(j, "title"@) == Some(title@)
            &&& json::text_at(j, "body"@) == Some(text@)
        },
{
    reveal_strlit("t");
    reveal_strlit("author");
    reveal_strlit("id");
    reveal_strlit("title");
    reveal_strlit("body");
    assert("t"@.len() == 1);
    assert("author"@.len() == 6);
    assert("id"@.len() == 2);
    assert("title"@.len() == 5);
    assert("body"@.len() == 4);
    reveal_with_fuel(json::first_under, 7);
    json::values_read_as_built(j, "t"@);
    json::values_read_as_built(j, "author"@);
    json::values_read_as_built(j, "id"@);
    json::values_read_as_built(j, "title"@);
    json::values_read_as_built(j, "body"@);
}

/// A report of stats is written with whose it is and every figure of it.
pub proof fn a_stats_report_reads_back(e: Effect, j: Json)
    requires
        e is StatsReported,
        json::tree(j) == effect_tree(e),
    ensures
        e matches Effect::StatsReported { who, turns, tool_calls, tokens, ms } && {
            &&& json::text_at(j, "t"@) == Some("stats_reported"@)
            &&& json::text_at(j, "who"@) == Some(keys::hexed(who@))
            &&& json::num_at(j, "turns"@) == Some(turns)
            &&& json::num_at(j, "tool_calls"@) == Some(tool_calls)
            &&& json::num_at(j, "tokens"@) == Some(tokens)
            &&& json::num_at(j, "ms"@) == Some(ms)
        },
{
    reveal_strlit("t");
    reveal_strlit("who");
    reveal_strlit("turns");
    reveal_strlit("tool_calls");
    reveal_strlit("tokens");
    reveal_strlit("ms");
    assert("t"@.len() == 1);
    assert("who"@.len() == 3);
    assert("turns"@.len() == 5);
    assert("tool_calls"@.len() == 10);
    assert("tokens"@.len() == 6);
    assert("ms"@.len() == 2);
    reveal_with_fuel(json::first_under, 8);
    json::values_read_as_built(j, "t"@);
    json::values_read_as_built(j, "who"@);
    json::values_read_as_built(j, "turns"@);
    json::values_read_as_built(j, "tool_calls"@);
    json::values_read_as_built(j, "tokens"@);
    json::values_read_as_built(j, "ms"@);
}

/// The newer report of stats is written with its count of messages as well.
pub proof fn a_newer_stats_report_reads_back(e: Effect, j: Json)
    requires
        e is StatsReported2,
        json::tree(j) == effect_tree(e),
    ensures
        e matches Effect::StatsReported2 { who, turns, tool_calls, messages, tokens, ms } && {
            &&& json::text_at(j, "t"@) == Some("stats_reported"@)
            &&& json::text_at(j, "who"@) == Some(keys::hexed(who@))
            &&& json::num_at(j, "turns"@) == Some(turns)
            &&& json::num_at(j, "tool_calls"@) == Some(tool_calls)
            &&& json::num_at(j, "messages"@) == Some(messages)
            &&& json::num_at(j, "tokens"@) == Some(tokens)
            &&& json::num_at(j, "ms"@) == Some(ms)
        },
{
    reveal_strlit("t");
    reveal_strlit("who");
    reveal_strlit("turns");
    reveal_strlit("tool_calls");
    reveal_strlit("messages");
    reveal_strlit("tokens");
    reveal_strlit("ms");
    assert("t"@.len() == 1);
    assert("who"@.len() == 3);
    assert("turns"@.len() == 5);
    assert("tool_calls"@.len() == 10);
    assert("messages"@.len() == 8);
    assert("tokens"@.len() == 6);
    assert("ms"@.len() == 2);
    reveal_with_fuel(json::first_under, 9);
    json::values_read_as_built(j, "t"@);
    json::values_read_as_built(j, "who"@);
    json::values_read_as_built(j, "turns"@);
    json::values_read_as_built(j, "tool_calls"@);
    json::values_read_as_built(j, "messages"@);
    json::values_read_as_built(j, "tokens"@);
    json::values_read_as_built(j, "ms"@);
}

/// A message is written with its id, its sender, whom it goes to, its
/// words, what it answers, what it belongs to, its tags and its flags.
pub proof fn a_message_reads_back(e: Effect, j: Json)
    requires
        e is Message,
        json::tree(j) == effect_tree(e),
    ensures
        e matches Effect::Message { name, from, to, body, parent, artifact, tags, from_root, no_ack, off_record } && {
            &&& json::text_at(j, "t"@) == Some("message"@)
            &&& json::text_at(j, "id"@) == Some(name@)
            &&& json::text_at(j, "from"@) == Some(keys::hexed(from@))
            &&& json::text_at(j, "to"@) == (match to {
                Some(a) => Some(keys::hexed(a@)),
                None => None,
            })
            &&& json::text_at(j, "body"@) == Some(body@)
            &&& json::text_at(j, "parent"@) == text::text_view(parent)
            &&& json::text_at(j, "artifact_id"@) == text::text_view(artifact)
            &&& json::under(json::tree(j), "tags"@) matches Some(Tree::List(v)) && v.len() == tags@.len() && forall|i: int|
                0 <= i < v.len() ==> (#[trigger] v[i]) == Tree::Str(tags@[i]@)
            &&& json::flag_at(j, "root"@) == from_root
            &&& json::flag_at(j, "no_ack"@) == no_ack
            &&& json::flag_at(j, "off_record"@) == off_record
        },
{
    reveal_strlit("t");
    reveal_strlit("id");
    reveal_strlit("from");
    reveal_strlit("to");
    reveal_strlit("body");
    reveal_strlit("parent");
    reveal_strlit("artifact_id");
    reveal_strlit("tags");
    reveal_strlit("root");
    reveal_strlit("no_ack");
    reveal_strlit("off_record");
    assert("t"@.len() == 1);
    assert("id"@.len() == 2);
    assert("from"@.len() == 4);
    assert("to"@.len() == 2);
    assert("body"@.len() == 4);
    assert("parent"@.len() == 6);
    assert("artifact_id"@.len() == 11);
    assert("tags"@.len() == 4);
    assert("root"@.len() == 4);
    assert("no_ack"@.len() == 6);
    assert("off_record"@.len() == 10);
    assert("body"@[0] == 'b');
    assert("from"@[0] == 'f');
    assert("id"@[0] == 'i');
    assert("no_ack"@[0] == 'n');
    assert("parent"@[0] == 'p');
    assert("root"@[0] == 'r');
    assert("tags"@[0] == 't');
    assert("to"@[0] == 't');
    let m = effect_members(e);
    assert(json::under(json::tree(j), "t"@) == Some(m[0].1)) by {
        assert(m[0].0 == "t"@);
        json::lemma_member_found(m, 0);
    }
    json::values_read_as_built(j, "t"@);
    assert(json::under(json::tree(j), "id"@) == Some(m[1].1)) by {
        assert(m[1].0 == "id"@);
        json::lemma_member_found(m, 1);
    }
    json::values_read_as_built(j, "id"@);
    assert(json::under(json::tree(j), "from"@) == Some(m[2].1)) by {
        assert(m[2].0 == "from"@);
        json::lemma_member_found(m, 2);
    }
    json::values_read_as_built(j, "from"@);
    assert(json::under(json::tree(j), "to"@) == Some(m[3].1)) by {
        assert(m[3].0 == "to"@);
        json::lemma_member_found(m, 3);
    }
    json::values_read_as_built(j, "to"@);
    assert(json::under(json::tree(j), "body"@) == Some(m[4].1)) by {
        assert(m[4].0 == "body"@);
        json::lemma_member_found(m, 4);
    }
    json::values_read_as_built(j, "body"@);
    assert(json::under(json::tree(j), "parent"@) == Some(m[5].1)) by {
        assert(m[5].0 == "parent"@);
        json::lemma_member_found(m, 5);
    }
    json::values_read_as_built(j, "parent"@);
    assert(json::under(json::tree(j), "artifact_id"@) == Some(m[6].1)) by {
        assert(m[6].0 == "artifact_id"@);
        json::lemma_member_found(m, 6);
    }
    json::values_read_as_built(j, "artifact_id"@);
    assert(json::under(json::tree(j), "tags"@) == Some(m[7].1)) by {
        assert(m[7].0 == "tags"@);
        json::lemma_member_found(m, 7);
    }
    json::values_read_as_built(j, "tags"@);
    assert(json::under(json::tree(j), "root"@) == Some(m[8].1)) by {
        assert(m[8].0 == "root"@);
        json::lemma_member_found(m, 8);
    }
    json::values_read_as_built(j, "root"@);
    assert(json::under(json::tree(j), "no_ack"@) == Some(m[9].1)) by {
        assert(m[9].0 == "no_ack"@);
        json::lemma_member_found(m, 9);
    }
    json::values_read_as_built(j, "no_ack"@);
    assert(json::under(json::tree(j), "off_record"@) == Some(m[10].1)) by {
        assert(m[10].0 == "off_record"@);
        json::lemma_member_found(m, 10);
    }
    json::values_read_as_built(j, "off_record"@);
}

/// A reaction is written with whose it is, what it is to and which.
pub proof fn a_reaction_reads_back(e: Effect, j: Json)
    requires
        e is Reacted,
        json::tree(j) == effect_tree(e),
    ensures
        e matches Effect::Reacted { who, target, emoji } && {
            &&& json::text_at(j, "t"@) == Some("reacted"@)
            &&& json::text_at(j, "who"@) == Some(keys::hexed(who@))
            &&& json::text_at(j, "target"@) == Some(target@)
            &&& json::text_at(j, "emoji"@) == Some(emoji@)
        },
{
    reveal_strlit("t");
    reveal_strlit("who");
    reveal_strlit("target");
    reveal_strlit("emoji");
    assert("t"@.len() == 1);
    assert("who"@.len() == 3);
    assert("target"@.len() == 6);
    assert("emoji"@.len() == 5);
    reveal_with_fuel(json::first_under, 6);
    json::values_read_as_built(j, "t"@);
    json::values_read_as_built(j, "who"@);
    json::values_read_as_built(j, "target"@);
    json::values_read_as_built(j, "emoji"@);
}

/// A vote is written with whose it is, on what and which way.
pub proof fn a_vote_reads_back(e: Effect, j: Json)
    requires
        e is Voted,
        json::tree(j) == effect_tree(e),
    ensures
        e matches Effect::Voted { who, target, up } && {
            &&& json::text_at(j, "t"@) == Some("voted"@)
            &&& json::text_at(j, "who"@) == Some(keys::hexed(who@))
            &&& json::text_at(j, "artifact"@) == Some(target@)
            &&& json::flag_at(j, "up"@) == up
        },
{
    reveal_strlit("t");
    reveal_strlit("who");
    reveal_strlit("artifact");
    reveal_strlit("up");
    assert("t"@.len() == 1);
    assert("who"@.len() == 3);
    assert("artifact"@.len() == 8);
    assert("up"@.len() == 2);
    reveal_with_fuel(json::first_under, 6);
    json::values_read_as_built(j, "t"@);
    json::values_read_as_built(j, "who"@);
    json::values_read_as_built(j, "artifact"@);
    json::values_read_as_built(j, "up"@);
}

} // verus!
