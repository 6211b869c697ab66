//! What a node answers its readers, out of chain state.

use crate::common;
use crate::common::TaskId;
use crate::effects;
use crate::json;
use crate::json::{Json, Tree};
use crate::keys;
use crate::keys::Account;
use crate::text;
use vstd::prelude::*;
use vstd::string::*;

verus! {

// ---------------------------------------------------------------------
// Tasks
// ---------------------------------------------------------------------

/// A task as the chain has it.
pub struct TaskRow {
    pub id: TaskId,
    /// The status's name.
    pub status: String,
    pub assignee: Option<Account>,
    pub holder: Option<Account>,
    pub lease_until: Option<u64>,
    pub opened_by: Account,
    pub opened_at: u64,
    pub text: String,
    /// What was submitted: whether it failed, and what it says.
    pub outcome: Option<(bool, String)>,
}

pub open spec fn outcome_tree(o: Option<(bool, String)>) -> Tree {
    match o {
        Some(x) => Tree::Object(
            seq![
                (
                    "kind"@,
                    Tree::Str(
                        if x.0 {
                            "failed"@
                        } else {
                            "done"@
                        },
                    ),
                ),
                ("text"@, Tree::Str(x.1@)),
            ],
        ),
        None => Tree::Null,
    }
}

pub open spec fn task_members(t: TaskRow) -> Seq<(Seq<char>, Tree)> {
    seq![
        ("id"@, Tree::Str(common::task_name(t.id))),
        ("status"@, Tree::Str(t.status@)),
        ("assignee"@, effects::account_or_null(t.assignee)),
        ("holder"@, effects::account_or_null(t.holder)),
        ("lease_until"@, json::num_or_null(t.lease_until)),
        ("opened_by"@, Tree::Str(keys::hexed(t.opened_by@))),
        ("opened_at"@, Tree::Num(t.opened_at)),
        ("text"@, Tree::Str(t.text@)),
        ("outcome"@, outcome_tree(t.outcome)),
    ]
}

fn outcome_json(o: &Option<(bool, String)>) -> (r: Json)
    ensures
        json::tree(r) == outcome_tree(*o),
{
    match o {
        Some(x) => {
            let mut m = json::members();
            if x.0 {
                json::member(&mut m, "kind", json::string("failed"));
            } else {
                json::member(&mut m, "kind", json::string("done"));
            }
            json::member(&mut m, "text", json::string(x.1.as_str()));
            assert(json::tree_members(m@) =~= seq![
                (
                    "kind"@,
                    Tree::Str(
                        if x.0 {
                            "failed"@
                        } else {
                            "done"@
                        },
                    ),
                ),
                ("text"@, Tree::Str(x.1@)),
            ]);
            Json::Object(m)
        },
        None => Json::Null,
    }
}

fn task_json(t: &TaskRow) -> (m: Vec<(String, Json)>)
    ensures
        json::tree_members(m@) == task_members(*t),
{
    let mut m = json::members();
    json::member(&mut m, "id", Json::Str(effects::task_text(t.id)));
    json::member(&mut m, "status", json::string(t.status.as_str()));
    json::member(&mut m, "assignee", effects::hex_or_null(&t.assignee));
    json::member(&mut m, "holder", effects::hex_or_null(&t.holder));
    json::member(&mut m, "lease_until", json::number_or_null(t.lease_until));
    json::member(&mut m, "opened_by", Json::Str(keys::to_hex(&t.opened_by)));
    json::member(&mut m, "opened_at", Json::Num(t.opened_at));
    json::member(&mut m, "text", json::string(t.text.as_str()));
    json::member(&mut m, "outcome", outcome_json(&t.outcome));
    m
}

pub open spec fn task_memberss(v: Seq<TaskRow>) -> Seq<Tree> {
    Seq::new(v.len(), |i: int| Tree::Object(task_members(v[i])))
}

/// Every task.
pub fn tasks_json(v: &Vec<TaskRow>) -> (r: Json)
    ensures
        json::tree(r) == Tree::List(task_memberss(v@)),
{
    let ghost want = task_memberss(v@);
    let mut out: Vec<Json> = Vec::new();
    let mut i: usize = 0;
    assert(want.take(0) =~= Seq::<Tree>::empty());
    while i < v.len()
        invariant
            i <= v.len(),
            want == task_memberss(v@),
            json::tree_items(out@) == want.take(i as int),
        decreases v.len() - i,
    {
        json::item(&mut out, Json::Object(task_json(&v[i])));
        assert(want.take(i + 1) =~= want.take(i as int).push(Tree::Object(task_members(v@[i as int]))));
        i = i + 1;
    }
    assert(want.take(i as int) =~= want);
    Json::List(out)
}

// ---------------------------------------------------------------------
// The chain
// ---------------------------------------------------------------------

pub open spec fn head_members(
    block: u64,
    seq: u64,
    leader: Option<Account>,
    closed: bool,
    last_checkpoint: u64,
) -> Seq<(Seq<char>, Tree)> {
    seq![
        ("block"@, Tree::Num(block)),
        ("seq"@, Tree::Num(seq)),
        ("leader"@, effects::account_or_null(leader)),
        ("closed"@, Tree::Bool(closed)),
        ("last_checkpoint"@, Tree::Num(last_checkpoint)),
    ]
}

/// Where the chain is.
pub fn head_json(
    block: u64,
    seq: u64,
    leader: &Option<Account>,
    closed: bool,
    last_checkpoint: u64,
) -> (r: Json)
    ensures
        json::tree(r) == Tree::Object(head_members(block, seq, *leader, closed, last_checkpoint)),
{
    let mut m = json::members();
    json::member(&mut m, "block", Json::Num(block));
    json::member(&mut m, "seq", Json::Num(seq));
    json::member(&mut m, "leader", effects::hex_or_null(leader));
    json::member(&mut m, "closed", Json::Bool(closed));
    json::member(&mut m, "last_checkpoint", Json::Num(last_checkpoint));
    assert(json::tree_members(m@) =~= head_members(block, seq, *leader, closed, last_checkpoint));
    Json::Object(m)
}

pub open spec fn meta_members(
    genesis: Seq<u8>,
    spec_version: u64,
    tx_version: u64,
    version: Seq<char>,
) -> Seq<(Seq<char>, Tree)> {
    seq![
        ("genesis_hash"@, Tree::Str(keys::hexed(genesis))),
        ("spec_version"@, Tree::Num(spec_version)),
        ("tx_version"@, Tree::Num(tx_version)),
        ("kot_version"@, Tree::Str(version)),
    ]
}

/// What a client signs against.
pub fn meta_json(genesis: &[u8; 32], spec_version: u64, tx_version: u64, version: &str) -> (r: Json)
    ensures
        json::tree(r) == Tree::Object(meta_members(genesis@, spec_version, tx_version, version@)),
{
    let mut m = json::members();
    json::member(&mut m, "genesis_hash", Json::Str(keys::to_hex(genesis)));
    json::member(&mut m, "spec_version", Json::Num(spec_version));
    json::member(&mut m, "tx_version", Json::Num(tx_version));
    json::member(&mut m, "kot_version", json::string(version));
    assert(json::tree_members(m@) =~= meta_members(genesis@, spec_version, tx_version, version@));
    Json::Object(m)
}

pub open spec fn name_members(e: (String, Account)) -> Seq<(Seq<char>, Tree)> {
    seq![("name"@, Tree::Str(e.0@)), ("account"@, Tree::Str(keys::hexed(e.1@)))]
}

fn name_json(e: &(String, Account)) -> (m: Vec<(String, Json)>)
    ensures
        json::tree_members(m@) == name_members(*e),
{
    let mut m = json::members();
    json::member(&mut m, "name", json::string(e.0.as_str()));
    json::member(&mut m, "account", Json::Str(keys::to_hex(&e.1)));
    m
}

pub open spec fn name_memberss(v: Seq<(String, Account)>) -> Seq<Tree> {
    Seq::new(v.len(), |i: int| Tree::Object(name_members(v[i])))
}

/// Who is in the litter, by name.
pub fn roster_json(v: &Vec<(String, Account)>) -> (r: Json)
    ensures
        json::tree(r) == Tree::List(name_memberss(v@)),
{
    let ghost want = name_memberss(v@);
    let mut out: Vec<Json> = Vec::new();
    let mut i: usize = 0;
    assert(want.take(0) =~= Seq::<Tree>::empty());
    while i < v.len()
        invariant
            i <= v.len(),
            want == name_memberss(v@),
            json::tree_items(out@) == want.take(i as int),
        decreases v.len() - i,
    {
        json::item(&mut out, Json::Object(name_json(&v[i])));
        assert(want.take(i + 1) =~= want.take(i as int).push(Tree::Object(name_members(v@[i as int]))));
        i = i + 1;
    }
    assert(want.take(i as int) =~= want);
    Json::List(out)
}

// ---------------------------------------------------------------------
// Artifacts
// ---------------------------------------------------------------------

/// Who voted for an artifact and who against.
pub struct Tally {
    pub up: Vec<Account>,
    pub down: Vec<Account>,
}

pub open spec fn hex_trees(v: Seq<Account>) -> Seq<Tree> {
    Seq::new(v.len(), |i: int| Tree::Str(keys::hexed(v[i]@)))
}

fn hexes(v: &Vec<Account>) -> (r: Json)
    ensures
        json::tree(r) == Tree::List(hex_trees(v@)),
{
    let ghost want = hex_trees(v@);
    let mut out: Vec<Json> = Vec::new();
    let mut i: usize = 0;
    assert(want.take(0) =~= Seq::<Tree>::empty());
    while i < v.len()
        invariant
            i <= v.len(),
            want == hex_trees(v@),
            json::tree_items(out@) == want.take(i as int),
        decreases v.len() - i,
    {
        json::item(&mut out, Json::Str(keys::to_hex(&v[i])));
        assert(want.take(i + 1) =~= want.take(i as int).push(Tree::Str(keys::hexed(v@[i as int]@))));
        i = i + 1;
    }
    assert(want.take(i as int) =~= want);
    Json::List(out)
}

pub open spec fn tally_tree(t: Tally) -> Tree {
    Tree::Object(seq![("up"@, Tree::List(hex_trees(t.up@))), ("down"@, Tree::List(hex_trees(t.down@)))])
}

/// The votes, as accounts; readers name them.
pub fn tally_json(t: &Tally) -> (r: Json)
    ensures
        json::tree(r) == tally_tree(*t),
{
    let mut m = json::members();
    json::member(&mut m, "up", hexes(&t.up));
    json::member(&mut m, "down", hexes(&t.down));
    assert(json::tree_members(m@) =~= seq![
        ("up"@, Tree::List(hex_trees(t.up@))),
        ("down"@, Tree::List(hex_trees(t.down@))),
    ]);
    Json::Object(m)
}

/// A remark on an artifact.
pub struct Comment {
    pub who: Account,
    pub at: u64,
    /// The session it was made in.
    pub epoch: u32,
    pub body: String,
}

pub open spec fn comment_members(c: Comment) -> Seq<(Seq<char>, Tree)> {
    seq![
        ("who"@, Tree::Str(keys::hexed(c.who@))),
        ("at"@, Tree::Num(c.at)),
        ("epoch"@, Tree::Num(c.epoch as u64)),
        ("body"@, Tree::Str(c.body@)),
    ]
}

/// The thread, or what of it is of one session.
pub open spec fn thread(v: Seq<Comment>, epoch: Option<u32>) -> Seq<Tree>
    decreases v.len(),
{
    if v.len() == 0 {
        seq![]
    } else if epoch is None || epoch == Some(v.last().epoch) {
        thread(v.drop_last(), epoch).push(Tree::Object(comment_members(v.last())))
    } else {
        thread(v.drop_last(), epoch)
    }
}

fn comment_json(c: &Comment) -> (r: Json)
    ensures
        json::tree(r) == Tree::Object(comment_members(*c)),
{
    let mut m = json::members();
    json::member(&mut m, "who", Json::Str(keys::to_hex(&c.who)));
    json::member(&mut m, "at", Json::Num(c.at));
    json::member(&mut m, "epoch", Json::Num(c.epoch as u64));
    json::member(&mut m, "body", json::string(c.body.as_str()));
    assert(json::tree_members(m@) =~= comment_members(*c));
    Json::Object(m)
}

/// An artifact's whole thread, or with an epoch only that session's part.
pub fn comments_json(v: &Vec<Comment>, epoch: Option<u32>) -> (r: Json)
    ensures
        json::tree(r) == Tree::List(thread(v@, epoch)),
{
    let mut out: Vec<Json> = Vec::new();
    let mut i: usize = 0;
    assert(v@.take(0) =~= Seq::<Comment>::empty());
    while i < v.len()
        invariant
            i <= v.len(),
            json::tree_items(out@) == thread(v@.take(i as int), epoch),
        decreases v.len() - i,
    {
        assert(v@.take(i + 1).drop_last() =~= v@.take(i as int));
        assert(v@.take(i + 1).last() == v@[i as int]);
        let wanted = match epoch {
            None => true,
            Some(e) => v[i].epoch == e,
        };
        if wanted {
            json::item(&mut out, comment_json(&v[i]));
        }
        i = i + 1;
    }
    assert(v@.take(i as int) =~= v@);
    Json::List(out)
}

/// An artifact.
pub struct Paper {
    pub title: String,
    pub body: String,
    pub author: Account,
    pub at: u64,
}

/// The session a reader asked for, where it is a number.
pub fn asked_epoch(q: &Option<String>) -> (r: Option<u32>)
    ensures
        r == (match text::text_view(*q) {
            Some(s) => match text::parsed(s, u32::MAX as nat) {
                Some(n) => Some(n as u32),
                None => None,
            },
            None => None,
        }),
{
    match q {
        Some(s) => note_id(s.as_str()),
        None => None,
    }
}

/// The number of a standalone artifact.
pub fn note_id(id: &str) -> (r: Option<u32>)
    ensures
        r == (match text::parsed(id@, u32::MAX as nat) {
            Some(n) => Some(n as u32),
            None => None,
        }),
{
    match text::parse_number(id, u32::MAX as u64) {
        Some(n) => Some(n as u32),
        None => None,
    }
}

pub open spec fn found_members(
    found: Option<(Paper, Tally)>,
    comments: Seq<Comment>,
    epoch: Option<u32>,
) -> Seq<(Seq<char>, Tree)> {
    match found {
        Some(a) => seq![
            ("found"@, Tree::Bool(true)),
            ("title"@, Tree::Str(a.0.title@)),
            ("body"@, Tree::Str(a.0.body@)),
            ("author"@, Tree::Str(keys::hexed(a.0.author@))),
            ("votes"@, tally_tree(a.1)),
            ("comments"@, Tree::List(thread(comments, epoch))),
        ],
        None => seq![("found"@, Tree::Bool(false))],
    }
}

/// An artifact with its votes and its thread, or that there is none.
pub fn artifact_json(found: &Option<(Paper, Tally)>, comments: &Vec<Comment>, epoch: Option<u32>) -> (r:
    Json)
    ensures
        json::tree(r) == Tree::Object(found_members(*found, comments@, epoch)),
{
    let mut m = json::members();
    match found {
        Some(a) => {
            json::member(&mut m, "found", Json::Bool(true));
            json::member(&mut m, "title", json::string(a.0.title.as_str()));
            json::member(&mut m, "body", json::string(a.0.body.as_str()));
            json::member(&mut m, "author", Json::Str(keys::to_hex(&a.0.author)));
            json::member(&mut m, "votes", tally_json(&a.1));
            json::member(&mut m, "comments", comments_json(comments, epoch));
        },
        None => {
            json::member(&mut m, "found", Json::Bool(false));
        },
    }
    assert(json::tree_members(m@) =~= found_members(*found, comments@, epoch));
    Json::Object(m)
}

pub open spec fn note_members(e: (u32, Paper)) -> Seq<(Seq<char>, Tree)> {
    seq![
        ("id"@, Tree::Num(e.0 as u64)),
        ("title"@, Tree::Str(e.1.title@)),
        ("author"@, Tree::Str(keys::hexed(e.1.author@))),
        ("at"@, Tree::Num(e.1.at)),
    ]
}

fn note_json(e: &(u32, Paper)) -> (m: Vec<(String, Json)>)
    ensures
        json::tree_members(m@) == note_members(*e),
{
    let mut m = json::members();
    json::member(&mut m, "id", Json::Num(e.0 as u64));
    json::member(&mut m, "title", json::string(e.1.title.as_str()));
    json::member(&mut m, "author", Json::Str(keys::to_hex(&e.1.author)));
    json::member(&mut m, "at", Json::Num(e.1.at));
    m
}

pub open spec fn note_memberss(v: Seq<(u32, Paper)>) -> Seq<Tree> {
    Seq::new(v.len(), |i: int| Tree::Object(note_members(v[i])))
}

/// Every standalone artifact, oldest first.
pub fn notes_json(v: &Vec<(u32, Paper)>) -> (r: Json)
    ensures
        json::tree(r) == Tree::List(note_memberss(v@)),
{
    let ghost want = note_memberss(v@);
    let mut out: Vec<Json> = Vec::new();
    let mut i: usize = 0;
    assert(want.take(0) =~= Seq::<Tree>::empty());
    while i < v.len()
        invariant
            i <= v.len(),
            want == note_memberss(v@),
            json::tree_items(out@) == want.take(i as int),
        decreases v.len() - i,
    {
        json::item(&mut out, Json::Object(note_json(&v[i])));
        assert(want.take(i + 1) =~= want.take(i as int).push(Tree::Object(note_members(v@[i as int]))));
        i = i + 1;
    }
    assert(want.take(i as int) =~= want);
    Json::List(out)
}

pub open spec fn paper_members(id: Seq<char>, kind: Seq<char>, p: Paper) -> Seq<(Seq<char>, Tree)> {
    seq![
        ("id"@, Tree::Str(id)),
        ("kind"@, Tree::Str(kind)),
        ("title"@, Tree::Str(p.title@)),
        ("author"@, Tree::Str(keys::hexed(p.author@))),
        ("at"@, Tree::Num(p.at)),
    ]
}

pub open spec fn paper_tree(id: Seq<char>, kind: Seq<char>, p: Paper) -> Tree {
    Tree::Object(paper_members(id, kind, p))
}

fn paper_json(id: String, kind: &str, p: &Paper) -> (r: Json)
    ensures
        json::tree(r) == paper_tree(id@, kind@, *p),
{
    let mut m = json::members();
    json::member(&mut m, "id", json::string(id.as_str()));
    json::member(&mut m, "kind", json::string(kind));
    json::member(&mut m, "title", json::string(p.title.as_str()));
    json::member(&mut m, "author", Json::Str(keys::to_hex(&p.author)));
    json::member(&mut m, "at", Json::Num(p.at));
    assert(json::tree_members(m@) =~= paper_members(id@, kind@, *p));
    Json::Object(m)
}

pub open spec fn paper_trees(tasks: Seq<(TaskId, Paper)>, notes: Seq<(u32, Paper)>) -> Seq<Tree> {
    Seq::new(
        tasks.len(),
        |i: int| paper_tree(common::task_name(tasks[i].0), "task"@, tasks[i].1),
    ) + Seq::new(
        notes.len(),
        |i: int| paper_tree(text::dec(notes[i].0 as nat), "standalone"@, notes[i].1),
    )
}

/// Every artifact that can be read by its id: tasks' under `t` and a number,
/// standalone ones under a bare number.
pub fn artifacts_json(tasks: &Vec<(TaskId, Paper)>, notes: &Vec<(u32, Paper)>) -> (r: Json)
    ensures
        json::tree(r) == Tree::List(paper_trees(tasks@, notes@)),
{
    let ghost want = paper_trees(tasks@, notes@);
    let mut out: Vec<Json> = Vec::new();
    let mut i: usize = 0;
    assert(want.take(0) =~= Seq::<Tree>::empty());
    while i < tasks.len()
        invariant
            i <= tasks.len(),
            want == paper_trees(tasks@, notes@),
            json::tree_items(out@) == want.take(i as int),
        decreases tasks.len() - i,
    {
        json::item(&mut out, paper_json(effects::task_text(tasks[i].0), "task", &tasks[i].1));
        assert(want.take(i + 1) =~= want.take(i as int).push(want[i as int]));
        i = i + 1;
    }
    let mut j: usize = 0;
    while j < notes.len()
        invariant
            j <= notes.len(),
            want == paper_trees(tasks@, notes@),
            json::tree_items(out@) == want.take(tasks@.len() + j),
        decreases notes.len() - j,
    {
        json::item(&mut out, paper_json(text::number(notes[j].0 as u64), "standalone", &notes[j].1));
        assert(want.take(tasks@.len() + j + 1) =~= want.take(tasks@.len() + j).push(
            want[tasks@.len() + j],
        ));
        j = j + 1;
    }
    assert(want.take(tasks@.len() + j) =~= want);
    Json::List(out)
}

proof fn lemma_word(c: char, s: Seq<char>)
    requires
        s.len() > 0,
        s[0] == c,
        text::white(c) || !text::is_digit(c) && c != '+',
    ensures
        text::parsed(s, u32::MAX as nat) is None,
{
    assert(text::without_plus(s) == s);
    assert(!text::is_digit(s[0]));
    assert(!text::all_digits(s));
}

/// The two kinds of id never meet: what names a task's artifact is no
/// standalone artifact's number.
pub proof fn artifact_ids_never_collide(t: TaskId, n: u32)
    ensures
        common::task_name(t) != text::dec(n as nat),
        text::parsed(common::task_name(t), u32::MAX as nat) is None,
{
    reveal_strlit("t");
    let s = common::task_name(t);
    assert(s[0] == 't');
    lemma_word('t', s);
    lemma_starts_with_digit(n as nat);
}

proof fn lemma_starts_with_digit(n: nat)
    ensures
        text::dec(n).len() > 0,
        text::is_digit(text::dec(n)[0]),
    decreases n,
{
    if n >= 10 {
        lemma_starts_with_digit(n / 10);
    }
}

// ---------------------------------------------------------------------
// Stats
// ---------------------------------------------------------------------

/// A cat's latest report of its own work.
pub struct StatsRow {
    pub account: Account,
    pub turns: u64,
    pub tool_calls: u64,
    pub tokens: u64,
    pub ms: u64,
    /// The messages it sent, where it counted them.
    pub messages: Option<u64>,
}

pub open spec fn stats_members(s: StatsRow) -> Seq<(Seq<char>, Tree)> {
    let m = seq![
        ("account"@, Tree::Str(keys::hexed(s.account@))),
        ("turns"@, Tree::Num(s.turns)),
        ("tool_calls"@, Tree::Num(s.tool_calls)),
        ("tokens"@, Tree::Num(s.tokens)),
        ("ms"@, Tree::Num(s.ms)),
    ];
    match s.messages {
        Some(n) => m.push(("messages"@, Tree::Num(n))),
        None => m,
    }
}

fn stats_row_json(s: &StatsRow) -> (m: Vec<(String, Json)>)
    ensures
        json::tree_members(m@) == stats_members(*s),
{
    let mut m = json::members();
    json::member(&mut m, "account", Json::Str(keys::to_hex(&s.account)));
    json::member(&mut m, "turns", Json::Num(s.turns));
    json::member(&mut m, "tool_calls", Json::Num(s.tool_calls));
    json::member(&mut m, "tokens", Json::Num(s.tokens));
    json::member(&mut m, "ms", Json::Num(s.ms));
    match s.messages {
        Some(n) => {
            json::member(&mut m, "messages", Json::Num(n));
        },
        None => {},
    }
    m
}

pub open spec fn stats_memberss(v: Seq<StatsRow>) -> Seq<Tree> {
    Seq::new(v.len(), |i: int| Tree::Object(stats_members(v[i])))
}

/// Every cat's latest report.
pub fn stats_json(v: &Vec<StatsRow>) -> (r: Json)
    ensures
        json::tree(r) == Tree::List(stats_memberss(v@)),
{
    let ghost want = stats_memberss(v@);
    let mut out: Vec<Json> = Vec::new();
    let mut i: usize = 0;
    assert(want.take(0) =~= Seq::<Tree>::empty());
    while i < v.len()
        invariant
            i <= v.len(),
            want == stats_memberss(v@),
            json::tree_items(out@) == want.take(i as int),
        decreases v.len() - i,
    {
        json::item(&mut out, Json::Object(stats_row_json(&v[i])));
        assert(want.take(i + 1) =~= want.take(i as int).push(Tree::Object(stats_members(v@[i as int]))));
        i = i + 1;
    }
    assert(want.take(i as int) =~= want);
    Json::List(out)
}

// ---------------------------------------------------------------------
// Peers
// ---------------------------------------------------------------------

/// A status and when it was heard.
pub struct Heard {
    pub name: String,
    pub at: u64,
    pub status: Json,
}

/// A peer this node calls: its address, and what it last answered.
pub struct Called {
    pub route: String,
    pub last: Option<Heard>,
}

/// A patron: its name, when it last called, and its head then.
pub struct PatronSeen {
    pub name: String,
    pub at: u64,
    pub head: Json,
}

pub open spec fn ago(now: u64, at: u64) -> Tree {
    Tree::Num(
        if now > at {
            (now - at) as u64
        } else {
            0
        },
    )
}

fn ago_json(now: u64, at: u64) -> (r: Json)
    ensures
        json::tree(r) == ago(now, at),
{
    if now > at {
        Json::Num(now - at)
    } else {
        Json::Num(0)
    }
}

pub open spec fn called_tree(c: Called, now: u64) -> Tree {
    Tree::Object(
        match c.last {
            Some(h) => seq![
                ("route"@, Tree::Str(c.route@)),
                ("seen_ms_ago"@, ago(now, h.at)),
                ("status"@, json::tree(h.status)),
            ],
            None => seq![
                ("route"@, Tree::Str(c.route@)),
                ("seen_ms_ago"@, Tree::Null),
                ("status"@, Tree::Null),
            ],
        },
    )
}

pub open spec fn called_trees(v: Seq<Called>, now: u64) -> Seq<Tree> {
    Seq::new(v.len(), |i: int| called_tree(v[i], now))
}

/// The peers this node has an answer from, by name.
pub open spec fn routed(v: Seq<Called>, name: Seq<char>) -> bool {
    exists|i: int|
        0 <= i < v.len() && ((#[trigger] v[i]).last matches Some(h) && h.name@ == name)
}

/// Those that call this node and that it has no answer from.
pub open spec fn inbound_trees(v: Seq<Heard>, called: Seq<Called>, now: u64) -> Seq<Tree>
    decreases v.len(),
{
    if v.len() == 0 {
        seq![]
    } else if routed(called, v.last().name@) {
        inbound_trees(v.drop_last(), called, now)
    } else {
        inbound_trees(v.drop_last(), called, now).push(
            Tree::Object(
                seq![
                    ("seen_ms_ago"@, ago(now, v.last().at)),
                    ("status"@, json::tree(v.last().status)),
                ],
            ),
        )
    }
}

pub open spec fn patron_trees(v: Seq<PatronSeen>, now: u64) -> Seq<Tree> {
    Seq::new(
        v.len(),
        |i: int|
            Tree::Object(
                seq![
                    ("name"@, Tree::Str(v[i].name@)),
                    ("seen_ms_ago"@, ago(now, v[i].at)),
                    ("head"@, json::tree(v[i].head)),
                ],
            ),
    )
}

fn is_routed(called: &Vec<Called>, name: &str) -> (r: bool)
    ensures
        r == routed(called@, name@),
{
    let mut i: usize = 0;
    while i < called.len()
        invariant
            i <= called.len(),
            forall|k: int|
                0 <= k < i ==> !((#[trigger] called@[k]).last matches Some(h) && h.name@ == name@),
        decreases called.len() - i,
    {
        match &called[i].last {
            Some(h) => {
                if text::same(h.name.as_str(), name) {
                    return true;
                }
            },
            None => {},
        }
        i = i + 1;
    }
    false
}

fn inbound_json(heard: Vec<Heard>, called: &Vec<Called>, now: u64) -> (r: Json)
    ensures
        json::tree(r) == Tree::List(inbound_trees(heard@, called@, now)),
{
    let ghost all = heard@;
    let mut rest = heard;
    let mut out: Vec<Json> = Vec::new();
    let ghost mut done: int = 0;
    assert(all.take(0) =~= Seq::<Heard>::empty());
    assert(all.skip(0) =~= all);
    while rest.len() > 0
        invariant
            0 <= done <= all.len(),
            rest@ == all.skip(done),
            json::tree_items(out@) == inbound_trees(all.take(done), called@, now),
        decreases rest.len(),
    {
        let ghost before = rest@;
        let h = rest.remove(0);
        assert(h == all[done]);
        assert(rest@ =~= all.skip(done + 1));
        assert(all.take(done + 1).drop_last() =~= all.take(done));
        assert(all.take(done + 1).last() == h);
        if !is_routed(called, h.name.as_str()) {
            let mut m = json::members();
            json::member(&mut m, "seen_ms_ago", ago_json(now, h.at));
            json::member(&mut m, "status", h.status);
            assert(json::tree_members(m@) =~= seq![
                ("seen_ms_ago"@, ago(now, h.at)),
                ("status"@, json::tree(h.status)),
            ]);
            json::item(&mut out, Json::Object(m));
        }
        proof {
            done = done + 1;
        }
    }
    assert(all.take(done) =~= all);
    Json::List(out)
}

fn patrons_json(patrons: Vec<PatronSeen>, now: u64) -> (r: Json)
    ensures
        json::tree(r) == Tree::List(patron_trees(patrons@, now)),
{
    let ghost all = patrons@;
    let ghost want = patron_trees(all, now);
    let mut rest = patrons;
    let mut out: Vec<Json> = Vec::new();
    let ghost mut done: int = 0;
    assert(want.take(0) =~= Seq::<Tree>::empty());
    assert(all.skip(0) =~= all);
    while rest.len() > 0
        invariant
            0 <= done <= all.len(),
            rest@ == all.skip(done),
            want == patron_trees(all, now),
            json::tree_items(out@) == want.take(done),
        decreases rest.len(),
    {
        let p = rest.remove(0);
        assert(p == all[done]);
        assert(rest@ =~= all.skip(done + 1));
        let mut m = json::members();
        json::member(&mut m, "name", json::string(p.name.as_str()));
        json::member(&mut m, "seen_ms_ago", ago_json(now, p.at));
        json::member(&mut m, "head", p.head);
        assert(json::tree_members(m@) =~= want[done]->Object_0);
        json::item(&mut out, Json::Object(m));
        assert(want.take(done + 1) =~= want.take(done).push(want[done]));
        proof {
            done = done + 1;
        }
    }
    assert(want.take(done) =~= want);
    Json::List(out)
}

fn called_json(called: Vec<Called>, now: u64) -> (r: Json)
    ensures
        json::tree(r) == Tree::List(called_trees(called@, now)),
{
    let ghost all = called@;
    let ghost want = called_trees(all, now);
    let mut rest = called;
    let mut out: Vec<Json> = Vec::new();
    let ghost mut done: int = 0;
    assert(want.take(0) =~= Seq::<Tree>::empty());
    assert(all.skip(0) =~= all);
    while rest.len() > 0
        invariant
            0 <= done <= all.len(),
            rest@ == all.skip(done),
            want == called_trees(all, now),
            json::tree_items(out@) == want.take(done),
        decreases rest.len(),
    {
        let c = rest.remove(0);
        assert(c == all[done]);
        assert(rest@ =~= all.skip(done + 1));
        let mut m = json::members();
        json::member(&mut m, "route", json::string(c.route.as_str()));
        match c.last {
            Some(h) => {
                json::member(&mut m, "seen_ms_ago", ago_json(now, h.at));
                json::member(&mut m, "status", h.status);
            },
            None => {
                json::member(&mut m, "seen_ms_ago", Json::Null);
                json::member(&mut m, "status", Json::Null);
            },
        }
        assert(json::tree_members(m@) =~= want[done]->Object_0);
        json::item(&mut out, Json::Object(m));
        assert(want.take(done + 1) =~= want.take(done).push(want[done]));
        proof {
            done = done + 1;
        }
    }
    assert(want.take(done) =~= want);
    Json::List(out)
}

/// A node's own place in the mesh.
pub struct Place {
    pub learner: bool,
    /// Its own status.
    pub me: Json,
    pub quorum: u64,
    pub producing: bool,
    pub following: Option<String>,
    pub last_checkpoint: u64,
}

pub open spec fn mesh_members(
    place: Place,
    called: Seq<Called>,
    heard: Seq<Heard>,
    patrons: Seq<PatronSeen>,
    now: u64,
) -> Seq<(Seq<char>, Tree)> {
    seq![
        ("inbound"@, Tree::List(inbound_trees(heard, called, now))),
        ("patrons"@, Tree::List(patron_trees(patrons, now))),
        ("learner"@, Tree::Bool(place.learner)),
        ("me"@, json::tree(place.me)),
        ("quorum"@, Tree::Num(place.quorum)),
        ("producing"@, Tree::Bool(place.producing)),
        ("following"@, json::text_or_null(text::text_view(place.following))),
        ("last_checkpoint"@, Tree::Num(place.last_checkpoint)),
        ("peers"@, Tree::List(called_trees(called, now))),
    ]
}

/// The mesh as seen from this node: itself, every peer as last seen, those that
/// only call it, and its patrons.
pub fn peers_json(
    place: Place,
    called: Vec<Called>,
    heard: Vec<Heard>,
    patrons: Vec<PatronSeen>,
    now: u64,
) -> (r: Json)
    ensures
        json::tree(r) == Tree::Object(mesh_members(place, called@, heard@, patrons@, now)),
{
    let ghost want = mesh_members(place, called@, heard@, patrons@, now);
    let mut m = json::members();
    json::member(&mut m, "inbound", inbound_json(heard, &called, now));
    json::member(&mut m, "patrons", patrons_json(patrons, now));
    json::member(&mut m, "learner", Json::Bool(place.learner));
    json::member(&mut m, "me", place.me);
    json::member(&mut m, "quorum", Json::Num(place.quorum));
    json::member(&mut m, "producing", Json::Bool(place.producing));
    json::member(&mut m, "following", json::string_or_null(&place.following));
    json::member(&mut m, "last_checkpoint", Json::Num(place.last_checkpoint));
    json::member(&mut m, "peers", called_json(called, now));
    assert(json::tree_members(m@) =~= want);
    Json::Object(m)
}

// ---------------------------------------------------------------------
// What an answer reads back as
// ---------------------------------------------------------------------

/// A task is served with all that is known of it: its name, its status, who
/// it is for and who holds it until when, who opened it, its text and what
/// came of it.
pub proof fn a_task_row_reads_back(
    t: TaskRow,
    j: Json,
)
    requires
        json::tree(j) == Tree::Object(task_members(t)),
    ensures
        json::text_at(j, "id"@) == Some(common::task_name(t.id)),
        json::text_at(j, "status"@) == Some(t.status@),
        json::text_at(j, "assignee"@) == (match t.assignee {
            Some(a) => Some(keys::hexed(a@)),
            None => None,
        }),
        json::text_at(j, "holder"@) == (match t.holder {
            Some(a) => Some(keys::hexed(a@)),
            None => None,
        }),
        json::num_at(j, "lease_until"@) == t.lease_until,
        json::text_at(j, "opened_by"@) == Some(keys::hexed(t.opened_by@)),
        json::num_at(j, "opened_at"@) == Some(t.opened_at),
        json::text_at(j, "text"@) == Some(t.text@),
        json::under(json::tree(j), "outcome"@) == Some(outcome_tree(t.outcome)),
        t.outcome is None ==> !json::set_at(j, "outcome"@),
{
    reveal_strlit("id");
    reveal_strlit("status");
    reveal_strlit("assignee");
    reveal_strlit("holder");
    reveal_strlit("lease_until");
    reveal_strlit("opened_by");
    reveal_strlit("opened_at");
    reveal_strlit("text");
    reveal_strlit("outcome");
    assert("id"@.len() == 2);
    assert("status"@.len() == 6);
    assert("assignee"@.len() == 8);
    assert("holder"@.len() == 6);
    assert("lease_until"@.len() == 11);
    assert("opened_by"@.len() == 9);
    assert("opened_at"@.len() == 9);
    assert("text"@.len() == 4);
    assert("outcome"@.len() == 7);
    assert("holder"@[0] == 'h');
    assert("opened_at"@[7] == 'a');
    assert("opened_by"@[7] == 'b');
    assert("status"@[0] == 's');
    let m = task_members(t);
    assert(json::under(json::tree(j), "id"@) == Some(m[0].1)) by {
        assert(m[0].0 == "id"@);
        json::lemma_member_found(m, 0);
    }
    json::values_read_as_built(j, "id"@);
    assert(json::under(json::tree(j), "status"@) == Some(m[1].1)) by {
        assert(m[1].0 == "status"@);
        json::lemma_member_found(m, 1);
    }
    json::values_read_as_built(j, "status"@);
    assert(json::under(json::tree(j), "assignee"@) == Some(m[2].1)) by {
        assert(m[2].0 == "assignee"@);
        json::lemma_member_found(m, 2);
    }
    json::values_read_as_built(j, "assignee"@);
    assert(json::under(json::tree(j), "holder"@) == Some(m[3].1)) by {
        assert(m[3].0 == "holder"@);
        json::lemma_member_found(m, 3);
    }
    json::values_read_as_built(j, "holder"@);
    assert(json::under(json::tree(j), "lease_until"@) == Some(m[4].1)) by {
        assert(m[4].0 == "lease_until"@);
        json::lemma_member_found(m, 4);
    }
    json::values_read_as_built(j, "lease_until"@);
    assert(json::under(json::tree(j), "opened_by"@) == Some(m[5].1)) by {
        assert(m[5].0 == "opened_by"@);
        json::lemma_member_found(m, 5);
    }
    json::values_read_as_built(j, "opened_by"@);
    assert(json::under(json::tree(j), "opened_at"@) == Some(m[6].1)) by {
        assert(m[6].0 == "opened_at"@);
        json::lemma_member_found(m, 6);
    }
    json::values_read_as_built(j, "opened_at"@);
    assert(json::under(json::tree(j), "text"@) == Some(m[7].1)) by {
        assert(m[7].0 == "text"@);
        json::lemma_member_found(m, 7);
    }
    json::values_read_as_built(j, "text"@);
    assert(json::under(json::tree(j), "outcome"@) == Some(m[8].1)) by {
        assert(m[8].0 == "outcome"@);
        json::lemma_member_found(m, 8);
    }
    json::values_read_as_built(j, "outcome"@);
}

/// What came of a task is served with whether it failed and what was said.
pub proof fn an_outcome_reads_back(
    failed: bool,
    words: String,
    j: Json,
)
    requires
        json::tree(j) == Tree::Object((outcome_tree(Some((failed, words)))->Object_0)),
    ensures
        failed ==> json::text_at(j, "kind"@) == Some("failed"@),
        !failed ==> json::text_at(j, "kind"@) == Some("done"@),
        json::text_at(j, "text"@) == Some(words@),
{
    reveal_strlit("kind");
    reveal_strlit("text");
    assert("kind"@.len() == 4);
    assert("text"@.len() == 4);
    assert("kind"@[0] == 'k');
    assert("text"@[0] == 't');
    reveal_with_fuel(json::first_under, 4);
    json::values_read_as_built(j, "kind"@);
    json::values_read_as_built(j, "text"@);
}

/// The head is served with its block, its sequence number, who leads,
/// whether the block is closed, and the last checkpoint.
pub proof fn a_head_reads_back(
    block: u64,
    seq: u64,
    leader: Option<Account>,
    closed: bool,
    last: u64,
    j: Json,
)
    requires
        json::tree(j) == Tree::Object(head_members(block, seq, leader, closed, last)),
    ensures
        json::num_at(j, "block"@) == Some(block),
        json::num_at(j, "seq"@) == Some(seq),
        json::text_at(j, "leader"@) == (match leader {
            Some(a) => Some(keys::hexed(a@)),
            None => None,
        }),
        json::flag_at(j, "closed"@) == closed,
        json::num_at(j, "last_checkpoint"@) == Some(last),
{
    reveal_strlit("block");
    reveal_strlit("seq");
    reveal_strlit("leader");
    reveal_strlit("closed");
    reveal_strlit("last_checkpoint");
    assert("block"@.len() == 5);
    assert("seq"@.len() == 3);
    assert("leader"@.len() == 6);
    assert("closed"@.len() == 6);
    assert("last_checkpoint"@.len() == 15);
    assert("closed"@[0] == 'c');
    assert("leader"@[0] == 'l');
    reveal_with_fuel(json::first_under, 7);
    json::values_read_as_built(j, "block"@);
    json::values_read_as_built(j, "seq"@);
    json::values_read_as_built(j, "leader"@);
    json::values_read_as_built(j, "closed"@);
    json::values_read_as_built(j, "last_checkpoint"@);
}

/// A member is served with its name and its account.
pub proof fn a_name_reads_back(
    e: (String, Account),
    j: Json,
)
    requires
        json::tree(j) == Tree::Object(name_members(e)),
    ensures
        json::text_at(j, "name"@) == Some(e.0@),
        json::text_at(j, "account"@) == Some(keys::hexed(e.1@)),
{
    reveal_strlit("name");
    reveal_strlit("account");
    assert("name"@.len() == 4);
    assert("account"@.len() == 7);
    reveal_with_fuel(json::first_under, 4);
    json::values_read_as_built(j, "name"@);
    json::values_read_as_built(j, "account"@);
}

/// A comment is served with whose it is, when and in which session it was
/// made, and its words.
pub proof fn a_comment_reads_back(
    c: Comment,
    j: Json,
)
    requires
        json::tree(j) == Tree::Object(comment_members(c)),
    ensures
        json::text_at(j, "who"@) == Some(keys::hexed(c.who@)),
        json::num_at(j, "at"@) == Some(c.at),
        json::num_at(j, "epoch"@) == Some((c.epoch as u64)),
        json::text_at(j, "body"@) == Some(c.body@),
{
    reveal_strlit("who");
    reveal_strlit("at");
    reveal_strlit("epoch");
    reveal_strlit("body");
    assert("who"@.len() == 3);
    assert("at"@.len() == 2);
    assert("epoch"@.len() == 5);
    assert("body"@.len() == 4);
    reveal_with_fuel(json::first_under, 6);
    json::values_read_as_built(j, "who"@);
    json::values_read_as_built(j, "at"@);
    json::values_read_as_built(j, "epoch"@);
    json::values_read_as_built(j, "body"@);
}

/// An artifact that is found is served whole, with its votes and its
/// comments.
pub proof fn a_found_artifact_reads_back(
    p: Paper,
    t: Tally,
    comments: Seq<Comment>,
    epoch: Option<u32>,
    j: Json,
)
    requires
        json::tree(j) == Tree::Object(found_members(Some((p, t)), comments, epoch)),
    ensures
        json::flag_at(j, "found"@) == true,
        json::text_at(j, "title"@) == Some(p.title@),
        json::text_at(j, "body"@) == Some(p.body@),
        json::text_at(j, "author"@) == Some(keys::hexed(p.author@)),
        json::under(json::tree(j), "votes"@) == Some(tally_tree(t)),
        json::under(json::tree(j), "comments"@) == Some(Tree::List(thread(comments, epoch))),
{
    reveal_strlit("found");
    reveal_strlit("title");
    reveal_strlit("body");
    reveal_strlit("author");
    reveal_strlit("votes");
    reveal_strlit("comments");
    assert("found"@.len() == 5);
    assert("title"@.len() == 5);
    assert("body"@.len() == 4);
    assert("author"@.len() == 6);
    assert("votes"@.len() == 5);
    assert("comments"@.len() == 8);
    assert("found"@[0] == 'f');
    assert("title"@[0] == 't');
    assert("votes"@[0] == 'v');
    reveal_with_fuel(json::first_under, 8);
    json::values_read_as_built(j, "found"@);
    json::values_read_as_built(j, "title"@);
    json::values_read_as_built(j, "body"@);
    json::values_read_as_built(j, "author"@);
    json::values_read_as_built(j, "votes"@);
    json::values_read_as_built(j, "comments"@);
}

/// One that is not found is said not to be.
pub proof fn a_missing_artifact_says_so(
    comments: Seq<Comment>,
    epoch: Option<u32>,
    j: Json,
)
    requires
        json::tree(j) == Tree::Object(found_members(None, comments, epoch)),
    ensures
        json::flag_at(j, "found"@) == false,
{
    reveal_strlit("found");
    assert("found"@.len() == 5);
    reveal_with_fuel(json::first_under, 3);
    json::values_read_as_built(j, "found"@);
}

/// A note is listed with its number, its title, its author and when it was
/// made.
pub proof fn a_note_row_reads_back(
    e: (u32, Paper),
    j: Json,
)
    requires
        json::tree(j) == Tree::Object(note_members(e)),
    ensures
        json::num_at(j, "id"@) == Some((e.0 as u64)),
        json::text_at(j, "title"@) == Some(e.1.title@),
        json::text_at(j, "author"@) == Some(keys::hexed(e.1.author@)),
        json::num_at(j, "at"@) == Some(e.1.at),
{
    reveal_strlit("id");
    reveal_strlit("title");
    reveal_strlit("author");
    reveal_strlit("at");
    assert("id"@.len() == 2);
    assert("title"@.len() == 5);
    assert("author"@.len() == 6);
    assert("at"@.len() == 2);
    assert("at"@[0] == 'a');
    assert("id"@[0] == 'i');
    reveal_with_fuel(json::first_under, 6);
    json::values_read_as_built(j, "id"@);
    json::values_read_as_built(j, "title"@);
    json::values_read_as_built(j, "author"@);
    json::values_read_as_built(j, "at"@);
}

/// An artifact is listed with its id, its kind, its title, its author and
/// when it was made.
pub proof fn a_paper_reads_back(
    id: Seq<char>,
    kind: Seq<char>,
    p: Paper,
    j: Json,
)
    requires
        json::tree(j) == Tree::Object(paper_members(id, kind, p)),
    ensures
        json::text_at(j, "id"@) == Some(id),
        json::text_at(j, "kind"@) == Some(kind),
        json::text_at(j, "title"@) == Some(p.title@),
        json::text_at(j, "author"@) == Some(keys::hexed(p.author@)),
        json::num_at(j, "at"@) == Some(p.at),
{
    reveal_strlit("id");
    reveal_strlit("kind");
    reveal_strlit("title");
    reveal_strlit("author");
    reveal_strlit("at");
    assert("id"@.len() == 2);
    assert("kind"@.len() == 4);
    assert("title"@.len() == 5);
    assert("author"@.len() == 6);
    assert("at"@.len() == 2);
    assert("at"@[0] == 'a');
    assert("id"@[0] == 'i');
    reveal_with_fuel(json::first_under, 7);
    json::values_read_as_built(j, "id"@);
    json::values_read_as_built(j, "kind"@);
    json::values_read_as_built(j, "title"@);
    json::values_read_as_built(j, "author"@);
    json::values_read_as_built(j, "at"@);
}

/// The stats of a cat are served with every figure, and its messages where
/// it counted them.
pub proof fn a_stats_row_reads_back(
    s: StatsRow,
    j: Json,
)
    requires
        json::tree(j) == Tree::Object(stats_members(s)),
    ensures
        json::text_at(j, "account"@) == Some(keys::hexed(s.account@)),
        json::num_at(j, "turns"@) == Some(s.turns),
        json::num_at(j, "tool_calls"@) == Some(s.tool_calls),
        json::num_at(j, "tokens"@) == Some(s.tokens),
        json::num_at(j, "ms"@) == Some(s.ms),
        json::num_at(j, "messages"@) == s.messages,
{
    reveal_strlit("account");
    reveal_strlit("turns");
    reveal_strlit("tool_calls");
    reveal_strlit("tokens");
    reveal_strlit("ms");
    reveal_strlit("messages");
    assert("account"@.len() == 7);
    assert("turns"@.len() == 5);
    assert("tool_calls"@.len() == 10);
    assert("tokens"@.len() == 6);
    assert("ms"@.len() == 2);
    assert("messages"@.len() == 8);
    reveal_with_fuel(json::first_under, 8);
    json::values_read_as_built(j, "account"@);
    json::values_read_as_built(j, "turns"@);
    json::values_read_as_built(j, "tool_calls"@);
    json::values_read_as_built(j, "tokens"@);
    json::values_read_as_built(j, "ms"@);
    json::values_read_as_built(j, "messages"@);
}

/// A node serves what it sees of the mesh: its own place in it, whom it
/// calls, who calls it, and its patrons.
pub proof fn a_mesh_reads_back(
    place: Place,
    called: Seq<Called>,
    heard: Seq<Heard>,
    patrons: Seq<PatronSeen>,
    now: u64,
    j: Json,
)
    requires
        json::tree(j) == Tree::Object(mesh_members(place, called, heard, patrons, now)),
    ensures
        json::under(json::tree(j), "inbound"@) == Some(Tree::List(inbound_trees(heard, called, now))),
        json::under(json::tree(j), "patrons"@) == Some(Tree::List(patron_trees(patrons, now))),
        json::flag_at(j, "learner"@) == place.learner,
        json::under(json::tree(j), "me"@) == Some(json::tree(place.me)),
        json::num_at(j, "quorum"@) == Some(place.quorum),
        json::flag_at(j, "producing"@) == place.producing,
        json::text_at(j, "following"@) == text::text_view(place.following),
        json::num_at(j, "last_checkpoint"@) == Some(place.last_checkpoint),
        json::under(json::tree(j), "peers"@) == Some(Tree::List(called_trees(called, now))),
{
    reveal_strlit("inbound");
    reveal_strlit("patrons");
    reveal_strlit("learner");
    reveal_strlit("me");
    reveal_strlit("quorum");
    reveal_strlit("producing");
    reveal_strlit("following");
    reveal_strlit("last_checkpoint");
    reveal_strlit("peers");
    assert("inbound"@.len() == 7);
    assert("patrons"@.len() == 7);
    assert("learner"@.len() == 7);
    assert("me"@.len() == 2);
    assert("quorum"@.len() == 6);
    assert("producing"@.len() == 9);
    assert("following"@.len() == 9);
    assert("last_checkpoint"@.len() == 15);
    assert("peers"@.len() == 5);
    assert("following"@[0] == 'f');
    assert("inbound"@[0] == 'i');
    assert("learner"@[0] == 'l');
    assert("patrons"@[0] == 'p');
    assert("producing"@[0] == 'p');
    let m = mesh_members(place, called, heard, patrons, now);
    assert(json::under(json::tree(j), "inbound"@) == Some(m[0].1)) by {
        assert(m[0].0 == "inbound"@);
        json::lemma_member_found(m, 0);
    }
    json::values_read_as_built(j, "inbound"@);
    assert(json::under(json::tree(j), "patrons"@) == Some(m[1].1)) by {
        assert(m[1].0 == "patrons"@);
        json::lemma_member_found(m, 1);
    }
    json::values_read_as_built(j, "patrons"@);
    assert(json::under(json::tree(j), "learner"@) == Some(m[2].1)) by {
        assert(m[2].0 == "learner"@);
        json::lemma_member_found(m, 2);
    }
    json::values_read_as_built(j, "learner"@);
    assert(json::under(json::tree(j), "me"@) == Some(m[3].1)) by {
        assert(m[3].0 == "me"@);
        json::lemma_member_found(m, 3);
    }
    json::values_read_as_built(j, "me"@);
    assert(json::under(json::tree(j), "quorum"@) == Some(m[4].1)) by {
        assert(m[4].0 == "quorum"@);
        json::lemma_member_found(m, 4);
    }
    json::values_read_as_built(j, "quorum"@);
    assert(json::under(json::tree(j), "producing"@) == Some(m[5].1)) by {
        assert(m[5].0 == "producing"@);
        json::lemma_member_found(m, 5);
    }
    json::values_read_as_built(j, "producing"@);
    assert(json::under(json::tree(j), "following"@) == Some(m[6].1)) by {
        assert(m[6].0 == "following"@);
        json::lemma_member_found(m, 6);
    }
    json::values_read_as_built(j, "following"@);
    assert(json::under(json::tree(j), "last_checkpoint"@) == Some(m[7].1)) by {
        assert(m[7].0 == "last_checkpoint"@);
        json::lemma_member_found(m, 7);
    }
    json::values_read_as_built(j, "last_checkpoint"@);
    assert(json::under(json::tree(j), "peers"@) == Some(m[8].1)) by {
        assert(m[8].0 == "peers"@);
        json::lemma_member_found(m, 8);
    }
    json::values_read_as_built(j, "peers"@);
}

/// A peer is served with its route, and with what it last said and how long
/// ago, where it said anything.
pub proof fn a_called_peer_reads_back(
    c: Called,
    now: u64,
    j: Json,
)
    requires
        json::tree(j) == Tree::Object((called_tree(c, now)->Object_0)),
    ensures
        json::text_at(j, "route"@) == Some(c.route@),
        c.last is Some ==> json::under(json::tree(j), "status"@) == Some(json::tree((c.last->0).status)),
        c.last is Some && now >= (c.last->0).at ==> json::num_at(j, "seen_ms_ago"@) == Some((now - (c.last->0).at) as u64),
        c.last is None ==> !json::set_at(j, "seen_ms_ago"@),
        c.last is None ==> !json::set_at(j, "status"@),
{
    reveal_strlit("route");
    reveal_strlit("status");
    reveal_strlit("seen_ms_ago");
    assert("route"@.len() == 5);
    assert("status"@.len() == 6);
    assert("seen_ms_ago"@.len() == 11);
    reveal_with_fuel(json::first_under, 5);
    json::values_read_as_built(j, "route"@);
    json::values_read_as_built(j, "status"@);
    json::values_read_as_built(j, "seen_ms_ago"@);
}

/// Of tasks and notes all are listed, tasks first, each under its own name and
/// kind.
pub proof fn every_artifact_is_served(
    tasks: Seq<(TaskId, Paper)>,
    notes: Seq<(u32, Paper)>,
    i: int,
)
    ensures
        paper_trees(tasks, notes).len() == tasks.len() + notes.len(),
        0 <= i < tasks.len() ==> paper_trees(tasks, notes)[i] == Tree::Object(
            paper_members(common::task_name(tasks[i].0), "task"@, tasks[i].1),
        ),
        0 <= i < notes.len() ==> paper_trees(tasks, notes)[tasks.len() + i] == Tree::Object(
            paper_members(text::dec(notes[i].0 as nat), "standalone"@, notes[i].1),
        ),
{
}

/// Every row of a list is served, in order.
pub proof fn every_row_is_served(
    tasks: Seq<TaskRow>,
    names: Seq<(String, Account)>,
    notes: Seq<(u32, Paper)>,
    stats: Seq<StatsRow>,
    up: Seq<Account>,
    i: int,
)
    ensures
        task_memberss(tasks).len() == tasks.len(),
        0 <= i < tasks.len() ==> task_memberss(tasks)[i] == Tree::Object(task_members(tasks[i])),
        name_memberss(names).len() == names.len(),
        0 <= i < names.len() ==> name_memberss(names)[i] == Tree::Object(name_members(names[i])),
        note_memberss(notes).len() == notes.len(),
        0 <= i < notes.len() ==> note_memberss(notes)[i] == Tree::Object(note_members(notes[i])),
        stats_memberss(stats).len() == stats.len(),
        0 <= i < stats.len() ==> stats_memberss(stats)[i] == Tree::Object(stats_members(stats[i])),
        hex_trees(up).len() == up.len(),
        0 <= i < up.len() ==> hex_trees(up)[i] == Tree::Str(keys::hexed(up[i]@)),
{
}

/// The votes of both sides are served, each with who cast it.
pub proof fn a_tally_reads_back(
    t: Tally,
    j: Json,
)
    requires
        json::tree(j) == Tree::Object((tally_tree(t)->Object_0)),
    ensures
        json::under(json::tree(j), "up"@) == Some(Tree::List(hex_trees(t.up@))),
        json::under(json::tree(j), "down"@) == Some(Tree::List(hex_trees(t.down@))),
{
    reveal_strlit("up");
    reveal_strlit("down");
    assert("up"@.len() == 2);
    assert("down"@.len() == 4);
    reveal_with_fuel(json::first_under, 4);
    json::values_read_as_built(j, "up"@);
    json::values_read_as_built(j, "down"@);
}

/// The comments of a session are served in order, and those of all where
/// none is asked for.
pub proof fn comments_are_served_by_session(
    a: Seq<Comment>,
    b: Seq<Comment>,
    x: Comment,
    epoch: Option<u32>,
)
    ensures
        thread(a + b, epoch) == thread(a, epoch) + thread(b, epoch),
        thread(seq![x], epoch) == (if epoch is None || epoch == Some(x.epoch) {
            seq![Tree::Object(comment_members(x))]
        } else {
            Seq::<Tree>::empty()
        }),
        thread(Seq::<Comment>::empty(), epoch).len() == 0,
    decreases b.len(),
{
    reveal_with_fuel(thread, 2);
    assert(seq![x].drop_last() =~= Seq::<Comment>::empty());
    assert(thread(Seq::<Comment>::empty(), epoch).len() == 0);
    if b.len() == 0 {
        assert(a + b =~= a);
        assert(thread(a + b, epoch) =~= thread(a, epoch) + thread(b, epoch));
    } else {
        let all = a + b;
        assert(all.drop_last() =~= a + b.drop_last());
        assert(all.last() == b.last());
        comments_are_served_by_session(a, b.drop_last(), x, epoch);
        assert(thread(all, epoch) =~= thread(a, epoch) + thread(b, epoch));
    }
}

/// Everyone who called in is served in order, but those that are called out
/// to already.
pub proof fn whoever_calls_in_is_served(
    a: Seq<Heard>,
    b: Seq<Heard>,
    x: Heard,
    called: Seq<Called>,
    now: u64,
)
    ensures
        inbound_trees(a + b, called, now) == inbound_trees(a, called, now) + inbound_trees(b, called, now),
        inbound_trees(seq![x], called, now) == (if !routed(called, x.name@) {
            seq![Tree::Object(
                seq![("seen_ms_ago"@, ago(now, x.at)), ("status"@, json::tree(x.status))],
            )]
        } else {
            Seq::<Tree>::empty()
        }),
        inbound_trees(Seq::<Heard>::empty(), called, now).len() == 0,
    decreases b.len(),
{
    reveal_with_fuel(inbound_trees, 2);
    assert(seq![x].drop_last() =~= Seq::<Heard>::empty());
    assert(inbound_trees(Seq::<Heard>::empty(), called, now).len() == 0);
    if b.len() == 0 {
        assert(a + b =~= a);
        assert(inbound_trees(a + b, called, now) =~= inbound_trees(a, called, now) + inbound_trees(b, called, now));
    } else {
        let all = a + b;
        assert(all.drop_last() =~= a + b.drop_last());
        assert(all.last() == b.last());
        whoever_calls_in_is_served(a, b.drop_last(), x, called, now);
        assert(inbound_trees(all, called, now) =~= inbound_trees(a, called, now) + inbound_trees(b, called, now));
    }
}

} // verus!
