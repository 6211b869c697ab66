//! One line the operator sends: a slash command, or plain words with `@name`
//! tags. What it asks for is decided here; the caller fetches, submits and
//! prints.

use crate::agent;
use crate::common;
use crate::common::{Roster, TaskId};
use crate::composer;
use crate::json;
use crate::json::Json;
use crate::keys;
use crate::keys::Account;
use crate::markdown;
use crate::text;
use crate::ui;
use crate::ui::Skin;
use vstd::prelude::*;
use vstd::string::*;

verus! {

// ---------------------------------------------------------------------
// Whom a line is for
// ---------------------------------------------------------------------

/// The name a tag spells: the word without its `@`, without what it ends with
/// that is neither letter nor number, in small letters.
pub open spec fn tag_of(word: Seq<char>) -> Option<Seq<char>> {
    match text::after_prefix(word, "@"@) {
        Some(t) => Some(text::lowered(ui::word_part(t))),
        None => None,
    }
}

/// A name for everyone.
pub open spec fn is_alias(name: Seq<char>) -> bool {
    name == "all"@ || name == "cats"@ || name == "litter"@
}

/// Whether one of the words is a tag for everyone.
pub open spec fn calls_everyone(ws: Seq<Seq<char>>) -> bool {
    exists|i: int|
        0 <= i < ws.len() && (tag_of(#[trigger] ws[i]) matches Some(n) && is_alias(n))
}

/// The cats that the words tag, each once, and the tags that name nobody.
pub open spec fn tagged_cats(ws: Seq<Seq<char>>, roster: Seq<(Seq<char>, Seq<u8>)>) -> (
    Seq<Seq<u8>>,
    Seq<Seq<char>>,
)
    decreases ws.len(),
{
    if ws.len() == 0 {
        (seq![], seq![])
    } else {
        let (cats, unknown) = tagged_cats(ws.drop_last(), roster);
        match tag_of(ws.last()) {
            None => (cats, unknown),
            Some(n) => match common::account_named(roster, common::tag_name(n)) {
                Some(a) => if cats.contains(a) {
                    (cats, unknown)
                } else {
                    (cats.push(a), unknown)
                },
                None => (cats, unknown.push(n)),
            },
        }
    }
}

/// Whom a line is for: nobody in particular where it tags everyone.
pub open spec fn targets_of(line: Seq<char>, roster: Seq<(Seq<char>, Seq<u8>)>) -> (
    Seq<Seq<u8>>,
    Seq<Seq<char>>,
) {
    let ws = text::words(line);
    if calls_everyone(ws) {
        (seq![], seq![])
    } else {
        tagged_cats(ws, roster)
    }
}

pub open spec fn accounts(v: Seq<Account>) -> Seq<Seq<u8>> {
    Seq::new(v.len(), |i: int| v[i]@)
}

pub(crate) fn tag_in(word: &str) -> (r: Option<String>)
    ensures
        text::text_view(r) == tag_of(word@),
{
    match text::strip_prefix(word, "@") {
        Some(t) => Some(text::to_lower(ui::word_of(t.as_str()).as_str())),
        None => None,
    }
}

fn knows(v: &Vec<Account>, a: &Account) -> (r: bool)
    ensures
        r == accounts(v@).contains(a@),
{
    let ghost all = accounts(v@);
    let mut i: usize = 0;
    while i < v.len()
        invariant
            i <= v.len(),
            all == accounts(v@),
            forall|j: int| 0 <= j < i ==> all[j] != a@,
        decreases v.len() - i,
    {
        if keys::same_account(&v[i], a) {
            assert(all[i as int] == a@);
            return true;
        }
        i = i + 1;
    }
    false
}

/// `@name` tags in a line: who to say it to. `@all`, `@cats` or `@litter`
/// anywhere forces a broadcast (no targets); otherwise every tag that names a
/// cat is a target, in order, each once. Unknown tags come back as a soft
/// warning, not a refusal.
pub fn parse_targets(roster: &Roster, line: &str) -> (r: (Vec<Account>, Vec<String>))
    ensures
        (accounts(r.0@), text::texts(r.1@)) == targets_of(line@, roster@),
{
    let ws = text::words_of(line);
    let ghost all = text::words(line@);
    let mut cats: Vec<Account> = Vec::new();
    let mut unknown = text::none();
    let mut i: usize = 0;
    assert(all.take(0) =~= Seq::<Seq<char>>::empty());
    assert(accounts(cats@) =~= Seq::<Seq<u8>>::empty());
    assert(text::texts(unknown@) =~= Seq::<Seq<char>>::empty());
    while i < ws.len()
        invariant
            i <= ws.len(),
            all == text::words(line@),
            all == text::texts(ws@),
            (accounts(cats@), text::texts(unknown@)) == tagged_cats(all.take(i as int), roster@),
            forall|j: int|
                0 <= j < i ==> !(tag_of(#[trigger] all[j]) matches Some(n) && is_alias(n)),
        decreases ws.len() - i,
    {
        assert(all.take(i + 1).drop_last() =~= all.take(i as int));
        assert(all.take(i + 1).last() == ws@[i as int]@);
        assert(all[i as int] == ws@[i as int]@);
        match tag_in(ws[i].as_str()) {
            Some(n) => {
                if text::same(n.as_str(), "all") || text::same(n.as_str(), "cats") || text::same(
                    n.as_str(),
                    "litter",
                ) {
                    assert(calls_everyone(all));
                    let none: Vec<Account> = Vec::new();
                    assert(accounts(none@) =~= Seq::<Seq<u8>>::empty());
                    return (none, text::none());
                }
                let ghost was = accounts(cats@);
                match roster.account(n.as_str()) {
                    Some(a) => if !knows(&cats, &a) {
                        cats.push(a);
                        assert(accounts(cats@) =~= was.push(a@));
                    },
                    None => text::put(&mut unknown, n.as_str()),
                }
            },
            None => {},
        }
        i = i + 1;
    }
    assert(all.take(i as int) =~= all);
    assert(!calls_everyone(all));
    (cats, unknown)
}

// ---------------------------------------------------------------------
// Actions
// ---------------------------------------------------------------------

/// What an artifact is known by: a closed task's report, or a note of its own.
#[derive(Clone, Copy, Debug, PartialEq, Eq, Structural)]
pub enum ArtifactId {
    Task(TaskId),
    Note(u32),
}

/// A chain write that the operator makes.
#[derive(Debug)]
pub enum Write {
    ClearAll,
    Open { text: String },
    Say { to: Option<Account>, body: String, no_ack: bool, off_record: bool },
    React { target: u64, emoji: String },
    Vote { artifact: ArtifactId, up: bool },
}

pub enum WriteView {
    ClearAll,
    Open { text: Seq<char> },
    Say { to: Option<Seq<u8>>, body: Seq<char>, no_ack: bool, off_record: bool },
    React { target: u64, emoji: Seq<char> },
    Vote { artifact: ArtifactId, up: bool },
}

impl View for Write {
    type V = WriteView;

    open spec fn view(&self) -> WriteView {
        match *self {
            Write::ClearAll => WriteView::ClearAll,
            Write::Open { text } => WriteView::Open { text: text@ },
            Write::Say { to, body, no_ack, off_record } => WriteView::Say {
                to: keys::account_view(to),
                body: body@,
                no_ack,
                off_record,
            },
            Write::React { target, emoji } => WriteView::React { target, emoji: emoji@ },
            Write::Vote { artifact, up } => WriteView::Vote { artifact, up },
        }
    }
}

/// A message of the operator's. It always wants an answer: a human at the
/// keyboard is never the one who does not.
pub fn say_call(to: Option<Account>, body: &str, off_record: bool) -> (r: Write)
    ensures
        r@ == (WriteView::Say {
            to: keys::account_view(to),
            body: body@,
            no_ack: false,
            off_record,
        }),
{
    Write::Say { to, body: body.to_owned(), no_ack: false, off_record }
}

/// What a line asks for.
#[derive(Debug)]
pub enum Action {
    /// End the session.
    Quit,
    Print(String),
    /// Submit, and print `done` where it was taken.
    Submit { write: Write, done: Option<String> },
    /// The litter's tasks, on chain.
    Tasks,
    /// One cat's own list.
    LocalTasks(String),
    Peers,
    Activity(Option<String>),
    /// Read an artifact from this path.
    Artifact { path: String, id: String },
    Note(String),
    Notes,
    Artifacts,
    /// Print, and send the body, where there is one, to the new target.
    Dm { note: String, to: Account, body: String },
    /// Print the warnings, then say it once to each.
    Speak { warnings: Vec<String>, to: Vec<Option<Account>>, text: String, off_record: bool },
    /// Print the warnings, then post it once to each.
    Reply {
        warnings: Vec<String>,
        to: Vec<Option<Account>>,
        text: String,
        parent: u64,
        tags: Vec<String>,
    },
}

pub enum ActionView {
    Quit,
    Print(Seq<char>),
    Submit { write: WriteView, done: Option<Seq<char>> },
    Tasks,
    LocalTasks(Seq<char>),
    Peers,
    Activity(Option<Seq<char>>),
    Artifact { path: Seq<char>, id: Seq<char> },
    Note(Seq<char>),
    Notes,
    Artifacts,
    Dm { note: Seq<char>, cat: Seq<u8>, body: Seq<char> },
    Speak {
        warnings: Seq<Seq<char>>,
        to: Seq<Option<Seq<u8>>>,
        text: Seq<char>,
        off_record: bool,
    },
    Reply {
        warnings: Seq<Seq<char>>,
        to: Seq<Option<Seq<u8>>>,
        text: Seq<char>,
        parent: u64,
        tags: Seq<Seq<char>>,
    },
}

pub open spec fn receivers(v: Seq<Option<Account>>) -> Seq<Option<Seq<u8>>> {
    Seq::new(v.len(), |i: int| keys::account_view(v[i]))
}

impl View for Action {
    type V = ActionView;

    open spec fn view(&self) -> ActionView {
        match *self {
            Action::Quit => ActionView::Quit,
            Action::Print(s) => ActionView::Print(s@),
            Action::Submit { write, done } => ActionView::Submit {
                write: write@,
                done: text::text_view(done),
            },
            Action::Tasks => ActionView::Tasks,
            Action::LocalTasks(s) => ActionView::LocalTasks(s@),
            Action::Peers => ActionView::Peers,
            Action::Activity(o) => ActionView::Activity(text::text_view(o)),
            Action::Artifact { path, id } => ActionView::Artifact { path: path@, id: id@ },
            Action::Note(id) => ActionView::Note(id@),
            Action::Notes => ActionView::Notes,
            Action::Artifacts => ActionView::Artifacts,
            Action::Dm { note, to, body } => ActionView::Dm { note: note@, cat: to@, body: body@ },
            Action::Speak { warnings, to, text, off_record } => ActionView::Speak {
                warnings: text::texts(warnings@),
                to: receivers(to@),
                text: text@,
                off_record,
            },
            Action::Reply { warnings, to, text, parent, tags } => ActionView::Reply {
                warnings: text::texts(warnings@),
                to: receivers(to@),
                text: text@,
                parent,
                tags: text::texts(tags@),
            },
        }
    }
}

/// The command and what follows it.
pub open spec fn command_parts(line: Seq<char>) -> (Seq<char>, Seq<char>) {
    match text::cut(line, ' ') {
        Some((a, b)) => (a, text::trimmed(b)),
        None => (line, ""@),
    }
}

/// The first word of what follows and the rest of it.
pub open spec fn first_and_rest(rest: Seq<char>) -> (Seq<char>, Seq<char>) {
    match text::cut(rest, ' ') {
        Some((a, b)) => (a, text::trimmed(b)),
        None => (rest, ""@),
    }
}

/// A word that is a topic: what follows its `#`.
pub open spec fn topic_of(word: Seq<char>) -> Option<Seq<char>> {
    match text::after_prefix(ui::word_part(word), "#"@) {
        Some(t) => if t.len() > 0 {
            Some(t)
        } else {
            None
        },
        None => None,
    }
}

/// The topics among the words, each once, and the words that are left: a topic
/// that is repeated stays.
pub open spec fn topics(ws: Seq<Seq<char>>) -> (Seq<Seq<char>>, Seq<Seq<char>>)
    decreases ws.len(),
{
    if ws.len() == 0 {
        (seq![], seq![])
    } else {
        let (tags, kept) = topics(ws.drop_last());
        match topic_of(ws.last()) {
            Some(t) => if tags.contains(t) {
                (tags, kept.push(ws.last()))
            } else {
                (tags.push(t), kept)
            },
            None => (tags, kept.push(ws.last())),
        }
    }
}

pub open spec fn warnings_for(k: Skin, unknown: Seq<Seq<char>>) -> Seq<Seq<char>> {
    Seq::new(
        unknown.len(),
        |i: int| "  "@ + ui::painted(k, k.theme.warm, "no such cat: @"@ + unknown[i]),
    )
}

/// Who hears a line that tags no cat: whoever is talked to, unless it tags
/// everyone.
pub open spec fn listener(line: Seq<char>, dm: Option<Seq<u8>>) -> Option<Seq<u8>> {
    if calls_everyone(text::words(line)) {
        None
    } else {
        dm
    }
}

/// Who gets a line: those it tags, or else whoever hears it.
pub open spec fn receivers_of(cats: Seq<Seq<u8>>, dm: Option<Seq<u8>>) -> Seq<Option<Seq<u8>>> {
    if cats.len() > 0 {
        Seq::new(cats.len(), |i: int| Some(cats[i]))
    } else {
        seq![dm]
    }
}

pub open spec fn speaking(
    k: Skin,
    roster: Seq<(Seq<char>, Seq<u8>)>,
    dm: Option<Seq<u8>>,
    line: Seq<char>,
    off_record: bool,
) -> ActionView {
    let (cats, unknown) = targets_of(line, roster);
    ActionView::Speak {
        warnings: warnings_for(k, unknown),
        to: receivers_of(cats, listener(line, dm)),
        text: line,
        off_record,
    }
}

pub open spec fn replying(
    k: Skin,
    roster: Seq<(Seq<char>, Seq<u8>)>,
    dm: Option<Seq<u8>>,
    rest: Seq<char>,
    message: Option<u64>,
) -> ActionView {
    match (text::cut(rest, ' '), message) {
        (Some((_, b)), Some(parent)) => {
            let (tags, kept) = topics(text::words(text::trimmed(b)));
            let body = text::joined(kept, " "@);
            let (cats, unknown) = targets_of(body, roster);
            ActionView::Reply {
                warnings: warnings_for(k, unknown),
                to: receivers_of(cats, listener(body, dm)),
                text: body,
                parent,
                tags,
            }
        },
        _ => ActionView::Print(
            "  "@ + ui::dimmed(
                k,
                "usage: /reply <id> <text> — #tags and @targets allowed in the text"@,
            ),
        ),
    }
}

pub open spec fn reacting(k: Skin, rest: Seq<char>, message: Option<u64>) -> ActionView {
    match (text::cut(rest, ' '), message) {
        (Some((_, e)), Some(target)) => if text::trimmed(e).len() > 0 {
            ActionView::Submit {
                write: WriteView::React { target, emoji: text::trimmed(e) },
                done: None,
            }
        } else {
            ActionView::Print("  "@ + ui::dimmed(k, "usage: /react <id> <emoji>"@))
        },
        _ => ActionView::Print("  "@ + ui::dimmed(k, "usage: /react <id> <emoji>"@)),
    }
}

pub open spec fn voting(k: Skin, rest: Seq<char>, artifact: Option<ArtifactId>) -> ActionView {
    let ws = text::words(rest);
    if ws.len() == 2 && (ws[1] == "up"@ || ws[1] == "down"@) {
        match artifact {
            Some(a) => ActionView::Submit {
                write: WriteView::Vote { artifact: a, up: ws[1] == "up"@ },
                done: None,
            },
            None => ActionView::Print(
                "  "@ + ui::painted(
                    k,
                    k.theme.warm,
                    "no such artifact id: "@ + ws[0] + " (t5 or 7)"@,
                ),
            ),
        }
    } else {
        ActionView::Print(
            "  "@ + ui::dimmed(k, "usage: /vote <id> <up|down> — e.g. /vote t5 up"@),
        )
    }
}

/// `/dm`: turn the target off, or set it.
pub open spec fn messaging(
    k: Skin,
    roster: Seq<(Seq<char>, Seq<u8>)>,
    dm: Option<Seq<u8>>,
    rest: Seq<char>,
) -> (ActionView, Option<Seq<u8>>) {
    if rest.len() == 0 {
        match dm {
            Some(a) => (
                ActionView::Print(
                    "  "@ + ui::dimmed(
                        k,
                        "dm off — "@ + common::name_for(roster, a) + " was the target"@,
                    ),
                ),
                None,
            ),
            None => (
                ActionView::Print(
                    "  "@ + ui::painted(
                        k,
                        k.theme.alarm,
                        "usage: /dm <name> [message] (no target set to turn off)"@,
                    ),
                ),
                None,
            ),
        }
    } else {
        let (name, body) = first_and_rest(rest);
        match common::account_named(roster, common::tag_name(name)) {
            Some(a) => (
                ActionView::Dm {
                    note: "  "@ + ui::dimmed(
                        k,
                        "dm → "@ + common::name_for(roster, a) + " (stays until /dm turns it off)"@,
                    ),
                    cat: a,
                    body,
                },
                Some(a),
            ),
            None => (
                ActionView::Print(
                    "  "@ + ui::painted(
                        k,
                        k.theme.warm,
                        "no such cat: @"@ + text::without_leading(name, '@'),
                    ),
                ),
                dm,
            ),
        }
    }
}

/// `/all`: back to the whole litter.
pub open spec fn addressing_all(
    k: Skin,
    roster: Seq<(Seq<char>, Seq<u8>)>,
    dm: Option<Seq<u8>>,
    rest: Seq<char>,
) -> ActionView {
    if rest.len() > 0 {
        ActionView::Submit {
            write: WriteView::Say { to: None, body: rest, no_ack: false, off_record: false },
            done: None,
        }
    } else {
        match dm {
            Some(a) => ActionView::Print(
                "  "@ + ui::dimmed(
                    k,
                    "back to the litter — "@ + common::name_for(roster, a)
                        + " is no longer the target"@,
                ),
            ),
            None => ActionView::Print("  "@ + ui::dimmed(k, "already talking to the whole litter"@)),
        }
    }
}

/// What a line asks for, and who is talked to from then on. `message` and
/// `artifact` are what its id stands for, where it has one.
pub open spec fn commanded(
    k: Skin,
    roster: Seq<(Seq<char>, Seq<u8>)>,
    dm: Option<Seq<u8>>,
    line: Seq<char>,
    message: Option<u64>,
    artifact: Option<ArtifactId>,
) -> (ActionView, Option<Seq<u8>>) {
    let (cmd, rest) = command_parts(line);
    if cmd == "/quit"@ || cmd == "/exit"@ {
        (ActionView::Quit, dm)
    } else if cmd == "/keys"@ {
        (ActionView::Print(text::joined(composer::key_rows(k), "\n"@)), dm)
    } else if cmd == "/clear"@ {
        (
            ActionView::Submit {
                write: WriteView::ClearAll,
                done: Some("  "@ + ui::painted(k, k.theme.progress, "✓ cleared"@)),
            },
            dm,
        )
    } else if cmd == "/tasks"@ {
        let name = text::without_leading(rest, '@');
        if rest.len() == 0 {
            (ActionView::Tasks, dm)
        } else if common::account_named(roster, common::tag_name(name)) is Some {
            (ActionView::LocalTasks(name), dm)
        } else {
            (
                ActionView::Print(
                    "  "@ + ui::painted(
                        k,
                        k.theme.warm,
                        "no such cat: @"@ + name + " — /tasks alone lists the litter's tasks"@,
                    ),
                ),
                dm,
            )
        }
    } else if cmd == "/peers"@ {
        (ActionView::Peers, dm)
    } else if cmd == "/activity"@ {
        (
            ActionView::Activity(
                if rest.len() == 0 {
                    None
                } else {
                    Some(rest)
                },
            ),
            dm,
        )
    } else if (cmd == "/artifact"@ || cmd == "/artifacts"@) && rest.len() > 0 {
        (ActionView::Artifact { path: agent::artifact_path_text(rest), id: rest }, dm)
    } else if cmd == "/note"@ && rest.len() > 0 {
        (ActionView::Note(rest), dm)
    } else if cmd == "/notes"@ {
        (ActionView::Notes, dm)
    } else if cmd == "/artifacts"@ {
        (ActionView::Artifacts, dm)
    } else if cmd == "/task"@ && rest.len() > 0 {
        (
            ActionView::Submit {
                write: WriteView::Open { text: rest },
                done: Some("  "@ + ui::painted(k, k.theme.progress, "✓ task opened"@)),
            },
            dm,
        )
    } else if cmd == "/dm"@ {
        messaging(k, roster, dm, rest)
    } else if cmd == "/all"@ {
        (addressing_all(k, roster, dm, rest), None)
    } else if cmd == "/otr"@ && rest.len() > 0 {
        (speaking(k, roster, dm, rest, true), dm)
    } else if cmd == "/reply"@ && rest.len() > 0 {
        (replying(k, roster, dm, rest, message), dm)
    } else if cmd == "/react"@ {
        (reacting(k, rest, message), dm)
    } else if cmd == "/vote"@ {
        (voting(k, rest, artifact), dm)
    } else if text::starts(cmd, "/"@) {
        (ActionView::Print("  "@ + ui::dimmed(k, "unknown command "@ + cmd)), dm)
    } else {
        (speaking(k, roster, dm, line, false), dm)
    }
}

/// The id that a line names, for the caller to look up: a message's after
/// `/reply` and `/react`, an artifact's after `/vote`.
pub open spec fn id_named(line: Seq<char>) -> Option<Seq<char>> {
    let (cmd, rest) = command_parts(line);
    if cmd == "/reply"@ || cmd == "/react"@ {
        match text::cut(rest, ' ') {
            Some((id, _)) => Some(id),
            None => None,
        }
    } else if cmd == "/vote"@ && text::words(rest).len() == 2 {
        Some(text::words(rest)[0])
    } else {
        None
    }
}

fn parts_of(line: &str) -> (r: (String, String))
    ensures
        (r.0@, r.1@) == command_parts(line@),
{
    match text::split_once(line, ' ') {
        Some((a, b)) => (a, text::trim(b.as_str())),
        None => (line.to_owned(), "".to_owned()),
    }
}

/// The id that a line names, for the caller to look up.
pub fn id_word(line: &str) -> (r: Option<String>)
    ensures
        text::text_view(r) == id_named(line@),
{
    let (cmd, rest) = parts_of(line);
    if text::same(cmd.as_str(), "/reply") || text::same(cmd.as_str(), "/react") {
        return match text::split_once(rest.as_str(), ' ') {
            Some((id, _)) => Some(id),
            None => None,
        };
    }
    if text::same(cmd.as_str(), "/vote") {
        let ws = text::words_of(rest.as_str());
        assert(ws@.len() == text::texts(ws@).len());
        if ws.len() == 2 {
            return Some(ws[0].clone());
        }
    }
    None
}

fn warn_all(k: &Skin, unknown: &Vec<String>) -> (out: Vec<String>)
    ensures
        text::texts(out@) == warnings_for(*k, text::texts(unknown@)),
{
    let ghost want = warnings_for(*k, text::texts(unknown@));
    let mut out = text::none();
    let mut i: usize = 0;
    assert(want.take(0) =~= Seq::<Seq<char>>::empty());
    while i < unknown.len()
        invariant
            i <= unknown.len(),
            want == warnings_for(*k, text::texts(unknown@)),
            text::texts(out@) == want.take(i as int),
        decreases unknown.len() - i,
    {
        let words = String::from_str("no such cat: @").concat(unknown[i].as_str());
        let one = String::from_str("  ").concat(ui::warn(k, words.as_str()).as_str());
        assert(want.take(i + 1) =~= want.take(i as int).push(one@));
        text::put(&mut out, one.as_str());
        i = i + 1;
    }
    assert(want.take(i as int) =~= want);
    out
}

fn receivers_from(cats: &Vec<Account>, dm: &Option<Account>) -> (out: Vec<Option<Account>>)
    ensures
        receivers(out@) == receivers_of(accounts(cats@), keys::account_view(*dm)),
{
    let mut out: Vec<Option<Account>> = Vec::new();
    if cats.len() == 0 {
        out.push(*dm);
        assert(receivers(out@) =~= seq![keys::account_view(*dm)]);
        return out;
    }
    let mut i: usize = 0;
    while i < cats.len()
        invariant
            i <= cats.len(),
            out@.len() == i,
            forall|j: int| 0 <= j < i ==> (#[trigger] out@[j]) == Some(cats@[j]),
        decreases cats.len() - i,
    {
        out.push(Some(cats[i]));
        i = i + 1;
    }
    assert(receivers(out@) =~= receivers_of(accounts(cats@), keys::account_view(*dm)));
    out
}

/// Whether a line tags everyone.
fn is_for_all(line: &str) -> (r: bool)
    ensures
        r == calls_everyone(text::words(line@)),
{
    let ws = text::words_of(line);
    let ghost all = text::words(line@);
    let mut i: usize = 0;
    while i < ws.len()
        invariant
            i <= ws.len(),
            all == text::words(line@),
            all == text::texts(ws@),
            forall|j: int|
                0 <= j < i ==> !(tag_of(#[trigger] all[j]) matches Some(n) && is_alias(n)),
        decreases ws.len() - i,
    {
        assert(all[i as int] == ws@[i as int]@);
        match tag_in(ws[i].as_str()) {
            Some(n) => {
                if text::same(n.as_str(), "all") || text::same(n.as_str(), "cats") || text::same(
                    n.as_str(),
                    "litter",
                ) {
                    assert(calls_everyone(all));
                    return true;
                }
            },
            None => {},
        }
        i = i + 1;
    }
    assert(!calls_everyone(all));
    false
}

fn heard_by(line: &str, dm: &Option<Account>) -> (r: Option<Account>)
    ensures
        keys::account_view(r) == listener(line@, keys::account_view(*dm)),
{
    if is_for_all(line) {
        None
    } else {
        *dm
    }
}

fn speak(k: &Skin, roster: &Roster, dm: &Option<Account>, line: &str, off_record: bool) -> (r:
    Action)
    ensures
        r@ == speaking(*k, roster@, keys::account_view(*dm), line@, off_record),
{
    let (cats, unknown) = parse_targets(roster, line);
    Action::Speak {
        warnings: warn_all(k, &unknown),
        to: receivers_from(&cats, &heard_by(line, dm)),
        text: line.to_owned(),
        off_record,
    }
}

fn topic_in(word: &str) -> (r: Option<String>)
    ensures
        text::text_view(r) == topic_of(word@),
{
    match text::strip_prefix(ui::word_of(word).as_str(), "#") {
        Some(t) => if t.as_str().is_empty() {
            None
        } else {
            Some(t)
        },
        None => None,
    }
}

fn topics_in(ws: &Vec<String>) -> (r: (Vec<String>, Vec<String>))
    ensures
        (text::texts(r.0@), text::texts(r.1@)) == topics(text::texts(ws@)),
{
    let ghost all = text::texts(ws@);
    let mut tags = text::none();
    let mut kept = text::none();
    let mut i: usize = 0;
    assert(all.take(0) =~= Seq::<Seq<char>>::empty());
    assert(text::texts(tags@) =~= Seq::<Seq<char>>::empty());
    while i < ws.len()
        invariant
            i <= ws.len(),
            all == text::texts(ws@),
            (text::texts(tags@), text::texts(kept@)) == topics(all.take(i as int)),
        decreases ws.len() - i,
    {
        assert(all.take(i + 1).drop_last() =~= all.take(i as int));
        assert(all.take(i + 1).last() == ws@[i as int]@);
        match topic_in(ws[i].as_str()) {
            Some(t) => if text::one_of(t.as_str(), &tags) {
                text::put(&mut kept, ws[i].as_str());
            } else {
                text::put(&mut tags, t.as_str());
            },
            None => text::put(&mut kept, ws[i].as_str()),
        }
        i = i + 1;
    }
    assert(all.take(i as int) =~= all);
    (tags, kept)
}

fn reply_to(
    k: &Skin,
    roster: &Roster,
    dm: &Option<Account>,
    rest: &str,
    message: Option<u64>,
) -> (r: Action)
    ensures
        r@ == replying(*k, roster@, keys::account_view(*dm), rest@, message),
{
    match (text::split_once(rest, ' '), message) {
        (Some((_, b)), Some(parent)) => {
            let ws = text::words_of(text::trim(b.as_str()).as_str());
            let (tags, kept) = topics_in(&ws);
            let body = text::join(&kept, " ");
            let (cats, unknown) = parse_targets(roster, body.as_str());
            Action::Reply {
                warnings: warn_all(k, &unknown),
                to: receivers_from(&cats, &heard_by(body.as_str(), dm)),
                text: body,
                parent,
                tags,
            }
        },
        _ => Action::Print(
            String::from_str("  ").concat(
                ui::dim(
                    k,
                    "usage: /reply <id> <text> — #tags and @targets allowed in the text",
                ).as_str(),
            ),
        ),
    }
}

fn react_to(k: &Skin, rest: &str, message: Option<u64>) -> (r: Action)
    ensures
        r@ == reacting(*k, rest@, message),
{
    let usage = String::from_str("  ").concat(ui::dim(k, "usage: /react <id> <emoji>").as_str());
    match (text::split_once(rest, ' '), message) {
        (Some((_, e)), Some(target)) => {
            let emoji = text::trim(e.as_str());
            if emoji.as_str().is_empty() {
                Action::Print(usage)
            } else {
                Action::Submit { write: Write::React { target, emoji }, done: None }
            }
        },
        _ => Action::Print(usage),
    }
}

fn vote_on(k: &Skin, rest: &str, artifact: Option<ArtifactId>) -> (r: Action)
    ensures
        r@ == voting(*k, rest@, artifact),
{
    let ws = text::words_of(rest);
    assert(ws@.len() == text::texts(ws@).len());
    if ws.len() == 2 {
        assert(text::texts(ws@)[1] == ws@[1]@);
        assert(text::texts(ws@)[0] == ws@[0]@);
        let up = text::same(ws[1].as_str(), "up");
        if up || text::same(ws[1].as_str(), "down") {
            return match artifact {
                Some(a) => Action::Submit {
                    write: Write::Vote { artifact: a, up },
                    done: None,
                },
                None => {
                    let words = String::from_str("no such artifact id: ").concat(
                        ws[0].as_str(),
                    ).concat(" (t5 or 7)");
                    Action::Print(
                        String::from_str("  ").concat(ui::warn(k, words.as_str()).as_str()),
                    )
                },
            };
        }
    }
    Action::Print(
        String::from_str("  ").concat(
            ui::dim(k, "usage: /vote <id> <up|down> — e.g. /vote t5 up").as_str(),
        ),
    )
}

fn dm_to(k: &Skin, roster: &Roster, dm: &mut Option<Account>, rest: &str) -> (r: Action)
    ensures
        (r@, keys::account_view(*final(dm))) == messaging(
            *k,
            roster@,
            keys::account_view(*old(dm)),
            rest@,
        ),
{
    if rest.is_empty() {
        return match dm.take() {
            Some(a) => {
                let words = String::from_str("dm off — ").concat(
                    roster.name_of(&a).as_str(),
                ).concat(" was the target");
                Action::Print(String::from_str("  ").concat(ui::dim(k, words.as_str()).as_str()))
            },
            None => Action::Print(
                String::from_str("  ").concat(
                    ui::alert(
                        k,
                        "usage: /dm <name> [message] (no target set to turn off)",
                    ).as_str(),
                ),
            ),
        };
    }
    let (name, body) = parts_of(rest);
    match roster.account(name.as_str()) {
        Some(a) => {
            *dm = Some(a);
            let words = String::from_str("dm → ").concat(roster.name_of(&a).as_str()).concat(
                " (stays until /dm turns it off)",
            );
            Action::Dm {
                note: String::from_str("  ").concat(ui::dim(k, words.as_str()).as_str()),
                to: a,
                body,
            }
        },
        None => {
            let words = String::from_str("no such cat: @").concat(
                text::trim_leading(name.as_str(), '@').as_str(),
            );
            Action::Print(String::from_str("  ").concat(ui::warn(k, words.as_str()).as_str()))
        },
    }
}

fn talk_to_all(k: &Skin, roster: &Roster, dm: &mut Option<Account>, rest: &str) -> (r: Action)
    ensures
        r@ == addressing_all(*k, roster@, keys::account_view(*old(dm)), rest@),
        *final(dm) is None,
{
    let was = dm.take();
    if !rest.is_empty() {
        return Action::Submit { write: say_call(None, rest, false), done: None };
    }
    match was {
        Some(a) => {
            let words = String::from_str("back to the litter — ").concat(
                roster.name_of(&a).as_str(),
            ).concat(" is no longer the target");
            Action::Print(String::from_str("  ").concat(ui::dim(k, words.as_str()).as_str()))
        },
        None => Action::Print(
            String::from_str("  ").concat(
                ui::dim(k, "already talking to the whole litter").as_str(),
            ),
        ),
    }
}

/// What a line asks for. `dm` is the sticky target: once set, a bare line goes
/// only there until it is turned off again.
#[verifier::rlimit(40)]
pub fn run_command(
    k: &Skin,
    roster: &Roster,
    dm: &mut Option<Account>,
    line: &str,
    message: Option<u64>,
    artifact: Option<ArtifactId>,
) -> (r: Action)
    ensures
        (r@, keys::account_view(*final(dm))) == commanded(
            *k,
            roster@,
            keys::account_view(*old(dm)),
            line@,
            message,
            artifact,
        ),
{
    let (cmd_text, rest_text) = parts_of(line);
    let cmd = cmd_text.as_str();
    let rest = rest_text.as_str();
    if text::same(cmd, "/quit") || text::same(cmd, "/exit") {
        return Action::Quit;
    }
    if text::same(cmd, "/keys") {
        return Action::Print(composer::keys(k));
    }
    if text::same(cmd, "/clear") {
        return Action::Submit {
            write: Write::ClearAll,
            done: Some(String::from_str("  ").concat(ui::ok(k, "✓ cleared").as_str())),
        };
    }
    if text::same(cmd, "/tasks") {
        if rest.is_empty() {
            return Action::Tasks;
        }
        let name = text::trim_leading(rest, '@');
        if roster.account(name.as_str()).is_some() {
            return Action::LocalTasks(name);
        }
        let words = String::from_str("no such cat: @").concat(name.as_str()).concat(
            " — /tasks alone lists the litter's tasks",
        );
        return Action::Print(String::from_str("  ").concat(ui::warn(k, words.as_str()).as_str()));
    }
    if text::same(cmd, "/peers") {
        return Action::Peers;
    }
    if text::same(cmd, "/activity") {
        return Action::Activity(
            if rest.is_empty() {
                None
            } else {
                Some(rest.to_owned())
            },
        );
    }
    if (text::same(cmd, "/artifact") || text::same(cmd, "/artifacts")) && !rest.is_empty() {
        return Action::Artifact { path: agent::artifact_path(rest), id: rest.to_owned() };
    }
    if text::same(cmd, "/note") && !rest.is_empty() {
        return Action::Note(rest.to_owned());
    }
    if text::same(cmd, "/notes") {
        return Action::Notes;
    }
    if text::same(cmd, "/artifacts") {
        return Action::Artifacts;
    }
    if text::same(cmd, "/task") && !rest.is_empty() {
        return Action::Submit {
            write: Write::Open { text: rest.to_owned() },
            done: Some(String::from_str("  ").concat(ui::ok(k, "✓ task opened").as_str())),
        };
    }
    if text::same(cmd, "/dm") {
        return dm_to(k, roster, dm, rest);
    }
    if text::same(cmd, "/all") {
        return talk_to_all(k, roster, dm, rest);
    }
    if text::same(cmd, "/otr") && !rest.is_empty() {
        return speak(k, roster, dm, rest, true);
    }
    if text::same(cmd, "/reply") && !rest.is_empty() {
        return reply_to(k, roster, dm, rest, message);
    }
    if text::same(cmd, "/react") {
        return react_to(k, rest, message);
    }
    if text::same(cmd, "/vote") {
        return vote_on(k, rest, artifact);
    }
    if text::starts_with(cmd, "/") {
        let words = String::from_str("unknown command ").concat(cmd);
        return Action::Print(String::from_str("  ").concat(ui::dim(k, words.as_str()).as_str()));
    }
    speak(k, roster, dm, line, false)
}

/// A write the node did not take.
pub fn refused(k: &Skin, why: &str) -> (r: String)
    ensures
        r@ == "  "@ + ui::painted(*k, k.theme.alarm, "refused: "@ + why@),
{
    let words = String::from_str("refused: ").concat(why);
    String::from_str("  ").concat(ui::alert(k, words.as_str()).as_str())
}

/// Who a line goes to, by name.
pub fn receiver_name(to: &Option<Account>, roster: &Roster) -> (r: String)
    ensures
        r@ == match *to {
            Some(a) => common::name_for(roster@, a@),
            None => "litter"@,
        },
{
    match to {
        Some(a) => roster.name_of(a),
        None => "litter".to_owned(),
    }
}

/// An artifact or a note as the node answered for it, or that there is none.
pub open spec fn found_text(k: Skin, v: Option<Json>, what: Seq<char>, id: Seq<char>) -> Seq<char> {
    match v {
        Some(a) => if json::flag_at(a, "found"@) {
            markdown::rendered(k, json::words_at(a, "body"@))
        } else {
            "  "@ + ui::painted(k, k.theme.alarm, what + id)
        },
        None => "  "@ + ui::painted(k, k.theme.alarm, what + id),
    }
}

/// An artifact or a note, rendered; `v` is the node's answer, where it gave
/// one.
pub fn show_artifact(k: &Skin, v: &Option<Json>, note: bool, id: &str) -> (r: String)
    requires
        ui::ramp_fits(*k),
    ensures
        r@ == found_text(
            *k,
            *v,
            if note {
                "no note "@
            } else {
                "no artifact for "@
            },
            id@,
        ),
{
    if let Some(a) = v {
        if a.flag("found") {
            return markdown::markdown(k, a.words("body").as_str());
        }
    }
    let what = if note {
        "no note "
    } else {
        "no artifact for "
    };
    let words = what.to_owned().concat(id);
    String::from_str("  ").concat(ui::alert(k, words.as_str()).as_str())
}

// ---------------------------------------------------------------------
// What holds of every line
// ---------------------------------------------------------------------

proof fn lemma_tagged_once(ws: Seq<Seq<char>>, roster: Seq<(Seq<char>, Seq<u8>)>)
    ensures
        ({
            let cats = tagged_cats(ws, roster).0;
            forall|a: int, b: int|
                0 <= a < b < cats.len() ==> #[trigger] cats[a] != #[trigger] cats[b]
        }),
    decreases ws.len(),
{
    if ws.len() > 0 {
        lemma_tagged_once(ws.drop_last(), roster);
        let before = tagged_cats(ws.drop_last(), roster).0;
        let cats = tagged_cats(ws, roster).0;
        assert forall|a: int, b: int| 0 <= a < b < cats.len() implies #[trigger] cats[a]
            != #[trigger] cats[b] by {
            assert(cats[a] == before[a]);
            assert(before.contains(before[a]));
        }
    }
}

/// Whoever a line tags gets it once, however often it is tagged; a tag for
/// everyone outdoes the others, and whoever is talked to as well.
pub proof fn nobody_hears_a_line_twice(
    line: Seq<char>,
    roster: Seq<(Seq<char>, Seq<u8>)>,
    dm: Option<Seq<u8>>,
)
    ensures
        ({
            let to = receivers_of(targets_of(line, roster).0, listener(line, dm));
            &&& to.len() > 0
            &&& forall|a: int, b: int|
                0 <= a < b < to.len() ==> #[trigger] to[a] != #[trigger] to[b]
            &&& calls_everyone(text::words(line)) ==> to == seq![None::<Seq<u8>>]
        }),
{
    let cats = targets_of(line, roster).0;
    let to = receivers_of(cats, listener(line, dm));
    lemma_tagged_once(text::words(line), roster);
    assert forall|a: int, b: int| 0 <= a < b < to.len() implies #[trigger] to[a]
        != #[trigger] to[b] by {
        if cats.len() > 0 {
            assert(to[a] == Some(cats[a]) && to[b] == Some(cats[b]));
        }
    }
}

/// A line that is no command.
pub open spec fn is_bare(line: Seq<char>) -> bool {
    !text::starts(command_parts(line).0, "/"@)
}

/// Once a cat is talked to, a bare line without a tag goes to that cat alone,
/// and it is talked to still.
pub proof fn a_target_stays(
    k: Skin,
    roster: Seq<(Seq<char>, Seq<u8>)>,
    target: Seq<u8>,
    line: Seq<char>,
    message: Option<u64>,
    artifact: Option<ArtifactId>,
)
    requires
        is_bare(line),
        forall|i: int|
            0 <= i < text::words(line).len() ==> tag_of(#[trigger] text::words(line)[i]) is None,
    ensures
        commanded(k, roster, Some(target), line, message, artifact) == (
            ActionView::Speak {
                warnings: seq![],
                to: seq![Some(target)],
                text: line,
                off_record: false,
            },
            Some(target),
        ),
{
    lemma_slashes();
    lemma_no_tags(text::words(line), roster);
    assert(warnings_for(k, seq![]) =~= Seq::<Seq<char>>::empty());
}

/// What begins with a slash is a command, and every command does.
proof fn lemma_slashes()
    ensures
        forall|s: Seq<char>|
            s.len() > 0 && s[0] == '/' ==> #[trigger] text::starts(s, "/"@),
        "/quit"@.len() > 0 && "/quit"@[0] == '/',
        "/exit"@.len() > 0 && "/exit"@[0] == '/',
        "/keys"@.len() > 0 && "/keys"@[0] == '/',
        "/clear"@.len() > 0 && "/clear"@[0] == '/',
        "/tasks"@.len() > 0 && "/tasks"@[0] == '/',
        "/peers"@.len() > 0 && "/peers"@[0] == '/',
        "/activity"@.len() > 0 && "/activity"@[0] == '/',
        "/artifact"@.len() > 0 && "/artifact"@[0] == '/',
        "/artifacts"@.len() > 0 && "/artifacts"@[0] == '/',
        "/note"@.len() > 0 && "/note"@[0] == '/',
        "/notes"@.len() > 0 && "/notes"@[0] == '/',
        "/task"@.len() > 0 && "/task"@[0] == '/',
        "/dm"@.len() > 0 && "/dm"@[0] == '/',
        "/all"@.len() > 0 && "/all"@[0] == '/',
        "/otr"@.len() > 0 && "/otr"@[0] == '/',
        "/reply"@.len() > 0 && "/reply"@[0] == '/',
        "/react"@.len() > 0 && "/react"@[0] == '/',
        "/vote"@.len() > 0 && "/vote"@[0] == '/',
{
    reveal_strlit("/");
    reveal_strlit("/quit");
    reveal_strlit("/exit");
    reveal_strlit("/keys");
    reveal_strlit("/clear");
    reveal_strlit("/tasks");
    reveal_strlit("/peers");
    reveal_strlit("/activity");
    reveal_strlit("/artifact");
    reveal_strlit("/artifacts");
    reveal_strlit("/note");
    reveal_strlit("/notes");
    reveal_strlit("/task");
    reveal_strlit("/dm");
    reveal_strlit("/all");
    reveal_strlit("/otr");
    reveal_strlit("/reply");
    reveal_strlit("/react");
    reveal_strlit("/vote");
    assert forall|s: Seq<char>| s.len() > 0 && s[0] == '/' implies #[trigger] text::starts(
        s,
        "/"@,
    ) by {
        assert(s.subrange(0, 1) =~= "/"@);
    }
}

proof fn lemma_no_tags(ws: Seq<Seq<char>>, roster: Seq<(Seq<char>, Seq<u8>)>)
    requires
        forall|i: int| 0 <= i < ws.len() ==> tag_of(#[trigger] ws[i]) is None,
    ensures
        !calls_everyone(ws),
        tagged_cats(ws, roster) == (Seq::<Seq<u8>>::empty(), Seq::<Seq<char>>::empty()),
    decreases ws.len(),
{
    if ws.len() > 0 {
        let front = ws.drop_last();
        assert forall|i: int| 0 <= i < front.len() implies tag_of(#[trigger] front[i]) is None by {
            assert(front[i] == ws[i]);
        }
        lemma_no_tags(front, roster);
        assert(tag_of(ws[ws.len() - 1]) is None);
    }
}

// ---------------------------------------------------------------------
// What each line does
// ---------------------------------------------------------------------

/// A line is its first word and what follows it, without the white space round
/// that.
pub proof fn a_command_is_its_first_word(a: Seq<char>, b: Seq<char>)
    requires
        forall|i: int| 0 <= i < a.len() ==> #[trigger] a[i] != ' ',
    ensures
        command_parts(a + " "@ + b) == (a, text::trimmed(b)),
        command_parts(a) == (a, ""@),
        first_and_rest(a + " "@ + b) == (a, text::trimmed(b)),
        first_and_rest(a) == (a, ""@),
{
    reveal_strlit(" ");
    let s = a + " "@ + b;
    text::lemma_first(s, ' ');
    text::lemma_first(a, ' ');
    let n = text::first(s, ' ');
    assert(s[a.len() as int] == ' ');
    if n < a.len() {
        assert(s[n as int] == a[n as int]);
    }
    assert(n == a.len());
    assert(s.take(n as int) =~= a);
    assert(s.skip(n as int + 1) =~= b);
    let m = text::first(a, ' ');
    if m < a.len() {
        assert(a[m as int] == ' ');
    }
}

/// The commands that look at something ask for just that, and change nothing of
/// whom one is talking to.
pub proof fn a_command_shows_what_it_names(
    k: Skin,
    roster: Seq<(Seq<char>, Seq<u8>)>,
    dm: Option<Seq<u8>>,
    line: Seq<char>,
    message: Option<u64>,
    artifact: Option<ArtifactId>,
)
    ensures
        ({
            let (cmd, rest) = command_parts(line);
            let (act, after) = commanded(k, roster, dm, line, message, artifact);
            &&& cmd == "/quit"@ || cmd == "/exit"@ ==> act is Quit
            &&& cmd == "/tasks"@ && rest.len() == 0 ==> act is Tasks
            &&& cmd == "/tasks"@ && rest.len() > 0 && common::account_named(
                roster,
                common::tag_name(text::without_leading(rest, '@')),
            ) is Some ==> act == ActionView::LocalTasks(text::without_leading(rest, '@'))
            &&& cmd == "/peers"@ ==> act is Peers
            &&& cmd == "/activity"@ && rest.len() == 0 ==> act == ActionView::Activity(None)
            &&& cmd == "/activity"@ && rest.len() > 0 ==> act == ActionView::Activity(Some(rest))
            &&& (cmd == "/artifact"@ || cmd == "/artifacts"@) && rest.len() > 0 ==> (act matches
                ActionView::Artifact { path, id } && id == rest)
            &&& cmd == "/artifacts"@ && rest.len() == 0 ==> act is Artifacts
            &&& cmd == "/note"@ && rest.len() > 0 ==> act == ActionView::Note(rest)
            &&& cmd == "/notes"@ ==> act is Notes
            &&& cmd == "/keys"@ ==> act is Print
            &&& cmd != "/dm"@ && cmd != "/all"@ ==> after == dm
        }),
{
    reveal_strlit("/quit");
    reveal_strlit("/exit");
    reveal_strlit("/keys");
    reveal_strlit("/clear");
    reveal_strlit("/tasks");
    reveal_strlit("/peers");
    reveal_strlit("/activity");
    reveal_strlit("/artifact");
    reveal_strlit("/artifacts");
    reveal_strlit("/note");
    reveal_strlit("/notes");
    reveal_strlit("/task");
    reveal_strlit("/dm");
    reveal_strlit("/all");
    reveal_strlit("/otr");
    reveal_strlit("/reply");
    reveal_strlit("/react");
    reveal_strlit("/vote");
    assert("/quit"@.len() == 5);
    assert("/exit"@.len() == 5);
    assert("/keys"@.len() == 5);
    assert("/clear"@.len() == 6);
    assert("/tasks"@.len() == 6);
    assert("/peers"@.len() == 6);
    assert("/activity"@.len() == 9);
    assert("/artifact"@.len() == 9);
    assert("/artifacts"@.len() == 10);
    assert("/note"@.len() == 5);
    assert("/notes"@.len() == 6);
    assert("/task"@.len() == 5);
    assert("/dm"@.len() == 3);
    assert("/all"@.len() == 4);
    assert("/otr"@.len() == 4);
    assert("/reply"@.len() == 6);
    assert("/react"@.len() == 6);
    assert("/vote"@.len() == 5);
    assert("/activity"@[2] == 'c');
    assert("/all"@[1] == 'a');
    assert("/artifact"@[2] == 'r');
    assert("/clear"@[1] == 'c');
    assert("/exit"@[1] == 'e');
    assert("/keys"@[1] == 'k');
    assert("/note"@[1] == 'n');
    assert("/notes"@[1] == 'n');
    assert("/otr"@[1] == 'o');
    assert("/peers"@[1] == 'p');
    assert("/quit"@[1] == 'q');
    assert("/react"@[1] == 'r');
    assert("/react"@[3] == 'a');
    assert("/reply"@[1] == 'r');
    assert("/reply"@[3] == 'p');
    assert("/task"@[1] == 't');
    assert("/tasks"@[1] == 't');
    assert("/vote"@[1] == 'v');
}

/// The commands that write submit just what was written: a task with its whole
/// text, a reaction, a vote, words to everyone, or a clean slate.
pub proof fn a_command_writes_what_it_was_given(
    k: Skin,
    roster: Seq<(Seq<char>, Seq<u8>)>,
    dm: Option<Seq<u8>>,
    line: Seq<char>,
    message: Option<u64>,
    artifact: Option<ArtifactId>,
)
    ensures
        ({
            let (cmd, rest) = command_parts(line);
            let (act, after) = commanded(k, roster, dm, line, message, artifact);
            &&& cmd == "/clear"@ ==> (act matches ActionView::Submit { write, .. } && write
                is ClearAll)
            &&& cmd == "/task"@ && rest.len() > 0 ==> (act matches ActionView::Submit { write, .. }
                && write == WriteView::Open { text: rest })
            &&& cmd == "/all"@ && rest.len() > 0 ==> (act matches ActionView::Submit { write, .. }
                && write == WriteView::Say {
                to: None,
                body: rest,
                no_ack: false,
                off_record: false,
            })
            &&& cmd == "/all"@ ==> after is None
            &&& cmd == "/react"@ && message is Some && text::cut(rest, ' ') is Some
                && text::trimmed((text::cut(rest, ' ')->0).1).len() > 0 ==> (act matches
                ActionView::Submit { write, .. } && write == WriteView::React {
                target: message->0,
                emoji: text::trimmed((text::cut(rest, ' ')->0).1),
            })
            &&& cmd == "/vote"@ && artifact is Some && text::words(rest).len() == 2 && text::words(
                rest,
            )[1] == "up"@ ==> (act matches ActionView::Submit { write, .. } && write
                == WriteView::Vote { artifact: artifact->0, up: true })
            &&& cmd == "/vote"@ && artifact is Some && text::words(rest).len() == 2 && text::words(
                rest,
            )[1] == "down"@ ==> (act matches ActionView::Submit { write, .. } && write
                == WriteView::Vote { artifact: artifact->0, up: false })
        }),
{
    reveal_strlit("/quit");
    reveal_strlit("/exit");
    reveal_strlit("/keys");
    reveal_strlit("/clear");
    reveal_strlit("/tasks");
    reveal_strlit("/peers");
    reveal_strlit("/activity");
    reveal_strlit("/artifact");
    reveal_strlit("/artifacts");
    reveal_strlit("/note");
    reveal_strlit("/notes");
    reveal_strlit("/task");
    reveal_strlit("/dm");
    reveal_strlit("/all");
    reveal_strlit("/otr");
    reveal_strlit("/reply");
    reveal_strlit("/react");
    reveal_strlit("/vote");
    assert("/quit"@.len() == 5);
    assert("/exit"@.len() == 5);
    assert("/keys"@.len() == 5);
    assert("/clear"@.len() == 6);
    assert("/tasks"@.len() == 6);
    assert("/peers"@.len() == 6);
    assert("/activity"@.len() == 9);
    assert("/artifact"@.len() == 9);
    assert("/artifacts"@.len() == 10);
    assert("/note"@.len() == 5);
    assert("/notes"@.len() == 6);
    assert("/task"@.len() == 5);
    assert("/dm"@.len() == 3);
    assert("/all"@.len() == 4);
    assert("/otr"@.len() == 4);
    assert("/reply"@.len() == 6);
    assert("/react"@.len() == 6);
    assert("/vote"@.len() == 5);
    assert("/activity"@[2] == 'c');
    assert("/all"@[1] == 'a');
    assert("/artifact"@[2] == 'r');
    assert("/clear"@[1] == 'c');
    assert("/exit"@[1] == 'e');
    assert("/keys"@[1] == 'k');
    assert("/note"@[1] == 'n');
    assert("/notes"@[1] == 'n');
    assert("/otr"@[1] == 'o');
    assert("/peers"@[1] == 'p');
    assert("/quit"@[1] == 'q');
    assert("/react"@[1] == 'r');
    assert("/react"@[3] == 'a');
    assert("/reply"@[1] == 'r');
    assert("/reply"@[3] == 'p');
    assert("/task"@[1] == 't');
    assert("/tasks"@[1] == 't');
    assert("/vote"@[1] == 'v');
    reveal_strlit("up");
    reveal_strlit("down");
    assert("up"@.len() == 2 && "down"@.len() == 4);
}

/// Talking to one cat goes on until it is turned off: naming a cat makes it the
/// one, with the words that follow sent to it; a name nobody has changes nothing;
/// and naming none ends it.
pub proof fn a_dm_goes_to_the_cat_named(
    k: Skin,
    roster: Seq<(Seq<char>, Seq<u8>)>,
    dm: Option<Seq<u8>>,
    rest: Seq<char>,
)
    ensures
        rest.len() == 0 ==> messaging(k, roster, dm, rest).1 is None,
        rest.len() > 0 ==> match common::account_named(
            roster,
            common::tag_name(first_and_rest(rest).0),
        ) {
            Some(a) => messaging(k, roster, dm, rest).1 == Some(a) && (messaging(
                k,
                roster,
                dm,
                rest,
            ).0 matches ActionView::Dm { cat, body, .. } && cat == a && body == first_and_rest(
                rest,
            ).1),
            None => messaging(k, roster, dm, rest).1 == dm && messaging(k, roster, dm, rest).0
                is Print,
        },
{
}

/// Everyone a line tags is among those it goes to, once, and nobody else; a tag
/// that is nobody's name is told apart.
pub proof fn everyone_tagged_is_reached(
    ws: Seq<Seq<char>>,
    roster: Seq<(Seq<char>, Seq<u8>)>,
    i: int,
)
    requires
        0 <= i < ws.len(),
    ensures
        ({
            let (cats, unknown) = tagged_cats(ws, roster);
            tag_of(ws[i]) matches Some(n) ==> match common::account_named(
                roster,
                common::tag_name(n),
            ) {
                Some(a) => cats.contains(a),
                None => unknown.contains(n),
            }
        }),
    decreases ws.len(),
{
    let front = ws.drop_last();
    let (cats, unknown) = tagged_cats(front, roster);
    let (c2, u2) = tagged_cats(ws, roster);
    assert(ws.last() == ws[ws.len() - 1]);
    assert forall|a: Seq<u8>| cats.contains(a) implies c2.contains(a) by {
        let k = choose|k: int| 0 <= k < cats.len() && cats[k] == a;
        assert(c2[k] == a);
    }
    assert forall|n: Seq<char>| unknown.contains(n) implies u2.contains(n) by {
        let k = choose|k: int| 0 <= k < unknown.len() && unknown[k] == n;
        assert(u2[k] == n);
    }
    if i < front.len() {
        assert(front[i] == ws[i]);
        everyone_tagged_is_reached(front, roster, i);
    } else {
        match tag_of(ws.last()) {
            Some(n) => match common::account_named(roster, common::tag_name(n)) {
                Some(a) => {
                    if !cats.contains(a) {
                        assert(c2[cats.len() as int] == a);
                    }
                },
                None => {
                    assert(u2[unknown.len() as int] == n);
                },
            },
            None => {},
        }
    }
}

/// Nobody is reached whom no word tags, and nothing is told apart that is not a
/// tag.
pub proof fn only_those_tagged_are_reached(
    ws: Seq<Seq<char>>,
    roster: Seq<(Seq<char>, Seq<u8>)>,
)
    ensures
        forall|k: int|
            0 <= k < tagged_cats(ws, roster).0.len() ==> exists|i: int|
                0 <= i < ws.len() && (tag_of(#[trigger] ws[i]) matches Some(n)
                    && common::account_named(roster, common::tag_name(n)) == Some(
                    #[trigger] tagged_cats(ws, roster).0[k],
                )),
        forall|k: int|
            0 <= k < tagged_cats(ws, roster).1.len() ==> exists|i: int|
                0 <= i < ws.len() && tag_of(#[trigger] ws[i]) == Some(
                    #[trigger] tagged_cats(ws, roster).1[k],
                ),
    decreases ws.len(),
{
    if ws.len() > 0 {
        let front = ws.drop_last();
        only_those_tagged_are_reached(front, roster);
        let (cats, unknown) = tagged_cats(front, roster);
        let (c2, u2) = tagged_cats(ws, roster);
        assert(ws.last() == ws[ws.len() - 1]);
        assert forall|k: int| 0 <= k < c2.len() implies exists|i: int|
            0 <= i < ws.len() && (tag_of(#[trigger] ws[i]) matches Some(n)
                && common::account_named(roster, common::tag_name(n)) == Some(#[trigger] c2[k])) by {
            if k < cats.len() {
                assert(c2[k] == cats[k]);
                let i = choose|i: int|
                    0 <= i < front.len() && (tag_of(#[trigger] front[i]) matches Some(n)
                        && common::account_named(roster, common::tag_name(n)) == Some(cats[k]));
                assert(ws[i] == front[i]);
            } else {
                assert(tag_of(ws[ws.len() - 1]) is Some);
            }
        }
        assert forall|k: int| 0 <= k < u2.len() implies exists|i: int|
            0 <= i < ws.len() && tag_of(#[trigger] ws[i]) == Some(#[trigger] u2[k]) by {
            if k < unknown.len() {
                assert(u2[k] == unknown[k]);
                let i = choose|i: int|
                    0 <= i < front.len() && tag_of(#[trigger] front[i]) == Some(unknown[k]);
                assert(ws[i] == front[i]);
            } else {
                assert(tag_of(ws[ws.len() - 1]) is Some);
            }
        }
    }
}

/// A line is said whole to everyone it tags, to whom one is talking to where it
/// tags nobody, and to all where it calls on all.
pub proof fn a_line_goes_to_those_it_tags(
    k: Skin,
    roster: Seq<(Seq<char>, Seq<u8>)>,
    dm: Option<Seq<u8>>,
    line: Seq<char>,
    off_record: bool,
)
    ensures
        speaking(k, roster, dm, line, off_record) matches ActionView::Speak {
            warnings,
            to,
            text,
            off_record: o,
        } && {
            let ws = text::words(line);
            let cats = tagged_cats(ws, roster).0;
            &&& text == line
            &&& o == off_record
            &&& calls_everyone(ws) ==> to == seq![None::<Seq<u8>>]
            &&& !calls_everyone(ws) && cats.len() == 0 ==> to == seq![dm]
            &&& !calls_everyone(ws) && cats.len() > 0 ==> to.len() == cats.len() && forall|i: int|
                0 <= i < to.len() ==> #[trigger] to[i] == Some(cats[i])
            &&& !calls_everyone(ws) ==> warnings.len() == tagged_cats(ws, roster).1.len()
        },
{
}

/// All are called on by three names, and by no other.
pub proof fn all_are_called_by_three_names(name: Seq<char>)
    ensures
        is_alias(name) <==> name == "all"@ || name == "cats"@ || name == "litter"@,
{
}

/// A tag is what follows its mark, in small letters.
pub proof fn a_tag_follows_its_mark(t: Seq<char>, word: Seq<char>)
    ensures
        tag_of("@"@ + t) == Some(text::lowered(ui::word_part(t))),
        !text::starts(word, "@"@) ==> tag_of(word) is None,
{
    reveal_strlit("@");
    let w = "@"@ + t;
    assert(w.subrange(0, 1) =~= "@"@);
    assert(text::occurs_at(w, "@"@, 0));
    assert(w.skip(1) =~= t);
}

/// The words of a reply are kept but for its topics, each of which is taken once:
/// a topic said again is a word like any other.
pub proof fn topics_are_taken_once(ws: Seq<Seq<char>>, w: Seq<char>)
    ensures
        topics(Seq::empty()) == (Seq::<Seq<char>>::empty(), Seq::<Seq<char>>::empty()),
        ({
            let (tags, kept) = topics(ws);
            match topic_of(w) {
                Some(t) => if tags.contains(t) {
                    topics(ws.push(w)) == (tags, kept.push(w))
                } else {
                    topics(ws.push(w)) == (tags.push(t), kept)
                },
                None => topics(ws.push(w)) == (tags, kept.push(w)),
            }
        }),
{
    assert(ws.push(w).drop_last() =~= ws);
}

/// A reply says its words to those it tags, under the message it answers, with
/// its topics apart.
pub proof fn a_reply_goes_under_what_it_answers(
    k: Skin,
    roster: Seq<(Seq<char>, Seq<u8>)>,
    dm: Option<Seq<u8>>,
    rest: Seq<char>,
    message: Option<u64>,
)
    ensures
        text::cut(rest, ' ') is Some && message is Some ==> (replying(
            k,
            roster,
            dm,
            rest,
            message,
        ) matches ActionView::Reply { warnings, to, text, parent, tags } && Some(parent) == message
            && tags == topics(text::words(text::trimmed((text::cut(rest, ' ')->0).1))).0 && text
            == text::joined(
            topics(text::words(text::trimmed((text::cut(rest, ' ')->0).1))).1,
            " "@,
        ) && to == receivers_of(targets_of(text, roster).0, listener(text, dm))),
        text::cut(rest, ' ') is None || message is None ==> replying(
            k,
            roster,
            dm,
            rest,
            message,
        ) is Print,
{
}

/// The id a line names is that of the message or the artifact it is about.
pub proof fn a_line_names_what_it_is_about(line: Seq<char>)
    ensures
        ({
            let (cmd, rest) = command_parts(line);
            &&& cmd == "/reply"@ || cmd == "/react"@ ==> (match text::cut(rest, ' ') {
                Some(c) => id_named(line) == Some(c.0),
                None => id_named(line) is None,
            })
            &&& cmd == "/vote"@ && text::words(rest).len() == 2 ==> id_named(line) == Some(
                text::words(rest)[0],
            )
            &&& cmd != "/reply"@ && cmd != "/react"@ && cmd != "/vote"@ ==> id_named(line) is None
        }),
{
    reveal_strlit("/reply");
    reveal_strlit("/react");
    reveal_strlit("/vote");
    assert("/vote"@.len() == 5 && "/reply"@.len() == 6 && "/react"@.len() == 6);
}

} // verus!
