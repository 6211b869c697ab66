//! What an agent leaves on disk: its transcript, and a log of events in the
//! shape of an ingestion interface's batch entries.

use crate::activity;
use crate::json;
use crate::json::{Json, Tree};
use crate::outside;
use crate::text;
use vstd::prelude::*;
use vstd::string::*;

verus! {

/// A file past this many bytes is moved aside, and started again.
pub const MAX_BYTES: u64 = 67_108_864;

// ---------------------------------------------------------------------
// Times
// ---------------------------------------------------------------------

/// An instant as it is written; nothing where it has no date.
pub open spec fn iso_text(ms: i64) -> Seq<char> {
    match outside::rfc3339_ms(ms) {
        Some(s) => s,
        None => ""@,
    }
}

/// An instant as it is written.
pub fn iso_from_ms(ms: i64) -> (r: String)
    ensures
        r@ == iso_text(ms),
{
    match outside::format_rfc3339_ms(ms) {
        Some(s) => s,
        None => "".to_owned(),
    }
}

/// The present instant as it is written.
pub fn now_iso() -> (r: String)
    ensures
        exists|ms: u64| r@ == #[trigger] iso_text(ms as i64),
{
    let ms: u64 = activity::unix_ms();
    iso_from_ms(ms as i64)
}

/// An instant some time before another.
pub fn iso_before(now: u64, ms_ago: u64) -> (r: String)
    requires
        now <= i64::MAX,
        ms_ago <= i64::MAX,
    ensures
        r@ == iso_text((now - ms_ago) as i64),
{
    iso_from_ms(now as i64 - ms_ago as i64)
}

// ---------------------------------------------------------------------
// The transcript
// ---------------------------------------------------------------------

/// A file that is only written at its end: whether it is there, and how long it
/// is.
#[derive(Clone, Copy, Debug, PartialEq, Eq, Structural)]
pub struct Tape {
    pub open: bool,
    pub written: u64,
}

impl Tape {
    /// A file that was opened, `size` bytes long, or could not be.
    pub fn opened(size: Option<u64>) -> (r: Tape)
        ensures
            r == (match size {
                Some(n) => Tape { open: true, written: n },
                None => Tape { open: false, written: 0 },
            }),
    {
        match size {
            Some(n) => Tape { open: true, written: n },
            None => Tape { open: false, written: 0 },
        }
    }

    /// Whether the file is moved aside before the next write.
    pub fn is_full(&self) -> (r: bool)
        ensures
            r == (self.written > MAX_BYTES),
    {
        self.written > MAX_BYTES
    }

    /// A line was written, or was not: what fails is dropped.
    pub fn wrote(&mut self, bytes: u64, ok: bool)
        requires
            old(self).written + bytes <= u64::MAX,
        ensures
            *final(self) == (if old(self).open && ok {
                Tape { open: true, written: (old(self).written + bytes) as u64 }
            } else {
                *old(self)
            }),
    {
        if self.open && ok {
            self.written = self.written + bytes;
        }
    }
}

/// What is noted, and in which session; the first line of a file is in none.
pub open spec fn in_session(note: Seq<(Seq<char>, Tree)>, session: Option<u64>) -> Seq<
    (Seq<char>, Tree),
> {
    match session {
        Some(n) => note.push(("session"@, Tree::Num(n))),
        None => note,
    }
}

/// A line of the transcript: what is noted, in which session, and when.
pub fn transcript_line(note: Vec<(String, Json)>, session: Option<u64>, at: u64) -> (r: String)
    ensures
        r@ == json::tree_text(
            Tree::Object(
                in_session(json::tree_members(note@), session).push(("at"@, Tree::Num(at))),
            ),
        ) + "\n"@,
{
    let mut m = note;
    match session {
        Some(n) => {
            json::member(&mut m, "session", Json::Num(n));
        },
        None => {},
    }
    json::member(&mut m, "at", Json::Num(at));
    let j = Json::Object(m);
    proof {
        json::what_is_written_depends_on_what_it_is(j);
    }
    j.print().concat("\n")
}

// ---------------------------------------------------------------------
// What a transcript notes
// ---------------------------------------------------------------------

/// A loop has begun.
pub fn start_note(name: &str, model: &str, window: Option<u64>, system: &str) -> (m: Vec<(String, Json)>)
    ensures
        json::tree_members(m@) == seq![
            ("t"@, Tree::Str("start"@)),
            ("name"@, Tree::Str(name@)),
            ("model"@, Tree::Str(model@)),
            ("window"@, json::num_or_null(window)),
            ("system"@, Tree::Str(system@)),
        ],
{
    let mut m = json::members();
    json::member(&mut m, "t", json::string("start"));
    json::member(&mut m, "name", json::string(name));
    json::member(&mut m, "model", json::string(model));
    json::member(&mut m, "window", json::number_or_null(window));
    json::member(&mut m, "system", json::string(system));
    m
}

/// An earlier conversation was taken up.
pub fn restored_note(messages: u64, trimmed: u64) -> (m: Vec<(String, Json)>)
    ensures
        json::tree_members(m@) == seq![
            ("t"@, Tree::Str("restored"@)),
            ("messages"@, Tree::Num(messages)),
            ("trimmed"@, Tree::Num(trimmed)),
        ],
{
    let mut m = json::members();
    json::member(&mut m, "t", json::string("restored"));
    json::member(&mut m, "messages", Json::Num(messages));
    json::member(&mut m, "trimmed", Json::Num(trimmed));
    m
}

/// The session was ended from outside.
pub fn reset_note(why: &str) -> (m: Vec<(String, Json)>)
    ensures
        json::tree_members(m@) == seq![
            ("t"@, Tree::Str("reset"@)),
            ("why"@, Tree::Str(why@)),
        ],
{
    let mut m = json::members();
    json::member(&mut m, "t", json::string("reset"));
    json::member(&mut m, "why", json::string(why));
    m
}

/// A chain write is done with.
pub fn record_note(tool: &str, arg: &str, ok: bool, meta: &str) -> (m: Vec<(String, Json)>)
    ensures
        json::tree_members(m@) == seq![
            ("t"@, Tree::Str("record"@)),
            ("tool"@, Tree::Str(tool@)),
            ("arg"@, Tree::Str(arg@)),
            ("ok"@, Tree::Bool(ok)),
            ("meta"@, Tree::Str(meta@)),
        ],
{
    let mut m = json::members();
    json::member(&mut m, "t", json::string("record"));
    json::member(&mut m, "tool", json::string(tool));
    json::member(&mut m, "arg", json::string(arg));
    json::member(&mut m, "ok", Json::Bool(ok));
    json::member(&mut m, "meta", json::string(meta));
    m
}

pub open spec fn result_members(
    id: Option<u64>,
    tool: Seq<char>,
    ok: bool,
    words: Seq<char>,
) -> Seq<(Seq<char>, Tree)> {
    let head = seq![
        ("t"@, Tree::Str("result"@)),
        ("id"@, json::num_or_null(id)),
        ("tool"@, Tree::Str(tool)),
        ("ok"@, Tree::Bool(ok)),
    ];
    if id is Some {
        head.push(("text"@, Tree::Str(words)))
    } else {
        head.push(("stale"@, Tree::Bool(true))).push(("text"@, Tree::Str(words)))
    }
}

/// A result came back, with the number it got; one from before a reset gets
/// none.
pub fn result_note(id: Option<u64>, tool: &str, ok: bool, words: &str) -> (m: Vec<(String, Json)>)
    ensures
        json::tree_members(m@) == result_members(id, tool@, ok, words@),
{
    let mut m = json::members();
    json::member(&mut m, "t", json::string("result"));
    json::member(&mut m, "id", json::number_or_null(id));
    json::member(&mut m, "tool", json::string(tool));
    json::member(&mut m, "ok", Json::Bool(ok));
    if id.is_none() {
        json::member(&mut m, "stale", Json::Bool(true));
    }
    json::member(&mut m, "text", json::string(words));
    assert(json::tree_members(m@) =~= result_members(id, tool@, ok, words@));
    m
}

/// One turn of a model: what it was asked and what came of it.
pub struct TurnNote {
    pub why: String,
    pub check: bool,
    pub prompt: String,
    pub reasoning: Option<String>,
    pub text: String,
    /// The tools it called, and with what.
    pub calls: Vec<(String, Json)>,
    pub prompt_tokens: u32,
    pub out_tokens: u32,
    pub total_tokens: u32,
    pub cached_tokens: u32,
    pub ms: u64,
}

pub open spec fn call_trees(v: Seq<(String, Json)>) -> Seq<Tree> {
    Seq::new(
        v.len(),
        |i: int|
            Tree::Object(seq![("name"@, Tree::Str(v[i].0@)), ("args"@, json::tree(v[i].1))]),
    )
}

pub open spec fn turn_members(n: TurnNote) -> Seq<(Seq<char>, Tree)> {
    seq![
        ("t"@, Tree::Str("turn"@)),
        ("why"@, Tree::Str(n.why@)),
        ("check"@, Tree::Bool(n.check)),
        ("prompt"@, Tree::Str(n.prompt@)),
        ("reasoning"@, json::text_or_null(text::text_view(n.reasoning))),
        ("text"@, Tree::Str(n.text@)),
        ("calls"@, Tree::List(call_trees(n.calls@))),
        ("prompt_tokens"@, Tree::Num(n.prompt_tokens as u64)),
        ("out_tokens"@, Tree::Num(n.out_tokens as u64)),
        ("total_tokens"@, Tree::Num(n.total_tokens as u64)),
        ("cached_tokens"@, Tree::Num(n.cached_tokens as u64)),
        ("ms"@, Tree::Num(n.ms)),
    ]
}

fn calls_json(calls: Vec<(String, Json)>) -> (r: Json)
    ensures
        json::tree(r) == Tree::List(call_trees(calls@)),
{
    let ghost all = calls@;
    let ghost want = call_trees(all);
    let mut left = calls;
    let mut out: Vec<Json> = Vec::new();
    assert(all.skip(0) =~= all);
    assert(want.take(0) =~= Seq::<Tree>::empty());
    while left.len() > 0
        invariant
            left.len() <= all.len(),
            want == call_trees(all),
            left@ == all.skip(all.len() - left.len()),
            json::tree_items(out@) == want.take(all.len() - left.len()),
        decreases left.len(),
    {
        let ghost n = all.len() - left.len();
        let (name, args) = left.remove(0);
        assert(left@ =~= all.skip(n + 1));
        let mut m = json::members();
        json::member(&mut m, "name", json::string(name.as_str()));
        json::member(&mut m, "args", args);
        assert(json::tree_members(m@) =~= seq![
            ("name"@, Tree::Str(all[n].0@)),
            ("args"@, json::tree(all[n].1)),
        ]);
        json::item(&mut out, Json::Object(m));
        assert(want.take(n + 1) =~= want.take(n).push(want[n]));
    }
    assert(want.take(all.len() as int) =~= want);
    Json::List(out)
}

/// A turn was taken.
pub fn turn_note(n: TurnNote) -> (m: Vec<(String, Json)>)
    ensures
        json::tree_members(m@) == turn_members(n),
{
    let ghost all = n;
    let mut m = json::members();
    json::member(&mut m, "t", json::string("turn"));
    json::member(&mut m, "why", json::string(n.why.as_str()));
    json::member(&mut m, "check", Json::Bool(n.check));
    json::member(&mut m, "prompt", json::string(n.prompt.as_str()));
    json::member(&mut m, "reasoning", json::string_or_null(&n.reasoning));
    json::member(&mut m, "text", json::string(n.text.as_str()));
    json::member(&mut m, "calls", calls_json(n.calls));
    json::member(&mut m, "prompt_tokens", Json::Num(n.prompt_tokens as u64));
    json::member(&mut m, "out_tokens", Json::Num(n.out_tokens as u64));
    json::member(&mut m, "total_tokens", Json::Num(n.total_tokens as u64));
    json::member(&mut m, "cached_tokens", Json::Num(n.cached_tokens as u64));
    json::member(&mut m, "ms", Json::Num(n.ms));
    assert(json::tree_members(m@) =~= turn_members(all));
    m
}

/// A turn that the model did not answer.
pub fn failed_turn_note(why: &str, check: bool, prompt: &str, error: &str) -> (m: Vec<(String, Json)>)
    ensures
        json::tree_members(m@) == seq![
            ("t"@, Tree::Str("turn"@)),
            ("why"@, Tree::Str(why@)),
            ("check"@, Tree::Bool(check)),
            ("prompt"@, Tree::Str(prompt@)),
            ("error"@, Tree::Str(error@)),
        ],
{
    let mut m = json::members();
    json::member(&mut m, "t", json::string("turn"));
    json::member(&mut m, "why", json::string(why));
    json::member(&mut m, "check", Json::Bool(check));
    json::member(&mut m, "prompt", json::string(prompt));
    json::member(&mut m, "error", json::string(error));
    m
}

/// A turn that a reset overtook: none of its calls was made.
pub fn dropped_note(calls: u64) -> (m: Vec<(String, Json)>)
    ensures
        json::tree_members(m@) == seq![
            ("t"@, Tree::Str("dropped"@)),
            ("calls"@, Tree::Num(calls)),
        ],
{
    let mut m = json::members();
    json::member(&mut m, "t", json::string("dropped"));
    json::member(&mut m, "calls", Json::Num(calls));
    m
}

/// Results were held back.
pub fn held_note(n: u64) -> (m: Vec<(String, Json)>)
    ensures
        json::tree_members(m@) == seq![
            ("t"@, Tree::Str("held"@)),
            ("n"@, Tree::Num(n)),
        ],
{
    let mut m = json::members();
    json::member(&mut m, "t", json::string("held"));
    json::member(&mut m, "n", Json::Num(n));
    m
}

pub open spec fn compact_members(forced: bool, reboot: bool, summary: Seq<char>) -> Seq<
    (Seq<char>, Tree),
> {
    let head = seq![("t"@, Tree::Str("compact"@)), ("forced"@, Tree::Bool(forced))];
    if reboot {
        head.push(("reboot"@, Tree::Bool(true))).push(("summary"@, Tree::Str(summary)))
    } else {
        head.push(("summary"@, Tree::Str(summary)))
    }
}

/// The conversation was replaced by a summary of it.
pub fn compact_note(forced: bool, reboot: bool, summary: &str) -> (m: Vec<(String, Json)>)
    ensures
        json::tree_members(m@) == compact_members(forced, reboot, summary@),
{
    let mut m = json::members();
    json::member(&mut m, "t", json::string("compact"));
    json::member(&mut m, "forced", Json::Bool(forced));
    if reboot {
        json::member(&mut m, "reboot", Json::Bool(true));
    }
    json::member(&mut m, "summary", json::string(summary));
    assert(json::tree_members(m@) =~= compact_members(forced, reboot, summary@));
    m
}

// ---------------------------------------------------------------------
// Names in the log of events
// ---------------------------------------------------------------------

/// A session's trace: whose it is, and when it began.
pub fn trace_name(who: &str, ms: u64) -> (r: String)
    ensures
        r@ == "trace-"@ + who@ + "-"@ + text::dec(ms as nat),
{
    "trace-".to_owned().concat(who).concat("-").concat(text::number(ms).as_str())
}

pub fn session_title(who: &str) -> (r: String)
    ensures
        r@ == who@ + " session"@,
{
    who.to_owned().concat(" session")
}

/// One call of a tool in a session; a call that never was in flight has no
/// number.
pub fn span_name(session: u64, flight: Option<u64>) -> (r: String)
    ensures
        r@ == "span-"@ + text::dec(session as nat) + "-"@ + (match flight {
            Some(n) => text::dec(n as nat),
            None => "instant"@,
        }),
{
    let which = match flight {
        Some(n) => text::number(n),
        None => "instant".to_owned(),
    };
    "span-".to_owned().concat(text::number(session).as_str()).concat("-").concat(which.as_str())
}

/// One call of the model in a session.
pub fn generation_name(session: u64, turn: u64) -> (r: String)
    ensures
        r@ == "gen-"@ + text::dec(session as nat) + "-"@ + text::dec(turn as nat),
{
    "gen-".to_owned().concat(text::number(session).as_str()).concat("-").concat(
        text::number(turn).as_str(),
    )
}

// ---------------------------------------------------------------------
// Events
// ---------------------------------------------------------------------

/// An event's name: the clock's milliseconds and a running number.
pub open spec fn event_name(ms: u64, n: u64) -> Seq<char> {
    text::dec(ms as nat) + "-"@ + text::dec(n as nat)
}

pub open spec fn event_members(
    name: Seq<char>,
    at: Seq<char>,
    kind: Seq<char>,
    body: Seq<(Seq<char>, Tree)>,
) -> Seq<(Seq<char>, Tree)> {
    seq![
        ("id"@, Tree::Str("evt-"@ + name)),
        ("timestamp"@, Tree::Str(at)),
        ("type"@, Tree::Str(kind)),
        ("body"@, Tree::Object(body)),
    ]
}

/// A line that is this event.
pub open spec fn is_event(
    line: Seq<char>,
    now: u64,
    n: u64,
    kind: Seq<char>,
    body: Seq<(Seq<char>, Tree)>,
) -> bool {
    line == json::tree_text(
        Tree::Object(event_members(event_name(now, n), iso_text(now as i64), kind, body)),
    ) + "\n"@
}

fn event_line(now: u64, n: u64, kind: &str, body: Vec<(String, Json)>) -> (r: String)
    ensures
        is_event(r@, now, n, kind@, json::tree_members(body@)),
{
    let name = text::number(now).concat("-").concat(text::number(n).as_str());
    let mut m = json::members();
    json::member(&mut m, "id", json::string("evt-".to_owned().concat(name.as_str()).as_str()));
    json::member(&mut m, "timestamp", json::string(iso_from_ms(now as i64).as_str()));
    json::member(&mut m, "type", json::string(kind));
    json::member(&mut m, "body", Json::Object(body));
    assert(json::tree_members(m@) =~= event_members(
        event_name(now, n),
        iso_text(now as i64),
        kind@,
        json::tree_members(body@),
    ));
    let j = Json::Object(m);
    proof {
        json::what_is_written_depends_on_what_it_is(j);
    }
    j.print().concat("\n")
}

/// The log of events.
pub struct LangfuseLog {
    pub tape: Tape,
    /// How many events were named.
    pub named: u64,
}

pub open spec fn trace_body(
    id: Seq<char>,
    name: Seq<char>,
    at: Seq<char>,
    model: Seq<char>,
    window: Option<u64>,
) -> Seq<(Seq<char>, Tree)> {
    seq![
        ("id"@, Tree::Str(id)),
        ("name"@, Tree::Str(name)),
        ("timestamp"@, Tree::Str(at)),
        (
            "metadata"@,
            Tree::Object(
                seq![
                    ("model"@, Tree::Str(model)),
                    ("context_window"@, json::num_or_null(window)),
                ],
            ),
        ),
    ]
}

/// One call of a model, as it is logged.
pub struct Generation {
    pub id: String,
    pub trace: String,
    pub model: String,
    pub input: String,
    pub output: String,
    pub prompt_tokens: u32,
    /// Part of the prompt's.
    pub cached_tokens: u32,
    pub out_tokens: u32,
    pub total_tokens: u32,
}

/// The prompt's tokens that were not cached: the parts add up.
pub open spec fn uncached(prompt: u32, cached: u32) -> u64 {
    if prompt > cached {
        (prompt - cached) as u64
    } else {
        0
    }
}

pub open spec fn usage_members(g: Generation) -> Seq<(Seq<char>, Tree)> {
    seq![
        ("input"@, Tree::Num(uncached(g.prompt_tokens, g.cached_tokens))),
        ("output"@, Tree::Num(g.out_tokens as u64)),
        ("cache_read_input_tokens"@, Tree::Num(g.cached_tokens as u64)),
        ("total"@, Tree::Num(g.total_tokens as u64)),
    ]
}

pub open spec fn generation_body(g: Generation, start: Seq<char>, end: Seq<char>) -> Seq<
    (Seq<char>, Tree),
> {
    seq![
        ("id"@, Tree::Str(g.id@)),
        ("traceId"@, Tree::Str(g.trace@)),
        ("name"@, Tree::Str("turn"@)),
        ("model"@, Tree::Str(g.model@)),
        ("startTime"@, Tree::Str(start)),
        ("endTime"@, Tree::Str(end)),
        ("input"@, Tree::Str(g.input@)),
        ("output"@, Tree::Str(g.output@)),
        ("usageDetails"@, Tree::Object(usage_members(g))),
    ]
}

/// One call of a tool, as it is logged.
pub struct Span {
    pub id: String,
    pub trace: String,
    pub name: String,
    pub input: String,
    pub output: String,
    pub ok: bool,
}

pub open spec fn span_body(s: Span, start: Seq<char>, end: Seq<char>) -> Seq<(Seq<char>, Tree)> {
    seq![
        ("id"@, Tree::Str(s.id@)),
        ("traceId"@, Tree::Str(s.trace@)),
        ("name"@, Tree::Str(s.name@)),
        ("startTime"@, Tree::Str(start)),
        ("endTime"@, Tree::Str(end)),
        ("input"@, Tree::Str(s.input@)),
        ("output"@, Tree::Str(s.output@)),
        (
            "level"@,
            Tree::Str(
                if s.ok {
                    "DEFAULT"@
                } else {
                    "ERROR"@
                },
            ),
        ),
    ]
}

fn usage_json(g: &Generation) -> (m: Vec<(String, Json)>)
    ensures
        json::tree_members(m@) == usage_members(*g),
{
    let input: u64 = if g.prompt_tokens > g.cached_tokens {
        (g.prompt_tokens - g.cached_tokens) as u64
    } else {
        0
    };
    let mut m = json::members();
    json::member(&mut m, "input", Json::Num(input));
    json::member(&mut m, "output", Json::Num(g.out_tokens as u64));
    json::member(&mut m, "cache_read_input_tokens", Json::Num(g.cached_tokens as u64));
    json::member(&mut m, "total", Json::Num(g.total_tokens as u64));
    m
}

impl LangfuseLog {
    /// A log whose file is `size` bytes long, or could not be opened.
    pub fn open(size: Option<u64>) -> (r: LangfuseLog)
        ensures
            r.named == 0,
            r.tape == (match size {
                Some(n) => Tape { open: true, written: n },
                None => Tape { open: false, written: 0 },
            }),
    {
        LangfuseLog { tape: Tape::opened(size), named: 0 }
    }

    pub fn is_open(&self) -> (r: bool)
        ensures
            r == self.tape.open,
    {
        self.tape.open
    }

    fn event(&mut self, now: u64, kind: &str, body: Vec<(String, Json)>) -> (line: String)
        requires
            old(self).named < u64::MAX,
        ensures
            final(self).tape == old(self).tape,
            final(self).named == old(self).named + 1,
            is_event(line@, now, old(self).named, kind@, json::tree_members(body@)),
    {
        let n: u64 = self.named;
        self.named = n + 1;
        event_line(now, n, kind, body)
    }

    /// The line for a session's trace.
    pub fn trace_create(
        &mut self,
        trace_id: &str,
        name: &str,
        model: &str,
        window: Option<u32>,
        now: u64,
    ) -> (line: String)
        requires
            old(self).named < u64::MAX,
        ensures
            final(self).tape == old(self).tape,
            final(self).named == old(self).named + 1,
            is_event(
                line@,
                now,
                old(self).named,
                "trace-create"@,
                trace_body(
                    trace_id@,
                    name@,
                    iso_text(now as i64),
                    model@,
                    match window {
                        Some(w) => Some(w as u64),
                        None => None,
                    },
                ),
            ),
    {
        let size: Option<u64> = match window {
            Some(w) => Some(w as u64),
            None => None,
        };
        let mut meta = json::members();
        json::member(&mut meta, "model", json::string(model));
        json::member(&mut meta, "context_window", json::number_or_null(size));
        assert(json::tree_members(meta@) =~= seq![
            ("model"@, Tree::Str(model@)),
            ("context_window"@, json::num_or_null(size)),
        ]);
        let mut m = json::members();
        json::member(&mut m, "id", json::string(trace_id));
        json::member(&mut m, "name", json::string(name));
        json::member(&mut m, "timestamp", json::string(iso_from_ms(now as i64).as_str()));
        json::member(&mut m, "metadata", Json::Object(meta));
        assert(json::tree_members(m@) =~= trace_body(
            trace_id@,
            name@,
            iso_text(now as i64),
            model@,
            size,
        ));
        self.event(now, "trace-create", m)
    }

    /// The line for one call of a model.
    pub fn generation_create(&mut self, g: &Generation, started_ms_ago: u64, now: u64) -> (line:
        String)
        requires
            old(self).named < u64::MAX,
            now <= i64::MAX,
            started_ms_ago <= i64::MAX,
        ensures
            final(self).tape == old(self).tape,
            final(self).named == old(self).named + 1,
            is_event(
                line@,
                now,
                old(self).named,
                "generation-create"@,
                generation_body(
                    *g,
                    iso_text((now - started_ms_ago) as i64),
                    iso_text(now as i64),
                ),
            ),
    {
        let mut m = json::members();
        json::member(&mut m, "id", json::string(g.id.as_str()));
        json::member(&mut m, "traceId", json::string(g.trace.as_str()));
        json::member(&mut m, "name", json::string("turn"));
        json::member(&mut m, "model", json::string(g.model.as_str()));
        json::member(&mut m, "startTime", json::string(iso_before(now, started_ms_ago).as_str()));
        json::member(&mut m, "endTime", json::string(iso_from_ms(now as i64).as_str()));
        json::member(&mut m, "input", json::string(g.input.as_str()));
        json::member(&mut m, "output", json::string(g.output.as_str()));
        json::member(&mut m, "usageDetails", Json::Object(usage_json(g)));
        assert(json::tree_members(m@) =~= generation_body(
            *g,
            iso_text((now - started_ms_ago) as i64),
            iso_text(now as i64),
        ));
        self.event(now, "generation-create", m)
    }

    /// The line for one call of a tool.
    pub fn span_create(&mut self, s: &Span, started_ms_ago: u64, now: u64) -> (line: String)
        requires
            old(self).named < u64::MAX,
            now <= i64::MAX,
            started_ms_ago <= i64::MAX,
        ensures
            final(self).tape == old(self).tape,
            final(self).named == old(self).named + 1,
            is_event(
                line@,
                now,
                old(self).named,
                "span-create"@,
                span_body(*s, iso_text((now - started_ms_ago) as i64), iso_text(now as i64)),
            ),
    {
        let mut m = json::members();
        json::member(&mut m, "id", json::string(s.id.as_str()));
        json::member(&mut m, "traceId", json::string(s.trace.as_str()));
        json::member(&mut m, "name", json::string(s.name.as_str()));
        json::member(&mut m, "startTime", json::string(iso_before(now, started_ms_ago).as_str()));
        json::member(&mut m, "endTime", json::string(iso_from_ms(now as i64).as_str()));
        json::member(&mut m, "input", json::string(s.input.as_str()));
        json::member(&mut m, "output", json::string(s.output.as_str()));
        if s.ok {
            json::member(&mut m, "level", json::string("DEFAULT"));
        } else {
            json::member(&mut m, "level", json::string("ERROR"));
        }
        assert(json::tree_members(m@) =~= span_body(
            *s,
            iso_text((now - started_ms_ago) as i64),
            iso_text(now as i64),
        ));
        self.event(now, "span-create", m)
    }
}

proof fn lemma_no_dash(n: nat)
    ensures
        forall|i: int| 0 <= i < text::dec(n).len() ==> #[trigger] text::dec(n)[i] != '-',
    decreases n,
{
    let last = text::digit(n % 10);
    assert(last as int == 48 + n % 10);
    assert('-' as int == 45);
    if n >= 10 {
        lemma_no_dash(n / 10);
        let front = text::dec(n / 10);
        assert(text::dec(n) == front.push(last));
        assert forall|i: int| 0 <= i < text::dec(n).len() implies #[trigger] text::dec(n)[i]
            != '-' by {
            if i < front.len() {
                assert(front[i] != '-');
            }
        }
    } else {
        assert(n % 10 == n);
        assert(text::dec(n) =~= seq![last]);
    }
}

/// No two events of a log have the same name, whatever the clock says: the
/// running number tells them apart.
pub proof fn event_names_never_repeat(ms1: u64, n1: u64, ms2: u64, n2: u64)
    requires
        n1 != n2,
    ensures
        event_name(ms1, n1) != event_name(ms2, n2),
{
    reveal_strlit("-");
    let (a, b) = (text::dec(ms1 as nat), text::dec(ms2 as nat));
    let (c, d) = (text::dec(n1 as nat), text::dec(n2 as nat));
    let (x, y) = (event_name(ms1, n1), event_name(ms2, n2));
    lemma_no_dash(ms1 as nat);
    lemma_no_dash(ms2 as nat);
    assert(x[a.len() as int] == '-');
    assert(y[b.len() as int] == '-');
    if x == y {
        if a.len() < b.len() {
            assert(y[a.len() as int] == b[a.len() as int]);
            assert(false);
        } else if b.len() < a.len() {
            assert(x[b.len() as int] == a[b.len() as int]);
            assert(false);
        }
        assert(x.skip(a.len() as int + 1) =~= c);
        assert(y.skip(b.len() as int + 1) =~= d);
        text::printed_numbers_read_back(n1 as nat);
        text::printed_numbers_read_back(n2 as nat);
    }
}

/// The parts of a prompt's cost add up to it.
pub proof fn usage_adds_up(prompt: u32, cached: u32)
    requires
        cached <= prompt,
    ensures
        uncached(prompt, cached) + cached == prompt,
{
}

/// What is noted stands on a line of its own, whatever texts are in it.
pub proof fn lines_stay_apart(t: Tree)
    requires
        json::plain_numbers(t),
    ensures
        ({
            let line = json::tree_text(t) + "\n"@;
            &&& line.last() == '\n'
            &&& forall|i: int| 0 <= i < line.len() - 1 ==> #[trigger] line[i] != '\n'
        }),
{
    reveal_strlit("\n");
    json::values_are_written_on_one_line(t);
    let body = json::tree_text(t);
    let line = body + "\n"@;
    assert('\n' as u32 == 10);
    assert forall|i: int| 0 <= i < line.len() - 1 implies #[trigger] line[i] != '\n' by {
        assert(line[i] == body[i]);
    }
}

// ---------------------------------------------------------------------
// What a note reads back as
// ---------------------------------------------------------------------

/// A result is noted with its call, its tool, whether it went well and all
/// its words; one that nobody waits for any more is marked.
pub proof fn a_result_note_reads_back(
    id: Option<u64>,
    tool: Seq<char>,
    ok: bool,
    words: Seq<char>,
    j: Json,
)
    requires
        json::tree(j) == Tree::Object(result_members(id, tool, ok, words)),
    ensures
        json::text_at(j, "t"@) == Some("result"@),
        json::num_at(j, "id"@) == id,
        json::text_at(j, "tool"@) == Some(tool),
        json::flag_at(j, "ok"@) == ok,
        json::text_at(j, "text"@) == Some(words),
        json::flag_at(j, "stale"@) == id is None,
{
    reveal_strlit("t");
    reveal_strlit("id");
    reveal_strlit("tool");
    reveal_strlit("ok");
    reveal_strlit("text");
    reveal_strlit("stale");
    assert("t"@.len() == 1);
    assert("id"@.len() == 2);
    assert("tool"@.len() == 4);
    assert("ok"@.len() == 2);
    assert("text"@.len() == 4);
    assert("stale"@.len() == 5);
    assert("id"@[0] == 'i');
    assert("ok"@[0] == 'o');
    assert("text"@[1] == 'e');
    assert("tool"@[1] == 'o');
    reveal_with_fuel(json::first_under, 8);
    json::values_read_as_built(j, "t"@);
    json::values_read_as_built(j, "id"@);
    json::values_read_as_built(j, "tool"@);
    json::values_read_as_built(j, "ok"@);
    json::values_read_as_built(j, "text"@);
    json::values_read_as_built(j, "stale"@);
}

/// A turn is noted with why it was taken, what was asked and answered, what
/// was called, and what it cost.
pub proof fn a_turn_note_reads_back(
    n: TurnNote,
    j: Json,
)
    requires
        json::tree(j) == Tree::Object(turn_members(n)),
    ensures
        json::text_at(j, "t"@) == Some("turn"@),
        json::text_at(j, "why"@) == Some(n.why@),
        json::flag_at(j, "check"@) == n.check,
        json::text_at(j, "prompt"@) == Some(n.prompt@),
        json::text_at(j, "reasoning"@) == text::text_view(n.reasoning),
        json::text_at(j, "text"@) == Some(n.text@),
        json::under(json::tree(j), "calls"@) == Some(Tree::List(call_trees(n.calls@))),
        json::num_at(j, "prompt_tokens"@) == Some((n.prompt_tokens as u64)),
        json::num_at(j, "out_tokens"@) == Some((n.out_tokens as u64)),
        json::num_at(j, "total_tokens"@) == Some((n.total_tokens as u64)),
        json::num_at(j, "cached_tokens"@) == Some((n.cached_tokens as u64)),
        json::num_at(j, "ms"@) == Some(n.ms),
{
    reveal_strlit("t");
    reveal_strlit("why");
    reveal_strlit("check");
    reveal_strlit("prompt");
    reveal_strlit("reasoning");
    reveal_strlit("text");
    reveal_strlit("calls");
    reveal_strlit("prompt_tokens");
    reveal_strlit("out_tokens");
    reveal_strlit("total_tokens");
    reveal_strlit("cached_tokens");
    reveal_strlit("ms");
    assert("t"@.len() == 1);
    assert("why"@.len() == 3);
    assert("check"@.len() == 5);
    assert("prompt"@.len() == 6);
    assert("reasoning"@.len() == 9);
    assert("text"@.len() == 4);
    assert("calls"@.len() == 5);
    assert("prompt_tokens"@.len() == 13);
    assert("out_tokens"@.len() == 10);
    assert("total_tokens"@.len() == 12);
    assert("cached_tokens"@.len() == 13);
    assert("ms"@.len() == 2);
    assert("cached_tokens"@[0] == 'c');
    assert("calls"@[1] == 'a');
    assert("check"@[1] == 'h');
    assert("prompt_tokens"@[0] == 'p');
    let m = turn_members(n);
    assert(json::under(json::tree(j), "t"@) == Some(m[0].1)) by {
        assert(m[0].0 == "t"@);
        json::lemma_member_found(m, 0);
    }
    json::values_read_as_built(j, "t"@);
    assert(json::under(json::tree(j), "why"@) == Some(m[1].1)) by {
        assert(m[1].0 == "why"@);
        json::lemma_member_found(m, 1);
    }
    json::values_read_as_built(j, "why"@);
    assert(json::under(json::tree(j), "check"@) == Some(m[2].1)) by {
        assert(m[2].0 == "check"@);
        json::lemma_member_found(m, 2);
    }
    json::values_read_as_built(j, "check"@);
    assert(json::under(json::tree(j), "prompt"@) == Some(m[3].1)) by {
        assert(m[3].0 == "prompt"@);
        json::lemma_member_found(m, 3);
    }
    json::values_read_as_built(j, "prompt"@);
    assert(json::under(json::tree(j), "reasoning"@) == Some(m[4].1)) by {
        assert(m[4].0 == "reasoning"@);
        json::lemma_member_found(m, 4);
    }
    json::values_read_as_built(j, "reasoning"@);
    assert(json::under(json::tree(j), "text"@) == Some(m[5].1)) by {
        assert(m[5].0 == "text"@);
        json::lemma_member_found(m, 5);
    }
    json::values_read_as_built(j, "text"@);
    assert(json::under(json::tree(j), "calls"@) == Some(m[6].1)) by {
        assert(m[6].0 == "calls"@);
        json::lemma_member_found(m, 6);
    }
    json::values_read_as_built(j, "calls"@);
    assert(json::under(json::tree(j), "prompt_tokens"@) == Some(m[7].1)) by {
        assert(m[7].0 == "prompt_tokens"@);
        json::lemma_member_found(m, 7);
    }
    json::values_read_as_built(j, "prompt_tokens"@);
    assert(json::under(json::tree(j), "out_tokens"@) == Some(m[8].1)) by {
        assert(m[8].0 == "out_tokens"@);
        json::lemma_member_found(m, 8);
    }
    json::values_read_as_built(j, "out_tokens"@);
    assert(json::under(json::tree(j), "total_tokens"@) == Some(m[9].1)) by {
        assert(m[9].0 == "total_tokens"@);
        json::lemma_member_found(m, 9);
    }
    json::values_read_as_built(j, "total_tokens"@);
    assert(json::under(json::tree(j), "cached_tokens"@) == Some(m[10].1)) by {
        assert(m[10].0 == "cached_tokens"@);
        json::lemma_member_found(m, 10);
    }
    json::values_read_as_built(j, "cached_tokens"@);
    assert(json::under(json::tree(j), "ms"@) == Some(m[11].1)) by {
        assert(m[11].0 == "ms"@);
        json::lemma_member_found(m, 11);
    }
    json::values_read_as_built(j, "ms"@);
}

/// A compaction is noted with whether it was forced, whether it came of a
/// restart, and its whole summary.
pub proof fn a_compaction_note_reads_back(
    forced: bool,
    reboot: bool,
    summary: Seq<char>,
    j: Json,
)
    requires
        json::tree(j) == Tree::Object(compact_members(forced, reboot, summary)),
    ensures
        json::text_at(j, "t"@) == Some("compact"@),
        json::flag_at(j, "forced"@) == forced,
        json::flag_at(j, "reboot"@) == reboot,
        json::text_at(j, "summary"@) == Some(summary),
{
    reveal_strlit("t");
    reveal_strlit("forced");
    reveal_strlit("reboot");
    reveal_strlit("summary");
    assert("t"@.len() == 1);
    assert("forced"@.len() == 6);
    assert("reboot"@.len() == 6);
    assert("summary"@.len() == 7);
    assert("forced"@[0] == 'f');
    assert("reboot"@[0] == 'r');
    reveal_with_fuel(json::first_under, 6);
    json::values_read_as_built(j, "t"@);
    json::values_read_as_built(j, "forced"@);
    json::values_read_as_built(j, "reboot"@);
    json::values_read_as_built(j, "summary"@);
}

/// An event is written with its name, its time, its kind and its body.
pub proof fn an_event_reads_back(
    name: Seq<char>,
    at: Seq<char>,
    kind: Seq<char>,
    body: Seq<(Seq<char>, Tree)>,
    j: Json,
)
    requires
        json::tree(j) == Tree::Object(event_members(name, at, kind, body)),
    ensures
        json::text_at(j, "id"@) == Some("evt-"@ + name),
        json::text_at(j, "timestamp"@) == Some(at),
        json::text_at(j, "type"@) == Some(kind),
        json::under(json::tree(j), "body"@) == Some(Tree::Object(body)),
{
    reveal_strlit("id");
    reveal_strlit("timestamp");
    reveal_strlit("type");
    reveal_strlit("body");
    assert("id"@.len() == 2);
    assert("timestamp"@.len() == 9);
    assert("type"@.len() == 4);
    assert("body"@.len() == 4);
    assert("body"@[0] == 'b');
    assert("type"@[0] == 't');
    reveal_with_fuel(json::first_under, 6);
    json::values_read_as_built(j, "id"@);
    json::values_read_as_built(j, "timestamp"@);
    json::values_read_as_built(j, "type"@);
    json::values_read_as_built(j, "body"@);
}

/// A generation is written with its trace, its model, when it began and
/// ended, what went in and came out, and what it used.
pub proof fn a_generation_reads_back(
    g: Generation,
    start: Seq<char>,
    end: Seq<char>,
    j: Json,
)
    requires
        json::tree(j) == Tree::Object(generation_body(g, start, end)),
    ensures
        json::text_at(j, "id"@) == Some(g.id@),
        json::text_at(j, "traceId"@) == Some(g.trace@),
        json::text_at(j, "name"@) == Some("turn"@),
        json::text_at(j, "model"@) == Some(g.model@),
        json::text_at(j, "startTime"@) == Some(start),
        json::text_at(j, "endTime"@) == Some(end),
        json::text_at(j, "input"@) == Some(g.input@),
        json::text_at(j, "output"@) == Some(g.output@),
        json::under(json::tree(j), "usageDetails"@) == Some(Tree::Object(usage_members(g))),
{
    reveal_strlit("id");
    reveal_strlit("traceId");
    reveal_strlit("name");
    reveal_strlit("model");
    reveal_strlit("startTime");
    reveal_strlit("endTime");
    reveal_strlit("input");
    reveal_strlit("output");
    reveal_strlit("usageDetails");
    assert("id"@.len() == 2);
    assert("traceId"@.len() == 7);
    assert("name"@.len() == 4);
    assert("model"@.len() == 5);
    assert("startTime"@.len() == 9);
    assert("endTime"@.len() == 7);
    assert("input"@.len() == 5);
    assert("output"@.len() == 6);
    assert("usageDetails"@.len() == 12);
    assert("endTime"@[0] == 'e');
    assert("input"@[0] == 'i');
    assert("model"@[0] == 'm');
    assert("traceId"@[0] == 't');
    let m = generation_body(g, start, end);
    assert(json::under(json::tree(j), "id"@) == Some(m[0].1)) by {
        assert(m[0].0 == "id"@);
        json::lemma_member_found(m, 0);
    }
    json::values_read_as_built(j, "id"@);
    assert(json::under(json::tree(j), "traceId"@) == Some(m[1].1)) by {
        assert(m[1].0 == "traceId"@);
        json::lemma_member_found(m, 1);
    }
    json::values_read_as_built(j, "traceId"@);
    assert(json::under(json::tree(j), "name"@) == Some(m[2].1)) by {
        assert(m[2].0 == "name"@);
        json::lemma_member_found(m, 2);
    }
    json::values_read_as_built(j, "name"@);
    assert(json::under(json::tree(j), "model"@) == Some(m[3].1)) by {
        assert(m[3].0 == "model"@);
        json::lemma_member_found(m, 3);
    }
    json::values_read_as_built(j, "model"@);
    assert(json::under(json::tree(j), "startTime"@) == Some(m[4].1)) by {
        assert(m[4].0 == "startTime"@);
        json::lemma_member_found(m, 4);
    }
    json::values_read_as_built(j, "startTime"@);
    assert(json::under(json::tree(j), "endTime"@) == Some(m[5].1)) by {
        assert(m[5].0 == "endTime"@);
        json::lemma_member_found(m, 5);
    }
    json::values_read_as_built(j, "endTime"@);
    assert(json::under(json::tree(j), "input"@) == Some(m[6].1)) by {
        assert(m[6].0 == "input"@);
        json::lemma_member_found(m, 6);
    }
    json::values_read_as_built(j, "input"@);
    assert(json::under(json::tree(j), "output"@) == Some(m[7].1)) by {
        assert(m[7].0 == "output"@);
        json::lemma_member_found(m, 7);
    }
    json::values_read_as_built(j, "output"@);
    assert(json::under(json::tree(j), "usageDetails"@) == Some(m[8].1)) by {
        assert(m[8].0 == "usageDetails"@);
        json::lemma_member_found(m, 8);
    }
    json::values_read_as_built(j, "usageDetails"@);
}

/// What was used is written by kind, what came from the cache apart.
pub proof fn usage_reads_back(
    g: Generation,
    j: Json,
)
    requires
        json::tree(j) == Tree::Object(usage_members(g)),
    ensures
        json::num_at(j, "input"@) == Some(uncached(g.prompt_tokens, g.cached_tokens)),
        json::num_at(j, "output"@) == Some((g.out_tokens as u64)),
        json::num_at(j, "cache_read_input_tokens"@) == Some((g.cached_tokens as u64)),
        json::num_at(j, "total"@) == Some((g.total_tokens as u64)),
{
    reveal_strlit("input");
    reveal_strlit("output");
    reveal_strlit("cache_read_input_tokens");
    reveal_strlit("total");
    assert("input"@.len() == 5);
    assert("output"@.len() == 6);
    assert("cache_read_input_tokens"@.len() == 23);
    assert("total"@.len() == 5);
    assert("input"@[0] == 'i');
    assert("total"@[0] == 't');
    reveal_with_fuel(json::first_under, 6);
    json::values_read_as_built(j, "input"@);
    json::values_read_as_built(j, "output"@);
    json::values_read_as_built(j, "cache_read_input_tokens"@);
    json::values_read_as_built(j, "total"@);
}

/// A span is written with its name, when it began and ended, what went in
/// and came out, and whether it went well.
pub proof fn a_span_reads_back(
    s: Span,
    start: Seq<char>,
    end: Seq<char>,
    j: Json,
)
    requires
        json::tree(j) == Tree::Object(span_body(s, start, end)),
    ensures
        json::text_at(j, "id"@) == Some(s.id@),
        json::text_at(j, "traceId"@) == Some(s.trace@),
        json::text_at(j, "name"@) == Some(s.name@),
        json::text_at(j, "startTime"@) == Some(start),
        json::text_at(j, "endTime"@) == Some(end),
        json::text_at(j, "input"@) == Some(s.input@),
        json::text_at(j, "output"@) == Some(s.output@),
        s.ok ==> json::text_at(j, "level"@) == Some("DEFAULT"@),
        !s.ok ==> json::text_at(j, "level"@) == Some("ERROR"@),
{
    reveal_strlit("id");
    reveal_strlit("traceId");
    reveal_strlit("name");
    reveal_strlit("startTime");
    reveal_strlit("endTime");
    reveal_strlit("input");
    reveal_strlit("output");
    reveal_strlit("level");
    assert("id"@.len() == 2);
    assert("traceId"@.len() == 7);
    assert("name"@.len() == 4);
    assert("startTime"@.len() == 9);
    assert("endTime"@.len() == 7);
    assert("input"@.len() == 5);
    assert("output"@.len() == 6);
    assert("level"@.len() == 5);
    assert("endTime"@[0] == 'e');
    assert("input"@[0] == 'i');
    assert("level"@[0] == 'l');
    assert("traceId"@[0] == 't');
    let m = span_body(s, start, end);
    assert(json::under(json::tree(j), "id"@) == Some(m[0].1)) by {
        assert(m[0].0 == "id"@);
        json::lemma_member_found(m, 0);
    }
    json::values_read_as_built(j, "id"@);
    assert(json::under(json::tree(j), "traceId"@) == Some(m[1].1)) by {
        assert(m[1].0 == "traceId"@);
        json::lemma_member_found(m, 1);
    }
    json::values_read_as_built(j, "traceId"@);
    assert(json::under(json::tree(j), "name"@) == Some(m[2].1)) by {
        assert(m[2].0 == "name"@);
        json::lemma_member_found(m, 2);
    }
    json::values_read_as_built(j, "name"@);
    assert(json::under(json::tree(j), "startTime"@) == Some(m[3].1)) by {
        assert(m[3].0 == "startTime"@);
        json::lemma_member_found(m, 3);
    }
    json::values_read_as_built(j, "startTime"@);
    assert(json::under(json::tree(j), "endTime"@) == Some(m[4].1)) by {
        assert(m[4].0 == "endTime"@);
        json::lemma_member_found(m, 4);
    }
    json::values_read_as_built(j, "endTime"@);
    assert(json::under(json::tree(j), "input"@) == Some(m[5].1)) by {
        assert(m[5].0 == "input"@);
        json::lemma_member_found(m, 5);
    }
    json::values_read_as_built(j, "input"@);
    assert(json::under(json::tree(j), "output"@) == Some(m[6].1)) by {
        assert(m[6].0 == "output"@);
        json::lemma_member_found(m, 6);
    }
    json::values_read_as_built(j, "output"@);
    assert(json::under(json::tree(j), "level"@) == Some(m[7].1)) by {
        assert(m[7].0 == "level"@);
        json::lemma_member_found(m, 7);
    }
    json::values_read_as_built(j, "level"@);
}

/// A trace is written with its name, its time, its model and its window.
pub proof fn a_trace_reads_back(
    id: Seq<char>,
    name: Seq<char>,
    at: Seq<char>,
    model: Seq<char>,
    window: Option<u64>,
    j: Json,
)
    requires
        json::tree(j) == Tree::Object(trace_body(id, name, at, model, window)),
    ensures
        json::text_at(j, "id"@) == Some(id),
        json::text_at(j, "name"@) == Some(name),
        json::text_at(j, "timestamp"@) == Some(at),
        json::under(json::tree(j), "metadata"@) == Some(Tree::Object(
            seq![("model"@, Tree::Str(model)), ("context_window"@, json::num_or_null(window))],
        )),
{
    reveal_strlit("id");
    reveal_strlit("name");
    reveal_strlit("timestamp");
    reveal_strlit("metadata");
    assert("id"@.len() == 2);
    assert("name"@.len() == 4);
    assert("timestamp"@.len() == 9);
    assert("metadata"@.len() == 8);
    reveal_with_fuel(json::first_under, 6);
    json::values_read_as_built(j, "id"@);
    json::values_read_as_built(j, "name"@);
    json::values_read_as_built(j, "timestamp"@);
    json::values_read_as_built(j, "metadata"@);
}

/// Every call of a turn is noted with its tool and all it was given, in order.
pub proof fn every_call_is_noted(v: Seq<(String, Json)>, i: int)
    requires
        0 <= i < v.len(),
    ensures
        call_trees(v).len() == v.len(),
        call_trees(v)[i] == Tree::Object(
            seq![("name"@, Tree::Str(v[i].0@)), ("args"@, json::tree(v[i].1))],
        ),
{
}

/// A note of a session has all that it had, and the session's number.
pub proof fn a_note_says_its_session(note: Seq<(Seq<char>, Tree)>, session: Option<u64>)
    ensures
        session is None ==> in_session(note, session) == note,
        session matches Some(n) ==> in_session(note, session).drop_last() == note && in_session(
            note,
            session,
        ).last() == ("session"@, Tree::Num(n)),
{
    if session is Some {
        assert(in_session(note, session).drop_last() =~= note);
    }
}

} // verus!
