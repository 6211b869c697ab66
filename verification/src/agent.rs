//! One cat's side of the chain: what an event that wakes it asks of the model,
//! what the node's answers read like, which chain write a tool call makes, and
//! which events of a log are worth a turn.

use crate::common;
use crate::common::{EventCursor, Roster, TaskId};
use crate::effects;
use crate::effects::Effect;
use crate::figures;
use crate::json;
use crate::json::Json;
use crate::keys;
use crate::keys::Account;
use crate::scroll;
use crate::text;
use crate::tool_out;
use crate::tool_out::{Call, Outcome, ToolOut};
use crate::turns::TurnCost;
use vstd::prelude::*;
use vstd::string::*;

verus! {

/// Most of a sub-task's outcome that a prompt quotes.
pub const OUTCOME_CHARS: usize = 600;

// ---------------------------------------------------------------------
// Names
// ---------------------------------------------------------------------

/// Whom a hexadecimal account names, or `other`.
pub open spec fn named_or(
    h: Option<Seq<char>>,
    roster: Seq<(Seq<char>, Seq<u8>)>,
    other: Seq<char>,
) -> Seq<char> {
    match h {
        Some(s) => match keys::account_in(s) {
            Some(a) => common::name_for(roster, a),
            None => other,
        },
        None => other,
    }
}

/// Whom the account under `key` names, or `other`.
pub fn name_at(v: &Json, key: &str, roster: &Roster, other: &str) -> (r: String)
    ensures
        r@ == named_or(json::text_at(*v, key@), roster@, other@),
{
    match v.text(key) {
        Some(s) => match keys::from_hex(s.as_str()) {
            Some(a) => roster.name_of(&a),
            None => other.to_owned(),
        },
        None => other.to_owned(),
    }
}

/// The names that differ from `not`.
pub open spec fn others(names: Seq<Seq<char>>, not: Seq<char>) -> Seq<Seq<char>>
    decreases names.len(),
{
    if names.len() == 0 {
        seq![]
    } else if names.last() == not {
        others(names.drop_last(), not)
    } else {
        others(names.drop_last(), not).push(names.last())
    }
}

pub(crate) fn others_of(roster: &Roster, not: &str) -> (out: Vec<String>)
    ensures
        text::texts(out@) == others(common::names_in(roster@), not@),
{
    let names = roster.names();
    let ghost all = text::texts(names@);
    let mut out = text::none();
    let mut i: usize = 0;
    assert(all.take(0) =~= Seq::<Seq<char>>::empty());
    assert(text::texts(out@) =~= Seq::<Seq<char>>::empty());
    while i < names.len()
        invariant
            i <= names.len(),
            all == text::texts(names@),
            text::texts(out@) == others(all.take(i as int), not@),
        decreases names.len() - i,
    {
        assert(all.take(i + 1).drop_last() =~= all.take(i as int));
        assert(all.take(i + 1).last() == names@[i as int]@);
        if !text::same(names[i].as_str(), not) {
            text::put(&mut out, names[i].as_str());
        }
        i = i + 1;
    }
    assert(all.take(i as int) =~= all);
    out
}

// ---------------------------------------------------------------------
// Prompts
// ---------------------------------------------------------------------

/// What an event asks, and of which kind it is: `said` or `task`.
pub struct Prompt {
    pub text: String,
    pub kind: &'static str,
}

pub open spec fn prompt_view(o: Option<Prompt>) -> Option<(Seq<char>, Seq<char>)> {
    match o {
        Some(p) => Some((p.text@, p.kind@)),
        None => None,
    }
}

/// The litter's names but the operator's: the leader is a valid assignee,
/// itself included.
pub open spec fn workers(roster: Seq<(Seq<char>, Seq<u8>)>) -> Seq<char> {
    text::joined(others(common::names_in(roster), "root"@), ", "@)
}

pub open spec fn assigned_text(task: Seq<char>, what: Seq<char>, question: Seq<char>) -> Seq<char> {
    "The litter is working on:\n"@ + question + "\n\n[assigned: "@ + task + "] Your part: "@ + what
        + "\nCall TaskUpdate with task="@ + task + " and status=claim to take it."@
}

pub open spec fn nudge_text(task: Seq<char>, question: Seq<char>) -> Seq<char> {
    "The litter is working on:\n"@ + question + "\n\n[work: "@ + task
        + "] You claimed this.\nDo it now. Call TaskUpdate with task="@ + task
        + ", status=done, and text set to your findings — concrete and specific. If you cannot, use status=failed."@
}

pub open spec fn plan_text(
    task: Seq<char>,
    question: Seq<char>,
    roster: Seq<(Seq<char>, Seq<u8>)>,
) -> Seq<char> {
    "[plan-needed: "@ + task + "]\nThe operator asked:\n"@ + question + "\n\nCall TaskPlan on "@
        + task + " now. One assignment each to: "@ + workers(roster) + ". All in ONE call."@
}

/// What a sub-task came to, cut where it is long.
pub open spec fn outcome_of(row: Json) -> (Seq<char>, Seq<char>) {
    match json::at(row, "outcome"@) {
        Some(o) => match (json::text_at(o, "kind"@), json::text_at(o, "text"@)) {
            (Some(kind), Some(t)) => (kind, t),
            _ => ("done"@, ""@),
        },
        None => ("done"@, ""@),
    }
}

pub open spec fn outcome_cut(t: Seq<char>) -> Seq<char> {
    if t.len() > OUTCOME_CHARS {
        t.take(OUTCOME_CHARS as int) + "…"@
    } else {
        t
    }
}

/// A row that waits for the leader's decision on a part of `task`.
pub open spec fn awaits(row: Json, task: Seq<char>) -> bool {
    &&& json::text_at(row, "id"@) matches Some(id) && text::starts(id, task + "."@)
    &&& json::text_at(row, "status"@) == Some("AwaitingClearance"@)
}

pub open spec fn awaiting_line(row: Json, roster: Seq<(Seq<char>, Seq<u8>)>) -> Seq<char> {
    let (kind, t) = outcome_of(row);
    "- "@ + scroll::text_or(row, "id"@, "?"@) + " ("@ + named_or(
        json::text_at(row, "holder"@),
        roster,
        "someone"@,
    ) + ", "@ + kind + "): "@ + outcome_cut(t)
}

pub open spec fn awaiting_lines(
    rows: Seq<Json>,
    task: Seq<char>,
    roster: Seq<(Seq<char>, Seq<u8>)>,
) -> Seq<Seq<char>>
    decreases rows.len(),
{
    if rows.len() == 0 {
        seq![]
    } else {
        let before = awaiting_lines(rows.drop_last(), task, roster);
        if awaits(rows.last(), task) {
            before.push(awaiting_line(rows.last(), roster))
        } else {
            before
        }
    }
}

pub open spec fn clearance_text(
    task: Seq<char>,
    question: Seq<char>,
    roster: Seq<(Seq<char>, Seq<u8>)>,
    rows: Seq<Json>,
) -> Seq<char> {
    let lines = awaiting_lines(rows, task, roster);
    let list = if lines.len() == 0 {
        "(none outstanding right now — check /tasks before acting)"@
    } else {
        text::joined(lines, "\n"@)
    };
    "[clearance-needed: "@ + task + "]\nThe question: "@ + question
        + "\n\nSub-tasks awaiting your decision:\n"@ + list
        + "\n\nFor EACH one listed above, call TaskUpdate using ITS OWN id shown above (never "@
        + task
        + ", the parent) with status=clear if it helps answer the question, or status=reopen (with text saying why not) if it doesn't."@
}

pub open spec fn artifact_text(task: Seq<char>, question: Seq<char>, words: u64, pages: u64) -> Seq<
    char,
> {
    "[artifact-needed: "@ + task + "]\nTHE QUESTION YOU MUST ANSWER:\n"@ + question
        + "\n\nEvery sub-task is cleared. Call TaskUpdate with task="@ + task
        + ", status=artifact, and text set to the final report in markdown. The '# ' heading must restate the question, and the report must answer it. Keep it under "@
        + text::dec(words as nat) + " words — about "@ + text::dec(pages as nat)
        + " pages; anything longer is refused."@
}

pub open spec fn reassign_text(task: Seq<char>, roster: Seq<(Seq<char>, Seq<u8>)>) -> Seq<char> {
    "[reassign-needed: "@ + task
        + "]\nA sub-task has been offered repeatedly and never claimed — that cat cannot do it. Call TaskReassign to move it to another cat. The litter is: "@
        + workers(roster)
}

/// What a message asks: whom it was for, whether it wants a reply, and whether
/// a reply must stay off the record.
pub open spec fn said_text(
    eff: Json,
    from: Seq<char>,
    me: Seq<char>,
    roster: Seq<(Seq<char>, Seq<u8>)>,
) -> Seq<char> {
    let framing = if json::set_at(eff, "to"@) {
        "This was sent to you directly."@
    } else {
        "This was sent to the whole litter, not just you — reply if you have something to add, or a short acknowledgment is a complete answer too."@
    };
    let ack_note = if json::flag_at(eff, "no_ack"@) {
        "This is a closing remark, not a question — it does not need a reply. Doing nothing is the correct response unless you actually have something new."@
    } else {
        "Reply with SendMessage. Two sentences at most. If your reply is itself just a closing remark or acknowledgment rather than something that needs an answer, set SendMessage's no_ack to true so it doesn't bounce back to you."@
    };
    let otr_note = if json::flag_at(eff, "off_record"@) {
        " This was sent off the record — it was never written to the chain. If you reply, set SendMessage's off_record to true as well, or your reply will be committed even though this message wasn't."@
    } else {
        ""@
    };
    named_or(Some(from), roster, "someone"@) + " said to the litter:\n\""@ + json::words_at(
        eff,
        "body"@,
    ) + "\"\n\n"@ + framing + " The litter's other members, by name: "@ + text::joined(
        others(common::names_in(roster), me),
        ", "@,
    ) + ".\n\n"@ + ack_note + otr_note
}

/// What a directive asks of the leader.
pub open spec fn directive_prompt(
    d: Seq<char>,
    task: Seq<char>,
    question: Seq<char>,
    roster: Seq<(Seq<char>, Seq<u8>)>,
    rows: Seq<Json>,
    words: u64,
    pages: u64,
) -> Option<Seq<char>> {
    if d == "PlanNeeded"@ {
        Some(plan_text(task, question, roster))
    } else if d == "ClearanceNeeded"@ {
        Some(clearance_text(task, question, roster, rows))
    } else if d == "ArtifactNeeded"@ {
        Some(artifact_text(task, question, words, pages))
    } else if d == "ReassignNeeded"@ {
        Some(reassign_text(task, roster))
    } else {
        None
    }
}

/// What an event asks, and its kind; nothing where it asks nothing.
pub open spec fn asked(
    eff: Json,
    question: Seq<char>,
    me: Seq<char>,
    roster: Seq<(Seq<char>, Seq<u8>)>,
    rows: Seq<Json>,
    words: u64,
    pages: u64,
) -> Option<(Seq<char>, Seq<char>)> {
    let task = scroll::text_or(eff, "task"@, "t1"@);
    match json::text_at(eff, "t"@) {
        None => None,
        Some(t) => if t == "assigned"@ {
            if json::at(eff, "what"@) is Some {
                Some((assigned_text(task, json::words_at(eff, "what"@), question), "task"@))
            } else {
                None
            }
        } else if t == "nudge"@ {
            Some((nudge_text(task, question), "task"@))
        } else if t == "directed"@ {
            if json::at(eff, "directive"@) is Some {
                match directive_prompt(
                    json::words_at(eff, "directive"@),
                    task,
                    question,
                    roster,
                    rows,
                    words,
                    pages,
                ) {
                    Some(p) => Some((p, "task"@)),
                    None => None,
                }
            } else {
                None
            }
        } else if t == "said"@ {
            match json::text_at(eff, "from"@) {
                Some(from) => if json::at(eff, "body"@) is Some {
                    Some((said_text(eff, from, me, roster), "said"@))
                } else {
                    None
                },
                None => None,
            }
        } else {
            None
        },
    }
}

/// The directives that the table gives.
pub open spec fn is_directive(d: Seq<char>) -> bool {
    d == "PlanNeeded"@ || d == "ClearanceNeeded"@ || d == "ArtifactNeeded"@ || d
        == "ReassignNeeded"@
}

/// The two rules of what makes a turn: an assignment or a directive always does,
/// whatever else is known, and a record never does on its own.
pub proof fn work_makes_a_turn_and_a_record_none(
    e: Effect,
    j: Json,
    question: Seq<char>,
    me: Seq<char>,
    roster: Seq<(Seq<char>, Seq<u8>)>,
    rows: Seq<Json>,
    words: u64,
    pages: u64,
)
    requires
        json::tree(j) == effects::effect_tree(e),
    ensures
        e is Assigned ==> asked(j, question, me, roster, rows, words, pages) is Some,
        (e matches Effect::Directed { holder, task, directive } && is_directive(directive@))
            ==> asked(j, question, me, roster, rows, words, pages) is Some,
        e is Record ==> asked(j, question, me, roster, rows, words, pages) is None,
{
    reveal_strlit("t");
    reveal_strlit("to");
    reveal_strlit("who");
    reveal_strlit("task");
    reveal_strlit("what");
    reveal_strlit("directive");
    reveal_strlit("assigned");
    reveal_strlit("nudge");
    reveal_strlit("directed");
    reveal_strlit("said");
    reveal_strlit("record");
    reveal_with_fuel(json::first_under, 6);
    json::values_read_as_built(j, "t"@);
    json::values_read_as_built(j, "what"@);
    json::values_read_as_built(j, "directive"@);
    assert("t"@.len() == 1 && "to"@.len() == 2 && "task"@[0] == 't' && "what"@[0] == 'w');
    assert("record"@.len() == 6 && "assigned"@[0] == 'a' && "directed"@[0] == 'd');
}

/// Whether an event's prompt lists the tasks that await clearance.
pub open spec fn lists_tasks(eff: Json) -> bool {
    json::text_at(eff, "t"@) == Some("directed"@) && json::text_at(eff, "directive"@) == Some(
        "ClearanceNeeded"@,
    )
}

/// Whether an event's prompt needs the node's task list.
pub fn needs_tasks(eff: &Json) -> (r: bool)
    ensures
        r == lists_tasks(*eff),
{
    match (eff.text("t"), eff.text("directive")) {
        (Some(t), Some(d)) => text::same(t.as_str(), "directed") && text::same(
            d.as_str(),
            "ClearanceNeeded",
        ),
        _ => false,
    }
}

fn workers_of(roster: &Roster) -> (r: String)
    ensures
        r@ == workers(roster@),
{
    text::join(&others_of(roster, "root"), ", ")
}

fn outcome_parts(row: &Json) -> (r: (String, String))
    ensures
        (r.0@, r.1@) == outcome_of(*row),
{
    match row.get("outcome") {
        Some(o) => match (o.text("kind"), o.text("text")) {
            (Some(kind), Some(t)) => (kind, t),
            _ => ("done".to_owned(), "".to_owned()),
        },
        None => ("done".to_owned(), "".to_owned()),
    }
}

fn cut_outcome(t: &str) -> (r: String)
    ensures
        r@ == outcome_cut(t@),
{
    let v = text::chars_of(t);
    if v.len() > OUTCOME_CHARS {
        let head = text::slice_text(&v, 0, OUTCOME_CHARS);
        assert(head@ =~= t@.take(OUTCOME_CHARS as int));
        head.concat("…")
    } else {
        t.to_owned()
    }
}

fn is_awaiting(row: &Json, task: &str) -> (r: bool)
    ensures
        r == awaits(*row, task@),
{
    match (row.text("id"), row.text("status")) {
        (Some(id), Some(status)) => text::starts_with(
            id.as_str(),
            task.to_owned().concat(".").as_str(),
        ) && text::same(status.as_str(), "AwaitingClearance"),
        _ => false,
    }
}

fn awaiting_of(rows: &Vec<Json>, task: &str, roster: &Roster) -> (out: Vec<String>)
    ensures
        text::texts(out@) == awaiting_lines(rows@, task@, roster@),
{
    let mut out = text::none();
    let mut i: usize = 0;
    assert(rows@.take(0) =~= Seq::<Json>::empty());
    assert(text::texts(out@) =~= Seq::<Seq<char>>::empty());
    while i < rows.len()
        invariant
            i <= rows.len(),
            text::texts(out@) == awaiting_lines(rows@.take(i as int), task@, roster@),
        decreases rows.len() - i,
    {
        assert(rows@.take(i + 1).drop_last() =~= rows@.take(i as int));
        let row = &rows[i];
        if is_awaiting(row, task) {
            let (kind, t) = outcome_parts(row);
            let id = match row.text("id") {
                Some(s) => s,
                None => "?".to_owned(),
            };
            let line = String::from_str("- ").concat(id.as_str()).concat(" (").concat(
                name_at(row, "holder", roster, "someone").as_str(),
            ).concat(", ").concat(kind.as_str()).concat("): ").concat(
                cut_outcome(t.as_str()).as_str(),
            );
            text::put(&mut out, line.as_str());
        }
        i = i + 1;
    }
    assert(rows@.take(i as int) =~= rows@);
    out
}

fn clearance_of(task: &str, question: &str, roster: &Roster, rows: &Vec<Json>) -> (r: String)
    ensures
        r@ == clearance_text(task@, question@, roster@, rows@),
{
    let lines = awaiting_of(rows, task, roster);
    assert(lines@.len() == text::texts(lines@).len());
    let list = if lines.len() == 0 {
        "(none outstanding right now — check /tasks before acting)".to_owned()
    } else {
        text::join(&lines, "\n")
    };
    String::from_str("[clearance-needed: ").concat(task).concat("]\nThe question: ").concat(
        question,
    ).concat("\n\nSub-tasks awaiting your decision:\n").concat(list.as_str()).concat(
        "\n\nFor EACH one listed above, call TaskUpdate using ITS OWN id shown above (never ",
    ).concat(task).concat(
        ", the parent) with status=clear if it helps answer the question, or status=reopen (with text saying why not) if it doesn't.",
    )
}

fn said_of(eff: &Json, me: &str, roster: &Roster) -> (r: String)
    requires
        json::text_at(*eff, "from"@) is Some,
    ensures
        r@ == said_text(*eff, json::text_at(*eff, "from"@)->0, me@, roster@),
{
    let who = name_at(eff, "from", roster, "someone");
    let framing = if eff.is_set("to") {
        "This was sent to you directly."
    } else {
        "This was sent to the whole litter, not just you — reply if you have something to add, or a short acknowledgment is a complete answer too."
    };
    let ack_note = if eff.flag("no_ack") {
        "This is a closing remark, not a question — it does not need a reply. Doing nothing is the correct response unless you actually have something new."
    } else {
        "Reply with SendMessage. Two sentences at most. If your reply is itself just a closing remark or acknowledgment rather than something that needs an answer, set SendMessage's no_ack to true so it doesn't bounce back to you."
    };
    let otr_note = if eff.flag("off_record") {
        " This was sent off the record — it was never written to the chain. If you reply, set SendMessage's off_record to true as well, or your reply will be committed even though this message wasn't."
    } else {
        ""
    };
    let names = text::join(&others_of(roster, me), ", ");
    who.concat(" said to the litter:\n\"").concat(eff.words("body").as_str()).concat(
        "\"\n\n",
    ).concat(framing).concat(" The litter's other members, by name: ").concat(
        names.as_str(),
    ).concat(".\n\n").concat(ack_note).concat(otr_note)
}

fn directive_of(
    d: &str,
    task: &str,
    question: &str,
    roster: &Roster,
    rows: &Vec<Json>,
    words: u64,
    pages: u64,
) -> (r: Option<String>)
    ensures
        text::text_view(r) == directive_prompt(
            d@,
            task@,
            question@,
            roster@,
            rows@,
            words,
            pages,
        ),
{
    if text::same(d, "PlanNeeded") {
        return Some(
            String::from_str("[plan-needed: ").concat(task).concat(
                "]\nThe operator asked:\n",
            ).concat(question).concat("\n\nCall TaskPlan on ").concat(task).concat(
                " now. One assignment each to: ",
            ).concat(workers_of(roster).as_str()).concat(". All in ONE call."),
        );
    }
    if text::same(d, "ClearanceNeeded") {
        return Some(clearance_of(task, question, roster, rows));
    }
    if text::same(d, "ArtifactNeeded") {
        return Some(
            String::from_str("[artifact-needed: ").concat(task).concat(
                "]\nTHE QUESTION YOU MUST ANSWER:\n",
            ).concat(question).concat(
                "\n\nEvery sub-task is cleared. Call TaskUpdate with task=",
            ).concat(task).concat(
                ", status=artifact, and text set to the final report in markdown. The '# ' heading must restate the question, and the report must answer it. Keep it under ",
            ).concat(text::number(words).as_str()).concat(" words — about ").concat(
                text::number(pages).as_str(),
            ).concat(" pages; anything longer is refused."),
        );
    }
    if text::same(d, "ReassignNeeded") {
        return Some(
            String::from_str("[reassign-needed: ").concat(task).concat(
                "]\nA sub-task has been offered repeatedly and never claimed — that cat cannot do it. Call TaskReassign to move it to another cat. The litter is: ",
            ).concat(workers_of(roster).as_str()),
        );
    }
    None
}

/// Build the prompt for one woken event. The parent question is carried into
/// every one: a turn is stateless, so the chain is the only memory. `rows` is
/// the node's task list, `words` and `pages` the artifact's limits.
pub fn prompt(
    eff: &Json,
    question: &str,
    me: &str,
    roster: &Roster,
    rows: &Vec<Json>,
    words: u64,
    pages: u64,
) -> (r: Option<Prompt>)
    ensures
        prompt_view(r) == asked(*eff, question@, me@, roster@, rows@, words, pages),
{
    let t_text = match eff.text("t") {
        Some(t) => t,
        None => {
            return None;
        },
    };
    let t = t_text.as_str();
    let task_text = match eff.text("task") {
        Some(s) => s,
        None => "t1".to_owned(),
    };
    let task = task_text.as_str();
    if text::same(t, "assigned") {
        if eff.get("what").is_none() {
            return None;
        }
        let text = String::from_str("The litter is working on:\n").concat(question).concat(
            "\n\n[assigned: ",
        ).concat(task).concat("] Your part: ").concat(eff.words("what").as_str()).concat(
            "\nCall TaskUpdate with task=",
        ).concat(task).concat(" and status=claim to take it.");
        return Some(Prompt { text, kind: "task" });
    }
    if text::same(t, "nudge") {
        let text = String::from_str("The litter is working on:\n").concat(question).concat(
            "\n\n[work: ",
        ).concat(task).concat("] You claimed this.\nDo it now. Call TaskUpdate with task=").concat(
            task,
        ).concat(
            ", status=done, and text set to your findings — concrete and specific. If you cannot, use status=failed.",
        );
        return Some(Prompt { text, kind: "task" });
    }
    if text::same(t, "directed") {
        if eff.get("directive").is_none() {
            return None;
        }
        let d = eff.words("directive");
        return match directive_of(d.as_str(), task, question, roster, rows, words, pages) {
            Some(text) => Some(Prompt { text, kind: "task" }),
            None => None,
        };
    }
    if text::same(t, "said") {
        if eff.text("from").is_none() || eff.get("body").is_none() {
            return None;
        }
        return Some(Prompt { text: said_of(eff, me, roster), kind: "said" });
    }
    None
}

// ---------------------------------------------------------------------
// What the node's answers read like
// ---------------------------------------------------------------------

pub open spec fn artifact_line(row: Json, roster: Seq<(Seq<char>, Seq<u8>)>) -> Seq<char> {
    scroll::text_or(row, "id"@, "?"@) + ": "@ + json::words_at(row, "title"@) + " ("@ + named_or(
        json::text_at(row, "author"@),
        roster,
        "someone"@,
    ) + ")"@
}

pub open spec fn artifact_lines(
    rows: Seq<Json>,
    roster: Seq<(Seq<char>, Seq<u8>)>,
) -> Seq<Seq<char>> {
    Seq::new(rows.len(), |i: int| artifact_line(rows[i], roster))
}

pub open spec fn artifacts_answer(
    rows: Seq<Json>,
    roster: Seq<(Seq<char>, Seq<u8>)>,
) -> Outcome {
    tool_out::with_body(
        tool_out::with_meta(tool_out::bare(""@, true), text::dec(rows.len()) + " artifacts"@),
        text::joined(artifact_lines(rows, roster), "\n"@),
    )
}

/// The litter's artifacts, one to a line.
pub fn artifact_list(rows: &Vec<Json>, roster: &Roster) -> (r: ToolOut)
    ensures
        r@ == artifacts_answer(rows@, roster@),
{
    let ghost want = artifact_lines(rows@, roster@);
    let mut lines = text::none();
    let mut i: usize = 0;
    assert(want.take(0) =~= Seq::<Seq<char>>::empty());
    while i < rows.len()
        invariant
            i <= rows.len(),
            want == artifact_lines(rows@, roster@),
            text::texts(lines@) == want.take(i as int),
        decreases rows.len() - i,
    {
        let row = &rows[i];
        let id = match row.text("id") {
            Some(s) => s,
            None => "?".to_owned(),
        };
        let line = id.concat(": ").concat(row.words("title").as_str()).concat(" (").concat(
            name_at(row, "author", roster, "someone").as_str(),
        ).concat(")");
        assert(want.take(i + 1) =~= want.take(i as int).push(line@));
        text::put(&mut lines, line.as_str());
        i = i + 1;
    }
    assert(want.take(i as int) =~= want);
    let count = text::number(rows.len() as u64).concat(" artifacts");
    ToolOut::new("", true).meta(count.as_str()).body(text::join(&lines, "\n").as_str())
}

/// Where an artifact is read: an id that begins with `t` is a closed task's
/// report, any other a note of its own.
pub open spec fn artifact_path_text(id: Seq<char>) -> Seq<char> {
    let s = text::trimmed_start(id);
    if s.len() > 0 && (s[0] == 't' || s[0] == 'T') {
        "/artifact/"@ + id
    } else {
        "/note/"@ + id
    }
}

/// Where an artifact is read: an id that begins with `t` is a closed task's
/// report, any other a note of its own.
pub fn artifact_path(id: &str) -> (r: String)
    ensures
        r@ == artifact_path_text(id@),
{
    let v = text::chars_of(text::trim_start(id).as_str());
    if v.len() > 0 && (v[0] == 't' || v[0] == 'T') {
        String::from_str("/artifact/").concat(id)
    } else {
        String::from_str("/note/").concat(id)
    }
}

pub open spec fn artifact_answer(id: Seq<char>, v: Json) -> Outcome {
    let body = json::words_at(v, "body"@);
    if json::flag_at(v, "found"@) {
        tool_out::with_body(
            tool_out::with_meta(
                tool_out::bare(id, true),
                figures::byte_text(text::size(body) as nat),
            ),
            body,
        )
    } else {
        tool_out::with_meta(tool_out::bare(id, false), "no such artifact"@)
    }
}

/// One artifact, as the node answered for it.
pub fn artifact_read(id: &str, v: &Json) -> (r: ToolOut)
    ensures
        r@ == artifact_answer(id@, *v),
{
    if v.flag("found") {
        let body = v.words("body");
        let size = figures::bytes(body.as_str().len() as u64);
        ToolOut::new(id, true).meta(size.as_str()).body(body.as_str())
    } else {
        ToolOut::new(id, false).meta("no such artifact")
    }
}

/// A question the node did not answer, or answered with something unreadable.
pub open spec fn failed_answer(id: Seq<char>, reached: bool, why: Seq<char>) -> Outcome {
    tool_out::with_body(
        tool_out::with_meta(
            tool_out::bare(id, false),
            if reached {
                "bad response"@
            } else {
                "node unreachable"@
            },
        ),
        why,
    )
}

/// A question the node did not answer, or answered with something unreadable.
pub fn query_failed(id: &str, reached: bool, why: &str) -> (r: ToolOut)
    ensures
        r@ == failed_answer(id@, reached, why@),
{
    let what = if reached {
        "bad response"
    } else {
        "node unreachable"
    };
    ToolOut::new(id, false).meta(what).body(why)
}

/// An address without its scheme.
pub open spec fn bare_address(route: Seq<char>) -> Seq<char> {
    match text::find_from(route, "://"@, 0) {
        Some(i) => route.skip(i as int + 3),
        None => route,
    }
}

/// An address without its scheme.
pub fn address_of(route: &str) -> (r: String)
    ensures
        r@ == bare_address(route@),
{
    let v = text::chars_of(route);
    let mark = text::chars_of("://");
    proof {
        reveal_strlit("://");
    }
    match text::find_at(&v, &mark, 0) {
        Some(i) => {
            let r = text::slice_text(&v, i + 3, v.len());
            assert(r@ =~= route@.skip(i as int + 3));
            r
        },
        None => route.to_owned(),
    }
}

/// A peer we call.
pub open spec fn peer_line(p: Json, roster: Seq<(Seq<char>, Seq<u8>)>) -> Seq<char> {
    let route = scroll::text_or(p, "route"@, "?"@);
    if json::set_at(p, "status"@) {
        let status = json::at(p, "status"@)->0;
        let who = named_or(json::text_at(status, "account"@), roster, route) + " — "@
            + scroll::text_or(status, "role"@, "?"@) + ", at "@ + bare_address(route);
        match json::num_at(p, "seen_ms_ago"@) {
            Some(ms) => who + ", seen "@ + text::dec(ms as nat) + "ms ago"@,
            None => who,
        }
    } else {
        route + " — never answered"@
    }
}

/// The value under `key`, or `null`.
pub open spec fn value_at(v: Json, key: Seq<char>) -> Json {
    match json::at(v, key) {
        Some(x) => x,
        None => Json::Null,
    }
}

/// A peer that calls us.
pub open spec fn caller_line(p: Json, roster: Seq<(Seq<char>, Seq<u8>)>) -> Seq<char> {
    let status = value_at(p, "status"@);
    named_or(
        json::text_at(status, "account"@),
        roster,
        scroll::text_or(status, "name"@, "?"@),
    ) + " — "@ + scroll::text_or(status, "role"@, "?"@)
        + ", calls us but we can't reach it, heard "@ + text::dec(
        scroll::num_or_0(p, "seen_ms_ago"@) as nat,
    ) + "ms ago"@
}

pub open spec fn peer_lines(
    me: Seq<char>,
    roster: Seq<(Seq<char>, Seq<u8>)>,
    v: Json,
) -> Seq<Seq<char>> {
    let called = json::items_at(v, "peers"@);
    let calling = json::items_at(v, "inbound"@);
    seq![me + " — me, "@ + scroll::text_or(value_at(v, "me"@), "role"@, "?"@)] + Seq::new(
        called.len(),
        |i: int| peer_line(called[i], roster),
    ) + Seq::new(calling.len(), |i: int| caller_line(calling[i], roster)) + seq![
        "roster (configured, not all necessarily live): "@ + text::joined(
            common::names_in(roster),
            ", "@,
        ),
    ]
}

fn word_at(v: &Json, key: &str, other: &str) -> (r: String)
    ensures
        r@ == scroll::text_or(*v, key@, other@),
{
    match v.text(key) {
        Some(s) => s,
        None => other.to_owned(),
    }
}

fn peer_text(p: &Json, roster: &Roster) -> (r: String)
    ensures
        r@ == peer_line(*p, roster@),
{
    let route = word_at(p, "route", "?");
    if p.is_set("status") {
        match p.get("status") {
            Some(status) => {
                let who = name_at(status, "account", roster, route.as_str()).concat(" — ").concat(
                    word_at(status, "role", "?").as_str(),
                ).concat(", at ").concat(address_of(route.as_str()).as_str());
                return match p.num("seen_ms_ago") {
                    Some(ms) => who.concat(", seen ").concat(
                        text::number(ms).as_str(),
                    ).concat("ms ago"),
                    None => who,
                };
            },
            None => {},
        }
    }
    route.concat(" — never answered")
}

fn caller_of(status: &Json, ms: u64, roster: &Roster) -> (r: String)
    ensures
        r@ == named_or(
            json::text_at(*status, "account"@),
            roster@,
            scroll::text_or(*status, "name"@, "?"@),
        ) + " — "@ + scroll::text_or(*status, "role"@, "?"@)
            + ", calls us but we can't reach it, heard "@ + text::dec(ms as nat) + "ms ago"@,
{
    let other = word_at(status, "name", "?");
    name_at(status, "account", roster, other.as_str()).concat(" — ").concat(
        word_at(status, "role", "?").as_str(),
    ).concat(", calls us but we can't reach it, heard ").concat(text::number(ms).as_str()).concat(
        "ms ago",
    )
}

fn caller_text(p: &Json, roster: &Roster) -> (r: String)
    ensures
        r@ == caller_line(*p, roster@),
{
    let ms: u64 = match p.num("seen_ms_ago") {
        Some(n) => n,
        None => 0,
    };
    match p.get("status") {
        Some(status) => caller_of(status, ms, roster),
        None => caller_of(&Json::Null, ms, roster),
    }
}

fn add_peers(v: &Vec<Json>, roster: &Roster, out: &mut Vec<String>)
    ensures
        text::texts(final(out)@) == text::texts(old(out)@) + Seq::new(
            v@.len(),
            |i: int| peer_line(v@[i], roster@),
        ),
{
    let ghost start = text::texts(out@);
    let ghost want = Seq::new(v@.len(), |i: int| peer_line(v@[i], roster@));
    let mut i: usize = 0;
    assert(start + want.take(0) =~= start);
    while i < v.len()
        invariant
            i <= v.len(),
            want == Seq::new(v@.len(), |i: int| peer_line(v@[i], roster@)),
            text::texts(out@) == start + want.take(i as int),
        decreases v.len() - i,
    {
        let one = peer_text(&v[i], roster);
        assert(want.take(i + 1) =~= want.take(i as int).push(one@));
        text::put(out, one.as_str());
        i = i + 1;
    }
    assert(want.take(i as int) =~= want);
}

fn add_callers(v: &Vec<Json>, roster: &Roster, out: &mut Vec<String>)
    ensures
        text::texts(final(out)@) == text::texts(old(out)@) + Seq::new(
            v@.len(),
            |i: int| caller_line(v@[i], roster@),
        ),
{
    let ghost start = text::texts(out@);
    let ghost want = Seq::new(v@.len(), |i: int| caller_line(v@[i], roster@));
    let mut i: usize = 0;
    assert(start + want.take(0) =~= start);
    while i < v.len()
        invariant
            i <= v.len(),
            want == Seq::new(v@.len(), |i: int| caller_line(v@[i], roster@)),
            text::texts(out@) == start + want.take(i as int),
        decreases v.len() - i,
    {
        let one = caller_text(&v[i], roster);
        assert(want.take(i + 1) =~= want.take(i as int).push(one@));
        text::put(out, one.as_str());
        i = i + 1;
    }
    assert(want.take(i as int) =~= want);
}

pub open spec fn peers_answer(
    me: Seq<char>,
    roster: Seq<(Seq<char>, Seq<u8>)>,
    v: Json,
) -> Outcome {
    let lines = peer_lines(me, roster, v);
    tool_out::with_body(
        tool_out::with_meta(
            tool_out::bare(""@, true),
            text::dec((lines.len() - 1) as nat) + " live"@,
        ),
        text::joined(lines, "\n"@),
    )
}

/// Who is on the mesh, as the node answered, and who is on the roster.
pub fn peers_report(me: &str, roster: &Roster, v: &Json) -> (r: ToolOut)
    ensures
        r@ == peers_answer(me@, roster@, *v),
{
    let role = match v.get("me") {
        Some(m) => word_at(m, "role", "?"),
        None => "?".to_owned(),
    };
    let mut lines = text::none();
    let first = me.to_owned().concat(" — me, ").concat(role.as_str());
    text::put(&mut lines, first.as_str());
    let ghost s1 = seq![first@];
    assert(text::texts(lines@) =~= s1);
    let ghost called = json::items_at(*v, "peers"@);
    let ghost calling = json::items_at(*v, "inbound"@);
    match v.items("peers") {
        Some(p) => {
            add_peers(p, roster, &mut lines);
        },
        None => {},
    }
    let ghost s2 = s1 + Seq::new(called.len(), |i: int| peer_line(called[i], roster@));
    assert(text::texts(lines@) =~= s2);
    match v.items("inbound") {
        Some(p) => {
            add_callers(p, roster, &mut lines);
        },
        None => {},
    }
    let ghost s3 = s2 + Seq::new(calling.len(), |i: int| caller_line(calling[i], roster@));
    assert(text::texts(lines@) =~= s3);
    let names = text::join(&roster.names(), ", ");
    let last = String::from_str("roster (configured, not all necessarily live): ").concat(
        names.as_str(),
    );
    text::put(&mut lines, last.as_str());
    assert(text::texts(lines@) =~= peer_lines(me@, roster@, *v));
    let count = text::number((lines.len() - 1) as u64).concat(" live");
    ToolOut::new("", true).meta(count.as_str()).body(text::join(&lines, "\n").as_str())
}

pub open spec fn stats_line(row: Json, roster: Seq<(Seq<char>, Seq<u8>)>) -> Seq<char> {
    named_or(json::text_at(row, "account"@), roster, "someone"@) + " — "@ + text::joined(
        scroll::stats_parts(row),
        " · "@,
    )
}

pub open spec fn stats_lines(
    rows: Seq<Json>,
    roster: Seq<(Seq<char>, Seq<u8>)>,
) -> Seq<Seq<char>> {
    Seq::new(rows.len(), |i: int| stats_line(rows[i], roster))
}

pub open spec fn stats_answer(rows: Seq<Json>, roster: Seq<(Seq<char>, Seq<u8>)>) -> Outcome {
    tool_out::with_body(
        tool_out::with_meta(tool_out::bare(""@, true), text::dec(rows.len()) + " cats"@),
        text::joined(stats_lines(rows, roster), "\n"@),
    )
}

/// What each cat has cost so far.
pub fn stats_report(rows: &Vec<Json>, roster: &Roster) -> (r: ToolOut)
    ensures
        r@ == stats_answer(rows@, roster@),
{
    let ghost want = stats_lines(rows@, roster@);
    let mut lines = text::none();
    let mut i: usize = 0;
    assert(want.take(0) =~= Seq::<Seq<char>>::empty());
    while i < rows.len()
        invariant
            i <= rows.len(),
            want == stats_lines(rows@, roster@),
            text::texts(lines@) == want.take(i as int),
        decreases rows.len() - i,
    {
        let line = name_at(&rows[i], "account", roster, "someone").concat(" — ").concat(
            scroll::stats_phrase(&rows[i]).as_str(),
        );
        assert(want.take(i + 1) =~= want.take(i as int).push(line@));
        text::put(&mut lines, line.as_str());
        i = i + 1;
    }
    assert(want.take(i as int) =~= want);
    let count = text::number(rows.len() as u64).concat(" cats");
    ToolOut::new("", true).meta(count.as_str()).body(text::join(&lines, "\n").as_str())
}

// ---------------------------------------------------------------------
// Chain writes
// ---------------------------------------------------------------------

/// Where a read that a model asked for is answered.
pub open spec fn query_place(name: Seq<char>, id: Seq<char>) -> Option<Seq<char>> {
    if name == "ArtifactList"@ {
        Some("/artifacts"@)
    } else if name == "ArtifactRead"@ {
        Some(artifact_path_text(id))
    } else if name == "Peers"@ {
        Some("/mesh/peers"@)
    } else if name == "Stats"@ {
        Some("/stats"@)
    } else {
        None
    }
}

/// Where a read that a model asked for is answered; none of them is any other
/// tool's.
pub fn query_path(c: &Call) -> (r: Option<String>)
    ensures
        text::text_view(r) == query_place(c.name@, json::words_at(c.args, "id"@)),
{
    let name = c.name.as_str();
    if text::same(name, "ArtifactList") {
        Some("/artifacts".to_owned())
    } else if text::same(name, "ArtifactRead") {
        Some(artifact_path(c.str("id").as_str()))
    } else if text::same(name, "Peers") {
        Some("/mesh/peers".to_owned())
    } else if text::same(name, "Stats") {
        Some("/stats".to_owned())
    } else {
        None
    }
}

/// What came of a read.
#[derive(Debug)]
pub enum Fetched<T> {
    Answer(T),
    /// The node answered with something that cannot be read.
    Unreadable(String),
    Unreachable(String),
}

/// A read that is answered with a list.
pub open spec fn is_list_query(name: Seq<char>) -> bool {
    name == "ArtifactList"@ || name == "Stats"@
}

/// What a model gets back for a read that is answered with a list.
pub open spec fn listed(
    name: Seq<char>,
    roster: Seq<(Seq<char>, Seq<u8>)>,
    got: Fetched<Vec<Json>>,
) -> Option<Outcome> {
    if !is_list_query(name) {
        None
    } else {
        Some(
            match got {
                Fetched::Unreadable(why) => failed_answer(""@, true, why@),
                Fetched::Unreachable(why) => failed_answer(""@, false, why@),
                Fetched::Answer(rows) => if name == "ArtifactList"@ {
                    artifacts_answer(rows@, roster)
                } else {
                    stats_answer(rows@, roster)
                },
            },
        )
    }
}

/// What a model gets back for a read that is answered with one value.
pub open spec fn queried(
    c: Call,
    me: Seq<char>,
    roster: Seq<(Seq<char>, Seq<u8>)>,
    got: Fetched<Json>,
) -> Option<Outcome> {
    let id = if c.name@ == "ArtifactRead"@ {
        json::words_at(c.args, "id"@)
    } else {
        ""@
    };
    if !is_query(c.name@) || is_list_query(c.name@) {
        None
    } else {
        Some(
            match got {
                Fetched::Unreadable(why) => failed_answer(id, true, why@),
                Fetched::Unreachable(why) => failed_answer(id, false, why@),
                Fetched::Answer(v) => if c.name@ == "ArtifactRead"@ {
                    artifact_answer(id, v)
                } else {
                    peers_answer(me, roster, v)
                },
            },
        )
    }
}

pub open spec fn outcome_view(o: Option<ToolOut>) -> Option<Outcome> {
    match o {
        Some(t) => Some(t@),
        None => None,
    }
}

/// Whether a call is a read that is answered with a list.
pub fn is_listed(c: &Call) -> (r: bool)
    ensures
        r == is_list_query(c.name@),
{
    text::same(c.name.as_str(), "ArtifactList") || text::same(c.name.as_str(), "Stats")
}

/// What a model gets back for a read that is answered with a list; nothing for
/// any other call.
pub fn query_list(c: &Call, roster: &Roster, got: &Fetched<Vec<Json>>) -> (r: Option<ToolOut>)
    ensures
        outcome_view(r) == listed(c.name@, roster@, *got),
{
    if !is_listed(c) {
        return None;
    }
    let artifacts = text::same(c.name.as_str(), "ArtifactList");
    Some(
        match got {
            Fetched::Unreadable(why) => query_failed("", true, why.as_str()),
            Fetched::Unreachable(why) => query_failed("", false, why.as_str()),
            Fetched::Answer(rows) => if artifacts {
                artifact_list(rows, roster)
            } else {
                stats_report(rows, roster)
            },
        },
    )
}

/// What a model gets back for a read that is answered with one value; nothing
/// for any other call.
pub fn query(c: &Call, me: &str, roster: &Roster, got: &Fetched<Json>) -> (r: Option<ToolOut>)
    ensures
        outcome_view(r) == queried(*c, me@, roster@, *got),
{
    let name = c.name.as_str();
    let one = text::same(name, "ArtifactRead");
    proof {
        reveal_strlit("ArtifactList");
        reveal_strlit("ArtifactRead");
        reveal_strlit("Peers");
        reveal_strlit("Stats");
        assert("ArtifactList"@[8] != "ArtifactRead"@[8]);
        assert("Peers"@[0] != "Stats"@[0] && "Peers"@.len() == 5 && "Stats"@.len() == 5);
    }
    if !one && !text::same(name, "Peers") {
        return None;
    }
    let id = if one {
        c.str("id")
    } else {
        "".to_owned()
    };
    Some(
        match got {
            Fetched::Unreadable(why) => query_failed(id.as_str(), true, why.as_str()),
            Fetched::Unreachable(why) => query_failed(id.as_str(), false, why.as_str()),
            Fetched::Answer(v) => if one {
                artifact_read(id.as_str(), v)
            } else {
                peers_report(me, roster, v)
            },
        },
    )
}

/// Which way a tool call goes.
#[derive(Clone, Copy, Debug, PartialEq, Eq, Structural)]
pub enum Dispatch {
    /// A read that the node answers.
    Query,
    /// A chain write: signed, submitted, shown, never fed back.
    Record,
    /// Not the cat's own.
    Unknown,
}

pub open spec fn is_query(name: Seq<char>) -> bool {
    name == "ArtifactList"@ || name == "ArtifactRead"@ || name == "Peers"@ || name == "Stats"@
}

pub open spec fn is_record(name: Seq<char>) -> bool {
    name == "TaskPlan"@ || name == "TaskUpdate"@ || name == "TaskReassign"@ || name
        == "SendMessage"@ || name == "Artifact"@ || name == "RequestCompaction"@
}

/// Which way a tool call goes.
pub fn dispatch(name: &str) -> (r: Dispatch)
    ensures
        r == (if is_query(name@) {
            Dispatch::Query
        } else if is_record(name@) {
            Dispatch::Record
        } else {
            Dispatch::Unknown
        }),
{
    if text::same(name, "ArtifactList") || text::same(name, "ArtifactRead") || text::same(
        name,
        "Peers",
    ) || text::same(name, "Stats") {
        Dispatch::Query
    } else if text::same(name, "TaskPlan") || text::same(name, "TaskUpdate") || text::same(
        name,
        "TaskReassign",
    ) || text::same(name, "SendMessage") || text::same(name, "Artifact") || text::same(
        name,
        "RequestCompaction",
    ) {
        Dispatch::Record
    } else {
        Dispatch::Unknown
    }
}

/// What a holder says of its task.
#[derive(Clone, Copy, Debug, PartialEq, Eq, Structural)]
pub enum Act {
    Claim,
    Done,
    Failed,
    Clear,
    Reopen,
    Artifact,
}

/// One part of a plan.
#[derive(Debug)]
pub struct PlanItem {
    pub who: Account,
    pub what: String,
    pub expect: String,
}

/// A chain write.
#[derive(Debug)]
pub enum ChainCall {
    Plan { parent: TaskId, assignments: Vec<PlanItem> },
    Update { task: TaskId, act: Act, text: String },
    Reassign { task: TaskId, cat: Account },
    Say { to: Option<Account>, body: String, no_ack: bool, off_record: bool },
    PublishArtifact { text: String },
    RequestCompaction,
}

pub struct ItemView {
    pub who: Seq<u8>,
    pub what: Seq<char>,
    pub expect: Seq<char>,
}

pub enum ChainView {
    Plan { parent: TaskId, assignments: Seq<ItemView> },
    Update { task: TaskId, act: Act, text: Seq<char> },
    Reassign { task: TaskId, cat: Seq<u8> },
    Say { to: Option<Seq<u8>>, body: Seq<char>, no_ack: bool, off_record: bool },
    PublishArtifact { text: Seq<char> },
    RequestCompaction,
}

impl View for PlanItem {
    type V = ItemView;

    open spec fn view(&self) -> ItemView {
        ItemView { who: self.who@, what: self.what@, expect: self.expect@ }
    }
}

pub open spec fn item_views(v: Seq<PlanItem>) -> Seq<ItemView> {
    Seq::new(v.len(), |i: int| v[i]@)
}

impl View for ChainCall {
    type V = ChainView;

    open spec fn view(&self) -> ChainView {
        match *self {
            ChainCall::Plan { parent, assignments } => ChainView::Plan {
                parent,
                assignments: item_views(assignments@),
            },
            ChainCall::Update { task, act, text } => ChainView::Update { task, act, text: text@ },
            ChainCall::Reassign { task, cat } => ChainView::Reassign { task, cat: cat@ },
            ChainCall::Say { to, body, no_ack, off_record } => ChainView::Say {
                to: keys::account_view(to),
                body: body@,
                no_ack,
                off_record,
            },
            ChainCall::PublishArtifact { text } => ChainView::PublishArtifact { text: text@ },
            ChainCall::RequestCompaction => ChainView::RequestCompaction,
        }
    }
}

/// The act a status names.
pub open spec fn act_named(status: Seq<char>) -> Option<Act> {
    if status == "claim"@ {
        Some(Act::Claim)
    } else if status == "done"@ {
        Some(Act::Done)
    } else if status == "failed"@ {
        Some(Act::Failed)
    } else if status == "clear"@ {
        Some(Act::Clear)
    } else if status == "reopen"@ {
        Some(Act::Reopen)
    } else if status == "artifact"@ {
        Some(Act::Artifact)
    } else {
        None
    }
}

fn act_of(status: &str) -> (r: Option<Act>)
    ensures
        r == act_named(status@),
{
    if text::same(status, "claim") {
        Some(Act::Claim)
    } else if text::same(status, "done") {
        Some(Act::Done)
    } else if text::same(status, "failed") {
        Some(Act::Failed)
    } else if text::same(status, "clear") {
        Some(Act::Clear)
    } else if text::same(status, "reopen") {
        Some(Act::Reopen)
    } else if text::same(status, "artifact") {
        Some(Act::Artifact)
    } else {
        None
    }
}

/// One assignment, where it names a cat of the roster and what is asked of it.
pub open spec fn assignment(it: Json, roster: Seq<(Seq<char>, Seq<u8>)>) -> Option<ItemView> {
    match (json::text_at(it, "who"@), json::text_at(it, "what"@)) {
        (Some(who), Some(what)) => match common::account_named(roster, common::tag_name(who)) {
            Some(a) => Some(ItemView { who: a, what, expect: ""@ }),
            None => None,
        },
        _ => None,
    }
}

pub open spec fn assignments(items: Seq<Json>, roster: Seq<(Seq<char>, Seq<u8>)>) -> Seq<ItemView>
    decreases items.len(),
{
    if items.len() == 0 {
        seq![]
    } else {
        let before = assignments(items.drop_last(), roster);
        match assignment(items.last(), roster) {
            Some(it) => before.push(it),
            None => before,
        }
    }
}

/// A call whose refusal is known before anything is signed.
pub open spec fn refused_as(arg: Seq<char>, why: Seq<char>) -> Result<
    (ChainView, Seq<char>),
    Outcome,
> {
    Err(tool_out::with_meta(tool_out::bare(arg, false), why))
}

/// Everyone at once: `@all`, `@cats`, `@litter`.
pub open spec fn is_everyone(to: Seq<char>) -> bool {
    let n = text::lowered(text::without_leading(to, '@'));
    n == "all"@ || n == "cats"@ || n == "litter"@
}

pub open spec fn flags_text(no_ack: bool, off_record: bool) -> Seq<char> {
    if no_ack && off_record {
        "  (no_ack, off record)"@
    } else if no_ack {
        "  (no_ack)"@
    } else if off_record {
        "  (off record)"@
    } else {
        ""@
    }
}

/// The message a call sends: to everyone, to one cat of the roster, or to
/// nobody where the name is not on it.
pub open spec fn message_of(args: Json, roster: Seq<(Seq<char>, Seq<u8>)>) -> Result<
    (ChainView, Seq<char>),
    Outcome,
> {
    let body = json::words_at(args, "body"@);
    let raw = text::trimmed(json::words_at(args, "to"@));
    let no_ack = json::flag_at(args, "no_ack"@);
    let off_record = json::flag_at(args, "off_record"@);
    let flags = flags_text(no_ack, off_record);
    if raw.len() == 0 || is_everyone(raw) {
        Ok(
            (
                ChainView::Say { to: None, body, no_ack, off_record },
                "→ litter  "@ + body + flags,
            ),
        )
    } else {
        match common::account_named(roster, common::tag_name(raw)) {
            Some(a) => Ok(
                (
                    ChainView::Say { to: Some(a), body, no_ack, off_record },
                    "→ "@ + text::without_leading(raw, '@') + "  "@ + body + flags,
                ),
            ),
            None => refused_as("→ "@ + raw + "  "@ + body, "no such cat — not sent"@),
        }
    }
}

/// The chain write that a tool call makes and how it is shown, or why it makes
/// none.
pub open spec fn recorded(
    name: Seq<char>,
    args: Json,
    roster: Seq<(Seq<char>, Seq<u8>)>,
) -> Result<(ChainView, Seq<char>), Outcome> {
    let task = json::words_at(args, "task"@);
    let text = json::words_at(args, "text"@);
    let status = json::words_at(args, "status"@);
    let to = json::words_at(args, "to"@);
    if name == "TaskPlan"@ {
        let plan = assignments(json::items_at(args, "assignments"@), roster);
        match common::task_in(task) {
            Some(parent) => Ok(
                (
                    ChainView::Plan { parent, assignments: plan },
                    task + " → "@ + text::dec(plan.len()) + " sub-tasks"@,
                ),
            ),
            None => refused_as(task, "bad task id"@),
        }
    } else if name == "TaskUpdate"@ {
        let arg = task + " "@ + status + "  "@ + text;
        match common::task_in(task) {
            Some(id) => match act_named(status) {
                Some(act) => Ok((ChainView::Update { task: id, act, text }, arg)),
                None => refused_as(arg, "unknown status"@),
            },
            None => refused_as(arg, "bad task id"@),
        }
    } else if name == "TaskReassign"@ {
        let arg = task + " → "@ + to;
        match common::account_named(roster, common::tag_name(to)) {
            Some(a) => match common::task_in(task) {
                Some(id) => Ok((ChainView::Reassign { task: id, cat: a }, arg)),
                None => refused_as(arg, "bad task id"@),
            },
            None => refused_as(arg, "no such cat"@),
        }
    } else if name == "SendMessage"@ {
        message_of(args, roster)
    } else if name == "Artifact"@ {
        Ok(
            (
                ChainView::PublishArtifact { text },
                crate::turns::first_line(text) + "  ("@ + figures::byte_text(
                    text::size(text) as nat,
                ) + ")"@,
            ),
        )
    } else if name == "RequestCompaction"@ {
        Ok((ChainView::RequestCompaction, ""@))
    } else {
        refused_as(""@, name + ": not a chain write"@)
    }
}

pub open spec fn record_view(r: Result<(ChainCall, String), ToolOut>) -> Result<
    (ChainView, Seq<char>),
    Outcome,
> {
    match r {
        Ok((c, arg)) => Ok((c@, arg@)),
        Err(out) => Err(out@),
    }
}

fn refuse(arg: &str, why: &str) -> (r: Result<(ChainCall, String), ToolOut>)
    ensures
        record_view(r) == refused_as(arg@, why@),
{
    Err(ToolOut::new(arg, false).meta(why))
}

fn assignment_of(it: &Json, roster: &Roster) -> (r: Option<PlanItem>)
    ensures
        match r {
            Some(p) => assignment(*it, roster@) == Some(p@),
            None => assignment(*it, roster@) is None,
        },
{
    match (it.text("who"), it.text("what")) {
        (Some(who), Some(what)) => match roster.account(who.as_str()) {
            Some(a) => Some(PlanItem { who: a, what, expect: "".to_owned() }),
            None => None,
        },
        _ => None,
    }
}

fn assignments_of(items: &Vec<Json>, roster: &Roster) -> (out: Vec<PlanItem>)
    ensures
        item_views(out@) == assignments(items@, roster@),
{
    let mut out: Vec<PlanItem> = Vec::new();
    let mut i: usize = 0;
    assert(items@.take(0) =~= Seq::<Json>::empty());
    assert(item_views(out@) =~= Seq::<ItemView>::empty());
    while i < items.len()
        invariant
            i <= items.len(),
            item_views(out@) == assignments(items@.take(i as int), roster@),
        decreases items.len() - i,
    {
        assert(items@.take(i + 1).drop_last() =~= items@.take(i as int));
        let ghost was = item_views(out@);
        match assignment_of(&items[i], roster) {
            Some(p) => {
                let ghost one = p@;
                out.push(p);
                assert(item_views(out@) =~= was.push(one));
            },
            None => {},
        }
        i = i + 1;
    }
    assert(items@.take(i as int) =~= items@);
    out
}

fn flags_of(no_ack: bool, off_record: bool) -> (r: &'static str)
    ensures
        r@ == flags_text(no_ack, off_record),
{
    if no_ack && off_record {
        "  (no_ack, off record)"
    } else if no_ack {
        "  (no_ack)"
    } else if off_record {
        "  (off record)"
    } else {
        ""
    }
}

fn everyone(to: &str) -> (r: bool)
    ensures
        r == is_everyone(to@),
{
    let n = text::to_lower(text::trim_leading(to, '@').as_str());
    text::same(n.as_str(), "all") || text::same(n.as_str(), "cats") || text::same(
        n.as_str(),
        "litter",
    )
}

fn message_for(args: &Json, roster: &Roster) -> (r: Result<(ChainCall, String), ToolOut>)
    ensures
        record_view(r) == message_of(*args, roster@),
{
    let body = args.words("body");
    let raw = text::trim(args.words("to").as_str());
    let no_ack = args.flag("no_ack");
    let off_record = args.flag("off_record");
    let flags = flags_of(no_ack, off_record);
    if raw.as_str().is_empty() || everyone(raw.as_str()) {
        let arg = String::from_str("→ litter  ").concat(body.as_str()).concat(flags);
        return Ok((ChainCall::Say { to: None, body, no_ack, off_record }, arg));
    }
    match roster.account(raw.as_str()) {
        Some(a) => {
            let arg = String::from_str("→ ").concat(
                text::trim_leading(raw.as_str(), '@').as_str(),
            ).concat("  ").concat(body.as_str()).concat(flags);
            Ok((ChainCall::Say { to: Some(a), body, no_ack, off_record }, arg))
        },
        None => {
            let arg = String::from_str("→ ").concat(raw.as_str()).concat("  ").concat(
                body.as_str(),
            );
            refuse(arg.as_str(), "no such cat — not sent")
        },
    }
}

/// The chain write that a tool call makes and how it is shown, or the refusal.
/// A name that is not on the roster sends nothing: broadcasting a misspelled
/// name would put words in front of the wrong audience.
pub fn record(c: &Call, roster: &Roster) -> (r: Result<(ChainCall, String), ToolOut>)
    ensures
        record_view(r) == recorded(c.name@, c.args, roster@),
{
    let name = c.name.as_str();
    let task = c.str("task");
    if text::same(name, "TaskPlan") {
        let plan = match c.args.items("assignments") {
            Some(items) => assignments_of(items, roster),
            None => {
                let none: Vec<PlanItem> = Vec::new();
                assert(item_views(none@) =~= assignments(Seq::<Json>::empty(), roster@));
                none
            },
        };
        return match common::parse_task(task.as_str()) {
            Some(parent) => {
                assert(plan@.len() == item_views(plan@).len());
                let arg = task.concat(" → ").concat(
                    text::number(plan.len() as u64).as_str(),
                ).concat(" sub-tasks");
                Ok((ChainCall::Plan { parent, assignments: plan }, arg))
            },
            None => refuse(task.as_str(), "bad task id"),
        };
    }
    if text::same(name, "TaskUpdate") {
        let status = c.str("status");
        let text = c.str("text");
        let arg = task.clone().concat(" ").concat(status.as_str()).concat("  ").concat(
            text.as_str(),
        );
        return match common::parse_task(task.as_str()) {
            Some(id) => match act_of(status.as_str()) {
                Some(act) => Ok((ChainCall::Update { task: id, act, text }, arg)),
                None => refuse(arg.as_str(), "unknown status"),
            },
            None => refuse(arg.as_str(), "bad task id"),
        };
    }
    if text::same(name, "TaskReassign") {
        let to = c.str("to");
        let arg = task.clone().concat(" → ").concat(to.as_str());
        return match roster.account(to.as_str()) {
            Some(a) => match common::parse_task(task.as_str()) {
                Some(id) => Ok((ChainCall::Reassign { task: id, cat: a }, arg)),
                None => refuse(arg.as_str(), "bad task id"),
            },
            None => refuse(arg.as_str(), "no such cat"),
        };
    }
    if text::same(name, "SendMessage") {
        return message_for(&c.args, roster);
    }
    if text::same(name, "Artifact") {
        let text = c.str("text");
        let title = crate::turns::first_line_of(text.as_str());
        let size = figures::bytes(text.as_str().len() as u64);
        let arg = title.concat("  (").concat(size.as_str()).concat(")");
        return Ok((ChainCall::PublishArtifact { text }, arg));
    }
    if text::same(name, "RequestCompaction") {
        return Ok((ChainCall::RequestCompaction, "".to_owned()));
    }
    refuse("", name.to_owned().concat(": not a chain write").as_str())
}

/// What came of a submitted write.
pub fn submitted(arg: &str, res: &Result<(), String>) -> (r: ToolOut)
    ensures
        r@ == match *res {
            Ok(_) => tool_out::with_meta(tool_out::bare(arg@, true), "submitted"@),
            Err(why) => tool_out::with_meta(tool_out::bare(arg@, false), why@),
        },
{
    match res {
        Ok(_) => ToolOut::new(arg, true).meta("submitted"),
        Err(why) => ToolOut::new(arg, false).meta(why.as_str()),
    }
}

/// No message goes to everyone that was meant for one: a name that is neither
/// on the roster nor one of the words for everyone sends nothing.
pub proof fn a_misspelled_name_sends_nothing(args: Json, roster: Seq<(Seq<char>, Seq<u8>)>)
    requires
        text::trimmed(json::words_at(args, "to"@)).len() > 0,
        !is_everyone(text::trimmed(json::words_at(args, "to"@))),
        common::account_named(
            roster,
            common::tag_name(text::trimmed(json::words_at(args, "to"@))),
        ) is None,
    ensures
        recorded("SendMessage"@, args, roster) is Err,
{
    reveal_strlit("SendMessage");
    reveal_strlit("TaskPlan");
    reveal_strlit("TaskUpdate");
    reveal_strlit("TaskReassign");
    assert("SendMessage"@.len() == 11);
    assert("SendMessage"@[0] == 'S');
    assert("TaskPlan"@[0] == 'T');
    assert("TaskUpdate"@[0] == 'T');
    assert("TaskReassign"@[0] == 'T');
}

// ---------------------------------------------------------------------
// Words without a tool call
// ---------------------------------------------------------------------

/// What becomes of a reply that called no tool.
#[derive(Debug)]
pub enum Spoken {
    /// Nothing is sent; the note says so.
    Note(String),
    /// It goes back to whoever spoke, and wants no answer.
    Send { call: ChainCall, arg: String },
}

pub enum SpokenView {
    Note(Seq<char>),
    Send { call: ChainView, arg: Seq<char> },
}

impl View for Spoken {
    type V = SpokenView;

    open spec fn view(&self) -> SpokenView {
        match *self {
            Spoken::Note(s) => SpokenView::Note(s@),
            Spoken::Send { call, arg } => SpokenView::Send { call: call@, arg: arg@ },
        }
    }
}

/// Spoken to, a cat always answers: its plain words go back to whoever spoke,
/// wanting no answer and off the record where the question was. Not where
/// silence was asked for.
pub open spec fn spoken(
    said: Seq<char>,
    ctx: Json,
    roster: Seq<(Seq<char>, Seq<u8>)>,
) -> SpokenView {
    if json::text_at(ctx, "t"@) != Some("said"@) || json::flag_at(ctx, "no_ack"@) {
        SpokenView::Note(
            "plain text, no tool call — not sent: "@ + crate::turns::first_line(said),
        )
    } else {
        SpokenView::Send {
            call: ChainView::Say {
                to: match json::text_at(ctx, "from"@) {
                    Some(h) => keys::account_in(h),
                    None => None,
                },
                body: said,
                no_ack: true,
                off_record: json::flag_at(ctx, "off_record"@),
            },
            arg: "→ "@ + named_or(json::text_at(ctx, "from"@), roster, "litter"@) + "  "@ + said
                + "  (auto, no_ack)"@,
        }
    }
}

/// What becomes of a reply that called no tool.
pub fn spoke(said: &str, ctx: &Json, roster: &Roster) -> (r: Spoken)
    ensures
        r@ == spoken(said@, *ctx, roster@),
{
    let is_said = match ctx.text("t") {
        Some(t) => text::same(t.as_str(), "said"),
        None => false,
    };
    if !is_said || ctx.flag("no_ack") {
        return Spoken::Note(
            String::from_str("plain text, no tool call — not sent: ").concat(
                crate::turns::first_line_of(said).as_str(),
            ),
        );
    }
    let to = match ctx.text("from") {
        Some(h) => keys::from_hex(h.as_str()),
        None => None,
    };
    let who = name_at(ctx, "from", roster, "litter");
    let arg = String::from_str("→ ").concat(who.as_str()).concat("  ").concat(said).concat(
        "  (auto, no_ack)",
    );
    let call = ChainCall::Say {
        to,
        body: said.to_owned(),
        no_ack: true,
        off_record: ctx.flag("off_record"),
    };
    Spoken::Send { call, arg }
}

/// A reply that a model gave without calling a tool asks for no answer in turn,
/// so two cats never go on thanking each other; and it is off the record where
/// what it answers is.
pub proof fn a_stand_in_wants_no_answer(
    said: Seq<char>,
    ctx: Json,
    roster: Seq<(Seq<char>, Seq<u8>)>,
)
    ensures
        spoken(said, ctx, roster) matches SpokenView::Send { call, arg } ==> call matches ChainView::Say {
            to,
            body,
            no_ack,
            off_record,
        } && no_ack && off_record == json::flag_at(ctx, "off_record"@) && body == said,
        json::flag_at(ctx, "no_ack"@) ==> spoken(said, ctx, roster) is Note,
{
}

// ---------------------------------------------------------------------
// Work stats
// ---------------------------------------------------------------------

/// A cat's own cumulative work stats.
#[derive(Clone, Copy, Debug, Default, PartialEq, Eq, Structural)]
pub struct CatStats {
    pub turns: u32,
    /// `SendMessage` not included: that is `messages`.
    pub tool_calls: u32,
    pub messages: u32,
    pub tokens: u64,
    pub ms: u64,
}

impl CatStats {
    /// One more turn. Whole cumulative totals are reported each time, so a
    /// dropped report is corrected by the next one.
    pub fn after_turn(&mut self, cost: &TurnCost)
        requires
            old(self).turns < u32::MAX,
            old(self).tool_calls + cost.tools <= u32::MAX,
            old(self).messages + cost.messages <= u32::MAX,
            old(self).tokens + cost.total <= u64::MAX,
            old(self).ms + cost.ms <= u64::MAX,
        ensures
            *final(self) == (CatStats {
                turns: (old(self).turns + 1) as u32,
                tool_calls: (old(self).tool_calls + cost.tools) as u32,
                messages: (old(self).messages + cost.messages) as u32,
                tokens: (old(self).tokens + cost.total) as u64,
                ms: (old(self).ms + cost.ms) as u64,
            }),
    {
        self.turns = self.turns + 1;
        self.tool_calls = self.tool_calls + cost.tools as u32;
        self.messages = self.messages + cost.messages as u32;
        self.tokens = self.tokens + cost.total as u64;
        self.ms = self.ms + cost.ms;
    }

    /// One more message, sent on the model's behalf.
    pub fn count_message(&mut self)
        requires
            old(self).messages < u32::MAX,
        ensures
            *final(self) == (CatStats { messages: (old(self).messages + 1) as u32, ..*old(self) }),
    {
        self.messages = self.messages + 1;
    }
}

// ---------------------------------------------------------------------
// Submitting
// ---------------------------------------------------------------------

/// How often a write is tried.
pub const ATTEMPTS: u32 = 4;

/// The next number of this cat's own writes: it is the only signer for its
/// account, so it is the authority on it.
#[derive(Clone, Copy, Debug, Default, PartialEq, Eq, Structural)]
pub struct Nonce(pub Option<u32>);

/// The number for one more write: the one that is known, or `fetched` from the
/// chain.
pub open spec fn number_of(n: Nonce, fetched: u32) -> u32 {
    match n.0 {
        Some(n) => n,
        None => fetched,
    }
}

/// Once a number was taken, the next one is known.
pub open spec fn after_taking(n: Nonce, fetched: u32) -> Nonce {
    Nonce(Some((number_of(n, fetched) + 1) as u32))
}

/// Two writes never carry the same number, whatever the chain would have said
/// in between: the second carries the next one.
pub proof fn numbers_never_repeat(n: Nonce, first: u32, second: u32)
    requires
        number_of(n, first) < u32::MAX,
    ensures
        number_of(after_taking(n, first), second) == number_of(n, first) + 1,
{
}

impl Nonce {
    /// The number for one more write: the one that is known, or `fetched` from
    /// the chain.
    pub fn take(&mut self, fetched: u32) -> (n: u32)
        requires
            number_of(*old(self), fetched) < u32::MAX,
        ensures
            n == number_of(*old(self), fetched),
            *final(self) == after_taking(*old(self), fetched),
    {
        let n: u32 = match self.0 {
            Some(n) => n,
            None => fetched,
        };
        self.0 = Some(n + 1);
        n
    }

    /// Read it from the chain again next time.
    pub fn forget(&mut self)
        ensures
            final(self).0 is None,
    {
        self.0 = None;
    }
}

/// What one attempt came to.
#[derive(Debug)]
pub enum Heard {
    /// The chain's constants could not be read.
    NoMeta,
    Accepted,
    /// The node's answer to a write it did not take.
    Refused(Json),
    Unreachable(String),
}

/// What follows an attempt.
#[derive(Debug)]
pub enum Then {
    Sent,
    /// It would fail the same way every time.
    Refused(String),
    /// Try once more, after a wait.
    Again { wait_ms: u64, note: String },
    GaveUp(String),
}

pub enum ThenView {
    Sent,
    Refused(Seq<char>),
    Again { wait_ms: u64, note: Seq<char> },
    GaveUp(Seq<char>),
}

impl View for Then {
    type V = ThenView;

    open spec fn view(&self) -> ThenView {
        match *self {
            Then::Sent => ThenView::Sent,
            Then::Refused(s) => ThenView::Refused(s@),
            Then::Again { wait_ms, note } => ThenView::Again { wait_ms, note: note@ },
            Then::GaveUp(s) => ThenView::GaveUp(s@),
        }
    }
}

/// The wait before the attempt after the `attempt`th.
pub open spec fn backoff(attempt: u32) -> u64 {
    if attempt == 0 {
        1000
    } else if attempt == 1 {
        2000
    } else {
        4000
    }
}

/// Why a node refused a write.
pub open spec fn refusal_text(e: Json) -> Seq<char> {
    match json::at(e, "error"@) {
        Some(v) => json::printed(v),
        None => json::printed(e),
    }
}

/// A refusal that may not be repeated: the number of the write was out of step.
pub open spec fn out_of_step(msg: Seq<char>) -> bool {
    text::has(msg, "Stale"@) || text::has(msg, "Future"@)
}

/// A failure that may pass: tried again, until there were enough attempts.
pub open spec fn try_again(name: Seq<char>, attempt: u32, last: Seq<char>) -> ThenView {
    if attempt + 1 < ATTEMPTS {
        ThenView::Again {
            wait_ms: backoff(attempt),
            note: name + ": retrying submit (attempt "@ + text::dec((attempt + 2) as nat)
                + "/4) — "@ + last,
        }
    } else {
        ThenView::GaveUp("gave up after 4 attempts — "@ + last)
    }
}

/// What follows the `attempt`th attempt, counted from 0.
pub open spec fn follows(name: Seq<char>, attempt: u32, heard: Heard) -> ThenView {
    match heard {
        Heard::NoMeta => try_again(name, attempt, "node unreachable (meta)"@),
        Heard::Accepted => ThenView::Sent,
        Heard::Refused(e) => if out_of_step(refusal_text(e)) {
            try_again(name, attempt, "refused: "@ + refusal_text(e))
        } else {
            ThenView::Refused("refused: "@ + refusal_text(e))
        },
        Heard::Unreachable(why) => try_again(name, attempt, "node unreachable: "@ + why@),
    }
}

fn again(name: &str, attempt: u32, last: &str) -> (r: Then)
    requires
        attempt < ATTEMPTS,
    ensures
        r@ == try_again(name@, attempt, last@),
{
    if attempt + 1 < ATTEMPTS {
        let wait_ms: u64 = if attempt == 0 {
            1000
        } else if attempt == 1 {
            2000
        } else {
            4000
        };
        let note = name.to_owned().concat(": retrying submit (attempt ").concat(
            text::number((attempt + 2) as u64).as_str(),
        ).concat("/4) — ").concat(last);
        Then::Again { wait_ms, note }
    } else {
        Then::GaveUp(String::from_str("gave up after 4 attempts — ").concat(last))
    }
}

/// What follows an attempt. A node that cannot be reached or a number out of
/// step may succeed next time; any other refusal will not. After a failed post
/// the number of the next write is read from the chain again.
pub fn submit_step(name: &str, attempt: u32, heard: &Heard, nonce: &mut Nonce) -> (r: Then)
    requires
        attempt < ATTEMPTS,
    ensures
        r@ == follows(name@, attempt, *heard),
        *final(nonce) == (if heard is Refused || heard is Unreachable {
            Nonce(None)
        } else {
            *old(nonce)
        }),
{
    match heard {
        Heard::NoMeta => again(name, attempt, "node unreachable (meta)"),
        Heard::Accepted => Then::Sent,
        Heard::Refused(e) => {
            nonce.forget();
            let msg = match e.get("error") {
                Some(v) => v.print(),
                None => e.print(),
            };
            let why = String::from_str("refused: ").concat(msg.as_str());
            if text::contains(msg.as_str(), "Stale") || text::contains(msg.as_str(), "Future") {
                again(name, attempt, why.as_str())
            } else {
                Then::Refused(why)
            }
        },
        Heard::Unreachable(why) => {
            nonce.forget();
            let last = String::from_str("node unreachable: ").concat(why.as_str());
            again(name, attempt, last.as_str())
        },
    }
}

/// A write is tried no more than so often: no attempt follows the last one.
pub proof fn attempts_are_bounded(name: Seq<char>, heard: Heard)
    ensures
        !(follows(name, (ATTEMPTS - 1) as u32, heard) is Again),
{
}

// ---------------------------------------------------------------------
// Watching the chain
// ---------------------------------------------------------------------

/// A cat's memory of the chain across a restart: the checkpoint it belongs to,
/// how far it has read, and what the litter is working on.
#[derive(Debug)]
pub struct Session {
    pub epoch: u64,
    pub cursor: u64,
    pub question: String,
}

pub struct SessionView {
    pub epoch: u64,
    pub cursor: u64,
    pub question: Seq<char>,
}

impl View for Session {
    type V = SessionView;

    open spec fn view(&self) -> SessionView {
        SessionView { epoch: self.epoch, cursor: self.cursor, question: self.question@ }
    }
}

/// The session to go on with: the saved one where it belongs to this
/// checkpoint, a fresh one where it does not.
pub open spec fn resumed(saved: Option<Session>, epoch: u64) -> SessionView {
    match saved {
        Some(s) => if s.epoch == epoch {
            s@
        } else {
            SessionView { epoch, cursor: 0, question: ""@ }
        },
        None => SessionView { epoch, cursor: 0, question: ""@ },
    }
}

impl Session {
    /// The session to go on with: a stale one starts fresh rather than resume
    /// against events the log may no longer hold.
    pub fn load(saved: Option<Session>, epoch: u64) -> (r: Session)
        ensures
            r@ == resumed(saved, epoch),
    {
        match saved {
            Some(s) => if s.epoch == epoch {
                s
            } else {
                Session { epoch, cursor: 0, question: "".to_owned() }
            },
            None => Session { epoch, cursor: 0, question: "".to_owned() },
        }
    }
}

/// One event of a node's log, and whom it wakes.
#[derive(Debug)]
pub struct Entry {
    pub seq: u64,
    pub block: u64,
    pub effect: Json,
    pub wakes: Option<String>,
}

pub open spec fn places(v: Seq<Entry>) -> Seq<(u64, u64)> {
    Seq::new(v.len(), |i: int| (v[i].seq, v[i].block))
}

/// The entries among the first `n` that are new to a reader.
pub open spec fn fresh(c: EventCursor, v: Seq<Entry>, n: nat) -> Seq<int>
    decreases n,
{
    if n == 0 {
        seq![]
    } else {
        let before = fresh(c, v, (n - 1) as nat);
        if common::is_new(c, places(v), (n - 1) as nat) {
            before.push(n - 1)
        } else {
            before
        }
    }
}

/// What the litter is working on after an event: what root said sets it if
/// nothing else has, an opened task always does.
pub open spec fn subject(q: Seq<char>, eff: Json) -> Seq<char> {
    let t = json::text_at(eff, "t"@);
    let q1 = if t == Some("said"@) && json::flag_at(eff, "root"@) && q.len() == 0 {
        json::words_at(eff, "body"@)
    } else {
        q
    };
    if t == Some("opened"@) {
        json::words_at(eff, "text"@)
    } else {
        q1
    }
}

pub open spec fn subject_after(q: Seq<char>, v: Seq<Entry>, idx: Seq<int>) -> Seq<char>
    decreases idx.len(),
{
    if idx.len() == 0 {
        q
    } else {
        subject(subject_after(q, v, idx.drop_last()), v[idx.last()].effect)
    }
}

/// Whether an event wakes the cat with this account: one meant for it, or a
/// broadcast of another. A closing remark wakes no one.
pub open spec fn wakes_me(e: Entry, me: Seq<char>) -> bool {
    if json::text_at(e.effect, "t"@) == Some("said"@) && json::flag_at(e.effect, "no_ack"@) {
        false
    } else {
        match e.wakes {
            Some(w) => w@ == me || (w@ == "*"@ && json::text_at(e.effect, "from"@) != Some(me)),
            None => false,
        }
    }
}

/// What an event is about: the newest of each is enough, since a turn takes
/// minutes and the chain ticks in seconds.
pub open spec fn topic(e: Entry) -> (Seq<char>, Seq<char>) {
    (json::words_at(e.effect, "task"@), json::words_at(e.effect, "t"@))
}

/// Where in `kept` an entry on `t` stands.
pub open spec fn slot(v: Seq<Entry>, kept: Seq<int>, t: (Seq<char>, Seq<char>)) -> Option<nat>
    decreases kept.len(),
{
    if kept.len() == 0 {
        None
    } else {
        match slot(v, kept.drop_last(), t) {
            Some(i) => Some(i),
            None => if topic(v[kept.last()]) == t {
                Some((kept.len() - 1) as nat)
            } else {
                None
            },
        }
    }
}

/// One more waking entry: it takes the place of an older one on its topic.
pub open spec fn kept_with(v: Seq<Entry>, kept: Seq<int>, i: int) -> Seq<int> {
    match slot(v, kept, topic(v[i])) {
        Some(s) => if v[kept[s as int]].seq >= v[i].seq {
            kept
        } else {
            kept.update(s as int, i)
        },
        None => kept.push(i),
    }
}

/// The newest waking entry of each topic.
pub open spec fn newest(v: Seq<Entry>, idx: Seq<int>, me: Seq<char>) -> Seq<int>
    decreases idx.len(),
{
    if idx.len() == 0 {
        seq![]
    } else {
        let before = newest(v, idx.drop_last(), me);
        if wakes_me(v[idx.last()], me) {
            kept_with(v, before, idx.last())
        } else {
            before
        }
    }
}

/// Where an entry goes among entries in the order of their numbers.
pub open spec fn place(v: Seq<Entry>, sorted: Seq<int>, seq: u64) -> nat
    decreases sorted.len(),
{
    if sorted.len() == 0 {
        0
    } else if v[sorted.last()].seq <= seq {
        sorted.len()
    } else {
        place(v, sorted.drop_last(), seq)
    }
}

/// Entries in the order of their numbers.
pub open spec fn in_order(v: Seq<Entry>, idx: Seq<int>) -> Seq<int>
    decreases idx.len(),
{
    if idx.len() == 0 {
        seq![]
    } else {
        let before = in_order(v, idx.drop_last());
        before.insert(place(v, before, v[idx.last()].seq) as int, idx.last())
    }
}

/// The entries whose number was not seen yet, each number once.
pub open spec fn unseen(v: Seq<Entry>, idx: Seq<int>, seen: Seq<u64>) -> (Seq<int>, Seq<u64>)
    decreases idx.len(),
{
    if idx.len() == 0 {
        (seq![], seen)
    } else {
        let (out, known) = unseen(v, idx.drop_last(), seen);
        let n = v[idx.last()].seq;
        if known.contains(n) {
            (out, known)
        } else {
            (out.push(idx.last()), known.push(n))
        }
    }
}

/// A cat's reading of its node's log.
#[derive(Debug)]
pub struct Watch {
    /// This cat's account, in hexadecimal.
    pub me: String,
    pub cursor: EventCursor,
    pub epoch: u64,
    /// What the litter is working on.
    pub question: String,
    /// The numbers that were handled since the log was last rebuilt.
    pub seen: Vec<u64>,
    /// What was last written down.
    pub saved_cursor: u64,
    pub saved_question: String,
}

/// What a new head brought.
#[derive(Debug)]
pub struct HeadNews {
    /// The node's log was rebuilt.
    pub rebuilt: bool,
    /// The session ended, and why.
    pub reset: Option<String>,
}

/// A wake as the model reads it: the prompt, and the block that it came in.
pub fn wake_text(block: u64, words: &str) -> (r: String)
    ensures
        r@ == "[block "@ + text::dec(block as nat) + "] "@ + words@,
{
    String::from_str("[block ").concat(text::number(block).as_str()).concat("] ").concat(words)
}

pub open spec fn reset_text(old_epoch: u64, checkpoint: Option<u64>) -> Option<Seq<char>> {
    match checkpoint {
        Some(ep) => if ep != old_epoch {
            Some(
                "chain checkpoint moved ("@ + text::dec(old_epoch as nat) + " -> "@ + text::dec(
                    ep as nat,
                ) + ")"@,
            )
        } else {
            None
        },
        None => None,
    }
}

pub open spec fn index_view(v: Seq<usize>) -> Seq<int> {
    Seq::new(v.len(), |i: int| v[i] as int)
}

/// Indices that stand in a list of `n` entries.
pub open spec fn within(v: Seq<usize>, n: nat) -> bool {
    forall|i: int| 0 <= i < v.len() ==> (#[trigger] v[i]) < n
}

fn slot_of(v: &Vec<Entry>, kept: &Vec<usize>, e: &Entry) -> (r: Option<usize>)
    requires
        within(kept@, v@.len()),
    ensures
        match r {
            Some(i) => i < kept@.len() && slot(v@, index_view(kept@), topic(*e)) == Some(i as nat),
            None => slot(v@, index_view(kept@), topic(*e)) is None,
        },
{
    let task = e.effect.words("task");
    let kind = e.effect.words("t");
    let ghost all = index_view(kept@);
    let mut i: usize = 0;
    assert(all.take(0) =~= Seq::<int>::empty());
    while i < kept.len()
        invariant
            i <= kept.len(),
            within(kept@, v@.len()),
            all == index_view(kept@),
            (task@, kind@) == topic(*e),
            slot(v@, all.take(i as int), topic(*e)) is None,
        decreases kept.len() - i,
    {
        assert(kept@[i as int] < v@.len());
        assert(all.take(i + 1).drop_last() =~= all.take(i as int));
        let o = &v[kept[i]];
        if text::same(o.effect.words("task").as_str(), task.as_str()) && text::same(
            o.effect.words("t").as_str(),
            kind.as_str(),
        ) {
            proof {
                lemma_slot_stays(v@, all, topic(*e), (i + 1) as nat);
            }
            return Some(i);
        }
        i = i + 1;
    }
    assert(all.take(i as int) =~= all);
    None
}

proof fn lemma_slot_stays(
    v: Seq<Entry>,
    kept: Seq<int>,
    t: (Seq<char>, Seq<char>),
    n: nat,
)
    requires
        n <= kept.len(),
        slot(v, kept.take(n as int), t) is Some,
    ensures
        slot(v, kept, t) == slot(v, kept.take(n as int), t),
    decreases kept.len() - n,
{
    if n < kept.len() {
        assert(kept.take(n as int + 1).drop_last() =~= kept.take(n as int));
        lemma_slot_stays(v, kept, t, n + 1);
    } else {
        assert(kept.take(n as int) =~= kept);
    }
}

pub(crate) fn wakes(e: &Entry, me: &str) -> (r: bool)
    ensures
        r == wakes_me(*e, me@),
{
    let said = match e.effect.text("t") {
        Some(t) => text::same(t.as_str(), "said"),
        None => false,
    };
    if said && e.effect.flag("no_ack") {
        return false;
    }
    match &e.wakes {
        Some(w) => {
            if text::same(w.as_str(), me) {
                return true;
            }
            if !text::same(w.as_str(), "*") {
                return false;
            }
            match e.effect.text("from") {
                Some(f) => !text::same(f.as_str(), me),
                None => true,
            }
        },
        None => false,
    }
}

fn newest_of(v: &Vec<Entry>, idx: &Vec<usize>, me: &str) -> (kept: Vec<usize>)
    requires
        within(idx@, v@.len()),
    ensures
        index_view(kept@) == newest(v@, index_view(idx@), me@),
        within(kept@, v@.len()),
{
    let ghost all = index_view(idx@);
    let mut kept: Vec<usize> = Vec::new();
    let mut i: usize = 0;
    assert(all.take(0) =~= Seq::<int>::empty());
    assert(index_view(kept@) =~= Seq::<int>::empty());
    while i < idx.len()
        invariant
            i <= idx.len(),
            within(idx@, v@.len()),
            within(kept@, v@.len()),
            all == index_view(idx@),
            index_view(kept@) == newest(v@, all.take(i as int), me@),
        decreases idx.len() - i,
    {
        let n: usize = idx[i];
        assert(idx@[i as int] < v@.len());
        assert(all.take(i + 1).drop_last() =~= all.take(i as int));
        assert(all.take(i + 1).last() == n);
        if wakes(&v[n], me) {
            let ghost was = index_view(kept@);
            match slot_of(v, &kept, &v[n]) {
                Some(s) => {
                    assert(kept@[s as int] < v@.len());
                    assert(was[s as int] == kept@[s as int]);
                    if v[kept[s]].seq < v[n].seq {
                        kept.set(s, n);
                        assert(index_view(kept@) =~= was.update(s as int, n as int));
                    }
                },
                None => {
                    kept.push(n);
                    assert(index_view(kept@) =~= was.push(n as int));
                },
            }
        }
        i = i + 1;
    }
    assert(all.take(i as int) =~= all);
    kept
}

fn place_of(v: &Vec<Entry>, sorted: &Vec<usize>, seq: u64) -> (r: usize)
    requires
        within(sorted@, v@.len()),
    ensures
        r == place(v@, index_view(sorted@), seq),
        r <= sorted@.len(),
{
    let ghost all = index_view(sorted@);
    let mut i: usize = sorted.len();
    assert(all.take(i as int) =~= all);
    while i > 0
        invariant
            i <= sorted.len(),
            within(sorted@, v@.len()),
            all == index_view(sorted@),
            place(v@, all, seq) == place(v@, all.take(i as int), seq),
        decreases i,
    {
        assert(sorted@[i - 1] < v@.len());
        assert(all.take(i as int).last() == sorted@[i - 1]);
        if v[sorted[i - 1]].seq <= seq {
            return i;
        }
        assert(all.take(i as int).drop_last() =~= all.take(i - 1));
        i = i - 1;
    }
    0
}

fn order(v: &Vec<Entry>, idx: &Vec<usize>) -> (out: Vec<usize>)
    requires
        within(idx@, v@.len()),
    ensures
        index_view(out@) == in_order(v@, index_view(idx@)),
        within(out@, v@.len()),
{
    let ghost all = index_view(idx@);
    let mut out: Vec<usize> = Vec::new();
    let mut i: usize = 0;
    assert(all.take(0) =~= Seq::<int>::empty());
    assert(index_view(out@) =~= Seq::<int>::empty());
    while i < idx.len()
        invariant
            i <= idx.len(),
            within(idx@, v@.len()),
            within(out@, v@.len()),
            all == index_view(idx@),
            index_view(out@) == in_order(v@, all.take(i as int)),
        decreases idx.len() - i,
    {
        let n: usize = idx[i];
        assert(idx@[i as int] < v@.len());
        assert(all.take(i + 1).drop_last() =~= all.take(i as int));
        assert(all.take(i + 1).last() == n);
        let ghost was = out@;
        let at: usize = place_of(v, &out, v[n].seq);
        out.insert(at, n);
        assert(index_view(out@) =~= index_view(was).insert(at as int, n as int));
        assert(within(out@, v@.len())) by {
            assert forall|j: int| 0 <= j < out@.len() implies (#[trigger] out@[j]) < v@.len() by {
                if j < at {
                    assert(out@[j] == was[j]);
                } else if j > at {
                    assert(out@[j] == was[j - 1]);
                }
            }
        }
        i = i + 1;
    }
    assert(all.take(i as int) =~= all);
    out
}

fn holds(v: &Vec<u64>, n: u64) -> (r: bool)
    ensures
        r == v@.contains(n),
{
    let mut i: usize = 0;
    while i < v.len()
        invariant
            i <= v.len(),
            forall|j: int| 0 <= j < i ==> v@[j] != n,
        decreases v.len() - i,
    {
        if v[i] == n {
            return true;
        }
        i = i + 1;
    }
    false
}

impl Watch {
    /// Go on from a session.
    pub fn new(me: &str, s: &Session) -> (r: Watch)
        ensures
            r.me@ == me@,
            r.cursor == common::reader(s.cursor),
            r.epoch == s.epoch,
            r.question@ == s.question@,
            r.seen@ == Seq::<u64>::empty(),
            r.saved_cursor == s.cursor,
            r.saved_question@ == ""@,
    {
        Watch {
            me: me.to_owned(),
            cursor: EventCursor::new(s.cursor),
            epoch: s.epoch,
            question: s.question.clone(),
            seen: Vec::new(),
            saved_cursor: s.cursor,
            saved_question: "".to_owned(),
        }
    }

    /// Take in the node's head: the newest number of its log and its last
    /// checkpoint. A log that was rebuilt is read again, skipping what was
    /// handled; any change of the checkpoint ends the session.
    pub fn on_head(&mut self, seq: Option<u64>, checkpoint: Option<u64>) -> (r: HeadNews)
        ensures
            r.rebuilt == (seq matches Some(n) && common::head_checked(old(self).cursor, n).1),
            text::text_view(r.reset) == reset_text(old(self).epoch, checkpoint),
            final(self).cursor == (match seq {
                Some(n) => common::head_checked(old(self).cursor, n).0,
                None => old(self).cursor,
            }),
            final(self).seen@ == (if r.rebuilt {
                Seq::<u64>::empty()
            } else {
                old(self).seen@
            }),
            final(self).epoch == (match checkpoint {
                Some(ep) => ep,
                None => old(self).epoch,
            }),
            final(self).question@ == (if r.reset is Some {
                ""@
            } else {
                old(self).question@
            }),
            final(self).me == old(self).me,
            final(self).saved_cursor == old(self).saved_cursor,
            final(self).saved_question == old(self).saved_question,
    {
        let mut rebuilt = false;
        if let Some(n) = seq {
            if self.cursor.check_head(n) {
                rebuilt = true;
                self.seen = Vec::new();
            }
        }
        let mut reset: Option<String> = None;
        if let Some(ep) = checkpoint {
            if ep != self.epoch {
                reset = Some(
                    String::from_str("chain checkpoint moved (").concat(
                        text::number(self.epoch).as_str(),
                    ).concat(" -> ").concat(text::number(ep).as_str()).concat(")"),
                );
                self.epoch = ep;
                self.question = "".to_owned();
            }
        }
        HeadNews { rebuilt, reset }
    }

    fn accept(&mut self, v: &Vec<Entry>) -> (idx: Vec<usize>)
        requires
            old(self).cursor.in_block + v@.len() < usize::MAX,
        ensures
            index_view(idx@) == fresh(old(self).cursor, v@, v@.len()),
            within(idx@, v@.len()),
            *final(self) == (Watch {
                cursor: common::past_all(old(self).cursor, places(v@), v@.len()),
                ..*old(self)
            }),
    {
        let ghost start = *self;
        let ghost evs = places(v@);
        let mut idx: Vec<usize> = Vec::new();
        let mut i: usize = 0;
        assert(index_view(idx@) =~= Seq::<int>::empty());
        while i < v.len()
            invariant
                i <= v.len(),
                evs == places(v@),
                start.cursor.in_block + v@.len() < usize::MAX,
                self.cursor == common::past_all(start.cursor, evs, i as nat),
                self.cursor.in_block <= start.cursor.in_block + i,
                *self == (Watch { cursor: self.cursor, ..start }),
                index_view(idx@) == fresh(start.cursor, v@, i as nat),
                within(idx@, v@.len()),
            decreases v.len() - i,
        {
            let ghost was = index_view(idx@);
            assert(evs[i as int] == (v@[i as int].seq, v@[i as int].block));
            if self.cursor.accept_at(v[i].seq, v[i].block) {
                idx.push(i);
                assert(index_view(idx@) =~= was.push(i as int));
            }
            i = i + 1;
        }
        idx
    }

    fn follow(&mut self, v: &Vec<Entry>, idx: &Vec<usize>)
        requires
            within(idx@, v@.len()),
        ensures
            final(self).question@ == subject_after(old(self).question@, v@, index_view(idx@)),
            final(self).me == old(self).me,
            final(self).cursor == old(self).cursor,
            final(self).epoch == old(self).epoch,
            final(self).seen == old(self).seen,
            final(self).saved_cursor == old(self).saved_cursor,
            final(self).saved_question == old(self).saved_question,
    {
        let ghost start = *self;
        let ghost all = index_view(idx@);
        let mut i: usize = 0;
        assert(all.take(0) =~= Seq::<int>::empty());
        while i < idx.len()
            invariant
                i <= idx.len(),
                all == index_view(idx@),
                within(idx@, v@.len()),
                self.question@ == subject_after(start.question@, v@, all.take(i as int)),
                *self == (Watch { question: self.question, ..start }),
            decreases idx.len() - i,
        {
            assert(idx@[i as int] < v@.len());
            assert(all.take(i + 1).drop_last() =~= all.take(i as int));
            assert(all.take(i + 1).last() == idx@[i as int]);
            let eff = &v[idx[i]].effect;
            if let Some(t) = eff.text("t") {
                if text::same(t.as_str(), "said") && eff.flag("root")
                    && self.question.as_str().is_empty() {
                    self.question = eff.words("body");
                }
                if text::same(t.as_str(), "opened") {
                    self.question = eff.words("text");
                }
            }
            i = i + 1;
        }
        assert(all.take(i as int) =~= all);
    }

    /// Take in a batch of the node's log. Gives the entries worth a turn, in
    /// order: of those that wake this cat the newest on each topic, unless it
    /// was handled already.
    pub fn take(&mut self, v: &Vec<Entry>) -> (out: Vec<usize>)
        requires
            old(self).cursor.in_block + v@.len() < usize::MAX,
        ensures
            ({
                let idx = fresh(old(self).cursor, v@, v@.len());
                let mine = in_order(v@, newest(v@, idx, old(self).me@));
                let (todo, known) = unseen(v@, mine, old(self).seen@);
                &&& index_view(out@) == todo
                &&& final(self).seen@ == known
                &&& final(self).question@ == subject_after(old(self).question@, v@, idx)
                &&& final(self).cursor == common::past_all(
                    old(self).cursor,
                    places(v@),
                    v@.len(),
                )
            }),
            within(out@, v@.len()),
            final(self).me == old(self).me,
            final(self).epoch == old(self).epoch,
            final(self).saved_cursor == old(self).saved_cursor,
            final(self).saved_question == old(self).saved_question,
    {
        let idx = self.accept(v);
        self.follow(v, &idx);
        let kept = newest_of(v, &idx, self.me.as_str());
        let mine = order(v, &kept);
        let ghost start = *self;
        let ghost all = index_view(mine@);
        let mut out: Vec<usize> = Vec::new();
        let mut i: usize = 0;
        assert(all.take(0) =~= Seq::<int>::empty());
        assert(index_view(out@) =~= Seq::<int>::empty());
        while i < mine.len()
            invariant
                i <= mine.len(),
                all == index_view(mine@),
                within(mine@, v@.len()),
                within(out@, v@.len()),
                *self == (Watch { seen: self.seen, ..start }),
                (index_view(out@), self.seen@) == unseen(v@, all.take(i as int), start.seen@),
            decreases mine.len() - i,
        {
            let n: usize = mine[i];
            assert(mine@[i as int] < v@.len());
            assert(all.take(i + 1).drop_last() =~= all.take(i as int));
            assert(all.take(i + 1).last() == n);
            let ghost was = index_view(out@);
            if !holds(&self.seen, v[n].seq) {
                self.seen.push(v[n].seq);
                out.push(n);
                assert(index_view(out@) =~= was.push(n as int));
            }
            i = i + 1;
        }
        assert(all.take(i as int) =~= all);
        out
    }

    /// The session to write down, where it changed since it was last written.
    pub fn to_save(&mut self) -> (r: Option<Session>)
        ensures
            r is Some <==> (old(self).cursor.seq != old(self).saved_cursor || old(self).question@
                != old(self).saved_question@),
            r matches Some(s) ==> s@ == (SessionView {
                epoch: old(self).epoch,
                cursor: old(self).cursor.seq,
                question: old(self).question@,
            }),
            final(self).saved_cursor == old(self).cursor.seq,
            final(self).saved_question@ == old(self).question@,
            final(self).me == old(self).me,
            final(self).cursor == old(self).cursor,
            final(self).epoch == old(self).epoch,
            final(self).question == old(self).question,
            final(self).seen == old(self).seen,
    {
        if self.cursor.seq == self.saved_cursor && text::same(
            self.question.as_str(),
            self.saved_question.as_str(),
        ) {
            return None;
        }
        self.saved_cursor = self.cursor.seq;
        self.saved_question = self.question.clone();
        Some(
            Session {
                epoch: self.epoch,
                cursor: self.cursor.seq,
                question: self.question.clone(),
            },
        )
    }
}

// ---------------------------------------------------------------------
// What every reading keeps
// ---------------------------------------------------------------------

/// A cat's own broadcast never wakes it: it would answer itself.
pub proof fn an_own_broadcast_wakes_others_only(e: Entry, me: Seq<char>)
    requires
        e.wakes matches Some(w) && w@ == "*"@,
        json::text_at(e.effect, "from"@) == Some(me),
        me != "*"@,
    ensures
        !wakes_me(e, me),
{
}

/// A closing remark wakes no one.
pub proof fn a_closing_remark_wakes_no_one(e: Entry, me: Seq<char>)
    requires
        json::text_at(e.effect, "t"@) == Some("said"@),
        json::flag_at(e.effect, "no_ack"@),
    ensures
        !wakes_me(e, me),
{
}

proof fn lemma_slot(v: Seq<Entry>, kept: Seq<int>, t: (Seq<char>, Seq<char>))
    ensures
        match slot(v, kept, t) {
            Some(s) => s < kept.len() && topic(v[kept[s as int]]) == t,
            None => forall|k: int| 0 <= k < kept.len() ==> topic(v[#[trigger] kept[k]]) != t,
        },
    decreases kept.len(),
{
    if kept.len() > 0 {
        lemma_slot(v, kept.drop_last(), t);
        let front = kept.drop_last();
        match slot(v, front, t) {
            Some(s) => {
                assert(front[s as int] == kept[s as int]);
            },
            None => {
                assert forall|k: int| 0 <= k < kept.len() && topic(v[kept.last()]) != t implies topic(
                    v[#[trigger] kept[k]],
                ) != t by {
                    if k < front.len() {
                        assert(front[k] == kept[k]);
                    }
                }
            },
        }
    }
}

/// Some entry of `kept` is on the topic of `e` and no older.
pub open spec fn covered(v: Seq<Entry>, kept: Seq<int>, e: Entry) -> bool {
    exists|k: int|
        0 <= k < kept.len() && topic(v[#[trigger] kept[k]]) == topic(e) && v[kept[k]].seq
            >= e.seq
}

/// No two of `kept` are on one topic.
pub open spec fn one_to_a_topic(v: Seq<Entry>, kept: Seq<int>) -> bool {
    forall|a: int, b: int|
        0 <= a < b < kept.len() ==> topic(v[#[trigger] kept[a]]) != topic(v[#[trigger] kept[b]])
}

proof fn lemma_kept_apart(v: Seq<Entry>, before: Seq<int>, n: int)
    requires
        one_to_a_topic(v, before),
    ensures
        one_to_a_topic(v, kept_with(v, before, n)),
{
    let kept = kept_with(v, before, n);
    lemma_slot(v, before, topic(v[n]));
    assert forall|a: int, b: int| 0 <= a < b < kept.len() implies topic(v[#[trigger] kept[a]])
        != topic(v[#[trigger] kept[b]]) by {
        match slot(v, before, topic(v[n])) {
            Some(s) => {
                assert(topic(v[kept[a]]) == topic(v[before[a]]));
                assert(topic(v[kept[b]]) == topic(v[before[b]]));
            },
            None => {
                assert(kept[a] == before[a]);
                if b < before.len() {
                    assert(kept[b] == before[b]);
                }
            },
        }
    }
}

proof fn lemma_kept_covers(v: Seq<Entry>, before: Seq<int>, n: int, e: Entry)
    requires
        covered(v, before, e) || e == v[n],
    ensures
        covered(v, kept_with(v, before, n), e),
{
    let kept = kept_with(v, before, n);
    lemma_slot(v, before, topic(v[n]));
    if covered(v, before, e) {
        let k = choose|k: int|
            0 <= k < before.len() && topic(v[#[trigger] before[k]]) == topic(e)
                && v[before[k]].seq >= e.seq;
        assert(topic(v[kept[k]]) == topic(e) && v[kept[k]].seq >= e.seq);
    } else {
        let k = match slot(v, before, topic(v[n])) {
            Some(s) => s as int,
            None => before.len() as int,
        };
        assert(topic(v[kept[k]]) == topic(e) && v[kept[k]].seq >= e.seq);
    }
}

proof fn lemma_kept_from(v: Seq<Entry>, before: Seq<int>, n: int)
    ensures
        forall|k: int|
            0 <= k < kept_with(v, before, n).len() ==> #[trigger] kept_with(v, before, n)[k] == n || (
            k < before.len() && kept_with(v, before, n)[k] == before[k]),
{
    lemma_slot(v, before, topic(v[n]));
}

/// Coalescing drops only what something newer makes needless: every entry that
/// wakes the cat has one among those kept that is on its topic and no older;
/// what is kept are waking entries, one to a topic.
pub proof fn coalescing_keeps_the_newest(v: Seq<Entry>, idx: Seq<int>, me: Seq<char>)
    ensures
        ({
            let kept = newest(v, idx, me);
            &&& forall|i: int|
                0 <= i < idx.len() && wakes_me(v[#[trigger] idx[i]], me) ==> covered(
                    v,
                    kept,
                    v[idx[i]],
                )
            &&& forall|k: int|
                0 <= k < kept.len() ==> idx.contains(#[trigger] kept[k]) && wakes_me(
                    v[kept[k]],
                    me,
                )
            &&& one_to_a_topic(v, kept)
        }),
    decreases idx.len(),
{
    if idx.len() > 0 {
        let front = idx.drop_last();
        let n = idx.last();
        let before = newest(v, front, me);
        let kept = newest(v, idx, me);
        coalescing_keeps_the_newest(v, front, me);
        lemma_kept_apart(v, before, n);
        lemma_kept_from(v, before, n);
        assert(idx[idx.len() - 1] == n);
        assert forall|k: int| 0 <= k < kept.len() implies idx.contains(#[trigger] kept[k])
            && wakes_me(v[kept[k]], me) by {
            if k < before.len() && kept[k] == before[k] {
                assert(front.contains(before[k]));
                let j = choose|j: int| 0 <= j < front.len() && front[j] == before[k];
                assert(idx[j] == kept[k]);
            }
        }
        assert forall|i: int| 0 <= i < idx.len() && wakes_me(v[#[trigger] idx[i]], me) implies covered(
            v,
            kept,
            v[idx[i]],
        ) by {
            if i < front.len() {
                assert(front[i] == idx[i]);
            }
            if wakes_me(v[n], me) {
                lemma_kept_covers(v, before, n, v[idx[i]]);
            }
        }
    }
}

proof fn lemma_place(v: Seq<Entry>, sorted: Seq<int>, seq: u64)
    requires
        forall|a: int, b: int|
            0 <= a <= b < sorted.len() ==> v[#[trigger] sorted[a]].seq <= v[#[trigger] sorted[b]].seq,
    ensures
        place(v, sorted, seq) <= sorted.len(),
        forall|k: int|
            0 <= k < place(v, sorted, seq) ==> v[#[trigger] sorted[k]].seq <= seq,
        forall|k: int|
            place(v, sorted, seq) <= k < sorted.len() ==> v[#[trigger] sorted[k]].seq > seq,
    decreases sorted.len(),
{
    if sorted.len() > 0 && v[sorted.last()].seq > seq {
        let front = sorted.drop_last();
        assert forall|a: int, b: int| 0 <= a <= b < front.len() implies v[#[trigger] front[a]].seq
            <= v[#[trigger] front[b]].seq by {
            assert(front[a] == sorted[a] && front[b] == sorted[b]);
        }
        lemma_place(v, front, seq);
        assert forall|k: int| 0 <= k < place(v, sorted, seq) implies v[#[trigger] sorted[k]].seq
            <= seq by {
            assert(front[k] == sorted[k]);
        }
        assert forall|k: int| place(v, sorted, seq) <= k < sorted.len() implies v[#[trigger] sorted[k]].seq
            > seq by {
            if k < front.len() {
                assert(front[k] == sorted[k]);
            }
        }
    }
}

/// Turns come in the order of the log, and ordering neither drops nor adds an
/// entry.
pub proof fn turns_come_in_order(v: Seq<Entry>, idx: Seq<int>)
    ensures
        ({
            let o = in_order(v, idx);
            &&& forall|a: int, b: int|
                0 <= a <= b < o.len() ==> v[#[trigger] o[a]].seq <= v[#[trigger] o[b]].seq
            &&& o.to_multiset() =~= idx.to_multiset()
        }),
    decreases idx.len(),
{
    broadcast use vstd::seq_lib::group_to_multiset_ensures;

    if idx.len() > 0 {
        let front = idx.drop_last();
        let n = idx.last();
        let before = in_order(v, front);
        let o = in_order(v, idx);
        turns_come_in_order(v, front);
        lemma_place(v, before, v[n].seq);
        let at = place(v, before, v[n].seq) as int;
        assert forall|a: int, b: int| 0 <= a <= b < o.len() implies v[#[trigger] o[a]].seq
            <= v[#[trigger] o[b]].seq by {
            if a < at {
                assert(o[a] == before[a]);
            } else if a > at {
                assert(o[a] == before[a - 1]);
            }
            if b < at {
                assert(o[b] == before[b]);
            } else if b > at {
                assert(o[b] == before[b - 1]);
            }
        }
        assert(o.remove(at) =~= before);
        assert(o[at] == n);
        vstd::seq_lib::to_multiset_remove(o, at);
        assert(o.contains(n));
        assert(idx =~= front.push(n));
        assert(o.to_multiset() =~= idx.to_multiset());
    } else {
        assert(in_order(v, idx) =~= idx);
    }
}

/// No entry is handled twice: what is given out carries numbers that were not
/// handled before, each of them once, and they count as handled from then on.
pub proof fn nothing_is_handled_twice(v: Seq<Entry>, idx: Seq<int>, seen: Seq<u64>)
    ensures
        ({
            let (out, known) = unseen(v, idx, seen);
            &&& forall|a: int|
                0 <= a < out.len() ==> !seen.contains(v[#[trigger] out[a]].seq) && known.contains(
                    v[out[a]].seq,
                )
            &&& forall|a: int, b: int|
                0 <= a < b < out.len() ==> v[#[trigger] out[a]].seq != v[#[trigger] out[b]].seq
            &&& forall|n: u64| #[trigger] seen.contains(n) ==> known.contains(n)
            &&& forall|i: int|
                0 <= i < idx.len() ==> known.contains(v[#[trigger] idx[i]].seq)
        }),
    decreases idx.len(),
{
    if idx.len() > 0 {
        let front = idx.drop_last();
        let n = v[idx.last()].seq;
        let (was, old_known) = unseen(v, front, seen);
        let (out, known) = unseen(v, idx, seen);
        nothing_is_handled_twice(v, front, seen);
        if !old_known.contains(n) {
            assert(known =~= old_known.push(n));
            assert(known[old_known.len() as int] == n);
            assert forall|m: u64| old_known.contains(m) implies known.contains(m) by {
                let j = choose|j: int| 0 <= j < old_known.len() && old_known[j] == m;
                assert(known[j] == m);
            }
            assert forall|a: int| 0 <= a < out.len() implies !seen.contains(
                v[#[trigger] out[a]].seq,
            ) && known.contains(v[out[a]].seq) by {
                if a < was.len() {
                    assert(out[a] == was[a]);
                }
            }
            assert forall|a: int, b: int| 0 <= a < b < out.len() implies v[#[trigger] out[a]].seq
                != v[#[trigger] out[b]].seq by {
                assert(out[a] == was[a]);
                if b < was.len() {
                    assert(out[b] == was[b]);
                }
            }
        }
        assert forall|i: int| 0 <= i < idx.len() implies known.contains(v[#[trigger] idx[i]].seq) by {
            if i < front.len() {
                assert(front[i] == idx[i]);
            }
        }
    }
}

// ---------------------------------------------------------------------
// Who a cat is
// ---------------------------------------------------------------------

/// Put behind a cat's persona.
pub const AGENT_RULES: &'static str = "\n\nRules:\n- A task id like \"t1\" names a whole task; \"t1.2\" names one sub-task of it. Use exactly the id you were given for the action you are taking — never shorten a sub-task id to its parent, and never use a parent id where a sub-task id is asked for.\n- Always respond by calling at least one of the tools offered. Never reply with plain text alone. The one exception: a message that tells you it doesn't need a reply (no_ack) — there, calling nothing is the correct response, not a rule violation. Don't manufacture a reply just to have said something.\n- You may call several tools in the same response. They all run at once, so don't make one depend on another's output within a response — call what you need, and act on the results when they come back.";

/// What a cat is told it is running on.
pub fn about(account: &Account, node: &str) -> (r: String)
    ensures
        r@ == "Where: a cat in the Akuma Miot litter, account "@ + keys::shortened(account@)
            + ", talking to its node at "@ + node@,
{
    "Where: a cat in the Akuma Miot litter, account ".to_owned().concat(
        keys::short(account).as_str(),
    ).concat(", talking to its node at ").concat(node)
}

// ---------------------------------------------------------------------
// What a call writes
// ---------------------------------------------------------------------

proof fn lemma_writes_differ()
    ensures
        "TaskPlan"@ != "TaskUpdate"@,
        "TaskPlan"@ != "TaskReassign"@,
        "TaskUpdate"@ != "TaskReassign"@,
        "TaskPlan"@ != "SendMessage"@,
        "TaskUpdate"@ != "SendMessage"@,
        "TaskReassign"@ != "SendMessage"@,
        "TaskPlan"@ != "Artifact"@,
        "TaskUpdate"@ != "Artifact"@,
        "TaskReassign"@ != "Artifact"@,
        "SendMessage"@ != "Artifact"@,
        "TaskPlan"@ != "RequestCompaction"@,
        "TaskUpdate"@ != "RequestCompaction"@,
        "TaskReassign"@ != "RequestCompaction"@,
        "SendMessage"@ != "RequestCompaction"@,
        "Artifact"@ != "RequestCompaction"@,
{
    reveal_strlit("TaskPlan");
    reveal_strlit("TaskUpdate");
    reveal_strlit("TaskReassign");
    reveal_strlit("SendMessage");
    reveal_strlit("Artifact");
    reveal_strlit("RequestCompaction");
    assert("TaskPlan"@.len() == 8);
    assert("TaskUpdate"@.len() == 10);
    assert("TaskReassign"@.len() == 12);
    assert("SendMessage"@.len() == 11);
    assert("Artifact"@.len() == 8);
    assert("RequestCompaction"@.len() == 17);
    assert("Artifact"@[0] == 'A');
    assert("TaskPlan"@[0] == 'T');
}

proof fn lemma_acts_differ()
    ensures
        "claim"@ != "done"@,
        "claim"@ != "failed"@,
        "done"@ != "failed"@,
        "claim"@ != "clear"@,
        "done"@ != "clear"@,
        "failed"@ != "clear"@,
        "claim"@ != "reopen"@,
        "done"@ != "reopen"@,
        "failed"@ != "reopen"@,
        "clear"@ != "reopen"@,
        "claim"@ != "artifact"@,
        "done"@ != "artifact"@,
        "failed"@ != "artifact"@,
        "clear"@ != "artifact"@,
        "reopen"@ != "artifact"@,
{
    reveal_strlit("claim");
    reveal_strlit("done");
    reveal_strlit("failed");
    reveal_strlit("clear");
    reveal_strlit("reopen");
    reveal_strlit("artifact");
    assert("claim"@.len() == 5);
    assert("done"@.len() == 4);
    assert("failed"@.len() == 6);
    assert("clear"@.len() == 5);
    assert("reopen"@.len() == 6);
    assert("artifact"@.len() == 8);
    assert("claim"@[2] == 'a');
    assert("clear"@[2] == 'e');
    assert("failed"@[0] == 'f');
    assert("reopen"@[0] == 'r');
}

/// The act that a status names, each its own.
pub open spec fn is_act(status: Seq<char>, act: Act) -> bool {
    match act {
        Act::Claim => status == "claim"@,
        Act::Done => status == "done"@,
        Act::Failed => status == "failed"@,
        Act::Clear => status == "clear"@,
        Act::Reopen => status == "reopen"@,
        Act::Artifact => status == "artifact"@,
    }
}

proof fn lemma_update_shown(task: Seq<char>, status: Seq<char>, text: Seq<char>)
    ensures
        text::has(task + " "@ + status + "  "@ + text, text),
        text::has(task + " "@ + status + "  "@ + text, task),
{
    text::lemma_has_self(text);
    text::lemma_has_right(task + " "@ + status + "  "@, text, text);
    text::lemma_has_self(task);
    text::lemma_has_left(task, " "@, task);
    text::lemma_has_left(task + " "@, status, task);
    text::lemma_has_left(task + " "@ + status, "  "@, task);
    text::lemma_has_left(task + " "@ + status + "  "@, text, task);
}

/// An update carries the model's own words: on the task that it names, with the
/// act that its status names, and with its text whole, which is shown as well.
/// It is refused only where it names no task, or no act.
pub proof fn an_update_carries_the_models_words(args: Json, roster: Seq<(Seq<char>, Seq<u8>)>)
    ensures
        recorded("TaskUpdate"@, args, roster) matches Ok((call, shown)) ==> {
            &&& call matches ChainView::Update { task, act, text } && {
                &&& common::task_in(json::words_at(args, "task"@)) == Some(task)
                &&& is_act(json::words_at(args, "status"@), act)
                &&& text == json::words_at(args, "text"@)
            }
            &&& text::has(shown, json::words_at(args, "text"@))
            &&& text::has(shown, json::words_at(args, "task"@))
        },
        recorded("TaskUpdate"@, args, roster) is Err <==> common::task_in(
            json::words_at(args, "task"@),
        ) is None || (forall|act: Act| !#[trigger] is_act(json::words_at(args, "status"@), act)),
        recorded("TaskUpdate"@, args, roster) matches Err(out) ==> !out.ok,
{
    lemma_writes_differ();
    lemma_acts_differ();
    let task = json::words_at(args, "task"@);
    let status = json::words_at(args, "status"@);
    let text = json::words_at(args, "text"@);
    lemma_update_shown(task, status, text);
    match act_named(status) {
        Some(act) => {
            assert(is_act(status, act));
        },
        None => {
            assert forall|act: Act| !#[trigger] is_act(status, act) by {}
        },
    }
}

/// An assignment that can be made: it names a cat of the roster, and what that
/// cat is to do.
pub open spec fn can_assign(it: Json, roster: Seq<(Seq<char>, Seq<u8>)>) -> bool {
    &&& json::text_at(it, "what"@) is Some
    &&& json::text_at(it, "who"@) matches Some(who) && common::account_named(
        roster,
        common::tag_name(who),
    ) is Some
}

/// `one` is the assignment that `it` asks for.
pub open spec fn assigns(it: Json, roster: Seq<(Seq<char>, Seq<u8>)>, one: ItemView) -> bool {
    &&& json::text_at(it, "what"@) == Some(one.what)
    &&& json::text_at(it, "who"@) matches Some(who) && common::account_named(
        roster,
        common::tag_name(who),
    ) == Some(one.who)
    &&& one.expect.len() == 0
}

proof fn lemma_assignments(items: Seq<Json>, roster: Seq<(Seq<char>, Seq<u8>)>) -> (at: spec_fn(
    int,
) -> int)
    ensures
        forall|k: int|
            0 <= k < assignments(items, roster).len() ==> 0 <= #[trigger] at(k) < items.len()
                && assigns(items[at(k)], roster, assignments(items, roster)[k]),
        forall|k: int, m: int|
            0 <= k < m < assignments(items, roster).len() ==> #[trigger] at(k) < #[trigger] at(m),
        forall|i: int|
            0 <= i < items.len() && can_assign(#[trigger] items[i], roster) ==> exists|k: int|
                0 <= k < assignments(items, roster).len() && #[trigger] at(k) == i,
    decreases items.len(),
{
    reveal_strlit("");
    if items.len() == 0 {
        |k: int| k
    } else {
        let front = items.drop_last();
        let before = assignments(front, roster);
        let inner = lemma_assignments(front, roster);
        let at = |k: int|
            if k < before.len() {
                inner(k)
            } else {
                items.len() - 1
            };
        let all = assignments(items, roster);
        assert forall|k: int| 0 <= k < all.len() implies 0 <= #[trigger] at(k) < items.len()
            && assigns(items[at(k)], roster, all[k]) by {
            if k < before.len() {
                assert(0 <= inner(k) < front.len());
                assert(all[k] == before[k]);
                assert(front[inner(k)] == items[inner(k)]);
            }
        }
        assert forall|k: int, m: int| 0 <= k < m < all.len() implies #[trigger] at(k)
            < #[trigger] at(m) by {
            assert(0 <= inner(k) < front.len());
            if m < before.len() {
                assert(inner(k) < inner(m));
            }
        }
        assert forall|i: int| 0 <= i < items.len() && can_assign(
            #[trigger] items[i],
            roster,
        ) implies exists|k: int| 0 <= k < all.len() && #[trigger] at(k) == i by {
            if i < front.len() {
                assert(front[i] == items[i]);
                let k = choose|k: int| 0 <= k < before.len() && #[trigger] inner(k) == i;
                assert(at(k) == i);
            } else {
                assert(at(before.len() as int) == i);
            }
        }
        at
    }
}

/// A plan makes every assignment that can be made, in the order they were given,
/// each to the cat it names and in the words it was given; it makes no other.
pub proof fn a_plan_makes_every_assignment(args: Json, roster: Seq<(Seq<char>, Seq<u8>)>)
    ensures
        recorded("TaskPlan"@, args, roster) is Ok <==> common::task_in(
            json::words_at(args, "task"@),
        ) is Some,
        recorded("TaskPlan"@, args, roster) matches Ok((call, shown)) ==> call matches ChainView::Plan {
            parent,
            assignments,
        } && {
            let items = json::items_at(args, "assignments"@);
            &&& common::task_in(json::words_at(args, "task"@)) == Some(parent)
            &&& makes_all(items, roster, assignments)
        },
{
    lemma_writes_differ();
    let items = json::items_at(args, "assignments"@);
    let at = lemma_assignments(items, roster);
    let plan = assignments(items, roster);
    assert(makes(at, items, roster, plan));
    assert(makes_all(items, roster, plan));
    match recorded("TaskPlan"@, args, roster) {
        Ok((call, shown)) => {
            let parent = common::task_in(json::words_at(args, "task"@))->0;
            assert(call == (ChainView::Plan { parent, assignments: plan }));
        },
        Err(_) => {},
    }
}

/// `plan` makes the assignments that can be made, in their order, and no other.
pub open spec fn makes_all(
    items: Seq<Json>,
    roster: Seq<(Seq<char>, Seq<u8>)>,
    plan: Seq<ItemView>,
) -> bool {
    exists|at: spec_fn(int) -> int| #[trigger] makes(at, items, roster, plan)
}

/// `at` gives each assignment's place among the items: in order, and all that
/// can be made.
pub open spec fn makes(
    at: spec_fn(int) -> int,
    items: Seq<Json>,
    roster: Seq<(Seq<char>, Seq<u8>)>,
    plan: Seq<ItemView>,
) -> bool {
    &&& forall|k: int|
        0 <= k < plan.len() ==> 0 <= #[trigger] at(k) < items.len() && assigns(
            items[at(k)],
            roster,
            plan[k],
        )
    &&& forall|k: int, m: int| 0 <= k < m < plan.len() ==> #[trigger] at(k) < #[trigger] at(m)
    &&& forall|i: int|
        0 <= i < items.len() && can_assign(#[trigger] items[i], roster) ==> exists|k: int|
            0 <= k < plan.len() && #[trigger] at(k) == i
}

/// A task moves to the cat that is named, and only where there is such a cat and
/// such a task.
pub proof fn a_task_moves_to_the_cat_named(args: Json, roster: Seq<(Seq<char>, Seq<u8>)>)
    ensures
        ({
            let id = common::task_in(json::words_at(args, "task"@));
            let cat = common::account_named(
                roster,
                common::tag_name(json::words_at(args, "to"@)),
            );
            match recorded("TaskReassign"@, args, roster) {
                Ok((call, shown)) => id is Some && cat is Some && call == (ChainView::Reassign {
                    task: id->0,
                    cat: cat->0,
                }),
                Err(out) => !out.ok && (id is None || cat is None),
            }
        }),
{
    lemma_writes_differ();
}

/// A message says what the model wrote, flagged as the model flagged it: to the
/// cat it names, or to everyone where it names nobody or everyone, and it is
/// shown as it is sent.
pub proof fn a_message_says_what_was_written(args: Json, roster: Seq<(Seq<char>, Seq<u8>)>)
    ensures
        ({
            let to = text::trimmed(json::words_at(args, "to"@));
            let plain = text::lowered(text::without_leading(to, '@'));
            let all = to.len() == 0 || plain == "all"@ || plain == "cats"@ || plain == "litter"@;
            let cat = common::account_named(roster, common::tag_name(to));
            match recorded("SendMessage"@, args, roster) {
                Ok((call, shown)) => {
                    &&& call matches ChainView::Say { to: whom, body, no_ack, off_record } && {
                        &&& body == json::words_at(args, "body"@)
                        &&& no_ack == json::flag_at(args, "no_ack"@)
                        &&& off_record == json::flag_at(args, "off_record"@)
                        &&& all ==> whom is None
                        &&& !all ==> whom is Some && whom == cat
                    }
                    &&& text::has(shown, json::words_at(args, "body"@))
                },
                Err(out) => !out.ok && !all && cat is None,
            }
        }),
{
    lemma_writes_differ();
    let body = json::words_at(args, "body"@);
    let raw = text::trimmed(json::words_at(args, "to"@));
    let flags = flags_text(json::flag_at(args, "no_ack"@), json::flag_at(args, "off_record"@));
    text::lemma_has_self(body);
    text::lemma_has_right("→ litter  "@, body, body);
    text::lemma_has_left("→ litter  "@ + body, flags, body);
    text::lemma_has_self(body);
    text::lemma_has_right("→ "@ + text::without_leading(raw, '@') + "  "@, body, body);
    text::lemma_has_left("→ "@ + text::without_leading(raw, '@') + "  "@ + body, flags, body);
}

/// A report is published whole, and what is no chain write writes nothing.
pub proof fn a_report_is_published_whole(
    name: Seq<char>,
    args: Json,
    roster: Seq<(Seq<char>, Seq<u8>)>,
)
    ensures
        recorded("Artifact"@, args, roster) matches Ok((call, shown)) && call == (
        ChainView::PublishArtifact { text: json::words_at(args, "text"@) }),
        recorded("RequestCompaction"@, args, roster) matches Ok((call, shown)) && call
            == ChainView::RequestCompaction,
        name != "TaskPlan"@ && name != "TaskUpdate"@ && name != "TaskReassign"@ && name
            != "SendMessage"@ && name != "Artifact"@ && name != "RequestCompaction"@ ==> recorded(
            name,
            args,
            roster,
        ) is Err && !is_record(name),
        is_record("TaskPlan"@) && is_record("TaskUpdate"@) && is_record("TaskReassign"@)
            && is_record("SendMessage"@) && is_record("Artifact"@) && is_record(
            "RequestCompaction"@,
        ),
{
    lemma_writes_differ();
}

// ---------------------------------------------------------------------
// What a prompt tells
// ---------------------------------------------------------------------

proof fn lemma_events_differ()
    ensures
        "assigned"@ != "nudge"@,
        "assigned"@ != "directed"@,
        "nudge"@ != "directed"@,
        "assigned"@ != "said"@,
        "nudge"@ != "said"@,
        "directed"@ != "said"@,
        "PlanNeeded"@ != "ClearanceNeeded"@,
        "PlanNeeded"@ != "ArtifactNeeded"@,
        "ClearanceNeeded"@ != "ArtifactNeeded"@,
        "PlanNeeded"@ != "ReassignNeeded"@,
        "ClearanceNeeded"@ != "ReassignNeeded"@,
        "ArtifactNeeded"@ != "ReassignNeeded"@,
{
    reveal_strlit("assigned");
    reveal_strlit("nudge");
    reveal_strlit("directed");
    reveal_strlit("said");
    reveal_strlit("PlanNeeded");
    reveal_strlit("ClearanceNeeded");
    reveal_strlit("ArtifactNeeded");
    reveal_strlit("ReassignNeeded");
    assert("assigned"@.len() == 8);
    assert("nudge"@.len() == 5);
    assert("directed"@.len() == 8);
    assert("said"@.len() == 4);
    assert("PlanNeeded"@.len() == 10);
    assert("ClearanceNeeded"@.len() == 15);
    assert("ArtifactNeeded"@.len() == 14);
    assert("ReassignNeeded"@.len() == 14);
    assert("ArtifactNeeded"@[0] == 'A');
    assert("ReassignNeeded"@[0] == 'R');
    assert("assigned"@[0] == 'a');
    assert("directed"@[0] == 'd');
}

/// An assignment tells the cat what it was given: which task, its own part in
/// the words it was given, and the question all of it is for.
pub proof fn an_assignment_is_told(
    eff: Json,
    question: Seq<char>,
    me: Seq<char>,
    roster: Seq<(Seq<char>, Seq<u8>)>,
    rows: Seq<Json>,
    words: u64,
    pages: u64,
)
    requires
        json::text_at(eff, "t"@) == Some("assigned"@) || json::text_at(eff, "t"@) == Some(
            "nudge"@,
        ),
        json::text_at(eff, "what"@) is Some,
        json::text_at(eff, "task"@) is Some,
    ensures
        asked(eff, question, me, roster, rows, words, pages) matches Some((told, kind)) && {
            &&& kind == "task"@
            &&& text::has(told, question)
            &&& text::has(told, json::text_at(eff, "task"@)->0)
            &&& json::text_at(eff, "t"@) == Some("assigned"@) ==> text::has(
                told,
                json::text_at(eff, "what"@)->0,
            ) && text::has(told, "status=claim"@)
            &&& json::text_at(eff, "t"@) == Some("nudge"@) ==> text::has(told, "status=done"@)
        },
{
    lemma_events_differ();
    let task = json::text_at(eff, "task"@)->0;
    let what = json::text_at(eff, "what"@)->0;
    text::lemma_has_self(question);
    text::lemma_has_right("The litter is working on:\n"@, question, question);
    text::lemma_has_left("The litter is working on:\n"@ + question, "\n\n[assigned: "@, question);
    text::lemma_has_left("The litter is working on:\n"@ + question + "\n\n[assigned: "@, task, question);
    text::lemma_has_left("The litter is working on:\n"@ + question + "\n\n[assigned: "@ + task, "] Your part: "@, question);
    text::lemma_has_left("The litter is working on:\n"@ + question + "\n\n[assigned: "@ + task + "] Your part: "@, what, question);
    text::lemma_has_left("The litter is working on:\n"@ + question + "\n\n[assigned: "@ + task + "] Your part: "@ + what, "\nCall TaskUpdate with task="@, question);
    text::lemma_has_left("The litter is working on:\n"@ + question + "\n\n[assigned: "@ + task + "] Your part: "@ + what + "\nCall TaskUpdate with task="@, task, question);
    text::lemma_has_left("The litter is working on:\n"@ + question + "\n\n[assigned: "@ + task + "] Your part: "@ + what + "\nCall TaskUpdate with task="@ + task, " and status=claim to take it."@, question);
    text::lemma_has_self(task);
    text::lemma_has_right("The litter is working on:\n"@ + question + "\n\n[assigned: "@, task, task);
    text::lemma_has_left("The litter is working on:\n"@ + question + "\n\n[assigned: "@ + task, "] Your part: "@, task);
    text::lemma_has_left("The litter is working on:\n"@ + question + "\n\n[assigned: "@ + task + "] Your part: "@, what, task);
    text::lemma_has_left("The litter is working on:\n"@ + question + "\n\n[assigned: "@ + task + "] Your part: "@ + what, "\nCall TaskUpdate with task="@, task);
    text::lemma_has_left("The litter is working on:\n"@ + question + "\n\n[assigned: "@ + task + "] Your part: "@ + what + "\nCall TaskUpdate with task="@, task, task);
    text::lemma_has_left("The litter is working on:\n"@ + question + "\n\n[assigned: "@ + task + "] Your part: "@ + what + "\nCall TaskUpdate with task="@ + task, " and status=claim to take it."@, task);
    text::lemma_has_self(what);
    text::lemma_has_right("The litter is working on:\n"@ + question + "\n\n[assigned: "@ + task + "] Your part: "@, what, what);
    text::lemma_has_left("The litter is working on:\n"@ + question + "\n\n[assigned: "@ + task + "] Your part: "@ + what, "\nCall TaskUpdate with task="@, what);
    text::lemma_has_left("The litter is working on:\n"@ + question + "\n\n[assigned: "@ + task + "] Your part: "@ + what + "\nCall TaskUpdate with task="@, task, what);
    text::lemma_has_left("The litter is working on:\n"@ + question + "\n\n[assigned: "@ + task + "] Your part: "@ + what + "\nCall TaskUpdate with task="@ + task, " and status=claim to take it."@, what);
    text::lemma_has_self(question);
    text::lemma_has_right("The litter is working on:\n"@, question, question);
    text::lemma_has_left("The litter is working on:\n"@ + question, "\n\n[work: "@, question);
    text::lemma_has_left("The litter is working on:\n"@ + question + "\n\n[work: "@, task, question);
    text::lemma_has_left("The litter is working on:\n"@ + question + "\n\n[work: "@ + task, "] You claimed this.\nDo it now. Call TaskUpdate with task="@, question);
    text::lemma_has_left("The litter is working on:\n"@ + question + "\n\n[work: "@ + task + "] You claimed this.\nDo it now. Call TaskUpdate with task="@, task, question);
    text::lemma_has_left("The litter is working on:\n"@ + question + "\n\n[work: "@ + task + "] You claimed this.\nDo it now. Call TaskUpdate with task="@ + task, ", status=done, and text set to your findings — concrete and specific. If you cannot, use status=failed."@, question);
    text::lemma_has_self(task);
    text::lemma_has_right("The litter is working on:\n"@ + question + "\n\n[work: "@, task, task);
    text::lemma_has_left("The litter is working on:\n"@ + question + "\n\n[work: "@ + task, "] You claimed this.\nDo it now. Call TaskUpdate with task="@, task);
    text::lemma_has_left("The litter is working on:\n"@ + question + "\n\n[work: "@ + task + "] You claimed this.\nDo it now. Call TaskUpdate with task="@, task, task);
    text::lemma_has_left("The litter is working on:\n"@ + question + "\n\n[work: "@ + task + "] You claimed this.\nDo it now. Call TaskUpdate with task="@ + task, ", status=done, and text set to your findings — concrete and specific. If you cannot, use status=failed."@, task);
    assert(text::has(" and status=claim to take it."@, "status=claim"@)) by {
        reveal_strlit(" and status=claim to take it.");
        reveal_strlit("status=claim");
        assert(" and status=claim to take it."@.subrange(5, 17) =~= "status=claim"@);
        assert(text::occurs_at(" and status=claim to take it."@, "status=claim"@, 5));
    }
    let last = ", status=done, and text set to your findings — concrete and specific. If you cannot, use status=failed."@;
    assert(text::has(last, "status=done"@)) by {
        reveal_strlit(
            ", status=done, and text set to your findings — concrete and specific. If you cannot, use status=failed.",
        );
        reveal_strlit("status=done");
        assert(last.subrange(2, 13) =~= "status=done"@);
        assert(text::occurs_at(last, "status=done"@, 2));
    }
    text::lemma_has_right(
        "The litter is working on:\n"@ + question + "\n\n[assigned: "@ + task + "] Your part: "@
            + what + "\nCall TaskUpdate with task="@ + task,
        " and status=claim to take it."@,
        "status=claim"@,
    );
    text::lemma_has_right(
        "The litter is working on:\n"@ + question + "\n\n[work: "@ + task
            + "] You claimed this.\nDo it now. Call TaskUpdate with task="@ + task,
        last,
        "status=done"@,
    );
}

/// What is said is told in the words it was said in, by the name of whoever said
/// it, and as what it was: to this cat or to all, wanting an answer or not.
pub proof fn what_is_said_is_told(
    eff: Json,
    question: Seq<char>,
    me: Seq<char>,
    roster: Seq<(Seq<char>, Seq<u8>)>,
    rows: Seq<Json>,
    words: u64,
    pages: u64,
)
    requires
        json::text_at(eff, "t"@) == Some("said"@),
        json::text_at(eff, "from"@) is Some,
        json::text_at(eff, "body"@) is Some,
    ensures
        asked(eff, question, me, roster, rows, words, pages) matches Some((told, kind)) && {
            &&& kind == "said"@
            &&& text::has(told, json::text_at(eff, "body"@)->0)
            &&& keys::account_in(json::text_at(eff, "from"@)->0) matches Some(a) ==> text::starts(
                told,
                common::name_for(roster, a),
            )
            &&& json::set_at(eff, "to"@) ==> text::has(told, "This was sent to you directly."@)
            &&& !json::set_at(eff, "to"@) ==> text::has(
                told,
                "This was sent to the whole litter, not just you — reply if you have something to add, or a short acknowledgment is a complete answer too."@,
            )
            &&& json::flag_at(eff, "no_ack"@) ==> text::has(
                told,
                "This is a closing remark, not a question — it does not need a reply. Doing nothing is the correct response unless you actually have something new."@,
            )
            &&& !json::flag_at(eff, "no_ack"@) ==> text::has(
                told,
                "Reply with SendMessage. Two sentences at most. If your reply is itself just a closing remark or acknowledgment rather than something that needs an answer, set SendMessage's no_ack to true so it doesn't bounce back to you."@,
            )
            &&& json::flag_at(eff, "off_record"@) ==> text::has(
                told,
                " This was sent off the record — it was never written to the chain. If you reply, set SendMessage's off_record to true as well, or your reply will be committed even though this message wasn't."@,
            )
        },
{
    lemma_events_differ();
    let from = json::text_at(eff, "from"@)->0;
    let who = named_or(Some(from), roster, "someone"@);
    let body = json::words_at(eff, "body"@);
    let framing = if json::set_at(eff, "to"@) {
        "This was sent to you directly."@
    } else {
        "This was sent to the whole litter, not just you — reply if you have something to add, or a short acknowledgment is a complete answer too."@
    };
    let ack = if json::flag_at(eff, "no_ack"@) {
        "This is a closing remark, not a question — it does not need a reply. Doing nothing is the correct response unless you actually have something new."@
    } else {
        "Reply with SendMessage. Two sentences at most. If your reply is itself just a closing remark or acknowledgment rather than something that needs an answer, set SendMessage's no_ack to true so it doesn't bounce back to you."@
    };
    let otr = if json::flag_at(eff, "off_record"@) {
        " This was sent off the record — it was never written to the chain. If you reply, set SendMessage's off_record to true as well, or your reply will be committed even though this message wasn't."@
    } else {
        ""@
    };
    let names = text::joined(others(common::names_in(roster), me), ", "@);
    let told = said_text(eff, from, me, roster);
    text::lemma_has_self(body);
    text::lemma_has_right(who + " said to the litter:\n\""@, body, body);
    text::lemma_has_left(who + " said to the litter:\n\""@ + body, "\"\n\n"@, body);
    text::lemma_has_left(who + " said to the litter:\n\""@ + body + "\"\n\n"@, framing, body);
    text::lemma_has_left(who + " said to the litter:\n\""@ + body + "\"\n\n"@ + framing, " The litter's other members, by name: "@, body);
    text::lemma_has_left(who + " said to the litter:\n\""@ + body + "\"\n\n"@ + framing + " The litter's other members, by name: "@, names, body);
    text::lemma_has_left(who + " said to the litter:\n\""@ + body + "\"\n\n"@ + framing + " The litter's other members, by name: "@ + names, ".\n\n"@, body);
    text::lemma_has_left(who + " said to the litter:\n\""@ + body + "\"\n\n"@ + framing + " The litter's other members, by name: "@ + names + ".\n\n"@, ack, body);
    text::lemma_has_left(who + " said to the litter:\n\""@ + body + "\"\n\n"@ + framing + " The litter's other members, by name: "@ + names + ".\n\n"@ + ack, otr, body);
    text::lemma_has_self(framing);
    text::lemma_has_right(who + " said to the litter:\n\""@ + body + "\"\n\n"@, framing, framing);
    text::lemma_has_left(who + " said to the litter:\n\""@ + body + "\"\n\n"@ + framing, " The litter's other members, by name: "@, framing);
    text::lemma_has_left(who + " said to the litter:\n\""@ + body + "\"\n\n"@ + framing + " The litter's other members, by name: "@, names, framing);
    text::lemma_has_left(who + " said to the litter:\n\""@ + body + "\"\n\n"@ + framing + " The litter's other members, by name: "@ + names, ".\n\n"@, framing);
    text::lemma_has_left(who + " said to the litter:\n\""@ + body + "\"\n\n"@ + framing + " The litter's other members, by name: "@ + names + ".\n\n"@, ack, framing);
    text::lemma_has_left(who + " said to the litter:\n\""@ + body + "\"\n\n"@ + framing + " The litter's other members, by name: "@ + names + ".\n\n"@ + ack, otr, framing);
    text::lemma_has_self(ack);
    text::lemma_has_right(who + " said to the litter:\n\""@ + body + "\"\n\n"@ + framing + " The litter's other members, by name: "@ + names + ".\n\n"@, ack, ack);
    text::lemma_has_left(who + " said to the litter:\n\""@ + body + "\"\n\n"@ + framing + " The litter's other members, by name: "@ + names + ".\n\n"@ + ack, otr, ack);
    text::lemma_has_self(otr);
    text::lemma_has_right(who + " said to the litter:\n\""@ + body + "\"\n\n"@ + framing + " The litter's other members, by name: "@ + names + ".\n\n"@ + ack, otr, otr);
    assert(told.subrange(0, who.len() as int) =~= who);
}

/// What the leader is told to do next names the task and carries the question
/// where there is one to answer; each directive tells its own.
pub proof fn a_directive_is_told(
    eff: Json,
    question: Seq<char>,
    me: Seq<char>,
    roster: Seq<(Seq<char>, Seq<u8>)>,
    rows: Seq<Json>,
    words: u64,
    pages: u64,
)
    requires
        json::text_at(eff, "t"@) == Some("directed"@),
        json::text_at(eff, "directive"@) is Some,
        json::text_at(eff, "task"@) is Some,
    ensures
        ({
            let d = json::text_at(eff, "directive"@)->0;
            let task = json::text_at(eff, "task"@)->0;
            match asked(eff, question, me, roster, rows, words, pages) {
                Some((told, kind)) => {
                    &&& kind == "task"@
                    &&& text::has(told, task)
                    &&& d == "PlanNeeded"@ || d == "ClearanceNeeded"@ || d == "ArtifactNeeded"@
                        ==> text::has(told, question)
                    &&& d == "PlanNeeded"@ ==> text::starts(told, "[plan-needed: "@ + task + "]"@)
                        && text::has(told, workers(roster))
                    &&& d == "ClearanceNeeded"@ ==> text::starts(
                        told,
                        "[clearance-needed: "@ + task + "]"@,
                    )
                    &&& d == "ArtifactNeeded"@ ==> text::starts(
                        told,
                        "[artifact-needed: "@ + task + "]"@,
                    ) && text::has(told, text::dec(words as nat))
                    &&& d == "ReassignNeeded"@ ==> text::starts(
                        told,
                        "[reassign-needed: "@ + task + "]"@,
                    ) && text::has(told, workers(roster))
                    &&& d == "PlanNeeded"@ || d == "ClearanceNeeded"@ || d == "ArtifactNeeded"@ || d
                        == "ReassignNeeded"@
                },
                None => d != "PlanNeeded"@ && d != "ClearanceNeeded"@ && d != "ArtifactNeeded"@ && d
                    != "ReassignNeeded"@,
            }
        }),
{
    lemma_events_differ();
    let d = json::text_at(eff, "directive"@)->0;
    let task = json::text_at(eff, "task"@)->0;
    if d == "PlanNeeded"@ {
        lemma_plan_tells(task, question, roster);
    } else if d == "ClearanceNeeded"@ {
        lemma_clearance_tells(task, question, roster, rows);
    } else if d == "ArtifactNeeded"@ {
        lemma_artifact_tells(task, question, words, pages);
    } else if d == "ReassignNeeded"@ {
        lemma_reassign_tells(task, roster);
    }
}

proof fn lemma_opens(mark: Seq<char>, task: Seq<char>, tail: Seq<char>, rest: Seq<char>, told: Seq<char>)
    requires
        told == mark + task + tail + rest,
        text::starts(tail, "]"@),
    ensures
        text::starts(told, mark + task + "]"@),
{
    let head = mark + task + "]"@;
    assert(tail.subrange(0, "]"@.len() as int) == "]"@);
    assert(told.subrange(0, head.len() as int) =~= mark + task + tail.subrange(
        0,
        "]"@.len() as int,
    ));
}

proof fn lemma_plan_tells(
    task: Seq<char>,
    question: Seq<char>,
    roster: Seq<(Seq<char>, Seq<u8>)>,
)
    ensures
        text::has(plan_text(task, question, roster), task),
        text::has(plan_text(task, question, roster), question),
        text::has(plan_text(task, question, roster), workers(roster)),
        text::starts(plan_text(task, question, roster), "[plan-needed: "@ + task + "]"@),
{
    let w = workers(roster);
    text::lemma_has_self(task);
    text::lemma_has_right("[plan-needed: "@, task, task);
    text::lemma_has_left("[plan-needed: "@ + task, "]\nThe operator asked:\n"@, task);
    text::lemma_has_left("[plan-needed: "@ + task + "]\nThe operator asked:\n"@, question, task);
    text::lemma_has_left("[plan-needed: "@ + task + "]\nThe operator asked:\n"@ + question, "\n\nCall TaskPlan on "@, task);
    text::lemma_has_left("[plan-needed: "@ + task + "]\nThe operator asked:\n"@ + question + "\n\nCall TaskPlan on "@, task, task);
    text::lemma_has_left("[plan-needed: "@ + task + "]\nThe operator asked:\n"@ + question + "\n\nCall TaskPlan on "@ + task, " now. One assignment each to: "@, task);
    text::lemma_has_left("[plan-needed: "@ + task + "]\nThe operator asked:\n"@ + question + "\n\nCall TaskPlan on "@ + task + " now. One assignment each to: "@, w, task);
    text::lemma_has_left("[plan-needed: "@ + task + "]\nThe operator asked:\n"@ + question + "\n\nCall TaskPlan on "@ + task + " now. One assignment each to: "@ + w, ". All in ONE call."@, task);
    text::lemma_has_self(question);
    text::lemma_has_right("[plan-needed: "@ + task + "]\nThe operator asked:\n"@, question, question);
    text::lemma_has_left("[plan-needed: "@ + task + "]\nThe operator asked:\n"@ + question, "\n\nCall TaskPlan on "@, question);
    text::lemma_has_left("[plan-needed: "@ + task + "]\nThe operator asked:\n"@ + question + "\n\nCall TaskPlan on "@, task, question);
    text::lemma_has_left("[plan-needed: "@ + task + "]\nThe operator asked:\n"@ + question + "\n\nCall TaskPlan on "@ + task, " now. One assignment each to: "@, question);
    text::lemma_has_left("[plan-needed: "@ + task + "]\nThe operator asked:\n"@ + question + "\n\nCall TaskPlan on "@ + task + " now. One assignment each to: "@, w, question);
    text::lemma_has_left("[plan-needed: "@ + task + "]\nThe operator asked:\n"@ + question + "\n\nCall TaskPlan on "@ + task + " now. One assignment each to: "@ + w, ". All in ONE call."@, question);
    text::lemma_has_self(w);
    text::lemma_has_right("[plan-needed: "@ + task + "]\nThe operator asked:\n"@ + question + "\n\nCall TaskPlan on "@ + task + " now. One assignment each to: "@, w, w);
    text::lemma_has_left("[plan-needed: "@ + task + "]\nThe operator asked:\n"@ + question + "\n\nCall TaskPlan on "@ + task + " now. One assignment each to: "@ + w, ". All in ONE call."@, w);
    reveal_strlit("]");
    reveal_strlit("]\nThe operator asked:\n");
    assert("]\nThe operator asked:\n"@.subrange(0, 1) =~= "]"@);
    let rest = question + "\n\nCall TaskPlan on "@ + task + " now. One assignment each to: "@ + w
        + ". All in ONE call."@;
    let told = plan_text(task, question, roster);
    assert(told =~= "[plan-needed: "@ + task + "]\nThe operator asked:\n"@ + rest);
    lemma_opens("[plan-needed: "@, task, "]\nThe operator asked:\n"@, rest, told);
}

proof fn lemma_reassign_tells(task: Seq<char>, roster: Seq<(Seq<char>, Seq<u8>)>)
    ensures
        text::has(reassign_text(task, roster), task),
        text::has(reassign_text(task, roster), workers(roster)),
        text::starts(reassign_text(task, roster), "[reassign-needed: "@ + task + "]"@),
{
    let w = workers(roster);
    let tail = "]\nA sub-task has been offered repeatedly and never claimed — that cat cannot do it. Call TaskReassign to move it to another cat. The litter is: "@;
    text::lemma_has_self(task);
    text::lemma_has_right("[reassign-needed: "@, task, task);
    text::lemma_has_left("[reassign-needed: "@ + task, tail, task);
    text::lemma_has_left("[reassign-needed: "@ + task + tail, w, task);
    text::lemma_has_self(w);
    text::lemma_has_right("[reassign-needed: "@ + task + tail, w, w);
    reveal_strlit("]");
    reveal_strlit(
        "]\nA sub-task has been offered repeatedly and never claimed — that cat cannot do it. Call TaskReassign to move it to another cat. The litter is: ",
    );
    assert(tail.subrange(0, 1) =~= "]"@);
    let told = reassign_text(task, roster);
    lemma_opens("[reassign-needed: "@, task, tail, w, told);
}

proof fn lemma_artifact_tells(task: Seq<char>, question: Seq<char>, words: u64, pages: u64)
    ensures
        text::has(artifact_text(task, question, words, pages), task),
        text::has(artifact_text(task, question, words, pages), question),
        text::has(artifact_text(task, question, words, pages), text::dec(words as nat)),
        text::starts(
            artifact_text(task, question, words, pages),
            "[artifact-needed: "@ + task + "]"@,
        ),
{
    let a = "]\nTHE QUESTION YOU MUST ANSWER:\n"@;
    let b = "\n\nEvery sub-task is cleared. Call TaskUpdate with task="@;
    let c = ", status=artifact, and text set to the final report in markdown. The '# ' heading must restate the question, and the report must answer it. Keep it under "@;
    let d = " words — about "@;
    let e = " pages; anything longer is refused."@;
    let w = text::dec(words as nat);
    let p = text::dec(pages as nat);
    text::lemma_has_self(task);
    text::lemma_has_right("[artifact-needed: "@, task, task);
    text::lemma_has_left("[artifact-needed: "@ + task, a, task);
    text::lemma_has_left("[artifact-needed: "@ + task + a, question, task);
    text::lemma_has_left("[artifact-needed: "@ + task + a + question, b, task);
    text::lemma_has_left("[artifact-needed: "@ + task + a + question + b, task, task);
    text::lemma_has_left("[artifact-needed: "@ + task + a + question + b + task, c, task);
    text::lemma_has_left("[artifact-needed: "@ + task + a + question + b + task + c, w, task);
    text::lemma_has_left("[artifact-needed: "@ + task + a + question + b + task + c + w, d, task);
    text::lemma_has_left("[artifact-needed: "@ + task + a + question + b + task + c + w + d, p, task);
    text::lemma_has_left("[artifact-needed: "@ + task + a + question + b + task + c + w + d + p, e, task);
    text::lemma_has_self(question);
    text::lemma_has_right("[artifact-needed: "@ + task + a, question, question);
    text::lemma_has_left("[artifact-needed: "@ + task + a + question, b, question);
    text::lemma_has_left("[artifact-needed: "@ + task + a + question + b, task, question);
    text::lemma_has_left("[artifact-needed: "@ + task + a + question + b + task, c, question);
    text::lemma_has_left("[artifact-needed: "@ + task + a + question + b + task + c, w, question);
    text::lemma_has_left("[artifact-needed: "@ + task + a + question + b + task + c + w, d, question);
    text::lemma_has_left("[artifact-needed: "@ + task + a + question + b + task + c + w + d, p, question);
    text::lemma_has_left("[artifact-needed: "@ + task + a + question + b + task + c + w + d + p, e, question);
    text::lemma_has_self(w);
    text::lemma_has_right("[artifact-needed: "@ + task + a + question + b + task + c, w, w);
    text::lemma_has_left("[artifact-needed: "@ + task + a + question + b + task + c + w, d, w);
    text::lemma_has_left("[artifact-needed: "@ + task + a + question + b + task + c + w + d, p, w);
    text::lemma_has_left("[artifact-needed: "@ + task + a + question + b + task + c + w + d + p, e, w);
    reveal_strlit("]");
    reveal_strlit("]\nTHE QUESTION YOU MUST ANSWER:\n");
    assert(a.subrange(0, 1) =~= "]"@);
    let rest = question + b + task + c + w + d + p + e;
    let told = artifact_text(task, question, words, pages);
    assert(told =~= "[artifact-needed: "@ + task + a + rest);
    lemma_opens("[artifact-needed: "@, task, a, rest, told);
}

/// How the parts that wait for the leader are listed.
pub open spec fn waiting_list(
    task: Seq<char>,
    roster: Seq<(Seq<char>, Seq<u8>)>,
    rows: Seq<Json>,
) -> Seq<char> {
    let lines = awaiting_lines(rows, task, roster);
    if lines.len() == 0 {
        "(none outstanding right now — check /tasks before acting)"@
    } else {
        text::joined(lines, "\n"@)
    }
}

proof fn lemma_clearance_tells(
    task: Seq<char>,
    question: Seq<char>,
    roster: Seq<(Seq<char>, Seq<u8>)>,
    rows: Seq<Json>,
)
    ensures
        text::has(clearance_text(task, question, roster, rows), task),
        text::has(clearance_text(task, question, roster, rows), question),
        text::has(
            clearance_text(task, question, roster, rows),
            waiting_list(task, roster, rows),
        ),
        text::starts(
            clearance_text(task, question, roster, rows),
            "[clearance-needed: "@ + task + "]"@,
        ),
{
    let list = waiting_list(task, roster, rows);
    let a = "]\nThe question: "@;
    let b = "\n\nSub-tasks awaiting your decision:\n"@;
    let c = "\n\nFor EACH one listed above, call TaskUpdate using ITS OWN id shown above (never "@;
    let d = ", the parent) with status=clear if it helps answer the question, or status=reopen (with text saying why not) if it doesn't."@;
    text::lemma_has_self(task);
    text::lemma_has_right("[clearance-needed: "@, task, task);
    text::lemma_has_left("[clearance-needed: "@ + task, a, task);
    text::lemma_has_left("[clearance-needed: "@ + task + a, question, task);
    text::lemma_has_left("[clearance-needed: "@ + task + a + question, b, task);
    text::lemma_has_left("[clearance-needed: "@ + task + a + question + b, list, task);
    text::lemma_has_left("[clearance-needed: "@ + task + a + question + b + list, c, task);
    text::lemma_has_left("[clearance-needed: "@ + task + a + question + b + list + c, task, task);
    text::lemma_has_left("[clearance-needed: "@ + task + a + question + b + list + c + task, d, task);
    text::lemma_has_self(question);
    text::lemma_has_right("[clearance-needed: "@ + task + a, question, question);
    text::lemma_has_left("[clearance-needed: "@ + task + a + question, b, question);
    text::lemma_has_left("[clearance-needed: "@ + task + a + question + b, list, question);
    text::lemma_has_left("[clearance-needed: "@ + task + a + question + b + list, c, question);
    text::lemma_has_left("[clearance-needed: "@ + task + a + question + b + list + c, task, question);
    text::lemma_has_left("[clearance-needed: "@ + task + a + question + b + list + c + task, d, question);
    text::lemma_has_self(list);
    text::lemma_has_right("[clearance-needed: "@ + task + a + question + b, list, list);
    text::lemma_has_left("[clearance-needed: "@ + task + a + question + b + list, c, list);
    text::lemma_has_left("[clearance-needed: "@ + task + a + question + b + list + c, task, list);
    text::lemma_has_left("[clearance-needed: "@ + task + a + question + b + list + c + task, d, list);
    reveal_strlit("]");
    reveal_strlit("]\nThe question: ");
    assert(a.subrange(0, 1) =~= "]"@);
    let rest = question + b + list + c + task + d;
    let told = clearance_text(task, question, roster, rows);
    assert(told =~= "[clearance-needed: "@ + task + a + rest);
    lemma_opens("[clearance-needed: "@, task, a, rest, told);
}

proof fn lemma_awaiting(
    rows: Seq<Json>,
    task: Seq<char>,
    roster: Seq<(Seq<char>, Seq<u8>)>,
    i: int,
) -> (k: int)
    requires
        0 <= i < rows.len(),
        awaits(rows[i], task),
    ensures
        0 <= k < awaiting_lines(rows, task, roster).len(),
        awaiting_lines(rows, task, roster)[k] == awaiting_line(rows[i], roster),
    decreases rows.len(),
{
    let front = rows.drop_last();
    let before = awaiting_lines(front, task, roster);
    if i < front.len() {
        assert(front[i] == rows[i]);
        lemma_awaiting(front, task, roster, i)
    } else {
        before.len() as int
    }
}

/// Every part that waits for the leader's decision is listed for it, by its own
/// id and with what it came to, cut only where that is long.
pub proof fn every_waiting_part_is_listed(
    eff: Json,
    question: Seq<char>,
    me: Seq<char>,
    roster: Seq<(Seq<char>, Seq<u8>)>,
    rows: Seq<Json>,
    words: u64,
    pages: u64,
    i: int,
)
    requires
        json::text_at(eff, "t"@) == Some("directed"@),
        json::text_at(eff, "directive"@) == Some("ClearanceNeeded"@),
        json::text_at(eff, "task"@) is Some,
        0 <= i < rows.len(),
        json::text_at(rows[i], "status"@) == Some("AwaitingClearance"@),
        json::text_at(rows[i], "id"@) matches Some(id) && text::starts(
            id,
            json::text_at(eff, "task"@)->0 + "."@,
        ),
    ensures
        asked(eff, question, me, roster, rows, words, pages) matches Some((told, kind)) && {
            &&& text::has(told, json::text_at(rows[i], "id"@)->0)
            &&& json::at(rows[i], "outcome"@) matches Some(o) ==> (match (
                json::text_at(o, "kind"@),
                json::text_at(o, "text"@),
            ) {
                (Some(came), Some(t)) => t.len() <= 600 ==> text::has(told, t),
                _ => true,
            })
        },
{
    lemma_events_differ();
    let task = json::text_at(eff, "task"@)->0;
    let told = clearance_text(task, question, roster, rows);
    lemma_clearance_tells(task, question, roster, rows);
    let k = lemma_awaiting(rows, task, roster, i);
    let lines = awaiting_lines(rows, task, roster);
    text::lemma_has_part(lines, "\n"@, k);
    let row = rows[i];
    let id = json::text_at(row, "id"@)->0;
    let (kind, t) = outcome_of(row);
    let who = named_or(json::text_at(row, "holder"@), roster, "someone"@);
    let cut = outcome_cut(t);
    let line = awaiting_line(row, roster);
    text::lemma_has_self(id);
    text::lemma_has_right("- "@, id, id);
    text::lemma_has_left("- "@ + id, " ("@, id);
    text::lemma_has_left("- "@ + id + " ("@, who, id);
    text::lemma_has_left("- "@ + id + " ("@ + who, ", "@, id);
    text::lemma_has_left("- "@ + id + " ("@ + who + ", "@, kind, id);
    text::lemma_has_left("- "@ + id + " ("@ + who + ", "@ + kind, "): "@, id);
    text::lemma_has_left("- "@ + id + " ("@ + who + ", "@ + kind + "): "@, cut, id);
    text::lemma_has_self(cut);
    text::lemma_has_right("- "@ + id + " ("@ + who + ", "@ + kind + "): "@, cut, cut);
    text::lemma_has_through(told, waiting_list(task, roster, rows), line);
    text::lemma_has_through(told, line, id);
    text::lemma_has_through(told, line, cut);
}

// ---------------------------------------------------------------------
// Who takes a turn, and for what
// ---------------------------------------------------------------------

/// A cat takes a turn for what the log says wakes it, by name or as one of all,
/// but not for its own broadcast and not for a closing remark; and for nothing
/// else.
pub proof fn a_cat_wakes_for_what_names_it(e: Entry, me: Seq<char>)
    ensures
        ({
            let closing = json::text_at(e.effect, "t"@) == Some("said"@) && json::flag_at(
                e.effect,
                "no_ack"@,
            );
            &&& closing ==> !wakes_me(e, me)
            &&& e.wakes is None ==> !wakes_me(e, me)
            &&& (e.wakes matches Some(w) && w@ == me) && !closing ==> wakes_me(e, me)
            &&& (e.wakes matches Some(w) && w@ == "*"@) && !closing && json::text_at(
                e.effect,
                "from"@,
            ) != Some(me) ==> wakes_me(e, me)
            &&& (e.wakes matches Some(w) && w@ != me && w@ != "*"@) ==> !wakes_me(e, me)
            &&& (e.wakes matches Some(w) && w@ != me) && json::text_at(e.effect, "from"@) == Some(
                me,
            ) ==> !wakes_me(e, me)
        }),
{
}

/// What whoever the chain names is woken for is a turn of that cat's, and of no
/// other's: an entry that carries one account wakes the cat that has it.
pub proof fn the_cat_named_is_the_cat_woken(
    e: Effect,
    j: Json,
    to: Account,
    entry: Entry,
    other: Seq<u8>,
)
    requires
        json::tree(j) == effects::effect_tree(e),
        entry.effect == j,
        text::text_view(entry.wakes) == effects::woken(e, true, Some(to)),
        !(e matches Effect::Said { no_ack, .. } && no_ack),
        !(e matches Effect::Message { no_ack, .. } && no_ack),
        !(json::text_at(j, "t"@) == Some("said"@) && json::flag_at(j, "no_ack"@)),
        other != to@,
    ensures
        wakes_me(entry, keys::hexed(to@)),
        !wakes_me(entry, keys::hexed(other)),
{
    effects::whom_the_chain_names_is_woken(e, true, Some(to));
    keys::hex_reads_back(to@);
    keys::hex_reads_back(other);
    reveal_strlit("*");
    assert(keys::hexed(to@).len() == 64);
}

/// The litter works on what the operator opened last; before anything is opened,
/// on the first thing the operator said.
pub proof fn the_question_is_the_operators(q: Seq<char>, eff: Json)
    ensures
        json::text_at(eff, "t"@) == Some("opened"@) ==> subject(q, eff) == json::words_at(
            eff,
            "text"@,
        ),
        json::text_at(eff, "t"@) == Some("said"@) && json::flag_at(eff, "root"@) && q.len() == 0
            ==> subject(q, eff) == json::words_at(eff, "body"@),
        json::text_at(eff, "t"@) == Some("said"@) && (q.len() > 0 || !json::flag_at(eff, "root"@))
            ==> subject(q, eff) == q,
        json::text_at(eff, "t"@) != Some("opened"@) && json::text_at(eff, "t"@) != Some("said"@)
            ==> subject(q, eff) == q,
{
    reveal_strlit("opened");
    reveal_strlit("said");
    assert("opened"@.len() == 6 && "said"@.len() == 4);
}

/// Nothing that was not handled is passed over: each number among the entries is
/// given out, unless it was handled before, and what is given out is among them,
/// in their order.
pub proof fn nothing_unhandled_is_passed_over(
    v: Seq<Entry>,
    idx: Seq<int>,
    seen: Seq<u64>,
    i: int,
)
    requires
        0 <= i < idx.len(),
        !seen.contains(v[idx[i]].seq),
    ensures
        exists|k: int|
            0 <= k < unseen(v, idx, seen).0.len() && v[#[trigger] unseen(v, idx, seen).0[k]].seq
                == v[idx[i]].seq,
        forall|k: int|
            0 <= k < unseen(v, idx, seen).0.len() ==> idx.contains(
                #[trigger] unseen(v, idx, seen).0[k],
            ),
    decreases idx.len(),
{
    let front = idx.drop_last();
    let (was, known) = unseen(v, front, seen);
    let (out, _after) = unseen(v, idx, seen);
    let n = idx.last();
    lemma_unseen_from(v, idx, seen);
    if i < front.len() {
        assert(front[i] == idx[i]);
        nothing_unhandled_is_passed_over(v, front, seen, i);
        let k = choose|k: int| 0 <= k < was.len() && v[#[trigger] was[k]].seq == v[idx[i]].seq;
        assert(out[k] == was[k]);
    } else if known.contains(v[n].seq) {
        lemma_known_from(v, front, seen, v[n].seq);
        let k = choose|k: int| 0 <= k < was.len() && v[#[trigger] was[k]].seq == v[n].seq;
        assert(out[k] == was[k]);
    } else {
        assert(out[was.len() as int] == n);
    }
}

proof fn lemma_unseen_from(v: Seq<Entry>, idx: Seq<int>, seen: Seq<u64>)
    ensures
        forall|k: int|
            0 <= k < unseen(v, idx, seen).0.len() ==> idx.contains(
                #[trigger] unseen(v, idx, seen).0[k],
            ),
    decreases idx.len(),
{
    if idx.len() > 0 {
        let front = idx.drop_last();
        lemma_unseen_from(v, front, seen);
        let was = unseen(v, front, seen).0;
        let out = unseen(v, idx, seen).0;
        assert forall|k: int| 0 <= k < out.len() implies idx.contains(#[trigger] out[k]) by {
            if k < was.len() {
                assert(out[k] == was[k]);
                assert(front.contains(was[k]));
                let j = choose|j: int| 0 <= j < front.len() && front[j] == was[k];
                assert(idx[j] == out[k]);
            } else {
                assert(idx[idx.len() - 1] == out[k]);
            }
        }
    }
}

proof fn lemma_known_from(v: Seq<Entry>, idx: Seq<int>, seen: Seq<u64>, n: u64)
    requires
        unseen(v, idx, seen).1.contains(n),
        !seen.contains(n),
    ensures
        exists|k: int|
            0 <= k < unseen(v, idx, seen).0.len() && v[#[trigger] unseen(v, idx, seen).0[k]].seq
                == n,
    decreases idx.len(),
{
    if idx.len() > 0 {
        let front = idx.drop_last();
        let (was, known) = unseen(v, front, seen);
        let (out, after) = unseen(v, idx, seen);
        if known.contains(n) {
            lemma_known_from(v, front, seen, n);
            let k = choose|k: int| 0 <= k < was.len() && v[#[trigger] was[k]].seq == n;
            assert(out[k] == was[k]);
        } else {
            let j = choose|j: int| 0 <= j < after.len() && after[j] == n;
            if j < known.len() {
                assert(known[j] == n);
            }
            assert(out[was.len() as int] == idx.last());
        }
    }
}

/// Spoken to, a cat always answers: its plain words go back, whole, to whoever
/// spoke, unless silence was asked for; and to nobody where nobody spoke.
pub proof fn plain_words_go_back_to_whoever_spoke(
    said: Seq<char>,
    ctx: Json,
    roster: Seq<(Seq<char>, Seq<u8>)>,
)
    ensures
        json::text_at(ctx, "t"@) == Some("said"@) && !json::flag_at(ctx, "no_ack"@) ==> (spoken(
            said,
            ctx,
            roster,
        ) matches SpokenView::Send { call, arg } && call matches ChainView::Say {
            to,
            body,
            no_ack,
            off_record,
        } && {
            &&& body == said
            &&& no_ack
            &&& off_record == json::flag_at(ctx, "off_record"@)
            &&& json::text_at(ctx, "from"@) matches Some(h) ==> to == keys::account_in(h)
            &&& json::text_at(ctx, "from"@) is None ==> to is None
        }),
        json::text_at(ctx, "t"@) != Some("said"@) ==> spoken(said, ctx, roster) is Note,
{
}

/// A write that was taken is done with; one that may pass another time is tried
/// again, each time after twice the wait; any other refusal is final, and told.
pub proof fn what_may_pass_is_tried_again(name: Seq<char>, attempt: u32, heard: Heard)
    requires
        attempt < 4,
    ensures
        heard is Accepted <==> follows(name, attempt, heard) is Sent,
        (heard is NoMeta || heard is Unreachable) && attempt < 3 ==> (follows(
            name,
            attempt,
            heard,
        ) matches ThenView::Again { wait_ms, note } && wait_ms == (if attempt == 0 {
            1000
        } else if attempt == 1 {
            2000
        } else {
            4000int
        })),
        (heard is NoMeta || heard is Unreachable) && attempt == 3 ==> follows(
            name,
            attempt,
            heard,
        ) is GaveUp,
        heard matches Heard::Refused(e) ==> ({
            let why = refusal_text(e);
            let odd = text::has(why, "Stale"@) || text::has(why, "Future"@);
            &&& odd && attempt < 3 ==> follows(name, attempt, heard) is Again
            &&& odd && attempt == 3 ==> follows(name, attempt, heard) is GaveUp
            &&& !odd ==> follows(name, attempt, heard) == ThenView::Refused("refused: "@ + why)
        }),
        heard matches Heard::Refused(e) ==> (json::at(e, "error"@) matches Some(v) ==> refusal_text(
            e,
        ) == json::printed(v)),
{
}

/// A cat goes on from where it was under the same checkpoint, and from the
/// beginning under another.
pub proof fn a_session_is_resumed_under_its_own_checkpoint(saved: Option<Session>, epoch: u64)
    ensures
        resumed(saved, epoch).epoch == epoch,
        (saved matches Some(s) && s.epoch == epoch) ==> resumed(saved, epoch).cursor
            == saved->0.cursor && resumed(saved, epoch).question == saved->0.question@,
        !(saved matches Some(s) && s.epoch == epoch) ==> resumed(saved, epoch).cursor == 0
            && resumed(saved, epoch).question.len() == 0,
{
    reveal_strlit("");
}

/// A checkpoint that moved ends the session, and says from where to where; one
/// that did not, and no news of any, ends nothing.
pub proof fn only_another_checkpoint_ends_a_session(epoch: u64, checkpoint: Option<u64>)
    ensures
        reset_text(epoch, checkpoint) is Some <==> (checkpoint matches Some(ep) && ep != epoch),
        (checkpoint matches Some(ep) && ep != epoch) ==> text::has(
            reset_text(epoch, checkpoint)->0,
            text::dec(checkpoint->0 as nat),
        ),
{
    if checkpoint is Some {
        let a = text::dec(epoch as nat);
        let b = text::dec(checkpoint->0 as nat);
        text::lemma_has_self(b);
        text::lemma_has_right("chain checkpoint moved ("@ + a + " -> "@, b, b);
        text::lemma_has_left("chain checkpoint moved ("@ + a + " -> "@ + b, ")"@, b);
    }
}

// ---------------------------------------------------------------------
// What a read answers
// ---------------------------------------------------------------------

/// A list of artifacts has one line for each, in the node's order, by its id and
/// its title, and says how many there are.
pub proof fn every_artifact_is_listed(rows: Seq<Json>, roster: Seq<(Seq<char>, Seq<u8>)>, i: int)
    requires
        0 <= i < rows.len(),
    ensures
        artifacts_answer(rows, roster).ok,
        artifacts_answer(rows, roster).meta == seq![text::dec(rows.len()) + " artifacts"@],
        artifact_lines(rows, roster).len() == rows.len(),
        artifacts_answer(rows, roster).body == text::joined(artifact_lines(rows, roster), "\n"@),
        text::has(artifact_lines(rows, roster)[i], json::words_at(rows[i], "title"@)),
        json::text_at(rows[i], "id"@) matches Some(id) ==> text::starts(
            artifact_lines(rows, roster)[i],
            id,
        ),
{
    let id = scroll::text_or(rows[i], "id"@, "?"@);
    let title = json::words_at(rows[i], "title"@);
    let who = named_or(json::text_at(rows[i], "author"@), roster, "someone"@);
    text::lemma_has_self(title);
    text::lemma_has_right(id + ": "@, title, title);
    text::lemma_has_left(id + ": "@ + title, " ("@, title);
    text::lemma_has_left(id + ": "@ + title + " ("@, who, title);
    text::lemma_has_left(id + ": "@ + title + " ("@ + who, ")"@, title);
    assert(artifact_line(rows[i], roster).subrange(0, id.len() as int) =~= id);
    assert(artifacts_answer(rows, roster).meta =~= seq![text::dec(rows.len()) + " artifacts"@]);
}

/// An artifact that is there is read whole, under the id it was asked by; one
/// that is not is said not to be.
pub proof fn an_artifact_is_read_whole(id: Seq<char>, v: Json)
    ensures
        artifact_answer(id, v).arg == id,
        artifact_answer(id, v).ok == json::flag_at(v, "found"@),
        json::flag_at(v, "found"@) ==> artifact_answer(id, v).body == json::words_at(v, "body"@),
        !json::flag_at(v, "found"@) ==> artifact_answer(id, v).body.len() == 0 && artifact_answer(
            id,
            v,
        ).meta == seq!["no such artifact"@],
{
    if !json::flag_at(v, "found"@) {
        assert(artifact_answer(id, v).meta =~= seq!["no such artifact"@]);
    }
}

/// A read that failed is told as what it was, with the reason whole.
pub proof fn a_failed_read_tells_why(id: Seq<char>, reached: bool, why: Seq<char>)
    ensures
        !failed_answer(id, reached, why).ok,
        failed_answer(id, reached, why).arg == id,
        failed_answer(id, reached, why).body == why,
        failed_answer(id, reached, why).meta == seq![
            if reached {
                "bad response"@
            } else {
                "node unreachable"@
            },
        ],
{
    assert(failed_answer(id, reached, why).meta =~= seq![
        if reached {
            "bad response"@
        } else {
            "node unreachable"@
        },
    ]);
}

/// Where an artifact is read: a closed task's report by the task's id, any other
/// by its own, and the id as it was given.
pub proof fn artifacts_are_read_by_their_kind(id: Seq<char>)
    ensures
        ({
            let s = text::trimmed_start(id);
            &&& s.len() > 0 && (s[0] == 't' || s[0] == 'T') ==> artifact_path_text(id)
                == "/artifact/"@ + id
            &&& !(s.len() > 0 && (s[0] == 't' || s[0] == 'T')) ==> artifact_path_text(id)
                == "/note/"@ + id
        }),
        query_place("ArtifactRead"@, id) == Some(artifact_path_text(id)),
        query_place("ArtifactList"@, id) == Some("/artifacts"@),
        query_place("Peers"@, id) == Some("/mesh/peers"@),
        query_place("Stats"@, id) == Some("/stats"@),
        forall|name: Seq<char>|
            (#[trigger] query_place(name, id)) is Some <==> name == "ArtifactRead"@ || name
                == "ArtifactList"@ || name == "Peers"@ || name == "Stats"@,
{
    reveal_strlit("ArtifactRead");
    reveal_strlit("ArtifactList");
    reveal_strlit("Peers");
    reveal_strlit("Stats");
    assert("ArtifactRead"@.len() == 12);
    assert("ArtifactList"@.len() == 12);
    assert("Peers"@.len() == 5);
    assert("Stats"@.len() == 5);
    assert("ArtifactList"@[8] == 'L');
    assert("ArtifactRead"@[8] == 'R');
    assert("Peers"@[0] == 'P');
    assert("Stats"@[0] == 'S');
}

/// The mesh is told whole: the cat itself first, then every peer it calls, then
/// every one that calls it, and the roster last.
pub proof fn the_mesh_is_told_whole(
    me: Seq<char>,
    roster: Seq<(Seq<char>, Seq<u8>)>,
    v: Json,
    i: int,
)
    ensures
        ({
            let lines = peer_lines(me, roster, v);
            let called = json::items_at(v, "peers"@);
            let calling = json::items_at(v, "inbound"@);
            &&& lines.len() == 2 + called.len() + calling.len()
            &&& text::starts(lines[0], me)
            &&& 0 <= i < called.len() ==> lines[1 + i] == peer_line(called[i], roster)
            &&& 0 <= i < calling.len() ==> lines[1 + called.len() + i] == caller_line(
                calling[i],
                roster,
            )
            &&& text::has(lines.last(), text::joined(common::names_in(roster), ", "@))
            &&& peers_answer(me, roster, v).body == text::joined(lines, "\n"@)
            &&& peers_answer(me, roster, v).meta == seq![
                text::dec((1 + called.len() + calling.len()) as nat) + " live"@,
            ]
        }),
{
    let lines = peer_lines(me, roster, v);
    assert(lines[0].subrange(0, me.len() as int) =~= me);
    let names = text::joined(common::names_in(roster), ", "@);
    text::lemma_has_self(names);
    text::lemma_has_right("roster (configured, not all necessarily live): "@, names, names);
    assert(peers_answer(me, roster, v).meta =~= seq![
        text::dec((lines.len() - 1) as nat) + " live"@,
    ]);
}

/// A peer that answered is told by its name, its role and its address, and when
/// it was last seen; one that never did is told so.
pub proof fn a_peer_is_told_as_it_is(p: Json, roster: Seq<(Seq<char>, Seq<u8>)>)
    ensures
        !json::set_at(p, "status"@) ==> peer_line(p, roster) == scroll::text_or(
            p,
            "route"@,
            "?"@,
        ) + " — never answered"@,
        json::set_at(p, "status"@) ==> (json::at(p, "status"@) matches Some(status) && (
        json::text_at(status, "role"@) matches Some(role) ==> text::has(
            peer_line(p, roster),
            role,
        )) && (json::num_at(p, "seen_ms_ago"@) matches Some(ms) ==> text::has(
            peer_line(p, roster),
            text::dec(ms as nat),
        ))),
{
    if json::set_at(p, "status"@) {
        let status = json::at(p, "status"@)->0;
        let route = scroll::text_or(p, "route"@, "?"@);
        let name = named_or(json::text_at(status, "account"@), roster, route);
        let role = scroll::text_or(status, "role"@, "?"@);
        let place = bare_address(route);
        text::lemma_has_self(role);
        text::lemma_has_right(name + " — "@, role, role);
        text::lemma_has_left(name + " — "@ + role, ", at "@, role);
        text::lemma_has_left(name + " — "@ + role + ", at "@, place, role);
        let who = name + " — "@ + role + ", at "@ + place;
        if json::num_at(p, "seen_ms_ago"@) is Some {
            let ms = text::dec(json::num_at(p, "seen_ms_ago"@)->0 as nat);
            text::lemma_has_left(who, ", seen "@, role);
            text::lemma_has_left(who + ", seen "@, ms, role);
            text::lemma_has_left(who + ", seen "@ + ms, "ms ago"@, role);
            text::lemma_has_self(ms);
            text::lemma_has_right(who + ", seen "@, ms, ms);
            text::lemma_has_left(who + ", seen "@ + ms, "ms ago"@, ms);
        }
    }
}

// ---------------------------------------------------------------------
// What is told of the litter
// ---------------------------------------------------------------------

/// An outcome is told whole up to six hundred characters, and its front with a
/// mark where it is longer.
pub proof fn an_outcome_is_told_to_its_length(t: Seq<char>)
    ensures
        t.len() <= 600 ==> outcome_cut(t) == t,
        t.len() > 600 ==> outcome_cut(t) == t.take(600) + "…"@,
{
}

/// Every cat has its line in the stats, with its name and every figure.
pub proof fn every_cat_has_its_stats(
    rows: Seq<Json>,
    roster: Seq<(Seq<char>, Seq<u8>)>,
    i: int,
    k: int,
)
    requires
        0 <= i < rows.len(),
    ensures
        stats_answer(rows, roster).ok,
        stats_answer(rows, roster).meta == seq![text::dec(rows.len()) + " cats"@],
        text::has(
            stats_answer(rows, roster).body,
            named_or(json::text_at(rows[i], "account"@), roster, "someone"@),
        ),
        0 <= k < scroll::stats_parts(rows[i]).len() ==> text::has(
            stats_answer(rows, roster).body,
            scroll::stats_parts(rows[i])[k],
        ),
{
    let lines = stats_lines(rows, roster);
    let body = text::joined(lines, "\n"@);
    let a = named_or(json::text_at(rows[i], "account"@), roster, "someone"@);
    let b = " — "@;
    let c = text::joined(scroll::stats_parts(rows[i]), " · "@);
    text::lemma_has_part(lines, "\n"@, i);
    assert(lines[i] == a + b + c);
    text::lemma_has_self(a);
    text::lemma_has_left(a, b, a);
    text::lemma_has_left(a + b, c, a);
    text::lemma_has_through(body, a + b + c, a);
    if 0 <= k < scroll::stats_parts(rows[i]).len() {
        let p = scroll::stats_parts(rows[i])[k];
        text::lemma_has_part(scroll::stats_parts(rows[i]), " · "@, k);
        text::lemma_has_right(a + b, c, p);
        text::lemma_has_through(body, a + b + c, p);
    }
    assert(stats_answer(rows, roster).meta =~= seq![text::dec(rows.len()) + " cats"@]);
}

/// A try waits a second, two and four, each longer than the one before; the
/// fourth is the last.
pub proof fn each_try_waits_longer(name: Seq<char>, attempt: u32, last: Seq<char>)
    ensures
        backoff(0) == 1000 && backoff(1) == 2000 && backoff(2) == 4000,
        attempt < 3 ==> (try_again(name, attempt, last) matches ThenView::Again { wait_ms, note }
            && wait_ms == backoff(attempt) && text::ends(note, last) && text::starts(note, name)),
        3 <= attempt < u32::MAX ==> (try_again(name, attempt, last) matches ThenView::GaveUp(why)
            && text::ends(why, last)),
{
    match try_again(name, attempt, last) {
        ThenView::Again { wait_ms, note } => {
            assert(note.subrange(note.len() - last.len(), note.len() as int) =~= last);
            assert(note.subrange(0, name.len() as int) =~= name);
        },
        ThenView::GaveUp(why) => {
            assert(why.subrange(why.len() - last.len(), why.len() as int) =~= last);
        },
        _ => {},
    }
}

/// Where a write was asked off the record or without an answer, it is shown so.
pub proof fn the_flags_of_a_message_are_shown(no_ack: bool, off_record: bool)
    ensures
        no_ack ==> text::has(flags_text(no_ack, off_record), "no_ack"@),
        off_record ==> text::has(flags_text(no_ack, off_record), "off record"@),
        !no_ack && !off_record ==> flags_text(no_ack, off_record) == ""@,
{
    let n = "no_ack"@;
    let o = "off record"@;
    let both = "  (no_ack, off record)"@;
    let one = "  (no_ack)"@;
    let two = "  (off record)"@;
    reveal_strlit("no_ack");
    reveal_strlit("off record");
    reveal_strlit("  (no_ack, off record)");
    reveal_strlit("  (no_ack)");
    reveal_strlit("  (off record)");
    assert(both.subrange(3, 9) =~= n);
    assert(one.subrange(3, 9) =~= n);
    assert(both.subrange(11, 21) =~= o);
    assert(two.subrange(3, 13) =~= o);
    assert(text::occurs_at(both, n, 3) && text::occurs_at(one, n, 3));
    assert(text::occurs_at(both, o, 11) && text::occurs_at(two, o, 3));
}

/// An address is what follows its scheme, and itself where it has none.
pub proof fn an_address_is_bare_of_its_scheme(scheme: Seq<char>, rest: Seq<char>, s: Seq<char>)
    requires
        forall|i: int| i < scheme.len() ==> !#[trigger] text::occurs_at(scheme + "://"@ + rest, "://"@, i),
    ensures
        bare_address(scheme + "://"@ + rest) == rest,
        text::has(s, "://"@) == false ==> bare_address(s) == s,
{
    reveal_strlit("://");
    let w = scheme + "://"@ + rest;
    text::lemma_find_from(w, "://"@, 0);
    text::lemma_find_from(s, "://"@, 0);
    assert(w.subrange(scheme.len() as int, scheme.len() as int + 3) =~= "://"@);
    assert(text::occurs_at(w, "://"@, scheme.len() as int));
    assert(w.skip(scheme.len() as int + 3) =~= rest);
    match text::find_from(s, "://"@, 0) {
        Some(i) => {
            assert(text::occurs_at(s, "://"@, i as int));
        },
        None => {},
    }
}

/// The others are all but oneself, in order.
pub proof fn everyone_but_oneself_is_named(
    a: Seq<Seq<char>>,
    b: Seq<Seq<char>>,
    x: Seq<char>,
    not: Seq<char>,
)
    ensures
        others(a + b, not) == others(a, not) + others(b, not),
        others(seq![x], not) == (if x != not {
            seq![x]
        } else {
            Seq::<Seq<char>>::empty()
        }),
        others(Seq::<Seq<char>>::empty(), not).len() == 0,
    decreases b.len(),
{
    reveal_with_fuel(others, 2);
    assert(seq![x].drop_last() =~= Seq::<Seq<char>>::empty());
    assert(others(Seq::<Seq<char>>::empty(), not).len() == 0);
    if b.len() == 0 {
        assert(a + b =~= a);
        assert(others(a + b, not) =~= others(a, not) + others(b, not));
    } else {
        let all = a + b;
        assert(all.drop_last() =~= a + b.drop_last());
        assert(all.last() == b.last());
        everyone_but_oneself_is_named(a, b.drop_last(), x, not);
        assert(others(all, not) =~= others(a, not) + others(b, not));
    }
}

} // verus!
