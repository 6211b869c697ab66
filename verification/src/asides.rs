//! What the loop tells the operator about itself.

use crate::figures;
use crate::machine;
use crate::text;
use vstd::prelude::*;
use vstd::string::*;

verus! {

/// Where the transcript goes, or that there is none.
pub fn transcript_at(path: &str, open: bool) -> (r: String)
    ensures
        r@ == (if open {
            "transcript: "@ + path@
        } else {
            "transcript: can't open "@ + path@ + " — not writing one"@
        }),
{
    if open {
        "transcript: ".to_owned().concat(path)
    } else {
        "transcript: can't open ".to_owned().concat(path).concat(" — not writing one")
    }
}

/// The trace that the log of events begins, or that there is none.
pub fn langfuse_at(trace: &str, open: bool) -> (r: String)
    ensures
        r@ == (if open {
            "langfuse log: "@ + trace@
        } else {
            "langfuse log: can't open — not writing one"@
        }),
{
    if open {
        "langfuse log: ".to_owned().concat(trace)
    } else {
        "langfuse log: can't open — not writing one".to_owned()
    }
}

/// How much of an earlier conversation was taken up, and how much of it was of
/// an older form.
pub open spec fn restored_lines(messages: nat, trimmed: nat, path: Seq<char>) -> Seq<Seq<char>> {
    let first = "restored "@ + text::dec(messages) + " message(s) of conversation from "@ + path;
    if trimmed > 0 {
        seq![
            first,
            text::dec(trimmed)
                + " old-format message(s) had their tool results cut down to one line each"@,
        ]
    } else {
        seq![first]
    }
}

pub fn restored(messages: usize, trimmed: usize, path: &str) -> (out: Vec<String>)
    ensures
        text::texts(out@) == restored_lines(messages as nat, trimmed as nat, path@),
{
    let first = "restored ".to_owned().concat(text::number(messages as u64).as_str()).concat(
        " message(s) of conversation from ",
    ).concat(path);
    let mut out = text::none();
    text::put(&mut out, first.as_str());
    if trimmed > 0 {
        let second = text::number(trimmed as u64).concat(
            " old-format message(s) had their tool results cut down to one line each",
        );
        text::put(&mut out, second.as_str());
    }
    assert(text::texts(out@) =~= restored_lines(messages as nat, trimmed as nat, path@));
    out
}

pub fn new_session(why: &str) -> (r: String)
    ensures
        r@ == "new session — "@ + why@,
{
    "new session — ".to_owned().concat(why)
}

/// A result came back to a session that is over.
pub fn not_fed_back(tool: &str) -> (r: String)
    ensures
        r@ == tool@ + "'s result is from before the session reset — not fed back"@,
{
    tool.to_owned().concat("'s result is from before the session reset — not fed back")
}

/// A cat that sits on its own tasks is told so.
pub fn nudging(name: &str, idle_secs: u64) -> (r: String)
    ensures
        r@ == "nudging "@ + name@ + " on its open local tasks — idle "@ + figures::human_text(
            idle_secs as nat,
        ),
{
    "nudging ".to_owned().concat(name).concat(" on its open local tasks — idle ").concat(
        figures::human(idle_secs).as_str(),
    )
}

/// Notices that no turn is left for.
pub fn stalls_dropped(n: usize) -> (r: String)
    ensures
        r@ == text::dec(n as nat) + " stall notice(s) not given — follow-up turns used up"@,
{
    text::number(n as u64).concat(" stall notice(s) not given — follow-up turns used up")
}

/// Results that no turn is left for; they wait.
pub fn results_held(n: usize) -> (r: String)
    ensures
        r@ == text::dec(n as nat) + " result(s) held back — "@ + text::dec(
            machine::MAX_FOLLOWUPS as nat,
        ) + " follow-up turns in a row with nobody speaking; fed with the next message"@,
{
    text::number(n as u64).concat(" result(s) held back — ").concat(
        text::number(machine::MAX_FOLLOWUPS as u64).as_str(),
    ).concat(" follow-up turns in a row with nobody speaking; fed with the next message")
}

/// What was restored is told with how much of it there is and where from, and
/// that old lines were cut where any were.
pub proof fn what_was_restored_is_told(messages: nat, trimmed: nat, path: Seq<char>)
    ensures
        text::has(restored_lines(messages, trimmed, path)[0], text::dec(messages)),
        text::ends(restored_lines(messages, trimmed, path)[0], path),
        restored_lines(messages, trimmed, path).len() == (if trimmed > 0 {
            2int
        } else {
            1
        }),
        trimmed > 0 ==> text::starts(restored_lines(messages, trimmed, path)[1], text::dec(trimmed)),
{
    let a = "restored "@;
    let b = text::dec(messages);
    let c = " message(s) of conversation from "@;
    text::lemma_has_self(b);
    text::lemma_has_right(a, b, b);
    text::lemma_has_left(a + b, c, b);
    text::lemma_has_left(a + b + c, path, b);
    let f = a + b + c + path;
    assert(f.subrange(f.len() - path.len(), f.len() as int) =~= path);
    if trimmed > 0 {
        let d = text::dec(trimmed);
        let s = restored_lines(messages, trimmed, path)[1];
        assert(s.subrange(0, d.len() as int) =~= d);
    }
}

} // verus!
