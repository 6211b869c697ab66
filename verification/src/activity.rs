//! What a cat is doing right now: live, never on chain.
//!
//! One record per cat, rewritten by its agent loop at every step: which part
//! of the loop it is in, what woke it, which tool calls are in flight, how the
//! finished ones went, and the tail of its last reasoning.
//!
//! Every instant in a record is the cat's own clock (unix ms), and `at` is when
//! the record was made on that same clock, so `at - since` is free of skew. How
//! old the record itself is travels separately ([`Seen::age_ms`]). A reader
//! never compares a cat's clock with its own.

use crate::text;
use vstd::prelude::*;
use vstd::string::*;

verus! {

/// Most finished calls kept in [`Activity::recent`].
pub const RECENT: usize = 6;

/// Most of the last reasoning kept in [`Activity::thought`]: its tail, where
/// the model has got to.
pub const THOUGHT_CHARS: usize = 320;

/// Most of one call's argument kept.
pub const ARG_CHARS: usize = 80;

/// Most local tasks carried in one record.
pub const TASKS: usize = 24;

/// How much of each local task's text and note a record carries.
pub const TASK_CHARS: usize = 120;

/// One cat's live record.
#[derive(Clone, Debug, Default, PartialEq)]
pub struct Activity {
    pub name: String,
    pub model: String,
    /// `thinking` (a model call in flight), `compacting` (the same, for a
    /// summary), `waiting` (the model is done, tools still running), or
    /// `idle`.
    pub phase: String,
    /// When `phase` began.
    pub since: u64,
    /// What the current (or last) turn is about.
    pub why: String,
    /// Model turns this process has taken.
    pub turns: u32,
    /// Result-only turns in a row.
    pub followups: u32,
    /// Results held back past the follow-up cap, waiting for a wake.
    pub held: u32,
    pub running: Vec<Flight>,
    /// Finished calls this process, by outcome.
    pub ok: u32,
    pub failed: u32,
    /// The last [`RECENT`] finished calls, oldest first.
    pub recent: Vec<Finished>,
    /// The tail of the last turn's reasoning, if the model sent any.
    pub thought: String,
    /// The cat's own local task list, in id order.
    pub tasks: Vec<TaskLine>,
    /// Finished and all, over the whole list.
    pub tasks_finished: u32,
    pub tasks_total: u32,
    /// The last turn's context use, and the window if known.
    pub tokens: u32,
    pub window: Option<u32>,
    /// When this record was made.
    pub at: u64,
}

/// One local task, as the operator sees it.
#[derive(Clone, Debug, Default, PartialEq)]
pub struct TaskLine {
    pub id: String,
    /// `todo`, `doing`, `done`, `failed`, `dropped`.
    pub status: String,
    pub text: String,
    /// What came of it, for `done` and `failed`.
    pub note: String,
}

/// A tool call in flight.
#[derive(Clone, Debug, Default, PartialEq)]
pub struct Flight {
    /// The model's handle on it: `r3` in `Running` and `Cancel`.
    pub id: u64,
    pub tool: String,
    pub arg: String,
    pub since: u64,
    /// Bytes of output so far.
    pub output: u64,
    /// When it last printed, unix ms; 0 if it never has.
    pub last_output: u64,
}

/// A tool call that came back.
#[derive(Clone, Debug, Default, PartialEq)]
pub struct Finished {
    pub tool: String,
    pub arg: String,
    pub ok: bool,
    pub ms: u64,
    /// `exit 1`, `timed out after 30s, killed`, `submitted`.
    pub meta: String,
    pub at: u64,
}

/// An [`Activity`] as a node holds it: the record, and how old it was when
/// this node got it.
#[derive(Clone, Debug, PartialEq)]
pub struct Seen {
    /// The cat's account, hex: who signed it to us, not what it claims.
    pub account: String,
    pub age_ms: u64,
    pub activity: Activity,
}

/// `a - b`, or 0 where that would be negative.
pub open spec fn less(a: int, b: int) -> int {
    if a > b {
        a - b
    } else {
        0
    }
}

impl Activity {
    /// How long it has been in `phase`, as of `age_ms` after the record was
    /// made.
    pub fn in_phase_ms(&self, age_ms: u64) -> (r: u64)
        requires
            less(self.at as int, self.since as int) + age_ms <= u64::MAX,
        ensures
            r == less(self.at as int, self.since as int) + age_ms,
    {
        self.at.saturating_sub(self.since) + age_ms
    }
}

/// `std::time::SystemTime::now`: milliseconds since the Unix epoch. Nothing is
/// claimed of the value, which is the machine's clock.
#[verifier::external_body]
pub fn unix_ms() -> (ms: u64)
{
    std::time::SystemTime::now().duration_since(std::time::UNIX_EPOCH).map(
        |d| d.as_millis() as u64,
    ).unwrap_or(0)
}

/// The first of `v` that holds more than white space, or nothing.
pub open spec fn first_filled(v: Seq<Seq<char>>) -> Seq<char>
    decreases v.len(),
{
    if v.len() == 0 {
        seq![]
    } else if text::trimmed(v[0]).len() > 0 {
        v[0]
    } else {
        first_filled(v.skip(1))
    }
}

/// The first line of `s` that holds more than white space, trimmed.
pub open spec fn headline(s: Seq<char>) -> Seq<char> {
    text::trimmed(first_filled(text::lines(s)))
}

/// A text cut to `n` characters, the last of them `…` if it was cut.
pub open spec fn clipped(s: Seq<char>, n: nat) -> Seq<char> {
    if s.len() > n {
        s.take(less(n as int, 1)) + "…"@
    } else {
        s
    }
}

/// The first line of `s` that holds more than white space, trimmed.
pub fn head_line(s: &str) -> (r: String)
    ensures
        r@ == headline(s@),
{
    let v = text::lines_of(s);
    let ghost all = text::lines(s@);
    let mut i: usize = 0;
    assert(all.skip(0) =~= all);
    while i < v.len()
        invariant
            i <= v.len(),
            text::texts(v@) == all,
            first_filled(all) == first_filled(all.skip(i as int)),
            all == text::lines(s@),
        decreases v.len() - i,
    {
        let t = text::trim(v[i].as_str());
        assert(all.skip(i as int)[0] == v@[i as int]@);
        if !t.as_str().is_empty() {
            return t;
        }
        assert(all.skip(i as int).skip(1) =~= all.skip(i + 1));
        i = i + 1;
    }
    assert(first_filled(all.skip(i as int)) =~= Seq::<char>::empty());
    String::new()
}

/// `s` cut to `n` characters, the last of them `…` if it was cut.
pub fn clip_to(s: &str, n: usize) -> (r: String)
    ensures
        r@ == clipped(s@, n as nat),
{
    let v = text::chars_of(s);
    if v.len() > n {
        let k: usize = n.saturating_sub(1);
        let r = text::slice_text(&v, 0, k);
        assert(r@ =~= s@.take(k as int));
        r.concat("…")
    } else {
        s.to_owned()
    }
}

/// One line, at most `n` chars, `…` if cut.
pub fn short(s: &str, n: usize) -> (r: String)
    ensures
        r@ == clipped(headline(s@), n as nat),
{
    let line = head_line(s);
    clip_to(line.as_str(), n)
}

/// `s` with its white space folded to single spaces.
pub open spec fn folded(s: Seq<char>) -> Seq<char> {
    text::joined(text::words(s), " "@)
}

/// The last `n` characters of `s` with its white space folded, `…` in front if
/// something was cut.
pub open spec fn tail_view(s: Seq<char>, n: nat) -> Seq<char> {
    let flat = folded(s);
    if flat.len() > n {
        "…"@ + text::trimmed_start(flat.skip(if n == 0 { flat.len() as int } else { flat.len() - n + 1 }))
    } else {
        flat
    }
}

/// The last `n` chars of `s`, whitespace folded, `…` in front if cut.
pub fn tail(s: &str, n: usize) -> (r: String)
    ensures
        r@ == tail_view(s@, n as nat),
{
    let flat = text::join(&text::words_of(s), " ");
    let v = text::chars_of(flat.as_str());
    if v.len() > n {
        let from: usize = if n == 0 {
            v.len()
        } else {
            v.len() - n + 1
        };
        let end = text::slice_text(&v, from, v.len());
        assert(end@ =~= flat@.skip(from as int));
        String::from_str("…").concat(text::trim_start(end.as_str()).as_str())
    } else {
        flat
    }
}

proof fn lemma_trimmed_start_len(s: Seq<char>)
    ensures
        text::trimmed_start(s).len() <= s.len(),
    decreases s.len(),
{
    if s.len() > 0 && text::white(s[0]) {
        lemma_trimmed_start_len(s.skip(1));
    }
}

/// A shortened text and a tail never take more characters than they were
/// given, where they were given any.
pub proof fn cut_texts_fit(s: Seq<char>, n: nat)
    requires
        n >= 1,
    ensures
        clipped(headline(s), n).len() <= n,
        tail_view(s, n).len() <= n,
{
    reveal_strlit("…");
    let flat = folded(s);
    if flat.len() > n {
        lemma_trimmed_start_len(flat.skip(flat.len() - n + 1));
    }
}

/// The headline of a text is its first line that is not blank, without the white
/// space round it; a text of blank lines has none.
pub proof fn a_headline_is_the_first_line_with_words(v: Seq<Seq<char>>)
    ensures
        (exists|i: int|
            0 <= i < v.len() && text::trimmed(#[trigger] v[i]).len() > 0 && first_filled(v) == v[i]
                && forall|k: int| 0 <= k < i ==> text::trimmed(#[trigger] v[k]).len() == 0) || (
        first_filled(v).len() == 0 && forall|k: int|
            0 <= k < v.len() ==> text::trimmed(#[trigger] v[k]).len() == 0),
    decreases v.len(),
{
    if v.len() > 0 {
        if text::trimmed(v[0]).len() > 0 {
            assert(first_filled(v) == v[0]);
        } else {
            let rest = v.skip(1);
            a_headline_is_the_first_line_with_words(rest);
            if exists|i: int|
                0 <= i < rest.len() && text::trimmed(#[trigger] rest[i]).len() > 0 && first_filled(
                    rest,
                ) == rest[i] && forall|k: int|
                    0 <= k < i ==> text::trimmed(#[trigger] rest[k]).len() == 0 {
                let i = choose|i: int|
                    0 <= i < rest.len() && text::trimmed(#[trigger] rest[i]).len() > 0
                        && first_filled(rest) == rest[i] && forall|k: int|
                        0 <= k < i ==> text::trimmed(#[trigger] rest[k]).len() == 0;
                assert(v[i + 1] == rest[i]);
                assert forall|k: int| 0 <= k < i + 1 implies text::trimmed(#[trigger] v[k]).len()
                    == 0 by {
                    if k > 0 {
                        assert(rest[k - 1] == v[k]);
                    }
                }
            } else {
                assert forall|k: int| 0 <= k < v.len() implies text::trimmed(#[trigger] v[k]).len()
                    == 0 by {
                    if k > 0 {
                        assert(rest[k - 1] == v[k]);
                    }
                }
            }
        }
    }
}

/// A text that fits is left as it is. One that does not keeps its front, all but
/// one character of the room, and ends in a mark that it was cut.
pub proof fn a_cut_text_keeps_its_front(s: Seq<char>, n: nat)
    ensures
        s.len() <= n ==> clipped(s, n) == s,
        s.len() > n && n >= 1 ==> clipped(s, n).len() == n && clipped(s, n).drop_last() == s.take(
            n - 1,
        ) && clipped(s, n).last() == '…',
{
    reveal_strlit("…");
    if s.len() > n && n >= 1 {
        assert(clipped(s, n).drop_last() =~= s.take(n - 1));
    }
}

/// A tail that fits is the whole text on one line. One that does not is the end
/// of that line, after a mark that it was cut.
pub proof fn a_tail_is_the_end_of_the_text(s: Seq<char>, n: nat)
    requires
        n >= 1,
    ensures
        ({
            let flat = text::joined(text::words(s), " "@);
            &&& flat.len() <= n ==> tail_view(s, n) == flat
            &&& flat.len() > n ==> tail_view(s, n)[0] == '…' && tail_view(s, n).skip(1)
                == text::trimmed_start(flat.skip(flat.len() - n + 1))
        }),
{
    reveal_strlit("…");
    let flat = text::joined(text::words(s), " "@);
    if flat.len() > n {
        assert(tail_view(s, n).skip(1) =~= text::trimmed_start(flat.skip(flat.len() - n + 1)));
    }
}

} // verus!
