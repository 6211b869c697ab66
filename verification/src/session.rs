//! What a model's answer does: to the conversation, to the tools it called, and
//! to its budget.

use crate::activity::Flight;
use crate::conversation;
use crate::conversation::Speaker;
use crate::flights;
use crate::flights::Live;
use crate::json;
use crate::json::Json;
use crate::machine;
use crate::machine::{Mind, MindView};
use crate::text;
use crate::tool_out;
use crate::tool_out::{Call, Outcome, ToolOut};
use crate::turns::TurnCost;
use vstd::prelude::*;
use vstd::string::*;

verus! {

// ---------------------------------------------------------------------
// An answer
// ---------------------------------------------------------------------

/// What came back from a model: its words and how many tools it called, or why
/// nothing did.
pub enum Answer {
    Failed(String),
    Said { words: String, calls: usize },
}

/// What follows an answer.
pub enum After {
    /// The turn ends here, with this note.
    Over(String),
    /// The calls are made. Words beside calls are shown.
    Act(Option<String>),
}

pub open spec fn after_view(a: After) -> (bool, Option<Seq<char>>) {
    match a {
        After::Over(s) => (true, Some(s@)),
        After::Act(s) => (false, text::text_view(s)),
    }
}

/// The conversation without its last message.
pub open spec fn taken_back(m: MindView) -> MindView {
    MindView {
        history: if m.history.len() > 0 {
            m.history.drop_last()
        } else {
            m.history
        },
        ..m
    }
}

/// The conversation with a model's own words, where there are any.
pub open spec fn with_words(m: MindView, words: Seq<char>) -> MindView {
    MindView {
        history: if text::trimmed(words).len() == 0 {
            m.history
        } else {
            m.history.push((Speaker::Assistant, text::trimmed(words)))
        },
        ..m
    }
}

/// What an answer does. A turn that failed never happened, nor did a check-in
/// answered with nothing; one that a reset overtook is acted on in no part.
pub open spec fn answered(m: MindView, check: bool, a: Answer, reset: bool) -> (
    MindView,
    (bool, Option<Seq<char>>),
) {
    match a {
        Answer::Failed(e) => (taken_back(m), (true, Some("llm error: "@ + e@))),
        Answer::Said { words, calls } => if reset {
            (
                m,
                (
                    true,
                    Some(
                        "session reset while thinking — this turn's "@ + text::dec(calls as nat)
                            + " call(s) dropped, nothing sent"@,
                    ),
                ),
            )
        } else if check && calls == 0 {
            (taken_back(m), (true, Some("check-in: nothing more to do"@)))
        } else {
            (
                with_words(m, words@),
                (
                    false,
                    if text::trimmed(words@).len() > 0 && calls > 0 {
                        Some(text::trimmed(words@))
                    } else {
                        None
                    },
                ),
            )
        },
    }
}

/// Which part of the loop a call is for.
#[derive(Clone, Copy, Debug, PartialEq, Eq, Structural)]
pub enum Lane {
    /// The conversation is replaced by the model's own summary.
    Compact,
    /// The same, and then the machine goes down.
    Reboot,
    /// Answered at once, out of the session itself.
    Session,
    /// Run on its own.
    Out,
}

pub open spec fn is_session_tool(name: Seq<char>) -> bool {
    name == "TokenBudget"@ || name == "BrowseTools"@ || name == "Inspect"@ || name == "AboutMe"@
        || name == "Running"@ || name == "Cancel"@
}

/// Which part of the loop a call is for; the reboot only where this cat has it.
pub fn lane_of(name: &str, reboot: bool) -> (r: Lane)
    ensures
        r == (if name@ == "Compact"@ {
            Lane::Compact
        } else if name@ == "Reboot"@ && reboot {
            Lane::Reboot
        } else if is_session_tool(name@) {
            Lane::Session
        } else {
            Lane::Out
        }),
{
    if text::same(name, "Compact") {
        Lane::Compact
    } else if text::same(name, "Reboot") && reboot {
        Lane::Reboot
    } else if text::same(name, "TokenBudget") || text::same(name, "BrowseTools") || text::same(
        name,
        "Inspect",
    ) || text::same(name, "AboutMe") || text::same(name, "Running") || text::same(name, "Cancel") {
        Lane::Session
    } else {
        Lane::Out
    }
}

/// Who a model is and what it runs on.
pub struct About {
    pub name: String,
    /// Where it is, in the host's words.
    pub extra: String,
    pub model: String,
    pub os: String,
    pub arch: String,
    pub version: String,
    pub persona: String,
}

/// What a tool of the session answers, and the call it cancels.
pub open spec fn session_answer(
    m: MindView,
    name: Seq<char>,
    args: Json,
    total: u32,
    out: Seq<(Flight, Live)>,
    now: u64,
    who: About,
) -> (Outcome, Option<u64>) {
    if name == "TokenBudget"@ {
        (machine::budget_answer(m, total), None)
    } else if name == "BrowseTools"@ {
        (machine::browse_answer(m), None)
    } else if name == "Running"@ {
        (flights::running_answer(out, json::words_at(args, "id"@), now), None)
    } else if name == "Cancel"@ {
        flights::cancel_answer(out, json::words_at(args, "id"@), now)
    } else if name == "Inspect"@ {
        (
            machine::inspect_answer(m, json::num_at(args, "id"@), json::num_at(args, "offset"@)),
            None,
        )
    } else {
        (
            machine::about_answer(
                who.name@,
                who.extra@,
                who.model@,
                who.os@,
                who.arch@,
                who.version@,
                who.persona@,
            ),
            None,
        )
    }
}

/// The conversation replaced by a summary; the tool log stays.
pub open spec fn compacted(m: MindView, summary: Seq<char>) -> MindView {
    MindView { history: seq![(Speaker::Assistant, summary)], fresh: seq![], tier: 0, ..m }
}

/// What the budget asks for after a turn.
pub enum Budget {
    Nothing,
    /// The conversation is summed up and compacted, with this note.
    Force(String),
    /// The next turn is warned.
    Warned,
}

impl Mind {
    /// Takes a model's answer in. `reset` is whether the session ended while it
    /// was thinking.
    pub fn hear(&mut self, check: bool, answer: &Answer, reset: bool) -> (r: After)
        ensures
            (final(self)@, after_view(r)) == answered(old(self)@, check, *answer, reset),
    {
        match answer {
            Answer::Failed(e) => {
                self.take_back();
                After::Over("llm error: ".to_owned().concat(e.as_str()))
            },
            Answer::Said { words, calls } => {
                if reset {
                    return After::Over(
                        "session reset while thinking — this turn's ".to_owned().concat(
                            text::number(*calls as u64).as_str(),
                        ).concat(" call(s) dropped, nothing sent"),
                    );
                }
                if check && *calls == 0 {
                    self.take_back();
                    return After::Over("check-in: nothing more to do".to_owned());
                }
                self.said(words.as_str());
                let own = text::trim(words.as_str());
                if text::chars_of(own.as_str()).len() > 0 && *calls > 0 {
                    After::Act(Some(own))
                } else {
                    After::Act(None)
                }
            },
        }
    }

    /// Answers a tool of the session. The second part is the call in flight that
    /// is to be cancelled.
    pub fn session_tool(
        &self,
        c: &Call,
        total_tokens: u32,
        running: &Vec<Flight>,
        live: &Vec<(u64, Live)>,
        now: u64,
        who: &About,
    ) -> (r: (ToolOut, Option<u64>))
        requires
            self.tool_base + self.tool_log.len() <= usize::MAX,
        ensures
            (r.0@, r.1) == session_answer(
                self@,
                c.name@,
                c.args,
                total_tokens,
                flights::queries(running@, live@),
                now,
                *who,
            ),
    {
        let name = c.name.as_str();
        if text::same(name, "TokenBudget") {
            (self.token_budget(total_tokens), None)
        } else if text::same(name, "BrowseTools") {
            (self.browse_tools(), None)
        } else if text::same(name, "Running") {
            (flights::running_tool(running, live, c.str("id").as_str(), now), None)
        } else if text::same(name, "Cancel") {
            flights::cancel_tool(running, live, c.str("id").as_str(), now)
        } else if text::same(name, "Inspect") {
            (self.inspect(c.args.num("id"), c.args.num("offset")), None)
        } else {
            (
                machine::about_me(
                    who.name.as_str(),
                    who.extra.as_str(),
                    who.model.as_str(),
                    who.os.as_str(),
                    who.arch.as_str(),
                    who.version.as_str(),
                    who.persona.as_str(),
                ),
                None,
            )
        }
    }

    /// The model sums its conversation up itself, be it before a reboot; what is
    /// shown of it.
    pub fn sum_up(&mut self, summary: String, reboot: bool) -> (note: String)
        ensures
            final(self)@ == compacted(old(self)@, summary@),
            note@ == (if reboot {
                "compacting before reboot: history replaced with a "@ + text::dec(
                    text::size(summary@) as nat,
                ) + "-char summary the model wrote; rebooting now"@
            } else {
                "compacted: history replaced with a "@ + text::dec(text::size(summary@) as nat)
                    + "-char summary the model wrote; "@ + text::dec(old(self)@.log.len())
                    + " tool results kept"@
            }),
    {
        let size = text::number(summary.as_str().len() as u64);
        let note = if reboot {
            "compacting before reboot: history replaced with a ".to_owned().concat(
                size.as_str(),
            ).concat("-char summary the model wrote; rebooting now")
        } else {
            "compacted: history replaced with a ".to_owned().concat(size.as_str()).concat(
                "-char summary the model wrote; ",
            ).concat(text::number(self.tool_log.len() as u64).as_str()).concat(
                " tool results kept",
            )
        };
        self.compact(summary);
        note
    }

    /// What a turn's cost asks for. `tier` is the budget tier it newly reached.
    pub fn weigh(
        &mut self,
        total_tokens: u32,
        compacted: bool,
        force_at: u32,
        tier: Option<u32>,
    ) -> (r: Budget)
        ensures
            match conversation::percent(total_tokens, old(self)@.window) {
                Some(p) => if p >= force_at && !compacted {
                    final(self)@ == old(self)@ && (r matches Budget::Force(s) && s@ == text::dec(
                        p as nat,
                    ) + "% of the context window used — force-compacting"@)
                } else {
                    match tier {
                        Some(t) => r is Warned && final(self)@ == (MindView {
                            tier: t,
                            warning: Some(machine::budget_warning(p, force_at)),
                            ..old(self)@
                        }),
                        None => r is Nothing && final(self)@ == old(self)@,
                    }
                },
                None => r is Nothing && final(self)@ == old(self)@,
            },
    {
        match conversation::pct_used(total_tokens, self.window) {
            Some(p) => {
                if p >= force_at && !compacted {
                    return Budget::Force(
                        text::number(p as u64).concat(
                            "% of the context window used — force-compacting",
                        ),
                    );
                }
                match tier {
                    Some(t) => {
                        self.warn(t, p, force_at);
                        Budget::Warned
                    },
                    None => Budget::Nothing,
                }
            },
            None => Budget::Nothing,
        }
    }
}

// ---------------------------------------------------------------------
// Calls
// ---------------------------------------------------------------------

/// The result of a tool that nobody has, fed back so that the model learns it.
pub fn unknown_tool(c: &Call) -> (r: ToolOut)
    ensures
        r@ == tool_out::with_meta(
            tool_out::bare(machine::gist_of(c.name@, c.args), false),
            "no such tool here"@,
        ),
{
    ToolOut::new(machine::gist(c).as_str(), false).meta("no such tool here")
}

/// The result of a call that was cancelled: what it had printed.
pub fn cancelled(c: &Call, so_far: &str) -> (r: ToolOut)
    ensures
        r@ == tool_out::with_body(
            tool_out::with_meta(
                tool_out::bare(machine::gist_of(c.name@, c.args), false),
                "cancelled"@,
            ),
            so_far@,
        ),
{
    ToolOut::new(machine::gist(c).as_str(), false).meta("cancelled").body(so_far)
}

pub open spec fn messages_in(v: Seq<Call>) -> nat
    decreases v.len(),
{
    if v.len() == 0 {
        0
    } else {
        messages_in(v.drop_last()) + if v.last().name@ == "SendMessage"@ {
            1nat
        } else {
            0nat
        }
    }
}

/// A turn's cost: talking is counted apart from tools.
pub fn turn_cost(
    calls: &Vec<Call>,
    prompt: u32,
    out: u32,
    total: u32,
    cached: u32,
    window: Option<u32>,
    ms: u64,
) -> (r: TurnCost)
    ensures
        r.prompt == prompt,
        r.out == out,
        r.total == total,
        r.cached == cached,
        r.window == window,
        r.ms == ms,
        r.messages == messages_in(calls@),
        r.tools + r.messages == calls@.len(),
{
    let mut n: usize = 0;
    let mut i: usize = 0;
    assert(calls@.take(0) =~= Seq::<Call>::empty());
    while i < calls.len()
        invariant
            n <= i <= calls.len(),
            n == messages_in(calls@.take(i as int)),
        decreases calls.len() - i,
    {
        assert(calls@.take(i + 1).drop_last() =~= calls@.take(i as int));
        assert(calls@.take(i + 1).last() == calls@[i as int]);
        if text::same(calls[i].name.as_str(), "SendMessage") {
            n = n + 1;
        }
        i = i + 1;
    }
    assert(calls@.take(i as int) =~= calls@);
    TurnCost { prompt, out, total, cached, window, ms, tools: calls.len() - n, messages: n }
}

/// What a turn without a call comes to.
pub enum Bare {
    /// It called something.
    Called,
    /// It neither called nor said anything.
    Wasted,
    /// Its words are an answer, for the host to deliver.
    Spoke(String),
}

pub fn bare_turn(calls: usize, words: &str) -> (r: Bare)
    ensures
        if calls > 0 {
            r is Called
        } else if text::trimmed(words@).len() == 0 {
            r is Wasted
        } else {
            r matches Bare::Spoke(s) && s@ == text::trimmed(words@)
        },
{
    if calls > 0 {
        return Bare::Called;
    }
    let own = text::trim(words);
    if text::chars_of(own.as_str()).len() == 0 {
        Bare::Wasted
    } else {
        Bare::Spoke(own)
    }
}

/// The note on a turn that came to nothing.
pub const WASTED: &'static str = "no tool call, no text — turn wasted";

// ---------------------------------------------------------------------
// Laws
// ---------------------------------------------------------------------

/// A turn that failed, and a check-in answered with nothing, leave the
/// conversation as it was before they were opened.
pub proof fn what_came_to_nothing_leaves_no_trace(
    m: MindView,
    prompt: Seq<char>,
    check: bool,
    a: Answer,
)
    requires
        a is Failed || (check && (a matches Answer::Said { calls, .. } && calls == 0)),
    ensures
        answered(
            MindView { history: m.history.push((Speaker::User, prompt)), ..m },
            check,
            a,
            false,
        ).0 == m,
{
    assert(m.history.push((Speaker::User, prompt)).drop_last() =~= m.history);
}

/// A reset overtakes whatever the model answered: nothing of it is acted on.
pub proof fn a_reset_overtakes_an_answer(m: MindView, check: bool, a: Answer)
    requires
        a is Said,
    ensures
        answered(m, check, a, true).0 == m,
        answered(m, check, a, true).1.0,
{
}

/// Compaction keeps every tool result: what could be inspected before can be
/// inspected after.
pub proof fn results_survive_compaction(
    m: MindView,
    summary: Seq<char>,
    id: Option<u64>,
    offset: Option<u64>,
)
    ensures
        machine::inspect_answer(compacted(m, summary), id, offset) == machine::inspect_answer(
            m,
            id,
            offset,
        ),
        compacted(m, summary).log == m.log,
{
    assert(machine::next_of(compacted(m, summary)) == machine::next_of(m));
}

/// What an answer does. A model's own words go into the conversation, trimmed,
/// where there are any; its calls are made unless the session was reset under
/// it; a turn that failed says why; and a check-in answered without a call ends
/// there.
pub proof fn an_answer_is_taken_as_it_was_given(m: MindView, check: bool, a: Answer, reset: bool)
    ensures
        a matches Answer::Failed(e) ==> answered(m, check, a, reset).1.0 && text::ends(
            (answered(m, check, a, reset).1.1)->0,
            e@,
        ),
        a matches Answer::Said { words, calls } ==> ({
            let (after, (over, shown)) = answered(m, check, a, reset);
            &&& over <==> reset || (check && calls == 0)
            &&& !over && text::trimmed(words@).len() > 0 ==> after.history == m.history.push(
                (Speaker::Assistant, text::trimmed(words@)),
            )
            &&& !over && text::trimmed(words@).len() == 0 ==> after.history == m.history
            &&& !over && calls > 0 && text::trimmed(words@).len() > 0 ==> shown == Some(
                text::trimmed(words@),
            )
            &&& !over && (calls == 0 || text::trimmed(words@).len() == 0) ==> shown is None
        }),
        ({
            let after = answered(m, check, a, reset).0;
            &&& after.log == m.log && after.held == m.held && after.queries == m.queries
                && after.fresh == m.fresh && after.session == m.session && after.notices
                == m.notices && after.turns == m.turns
        }),
{
    if a is Failed {
        let e = (a->Failed_0)@;
        let s = "llm error: "@ + e;
        assert(s.subrange(s.len() - e.len(), s.len() as int) =~= e);
    }
}

/// A compacted conversation is the summary and nothing else, said by the model
/// itself; everything that is not the conversation stays.
pub proof fn a_summary_stands_for_the_conversation(m: MindView, summary: Seq<char>)
    ensures
        compacted(m, summary).history.len() == 1,
        compacted(m, summary).history[0] == (Speaker::Assistant, summary),
        compacted(m, summary).fresh.len() == 0,
        compacted(m, summary).tier == 0,
        compacted(m, summary).log == m.log,
        compacted(m, summary).base == m.base,
        compacted(m, summary).held == m.held,
        compacted(m, summary).notices == m.notices,
        compacted(m, summary).queries == m.queries,
        compacted(m, summary).session == m.session,
        compacted(m, summary).turns == m.turns,
        compacted(m, summary).restart == m.restart,
{
}

/// Each tool of the session answers its own question, and only `Cancel` ever
/// cancels a call.
pub proof fn session_tools_answer_their_own(
    m: MindView,
    name: Seq<char>,
    args: Json,
    total: u32,
    out: Seq<(Flight, Live)>,
    now: u64,
    who: About,
)
    ensures
        name != "Cancel"@ ==> session_answer(m, name, args, total, out, now, who).1 is None,
        name == "Cancel"@ ==> session_answer(m, name, args, total, out, now, who)
            == flights::cancel_answer(out, json::words_at(args, "id"@), now),
        name == "Running"@ ==> session_answer(m, name, args, total, out, now, who).0
            == flights::running_answer(out, json::words_at(args, "id"@), now),
        name == "Inspect"@ ==> session_answer(m, name, args, total, out, now, who).0
            == machine::inspect_answer(
            m,
            json::num_at(args, "id"@),
            json::num_at(args, "offset"@),
        ),
        name == "BrowseTools"@ ==> session_answer(m, name, args, total, out, now, who).0
            == machine::browse_answer(m),
        name == "TokenBudget"@ ==> session_answer(m, name, args, total, out, now, who).0
            == machine::budget_answer(m, total),
        name == "AboutMe"@ ==> text::has(
            session_answer(m, name, args, total, out, now, who).0.body,
            who.persona@,
        ) && text::has(session_answer(m, name, args, total, out, now, who).0.body, who.name@),
        is_session_tool(name) <==> name == "TokenBudget"@ || name == "BrowseTools"@ || name
            == "Inspect"@ || name == "AboutMe"@ || name == "Running"@ || name == "Cancel"@,
{
    reveal_strlit("TokenBudget");
    reveal_strlit("BrowseTools");
    reveal_strlit("Inspect");
    reveal_strlit("AboutMe");
    reveal_strlit("Running");
    reveal_strlit("Cancel");
    assert("TokenBudget"@.len() == 11);
    assert("BrowseTools"@.len() == 11);
    assert("Inspect"@.len() == 7);
    assert("AboutMe"@.len() == 7);
    assert("Running"@.len() == 7);
    assert("Cancel"@.len() == 6);
    assert("AboutMe"@[0] == 'A');
    assert("BrowseTools"@[0] == 'B');
    assert("Inspect"@[0] == 'I');
    assert("Running"@[0] == 'R');
    assert("TokenBudget"@[0] == 'T');
    if name == "AboutMe"@ {
        let extra = if who.extra@.len() == 0 {
            ""@
        } else {
            who.extra@ + "\n"@
        };
        text::lemma_has_self(who.persona@);
        text::lemma_has_right("Name: "@ + who.name@ + "\n"@ + extra + "Model: "@ + who.model@ + "\nPlatform: "@ + who.os@ + " "@ + who.arch@ + "\nBuild: kot "@ + who.version@ + "\nPersona:\n"@, who.persona@, who.persona@);
        text::lemma_has_self(who.name@);
        text::lemma_has_right("Name: "@, who.name@, who.name@);
        text::lemma_has_left("Name: "@ + who.name@, "\n"@, who.name@);
        text::lemma_has_left("Name: "@ + who.name@ + "\n"@, extra, who.name@);
        text::lemma_has_left("Name: "@ + who.name@ + "\n"@ + extra, "Model: "@, who.name@);
        text::lemma_has_left("Name: "@ + who.name@ + "\n"@ + extra + "Model: "@, who.model@, who.name@);
        text::lemma_has_left("Name: "@ + who.name@ + "\n"@ + extra + "Model: "@ + who.model@, "\nPlatform: "@, who.name@);
        text::lemma_has_left("Name: "@ + who.name@ + "\n"@ + extra + "Model: "@ + who.model@ + "\nPlatform: "@, who.os@, who.name@);
        text::lemma_has_left("Name: "@ + who.name@ + "\n"@ + extra + "Model: "@ + who.model@ + "\nPlatform: "@ + who.os@, " "@, who.name@);
        text::lemma_has_left("Name: "@ + who.name@ + "\n"@ + extra + "Model: "@ + who.model@ + "\nPlatform: "@ + who.os@ + " "@, who.arch@, who.name@);
        text::lemma_has_left("Name: "@ + who.name@ + "\n"@ + extra + "Model: "@ + who.model@ + "\nPlatform: "@ + who.os@ + " "@ + who.arch@, "\nBuild: kot "@, who.name@);
        text::lemma_has_left("Name: "@ + who.name@ + "\n"@ + extra + "Model: "@ + who.model@ + "\nPlatform: "@ + who.os@ + " "@ + who.arch@ + "\nBuild: kot "@, who.version@, who.name@);
        text::lemma_has_left("Name: "@ + who.name@ + "\n"@ + extra + "Model: "@ + who.model@ + "\nPlatform: "@ + who.os@ + " "@ + who.arch@ + "\nBuild: kot "@ + who.version@, "\nPersona:\n"@, who.name@);
        text::lemma_has_left("Name: "@ + who.name@ + "\n"@ + extra + "Model: "@ + who.model@ + "\nPlatform: "@ + who.os@ + " "@ + who.arch@ + "\nBuild: kot "@ + who.version@ + "\nPersona:\n"@, who.persona@, who.name@);
    }
}

/// Talking is counted apart from tools: as many messages as there are calls of
/// `SendMessage`.
pub proof fn every_message_is_counted(v: Seq<Call>, c: Call)
    ensures
        messages_in(Seq::<Call>::empty()) == 0,
        messages_in(v) <= v.len(),
        messages_in(v.push(c)) == messages_in(v) + (if c.name@ == "SendMessage"@ {
            1int
        } else {
            0
        }),
    decreases v.len(),
{
    assert(v.push(c).drop_last() =~= v);
    if v.len() > 0 {
        every_message_is_counted(v.drop_last(), v.last());
        assert(v.drop_last().push(v.last()) =~= v);
    }
}

/// A question that was not answered is taken back, the last of the conversation
/// and nothing else; and what the model said is kept without the white space
/// round it, where it said anything.
pub proof fn only_the_last_word_changes(m: MindView, words: Seq<char>)
    ensures
        m.history.len() > 0 ==> taken_back(m).history == m.history.drop_last(),
        m.history.len() == 0 ==> taken_back(m) == m,
        taken_back(m).log == m.log,
        text::trimmed(words).len() > 0 ==> with_words(m, words).history == m.history.push(
            (Speaker::Assistant, text::trimmed(words)),
        ),
        text::trimmed(words).len() == 0 ==> with_words(m, words).history == m.history,
        with_words(m, words).log == m.log,
{
}

} // verus!
