//! The agent loop: turns, results, calls in flight and the conversation.

use kot::activity::{Activity, ARG_CHARS, RECENT};
use kot::conversation::{age, feed, keep, leaves_numbers, load_history, pct_used, row_id, save_history, summary, trim_legacy, Fresh, Speaker, Stored, FEED_CHARS, RESTARTED, STORE_CHARS};
use kot::flights::{begin_turn, cancel_tool, end_turn, enter_phase, land, launch, publish, running_tool, settle, still_running, watch, Live, LIVE_BYTES, LIVE_HEAD, STALL_AFTER};
use kot::json::Json;
use kot::machine::{about_me, gist, summary_of, tools, Inbound, Mind, Next, Wake, CHECK_IN, LOCAL_TASK_NAG_AFTER, MAX_FOLLOWUPS, MAX_LOCAL_TASK_NUDGES};
use kot::session::{bare_turn, cancelled, lane_of, turn_cost, unknown_tool, About, After, Answer, Bare, Budget, Lane};
use kot::tool_out::{Call, ToolOut};

fn mind() -> Mind {
    Mind::new("You are meow.".into(), Some(1000))
}

fn wake(text: &str, kind: &str) -> Wake {
    Wake { text: text.into(), kind: kind.into() }
}

fn out(arg: &str, body: &str) -> ToolOut {
    ToolOut::new(arg, true).meta("exit 0").body(body)
}

fn call(name: &str, args: &[(&str, &str)]) -> Call {
    Call { name: name.into(), args: Json::Object(args.iter().map(|(k, v)| (k.to_string(), Json::Str(v.to_string()))).collect()) }
}

#[test]
fn a_result_comes_back_on_a_later_turn() {
    let mut m = mind();
    let mut results = Vec::new();
    m.query_started();
    assert!(m.back("Bash", &out("$ ls", "a\nb"), 0, &mut results));
    assert_eq!((m.queries, m.next_id()), (0, 1));
    assert_eq!(results[0].0, 0);
    let turn = m.open_turn(&vec![wake("hello\nthere", "said")], &results, false, None, Some("open: 1".into()));
    assert_eq!(turn.why, "hello");
    assert_eq!(turn.prompt, "hello\nthere\n\nResults of tools you called:\n[#0 Bash] $ ls  (exit 0)\na\nb\n\nopen: 1");
    assert_eq!(turn.system, "You are meow.");
    assert_eq!(m.history.len(), 1);
    assert_eq!(m.kinds, vec!["said"]);
}

#[test]
fn a_result_of_an_older_session_is_not_fed() {
    let mut m = mind();
    let (mut wakes, mut results) = (vec![wake("x", "said")], vec![(0, "r".to_string())]);
    m.query_started();
    m.take(Inbound::Reset("moved".into()), &mut wakes, &mut results);
    assert_eq!((m.session, wakes.len(), results.len()), (1, 0, 0));
    assert!(!m.back("Bash", &out("$ ls", "a"), 0, &mut results));
    assert!(results.is_empty() && m.tool_log.is_empty());
    assert!(m.back("Bash", &out("$ ls", "a"), 1, &mut results));
}

#[test]
fn followups_are_bounded_and_late_results_are_held() {
    let mut m = mind();
    for n in 0..MAX_FOLLOWUPS {
        let mut r = vec![(n as usize, "r".to_string())];
        assert_eq!(m.decide(false, &mut r), Next::Turn);
    }
    let mut late = vec![(90, "late".to_string())];
    assert_eq!(m.decide(false, &mut late), Next::Hold);
    assert_eq!(m.held.len(), 1);
    let mut fresh = vec![(91, "new".to_string())];
    assert_eq!(m.decide(true, &mut fresh), Next::Turn);
    assert_eq!(fresh.iter().map(|r| r.0).collect::<Vec<_>>(), vec![90, 91], "the held one first");
    assert_eq!((m.held.len(), m.followups), (0, 0));
    assert_eq!(m.decide(false, &mut vec![]), Next::Wait);
}

#[test]
fn the_last_turn_says_so() {
    let mut m = mind();
    m.followups = MAX_FOLLOWUPS;
    m.notices.push("[r1 Bash still running] quiet".into());
    let t = m.open_turn(&vec![], &vec![], false, Some("Still running: r1".into()), None);
    assert_eq!(t.why, "a call went quiet");
    assert!(t.prompt.starts_with("[r1 Bash still running] quiet\n\nStill running: r1\n\n(This is your last turn without someone writing to you: 8 in a row."), "{}", t.prompt);
    assert!(m.notices.is_empty());
}

#[test]
fn a_check_in_is_given_once_before_idling() {
    let mut m = mind();
    m.close_turn(false, true, true, 0, true);
    assert!(m.check_armed);
    assert!(!m.check_in(true), "something waits");
    assert!(!m.check_armed);
    m.close_turn(false, true, true, 0, true);
    assert!(m.check_in(false));
    let t = m.open_turn(&vec![], &vec![], true, None, Some("open".into()));
    assert_eq!((t.prompt.as_str(), t.why.as_str()), (CHECK_IN, "check-in — nothing running"));
    m.close_turn(true, false, true, 0, true);
    assert!(!m.check_armed, "a check-in never arms another");
    m.close_turn(false, true, true, 0, false);
    assert!(!m.check_armed, "an operator is there");
}

#[test]
fn a_waiting_batch() {
    let mut m = mind();
    assert!(!m.waits_for_more(0, 1));
    m.query_started();
    assert!(m.waits_for_more(0, 1));
    assert!(!m.waits_for_more(1, 1) && !m.waits_for_more(0, 0));
    m.record_started();
    m.record_back();
    m.record_back();
    assert_eq!(m.records, 0);
}

#[test]
fn nudges_are_bounded() {
    let mut m = mind();
    m.went_idle(0);
    let nag = LOCAL_TASK_NAG_AFTER;
    assert!(m.maybe_nag(nag - 1, nag, true, Some("l1 open".into())).is_none(), "too early");
    assert!(m.maybe_nag(nag, nag, true, None).is_none(), "nothing is open");
    assert!(m.maybe_nag(nag, nag, false, Some("l1 open".into())).is_none(), "an operator is there");
    let w = m.maybe_nag(nag, nag, true, Some("l1 open".into())).unwrap();
    assert_eq!(w.text, "(Idle 2m30s with open local tasks.\nl1 open\nDo the next step now, or call LocalTask to update the list.)");
    assert_eq!(w.kind, "said");
    assert!(m.maybe_nag(nag + 1, nag, true, Some("l1 open".into())).is_none(), "the clock starts again");
    assert!(m.maybe_nag(2 * nag, nag, true, Some("l1 open".into())).is_some());
    let last = m.maybe_nag(3 * nag, nag, true, Some("l1 open".into())).unwrap();
    assert!(last.text.contains("This is the last reminder on these"));
    assert_eq!(m.local_nudges, MAX_LOCAL_TASK_NUDGES);
    assert!(m.maybe_nag(9 * nag, nag, true, Some("l1 open".into())).is_none());
    m.query_started();
    m.close_turn(false, false, true, 0, true);
    assert_eq!(m.local_nudges, 0, "the model acted");
}

#[test]
fn results_can_be_browsed_and_read_in_pages() {
    let mut m = mind();
    assert_eq!(m.browse_tools().body, "No tool results stored yet.");
    let mut r = Vec::new();
    let long = "x".repeat(5000);
    m.back("Bash", &out("$ make", &long), 0, &mut r);
    assert_eq!(m.browse_tools().body, "0: Bash — $ make  (exit 0)");
    let page = m.inspect(Some(0), None);
    assert_eq!((page.arg.as_str(), page.meta[0].as_str()), ("#0 Bash", "chars 0–2700 of 5017"));
    assert!(page.body.ends_with("\n… [Inspect {\"id\": 0, \"offset\": 2700} for the next part]"));
    let page = m.inspect(Some(0), Some(2700));
    assert_eq!(page.meta[0], "chars 2700–5017 of 5017");
    assert_eq!(page.body, "x".repeat(2317));
    let missing = m.inspect(Some(7), None);
    assert_eq!((missing.arg.as_str(), missing.meta[0].as_str(), missing.ok), ("Some(7)", "no such id (#0–#0 stored)", false));
    assert_eq!(m.inspect(None, None).arg, "None");
    m.tool_base = 3;
    assert_eq!(m.inspect(Some(1), None).meta[0], "from before a restart — not kept; run it again if you need it");
}

#[test]
fn the_budget_is_told_and_warned_about() {
    let mut m = mind();
    assert_eq!(m.token_budget(250).body, "250/1000 tokens (25%) used last turn. 0 tool result(s) stored — BrowseTools to list them.");
    assert_eq!(
        Mind::new("s".into(), None).token_budget(250).body,
        "250 tokens used last turn (context window unknown for this model). 0 tool result(s) stored — BrowseTools to list them."
    );
    assert_eq!((pct_used(1, None), pct_used(1, Some(0)), pct_used(1, Some(3))), (None, None, Some(33)));
    assert!(matches!(m.weigh(950, false, 90, Some(75)), Budget::Force(n) if n == "95% of the context window used — force-compacting"));
    assert!(matches!(m.weigh(950, true, 90, None), Budget::Nothing));
    assert!(matches!(m.weigh(800, false, 90, Some(75)), Budget::Warned));
    assert_eq!(m.warned_tier, 75);
    let t = m.open_turn(&vec![wake("x", "said")], &vec![], false, None, None);
    assert!(t.system.starts_with("You are meow.\n\n⚠ context budget: 80% of your window used."), "{}", t.system);
    assert!(m.pending_warning.is_none());
}

#[test]
fn what_came_to_nothing_leaves_no_trace() {
    let mut m = mind();
    m.open_turn(&vec![wake("x", "said")], &vec![], false, None, None);
    assert!(matches!(m.hear(false, &Answer::Failed("down".into()), false), After::Over(n) if n == "llm error: down"));
    assert!(m.history.is_empty());
    m.open_turn(&vec![], &vec![], true, None, None);
    assert!(matches!(m.hear(true, &Answer::Said { words: "done".into(), calls: 0 }, false), After::Over(_)));
    assert!(m.history.is_empty());
}

#[test]
fn a_reset_overtakes_an_answer() {
    let mut m = mind();
    m.open_turn(&vec![wake("x", "said")], &vec![], false, None, None);
    match m.hear(false, &Answer::Said { words: "done".into(), calls: 2 }, true) {
        After::Over(n) => assert_eq!(n, "session reset while thinking — this turn's 2 call(s) dropped, nothing sent"),
        _ => panic!(),
    }
    match m.hear(false, &Answer::Said { words: " done ".into(), calls: 2 }, false) {
        After::Act(beside) => assert_eq!(beside.as_deref(), Some("done")),
        _ => panic!(),
    }
    assert_eq!(m.history.last().unwrap().1, "done");
    assert!(matches!(m.hear(false, &Answer::Said { words: "  ".into(), calls: 1 }, false), After::Act(None)));
}

#[test]
fn results_survive_compaction() {
    let mut m = mind();
    let mut r = Vec::new();
    m.back("Bash", &out("$ ls", "a"), 0, &mut r);
    m.open_turn(&vec![wake("x", "said")], &r, false, None, None);
    let note = m.sum_up("short".into(), false);
    assert_eq!(note, "compacted: history replaced with a 5-char summary the model wrote; 1 tool results kept");
    assert_eq!(m.history.len(), 1);
    assert_eq!(m.history[0].1, "short");
    assert!(m.inspect(Some(0), None).ok);
    assert_eq!(m.sum_up("é".into(), true), "compacting before reboot: history replaced with a 2-char summary the model wrote; rebooting now");
    assert_eq!(summary_of(&Some(" s ".into())), "s");
    assert_eq!(summary_of(&Some("  ".into())), "(compaction summary unavailable — history cleared anyway)");
    assert_eq!(summary_of(&None), "(compaction summary unavailable — history cleared anyway)");
}

#[test]
fn calls_take_their_lane() {
    assert!(matches!(lane_of("Compact", false), Lane::Compact));
    assert!(matches!(lane_of("Reboot", true), Lane::Reboot));
    assert!(matches!(lane_of("Reboot", false), Lane::Out));
    for n in ["TokenBudget", "BrowseTools", "Inspect", "AboutMe", "Running", "Cancel"] {
        assert!(matches!(lane_of(n, true), Lane::Session));
    }
    assert!(matches!(lane_of("Bash", true), Lane::Out));
    let who = About { name: "meow".into(), extra: "Where: here".into(), model: "glm".into(), os: "linux".into(), arch: "arm".into(), version: "0.1".into(), persona: "P".into() };
    let m = mind();
    let (o, stop) = m.session_tool(&call("AboutMe", &[]), 0, &vec![], &vec![], 0, &who);
    assert_eq!(o.body, "Name: meow\nWhere: here\nModel: glm\nPlatform: linux arm\nBuild: kot 0.1\nPersona:\nP");
    assert_eq!(stop, None);
    assert_eq!(about_me("m", "", "g", "o", "a", "v", "p").body, "Name: m\nModel: g\nPlatform: o a\nBuild: kot v\nPersona:\np");
    assert!(m.session_tool(&call("TokenBudget", &[]), 10, &vec![], &vec![], 0, &who).0.body.starts_with("10/1000"));
    assert_eq!(m.session_tool(&call("Running", &[]), 0, &vec![], &vec![], 0, &who).0.body, "Nothing is running.");
    assert_eq!(unknown_tool(&call("Nope", &[])).meta, vec!["no such tool here"]);
    let c = cancelled(&call("Bash", &[("command", "sleep 9")]), "so far");
    assert_eq!((c.arg.as_str(), c.ok, c.meta[0].as_str(), c.body.as_str()), ("$ sleep 9", false, "cancelled", "so far"));
    let calls = vec![call("Bash", &[]), call("SendMessage", &[])];
    let cost = turn_cost(&calls, 1, 2, 3, 4, Some(5), 6);
    assert_eq!((cost.tools, cost.messages, cost.total), (1, 1, 3));
    assert!(matches!(bare_turn(1, "x"), Bare::Called));
    assert!(matches!(bare_turn(0, " \n"), Bare::Wasted));
    assert!(matches!(bare_turn(0, " hi "), Bare::Spoke(w) if w == "hi"));
}

#[test]
fn gists_say_what_a_call_does() {
    let g = |n: &str, a: &[(&str, &str)]| gist(&call(n, a));
    assert_eq!(g("Bash", &[("command", "ls")]), "$ ls");
    assert_eq!(g("ReadFile", &[("path", "/a")]), "/a");
    assert_eq!(g("Edit", &[("file_path", "/a")]), "/a");
    assert_eq!(g("Grep", &[("pattern", "x")]), "x in .");
    assert_eq!(g("SendMessage", &[("to", "@kuro"), ("body", "hi")]), "→ kuro  hi");
    assert_eq!(g("SendMessage", &[("body", "hi")]), "→ litter  hi");
    assert_eq!(g("TaskUpdate", &[("task", "t1"), ("status", "done"), ("text", "x")]), "t1 done  x");
    assert_eq!(g("LocalTask", &[("action", "add"), ("text", "x")]), "add x");
    assert_eq!(g("Peers", &[]), "");
    assert_eq!(g("Odd", &[("k", "v")]), r#"{"k":"v"}"#);
}

#[test]
fn no_tool_is_offered_twice() {
    let v = |s: &[&str]| s.iter().map(|x| x.to_string()).collect::<Vec<_>>();
    assert_eq!(tools(&v(&["Bash", "Inspect"]), &v(&["Peers", "Bash", "Peers"]), true), v(&["Bash", "Inspect", "Peers", "Reboot"]));
    assert_eq!(tools(&v(&["Bash"]), &v(&[]), false), v(&["Bash"]));
}

#[test]
fn long_results_keep_both_their_ends() {
    assert_eq!(feed(3, "short"), "short");
    let s = format!("{}{}{}", "a".repeat(1000), "b".repeat(500), "c".repeat(2000));
    let fed = feed(3, &s);
    assert_eq!(fed, format!("{}\n… [500 chars cut here — Inspect {{\"id\": 3, \"offset\": 1000}} reads on from this point] …\n{}", "a".repeat(1000), "c".repeat(2000)));
    assert_eq!(feed(3, &"é".repeat(FEED_CHARS)).chars().count(), FEED_CHARS);
    let kept = keep(&"z".repeat(STORE_CHARS + 10));
    assert!(kept.contains("\n… [10 chars not kept] …\n"));
    assert_eq!(kept.len(), STORE_CHARS + "\n… [10 chars not kept] …\n".len());
    assert_eq!(summary("\n  \nfirst line\nsecond"), "first line");
    assert_eq!(summary(&"y".repeat(71)), format!("{}…", "y".repeat(70)));
}

fn row(id: usize, turn: u64, full: &str) -> Fresh {
    Fresh { id, name: "Bash".into(), head: "$ ls".into(), chars: 999, turn, full: full.into() }
}

#[test]
fn old_results_shrink_to_stubs() {
    let mut h = vec![(Speaker::User, "pre ROW-A post".to_string()), (Speaker::Assistant, "ROW-A".to_string()), (Speaker::User, "ROW-B".to_string())];
    let left = age(&mut h, &vec![row(4, 1, "ROW-A"), row(5, 6, "ROW-B")], 2, 7);
    assert_eq!(left.len(), 1);
    assert_eq!(left[0].id, 5);
    assert_eq!(h[0].1, "pre [#4 Bash] $ ls — 999 chars, out of the conversation now; Inspect {\"id\": 4} reads it again. post");
    assert_eq!(h[1].1, "ROW-A", "only what was fed is touched");
    age(&mut h, &vec![row(1, 0, "ROW-B")], 2, 7);
    assert_eq!(h[2].1, "[#1 Bash] $ ls — 999 chars, from before a restart and no longer kept; run it again if you need it.");
}

#[test]
fn a_saved_conversation_loads_as_it_was() {
    let h = vec![(Speaker::User, "hi".to_string()), (Speaker::Assistant, "hello".to_string())];
    let rows = save_history(&h);
    assert_eq!(rows, vec![("user".to_string(), "hi".to_string()), ("assistant".to_string(), "hello".to_string())]);
    let mut rows = rows;
    rows.push(("narrator".into(), "x".into()));
    let s = load_history(Stored::Current { history: rows, fresh: vec![], turns: 4, next_id: 9 });
    assert_eq!((s.history.len(), s.turns, s.next_id, s.trimmed), (2, 4, 9, 0));
    assert!(s.history[1].0 == Speaker::Assistant);
    assert!(load_history(Stored::Nothing).history.is_empty());
    let numbered = |n: usize| Stored::Legacy { history: vec![("user".into(), format!("Results of tools you called:\n[#{n} Bash] x"))] };
    assert!(leaves_numbers(&Stored::Nothing) && leaves_numbers(&numbered(3)) && leaves_numbers(&numbered(usize::MAX - 1)));
    assert!(!leaves_numbers(&numbered(usize::MAX)));
    assert_eq!(load_history(numbered(usize::MAX - 1)).next_id, usize::MAX);
    assert!(RESTARTED.starts_with("(You were restarted."));
}

#[test]
fn old_conversations_are_cut_down() {
    let long = format!("wake\n\nResults of tools you called:\n[#3 Bash] $ make (exit 0)\n{}\n\n[#7 Bash] $ ls\nb", "log\n".repeat(200));
    let s = load_history(Stored::Legacy { history: vec![("user".into(), long.clone()), ("assistant".into(), "ok".into())] });
    assert_eq!((s.trimmed, s.next_id), (1, 8));
    assert_eq!(
        s.history[0].1,
        "wake\n\nResults of tools you called:\n[#3 Bash] $ make (exit 0)\n[#7 Bash] $ ls\n(Only each result's first line is kept: they're from before a restart and can't be read again.)"
    );
    let mut h = vec![(Speaker::User, "Results of tools you called:\n[#1 Bash] x".to_string())];
    assert_eq!(trim_legacy(&mut h), (0, Some(1)), "it would not get shorter");
    assert_eq!((row_id("[#3 Bash] x"), row_id("[#x Bash] y"), row_id("[#3 Bash]"), row_id("#3")), (Some(3), None, None, None));
}

#[test]
fn a_buffer_keeps_both_its_ends() {
    let mut l = Live::new(0, false);
    l.push(b"start ", 1_000);
    assert_eq!((l.text().as_str(), l.bytes, l.quiet(3_000), l.ran(3_000)), ("start ", 6, 2_000, 3_000));
    l.push(&[0xff, b'x'], 2_000);
    assert_eq!(l.text(), "start \u{fffd}x");
    assert_eq!(l.tail(2), "…\u{fffd}x");
    assert_eq!(l.tail(99), "start \u{fffd}x");
    let mut l = Live::new(0, false);
    l.push(&vec![b'a'; LIVE_BYTES], 0);
    l.push(b"b", 0);
    let gone = LIVE_BYTES + 1 - LIVE_BYTES / 2 - LIVE_HEAD;
    let note = format!("\n… [{gone} bytes not kept] …\n");
    assert_eq!(l.out.len(), LIVE_HEAD + note.len() + LIVE_BYTES / 2);
    assert!(l.text().ends_with("ab"));
    for _ in 0..200 {
        l.push(&vec![b'c'; 8192], 0);
        assert!(l.out.len() <= LIVE_BYTES);
    }
    assert!(l.out.starts_with(b"aaaa") && l.out.ends_with(b"cccc"));
    let mut l = Live::new(0, false);
    l.push(&vec![b'a'; LIVE_BYTES], 0);
    l.push(b"b", 0);
    assert_eq!(l.bytes, LIVE_BYTES as u64 + 1);
    let mut q = Live::new(0, true);
    assert_eq!(q.quiet(9_000), 0, "a queued call is never quiet");
    q.begin(9_000);
    assert_eq!((q.ran(10_000), q.quiet(10_000)), (1_000, 1_000));
}

#[test]
fn calls_in_flight_are_seen_and_stopped() {
    let mut act = Activity { phase: "thinking".into(), ..Default::default() };
    let mut flights = 0;
    let id = launch(&mut act, &mut flights, &call("Bash", &[("command", "make")]), 1_000);
    let second = launch(&mut act, &mut flights, &call("Bash", &[("command", "ls")]), 1_000);
    assert_eq!((id, second, flights), (0, 1, 2));
    let mut l = Live::new(1_000, false);
    l.push(b"building", 2_000);
    let mut live = vec![(id, l), (second, Live::new(1_000, true))];
    assert_eq!(
        still_running(&act.running, &live, 62_000).unwrap(),
        "Still running (Running <id> for output so far, Cancel <id> to stop one):\nr0 Bash $ make — 1m01s, 8 B of output, last 1m00s ago\nr1 Bash $ ls — queued behind the calls before it"
    );
    let all = running_tool(&act.running, &live, "", 62_000);
    assert_eq!(all.meta, vec!["2 running"]);
    assert!(all.body.ends_with("--- r0 latest output:\nbuilding"));
    let one = running_tool(&act.running, &live, " r0 ", 62_000);
    assert_eq!(one.body, "r0 Bash $ make — running 1m01s, 8 B of output, last 1m00s ago\nbuilding");
    assert_eq!(running_tool(&act.running, &live, "r1", 0).body, "r1 Bash $ ls — queued: it runs when the calls before it finish.");
    assert_eq!(running_tool(&act.running, &live, "r9", 0).meta, vec!["not running"]);
    let (o, stop) = cancel_tool(&act.running, &live, "#0", 0);
    assert_eq!((o.body.as_str(), stop), ("Cancelling r0 (Bash $ make). Its result comes back marked cancelled.", Some(0)));
    assert_eq!(cancel_tool(&act.running, &live, "r7", 0).1, None);
    assert_eq!(cancel_tool(&vec![], &vec![], "r7", 0).0.body, "Nothing is running.");

    let quiet = 2_000 + STALL_AFTER;
    let (notices, shown) = watch(&mut act.running, &mut live, quiet, STALL_AFTER);
    assert_eq!(notices.len(), 1);
    assert!(notices[0].starts_with("[r0 Bash still running] $ make — 2m01s so far, no new output for 2m00s. It may be stalled:"), "{}", notices[0]);
    assert_eq!(shown, vec!["r0 Bash quiet for 2m00s — telling the model"]);
    assert!(watch(&mut act.running, &mut live, quiet + 1, STALL_AFTER).0.is_empty(), "once per silence");
    assert_eq!((act.running[0].output, act.running[0].last_output), (8, 2_000));

    settle(&mut act, 5_000);
    assert_eq!((act.phase.as_str(), act.since), ("waiting", 5_000));
    assert_eq!(land(&mut act, &mut live, Some(0), "", "", true, "exit 0", 6_000), ("Bash".to_string(), "$ make".to_string(), 5_000));
    assert_eq!(live.len(), 1);
    land(&mut act, &mut live, Some(1), "", "", false, "exit 1", 7_000);
    assert_eq!((act.ok, act.failed, act.phase.as_str(), act.since), (1, 1, "idle", 7_000));
    assert_eq!(land(&mut act, &mut live, None, "AboutMe", "", true, "", 8_000), ("AboutMe".to_string(), "".to_string(), 0));
    for _ in 0..20 {
        land(&mut act, &mut live, None, "AboutMe", "", true, "", 8_000);
    }
    assert_eq!(act.recent.len(), RECENT);
    publish(&mut act, 3, 2, 9_000);
    assert_eq!((act.followups, act.held, act.at), (3, 2, 9_000));
    enter_phase(&mut act, "idle", 9_500);
    assert_eq!(act.since, 7_000, "the clock restarts only for a new phase");
}

#[test]
fn a_long_call_is_cut_short_on_the_running_list() {
    let mut act = Activity::default();
    let mut flights = 4;
    launch(&mut act, &mut flights, &call("WriteFile", &[("path", &"p".repeat(200))]), 7);
    let f = &act.running[0];
    assert_eq!((f.id, f.tool.as_str(), f.since), (4, "WriteFile", 7));
    assert_eq!(f.arg.chars().count(), ARG_CHARS);
    assert!(f.arg.ends_with("pp…"));
}

#[test]
fn a_turn_is_on_the_record() {
    let mut act = Activity { phase: "thinking".into(), since: 1, thought: "before".into(), ..Default::default() };
    begin_turn(&mut act, "hello", 9);
    assert_eq!((act.turns, act.why.as_str(), act.phase.as_str(), act.since), (1, "hello", "thinking", 9));
    end_turn(&mut act, &None, 120);
    assert_eq!((act.tokens, act.thought.as_str()), (120, "before"));
    end_turn(&mut act, &Some("a  long\nthought".into()), 130);
    assert_eq!((act.tokens, act.thought.as_str()), (130, "a long thought"));
}

#[test]
fn an_inspected_page_is_fed_whole() {
    for name in [4, 100, 150, 500] {
        let mut m = mind();
        let mut results = Vec::new();
        m.back(&"t".repeat(name), &out("$ make", &"x".repeat(20_000)), 0, &mut results);
        let page = m.inspect(Some(0), Some(5_000));
        if name < 200 {
            assert_eq!(page.arg, format!("#0 {}", "t".repeat(name)));
        } else {
            assert!(page.arg.starts_with("#0 ttt") && page.arg.ends_with('…'));
            assert_eq!(page.text().chars().count(), FEED_CHARS, "no more is cut than must be");
        }
        let page = page.text();
        assert!(page.chars().count() <= FEED_CHARS && page.ends_with("for the next part]"));
        assert_eq!(feed(7, &page), page);
    }
    let mut m = mind();
    let mut results = Vec::new();
    m.back(&"t".repeat(500), &out("$ make", "done"), 0, &mut results);
    assert_eq!(m.inspect(Some(0), None).arg, format!("#0 {}", "t".repeat(500)));
}
