//! A cat on the chain: what wakes it, what it is told, and what it writes.

use kot::agent::{
    about, address_of, artifact_list, artifact_path, artifact_read, dispatch, is_listed, needs_tasks, peers_report, prompt, query, query_failed, query_list, query_path, record, spoke, stats_report,
    submit_step, submitted, Act, CatStats, ChainCall, Dispatch, Entry, Fetched, Heard, Nonce, Session, Spoken, Then, Watch, ATTEMPTS,
};
use kot::asleep::answer;
use kot::common::{Roster, TaskId};
use kot::effects::{render, Effect};
use kot::json::Json;
use kot::keys::to_hex;
use kot::tool_out::Call;
use kot::turns::TurnCost;

fn s(x: &str) -> Json {
    Json::Str(x.into())
}

fn obj(members: &[(&str, Json)]) -> Json {
    Json::Object(members.iter().map(|(k, v)| (k.to_string(), copy(v))).collect())
}

fn copy(v: &Json) -> Json {
    match v {
        Json::Null => Json::Null,
        Json::Bool(b) => Json::Bool(*b),
        Json::Num(n) => Json::Num(*n),
        Json::Other(x) => Json::Other(x.clone()),
        Json::Str(x) => Json::Str(x.clone()),
        Json::List(l) => Json::List(l.iter().map(copy).collect()),
        Json::Object(m) => Json::Object(m.iter().map(|(k, v)| (k.clone(), copy(v))).collect()),
    }
}

fn litter() -> Roster {
    Roster::parse("root=1,meow=2,kuro=3").unwrap()
}

fn hex_of(name: &str) -> String {
    to_hex(&litter().account(name).unwrap())
}

fn call(name: &str, args: &[(&str, Json)]) -> Call {
    Call { name: name.into(), args: obj(args) }
}

fn told(eff: &Json) -> (String, &'static str) {
    let p = prompt(eff, "why?", "meow", &litter(), &vec![], 1000, 4).unwrap();
    (p.text, p.kind)
}

#[test]
fn each_event_gives_its_prompt() {
    let (text, kind) = told(&obj(&[("t", s("assigned")), ("task", s("t1.2")), ("what", s("look"))]));
    assert_eq!(kind, "task");
    assert_eq!(text, "The litter is working on:\nwhy?\n\n[assigned: t1.2] Your part: look\nCall TaskUpdate with task=t1.2 and status=claim to take it.");
    assert!(told(&obj(&[("t", s("nudge"))])).0.contains("[work: t1] You claimed this."));
    let directed = |d: &str| obj(&[("t", s("directed")), ("task", s("t4")), ("directive", s(d))]);
    assert_eq!(
        told(&directed("PlanNeeded")).0,
        "[plan-needed: t4]\nThe operator asked:\nwhy?\n\nCall TaskPlan on t4 now. One assignment each to: meow, kuro. All in ONE call."
    );
    assert!(told(&directed("ArtifactNeeded")).0.ends_with("Keep it under 1000 words — about 4 pages; anything longer is refused."));
    assert!(told(&directed("ReassignNeeded")).0.ends_with("The litter is: meow, kuro"));
    assert!(prompt(&directed("Other"), "", "meow", &litter(), &vec![], 1, 1).is_none());
    assert!(prompt(&obj(&[("t", s("opened"))]), "", "meow", &litter(), &vec![], 1, 1).is_none());
    assert!(prompt(&obj(&[]), "", "meow", &litter(), &vec![], 1, 1).is_none());
}

#[test]
fn a_clearance_names_its_sub_tasks() {
    let eff = obj(&[("t", s("directed")), ("task", s("t1")), ("directive", s("ClearanceNeeded"))]);
    assert!(needs_tasks(&eff));
    assert!(!needs_tasks(&obj(&[("t", s("said"))])));
    assert!(told(&eff).0.contains("(none outstanding right now — check /tasks before acting)"));
    let row = |id: &str, status: &str, outcome: Json| obj(&[("id", s(id)), ("status", s(status)), ("holder", s(&hex_of("kuro"))), ("outcome", outcome)]);
    let rows = vec![
        row("t1.1", "AwaitingClearance", obj(&[("kind", s("failed")), ("text", s("broke"))])),
        row("t1.2", "Claimed", Json::Null),
        row("t11.1", "AwaitingClearance", Json::Null),
        row("t1.3", "AwaitingClearance", obj(&[("kind", s("done")), ("text", s(&"x".repeat(700)))])),
    ];
    let text = prompt(&eff, "why?", "meow", &litter(), &rows, 1, 1).unwrap().text;
    let list = format!("- t1.1 (kuro, failed): broke\n- t1.3 (kuro, done): {}…", "x".repeat(600));
    assert!(text.contains(&format!("Sub-tasks awaiting your decision:\n{list}\n\nFor EACH")), "{text}");
}

#[test]
fn words_are_framed_by_who_they_were_meant_for() {
    let said = |to: Json, no_ack: bool, off: bool| {
        told(&obj(&[("t", s("said")), ("from", s(&hex_of("kuro"))), ("to", to), ("body", s("hi")), ("no_ack", Json::Bool(no_ack)), ("off_record", Json::Bool(off))]))
    };
    let (text, kind) = said(s("someone"), false, false);
    assert_eq!(kind, "said");
    assert!(text.starts_with("kuro said to the litter:\n\"hi\"\n\nThis was sent to you directly. The litter's other members, by name: root, kuro.\n\nReply with SendMessage."));
    assert!(said(Json::Null, false, false).0.contains("This was sent to the whole litter, not just you"));
    assert!(said(Json::Null, true, false).0.contains("This is a closing remark, not a question"));
    assert!(said(Json::Null, false, true).0.contains(" This was sent off the record"));
    assert!(prompt(&obj(&[("t", s("said"))]), "", "meow", &litter(), &vec![], 1, 1).is_none());
}

#[test]
fn reads_are_reported() {
    let rows = vec![obj(&[("id", s("t1")), ("title", s("Why")), ("author", s(&hex_of("meow")))]), obj(&[])];
    let out = artifact_list(&rows, &litter());
    assert_eq!((out.ok, out.meta.join(""), out.body.as_str()), (true, "2 artifacts".into(), "t1: Why (meow)\n?:  (someone)"));
    assert_eq!(artifact_path(" T2"), "/artifact/ T2");
    assert_eq!(artifact_path("7"), "/note/7");
    let out = artifact_read("7", &obj(&[("found", Json::Bool(true)), ("body", s("héllo"))]));
    assert_eq!((out.ok, out.meta.join(""), out.body.as_str()), (true, "6 B".into(), "héllo"));
    let out = artifact_read("7", &obj(&[("found", Json::Bool(false))]));
    assert_eq!((out.ok, out.meta.join("")), (false, "no such artifact".into()));
    let ask = |tool: &str, id: &str| Call { name: tool.to_string(), args: obj(&[("id", s(id))]) };
    assert_eq!(query_path(&ask("ArtifactRead", "t3")).as_deref(), Some("/artifact/t3"));
    assert_eq!(query_path(&ask("ArtifactList", "")).as_deref(), Some("/artifacts"));
    assert_eq!(query_path(&ask("Peers", "")).as_deref(), Some("/mesh/peers"));
    assert_eq!(query_path(&ask("Stats", "")).as_deref(), Some("/stats"));
    assert_eq!(query_path(&ask("SendMessage", "")), None);
    let got = |tool: &str, f: Fetched<Json>| query(&ask(tool, "7"), "meow", &litter(), &f);
    let listed = |tool: &str, f: Fetched<Vec<Json>>| query_list(&ask(tool, "7"), &litter(), &f);
    let out = got("ArtifactRead", Fetched::Answer(obj(&[("found", Json::Bool(true)), ("body", s("hi"))]))).unwrap();
    assert_eq!((out.arg.as_str(), out.ok, out.body.as_str()), ("7", true, "hi"));
    let out = got("ArtifactRead", Fetched::Unreachable("down".into())).unwrap();
    assert_eq!((out.arg.as_str(), out.ok, out.meta, out.body.as_str()), ("7", false, vec!["node unreachable".to_string()], "down"));
    let out = listed("Stats", Fetched::Unreadable("invalid type: null, expected a sequence".into())).unwrap();
    assert_eq!((out.arg.as_str(), out.ok, out.meta, out.body.as_str()), ("", false, vec!["bad response".to_string()], "invalid type: null, expected a sequence"));
    let out = listed("Stats", Fetched::Unreachable("down".into())).unwrap();
    assert_eq!((out.arg.as_str(), out.ok, out.meta, out.body.as_str()), ("", false, vec!["node unreachable".to_string()], "down"));
    assert_eq!(listed("ArtifactList", Fetched::Answer(vec![])).unwrap().meta, vec!["0 artifacts"]);
    assert_eq!(listed("Stats", Fetched::Answer(vec![])).unwrap().meta, vec!["0 cats"]);
    for tool in ["ArtifactList", "Stats"] {
        assert!(is_listed(&ask(tool, "")) && got(tool, Fetched::Answer(Json::Null)).is_none());
    }
    for tool in ["ArtifactRead", "Peers", "Bash"] {
        assert!(!is_listed(&ask(tool, "")) && listed(tool, Fetched::Answer(vec![])).is_none());
    }
    assert_eq!(got("Peers", Fetched::Answer(Json::Null)).unwrap().meta, vec!["1 live"]);
    assert!(got("Bash", Fetched::Answer(Json::Null)).is_none());
    assert_eq!(query_failed("", true, "eof").meta, vec!["bad response"]);
    assert_eq!(query_failed("", false, "down").meta, vec!["node unreachable"]);
    assert_eq!(address_of("https://a:1"), "a:1");
    assert_eq!(address_of("a:1"), "a:1");
}

#[test]
fn peers_are_reported() {
    let v = obj(&[
        ("me", obj(&[("role", s("leader"))])),
        (
            "peers",
            Json::List(vec![
                obj(&[("route", s("https://k:1")), ("status", obj(&[("account", s(&hex_of("kuro"))), ("role", s("follower"))])), ("seen_ms_ago", Json::Num(12))]),
                obj(&[("route", s("https://x:1")), ("status", Json::Null)]),
            ]),
        ),
        ("inbound", Json::List(vec![obj(&[("status", obj(&[("name", s("tama")), ("role", s("learner"))])), ("seen_ms_ago", Json::Num(5))])])),
    ]);
    let out = peers_report("meow", &litter(), &v);
    assert_eq!(
        out.body,
        "meow — me, leader\nkuro — follower, at k:1, seen 12ms ago\nhttps://x:1 — never answered\ntama — learner, calls us but we can't reach it, heard 5ms ago\nroster (configured, not all necessarily live): root, meow, kuro"
    );
    assert_eq!(out.meta, vec!["4 live"]);
    let rows = vec![obj(&[("account", s(&hex_of("meow"))), ("turns", Json::Num(2)), ("tool_calls", Json::Num(3)), ("tokens", Json::Num(4)), ("ms", Json::Num(5))])];
    let out = stats_report(&rows, &litter());
    assert!(out.body.starts_with("meow — 2 turns"), "{}", out.body);
    assert_eq!(out.meta, vec!["1 cats"]);
}

#[test]
fn calls_go_to_the_node_or_nowhere() {
    for n in ["ArtifactList", "ArtifactRead", "Peers", "Stats"] {
        assert_eq!(dispatch(n), Dispatch::Query);
    }
    for n in ["TaskPlan", "TaskUpdate", "TaskReassign", "SendMessage", "Artifact", "RequestCompaction"] {
        assert_eq!(dispatch(n), Dispatch::Record);
    }
    assert_eq!(dispatch("Bash"), Dispatch::Unknown);
}

#[test]
fn plans_leave_out_what_names_no_one() {
    let item = |who: &str| obj(&[("who", s(who)), ("what", s("w"))]);
    let c = call("TaskPlan", &[("task", s("t1")), ("assignments", Json::List(vec![item("kuro"), item("nobody")]))]);
    let (call1, arg) = record(&c, &litter()).unwrap();
    assert_eq!(arg, "t1 → 1 sub-tasks");
    match call1 {
        ChainCall::Plan { parent, assignments } => {
            assert_eq!(parent, TaskId { parent: 1, part: None });
            assert_eq!(assignments[0].who, litter().account("kuro").unwrap());
        }
        _ => panic!(),
    }
    assert_eq!(record(&call("TaskPlan", &[("task", s("x"))]), &litter()).unwrap_err().meta, vec!["bad task id"]);
}

#[test]
fn updates_name_their_act() {
    let update = |task: &str, status: &str| record(&call("TaskUpdate", &[("task", s(task)), ("status", s(status)), ("text", s("why"))]), &litter());
    for (status, act) in
        [("claim", Act::Claim), ("done", Act::Done), ("failed", Act::Failed), ("clear", Act::Clear), ("reopen", Act::Reopen), ("artifact", Act::Artifact)]
    {
        let (c, arg) = update("t1.2", status).unwrap();
        assert_eq!(arg, format!("t1.2 {status}  why"));
        assert!(matches!(c, ChainCall::Update { act: a, .. } if a == act));
    }
    assert_eq!(update("t1", "maybe").unwrap_err().meta, vec!["unknown status"]);
    assert_eq!(update("x", "maybe").unwrap_err().meta, vec!["bad task id"]);
    let re = |to: &str, task: &str| record(&call("TaskReassign", &[("task", s(task)), ("to", s(to))]), &litter());
    assert_eq!(re("kuro", "t1.1").unwrap().1, "t1.1 → kuro");
    assert_eq!(re("nobody", "x").unwrap_err().meta, vec!["no such cat"]);
    assert_eq!(re("kuro", "x").unwrap_err().meta, vec!["bad task id"]);
}

#[test]
fn a_misspelled_name_sends_nothing() {
    let send = |to: &str, flags: bool| {
        record(&call("SendMessage", &[("to", s(to)), ("body", s("hey")), ("no_ack", Json::Bool(flags)), ("off_record", Json::Bool(flags))]), &litter())
    };
    for all in ["", "  ", "@all", "CATS", "litter"] {
        let (c, arg) = send(all, false).unwrap();
        assert_eq!(arg, "→ litter  hey");
        assert!(matches!(c, ChainCall::Say { to: None, no_ack: false, off_record: false, .. }));
    }
    let (c, arg) = send(" kuro ", true).unwrap();
    assert_eq!(arg, "→ kuro  hey  (no_ack, off record)");
    assert!(matches!(c, ChainCall::Say { to: Some(_), no_ack: true, off_record: true, .. }));
    let refused = send("kurro", false).unwrap_err();
    assert_eq!((refused.arg.as_str(), refused.meta[0].as_str()), ("→ kurro  hey", "no such cat — not sent"));
}

#[test]
fn artifacts_and_the_rest() {
    let (c, arg) = record(&call("Artifact", &[("text", s("# T\nbody"))]), &litter()).unwrap();
    assert_eq!(arg, "# T  (8 B)");
    assert!(matches!(c, ChainCall::PublishArtifact { text } if text == "# T\nbody"));
    assert!(matches!(record(&call("RequestCompaction", &[]), &litter()).unwrap().0, ChainCall::RequestCompaction));
    assert_eq!(record(&call("Peers", &[]), &litter()).unwrap_err().meta, vec!["Peers: not a chain write"]);
    assert_eq!(submitted("a", &Ok(())).meta, vec!["submitted"]);
    assert_eq!(submitted("a", &Err("no".into())).meta, vec!["no"]);
    assert!(about(&[0xab; 32], "https://n").ends_with("talking to its node at https://n"));
}

#[test]
fn plain_words_reach_whoever_spoke() {
    let ctx = |t: &str, no_ack: bool| obj(&[("t", s(t)), ("from", s(&hex_of("kuro"))), ("no_ack", Json::Bool(no_ack)), ("off_record", Json::Bool(true))]);
    match spoke("sure\nthing", &ctx("said", false), &litter()) {
        Spoken::Send { call: ChainCall::Say { to, body, no_ack, off_record }, arg } => {
            assert!(no_ack);
            assert_eq!(to, litter().account("kuro"));
            assert_eq!((body.as_str(), off_record), ("sure\nthing", true));
            assert_eq!(arg, "→ kuro  sure\nthing  (auto, no_ack)");
        }
        _ => panic!(),
    }
    for c in [ctx("said", true), ctx("assigned", false)] {
        assert!(matches!(spoke("sure\nthing", &c, &litter()), Spoken::Note(n) if n == "plain text, no tool call — not sent: sure"));
    }
}

#[test]
fn work_adds_up() {
    let mut st = CatStats::default();
    let cost = TurnCost { prompt: 1, out: 1, total: 10, cached: 0, window: None, ms: 7, tools: 2, messages: 1 };
    st.after_turn(&cost);
    st.after_turn(&cost);
    st.count_message();
    assert_eq!(st, CatStats { turns: 2, tool_calls: 4, messages: 3, tokens: 20, ms: 14 });
}

#[test]
fn numbers_never_repeat() {
    let mut n = Nonce::default();
    assert_eq!((n.take(7), n.take(7), n.take(0)), (7, 8, 9));
    n.forget();
    assert_eq!(n.take(20), 20);
}

#[test]
fn a_write_is_tried_again_only_where_it_may_go_well() {
    let mut n = Nonce(Some(3));
    assert!(matches!(submit_step("meow", 0, &Heard::Accepted, &mut n), Then::Sent));
    assert_eq!(n, Nonce(Some(3)));
    match submit_step("meow", 0, &Heard::Refused(obj(&[("error", s("WrongKind"))])), &mut n) {
        Then::Refused(why) => assert_eq!(why, "refused: \"WrongKind\""),
        _ => panic!(),
    }
    assert_eq!(n, Nonce(None));
    match submit_step("meow", 0, &Heard::Refused(obj(&[("error", s("Stale"))])), &mut n) {
        Then::Again { wait_ms, note } => {
            assert_eq!(wait_ms, 1000);
            assert_eq!(note, "meow: retrying submit (attempt 2/4) — refused: \"Stale\"");
        }
        _ => panic!(),
    }
    assert!(matches!(submit_step("meow", 1, &Heard::NoMeta, &mut n), Then::Again { wait_ms: 2000, .. }));
    assert!(matches!(submit_step("meow", 2, &Heard::Unreachable("x".into()), &mut n), Then::Again { wait_ms: 4000, .. }));
    match submit_step("meow", ATTEMPTS - 1, &Heard::Unreachable("x".into()), &mut n) {
        Then::GaveUp(why) => assert_eq!(why, "gave up after 4 attempts — node unreachable: x"),
        _ => panic!(),
    }
}

fn entry(seq: u64, block: u64, wakes: Option<&str>, effect: Json) -> Entry {
    Entry { seq, block, effect, wakes: wakes.map(Into::into) }
}

#[test]
fn a_stale_session_starts_fresh() {
    let saved = || Some(Session { epoch: 4, cursor: 9, question: "q".into() });
    let r = Session::load(saved(), 4);
    assert_eq!((r.epoch, r.cursor, r.question.as_str()), (4, 9, "q"));
    let r = Session::load(saved(), 5);
    assert_eq!((r.epoch, r.cursor, r.question.as_str()), (5, 0, ""));
    assert_eq!(Session::load(None, 5).cursor, 0);
}

#[test]
fn the_newest_of_a_kind_wakes_once_and_in_order() {
    let me = hex_of("meow");
    let mut w = Watch::new(&me, &Session::load(None, 1));
    let task = |t: &str| obj(&[("t", s("nudge")), ("task", s(t))]);
    let v = vec![
        entry(1, 1, Some(&me), task("t1")),
        entry(2, 1, Some(&me), task("t2")),
        entry(3, 1, Some(&me), task("t1")),
        entry(4, 1, Some("someone"), task("t3")),
        entry(5, 1, None, obj(&[("t", s("opened")), ("text", s("the question"))])),
    ];
    assert_eq!(w.take(&v), vec![1, 2]);
    assert_eq!(w.question, "the question");
    let saved = w.to_save().unwrap();
    assert_eq!((saved.cursor, saved.question.as_str(), saved.epoch), (5, "the question", 1));
    assert!(w.to_save().is_none(), "nothing is new");
    assert!(w.take(&v).is_empty(), "all of it was handled");
}

#[test]
fn an_own_broadcast_wakes_others_only() {
    let me = hex_of("meow");
    let mut w = Watch::new(&me, &Session::load(None, 1));
    let said = |from: &str, no_ack: bool, root: bool| {
        obj(&[("t", s("said")), ("from", s(&hex_of(from))), ("body", s("hm")), ("no_ack", Json::Bool(no_ack)), ("root", Json::Bool(root))])
    };
    assert_eq!(w.take(&vec![entry(1, 1, Some("*"), said("meow", false, false))]), Vec::<usize>::new());
    assert_eq!(w.take(&vec![entry(2, 1, Some("*"), said("kuro", true, false))]), Vec::<usize>::new(), "a closing remark");
    assert_eq!(w.take(&vec![entry(3, 1, Some("*"), said("kuro", false, true))]), vec![0]);
    assert_eq!(w.question, "hm", "the operator sets the subject");
}

#[test]
fn a_moved_checkpoint_ends_the_session() {
    let mut w = Watch::new("me", &Session { epoch: 2, cursor: 50, question: "q".into() });
    let news = w.on_head(Some(60), Some(2));
    assert!(!news.rebuilt && news.reset.is_none());
    let news = w.on_head(Some(3), Some(3));
    assert!(news.rebuilt);
    assert_eq!(news.reset.as_deref(), Some("chain checkpoint moved (2 -> 3)"));
    assert_eq!(w.question, "");
    assert!(w.on_head(None, None).reset.is_none());
}

#[test]
fn a_sleeping_cat_says_so() {
    let me = litter().account("meow").unwrap();
    let hex = hex_of("meow");
    let said = |t: &str, from: &str, body: &str, no_ack: bool| {
        obj(&[("t", s(t)), ("from", s(&hex_of(from))), ("body", s(body)), ("no_ack", Json::Bool(no_ack)), ("off_record", Json::Bool(body == "psst"))])
    };
    let asked = |wakes: Option<&str>, eff: Json| match answer(&entry(1, 1, wakes, eff), "meow", &me, &litter()) {
        Some(ChainCall::Say { to, body, no_ack, off_record }) => {
            assert_eq!(body, "*meow is currently asleep*");
            assert!(no_ack, "so that two sleeping cats never answer each other");
            Some((to.map(|a| to_hex(&a)), off_record))
        }
        Some(_) => panic!(),
        None => None,
    };
    let kuro = || Some(hex_of("kuro"));
    assert_eq!(asked(Some(&hex), said("said", "kuro", "hello", false)), Some((kuro(), false)), "a direct message");
    assert_eq!(asked(Some(&hex), said("said", "kuro", "psst", false)), Some((kuro(), true)), "off the record as it was asked");
    assert_eq!(asked(Some(&hex), said("message", "kuro", "hello", false)), Some((kuro(), false)), "a threaded one");
    assert_eq!(asked(Some("*"), said("said", "kuro", "what of @meow, then?", false)), Some((kuro(), false)), "a tag");
    assert_eq!(asked(Some("*"), said("said", "kuro", "hello all", false)), None, "to the litter");
    assert_eq!(asked(Some("*"), said("said", "meow", "I am @meow", false)), None, "its own words");
    assert_eq!(asked(Some(&hex), said("said", "kuro", "thanks", true)), None, "a closing remark");
    assert_eq!(asked(Some(&hex_of("kuro")), said("said", "root", "@meow is out", false)), None, "meant for another");
    assert_eq!(asked(None, said("said", "kuro", "@meow", false)), None);
    assert_eq!(asked(Some(&hex), obj(&[("t", s("nudge")), ("task", s("t1"))])), None, "work is no speech");
}

#[test]
fn work_makes_a_turn_and_a_record_makes_none() {
    let (me, task) = (litter().account("meow").unwrap(), TaskId { parent: 1, part: Some(2) });
    let asked = |e: Effect| prompt(&render(&e), "why?", "meow", &litter(), &vec![], 1000, 4).map(|p| p.kind);
    assert_eq!(asked(Effect::Assigned { holder: me, task, what: "look".into(), expect: "".into() }), Some("task"));
    for d in ["PlanNeeded", "ClearanceNeeded", "ArtifactNeeded", "ReassignNeeded"] {
        assert_eq!(asked(Effect::Directed { holder: me, task, directive: d.into() }), Some("task"), "{d}");
    }
    assert_eq!(asked(Effect::Record { who: me, task, act: "done".into(), text: "it is".into() }), None);
}
