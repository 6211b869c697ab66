//! The operator's side: what is typed, what is shown of it, and what is sent.

use kot::client::{
    about_task, adopt_chain_roster, cat_of, event_line, event_time, feedback, host_port, listing, listing_text, no_node, quiet_line, render_effect,
    resolve_accounts, seal_news, seal_overdue, session_header, submit_step, tail_event, tasks_text, Next, Posted,
};
use kot::command::{id_word, parse_targets, receiver_name, refused, run_command, say_call, show_artifact, Action, ArtifactId, Write};
use kot::common::{Roster, TaskId};
use kot::input::{current_word, Done, Input, Key};
use kot::json::Json;
use kot::keys::{short, to_hex, Account};
use kot::peers::{peers_text, primary, MeshWatch};
use kot::replay::{chain_row, gaps, mesh_standing, preview, replay, replay_title, sealer};
use kot::scroll::Shown;
use kot::tree::log_tree;
use kot::ui::{theme, Rgb, Skin};

fn skin() -> Skin {
    Skin { colour: false, width: 80, theme: theme("bund"), ramp: (0..300).map(|n| vec![Rgb(1, 2, 3); n]).collect() }
}

fn litter() -> Roster {
    Roster::parse("root=1,meow=2,kuro=3").unwrap()
}

fn account(name: &str) -> Account {
    litter().account(name).unwrap()
}

fn hx(name: &str) -> Json {
    Json::Str(to_hex(&account(name)))
}

fn s(x: &str) -> Json {
    Json::Str(x.into())
}

fn n(x: u64) -> Json {
    Json::Num(x)
}

fn obj(members: Vec<(&str, Json)>) -> Json {
    Json::Object(members.into_iter().map(|(k, v)| (k.to_string(), v)).collect())
}

fn event(block: u64, at: Option<u64>, effect: Json) -> Json {
    let mut m = vec![("block", n(block)), ("effect", effect)];
    if let Some(at) = at {
        m.push(("at", n(at)));
    }
    obj(m)
}

fn text(x: Shown) -> String {
    match x {
        Shown::Text(t) => t,
        Shown::Speech { rows, .. } => rows.into_iter().map(|(a, b)| format!("{a}{b}")).collect::<Vec<_>>().join("\n"),
    }
}

#[test]
fn routes_are_shown_without_their_scheme() {
    assert_eq!(host_port("https://192.168.1.126:9944/"), "192.168.1.126:9944");
    assert_eq!(host_port("host:1"), "host:1");
    assert_eq!(no_node(&vec!["a".into(), "b".into()]), "no node answered (tried a, b)");
    assert_eq!(quiet_line("x"), "  \u{1b}[2mx\u{1b}[0m");
}

#[test]
fn the_chains_own_roster_is_adopted() {
    let rows = Json::List(vec![obj(vec![("name", s("tama")), ("account", hx("kuro"))]), obj(vec![("name", s("bad")), ("account", s("zz"))])]);
    let r = adopt_chain_roster(&rows).unwrap();
    assert_eq!(r.names(), vec!["tama"]);
    assert!(adopt_chain_roster(&Json::List(vec![])).is_none());
    assert!(adopt_chain_roster(&Json::Null).is_none());
}

#[test]
fn a_submit_is_tried_again_only_where_it_may_go_well() {
    let me = account("meow");
    let refused = |why: &str| Posted::Answer { ok: false, body: obj(vec![("error", s(why))]) };
    match submit_step(0, &Posted::Answer { ok: true, body: obj(vec![("note", s("queued")), ("tx_hash", s("ab"))]) }, &me) {
        Next::Sent { note, hash } => assert_eq!((note.as_deref(), hash.as_deref()), (Some("  \u{1b}[2mqueued\u{1b}[0m"), Some("ab"))),
        _ => panic!(),
    }
    assert!(matches!(submit_step(0, &refused("WrongKind"), &me), Next::Failed(w) if w == "\"WrongKind\""));
    match submit_step(0, &refused("Invalid(Payment)"), &me) {
        Next::Failed(w) => assert!(w.starts_with(&format!("\"Invalid(Payment)\" — {} isn't a member of this chain", short(&me))), "{w}"),
        _ => panic!(),
    }
    for why in ["Stale", "Future", "there is no route to it"] {
        assert!(matches!(submit_step(0, &refused(why), &me), Next::Again { wait_ms: 1000, .. }));
    }
    match submit_step(1, &Posted::Unreachable("x".into()), &me) {
        Next::Again { wait_ms, note } => {
            assert_eq!(wait_ms, 2000);
            assert!(note.contains("retrying submit (attempt 3/4) — node unreachable: x"), "{note}");
        }
        _ => panic!(),
    }
    assert!(matches!(submit_step(3, &refused("Stale"), &me), Next::Failed(w) if w == "gave up after 4 attempts — refused: \"Stale\""));
    assert!(seal_news("ab", &obj(vec![("status", s("sealed")), ("height", n(4))])).unwrap().contains("ab sealed at block 4"));
    assert!(seal_news("ab", &obj(vec![("status", s("unknown"))])).unwrap().contains("lost track of it"));
    assert!(seal_news("ab", &obj(vec![("status", s("pending"))])).is_none());
    assert!(seal_overdue("ab").contains("ab: still not sealed after 30s"));
}

#[test]
fn tasks_are_listed() {
    let k = skin();
    assert_eq!(tasks_text(&k, &vec![], &litter()), "  no tasks");
    let row = obj(vec![("id", s("t1")), ("status", s("Open")), ("holder", Json::Null), ("assignee", hx("kuro")), ("lease_until", n(9)), ("text", s("do it"))]);
    assert_eq!(tasks_text(&k, &vec![row], &litter()), "  t1      Open               kuro       lease→9  do it");
    let row = obj(vec![("id", s("t2")), ("status", s("Closed"))]);
    assert_eq!(tasks_text(&k, &vec![row], &litter()), "  t2      Closed             -           ");
}

#[test]
fn artifacts_and_notes_are_listed() {
    let rows = vec![obj(vec![("id", s("t1")), ("title", s("T")), ("author", hx("meow"))])];
    assert_eq!(listing(&rows, false, &litter()), vec!["  t1  T  (meow)"]);
    let notes = vec![obj(vec![("id", n(7)), ("title", s("N"))])];
    assert_eq!(listing(&notes, true, &litter()), vec!["  7  N  (someone)"]);
    assert_eq!(listing_text(&skin(), &vec![], false, &litter()), "  no artifacts yet");
    assert_eq!(listing_text(&skin(), &vec![], true, &litter()), "  no notes yet");
    assert_eq!(listing_text(&skin(), &notes, true, &litter()), "  7  N  (someone)");
    let a = obj(vec![
        ("votes", obj(vec![("up", Json::List(vec![hx("meow")])), ("down", Json::List(vec![]))])),
        ("comments", Json::List(vec![obj(vec![("who", hx("kuro")), ("body", s("nice"))]), obj(vec![("body", s("?"))])])),
    ]);
    assert_eq!(feedback(&a, &litter()), vec!["\n▲ 1  ▼ 0", "\n--- comments (this epoch) ---", "  kuro: nice", "  ?: ?"]);
    assert!(feedback(&obj(vec![]), &litter()).is_empty());
}

#[test]
fn every_effect_is_a_sentence() {
    let r = litter();
    let e = |m: Vec<(&str, Json)>| render_effect(&obj(m), &r);
    assert_eq!(e(vec![("t", s("said")), ("from", hx("kuro")), ("body", s("hi")), ("off_record", Json::Bool(true))]), "kuro: hi (off the record)");
    assert_eq!(e(vec![("t", s("message")), ("from", hx("kuro")), ("body", s("hi")), ("parent", n(4)), ("tags", Json::List(vec![s("a")]))]), "kuro: hi ↩#4 #a");
    assert_eq!(e(vec![("t", s("reacted")), ("who", hx("kuro")), ("emoji", s("+")), ("target", s("7f"))]), "kuro reacted + on #\"7f\"");
    assert_eq!(e(vec![("t", s("voted")), ("who", hx("kuro")), ("up", Json::Bool(false)), ("artifact", s("t1"))]), "kuro voted down on §t1");
    assert_eq!(e(vec![("t", s("opened")), ("who", hx("root")), ("task", s("t1")), ("text", s("x"))]), "root opened t1: x");
    assert_eq!(e(vec![("t", s("planned")), ("who", hx("meow")), ("task", s("t1")), ("count", n(2))]), "meow planned t1 into 2 subtask(s)");
    assert_eq!(e(vec![("t", s("assigned")), ("to", hx("meow")), ("task", s("t1.1")), ("what", s("w"))]), "t1.1 assigned to meow: w");
    assert_eq!(e(vec![("t", s("directed")), ("to", hx("meow")), ("task", s("t1")), ("directive", s("PlanNeeded"))]), "meow directed on t1: PlanNeeded");
    assert_eq!(e(vec![("t", s("nudge")), ("to", hx("meow")), ("task", s("t1")), ("remaining", n(0)), ("last", Json::Bool(true))]), "meow nudged on t1 (0 left, last)");
    assert_eq!(e(vec![("t", s("record")), ("who", hx("meow")), ("act", s("claim")), ("task", s("t1")), ("text", s(""))]), "meow claim on t1");
    assert_eq!(e(vec![("t", s("requeued")), ("task", s("t1")), ("from", Json::Null), ("why", s("Lease"))]), "t1 requeued from ?: Lease");
    assert_eq!(e(vec![("t", s("budget_spent")), ("holder", hx("meow")), ("task", s("t1"))]), "meow spent its nudge budget on t1");
    assert_eq!(e(vec![("t", s("closed")), ("author", hx("meow")), ("task", s("t1")), ("title", s("T"))]), "t1 closed by meow: T");
    assert_eq!(e(vec![("t", s("failed")), ("task", s("t1"))]), "t1 failed");
    assert_eq!(e(vec![("t", s("rehomed")), ("task", s("t1")), ("from", hx("meow")), ("to", hx("kuro"))]), "t1 rehomed from meow to kuro");
    assert_eq!(e(vec![("t", s("standalone_artifact")), ("author", hx("meow")), ("id", n(3)), ("title", s("T"))]), "meow published artifact 3: T");
    assert_eq!(e(vec![("t", s("new")), ("who", hx("meow"))]), r#"{"t":"new","who":"meow"}"#);
    assert_eq!(resolve_accounts(&Json::List(vec![hx("kuro"), s("t1.1"), n(1)]), &r), r#"["kuro","t1.1",1]"#);
    let ev = event(7, Some(0), obj(vec![("t", s("failed")), ("task", s("t1"))]));
    assert_eq!(event_line(&ev, &r), "  01-01 00:00:00Z  block 7  t1 failed");
    assert!(about_task(&ev, "t1") && !about_task(&ev, "t2"));
    assert!(about_task(&event(1, None, obj(vec![("task", s("t1.4"))])), "1"));
    assert!(!about_task(&event(1, None, obj(vec![("task", s("t11"))])), "t1"));
    assert_eq!((event_time(&ev, true, 9), event_time(&event(1, None, Json::Null), true, 9), event_time(&event(1, None, Json::Null), false, 9)), (Some(0), None, Some(9)));
}

#[test]
fn an_echoed_line_is_only_sealed() {
    let k = skin();
    let mine = obj(vec![("t", s("said")), ("from", hx("meow")), ("body", s("hello there"))]);
    let mut sealing = 1;
    let first = text(tail_event(&k, "t", 4, &mine, &litter(), "meow", &vec![], &mut sealing));
    assert_eq!(sealing, 0);
    assert!(first.contains("sealed") && !first.contains("hello there"), "{first}");
    let second = text(tail_event(&k, "t", 4, &mine, &litter(), "meow", &vec![], &mut sealing));
    assert!(second.contains("hello there"), "{second}");
    let head = session_header(&k, "https://n", "leader", 12, &account("meow"), &litter()).join("\n");
    assert!(head.contains("leader · 12ms · primary, seals blocks itself") && head.contains("kuro"), "{head}");
}

#[test]
fn tags_are_targets() {
    let r = litter();
    assert_eq!(parse_targets(&r, "hey @kuro, and @MEOW! @kuro @nobody"), (vec![account("kuro"), account("meow")], vec!["nobody".to_string()]));
    assert_eq!(parse_targets(&r, "@kuro @all"), (vec![], vec![]));
    assert_eq!(receiver_name(&None, &r), "litter");
    assert_eq!(receiver_name(&Some(account("kuro")), &r), "kuro");
    assert!(matches!(say_call(None, "x", true), Write::Say { to: None, no_ack: false, off_record: true, .. }));
    assert_eq!(refused(&skin(), "no"), "  refused: no");
}

fn run(dm: &mut Option<Account>, line: &str) -> Action {
    run_command(&skin(), &litter(), dm, line, Some(4), Some(ArtifactId::Task(TaskId { parent: 5, part: None })))
}

#[test]
fn commands_do_what_they_say() {
    let mut dm = None;
    assert!(matches!(run(&mut dm, "/quit"), Action::Quit));
    assert!(matches!(run(&mut dm, "/exit now"), Action::Quit));
    let kuro = litter().account("kuro");
    let mut on = kuro;
    let said = |dm: &mut Option<Account>, line: &str| match run(dm, line) {
        Action::Speak { to, .. } | Action::Reply { to, .. } => to,
        other => panic!("{other:?}"),
    };
    assert_eq!((said(&mut on, "hello"), on), (vec![kuro], kuro), "a target stays");
    assert_eq!(said(&mut on, "hello @all"), vec![None], "a tag for everyone outdoes it");
    assert_eq!(said(&mut on, "/otr @litter hello"), vec![None]);
    assert_eq!(said(&mut on, "/reply 4 @cats hello"), vec![None]);
    assert_eq!((said(&mut on, "@meow and @meow"), on), (vec![litter().account("meow")], kuro));
    assert!(matches!(run(&mut dm, "/clear"), Action::Submit { write: Write::ClearAll, .. }));
    assert!(matches!(run(&mut dm, "/tasks"), Action::Tasks));
    assert!(matches!(run(&mut dm, "/tasks @kuro"), Action::LocalTasks(c) if c == "kuro"));
    assert!(matches!(run(&mut dm, "/tasks zz"), Action::Print(t) if t == "  no such cat: @zz — /tasks alone lists the litter's tasks"));
    assert!(matches!(run(&mut dm, "/peers"), Action::Peers));
    assert!(matches!(run(&mut dm, "/activity"), Action::Activity(None)));
    assert!(matches!(run(&mut dm, "/activity kuro"), Action::Activity(Some(c)) if c == "kuro"));
    assert!(matches!(run(&mut dm, "/artifacts"), Action::Artifacts));
    assert!(matches!(run(&mut dm, "/artifacts t3"), Action::Artifact { path, .. } if path == "/artifact/t3"));
    assert!(matches!(run(&mut dm, "/artifact 3"), Action::Artifact { path, id } if path == "/note/3" && id == "3"));
    assert!(matches!(run(&mut dm, "/note 3"), Action::Note(id) if id == "3"));
    assert!(matches!(run(&mut dm, "/notes"), Action::Notes));
    assert!(matches!(run(&mut dm, "/task build it"), Action::Submit { write: Write::Open { text }, .. } if text == "build it"));
    assert!(matches!(run(&mut dm, "/nope x"), Action::Print(t) if t == "  unknown command /nope"));
    assert!(matches!(run(&mut dm, "/task"), Action::Print(t) if t == "  unknown command /task"));
}

#[test]
fn a_private_line_stays_until_it_is_turned_off() {
    let mut dm = None;
    assert!(matches!(run(&mut dm, "/dm"), Action::Print(t) if t.contains("usage: /dm <name> [message]")));
    assert!(matches!(run(&mut dm, "/dm zz"), Action::Print(t) if t == "  no such cat: @zz"));
    assert!(matches!(run(&mut dm, "/dm kuro"), Action::Dm { note, body, .. } if note == "  dm → kuro (stays until /dm turns it off)" && body.is_empty()));
    assert_eq!(dm, Some(account("kuro")));
    assert!(matches!(run(&mut dm, "hello"), Action::Speak { to, off_record: false, .. } if to == vec![Some(account("kuro"))]));
    assert!(matches!(run(&mut dm, "hello @meow"), Action::Speak { to, .. } if to == vec![Some(account("meow"))]));
    assert!(matches!(run(&mut dm, "/otr psst @zz"), Action::Speak { warnings, off_record: true, .. } if warnings == vec!["  no such cat: @zz"]));
    assert!(matches!(run(&mut dm, "/dm meow hi there"), Action::Dm { body, .. } if body == "hi there"));
    assert!(matches!(run(&mut dm, "/dm"), Action::Print(t) if t == "  dm off — meow was the target"));
    assert_eq!(dm, None);
    assert!(matches!(run(&mut dm, "/all"), Action::Print(t) if t == "  already talking to the whole litter"));
    dm = Some(account("kuro"));
    assert!(matches!(run(&mut dm, "/all hi"), Action::Submit { write: Write::Say { to: None, .. }, .. }));
    assert_eq!(dm, None);
}

#[test]
fn replies_reactions_and_votes() {
    let mut dm = None;
    match run(&mut dm, "/reply 7f so #plan it is @kuro #plan") {
        Action::Reply { to, text, parent, tags, .. } => {
            assert_eq!(to, vec![Some(account("kuro"))]);
            assert_eq!((text.as_str(), parent), ("so it is @kuro #plan", 4));
            assert_eq!(tags, vec!["plan"]);
        }
        _ => panic!(),
    }
    assert!(matches!(run_command(&skin(), &litter(), &mut dm, "/reply zz hi", None, None), Action::Print(t) if t.contains("usage: /reply <id> <text>")));
    assert!(matches!(run(&mut dm, "/react 7f +"), Action::Submit { write: Write::React { target: 4, emoji }, .. } if emoji == "+"));
    assert!(matches!(run(&mut dm, "/react 7f"), Action::Print(t) if t == "  usage: /react <id> <emoji>"));
    assert!(matches!(run(&mut dm, "/vote t5 up"), Action::Submit { write: Write::Vote { up: true, .. }, .. }));
    assert!(matches!(run(&mut dm, "/vote t5 sideways"), Action::Print(t) if t.contains("usage: /vote <id> <up|down>")));
    assert!(matches!(run_command(&skin(), &litter(), &mut dm, "/vote x up", None, None), Action::Print(t) if t == "  no such artifact id: x (t5 or 7)"));
    assert_eq!(id_word("/reply 7f hi").as_deref(), Some("7f"));
    let found = Some(obj(vec![("found", Json::Bool(true)), ("body", s("plain words"))]));
    assert!(show_artifact(&skin(), &found, false, "t1").contains("plain words"));
    assert_eq!(show_artifact(&skin(), &None, false, "t1"), "  no artifact for t1");
    assert_eq!(show_artifact(&skin(), &None, true, "7"), "  no note 7");
}

#[test]
fn forward_undoes_back() {
    let r = litter();
    let mut i = Input::new();
    for line in ["one", "two"] {
        assert!(matches!(i.handle(Key::Enter, &r, &format!(" {line} "), 0), Done::Submit(l) if l == line));
    }
    assert!(matches!(i.handle(Key::Enter, &r, "  ", 0), Done::Nothing));
    assert!(matches!(i.handle(Key::Up, &r, "dra", 3), Done::Draft(d) if d == "two"));
    assert!(matches!(i.handle(Key::Ctrl('p'), &r, "two", 3), Done::Draft(d) if d == "one"));
    assert!(matches!(i.handle(Key::Up, &r, "one", 3), Done::Nothing));
    assert!(matches!(i.handle(Key::Down, &r, "one", 3), Done::Draft(d) if d == "two"));
    assert!(matches!(i.handle(Key::Ctrl('n'), &r, "two", 3), Done::Draft(d) if d == "dra"));
    assert!(matches!(i.handle(Key::Down, &r, "dra", 3), Done::Nothing));
    assert!(matches!(i.handle(Key::Ctrl('r'), &r, "ne", 2), Done::Draft(d) if d == "one"));
    assert!(matches!(i.handle(Key::Ctrl('d'), &r, "", 0), Done::Quit));
    // Asked again, a search goes further back for what was sought first.
    let mut i = Input::new();
    for line in ["make x", "ls", "make y"] {
        assert!(matches!(i.handle(Key::Enter, &r, line, 0), Done::Submit(_)));
    }
    assert!(matches!(i.handle(Key::Ctrl('r'), &r, "make", 4), Done::Draft(d) if d == "make y"));
    assert!(matches!(i.handle(Key::Ctrl('r'), &r, "make y", 6), Done::Draft(d) if d == "make x"));
    assert!(matches!(i.handle(Key::Ctrl('r'), &r, "make x", 6), Done::Nothing));
    assert!(matches!(i.handle(Key::Down, &r, "make x", 6), Done::Draft(d) if d == "ls"));
    assert!(matches!(i.handle(Key::Down, &r, "ls", 2), Done::Draft(d) if d == "make y"));
    assert!(matches!(i.handle(Key::Other, &r, "l", 1), Done::Edit));
    assert!(matches!(i.handle(Key::Ctrl('r'), &r, "l", 1), Done::Draft(d) if d == "ls"), "another key ends the search");
    assert!(matches!(i.handle(Key::Ctrl('d'), &r, "x", 0), Done::DeleteNext));
    assert!(matches!(i.handle(Key::Ctrl('c'), &r, "x", 0), Done::Draft(d) if d.is_empty()));
    assert!(matches!(i.handle(Key::Released, &r, "x", 0), Done::Nothing));
    assert!(matches!(i.handle(Key::Other, &r, "x", 0), Done::Edit));
}

#[test]
fn words_are_completed() {
    let r = litter();
    let mut i = Input::new();
    assert!(matches!(i.handle(Key::Tab, &r, "hi @k", 5), Done::Place { draft, cursor: 8 } if draft == "hi @kuro"));
    assert!(matches!(i.handle(Key::Tab, &r, "/ta", 3), Done::Place { draft, .. } if draft == "/ta@kuro"), "the same completion goes on");
    let mut i = Input::new();
    assert!(matches!(i.handle(Key::Tab, &r, "/ta", 3), Done::Place { draft, .. } if draft == "/task"));
    assert!(matches!(i.handle(Key::Tab, &r, "/task", 5), Done::Place { draft, .. } if draft == "/tasks"));
    assert!(matches!(i.handle(Key::BackTab, &r, "/tasks", 6), Done::Place { draft, .. } if draft == "/task"));
    let mut i = Input::new();
    assert!(matches!(i.handle(Key::Tab, &r, "/dm k", 5), Done::Place { draft, .. } if draft == "/dm kuro"));
    let mut i = Input::new();
    assert!(matches!(i.handle(Key::Tab, &r, "plain", 5), Done::Nothing));
    // The whole word under the cursor is replaced.
    let mut i = Input::new();
    assert!(matches!(i.handle(Key::Tab, &r, "/task", 3), Done::Place { draft, cursor: 5 } if draft == "/task"));
    let mut i = Input::new();
    assert!(matches!(i.handle(Key::Tab, &r, "hi @kur there", 5), Done::Place { draft, cursor: 8 } if draft == "hi @kuro there"));
    assert_eq!(current_word("ab cd", 4), (3, "cd".to_string()));
    assert_eq!(current_word("ab  cd", 3), (3, "".to_string()));
    assert_eq!(current_word("ab", 99), (0, "ab".to_string()));
}

fn mesh(leader: &str, ago: u64) -> Json {
    obj(vec![
        ("me", obj(vec![("name", s("box")), ("account", hx("meow")), ("role", s("follower")), ("leader", s(leader)), ("term", n(2)), ("head", n(9))])),
        (
            "peers",
            Json::List(vec![
                obj(vec![
                    ("route", s("https://k:1")),
                    ("seen_ms_ago", n(ago)),
                    ("status", obj(vec![("name", s("mac")), ("account", hx("kuro")), ("role", s("leader")), ("leader", s(leader)), ("term", n(2)), ("head", n(9))])),
                ]),
                obj(vec![("route", s("https://x:1")), ("status", Json::Null)]),
            ]),
        ),
        ("inbound", Json::List(vec![])),
        ("quorum", n(2)),
        ("last_checkpoint", n(3)),
    ])
}

#[test]
fn the_mesh_is_shown() {
    let k = skin();
    let t = peers_text(&k, &Ok(mesh("mac", 100)), &litter(), "https://m:1", &Some(to_hex(&account("kuro"))));
    let rows: Vec<&str> = t.split('\n').collect();
    assert!(rows[0].starts_with("  litter"), "{t}");
    assert!(rows.iter().any(|r| r.contains("kuro") && r.contains("k:1") && r.ends_with("leader")), "{t}");
    assert!(rows.iter().any(|r| r.contains("seen 0.1s ago") && !r.contains("STALE")), "{t}");
    assert!(rows.iter().any(|r| r.contains("never answered")), "{t}");
    assert!(peers_text(&k, &Ok(mesh("mac", 6_000)), &litter(), "https://m:1", &None).contains("seen 6.0s ago  STALE"));
    assert!(peers_text(&k, &Err("down".into()), &litter(), "https://m:1", &None).ends_with("  mesh: down"));
    assert_eq!(primary(&mesh("mac", 0), &litter()).as_deref(), Some("kuro"));
    assert_eq!(cat_of(&mesh("mac", 0), "mac", &litter()), "kuro");
    assert_eq!(cat_of(&mesh("mac", 0), "elsewhere", &litter()), "elsewhere");
    assert_eq!(sealer(&mesh("mac", 0), &litter()).as_deref(), Some("kuro"));
    assert_eq!(mesh_standing(&k, &mesh("mac", 0), &litter()).len(), 2);
}

#[test]
fn an_unchanged_mesh_says_nothing() {
    let k = skin();
    let mut w = MeshWatch::new();
    let first = w.look(&k, &mesh("mac", 100), &litter());
    assert_eq!(first.len(), 2);
    assert!(first[0].contains("leader: ") && first[0].contains("kuro"), "{first:?}");
    assert!(first[1].contains("quorum ok, 2/3 alive"), "{first:?}");
    assert!(w.look(&k, &mesh("mac", 200), &litter()).is_empty());
    let stale = w.look(&k, &mesh("mac", 5_001), &litter());
    assert!(stale[0].contains("NO QUORUM, 1/3 alive") && stale[1].contains("went stale"), "{stale:?}");
    let back = w.look(&k, &mesh("mac", 5_000), &litter());
    assert!(back[1].contains("back"), "{back:?}");
}

#[test]
fn every_message_hangs_somewhere() {
    let k = skin();
    let msg = |id: &str, parent: Json, body: &str| {
        event(1, None, obj(vec![("t", s("message")), ("id", s(id)), ("from", hx("kuro")), ("to", Json::Null), ("body", s(body)), ("parent", parent), ("tags", Json::List(vec![s("x")]))]))
    };
    let react = |target: &str, emoji: &str| event(1, None, obj(vec![("t", s("reacted")), ("who", hx("meow")), ("target", s(target)), ("emoji", s(emoji))]));
    let batch = vec![
        msg("a", Json::Null, "root\nmore"),
        msg("b", s("a"), "child"),
        msg("c", s("b"), "grandchild"),
        msg("d", s("a"), "second"),
        msg("e", s("gone"), "orphan"),
        react("b", "+"),
        react("b", "+"),
        event(2, Some(0), obj(vec![("t", s("said")), ("from", hx("root")), ("to", hx("meow")), ("body", s("old"))])),
        event(3, None, obj(vec![("t", s("opened"))])),
    ];
    assert_eq!(
        log_tree(&k, &batch, &litter()),
        vec![
            "  … #gone (not in this node's window)",
            " #a kuro → litter root (+1 more lines) #x",
            "   ├─ #b kuro → litter child #x  + meow",
            "   │  └─ #c kuro → litter grandchild #x",
            "   └─ #d kuro → litter second #x",
            "└─ #e kuro → litter orphan #x",
            "└─ #b2 root → meow 01-01 00:00:00Z old",
        ]
    );
}

#[test]
fn a_session_is_replayed() {
    let k = skin();
    let events = vec![
        event(1, Some(60_000), obj(vec![("t", s("failed")), ("task", s("t1"))])),
        event(2, None, obj(vec![("t", s("failed")), ("task", s("t2"))])),
        event(9, Some(120_000), obj(vec![("t", s("failed")), ("task", s("t3"))])),
    ];
    let out = replay(&k, &events, &litter(), "meow", &vec![]);
    assert_eq!(out.len(), 3);
    assert!(text(out.into_iter().nth(2).unwrap()).contains("t3"));
    assert!(replay_title(&k, 3).contains("replay · this session, 3 events"));
    assert_eq!(preview(&k, &events, 2, 9, 1_000_000, &litter(), "meow", &vec![]).len(), 2);
    assert_eq!(gaps(&events), vec![1, 7]);
    assert!(chain_row(&k, 9, &vec![0, 7], &Some("kuro".into()), 2, &None).contains("kuro"));
}
