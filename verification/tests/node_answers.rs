//! What a node tells its readers.

use kot::activity::Activity;
use kot::answers::{
    artifact_json, artifacts_json, asked_epoch, comments_json, head_json, meta_json, note_id, notes_json, peers_json, roster_json, stats_json, tally_json,
    tasks_json, Called, Comment, Heard, Paper, PatronSeen, Place, StatsRow, Tally, TaskRow,
};
use kot::common::TaskId;
use kot::earshot::{status_from, Earshot, Status, ACTIVITY_FORGET_MS};
use kot::effects::{render, task_text, wake_target, Effect};
use kot::json::Json;
use kot::keys::to_hex;

const A: [u8; 32] = [1; 32];
const B: [u8; 32] = [2; 32];

fn t(parent: u32, part: Option<u32>) -> TaskId {
    TaskId { parent, part }
}

#[test]
fn each_effect_is_told_under_its_name() {
    let h = to_hex(&A);
    let text = |e: Effect| render(&e).print();
    assert_eq!(
        text(Effect::Said { from: A, to: None, body: "hi".into(), from_root: true, no_ack: false, off_record: true }),
        format!(r#"{{"body":"hi","from":"{h}","no_ack":false,"off_record":true,"root":true,"t":"said","to":null}}"#)
    );
    assert_eq!(text(Effect::Opened { who: A, task: t(1, None), text: "x".into() }), format!(r#"{{"t":"opened","task":"t1","text":"x","who":"{h}"}}"#));
    assert_eq!(text(Effect::Planned { who: A, task: t(1, None), count: 2 }), format!(r#"{{"count":2,"t":"planned","task":"t1","who":"{h}"}}"#));
    assert_eq!(
        text(Effect::Assigned { holder: A, task: t(1, Some(2)), what: "w".into(), expect: "e".into() }),
        format!(r#"{{"expect":"e","t":"assigned","task":"t1.2","to":"{h}","what":"w"}}"#)
    );
    assert_eq!(
        text(Effect::Directed { holder: A, task: t(1, None), directive: "PlanNeeded".into() }),
        format!(r#"{{"directive":"PlanNeeded","t":"directed","task":"t1","to":"{h}"}}"#)
    );
    assert_eq!(
        text(Effect::Nudge { holder: A, task: t(1, None), remaining: 3, last: false }),
        format!(r#"{{"last":false,"remaining":3,"t":"nudge","task":"t1","to":"{h}"}}"#)
    );
    assert_eq!(
        text(Effect::Record { who: A, task: t(1, None), act: "claim".into(), text: "".into() }),
        format!(r#"{{"act":"claim","t":"record","task":"t1","text":"","who":"{h}"}}"#)
    );
    assert_eq!(
        text(Effect::Requeued { task: t(1, None), was: Some(A), why: "Lease".into() }),
        format!(r#"{{"from":"{h}","t":"requeued","task":"t1","why":"Lease"}}"#)
    );
    assert_eq!(text(Effect::NudgeBudgetSpent { holder: A, task: t(1, None) }), format!(r#"{{"holder":"{h}","t":"budget_spent","task":"t1"}}"#));
    assert_eq!(
        text(Effect::Closed { task: t(1, None), title: "T".into(), text: "b".into(), author: A }),
        format!(r#"{{"author":"{h}","body":"b","t":"closed","task":"t1","title":"T"}}"#)
    );
    assert_eq!(text(Effect::Failed { task: t(1, None) }), r#"{"t":"failed","task":"t1"}"#);
    assert_eq!(
        text(Effect::Rehomed { task: t(1, None), was: None, holder: A }),
        format!(r#"{{"from":null,"t":"rehomed","task":"t1","to":"{h}"}}"#)
    );
    assert_eq!(
        text(Effect::StandaloneArtifact { author: A, id: 4, title: "T".into(), text: "b".into() }),
        format!(r#"{{"author":"{h}","body":"b","id":4,"t":"standalone_artifact","title":"T"}}"#)
    );
    assert_eq!(
        text(Effect::StatsReported { who: A, turns: 1, tool_calls: 2, tokens: 3, ms: 4 }),
        format!(r#"{{"ms":4,"t":"stats_reported","tokens":3,"tool_calls":2,"turns":1,"who":"{h}"}}"#)
    );
    assert_eq!(
        text(Effect::StatsReported2 { who: A, turns: 1, tool_calls: 2, messages: 9, tokens: 3, ms: 4 }),
        format!(r#"{{"messages":9,"ms":4,"t":"stats_reported","tokens":3,"tool_calls":2,"turns":1,"who":"{h}"}}"#)
    );
    assert_eq!(
        text(Effect::Message {
            name: "7f".into(),
            from: A,
            to: Some(B),
            body: "m".into(),
            parent: Some("6e".into()),
            artifact: None,
            tags: vec!["a".into(), "b".into()],
            from_root: false,
            no_ack: true,
            off_record: false,
        }),
        format!(
            r#"{{"artifact_id":null,"body":"m","from":"{h}","id":"7f","no_ack":true,"off_record":false,"parent":"6e","root":false,"t":"message","tags":["a","b"],"to":"{}"}}"#,
            to_hex(&B)
        )
    );
    assert_eq!(text(Effect::Reacted { who: A, target: "7f".into(), emoji: "+".into() }), format!(r#"{{"emoji":"+","t":"reacted","target":"7f","who":"{h}"}}"#));
    assert_eq!(text(Effect::Voted { who: A, target: "t1".into(), up: true }), format!(r#"{{"artifact":"t1","t":"voted","up":true,"who":"{h}"}}"#));
}

#[test]
fn no_ack_wakes_no_one() {
    let said = |no_ack| Effect::Said { from: A, to: None, body: "x".into(), from_root: false, no_ack, off_record: false };
    assert_eq!(wake_target(&said(true), true, &Some(B)), None);
    assert_eq!(wake_target(&said(false), true, &Some(B)), Some(to_hex(&B)));
    assert_eq!(wake_target(&said(false), true, &None).as_deref(), Some("*"));
    assert_eq!(wake_target(&said(false), false, &None), None);
    assert_eq!(task_text(t(3, Some(1))), "t3.1");
}

#[test]
fn tasks_and_chain_are_told() {
    let row = TaskRow {
        id: t(2, None),
        status: "Open".into(),
        assignee: None,
        holder: Some(A),
        lease_until: None,
        opened_by: B,
        opened_at: 5,
        text: "x".into(),
        outcome: Some((true, "no".into())),
    };
    assert_eq!(
        tasks_json(&vec![row]).print(),
        format!(
            r#"[{{"assignee":null,"holder":"{}","id":"t2","lease_until":null,"opened_at":5,"opened_by":"{}","outcome":{{"kind":"failed","text":"no"}},"status":"Open","text":"x"}}]"#,
            to_hex(&A),
            to_hex(&B)
        )
    );
    assert_eq!(head_json(4, 9, &None, true, 3).print(), r#"{"block":4,"closed":true,"last_checkpoint":3,"leader":null,"seq":9}"#);
    assert_eq!(
        meta_json(&[0; 32], 1, 2, "0.1+x").print(),
        format!(r#"{{"genesis_hash":"{}","kot_version":"0.1+x","spec_version":1,"tx_version":2}}"#, "00".repeat(32))
    );
    assert_eq!(roster_json(&vec![("meow".into(), A)]).print(), format!(r#"[{{"account":"{}","name":"meow"}}]"#, to_hex(&A)));
}

#[test]
fn artifacts_are_told_with_votes_and_threads() {
    let comment = |epoch, body: &str| Comment { who: A, at: 1, epoch, body: body.into() };
    let thread = vec![comment(1, "one"), comment(2, "two")];
    assert_eq!(comments_json(&thread, None).print().matches("who").count(), 2);
    assert!(comments_json(&thread, Some(2)).print().contains("two"));
    assert!(!comments_json(&thread, Some(2)).print().contains("one"));
    assert_eq!(tally_json(&Tally { up: vec![A], down: vec![] }).print(), format!(r#"{{"down":[],"up":["{}"]}}"#, to_hex(&A)));
    assert_eq!(artifact_json(&None, &thread, None).print(), r#"{"found":false}"#);
    let paper = || Paper { title: "T".into(), body: "B".into(), author: A, at: 7 };
    let found = artifact_json(&Some((paper(), Tally { up: vec![], down: vec![B] })), &thread, Some(1));
    assert_eq!(found.text("title").as_deref(), Some("T"));
    assert_eq!(found.items("comments").unwrap().len(), 1);
    let all = artifacts_json(&vec![(t(1, None), paper())], &vec![(1, paper())]);
    let Json::List(rows) = all else { panic!() };
    assert_eq!(rows[0].text("id").as_deref(), Some("t1"));
    assert_eq!(rows[1].text("id").as_deref(), Some("1"), "the two kinds of id never meet");
    assert_eq!(rows[1].text("kind").as_deref(), Some("standalone"));
    assert_eq!(notes_json(&vec![(3, paper())]).print(), format!(r#"[{{"at":7,"author":"{}","id":3,"title":"T"}}]"#, to_hex(&A)));
    assert_eq!((note_id("12"), note_id("t1"), note_id("99999999999")), (Some(12), None, None));
    assert_eq!((asked_epoch(&Some("3".into())), asked_epoch(&Some("x".into())), asked_epoch(&None)), (Some(3), None, None));
}

#[test]
fn stats_count_messages_where_they_were_counted() {
    let row = |messages| StatsRow { account: A, turns: 1, tool_calls: 2, tokens: 3, ms: 4, messages };
    let s = stats_json(&vec![row(None), row(Some(5))]).print();
    assert_eq!(s.matches("messages").count(), 1);
    assert!(s.contains(r#""messages":5,"#), "{s}");
}

#[test]
fn the_mesh_is_told_with_those_that_only_call() {
    let status = |n: &str| Json::Object(vec![("name".into(), Json::Str(n.into()))]);
    let heard = |n: &str, at| Heard { name: n.into(), at, status: status(n) };
    let place = Place { learner: false, me: status("me"), quorum: 2, producing: true, following: None, last_checkpoint: 1 };
    let r = peers_json(
        place,
        vec![Called { route: "a".into(), last: Some(heard("kuro", 90)) }, Called { route: "b".into(), last: None }],
        vec![heard("kuro", 95), heard("tama", 80)],
        vec![PatronSeen { name: "pat".into(), at: 200, head: Json::Num(4) }],
        100,
    );
    assert_eq!(r.items("inbound").unwrap().len(), 1, "kuro answers, so only tama is inbound");
    assert_eq!(r.items("inbound").unwrap()[0].num("seen_ms_ago"), Some(20));
    assert_eq!(r.items("peers").unwrap()[0].num("seen_ms_ago"), Some(10));
    assert!(matches!(r.items("peers").unwrap()[1].get("status"), Some(Json::Null)));
    assert_eq!(r.items("patrons").unwrap()[0].num("seen_ms_ago"), Some(0), "never negative");
}

#[test]
fn the_newest_record_of_each_cat_is_kept() {
    let record = |at| Activity { name: "x".into(), at, ..Default::default() };
    let mut e = Earshot::new();
    e.take_peer_activity(&B, &to_hex(&B), 5, record(10), 100);
    e.take_peer_activity(&A, &to_hex(&A), 0, record(1), 100);
    e.take_peer_activity(&B, &to_hex(&B), 9, record(9), 200);
    e.take_peer_activity(&A, "someone else", 0, record(99), 200);
    let mine = Some((150, record(3)));
    let list = e.activity_list(&[9; 32], &mine, 300);
    assert_eq!(list.iter().map(|r| (r.0.as_str(), r.1, r.2.at)).collect::<Vec<_>>(), vec![(to_hex(&[9; 32]).as_str(), 150, 3), (to_hex(&A).as_str(), 200, 1), (to_hex(&B).as_str(), 205, 10)]);
    e.take_peer_activity(&B, &to_hex(&B), 0, record(10), 400);
    assert_eq!(e.activity_list(&A, &None, 400)[1].1, 0, "as new: it is taken");
    assert_eq!(e.activity_list(&A, &None, 100 + ACTIVITY_FORGET_MS + 1).len(), 1, "what was not heard of for long is left out");
}

#[test]
fn a_patrons_status_has_no_say() {
    let patrons = vec![("pat".to_string(), B)];
    let from = |signer: &[u8; 32], named: &str| status_from(signer, named, &vec![A], &[7; 32], &[8; 32], &patrons);
    assert!(matches!(from(&B, ""), Status::Patron(n) if n == "pat"));
    assert!(matches!(from(&[5; 32], ""), Status::Patron(n) if n == to_hex(&[5; 32])));
    assert!(matches!(from(&A, "x"), Status::Ignore));
    assert!(matches!(from(&A, &to_hex(&A)), Status::Member));
}
