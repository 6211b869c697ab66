//! Extrinsics on their way, and what their senders are told.

use kot::auth::tx_hash;
use kot::json::Json;
use kot::keys::{account_of_seed, to_hex};
use kot::mempool::{Queue, TxState, CARRIED_KEEP, CARRY_PER_POLL, MEMPOOL_CAP, MEMPOOL_TTL_MS, TX_STATUS_CAP};
use kot::relay::{accept_extrinsic, account_question, no_primary, route, settle, turn_for, tx_question, unreachable_primary, Asked, Outcome, Reply, Route, Taken, Turn};

fn hash(n: u64) -> [u8; 32] {
    tx_hash(&n.to_le_bytes())
}

fn error(r: &Reply) -> String {
    r.body.text("error").unwrap_or_default()
}

#[test]
fn queueing_twice_is_queueing_once() {
    let mut q = Queue::new();
    q.mempool_insert(&hash(1), vec![1], 10);
    q.mempool_insert(&hash(1), vec![2], 20);
    assert_eq!(q.pending(), vec!["01"]);
    assert_eq!(q.held[0].at, 10);
    assert_eq!(q.tx_status(&hash(1)), Some(TxState::Pending));
}

#[test]
fn the_queue_gives_up_its_oldest() {
    let mut q = Queue::new();
    for n in 0..MEMPOOL_CAP as u64 + 1 {
        q.mempool_insert(&hash(n), vec![], n);
    }
    assert_eq!(q.held.len(), MEMPOOL_CAP);
    assert!(!q.is_queued(&hash(0)));
    assert!(q.is_queued(&hash(1)));
}

#[test]
fn the_queue_is_in_the_order_of_arrival() {
    let mut q = Queue::new();
    for n in 0..MEMPOOL_CAP as u64 {
        q.mempool_insert(&hash(n), vec![n as u8], n);
    }
    // What left makes room, so nothing is pushed out for the next two.
    q.remove(&hash(0));
    q.remove(&hash(1));
    q.mempool_insert(&hash(0), vec![0], 900);
    q.mempool_insert(&hash(5000), vec![7], 901);
    assert_eq!(q.held.len(), MEMPOOL_CAP);
    assert!(q.is_queued(&hash(2)));
    assert_eq!(q.pending()[0], "02", "one that came back is at its new place");
    q.mempool_insert(&hash(5001), vec![8], 902);
    assert!(!q.is_queued(&hash(2)));
    assert!(q.is_queued(&hash(3)));
    assert!(q.is_queued(&hash(0)));
    let mut q = Queue::new();
    q.mempool_insert(&hash(1), vec![1], 0);
    q.remove(&hash(1));
    q.mempool_insert(&hash(1), vec![1], 0);
    assert_eq!(q.pending(), vec!["01"], "it is offered once");
}

#[test]
fn answers_are_bounded_and_the_oldest_is_forgotten() {
    let mut q = Queue::new();
    for n in 0..TX_STATUS_CAP as u64 + 1 {
        q.set_tx_status(&hash(n), TxState::Applied { height: n });
    }
    assert_eq!(q.tx_status(&hash(0)), None);
    assert_eq!(q.tx_status(&hash(1)), Some(TxState::Applied { height: 1 }));
    q.set_tx_status(&hash(1), TxState::Pending);
    assert_eq!(q.tx_status(&hash(1)), Some(TxState::Pending));
    assert_eq!(q.tx_status(&hash(2)), Some(TxState::Applied { height: 2 }), "another answer stays");
}

#[test]
fn a_closing_block_seals_what_it_holds() {
    let mut q = Queue::new();
    q.set_tx_status(&hash(1), TxState::Applied { height: 5 });
    q.set_tx_status(&hash(2), TxState::Applied { height: 6 });
    q.set_tx_status(&hash(3), TxState::Pending);
    q.seal(5);
    assert_eq!(q.tx_status(&hash(1)), Some(TxState::Sealed { height: 5 }));
    assert_eq!(q.tx_status(&hash(2)), Some(TxState::Applied { height: 6 }));
    assert_eq!(q.tx_status(&hash(3)), Some(TxState::Pending));
    assert_eq!(TxState::Sealed { height: 5 }.json().print(), r#"{"height":5,"status":"sealed"}"#);
    assert_eq!(TxState::Pending.json().print(), r#"{"status":"pending"}"#);
}

#[test]
fn what_a_peer_carries_is_no_longer_offered() {
    let mut q = Queue::new();
    for n in 0..20u64 {
        q.mempool_insert(&hash(n), vec![n as u8], 0);
    }
    assert_eq!(q.pending().len(), CARRY_PER_POLL);
    assert_eq!(q.pending()[0], "00");
    assert_eq!(q.mempool_offered(), 20);
    q.mark_carried(&vec![to_hex(&hash(0)), "zz".into(), "abcd".into(), to_hex(&hash(99))]);
    assert_eq!(q.pending()[0], "01");
    assert_eq!(q.mempool_offered(), 19);
    assert!(q.is_queued(&hash(0)), "it stays, to learn whether it sealed");
}

#[test]
fn a_final_answer_is_announced_and_the_list_is_bounded() {
    let mut q = Queue::new();
    q.carry(&hash(1), 503);
    assert!(!q.is_known(&hash(1)));
    for s in [200, 422, 400] {
        q.carry(&hash(s as u64), s);
        assert!(q.is_known(&hash(s as u64)));
    }
    for n in 1000..1000 + CARRIED_KEEP as u64 {
        q.carry(&hash(n), 200);
    }
    assert_eq!(q.carried_names().len(), CARRIED_KEEP);
    assert!(!q.is_known(&hash(200)));
    assert_eq!(q.carried_names()[0], to_hex(&hash(1000)));
}

#[test]
fn what_waits_too_long_is_dropped() {
    let mut q = Queue::new();
    q.mempool_insert(&hash(1), vec![1], 0);
    q.mempool_insert(&hash(2), vec![2], 5);
    q.expire(MEMPOOL_TTL_MS);
    assert!(!q.is_queued(&hash(1)));
    assert!(q.is_queued(&hash(2)));
    q.expire(0);
    assert!(q.is_queued(&hash(2)), "a clock that went back drops nothing");
}

#[test]
fn a_write_goes_where_the_primary_is() {
    assert!(matches!(route(true, &Some("x".into()), &None), Route::Here));
    assert!(matches!(route(false, &Some("x".into()), &None), Route::Primary(p) if p == "x"));
    assert!(matches!(route(false, &None, &Some("meow".into())), Route::Nobody(Some(l)) if l == "meow"));
    assert!(error(&no_primary(&None)).starts_with("no primary right now"));
    assert!(error(&no_primary(&Some("meow".into()))).starts_with("the primary is meow, but this node has no route to it"));
    assert_eq!(no_primary(&None).status, 503);
    assert_eq!(error(&unreachable_primary("refused")), "primary unreachable: refused");
}

#[test]
fn a_strangers_write_is_refused_and_a_members_is_queued_without_a_route() {
    let (member, root, leader) = (account_of_seed(&[3; 32]), account_of_seed(&[1; 32]), account_of_seed(&[2; 32]));
    let mut q = Queue::new();
    let body = vec![1, 2, 3];
    let mut go = |q: &mut Queue, who: Option<[u8; 32]>, r: Route| accept_extrinsic(q, &body, &who, &vec![member], &root, &leader, &r, 7);
    match go(&mut q, Some([9; 32]), Route::Here) {
        Taken::Answer(r) => assert_eq!((r.status, error(&r)), (422, "rejected: Invalid(Payment)".to_string())),
        _ => panic!("a stranger's write was taken"),
    }
    assert!(matches!(go(&mut q, Some(member), Route::Here), Taken::Apply));
    assert!(matches!(go(&mut q, None, Route::Primary("http://p".into())), Taken::Forward(u) if u == "http://p/submit"));
    match go(&mut q, Some(root), Route::Nobody(Some("meow".into()))) {
        Taken::Answer(r) => {
            assert_eq!(r.status, 200);
            assert_eq!(r.body.text("status").as_deref(), Some("pending"));
            assert_eq!(r.body.text("tx_hash"), Some(to_hex(&tx_hash(&body))));
            assert_eq!(r.body.text("note").as_deref(), Some("no route to the primary (meow) yet; queued locally and relaying to peers"));
        }
        _ => panic!("it was not queued"),
    }
    assert!(q.is_queued(&tx_hash(&body)));
}

#[test]
fn what_was_applied_is_answered_at_once() {
    let mut q = Queue::new();
    let body = vec![4];
    let h = tx_hash(&body);
    q.mempool_insert(&h, body.clone(), 0);
    let r = settle(&mut q, &body, &Outcome::Applied { height: 12 });
    assert_eq!((r.status, r.body.num("height")), (200, Some(12)));
    assert!(!q.is_queued(&h));
    match tx_question(&q, &to_hex(&h), &Route::Here) {
        Asked::Answer(r) => assert_eq!(r.body.text("status").as_deref(), Some("applied")),
        _ => panic!("not answered"),
    }
    assert_eq!(settle(&mut q, &body, &Outcome::Refused("Bad".into())).status, 422);
    assert_eq!(error(&settle(&mut q, &body, &Outcome::Unreadable("eof".into()))), "bad extrinsic: eof");
    assert_eq!(settle(&mut q, &body, &Outcome::Demoted).status, 503);
}

#[test]
fn questions_about_a_hash() {
    let q = Queue::new();
    let ask = |name: &str, r: Route| match tx_question(&q, name, &r) {
        Asked::Answer(r) => (r.status, r.body.print()),
        Asked::Forward(u) => (0, u),
        Asked::Here => (1, String::new()),
    };
    assert_eq!(ask("zz", Route::Here), (400, r#"{"error":"bad hash hex"}"#.into()));
    assert_eq!(ask("ab", Route::Here), (400, r#"{"error":"hash must be 32 bytes"}"#.into()));
    let name = to_hex(&hash(1));
    assert_eq!(ask(&name, Route::Here), (200, r#"{"status":"unknown"}"#.into()));
    assert_eq!(ask(&name, Route::Primary("http://p".into())), (0, format!("http://p/tx/{name}")));
}

#[test]
fn questions_about_an_account() {
    let id = to_hex(&[5; 32]);
    assert!(matches!(account_question("x", true, &Route::Here), Asked::Answer(r) if r.status == 400));
    assert!(matches!(account_question(&id, false, &Route::Here), Asked::Answer(r) if r.status == 401));
    assert!(matches!(account_question(&id, true, &Route::Here), Asked::Here));
    assert!(matches!(account_question(&id, true, &Route::Primary("p".into())), Asked::Forward(u) if u == format!("p/account/{id}")));
}

#[test]
fn a_round_of_upkeep() {
    let h = hash(1);
    assert!(matches!(turn_for(&h, true, &Route::Here), Turn::Drop));
    assert!(matches!(turn_for(&h, false, &Route::Here), Turn::Apply));
    assert!(matches!(turn_for(&h, false, &Route::Primary("p".into())), Turn::Send(u) if u == "p/submit"));
    assert!(matches!(turn_for(&h, true, &Route::Nobody(None)), Turn::Ask(u) if u == format!("/tx/{}", to_hex(&h))));

    let mut q = Queue::new();
    q.mempool_insert(&h, vec![1], 0);
    assert!(q.relays(&h, false));
    assert!(!q.relays(&h, true), "a peer delivers it");
    let says = |s: &str, n: u64| Json::Object(vec![("status".into(), Json::Str(s.into())), ("height".into(), Json::Num(n))]);
    assert!(!q.heard(&h, &says("applied", 3)));
    assert_eq!(q.tx_status(&h), Some(TxState::Applied { height: 3 }));
    assert!(!q.relays(&h, false), "known to be applied");
    assert!(!q.heard(&h, &says("unknown", 0)));
    assert!(q.heard(&h, &says("sealed", 4)));
    assert!(!q.is_queued(&h));
    assert_eq!(q.tx_status(&h), Some(TxState::Sealed { height: 4 }));

    q.mempool_insert(&hash(2), vec![2], 0);
    q.sent(&hash(2), false);
    assert!(q.is_queued(&hash(2)));
    q.sent(&hash(2), true);
    assert!(!q.is_queued(&hash(2)));
    q.mempool_insert(&hash(3), vec![3], 0);
    q.tried(&hash(3), Some(9));
    assert!(!q.is_queued(&hash(3)));
    assert_eq!(q.tx_status(&hash(3)), Some(TxState::Applied { height: 9 }));
}
