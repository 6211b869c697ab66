//! Roles, pages, pulls and pushes.

use kot::keys::to_hex;
use kot::sync::{
    check_push, checkpoint_ahead, compared_with, next_page, page_after, page_limit, page_rows, pulled_row, push_next, push_refused, push_status, pushed_checkpoint, pushed_row,
    reconcile_plan, rewound_line, row_bodies, BlockRow, Checkpoint, Follow, MeshSays, Pulled, PushNext, Pushed, Pusher, Pushes, ReplicaStep, Settle,
    PUSH_BACKOFF_MS,
};

fn says(leader: Option<&str>, is_leader: bool, sources: &[&str]) -> MeshSays {
    MeshSays {
        name: "meow".into(),
        term: 3,
        head: 40,
        is_leader,
        is_learner: false,
        leader: leader.map(Into::into),
        leader_route: sources.first().map(|s| s.to_string()),
        sources: sources.iter().map(|s| s.to_string()).collect(),
    }
}

#[test]
fn a_node_is_promoted_and_demoted_once() {
    let mut f = Follow::new();
    let n = f.follow_mesh(&says(Some("meow"), true, &[]));
    assert!(n.promoted && !n.demoted && f.producing);
    assert_eq!(n.lines, vec!["[mesh] meow elected primary (term 3, head 40)"]);
    let n = f.follow_mesh(&says(Some("meow"), true, &[]));
    assert!(!n.promoted && n.lines.is_empty());
    let n = f.follow_mesh(&says(Some("kuro"), false, &["http://k"]));
    assert!(n.demoted && !f.producing && f.needs_reconcile);
    assert_eq!(n.lines, vec!["[mesh] meow no longer primary (term 3); rebuilding from the store", "[mesh] following kuro at http://k (term 3)"]);
}

#[test]
fn a_leader_without_a_route_is_followed_by_push() {
    let mut f = Follow::new();
    let n = f.follow_mesh(&says(Some("kuro"), false, &[]));
    assert_eq!(n.lines, vec!["[mesh] following kuro by push: no route to it from here (term 3)"]);
    assert!(f.follow_mesh(&says(Some("kuro"), false, &[])).lines.is_empty(), "said once");
    assert!(matches!(f.replica_step(), ReplicaStep::Nothing));
}

#[test]
fn a_learner_keeps_its_source_and_compares_again_under_a_new_leader() {
    let mut f = Follow::new();
    let mut m = says(Some("kuro"), false, &["http://a", "http://b"]);
    m.is_learner = true;
    f.follow_mesh(&m);
    assert_eq!(f.peer.as_deref(), Some("http://a"));
    assert!(matches!(f.replica_step(), ReplicaStep::Reconcile(p) if p == "http://a"));
    assert!(!f.reconciled("http://a", false));
    assert!(f.needs_reconcile);
    assert!(f.reconciled("http://a", true));
    assert!(matches!(f.replica_step(), ReplicaStep::Tail(p) if p == "http://a"));
    m.sources = vec!["http://b".into(), "http://a".into()];
    assert!(f.follow_mesh(&m).lines.is_empty());
    assert_eq!(f.peer.as_deref(), Some("http://a"), "kept while it is still a source");
    m.leader = Some("tama".into());
    m.leader_route = Some("http://b".into());
    assert_eq!(f.follow_mesh(&m).lines, vec!["[mesh] following tama via a replica at http://a (term 3)"]);
    assert!(f.needs_reconcile);
    assert!(f.still_follows("http://a") && !f.still_follows("http://b"));
}

#[test]
fn a_page_holds_what_is_there_and_reads_back() {
    let blocks = vec![Some(vec![1]), None, Some(vec![2, 255]), Some(vec![3])];
    let rows = page_rows(&blocks, 10, 2);
    assert_eq!(rows.iter().map(|r| (r.height, r.body_hex.as_str())).collect::<Vec<_>>(), vec![(10, "01"), (12, "02ff")]);
    assert_eq!(row_bodies(&rows), vec![vec![1], vec![2, 255]]);
    assert!(page_rows(&blocks, 10, 0).is_empty());
    assert_eq!((page_limit(None), page_limit(Some(9)), page_limit(Some(999))), (256, 9, 256));
}

fn row(height: u64, body_hex: &str) -> BlockRow {
    BlockRow { height, body_hex: body_hex.into() }
}

#[test]
fn rows_are_read_up_to_the_first_bad_one() {
    assert_eq!(row_bodies(&vec![row(1, "01"), row(2, "zz"), row(3, "03")]), vec![vec![1]]);
    assert_eq!(next_page(10, 11, 2, 2), Some(12));
    assert_eq!(next_page(10, 10, 2, 2), None, "it disagrees inside the page");
    assert_eq!(next_page(10, 11, 2, 3), None, "it was not all readable");
}

#[test]
fn a_log_is_settled_against_a_new_primarys() {
    match reconcile_plan(3, 5, 9) {
        Settle::Rewind { fork, line } => {
            assert_eq!(fork, 4);
            assert_eq!(line, "[node] sync: our checkpoint 5 is ahead of the primary's 3; rewinding to genesis");
        }
        _ => panic!(),
    }
    assert!(matches!(reconcile_plan(7, 5, 9), Settle::Adopt));
    assert!(matches!(reconcile_plan(5, 5, 5), Settle::Settled));
    assert!(matches!(reconcile_plan(5, 5, 9), Settle::Compare { from: 6 }));
    assert_eq!(rewound_line(4, 3, 2), "[node] sync: diverged from primary above block 4, rewound to 3 (dropped 2 block(s))");
}

#[test]
fn pulled_and_pushed_rows() {
    assert!(checkpoint_ahead(5, 4) && !checkpoint_ahead(4, 4) && !checkpoint_ahead(3, 4));
    assert_eq!((page_after(4, 9), page_after(8, 9), page_after(9, 9), page_after(u64::MAX, u64::MAX)), (Some(5), Some(9), None, None));
    assert!(matches!(pulled_row(5, &row(5, "01")), Pulled::Skip));
    assert!(matches!(pulled_row(5, &row(9, "01")), Pulled::Take(b) if b == [1]));
    assert!(matches!(pulled_row(5, &row(6, "x")), Pulled::Bad(l) if l == "[node] sync: peer sent bad hex for block 6"));
    assert!(matches!(pushed_row(5, &row(5, "01")), Pushed::Skip));
    assert!(matches!(pushed_row(5, &row(7, "01")), Pushed::Gap));
    assert!(matches!(pushed_row(5, &row(6, "x")), Pushed::Bad(w) if w == "bad hex for block 6"));
    assert!(matches!(pushed_row(5, &row(6, "01ff")), Pushed::Take(b) if b == [1, 255]));
    assert!(matches!(pushed_checkpoint(5, 5, "zz"), Checkpoint::Skip));
    assert!(matches!(pushed_checkpoint(6, 5, "zz"), Checkpoint::Bad));
    assert!(matches!(pushed_checkpoint(6, 5, "0a"), Checkpoint::Take(b) if b == [10]));
}

#[test]
fn blocks_land_without_a_gap() {
    let mut head = 3;
    let mut landed = Vec::new();
    for r in [row(2, "02"), row(4, "04"), row(5, "05"), row(7, "07"), row(6, "06")] {
        match pushed_row(head, &r) {
            Pushed::Skip => continue,
            Pushed::Take(b) => {
                landed.push(b);
                head = r.height;
            }
            _ => break,
        }
    }
    assert_eq!((head, landed), (5, vec![vec![4], vec![5]]));
}

#[test]
fn a_push_brings_a_peer_on_step_by_step() {
    let next = |my_cp, my_head, cp, head, compared, started, now| push_next("http://p", true, my_cp, my_head, cp, head, compared, started, now);
    assert!(matches!(push_next("p", false, 0, 9, 0, 0, false, 0, false), PushNext::Stop));
    assert!(matches!(next(2, 9, 3, 5, false, 5, false), PushNext::Rewind { fork: 2 }));
    assert!(matches!(next(3, 9, 2, 5, false, 5, false), PushNext::Checkpoint));
    assert!(matches!(next(2, 9, 2, 5, false, 5, false), PushNext::Compare));
    assert!(matches!(next(2, 9, 2, 5, true, 5, false), PushNext::Blocks { from: 6 }));
    assert!(matches!(next(2, 9, 2, 9, true, 8, false), PushNext::Done(None)));
    assert!(matches!(next(2, 9, 2, 9, true, 8, true), PushNext::Done(Some(l)) if l == "[mesh] pushed http://p to block 9 (was 8)"));
    assert!(matches!(next(2, 90, 2, 90, true, 8, false), PushNext::Done(Some(_))));
    assert_eq!(compared_with("p", 9, 9), None);
    assert_eq!(compared_with("p", 4, 9).unwrap(), "[mesh] p diverged from us above block 4; telling it to rewind");
    assert_eq!(push_status(404), Some("peer has no /chain/push (an older build)"));
    assert_eq!(push_status(200), None);
    assert_eq!(push_refused(&Some("no".into())), "refused: no");
    assert_eq!(push_refused(&None), "refused: ");
}

#[test]
fn sessions_rest_after_a_failure_and_errors_are_said_once() {
    let mut p = Pushes::new();
    let targets = vec!["a".to_string(), "b".to_string()];
    assert_eq!(p.start_pushes(true, &targets, 100), targets);
    assert!(p.start_pushes(true, &targets, 200).is_empty(), "both run");
    assert_eq!(p.ended("a", &Err("down".into()), 200).unwrap(), "[mesh] push to a: down");
    assert_eq!(p.ended("b", &Ok(()), 200), None);
    assert_eq!(p.start_pushes(true, &targets, 200), vec!["b"]);
    assert_eq!(p.ended("a", &Err("down".into()), 300), None, "said already");
    assert!(p.ended("a", &Err("worse".into()), 300).is_some());
    assert_eq!(p.start_pushes(true, &vec!["a".into()], 300 + PUSH_BACKOFF_MS), vec!["a"]);
    p.note_compared("a", 3);
    assert!(p.was_compared("a", 3) && !p.was_compared("a", 4) && !p.was_compared("b", 3));
    assert!(p.start_pushes(false, &targets, 400).is_empty());
    assert!(!p.was_compared("a", 3), "a new leadership compares again");
}

#[test]
fn only_the_leader_followed_may_push() {
    let a = [4u8; 32];
    assert!(matches!(check_push(&a, "other", "kuro", 2, false, true), Pusher::Forbidden));
    assert!(matches!(check_push(&a, &to_hex(&a), "kuro", 2, false, false), Pusher::Refused(w) if w == "not following kuro in term 2"));
    assert!(matches!(check_push(&a, &to_hex(&a), "kuro", 2, true, true), Pusher::Refused(_)));
    assert!(matches!(check_push(&a, &to_hex(&a), "kuro", 2, false, true), Pusher::Accepted));
}
