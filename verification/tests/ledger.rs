//! Block bodies and the log.

use kot::effects::Effect;
use kot::json::Json;
use kot::ledger::{entry_json, open_body, seal_body, Happened, Log, LOG_CAP};
use parity_scale_codec::{Decode, Encode};

/// Encoded effects; what each of them is does not matter to a body.
fn encoded(bodies: &[&str]) -> Vec<u8> {
    bodies.iter().map(|b| ([7u8; 32], None::<[u8; 32]>, b.to_string(), false, false, false)).collect::<Vec<_>>().encode()
}

type Said = ([u8; 32], Option<[u8; 32]>, String, bool, bool, bool);

/// The effects of a body, and how many bytes they take.
fn decoded(body: &[u8]) -> (Vec<Said>, usize) {
    let mut input = body;
    let v = Vec::<Said>::decode(&mut input).unwrap();
    (v, body.len() - input.len())
}

#[test]
fn a_sealed_body_carries_its_time() {
    let body = seal_body(&encoded(&["hi", "there"]), 1_790_000_000_123);
    let (back, used) = decoded(&body);
    let (effects, at) = open_body(&body, used);
    assert_eq!(back.len(), 2);
    assert_eq!(effects, encoded(&["hi", "there"]));
    assert_eq!(at, Some(1_790_000_000_123));
}

#[test]
fn a_body_from_before_seal_times_reads_as_none() {
    let body = encoded(&["old"]);
    let (back, used) = decoded(&body);
    let (_, at) = open_body(&body, used);
    assert_eq!(back.len(), 1);
    assert_eq!(at, None);
}

#[test]
fn an_old_decoder_still_reads_a_new_body() {
    let fx = encoded(&["new", "block"]);
    let body = seal_body(&fx, 42);
    let old: Vec<Said> = Decode::decode(&mut &body[..]).unwrap();
    assert_eq!(old.encode(), fx);
}

#[test]
fn a_quiet_block_seals_too() {
    let body = seal_body(&encoded(&[]), 9);
    let (back, used) = decoded(&body);
    let (_, at) = open_body(&body, used);
    assert!(back.is_empty());
    assert_eq!(at, Some(9));
}

#[test]
fn a_time_is_eight_bytes_low_one_first() {
    assert_eq!(seal_body(&vec![0xaa], 0x0102), vec![0xaa, 2, 1, 0, 0, 0, 0, 0, 0]);
    assert_eq!(open_body(&vec![0xaa, 1, 0, 0, 0, 0, 0, 0], 1).1, None, "seven bytes are no time");
}

fn said(body: &str, no_ack: bool, off_record: bool) -> Happened {
    Happened { effect: Effect::Said { from: [7; 32], to: None, body: body.into(), from_root: false, no_ack, off_record }, wakes: true, to: None }
}

#[test]
fn entries_are_numbered_and_off_the_record_ones_stay_out_of_the_block() {
    let mut log = Log::new();
    log.absorb(vec![said("a", false, false), said("b", true, false), said("c", false, true)]);
    assert_eq!(log.seq, 3);
    assert_eq!(log.pending.len(), 2);
    let told = log.events(0);
    assert_eq!(told.iter().map(|e| e.seq).collect::<Vec<_>>(), vec![1, 2, 3]);
    assert_eq!(told[0].wakes.as_deref(), Some("*"));
    assert_eq!(told[1].wakes, None, "no_ack wakes no one");
    assert_eq!(told[2].effect.text("body").as_deref(), Some("c"), "still told");
    assert_eq!(log.events(2).len(), 1);
    assert!(log.events(3).is_empty());
}

#[test]
fn a_seal_reaches_every_entry_of_its_block() {
    let mut log = Log::new();
    log.absorb(vec![said("a", false, false)]);
    log.block = 2;
    log.absorb(vec![said("b", false, false), said("c", false, false)]);
    log.stamp_block(2, Some(5));
    assert_eq!(log.entries.iter().map(|e| e.at).collect::<Vec<_>>(), vec![None, Some(5), Some(5)]);
}

#[test]
fn folding_closes_a_block_and_leaves_nothing_pending() {
    let mut log = Log::new();
    log.fold(1, vec![said("a", false, false)], Some(77));
    assert_eq!((log.block, log.seq, log.pending.len()), (2, 1, 0));
    assert_eq!(log.entries[0].at, Some(77));
    log.restart(9);
    assert_eq!((log.block, log.seq, log.entries.len()), (9, 0, 0));
}

#[test]
fn the_log_keeps_its_newest_entries() {
    let mut log = Log::new();
    for i in 0..LOG_CAP + 3 {
        log.absorb(vec![said(&format!("{i}"), false, false)]);
    }
    assert_eq!(log.entries.len(), LOG_CAP);
    assert_eq!(log.entries[0].seq, 4);
    assert_eq!(log.entries[LOG_CAP - 1].seq, LOG_CAP as u64 + 3);
}

#[test]
fn an_entry_without_a_time_leaves_it_out() {
    let mut log = Log::new();
    log.absorb(vec![said("a", true, false)]);
    let e = entry_json(log.entries.pop().unwrap());
    assert!(e.get("at").is_none());
    assert!(matches!(e.get("wakes"), Some(Json::Null)));
    assert_eq!(e.num("seq"), Some(1));
}
