//! Signatures, trust, and genesis.

use kot::auth::{
    check_mark, different_genesis, genesis_fingerprint, is_reader, is_trusted_signer, mesh_seed, reader_accounts, sign_headers, trusted_accounts, tx_hash, verify_headers,
    Mark, SigHeaders,
};
use kot::keys::account_of_seed;

#[test]
fn a_signed_request_is_let_through_and_a_tampered_one_is_not() {
    let a = account_of_seed(&[1; 32]);
    let h = sign_headers(&[1; 32], b"since=3");
    assert_eq!(verify_headers(&h, b"since=3", &vec![a]), Ok(a));
    assert_eq!(verify_headers(&h, b"since=4", &vec![a]), Err("signature does not verify"));
    assert_eq!(verify_headers(&h, b"since=3", &vec![]), Err("signer is not a trusted mesh member"));
}

#[test]
fn each_fault_of_the_headers_is_named() {
    let a = account_of_seed(&[1; 32]);
    let trusted = vec![a];
    let good = sign_headers(&[1; 32], b"");
    let with = |signer: Option<&str>, sig: Option<&str>| SigHeaders { signer: signer.map(str::to_string), sig: sig.map(str::to_string) };
    let who = good.signer.clone().unwrap();
    let sig = good.sig.clone().unwrap();
    assert_eq!(verify_headers(&with(None, Some(&sig)), b"", &trusted), Err("missing signer header"));
    assert_eq!(verify_headers(&with(Some(&who), None), b"", &trusted), Err("missing sig header"));
    assert_eq!(verify_headers(&with(Some("xyz"), Some(&sig)), b"", &trusted), Err("signer header is not a valid account"));
    assert_eq!(verify_headers(&with(Some(&who), Some("zz")), b"", &trusted), Err("sig header is not valid hex"));
    assert_eq!(verify_headers(&with(Some(&who), Some("abcd")), b"", &trusted), Err("sig is not 64 bytes"));
    assert_eq!(verify_headers(&with(Some(&who), Some(&"00".repeat(64))), b"", &trusted), Err("signature does not verify"));
    assert_eq!(verify_headers(&good, b"", &trusted), Ok(a));
}

#[test]
fn root_and_leader_are_trusted_once() {
    let (a, b, c) = ([1u8; 32], [2u8; 32], [3u8; 32]);
    assert_eq!(trusted_accounts(&vec![a, b], &a, &c), vec![a, b, c]);
    assert!(is_trusted_signer(&vec![a], &b, &c, &c));
    assert!(!is_trusted_signer(&vec![a], &b, &c, &[9; 32]));
}

#[test]
fn patrons_and_the_node_itself_may_read_but_are_not_trusted() {
    let (a, root, leader, own, patron) = ([1u8; 32], [2u8; 32], [3u8; 32], [4u8; 32], [5u8; 32]);
    let roster = vec![("a".to_string(), a)];
    let patrons = vec![("p".to_string(), patron)];
    assert_eq!(reader_accounts(&roster, &root, &leader, &patrons, &own), vec![a, root, leader, patron, own]);
    assert!(is_reader(&vec![a], &root, &leader, &patrons, &own, &patron));
    assert!(is_reader(&vec![a], &root, &leader, &patrons, &own, &own));
    assert!(!is_reader(&vec![a], &root, &leader, &patrons, &own, &[9; 32]));
    assert!(!is_trusted_signer(&vec![a], &root, &leader, &patron));
}

#[test]
fn a_store_of_another_genesis_is_told_apart() {
    let roster = vec![("a".to_string(), [1u8; 32])];
    let one = genesis_fingerprint(&[1; 32], &[2; 32], &roster);
    assert_eq!(one, genesis_fingerprint(&[1; 32], &[2; 32], &roster));
    let mut bytes = [[1u8; 32], [2; 32]].concat();
    bytes.extend([4, 4, b'a']);
    bytes.extend([1; 32]);
    assert_eq!(one, tx_hash(&bytes), "two accounts, one entry, a name of one byte, its account");
    let long = vec![("é".repeat(40), [7u8; 32])];
    let mut bytes = [[1u8; 32], [2; 32]].concat();
    bytes.extend([4, 0x41, 0x01]);
    bytes.extend("é".repeat(40).as_bytes());
    bytes.extend([7; 32]);
    assert_eq!(genesis_fingerprint(&[1; 32], &[2; 32], &long), tx_hash(&bytes), "a length of 80 takes two bytes");
    let renamed = vec![("b".to_string(), [1u8; 32])];
    assert_ne!(one, genesis_fingerprint(&[1; 32], &[2; 32], &renamed), "names are genesis too");
    assert_ne!(one, genesis_fingerprint(&[1; 32], &[3; 32], &roster));
    assert_eq!(check_mark(&Some(one.to_vec()), &one, false), Mark::Same);
    assert_eq!(check_mark(&Some(vec![0; 32]), &one, false), Mark::Different);
    assert_eq!(check_mark(&Some(vec![]), &one, true), Mark::Different);
    assert_eq!(check_mark(&None, &one, true), Mark::Adopt { warn: false });
    assert_eq!(check_mark(&None, &one, false), Mark::Adopt { warn: true });
    assert_eq!(
        different_genesis("/var/kot"),
        "the block log at \"/var/kot\" was built under a different genesis (root, leader or roster changed). A new genesis is a new chain: move that directory aside and start again"
    );
}

#[test]
fn an_extrinsics_name_is_its_blake2_hash() {
    let empty = "0e5751c026e543b2e8ab2eb06099daa1d1e5df47778f7787faab45cdf12fe3a8";
    assert_eq!(kot::keys::to_hex(&tx_hash(b"")), empty);
    assert_ne!(tx_hash(b"a"), tx_hash(b"b"));
}

#[test]
fn a_name_seeds_its_nodes_timing() {
    assert_eq!(mesh_seed(""), 0xcbf2_9ce4_8422_2325);
    assert_eq!(mesh_seed("a"), 0xaf63_dc4c_8601_ec8c);
}
