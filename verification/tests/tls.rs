//! Certificates.

use kot::keys::account_of_seed;
use kot::tls::{account_of, account_of_key, cert_for, check_trusted, pkcs8_from_seed};

#[test]
fn a_cert_cannot_claim_an_account_it_does_not_hold_the_key_for() {
    let a = account_of_seed(&[1; 32]);
    let b = account_of_seed(&[2; 32]);
    let (cert_b, _) = cert_for(&[2; 32]);
    assert_ne!(account_of(&cert_b).unwrap(), a);
    assert_eq!(account_of(&cert_b).unwrap(), b);
}

#[test]
fn only_a_trusted_account_gets_through() {
    let (a, b) = (account_of_seed(&[1; 32]), account_of_seed(&[2; 32]));
    let (cert, key) = cert_for(&[2; 32]);
    assert_eq!(key, pkcs8_from_seed(&[2; 32]));
    assert_eq!(check_trusted(&cert, &vec![a, b]), Ok(()));
    assert_eq!(check_trusted(&cert, &vec![a]), Err("certificate's account is not trusted"));
    assert_eq!(check_trusted(b"no certificate", &vec![a, b]), Err("bad certificate encoding"));
}

#[test]
fn a_key_must_be_an_ed25519_one() {
    assert_eq!(account_of_key(&None), Err("bad certificate encoding"));
    assert_eq!(account_of_key(&Some((vec![1, 2, 3], vec![0; 32]))), Err("certificate key is not Ed25519"));
    assert_eq!(account_of_key(&Some((vec![0x2b, 0x65, 0x70], vec![0; 31]))), Err("Ed25519 key is not 32 bytes"));
    assert_eq!(account_of_key(&Some((vec![0x2b, 0x65, 0x70], vec![9; 32]))), Ok([9; 32]));
}

#[test]
fn a_seeds_document_is_its_prefix_and_the_seed() {
    let der = pkcs8_from_seed(&[5; 32]);
    assert_eq!(der.len(), 48);
    assert_eq!(&der[..4], &[0x30, 0x2e, 0x02, 0x01]);
    assert_eq!(&der[16..], &[5; 32]);
}
