//! Certificates that carry an account's own key, and whose they are.

use crate::auth;
use crate::keys::Account;
use crate::outside;
use vstd::prelude::*;

verus! {

/// The bytes before the seed in a PKCS8 document of an Ed25519 key: version 0,
/// the algorithm without parameters, and the wrapper around the 32 bytes that
/// follow. They are the same for every key.
pub open spec fn pkcs8_prefix() -> Seq<u8> {
    seq![
        0x30u8,
        0x2e,
        0x02,
        0x01,
        0x00,
        0x30,
        0x05,
        0x06,
        0x03,
        0x2b,
        0x65,
        0x70,
        0x04,
        0x22,
        0x04,
        0x20,
    ]
}

/// The content of Ed25519's object identifier, 1.3.101.112.
pub open spec fn ed25519_id() -> Seq<u8> {
    seq![0x2bu8, 0x65, 0x70]
}

/// The PKCS8 document of a seed.
pub open spec fn pkcs8(seed: Seq<u8>) -> Seq<u8> {
    pkcs8_prefix() + seed
}

/// The PKCS8 document of a seed.
pub fn pkcs8_from_seed(seed: &[u8; 32]) -> (der: Vec<u8>)
    ensures
        der@ == pkcs8(seed@),
{
    let mut der: Vec<u8> = vec![
        0x30u8,
        0x2e,
        0x02,
        0x01,
        0x00,
        0x30,
        0x05,
        0x06,
        0x03,
        0x2b,
        0x65,
        0x70,
        0x04,
        0x22,
        0x04,
        0x20,
    ];
    assert(der@ =~= pkcs8_prefix());
    let mut i: usize = 0;
    while i < 32
        invariant
            i <= 32,
            der@ == pkcs8_prefix() + seed@.take(i as int),
        decreases 32 - i,
    {
        der.push(seed[i]);
        assert(der@ =~= pkcs8_prefix() + seed@.take(i + 1));
        i = i + 1;
    }
    assert(seed@.take(32) =~= seed@);
    der
}

/// A self-signed certificate that carries a seed's account, with the key it is
/// signed with. What is trusted is the account, so there is nothing to keep:
/// one is made anew whenever it is needed.
pub fn cert_for(seed: &[u8; 32]) -> (r: (Vec<u8>, Vec<u8>))
    ensures
        outside::cert_key(r.0@) == Some((ed25519_id(), outside::public_key(seed@))),
        outside::public_key(seed@).len() == 32,
        r.1@ == pkcs8(seed@),
{
    let der = pkcs8_from_seed(seed);
    assert(der@.skip(16) =~= seed@);
    (outside::self_signed(der), pkcs8_from_seed(seed))
}

/// The account a certificate's key is: it must be an Ed25519 one of 32 bytes.
pub open spec fn account_with(key: Option<(Seq<u8>, Seq<u8>)>) -> Result<Seq<u8>, Seq<char>> {
    match key {
        None => Err("bad certificate encoding"@),
        Some(k) => if k.0 != ed25519_id() {
            Err("certificate key is not Ed25519"@)
        } else if k.1.len() != 32 {
            Err("Ed25519 key is not 32 bytes"@)
        } else {
            Ok(k.1)
        },
    }
}

/// The account that a certificate's key is, where there is one.
pub fn account_of_key(key: &Option<(Vec<u8>, Vec<u8>)>) -> (r: Result<Account, &'static str>)
    ensures
        auth::verdict_view(r) == account_with(outside::key_view(*key)),
{
    let k = match key {
        None => {
            return Err("bad certificate encoding");
        },
        Some(k) => k,
    };
    let ed = k.0.len() == 3 && k.0[0] == 0x2b && k.0[1] == 0x65 && k.0[2] == 0x70;
    if !ed {
        assert(k.0@ != ed25519_id());
        return Err("certificate key is not Ed25519");
    }
    assert(k.0@ =~= ed25519_id());
    if k.1.len() != 32 {
        return Err("Ed25519 key is not 32 bytes");
    }
    Ok(crate::keys::account_from(&k.1))
}

/// The account a certificate says it is. That its holder has the key is for the
/// handshake to show.
pub fn account_of(cert: &[u8]) -> (r: Result<Account, &'static str>)
    ensures
        auth::verdict_view(r) == account_with(outside::cert_key(cert@)),
{
    account_of_key(&outside::x509_key(cert))
}

/// Whether a certificate is a trusted account's, and else why not.
pub open spec fn pinned(key: Option<(Seq<u8>, Seq<u8>)>, trusted: Seq<Seq<u8>>) -> Option<
    Seq<char>,
> {
    match account_with(key) {
        Err(why) => Some(why),
        Ok(a) => if trusted.contains(a) {
            None
        } else {
            Some("certificate's account is not trusted"@)
        },
    }
}

pub open spec fn check_view(r: Result<(), &'static str>) -> Option<Seq<char>> {
    match r {
        Ok(_) => None,
        Err(m) => Some(m@),
    }
}

/// The one rule of both directions of a handshake: the certificate's account
/// must be one of these.
pub fn check_trusted(cert: &[u8], trusted: &Vec<Account>) -> (r: Result<(), &'static str>)
    ensures
        check_view(r) == pinned(outside::cert_key(cert@), auth::accounts(trusted@)),
{
    match account_of(cert) {
        Err(why) => Err(why),
        Ok(a) => if auth::holds(trusted, &a) {
            Ok(())
        } else {
            Err("certificate's account is not trusted")
        },
    }
}

/// A certificate made for a key names that key's account and no other, so it is
/// let through exactly where that account is trusted.
pub proof fn a_certificate_names_its_own_key(key: Seq<u8>, trusted: Seq<Seq<u8>>)
    requires
        key.len() == 32,
    ensures
        account_with(Some((ed25519_id(), key))) == Ok::<Seq<u8>, Seq<char>>(key),
        pinned(Some((ed25519_id(), key)), trusted) is None <==> trusted.contains(key),
{
}

/// A key is written as its fixed head and the seed itself, whole.
pub proof fn a_key_file_ends_in_its_seed(seed: Seq<u8>)
    ensures
        pkcs8(seed).len() == 16 + seed.len(),
        pkcs8(seed).skip(16) == seed,
        pkcs8(seed)[0] == 0x30 && pkcs8(seed)[1] == 0x2e && pkcs8(seed)[9] == 0x2b && pkcs8(seed)[10]
            == 0x65 && pkcs8(seed)[11] == 0x70 && pkcs8(seed)[15] == 0x20,
{
    assert(pkcs8(seed).skip(16) =~= seed);
}

/// A certificate is refused for the first thing that is wrong with it: that it
/// cannot be read, that its key is of another kind or of another size, or that
/// its account is not trusted.
pub proof fn a_certificate_is_refused_for_a_reason(
    id: Seq<u8>,
    key: Seq<u8>,
    trusted: Seq<Seq<u8>>,
)
    ensures
        pinned(None, trusted) == Some("bad certificate encoding"@),
        id != seq![0x2bu8, 0x65, 0x70] ==> pinned(Some((id, key)), trusted) == Some(
            "certificate key is not Ed25519"@,
        ),
        id == seq![0x2bu8, 0x65, 0x70] && key.len() != 32 ==> pinned(Some((id, key)), trusted)
            == Some("Ed25519 key is not 32 bytes"@),
        id == seq![0x2bu8, 0x65, 0x70] && key.len() == 32 && !trusted.contains(key) ==> pinned(
            Some((id, key)),
            trusted,
        ) == Some("certificate's account is not trusted"@),
        id == seq![0x2bu8, 0x65, 0x70] && key.len() == 32 && trusted.contains(key) ==> pinned(
            Some((id, key)),
            trusted,
        ) is None,
{
}

} // verus!
