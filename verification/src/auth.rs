//! Who is who to a node: the accounts it trusts, the signatures requests and
//! answers carry, and what a store remembers of its genesis.

use crate::common;
use crate::keys;
use crate::keys::Account;
use crate::outside;
use crate::text;
use vstd::prelude::*;
use vstd::string::*;

verus! {

pub const SIG_HEADER_SIGNER: &'static str = "x-miot-signer";

pub const SIG_HEADER_SIG: &'static str = "x-miot-sig";

// ---------------------------------------------------------------------
// Sets of accounts
// ---------------------------------------------------------------------

pub open spec fn accounts(v: Seq<Account>) -> Seq<Seq<u8>> {
    v.map_values(|a: Account| a@)
}

/// Whether an account is among these.
pub fn holds(v: &Vec<Account>, a: &Account) -> (r: bool)
    ensures
        r == accounts(v@).contains(a@),
{
    let mut i: usize = 0;
    while i < v.len()
        invariant
            i <= v.len(),
            forall|k: int| 0 <= k < i ==> accounts(v@)[k] != a@,
        decreases v.len() - i,
    {
        if keys::same_account(&v[i], a) {
            assert(accounts(v@)[i as int] == a@);
            return true;
        }
        i = i + 1;
    }
    false
}

/// An account put behind the others, where it is not there yet.
pub open spec fn joined_by(v: Seq<Seq<u8>>, a: Seq<u8>) -> Seq<Seq<u8>> {
    if v.contains(a) {
        v
    } else {
        v.push(a)
    }
}

fn join_in(v: &mut Vec<Account>, a: &Account)
    ensures
        accounts(final(v)@) == joined_by(accounts(old(v)@), a@),
{
    if !holds(v, a) {
        v.push(*a);
    }
}

pub open spec fn named_accounts(r: Seq<(Seq<char>, Seq<u8>)>) -> Seq<Seq<u8>> {
    r.map_values(|e: (Seq<char>, Seq<u8>)| e.1)
}

/// The roster's accounts, in order.
pub fn members_of(roster: &Vec<(String, Account)>) -> (r: Vec<Account>)
    ensures
        accounts(r@) == named_accounts(common::entries(roster@)),
{
    let mut out: Vec<Account> = Vec::new();
    let mut i: usize = 0;
    while i < roster.len()
        invariant
            i <= roster.len(),
            accounts(out@) == named_accounts(common::entries(roster@)).take(i as int),
        decreases roster.len() - i,
    {
        let ghost was = out@;
        out.push(roster[i].1);
        assert(accounts(out@) =~= accounts(was).push(roster@[i as int].1@));
        assert(named_accounts(common::entries(roster@)).take(i + 1) =~= named_accounts(
            common::entries(roster@),
        ).take(i as int).push(roster@[i as int].1@));
        i = i + 1;
    }
    assert(named_accounts(common::entries(roster@)).take(i as int) =~= named_accounts(
        common::entries(roster@),
    ));
    out
}

/// The members, and the root and the leader behind them where they are not
/// members.
pub open spec fn trusted(members: Seq<Seq<u8>>, root: Seq<u8>, leader: Seq<u8>) -> Seq<Seq<u8>> {
    joined_by(joined_by(members, root), leader)
}

/// The accounts every trust decision draws from: the members, the root and the
/// leader.
pub fn trusted_accounts(members: &Vec<Account>, root: &Account, leader: &Account) -> (r: Vec<
    Account,
>)
    ensures
        accounts(r@) == trusted(accounts(members@), root@, leader@),
{
    let mut v: Vec<Account> = Vec::new();
    let mut i: usize = 0;
    while i < members.len()
        invariant
            i <= members.len(),
            v@ == members@.take(i as int),
        decreases members.len() - i,
    {
        v.push(members[i]);
        assert(v@ =~= members@.take(i + 1));
        i = i + 1;
    }
    assert(members@.take(i as int) =~= members@);
    join_in(&mut v, root);
    join_in(&mut v, leader);
    v
}

/// Who a node lets read: whom it trusts, its patrons, and itself.
pub open spec fn readers(
    trusted: Seq<Seq<u8>>,
    patrons: Seq<Seq<u8>>,
    own: Seq<u8>,
) -> Seq<Seq<u8>> {
    joined_by(joined_by_all(trusted, patrons), own)
}

pub open spec fn joined_by_all(v: Seq<Seq<u8>>, more: Seq<Seq<u8>>) -> Seq<Seq<u8>>
    decreases more.len(),
{
    if more.len() == 0 {
        v
    } else {
        joined_by(joined_by_all(v, more.drop_last()), more.last())
    }
}

/// The accounts a node answers a read from.
pub fn reader_accounts(
    roster: &Vec<(String, Account)>,
    root: &Account,
    leader: &Account,
    patrons: &Vec<(String, Account)>,
    own: &Account,
) -> (r: Vec<Account>)
    ensures
        accounts(r@) == readers(
            trusted(named_accounts(common::entries(roster@)), root@, leader@),
            named_accounts(common::entries(patrons@)),
            own@,
        ),
{
    let mut v = trusted_accounts(&members_of(roster), root, leader);
    let ghost first = accounts(v@);
    let ghost more = named_accounts(common::entries(patrons@));
    let mut i: usize = 0;
    assert(more.take(0) =~= Seq::<Seq<u8>>::empty());
    while i < patrons.len()
        invariant
            i <= patrons.len(),
            more == named_accounts(common::entries(patrons@)),
            accounts(v@) == joined_by_all(first, more.take(i as int)),
        decreases patrons.len() - i,
    {
        join_in(&mut v, &patrons[i].1);
        assert(more.take(i + 1).drop_last() =~= more.take(i as int));
        assert(more.take(i + 1).last() == patrons@[i as int].1@);
        i = i + 1;
    }
    assert(more.take(i as int) =~= more);
    join_in(&mut v, own);
    v
}

/// Whether mesh traffic may come from an account: a member, the root or the
/// leader.
pub fn is_trusted_signer(members: &Vec<Account>, root: &Account, leader: &Account, a: &Account) -> (r:
    bool)
    ensures
        r == (accounts(members@).contains(a@) || a@ == root@ || a@ == leader@),
{
    holds(members, a) || keys::same_account(a, root) || keys::same_account(a, leader)
}

/// Whether an account may read: a trusted signer, the node itself, or a
/// patron.
pub fn is_reader(
    members: &Vec<Account>,
    root: &Account,
    leader: &Account,
    patrons: &Vec<(String, Account)>,
    own: &Account,
    a: &Account,
) -> (r: bool)
    ensures
        r == (accounts(members@).contains(a@) || a@ == root@ || a@ == leader@ || a@ == own@
            || named_accounts(common::entries(patrons@)).contains(a@)),
{
    is_trusted_signer(members, root, leader, a) || keys::same_account(a, own) || holds(
        &members_of(patrons),
        a,
    )
}

proof fn lemma_joined(v: Seq<Seq<u8>>, a: Seq<u8>, x: Seq<u8>)
    ensures
        joined_by(v, a).contains(x) == (v.contains(x) || x == a),
{
    if !v.contains(a) {
        assert(v.push(a)[v.len() as int] == a);
        if v.contains(x) {
            let k = choose|k: int| 0 <= k < v.len() && v[k] == x;
            assert(v.push(a)[k] == x);
        }
        if v.push(a).contains(x) && x != a {
            let k = choose|k: int| 0 <= k < v.push(a).len() && v.push(a)[k] == x;
            assert(v[k] == x);
        }
    }
}

proof fn lemma_joined_all(v: Seq<Seq<u8>>, more: Seq<Seq<u8>>, x: Seq<u8>)
    ensures
        joined_by_all(v, more).contains(x) == (v.contains(x) || more.contains(x)),
    decreases more.len(),
{
    if more.len() > 0 {
        let front = more.drop_last();
        lemma_joined_all(v, front, x);
        lemma_joined(joined_by_all(v, front), more.last(), x);
        if more.contains(x) {
            let k = choose|k: int| 0 <= k < more.len() && more[k] == x;
            if k < front.len() {
                assert(front[k] == x);
            }
        }
        if front.contains(x) {
            let k = choose|k: int| 0 <= k < front.len() && front[k] == x;
            assert(more[k] == x);
        }
        assert(more[more.len() - 1] == more.last());
    }
}

/// The set handed to the handshake and the test on each signer are one: an
/// account is in the one exactly where the other lets it through.
pub proof fn trust_is_one_set(members: Seq<Seq<u8>>, root: Seq<u8>, leader: Seq<u8>, a: Seq<u8>)
    ensures
        trusted(members, root, leader).contains(a) == (members.contains(a) || a == root || a
            == leader),
{
    lemma_joined(members, root, a);
    lemma_joined(joined_by(members, root), leader, a);
}

/// The same of those who may only read; and whoever is trusted may read.
pub proof fn readers_are_one_set(
    members: Seq<Seq<u8>>,
    root: Seq<u8>,
    leader: Seq<u8>,
    patrons: Seq<Seq<u8>>,
    own: Seq<u8>,
    a: Seq<u8>,
)
    ensures
        readers(trusted(members, root, leader), patrons, own).contains(a) == (members.contains(a)
            || a == root || a == leader || a == own || patrons.contains(a)),
        trusted(members, root, leader).contains(a) ==> readers(
            trusted(members, root, leader),
            patrons,
            own,
        ).contains(a),
{
    trust_is_one_set(members, root, leader, a);
    lemma_joined_all(trusted(members, root, leader), patrons, a);
    lemma_joined(joined_by_all(trusted(members, root, leader), patrons), own, a);
}

// ---------------------------------------------------------------------
// Signed requests
// ---------------------------------------------------------------------

/// The two headers a request or an answer carries, where they are there and
/// are text.
pub struct SigHeaders {
    pub signer: Option<String>,
    pub sig: Option<String>,
}

/// The headers for these bytes: the account of the seed, and its signature on
/// exactly the bytes sent.
pub fn sign_headers(seed: &[u8; 32], bytes: &[u8]) -> (h: SigHeaders)
    ensures
        text::text_view(h.signer) == Some(keys::hexed(outside::public_key(seed@))),
        text::text_view(h.sig) == Some(keys::hexed(outside::signature(seed@, bytes@))),
        outside::signed_by(
            outside::signature(seed@, bytes@),
            bytes@,
            outside::public_key(seed@),
        ),
        outside::public_key(seed@).len() == 32,
        outside::signature(seed@, bytes@).len() == 64,
{
    let sig = outside::ed25519_sign(seed, bytes);
    let account = keys::account_of_seed(seed);
    SigHeaders {
        signer: Some(keys::to_hex(&account)),
        sig: Some(outside::hex_encode(sig.as_slice())),
    }
}

/// Why the headers are refused, or else whose they are. A well-formed
/// signature from a stranger is still refused.
pub open spec fn verified(
    signer: Option<Seq<char>>,
    sig: Option<Seq<char>>,
    bytes: Seq<u8>,
    trusted: Seq<Seq<u8>>,
) -> Result<Seq<u8>, Seq<char>> {
    match (signer, sig) {
        (None, _) => Err("missing signer header"@),
        (Some(_), None) => Err("missing sig header"@),
        (Some(who), Some(sig)) => match keys::account_in(who) {
            None => Err("signer header is not a valid account"@),
            Some(a) => if !trusted.contains(a) {
                Err("signer is not a trusted mesh member"@)
            } else {
                match keys::unhexed(sig) {
                    None => Err("sig header is not valid hex"@),
                    Some(s) => if s.len() != 64 {
                        Err("sig is not 64 bytes"@)
                    } else if !outside::signed_by(s, bytes, a) {
                        Err("signature does not verify"@)
                    } else {
                        Ok(a)
                    },
                }
            },
        },
    }
}

pub open spec fn verdict_view(r: Result<Account, &'static str>) -> Result<Seq<u8>, Seq<char>> {
    match r {
        Ok(a) => Ok(a@),
        Err(m) => Err(m@),
    }
}

fn array_64(v: &Vec<u8>) -> (r: [u8; 64])
    requires
        v.len() == 64,
    ensures
        r@ == v@,
{
    let mut a: [u8; 64] = [0u8; 64];
    let mut i: usize = 0;
    while i < 64
        invariant
            i <= 64,
            v.len() == 64,
            forall|k: int| 0 <= k < i ==> a@[k] == v@[k],
        decreases 64 - i,
    {
        a[i] = v[i];
        i = i + 1;
    }
    assert(a@ =~= v@);
    a
}

/// The signer, where the signature verifies over `bytes` and the signer is one
/// of `trusted`.
pub fn verify_headers(headers: &SigHeaders, bytes: &[u8], trusted: &Vec<Account>) -> (r: Result<
    Account,
    &'static str,
>)
    ensures
        verdict_view(r) == verified(
            text::text_view(headers.signer),
            text::text_view(headers.sig),
            bytes@,
            accounts(trusted@),
        ),
{
    let who = match &headers.signer {
        None => {
            return Err("missing signer header");
        },
        Some(s) => s,
    };
    let sig = match &headers.sig {
        None => {
            return Err("missing sig header");
        },
        Some(s) => s,
    };
    let account = match keys::from_hex(who.as_str()) {
        None => {
            return Err("signer header is not a valid account");
        },
        Some(a) => a,
    };
    if !holds(trusted, &account) {
        return Err("signer is not a trusted mesh member");
    }
    let sig_bytes = match outside::hex_decode(sig.as_str()) {
        None => {
            return Err("sig header is not valid hex");
        },
        Some(v) => v,
    };
    if sig_bytes.len() != 64 {
        return Err("sig is not 64 bytes");
    }
    if !outside::ed25519_verify(&array_64(&sig_bytes), bytes, &account) {
        return Err("signature does not verify");
    }
    Ok(account)
}

/// A request signed by a trusted account is let through, as that account's.
pub proof fn signed_requests_are_let_through(
    signer: Seq<u8>,
    sig: Seq<u8>,
    bytes: Seq<u8>,
    trusted: Seq<Seq<u8>>,
)
    requires
        signer.len() == 32,
        sig.len() == 64,
        outside::signed_by(sig, bytes, signer),
        trusted.contains(signer),
    ensures
        verified(Some(keys::hexed(signer)), Some(keys::hexed(sig)), bytes, trusted) == Ok::<
            Seq<u8>,
            Seq<char>,
        >(signer),
{
    keys::hex_reads_back(signer);
    keys::hex_reads_back(sig);
}

/// Whoever is let through is trusted, and signed exactly these bytes.
pub proof fn strangers_and_tampering_are_refused(
    signer: Option<Seq<char>>,
    sig: Option<Seq<char>>,
    bytes: Seq<u8>,
    trusted: Seq<Seq<u8>>,
)
    ensures
        verified(signer, sig, bytes, trusted) matches Ok(a) ==> {
            &&& trusted.contains(a)
            &&& signer is Some
            &&& keys::account_in(signer->0) == Some(a)
            &&& sig is Some
            &&& keys::unhexed(sig->0) is Some
            &&& outside::signed_by(keys::unhexed(sig->0)->0, bytes, a)
        },
{
}

// ---------------------------------------------------------------------
// Genesis
// ---------------------------------------------------------------------

/// A hash over the root, the leader and the roster, names included.
pub open spec fn genesis_mark(
    root: Seq<u8>,
    leader: Seq<u8>,
    roster: Seq<(Seq<char>, Seq<u8>)>,
) -> Seq<u8> {
    outside::blake2_256(outside::scale_genesis(root, leader, roster))
}

/// What a store remembers about the genesis it was built under.
pub fn genesis_fingerprint(root: &Account, leader: &Account, roster: &Vec<(String, Account)>) -> (r:
    [u8; 32])
    requires
        outside::lengths_fit(common::entries(roster@)),
    ensures
        r@ == genesis_mark(root@, leader@, common::entries(roster@)),
{
    outside::blake2(outside::scale_encode_genesis(root, leader, roster).as_slice())
}

/// An extrinsic's name.
pub fn tx_hash(bytes: &[u8]) -> (r: [u8; 32])
    ensures
        r@ == outside::blake2_256(bytes@),
{
    outside::blake2(bytes)
}

/// What to do with a store before it is replayed.
#[derive(Clone, Copy, Debug, PartialEq, Eq, Structural)]
pub enum Mark {
    /// It was built under this genesis.
    Same,
    /// It has no mark and gets this one. One that holds blocks cannot be told
    /// apart and is adopted, with a warning.
    Adopt { warn: bool },
    /// It was built under another genesis: a node does not start on it.
    Different,
}

fn same_bytes(a: &Vec<u8>, b: &[u8; 32]) -> (r: bool)
    ensures
        r == (a@ == b@),
{
    if a.len() != 32 {
        return false;
    }
    keys::same_account(&keys::account_from(a), b)
}

/// What a store's mark says of it.
pub fn check_mark(had: &Option<Vec<u8>>, fingerprint: &[u8; 32], empty: bool) -> (r: Mark)
    ensures
        r == (match had {
            Some(b) => if b@ == fingerprint@ {
                Mark::Same
            } else {
                Mark::Different
            },
            None => Mark::Adopt { warn: !empty },
        }),
{
    match had {
        Some(b) => if same_bytes(b, fingerprint) {
            Mark::Same
        } else {
            Mark::Different
        },
        None => Mark::Adopt { warn: !empty },
    }
}

/// The error for a store of another genesis; `db` is its path.
pub fn different_genesis(db: &str) -> (r: String)
    ensures
        r@ == "the block log at "@ + outside::quoted(db@)
            + " was built under a different genesis (root, leader or roster changed). A new genesis is a new chain: move that directory aside and start again"@,
{
    "the block log at ".to_owned().concat(outside::quote(db).as_str()).concat(
        " was built under a different genesis (root, leader or roster changed). A new genesis is a new chain: move that directory aside and start again",
    )
}

/// FNV-1a over some bytes, 64 bits wide.
pub open spec fn fnv(b: Seq<u8>) -> u64
    decreases b.len(),
{
    if b.len() == 0 {
        0xcbf2_9ce4_8422_2325
    } else {
        (fnv(b.drop_last()) ^ (b.last() as u64)).wrapping_mul(0x100_0000_01b3)
    }
}

/// The seed for a node's election timing, out of its name.
pub fn mesh_seed(name: &str) -> (h: u64)
    ensures
        h == fnv(vstd::utf8::encode_utf8(name@)),
{
    let b = name.as_bytes();
    let mut h: u64 = 0xcbf2_9ce4_8422_2325;
    let mut i: usize = 0;
    assert(b@.take(0) =~= Seq::<u8>::empty());
    while i < b.len()
        invariant
            i <= b.len(),
            h == fnv(b@.take(i as int)),
        decreases b.len() - i,
    {
        assert(b@.take(i + 1).drop_last() =~= b@.take(i as int));
        h = (h ^ (b[i] as u64)).wrapping_mul(0x100_0000_01b3);
        i = i + 1;
    }
    assert(b@.take(i as int) =~= b@);
    h
}

/// A request is let through exactly where it names an account of those trusted
/// and carries that account's own signature over the bytes; and where it is
/// refused, the first thing wrong with it is told.
pub proof fn a_refusal_names_what_is_wrong(
    signer: Option<Seq<char>>,
    sig: Option<Seq<char>>,
    bytes: Seq<u8>,
    trusted: Seq<Seq<u8>>,
)
    ensures
        ({
            let r = verified(signer, sig, bytes, trusted);
            let account = match signer {
                Some(s) => keys::account_in(s),
                None => None,
            };
            let mark = match sig {
                Some(s) => keys::unhexed(s),
                None => None,
            };
            &&& signer is None ==> r == Err::<Seq<u8>, Seq<char>>("missing signer header"@)
            &&& signer is Some && sig is None ==> r == Err::<Seq<u8>, Seq<char>>(
                "missing sig header"@,
            )
            &&& signer is Some && sig is Some && account is None ==> r == Err::<
                Seq<u8>,
                Seq<char>,
            >("signer header is not a valid account"@)
            &&& signer is Some && sig is Some && account is Some && !trusted.contains(account->0)
                ==> r == Err::<Seq<u8>, Seq<char>>("signer is not a trusted mesh member"@)
            &&& signer is Some && sig is Some && account is Some && trusted.contains(account->0) ==> (
            match mark {
                None => r == Err::<Seq<u8>, Seq<char>>("sig header is not valid hex"@),
                Some(s) => if s.len() != 64 {
                    r == Err::<Seq<u8>, Seq<char>>("sig is not 64 bytes"@)
                } else if outside::signed_by(s, bytes, account->0) {
                    r == Ok::<Seq<u8>, Seq<char>>(account->0)
                } else {
                    r == Err::<Seq<u8>, Seq<char>>("signature does not verify"@)
                },
            })
        }),
{
}

/// A genesis is marked by all that makes it: who the root is, who leads, and who
/// is on the roster, in its order; what the same three make has the same mark.
pub proof fn a_genesis_is_marked_by_what_it_is(
    root: Seq<u8>,
    leader: Seq<u8>,
    roster: Seq<(Seq<char>, Seq<u8>)>,
)
    ensures
        genesis_mark(root, leader, roster) == outside::blake2_256(
            outside::scale_genesis(root, leader, roster),
        ),
{
}

/// A name's seed is made byte by byte: each byte is folded in and the whole is
/// mixed, so the order of the bytes counts.
pub proof fn a_seed_takes_in_every_byte(b: Seq<u8>, x: u8)
    ensures
        fnv(Seq::<u8>::empty()) == 0xcbf2_9ce4_8422_2325,
        fnv(b.push(x)) == (fnv(b) ^ (x as u64)).wrapping_mul(1099511628211),
{
    assert(b.push(x).drop_last() =~= b);
}

} // verus!
