//! Accounts and seeds, and how they are spelled.

use crate::outside;
use crate::text;
use vstd::prelude::*;
use vstd::string::*;

verus! {

/// A 32-byte account: an ed25519 public key.
pub type Account = [u8; 32];

/// The digit's value, if it is one of sixteen.
pub open spec fn hex_value(c: char) -> Option<u8> {
    if '0' <= c <= '9' {
        Some(((c as u8) - 48) as u8)
    } else if 'a' <= c <= 'f' {
        Some(((c as u8) - 87) as u8)
    } else if 'A' <= c <= 'F' {
        Some(((c as u8) - 55) as u8)
    } else {
        None
    }
}

pub open spec fn all_hex(s: Seq<char>) -> bool {
    forall|i: int| 0 <= i < s.len() ==> hex_value(#[trigger] s[i]) is Some
}

/// The bytes that a text spells in hexadecimal, two digits each.
pub open spec fn unhexed(s: Seq<char>) -> Option<Seq<u8>> {
    if s.len() % 2 == 0 && all_hex(s) {
        Some(
            Seq::new(
                s.len() / 2,
                |i: int| (hex_value(s[2 * i])->0 * 16 + hex_value(s[2 * i + 1])->0) as u8,
            ),
        )
    } else {
        None
    }
}

/// A small hexadecimal digit.
pub open spec fn hex_char(d: u8) -> char {
    if d < 10 {
        (48 + d) as char
    } else {
        (87 + d) as char
    }
}

/// Bytes in hexadecimal, two small digits each.
pub open spec fn hexed(b: Seq<u8>) -> Seq<char> {
    Seq::new(
        2 * b.len(),
        |i: int| hex_char(if i % 2 == 0 { b[i / 2] / 16 } else { b[i / 2] % 16 }),
    )
}

/// What was written in hexadecimal reads back as it was.
pub proof fn hex_reads_back(b: Seq<u8>)
    ensures
        unhexed(hexed(b)) == Some(b),
{
    let s = hexed(b);
    assert forall|i: int| 0 <= i < s.len() implies hex_value(#[trigger] s[i]) is Some by {
        let d = if i % 2 == 0 {
            b[i / 2] / 16
        } else {
            b[i / 2] % 16
        };
        assert(d < 16);
    }
    assert forall|i: int| 0 <= i < b.len() implies (hex_value(s[2 * i])->0 * 16 + hex_value(
        s[2 * i + 1],
    )->0) as u8 == #[trigger] b[i] by {
        assert((2 * i) / 2 == i && (2 * i) % 2 == 0);
        assert((2 * i + 1) / 2 == i && (2 * i + 1) % 2 == 1);
        assert(hex_value(hex_char(b[i] / 16)) == Some(b[i] / 16));
        assert(hex_value(hex_char(b[i] % 16)) == Some(b[i] % 16));
    }
    assert(unhexed(s)->0 =~= b);
}

/// Whether two accounts are one.
pub fn same_account(a: &Account, b: &Account) -> (r: bool)
    ensures
        r == (a@ == b@),
{
    let mut i: usize = 0;
    while i < 32
        invariant
            i <= 32,
            forall|k: int| 0 <= k < i ==> a@[k] == b@[k],
        decreases 32 - i,
    {
        if a[i] != b[i] {
            return false;
        }
        i = i + 1;
    }
    assert(a@ =~= b@);
    true
}

/// 32 bytes as one value.
pub fn account_from(v: &Vec<u8>) -> (r: Account)
    requires
        v.len() == 32,
    ensures
        r@ == v@,
{
    let mut a: Account = [0u8; 32];
    let mut i: usize = 0;
    while i < 32
        invariant
            i <= 32,
            v.len() == 32,
            forall|k: int| 0 <= k < i ==> a@[k] == v@[k],
        decreases 32 - i,
    {
        a[i] = v[i];
        i = i + 1;
    }
    assert(a@ =~= v@);
    a
}

/// The account a text spells in hexadecimal.
pub open spec fn account_in(s: Seq<char>) -> Option<Seq<u8>> {
    match unhexed(s) {
        Some(b) => if b.len() == 32 {
            Some(b)
        } else {
            None
        },
        None => None,
    }
}

pub open spec fn account_view(o: Option<Account>) -> Option<Seq<u8>> {
    match o {
        Some(a) => Some(a@),
        None => None,
    }
}

/// The account that 64 hexadecimal digits spell.
pub fn from_hex(s: &str) -> (r: Option<Account>)
    ensures
        account_view(r) == account_in(s@),
{
    match outside::hex_decode(s) {
        Some(v) => if v.len() == 32 {
            Some(account_from(&v))
        } else {
            None
        },
        None => None,
    }
}

/// An account in hexadecimal.
pub fn to_hex(a: &Account) -> (r: String)
    ensures
        r@ == hexed(a@),
{
    outside::hex_encode(a.as_slice())
}

/// An account in short: the first eight digits and the last five.
pub open spec fn shortened(a: Seq<u8>) -> Seq<char> {
    hexed(a).take(8) + "…"@ + hexed(a).skip(hexed(a).len() - 5)
}

/// An account in short.
pub fn short(a: &Account) -> (r: String)
    ensures
        r@ == shortened(a@),
{
    let v = text::chars_of(to_hex(a).as_str());
    let head = text::slice_text(&v, 0, 8);
    let tail = text::slice_text(&v, v.len() - 5, v.len());
    assert(head@ =~= hexed(a@).take(8));
    assert(tail@ =~= hexed(a@).skip(hexed(a@).len() - 5));
    head.concat("…").concat(tail.as_str())
}

/// The account of a seed.
pub fn account_of_seed(seed: &[u8; 32]) -> (r: Account)
    ensures
        r@ == outside::public_key(seed@),
{
    outside::ed25519_public(seed)
}

} // verus!
