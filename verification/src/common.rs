//! What every part of `kot` spells the same way: seeds, rosters, task ids, and
//! the place of a reader in a node's log.

use crate::json;
use crate::json::Json;
use crate::keys;
use crate::keys::Account;
use crate::local_tool;
use crate::outside;
use crate::text;
use vstd::prelude::*;
use vstd::string::*;

verus! {

pub const DIM: &'static str = "\x1b[2m";

pub const OFF: &'static str = "\x1b[0m";

// ---------------------------------------------------------------------
// Seeds
// ---------------------------------------------------------------------

/// `s` without the `0x`s it begins with.
pub open spec fn without_0x(s: Seq<char>) -> Seq<char>
    decreases s.len(),
{
    if s.len() >= 2 && s[0] == '0' && s[1] == 'x' {
        without_0x(s.skip(2))
    } else {
        s
    }
}

/// The seed that a trimmed text spells: a small number for 32 of it, or 64
/// hexadecimal digits.
pub open spec fn seed_in(s: Seq<char>) -> Result<Seq<u8>, Seq<char>> {
    match text::parsed(s, 255) {
        Some(n) => Ok(Seq::new(32, |i: int| n as u8)),
        None => match keys::unhexed(without_0x(s)) {
            None => Err(
                "seed "@ + outside::quoted(s) + " is neither a small int nor 64 hex chars"@,
            ),
            Some(b) => if b.len() == 32 {
                Ok(b)
            } else {
                Err("seed "@ + outside::quoted(s) + " is not 32 bytes"@)
            },
        },
    }
}

pub open spec fn seed_view(r: Result<[u8; 32], String>) -> Result<Seq<u8>, Seq<char>> {
    match r {
        Ok(s) => Ok(s@),
        Err(e) => Err(e@),
    }
}

fn strip_0x(s: &str) -> (r: String)
    ensures
        r@ == without_0x(s@),
{
    let v = text::chars_of(s);
    let mut i: usize = 0;
    assert(v@.skip(0) =~= v@);
    while v.len() - i >= 2 && v[i] == '0' && v[i + 1] == 'x'
        invariant
            i <= v.len(),
            without_0x(v@.skip(i as int)) == without_0x(v@),
        decreases v.len() - i,
    {
        assert(v@.skip(i as int).skip(2) =~= v@.skip(i + 2));
        i = i + 2;
    }
    let r = text::slice_text(&v, i, v.len());
    assert(r@ =~= v@.skip(i as int));
    r
}

/// A seed spec: a small int (a deterministic dev seed, fine for a throwaway
/// local litter, never for a real deployment) or 64 hex chars.
pub fn parse_seed(spec: &str) -> (r: Result<[u8; 32], String>)
    ensures
        seed_view(r) == seed_in(text::trimmed(spec@)),
{
    let spec = text::trim(spec);
    match text::parse_number(spec.as_str(), 255) {
        Some(n) => {
            let b: u8 = n as u8;
            let seed: [u8; 32] = [b; 32];
            assert(seed@ =~= Seq::new(32, |i: int| n as nat as u8));
            return Ok(seed);
        },
        None => {},
    }
    match outside::hex_decode(strip_0x(spec.as_str()).as_str()) {
        None => Err(
            String::from_str("seed ").concat(outside::quote(spec.as_str()).as_str()).concat(
                " is neither a small int nor 64 hex chars",
            ),
        ),
        Some(v) => if v.len() == 32 {
            Ok(keys::account_from(&v))
        } else {
            Err(
                String::from_str("seed ").concat(outside::quote(spec.as_str()).as_str()).concat(
                    " is not 32 bytes",
                ),
            )
        },
    }
}

proof fn lemma_hex_is_bare(b: Seq<u8>)
    ensures
        text::trimmed(keys::hexed(b)) == keys::hexed(b),
        without_0x(keys::hexed(b)) == keys::hexed(b),
{
    let s = keys::hexed(b);
    assert forall|i: int| 0 <= i < s.len() implies !text::white(#[trigger] s[i]) && s[i] != 'x' by {
        let d = if i % 2 == 0 {
            b[i / 2] / 16
        } else {
            b[i / 2] % 16
        };
        assert(d < 16);
        assert(s[i] == keys::hex_char(d));
    }
    if s.len() > 0 {
        assert(!text::white(s[0]));
        assert(!text::white(s[s.len() - 1]));
    }
    if s.len() >= 2 {
        assert(s[1] != 'x');
    }
}

/// A seed that was written down in hexadecimal reads back as it was, unless its
/// digits spell a small number, which stands for another seed.
pub proof fn a_kept_seed_reads_back(seed: Seq<u8>)
    requires
        seed.len() == 32,
        text::parsed(keys::hexed(seed), 255) is None,
    ensures
        seed_in(text::trimmed(keys::hexed(seed))) == Ok::<Seq<u8>, Seq<char>>(seed),
{
    lemma_hex_is_bare(seed);
    keys::hex_reads_back(seed);
}

/// The account that a roster entry's value names: `pub:` and 64 hex chars, or
/// whatever [`parse_seed`] takes.
pub open spec fn entry_account(value: Seq<char>) -> Result<Seq<u8>, Seq<char>> {
    let v = text::trimmed(value);
    match text::after_prefix(v, "pub:"@) {
        Some(hex) => match keys::account_in(hex) {
            Some(a) => Ok(a),
            None => Err("roster pub:"@ + hex + ": not 64 hex chars"@),
        },
        None => match seed_in(text::trimmed(v)) {
            Ok(seed) => Ok(outside::public_key(seed)),
            Err(e) => Err(e),
        },
    }
}

/// One roster entry's account: `<seed>` (someone whose seed you hold) or
/// `pub:<64 hex>` (an account only).
pub fn roster_entry_account(value: &str) -> (r: Result<Account, String>)
    ensures
        seed_view(r) == entry_account(value@),
{
    let value = text::trim(value);
    match text::strip_prefix(value.as_str(), "pub:") {
        Some(hex) => match keys::from_hex(hex.as_str()) {
            Some(a) => Ok(a),
            None => Err(
                String::from_str("roster pub:").concat(hex.as_str()).concat(
                    ": not 64 hex chars",
                ),
            ),
        },
        None => match parse_seed(value.as_str()) {
            Ok(seed) => Ok(keys::account_of_seed(&seed)),
            Err(e) => Err(e),
        },
    }
}

// ---------------------------------------------------------------------
// The roster
// ---------------------------------------------------------------------

/// `name=seed|pub:hex,...` as names and accounts, in order. Names are small
/// letters; a tag is always matched whatever its case.
#[derive(Clone, Debug)]
pub struct Roster(pub Vec<(String, Account)>);

/// The entries of a roster.
pub open spec fn entries(v: Seq<(String, Account)>) -> Seq<(Seq<char>, Seq<u8>)> {
    Seq::new(v.len(), |i: int| (v[i].0@, v[i].1@))
}

impl View for Roster {
    type V = Seq<(Seq<char>, Seq<u8>)>;

    open spec fn view(&self) -> Seq<(Seq<char>, Seq<u8>)> {
        entries(self.0@)
    }
}

/// What the pieces of a roster spec name, in order, up to the first that is
/// wrong.
pub open spec fn roster_of(pieces: Seq<Seq<char>>) -> Result<
    Seq<(Seq<char>, Seq<u8>)>,
    Seq<char>,
>
    decreases pieces.len(),
{
    if pieces.len() == 0 {
        Ok(seq![])
    } else {
        match roster_of(pieces.drop_last()) {
            Err(e) => Err(e),
            Ok(before) => {
                let p = text::trimmed(pieces.last());
                if p.len() == 0 {
                    Ok(before)
                } else {
                    match text::cut(p, '=') {
                        None => Err(
                            "roster entry "@ + outside::quoted(p) + " is not name=value"@,
                        ),
                        Some((n, v)) => match entry_account(v) {
                            Err(e) => Err(e),
                            Ok(a) => Ok(before.push((text::lowered(text::trimmed(n)), a))),
                        },
                    }
                }
            },
        }
    }
}

/// The first account under `name`.
pub open spec fn account_named(r: Seq<(Seq<char>, Seq<u8>)>, name: Seq<char>) -> Option<Seq<u8>>
    decreases r.len(),
{
    if r.len() == 0 {
        None
    } else if r[0].0 == name {
        Some(r[0].1)
    } else {
        account_named(r.skip(1), name)
    }
}

/// A name as a tag is matched: without the `@`, in small letters.
pub open spec fn tag_name(name: Seq<char>) -> Seq<char> {
    text::lowered(text::without_leading(text::trimmed(name), '@'))
}

/// The name of an account: its entry's, or the account in short.
pub open spec fn name_for(r: Seq<(Seq<char>, Seq<u8>)>, who: Seq<u8>) -> Seq<char>
    decreases r.len(),
{
    if r.len() == 0 {
        keys::shortened(who)
    } else if r[0].1 == who {
        r[0].0
    } else {
        name_for(r.skip(1), who)
    }
}

pub open spec fn names_in(r: Seq<(Seq<char>, Seq<u8>)>) -> Seq<Seq<char>> {
    Seq::new(r.len(), |i: int| r[i].0)
}

/// The first entry before `i` that shares its name or its account.
pub open spec fn clash(r: Seq<(Seq<char>, Seq<u8>)>, i: int, j: nat) -> Option<nat>
    decreases i - j,
{
    if j >= i {
        None
    } else if r[j as int].0 == r[i].0 || r[j as int].1 == r[i].1 {
        Some(j)
    } else {
        clash(r, i, j + 1)
    }
}

/// What is wrong with the first `n` entries as a genesis: a name or an account
/// that is listed twice.
pub open spec fn genesis_clash(r: Seq<(Seq<char>, Seq<u8>)>, i: nat) -> Option<Seq<char>>
    decreases r.len() - i,
{
    if i >= r.len() {
        None
    } else {
        match clash(r, i as int, 0) {
            Some(j) => Some(
                if r[j as int].0 == r[i as int].0 {
                    r[i as int].0 + " is listed twice"@
                } else {
                    r[j as int].0 + " and "@ + r[i as int].0 + " are the same account"@
                },
            ),
            None => genesis_clash(r, i + 1),
        }
    }
}

/// Why a roster cannot be a genesis, if it cannot.
pub open spec fn genesis_fault(r: Seq<(Seq<char>, Seq<u8>)>, root: Seq<u8>) -> Option<Seq<char>> {
    match genesis_clash(r, 0) {
        Some(e) => Some(e),
        None => match account_named(r, tag_name("root"@)) {
            Some(a) => if a != root {
                Some("its root entry is not --root's account"@)
            } else {
                None
            },
            None => None,
        },
    }
}

pub open spec fn unit_view(r: Result<(), String>) -> Option<Seq<char>> {
    match r {
        Ok(_) => None,
        Err(e) => Some(e@),
    }
}

impl Roster {
    /// Read a roster spec; the first entry that is wrong says why.
    pub fn parse(spec: &str) -> (r: Result<Roster, String>)
        ensures
            match r {
                Ok(ros) => roster_of(text::split(spec@, ',')) == Ok::<
                    Seq<(Seq<char>, Seq<u8>)>,
                    Seq<char>,
                >(ros@),
                Err(e) => roster_of(text::split(spec@, ',')) == Err::<
                    Seq<(Seq<char>, Seq<u8>)>,
                    Seq<char>,
                >(e@),
            },
    {
        let pieces = text::split_on(spec, ',');
        let ghost all = text::split(spec@, ',');
        let mut out: Vec<(String, Account)> = Vec::new();
        let mut i: usize = 0;
        assert(all.take(0) =~= Seq::<Seq<char>>::empty());
        assert(entries(out@) =~= Seq::<(Seq<char>, Seq<u8>)>::empty());
        while i < pieces.len()
            invariant
                i <= pieces.len(),
                all == text::texts(pieces@),
                all == text::split(spec@, ','),
                roster_of(all.take(i as int)) == Ok::<Seq<(Seq<char>, Seq<u8>)>, Seq<char>>(
                    entries(out@),
                ),
            decreases pieces.len() - i,
        {
            let ghost part = all.take(i + 1);
            assert(part.drop_last() =~= all.take(i as int));
            assert(part.last() == pieces@[i as int]@);
            let p = text::trim(pieces[i].as_str());
            if !p.as_str().is_empty() {
                match text::split_once(p.as_str(), '=') {
                    None => {
                        let e = String::from_str("roster entry ").concat(
                            outside::quote(p.as_str()).as_str(),
                        ).concat(" is not name=value");
                        proof {
                            lemma_fault_stays(all, i + 1);
                        }
                        return Err(e);
                    },
                    Some((n, v)) => match roster_entry_account(v.as_str()) {
                        Err(e) => {
                            proof {
                                lemma_fault_stays(all, i + 1);
                            }
                            return Err(e);
                        },
                        Ok(a) => {
                            let name = text::to_lower(text::trim(n.as_str()).as_str());
                            let one = (name, a);
                            assert(entries(out@.push(one)) =~= entries(out@).push(
                                (one.0@, one.1@),
                            ));
                            out.push(one);
                        },
                    },
                }
            }
            i = i + 1;
        }
        assert(all.take(i as int) =~= all);
        Ok(Roster(out))
    }

    /// The account under `name`, however the tag is cased.
    pub fn account(&self, name: &str) -> (r: Option<Account>)
        ensures
            keys::account_view(r) == account_named(self@, tag_name(name@)),
    {
        let n = text::to_lower(text::trim_leading(text::trim(name).as_str(), '@').as_str());
        let ghost all = self@;
        let mut i: usize = 0;
        assert(all.skip(0) =~= all);
        while i < self.0.len()
            invariant
                i <= self.0.len(),
                all == self@,
                n@ == tag_name(name@),
                account_named(all, n@) == account_named(all.skip(i as int), n@),
            decreases self.0.len() - i,
        {
            assert(all.skip(i as int)[0] == (self.0@[i as int].0@, self.0@[i as int].1@));
            if text::same(self.0[i].0.as_str(), n.as_str()) {
                return Some(self.0[i].1);
            }
            assert(all.skip(i as int).skip(1) =~= all.skip(i + 1));
            i = i + 1;
        }
        None
    }

    /// The name of an account, or the account in short.
    pub fn name_of(&self, who: &Account) -> (r: String)
        ensures
            r@ == name_for(self@, who@),
    {
        let ghost all = self@;
        let mut i: usize = 0;
        assert(all.skip(0) =~= all);
        while i < self.0.len()
            invariant
                i <= self.0.len(),
                all == entries(self.0@),
                name_for(all, who@) == name_for(all.skip(i as int), who@),
            decreases self.0.len() - i,
        {
            assert(all.skip(i as int)[0] == (self.0@[i as int].0@, self.0@[i as int].1@));
            if keys::same_account(&self.0[i].1, who) {
                return self.0[i].0.clone();
            }
            assert(all.skip(i as int).skip(1) =~= all.skip(i + 1));
            i = i + 1;
        }
        keys::short(who)
    }

    /// The names, in order.
    pub fn names(&self) -> (out: Vec<String>)
        ensures
            text::texts(out@) == names_in(self@),
    {
        let mut out = text::none();
        let mut i: usize = 0;
        assert(names_in(self@).take(0) =~= Seq::<Seq<char>>::empty());
        while i < self.0.len()
            invariant
                i <= self.0.len(),
                text::texts(out@) == names_in(self@).take(i as int),
            decreases self.0.len() - i,
        {
            text::put(&mut out, self.0[i].0.as_str());
            assert(names_in(self@).take(i + 1) =~= names_in(self@).take(i as int).push(
                self.0@[i as int].0@,
            ));
            i = i + 1;
        }
        assert(names_in(self@).take(i as int) =~= names_in(self@));
        out
    }

    /// Refuse a roster that cannot be a genesis: a name or an account listed
    /// twice (two labels for one key, or one label for two), or a `root` entry
    /// that is not `root`'s account.
    pub fn check_genesis(&self, root: &Account) -> (r: Result<(), String>)
        ensures
            unit_view(r) == genesis_fault(self@, root@),
    {
        let ghost all = self@;
        let mut i: usize = 0;
        while i < self.0.len()
            invariant
                i <= self.0.len(),
                all == entries(self.0@),
                genesis_clash(all, 0) == genesis_clash(all, i as nat),
            decreases self.0.len() - i,
        {
            let ghost (n, a) = all[i as int];
            assert(all[i as int] == (self.0@[i as int].0@, self.0@[i as int].1@));
            let mut j: usize = 0;
            while j < i
                invariant
                    j <= i < self.0.len(),
                    all == entries(self.0@),
                    clash(all, i as int, 0) == clash(all, i as int, j as nat),
                    genesis_clash(all, 0) == genesis_clash(all, i as nat),
                decreases i - j,
            {
                assert(all[j as int] == (self.0@[j as int].0@, self.0@[j as int].1@));
                assert(all[i as int] == (self.0@[i as int].0@, self.0@[i as int].1@));
                if text::same(self.0[j].0.as_str(), self.0[i].0.as_str()) {
                    return Err(self.0[i].0.clone().concat(" is listed twice"));
                }
                if keys::same_account(&self.0[j].1, &self.0[i].1) {
                    return Err(
                        self.0[j].0.clone().concat(" and ").concat(self.0[i].0.as_str()).concat(
                            " are the same account",
                        ),
                    );
                }
                j = j + 1;
            }
            i = i + 1;
        }
        match self.account("root") {
            Some(a) => if keys::same_account(&a, root) {
                Ok(())
            } else {
                Err("its root entry is not --root's account".to_owned())
            },
            None => Ok(()),
        }
    }
}

proof fn lemma_fault_stays(all: Seq<Seq<char>>, i: int)
    requires
        0 <= i <= all.len(),
        roster_of(all.take(i)) is Err,
    ensures
        roster_of(all) == roster_of(all.take(i)),
    decreases all.len() - i,
{
    if i < all.len() {
        assert(all.take(i + 1).drop_last() =~= all.take(i));
        lemma_fault_stays(all, i + 1);
    } else {
        assert(all.take(i) =~= all);
    }
}

proof fn lemma_clash(r: Seq<(Seq<char>, Seq<u8>)>, i: int, j: nat)
    requires
        clash(r, i, j) is None,
    ensures
        forall|k: int| j <= k < i ==> (#[trigger] r[k]).0 != r[i].0 && r[k].1 != r[i].1,
    decreases i - j,
{
    if j < i {
        lemma_clash(r, i, j + 1);
    }
}

proof fn lemma_genesis_clash(r: Seq<(Seq<char>, Seq<u8>)>, n: nat)
    requires
        genesis_clash(r, n) is None,
    ensures
        forall|i: int, j: int|
            n <= i < r.len() && 0 <= j < i ==> (#[trigger] r[j]).0 != (#[trigger] r[i]).0 && r[j].1
                != r[i].1,
    decreases r.len() - n,
{
    if n < r.len() {
        lemma_genesis_clash(r, n + 1);
        lemma_clash(r, n as int, 0);
    }
}

/// In a roster that passes as a genesis every name and every account stands
/// once, so a name finds its account and an account its name, and `root`, if it
/// is listed, is the root account.
pub proof fn a_genesis_roster_is_one_to_one(
    r: Seq<(Seq<char>, Seq<u8>)>,
    root: Seq<u8>,
    i: int,
)
    requires
        genesis_fault(r, root) is None,
        0 <= i < r.len(),
    ensures
        account_named(r, r[i].0) == Some(r[i].1),
        name_for(r, r[i].1) == r[i].0,
        r[i].0 == tag_name("root"@) ==> r[i].1 == root,
{
    lemma_genesis_clash(r, 0);
    lemma_found_once(r, i);
}

proof fn lemma_found_once(r: Seq<(Seq<char>, Seq<u8>)>, i: int)
    requires
        0 <= i < r.len(),
        forall|k: int| 0 <= k < i ==> (#[trigger] r[k]).0 != r[i].0 && r[k].1 != r[i].1,
    ensures
        account_named(r, r[i].0) == Some(r[i].1),
        name_for(r, r[i].1) == r[i].0,
    decreases i,
{
    if i > 0 {
        lemma_found_once(r.skip(1), i - 1);
        assert(r[0].0 != r[i].0);
    }
}

/// The seed that a roster spec's pieces give `name`, if any gives one.
pub open spec fn seed_named(pieces: Seq<Seq<char>>, name: Seq<char>) -> Option<Seq<u8>>
    decreases pieces.len(),
{
    if pieces.len() == 0 {
        None
    } else {
        let here = match text::cut(pieces[0], '=') {
            None => None,
            Some((n, v)) => if text::lowered(text::trimmed(n)) != name || text::starts(
                text::trimmed(v),
                "pub:"@,
            ) {
                None
            } else {
                match seed_in(text::trimmed(v)) {
                    Ok(s) => Some(s),
                    Err(_) => None,
                }
            },
        };
        if here is Some {
            here
        } else {
            seed_named(pieces.skip(1), name)
        }
    }
}

/// The seed a roster spec gives `name`, if it gives a seed at all (a `pub:`
/// entry has none).
pub fn roster_seed(spec: &str, name: &str) -> (r: Option<[u8; 32]>)
    ensures
        keys::account_view(r) == seed_named(
            text::split(spec@, ','),
            text::lowered(text::trimmed(name@)),
        ),
{
    let want = text::to_lower(text::trim(name).as_str());
    let pieces = text::split_on(spec, ',');
    let ghost all = text::split(spec@, ',');
    let mut i: usize = 0;
    assert(all.skip(0) =~= all);
    while i < pieces.len()
        invariant
            i <= pieces.len(),
            all == text::texts(pieces@),
            all == text::split(spec@, ','),
            want@ == text::lowered(text::trimmed(name@)),
            seed_named(all, want@) == seed_named(all.skip(i as int), want@),
        decreases pieces.len() - i,
    {
        assert(all.skip(i as int)[0] == pieces@[i as int]@);
        assert(all.skip(i as int).skip(1) =~= all.skip(i + 1));
        match text::split_once(pieces[i].as_str(), '=') {
            None => {},
            Some((n, v)) => {
                let who = text::to_lower(text::trim(n.as_str()).as_str());
                if text::same(who.as_str(), want.as_str()) && !text::starts_with(
                    text::trim(v.as_str()).as_str(),
                    "pub:",
                ) {
                    match parse_seed(v.as_str()) {
                        Ok(s) => {
                            return Some(s);
                        },
                        Err(_) => {},
                    }
                }
            },
        }
        i = i + 1;
    }
    None
}

// ---------------------------------------------------------------------
// Task ids
// ---------------------------------------------------------------------

/// A task, or one sub-task of it.
#[derive(Clone, Copy, Debug, PartialEq, Eq, Structural)]
pub struct TaskId {
    pub parent: u32,
    pub part: Option<u32>,
}

/// The task that a text names: `t1`, or `t1.2` for a part of it.
pub open spec fn task_in(s: Seq<char>) -> Option<TaskId> {
    let v = text::split(text::without_leading(text::trimmed(s), 't'), '.');
    match text::parsed(v[0], u32::MAX as nat) {
        None => None,
        Some(p) => if v.len() == 1 {
            Some(TaskId { parent: p as u32, part: None })
        } else {
            match text::parsed(v[1], u32::MAX as nat) {
                None => None,
                Some(q) => Some(TaskId { parent: p as u32, part: Some(q as u32) }),
            }
        },
    }
}

pub fn parse_task(s: &str) -> (r: Option<TaskId>)
    ensures
        r == task_in(s@),
{
    let bare = text::trim_leading(text::trim(s).as_str(), 't');
    let v = text::split_on(bare.as_str(), '.');
    let ghost all = text::split(bare@, '.');
    assert(all[0] == v@[0]@);
    let p: u32 = match text::parse_number(v[0].as_str(), u32::MAX as u64) {
        None => {
            return None;
        },
        Some(p) => p as u32,
    };
    if v.len() == 1 {
        return Some(TaskId { parent: p, part: None });
    }
    assert(all[1] == v@[1]@);
    match text::parse_number(v[1].as_str(), u32::MAX as u64) {
        None => None,
        Some(q) => Some(TaskId { parent: p, part: Some(q as u32) }),
    }
}

/// A task's name.
pub open spec fn task_name(t: TaskId) -> Seq<char> {
    match t.part {
        None => "t"@ + text::dec(t.parent as nat),
        Some(q) => "t"@ + text::dec(t.parent as nat) + "."@ + text::dec(q as nat),
    }
}

// ---------------------------------------------------------------------
// Accounts
// ---------------------------------------------------------------------

/// What an account is given as.
#[derive(Debug)]
pub enum AccountSpec {
    /// An `authorized_keys` line, to be read as one.
    Ssh(String),
    Known(Account),
}

/// An account spec: an `authorized_keys` line, a small-int dev seed, or 64 hex
/// chars.
pub fn parse_account(spec: &str) -> (r: Result<AccountSpec, String>)
    ensures
        ({
            let s = text::trimmed(spec@);
            if text::starts(s, "ssh-"@) {
                r matches Ok(AccountSpec::Ssh(line)) && line@ == s
            } else {
                match text::parsed(s, 255) {
                    Some(n) => r matches Ok(AccountSpec::Known(a)) && a@ == outside::public_key(
                        Seq::new(32, |i: int| n as u8),
                    ),
                    None => match keys::account_in(s) {
                        Some(b) => r matches Ok(AccountSpec::Known(a)) && a@ == b,
                        None => r matches Err(e) && e@ == "account "@ + outside::quoted(s)
                            + ": not 64 hex chars"@,
                    },
                }
            }
        }),
{
    let spec = text::trim(spec);
    if text::starts_with(spec.as_str(), "ssh-") {
        return Ok(AccountSpec::Ssh(spec));
    }
    match text::parse_number(spec.as_str(), 255) {
        Some(n) => {
            let b: u8 = n as u8;
            let seed: [u8; 32] = [b; 32];
            assert(seed@ =~= Seq::new(32, |i: int| n as nat as u8));
            return Ok(AccountSpec::Known(keys::account_of_seed(&seed)));
        },
        None => {},
    }
    match keys::from_hex(spec.as_str()) {
        Some(a) => Ok(AccountSpec::Known(a)),
        None => Err(
            String::from_str("account ").concat(outside::quote(spec.as_str()).as_str()).concat(
                ": not 64 hex chars",
            ),
        ),
    }
}

// ---------------------------------------------------------------------
// Files
// ---------------------------------------------------------------------

/// A path with `~/` at its front put in place: `home`, a slash unless `home`
/// ends in one, and the rest, which stands alone where it begins with a slash
/// or there is no home.
pub open spec fn at_home(p: Seq<char>, home: Seq<char>) -> Seq<char> {
    match text::after_prefix(p, "~/"@) {
        None => p,
        Some(rest) => if text::starts(rest, "/"@) || home.len() == 0 {
            rest
        } else if text::ends(home, "/"@) {
            home + rest
        } else {
            home + "/"@ + rest
        },
    }
}

/// `~` at the front of a path, expanded.
pub fn expand_home(p: &str, home: &str) -> (r: String)
    ensures
        r@ == at_home(p@, home@),
{
    match text::strip_prefix(p, "~/") {
        None => p.to_owned(),
        Some(rest) => {
            if text::starts_with(rest.as_str(), "/") || home.is_empty() {
                rest
            } else if text::ends_with(home, "/") {
                home.to_owned().concat(rest.as_str())
            } else {
                home.to_owned().concat("/").concat(rest.as_str())
            }
        },
    }
}

/// Where the operator's own identity is kept.
pub const ROOT_IDENTITY: &'static str = "~/.akuma/miot/id_ed25519.seed";

/// Where the operator's own identity is kept.
pub fn root_identity_path(home: &str) -> (r: String)
    ensures
        r@ == at_home(ROOT_IDENTITY@, home@),
{
    expand_home(ROOT_IDENTITY, home)
}

/// The seed in a file: its spelling is that of [`parse_seed`], with white space
/// around it. `read` is what the file holds, or why it cannot be read.
pub fn read_seed_file(path: &str, read: &Result<String, String>) -> (r: Result<[u8; 32], String>)
    ensures
        seed_view(r) == (match *read {
            Ok(s) => seed_in(text::trimmed(s@)),
            Err(e) => Err(path@ + ": "@ + e@),
        }),
{
    match read {
        Ok(s) => parse_seed(s.as_str()),
        Err(e) => Err(path.to_owned().concat(": ").concat(e.as_str())),
    }
}

/// What becomes of an identity's file.
pub enum IdentityPlan {
    /// The seed in it.
    Use([u8; 32]),
    /// There is none: one is made, and kept.
    Create,
    /// It is there and cannot be used: nothing is written over it.
    Unreadable(String),
}

/// Whether an identity is used or made. One that exists is never made anew.
pub fn identity_plan(path: &str, read: &Result<String, String>, exists: bool) -> (r: IdentityPlan)
    ensures
        match (match *read {
            Ok(s) => seed_in(text::trimmed(s@)),
            Err(e) => Err(path@ + ": "@ + e@),
        }) {
            Ok(seed) => r matches IdentityPlan::Use(x) && x@ == seed,
            Err(why) => if exists {
                r matches IdentityPlan::Unreadable(s) && s@
                    == "identity file exists but is unreadable: "@ + why
            } else {
                r is Create
            },
        },
{
    match read_seed_file(path, read) {
        Ok(seed) => IdentityPlan::Use(seed),
        Err(why) => if exists {
            IdentityPlan::Unreadable(
                "identity file exists but is unreadable: ".to_owned().concat(why.as_str()),
            )
        } else {
            IdentityPlan::Create
        },
    }
}

/// Whether an identity's public line has to be written: where it is missing, or
/// says something else.
pub fn public_is_stale(existing: &Option<String>, line: &str) -> (r: bool)
    ensures
        r == (match text::text_view(*existing) {
            Some(s) => text::trimmed(s) != text::trimmed(line@),
            None => true,
        }),
{
    match existing {
        Some(s) => !text::same(text::trim(s.as_str()).as_str(), text::trim(line).as_str()),
        None => true,
    }
}

/// The names that end in `.md` and have something before it.
pub open spec fn markdown_among(names: Seq<Seq<char>>) -> Seq<Seq<char>>
    decreases names.len(),
{
    if names.len() == 0 {
        seq![]
    } else if text::ends(names.last(), ".md"@) && names.last().len() > 3 {
        markdown_among(names.drop_last()).push(names.last())
    } else {
        markdown_among(names.drop_last())
    }
}

/// What a directory contributes to a context: every `*.md` in it, by name.
pub fn markdown_files(names: &Vec<String>) -> (out: Vec<String>)
    ensures
        text::texts(out@) == local_tool::by_name(markdown_among(text::texts(names@))),
{
    let ghost all = text::texts(names@);
    let mut found = text::none();
    let mut i: usize = 0;
    assert(all.take(0) =~= Seq::<Seq<char>>::empty());
    while i < names.len()
        invariant
            i <= names.len(),
            all == text::texts(names@),
            text::texts(found@) == markdown_among(all.take(i as int)),
        decreases names.len() - i,
    {
        assert(all.take(i + 1).drop_last() =~= all.take(i as int));
        assert(all.take(i + 1).last() == names@[i as int]@);
        let name = names[i].as_str();
        if text::ends_with(name, ".md") && name.unicode_len() > 3 {
            text::put(&mut found, name);
        }
        i = i + 1;
    }
    assert(all.take(i as int) =~= all);
    local_tool::sorted_names(&found)
}

/// Said of a directory that contributes nothing.
pub const NO_MARKDOWN: &'static str = "no *.md in it";

/// One file of a context: what it is called, and what it holds or why it could
/// not be read.
#[derive(Debug)]
pub struct ContextFile {
    /// The path, for a complaint.
    pub path: String,
    /// The file's name without its extension.
    pub stem: String,
    pub text: Result<String, String>,
}

/// The sections that the files of a context make, in order.
pub open spec fn context_text(v: Seq<ContextFile>) -> Seq<char>
    decreases v.len(),
{
    if v.len() == 0 {
        seq![]
    } else {
        let before = context_text(v.drop_last());
        match v.last().text {
            Ok(s) => before + "\n\n## "@ + v.last().stem@ + "\n\n"@ + text::trimmed(s@),
            Err(_) => before,
        }
    }
}

/// One line for each file that could not be read.
pub open spec fn context_problems(v: Seq<ContextFile>) -> Seq<Seq<char>>
    decreases v.len(),
{
    if v.len() == 0 {
        seq![]
    } else {
        let before = context_problems(v.drop_last());
        match v.last().text {
            Ok(_) => before,
            Err(e) => before.push(v.last().path@ + ": "@ + e@),
        }
    }
}

/// Extra system-prompt sections: each file becomes a `## <file stem>` section,
/// in the order given; each that could not be read is reported, never fatal, so
/// a missing file costs a section rather than the cat.
pub fn load_context(files: &Vec<ContextFile>) -> (r: (String, Vec<String>))
    ensures
        r.0@ == context_text(files@),
        text::texts(r.1@) == context_problems(files@),
{
    let mut out = String::new();
    let mut problems = text::none();
    let mut i: usize = 0;
    assert(files@.take(0) =~= Seq::<ContextFile>::empty());
    while i < files.len()
        invariant
            i <= files.len(),
            out@ == context_text(files@.take(i as int)),
            text::texts(problems@) == context_problems(files@.take(i as int)),
        decreases files.len() - i,
    {
        assert(files@.take(i + 1).drop_last() =~= files@.take(i as int));
        assert(files@.take(i + 1).last() == files@[i as int]);
        match &files[i].text {
            Ok(s) => {
                out.append("\n\n## ");
                out.append(files[i].stem.as_str());
                out.append("\n\n");
                out.append(text::trim(s.as_str()).as_str());
            },
            Err(e) => {
                let p = files[i].path.clone().concat(": ").concat(e.as_str());
                text::put(&mut problems, p.as_str());
            },
        }
        i = i + 1;
    }
    assert(files@.take(i as int) =~= files@);
    (out, problems)
}

/// The paths a context spec names: its pieces between commas that hold
/// anything, trimmed.
pub open spec fn context_paths(pieces: Seq<Seq<char>>) -> Seq<Seq<char>>
    decreases pieces.len(),
{
    if pieces.len() == 0 {
        seq![]
    } else {
        let before = context_paths(pieces.drop_last());
        let p = text::trimmed(pieces.last());
        if p.len() == 0 {
            before
        } else {
            before.push(p)
        }
    }
}

/// The paths a context spec names.
pub fn context_list(spec: &str) -> (out: Vec<String>)
    ensures
        text::texts(out@) == context_paths(text::split(spec@, ',')),
{
    let pieces = text::split_on(spec, ',');
    let ghost all = text::split(spec@, ',');
    let mut out = text::none();
    let mut i: usize = 0;
    assert(all.take(0) =~= Seq::<Seq<char>>::empty());
    while i < pieces.len()
        invariant
            i <= pieces.len(),
            all == text::texts(pieces@),
            text::texts(out@) == context_paths(all.take(i as int)),
        decreases pieces.len() - i,
    {
        assert(all.take(i + 1).drop_last() =~= all.take(i as int));
        assert(all.take(i + 1).last() == pieces@[i as int]@);
        let p = text::trim(pieces[i].as_str());
        if !p.as_str().is_empty() {
            text::put(&mut out, p.as_str());
        }
        i = i + 1;
    }
    assert(all.take(i as int) =~= all);
    out
}

// ---------------------------------------------------------------------
// Where a reader of events is
// ---------------------------------------------------------------------

/// Where a reader of a node's events is, robust to the node rebuilding its log.
///
/// The numbering of events restarts from 0 whenever a node rebuilds its log. A
/// reader that just keeps asking from its old place then hears nothing until
/// the new log grows past it; one that goes back to 0 without care reads again
/// everything the rebuilt log replays. So [`EventCursor::check_head`] spots the
/// restart, and from then on [`EventCursor::accept`] skips everything up to and
/// including what was already handled, by block position.
#[derive(Debug, Clone, Copy)]
pub struct EventCursor {
    /// What to ask for next.
    pub seq: u64,
    /// The block of the newest event taken, and how many of it were.
    pub block: u64,
    pub in_block: usize,
    /// Set by a rebuild: skip up to this block, that many of its events.
    pub floor: Option<(u64, usize)>,
    pub floor_seen: usize,
}

/// A reader that asks from `since`.
pub open spec fn reader(since: u64) -> EventCursor {
    EventCursor { seq: since, block: 0, in_block: 0, floor: None, floor_seen: 0 }
}

/// A reader once it knows the newest number at the head, and whether the log
/// was rebuilt.
pub open spec fn head_checked(c: EventCursor, head: u64) -> (EventCursor, bool) {
    if head >= c.seq {
        (c, false)
    } else {
        (
            EventCursor {
                seq: 0,
                floor: Some((c.block, c.in_block)),
                floor_seen: 0,
                ..c
            },
            true,
        )
    }
}

/// A reader past one event, and whether the event is new to it.
pub open spec fn past(c: EventCursor, seq: u64, block: u64) -> (EventCursor, bool) {
    let at = EventCursor {
        seq: if seq > c.seq {
            seq
        } else {
            c.seq
        },
        ..c
    };
    let counted = EventCursor {
        floor: None,
        block,
        in_block: if block == c.block {
            (c.in_block + 1) as usize
        } else {
            1
        },
        ..at
    };
    match c.floor {
        Some((b, n)) => if block < b {
            (at, false)
        } else if block == b && c.floor_seen < n {
            (EventCursor { floor_seen: (c.floor_seen + 1) as usize, ..at }, false)
        } else {
            (counted, true)
        },
        None => (counted, true),
    }
}

impl EventCursor {
    pub fn new(since: u64) -> (r: EventCursor)
        ensures
            r == reader(since),
    {
        EventCursor { seq: since, block: 0, in_block: 0, floor: None, floor_seen: 0 }
    }

    /// The newest number at the node's head. `true` if the node's log was
    /// rebuilt: the cursor now reads it again from the start, skipping what it
    /// has seen.
    pub fn check_head(&mut self, head_seq: u64) -> (r: bool)
        ensures
            (*final(self), r) == head_checked(*old(self), head_seq),
    {
        if head_seq >= self.seq {
            return false;
        }
        self.seq = 0;
        self.floor = Some((self.block, self.in_block));
        self.floor_seen = 0;
        true
    }

    /// Whether an event is new to this reader. Always advances `seq`.
    pub fn accept(&mut self, e: &Json) -> (r: bool)
        requires
            old(self).in_block < usize::MAX,
        ensures
            (*final(self), r) == past(
                *old(self),
                match json::num_at(*e, "seq"@) {
                    Some(n) => n,
                    None => old(self).seq,
                },
                match json::num_at(*e, "block"@) {
                    Some(n) => n,
                    None => 0,
                },
            ),
    {
        let seq: u64 = match e.num("seq") {
            Some(n) => n,
            None => self.seq,
        };
        let block: u64 = match e.num("block") {
            Some(n) => n,
            None => 0,
        };
        self.accept_at(seq, block)
    }

    /// [`accept`](Self::accept) for a caller that already read the entry.
    pub fn accept_at(&mut self, seq: u64, block: u64) -> (r: bool)
        requires
            old(self).in_block < usize::MAX,
        ensures
            (*final(self), r) == past(*old(self), seq, block),
    {
        if seq > self.seq {
            self.seq = seq;
        }
        match self.floor {
            Some((b, n)) => {
                if block < b {
                    return false;
                }
                if block == b && self.floor_seen < n {
                    self.floor_seen = self.floor_seen + 1;
                    return false;
                }
                self.floor = None;
            },
            None => {},
        }
        if block == self.block {
            self.in_block = self.in_block + 1;
        } else {
            self.block = block;
            self.in_block = 1;
        }
        true
    }
}

/// A reader past the first `n` of several events.
pub open spec fn past_all(c: EventCursor, evs: Seq<(u64, u64)>, n: nat) -> EventCursor
    decreases n,
{
    if n == 0 {
        c
    } else {
        let before = past_all(c, evs, (n - 1) as nat);
        past(before, evs[n - 1].0, evs[n - 1].1).0
    }
}

/// Whether the event at `i` is new to a reader that reads them in order.
pub open spec fn is_new(c: EventCursor, evs: Seq<(u64, u64)>, i: nat) -> bool {
    past(past_all(c, evs, i), evs[i as int].0, evs[i as int].1).1
}

/// The blocks never go down.
pub open spec fn blocks_rise(evs: Seq<(u64, u64)>) -> bool {
    forall|i: int, j: int| 0 <= i <= j < evs.len() ==> (#[trigger] evs[i]).1 <= (#[trigger] evs[j]).1
}

/// How many of the first `n` events are in a block below `b`.
pub open spec fn below(evs: Seq<(u64, u64)>, b: u64, n: nat) -> nat
    decreases n,
{
    if n == 0 {
        0
    } else {
        below(evs, b, (n - 1) as nat) + if evs[n - 1].1 < b {
            1nat
        } else {
            0
        }
    }
}

proof fn lemma_below(evs: Seq<(u64, u64)>, b: u64, n: nat)
    requires
        blocks_rise(evs),
        n <= evs.len(),
    ensures
        below(evs, b, n) <= n,
        n > 0 && evs[n - 1].1 < b ==> below(evs, b, n) == n,
        n < evs.len() && evs[n as int].1 < b ==> below(evs, b, n) == n,
    decreases n,
{
    if n > 0 {
        lemma_below(evs, b, (n - 1) as nat);
        if n < evs.len() {
            assert(evs[n - 1].1 <= evs[n as int].1);
        }
        if n >= 2 {
            assert(evs[n - 2].1 <= evs[n - 1].1);
        }
    }
}

proof fn lemma_replay(c: EventCursor, evs: Seq<(u64, u64)>, b: u64, k: usize, n: nat)
    requires
        blocks_rise(evs),
        n <= evs.len(),
        c.floor == Some((b, k)),
        c.floor_seen == 0,
        c.block == b,
    ensures
        ({
            let at = past_all(c, evs, n);
            let low = below(evs, b, n);
            if n <= low + k && (n == 0 || evs[n - 1].1 <= b) {
                at.floor == Some((b, k)) && at.floor_seen == n - low && at.block == b
            } else {
                at.floor is None
            }
        }),
    decreases n,
{
    if n > 0 {
        lemma_replay(c, evs, b, k, (n - 1) as nat);
        lemma_below(evs, b, n);
        lemma_below(evs, b, (n - 1) as nat);
        if n >= 2 {
            assert(evs[n - 2].1 <= evs[n - 1].1);
        }
    }
}

/// A rebuilt log is read again without repeats: of a log whose blocks do not go
/// down, a reader that had come as far as `in_block` events of `block` takes
/// exactly the events of higher blocks, and those of that block past the ones
/// it had seen.
pub proof fn a_rebuilt_log_is_read_without_repeats(
    before: EventCursor,
    head: u64,
    evs: Seq<(u64, u64)>,
    i: nat,
)
    requires
        head < before.seq,
        blocks_rise(evs),
        i < evs.len(),
    ensures
        head_checked(before, head).1,
        head_checked(before, head).0.seq == 0,
        is_new(head_checked(before, head).0, evs, i) <==> (evs[i as int].1 > before.block || (
        evs[i as int].1 == before.block && i >= below(evs, before.block, i) + before.in_block)),
{
    let c = head_checked(before, head).0;
    lemma_replay(c, evs, before.block, before.in_block, i);
    lemma_below(evs, before.block, i);
    if i > 0 {
        assert(evs[i - 1].1 <= evs[i as int].1);
    }
}

/// A log that only grew is not read again: nothing is skipped.
pub proof fn a_log_that_grew_is_not_a_rebuild(c: EventCursor, head: u64, seq: u64, block: u64)
    requires
        head >= c.seq,
        c.floor is None,
    ensures
        head_checked(c, head) == (c, false),
        past(c, seq, block).1,
{
}

// ---------------------------------------------------------------------
// What names stand for
// ---------------------------------------------------------------------

/// A name stands for the first account that has it, and for none where no entry
/// does.
pub proof fn a_name_finds_its_account(r: Seq<(Seq<char>, Seq<u8>)>, name: Seq<char>)
    ensures
        match account_named(r, name) {
            Some(a) => exists|i: int|
                0 <= i < r.len() && #[trigger] r[i] == (name, a) && forall|k: int|
                    0 <= k < i ==> (#[trigger] r[k]).0 != name,
            None => forall|k: int| 0 <= k < r.len() ==> (#[trigger] r[k]).0 != name,
        },
    decreases r.len(),
{
    if r.len() > 0 {
        if r[0].0 == name {
            assert(r[0] == (name, r[0].1));
        } else {
            let rest = r.skip(1);
            a_name_finds_its_account(rest, name);
            match account_named(rest, name) {
                Some(a) => {
                    let i = choose|i: int|
                        0 <= i < rest.len() && #[trigger] rest[i] == (name, a) && forall|k: int|
                            0 <= k < i ==> (#[trigger] rest[k]).0 != name;
                    assert(r[i + 1] == (name, a));
                    assert forall|k: int| 0 <= k < i + 1 implies (#[trigger] r[k]).0 != name by {
                        if k > 0 {
                            assert(rest[k - 1] == r[k]);
                        }
                    }
                },
                None => {
                    assert forall|k: int| 0 <= k < r.len() implies (#[trigger] r[k]).0 != name by {
                        if k > 0 {
                            assert(rest[k - 1] == r[k]);
                        }
                    }
                },
            }
        }
    }
}

/// An account goes by the first name it has, and where it has none by its own
/// first and last digits.
pub proof fn an_account_goes_by_its_name(r: Seq<(Seq<char>, Seq<u8>)>, who: Seq<u8>)
    ensures
        (exists|i: int| 0 <= i < r.len() && (#[trigger] r[i]).1 == who) ==> exists|i: int|
            0 <= i < r.len() && #[trigger] r[i] == (name_for(r, who), who) && forall|k: int|
                0 <= k < i ==> (#[trigger] r[k]).1 != who,
        (forall|i: int| 0 <= i < r.len() ==> (#[trigger] r[i]).1 != who) ==> name_for(r, who)
            == keys::shortened(who),
    decreases r.len(),
{
    if r.len() > 0 {
        if r[0].1 == who {
            assert(r[0] == (name_for(r, who), who));
        } else {
            let rest = r.skip(1);
            an_account_goes_by_its_name(rest, who);
            if exists|i: int| 0 <= i < r.len() && (#[trigger] r[i]).1 == who {
                let i = choose|i: int| 0 <= i < r.len() && (#[trigger] r[i]).1 == who;
                assert(rest[i - 1] == r[i]);
                let j = choose|j: int|
                    0 <= j < rest.len() && #[trigger] rest[j] == (name_for(rest, who), who)
                        && forall|k: int| 0 <= k < j ==> (#[trigger] rest[k]).1 != who;
                assert(r[j + 1] == (name_for(r, who), who));
                assert forall|k: int| 0 <= k < j + 1 implies (#[trigger] r[k]).1 != who by {
                    if k > 0 {
                        assert(rest[k - 1] == r[k]);
                    }
                }
            }
            if forall|i: int| 0 <= i < r.len() ==> (#[trigger] r[i]).1 != who {
                assert forall|i: int| 0 <= i < rest.len() implies (#[trigger] rest[i]).1 != who by {
                    assert(rest[i] == r[i + 1]);
                }
            }
        }
    }
}

proof fn lemma_number_plain(n: nat)
    ensures
        text::dec(n).len() > 0,
        forall|i: int|
            0 <= i < text::dec(n).len() ==> '0' <= #[trigger] text::dec(n)[i] && text::dec(n)[i]
                <= '9',
    decreases n,
{
    if n >= 10 {
        lemma_number_plain(n / 10);
        let d = text::dec(n / 10);
        assert forall|i: int| 0 <= i < text::dec(n).len() implies '0' <= #[trigger] text::dec(n)[i]
            && text::dec(n)[i] <= '9' by {
            if i < d.len() {
                assert(text::dec(n)[i] == d[i]);
            }
        }
    }
}

proof fn lemma_untrimmed(s: Seq<char>)
    requires
        s.len() > 0,
        !text::white(s[0]),
        !text::white(s.last()),
    ensures
        text::trimmed(s) == s,
{
}

/// A task's name reads back as the task it names: nothing that is written down
/// of one task is read as another.
pub proof fn task_names_read_back(t: TaskId)
    ensures
        task_in(task_name(t)) == Some(t),
{
    reveal_strlit("t");
    reveal_strlit(".");
    let a = text::dec(t.parent as nat);
    lemma_number_plain(t.parent as nat);
    text::printed_numbers_read_back(t.parent as nat);
    let bare = match t.part {
        None => a,
        Some(q) => a + "."@ + text::dec(q as nat),
    };
    let name = task_name(t);
    assert(name =~= "t"@ + bare);
    assert(name[0] == 't');
    assert(name.skip(1) =~= bare);
    match t.part {
        None => {
            assert(name.last() == a.last());
            assert(a.last() == a[a.len() - 1]);
            lemma_untrimmed(name);
            assert(bare[0] == a[0]);
            assert(text::without_leading(bare, 't') == bare);
            assert(text::without_leading(name, 't') == bare);
            assert(!a.contains('.')) by {
                if a.contains('.') {
                    let i = choose|i: int| 0 <= i < a.len() && a[i] == '.';
                    assert('0' <= a[i]);
                }
            }
            text::lemma_first(bare, '.');
            assert(text::split(bare, '.') =~= seq![a]);
        },
        Some(q) => {
            let b = text::dec(q as nat);
            lemma_number_plain(q as nat);
            text::printed_numbers_read_back(q as nat);
            assert(name.last() == b[b.len() - 1]);
            lemma_untrimmed(name);
            assert(bare[0] == a[0]);
            assert(text::without_leading(bare, 't') == bare);
            assert(text::without_leading(name, 't') == bare);
            text::lemma_first(bare, '.');
            let n = text::first(bare, '.') as int;
            assert(bare[a.len() as int] == '.');
            assert(n == a.len()) by {
                if n < a.len() {
                    assert(bare[n] == a[n]);
                    assert('0' <= a[n]);
                }
            }
            assert(bare.take(n) =~= a);
            assert(bare.skip(n + 1) =~= b);
            text::lemma_first(b, '.');
            let k = text::first(b, '.') as int;
            assert(k == b.len()) by {
                if k < b.len() {
                    assert('0' <= b[k]);
                }
            }
            assert(text::split(b, '.') =~= seq![b]);
            assert(text::split(bare, '.') =~= seq![a, b]);
        },
    }
}

// ---------------------------------------------------------------------
// What is read from what a user writes
// ---------------------------------------------------------------------

/// A small number is a seed of that number in every byte; sixty-four hex digits
/// are the bytes they spell; anything else is refused, and named.
pub proof fn a_seed_is_a_number_or_its_bytes(s: Seq<char>, b: Seq<u8>)
    ensures
        text::parsed(s, 255) matches Some(n) ==> (seed_in(s) matches Ok(seed) && seed.len() == 32
            && forall|i: int| 0 <= i < 32 ==> #[trigger] seed[i] == n as u8),
        text::parsed(s, 255) is None && keys::unhexed(without_0x(s)) == Some(b) && b.len() == 32
            ==> seed_in(s) == Ok::<Seq<u8>, Seq<char>>(b),
        seed_in(s) matches Ok(seed) ==> seed.len() == 32,
        seed_in(s) matches Err(why) ==> text::has(why, outside::quoted(s)),
{
    let q = outside::quoted(s);
    text::lemma_has_self(q);
    text::lemma_has_right("seed "@, q, q);
    text::lemma_has_left("seed "@ + q, " is neither a small int nor 64 hex chars"@, q);
    text::lemma_has_left("seed "@ + q, " is not 32 bytes"@, q);
}

/// A hex number is read with `0x` before it as without.
pub proof fn a_hex_mark_is_taken_off(s: Seq<char>)
    ensures
        without_0x("0x"@ + s) == without_0x(s),
        !(s.len() >= 2 && s[0] == '0' && s[1] == 'x') ==> without_0x(s) == s,
{
    reveal_strlit("0x");
    let t = "0x"@ + s;
    assert(t[0] == '0' && t[1] == 'x');
    assert(t.skip(2) =~= s);
}

/// An entry that gives a key is that account, and one that gives a seed is the
/// account the seed makes.
pub proof fn an_entry_is_a_key_or_a_seed(value: Seq<char>, a: Seq<u8>)
    ensures
        text::after_prefix(text::trimmed(value), "pub:"@) matches Some(hex) ==> (
        keys::account_in(hex) == Some(a) ==> entry_account(value) == Ok::<Seq<u8>, Seq<char>>(a))
            && (keys::account_in(hex) is None ==> entry_account(value) is Err),
        text::after_prefix(text::trimmed(value), "pub:"@) is None ==> match seed_in(
            text::trimmed(text::trimmed(value)),
        ) {
            Ok(seed) => entry_account(value) == Ok::<Seq<u8>, Seq<char>>(outside::public_key(seed)),
            Err(why) => entry_account(value) == Err::<Seq<u8>, Seq<char>>(why),
        },
{
}

/// Whether a piece of a roster is an entry: a name, `=`, and an account that can
/// be read.
pub open spec fn reads_as(piece: Seq<char>, name: Seq<char>, a: Seq<u8>) -> bool {
    text::cut(text::trimmed(piece), '=') matches Some((n, v)) && name == text::lowered(
        text::trimmed(n),
    ) && entry_account(v) == Ok::<Seq<u8>, Seq<char>>(a)
}

/// A roster that is read has every entry that was written, in order: pieces that
/// are blank add nothing, and one that is no entry is refused.
pub proof fn a_roster_has_every_entry(before: Seq<Seq<char>>, piece: Seq<char>)
    ensures
        roster_of(Seq::<Seq<char>>::empty()) == Ok::<Seq<(Seq<char>, Seq<u8>)>, Seq<char>>(seq![]),
        roster_of(before) is Err ==> roster_of(before.push(piece)) == roster_of(before),
        roster_of(before) matches Ok(r) ==> {
            &&& text::trimmed(piece).len() == 0 ==> roster_of(before.push(piece)) == Ok::<
                Seq<(Seq<char>, Seq<u8>)>,
                Seq<char>,
            >(r)
            &&& forall|name: Seq<char>, a: Seq<u8>|
                text::trimmed(piece).len() > 0 && #[trigger] reads_as(piece, name, a) ==> roster_of(
                    before.push(piece),
                ) == Ok::<Seq<(Seq<char>, Seq<u8>)>, Seq<char>>(r.push((name, a)))
            &&& text::trimmed(piece).len() > 0 && (forall|name: Seq<char>, a: Seq<u8>|
                !#[trigger] reads_as(piece, name, a)) ==> roster_of(before.push(piece)) is Err
        },
{
    assert(before.push(piece).drop_last() =~= before);
    assert(before.push(piece).last() == piece);
    let p = text::trimmed(piece);
    if roster_of(before) is Ok && p.len() > 0 {
        match text::cut(p, '=') {
            Some((n, v)) => {
                if entry_account(v) is Ok {
                    assert(reads_as(piece, text::lowered(text::trimmed(n)), entry_account(v)->Ok_0));
                }
            },
            None => {},
        }
    }
}

/// A genesis roster in which a name or an account stands twice is refused.
pub proof fn a_genesis_roster_is_refused_for_a_clash(r: Seq<(Seq<char>, Seq<u8>)>, i: int, j: int)
    requires
        0 <= j < i < r.len(),
        r[j].0 == r[i].0 || r[j].1 == r[i].1,
    ensures
        genesis_clash(r, 0) is Some,
{
    lemma_clash_found(r, i, j, 0);
    lemma_genesis_clash_found(r, i, 0);
}

proof fn lemma_clash_found(r: Seq<(Seq<char>, Seq<u8>)>, i: int, j: int, from: nat)
    requires
        from <= j < i < r.len(),
        r[j].0 == r[i].0 || r[j].1 == r[i].1,
    ensures
        clash(r, i, from) is Some,
    decreases i - from,
{
    if from < j && !(r[from as int].0 == r[i].0 || r[from as int].1 == r[i].1) {
        lemma_clash_found(r, i, j, from + 1);
    }
}

proof fn lemma_genesis_clash_found(r: Seq<(Seq<char>, Seq<u8>)>, i: int, from: nat)
    requires
        from <= i < r.len(),
        clash(r, i, 0) is Some,
    ensures
        genesis_clash(r, from) is Some,
    decreases r.len() - from,
{
    if from < i && clash(r, from as int, 0) is None {
        lemma_genesis_clash_found(r, i, from + 1);
    }
}

/// A path from home is found under home, and any other is left as it is.
pub proof fn a_path_from_home_is_under_home(rest: Seq<char>, home: Seq<char>, p: Seq<char>)
    ensures
        !text::starts(p, "~/"@) ==> at_home(p, home) == p,
        home.len() > 0 && !text::ends(home, "/"@) && !text::starts(rest, "/"@) ==> at_home(
            "~/"@ + rest,
            home,
        ) == home + "/"@ + rest,
        text::ends(home, "/"@) && !text::starts(rest, "/"@) ==> at_home("~/"@ + rest, home) == home
            + rest,
{
    reveal_strlit("~/");
    reveal_strlit("/");
    let q = "~/"@ + rest;
    assert(q.subrange(0, 2) =~= "~/"@);
    assert(text::occurs_at(q, "~/"@, 0));
    assert(q.skip(2) =~= rest);
}

/// What is read of the files a cat is given is all of them, in order: each with
/// its name over it. One that cannot be read is complained of, and changes
/// nothing else.
pub proof fn every_file_is_in_the_context(before: Seq<ContextFile>, f: ContextFile)
    ensures
        text::starts(context_text(before.push(f)), context_text(before)),
        f.text matches Ok(s) ==> text::ends(context_text(before.push(f)), text::trimmed(s@))
            && text::has(context_text(before.push(f)), "\n\n## "@ + f.stem@ + "\n\n"@)
            && context_problems(before.push(f)) == context_problems(before),
        f.text matches Err(e) ==> context_text(before.push(f)) == context_text(before)
            && context_problems(before.push(f)) == context_problems(before).push(
            f.path@ + ": "@ + e@,
        ),
{
    let all = before.push(f);
    assert(all.drop_last() =~= before);
    assert(all.last() == f);
    let c = context_text(before);
    let r = context_text(all);
    assert(r.subrange(0, c.len() as int) =~= c);
    match f.text {
        Ok(s) => {
            let t = text::trimmed(s@);
            assert(r.subrange(r.len() - t.len(), r.len() as int) =~= t);
            let h = "\n\n## "@ + f.stem@ + "\n\n"@;
            assert(r.subrange(c.len() as int, c.len() + h.len() as int) =~= h);
            assert(text::occurs_at(r, h, c.len() as int));
        },
        Err(_) => {},
    }
}

/// A reader that has no floor takes every event, counts those of a block from
/// one, and asks next for what is behind the furthest it was given.
pub proof fn a_reader_counts_as_it_goes(c: EventCursor, seq: u64, block: u64)
    requires
        c.floor is None,
        c.in_block < usize::MAX,
    ensures
        past(c, seq, block).1,
        past(c, seq, block).0.block == block,
        past(c, seq, block).0.seq >= c.seq && past(c, seq, block).0.seq >= seq,
        past(c, seq, block).0.seq == c.seq || past(c, seq, block).0.seq == seq,
        block == c.block ==> past(c, seq, block).0.in_block == c.in_block + 1,
        block != c.block ==> past(c, seq, block).0.in_block == 1,
        past(c, seq, block).0.floor is None,
{
}

/// A reader starts at what it was told to, with nothing taken.
pub proof fn a_reader_starts_where_it_is_told(since: u64, seq: u64, block: u64)
    ensures
        reader(since).seq == since,
        reader(since).floor is None,
        reader(since).in_block == 0,
        past(reader(since), seq, block).1,
{
}

/// Of the files of a directory those that end in `.md`, and have a name
/// before it, are taken in order.
pub proof fn only_markdown_is_taken(
    a: Seq<Seq<char>>,
    b: Seq<Seq<char>>,
    x: Seq<char>,
)
    ensures
        markdown_among(a + b) == markdown_among(a) + markdown_among(b),
        markdown_among(seq![x]) == (if text::ends(x, ".md"@) && x.len() > 3 {
            seq![x]
        } else {
            Seq::<Seq<char>>::empty()
        }),
        markdown_among(Seq::<Seq<char>>::empty()).len() == 0,
    decreases b.len(),
{
    reveal_with_fuel(markdown_among, 2);
    assert(seq![x].drop_last() =~= Seq::<Seq<char>>::empty());
    assert(markdown_among(Seq::<Seq<char>>::empty()).len() == 0);
    if b.len() == 0 {
        assert(a + b =~= a);
        assert(markdown_among(a + b) =~= markdown_among(a) + markdown_among(b));
    } else {
        let all = a + b;
        assert(all.drop_last() =~= a + b.drop_last());
        assert(all.last() == b.last());
        only_markdown_is_taken(a, b.drop_last(), x);
        assert(markdown_among(all) =~= markdown_among(a) + markdown_among(b));
    }
}

/// Every path of a list is taken in order, without the white space round
/// it; blank ones are left out.
pub proof fn every_path_is_taken(
    a: Seq<Seq<char>>,
    b: Seq<Seq<char>>,
    x: Seq<char>,
)
    ensures
        context_paths(a + b) == context_paths(a) + context_paths(b),
        context_paths(seq![x]) == (if text::trimmed(x).len() > 0 {
            seq![text::trimmed(x)]
        } else {
            Seq::<Seq<char>>::empty()
        }),
        context_paths(Seq::<Seq<char>>::empty()).len() == 0,
    decreases b.len(),
{
    reveal_with_fuel(context_paths, 2);
    assert(seq![x].drop_last() =~= Seq::<Seq<char>>::empty());
    assert(context_paths(Seq::<Seq<char>>::empty()).len() == 0);
    if b.len() == 0 {
        assert(a + b =~= a);
        assert(context_paths(a + b) =~= context_paths(a) + context_paths(b));
    } else {
        let all = a + b;
        assert(all.drop_last() =~= a + b.drop_last());
        assert(all.last() == b.last());
        every_path_is_taken(a, b.drop_last(), x);
        assert(context_paths(all) =~= context_paths(a) + context_paths(b));
    }
}

/// The seed a roster gives a name is that of the first entry with that name that
/// has a seed; an entry of another name, or with a key alone, is passed over.
pub proof fn a_seed_goes_with_its_name(
    pieces: Seq<Seq<char>>,
    name: Seq<char>,
    n: Seq<char>,
    v: Seq<char>,
    seed: Seq<u8>,
)
    requires
        pieces.len() > 0,
        text::cut(pieces[0], '=') == Some((n, v)),
    ensures
        text::lowered(text::trimmed(n)) == name && !text::starts(text::trimmed(v), "pub:"@)
            && seed_in(text::trimmed(v)) == Ok::<Seq<u8>, Seq<char>>(seed) ==> seed_named(
            pieces,
            name,
        ) == Some(seed),
        text::lowered(text::trimmed(n)) != name || text::starts(text::trimmed(v), "pub:"@)
            ==> seed_named(pieces, name) == seed_named(pieces.skip(1), name),
{
}

/// Nobody has a seed in a roster of none.
pub proof fn an_empty_roster_gives_no_seed(name: Seq<char>)
    ensures
        seed_named(Seq::empty(), name) is None,
{
}

} // verus!
