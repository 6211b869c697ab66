//! What a node has heard of the other cats' live records.

use crate::activity::Activity;
use crate::auth;
use crate::common;
use crate::keys;
use crate::keys::Account;
use crate::text;
use vstd::prelude::*;
use vstd::string::*;

verus! {

/// A record not heard of for longer than this, in milliseconds, is not served.
pub const ACTIVITY_FORGET_MS: u64 = 600_000;

/// A peer's record: when it came in, and how old it already was.
pub struct Record {
    pub account: Account,
    pub got: u64,
    pub age: u64,
    pub activity: Activity,
}

#[verifier::ext_equal]
pub struct RecordView {
    pub account: Seq<u8>,
    pub got: u64,
    pub age: u64,
    pub activity: Activity,
}

pub open spec fn record_view(r: Record) -> RecordView {
    RecordView { account: r.account@, got: r.got, age: r.age, activity: r.activity }
}

pub open spec fn record_views(v: Seq<Record>) -> Seq<RecordView> {
    v.map_values(|r: Record| record_view(r))
}

/// Whether bytes come before others in the order of accounts.
pub open spec fn sooner(a: Seq<u8>, b: Seq<u8>) -> bool
    decreases a.len(),
{
    if b.len() == 0 {
        false
    } else if a.len() == 0 {
        true
    } else {
        a[0] < b[0] || (a[0] == b[0] && sooner(a.skip(1), b.skip(1)))
    }
}

proof fn lemma_sooner(a: Seq<u8>, b: Seq<u8>, n: int)
    requires
        0 <= n < a.len(),
        n < b.len(),
        forall|k: int| 0 <= k < n ==> a[k] == b[k],
        a[n] != b[n],
    ensures
        sooner(a, b) == (a[n] < b[n]),
    decreases a.len(),
{
    if n > 0 {
        assert forall|k: int| 0 <= k < n - 1 implies a.skip(1)[k] == b.skip(1)[k] by {}
        lemma_sooner(a.skip(1), b.skip(1), n - 1);
    }
}

proof fn lemma_same(a: Seq<u8>)
    ensures
        !sooner(a, a),
    decreases a.len(),
{
    if a.len() > 0 {
        lemma_same(a.skip(1));
    }
}

proof fn lemma_chain(a: Seq<u8>, b: Seq<u8>, c: Seq<u8>)
    requires
        sooner(a, b),
        sooner(b, c),
    ensures
        sooner(a, c),
    decreases a.len(),
{
    if a.len() > 0 && a[0] == b[0] && b[0] == c[0] {
        lemma_chain(a.skip(1), b.skip(1), c.skip(1));
    }
}

proof fn lemma_one_way(a: Seq<u8>, b: Seq<u8>)
    requires
        a.len() == b.len(),
        a != b,
        !sooner(a, b),
    ensures
        sooner(b, a),
    decreases a.len(),
{
    if a.len() > 0 {
        if a[0] == b[0] {
            if a.skip(1) == b.skip(1) {
                assert(a =~= seq![a[0]] + a.skip(1));
                assert(b =~= seq![b[0]] + b.skip(1));
            }
            lemma_one_way(a.skip(1), b.skip(1));
        }
    } else {
        assert(a =~= b);
    }
}

fn is_sooner(a: &Account, b: &Account) -> (r: bool)
    ensures
        r == sooner(a@, b@),
{
    let mut i: usize = 0;
    while i < 32
        invariant
            i <= 32,
            forall|k: int| 0 <= k < i ==> a@[k] == b@[k],
        decreases 32 - i,
    {
        if a[i] != b[i] {
            proof {
                lemma_sooner(a@, b@, i as int);
            }
            return a[i] < b[i];
        }
        i = i + 1;
    }
    proof {
        assert(a@ =~= b@);
        lemma_same(a@);
    }
    false
}

/// The records with one more, in the order of accounts. One that is older than
/// the record there is leaves it: two routes can deliver the same one twice.
pub open spec fn heard(v: Seq<RecordView>, r: RecordView) -> Seq<RecordView>
    decreases v.len(),
{
    if v.len() == 0 {
        seq![r]
    } else if v[0].account == r.account {
        if v[0].activity.at > r.activity.at {
            v
        } else {
            seq![r] + v.skip(1)
        }
    } else if sooner(r.account, v[0].account) {
        seq![r] + v
    } else {
        seq![v[0]] + heard(v.skip(1), r)
    }
}

pub struct Earshot {
    pub records: Vec<Record>,
}

/// A record served: whose it is, how old it is by now, and the record.
pub open spec fn served(v: Seq<RecordView>, now: u64) -> Seq<(Seq<char>, u64, Activity)>
    decreases v.len(),
{
    if v.len() == 0 {
        seq![]
    } else {
        let rest = served(v.drop_last(), now);
        let r = v.last();
        if now - r.got > ACTIVITY_FORGET_MS {
            rest
        } else {
            rest.push((keys::hexed(r.account), since(r, now), r.activity))
        }
    }
}

/// How long ago an instant was; none where the clock has not reached it.
pub open spec fn elapsed(got: u64, now: u64) -> u64 {
    if now > got {
        (now - got) as u64
    } else {
        0
    }
}

pub open spec fn since(r: RecordView, now: u64) -> u64 {
    (r.age + elapsed(r.got, now)) as u64
}

/// Every age can be told.
pub open spec fn ages_fit(v: Seq<RecordView>, now: u64) -> bool {
    forall|i: int|
        0 <= i < v.len() ==> (#[trigger] v[i]).age + elapsed(v[i].got, now) <= u64::MAX
}

pub open spec fn served_views(v: Seq<(String, u64, &Activity)>) -> Seq<(Seq<char>, u64, Activity)> {
    v.map_values(|e: (String, u64, &Activity)| (e.0@, e.1, *e.2))
}

/// Where a record goes: at the first place from `n` on that is not before it.
proof fn lemma_heard_at(v: Seq<RecordView>, r: RecordView, n: int)
    requires
        0 <= n <= v.len(),
        forall|k: int|
            0 <= k < n ==> (#[trigger] v[k]).account != r.account && !sooner(
                r.account,
                v[k].account,
            ),
    ensures
        heard(v, r) == v.take(n) + heard(v.skip(n), r),
    decreases n,
{
    if n == 0 {
        assert(v.skip(0) =~= v);
        assert(v.take(0) + heard(v, r) =~= heard(v, r));
    } else {
        let rest = v.skip(1);
        assert forall|k: int| 0 <= k < n - 1 implies (#[trigger] rest[k]).account != r.account
            && !sooner(r.account, rest[k].account) by {
            assert(rest[k] == v[k + 1]);
        }
        lemma_heard_at(rest, r, n - 1);
        assert(rest.skip(n - 1) =~= v.skip(n));
        assert(v[0].account != r.account);
        assert(seq![v[0]] + (rest.take(n - 1) + heard(v.skip(n), r)) =~= v.take(n) + heard(
            v.skip(n),
            r,
        ));
    }
}

impl Earshot {
    pub fn new() -> (r: Earshot)
        ensures
            record_views(r.records@) == Seq::<RecordView>::empty(),
    {
        let r = Earshot { records: Vec::new() };
        assert(record_views(r.records@) =~= Seq::<RecordView>::empty());
        r
    }

    /// Takes a peer's record in, from a status `signer` sent. Only where the
    /// status names its own signer, and not where a newer one is known.
    pub fn take_peer_activity(
        &mut self,
        signer: &Account,
        named: &str,
        age: u64,
        activity: Activity,
        now: u64,
    )
        ensures
            record_views(final(self).records@) == (if named@ != keys::hexed(signer@) {
                record_views(old(self).records@)
            } else {
                heard(
                    record_views(old(self).records@),
                    RecordView { account: signer@, got: now, age, activity },
                )
            }),
    {
        if !text::same(named, keys::to_hex(signer).as_str()) {
            return;
        }
        let ghost v = record_views(self.records@);
        let ghost r = RecordView { account: signer@, got: now, age, activity };
        let mut n: usize = 0;
        while n < self.records.len() && !keys::same_account(&self.records[n].account, signer)
            && !is_sooner(signer, &self.records[n].account)
            invariant
                n <= self.records.len(),
                v == record_views(self.records@),
                r.account == signer@,
                forall|k: int|
                    0 <= k < n ==> (#[trigger] v[k]).account != r.account && !sooner(
                        r.account,
                        v[k].account,
                    ),
            decreases self.records.len() - n,
        {
            assert(v[n as int] == record_view(self.records@[n as int]));
            n = n + 1;
        }
        proof {
            lemma_heard_at(v, r, n as int);
        }
        let record = Record { account: *signer, got: now, age, activity };
        let ghost tail = v.skip(n as int);
        if n < self.records.len() {
            assert(tail[0] == record_view(self.records@[n as int]));
            if keys::same_account(&self.records[n].account, signer) {
                if self.records[n].activity.at > record.activity.at {
                    assert(v =~= v.take(n as int) + tail);
                    return;
                }
                self.records.set(n, record);
                assert(record_views(self.records@) =~= v.take(n as int) + (seq![r] + tail.skip(1)));
                return;
            }
        } else {
            assert(tail =~= Seq::<RecordView>::empty());
        }
        self.records.insert(n, record);
        assert(record_views(self.records@) =~= v.take(n as int) + (seq![r] + tail));
        if n == self.records.len() - 1 {
            assert(seq![r] + tail =~= seq![r]);
        }
    }

    /// The records served: this node's own cat's first, then each peer's, with
    /// how old each is by now; what has not been heard of for long is left out.
    pub fn activity_list<'a>(
        &'a self,
        own: &Account,
        mine: &'a Option<(u64, Activity)>,
        now: u64,
    ) -> (out: Vec<(String, u64, &'a Activity)>)
        requires
            ages_fit(record_views(self.records@), now),
        ensures
            served_views(out@) == (match mine {
                Some(m) => seq![(keys::hexed(own@), elapsed(m.0, now), m.1)],
                None => seq![],
            }) + served(record_views(self.records@), now),
    {
        let mut out: Vec<(String, u64, &Activity)> = Vec::new();
        match mine {
            Some(m) => {
                let age: u64 = if now > m.0 {
                    now - m.0
                } else {
                    0
                };
                out.push((keys::to_hex(own), age, &m.1));
            },
            None => {},
        }
        let ghost first: Seq<(Seq<char>, u64, Activity)> = match mine {
            Some(m) => seq![(keys::hexed(own@), elapsed(m.0, now), m.1)],
            None => seq![],
        };
        let ghost v = record_views(self.records@);
        assert(served_views(out@) =~= first);
        assert(v.take(0) =~= Seq::<RecordView>::empty());
        assert(first + served(v.take(0), now) =~= first);
        let mut i: usize = 0;
        while i < self.records.len()
            invariant
                i <= self.records.len(),
                v == record_views(self.records@),
                ages_fit(v, now),
                served_views(out@) == first + served(v.take(i as int), now),
            decreases self.records.len() - i,
        {
            let r = &self.records[i];
            let ghost had = served_views(out@);
            let ghost rest = served(v.take(i as int), now);
            assert(v[i as int] == record_view(*r));
            assert(v.take(i + 1).drop_last() =~= v.take(i as int));
            assert(v.take(i + 1).last() == v[i as int]);
            let past: u64 = if now > r.got {
                now - r.got
            } else {
                0
            };
            if past <= ACTIVITY_FORGET_MS {
                let one = (keys::to_hex(&r.account), r.age + past, &r.activity);
                out.push(one);
                assert(served_views(out@) =~= had.push((one.0@, one.1, *one.2)));
                assert(first + rest.push((one.0@, one.1, *one.2)) =~= (first + rest).push(
                    (one.0@, one.1, *one.2),
                ));
            }
            i = i + 1;
        }
        assert(v.take(i as int) =~= v);
        out
    }
}

/// Records in the order of accounts, one for each.
pub open spec fn in_order(v: Seq<RecordView>) -> bool {
    &&& forall|i: int, j: int|
        0 <= i < j < v.len() ==> sooner((#[trigger] v[i]).account, (#[trigger] v[j]).account)
    &&& forall|i: int| 0 <= i < v.len() ==> (#[trigger] v[i]).account.len() == 32
}

/// However records come in, there is one of each cat, in the order of accounts;
/// and what is kept of a cat is never older than what came in.
pub proof fn one_record_of_each_cat(v: Seq<RecordView>, r: RecordView)
    requires
        in_order(v),
        r.account.len() == 32,
    ensures
        in_order(heard(v, r)),
        exists|i: int|
            0 <= i < heard(v, r).len() && (#[trigger] heard(v, r)[i]).account == r.account && heard(
                v,
                r,
            )[i].activity.at >= r.activity.at,
        forall|i: int|
            0 <= i < heard(v, r).len() ==> ((#[trigger] heard(v, r)[i]).account == r.account
                || v.contains(heard(v, r)[i])),
    decreases v.len(),
{
    let h = heard(v, r);
    if v.len() == 0 {
        assert(h[0] == r);
    } else if v[0].account == r.account {
        assert(h[0].account == r.account && h[0].activity.at >= r.activity.at);
        assert forall|i: int, j: int| 0 <= i < j < h.len() implies sooner(
            (#[trigger] h[i]).account,
            (#[trigger] h[j]).account,
        ) by {
            assert(h[j] == v[j]);
            assert(h[i].account == v[i].account);
            assert(sooner(v[i].account, v[j].account));
        }
        assert forall|i: int| 0 <= i < h.len() implies (#[trigger] h[i]).account == r.account
            || v.contains(h[i]) by {
            if i > 0 {
                assert(h[i] == v[i]);
            }
        }
    } else if sooner(r.account, v[0].account) {
        assert(h[0] == r);
        assert forall|i: int, j: int| 0 <= i < j < h.len() implies sooner(
            (#[trigger] h[i]).account,
            (#[trigger] h[j]).account,
        ) by {
            assert(h[j] == v[j - 1]);
            if i > 0 {
                assert(h[i] == v[i - 1]);
            } else if j > 1 {
                lemma_chain(r.account, v[0].account, v[j - 1].account);
            }
        }
        assert forall|i: int| 0 <= i < h.len() implies (#[trigger] h[i]).account == r.account
            || v.contains(h[i]) by {
            if i > 0 {
                assert(h[i] == v[i - 1]);
            }
        }
    } else {
        let rest = v.skip(1);
        assert forall|i: int, j: int| 0 <= i < j < rest.len() implies sooner(
            (#[trigger] rest[i]).account,
            (#[trigger] rest[j]).account,
        ) by {
            assert(rest[i] == v[i + 1] && rest[j] == v[j + 1]);
        }
        assert forall|i: int| 0 <= i < rest.len() implies (#[trigger] rest[i]).account.len()
            == 32 by {
            assert(rest[i] == v[i + 1]);
        }
        one_record_of_each_cat(rest, r);
        let t = heard(rest, r);
        lemma_one_way(r.account, v[0].account);
        assert forall|i: int| 0 <= i < t.len() implies sooner(
            v[0].account,
            (#[trigger] t[i]).account,
        ) by {
            if t[i].account != r.account {
                assert(rest.contains(t[i]));
                let k = choose|k: int| 0 <= k < rest.len() && rest[k] == t[i];
                assert(rest[k] == v[k + 1]);
            }
        }
        assert forall|i: int, j: int| 0 <= i < j < h.len() implies sooner(
            (#[trigger] h[i]).account,
            (#[trigger] h[j]).account,
        ) by {
            assert(h[j] == t[j - 1]);
            if i > 0 {
                assert(h[i] == t[i - 1]);
            }
        }
        assert forall|i: int| 0 <= i < h.len() implies ((#[trigger] h[i]).account == r.account
            || v.contains(h[i])) && h[i].account.len() == 32 by {
            if i > 0 {
                assert(h[i] == t[i - 1]);
                if t[i - 1].account != r.account {
                    assert(rest.contains(t[i - 1]));
                    let k = choose|k: int| 0 <= k < rest.len() && rest[k] == t[i - 1];
                    assert(v[k + 1] == h[i]);
                }
            } else {
                assert(v[0] == h[0]);
            }
        }
        let k = choose|k: int|
            0 <= k < t.len() && (#[trigger] t[k]).account == r.account && t[k].activity.at
                >= r.activity.at;
        assert(h[k + 1] == t[k]);
    }
}

// ---------------------------------------------------------------------
// Statuses that come in
// ---------------------------------------------------------------------

/// The first name an account has among the patrons, or the account itself.
pub open spec fn patron_name(patrons: Seq<(Seq<char>, Seq<u8>)>, a: Seq<u8>) -> Seq<char>
    decreases patrons.len(),
{
    if patrons.len() == 0 {
        keys::hexed(a)
    } else if patrons[0].1 == a {
        patrons[0].0
    } else {
        patron_name(patrons.skip(1), a)
    }
}

/// What is done with a status another node sent.
pub enum Status {
    /// It is from a patron, noted under this name for readers only: it has no
    /// say in the election, whatever it claims.
    Patron(String),
    /// It does not name its own signer: it is answered, and otherwise ignored.
    Ignore,
    /// It is a member's, and taken in.
    Member,
}

/// Who sent a status. `named` is the account it says it is from.
pub fn status_from(
    signer: &Account,
    named: &str,
    members: &Vec<Account>,
    root: &Account,
    leader: &Account,
    patrons: &Vec<(String, Account)>,
) -> (r: Status)
    ensures
        if !(auth::accounts(members@).contains(signer@) || signer@ == root@ || signer@ == leader@) {
            r matches Status::Patron(name) && name@ == patron_name(
                common::entries(patrons@),
                signer@,
            )
        } else if named@ != keys::hexed(signer@) {
            r is Ignore
        } else {
            r is Member
        },
{
    if !auth::is_trusted_signer(members, root, leader, signer) {
        let ghost all = common::entries(patrons@);
        let mut i: usize = 0;
        assert(all.skip(0) =~= all);
        while i < patrons.len()
            invariant
                i <= patrons.len(),
                all == common::entries(patrons@),
                patron_name(all, signer@) == patron_name(all.skip(i as int), signer@),
                !(auth::accounts(members@).contains(signer@) || signer@ == root@ || signer@
                    == leader@),
            decreases patrons.len() - i,
        {
            assert(all.skip(i as int)[0] == (patrons@[i as int].0@, patrons@[i as int].1@));
            assert(all.skip(i as int).skip(1) =~= all.skip(i + 1));
            if keys::same_account(&patrons[i].1, signer) {
                return Status::Patron(patrons[i].0.clone());
            }
            i = i + 1;
        }
        return Status::Patron(keys::to_hex(signer));
    }
    if !text::same(named, keys::to_hex(signer).as_str()) {
        return Status::Ignore;
    }
    Status::Member
}

/// What is heard of one cat changes nothing of what was heard of another; of the
/// cat itself the newer word is kept, and an older one does not displace it.
pub proof fn what_is_heard_of_others_stays(v: Seq<RecordView>, r: RecordView, e: RecordView)
    ensures
        e.account != r.account ==> (heard(v, r).contains(e) <==> v.contains(e)),
        (forall|i: int| 0 <= i < v.len() ==> (#[trigger] v[i]).account != r.account) ==> heard(
            v,
            r,
        ).contains(r),
    decreases v.len(),
{
    if v.len() == 0 {
        assert(heard(v, r)[0] == r);
    } else {
        let rest = v.skip(1);
        let h = heard(v, r);
        what_is_heard_of_others_stays(rest, r, e);
        assert(v =~= seq![v[0]] + rest);
        lemma_front(v[0], rest, e);
        lemma_front(v[0], rest, r);
        if forall|i: int| 0 <= i < v.len() ==> (#[trigger] v[i]).account != r.account {
            assert forall|i: int| 0 <= i < rest.len() implies (#[trigger] rest[i]).account
                != r.account by {
                assert(rest[i] == v[i + 1]);
            }
            assert(v[0].account != r.account);
        }
        if v[0].account == r.account {
            if v[0].activity.at <= r.activity.at {
                lemma_front(r, rest, e);
                lemma_front(r, rest, r);
                assert(h == seq![r] + rest);
            }
        } else if sooner(r.account, v[0].account) {
            lemma_front(r, v, e);
            lemma_front(r, v, r);
            assert(h == seq![r] + v);
        } else {
            lemma_front(v[0], heard(rest, r), e);
            lemma_front(v[0], heard(rest, r), r);
            assert(h == seq![v[0]] + heard(rest, r));
        }
    }
}

proof fn lemma_front(a: RecordView, rest: Seq<RecordView>, x: RecordView)
    ensures
        (seq![a] + rest).contains(x) <==> (x == a || rest.contains(x)),
{
    let all = seq![a] + rest;
    if all.contains(x) {
        let i = choose|i: int| 0 <= i < all.len() && all[i] == x;
        if i > 0 {
            assert(rest[i - 1] == x);
        }
    }
    assert(all[0] == a);
    if rest.contains(x) {
        let i = choose|i: int| 0 <= i < rest.len() && rest[i] == x;
        assert(all[i + 1] == x);
    }
}

/// The newer word of a cat displaces the older, and an older one changes
/// nothing.
pub proof fn the_newer_word_is_kept(v: Seq<RecordView>, r: RecordView, i: int)
    requires
        in_order(v),
        r.account.len() == 32,
        0 <= i < v.len(),
        v[i].account == r.account,
    ensures
        v[i].activity.at > r.activity.at ==> heard(v, r) == v,
        v[i].activity.at <= r.activity.at ==> heard(v, r) == v.update(i, r),
    decreases v.len(),
{
    let rest = v.skip(1);
    if i == 0 {
        if v[0].activity.at <= r.activity.at {
            assert(heard(v, r) =~= v.update(0, r));
        }
    } else {
        assert(sooner(v[0].account, v[i].account));
        lemma_sooner_apart(v[0].account, v[i].account);
        assert(in_order(rest)) by {
            assert forall|a: int, b: int| 0 <= a < b < rest.len() implies sooner(
                (#[trigger] rest[a]).account,
                (#[trigger] rest[b]).account,
            ) by {
                assert(rest[a] == v[a + 1] && rest[b] == v[b + 1]);
            }
            assert forall|a: int| 0 <= a < rest.len() implies (#[trigger] rest[a]).account.len()
                == 32 by {
                assert(rest[a] == v[a + 1]);
            }
        }
        assert(rest[i - 1] == v[i]);
        the_newer_word_is_kept(rest, r, i - 1);
        if v[i].activity.at > r.activity.at {
            assert(heard(v, r) =~= v);
        } else {
            assert(heard(v, r) =~= v.update(i, r));
        }
    }
}

proof fn lemma_sooner_apart(a: Seq<u8>, b: Seq<u8>)
    requires
        sooner(a, b),
    ensures
        a != b,
        !sooner(b, a),
    decreases a.len(),
{
    if a.len() > 0 && a[0] == b[0] {
        lemma_sooner_apart(a.skip(1), b.skip(1));
    }
}

/// What was heard in the last ten minutes is served, with how old it is by now,
/// and nothing that is older.
pub proof fn what_was_heard_lately_is_served(v: Seq<RecordView>, now: u64, i: int)
    requires
        0 <= i < v.len(),
    ensures
        now - v[i].got <= 600_000 ==> served(v, now).contains(
            (keys::hexed(v[i].account), since(v[i], now), v[i].activity),
        ),
        forall|k: int|
            0 <= k < served(v, now).len() ==> exists|j: int|
                0 <= j < v.len() && now - (#[trigger] v[j]).got <= 600_000 && (#[trigger] served(v, now)[k]) == (
                    keys::hexed(v[j].account),
                    since(v[j], now),
                    v[j].activity,
                ),
    decreases v.len(),
{
    let front = v.drop_last();
    let rest = served(front, now);
    let all = served(v, now);
    let r = v.last();
    if front.len() > 0 {
        what_was_heard_lately_is_served(
            front,
            now,
            if i < front.len() {
                i
            } else {
                0
            },
        );
    }
    if i < front.len() {
        assert(front[i] == v[i]);
        if now - v[i].got <= 600_000 {
            let k = choose|k: int|
                0 <= k < rest.len() && rest[k] == (
                    keys::hexed(v[i].account),
                    since(v[i], now),
                    v[i].activity,
                );
            assert(all[k] == rest[k]);
        }
    } else if now - r.got <= 600_000 {
        assert(all[rest.len() as int] == (keys::hexed(r.account), since(r, now), r.activity));
    }
    assert forall|k: int| 0 <= k < all.len() implies exists|j: int|
        0 <= j < v.len() && now - (#[trigger] v[j]).got <= 600_000 && (#[trigger] all[k]) == (
            keys::hexed(v[j].account),
            since(v[j], now),
            v[j].activity,
        ) by {
        if k < rest.len() {
            let j = choose|j: int|
                0 <= j < front.len() && now - (#[trigger] front[j]).got <= 600_000 && rest[k] == (
                    keys::hexed(front[j].account),
                    since(front[j], now),
                    front[j].activity,
                );
            assert(v[j] == front[j]);
        } else {
            assert(v[v.len() - 1] == r);
        }
    }
}

/// A word grows older with the clock: its age when it came, and the time since.
pub proof fn a_word_grows_older_with_the_clock(r: RecordView, now: u64)
    requires
        r.age + now <= u64::MAX,
    ensures
        now >= r.got ==> since(r, now) == r.age + (now - r.got),
        now < r.got ==> since(r, now) == r.age,
{
}

/// A patron goes by the first name its account is listed under, and by the
/// account itself where it is not listed.
pub proof fn a_patron_goes_by_its_name(patrons: Seq<(Seq<char>, Seq<u8>)>, a: Seq<u8>)
    ensures
        (exists|i: int|
            0 <= i < patrons.len() && (#[trigger] patrons[i]).1 == a && patrons[i].0 == patron_name(
                patrons,
                a,
            ) && forall|k: int| 0 <= k < i ==> (#[trigger] patrons[k]).1 != a) || ((forall|k: int|
            0 <= k < patrons.len() ==> (#[trigger] patrons[k]).1 != a) && keys::unhexed(
            patron_name(patrons, a),
        ) == Some(a)),
    decreases patrons.len(),
{
    if patrons.len() == 0 {
        keys::hex_reads_back(a);
    } else if patrons[0].1 == a {
        assert(patrons[0].0 == patron_name(patrons, a));
    } else {
        let rest = patrons.skip(1);
        a_patron_goes_by_its_name(rest, a);
        assert(patron_name(patrons, a) == patron_name(rest, a));
        if exists|i: int|
            0 <= i < rest.len() && (#[trigger] rest[i]).1 == a && rest[i].0 == patron_name(rest, a)
                && forall|k: int| 0 <= k < i ==> (#[trigger] rest[k]).1 != a {
            let i = choose|i: int|
                0 <= i < rest.len() && (#[trigger] rest[i]).1 == a && rest[i].0 == patron_name(
                    rest,
                    a,
                ) && forall|k: int| 0 <= k < i ==> (#[trigger] rest[k]).1 != a;
            assert(patrons[i + 1] == rest[i]);
            assert forall|k: int| 0 <= k < i + 1 implies (#[trigger] patrons[k]).1 != a by {
                if k > 0 {
                    assert(rest[k - 1] == patrons[k]);
                }
            }
        } else {
            assert forall|k: int| 0 <= k < patrons.len() implies (#[trigger] patrons[k]).1 != a by {
                if k > 0 {
                    assert(rest[k - 1] == patrons[k]);
                }
            }
        }
    }
}

} // verus!
