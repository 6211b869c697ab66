//! What the command line decides before anything runs: who signs, which model
//! thinks, which nodes are tried, and whether a genesis makes sense.

use crate::auth;
use crate::common;
use crate::common::Roster;
use crate::keys::Account;
use crate::text;
use vstd::prelude::*;
use vstd::string::*;

verus! {

/// The roster of a local run. Its names are not the deployed ones, so that a
/// roster left over from one cannot name accounts in the other.
pub const DEV_ROSTER: &'static str = "root=1,simlead=2,sima=3,simb=4,simc=5";

/// Where a client looks for a node that nothing names.
pub const DEFAULT_NODE: &'static str = "https://127.0.0.1:9944";

// ---------------------------------------------------------------------
// Models
// ---------------------------------------------------------------------

/// What a cat thinks with.
pub enum Model {
    /// A server that needs no key.
    Local { url: String, model: String },
    /// GLM, with a key from a file.
    Glm { model: String },
    /// An OpenRouter model, with a key from a file.
    OpenRouter { model: String },
    /// An OpenRouter model was asked for and none named: it is a spending
    /// choice, and has no default.
    Unnamed,
    /// None.
    Nothing,
}

/// The error for an OpenRouter model that is not named.
pub const UNNAMED_MODEL: &'static str = "--openrouter needs --model (an OpenRouter model id, e.g. qwen/qwen3-coder)";

fn named_or(model: &Option<String>, other: &str) -> (r: String)
    ensures
        r@ == (match text::text_view(*model) {
            Some(m) => m,
            None => other@,
        }),
{
    match model {
        Some(m) => m.clone(),
        None => other.to_owned(),
    }
}

/// Which model the flags ask for: a local one first, then GLM, then OpenRouter.
pub fn build_llm_for(llm: &Option<String>, glm: bool, openrouter: bool, model: &Option<String>) -> (r:
    Model)
    ensures
        match text::text_view(*llm) {
            Some(u) => r matches Model::Local { url, model: m } && url@ == u && m@ == (
            match text::text_view(*model) {
                Some(x) => x,
                None => "qwen3:4b"@,
            }),
            None => if glm {
                r matches Model::Glm { model: m } && m@ == (match text::text_view(*model) {
                    Some(x) => x,
                    None => "glm-5.3"@,
                })
            } else if openrouter {
                match text::text_view(*model) {
                    Some(x) => r matches Model::OpenRouter { model: m } && m@ == x,
                    None => r is Unnamed,
                }
            } else {
                r is Nothing
            },
        },
{
    match llm {
        Some(u) => {
            return Model::Local { url: u.clone(), model: named_or(model, "qwen3:4b") };
        },
        None => {},
    }
    if glm {
        return Model::Glm { model: named_or(model, "glm-5.3") };
    }
    if openrouter {
        return match model {
            Some(m) => Model::OpenRouter { model: m.clone() },
            None => Model::Unnamed,
        };
    }
    Model::Nothing
}

// ---------------------------------------------------------------------
// Signing
// ---------------------------------------------------------------------

/// Whose key a command signs with.
pub enum SignAs {
    Seed(String),
    SeedFile(String),
    /// A roster member's.
    Member(String),
    /// The operator's own.
    Operator,
}

/// Whose key a command signs with: a seed, then a seed's file, then a roster
/// member, then the operator's own.
pub fn signer(seed: &Option<String>, seed_file: &Option<String>, name: &Option<String>) -> (r: SignAs)
    ensures
        match (text::text_view(*seed), text::text_view(*seed_file), text::text_view(*name)) {
            (Some(s), _, _) => r matches SignAs::Seed(x) && x@ == s,
            (None, Some(f), _) => r matches SignAs::SeedFile(x) && x@ == f,
            (None, None, Some(n)) => r matches SignAs::Member(x) && x@ == n,
            (None, None, None) => r is Operator,
        },
{
    match seed {
        Some(s) => {
            return SignAs::Seed(s.clone());
        },
        None => {},
    }
    match seed_file {
        Some(f) => {
            return SignAs::SeedFile(f.clone());
        },
        None => {},
    }
    match name {
        Some(n) => SignAs::Member(n.clone()),
        None => SignAs::Operator,
    }
}

/// The error for a roster member whose seed is not known.
pub fn no_seed(name: &str) -> (r: String)
    ensures
        r@ == "--as "@ + name@ + ": no seed for "@ + name@
            + " in the roster (a pub: entry can't sign)"@,
{
    "--as ".to_owned().concat(name).concat(": no seed for ").concat(name).concat(
        " in the roster (a pub: entry can't sign)",
    )
}

/// The error for a node without a key of its own.
pub fn no_keypair(name: &str) -> (r: String)
    ensures
        r@ == "run needs a keypair to sign mesh traffic: --seed-file, --seed, or a seed for "@ + name@
            + " in the roster"@,
{
    "run needs a keypair to sign mesh traffic: --seed-file, --seed, or a seed for ".to_owned().concat(
        name,
    ).concat(" in the roster")
}

// ---------------------------------------------------------------------
// Nodes
// ---------------------------------------------------------------------

/// The texts that hold something.
pub open spec fn filled(v: Seq<Seq<char>>) -> Seq<Seq<char>>
    decreases v.len(),
{
    if v.len() == 0 {
        seq![]
    } else if v.last().len() == 0 {
        filled(v.drop_last())
    } else {
        filled(v.drop_last()).push(v.last())
    }
}

/// The nodes a client tries, in order.
pub open spec fn nodes_to_try(node: Option<Seq<char>>, nodes: Seq<Seq<char>>) -> Seq<Seq<char>> {
    let first = match node {
        Some(n) => seq![n],
        None => seq![],
    };
    let all = first + filled(nodes);
    if all.len() == 0 {
        seq![DEFAULT_NODE@]
    } else {
        all
    }
}

fn add_filled(out: &mut Vec<String>, v: &Vec<String>)
    ensures
        text::texts(final(out)@) == text::texts(old(out)@) + filled(text::texts(v@)),
{
    let ghost first = text::texts(out@);
    let ghost all = text::texts(v@);
    let mut i: usize = 0;
    assert(all.take(0) =~= Seq::<Seq<char>>::empty());
    assert(first + filled(all.take(0)) =~= first);
    while i < v.len()
        invariant
            i <= v.len(),
            all == text::texts(v@),
            text::texts(out@) == first + filled(all.take(i as int)),
        decreases v.len() - i,
    {
        assert(all.take(i + 1).drop_last() =~= all.take(i as int));
        assert(all.take(i + 1).last() == v@[i as int]@);
        if text::chars_of(v[i].as_str()).len() > 0 {
            text::put(out, v[i].as_str());
            assert(first + filled(all.take(i as int)).push(v@[i as int]@) =~= (first + filled(
                all.take(i as int),
            )).push(v@[i as int]@));
        }
        i = i + 1;
    }
    assert(all.take(i as int) =~= all);
}

/// The nodes a client tries: the one named first, then the others, and where
/// none is named the one on this machine.
pub fn candidates(node: &Option<String>, nodes: &Vec<String>) -> (out: Vec<String>)
    ensures
        text::texts(out@) == nodes_to_try(text::text_view(*node), text::texts(nodes@)),
{
    let mut out = text::none();
    match node {
        Some(n) => {
            text::put(&mut out, n.as_str());
        },
        None => {},
    }
    let ghost first: Seq<Seq<char>> = match text::text_view(*node) {
        Some(n) => seq![n],
        None => seq![],
    };
    assert(text::texts(out@) =~= first);
    add_filled(&mut out, nodes);
    if out.len() == 0 {
        text::put(&mut out, DEFAULT_NODE);
        assert(text::texts(out@) =~= seq![DEFAULT_NODE@]);
    }
    out
}

/// A peer's address without the space around it and the slashes behind it.
pub open spec fn peer_address(s: Seq<char>) -> Seq<char> {
    text::without_trailing(text::trimmed(s), '/')
}

pub open spec fn peer_addresses(v: Seq<Seq<char>>) -> Seq<Seq<char>> {
    filled(v.map_values(|s: Seq<char>| peer_address(s)))
}

/// The other members, as this node reaches them.
pub fn peers(v: &Vec<String>) -> (out: Vec<String>)
    ensures
        text::texts(out@) == peer_addresses(text::texts(v@)),
{
    let ghost want = text::texts(v@).map_values(|s: Seq<char>| peer_address(s));
    let mut bare = text::none();
    let mut i: usize = 0;
    while i < v.len()
        invariant
            i <= v.len(),
            want == text::texts(v@).map_values(|s: Seq<char>| peer_address(s)),
            text::texts(bare@) == want.take(i as int),
        decreases v.len() - i,
    {
        let s = text::trim_trailing(text::trim(v[i].as_str()).as_str(), '/');
        text::put(&mut bare, s.as_str());
        assert(want[i as int] == s@);
        assert(want.take(i + 1) =~= want.take(i as int).push(s@));
        i = i + 1;
    }
    assert(want.take(i as int) =~= want);
    let mut out = text::none();
    let ghost none = text::texts(out@);
    add_filled(&mut out, &bare);
    assert(none + filled(want) =~= filled(want));
    out
}

/// Where a node's block log is kept if nothing says so.
pub fn default_db(name: &str) -> (r: String)
    ensures
        r@ == "kot-"@ + name@ + ".db"@,
{
    "kot-".to_owned().concat(name).concat(".db")
}

// ---------------------------------------------------------------------
// Genesis
// ---------------------------------------------------------------------

/// The first patron that is a member already.
pub open spec fn patron_clash(
    patrons: Seq<(Seq<char>, Seq<u8>)>,
    members: Seq<Seq<u8>>,
    root: Seq<u8>,
    leader: Seq<u8>,
) -> Option<Seq<char>>
    decreases patrons.len(),
{
    if patrons.len() == 0 {
        None
    } else if members.contains(patrons[0].1) || patrons[0].1 == root || patrons[0].1 == leader {
        Some(patrons[0].0)
    } else {
        patron_clash(patrons.skip(1), members, root, leader)
    }
}

/// A member doesn't need to be a patron, and saying so is taken for a mistake.
pub fn check_patrons(
    patrons: &Vec<(String, Account)>,
    roster: &Vec<(String, Account)>,
    root: &Account,
    leader: &Account,
) -> (r: Result<(), String>)
    ensures
        common::unit_view(r) == (match patron_clash(
            common::entries(patrons@),
            auth::named_accounts(common::entries(roster@)),
            root@,
            leader@,
        ) {
            Some(name) => Some(
                "--patrons: "@ + name
                    + " is already a genesis member; a member doesn't need to be a patron"@,
            ),
            None => None,
        }),
{
    let members = auth::members_of(roster);
    let ghost all = common::entries(patrons@);
    let ghost set = auth::named_accounts(common::entries(roster@));
    let mut i: usize = 0;
    assert(all.skip(0) =~= all);
    while i < patrons.len()
        invariant
            i <= patrons.len(),
            all == common::entries(patrons@),
            set == auth::named_accounts(common::entries(roster@)),
            auth::accounts(members@) == set,
            patron_clash(all, set, root@, leader@) == patron_clash(
                all.skip(i as int),
                set,
                root@,
                leader@,
            ),
        decreases patrons.len() - i,
    {
        assert(all.skip(i as int)[0] == (patrons@[i as int].0@, patrons@[i as int].1@));
        assert(all.skip(i as int).skip(1) =~= all.skip(i + 1));
        if auth::is_trusted_signer(&members, root, leader, &patrons[i].1) {
            return Err(
                "--patrons: ".to_owned().concat(patrons[i].0.as_str()).concat(
                    " is already a genesis member; a member doesn't need to be a patron",
                ),
            );
        }
        i = i + 1;
    }
    Ok(())
}

/// The litter's leader: a roster's name, or else what is to be read as an
/// account.
pub enum LeaderSpec {
    Known(Account),
    Read(String),
}

pub fn leader_of(roster: &Roster, spec: &str) -> (r: LeaderSpec)
    ensures
        match common::account_named(roster@, common::tag_name(spec@)) {
            Some(a) => r matches LeaderSpec::Known(x) && x@ == a,
            None => r matches LeaderSpec::Read(s) && s@ == spec@,
        },
{
    match roster.account(spec) {
        Some(a) => LeaderSpec::Known(a),
        None => LeaderSpec::Read(spec.to_owned()),
    }
}

// ---------------------------------------------------------------------
// Personas
// ---------------------------------------------------------------------

/// Who a cat of the litter is, if no file says so.
pub fn default_persona(name: &str) -> (r: String)
    ensures
        r@ == "You are "@ + name@ + ", a cat in the Akuma Miot litter."@,
{
    "You are ".to_owned().concat(name).concat(", a cat in the Akuma Miot litter.")
}

/// Who a cat in a terminal is, if no file says so.
pub fn chat_persona(name: &str) -> (r: String)
    ensures
        r@ == "You are "@ + name@
            + ", a cat, talking directly to your operator — no task, no chain, just conversation."@,
{
    "You are ".to_owned().concat(name).concat(
        ", a cat, talking directly to your operator — no task, no chain, just conversation.",
    )
}

pub open spec fn skipped(name: Seq<char>, problems: Seq<Seq<char>>) -> Seq<Seq<char>> {
    problems.map_values(|p: Seq<char>| "["@ + name + "] --context: "@ + p + " (skipped)"@)
}

/// A persona with its extra sections behind it, and a line for each of them
/// that could not be read.
pub fn with_context(persona: &str, files: &Vec<common::ContextFile>, name: &str) -> (r: (
    String,
    Vec<String>,
))
    ensures
        r.0@ == persona@ + common::context_text(files@),
        text::texts(r.1@) == skipped(name@, common::context_problems(files@)),
{
    let (extra, problems) = common::load_context(files);
    let ghost want = skipped(name@, text::texts(problems@));
    let mut out = text::none();
    let mut i: usize = 0;
    while i < problems.len()
        invariant
            i <= problems.len(),
            want == skipped(name@, text::texts(problems@)),
            text::texts(out@) == want.take(i as int),
        decreases problems.len() - i,
    {
        let line = "[".to_owned().concat(name).concat("] --context: ").concat(
            problems[i].as_str(),
        ).concat(" (skipped)");
        text::put(&mut out, line.as_str());
        assert(want[i as int] == line@);
        assert(want.take(i + 1) =~= want.take(i as int).push(line@));
        i = i + 1;
    }
    assert(want.take(i as int) =~= want);
    (persona.to_owned().concat(extra.as_str()), out)
}

/// A node that is given is tried first, then the others in order; with none
/// given it is the one on this host.
pub proof fn the_node_given_is_tried_first(node: Option<Seq<char>>, nodes: Seq<Seq<char>>)
    ensures
        node matches Some(n) ==> nodes_to_try(node, nodes) == seq![n] + filled(nodes),
        node is None && filled(nodes).len() > 0 ==> nodes_to_try(node, nodes) == filled(nodes),
        node is None && filled(nodes).len() == 0 ==> nodes_to_try(node, nodes) == seq![
            "https://127.0.0.1:9944"@,
        ],
{
    if node is None {
        assert(Seq::<Seq<char>>::empty() + filled(nodes) =~= filled(nodes));
    }
}

/// A patron that is a member already, or the root, or the leader, is refused: the
/// first such by name. None is refused otherwise.
pub proof fn a_member_is_no_patron(
    patrons: Seq<(Seq<char>, Seq<u8>)>,
    members: Seq<Seq<u8>>,
    root: Seq<u8>,
    leader: Seq<u8>,
)
    ensures
        match patron_clash(patrons, members, root, leader) {
            Some(name) => exists|i: int|
                0 <= i < patrons.len() && (#[trigger] patrons[i]).0 == name && (members.contains(
                    patrons[i].1,
                ) || patrons[i].1 == root || patrons[i].1 == leader),
            None => forall|i: int|
                0 <= i < patrons.len() ==> !members.contains((#[trigger] patrons[i]).1)
                    && patrons[i].1 != root && patrons[i].1 != leader,
        },
    decreases patrons.len(),
{
    if patrons.len() > 0 {
        let rest = patrons.skip(1);
        a_member_is_no_patron(rest, members, root, leader);
        if members.contains(patrons[0].1) || patrons[0].1 == root || patrons[0].1 == leader {
            assert(patrons[0].0 == patrons[0].0);
        } else {
            match patron_clash(rest, members, root, leader) {
                Some(name) => {
                    let i = choose|i: int|
                        0 <= i < rest.len() && (#[trigger] rest[i]).0 == name && (members.contains(
                            rest[i].1,
                        ) || rest[i].1 == root || rest[i].1 == leader);
                    assert(patrons[i + 1] == rest[i]);
                },
                None => {
                    assert forall|i: int| 0 <= i < patrons.len() implies !members.contains(
                        (#[trigger] patrons[i]).1,
                    ) && patrons[i].1 != root && patrons[i].1 != leader by {
                        if i > 0 {
                            assert(rest[i - 1] == patrons[i]);
                        }
                    }
                },
            }
        }
    }
}

/// Every problem with the files is told, with whose they are.
pub proof fn every_problem_is_told(name: Seq<char>, problems: Seq<Seq<char>>, i: int)
    requires
        0 <= i < problems.len(),
    ensures
        skipped(name, problems).len() == problems.len(),
        text::has(skipped(name, problems)[i], name),
        text::has(skipped(name, problems)[i], problems[i]),
{
    let a = "["@;
    let b = name;
    let c = "] --context: "@;
    let d = problems[i];
    let e = " (skipped)"@;
    text::lemma_has_self(b);
    text::lemma_has_right(a, b, b);
    text::lemma_has_left(a + b, c, b);
    text::lemma_has_left(a + b + c, d, b);
    text::lemma_has_left(a + b + c + d, e, b);
    text::lemma_has_self(d);
    text::lemma_has_right(a + b + c, d, d);
    text::lemma_has_left(a + b + c + d, e, d);
}

/// Of a list every text is kept, in order, but the empty ones.
pub proof fn only_blanks_are_left_out(
    a: Seq<Seq<char>>,
    b: Seq<Seq<char>>,
    x: Seq<char>,
)
    ensures
        filled(a + b) == filled(a) + filled(b),
        filled(seq![x]) == (if x.len() > 0 {
            seq![x]
        } else {
            Seq::<Seq<char>>::empty()
        }),
        filled(Seq::<Seq<char>>::empty()).len() == 0,
    decreases b.len(),
{
    reveal_with_fuel(filled, 2);
    assert(seq![x].drop_last() =~= Seq::<Seq<char>>::empty());
    assert(filled(Seq::<Seq<char>>::empty()).len() == 0);
    if b.len() == 0 {
        assert(a + b =~= a);
        assert(filled(a + b) =~= filled(a) + filled(b));
    } else {
        let all = a + b;
        assert(all.drop_last() =~= a + b.drop_last());
        assert(all.last() == b.last());
        only_blanks_are_left_out(a, b.drop_last(), x);
        assert(filled(all) =~= filled(a) + filled(b));
    }
}

} // verus!
