//! A JSON value as the rules read it: what a tool call was given, what an
//! event or a node's answer says.

use crate::keys;
use crate::outside;
use crate::text;
use vstd::prelude::*;
use vstd::string::*;

verus! {

/// One JSON value.
#[derive(Debug)]
pub enum Json {
    Null,
    Bool(bool),
    /// A whole number from 0 up.
    Num(u64),
    /// Any other number, as it is written.
    Other(String),
    Str(String),
    List(Vec<Json>),
    /// The members, each key once.
    Object(Vec<(String, Json)>),
}

/// The member of `m` under `key`.
pub open spec fn lookup(m: Seq<(String, Json)>, key: Seq<char>) -> Option<Json>
    decreases m.len(),
{
    if m.len() == 0 {
        None
    } else if m[0].0@ == key {
        Some(m[0].1)
    } else {
        lookup(m.skip(1), key)
    }
}

/// What stands under `key`, if `j` is an object that has it.
pub open spec fn at(j: Json, key: Seq<char>) -> Option<Json> {
    match j {
        Json::Object(m) => lookup(m@, key),
        _ => None,
    }
}

/// The text that `j` is, if it is one.
pub open spec fn as_text(j: Json) -> Option<Seq<char>> {
    match j {
        Json::Str(s) => Some(s@),
        _ => None,
    }
}

pub open spec fn as_num(j: Json) -> Option<u64> {
    match j {
        Json::Num(n) => Some(n),
        _ => None,
    }
}

pub open spec fn as_flag(j: Json) -> Option<bool> {
    match j {
        Json::Bool(b) => Some(b),
        _ => None,
    }
}

/// The text under `key`, if there is one.
pub open spec fn text_at(j: Json, key: Seq<char>) -> Option<Seq<char>> {
    match at(j, key) {
        Some(v) => as_text(v),
        None => None,
    }
}

/// The text under `key`, or nothing.
pub open spec fn words_at(j: Json, key: Seq<char>) -> Seq<char> {
    match text_at(j, key) {
        Some(s) => s,
        None => ""@,
    }
}

pub open spec fn num_at(j: Json, key: Seq<char>) -> Option<u64> {
    match at(j, key) {
        Some(v) => as_num(v),
        None => None,
    }
}

/// The flag under `key`; down where there is none.
pub open spec fn flag_at(j: Json, key: Seq<char>) -> bool {
    match at(j, key) {
        Some(Json::Bool(b)) => b,
        _ => false,
    }
}

/// The items under `key`; none where there is no list.
pub open spec fn items_at(j: Json, key: Seq<char>) -> Seq<Json> {
    match at(j, key) {
        Some(Json::List(v)) => v@,
        _ => seq![],
    }
}

/// Whether something other than `null` stands under `key`.
pub open spec fn set_at(j: Json, key: Seq<char>) -> bool {
    match at(j, key) {
        None => false,
        Some(Json::Null) => false,
        Some(_) => true,
    }
}

/// The items of a list, one after the other with commas between.
pub open spec fn printed_items(v: Seq<Json>) -> Seq<char>
    decreases v,
{
    if v.len() == 0 {
        ""@
    } else if v.len() == 1 {
        printed(v[0])
    } else {
        printed_items(v.subrange(0, v.len() - 1)) + ","@ + printed(v[v.len() - 1])
    }
}

/// Written members with one more put in where its key belongs, in the place of
/// the one that has that key already.
pub open spec fn keyed_in(
    v: Seq<(Seq<char>, Seq<char>)>,
    key: Seq<char>,
    value: Seq<char>,
) -> Seq<(Seq<char>, Seq<char>)>
    decreases v.len(),
{
    if v.len() > 0 && !text::no_later(v.last().0, key) {
        keyed_in(v.drop_last(), key, value).push(v.last())
    } else if v.len() > 0 && v.last().0 == key {
        v.drop_last().push((key, value))
    } else {
        v.push((key, value))
    }
}

/// Written members, one after the other with commas between.
pub open spec fn members_text(v: Seq<(Seq<char>, Seq<char>)>) -> Seq<char>
    decreases v.len(),
{
    if v.len() == 0 {
        ""@
    } else {
        let one = outside::json_quoted(v.last().0) + ":"@ + v.last().1;
        if v.len() == 1 {
            one
        } else {
            members_text(v.drop_last()) + ","@ + one
        }
    }
}

/// The members of an object, each value written, in the order of their keys.
pub open spec fn printed_members(m: Seq<(String, Json)>) -> Seq<(Seq<char>, Seq<char>)>
    decreases m,
{
    if m.len() == 0 {
        seq![]
    } else {
        keyed_in(
            printed_members(m.subrange(0, m.len() - 1)),
            m[m.len() - 1].0@,
            printed(m[m.len() - 1].1),
        )
    }
}

/// `j` written without white space, the members of an object in the order of
/// their keys.
pub open spec fn printed(j: Json) -> Seq<char>
    decreases j,
{
    match j {
        Json::Null => "null"@,
        Json::Bool(b) => if b {
            "true"@
        } else {
            "false"@
        },
        Json::Num(n) => text::dec(n as nat),
        Json::Other(s) => s@,
        Json::Str(s) => outside::json_quoted(s@),
        Json::List(v) => "["@ + printed_items(v@) + "]"@,
        Json::Object(m) => "{"@ + members_text(printed_members(m@)) + "}"@,
    }
}

impl Json {
    /// What stands under `key`.
    pub fn get(&self, key: &str) -> (r: Option<&Json>)
        ensures
            match r {
                Some(v) => at(*self, key@) == Some(*v),
                None => at(*self, key@) is None,
            },
    {
        match self {
            Json::Object(m) => {
                let mut i: usize = 0;
                assert(m@.skip(0) =~= m@);
                while i < m.len()
                    invariant
                        i <= m.len(),
                        *self == Json::Object(*m),
                        lookup(m@, key@) == lookup(m@.skip(i as int), key@),
                    decreases m.len() - i,
                {
                    assert(m@.skip(i as int)[0] == m@[i as int]);
                    if text::same(m[i].0.as_str(), key) {
                        return Some(&m[i].1);
                    }
                    assert(m@.skip(i as int).skip(1) =~= m@.skip(i + 1));
                    i = i + 1;
                }
                None
            },
            _ => None,
        }
    }

    pub fn as_str(&self) -> (r: Option<&str>)
        ensures
            match r {
                Some(s) => as_text(*self) == Some(s@),
                None => as_text(*self) is None,
            },
    {
        match self {
            Json::Str(s) => Some(s.as_str()),
            _ => None,
        }
    }

    pub fn as_u64(&self) -> (r: Option<u64>)
        ensures
            r == as_num(*self),
    {
        match self {
            Json::Num(n) => Some(*n),
            _ => None,
        }
    }

    pub fn as_bool(&self) -> (r: Option<bool>)
        ensures
            r == as_flag(*self),
    {
        match self {
            Json::Bool(b) => Some(*b),
            _ => None,
        }
    }

    /// The text under `key`, if there is one.
    pub fn text(&self, key: &str) -> (r: Option<String>)
        ensures
            text::text_view(r) == text_at(*self, key@),
    {
        match self.get(key) {
            Some(v) => match v.as_str() {
                Some(s) => Some(s.to_owned()),
                None => None,
            },
            None => None,
        }
    }

    /// The text under `key`, or nothing.
    pub fn words(&self, key: &str) -> (r: String)
        ensures
            r@ == words_at(*self, key@),
    {
        match self.text(key) {
            Some(s) => s,
            None => {
                proof {
                    reveal_strlit("");
                }
                String::new()
            },
        }
    }

    pub fn num(&self, key: &str) -> (r: Option<u64>)
        ensures
            r == num_at(*self, key@),
    {
        match self.get(key) {
            Some(v) => v.as_u64(),
            None => None,
        }
    }

    /// The flag under `key`; down where there is none.
    pub fn flag(&self, key: &str) -> (r: bool)
        ensures
            r == flag_at(*self, key@),
    {
        match self.get(key) {
            Some(v) => match v.as_bool() {
                Some(b) => b,
                None => false,
            },
            None => false,
        }
    }

    /// Whether something other than `null` stands under `key`.
    pub fn is_set(&self, key: &str) -> (r: bool)
        ensures
            r == set_at(*self, key@),
    {
        match self.get(key) {
            Some(v) => match v {
                Json::Null => false,
                _ => true,
            },
            None => false,
        }
    }

    /// The items under `key`, if a list stands there.
    pub fn items(&self, key: &str) -> (r: Option<&Vec<Json>>)
        ensures
            match r {
                Some(v) => items_at(*self, key@) == v@,
                None => items_at(*self, key@) == Seq::<Json>::empty(),
            },
    {
        match self.get(key) {
            Some(v) => match v {
                Json::List(items) => Some(items),
                _ => None,
            },
            None => None,
        }
    }

    /// The value written without white space, the members of an object in the
    /// order of their keys.
    pub fn print(&self) -> (r: String)
        ensures
            r@ == printed(*self),
        decreases self,
    {
        match self {
            Json::Null => "null".to_owned(),
            Json::Bool(b) => if *b {
                "true".to_owned()
            } else {
                "false".to_owned()
            },
            Json::Num(n) => text::number(*n),
            Json::Other(s) => s.clone(),
            Json::Str(s) => outside::json_quote(s.as_str()),
            Json::List(v) => String::from_str("[").concat(print_items(v).as_str()).concat("]"),
            Json::Object(m) => String::from_str("{").concat(print_members(m).as_str()).concat("}"),
        }
    }
}

fn print_items(v: &Vec<Json>) -> (out: String)
    ensures
        out@ == printed_items(v@),
    decreases v@,
{
    let mut out = "".to_owned();
    let mut i: usize = 0;
    assert(v@.subrange(0, 0) =~= Seq::<Json>::empty());
    while i < v.len()
        invariant
            i <= v.len(),
            out@ == printed_items(v@.subrange(0, i as int)),
        decreases v.len() - i,
    {
        let ghost part = v@.subrange(0, i + 1);
        assert(part.subrange(0, part.len() - 1) =~= v@.subrange(0, i as int));
        assert(part[part.len() - 1] == v@[i as int]);
        let one = v[i].print();
        if i == 0 {
            out = one;
        } else {
            out.append(",");
            out.append(one.as_str());
        }
        i = i + 1;
    }
    assert(v@.subrange(0, i as int) =~= v@);
    out
}

spec fn row_views(v: Seq<(String, String)>) -> Seq<(Seq<char>, Seq<char>)> {
    Seq::new(v.len(), |i: int| (v[i].0@, v[i].1@))
}

proof fn lemma_keyed_in(
    v: Seq<(Seq<char>, Seq<char>)>,
    key: Seq<char>,
    value: Seq<char>,
    i: int,
)
    requires
        0 <= i <= v.len(),
        i == 0 || text::no_later(v[i - 1].0, key),
        forall|k: int| i <= k < v.len() ==> !text::no_later((#[trigger] v[k]).0, key),
    ensures
        keyed_in(v, key, value) == (if i > 0 && v[i - 1].0 == key {
            v.update(i - 1, (key, value))
        } else {
            v.insert(i, (key, value))
        }),
    decreases v.len(),
{
    if i < v.len() {
        let front = v.drop_last();
        assert forall|k: int| i <= k < front.len() implies !text::no_later(
            (#[trigger] front[k]).0,
            key,
        ) by {
            assert(front[k] == v[k]);
        }
        lemma_keyed_in(front, key, value, i);
        assert(!text::no_later(v[v.len() - 1].0, key));
        if i > 0 && v[i - 1].0 == key {
            assert(front.update(i - 1, (key, value)).push(v.last()) =~= v.update(
                i - 1,
                (key, value),
            ));
        } else {
            assert(front.insert(i, (key, value)).push(v.last()) =~= v.insert(i, (key, value)));
        }
    } else if i > 0 && v[i - 1].0 == key {
        assert(v.drop_last().push((key, value)) =~= v.update(i - 1, (key, value)));
    } else {
        assert(v.push((key, value)) =~= v.insert(i, (key, value)));
    }
}

fn key_in(v: &mut Vec<(String, String)>, key: &String, value: String)
    ensures
        row_views(final(v)@) == keyed_in(row_views(old(v)@), key@, value@),
{
    let ghost all = row_views(v@);
    let word = text::chars_of(key.as_str());
    let mut i: usize = v.len();
    let mut same = false;
    while i > 0
        invariant_except_break
            !same,
        invariant
            i <= v.len(),
            v@ == old(v)@,
            all == row_views(v@),
            word@ == key@,
            forall|k: int| i <= k < all.len() ==> !text::no_later((#[trigger] all[k]).0, key@),
        ensures
            i == 0 || text::no_later(all[i - 1].0, key@),
            same == (i > 0 && all[i - 1].0 == key@),
        decreases i,
    {
        assert(all[i - 1] == (v@[i - 1].0@, v@[i - 1].1@));
        let other = text::chars_of(v[i - 1].0.as_str());
        assert(other@.skip(0) =~= other@ && word@.skip(0) =~= word@);
        if text::is_no_later(&other, &word, 0) {
            same = text::same(v[i - 1].0.as_str(), key.as_str());
            break;
        }
        i = i - 1;
    }
    proof {
        lemma_keyed_in(all, key@, value@, i as int);
    }
    if same {
        v.remove(i - 1);
        v.insert(i - 1, (key.clone(), value));
        assert(row_views(v@) =~= all.update(i - 1, (key@, value@)));
    } else {
        v.insert(i, (key.clone(), value));
        assert(row_views(v@) =~= all.insert(i as int, (key@, value@)));
    }
}

fn join_members(v: &Vec<(String, String)>) -> (out: String)
    ensures
        out@ == members_text(row_views(v@)),
{
    let ghost all = row_views(v@);
    let mut out = "".to_owned();
    let mut i: usize = 0;
    assert(all.take(0) =~= Seq::<(Seq<char>, Seq<char>)>::empty());
    while i < v.len()
        invariant
            i <= v.len(),
            all == row_views(v@),
            out@ == members_text(all.take(i as int)),
        decreases v.len() - i,
    {
        assert(all.take(i + 1).drop_last() =~= all.take(i as int));
        assert(all.take(i + 1).last() == (v@[i as int].0@, v@[i as int].1@));
        let one = outside::json_quote(v[i].0.as_str()).concat(":").concat(v[i].1.as_str());
        if i == 0 {
            out = one;
        } else {
            out.append(",");
            out.append(one.as_str());
        }
        i = i + 1;
    }
    assert(all.take(i as int) =~= all);
    out
}

fn print_members(m: &Vec<(String, Json)>) -> (out: String)
    ensures
        out@ == members_text(printed_members(m@)),
    decreases m@,
{
    let mut rows: Vec<(String, String)> = Vec::new();
    let mut i: usize = 0;
    assert(m@.subrange(0, 0) =~= Seq::<(String, Json)>::empty());
    assert(row_views(rows@) =~= Seq::<(Seq<char>, Seq<char>)>::empty());
    while i < m.len()
        invariant
            i <= m.len(),
            row_views(rows@) == printed_members(m@.subrange(0, i as int)),
        decreases m.len() - i,
    {
        let ghost part = m@.subrange(0, i + 1);
        assert(part.subrange(0, part.len() - 1) =~= m@.subrange(0, i as int));
        assert(part[part.len() - 1] == m@[i as int]);
        assert(decreases_to!(m@ => m@[i as int]));
        let one = m[i].1.print();
        key_in(&mut rows, &m[i].0, one);
        i = i + 1;
    }
    assert(m@.subrange(0, i as int) =~= m@);
    join_members(&rows)
}

// ---------------------------------------------------------------------
// Building
// ---------------------------------------------------------------------

/// A value without its containers.
pub enum Tree {
    Null,
    Bool(bool),
    Num(u64),
    Other(Seq<char>),
    Str(Seq<char>),
    List(Seq<Tree>),
    Object(Seq<(Seq<char>, Tree)>),
}

pub open spec fn tree_items(v: Seq<Json>) -> Seq<Tree>
    decreases v,
{
    if v.len() == 0 {
        seq![]
    } else {
        tree_items(v.subrange(0, v.len() - 1)).push(tree(v[v.len() - 1]))
    }
}

pub open spec fn tree_members(m: Seq<(String, Json)>) -> Seq<(Seq<char>, Tree)>
    decreases m,
{
    if m.len() == 0 {
        seq![]
    } else {
        tree_members(m.subrange(0, m.len() - 1)).push(
            (m[m.len() - 1].0@, tree(m[m.len() - 1].1)),
        )
    }
}

/// What a value is, whatever holds it.
pub open spec fn tree(j: Json) -> Tree
    decreases j,
{
    match j {
        Json::Null => Tree::Null,
        Json::Bool(b) => Tree::Bool(b),
        Json::Num(n) => Tree::Num(n),
        Json::Other(s) => Tree::Other(s@),
        Json::Str(s) => Tree::Str(s@),
        Json::List(v) => Tree::List(tree_items(v@)),
        Json::Object(m) => Tree::Object(tree_members(m@)),
    }
}

pub open spec fn item_texts(v: Seq<Tree>) -> Seq<char>
    decreases v,
{
    if v.len() == 0 {
        ""@
    } else if v.len() == 1 {
        tree_text(v[0])
    } else {
        item_texts(v.subrange(0, v.len() - 1)) + ","@ + tree_text(v[v.len() - 1])
    }
}

/// The members of an object, each value written, in the order of their keys.
pub open spec fn member_texts(m: Seq<(Seq<char>, Tree)>) -> Seq<(Seq<char>, Seq<char>)>
    decreases m,
{
    if m.len() == 0 {
        seq![]
    } else {
        keyed_in(
            member_texts(m.subrange(0, m.len() - 1)),
            m[m.len() - 1].0,
            tree_text(m[m.len() - 1].1),
        )
    }
}

/// What a value is written as.
pub open spec fn tree_text(t: Tree) -> Seq<char>
    decreases t,
{
    match t {
        Tree::Null => "null"@,
        Tree::Bool(b) => if b {
            "true"@
        } else {
            "false"@
        },
        Tree::Num(n) => text::dec(n as nat),
        Tree::Other(s) => s,
        Tree::Str(s) => outside::json_quoted(s),
        Tree::List(v) => "["@ + item_texts(v) + "]"@,
        Tree::Object(m) => "{"@ + members_text(member_texts(m)) + "}"@,
    }
}

proof fn lemma_item_texts(v: Seq<Json>)
    ensures
        tree_items(v).len() == v.len(),
        printed_items(v) == item_texts(tree_items(v)),
    decreases v,
{
    if v.len() > 0 {
        let front = v.subrange(0, v.len() - 1);
        lemma_item_texts(front);
        let t = tree_items(v);
        assert(t.subrange(0, t.len() - 1) =~= tree_items(front));
        assert(decreases_to!(v => v[v.len() - 1]));
        what_is_written_depends_on_what_it_is(v[v.len() - 1]);
    }
}

proof fn lemma_member_texts(m: Seq<(String, Json)>)
    ensures
        tree_members(m).len() == m.len(),
        printed_members(m) == member_texts(tree_members(m)),
    decreases m,
{
    if m.len() > 0 {
        let front = m.subrange(0, m.len() - 1);
        lemma_member_texts(front);
        let t = tree_members(m);
        assert(t.subrange(0, t.len() - 1) =~= tree_members(front));
        assert(decreases_to!(m => m[m.len() - 1]));
        what_is_written_depends_on_what_it_is(m[m.len() - 1].1);
    }
}

/// Two values that are the same are written the same.
pub proof fn what_is_written_depends_on_what_it_is(j: Json)
    ensures
        printed(j) == tree_text(tree(j)),
    decreases j,
{
    match j {
        Json::List(v) => {
            lemma_item_texts(v@);
        },
        Json::Object(m) => {
            lemma_member_texts(m@);
        },
        _ => {},
    }
}

/// An object without members.
pub fn members() -> (m: Vec<(String, Json)>)
    ensures
        tree_members(m@) == Seq::<(Seq<char>, Tree)>::empty(),
{
    Vec::new()
}

/// One more member.
pub fn member(m: &mut Vec<(String, Json)>, key: &str, v: Json)
    ensures
        tree_members(final(m)@) == tree_members(old(m)@).push((key@, tree(v))),
{
    let ghost was = m@;
    m.push((key.to_owned(), v));
    assert(m@.subrange(0, m@.len() - 1) =~= was);
}

/// One more item.
pub fn item(v: &mut Vec<Json>, x: Json)
    ensures
        tree_items(final(v)@) == tree_items(old(v)@).push(tree(x)),
{
    let ghost was = v@;
    v.push(x);
    assert(v@.subrange(0, v@.len() - 1) =~= was);
}

pub fn string(s: &str) -> (r: Json)
    ensures
        tree(r) == Tree::Str(s@),
{
    Json::Str(s.to_owned())
}

/// A text, or `null`.
pub open spec fn text_or_null(o: Option<Seq<char>>) -> Tree {
    match o {
        Some(s) => Tree::Str(s),
        None => Tree::Null,
    }
}

pub fn string_or_null(o: &Option<String>) -> (r: Json)
    ensures
        tree(r) == text_or_null(text::text_view(*o)),
{
    match o {
        Some(s) => Json::Str(s.clone()),
        None => Json::Null,
    }
}

/// A number, or `null`.
pub open spec fn num_or_null(o: Option<u64>) -> Tree {
    match o {
        Some(n) => Tree::Num(n),
        None => Tree::Null,
    }
}

pub fn number_or_null(o: Option<u64>) -> (r: Json)
    ensures
        tree(r) == num_or_null(o),
{
    match o {
        Some(n) => Json::Num(n),
        None => Json::Null,
    }
}

pub open spec fn str_trees(v: Seq<Seq<char>>) -> Seq<Tree> {
    Seq::new(v.len(), |i: int| Tree::Str(v[i]))
}

/// A list of texts.
pub fn strings(v: &Vec<String>) -> (r: Json)
    ensures
        tree(r) == Tree::List(str_trees(text::texts(v@))),
{
    let ghost want = str_trees(text::texts(v@));
    let mut out: Vec<Json> = Vec::new();
    let mut i: usize = 0;
    assert(want.take(0) =~= Seq::<Tree>::empty());
    while i < v.len()
        invariant
            i <= v.len(),
            want == str_trees(text::texts(v@)),
            tree_items(out@) == want.take(i as int),
        decreases v.len() - i,
    {
        item(&mut out, string(v[i].as_str()));
        assert(want.take(i + 1) =~= want.take(i as int).push(Tree::Str(v@[i as int]@)));
        i = i + 1;
    }
    assert(want.take(i as int) =~= want);
    Json::List(out)
}

/// What stands under `key` in a tree: its first member of that name.
pub open spec fn under(t: Tree, key: Seq<char>) -> Option<Tree> {
    match t {
        Tree::Object(m) => first_under(m, key),
        _ => None,
    }
}

pub open spec fn first_under(m: Seq<(Seq<char>, Tree)>, key: Seq<char>) -> Option<Tree>
    decreases m.len(),
{
    if m.len() == 0 {
        None
    } else if m[0].0 == key {
        Some(m[0].1)
    } else {
        first_under(m.skip(1), key)
    }
}

/// A list's tree has as many items.
pub proof fn lemma_tree_items(v: Seq<Json>)
    ensures
        tree_items(v).len() == v.len(),
    decreases v.len(),
{
    if v.len() > 0 {
        lemma_tree_items(v.subrange(0, v.len() - 1));
    }
}

proof fn lemma_tree_members(m: Seq<(String, Json)>)
    ensures
        tree_members(m).len() == m.len(),
        forall|i: int|
            0 <= i < m.len() ==> (#[trigger] tree_members(m)[i]) == (m[i].0@, tree(m[i].1)),
    decreases m.len(),
{
    if m.len() > 0 {
        let front = m.subrange(0, m.len() - 1);
        lemma_tree_members(front);
        assert forall|i: int| 0 <= i < m.len() implies (#[trigger] tree_members(m)[i]) == (
            m[i].0@,
            tree(m[i].1),
        ) by {
            if i < front.len() {
                assert(front[i] == m[i]);
                assert(tree_members(front)[i] == (front[i].0@, tree(front[i].1)));
            }
        }
    }
}

proof fn lemma_lookup(m: Seq<(String, Json)>, key: Seq<char>)
    ensures
        match lookup(m, key) {
            Some(v) => first_under(tree_members(m), key) == Some(tree(v)),
            None => first_under(tree_members(m), key) is None,
        },
    decreases m.len(),
{
    lemma_tree_members(m);
    if m.len() > 0 {
        let rest = m.skip(1);
        lemma_lookup(rest, key);
        lemma_tree_members(rest);
        assert(tree_members(m).skip(1) =~= tree_members(rest)) by {
            assert forall|i: int| 0 <= i < rest.len() implies tree_members(m).skip(1)[i]
                == tree_members(rest)[i] by {
                assert(tree_members(m)[i + 1] == (m[i + 1].0@, tree(m[i + 1].1)));
                assert(rest[i] == m[i + 1]);
            }
        }
        assert(tree_members(m)[0] == (m[0].0@, tree(m[0].1)));
    }
}

/// What is read from a value is what its tree holds.
pub proof fn values_read_as_built(j: Json, key: Seq<char>)
    ensures
        match at(j, key) {
            Some(v) => under(tree(j), key) == Some(tree(v)),
            None => under(tree(j), key) is None,
        },
        text_at(j, key) == (match under(tree(j), key) {
            Some(Tree::Str(s)) => Some(s),
            _ => None,
        }),
        num_at(j, key) == (match under(tree(j), key) {
            Some(Tree::Num(n)) => Some(n),
            _ => None,
        }),
        flag_at(j, key) == (under(tree(j), key) == Some(Tree::Bool(true))),
        set_at(j, key) == (match under(tree(j), key) {
            Some(Tree::Null) => false,
            Some(_) => true,
            None => false,
        }),
{
    match j {
        Json::Object(m) => {
            lemma_lookup(m@, key);
        },
        _ => {},
    }
}

// ---------------------------------------------------------------------
// One line
// ---------------------------------------------------------------------

/// A text without a line break, or anything else below the space.
pub open spec fn on_one_line(s: Seq<char>) -> bool {
    forall|i: int| 0 <= i < s.len() ==> #[trigger] s[i] as u32 >= 32
}

pub open spec fn plain_items(v: Seq<Tree>) -> bool
    decreases v,
{
    v.len() == 0 || (plain_items(v.subrange(0, v.len() - 1)) && plain_numbers(v[v.len() - 1]))
}

pub open spec fn plain_members(m: Seq<(Seq<char>, Tree)>) -> bool
    decreases m,
{
    m.len() == 0 || (plain_members(m.subrange(0, m.len() - 1)) && plain_numbers(
        m[m.len() - 1].1,
    ))
}

/// No number in it is written over several lines.
pub open spec fn plain_numbers(t: Tree) -> bool
    decreases t,
{
    match t {
        Tree::Other(s) => on_one_line(s),
        Tree::List(v) => plain_items(v),
        Tree::Object(m) => plain_members(m),
        _ => true,
    }
}

proof fn lemma_joined_line(a: Seq<char>, b: Seq<char>)
    requires
        on_one_line(a),
        on_one_line(b),
    ensures
        on_one_line(a + b),
{
    assert forall|i: int| 0 <= i < (a + b).len() implies #[trigger] (a + b)[i] as u32 >= 32 by {
        if i < a.len() {
            assert((a + b)[i] == a[i]);
        } else {
            assert((a + b)[i] == b[i - a.len()]);
        }
    }
}

proof fn lemma_digits_on_one_line(n: nat)
    ensures
        on_one_line(text::dec(n)),
    decreases n,
{
    let last = text::digit(n % 10);
    assert(last as int == 48 + n % 10);
    if n >= 10 {
        lemma_digits_on_one_line(n / 10);
        assert(text::dec(n) =~= text::dec(n / 10) + seq![last]);
        lemma_joined_line(text::dec(n / 10), seq![last]);
    } else {
        assert(text::dec(n) =~= seq![last]);
    }
}

proof fn lemma_quoted_on_one_line(s: Seq<char>)
    ensures
        on_one_line(outside::json_escaped(s)),
        on_one_line(outside::json_quoted(s)),
    decreases s.len(),
{
    if s.len() > 0 {
        let front = outside::json_escaped(s.drop_last());
        let one = outside::json_escape(s.last());
        lemma_quoted_on_one_line(s.drop_last());
        let n = s.last() as u32;
        if n < 32 {
            let digits = keys::hexed(seq![n as u8]);
            assert forall|i: int| 0 <= i < digits.len() implies #[trigger] digits[i] as u32
                >= 32 by {}
            lemma_joined_line(seq!['\\', 'u', '0', '0'], digits);
        }
        assert(on_one_line(one));
        lemma_joined_line(front, one);
    }
    let body = outside::json_escaped(s);
    lemma_joined_line(seq!['"'], body);
    lemma_joined_line(seq!['"'] + body, seq!['"']);
}

proof fn lemma_items_on_one_line(v: Seq<Tree>)
    requires
        plain_items(v),
    ensures
        on_one_line(item_texts(v)),
    decreases v,
{
    reveal_strlit("");
    reveal_strlit(",");
    if v.len() > 0 {
        let front = v.subrange(0, v.len() - 1);
        let last = v[v.len() - 1];
        assert(decreases_to!(v => v[v.len() - 1]));
        values_are_written_on_one_line(last);
        if v.len() > 1 {
            lemma_items_on_one_line(front);
            lemma_joined_line(item_texts(front), ","@);
            lemma_joined_line(item_texts(front) + ","@, tree_text(last));
        }
    }
}

spec fn values_on_one_line(v: Seq<(Seq<char>, Seq<char>)>) -> bool {
    forall|i: int| 0 <= i < v.len() ==> on_one_line((#[trigger] v[i]).1)
}

proof fn lemma_keyed_on_one_line(
    v: Seq<(Seq<char>, Seq<char>)>,
    key: Seq<char>,
    value: Seq<char>,
)
    requires
        values_on_one_line(v),
        on_one_line(value),
    ensures
        values_on_one_line(keyed_in(v, key, value)),
    decreases v.len(),
{
    let all = keyed_in(v, key, value);
    if v.len() > 0 {
        let front = v.drop_last();
        assert forall|i: int| 0 <= i < front.len() implies on_one_line((#[trigger] front[i]).1) by {
            assert(front[i] == v[i]);
        }
        assert(on_one_line(v[v.len() - 1].1));
        if !text::no_later(v.last().0, key) {
            lemma_keyed_on_one_line(front, key, value);
        }
    }
    assert forall|i: int| 0 <= i < all.len() implies on_one_line((#[trigger] all[i]).1) by {
        if v.len() > 0 && !text::no_later(v.last().0, key) {
            let less = keyed_in(v.drop_last(), key, value);
            if i < less.len() {
                assert(all[i] == less[i]);
            }
        } else if i < all.len() - 1 {
            assert(all[i] == v[i]);
        }
    }
}

proof fn lemma_members_line(v: Seq<(Seq<char>, Seq<char>)>)
    requires
        values_on_one_line(v),
    ensures
        on_one_line(members_text(v)),
    decreases v.len(),
{
    reveal_strlit("");
    reveal_strlit(",");
    reveal_strlit(":");
    if v.len() > 0 {
        let front = v.drop_last();
        assert(on_one_line(v[v.len() - 1].1));
        let key = outside::json_quoted(v.last().0);
        lemma_quoted_on_one_line(v.last().0);
        lemma_joined_line(key, ":"@);
        lemma_joined_line(key + ":"@, v.last().1);
        if v.len() > 1 {
            assert forall|i: int| 0 <= i < front.len() implies on_one_line(
                (#[trigger] front[i]).1,
            ) by {
                assert(front[i] == v[i]);
            }
            lemma_members_line(front);
            lemma_joined_line(members_text(front), ","@);
            lemma_joined_line(members_text(front) + ","@, key + ":"@ + v.last().1);
        }
    }
}

proof fn lemma_members_on_one_line(m: Seq<(Seq<char>, Tree)>)
    requires
        plain_members(m),
    ensures
        values_on_one_line(member_texts(m)),
    decreases m,
{
    if m.len() > 0 {
        let front = m.subrange(0, m.len() - 1);
        let last = m[m.len() - 1];
        assert(decreases_to!(m => m[m.len() - 1]));
        values_are_written_on_one_line(last.1);
        lemma_members_on_one_line(front);
        lemma_keyed_on_one_line(member_texts(front), last.0, tree_text(last.1));
    }
}

/// A value is written on one line, whatever texts are in it.
pub proof fn values_are_written_on_one_line(t: Tree)
    requires
        plain_numbers(t),
    ensures
        on_one_line(tree_text(t)),
    decreases t,
{
    match t {
        Tree::Null => {
            reveal_strlit("null");
        },
        Tree::Bool(b) => {
            reveal_strlit("true");
            reveal_strlit("false");
        },
        Tree::Num(n) => {
            lemma_digits_on_one_line(n as nat);
        },
        Tree::Other(s) => {},
        Tree::Str(s) => {
            lemma_quoted_on_one_line(s);
        },
        Tree::List(v) => {
            reveal_strlit("[");
            reveal_strlit("]");
            lemma_items_on_one_line(v);
            lemma_joined_line("["@, item_texts(v));
            lemma_joined_line("["@ + item_texts(v), "]"@);
        },
        Tree::Object(m) => {
            reveal_strlit("{");
            reveal_strlit("}");
            lemma_members_on_one_line(m);
            lemma_members_line(member_texts(m));
            lemma_joined_line("{"@, members_text(member_texts(m)));
            lemma_joined_line("{"@ + members_text(member_texts(m)), "}"@);
        },
    }
}

// ---------------------------------------------------------------------
// The order of keys
// ---------------------------------------------------------------------

/// Each key comes before the next.
pub open spec fn in_key_order(v: Seq<(Seq<char>, Seq<char>)>) -> bool {
    forall|i: int, j: int|
        0 <= i < j < v.len() ==> text::no_later((#[trigger] v[i]).0, (#[trigger] v[j]).0) && v[i].0
            != v[j].0
}

proof fn lemma_keyed_in_order(v: Seq<(Seq<char>, Seq<char>)>, key: Seq<char>, value: Seq<char>)
    requires
        in_key_order(v),
    ensures
        in_key_order(keyed_in(v, key, value)),
        keyed_in(v, key, value).len() > 0,
        keyed_in(v, key, value).last().0 == (if v.len() > 0 && !text::no_later(v.last().0, key) {
            v.last().0
        } else {
            key
        }),
    decreases v.len(),
{
    let all = keyed_in(v, key, value);
    if v.len() > 0 {
        let front = v.drop_last();
        let last = v[v.len() - 1];
        assert(in_key_order(front)) by {
            assert forall|i: int, j: int| 0 <= i < j < front.len() implies text::no_later(
                (#[trigger] front[i]).0,
                (#[trigger] front[j]).0,
            ) && front[i].0 != front[j].0 by {
                assert(front[i] == v[i] && front[j] == v[j]);
            }
        }
        if !text::no_later(last.0, key) {
            let less = keyed_in(front, key, value);
            lemma_keyed_in_order(front, key, value);
            text::lemma_no_later_total(last.0, key);
            assert(text::no_later(less.last().0, last.0) && less.last().0 != last.0) by {
                if front.len() > 0 {
                    assert(front[front.len() - 1] == v[v.len() - 2]);
                    assert(text::no_later(v[v.len() - 2].0, v[v.len() - 1].0));
                }
            }
            assert forall|i: int, j: int| 0 <= i < j < all.len() implies text::no_later(
                (#[trigger] all[i]).0,
                (#[trigger] all[j]).0,
            ) && all[i].0 != all[j].0 by {
                if j < less.len() {
                    assert(all[i] == less[i] && all[j] == less[j]);
                } else {
                    let top = less[less.len() - 1];
                    assert(all[i] == less[i]);
                    if i < less.len() - 1 {
                        assert(text::no_later(less[i].0, top.0) && less[i].0 != top.0);
                        text::lemma_no_later_joins(less[i].0, top.0, last.0);
                        if less[i].0 == last.0 {
                            text::lemma_no_later_both(last.0, top.0);
                        }
                    }
                }
            }
        } else {
            assert forall|i: int, j: int| 0 <= i < j < all.len() implies text::no_later(
                (#[trigger] all[i]).0,
                (#[trigger] all[j]).0,
            ) && all[i].0 != all[j].0 by {
                assert(all[i] == v[i]);
                if j < all.len() - 1 {
                    assert(all[j] == v[j]);
                } else if i < v.len() - 1 {
                    assert(text::no_later(v[i].0, v[v.len() - 1].0));
                    text::lemma_no_later_joins(v[i].0, last.0, key);
                    if v[i].0 == key {
                        text::lemma_no_later_both(last.0, key);
                    }
                }
            }
        }
    }
}

/// An object's members are written in the order of their keys, each key once.
pub proof fn keys_are_written_in_order(m: Seq<(Seq<char>, Tree)>)
    ensures
        in_key_order(member_texts(m)),
    decreases m,
{
    if m.len() > 0 {
        let front = m.subrange(0, m.len() - 1);
        keys_are_written_in_order(front);
        lemma_keyed_in_order(
            member_texts(front),
            m[m.len() - 1].0,
            tree_text(m[m.len() - 1].1),
        );
    }
}

/// The words under a key are the text that stands there, and nothing where none
/// does; an argument that is left out reads as one that is empty.
pub proof fn words_are_what_stands_there(j: Json, key: Seq<char>)
    ensures
        under(tree(j), key) matches Some(Tree::Str(s)) ==> words_at(j, key) == s,
        !(under(tree(j), key) matches Some(Tree::Str(_))) ==> words_at(j, key).len() == 0,
{
    reveal_strlit("");
    values_read_as_built(j, key);
}

/// A member is found where no member before it has its key.
pub proof fn lemma_member_found(m: Seq<(Seq<char>, Tree)>, i: int)
    requires
        0 <= i < m.len(),
        forall|k: int| 0 <= k < i ==> (#[trigger] m[k]).0 != m[i].0,
    ensures
        first_under(m, m[i].0) == Some(m[i].1),
    decreases m.len(),
{
    if i > 0 {
        assert(m[0].0 != m[i].0);
        let rest = m.skip(1);
        assert forall|k: int| 0 <= k < i - 1 implies (#[trigger] rest[k]).0 != rest[i - 1].0 by {
            assert(rest[k] == m[k + 1]);
        }
        lemma_member_found(rest, i - 1);
    }
}

/// The items under a key are those of the list that stands there, in its order.
pub proof fn items_are_what_stands_there(j: Json, key: Seq<char>)
    ensures
        at(j, key) matches Some(Json::List(v)) ==> items_at(j, key) == v@,
        !(at(j, key) matches Some(Json::List(_))) ==> items_at(j, key).len() == 0,
{
}

} // verus!
